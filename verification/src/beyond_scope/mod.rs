pub mod structs;

pub use structs::{BeyondScope, BeyondScopeTopic};
pub mod create;

pub use create::beyond_scope_create_samples;
