pub mod structs;
pub mod language;

pub use structs::{Sample, SamplePromptEnum, SampleAiEnum, SampleLineBreak, SampleCode, Samples};
pub use language::{SampleLanguage, SampleIndent};
pub mod place;

pub use place::{sample_place_into_vecs, sample_place_with_index};
pub mod create;

pub use create::{sample_create_via_ids, sample_create_via_tags};
pub mod create_all;

pub use create_all::sample_create_samples;
