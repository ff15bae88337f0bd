pub mod device;
pub mod defaults;

pub use device::{Device, cuda_output_ok, metal_output_ok};
pub use defaults::num_cpus_get;
