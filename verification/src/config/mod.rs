pub mod dims;
pub mod structs;

pub use dims::{
    config_get_compression_dim, config_get_rope_dim, config_get_total_params,
    config_get_total_params_checked,
};
pub use structs::{
    ConfigHuggingFaceMLA, ConfigHuggingFaceQuantization, ConfigProvenFundamentals,
    config_proven_fundamentals,
};
