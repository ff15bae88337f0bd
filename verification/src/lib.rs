//! Poppins: the data pipeline that turns training samples into an XML-tagged
//! corpus, a byte-pair-encoding tokenizer and the model configuration numbers.

pub mod text;
pub mod sample;
pub mod tag;
pub mod bpe;
pub mod device;
pub mod cli;
pub mod config;

pub use device::Device;
pub mod train_xml;
pub mod beyond_scope;
