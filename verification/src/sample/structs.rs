//! The structured form of a training sample.

use vstd::prelude::*;
use crate::sample::language::{SampleLanguage, SampleIndent};

verus! {

/// One training example: optional system prompt and thought, a prompt and an AI answer.
#[derive(Debug, Clone)]
pub struct Sample {
    pub system: Option<String>,
    pub thought: Option<String>,
    pub prompt_section: Vec<SamplePromptEnum>,
    pub ai_section: Vec<SampleAiEnum>,
}

/// One item of a prompt.
#[derive(Debug, Clone)]
pub enum SamplePromptEnum {
    Text(String),
    Code(SampleCode),
    LineBreak(SampleLineBreak),
}

/// One item of an AI answer.
#[derive(Debug, Clone)]
pub enum SampleAiEnum {
    Text(String),
    Source(String),
    Code(SampleCode),
    LineBreak(SampleLineBreak),
}

/// A run of `count` line breaks.
#[derive(Debug, Clone, Copy, PartialEq, Eq, Structural)]
pub struct SampleLineBreak {
    pub count: u8,
}

/// A code block.
#[derive(Debug, Clone)]
pub struct SampleCode {
    pub lang: SampleLanguage,
    pub inline: bool,
    pub indent: SampleIndent,
    pub content: String,
}

/// Container for all training and validation samples.
#[derive(Debug)]
pub struct Samples {
    /// Samples used for training
    pub train_samples: Vec<Sample>,
    /// Samples used for validation
    pub val_samples: Vec<Sample>,
}

} // verus!
