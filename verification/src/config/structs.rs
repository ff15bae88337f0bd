//! Configuration records: the MLA and quantization parts of the exported configuration, and
//! the proven model shapes by context size.

use vstd::prelude::*;

verus! {

/// The multi-head latent attention part of the exported configuration.
#[derive(Debug, Clone)]
pub struct ConfigHuggingFaceMLA {
    pub compression_dim: usize,
    pub rope_dim: usize,
    pub kv_lora_rank: usize,
    pub q_lora_rank: Option<usize>,
}

/// The quantization part of the exported configuration.
#[derive(Debug, Clone)]
pub struct ConfigHuggingFaceQuantization {
    pub bits: u8,
    pub rope_precision: String,
    pub weight_precision: String,
    pub kv_cache_precision: String,
    pub activation_precision: String,
    pub use_per_token_quantization: bool,
}

/// A proven model shape for one context size.
#[derive(Debug, Clone, Copy, PartialEq, Eq, Structural)]
pub struct ConfigProvenFundamentals {
    pub embedding_dim: usize,
    pub num_layers: usize,
    pub num_heads: usize,
    pub head_dim: usize,
    pub context_size: usize,
}

/// A proven shape written as (embedding size, layers, heads, head size, context size).
pub open spec fn fundamentals(e: usize, l: usize, h: usize, d: usize, c: usize) -> ConfigProvenFundamentals {
    ConfigProvenFundamentals { embedding_dim: e, num_layers: l, num_heads: h, head_dim: d, context_size: c }
}

/// The proven shapes, from a 128-token context to a 1M-token one.
pub open spec fn proven_fundamentals() -> Seq<ConfigProvenFundamentals> {
    seq![
        fundamentals(256, 4, 4, 64, 128),
        fundamentals(384, 6, 6, 64, 256),
        fundamentals(512, 8, 8, 64, 512),
        fundamentals(512, 12, 8, 64, 1024),
        fundamentals(768, 12, 12, 64, 2048),
        fundamentals(768, 16, 12, 64, 4096),
        fundamentals(1024, 16, 16, 64, 8192),
        fundamentals(1024, 20, 16, 64, 16384),
        fundamentals(1280, 24, 20, 64, 32768),
        fundamentals(1536, 28, 24, 64, 65536),
        fundamentals(1536, 32, 24, 64, 131072),
        fundamentals(2048, 32, 32, 64, 262144),
        fundamentals(2048, 40, 32, 64, 524288),
        fundamentals(2560, 48, 40, 64, 1048576),
    ]
}

fn shape(e: usize, l: usize, h: usize, d: usize, c: usize) -> (r: ConfigProvenFundamentals)
    ensures
        r == fundamentals(e, l, h, d, c),
{
    ConfigProvenFundamentals { embedding_dim: e, num_layers: l, num_heads: h, head_dim: d, context_size: c }
}

/// The proven model shapes, by increasing context size.
pub fn config_proven_fundamentals() -> (r: Vec<ConfigProvenFundamentals>)
    ensures
        r@ == proven_fundamentals(),
{
    let r = vec![
        shape(256, 4, 4, 64, 128),
        shape(384, 6, 6, 64, 256),
        shape(512, 8, 8, 64, 512),
        shape(512, 12, 8, 64, 1024),
        shape(768, 12, 12, 64, 2048),
        shape(768, 16, 12, 64, 4096),
        shape(1024, 16, 16, 64, 8192),
        shape(1024, 20, 16, 64, 16384),
        shape(1280, 24, 20, 64, 32768),
        shape(1536, 28, 24, 64, 65536),
        shape(1536, 32, 24, 64, 131072),
        shape(2048, 32, 32, 64, 262144),
        shape(2048, 40, 32, 64, 524288),
        shape(2560, 48, 40, 64, 1048576),
    ];
    assert(r@ =~= proven_fundamentals());
    r
}

} // verus!
