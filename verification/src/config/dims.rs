//! Sizing rules of the model: compression and rotary dimensions, and the parameter count.

use vstd::prelude::*;

verus! {

/// The compression ratio for an embedding size: 8 from 4096 on, 6 from 2048 on, else 4.
pub open spec fn compression_ratio(embedding_dim: nat) -> nat {
    if embedding_dim >= 4096 {
        8
    } else if embedding_dim >= 2048 {
        6
    } else {
        4
    }
}

/// `n` rounded up to a multiple of `m`.
pub open spec fn round_up(n: nat, m: nat) -> nat
    recommends
        m > 0,
{
    ((n + m - 1) / (m as int) * (m as int)) as nat
}

/// The MLA compression dimension: the embedding size divided by the compression ratio,
/// rounded up to a multiple of 16.
pub open spec fn compression_dim(embedding_dim: nat) -> nat {
    round_up(embedding_dim / compression_ratio(embedding_dim), 16)
}

/// The rotary dimension: a quarter of the head size from 128 on, half below, rounded up to a
/// multiple of 8.
pub open spec fn rope_dim(head_dim: nat) -> nat {
    round_up(if head_dim >= 128 { head_dim / 4 } else { head_dim / 2 }, 8)
}

/// The parameters of one layer: query, KV compression and expansion, rotary and output
/// projections, two feed-forward layers and the layer norms.
pub open spec fn layer_params(e: nat, h: nat, d: nat, c: nat, r: nat, f: nat) -> nat {
    e * (h * d) + e * c + c * (h * d) + c * (h * d) + e * r + (h * d) * e + e * f + f * e + e * 2
}

/// The parameter count: input and output embeddings, plus every layer.
pub open spec fn total_params(v: nat, e: nat, l: nat, h: nat, d: nat, c: nat, r: nat, f: nat) -> nat {
    v * e * 2 + layer_params(e, h, d, c, r, f) * l
}

/// Every intermediate value of the parameter count fits in `usize` (otherwise the
/// computation overflows).
pub open spec fn total_params_fits(v: nat, e: nat, l: nat, h: nat, d: nat, c: nat, r: nat, f: nat) -> bool {
    let m = usize::MAX as nat;
    &&& v * e <= m
    &&& v * e * 2 <= m
    &&& h * d <= m
    &&& layer_params(e, h, d, c, r, f) <= m
    &&& layer_params(e, h, d, c, r, f) * l <= m
    &&& total_params(v, e, l, h, d, c, r, f) <= m
}

/// A model with a larger compression dimension has more parameters, when it has layers and
/// a nonzero embedding or head size.
pub proof fn lemma_total_params_grows_with_compression(
    v: nat, e: nat, l: nat, h: nat, d: nat, c1: nat, c2: nat, r: nat, f: nat,
)
    requires
        c1 < c2,
        l > 0,
        e + h * d > 0,
    ensures
        total_params(v, e, l, h, d, c1, r, f) < total_params(v, e, l, h, d, c2, r, f),
{
    let hd = h * d;
    assert(layer_params(e, h, d, c2, r, f) - layer_params(e, h, d, c1, r, f) == (c2 - c1) * (e + 2 * hd))
        by (nonlinear_arith)
        requires hd == h * d;
    assert((c2 - c1) * (e + 2 * hd) > 0) by (nonlinear_arith)
        requires c2 > c1, e + hd > 0, hd >= 0;
    assert(layer_params(e, h, d, c1, r, f) * l < layer_params(e, h, d, c2, r, f) * l) by (nonlinear_arith)
        requires
            layer_params(e, h, d, c1, r, f) < layer_params(e, h, d, c2, r, f),
            l > 0,
    ;
}

/// More layers never mean fewer parameters.
pub proof fn lemma_total_params_grows_with_layers(
    v: nat, e: nat, l1: nat, l2: nat, h: nat, d: nat, c: nat, r: nat, f: nat,
)
    requires
        l1 <= l2,
    ensures
        total_params(v, e, l1, h, d, c, r, f) <= total_params(v, e, l2, h, d, c, r, f),
{
    let lp = layer_params(e, h, d, c, r, f);
    assert(lp * l1 <= lp * l2) by (nonlinear_arith)
        requires l1 <= l2, lp >= 0;
}


fn mul_checked(x: usize, y: usize) -> (r: Option<usize>)
    ensures
        r matches Some(z) ==> z == x * y,
        r is None ==> x * y > usize::MAX,
{
    x.checked_mul(y)
}

fn add_checked(x: usize, y: usize) -> (r: Option<usize>)
    ensures
        r matches Some(z) ==> z == x + y,
        r is None ==> x + y > usize::MAX,
{
    x.checked_add(y)
}

/// The parameter count when every step of computing it fits in `usize`, `None` otherwise.
pub fn config_get_total_params_checked(
    vocab_size: usize,
    embedding_dim: usize,
    num_layers: usize,
    num_heads: usize,
    head_dim: usize,
    compression_dim: usize,
    rope_dim: usize,
    ffn_dim: usize,
) -> (r: Option<usize>)
    ensures
        ({
            let (v, e, l, h, d, c, rr, f) = (
                vocab_size as nat,
                embedding_dim as nat,
                num_layers as nat,
                num_heads as nat,
                head_dim as nat,
                compression_dim as nat,
                rope_dim as nat,
                ffn_dim as nat,
            );
            &&& r is Some <==> total_params_fits(v, e, l, h, d, c, rr, f)
            &&& r matches Some(x) ==> x == total_params(v, e, l, h, d, c, rr, f)
        }),
{
    let ghost e = embedding_dim as nat;
    let ghost h = num_heads as nat;
    let ghost d = head_dim as nat;
    let ghost c = compression_dim as nat;
    let ghost rr = rope_dim as nat;
    let ghost f = ffn_dim as nat;
    let ghost lp = layer_params(e, h, d, c, rr, f);
    let ghost hd0 = h * d;
    assert(e * hd0 + e * c + c * hd0 + c * hd0 + e * rr + hd0 * e + e * f + f * e + e * 2 == lp);
    let ve = match mul_checked(vocab_size, embedding_dim) {
        Some(x) => x,
        None => {
            return None;
        },
    };
    let embedding_params = match mul_checked(ve, 2) {
        Some(x) => x,
        None => {
            return None;
        },
    };
    let hd = match mul_checked(num_heads, head_dim) {
        Some(x) => x,
        None => {
            return None;
        },
    };
    let t1 = match mul_checked(embedding_dim, hd) {
        Some(x) => x,
        None => {
            return None;
        },
    };
    let s1 = t1;
    let t2 = match mul_checked(embedding_dim, compression_dim) {
        Some(x) => x,
        None => {
            return None;
        },
    };
    let s2 = match add_checked(s1, t2) {
        Some(x) => x,
        None => {
            return None;
        },
    };
    let t3 = match mul_checked(compression_dim, hd) {
        Some(x) => x,
        None => {
            return None;
        },
    };
    let s3 = match add_checked(s2, t3) {
        Some(x) => x,
        None => {
            return None;
        },
    };
    let t4 = match mul_checked(compression_dim, hd) {
        Some(x) => x,
        None => {
            return None;
        },
    };
    let s4 = match add_checked(s3, t4) {
        Some(x) => x,
        None => {
            return None;
        },
    };
    let t5 = match mul_checked(embedding_dim, rope_dim) {
        Some(x) => x,
        None => {
            return None;
        },
    };
    let s5 = match add_checked(s4, t5) {
        Some(x) => x,
        None => {
            return None;
        },
    };
    let t6 = match mul_checked(hd, embedding_dim) {
        Some(x) => x,
        None => {
            return None;
        },
    };
    let s6 = match add_checked(s5, t6) {
        Some(x) => x,
        None => {
            return None;
        },
    };
    let t7 = match mul_checked(embedding_dim, ffn_dim) {
        Some(x) => x,
        None => {
            return None;
        },
    };
    let s7 = match add_checked(s6, t7) {
        Some(x) => x,
        None => {
            return None;
        },
    };
    let t8 = match mul_checked(ffn_dim, embedding_dim) {
        Some(x) => x,
        None => {
            return None;
        },
    };
    let s8 = match add_checked(s7, t8) {
        Some(x) => x,
        None => {
            return None;
        },
    };
    let t9 = match mul_checked(embedding_dim, 2) {
        Some(x) => x,
        None => {
            return None;
        },
    };
    let s9 = match add_checked(s8, t9) {
        Some(x) => x,
        None => {
            return None;
        },
    };
    let per_layer = s9;
    assert(per_layer == lp);
    let layers = match mul_checked(per_layer, num_layers) {
        Some(x) => x,
        None => {
            return None;
        },
    };
    add_checked(embedding_params, layers)
}

/// Finds the compression dimension for multi-head latent attention: the embedding size divided
/// by 8 (from 4096), 6 (from 2048) or 4, rounded up to a multiple of 16.
pub fn config_get_compression_dim(embedding_dim: usize) -> (r: usize)
    ensures
        r == compression_dim(embedding_dim as nat),
        r % 16 == 0,
{
    let compression_ratio: usize = if embedding_dim >= 4096 {
        8
    } else if embedding_dim >= 2048 {
        6
    } else {
        4
    };
    let dim = embedding_dim / compression_ratio;
    let result = ((dim + 15) / 16) * 16;
    assert(((dim + 15) / 16) * 16 % 16 == 0) by (nonlinear_arith);
    result
}

/// Finds the rotary embedding dimension: a quarter of the head size (from 128) or half of it,
/// rounded up to a multiple of 8.
pub fn config_get_rope_dim(head_dim: usize) -> (r: usize)
    ensures
        r == rope_dim(head_dim as nat),
        r % 8 == 0,
        head_dim >= 8 ==> r <= head_dim,
        head_dim >= 2 ==> r >= 8,
{
    let dim: usize = if head_dim >= 128 {
        head_dim / 4
    } else {
        head_dim / 2
    };
    let result = ((dim + 7) / 8) * 8;
    assert(((dim + 7) / 8) * 8 % 8 == 0) by (nonlinear_arith);
    assert(result <= dim + 7) by (nonlinear_arith)
        requires result == ((dim + 7) / 8) * 8;
    assert(dim >= 1 ==> result >= 8) by (nonlinear_arith)
        requires result == ((dim + 7) / 8) * 8;
    assert(head_dim >= 8 ==> result <= head_dim) by (nonlinear_arith)
        requires
            result == ((dim + 7) / 8) * 8,
            dim == if head_dim >= 128 { head_dim / 4 } else { head_dim / 2 },
    ;
    result
}

/// Counts the parameters of a model with multi-head latent attention: `vocab_size *
/// embedding_dim * 2` for the embeddings, plus `num_layers` times the parameters of a layer.
pub fn config_get_total_params(
    vocab_size: usize,
    embedding_dim: usize,
    num_layers: usize,
    num_heads: usize,
    head_dim: usize,
    compression_dim: usize,
    rope_dim: usize,
    ffn_dim: usize,
) -> (r: usize)
    requires
        total_params_fits(
            vocab_size as nat,
            embedding_dim as nat,
            num_layers as nat,
            num_heads as nat,
            head_dim as nat,
            compression_dim as nat,
            rope_dim as nat,
            ffn_dim as nat,
        ),
    ensures
        r == total_params(
            vocab_size as nat,
            embedding_dim as nat,
            num_layers as nat,
            num_heads as nat,
            head_dim as nat,
            compression_dim as nat,
            rope_dim as nat,
            ffn_dim as nat,
        ),
        num_layers == 0 ==> r == vocab_size * embedding_dim * 2,
{
    let ghost e = embedding_dim as nat;
    let ghost h = num_heads as nat;
    let ghost d = head_dim as nat;
    let ghost c = compression_dim as nat;
    let ghost rr = rope_dim as nat;
    let ghost f = ffn_dim as nat;
    let ghost hd = h * d;
    assert(hd <= usize::MAX);
    assert(e * hd <= layer_params(e, h, d, c, rr, f));
    assert(e * c <= layer_params(e, h, d, c, rr, f));
    assert(c * hd <= layer_params(e, h, d, c, rr, f));
    assert(e * rr <= layer_params(e, h, d, c, rr, f));
    assert(hd * e <= layer_params(e, h, d, c, rr, f));
    assert(e * f <= layer_params(e, h, d, c, rr, f));
    assert(f * e <= layer_params(e, h, d, c, rr, f));
    assert(e * 2 <= layer_params(e, h, d, c, rr, f));
    let embedding_params = vocab_size * embedding_dim * 2;
    let heads_dim = num_heads * head_dim;
    let q_proj = embedding_dim * heads_dim;
    let kv_down = embedding_dim * compression_dim;
    let kv_up_k = compression_dim * heads_dim;
    let kv_up_v = compression_dim * heads_dim;
    let rope_proj = embedding_dim * rope_dim;
    let out_proj = heads_dim * embedding_dim;
    let ffn_1 = embedding_dim * ffn_dim;
    let ffn_2 = ffn_dim * embedding_dim;
    let layer_norm = embedding_dim * 2;
    let per_layer = q_proj + kv_down + kv_up_k + kv_up_v + rope_proj + out_proj + ffn_1 + ffn_2 + layer_norm;
    let result = embedding_params + (per_layer * num_layers);
    assert(num_layers == 0 ==> per_layer * num_layers == 0) by (nonlinear_arith);
    result
}

} // verus!
