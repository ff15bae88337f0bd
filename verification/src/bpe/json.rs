//! The tokenizer as the record that is saved to `tokenizer.json`.

use vstd::prelude::*;
use crate::text::concat_str;
use crate::bpe::tokenizer::{BPETokenizer, views, token_index};
use crate::bpe::train::merges_view;

verus! {

/// A set of tokens (special or requested) with their ids.
#[derive(Debug, Clone)]
pub struct TokenMetadata {
    /// Token ids (positions in the vocabulary)
    pub ids: Vec<u32>,
    /// Token strings
    pub tokens: Vec<String>,
    /// Each token with its id, in order (a later pair for the same token wins)
    pub token_to_id: Vec<(String, u32)>,
    /// Number of tokens in this set
    pub count: u32,
}

/// Configuration metadata of the tokenizer.
#[derive(Debug, Clone)]
pub struct TokenizerConfig {
    pub vocab_size: usize,
    pub merge_count: usize,
    pub normalizer: String,
    pub pre_tokenizer: String,
    pub add_prefix_space: bool,
    pub model_version: String,
    pub poppins_version: String,
    /// Creation time (Unix seconds)
    pub created_at: u64,
}

/// The saved form of a tokenizer.
#[derive(Debug, Clone)]
pub struct BPETokenizerJSON {
    pub version: String,
    pub model_type: String,
    pub vocab: Vec<String>,
    /// Each merge as the joined token
    pub merges: Vec<String>,
    pub special_tokens: TokenMetadata,
    pub requested_tokens: TokenMetadata,
    pub config: TokenizerConfig,
}

/// The joined token of each merge.
pub open spec fn joined_merges(m: Seq<(Seq<char>, Seq<char>)>) -> Seq<Seq<char>> {
    m.map_values(|x: (Seq<char>, Seq<char>)| x.0 + x.1)
}

/// The pairs of a token-to-id list as text.
pub open spec fn pairs_view(v: Seq<(String, u32)>) -> Seq<(Seq<char>, u32)> {
    v.map_values(|p: (String, u32)| (p.0@, p.1))
}

/// The special tokens of a vocabulary: its first `count` entries (all of it when shorter).
pub open spec fn leading(vocab: Seq<Seq<char>>, count: u32) -> Seq<Seq<char>> {
    vocab.subrange(0, if count <= vocab.len() { count as int } else { vocab.len() as int })
}

/// The requested tokens: the entries from `special` up to `initial` (within the vocabulary).
pub open spec fn between(vocab: Seq<Seq<char>>, special: u32, initial: u32) -> Seq<Seq<char>> {
    let lo = if special <= vocab.len() { special as int } else { vocab.len() as int };
    let hi = if initial <= vocab.len() { initial as int } else { vocab.len() as int };
    vocab.subrange(lo, hi)
}

/// The metadata of the special tokens `toks`: ids 0, 1, …, each token with its position.
pub open spec fn special_metadata_ok(md: TokenMetadata, toks: Seq<Seq<char>>, count: u32) -> bool {
    &&& views(md.tokens@) == toks
    &&& md.ids@.len() == toks.len()
    &&& forall|i: int| 0 <= i < toks.len() ==> #[trigger] md.ids@[i] == i as u32
    &&& pairs_view(md.token_to_id@) == toks.map_values(|t: Seq<char>| t).zip_with(md.ids@)
    &&& md.count == count
}

/// The metadata of the requested tokens `toks`: each with its id in the vocabulary.
pub open spec fn requested_metadata_ok(md: TokenMetadata, toks: Seq<Seq<char>>, vocab: Seq<Seq<char>>, count: u32) -> bool {
    &&& views(md.tokens@) == toks
    &&& md.ids@.len() == toks.len()
    &&& forall|i: int| 0 <= i < toks.len() ==> ((#[trigger] token_index(vocab, toks[i])) matches Some(j)
        && md.ids@[i] == j as u32)
    &&& pairs_view(md.token_to_id@) == toks.zip_with(md.ids@)
    &&& md.count == count
}

fn token_metadata(tokens: Vec<String>, ids: Vec<u32>, count: u32) -> (md: TokenMetadata)
    requires
        tokens@.len() == ids@.len(),
    ensures
        md.tokens@ == tokens@,
        md.ids@ == ids@,
        pairs_view(md.token_to_id@) == views(tokens@).zip_with(ids@),
        md.count == count,
{
    let mut pairs: Vec<(String, u32)> = Vec::new();
    let mut i: usize = 0;
    while i < tokens.len()
        invariant
            i <= tokens@.len(),
            tokens@.len() == ids@.len(),
            pairs_view(pairs@) == views(tokens@).zip_with(ids@).subrange(0, i as int),
        decreases tokens@.len() - i,
    {
        let ghost prev = pairs@;
        let t = tokens[i].clone();
        pairs.push((t, ids[i]));
        assert(pairs_view(pairs@) =~= pairs_view(prev).push((tokens@[i as int]@, ids@[i as int])));
        i = i + 1;
        assert(pairs_view(pairs@) =~= views(tokens@).zip_with(ids@).subrange(0, i as int));
    }
    assert(views(tokens@).zip_with(ids@).subrange(0, i as int) =~= views(tokens@).zip_with(ids@));
    TokenMetadata { ids, tokens, token_to_id: pairs, count }
}

fn copy_strings(v: &Vec<String>, lo: usize, hi: usize) -> (r: Vec<String>)
    requires
        lo <= hi <= v@.len(),
    ensures
        views(r@) == views(v@).subrange(lo as int, hi as int),
{
    let mut r: Vec<String> = Vec::new();
    let mut i: usize = lo;
    while i < hi
        invariant
            lo <= i <= hi,
            hi <= v@.len(),
            views(r@) == views(v@).subrange(lo as int, i as int),
        decreases hi - i,
    {
        let ghost prev = r@;
        let x = v[i].clone();
        assert(x@ == v@[i as int]@);
        r.push(x);
        assert(views(r@) =~= views(prev).push(v@[i as int]@));
        i = i + 1;
        assert(views(r@) =~= views(v@).subrange(lo as int, i as int));
    }
    r
}

/// Builds the saved form of a tokenizer: the vocabulary, each merge as its joined token, the
/// special tokens (the first `special_token_count` entries, ids 0, 1, …), the requested tokens
/// (the entries up to `initial_token_count`, each with its id), and the configuration, with
/// `poppins_version` and the creation time `created_at` as given.
pub fn tokenizer_json(
    tokenizer: &BPETokenizer,
    model_version: &str,
    poppins_version: &str,
    created_at: u64,
) -> (r: BPETokenizerJSON)
    requires
        tokenizer.special_token_count <= tokenizer.initial_token_count,
    ensures
        r.version@ == model_version@,
        r.model_type@ == "bpe"@,
        views(r.vocab@) == tokenizer.vocab_view(),
        views(r.merges@) == joined_merges(merges_view(tokenizer.merges@)),
        special_metadata_ok(r.special_tokens, leading(tokenizer.vocab_view(), tokenizer.special_token_count), tokenizer.special_token_count),
        requested_metadata_ok(
            r.requested_tokens,
            between(tokenizer.vocab_view(), tokenizer.special_token_count, tokenizer.initial_token_count),
            tokenizer.vocab_view(),
            (tokenizer.initial_token_count - tokenizer.special_token_count) as u32,
        ),
        r.config.vocab_size == tokenizer.vocab@.len(),
        r.config.merge_count == tokenizer.merges@.len(),
        r.config.normalizer@ == "none"@,
        r.config.pre_tokenizer@ == "whitespace"@,
        !r.config.add_prefix_space,
        r.config.model_version@ == model_version@,
        r.config.poppins_version@ == poppins_version@,
        r.config.created_at == created_at,
{
    let ghost v = tokenizer.vocab_view();
    let n = tokenizer.vocab.len();
    let sc = tokenizer.special_token_count as usize;
    let ic = tokenizer.initial_token_count as usize;
    let s_hi = if sc <= n { sc } else { n };
    let i_hi = if ic <= n { ic } else { n };
    let special_tokens = copy_strings(&tokenizer.vocab, 0, s_hi);
    let mut special_ids: Vec<u32> = Vec::new();
    let mut k: usize = 0;
    while k < s_hi
        invariant
            k <= s_hi,
            s_hi <= sc,
            sc == tokenizer.special_token_count,
            special_ids@.len() == k,
            forall|i: int| 0 <= i < k ==> #[trigger] special_ids@[i] == i as u32,
        decreases s_hi - k,
    {
        special_ids.push(k as u32);
        k = k + 1;
    }
    let requested_tokens = copy_strings(&tokenizer.vocab, s_hi, i_hi);
    let mut requested_ids: Vec<u32> = Vec::new();
    let mut j: usize = 0;
    let ghost rq = v.subrange(s_hi as int, i_hi as int);
    assert(rq.len() == requested_tokens@.len());
    while j < requested_tokens.len()
        invariant
            j <= requested_tokens@.len(),
            views(requested_tokens@) == rq,
            rq.len() == requested_tokens@.len(),
            rq == v.subrange(s_hi as int, i_hi as int),
            s_hi <= i_hi <= v.len(),
            v == tokenizer.vocab_view(),
            requested_ids@.len() == j,
            forall|i: int| 0 <= i < j ==> ((#[trigger] token_index(v, rq[i])) matches Some(x) && requested_ids@[i] == x as u32),
        decreases requested_tokens@.len() - j,
    {
        let t = requested_tokens[j].as_str();
        assert(rq[j as int] == t@);
        let id: u32 = match tokenizer.token_to_id(t) {
            Some(x) => x,
            None => {
                proof {
                    crate::bpe::tokenizer::lemma_token_index(v, t@);
                    assert(rq[j as int] == v[s_hi + j]);
                    assert(v[s_hi + j] == t@);
                }
                0
            },
        };
        let ghost prev = requested_ids@;
        requested_ids.push(id);
        assert(forall|i: int| 0 <= i < j ==> requested_ids@[i] == prev[i]);
        j = j + 1;
    }
    let mut merges_strings: Vec<String> = Vec::new();
    let mut m: usize = 0;
    while m < tokenizer.merges.len()
        invariant
            m <= tokenizer.merges@.len(),
            views(merges_strings@) == joined_merges(merges_view(tokenizer.merges@)).subrange(0, m as int),
        decreases tokenizer.merges@.len() - m,
    {
        let ghost prev = merges_strings@;
        let joined = concat_str(tokenizer.merges[m].0.as_str(), tokenizer.merges[m].1.as_str());
        merges_strings.push(joined);
        assert(views(merges_strings@) =~= views(prev).push(merges_view(tokenizer.merges@)[m as int].0 + merges_view(tokenizer.merges@)[m as int].1));
        m = m + 1;
        assert(views(merges_strings@) =~= joined_merges(merges_view(tokenizer.merges@)).subrange(0, m as int));
    }
    assert(joined_merges(merges_view(tokenizer.merges@)).subrange(0, m as int) =~= joined_merges(merges_view(tokenizer.merges@)));
    let vocab = copy_strings(&tokenizer.vocab, 0, n);
    assert(views(tokenizer.vocab@).subrange(0, n as int) =~= views(tokenizer.vocab@));
    let ghost st = views(special_tokens@);
    assert(special_tokens@.len() == st.len());
    assert(requested_tokens@.len() == views(requested_tokens@).len());
    let ghost rt = views(requested_tokens@);
    let special = token_metadata(special_tokens, special_ids, tokenizer.special_token_count);
    let requested = token_metadata(requested_tokens, requested_ids, tokenizer.initial_token_count - tokenizer.special_token_count);
    assert(st.map_values(|t: Seq<char>| t) =~= st);
    let r = BPETokenizerJSON {
        version: model_version.to_owned(),
        model_type: "bpe".to_owned(),
        vocab,
        merges: merges_strings,
        special_tokens: special,
        requested_tokens: requested,
        config: TokenizerConfig {
            vocab_size: n,
            merge_count: tokenizer.merges.len(),
            normalizer: "none".to_owned(),
            pre_tokenizer: "whitespace".to_owned(),
            add_prefix_space: false,
            model_version: model_version.to_owned(),
            poppins_version: poppins_version.to_owned(),
            created_at,
        },
    };
    r
}

} // verus!
