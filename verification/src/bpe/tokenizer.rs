//! The tokenizer's data: vocabulary, merges and the counts of protected tokens, and the
//! lookup of a token's id.

use vstd::prelude::*;
use crate::text::str_eq;

verus! {

/// A byte-pair-encoding tokenizer.
#[derive(Debug, Clone)]
pub struct BPETokenizer {
    /// Vocabulary: the token with id `i` is `vocab[i]`.
    pub vocab: Vec<String>,
    /// The merge operations learned in training, in order: each pair was joined into one token.
    pub merges: Vec<(String, String)>,
    /// Number of special tokens at the start of `vocab`.
    pub special_token_count: u32,
    /// Number of initial tokens (special and requested) at the start of `vocab`.
    pub initial_token_count: u32,
}

/// The characters of each string.
pub open spec fn views(v: Seq<String>) -> Seq<Seq<char>> {
    v.map_values(|s: String| s@)
}

/// The id a token string maps to: the last index of the vocabulary holding it.
pub open spec fn token_index(vocab: Seq<Seq<char>>, token: Seq<char>) -> Option<nat>
    decreases vocab.len(),
{
    if vocab.len() == 0 {
        None
    } else if vocab.last() == token {
        Some((vocab.len() - 1) as nat)
    } else {
        token_index(vocab.drop_last(), token)
    }
}

/// The id of a token, or 0 (`<unknown>`) when the vocabulary lacks it.
pub open spec fn id_or_unknown(vocab: Seq<Seq<char>>, token: Seq<char>) -> u32 {
    match token_index(vocab, token) {
        Some(i) => i as u32,
        None => 0,
    }
}

/// The special tokens of a tokenizer: the first `count` entries of its vocabulary.
pub open spec fn special_prefix(vocab: Seq<Seq<char>>, count: u32) -> Seq<Seq<char>> {
    if count <= vocab.len() {
        vocab.subrange(0, count as int)
    } else {
        vocab
    }
}

/// What `token_index` says, in terms of positions.
pub proof fn lemma_token_index(vocab: Seq<Seq<char>>, token: Seq<char>)
    ensures
        token_index(vocab, token) matches Some(i) ==> i < vocab.len() && vocab[i as int] == token
            && forall|j: int| i < j < vocab.len() ==> vocab[j] != token,
        token_index(vocab, token) is None ==> !vocab.contains(token),
    decreases vocab.len(),
{
    if vocab.len() > 0 {
        lemma_token_index(vocab.drop_last(), token);
        if vocab.last() != token {
            if let Some(i) = token_index(vocab.drop_last(), token) {
                assert(vocab[i as int] == vocab.drop_last()[i as int]);
                assert forall|j: int| i < j < vocab.len() implies vocab[j] != token by {
                    if j < vocab.len() - 1 {
                        assert(vocab[j] == vocab.drop_last()[j]);
                    }
                }
            }
            if token_index(vocab.drop_last(), token) is None {
                assert forall|j: int| 0 <= j < vocab.len() implies vocab[j] != token by {
                    if j < vocab.len() - 1 {
                        assert(vocab.drop_last()[j] == vocab[j]);
                        assert(!vocab.drop_last().contains(token));
                    }
                }
            }
        }
    }
}

/// The last index of `token` in `vocab`, scanning from the end.
pub fn find_token(vocab: &Vec<String>, token: &str) -> (r: Option<usize>)
    ensures
        r matches Some(i) ==> token_index(views(vocab@), token@) == Some(i as nat),
        r is None ==> token_index(views(vocab@), token@) is None,
{
    let ghost v = views(vocab@);
    let mut i: usize = vocab.len();
    assert(v.subrange(0, i as int) =~= v);
    while i > 0
        invariant
            i <= vocab@.len(),
            v == views(vocab@),
            token_index(v, token@) == token_index(v.subrange(0, i as int), token@),
        decreases i,
    {
        let ghost sub = v.subrange(0, i as int);
        assert(sub.drop_last() =~= v.subrange(0, i - 1));
        assert(sub.last() == vocab@[i - 1]@);
        if str_eq(vocab[i - 1].as_str(), token) {
            return Some(i - 1);
        }
        i = i - 1;
    }
    assert(v.subrange(0, 0) =~= Seq::<Seq<char>>::empty());
    None
}

impl BPETokenizer {
    /// The vocabulary as character sequences.
    pub open spec fn vocab_view(&self) -> Seq<Seq<char>> {
        views(self.vocab@)
    }

    /// The id of `token`: its last index in the vocabulary.
    pub fn token_to_id(&self, token: &str) -> (r: Option<u32>)
        ensures
            r matches Some(id) ==> token_index(self.vocab_view(), token@) matches Some(i) && id
                == i as u32,
            r is None ==> token_index(self.vocab_view(), token@) is None,
    {
        match find_token(&self.vocab, token) {
            Some(i) => Some(i as u32),
            None => None,
        }
    }

    /// The id of `token`, or 0 (`<unknown>`) when the vocabulary lacks it.
    pub fn id_or_unknown(&self, token: &str) -> (r: u32)
        ensures
            r == id_or_unknown(self.vocab_view(), token@),
    {
        match find_token(&self.vocab, token) {
            Some(i) => i as u32,
            None => 0,
        }
    }

    /// Whether `token` is one of the special tokens (the first `special_token_count` entries).
    pub fn is_special_token(&self, token: &str) -> (r: bool)
        ensures
            r == special_prefix(self.vocab_view(), self.special_token_count).contains(token@),
    {
        let n: usize = if (self.special_token_count as usize) <= self.vocab.len() {
            self.special_token_count as usize
        } else {
            self.vocab.len()
        };
        let ghost pre = special_prefix(self.vocab_view(), self.special_token_count);
        assert(pre.len() == n);
        let mut i: usize = 0;
        while i < n
            invariant
                i <= n,
                n <= self.vocab@.len(),
                pre.len() == n,
                pre == special_prefix(self.vocab_view(), self.special_token_count),
                forall|j: int| 0 <= j < n ==> pre[j] == self.vocab@[j]@,
                forall|j: int| 0 <= j < i ==> pre[j] != token@,
            decreases n - i,
        {
            if str_eq(self.vocab[i].as_str(), token) {
                assert(pre[i as int] == token@);
                assert(pre.contains(token@));
                return true;
            }
            i = i + 1;
        }
        false
    }
}

} // verus!
