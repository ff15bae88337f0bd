//! Remembering the token ids of strings already tokenized, and the ids of the structural tags.

use vstd::prelude::*;
use crate::text::str_eq;
use crate::bpe::tokenizer::BPETokenizer;
use crate::bpe::train::merges_view;
use crate::bpe::infer::{infer_ids, bpe_infer_tokenize};

verus! {

/// The map that a list of entries stands for: a later entry for a string replaces an
/// earlier one.
pub open spec fn entries_map(e: Seq<(String, Vec<u32>)>) -> Map<Seq<char>, Seq<u32>>
    decreases e.len(),
{
    if e.len() == 0 {
        Map::empty()
    } else {
        entries_map(e.drop_last()).insert(e.last().0@, e.last().1@)
    }
}

/// The ids of a string as `tokenizer` gives them.
pub open spec fn fresh_ids(tokenizer: BPETokenizer, s: Seq<char>) -> Seq<u32> {
    infer_ids(tokenizer.vocab_view(), merges_view(tokenizer.merges@), tokenizer.special_token_count, s)
}

/// Every string remembered in `m` maps to the ids that `tokenizer` gives it.
pub open spec fn agrees_with(m: Map<Seq<char>, Seq<u32>>, tokenizer: BPETokenizer) -> bool {
    forall|k: Seq<char>| #[trigger] m.contains_key(k) ==> m[k] == fresh_ids(tokenizer, k)
}

/// Token ids of strings already tokenized.
#[derive(Debug, Clone)]
pub struct BPETokenCache {
    entries: Vec<(String, Vec<u32>)>,
}

impl View for BPETokenCache {
    type V = Map<Seq<char>, Seq<u32>>;

    closed spec fn view(&self) -> Map<Seq<char>, Seq<u32>> {
        entries_map(self.entries@)
    }
}

impl BPETokenCache {
    /// A cache that remembers nothing.
    pub fn new() -> (r: BPETokenCache)
        ensures
            r@ == Map::<Seq<char>, Seq<u32>>::empty(),
    {
        BPETokenCache { entries: Vec::new() }
    }

    /// Forgets everything.
    pub fn clear(&mut self)
        ensures
            final(self)@ == Map::<Seq<char>, Seq<u32>>::empty(),
    {
        self.entries = Vec::new();
    }

    /// The position of the last entry for `s`.
    fn find(&self, s: &str) -> (r: Option<usize>)
        ensures
            r matches Some(i) ==> i < self.entries@.len() && self.entries@[i as int].0@ == s@
                && self@.contains_key(s@) && self@[s@] == self.entries@[i as int].1@,
            r is None ==> !self@.contains_key(s@),
    {
        let mut i: usize = self.entries.len();
        assert(self.entries@.subrange(0, i as int) =~= self.entries@);
        while i > 0
            invariant
                i <= self.entries@.len(),
                forall|j: int| i <= j < self.entries@.len() ==> #[trigger] self.entries@[j].0@ != s@,
                entries_map(self.entries@).contains_key(s@) == entries_map(self.entries@.subrange(0, i as int)).contains_key(s@),
                entries_map(self.entries@.subrange(0, i as int)).contains_key(s@) ==>
                    entries_map(self.entries@)[s@] == entries_map(self.entries@.subrange(0, i as int))[s@],
            decreases i,
        {
            let ghost sub = self.entries@.subrange(0, i as int);
            assert(sub.drop_last() =~= self.entries@.subrange(0, i - 1));
            if str_eq(self.entries[i - 1].0.as_str(), s) {
                return Some(i - 1);
            }
            i = i - 1;
        }
        assert(self.entries@.subrange(0, 0) =~= Seq::<(String, Vec<u32>)>::empty());
        None
    }

    /// Whether ids are remembered for `s`.
    pub fn contains_key(&self, s: &str) -> (r: bool)
        ensures
            r == self@.contains_key(s@),
    {
        self.find(s).is_some()
    }

    /// The ids remembered for `s`, if any.
    pub fn get(&self, s: &str) -> (r: Option<Vec<u32>>)
        ensures
            r matches Some(ids) ==> self@.contains_key(s@) && ids@ == self@[s@],
            r is None ==> !self@.contains_key(s@),
    {
        match self.find(s) {
            Some(i) => Some(self.entries[i].1.clone()),
            None => None,
        }
    }

    /// Remembers `ids` for `s`.
    fn insert(&mut self, s: &str, ids: Vec<u32>)
        ensures
            final(self)@ == old(self)@.insert(s@, ids@),
    {
        let ghost before = self.entries@;
        self.entries.push((s.to_owned(), ids));
        assert(self.entries@.drop_last() =~= before);
    }
}

/// The ids of `s`: those remembered in the cache if there are any, otherwise the tokenizer's,
/// which are then remembered. With a cache that agrees with the tokenizer the ids are the
/// tokenizer's either way, and the cache still agrees with it afterwards.
pub fn get_bpe_cache_tokens(cache: &mut BPETokenCache, tokenizer: &BPETokenizer, s: &str) -> (r: Vec<u32>)
    requires
        !old(cache)@.contains_key(s@) ==> tokenizer.special_token_count <= tokenizer.vocab@.len(),
    ensures
        old(cache)@.contains_key(s@) ==> r@ == old(cache)@[s@] && final(cache)@ == old(cache)@,
        !old(cache)@.contains_key(s@) ==> r@ == fresh_ids(*tokenizer, s@) && final(cache)@
            == old(cache)@.insert(s@, r@),
        agrees_with(old(cache)@, *tokenizer) ==> r@ == fresh_ids(*tokenizer, s@) && agrees_with(
            final(cache)@,
            *tokenizer,
        ),
{
    if let Some(tokens) = cache.get(s) {
        return tokens;
    }
    let tokens = bpe_infer_tokenize(tokenizer, s);
    cache.insert(s, tokens.clone());
    tokens
}


/// The ids of the structural tags, each as tokenizing its text gives them.
#[derive(Debug, Clone)]
pub struct BPECache {
    pub sample_open: Vec<u32>,
    pub sample_close: Vec<u32>,
    pub system_open: Vec<u32>,
    pub system_close: Vec<u32>,
    pub thought_open: Vec<u32>,
    pub thought_close: Vec<u32>,
    pub prompt_open: Vec<u32>,
    pub prompt_close: Vec<u32>,
    pub ai_open: Vec<u32>,
    pub ai_close: Vec<u32>,
    pub text_open: Vec<u32>,
    pub text_close: Vec<u32>,
    pub source_open: Vec<u32>,
    pub source_close: Vec<u32>,
    pub line_break_single: Vec<u32>,
    pub line_break_double: Vec<u32>,
}

/// The texts of the structural tags, in the order of the fields of `BPECache`.
pub open spec fn cache_tags() -> Seq<Seq<char>> {
    seq![
        "<sample>"@, "</sample>"@, "<system>"@, "</system>"@, "<thought>"@, "</thought>"@,
        "<prompt>"@, "</prompt>"@, "<ai>"@, "</ai>"@, "<text>"@, "</text>"@, "<source>"@,
        "</source>"@, "<line-break />"@, "<line-break count=\"2\" />"@,
    ]
}

/// The fields of a `BPECache`, in order.
pub open spec fn cache_fields(c: BPECache) -> Seq<Seq<u32>> {
    seq![
        c.sample_open@, c.sample_close@, c.system_open@, c.system_close@, c.thought_open@,
        c.thought_close@, c.prompt_open@, c.prompt_close@, c.ai_open@, c.ai_close@, c.text_open@,
        c.text_close@, c.source_open@, c.source_close@, c.line_break_single@,
        c.line_break_double@,
    ]
}

/// The texts of the structural tags, in the order of the fields of `BPECache`.
pub fn cache_tag_strings() -> (r: Vec<String>)
    ensures
        crate::bpe::tokenizer::views(r@) == cache_tags(),
{
    let r = vec![
        "<sample>".to_owned(), "</sample>".to_owned(), "<system>".to_owned(),
        "</system>".to_owned(), "<thought>".to_owned(), "</thought>".to_owned(),
        "<prompt>".to_owned(), "</prompt>".to_owned(), "<ai>".to_owned(), "</ai>".to_owned(),
        "<text>".to_owned(), "</text>".to_owned(), "<source>".to_owned(), "</source>".to_owned(),
        "<line-break />".to_owned(), "<line-break count=\"2\" />".to_owned(),
    ];
    assert(crate::bpe::tokenizer::views(r@) =~= cache_tags());
    r
}

/// Looks up (through the cache) the ids of every structural tag. Each field holds what the
/// cache remembers for its tag after the call; tags the cache did not know are tokenized and
/// remembered, what it knew stays as it was.
pub fn create_bpe_cache(cache: &mut BPETokenCache, tokenizer: &BPETokenizer) -> (r: BPECache)
    requires
        tokenizer.special_token_count <= tokenizer.vocab@.len() || forall|i: int| 0 <= i < 16
            ==> old(cache)@.contains_key(#[trigger] cache_tags()[i]),
    ensures
        forall|k: Seq<char>| #[trigger] final(cache)@.contains_key(k) == (old(cache)@.contains_key(k)
            || cache_tags().contains(k)),
        forall|k: Seq<char>| #[trigger] old(cache)@.contains_key(k) ==> final(cache)@[k] == old(cache)@[k],
        forall|k: Seq<char>| !old(cache)@.contains_key(k) && cache_tags().contains(k)
            ==> #[trigger] final(cache)@[k] == fresh_ids(*tokenizer, k),
        forall|i: int| 0 <= i < 16 ==> #[trigger] cache_fields(r)[i] == final(cache)@[cache_tags()[i]],
        agrees_with(old(cache)@, *tokenizer) ==> agrees_with(final(cache)@, *tokenizer),
{
    let tags = cache_tag_strings();
    let ghost t = cache_tags();
    let mut ids: Vec<Vec<u32>> = Vec::new();
    let mut i: usize = 0;
    while i < tags.len()
        invariant
            t == cache_tags(),
            crate::bpe::tokenizer::views(tags@) == t,
            i <= tags@.len(),
            ids@.len() == i,
            tokenizer.special_token_count <= tokenizer.vocab@.len() || forall|i: int| 0 <= i < 16
                ==> old(cache)@.contains_key(#[trigger] cache_tags()[i]),
            forall|k: Seq<char>| #[trigger] cache@.contains_key(k) == (old(cache)@.contains_key(k)
                || t.subrange(0, i as int).contains(k)),
            forall|k: Seq<char>| #[trigger] old(cache)@.contains_key(k) ==> cache@[k] == old(cache)@[k],
            forall|k: Seq<char>| !old(cache)@.contains_key(k) && t.subrange(0, i as int).contains(k)
                ==> #[trigger] cache@[k] == fresh_ids(*tokenizer, k),
            forall|j: int| 0 <= j < i ==> #[trigger] ids@[j]@ == cache@[t[j]],
            agrees_with(old(cache)@, *tokenizer) ==> agrees_with(cache@, *tokenizer),
        decreases tags@.len() - i,
    {
        let ghost before = cache@;
        let key = tags[i].as_str();
        assert(key@ == t[i as int]);
        assert(tags@.len() == t.len());
        assert(t.len() == 16);
        assert(tokenizer.special_token_count > tokenizer.vocab@.len() ==> old(cache)@.contains_key(t[i as int]));
        let tokens = get_bpe_cache_tokens(cache, tokenizer, key);
        ids.push(tokens);
        assert forall|k: Seq<char>| t.subrange(0, i + 1).contains(k) == (t.subrange(0, i as int).contains(k)
            || k == t[i as int]) by {
            let s1 = t.subrange(0, i + 1);
            let s0 = t.subrange(0, i as int);
            if s1.contains(k) {
                let j = choose|j: int| 0 <= j < s1.len() && #[trigger] s1[j] == k;
                if j < i {
                    assert(s0[j] == k);
                }
            }
            if s0.contains(k) {
                let j = choose|j: int| 0 <= j < s0.len() && #[trigger] s0[j] == k;
                assert(s1[j] == k);
            }
            if k == t[i as int] {
                assert(t.subrange(0, i + 1)[i as int] == k);
            }
        }
        assert forall|j: int| 0 <= j < i + 1 implies #[trigger] ids@[j]@ == cache@[t[j]] by {
            if j < i {
                assert(t.subrange(0, i as int)[j] == t[j]);
                assert(before.contains_key(t[j]));
            }
        }
        i = i + 1;
    }
    assert(t.subrange(0, 16) =~= t);
    BPECache {
        sample_open: ids[0].clone(),
        sample_close: ids[1].clone(),
        system_open: ids[2].clone(),
        system_close: ids[3].clone(),
        thought_open: ids[4].clone(),
        thought_close: ids[5].clone(),
        prompt_open: ids[6].clone(),
        prompt_close: ids[7].clone(),
        ai_open: ids[8].clone(),
        ai_close: ids[9].clone(),
        text_open: ids[10].clone(),
        text_close: ids[11].clone(),
        source_open: ids[12].clone(),
        source_close: ids[13].clone(),
        line_break_single: ids[14].clone(),
        line_break_double: ids[15].clone(),
    }
}

} // verus!
