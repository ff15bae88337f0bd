//! Tokenizing text with a trained tokenizer: splitting off the special tokens, then applying
//! the learned merges to the rest.

use vstd::prelude::*;
use crate::text::{str_chars, str_eq, char_to_string, string_push, concat_str};
use crate::bpe::tokenizer::{BPETokenizer, views, id_or_unknown, special_prefix, find_token};
use crate::bpe::init_vocab::singles;
use crate::bpe::train_tokenize::special_tokens_of;
use crate::bpe::train::{merges_view, all_below, lemma_id_below, lemma_all_below_concat};

verus! {

/// How many characters of `cs` belong to a tag candidate whose `<` came just before:
/// everything up to and including the first `>`, or all of `cs` when there is none.
pub open spec fn until_close(cs: Seq<char>) -> nat
    decreases cs.len(),
{
    if cs.len() == 0 {
        0
    } else if cs[0] == '>' {
        1
    } else {
        1 + until_close(cs.drop_first())
    }
}

/// A tag candidate never runs past the end of the text.
pub proof fn lemma_until_close_bound(cs: Seq<char>)
    ensures
        until_close(cs) <= cs.len(),
    decreases cs.len(),
{
    if cs.len() > 0 {
        lemma_until_close_bound(cs.drop_first());
    }
}

/// Splitting the rest `cs` of a text, with `current` the plain text gathered so far and
/// `tokens` the tokens emitted: a `<` starts a tag candidate that runs to the next `>` (or
/// the end); a candidate that is a special token is emitted on its own (after the pending
/// plain text), any other candidate and any other character join the plain text.
pub open spec fn split_from(
    cs: Seq<char>,
    special: Seq<Seq<char>>,
    current: Seq<char>,
    tokens: Seq<Seq<char>>,
) -> Seq<Seq<char>>
    decreases cs.len(),
{
    if cs.len() == 0 {
        if current.len() > 0 {
            tokens.push(current)
        } else {
            tokens
        }
    } else if cs[0] == '<' {
        proof {
            lemma_until_close_bound(cs.drop_first());
        }
        let k = 1 + until_close(cs.drop_first());
        let candidate = cs.subrange(0, k as int);
        let rest = cs.subrange(k as int, cs.len() as int);
        if special.contains(candidate) {
            let emitted = if current.len() > 0 {
                tokens.push(current)
            } else {
                tokens
            };
            split_from(rest, special, seq![], emitted.push(candidate))
        } else {
            split_from(rest, special, current + candidate, tokens)
        }
    } else {
        split_from(cs.drop_first(), special, current.push(cs[0]), tokens)
    }
}

/// The tokens a text splits into: special tokens on their own, plain text in between.
pub open spec fn split_tokens(text: Seq<char>, special: Seq<Seq<char>>) -> Seq<Seq<char>> {
    split_from(text, special, seq![], seq![])
}

/// The concatenation of a sequence of token texts.
pub open spec fn joined(ts: Seq<Seq<char>>) -> Seq<char>
    decreases ts.len(),
{
    if ts.len() == 0 {
        seq![]
    } else {
        joined(ts.drop_last()) + ts.last()
    }
}

/// Joining a list with one more text appends that text.
pub proof fn lemma_joined_push(ts: Seq<Seq<char>>, t: Seq<char>)
    ensures
        joined(ts.push(t)) == joined(ts) + t,
{
    assert(ts.push(t).drop_last() =~= ts);
}

/// Splitting loses nothing and makes no empty token: the tokens joined give back what was
/// gathered, then the rest of the text.
pub proof fn lemma_split_from_joined(
    cs: Seq<char>,
    special: Seq<Seq<char>>,
    current: Seq<char>,
    tokens: Seq<Seq<char>>,
)
    requires
        forall|j: int| 0 <= j < tokens.len() ==> #[trigger] tokens[j].len() > 0,
    ensures
        joined(split_from(cs, special, current, tokens)) == joined(tokens) + current + cs,
        forall|j: int| 0 <= j < split_from(cs, special, current, tokens).len()
            ==> #[trigger] split_from(cs, special, current, tokens)[j].len() > 0,
    decreases cs.len(),
{
    if cs.len() == 0 {
        if current.len() > 0 {
            lemma_joined_push(tokens, current);
        } else {
            assert(current =~= Seq::<char>::empty());
        }
        assert(joined(tokens) + current + cs =~= joined(tokens) + current);
    } else if cs[0] == '<' {
        lemma_until_close_bound(cs.drop_first());
        let k = 1 + until_close(cs.drop_first());
        let candidate = cs.subrange(0, k as int);
        let rest = cs.subrange(k as int, cs.len() as int);
        assert(cs =~= candidate + rest);
        if special.contains(candidate) {
            let emitted = if current.len() > 0 {
                tokens.push(current)
            } else {
                tokens
            };
            if current.len() > 0 {
                lemma_joined_push(tokens, current);
            } else {
                assert(joined(tokens) + current =~= joined(tokens));
            }
            lemma_joined_push(emitted, candidate);
            lemma_split_from_joined(rest, special, seq![], emitted.push(candidate));
            assert(joined(emitted.push(candidate)) + Seq::<char>::empty() + rest =~= joined(tokens)
                + current + cs);
        } else {
            lemma_split_from_joined(rest, special, current + candidate, tokens);
            assert(joined(tokens) + (current + candidate) + rest =~= joined(tokens) + current + cs);
        }
    } else {
        lemma_split_from_joined(cs.drop_first(), special, current.push(cs[0]), tokens);
        assert(joined(tokens) + current.push(cs[0]) + cs.drop_first() =~= joined(tokens) + current
            + cs);
    }
}

/// Splitting a text and joining the tokens gives the text back, and no token is empty.
pub proof fn lemma_split_tokens_joined(text: Seq<char>, special: Seq<Seq<char>>)
    ensures
        joined(split_tokens(text, special)) == text,
        forall|j: int| 0 <= j < split_tokens(text, special).len()
            ==> #[trigger] split_tokens(text, special)[j].len() > 0,
{
    lemma_split_from_joined(text, special, seq![], seq![]);
    assert(joined(Seq::<Seq<char>>::empty()) + Seq::<char>::empty() + text =~= text);
}

/// No two adjacent tokens of `ts` are both outside `special`.
pub open spec fn no_adjacent_plain(ts: Seq<Seq<char>>, special: Seq<Seq<char>>) -> bool {
    forall|j: int| 0 <= j && j + 1 < ts.len() ==> special.contains(#[trigger] ts[j]) || special.contains(ts[j + 1])
}

proof fn lemma_push_special_alternates(ts: Seq<Seq<char>>, special: Seq<Seq<char>>, t: Seq<char>)
    requires
        no_adjacent_plain(ts, special),
        ts.len() == 0 || special.contains(ts.last()) || special.contains(t),
    ensures
        no_adjacent_plain(ts.push(t), special),
{
    assert forall|j: int| 0 <= j && j + 1 < ts.push(t).len() implies special.contains(#[trigger] ts.push(t)[j])
        || special.contains(ts.push(t)[j + 1]) by {
        if j + 1 < ts.len() {
            assert(ts.push(t)[j] == ts[j] && ts.push(t)[j + 1] == ts[j + 1]);
        }
    }
}

proof fn lemma_split_from_alternates(cs: Seq<char>, special: Seq<Seq<char>>, current: Seq<char>, tokens: Seq<Seq<char>>)
    requires
        no_adjacent_plain(tokens, special),
        tokens.len() == 0 || special.contains(tokens.last()),
    ensures
        no_adjacent_plain(split_from(cs, special, current, tokens), special),
    decreases cs.len(),
{
    if cs.len() == 0 {
        if current.len() > 0 {
            lemma_push_special_alternates(tokens, special, current);
        }
    } else if cs[0] == '<' {
        lemma_until_close_bound(cs.drop_first());
        let k = 1 + until_close(cs.drop_first());
        let candidate = cs.subrange(0, k as int);
        let rest = cs.subrange(k as int, cs.len() as int);
        if special.contains(candidate) {
            let emitted = if current.len() > 0 {
                tokens.push(current)
            } else {
                tokens
            };
            if current.len() > 0 {
                lemma_push_special_alternates(tokens, special, current);
            }
            lemma_push_special_alternates(emitted, special, candidate);
            assert(emitted.push(candidate).last() == candidate);
            lemma_split_from_alternates(rest, special, seq![], emitted.push(candidate));
        } else {
            lemma_split_from_alternates(rest, special, current + candidate, tokens);
        }
    } else {
        lemma_split_from_alternates(cs.drop_first(), special, current.push(cs[0]), tokens);
    }
}

/// Splitting never leaves two pieces of plain text side by side: of any two adjacent tokens,
/// one is a special token.
pub proof fn lemma_split_tokens_alternate(text: Seq<char>, special: Seq<Seq<char>>)
    ensures
        no_adjacent_plain(split_tokens(text, special), special),
{
    lemma_split_from_alternates(text, special, seq![], seq![]);
}

/// Whether `s` is one of `list`.
pub fn contains_str(list: &[String], s: &str) -> (r: bool)
    ensures
        r == views(list@).contains(s@),
{
    let mut i: usize = 0;
    while i < list.len()
        invariant
            i <= list@.len(),
            forall|j: int| 0 <= j < i ==> list@[j]@ != s@,
        decreases list@.len() - i,
    {
        if str_eq(list[i].as_str(), s) {
            assert(views(list@)[i as int] == s@);
            return true;
        }
        i = i + 1;
    }
    assert forall|j: int| 0 <= j < views(list@).len() implies views(list@)[j] != s@ by {
        assert(views(list@)[j] == list@[j]@);
    }
    false
}

/// Splits text into tokens: each special token (a `<` up to the next `>` that is in
/// `special_tokens`) stands alone, the plain text between them is kept whole.
pub fn split_into_tokens(text: &str, special_tokens: &[String]) -> (r: Vec<String>)
    ensures
        views(r@) == split_tokens(text@, views(special_tokens@)),
{
    let ghost sp = views(special_tokens@);
    let cs = str_chars(text);
    let n = cs.len();
    let mut tokens: Vec<String> = Vec::new();
    let mut current = String::new();
    let mut i: usize = 0;
    assert(cs@.subrange(0, n as int) =~= text@);
    assert(views(tokens@) =~= Seq::<Seq<char>>::empty());
    assert(current@ =~= Seq::<char>::empty());
    while i < n
        invariant
            n == cs@.len(),
            cs@ == text@,
            i <= n,
            sp == views(special_tokens@),
            split_from(cs@.subrange(i as int, n as int), sp, current@, views(tokens@))
                == split_tokens(text@, sp),
        decreases n - i,
    {
        let ghost rest = cs@.subrange(i as int, n as int);
        let c = cs[i];
        if c == '<' {
            let mut candidate = char_to_string(c);
            let mut j: usize = i + 1;
            let mut closed = false;
            assert(rest.drop_first() =~= cs@.subrange(j as int, n as int));
            assert(candidate@ =~= cs@.subrange(i as int, j as int));
            while j < n && !closed
                invariant
                    i < j <= n,
                    n == cs@.len(),
                    rest == cs@.subrange(i as int, n as int),
                    until_close(rest.drop_first()) == (j - i - 1) + if closed {
                        0
                    } else {
                        until_close(cs@.subrange(j as int, n as int))
                    },
                    candidate@ == cs@.subrange(i as int, j as int),
                decreases n - j,
            {
                let next = cs[j];
                string_push(&mut candidate, next);
                proof {
                    let t = cs@.subrange(j as int, n as int);
                    assert(t[0] == next);
                    assert(t.drop_first() =~= cs@.subrange(j + 1, n as int));
                    assert(candidate@ =~= cs@.subrange(i as int, j + 1));
                }
                j = j + 1;
                if next == '>' {
                    closed = true;
                }
            }
            proof {
                assert(rest.drop_first() =~= cs@.subrange(i + 1, n as int));
                if !closed {
                    assert(j == n);
                    assert(cs@.subrange(j as int, n as int).len() == 0);
                }
                assert(rest.subrange(0, (j - i) as int) =~= candidate@);
                assert(rest.subrange((j - i) as int, rest.len() as int) =~= cs@.subrange(j as int, n as int));
            }
            if contains_str(special_tokens, candidate.as_str()) {
                if !current.as_str().is_empty() {
                    let ghost before = tokens@;
                    tokens.push(current);
                    assert(views(tokens@) =~= views(before).push(current@));
                    current = String::new();
                } else {
                    proof {
                        assert(current@.len() == 0);
                    }
                    current = String::new();
                }
                let ghost before = tokens@;
                tokens.push(candidate);
                assert(views(tokens@) =~= views(before).push(candidate@));
            } else {
                current = concat_str(current.as_str(), candidate.as_str());
            }
            i = j;
        } else {
            string_push(&mut current, c);
            proof {
                assert(rest[0] == c);
                assert(rest.drop_first() =~= cs@.subrange(i + 1, n as int));
            }
            i = i + 1;
        }
    }
    if !current.as_str().is_empty() {
        let ghost before = tokens@;
        tokens.push(current);
        assert(views(tokens@) =~= views(before).push(current@));
    }
    tokens
}


/// One left-to-right pass over `word` from position `i`: where the tokens at `i` and `i + 1`
/// form a learned merge they become one token and the position stays; otherwise it moves on.
pub open spec fn merge_word_pass(word: Seq<Seq<char>>, merges: Seq<(Seq<char>, Seq<char>)>, i: int) -> Seq<Seq<char>>
    decreases word.len() - i,
{
    if i < 0 || i + 1 >= word.len() {
        word
    } else if merges.contains((word[i], word[i + 1])) {
        merge_word_pass(word.update(i, word[i] + word[i + 1]).remove(i + 1), merges, i)
    } else {
        merge_word_pass(word, merges, i + 1)
    }
}

/// Passes over `word`, repeated until a pass merges nothing.
pub open spec fn merge_word(word: Seq<Seq<char>>, merges: Seq<(Seq<char>, Seq<char>)>) -> Seq<Seq<char>>
    decreases word.len(),
{
    let next = merge_word_pass(word, merges, 0);
    if next.len() < word.len() {
        merge_word(next, merges)
    } else {
        word
    }
}

/// The ids of the tokens that the merges make of `token`, one character per token at first
/// (0 for a token the vocabulary lacks).
pub open spec fn merge_ids(vocab: Seq<Seq<char>>, merges: Seq<(Seq<char>, Seq<char>)>, token: Seq<char>) -> Seq<u32> {
    merge_word(singles(token), merges).map_values(|w: Seq<char>| id_or_unknown(vocab, w))
}

/// A pass never lengthens the word, and one that keeps its length changes nothing.
pub proof fn lemma_merge_word_pass_len(word: Seq<Seq<char>>, merges: Seq<(Seq<char>, Seq<char>)>, i: int)
    ensures
        merge_word_pass(word, merges, i).len() <= word.len(),
        merge_word_pass(word, merges, i).len() == word.len() ==> merge_word_pass(word, merges, i) == word,
    decreases word.len() - i,
{
    if i < 0 || i + 1 >= word.len() {
    } else if merges.contains((word[i], word[i + 1])) {
        lemma_merge_word_pass_len(word.update(i, word[i] + word[i + 1]).remove(i + 1), merges, i);
    } else {
        lemma_merge_word_pass_len(word, merges, i + 1);
    }
}

/// Whether `(a, b)` is one of the merges.
fn find_merge(merges: &[(String, String)], a: &str, b: &str) -> (r: bool)
    ensures
        r == merges_view(merges@).contains((a@, b@)),
{
    let mut i: usize = 0;
    while i < merges.len()
        invariant
            i <= merges@.len(),
            forall|j: int| 0 <= j < i ==> #[trigger] merges_view(merges@)[j] != (a@, b@),
        decreases merges@.len() - i,
    {
        if str_eq(merges[i].0.as_str(), a) && str_eq(merges[i].1.as_str(), b) {
            assert(merges_view(merges@)[i as int] == (a@, b@));
            return true;
        }
        i = i + 1;
    }
    false
}

/// Applies the learned merges to a token: it starts as one token per character; each pass goes
/// left to right and joins two adjacent tokens wherever they form a merge (looking again at the
/// same place after a join); passes repeat until one joins nothing. Each resulting token
/// becomes its id, or 0 when the vocabulary lacks it.
pub fn apply_merges_fast(token: &str, merges: &[(String, String)], vocab: &Vec<String>) -> (r: Vec<u32>)
    requires
        token@.len() > 0,
    ensures
        r@ == merge_ids(views(vocab@), merges_view(merges@), token@),
{
    let ghost m = merges_view(merges@);
    let cs = str_chars(token);
    let mut word: Vec<String> = Vec::new();
    let mut k: usize = 0;
    while k < cs.len()
        invariant
            cs@ == token@,
            k <= cs@.len(),
            views(word@) == singles(cs@.subrange(0, k as int)),
        decreases cs@.len() - k,
    {
        let ghost before = word@;
        word.push(char_to_string(cs[k]));
        assert(cs@.subrange(0, k + 1).drop_last() =~= cs@.subrange(0, k as int));
        assert(views(word@) =~= views(before).push(seq![cs@[k as int]]));
        k = k + 1;
    }
    assert(cs@.subrange(0, cs@.len() as int) =~= token@);
    let ghost start = views(word@);
    loop
        invariant
            merge_word(views(word@), m) == merge_word(start, m),
            word@.len() > 0,
            m == merges_view(merges@),
        ensures
            views(word@) == merge_word(start, m),
        decreases word@.len(),
    {
        let ghost pass_start = views(word@);
        let mut i: usize = 0;
        let mut merged = false;
        while i < word.len() - 1
            invariant
                merge_word_pass(views(word@), m, i as int) == merge_word_pass(pass_start, m, 0),
                word@.len() > 0,
                word@.len() <= pass_start.len(),
                merged <==> word@.len() < pass_start.len(),
                m == merges_view(merges@),
            decreases word@.len() - i,
        {
            if find_merge(merges, word[i].as_str(), word[i + 1].as_str()) {
                let ghost w = views(word@);
                let joined = concat_str(word[i].as_str(), word[i + 1].as_str());
                word.set(i, joined);
                word.remove(i + 1);
                assert(views(word@) =~= w.update(i as int, w[i as int] + w[i + 1]).remove(i + 1));
                merged = true;
            } else {
                i = i + 1;
            }
        }
        proof {
            lemma_merge_word_pass_len(pass_start, m, 0);
        }
        if !merged {
            assert(views(word@) == pass_start);
            break;
        }
    }
    let mut result: Vec<u32> = Vec::new();
    let mut j: usize = 0;
    let ghost fin = views(word@);
    while j < word.len()
        invariant
            fin == views(word@),
            j <= word@.len(),
            result@ == fin.subrange(0, j as int).map_values(|w: Seq<char>| id_or_unknown(views(vocab@), w)),
        decreases word@.len() - j,
    {
        let id: u32 = match find_token(vocab, word[j].as_str()) {
            Some(x) => x as u32,
            None => 0,
        };
        result.push(id);
        j = j + 1;
        assert(result@ =~= fin.subrange(0, j as int).map_values(|w: Seq<char>| id_or_unknown(views(vocab@), w)));
    }
    assert(fin.subrange(0, fin.len() as int) =~= fin);
    result
}


/// The ids of one token of a split text: a special token is its own id, any other token goes
/// through the merges.
pub open spec fn token_ids(
    vocab: Seq<Seq<char>>,
    merges: Seq<(Seq<char>, Seq<char>)>,
    special: Seq<Seq<char>>,
    t: Seq<char>,
) -> Seq<u32> {
    if special.contains(t) {
        seq![id_or_unknown(vocab, t)]
    } else {
        merge_ids(vocab, merges, t)
    }
}

/// The ids of a sequence of tokens, one token after the other.
pub open spec fn tokens_ids(
    vocab: Seq<Seq<char>>,
    merges: Seq<(Seq<char>, Seq<char>)>,
    special: Seq<Seq<char>>,
    ts: Seq<Seq<char>>,
) -> Seq<u32>
    decreases ts.len(),
{
    if ts.len() == 0 {
        seq![]
    } else {
        tokens_ids(vocab, merges, special, ts.drop_last()) + token_ids(vocab, merges, special, ts.last())
    }
}

/// The ids of `text` for a tokenizer with vocabulary `vocab`, merges `merges` and
/// `special_count` special tokens.
pub open spec fn infer_ids(
    vocab: Seq<Seq<char>>,
    merges: Seq<(Seq<char>, Seq<char>)>,
    special_count: u32,
    text: Seq<char>,
) -> Seq<u32> {
    let sp = special_prefix(vocab, special_count);
    tokens_ids(vocab, merges, sp, split_tokens(text, sp))
}

/// Converts text to token ids with a trained tokenizer: the text is split around its special
/// tokens; each special token becomes its id, every other piece goes through the merges.
pub fn bpe_infer_tokenize(tokenizer: &BPETokenizer, text: &str) -> (r: Vec<u32>)
    requires
        tokenizer.special_token_count <= tokenizer.vocab@.len(),
    ensures
        r@ == infer_ids(tokenizer.vocab_view(), merges_view(tokenizer.merges@), tokenizer.special_token_count, text@),
{
    let ghost v = tokenizer.vocab_view();
    let ghost m = merges_view(tokenizer.merges@);
    let special_tokens = special_tokens_of(tokenizer);
    let ghost sp = views(special_tokens@);
    let tokens = split_into_tokens(text, &special_tokens);
    let ghost ts = views(tokens@);
    proof {
        lemma_split_tokens_joined(text@, sp);
    }
    let mut result: Vec<u32> = Vec::new();
    let mut i: usize = 0;
    assert(ts.subrange(0, 0) =~= Seq::<Seq<char>>::empty());
    while i < tokens.len()
        invariant
            i <= tokens@.len(),
            ts == views(tokens@),
            sp == views(special_tokens@),
            sp == special_prefix(v, tokenizer.special_token_count),
            v == tokenizer.vocab_view(),
            m == merges_view(tokenizer.merges@),
            ts == split_tokens(text@, sp),
            forall|j: int| 0 <= j < ts.len() ==> #[trigger] ts[j].len() > 0,
            result@ == tokens_ids(v, m, sp, ts.subrange(0, i as int)),
        decreases tokens@.len() - i,
    {
        let token = tokens[i].as_str();
        assert(ts[i as int] == token@);
        assert(ts.subrange(0, i + 1).drop_last() =~= ts.subrange(0, i as int));
        if contains_str(&special_tokens, token) {
            result.push(tokenizer.id_or_unknown(token));
        } else {
            let merged = apply_merges_fast(token, &tokenizer.merges, &tokenizer.vocab);
            let mut k: usize = 0;
            let ghost before = result@;
            while k < merged.len()
                invariant
                    k <= merged@.len(),
                    result@ == before + merged@.subrange(0, k as int),
                decreases merged@.len() - k,
            {
                result.push(merged[k]);
                k = k + 1;
                assert(result@ =~= before + merged@.subrange(0, k as int));
            }
            assert(merged@.subrange(0, merged@.len() as int) =~= merged@);
        }
        i = i + 1;
    }
    assert(ts.subrange(0, ts.len() as int) =~= ts);
    result
}


/// The text that the tokens named by `ids` spell.
pub open spec fn spelled(vocab: Seq<Seq<char>>, ids: Seq<u32>) -> Seq<char> {
    joined(ids.map_values(|id: u32| vocab[id as int]))
}

/// Joining one or two texts.
pub proof fn lemma_joined_small(x: Seq<char>, y: Seq<char>)
    ensures
        joined(seq![x]) == x,
        joined(seq![x, y]) == x + y,
{
    lemma_joined_push(Seq::<Seq<char>>::empty(), x);
    assert(Seq::<Seq<char>>::empty().push(x) =~= seq![x]);
    assert(Seq::<char>::empty() + x =~= x);
    lemma_joined_push(seq![x], y);
    assert(seq![x].push(y) =~= seq![x, y]);
}

/// Joining is compatible with concatenation.
pub proof fn lemma_joined_concat(a: Seq<Seq<char>>, b: Seq<Seq<char>>)
    ensures
        joined(a + b) == joined(a) + joined(b),
    decreases b.len(),
{
    if b.len() == 0 {
        assert(a + b =~= a);
        assert(joined(a) + joined(b) =~= joined(a));
    } else {
        lemma_joined_concat(a, b.drop_last());
        assert((a + b).drop_last() =~= a + b.drop_last());
        assert(joined(a) + joined(b.drop_last()) + b.last() =~= joined(a) + (joined(b.drop_last())
            + b.last()));
    }
}

/// One token per character joins back to the text.
pub proof fn lemma_joined_singles(t: Seq<char>)
    ensures
        joined(singles(t)) == t,
        forall|j: int| 0 <= j < singles(t).len() ==> #[trigger] singles(t)[j] == seq![t[j]],
        singles(t).len() == t.len(),
    decreases t.len(),
{
    if t.len() > 0 {
        lemma_joined_singles(t.drop_last());
        lemma_joined_push(singles(t.drop_last()), seq![t.last()]);
        assert(t.drop_last() + seq![t.last()] =~= t);
        assert forall|j: int| 0 <= j < singles(t).len() implies #[trigger] singles(t)[j] == seq![t[j]] by {
            if j < t.len() - 1 {
                assert(singles(t)[j] == singles(t.drop_last())[j]);
            }
        }
    }
}

/// Every token of `w` is in `vocab`.
pub open spec fn all_in(w: Seq<Seq<char>>, vocab: Seq<Seq<char>>) -> bool {
    forall|j: int| 0 <= j < w.len() ==> vocab.contains(#[trigger] w[j])
}

/// Every merge joins into a token of `vocab`.
pub open spec fn merges_in(merges: Seq<(Seq<char>, Seq<char>)>, vocab: Seq<Seq<char>>) -> bool {
    forall|k: int| 0 <= k < merges.len() ==> vocab.contains(#[trigger] merges[k].0 + merges[k].1)
}

proof fn lemma_merge_word_pass_joined(
    w: Seq<Seq<char>>,
    m: Seq<(Seq<char>, Seq<char>)>,
    i: int,
    vocab: Seq<Seq<char>>,
)
    ensures
        joined(merge_word_pass(w, m, i)) == joined(w),
        all_in(w, vocab) && merges_in(m, vocab) ==> all_in(merge_word_pass(w, m, i), vocab),
    decreases w.len() - i,
{
    if i < 0 || i + 1 >= w.len() {
    } else if m.contains((w[i], w[i + 1])) {
        let w1 = w.update(i, w[i] + w[i + 1]).remove(i + 1);
        let l = w.subrange(0, i);
        let r = w.subrange(i + 2, w.len() as int);
        assert(w =~= l + seq![w[i], w[i + 1]] + r);
        assert(w1 =~= l + seq![w[i] + w[i + 1]] + r);
        lemma_joined_concat(l + seq![w[i], w[i + 1]], r);
        lemma_joined_concat(l, seq![w[i], w[i + 1]]);
        lemma_joined_concat(l + seq![w[i] + w[i + 1]], r);
        lemma_joined_concat(l, seq![w[i] + w[i + 1]]);
        lemma_joined_small(w[i], w[i + 1]);
        lemma_joined_small(w[i] + w[i + 1], w[i]);
        assert(joined(l) + (w[i] + w[i + 1]) + joined(r) =~= joined(l) + joined(seq![w[i], w[i + 1]]) + joined(r));
        if all_in(w, vocab) && merges_in(m, vocab) {
            let k = choose|k: int| 0 <= k < m.len() && m[k] == (w[i], w[i + 1]);
            assert(vocab.contains(m[k].0 + m[k].1));
            assert forall|j: int| 0 <= j < w1.len() implies vocab.contains(#[trigger] w1[j]) by {
                if j > i {
                    assert(w1[j] == w[j + 1]);
                } else if j < i {
                    assert(w1[j] == w[j]);
                }
            }
        }
        lemma_merge_word_pass_joined(w1, m, i, vocab);
    } else {
        lemma_merge_word_pass_joined(w, m, i + 1, vocab);
    }
}

proof fn lemma_merge_word_joined(w: Seq<Seq<char>>, m: Seq<(Seq<char>, Seq<char>)>, vocab: Seq<Seq<char>>)
    ensures
        joined(merge_word(w, m)) == joined(w),
        all_in(w, vocab) && merges_in(m, vocab) ==> all_in(merge_word(w, m), vocab),
    decreases w.len(),
{
    let next = merge_word_pass(w, m, 0);
    lemma_merge_word_pass_joined(w, m, 0, vocab);
    if next.len() < w.len() {
        lemma_merge_word_joined(next, m, vocab);
    }
}

/// A token of the vocabulary is named by its id (ids are 32-bit).
pub proof fn lemma_id_names_token(vocab: Seq<Seq<char>>, t: Seq<char>)
    requires
        vocab.contains(t),
        vocab.len() <= 0x1_0000_0000,
    ensures
        vocab[id_or_unknown(vocab, t) as int] == t,
{
    crate::bpe::tokenizer::lemma_token_index(vocab, t);
}

/// Tokens of the vocabulary, looked up and named again, spell their joined text.
pub proof fn lemma_spelled_words(vocab: Seq<Seq<char>>, w: Seq<Seq<char>>)
    requires
        all_in(w, vocab),
        vocab.len() <= 0x1_0000_0000,
    ensures
        spelled(vocab, w.map_values(|x: Seq<char>| id_or_unknown(vocab, x))) == joined(w),
{
    let ids = w.map_values(|x: Seq<char>| id_or_unknown(vocab, x));
    let named = ids.map_values(|id: u32| vocab[id as int]);
    assert forall|j: int| 0 <= j < w.len() implies #[trigger] named[j] == w[j] by {
        lemma_id_names_token(vocab, w[j]);
    }
    assert(named =~= w);
}

/// Spelling is compatible with concatenation.
pub proof fn lemma_spelled_concat(vocab: Seq<Seq<char>>, a: Seq<u32>, b: Seq<u32>)
    ensures
        spelled(vocab, a + b) == spelled(vocab, a) + spelled(vocab, b),
{
    let f = |id: u32| vocab[id as int];
    assert((a + b).map_values(f) =~= a.map_values(f) + b.map_values(f));
    lemma_joined_concat(a.map_values(f), b.map_values(f));
}

/// A character of one of the parts is a character of the whole.
proof fn lemma_joined_contains(ts: Seq<Seq<char>>, k: int, j: int)
    requires
        0 <= k < ts.len(),
        0 <= j < ts[k].len(),
    ensures
        joined(ts).contains(ts[k][j]),
    decreases ts.len(),
{
    lemma_joined_push(ts.drop_last(), ts.last());
    assert(ts.drop_last().push(ts.last()) =~= ts);
    let pre = joined(ts.drop_last());
    if k == ts.len() - 1 {
        assert(joined(ts)[pre.len() + j] == ts[k][j]);
    } else {
        assert(ts.drop_last()[k] == ts[k]);
        lemma_joined_contains(ts.drop_last(), k, j);
        let p = choose|p: int| 0 <= p < pre.len() && pre[p] == ts[k][j];
        assert(joined(ts)[p] == ts[k][j]);
    }
}

proof fn lemma_tokens_spelled(
    vocab: Seq<Seq<char>>,
    m: Seq<(Seq<char>, Seq<char>)>,
    sp: Seq<Seq<char>>,
    ts: Seq<Seq<char>>,
    text: Seq<char>,
)
    requires
        vocab.len() <= 0x1_0000_0000,
        merges_in(m, vocab),
        forall|t: Seq<char>| sp.contains(t) ==> vocab.contains(t),
        forall|j: int| 0 <= j < text.len() ==> vocab.contains(seq![#[trigger] text[j]]),
        joined(ts).len() <= text.len(),
        joined(ts) == text.subrange(0, joined(ts).len() as int),
    ensures
        spelled(vocab, tokens_ids(vocab, m, sp, ts)) == joined(ts),
    decreases ts.len(),
{
    if ts.len() > 0 {
        let pre = ts.drop_last();
        let t = ts.last();
        lemma_joined_push(pre, t);
        assert(ts =~= pre.push(t));
        assert(joined(pre) =~= text.subrange(0, joined(pre).len() as int));
        lemma_tokens_spelled(vocab, m, sp, pre, text);
        lemma_spelled_concat(vocab, tokens_ids(vocab, m, sp, pre), token_ids(vocab, m, sp, t));
        if sp.contains(t) {
            lemma_id_names_token(vocab, t);
            assert(seq![id_or_unknown(vocab, t)].map_values(|id: u32| vocab[id as int]) =~= seq![t]);
            lemma_joined_small(t, t);
        } else {
            lemma_joined_singles(t);
            assert forall|j: int| 0 <= j < singles(t).len() implies vocab.contains(#[trigger] singles(t)[j]) by {
                let c = joined(ts)[joined(pre).len() + j];
                assert(c == t[j]);
                assert(c == text[joined(pre).len() + j]);
            }
            lemma_merge_word_joined(singles(t), m, vocab);
            lemma_spelled_words(vocab, merge_word(singles(t), m));
        }
    }
}

/// Tokenizing loses nothing: when the vocabulary holds each character of the text as a token
/// and the result of every merge, the tokens that the ids name spell the text again.
pub proof fn lemma_infer_spells_text(
    vocab: Seq<Seq<char>>,
    merges: Seq<(Seq<char>, Seq<char>)>,
    special_count: u32,
    text: Seq<char>,
)
    requires
        special_count <= vocab.len(),
        vocab.len() <= 0x1_0000_0000,
        merges_in(merges, vocab),
        forall|j: int| 0 <= j < text.len() ==> vocab.contains(seq![#[trigger] text[j]]),
    ensures
        spelled(vocab, infer_ids(vocab, merges, special_count, text)) == text,
{
    let sp = special_prefix(vocab, special_count);
    assert forall|t: Seq<char>| sp.contains(t) implies vocab.contains(t) by {
        let k = choose|k: int| 0 <= k < sp.len() && sp[k] == t;
        assert(vocab[k] == t);
    }
    lemma_split_tokens_joined(text, sp);
    assert(text.subrange(0, text.len() as int) =~= text);
    lemma_tokens_spelled(vocab, merges, sp, split_tokens(text, sp), text);
}


proof fn lemma_tokens_ids_below(
    vocab: Seq<Seq<char>>,
    m: Seq<(Seq<char>, Seq<char>)>,
    sp: Seq<Seq<char>>,
    ts: Seq<Seq<char>>,
)
    requires
        vocab.len() > 0,
    ensures
        all_below(tokens_ids(vocab, m, sp, ts), vocab.len() as int),
    decreases ts.len(),
{
    if ts.len() > 0 {
        lemma_tokens_ids_below(vocab, m, sp, ts.drop_last());
        let t = ts.last();
        lemma_id_below(vocab, t);
        let w = merge_word(singles(t), m);
        assert forall|j: int| 0 <= j < merge_ids(vocab, m, t).len() implies #[trigger] merge_ids(vocab, m, t)[j]
            < vocab.len() by {
            lemma_id_below(vocab, w[j]);
        }
        lemma_all_below_concat(tokens_ids(vocab, m, sp, ts.drop_last()), token_ids(vocab, m, sp, t), vocab.len() as int);
    }
}

/// Every id that tokenizing gives is an index of the (nonempty) vocabulary.
pub proof fn lemma_infer_ids_below(
    vocab: Seq<Seq<char>>,
    merges: Seq<(Seq<char>, Seq<char>)>,
    special_count: u32,
    text: Seq<char>,
)
    requires
        vocab.len() > 0,
    ensures
        all_below(infer_ids(vocab, merges, special_count, text), vocab.len() as int),
{
    let sp = special_prefix(vocab, special_count);
    lemma_tokens_ids_below(vocab, merges, sp, split_tokens(text, sp));
}


proof fn lemma_merge_word_pass_nonempty(word: Seq<Seq<char>>, merges: Seq<(Seq<char>, Seq<char>)>, i: int)
    requires
        word.len() > 0,
    ensures
        merge_word_pass(word, merges, i).len() > 0,
    decreases word.len() - i,
{
    if i < 0 || i + 1 >= word.len() {
    } else if merges.contains((word[i], word[i + 1])) {
        lemma_merge_word_pass_nonempty(word.update(i, word[i] + word[i + 1]).remove(i + 1), merges, i);
    } else {
        lemma_merge_word_pass_nonempty(word, merges, i + 1);
    }
}

/// A pass that keeps the length found no merge from position `i` on.
proof fn lemma_merge_word_pass_stuck(word: Seq<Seq<char>>, merges: Seq<(Seq<char>, Seq<char>)>, i: int)
    requires
        0 <= i,
        merge_word_pass(word, merges, i).len() == word.len(),
    ensures
        forall|j: int| i <= j && j + 1 < word.len() ==> !merges.contains((#[trigger] word[j], word[j + 1])),
    decreases word.len() - i,
{
    if i + 1 < word.len() {
        if merges.contains((word[i], word[i + 1])) {
            let w1 = word.update(i, word[i] + word[i + 1]).remove(i + 1);
            lemma_merge_word_pass_len(w1, merges, i);
        } else {
            lemma_merge_word_pass_stuck(word, merges, i + 1);
        }
    }
}

proof fn lemma_merge_word_fixpoint(word: Seq<Seq<char>>, merges: Seq<(Seq<char>, Seq<char>)>)
    ensures
        ({
            let w = merge_word(word, merges);
            &&& w.len() <= word.len()
            &&& word.len() > 0 ==> w.len() > 0
            &&& forall|j: int| 0 <= j && j + 1 < w.len() ==> !merges.contains((#[trigger] w[j], w[j + 1]))
        }),
    decreases word.len(),
{
    let next = merge_word_pass(word, merges, 0);
    lemma_merge_word_pass_len(word, merges, 0);
    if word.len() > 0 {
        lemma_merge_word_pass_nonempty(word, merges, 0);
    }
    if next.len() < word.len() {
        lemma_merge_word_fixpoint(next, merges);
    } else {
        lemma_merge_word_pass_stuck(word, merges, 0);
    }
}

/// What the merges make of a nonempty token: between one token and one per character, the
/// tokens joined give the token back, and no two adjacent tokens form a merge any more.
pub proof fn lemma_merge_word_laws(t: Seq<char>, merges: Seq<(Seq<char>, Seq<char>)>)
    requires
        t.len() > 0,
    ensures
        ({
            let w = merge_word(singles(t), merges);
            &&& 1 <= w.len() <= t.len()
            &&& joined(w) == t
            &&& forall|j: int| 0 <= j && j + 1 < w.len() ==> !merges.contains((#[trigger] w[j], w[j + 1]))
        }),
{
    lemma_joined_singles(t);
    lemma_merge_word_fixpoint(singles(t), merges);
    lemma_merge_word_joined(singles(t), merges, seq![]);
}

/// When the vocabulary holds each character of a token and the result of every merge, the
/// ids that applying the merges gives name tokens that spell the token again.
pub proof fn lemma_merge_ids_spell(vocab: Seq<Seq<char>>, merges: Seq<(Seq<char>, Seq<char>)>, t: Seq<char>)
    requires
        vocab.len() <= 0x1_0000_0000,
        merges_in(merges, vocab),
        forall|j: int| 0 <= j < t.len() ==> vocab.contains(seq![#[trigger] t[j]]),
    ensures
        spelled(vocab, merge_ids(vocab, merges, t)) == t,
{
    lemma_joined_singles(t);
    assert forall|j: int| 0 <= j < singles(t).len() implies vocab.contains(#[trigger] singles(t)[j]) by {
        assert(singles(t)[j] == seq![t[j]]);
    }
    lemma_merge_word_joined(singles(t), merges, vocab);
    lemma_spelled_words(vocab, merge_word(singles(t), merges));
}

/// Splitting on top of emitted tokens only puts them in front.
proof fn lemma_split_from_prefix(cs: Seq<char>, special: Seq<Seq<char>>, current: Seq<char>, tokens: Seq<Seq<char>>)
    ensures
        split_from(cs, special, current, tokens) == tokens + split_from(cs, special, current, seq![]),
    decreases cs.len(),
{
    if cs.len() == 0 {
        if current.len() > 0 {
            assert(tokens.push(current) =~= tokens + Seq::<Seq<char>>::empty().push(current));
        } else {
            assert(tokens =~= tokens + Seq::<Seq<char>>::empty());
        }
    } else if cs[0] == '<' {
        lemma_until_close_bound(cs.drop_first());
        let k = 1 + until_close(cs.drop_first());
        let candidate = cs.subrange(0, k as int);
        let rest = cs.subrange(k as int, cs.len() as int);
        if special.contains(candidate) {
            let e1 = if current.len() > 0 { tokens.push(current) } else { tokens };
            let e0 = if current.len() > 0 { Seq::<Seq<char>>::empty().push(current) } else { Seq::<Seq<char>>::empty() };
            assert(e1.push(candidate) =~= tokens + e0.push(candidate));
            lemma_split_from_prefix(rest, special, seq![], e1.push(candidate));
            lemma_split_from_prefix(rest, special, seq![], e0.push(candidate));
            assert(e1.push(candidate) + split_from(rest, special, seq![], seq![]) =~= tokens + (e0.push(
                candidate,
            ) + split_from(rest, special, seq![], seq![])));
        } else {
            lemma_split_from_prefix(rest, special, current + candidate, tokens);
        }
    } else {
        lemma_split_from_prefix(cs.drop_first(), special, current.push(cs[0]), tokens);
    }
}

/// Text without `<` is gathered as plain text.
proof fn lemma_split_from_plain(a: Seq<char>, cs: Seq<char>, special: Seq<Seq<char>>, current: Seq<char>, tokens: Seq<Seq<char>>)
    requires
        !a.contains('<'),
    ensures
        split_from(a + cs, special, current, tokens) == split_from(cs, special, current + a, tokens),
    decreases a.len(),
{
    if a.len() == 0 {
        assert(a + cs =~= cs);
        assert(current + a =~= current);
    } else {
        assert(a[0] != '<') by {
            assert(a.contains(a[0]) ==> a[0] != '<');
        }
        assert((a + cs)[0] == a[0]);
        assert((a + cs).drop_first() =~= a.drop_first() + cs);
        assert(!a.drop_first().contains('<')) by {
            if a.drop_first().contains('<') {
                let j = choose|j: int| 0 <= j < a.drop_first().len() && a.drop_first()[j] == '<';
                assert(a[j + 1] == '<');
            }
        }
        lemma_split_from_plain(a.drop_first(), cs, special, current.push(a[0]), tokens);
        assert(current.push(a[0]) + a.drop_first() =~= current + a);
    }
}

/// Where the first `>` of `x` is its last character, a tag candidate over `x` followed by
/// anything stops at the end of `x`.
proof fn lemma_until_close_tag(x: Seq<char>, b: Seq<char>)
    requires
        x.len() > 0,
        x.last() == '>',
        forall|j: int| 0 <= j < x.len() - 1 ==> #[trigger] x[j] != '>',
    ensures
        until_close(x + b) == x.len(),
    decreases x.len(),
{
    assert((x + b)[0] == x[0]);
    if x.len() > 1 {
        assert((x + b).drop_first() =~= x.drop_first() + b);
        assert forall|j: int| 0 <= j < x.drop_first().len() - 1 implies #[trigger] x.drop_first()[j] != '>' by {
            assert(x.drop_first()[j] == x[j + 1]);
        }
        lemma_until_close_tag(x.drop_first(), b);
    }
}

/// The ids of concatenated token lists are the concatenated ids.
proof fn lemma_tokens_ids_concat(
    vocab: Seq<Seq<char>>,
    m: Seq<(Seq<char>, Seq<char>)>,
    sp: Seq<Seq<char>>,
    x: Seq<Seq<char>>,
    y: Seq<Seq<char>>,
)
    ensures
        tokens_ids(vocab, m, sp, x + y) == tokens_ids(vocab, m, sp, x) + tokens_ids(vocab, m, sp, y),
    decreases y.len(),
{
    if y.len() == 0 {
        assert(x + y =~= x);
        assert(tokens_ids(vocab, m, sp, x) + Seq::<u32>::empty() =~= tokens_ids(vocab, m, sp, x));
    } else {
        lemma_tokens_ids_concat(vocab, m, sp, x, y.drop_last());
        assert((x + y).drop_last() =~= x + y.drop_last());
        assert((x + y).last() == y.last());
        assert(tokens_ids(vocab, m, sp, x) + tokens_ids(vocab, m, sp, y.drop_last()) + token_ids(
            vocab,
            m,
            sp,
            y.last(),
        ) =~= tokens_ids(vocab, m, sp, x) + (tokens_ids(vocab, m, sp, y.drop_last()) + token_ids(
            vocab,
            m,
            sp,
            y.last(),
        )));
    }
}

/// A special token splits tokenizing: text without `<`, then a special tag (a `<`, no other
/// `>` before its final `>`), then any text, gives the ids of the first text, the tag's id,
/// and the ids of the rest.
pub proof fn lemma_special_tag_splits(
    vocab: Seq<Seq<char>>,
    merges: Seq<(Seq<char>, Seq<char>)>,
    special_count: u32,
    a: Seq<char>,
    tag: Seq<char>,
    b: Seq<char>,
)
    requires
        special_prefix(vocab, special_count).contains(tag),
        tag.len() >= 2,
        tag[0] == '<',
        tag.last() == '>',
        forall|j: int| 1 <= j < tag.len() - 1 ==> #[trigger] tag[j] != '>',
        !a.contains('<'),
    ensures
        infer_ids(vocab, merges, special_count, a + tag + b) == infer_ids(vocab, merges, special_count, a)
            + seq![id_or_unknown(vocab, tag)] + infer_ids(vocab, merges, special_count, b),
{
    let sp = special_prefix(vocab, special_count);
    let e: Seq<Seq<char>> = seq![];
    let nil: Seq<char> = seq![];
    // the text before the tag
    lemma_split_from_plain(a, tag + b, sp, nil, e);
    assert(a + tag + b =~= a + (tag + b));
    assert(nil + a =~= a);
    lemma_split_from_plain(a, seq![], sp, nil, e);
    assert(a + Seq::<char>::empty() =~= a);
    let head = if a.len() > 0 { e.push(a) } else { e };
    assert(split_tokens(a, sp) == head);
    // the tag
    let cs = tag + b;
    assert(cs[0] == '<');
    let x = tag.drop_first();
    assert forall|j: int| 0 <= j < x.len() - 1 implies #[trigger] x[j] != '>' by {
        assert(x[j] == tag[j + 1]);
    }
    assert(cs.drop_first() =~= x + b);
    lemma_until_close_tag(x, b);
    assert(cs.subrange(0, tag.len() as int) =~= tag);
    assert(cs.subrange(tag.len() as int, cs.len() as int) =~= b);
    assert(split_from(cs, sp, a, e) == split_from(b, sp, nil, head.push(tag)));
    lemma_split_from_prefix(b, sp, nil, head.push(tag));
    assert(split_tokens(a + tag + b, sp) == head.push(tag) + split_tokens(b, sp));
    lemma_tokens_ids_concat(vocab, merges, sp, head.push(tag), split_tokens(b, sp));
    assert(head.push(tag) =~= head + seq![tag]);
    lemma_tokens_ids_concat(vocab, merges, sp, head, seq![tag]);
    let one: Seq<Seq<char>> = seq![tag];
    assert(one.drop_last() =~= e);
    assert(one.last() == tag);
    assert(tokens_ids(vocab, merges, sp, e) == Seq::<u32>::empty());
    assert(token_ids(vocab, merges, sp, tag) == seq![id_or_unknown(vocab, tag)]);
    assert(tokens_ids(vocab, merges, sp, one) =~= seq![id_or_unknown(vocab, tag)]);
}

/// Applying the merges to a nonempty token, with a vocabulary that holds each of its
/// characters and the result of every merge: between one id and one per character, the tokens
/// the ids name spell the token, and no two adjacent ids name the two parts of a merge (the
/// merging ran to its end).
pub proof fn lemma_apply_merges_ids_laws(vocab: Seq<Seq<char>>, merges: Seq<(Seq<char>, Seq<char>)>, t: Seq<char>)
    requires
        t.len() > 0,
        vocab.len() <= 0x1_0000_0000,
        merges_in(merges, vocab),
        forall|j: int| 0 <= j < t.len() ==> vocab.contains(seq![#[trigger] t[j]]),
    ensures
        ({
            let r = merge_ids(vocab, merges, t);
            &&& 1 <= r.len() <= t.len()
            &&& spelled(vocab, r) == t
            &&& forall|j: int| 0 <= j && j + 1 < r.len() ==> !merges.contains(
                (vocab[#[trigger] r[j] as int], vocab[r[j + 1] as int]),
            )
        }),
{
    let w = merge_word(singles(t), merges);
    lemma_merge_word_laws(t, merges);
    lemma_merge_ids_spell(vocab, merges, t);
    lemma_joined_singles(t);
    assert forall|j: int| 0 <= j < singles(t).len() implies vocab.contains(#[trigger] singles(t)[j]) by {
        assert(singles(t)[j] == seq![t[j]]);
    }
    lemma_merge_word_joined(singles(t), merges, vocab);
    let r = merge_ids(vocab, merges, t);
    assert forall|j: int| 0 <= j && j + 1 < r.len() implies !merges.contains(
        (vocab[#[trigger] r[j] as int], vocab[r[j + 1] as int]),
    ) by {
        lemma_id_names_token(vocab, w[j]);
        lemma_id_names_token(vocab, w[j + 1]);
        assert(w[j] == w[j]);
    }
}

} // verus!
