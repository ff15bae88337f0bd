//! Training: merging the most frequent pair of adjacent tokens, again and again.

use vstd::prelude::*;
use crate::sample::Sample;
use crate::text::concat_str;
use crate::bpe::tokenizer::{BPETokenizer, views, special_prefix, id_or_unknown, lemma_token_index, token_index, find_token};
use crate::bpe::token_writer::{WriterState, chars_ids, flush_ids, run, section_ids, fresh_state};
use crate::bpe::train_tokenize::{
    sample_ids, samples_ids, optional_text_ids, tag_id, bpe_train_tokenize,
};
use crate::bpe::init_vocab::{
    add_new, singles, strictly_sorted, samples_chars, vocab_with_chars, digit_chars, bpe_init_vocab,
};
use crate::bpe::pair_counts::{PairCounts, max_entry_of, is_max_entry};
use crate::bpe::pair_count_map::{
    window_count, counted_pairs, lemma_window_count_concat, lemma_window_count_bound,
    lemma_window_count_witness, bpe_create_pair_counts_map,
};

verus! {

/// How often `p` is counted in `c` (0 when absent).
pub open spec fn count_of(c: Map<(u32, u32), usize>, p: (u32, u32)) -> nat {
    if c.contains_key(p) {
        c[p] as nat
    } else {
        0
    }
}

/// `c` with one more occurrence of `p`.
pub open spec fn count_inc(c: Map<(u32, u32), usize>, p: (u32, u32)) -> Map<(u32, u32), usize> {
    c.insert(p, (count_of(c, p) + 1) as usize)
}

/// `c` with one occurrence of `p` less, if it has one; a count that reaches 0 is dropped.
pub open spec fn count_dec(c: Map<(u32, u32), usize>, p: (u32, u32)) -> Map<(u32, u32), usize> {
    if !c.contains_key(p) {
        c
    } else if c[p] <= 1 {
        c.remove(p)
    } else {
        c.insert(p, (c[p] - 1) as usize)
    }
}

/// The counts after moving the pair with the left neighbour of position `i` over to `n`,
/// when there is a left neighbour and it is no special token (an id below `sp`).
pub open spec fn merge_left_counts(s: Seq<u32>, c: Map<(u32, u32), usize>, i: int, a: u32, n: u32, sp: u32) -> Map<(u32, u32), usize> {
    if i > 0 && s[i - 1] >= sp {
        count_inc(count_dec(c, (s[i - 1], a)), (s[i - 1], n))
    } else {
        c
    }
}

/// The counts after moving the pair with the right neighbour of the pair at `i` over to `n`,
/// when there is a right neighbour and it is no special token.
pub open spec fn merge_right_counts(s: Seq<u32>, c: Map<(u32, u32), usize>, i: int, b: u32, n: u32, sp: u32) -> Map<(u32, u32), usize> {
    if i + 2 < s.len() && s[i + 2] >= sp {
        count_inc(count_dec(c, (b, s[i + 2])), (n, s[i + 2]))
    } else {
        c
    }
}

/// Replaces the pair `(a, b)` at position `i` of `s` by `n`, and updates the counts: the
/// pairs with the left neighbour and with the right neighbour are moved over to `n` when that
/// neighbour is no special token (an id below `sp`), and one occurrence of `(a, b)` is taken
/// away.
pub open spec fn merge_at(s: Seq<u32>, c: Map<(u32, u32), usize>, i: int, a: u32, b: u32, n: u32, sp: u32) -> (Seq<u32>, Map<(u32, u32), usize>) {
    let c2 = merge_right_counts(s, merge_left_counts(s, c, i, a, n, sp), i, b, n, sp);
    (s.update(i, n).remove(i + 1), count_dec(c2, (a, b)))
}

/// Replaces, from position `i` on and from left to right, each occurrence of `(a, b)` by `n`.
pub open spec fn merge_pass(s: Seq<u32>, c: Map<(u32, u32), usize>, i: int, a: u32, b: u32, n: u32, sp: u32) -> (Seq<u32>, Map<(u32, u32), usize>)
    decreases s.len() - i,
{
    if i < 0 || i + 1 >= s.len() {
        (s, c)
    } else if s[i] == a && s[i + 1] == b {
        let r = merge_at(s, c, i, a, b, n, sp);
        merge_pass(r.0, r.1, i, a, b, n, sp)
    } else {
        merge_pass(s, c, i + 1, a, b, n, sp)
    }
}

/// The merges as pairs of character sequences.
pub open spec fn merges_view(m: Seq<(String, String)>) -> Seq<(Seq<char>, Seq<char>)> {
    m.map_values(|x: (String, String)| (x.0@, x.1@))
}

/// The vocabulary and merges that training reaches from `vocab`, `merges`, the sequence `s`
/// and the pair counts `c`: while a pair is counted and ids remain, the greatest entry
/// (count, then left id, then right id) is taken; when its count is below `min` training
/// ends. Otherwise the pair is recorded as a merge and every occurrence of it in the sequence
/// is replaced by the id of the two tokens joined: a new id for a new token, or the id the
/// vocabulary already gives that text, so no text is in the vocabulary twice. A joined text
/// that is one of the `sp` special tokens ends training instead (special tokens are never
/// the result of a merge), and so does a replacement that changes nothing (which cannot
/// happen for a counted pair). No pair with a special token is ever counted.
pub open spec fn train_run(
    vocab: Seq<Seq<char>>,
    merges: Seq<(Seq<char>, Seq<char>)>,
    s: Seq<u32>,
    c: Map<(u32, u32), usize>,
    min: usize,
    sp: u32,
) -> (Seq<Seq<char>>, Seq<(Seq<char>, Seq<char>)>)
    decreases 0x1_0000_0000 - vocab.len(), s.len(),
{
    if vocab.len() >= 0x1_0000_0000 || c == Map::<(u32, u32), usize>::empty() {
        (vocab, merges)
    } else {
        let t = max_entry_of(c);
        if t.0 < min {
            (vocab, merges)
        } else {
            let ta = vocab[t.1 as int];
            let tb = vocab[t.2 as int];
            match token_index(vocab, ta + tb) {
                None => {
                    let r = merge_pass(s, c, 0, t.1, t.2, vocab.len() as u32, sp);
                    train_run(vocab.push(ta + tb), merges.push((ta, tb)), r.0, r.1, min, sp)
                },
                Some(k) => {
                    let r = merge_pass(s, c, 0, t.1, t.2, k as u32, sp);
                    if k < sp || r.0.len() >= s.len() {
                        (vocab, merges)
                    } else {
                        train_run(vocab, merges.push((ta, tb)), r.0, r.1, min, sp)
                    }
                },
            }
        }
    }
}

/// Every id of `s` is below `n`.
pub open spec fn all_below(s: Seq<u32>, n: int) -> bool {
    forall|j: int| 0 <= j < s.len() ==> #[trigger] s[j] < n
}

/// No counted pair holds a special token (an id below `sp`).
pub open spec fn counts_unspecial(c: Map<(u32, u32), usize>, sp: u32) -> bool {
    forall|p: (u32, u32)| #[trigger] c.contains_key(p) ==> p.0 >= sp && p.1 >= sp
}

/// Every counted pair is counted at least once and at most as often as it occurs in `s`.
pub open spec fn counts_bounded(s: Seq<u32>, c: Map<(u32, u32), usize>) -> bool {
    forall|p: (u32, u32)| #[trigger] c.contains_key(p) ==> 1 <= c[p] && count_of(c, p) <= window_count(s, p)
}

/// The windows of `s` before and after replacing `(a, b)` at `i` by `n`.
proof fn lemma_merge_windows(s: Seq<u32>, i: int, n: u32, p: (u32, u32))
    requires
        0 <= i,
        i + 1 < s.len(),
    ensures
        ({
            let a = s[i];
            let b = s[i + 1];
            let l = s.subrange(0, i);
            let rr = s.subrange(i + 2, s.len() as int);
            let s1 = s.update(i, n).remove(i + 1);
            let hl = |x: u32| if i > 0 && (s[i - 1], x) == p { 1nat } else { 0nat };
            let hr = |x: u32| if i + 2 < s.len() && (x, s[i + 2]) == p { 1nat } else { 0nat };
            &&& window_count(s, p) == window_count(l, p) + window_count(rr, p) + hl(a)
                + (if (a, b) == p { 1nat } else { 0nat }) + hr(b)
            &&& window_count(s1, p) == window_count(l, p) + window_count(rr, p) + hl(n) + hr(n)
        }),
{
    let a = s[i];
    let b = s[i + 1];
    let l = s.subrange(0, i);
    let rr = s.subrange(i + 2, s.len() as int);
    let s1 = s.update(i, n).remove(i + 1);
    let ab = seq![a, b];
    let nn = seq![n];
    assert(s =~= (l + ab) + rr);
    assert(s1 =~= (l + nn) + rr);
    lemma_window_count_concat(l + ab, rr, p);
    lemma_window_count_concat(l, ab, p);
    lemma_window_count_concat(l + nn, rr, p);
    lemma_window_count_concat(l, nn, p);
    assert(ab.drop_last() =~= seq![a]);
    assert(window_count(seq![a], p) == 0);
    assert(window_count(nn, p) == 0);
    if i > 0 {
        assert(l.last() == s[i - 1]);
    }
    if i + 2 < s.len() {
        assert(rr[0] == s[i + 2]);
    }
    assert((l + ab).last() == b);
    assert((l + nn).last() == n);
}

/// The counts before the last change of a replacement (after moving the neighbour pairs and
/// taking away the left-hand one) stay within the occurrences, shifted by those changes.
proof fn lemma_merge_counts_before_last(
    s: Seq<u32>,
    c: Map<(u32, u32), usize>,
    i: int,
    a: u32,
    b: u32,
    n: u32,
    sp: u32,
    p: (u32, u32),
)
    requires
        0 <= i,
        i + 1 < s.len(),
        s[i] == a,
        s[i + 1] == b,
        counts_bounded(s, c),
        counts_unspecial(c, sp),
        sp <= n,
        s.len() <= usize::MAX,
    ensures
        ({
            let wl = i > 0;
            let wr = i + 2 < s.len();
            let e1: int = if wl && p == (s[i - 1], a) { 1 } else { 0 };
            let e2: int = if wl && p == (s[i - 1], n) { 1 } else { 0 };
            let e3: int = if wr && p == (b, s[i + 2]) { 1 } else { 0 };
            let c2 = merge_left_counts(s, c, i, a, n, sp);
            let d3 = if wr && s[i + 2] >= sp { count_dec(c2, (b, s[i + 2])) } else { c2 };
            &&& count_of(d3, p) as int <= window_count(s, p) as int - e1 + e2 - e3
            &&& d3.contains_key(p) ==> d3[p] >= 1
            &&& forall|q: (u32, u32)| #[trigger] d3.contains_key(q) ==> q.0 >= sp && q.1 >= sp
        }),
{
    let wl = i > 0;
    let wr = i + 2 < s.len();
    let hl = wl && s[i - 1] >= sp;
    let hr = wr && s[i + 2] >= sp;
    let q1 = (s[i - 1], a);
    let q2 = (s[i - 1], n);
    let q3 = (b, s[i + 2]);
    let d1 = if hl { count_dec(c, q1) } else { c };
    let d2 = merge_left_counts(s, c, i, a, n, sp);
    let d3 = if hr { count_dec(d2, q3) } else { d2 };
    lemma_merge_windows(s, i, n, p);
    lemma_window_count_bound(s, p);
    lemma_window_count_bound(s, q2);
    let w0 = window_count(s, p) as int;
    let e1: int = if wl && p == q1 { 1 } else { 0 };
    let e2: int = if wl && p == q2 { 1 } else { 0 };
    let e3: int = if wr && p == q3 { 1 } else { 0 };
    assert(w0 - e1 - e3 >= 0);
    assert(count_of(c, p) <= w0);
    if wl && !hl && (p == q1 || p == q2) {
        assert(!c.contains_key(p));
    }
    if wr && !hr && p == q3 {
        assert(!c.contains_key(p));
        assert(!c.contains_key(q2) || q2 != p);
    }
    if hl {
        lemma_count_dec(c, q1, p);
        lemma_count_dec(c, q1, q2);
        lemma_count_inc(d1, q2, p, s.len());
        assert(d2 == count_inc(d1, q2));
    }
    assert(count_of(d2, p) <= w0 - e1 + e2);
    assert(d2.contains_key(p) ==> d2[p] >= 1);
    if hr {
        lemma_count_dec(d2, q3, p);
    }
    assert forall|q: (u32, u32)| #[trigger] d3.contains_key(q) implies q.0 >= sp && q.1 >= sp by {
        if hr {
            lemma_count_dec(d2, q3, q);
        }
        if hl {
            lemma_count_dec(c, q1, q);
        }
    }
}

/// One replacement keeps every id below `bound`, and the counts free of special tokens and
/// bounded by the occurrences; each count it raises has room to grow.
#[verifier::rlimit(30)]
proof fn lemma_merge_at_invariant(s: Seq<u32>, c: Map<(u32, u32), usize>, i: int, a: u32, b: u32, n: u32, sp: u32, bound: int)
    requires
        counts_unspecial(c, sp),
        sp <= n,
        0 <= i,
        i + 1 < s.len(),
        s[i] == a,
        s[i + 1] == b,
        n < bound,
        all_below(s, bound),
        counts_bounded(s, c),
        s.len() <= usize::MAX,
        c.dom().finite(),
    ensures
        ({
            let r = merge_at(s, c, i, a, b, n, sp);
            &&& counts_unspecial(r.1, sp)
            &&& r.1.dom().finite()
            &&& r.0.len() == s.len() - 1
            &&& r.0[i] == n
            &&& all_below(r.0, bound)
            &&& counts_bounded(r.0, r.1)
            &&& i > 0 && s[i - 1] >= sp ==> count_of(count_dec(c, (s[i - 1], a)), (s[i - 1], n)) < usize::MAX
            &&& i + 2 < s.len() && s[i + 2] >= sp ==> count_of(
                count_dec(merge_left_counts(s, c, i, a, n, sp), (b, s[i + 2])),
                (n, s[i + 2]),
            ) < usize::MAX
        }),
{
    let r = merge_at(s, c, i, a, b, n, sp);
    let s1 = s.update(i, n).remove(i + 1);
    assert(r.0 == s1);
    assert forall|j: int| 0 <= j < s1.len() implies #[trigger] s1[j] < bound by {
        if j > i {
            assert(s1[j] == s[j + 1]);
        } else if j < i {
            assert(s1[j] == s[j]);
        }
    }
    let wl = i > 0;
    let wr = i + 2 < s.len();
    let hl = wl && s[i - 1] >= sp;
    let hr = wr && s[i + 2] >= sp;
    let q1 = (s[i - 1], a);
    let q2 = (s[i - 1], n);
    let q3 = (b, s[i + 2]);
    let q4 = (n, s[i + 2]);
    let q5 = (a, b);
    let d2 = merge_left_counts(s, c, i, a, n, sp);
    let d3 = if hr { count_dec(d2, q3) } else { d2 };
    let d4 = merge_right_counts(s, d2, i, b, n, sp);
    let d5 = count_dec(d4, q5);
    assert(r.1 == d5);
    // room for the left-hand increment
    lemma_window_count_bound(s, q2);
    if hl {
        lemma_count_dec(c, q1, q2);
    }
    // room for the right-hand increment
    lemma_merge_counts_before_last(s, c, i, a, b, n, sp, q4);
    lemma_merge_windows(s, i, n, q4);
    lemma_window_count_bound(s1, q4);
    assert(s1.len() == s.len() - 1);
    assert forall|p: (u32, u32)| #[trigger] d5.contains_key(p) implies 1 <= d5[p] && count_of(d5, p)
        <= window_count(s1, p) && p.0 >= sp && p.1 >= sp by {
        lemma_merge_counts_before_last(s, c, i, a, b, n, sp, p);
        lemma_merge_windows(s, i, n, p);
        if hr {
            assert(d4 == count_inc(d3, q4));
            lemma_count_inc(d3, q4, p, s.len());
        }
        lemma_count_dec(d4, q5, p);
    }
}

/// Ids looked up in a nonempty vocabulary are below its length.
pub proof fn lemma_id_below(v: Seq<Seq<char>>, t: Seq<char>)
    requires
        v.len() > 0,
    ensures
        id_or_unknown(v, t) < v.len(),
{
    lemma_token_index(v, t);
    match crate::bpe::tokenizer::token_index(v, t) {
        Some(i) => {
            assert((i as u32) as int <= i as int) by (nonlinear_arith)
                requires 0 <= i as int;
        },
        None => {},
    }
}

/// Concatenating sequences of ids below `n` stays below `n`.
pub proof fn lemma_all_below_concat(x: Seq<u32>, y: Seq<u32>, n: int)
    requires
        all_below(x, n),
        all_below(y, n),
    ensures
        all_below(x + y, n),
{
    assert forall|j: int| 0 <= j < (x + y).len() implies #[trigger] (x + y)[j] < n by {
        if j >= x.len() {
            assert((x + y)[j] == y[j - x.len()]);
        }
    }
}

proof fn lemma_chars_ids_below(v: Seq<Seq<char>>, cs: Seq<char>)
    requires
        v.len() > 0,
    ensures
        all_below(chars_ids(v, cs), v.len() as int),
    decreases cs.len(),
{
    if cs.len() > 0 {
        lemma_chars_ids_below(v, cs.drop_last());
        lemma_id_below(v, seq![cs.last()]);
    }
}

proof fn lemma_run_below(v: Seq<Seq<char>>, sp: Seq<Seq<char>>, st: WriterState, cs: Seq<char>)
    requires
        v.len() > 0,
        all_below(st.ids, v.len() as int),
    ensures
        all_below(run(v, sp, st, cs).ids, v.len() as int),
    decreases cs.len(),
{
    if cs.len() > 0 {
        lemma_run_below(v, sp, st, cs.drop_last());
        let prev = run(v, sp, st, cs.drop_last());
        let c = cs.last();
        let b1 = prev.buf;
        let b2 = prev.buf.push(c as u8);
        lemma_flush_below(v, sp, b1);
        lemma_flush_below(v, sp, b2);
        lemma_all_below_concat(prev.ids, flush_ids(v, sp, b1), v.len() as int);
        lemma_all_below_concat(prev.ids, flush_ids(v, sp, b2), v.len() as int);
        lemma_id_below(v, seq![c]);
        lemma_all_below_concat(prev.ids, seq![crate::bpe::token_writer::char_id(v, c)], v.len() as int);
    }
}

proof fn lemma_flush_below(v: Seq<Seq<char>>, sp: Seq<Seq<char>>, buf: Seq<u8>)
    requires
        v.len() > 0,
    ensures
        all_below(flush_ids(v, sp, buf), v.len() as int),
{
    lemma_chars_ids_below(v, crate::bpe::token_writer::lossy_text(buf));
    lemma_id_below(v, crate::bpe::token_writer::lossy_text(buf));
}

proof fn lemma_optional_below(v: Seq<Seq<char>>, name: Seq<char>, t: Option<String>)
    requires
        v.len() > 0,
    ensures
        all_below(optional_text_ids(v, name, t), v.len() as int),
{
    if let Some(x) = t {
        lemma_id_below(v, crate::tag::render::simple_tag(name, true));
        lemma_id_below(v, crate::tag::render::simple_tag(name, false));
        lemma_chars_ids_below(v, x@);
        lemma_all_below_concat(seq![tag_id(v, name, true)], chars_ids(v, x@), v.len() as int);
        lemma_all_below_concat(seq![tag_id(v, name, true)] + chars_ids(v, x@), seq![tag_id(v, name, false)], v.len() as int);
    }
}

/// Every id of the initial training sequence is an index of the vocabulary.
proof fn lemma_samples_ids_below(v: Seq<Seq<char>>, sp: Seq<Seq<char>>, ss: Seq<Sample>)
    requires
        v.len() > 0,
    ensures
        all_below(samples_ids(v, sp, ss), v.len() as int),
    decreases ss.len(),
{
    if ss.len() > 0 {
        lemma_samples_ids_below(v, sp, ss.drop_last());
        let s = ss.last();
        let n = v.len() as int;
        let t = |name: Seq<char>, o: bool| seq![tag_id(v, name, o)];
        lemma_id_below(v, crate::tag::render::simple_tag("sample"@, true));
        lemma_id_below(v, crate::tag::render::simple_tag("sample"@, false));
        lemma_id_below(v, crate::tag::render::simple_tag("prompt"@, true));
        lemma_id_below(v, crate::tag::render::simple_tag("prompt"@, false));
        lemma_id_below(v, crate::tag::render::simple_tag("ai"@, true));
        lemma_id_below(v, crate::tag::render::simple_tag("ai"@, false));
        lemma_optional_below(v, "system"@, s.system);
        lemma_optional_below(v, "thought"@, s.thought);
        lemma_run_below(v, sp, fresh_state(), crate::tag::sections::prompt_content_text(s.prompt_section@));
        lemma_run_below(v, sp, fresh_state(), crate::tag::sections::ai_content_text(s.ai_section@));
        let p1 = t("sample"@, true);
        let p2 = p1 + optional_text_ids(v, "system"@, s.system);
        lemma_all_below_concat(p1, optional_text_ids(v, "system"@, s.system), n);
        let p3 = p2 + t("prompt"@, true);
        lemma_all_below_concat(p2, t("prompt"@, true), n);
        let p4 = p3 + section_ids(v, sp, crate::tag::sections::prompt_content_text(s.prompt_section@));
        lemma_all_below_concat(p3, section_ids(v, sp, crate::tag::sections::prompt_content_text(s.prompt_section@)), n);
        let p5 = p4 + t("prompt"@, false);
        lemma_all_below_concat(p4, t("prompt"@, false), n);
        let p6 = p5 + optional_text_ids(v, "thought"@, s.thought);
        lemma_all_below_concat(p5, optional_text_ids(v, "thought"@, s.thought), n);
        let p7 = p6 + t("ai"@, true);
        lemma_all_below_concat(p6, t("ai"@, true), n);
        let p8 = p7 + section_ids(v, sp, crate::tag::sections::ai_content_text(s.ai_section@));
        lemma_all_below_concat(p7, section_ids(v, sp, crate::tag::sections::ai_content_text(s.ai_section@)), n);
        let p9 = p8 + t("ai"@, false);
        lemma_all_below_concat(p8, t("ai"@, false), n);
        let p10 = p9 + t("sample"@, false);
        lemma_all_below_concat(p9, t("sample"@, false), n);
        assert(p10 == sample_ids(v, sp, s));
        lemma_all_below_concat(samples_ids(v, sp, ss.drop_last()), p10, n);
    }
}

/// Adding tokens keeps what was there in front, and leaves no empty vocabulary behind
/// when there was a token to add.
pub proof fn lemma_add_new_prefix(v: Seq<Seq<char>>, toks: Seq<Seq<char>>)
    ensures
        add_new(v, toks).len() >= v.len(),
        add_new(v, toks).subrange(0, v.len() as int) == v,
        toks.len() > 0 ==> add_new(v, toks).len() > 0,
    decreases toks.len(),
{
    if toks.len() > 0 {
        lemma_add_new_prefix(v, toks.drop_last());
        let w = add_new(v, toks.drop_last());
        if !w.contains(toks.last()) {
            assert(w.push(toks.last()).subrange(0, v.len() as int) =~= w.subrange(0, v.len() as int));
        }
    }
}

/// The initial vocabulary keeps the special and requested tokens in front.
proof fn lemma_vocab_with_chars_prefix(v: Seq<Seq<char>>, cs: Seq<char>)
    ensures
        vocab_with_chars(v, cs).len() > 0,
        vocab_with_chars(v, cs).len() >= v.len(),
        vocab_with_chars(v, cs).subrange(0, v.len() as int) == v,
{
    let w1 = add_new(v, singles(cs));
    let w2 = add_new(w1, singles(crate::bpe::init_vocab::common_chars()));
    lemma_add_new_prefix(v, singles(cs));
    lemma_add_new_prefix(w1, singles(crate::bpe::init_vocab::common_chars()));
    lemma_add_new_prefix(w2, singles(digit_chars()));
    assert(singles(digit_chars()).len() > 0) by {
        reveal_with_fuel(singles, 2);
    }
    assert(w2.subrange(0, v.len() as int) =~= w1.subrange(0, w1.len() as int).subrange(0, v.len() as int));
    assert(vocab_with_chars(v, cs).subrange(0, v.len() as int) =~= vocab_with_chars(v, cs).subrange(0, w2.len() as int).subrange(0, v.len() as int));
}


/// What a replacement pass keeps: ids below `bound`, counts bounded by the occurrences and
/// free of special tokens; and it shortens the sequence when the pair occurs from `i` on.
proof fn lemma_merge_pass_invariant(s: Seq<u32>, c: Map<(u32, u32), usize>, i: int, a: u32, b: u32, n: u32, sp: u32, bound: int)
    requires
        counts_unspecial(c, sp),
        sp <= n,
        0 <= i,
        n < bound,
        all_below(s, bound),
        counts_bounded(s, c),
        s.len() <= usize::MAX,
        c.dom().finite(),
    ensures
        counts_unspecial(merge_pass(s, c, i, a, b, n, sp).1, sp),
        merge_pass(s, c, i, a, b, n, sp).1.dom().finite(),
        all_below(merge_pass(s, c, i, a, b, n, sp).0, bound),
        counts_bounded(merge_pass(s, c, i, a, b, n, sp).0, merge_pass(s, c, i, a, b, n, sp).1),
        merge_pass(s, c, i, a, b, n, sp).0.len() <= s.len(),
        (exists|j: int| i <= j && j + 1 < s.len() && #[trigger] s[j] == a && s[j + 1] == b)
            ==> merge_pass(s, c, i, a, b, n, sp).0.len() < s.len(),
    decreases s.len() - i,
{
    if i + 1 < s.len() {
        if s[i] == a && s[i + 1] == b {
            lemma_merge_at_invariant(s, c, i, a, b, n, sp, bound);
            let r = merge_at(s, c, i, a, b, n, sp);
            lemma_merge_pass_invariant(r.0, r.1, i, a, b, n, sp, bound);
        } else {
            lemma_merge_pass_invariant(s, c, i + 1, a, b, n, sp, bound);
            if exists|j: int| i <= j && j + 1 < s.len() && #[trigger] s[j] == a && s[j + 1] == b {
                let j = choose|j: int| i <= j && j + 1 < s.len() && #[trigger] s[j] == a && s[j + 1] == b;
                assert(j != i);
                assert(i + 1 <= j && j + 1 < s.len() && s[j] == a && s[j + 1] == b);
            }
        }
    } else {
        if exists|j: int| i <= j && j + 1 < s.len() && #[trigger] s[j] == a && s[j + 1] == b {
            let j = choose|j: int| i <= j && j + 1 < s.len() && #[trigger] s[j] == a && s[j + 1] == b;
            assert(false);
        }
    }
}

/// Replaces every occurrence of `(a, b)` in `seq`, left to right, by `n`, keeping the counts
/// of the pairs without special tokens (ids below `special`).
fn merge_pair(seq: &mut Vec<u32>, counts: &mut PairCounts, a: u32, b: u32, n: u32, special: u32, bound: Ghost<int>)
    requires
        n < bound@,
        special <= n,
        all_below(old(seq)@, bound@),
        counts_bounded(old(seq)@, old(counts)@),
        counts_unspecial(old(counts)@, special),
    ensures
        (final(seq)@, final(counts)@) == merge_pass(old(seq)@, old(counts)@, 0, a, b, n, special),
        all_below(final(seq)@, bound@),
        counts_bounded(final(seq)@, final(counts)@),
        counts_unspecial(final(counts)@, special),
{
    let mut i: usize = 0;
    while seq.len() > 0 && i < seq.len() - 1
        invariant
            merge_pass(seq@, counts@, i as int, a, b, n, special) == merge_pass(old(seq)@, old(counts)@, 0, a, b, n, special),
            n < bound@,
            special <= n,
            all_below(seq@, bound@),
            counts_bounded(seq@, counts@),
            counts_unspecial(counts@, special),
        decreases seq@.len() - i,
    {
        if seq[i] == a && seq[i + 1] == b {
            let ghost s = seq@;
            let ghost c = counts@;
            proof {
                counts.lemma_finite();
                lemma_merge_at_invariant(s, c, i as int, a, b, n, special, bound@);
            }
            seq.set(i, n);
            seq.remove(i + 1);
            if i > 0 {
                let left = seq[i - 1];
                assert(left == s[i - 1]);
                if left >= special {
                    counts.decrement((left, a));
                    counts.increment((left, n));
                }
            }
            if i + 1 < seq.len() {
                let right = seq[i + 1];
                assert(right == s[i + 2]);
                if right >= special {
                    counts.decrement((b, right));
                    counts.increment((n, right));
                }
            }
            counts.decrement((a, b));
            assert(seq@ == merge_at(s, c, i as int, a, b, n, special).0);
            assert(counts@ == merge_at(s, c, i as int, a, b, n, special).1);
        } else {
            i = i + 1;
        }
    }
}

/// `v0` is the vocabulary that initialisation builds on `base` (the special and requested
/// tokens) for the samples `ss`: `base` alone when there are none, otherwise `base` with the
/// samples' characters in increasing order, then the common punctuation and the digits.
pub open spec fn initial_vocab(v0: Seq<Seq<char>>, base: Seq<Seq<char>>, ss: Seq<Sample>) -> bool {
    if ss.len() == 0 {
        v0 == base
    } else {
        exists|cs: Seq<char>|
            strictly_sorted(cs) && cs.to_set() == samples_chars(ss) && v0 == #[trigger] vocab_with_chars(base, cs)
    }
}

/// The initial token sequence of the samples over the vocabulary `v0`.
pub open spec fn initial_sequence(v0: Seq<Seq<char>>, special: u32, ss: Seq<Sample>) -> Seq<u32> {
    samples_ids(v0, special_prefix(v0, special), ss)
}

/// What training reaches from the vocabulary `v0`, with `special` special tokens: training
/// run on the samples' initial sequence and its counted pairs, with no merge yet.
pub open spec fn training_result(v0: Seq<Seq<char>>, special: u32, ss: Seq<Sample>, min: usize) -> (Seq<Seq<char>>, Seq<(Seq<char>, Seq<char>)>) {
    let s0 = initial_sequence(v0, special, ss);
    train_run(v0, seq![], s0, counted_pairs(s0, special), min, special)
}

/// What one round of training has to show about the joined token: it stands in the
/// vocabulary after the special tokens, and so do both parts.
pub open spec fn merge_in_vocab(v: Seq<Seq<char>>, sp: u32, m: (Seq<char>, Seq<char>)) -> bool {
    let tail = v.subrange(sp as int, v.len() as int);
    &&& tail.contains(m.0 + m.1)
    &&& tail.contains(m.0)
    &&& tail.contains(m.1)
}

/// The joined text of each merge.
pub open spec fn merge_results(m: Seq<(Seq<char>, Seq<char>)>) -> Seq<Seq<char>> {
    m.map_values(|x: (Seq<char>, Seq<char>)| x.0 + x.1)
}

/// `x` is a prefix of `y`.
pub open spec fn is_prefix<A>(x: Seq<A>, y: Seq<A>) -> bool {
    x.len() <= y.len() && y.subrange(0, x.len() as int) == x
}

/// Training only appends and keeps texts unique: the vocabulary and merges it starts from stay
/// in front, no text is in the vocabulary twice, each recorded merge joins two tokens after
/// the `sp` special tokens into a token after them, and each new token is the joined text of
/// some recorded merge.
pub proof fn lemma_train_run_shape(
    vocab: Seq<Seq<char>>,
    merges: Seq<(Seq<char>, Seq<char>)>,
    s: Seq<u32>,
    c: Map<(u32, u32), usize>,
    min: usize,
    sp: u32,
)
    requires
        sp <= vocab.len(),
        vocab.no_duplicates(),
        counts_unspecial(c, sp),
        all_below(s, vocab.len() as int),
        counts_bounded(s, c),
        s.len() <= usize::MAX,
        c.dom().finite(),
    ensures
        ({
            let r = train_run(vocab, merges, s, c, min, sp);
            &&& is_prefix(vocab, r.0)
            &&& is_prefix(merges, r.1)
            &&& r.0.no_duplicates()
            &&& r.0.len() - vocab.len() <= r.1.len() - merges.len()
            &&& forall|k: int| merges.len() <= k < r.1.len() ==> merge_in_vocab(r.0, sp, #[trigger] r.1[k])
            &&& forall|j: int| vocab.len() <= j < r.0.len() ==> merge_results(r.1).contains(#[trigger] r.0[j])
        }),
    decreases 0x1_0000_0000 - vocab.len(), s.len(),
{
    let r = train_run(vocab, merges, s, c, min, sp);
    let stop = vocab.len() >= 0x1_0000_0000 || c == Map::<(u32, u32), usize>::empty()
        || max_entry_of(c).0 < min;
    if !stop {
        let t = max_entry_of(c);
        assert(is_max_entry(c, t)) by {
            if c.dom().len() == 0 {
                assert(c.dom() =~= Set::<(u32, u32)>::empty());
                assert(c =~= Map::<(u32, u32), usize>::empty());
            }
            crate::bpe::pair_counts::lemma_max_entry_exists(c);
        }
        let a = t.1;
        let b = t.2;
        lemma_window_count_witness(s, (a, b));
        let j = choose|j: int| 0 <= j && j + 1 < s.len() && #[trigger] s[j] == a && s[j + 1] == b;
        assert(s[j] == a && s[j + 1] == b);
        assert(a >= sp && b >= sp);
        let ta = vocab[a as int];
        let tb = vocab[b as int];
        let m1 = merges.push((ta, tb));
        assert(m1.subrange(0, merges.len() as int) =~= merges);
        assert(vocab.push(ta + tb).subrange(0, vocab.len() as int) =~= vocab);
        let tail = vocab.subrange(sp as int, vocab.len() as int);
        assert(tail[a - sp] == ta);
        assert(tail[b - sp] == tb);
        lemma_token_index(vocab, ta + tb);
        match token_index(vocab, ta + tb) {
            None => {
                let n = vocab.len() as u32;
                let v1 = vocab.push(ta + tb);
                lemma_merge_pass_invariant(s, c, 0, a, b, n, sp, v1.len() as int);
                let rp = merge_pass(s, c, 0, a, b, n, sp);
                assert(v1.no_duplicates()) by {
                    assert forall|x: int, y: int| 0 <= x < y < v1.len() implies v1[x] != v1[y] by {
                        if y == vocab.len() {
                            assert(vocab.contains(vocab[x]));
                        }
                    }
                }
                lemma_train_run_shape(v1, m1, rp.0, rp.1, min, sp);
                assert(r == train_run(v1, m1, rp.0, rp.1, min, sp));
                assert(r.0.subrange(0, vocab.len() as int) =~= r.0.subrange(0, v1.len() as int).subrange(0, vocab.len() as int));
                assert(r.1.subrange(0, merges.len() as int) =~= r.1.subrange(0, m1.len() as int).subrange(0, merges.len() as int));
                let rtail = r.0.subrange(sp as int, r.0.len() as int);
                assert(r.0[vocab.len() as int] == ta + tb) by {
                    assert(r.0.subrange(0, v1.len() as int)[vocab.len() as int] == v1[vocab.len() as int]);
                }
                assert(r.0[a as int] == ta && r.0[b as int] == tb) by {
                    assert(r.0.subrange(0, v1.len() as int)[a as int] == v1[a as int]);
                    assert(r.0.subrange(0, v1.len() as int)[b as int] == v1[b as int]);
                }
                assert(merge_in_vocab(r.0, sp, (ta, tb))) by {
                    assert(rtail[vocab.len() - sp] == ta + tb);
                    assert(rtail[a - sp] == ta);
                    assert(rtail[b - sp] == tb);
                }
                assert(r.1[merges.len() as int] == (ta, tb)) by {
                    assert(r.1.subrange(0, m1.len() as int)[merges.len() as int] == m1[merges.len() as int]);
                }
                assert forall|jj: int| vocab.len() <= jj < r.0.len() implies merge_results(r.1).contains(#[trigger] r.0[jj]) by {
                    if jj == vocab.len() {
                        assert(merge_results(r.1)[merges.len() as int] == r.0[jj]);
                    }
                }
            },
            Some(k) => {
                let rp = merge_pass(s, c, 0, a, b, k as u32, sp);
                if k >= sp {
                    lemma_merge_pass_invariant(s, c, 0, a, b, k as u32, sp, vocab.len() as int);
                    assert(rp.0.len() < s.len());
                    lemma_train_run_shape(vocab, m1, rp.0, rp.1, min, sp);
                    assert(r == train_run(vocab, m1, rp.0, rp.1, min, sp));
                    assert(r.1.subrange(0, merges.len() as int) =~= r.1.subrange(0, m1.len() as int).subrange(0, merges.len() as int));
                    let rtail = r.0.subrange(sp as int, r.0.len() as int);
                    assert(r.0[k as int] == ta + tb && r.0[a as int] == ta && r.0[b as int] == tb) by {
                        assert(r.0.subrange(0, vocab.len() as int)[k as int] == vocab[k as int]);
                        assert(r.0.subrange(0, vocab.len() as int)[a as int] == vocab[a as int]);
                        assert(r.0.subrange(0, vocab.len() as int)[b as int] == vocab[b as int]);
                    }
                    assert(merge_in_vocab(r.0, sp, (ta, tb))) by {
                        assert(rtail[k - sp] == ta + tb);
                        assert(rtail[a - sp] == ta);
                        assert(rtail[b - sp] == tb);
                    }
                    assert(r.1[merges.len() as int] == (ta, tb)) by {
                        assert(r.1.subrange(0, m1.len() as int)[merges.len() as int] == m1[merges.len() as int]);
                    }
                }
            },
        }
    }
    if r == (vocab, merges) {
        assert(r.0.subrange(0, vocab.len() as int) =~= vocab);
        assert(r.1.subrange(0, merges.len() as int) =~= merges);
    }
}

/// Neither part of merge `x` is one of the first `sc` tokens of `v` (the special tokens).
pub open spec fn no_special_part(v: Seq<Seq<char>>, sc: u32, x: (Seq<char>, Seq<char>)) -> bool {
    !v.subrange(0, sc as int).contains(x.0) && !v.subrange(0, sc as int).contains(x.1)
}

/// The facts every trained tokenizer shows over its vocabulary `v` (initialised as `v0`, with
/// `sc` special tokens) and merges `m`: the initial vocabulary stays in front; no text is in
/// the vocabulary twice, so each token's id is its position; each merge joins two tokens after
/// the special tokens (neither is a special token) into a token after them; and each token
/// beyond the initial ones is the joined text of a merge.
pub open spec fn trained_shape(v: Seq<Seq<char>>, v0: Seq<Seq<char>>, sc: u32, m: Seq<(Seq<char>, Seq<char>)>) -> bool {
    &&& is_prefix(v0, v)
    &&& v.no_duplicates()
    &&& forall|i: int| 0 <= i < v.len() ==> token_index(v, #[trigger] v[i]) == Some(i as nat)
    &&& v.len() - v0.len() <= m.len()
    &&& forall|k: int| 0 <= k < m.len() ==> merge_in_vocab(v, sc, #[trigger] m[k])
    &&& forall|k: int| 0 <= k < m.len() ==> no_special_part(v, sc, #[trigger] m[k])
    &&& forall|j: int| v0.len() <= j < v.len() ==> merge_results(m).contains(#[trigger] v[j])
}

/// Each text of a vocabulary without repeats is found at its own position.
proof fn lemma_unique_token_index(v: Seq<Seq<char>>)
    requires
        v.no_duplicates(),
    ensures
        forall|i: int| 0 <= i < v.len() ==> token_index(v, #[trigger] v[i]) == Some(i as nat),
{
    assert forall|i: int| 0 <= i < v.len() implies token_index(v, #[trigger] v[i]) == Some(i as nat) by {
        lemma_token_index(v, v[i]);
        assert(v.contains(v[i]));
    }
}

/// A text found after the special tokens of a vocabulary without repeats is none of them.
proof fn lemma_not_special(v: Seq<Seq<char>>, sc: u32, t: Seq<char>)
    requires
        v.no_duplicates(),
        sc <= v.len(),
        v.subrange(sc as int, v.len() as int).contains(t),
    ensures
        !v.subrange(0, sc as int).contains(t),
{
    let x = choose|x: int| 0 <= x < v.len() - sc && v.subrange(sc as int, v.len() as int)[x] == t;
    if v.subrange(0, sc as int).contains(t) {
        let y = choose|y: int| 0 <= y < sc && v.subrange(0, sc as int)[y] == t;
        assert(v[y] == v[x + sc]);
    }
}

/// Adding tokens that are not yet there keeps a vocabulary free of repeats.
proof fn lemma_add_new_unique(v: Seq<Seq<char>>, toks: Seq<Seq<char>>)
    requires
        v.no_duplicates(),
    ensures
        add_new(v, toks).no_duplicates(),
    decreases toks.len(),
{
    if toks.len() > 0 {
        lemma_add_new_unique(v, toks.drop_last());
        let w = add_new(v, toks.drop_last());
        if !w.contains(toks.last()) {
            assert forall|x: int, y: int| 0 <= x < y < w.push(toks.last()).len() implies w.push(toks.last())[x]
                != w.push(toks.last())[y] by {
                if y == w.len() {
                    assert(w.contains(w[x]));
                }
            }
        }
    }
}

/// What training shows of its result, in the terms of `trained_shape`.
proof fn lemma_trained_shape(tv: Seq<Seq<char>>, v0: Seq<Seq<char>>, sc: u32, mv: Seq<(Seq<char>, Seq<char>)>)
    requires
        sc <= v0.len(),
        is_prefix(v0, tv),
        tv.no_duplicates(),
        tv.len() - v0.len() <= mv.len(),
        forall|k: int| 0 <= k < mv.len() ==> merge_in_vocab(tv, sc, #[trigger] mv[k]),
        forall|j: int| v0.len() <= j < tv.len() ==> merge_results(mv).contains(#[trigger] tv[j]),
    ensures
        trained_shape(tv, v0, sc, mv),
{
    lemma_unique_token_index(tv);
    assert forall|k: int| 0 <= k < mv.len() implies no_special_part(tv, sc, #[trigger] mv[k]) by {
        lemma_not_special(tv, sc, mv[k].0);
        lemma_not_special(tv, sc, mv[k].1);
    }
}

/// Trains a tokenizer on `samples`: builds the initial vocabulary (the special tokens, the
/// requested tokens, the samples' characters), turns the samples into the initial sequence,
/// then, while the most frequent pair of adjacent non-special tokens (ties: the greater ids)
/// occurs at least `min_merge_frequency` times and ids remain, records the merge and replaces
/// the pair throughout the sequence by the id of the joined text: a new token when the
/// vocabulary lacks that text, its existing id otherwise. Special tokens are never merged,
/// and no text is in the vocabulary twice.
pub fn bpe_train(
    samples: &[Sample],
    special_tokens: &[String],
    requested_tokens: &[String],
    min_merge_frequency: usize,
) -> (r: Result<BPETokenizer, String>)
    ensures
        r matches Ok(t) && ({
            let v1 = add_new(seq![], views(special_tokens@));
            let v2 = add_new(v1, views(requested_tokens@));
            &&& t.special_token_count == v1.len() as u32
            &&& t.initial_token_count == v2.len() as u32
            &&& exists|v0: Seq<Seq<char>>| #[trigger] initial_vocab(v0, v2, samples@)
                && (t.vocab_view(), merges_view(t.merges@)) == training_result(
                v0,
                t.special_token_count,
                samples@,
                min_merge_frequency,
            ) && trained_shape(t.vocab_view(), v0, t.special_token_count, merges_view(t.merges@))
        }),
{
    let mut tokenizer = BPETokenizer {
        vocab: Vec::new(),
        merges: Vec::new(),
        special_token_count: 0,
        initial_token_count: 0,
    };
    bpe_init_vocab(&mut tokenizer, samples, special_tokens, requested_tokens);
    let ghost v1 = add_new(seq![], views(special_tokens@));
    let ghost v2 = add_new(v1, views(requested_tokens@));
    let ghost v0 = tokenizer.vocab_view();
    let ghost sc = tokenizer.special_token_count;
    proof {
        lemma_add_new_prefix(seq![], views(special_tokens@));
        lemma_add_new_prefix(v1, views(requested_tokens@));
        lemma_add_new_unique(seq![], views(special_tokens@));
        lemma_add_new_unique(v1, views(requested_tokens@));
        if samples@.len() > 0 {
            let cs = choose|cs: Seq<char>|
                strictly_sorted(cs) && cs.to_set() == samples_chars(samples@)
                    && tokenizer.vocab_view() == #[trigger] vocab_with_chars(v2, cs);
            lemma_vocab_with_chars_prefix(v2, cs);
            let w1 = add_new(v2, singles(cs));
            let w2 = add_new(w1, singles(crate::bpe::init_vocab::common_chars()));
            lemma_add_new_unique(v2, singles(cs));
            lemma_add_new_unique(w1, singles(crate::bpe::init_vocab::common_chars()));
            lemma_add_new_unique(w2, singles(digit_chars()));
            assert(initial_vocab(v0, v2, samples@));
        }
        assert(v0.no_duplicates());
        assert((v1.len() as u32) as int <= v1.len()) by (nonlinear_arith)
            requires 0 <= v1.len();
        assert(tokenizer.merges@ =~= Seq::<(String, String)>::empty());
    }
    let mut token_sequence = match bpe_train_tokenize(&tokenizer, samples) {
        Ok(s) => s,
        Err(e) => {
            return Err(e);
        },
    };
    let ghost s0 = token_sequence@;
    proof {
        if samples@.len() > 0 {
            lemma_samples_ids_below(v0, special_prefix(v0, sc), samples@);
        } else {
            assert(s0 =~= Seq::<u32>::empty());
        }
    }
    let mut pair_counts = bpe_create_pair_counts_map(&tokenizer, &token_sequence);
    proof {
        pair_counts.lemma_finite();
        assert(token_sequence.len() == s0.len());
        assert forall|p: (u32, u32)| #[trigger] pair_counts@.contains_key(p) implies 1 <= pair_counts@[p]
            && count_of(pair_counts@, p) <= window_count(s0, p) by {
            lemma_window_count_bound(s0, p);
        }
        assert(merges_view(tokenizer.merges@) =~= seq![]);
        assert(sc <= v0.len());
        lemma_train_run_shape(v0, seq![], s0, pair_counts@, min_merge_frequency, sc);
    }
    while tokenizer.vocab.len() <= 0xffff_ffff
        invariant
            all_below(token_sequence@, tokenizer.vocab@.len() as int),
            counts_bounded(token_sequence@, pair_counts@),
            counts_unspecial(pair_counts@, sc),
            sc <= tokenizer.vocab@.len(),
            tokenizer.vocab_view().no_duplicates(),
            tokenizer.special_token_count == sc,
            tokenizer.initial_token_count == v2.len() as u32,
            train_run(tokenizer.vocab_view(), merges_view(tokenizer.merges@), token_sequence@, pair_counts@, min_merge_frequency, sc)
                == training_result(v0, sc, samples@, min_merge_frequency),
        ensures
            train_run(tokenizer.vocab_view(), merges_view(tokenizer.merges@), token_sequence@, pair_counts@, min_merge_frequency, sc)
                == (tokenizer.vocab_view(), merges_view(tokenizer.merges@)),
        decreases 0x1_0000_0000 - tokenizer.vocab@.len(), token_sequence@.len(),
    {
        let ghost vv = tokenizer.vocab_view();
        let ghost mm = merges_view(tokenizer.merges@);
        let ghost ss = token_sequence@;
        let ghost cc = pair_counts@;
        let (count, a, b) = match pair_counts.max_entry() {
            Some(t) => t,
            None => {
                break;
            },
        };
        if count < min_merge_frequency {
            break;
        }
        proof {
            lemma_window_count_witness(token_sequence@, (a, b));
            pair_counts.lemma_finite();
        }
        let token_a = tokenizer.vocab[a as usize].clone();
        let token_b = tokenizer.vocab[b as usize].clone();
        let new_token = concat_str(token_a.as_str(), token_b.as_str());
        match find_token(&tokenizer.vocab, new_token.as_str()) {
            None => {
                let new_id = tokenizer.vocab.len() as u32;
                tokenizer.vocab.push(new_token);
                tokenizer.merges.push((token_a, token_b));
                proof {
                    assert(tokenizer.vocab_view() =~= vv.push(vv[a as int] + vv[b as int]));
                    assert(merges_view(tokenizer.merges@) =~= mm.push((vv[a as int], vv[b as int])));
                    lemma_token_index(vv, vv[a as int] + vv[b as int]);
                    assert forall|x: int, y: int| 0 <= x < y < tokenizer.vocab_view().len() implies tokenizer.vocab_view()[x]
                        != tokenizer.vocab_view()[y] by {
                        if y == vv.len() {
                            assert(vv.contains(vv[x]));
                        }
                    }
                }
                merge_pair(&mut token_sequence, &mut pair_counts, a, b, new_id, tokenizer.special_token_count, Ghost(tokenizer.vocab@.len() as int));
            },
            Some(k) => {
                proof {
                    lemma_token_index(vv, vv[a as int] + vv[b as int]);
                }
                if k < tokenizer.special_token_count as usize {
                    break;
                }
                tokenizer.merges.push((token_a, token_b));
                proof {
                    assert(merges_view(tokenizer.merges@) =~= mm.push((vv[a as int], vv[b as int])));
                    assert(token_sequence.len() == ss.len());
                    lemma_merge_pass_invariant(ss, cc, 0, a, b, k as u32, sc, vv.len() as int);
                }
                merge_pair(&mut token_sequence, &mut pair_counts, a, b, k as u32, tokenizer.special_token_count, Ghost(tokenizer.vocab@.len() as int));
            },
        }
    }
    proof {
        assert(initial_vocab(v0, v2, samples@));
        lemma_trained_shape(tokenizer.vocab_view(), v0, sc, merges_view(tokenizer.merges@));
        assert(tokenizer.special_token_count == v1.len() as u32);
    }
    Ok(tokenizer)
}

/// Training stops at once when no pair of adjacent non-special tokens occurs in the samples'
/// initial sequence as often as the minimum frequency: no merge is made and the vocabulary
/// stays as initialised.
pub proof fn lemma_no_merge_below_threshold(v0: Seq<Seq<char>>, special: u32, ss: Seq<Sample>, min: usize)
    requires
        forall|p: (u32, u32)| #[trigger] counted_pairs(initial_sequence(v0, special, ss), special).contains_key(p)
            ==> counted_pairs(initial_sequence(v0, special, ss), special)[p] < min,
    ensures
        training_result(v0, special, ss, min) == (v0, Seq::<(Seq<char>, Seq<char>)>::empty()),
{
    let c = counted_pairs(initial_sequence(v0, special, ss), special);
    crate::bpe::pair_count_map::lemma_counted_pairs_finite(initial_sequence(v0, special, ss), special);
    if v0.len() < 0x1_0000_0000 && c != Map::<(u32, u32), usize>::empty() {
        if c.dom().len() == 0 {
            assert(c.dom() =~= Set::<(u32, u32)>::empty());
            assert(c =~= Map::<(u32, u32), usize>::empty());
        }
        crate::bpe::pair_counts::lemma_max_entry_exists(c);
        let t = max_entry_of(c);
        assert(c.contains_key((t.1, t.2)));
    }
}

/// Training makes no merge when the minimum frequency exceeds the length of the initial
/// sequence (no pair can occur that often).
pub proof fn lemma_no_merge_above_length(v0: Seq<Seq<char>>, special: u32, ss: Seq<Sample>, min: usize)
    requires
        min > initial_sequence(v0, special, ss).len(),
    ensures
        training_result(v0, special, ss, min) == (v0, Seq::<(Seq<char>, Seq<char>)>::empty()),
{
    let s0 = initial_sequence(v0, special, ss);
    assert forall|p: (u32, u32)| #[trigger] counted_pairs(s0, special).contains_key(p)
        implies counted_pairs(s0, special)[p] < min by {
        lemma_window_count_bound(s0, p);
    }
    lemma_no_merge_below_threshold(v0, special, ss, min);
}

/// Two strictly increasing sequences of the same characters are equal.
proof fn lemma_sorted_unique(a: Seq<char>, b: Seq<char>)
    requires
        strictly_sorted(a),
        strictly_sorted(b),
        a.to_set() == b.to_set(),
    ensures
        a == b,
    decreases a.len(),
{
    if a.len() == 0 {
        if b.len() > 0 {
            assert(b.to_set().contains(b[0]));
        }
        assert(a =~= b);
    } else {
        assert(a.to_set().contains(a[0]));
        assert(b.len() > 0);
        assert(b.to_set().contains(b[0]));
        let ja = choose|j: int| 0 <= j < b.len() && b[j] == a[0];
        let jb = choose|j: int| 0 <= j < a.len() && a[j] == b[0];
        assert((a[0] as u32) <= (b[0] as u32)) by {
            if jb > 0 {
                assert((a[0] as u32) < (a[jb] as u32));
            }
        }
        assert((b[0] as u32) <= (a[0] as u32)) by {
            if ja > 0 {
                assert((b[0] as u32) < (b[ja] as u32));
            }
        }
        crate::text::lemma_char_u32_injective(a[0], b[0]);
        let a1 = a.drop_first();
        let b1 = b.drop_first();
        assert forall|x: char| a1.to_set().contains(x) <==> b1.to_set().contains(x) by {
            if a1.to_set().contains(x) {
                let i = choose|i: int| 0 <= i < a1.len() && a1[i] == x;
                assert(a[i + 1] == x);
                assert((a[0] as u32) < (x as u32));
                assert(b.to_set().contains(x));
                let k = choose|k: int| 0 <= k < b.len() && b[k] == x;
                if k == 0 {
                    assert(x == b[0]);
                }
                assert(k > 0);
                assert(b1[k - 1] == x);
            }
            if b1.to_set().contains(x) {
                let i = choose|i: int| 0 <= i < b1.len() && b1[i] == x;
                assert(b[i + 1] == x);
                assert((b[0] as u32) < (x as u32));
                assert(a.to_set().contains(x));
                let k = choose|k: int| 0 <= k < a.len() && a[k] == x;
                if k == 0 {
                    assert(x == a[0]);
                }
                assert(k > 0);
                assert(a1[k - 1] == x);
            }
        }
        assert(a1.to_set() =~= b1.to_set());
        lemma_sorted_unique(a1, b1);
        assert(a =~= seq![a[0]] + a1);
        assert(b =~= seq![b[0]] + b1);
    }
}

/// The initial vocabulary is determined by its base and the samples: any two vocabularies
/// that initialisation could build are equal, so the vocabulary that training keeps in front
/// is the one `bpe_init_vocab` builds.
pub proof fn lemma_initial_vocab_unique(v0: Seq<Seq<char>>, v1: Seq<Seq<char>>, base: Seq<Seq<char>>, ss: Seq<Sample>)
    requires
        initial_vocab(v0, base, ss),
        initial_vocab(v1, base, ss),
    ensures
        v0 == v1,
{
    if ss.len() > 0 {
        let c0 = choose|cs: Seq<char>|
            strictly_sorted(cs) && cs.to_set() == samples_chars(ss) && v0 == #[trigger] vocab_with_chars(base, cs);
        let c1 = choose|cs: Seq<char>|
            strictly_sorted(cs) && cs.to_set() == samples_chars(ss) && v1 == #[trigger] vocab_with_chars(base, cs);
        lemma_sorted_unique(c0, c1);
    }
}

/// What taking one away does to a count.
proof fn lemma_count_dec(c: Map<(u32, u32), usize>, q: (u32, u32), p: (u32, u32))
    ensures
        count_of(count_dec(c, q), p) == if p == q && count_of(c, p) > 0 {
            (count_of(c, p) - 1) as nat
        } else {
            count_of(c, p)
        },
        count_dec(c, q).contains_key(p) ==> c.contains_key(p),
        count_dec(c, q).contains_key(p) && c[p] >= 1 ==> count_dec(c, q)[p] >= 1,
{
}

/// What adding one does to a count that has room for it.
proof fn lemma_count_inc(c: Map<(u32, u32), usize>, q: (u32, u32), p: (u32, u32), bound: nat)
    requires
        count_of(c, q) < bound,
        bound <= usize::MAX,
    ensures
        count_of(count_inc(c, q), p) == count_of(c, p) + if p == q { 1nat } else { 0nat },
        count_inc(c, q).contains_key(p) ==> p == q || c.contains_key(p),
        p == q ==> count_inc(c, q)[p] >= 1,
        p != q && c.contains_key(p) ==> count_inc(c, q)[p] == c[p],
{
}

} // verus!
