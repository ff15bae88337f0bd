//! What the training token writer gives back: text made of plain characters and special tags
//! is spelled again by the tokens its ids name.

use vstd::prelude::*;
use vstd::utf8::{encode_utf8, is_ascii_chars, is_ascii_chars_encode_utf8, encode_utf8_decode_utf8, encode_utf8_valid_utf8};
use crate::bpe::tokenizer::{id_or_unknown, special_prefix};
use crate::bpe::special_tokens::{special_tokens_spec, lemma_written_tags_are_special};
use crate::bpe::train_tokenize::{tag_id, optional_text_ids, sample_ids, samples_ids};
use crate::sample::{Sample, SamplePromptEnum, SampleAiEnum};
use crate::tag::render::simple_tag;
use crate::tag::sections::{
    name_text, name_source, ai_item_text, ai_item_opening, ai_item_body, ai_item_closing, ai_content_text,
    prompt_item_text, prompt_content_text,
};
use crate::sample::{SampleLanguage, SampleIndent};
use crate::sample::language::{lang_name, indent_value};
use crate::tag::render::{digit_char, decimal, open_tag, close_tag, code_open_tag, line_break_tag};
use crate::bpe::init_vocab::singles;
use crate::bpe::token_writer::{WriterState, char_id, chars_ids, run, fresh_state, section_ids, lemma_run_concat, lemma_run_ids_prefix, flush_ids, lossy_text};
use crate::bpe::infer::{
    spelled, joined, lemma_joined_singles, lemma_spelled_words, lemma_spelled_concat,
    lemma_id_names_token, lemma_joined_push, lemma_joined_small, all_in,
};

verus! {

/// `t` is shaped as a tag: `<`, then neither `<` nor `>`, then `>`.
pub open spec fn tag_shaped(t: Seq<char>) -> bool {
    &&& t.len() >= 2
    &&& t[0] == '<'
    &&& t.last() == '>'
    &&& forall|j: int| 1 <= j < t.len() - 1 ==> #[trigger] t[j] != '<' && t[j] != '>'
}

/// The bytes the writer collects for the characters of a tag.
pub open spec fn tag_bytes(cs: Seq<char>) -> Seq<u8> {
    cs.map_values(|c: char| c as u8)
}

/// A piece of text the writer gives back: plain text without `<` whose characters are tokens
/// of the vocabulary, or a tag that is a special token of the vocabulary.
pub open spec fn piece_ok(vocab: Seq<Seq<char>>, special: Seq<Seq<char>>, p: Seq<char>) -> bool {
    ||| !p.contains('<') && forall|j: int| 0 <= j < p.len() ==> vocab.contains(seq![#[trigger] p[j]])
    ||| tag_shaped(p) && is_ascii_chars(p) && special.contains(p) && vocab.contains(p)
}

/// The writer, started fresh on `cs`, ends with no tag open and emits ids that spell `cs`.
pub open spec fn comes_back(vocab: Seq<Seq<char>>, special: Seq<Seq<char>>, cs: Seq<char>) -> bool {
    let st = run(vocab, special, fresh_state(), cs);
    &&& !st.in_tag
    &&& st.buf == Seq::<u8>::empty()
    &&& spelled(vocab, st.ids) == cs
}

proof fn lemma_ascii_bytes(cs: Seq<char>)
    requires
        is_ascii_chars(cs),
    ensures
        encode_utf8(cs) == tag_bytes(cs),
{
    is_ascii_chars_encode_utf8(cs);
    assert(encode_utf8(cs) =~= tag_bytes(cs));
}

proof fn lemma_plain_run(vocab: Seq<Seq<char>>, special: Seq<Seq<char>>, ids: Seq<u32>, cs: Seq<char>)
    requires
        !cs.contains('<'),
    ensures
        run(vocab, special, WriterState { ids, in_tag: false, buf: seq![] }, cs) == (WriterState {
            ids: ids + chars_ids(vocab, cs),
            in_tag: false,
            buf: seq![],
        }),
    decreases cs.len(),
{
    if cs.len() == 0 {
        assert(ids + chars_ids(vocab, cs) =~= ids);
    } else {
        assert(!cs.drop_last().contains('<')) by {
            if cs.drop_last().contains('<') {
                let j = choose|j: int| 0 <= j < cs.drop_last().len() && cs.drop_last()[j] == '<';
                assert(cs[j] == '<');
            }
        }
        assert(cs.last() != '<') by {
            assert(cs[cs.len() - 1] == cs.last());
        }
        lemma_plain_run(vocab, special, ids, cs.drop_last());
        assert((ids + chars_ids(vocab, cs.drop_last())).push(char_id(vocab, cs.last())) =~= ids + chars_ids(vocab, cs));
    }
}

proof fn lemma_chars_ids_singles(vocab: Seq<Seq<char>>, cs: Seq<char>)
    ensures
        chars_ids(vocab, cs) == singles(cs).map_values(|w: Seq<char>| id_or_unknown(vocab, w)),
    decreases cs.len(),
{
    if cs.len() > 0 {
        lemma_chars_ids_singles(vocab, cs.drop_last());
        assert(chars_ids(vocab, cs) =~= singles(cs).map_values(|w: Seq<char>| id_or_unknown(vocab, w)));
    }
}

proof fn lemma_tag_prefix_run(vocab: Seq<Seq<char>>, special: Seq<Seq<char>>, t: Seq<char>, k: int)
    requires
        tag_shaped(t),
        1 <= k <= t.len() - 1,
    ensures
        run(vocab, special, fresh_state(), t.subrange(0, k)) == (WriterState {
            ids: seq![],
            in_tag: true,
            buf: tag_bytes(t.subrange(0, k)),
        }),
    decreases k,
{
    let pre = t.subrange(0, k);
    if k == 1 {
        assert(pre.drop_last() =~= Seq::<char>::empty());
        assert(run(vocab, special, fresh_state(), pre.drop_last()) == fresh_state());
        assert(pre.last() == '<');
        assert(flush_ids(vocab, special, seq![]) =~= Seq::<u32>::empty());
        assert(tag_bytes(pre) =~= seq!['<' as u8]);
        assert(Seq::<u32>::empty() + Seq::<u32>::empty() =~= Seq::<u32>::empty());
    } else {
        lemma_tag_prefix_run(vocab, special, t, k - 1);
        assert(pre.drop_last() =~= t.subrange(0, k - 1));
        assert(pre.last() == t[k - 1]);
        assert(t[k - 1] != '<' && t[k - 1] != '>');
        assert(tag_bytes(pre) =~= tag_bytes(t.subrange(0, k - 1)).push(t[k - 1] as u8));
    }
}

proof fn lemma_tag_comes_back(vocab: Seq<Seq<char>>, special: Seq<Seq<char>>, t: Seq<char>)
    requires
        tag_shaped(t),
        is_ascii_chars(t),
        special.contains(t),
        vocab.contains(t),
        vocab.len() <= 0x1_0000_0000,
    ensures
        comes_back(vocab, special, t),
        section_ids(vocab, special, t) == seq![id_or_unknown(vocab, t)],
{
    let n = t.len() as int;
    lemma_tag_prefix_run(vocab, special, t, n - 1);
    assert(t.drop_last() =~= t.subrange(0, n - 1));
    assert(tag_bytes(t.subrange(0, n - 1)).push(t.last() as u8) =~= tag_bytes(t));
    lemma_ascii_bytes(t);
    encode_utf8_valid_utf8(t);
    encode_utf8_decode_utf8(t);
    assert(lossy_text(tag_bytes(t)) == t);
    assert(flush_ids(vocab, special, tag_bytes(t)) == seq![id_or_unknown(vocab, t)]);
    assert(Seq::<u32>::empty() + seq![id_or_unknown(vocab, t)] =~= seq![id_or_unknown(vocab, t)]);
    lemma_id_names_token(vocab, t);
    let ids = seq![id_or_unknown(vocab, t)];
    assert(ids.map_values(|id: u32| vocab[id as int]) =~= seq![t]);
    lemma_joined_small(t, t);
}

proof fn lemma_plain_comes_back(vocab: Seq<Seq<char>>, special: Seq<Seq<char>>, cs: Seq<char>)
    requires
        !cs.contains('<'),
        forall|j: int| 0 <= j < cs.len() ==> vocab.contains(seq![#[trigger] cs[j]]),
        vocab.len() <= 0x1_0000_0000,
    ensures
        comes_back(vocab, special, cs),
{
    lemma_plain_run(vocab, special, seq![], cs);
    assert(fresh_state() == (WriterState { ids: seq![], in_tag: false, buf: seq![] }));
    assert(Seq::<u32>::empty() + chars_ids(vocab, cs) =~= chars_ids(vocab, cs));
    lemma_chars_ids_singles(vocab, cs);
    lemma_joined_singles(cs);
    assert(all_in(singles(cs), vocab)) by {
        assert forall|j: int| 0 <= j < singles(cs).len() implies vocab.contains(#[trigger] singles(cs)[j]) by {
            assert(singles(cs)[j] == seq![cs[j]]);
        }
    }
    lemma_spelled_words(vocab, singles(cs));
}

proof fn lemma_comes_back_concat(vocab: Seq<Seq<char>>, special: Seq<Seq<char>>, a: Seq<char>, b: Seq<char>)
    requires
        comes_back(vocab, special, a),
        comes_back(vocab, special, b),
    ensures
        comes_back(vocab, special, a + b),
{
    lemma_run_concat(vocab, special, fresh_state(), a, b);
    let sa = run(vocab, special, fresh_state(), a);
    assert(sa == (WriterState { ids: sa.ids, in_tag: false, buf: seq![] }));
    lemma_run_ids_prefix(vocab, special, sa.ids, b);
    lemma_spelled_concat(vocab, sa.ids, section_ids(vocab, special, b));
}

/// Text made of pieces, each plain text (no `<`, characters that are tokens of the
/// vocabulary) or a special tag (shaped as a tag, ASCII, a token of the vocabulary), is given
/// back: the writer ends with no tag open, and the tokens that its ids name spell the text.
pub proof fn lemma_section_comes_back(vocab: Seq<Seq<char>>, special: Seq<Seq<char>>, pieces: Seq<Seq<char>>)
    requires
        vocab.len() <= 0x1_0000_0000,
        forall|k: int| 0 <= k < pieces.len() ==> piece_ok(vocab, special, #[trigger] pieces[k]),
    ensures
        comes_back(vocab, special, joined(pieces)),
        spelled(vocab, section_ids(vocab, special, joined(pieces))) == joined(pieces),
    decreases pieces.len(),
{
    if pieces.len() == 0 {
        assert(spelled(vocab, Seq::<u32>::empty()) =~= Seq::<char>::empty());
    } else {
        lemma_section_comes_back(vocab, special, pieces.drop_last());
        let p = pieces.last();
        assert(piece_ok(vocab, special, pieces[pieces.len() - 1]));
        if !p.contains('<') && forall|j: int| 0 <= j < p.len() ==> vocab.contains(seq![#[trigger] p[j]]) {
            lemma_plain_comes_back(vocab, special, p);
        } else {
            lemma_tag_comes_back(vocab, special, p);
        }
        lemma_comes_back_concat(vocab, special, joined(pieces.drop_last()), p);
        lemma_joined_push(pieces.drop_last(), p);
        assert(pieces.drop_last().push(p) =~= pieces);
    }
}

/// `cs` can stand inside a tag: ASCII, with neither `<` nor `>`.
pub open spec fn inner_ok(cs: Seq<char>) -> bool {
    forall|j: int| 0 <= j < cs.len() ==> ('\0' <= #[trigger] cs[j] <= '\u{7f}') && cs[j] != '<' && cs[j] != '>'
}

/// `inner_ok`, checked one character after the other.
pub open spec fn inner_ok_rec(cs: Seq<char>) -> bool
    decreases cs.len(),
{
    cs.len() == 0 || (('\0' <= cs[0] <= '\u{7f}') && cs[0] != '<' && cs[0] != '>' && inner_ok_rec(cs.drop_first()))
}

proof fn lemma_inner_ok_rec(cs: Seq<char>)
    requires
        inner_ok_rec(cs),
    ensures
        inner_ok(cs),
    decreases cs.len(),
{
    if cs.len() > 0 {
        lemma_inner_ok_rec(cs.drop_first());
        assert forall|j: int| 0 <= j < cs.len() implies ('\0' <= #[trigger] cs[j] <= '\u{7f}') && cs[j] != '<' && cs[j] != '>' by {
            if j > 0 {
                assert(cs[j] == cs.drop_first()[j - 1]);
            }
        }
    }
}

proof fn lemma_inner_ok_concat(a: Seq<char>, b: Seq<char>)
    requires
        inner_ok(a),
        inner_ok(b),
    ensures
        inner_ok(a + b),
{
    assert forall|j: int| 0 <= j < (a + b).len() implies ('\0' <= #[trigger] (a + b)[j] <= '\u{7f}') && (a + b)[j] != '<'
        && (a + b)[j] != '>' by {
        if j >= a.len() {
            assert((a + b)[j] == b[j - a.len()]);
        } else {
            assert((a + b)[j] == a[j]);
        }
    }
}

/// `<`, an inside that can stand in a tag, `>` make an ASCII tag.
proof fn lemma_tag_of_inner(x: Seq<char>)
    requires
        inner_ok(x),
    ensures
        tag_shaped(seq!['<'] + x + seq!['>']),
        is_ascii_chars(seq!['<'] + x + seq!['>']),
{
    let t = seq!['<'] + x + seq!['>'];
    assert forall|j: int| 1 <= j < t.len() - 1 implies #[trigger] t[j] != '<' && t[j] != '>' by {
        assert(t[j] == x[j - 1]);
    }
    assert forall|j: int| 0 <= j < t.len() implies '\0' <= #[trigger] t[j] <= '\u{7f}' by {
        if 1 <= j < t.len() - 1 {
            assert(t[j] == x[j - 1]);
        }
    }
}

proof fn lemma_decimal_inner(n: nat)
    ensures
        inner_ok(decimal(n)),
    decreases n,
{
    if n < 10 {
        assert(decimal(n) == seq![digit_char(n as int)]);
    } else {
        lemma_decimal_inner(n / 10);
        let d = seq![digit_char((n % 10) as int)];
        lemma_inner_ok_concat(decimal(n / 10), d);
        assert(decimal(n / 10).push(digit_char((n % 10) as int)) =~= decimal(n / 10) + d);
    }
}

proof fn lemma_lang_inner(l: SampleLanguage)
    ensures
        inner_ok(lang_name(l)),
        inner_ok(seq!['/'] + lang_name(l)),
{
    reveal_with_fuel(inner_ok_rec, 6);
    assert(inner_ok_rec(lang_name(l)));
    lemma_inner_ok_rec(lang_name(l));
    assert(inner_ok_rec(seq!['/']));
    lemma_inner_ok_rec(seq!['/']);
    lemma_inner_ok_concat(seq!['/'], lang_name(l));
}

/// The tags of a name: `<name>` and `</name>`, ASCII and shaped as tags.
proof fn lemma_name_tags(n: Seq<char>)
    requires
        inner_ok(n),
    ensures
        tag_shaped(open_tag(n)) && is_ascii_chars(open_tag(n)),
        tag_shaped(close_tag(n)) && is_ascii_chars(close_tag(n)),
{
    lemma_tag_of_inner(n);
    assert(inner_ok(seq!['/'])) by {
        reveal_with_fuel(inner_ok_rec, 2);
        assert(inner_ok_rec(seq!['/']));
        lemma_inner_ok_rec(seq!['/']);
    }
    lemma_inner_ok_concat(seq!['/'], n);
    lemma_tag_of_inner(seq!['/'] + n);
    assert(close_tag(n) =~= seq!['<'] + (seq!['/'] + n) + seq!['>']);
}

/// The opening tags of code blocks are ASCII and shaped as tags.
proof fn lemma_code_open_shaped(l: SampleLanguage, inline: bool, indent: u8)
    ensures
        tag_shaped(code_open_tag(lang_name(l), inline, indent)) && is_ascii_chars(code_open_tag(lang_name(l), inline, indent)),
{
    let n = lang_name(l);
    lemma_lang_inner(l);
    lemma_name_tags(n);
    if inline {
        reveal_strlit(" inline=\"true\">");
        let x = seq![' ', 'i', 'n', 'l', 'i', 'n', 'e', '=', '"', 't', 'r', 'u', 'e', '"'];
        assert(inner_ok_rec(x)) by {
            reveal_with_fuel(inner_ok_rec, 15);
        }
        lemma_inner_ok_rec(x);
        lemma_inner_ok_concat(n, x);
        lemma_tag_of_inner(n + x);
        assert(code_open_tag(n, inline, indent) =~= seq!['<'] + (n + x) + seq!['>']);
    } else if indent > 0 {
        reveal_strlit(" indent=\"");
        reveal_strlit("\">");
        let x = seq![' ', 'i', 'n', 'd', 'e', 'n', 't', '=', '"'];
        let q = seq!['"'];
        assert(inner_ok_rec(x)) by {
            reveal_with_fuel(inner_ok_rec, 10);
        }
        lemma_inner_ok_rec(x);
        assert(inner_ok_rec(q)) by {
            reveal_with_fuel(inner_ok_rec, 2);
        }
        lemma_inner_ok_rec(q);
        lemma_decimal_inner(indent as nat);
        lemma_inner_ok_concat(n, x);
        lemma_inner_ok_concat(n + x, decimal(indent as nat));
        lemma_inner_ok_concat(n + x + decimal(indent as nat), q);
        lemma_tag_of_inner(n + x + decimal(indent as nat) + q);
        assert(code_open_tag(n, inline, indent) =~= seq!['<'] + (n + x + decimal(indent as nat) + q) + seq!['>']);
    } else {
        assert(code_open_tag(n, inline, indent) == open_tag(n));
    }
}

/// The line-break tags are ASCII and shaped as tags.
proof fn lemma_line_break_shaped(count: u8)
    ensures
        tag_shaped(line_break_tag(count)) && is_ascii_chars(line_break_tag(count)),
{
    if count >= 2 {
        reveal_strlit("<line-break count=\"");
        reveal_strlit("\" />");
        let x = seq!['l', 'i', 'n', 'e', '-', 'b', 'r', 'e', 'a', 'k', ' ', 'c', 'o', 'u', 'n', 't', '=', '"'];
        let q = seq!['"', ' ', '/'];
        assert(inner_ok_rec(x)) by {
            reveal_with_fuel(inner_ok_rec, 19);
        }
        lemma_inner_ok_rec(x);
        assert(inner_ok_rec(q)) by {
            reveal_with_fuel(inner_ok_rec, 4);
        }
        lemma_inner_ok_rec(q);
        lemma_decimal_inner(count as nat);
        lemma_inner_ok_concat(x, decimal(count as nat));
        lemma_inner_ok_concat(x + decimal(count as nat), q);
        lemma_tag_of_inner(x + decimal(count as nat) + q);
        assert(line_break_tag(count) =~= seq!['<'] + (x + decimal(count as nat) + q) + seq!['>']);
    } else {
        reveal_strlit("<line-break />");
        let x = seq!['l', 'i', 'n', 'e', '-', 'b', 'r', 'e', 'a', 'k', ' ', '/'];
        assert(inner_ok_rec(x)) by {
            reveal_with_fuel(inner_ok_rec, 13);
        }
        lemma_inner_ok_rec(x);
        lemma_tag_of_inner(x);
        assert(line_break_tag(count) =~= seq!['<'] + x + seq!['>']);
    }
}

/// The code and line-break tags are ASCII and shaped as tags.
proof fn lemma_code_tags_shaped(l: SampleLanguage, inline: bool, indent: u8, count: u8)
    ensures
        tag_shaped(code_open_tag(lang_name(l), inline, indent)) && is_ascii_chars(code_open_tag(lang_name(l), inline, indent)),
        tag_shaped(close_tag(lang_name(l))) && is_ascii_chars(close_tag(lang_name(l))),
        tag_shaped(line_break_tag(count)) && is_ascii_chars(line_break_tag(count)),
{
    lemma_lang_inner(l);
    lemma_name_tags(lang_name(l));
    lemma_code_open_shaped(l, inline, indent);
    lemma_line_break_shaped(count);
}

/// Text the writer gives back character by character: no `<`, and each character a token of
/// the vocabulary.
pub open spec fn content_ok(vocab: Seq<Seq<char>>, t: Seq<char>) -> bool {
    !t.contains('<') && forall|j: int| 0 <= j < t.len() ==> vocab.contains(seq![#[trigger] t[j]])
}

/// The content of an AI item is given back; a run of line breaks is at most two long (the
/// line-break tags that are special tokens).
pub open spec fn ai_item_ok(vocab: Seq<Seq<char>>, item: SampleAiEnum) -> bool {
    match item {
        SampleAiEnum::Text(t) => content_ok(vocab, t@),
        SampleAiEnum::Source(t) => content_ok(vocab, t@),
        SampleAiEnum::Code(c) => content_ok(vocab, c.content@),
        SampleAiEnum::LineBreak(lb) => lb.count <= 2,
    }
}

/// The content of a prompt item is given back; a run of line breaks is at most two long.
pub open spec fn prompt_item_ok(vocab: Seq<Seq<char>>, item: SamplePromptEnum) -> bool {
    match item {
        SamplePromptEnum::Text(t) => content_ok(vocab, t@),
        SamplePromptEnum::Code(c) => content_ok(vocab, c.content@),
        SamplePromptEnum::LineBreak(lb) => lb.count <= 2,
    }
}

/// An optional tagged text: `<name>`, the text, `</name>`; nothing when absent.
pub open spec fn optional_text(name: Seq<char>, t: Option<String>) -> Seq<char> {
    match t {
        Some(x) => simple_tag(name, true) + x@ + simple_tag(name, false),
        None => seq![],
    }
}

/// A sample written out as tagged text: `<sample>`, the system prompt, the prompt section,
/// the thought, the AI section, `</sample>`.
pub open spec fn sample_text(s: Sample) -> Seq<char> {
    simple_tag("sample"@, true) + optional_text("system"@, s.system) + simple_tag("prompt"@, true)
        + prompt_content_text(s.prompt_section@) + simple_tag("prompt"@, false) + optional_text(
        "thought"@,
        s.thought,
    ) + simple_tag("ai"@, true) + ai_content_text(s.ai_section@) + simple_tag("ai"@, false) + simple_tag(
        "sample"@,
        false,
    )
}

/// The samples written out one after the other.
pub open spec fn samples_text(ss: Seq<Sample>) -> Seq<char>
    decreases ss.len(),
{
    if ss.len() == 0 {
        seq![]
    } else {
        samples_text(ss.drop_last()) + sample_text(ss.last())
    }
}

/// The samples' texts are given back: system prompts and thoughts, and every item.
pub open spec fn samples_ok(vocab: Seq<Seq<char>>, ss: Seq<Sample>) -> bool {
    forall|i: int| 0 <= i < ss.len() ==> {
        let s = #[trigger] ss[i];
        &&& s.system matches Some(x) ==> content_ok(vocab, x@)
        &&& s.thought matches Some(x) ==> content_ok(vocab, x@)
        &&& forall|k: int| 0 <= k < s.prompt_section@.len() ==> prompt_item_ok(vocab, #[trigger] s.prompt_section@[k])
        &&& forall|k: int| 0 <= k < s.ai_section@.len() ==> ai_item_ok(vocab, #[trigger] s.ai_section@[k])
    }
}

/// The hypotheses on the tokenizer: ids are 32-bit, and its special tokens hold every tag that
/// the writers produce.
pub open spec fn tokenizer_ok(vocab: Seq<Seq<char>>, special_count: u32) -> bool {
    &&& vocab.len() <= 0x1_0000_0000
    &&& forall|t: Seq<char>| #[trigger] special_tokens_spec().contains(t) ==> special_prefix(vocab, special_count).contains(t)
}

proof fn lemma_special_in_vocab(vocab: Seq<Seq<char>>, sc: u32, t: Seq<char>)
    requires
        tokenizer_ok(vocab, sc),
        special_tokens_spec().contains(t),
    ensures
        special_prefix(vocab, sc).contains(t),
        vocab.contains(t),
{
    let sp = special_prefix(vocab, sc);
    assert(sp.contains(t));
    let k = choose|k: int| 0 <= k < sp.len() && sp[k] == t;
    assert(vocab[k] == t);
}

proof fn lemma_special_tag_back(vocab: Seq<Seq<char>>, sc: u32, t: Seq<char>)
    requires
        tokenizer_ok(vocab, sc),
        special_tokens_spec().contains(t),
        tag_shaped(t),
        is_ascii_chars(t),
    ensures
        comes_back(vocab, special_prefix(vocab, sc), t),
{
    lemma_special_in_vocab(vocab, sc, t);
    lemma_tag_comes_back(vocab, special_prefix(vocab, sc), t);
}

proof fn lemma_empty_back(vocab: Seq<Seq<char>>, sp: Seq<Seq<char>>)
    ensures
        comes_back(vocab, sp, Seq::<char>::empty()),
{
    assert(spelled(vocab, Seq::<u32>::empty()) =~= Seq::<char>::empty());
}

proof fn lemma_text_tags(vocab: Seq<Seq<char>>, sc: u32)
    requires
        tokenizer_ok(vocab, sc),
    ensures
        comes_back(vocab, special_prefix(vocab, sc), open_tag(name_text())),
        comes_back(vocab, special_prefix(vocab, sc), close_tag(name_text())),
        comes_back(vocab, special_prefix(vocab, sc), open_tag(name_source())),
        comes_back(vocab, special_prefix(vocab, sc), close_tag(name_source())),
{
    reveal_strlit("text");
    reveal_strlit("source");
    assert(name_text() =~= "text"@);
    assert(name_source() =~= "source"@);
    let st = special_tokens_spec();
    assert(st[11] == open_tag("text"@) && st[12] == close_tag("text"@));
    assert(st[13] == open_tag("source"@) && st[14] == close_tag("source"@));
    reveal_with_fuel(inner_ok_rec, 8);
    assert(inner_ok_rec(name_text()));
    lemma_inner_ok_rec(name_text());
    assert(inner_ok_rec(name_source()));
    lemma_inner_ok_rec(name_source());
    lemma_name_tags(name_text());
    lemma_name_tags(name_source());
    lemma_special_tag_back(vocab, sc, open_tag(name_text()));
    lemma_special_tag_back(vocab, sc, close_tag(name_text()));
    lemma_special_tag_back(vocab, sc, open_tag(name_source()));
    lemma_special_tag_back(vocab, sc, close_tag(name_source()));
}

proof fn lemma_code_back(vocab: Seq<Seq<char>>, sc: u32, l: SampleLanguage, inline: bool, indent: SampleIndent, count: u8)
    requires
        tokenizer_ok(vocab, sc),
    ensures
        comes_back(vocab, special_prefix(vocab, sc), code_open_tag(lang_name(l), inline, indent_value(indent))),
        comes_back(vocab, special_prefix(vocab, sc), close_tag(lang_name(l))),
        count <= 2 ==> comes_back(vocab, special_prefix(vocab, sc), line_break_tag(count)),
{
    lemma_written_tags_are_special(l, inline, indent, count);
    lemma_code_tags_shaped(l, inline, indent_value(indent), count);
    lemma_special_tag_back(vocab, sc, code_open_tag(lang_name(l), inline, indent_value(indent)));
    lemma_special_tag_back(vocab, sc, close_tag(lang_name(l)));
    if count <= 2 {
        lemma_special_tag_back(vocab, sc, line_break_tag(count));
    }
}

proof fn lemma_three_back(vocab: Seq<Seq<char>>, sp: Seq<Seq<char>>, a: Seq<char>, b: Seq<char>, c: Seq<char>)
    requires
        comes_back(vocab, sp, a),
        comes_back(vocab, sp, b),
        comes_back(vocab, sp, c),
    ensures
        comes_back(vocab, sp, a + b + c),
{
    lemma_comes_back_concat(vocab, sp, a, b);
    lemma_comes_back_concat(vocab, sp, a + b, c);
}

proof fn lemma_ai_item_back(vocab: Seq<Seq<char>>, sc: u32, item: SampleAiEnum)
    requires
        tokenizer_ok(vocab, sc),
        ai_item_ok(vocab, item),
    ensures
        comes_back(vocab, special_prefix(vocab, sc), ai_item_text(item)),
{
    let sp = special_prefix(vocab, sc);
    lemma_text_tags(vocab, sc);
    lemma_empty_back(vocab, sp);
    match item {
        SampleAiEnum::Text(t) => {
            lemma_plain_comes_back(vocab, sp, t@);
        },
        SampleAiEnum::Source(t) => {
            lemma_plain_comes_back(vocab, sp, t@);
        },
        SampleAiEnum::Code(c) => {
            lemma_plain_comes_back(vocab, sp, c.content@);
            lemma_code_back(vocab, sc, c.lang, c.inline, c.indent, 0);
        },
        SampleAiEnum::LineBreak(lb) => {
            lemma_code_back(vocab, sc, SampleLanguage::Txt, false, SampleIndent::Zero, lb.count);
        },
    }
    lemma_three_back(vocab, sp, ai_item_opening(item), ai_item_body(item), ai_item_closing(item));
}

proof fn lemma_prompt_item_back(vocab: Seq<Seq<char>>, sc: u32, item: SamplePromptEnum)
    requires
        tokenizer_ok(vocab, sc),
        prompt_item_ok(vocab, item),
    ensures
        comes_back(vocab, special_prefix(vocab, sc), prompt_item_text(item)),
{
    let sp = special_prefix(vocab, sc);
    match item {
        SamplePromptEnum::Text(t) => {
            lemma_plain_comes_back(vocab, sp, t@);
        },
        SamplePromptEnum::Code(c) => {
            lemma_plain_comes_back(vocab, sp, c.content@);
            lemma_code_back(vocab, sc, c.lang, c.inline, c.indent, 0);
            lemma_three_back(
                vocab,
                sp,
                code_open_tag(lang_name(c.lang), c.inline, indent_value(c.indent)),
                c.content@,
                close_tag(lang_name(c.lang)),
            );
        },
        SamplePromptEnum::LineBreak(lb) => {
            lemma_code_back(vocab, sc, SampleLanguage::Txt, false, SampleIndent::Zero, lb.count);
        },
    }
}

proof fn lemma_ai_content_back(vocab: Seq<Seq<char>>, sc: u32, items: Seq<SampleAiEnum>)
    requires
        tokenizer_ok(vocab, sc),
        forall|k: int| 0 <= k < items.len() ==> ai_item_ok(vocab, #[trigger] items[k]),
    ensures
        comes_back(vocab, special_prefix(vocab, sc), ai_content_text(items)),
    decreases items.len(),
{
    if items.len() == 0 {
        lemma_empty_back(vocab, special_prefix(vocab, sc));
    } else {
        lemma_ai_content_back(vocab, sc, items.drop_last());
        assert(ai_item_ok(vocab, items[items.len() - 1]));
        lemma_ai_item_back(vocab, sc, items.last());
        lemma_comes_back_concat(vocab, special_prefix(vocab, sc), ai_content_text(items.drop_last()), ai_item_text(items.last()));
    }
}

proof fn lemma_prompt_content_back(vocab: Seq<Seq<char>>, sc: u32, items: Seq<SamplePromptEnum>)
    requires
        tokenizer_ok(vocab, sc),
        forall|k: int| 0 <= k < items.len() ==> prompt_item_ok(vocab, #[trigger] items[k]),
    ensures
        comes_back(vocab, special_prefix(vocab, sc), prompt_content_text(items)),
    decreases items.len(),
{
    if items.len() == 0 {
        lemma_empty_back(vocab, special_prefix(vocab, sc));
    } else {
        lemma_prompt_content_back(vocab, sc, items.drop_last());
        assert(prompt_item_ok(vocab, items[items.len() - 1]));
        lemma_prompt_item_back(vocab, sc, items.last());
        lemma_comes_back_concat(vocab, special_prefix(vocab, sc), prompt_content_text(items.drop_last()), prompt_item_text(items.last()));
    }
}

proof fn lemma_tag_id_spells(vocab: Seq<Seq<char>>, sc: u32, name: Seq<char>, o: bool)
    requires
        tokenizer_ok(vocab, sc),
        special_tokens_spec().contains(simple_tag(name, o)),
    ensures
        spelled(vocab, seq![tag_id(vocab, name, o)]) == simple_tag(name, o),
{
    lemma_special_in_vocab(vocab, sc, simple_tag(name, o));
    lemma_id_names_token(vocab, simple_tag(name, o));
    assert(seq![tag_id(vocab, name, o)].map_values(|id: u32| vocab[id as int]) =~= seq![simple_tag(name, o)]);
    lemma_joined_small(simple_tag(name, o), simple_tag(name, o));
}

proof fn lemma_chars_spell(vocab: Seq<Seq<char>>, t: Seq<char>)
    requires
        vocab.len() <= 0x1_0000_0000,
        forall|j: int| 0 <= j < t.len() ==> vocab.contains(seq![#[trigger] t[j]]),
    ensures
        spelled(vocab, chars_ids(vocab, t)) == t,
{
    lemma_chars_ids_singles(vocab, t);
    lemma_joined_singles(t);
    assert(all_in(singles(t), vocab)) by {
        assert forall|j: int| 0 <= j < singles(t).len() implies vocab.contains(#[trigger] singles(t)[j]) by {
            assert(singles(t)[j] == seq![t[j]]);
        }
    }
    lemma_spelled_words(vocab, singles(t));
}

proof fn lemma_structural_special(name: Seq<char>, o: bool)
    requires
        name == "sample"@ || name == "system"@ || name == "prompt"@ || name == "thought"@ || name == "ai"@,
    ensures
        special_tokens_spec().contains(simple_tag(name, o)),
{
    let st = special_tokens_spec();
    assert(st[1] == open_tag("sample"@) && st[2] == close_tag("sample"@));
    assert(st[3] == open_tag("system"@) && st[4] == close_tag("system"@));
    assert(st[5] == open_tag("prompt"@) && st[6] == close_tag("prompt"@));
    assert(st[7] == open_tag("thought"@) && st[8] == close_tag("thought"@));
    assert(st[9] == open_tag("ai"@) && st[10] == close_tag("ai"@));
}

proof fn lemma_optional_spells(vocab: Seq<Seq<char>>, sc: u32, name: Seq<char>, t: Option<String>)
    requires
        tokenizer_ok(vocab, sc),
        name == "system"@ || name == "thought"@,
        t matches Some(x) ==> content_ok(vocab, x@),
    ensures
        spelled(vocab, optional_text_ids(vocab, name, t)) == optional_text(name, t),
{
    match t {
        Some(x) => {
            lemma_structural_special(name, true);
            lemma_structural_special(name, false);
            lemma_tag_id_spells(vocab, sc, name, true);
            lemma_tag_id_spells(vocab, sc, name, false);
            lemma_chars_spell(vocab, x@);
            let a = seq![tag_id(vocab, name, true)];
            let b = chars_ids(vocab, x@);
            let c = seq![tag_id(vocab, name, false)];
            lemma_spelled_concat(vocab, a, b);
            lemma_spelled_concat(vocab, a + b, c);
        },
        None => {
            assert(spelled(vocab, Seq::<u32>::empty()) =~= Seq::<char>::empty());
        },
    }
}

/// The ids of one sample spell the sample written out as tagged text.
proof fn lemma_sample_spells(vocab: Seq<Seq<char>>, sc: u32, s: Sample)
    requires
        tokenizer_ok(vocab, sc),
        s.system matches Some(x) ==> content_ok(vocab, x@),
        s.thought matches Some(x) ==> content_ok(vocab, x@),
        forall|k: int| 0 <= k < s.prompt_section@.len() ==> prompt_item_ok(vocab, #[trigger] s.prompt_section@[k]),
        forall|k: int| 0 <= k < s.ai_section@.len() ==> ai_item_ok(vocab, #[trigger] s.ai_section@[k]),
    ensures
        spelled(vocab, sample_ids(vocab, special_prefix(vocab, sc), s)) == sample_text(s),
{
    let sp = special_prefix(vocab, sc);
    let p1 = seq![tag_id(vocab, "sample"@, true)];
    let p2 = optional_text_ids(vocab, "system"@, s.system);
    let p3 = seq![tag_id(vocab, "prompt"@, true)];
    let p4 = section_ids(vocab, sp, prompt_content_text(s.prompt_section@));
    let p5 = seq![tag_id(vocab, "prompt"@, false)];
    let p6 = optional_text_ids(vocab, "thought"@, s.thought);
    let p7 = seq![tag_id(vocab, "ai"@, true)];
    let p8 = section_ids(vocab, sp, ai_content_text(s.ai_section@));
    let p9 = seq![tag_id(vocab, "ai"@, false)];
    let p10 = seq![tag_id(vocab, "sample"@, false)];
    lemma_structural_special("sample"@, true);
    lemma_structural_special("sample"@, false);
    lemma_structural_special("prompt"@, true);
    lemma_structural_special("prompt"@, false);
    lemma_structural_special("ai"@, true);
    lemma_structural_special("ai"@, false);
    lemma_tag_id_spells(vocab, sc, "sample"@, true);
    lemma_tag_id_spells(vocab, sc, "sample"@, false);
    lemma_tag_id_spells(vocab, sc, "prompt"@, true);
    lemma_tag_id_spells(vocab, sc, "prompt"@, false);
    lemma_tag_id_spells(vocab, sc, "ai"@, true);
    lemma_tag_id_spells(vocab, sc, "ai"@, false);
    lemma_optional_spells(vocab, sc, "system"@, s.system);
    lemma_optional_spells(vocab, sc, "thought"@, s.thought);
    lemma_prompt_content_back(vocab, sc, s.prompt_section@);
    lemma_ai_content_back(vocab, sc, s.ai_section@);
    lemma_spelled_concat(vocab, p1, p2);
    lemma_spelled_concat(vocab, p1 + p2, p3);
    lemma_spelled_concat(vocab, p1 + p2 + p3, p4);
    lemma_spelled_concat(vocab, p1 + p2 + p3 + p4, p5);
    lemma_spelled_concat(vocab, p1 + p2 + p3 + p4 + p5, p6);
    lemma_spelled_concat(vocab, p1 + p2 + p3 + p4 + p5 + p6, p7);
    lemma_spelled_concat(vocab, p1 + p2 + p3 + p4 + p5 + p6 + p7, p8);
    lemma_spelled_concat(vocab, p1 + p2 + p3 + p4 + p5 + p6 + p7 + p8, p9);
    lemma_spelled_concat(vocab, p1 + p2 + p3 + p4 + p5 + p6 + p7 + p8 + p9, p10);
}

/// The training sequence spells the samples back: with a tokenizer whose special tokens hold
/// every tag the writers produce, and samples whose texts have no `<` and whose characters are
/// tokens of the vocabulary (runs of line breaks at most two long), the tokens that the ids of
/// the initial training sequence name spell each sample written out as tagged text, one after
/// the other.
pub proof fn lemma_training_sequence_spells_samples(vocab: Seq<Seq<char>>, special_count: u32, ss: Seq<Sample>)
    requires
        tokenizer_ok(vocab, special_count),
        samples_ok(vocab, ss),
    ensures
        spelled(vocab, samples_ids(vocab, special_prefix(vocab, special_count), ss)) == samples_text(ss),
    decreases ss.len(),
{
    if ss.len() == 0 {
        assert(spelled(vocab, Seq::<u32>::empty()) =~= Seq::<char>::empty());
    } else {
        assert(samples_ok(vocab, ss.drop_last())) by {
            assert forall|i: int| 0 <= i < ss.drop_last().len() implies #[trigger] ss.drop_last()[i] == ss[i] by {}
        }
        lemma_training_sequence_spells_samples(vocab, special_count, ss.drop_last());
        assert(ss[ss.len() - 1] == ss.last());
        lemma_sample_spells(vocab, special_count, ss.last());
        lemma_spelled_concat(
            vocab,
            samples_ids(vocab, special_prefix(vocab, special_count), ss.drop_last()),
            sample_ids(vocab, special_prefix(vocab, special_count), ss.last()),
        );
    }
}

} // verus!
