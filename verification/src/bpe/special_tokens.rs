//! The special tokens of the corpus: every tag the tag writers produce, kept whole by the
//! tokenizer.

use vstd::prelude::*;
use crate::bpe::tokenizer::views;
use crate::sample::{SampleLanguage, SampleIndent};
use crate::sample::language::{lang_name, all_languages, declared_indents, indent_value};
use crate::tag::render::{
    open_tag, close_tag, code_open_tag, line_break_tag, simple_tag_string, code_open_tag_string,
    line_break_tag_string,
};

verus! {

/// The structural tags, opening and closing, in order.
pub open spec fn structural_tokens() -> Seq<Seq<char>> {
    seq![
        open_tag("sample"@), close_tag("sample"@),
        open_tag("system"@), close_tag("system"@),
        open_tag("prompt"@), close_tag("prompt"@),
        open_tag("thought"@), close_tag("thought"@),
        open_tag("ai"@), close_tag("ai"@),
        open_tag("text"@), close_tag("text"@),
        open_tag("source"@), close_tag("source"@),
    ]
}

/// The tags of one language: standard opening and closing, inline, and one per indent.
pub open spec fn language_tokens(l: SampleLanguage) -> Seq<Seq<char>> {
    let n = lang_name(l);
    seq![open_tag(n), close_tag(n), code_open_tag(n, true, 0)] + indent_tokens(n, declared_indents())
}

/// The indented opening tags of a code block named `n`, one per indent of `inds`.
pub open spec fn indent_tokens(n: Seq<char>, inds: Seq<SampleIndent>) -> Seq<Seq<char>>
    decreases inds.len(),
{
    if inds.len() == 0 {
        seq![]
    } else {
        indent_tokens(n, inds.drop_last()).push(code_open_tag(n, false, indent_value(inds.last())))
    }
}

/// The tags of each language in `langs`, one language after the other.
pub open spec fn languages_tokens(langs: Seq<SampleLanguage>) -> Seq<Seq<char>>
    decreases langs.len(),
{
    if langs.len() == 0 {
        seq![]
    } else {
        languages_tokens(langs.drop_last()) + language_tokens(langs.last())
    }
}

/// All special tokens, in their fixed order: `<unknown>` first, the structural tags, the two
/// line-break tags, then the tags of every language.
pub open spec fn special_tokens_spec() -> Seq<Seq<char>> {
    seq!["<unknown>"@] + structural_tokens() + seq![line_break_tag(1), line_break_tag(2)]
        + languages_tokens(all_languages())
}

/// Appends the opening and closing tag of `name`.
fn push_tag_pair(tokens: &mut Vec<String>, name: &str)
    ensures
        views(final(tokens)@) == views(old(tokens)@) + seq![open_tag(name@), close_tag(name@)],
{
    tokens.push(simple_tag_string(name, true));
    tokens.push(simple_tag_string(name, false));
    assert(views(tokens@) =~= views(old(tokens)@) + seq![open_tag(name@), close_tag(name@)]);
}

/// Appends the tags of one language.
fn push_language_tokens(tokens: &mut Vec<String>, lang: SampleLanguage)
    ensures
        views(final(tokens)@) == views(old(tokens)@) + language_tokens(lang),
{
    let name = lang.as_str();
    tokens.push(simple_tag_string(name, true));
    tokens.push(simple_tag_string(name, false));
    tokens.push(code_open_tag_string(name, true, SampleIndent::Zero));
    let indents = SampleIndent::all();
    let ghost start = views(tokens@);
    let mut k: usize = 0;
    while k < indents.len()
        invariant
            indents@ == declared_indents(),
            k <= indents@.len(),
            name@ == lang_name(lang),
            views(tokens@) == start + indent_tokens(lang_name(lang), indents@.subrange(0, k as int)),
        decreases indents@.len() - k,
    {
        let ind = indents[k];
        let ghost prev = tokens@;
        let t = code_open_tag_string(name, false, ind);
        let ghost tv = t@;
        tokens.push(t);
        assert(views(tokens@) =~= views(prev).push(tv));
        k = k + 1;
        assert(indents@.subrange(0, k as int).drop_last() =~= indents@.subrange(0, k - 1));
        assert(views(tokens@) =~= start + indent_tokens(lang_name(lang), indents@.subrange(0, k as int)));
    }
    assert(indents@.subrange(0, indents@.len() as int) =~= indents@);
    assert(views(tokens@) =~= views(old(tokens)@) + language_tokens(lang));
}

/// Returns all special tokens, in their fixed order (`<unknown>` first).
pub fn bpe_get_special_tokens() -> (tokens: Vec<String>)
    ensures
        views(tokens@) == special_tokens_spec(),
{
    let mut tokens: Vec<String> = Vec::new();
    tokens.push("<unknown>".to_owned());
    assert(views(tokens@) =~= seq!["<unknown>"@]);
    push_tag_pair(&mut tokens, "sample");
    push_tag_pair(&mut tokens, "system");
    push_tag_pair(&mut tokens, "prompt");
    push_tag_pair(&mut tokens, "thought");
    push_tag_pair(&mut tokens, "ai");
    push_tag_pair(&mut tokens, "text");
    push_tag_pair(&mut tokens, "source");
    assert(views(tokens@) =~= seq!["<unknown>"@] + structural_tokens());
    let ghost mid = tokens@;
    let lb1 = line_break_tag_string(1);
    let lb2 = line_break_tag_string(2);
    tokens.push(lb1);
    tokens.push(lb2);
    assert(views(tokens@) =~= views(mid) + seq![line_break_tag(1), line_break_tag(2)]);
    assert(views(tokens@) =~= seq!["<unknown>"@] + structural_tokens() + seq![
        line_break_tag(1),
        line_break_tag(2),
    ]);
    let ghost base = views(tokens@);
    let langs = SampleLanguage::all();
    let mut i: usize = 0;
    assert(langs@.subrange(0, 0) =~= Seq::<SampleLanguage>::empty());
    while i < langs.len()
        invariant
            langs@ == all_languages(),
            i <= langs@.len(),
            views(tokens@) == base + languages_tokens(langs@.subrange(0, i as int)),
        decreases langs@.len() - i,
    {
        push_language_tokens(&mut tokens, langs[i]);
        proof {
            let next = langs@.subrange(0, i + 1);
            assert(next.drop_last() =~= langs@.subrange(0, i as int));
            assert(next.last() == langs@[i as int]);
        }
        i = i + 1;
        assert(views(tokens@) =~= base + languages_tokens(langs@.subrange(0, i as int)));
    }
    assert(langs@.subrange(0, langs@.len() as int) =~= langs@);
    tokens
}

/// The indented opening tags of a language, spelled out.
pub proof fn lemma_indent_tokens_declared(n: Seq<char>)
    ensures
        indent_tokens(n, declared_indents()) == seq![
            code_open_tag(n, false, 1),
            code_open_tag(n, false, 2),
            code_open_tag(n, false, 3),
            code_open_tag(n, false, 4),
            code_open_tag(n, false, 5),
            code_open_tag(n, false, 6),
        ],
{
    let d6 = declared_indents();
    let d5 = d6.drop_last();
    let d4 = d5.drop_last();
    let d3 = d4.drop_last();
    let d2 = d3.drop_last();
    let d1 = d2.drop_last();
    let d0 = d1.drop_last();
    assert(d0 =~= Seq::<SampleIndent>::empty());
    assert(indent_tokens(n, d0) =~= Seq::<Seq<char>>::empty());
    assert(indent_tokens(n, d1) =~= seq![code_open_tag(n, false, 1)]);
    assert(indent_tokens(n, d2) =~= seq![code_open_tag(n, false, 1), code_open_tag(n, false, 2)]);
    assert(indent_tokens(n, d3) =~= seq![
        code_open_tag(n, false, 1),
        code_open_tag(n, false, 2),
        code_open_tag(n, false, 3),
    ]);
    assert(indent_tokens(n, d4) =~= seq![
        code_open_tag(n, false, 1),
        code_open_tag(n, false, 2),
        code_open_tag(n, false, 3),
        code_open_tag(n, false, 4),
    ]);
    assert(indent_tokens(n, d5) =~= seq![
        code_open_tag(n, false, 1),
        code_open_tag(n, false, 2),
        code_open_tag(n, false, 3),
        code_open_tag(n, false, 4),
        code_open_tag(n, false, 5),
    ]);
    assert(indent_tokens(n, d6) =~= seq![
        code_open_tag(n, false, 1),
        code_open_tag(n, false, 2),
        code_open_tag(n, false, 3),
        code_open_tag(n, false, 4),
        code_open_tag(n, false, 5),
        code_open_tag(n, false, 6),
    ]);
}

/// Each language's tags are among the tags of any list holding that language.
pub proof fn lemma_languages_tokens_contain(langs: Seq<SampleLanguage>, k: int, t: Seq<char>)
    requires
        0 <= k < langs.len(),
        language_tokens(langs[k]).contains(t),
    ensures
        languages_tokens(langs).contains(t),
    decreases langs.len(),
{
    let j = choose|j: int| 0 <= j < language_tokens(langs[k]).len() && language_tokens(langs[k])[j] == t;
    if k == langs.len() - 1 {
        let pre = languages_tokens(langs.drop_last());
        assert((pre + language_tokens(langs.last()))[pre.len() + j] == t);
    } else {
        assert(langs.drop_last()[k] == langs[k]);
        lemma_languages_tokens_contain(langs.drop_last(), k, t);
        let pre = languages_tokens(langs.drop_last());
        let i = choose|i: int| 0 <= i < pre.len() && pre[i] == t;
        assert((pre + language_tokens(langs.last()))[i] == t);
    }
}

/// The code tags of a language are among its tokens.
pub proof fn lemma_code_tags_in_language(l: SampleLanguage, inline: bool, indent: SampleIndent)
    ensures
        language_tokens(l).contains(code_open_tag(lang_name(l), inline, indent_value(indent))),
        language_tokens(l).contains(close_tag(lang_name(l))),
{
    let n = lang_name(l);
    let lt = language_tokens(l);
    lemma_indent_tokens_declared(n);
    let open = code_open_tag(n, inline, indent_value(indent));
    let pos: int = if inline {
        2
    } else {
        match indent {
            SampleIndent::Zero => 0,
            SampleIndent::One => 3,
            SampleIndent::Two => 4,
            SampleIndent::Three => 5,
            SampleIndent::Four => 6,
            SampleIndent::Five => 7,
            SampleIndent::Six => 8,
        }
    };
    assert(lt[pos] == open);
    assert(lt[1] == close_tag(n));
}

/// A token of some language is a special token.
pub proof fn lemma_language_token_is_special(l: SampleLanguage, t: Seq<char>)
    requires
        language_tokens(l).contains(t),
    ensures
        special_tokens_spec().contains(t),
{
    let k: int = match l {
        SampleLanguage::Html => 0,
        SampleLanguage::Css => 1,
        SampleLanguage::Js => 2,
        SampleLanguage::Ts => 3,
        SampleLanguage::Jsx => 4,
        SampleLanguage::Tsx => 5,
        SampleLanguage::Rust => 6,
        SampleLanguage::Bash => 7,
        SampleLanguage::Xml => 8,
        SampleLanguage::Json => 9,
        SampleLanguage::Txt => 10,
        SampleLanguage::Md => 11,
    };
    assert(all_languages()[k] == l);
    lemma_languages_tokens_contain(all_languages(), k, t);
    let s = special_tokens_spec();
    let head = seq!["<unknown>"@] + structural_tokens() + seq![line_break_tag(1), line_break_tag(2)];
    let tail = languages_tokens(all_languages());
    assert(s == head + tail);
    let i = choose|i: int| 0 <= i < tail.len() && tail[i] == t;
    assert(s[head.len() + i] == t);
}

/// Every tag the code and line-break writers produce (for a line break of at most two) is a
/// special token, so the tokenizer keeps it whole.
pub proof fn lemma_written_tags_are_special(l: SampleLanguage, inline: bool, indent: SampleIndent, count: u8)
    ensures
        special_tokens_spec().contains(code_open_tag(lang_name(l), inline, indent_value(indent))),
        special_tokens_spec().contains(close_tag(lang_name(l))),
        count <= 2 ==> special_tokens_spec().contains(line_break_tag(count)),
{
    lemma_code_tags_in_language(l, inline, indent);
    lemma_language_token_is_special(l, code_open_tag(lang_name(l), inline, indent_value(indent)));
    lemma_language_token_is_special(l, close_tag(lang_name(l)));
    let s = special_tokens_spec();
    if count <= 2 {
        if count < 2 {
            assert(line_break_tag(count) == line_break_tag(1));
            assert(s[15] == line_break_tag(1));
        } else {
            assert(s[16] == line_break_tag(2));
        }
    }
}

} // verus!
