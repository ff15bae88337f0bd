//! Writing whole prompt and AI sections, and the byte lengths and offsets inside them.

use vstd::prelude::*;
use vstd::utf8::encode_utf8;
use crate::text::{push_str_bytes, lemma_encode_utf8_concat};
use crate::sample::{SampleAiEnum, SamplePromptEnum};
use crate::sample::language::{lang_name, indent_value};
use crate::tag::render::{
    open_tag, close_tag, simple_tag, code_open_tag, line_break_tag,
    tag_write_tag, tag_write_code_open, tag_write_code_close, tag_write_line_break,
};

verus! {

/// `ai`
pub open spec fn name_ai() -> Seq<char> {
    seq!['a', 'i']
}

/// `prompt`
pub open spec fn name_prompt() -> Seq<char> {
    seq!['p', 'r', 'o', 'm', 'p', 't']
}

/// `text`
pub open spec fn name_text() -> Seq<char> {
    seq!['t', 'e', 'x', 't']
}

/// `source`
pub open spec fn name_source() -> Seq<char> {
    seq!['s', 'o', 'u', 'r', 'c', 'e']
}

/// The tag(s) written before the content of an AI item.
pub open spec fn ai_item_opening(item: SampleAiEnum) -> Seq<char> {
    match item {
        SampleAiEnum::Text(_) => open_tag(name_text()),
        SampleAiEnum::Source(_) => open_tag(name_source()),
        SampleAiEnum::Code(c) => code_open_tag(lang_name(c.lang), c.inline, indent_value(c.indent)),
        SampleAiEnum::LineBreak(lb) => line_break_tag(lb.count),
    }
}

/// The content of an AI item (empty for a line break).
pub open spec fn ai_item_body(item: SampleAiEnum) -> Seq<char> {
    match item {
        SampleAiEnum::Text(t) => t@,
        SampleAiEnum::Source(s) => s@,
        SampleAiEnum::Code(c) => c.content@,
        SampleAiEnum::LineBreak(_) => seq![],
    }
}

/// The tag written after the content of an AI item (empty for a line break).
pub open spec fn ai_item_closing(item: SampleAiEnum) -> Seq<char> {
    match item {
        SampleAiEnum::Text(_) => close_tag(name_text()),
        SampleAiEnum::Source(_) => close_tag(name_source()),
        SampleAiEnum::Code(c) => close_tag(lang_name(c.lang)),
        SampleAiEnum::LineBreak(_) => seq![],
    }
}

/// The full text of one AI item.
pub open spec fn ai_item_text(item: SampleAiEnum) -> Seq<char> {
    ai_item_opening(item) + ai_item_body(item) + ai_item_closing(item)
}

/// The items of an AI section, one after the other, without the `<ai>` tags.
pub open spec fn ai_content_text(items: Seq<SampleAiEnum>) -> Seq<char>
    decreases items.len(),
{
    if items.len() == 0 {
        seq![]
    } else {
        ai_content_text(items.drop_last()) + ai_item_text(items.last())
    }
}

/// A complete AI section: `<ai>`, the items, `</ai>`.
pub open spec fn ai_section_text(items: Seq<SampleAiEnum>) -> Seq<char> {
    open_tag(name_ai()) + ai_content_text(items) + close_tag(name_ai())
}

/// The full text of one prompt item; text is written bare.
pub open spec fn prompt_item_text(item: SamplePromptEnum) -> Seq<char> {
    match item {
        SamplePromptEnum::Text(t) => t@,
        SamplePromptEnum::Code(c) => code_open_tag(lang_name(c.lang), c.inline, indent_value(c.indent))
            + c.content@ + close_tag(lang_name(c.lang)),
        SamplePromptEnum::LineBreak(lb) => line_break_tag(lb.count),
    }
}

/// The items of a prompt, one after the other, without the `<prompt>` tags.
pub open spec fn prompt_content_text(items: Seq<SamplePromptEnum>) -> Seq<char>
    decreases items.len(),
{
    if items.len() == 0 {
        seq![]
    } else {
        prompt_content_text(items.drop_last()) + prompt_item_text(items.last())
    }
}

/// A complete prompt section: `<prompt>`, the items, `</prompt>`.
pub open spec fn prompt_section_text(items: Seq<SamplePromptEnum>) -> Seq<char> {
    open_tag(name_prompt()) + prompt_content_text(items) + close_tag(name_prompt())
}

/// Writes the tag named by a literal.
fn write_named_tag(writer: &mut Vec<u8>, which: u8, is_opening: bool, special_tokens: &[String])
    requires
        which < 4,
    ensures
        final(writer)@ == old(writer)@ + encode_utf8(simple_tag(
            if which == 0 {
                name_ai()
            } else if which == 1 {
                name_prompt()
            } else if which == 2 {
                name_text()
            } else {
                name_source()
            },
            is_opening,
        )),
{
    if which == 0 {
        proof { reveal_strlit("ai"); }
        assert("ai"@ =~= name_ai());
        tag_write_tag(writer, "ai", is_opening, special_tokens);
    } else if which == 1 {
        proof { reveal_strlit("prompt"); }
        assert("prompt"@ =~= name_prompt());
        tag_write_tag(writer, "prompt", is_opening, special_tokens);
    } else if which == 2 {
        proof { reveal_strlit("text"); }
        assert("text"@ =~= name_text());
        tag_write_tag(writer, "text", is_opening, special_tokens);
    } else {
        proof { reveal_strlit("source"); }
        assert("source"@ =~= name_source());
        tag_write_tag(writer, "source", is_opening, special_tokens);
    }
}

/// Writes `open`, `content` and `close` of one tagged text item.
fn write_wrapped_text(
    writer: &mut Vec<u8>,
    which: u8,
    content: &str,
    special_tokens: &[String],
)
    requires
        2 <= which < 4,
    ensures
        final(writer)@ == old(writer)@ + encode_utf8(
            open_tag(if which == 2 { name_text() } else { name_source() }) + content@ + close_tag(
                if which == 2 {
                    name_text()
                } else {
                    name_source()
                },
            ),
        ),
{
    let ghost name = if which == 2 { name_text() } else { name_source() };
    write_named_tag(writer, which, true, special_tokens);
    push_str_bytes(writer, content);
    write_named_tag(writer, which, false, special_tokens);
    proof {
        lemma_encode_utf8_concat(open_tag(name), content@);
        lemma_encode_utf8_concat(open_tag(name) + content@, close_tag(name));
    }
    assert(writer@ =~= old(writer)@ + encode_utf8(open_tag(name) + content@ + close_tag(name)));
}

/// Writes one code block: opening tag, content, closing tag.
fn write_code_block(
    writer: &mut Vec<u8>,
    code: &crate::sample::SampleCode,
    special_tokens: &[String],
)
    ensures
        final(writer)@ == old(writer)@ + encode_utf8(
            code_open_tag(lang_name(code.lang), code.inline, indent_value(code.indent)) + code.content@
                + close_tag(lang_name(code.lang)),
        ),
{
    let ghost o = code_open_tag(lang_name(code.lang), code.inline, indent_value(code.indent));
    let ghost c = close_tag(lang_name(code.lang));
    tag_write_code_open(writer, code.lang.as_str(), code.inline, code.indent, special_tokens);
    push_str_bytes(writer, code.content.as_str());
    tag_write_code_close(writer, code.lang.as_str(), special_tokens);
    proof {
        lemma_encode_utf8_concat(o, code.content@);
        lemma_encode_utf8_concat(o + code.content@, c);
    }
    assert(writer@ =~= old(writer)@ + encode_utf8(o + code.content@ + c));
}

/// Writes one AI item.
pub fn write_ai_item(writer: &mut Vec<u8>, item: &SampleAiEnum, special_tokens: &[String])
    ensures
        final(writer)@ == old(writer)@ + encode_utf8(ai_item_text(*item)),
{
    match item {
        SampleAiEnum::Text(text) => {
            write_wrapped_text(writer, 2, text.as_str(), special_tokens);
        },
        SampleAiEnum::Source(source) => {
            write_wrapped_text(writer, 3, source.as_str(), special_tokens);
        },
        SampleAiEnum::Code(code) => {
            write_code_block(writer, code, special_tokens);
        },
        SampleAiEnum::LineBreak(line_break) => {
            tag_write_line_break(writer, line_break, special_tokens);
            assert(ai_item_text(*item) =~= line_break_tag(line_break.count));
        },
    }
}

/// Writes one prompt item.
pub fn write_prompt_item(writer: &mut Vec<u8>, item: &SamplePromptEnum, special_tokens: &[String])
    ensures
        final(writer)@ == old(writer)@ + encode_utf8(prompt_item_text(*item)),
{
    match item {
        SamplePromptEnum::Text(text) => {
            push_str_bytes(writer, text.as_str());
        },
        SamplePromptEnum::Code(code) => {
            write_code_block(writer, code, special_tokens);
        },
        SamplePromptEnum::LineBreak(line_break) => {
            tag_write_line_break(writer, line_break, special_tokens);
        },
    }
}

/// Writes the content of an AI section (without the outer `<ai>` tags), without formatting.
pub fn tag_write_ai_content(
    writer: &mut Vec<u8>,
    ai_section: &[SampleAiEnum],
    special_tokens: &[String],
)
    ensures
        final(writer)@ == old(writer)@ + encode_utf8(ai_content_text(ai_section@)),
{
    let n = ai_section.len();
    let mut i: usize = 0;
    assert(ai_section@.subrange(0, 0) =~= Seq::<SampleAiEnum>::empty());
    while i < n
        invariant
            n == ai_section@.len(),
            i <= n,
            writer@ == old(writer)@ + encode_utf8(ai_content_text(ai_section@.subrange(0, i as int))),
        decreases n - i,
    {
        let ghost before = ai_content_text(ai_section@.subrange(0, i as int));
        write_ai_item(writer, &ai_section[i], special_tokens);
        proof {
            let next = ai_section@.subrange(0, i + 1);
            assert(next.drop_last() =~= ai_section@.subrange(0, i as int));
            assert(next.last() == ai_section@[i as int]);
            lemma_encode_utf8_concat(before, ai_item_text(ai_section@[i as int]));
        }
        i = i + 1;
    }
    assert(ai_section@.subrange(0, n as int) =~= ai_section@);
}

/// Writes the content of a prompt section (without the outer `<prompt>` tags), without
/// formatting.
pub fn tag_write_prompt_content(
    writer: &mut Vec<u8>,
    prompt_section: &[SamplePromptEnum],
    special_tokens: &[String],
)
    ensures
        final(writer)@ == old(writer)@ + encode_utf8(prompt_content_text(prompt_section@)),
{
    let n = prompt_section.len();
    let mut i: usize = 0;
    assert(prompt_section@.subrange(0, 0) =~= Seq::<SamplePromptEnum>::empty());
    while i < n
        invariant
            n == prompt_section@.len(),
            i <= n,
            writer@ == old(writer)@ + encode_utf8(
                prompt_content_text(prompt_section@.subrange(0, i as int)),
            ),
        decreases n - i,
    {
        let ghost before = prompt_content_text(prompt_section@.subrange(0, i as int));
        write_prompt_item(writer, &prompt_section[i], special_tokens);
        proof {
            let next = prompt_section@.subrange(0, i + 1);
            assert(next.drop_last() =~= prompt_section@.subrange(0, i as int));
            assert(next.last() == prompt_section@[i as int]);
            lemma_encode_utf8_concat(before, prompt_item_text(prompt_section@[i as int]));
        }
        i = i + 1;
    }
    assert(prompt_section@.subrange(0, n as int) =~= prompt_section@);
}

/// Writes a complete AI section, `<ai>` ... `</ai>`, without formatting.
pub fn tag_write_ai_section(
    writer: &mut Vec<u8>,
    ai_section: &[SampleAiEnum],
    special_tokens: &[String],
)
    ensures
        final(writer)@ == old(writer)@ + encode_utf8(ai_section_text(ai_section@)),
{
    write_named_tag(writer, 0, true, special_tokens);
    tag_write_ai_content(writer, ai_section, special_tokens);
    write_named_tag(writer, 0, false, special_tokens);
    proof {
        let o = open_tag(name_ai());
        let c = ai_content_text(ai_section@);
        lemma_encode_utf8_concat(o, c);
        lemma_encode_utf8_concat(o + c, close_tag(name_ai()));
    }
    assert(writer@ =~= old(writer)@ + encode_utf8(ai_section_text(ai_section@)));
}

/// Writes a complete prompt section, `<prompt>` ... `</prompt>`, without formatting.
pub fn tag_write_prompt_section(
    writer: &mut Vec<u8>,
    prompt_section: &[SamplePromptEnum],
    special_tokens: &[String],
)
    ensures
        final(writer)@ == old(writer)@ + encode_utf8(prompt_section_text(prompt_section@)),
{
    write_named_tag(writer, 1, true, special_tokens);
    tag_write_prompt_content(writer, prompt_section, special_tokens);
    write_named_tag(writer, 1, false, special_tokens);
    proof {
        let o = open_tag(name_prompt());
        let c = prompt_content_text(prompt_section@);
        lemma_encode_utf8_concat(o, c);
        lemma_encode_utf8_concat(o + c, close_tag(name_prompt()));
    }
    assert(writer@ =~= old(writer)@ + encode_utf8(prompt_section_text(prompt_section@)));
}

} // verus!
