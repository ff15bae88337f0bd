//! Byte lengths of tags and items, and the offset of the last AI item's content, computed
//! without writing the section itself.

use vstd::prelude::*;
use vstd::utf8::encode_utf8;
use crate::text::lemma_encode_utf8_concat;
use crate::sample::{SampleAiEnum, SampleIndent, SampleLineBreak};
use crate::sample::language::{lang_name, indent_value};
use crate::tag::render::{
    open_tag, close_tag, simple_tag, code_open_tag, line_break_tag,
    tag_write_tag, tag_write_code_open, tag_write_code_close, tag_write_line_break,
};
use crate::tag::sections::{
    name_ai, name_text, name_source, ai_item_opening, ai_item_body, ai_item_closing, ai_item_text,
    ai_content_text, ai_section_text,
};

verus! {

/// The bytes before the content of the last AI item of a section: `<ai>`, every earlier
/// item, and the opening tag of the last one.
pub open spec fn last_ai_start_prefix(items: Seq<SampleAiEnum>) -> Seq<char> {
    if items.len() == 0 {
        open_tag(name_ai())
    } else {
        open_tag(name_ai()) + ai_content_text(items.drop_last()) + ai_item_opening(items.last())
    }
}

/// The content of a section splits at any index into the content of the two halves.
pub proof fn lemma_ai_content_split(items: Seq<SampleAiEnum>, i: int)
    requires
        0 <= i <= items.len(),
    ensures
        ai_content_text(items) == ai_content_text(items.subrange(0, i)) + ai_content_text(
            items.subrange(i, items.len() as int),
        ),
    decreases items.len(),
{
    if i == items.len() {
        assert(items.subrange(0, i) =~= items);
        assert(items.subrange(i, items.len() as int) =~= Seq::<SampleAiEnum>::empty());
        assert(ai_content_text(items) + ai_content_text(Seq::<SampleAiEnum>::empty()) =~= ai_content_text(items));
    } else {
        let front = items.drop_last();
        lemma_ai_content_split(front, i);
        assert(front.subrange(0, i) =~= items.subrange(0, i));
        let back = items.subrange(i, items.len() as int);
        assert(back.drop_last() =~= front.subrange(i, front.len() as int));
        assert(back.last() == items.last());
        assert(ai_content_text(items) =~= ai_content_text(items.subrange(0, i)) + ai_content_text(back));
    }
}

/// Length of the UTF-8 encoding of a concatenation.
pub proof fn lemma_encoded_len_concat(a: Seq<char>, b: Seq<char>)
    ensures
        encode_utf8(a + b).len() == encode_utf8(a).len() + encode_utf8(b).len(),
{
    lemma_encode_utf8_concat(a, b);
}

/// The byte length of an opening or closing tag.
pub fn get_tag_byte_length(tag_name: &str, is_opening: bool, special_tokens: &[String]) -> (r: usize)
    ensures
        r == encode_utf8(simple_tag(tag_name@, is_opening)).len(),
{
    let mut buffer: Vec<u8> = Vec::new();
    tag_write_tag(&mut buffer, tag_name, is_opening, special_tokens);
    assert(buffer@ =~= encode_utf8(simple_tag(tag_name@, is_opening)));
    buffer.len()
}

/// The byte length of a code block's opening tag.
pub fn get_code_open_byte_length(
    lang: &str,
    inline: bool,
    indent: SampleIndent,
    special_tokens: &[String],
) -> (r: usize)
    ensures
        r == encode_utf8(code_open_tag(lang@, inline, indent_value(indent))).len(),
{
    let mut buffer: Vec<u8> = Vec::new();
    tag_write_code_open(&mut buffer, lang, inline, indent, special_tokens);
    assert(buffer@ =~= encode_utf8(code_open_tag(lang@, inline, indent_value(indent))));
    buffer.len()
}

/// The byte length of a code block's closing tag.
pub fn get_code_close_byte_length(lang: &str, special_tokens: &[String]) -> (r: usize)
    ensures
        r == encode_utf8(close_tag(lang@)).len(),
{
    let mut buffer: Vec<u8> = Vec::new();
    tag_write_code_close(&mut buffer, lang, special_tokens);
    assert(buffer@ =~= encode_utf8(close_tag(lang@)));
    buffer.len()
}

/// The byte length of a line-break tag.
pub fn get_line_break_byte_length(line_break: &SampleLineBreak, special_tokens: &[String]) -> (r: usize)
    ensures
        r == encode_utf8(line_break_tag(line_break.count)).len(),
{
    let mut buffer: Vec<u8> = Vec::new();
    tag_write_line_break(&mut buffer, line_break, special_tokens);
    assert(buffer@ =~= encode_utf8(line_break_tag(line_break.count)));
    buffer.len()
}

/// The byte length of the text or source tag pair around `content`.
fn wrapped_length(which: u8, content: &str, special_tokens: &[String]) -> (r: usize)
    requires
        2 <= which < 4,
        encode_utf8(
            open_tag(if which == 2 { name_text() } else { name_source() }) + content@ + close_tag(
                if which == 2 {
                    name_text()
                } else {
                    name_source()
                },
            ),
        ).len() <= usize::MAX,
    ensures
        r == encode_utf8(
            open_tag(if which == 2 { name_text() } else { name_source() }) + content@ + close_tag(
                if which == 2 {
                    name_text()
                } else {
                    name_source()
                },
            ),
        ).len(),
{
    let ghost name = if which == 2 { name_text() } else { name_source() };
    let (open_len, close_len) = if which == 2 {
        proof { reveal_strlit("text"); }
        assert("text"@ =~= name_text());
        (get_tag_byte_length("text", true, special_tokens), get_tag_byte_length("text", false, special_tokens))
    } else {
        proof { reveal_strlit("source"); }
        assert("source"@ =~= name_source());
        (get_tag_byte_length("source", true, special_tokens), get_tag_byte_length("source", false, special_tokens))
    };
    proof {
        lemma_encoded_len_concat(open_tag(name), content@);
        lemma_encoded_len_concat(open_tag(name) + content@, close_tag(name));
    }
    let mut length: usize = 0;
    length = length + open_len;
    length = length + content.len();
    length = length + close_len;
    length
}

/// The exact number of bytes that writing `item` produces.
pub fn tag_get_byte_length_ai_item(item: &SampleAiEnum, special_tokens: &[String]) -> (r: usize)
    requires
        encode_utf8(ai_item_text(*item)).len() <= usize::MAX,
    ensures
        r == encode_utf8(ai_item_text(*item)).len(),
{
    match item {
        SampleAiEnum::Text(text) => {
            assert(ai_item_text(*item) =~= open_tag(name_text()) + text@ + close_tag(name_text()));
            wrapped_length(2, text.as_str(), special_tokens)
        },
        SampleAiEnum::Source(source) => {
            assert(ai_item_text(*item) =~= open_tag(name_source()) + source@ + close_tag(name_source()));
            wrapped_length(3, source.as_str(), special_tokens)
        },
        SampleAiEnum::Code(code) => {
            let ghost o = code_open_tag(lang_name(code.lang), code.inline, indent_value(code.indent));
            let ghost c = close_tag(lang_name(code.lang));
            proof {
                lemma_encoded_len_concat(o, code.content@);
                lemma_encoded_len_concat(o + code.content@, c);
            }
            let mut length: usize = 0;
            length = length + get_code_open_byte_length(
                code.lang.as_str(),
                code.inline,
                code.indent,
                special_tokens,
            );
            length = length + code.content.as_str().len();
            length = length + get_code_close_byte_length(code.lang.as_str(), special_tokens);
            length
        },
        SampleAiEnum::LineBreak(line_break) => {
            assert(ai_item_text(*item) =~= line_break_tag(line_break.count));
            get_line_break_byte_length(line_break, special_tokens)
        },
    }
}

/// The byte length of the opening part of an AI item.
pub fn get_ai_item_opening_byte_length(item: &SampleAiEnum, special_tokens: &[String]) -> (r: usize)
    ensures
        r == encode_utf8(ai_item_opening(*item)).len(),
{
    let mut buffer: Vec<u8> = Vec::new();
    match item {
        SampleAiEnum::Text(_) => {
            proof { reveal_strlit("text"); }
            assert("text"@ =~= name_text());
            tag_write_tag(&mut buffer, "text", true, special_tokens);
        },
        SampleAiEnum::Source(_) => {
            proof { reveal_strlit("source"); }
            assert("source"@ =~= name_source());
            tag_write_tag(&mut buffer, "source", true, special_tokens);
        },
        SampleAiEnum::Code(code) => {
            tag_write_code_open(
                &mut buffer,
                code.lang.as_str(),
                code.inline,
                code.indent,
                special_tokens,
            );
        },
        SampleAiEnum::LineBreak(line_break) => {
            tag_write_line_break(&mut buffer, line_break, special_tokens);
        },
    }
    assert(buffer@ =~= encode_utf8(ai_item_opening(*item)));
    buffer.len()
}

/// The byte offset, from the start of an AI section, at which the content of its last item
/// begins.
pub fn tag_get_byte_offset_last_ai_start(ai_section: &[SampleAiEnum], special_tokens: &[String]) -> (r: usize)
    requires
        encode_utf8(ai_section_text(ai_section@)).len() <= usize::MAX,
    ensures
        r == encode_utf8(last_ai_start_prefix(ai_section@)).len(),
{
    let ghost items = ai_section@;
    let ghost total = encode_utf8(ai_section_text(items)).len();
    proof {
        lemma_encoded_len_concat(open_tag(name_ai()) + ai_content_text(items), close_tag(name_ai()));
        lemma_encoded_len_concat(open_tag(name_ai()), ai_content_text(items));
    }
    proof { reveal_strlit("ai"); }
    assert("ai"@ =~= name_ai());
    let mut offset: usize = get_tag_byte_length("ai", true, special_tokens);
    let n = ai_section.len();
    if n > 1 {
        let mut i: usize = 0;
        assert(items.subrange(0, 0) =~= Seq::<SampleAiEnum>::empty());
        while i < n - 1
            invariant
                n == items.len(),
                n > 1,
                i <= n - 1,
                items == ai_section@,
                total == encode_utf8(ai_section_text(items)).len(),
                total <= usize::MAX,
                total == encode_utf8(open_tag(name_ai()) + ai_content_text(items)).len()
                    + encode_utf8(close_tag(name_ai())).len(),
                encode_utf8(open_tag(name_ai()) + ai_content_text(items)).len() == encode_utf8(
                    open_tag(name_ai()),
                ).len() + encode_utf8(ai_content_text(items)).len(),
                offset == encode_utf8(open_tag(name_ai())).len() + encode_utf8(
                    ai_content_text(items.subrange(0, i as int)),
                ).len(),
            decreases n - 1 - i,
        {
            proof {
                let next = items.subrange(0, i + 1);
                assert(next.drop_last() =~= items.subrange(0, i as int));
                assert(next.last() == items[i as int]);
                lemma_encoded_len_concat(ai_content_text(items.subrange(0, i as int)), ai_item_text(items[i as int]));
                lemma_ai_content_split(items, i + 1);
                lemma_encoded_len_concat(ai_content_text(next), ai_content_text(items.subrange(i + 1, n as int)));
            }
            let item_len = tag_get_byte_length_ai_item(&ai_section[i], special_tokens);
            offset = offset + item_len;
            i = i + 1;
        }
        assert(items.subrange(0, n - 1) =~= items.drop_last());
    }
    if n > 0 {
        let ghost front = items.drop_last();
        proof {
            if n == 1 {
                assert(front =~= Seq::<SampleAiEnum>::empty());
            }
            assert(items.drop_last().push(items.last()) =~= items);
            assert(ai_content_text(items) == ai_content_text(front) + ai_item_text(items.last()));
            lemma_encoded_len_concat(ai_content_text(front), ai_item_text(items.last()));
            lemma_encoded_len_concat(ai_item_opening(items.last()) + ai_item_body(items.last()), ai_item_closing(items.last()));
            lemma_encoded_len_concat(ai_item_opening(items.last()), ai_item_body(items.last()));
            lemma_encoded_len_concat(open_tag(name_ai()), ai_content_text(front));
            lemma_encoded_len_concat(open_tag(name_ai()) + ai_content_text(front), ai_item_opening(items.last()));
        }
        let opening = get_ai_item_opening_byte_length(&ai_section[n - 1], special_tokens);
        offset = offset + opening;
    }
    offset
}

/// The length of one item is exactly what writing a content of that single item produces.
pub proof fn lemma_item_length_is_single_item_content(item: SampleAiEnum)
    ensures
        encode_utf8(ai_content_text(seq![item])).len() == encode_utf8(ai_item_text(item)).len(),
{
    let one = seq![item];
    assert(one.drop_last() =~= Seq::<SampleAiEnum>::empty());
    assert(one.last() == item);
    assert(ai_content_text(one.drop_last()) =~= Seq::<char>::empty());
    assert(ai_content_text(one) =~= ai_item_text(item));
}

/// The bytes of an AI section are: the bytes up to the offset of its last item's content,
/// then that content, then the last item's closing tag and `</ai>`. So the offset computed
/// above points at the first byte of the last AI response.
pub proof fn lemma_last_ai_start_splits_section(items: Seq<SampleAiEnum>)
    requires
        items.len() > 0,
    ensures
        encode_utf8(ai_section_text(items)) == encode_utf8(last_ai_start_prefix(items))
            + encode_utf8(ai_item_body(items.last())) + encode_utf8(
            ai_item_closing(items.last()) + close_tag(name_ai()),
        ),
{
    let last = items.last();
    let front = items.drop_last();
    assert(items.drop_last().push(items.last()) =~= items);
    let p = last_ai_start_prefix(items);
    assert(ai_section_text(items) =~= p + ai_item_body(last) + (ai_item_closing(last) + close_tag(name_ai())));
    lemma_encode_utf8_concat(p, ai_item_body(last));
    lemma_encode_utf8_concat(p + ai_item_body(last), ai_item_closing(last) + close_tag(name_ai()));
}

} // verus!
