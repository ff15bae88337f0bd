//! The text of every tag of the corpus format, and the functions that write one tag.

use vstd::prelude::*;
use vstd::utf8::encode_utf8;
use crate::text::{push_str_bytes, string_push};
use crate::sample::{SampleIndent, SampleLineBreak};
use crate::sample::language::indent_value;

verus! {

/// The character of a decimal digit.
pub open spec fn digit_char(d: int) -> char {
    if d == 0 {
        '0'
    } else if d == 1 {
        '1'
    } else if d == 2 {
        '2'
    } else if d == 3 {
        '3'
    } else if d == 4 {
        '4'
    } else if d == 5 {
        '5'
    } else if d == 6 {
        '6'
    } else if d == 7 {
        '7'
    } else if d == 8 {
        '8'
    } else {
        '9'
    }
}

/// The decimal notation of a natural number, without leading zeros.
pub open spec fn decimal(n: nat) -> Seq<char>
    decreases n,
{
    if n < 10 {
        seq![digit_char(n as int)]
    } else {
        decimal(n / 10).push(digit_char((n % 10) as int))
    }
}

/// `<name>`
pub open spec fn open_tag(name: Seq<char>) -> Seq<char> {
    seq!['<'] + name + seq!['>']
}

/// `</name>`
pub open spec fn close_tag(name: Seq<char>) -> Seq<char> {
    seq!['<', '/'] + name + seq!['>']
}

/// The opening or closing tag of `name`.
pub open spec fn simple_tag(name: Seq<char>, is_opening: bool) -> Seq<char> {
    if is_opening {
        open_tag(name)
    } else {
        close_tag(name)
    }
}

/// The opening tag of a code block: `inline` wins over the indent, and an indent of
/// zero writes no attribute.
pub open spec fn code_open_tag(lang: Seq<char>, inline: bool, indent: u8) -> Seq<char> {
    if inline {
        seq!['<'] + lang + " inline=\"true\">"@
    } else if indent > 0 {
        seq!['<'] + lang + " indent=\""@ + decimal(indent as nat) + "\">"@
    } else {
        open_tag(lang)
    }
}

/// The tag of a run of line breaks: a count of two or more is written out.
pub open spec fn line_break_tag(count: u8) -> Seq<char> {
    if count >= 2 {
        "<line-break count=\""@ + decimal(count as nat) + "\" />"@
    } else {
        "<line-break />"@
    }
}

/// The digit character of `d`.
pub fn digit_char_of(d: u8) -> (c: char)
    requires
        d < 10,
    ensures
        c == digit_char(d as int),
{
    if d == 0 {
        '0'
    } else if d == 1 {
        '1'
    } else if d == 2 {
        '2'
    } else if d == 3 {
        '3'
    } else if d == 4 {
        '4'
    } else if d == 5 {
        '5'
    } else if d == 6 {
        '6'
    } else if d == 7 {
        '7'
    } else if d == 8 {
        '8'
    } else {
        '9'
    }
}

/// Appends the decimal notation of `n` to `s`.
pub fn push_decimal(s: &mut String, n: u8)
    ensures
        final(s)@ == old(s)@ + decimal(n as nat),
{
    proof {
        reveal_with_fuel(decimal, 3);
    }
    if n >= 100 {
        string_push(s, digit_char_of(n / 100));
        string_push(s, digit_char_of((n / 10) % 10));
        string_push(s, digit_char_of(n % 10));
        assert(decimal((n / 10) as nat) == decimal((n / 100) as nat).push(
            digit_char(((n / 10) % 10) as int),
        ));
    } else if n >= 10 {
        string_push(s, digit_char_of(n / 10));
        string_push(s, digit_char_of(n % 10));
    } else {
        string_push(s, digit_char_of(n));
    }
    assert(s@ =~= old(s)@ + decimal(n as nat));
}

/// The index of the first special token equal to `tag`, if there is one.
pub fn find_special_token(special_tokens: &[String], tag: &String) -> (r: Option<usize>)
    ensures
        r matches Some(i) ==> i < special_tokens@.len() && special_tokens@[i as int]@ == tag@
            && forall|j: int| 0 <= j < i ==> special_tokens@[j]@ != tag@,
        r is None ==> forall|j: int| 0 <= j < special_tokens@.len() ==> special_tokens@[j]@ != tag@,
{
    let mut i: usize = 0;
    while i < special_tokens.len()
        invariant
            i <= special_tokens@.len(),
            forall|j: int| 0 <= j < i ==> special_tokens@[j]@ != tag@,
        decreases special_tokens@.len() - i,
    {
        if special_tokens[i] == *tag {
            return Some(i);
        }
        i = i + 1;
    }
    None
}

/// Writes `tag`, taking the bytes of the equal special token where the list holds one.
pub fn write_special_or_tag(writer: &mut Vec<u8>, tag: &String, special_tokens: &[String])
    ensures
        final(writer)@ == old(writer)@ + encode_utf8(tag@),
{
    match find_special_token(special_tokens, tag) {
        Some(i) => push_str_bytes(writer, special_tokens[i].as_str()),
        None => push_str_bytes(writer, tag.as_str()),
    }
}

/// The text of an opening or closing tag, as a string.
pub fn simple_tag_string(tag_name: &str, is_opening: bool) -> (s: String)
    ensures
        s@ == simple_tag(tag_name@, is_opening),
{
    let mut tag = String::new();
    string_push(&mut tag, '<');
    if !is_opening {
        string_push(&mut tag, '/');
    }
    tag.append(tag_name);
    string_push(&mut tag, '>');
    assert(tag@ =~= simple_tag(tag_name@, is_opening));
    tag
}

/// Writes an opening or closing tag, e.g. `<sample>` or `</sample>`, without formatting.
///
/// The tag is looked up among the special tokens first; the bytes written are those of
/// the tag either way.
pub fn tag_write_tag(
    writer: &mut Vec<u8>,
    tag_name: &str,
    is_opening: bool,
    special_tokens: &[String],
)
    ensures
        final(writer)@ == old(writer)@ + encode_utf8(simple_tag(tag_name@, is_opening)),
{
    let tag = simple_tag_string(tag_name, is_opening);
    write_special_or_tag(writer, &tag, special_tokens);
}

/// The text of a code block's opening tag, as a string.
pub fn code_open_tag_string(lang: &str, inline: bool, indent: SampleIndent) -> (s: String)
    ensures
        s@ == code_open_tag(lang@, inline, indent_value(indent)),
{
    let mut tag = String::new();
    string_push(&mut tag, '<');
    tag.append(lang);
    let level = indent.as_u8();
    if inline {
        tag.append(" inline=\"true\">");
    } else if level > 0 {
        tag.append(" indent=\"");
        push_decimal(&mut tag, level);
        tag.append("\">");
    } else {
        string_push(&mut tag, '>');
    }
    assert(tag@ =~= code_open_tag(lang@, inline, indent_value(indent)));
    tag
}

/// Writes the opening tag of a code block (`<lang>`, `<lang inline="true">` or
/// `<lang indent="n">`) without formatting.
pub fn tag_write_code_open(
    writer: &mut Vec<u8>,
    lang: &str,
    inline: bool,
    indent: SampleIndent,
    special_tokens: &[String],
)
    ensures
        final(writer)@ == old(writer)@ + encode_utf8(code_open_tag(lang@, inline, indent_value(indent))),
{
    let tag = code_open_tag_string(lang, inline, indent);
    write_special_or_tag(writer, &tag, special_tokens);
}

/// Writes the closing tag of a code block, `</lang>`, without formatting.
pub fn tag_write_code_close(writer: &mut Vec<u8>, lang: &str, special_tokens: &[String])
    ensures
        final(writer)@ == old(writer)@ + encode_utf8(close_tag(lang@)),
{
    let tag = simple_tag_string(lang, false);
    write_special_or_tag(writer, &tag, special_tokens);
}

/// The text of a line-break tag, as a string.
pub fn line_break_tag_string(count: u8) -> (s: String)
    ensures
        s@ == line_break_tag(count),
{
    let mut tag = String::new();
    if count >= 2 {
        tag.append("<line-break count=\"");
        push_decimal(&mut tag, count);
        tag.append("\" />");
    } else {
        tag.append("<line-break />");
    }
    assert(tag@ =~= line_break_tag(count));
    tag
}

/// Writes a line-break tag (`<line-break />` or `<line-break count="n" />`) without formatting.
pub fn tag_write_line_break(
    writer: &mut Vec<u8>,
    line_break: &SampleLineBreak,
    special_tokens: &[String],
)
    ensures
        final(writer)@ == old(writer)@ + encode_utf8(line_break_tag(line_break.count)),
{
    let tag = line_break_tag_string(line_break.count);
    write_special_or_tag(writer, &tag, special_tokens);
}

/// A code block's closing tag is the closing tag of the same name.
pub proof fn lemma_code_close_is_closing_tag(lang: Seq<char>)
    ensures
        close_tag(lang) == simple_tag(lang, false),
{
}

} // verus!
