//! A tag writer with a binary mode (no formatting) and a pretty mode (indentation and
//! newlines).

use vstd::prelude::*;
use vstd::utf8::encode_utf8;
use crate::text::{push_str_bytes, push_bytes, string_push};
use crate::sample::{SampleIndent, SampleLineBreak};
use crate::sample::language::indent_value;
use crate::tag::render::{
    simple_tag, code_open_tag, close_tag, line_break_tag,
    tag_write_tag, tag_write_code_open, tag_write_code_close, tag_write_line_break,
};

verus! {

/// `unit` repeated `level` times.
pub open spec fn indentation(unit: Seq<char>, level: nat) -> Seq<char>
    decreases level,
{
    if level == 0 {
        seq![]
    } else {
        indentation(unit, (level - 1) as nat) + unit
    }
}

/// `n` spaces.
pub open spec fn spaces(n: nat) -> Seq<char> {
    Seq::new(n, |i: int| ' ')
}

/// The indentation that is written before a tag: only in pretty mode at the start of a line.
pub open spec fn pending_indent(pretty: bool, at_line_start: bool, unit: Seq<char>, level: nat) -> Seq<u8> {
    if pretty && at_line_start {
        encode_utf8(indentation(unit, level))
    } else {
        seq![]
    }
}

/// A tag writer that collects its output in a byte buffer.
///
/// In binary mode (`pretty == false`) it writes tags without spaces or newlines. In pretty
/// mode it indents each line by the current level and can end lines after tags.
pub struct TagWriter {
    writer: Vec<u8>,
    pub pretty: bool,
    indent_level: usize,
    indent_string: String,
    at_line_start: bool,
}

impl TagWriter {
    /// Everything written so far (including what the buffer held at creation).
    pub closed spec fn bytes(&self) -> Seq<u8> {
        self.writer@
    }

    /// The current indentation level.
    pub closed spec fn level(&self) -> nat {
        self.indent_level as nat
    }

    /// The characters written for one level of indentation.
    pub closed spec fn unit(&self) -> Seq<char> {
        self.indent_string@
    }

    /// Whether nothing has been written on the current line yet.
    pub closed spec fn at_line_start(&self) -> bool {
        self.at_line_start
    }

    /// Whether the writer is in pretty mode.
    pub closed spec fn is_pretty(&self) -> bool {
        self.pretty
    }

    /// The indentation a write at this point would start with.
    pub open spec fn pending(&self) -> Seq<u8> {
        pending_indent(self.is_pretty(), self.at_line_start(), self.unit(), self.level())
    }

    /// Creates a writer appending to `writer`, with `indent_spaces` spaces per level.
    pub fn new(writer: Vec<u8>, pretty: bool, indent_spaces: usize) -> (w: TagWriter)
        ensures
            w.bytes() == writer@,
            w.is_pretty() == pretty,
            w.level() == 0,
            w.unit() == spaces(indent_spaces as nat),
            w.at_line_start(),
    {
        let mut indent_string = String::new();
        let mut i: usize = 0;
        while i < indent_spaces
            invariant
                i <= indent_spaces,
                indent_string@ == spaces(i as nat),
            decreases indent_spaces - i,
        {
            string_push(&mut indent_string, ' ');
            i = i + 1;
            assert(indent_string@ =~= spaces(i as nat));
        }
        TagWriter { writer, pretty, indent_level: 0, indent_string, at_line_start: true }
    }

    /// The bytes written so far.
    pub fn get_ref(&self) -> (r: &Vec<u8>)
        ensures
            r@ == self.bytes(),
    {
        &self.writer
    }

    /// Gives the buffer back.
    pub fn into_inner(self) -> (r: Vec<u8>)
        ensures
            r@ == self.bytes(),
    {
        self.writer
    }

    /// Increases the indentation level (pretty mode only).
    pub fn indent(&mut self)
        requires
            old(self).is_pretty() ==> old(self).level() < usize::MAX,
        ensures
            final(self).level() == if old(self).is_pretty() { old(self).level() + 1 } else { old(self).level() },
            final(self).bytes() == old(self).bytes(),
            final(self).is_pretty() == old(self).is_pretty(),
            final(self).unit() == old(self).unit(),
            final(self).at_line_start() == old(self).at_line_start(),
    {
        if self.pretty {
            self.indent_level = self.indent_level + 1;
        }
    }

    /// Decreases the indentation level (pretty mode only, never below zero).
    pub fn outdent(&mut self)
        ensures
            final(self).level() == if old(self).is_pretty() && old(self).level() > 0 {
                (old(self).level() - 1) as nat
            } else {
                old(self).level()
            },
            final(self).bytes() == old(self).bytes(),
            final(self).is_pretty() == old(self).is_pretty(),
            final(self).unit() == old(self).unit(),
            final(self).at_line_start() == old(self).at_line_start(),
    {
        if self.pretty && self.indent_level > 0 {
            self.indent_level = self.indent_level - 1;
        }
    }

    /// Writes the indentation of the current level (pretty mode, at the start of a line only).
    pub fn write_indent(&mut self)
        ensures
            final(self).bytes() == old(self).bytes() + old(self).pending(),
            final(self).level() == old(self).level(),
            final(self).is_pretty() == old(self).is_pretty(),
            final(self).unit() == old(self).unit(),
            final(self).at_line_start() == old(self).at_line_start(),
    {
        if self.pretty && self.at_line_start {
            let n = self.indent_level;
            let mut i: usize = 0;
            while i < n
                invariant
                    i <= n,
                    n == old(self).indent_level,
                    self.pretty == old(self).is_pretty(),
                    self.indent_level == old(self).indent_level,
                    self.indent_string == old(self).indent_string,
                    self.at_line_start == old(self).at_line_start,
                    self.writer@ == old(self).writer@ + encode_utf8(
                        indentation(old(self).indent_string@, i as nat),
                    ),
                decreases n - i,
            {
                let ghost before = self.writer@;
                push_str_bytes(&mut self.writer, self.indent_string.as_str());
                proof {
                    crate::text::lemma_encode_utf8_concat(
                        indentation(old(self).indent_string@, i as nat),
                        old(self).indent_string@,
                    );
                }
                i = i + 1;
                assert(self.writer@ =~= old(self).writer@ + encode_utf8(
                    indentation(old(self).indent_string@, i as nat),
                ));
            }
        } else {
            assert(self.writer@ =~= old(self).writer@ + old(self).pending());
        }
    }

    /// Ends the current line (pretty mode only).
    pub fn write_newline(&mut self)
        ensures
            final(self).bytes() == old(self).bytes() + if old(self).is_pretty() {
                seq![10u8]
            } else {
                Seq::<u8>::empty()
            },
            final(self).at_line_start() == (old(self).is_pretty() || old(self).at_line_start()),
            final(self).level() == old(self).level(),
            final(self).is_pretty() == old(self).is_pretty(),
            final(self).unit() == old(self).unit(),
    {
        if self.pretty {
            let newline: [u8; 1] = [10u8];
            push_bytes(&mut self.writer, newline.as_slice());
            assert(newline@ =~= seq![10u8]);
            self.at_line_start = true;
        } else {
            assert(self.writer@ =~= old(self).writer@ + Seq::<u8>::empty());
        }
    }

    /// Writes raw text, indented first when it starts a line in pretty mode.
    pub fn write_text(&mut self, text: &str)
        ensures
            final(self).bytes() == old(self).bytes() + old(self).pending() + encode_utf8(text@),
            !final(self).at_line_start(),
            final(self).level() == old(self).level(),
            final(self).is_pretty() == old(self).is_pretty(),
            final(self).unit() == old(self).unit(),
    {
        if self.pretty && self.at_line_start {
            self.write_indent();
        } else {
            assert(old(self).pending() =~= Seq::<u8>::empty());
        }
        push_str_bytes(&mut self.writer, text);
        self.at_line_start = false;
    }

    /// Writes an opening or closing tag (indented in pretty mode).
    pub fn write_simple_tag(&mut self, tag_name: &str, is_opening: bool, special_tokens: &[String])
        ensures
            final(self).bytes() == old(self).bytes() + old(self).pending() + encode_utf8(
                simple_tag(tag_name@, is_opening),
            ),
            final(self).at_line_start() == (!old(self).is_pretty() && old(self).at_line_start()),
            final(self).level() == old(self).level(),
            final(self).is_pretty() == old(self).is_pretty(),
            final(self).unit() == old(self).unit(),
    {
        if self.pretty {
            self.write_indent();
            let mut temp: Vec<u8> = Vec::new();
            tag_write_tag(&mut temp, tag_name, is_opening, special_tokens);
            push_bytes(&mut self.writer, temp.as_slice());
            self.at_line_start = false;
        } else {
            tag_write_tag(&mut self.writer, tag_name, is_opening, special_tokens);
            assert(self.writer@ =~= old(self).writer@ + old(self).pending() + encode_utf8(
                simple_tag(tag_name@, is_opening),
            ));
        }
    }

    /// Writes an opening tag, then a newline when asked (pretty mode).
    pub fn write_simple_tag_open(&mut self, tag_name: &str, special_tokens: &[String], newline_after: bool)
        ensures
            final(self).bytes() == old(self).bytes() + old(self).pending() + encode_utf8(
                simple_tag(tag_name@, true),
            ) + if old(self).is_pretty() && newline_after {
                seq![10u8]
            } else {
                Seq::<u8>::empty()
            },
            final(self).at_line_start() == if old(self).is_pretty() {
                newline_after
            } else {
                old(self).at_line_start()
            },
            final(self).level() == old(self).level(),
            final(self).is_pretty() == old(self).is_pretty(),
            final(self).unit() == old(self).unit(),
    {
        self.write_simple_tag(tag_name, true, special_tokens);
        if self.pretty && newline_after {
            self.write_newline();
        }
        assert(self.bytes() =~= old(self).bytes() + old(self).pending() + encode_utf8(
            simple_tag(tag_name@, true),
        ) + if old(self).is_pretty() && newline_after {
            seq![10u8]
        } else {
            Seq::<u8>::empty()
        });
    }

    /// Writes a closing tag, then a newline when asked (pretty mode).
    pub fn write_simple_tag_close(&mut self, tag_name: &str, special_tokens: &[String], newline_after: bool)
        ensures
            final(self).bytes() == old(self).bytes() + old(self).pending() + encode_utf8(
                simple_tag(tag_name@, false),
            ) + if old(self).is_pretty() && newline_after {
                seq![10u8]
            } else {
                Seq::<u8>::empty()
            },
            final(self).at_line_start() == if old(self).is_pretty() {
                newline_after
            } else {
                old(self).at_line_start()
            },
            final(self).level() == old(self).level(),
            final(self).is_pretty() == old(self).is_pretty(),
            final(self).unit() == old(self).unit(),
    {
        self.write_simple_tag(tag_name, false, special_tokens);
        if self.pretty && newline_after {
            self.write_newline();
        }
        assert(self.bytes() =~= old(self).bytes() + old(self).pending() + encode_utf8(
            simple_tag(tag_name@, false),
        ) + if old(self).is_pretty() && newline_after {
            seq![10u8]
        } else {
            Seq::<u8>::empty()
        });
    }

    /// Writes `<tag_name>content</tag_name>`, indented and followed by a newline when asked in
    /// pretty mode.
    pub fn write_tag_pair(
        &mut self,
        tag_name: &str,
        content: &str,
        special_tokens: &[String],
        newline_after: bool,
    )
        ensures
            final(self).bytes() == old(self).bytes() + old(self).pending() + encode_utf8(
                simple_tag(tag_name@, true),
            ) + encode_utf8(content@) + encode_utf8(simple_tag(tag_name@, false)) + if old(self).is_pretty()
                && newline_after {
                seq![10u8]
            } else {
                Seq::<u8>::empty()
            },
            final(self).at_line_start() == if old(self).is_pretty() {
                newline_after
            } else {
                old(self).at_line_start()
            },
            final(self).level() == old(self).level(),
            final(self).is_pretty() == old(self).is_pretty(),
            final(self).unit() == old(self).unit(),
    {
        if self.pretty {
            self.write_indent();
            let mut temp: Vec<u8> = Vec::new();
            tag_write_tag(&mut temp, tag_name, true, special_tokens);
            push_bytes(&mut self.writer, temp.as_slice());
            push_str_bytes(&mut self.writer, content);
            let mut temp2: Vec<u8> = Vec::new();
            tag_write_tag(&mut temp2, tag_name, false, special_tokens);
            push_bytes(&mut self.writer, temp2.as_slice());
            if newline_after {
                self.write_newline();
            } else {
                self.at_line_start = false;
            }
        } else {
            self.write_simple_tag(tag_name, true, special_tokens);
            push_str_bytes(&mut self.writer, content);
            self.write_simple_tag(tag_name, false, special_tokens);
        }
        assert(self.bytes() =~= old(self).bytes() + old(self).pending() + encode_utf8(
            simple_tag(tag_name@, true),
        ) + encode_utf8(content@) + encode_utf8(simple_tag(tag_name@, false)) + if old(self).is_pretty()
            && newline_after {
            seq![10u8]
        } else {
            Seq::<u8>::empty()
        });
    }

    /// Writes a code block's opening tag (indented in pretty mode).
    pub fn write_code_open(
        &mut self,
        lang: &str,
        inline: bool,
        indent: SampleIndent,
        special_tokens: &[String],
    )
        ensures
            final(self).bytes() == old(self).bytes() + old(self).pending() + encode_utf8(
                code_open_tag(lang@, inline, indent_value(indent)),
            ),
            final(self).at_line_start() == (!old(self).is_pretty() && old(self).at_line_start()),
            final(self).level() == old(self).level(),
            final(self).is_pretty() == old(self).is_pretty(),
            final(self).unit() == old(self).unit(),
    {
        if self.pretty {
            self.write_indent();
            let mut temp: Vec<u8> = Vec::new();
            tag_write_code_open(&mut temp, lang, inline, indent, special_tokens);
            push_bytes(&mut self.writer, temp.as_slice());
            self.at_line_start = false;
        } else {
            tag_write_code_open(&mut self.writer, lang, inline, indent, special_tokens);
            assert(self.writer@ =~= old(self).writer@ + old(self).pending() + encode_utf8(
                code_open_tag(lang@, inline, indent_value(indent)),
            ));
        }
    }

    /// Writes a code block's closing tag (never indented), then a newline when asked in pretty
    /// mode.
    pub fn write_code_close(&mut self, lang: &str, special_tokens: &[String], newline_after: bool)
        ensures
            final(self).bytes() == old(self).bytes() + encode_utf8(close_tag(lang@)) + if old(self).is_pretty()
                && newline_after {
                seq![10u8]
            } else {
                Seq::<u8>::empty()
            },
            final(self).at_line_start() == if old(self).is_pretty() {
                newline_after
            } else {
                old(self).at_line_start()
            },
            final(self).level() == old(self).level(),
            final(self).is_pretty() == old(self).is_pretty(),
            final(self).unit() == old(self).unit(),
    {
        if self.pretty {
            let mut temp: Vec<u8> = Vec::new();
            tag_write_code_close(&mut temp, lang, special_tokens);
            push_bytes(&mut self.writer, temp.as_slice());
            if newline_after {
                self.write_newline();
            } else {
                self.at_line_start = false;
            }
        } else {
            tag_write_code_close(&mut self.writer, lang, special_tokens);
        }
        assert(self.bytes() =~= old(self).bytes() + encode_utf8(close_tag(lang@)) + if old(self).is_pretty()
            && newline_after {
            seq![10u8]
        } else {
            Seq::<u8>::empty()
        });
    }

    /// Writes a line-break tag (indented in pretty mode), then a newline when asked.
    pub fn write_line_break(&mut self, line_break: &SampleLineBreak, special_tokens: &[String], newline_after: bool)
        ensures
            final(self).bytes() == old(self).bytes() + old(self).pending() + encode_utf8(
                line_break_tag(line_break.count),
            ) + if old(self).is_pretty() && newline_after {
                seq![10u8]
            } else {
                Seq::<u8>::empty()
            },
            final(self).at_line_start() == if old(self).is_pretty() {
                newline_after
            } else {
                old(self).at_line_start()
            },
            final(self).level() == old(self).level(),
            final(self).is_pretty() == old(self).is_pretty(),
            final(self).unit() == old(self).unit(),
    {
        if self.pretty {
            self.write_indent();
            let mut temp: Vec<u8> = Vec::new();
            tag_write_line_break(&mut temp, line_break, special_tokens);
            push_bytes(&mut self.writer, temp.as_slice());
            if newline_after {
                self.write_newline();
            } else {
                self.at_line_start = false;
            }
        } else {
            tag_write_line_break(&mut self.writer, line_break, special_tokens);
        }
        assert(self.bytes() =~= old(self).bytes() + old(self).pending() + encode_utf8(
            line_break_tag(line_break.count),
        ) + if old(self).is_pretty() && newline_after {
            seq![10u8]
        } else {
            Seq::<u8>::empty()
        });
    }
}

} // verus!
