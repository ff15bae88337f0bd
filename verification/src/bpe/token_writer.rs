//! A writer that turns tagged corpus text into initial token ids: known tags become one
//! token each, everything else one token per character.

use vstd::prelude::*;
use vstd::utf8::{valid_utf8, decode_utf8};
use crate::text::{str_chars, char_to_string};
use crate::bpe::tokenizer::{BPETokenizer, id_or_unknown, special_prefix};

verus! {

/// What `String::from_utf8_lossy` makes of a byte sequence.
pub uninterp spec fn utf8_lossy(bytes: Seq<u8>) -> Seq<char>;

/// The text of a byte sequence as `String::from_utf8_lossy` reads it: valid UTF-8 decoded,
/// anything else as the name `utf8_lossy` gives it.
pub open spec fn lossy_text(bytes: Seq<u8>) -> Seq<char> {
    if valid_utf8(bytes) {
        decode_utf8(bytes)
    } else {
        utf8_lossy(bytes)
    }
}

/// `String::from_utf8_lossy`, owned: the bytes decoded as UTF-8, with each invalid sequence
/// replaced by U+FFFD. What it returns for invalid input is left to the name `utf8_lossy`;
/// for valid UTF-8 it is the decoded text.
#[verifier::external_body]
pub fn from_utf8_lossy(bytes: &[u8]) -> (s: String)
    ensures
        !valid_utf8(bytes@) ==> s@ == utf8_lossy(bytes@),
        valid_utf8(bytes@) ==> s@ == decode_utf8(bytes@),
{
    String::from_utf8_lossy(bytes).into_owned()
}

/// The id of a one-character token.
pub open spec fn char_id(vocab: Seq<Seq<char>>, c: char) -> u32 {
    id_or_unknown(vocab, seq![c])
}

/// The ids of the characters of `cs`, one per character.
pub open spec fn chars_ids(vocab: Seq<Seq<char>>, cs: Seq<char>) -> Seq<u32>
    decreases cs.len(),
{
    if cs.len() == 0 {
        seq![]
    } else {
        chars_ids(vocab, cs.drop_last()).push(char_id(vocab, cs.last()))
    }
}

/// What flushing a pending tag buffer emits: one token when its text is a special token,
/// otherwise one token per character.
pub open spec fn flush_ids(vocab: Seq<Seq<char>>, special: Seq<Seq<char>>, buf: Seq<u8>) -> Seq<u32> {
    if buf.len() == 0 {
        seq![]
    } else if special.contains(lossy_text(buf)) {
        seq![id_or_unknown(vocab, lossy_text(buf))]
    } else {
        chars_ids(vocab, lossy_text(buf))
    }
}

/// The state of a token writer: the ids emitted, whether a tag is open, the tag's bytes.
pub struct WriterState {
    pub ids: Seq<u32>,
    pub in_tag: bool,
    pub buf: Seq<u8>,
}

/// One character through the writer: `<` starts a tag (flushing any pending one), `>` ends an
/// open tag and flushes it, characters inside a tag are collected (truncated to a byte),
/// characters outside become one token each.
pub open spec fn step(vocab: Seq<Seq<char>>, special: Seq<Seq<char>>, st: WriterState, c: char) -> WriterState {
    if c == '<' {
        WriterState { ids: st.ids + flush_ids(vocab, special, st.buf), in_tag: true, buf: seq![c as u8] }
    } else if c == '>' && st.in_tag {
        WriterState {
            ids: st.ids + flush_ids(vocab, special, st.buf.push(c as u8)),
            in_tag: false,
            buf: seq![],
        }
    } else if st.in_tag {
        WriterState { ids: st.ids, in_tag: true, buf: st.buf.push(c as u8) }
    } else {
        WriterState { ids: st.ids.push(char_id(vocab, c)), in_tag: false, buf: st.buf }
    }
}

/// The characters `cs` through the writer, in order.
pub open spec fn run(vocab: Seq<Seq<char>>, special: Seq<Seq<char>>, st: WriterState, cs: Seq<char>) -> WriterState
    decreases cs.len(),
{
    if cs.len() == 0 {
        st
    } else {
        step(vocab, special, run(vocab, special, st, cs.drop_last()), cs.last())
    }
}

/// Running over a concatenation is running over each part in turn.
pub proof fn lemma_run_concat(
    vocab: Seq<Seq<char>>,
    special: Seq<Seq<char>>,
    st: WriterState,
    a: Seq<char>,
    b: Seq<char>,
)
    ensures
        run(vocab, special, st, a + b) == run(vocab, special, run(vocab, special, st, a), b),
    decreases b.len(),
{
    if b.len() == 0 {
        assert(a + b =~= a);
    } else {
        assert((a + b).drop_last() =~= a + b.drop_last());
        assert((a + b).last() == b.last());
        lemma_run_concat(vocab, special, st, a, b.drop_last());
    }
}

/// The writer state with nothing emitted and no tag open.
pub open spec fn fresh_state() -> WriterState {
    WriterState { ids: seq![], in_tag: false, buf: seq![] }
}

/// The ids emitted for `cs` from a fresh state.
pub open spec fn section_ids(vocab: Seq<Seq<char>>, special: Seq<Seq<char>>, cs: Seq<char>) -> Seq<u32> {
    run(vocab, special, fresh_state(), cs).ids
}

/// Starting from emitted ids `p` only prepends `p` to what is emitted.
pub proof fn lemma_run_ids_prefix(
    vocab: Seq<Seq<char>>,
    special: Seq<Seq<char>>,
    p: Seq<u32>,
    cs: Seq<char>,
)
    ensures
        run(vocab, special, WriterState { ids: p, in_tag: false, buf: seq![] }, cs).ids == p + section_ids(vocab, special, cs),
        run(vocab, special, WriterState { ids: p, in_tag: false, buf: seq![] }, cs).in_tag == run(vocab, special, fresh_state(), cs).in_tag,
        run(vocab, special, WriterState { ids: p, in_tag: false, buf: seq![] }, cs).buf == run(vocab, special, fresh_state(), cs).buf,
    decreases cs.len(),
{
    if cs.len() == 0 {
        assert(p + Seq::<u32>::empty() =~= p);
    } else {
        lemma_run_ids_prefix(vocab, special, p, cs.drop_last());
        let a = run(vocab, special, WriterState { ids: p, in_tag: false, buf: seq![] }, cs.drop_last());
        let b = run(vocab, special, fresh_state(), cs.drop_last());
        let c = cs.last();
        assert(step(vocab, special, a, c).ids =~= p + step(vocab, special, b, c).ids);
    }
}

/// A writer that tokenizes tagged text for training.
pub struct BPETokenWriter<'a> {
    sequence: Vec<u32>,
    tokenizer: &'a BPETokenizer,
    in_tag: bool,
    tag_buffer: Vec<u8>,
}

impl<'a> BPETokenWriter<'a> {
    /// The tokenizer the writer looks tokens up in.
    pub closed spec fn tok(&self) -> BPETokenizer {
        *self.tokenizer
    }

    /// The writer's state.
    pub closed spec fn state(&self) -> WriterState {
        WriterState { ids: self.sequence@, in_tag: self.in_tag, buf: self.tag_buffer@ }
    }

    /// The vocabulary the writer looks tokens up in.
    pub open spec fn vocab(&self) -> Seq<Seq<char>> {
        self.tok().vocab_view()
    }

    /// The special tokens the writer keeps whole.
    pub open spec fn special(&self) -> Seq<Seq<char>> {
        special_prefix(self.tok().vocab_view(), self.tok().special_token_count)
    }

    /// Creates a writer that appends ids to `sequence`.
    pub fn new(sequence: Vec<u32>, tokenizer: &'a BPETokenizer) -> (w: BPETokenWriter<'a>)
        requires
            tokenizer.special_token_count <= tokenizer.vocab@.len(),
        ensures
            w.tok() == *tokenizer,
            w.state() == (WriterState { ids: sequence@, in_tag: false, buf: seq![] }),
    {
        BPETokenWriter { sequence, tokenizer, in_tag: false, tag_buffer: Vec::new() }
    }

    /// The ids written so far.
    pub fn into_sequence(self) -> (v: Vec<u32>)
        ensures
            v@ == self.state().ids,
    {
        self.sequence
    }

    /// Pushes the id of each character of `s`.
    fn push_char_ids(&mut self, s: &str)
        ensures
            final(self).state() == (WriterState {
                ids: old(self).state().ids + chars_ids(old(self).vocab(), s@),
                ..old(self).state()
            }),
            final(self).tok() == old(self).tok(),
    {
        let cs = str_chars(s);
        let mut i: usize = 0;
        let ghost start = self.sequence@;
        assert(cs@.subrange(0, 0) =~= Seq::<char>::empty());
        while i < cs.len()
            invariant
                cs@ == s@,
                i <= cs@.len(),
                self.tokenizer == old(self).tokenizer,
                self.in_tag == old(self).in_tag,
                self.tag_buffer == old(self).tag_buffer,
                start == old(self).sequence@,
                self.sequence@ == start + chars_ids(old(self).vocab(), cs@.subrange(0, i as int)),
            decreases cs@.len() - i,
        {
            let token = char_to_string(cs[i]);
            let id = self.tokenizer.id_or_unknown(token.as_str());
            self.sequence.push(id);
            proof {
                let sub = cs@.subrange(0, i + 1);
                assert(sub.drop_last() =~= cs@.subrange(0, i as int));
                assert(sub.last() == cs@[i as int]);
            }
            i = i + 1;
            assert(self.sequence@ =~= start + chars_ids(old(self).vocab(), cs@.subrange(0, i as int)));
        }
        assert(cs@.subrange(0, cs@.len() as int) =~= cs@);
    }

    /// Emits the pending tag: as one token when it is a special token, otherwise character by
    /// character; then empties the buffer.
    pub fn flush_tag(&mut self)
        ensures
            final(self).state() == (WriterState {
                ids: old(self).state().ids + flush_ids(old(self).vocab(), old(self).special(), old(self).state().buf),
                in_tag: old(self).state().in_tag,
                buf: seq![],
            }),
            final(self).tok() == old(self).tok(),
    {
        if self.tag_buffer.len() > 0 {
            let tag_string = from_utf8_lossy(self.tag_buffer.as_slice());
            if self.tokenizer.is_special_token(tag_string.as_str()) {
                let id = self.tokenizer.id_or_unknown(tag_string.as_str());
                self.sequence.push(id);
            } else {
                self.push_char_ids(tag_string.as_str());
            }
            self.tag_buffer.clear();
        }
        assert(self.tag_buffer@ =~= Seq::<u8>::empty());
        assert(self.sequence@ =~= old(self).sequence@ + flush_ids(old(self).vocab(), old(self).special(), old(self).tag_buffer@));
    }

    /// Processes one character.
    pub fn write_char(&mut self, c: char)
        ensures
            final(self).state() == step(old(self).vocab(), old(self).special(), old(self).state(), c),
            final(self).tok() == old(self).tok(),
    {
        if c == '<' {
            self.flush_tag();
            self.in_tag = true;
            self.tag_buffer.push(c as u8);
            assert(self.tag_buffer@ =~= seq![c as u8]);
        } else if c == '>' && self.in_tag {
            self.tag_buffer.push(c as u8);
            self.in_tag = false;
            self.flush_tag();
        } else if self.in_tag {
            self.tag_buffer.push(c as u8);
        } else {
            let token = char_to_string(c);
            let id = self.tokenizer.id_or_unknown(token.as_str());
            self.sequence.push(id);
        }
    }

    /// Processes every character of `buf` (decoded as UTF-8, lossily) and reports all of it as
    /// written.
    pub fn write(&mut self, buf: &[u8]) -> (n: usize)
        ensures
            n == buf@.len(),
            final(self).state() == run(old(self).vocab(), old(self).special(), old(self).state(), lossy_text(buf@)),
            valid_utf8(buf@) ==> final(self).state() == run(old(self).vocab(), old(self).special(), old(self).state(), decode_utf8(buf@)),
            final(self).tok() == old(self).tok(),
    {
        let s = from_utf8_lossy(buf);
        let cs = str_chars(s.as_str());
        let mut i: usize = 0;
        assert(cs@.subrange(0, 0) =~= Seq::<char>::empty());
        while i < cs.len()
            invariant
                cs@ == lossy_text(buf@),
                i <= cs@.len(),
                self.tok() == old(self).tok(),
                self.state() == run(old(self).vocab(), old(self).special(), old(self).state(), cs@.subrange(0, i as int)),
            decreases cs@.len() - i,
        {
            self.write_char(cs[i]);
            proof {
                let sub = cs@.subrange(0, i + 1);
                assert(sub.drop_last() =~= cs@.subrange(0, i as int));
                assert(sub.last() == cs@[i as int]);
            }
            i = i + 1;
        }
        assert(cs@.subrange(0, cs@.len() as int) =~= cs@);
        buf.len()
    }

    /// Writes all of `buf`.
    pub fn write_all(&mut self, buf: &[u8])
        ensures
            final(self).state() == run(old(self).vocab(), old(self).special(), old(self).state(), lossy_text(buf@)),
            valid_utf8(buf@) ==> final(self).state() == run(old(self).vocab(), old(self).special(), old(self).state(), decode_utf8(buf@)),
            final(self).tok() == old(self).tok(),
    {
        let _ = self.write(buf);
    }

    /// Emits any pending (possibly unfinished) tag.
    pub fn flush(&mut self)
        ensures
            final(self).state() == (WriterState {
                ids: old(self).state().ids + flush_ids(old(self).vocab(), old(self).special(), old(self).state().buf),
                in_tag: old(self).state().in_tag,
                buf: seq![],
            }),
            final(self).tok() == old(self).tok(),
    {
        self.flush_tag();
    }
}

} // verus!
