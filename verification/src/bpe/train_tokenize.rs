//! Turning structured samples into the initial token sequence for training.

use vstd::prelude::*;
use vstd::utf8::{encode_utf8, encode_utf8_decode_utf8, encode_utf8_valid_utf8};
use crate::sample::Sample;
use crate::text::{str_chars, char_to_string};
use crate::bpe::tokenizer::{BPETokenizer, id_or_unknown, special_prefix};
use crate::bpe::token_writer::{BPETokenWriter, chars_ids, section_ids};
use crate::tag::render::{simple_tag, simple_tag_string};
use crate::tag::sections::{
    prompt_content_text, ai_content_text, tag_write_prompt_content, tag_write_ai_content,
};

verus! {

/// The id of the opening or closing tag of `name`.
pub open spec fn tag_id(vocab: Seq<Seq<char>>, name: Seq<char>, opening: bool) -> u32 {
    id_or_unknown(vocab, simple_tag(name, opening))
}

/// The ids of an optional tagged text: the tag, one id per character, the closing tag.
pub open spec fn optional_text_ids(vocab: Seq<Seq<char>>, name: Seq<char>, text: Option<String>) -> Seq<u32> {
    match text {
        Some(t) => seq![tag_id(vocab, name, true)] + chars_ids(vocab, t@) + seq![tag_id(vocab, name, false)],
        None => seq![],
    }
}

/// The initial ids of one sample.
pub open spec fn sample_ids(vocab: Seq<Seq<char>>, special: Seq<Seq<char>>, s: Sample) -> Seq<u32> {
    seq![tag_id(vocab, "sample"@, true)]
        + optional_text_ids(vocab, "system"@, s.system)
        + seq![tag_id(vocab, "prompt"@, true)]
        + section_ids(vocab, special, prompt_content_text(s.prompt_section@))
        + seq![tag_id(vocab, "prompt"@, false)]
        + optional_text_ids(vocab, "thought"@, s.thought)
        + seq![tag_id(vocab, "ai"@, true)]
        + section_ids(vocab, special, ai_content_text(s.ai_section@))
        + seq![tag_id(vocab, "ai"@, false)]
        + seq![tag_id(vocab, "sample"@, false)]
}

/// The initial ids of the samples, one sample after the other.
pub open spec fn samples_ids(vocab: Seq<Seq<char>>, special: Seq<Seq<char>>, ss: Seq<Sample>) -> Seq<u32>
    decreases ss.len(),
{
    if ss.len() == 0 {
        seq![]
    } else {
        samples_ids(vocab, special, ss.drop_last()) + sample_ids(vocab, special, ss.last())
    }
}

/// Adds the id of an opening or closing tag (0 when the vocabulary lacks it).
pub fn add_tag_to_sequence(
    sequence: &mut Vec<u32>,
    tag_name: &str,
    is_opening: bool,
    tokenizer: &BPETokenizer,
)
    ensures
        final(sequence)@ == old(sequence)@.push(tag_id(tokenizer.vocab_view(), tag_name@, is_opening)),
{
    let tag_string = simple_tag_string(tag_name, is_opening);
    let id = tokenizer.id_or_unknown(tag_string.as_str());
    sequence.push(id);
}

/// Adds the id of each character of `text` (0 for a character the vocabulary lacks).
pub fn add_text_to_sequence(sequence: &mut Vec<u32>, text: &str, tokenizer: &BPETokenizer)
    ensures
        final(sequence)@ == old(sequence)@ + chars_ids(tokenizer.vocab_view(), text@),
{
    let cs = str_chars(text);
    let mut i: usize = 0;
    assert(cs@.subrange(0, 0) =~= Seq::<char>::empty());
    while i < cs.len()
        invariant
            cs@ == text@,
            i <= cs@.len(),
            sequence@ == old(sequence)@ + chars_ids(tokenizer.vocab_view(), cs@.subrange(0, i as int)),
        decreases cs@.len() - i,
    {
        let token = char_to_string(cs[i]);
        let id = tokenizer.id_or_unknown(token.as_str());
        sequence.push(id);
        proof {
            let sub = cs@.subrange(0, i + 1);
            assert(sub.drop_last() =~= cs@.subrange(0, i as int));
            assert(sub.last() == cs@[i as int]);
        }
        i = i + 1;
        assert(sequence@ =~= old(sequence)@ + chars_ids(tokenizer.vocab_view(), cs@.subrange(0, i as int)));
    }
    assert(cs@.subrange(0, cs@.len() as int) =~= cs@);
}

/// Adds an optional tagged text.
fn add_optional_text(sequence: &mut Vec<u32>, tag_name: &str, text: &Option<String>, tokenizer: &BPETokenizer)
    ensures
        final(sequence)@ == old(sequence)@ + optional_text_ids(tokenizer.vocab_view(), tag_name@, *text),
{
    match text {
        Some(t) => {
            add_tag_to_sequence(sequence, tag_name, true, tokenizer);
            add_text_to_sequence(sequence, t.as_str(), tokenizer);
            add_tag_to_sequence(sequence, tag_name, false, tokenizer);
        },
        None => {},
    }
    assert(sequence@ =~= old(sequence)@ + optional_text_ids(tokenizer.vocab_view(), tag_name@, *text));
}

/// Appends every id of `ids`.
fn append_ids(sequence: &mut Vec<u32>, ids: &Vec<u32>)
    ensures
        final(sequence)@ == old(sequence)@ + ids@,
{
    let mut i: usize = 0;
    while i < ids.len()
        invariant
            i <= ids@.len(),
            sequence@ == old(sequence)@ + ids@.subrange(0, i as int),
        decreases ids@.len() - i,
    {
        sequence.push(ids[i]);
        i = i + 1;
        assert(sequence@ =~= old(sequence)@ + ids@.subrange(0, i as int));
    }
    assert(ids@.subrange(0, ids@.len() as int) =~= ids@);
}

/// Tokenizes the bytes of one written section with a fresh token writer.
fn tokenize_section(bytes: &Vec<u8>, tokenizer: &BPETokenizer) -> (ids: Vec<u32>)
    requires
        tokenizer.special_token_count <= tokenizer.vocab@.len(),
    ensures
        forall|cs: Seq<char>| bytes@ == encode_utf8(cs) ==> ids@ == section_ids(
            tokenizer.vocab_view(),
            special_prefix(tokenizer.vocab_view(), tokenizer.special_token_count),
            cs,
        ),
{
    let mut writer = BPETokenWriter::new(Vec::new(), tokenizer);
    writer.write_all(bytes.as_slice());
    let ids = writer.into_sequence();
    proof {
        assert forall|cs: Seq<char>| bytes@ == encode_utf8(cs) implies ids@ == section_ids(
            tokenizer.vocab_view(),
            special_prefix(tokenizer.vocab_view(), tokenizer.special_token_count),
            cs,
        ) by {
            encode_utf8_valid_utf8(cs);
            encode_utf8_decode_utf8(cs);
        }
    }
    ids
}

/// Adds the initial ids of one sample.
fn add_sample(sequence: &mut Vec<u32>, sample: &Sample, special_tokens: &[String], tokenizer: &BPETokenizer)
    requires
        tokenizer.special_token_count <= tokenizer.vocab@.len(),
    ensures
        final(sequence)@ == old(sequence)@ + sample_ids(
            tokenizer.vocab_view(),
            special_prefix(tokenizer.vocab_view(), tokenizer.special_token_count),
            *sample,
        ),
{
    let ghost v = tokenizer.vocab_view();
    let ghost sp = special_prefix(tokenizer.vocab_view(), tokenizer.special_token_count);
    add_tag_to_sequence(sequence, "sample", true, tokenizer);
    add_optional_text(sequence, "system", &sample.system, tokenizer);
    add_tag_to_sequence(sequence, "prompt", true, tokenizer);
    let mut prompt_bytes: Vec<u8> = Vec::new();
    tag_write_prompt_content(&mut prompt_bytes, sample.prompt_section.as_slice(), special_tokens);
    assert(prompt_bytes@ =~= encode_utf8(prompt_content_text(sample.prompt_section@)));
    let prompt_ids = tokenize_section(&prompt_bytes, tokenizer);
    append_ids(sequence, &prompt_ids);
    add_tag_to_sequence(sequence, "prompt", false, tokenizer);
    add_optional_text(sequence, "thought", &sample.thought, tokenizer);
    add_tag_to_sequence(sequence, "ai", true, tokenizer);
    let mut ai_bytes: Vec<u8> = Vec::new();
    tag_write_ai_content(&mut ai_bytes, sample.ai_section.as_slice(), special_tokens);
    assert(ai_bytes@ =~= encode_utf8(ai_content_text(sample.ai_section@)));
    let ai_ids = tokenize_section(&ai_bytes, tokenizer);
    append_ids(sequence, &ai_ids);
    add_tag_to_sequence(sequence, "ai", false, tokenizer);
    add_tag_to_sequence(sequence, "sample", false, tokenizer);
    assert(sequence@ =~= old(sequence)@ + sample_ids(v, sp, *sample));
}

/// The special tokens of a tokenizer, copied out of its vocabulary.
pub fn special_tokens_of(tokenizer: &BPETokenizer) -> (v: Vec<String>)
    requires
        tokenizer.special_token_count <= tokenizer.vocab@.len(),
    ensures
        crate::bpe::tokenizer::views(v@) == special_prefix(tokenizer.vocab_view(), tokenizer.special_token_count),
{
    let n = tokenizer.special_token_count as usize;
    let mut v: Vec<String> = Vec::new();
    let mut i: usize = 0;
    while i < n
        invariant
            n == tokenizer.special_token_count,
            n <= tokenizer.vocab@.len(),
            i <= n,
            crate::bpe::tokenizer::views(v@) == tokenizer.vocab_view().subrange(0, i as int),
        decreases n - i,
    {
        let ghost prev = v@;
        let t = tokenizer.vocab[i].clone();
        assert(t@ == tokenizer.vocab@[i as int]@);
        v.push(t);
        assert(crate::bpe::tokenizer::views(v@) =~= crate::bpe::tokenizer::views(prev).push(tokenizer.vocab@[i as int]@));
        assert(tokenizer.vocab_view().subrange(0, i + 1) =~= tokenizer.vocab_view().subrange(0, i as int).push(tokenizer.vocab@[i as int]@));
        i = i + 1;
        assert(crate::bpe::tokenizer::views(v@) =~= tokenizer.vocab_view().subrange(0, i as int));
    }
    v
}

/// Converts samples to the initial token sequence: tags become their token ids, system and
/// thought text one id per character, and prompt and AI sections go through the token writer.
/// It never fails.
pub fn bpe_train_tokenize(tokenizer: &BPETokenizer, samples: &[Sample]) -> (r: Result<Vec<u32>, String>)
    requires
        tokenizer.special_token_count <= tokenizer.vocab@.len(),
    ensures
        r matches Ok(ids) && ids@ == samples_ids(
            tokenizer.vocab_view(),
            special_prefix(tokenizer.vocab_view(), tokenizer.special_token_count),
            samples@,
        ),
{
    let ghost v = tokenizer.vocab_view();
    let ghost sp = special_prefix(tokenizer.vocab_view(), tokenizer.special_token_count);
    let special_tokens = special_tokens_of(tokenizer);
    let mut sequence: Vec<u32> = Vec::new();
    let mut i: usize = 0;
    assert(samples@.subrange(0, 0) =~= Seq::<Sample>::empty());
    while i < samples.len()
        invariant
            tokenizer.special_token_count <= tokenizer.vocab@.len(),
            v == tokenizer.vocab_view(),
            sp == special_prefix(tokenizer.vocab_view(), tokenizer.special_token_count),
            i <= samples@.len(),
            sequence@ == samples_ids(v, sp, samples@.subrange(0, i as int)),
        decreases samples@.len() - i,
    {
        add_sample(&mut sequence, &samples[i], special_tokens.as_slice(), tokenizer);
        proof {
            let sub = samples@.subrange(0, i + 1);
            assert(sub.drop_last() =~= samples@.subrange(0, i as int));
            assert(sub.last() == samples@[i as int]);
        }
        i = i + 1;
    }
    assert(samples@.subrange(0, samples@.len() as int) =~= samples@);
    Ok(sequence)
}

} // verus!
