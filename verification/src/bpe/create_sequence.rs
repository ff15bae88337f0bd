//! The token sequence of samples, tag by tag and character by character.

use vstd::prelude::*;
use crate::sample::{Sample, SamplePromptEnum, SampleAiEnum, SampleCode};
use crate::sample::language::{lang_name, indent_value};

use crate::bpe::tokenizer::{BPETokenizer, token_index, find_token};
use crate::bpe::token_writer::chars_ids;
use crate::bpe::train_tokenize::add_text_to_sequence;
use crate::tag::render::{decimal, close_tag, code_open_tag, push_decimal, simple_tag_string, code_open_tag_string};

verus! {

/// The id of `t` when the vocabulary holds it; nothing otherwise.
pub open spec fn known_id(vocab: Seq<Seq<char>>, t: Seq<char>) -> Seq<u32> {
    match token_index(vocab, t) {
        Some(i) => seq![i as u32],
        None => seq![],
    }
}

/// The tag looked up for a run of line breaks: a count of one is the plain tag, any other
/// count is written out.
pub open spec fn sequence_line_break_tag(count: u8) -> Seq<char> {
    if count == 1 {
        "<line-break />"@
    } else {
        "<line-break count=\""@ + decimal(count as nat) + "\" />"@
    }
}

/// The ids of a code block: its opening tag, one id per character, its closing tag.
pub open spec fn code_ids(vocab: Seq<Seq<char>>, c: SampleCode) -> Seq<u32> {
    known_id(vocab, code_open_tag(lang_name(c.lang), c.inline, indent_value(c.indent)))
        + chars_ids(vocab, c.content@) + known_id(vocab, close_tag(lang_name(c.lang)))
}

/// The ids of a text between the tags named `name`.
pub open spec fn wrapped_ids(vocab: Seq<Seq<char>>, name: Seq<char>, text: Seq<char>) -> Seq<u32> {
    known_id(vocab, seq!['<'] + name + seq!['>']) + chars_ids(vocab, text) + known_id(vocab, close_tag(name))
}

/// The ids of a prompt item.
pub open spec fn prompt_item_ids(vocab: Seq<Seq<char>>, item: SamplePromptEnum) -> Seq<u32> {
    match item {
        SamplePromptEnum::Text(t) => wrapped_ids(vocab, "prompt"@, t@),
        SamplePromptEnum::Code(c) => code_ids(vocab, c),
        SamplePromptEnum::LineBreak(lb) => known_id(vocab, sequence_line_break_tag(lb.count)),
    }
}

/// The ids of an AI item.
pub open spec fn ai_item_ids(vocab: Seq<Seq<char>>, item: SampleAiEnum) -> Seq<u32> {
    match item {
        SampleAiEnum::Text(t) => wrapped_ids(vocab, "text"@, t@),
        SampleAiEnum::Source(s) => wrapped_ids(vocab, "source"@, s@),
        SampleAiEnum::Code(c) => code_ids(vocab, c),
        SampleAiEnum::LineBreak(lb) => known_id(vocab, sequence_line_break_tag(lb.count)),
    }
}

/// The ids of the prompt items, in order.
pub open spec fn prompt_items_ids(vocab: Seq<Seq<char>>, items: Seq<SamplePromptEnum>) -> Seq<u32>
    decreases items.len(),
{
    if items.len() == 0 {
        seq![]
    } else {
        prompt_items_ids(vocab, items.drop_last()) + prompt_item_ids(vocab, items.last())
    }
}

/// The ids of the AI items, in order.
pub open spec fn ai_items_ids(vocab: Seq<Seq<char>>, items: Seq<SampleAiEnum>) -> Seq<u32>
    decreases items.len(),
{
    if items.len() == 0 {
        seq![]
    } else {
        ai_items_ids(vocab, items.drop_last()) + ai_item_ids(vocab, items.last())
    }
}

/// The ids of one sample: `<sample>`, the prompt items, `<ai>`, the AI items, `</ai>`,
/// `</sample>` (the system prompt and the thought are not part of it).
pub open spec fn sequence_sample_ids(vocab: Seq<Seq<char>>, s: Sample) -> Seq<u32> {
    known_id(vocab, "<sample>"@) + prompt_items_ids(vocab, s.prompt_section@) + known_id(vocab, "<ai>"@)
        + ai_items_ids(vocab, s.ai_section@) + known_id(vocab, "</ai>"@) + known_id(vocab, "</sample>"@)
}

/// The ids of the samples, one after the other.
pub open spec fn sequence_ids(vocab: Seq<Seq<char>>, ss: Seq<Sample>) -> Seq<u32>
    decreases ss.len(),
{
    if ss.len() == 0 {
        seq![]
    } else {
        sequence_ids(vocab, ss.drop_last()) + sequence_sample_ids(vocab, ss.last())
    }
}

/// Adds the id of `t` if the vocabulary holds it.
fn push_known(sequence: &mut Vec<u32>, tokenizer: &BPETokenizer, t: &str)
    ensures
        final(sequence)@ == old(sequence)@ + known_id(tokenizer.vocab_view(), t@),
{
    match find_token(&tokenizer.vocab, t) {
        Some(i) => {
            sequence.push(i as u32);
        },
        None => {},
    }
    assert(sequence@ =~= old(sequence)@ + known_id(tokenizer.vocab_view(), t@));
}

fn line_break_string(count: u8) -> (s: String)
    ensures
        s@ == sequence_line_break_tag(count),
{
    if count == 1 {
        "<line-break />".to_owned()
    } else {
        let mut s = "<line-break count=\"".to_owned();
        push_decimal(&mut s, count);
        s.append("\" />");
        s
    }
}

fn push_code(sequence: &mut Vec<u32>, tokenizer: &BPETokenizer, code: &SampleCode)
    ensures
        final(sequence)@ == old(sequence)@ + code_ids(tokenizer.vocab_view(), *code),
{
    let lang = code.lang.as_str();
    let open = code_open_tag_string(lang, code.inline, code.indent);
    push_known(sequence, tokenizer, open.as_str());
    add_text_to_sequence(sequence, code.content.as_str(), tokenizer);
    let close = simple_tag_string(lang, false);
    push_known(sequence, tokenizer, close.as_str());
    assert(sequence@ =~= old(sequence)@ + code_ids(tokenizer.vocab_view(), *code));
}

fn push_wrapped(sequence: &mut Vec<u32>, tokenizer: &BPETokenizer, name: &str, text: &str)
    ensures
        final(sequence)@ == old(sequence)@ + wrapped_ids(tokenizer.vocab_view(), name@, text@),
{
    let open = simple_tag_string(name, true);
    push_known(sequence, tokenizer, open.as_str());
    add_text_to_sequence(sequence, text, tokenizer);
    let close = simple_tag_string(name, false);
    push_known(sequence, tokenizer, close.as_str());
    assert(sequence@ =~= old(sequence)@ + wrapped_ids(tokenizer.vocab_view(), name@, text@));
}

fn push_prompt_item(sequence: &mut Vec<u32>, tokenizer: &BPETokenizer, item: &SamplePromptEnum)
    ensures
        final(sequence)@ == old(sequence)@ + prompt_item_ids(tokenizer.vocab_view(), *item),
{
    match item {
        SamplePromptEnum::Text(text) => push_wrapped(sequence, tokenizer, "prompt", text.as_str()),
        SamplePromptEnum::Code(code) => push_code(sequence, tokenizer, code),
        SamplePromptEnum::LineBreak(lb) => {
            let tag = line_break_string(lb.count);
            push_known(sequence, tokenizer, tag.as_str());
        },
    }
}

fn push_ai_item(sequence: &mut Vec<u32>, tokenizer: &BPETokenizer, item: &SampleAiEnum)
    ensures
        final(sequence)@ == old(sequence)@ + ai_item_ids(tokenizer.vocab_view(), *item),
{
    match item {
        SampleAiEnum::Text(text) => push_wrapped(sequence, tokenizer, "text", text.as_str()),
        SampleAiEnum::Source(source) => push_wrapped(sequence, tokenizer, "source", source.as_str()),
        SampleAiEnum::Code(code) => push_code(sequence, tokenizer, code),
        SampleAiEnum::LineBreak(lb) => {
            let tag = line_break_string(lb.count);
            push_known(sequence, tokenizer, tag.as_str());
        },
    }
}

/// Converts samples to a token sequence: per sample `<sample>`, each prompt item (text between
/// `<prompt>` tags, code between its language tags, line breaks as their tag), `<ai>`, each AI
/// item (text between `<text>` tags, sources between `<source>` tags, code, line breaks),
/// `</ai>` and `</sample>`. A tag the vocabulary lacks is left out; a character it lacks
/// becomes 0.
pub fn bpe_create_sequence(tokenizer: &BPETokenizer, samples: &[Sample]) -> (r: Vec<u32>)
    ensures
        r@ == sequence_ids(tokenizer.vocab_view(), samples@),
{
    let ghost v = tokenizer.vocab_view();
    let mut sequence: Vec<u32> = Vec::new();
    let mut i: usize = 0;
    assert(samples@.subrange(0, 0) =~= Seq::<Sample>::empty());
    while i < samples.len()
        invariant
            i <= samples@.len(),
            v == tokenizer.vocab_view(),
            sequence@ == sequence_ids(v, samples@.subrange(0, i as int)),
        decreases samples@.len() - i,
    {
        let sample = &samples[i];
        let ghost start = sequence@;
        push_known(&mut sequence, tokenizer, "<sample>");
        let ghost after_open = sequence@;
        let mut j: usize = 0;
        assert(sample.prompt_section@.subrange(0, 0) =~= Seq::<SamplePromptEnum>::empty());
        while j < sample.prompt_section.len()
            invariant
                j <= sample.prompt_section@.len(),
                sequence@ == after_open + prompt_items_ids(v, sample.prompt_section@.subrange(0, j as int)),
                v == tokenizer.vocab_view(),
            decreases sample.prompt_section@.len() - j,
        {
            push_prompt_item(&mut sequence, tokenizer, &sample.prompt_section[j]);
            assert(sample.prompt_section@.subrange(0, j + 1).drop_last() =~= sample.prompt_section@.subrange(0, j as int));
            j = j + 1;
            assert(sequence@ =~= after_open + prompt_items_ids(v, sample.prompt_section@.subrange(0, j as int)));
        }
        assert(sample.prompt_section@.subrange(0, j as int) =~= sample.prompt_section@);
        push_known(&mut sequence, tokenizer, "<ai>");
        let ghost after_ai = sequence@;
        let mut k: usize = 0;
        assert(sample.ai_section@.subrange(0, 0) =~= Seq::<SampleAiEnum>::empty());
        while k < sample.ai_section.len()
            invariant
                k <= sample.ai_section@.len(),
                sequence@ == after_ai + ai_items_ids(v, sample.ai_section@.subrange(0, k as int)),
                v == tokenizer.vocab_view(),
            decreases sample.ai_section@.len() - k,
        {
            push_ai_item(&mut sequence, tokenizer, &sample.ai_section[k]);
            assert(sample.ai_section@.subrange(0, k + 1).drop_last() =~= sample.ai_section@.subrange(0, k as int));
            k = k + 1;
            assert(sequence@ =~= after_ai + ai_items_ids(v, sample.ai_section@.subrange(0, k as int)));
        }
        assert(sample.ai_section@.subrange(0, k as int) =~= sample.ai_section@);
        push_known(&mut sequence, tokenizer, "</ai>");
        push_known(&mut sequence, tokenizer, "</sample>");
        assert(samples@.subrange(0, i + 1).drop_last() =~= samples@.subrange(0, i as int));
        assert(sequence@ =~= start + sequence_sample_ids(v, samples@[i as int]));
        i = i + 1;
    }
    assert(samples@.subrange(0, samples@.len() as int) =~= samples@);
    sequence
}

} // verus!
