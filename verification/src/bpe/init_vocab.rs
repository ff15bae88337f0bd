//! The initial vocabulary: special tokens, requested tokens, and the characters of the samples.

use vstd::prelude::*;
use crate::sample::{Sample, SamplePromptEnum, SampleAiEnum};
use crate::text::{str_chars, char_to_string, lemma_to_set_insert_at, lemma_to_set_push, lemma_char_u32_injective};
use crate::bpe::tokenizer::{BPETokenizer, views, find_token, lemma_token_index};

verus! {

/// `v` followed by each token of `toks` that is not yet in it (checked one at a time).
pub open spec fn add_new(v: Seq<Seq<char>>, toks: Seq<Seq<char>>) -> Seq<Seq<char>>
    decreases toks.len(),
{
    if toks.len() == 0 {
        v
    } else {
        let w = add_new(v, toks.drop_last());
        if w.contains(toks.last()) {
            w
        } else {
            w.push(toks.last())
        }
    }
}

/// One single-character token per character.
pub open spec fn singles(cs: Seq<char>) -> Seq<Seq<char>>
    decreases cs.len(),
{
    if cs.len() == 0 {
        seq![]
    } else {
        singles(cs.drop_last()).push(seq![cs.last()])
    }
}

/// Characters in strictly increasing order.
pub open spec fn strictly_sorted(cs: Seq<char>) -> bool {
    forall|i: int, j: int| 0 <= i < j < cs.len() ==> (cs[i] as u32) < (cs[j] as u32)
}

/// The characters of an optional text.
pub open spec fn option_chars(t: Option<String>) -> Set<char> {
    match t {
        Some(s) => s@.to_set(),
        None => Set::empty(),
    }
}

/// The characters of the prompt items.
pub open spec fn prompt_chars(items: Seq<SamplePromptEnum>) -> Set<char>
    decreases items.len(),
{
    if items.len() == 0 {
        Set::empty()
    } else {
        prompt_chars(items.drop_last()) + match items.last() {
            SamplePromptEnum::Text(t) => t@.to_set(),
            SamplePromptEnum::Code(c) => c.content@.to_set(),
            SamplePromptEnum::LineBreak(_) => Set::empty(),
        }
    }
}

/// The characters of the AI items.
pub open spec fn ai_chars(items: Seq<SampleAiEnum>) -> Set<char>
    decreases items.len(),
{
    if items.len() == 0 {
        Set::empty()
    } else {
        ai_chars(items.drop_last()) + match items.last() {
            SampleAiEnum::Text(t) => t@.to_set(),
            SampleAiEnum::Source(s) => s@.to_set(),
            SampleAiEnum::Code(c) => c.content@.to_set(),
            SampleAiEnum::LineBreak(_) => Set::empty(),
        }
    }
}

/// Every character of a sample: system prompt, thought, prompt and AI text.
pub open spec fn sample_chars(s: Sample) -> Set<char> {
    option_chars(s.system) + option_chars(s.thought) + prompt_chars(s.prompt_section@) + ai_chars(
        s.ai_section@,
    )
}

/// Every character of the samples.
pub open spec fn samples_chars(ss: Seq<Sample>) -> Set<char>
    decreases ss.len(),
{
    if ss.len() == 0 {
        Set::empty()
    } else {
        samples_chars(ss.drop_last()) + sample_chars(ss.last())
    }
}

/// The punctuation that programs use, added when the samples lack it.
pub open spec fn common_chars() -> Seq<char> {
    seq!['!', '@', '#', '$', '%', '^', '&', '*', '+', '=', '~', '`', '|', '\\', ';', ':']
}

/// The ten digits.
pub open spec fn digit_chars() -> Seq<char> {
    seq!['0', '1', '2', '3', '4', '5', '6', '7', '8', '9']
}

/// The vocabulary built from the samples' characters `cs`, on top of `base`.
pub open spec fn vocab_with_chars(base: Seq<Seq<char>>, cs: Seq<char>) -> Seq<Seq<char>> {
    add_new(add_new(add_new(base, singles(cs)), singles(common_chars())), singles(digit_chars()))
}

/// `v` holds the single-character token of each character of `t`.
pub open spec fn has_char_tokens(v: Seq<Seq<char>>, t: Seq<char>) -> bool {
    forall|j: int| 0 <= j < t.len() ==> v.contains(seq![#[trigger] t[j]])
}

/// `v` holds a single-character token for the characters of one prompt item.
pub open spec fn prompt_item_covered(v: Seq<Seq<char>>, item: SamplePromptEnum) -> bool {
    match item {
        SamplePromptEnum::Text(t) => has_char_tokens(v, t@),
        SamplePromptEnum::Code(c) => has_char_tokens(v, c.content@),
        SamplePromptEnum::LineBreak(_) => true,
    }
}

/// `v` holds a single-character token for the characters of one AI item.
pub open spec fn ai_item_covered(v: Seq<Seq<char>>, item: SampleAiEnum) -> bool {
    match item {
        SampleAiEnum::Text(t) => has_char_tokens(v, t@),
        SampleAiEnum::Source(t) => has_char_tokens(v, t@),
        SampleAiEnum::Code(c) => has_char_tokens(v, c.content@),
        SampleAiEnum::LineBreak(_) => true,
    }
}

/// `v` holds a single-character token for every character of the sample: its system
/// prompt, its thought, each text and code block of the prompt, and each text, source
/// and code block of the answer.
pub open spec fn covers_sample(v: Seq<Seq<char>>, s: Sample) -> bool {
    &&& match s.system {
        Some(t) => has_char_tokens(v, t@),
        None => true,
    }
    &&& match s.thought {
        Some(t) => has_char_tokens(v, t@),
        None => true,
    }
    &&& forall|k: int| 0 <= k < s.prompt_section@.len() ==> prompt_item_covered(v, #[trigger] s.prompt_section@[k])
    &&& forall|k: int| 0 <= k < s.ai_section@.len() ==> ai_item_covered(v, #[trigger] s.ai_section@[k])
}

/// Adding tokens keeps every token that was there and gains each added one.
pub proof fn lemma_add_new_contains(v: Seq<Seq<char>>, toks: Seq<Seq<char>>)
    ensures
        forall|x: Seq<char>| v.contains(x) ==> #[trigger] add_new(v, toks).contains(x),
        forall|j: int| 0 <= j < toks.len() ==> add_new(v, toks).contains(#[trigger] toks[j]),
    decreases toks.len(),
{
    if toks.len() > 0 {
        let w = add_new(v, toks.drop_last());
        lemma_add_new_contains(v, toks.drop_last());
        assert forall|x: Seq<char>| w.contains(x) implies #[trigger] add_new(v, toks).contains(x) by {
            if !w.contains(toks.last()) {
                let i = choose|i: int| 0 <= i < w.len() && w[i] == x;
                assert(w.push(toks.last())[i] == x);
            }
        }
        assert forall|j: int| 0 <= j < toks.len() implies add_new(v, toks).contains(#[trigger] toks[j]) by {
            if j < toks.len() - 1 {
                assert(toks.drop_last()[j] == toks[j]);
                assert(w.contains(toks[j]));
            } else if !w.contains(toks.last()) {
                assert(w.push(toks.last())[w.len() as int] == toks[j]);
            }
        }
    }
}

/// The characters of a prompt item are among the prompt's characters.
proof fn lemma_prompt_chars_item(items: Seq<SamplePromptEnum>, k: int)
    requires
        0 <= k < items.len(),
    ensures
        match items[k] {
            SamplePromptEnum::Text(t) => t@.to_set().subset_of(prompt_chars(items)),
            SamplePromptEnum::Code(c) => c.content@.to_set().subset_of(prompt_chars(items)),
            SamplePromptEnum::LineBreak(_) => true,
        },
    decreases items.len(),
{
    if k < items.len() - 1 {
        lemma_prompt_chars_item(items.drop_last(), k);
        assert(items.drop_last()[k] == items[k]);
    }
}

/// The characters of an AI item are among the AI section's characters.
proof fn lemma_ai_chars_item(items: Seq<SampleAiEnum>, k: int)
    requires
        0 <= k < items.len(),
    ensures
        match items[k] {
            SampleAiEnum::Text(t) => t@.to_set().subset_of(ai_chars(items)),
            SampleAiEnum::Source(t) => t@.to_set().subset_of(ai_chars(items)),
            SampleAiEnum::Code(c) => c.content@.to_set().subset_of(ai_chars(items)),
            SampleAiEnum::LineBreak(_) => true,
        },
    decreases items.len(),
{
    if k < items.len() - 1 {
        lemma_ai_chars_item(items.drop_last(), k);
        assert(items.drop_last()[k] == items[k]);
    }
}

/// The characters of one sample are among those of all the samples.
proof fn lemma_samples_chars_item(ss: Seq<Sample>, i: int)
    requires
        0 <= i < ss.len(),
    ensures
        sample_chars(ss[i]).subset_of(samples_chars(ss)),
    decreases ss.len(),
{
    if i < ss.len() - 1 {
        lemma_samples_chars_item(ss.drop_last(), i);
        assert(ss.drop_last()[i] == ss[i]);
    }
}

/// A text whose characters all have their token in `v`.
proof fn lemma_has_char_tokens(v: Seq<Seq<char>>, t: Seq<char>, all: Set<char>)
    requires
        t.to_set().subset_of(all),
        forall|c: char| all.contains(c) ==> v.contains(seq![c]),
    ensures
        has_char_tokens(v, t),
{
    assert forall|j: int| 0 <= j < t.len() implies v.contains(seq![#[trigger] t[j]]) by {
        assert(t.contains(t[j]));
        assert(t.to_set().contains(t[j]));
    }
}

/// The vocabulary built on the samples' characters holds a single-character token for
/// every character of every sample, so that no text of the samples falls outside it.
pub proof fn lemma_initial_vocab_covers_samples(base: Seq<Seq<char>>, cs: Seq<char>, ss: Seq<Sample>)
    requires
        cs.to_set() == samples_chars(ss),
    ensures
        forall|i: int| 0 <= i < ss.len() ==> covers_sample(vocab_with_chars(base, cs), #[trigger] ss[i]),
{
    let w1 = add_new(base, singles(cs));
    let w2 = add_new(w1, singles(common_chars()));
    let v = vocab_with_chars(base, cs);
    crate::bpe::infer::lemma_joined_singles(cs);
    lemma_add_new_contains(base, singles(cs));
    lemma_add_new_contains(w1, singles(common_chars()));
    lemma_add_new_contains(w2, singles(digit_chars()));
    let all = samples_chars(ss);
    assert forall|c: char| all.contains(c) implies v.contains(seq![c]) by {
        assert(cs.to_set().contains(c));
        assert(cs.contains(c));
        let j = choose|j: int| 0 <= j < cs.len() && cs[j] == c;
        assert(singles(cs)[j] == seq![cs[j]]);
        assert(w1.contains(singles(cs)[j]));
        assert(w2.contains(seq![c]));
    }
    assert forall|i: int| 0 <= i < ss.len() implies covers_sample(v, #[trigger] ss[i]) by {
        let s = ss[i];
        lemma_samples_chars_item(ss, i);
        match s.system {
            Some(t) => lemma_has_char_tokens(v, t@, all),
            None => {},
        }
        match s.thought {
            Some(t) => lemma_has_char_tokens(v, t@, all),
            None => {},
        }
        assert forall|k: int| 0 <= k < s.prompt_section@.len() implies prompt_item_covered(
            v,
            #[trigger] s.prompt_section@[k],
        ) by {
            lemma_prompt_chars_item(s.prompt_section@, k);
            match s.prompt_section@[k] {
                SamplePromptEnum::Text(t) => lemma_has_char_tokens(v, t@, all),
                SamplePromptEnum::Code(c) => lemma_has_char_tokens(v, c.content@, all),
                SamplePromptEnum::LineBreak(_) => {},
            }
        }
        assert forall|k: int| 0 <= k < s.ai_section@.len() implies ai_item_covered(v, #[trigger] s.ai_section@[k]) by {
            lemma_ai_chars_item(s.ai_section@, k);
            match s.ai_section@[k] {
                SampleAiEnum::Text(t) => lemma_has_char_tokens(v, t@, all),
                SampleAiEnum::Source(t) => lemma_has_char_tokens(v, t@, all),
                SampleAiEnum::Code(c) => lemma_has_char_tokens(v, c.content@, all),
                SampleAiEnum::LineBreak(_) => {},
            }
        }
    }
}

/// Adds each token of `toks` that the vocabulary lacks.
fn add_new_tokens(vocab: &mut Vec<String>, toks: &[String])
    ensures
        views(final(vocab)@) == add_new(views(old(vocab)@), views(toks@)),
{
    let mut i: usize = 0;
    assert(views(toks@).subrange(0, 0) =~= Seq::<Seq<char>>::empty());
    while i < toks.len()
        invariant
            i <= toks@.len(),
            views(vocab@) == add_new(views(old(vocab)@), views(toks@).subrange(0, i as int)),
        decreases toks@.len() - i,
    {
        let ghost w = views(vocab@);
        let ghost sub = views(toks@).subrange(0, i + 1);
        assert(sub.drop_last() =~= views(toks@).subrange(0, i as int));
        assert(sub.last() == toks@[i as int]@);
        let found = find_token(vocab, toks[i].as_str());
        proof {
            lemma_token_index(w, toks@[i as int]@);
        }
        if found.is_none() {
            vocab.push(toks[i].clone());
            assert(views(vocab@) =~= w.push(toks@[i as int]@));
        } else {
            assert(w.contains(toks@[i as int]@));
        }
        i = i + 1;
    }
    assert(views(toks@).subrange(0, toks@.len() as int) =~= views(toks@));
}

/// Adds the single-character token of each character of `cs` that the vocabulary lacks.
fn add_new_chars(vocab: &mut Vec<String>, cs: &[char])
    ensures
        views(final(vocab)@) == add_new(views(old(vocab)@), singles(cs@)),
{
    let mut i: usize = 0;
    assert(cs@.subrange(0, 0) =~= Seq::<char>::empty());
    while i < cs.len()
        invariant
            i <= cs@.len(),
            views(vocab@) == add_new(views(old(vocab)@), singles(cs@.subrange(0, i as int))),
        decreases cs@.len() - i,
    {
        let ghost w = views(vocab@);
        let ghost sub = cs@.subrange(0, i + 1);
        assert(sub.drop_last() =~= cs@.subrange(0, i as int));
        assert(singles(sub).drop_last() =~= singles(cs@.subrange(0, i as int)));
        let token = char_to_string(cs[i]);
        let found = find_token(vocab, token.as_str());
        proof {
            lemma_token_index(w, token@);
        }
        if found.is_none() {
            vocab.push(token);
        }
        i = i + 1;
    }
    assert(cs@.subrange(0, cs@.len() as int) =~= cs@);
}

/// Adds each character of `s` that `acc` lacks.
fn collect_chars(acc: &mut Vec<char>, s: &str)
    requires
        old(acc)@.no_duplicates(),
    ensures
        final(acc)@.no_duplicates(),
        final(acc)@.to_set() == old(acc)@.to_set() + s@.to_set(),
{
    let cs = str_chars(s);
    let mut i: usize = 0;
    while i < cs.len()
        invariant
            cs@ == s@,
            i <= cs@.len(),
            acc@.no_duplicates(),
            acc@.to_set() == old(acc)@.to_set() + cs@.subrange(0, i as int).to_set(),
        decreases cs@.len() - i,
    {
        let c = cs[i];
        let mut j: usize = 0;
        let mut present = false;
        while j < acc.len()
            invariant
                j <= acc@.len(),
                present ==> acc@.contains(c),
                !present ==> forall|k: int| 0 <= k < j ==> acc@[k] != c,
            decreases acc@.len() - j,
        {
            if acc[j] == c {
                present = true;
            }
            j = j + 1;
        }
        let ghost before = acc@;
        if !present {
            acc.push(c);
            proof {
                lemma_to_set_push(before, c);
                assert(acc@.no_duplicates()) by {
                    assert forall|x: int, y: int| 0 <= x < y < acc@.len() implies acc@[x] != acc@[y] by {
                        if y == acc@.len() - 1 {
                            assert(acc@[x] == before[x]);
                        } else {
                            assert(acc@[x] == before[x] && acc@[y] == before[y]);
                        }
                    }
                }
            }
        } else {
            assert(before.to_set().contains(c));
            assert(before.to_set().insert(c) =~= before.to_set());
        }
        assert(cs@.subrange(0, i + 1) =~= cs@.subrange(0, i as int).push(c));
        proof {
            lemma_to_set_push(cs@.subrange(0, i as int), c);
        }
        i = i + 1;
        assert(acc@.to_set() =~= old(acc)@.to_set() + cs@.subrange(0, i as int).to_set());
    }
    assert(cs@.subrange(0, cs@.len() as int) =~= cs@);
}

/// Sorts distinct characters into strictly increasing order.
fn sort_chars(v: &Vec<char>) -> (out: Vec<char>)
    requires
        v@.no_duplicates(),
    ensures
        strictly_sorted(out@),
        out@.to_set() == v@.to_set(),
{
    let mut out: Vec<char> = Vec::new();
    let mut i: usize = 0;
    while i < v.len()
        invariant
            v@.no_duplicates(),
            i <= v@.len(),
            strictly_sorted(out@),
            out@.to_set() == v@.subrange(0, i as int).to_set(),
        decreases v@.len() - i,
    {
        let c = v[i];
        let mut pos: usize = 0;
        while pos < out.len() && (out[pos] as u32) < (c as u32)
            invariant
                pos <= out@.len(),
                forall|k: int| 0 <= k < pos ==> (out@[k] as u32) < (c as u32),
            decreases out@.len() - pos,
        {
            pos = pos + 1;
        }
        proof {
            assert(!v@.subrange(0, i as int).contains(c)) by {
                if v@.subrange(0, i as int).contains(c) {
                    let k = choose|k: int| 0 <= k < i && v@.subrange(0, i as int)[k] == c;
                    assert(v@[k] == v@[i as int]);
                }
            }
            assert(!out@.contains(c)) by {
                assert(!out@.to_set().contains(c));
            }
            if pos < out@.len() {
                assert(out@[pos as int] != c);
                if (out@[pos as int] as u32) == (c as u32) {
                    lemma_char_u32_injective(out@[pos as int], c);
                }
            }
        }
        let ghost before = out@;
        out.insert(pos, c);
        proof {
            assert(out@ =~= before.insert(pos as int, c));
            assert forall|a: int, b: int| 0 <= a < b < out@.len() implies (out@[a] as u32) < (out@[b] as u32) by {
                if b < pos {
                } else if b == pos {
                } else if a < pos {
                    assert(out@[b] == before[b - 1]);
                    assert((before[a] as u32) < (c as u32));
                    if pos < before.len() {
                        assert((c as u32) < (before[pos as int] as u32));
                    }
                } else if a == pos {
                    assert(out@[b] == before[b - 1]);
                    assert((c as u32) < (before[pos as int] as u32));
                } else {
                    assert(out@[a] == before[a - 1]);
                    assert(out@[b] == before[b - 1]);
                }
            }
            lemma_to_set_insert_at(before, pos as int, c);
            assert(v@.subrange(0, i + 1) =~= v@.subrange(0, i as int).push(c));
            lemma_to_set_push(v@.subrange(0, i as int), c);
        }
        i = i + 1;
    }
    assert(v@.subrange(0, v@.len() as int) =~= v@);
    out
}

/// Collects the characters of one sample.
fn collect_sample_chars(acc: &mut Vec<char>, sample: &Sample)
    requires
        old(acc)@.no_duplicates(),
    ensures
        final(acc)@.no_duplicates(),
        final(acc)@.to_set() == old(acc)@.to_set() + sample_chars(*sample),
{
    if let Some(system) = &sample.system {
        collect_chars(acc, system.as_str());
    }
    assert(acc@.to_set() =~= old(acc)@.to_set() + option_chars(sample.system));
    let ghost after_system = acc@.to_set();
    if let Some(thought) = &sample.thought {
        collect_chars(acc, thought.as_str());
    }
    assert(acc@.to_set() =~= after_system + option_chars(sample.thought));
    let ghost after_thought = acc@.to_set();
    let mut i: usize = 0;
    assert(sample.prompt_section@.subrange(0, 0) =~= Seq::<SamplePromptEnum>::empty());
    while i < sample.prompt_section.len()
        invariant
            i <= sample.prompt_section@.len(),
            acc@.no_duplicates(),
            acc@.to_set() == after_thought + prompt_chars(sample.prompt_section@.subrange(0, i as int)),
        decreases sample.prompt_section@.len() - i,
    {
        let ghost before = acc@.to_set();
        match &sample.prompt_section[i] {
            SamplePromptEnum::Text(text) => collect_chars(acc, text.as_str()),
            SamplePromptEnum::Code(code) => collect_chars(acc, code.content.as_str()),
            SamplePromptEnum::LineBreak(_) => {},
        }
        proof {
            let sub = sample.prompt_section@.subrange(0, i + 1);
            assert(sub.drop_last() =~= sample.prompt_section@.subrange(0, i as int));
            assert(sub.last() == sample.prompt_section@[i as int]);
        }
        i = i + 1;
        assert(acc@.to_set() =~= after_thought + prompt_chars(sample.prompt_section@.subrange(0, i as int)));
    }
    assert(sample.prompt_section@.subrange(0, sample.prompt_section@.len() as int) =~= sample.prompt_section@);
    let ghost after_prompt = acc@.to_set();
    let mut k: usize = 0;
    assert(sample.ai_section@.subrange(0, 0) =~= Seq::<SampleAiEnum>::empty());
    while k < sample.ai_section.len()
        invariant
            k <= sample.ai_section@.len(),
            acc@.no_duplicates(),
            acc@.to_set() == after_prompt + ai_chars(sample.ai_section@.subrange(0, k as int)),
        decreases sample.ai_section@.len() - k,
    {
        match &sample.ai_section[k] {
            SampleAiEnum::Text(text) => collect_chars(acc, text.as_str()),
            SampleAiEnum::Code(code) => collect_chars(acc, code.content.as_str()),
            SampleAiEnum::Source(source) => collect_chars(acc, source.as_str()),
            SampleAiEnum::LineBreak(_) => {},
        }
        proof {
            let sub = sample.ai_section@.subrange(0, k + 1);
            assert(sub.drop_last() =~= sample.ai_section@.subrange(0, k as int));
            assert(sub.last() == sample.ai_section@[k as int]);
        }
        k = k + 1;
        assert(acc@.to_set() =~= after_prompt + ai_chars(sample.ai_section@.subrange(0, k as int)));
    }
    assert(sample.ai_section@.subrange(0, sample.ai_section@.len() as int) =~= sample.ai_section@);
    assert(acc@.to_set() =~= old(acc)@.to_set() + sample_chars(*sample));
}

/// Builds the initial vocabulary: the special tokens (each once), then the requested tokens
/// not already present; then, when there are samples, the samples' characters in increasing
/// order, the common programming punctuation and the digits, each when not yet present.
/// The merges are left as they were.
pub fn bpe_init_vocab(
    tokenizer: &mut BPETokenizer,
    samples: &[Sample],
    special_tokens: &[String],
    requested_tokens: &[String],
)
    ensures
        ({
            let v1 = add_new(seq![], views(special_tokens@));
            let v2 = add_new(v1, views(requested_tokens@));
            &&& final(tokenizer).special_token_count == v1.len() as u32
            &&& final(tokenizer).initial_token_count == v2.len() as u32
            &&& final(tokenizer).merges == old(tokenizer).merges
            &&& samples@.len() == 0 ==> final(tokenizer).vocab_view() == v2
            &&& samples@.len() > 0 ==> exists|cs: Seq<char>|
                strictly_sorted(cs) && cs.to_set() == samples_chars(samples@)
                    && final(tokenizer).vocab_view() == #[trigger] vocab_with_chars(v2, cs)
            &&& forall|i: int| 0 <= i < samples@.len() ==> covers_sample(final(tokenizer).vocab_view(), #[trigger] samples@[i])
            &&& forall|j: int| 0 <= j < special_tokens@.len() ==> final(tokenizer).vocab_view().contains(#[trigger] special_tokens@[j]@)
            &&& forall|j: int| 0 <= j < requested_tokens@.len() ==> final(tokenizer).vocab_view().contains(#[trigger] requested_tokens@[j]@)
        }),
{
    tokenizer.vocab = Vec::new();
    assert(views(tokenizer.vocab@) =~= Seq::<Seq<char>>::empty());
    add_new_tokens(&mut tokenizer.vocab, special_tokens);
    tokenizer.special_token_count = tokenizer.vocab.len() as u32;
    add_new_tokens(&mut tokenizer.vocab, requested_tokens);
    tokenizer.initial_token_count = tokenizer.vocab.len() as u32;
    let ghost v2 = views(tokenizer.vocab@);
    proof {
        let v1 = add_new(seq![], views(special_tokens@));
        lemma_add_new_contains(seq![], views(special_tokens@));
        lemma_add_new_contains(v1, views(requested_tokens@));
        assert forall|j: int| 0 <= j < special_tokens@.len() implies v2.contains(#[trigger] special_tokens@[j]@) by {
            assert(views(special_tokens@)[j] == special_tokens@[j]@);
        }
        assert forall|j: int| 0 <= j < requested_tokens@.len() implies v2.contains(#[trigger] requested_tokens@[j]@) by {
            assert(views(requested_tokens@)[j] == requested_tokens@[j]@);
        }
    }
    if samples.len() > 0 {
        let mut all_chars: Vec<char> = Vec::new();
        let mut i: usize = 0;
        assert(samples@.subrange(0, 0) =~= Seq::<Sample>::empty());
        assert(all_chars@.to_set() =~= Set::<char>::empty());
        while i < samples.len()
            invariant
                i <= samples@.len(),
                all_chars@.no_duplicates(),
                all_chars@.to_set() == samples_chars(samples@.subrange(0, i as int)),
            decreases samples@.len() - i,
        {
            collect_sample_chars(&mut all_chars, &samples[i]);
            proof {
                let sub = samples@.subrange(0, i + 1);
                assert(sub.drop_last() =~= samples@.subrange(0, i as int));
                assert(sub.last() == samples@[i as int]);
            }
            i = i + 1;
        }
        assert(samples@.subrange(0, samples@.len() as int) =~= samples@);
        let chars = sort_chars(&all_chars);
        add_new_chars(&mut tokenizer.vocab, chars.as_slice());
        let common: [char; 16] = ['!', '@', '#', '$', '%', '^', '&', '*', '+', '=', '~', '`', '|', '\\', ';', ':'];
        assert(common@ =~= common_chars());
        add_new_chars(&mut tokenizer.vocab, common.as_slice());
        let digits: [char; 10] = ['0', '1', '2', '3', '4', '5', '6', '7', '8', '9'];
        assert(digits@ =~= digit_chars());
        add_new_chars(&mut tokenizer.vocab, digits.as_slice());
        assert(tokenizer.vocab_view() == vocab_with_chars(v2, chars@));
        proof {
            lemma_initial_vocab_covers_samples(v2, chars@, samples@);
            let w1 = add_new(v2, singles(chars@));
            let w2 = add_new(w1, singles(common_chars()));
            lemma_add_new_contains(v2, singles(chars@));
            lemma_add_new_contains(w1, singles(common_chars()));
            lemma_add_new_contains(w2, singles(digit_chars()));
        }
    }
}

} // verus!
