//! Building samples from the entries of a training document, by ids or by child tags.

use vstd::prelude::*;
use crate::sample::structs::{Sample, SamplePromptEnum, SampleAiEnum, SampleCode, SampleLineBreak};
use crate::sample::language::{SampleLanguage, SampleIndent, lang_from_name};
use crate::text::concat_str;
use crate::train_xml::{
    id_lookup, TrainXMLIdMaps, TrainXMLSamplesSampleIds, TrainXMLSamplesSample,
    TrainXMLSamplesSampleChildren,
};

verus! {

/// The parts of a sample, with the system prompt and the thought as text.
pub struct SampleParts {
    pub system: Option<Seq<char>>,
    pub thought: Option<Seq<char>>,
    pub prompt_section: Seq<SamplePromptEnum>,
    pub ai_section: Seq<SampleAiEnum>,
}

/// The text of an optional string.
pub open spec fn opt_view(s: Option<String>) -> Option<Seq<char>> {
    match s {
        Some(x) => Some(x@),
        None => None,
    }
}

/// The parts of a sample.
pub open spec fn parts_of(s: Sample) -> SampleParts {
    SampleParts {
        system: opt_view(s.system),
        thought: opt_view(s.thought),
        prompt_section: s.prompt_section@,
        ai_section: s.ai_section@,
    }
}

/// The parts of an optional sample.
pub open spec fn opt_parts(s: Option<Sample>) -> Option<SampleParts> {
    match s {
        Some(x) => Some(parts_of(x)),
        None => None,
    }
}

/// An optional id is either absent or names an entry.
pub open spec fn resolves<T>(m: Seq<(Seq<char>, T)>, id: Option<String>) -> bool {
    match id {
        Some(i) => id_lookup(m, i@) is Some,
        None => true,
    }
}

/// A code snippet shown as a block: its language, not inline, no indent, its text.
pub open spec fn code_item(lang: String, content: String, inline: bool, indent: SampleIndent) -> SampleAiEnum {
    SampleAiEnum::Code(SampleCode { lang: lang_from_name(lang@), inline, indent, content })
}

/// The AI items of a sample described by ids: the response text, the source id and the code
/// block, each when given.
pub open spec fn via_ids_ai(s: TrainXMLSamplesSampleIds, m: TrainXMLIdMaps) -> Seq<SampleAiEnum> {
    let r = match s.response {
        Some(i) => seq![SampleAiEnum::Text(id_lookup(m.responses@, i@)->0.content)],
        None => seq![],
    };
    let src = match s.source {
        Some(i) => seq![SampleAiEnum::Source(i)],
        None => seq![],
    };
    let c = match s.code {
        Some(i) => {
            let code = id_lookup(m.code_snippets@, i@)->0;
            seq![code_item(code.lang, code.content, false, SampleIndent::Zero)]
        },
        None => seq![],
    };
    r + src + c
}

/// The sample that ids describe: none when the prompt or any given id is missing from the
/// maps, or when the AI section would be empty.
pub open spec fn via_ids_parts(s: TrainXMLSamplesSampleIds, m: TrainXMLIdMaps) -> Option<SampleParts> {
    let ok = id_lookup(m.prompts@, s.prompt@) is Some && resolves(m.system_prompts@, s.system)
        && resolves(m.thoughts@, s.thought) && resolves(m.responses@, s.response) && resolves(
        m.sources@,
        s.source,
    ) && resolves(m.code_snippets@, s.code);
    if !ok || via_ids_ai(s, m).len() == 0 {
        None
    } else {
        Some(
            SampleParts {
                system: match s.system {
                    Some(i) => Some(id_lookup(m.system_prompts@, i@)->0.content@),
                    None => None,
                },
                thought: match s.thought {
                    Some(i) => Some(id_lookup(m.thoughts@, i@)->0.content@),
                    None => None,
                },
                prompt_section: seq![SamplePromptEnum::Text(id_lookup(m.prompts@, s.prompt@)->0.content)],
                ai_section: via_ids_ai(s, m),
            },
        )
    }
}

/// A code item is shown as a block: not inline, with no indent. Other items pass.
pub open spec fn shown_as_block(item: SampleAiEnum) -> bool {
    match item {
        SampleAiEnum::Code(c) => !c.inline && c.indent == SampleIndent::Zero,
        _ => true,
    }
}

/// What a sample built from ids answers with, item by item: the response's text when a
/// response id is given, the source id when one is given, and the snippet as a code block in
/// its language when a code id is given; nothing else, and every code item a block.
pub open spec fn ids_answer(s: TrainXMLSamplesSampleIds, m: TrainXMLIdMaps, ai: Seq<SampleAiEnum>) -> bool {
    &&& forall|k: int| 0 <= k < ai.len() ==> shown_as_block(#[trigger] ai[k])
    &&& ai.len() == (if s.response is Some { 1int } else { 0 }) + (if s.source is Some { 1int } else { 0 }) + (
    if s.code is Some { 1int } else { 0 })
    &&& match s.response {
        Some(i) => ai[0] == SampleAiEnum::Text(id_lookup(m.responses@, i@)->0.content),
        None => true,
    }
    &&& match s.source {
        Some(i) => ai.contains(SampleAiEnum::Source(i)),
        None => true,
    }
    &&& match s.code {
        Some(i) => {
            let c = id_lookup(m.code_snippets@, i@)->0;
            ai.last() == SampleAiEnum::Code(
                SampleCode { lang: lang_from_name(c.lang@), inline: false, indent: SampleIndent::Zero, content: c.content },
            )
        },
        None => true,
    }
}

/// Every id of the entry names an entry of the maps (the optional ones when given), and at
/// least one of the response, source and code ids is given.
pub open spec fn ids_complete(s: TrainXMLSamplesSampleIds, m: TrainXMLIdMaps) -> bool {
    &&& id_lookup(m.prompts@, s.prompt@) is Some
    &&& (s.system matches Some(i) ==> id_lookup(m.system_prompts@, i@) is Some)
    &&& (s.thought matches Some(i) ==> id_lookup(m.thoughts@, i@) is Some)
    &&& (s.response matches Some(i) ==> id_lookup(m.responses@, i@) is Some)
    &&& (s.source matches Some(i) ==> id_lookup(m.sources@, i@) is Some)
    &&& (s.code matches Some(i) ==> id_lookup(m.code_snippets@, i@) is Some)
    &&& (s.response is Some || s.source is Some || s.code is Some)
}

/// A sample built from ids asks the prompt's text as its whole prompt, and carries the system
/// prompt's and the thought's text exactly when their ids are given.
pub open spec fn ids_frame(s: TrainXMLSamplesSampleIds, m: TrainXMLIdMaps, x: Sample) -> bool {
    &&& x.prompt_section@.len() == 1
    &&& x.prompt_section@[0] matches SamplePromptEnum::Text(p) && p@ == id_lookup(m.prompts@, s.prompt@)->0.content@
    &&& match s.system {
        Some(i) => x.system matches Some(t) && t@ == id_lookup(m.system_prompts@, i@)->0.content@,
        None => x.system is None,
    }
    &&& match s.thought {
        Some(i) => x.thought matches Some(t) && t@ == id_lookup(m.thoughts@, i@)->0.content@,
        None => x.thought is None,
    }
}

/// The AI items that ids give answer as the ids say, each code item a block.
pub proof fn lemma_via_ids_ai_answers(s: TrainXMLSamplesSampleIds, m: TrainXMLIdMaps)
    ensures
        ids_answer(s, m, via_ids_ai(s, m)),
{
    let ai = via_ids_ai(s, m);
    let r = match s.response {
        Some(i) => seq![SampleAiEnum::Text(id_lookup(m.responses@, i@)->0.content)],
        None => seq![],
    };
    let src = match s.source {
        Some(i) => seq![SampleAiEnum::Source(i)],
        None => seq![],
    };
    assert(ai.len() == r.len() + src.len() + (if s.code is Some { 1int } else { 0 }));
    assert forall|k: int| 0 <= k < ai.len() implies shown_as_block(#[trigger] ai[k]) by {
        if k < r.len() {
            assert(ai[k] == r[k]);
        } else if k < r.len() + src.len() {
            assert(ai[k] == src[k - r.len()]);
        }
    }
    if s.response is Some {
        assert(ai[0] == r[0]);
    }
    if let Some(i) = s.source {
        assert(ai[r.len() as int] == SampleAiEnum::Source(i));
    }
}

/// Builds a sample from ids: the prompt (required), and the system prompt, thought, response,
/// source and code snippet when their ids are given. Any id that the maps lack, or an empty AI
/// section, gives no sample.
pub fn sample_create_via_ids(samples: &TrainXMLSamplesSampleIds, train_xml_ids: &TrainXMLIdMaps) -> (r: Option<Sample>)
    ensures
        opt_parts(r) == via_ids_parts(*samples, *train_xml_ids),
        r is Some <==> ids_complete(*samples, *train_xml_ids),
        r is Some ==> ids_answer(*samples, *train_xml_ids, r->0.ai_section@),
        r is Some ==> ids_frame(*samples, *train_xml_ids, r->0),
{
    let prompt = match train_xml_ids.prompts.get(samples.prompt.as_str()) {
        Some(p) => p,
        None => {
            return None;
        },
    };
    let mut system: Option<String> = None;
    if let Some(system_id) = &samples.system {
        if let Some(system_prompt) = train_xml_ids.system_prompts.get(system_id.as_str()) {
            system = Some(system_prompt.content.clone());
        } else {
            return None;
        }
    }
    let mut thought: Option<String> = None;
    if let Some(thought_id) = &samples.thought {
        if let Some(thought_prompt) = train_xml_ids.thoughts.get(thought_id.as_str()) {
            thought = Some(thought_prompt.content.clone());
        } else {
            return None;
        }
    }
    let mut prompt_section: Vec<SamplePromptEnum> = Vec::new();
    prompt_section.push(SamplePromptEnum::Text(prompt.content.clone()));
    let mut ai_section: Vec<SampleAiEnum> = Vec::new();
    if let Some(response_id) = &samples.response {
        if let Some(response) = train_xml_ids.responses.get(response_id.as_str()) {
            ai_section.push(SampleAiEnum::Text(response.content.clone()));
        } else {
            return None;
        }
    }
    let ghost after_response = ai_section@;
    if let Some(source_id) = &samples.source {
        if let Some(_source) = train_xml_ids.sources.get(source_id.as_str()) {
            ai_section.push(SampleAiEnum::Source(source_id.clone()));
        } else {
            return None;
        }
    }
    let ghost after_source = ai_section@;
    if let Some(code_id) = &samples.code {
        if let Some(code) = train_xml_ids.code_snippets.get(code_id.as_str()) {
            let lang = SampleLanguage::from_str(code.lang.as_str());
            ai_section.push(
                SampleAiEnum::Code(
                    SampleCode { lang, inline: false, indent: SampleIndent::Zero, content: code.content.clone() },
                ),
            );
        } else {
            return None;
        }
    }
    assert(ai_section@ =~= via_ids_ai(*samples, *train_xml_ids));
    proof {
        lemma_via_ids_ai_answers(*samples, *train_xml_ids);
    }
    if ai_section.len() == 0 {
        None
    } else {
        let r = Sample { system, thought, prompt_section, ai_section };
        assert(parts_of(r).prompt_section =~= seq![
            SamplePromptEnum::Text(id_lookup(train_xml_ids.prompts@, samples.prompt@)->0.content),
        ]);
        Some(r)
    }
}


/// What reading a sample's children gives so far: the system text, the prompt found last,
/// and the AI items.
pub struct TagsState {
    pub system: Seq<char>,
    pub prompt: Option<String>,
    pub ai: Seq<SampleAiEnum>,
}

/// The indent of a code reference, none meaning zero.
pub open spec fn indent_or_zero(i: Option<SampleIndent>) -> SampleIndent {
    match i {
        Some(x) => x,
        None => SampleIndent::Zero,
    }
}

/// Reads one child: a prompt that resolves becomes the prompt; a system prompt that resolves is
/// appended to the system text; responses, sources and code snippets that resolve, and line
/// breaks, become AI items (a response with a source gives the text, then the source when it
/// resolves). References that do not resolve are passed over.
pub open spec fn tags_step(m: TrainXMLIdMaps, st: TagsState, child: TrainXMLSamplesSampleChildren) -> TagsState {
    match child {
        TrainXMLSamplesSampleChildren::Prompt(r) => match id_lookup(m.prompts@, r.id@) {
            Some(p) => TagsState { system: st.system, prompt: Some(p.content), ai: st.ai },
            None => st,
        },
        TrainXMLSamplesSampleChildren::System(r) => match id_lookup(m.system_prompts@, r.id@) {
            Some(x) => TagsState { system: st.system + x.content@, prompt: st.prompt, ai: st.ai },
            None => st,
        },
        TrainXMLSamplesSampleChildren::Response(r) => match id_lookup(m.responses@, r.id@) {
            Some(x) => TagsState { system: st.system, prompt: st.prompt, ai: st.ai.push(SampleAiEnum::Text(x.content)) },
            None => st,
        },
        TrainXMLSamplesSampleChildren::Source(r) => match id_lookup(m.sources@, r.id@) {
            Some(_) => TagsState { system: st.system, prompt: st.prompt, ai: st.ai.push(SampleAiEnum::Source(r.id)) },
            None => st,
        },
        TrainXMLSamplesSampleChildren::Code(r) => match id_lookup(m.code_snippets@, r.id@) {
            Some(c) => TagsState {
                system: st.system,
                prompt: st.prompt,
                ai: st.ai.push(
                    code_item(
                        c.lang,
                        c.content,
                        match r.inline {
                            Some(b) => b,
                            None => false,
                        },
                        indent_or_zero(r.indent),
                    ),
                ),
            },
            None => st,
        },
        TrainXMLSamplesSampleChildren::ResponseIds(r) => {
            let st1 = match id_lookup(m.responses@, r.response@) {
                Some(x) => TagsState { system: st.system, prompt: st.prompt, ai: st.ai.push(SampleAiEnum::Text(x.content)) },
                None => st,
            };
            match r.source {
                Some(sid) => match id_lookup(m.sources@, sid@) {
                    Some(_) => TagsState { system: st1.system, prompt: st1.prompt, ai: st1.ai.push(SampleAiEnum::Source(sid)) },
                    None => st1,
                },
                None => st1,
            }
        },
        TrainXMLSamplesSampleChildren::LineBreak(lb) => TagsState {
            system: st.system,
            prompt: st.prompt,
            ai: st.ai.push(SampleAiEnum::LineBreak(SampleLineBreak { count: lb.count })),
        },
    }
}

/// Reads the children in order, from nothing.
pub open spec fn tags_run(m: TrainXMLIdMaps, children: Seq<TrainXMLSamplesSampleChildren>) -> TagsState
    decreases children.len(),
{
    if children.len() == 0 {
        TagsState { system: seq![], prompt: None, ai: seq![] }
    } else {
        tags_step(m, tags_run(m, children.drop_last()), children.last())
    }
}

/// `ai` holds the AI item that `child` stands for, when its reference resolves: a response as
/// its text, a source as its id, a code snippet as a code item in the snippet's language with
/// the reference's inline flag (absent meaning not inline) and indent (absent meaning none), a
/// response-with-source as the text and the source, and a line break as itself.
pub open spec fn child_shown(m: TrainXMLIdMaps, child: TrainXMLSamplesSampleChildren, ai: Seq<SampleAiEnum>) -> bool {
    match child {
        TrainXMLSamplesSampleChildren::Prompt(_) => true,
        TrainXMLSamplesSampleChildren::System(_) => true,
        TrainXMLSamplesSampleChildren::Response(r) => match id_lookup(m.responses@, r.id@) {
            Some(x) => ai.contains(SampleAiEnum::Text(x.content)),
            None => true,
        },
        TrainXMLSamplesSampleChildren::Source(r) => match id_lookup(m.sources@, r.id@) {
            Some(_) => ai.contains(SampleAiEnum::Source(r.id)),
            None => true,
        },
        TrainXMLSamplesSampleChildren::Code(r) => match id_lookup(m.code_snippets@, r.id@) {
            Some(c) => ai.contains(
                SampleAiEnum::Code(
                    SampleCode {
                        lang: lang_from_name(c.lang@),
                        inline: match r.inline {
                            Some(b) => b,
                            None => false,
                        },
                        indent: match r.indent {
                            Some(x) => x,
                            None => SampleIndent::Zero,
                        },
                        content: c.content,
                    },
                ),
            ),
            None => true,
        },
        TrainXMLSamplesSampleChildren::ResponseIds(r) => {
            &&& match id_lookup(m.responses@, r.response@) {
                Some(x) => ai.contains(SampleAiEnum::Text(x.content)),
                None => true,
            }
            &&& match r.source {
                Some(sid) => match id_lookup(m.sources@, sid@) {
                    Some(_) => ai.contains(SampleAiEnum::Source(sid)),
                    None => true,
                },
                None => true,
            }
        },
        TrainXMLSamplesSampleChildren::LineBreak(lb) => ai.contains(
            SampleAiEnum::LineBreak(SampleLineBreak { count: lb.count }),
        ),
    }
}

/// Reading a child keeps the AI items read so far, in front.
proof fn lemma_tags_step_keeps(m: TrainXMLIdMaps, st: TagsState, child: TrainXMLSamplesSampleChildren)
    ensures
        tags_step(m, st, child).ai.len() >= st.ai.len(),
        tags_step(m, st, child).ai.subrange(0, st.ai.len() as int) == st.ai,
{
    let ai = tags_step(m, st, child).ai;
    assert(ai.subrange(0, st.ai.len() as int) =~= st.ai);
}

/// What a child shows stays shown when AI items are added behind.
proof fn lemma_child_shown_grows(m: TrainXMLIdMaps, child: TrainXMLSamplesSampleChildren, a: Seq<SampleAiEnum>, b: Seq<SampleAiEnum>)
    requires
        child_shown(m, child, a),
        b.len() >= a.len(),
        b.subrange(0, a.len() as int) == a,
    ensures
        child_shown(m, child, b),
{
    assert forall|x: SampleAiEnum| #[trigger] a.contains(x) implies b.contains(x) by {
        let i = choose|i: int| 0 <= i < a.len() && a[i] == x;
        assert(b.subrange(0, a.len() as int)[i] == b[i]);
    }
}

/// A child's own step shows it.
proof fn lemma_tags_step_shows(m: TrainXMLIdMaps, st: TagsState, child: TrainXMLSamplesSampleChildren)
    ensures
        child_shown(m, child, tags_step(m, st, child).ai),
{
    let ai = tags_step(m, st, child).ai;
    match child {
        TrainXMLSamplesSampleChildren::ResponseIds(r) => {
            let st1 = match id_lookup(m.responses@, r.response@) {
                Some(x) => TagsState { system: st.system, prompt: st.prompt, ai: st.ai.push(SampleAiEnum::Text(x.content)) },
                None => st,
            };
            if let Some(x) = id_lookup(m.responses@, r.response@) {
                assert(st1.ai[st.ai.len() as int] == SampleAiEnum::Text(x.content));
                assert(ai.len() >= st1.ai.len());
                assert(ai[st.ai.len() as int] == SampleAiEnum::Text(x.content));
            }
            if let Some(sid) = r.source {
                if id_lookup(m.sources@, sid@) is Some {
                    assert(ai[st1.ai.len() as int] == SampleAiEnum::Source(sid));
                }
            }
        },
        _ => {
            if ai.len() > st.ai.len() {
                assert(ai[st.ai.len() as int] == ai.last());
            }
        },
    }
}

/// After reading all the children, the AI items hold what each child stands for.
pub proof fn lemma_tags_run_shows_children(m: TrainXMLIdMaps, cs: Seq<TrainXMLSamplesSampleChildren>)
    ensures
        forall|k: int| 0 <= k < cs.len() ==> child_shown(m, #[trigger] cs[k], tags_run(m, cs).ai),
    decreases cs.len(),
{
    if cs.len() > 0 {
        let prev = tags_run(m, cs.drop_last());
        let ai = tags_run(m, cs).ai;
        lemma_tags_run_shows_children(m, cs.drop_last());
        lemma_tags_step_keeps(m, prev, cs.last());
        lemma_tags_step_shows(m, prev, cs.last());
        assert forall|k: int| 0 <= k < cs.len() implies child_shown(m, #[trigger] cs[k], ai) by {
            if k < cs.len() - 1 {
                assert(cs.drop_last()[k] == cs[k]);
                lemma_child_shown_grows(m, cs[k], prev.ai, ai);
            }
        }
    }
}

/// The child names a prompt of the maps.
pub open spec fn resolving_prompt(m: TrainXMLIdMaps, c: TrainXMLSamplesSampleChildren) -> bool {
    match c {
        TrainXMLSamplesSampleChildren::Prompt(r) => id_lookup(m.prompts@, r.id@) is Some,
        _ => false,
    }
}

/// The child stands for at least one AI item: a line break, or a response, source or code
/// reference that names an entry of the maps.
pub open spec fn adds_ai_item(m: TrainXMLIdMaps, c: TrainXMLSamplesSampleChildren) -> bool {
    match c {
        TrainXMLSamplesSampleChildren::Prompt(_) => false,
        TrainXMLSamplesSampleChildren::System(_) => false,
        TrainXMLSamplesSampleChildren::Response(r) => id_lookup(m.responses@, r.id@) is Some,
        TrainXMLSamplesSampleChildren::Source(r) => id_lookup(m.sources@, r.id@) is Some,
        TrainXMLSamplesSampleChildren::Code(r) => id_lookup(m.code_snippets@, r.id@) is Some,
        TrainXMLSamplesSampleChildren::ResponseIds(r) => id_lookup(m.responses@, r.response@) is Some || match r.source {
            Some(sid) => id_lookup(m.sources@, sid@) is Some,
            None => false,
        },
        TrainXMLSamplesSampleChildren::LineBreak(_) => true,
    }
}

/// `cs[k]` is the last child that names a prompt of the maps, and `p` is that prompt's text.
pub open spec fn last_prompt(m: TrainXMLIdMaps, cs: Seq<TrainXMLSamplesSampleChildren>, k: int, p: Seq<char>) -> bool {
    &&& 0 <= k < cs.len()
    &&& match cs[k] {
        TrainXMLSamplesSampleChildren::Prompt(r) => match id_lookup(m.prompts@, r.id@) {
            Some(x) => x.content@ == p,
            None => false,
        },
        _ => false,
    }
    &&& forall|j: int| k < j < cs.len() ==> !resolving_prompt(m, #[trigger] cs[j])
}

/// The sample's whole prompt is the text of the last child that names a prompt of the maps.
pub open spec fn asks_last_prompt(m: TrainXMLIdMaps, cs: Seq<TrainXMLSamplesSampleChildren>, x: Sample) -> bool {
    &&& x.prompt_section@.len() == 1
    &&& match x.prompt_section@[0] {
        SamplePromptEnum::Text(t) => exists|k: int| #[trigger] last_prompt(m, cs, k, t@),
        _ => false,
    }
}

/// `x` occurs in `t` as a run of consecutive characters.
pub open spec fn occurs_in(x: Seq<char>, t: Seq<char>) -> bool {
    exists|i: int| 0 <= i && i + x.len() <= t.len() && #[trigger] t.subrange(i, i + x.len()) == x
}

/// A system reference that names an entry of the maps has that entry's text in `sys`.
pub open spec fn system_shown(m: TrainXMLIdMaps, c: TrainXMLSamplesSampleChildren, sys: Seq<char>) -> bool {
    match c {
        TrainXMLSamplesSampleChildren::System(r) => match id_lookup(m.system_prompts@, r.id@) {
            Some(x) => occurs_in(x.content@, sys),
            None => true,
        },
        _ => true,
    }
}

/// The child names a system prompt of the maps whose text is not empty.
pub open spec fn adds_system_text(m: TrainXMLIdMaps, c: TrainXMLSamplesSampleChildren) -> bool {
    match c {
        TrainXMLSamplesSampleChildren::System(r) => match id_lookup(m.system_prompts@, r.id@) {
            Some(x) => x.content@.len() > 0,
            None => false,
        },
        _ => false,
    }
}

/// Reading the children gathers the text of every system prompt they name, and gathers some
/// text exactly when one of them is not empty.
pub proof fn lemma_tags_run_system(m: TrainXMLIdMaps, cs: Seq<TrainXMLSamplesSampleChildren>)
    ensures
        forall|k: int| 0 <= k < cs.len() ==> system_shown(m, #[trigger] cs[k], tags_run(m, cs).system),
        (tags_run(m, cs).system.len() > 0) <==> exists|k: int| 0 <= k < cs.len() && adds_system_text(m, #[trigger] cs[k]),
    decreases cs.len(),
{
    if cs.len() > 0 {
        let d = cs.drop_last();
        let prev = tags_run(m, d);
        let c = cs.last();
        let n = cs.len() - 1;
        let sys = tags_run(m, cs).system;
        lemma_tags_run_system(m, d);
        assert(tags_run(m, cs) == tags_step(m, prev, c));
        assert(forall|k: int| 0 <= k < d.len() ==> d[k] == cs[k]);
        assert(cs[n] == c);
        let extra = match c {
            TrainXMLSamplesSampleChildren::System(r) => match id_lookup(m.system_prompts@, r.id@) {
                Some(x) => x.content@,
                None => seq![],
            },
            _ => seq![],
        };
        assert(sys == prev.system + extra);
        assert forall|k: int| 0 <= k < cs.len() implies system_shown(m, #[trigger] cs[k], sys) by {
            if k < n {
                assert(system_shown(m, d[k], prev.system));
                if let TrainXMLSamplesSampleChildren::System(r) = cs[k] {
                    if let Some(x) = id_lookup(m.system_prompts@, r.id@) {
                        let i = choose|i: int| 0 <= i && i + x.content@.len() <= prev.system.len()
                            && #[trigger] prev.system.subrange(i, i + x.content@.len()) == x.content@;
                        assert(sys.subrange(i, i + x.content@.len()) =~= prev.system.subrange(i, i + x.content@.len()));
                    }
                }
            } else {
                if let TrainXMLSamplesSampleChildren::System(r) = c {
                    if let Some(x) = id_lookup(m.system_prompts@, r.id@) {
                        let i = prev.system.len() as int;
                        assert(sys.subrange(i, i + x.content@.len()) =~= x.content@);
                    }
                }
            }
        }
        if sys.len() > 0 {
            if adds_system_text(m, c) {
                assert(adds_system_text(m, cs[n]));
            } else {
                assert(prev.system.len() > 0);
                let k = choose|k: int| 0 <= k < d.len() && adds_system_text(m, #[trigger] d[k]);
                assert(adds_system_text(m, cs[k]));
            }
        }
        if exists|k: int| 0 <= k < cs.len() && adds_system_text(m, #[trigger] cs[k]) {
            let k = choose|k: int| 0 <= k < cs.len() && adds_system_text(m, #[trigger] cs[k]);
            if k < n {
                assert(adds_system_text(m, d[k]));
            }
        }
    }
}

/// The text of an optional system prompt, empty when there is none.
pub open spec fn system_text(s: Option<String>) -> Seq<char> {
    match s {
        Some(t) => t@,
        None => seq![],
    }
}

/// Reading the children finds a prompt exactly when some child names one of the maps, and
/// then it is the last such; it finds AI items exactly when some child stands for one.
pub proof fn lemma_tags_run_prompt_and_items(m: TrainXMLIdMaps, cs: Seq<TrainXMLSamplesSampleChildren>)
    ensures
        (tags_run(m, cs).prompt is Some) <==> exists|k: int| 0 <= k < cs.len() && resolving_prompt(m, #[trigger] cs[k]),
        tags_run(m, cs).prompt matches Some(p) ==> exists|k: int| #[trigger] last_prompt(m, cs, k, p@),
        (tags_run(m, cs).ai.len() > 0) <==> exists|k: int| 0 <= k < cs.len() && adds_ai_item(m, #[trigger] cs[k]),
    decreases cs.len(),
{
    if cs.len() > 0 {
        let d = cs.drop_last();
        let prev = tags_run(m, d);
        let c = cs.last();
        let n = cs.len() - 1;
        let st = tags_run(m, cs);
        lemma_tags_run_prompt_and_items(m, d);
        lemma_tags_step_keeps(m, prev, c);
        assert(st == tags_step(m, prev, c));
        assert(forall|k: int| 0 <= k < d.len() ==> d[k] == cs[k]);
        assert(cs[n] == c);
        match c {
            TrainXMLSamplesSampleChildren::ResponseIds(r) => {
                let st1 = match id_lookup(m.responses@, r.response@) {
                    Some(x) => TagsState { system: prev.system, prompt: prev.prompt, ai: prev.ai.push(SampleAiEnum::Text(x.content)) },
                    None => prev,
                };
                assert(st.prompt == prev.prompt);
                assert(adds_ai_item(m, c) <==> st.ai.len() > prev.ai.len());
            },
            _ => {},
        }
        assert(!resolving_prompt(m, c) ==> st.prompt == prev.prompt);
        assert(adds_ai_item(m, c) <==> st.ai.len() > prev.ai.len());
        if st.prompt is Some {
            if resolving_prompt(m, c) {
                assert(resolving_prompt(m, cs[n]));
            } else {
                let k = choose|k: int| 0 <= k < d.len() && resolving_prompt(m, #[trigger] d[k]);
                assert(resolving_prompt(m, cs[k]));
            }
        }
        if exists|k: int| 0 <= k < cs.len() && resolving_prompt(m, #[trigger] cs[k]) {
            let k = choose|k: int| 0 <= k < cs.len() && resolving_prompt(m, #[trigger] cs[k]);
            if k < n {
                assert(resolving_prompt(m, d[k]));
            }
        }
        if let Some(p) = st.prompt {
            if resolving_prompt(m, c) {
                assert(last_prompt(m, cs, n, p@));
            } else {
                let k = choose|k: int| #[trigger] last_prompt(m, d, k, p@);
                assert(last_prompt(m, cs, k, p@)) by {
                    assert forall|j: int| k < j < cs.len() implies !resolving_prompt(m, #[trigger] cs[j]) by {
                        if j < n {
                            assert(!resolving_prompt(m, d[j]));
                        }
                    }
                }
            }
        }
        if st.ai.len() > 0 {
            if adds_ai_item(m, c) {
                assert(adds_ai_item(m, cs[n]));
            } else {
                let k = choose|k: int| 0 <= k < d.len() && adds_ai_item(m, #[trigger] d[k]);
                assert(adds_ai_item(m, cs[k]));
            }
        }
        if exists|k: int| 0 <= k < cs.len() && adds_ai_item(m, #[trigger] cs[k]) {
            let k = choose|k: int| 0 <= k < cs.len() && adds_ai_item(m, #[trigger] cs[k]);
            if k < n {
                assert(adds_ai_item(m, d[k]));
            }
        }
    }
}

/// The sample that child tags describe: none without a resolving prompt or with no AI item;
/// the system prompt is the system texts joined (none when that is empty).
pub open spec fn via_tags_parts(s: TrainXMLSamplesSample, m: TrainXMLIdMaps) -> Option<SampleParts> {
    let st = tags_run(m, s.children@);
    match st.prompt {
        None => None,
        Some(p) => if st.ai.len() == 0 {
            None
        } else {
            Some(
                SampleParts {
                    system: if st.system.len() == 0 { None } else { Some(st.system) },
                    thought: None,
                    prompt_section: seq![SamplePromptEnum::Text(p)],
                    ai_section: st.ai,
                },
            )
        },
    }
}

/// Builds a sample from its child tags, in one pass and in order (see `tags_step`): the last
/// resolving prompt is the prompt; no prompt, or no AI item, gives no sample.
pub fn sample_create_via_tags(samples: &TrainXMLSamplesSample, train_xml_ids: &TrainXMLIdMaps) -> (r: Option<Sample>)
    ensures
        opt_parts(r) == via_tags_parts(*samples, *train_xml_ids),
        r is Some ==> forall|k: int|
            0 <= k < samples.children@.len() ==> child_shown(*train_xml_ids, #[trigger] samples.children@[k], r->0.ai_section@),
        (r is Some) <==> ((exists|k: int|
            0 <= k < samples.children@.len() && resolving_prompt(*train_xml_ids, #[trigger] samples.children@[k]))
            && (exists|k: int|
            0 <= k < samples.children@.len() && adds_ai_item(*train_xml_ids, #[trigger] samples.children@[k]))),
        r is Some ==> asks_last_prompt(*train_xml_ids, samples.children@, r->0),
        r is Some ==> forall|k: int|
            0 <= k < samples.children@.len() ==> system_shown(*train_xml_ids, #[trigger] samples.children@[k], system_text(r->0.system)),
        r is Some ==> ((r->0.system is Some) <==> exists|k: int|
            0 <= k < samples.children@.len() && adds_system_text(*train_xml_ids, #[trigger] samples.children@[k])),
{
    let ghost m = *train_xml_ids;
    let ghost cs = samples.children@;
    let mut system = String::new();
    let mut ai_section: Vec<SampleAiEnum> = Vec::new();
    let mut prompt_content: Option<String> = None;
    let mut i: usize = 0;
    assert(cs.subrange(0, 0) =~= Seq::<TrainXMLSamplesSampleChildren>::empty());
    while i < samples.children.len()
        invariant
            i <= cs.len(),
            cs == samples.children@,
            m == *train_xml_ids,
            tags_run(m, cs.subrange(0, i as int)) == (TagsState { system: system@, prompt: prompt_content, ai: ai_section@ }),
        decreases cs.len() - i,
    {
        assert(cs.subrange(0, i + 1).drop_last() =~= cs.subrange(0, i as int));
        match &samples.children[i] {
            TrainXMLSamplesSampleChildren::Prompt(prompt_ref) => {
                if let Some(prompt) = train_xml_ids.prompts.get(prompt_ref.id.as_str()) {
                    prompt_content = Some(prompt.content.clone());
                }
            },
            TrainXMLSamplesSampleChildren::System(system_ref) => {
                if let Some(system_prompt) = train_xml_ids.system_prompts.get(system_ref.id.as_str()) {
                    system = concat_str(system.as_str(), system_prompt.content.as_str());
                }
            },
            TrainXMLSamplesSampleChildren::Response(response_ref) => {
                if let Some(response) = train_xml_ids.responses.get(response_ref.id.as_str()) {
                    ai_section.push(SampleAiEnum::Text(response.content.clone()));
                }
            },
            TrainXMLSamplesSampleChildren::Source(source_ref) => {
                if let Some(_source) = train_xml_ids.sources.get(source_ref.id.as_str()) {
                    ai_section.push(SampleAiEnum::Source(source_ref.id.clone()));
                }
            },
            TrainXMLSamplesSampleChildren::Code(code_ref) => {
                if let Some(code) = train_xml_ids.code_snippets.get(code_ref.id.as_str()) {
                    let lang = SampleLanguage::from_str(code.lang.as_str());
                    let indent = match code_ref.indent {
                        Some(x) => x,
                        None => SampleIndent::Zero,
                    };
                    let inline = match code_ref.inline {
                        Some(b) => b,
                        None => false,
                    };
                    ai_section.push(SampleAiEnum::Code(SampleCode { lang, inline, indent, content: code.content.clone() }));
                }
            },
            TrainXMLSamplesSampleChildren::ResponseIds(response_id_ref) => {
                if let Some(response) = train_xml_ids.responses.get(response_id_ref.response.as_str()) {
                    ai_section.push(SampleAiEnum::Text(response.content.clone()));
                }
                if let Some(source_id) = &response_id_ref.source {
                    if let Some(_source) = train_xml_ids.sources.get(source_id.as_str()) {
                        ai_section.push(SampleAiEnum::Source(source_id.clone()));
                    }
                }
            },
            TrainXMLSamplesSampleChildren::LineBreak(line_break) => {
                ai_section.push(SampleAiEnum::LineBreak(SampleLineBreak { count: line_break.count }));
            },
        }
        i = i + 1;
    }
    assert(cs.subrange(0, cs.len() as int) =~= cs);
    proof {
        lemma_tags_run_prompt_and_items(m, cs);
        lemma_tags_run_system(m, cs);
    }
    let prompt = match prompt_content {
        Some(p) => p,
        None => {
            return None;
        },
    };
    if ai_section.len() == 0 {
        return None;
    }
    let mut prompt_section: Vec<SamplePromptEnum> = Vec::new();
    prompt_section.push(SamplePromptEnum::Text(prompt));
    let system_opt = if system.as_str().is_empty() {
        None
    } else {
        Some(system)
    };
    let r = Sample { system: system_opt, thought: None, prompt_section, ai_section };
    assert(parts_of(r).prompt_section =~= seq![SamplePromptEnum::Text(tags_run(m, cs).prompt->0)]);
    proof {
        let pv = tags_run(m, cs).prompt->0@;
        let k = choose|k: int| #[trigger] last_prompt(m, cs, k, pv);
        assert(r.prompt_section@[0] == SamplePromptEnum::Text(tags_run(m, cs).prompt->0));
        assert(last_prompt(m, cs, k, pv));
        match r.prompt_section@[0] {
            SamplePromptEnum::Text(t) => {
                assert(t@ == pv);
                assert(last_prompt(m, cs, k, t@));
            },
            _ => {},
        }
        assert(asks_last_prompt(m, cs, r));
        assert(system_text(r.system) =~= tags_run(m, cs).system);
    }
    proof {
        lemma_tags_run_shows_children(m, cs);
    }
    Some(r)
}

} // verus!
