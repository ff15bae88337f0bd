//! The parts of a training document that samples are built from: the entries that carry an
//! id (system prompts, prompts, thoughts, responses, sources, code snippets), the sample
//! descriptions that refer to them, and the beyond-scope settings.

use vstd::prelude::*;
use crate::text::str_eq;
use crate::sample::language::SampleIndent;

verus! {

/// Entries looked up by id; for an id entered twice the later entry counts.
#[derive(Debug, Clone)]
pub struct IdMap<T> {
    entries: Vec<(String, T)>,
}

/// The entry for `id` among `e`: the last one with that id.
pub open spec fn id_lookup<T>(e: Seq<(Seq<char>, T)>, id: Seq<char>) -> Option<T>
    decreases e.len(),
{
    if e.len() == 0 {
        None
    } else if e.last().0 == id {
        Some(e.last().1)
    } else {
        id_lookup(e.drop_last(), id)
    }
}

impl<T> View for IdMap<T> {
    type V = Seq<(Seq<char>, T)>;

    closed spec fn view(&self) -> Seq<(Seq<char>, T)> {
        self.entries@.map_values(|e: (String, T)| (e.0@, e.1))
    }
}

impl<T> IdMap<T> {
    /// A map with no entry.
    pub fn new() -> (r: IdMap<T>)
        ensures
            r@ == Seq::<(Seq<char>, T)>::empty(),
    {
        let r = IdMap { entries: Vec::new() };
        assert(r@ =~= Seq::<(Seq<char>, T)>::empty());
        r
    }

    /// Enters `value` under `id`.
    pub fn insert(&mut self, id: String, value: T)
        ensures
            final(self)@ == old(self)@.push((id@, value)),
    {
        let ghost id_view = id@;
        self.entries.push((id, value));
        assert(self@ =~= old(self)@.push((id_view, value)));
    }

    /// The entry for `id`, if there is one.
    pub fn get(&self, id: &str) -> (r: Option<&T>)
        ensures
            r matches Some(v) ==> id_lookup(self@, id@) == Some(*v),
            r is None ==> id_lookup(self@, id@) is None,
    {
        let mut i: usize = self.entries.len();
        assert(self@.subrange(0, i as int) =~= self@);
        while i > 0
            invariant
                i <= self.entries@.len(),
                self@.len() == self.entries@.len(),
                id_lookup(self@, id@) == id_lookup(self@.subrange(0, i as int), id@),
            decreases i,
        {
            let ghost sub = self@.subrange(0, i as int);
            assert(sub.drop_last() =~= self@.subrange(0, i - 1));
            assert(sub.last() == (self.entries@[i - 1].0@, self.entries@[i - 1].1));
            if str_eq(self.entries[i - 1].0.as_str(), id) {
                return Some(&self.entries[i - 1].1);
            }
            i = i - 1;
        }
        assert(self@.subrange(0, 0) =~= Seq::<(Seq<char>, T)>::empty());
        None
    }
}

/// A system prompt.
#[derive(Debug, Clone)]
pub struct TrainXMLSystemPromptsSystem {
    pub id: String,
    pub content: String,
}

/// The system prompts of a document.
#[derive(Debug, Clone)]
pub struct TrainXMLSystemPrompts {
    pub system: Vec<TrainXMLSystemPromptsSystem>,
}

/// A user prompt.
#[derive(Debug, Clone)]
pub struct TrainXMLPromptsPrompt {
    pub id: String,
    pub content: String,
}

/// The prompts of a document.
#[derive(Debug, Clone)]
pub struct TrainXMLPrompts {
    pub prompt: Vec<TrainXMLPromptsPrompt>,
}

/// A thought that precedes an answer.
#[derive(Debug, Clone)]
pub struct TrainXMLThoughtsThought {
    pub id: String,
    pub content: String,
}

/// A response text.
#[derive(Debug, Clone)]
pub struct TrainXMLResponsesResponse {
    pub id: String,
    pub content: String,
}

/// The responses of a document.
#[derive(Debug, Clone)]
pub struct TrainXMLResponses {
    pub response: Vec<TrainXMLResponsesResponse>,
}

/// A source that answers cite.
#[derive(Debug, Clone)]
pub struct TrainXMLSourcesSource {
    pub id: String,
    pub url: String,
    pub title: Option<String>,
}

/// The sources of a document.
#[derive(Debug, Clone)]
pub struct TrainXMLSources {
    pub source: Vec<TrainXMLSourcesSource>,
}

/// A code snippet, with its language name.
#[derive(Debug, Clone)]
pub struct TrainXMLCodeSnippetsCode {
    pub id: String,
    pub lang: String,
    pub content: String,
}

/// The code snippets of a document.
#[derive(Debug, Clone)]
pub struct TrainXMLCodeSnippets {
    pub code: Vec<TrainXMLCodeSnippetsCode>,
}

/// The entries of a document by id.
#[derive(Debug, Clone)]
pub struct TrainXMLIdMaps<'a> {
    pub system_prompts: IdMap<&'a TrainXMLSystemPromptsSystem>,
    pub prompts: IdMap<&'a TrainXMLPromptsPrompt>,
    pub thoughts: IdMap<&'a TrainXMLThoughtsThought>,
    pub responses: IdMap<&'a TrainXMLResponsesResponse>,
    pub sources: IdMap<&'a TrainXMLSourcesSource>,
    pub code_snippets: IdMap<&'a TrainXMLCodeSnippetsCode>,
}

/// A sample described by ids: a prompt, and optionally a system prompt, a thought, a response,
/// a source and a code snippet.
#[derive(Debug, Clone)]
pub struct TrainXMLSamplesSampleIds {
    pub system: Option<String>,
    pub prompt: String,
    pub thought: Option<String>,
    pub response: Option<String>,
    pub source: Option<String>,
    pub code: Option<String>,
}

/// A reference to a prompt.
#[derive(Debug, Clone)]
pub struct TrainXMLSamplesPrompt {
    pub id: String,
}

/// A reference to a system prompt.
#[derive(Debug, Clone)]
pub struct TrainXMLSamplesSystem {
    pub id: String,
}

/// A reference to a response.
#[derive(Debug, Clone)]
pub struct TrainXMLSamplesResponse {
    pub id: String,
}

/// A reference to a source.
#[derive(Debug, Clone)]
pub struct TrainXMLSamplesSource {
    pub id: String,
}

/// A reference to a code snippet, with how to show it.
#[derive(Debug, Clone)]
pub struct TrainXMLSamplesCode {
    pub id: String,
    pub inline: Option<bool>,
    pub indent: Option<SampleIndent>,
}

/// A response reference with an optional source reference.
#[derive(Debug, Clone)]
pub struct TrainXMLSamplesResponseIds {
    pub response: String,
    pub source: Option<String>,
}

/// A run of line breaks.
#[derive(Debug, Clone, Copy)]
pub struct TrainXMLLineBreak {
    pub count: u8,
}

/// One child of a sample described by tags.
#[derive(Debug, Clone)]
pub enum TrainXMLSamplesSampleChildren {
    Prompt(TrainXMLSamplesPrompt),
    System(TrainXMLSamplesSystem),
    Response(TrainXMLSamplesResponse),
    Source(TrainXMLSamplesSource),
    Code(TrainXMLSamplesCode),
    ResponseIds(TrainXMLSamplesResponseIds),
    LineBreak(TrainXMLLineBreak),
}

/// A sample described by its child tags, in order.
#[derive(Debug, Clone)]
pub struct TrainXMLSamplesSample {
    pub children: Vec<TrainXMLSamplesSampleChildren>,
}

/// The samples of a document: those described by ids and those described by tags.
#[derive(Debug, Clone)]
pub struct TrainXMLSamples {
    pub sample_ids: Option<Vec<TrainXMLSamplesSampleIds>>,
    pub sample: Option<Vec<TrainXMLSamplesSample>>,
}

/// A topic the AI should not answer, with the words that go before it in the question.
#[derive(Debug, Clone)]
pub struct TrainXMLBeyondScopeTopic {
    pub value: String,
    pub prefix: String,
}

/// What the AI should decline: the system prompt and response to use (by id), custom topics,
/// and which default categories are switched on.
#[derive(Debug, Clone)]
pub struct TrainXMLBeyondScope {
    pub system: String,
    pub response: String,
    pub topics: Vec<TrainXMLBeyondScopeTopic>,
    pub sports: Option<bool>,
    pub food: Option<bool>,
    pub movies: Option<bool>,
    pub history: Option<bool>,
    pub geography: Option<bool>,
    pub politics: Option<bool>,
    pub science: Option<bool>,
    pub health: Option<bool>,
    pub art: Option<bool>,
    pub music: Option<bool>,
    pub fashion: Option<bool>,
    pub travel: Option<bool>,
    pub pets: Option<bool>,
    pub cars: Option<bool>,
}

/// A training document.
#[derive(Debug, Clone)]
pub struct TrainXML {
    pub system_prompts: Option<TrainXMLSystemPrompts>,
    pub prompts: Option<TrainXMLPrompts>,
    pub responses: Option<TrainXMLResponses>,
    pub sources: Option<TrainXMLSources>,
    pub code_snippets: Option<TrainXMLCodeSnippets>,
    pub samples: Option<TrainXMLSamples>,
    pub beyond_scope: Option<TrainXMLBeyondScope>,
}

} // verus!
