//! Samples that teach the assistant to decline topics outside its scope.

use vstd::prelude::*;
use crate::text::concat_str;
use crate::sample::structs::{Sample, SamplePromptEnum, SampleAiEnum};
use crate::train_xml::{id_lookup, TrainXML, TrainXMLIdMaps, TrainXMLBeyondScope, TrainXMLBeyondScopeTopic};
use crate::beyond_scope::structs::{
    BeyondScope, BeyondScopeTopic, topics_view, topic_view, default_sports, default_food, default_movies,
    default_history, default_geography, default_politics, default_science, default_health, default_art,
    default_music, default_fashion, default_travel, default_pets, default_cars,
};

verus! {

/// The topics of a category when its flag is on, none otherwise.
pub open spec fn when_enabled(flag: Option<bool>, topics: Seq<(Seq<char>, Seq<char>)>) -> Seq<(Seq<char>, Seq<char>)> {
    if flag == Some(true) {
        topics
    } else {
        seq![]
    }
}

/// The custom topics as (value, prefix) text.
pub open spec fn custom_topics(v: Seq<TrainXMLBeyondScopeTopic>) -> Seq<(Seq<char>, Seq<char>)> {
    v.map_values(|t: TrainXMLBeyondScopeTopic| (t.value@, t.prefix@))
}

/// The topics to decline: the custom ones, then the default topics of each category that is
/// switched on, in the order sports, food, movies, history, geography, politics, science,
/// politics (a second time), health, art, music, fashion, travel, pets, cars.
pub open spec fn declined_topics(cfg: TrainXMLBeyondScope) -> Seq<(Seq<char>, Seq<char>)> {
    custom_topics(cfg.topics@) + when_enabled(cfg.sports, default_sports()) + when_enabled(
        cfg.food,
        default_food(),
    ) + when_enabled(cfg.movies, default_movies()) + when_enabled(cfg.history, default_history())
        + when_enabled(cfg.geography, default_geography()) + when_enabled(
        cfg.politics,
        default_politics(),
    ) + when_enabled(cfg.science, default_science()) + when_enabled(cfg.politics, default_politics())
        + when_enabled(cfg.health, default_health()) + when_enabled(cfg.art, default_art())
        + when_enabled(cfg.music, default_music()) + when_enabled(cfg.fashion, default_fashion())
        + when_enabled(cfg.travel, default_travel()) + when_enabled(cfg.pets, default_pets())
        + when_enabled(cfg.cars, default_cars())
}

/// The question about a topic: "What <prefix> <value>?".
pub open spec fn question(topic: (Seq<char>, Seq<char>)) -> Seq<char> {
    "What "@ + topic.1 + " "@ + topic.0 + "?"@
}

/// `s` asks the question about `topic` under the system prompt `system` and answers with
/// `response`.
pub open spec fn declines(s: Sample, system: String, response: String, topic: (Seq<char>, Seq<char>)) -> bool {
    &&& s.system == Some(system)
    &&& s.thought is None
    &&& s.prompt_section@.len() == 1
    &&& s.prompt_section@[0] matches SamplePromptEnum::Text(q) && q@ == question(topic)
    &&& s.ai_section@ == seq![SampleAiEnum::Text(response)]
}

/// `s` asks, as its whole prompt, the question about `topic`.
pub open spec fn asks_question(s: Sample, topic: (Seq<char>, Seq<char>)) -> bool {
    &&& s.prompt_section@.len() == 1
    &&& s.prompt_section@[0] matches SamplePromptEnum::Text(q) && q@ == question(topic)
}

/// Some sample of `r` asks the question about `topic`.
pub open spec fn asks(r: Seq<Sample>, topic: (Seq<char>, Seq<char>)) -> bool {
    exists|i: int| 0 <= i < r.len() && asks_question(#[trigger] r[i], topic)
}

/// Every topic of `topics` is asked by some sample of `r`.
pub open spec fn asks_all(r: Seq<Sample>, topics: Seq<(Seq<char>, Seq<char>)>) -> bool {
    forall|t: (Seq<char>, Seq<char>)| #[trigger] topics.contains(t) ==> asks(r, t)
}

/// When the flag is on, every topic of `topics` is asked by some sample of `r`.
pub open spec fn asks_when_enabled(r: Seq<Sample>, flag: Option<bool>, topics: Seq<(Seq<char>, Seq<char>)>) -> bool {
    flag == Some(true) ==> asks_all(r, topics)
}

/// An item of either part of a concatenation is an item of the whole.
proof fn lemma_concat_contains()
    ensures
        forall|a: Seq<(Seq<char>, Seq<char>)>, b: Seq<(Seq<char>, Seq<char>)>, x: (Seq<char>, Seq<char>)|
            (a.contains(x) || b.contains(x)) ==> #[trigger] (a + b).contains(x),
{
    assert forall|a: Seq<(Seq<char>, Seq<char>)>, b: Seq<(Seq<char>, Seq<char>)>, x: (Seq<char>, Seq<char>)|
        (a.contains(x) || b.contains(x)) implies #[trigger] (a + b).contains(x) by {
        if a.contains(x) {
            let i = choose|i: int| 0 <= i < a.len() && a[i] == x;
            assert((a + b)[i] == x);
        } else {
            let j = choose|j: int| 0 <= j < b.len() && b[j] == x;
            assert((a + b)[a.len() + j] == x);
        }
    }
}

/// Every custom topic, and every default topic of a category that is switched on, is among
/// the declined topics.
pub proof fn lemma_declined_topics_cover(cfg: TrainXMLBeyondScope)
    ensures
        forall|t: (Seq<char>, Seq<char>)| #[trigger] custom_topics(cfg.topics@).contains(t) ==> declined_topics(cfg).contains(t),
        cfg.sports == Some(true) ==> forall|t: (Seq<char>, Seq<char>)| #[trigger] default_sports().contains(t) ==> declined_topics(cfg).contains(t),
        cfg.food == Some(true) ==> forall|t: (Seq<char>, Seq<char>)| #[trigger] default_food().contains(t) ==> declined_topics(cfg).contains(t),
        cfg.movies == Some(true) ==> forall|t: (Seq<char>, Seq<char>)| #[trigger] default_movies().contains(t) ==> declined_topics(cfg).contains(t),
        cfg.history == Some(true) ==> forall|t: (Seq<char>, Seq<char>)| #[trigger] default_history().contains(t) ==> declined_topics(cfg).contains(t),
        cfg.geography == Some(true) ==> forall|t: (Seq<char>, Seq<char>)| #[trigger] default_geography().contains(t) ==> declined_topics(cfg).contains(t),
        cfg.politics == Some(true) ==> forall|t: (Seq<char>, Seq<char>)| #[trigger] default_politics().contains(t) ==> declined_topics(cfg).contains(t),
        cfg.science == Some(true) ==> forall|t: (Seq<char>, Seq<char>)| #[trigger] default_science().contains(t) ==> declined_topics(cfg).contains(t),
        cfg.health == Some(true) ==> forall|t: (Seq<char>, Seq<char>)| #[trigger] default_health().contains(t) ==> declined_topics(cfg).contains(t),
        cfg.art == Some(true) ==> forall|t: (Seq<char>, Seq<char>)| #[trigger] default_art().contains(t) ==> declined_topics(cfg).contains(t),
        cfg.music == Some(true) ==> forall|t: (Seq<char>, Seq<char>)| #[trigger] default_music().contains(t) ==> declined_topics(cfg).contains(t),
        cfg.fashion == Some(true) ==> forall|t: (Seq<char>, Seq<char>)| #[trigger] default_fashion().contains(t) ==> declined_topics(cfg).contains(t),
        cfg.travel == Some(true) ==> forall|t: (Seq<char>, Seq<char>)| #[trigger] default_travel().contains(t) ==> declined_topics(cfg).contains(t),
        cfg.pets == Some(true) ==> forall|t: (Seq<char>, Seq<char>)| #[trigger] default_pets().contains(t) ==> declined_topics(cfg).contains(t),
        cfg.cars == Some(true) ==> forall|t: (Seq<char>, Seq<char>)| #[trigger] default_cars().contains(t) ==> declined_topics(cfg).contains(t),
{
    lemma_concat_contains();
}

/// Samples that decline, in order, the topics of `all` ask every one of them.
proof fn lemma_declines_ask(r: Seq<Sample>, system: String, response: String, all: Seq<(Seq<char>, Seq<char>)>)
    requires
        r.len() == all.len(),
        forall|i: int| 0 <= i < r.len() ==> declines(#[trigger] r[i], system, response, all[i]),
    ensures
        forall|t: (Seq<char>, Seq<char>)| #[trigger] all.contains(t) ==> asks(r, t),
{
    assert forall|t: (Seq<char>, Seq<char>)| #[trigger] all.contains(t) implies asks(r, t) by {
        let i = choose|i: int| 0 <= i < all.len() && all[i] == t;
        assert(declines(r[i], system, response, all[i]));
        assert(asks_question(r[i], t));
    }
}

/// Topics that are all among those that `r` asks are asked.
proof fn lemma_asks_part(r: Seq<Sample>, all: Seq<(Seq<char>, Seq<char>)>, part: Seq<(Seq<char>, Seq<char>)>)
    requires
        forall|t: (Seq<char>, Seq<char>)| #[trigger] all.contains(t) ==> asks(r, t),
        forall|t: (Seq<char>, Seq<char>)| #[trigger] part.contains(t) ==> all.contains(t),
    ensures
        asks_all(r, part),
{
    assert forall|t: (Seq<char>, Seq<char>)| #[trigger] part.contains(t) implies asks(r, t) by {
        assert(all.contains(t));
    }
}

/// Samples that decline the declined topics of a configuration ask every custom topic and
/// every default topic of each category that is switched on.
pub proof fn lemma_declining_asks_every_topic(cfg: TrainXMLBeyondScope, r: Seq<Sample>, system: String, response: String)
    requires
        r.len() == declined_topics(cfg).len(),
        forall|i: int| 0 <= i < r.len() ==> declines(#[trigger] r[i], system, response, declined_topics(cfg)[i]),
    ensures
        asks_all(r, custom_topics(cfg.topics@)),
        asks_when_enabled(r, cfg.sports, default_sports()),
        asks_when_enabled(r, cfg.food, default_food()),
        asks_when_enabled(r, cfg.movies, default_movies()),
        asks_when_enabled(r, cfg.history, default_history()),
        asks_when_enabled(r, cfg.geography, default_geography()),
        asks_when_enabled(r, cfg.politics, default_politics()),
        asks_when_enabled(r, cfg.science, default_science()),
        asks_when_enabled(r, cfg.health, default_health()),
        asks_when_enabled(r, cfg.art, default_art()),
        asks_when_enabled(r, cfg.music, default_music()),
        asks_when_enabled(r, cfg.fashion, default_fashion()),
        asks_when_enabled(r, cfg.travel, default_travel()),
        asks_when_enabled(r, cfg.pets, default_pets()),
        asks_when_enabled(r, cfg.cars, default_cars()),
{
    let dt = declined_topics(cfg);
    lemma_declined_topics_cover(cfg);
    lemma_declines_ask(r, system, response, dt);
    lemma_asks_part(r, dt, custom_topics(cfg.topics@));
    if cfg.sports == Some(true) {
        lemma_asks_part(r, dt, default_sports());
    }
    if cfg.food == Some(true) {
        lemma_asks_part(r, dt, default_food());
    }
    if cfg.movies == Some(true) {
        lemma_asks_part(r, dt, default_movies());
    }
    if cfg.history == Some(true) {
        lemma_asks_part(r, dt, default_history());
    }
    if cfg.geography == Some(true) {
        lemma_asks_part(r, dt, default_geography());
    }
    if cfg.politics == Some(true) {
        lemma_asks_part(r, dt, default_politics());
    }
    if cfg.science == Some(true) {
        lemma_asks_part(r, dt, default_science());
    }
    if cfg.health == Some(true) {
        lemma_asks_part(r, dt, default_health());
    }
    if cfg.art == Some(true) {
        lemma_asks_part(r, dt, default_art());
    }
    if cfg.music == Some(true) {
        lemma_asks_part(r, dt, default_music());
    }
    if cfg.fashion == Some(true) {
        lemma_asks_part(r, dt, default_fashion());
    }
    if cfg.travel == Some(true) {
        lemma_asks_part(r, dt, default_travel());
    }
    if cfg.pets == Some(true) {
        lemma_asks_part(r, dt, default_pets());
    }
    if cfg.cars == Some(true) {
        lemma_asks_part(r, dt, default_cars());
    }
}

/// Whether the document asks for beyond-scope samples whose system prompt and response both
/// resolve.
pub open spec fn beyond_scope_ready(x: TrainXML, m: TrainXMLIdMaps) -> bool {
    match x.beyond_scope {
        Some(cfg) => id_lookup(m.system_prompts@, cfg.system@) is Some && id_lookup(m.responses@, cfg.response@) is Some,
        None => false,
    }
}

fn push_topic_sample(samples: &mut Vec<Sample>, value: &str, prefix: &str, system: &String, response: &String)
    ensures
        final(samples)@.len() == old(samples)@.len() + 1,
        final(samples)@.subrange(0, old(samples)@.len() as int) == old(samples)@,
        declines(final(samples)@.last(), *system, *response, (value@, prefix@)),
{
    let a = concat_str("What ", prefix);
    let b = concat_str(a.as_str(), " ");
    let c = concat_str(b.as_str(), value);
    let q = concat_str(c.as_str(), "?");
    let ghost qv = q@;
    let mut prompt_section: Vec<SamplePromptEnum> = Vec::new();
    prompt_section.push(SamplePromptEnum::Text(q));
    let mut ai_section: Vec<SampleAiEnum> = Vec::new();
    ai_section.push(SampleAiEnum::Text(response.clone()));
    assert(ai_section@ =~= seq![SampleAiEnum::Text(*response)]);
    assert(qv == question((value@, prefix@)));
    samples.push(Sample { system: Some(system.clone()), thought: None, prompt_section, ai_section });
    assert(final(samples)@.subrange(0, old(samples)@.len() as int) =~= old(samples)@);
}

fn push_category(
    samples: &mut Vec<Sample>,
    flag: Option<bool>,
    topics: &Vec<BeyondScopeTopic>,
    system: &String,
    response: &String,
    done: Ghost<Seq<(Seq<char>, Seq<char>)>>,
)
    requires
        old(samples)@.len() == done@.len(),
        forall|i: int| 0 <= i < done@.len() ==> declines(#[trigger] old(samples)@[i], *system, *response, done@[i]),
    ensures
        final(samples)@.len() == (done@ + when_enabled(flag, topics_view(topics@))).len(),
        forall|i: int| 0 <= i < final(samples)@.len() ==> declines(
            #[trigger] final(samples)@[i],
            *system,
            *response,
            (done@ + when_enabled(flag, topics_view(topics@)))[i],
        ),
{
    let ghost all = done@ + when_enabled(flag, topics_view(topics@));
    if flag == Some(true) {
        let mut k: usize = 0;
        while k < topics.len()
            invariant
                k <= topics@.len(),
                all == done@ + topics_view(topics@),
                samples@.len() == done@.len() + k,
                forall|i: int| 0 <= i < samples@.len() ==> declines(#[trigger] samples@[i], *system, *response, all[i]),
            decreases topics@.len() - k,
        {
            let ghost before = samples@;
            push_topic_sample(samples, topics[k].value.as_str(), topics[k].prefix.as_str(), system, response);
            assert forall|i: int| 0 <= i < samples@.len() implies declines(#[trigger] samples@[i], *system, *response, all[i]) by {
                if i < before.len() {
                    assert(samples@[i] == before[i]);
                } else {
                    assert(all[i] == topic_view(topics@[k as int]));
                }
            }
            k = k + 1;
        }
    } else {
        assert(all =~= done@);
    }
}

/// Creates the beyond-scope samples: none unless the document asks for them and their system
/// prompt and response resolve; otherwise one sample per declined topic, in order, asking
/// "What <prefix> <topic>?" and answering with the configured response.
pub fn beyond_scope_create_samples(train_xml: &TrainXML, train_xml_ids: &TrainXMLIdMaps) -> (r: Vec<Sample>)
    ensures
        !beyond_scope_ready(*train_xml, *train_xml_ids) ==> r@.len() == 0,
        beyond_scope_ready(*train_xml, *train_xml_ids) ==> ({
            let cfg = train_xml.beyond_scope->0;
            let system = id_lookup(train_xml_ids.system_prompts@, cfg.system@)->0.content;
            let response = id_lookup(train_xml_ids.responses@, cfg.response@)->0.content;
            &&& r@.len() == declined_topics(cfg).len()
            &&& forall|i: int| 0 <= i < r@.len() ==> declines(#[trigger] r@[i], system, response, declined_topics(cfg)[i])
            &&& asks_all(r@, custom_topics(cfg.topics@))
            &&& asks_when_enabled(r@, cfg.sports, default_sports())
            &&& asks_when_enabled(r@, cfg.food, default_food())
            &&& asks_when_enabled(r@, cfg.movies, default_movies())
            &&& asks_when_enabled(r@, cfg.history, default_history())
            &&& asks_when_enabled(r@, cfg.geography, default_geography())
            &&& asks_when_enabled(r@, cfg.politics, default_politics())
            &&& asks_when_enabled(r@, cfg.science, default_science())
            &&& asks_when_enabled(r@, cfg.health, default_health())
            &&& asks_when_enabled(r@, cfg.art, default_art())
            &&& asks_when_enabled(r@, cfg.music, default_music())
            &&& asks_when_enabled(r@, cfg.fashion, default_fashion())
            &&& asks_when_enabled(r@, cfg.travel, default_travel())
            &&& asks_when_enabled(r@, cfg.pets, default_pets())
            &&& asks_when_enabled(r@, cfg.cars, default_cars())
        }),
{
    let beyond_scope_config = match &train_xml.beyond_scope {
        Some(config) => config,
        None => {
            return Vec::new();
        },
    };
    let system_content = match train_xml_ids.system_prompts.get(beyond_scope_config.system.as_str()) {
        Some(system) => &system.content,
        None => {
            return Vec::new();
        },
    };
    let response_content = match train_xml_ids.responses.get(beyond_scope_config.response.as_str()) {
        Some(response) => &response.content,
        None => {
            return Vec::new();
        },
    };
    let ghost cfg = *beyond_scope_config;
    let mut samples: Vec<Sample> = Vec::new();
    let mut k: usize = 0;
    let custom = &beyond_scope_config.topics;
    while k < custom.len()
        invariant
            k <= custom@.len(),
            samples@.len() == k,
            forall|i: int| 0 <= i < samples@.len() ==> declines(
                #[trigger] samples@[i],
                *system_content,
                *response_content,
                custom_topics(custom@)[i],
            ),
        decreases custom@.len() - k,
    {
        let ghost before = samples@;
        push_topic_sample(&mut samples, custom[k].value.as_str(), custom[k].prefix.as_str(), system_content, response_content);
        assert forall|i: int| 0 <= i < samples@.len() implies declines(
            #[trigger] samples@[i],
            *system_content,
            *response_content,
            custom_topics(custom@)[i],
        ) by {
            if i < before.len() {
                assert(samples@[i] == before[i]);
            }
        }
        k = k + 1;
    }
    let default_topics = BeyondScope::default();
    let ghost d0 = custom_topics(cfg.topics@);
    push_category(&mut samples, beyond_scope_config.sports, &default_topics.sports, system_content, response_content, Ghost(d0));
    let ghost d1 = d0 + when_enabled(cfg.sports, default_sports());
    push_category(&mut samples, beyond_scope_config.food, &default_topics.food, system_content, response_content, Ghost(d1));
    let ghost d2 = d1 + when_enabled(cfg.food, default_food());
    push_category(&mut samples, beyond_scope_config.movies, &default_topics.movies, system_content, response_content, Ghost(d2));
    let ghost d3 = d2 + when_enabled(cfg.movies, default_movies());
    push_category(&mut samples, beyond_scope_config.history, &default_topics.history, system_content, response_content, Ghost(d3));
    let ghost d4 = d3 + when_enabled(cfg.history, default_history());
    push_category(&mut samples, beyond_scope_config.geography, &default_topics.geography, system_content, response_content, Ghost(d4));
    let ghost d5 = d4 + when_enabled(cfg.geography, default_geography());
    push_category(&mut samples, beyond_scope_config.politics, &default_topics.politics, system_content, response_content, Ghost(d5));
    let ghost d6 = d5 + when_enabled(cfg.politics, default_politics());
    push_category(&mut samples, beyond_scope_config.science, &default_topics.science, system_content, response_content, Ghost(d6));
    let ghost d7 = d6 + when_enabled(cfg.science, default_science());
    push_category(&mut samples, beyond_scope_config.politics, &default_topics.politics, system_content, response_content, Ghost(d7));
    let ghost d8 = d7 + when_enabled(cfg.politics, default_politics());
    push_category(&mut samples, beyond_scope_config.health, &default_topics.health, system_content, response_content, Ghost(d8));
    let ghost d9 = d8 + when_enabled(cfg.health, default_health());
    push_category(&mut samples, beyond_scope_config.art, &default_topics.art, system_content, response_content, Ghost(d9));
    let ghost d10 = d9 + when_enabled(cfg.art, default_art());
    push_category(&mut samples, beyond_scope_config.music, &default_topics.music, system_content, response_content, Ghost(d10));
    let ghost d11 = d10 + when_enabled(cfg.music, default_music());
    push_category(&mut samples, beyond_scope_config.fashion, &default_topics.fashion, system_content, response_content, Ghost(d11));
    let ghost d12 = d11 + when_enabled(cfg.fashion, default_fashion());
    push_category(&mut samples, beyond_scope_config.travel, &default_topics.travel, system_content, response_content, Ghost(d12));
    let ghost d13 = d12 + when_enabled(cfg.travel, default_travel());
    push_category(&mut samples, beyond_scope_config.pets, &default_topics.pets, system_content, response_content, Ghost(d13));
    let ghost d14 = d13 + when_enabled(cfg.pets, default_pets());
    push_category(&mut samples, beyond_scope_config.cars, &default_topics.cars, system_content, response_content, Ghost(d14));
    let ghost d15 = d14 + when_enabled(cfg.cars, default_cars());
    assert(d15 =~= declined_topics(cfg));
    proof {
        lemma_declining_asks_every_topic(cfg, samples@, *system_content, *response_content);
    }
    samples
}

} // verus!
