//! Building every sample of a training document and sharing the samples, with their variants,
//! out between training and validation.

use vstd::prelude::*;
use crate::sample::structs::{Sample, Samples, SamplePromptEnum, SampleAiEnum};
use crate::sample::language::{SampleLanguage, SampleIndent};
use crate::sample::create::{
    SampleParts, parts_of, via_ids_parts, via_tags_parts, sample_create_via_ids,
    sample_create_via_tags,
};
use crate::sample::place::{group_of, sample_place_into_vecs};
use crate::train_xml::{id_lookup, TrainXML, TrainXMLIdMaps, TrainXMLSamplesSampleIds, TrainXMLSamplesSample};
use crate::beyond_scope::create::{
    beyond_scope_ready, declined_topics, question, declines, beyond_scope_create_samples,
};

verus! {

/// A prompt item as text.
pub enum PromptItemView {
    Text(Seq<char>),
    Code(SampleLanguage, bool, SampleIndent, Seq<char>),
    LineBreak(u8),
}

/// An AI item as text.
pub enum AiItemView {
    Text(Seq<char>),
    Source(Seq<char>),
    Code(SampleLanguage, bool, SampleIndent, Seq<char>),
    LineBreak(u8),
}

/// A sample as text: system prompt, thought, prompt items and AI items.
pub struct SampleView {
    pub system: Option<Seq<char>>,
    pub thought: Option<Seq<char>>,
    pub prompt: Seq<PromptItemView>,
    pub ai: Seq<AiItemView>,
}

/// A prompt item as text.
pub open spec fn prompt_item_view(i: SamplePromptEnum) -> PromptItemView {
    match i {
        SamplePromptEnum::Text(t) => PromptItemView::Text(t@),
        SamplePromptEnum::Code(c) => PromptItemView::Code(c.lang, c.inline, c.indent, c.content@),
        SamplePromptEnum::LineBreak(lb) => PromptItemView::LineBreak(lb.count),
    }
}

/// An AI item as text.
pub open spec fn ai_item_view(i: SampleAiEnum) -> AiItemView {
    match i {
        SampleAiEnum::Text(t) => AiItemView::Text(t@),
        SampleAiEnum::Source(t) => AiItemView::Source(t@),
        SampleAiEnum::Code(c) => AiItemView::Code(c.lang, c.inline, c.indent, c.content@),
        SampleAiEnum::LineBreak(lb) => AiItemView::LineBreak(lb.count),
    }
}

/// Sample parts as text.
pub open spec fn parts_view(p: SampleParts) -> SampleView {
    SampleView {
        system: p.system,
        thought: p.thought,
        prompt: p.prompt_section.map_values(|i: SamplePromptEnum| prompt_item_view(i)),
        ai: p.ai_section.map_values(|i: SampleAiEnum| ai_item_view(i)),
    }
}

/// A sample as text.
pub open spec fn sample_view(s: Sample) -> SampleView {
    parts_view(parts_of(s))
}

/// Samples as text.
pub open spec fn samples_view(v: Seq<Sample>) -> Seq<SampleView> {
    v.map_values(|s: Sample| sample_view(s))
}

/// The samples that the id descriptions give, in order (descriptions that give none are
/// passed over).
pub open spec fn ids_views(list: Seq<TrainXMLSamplesSampleIds>, m: TrainXMLIdMaps) -> Seq<SampleView>
    decreases list.len(),
{
    if list.len() == 0 {
        seq![]
    } else {
        let last = match via_ids_parts(list.last(), m) {
            Some(p) => seq![parts_view(p)],
            None => seq![],
        };
        ids_views(list.drop_last(), m) + last
    }
}

/// The samples that the tag descriptions give, in order.
pub open spec fn tags_views(list: Seq<TrainXMLSamplesSample>, m: TrainXMLIdMaps) -> Seq<SampleView>
    decreases list.len(),
{
    if list.len() == 0 {
        seq![]
    } else {
        let last = match via_tags_parts(list.last(), m) {
            Some(p) => seq![parts_view(p)],
            None => seq![],
        };
        tags_views(list.drop_last(), m) + last
    }
}

/// The document's own samples: those described by ids, then those described by tags.
pub open spec fn regular_views(x: TrainXML, m: TrainXMLIdMaps) -> Seq<SampleView> {
    match x.samples {
        None => seq![],
        Some(sec) => {
            let by_ids = match sec.sample_ids {
                Some(l) => ids_views(l@, m),
                None => seq![],
            };
            let by_tags = match sec.sample {
                Some(l) => tags_views(l@, m),
                None => seq![],
            };
            by_ids + by_tags
        },
    }
}

/// The beyond-scope samples of the document.
pub open spec fn beyond_views(x: TrainXML, m: TrainXMLIdMaps) -> Seq<SampleView> {
    if !beyond_scope_ready(x, m) {
        seq![]
    } else {
        let cfg = x.beyond_scope->0;
        let system = id_lookup(m.system_prompts@, cfg.system@)->0.content;
        let response = id_lookup(m.responses@, cfg.response@)->0.content;
        declined_topics(cfg).map_values(
            |t: (Seq<char>, Seq<char>)|
                SampleView {
                    system: Some(system@),
                    thought: None,
                    prompt: seq![PromptItemView::Text(question(t))],
                    ai: seq![AiItemView::Text(response@)],
                },
        )
    }
}

/// Each sample with its variants, as long as both lists go.
pub open spec fn groups(heads: Seq<SampleView>, variants: Seq<Vec<Sample>>) -> Seq<Seq<SampleView>> {
    let n = if heads.len() <= variants.len() { heads.len() } else { variants.len() };
    Seq::new(n, |i: int| seq![heads[i]] + samples_view(variants[i]@))
}

/// Where the groups go when group `i` sends its item `ks[i]` to validation: a lone sample goes
/// to training; otherwise the chosen item goes to validation and the others, in order, to
/// training.
pub open spec fn place_groups(gs: Seq<Seq<SampleView>>, ks: Seq<int>) -> (Seq<SampleView>, Seq<SampleView>)
    decreases gs.len(),
{
    if gs.len() == 0 {
        (seq![], seq![])
    } else {
        let prev = place_groups(gs.drop_last(), ks.drop_last());
        let g = gs.last();
        let k = ks.last();
        if g.len() <= 1 {
            (prev.0 + g, prev.1)
        } else {
            (prev.0 + g.remove(k), prev.1.push(g[k]))
        }
    }
}

/// `ks` picks one item of each group.
pub open spec fn valid_choices(gs: Seq<Seq<SampleView>>, ks: Seq<int>) -> bool {
    ks.len() == gs.len() && forall|i: int| 0 <= i < gs.len() ==> 0 <= #[trigger] ks[i] < gs[i].len()
}

proof fn lemma_place_groups_concat(g1: Seq<Seq<SampleView>>, k1: Seq<int>, g2: Seq<Seq<SampleView>>, k2: Seq<int>)
    requires
        k1.len() == g1.len(),
        k2.len() == g2.len(),
    ensures
        place_groups(g1 + g2, k1 + k2) == (place_groups(g1, k1).0 + place_groups(g2, k2).0, place_groups(
            g1,
            k1,
        ).1 + place_groups(g2, k2).1),
    decreases g2.len(),
{
    if g2.len() == 0 {
        assert(g1 + g2 =~= g1);
        assert(k1 + k2 =~= k1);
        assert(place_groups(g1, k1).0 + place_groups(g2, k2).0 =~= place_groups(g1, k1).0);
        assert(place_groups(g1, k1).1 + place_groups(g2, k2).1 =~= place_groups(g1, k1).1);
    } else {
        lemma_place_groups_concat(g1, k1, g2.drop_last(), k2.drop_last());
        assert((g1 + g2).drop_last() =~= g1 + g2.drop_last());
        assert((k1 + k2).drop_last() =~= k1 + k2.drop_last());
        assert((g1 + g2).last() == g2.last());
        assert((k1 + k2).last() == k2.last());
        let a = place_groups(g1, k1);
        let b = place_groups(g2.drop_last(), k2.drop_last());
        let g = g2.last();
        let k = k2.last();
        if g.len() <= 1 {
            assert(a.0 + b.0 + g =~= a.0 + (b.0 + g));
        } else {
            assert(a.0 + b.0 + g.remove(k) =~= a.0 + (b.0 + g.remove(k)));
            assert((a.1 + b.1).push(g[k]) =~= a.1 + b.1.push(g[k]));
        }
    }
}

/// Places each sample of `heads` with its variants (as long as both lists go).
fn place_all(samples: &mut Samples, heads: Vec<Sample>, variants: Vec<Vec<Sample>>) -> (ks: Ghost<Seq<int>>)
    ensures
        valid_choices(groups(samples_view(heads@), variants@), ks@),
        samples_view(final(samples).train_samples@) == samples_view(old(samples).train_samples@)
            + place_groups(groups(samples_view(heads@), variants@), ks@).0,
        samples_view(final(samples).val_samples@) == samples_view(old(samples).val_samples@)
            + place_groups(groups(samples_view(heads@), variants@), ks@).1,
{
    let ghost gs = groups(samples_view(heads@), variants@);
    let ghost h0 = heads@;
    let ghost v0 = variants@;
    let ghost t0 = samples_view(samples.train_samples@);
    let ghost l0 = samples_view(samples.val_samples@);
    assert(heads.len() == h0.len());
    let mut heads = heads;
    let mut variants = variants;
    let ghost mut ks: Seq<int> = seq![];
    let mut i: usize = 0;
    assert(gs.subrange(0, 0) =~= Seq::<Seq<SampleView>>::empty());
    assert(place_groups(gs.subrange(0, 0), ks).0 =~= Seq::<SampleView>::empty());
    assert(t0 + Seq::<SampleView>::empty() =~= t0);
    assert(l0 + Seq::<SampleView>::empty() =~= l0);
    while heads.len() > 0 && variants.len() > 0
        invariant
            gs == groups(samples_view(h0), v0),
            heads@ == h0.subrange(i as int, h0.len() as int),
            variants@ == v0.subrange(i as int, v0.len() as int),
            i <= h0.len(),
            i <= v0.len(),
            h0.len() <= usize::MAX,
            valid_choices(gs.subrange(0, i as int), ks),
            samples_view(samples.train_samples@) == t0 + place_groups(gs.subrange(0, i as int), ks).0,
            samples_view(samples.val_samples@) == l0 + place_groups(gs.subrange(0, i as int), ks).1,
        decreases heads@.len(),
    {
        let s = heads.remove(0);
        let v = variants.remove(0);
        let ghost g = group_of(s, Some(v));
        assert(samples_view(g) =~= gs[i as int]);
        let ghost tb = samples.train_samples@;
        let ghost lb = samples.val_samples@;
        if v.len() == 0 {
            sample_place_into_vecs(samples, s, None);
        } else {
            sample_place_into_vecs(samples, s, Some(v));
        }
        let ghost k: int = if g.len() > 1 {
            choose|k: int| 0 <= k < g.len() && samples.val_samples@ == lb.push(#[trigger] g[k])
                && samples.train_samples@ == tb + g.remove(k)
        } else {
            0
        };
        proof {
            let prev = place_groups(gs.subrange(0, i as int), ks);
            let gs1 = gs.subrange(0, i + 1);
            let ks1 = ks.push(k);
            assert(gs1.drop_last() =~= gs.subrange(0, i as int));
            assert(ks1.drop_last() =~= ks);
            assert(gs1.last() == samples_view(g));
            if g.len() <= 1 {
                assert(samples.train_samples@ == tb.push(s));
                assert(samples_view(tb.push(s)) =~= samples_view(tb) + samples_view(g));
            } else {
                assert(samples_view(tb + g.remove(k)) =~= samples_view(tb) + samples_view(g).remove(k));
                assert(samples_view(lb.push(g[k])) =~= samples_view(lb).push(samples_view(g)[k]));
                assert(t0 + prev.0 + samples_view(g).remove(k) =~= t0 + (prev.0 + samples_view(g).remove(k)));
                assert((l0 + prev.1).push(samples_view(g)[k]) =~= l0 + prev.1.push(samples_view(g)[k]));
            }
            if g.len() <= 1 {
                assert(t0 + prev.0 + samples_view(g) =~= t0 + (prev.0 + samples_view(g)));
            }
            assert forall|j: int| 0 <= j < gs1.len() implies 0 <= #[trigger] ks1[j] < gs1[j].len() by {
                if j < i {
                    assert(ks1[j] == ks[j]);
                    assert(gs1[j] == gs.subrange(0, i as int)[j]);
                }
            }
            ks = ks1;
        }
        i = i + 1;
        assert(heads@ =~= h0.subrange(i as int, h0.len() as int));
        assert(variants@ =~= v0.subrange(i as int, v0.len() as int));
    }
    assert(gs.subrange(0, i as int) =~= gs);
    Ghost(ks)
}

proof fn lemma_declines_view(s: Sample, system: String, response: String, t: (Seq<char>, Seq<char>))
    requires
        declines(s, system, response, t),
    ensures
        sample_view(s) == (SampleView {
            system: Some(system@),
            thought: None,
            prompt: seq![PromptItemView::Text(question(t))],
            ai: seq![AiItemView::Text(response@)],
        }),
{
    assert(sample_view(s).prompt =~= seq![PromptItemView::Text(question(t))]);
    assert(sample_view(s).ai =~= seq![AiItemView::Text(response@)]);
}

/// All groups of a document: its own samples with `variants`, then its beyond-scope samples
/// with `beyond_variants`.
pub open spec fn all_groups(
    x: TrainXML,
    m: TrainXMLIdMaps,
    variants: Seq<Vec<Sample>>,
    beyond_variants: Seq<Vec<Sample>>,
) -> Seq<Seq<SampleView>> {
    groups(regular_views(x, m), variants) + groups(beyond_views(x, m), beyond_variants)
}

/// Creates all samples of a training document: its samples described by ids, then those
/// described by tags, each placed with its variants (`variants[i]` belongs to the `i`-th
/// sample, one list per sample, possibly empty); then the beyond-scope samples, placed with
/// `beyond_variants` likewise. From each group one sample, drawn at random, goes to
/// validation when the group has two or more; every other sample goes to training.
pub fn sample_create_samples(
    train_xml: &TrainXML,
    train_xml_ids: &TrainXMLIdMaps,
    variants: Vec<Vec<Sample>>,
    beyond_variants: Vec<Vec<Sample>>,
) -> (r: Samples)
    requires
        variants@.len() == regular_views(*train_xml, *train_xml_ids).len(),
        beyond_variants@.len() == beyond_views(*train_xml, *train_xml_ids).len(),
    ensures
        exists|ks: Seq<int>|
            valid_choices(all_groups(*train_xml, *train_xml_ids, variants@, beyond_variants@), ks)
                && samples_view(r.train_samples@) == #[trigger] place_groups(
                all_groups(*train_xml, *train_xml_ids, variants@, beyond_variants@),
                ks,
            ).0 && samples_view(r.val_samples@) == place_groups(
                all_groups(*train_xml, *train_xml_ids, variants@, beyond_variants@),
                ks,
            ).1,
{
    let ghost m = *train_xml_ids;
    let ghost v1 = variants@;
    let ghost v2 = beyond_variants@;
    let mut samples = Samples { train_samples: Vec::new(), val_samples: Vec::new() };
    let mut regular: Vec<Sample> = Vec::new();
    if let Some(section) = &train_xml.samples {
        if let Some(list) = &section.sample_ids {
            let mut i: usize = 0;
            assert(list@.subrange(0, 0) =~= Seq::<TrainXMLSamplesSampleIds>::empty());
            assert(samples_view(regular@) =~= Seq::<SampleView>::empty());
            while i < list.len()
                invariant
                    i <= list@.len(),
                    m == *train_xml_ids,
                    samples_view(regular@) == ids_views(list@.subrange(0, i as int), m),
                decreases list@.len() - i,
            {
                let ghost before = regular@;
                assert(list@.subrange(0, i + 1).drop_last() =~= list@.subrange(0, i as int));
                if let Some(o) = sample_create_via_ids(&list[i], train_xml_ids) {
                    regular.push(o);
                    assert(samples_view(regular@) =~= samples_view(before).push(sample_view(o)));
                }
                i = i + 1;
                assert(samples_view(regular@) =~= ids_views(list@.subrange(0, i as int), m));
            }
            assert(list@.subrange(0, list@.len() as int) =~= list@);
        }
        let ghost after_ids = samples_view(regular@);
        if let Some(list) = &section.sample {
            let mut i: usize = 0;
            assert(list@.subrange(0, 0) =~= Seq::<TrainXMLSamplesSample>::empty());
            assert(after_ids + Seq::<SampleView>::empty() =~= after_ids);
            while i < list.len()
                invariant
                    i <= list@.len(),
                    m == *train_xml_ids,
                    samples_view(regular@) == after_ids + tags_views(list@.subrange(0, i as int), m),
                decreases list@.len() - i,
            {
                let ghost before = regular@;
                assert(list@.subrange(0, i + 1).drop_last() =~= list@.subrange(0, i as int));
                if let Some(o) = sample_create_via_tags(&list[i], train_xml_ids) {
                    regular.push(o);
                    assert(samples_view(regular@) =~= samples_view(before).push(sample_view(o)));
                }
                i = i + 1;
                assert(samples_view(regular@) =~= after_ids + tags_views(list@.subrange(0, i as int), m));
            }
            assert(list@.subrange(0, list@.len() as int) =~= list@);
        } else {
            assert(samples_view(regular@) =~= after_ids + Seq::<SampleView>::empty());
        }
    } else {
        assert(samples_view(regular@) =~= Seq::<SampleView>::empty());
    }
    assert(samples_view(regular@) == regular_views(*train_xml, m));
    assert(samples_view(samples.train_samples@) =~= Seq::<SampleView>::empty());
    assert(samples_view(samples.val_samples@) =~= Seq::<SampleView>::empty());
    let ghost g1 = groups(samples_view(regular@), v1);
    let ks1 = place_all(&mut samples, regular, variants);
    let ghost t1 = samples_view(samples.train_samples@);
    let ghost l1 = samples_view(samples.val_samples@);
    let beyond = beyond_scope_create_samples(train_xml, train_xml_ids);
    proof {
        if beyond_scope_ready(*train_xml, m) {
            let cfg = train_xml.beyond_scope->0;
            let system = id_lookup(m.system_prompts@, cfg.system@)->0.content;
            let response = id_lookup(m.responses@, cfg.response@)->0.content;
            assert forall|i: int| 0 <= i < beyond@.len() implies #[trigger] samples_view(beyond@)[i]
                == beyond_views(*train_xml, m)[i] by {
                lemma_declines_view(beyond@[i], system, response, declined_topics(cfg)[i]);
            }
        }
        assert(samples_view(beyond@) =~= beyond_views(*train_xml, m));
    }
    let ghost g2 = groups(samples_view(beyond@), v2);
    let ks2 = place_all(&mut samples, beyond, beyond_variants);
    proof {
        lemma_place_groups_concat(g1, ks1@, g2, ks2@);
        let ks = ks1@ + ks2@;
        assert(g1 + g2 == all_groups(*train_xml, m, v1, v2));
        assert forall|i: int| 0 <= i < (g1 + g2).len() implies 0 <= #[trigger] ks[i] < (g1 + g2)[i].len() by {
            if i < g1.len() {
                assert(ks[i] == ks1@[i]);
            } else {
                assert(ks[i] == ks2@[i - g1.len()]);
            }
        }
        assert(t1 + place_groups(g2, ks2@).0 =~= place_groups(g1, ks1@).0 + place_groups(g2, ks2@).0);
        assert(samples_view(samples.train_samples@) == place_groups(g1 + g2, ks).0);
        assert(samples_view(samples.val_samples@) == place_groups(g1 + g2, ks).1);
    }
    samples
}

} // verus!
