//! Sharing an original sample and its variants out between training and validation.

use vstd::prelude::*;
use rand::RngExt;
use crate::sample::structs::{Sample, Samples};

verus! {

/// `rand::rng().random_range(0..len)`: an index drawn at random from `0..len`. Which index
/// comes out is chance; only the range is claimed.
#[verifier::external_body]
fn random_index(len: usize) -> (r: usize)
    requires
        len > 0,
    ensures
        r < len,
{
    rand::rng().random_range(0..len)
}

/// The original followed by its variants.
pub open spec fn group_of(original: Sample, variants: Option<Vec<Sample>>) -> Seq<Sample> {
    match variants {
        Some(v) => seq![original] + v@,
        None => seq![original],
    }
}

/// Puts the group item at `val_index` into validation and every other item, in order, into
/// training.
pub fn sample_place_with_index(samples: &mut Samples, group: Vec<Sample>, val_index: usize)
    ensures
        final(samples).val_samples@ == if val_index < group@.len() {
            old(samples).val_samples@.push(group@[val_index as int])
        } else {
            old(samples).val_samples@
        },
        final(samples).train_samples@ == old(samples).train_samples@ + if val_index < group@.len() {
            group@.remove(val_index as int)
        } else {
            group@
        },
{
    let ghost g = group@;
    assert(group.len() == g.len());
    let mut rest = group;
    let mut i: usize = 0;
    while rest.len() > 0
        invariant
            i + rest@.len() == g.len(),
            g.len() <= usize::MAX,
            rest@ == g.subrange(i as int, g.len() as int),
            samples.val_samples@ == if val_index < i {
                old(samples).val_samples@.push(g[val_index as int])
            } else {
                old(samples).val_samples@
            },
            samples.train_samples@ == old(samples).train_samples@ + if val_index < i {
                g.subrange(0, i as int).remove(val_index as int)
            } else {
                g.subrange(0, i as int)
            },
        decreases rest@.len(),
    {
        let sample = rest.remove(0);
        assert(sample == g[i as int]);
        let ghost before_train = samples.train_samples@;
        if i == val_index {
            samples.val_samples.push(sample);
            assert(g.subrange(0, i + 1).remove(val_index as int) =~= g.subrange(0, i as int));
        } else {
            samples.train_samples.push(sample);
            if val_index < i {
                assert(g.subrange(0, i + 1).remove(val_index as int) =~= g.subrange(0, i as int).remove(
                    val_index as int,
                ).push(g[i as int]));
            } else {
                assert(g.subrange(0, i + 1) =~= g.subrange(0, i as int).push(g[i as int]));
            }
        }
        assert(rest@ =~= g.subrange(i + 1, g.len() as int));
        i = i + 1;
        assert(samples.train_samples@ =~= old(samples).train_samples@ + if val_index < i {
            g.subrange(0, i as int).remove(val_index as int)
        } else {
            g.subrange(0, i as int)
        });
    }
    assert(g.subrange(0, g.len() as int) =~= g);
}

/// Places an original sample and its variants: a lone original goes to training; from a group
/// of two or more, one sample drawn at random goes to validation and all the others, in
/// order, to training.
pub fn sample_place_into_vecs(samples: &mut Samples, original: Sample, variants: Option<Vec<Sample>>)
    ensures
        ({
            let g = group_of(original, variants);
            &&& g.len() == 1 ==> final(samples).train_samples@ == old(samples).train_samples@.push(original)
                && final(samples).val_samples@ == old(samples).val_samples@
            &&& g.len() > 1 ==> exists|k: int| 0 <= k < g.len()
                && final(samples).val_samples@ == old(samples).val_samples@.push(#[trigger] g[k])
                && final(samples).train_samples@ == old(samples).train_samples@ + g.remove(k)
        }),
{
    let ghost g = group_of(original, variants);
    let mut all_samples: Vec<Sample> = Vec::new();
    all_samples.push(original);
    if let Some(mut vars) = variants {
        all_samples.append(&mut vars);
    }
    assert(all_samples@ =~= g);
    if all_samples.len() == 1 {
        let only = all_samples.remove(0);
        samples.train_samples.push(only);
        return;
    }
    let val_index = random_index(all_samples.len());
    sample_place_with_index(samples, all_samples, val_index);
    assert(g[val_index as int] == g[val_index as int]);
}

} // verus!
