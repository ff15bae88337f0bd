//! Counts of adjacent token pairs, keyed by the pair.

use vstd::prelude::*;
use std::collections::HashMap;

verus! {

broadcast use vstd::std_specs::hash::group_hash_axioms;

/// The map key of a pair: the left id in the high 32 bits, the right id in the low ones.
pub open spec fn pair_key(a: u32, b: u32) -> u64 {
    (a as int * 0x1_0000_0000 + b as int) as u64
}

/// The pair a map key stands for.
pub open spec fn key_pair(k: u64) -> (u32, u32) {
    ((k as int / 0x1_0000_0000) as u32, (k as int % 0x1_0000_0000) as u32)
}

/// Keys and pairs correspond one to one.
pub proof fn lemma_pair_key(a: u32, b: u32)
    ensures
        key_pair(pair_key(a, b)) == (a, b),
        pair_key(a, b) as int == a as int * 0x1_0000_0000 + b as int,
{
    assert(a as int * 0x1_0000_0000 + b as int <= 0xffff_ffff_ffff_ffff) by (nonlinear_arith)
        requires a as int <= 0xffff_ffff, b as int <= 0xffff_ffff;
    assert((a as int * 0x1_0000_0000 + b as int) / 0x1_0000_0000 == a as int) by (nonlinear_arith)
        requires 0 <= b < 0x1_0000_0000, 0 <= a;
    assert((a as int * 0x1_0000_0000 + b as int) % 0x1_0000_0000 == b as int) by (nonlinear_arith)
        requires 0 <= b < 0x1_0000_0000, 0 <= a;
}

/// Every key is the key of its pair.
pub proof fn lemma_key_pair(k: u64)
    ensures
        pair_key(key_pair(k).0, key_pair(k).1) == k,
{
    let q = k as int / 0x1_0000_0000;
    let r = k as int % 0x1_0000_0000;
    assert(q * 0x1_0000_0000 + r == k as int && 0 <= r < 0x1_0000_0000 && 0 <= q < 0x1_0000_0000)
        by (nonlinear_arith)
        requires q == k as int / 0x1_0000_0000, r == k as int % 0x1_0000_0000, 0 <= k as int <= 0xffff_ffff_ffff_ffff;
}

/// The key of a pair, computed.
fn key_of(a: u32, b: u32) -> (k: u64)
    ensures
        k == pair_key(a, b),
{
    proof {
        lemma_pair_key(a, b);
    }
    (a as u64) * 0x1_0000_0000u64 + (b as u64)
}

/// `x` comes before `y` when comparing the count, then the left id, then the right id.
pub open spec fn entry_le(x: (usize, u32, u32), y: (usize, u32, u32)) -> bool {
    x.0 < y.0 || (x.0 == y.0 && (x.1 < y.1 || (x.1 == y.1 && x.2 <= y.2)))
}

/// `t` is an entry of `m` (count, left id, right id) that no other entry exceeds.
pub open spec fn is_max_entry(m: Map<(u32, u32), usize>, t: (usize, u32, u32)) -> bool {
    &&& m.contains_key((t.1, t.2))
    &&& m[(t.1, t.2)] == t.0
    &&& forall|p: (u32, u32)| #[trigger] m.contains_key(p) ==> entry_le((m[p], p.0, p.1), t)
}

/// The greatest entry of a nonempty map.
pub open spec fn max_entry_of(m: Map<(u32, u32), usize>) -> (usize, u32, u32) {
    choose|t: (usize, u32, u32)| is_max_entry(m, t)
}

/// A map has at most one greatest entry.
pub proof fn lemma_max_entry_unique(m: Map<(u32, u32), usize>, t: (usize, u32, u32))
    requires
        is_max_entry(m, t),
    ensures
        max_entry_of(m) == t,
{
    let u = max_entry_of(m);
    assert(is_max_entry(m, u));
    assert(m.contains_key((t.1, t.2)));
    assert(m.contains_key((u.1, u.2)));
    assert(entry_le((m[(t.1, t.2)], t.1, t.2), u));
    assert(entry_le((m[(u.1, u.2)], u.1, u.2), t));
}

/// A nonempty finite map has a greatest entry.
pub proof fn lemma_max_entry_exists(m: Map<(u32, u32), usize>)
    requires
        m.dom().finite(),
        m.dom().len() > 0,
    ensures
        is_max_entry(m, max_entry_of(m)),
    decreases m.dom().len(),
{
    let p = m.dom().choose();
    let rest = m.remove(p);
    assert(rest.dom() =~= m.dom().remove(p));
    let tp = (m[p], p.0, p.1);
    if rest.dom().len() == 0 {
        assert forall|q: (u32, u32)| #[trigger] m.contains_key(q) implies entry_le((m[q], q.0, q.1), tp) by {
            if q != p {
                assert(rest.dom().contains(q));
            }
        }
        assert(is_max_entry(m, tp));
    } else {
        lemma_max_entry_exists(rest);
        let tr = max_entry_of(rest);
        let t = if entry_le(tp, tr) { tr } else { tp };
        assert forall|q: (u32, u32)| #[trigger] m.contains_key(q) implies entry_le((m[q], q.0, q.1), t) by {
            if q != p {
                assert(rest.contains_key(q));
            }
        }
        assert(is_max_entry(m, t));
    }
}

/// Counts of adjacent token pairs: each pair present maps to a positive count.
#[derive(Debug, Clone)]
pub struct PairCounts {
    map: HashMap<u64, usize>,
}

impl View for PairCounts {
    type V = Map<(u32, u32), usize>;

    closed spec fn view(&self) -> Map<(u32, u32), usize> {
        Map::new(
            |p: (u32, u32)| self.map@.contains_key(pair_key(p.0, p.1)),
            |p: (u32, u32)| self.map@[pair_key(p.0, p.1)],
        )
    }
}

impl PairCounts {
    proof fn lemma_view(&self, a: u32, b: u32)
        ensures
            self@.contains_key((a, b)) == self.map@.contains_key(pair_key(a, b)),
            self@.contains_key((a, b)) ==> self@[(a, b)] == self.map@[pair_key(a, b)],
    {
    }

    proof fn lemma_view_key(&self, k: u64)
        ensures
            self@.contains_key(key_pair(k)) == self.map@.contains_key(k),
            self.map@.contains_key(k) ==> self@[key_pair(k)] == self.map@[k],
    {
        lemma_key_pair(k);
    }

    /// No pair counted.
    pub fn new() -> (r: PairCounts)
        ensures
            r@ == Map::<(u32, u32), usize>::empty(),
    {
        let r = PairCounts { map: HashMap::new() };
        assert(r@ =~= Map::<(u32, u32), usize>::empty());
        r
    }

    /// The count of a pair, if it is present.
    pub fn get(&self, pair: &(u32, u32)) -> (r: Option<&usize>)
        ensures
            r matches Some(c) ==> self@.contains_key(*pair) && *c == self@[*pair],
            r is None ==> !self@.contains_key(*pair),
    {
        let k = key_of(pair.0, pair.1);
        proof {
            self.lemma_view(pair.0, pair.1);
        }
        self.map.get(&k)
    }

    /// The pairs present form a finite set.
    pub proof fn lemma_finite(&self)
        ensures
            self@.dom().finite(),
    {
        self.lemma_dom_len();
    }

    proof fn lemma_dom_len(&self)
        ensures
            self@.dom().finite(),
            self@.dom().len() == self.map@.len(),
    {
        let f = |k: u64| key_pair(k);
        assert forall|x: u64, y: u64| self.map@.dom().contains(x) && self.map@.dom().contains(y)
            && #[trigger] f(x) == #[trigger] f(y) implies x == y by {
            lemma_key_pair(x);
            lemma_key_pair(y);
        }
        assert(vstd::relations::injective_on(f, self.map@.dom()));
        assert forall|p: (u32, u32)| #[trigger] self@.dom().contains(p) implies self.map@.dom().map(
            f,
        ).contains(p) by {
            lemma_pair_key(p.0, p.1);
            assert(f(pair_key(p.0, p.1)) == p);
        }
        assert forall|p: (u32, u32)| #[trigger] self.map@.dom().map(f).contains(p) implies self@.dom().contains(
            p,
        ) by {
            let k = choose|k: u64| self.map@.dom().contains(k) && f(k) == p;
            lemma_key_pair(k);
        }
        assert(self.map@.dom().map(f) =~= self@.dom());
        vstd::set_lib::lemma_map_size(self.map@.dom(), self@.dom(), f);
    }

    /// The number of pairs present.
    pub fn len(&self) -> (r: usize)
        ensures
            r == self@.dom().len(),
    {
        proof {
            self.lemma_dom_len();
        }
        self.map.len()
    }

    /// Whether no pair is present.
    pub fn is_empty(&self) -> (r: bool)
        ensures
            r == (self@.dom().len() == 0),
    {
        self.len() == 0
    }

    /// Adds one to the count of `pair` (a pair not present gets the count 1).
    pub fn increment(&mut self, pair: (u32, u32))
        requires
            old(self)@.contains_key(pair) ==> old(self)@[pair] < usize::MAX,
        ensures
            final(self)@ == old(self)@.insert(
                pair,
                if old(self)@.contains_key(pair) { (old(self)@[pair] + 1) as usize } else { 1 },
            ),
    {
        let k = key_of(pair.0, pair.1);
        proof {
            old(self).lemma_view(pair.0, pair.1);
        }
        let c: usize = match self.map.get(&k) {
            Some(c) => *c,
            None => 0,
        };
        self.map.insert(k, c + 1);
        proof {
            let n: usize = (c + 1) as usize;
            assert forall|p: (u32, u32)| #[trigger] self@.contains_key(p) == old(self)@.insert(pair, n).contains_key(p)
                by {
                lemma_pair_key(p.0, p.1);
                lemma_pair_key(pair.0, pair.1);
            }
            assert(self@ =~= old(self)@.insert(pair, n));
        }
    }

    /// Takes one from the count of `pair`, if present; a count that reaches 0 leaves the map.
    pub fn decrement(&mut self, pair: (u32, u32))
        ensures
            final(self)@ == if !old(self)@.contains_key(pair) {
                old(self)@
            } else if old(self)@[pair] <= 1 {
                old(self)@.remove(pair)
            } else {
                old(self)@.insert(pair, (old(self)@[pair] - 1) as usize)
            },
    {
        let k = key_of(pair.0, pair.1);
        proof {
            old(self).lemma_view(pair.0, pair.1);
            lemma_pair_key(pair.0, pair.1);
        }
        let c: usize = match self.map.get(&k) {
            Some(c) => *c,
            None => {
                return;
            },
        };
        if c <= 1 {
            self.map.remove(&k);
            proof {
                assert forall|p: (u32, u32)| #[trigger] self@.contains_key(p) == old(self)@.remove(pair).contains_key(p)
                    by {
                    lemma_pair_key(p.0, p.1);
                }
                assert(self@ =~= old(self)@.remove(pair));
            }
        } else {
            self.map.insert(k, c - 1);
            proof {
                let n: usize = (c - 1) as usize;
                assert forall|p: (u32, u32)| #[trigger] self@.contains_key(p) == old(self)@.insert(pair, n).contains_key(p)
                    by {
                    lemma_pair_key(p.0, p.1);
                }
                assert(self@ =~= old(self)@.insert(pair, n));
            }
        }
    }

    /// The greatest entry (count, left id, right id), comparing the count, then the ids;
    /// `None` when no pair is present.
    pub fn max_entry(&self) -> (r: Option<(usize, u32, u32)>)
        ensures
            r is None <==> self@ == Map::<(u32, u32), usize>::empty(),
            r matches Some(t) ==> is_max_entry(self@, t) && t == max_entry_of(self@),
    {
        let mut best: Option<(usize, u32, u32)> = None;
        for (k, v) in it: self.map.iter()
            invariant
                best is None ==> it.index() == 0,
                best matches Some(t) ==> self@.contains_key((t.1, t.2)) && self@[(t.1, t.2)] == t.0
                    && forall|j: int| 0 <= j < it.index() ==> entry_le(
                    (*it.seq()[j].1, key_pair(*it.seq()[j].0).0, key_pair(*it.seq()[j].0).1),
                    t,
                ),
        {
            let a: u32 = (*k / 0x1_0000_0000u64) as u32;
            let b: u32 = (*k % 0x1_0000_0000u64) as u32;
            let c: usize = *v;
            proof {
                self.lemma_view_key(*k);
            }
            let cand = (c, a, b);
            match best {
                None => {
                    best = Some(cand);
                },
                Some(t) => {
                    if t.0 < c || (t.0 == c && (t.1 < a || (t.1 == a && t.2 < b))) {
                        best = Some(cand);
                    }
                },
            }
        }
        proof {
            if let Some(t) = best {
                assert forall|p: (u32, u32)| #[trigger] self@.contains_key(p) implies entry_le(
                    (self@[p], p.0, p.1),
                    t,
                ) by {
                    self.lemma_view(p.0, p.1);
                    lemma_pair_key(p.0, p.1);
                }
                lemma_max_entry_unique(self@, t);
            } else {
                assert(self@ =~= Map::<(u32, u32), usize>::empty()) by {
                    assert(self.map@.dom().len() == 0);
                    if exists|p: (u32, u32)| self@.contains_key(p) {
                        let p = choose|p: (u32, u32)| self@.contains_key(p);
                        self.lemma_view(p.0, p.1);
                    }
                    assert(self@.dom() =~= Set::empty());
                }
            }
        }
        best
    }
}

} // verus!
