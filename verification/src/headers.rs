//! The header mapping of a request or a response.
//!
//! Header names are stored fully ASCII-lower-cased and are unique: inserting
//! under a name that is already present (after lower-casing) overwrites the
//! old value, so the last occurrence of a duplicate header wins.  The
//! abstract view of the mapping is a `Map<Seq<u8>, Seq<u8>>` from lower-cased
//! name to value; the order in which distinct names are kept is the order of
//! first insertion, and no contract of a caller depends on it.

use vstd::prelude::*;

use crate::ascii;
use crate::scan;

verus! {

/// The mapping that a sequence of (name, value) pairs denotes: later pairs
/// overwrite earlier ones with the same name.
pub open spec fn map_of(s: Seq<(Seq<u8>, Seq<u8>)>) -> Map<Seq<u8>, Seq<u8>>
    decreases s.len(),
{
    if s.len() == 0 {
        Map::empty()
    } else {
        map_of(s.drop_last()).insert(s.last().0, s.last().1)
    }
}

/// A key is in `map_of(s)` exactly when some pair of `s` holds it.
pub proof fn lemma_map_of_contains(s: Seq<(Seq<u8>, Seq<u8>)>, k: Seq<u8>)
    ensures
        map_of(s).contains_key(k) <==> exists|i: int| 0 <= i < s.len() && (#[trigger] s[i]).0
            == k,
    decreases s.len(),
{
    if s.len() > 0 {
        lemma_map_of_contains(s.drop_last(), k);
        if s.last().0 == k {
            assert(s[s.len() - 1].0 == k);
        } else if map_of(s).contains_key(k) {
            let i = choose|i: int| 0 <= i < s.drop_last().len() && (#[trigger] s.drop_last()[i]).0
                == k;
            assert(s[i].0 == k);
        } else {
            assert forall|i: int| 0 <= i < s.len() implies (#[trigger] s[i]).0 != k by {
                if i < s.len() - 1 {
                    assert(s.drop_last()[i] == s[i]);
                }
            }
        }
    }
}

/// With pairwise-distinct names, each pair of `s` is found in `map_of(s)`
/// under its own name with its own value.
pub proof fn lemma_map_of_index(s: Seq<(Seq<u8>, Seq<u8>)>, i: int)
    requires
        forall|p: int, q: int| 0 <= p < q < s.len() ==> (#[trigger] s[p]).0 != (#[trigger] s[q]).0,
        0 <= i < s.len(),
    ensures
        map_of(s).contains_key(s[i].0),
        map_of(s)[s[i].0] == s[i].1,
    decreases s.len(),
{
    lemma_map_of_contains(s, s[i].0);
    if i < s.len() - 1 {
        assert(s.drop_last()[i] == s[i]);
        lemma_map_of_index(s.drop_last(), i);
        assert(s[s.len() - 1].0 != s[i].0);
    }
}

/// A collection of HTTP headers: lower-cased names mapped to values.
#[derive(Debug)]
pub struct Headers {
    entries: Vec<(Vec<u8>, Vec<u8>)>,
}

impl View for Headers {
    type V = Map<Seq<u8>, Seq<u8>>;

    open spec fn view(&self) -> Map<Seq<u8>, Seq<u8>> {
        map_of(self.entries_seq())
    }
}

impl Headers {
    /// The stored (name, value) pairs, in order.
    pub closed spec fn entries_seq(&self) -> Seq<(Seq<u8>, Seq<u8>)> {
        self.entries@.map_values(|p: (Vec<u8>, Vec<u8>)| (p.0@, p.1@))
    }

    /// Well-formed: names are pairwise distinct and fully lower-cased.
    pub open spec fn wf(&self) -> bool {
        &&& forall|p: int, q: int|
            0 <= p < q < self.entries_seq().len() ==> (#[trigger] self.entries_seq()[p]).0 != (
            #[trigger] self.entries_seq()[q]).0
        &&& forall|i: int|
            0 <= i < self.entries_seq().len() ==> (#[trigger] self.entries_seq()[i]).0
                == ascii::lower(self.entries_seq()[i].0)
    }

    /// Each stored pair agrees with the mapping, and every key of the mapping
    /// is stored: the pair sequence is the mapping up to order.
    pub proof fn lemma_entries_match_view(&self)
        requires
            self.wf(),
        ensures
            forall|i: int|
                0 <= i < self.entries_seq().len() ==> self@.contains_key(
                    (#[trigger] self.entries_seq()[i]).0,
                ) && self@[self.entries_seq()[i].0] == self.entries_seq()[i].1,
            forall|k: Seq<u8>|
                self@.contains_key(k) ==> exists|i: int|
                    0 <= i < self.entries_seq().len() && (#[trigger] self.entries_seq()[i]).0 == k,
    {
        assert forall|i: int| 0 <= i < self.entries_seq().len() implies self@.contains_key(
            (#[trigger] self.entries_seq()[i]).0,
        ) && self@[self.entries_seq()[i].0] == self.entries_seq()[i].1 by {
            lemma_map_of_index(self.entries_seq(), i);
        }
        assert forall|k: Seq<u8>| self@.contains_key(k) implies exists|i: int|
            0 <= i < self.entries_seq().len() && (#[trigger] self.entries_seq()[i]).0 == k by {
            lemma_map_of_contains(self.entries_seq(), k);
        }
    }

    /// An empty header collection.
    pub fn new() -> (r: Headers)
        ensures
            r@ == Map::<Seq<u8>, Seq<u8>>::empty(),
            r.entries_seq() == Seq::<(Seq<u8>, Seq<u8>)>::empty(),
            r.wf(),
    {
        let r = Headers { entries: Vec::new() };
        proof {
            assert(r.entries_seq() =~= Seq::<(Seq<u8>, Seq<u8>)>::empty());
        }
        r
    }

    /// The position of `name` among the stored pairs, if it is stored.
    fn find_index(&self, name: &[u8]) -> (r: Option<usize>)
        ensures
            match r {
                Some(i) => i < self.entries_seq().len() && self.entries_seq()[i as int].0
                    == name@,
                None => forall|i: int|
                    0 <= i < self.entries_seq().len() ==> (#[trigger] self.entries_seq()[i]).0
                        != name@,
            },
    {
        let mut i: usize = 0;
        while i < self.entries.len()
            invariant
                i <= self.entries_seq().len(),
                forall|j: int|
                    0 <= j < i ==> (#[trigger] self.entries_seq()[j]).0 != name@,
            decreases self.entries_seq().len() - i,
        {
            if scan::bytes_eq(self.entries[i].0.as_slice(), name) {
                return Some(i);
            }
            i = i + 1;
        }
        None
    }

    /// Whether a header of this exact (already lower-cased) name is present.
    pub fn contains(&self, name: &[u8]) -> (r: bool)
        requires
            self.wf(),
        ensures
            r == self@.contains_key(name@),
    {
        proof {
            lemma_map_of_contains(self.entries_seq(), name@);
        }
        match self.find_index(name) {
            Some(_) => true,
            None => false,
        }
    }

    /// The value stored under this exact (already lower-cased) name.
    pub fn get<'a>(&'a self, name: &[u8]) -> (r: Option<&'a Vec<u8>>)
        requires
            self.wf(),
        ensures
            match r {
                Some(v) => self@.contains_key(name@) && v@ == self@[name@],
                None => !self@.contains_key(name@),
            },
    {
        proof {
            lemma_map_of_contains(self.entries_seq(), name@);
        }
        match self.find_index(name) {
            Some(i) => {
                proof {
                    lemma_map_of_index(self.entries_seq(), i as int);
                }
                Some(&self.entries[i].1)
            },
            None => None,
        }
    }

    /// Inserts a header: the name is lower-cased, and an already-present
    /// header of the same lower-cased name is overwritten.
    pub fn insert(&mut self, name: &[u8], value: &[u8])
        requires
            old(self).wf(),
        ensures
            final(self).wf(),
            final(self)@ == old(self)@.insert(ascii::lower(name@), value@),
    {
        let low = ascii::to_lower(name);
        let val = scan::copy_range(value, 0, value.len());
        proof {
            assert(val@ == value@.subrange(0, value@.len() as int));
            assert(value@.subrange(0, value@.len() as int) =~= value@);
        }
        let found = self.find_index(low.as_slice());
        let ghost before = self.entries_seq();
        match found {
            Some(i) => {
                self.entries.remove(i);
                proof {
                    let mid = self.entries_seq();
                    assert(mid =~= before.remove(i as int));
                }
            },
            None => {},
        }
        let ghost mid = self.entries_seq();
        self.entries.push((low, val));
        proof {
            let after = self.entries_seq();
            assert(after =~= mid.push((ascii::lower(name@), value@)));
            // Names stay pairwise distinct and lower-cased.
            assert forall|p: int, q: int| 0 <= p < q < after.len() implies (
            #[trigger] after[p]).0 != (#[trigger] after[q]).0 by {
                if q < after.len() - 1 {
                    lemma_remove_keeps(before, mid, found, p, q);
                } else {
                    lemma_remove_no_key(before, mid, found, ascii::lower(name@), p);
                }
            }
            assert forall|i: int| 0 <= i < after.len() implies (#[trigger] after[i]).0
                == ascii::lower(after[i].0) by {
                if i < after.len() - 1 {
                    lemma_remove_keeps_lower(before, mid, found, i);
                } else {
                    crate::ascii::lemma_lower_idempotent_seq(name@);
                }
            }
            // The new mapping is the old one with this binding inserted.
            lemma_insert_view(before, mid, found, ascii::lower(name@), value@);
        }
    }

    /// Hands out the stored (name, value) pairs, in order.
    pub fn entries(&self) -> (r: &Vec<(Vec<u8>, Vec<u8>)>)
        ensures
            r@.map_values(|p: (Vec<u8>, Vec<u8>)| (p.0@, p.1@)) == self.entries_seq(),
    {
        &self.entries
    }
}

/// Removing a pair keeps the remaining pairs' distinctness facts usable.
proof fn lemma_remove_keeps(
    before: Seq<(Seq<u8>, Seq<u8>)>,
    mid: Seq<(Seq<u8>, Seq<u8>)>,
    found: Option<usize>,
    p: int,
    q: int,
)
    requires
        forall|a: int, b: int| 0 <= a < b < before.len() ==> (#[trigger] before[a]).0 != (
        #[trigger] before[b]).0,
        match found {
            Some(i) => i < before.len() && mid == before.remove(i as int),
            None => mid == before,
        },
        0 <= p < q < mid.len(),
    ensures
        mid[p].0 != mid[q].0,
{
    match found {
        Some(i) => {
            let pi: int = if p < i as int {
                p
            } else {
                p + 1
            };
            let qi: int = if q < i as int {
                q
            } else {
                q + 1
            };
            assert(mid[p] == before[pi]);
            assert(mid[q] == before[qi]);
        },
        None => {},
    }
}

/// After removing the pair that held `k`, no pair holds `k` any more.
proof fn lemma_remove_no_key(
    before: Seq<(Seq<u8>, Seq<u8>)>,
    mid: Seq<(Seq<u8>, Seq<u8>)>,
    found: Option<usize>,
    k: Seq<u8>,
    p: int,
)
    requires
        forall|a: int, b: int| 0 <= a < b < before.len() ==> (#[trigger] before[a]).0 != (
        #[trigger] before[b]).0,
        match found {
            Some(i) => i < before.len() && before[i as int].0 == k && mid == before.remove(
                i as int,
            ),
            None => mid == before && forall|i: int|
                0 <= i < before.len() ==> (#[trigger] before[i]).0 != k,
        },
        0 <= p < mid.len(),
    ensures
        mid[p].0 != k,
{
    match found {
        Some(i) => {
            let pi: int = if p < i as int {
                p
            } else {
                p + 1
            };
            assert(mid[p] == before[pi]);
        },
        None => {},
    }
}

/// Removing a pair keeps every remaining name lower-cased.
proof fn lemma_remove_keeps_lower(
    before: Seq<(Seq<u8>, Seq<u8>)>,
    mid: Seq<(Seq<u8>, Seq<u8>)>,
    found: Option<usize>,
    p: int,
)
    requires
        forall|i: int| 0 <= i < before.len() ==> (#[trigger] before[i]).0 == ascii::lower(
            before[i].0,
        ),
        match found {
            Some(i) => i < before.len() && mid == before.remove(i as int),
            None => mid == before,
        },
        0 <= p < mid.len(),
    ensures
        mid[p].0 == ascii::lower(mid[p].0),
{
    match found {
        Some(i) => {
            let pi: int = if p < i as int {
                p
            } else {
                p + 1
            };
            assert(mid[p] == before[pi]);
        },
        None => {},
    }
}

/// Removing the old binding for `k` (if any) and appending a new one yields
/// exactly `map_of(before).insert(k, v)`.
proof fn lemma_insert_view(
    before: Seq<(Seq<u8>, Seq<u8>)>,
    mid: Seq<(Seq<u8>, Seq<u8>)>,
    found: Option<usize>,
    k: Seq<u8>,
    v: Seq<u8>,
)
    requires
        forall|a: int, b: int| 0 <= a < b < before.len() ==> (#[trigger] before[a]).0 != (
        #[trigger] before[b]).0,
        match found {
            Some(i) => i < before.len() && before[i as int].0 == k && mid == before.remove(
                i as int,
            ),
            None => mid == before && forall|i: int|
                0 <= i < before.len() ==> (#[trigger] before[i]).0 != k,
        },
    ensures
        map_of(mid.push((k, v))) == map_of(before).insert(k, v),
{
    let after = mid.push((k, v));
    assert(after.drop_last() =~= mid);
    assert(after.last() == (k, v));
    assert(map_of(after) == map_of(mid).insert(k, v));
    assert forall|x: Seq<u8>| true implies #[trigger] map_of(mid).insert(k, v).contains_key(x)
        == map_of(before).insert(k, v).contains_key(x) by {
        lemma_map_of_contains(mid, x);
        lemma_map_of_contains(before, x);
        if x != k {
            match found {
                Some(i) => {
                    if map_of(mid).contains_key(x) {
                        let p = choose|p: int|
                            0 <= p < mid.len() && (#[trigger] mid[p]).0 == x;
                        let pi: int = if p < i as int {
                            p
                        } else {
                            p + 1
                        };
                        assert(mid[p] == before[pi]);
                        assert(before[pi].0 == x);
                    }
                    if map_of(before).contains_key(x) {
                        let p = choose|p: int|
                            0 <= p < before.len() && (#[trigger] before[p]).0 == x;
                        let pm: int = if p < i as int {
                            p
                        } else {
                            p - 1
                        };
                        assert(p != i as int);
                        assert(mid[pm] == before[p]);
                        assert(mid[pm].0 == x);
                    }
                },
                None => {},
            }
        }
    }
    assert forall|x: Seq<u8>|
        map_of(mid).insert(k, v).contains_key(x) && map_of(before).insert(k, v).contains_key(
            x,
        ) implies #[trigger] map_of(mid).insert(k, v)[x] == map_of(before).insert(k, v)[x] by {
        if x != k {
            lemma_map_of_contains(mid, x);
            let p = choose|p: int| 0 <= p < mid.len() && (#[trigger] mid[p]).0 == x;
            match found {
                Some(i) => {
                    let pi: int = if p < i as int {
                        p
                    } else {
                        p + 1
                    };
                    assert(mid[p] == before[pi]);
                    assert forall|a: int, b: int| 0 <= a < b < mid.len() implies (
                    #[trigger] mid[a]).0 != (#[trigger] mid[b]).0 by {
                        lemma_remove_keeps(before, mid, found, a, b);
                    }
                    lemma_map_of_index(mid, p);
                    lemma_map_of_index(before, pi);
                },
                None => {
                    lemma_map_of_index(mid, p);
                },
            }
        }
    }
    assert(map_of(mid).insert(k, v) =~= map_of(before).insert(k, v));
}

} // verus!
