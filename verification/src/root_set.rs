//! A small set of raw GC reference encodings.
//!
//! The activations table keeps two of these: the over-approximated root set
//! and the scratch precise set filled during a collection's trace phase.
//! Entries are the nonzero raw encodings of references; the set never holds
//! duplicates.

use vstd::prelude::*;

verus! {

/// A duplicate-free set of nonzero raw reference encodings.
pub struct RootSet {
    items: Vec<u32>,
}

impl RootSet {
    /// The members, in insertion order.
    pub closed spec fn seq(&self) -> Seq<u32> {
        self.items@
    }

    /// Whether `raw` is a member.
    pub open spec fn contains_spec(&self, raw: u32) -> bool {
        self.seq().contains(raw)
    }

    /// Members are pairwise distinct and never the reserved zero encoding.
    pub open spec fn wf(&self) -> bool {
        &&& forall|j: int, k: int|
            0 <= j < self.seq().len() && 0 <= k < self.seq().len() && j != k
                ==> #[trigger] self.seq()[j] != #[trigger] self.seq()[k]
        &&& forall|j: int| 0 <= j < self.seq().len() ==> #[trigger] self.seq()[j] != 0
    }

    /// An empty set.
    pub fn new() -> (r: RootSet)
        ensures
            r.wf(),
            r.seq() == Seq::<u32>::empty(),
    {
        let r = RootSet { items: Vec::new() };
        proof {
            assert(r.seq() =~= Seq::<u32>::empty());
        }
        r
    }

    /// How many members the set has.
    pub fn len(&self) -> (r: usize)
        ensures
            r == self.seq().len(),
    {
        self.items.len()
    }

    /// Whether the set has no members.
    pub fn is_empty(&self) -> (r: bool)
        ensures
            r == (self.seq().len() == 0),
    {
        self.items.len() == 0
    }

    /// The member at position `j`.
    pub fn get(&self, j: usize) -> (r: u32)
        requires
            j < self.seq().len(),
        ensures
            r == self.seq()[j as int],
    {
        self.items[j]
    }

    /// Whether `raw` is a member.
    pub fn contains(&self, raw: u32) -> (r: bool)
        ensures
            r == self.contains_spec(raw),
    {
        let mut j: usize = 0;
        let n: usize = self.items.len();
        while j < n
            invariant
                n == self.seq().len(),
                j <= n,
                forall|k: int| 0 <= k < j ==> #[trigger] self.seq()[k] != raw,
            decreases n - j,
        {
            if self.items[j] == raw {
                return true;
            }
            j += 1;
        }
        proof {
            if self.contains_spec(raw) {
                let k = choose|k: int| 0 <= k < self.seq().len() && self.seq()[k] == raw;
                assert(self.seq()[k] != raw);
            }
        }
        false
    }

    /// Add `raw` if it is not yet a member; report whether it was new.
    pub fn insert(&mut self, raw: u32) -> (is_new: bool)
        requires
            old(self).wf(),
            raw != 0,
        ensures
            final(self).wf(),
            is_new == !old(self).contains_spec(raw),
            final(self).seq() == if is_new {
                old(self).seq().push(raw)
            } else {
                old(self).seq()
            },
            final(self).contains_spec(raw),
    {
        if self.contains(raw) {
            false
        } else {
            self.items.push(raw);
            proof {
                let s = self.seq();
                let os = old(self).seq();
                assert forall|j: int, k: int|
                    0 <= j < s.len() && 0 <= k < s.len() && j != k implies #[trigger] s[j]
                    != #[trigger] s[k] by {
                    if j < os.len() && k < os.len() {
                    } else {
                        let m: int = if j < os.len() {
                            j
                        } else {
                            k
                        };
                        assert(os[m] != raw) by {
                            if os[m] == raw {
                                assert(os.contains(raw));
                            }
                        }
                    }
                }
                assert(s[s.len() - 1] == raw);
            }
            true
        }
    }

    /// Remove every member, keeping the allocation.
    pub fn clear(&mut self)
        ensures
            final(self).wf(),
            final(self).seq() == Seq::<u32>::empty(),
    {
        self.items.clear();
        proof {
            assert(self.seq() =~= Seq::<u32>::empty());
        }
    }

    /// Remove and return the most recently inserted member, if any.
    pub fn pop(&mut self) -> (r: Option<u32>)
        requires
            old(self).wf(),
        ensures
            final(self).wf(),
            r is None <==> old(self).seq().len() == 0,
            r is None ==> final(self).seq() == old(self).seq(),
            r matches Some(raw) ==> {
                &&& raw == old(self).seq()[old(self).seq().len() - 1]
                &&& raw != 0
                &&& final(self).seq() == old(self).seq().drop_last()
            },
    {
        if self.items.len() == 0 {
            None
        } else {
            let r = self.items.pop().unwrap();
            proof {
                let s = self.seq();
                let os = old(self).seq();
                assert(s =~= os.drop_last());
                assert forall|j: int, k: int|
                    0 <= j < s.len() && 0 <= k < s.len() && j != k implies #[trigger] s[j]
                    != #[trigger] s[k] by {
                    assert(s[j] == os[j]);
                    assert(s[k] == os[k]);
                }
                assert forall|j: int| 0 <= j < s.len() implies #[trigger] s[j] != 0 by {
                    assert(s[j] == os[j]);
                }
            }
            Some(r)
        }
    }
}

} // verus!
