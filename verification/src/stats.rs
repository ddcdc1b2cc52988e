//! The status table: a map from HTTP status code to how often a response
//! with that code has been sent.
//!
//! Entries are kept as a vector of `(code, count)` pairs in strictly
//! ascending code order, so a snapshot is a plain copy.  A code that was
//! never recorded is absent and counts as zero.  Callers that share one
//! table across connection handlers guard it with a reader–writer lock;
//! the operations here are the critical sections those handlers run.

use vstd::prelude::*;
use crate::assoc::{map_of, keys_of, distinct_keys, lemma_map_of_contains_pair,
    lemma_map_of_update, lemma_map_of_insert, lemma_map_of_dom};

verus! {

/// An HTTP status code, e.g. 200, 404 or 500.
pub type StatusCode = u32;

/// Counts responses by status code.
#[derive(Clone, Debug, PartialEq, Eq)]
pub struct Stats {
    statuses: Vec<(StatusCode, usize)>,
}

impl Default for Stats {
    /// An empty table, as at process start.
    fn default() -> (r: Stats)
        ensures
            r@ == Map::<StatusCode, usize>::empty(),
            r.well_formed(),
    {
        Stats::new()
    }
}

/// Entries sorted strictly ascending by code.
pub open spec fn codes_ascending(s: Seq<(StatusCode, usize)>) -> bool {
    forall|i: int, j: int| 0 <= i < j < s.len() ==> s[i].0 < s[j].0
}

/// The count a status map records for `code`: zero when absent.
pub open spec fn count_in(m: Map<StatusCode, usize>, code: StatusCode) -> int {
    if m.dom().contains(code) {
        m[code] as int
    } else {
        0
    }
}

/// `its` is a faithful snapshot of the status map `m`: strictly ascending
/// by code, every recorded pair present, and nothing else.
pub open spec fn is_sorted_snapshot(m: Map<StatusCode, usize>, its: Seq<(StatusCode, usize)>) -> bool {
    &&& codes_ascending(its)
    &&& forall|i: int| 0 <= i < its.len() ==> m.contains_pair(#[trigger] its[i].0, its[i].1)
    &&& forall|c: StatusCode| m.dom().contains(c)
        ==> exists|i: int| 0 <= i < its.len() && #[trigger] its[i].0 == c
}

impl Stats {
    /// The table read as a mathematical map; absent codes have no entry.
    pub closed spec fn view(&self) -> Map<StatusCode, usize> {
        map_of(self.statuses@)
    }

    /// The internal vector is sorted strictly ascending by code.
    pub closed spec fn well_formed(&self) -> bool {
        codes_ascending(self.statuses@)
    }

    /// The count recorded for `code`: zero when the code is absent.
    pub open spec fn spec_count(&self, code: StatusCode) -> int {
        count_in(self@, code)
    }

    proof fn lemma_ascending_distinct(&self)
        requires
            self.well_formed(),
        ensures
            distinct_keys(self.statuses@),
    {
    }

    /// A fresh table has no entries.
    pub fn new() -> (r: Stats)
        ensures
            r@ == Map::<StatusCode, usize>::empty(),
            r.well_formed(),
    {
        Stats { statuses: Vec::new() }
    }

    /// Adds one to the count for status code `s`, creating the entry at
    /// count one when the code has not been seen before.
    pub fn incr(&mut self, s: StatusCode)
        requires
            old(self).well_formed(),
            old(self).spec_count(s) < usize::MAX,
        ensures
            final(self).well_formed(),
            final(self)@ == old(self)@.insert(s, (old(self).spec_count(s) + 1) as usize),
    {
        proof {
            self.lemma_ascending_distinct();
        }
        let ghost s0 = self.statuses@;
        let mut i: usize = 0;
        loop
            invariant
                i <= self.statuses.len(),
                self.statuses@ == s0,
                old(self).statuses@ == s0,
                old(self)@ == map_of(s0),
                codes_ascending(s0),
                distinct_keys(s0),
                forall|j: int| 0 <= j < i ==> s0[j].0 < s,
                self@ == map_of(s0),
                old(self).spec_count(s) < usize::MAX,
            decreases self.statuses.len() - i,
        {
            if i == self.statuses.len() || self.statuses[i].0 > s {
                // `s` is absent: every earlier code is below it, every later
                // one above it, so it gets a fresh entry at position `i`.
                proof {
                    assert(!keys_of(s0).contains(s)) by {
                        assert forall|j: int| 0 <= j < keys_of(s0).len()
                            implies keys_of(s0)[j] != s by {
                            assert(keys_of(s0)[j] == s0[j].0);
                            if j < i {
                                assert(s0[j].0 < s);
                            } else {
                                assert(i < s0.len() && s0[i as int].0 > s);
                                if j > i {
                                    assert(s0[i as int].0 < s0[j].0);
                                }
                            }
                        }
                    }
                    lemma_map_of_dom(s0);
                    assert(old(self).spec_count(s) == 0);
                    lemma_map_of_insert(s0, i as int, s, 1usize);
                }
                self.statuses.insert(i, (s, 1));
                proof {
                    let t = self.statuses@;
                    assert forall|p: int, q: int| 0 <= p < q < t.len() implies t[p].0 < t[q].0 by {
                        if q < i {
                            assert(t[p] == s0[p] && t[q] == s0[q]);
                        } else if p > i {
                            assert(t[p] == s0[p - 1] && t[q] == s0[q - 1]);
                        } else if q == i {
                            assert(t[p] == s0[p]);
                        } else if p == i {
                            assert(t[q] == s0[q - 1]);
                            if i < s0.len() && q - 1 > i {
                                assert(s0[i as int].0 < s0[q - 1].0);
                            }
                        } else {
                            // p < i < q
                            assert(t[p] == s0[p] && t[q] == s0[q - 1]);
                            assert(s0[p].0 < s);
                            if q - 1 > i {
                                assert(s0[i as int].0 < s0[q - 1].0);
                            } else {
                                assert(q - 1 == i);
                            }
                            assert(s < s0[q - 1].0);
                        }
                    }
                }
                return;
            }
            if self.statuses[i].0 == s {
                // found: bump the count in place
                proof {
                    lemma_map_of_contains_pair(s0, i as int);
                    assert(old(self).spec_count(s) == s0[i as int].1);
                    lemma_map_of_update(s0, i as int, (s0[i as int].1 + 1) as usize);
                }
                let c = self.statuses[i].1;
                self.statuses.set(i, (s, c + 1));
                return;
            }
            i = i + 1;
        }
    }

    /// The count recorded for `code`, zero when the code is absent.
    pub fn count(&self, code: StatusCode) -> (n: usize)
        requires
            self.well_formed(),
        ensures
            n == self.spec_count(code),
    {
        proof {
            self.lemma_ascending_distinct();
            lemma_map_of_dom(self.statuses@);
        }
        let mut i: usize = 0;
        while i < self.statuses.len()
            invariant
                i <= self.statuses@.len(),
                self.well_formed(),
                distinct_keys(self.statuses@),
                forall|j: int| 0 <= j < i ==> self.statuses@[j].0 != code,
                forall|k: StatusCode| self@.dom().contains(k) <==> keys_of(self.statuses@).contains(k),
            decreases self.statuses@.len() - i,
        {
            if self.statuses[i].0 == code {
                proof {
                    lemma_map_of_contains_pair(self.statuses@, i as int);
                }
                return self.statuses[i].1;
            }
            i = i + 1;
        }
        proof {
            assert(!keys_of(self.statuses@).contains(code)) by {
                assert forall|j: int| 0 <= j < keys_of(self.statuses@).len()
                    implies keys_of(self.statuses@)[j] != code by {
                    assert(keys_of(self.statuses@)[j] == self.statuses@[j].0);
                }
            }
        }
        0
    }

    /// A snapshot of the table: every recorded `(code, count)` pair, in
    /// strictly ascending code order, and nothing else.
    pub fn items(&self) -> (r: Vec<(StatusCode, usize)>)
        requires
            self.well_formed(),
        ensures
            is_sorted_snapshot(self@, r@),
    {
        proof {
            self.lemma_ascending_distinct();
            lemma_map_of_dom(self.statuses@);
            assert forall|i: int| 0 <= i < self.statuses@.len()
                implies self@.contains_pair(#[trigger] self.statuses@[i].0, self.statuses@[i].1) by {
                lemma_map_of_contains_pair(self.statuses@, i);
            }
            assert forall|c: StatusCode| self@.dom().contains(c)
                implies exists|i: int| 0 <= i < self.statuses@.len()
                    && #[trigger] self.statuses@[i].0 == c by {
                assert(keys_of(self.statuses@).contains(c));
                let i = choose|i: int| 0 <= i < keys_of(self.statuses@).len()
                    && keys_of(self.statuses@)[i] == c;
                assert(keys_of(self.statuses@)[i] == self.statuses@[i].0);
                assert(self.statuses@[i].0 == c);
            }
        }
        let mut r: Vec<(StatusCode, usize)> = Vec::new();
        let mut i: usize = 0;
        while i < self.statuses.len()
            invariant
                i <= self.statuses.len(),
                r@ =~= self.statuses@.subrange(0, i as int),
            decreases self.statuses.len() - i,
        {
            r.push(self.statuses[i]);
            i = i + 1;
        }
        proof {
            assert(r@ =~= self.statuses@);
        }
        r
    }
}

/// Law: recording one response for code `c` raises the count of `c` by
/// one and leaves every other code's count unchanged — so after any
/// sequence of recorded responses, each code's count is exactly the
/// number of responses recorded for it.
pub proof fn lemma_incr_changes_one_count(m: Map<StatusCode, usize>, c: StatusCode,
    other: StatusCode)
    requires
        count_in(m, c) < usize::MAX,
    ensures
        count_in(m.insert(c, (count_in(m, c) + 1) as usize), c) == count_in(m, c) + 1,
        c != other ==> count_in(m.insert(c, (count_in(m, c) + 1) as usize), other)
            == count_in(m, other),
{
}

/// Law: recording a response removes no entry and lowers no count: every
/// code once present stays present, and every count is monotonically
/// non-decreasing.
pub proof fn lemma_incr_monotone(m: Map<StatusCode, usize>, c: StatusCode)
    requires
        count_in(m, c) < usize::MAX,
    ensures
        forall|k: StatusCode| m.dom().contains(k)
            ==> m.insert(c, (count_in(m, c) + 1) as usize).dom().contains(k),
        forall|k: StatusCode| count_in(m, k)
            <= count_in(m.insert(c, (count_in(m, c) + 1) as usize), k),
{
}

/// Law: a status map has exactly one sorted snapshot, so any two faithful
/// readings of the table — and in particular any two renderings of the
/// statistics page over the same counts — agree entry for entry.
pub proof fn lemma_sorted_snapshot_unique(m: Map<StatusCode, usize>, a: Seq<(StatusCode, usize)>,
    b: Seq<(StatusCode, usize)>)
    requires
        is_sorted_snapshot(m, a),
        is_sorted_snapshot(m, b),
    ensures
        a =~= b,
    decreases a.len(),
{
    if a.len() == 0 {
        if b.len() > 0 {
            assert(m.contains_pair(b[0].0, b[0].1));
            assert(m.dom().contains(b[0].0));
            let i = choose|i: int| 0 <= i < a.len() && a[i].0 == b[0].0;
            assert(false);
        }
    } else {
        assert(m.dom().contains(a[0].0)) by {
            assert(m.contains_pair(a[0].0, a[0].1));
        }
        assert(b.len() > 0) by {
            let j = choose|j: int| 0 <= j < b.len() && b[j].0 == a[0].0;
        }
        // the heads carry the same code: each head is the least code of `m`
        assert(a[0].0 == b[0].0) by {
            let j = choose|j: int| 0 <= j < b.len() && #[trigger] b[j].0 == a[0].0;
            if j > 0 {
                assert(b[0].0 < b[j].0);
                assert(m.dom().contains(b[0].0)) by {
                    assert(m.contains_pair(b[0].0, b[0].1));
                }
                let i = choose|i: int| 0 <= i < a.len() && #[trigger] a[i].0 == b[0].0;
                if i > 0 {
                    assert(a[0].0 < a[i].0);
                }
                assert(false);
            }
        }
        assert(a[0].1 == b[0].1) by {
            assert(m.contains_pair(a[0].0, a[0].1));
            assert(m.contains_pair(b[0].0, b[0].1));
        }
        let m2 = m.remove(a[0].0);
        assert(is_sorted_snapshot(m2, a.skip(1))) by {
            lemma_snapshot_tail(m, a);
        }
        assert(is_sorted_snapshot(m2, b.skip(1))) by {
            lemma_snapshot_tail(m, b);
        }
        lemma_sorted_snapshot_unique(m2, a.skip(1), b.skip(1));
        assert forall|i: int| 0 <= i < a.len() implies a[i] == b[i] by {
            if i > 0 {
                assert(a.skip(1)[i - 1] == b.skip(1)[i - 1]);
            }
        }
    }
}

/// After its first entry is taken out of the map, the rest of a sorted
/// snapshot is a sorted snapshot of what remains.
proof fn lemma_snapshot_tail(m: Map<StatusCode, usize>, a: Seq<(StatusCode, usize)>)
    requires
        is_sorted_snapshot(m, a),
        a.len() > 0,
    ensures
        is_sorted_snapshot(m.remove(a[0].0), a.skip(1)),
{
    let m2 = m.remove(a[0].0);
    let t = a.skip(1);
    assert forall|i: int| 0 <= i < t.len()
        implies m2.contains_pair(#[trigger] t[i].0, t[i].1) by {
        assert(t[i] == a[i + 1]);
        assert(m.contains_pair(a[i + 1].0, a[i + 1].1));
        assert(a[0].0 < a[i + 1].0);
    }
    assert forall|c: StatusCode| m2.dom().contains(c)
        implies exists|i: int| 0 <= i < t.len() && #[trigger] t[i].0 == c by {
        assert(m.dom().contains(c));
        let i = choose|i: int| 0 <= i < a.len() && #[trigger] a[i].0 == c;
        assert(c != a[0].0);
        assert(i > 0);
        assert(t[i - 1].0 == c);
    }
}

} // verus!
