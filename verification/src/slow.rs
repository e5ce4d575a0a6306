//! The slow queries that `stats` reports, ordered by execution time.

use vstd::prelude::*;
use core::cmp::Ordering;

verus! {

/// A slow query.  Entries are ordered by `exec_time_bits`, the bit pattern
/// of the (non-negative) `f32` execution time, which orders such times as
/// the numbers do.
#[derive(Debug, PartialEq, Eq)]
pub struct SlowEntry {
    pub exec_time_bits: u32,
    pub ts: String,
    pub sql_snippet: String,
    pub file_name: String,
}

/// The order of two entries: by their execution time bits.
pub open spec fn slow_order(a: u32, b: u32) -> Ordering {
    if a < b {
        Ordering::Less
    } else if a == b {
        Ordering::Equal
    } else {
        Ordering::Greater
    }
}

impl PartialOrd for SlowEntry {
    fn partial_cmp(&self, other: &Self) -> (r: Option<Ordering>) {
        if self.exec_time_bits < other.exec_time_bits {
            Some(Ordering::Less)
        } else if self.exec_time_bits == other.exec_time_bits {
            Some(Ordering::Equal)
        } else {
            Some(Ordering::Greater)
        }
    }
}

impl vstd::std_specs::cmp::PartialOrdSpecImpl for SlowEntry {
    open spec fn obeys_partial_cmp_spec() -> bool {
        true
    }

    open spec fn partial_cmp_spec(&self, other: &Self) -> Option<Ordering> {
        Some(slow_order(self.exec_time_bits, other.exec_time_bits))
    }
}

impl SlowEntry {
    /// The order of two entries, by execution time.
    pub fn order(&self, other: &Self) -> (r: Ordering)
        ensures
            r == slow_order(self.exec_time_bits, other.exec_time_bits),
    {
        match self.partial_cmp(other) {
            Some(o) => o,
            None => Ordering::Equal,
        }
    }
}


/// Position of the first entry with the smallest execution time.
pub open spec fn min_index(s: Seq<SlowEntry>) -> int
    decreases s.len(),
{
    if s.len() <= 1 {
        0
    } else {
        let m = min_index(s.drop_last());
        if s.last().exec_time_bits < s[m].exec_time_bits {
            s.len() - 1
        } else {
            m
        }
    }
}

proof fn lemma_min_index(s: Seq<SlowEntry>)
    requires
        s.len() > 0,
    ensures
        0 <= min_index(s) < s.len(),
        forall|j: int| 0 <= j < s.len() ==> s[min_index(s)].exec_time_bits <= #[trigger] s[j].exec_time_bits,
    decreases s.len(),
{
    if s.len() > 1 {
        lemma_min_index(s.drop_last());
        let m = min_index(s.drop_last());
        assert forall|j: int| 0 <= j < s.len() implies s[min_index(s)].exec_time_bits <= #[trigger] s[j].exec_time_bits by {
            if j < s.len() - 1 {
                assert(s[j] == s.drop_last()[j]);
            }
        }
    }
}

/// The kept entries after offering `e` with room for `n`: taken while
/// there is room; otherwise it replaces the first of the fastest kept
/// entries when it is slower than them; otherwise it is dropped.
pub open spec fn offered(kept: Seq<SlowEntry>, n: usize, e: SlowEntry) -> Seq<SlowEntry> {
    if kept.len() < n {
        kept.push(e)
    } else if kept.len() > 0 && e.exec_time_bits > kept[min_index(kept)].exec_time_bits {
        kept.remove(min_index(kept)).push(e)
    } else {
        kept
    }
}

/// The `top_n` slowest queries seen so far.
pub struct SlowTop {
    top_n: usize,
    entries: Vec<SlowEntry>,
}

impl SlowTop {
    pub closed spec fn kept(&self) -> Seq<SlowEntry> {
        self.entries@
    }

    pub closed spec fn limit(&self) -> usize {
        self.top_n
    }

    /// At most `limit` entries are kept.
    pub open spec fn wf(&self) -> bool {
        self.kept().len() <= self.limit()
    }

    /// Room for `top_n` entries, none kept yet.
    pub fn new(top_n: usize) -> (t: Self)
        ensures
            t.wf(),
            t.kept() == Seq::<SlowEntry>::empty(),
            t.limit() == top_n,
    {
        SlowTop { top_n, entries: Vec::new() }
    }

    /// Number of kept entries.
    pub fn len(&self) -> (n: usize)
        ensures
            n == self.kept().len(),
    {
        self.entries.len()
    }

    /// Whether an entry with this execution time would be kept.
    pub fn wants(&self, exec_time_bits: u32) -> (b: bool)
        requires
            self.wf(),
        ensures
            b == (self.kept().len() < self.limit() || (self.kept().len() > 0
                && exec_time_bits > self.kept()[min_index(self.kept())].exec_time_bits)),
    {
        if self.entries.len() < self.top_n {
            return true;
        }
        if self.entries.len() == 0 {
            return false;
        }
        let m = self.first_min();
        exec_time_bits > self.entries[m].exec_time_bits
    }

    fn first_min(&self) -> (m: usize)
        requires
            self.entries@.len() > 0,
        ensures
            m as int == min_index(self.entries@),
            m < self.entries@.len(),
    {
        let mut m: usize = 0;
        let mut i: usize = 1;
        while i < self.entries.len()
            invariant
                1 <= i <= self.entries@.len(),
                m as int == min_index(self.entries@.take(i as int)),
            decreases self.entries@.len() - i,
        {
            assert(self.entries@.take(i + 1).drop_last() =~= self.entries@.take(i as int));
            proof {
                lemma_min_index(self.entries@.take(i as int));
            }
            if self.entries[i].exec_time_bits < self.entries[m].exec_time_bits {
                m = i;
            }
            i += 1;
        }
        assert(self.entries@.take(i as int) =~= self.entries@);
        proof {
            lemma_min_index(self.entries@);
        }
        m
    }

    /// The execution time bits of the first kept entry with the smallest
    /// time, or `None` when nothing is kept.
    pub fn min_bits(&self) -> (r: Option<u32>)
        requires
            self.wf(),
        ensures
            r == if self.kept().len() > 0 {
                Some(self.kept()[min_index(self.kept())].exec_time_bits)
            } else {
                None::<u32>
            },
    {
        if self.entries.len() == 0 {
            None
        } else {
            let m = self.first_min();
            Some(self.entries[m].exec_time_bits)
        }
    }

    /// Offers a query: see [`offered`].
    pub fn offer(&mut self, e: SlowEntry)
        requires
            old(self).wf(),
        ensures
            final(self).wf(),
            final(self).limit() == old(self).limit(),
            final(self).kept() == offered(old(self).kept(), old(self).limit(), e),
    {
        if self.entries.len() < self.top_n {
            self.entries.push(e);
        } else if self.entries.len() > 0 {
            let m = self.first_min();
            if e.exec_time_bits > self.entries[m].exec_time_bits {
                self.entries.remove(m);
                self.entries.push(e);
            }
        }
    }

    /// The kept entries, in the order they were kept.
    pub fn into_entries(self) -> (v: Vec<SlowEntry>)
        ensures
            v@ == self.kept(),
    {
        self.entries
    }
}

/// Every kept entry is at least as slow as every entry that offering
/// dropped or pushed out, once the room is full: the kept entries are the
/// slowest seen.
pub proof fn lemma_offer_keeps_slowest(kept: Seq<SlowEntry>, n: usize, e: SlowEntry)
    requires
        kept.len() <= n,
    ensures
        offered(kept, n, e).len() <= n,
        kept.len() == n && !offered(kept, n, e).contains(e) ==> forall|j: int|
            0 <= j < kept.len() ==> e.exec_time_bits <= #[trigger] kept[j].exec_time_bits,
        kept.len() == n && offered(kept, n, e).contains(e) && n > 0 ==> forall|j: int|
            0 <= j < n ==> kept[min_index(kept)].exec_time_bits <= #[trigger] offered(kept, n, e)[j].exec_time_bits,
{
    if kept.len() > 0 {
        lemma_min_index(kept);
    }
    if kept.len() == n && n > 0 && e.exec_time_bits > kept[min_index(kept)].exec_time_bits {
        let m = min_index(kept);
        let r = kept.remove(m);
        assert forall|j: int| 0 <= j < n implies kept[m].exec_time_bits <= #[trigger] offered(kept, n, e)[j].exec_time_bits by {
            if j < n - 1 {
                if j < m {
                    assert(r[j] == kept[j]);
                } else {
                    assert(r[j] == kept[j + 1]);
                }
            }
        }
    }
    if kept.len() == n && !offered(kept, n, e).contains(e) {
        if n > 0 && e.exec_time_bits > kept[min_index(kept)].exec_time_bits {
            assert(offered(kept, n, e)[n - 1] == e);
        }
    }
}

} // verus!
