//! Occurrence counts per key, kept in the order in which keys first
//! appear: the aggregation behind the `digest` and `stats` tables.

use vstd::prelude::*;
use vstd::hash_map::StringHashMap;
use crate::text::owned;

verus! {

broadcast use vstd::hash_map::axiom_string_hash_map_spec_len;

/// Counts per key.  `keys[i]` has been seen `counts[i]` times; `index`
/// finds the position of a key.
pub struct Tally {
    keys: Vec<String>,
    counts: Vec<u64>,
    index: StringHashMap<usize>,
}

impl Tally {
    /// The keys in order of first appearance.
    pub closed spec fn key_seq(&self) -> Seq<Seq<char>> {
        crate::filters::strings_view(self.keys@)
    }

    /// The counts, position by position.
    pub closed spec fn count_seq(&self) -> Seq<u64> {
        self.counts@
    }

    /// The positions, the counts and the index agree, and no key is
    /// listed twice.
    pub closed spec fn wf(&self) -> bool {
        &&& self.keys@.len() == self.counts@.len()
        &&& forall|i: int, j: int| 0 <= i < j < self.keys@.len() ==> #[trigger] self.keys@[i]@ != #[trigger] self.keys@[j]@
        &&& forall|k: Seq<char>| #[trigger] self.index@.contains_key(k) <==> self.key_seq().contains(k)
        &&& forall|i: int| 0 <= i < self.keys@.len() ==> #[trigger] self.index@[self.keys@[i]@] == i
    }

    /// No key yet.
    pub fn new() -> (t: Self)
        ensures
            t.wf(),
            t.key_seq().len() == 0,
            t.count_seq().len() == 0,
    {
        Tally { keys: Vec::new(), counts: Vec::new(), index: StringHashMap::new() }
    }

    /// Counts one occurrence of `key`; a new key goes last with count 1.
    /// Returns the position of the key.
    pub fn add(&mut self, key: &str) -> (pos: usize)
        requires
            old(self).wf(),
            forall|i: int| 0 <= i < old(self).key_seq().len() && old(self).key_seq()[i] == key@ ==> old(self).count_seq()[i] < u64::MAX,
        ensures
            final(self).wf(),
            pos < final(self).key_seq().len(),
            final(self).key_seq()[pos as int] == key@,
            old(self).key_seq().contains(key@) ==> {
                &&& final(self).key_seq() == old(self).key_seq()
                &&& final(self).count_seq() == old(self).count_seq().update(pos as int, (old(self).count_seq()[pos as int] + 1) as u64)
            },
            !old(self).key_seq().contains(key@) ==> {
                &&& final(self).key_seq() == old(self).key_seq().push(key@)
                &&& final(self).count_seq() == old(self).count_seq().push(1)
            },
    {
        match self.index.get(key) {
            Some(p) => {
                let pos = *p;
                proof {
                    assert(self.key_seq().contains(key@));
                    let w = choose|w: int| 0 <= w < self.key_seq().len() && self.key_seq()[w] == key@;
                    assert(self.keys@[w]@ == key@);
                    assert(pos == w);
                }
                let c = self.counts[pos];
                self.counts.set(pos, c + 1);
                pos
            },
            None => {
                let pos = self.keys.len();
                let k = owned(key);
                let ghost old_keys = self.keys@;
                proof {
                    assert(!self.key_seq().contains(key@));
                    assert forall|i: int| 0 <= i < old_keys.len() implies #[trigger] old_keys[i]@ != key@ by {
                        if old_keys[i]@ == key@ {
                            assert(self.key_seq()[i] == key@);
                        }
                    }
                }
                self.keys.push(k);
                self.counts.push(1);
                self.index.insert(owned(key), pos);
                let ghost keys = self.keys;
                let ghost index = self.index;
                proof {
                    assert(crate::filters::strings_view(keys@) =~= crate::filters::strings_view(old_keys).push(key@));
                    assert forall|q: Seq<char>| #[trigger] index@.contains_key(q) <==> crate::filters::strings_view(keys@).contains(q) by {
                        let nk = crate::filters::strings_view(keys@);
                        let ok = crate::filters::strings_view(old_keys);
                        if q == key@ {
                            assert(nk[pos as int] == q);
                        } else {
                            if ok.contains(q) {
                                let w = choose|w: int| 0 <= w < ok.len() && ok[w] == q;
                                assert(nk[w] == q);
                            }
                            if nk.contains(q) {
                                let w = choose|w: int| 0 <= w < nk.len() && nk[w] == q;
                                assert(w < ok.len());
                                assert(ok[w] == q);
                            }
                            assert(old(self).index@.contains_key(q) <==> ok.contains(q));
                        }
                    }
                }
                pos
            },
        }
    }

    /// The keys in order of first appearance.
    pub fn keys(&self) -> (k: &Vec<String>)
        ensures
            crate::filters::strings_view(k@) == self.key_seq(),
    {
        &self.keys
    }

    /// The counts, position by position.
    pub fn counts(&self) -> (c: &Vec<u64>)
        requires
            self.wf(),
        ensures
            c@ == self.count_seq(),
            c@.len() == self.key_seq().len(),
    {
        &self.counts
    }

    /// The number of distinct keys.
    pub fn len(&self) -> (n: usize)
        ensures
            n == self.key_seq().len(),
    {
        self.keys.len()
    }
}

/// The key of a group: the raw value, or `(unknown)` when it is empty.
pub fn group_key(raw: &str) -> (k: String)
    ensures
        k@ == if raw@.len() == 0 { "(unknown)"@ } else { raw@ },
{
    if raw.unicode_len() == 0 {
        owned("(unknown)")
    } else {
        owned(raw)
    }
}

} // verus!
