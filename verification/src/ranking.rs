//! The order of the `digest` and `stats` tables: most frequent first, ties
//! by key in ascending order, entries below a minimum count left out, and
//! the table cut to its first entries on request.

use vstd::prelude::*;
use crate::text::{seq_lt, str_lt};

verus! {

/// Entry `i` goes before entry `j`: a higher count, or the same count and
/// a smaller key.
pub open spec fn ranks_before(keys: Seq<Seq<char>>, counts: Seq<u64>, i: int, j: int) -> bool {
    counts[i] > counts[j] || (counts[i] == counts[j] && seq_lt(keys[i], keys[j]))
}

/// Entry `i` is shown: it exists and has at least `min_count` occurrences.
pub open spec fn eligible(counts: Seq<u64>, min_count: u64, i: int) -> bool {
    0 <= i < counts.len() && counts[i] >= min_count
}

pub proof fn lemma_seq_lt_irrefl(a: Seq<char>)
    ensures
        !seq_lt(a, a),
    decreases a.len(),
{
    if a.len() > 0 {
        lemma_seq_lt_irrefl(a.drop_first());
    }
}

pub proof fn lemma_seq_lt_asym(a: Seq<char>, b: Seq<char>)
    ensures
        !(seq_lt(a, b) && seq_lt(b, a)),
    decreases a.len(),
{
    if a.len() > 0 && b.len() > 0 && a[0] == b[0] {
        lemma_seq_lt_asym(a.drop_first(), b.drop_first());
    }
}

pub proof fn lemma_seq_lt_trans(a: Seq<char>, b: Seq<char>, c: Seq<char>)
    requires
        seq_lt(a, b),
        seq_lt(b, c),
    ensures
        seq_lt(a, c),
    decreases a.len(),
{
    if a.len() > 0 && b.len() > 0 && c.len() > 0 && a[0] == b[0] && b[0] == c[0] {
        lemma_seq_lt_trans(a.drop_first(), b.drop_first(), c.drop_first());
    }
}

pub proof fn lemma_seq_lt_total(a: Seq<char>, b: Seq<char>)
    requires
        a != b,
    ensures
        seq_lt(a, b) || seq_lt(b, a),
    decreases a.len(),
{
    if a.len() == 0 {
        assert(b.len() > 0) by {
            if b.len() == 0 {
                assert(a =~= b);
            }
        }
    } else if b.len() > 0 && a[0] == b[0] {
        if a.drop_first() == b.drop_first() {
            assert(a =~= b) by {
                assert(a.len() == a.drop_first().len() + 1);
                assert(b.len() == b.drop_first().len() + 1);
                assert forall|i: int| 0 <= i < a.len() implies a[i] == b[i] by {
                    if i > 0 {
                        assert(a[i] == a.drop_first()[i - 1]);
                        assert(b[i] == b.drop_first()[i - 1]);
                    }
                }
            }
        }
        lemma_seq_lt_total(a.drop_first(), b.drop_first());
    }
}

proof fn lemma_ranks_trans(keys: Seq<Seq<char>>, counts: Seq<u64>, i: int, j: int, k: int)
    requires
        ranks_before(keys, counts, i, j),
        ranks_before(keys, counts, j, k),
    ensures
        ranks_before(keys, counts, i, k),
{
    if counts[i] == counts[j] && counts[j] == counts[k] {
        lemma_seq_lt_trans(keys[i], keys[j], keys[k]);
    }
}

proof fn lemma_ranks_asym(keys: Seq<Seq<char>>, counts: Seq<u64>, i: int, j: int)
    ensures
        !(ranks_before(keys, counts, i, j) && ranks_before(keys, counts, j, i)),
{
    lemma_seq_lt_asym(keys[i], keys[j]);
}

/// `r` lists entries in table order: no entry follows one that it ranks
/// before.
pub open spec fn in_rank_order(keys: Seq<Seq<char>>, counts: Seq<u64>, r: Seq<usize>) -> bool {
    forall|a: int, b: int| 0 <= a < b < r.len() ==> !ranks_before(keys, counts, #[trigger] r[b] as int, #[trigger] r[a] as int)
}

/// The table of the shown entries: their indices, each once, in rank
/// order; with `top`, only the first `top` of them, so that every shown
/// entry left out ranks no better than any kept one.
pub open spec fn is_ranking(keys: Seq<Seq<char>>, counts: Seq<u64>, min_count: u64, top: Option<usize>, r: Seq<usize>) -> bool {
    &&& forall|a: int| 0 <= a < r.len() ==> eligible(counts, min_count, #[trigger] r[a] as int)
    &&& forall|a: int, b: int| 0 <= a < b < r.len() ==> #[trigger] r[a] != #[trigger] r[b]
    &&& in_rank_order(keys, counts, r)
    &&& match top {
        None => forall|i: int| #[trigger] eligible(counts, min_count, i) ==> r.contains(i as usize),
        Some(t) => {
            &&& r.len() <= t
            &&& forall|i: int| #[trigger] eligible(counts, min_count, i) && !r.contains(i as usize) ==> {
                &&& r.len() == t
                &&& forall|a: int| 0 <= a < r.len() ==> !ranks_before(keys, counts, i, #[trigger] r[a] as int)
            }
        },
    }
}

fn before_exec(keys: &[String], counts: &[u64], i: usize, j: usize) -> (b: bool)
    requires
        i < keys@.len(),
        j < keys@.len(),
        keys@.len() == counts@.len(),
    ensures
        b == ranks_before(crate::filters::strings_view(keys@), counts@, i as int, j as int),
{
    counts[i] > counts[j] || (counts[i] == counts[j] && str_lt(keys[i].as_str(), keys[j].as_str()))
}

/// The table order of entries with keys `keys` and counts `counts`; see
/// [`is_ranking`].
pub fn rank_by_count(keys: &[String], counts: &[u64], min_count: u64, top: Option<usize>) -> (r: Vec<usize>)
    requires
        keys@.len() == counts@.len(),
    ensures
        is_ranking(crate::filters::strings_view(keys@), counts@, min_count, top, r@),
{
    let ghost ks = crate::filters::strings_view(keys@);
    let mut sorted: Vec<usize> = Vec::new();
    let mut i: usize = 0;
    while i < counts.len()
        invariant
            i <= counts.len(),
            keys@.len() == counts@.len(),
            ks == crate::filters::strings_view(keys@),
            forall|a: int| 0 <= a < sorted@.len() ==> #[trigger] sorted@[a] < i && eligible(counts@, min_count, sorted@[a] as int),
            forall|a: int, b: int| 0 <= a < b < sorted@.len() ==> #[trigger] sorted@[a] != #[trigger] sorted@[b],
            in_rank_order(ks, counts@, sorted@),
            forall|k: int| 0 <= k < i && #[trigger] eligible(counts@, min_count, k) ==> sorted@.contains(k as usize),
        decreases counts.len() - i,
    {
        if counts[i] >= min_count {
            let mut p: usize = 0;
            while p < sorted.len() && !before_exec(keys, counts, i, sorted[p])
                invariant
                    p <= sorted.len(),
                    i < counts@.len(),
                    keys@.len() == counts@.len(),
                    ks == crate::filters::strings_view(keys@),
                    forall|a: int| 0 <= a < sorted@.len() ==> #[trigger] sorted@[a] < i,
                    forall|a: int| 0 <= a < p ==> !ranks_before(ks, counts@, i as int, #[trigger] sorted@[a] as int),
                decreases sorted.len() - p,
            {
                p += 1;
            }
            let ghost old_sorted = sorted@;
            proof {
                assert forall|b: int| p <= b < old_sorted.len() implies !ranks_before(ks, counts@, #[trigger] old_sorted[b] as int, i as int) by {
                    lemma_ranks_asym(ks, counts@, i as int, old_sorted[p as int] as int);
                    if b > p && ranks_before(ks, counts@, old_sorted[b] as int, i as int) {
                        lemma_ranks_trans(ks, counts@, old_sorted[b] as int, i as int, old_sorted[p as int] as int);
                    }
                }
            }
            sorted.insert(p, i);
            proof {
                let s = sorted@;
                assert(s == old_sorted.insert(p as int, i));
                assert forall|a: int| 0 <= a < s.len() implies #[trigger] s[a] < i + 1 && eligible(counts@, min_count, s[a] as int) by {
                    if a < p {
                        assert(s[a] == old_sorted[a]);
                    } else if a > p {
                        assert(s[a] == old_sorted[a - 1]);
                    }
                }
                assert forall|a: int, b: int| 0 <= a < b < s.len() implies #[trigger] s[a] != #[trigger] s[b] by {
                    if a < p && b > p {
                        assert(s[a] == old_sorted[a] && s[b] == old_sorted[b - 1]);
                    } else if a < p && b == p {
                        assert(s[a] == old_sorted[a]);
                    } else if a == p {
                        assert(s[b] == old_sorted[b - 1]);
                    } else if a < p {
                        assert(s[a] == old_sorted[a] && s[b] == old_sorted[b]);
                    } else {
                        assert(s[a] == old_sorted[a - 1] && s[b] == old_sorted[b - 1]);
                    }
                }
                assert forall|a: int, b: int| 0 <= a < b < s.len() implies !ranks_before(ks, counts@, #[trigger] s[b] as int, #[trigger] s[a] as int) by {
                    if a < p && b > p {
                        assert(s[a] == old_sorted[a] && s[b] == old_sorted[b - 1]);
                    } else if a < p && b == p {
                        assert(s[a] == old_sorted[a]);
                    } else if a == p {
                        assert(s[b] == old_sorted[b - 1]);
                    } else if a < p {
                        assert(s[a] == old_sorted[a] && s[b] == old_sorted[b]);
                    } else {
                        assert(s[a] == old_sorted[a - 1] && s[b] == old_sorted[b - 1]);
                    }
                }
                assert forall|k: int| 0 <= k < i + 1 && #[trigger] eligible(counts@, min_count, k) implies s.contains(k as usize) by {
                    if k == i {
                        assert(s[p as int] == i);
                    } else {
                        let w = choose|w: int| 0 <= w < old_sorted.len() && old_sorted[w] == k as usize;
                        if w < p {
                            assert(s[w] == old_sorted[w]);
                        } else {
                            assert(s[w + 1] == old_sorted[w]);
                        }
                    }
                }
            }
        }
        i += 1;
    }
    match top {
        None => {
            proof {
                assert forall|k: int| #[trigger] eligible(counts@, min_count, k) implies sorted@.contains(k as usize) by {
                    assert(0 <= k < i);
                }
            }
            sorted
        },
        Some(t) => {
            let ghost full = sorted@;
            if t < sorted.len() {
                sorted.truncate(t);
            }
            proof {
                let s = sorted@;
                assert forall|k: int| #[trigger] eligible(counts@, min_count, k) && !s.contains(k as usize) implies {
                    &&& s.len() == t
                    &&& forall|a: int| 0 <= a < s.len() ==> !ranks_before(ks, counts@, k, #[trigger] s[a] as int)
                } by {
                    assert(0 <= k < i);
                    assert(full.contains(k as usize));
                    let w = choose|w: int| 0 <= w < full.len() && full[w] == k as usize;
                    if w < s.len() {
                        assert(s[w] == full[w]);
                    }
                    assert forall|a: int| 0 <= a < s.len() implies !ranks_before(ks, counts@, k, #[trigger] s[a] as int) by {
                        assert(s[a] == full[a]);
                    }
                }
                assert forall|a: int, b: int| 0 <= a < b < s.len() implies !ranks_before(ks, counts@, #[trigger] s[b] as int, #[trigger] s[a] as int) by {
                    assert(s[a] == full[a] && s[b] == full[b]);
                }
                assert forall|a: int, b: int| 0 <= a < b < s.len() implies #[trigger] s[a] != #[trigger] s[b] by {
                    assert(s[a] == full[a] && s[b] == full[b]);
                }
            }
            sorted
        },
    }
}

/// The order of entries by key alone, smallest key first: each index of
/// `keys` once, and no entry after one whose key is larger (the order of
/// the time buckets of `stats`).
pub fn rank_by_key(keys: &[String]) -> (r: Vec<usize>)
    ensures
        forall|a: int, b: int| 0 <= a < b < r@.len() ==> #[trigger] r@[a] != #[trigger] r@[b],
        forall|a: int| 0 <= a < r@.len() ==> #[trigger] r@[a] < keys@.len(),
        forall|i: usize| i < keys@.len() ==> #[trigger] r@.contains(i),
        forall|a: int, b: int| 0 <= a < b < r@.len() ==>
            !seq_lt(#[trigger] keys@[r@[b] as int]@, #[trigger] keys@[r@[a] as int]@),
{
    let mut zeros: Vec<u64> = Vec::new();
    let mut i: usize = 0;
    while i < keys.len()
        invariant
            i <= keys.len(),
            zeros@.len() == i,
            forall|k: int| 0 <= k < i ==> zeros@[k] == 0,
        decreases keys.len() - i,
    {
        zeros.push(0);
        i += 1;
    }
    let r = rank_by_count(keys, zeros.as_slice(), 0, None);
    proof {
        let ks = crate::filters::strings_view(keys@);
        assert forall|a: int| 0 <= a < r@.len() implies #[trigger] r@[a] < keys@.len() by {
            assert(eligible(zeros@, 0, r@[a] as int));
        }
        assert forall|k: usize| k < keys@.len() implies #[trigger] r@.contains(k) by {
            assert(eligible(zeros@, 0, k as int));
        }
        assert forall|a: int, b: int| 0 <= a < b < r@.len() implies
            !seq_lt(#[trigger] keys@[r@[b] as int]@, #[trigger] keys@[r@[a] as int]@) by {
            assert(!ranks_before(ks, zeros@, r@[b] as int, r@[a] as int));
            assert(eligible(zeros@, 0, r@[a] as int) && eligible(zeros@, 0, r@[b] as int));
            assert(ks[r@[a] as int] == keys@[r@[a] as int]@);
            assert(ks[r@[b] as int] == keys@[r@[b] as int]@);
        }
    }
    r
}

} // verus!
