//! Resuming an interrupted run: the fingerprints (path, size, modification
//! time) of the log files already processed.  A file whose fingerprint is
//! recorded is skipped by `--resume`.

use vstd::prelude::*;
use crate::text::str_eq;

verus! {

/// A processed log file.
#[derive(Debug, Clone)]
pub struct ProcessedFile {
    pub path: String,
    /// Size in bytes.
    pub size: u64,
    /// Modification time, in seconds since the Unix epoch.
    pub mtime: u64,
    /// Records exported from the file.
    pub records: u64,
    /// When the file was done (ISO 8601).
    pub processed_at: String,
}

impl View for ProcessedFile {
    /// Path, size, modification time, records, completion time.
    type V = (Seq<char>, u64, u64, u64, Seq<char>);

    open spec fn view(&self) -> (Seq<char>, u64, u64, u64, Seq<char>) {
        (self.path@, self.size, self.mtime, self.records, self.processed_at@)
    }
}

/// What the entries hold, in order.
pub open spec fn entries_view(v: Seq<ProcessedFile>) -> Seq<(Seq<char>, u64, u64, u64, Seq<char>)> {
    v.map_values(|p: ProcessedFile| p@)
}

/// The resume state file.
#[derive(Debug, Clone)]
pub struct ResumeState {
    pub processed: Vec<ProcessedFile>,
}

impl Default for ResumeState {
    fn default() -> (s: Self)
        ensures
            s.processed@.len() == 0,
    {
        ResumeState { processed: Vec::new() }
    }
}

/// `entries` records the fingerprint `(path, size, mtime)`.
pub open spec fn has_fingerprint(entries: Seq<(Seq<char>, u64, u64, u64, Seq<char>)>, path: Seq<char>, size: u64, mtime: u64) -> bool {
    exists|i: int| 0 <= i < entries.len() && #[trigger] entries[i].0 == path && entries[i].1 == size && entries[i].2 == mtime
}

/// `entries` without those of `path`, in order.
pub open spec fn without_path(entries: Seq<(Seq<char>, u64, u64, u64, Seq<char>)>, path: Seq<char>) -> Seq<(Seq<char>, u64, u64, u64, Seq<char>)>
    decreases entries.len(),
{
    if entries.len() == 0 {
        Seq::empty()
    } else {
        let rest = without_path(entries.drop_last(), path);
        if entries.last().0 == path {
            rest
        } else {
            rest.push(entries.last())
        }
    }
}

/// How many entries are for `path`.
pub open spec fn count_path(entries: Seq<(Seq<char>, u64, u64, u64, Seq<char>)>, path: Seq<char>) -> nat
    decreases entries.len(),
{
    if entries.len() == 0 {
        0
    } else {
        count_path(entries.drop_last(), path) + if entries.last().0 == path { 1nat } else { 0nat }
    }
}

pub proof fn lemma_without_path(entries: Seq<(Seq<char>, u64, u64, u64, Seq<char>)>, path: Seq<char>)
    ensures
        count_path(without_path(entries, path), path) == 0,
        forall|q: Seq<char>| q != path ==> #[trigger] count_path(without_path(entries, path), q) == count_path(entries, q),
    decreases entries.len(),
{
    if entries.len() > 0 {
        lemma_without_path(entries.drop_last(), path);
        let rest = without_path(entries.drop_last(), path);
        if entries.last().0 != path {
            assert(rest.push(entries.last()).drop_last() =~= rest);
        }
        assert forall|q: Seq<char>| q != path implies #[trigger] count_path(without_path(entries, path), q) == count_path(entries, q) by {
            assert(count_path(rest, q) == count_path(entries.drop_last(), q));
        }
    }
}

impl ResumeState {
    /// The file `path` with this size and modification time was processed.
    pub fn is_processed(&self, path: &str, size: u64, mtime: u64) -> (b: bool)
        ensures
            b == has_fingerprint(entries_view(self.processed@), path@, size, mtime),
    {
        let mut i: usize = 0;
        while i < self.processed.len()
            invariant
                i <= self.processed.len(),
                forall|k: int| 0 <= k < i ==> !(#[trigger] entries_view(self.processed@)[k].0 == path@
                    && entries_view(self.processed@)[k].1 == size && entries_view(self.processed@)[k].2 == mtime),
            decreases self.processed.len() - i,
        {
            let p = &self.processed[i];
            assert(entries_view(self.processed@)[i as int] == p@);
            if p.size == size && p.mtime == mtime && str_eq(p.path.as_str(), path) {
                assert(entries_view(self.processed@)[i as int].0 == path@);
                return true;
            }
            i += 1;
        }
        false
    }

    /// Records that `path` was processed: any earlier entry of the path is
    /// dropped, the others keep their order, and the new entry goes last.
    pub fn mark_processed(&mut self, path: &str, size: u64, mtime: u64, records: u64, processed_at: String)
        ensures
            entries_view(final(self).processed@) == without_path(entries_view(old(self).processed@), path@).push(
                (path@, size, mtime, records, processed_at@),
            ),
    {
        let ghost old_entries = entries_view(self.processed@);
        let mut kept: Vec<ProcessedFile> = Vec::new();
        let mut i: usize = 0;
        while i < self.processed.len()
            invariant
                i <= self.processed.len(),
                entries_view(self.processed@) == old_entries,
                entries_view(kept@) == without_path(old_entries.take(i as int), path@),
            decreases self.processed.len() - i,
        {
            assert(old_entries.take(i + 1).drop_last() =~= old_entries.take(i as int));
            assert(old_entries[i as int] == self.processed@[i as int]@);
            if !str_eq(self.processed[i].path.as_str(), path) {
                let c = self.processed[i].clone_entry();
                let ghost before = kept@;
                kept.push(c);
                assert(entries_view(kept@) =~= entries_view(before).push(c@));
            }
            i += 1;
        }
        assert(old_entries.take(i as int) =~= old_entries);
        let entry = ProcessedFile { path: crate::text::owned(path), size, mtime, records, processed_at };
        let ghost before = kept@;
        kept.push(entry);
        assert(entries_view(kept@) =~= entries_view(before).push(entry@));
        self.processed = kept;
    }

    /// Number of processed files.
    pub fn processed_count(&self) -> (n: usize)
        ensures
            n == self.processed@.len(),
    {
        self.processed.len()
    }
}

impl ProcessedFile {
    /// A copy of the entry.
    pub fn clone_entry(&self) -> (c: Self)
        ensures
            c@ == self@,
    {
        ProcessedFile {
            path: self.path.clone(),
            size: self.size,
            mtime: self.mtime,
            records: self.records,
            processed_at: self.processed_at.clone(),
        }
    }
}

proof fn lemma_count_zero_absent(entries: Seq<(Seq<char>, u64, u64, u64, Seq<char>)>, path: Seq<char>, i: int)
    requires
        count_path(entries, path) == 0,
        0 <= i < entries.len(),
    ensures
        entries[i].0 != path,
    decreases entries.len(),
{
    if i < entries.len() - 1 {
        assert(entries.drop_last()[i] == entries[i]);
        lemma_count_zero_absent(entries.drop_last(), path, i);
    }
}

/// Marking a file processed makes it count as processed with that
/// fingerprint and with no other (a file whose size or modification time
/// changed since is processed again), leaves exactly one entry for its
/// path, and keeps the entries of every other path.
pub proof fn lemma_mark_then_processed(
    before: Seq<(Seq<char>, u64, u64, u64, Seq<char>)>,
    path: Seq<char>,
    size: u64,
    mtime: u64,
    records: u64,
    processed_at: Seq<char>,
)
    ensures
        ({
            let after = without_path(before, path).push((path, size, mtime, records, processed_at));
            &&& has_fingerprint(after, path, size, mtime)
            &&& forall|size2: u64, mtime2: u64| #![trigger has_fingerprint(after, path, size2, mtime2)]
                (size2 != size || mtime2 != mtime) ==> !has_fingerprint(after, path, size2, mtime2)
            &&& count_path(after, path) == 1
            &&& forall|q: Seq<char>| q != path ==> #[trigger] count_path(after, q) == count_path(before, q)
        }),
{
    lemma_without_path(before, path);
    let w = without_path(before, path);
    let after = w.push((path, size, mtime, records, processed_at));
    assert(after.drop_last() =~= w);
    assert(after[after.len() - 1].0 == path);
    assert forall|q: Seq<char>| q != path implies #[trigger] count_path(after, q) == count_path(before, q) by {
        assert(count_path(w, q) == count_path(before, q));
    }
    assert forall|size2: u64, mtime2: u64| (size2 != size || mtime2 != mtime) implies
        !#[trigger] has_fingerprint(after, path, size2, mtime2) by {
        assert forall|i: int| 0 <= i < after.len() implies !(#[trigger] after[i].0 == path && after[i].1 == size2 && after[i].2 == mtime2) by {
            if i < w.len() {
                lemma_count_zero_absent(w, path, i);
                assert(after[i] == w[i]);
            }
        }
    }
}

/// The entries after marking the files `marks` processed, in turn, from
/// the entries `start` (what `mark_processed` does to them).
pub open spec fn marked_all(
    start: Seq<(Seq<char>, u64, u64, u64, Seq<char>)>,
    marks: Seq<(Seq<char>, u64, u64, u64, Seq<char>)>,
) -> Seq<(Seq<char>, u64, u64, u64, Seq<char>)>
    decreases marks.len(),
{
    if marks.len() == 0 {
        start
    } else {
        let m = marks.last();
        without_path(marked_all(start, marks.drop_last()), m.0).push(m)
    }
}

/// Number of distinct paths among `paths`.
pub open spec fn distinct_paths(paths: Seq<Seq<char>>) -> nat
    decreases paths.len(),
{
    if paths.len() == 0 {
        0
    } else {
        distinct_paths(paths.drop_last()) + if paths.drop_last().contains(paths.last()) { 0nat } else { 1nat }
    }
}

proof fn lemma_without_path_len(entries: Seq<(Seq<char>, u64, u64, u64, Seq<char>)>, path: Seq<char>)
    ensures
        without_path(entries, path).len() + count_path(entries, path) == entries.len(),
    decreases entries.len(),
{
    if entries.len() > 0 {
        lemma_without_path_len(entries.drop_last(), path);
    }
}

/// Law: marking files processed, one after another, from no entries
/// leaves exactly one entry for each distinct path marked and none for any
/// other path, so the processed count is the number of distinct paths.
pub proof fn lemma_processed_count(marks: Seq<(Seq<char>, u64, u64, u64, Seq<char>)>)
    ensures
        marked_all(Seq::empty(), marks).len() == distinct_paths(marks.map_values(|m: (Seq<char>, u64, u64, u64, Seq<char>)| m.0)),
        forall|q: Seq<char>| #[trigger] count_path(marked_all(Seq::empty(), marks), q)
            == if marks.map_values(|m: (Seq<char>, u64, u64, u64, Seq<char>)| m.0).contains(q) { 1nat } else { 0nat },
    decreases marks.len(),
{
    let paths = marks.map_values(|m: (Seq<char>, u64, u64, u64, Seq<char>)| m.0);
    if marks.len() == 0 {
        assert forall|q: Seq<char>| #[trigger] count_path(marked_all(Seq::empty(), marks), q)
            == if paths.contains(q) { 1nat } else { 0nat } by {}
    } else {
        let prev = marks.drop_last();
        let m = marks.last();
        let pp = prev.map_values(|m: (Seq<char>, u64, u64, u64, Seq<char>)| m.0);
        lemma_processed_count(prev);
        assert(paths.drop_last() =~= pp);
        assert(paths.last() == m.0);
        let before = marked_all(Seq::empty(), prev);
        lemma_without_path_len(before, m.0);
        lemma_mark_then_processed(before, m.0, m.1, m.2, m.3, m.4);
        assert(m == (m.0, m.1, m.2, m.3, m.4));
        assert forall|q: Seq<char>| #[trigger] count_path(marked_all(Seq::empty(), marks), q)
            == if paths.contains(q) { 1nat } else { 0nat } by {
            if q != m.0 {
                if pp.contains(q) {
                    let i = choose|i: int| 0 <= i < pp.len() && pp[i] == q;
                    assert(paths[i] == q);
                }
                if paths.contains(q) {
                    let i = choose|i: int| 0 <= i < paths.len() && paths[i] == q;
                    assert(i < paths.len() - 1);
                    assert(pp[i] == q);
                }
            } else {
                assert(paths[paths.len() - 1] == q);
            }
        }
    }
}

} // verus!
