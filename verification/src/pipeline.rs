//! The decisions of the `run` command: which path it takes, what becomes
//! of each record, and how the files of a sequential run are walked.

use vstd::prelude::*;
use crate::features::ReplaceParametersConfig;

verus! {

/// The run goes file-parallel: a real CSV export of several files with
/// more than one job and no record limit.
pub fn use_parallel(dry_run: bool, jobs: usize, file_count: usize, limit: Option<usize>, has_csv: bool) -> (b: bool)
    ensures
        b == (!dry_run && jobs > 1 && file_count > 1 && limit is None && has_csv),
{
    !dry_run && jobs > 1 && file_count > 1 && limit.is_none() && has_csv
}

/// Parameters are substituted unless the section exists and disables it.
pub fn normalize_enabled(rp: &Option<ReplaceParametersConfig>) -> (b: bool)
    ensures
        b == match *rp {
            Some(r) => r.enable,
            None => true,
        },
{
    match rp {
        Some(r) => r.enable,
        None => true,
    }
}

/// The forced placeholder style of the section, if any.
pub fn placeholder_override_of(rp: &Option<ReplaceParametersConfig>) -> (o: Option<bool>)
    ensures
        match *rp {
            Some(r) => o == crate::features::spec_placeholder_override(crate::filters::strings_view(r.placeholders@)),
            None => o is None,
        },
{
    match rp {
        Some(r) => r.placeholder_override(),
        None => None,
    }
}

/// What becomes of one parsed record.
#[derive(Debug, Clone, Copy, PartialEq, Eq, Structural)]
pub enum RecordAction {
    /// The record is filtered out and nothing else is done with it.
    Drop,
    /// A filtered-out `PARAMS` record still feeds the parameter buffer.
    FeedParams,
    /// The file's share of the record limit is used up: stop reading.
    StopAtLimit,
    /// The record is exported; `normalize` says whether parameter
    /// substitution runs for it first.
    Export { normalize: bool },
}

/// The action for a record.  `passes` is the filters' verdict, `has_tag`
/// tells a statement from a `PARAMS` record, `buffer_empty` says whether
/// parameters are waiting, `remaining` is what is left of the record limit
/// for this file and `exported` how many records of the file went out.
pub open spec fn spec_record_action(
    passes: bool,
    has_tag: bool,
    do_normalize: bool,
    buffer_empty: bool,
    remaining: Option<usize>,
    exported: usize,
) -> RecordAction {
    if passes {
        if remaining matches Some(r) && exported >= r {
            RecordAction::StopAtLimit
        } else {
            RecordAction::Export { normalize: do_normalize && (!buffer_empty || !has_tag) }
        }
    } else if do_normalize && !has_tag {
        RecordAction::FeedParams
    } else {
        RecordAction::Drop
    }
}

/// The action for one record of a file; see [`spec_record_action`].
pub fn record_action(
    passes: bool,
    has_tag: bool,
    do_normalize: bool,
    buffer_empty: bool,
    remaining: Option<usize>,
    exported: usize,
) -> (a: RecordAction)
    ensures
        a == spec_record_action(passes, has_tag, do_normalize, buffer_empty, remaining, exported),
{
    if passes {
        match remaining {
            Some(r) => {
                if exported >= r {
                    return RecordAction::StopAtLimit;
                }
            },
            None => {},
        }
        RecordAction::Export { normalize: do_normalize && (!buffer_empty || !has_tag) }
    } else if do_normalize && !has_tag {
        RecordAction::FeedParams
    } else {
        RecordAction::Drop
    }
}

/// A `PARAMS` record always reaches the parameter buffer when parameters
/// are substituted, whether the filters keep it or not (unless the limit
/// stops the file first).
pub proof fn lemma_params_records_feed_buffer(passes: bool, buffer_empty: bool, remaining: Option<usize>, exported: usize)
    ensures
        ({
            let a = spec_record_action(passes, false, true, buffer_empty, remaining, exported);
            a == RecordAction::FeedParams || a == RecordAction::Export { normalize: true } || a == RecordAction::StopAtLimit
        }),
{
}

/// The interrupt flag is looked at after every 1024th exported record.
pub fn interrupt_check_due(exported: usize) -> (b: bool)
    ensures
        b == (exported % 1024 == 0),
{
    exported % 1024 == 0
}

/// The progress bar is advanced once 4096 records are pending.
pub fn progress_flush_due(pending: u64) -> (b: bool)
    ensures
        b == (pending >= 4096),
{
    pending >= 4096
}

/// What to do with the next file of a sequential run.
#[derive(Debug, Clone, Copy, PartialEq, Eq, Structural)]
pub enum FileDecision {
    /// Stop the run (interrupted, or the record limit is reached).
    Stop,
    /// The file was processed by an earlier run: skip it.
    Skip,
    /// Read the file, exporting at most `remaining` records (all when
    /// `None`).
    Process { remaining: Option<usize> },
}

/// The bookkeeping of a sequential run over its files.
#[derive(Debug, Clone, Copy, PartialEq, Eq, Structural)]
pub struct RunProgress {
    pub total_records: usize,
    pub skipped_files: usize,
    pub limit: Option<usize>,
}

/// What is left of the limit after `total` records.
pub open spec fn spec_remaining(limit: Option<usize>, total: usize) -> Option<usize> {
    match limit {
        Some(l) => Some(if total >= l { 0 } else { (l - total) as usize }),
        None => None,
    }
}

impl RunProgress {
    /// A run with nothing done yet.
    pub fn new(limit: Option<usize>) -> (p: Self)
        ensures
            p == (RunProgress { total_records: 0, skipped_files: 0, limit }),
    {
        RunProgress { total_records: 0, skipped_files: 0, limit }
    }

    /// The decision for the next file: stop when interrupted or when the
    /// limit is used up, skip a file that the resume state lists, and
    /// otherwise read it with what is left of the limit.
    pub fn next_file(&self, interrupted: bool, already_processed: bool) -> (d: FileDecision)
        ensures
            d == if interrupted || spec_remaining(self.limit, self.total_records) == Some(0usize) {
                FileDecision::Stop
            } else if already_processed {
                FileDecision::Skip
            } else {
                FileDecision::Process { remaining: spec_remaining(self.limit, self.total_records) }
            },
    {
        if interrupted {
            return FileDecision::Stop;
        }
        let remaining = match self.limit {
            Some(l) => Some(if self.total_records >= l { 0 } else { l - self.total_records }),
            None => None,
        };
        if remaining == Some(0usize) {
            return FileDecision::Stop;
        }
        if already_processed {
            FileDecision::Skip
        } else {
            FileDecision::Process { remaining }
        }
    }

    /// Counts a skipped file.
    pub fn file_skipped(&mut self)
        requires
            old(self).skipped_files < usize::MAX,
        ensures
            *final(self) == (RunProgress { skipped_files: (old(self).skipped_files + 1) as usize, ..*old(self) }),
    {
        self.skipped_files = self.skipped_files + 1;
    }

    /// Adds the records of a processed file; says whether the run goes on
    /// (it stops once the limit is reached).
    pub fn file_done(&mut self, exported: usize) -> (go_on: bool)
        requires
            old(self).total_records + exported <= usize::MAX,
        ensures
            final(self).total_records == old(self).total_records + exported,
            final(self).skipped_files == old(self).skipped_files,
            final(self).limit == old(self).limit,
            go_on == !(final(self).limit matches Some(l) && final(self).total_records >= l),
    {
        self.total_records = self.total_records + exported;
        match self.limit {
            Some(l) => self.total_records < l,
            None => true,
        }
    }
}

/// Once the limit is reached, every later file is a stop: a sequential run
/// never exports more than its limit across files.
pub proof fn lemma_limit_stops_run(p: RunProgress)
    requires
        p.limit matches Some(l) && p.total_records >= l,
    ensures
        spec_remaining(p.limit, p.total_records) == Some(0usize),
{
}

} // verus!
