//! The state of the terminal progress view: which file is being read, how
//! many records went out, and the shared counters that the export thread
//! updates.

use vstd::prelude::*;
use crate::progress::ProgressTracker;
use std::time::Instant;

verus! {

/// `std::time::Instant`, held as the start of a run.
#[verifier::external_type_specification]
#[verifier::external_body]
pub struct ExInstant(Instant);

/// The current time (`Instant::now`).  Nothing is stated of it.
#[verifier::external_body]
fn now() -> (t: Instant) {
    Instant::now()
}

/// Milliseconds since `t` (`Instant::elapsed`, then `Duration::as_millis`).
/// Nothing is stated of the result: it depends on the clock.
#[verifier::external_body]
fn elapsed_millis(t: &Instant) -> (ms: u128) {
    t.elapsed().as_millis()
}

/// The state of the progress view.
#[derive(Debug, Clone)]
pub struct TuiApp {
    pub current_file_index: usize,
    pub total_files: usize,
    pub current_file_name: String,
    pub exported_records: usize,
    pub error_records: usize,
    /// When the run started, once it has.
    pub start_time: Option<Instant>,
    pub is_finished: bool,
    pub exporter_name: String,
    /// The counters shared with the export thread, when the view has them.
    pub progress_tracker: Option<ProgressTracker>,
}

/// Percentage of files done, `current * 100 / total` capped at 100 (the
/// product saturating), 0 when there are no files.
pub open spec fn spec_progress_percent(current: usize, total: usize) -> u16 {
    if total == 0 {
        0
    } else {
        let scaled = if current * 100 > usize::MAX { usize::MAX as int } else { current * 100 };
        let p = scaled / (total as int);
        if p > 100 { 100 } else { p as u16 }
    }
}

/// Records per second: `records * 1000 / elapsed_ms`, capped at
/// `u64::MAX`; 0 before any time has passed or any record went out.
pub open spec fn spec_throughput(records: usize, elapsed_ms: u128) -> u64 {
    if elapsed_ms > 0 && records > 0 {
        let r = (records * 1000) / (elapsed_ms as int);
        if r > u64::MAX { u64::MAX } else { r as u64 }
    } else {
        0
    }
}

/// Records per second after `elapsed_ms` milliseconds.
pub fn throughput_after(records: usize, elapsed_ms: u128) -> (r: u64)
    ensures
        r == spec_throughput(records, elapsed_ms),
{
    if elapsed_ms > 0 && records > 0 {
        let per_sec: u128 = (records as u128 * 1000) / elapsed_ms;
        if per_sec > u64::MAX as u128 {
            u64::MAX
        } else {
            per_sec as u64
        }
    } else {
        0
    }
}

impl TuiApp {
    /// The view of a run over `total_files` files, nothing done yet.
    pub fn new(total_files: usize, exporter_name: String) -> (a: Self)
        ensures
            a.current_file_index == 0,
            a.total_files == total_files,
            a.current_file_name@.len() == 0,
            a.exported_records == 0,
            a.error_records == 0,
            a.start_time is None,
            !a.is_finished,
            a.exporter_name == exporter_name,
            a.progress_tracker is None,
    {
        TuiApp {
            current_file_index: 0,
            total_files,
            current_file_name: String::new(),
            exported_records: 0,
            error_records: 0,
            start_time: None,
            is_finished: false,
            exporter_name,
            progress_tracker: None,
        }
    }

    /// The same view, sharing `tracker`.
    pub fn with_progress_tracker(self, tracker: ProgressTracker) -> (a: Self)
        ensures
            a.progress_tracker is Some,
            a.current_file_index == self.current_file_index,
            a.total_files == self.total_files,
            a.current_file_name == self.current_file_name,
            a.exported_records == self.exported_records,
            a.error_records == self.error_records,
            a.start_time == self.start_time,
            a.is_finished == self.is_finished,
            a.exporter_name == self.exporter_name,
    {
        let mut a = self;
        a.progress_tracker = Some(tracker);
        a
    }

    /// Marks the start of the run (now).
    pub fn start(&mut self)
        ensures
            final(self).start_time is Some,
            final(self).current_file_index == old(self).current_file_index,
            final(self).total_files == old(self).total_files,
            final(self).exported_records == old(self).exported_records,
            final(self).error_records == old(self).error_records,
            final(self).is_finished == old(self).is_finished,
    {
        self.start_time = Some(now());
    }

    /// The file being read.
    pub fn set_file(&mut self, index: usize, name: String)
        ensures
            final(self).current_file_index == index,
            final(self).current_file_name == name,
            final(self).total_files == old(self).total_files,
            final(self).exported_records == old(self).exported_records,
            final(self).error_records == old(self).error_records,
            final(self).start_time == old(self).start_time,
            final(self).is_finished == old(self).is_finished,
    {
        self.current_file_index = index;
        self.current_file_name = name;
    }

    /// Adds exported records.
    pub fn add_records(&mut self, count: usize)
        requires
            old(self).exported_records + count <= usize::MAX,
        ensures
            final(self).exported_records == old(self).exported_records + count,
            final(self).error_records == old(self).error_records,
            final(self).current_file_index == old(self).current_file_index,
            final(self).total_files == old(self).total_files,
            final(self).start_time == old(self).start_time,
            final(self).is_finished == old(self).is_finished,
    {
        self.exported_records = self.exported_records + count;
    }

    /// Adds failed records.
    pub fn add_errors(&mut self, count: usize)
        requires
            old(self).error_records + count <= usize::MAX,
        ensures
            final(self).error_records == old(self).error_records + count,
            final(self).exported_records == old(self).exported_records,
            final(self).current_file_index == old(self).current_file_index,
            final(self).total_files == old(self).total_files,
            final(self).start_time == old(self).start_time,
            final(self).is_finished == old(self).is_finished,
    {
        self.error_records = self.error_records + count;
    }

    /// Marks the run finished.
    pub fn finish(&mut self)
        ensures
            final(self).is_finished,
            final(self).exported_records == old(self).exported_records,
            final(self).error_records == old(self).error_records,
            final(self).current_file_index == old(self).current_file_index,
            final(self).total_files == old(self).total_files,
            final(self).start_time == old(self).start_time,
    {
        self.is_finished = true;
    }

    /// Percentage of files done, at most 100.
    pub fn progress_percent(&self) -> (p: u16)
        ensures
            p == spec_progress_percent(self.current_file_index, self.total_files),
            p <= 100,
    {
        if self.total_files == 0 {
            return 0;
        }
        let product: usize = match self.current_file_index.checked_mul(100) {
            Some(v) => v,
            None => usize::MAX,
        };
        let scaled: usize = product / self.total_files;
        if scaled > 100 {
            100
        } else {
            scaled as u16
        }
    }

    /// Records per second since the start; 0 before the start.
    pub fn throughput(&self) -> (r: u64)
        ensures
            self.start_time is None ==> r == 0,
            self.start_time is Some ==> exists|ms: u128| r == spec_throughput(self.exported_records, ms),
    {
        match &self.start_time {
            None => throughput_after(self.exported_records, 0),
            Some(t) => {
                let ms = elapsed_millis(t);
                throughput_after(self.exported_records, ms)
            },
        }
    }
}

} // verus!
