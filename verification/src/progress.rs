//! Counters shared between the export thread and the progress view.

use vstd::prelude::*;
use std::sync::Arc;
use std::sync::atomic::AtomicU64;

verus! {

/// Counters shared between the export thread and the view.  The values
/// that the getters return are whatever the other threads last stored:
/// nothing is stated of them.
#[derive(Debug, Clone)]
pub struct ProgressTracker {
    current_file_index: Arc<AtomicU64>,
    total_records: Arc<AtomicU64>,
    total_errors: Arc<AtomicU64>,
}

impl ProgressTracker {
    /// Three fresh counters at zero.
    pub fn new() -> (t: Self) {
        ProgressTracker {
            current_file_index: Arc::new(AtomicU64::new(0)),
            total_records: Arc::new(AtomicU64::new(0)),
            total_errors: Arc::new(AtomicU64::new(0)),
        }
    }

    /// Sets the index of the file being read.
    pub fn set_file_index(&self, index: u64) {
        self.current_file_index.store(index, std::sync::atomic::Ordering::Relaxed);
    }

    /// Adds exported records (wrapping on overflow).
    pub fn add_records(&self, count: u64) {
        self.total_records.fetch_add(count, std::sync::atomic::Ordering::Relaxed);
    }

    /// Adds failed records (wrapping on overflow).
    pub fn add_errors(&self, count: u64) {
        self.total_errors.fetch_add(count, std::sync::atomic::Ordering::Relaxed);
    }

    /// The index of the file being read.
    pub fn get_file_index(&self) -> (v: u64) {
        self.current_file_index.load(std::sync::atomic::Ordering::Relaxed)
    }

    /// Records exported so far.
    pub fn get_total_records(&self) -> (v: u64) {
        self.total_records.load(std::sync::atomic::Ordering::Relaxed)
    }

    /// Records failed so far.
    pub fn get_total_errors(&self) -> (v: u64) {
        self.total_errors.load(std::sync::atomic::Ordering::Relaxed)
    }
}

impl Default for ProgressTracker {
    fn default() -> (t: Self) {
        ProgressTracker::new()
    }
}

} // verus!
