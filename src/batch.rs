//! Batch records of the job queue: status, priority and progress counts.

use vstd::prelude::*;

verus! {

#[derive(Debug, Clone, Copy, PartialEq, Eq, Structural)]
pub enum BatchStatus {
    Queued,
    Processing,
    Completed,
    PartiallyCompleted,
    Failed,
    Cancelled,
}

pub open spec fn batch_status_text(s: BatchStatus) -> Seq<char> {
    match s {
        BatchStatus::Queued => "queued"@,
        BatchStatus::Processing => "processing"@,
        BatchStatus::Completed => "completed"@,
        BatchStatus::PartiallyCompleted => "partially_completed"@,
        BatchStatus::Failed => "failed"@,
        BatchStatus::Cancelled => "cancelled"@,
    }
}

impl BatchStatus {
    /// The status in snake case.
    pub fn as_str(&self) -> (r: &'static str)
        ensures
            r@ == batch_status_text(*self),
    {
        match self {
            BatchStatus::Queued => "queued",
            BatchStatus::Processing => "processing",
            BatchStatus::Completed => "completed",
            BatchStatus::PartiallyCompleted => "partially_completed",
            BatchStatus::Failed => "failed",
            BatchStatus::Cancelled => "cancelled",
        }
    }

    pub fn to_string(&self) -> (r: String)
        ensures
            r@ == batch_status_text(*self),
    {
        String::from_str(self.as_str())
    }
}

#[derive(Debug, Clone, Copy, PartialEq, Eq, Structural)]
pub enum Priority {
    Low,
    Normal,
    High,
}

impl Priority {
    /// 0 for low, 1 for normal, 2 for high.
    pub fn value(&self) -> (r: u8)
        ensures
            r == match self {
                Priority::Low => 0u8,
                Priority::Normal => 1u8,
                Priority::High => 2u8,
            },
    {
        match self {
            Priority::Low => 0,
            Priority::Normal => 1,
            Priority::High => 2,
        }
    }
}

impl Default for Priority {
    fn default() -> (r: Priority)
        ensures
            r == Priority::Normal,
    {
        Priority::Normal
    }
}

/// Counts of the jobs of a batch by state.
#[derive(Debug, Clone, Copy, PartialEq, Eq)]
pub struct BatchProgress {
    pub completed: usize,
    pub processing: usize,
    pub pending: usize,
    pub failed: usize,
    pub total: usize,
}

impl BatchProgress {
    /// A batch of `total` jobs, all pending.
    pub fn new(total: usize) -> (r: BatchProgress)
        ensures
            r == (BatchProgress { completed: 0, processing: 0, pending: total, failed: 0, total }),
    {
        BatchProgress { completed: 0, processing: 0, pending: total, failed: 0, total }
    }

    /// Whole percent of jobs completed, rounded down; 100 for an empty batch.
    pub fn percent(&self) -> (r: u8)
        requires
            self.completed <= self.total,
        ensures
            self.total == 0 ==> r == 100,
            self.total > 0 ==> r == self.completed as int * 100 / self.total as int,
    {
        if self.total == 0 {
            100
        } else {
            let p = (self.completed as u128) * 100 / (self.total as u128);
            assert(p <= 100) by (nonlinear_arith)
                requires p == self.completed as int * 100 / self.total as int, self.completed <= self.total, self.total > 0;
            p as u8
        }
    }

    /// Every job has completed or failed.
    pub fn is_complete(&self) -> (r: bool)
        ensures
            r == (self.completed + self.failed == self.total),
    {
        (self.completed as u128) + (self.failed as u128) == self.total as u128
    }
}

} // verus!
