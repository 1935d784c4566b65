//! The merge of one target file, as a state machine.
//!
//! The library decides; its caller acts. [`first_step`] says what to do first
//! for a target, the caller does it and reports what happened as an
//! [`Event`], and [`next_step`] says what to do next, until the step is
//! [`Step::Done`]. Each target is merged on its own: whatever happens to one
//! has no bearing on the next.
//!
//! The order of the steps is fixed: merge into a temporary output, check that
//! the output is there, copy it over the target, delete it. The target is
//! written to in the copy alone, and the temporary output is deleted whatever
//! became of the copy.

use vstd::prelude::*;
use crate::matcher::{match_pdf_name, resolve};
use crate::table::MappingTable;

verus! {

/// Why the merge of a target failed.
#[derive(Debug, PartialEq, Eq)]
pub enum Failure {
    /// The target's path ends in no file name that is text, so the matcher
    /// was never asked; the caller finds this before the first step.
    InvalidName,
    /// The page that the table gives the target is not in the reference
    /// document.
    PageOutOfRange {
        /// The 1-based number of the page asked for.
        page_number: u64,
        /// The number of pages of the reference document.
        page_count: usize,
    },
    /// The merge tool reported a failure.
    MergeFailed {
        /// What the tool said.
        diagnostic: String,
    },
    /// The merge tool reported success and left no output.
    OutputMissing,
    /// The output could not be copied over the target.
    CopyFailed {
        /// What went wrong.
        diagnostic: String,
    },
}

/// How the merge of a target ended.
#[derive(Debug, PartialEq, Eq)]
pub enum Outcome {
    /// The page stands in front of the target.
    Inserted,
    /// The table has no page for the target; nothing was done.
    Skipped,
    /// The merge failed.
    Failed(Failure),
}

/// What to do next for a target.
#[derive(Debug, PartialEq, Eq)]
pub enum Step {
    /// Write to the temporary output the page `page_number` of the reference
    /// document, followed by all pages of the target.
    Merge {
        /// The 1-based number of the page of the reference document.
        page_number: u64,
    },
    /// Check that the temporary output exists.
    VerifyOutput,
    /// Copy the temporary output over the target.
    Replace,
    /// Delete the temporary output; a failure to do so is of no account.
    Cleanup {
        /// What went wrong in the copy, if anything did.
        copy_error: Option<String>,
    },
    /// Nothing is left to do.
    Done(Outcome),
}

/// What came of a step.
#[derive(Debug, PartialEq, Eq)]
pub enum Event {
    /// The merge tool ran.
    MergeFinished {
        /// The tool's diagnostic where it reported a failure; `None` where it
        /// reported success, with or without warnings.
        error: Option<String>,
    },
    /// The temporary output was looked for.
    OutputChecked {
        /// Whether it was there.
        exists: bool,
    },
    /// The copy over the target was attempted.
    ReplaceFinished {
        /// What went wrong, if anything did.
        error: Option<String>,
    },
    /// The deletion of the temporary output was attempted.
    CleanupFinished,
}

/// The 1-based page number of a 0-based page index.
pub open spec fn page_number_of(page_index: u32) -> u64 {
    (page_index + 1) as u64
}

/// The first step for a target, given the page index that the matcher found
/// for it and the number of pages of the reference document.
pub open spec fn plan(resolved: Option<u32>, page_count: usize) -> Step {
    match resolved {
        None => Step::Done(Outcome::Skipped),
        Some(page_index) => if page_number_of(page_index) <= page_count {
            Step::Merge { page_number: page_number_of(page_index) }
        } else {
            Step::Done(
                Outcome::Failed(
                    Failure::PageOutOfRange { page_number: page_number_of(page_index), page_count },
                ),
            )
        },
    }
}

/// The step that follows `step` once `event` is reported. An event that is
/// no answer to the step leaves the step as it is.
pub open spec fn transition(step: Step, event: Event) -> Step {
    match (step, event) {
        (Step::Merge { .. }, Event::MergeFinished { error: None }) => Step::VerifyOutput,
        (Step::Merge { .. }, Event::MergeFinished { error: Some(diagnostic) }) => Step::Done(
            Outcome::Failed(Failure::MergeFailed { diagnostic }),
        ),
        (Step::VerifyOutput, Event::OutputChecked { exists }) => if exists {
            Step::Replace
        } else {
            Step::Done(Outcome::Failed(Failure::OutputMissing))
        },
        (Step::Replace, Event::ReplaceFinished { error }) => Step::Cleanup { copy_error: error },
        (Step::Cleanup { copy_error: None }, Event::CleanupFinished) => Step::Done(
            Outcome::Inserted,
        ),
        (Step::Cleanup { copy_error: Some(diagnostic) }, Event::CleanupFinished) => Step::Done(
            Outcome::Failed(Failure::CopyFailed { diagnostic }),
        ),
        (step, _) => step,
    }
}

/// The first step for a target whose matcher result is `resolved`: nothing
/// to do without a page, a failure for a page that the reference document
/// does not have, and the merge otherwise.
pub fn plan_merge(resolved: Option<u32>, page_count: usize) -> (step: Step)
    ensures
        step == plan(resolved, page_count),
{
    match resolved {
        None => Step::Done(Outcome::Skipped),
        Some(page_index) => {
            let page_number: u64 = page_index as u64 + 1;
            if page_number <= page_count as u64 {
                Step::Merge { page_number }
            } else {
                Step::Done(Outcome::Failed(Failure::PageOutOfRange { page_number, page_count }))
            }
        },
    }
}

/// The first step for the target file named `filename`, given the mapping
/// table and the number of pages of the reference document.
pub fn first_step(filename: &str, mappings: &MappingTable, page_count: usize) -> (step: Step)
    ensures
        step == plan(resolve(filename@, mappings@, mappings.keys()), page_count),
{
    plan_merge(match_pdf_name(filename, mappings), page_count)
}

/// The step that follows `step` once `event` is reported.
pub fn next_step(step: Step, event: Event) -> (next: Step)
    ensures
        next == transition(step, event),
{
    match (step, event) {
        (Step::Merge { .. }, Event::MergeFinished { error: None }) => Step::VerifyOutput,
        (Step::Merge { .. }, Event::MergeFinished { error: Some(diagnostic) }) => Step::Done(
            Outcome::Failed(Failure::MergeFailed { diagnostic }),
        ),
        (Step::VerifyOutput, Event::OutputChecked { exists }) => if exists {
            Step::Replace
        } else {
            Step::Done(Outcome::Failed(Failure::OutputMissing))
        },
        (Step::Replace, Event::ReplaceFinished { error }) => Step::Cleanup { copy_error: error },
        (Step::Cleanup { copy_error: None }, Event::CleanupFinished) => Step::Done(
            Outcome::Inserted,
        ),
        (Step::Cleanup { copy_error: Some(diagnostic) }, Event::CleanupFinished) => Step::Done(
            Outcome::Failed(Failure::CopyFailed { diagnostic }),
        ),
        (step, _) => step,
    }
}

/// How many targets ended in which way.
#[derive(Debug, PartialEq, Eq)]
pub struct Summary {
    /// The number of targets that got their page.
    pub inserted: u64,
    /// The number of targets without a page in the table.
    pub skipped: u64,
    /// The number of targets whose merge failed.
    pub failed: u64,
}

impl Summary {
    /// The number of targets counted.
    pub open spec fn total(&self) -> int {
        self.inserted + self.skipped + self.failed
    }

    /// The summary of a run in which no target has ended yet.
    pub fn new() -> (summary: Summary)
        ensures
            summary == (Summary { inserted: 0, skipped: 0, failed: 0 }),
    {
        Summary { inserted: 0, skipped: 0, failed: 0 }
    }

    /// Counts a target that ended in `outcome`. A failure counts like any
    /// other end: the run goes on with the next target.
    pub fn record(&mut self, outcome: &Outcome)
        requires
            old(self).total() < u64::MAX,
        ensures
            *final(self) == match *outcome {
                Outcome::Inserted => Summary {
                    inserted: (old(self).inserted + 1) as u64,
                    ..*old(self)
                },
                Outcome::Skipped => Summary {
                    skipped: (old(self).skipped + 1) as u64,
                    ..*old(self)
                },
                Outcome::Failed(_) => Summary {
                    failed: (old(self).failed + 1) as u64,
                    ..*old(self)
                },
            },
            final(self).total() == old(self).total() + 1,
    {
        match outcome {
            Outcome::Inserted => {
                self.inserted = self.inserted + 1;
            },
            Outcome::Skipped => {
                self.skipped = self.skipped + 1;
            },
            Outcome::Failed(_) => {
                self.failed = self.failed + 1;
            },
        }
    }
}

} // verus!
