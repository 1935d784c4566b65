//! What a merge does to the files it touches.
//!
//! The steps of [`crate::merge`] are carried out by the caller, on files that
//! the library never sees. This module states what the library relies on
//! there, as a model in which a document is the sequence of its pages, and
//! proves what follows for every run of the steps: the page stands in front
//! of a target that was merged, and a target whose merge failed before the
//! copy is as it was.

use vstd::prelude::*;
use crate::merge::{plan, page_number_of, transition, Event, Failure, Outcome, Step};

verus! {

/// The two files that the merge of one target writes to, each as the
/// sequence of its pages.
pub struct Files<P> {
    /// The target file.
    pub target: Seq<P>,
    /// The temporary output, where it exists.
    pub output: Option<Seq<P>>,
}

/// The document that the merge tool is asked for: the page `page_number` of
/// `reference`, counted from 1, followed by all pages of `target`.
pub open spec fn merged<P>(reference: Seq<P>, page_number: int, target: Seq<P>) -> Seq<P> {
    seq![reference[page_number - 1]] + target
}

/// Whether `event` truly reports that `step` was carried out on `before` and
/// left `after`.
///
/// - The merge tool leaves the target alone; where it reports success, an
///   output that exists is the merged document.
/// - The check for the output changes nothing and reports whether the output
///   exists.
/// - The copy leaves the output alone; where it succeeds, the output existed
///   and the target now holds its pages. Where it fails, the target may hold
///   anything.
/// - The deletion leaves the target alone.
/// - A finished merge has no step to carry out.
pub open spec fn carried_out<P>(
    step: Step,
    event: Event,
    before: Files<P>,
    after: Files<P>,
    reference: Seq<P>,
) -> bool {
    match (step, event) {
        (Step::Merge { page_number }, Event::MergeFinished { error }) => {
            &&& after.target == before.target
            &&& error is None && after.output is Some ==> after.output == Some(
                merged(reference, page_number as int, before.target),
            )
        },
        (Step::VerifyOutput, Event::OutputChecked { exists }) => {
            &&& after == before
            &&& exists == before.output is Some
        },
        (Step::Replace, Event::ReplaceFinished { error }) => {
            &&& after.output == before.output
            &&& error is None ==> before.output == Some(after.target)
        },
        (Step::Cleanup { .. }, Event::CleanupFinished) => after.target == before.target,
        _ => false,
    }
}

/// The step reached from `first` once `events` have been reported in order.
pub open spec fn run(first: Step, events: Seq<Event>) -> Step
    decreases events.len(),
{
    if events.len() == 0 {
        first
    } else {
        transition(run(first, events.drop_last()), events.last())
    }
}

/// Whether `history` is what the files went through in a run from `first` in
/// which each of `events` truly reports the step that was due:
/// `history[i]` holds the files before the step that `events[i]` reports, and
/// `history[i + 1]` the files after it.
pub open spec fn faithful<P>(
    first: Step,
    events: Seq<Event>,
    history: Seq<Files<P>>,
    reference: Seq<P>,
) -> bool {
    &&& history.len() == events.len() + 1
    &&& forall|i: int|
        0 <= i < events.len() ==> carried_out(
            run(first, events.take(i)),
            #[trigger] events[i],
            history[i],
            history[i + 1],
            reference,
        )
}

/// What holds of the files while `step` is due, in the merge of a target
/// that held `initial` at the start and is to get the page `page_number`.
pub open spec fn consistent<P>(
    step: Step,
    files: Files<P>,
    initial: Seq<P>,
    reference: Seq<P>,
    page_number: int,
) -> bool {
    let wanted = merged(reference, page_number, initial);
    match step {
        Step::Merge { page_number: asked } => asked == page_number && files.target == initial,
        Step::VerifyOutput => files.target == initial && (files.output is Some ==> files.output
            == Some(wanted)),
        Step::Replace => files.target == initial && files.output == Some(wanted),
        Step::Cleanup { copy_error: None } => files.target == wanted,
        Step::Cleanup { copy_error: Some(_) } => true,
        Step::Done(Outcome::Inserted) => files.target == wanted,
        Step::Done(Outcome::Failed(Failure::CopyFailed { .. })) => true,
        Step::Done(_) => files.target == initial,
    }
}

/// A step that is truly reported leads from consistent files to consistent
/// files.
pub proof fn lemma_step_keeps_consistent<P>(
    step: Step,
    event: Event,
    before: Files<P>,
    after: Files<P>,
    initial: Seq<P>,
    reference: Seq<P>,
    page_number: int,
)
    requires
        consistent(step, before, initial, reference, page_number),
        carried_out(step, event, before, after, reference),
    ensures
        consistent(transition(step, event), after, initial, reference, page_number),
{
}

/// Every run keeps the files consistent with the step that is due.
pub proof fn lemma_run_keeps_consistent<P>(
    first: Step,
    events: Seq<Event>,
    history: Seq<Files<P>>,
    reference: Seq<P>,
    page_number: int,
)
    requires
        faithful(first, events, history, reference),
        consistent(first, history[0], history[0].target, reference, page_number),
    ensures
        consistent(run(first, events), history.last(), history[0].target, reference, page_number),
    decreases events.len(),
{
    if events.len() > 0 {
        let n = events.len() - 1;
        let earlier = events.drop_last();
        let shorter = history.drop_last();
        assert(faithful(first, earlier, shorter, reference)) by {
            assert forall|i: int| 0 <= i < earlier.len() implies carried_out(
                run(first, earlier.take(i)),
                #[trigger] earlier[i],
                shorter[i],
                shorter[i + 1],
                reference,
            ) by {
                assert(earlier.take(i) == events.take(i));
                assert(earlier[i] == events[i]);
            }
        }
        lemma_run_keeps_consistent(first, earlier, shorter, reference, page_number);
        assert(events.take(n) == earlier);
        assert(carried_out(run(first, earlier), events[n], history[n], history[n + 1], reference));
        lemma_step_keeps_consistent(
            run(first, earlier),
            events.last(),
            shorter.last(),
            history.last(),
            history[0].target,
            reference,
            page_number,
        );
    }
}

/// A target whose merge ended in [`Outcome::Inserted`] has one page more
/// than before: the page of the reference document that the table gave it
/// comes first, and all pages it had follow in their order. A target that
/// was skipped, or whose merge failed before the copy, is as it was.
pub proof fn lemma_merge_end_to_end<P>(
    resolved: Option<u32>,
    page_count: usize,
    events: Seq<Event>,
    history: Seq<Files<P>>,
    reference: Seq<P>,
)
    requires
        reference.len() == page_count,
        faithful(plan(resolved, page_count), events, history, reference),
    ensures
        run(plan(resolved, page_count), events) == Step::Done(Outcome::Inserted) ==> {
            &&& resolved is Some
            &&& 1 <= page_number_of(resolved->0) <= reference.len()
            &&& history.last().target.len() == history[0].target.len() + 1
            &&& history.last().target[0] == reference[page_number_of(resolved->0) - 1]
            &&& history.last().target.skip(1) == history[0].target
        },
        run(plan(resolved, page_count), events) matches Step::Done(outcome) && !(outcome
            is Inserted) && !(outcome matches Outcome::Failed(Failure::CopyFailed { .. }))
            ==> history.last().target == history[0].target,
{
    let first = plan(resolved, page_count);
    let page_number = match resolved {
        Some(page_index) => page_number_of(page_index) as int,
        None => 0,
    };
    lemma_run_keeps_consistent(first, events, history, reference, page_number);
    match first {
        Step::Done(outcome) => {
            lemma_done_stays(outcome, events);
        },
        _ => {
            let initial = history[0].target;
            assert(merged(reference, page_number, initial).skip(1) == initial);
        },
    }
}

/// Once a merge is done, no event changes that.
pub proof fn lemma_done_stays(outcome: Outcome, events: Seq<Event>)
    ensures
        run(Step::Done(outcome), events) == Step::Done(outcome),
    decreases events.len(),
{
    if events.len() > 0 {
        lemma_done_stays(outcome, events.drop_last());
    }
}

/// A page that the reference document does not have is never merged: the
/// merge fails at once, no step is carried out, and the target is as it was.
pub proof fn lemma_page_out_of_range_spares_target<P>(
    page_index: u32,
    page_count: usize,
    events: Seq<Event>,
    history: Seq<Files<P>>,
    reference: Seq<P>,
)
    requires
        page_number_of(page_index) > page_count,
        faithful(plan(Some(page_index), page_count), events, history, reference),
    ensures
        plan(Some(page_index), page_count) == Step::Done(
            Outcome::Failed(
                Failure::PageOutOfRange { page_number: page_number_of(page_index), page_count },
            ),
        ),
        events.len() == 0,
        history.last() == history[0],
{
    let first = plan(Some(page_index), page_count);
    if events.len() > 0 {
        assert(events.take(0) == Seq::<Event>::empty());
        assert(run(first, events.take(0)) == first);
        assert(carried_out(first, events[0], history[0], history[1], reference));
    }
}

/// Merging is not idempotent: a target that is merged a second time gets the
/// page a second time. After two runs that both ended in
/// [`Outcome::Inserted`], the second on the target as the first left it, the
/// target holds the page twice and then all pages it had at the start.
pub proof fn lemma_second_merge_inserts_again<P>(
    resolved: Option<u32>,
    page_count: usize,
    first_events: Seq<Event>,
    first_history: Seq<Files<P>>,
    second_events: Seq<Event>,
    second_history: Seq<Files<P>>,
    reference: Seq<P>,
)
    requires
        reference.len() == page_count,
        faithful(plan(resolved, page_count), first_events, first_history, reference),
        faithful(plan(resolved, page_count), second_events, second_history, reference),
        run(plan(resolved, page_count), first_events) == Step::Done(Outcome::Inserted),
        run(plan(resolved, page_count), second_events) == Step::Done(Outcome::Inserted),
        second_history[0].target == first_history.last().target,
    ensures
        resolved is Some,
        second_history.last().target == seq![
            reference[page_number_of(resolved->0) - 1],
            reference[page_number_of(resolved->0) - 1],
        ] + first_history[0].target,
        second_history.last().target.len() == first_history[0].target.len() + 2,
{
    lemma_merge_end_to_end(resolved, page_count, first_events, first_history, reference);
    lemma_merge_end_to_end(resolved, page_count, second_events, second_history, reference);
    let page = reference[page_number_of(resolved->0) - 1];
    let once = first_history.last().target;
    let twice = second_history.last().target;
    assert(once == seq![page] + once.skip(1));
    assert(twice == seq![page] + twice.skip(1));
    assert(twice == seq![page, page] + first_history[0].target);
}

} // verus!
