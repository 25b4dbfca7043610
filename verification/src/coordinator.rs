//! Waiting for all probe tasks of a run.
//!
//! The coordinator hands out one task per target and then only counts: the
//! run is over when every task has reported that its target is ready. Tasks
//! may report in any order, and nothing ends the run early.

use vstd::prelude::*;
use crate::prober::{found_ready, state_after, ProbeTask};
use crate::target::{views, ProbeSet, TargetView};

verus! {

/// How far a run has come.
#[derive(Clone, Copy, Debug, PartialEq, Eq, Structural)]
pub enum RunStatus {
    /// This many tasks have yet to report.
    Waiting { remaining: usize },
    /// Every task has reported: the run is over.
    Complete,
}

/// A report that the coordinator does not count.
#[derive(Clone, Copy, Debug, PartialEq, Eq, Structural)]
pub enum ReportError {
    /// No task has this number.
    UnknownTask,
    /// The task has reported before.
    AlreadyReported,
}

/// The number of tasks that have reported, `flags` telling it of each.
pub open spec fn completions(flags: Seq<bool>) -> nat {
    flags.filter(|reported: bool| reported).len()
}

/// Every task has reported.
pub open spec fn all_reported(flags: Seq<bool>) -> bool {
    forall|task: int| 0 <= task < flags.len() ==> flags[task]
}

/// The status that goes with `flags`: complete exactly when the reports
/// counted are as many as the tasks.
pub open spec fn status_of(flags: Seq<bool>) -> RunStatus {
    if completions(flags) == flags.len() {
        RunStatus::Complete
    } else {
        RunStatus::Waiting { remaining: (flags.len() - completions(flags)) as usize }
    }
}

/// The flags of a run of `total` tasks of which none has reported.
pub open spec fn none_reported(total: nat) -> Seq<bool> {
    Seq::new(total, |task: int| false)
}

/// The flags once the task with the number `task` has reported. A report
/// that bears no task's number changes nothing, nor does a second report of
/// the same task.
pub open spec fn report(flags: Seq<bool>, task: int) -> Seq<bool> {
    if 0 <= task < flags.len() {
        flags.update(task, true)
    } else {
        flags
    }
}

/// What the coordinator answers to the report of the task with the number
/// `task`: the status that the report leads to, unless there is no such
/// task or it has reported before.
pub open spec fn answer_to(flags: Seq<bool>, task: int) -> Result<RunStatus, ReportError> {
    if !(0 <= task < flags.len()) {
        Err(ReportError::UnknownTask)
    } else if flags[task] {
        Err(ReportError::AlreadyReported)
    } else {
        Ok(status_of(report(flags, task)))
    }
}

/// The flags of a run of `total` tasks once `reports` have come in, in this
/// order, each report the number of the task that made it.
pub open spec fn after_reports(total: nat, reports: Seq<int>) -> Seq<bool>
    decreases reports.len(),
{
    if reports.len() == 0 {
        none_reported(total)
    } else {
        report(after_reports(total, reports.drop_last()), reports.last())
    }
}

/// The targets that `tasks` probe, one for one.
pub open spec fn task_targets(tasks: Seq<ProbeTask>) -> Seq<TargetView> {
    tasks.map_values(|task: ProbeTask| task.target())
}

proof fn lemma_completions_step(flags: Seq<bool>)
    requires
        flags.len() > 0,
    ensures
        completions(flags) == completions(flags.drop_last()) + if flags.last() {
            1nat
        } else {
            0nat
        },
{
    reveal(Seq::filter);
}

/// No more reports are counted than there are tasks, and as many exactly
/// when every task has reported.
pub proof fn lemma_complete_iff_all_reported(flags: Seq<bool>)
    ensures
        completions(flags) <= flags.len(),
        status_of(flags) is Complete <==> all_reported(flags),
    decreases flags.len(),
{
    if flags.len() == 0 {
        reveal(Seq::filter);
    } else {
        let earlier = flags.drop_last();
        lemma_completions_step(flags);
        lemma_complete_iff_all_reported(earlier);
        if all_reported(flags) {
            assert forall|task: int| 0 <= task < earlier.len() implies earlier[task] by {
                assert(flags[task]);
            }
        }
        if completions(flags) == flags.len() {
            assert forall|task: int| 0 <= task < flags.len() implies flags[task] by {
                if task < earlier.len() {
                    assert(earlier[task]);
                }
            }
        }
    }
}

proof fn lemma_completions_after_report(flags: Seq<bool>, task: int)
    requires
        0 <= task < flags.len(),
        !flags[task],
    ensures
        completions(flags.update(task, true)) == completions(flags) + 1,
    decreases flags.len(),
{
    let earlier = flags.drop_last();
    let marked = flags.update(task, true);
    lemma_completions_step(flags);
    lemma_completions_step(marked);
    if task == flags.len() - 1 {
        assert(marked.drop_last() =~= earlier);
    } else {
        lemma_completions_after_report(earlier, task);
        assert(marked.drop_last() =~= earlier.update(task, true));
    }
}

/// The bookkeeping of one run: which of its tasks have reported.
pub struct Coordinator {
    reported: Vec<bool>,
    count: usize,
}

impl View for Coordinator {
    type V = Seq<bool>;

    /// For each task, by its number, whether it has reported.
    closed spec fn view(&self) -> Seq<bool> {
        self.reported@
    }
}

impl Coordinator {
    #[verifier::type_invariant]
    spec fn counted(&self) -> bool {
        self.count == completions(self.reported@)
    }

    /// The coordinator of a run without tasks.
    fn idle() -> (idle: Coordinator)
        ensures
            idle@ == Seq::<bool>::empty(),
    {
        proof {
            reveal(Seq::filter);
        }
        Coordinator { reported: Vec::new(), count: 0 }
    }

    /// Starts a run: one task for each target of `set`, numbered as the
    /// targets are, none of which has made an attempt or reported yet. The
    /// caller runs each task to its end and reports it by its number.
    pub fn launch(set: ProbeSet) -> (started: (Coordinator, Vec<ProbeTask>))
        ensures
            started.0@ == none_reported(set@.len()),
            task_targets(started.1@) == set@,
            forall|task: int|
                0 <= task < started.1@.len() ==> (#[trigger] started.1@[task]).attempts().len()
                    == 0,
    {
        let targets = set.into_targets();
        let total: usize = targets.len();
        let mut tasks: Vec<ProbeTask> = Vec::new();
        let mut reported: Vec<bool> = Vec::new();
        proof {
            reveal(Seq::filter);
        }
        for target in it: targets
            invariant
                it.seq() == targets@,
                targets@.len() == total,
                tasks@.len() == it.index(),
                reported@ == none_reported(it.index() as nat),
                completions(reported@) == 0,
                task_targets(tasks@) == views(targets@).take(it.index()),
                forall|task: int|
                    0 <= task < tasks@.len() ==> (#[trigger] tasks@[task]).attempts().len() == 0,
        {
            let ghost tasks_before = tasks@;
            let ghost reported_before = reported@;
            let task = ProbeTask::new(target);
            tasks.push(task);
            reported.push(false);
            proof {
                lemma_completions_step(reported@);
                assert(reported@.drop_last() =~= reported_before);
                assert(task_targets(tasks@) =~= task_targets(tasks_before).push(target@));
                assert(views(targets@).take(it.index() + 1) =~= views(targets@).take(
                    it.index(),
                ).push(target@));
            }
        }
        assert(views(targets@).take(total as int) =~= views(targets@));
        (Coordinator { reported, count: 0 }, tasks)
    }

    /// The number of tasks.
    pub fn total(&self) -> (total: usize)
        ensures
            total == self@.len(),
    {
        self.reported.len()
    }

    /// The number of tasks that have reported.
    pub fn completed(&self) -> (count: usize)
        ensures
            count == completions(self@),
    {
        proof {
            use_type_invariant(self);
        }
        self.count
    }

    /// How far the run has come.
    pub fn status(&self) -> (status: RunStatus)
        ensures
            status == status_of(self@),
    {
        proof {
            use_type_invariant(self);
            lemma_complete_iff_all_reported(self.reported@);
        }
        let total: usize = self.reported.len();
        if self.count == total {
            RunStatus::Complete
        } else {
            RunStatus::Waiting { remaining: total - self.count }
        }
    }

    /// Whether the run is over: every task has reported.
    pub fn is_complete(&self) -> (complete: bool)
        ensures
            complete == (status_of(self@) is Complete),
            complete == all_reported(self@),
    {
        proof {
            use_type_invariant(self);
            lemma_complete_iff_all_reported(self.reported@);
        }
        self.count == self.reported.len()
    }

    /// Counts the report of the task with the number `task`.
    pub fn record(&mut self, task: usize) -> (result: Result<RunStatus, ReportError>)
        ensures
            final(self)@ == report(old(self)@, task as int),
            result == answer_to(old(self)@, task as int),
    {
        proof {
            use_type_invariant(&*self);
            lemma_complete_iff_all_reported(self.reported@);
        }
        if task >= self.reported.len() {
            return Err(ReportError::UnknownTask);
        }
        if self.reported[task] {
            assert(self.reported@.update(task as int, true) =~= self.reported@);
            return Err(ReportError::AlreadyReported);
        }
        proof {
            lemma_completions_after_report(self.reported@, task as int);
            lemma_complete_iff_all_reported(self.reported@.update(task as int, true));
        }
        // The flags and the count change together: take both out, and put
        // them back as one value.
        let mut taken = Coordinator::idle();
        core::mem::swap(self, &mut taken);
        let Coordinator { reported, count } = taken;
        let mut reported = reported;
        reported.set(task, true);
        let count: usize = count + 1;
        let total: usize = reported.len();
        *self = Coordinator { reported, count };
        if count == total {
            Ok(RunStatus::Complete)
        } else {
            Ok(RunStatus::Waiting { remaining: total - count })
        }
    }
}

/// After any reports, a task's flag is set exactly when one of the reports
/// was its own.
pub proof fn lemma_flag_set_iff_task_reported(total: nat, reports: Seq<int>)
    ensures
        after_reports(total, reports).len() == total,
        forall|task: int|
            0 <= task < total ==> (#[trigger] after_reports(total, reports)[task]
                <==> reports.contains(task)),
    decreases reports.len(),
{
    if reports.len() > 0 {
        let earlier = reports.drop_last();
        lemma_flag_set_iff_task_reported(total, earlier);
        assert forall|task: int| 0 <= task < total implies (#[trigger] after_reports(
            total,
            reports,
        )[task] <==> reports.contains(task)) by {
            if reports.contains(task) {
                let i: int = choose|i: int| 0 <= i < reports.len() && reports[i] == task;
                if i < earlier.len() {
                    assert(earlier[i] == task);
                }
            }
            if earlier.contains(task) {
                let i: int = choose|i: int| 0 <= i < earlier.len() && earlier[i] == task;
                assert(reports[i] == task);
            }
            if reports.last() == task {
                assert(reports[reports.len() - 1] == task);
            }
        }
    }
}

/// A run is over exactly when every one of its tasks has reported, in
/// whatever order the reports came: as long as one task is outstanding, be
/// it the slowest of many, the run goes on.
pub proof fn lemma_run_ends_with_the_last_task(total: nat, reports: Seq<int>)
    ensures
        status_of(after_reports(total, reports)) is Complete <==> forall|task: int|
            0 <= task < total ==> reports.contains(task),
{
    let flags = after_reports(total, reports);
    lemma_flag_set_iff_task_reported(total, reports);
    lemma_complete_iff_all_reported(flags);
    if forall|task: int| 0 <= task < total ==> reports.contains(task) {
        assert forall|task: int| 0 <= task < flags.len() implies flags[task] by {
            assert(reports.contains(task));
        }
    }
    if all_reported(flags) {
        assert forall|task: int| 0 <= task < total implies reports.contains(task) by {
            assert(flags[task]);
        }
    }
}

/// No run ends early: where only tasks whose probers have finished report,
/// a run that is over has had every one of its targets found ready by one of
/// the attempts made for it; `attempts` holds, task by task, what the
/// attempts so far came to. One target that no attempt has found ready
/// keeps the run waiting, however many of the others are ready.
pub proof fn lemma_run_waits_for_every_target(attempts: Seq<Seq<bool>>, reports: Seq<int>)
    requires
        forall|task: int|
            0 <= task < attempts.len() && reports.contains(task) ==> state_after(
                #[trigger] attempts[task],
            ) is Ready,
    ensures
        status_of(after_reports(attempts.len(), reports)) is Complete ==> forall|task: int|
            0 <= task < attempts.len() ==> found_ready(#[trigger] attempts[task]),
{
    lemma_run_ends_with_the_last_task(attempts.len(), reports);
    if status_of(after_reports(attempts.len(), reports)) is Complete {
        assert forall|task: int| 0 <= task < attempts.len() implies found_ready(
            #[trigger] attempts[task],
        ) by {
            assert(reports.contains(task));
        }
    }
}

/// Every run ends: once every target has been found ready and every task
/// whose prober has finished has reported, the run is over.
pub proof fn lemma_run_ends_once_every_target_is_ready(
    attempts: Seq<Seq<bool>>,
    reports: Seq<int>,
)
    requires
        forall|task: int|
            0 <= task < attempts.len() && state_after(#[trigger] attempts[task]) is Ready
                ==> reports.contains(task),
        forall|task: int| 0 <= task < attempts.len() ==> found_ready(#[trigger] attempts[task]),
    ensures
        status_of(after_reports(attempts.len(), reports)) is Complete,
{
    lemma_run_ends_with_the_last_task(attempts.len(), reports);
    assert forall|task: int| 0 <= task < attempts.len() implies reports.contains(task) by {
        assert(found_ready(attempts[task]));
    }
}

} // verus!
