//! What a handler that works through its task in a hundred equal steps
//! reports to the event sink.

use crate::task::MAX_PROGRESS;
use crate::task::Task;
use crate::task::TaskStatus;
use crate::task::TaskStatusView;
use crate::task::TaskView;
use vstd::prelude::*;

verus! {

/// One report of a handler: the snapshot to push to the event sink, and
/// whether the handler works on before it reports again.
pub struct ProgressReport {
    pub snapshot: Task,
    pub pause: bool,
}

/// The mathematical value of a [`ProgressReport`].
pub struct ProgressReportView {
    pub snapshot: TaskView,
    pub pause: bool,
}

impl View for ProgressReport {
    type V = ProgressReportView;

    open spec fn view(&self) -> ProgressReportView {
        ProgressReportView { snapshot: self.snapshot@, pause: self.pause }
    }
}

/// The number of reports that a handler makes of one task: one when it
/// starts, one for each percentage from 0 to 100, and one when it is done.
pub const REPORTS: usize = 103;

/// The report with the number `i` on `task`.
pub open spec fn report(task: TaskView, i: int) -> ProgressReportView {
    if i == 0 {
        ProgressReportView { snapshot: task.with_status(TaskStatusView::Running), pause: false }
    } else if i <= MAX_PROGRESS + 1 {
        ProgressReportView {
            snapshot: TaskView {
                status: TaskStatusView::Running,
                progress: (i - 1) as u8,
                ..task
            },
            pause: true,
        }
    } else {
        ProgressReportView {
            snapshot: TaskView {
                status: TaskStatusView::Completed,
                progress: MAX_PROGRESS,
                ..task
            },
            pause: false,
        }
    }
}

/// The reports that a handler makes of `task`, in their order.
pub open spec fn reports(task: TaskView) -> Seq<ProgressReportView> {
    Seq::new(REPORTS as nat, |i: int| report(task, i))
}

/// The mathematical values of a sequence of reports.
pub open spec fn report_views(reports: Seq<ProgressReport>) -> Seq<ProgressReportView> {
    reports.map_values(|r: ProgressReport| r@)
}

/// The reports that a handler makes of `task`: the task as running, then the
/// task at every percentage from 0 to 100, then the task as completed.
pub fn progress_reports(task: Task) -> (all: Vec<ProgressReport>)
    ensures
        report_views(all@) == reports(task@),
{
    let ghost given = task@;
    let mut task = task;
    let mut all: Vec<ProgressReport> = Vec::new();
    task.status = TaskStatus::Running;
    all.push(ProgressReport { snapshot: task.clone(), pause: false });
    assert(report_views(all@) =~= reports(given).take(1));
    let mut percent: u8 = 0;
    while percent <= MAX_PROGRESS
        invariant
            percent <= MAX_PROGRESS + 1,
            task@ == report(given, percent as int).snapshot,
            report_views(all@) == reports(given).take(percent + 1),
        decreases MAX_PROGRESS + 1 - percent,
    {
        let ghost done = report_views(all@);
        task.progress = percent;
        let made = ProgressReport { snapshot: task.clone(), pause: true };
        all.push(made);
        assert(report_views(all@) =~= done.push(made@));
        assert(done.push(made@) =~= reports(given).take(percent + 2));
        percent = percent + 1;
    }
    let ghost done = report_views(all@);
    task.status = TaskStatus::Completed;
    let made = ProgressReport { snapshot: task, pause: false };
    all.push(made);
    assert(report_views(all@) =~= done.push(made@));
    assert(done.push(made@) =~= reports(given));
    all
}

/// The progress that a handler reports of a task that starts without
/// progress never goes back and never leaves its range, every report but
/// the last shows the task as running, and the last shows it as completed.
pub proof fn lemma_reports_progress(task: TaskView)
    requires
        task.progress == 0,
    ensures
        forall|i: int, j: int|
            0 <= i <= j < reports(task).len() ==> (#[trigger] reports(task)[i]).snapshot.progress <= (
            #[trigger] reports(task)[j]).snapshot.progress,
        forall|i: int|
            0 <= i < reports(task).len() ==> (#[trigger] reports(task)[i]).snapshot.progress_in_range(),
        forall|i: int|
            0 <= i < reports(task).len() - 1 ==> (#[trigger] reports(task)[i]).snapshot.status
                is Running,
        reports(task).last().snapshot.status is Completed,
        reports(task).last().snapshot.progress == MAX_PROGRESS,
{
}

} // verus!
