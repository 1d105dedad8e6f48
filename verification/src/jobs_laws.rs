//! What holds of every narration run, whatever happens to it.

use crate::jobs::{
    active, busy_count, controlled, runs_before, same_chapters, state_name, terminal, ChapterState,
    JobRequest, JobState, JobView, OutcomeView,
};
use vstd::prelude::*;

verus! {

/// A control request changes no chapter, whatever it asks for.
pub proof fn controls_leave_chapters_alone(j: JobView, action: Seq<char>, now: u64)
    requires
        controlled(j, action, now) is Ok,
    ensures
        controlled(j, action, now)->Ok_0.0.chapters == j.chapters,
        controlled(j, action, now)->Ok_0.0.id == j.id,
{
}

/// A finished run stays finished: every control of it is refused.
pub proof fn finished_runs_refuse_controls(j: JobView, action: Seq<char>, now: u64)
    requires
        j.state is Done,
    ensures
        controlled(j, action, now) is Err,
{
}

/// Only a running job is interrupted, and an interrupt always comes with a request that the
/// runner will honour.
pub proof fn interrupts_come_with_requests(j: JobView, action: Seq<char>, now: u64)
    requires
        controlled(j, action, now) is Ok,
        controlled(j, action, now)->Ok_0.2,
    ensures
        j.state is Running,
        !(controlled(j, action, now)->Ok_0.0.request is Nothing),
{
}

/// Only a running job belongs to a process.
pub open spec fn owned_while_running(j: JobView) -> bool {
    j.pid is Some ==> j.state is Running
}

/// No step of a run leaves a job at rest in the hands of a process.
pub proof fn rest_has_no_process(
    j: JobView,
    pid: u32,
    i: int,
    request: JobRequest,
    outcome: OutcomeView,
    action: Seq<char>,
    now: u64,
)
    requires
        owned_while_running(j),
        0 <= i < j.chapters.len(),
    ensures
        owned_while_running(j.begun(pid, now)),
        owned_while_running(j.settled(i, request, outcome, now)),
        controlled(j, action, now) is Ok ==> owned_while_running(
            controlled(j, action, now)->Ok_0.0,
        ),
{
}

/// Beginning a chapter changes no other chapter, and never a finished one.
pub proof fn beginning_keeps_finished_chapters(j: JobView, pid: u32, now: u64, k: int)
    requires
        0 <= k < j.chapters.len(),
        j.chapters[k].state is Done,
    ensures
        j.begun(pid, now).chapters.len() == j.chapters.len(),
        j.begun(pid, now).chapters[k] == j.chapters[k],
{
    j.unfinished_is_a_chapter(0);
}

/// The end of a chapter changes no other chapter, and only narration makes a chapter done.
pub proof fn only_narration_finishes_a_chapter(
    j: JobView,
    i: int,
    request: JobRequest,
    outcome: OutcomeView,
    now: u64,
    k: int,
)
    requires
        0 <= i < j.chapters.len(),
        0 <= k < j.chapters.len(),
    ensures
        ({
            let r = j.settled(i, request, outcome, now);
            &&& r.chapters.len() == j.chapters.len()
            &&& k != i ==> r.chapters[k] == j.chapters[k]
            &&& r.chapters[i].state is Done <==> outcome is Narrated
        }),
{
}

/// How many of the first `n` chapters are still to be narrated.
pub open spec fn left_of(j: JobView, n: int) -> nat
    decreases n,
{
    if n <= 0 {
        0
    } else {
        left_of(j, n - 1) + (if j.chapters[n - 1].state is Done {
            0nat
        } else {
            1nat
        })
    }
}

proof fn left_changes_at_one(a: JobView, b: JobView, i: int, n: int)
    requires
        0 <= i < a.chapters.len(),
        a.chapters.len() == b.chapters.len(),
        0 <= n <= a.chapters.len(),
        forall|k: int|
            0 <= k < a.chapters.len() && k != i ==> (#[trigger] a.chapters[k]).state
                == b.chapters[k].state,
        !(a.chapters[i].state is Done),
        b.chapters[i].state is Done,
    ensures
        left_of(a, n) == left_of(b, n) + (if i < n {
            1nat
        } else {
            0nat
        }),
    decreases n,
{
    if n > 0 {
        left_changes_at_one(a, b, i, n - 1);
        if n - 1 != i {
            assert(a.chapters[n - 1].state == b.chapters[n - 1].state);
        }
    }
}

/// Every narrated chapter brings a run one step nearer to its end.
pub proof fn narration_makes_progress(
    j: JobView,
    i: int,
    request: JobRequest,
    audio_us: u64,
    wall_us: u64,
    now: u64,
)
    requires
        0 <= i < j.chapters.len(),
        !(j.chapters[i].state is Done),
    ensures
        ({
            let r = j.settled(i, request, OutcomeView::Narrated(audio_us, wall_us), now);
            left_of(r, j.chapters.len() as int) + 1 == left_of(j, j.chapters.len() as int)
        }),
{
    let r = j.settled(i, request, OutcomeView::Narrated(audio_us, wall_us), now);
    left_changes_at_one(j, r, i, j.chapters.len() as int);
}

/// A run that ends as done after a chapter, or before one, has nothing left to narrate.
pub proof fn done_means_nothing_left(
    j: JobView,
    pid: u32,
    i: int,
    request: JobRequest,
    audio_us: u64,
    wall_us: u64,
    now: u64,
)
    requires
        0 <= i < j.chapters.len(),
        !(j.state is Done),
    ensures
        j.begun(pid, now).state is Done ==> j.begun(pid, now).next_chapter() is None,
        ({
            let r = j.settled(i, request, OutcomeView::Narrated(audio_us, wall_us), now);
            r.state is Done <==> r.next_chapter() is None
        }),
{
    let b = j.begun(pid, now);
    if b.state is Done {
        same_chapters(j, b, 0);
    }
    let n = JobView { request, updated: now, ..j };
    let c = n.with_chapter(
        i,
        crate::jobs::ChapterView {
            state: ChapterState::Done,
            audio_us: Some(audio_us),
            wall_us: Some(wall_us),
            error: None,
            ..n.chapters[i]
        },
    );
    let r = j.settled(i, request, OutcomeView::Narrated(audio_us, wall_us), now);
    same_chapters(c, r, 0);
}

proof fn first_unfinished(j: JobView, from: int, i: int)
    requires
        0 <= from <= i < j.chapters.len(),
        !(j.chapters[i].state is Done),
        forall|k: int| from <= k < i ==> (#[trigger] j.chapters[k]).state is Done,
    ensures
        j.unfinished_from(from) == Some(i),
    decreases i - from,
{
    if from < i {
        assert(j.chapters[from].state is Done);
        first_unfinished(j, from + 1, i);
    }
}

proof fn finished_before(j: JobView, from: int, k: int)
    requires
        0 <= from <= k,
        j.unfinished_from(from) is Some,
        k < j.unfinished_from(from).unwrap(),
    ensures
        j.chapters[k].state is Done,
    decreases k - from,
{
    j.unfinished_is_a_chapter(from);
    if from < k {
        finished_before(j, from + 1, k);
    }
}

/// A chapter that was stopped or failed is the next one again: a resumed run redoes it from
/// its start and loses nothing that was finished.
pub proof fn stopped_chapters_come_next(
    j: JobView,
    pid: u32,
    request: JobRequest,
    outcome: OutcomeView,
    now: u64,
)
    requires
        j.begun_chapter() is Some,
        !(outcome is Narrated),
    ensures
        ({
            let i = j.begun_chapter().unwrap();
            j.begun(pid, now).settled(i, request, outcome, now).next_chapter() == Some(i)
        }),
{
    let i = j.begun_chapter().unwrap();
    j.unfinished_is_a_chapter(0);
    let r = j.begun(pid, now).settled(i, request, outcome, now);
    assert forall|k: int| 0 <= k < i implies (#[trigger] r.chapters[k]).state is Done by {
        finished_before(j, 0, k);
        assert(r.chapters[k] == j.chapters[k]);
    }
    first_unfinished(r, 0, i);
}

/// A paused job does not run, and a resumed one with chapters left does.
pub proof fn pausing_and_resuming(j: JobView, now: u64, later: u64)
    requires
        j.state is Queued,
        j.next_chapter() is Some,
    ensures
        ({
            let p = controlled(j, "pause"@, now);
            let q = controlled(p->Ok_0.0, "resume"@, later);
            &&& p is Ok
            &&& !p->Ok_0.0.runnable()
            &&& q is Ok
            &&& q->Ok_0.0.runnable()
            &&& q->Ok_0.0 == (JobView {
                updated: later,
                request: JobRequest::Nothing,
                error: None,
                ..j
            })
        }),
{
    reveal_strlit("pause");
    reveal_strlit("pause-now");
    reveal_strlit("resume");
    assert("pause"@.len() == 5);
    assert("resume"@.len() == 6);
    assert("pause-now"@.len() == 9);
    let p = controlled(j, "pause"@, now)->Ok_0.0;
    let q = controlled(p, "resume"@, later)->Ok_0.0;
    same_chapters(j, p, 0);
    same_chapters(j, q, 0);
}

/// A request that is on record takes effect before the next chapter: the job comes to rest
/// and no chapter is begun.
pub proof fn requests_take_effect_between_chapters(j: JobView, pid: u32, now: u64)
    requires
        !(j.request is Nothing),
    ensures
        j.begun_chapter() is None,
        !active(j.begun(pid, now).state),
        j.begun(pid, now).chapters == j.chapters,
        j.request is Cancel ==> terminal(j.begun(pid, now).state),
{
}

/// A document submitted again runs exactly where something is left to narrate.
pub proof fn resubmission_continues(j: JobView)
    ensures
        j.resubmitted().runnable() <==> j.next_chapter() is Some,
        j.resubmitted().chapters == j.chapters,
{
    same_chapters(j, j.resubmitted(), 0);
}

proof fn actions_are_apart()
    ensures
        "pause"@ == seq!['p', 'a', 'u', 's', 'e'],
        "pause-now"@.len() == 9,
        "resume"@ == seq!['r', 'e', 's', 'u', 'm', 'e'],
        "cancel"@ == seq!['c', 'a', 'n', 'c', 'e', 'l'],
        "cancel-now"@.len() == 10,
{
    reveal_strlit("pause");
    reveal_strlit("pause-now");
    reveal_strlit("resume");
    reveal_strlit("cancel");
    reveal_strlit("cancel-now");
}

/// A pause is put on record of a running job, and stops it at once only where that is asked for; a
/// job that waits is paused there and then. Any other job refuses with 409.
pub proof fn pausing(j: JobView, action: Seq<char>, now: u64)
    requires
        action == "pause"@ || action == "pause-now"@,
    ensures
        ({
            let r = controlled(j, action, now);
            &&& r is Ok <==> j.state is Running || j.state is Queued
            &&& j.state is Running ==> r->Ok_0.0 == (JobView {
                request: JobRequest::Pause,
                updated: now,
                ..j
            }) && (r->Ok_0.2 <==> action == "pause-now"@)
            &&& j.state is Queued ==> r->Ok_0.0 == (JobView {
                state: JobState::Paused,
                updated: now,
                ..j
            }) && !r->Ok_0.2
            &&& r is Err ==> r->Err_0.0 == 409
        }),
{
    actions_are_apart();
}

/// A job at rest that is not done is queued again with its request and its error gone, or is done
/// where nothing is left; a running one goes on as it is. A job that waits or is done refuses with
/// 409.
pub proof fn resuming(j: JobView, now: u64)
    ensures
        ({
            let r = controlled(j, "resume"@, now);
            let rests = j.state is Paused || j.state is Failed || j.state is Cancelled;
            &&& r is Ok <==> rests || j.state is Running
            &&& r is Ok ==> !r->Ok_0.2
            &&& j.state is Running ==> r->Ok_0.0 == (JobView { updated: now, ..j })
            &&& rests && j.next_chapter() is Some ==> r->Ok_0.0 == (JobView {
                state: JobState::Queued,
                request: JobRequest::Nothing,
                error: None,
                updated: now,
                ..j
            })
            &&& rests && j.next_chapter() is None ==> r->Ok_0.0 == (JobView {
                state: JobState::Done,
                updated: now,
                ..j
            })
            &&& r is Err ==> r->Err_0.0 == 409
        }),
{
    actions_are_apart();
    assert("resume"@.len() == 6 && "pause"@.len() == 5);
}

/// A cancellation is put on record of a running job, and stops it at once only where that is asked
/// for; a job that waits or is paused is cancelled there and then. Any other job refuses with 409.
pub proof fn cancelling(j: JobView, action: Seq<char>, now: u64)
    requires
        action == "cancel"@ || action == "cancel-now"@,
    ensures
        ({
            let r = controlled(j, action, now);
            &&& r is Ok <==> j.state is Running || j.state is Queued || j.state is Paused
            &&& j.state is Running ==> r->Ok_0.0 == (JobView {
                request: JobRequest::Cancel,
                updated: now,
                ..j
            }) && (r->Ok_0.2 <==> action == "cancel-now"@)
            &&& j.state is Queued || j.state is Paused ==> r->Ok_0.0 == (JobView {
                state: JobState::Cancelled,
                updated: now,
                ..j
            }) && !r->Ok_0.2
            &&& r is Err ==> r->Err_0.0 == 409
        }),
{
    actions_are_apart();
    assert("cancel"@.len() == 6 && "resume"@.len() == 6 && "cancel"@[0] == 'c' && "resume"@[0]
        == 'r');
    assert("pause"@.len() == 5);
}

/// There are five actions, and any other is unknown.
pub proof fn other_actions_are_unknown(j: JobView, action: Seq<char>, now: u64)
    requires
        action != "pause"@,
        action != "pause-now"@,
        action != "resume"@,
        action != "cancel"@,
        action != "cancel-now"@,
    ensures
        controlled(j, action, now) is Err,
        controlled(j, action, now)->Err_0.0 == 404,
{
}

/// The next chapter is the first that is not done, and there is none only where all are.
pub proof fn chapters_are_narrated_in_order(j: JobView)
    ensures
        j.next_chapter() is Some ==> {
            let i = j.next_chapter().unwrap();
            &&& 0 <= i < j.chapters.len()
            &&& !(j.chapters[i].state is Done)
            &&& forall|k: int| 0 <= k < i ==> (#[trigger] j.chapters[k]).state is Done
        },
        j.next_chapter() is None ==> forall|k: int|
            0 <= k < j.chapters.len() ==> (#[trigger] j.chapters[k]).state is Done,
{
    j.unfinished_is_a_chapter(0);
    if j.next_chapter() is Some {
        assert forall|k: int| 0 <= k < j.next_chapter().unwrap() implies (
        #[trigger] j.chapters[k]).state is Done by {
            finished_before(j, 0, k);
        }
    } else {
        all_finished(j, 0);
    }
}

proof fn all_finished(j: JobView, from: int)
    requires
        0 <= from,
        j.unfinished_from(from) is None,
    ensures
        forall|k: int|
            from <= k < j.chapters.len() ==> (#[trigger] j.chapters[k]).state is Done,
    decreases j.chapters.len() - from,
{
    if from < j.chapters.len() {
        all_finished(j, from + 1);
    }
}

/// A job without a request begins its next chapter: job and chapter run, the job in the hands of the
/// process, and nothing else of either changes.
pub proof fn beginning_a_chapter(j: JobView, pid: u32, now: u64, i: int)
    requires
        j.request is Nothing,
        j.next_chapter() == Some(i),
    ensures
        ({
            let r = j.begun(pid, now);
            &&& j.begun_chapter() == Some(i)
            &&& r.state is Running
            &&& r.pid == Some(pid)
            &&& r.updated == now
            &&& r.request is Nothing
            &&& r.error == j.error
            &&& r.chapters[i] == (crate::jobs::ChapterView {
                state: ChapterState::Running,
                ..j.chapters[i]
            })
            &&& r.chapters == j.chapters.update(i, r.chapters[i])
        }),
{
    j.unfinished_is_a_chapter(0);
}

/// A pause and a cancellation that are on record take effect before the next chapter, and are then
/// off the record.
pub proof fn requests_are_honoured(j: JobView, pid: u32, now: u64)
    ensures
        j.request is Pause ==> j.begun(pid, now) == (JobView {
            state: JobState::Paused,
            request: JobRequest::Nothing,
            pid: None,
            updated: now,
            ..j
        }),
        j.request is Cancel ==> j.begun(pid, now) == (JobView {
            state: JobState::Cancelled,
            request: JobRequest::Nothing,
            pid: None,
            updated: now,
            ..j
        }),
{
}

/// A narrated chapter is done, with the times that it took and no error, and the job keeps running
/// or is done.
pub proof fn narrated_chapters_are_recorded(
    j: JobView,
    i: int,
    request: JobRequest,
    audio_us: u64,
    wall_us: u64,
    now: u64,
)
    requires
        0 <= i < j.chapters.len(),
    ensures
        ({
            let r = j.settled(i, request, OutcomeView::Narrated(audio_us, wall_us), now);
            &&& r.chapters[i].state is Done
            &&& r.chapters[i].audio_us == Some(audio_us)
            &&& r.chapters[i].wall_us == Some(wall_us)
            &&& r.chapters[i].error is None
            &&& r.chapters[i].name == j.chapters[i].name
            &&& r.request == request
            &&& r.updated == now
            &&& r.state == j.state || r.state is Done
            &&& r.error == j.error
        }),
{
}

/// A stopped chapter waits again; its job is cancelled where that was asked for and paused
/// otherwise, and the request is off the record.
pub proof fn stopped_chapters_wait(j: JobView, i: int, request: JobRequest, now: u64)
    requires
        0 <= i < j.chapters.len(),
    ensures
        ({
            let r = j.settled(i, request, OutcomeView::Stopped, now);
            &&& r.chapters[i] == (crate::jobs::ChapterView {
                state: ChapterState::Pending,
                ..j.chapters[i]
            })
            &&& request is Cancel ==> r.state is Cancelled
            &&& !(request is Cancel) ==> r.state is Paused
            &&& r.request is Nothing
            &&& r.pid is None
            &&& r.updated == now
        }),
{
}

/// A broken chapter fails with the message, and so does its job, which names the chapter.
pub proof fn broken_chapters_fail(
    j: JobView,
    i: int,
    request: JobRequest,
    message: Seq<char>,
    now: u64,
)
    requires
        0 <= i < j.chapters.len(),
    ensures
        ({
            let r = j.settled(i, request, OutcomeView::Broken(message), now);
            &&& r.chapters[i].state is Failed
            &&& r.chapters[i].error == Some(message)
            &&& r.state is Failed
            &&& r.error == Some(j.chapters[i].name + " failed: "@ + message)
            &&& r.request == request
            &&& r.pid is None
            &&& r.updated == now
        }),
{
}

/// The state of a job: two are active, three are final, and a pause is neither.
pub proof fn states_of_a_job(s: JobState)
    ensures
        active(s) <==> s == JobState::Queued || s == JobState::Running,
        terminal(s) <==> s == JobState::Done || s == JobState::Failed || s == JobState::Cancelled,
        !(active(s) && terminal(s)),
        active(s) || terminal(s) || s == JobState::Paused,
        state_name(JobState::Queued) == "queued"@,
        state_name(JobState::Running) == "running"@,
        state_name(JobState::Paused) == "paused"@,
        state_name(JobState::Done) == "done"@,
        state_name(JobState::Failed) == "failed"@,
        state_name(JobState::Cancelled) == "cancelled"@,
{
}

/// The older of two jobs runs first, and the one listed first of two that are as old.
pub proof fn older_jobs_run_first(v: Seq<JobView>, i: int, j: int)
    ensures
        v[i].created < v[j].created ==> runs_before(v, i, j) && !runs_before(v, j, i),
        v[i].created == v[j].created && i < j ==> runs_before(v, i, j) && !runs_before(v, j, i),
{
}

/// Every active job that is alive keeps the engine busy, and no other does.
pub proof fn only_live_jobs_are_counted(jobs: Seq<JobView>, stale: Seq<bool>, n: int, k: int)
    requires
        0 <= k < n <= jobs.len(),
        jobs.len() == stale.len(),
    ensures
        (active(jobs[k].state) && !stale[k]) ==> busy_count(jobs, stale.update(k, true), n) + 1
            == busy_count(jobs, stale, n),
        !(active(jobs[k].state) && !stale[k]) ==> busy_count(jobs, stale.update(k, true), n)
            == busy_count(jobs, stale, n),
    decreases n,
{
    let later = stale.update(k, true);
    if k < n - 1 {
        only_live_jobs_are_counted(jobs, stale, n - 1, k);
    } else {
        same_count(jobs, stale, later, n - 1);
    }
}

proof fn same_count(jobs: Seq<JobView>, a: Seq<bool>, b: Seq<bool>, n: int)
    requires
        forall|i: int| 0 <= i < n ==> #[trigger] a[i] == b[i],
    ensures
        busy_count(jobs, a, n) == busy_count(jobs, b, n),
    decreases n,
{
    if n > 0 {
        same_count(jobs, a, b, n - 1);
        assert(a[n - 1] == b[n - 1]);
    }
}

/// Where every job is stale or at rest the engine is idle.
pub proof fn rest_is_not_counted(jobs: Seq<JobView>, stale: Seq<bool>, n: int)
    requires
        0 <= n <= jobs.len(),
        forall|i: int|
            0 <= i < n ==> stale[i] || !((#[trigger] jobs[i]).state is Queued || jobs[i].state
                is Running),
    ensures
        busy_count(jobs, stale, n) == 0,
    decreases n,
{
    if n > 0 {
        rest_is_not_counted(jobs, stale, n - 1);
        assert(stale[n - 1] || !(jobs[n - 1].state is Queued || jobs[n - 1].state is Running));
    }
}

/// A pause that does not wait names the first chapter that is not done, and says that it will be
/// narrated again.
pub proof fn a_stop_names_its_chapter(j: JobView, i: int, now: u64)
    requires
        j.state is Running,
        0 <= i < j.chapters.len(),
        !(j.chapters[i].state is Done),
        forall|k: int| 0 <= k < i ==> (#[trigger] j.chapters[k]).state is Done,
    ensures
        controlled(j, "pause-now"@, now) matches Ok((n, note, interrupt)) && interrupt && note
            == "stopping "@ + j.chapters[i].name
            + " now; it will be narrated again from the start on resume"@,
{
    reveal_strlit("pause-now");
    reveal_strlit("pause");
    first_unfinished(j, 0, i);
}

} // verus!
