//! Narration runs: what a job does next, what a chapter's outcome makes of it, and what a
//! control request may do to it.
//!
//! The records are kept elsewhere; here are the rules. Times are whole microseconds.

use crate::api::{is_error, ApiError};
use crate::lexicon::opt_chars;
use crate::text::{cat, cat3, str_eq};
use vstd::prelude::*;
use vstd::string::*;

verus! {

#[derive(Clone, Copy, Debug, PartialEq, Eq, Structural)]
pub enum ChapterState {
    Pending,
    Running,
    Done,
    Failed,
}

#[derive(Clone, Copy, Debug, PartialEq, Eq, Structural)]
pub enum JobState {
    Queued,
    Running,
    Paused,
    Done,
    Failed,
    Cancelled,
}

/// What a caller asked of a running job, to be honoured at the next chapter.
#[derive(Clone, Copy, Debug, PartialEq, Eq, Structural)]
pub enum JobRequest {
    Nothing,
    Pause,
    Cancel,
}

/// A chapter of a run.
pub struct Chapter {
    pub name: String,
    pub text_path: String,
    pub wav_path: String,
    pub words: u64,
    pub state: ChapterState,
    pub audio_us: Option<u64>,
    pub wall_us: Option<u64>,
    pub error: Option<String>,
}

/// A narration run.
pub struct Job {
    pub id: String,
    pub source: String,
    pub engine: String,
    pub voice: String,
    pub quant: Option<String>,
    pub seed: Option<u64>,
    pub out_dir: String,
    pub created: u64,
    pub updated: u64,
    pub state: JobState,
    pub request: JobRequest,
    /// The process that runs it.
    pub pid: Option<u32>,
    pub chapters: Vec<Chapter>,
    pub error: Option<String>,
}

/// The meaning of a chapter.
#[verifier::ext_equal]
pub struct ChapterView {
    pub name: Seq<char>,
    pub text_path: Seq<char>,
    pub wav_path: Seq<char>,
    pub words: u64,
    pub state: ChapterState,
    pub audio_us: Option<u64>,
    pub wall_us: Option<u64>,
    pub error: Option<Seq<char>>,
}

/// The meaning of a run.
#[verifier::ext_equal]
pub struct JobView {
    pub id: Seq<char>,
    pub source: Seq<char>,
    pub engine: Seq<char>,
    pub voice: Seq<char>,
    pub quant: Option<Seq<char>>,
    pub seed: Option<u64>,
    pub out_dir: Seq<char>,
    pub created: u64,
    pub updated: u64,
    pub state: JobState,
    pub request: JobRequest,
    pub pid: Option<u32>,
    pub chapters: Seq<ChapterView>,
    pub error: Option<Seq<char>>,
}

impl View for Chapter {
    type V = ChapterView;

    open spec fn view(&self) -> ChapterView {
        ChapterView {
            name: self.name@,
            text_path: self.text_path@,
            wav_path: self.wav_path@,
            words: self.words,
            state: self.state,
            audio_us: self.audio_us,
            wall_us: self.wall_us,
            error: opt_chars(self.error),
        }
    }
}

/// The meaning of a list of chapters.
pub open spec fn chapters_view(v: Seq<Chapter>) -> Seq<ChapterView> {
    v.map_values(|c: Chapter| c@)
}

impl View for Job {
    type V = JobView;

    open spec fn view(&self) -> JobView {
        JobView {
            id: self.id@,
            source: self.source@,
            engine: self.engine@,
            voice: self.voice@,
            quant: opt_chars(self.quant),
            seed: self.seed,
            out_dir: self.out_dir@,
            created: self.created,
            updated: self.updated,
            state: self.state,
            request: self.request,
            pid: self.pid,
            chapters: chapters_view(self.chapters@),
            error: opt_chars(self.error),
        }
    }
}

/// Waiting to run, or running.
pub open spec fn active(s: JobState) -> bool {
    s is Queued || s is Running
}

/// Not to be continued unless a caller asks for it.
pub open spec fn terminal(s: JobState) -> bool {
    s is Done || s is Failed || s is Cancelled
}

/// The name of a state.
pub open spec fn state_name(s: JobState) -> Seq<char> {
    match s {
        JobState::Queued => "queued"@,
        JobState::Running => "running"@,
        JobState::Paused => "paused"@,
        JobState::Done => "done"@,
        JobState::Failed => "failed"@,
        JobState::Cancelled => "cancelled"@,
    }
}

impl JobState {
    /// Whether a job waits to run, or runs.
    pub fn is_active(self) -> (r: bool)
        ensures
            r == active(self),
    {
        match self {
            JobState::Queued => true,
            JobState::Running => true,
            _ => false,
        }
    }

    /// Whether a job has come to an end.
    pub fn is_terminal(self) -> (r: bool)
        ensures
            r == terminal(self),
    {
        match self {
            JobState::Done => true,
            JobState::Failed => true,
            JobState::Cancelled => true,
            _ => false,
        }
    }

    /// The name of the state.
    pub fn name(self) -> (r: &'static str)
        ensures
            r@ == state_name(self),
    {
        match self {
            JobState::Queued => "queued",
            JobState::Running => "running",
            JobState::Paused => "paused",
            JobState::Done => "done",
            JobState::Failed => "failed",
            JobState::Cancelled => "cancelled",
        }
    }
}

impl JobView {
    /// The first chapter from number `i` on that is not done.
    pub open spec fn unfinished_from(self, i: int) -> Option<int>
        decreases self.chapters.len() - i,
    {
        if i < 0 || i >= self.chapters.len() {
            None
        } else if !(self.chapters[i].state is Done) {
            Some(i)
        } else {
            self.unfinished_from(i + 1)
        }
    }

    /// The chapter to narrate next: the first that is not done.
    pub open spec fn next_chapter(self) -> Option<int> {
        self.unfinished_from(0)
    }

    /// Whether the job has work to do.
    pub open spec fn runnable(self) -> bool {
        active(self.state) && self.next_chapter() is Some
    }

    /// The job with one chapter replaced.
    pub open spec fn with_chapter(self, i: int, c: ChapterView) -> JobView {
        JobView { chapters: self.chapters.update(i, c), ..self }
    }

    /// The job before its next chapter. A pause or a cancellation that arrived while the
    /// previous chapter ran takes effect here, at the boundary that keeps a half-written
    /// chapter from ever existing.
    pub open spec fn begun(self, pid: u32, now: u64) -> JobView {
        let j = JobView { updated: now, ..self };
        match self.request {
            JobRequest::Pause => JobView {
                state: JobState::Paused,
                request: JobRequest::Nothing,
                pid: None,
                ..j
            },
            JobRequest::Cancel => JobView {
                state: JobState::Cancelled,
                request: JobRequest::Nothing,
                pid: None,
                ..j
            },
            JobRequest::Nothing => match self.next_chapter() {
                None => JobView { state: JobState::Done, pid: None, ..j },
                Some(i) => JobView { state: JobState::Running, pid: Some(pid), ..j }.with_chapter(
                    i,
                    ChapterView { state: ChapterState::Running, ..self.chapters[i] },
                ),
            },
        }
    }

    /// The chapter that a job narrates once it has begun, if any.
    pub open spec fn begun_chapter(self) -> Option<int> {
        match self.request {
            JobRequest::Nothing => self.next_chapter(),
            _ => None,
        }
    }

    /// The job after chapter `i` was narrated.
    pub open spec fn narrated(self, i: int, audio_us: u64, wall_us: u64) -> JobView {
        let j = self.with_chapter(
            i,
            ChapterView {
                state: ChapterState::Done,
                audio_us: Some(audio_us),
                wall_us: Some(wall_us),
                error: None,
                ..self.chapters[i]
            },
        );
        if j.next_chapter() is None {
            JobView { state: JobState::Done, pid: None, ..j }
        } else {
            j
        }
    }

    /// The job after chapter `i` was stopped. Left pending, the chapter is narrated again
    /// from its start: a partial recording was never audio.
    pub open spec fn stopped(self, i: int) -> JobView {
        let j = self.with_chapter(
            i,
            ChapterView { state: ChapterState::Pending, ..self.chapters[i] },
        );
        JobView {
            state: if self.request is Cancel {
                JobState::Cancelled
            } else {
                JobState::Paused
            },
            request: JobRequest::Nothing,
            pid: None,
            ..j
        }
    }

    /// The job after chapter `i` failed.
    pub open spec fn broken(self, i: int, message: Seq<char>) -> JobView {
        let j = self.with_chapter(
            i,
            ChapterView {
                state: ChapterState::Failed,
                error: Some(message),
                ..self.chapters[i]
            },
        );
        JobView {
            state: JobState::Failed,
            error: Some(self.chapters[i].name + " failed: "@ + message),
            pid: None,
            ..j
        }
    }

    /// The job after its chapter `i` came to an end, with the request that is on record by
    /// then.
    pub open spec fn settled(
        self,
        i: int,
        request: JobRequest,
        outcome: OutcomeView,
        now: u64,
    ) -> JobView {
        let j = JobView { request, updated: now, ..self };
        match outcome {
            OutcomeView::Narrated(audio_us, wall_us) => j.narrated(i, audio_us, wall_us),
            OutcomeView::Stopped => j.stopped(i),
            OutcomeView::Broken(message) => j.broken(i, message),
        }
    }

    /// The job after it was submitted once more: the same document again is a request to
    /// continue it, except where nothing is left to do.
    pub open spec fn resubmitted(self) -> JobView {
        JobView {
            state: if self.next_chapter() is None {
                JobState::Done
            } else {
                JobState::Queued
            },
            request: JobRequest::Nothing,
            error: None,
            ..self
        }
    }
}

/// How the narration of a chapter came out.
pub enum Outcome {
    /// It was narrated: the length of the audio, and the time taken.
    Narrated(u64, u64),
    /// A caller stopped it.
    Stopped,
    /// It failed.
    Broken(String),
}

/// The meaning of an outcome.
pub enum OutcomeView {
    Narrated(u64, u64),
    Stopped,
    Broken(Seq<char>),
}

impl View for Outcome {
    type V = OutcomeView;

    open spec fn view(&self) -> OutcomeView {
        match *self {
            Outcome::Narrated(a, w) => OutcomeView::Narrated(a, w),
            Outcome::Stopped => OutcomeView::Stopped,
            Outcome::Broken(m) => OutcomeView::Broken(m@),
        }
    }
}

/// What the end of a synthesis means. An engine that stopped because it was asked to has not
/// failed, whichever way the stop was noticed.
pub fn outcome_of(
    result: Result<u64, String>,
    wall_us: u64,
    interrupt_set: bool,
    reports_interrupt: bool,
) -> (r: Outcome)
    ensures
        match result {
            Ok(audio_us) => r@ == OutcomeView::Narrated(audio_us, wall_us),
            Err(m) => if interrupt_set || reports_interrupt {
                r@ == OutcomeView::Stopped
            } else {
                r@ == OutcomeView::Broken(m@)
            },
        },
{
    match result {
        Ok(audio_us) => Outcome::Narrated(audio_us, wall_us),
        Err(m) => if interrupt_set || reports_interrupt {
            Outcome::Stopped
        } else {
            Outcome::Broken(m)
        },
    }
}

/// What is to be done after a job has begun.
#[derive(Clone, Copy, Debug, PartialEq, Eq, Structural)]
pub enum Step {
    /// Narrate this chapter.
    Narrate(usize),
    /// Nothing: the job has come to rest.
    Rest,
}

/// What a control request leads to.
pub struct Controlled {
    pub job: Job,
    /// What the caller is told: a pause of a running chapter does not take effect at once,
    /// and a control that appears to do nothing is worse than one that refuses.
    pub note: String,
    /// Whether the chapter in flight is to be stopped.
    pub interrupt: bool,
}

/// The meaning of what a control request leads to: the job, the note and the interrupt, or
/// the status and detail of a refusal.
pub open spec fn controlled(j: JobView, action: Seq<char>, now: u64) -> Result<
    (JobView, Seq<char>, bool),
    (u16, Seq<char>),
> {
    let n = JobView { updated: now, ..j };
    if action == "pause"@ || action == "pause-now"@ {
        match j.state {
            JobState::Running => {
                let asked = JobView { request: JobRequest::Pause, ..n };
                if action == "pause-now"@ {
                    Ok((asked, "stopping "@ + chapter_in_flight(j)
                        + " now; it will be narrated again from the start on resume"@, true))
                } else {
                    Ok((asked, "pausing after the chapter in flight, so its work is kept"@, false))
                }
            },
            JobState::Queued => Ok(
                (JobView { state: JobState::Paused, ..n }, "paused before starting"@, false),
            ),
            s => Err((409u16, "cannot pause a "@ + state_name(s) + " job"@)),
        }
    } else if action == "resume"@ {
        match j.state {
            JobState::Running => Ok((n, "already running"@, false)),
            JobState::Paused | JobState::Failed | JobState::Cancelled => match j.next_chapter() {
                None => Ok(
                    (JobView { state: JobState::Done, ..n }, "nothing left to narrate"@, false),
                ),
                Some(i) => Ok(
                    (
                        JobView {
                            state: JobState::Queued,
                            request: JobRequest::Nothing,
                            error: None,
                            ..n
                        },
                        "resuming at "@ + j.chapters[i].name,
                        false,
                    ),
                ),
            },
            s => Err((409u16, "cannot resume a "@ + state_name(s) + " job"@)),
        }
    } else if action == "cancel"@ || action == "cancel-now"@ {
        match j.state {
            JobState::Running => {
                let asked = JobView { request: JobRequest::Cancel, ..n };
                if action == "cancel-now"@ {
                    Ok((asked, "cancelling now; the chapter in flight is discarded"@, true))
                } else {
                    Ok((asked, "cancelling after the chapter in flight"@, false))
                }
            },
            JobState::Queued | JobState::Paused => Ok(
                (JobView { state: JobState::Cancelled, ..n }, "cancelled"@, false),
            ),
            s => Err((409u16, "cannot cancel a "@ + state_name(s) + " job"@)),
        }
    } else {
        Err(
            (404u16, "no such action `"@ + action
                + "`; use pause, pause-now, resume, cancel or cancel-now"@),
        )
    }
}

/// The name of the chapter that a running job narrates.
pub open spec fn chapter_in_flight(j: JobView) -> Seq<char> {
    let i = match j.next_chapter() {
        Some(i) => i,
        None => 0,
    };
    if i < j.chapters.len() {
        j.chapters[i].name
    } else {
        "the chapter in flight"@
    }
}

impl JobView {
    /// The next chapter is a chapter.
    pub proof fn unfinished_is_a_chapter(self, i: int)
        requires
            0 <= i,
        ensures
            self.unfinished_from(i) is Some ==> i <= self.unfinished_from(i).unwrap()
                < self.chapters.len() && !(self.chapters[self.unfinished_from(i).unwrap()].state
                is Done),
            self.unfinished_from(i) is None <==> forall|k: int|
                i <= k < self.chapters.len() ==> (#[trigger] self.chapters[k]).state is Done,
        decreases self.chapters.len() - i,
    {
        if i < self.chapters.len() {
            if self.chapters[i].state is Done {
                self.unfinished_is_a_chapter(i + 1);
                if self.unfinished_from(i) is None {
                    assert forall|k: int| i <= k < self.chapters.len() implies (
                    #[trigger] self.chapters[k]).state is Done by {
                        if k > i {
                            assert(i + 1 <= k);
                        }
                    }
                }
            }
        }
    }
}

impl Job {
    /// The chapter to narrate next: the first that is not done.
    pub fn next_chapter(&self) -> (r: Option<usize>)
        ensures
            match r {
                Some(i) => self@.next_chapter() == Some(i as int) && i < self.chapters@.len(),
                None => self@.next_chapter() is None,
            },
    {
        let mut i: usize = 0;
        while i < self.chapters.len()
            invariant
                i <= self.chapters@.len(),
                self@.next_chapter() == self@.unfinished_from(i as int),
            decreases self.chapters.len() - i,
        {
            assert(self@.chapters[i as int] == self.chapters@[i as int]@);
            match self.chapters[i].state {
                ChapterState::Done => {},
                _ => {
                    return Some(i);
                },
            }
            i = i + 1;
        }
        None
    }

    /// Whether the job has work to do.
    pub fn is_runnable(&self) -> (r: bool)
        ensures
            r == self@.runnable(),
    {
        self.state.is_active() && self.next_chapter().is_some()
    }

    /// Replaces a chapter.
    fn put_chapter(&mut self, i: usize, c: Chapter)
        requires
            i < old(self).chapters@.len(),
        ensures
            final(self)@ == old(self)@.with_chapter(i as int, c@),
            final(self).chapters@.len() == old(self).chapters@.len(),
    {
        let ghost before = chapters_view(self.chapters@);
        self.chapters.set(i, c);
        assert(chapters_view(self.chapters@) =~= before.update(i as int, c@));
    }

    /// A copy of a chapter with another state.
    fn chapter_as(&self, i: usize, state: ChapterState) -> (r: Chapter)
        requires
            i < self.chapters@.len(),
        ensures
            r@ == (ChapterView { state, ..self@.chapters[i as int] }),
    {
        assert(self@.chapters[i as int] == self.chapters@[i as int]@);
        let c = &self.chapters[i];
        Chapter {
            name: c.name.clone(),
            text_path: c.text_path.clone(),
            wav_path: c.wav_path.clone(),
            words: c.words,
            state,
            audio_us: c.audio_us,
            wall_us: c.wall_us,
            error: crate::mtoken::copy_opt(&c.error),
        }
    }

    /// The job before its next chapter, and what is to be done.
    pub fn begin(self, pid: u32, now: u64) -> (r: (Job, Step))
        ensures
            r.0@ == self@.begun(pid, now),
            match r.1 {
                Step::Narrate(i) => self@.begun_chapter() == Some(i as int) && i
                    < r.0.chapters@.len(),
                Step::Rest => self@.begun_chapter() is None,
            },
    {
        let mut job = self;
        job.updated = now;
        match job.request {
            JobRequest::Pause => {
                job.state = JobState::Paused;
                job.request = JobRequest::Nothing;
                job.pid = None;
                (job, Step::Rest)
            },
            JobRequest::Cancel => {
                job.state = JobState::Cancelled;
                job.request = JobRequest::Nothing;
                job.pid = None;
                (job, Step::Rest)
            },
            JobRequest::Nothing => {
                proof {
                    same_chapters(self@, job@, 0);
                }
                match job.next_chapter() {
                    None => {
                        job.state = JobState::Done;
                        job.pid = None;
                        (job, Step::Rest)
                    },
                    Some(i) => {
                        job.state = JobState::Running;
                        job.pid = Some(pid);
                        let c = job.chapter_as(i, ChapterState::Running);
                        job.put_chapter(i, c);
                        (job, Step::Narrate(i))
                    },
                }
            },
        }
    }

    /// The job after its chapter `i` came to an end. A control request may have arrived
    /// while the chapter ran: it is on the record rather than on the copy that the runner
    /// held, and comes in as `request`.
    pub fn settle(self, i: usize, request: JobRequest, outcome: Outcome, now: u64) -> (r: Job)
        requires
            i < self.chapters@.len(),
        ensures
            r@ == self@.settled(i as int, request, outcome@, now),
    {
        let mut job = self;
        job.updated = now;
        job.request = request;
        let ghost j = job@;
        match outcome {
            Outcome::Narrated(audio_us, wall_us) => {
                let mut c = job.chapter_as(i, ChapterState::Done);
                c.audio_us = Some(audio_us);
                c.wall_us = Some(wall_us);
                c.error = None;
                job.put_chapter(i, c);
                if job.next_chapter().is_none() {
                    job.state = JobState::Done;
                    job.pid = None;
                }
                job
            },
            Outcome::Stopped => {
                let c = job.chapter_as(i, ChapterState::Pending);
                job.put_chapter(i, c);
                job.state = match request {
                    JobRequest::Cancel => JobState::Cancelled,
                    _ => JobState::Paused,
                };
                job.request = JobRequest::Nothing;
                job.pid = None;
                job
            },
            Outcome::Broken(message) => {
                assert(j.chapters[i as int] == job.chapters@[i as int]@);
                let detail = cat3(
                    job.chapters[i].name.as_str(),
                    " failed: ",
                    message.as_str(),
                );
                let mut c = job.chapter_as(i, ChapterState::Failed);
                c.error = Some(message);
                job.put_chapter(i, c);
                job.state = JobState::Failed;
                job.error = Some(detail);
                job.pid = None;
                job
            },
        }
    }

    /// The job after it was submitted once more.
    pub fn resubmit(self) -> (r: Job)
        ensures
            r@ == self@.resubmitted(),
    {
        let mut job = self;
        job.state = if job.next_chapter().is_none() {
            JobState::Done
        } else {
            JobState::Queued
        };
        job.request = JobRequest::Nothing;
        job.error = None;
        job
    }

    fn in_flight(&self) -> (r: String)
        ensures
            r@ == chapter_in_flight(self@),
    {
        proof {
            self@.unfinished_is_a_chapter(0);
        }
        let i: usize = match self.next_chapter() {
            Some(i) => i,
            None => 0,
        };
        if i < self.chapters.len() {
            assert(self@.chapters[i as int] == self.chapters@[i as int]@);
            self.chapters[i].name.clone()
        } else {
            "the chapter in flight".to_owned()
        }
    }

    fn refuse(verb: &str, state: JobState) -> (r: ApiError)
        ensures
            is_error(r, 409, verb@ + state_name(state) + " job"@),
    {
        let detail = cat3(verb, state.name(), " job");
        ApiError { status: 409, detail }
    }

    /// `pause`, `pause-now`, `resume`, `cancel` or `cancel-now`.
    pub fn control(self, action: &str, now: u64) -> (r: Result<Controlled, ApiError>)
        ensures
            match r {
                Ok(c) => controlled(self@, action@, now) == Ok::<
                    (JobView, Seq<char>, bool),
                    (u16, Seq<char>),
                >((c.job@, c.note@, c.interrupt)),
                Err(e) => controlled(self@, action@, now) == Err::<
                    (JobView, Seq<char>, bool),
                    (u16, Seq<char>),
                >((e.status, e.detail@)),
            },
    {
        let mut job = self;
        job.updated = now;
        proof {
            same_chapters(self@, job@, 0);
            self@.unfinished_is_a_chapter(0);
        }
        if str_eq(action, "pause") || str_eq(action, "pause-now") {
            match job.state {
                JobState::Running => {
                    let at_once = str_eq(action, "pause-now");
                    let note = if at_once {
                        let name = job.in_flight();
                        cat3(
                            "stopping ",
                            name.as_str(),
                            " now; it will be narrated again from the start on resume",
                        )
                    } else {
                        "pausing after the chapter in flight, so its work is kept".to_owned()
                    };
                    job.request = JobRequest::Pause;
                    Ok(Controlled { job, note, interrupt: at_once })
                },
                JobState::Queued => {
                    job.state = JobState::Paused;
                    let note = "paused before starting".to_owned();
                    Ok(Controlled { job, note, interrupt: false })
                },
                other => Err(Self::refuse("cannot pause a ", other)),
            }
        } else if str_eq(action, "resume") {
            match job.state {
                JobState::Running => {
                    let note = "already running".to_owned();
                    Ok(Controlled { job, note, interrupt: false })
                },
                JobState::Paused | JobState::Failed | JobState::Cancelled => {
                    match job.next_chapter() {
                        None => {
                            job.state = JobState::Done;
                            let note = "nothing left to narrate".to_owned();
                            Ok(Controlled { job, note, interrupt: false })
                        },
                        Some(i) => {
                            assert(self@.chapters[i as int] == job.chapters@[i as int]@);
                            let note = cat("resuming at ", job.chapters[i].name.as_str());
                            job.state = JobState::Queued;
                            job.request = JobRequest::Nothing;
                            job.error = None;
                            Ok(Controlled { job, note, interrupt: false })
                        },
                    }
                },
                other => Err(Self::refuse("cannot resume a ", other)),
            }
        } else if str_eq(action, "cancel") || str_eq(action, "cancel-now") {
            match job.state {
                JobState::Running => {
                    let at_once = str_eq(action, "cancel-now");
                    let note = if at_once {
                        "cancelling now; the chapter in flight is discarded".to_owned()
                    } else {
                        "cancelling after the chapter in flight".to_owned()
                    };
                    job.request = JobRequest::Cancel;
                    Ok(Controlled { job, note, interrupt: at_once })
                },
                other => if other.is_terminal() {
                    Err(Self::refuse("cannot cancel a ", other))
                } else {
                    job.state = JobState::Cancelled;
                    let note = "cancelled".to_owned();
                    Ok(Controlled { job, note, interrupt: false })
                },
            }
        } else {
            let detail = cat3(
                "no such action `",
                action,
                "`; use pause, pause-now, resume, cancel or cancel-now",
            );
            Err(ApiError { status: 404, detail })
        }
    }
}

/// The next chapter depends on the chapters alone.
pub proof fn same_chapters(a: JobView, b: JobView, i: int)
    requires
        a.chapters == b.chapters,
    ensures
        a.unfinished_from(i) == b.unfinished_from(i),
    decreases a.chapters.len() - i,
{
    if 0 <= i < a.chapters.len() {
        same_chapters(a, b, i + 1);
    }
}

/// The meaning of a list of jobs.
pub open spec fn jobs_view(v: Seq<Job>) -> Seq<JobView> {
    v.map_values(|j: Job| j@)
}

/// Whether job `i` is to run before job `j`: it is older, or as old and listed first.
pub open spec fn runs_before(v: Seq<JobView>, i: int, j: int) -> bool {
    v[i].created < v[j].created || (v[i].created == v[j].created && i <= j)
}

/// The oldest job with work to do, so that a queue is first in, first out, and a long book
/// cannot be starved by newer submissions.
pub fn next_runnable(jobs: &Vec<Job>) -> (r: Option<usize>)
    ensures
        ({
            let v = jobs_view(jobs@);
            match r {
                Some(i) => i < v.len() && v[i as int].runnable() && forall|j: int|
                    0 <= j < v.len() && (#[trigger] v[j]).runnable() ==> runs_before(
                        v,
                        i as int,
                        j,
                    ),
                None => forall|j: int| 0 <= j < v.len() ==> !(#[trigger] v[j]).runnable(),
            }
        }),
{
    let ghost v = jobs_view(jobs@);
    let mut best: Option<usize> = None;
    let mut i: usize = 0;
    while i < jobs.len()
        invariant
            i <= jobs@.len(),
            v == jobs_view(jobs@),
            match best {
                Some(b) => b < i && v[b as int].runnable() && forall|j: int|
                    0 <= j < i && (#[trigger] v[j]).runnable() ==> runs_before(v, b as int, j),
                None => forall|j: int| 0 <= j < i ==> !(#[trigger] v[j]).runnable(),
            },
        decreases jobs.len() - i,
    {
        assert(v[i as int] == jobs@[i as int]@);
        if jobs[i].is_runnable() {
            match best {
                None => {
                    best = Some(i);
                },
                Some(b) => {
                    assert(v[b as int] == jobs@[b as int]@);
                    if jobs[i].created < jobs[b].created {
                        best = Some(i);
                    }
                },
            }
        }
        i = i + 1;
    }
    best
}

/// How many of the first `n` jobs are active and alive.
pub open spec fn busy_count(jobs: Seq<JobView>, stale: Seq<bool>, n: int) -> nat
    decreases n,
{
    if n <= 0 {
        0
    } else {
        busy_count(jobs, stale, n - 1) + (if active(jobs[n - 1].state) && !stale[n - 1] {
            1nat
        } else {
            0nat
        })
    }
}

/// How many jobs are active, leaving out those whose process is gone.
pub fn count_active(jobs: &Vec<Job>, stale: &Vec<bool>) -> (r: usize)
    requires
        jobs@.len() == stale@.len(),
    ensures
        r == busy_count(jobs_view(jobs@), stale@, jobs@.len() as int),
{
    let ghost v = jobs_view(jobs@);
    let mut n: usize = 0;
    let mut i: usize = 0;
    while i < jobs.len()
        invariant
            n <= i <= jobs@.len() == stale@.len(),
            v == jobs_view(jobs@),
            n == busy_count(v, stale@, i as int),
        decreases jobs.len() - i,
    {
        assert(v[i as int] == jobs@[i as int]@);
        if jobs[i].state.is_active() && !stale[i] {
            n = n + 1;
        }
        i = i + 1;
    }
    n
}

/// What the engine reports of a chapter.
pub enum ProgressEvent {
    /// How many segments there are.
    Planned(usize),
    /// A stage, and how many of its segments are done.
    Advanced(String, usize, usize),
}

/// A stage of a chapter and how far it is.
pub struct StageProgress {
    pub stage: String,
    pub done: usize,
    pub total: usize,
}

/// Where the running chapter is.
pub struct Progress {
    pub job: String,
    pub chapter_index: usize,
    pub chapter: String,
    pub chapters_total: usize,
    pub stage: StageProgress,
    pub elapsed_us: u64,
    pub eta_us: Option<u64>,
    pub words_done: u64,
    pub words_total: u64,
}

/// What the runner publishes.
pub enum Update {
    /// Where the running chapter is, several times a second.
    Progress(Progress),
    /// A job changed state, or a chapter finished.
    Job(Box<Job>),
}

impl Update {
    /// The job that an update is about.
    pub open spec fn subject(&self) -> Seq<char> {
        match *self {
            Update::Progress(p) => p.job@,
            Update::Job(j) => j.id@,
        }
    }

    /// Whether an update is about a job, and so for those who watch it.
    pub fn is_about(&self, id: &str) -> (r: bool)
        ensures
            r == (self.subject() == id@),
    {
        match self {
            Update::Progress(p) => str_eq(p.job.as_str(), id),
            Update::Job(j) => str_eq(j.id.as_str(), id),
        }
    }
}

/// What stays the same of a chapter while it is narrated.
pub struct ChapterProgress {
    pub job: String,
    pub chapter: String,
    pub chapter_index: usize,
    pub chapters_total: usize,
    pub words_done: u64,
    pub words_total: u64,
    pub eta_us: Option<u64>,
}

impl ChapterProgress {
    /// The progress of chapter `index` of a job, whose words and remaining time are known.
    pub fn new(
        job: &Job,
        index: usize,
        words_done: u64,
        words_total: u64,
        eta_us: Option<u64>,
    ) -> (r: ChapterProgress)
        requires
            index < job.chapters@.len(),
        ensures
            r.job@ == job.id@,
            r.chapter@ == job@.chapters[index as int].name,
            r.chapter_index == index,
            r.chapters_total == job.chapters@.len(),
            r.words_done == words_done,
            r.words_total == words_total,
            r.eta_us == eta_us,
    {
        assert(job@.chapters[index as int] == job.chapters@[index as int]@);
        ChapterProgress {
            job: job.id.clone(),
            chapter: job.chapters[index].name.clone(),
            chapter_index: index,
            chapters_total: job.chapters.len(),
            words_done,
            words_total,
            eta_us,
        }
    }

    /// The snapshot that an event of the engine makes. A plan names no stage: publishing it
    /// as one keeps a watcher from sitting at nothing through a long first stage.
    pub fn on(&self, event: ProgressEvent, elapsed_us: u64) -> (r: Progress)
        ensures
            r.job@ == self.job@,
            r.chapter@ == self.chapter@,
            r.chapter_index == self.chapter_index,
            r.chapters_total == self.chapters_total,
            r.words_done == self.words_done,
            r.words_total == self.words_total,
            r.eta_us == self.eta_us,
            r.elapsed_us == elapsed_us,
            match event {
                ProgressEvent::Planned(n) => r.stage.stage@ == "planned"@ && r.stage.done == 0
                    && r.stage.total == n,
                ProgressEvent::Advanced(s, d, t) => r.stage.stage@ == s@ && r.stage.done == d
                    && r.stage.total == t,
            },
    {
        let stage = match event {
            ProgressEvent::Planned(n) => StageProgress {
                stage: "planned".to_owned(),
                done: 0,
                total: n,
            },
            ProgressEvent::Advanced(stage, done, total) => StageProgress { stage, done, total },
        };
        Progress {
            job: self.job.clone(),
            chapter_index: self.chapter_index,
            chapter: self.chapter.clone(),
            chapters_total: self.chapters_total,
            stage,
            elapsed_us,
            eta_us: self.eta_us,
            words_done: self.words_done,
            words_total: self.words_total,
        }
    }
}

/// A submission of a document to narrate.
pub struct Submit {
    /// What to call the run, for a human. The document's path, usually.
    pub source: String,
    /// Narration text files, in reading order.
    pub texts: Vec<String>,
    pub out_dir: String,
    pub voice: Option<String>,
    pub quant: Option<String>,
    pub seed: Option<u64>,
}

impl Submit {
    /// The voice of the run: the one that was named, else that of the server.
    pub fn voice_or(&self, server: &str) -> (r: String)
        ensures
            r@ == (match self.voice {
                Some(v) => v@,
                None => server@,
            }),
    {
        match &self.voice {
            Some(v) => v.clone(),
            None => server.to_owned(),
        }
    }
}

} // verus!
