//! The downloader's job table and retry queue: how process output, exits,
//! the hang watchdog, cancellations and automatic retries change a job,
//! and which jobs the table keeps. The processes themselves, their output
//! channels and progress fractions belong to the caller, which keeps them
//! in each job's `runtime` slot and feeds events in.

use vstd::prelude::*;
use vstd::multiset::Multiset;
use crate::download_options::DownloadOptions;
use crate::downloader::{
    convert_paths, convert_paths_spec, finish_class, finish_class_spec, finished_state,
    push_log_line, capped_log, retry_decision, retry_decision_spec, watchdog_should_kill,
    ConvertSpec, DownloadQuality, JobState, RetryDecision, AUTO_RETRY_COOLDOWN_SECS,
    HANG_TIMEOUT_SECS, JOB_LOG_CAP, MAX_AUTO_RETRIES,
};
use crate::error_class::{label_of, ErrorClass};
use crate::num::{dec, push_dec};
use crate::platform::UrlInfo;
use crate::text::{chars_of, extend_str, string_of, strings};

verus! {

/// The inputs needed to rebuild a download's command for a retry.
#[derive(Clone, Debug)]
pub struct RetrySpec {
    pub url: String,
    pub info: UrlInfo,
    pub full_scan: bool,
    pub quality: DownloadQuality,
    pub live: bool,
    pub opts: Option<DownloadOptions>,
}

/// One tracked yt-dlp or ffmpeg invocation. `runtime` is whatever the
/// caller needs to follow the process (its output channel, progress).
/// Times are seconds on the caller's monotonic clock.
pub struct Job<R> {
    pub url: String,
    /// Short label shown in the UI.
    pub label: String,
    pub state: JobState,
    /// Rolling log, at most [`JOB_LOG_CAP`] lines.
    pub log: Vec<String>,
    /// Failure class, set on the failure transition.
    pub failure_class: Option<ErrorClass>,
    /// Inputs to re-run the job (`None`: not retryable).
    pub retry_spec: Option<RetrySpec>,
    /// Automatic retries already spent.
    pub retry_count: u8,
    /// The failure has been looked at by the retry scan.
    pub retry_handled: bool,
    /// Conversion to run on the job's finished files.
    pub convert_on_finish: Option<ConvertSpec>,
    /// The conversion pass has been scheduled (or was never due).
    pub convert_handled: bool,
    /// Process id, for the watchdog and cancellation.
    pub child_pid: Option<u32>,
    /// Last time the job produced output or progress.
    pub last_activity: u64,
    /// The watchdog killed the process.
    pub watchdog_killed: bool,
    /// The user cancelled the job.
    pub cancelled: bool,
    pub runtime: R,
}

/// `⏱ watchdog: no output for 300s — killed (will auto-retry)`.
pub open spec fn watchdog_line() -> Seq<char> {
    "⏱ watchdog: no output for "@ + dec(HANG_TIMEOUT_SECS as nat) + "s — killed (will auto-retry)"@
}

/// `↻ auto-retry <n>/2 scheduled in 90s (transient <class>)`.
pub open spec fn retry_line(attempt: u8, class: ErrorClass) -> Seq<char> {
    "↻ auto-retry "@ + dec(attempt as nat) + "/"@ + dec(MAX_AUTO_RETRIES as nat) + " scheduled in "@
        + dec(AUTO_RETRY_COOLDOWN_SECS as nat) + "s (transient "@ + label_of(class) + ")"@
}

/// `⛔ cancelled by user`.
pub open spec fn cancel_line() -> Seq<char> {
    "⛔ cancelled by user"@
}

impl<R> Job<R> {
    /// The log respects its cap.
    pub open spec fn wf(&self) -> bool {
        self.log@.len() <= JOB_LOG_CAP
    }

    /// A freshly spawned download: running, empty log, its retry and
    /// conversion still to be looked at.
    pub fn started(
        url: String,
        label: String,
        child_pid: Option<u32>,
        retry_spec: Option<RetrySpec>,
        retry_count: u8,
        convert_on_finish: Option<ConvertSpec>,
        now: u64,
        runtime: R,
    ) -> (j: Self)
        ensures
            j.wf(),
            j.url == url && j.label == label && j.runtime == runtime,
            j.state == JobState::Running,
            j.log@.len() == 0,
            j.failure_class is None,
            j.retry_spec == retry_spec && j.retry_count == retry_count,
            !j.retry_handled,
            j.convert_on_finish == convert_on_finish && !j.convert_handled,
            j.child_pid == child_pid && j.last_activity == now,
            !j.watchdog_killed && !j.cancelled,
    {
        Job {
            url,
            label,
            state: JobState::Running,
            log: Vec::new(),
            failure_class: None,
            retry_spec,
            retry_count,
            retry_handled: false,
            convert_on_finish,
            convert_handled: false,
            child_pid,
            last_activity: now,
            watchdog_killed: false,
            cancelled: false,
            runtime,
        }
    }

    /// A freshly spawned ffmpeg pass: running, never retried, never
    /// converted again.
    pub fn transcode(url: String, label: String, child_pid: Option<u32>, now: u64, runtime: R) -> (j:
        Self)
        ensures
            j.wf(),
            j.url == url && j.label == label && j.runtime == runtime,
            j.state == JobState::Running,
            j.log@.len() == 0,
            j.failure_class is None,
            j.retry_spec is None && j.retry_count == 0 && j.retry_handled,
            j.convert_on_finish is None && j.convert_handled,
            j.child_pid == child_pid && j.last_activity == now,
            !j.watchdog_killed && !j.cancelled,
    {
        Job {
            url,
            label,
            state: JobState::Running,
            log: Vec::new(),
            failure_class: None,
            retry_spec: None,
            retry_count: 0,
            retry_handled: true,
            convert_on_finish: None,
            convert_handled: true,
            child_pid,
            last_activity: now,
            watchdog_killed: false,
            cancelled: false,
            runtime,
        }
    }

    /// A job that never started (a failed preflight or spawn): failed with
    /// `class`, its log the line `[preflight] <reason>`, never retried.
    pub fn synthetic_failure(
        url: String,
        label: String,
        class: ErrorClass,
        reason: &str,
        now: u64,
        runtime: R,
    ) -> (j: Self)
        ensures
            j.wf(),
            j.url == url && j.label == label && j.runtime == runtime,
            j.state == JobState::Failed,
            strings(j.log@) == seq!["[preflight] "@ + reason@],
            j.failure_class == Some(class),
            j.retry_spec is None && j.retry_count == 0 && j.retry_handled,
            j.convert_on_finish is None && j.convert_handled,
            j.child_pid is None && j.last_activity == now,
            !j.watchdog_killed && !j.cancelled,
    {
        let mut line: Vec<char> = Vec::new();
        extend_str(&mut line, "[preflight] ");
        extend_str(&mut line, reason);
        let mut log: Vec<String> = Vec::new();
        log.push(string_of(&line));
        assert(strings(log@) =~= seq!["[preflight] "@ + reason@]);
        Job {
            url,
            label,
            state: JobState::Failed,
            log,
            failure_class: Some(class),
            retry_spec: None,
            retry_count: 0,
            retry_handled: true,
            convert_on_finish: None,
            convert_handled: true,
            child_pid: None,
            last_activity: now,
            watchdog_killed: false,
            cancelled: false,
            runtime,
        }
    }

    /// Whether the job can be re-run by hand (it kept its inputs).
    pub fn has_retry_spec(&self) -> (b: bool)
        ensures
            b == self.retry_spec is Some,
    {
        self.retry_spec.is_some()
    }

    /// The process printed `line`: it joins the capped log and counts as
    /// activity.
    pub fn on_line(&mut self, line: String, now: u64)
        ensures
            strings(final(self).log@) == capped_log(strings(old(self).log@), line@),
            final(self).wf(),
            final(self).last_activity == now,
            final(self).state == old(self).state,
            final(self).failure_class == old(self).failure_class,
            final(self).retry_handled == old(self).retry_handled,
            final(self).convert_handled == old(self).convert_handled,
            final(self).watchdog_killed == old(self).watchdog_killed,
            final(self).cancelled == old(self).cancelled,
            final(self).child_pid == old(self).child_pid,
            final(self).retry_count == old(self).retry_count,
    {
        push_log_line(&mut self.log, line);
        self.last_activity = now;
    }

    /// The process reported progress: activity, nothing else.
    pub fn on_progress(&mut self, now: u64)
        ensures
            final(self).last_activity == now,
            final(self).log == old(self).log,
            final(self).state == old(self).state,
            final(self).failure_class == old(self).failure_class,
            final(self).watchdog_killed == old(self).watchdog_killed,
    {
        self.last_activity = now;
    }

    /// The process exited (`ok`: success): the job is done or failed, and
    /// a first failure is classified — a watchdog kill as a network error,
    /// else from the log.
    pub fn on_finished(&mut self, ok: bool)
        ensures
            final(self).state == (if ok {
                JobState::Done
            } else {
                JobState::Failed
            }),
            final(self).failure_class == finish_class_spec(
                ok,
                old(self).failure_class,
                old(self).watchdog_killed,
                strings(old(self).log@),
            ),
            final(self).log == old(self).log,
            final(self).last_activity == old(self).last_activity,
            final(self).retry_handled == old(self).retry_handled,
            final(self).convert_handled == old(self).convert_handled,
            final(self).watchdog_killed == old(self).watchdog_killed,
            final(self).cancelled == old(self).cancelled,
            final(self).retry_count == old(self).retry_count,
    {
        self.state = finished_state(ok);
        self.failure_class = finish_class(ok, self.failure_class, self.watchdog_killed, &self.log);
    }

    /// The hang watchdog at time `now`: a running, not yet killed job with
    /// a process that has been silent for [`HANG_TIMEOUT_SECS`] is marked
    /// killed, its activity reset and a notice logged; the caller then
    /// kills the process. Returns whether that happened.
    pub fn watchdog(&mut self, now: u64) -> (kill: bool)
        requires
            old(self).wf(),
        ensures
            kill == watchdog_should_kill_spec(*old(self), now),
            final(self).wf(),
            kill ==> {
                &&& final(self).watchdog_killed
                &&& final(self).last_activity == now
                &&& strings(final(self).log@) == capped_log(strings(old(self).log@), watchdog_line())
            },
            !kill ==> final(self).watchdog_killed == old(self).watchdog_killed && final(self).last_activity
                == old(self).last_activity && final(self).log == old(self).log,
            final(self).state == old(self).state,
            final(self).failure_class == old(self).failure_class,
            final(self).retry_handled == old(self).retry_handled,
            final(self).cancelled == old(self).cancelled,
    {
        let idle = now.saturating_sub(self.last_activity);
        if !watchdog_should_kill(self.state, self.watchdog_killed, self.child_pid.is_some(), idle) {
            return false;
        }
        self.watchdog_killed = true;
        self.last_activity = now;
        let mut line: Vec<char> = Vec::new();
        extend_str(&mut line, "⏱ watchdog: no output for ");
        push_dec(&mut line, HANG_TIMEOUT_SECS);
        extend_str(&mut line, "s — killed (will auto-retry)");
        push_log_line(&mut self.log, string_of(&line));
        true
    }

    /// The retry scan: a failed job not yet looked at is marked handled
    /// and gets [`retry_decision`] of its class, spent retries and inputs;
    /// a scheduled retry is announced in the log. Any other job is left
    /// alone and asks for nothing.
    pub fn take_retry(&mut self) -> (d: RetryDecision)
        requires
            old(self).wf(),
        ensures
            final(self).wf(),
            (d.engage_backoff, d.next_attempt) == retry_outcome(*old(self)),
            (old(self).retry_handled || old(self).state != JobState::Failed) ==> {
                &&& final(self).retry_handled == old(self).retry_handled
                &&& final(self).log == old(self).log
            },
            !(old(self).retry_handled || old(self).state != JobState::Failed) ==> {
                &&& final(self).retry_handled
                &&& strings(final(self).log@) == match d.next_attempt {
                    Some(n) => capped_log(
                        strings(old(self).log@),
                        retry_line(n, old(self).failure_class->0),
                    ),
                    None => strings(old(self).log@),
                }
            },
            final(self).state == old(self).state,
            final(self).failure_class == old(self).failure_class,
            final(self).retry_count == old(self).retry_count,
            final(self).cancelled == old(self).cancelled,
    {
        if self.retry_handled || self.state != JobState::Failed {
            return RetryDecision { engage_backoff: false, next_attempt: None };
        }
        self.retry_handled = true;
        let d = retry_decision(self.failure_class, self.retry_count, self.retry_spec.is_some());
        if let Some(n) = d.next_attempt {
            let class = self.failure_class.unwrap();
            let mut line: Vec<char> = Vec::new();
            extend_str(&mut line, "↻ auto-retry ");
            push_dec(&mut line, n as u64);
            extend_str(&mut line, "/");
            push_dec(&mut line, MAX_AUTO_RETRIES as u64);
            extend_str(&mut line, " scheduled in ");
            push_dec(&mut line, AUTO_RETRY_COOLDOWN_SECS);
            extend_str(&mut line, "s (transient ");
            extend_str(&mut line, class.label());
            extend_str(&mut line, ")");
            push_log_line(&mut self.log, string_of(&line));
        }
        d
    }

    /// The user cancels the job at time `now`: only a running job can be
    /// cancelled; it is marked cancelled and never auto-retried, and the
    /// cancellation is logged. The caller kills its process. Returns
    /// whether the job was running.
    pub fn cancel(&mut self, now: u64) -> (b: bool)
        requires
            old(self).wf(),
        ensures
            final(self).wf(),
            b == (old(self).state == JobState::Running),
            b ==> {
                &&& final(self).cancelled && final(self).retry_handled
                &&& final(self).last_activity == now
                &&& strings(final(self).log@) == capped_log(strings(old(self).log@), cancel_line())
            },
            !b ==> final(self).cancelled == old(self).cancelled && final(self).retry_handled
                == old(self).retry_handled && final(self).log == old(self).log
                && final(self).last_activity == old(self).last_activity,
            final(self).state == old(self).state,
            final(self).failure_class == old(self).failure_class,
    {
        if self.state != JobState::Running {
            return false;
        }
        self.cancelled = true;
        self.retry_handled = true;
        self.last_activity = now;
        push_log_line(&mut self.log, String::from_str("⛔ cancelled by user"));
        proof {
            reveal_strlit("⛔ cancelled by user");
        }
        true
    }

    /// The conversion scan: a finished-successfully job not yet looked at
    /// is marked handled and, when it carries a conversion, hands out the
    /// file paths its run printed (see [`convert_paths`]). Any other job
    /// hands out nothing.
    pub fn take_conversions(&mut self) -> (paths: Vec<String>)
        ensures
            final(self).convert_handled == (old(self).convert_handled || old(self).state
                == JobState::Done),
            strings(paths@) == if !old(self).convert_handled && old(self).state == JobState::Done
                && old(self).convert_on_finish is Some {
                convert_paths_spec(strings(old(self).log@))
            } else {
                seq![]
            },
            final(self).log == old(self).log,
            final(self).state == old(self).state,
            final(self).retry_handled == old(self).retry_handled,
    {
        if self.convert_handled || self.state != JobState::Done {
            let v: Vec<String> = Vec::new();
            assert(strings(v@) =~= seq![]);
            return v;
        }
        self.convert_handled = true;
        if self.convert_on_finish.is_none() {
            let v: Vec<String> = Vec::new();
            assert(strings(v@) =~= seq![]);
            return v;
        }
        convert_paths(&self.log)
    }
}

/// What the retry scan asks for a job: `(engage the backoff, attempt to
/// schedule)` — nothing for a job already looked at or not failed.
pub open spec fn retry_outcome<R>(j: Job<R>) -> (bool, Option<u8>) {
    if j.retry_handled || j.state != JobState::Failed {
        (false, None)
    } else {
        retry_decision_spec(j.failure_class, j.retry_count, j.retry_spec is Some)
    }
}

/// A job the user cancelled, or one already scanned, is never retried
/// automatically and never engages the backoff.
pub proof fn lemma_handled_never_retried<R>(j: Job<R>)
    requires
        j.retry_handled,
    ensures
        retry_outcome(j) == (false, Option::<u8>::None),
{
}

/// An automatic retry only follows a transient failure of a job that kept
/// its inputs, is the next attempt, and never goes past
/// [`MAX_AUTO_RETRIES`].
pub proof fn lemma_retry_bounded<R>(j: Job<R>)
    ensures
        retry_outcome(j).1 matches Some(a) ==> {
            &&& a == j.retry_count + 1
            &&& 1 <= a <= MAX_AUTO_RETRIES
            &&& j.state == JobState::Failed
            &&& j.retry_spec is Some
            &&& (j.failure_class == Some(ErrorClass::RateLimited) || j.failure_class == Some(
                ErrorClass::NetworkError,
            ))
        },
        retry_outcome(j).0 ==> j.failure_class == Some(ErrorClass::RateLimited),
{
}

/// A job the watchdog killed that then exits with a failure is classified
/// as a network error, which is retried automatically while attempts
/// remain.
pub proof fn lemma_watchdog_kill_is_retryable(
    existing: Option<ErrorClass>,
    log: Seq<Seq<char>>,
    retry_count: u8,
)
    requires
        existing is None,
        retry_count < MAX_AUTO_RETRIES,
    ensures
        finish_class_spec(false, existing, true, log) == Some(ErrorClass::NetworkError),
        retry_decision_spec(finish_class_spec(false, existing, true, log), retry_count, true).1 == Some(
            (retry_count + 1) as u8,
        ),
{
}

/// Whether the watchdog fires on `j` at time `now`.
pub open spec fn watchdog_should_kill_spec<R>(j: Job<R>, now: u64) -> bool {
    let idle = if now >= j.last_activity {
        now - j.last_activity
    } else {
        0
    };
    j.state == JobState::Running && !j.watchdog_killed && j.child_pid is Some && idle
        >= HANG_TIMEOUT_SECS
}

// ── The job table ────────────────────────────────────────────────────────────

/// The states of a table of jobs, in order.
pub open spec fn states<R>(jobs: Seq<Job<R>>) -> Seq<JobState> {
    jobs.map_values(|j: Job<R>| j.state)
}

/// How many jobs are running.
pub open spec fn running_in<R>(jobs: Seq<Job<R>>) -> nat
    decreases jobs.len(),
{
    if jobs.len() == 0 {
        0
    } else {
        running_in(jobs.drop_last()) + if jobs.last().state == JobState::Running {
            1nat
        } else {
            0
        }
    }
}

/// The running jobs, in order.
pub open spec fn keep_running<R>(jobs: Seq<Job<R>>) -> Seq<Job<R>>
    decreases jobs.len(),
{
    if jobs.len() == 0 {
        jobs
    } else if jobs.last().state == JobState::Running {
        keep_running(jobs.drop_last()).push(jobs.last())
    } else {
        keep_running(jobs.drop_last())
    }
}

/// Number of running jobs.
pub fn running_count<R>(jobs: &Vec<Job<R>>) -> (n: usize)
    ensures
        n == running_in(jobs@),
{
    let mut n: usize = 0;
    let mut i: usize = 0;
    while i < jobs.len()
        invariant
            i <= jobs@.len(),
            n == running_in(jobs@.take(i as int)),
            n <= i,
        decreases jobs.len() - i,
    {
        assert(jobs@.take(i + 1).drop_last() =~= jobs@.take(i as int));
        if jobs[i].state == JobState::Running {
            n += 1;
        }
        i += 1;
    }
    assert(jobs@.take(i as int) =~= jobs@);
    n
}

/// Whether any job is running.
pub fn any_running<R>(jobs: &Vec<Job<R>>) -> (b: bool)
    ensures
        b == (running_in(jobs@) > 0),
{
    running_count(jobs) > 0
}

/// Drop every finished (done or failed) job, keeping the running ones in
/// order.
pub fn clear_finished<R>(jobs: &mut Vec<Job<R>>)
    ensures
        final(jobs)@ == keep_running(old(jobs)@),
{
    let ghost orig = jobs@;
    let ghost mut k: int = 0;
    let mut i: usize = 0;
    assert(orig.take(0) =~= seq![]);
    assert(orig.skip(0) =~= orig);
    while i < jobs.len()
        invariant
            0 <= i <= k <= orig.len(),
            i <= jobs@.len(),
            jobs@.take(i as int) == keep_running(orig.take(k)),
            jobs@.skip(i as int) == orig.skip(k),
        decreases orig.len() - k,
    {
        let ghost before = jobs@;
        assert(before.skip(i as int).len() == before.len() - i);
        assert(orig.skip(k).len() == orig.len() - k);
        assert(k < orig.len());
        assert(orig.take(k + 1).drop_last() =~= orig.take(k));
        assert(orig.take(k + 1).last() == before[i as int]) by {
            assert(before.skip(i as int)[0] == orig.skip(k)[0]);
        }
        let ghost i0 = i as int;
        assert(before.skip(i0 + 1) =~= before.skip(i0).drop_first());
        assert(orig.skip(k + 1) =~= orig.skip(k).drop_first());
        if jobs[i].state == JobState::Running {
            i += 1;
            assert(jobs@.take(i as int) =~= before.take(i0).push(before[i0]));
        } else {
            jobs.remove(i);
            assert(jobs@.take(i as int) =~= before.take(i as int));
            assert(jobs@.skip(i as int) =~= before.skip(i0 + 1));
        }
        proof {
            k = k + 1;
        }
    }
    assert(jobs@.take(i as int) =~= jobs@);
    assert(orig.skip(k).len() == 0);
    assert(orig.take(k) =~= orig);
}

/// Remove the finished job at `idx`; a running job, or an index past the
/// end, is left alone.
pub fn remove_job<R>(jobs: &mut Vec<Job<R>>, idx: usize)
    ensures
        final(jobs)@ == if idx < old(jobs)@.len() && old(jobs)@[idx as int].state != JobState::Running {
            old(jobs)@.remove(idx as int)
        } else {
            old(jobs)@
        },
{
    if idx < jobs.len() && jobs[idx].state != JobState::Running {
        jobs.remove(idx);
    }
}

/// Clearing the finished jobs keeps exactly the running ones: as many as
/// were running, all of them running, none added.
pub proof fn lemma_keep_running<R>(jobs: Seq<Job<R>>)
    ensures
        keep_running(jobs).len() == running_in(jobs),
        forall|i: int| 0 <= i < keep_running(jobs).len() ==> #[trigger] keep_running(jobs)[i].state
            == JobState::Running,
        forall|i: int| 0 <= i < keep_running(jobs).len() ==> jobs.contains(#[trigger] keep_running(jobs)[i]),
    decreases jobs.len(),
{
    if jobs.len() > 0 {
        lemma_keep_running(jobs.drop_last());
        let k = keep_running(jobs.drop_last());
        assert forall|i: int| 0 <= i < keep_running(jobs).len() implies jobs.contains(
            #[trigger] keep_running(jobs)[i],
        ) by {
            if i < k.len() {
                let w = choose|w: int| 0 <= w < jobs.drop_last().len() && jobs.drop_last()[w] == k[i];
                assert(jobs[w] == k[i]);
            } else {
                assert(jobs[jobs.len() - 1] == keep_running(jobs)[i]);
            }
        }
    }
}

/// Take the finished job at `idx` out of the table for a manual re-run and
/// hand back its inputs. A running job, one without inputs, or an index
/// past the end stays, and nothing comes back.
pub fn take_for_retry<R>(jobs: &mut Vec<Job<R>>, idx: usize) -> (r: Option<RetrySpec>)
    ensures
        ({
            let ok = idx < old(jobs)@.len() && old(jobs)@[idx as int].state != JobState::Running
                && old(jobs)@[idx as int].retry_spec is Some;
            &&& ok ==> r == old(jobs)@[idx as int].retry_spec && final(jobs)@ == old(jobs)@.remove(
                idx as int,
            )
            &&& !ok ==> r is None && final(jobs)@ == old(jobs)@
        }),
{
    if idx < jobs.len() && jobs[idx].state != JobState::Running && jobs[idx].retry_spec.is_some() {
        let j = jobs.remove(idx);
        j.retry_spec
    } else {
        None
    }
}

/// Remove entry `idx` of the queue of not-yet-started jobs. Returns whether
/// there was one.
pub fn cancel_queued<P>(pending: &mut Vec<P>, idx: usize) -> (b: bool)
    ensures
        b == (idx < old(pending)@.len()),
        final(pending)@ == if b {
            old(pending)@.remove(idx as int)
        } else {
            old(pending)@
        },
{
    if idx < pending.len() {
        pending.remove(idx);
        true
    } else {
        false
    }
}

/// The adaptive backoff after a poll: it ends once nothing runs, waits in
/// the queue or waits for a retry.
pub fn backoff_after_poll(backoff: bool, any_running: bool, pending: usize, retries: usize) -> (b: bool)
    ensures
        b == (backoff && (any_running || pending > 0 || retries > 0)),
{
    if !any_running && pending == 0 && retries == 0 {
        false
    } else {
        backoff
    }
}

// ── The retry queue ──────────────────────────────────────────────────────────

/// A retry waiting for its cooldown.
#[derive(Clone, Debug)]
pub struct RetryTicket {
    /// When it fires, on the caller's clock.
    pub fire_at: u64,
    pub spec: RetrySpec,
    /// The attempt number it starts.
    pub attempt: u8,
}

/// Queue a retry of `spec` as attempt `attempt`, firing after the linear
/// cooldown (`attempt` × [`AUTO_RETRY_COOLDOWN_SECS`]) from `now`.
pub fn schedule_retry(queue: &mut Vec<RetryTicket>, now: u64, spec: RetrySpec, attempt: u8)
    requires
        now + AUTO_RETRY_COOLDOWN_SECS * attempt <= u64::MAX,
    ensures
        final(queue)@.len() == old(queue)@.len() + 1,
        final(queue)@.take(old(queue)@.len() as int) == old(queue)@,
        final(queue)@.last().fire_at == now + AUTO_RETRY_COOLDOWN_SECS * attempt,
        final(queue)@.last().attempt == attempt,
        final(queue)@.last().spec == spec,
{
    let at = now + AUTO_RETRY_COOLDOWN_SECS * (attempt as u64);
    queue.push(RetryTicket { fire_at: at, spec, attempt });
    assert(queue@.take(old(queue)@.len() as int) =~= old(queue)@);
}

/// The tickets due at `now` (fire time reached), in queue order.
pub open spec fn due_at(q: Seq<RetryTicket>, now: u64) -> Seq<RetryTicket>
    decreases q.len(),
{
    if q.len() == 0 {
        q
    } else if q.last().fire_at <= now {
        due_at(q.drop_last(), now).push(q.last())
    } else {
        due_at(q.drop_last(), now)
    }
}

/// The tickets still waiting at `now`, in queue order.
pub open spec fn waiting_at(q: Seq<RetryTicket>, now: u64) -> Seq<RetryTicket>
    decreases q.len(),
{
    if q.len() == 0 {
        q
    } else if q.last().fire_at > now {
        waiting_at(q.drop_last(), now).push(q.last())
    } else {
        waiting_at(q.drop_last(), now)
    }
}

/// Take the due tickets out of the queue, in order; the others stay, in
/// order.
pub fn take_due(queue: &mut Vec<RetryTicket>, now: u64) -> (due: Vec<RetryTicket>)
    ensures
        due@ == due_at(old(queue)@, now),
        final(queue)@ == waiting_at(old(queue)@, now),
{
    let ghost orig = queue@;
    let mut due: Vec<RetryTicket> = Vec::new();
    let mut waiting: Vec<RetryTicket> = Vec::new();
    assert(orig.skip(0) =~= orig);
    while queue.len() > 0
        invariant
            0 <= queue@.len() <= orig.len(),
            queue@ == orig.skip(orig.len() - queue@.len()),
            due@ == due_at(orig.take(orig.len() - queue@.len()), now),
            waiting@ == waiting_at(orig.take(orig.len() - queue@.len()), now),
        decreases queue@.len(),
    {
        let ghost k: int = orig.len() - queue@.len();
        let ghost before = queue@;
        assert(orig.take(k + 1).drop_last() =~= orig.take(k));
        assert(orig.take(k + 1).last() == before[0]);
        let t = queue.remove(0);
        assert(queue@ =~= orig.skip(k + 1));
        if t.fire_at <= now {
            due.push(t);
        } else {
            waiting.push(t);
        }
    }
    assert(orig.take(orig.len() as int) =~= orig);
    *queue = waiting;
    due
}

/// Splitting the retry queue at any time loses no ticket and duplicates
/// none: the due and waiting parts together are the queue, every due
/// ticket's time has come and no waiting ticket's has.
pub proof fn lemma_due_split(q: Seq<RetryTicket>, now: u64)
    ensures
        due_at(q, now).len() + waiting_at(q, now).len() == q.len(),
        due_at(q, now).to_multiset().add(waiting_at(q, now).to_multiset()) == q.to_multiset(),
        forall|i: int| 0 <= i < due_at(q, now).len() ==> #[trigger] due_at(q, now)[i].fire_at <= now,
        forall|i: int| 0 <= i < waiting_at(q, now).len() ==> #[trigger] waiting_at(q, now)[i].fire_at > now,
    decreases q.len(),
{
    broadcast use vstd::seq_lib::group_to_multiset_ensures;
    if q.len() > 0 {
        lemma_due_split(q.drop_last(), now);
        assert(q =~= q.drop_last().push(q.last()));
        let d = due_at(q.drop_last(), now);
        let w = waiting_at(q.drop_last(), now);
        if q.last().fire_at <= now {
            assert(due_at(q, now).to_multiset() =~= d.to_multiset().insert(q.last()));
        } else {
            assert(waiting_at(q, now).to_multiset() =~= w.to_multiset().insert(q.last()));
        }
        assert(q.to_multiset() =~= q.drop_last().to_multiset().insert(q.last()));
        assert(due_at(q, now).to_multiset().add(waiting_at(q, now).to_multiset()) =~= q.to_multiset());
    } else {
        assert(due_at(q, now).to_multiset() =~= Multiset::empty());
        assert(waiting_at(q, now).to_multiset() =~= Multiset::empty());
        assert(q.to_multiset() =~= Multiset::empty());
    }
}

} // verus!
