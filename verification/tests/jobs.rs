use catacomb::downloader::{ConvertSpec, DownloadQuality, JobState, JOB_LOG_CAP};
use catacomb::error_class::ErrorClass;
use catacomb::jobs::{
    any_running, backoff_after_poll, cancel_queued, clear_finished, remove_job, running_count,
    schedule_retry, take_due, take_for_retry, Job, RetrySpec,
};
use catacomb::platform::classify_url;

fn spec(url: &str) -> RetrySpec {
    RetrySpec {
        url: url.to_string(),
        info: classify_url(url),
        full_scan: false,
        quality: DownloadQuality::Best,
        live: false,
        opts: None,
    }
}

fn job(url: &str, retry: bool) -> Job<()> {
    Job::started(
        url.to_string(),
        "l".to_string(),
        Some(42),
        if retry { Some(spec(url)) } else { None },
        0,
        None,
        1000,
        (),
    )
}

#[test]
fn line_updates_log_and_activity() {
    let mut j = job("https://youtu.be/x", true);
    j.on_line("hello".to_string(), 1010);
    assert_eq!(j.log, vec!["hello".to_string()]);
    assert_eq!(j.last_activity, 1010);
    for i in 0..(JOB_LOG_CAP + 5) {
        j.on_line(format!("l{i}"), 1011);
    }
    assert_eq!(j.log.len(), JOB_LOG_CAP);
    assert_eq!(j.log.last().unwrap(), &format!("l{}", JOB_LOG_CAP + 4));
}

#[test]
fn failure_is_classified_and_retried_once_scanned() {
    let mut j = job("https://youtu.be/x", true);
    j.on_line("ERROR: HTTP Error 429: Too Many Requests".to_string(), 1001);
    j.on_finished(false);
    assert_eq!(j.state, JobState::Failed);
    assert_eq!(j.failure_class, Some(ErrorClass::RateLimited));
    let d = j.take_retry();
    assert!(d.engage_backoff);
    assert_eq!(d.next_attempt, Some(1));
    assert_eq!(
        j.log.last().unwrap(),
        "↻ auto-retry 1/2 scheduled in 90s (transient rate-limited)"
    );
    // A second scan asks for nothing.
    let again = j.take_retry();
    assert!(!again.engage_backoff);
    assert_eq!(again.next_attempt, None);
}

#[test]
fn watchdog_kills_silent_job_and_failure_becomes_network_error() {
    let mut j = job("https://youtu.be/x", true);
    assert!(!j.watchdog(1299));
    assert!(j.watchdog(1300));
    assert!(j.watchdog_killed);
    assert_eq!(j.last_activity, 1300);
    assert_eq!(j.log.last().unwrap(), "⏱ watchdog: no output for 300s — killed (will auto-retry)");
    // Not killed twice.
    assert!(!j.watchdog(5000));
    j.on_finished(false);
    assert_eq!(j.failure_class, Some(ErrorClass::NetworkError));
    assert_eq!(j.take_retry().next_attempt, Some(1));
}

#[test]
fn cancelled_job_is_never_auto_retried() {
    let mut j = job("https://youtu.be/x", true);
    assert!(j.cancel(1005));
    assert!(j.cancelled);
    assert_eq!(j.log.last().unwrap(), "⛔ cancelled by user");
    j.on_line("ERROR: HTTP Error 429".to_string(), 1006);
    j.on_finished(false);
    let d = j.take_retry();
    assert_eq!(d.next_attempt, None);
    assert!(!d.engage_backoff);
    // A finished job cannot be cancelled.
    assert!(!j.cancel(1007));
}

#[test]
fn retries_stop_at_the_cap_and_need_inputs() {
    let mut j = Job::started(
        "u".to_string(), "l".to_string(), None, Some(spec("https://youtu.be/x")), 2, None, 0, (),
    );
    j.on_line("ERROR: Connection reset by peer".to_string(), 1);
    j.on_finished(false);
    assert_eq!(j.failure_class, Some(ErrorClass::NetworkError));
    assert_eq!(j.take_retry().next_attempt, None);
    let mut k = job("https://youtu.be/y", false);
    k.on_line("ERROR: Connection reset by peer".to_string(), 1);
    k.on_finished(false);
    assert_eq!(k.take_retry().next_attempt, None);
}

#[test]
fn synthetic_failure_and_transcode_jobs() {
    let s: Job<()> = Job::synthetic_failure(
        "u".to_string(), "l".to_string(), ErrorClass::DiskFull, "only 1 MB free", 7, (),
    );
    assert_eq!(s.state, JobState::Failed);
    assert_eq!(s.log, vec!["[preflight] only 1 MB free".to_string()]);
    assert!(!s.has_retry_spec());
    let mut t: Job<()> = Job::transcode("u".to_string(), "t".to_string(), Some(9), 7, ());
    t.on_finished(true);
    assert!(t.take_conversions().is_empty());
    assert!(!t.take_retry().engage_backoff);
}

#[test]
fn conversions_are_handed_out_once() {
    let conv = ConvertSpec {
        mode: "remux-mp4".to_string(),
        crf: 23,
        preset: "medium".to_string(),
        audio_format: "mp3".to_string(),
        keep_original: false,
    };
    let mut j: Job<()> = Job::started("u".into(), "l".into(), Some(1), None, 0, Some(conv), 0, ());
    j.on_line("CONVERT_PATH:/a/x.mkv".to_string(), 1);
    assert!(j.take_conversions().is_empty()); // still running
    j.on_finished(true);
    assert_eq!(j.take_conversions(), vec!["/a/x.mkv".to_string()]);
    assert!(j.take_conversions().is_empty());
}

#[test]
fn table_operations() {
    let mut jobs = vec![job("a", true), job("b", true), job("c", false)];
    jobs[0].on_finished(true);
    jobs[2].on_finished(false);
    assert_eq!(running_count(&jobs), 1);
    assert!(any_running(&jobs));
    // Running jobs cannot be removed.
    remove_job(&mut jobs, 1);
    assert_eq!(jobs.len(), 3);
    remove_job(&mut jobs, 9);
    assert_eq!(jobs.len(), 3);
    // The failed job without inputs cannot be re-run; the done one can.
    assert!(take_for_retry(&mut jobs, 2).is_none());
    let s = take_for_retry(&mut jobs, 0).unwrap();
    assert_eq!(s.url, "a");
    assert_eq!(jobs.len(), 2);
    clear_finished(&mut jobs);
    assert_eq!(jobs.len(), 1);
    assert_eq!(jobs[0].url, "b");
    let mut pending = vec![1, 2, 3];
    assert!(cancel_queued(&mut pending, 1));
    assert_eq!(pending, vec![1, 3]);
    assert!(!cancel_queued(&mut pending, 5));
}

#[test]
fn retry_queue_fires_in_order_after_cooldown() {
    let mut q = Vec::new();
    schedule_retry(&mut q, 100, spec("https://youtu.be/a"), 1);
    schedule_retry(&mut q, 100, spec("https://youtu.be/b"), 2);
    schedule_retry(&mut q, 150, spec("https://youtu.be/c"), 1);
    assert_eq!(q[0].fire_at, 190);
    assert_eq!(q[1].fire_at, 280);
    assert_eq!(q[2].fire_at, 240);
    let due = take_due(&mut q, 240);
    let urls: Vec<&str> = due.iter().map(|t| t.spec.url.as_str()).collect();
    assert_eq!(urls, vec!["https://youtu.be/a", "https://youtu.be/c"]);
    assert_eq!(q.len(), 1);
    assert_eq!(q[0].attempt, 2);
    assert!(take_due(&mut q, 279).is_empty());
    assert_eq!(take_due(&mut q, 280).len(), 1);
    assert!(q.is_empty());
}

#[test]
fn backoff_clears_when_idle() {
    assert!(!backoff_after_poll(true, false, 0, 0));
    assert!(backoff_after_poll(true, true, 0, 0));
    assert!(backoff_after_poll(true, false, 1, 0));
    assert!(backoff_after_poll(true, false, 0, 1));
    assert!(!backoff_after_poll(false, true, 3, 3));
}

#[test]
fn progress_only_records_activity() {
    let mut j = job("u", false);
    j.on_line("first".into(), 1001);
    j.on_progress(1500);
    assert_eq!(j.last_activity, 1500);
    assert_eq!(j.log, vec!["first".to_string()]);
    assert_eq!(j.state, JobState::Running);
}
