use keryx_miner::mining_worker::{
    job_header, Job, JobPoll, MiningWorker, WorkerEvent, WorkerStep, BATCH_SIZE,
};

type Worker = MiningWorker<&'static str>;

fn job(daa: u64, state: &'static str) -> Job<&'static str> {
    Job { daa, state }
}

fn say(w: &mut Worker, event: WorkerEvent<&'static str>) -> Option<String> {
    w.advance(event).message
}

/// A worker with a job and an installed miner, at the step before a batch.
fn ready(nonce: u64) -> Worker {
    let mut w = MiningWorker::new(nonce, true, 0, 0);
    w.advance(WorkerEvent::Running(true));
    w.advance(WorkerEvent::JobCame(Some(Some(job(5, "a")))));
    w.advance(WorkerEvent::Running(true));
    assert_eq!(w.step, WorkerStep::FindIndex);
    w
}

#[test]
fn a_worker_waits_for_a_job() {
    let mut w: Worker = MiningWorker::new(7, false, 0, 0);
    assert_eq!(say(&mut w, WorkerEvent::Running(true)), None);
    assert_eq!(w.step, WorkerStep::WaitForJob);
    assert_eq!(say(&mut w, WorkerEvent::JobCame(Some(None))), None);
    assert_eq!(w.step, WorkerStep::CheckRunning);
    assert!(w.job.is_none());
    w.advance(WorkerEvent::Running(true));
    assert_eq!(w.step, WorkerStep::WaitForJob);
    assert_eq!(
        say(&mut w, WorkerEvent::JobCame(None)).as_deref(),
        Some("ios: mining worker exited")
    );
    assert_eq!(w.step, WorkerStep::Exit);
}

#[test]
fn a_stopped_worker_leaves() {
    let mut w = ready(7);
    w.advance(WorkerEvent::Index(true));
    w.advance(WorkerEvent::Mined(None));
    w.advance(WorkerEvent::Polled(JobPoll::Unchanged));
    assert_eq!(
        say(&mut w, WorkerEvent::Running(false)).as_deref(),
        Some("ios: mining worker exited")
    );
    assert_eq!(w.step, WorkerStep::Exit);
}

#[test]
fn installing_is_tried_until_it_works() {
    let mut w: Worker = MiningWorker::new(7, false, 0, 0);
    w.advance(WorkerEvent::Running(true));
    w.advance(WorkerEvent::JobCame(Some(Some(job(41, "a")))));
    assert_eq!(
        say(&mut w, WorkerEvent::Running(true)).as_deref(),
        Some("ios: loading PoM model into GPU (one-time) at DAA=41…")
    );
    assert_eq!(w.step, WorkerStep::EnsureInstalled(41));
    assert_eq!(
        say(&mut w, WorkerEvent::Installed(false)).as_deref(),
        Some(
            "ios: ERROR ensure_installed returned false (see [ERROR]/[WARN] above) — retrying"
        )
    );
    assert_eq!(w.step, WorkerStep::RestInstall);
    w.advance(WorkerEvent::Rested);
    assert_eq!(w.step, WorkerStep::PollBeforeRetry);
    w.advance(WorkerEvent::Polled(JobPoll::Changed(Some(job(42, "b")))));
    assert_eq!(w.step, WorkerStep::CheckRunning);
    w.advance(WorkerEvent::Running(true));
    assert_eq!(w.step, WorkerStep::EnsureInstalled(42));
    w.advance(WorkerEvent::Installed(false));
    w.advance(WorkerEvent::Rested);
    assert_eq!(say(&mut w, WorkerEvent::Polled(JobPoll::Unchanged)), None);
    assert_eq!(w.step, WorkerStep::CheckRunning);
    w.advance(WorkerEvent::Running(true));
    assert_eq!(
        say(&mut w, WorkerEvent::Installed(true)).as_deref(),
        Some("ios: PoM model installed — mining now active")
    );
    assert_eq!(w.step, WorkerStep::FindIndex);
    assert!(w.installed);
}

#[test]
fn without_an_index_the_worker_rests() {
    let mut w = ready(7);
    assert_eq!(
        say(&mut w, WorkerEvent::Index(false)).as_deref(),
        Some("ios: ERROR active_index() None after install — retrying")
    );
    assert_eq!(w.step, WorkerStep::RestIndex);
    w.advance(WorkerEvent::Rested);
    assert_eq!(w.step, WorkerStep::PollBeforeRetry);
    w.advance(WorkerEvent::Polled(JobPoll::Unchanged));
    assert_eq!(w.step, WorkerStep::CheckRunning);
    assert!(w.job.is_some());
}

#[test]
fn a_winner_is_submitted_and_its_job_consumed() {
    let mut w = ready(7);
    w.advance(WorkerEvent::Index(true));
    assert_eq!(w.step, WorkerStep::Mine(7));
    assert_eq!(
        say(&mut w, WorkerEvent::Mined(Some(99))).as_deref(),
        Some("ios: PoM winner nonce=99")
    );
    assert_eq!(w.step, WorkerStep::MakeBlock(99));
    assert_eq!(say(&mut w, WorkerEvent::Block(true)).as_deref(), Some("ios: submitting block…"));
    assert_eq!(w.step, WorkerStep::Submit);
    assert_eq!(w.blocks, 1);
    assert_eq!(say(&mut w, WorkerEvent::Submitted), None);
    assert!(w.job.is_none());
    assert_eq!(w.step, WorkerStep::CheckRunning);
}

#[test]
fn a_winner_without_a_block_consumes_the_job_too() {
    let mut w = ready(7);
    w.advance(WorkerEvent::Index(true));
    w.advance(WorkerEvent::Mined(Some(99)));
    assert_eq!(say(&mut w, WorkerEvent::Block(false)), None);
    assert!(w.job.is_none());
    assert_eq!(w.blocks, 0);
}

#[test]
fn a_fresher_job_takes_over_and_the_nonces_go_on() {
    let mut w = ready(u64::MAX - BATCH_SIZE + 1);
    w.advance(WorkerEvent::Index(true));
    w.advance(WorkerEvent::Mined(None));
    assert_eq!(w.nonce, 0);
    assert_eq!(w.step, WorkerStep::PollForFresher);
    w.advance(WorkerEvent::Polled(JobPoll::Changed(Some(job(6, "b")))));
    assert_eq!(w.job.as_ref().map(|j| j.state), Some("b"));
    w.advance(WorkerEvent::Running(true));
    w.advance(WorkerEvent::Index(true));
    assert_eq!(w.step, WorkerStep::Mine(0));
    w.advance(WorkerEvent::Mined(None));
    w.advance(WorkerEvent::Polled(JobPoll::Changed(None)));
    assert_eq!(w.job.as_ref().map(|j| j.state), Some("b"));
    assert_eq!(w.nonce, BATCH_SIZE);
    assert_eq!(w.batches, 2);
}

#[test]
fn a_closed_channel_ends_the_worker_between_batches() {
    let mut w = ready(7);
    w.advance(WorkerEvent::Index(true));
    w.advance(WorkerEvent::Mined(None));
    assert_eq!(
        say(&mut w, WorkerEvent::Polled(JobPoll::Closed)).as_deref(),
        Some("ios: mining worker exited")
    );
    assert_eq!(w.step, WorkerStep::Exit);
}

#[test]
fn a_closed_channel_ends_the_worker_between_two_attempts_to_install() {
    let mut w: Worker = MiningWorker::new(7, false, 0, 0);
    w.advance(WorkerEvent::Running(true));
    w.advance(WorkerEvent::JobCame(Some(Some(job(41, "a")))));
    w.advance(WorkerEvent::Running(true));
    w.advance(WorkerEvent::Installed(false));
    w.advance(WorkerEvent::Rested);
    assert_eq!(
        say(&mut w, WorkerEvent::Polled(JobPoll::Closed)).as_deref(),
        Some("ios: mining worker exited")
    );
    assert_eq!(w.step, WorkerStep::Exit);
}

#[test]
fn a_closed_channel_ends_the_worker_without_an_index() {
    let mut w = ready(7);
    w.advance(WorkerEvent::Index(false));
    w.advance(WorkerEvent::Rested);
    assert_eq!(
        say(&mut w, WorkerEvent::Polled(JobPoll::Closed)).as_deref(),
        Some("ios: mining worker exited")
    );
    assert_eq!(w.step, WorkerStep::Exit);
}

/// How a step goes once no job will come any more.
fn when_closed(step: WorkerStep, lucky: bool) -> WorkerEvent<&'static str> {
    match step {
        WorkerStep::CheckRunning => WorkerEvent::Running(true),
        WorkerStep::WaitForJob => WorkerEvent::JobCame(None),
        WorkerStep::EnsureInstalled(_) => WorkerEvent::Installed(lucky),
        WorkerStep::RestInstall | WorkerStep::RestIndex => WorkerEvent::Rested,
        WorkerStep::PollBeforeRetry | WorkerStep::PollForFresher => {
            WorkerEvent::Polled(JobPoll::Closed)
        }
        WorkerStep::FindIndex => WorkerEvent::Index(lucky),
        WorkerStep::Mine(n) => WorkerEvent::Mined(if lucky { Some(n) } else { None }),
        WorkerStep::MakeBlock(_) => WorkerEvent::Block(lucky),
        WorkerStep::Submit => WorkerEvent::Submitted,
        WorkerStep::Exit => panic!("the worker has left"),
    }
}

#[test]
fn a_closed_channel_ends_the_worker_in_eight_steps() {
    for lucky in [true, false] {
        let mut w: Worker = MiningWorker::new(7, false, 0, 0);
        w.advance(WorkerEvent::Running(true));
        w.advance(WorkerEvent::JobCame(Some(Some(job(41, "a")))));
        let mut steps = 0;
        let mut last = None;
        while w.step != WorkerStep::Exit {
            let event = when_closed(w.step, lucky);
            last = say(&mut w, event);
            steps += 1;
        }
        assert_eq!(steps, if lucky { 8 } else { 4 });
        assert_eq!(last.as_deref(), Some("ios: mining worker exited"));
    }
}

#[test]
fn every_sixteenth_batch_is_a_sign_of_life() {
    let mut w = ready(0);
    let mut beats = Vec::new();
    for _ in 0..40 {
        w.advance(WorkerEvent::Index(true));
        beats.extend(w.advance(WorkerEvent::Mined(None)).heartbeat);
        w.advance(WorkerEvent::Polled(JobPoll::Unchanged));
        w.advance(WorkerEvent::Running(true));
    }
    assert_eq!(beats, vec![16, 32]);
    assert_eq!(w.nonce, 40 * BATCH_SIZE);
}

#[test]
fn batches_have_no_nonce_in_common() {
    let mut w = ready(u64::MAX - 3 * BATCH_SIZE - 5);
    let mut starts = Vec::new();
    for _ in 0..8 {
        w.advance(WorkerEvent::Index(true));
        if let WorkerStep::Mine(start) = w.step {
            starts.push(start);
        }
        w.advance(WorkerEvent::Mined(None));
        w.advance(WorkerEvent::Polled(JobPoll::Changed(Some(job(6, "b")))));
        w.advance(WorkerEvent::Running(true));
    }
    assert_eq!(starts.len(), 8);
    for (i, a) in starts.iter().enumerate() {
        for b in &starts[i + 1..] {
            assert!(b.wrapping_sub(*a) >= BATCH_SIZE && a.wrapping_sub(*b) >= BATCH_SIZE);
        }
    }
}

#[test]
fn the_header_holds_hash_and_timestamp() {
    let header: Vec<u8> = (0..72).collect();
    let (hash, timestamp) = job_header(&header);
    assert_eq!(hash[..], header[..32]);
    assert_eq!(timestamp, 0x2726252423222120);
}
