//! The thread that mines: it takes the latest job, searches one batch of nonces after the other,
//! and submits what it finds.
//!
//! The nonces go on from batch to batch, whatever job they are tried on. Waiting, mining and
//! submitting is a host's business; what it has to do next is decided here.
use vstd::prelude::*;
use vstd::string::*;

use crate::bytes::read_le_u64;
use crate::text::push_decimal;
#[allow(unused_imports)]
use crate::bytes::{le_nat, le_word_at};
#[allow(unused_imports)]
use crate::text::{decimal, law_decimals_differ};

verus! {

/// Nonces in a batch.
pub const BATCH_SIZE: u64 = 0x10_0000;

/// Batches between two signs of life in the log.
pub const HEARTBEAT_BATCHES: u64 = 16;

/// How long to rest when the model could not be installed, in milliseconds.
pub const INSTALL_REST_MS: u64 = 500;

/// How long to rest when there is no index, in milliseconds.
pub const INDEX_REST_MS: u64 = 200;

/// Whether the node is asked to take a block that is outside the DAA window.
pub const ALLOW_NON_DAA_BLOCKS: bool = false;

/// A job: a block template's state, and its DAA score.
pub struct Job<J> {
    pub daa: u64,
    pub state: J,
}

/// What the host does next.
#[derive(Clone, Copy, PartialEq, Eq, Structural, Debug)]
pub enum WorkerStep {
    /// Look whether the miner still counts as running.
    CheckRunning,
    /// Wait for a job.
    WaitForJob,
    /// Install the miner, at the given DAA score.
    EnsureInstalled(u64),
    /// Rest for `INSTALL_REST_MS`.
    RestInstall,
    /// Look for a fresher job, before the next attempt to install or to find an index.
    PollBeforeRetry,
    /// Look for the active index.
    FindIndex,
    /// Rest for `INDEX_REST_MS`.
    RestIndex,
    /// Mine a batch that starts at the given nonce.
    Mine(u64),
    /// Make a block of the job and the winning nonce.
    MakeBlock(u64),
    /// Submit the block.
    Submit,
    /// Look for a fresher job, before the next batch.
    PollForFresher,
    /// Leave.
    Exit,
}

/// What a look for a fresher job finds.
pub enum JobPoll<J> {
    /// No job was published since.
    Unchanged,
    /// This was published.
    Changed(Option<Job<J>>),
    /// No job will be published any more.
    Closed,
}

/// How a step went.
pub enum WorkerEvent<J> {
    Running(bool),
    /// What was published, or none if nothing will be any more.
    JobCame(Option<Option<Job<J>>>),
    Installed(bool),
    Rested,
    Polled(JobPoll<J>),
    /// Whether there is an active index.
    Index(bool),
    /// The winning nonce, if there is one.
    Mined(Option<u64>),
    /// Whether there is a block.
    Block(bool),
    Submitted,
}

/// The worker's state.
pub struct MiningWorker<J> {
    pub step: WorkerStep,
    pub job: Option<Job<J>>,
    /// Where the next batch starts.
    pub nonce: u64,
    /// Whether the miner was installed.
    pub installed: bool,
    pub batches: u64,
    pub blocks: u64,
}

/// What the host logs.
pub struct WorkerReply {
    /// The number of batches so far, if a sign of life is due. It comes before the message.
    pub heartbeat: Option<u64>,
    pub message: Option<String>,
}

impl<J> MiningWorker<J> {
    /// What holds of every worker: it installs and mines only with a job, and mines only when the
    /// miner was installed.
    pub open spec fn wf(&self) -> bool {
        match self.step {
            WorkerStep::CheckRunning => true,
            WorkerStep::WaitForJob => self.job is None,
            WorkerStep::EnsureInstalled(daa) => self.job is Some && !self.installed && self.job->0.daa
                == daa,
            WorkerStep::RestInstall => self.job is Some && !self.installed,
            WorkerStep::PollBeforeRetry => self.job is Some,
            WorkerStep::FindIndex => self.job is Some && self.installed,
            WorkerStep::RestIndex => self.job is Some && self.installed,
            WorkerStep::Mine(start) => self.job is Some && self.installed && start == self.nonce,
            WorkerStep::MakeBlock(_) => self.job is Some && self.installed,
            WorkerStep::Submit => self.job is Some && self.installed,
            WorkerStep::PollForFresher => self.job is Some && self.installed,
            WorkerStep::Exit => true,
        }
    }

    /// Whether an event tells how the present step went.
    pub open spec fn awaits(&self, event: WorkerEvent<J>) -> bool {
        match self.step {
            WorkerStep::CheckRunning => event is Running,
            WorkerStep::WaitForJob => event is JobCame,
            WorkerStep::EnsureInstalled(_) => event is Installed,
            WorkerStep::RestInstall => event is Rested,
            WorkerStep::PollBeforeRetry => event is Polled,
            WorkerStep::FindIndex => event is Index,
            WorkerStep::RestIndex => event is Rested,
            WorkerStep::Mine(_) => event is Mined,
            WorkerStep::MakeBlock(_) => event is Block,
            WorkerStep::Submit => event is Submitted,
            WorkerStep::PollForFresher => event is Polled,
            WorkerStep::Exit => false,
        }
    }

    /// The step that an event leads to.
    pub open spec fn step_after(self, event: WorkerEvent<J>) -> WorkerStep {
        match event {
            WorkerEvent::Running(false) => WorkerStep::Exit,
            WorkerEvent::Running(true) => match self.job {
                None => WorkerStep::WaitForJob,
                Some(job) => if self.installed {
                    WorkerStep::FindIndex
                } else {
                    WorkerStep::EnsureInstalled(job.daa)
                },
            },
            WorkerEvent::JobCame(None) => WorkerStep::Exit,
            WorkerEvent::JobCame(Some(_)) => WorkerStep::CheckRunning,
            WorkerEvent::Installed(true) => WorkerStep::FindIndex,
            WorkerEvent::Installed(false) => WorkerStep::RestInstall,
            WorkerEvent::Rested => WorkerStep::PollBeforeRetry,
            WorkerEvent::Polled(JobPoll::Closed) => WorkerStep::Exit,
            WorkerEvent::Polled(_) => WorkerStep::CheckRunning,
            WorkerEvent::Index(true) => WorkerStep::Mine(self.nonce),
            WorkerEvent::Index(false) => WorkerStep::RestIndex,
            WorkerEvent::Mined(Some(nonce)) => WorkerStep::MakeBlock(nonce),
            WorkerEvent::Mined(None) => WorkerStep::PollForFresher,
            WorkerEvent::Block(true) => WorkerStep::Submit,
            WorkerEvent::Block(false) => WorkerStep::CheckRunning,
            WorkerEvent::Submitted => WorkerStep::CheckRunning,
        }
    }

    /// The job behind an event: one that was published takes its place, and one that was won with
    /// is consumed.
    pub open spec fn job_after(self, event: WorkerEvent<J>) -> Option<Job<J>> {
        match event {
            WorkerEvent::JobCame(Some(job)) => job,
            WorkerEvent::Polled(JobPoll::Changed(Some(job))) => Some(job),
            WorkerEvent::Block(false) => None,
            WorkerEvent::Submitted => None,
            _ => self.job,
        }
    }

    /// The worker behind an event.
    pub open spec fn after(self, event: WorkerEvent<J>) -> MiningWorker<J> {
        MiningWorker {
            step: self.step_after(event),
            job: self.job_after(event),
            nonce: if event is Mined {
                self.nonce.wrapping_add(BATCH_SIZE)
            } else {
                self.nonce
            },
            installed: self.installed || event == WorkerEvent::<J>::Installed(true),
            batches: if event is Mined {
                self.batches.wrapping_add(1)
            } else {
                self.batches
            },
            blocks: if event == WorkerEvent::<J>::Block(true) {
                self.blocks.wrapping_add(1)
            } else {
                self.blocks
            },
        }
    }

    /// What is logged at an event.
    pub open spec fn message_at(self, event: WorkerEvent<J>) -> Option<Seq<char>> {
        if self.step_after(event) == WorkerStep::Exit {
            Some("ios: mining worker exited"@)
        } else {
            match event {
                WorkerEvent::Running(_) => match self.job {
                    Some(job) => if self.installed {
                        None
                    } else {
                        Some(
                            "ios: loading PoM model into GPU (one-time) at DAA="@ + decimal(
                                job.daa as nat,
                            ) + "…"@,
                        )
                    },
                    None => None,
                },
                WorkerEvent::Installed(true) => Some(
                    "ios: PoM model installed — mining now active"@,
                ),
                WorkerEvent::Installed(false) => Some(
                    "ios: ERROR ensure_installed returned false (see [ERROR]/[WARN] above) — retrying"@,
                ),
                WorkerEvent::Index(false) => Some(
                    "ios: ERROR active_index() None after install — retrying"@,
                ),
                WorkerEvent::Mined(Some(nonce)) => Some(
                    "ios: PoM winner nonce="@ + decimal(nonce as nat),
                ),
                WorkerEvent::Block(true) => Some("ios: submitting block…"@),
                _ => None,
            }
        }
    }

    /// The number of batches, if a sign of life is due at an event.
    pub open spec fn heartbeat_at(self, event: WorkerEvent<J>) -> Option<u64> {
        let batches = self.batches.wrapping_add(1);
        if event is Mined && batches % HEARTBEAT_BATCHES == 0 {
            Some(batches)
        } else {
            None
        }
    }

    /// A worker without a job. `installed`, `batches` and `blocks` go on from an earlier worker.
    pub fn new(start: u64, installed: bool, batches: u64, blocks: u64) -> (w: MiningWorker<J>)
        ensures
            w.wf(),
            w.step == WorkerStep::CheckRunning,
            w.job is None,
            w.nonce == start,
            w.installed == installed,
            w.batches == batches,
            w.blocks == blocks,
    {
        MiningWorker {
            step: WorkerStep::CheckRunning,
            job: None,
            nonce: start,
            installed,
            batches,
            blocks,
        }
    }

    /// Goes on from how the present step went.
    pub fn advance(&mut self, event: WorkerEvent<J>) -> (reply: WorkerReply)
        requires
            old(self).wf(),
            old(self).awaits(event),
        ensures
            final(self).wf(),
            *final(self) == old(self).after(event),
            reply.heartbeat == old(self).heartbeat_at(event),
            match reply.message {
                Some(m) => old(self).message_at(event) == Some(m@),
                None => old(self).message_at(event) is None,
            },
    {
        let mut heartbeat: Option<u64> = None;
        let mut message: Option<String> = None;
        match event {
            WorkerEvent::Running(running) => {
                if !running {
                    self.step = WorkerStep::Exit;
                } else {
                    match &self.job {
                        None => {
                            self.step = WorkerStep::WaitForJob;
                        },
                        Some(job) => {
                            if self.installed {
                                self.step = WorkerStep::FindIndex;
                            } else {
                                let daa: u64 = job.daa;
                                let mut m: String =
                                    "ios: loading PoM model into GPU (one-time) at DAA=".to_owned();
                                push_decimal(&mut m, daa);
                                m.append("…");
                                message = Some(m);
                                self.step = WorkerStep::EnsureInstalled(daa);
                            }
                        },
                    }
                }
            },
            WorkerEvent::JobCame(came) => match came {
                Some(job) => {
                    self.job = job;
                    self.step = WorkerStep::CheckRunning;
                },
                None => {
                    self.step = WorkerStep::Exit;
                },
            },
            WorkerEvent::Installed(ok) => {
                if ok {
                    self.installed = true;
                    message = Some("ios: PoM model installed — mining now active".to_owned());
                    self.step = WorkerStep::FindIndex;
                } else {
                    message = Some(
                        "ios: ERROR ensure_installed returned false (see [ERROR]/[WARN] above) — retrying".to_owned(),
                    );
                    self.step = WorkerStep::RestInstall;
                }
            },
            WorkerEvent::Rested => {
                self.step = WorkerStep::PollBeforeRetry;
            },
            WorkerEvent::Polled(poll) => {
                self.step = WorkerStep::CheckRunning;
                match poll {
                    JobPoll::Unchanged => {},
                    JobPoll::Changed(published) => match published {
                        Some(job) => {
                            self.job = Some(job);
                        },
                        None => {},
                    },
                    JobPoll::Closed => {
                        self.step = WorkerStep::Exit;
                    },
                }
            },
            WorkerEvent::Index(found) => {
                if found {
                    self.step = WorkerStep::Mine(self.nonce);
                } else {
                    message = Some(
                        "ios: ERROR active_index() None after install — retrying".to_owned(),
                    );
                    self.step = WorkerStep::RestIndex;
                }
            },
            WorkerEvent::Mined(found) => {
                self.nonce = self.nonce.wrapping_add(BATCH_SIZE);
                self.batches = self.batches.wrapping_add(1);
                if self.batches % HEARTBEAT_BATCHES == 0 {
                    heartbeat = Some(self.batches);
                }
                match found {
                    Some(nonce) => {
                        let mut m: String = "ios: PoM winner nonce=".to_owned();
                        push_decimal(&mut m, nonce);
                        message = Some(m);
                        self.step = WorkerStep::MakeBlock(nonce);
                    },
                    None => {
                        self.step = WorkerStep::PollForFresher;
                    },
                }
            },
            WorkerEvent::Block(made) => {
                if made {
                    self.blocks = self.blocks.wrapping_add(1);
                    message = Some("ios: submitting block…".to_owned());
                    self.step = WorkerStep::Submit;
                } else {
                    self.job = None;
                    self.step = WorkerStep::CheckRunning;
                }
            },
            WorkerEvent::Submitted => {
                self.job = None;
                self.step = WorkerStep::CheckRunning;
            },
        }
        if self.step == WorkerStep::Exit {
            message = Some("ios: mining worker exited".to_owned());
        }
        WorkerReply { heartbeat, message }
    }
}

/// The hash and the timestamp that a job is mined with.
pub fn job_header(pow_hash_header: &[u8]) -> (r: ([u8; 32], u64))
    requires
        pow_hash_header@.len() >= 40,
    ensures
        r.0@ == pow_hash_header@.take(32),
        r.1 == le_word_at(pow_hash_header@, 32),
        r.1 == le_nat(pow_hash_header@.subrange(32, 40)),
{
    let mut hash: [u8; 32] = [0u8; 32];
    let mut i: usize = 0;
    while i < 32
        invariant
            i <= 32,
            pow_hash_header@.len() >= 40,
            forall|j: int| 0 <= j < i ==> hash@[j] == pow_hash_header@[j],
        decreases 32 - i,
    {
        hash[i] = pow_hash_header[i];
        i = i + 1;
    }
    assert(hash@ =~= pow_hash_header@.take(32));
    (hash, read_le_u64(pow_hash_header, 32))
}

/// The worker behind a run of events.
pub open spec fn worker_after<J>(w: MiningWorker<J>, events: Seq<WorkerEvent<J>>) -> MiningWorker<J>
    decreases events.len(),
{
    if events.len() == 0 {
        w
    } else {
        worker_after(w, events.drop_last()).after(events.last())
    }
}

/// The batches that were mined in a run of events.
pub open spec fn batches_in<J>(events: Seq<WorkerEvent<J>>) -> nat
    decreases events.len(),
{
    if events.len() == 0 {
        0
    } else {
        batches_in(events.drop_last()) + if events.last() is Mined {
            1nat
        } else {
            0nat
        }
    }
}

/// The blocks that were made in a run of events.
pub open spec fn blocks_in<J>(events: Seq<WorkerEvent<J>>) -> nat
    decreases events.len(),
{
    if events.len() == 0 {
        0
    } else {
        blocks_in(events.drop_last()) + if events.last() == WorkerEvent::<J>::Block(true) {
            1nat
        } else {
            0nat
        }
    }
}

/// Where a batch starts, when `k` were mined before it.
pub open spec fn batch_start(start: u64, k: nat) -> int {
    (start + k * BATCH_SIZE) % 0x1_0000_0000_0000_0000
}

/// The nonces go on by one batch for each batch that was mined, and by nothing else: a new job
/// does not set them back. Batches and blocks are counted one by one.
pub proof fn law_nonces_go_on<J>(w: MiningWorker<J>, events: Seq<WorkerEvent<J>>)
    ensures
        worker_after(w, events).nonce == batch_start(w.nonce, batches_in(events)),
        worker_after(w, events).batches == (w.batches + batches_in(events))
            % 0x1_0000_0000_0000_0000,
        worker_after(w, events).blocks == (w.blocks + blocks_in(events))
            % 0x1_0000_0000_0000_0000,
    decreases events.len(),
{
    if events.len() > 0 {
        law_nonces_go_on(w, events.drop_last());
    }
}

/// Two batches have no nonce in common, unless so many lie between them that the nonces have gone
/// round.
pub proof fn law_batches_are_disjoint(start: u64, i: nat, j: nat, a: int, b: int)
    requires
        i < j,
        j - i < 0x1000_0000_0000,
        0 <= a < BATCH_SIZE,
        0 <= b < BATCH_SIZE,
    ensures
        (batch_start(start, i) + a) % 0x1_0000_0000_0000_0000 != (batch_start(start, j) + b)
            % 0x1_0000_0000_0000_0000,
{
    let x = start + i * BATCH_SIZE + a;
    let y = start + j * BATCH_SIZE + b;
    assert((batch_start(start, i) + a) % 0x1_0000_0000_0000_0000 == x % 0x1_0000_0000_0000_0000);
    assert((batch_start(start, j) + b) % 0x1_0000_0000_0000_0000 == y % 0x1_0000_0000_0000_0000);
    assert(0 < y - x < 0x1_0000_0000_0000_0000);
}

/// Every event that a worker awaits keeps it well formed. A worker leaves only when mining was
/// stopped or no job will come any more; it submits only what was made of a winner; and a job that
/// was won with is not mined again.
pub proof fn law_worker_keeps_mining<J>(w: MiningWorker<J>, event: WorkerEvent<J>)
    requires
        w.wf(),
        w.awaits(event),
    ensures
        w.after(event).wf(),
        w.after(event).step == WorkerStep::Exit <==> {
            ||| event == WorkerEvent::<J>::Running(false)
            ||| event == WorkerEvent::<J>::JobCame(None)
            ||| event == WorkerEvent::Polled(JobPoll::<J>::Closed)
        },
        w.after(event).step is Submit ==> w.step is MakeBlock,
        w.after(event).step is MakeBlock ==> w.step is Mine,
        w.step is Submit ==> w.after(event).job is None,
        w.step is MakeBlock && !(w.after(event).step is Submit) ==> w.after(event).job is None,
{
}

/// Whether an event can come once no job will be published any more.
pub open spec fn comes_when_closed<J>(event: WorkerEvent<J>) -> bool {
    &&& event is JobCame ==> event == WorkerEvent::<J>::JobCame(None)
    &&& event is Polled ==> event == WorkerEvent::Polled(JobPoll::<J>::Closed)
}

/// Whether a worker goes through a run of events, each of which it awaits.
pub open spec fn goes_through<J>(w: MiningWorker<J>, events: Seq<WorkerEvent<J>>) -> bool {
    forall|i: int|
        0 <= i < events.len() ==> worker_after(w, events.take(i)).awaits(#[trigger] events[i])
}

/// The most steps that a worker takes to leave, once no job will be published any more.
pub open spec fn steps_to_exit<J>(w: MiningWorker<J>) -> int {
    match w.step {
        WorkerStep::Exit => 0,
        WorkerStep::WaitForJob => 1,
        WorkerStep::PollForFresher => 1,
        WorkerStep::PollBeforeRetry => 1,
        WorkerStep::RestInstall => 2,
        WorkerStep::RestIndex => 2,
        WorkerStep::Submit => 3,
        WorkerStep::MakeBlock(_) => 4,
        WorkerStep::Mine(_) => 5,
        WorkerStep::FindIndex => 6,
        WorkerStep::EnsureInstalled(_) => 7,
        WorkerStep::CheckRunning => if w.job is None {
            2
        } else if w.installed {
            7
        } else {
            8
        },
    }
}

/// Once no job will be published any more, the worker leaves: it takes eight steps at most,
/// whatever comes of installing and mining, and it mines one batch at most. What it logs last is
/// that it leaves.
pub proof fn law_closed_channel_ends_worker<J>(w: MiningWorker<J>, events: Seq<WorkerEvent<J>>)
    requires
        w.wf(),
        goes_through(w, events),
        forall|i: int| 0 <= i < events.len() ==> comes_when_closed(#[trigger] events[i]),
    ensures
        worker_after(w, events).wf(),
        events.len() + steps_to_exit(worker_after(w, events)) <= steps_to_exit(w) <= 8,
        events.len() == 8 ==> worker_after(w, events).step == WorkerStep::Exit,
        batches_in(events) <= 1,
        events.len() > 0 && worker_after(w, events).step == WorkerStep::Exit ==> worker_after(
            w,
            events.drop_last(),
        ).message_at(events.last()) == Some("ios: mining worker exited"@),
{
    lemma_closed_run(w, events);
}

/// One step brings a worker nearer to its exit.
proof fn lemma_closed_step<J>(w: MiningWorker<J>, event: WorkerEvent<J>)
    requires
        w.wf(),
        w.awaits(event),
        comes_when_closed(event),
    ensures
        w.after(event).wf(),
        steps_to_exit(w.after(event)) < steps_to_exit(w),
        event is Mined ==> steps_to_exit(w) == 5,
{
}

/// Each step brings a worker nearer to its exit, and a batch brings it beyond the next one.
proof fn lemma_closed_run<J>(w: MiningWorker<J>, events: Seq<WorkerEvent<J>>)
    requires
        w.wf(),
        goes_through(w, events),
        forall|i: int| 0 <= i < events.len() ==> comes_when_closed(#[trigger] events[i]),
    ensures
        worker_after(w, events).wf(),
        events.len() + steps_to_exit(worker_after(w, events)) <= steps_to_exit(w),
        batches_in(events) <= 1,
        batches_in(events) == 1 ==> steps_to_exit(worker_after(w, events)) < 5,
    decreases events.len(),
{
    if events.len() > 0 {
        let before = events.drop_last();
        let last = events.len() - 1;
        assert(before =~= events.take(last));
        assert forall|i: int| 0 <= i < before.len() implies worker_after(
            w,
            before.take(i),
        ).awaits(#[trigger] before[i]) by {
            assert(before.take(i) =~= events.take(i));
            assert(before[i] == events[i]);
        }
        assert forall|i: int| 0 <= i < before.len() implies comes_when_closed(
            #[trigger] before[i],
        ) by {
            assert(before[i] == events[i]);
        }
        lemma_closed_run(w, before);
        assert(events.last() == events[last]);
        lemma_closed_step(worker_after(w, before), events[last]);
    }
}

/// What was mined is what is made of it: whatever nonce mining reports, the block is made with that
/// very nonce, of the job that was mined. Without a winner the worker looks for a fresher job.
/// Either way the next batch starts 0x10_0000 nonces further on, and every sixteenth batch is
/// reported with its number.
pub proof fn law_winner_is_made_into_block<J>(w: MiningWorker<J>, n: u64)
    requires
        w.wf(),
        w.step is Mine,
    ensures
        w.awaits(WorkerEvent::Mined(Some(n))),
        w.awaits(WorkerEvent::Mined(None)),
        w.step == WorkerStep::Mine(w.nonce),
        ({
            let won = w.after(WorkerEvent::Mined(Some(n)));
            let lost = w.after(WorkerEvent::Mined(None));
            let batches = (w.batches + 1) % 0x1_0000_0000_0000_0000;
            &&& won.step == WorkerStep::MakeBlock(n)
            &&& lost.step == WorkerStep::PollForFresher
            &&& won.job == w.job && lost.job == w.job
            &&& won.nonce == (w.nonce + 0x10_0000) % 0x1_0000_0000_0000_0000
            &&& lost.nonce == won.nonce
            &&& won.batches == batches && lost.batches == batches
            &&& won.blocks == w.blocks && lost.blocks == w.blocks
            &&& won.installed && lost.installed
            &&& w.message_at(WorkerEvent::Mined(Some(n))) == Some(
                "ios: PoM winner nonce="@ + decimal(n as nat),
            )
            &&& w.message_at(WorkerEvent::Mined(None)) is None
            &&& w.heartbeat_at(WorkerEvent::Mined(Some(n))) == (if batches % 16 == 0 {
                Some(won.batches)
            } else {
                None
            })
            &&& w.heartbeat_at(WorkerEvent::Mined(None)) == w.heartbeat_at(
                WorkerEvent::Mined(Some(n)),
            )
        }),
{
}

/// Two winners are never taken for one another: the blocks are made with different nonces, and the
/// log names different ones.
pub proof fn law_winners_are_told_apart<J>(w: MiningWorker<J>, n: u64, m: u64)
    requires
        w.wf(),
        w.step is Mine,
        n != m,
    ensures
        w.after(WorkerEvent::Mined(Some(n))).step != w.after(WorkerEvent::Mined(Some(m))).step,
        w.message_at(WorkerEvent::Mined(Some(n))) is Some,
        w.message_at(WorkerEvent::Mined(Some(n))) != w.message_at(WorkerEvent::Mined(Some(m))),
{
    let before = "ios: PoM winner nonce="@;
    law_decimals_differ(before, n as nat, m as nat, Seq::empty());
    assert(before + decimal(n as nat) + Seq::<char>::empty() =~= before + decimal(n as nat));
    assert(before + decimal(m as nat) + Seq::<char>::empty() =~= before + decimal(m as nat));
}

/// Where a worker goes from each step but mining. What it mines is the batch at its own nonce, and
/// it installs for the score of its own job. Nothing but mining moves the nonces or counts a
/// batch, nothing but a block counts a block, and nothing but an installation marks the miner as
/// installed.
pub proof fn law_worker_steps<J>(w: MiningWorker<J>, event: WorkerEvent<J>)
    requires
        w.wf(),
        w.awaits(event),
        !(event is Mined),
    ensures
        w.after(event).nonce == w.nonce,
        w.after(event).batches == w.batches,
        w.heartbeat_at(event) is None,
        w.step is CheckRunning ==> {
            &&& w.after(event).job == w.job
            &&& w.after(event).step == if !event->Running_0 {
                WorkerStep::Exit
            } else if w.job is None {
                WorkerStep::WaitForJob
            } else if w.installed {
                WorkerStep::FindIndex
            } else {
                WorkerStep::EnsureInstalled(w.job->0.daa)
            }
        },
        w.step is WaitForJob && event->JobCame_0 is Some ==> {
            &&& w.after(event).job == event->JobCame_0->0
            &&& w.after(event).step is CheckRunning
        },
        w.step is EnsureInstalled ==> {
            &&& w.after(event).job == w.job
            &&& w.after(event).installed == event->Installed_0
            &&& event->Installed_0 ==> w.after(event).step is FindIndex
            &&& !event->Installed_0 ==> w.after(event).step is RestInstall
        },
        !(w.step is EnsureInstalled) ==> w.after(event).installed == w.installed,
        w.step is RestInstall || w.step is RestIndex ==> {
            &&& w.after(event).job == w.job
            &&& w.after(event).step is PollBeforeRetry
        },
        w.step is PollBeforeRetry || w.step is PollForFresher ==> {
            &&& (event->Polled_0 is Closed <==> w.after(event).step is Exit)
            &&& (!(event->Polled_0 is Closed) <==> w.after(event).step is CheckRunning)
            &&& w.after(event).job == if event->Polled_0 is Changed
                && event->Polled_0->Changed_0 is Some {
                event->Polled_0->Changed_0
            } else {
                w.job
            }
        },
        w.step is FindIndex ==> {
            &&& w.after(event).job == w.job
            &&& event->Index_0 ==> w.after(event).step == WorkerStep::Mine(w.nonce)
            &&& !event->Index_0 ==> w.after(event).step is RestIndex
        },
        w.step is MakeBlock ==> if event->Block_0 {
            &&& w.after(event).step is Submit
            &&& w.after(event).job == w.job
            &&& w.after(event).blocks == (w.blocks + 1) % 0x1_0000_0000_0000_0000
        } else {
            &&& w.after(event).step is CheckRunning
            &&& w.after(event).job is None
            &&& w.after(event).blocks == w.blocks
        },
        !(w.step is MakeBlock) ==> w.after(event).blocks == w.blocks,
        w.step is Submit ==> {
            &&& w.after(event).step is CheckRunning
            &&& w.after(event).job is None
        },
{
}

/// A worker rests for half a second when the model could not be installed, and for a fifth of one
/// when there is no index. Only blocks within the DAA window are submitted.
pub proof fn law_worker_constants()
    ensures
        INSTALL_REST_MS * 2 == 1000,
        INDEX_REST_MS * 5 == 1000,
        BATCH_SIZE == 1024 * 1024,
        HEARTBEAT_BATCHES == 16,
        !ALLOW_NON_DAA_BLOCKS,
{
}

} // verus!
