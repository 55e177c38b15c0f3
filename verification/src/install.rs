//! Getting a miner onto a device: the shared index is built if there is none, the model is loaded,
//! and the miner is installed if it walks over as many chunks as the index holds.
//!
//! The work is done by a host, step by step. What the host has to do next, and what follows from
//! how it went, is decided here.
use std::collections::HashMap;
use std::sync::Arc;

use vstd::prelude::*;
use vstd::string::*;

use crate::journal::LogLevel;
use crate::registry::{is_installed, Loading};
use crate::text::push_decimal;
#[allow(unused_imports)]
use crate::text::decimal;

verus! {

/// The kinds of miners, by what their weights are and what drives the GPU.
#[derive(Clone, Copy, PartialEq, Eq, Structural, Debug)]
pub enum GpuBackend {
    /// Gathered weights, through CUDA.
    Cuda,
    /// Concatenated weights and a table, through Metal.
    MetalTable,
    /// Packed weights, through Metal.
    MetalPacked,
}

impl GpuBackend {
    /// Whether the tensors that the inference engine holds can be used.
    pub open spec fn shares(self) -> bool {
        self == GpuBackend::Cuda
    }

    /// What the lines of the log begin with.
    pub open spec fn name(self) -> Seq<char> {
        if self == GpuBackend::MetalPacked {
            "PoM Metal"@
        } else {
            "PoM"@
        }
    }

    /// A device in the log.
    pub open spec fn device(self, device_id: u32) -> Seq<char> {
        (if self == GpuBackend::MetalTable {
            "metal"@
        } else {
            "gpu"@
        }) + decimal(device_id as nat)
    }

    /// What the log says of a miner that could not be loaded.
    pub open spec fn not_loaded(self) -> Seq<char> {
        if self == GpuBackend::MetalPacked {
            "load failed: "@
        } else {
            "device miner build failed: "@
        }
    }

    /// What the log says of a miner's chunks when they are not those of the index.
    pub open spec fn counted(self) -> Seq<char> {
        if self == GpuBackend::MetalPacked {
            "packed N="@
        } else {
            "gather N="@
        }
    }

    /// What the log says of a miner that is installed.
    pub open spec fn ready(self) -> Seq<char> {
        if self == GpuBackend::MetalPacked {
            "miner ready — N="@
        } else {
            "GPU miner ready — N="@
        }
    }

    /// Writes the name behind a text.
    fn push_name(self, s: &mut String)
        ensures
            final(s)@ == old(s)@ + self.name(),
    {
        match self {
            GpuBackend::MetalPacked => s.append("PoM Metal"),
            _ => s.append("PoM"),
        }
    }

    /// Writes a device behind a text.
    fn push_device(self, s: &mut String, device_id: u32)
        ensures
            final(s)@ == old(s)@ + self.device(device_id),
    {
        match self {
            GpuBackend::MetalTable => s.append("metal"),
            _ => s.append("gpu"),
        }
        push_decimal(s, device_id as u64);
        assert(s@ =~= old(s)@ + self.device(device_id));
    }
}

/// A line for the log.
pub struct LogLine {
    pub level: LogLevel,
    pub text: String,
}

/// What the host does next.
#[derive(Clone, Copy, PartialEq, Eq, Structural, Debug)]
pub enum InstallStep {
    /// Look whether there is an index.
    CheckIndex,
    /// Take the lock under which indexes are built, and look again.
    CheckIndexLocked,
    /// Look up the tier of the mining model.
    FindTier,
    /// Build the index, which will be of the given tier.
    BuildIndex(u8),
    /// Make the index that was built the active one, with its tier.
    PublishIndex(u8),
    /// Look whether the inference engine holds the model, and on which GPU.
    AskShared,
    /// Load the miner over the tensors that the inference engine holds.
    LoadShared,
    /// Load the miner by itself.
    Load,
    /// Look up the active index, to hold the given number of chunks against it.
    CompareIndex(u64),
    /// Install the miner, which has the given number of chunks.
    Install(u64),
    /// Nothing: this is the outcome.
    Done(bool),
}

/// How a step went.
pub enum InstallEvent {
    /// The number of chunks in the active index, if there is one.
    Index(Option<u64>),
    /// The tier, if the model has one.
    Tier(Option<u8>),
    /// The number of chunks in the index, or why it could not be built.
    Built(Result<u64, String>),
    /// The index is the active one.
    Published,
    /// The inference engine does not hold the model; or it does, on a device which may be a GPU.
    Resident(Option<Option<usize>>),
    /// The number of chunks in the miner, or why it could not be loaded.
    Loaded(Result<u64, String>),
    /// The miner is installed.
    Installed,
}

/// An installation under way.
pub struct Installation {
    pub device_id: u32,
    pub backend: GpuBackend,
    pub step: InstallStep,
}

impl Installation {
    /// Whether an event tells how the present step went.
    pub open spec fn awaits(&self, event: InstallEvent) -> bool {
        match self.step {
            InstallStep::CheckIndex => event is Index,
            InstallStep::CheckIndexLocked => event is Index,
            InstallStep::FindTier => event is Tier,
            InstallStep::BuildIndex(_) => event is Built,
            InstallStep::PublishIndex(_) => event is Published,
            InstallStep::AskShared => event is Resident,
            InstallStep::LoadShared => event is Loaded,
            InstallStep::Load => event is Loaded,
            InstallStep::CompareIndex(_) => event is Index,
            InstallStep::Install(_) => event is Installed,
            InstallStep::Done(_) => false,
        }
    }

    /// The step behind the index: there is one now.
    pub open spec fn index_ready(&self) -> InstallStep {
        if self.backend.shares() {
            InstallStep::AskShared
        } else {
            InstallStep::Load
        }
    }

    /// The step that an event leads to.
    pub open spec fn step_after(&self, event: InstallEvent) -> InstallStep {
        match event {
            InstallEvent::Index(found) => match self.step {
                InstallStep::CheckIndex => if found is Some {
                    self.index_ready()
                } else {
                    InstallStep::CheckIndexLocked
                },
                InstallStep::CheckIndexLocked => if found is Some {
                    self.index_ready()
                } else {
                    InstallStep::FindTier
                },
                InstallStep::CompareIndex(n) => if found is Some && found->0 != n {
                    InstallStep::Done(false)
                } else {
                    InstallStep::Install(n)
                },
                _ => self.step,
            },
            InstallEvent::Tier(Some(tier)) => InstallStep::BuildIndex(tier),
            InstallEvent::Tier(None) => InstallStep::Done(false),
            InstallEvent::Built(built) => match self.step {
                InstallStep::BuildIndex(tier) if built is Ok => InstallStep::PublishIndex(tier),
                _ => InstallStep::Done(false),
            },
            InstallEvent::Published => self.index_ready(),
            InstallEvent::Resident(on) => if on == Some(Some(self.device_id as usize)) {
                InstallStep::LoadShared
            } else {
                InstallStep::Load
            },
            InstallEvent::Loaded(Ok(n)) => InstallStep::CompareIndex(n),
            InstallEvent::Loaded(Err(_)) => InstallStep::Done(false),
            InstallEvent::Installed => InstallStep::Done(true),
        }
    }

    /// What the log says at an event.
    pub open spec fn line_at(&self, event: InstallEvent) -> Option<(LogLevel, Seq<char>)> {
        let name = self.backend.name();
        let device = self.backend.device(self.device_id);
        match event {
            InstallEvent::Tier(Some(_)) => Some(
                (
                    LogLevel::Info,
                    name + ": building shared host weight index ("@ + device
                        + ") — this can take a while…"@,
                ),
            ),
            InstallEvent::Built(Ok(n)) => Some(
                (
                    LogLevel::Info,
                    name + ": shared host index ready — N="@ + decimal(n as nat) + " chunks"@,
                ),
            ),
            InstallEvent::Built(Err(e)) => Some(
                (
                    LogLevel::Error,
                    name + ": shared host index build failed on "@ + device + ": "@ + e@,
                ),
            ),
            InstallEvent::Resident(on) => if on == Some(Some(self.device_id as usize)) {
                Some(
                    (
                        LogLevel::Info,
                        name + "["@ + device + "]: "@
                            + "zero-dup — sharing the inference engine's resident weights (no 2nd VRAM copy)"@,
                    ),
                )
            } else {
                None
            },
            InstallEvent::Loaded(Err(e)) => Some(
                (LogLevel::Error, name + "["@ + device + "]: "@ + self.backend.not_loaded() + e@),
            ),
            InstallEvent::Index(Some(m)) => match self.step {
                InstallStep::CompareIndex(n) => if m != n {
                    Some(
                        (
                            LogLevel::Error,
                            name + "["@ + device + "]: "@ + self.backend.counted() + decimal(
                                n as nat,
                            ) + " != shared index N="@ + decimal(m as nat)
                                + " — refusing to mine"@,
                        ),
                    )
                } else {
                    None
                },
                _ => None,
            },
            InstallEvent::Installed => match self.step {
                InstallStep::Install(n) => Some(
                    (
                        LogLevel::Info,
                        name + "["@ + device + "]: "@ + self.backend.ready() + decimal(n as nat)
                            + " chunks resident (matches shared index)"@,
                    ),
                ),
                _ => None,
            },
            _ => None,
        }
    }

    /// The beginning of a line about the index.
    fn index_line(&self, text: &str) -> (s: String)
        ensures
            s@ == self.backend.name() + text@,
    {
        let mut s: String = String::new();
        self.backend.push_name(&mut s);
        s.append(text);
        assert(s@ =~= self.backend.name() + text@);
        s
    }

    /// The beginning of a line about the device.
    fn device_line(&self) -> (s: String)
        ensures
            s@ == self.backend.name() + "["@ + self.backend.device(self.device_id) + "]: "@,
    {
        let mut s: String = self.index_line("[");
        self.backend.push_device(&mut s, self.device_id);
        s.append("]: ");
        s
    }

    /// What the log says at an event.
    fn line(&self, event: &InstallEvent) -> (line: Option<LogLine>)
        ensures
            match line {
                Some(l) => self.line_at(*event) == Some((l.level, l.text@)),
                None => self.line_at(*event) is None,
            },
    {
        match event {
            InstallEvent::Tier(found) => match found {
                Some(_) => {
                    let mut text: String = self.index_line(": building shared host weight index (");
                    self.backend.push_device(&mut text, self.device_id);
                    text.append(") — this can take a while…");
                    Some(LogLine { level: LogLevel::Info, text })
                },
                None => None,
            },
            InstallEvent::Built(built) => match built {
                Ok(n) => {
                    let mut text: String = self.index_line(": shared host index ready — N=");
                    push_decimal(&mut text, *n);
                    text.append(" chunks");
                    Some(LogLine { level: LogLevel::Info, text })
                },
                Err(e) => {
                    let mut text: String = self.index_line(
                        ": shared host index build failed on ",
                    );
                    self.backend.push_device(&mut text, self.device_id);
                    text.append(": ");
                    text.append(e.as_str());
                    Some(LogLine { level: LogLevel::Error, text })
                },
            },
            InstallEvent::Resident(on) => match on {
                Some(Some(gpu)) => if *gpu == self.device_id as usize {
                    let mut text: String = self.device_line();
                    text.append(
                        "zero-dup — sharing the inference engine's resident weights (no 2nd VRAM copy)",
                    );
                    Some(LogLine { level: LogLevel::Info, text })
                } else {
                    None
                },
                _ => None,
            },
            InstallEvent::Loaded(loaded) => match loaded {
                Ok(_) => None,
                Err(e) => {
                    let mut text: String = self.device_line();
                    match self.backend {
                        GpuBackend::MetalPacked => text.append("load failed: "),
                        _ => text.append("device miner build failed: "),
                    }
                    text.append(e.as_str());
                    Some(LogLine { level: LogLevel::Error, text })
                },
            },
            InstallEvent::Index(found) => match (self.step, found) {
                (InstallStep::CompareIndex(n), Some(m)) => if *m != n {
                    let mut text: String = self.device_line();
                    match self.backend {
                        GpuBackend::MetalPacked => text.append("packed N="),
                        _ => text.append("gather N="),
                    }
                    push_decimal(&mut text, n);
                    text.append(" != shared index N=");
                    push_decimal(&mut text, *m);
                    text.append(" — refusing to mine");
                    Some(LogLine { level: LogLevel::Error, text })
                } else {
                    None
                },
                _ => None,
            },
            InstallEvent::Installed => match self.step {
                InstallStep::Install(n) => {
                    let mut text: String = self.device_line();
                    match self.backend {
                        GpuBackend::MetalPacked => text.append("miner ready — N="),
                        _ => text.append("GPU miner ready — N="),
                    }
                    push_decimal(&mut text, n);
                    text.append(" chunks resident (matches shared index)");
                    Some(LogLine { level: LogLevel::Info, text })
                },
                _ => None,
            },
            InstallEvent::Published => None,
        }
    }

    /// Goes on from how the present step went. The result is what to log before the next step.
    pub fn advance(&mut self, event: InstallEvent) -> (line: Option<LogLine>)
        requires
            old(self).awaits(event),
        ensures
            final(self).device_id == old(self).device_id,
            final(self).backend == old(self).backend,
            final(self).step == old(self).step_after(event),
            match line {
                Some(l) => old(self).line_at(event) == Some((l.level, l.text@)),
                None => old(self).line_at(event) is None,
            },
    {
        let line: Option<LogLine> = self.line(&event);
        let ready: InstallStep = match self.backend {
            GpuBackend::Cuda => InstallStep::AskShared,
            _ => InstallStep::Load,
        };
        let next: InstallStep = match (self.step, event) {
            (InstallStep::CheckIndex, InstallEvent::Index(found)) => match found {
                Some(_) => ready,
                None => InstallStep::CheckIndexLocked,
            },
            (InstallStep::CheckIndexLocked, InstallEvent::Index(found)) => match found {
                Some(_) => ready,
                None => InstallStep::FindTier,
            },
            (InstallStep::CompareIndex(n), InstallEvent::Index(found)) => match found {
                Some(m) => if m != n {
                    InstallStep::Done(false)
                } else {
                    InstallStep::Install(n)
                },
                None => InstallStep::Install(n),
            },
            (_, InstallEvent::Tier(found)) => match found {
                Some(tier) => InstallStep::BuildIndex(tier),
                None => InstallStep::Done(false),
            },
            (InstallStep::BuildIndex(tier), InstallEvent::Built(built)) => match built {
                Ok(_) => InstallStep::PublishIndex(tier),
                Err(_) => InstallStep::Done(false),
            },
            (_, InstallEvent::Published) => ready,
            (_, InstallEvent::Resident(on)) => match on {
                Some(Some(gpu)) => if gpu == self.device_id as usize {
                    InstallStep::LoadShared
                } else {
                    InstallStep::Load
                },
                _ => InstallStep::Load,
            },
            (_, InstallEvent::Loaded(loaded)) => match loaded {
                Ok(n) => InstallStep::CompareIndex(n),
                Err(_) => InstallStep::Done(false),
            },
            (_, InstallEvent::Installed) => InstallStep::Done(true),
            (step, _) => step,
        };
        self.step = next;
        line
    }

    /// Whether the lock under which indexes are built is held during the present step.
    pub fn holds_build_lock(&self) -> (r: bool)
        ensures
            r == (self.step is CheckIndexLocked || self.step is FindTier || self.step is BuildIndex
                || self.step is PublishIndex),
    {
        match self.step {
            InstallStep::CheckIndexLocked => true,
            InstallStep::FindTier => true,
            InstallStep::BuildIndex(_) => true,
            InstallStep::PublishIndex(_) => true,
            _ => false,
        }
    }
}

/// Begins an installation. Without a mining model it has failed already.
pub fn ensure_installed_inner(device_id: u32, backend: GpuBackend, tier_set: bool) -> (i: Installation)
    ensures
        i.device_id == device_id,
        i.backend == backend,
        i.step == (if tier_set {
            InstallStep::CheckIndex
        } else {
            InstallStep::Done(false)
        }),
{
    let step: InstallStep = if tier_set {
        InstallStep::CheckIndex
    } else {
        InstallStep::Done(false)
    };
    Installation { device_id, backend, step }
}

/// Sees to it that a device has a miner. If it has one, there is nothing to do; if not, a load
/// begins, and ends with the installation.
pub fn ensure_installed<M>(
    miners: &HashMap<u32, Arc<M>>,
    loading: &mut Loading,
    device_id: u32,
    backend: GpuBackend,
    tier_set: bool,
) -> (r: Option<Installation>)
    ensures
        match r {
            None => {
                &&& miners@.contains_key(device_id)
                &&& *final(loading) == *old(loading)
            },
            Some(i) => {
                &&& !miners@.contains_key(device_id)
                &&& final(loading).count == old(loading).count.wrapping_add(1)
                &&& i.device_id == device_id
                &&& i.backend == backend
                &&& i.step == (if tier_set {
                    InstallStep::CheckIndex
                } else {
                    InstallStep::Done(false)
                })
            },
        },
{
    if is_installed(miners, device_id) {
        return None;
    }
    loading.begin();
    Some(ensure_installed_inner(device_id, backend, tier_set))
}

/// What a host finds when it does the steps of an installation.
pub struct HostFacts {
    /// The active index when it is looked at first.
    pub index: Option<u64>,
    /// The active index once the build lock is taken.
    pub index_locked: Option<u64>,
    pub tier: Option<u8>,
    /// What building the index gives.
    pub builds: Result<u64, String>,
    pub resident: Option<Option<usize>>,
    /// What loading over the inference engine's tensors gives.
    pub loads_shared: Result<u64, String>,
    /// What loading by itself gives.
    pub loads: Result<u64, String>,
    /// The active index when the miner is held against it.
    pub index_at_end: Option<u64>,
}

impl HostFacts {
    /// How a step goes.
    pub open spec fn event(self, step: InstallStep) -> InstallEvent {
        match step {
            InstallStep::CheckIndex => InstallEvent::Index(self.index),
            InstallStep::CheckIndexLocked => InstallEvent::Index(self.index_locked),
            InstallStep::FindTier => InstallEvent::Tier(self.tier),
            InstallStep::BuildIndex(_) => InstallEvent::Built(self.builds),
            InstallStep::PublishIndex(_) => InstallEvent::Published,
            InstallStep::AskShared => InstallEvent::Resident(self.resident),
            InstallStep::LoadShared => InstallEvent::Loaded(self.loads_shared),
            InstallStep::Load => InstallEvent::Loaded(self.loads),
            InstallStep::CompareIndex(_) => InstallEvent::Index(self.index_at_end),
            _ => InstallEvent::Installed,
        }
    }

    /// Whether there is an index before the model is loaded.
    pub open spec fn has_index(self) -> bool {
        self.index is Some || self.index_locked is Some || (self.tier is Some && self.builds is Ok)
    }

    /// Whether the miner uses the tensors that the inference engine holds.
    pub open spec fn shares(self, i: Installation) -> bool {
        i.backend.shares() && self.resident == Some(Some(i.device_id as usize))
    }

    /// What the load gives.
    pub open spec fn loaded(self, i: Installation) -> Result<u64, String> {
        if self.shares(i) {
            self.loads_shared
        } else {
            self.loads
        }
    }

    /// Whether the miner is to be installed.
    pub open spec fn installs(self, i: Installation) -> bool {
        &&& self.has_index()
        &&& self.loaded(i) is Ok
        &&& self.index_at_end is Some ==> self.index_at_end->0 == self.loaded(i)->Ok_0
    }
}

/// The installation when the host has done `k` steps.
pub open spec fn after_steps(facts: HostFacts, i: Installation, k: nat) -> Installation
    decreases k,
{
    if k == 0 {
        i
    } else {
        let before = after_steps(facts, i, (k - 1) as nat);
        if before.step is Done {
            before
        } else {
            Installation { step: before.step_after(facts.event(before.step)), ..before }
        }
    }
}

/// An installation ends within nine steps. It ends well, and a miner is installed, if and only if
/// there is an index, the model can be loaded, and the miner does not differ from the index in the
/// number of chunks. Every step is answered by an event that it awaits.
pub proof fn law_installation(facts: HostFacts, i: Installation)
    requires
        i.step == InstallStep::CheckIndex,
    ensures
        after_steps(facts, i, 9).step == InstallStep::Done(facts.installs(i)),
        facts.installs(i) <==> exists|k: nat|
            k < 9 && (#[trigger] after_steps(facts, i, k)).step is Install,
        forall|k: nat|
            !((#[trigger] after_steps(facts, i, k)).step is Done) ==> after_steps(
                facts,
                i,
                k,
            ).awaits(facts.event(after_steps(facts, i, k).step)),
{
    let k = lemma_index_steps(facts, i);
    let ready = after_steps(facts, i, k);
    let ok = facts.installs(i);
    if facts.has_index() {
        lemma_load_steps(facts, ready);
        lemma_steps_compose(facts, i, k, 4);
        lemma_done_stays(facts, after_steps(facts, i, k + 4), (5 - k) as nat);
        lemma_steps_compose(facts, i, k + 4, (5 - k) as nat);
        if ok {
            let m = choose|m: nat| m < 4 && (#[trigger] after_steps(facts, ready, m)).step is Install;
            lemma_steps_compose(facts, i, k, m);
            assert(after_steps(facts, i, k + m).step is Install);
        }
    } else {
        lemma_done_stays(facts, ready, (9 - k) as nat);
        lemma_steps_compose(facts, i, k, (9 - k) as nat);
    }
    assert forall|j: nat| j < 9 && (#[trigger] after_steps(facts, i, j)).step is Install implies ok by {
        if j > k {
            let m = (j - k) as nat;
            lemma_steps_compose(facts, i, k, m);
            if facts.has_index() {
                if m >= 4 {
                    lemma_done_stays(facts, after_steps(facts, ready, 4), (m - 4) as nat);
                    lemma_steps_compose(facts, ready, 4, (m - 4) as nat);
                }
            } else {
                lemma_done_stays(facts, ready, m);
            }
        }
    }
}

/// Steps that are done one after the other.
proof fn lemma_steps_compose(facts: HostFacts, i: Installation, k: nat, m: nat)
    ensures
        after_steps(facts, i, k + m) == after_steps(facts, after_steps(facts, i, k), m),
    decreases m,
{
    if m > 0 {
        lemma_steps_compose(facts, i, k, (m - 1) as nat);
    }
}

/// What is done stays done.
proof fn lemma_done_stays(facts: HostFacts, i: Installation, m: nat)
    requires
        i.step is Done,
    ensures
        after_steps(facts, i, m) == i,
    decreases m,
{
    if m > 0 {
        lemma_done_stays(facts, i, (m - 1) as nat);
    }
}

/// The steps up to the index, or up to the failure to have one.
proof fn lemma_index_steps(facts: HostFacts, i: Installation) -> (k: nat)
    requires
        i.step == InstallStep::CheckIndex,
    ensures
        k <= 5,
        after_steps(facts, i, k).backend == i.backend,
        after_steps(facts, i, k).device_id == i.device_id,
        after_steps(facts, i, k).step == (if facts.has_index() {
            i.index_ready()
        } else {
            InstallStep::Done(false)
        }),
        forall|j: nat| j <= k ==> !((#[trigger] after_steps(facts, i, j)).step is Install),
{
    reveal_with_fuel(after_steps, 6);
    if facts.index is Some {
        1
    } else if facts.index_locked is Some {
        2
    } else if facts.tier is None {
        3
    } else if facts.builds is Err {
        4
    } else {
        5
    }
}

/// The steps behind the index.
proof fn lemma_load_steps(facts: HostFacts, i: Installation)
    requires
        i.step == i.index_ready(),
        facts.has_index(),
    ensures
        after_steps(facts, i, 4).step == InstallStep::Done(facts.installs(i)),
        facts.installs(i) <==> exists|m: nat|
            m < 4 && (#[trigger] after_steps(facts, i, m)).step is Install,
{
    reveal_with_fuel(after_steps, 5);
    let installs_at = |m: nat| after_steps(facts, i, m).step is Install;
    if facts.installs(i) {
        assert(installs_at(2) || installs_at(3));
    }
}

/// What is carried from step to step. An index is built for the tier of the model and becomes the
/// active one only if it was built; the inference engine's tensors are used by CUDA alone, and only
/// where they are on the device itself; and what is held against the index, and installed, is the
/// number of chunks that was loaded.
pub proof fn law_installation_carries(facts: HostFacts, i: Installation, k: nat)
    requires
        i.step == InstallStep::CheckIndex,
    ensures
        ({
            let now = after_steps(facts, i, k);
            let resident = i.backend == GpuBackend::Cuda && facts.resident == Some(
                Some(i.device_id as usize),
            );
            let loaded = if resident {
                facts.loads_shared
            } else {
                facts.loads
            };
            &&& now.device_id == i.device_id
            &&& now.backend == i.backend
            &&& (match now.step {
                InstallStep::CheckIndex => k == 0,
                InstallStep::CheckIndexLocked => facts.index is None,
                InstallStep::FindTier => facts.index is None && facts.index_locked is None,
                InstallStep::BuildIndex(t) => facts.tier == Some(t),
                InstallStep::PublishIndex(t) => facts.tier == Some(t) && facts.builds is Ok,
                InstallStep::AskShared => i.backend == GpuBackend::Cuda,
                InstallStep::LoadShared => resident,
                InstallStep::Load => !resident,
                InstallStep::CompareIndex(n) => loaded is Ok && loaded->Ok_0 == n,
                InstallStep::Install(n) => {
                    &&& loaded is Ok && loaded->Ok_0 == n
                    &&& facts.index_at_end is None || facts.index_at_end == Some(n)
                },
                InstallStep::Done(ok) => ok ==> loaded is Ok && (facts.index_at_end is None
                    || facts.index_at_end == Some(loaded->Ok_0)),
            })
        }),
    decreases k,
{
    if k > 0 {
        law_installation_carries(facts, i, (k - 1) as nat);
    }
}

/// An installation ends well exactly if there was an index, or one could be built for the model's
/// tier, and what was loaded is not contradicted by the index at the end.
pub proof fn law_installation_outcome(facts: HostFacts, i: Installation)
    requires
        i.step == InstallStep::CheckIndex,
    ensures
        ({
            let loaded = if i.backend == GpuBackend::Cuda && facts.resident == Some(
                Some(i.device_id as usize),
            ) {
                facts.loads_shared
            } else {
                facts.loads
            };
            after_steps(facts, i, 9).step == InstallStep::Done(
                (facts.index is Some || facts.index_locked is Some || (facts.tier is Some
                    && facts.builds is Ok)) && loaded is Ok && (facts.index_at_end is None
                    || facts.index_at_end == Some(loaded->Ok_0)),
            )
        }),
{
    law_installation(facts, i);
}

/// When a miner does not walk over as many chunks as the index holds, the log names the device and
/// both numbers, the miner's first; when it is installed, the log names the device and the miner's
/// number.
pub proof fn law_install_lines_name_numbers(i: Installation, n: u64, m: u64)
    ensures
        ({
            let packed = i.backend == GpuBackend::MetalPacked;
            let begin = (if packed {
                "PoM Metal"@
            } else {
                "PoM"@
            }) + "["@ + ((if i.backend == GpuBackend::MetalTable {
                "metal"@
            } else {
                "gpu"@
            }) + decimal(i.device_id as nat)) + "]: "@;
            &&& i.step == InstallStep::CompareIndex(n) && m != n ==> i.line_at(
                InstallEvent::Index(Some(m)),
            ) == Some(
                (
                    LogLevel::Error,
                    begin + (if packed {
                        "packed N="@
                    } else {
                        "gather N="@
                    }) + decimal(n as nat) + " != shared index N="@ + decimal(m as nat)
                        + " — refusing to mine"@,
                ),
            )
            &&& i.step == InstallStep::CompareIndex(n) ==> i.line_at(
                InstallEvent::Index(Some(n)),
            ) is None
            &&& i.step == InstallStep::Install(n) ==> i.line_at(InstallEvent::Installed) == Some(
                (
                    LogLevel::Info,
                    begin + (if packed {
                        "miner ready — N="@
                    } else {
                        "GPU miner ready — N="@
                    }) + decimal(n as nat) + " chunks resident (matches shared index)"@,
                ),
            )
        }),
{
}

/// Whatever goes wrong when an index is built or a miner is loaded is an error in the log, which
/// ends in what the host said; a step that went well is none.
pub proof fn law_install_errors_are_logged(i: Installation, event: InstallEvent, e: String)
    ensures
        event == InstallEvent::Built(Err(e)) || event == InstallEvent::Loaded(Err(e)) ==> {
            &&& i.line_at(event) matches Some((level, text))
            &&& level == LogLevel::Error
            &&& text.len() >= e@.len()
            &&& text.skip(text.len() - e@.len()) == e@
        },
        i.line_at(event) matches Some((level, text)) ==> {
            &&& level == LogLevel::Error || level == LogLevel::Info
            &&& level == LogLevel::Error ==> i.step_after(event) == InstallStep::Done(false)
        },
{
    if event == InstallEvent::Built(Err(e)) || event == InstallEvent::Loaded(Err(e)) {
        let (level, text) = i.line_at(event)->0;
        assert(text.skip(text.len() - e@.len()) =~= e@);
    }
}

} // verus!
