//! Putting the sections together into the picture the page shows.

use std::collections::HashMap;
use std::sync::Arc;

use vstd::prelude::*;
use vstd::string::*;

use crate::clock::Timestamp;
use crate::command::texts;
use crate::monitor::{Snapshot, Sources, State};
use crate::slots::{law_silence_is_stale, share, SlotView, NEVER};
use crate::structures::{
    GpuProcessStats, GpuStats, GpuView, ProcessCGroupInfo, ProcessStats, ProxmoxLxcStats,
    ProxmoxNodeStats, SourceStatus, SourceStatuses, SystemStats,
};

verus! {

/// Floor on how often the picture is rebuilt, in nanoseconds.
///
/// The fast sources land within a few milliseconds of each other, and without this each of them
/// would cost a separate pass over every section and a separate event to every open page.
pub const MIN_PUBLISH_INTERVAL: u64 = 100_000_000;

/// How often the assembler looks up even though no source has said anything, in nanoseconds.
///
/// This is what lets a section go stale on the page: if the source behind it has stopped answering
/// altogether then nothing is going to wake anybody, and the staleness has to be noticed rather
/// than announced.
pub const HEARTBEAT: u64 = 1_000_000_000;

/// The name of the first container in a list that has an id.
pub open spec fn lxc_name_of(vm_id: u32, lxc: Seq<ProxmoxLxcStats>) -> Option<String>
    decreases lxc.len(),
{
    if lxc.len() == 0 {
        None
    } else if lxc[0].vm_id == vm_id {
        Some(lxc[0].name)
    } else {
        lxc_name_of(vm_id, lxc.drop_first())
    }
}

/// What is known about the container a pid sits in, with the container's name.
pub open spec fn cgroup_info_of(
    pid: u32,
    cgroups: Map<u32, ProcessCGroupInfo>,
    lxc: Seq<ProxmoxLxcStats>,
) -> ProcessCGroupInfo {
    if cgroups.contains_key(pid) {
        match cgroups[pid].lxc_vm_id {
            Some(vm_id) => ProcessCGroupInfo {
                lxc_name: lxc_name_of(vm_id, lxc),
                ..cgroups[pid]
            },
            None => cgroups[pid],
        }
    } else {
        ProcessCGroupInfo::nowhere()
    }
}

fn find_lxc_name(vm_id: u32, lxc: &Vec<ProxmoxLxcStats>) -> (name: Option<String>)
    ensures
        name == lxc_name_of(vm_id, lxc@),
{
    let mut i: usize = 0;
    assert(lxc@.skip(0) =~= lxc@);
    while i < lxc.len()
        invariant
            i <= lxc@.len(),
            lxc_name_of(vm_id, lxc@) == lxc_name_of(vm_id, lxc@.skip(i as int)),
        decreases lxc@.len() - i,
    {
        if lxc[i].vm_id == vm_id {
            return Some(lxc[i].name.clone());
        }
        assert(lxc@.skip(i as int).drop_first() =~= lxc@.skip(i + 1));
        i += 1;
    }
    None
}

/// What is known about the container a pid sits in, with the LXC's name filled in from the
/// container list.
pub fn cgroup_info_for(
    pid: u32,
    cgroups: &HashMap<u32, ProcessCGroupInfo>,
    lxc: &Vec<ProxmoxLxcStats>,
) -> (info: ProcessCGroupInfo)
    ensures
        info == cgroup_info_of(pid, cgroups@, lxc@),
        cgroups@.contains_key(pid) ==> {
            &&& info.lxc_vm_id == cgroups@[pid].lxc_vm_id
            &&& info.docker_container_id == cgroups@[pid].docker_container_id
            &&& info.docker_container_name == cgroups@[pid].docker_container_name
        },
{
    broadcast use vstd::std_specs::hash::group_hash_axioms;

    match cgroups.get(&pid) {
        None => ProcessCGroupInfo::default(),
        Some(known) => {
            let mut info = known.clone();
            if let Some(vm_id) = info.lxc_vm_id {
                info.lxc_name = find_lxc_name(vm_id, lxc);
            }
            info
        },
    }
}

/// The processes, with what is known about the container of each.
pub open spec fn joined_processes(
    processes: Seq<ProcessStats>,
    cgroups: Map<u32, ProcessCGroupInfo>,
    lxc: Seq<ProxmoxLxcStats>,
) -> Seq<ProcessStats> {
    Seq::new(
        processes.len(),
        |i: int|
            ProcessStats {
                cgroup_info: cgroup_info_of(processes[i].pid, cgroups, lxc),
                ..processes[i]
            },
    )
}

/// The processes on a card, with what is known about the container of each.
pub open spec fn joined_gpu_processes(
    processes: Seq<GpuProcessStats>,
    cgroups: Map<u32, ProcessCGroupInfo>,
    lxc: Seq<ProxmoxLxcStats>,
) -> Seq<GpuProcessStats> {
    Seq::new(
        processes.len(),
        |i: int|
            GpuProcessStats {
                cgroup_info: cgroup_info_of(processes[i].pid, cgroups, lxc),
                ..processes[i]
            },
    )
}

/// The cards, with what is known about the container of each process on them.
pub open spec fn are_joined_gpus(
    joined: Seq<GpuStats>,
    gpus: Seq<GpuStats>,
    cgroups: Map<u32, ProcessCGroupInfo>,
    lxc: Seq<ProxmoxLxcStats>,
) -> bool {
    &&& joined.len() == gpus.len()
    &&& forall|i: int|
        0 <= i < gpus.len() ==> (#[trigger] joined[i])@ == (GpuView {
            processes: joined_gpu_processes(gpus[i].processes@, cgroups, lxc),
            ..gpus[i]@
        })
}

fn join_processes(
    processes: &Vec<ProcessStats>,
    cgroups: &HashMap<u32, ProcessCGroupInfo>,
    lxc: &Vec<ProxmoxLxcStats>,
) -> (joined: Vec<ProcessStats>)
    ensures
        joined@ == joined_processes(processes@, cgroups@, lxc@),
{
    let mut joined: Vec<ProcessStats> = Vec::new();
    let mut i: usize = 0;
    while i < processes.len()
        invariant
            i <= processes@.len(),
            joined@ == joined_processes(processes@, cgroups@, lxc@).take(i as int),
        decreases processes@.len() - i,
    {
        let mut process = processes[i].clone();
        process.cgroup_info = cgroup_info_for(process.pid, cgroups, lxc);
        joined.push(process);
        i += 1;
        assert(joined@ =~= joined_processes(processes@, cgroups@, lxc@).take(i as int));
    }
    assert(joined@ =~= joined_processes(processes@, cgroups@, lxc@));
    joined
}

fn join_gpu_processes(
    processes: &Vec<GpuProcessStats>,
    cgroups: &HashMap<u32, ProcessCGroupInfo>,
    lxc: &Vec<ProxmoxLxcStats>,
) -> (joined: Vec<GpuProcessStats>)
    ensures
        joined@ == joined_gpu_processes(processes@, cgroups@, lxc@),
{
    let mut joined: Vec<GpuProcessStats> = Vec::new();
    let mut i: usize = 0;
    while i < processes.len()
        invariant
            i <= processes@.len(),
            joined@ == joined_gpu_processes(processes@, cgroups@, lxc@).take(i as int),
        decreases processes@.len() - i,
    {
        let mut process = processes[i].clone();
        process.cgroup_info = cgroup_info_for(process.pid, cgroups, lxc);
        joined.push(process);
        i += 1;
        assert(joined@ =~= joined_gpu_processes(processes@, cgroups@, lxc@).take(i as int));
    }
    assert(joined@ =~= joined_gpu_processes(processes@, cgroups@, lxc@));
    joined
}

fn join_gpus(
    gpus: &Vec<GpuStats>,
    cgroups: &HashMap<u32, ProcessCGroupInfo>,
    lxc: &Vec<ProxmoxLxcStats>,
) -> (joined: Vec<GpuStats>)
    ensures
        are_joined_gpus(joined@, gpus@, cgroups@, lxc@),
{
    let mut joined: Vec<GpuStats> = Vec::new();
    let mut i: usize = 0;
    while i < gpus.len()
        invariant
            i <= gpus@.len(),
            joined@.len() == i,
            forall|j: int|
                0 <= j < i ==> (#[trigger] joined@[j])@ == (GpuView {
                    processes: joined_gpu_processes(gpus@[j].processes@, cgroups@, lxc@),
                    ..gpus@[j]@
                }),
        decreases gpus@.len() - i,
    {
        let gpu: &GpuStats = &gpus[i];
        joined.push(
            GpuStats {
                name: gpu.name.clone(),
                temperature: gpu.temperature,
                utilization: gpu.utilization,
                power_usage_milliwatts: gpu.power_usage_milliwatts,
                memory: gpu.memory,
                processes: join_gpu_processes(&gpu.processes, cgroups, lxc),
            },
        );
        i += 1;
    }
    joined
}

/// The picture shows the sections of a snapshot, each of them as its source gathered it, with the
/// containers of the processes joined in.
pub open spec fn picture_shows(
    stats: SystemStats,
    snapshot: Snapshot,
    statuses: SourceStatuses,
    now: Timestamp,
) -> bool {
    let cgroups = snapshot.cgroups.value@;
    let lxc = snapshot.lxc.value@;
    &&& stats.updated_at == Some(now)
    &&& stats.sources == statuses
    &&& stats.base == snapshot.base.value
    &&& stats.disks == snapshot.disks.value
    &&& stats.temperatures == snapshot.temperatures.value
    &&& stats.proxmox.io_delay == *snapshot.io_delay.value
    &&& stats.proxmox.lxc == snapshot.lxc.value
    &&& stats.energy_usage == snapshot.energy.value
    &&& stats.processes@ == joined_processes(snapshot.processes.value@, cgroups, lxc)
    &&& are_joined_gpus(stats.gpus@, snapshot.gpus.value@, cgroups, lxc)
}

/// Puts the sections together.
///
/// The joins are lookups between sections that are already in hand - no files, no processes,
/// nothing that can block. Sections nothing has touched are a shared pointer each.
pub fn publish(snapshot: &Snapshot, statuses: SourceStatuses, now: Timestamp) -> (stats:
    SystemStats)
    ensures
        picture_shows(stats, *snapshot, statuses, now),
{
    let processes = join_processes(
        &snapshot.processes.value,
        &snapshot.cgroups.value,
        &snapshot.lxc.value,
    );
    let gpus = join_gpus(&snapshot.gpus.value, &snapshot.cgroups.value, &snapshot.lxc.value);
    SystemStats {
        updated_at: Some(now),
        sources: statuses,
        base: share(&snapshot.base.value),
        disks: share(&snapshot.disks.value),
        temperatures: share(&snapshot.temperatures.value),
        proxmox: ProxmoxNodeStats {
            io_delay: *snapshot.io_delay.value,
            lxc: share(&snapshot.lxc.value),
        },
        gpus: Arc::new(gpus),
        processes: Arc::new(processes),
        energy_usage: share(&snapshot.energy.value),
    }
}

/// The line for a source that has stopped answering, or that has started again.
pub open spec fn staleness_line(
    name: Seq<char>,
    before: SourceStatus,
    after: SourceStatus,
) -> Option<Seq<char>> {
    if before.stale == after.stale {
        None
    } else if after.stale {
        Some(name + " has stopped refreshing - that section of the page is out of date"@)
    } else {
        Some(name + " is refreshing again"@)
    }
}

/// The lines for the first so many sources.
pub open spec fn staleness_lines(before: SourceStatuses, after: SourceStatuses, count: nat) -> Seq<
    Seq<char>,
>
    decreases count,
{
    if count == 0 {
        Seq::empty()
    } else {
        let i = count - 1;
        let earlier = staleness_lines(before, after, i as nat);
        match staleness_line(
            SourceStatuses::source_names()[i],
            before.in_order()[i],
            after.in_order()[i],
        ) {
            Some(line) => earlier.push(line),
            None => earlier,
        }
    }
}

/// One line when a source stops answering, one when it starts again.
///
/// Without this a wedged source is invisible from the journal: the page's streams stay open on
/// their keep-alives and one of its tables quietly stops moving.
pub fn report_staleness(before: &SourceStatuses, after: &SourceStatuses) -> (lines: Vec<String>)
    ensures
        texts(lines@) == staleness_lines(*before, *after, 9),
{
    let mut lines: Vec<String> = Vec::new();
    let earlier = before.named();
    let later = after.named();
    assert(texts(lines@) =~= staleness_lines(*before, *after, 0));
    let mut i: usize = 0;
    while i < 9
        invariant
            i <= 9,
            texts(lines@) == staleness_lines(*before, *after, i as nat),
            forall|j: int|
                0 <= j < 9 ==> {
                    &&& (#[trigger] earlier@[j]).0@ == SourceStatuses::source_names()[j]
                    &&& *earlier@[j].1 == before.in_order()[j]
                },
            forall|j: int| 0 <= j < 9 ==> *(#[trigger] later@[j]).1 == after.in_order()[j],
        decreases 9 - i,
    {
        let (name, was) = earlier[i];
        let is: &SourceStatus = later[i].1;
        assert(name@ == earlier@[i as int].0@);
        let ghost said = texts(lines@);
        if was.stale != is.stale {
            let mut line = name.to_owned();
            if is.stale {
                line.append(" has stopped refreshing - that section of the page is out of date");
            } else {
                line.append(" is refreshing again");
            }
            lines.push(line);
            assert(texts(lines@) =~= said.push(line@));
        }
        i += 1;
    }
    lines
}

/// What the assembler waits for before it looks again.
#[derive(Debug, Clone, Copy, PartialEq, Eq, Structural)]
pub enum Wait {
    /// For a source to say something, for so many nanoseconds at most.
    ForNews { nanos: u64 },
    /// For the floor on how often the picture goes out to pass, which takes so many nanoseconds.
    ForFloor { nanos: u64 },
    /// For nothing: it is time to look.
    Over,
}

/// What the assembler has published, and when.
#[derive(Debug)]
pub struct Assembler {
    published: Option<Snapshot>,
    statuses: SourceStatuses,
    last_publish: Option<u64>,
}

/// What an [`Assembler`] holds.
pub struct AssemblerView {
    /// The sections that were published last.
    pub published: Option<Snapshot>,
    /// The statuses that were published last.
    pub statuses: SourceStatuses,
    /// When that was, in nanoseconds on a clock that never goes back.
    pub last_publish: Option<u64>,
}

impl View for Assembler {
    type V = AssemblerView;

    closed spec fn view(&self) -> AssemblerView {
        AssemblerView {
            published: self.published,
            statuses: self.statuses,
            last_publish: self.last_publish,
        }
    }
}

/// No section has moved since a snapshot was taken.
pub open spec fn is_current(snapshot: Snapshot, sources: Sources) -> bool {
    &&& snapshot.base.version == sources.base@.version
    &&& snapshot.processes.version == sources.processes@.version
    &&& snapshot.disks.version == sources.disks@.version
    &&& snapshot.temperatures.version == sources.temperatures@.version
    &&& snapshot.io_delay.version == sources.io_delay@.version
    &&& snapshot.lxc.version == sources.lxc@.version
    &&& snapshot.gpus.version == sources.gpus@.version
    &&& snapshot.cgroups.version == sources.cgroups@.version
    &&& snapshot.energy.version == sources.energy@.version
}

/// How long the sources have been watched for, as far as their staleness goes.
pub open spec fn watched_secs(state: State, now: Timestamp) -> i64 {
    match state.listeners@.watched_for(now) {
        Some(secs) => secs as i64,
        None => 0,
    }
}

/// The statuses of the sources at a moment.
pub open spec fn statuses_now(state: State, now: Timestamp) -> SourceStatuses {
    state.sources.statuses_at(now, watched_secs(state, now))
}

impl AssemblerView {
    /// How many nanoseconds there are to wait before the next look.
    pub open spec fn pause_at(self, instant: u64) -> int {
        match self.last_publish {
            Some(at) => if instant < at {
                MIN_PUBLISH_INTERVAL as int
            } else if instant - at < MIN_PUBLISH_INTERVAL {
                MIN_PUBLISH_INTERVAL - (instant - at)
            } else {
                0
            },
            None => 0,
        }
    }

    /// What there is to wait for, for an assembler that has waited since it last looked: for a
    /// source to say something, or for the heartbeat, and then for the floor.
    pub open spec fn wait_at(self, since: u64, instant: u64, is_notified: bool) -> Wait {
        if !is_notified && instant < since + HEARTBEAT {
            Wait::ForNews {
                nanos: if instant < since {
                    HEARTBEAT
                } else {
                    (since + HEARTBEAT - instant) as u64
                },
            }
        } else if self.pause_at(instant) > 0 {
            Wait::ForFloor { nanos: self.pause_at(instant) as u64 }
        } else {
            Wait::Over
        }
    }

    /// There is something new to send: a section has moved, or a status has changed.
    pub open spec fn has_news(self, state: State, now: Timestamp) -> bool {
        ||| self.published is None
        ||| !is_current(self.published->0, state.sources)
        ||| statuses_now(state, now) != self.statuses
    }

    /// The lines for the journal that go with what is new. Only while something is watching: with
    /// nobody there the sources park on purpose and every section reads as fresh again, which is
    /// not a source recovering.
    pub open spec fn news_lines(self, state: State, now: Timestamp) -> Seq<Seq<char>> {
        if state.listeners@.count == 0 {
            Seq::empty()
        } else {
            staleness_lines(self.statuses, statuses_now(state, now), 9)
        }
    }
}

impl Assembler {
    /// Nothing published yet.
    pub fn new() -> (assembler: Self)
        ensures
            assembler@.published is None,
            assembler@.statuses == SourceStatuses::unknown(),
            assembler@.last_publish is None,
    {
        Assembler { published: None, statuses: SourceStatuses::default(), last_publish: None }
    }

    /// Looks whether anything has changed, and if so puts the sections together and publishes them.
    /// Gives the lines for the journal where it did, and `None` where there was nothing new.
    pub fn assemble(&mut self, state: &mut State, now: Timestamp) -> (lines: Option<Vec<String>>)
        requires
            old(state).wf(),
            now.wf(),
        ensures
            lines is Some <==> old(self)@.has_news(*old(state), now),
            match lines {
                Some(lines) => {
                    &&& texts(lines@) == old(self)@.news_lines(*old(state), now)
                    &&& final(self)@.published is Some
                    &&& final(self)@.published->0.is_of(old(state).sources)
                    &&& final(self)@.statuses == statuses_now(*old(state), now)
                    &&& picture_shows(
                        final(state).stats,
                        final(self)@.published->0,
                        final(self)@.statuses,
                        now,
                    )
                },
                None => {
                    &&& final(self)@ == old(self)@
                    &&& final(state).stats == old(state).stats
                },
            },
            final(self)@.last_publish == old(self)@.last_publish,
            final(state).sources == old(state).sources,
            final(state).listeners == old(state).listeners,
            final(state).wf(),
    {
        let watching_for: Option<i64> = state.watching_for_secs(now);
        let snapshot = state.sources.snapshot();
        let watched: i64 = match watching_for {
            Some(secs) => secs,
            None => 0,
        };
        let next_statuses: SourceStatuses = state.sources.statuses(now, watched);
        let sections_moved: bool = match &self.published {
            Some(last) => !last.is_same(&snapshot),
            None => true,
        };
        if !sections_moved && next_statuses == self.statuses {
            return None;
        }
        let lines: Vec<String> = if watching_for.is_some() {
            report_staleness(&self.statuses, &next_statuses)
        } else {
            Vec::new()
        };
        assert(watching_for is None ==> texts(lines@) =~= Seq::empty());
        self.statuses = next_statuses;
        state.stats = publish(&snapshot, next_statuses, now);
        self.published = Some(snapshot);
        Some(lines)
    }

    /// The picture went out at a moment, in nanoseconds on a clock that never goes back.
    pub fn published_at(&mut self, instant: u64)
        ensures
            final(self)@ == (AssemblerView { last_publish: Some(instant), ..old(self)@ }),
    {
        self.last_publish = Some(instant);
    }

    /// What to wait for before the next look, having waited since the last, where a source has said
    /// something in the meantime or has not.
    pub fn wait(&self, since: u64, instant: u64, is_notified: bool) -> (wait: Wait)
        ensures
            wait == self@.wait_at(since, instant, is_notified),
            wait matches Wait::ForNews { nanos } ==> nanos <= HEARTBEAT,
    {
        let waited: u64 = instant.saturating_sub(since);
        if !is_notified && waited < HEARTBEAT {
            return Wait::ForNews { nanos: HEARTBEAT - waited };
        }
        let pause: u64 = self.pause(instant);
        if pause > 0 {
            Wait::ForFloor { nanos: pause }
        } else {
            Wait::Over
        }
    }

    /// How many nanoseconds to wait before the next look, so that the picture does not go out more
    /// often than the floor lets it.
    pub fn pause(&self, instant: u64) -> (nanos: u64)
        ensures
            nanos == self@.pause_at(instant),
    {
        match self.last_publish {
            Some(at) => {
                let since: u64 = instant.saturating_sub(at);
                if since < MIN_PUBLISH_INTERVAL {
                    MIN_PUBLISH_INTERVAL - since
                } else {
                    0
                }
            },
            None => 0,
        }
    }
}

impl Default for Assembler {
    fn default() -> (assembler: Self)
        ensures
            assembler@.published is None,
            assembler@.statuses == SourceStatuses::unknown(),
            assembler@.last_publish is None,
    {
        Assembler::new()
    }
}

/// A process is shown with the name of its container exactly when the container is in the list, and
/// it is the name of the first that has the container's id.
pub proof fn law_container_is_named(
    pid: u32,
    cgroups: Map<u32, ProcessCGroupInfo>,
    lxc: Seq<ProxmoxLxcStats>,
    at: int,
)
    requires
        cgroups.contains_key(pid),
        cgroups[pid].lxc_vm_id is Some,
        0 <= at <= lxc.len(),
        at < lxc.len() ==> lxc[at].vm_id == cgroups[pid].lxc_vm_id->0,
        forall|i: int| 0 <= i < at ==> (#[trigger] lxc[i]).vm_id != cgroups[pid].lxc_vm_id->0,
    ensures
        cgroup_info_of(pid, cgroups, lxc).lxc_name == (if at < lxc.len() {
            Some(lxc[at].name)
        } else {
            None
        }),
{
    lemma_first_name(cgroups[pid].lxc_vm_id->0, lxc, at);
}

proof fn lemma_first_name(vm_id: u32, lxc: Seq<ProxmoxLxcStats>, at: int)
    requires
        0 <= at <= lxc.len(),
        at < lxc.len() ==> lxc[at].vm_id == vm_id,
        forall|i: int| 0 <= i < at ==> (#[trigger] lxc[i]).vm_id != vm_id,
    ensures
        lxc_name_of(vm_id, lxc) == (if at < lxc.len() {
            Some(lxc[at].name)
        } else {
            None
        }),
    decreases lxc.len(),
{
    if lxc.len() > 0 && at > 0 {
        let rest = lxc.drop_first();
        assert forall|i: int| 0 <= i < at - 1 implies (#[trigger] rest[i]).vm_id != vm_id by {
            assert(rest[i] == lxc[i + 1]);
        }
        lemma_first_name(vm_id, rest, at - 1);
    }
}

/// Once the picture is published there is nothing new until a section moves or a status changes:
/// looking again at once finds nothing.
pub proof fn law_nothing_is_sent_twice(after: AssemblerView, state: State, now: Timestamp)
    requires
        after.published is Some,
        after.published->0.is_of(state.sources),
        after.statuses == statuses_now(state, now),
    ensures
        !after.has_news(state, now),
{
}

/// From one picture to the next look the floor passes, however often the sources say something: it
/// is not time to look before, and once the assembler has waited for as long as it is told to, the
/// floor has passed.
pub proof fn law_floor_is_kept(
    assembler: AssemblerView,
    at: u64,
    since: u64,
    instant: u64,
    is_notified: bool,
)
    requires
        assembler.last_publish == Some(at),
        instant >= at,
    ensures
        assembler.wait_at(since, instant, is_notified) is Over ==> instant >= at
            + MIN_PUBLISH_INTERVAL,
        instant + assembler.pause_at(instant) >= at + MIN_PUBLISH_INTERVAL,
        assembler.pause_at(instant) <= MIN_PUBLISH_INTERVAL,
{
}

/// The heart beats: with no source saying anything at all, it is time to look again once the
/// heartbeat has passed, and nothing that the assembler is told to wait for takes longer than that.
/// Where a source does say something, only the floor is waited for.
pub proof fn law_heartbeat_is_kept(
    assembler: AssemblerView,
    since: u64,
    instant: u64,
    is_notified: bool,
)
    requires
        since <= instant,
        assembler.last_publish matches Some(at) ==> at <= since,
    ensures
        instant >= since + HEARTBEAT ==> assembler.wait_at(since, instant, is_notified) is Over,
        match assembler.wait_at(since, instant, is_notified) {
            Wait::ForNews { nanos } => {
                &&& !is_notified
                &&& 0 < nanos <= HEARTBEAT
                &&& instant + nanos == since + HEARTBEAT
            },
            Wait::ForFloor { nanos } => {
                &&& is_notified
                &&& 0 < nanos <= MIN_PUBLISH_INTERVAL
                &&& instant + nanos <= since + HEARTBEAT
            },
            Wait::Over => is_notified || instant >= since + HEARTBEAT,
        },
{
}

/// The source of a section has not answered for longer than it may, and has been watched for longer
/// than that.
pub open spec fn is_silent<T>(slot: SlotView<T>, now: Timestamp, watching_for_secs: i64) -> bool {
    &&& slot.wf()
    &&& watching_for_secs > slot.patience_secs()
    &&& slot.last_ok != NEVER ==> now.unix_secs() - slot.last_ok > slot.patience_secs()
}

/// A source that asks something which never answers comes to be called stale on the page: whichever
/// it is, a picture that is put together once it has been silent for too long says so, and where
/// the one before did not, there is such a picture to send.
pub proof fn law_silence_reaches_the_page(
    assembler: AssemblerView,
    state: State,
    now: Timestamp,
)
    ensures
        ({
            let sources = state.sources;
            let watched = watched_secs(state, now);
            let shown = statuses_now(state, now);
            let news = assembler.has_news(state, now);
            let before = assembler.statuses;
            &&& is_silent(sources.base@, now, watched) ==> shown.base.stale && (before.base.stale
                || news)
            &&& is_silent(sources.processes@, now, watched) ==> shown.processes.stale && (
            before.processes.stale || news)
            &&& is_silent(sources.disks@, now, watched) ==> shown.disks.stale && (
            before.disks.stale || news)
            &&& is_silent(sources.temperatures@, now, watched) ==> shown.temperatures.stale && (
            before.temperatures.stale || news)
            &&& is_silent(sources.io_delay@, now, watched) ==> shown.io_delay.stale && (
            before.io_delay.stale || news)
            &&& is_silent(sources.lxc@, now, watched) ==> shown.lxc.stale && (before.lxc.stale
                || news)
            &&& is_silent(sources.gpus@, now, watched) ==> shown.gpus.stale && (before.gpus.stale
                || news)
            &&& is_silent(sources.cgroups@, now, watched) ==> shown.cgroups.stale && (
            before.cgroups.stale || news)
            &&& is_silent(sources.energy@, now, watched) ==> shown.energy.stale && (
            before.energy.stale || news)
        }),
{
    let sources = state.sources;
    let watched = watched_secs(state, now);
    if is_silent(sources.base@, now, watched) {
        law_silence_is_stale(sources.base@, now, watched);
    }
    if is_silent(sources.processes@, now, watched) {
        law_silence_is_stale(sources.processes@, now, watched);
    }
    if is_silent(sources.disks@, now, watched) {
        law_silence_is_stale(sources.disks@, now, watched);
    }
    if is_silent(sources.temperatures@, now, watched) {
        law_silence_is_stale(sources.temperatures@, now, watched);
    }
    if is_silent(sources.io_delay@, now, watched) {
        law_silence_is_stale(sources.io_delay@, now, watched);
    }
    if is_silent(sources.lxc@, now, watched) {
        law_silence_is_stale(sources.lxc@, now, watched);
    }
    if is_silent(sources.gpus@, now, watched) {
        law_silence_is_stale(sources.gpus@, now, watched);
    }
    if is_silent(sources.cgroups@, now, watched) {
        law_silence_is_stale(sources.cgroups@, now, watched);
    }
    if is_silent(sources.energy@, now, watched) {
        law_silence_is_stale(sources.energy@, now, watched);
    }
}

/// Whatever has moved reaches the page: where any section has moved since the picture was put
/// together, there is a new one to send, and the new one shows every section as its source has
/// gathered it last, those whose sources have long been silent as they were.
pub proof fn law_what_moves_reaches_the_page(
    assembler: AssemblerView,
    state: State,
    now: Timestamp,
    stats: SystemStats,
    snapshot: Snapshot,
)
    requires
        snapshot.is_of(state.sources),
        picture_shows(stats, snapshot, statuses_now(state, now), now),
    ensures
        assembler.published matches Some(last) && !is_current(last, state.sources)
            ==> assembler.has_news(state, now),
        *stats.base == state.sources.base@.value,
        *stats.disks == state.sources.disks@.value,
        *stats.temperatures == state.sources.temperatures@.value,
        stats.proxmox.io_delay == state.sources.io_delay@.value,
        *stats.proxmox.lxc == state.sources.lxc@.value,
        *stats.energy_usage == state.sources.energy@.value,
        stats.processes@ == joined_processes(
            state.sources.processes@.value@,
            state.sources.cgroups@.value@,
            state.sources.lxc@.value@,
        ),
        are_joined_gpus(
            stats.gpus@,
            state.sources.gpus@.value@,
            state.sources.cgroups@.value@,
            state.sources.lxc@.value@,
        ),
{
}

/// A source that stands still costs its own section and nothing else: each section of the picture
/// depends on what its own source has gathered, and the processes also on the containers that are
/// joined in.
pub proof fn law_sections_stand_alone(
    one: SystemStats,
    first: Snapshot,
    other: SystemStats,
    second: Snapshot,
    statuses: (SourceStatuses, SourceStatuses),
    moments: (Timestamp, Timestamp),
)
    requires
        picture_shows(one, first, statuses.0, moments.0),
        picture_shows(other, second, statuses.1, moments.1),
    ensures
        first.base.value == second.base.value ==> one.base == other.base,
        first.disks.value == second.disks.value ==> one.disks == other.disks,
        first.temperatures.value == second.temperatures.value ==> one.temperatures
            == other.temperatures,
        first.io_delay.value == second.io_delay.value ==> one.proxmox.io_delay
            == other.proxmox.io_delay,
        first.lxc.value == second.lxc.value ==> one.proxmox.lxc == other.proxmox.lxc,
        first.energy.value == second.energy.value ==> one.energy_usage == other.energy_usage,
        first.cgroups.value == second.cgroups.value && first.lxc.value == second.lxc.value ==> {
            &&& first.processes.value == second.processes.value ==> one.processes@
                == other.processes@
            &&& first.gpus.value == second.gpus.value ==> one.gpus@.len() == other.gpus@.len()
                && forall|i: int|
                0 <= i < one.gpus@.len() ==> (#[trigger] one.gpus@[i])@ == other.gpus@[i]@
        },
{
}

/// A process is shown in the containers that its own entry says. The join puts in the LXC's name
/// and changes nothing else: the number of the LXC, the docker container and its name stay what
/// they were, and where the entry says no LXC, all of it does. A process of which nothing is known
/// is shown in no container.
pub proof fn law_join_puts_in_the_name_only(
    pid: u32,
    cgroups: Map<u32, ProcessCGroupInfo>,
    lxc: Seq<ProxmoxLxcStats>,
)
    ensures
        ({
            let info = cgroup_info_of(pid, cgroups, lxc);
            let entry = cgroups[pid];
            &&& cgroups.contains_key(pid) ==> {
                &&& info.lxc_vm_id == entry.lxc_vm_id
                &&& info.docker_container_id == entry.docker_container_id
                &&& info.docker_container_name == entry.docker_container_name
                &&& entry.lxc_vm_id is None ==> info.lxc_name == entry.lxc_name
            }
            &&& !cgroups.contains_key(pid) ==> {
                &&& info.lxc_vm_id is None
                &&& info.lxc_name is None
                &&& info.docker_container_id is None
                &&& info.docker_container_name is None
            }
        }),
{
}

/// What a process is shown with depends on its own entry and on the container list alone, and of
/// the list only on the containers that have the number of its own.
pub proof fn law_join_looks_at_its_own_entry(
    pid: u32,
    one: Map<u32, ProcessCGroupInfo>,
    other: Map<u32, ProcessCGroupInfo>,
    lxc: Seq<ProxmoxLxcStats>,
    extra: ProxmoxLxcStats,
)
    requires
        one.contains_key(pid) == other.contains_key(pid),
        one.contains_key(pid) ==> one[pid] == other[pid],
    ensures
        cgroup_info_of(pid, one, lxc) == cgroup_info_of(pid, other, lxc),
        one.contains_key(pid) && one[pid].lxc_vm_id != Some(extra.vm_id) ==> cgroup_info_of(
            pid,
            one,
            lxc.push(extra),
        ) == cgroup_info_of(pid, one, lxc),
{
    if one.contains_key(pid) && one[pid].lxc_vm_id is Some && one[pid].lxc_vm_id != Some(
        extra.vm_id,
    ) {
        lemma_other_name(one[pid].lxc_vm_id->0, lxc, extra);
    }
}

proof fn lemma_other_name(vm_id: u32, lxc: Seq<ProxmoxLxcStats>, extra: ProxmoxLxcStats)
    requires
        extra.vm_id != vm_id,
    ensures
        lxc_name_of(vm_id, lxc.push(extra)) == lxc_name_of(vm_id, lxc),
    decreases lxc.len(),
{
    let more = lxc.push(extra);
    if lxc.len() > 0 {
        assert(more.drop_first() =~= lxc.drop_first().push(extra));
        lemma_other_name(vm_id, lxc.drop_first(), extra);
    } else {
        assert(more.drop_first() =~= lxc);
    }
}

/// The picture says when it was put together and how the sources were, and lists every process and
/// every card that was gathered, in order, with every figure as it was gathered; only what is known
/// of the containers is joined in.
pub proof fn law_picture_keeps_the_rows(
    stats: SystemStats,
    snapshot: Snapshot,
    statuses: SourceStatuses,
    now: Timestamp,
)
    requires
        picture_shows(stats, snapshot, statuses, now),
    ensures
        stats.updated_at == Some(now),
        stats.sources == statuses,
        stats.processes@.len() == snapshot.processes.value@.len(),
        forall|i: int|
            0 <= i < stats.processes@.len() ==> {
                let row = #[trigger] stats.processes@[i];
                let gathered = snapshot.processes.value@[i];
                &&& row.pid == gathered.pid
                &&& row.name == gathered.name
                &&& row.cpu_usage == gathered.cpu_usage
                &&& row.memory_used == gathered.memory_used
                &&& row.cgroup_info == cgroup_info_of(
                    gathered.pid,
                    snapshot.cgroups.value@,
                    snapshot.lxc.value@,
                )
            },
        stats.gpus@.len() == snapshot.gpus.value@.len(),
        forall|g: int|
            0 <= g < stats.gpus@.len() ==> {
                let card = #[trigger] stats.gpus@[g];
                let gathered = snapshot.gpus.value@[g];
                &&& card.name == gathered.name
                &&& card.temperature == gathered.temperature
                &&& card.utilization == gathered.utilization
                &&& card.power_usage_milliwatts == gathered.power_usage_milliwatts
                &&& card.memory == gathered.memory
                &&& card.processes@.len() == gathered.processes@.len()
            },
        forall|g: int, i: int|
            0 <= g < stats.gpus@.len() && 0 <= i < stats.gpus@[g].processes@.len() ==> {
                let row = #[trigger] stats.gpus@[g].processes@[i];
                let gathered = snapshot.gpus.value@[g].processes@[i];
                &&& row.pid == gathered.pid
                &&& row.process_name == gathered.process_name
                &&& row.memory_used == gathered.memory_used
                &&& row.cgroup_info == cgroup_info_of(
                    gathered.pid,
                    snapshot.cgroups.value@,
                    snapshot.lxc.value@,
                )
            },
{
    assert forall|g: int| 0 <= g < stats.gpus@.len() implies (#[trigger] stats.gpus@[g])@.processes
        == joined_gpu_processes(
        snapshot.gpus.value@[g].processes@,
        snapshot.cgroups.value@,
        snapshot.lxc.value@,
    ) && stats.gpus@[g]@.name == snapshot.gpus.value@[g]@.name by {}
    assert forall|g: int, i: int|
        0 <= g < stats.gpus@.len() && 0 <= i < stats.gpus@[g].processes@.len() implies {
        let row = #[trigger] stats.gpus@[g].processes@[i];
        let gathered = snapshot.gpus.value@[g].processes@[i];
        &&& row.pid == gathered.pid
        &&& row.process_name == gathered.process_name
        &&& row.memory_used == gathered.memory_used
        &&& row.cgroup_info == cgroup_info_of(
            gathered.pid,
            snapshot.cgroups.value@,
            snapshot.lxc.value@,
        )
    } by {
        assert(stats.gpus@[g]@.processes[i] == stats.gpus@[g].processes@[i]);
    }
}

/// Where the staleness of a source has changed.
proof fn lemma_lines_of_changes(before: SourceStatuses, after: SourceStatuses, count: nat)
    requires
        count <= 9,
    ensures
        staleness_lines(before, after, count) == Seq::new(count, |i: int| i).filter(
            |i: int| before.in_order()[i].stale != after.in_order()[i].stale,
        ).map_values(
            |i: int|
                SourceStatuses::source_names()[i] + (if after.in_order()[i].stale {
                    " has stopped refreshing - that section of the page is out of date"@
                } else {
                    " is refreshing again"@
                }),
        ),
    decreases count,
{
    reveal(Seq::filter);
    let changed = |i: int| before.in_order()[i].stale != after.in_order()[i].stale;
    let line = |i: int|
        SourceStatuses::source_names()[i] + (if after.in_order()[i].stale {
            " has stopped refreshing - that section of the page is out of date"@
        } else {
            " is refreshing again"@
        });
    let all = Seq::new(count, |i: int| i);
    if count == 0 {
        assert(all.filter(changed).map_values(line) =~= Seq::empty());
    } else {
        let fewer = Seq::new((count - 1) as nat, |i: int| i);
        lemma_lines_of_changes(before, after, (count - 1) as nat);
        assert(all.drop_last() =~= fewer);
        assert(all.filter(changed).map_values(line) =~= (if changed(count - 1) {
            fewer.filter(changed).map_values(line).push(line(count - 1))
        } else {
            fewer.filter(changed).map_values(line)
        }));
    }
}

/// The journal says of every source that has come to be stale that it has stopped, and of every one
/// that is not stale any more that it goes on: one line each, in the order of the sources, and
/// nothing of the others. It does so while somebody is watching, and says nothing while nobody is.
pub proof fn law_journal_says_what_changed(assembler: AssemblerView, state: State, now: Timestamp)
    ensures
        ({
            let before = assembler.statuses.in_order();
            let after = statuses_now(state, now).in_order();
            assembler.news_lines(state, now) == (if state.listeners@.count == 0 {
                Seq::empty()
            } else {
                Seq::new(9, |i: int| i).filter(
                    |i: int| before[i].stale != after[i].stale,
                ).map_values(
                    |i: int|
                        SourceStatuses::source_names()[i] + (if after[i].stale {
                            " has stopped refreshing - that section of the page is out of date"@
                        } else {
                            " is refreshing again"@
                        }),
                )
            })
        }),
{
    let before = assembler.statuses;
    let after = statuses_now(state, now);
    lemma_lines_of_changes(before, after, 9);
    let one = |i: int| before.in_order()[i].stale != after.in_order()[i].stale;
    let old_order = before.in_order();
    let new_order = after.in_order();
    let other = |i: int| old_order[i].stale != new_order[i].stale;
    assert(one =~= other);
}

/// There is a new picture exactly where there was none yet, where a section has moved since, or
/// where a status, be it only its time, has changed since.
pub proof fn law_any_change_is_news(assembler: AssemblerView, state: State, now: Timestamp)
    ensures
        assembler.published is None ==> assembler.has_news(state, now),
        statuses_now(state, now) != assembler.statuses ==> assembler.has_news(state, now),
        assembler.published matches Some(last) && last.is_of(state.sources) && statuses_now(
            state,
            now,
        ) == assembler.statuses ==> !assembler.has_news(state, now),
{
}

/// The sources are judged by how long somebody has been watching, and with nobody there none is
/// called stale.
pub proof fn law_judged_by_the_watching(state: State, now: Timestamp, i: int)
    requires
        state.wf(),
        now.wf(),
        0 <= i < 9,
    ensures
        state.listeners@.count == 0 ==> watched_secs(state, now) == 0,
        state.listeners@.count == 0 ==> !statuses_now(state, now).in_order()[i].stale,
        state.listeners@.count > 0 ==> watched_secs(state, now) == now.unix_secs()
            - state.listeners@.since,
        statuses_now(state, now) == state.sources.statuses_at(now, watched_secs(state, now)),
{
}

/// The floor of a tenth of a second is waited for to the nanosecond and no longer: a picture that
/// went out less than that ago lets the next one out exactly when it has passed, and one that went
/// out longer ago, or never, lets it out at once. Where no source says anything, a second is waited
/// for news before that.
pub proof fn law_floor_is_not_overstayed(assembler: AssemblerView, since: u64, instant: u64)
    ensures
        assembler.last_publish is None ==> assembler.pause_at(instant) == 0,
        assembler.last_publish matches Some(at) ==> {
            &&& instant >= at + 100_000_000 ==> assembler.pause_at(instant) == 0
            &&& at <= instant < at + 100_000_000 ==> instant + assembler.pause_at(instant) == at
                + 100_000_000
        },
        assembler.pause_at(instant) == 0 <==> assembler.wait_at(since, instant, true) is Over,
        assembler.pause_at(instant) > 0 ==> assembler.wait_at(since, instant, true) == (
        Wait::ForFloor { nanos: assembler.pause_at(instant) as u64 }),
        since <= instant < since + 1_000_000_000 ==> assembler.wait_at(since, instant, false) == (
        Wait::ForNews { nanos: (since + 1_000_000_000 - instant) as u64 }),
        instant >= since + 1_000_000_000 ==> assembler.wait_at(since, instant, false)
            == assembler.wait_at(since, instant, true),
{
}

} // verus!
