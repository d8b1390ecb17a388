//! Gathering the statistics the page shows.
//!
//! Every statistic has its own source, refreshing at its own rate and publishing into its own
//! slot. Nothing here waits on anything else, which is the point: a source that is slow, or that
//! asks something which never answers, can only leave its own section standing still.

use std::collections::HashMap;

use vstd::prelude::*;
use vstd::string::*;

use crate::clock::{unix_secs_of, Timestamp, MAX_UNIX_SECS, MIN_UNIX_SECS};
use crate::get_stats::{
    base_shows, components_show, disks_show, fill_disks, fill_processes, fill_temperatures,
    processes_show, ComponentReading, DiskReading, SystemReading,
};
use crate::numbers::Float64;
use crate::nvidia::{gpu_pids, pids_on};
use crate::slots::{
    is_history, law_version_tells_gathers_apart, times_moved, Held, Slot, SlotView,
    MIN_STALE_AFTER_SECS, NEVER,
};
use crate::sorting::{in_order, sort_by_key, Keyed};
use crate::structures::{
    BaseSystemStats, BaseSystemView, DiskStats, EnergyUsage, GpuStats, ProcessCGroupInfo,
    ProcessStats, ProxmoxLxcStats, Section, SourceStatuses, SystemStats, TemperatureStats,
};
use crate::tapo::EnergyResult;

verus! {

// How often each source goes back to whatever it reads. They differ by an order of magnitude
// because the things behind them do: a CPU figure is worth four a second, and the container list
// costs a `pvesh` process to fetch and barely moves between one second and the next.

/// Milliseconds between two gathers of the CPU, the memory and the processes.
pub const SYSTEM_INTERVAL: u32 = 250;

/// Milliseconds between two gathers of the IO delay.
pub const IO_DELAY_INTERVAL: u32 = 250;

/// Milliseconds between two gathers of the graphics cards.
pub const GPU_INTERVAL: u32 = 500;

/// Milliseconds between two gathers of what container each process is in.
pub const CGROUP_INTERVAL: u32 = 500;

/// Milliseconds between two looks at the energy plug.
pub const ENERGY_INTERVAL: u32 = 1_000;

/// Milliseconds between two gathers of the container list.
pub const LXC_INTERVAL: u32 = 2_000;

/// Milliseconds between two gathers of the temperatures.
pub const TEMPERATURE_INTERVAL: u32 = 2_000;

/// Milliseconds between two gathers of the disks.
pub const DISK_INTERVAL: u32 = 5_000;

/// Every section.
#[derive(Debug)]
pub struct Sources {
    pub base: Slot<BaseSystemStats>,
    pub processes: Slot<Vec<ProcessStats>>,
    pub disks: Slot<Vec<DiskStats>>,
    pub temperatures: Slot<Vec<TemperatureStats>>,
    pub io_delay: Slot<Float64>,
    pub lxc: Slot<Vec<ProxmoxLxcStats>>,
    pub gpus: Slot<Vec<GpuStats>>,
    pub cgroups: Slot<HashMap<u32, ProcessCGroupInfo>>,
    pub energy: Slot<Option<EnergyUsage>>,
}

/// A slot whose source has never answered.
pub open spec fn is_fresh<T>(slot: SlotView<T>, interval_millis: u32) -> bool {
    &&& slot.version == 0
    &&& slot.last_ok == NEVER
    &&& slot.interval_millis == interval_millis
}

impl Sources {
    /// No source has answered yet.
    pub open spec fn is_blank(self) -> bool {
        &&& is_fresh(self.base@, SYSTEM_INTERVAL)
        &&& self.base@.value@ == BaseSystemView::blank()
        &&& is_fresh(self.processes@, SYSTEM_INTERVAL)
        &&& self.processes@.value@.len() == 0
        &&& is_fresh(self.disks@, DISK_INTERVAL)
        &&& self.disks@.value@.len() == 0
        &&& is_fresh(self.temperatures@, TEMPERATURE_INTERVAL)
        &&& self.temperatures@.value@.len() == 0
        &&& is_fresh(self.io_delay@, IO_DELAY_INTERVAL)
        &&& self.io_delay@.value.bits == 0
        &&& is_fresh(self.lxc@, LXC_INTERVAL)
        &&& self.lxc@.value@.len() == 0
        &&& is_fresh(self.gpus@, GPU_INTERVAL)
        &&& self.gpus@.value@.len() == 0
        &&& is_fresh(self.cgroups@, CGROUP_INTERVAL)
        &&& self.cgroups@.value@ == Map::<u32, ProcessCGroupInfo>::empty()
        &&& is_fresh(self.energy@, ENERGY_INTERVAL)
        &&& self.energy@.value is None
    }

    /// The status of every source.
    pub open spec fn statuses_at(self, now: Timestamp, watching_for_secs: i64) -> SourceStatuses {
        SourceStatuses {
            base: self.base@.status_at(now, watching_for_secs),
            processes: self.processes@.status_at(now, watching_for_secs),
            disks: self.disks@.status_at(now, watching_for_secs),
            temperatures: self.temperatures@.status_at(now, watching_for_secs),
            io_delay: self.io_delay@.status_at(now, watching_for_secs),
            lxc: self.lxc@.status_at(now, watching_for_secs),
            gpus: self.gpus@.status_at(now, watching_for_secs),
            cgroups: self.cgroups@.status_at(now, watching_for_secs),
            energy: self.energy@.status_at(now, watching_for_secs),
        }
    }

    /// Every section as it stands.
    pub fn snapshot(&self) -> (snapshot: Snapshot)
        ensures
            snapshot.is_of(*self),
    {
        Snapshot {
            base: self.base.load(),
            processes: self.processes.load(),
            disks: self.disks.load(),
            temperatures: self.temperatures.load(),
            io_delay: self.io_delay.load(),
            lxc: self.lxc.load(),
            gpus: self.gpus.load(),
            cgroups: self.cgroups.load(),
            energy: self.energy.load(),
        }
    }

    /// The status of every source.
    pub fn statuses(&self, now: Timestamp, watching_for_secs: i64) -> (statuses: SourceStatuses)
        requires
            now.wf(),
        ensures
            statuses == self.statuses_at(now, watching_for_secs),
    {
        SourceStatuses {
            base: self.base.status(now, watching_for_secs),
            processes: self.processes.status(now, watching_for_secs),
            disks: self.disks.status(now, watching_for_secs),
            temperatures: self.temperatures.status(now, watching_for_secs),
            io_delay: self.io_delay.status(now, watching_for_secs),
            lxc: self.lxc.status(now, watching_for_secs),
            gpus: self.gpus.status(now, watching_for_secs),
            cgroups: self.cgroups.status(now, watching_for_secs),
            energy: self.energy.status(now, watching_for_secs),
        }
    }
}

/// A page that has just been opened shows nothing as stale: no source is given less time than the
/// floor, so as long as nobody has watched for longer than that, none is judged.
pub proof fn law_new_watcher_sees_nothing_stale(
    sources: Sources,
    now: Timestamp,
    watching_for_secs: i64,
)
    requires
        watching_for_secs <= MIN_STALE_AFTER_SECS,
    ensures
        forall|i: int|
            0 <= i < 9 ==> !(#[trigger] sources.statuses_at(
                now,
                watching_for_secs,
            ).in_order()[i]).stale,
{
}

impl Default for Sources {
    fn default() -> (sources: Self)
        ensures
            sources.is_blank(),
    {
        Sources {
            base: Slot::new(BaseSystemStats::default(), SYSTEM_INTERVAL),
            processes: Slot::new(Vec::new(), SYSTEM_INTERVAL),
            disks: Slot::new(Vec::new(), DISK_INTERVAL),
            temperatures: Slot::new(Vec::new(), TEMPERATURE_INTERVAL),
            io_delay: Slot::new(Float64::zero(), IO_DELAY_INTERVAL),
            lxc: Slot::new(Vec::new(), LXC_INTERVAL),
            gpus: Slot::new(Vec::new(), GPU_INTERVAL),
            cgroups: Slot::new(HashMap::new(), CGROUP_INTERVAL),
            energy: Slot::new(None, ENERGY_INTERVAL),
        }
    }
}

/// Every section as it stood at one moment, held by pointer.
#[derive(Debug)]
pub struct Snapshot {
    pub base: Held<BaseSystemStats>,
    pub processes: Held<Vec<ProcessStats>>,
    pub disks: Held<Vec<DiskStats>>,
    pub temperatures: Held<Vec<TemperatureStats>>,
    pub io_delay: Held<Float64>,
    pub lxc: Held<Vec<ProxmoxLxcStats>>,
    pub gpus: Held<Vec<GpuStats>>,
    pub cgroups: Held<HashMap<u32, ProcessCGroupInfo>>,
    pub energy: Held<Option<EnergyUsage>>,
}

/// What a slot holds is held here.
pub open spec fn holds<T>(held: Held<T>, slot: SlotView<T>) -> bool {
    *held.value == slot.value && held.version == slot.version
}

impl Snapshot {
    /// Every section is as the sources have it.
    pub open spec fn is_of(self, sources: Sources) -> bool {
        &&& holds(self.base, sources.base@)
        &&& holds(self.processes, sources.processes@)
        &&& holds(self.disks, sources.disks@)
        &&& holds(self.temperatures, sources.temperatures@)
        &&& holds(self.io_delay, sources.io_delay@)
        &&& holds(self.lxc, sources.lxc@)
        &&& holds(self.gpus, sources.gpus@)
        &&& holds(self.cgroups, sources.cgroups@)
        &&& holds(self.energy, sources.energy@)
    }

    /// Nothing at all has moved between the two.
    pub open spec fn unmoved(self, other: Self) -> bool {
        &&& self.base.version == other.base.version
        &&& self.processes.version == other.processes.version
        &&& self.disks.version == other.disks.version
        &&& self.temperatures.version == other.temperatures.version
        &&& self.io_delay.version == other.io_delay.version
        &&& self.lxc.version == other.lxc.version
        &&& self.gpus.version == other.gpus.version
        &&& self.cgroups.version == other.cgroups.version
        &&& self.energy.version == other.energy.version
    }

    /// Whether nothing at all has moved since `other`, by gather rather than by value: a source
    /// that republishes an equal section never gets this far, so identical gathers mean there is
    /// genuinely nothing new to send.
    pub fn is_same(&self, other: &Self) -> (yes: bool)
        ensures
            yes == self.unmoved(*other),
    {
        self.base.is_same_gather(&other.base) && self.processes.is_same_gather(&other.processes)
            && self.disks.is_same_gather(&other.disks) && self.temperatures.is_same_gather(
            &other.temperatures,
        ) && self.io_delay.is_same_gather(&other.io_delay) && self.lxc.is_same_gather(&other.lxc)
            && self.gpus.is_same_gather(&other.gpus) && self.cgroups.is_same_gather(&other.cgroups)
            && self.energy.is_same_gather(&other.energy)
    }
}

/// The states of one slot over the states of all of them.
pub open spec fn states_of<T>(
    sources: Seq<Sources>,
    slot: spec_fn(Sources) -> SlotView<T>,
) -> Seq<SlotView<T>> {
    Seq::new(sources.len(), |i: int| slot(sources[i]))
}

/// One slot has a history, and has not moved so often in it that its versions come round.
pub open spec fn is_short_history<T>(states: Seq<SlotView<T>>) -> bool {
    is_history(states) && times_moved(states) < 0x1_0000_0000_0000_0000
}

/// What is held of a slot at the beginning and at the end of its history is the same gather exactly
/// where the slot has not moved, and then it is the same value.
proof fn lemma_held_tells<T>(first: Held<T>, second: Held<T>, states: Seq<SlotView<T>>)
    requires
        states.len() > 0,
        is_short_history(states),
        holds(first, states[0]),
        holds(second, states.last()),
    ensures
        first.version == second.version <==> times_moved(states) == 0,
        first.version == second.version ==> *first.value == *second.value,
{
    law_version_tells_gathers_apart(states);
}

/// Two snapshots of the same sources, one after the other, are the same exactly where no section
/// has moved in between: sources that only answered with what they had already published have not
/// moved theirs, and one that handed anything on has. Where they are the same, so is every value in
/// them.
pub proof fn law_snapshots_tell_what_moved(
    first: Snapshot,
    second: Snapshot,
    sources: Seq<Sources>,
)
    requires
        sources.len() > 0,
        first.is_of(sources[0]),
        second.is_of(sources.last()),
        is_short_history(states_of(sources, |s: Sources| s.base@)),
        is_short_history(states_of(sources, |s: Sources| s.processes@)),
        is_short_history(states_of(sources, |s: Sources| s.disks@)),
        is_short_history(states_of(sources, |s: Sources| s.temperatures@)),
        is_short_history(states_of(sources, |s: Sources| s.io_delay@)),
        is_short_history(states_of(sources, |s: Sources| s.lxc@)),
        is_short_history(states_of(sources, |s: Sources| s.gpus@)),
        is_short_history(states_of(sources, |s: Sources| s.cgroups@)),
        is_short_history(states_of(sources, |s: Sources| s.energy@)),
    ensures
        first.unmoved(second) <==> {
            &&& times_moved(states_of(sources, |s: Sources| s.base@)) == 0
            &&& times_moved(states_of(sources, |s: Sources| s.processes@)) == 0
            &&& times_moved(states_of(sources, |s: Sources| s.disks@)) == 0
            &&& times_moved(states_of(sources, |s: Sources| s.temperatures@)) == 0
            &&& times_moved(states_of(sources, |s: Sources| s.io_delay@)) == 0
            &&& times_moved(states_of(sources, |s: Sources| s.lxc@)) == 0
            &&& times_moved(states_of(sources, |s: Sources| s.gpus@)) == 0
            &&& times_moved(states_of(sources, |s: Sources| s.cgroups@)) == 0
            &&& times_moved(states_of(sources, |s: Sources| s.energy@)) == 0
        },
        first.unmoved(second) ==> {
            &&& *first.base.value == *second.base.value
            &&& *first.processes.value == *second.processes.value
            &&& *first.disks.value == *second.disks.value
            &&& *first.temperatures.value == *second.temperatures.value
            &&& *first.io_delay.value == *second.io_delay.value
            &&& *first.lxc.value == *second.lxc.value
            &&& *first.gpus.value == *second.gpus.value
            &&& *first.cgroups.value == *second.cgroups.value
            &&& *first.energy.value == *second.energy.value
        },
{
    lemma_held_tells(first.base, second.base, states_of(sources, |s: Sources| s.base@));
    lemma_held_tells(
        first.processes,
        second.processes,
        states_of(sources, |s: Sources| s.processes@),
    );
    lemma_held_tells(first.disks, second.disks, states_of(sources, |s: Sources| s.disks@));
    lemma_held_tells(
        first.temperatures,
        second.temperatures,
        states_of(sources, |s: Sources| s.temperatures@),
    );
    lemma_held_tells(first.io_delay, second.io_delay, states_of(sources, |s: Sources| s.io_delay@));
    lemma_held_tells(first.lxc, second.lxc, states_of(sources, |s: Sources| s.lxc@));
    lemma_held_tells(first.gpus, second.gpus, states_of(sources, |s: Sources| s.gpus@));
    lemma_held_tells(first.cgroups, second.cgroups, states_of(sources, |s: Sources| s.cgroups@));
    lemma_held_tells(first.energy, second.energy, states_of(sources, |s: Sources| s.energy@));
}

/// Who is watching.
#[derive(Debug)]
pub struct Listeners {
    count: usize,
    since: i64,
}

/// What [`Listeners`] hold.
pub struct ListenersView {
    /// How many are watching.
    pub count: usize,
    /// Unix seconds of when the first of them arrived, or [`NEVER`] if nothing is watching.
    pub since: i64,
}

impl View for Listeners {
    type V = ListenersView;

    closed spec fn view(&self) -> ListenersView {
        ListenersView { count: self.count, since: self.since }
    }
}

impl ListenersView {
    /// Since when something has been watching is known exactly while something is.
    pub open spec fn wf(self) -> bool {
        &&& self.count == 0 <==> self.since == NEVER
        &&& self.since != NEVER ==> MIN_UNIX_SECS <= self.since <= MAX_UNIX_SECS
    }

    /// Nothing is watching.
    pub open spec fn nobody() -> Self {
        ListenersView { count: 0, since: NEVER }
    }

    /// One more is watching from a moment on.
    pub open spec fn added(self, now: Timestamp) -> Self {
        ListenersView {
            count: (self.count + 1) as usize,
            since: if self.count == 0 {
                now.unix_secs() as i64
            } else {
                self.since
            },
        }
    }

    /// One fewer is watching.
    pub open spec fn removed(self) -> Self {
        ListenersView {
            count: (self.count - 1) as usize,
            since: if self.count == 1 {
                NEVER
            } else {
                self.since
            },
        }
    }

    /// A source parks: nothing is watching.
    pub open spec fn parks(self) -> bool {
        self.count == 0
    }

    /// How long something has been watching.
    pub open spec fn watched_for(self, now: Timestamp) -> Option<int> {
        if self.count == 0 {
            None
        } else {
            Some(now.unix_secs() - self.since)
        }
    }
}

impl Listeners {
    fn new() -> (listeners: Self)
        ensures
            listeners@ == ListenersView::nobody(),
    {
        Listeners { count: 0, since: NEVER }
    }
}

/// Somebody comes to watch, or goes.
pub enum ListenerEvent {
    /// One more is watching from a moment on.
    Added(Timestamp),
    /// One fewer is watching.
    Removed,
}

/// Who is watching after some have come and gone, where there was nobody at first.
pub open spec fn listeners_after(events: Seq<ListenerEvent>) -> ListenersView
    decreases events.len(),
{
    if events.len() == 0 {
        ListenersView::nobody()
    } else {
        let before = listeners_after(events.drop_last());
        match events.last() {
            ListenerEvent::Added(now) => before.added(now),
            ListenerEvent::Removed => before.removed(),
        }
    }
}

/// How many of those who came are still there.
pub open spec fn still_there(events: Seq<ListenerEvent>) -> int
    decreases events.len(),
{
    if events.len() == 0 {
        0
    } else {
        still_there(events.drop_last()) + (if events.last() is Added {
            1int
        } else {
            -1int
        })
    }
}

/// Nobody goes who has not come, nobody comes at a moment that the calendar cannot name, and there
/// are never more than can be counted.
pub open spec fn comings_and_goings(events: Seq<ListenerEvent>) -> bool
    decreases events.len(),
{
    events.len() > 0 ==> {
        &&& comings_and_goings(events.drop_last())
        &&& 0 <= still_there(events) <= usize::MAX
        &&& events.last() matches ListenerEvent::Added(now) ==> now.wf()
    }
}

/// A source parks exactly while nobody who came is still there. So one that finds somebody there
/// does not park, and one that has parked goes on once the next has come, for as long as anybody
/// stays.
pub proof fn law_sources_park_while_nobody_watches(events: Seq<ListenerEvent>)
    requires
        comings_and_goings(events),
    ensures
        listeners_after(events).wf(),
        listeners_after(events).count == still_there(events),
        listeners_after(events).parks() <==> still_there(events) == 0,
        events.len() > 0 && events.last() is Added ==> !listeners_after(events).parks(),
    decreases events.len(),
{
    if events.len() > 0 {
        law_sources_park_while_nobody_watches(events.drop_last());
    }
}

/// Everything there is to watch, and who does.
#[derive(Debug)]
pub struct State {
    pub stats: SystemStats,
    pub sources: Sources,
    pub listeners: Listeners,
}

impl State {
    /// What is known of the listeners is consistent.
    pub open spec fn wf(self) -> bool {
        self.listeners@.wf()
    }

    /// Nothing gathered, nobody watching.
    pub fn new() -> (state: Self)
        ensures
            state.wf(),
            state.listeners@.count == 0,
            state.sources.is_blank(),
            state.stats.is_blank(),
    {
        State {
            stats: SystemStats::default(),
            sources: Sources::default(),
            listeners: Listeners::new(),
        }
    }

    /// How many are watching.
    pub fn listener_count(&self) -> (count: usize)
        ensures
            count == self.listeners@.count,
    {
        self.listeners.count
    }

    /// One more is watching.
    pub fn add_listener(&mut self, now: Timestamp)
        requires
            old(self).wf(),
            old(self).listeners@.count < usize::MAX,
            now.wf(),
        ensures
            final(self).wf(),
            final(self).listeners@ == old(self).listeners@.added(now),
            final(self).listeners@.count == old(self).listeners@.count + 1,
            final(self).listeners@.since == (if old(self).listeners@.count == 0 {
                now.unix_secs()
            } else {
                old(self).listeners@.since as int
            }),
            final(self).stats == old(self).stats,
            final(self).sources == old(self).sources,
    {
        if self.listeners.count == 0 {
            self.listeners.since = unix_secs_of(now);
        }
        self.listeners.count += 1;
    }

    /// One fewer is watching.
    pub fn remove_listener(&mut self)
        requires
            old(self).wf(),
            old(self).listeners@.count > 0,
        ensures
            final(self).wf(),
            final(self).listeners@ == old(self).listeners@.removed(),
            final(self).listeners@.count == old(self).listeners@.count - 1,
            final(self).stats == old(self).stats,
            final(self).sources == old(self).sources,
    {
        self.listeners.count -= 1;
        if self.listeners.count == 0 {
            self.listeners.since = NEVER;
        }
    }

    /// Whether a source is to park: nothing is watching. Every source starts its round with this,
    /// so a machine nobody has the page open on does no work at all.
    pub fn wait_for_listeners(&self) -> (park: bool)
        ensures
            park == self.listeners@.parks(),
    {
        self.listeners.count == 0
    }

    /// How long something has been watching, or `None` if nothing is.
    pub fn watching_for_secs(&self, now: Timestamp) -> (secs: Option<i64>)
        requires
            self.wf(),
            now.wf(),
        ensures
            match secs {
                Some(secs) => self.listeners@.watched_for(now) == Some(secs as int),
                None => self.listeners@.watched_for(now) is None,
            },
    {
        if self.listeners.since == NEVER {
            None
        } else {
            Some(unix_secs_of(now) - self.listeners.since)
        }
    }
}

impl Default for State {
    fn default() -> (state: Self)
        ensures
            state.wf(),
            state.listeners@.count == 0,
            state.sources.is_blank(),
            state.stats.is_blank(),
    {
        State::new()
    }
}

/// Says a source's failure once rather than on every round.
///
/// A source that cannot reach what it reads usually cannot reach it for a while, and at four
/// rounds a second that fills the journal with the same line. The section's staleness carries the
/// ongoing signal; this is only for saying what went wrong.
pub struct ErrorLog {
    source: &'static str,
    last: Option<String>,
}

impl ErrorLog {
    /// The source that the log speaks for.
    pub closed spec fn source_name(self) -> Seq<char> {
        self.source@
    }

    /// The failure that was said last, unless the source has answered since.
    pub closed spec fn last_said(self) -> Option<Seq<char>> {
        match self.last {
            Some(text) => Some(text@),
            None => None,
        }
    }

    /// The line for the journal.
    pub open spec fn line(source: Seq<char>, error: Seq<char>) -> Seq<char> {
        source + " error: "@ + error
    }

    /// A failure has been taken: its line is said unless it is the one that was said last.
    pub open spec fn takes(self, error: Seq<char>, after: Self, line: Option<String>) -> bool {
        &&& after.source_name() == self.source_name()
        &&& after.last_said() == Some(error)
        &&& match line {
            Some(text) => self.last_said() != Some(error) && text@ == ErrorLog::line(
                self.source_name(),
                error,
            ),
            None => self.last_said() == Some(error),
        }
    }

    /// A log that has said nothing yet.
    pub fn new(source: &'static str) -> (log: Self)
        ensures
            log.source_name() == source@,
            log.last_said() is None,
    {
        ErrorLog { source, last: None }
    }

    /// Takes a failure, and gives the line to say unless it is the one that was said last.
    pub fn failed(&mut self, error: String) -> (line: Option<String>)
        ensures
            old(self).takes(error@, *final(self), line),
    {
        let said: bool = match &self.last {
            Some(last) => *last == error,
            None => false,
        };
        if said {
            return None;
        }
        let mut line = self.source.to_owned();
        line.append(" error: ");
        line.append(error.as_str());
        self.last = Some(error);
        Some(line)
    }

    /// The source has answered.
    pub fn ok(&mut self)
        ensures
            final(self).source_name() == old(self).source_name(),
            final(self).last_said() is None,
    {
        self.last = None;
    }
}

/// A failure that goes on is said once, and once more after the source has answered in between.
pub proof fn law_failure_is_said_once(
    log: ErrorLog,
    error: Seq<char>,
    after: ErrorLog,
    line: Option<String>,
    later: ErrorLog,
    later_line: Option<String>,
)
    requires
        log.takes(error, after, line),
        after.takes(error, later, later_line),
    ensures
        later_line is None,
        log.last_said() is None ==> line is Some,
{
}

/// What came of a source's round.
#[derive(Debug)]
pub struct Outcome {
    /// Whether a section has moved.
    pub moved: bool,
    /// The line for the journal.
    pub say: Option<String>,
}

/// A gather built fresh was published.
pub open spec fn is_published<T: Section>(
    before: SlotView<T>,
    value: T,
    now: Timestamp,
    after: SlotView<T>,
    moved: bool,
) -> bool {
    &&& moved == !before.value.same_as(&value)
    &&& after == (if moved {
        before.moved_to(value, now)
    } else {
        before.marked_ok(now)
    })
}

/// A source's answer was taken: a gather is published, and a failure leaves the section standing.
pub open spec fn is_taken<T: Section>(
    before: (SlotView<T>, ErrorLog),
    answer: Result<T, String>,
    now: Timestamp,
    after: (SlotView<T>, ErrorLog),
    outcome: Outcome,
) -> bool {
    match answer {
        Ok(value) => {
            &&& is_published(before.0, value, now, after.0, outcome.moved)
            &&& outcome.say is None
            &&& after.1.source_name() == before.1.source_name()
            &&& after.1.last_said() is None
        },
        Err(error) => {
            &&& after.0 == before.0
            &&& !outcome.moved
            &&& before.1.takes(error@, after.1, outcome.say)
        },
    }
}

fn take_answer<T: Section>(
    slot: &mut Slot<T>,
    answer: Result<T, String>,
    log: &mut ErrorLog,
    now: Timestamp,
) -> (outcome: Outcome)
    requires
        now.wf(),
    ensures
        is_taken((old(slot)@, *old(log)), answer, now, (final(slot)@, *final(log)), outcome),
{
    match answer {
        Ok(value) => {
            log.ok();
            Outcome { moved: slot.publish_owned(value, now), say: None }
        },
        Err(error) => Outcome { moved: false, say: log.failed(error) },
    }
}

impl Sources {
    /// A round of the CPU, the memory and the processes using them. Says whether either section has
    /// moved.
    pub fn system_source(
        &mut self,
        base: &mut BaseSystemStats,
        processes: &mut Vec<ProcessStats>,
        system: &SystemReading,
        now: Timestamp,
    ) -> (moved: bool)
        requires
            now.wf(),
        ensures
            base_shows(*final(base), *system),
            processes_show(final(processes)@, system.processes@),
            ({
                let base_moved = !old(self).base@.value.same_as(final(base));
                let processes_moved = !old(self).processes@.value.same_as(final(processes));
                &&& moved == (base_moved || processes_moved)
                &&& final(self).base@ == (if base_moved {
                    old(self).base@.moved_to(final(self).base@.value, now)
                } else {
                    old(self).base@.marked_ok(now)
                })
                &&& base_moved ==> base_shows(final(self).base@.value, *system)
                &&& final(self).processes@ == (if processes_moved {
                    old(self).processes@.moved_to(final(self).processes@.value, now)
                } else {
                    old(self).processes@.marked_ok(now)
                })
                &&& processes_moved ==> final(self).processes@.value@ == final(processes)@
            }),
            *final(self) == (Sources {
                base: final(self).base,
                processes: final(self).processes,
                ..*old(self)
            }),
    {
        base.init_with_system(system);
        let base_moved: bool = self.base.publish(base, now);
        fill_processes(processes, system);
        let processes_moved: bool = self.processes.publish(processes, now);
        assert(processes_moved ==> self.processes@.value@ =~= processes@);
        base_moved || processes_moved
    }

    /// A round of the physical disks. Says whether the section has moved.
    pub fn disk_source(
        &mut self,
        stats: &mut Vec<DiskStats>,
        disks: &Vec<DiskReading>,
        now: Timestamp,
    ) -> (moved: bool)
        requires
            now.wf(),
            forall|i: int|
                0 <= i < disks@.len() ==> (#[trigger] disks@[i]).available_space
                    <= disks@[i].total_space,
        ensures
            disks_show(final(stats)@, disks@, old(stats)@),
            moved == !old(self).disks@.value.same_as(final(stats)),
            final(self).disks@ == (if moved {
                old(self).disks@.moved_to(final(self).disks@.value, now)
            } else {
                old(self).disks@.marked_ok(now)
            }),
            moved ==> final(self).disks@.value@ == final(stats)@,
            *final(self) == (Sources { disks: final(self).disks, ..*old(self) }),
    {
        fill_disks(stats, disks);
        let moved: bool = self.disks.publish(stats, now);
        assert(moved ==> self.disks@.value@ =~= stats@);
        moved
    }

    /// A round of the temperatures. Says whether the section has moved.
    pub fn temperature_source(
        &mut self,
        temperatures: &mut Vec<TemperatureStats>,
        components: &Vec<ComponentReading>,
        now: Timestamp,
    ) -> (moved: bool)
        requires
            now.wf(),
        ensures
            components_show(final(temperatures)@, components@),
            moved == !old(self).temperatures@.value.same_as(final(temperatures)),
            final(self).temperatures@ == (if moved {
                old(self).temperatures@.moved_to(final(self).temperatures@.value, now)
            } else {
                old(self).temperatures@.marked_ok(now)
            }),
            moved ==> final(self).temperatures@.value@ == final(temperatures)@,
            *final(self) == (Sources { temperatures: final(self).temperatures, ..*old(self) }),
    {
        fill_temperatures(temperatures, components);
        let moved: bool = self.temperatures.publish(temperatures, now);
        assert(moved ==> self.temperatures@.value@ =~= temperatures@);
        moved
    }

    /// A round of the IO delay.
    pub fn io_delay_source(
        &mut self,
        answer: Result<Float64, String>,
        log: &mut ErrorLog,
        now: Timestamp,
    ) -> (outcome: Outcome)
        requires
            now.wf(),
        ensures
            is_taken(
                (old(self).io_delay@, *old(log)),
                answer,
                now,
                (final(self).io_delay@, *final(log)),
                outcome,
            ),
            *final(self) == (Sources { io_delay: final(self).io_delay, ..*old(self) }),
    {
        take_answer(&mut self.io_delay, answer, log, now)
    }

    /// A round of the node's containers.
    ///
    /// This is the one most able to sit there forever if the node's own services are unwell. That
    /// costs the container table and nothing else.
    pub fn lxc_source(
        &mut self,
        answer: Result<Vec<ProxmoxLxcStats>, String>,
        log: &mut ErrorLog,
        now: Timestamp,
    ) -> (outcome: Outcome)
        requires
            now.wf(),
        ensures
            is_taken(
                (old(self).lxc@, *old(log)),
                answer,
                now,
                (final(self).lxc@, *final(log)),
                outcome,
            ),
            *final(self) == (Sources { lxc: final(self).lxc, ..*old(self) }),
    {
        take_answer(&mut self.lxc, answer, log, now)
    }

    /// A round of the graphics cards, `None` where there is no driver to ask.
    ///
    /// Without one there is an empty list, kept current, so the page shows no cards rather than a
    /// section that looks stuck.
    pub fn gpu_source(
        &mut self,
        answer: Option<Result<Vec<GpuStats>, String>>,
        log: &mut ErrorLog,
        now: Timestamp,
    ) -> (outcome: Outcome)
        requires
            now.wf(),
        ensures
            match answer {
                Some(answer) => is_taken(
                    (old(self).gpus@, *old(log)),
                    answer,
                    now,
                    (final(self).gpus@, *final(log)),
                    outcome,
                ),
                None => {
                    &&& outcome.moved == (old(self).gpus@.value@.len() != 0)
                    &&& outcome.say is None
                    &&& *final(log) == *old(log)
                    &&& final(self).gpus@.value@.len() == 0
                    &&& final(self).gpus@ == (if outcome.moved {
                        old(self).gpus@.moved_to(final(self).gpus@.value, now)
                    } else {
                        old(self).gpus@.marked_ok(now)
                    })
                },
            },
            *final(self) == (Sources { gpus: final(self).gpus, ..*old(self) }),
    {
        match answer {
            Some(answer) => take_answer(&mut self.gpus, answer, log, now),
            None => Outcome { moved: self.gpus.publish_owned(Vec::new(), now), say: None },
        }
    }

    /// A round of the energy plug: what it has answered since the last round, if anything.
    ///
    /// With a plug, nothing new means it has not answered yet, and the section goes stale if that
    /// lasts. With no plug there is nothing to wait for, so it is kept current and empty.
    pub fn energy_source(
        &mut self,
        has_plug: bool,
        polled: Option<EnergyResult>,
        log: &mut ErrorLog,
        now: Timestamp,
    ) -> (outcome: Outcome)
        requires
            now.wf(),
        ensures
            match polled {
                Some(Ok(usage)) => {
                    &&& final(self).energy@ == old(self).energy@.moved_to(Some(usage), now)
                    &&& outcome.moved
                    &&& outcome.say is None
                    &&& final(log).source_name() == old(log).source_name()
                    &&& final(log).last_said() is None
                },
                Some(Err(error)) => {
                    &&& final(self).energy@ == old(self).energy@
                    &&& !outcome.moved
                    &&& old(log).takes(error@, *final(log), outcome.say)
                },
                None => {
                    &&& final(self).energy@ == (if has_plug {
                        old(self).energy@
                    } else {
                        old(self).energy@.moved_to(None, now)
                    })
                    &&& outcome.moved == !has_plug
                    &&& outcome.say is None
                    &&& *final(log) == *old(log)
                },
            },
            *final(self) == (Sources { energy: final(self).energy, ..*old(self) }),
    {
        match polled {
            Some(Ok(usage)) => {
                log.ok();
                self.energy.publish_always(Some(usage), now);
                Outcome { moved: true, say: None }
            },
            Some(Err(error)) => Outcome { moved: false, say: log.failed(error) },
            None => {
                if has_plug {
                    Outcome { moved: false, say: None }
                } else {
                    self.energy.publish_always(None, now);
                    Outcome { moved: true, say: None }
                }
            },
        }
    }
}

/// The pids of some processes, in order.
pub open spec fn process_pids(processes: Seq<ProcessStats>) -> Seq<u32> {
    Seq::new(processes.len(), |i: int| processes[i].pid)
}

/// Process ids are ordered as numbers.
impl Keyed for u32 {
    open spec fn key_of(&self) -> int {
        *self as int
    }

    fn key(&self) -> (key: i64) {
        *self as i64
    }
}

/// Every number is less than those after it.
pub open spec fn is_increasing(numbers: Seq<u32>) -> bool {
    forall|i: int, j: int|
        0 <= i < j < numbers.len() ==> #[trigger] numbers[i] < #[trigger] numbers[j]
}

/// Numbers in order, each of them once.
fn dedup(sorted: &Vec<u32>) -> (kept: Vec<u32>)
    requires
        in_order(sorted@),
    ensures
        is_increasing(kept@),
        forall|n: u32| kept@.contains(n) <==> sorted@.contains(n),
{
    let mut kept: Vec<u32> = Vec::new();
    let mut i: usize = 0;
    while i < sorted.len()
        invariant
            i <= sorted@.len(),
            in_order(sorted@),
            is_increasing(kept@),
            i > 0 ==> kept@.len() > 0 && kept@.last() == sorted@[i - 1],
            kept@.len() > 0 ==> i > 0,
            forall|j: int| 0 <= j < i ==> kept@.contains(#[trigger] sorted@[j]),
            forall|j: int| 0 <= j < kept@.len() ==> sorted@.contains(#[trigger] kept@[j]),
        decreases sorted@.len() - i,
    {
        let n: u32 = sorted[i];
        let is_new: bool = kept.len() == 0 || kept[kept.len() - 1] != n;
        if is_new {
            let ghost before = kept@;
            assert(i > 0 ==> sorted@[i - 1].key_of() <= sorted@[i as int].key_of());
            kept.push(n);
            assert(kept@[before.len() as int] == n);
            assert forall|j: int| 0 <= j < i implies kept@.contains(#[trigger] sorted@[j]) by {
                let at = choose|at: int| 0 <= at < before.len() && before[at] == sorted@[j];
                assert(kept@[at] == sorted@[j]);
            }
        } else {
            assert(kept@[kept@.len() - 1] == n);
        }
        i += 1;
    }
    kept
}

/// The pids worth resolving: the processes the page lists, and whatever is on the graphics cards,
/// each of them once and in order.
pub fn cgroup_pids(processes: &Vec<ProcessStats>, gpus: &Vec<GpuStats>) -> (pids: Vec<u32>)
    ensures
        is_increasing(pids@),
        forall|pid: u32| #[trigger]
            pids@.contains(pid) <==> process_pids(processes@).contains(pid) || pids_on(
                gpus@,
            ).contains(pid),
{
    let mut all: Vec<u32> = gpu_pids(gpus);
    let mut i: usize = 0;
    while i < processes.len()
        invariant
            i <= processes@.len(),
            all@ == pids_on(gpus@) + process_pids(processes@).take(i as int),
        decreases processes@.len() - i,
    {
        all.push(processes[i].pid);
        i += 1;
        assert(all@ =~= pids_on(gpus@) + process_pids(processes@).take(i as int));
    }
    assert(process_pids(processes@).take(i as int) =~= process_pids(processes@));
    let ghost listed = all@;
    sort_by_key(&mut all);
    let pids = dedup(&all);
    proof {
        broadcast use vstd::seq_lib::group_to_multiset_ensures;

        assert forall|pid: u32| #[trigger] pids@.contains(pid) <==> process_pids(
            processes@,
        ).contains(pid) || pids_on(gpus@).contains(pid) by {
            assert(all@.contains(pid) <==> all@.to_multiset().count(pid) > 0);
            assert(listed.contains(pid) <==> listed.to_multiset().count(pid) > 0);
            let one = pids_on(gpus@);
            let two = process_pids(processes@);
            if one.contains(pid) {
                let at = one.index_of(pid);
                assert(listed[at] == pid);
            }
            if two.contains(pid) {
                let at = two.index_of(pid);
                assert(listed[one.len() + at] == pid);
            }
            if listed.contains(pid) {
                let at = listed.index_of(pid);
                if at < one.len() {
                    assert(one[at] == pid);
                } else {
                    assert(two[at - one.len()] == pid);
                }
            }
        }
    }
    pids
}

/// Why it is not known what container a process is in.
#[derive(Debug)]
pub struct LookupFailure {
    /// The process is not there any more.
    pub not_found: bool,
    /// What went wrong, in words.
    pub text: String,
}

/// Takes what was found out about one process, and gives the line for the journal.
///
/// A process that ended between being listed and being looked up is the usual way this fails, and
/// not worth a word.
pub fn cgroup_answered(
    cgroups: &mut HashMap<u32, ProcessCGroupInfo>,
    pid: u32,
    result: Result<ProcessCGroupInfo, LookupFailure>,
    log: &mut ErrorLog,
) -> (line: Option<String>)
    ensures
        match result {
            Ok(info) => {
                &&& final(cgroups)@ == old(cgroups)@.insert(pid, info)
                &&& *final(log) == *old(log)
                &&& line is None
            },
            Err(failure) => {
                &&& final(cgroups)@ == old(cgroups)@
                &&& if failure.not_found {
                    *final(log) == *old(log) && line is None
                } else {
                    old(log).takes(failure.text@, *final(log), line)
                }
            },
        },
{
    broadcast use vstd::std_specs::hash::group_hash_axioms;

    match result {
        Ok(info) => {
            cgroups.insert(pid, info);
            None
        },
        Err(failure) => {
            if failure.not_found {
                None
            } else {
                log.failed(failure.text)
            }
        },
    }
}

impl Sources {
    /// The end of a round of which container each interesting process belongs to. Says whether
    /// the section has moved.
    pub fn cgroup_source(
        &mut self,
        cgroups: HashMap<u32, ProcessCGroupInfo>,
        now: Timestamp,
    ) -> (moved: bool)
        requires
            now.wf(),
        ensures
            is_published(old(self).cgroups@, cgroups, now, final(self).cgroups@, moved),
            *final(self) == (Sources { cgroups: final(self).cgroups, ..*old(self) }),
    {
        self.cgroups.publish_owned(cgroups, now)
    }
}

/// The source of a section has answered, and no longer ago than it may be silent.
pub open spec fn is_answering<T>(slot: SlotView<T>, now: Timestamp) -> bool {
    &&& slot.wf()
    &&& slot.last_ok != NEVER
    &&& now.unix_secs() - slot.last_ok <= slot.patience_secs()
}

proof fn lemma_answering<T>(slot: SlotView<T>, now: Timestamp, watching_for_secs: i64)
    requires
        is_answering(slot, now),
    ensures
        !slot.status_at(now, watching_for_secs).stale,
{
}

/// A source that has answered within its patience is not shown as stale, whatever the other sources
/// do and however long they are watched.
pub proof fn law_answering_source_is_shown_fresh(
    sources: Sources,
    now: Timestamp,
    watching_for_secs: i64,
)
    ensures
        ({
            let shown = sources.statuses_at(now, watching_for_secs);
            &&& is_answering(sources.base@, now) ==> !shown.base.stale
            &&& is_answering(sources.processes@, now) ==> !shown.processes.stale
            &&& is_answering(sources.disks@, now) ==> !shown.disks.stale
            &&& is_answering(sources.temperatures@, now) ==> !shown.temperatures.stale
            &&& is_answering(sources.io_delay@, now) ==> !shown.io_delay.stale
            &&& is_answering(sources.lxc@, now) ==> !shown.lxc.stale
            &&& is_answering(sources.gpus@, now) ==> !shown.gpus.stale
            &&& is_answering(sources.cgroups@, now) ==> !shown.cgroups.stale
            &&& is_answering(sources.energy@, now) ==> !shown.energy.stale
        }),
{
    if is_answering(sources.base@, now) {
        lemma_answering(sources.base@, now, watching_for_secs);
    }
    if is_answering(sources.processes@, now) {
        lemma_answering(sources.processes@, now, watching_for_secs);
    }
    if is_answering(sources.disks@, now) {
        lemma_answering(sources.disks@, now, watching_for_secs);
    }
    if is_answering(sources.temperatures@, now) {
        lemma_answering(sources.temperatures@, now, watching_for_secs);
    }
    if is_answering(sources.io_delay@, now) {
        lemma_answering(sources.io_delay@, now, watching_for_secs);
    }
    if is_answering(sources.lxc@, now) {
        lemma_answering(sources.lxc@, now, watching_for_secs);
    }
    if is_answering(sources.gpus@, now) {
        lemma_answering(sources.gpus@, now, watching_for_secs);
    }
    if is_answering(sources.cgroups@, now) {
        lemma_answering(sources.cgroups@, now, watching_for_secs);
    }
    if is_answering(sources.energy@, now) {
        lemma_answering(sources.energy@, now, watching_for_secs);
    }
}

/// Two slots were last answered at the same time and are answered at the same rate.
pub open spec fn answered_alike<T>(one: SlotView<T>, other: SlotView<T>) -> bool {
    one.last_ok == other.last_ok && one.interval_millis == other.interval_millis
}

/// The status of a source depends on when its own source has answered and on nothing else: whatever
/// else is gathered, and whatever becomes of the other sources, it is the same.
pub proof fn law_status_is_the_sources_own(
    one: Sources,
    other: Sources,
    now: Timestamp,
    watching_for_secs: i64,
)
    ensures
        ({
            let first = one.statuses_at(now, watching_for_secs);
            let second = other.statuses_at(now, watching_for_secs);
            &&& answered_alike(one.base@, other.base@) ==> first.base == second.base
            &&& answered_alike(one.processes@, other.processes@) ==> first.processes
                == second.processes
            &&& answered_alike(one.disks@, other.disks@) ==> first.disks == second.disks
            &&& answered_alike(one.temperatures@, other.temperatures@) ==> first.temperatures
                == second.temperatures
            &&& answered_alike(one.io_delay@, other.io_delay@) ==> first.io_delay
                == second.io_delay
            &&& answered_alike(one.lxc@, other.lxc@) ==> first.lxc == second.lxc
            &&& answered_alike(one.gpus@, other.gpus@) ==> first.gpus == second.gpus
            &&& answered_alike(one.cgroups@, other.cgroups@) ==> first.cgroups == second.cgroups
            &&& answered_alike(one.energy@, other.energy@) ==> first.energy == second.energy
        }),
{
}

/// The page shows of every source the second in which that source answered last.
pub proof fn law_each_source_shows_its_own_time(
    sources: Sources,
    now: Timestamp,
    watching_for_secs: i64,
)
    ensures
        ({
            let shown = sources.statuses_at(now, watching_for_secs);
            &&& shown.base.updated_at == sources.base@.gathered_at(now)
            &&& shown.processes.updated_at == sources.processes@.gathered_at(now)
            &&& shown.disks.updated_at == sources.disks@.gathered_at(now)
            &&& shown.temperatures.updated_at == sources.temperatures@.gathered_at(now)
            &&& shown.io_delay.updated_at == sources.io_delay@.gathered_at(now)
            &&& shown.lxc.updated_at == sources.lxc@.gathered_at(now)
            &&& shown.gpus.updated_at == sources.gpus@.gathered_at(now)
            &&& shown.cgroups.updated_at == sources.cgroups@.gathered_at(now)
            &&& shown.energy.updated_at == sources.energy@.gathered_at(now)
        }),
{
}

/// A monitor that has just been started has gathered nothing, and gathers each section at its own
/// rate.
pub proof fn law_sources_begin_empty(sources: Sources)
    requires
        sources.is_blank(),
    ensures
        sources.base@.last_ok == NEVER && sources.base@.interval_millis == 250,
        sources.processes@.last_ok == NEVER && sources.processes@.interval_millis == 250,
        sources.disks@.last_ok == NEVER && sources.disks@.interval_millis == 5000,
        sources.temperatures@.last_ok == NEVER && sources.temperatures@.interval_millis == 2000,
        sources.io_delay@.last_ok == NEVER && sources.io_delay@.interval_millis == 250,
        sources.lxc@.last_ok == NEVER && sources.lxc@.interval_millis == 2000,
        sources.gpus@.last_ok == NEVER && sources.gpus@.interval_millis == 500,
        sources.cgroups@.last_ok == NEVER && sources.cgroups@.interval_millis == 500,
        sources.energy@.last_ok == NEVER && sources.energy@.interval_millis == 1000,
        sources.processes@.value@.len() == 0,
        sources.disks@.value@.len() == 0,
        sources.temperatures@.value@.len() == 0,
        sources.lxc@.value@.len() == 0,
        sources.gpus@.value@.len() == 0,
        sources.cgroups@.value@.len() == 0,
        sources.energy@.value is None,
{
}

/// Somebody has been watching since the first of those who are there came to nobody: as long as
/// anybody has stayed since, however many have come and gone, the time counts from that moment.
pub proof fn law_watched_since_the_first_came(
    earlier: Seq<ListenerEvent>,
    first: Timestamp,
    later: Seq<ListenerEvent>,
    now: Timestamp,
)
    requires
        still_there(earlier) == 0,
        comings_and_goings(earlier.push(ListenerEvent::Added(first)) + later),
        forall|n: int|
            0 <= n <= later.len() ==> still_there(
                earlier.push(ListenerEvent::Added(first)) + #[trigger] later.take(n),
            ) > 0,
    ensures
        listeners_after(earlier.push(ListenerEvent::Added(first)) + later).watched_for(now)
            == Some(now.unix_secs() - first.unix_secs()),
    decreases later.len(),
{
    let began = earlier.push(ListenerEvent::Added(first));
    let all = began + later;
    if later.len() == 0 {
        assert(all =~= began);
        assert(began.drop_last() =~= earlier);
        law_sources_park_while_nobody_watches(earlier);
    } else {
        let shorter = later.drop_last();
        assert(all.drop_last() =~= began + shorter);
        assert forall|n: int| 0 <= n <= shorter.len() implies still_there(
            began + #[trigger] shorter.take(n),
        ) > 0 by {
            assert(shorter.take(n) =~= later.take(n));
        }
        law_watched_since_the_first_came(earlier, first, shorter, now);
        law_sources_park_while_nobody_watches(all);
        law_sources_park_while_nobody_watches(began + shorter);
        assert(later.take(later.len() as int) =~= later);
        assert(still_there(all) > 0);
        assert(shorter.take(shorter.len() as int) =~= shorter);
    }
}

/// Nobody has been watching for any time where all who came have gone.
pub proof fn law_watching_ends_with_the_last(events: Seq<ListenerEvent>, now: Timestamp)
    requires
        comings_and_goings(events),
        still_there(events) == 0,
    ensures
        listeners_after(events).watched_for(now) is None,
{
    law_sources_park_while_nobody_watches(events);
}

/// A round that failed leaves the section as it stands, with the time of its last answer, and moves
/// nothing. A round that was answered counts as an answer, and hands on what was gathered exactly
/// where it differs from what is there.
pub proof fn law_round_is_taken_as_it_went<T: Section>(
    before: (SlotView<T>, ErrorLog),
    answer: Result<T, String>,
    now: Timestamp,
    after: (SlotView<T>, ErrorLog),
    outcome: Outcome,
)
    requires
        now.wf(),
        is_taken(before, answer, now, after, outcome),
    ensures
        answer is Err ==> {
            &&& !outcome.moved
            &&& after.0.value == before.0.value
            &&& after.0.version == before.0.version
            &&& after.0.last_ok == before.0.last_ok
            &&& after.0.interval_millis == before.0.interval_millis
            &&& after.1.last_said() == Some(answer->Err_0@)
        },
        answer matches Ok(value) ==> {
            &&& outcome.moved <==> !before.0.value.same_as(&value)
            &&& outcome.moved ==> after.0.value == value && after.0.version != before.0.version
            &&& !outcome.moved ==> after.0.value == before.0.value && after.0.version
                == before.0.version
            &&& after.0.last_ok == now.unix_secs()
            &&& after.0.interval_millis == before.0.interval_millis
            &&& outcome.say is None
            &&& after.1.last_said() is None
        },
{
}

/// A gather that was published counts as an answer, and is handed on exactly where it differs from
/// what is there.
pub proof fn law_gather_is_published_where_it_differs<T: Section>(
    before: SlotView<T>,
    value: T,
    now: Timestamp,
    after: SlotView<T>,
    moved: bool,
)
    requires
        now.wf(),
        is_published(before, value, now, after, moved),
    ensures
        moved <==> !before.value.same_as(&value),
        moved ==> after.value == value && after.version != before.version,
        !moved ==> after.value == before.value && after.version == before.version,
        after.last_ok == now.unix_secs(),
        after.interval_millis == before.interval_millis,
{
}

/// A failure that is not the one that was said last is said, with the name of its source before it.
pub proof fn law_another_failure_is_said(
    log: ErrorLog,
    error: Seq<char>,
    after: ErrorLog,
    line: Option<String>,
)
    requires
        log.takes(error, after, line),
    ensures
        log.last_said() != Some(error) <==> line is Some,
        line matches Some(text) ==> text@ == log.source_name() + " error: "@ + error,
        after.last_said() == Some(error),
        after.source_name() == log.source_name(),
{
}

/// The pids that are resolved are those of the processes that are listed, all of them and no other,
/// and no pid stands among increasing numbers twice.
pub proof fn law_listed_processes_are_resolved(
    processes: Seq<ProcessStats>,
    i: int,
    pid: u32,
    numbers: Seq<u32>,
)
    ensures
        process_pids(processes).len() == processes.len(),
        0 <= i < processes.len() ==> process_pids(processes).contains(processes[i].pid),
        process_pids(processes).contains(pid) ==> exists|k: int|
            0 <= k < processes.len() && (#[trigger] processes[k]).pid == pid,
        is_increasing(numbers) ==> numbers.no_duplicates(),
{
    if 0 <= i < processes.len() {
        assert(process_pids(processes)[i] == processes[i].pid);
    }
    if process_pids(processes).contains(pid) {
        let k = process_pids(processes).index_of(pid);
        assert(processes[k].pid == pid);
    }
}

} // verus!
