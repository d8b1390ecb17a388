//! Taking what was read of the machine into the sections of the page.
//!
//! A section that is refreshed keeps what it has where that has not changed.

use std::sync::Arc;

use vstd::prelude::*;
use vstd::string::*;
use vstd::utf8::*;

use crate::numbers::Float32;
use crate::paths::{is_same_path, same_path};
use crate::sorting::{in_order, sort_by_key, Keyed};
use crate::structures::{
    BaseSystemStats, CpuStats, DiskKind, DiskStats, ProcessCGroupInfo, ProcessStats, StorageStats,
    SystemStats, TemperatureStats, Usage,
};
use crate::text::{is_text_of, text_from_lossy};

verus! {

/// How many processes the page lists.
pub const PROCESSES_LISTED: usize = 10;

/// One processor core, as it was read.
#[derive(Debug)]
pub struct CpuReading {
    pub name: String,
    pub usage: Float32,
    pub vendor_id: String,
    pub brand: String,
    pub frequency: u64,
}

/// One process, as it was read.
#[derive(Debug)]
pub struct ProcessReading {
    pub pid: u32,
    /// As the operating system has it, which need not be text.
    pub name: Vec<u8>,
    pub cpu_usage: Float32,
    pub memory: u64,
}

/// The machine as a whole, as it was read.
#[derive(Debug)]
pub struct SystemReading {
    pub global_cpu_usage: Float32,
    pub cpus: Vec<CpuReading>,
    pub total_memory: u64,
    pub used_memory: u64,
    pub available_memory: u64,
    pub total_swap: u64,
    pub used_swap: u64,
    pub free_swap: u64,
    pub uptime: u64,
    pub processes: Vec<ProcessReading>,
}

/// One mounted disk, as it was read. Its names are as the operating system has them, which need
/// not be text.
#[derive(Debug)]
pub struct DiskReading {
    pub kind: DiskKind,
    pub name: Vec<u8>,
    pub file_system: Vec<u8>,
    pub mount_point: Vec<u8>,
    pub is_removable: bool,
    pub is_read_only: bool,
    pub total_space: u64,
    pub available_space: u64,
}

/// One temperature sensor, as it was read.
#[derive(Debug)]
pub struct ComponentReading {
    pub label: String,
    pub temperature: Option<Float32>,
    pub max: Option<Float32>,
    pub critical: Option<Float32>,
}

/// Replaces a text where it has changed.
fn refresh_text(text: &mut String, read: &String)
    ensures
        final(text)@ == read@,
{
    if *text != *read {
        *text = read.clone();
    }
}

impl StorageStats {
    /// The memory.
    pub fn new_ram(system: &SystemReading) -> (stats: Self)
        ensures
            stats == (StorageStats {
                usage: Usage {
                    part: system.used_memory,
                    whole: system.total_memory,
                    percent: false,
                },
                total: system.total_memory,
                used: system.used_memory,
                available: system.available_memory,
            }),
    {
        StorageStats {
            usage: Usage { part: system.used_memory, whole: system.total_memory, percent: false },
            total: system.total_memory,
            used: system.used_memory,
            available: system.available_memory,
        }
    }

    /// The swap space.
    pub fn new_swap(system: &SystemReading) -> (stats: Self)
        ensures
            stats == (StorageStats {
                usage: Usage { part: system.used_swap, whole: system.total_swap, percent: false },
                total: system.total_swap,
                used: system.used_swap,
                available: system.free_swap,
            }),
    {
        StorageStats {
            usage: Usage { part: system.used_swap, whole: system.total_swap, percent: false },
            total: system.total_swap,
            used: system.used_swap,
            available: system.free_swap,
        }
    }

    /// What a disk of which so much is available comes to.
    pub open spec fn of_disk(total: u64, available: u64) -> Self {
        let used = (total - available) as u64;
        StorageStats {
            usage: Usage { part: used, whole: total, percent: false },
            total,
            used,
            available,
        }
    }

    /// A disk: what is not available is in use.
    pub fn from_disk(disk: &DiskReading) -> (stats: Self)
        requires
            disk.available_space <= disk.total_space,
        ensures
            stats == StorageStats::of_disk(disk.total_space, disk.available_space),
    {
        let used: u64 = disk.total_space - disk.available_space;
        StorageStats {
            usage: Usage { part: used, whole: disk.total_space, percent: false },
            total: disk.total_space,
            used,
            available: disk.available_space,
        }
    }
}

/// A core's section says what was read.
pub open spec fn cpu_shows(stats: CpuStats, cpu: CpuReading) -> bool {
    &&& stats.name@ == cpu.name@
    &&& stats.usage == cpu.usage
    &&& stats.vendor_id@ == cpu.vendor_id@
    &&& stats.brand@ == cpu.brand@
    &&& stats.frequency == cpu.frequency
}

impl CpuStats {
    /// Takes what was read of a core.
    pub fn init_from_cpu(&mut self, cpu: &CpuReading)
        ensures
            cpu_shows(*final(self), *cpu),
    {
        self.usage = cpu.usage;
        refresh_text(&mut self.name, &cpu.name);
        refresh_text(&mut self.vendor_id, &cpu.vendor_id);
        refresh_text(&mut self.brand, &cpu.brand);
        self.frequency = cpu.frequency;
    }
}

/// The section of the machine says what was read.
pub open spec fn base_shows(stats: BaseSystemStats, system: SystemReading) -> bool {
    &&& stats.cpu_usage == system.global_cpu_usage
    &&& stats.cpus@.len() == system.cpus@.len()
    &&& forall|i: int|
        0 <= i < system.cpus@.len() ==> cpu_shows(#[trigger] stats.cpus@[i], system.cpus@[i])
    &&& stats.ram == (StorageStats {
        usage: Usage { part: system.used_memory, whole: system.total_memory, percent: false },
        total: system.total_memory,
        used: system.used_memory,
        available: system.available_memory,
    })
    &&& stats.swap == (StorageStats {
        usage: Usage { part: system.used_swap, whole: system.total_swap, percent: false },
        total: system.total_swap,
        used: system.used_swap,
        available: system.free_swap,
    })
    &&& stats.uptime == system.uptime
}

impl BaseSystemStats {
    /// Takes what was read of the machine.
    pub fn init_with_system(&mut self, system: &SystemReading)
        ensures
            base_shows(*final(self), *system),
    {
        self.cpu_usage = system.global_cpu_usage;
        self.cpus.resize(system.cpus.len(), CpuStats::default());
        let mut i: usize = 0;
        while i < system.cpus.len()
            invariant
                i <= system.cpus@.len(),
                self.cpus@.len() == system.cpus@.len(),
                self.cpu_usage == system.global_cpu_usage,
                forall|j: int|
                    0 <= j < i ==> cpu_shows(#[trigger] self.cpus@[j], system.cpus@[j]),
            decreases system.cpus@.len() - i,
        {
            self.cpus[i].init_from_cpu(&system.cpus[i]);
            i += 1;
        }
        self.ram = StorageStats::new_ram(system);
        self.swap = StorageStats::new_swap(system);
        self.uptime = system.uptime;
    }
}

/// A mount point is what was read, but for one that is the same path as before, which keeps its
/// spelling.
pub open spec fn mount_shows(shown: Seq<char>, read: Seq<u8>, before: Seq<char>) -> bool {
    if same_path(encode_utf8(before), read) {
        shown == before
    } else {
        is_text_of(shown, read)
    }
}

/// A disk's section says what was read, where the mount point that it had before was `mounted`.
pub open spec fn disk_shows(stats: DiskStats, disk: DiskReading, mounted: Seq<char>) -> bool {
    &&& stats.kind == disk.kind
    &&& is_text_of(stats.name@, disk.name@)
    &&& is_text_of(stats.file_system@, disk.file_system@)
    &&& mount_shows(stats.mount_point@, disk.mount_point@, mounted)
    &&& stats.is_removable == disk.is_removable
    &&& stats.is_read_only == disk.is_read_only
    &&& stats.stats == StorageStats::of_disk(disk.total_space, disk.available_space)
}

impl DiskStats {
    /// Takes what was read of a disk.
    pub fn init_with_disk(&mut self, disk: &DiskReading)
        requires
            disk.available_space <= disk.total_space,
        ensures
            disk_shows(*final(self), *disk, old(self).mount_point@),
    {
        self.kind = disk.kind;
        refresh_text(&mut self.name, &text_from_lossy(disk.name.as_slice()));
        refresh_text(&mut self.file_system, &text_from_lossy(disk.file_system.as_slice()));
        if !is_same_path(self.mount_point.as_str().as_bytes(), disk.mount_point.as_slice()) {
            self.mount_point = text_from_lossy(disk.mount_point.as_slice());
        }
        self.is_removable = disk.is_removable;
        self.is_read_only = disk.is_read_only;
        self.stats = StorageStats::from_disk(disk);
    }
}

/// A sensor's section says what was read.
pub open spec fn component_shows(stats: TemperatureStats, component: ComponentReading) -> bool {
    &&& stats.label@ == component.label@
    &&& stats.current == component.temperature
    &&& stats.max == component.max
    &&& stats.critical == component.critical
}

impl TemperatureStats {
    /// Takes what was read of a sensor.
    pub fn init_with_component(&mut self, component: &ComponentReading)
        ensures
            component_shows(*final(self), *component),
    {
        refresh_text(&mut self.label, &component.label);
        self.current = component.temperature;
        self.max = component.max;
        self.critical = component.critical;
    }
}

/// A process's section says what was read, and nothing yet of its container.
pub open spec fn process_shows(stats: ProcessStats, process: ProcessReading) -> bool {
    &&& stats.pid == process.pid
    &&& is_text_of(stats.name@, process.name@)
    &&& stats.cpu_usage == process.cpu_usage
    &&& stats.memory_used == process.memory
    &&& stats.cgroup_info == ProcessCGroupInfo::nowhere()
}

impl ProcessStats {
    /// Takes what was read of a process.
    pub fn init_with_process(&mut self, process: &ProcessReading)
        ensures
            process_shows(*final(self), *process),
    {
        self.pid = process.pid;
        refresh_text(&mut self.name, &text_from_lossy(process.name.as_slice()));
        self.cpu_usage = process.cpu_usage;
        self.memory_used = process.memory;
        self.cgroup_info = ProcessCGroupInfo::default();
    }
}

/// Processes are listed with the busiest first.
impl Keyed for ProcessStats {
    open spec fn key_of(&self) -> int {
        -self.cpu_usage.rank()
    }

    fn key(&self) -> (key: i64) {
        -self.cpu_usage.signed_rank()
    }
}

/// Every process that was read has its section, in the order in which they were read.
pub open spec fn all_processes_show(
    all: Seq<ProcessStats>,
    readings: Seq<ProcessReading>,
) -> bool {
    &&& all.len() == readings.len()
    &&& forall|i: int| 0 <= i < all.len() ==> process_shows(#[trigger] all[i], readings[i])
}

/// `listed` are the busiest of `all`, as many as are listed, the busiest first.
pub open spec fn are_busiest(listed: Seq<ProcessStats>, all: Seq<ProcessStats>) -> bool {
    exists|ordered: Seq<ProcessStats>| #[trigger]
        is_ordering_of(ordered, all) && listed == ordered.take(
            if ordered.len() < PROCESSES_LISTED {
                ordered.len() as int
            } else {
                PROCESSES_LISTED as int
            },
        )
}

/// The same processes, the busiest first.
pub open spec fn is_ordering_of(ordered: Seq<ProcessStats>, all: Seq<ProcessStats>) -> bool {
    in_order(ordered) && ordered.to_multiset() == all.to_multiset()
}

/// The section of the processes says which are the busiest of those that were read.
pub open spec fn processes_show(
    listed: Seq<ProcessStats>,
    readings: Seq<ProcessReading>,
) -> bool {
    exists|all: Seq<ProcessStats>| #[trigger]
        all_processes_show(all, readings) && are_busiest(listed, all)
}

/// Takes what was read of the processes, and keeps the busiest.
///
/// Which of two that are equally busy comes first, or is kept, is not said.
pub fn fill_processes(processes: &mut Vec<ProcessStats>, system: &SystemReading)
    ensures
        processes_show(final(processes)@, system.processes@),
{
    processes.resize(system.processes.len(), ProcessStats::default());
    let mut i: usize = 0;
    while i < system.processes.len()
        invariant
            i <= system.processes@.len(),
            processes@.len() == system.processes@.len(),
            forall|j: int|
                0 <= j < i ==> process_shows(#[trigger] processes@[j], system.processes@[j]),
        decreases system.processes@.len() - i,
    {
        processes[i].init_with_process(&system.processes[i]);
        i += 1;
    }
    let ghost all = processes@;
    sort_by_key(processes);
    let ghost ordered = processes@;
    assert(is_ordering_of(ordered, all));
    processes.truncate(PROCESSES_LISTED);
    assert(processes@ =~= ordered.take(
        if ordered.len() < PROCESSES_LISTED {
            ordered.len() as int
        } else {
            PROCESSES_LISTED as int
        },
    ));
    assert(are_busiest(processes@, all));
    assert(all_processes_show(all, system.processes@));
}

/// A process that is not listed is no busier than any that is.
pub proof fn law_unlisted_are_no_busier(
    listed: Seq<ProcessStats>,
    all: Seq<ProcessStats>,
    process: ProcessStats,
    other: ProcessStats,
)
    requires
        are_busiest(listed, all),
        all.contains(process),
        !listed.contains(process),
        listed.contains(other),
    ensures
        all.contains(other),
        other.cpu_usage.rank() >= process.cpu_usage.rank(),
        listed.len() == PROCESSES_LISTED,
{
    broadcast use vstd::seq_lib::group_to_multiset_ensures;

    let ordered = choose|ordered: Seq<ProcessStats>| #[trigger]
        is_ordering_of(ordered, all) && listed == ordered.take(
            if ordered.len() < PROCESSES_LISTED {
                ordered.len() as int
            } else {
                PROCESSES_LISTED as int
            },
        );
    assert(all.to_multiset().count(process) > 0);
    assert(ordered.contains(process));
    let p = choose|p: int| 0 <= p < ordered.len() && ordered[p] == process;
    let q = choose|q: int| 0 <= q < listed.len() && listed[q] == other;
    assert(ordered[q] == other);
    assert(ordered.to_multiset().count(other) > 0) by {
        assert(ordered.contains(other));
    }
    if p < listed.len() {
        assert(listed[p] == process);
    }
    assert(ordered[q].key_of() <= ordered[p].key_of());
}

/// The mount point that a section of the disks had at a place, nothing where there was none.
pub open spec fn mounted_at(stats: Seq<DiskStats>, i: int) -> Seq<char> {
    if i < stats.len() {
        stats[i].mount_point@
    } else {
        Seq::empty()
    }
}

/// The section of the disks says what was read, disk by disk, where it was `before`.
pub open spec fn disks_show(
    stats: Seq<DiskStats>,
    disks: Seq<DiskReading>,
    before: Seq<DiskStats>,
) -> bool {
    &&& stats.len() == disks.len()
    &&& forall|i: int|
        0 <= i < stats.len() ==> disk_shows(#[trigger] stats[i], disks[i], mounted_at(before, i))
}

/// Takes what was read of the disks.
pub fn fill_disks(stats: &mut Vec<DiskStats>, disks: &Vec<DiskReading>)
    requires
        forall|i: int|
            0 <= i < disks@.len() ==> (#[trigger] disks@[i]).available_space
                <= disks@[i].total_space,
    ensures
        disks_show(final(stats)@, disks@, old(stats)@),
{
    let blank = DiskStats::default();
    stats.resize(disks.len(), blank);
    let ghost resized = stats@;
    assert forall|j: int| 0 <= j < resized.len() implies (#[trigger] resized[j]).mount_point@
        == mounted_at(old(stats)@, j) by {
        assert(j >= old(stats)@.len() ==> resized[j].mount_point@ =~= Seq::<char>::empty());
    }
    let mut i: usize = 0;
    while i < disks.len()
        invariant
            i <= disks@.len(),
            stats@.len() == disks@.len(),
            forall|j: int|
                0 <= j < disks@.len() ==> (#[trigger] disks@[j]).available_space
                    <= disks@[j].total_space,
            resized.len() == stats@.len(),
            forall|j: int|
                0 <= j < resized.len() ==> (#[trigger] resized[j]).mount_point@ == mounted_at(
                    old(stats)@,
                    j,
                ),
            forall|j: int| i <= j < stats@.len() ==> #[trigger] stats@[j] == resized[j],
            forall|j: int|
                0 <= j < i ==> disk_shows(
                    #[trigger] stats@[j],
                    disks@[j],
                    mounted_at(old(stats)@, j),
                ),
        decreases disks@.len() - i,
    {
        stats[i].init_with_disk(&disks[i]);
        i += 1;
    }
}

/// The section of the temperatures says what was read, sensor by sensor.
pub open spec fn components_show(
    stats: Seq<TemperatureStats>,
    components: Seq<ComponentReading>,
) -> bool {
    &&& stats.len() == components.len()
    &&& forall|i: int|
        0 <= i < stats.len() ==> component_shows(#[trigger] stats[i], components[i])
}

/// Takes what was read of the temperature sensors.
pub fn fill_temperatures(stats: &mut Vec<TemperatureStats>, components: &Vec<ComponentReading>)
    ensures
        components_show(final(stats)@, components@),
{
    stats.resize(components.len(), TemperatureStats::default());
    let mut i: usize = 0;
    while i < components.len()
        invariant
            i <= components@.len(),
            stats@.len() == components@.len(),
            forall|j: int| 0 <= j < i ==> component_shows(#[trigger] stats@[j], components@[j]),
        decreases components@.len() - i,
    {
        stats[i].init_with_component(&components[i]);
        i += 1;
    }
}

impl SystemStats {
    /// Takes what was read of the machine and its processes.
    pub fn update_system(&mut self, system: &SystemReading)
        ensures
            base_shows(*final(self).base, *system),
            processes_show(final(self).processes@, system.processes@),
            *final(self) == (SystemStats {
                base: final(self).base,
                processes: final(self).processes,
                ..*old(self)
            }),
    {
        let mut base = BaseSystemStats::default();
        base.init_with_system(system);
        let mut processes: Vec<ProcessStats> = Vec::new();
        fill_processes(&mut processes, system);
        self.base = Arc::new(base);
        self.processes = Arc::new(processes);
    }

    /// Takes what was read of the disks.
    pub fn update_disks(&mut self, disks: &Vec<DiskReading>)
        requires
            forall|i: int|
                0 <= i < disks@.len() ==> (#[trigger] disks@[i]).available_space
                    <= disks@[i].total_space,
        ensures
            disks_show(final(self).disks@, disks@, old(self).disks@),
            *final(self) == (SystemStats { disks: final(self).disks, ..*old(self) }),
    {
        let mut stats: Vec<DiskStats> = (*self.disks).clone();
        assert(stats@ =~= self.disks@);
        fill_disks(&mut stats, disks);
        self.disks = Arc::new(stats);
    }

    /// Takes what was read of the temperature sensors.
    pub fn update_components(&mut self, components: &Vec<ComponentReading>)
        ensures
            components_show(final(self).temperatures@, components@),
            *final(self) == (SystemStats { temperatures: final(self).temperatures, ..*old(self) }),
    {
        let mut stats: Vec<TemperatureStats> = Vec::new();
        fill_temperatures(&mut stats, components);
        self.temperatures = Arc::new(stats);
    }
}

/// The section of the machine says every figure that was read, of the machine as a whole and of
/// each core in turn, and of the memory and the swap how much there is, is used and is available.
pub proof fn law_machine_is_shown_as_read(stats: BaseSystemStats, system: SystemReading)
    requires
        base_shows(stats, system),
    ensures
        stats.cpu_usage.bits == system.global_cpu_usage.bits,
        stats.uptime == system.uptime,
        stats.ram.total == system.total_memory,
        stats.ram.used == system.used_memory,
        stats.ram.available == system.available_memory,
        stats.ram.usage.part == system.used_memory && stats.ram.usage.whole == system.total_memory
            && !stats.ram.usage.percent,
        stats.swap.total == system.total_swap,
        stats.swap.used == system.used_swap,
        stats.swap.available == system.free_swap,
        stats.swap.usage.part == system.used_swap && stats.swap.usage.whole == system.total_swap
            && !stats.swap.usage.percent,
        stats.cpus@.len() == system.cpus@.len(),
        forall|i: int|
            0 <= i < system.cpus@.len() ==> {
                let core = #[trigger] stats.cpus@[i];
                &&& core.name@ == system.cpus@[i].name@
                &&& core.usage.bits == system.cpus@[i].usage.bits
                &&& core.vendor_id@ == system.cpus@[i].vendor_id@
                &&& core.brand@ == system.cpus@[i].brand@
                &&& core.frequency == system.cpus@[i].frequency
            },
{
    assert forall|i: int| 0 <= i < system.cpus@.len() implies {
        let core = #[trigger] stats.cpus@[i];
        &&& core.name@ == system.cpus@[i].name@
        &&& core.usage.bits == system.cpus@[i].usage.bits
        &&& core.vendor_id@ == system.cpus@[i].vendor_id@
        &&& core.brand@ == system.cpus@[i].brand@
        &&& core.frequency == system.cpus@[i].frequency
    } by {
        assert(cpu_shows(stats.cpus@[i], system.cpus@[i]));
    }
}

/// The section of the disks says of every disk what was read, in order, and what is not available
/// of it is in use. A mount point that is the same path as the one that stood in its place keeps
/// its spelling, and any other is what was read.
pub proof fn law_disks_are_shown_as_read(
    stats: Seq<DiskStats>,
    disks: Seq<DiskReading>,
    before: Seq<DiskStats>,
    i: int,
)
    requires
        disks_show(stats, disks, before),
        0 <= i < disks.len(),
        disks[i].available_space <= disks[i].total_space,
    ensures
        stats.len() == disks.len(),
        stats[i].kind == disks[i].kind,
        is_text_of(stats[i].name@, disks[i].name@),
        is_text_of(stats[i].file_system@, disks[i].file_system@),
        stats[i].is_removable == disks[i].is_removable,
        stats[i].is_read_only == disks[i].is_read_only,
        stats[i].stats.total == disks[i].total_space,
        stats[i].stats.available == disks[i].available_space,
        stats[i].stats.used + stats[i].stats.available == stats[i].stats.total,
        stats[i].stats.usage.part == stats[i].stats.used && stats[i].stats.usage.whole
            == disks[i].total_space && !stats[i].stats.usage.percent,
        ({
            let old_mount = if i < before.len() {
                before[i].mount_point@
            } else {
                Seq::empty()
            };
            if same_path(encode_utf8(old_mount), disks[i].mount_point@) {
                stats[i].mount_point@ == old_mount
            } else {
                is_text_of(stats[i].mount_point@, disks[i].mount_point@)
            }
        }),
{
    assert(disk_shows(stats[i], disks[i], mounted_at(before, i)));
}

/// The section of the temperatures says of every sensor its label and its three readings, in order.
pub proof fn law_sensors_are_shown_as_read(
    stats: Seq<TemperatureStats>,
    components: Seq<ComponentReading>,
    i: int,
)
    requires
        components_show(stats, components),
        0 <= i < components.len(),
    ensures
        stats.len() == components.len(),
        stats[i].label@ == components[i].label@,
        stats[i].current == components[i].temperature,
        stats[i].max == components[i].max,
        stats[i].critical == components[i].critical,
{
    assert(component_shows(stats[i], components[i]));
}

/// A row of the processes is the one of a process that was read, with every figure as it was.
pub open spec fn is_row_of(row: ProcessStats, process: ProcessReading) -> bool {
    &&& row.pid == process.pid
    &&& is_text_of(row.name@, process.name@)
    &&& row.cpu_usage.bits == process.cpu_usage.bits
    &&& row.memory_used == process.memory
    &&& row.cgroup_info.lxc_vm_id is None
    &&& row.cgroup_info.lxc_name is None
    &&& row.cgroup_info.docker_container_id is None
    &&& row.cgroup_info.docker_container_name is None
}

/// A row is that of one of the processes that were read.
pub open spec fn was_read(row: ProcessStats, readings: Seq<ProcessReading>) -> bool {
    exists|k: int| 0 <= k < readings.len() && is_row_of(row, #[trigger] readings[k])
}

/// One of the rows is that of a process that was read.
pub open spec fn is_listed(process: ProcessReading, listed: Seq<ProcessStats>) -> bool {
    exists|i: int| 0 <= i < listed.len() && is_row_of(#[trigger] listed[i], process)
}

/// No two of the processes that were read have one pid.
pub open spec fn pids_distinct(readings: Seq<ProcessReading>) -> bool {
    forall|i: int, j: int|
        0 <= i < j < readings.len() ==> (#[trigger] readings[i]).pid != (#[trigger] readings[j]).pid
}

/// Ten processes are listed, or all where there are fewer, the busiest first. Each of them is one
/// that was read, none is listed twice, and one that was read and is not listed is no busier than
/// any that is.
pub proof fn law_busiest_are_listed(listed: Seq<ProcessStats>, readings: Seq<ProcessReading>)
    requires
        processes_show(listed, readings),
    ensures
        listed.len() == (if readings.len() < 10 {
            readings.len()
        } else {
            10
        }),
        forall|i: int, j: int|
            0 <= i < j < listed.len() ==> (#[trigger] listed[i]).cpu_usage.rank() >= (
            #[trigger] listed[j]).cpu_usage.rank(),
        forall|i: int| 0 <= i < listed.len() ==> was_read(#[trigger] listed[i], readings),
        forall|k: int, i: int|
            0 <= k < readings.len() && 0 <= i < listed.len() ==> is_listed(
                #[trigger] readings[k],
                listed,
            ) || (#[trigger] listed[i]).cpu_usage.rank() >= readings[k].cpu_usage.rank(),
        readings.len() <= 10 ==> forall|k: int|
            0 <= k < readings.len() ==> is_listed(#[trigger] readings[k], listed),
        pids_distinct(readings) ==> forall|i: int, j: int|
            0 <= i < j < listed.len() ==> (#[trigger] listed[i]).pid != (#[trigger] listed[j]).pid,
{
    broadcast use vstd::seq_lib::group_to_multiset_ensures;

    let all = choose|all: Seq<ProcessStats>| #[trigger]
        all_processes_show(all, readings) && are_busiest(listed, all);
    let ordered = choose|ordered: Seq<ProcessStats>| #[trigger]
        is_ordering_of(ordered, all) && listed == ordered.take(
            if ordered.len() < PROCESSES_LISTED {
                ordered.len() as int
            } else {
                PROCESSES_LISTED as int
            },
        );
    assert(ordered.len() == all.len()) by {
        assert(ordered.to_multiset().len() == all.to_multiset().len());
    }
    assert forall|i: int, j: int| 0 <= i < j < listed.len() implies (
    #[trigger] listed[i]).cpu_usage.rank() >= (#[trigger] listed[j]).cpu_usage.rank() by {
        assert(ordered[i].key_of() <= ordered[j].key_of());
    }
    assert forall|i: int| 0 <= i < listed.len() implies was_read(
        #[trigger] listed[i],
        readings,
    ) by {
        assert(ordered[i] == listed[i]);
        assert(ordered.contains(listed[i]));
        assert(ordered.to_multiset().count(listed[i]) > 0);
        assert(all.contains(listed[i]));
        let k = all.index_of(listed[i]);
        assert(process_shows(all[k], readings[k]));
        assert(is_row_of(listed[i], readings[k]));
    }
    assert forall|k: int|
        0 <= k < readings.len() && listed.contains(all[k]) implies is_listed(
        #[trigger] readings[k],
        listed,
    ) by {
        assert(process_shows(all[k], readings[k]));
        let i = listed.index_of(all[k]);
        assert(is_row_of(listed[i], readings[k]));
    }
    assert forall|k: int, i: int|
        0 <= k < readings.len() && 0 <= i < listed.len() implies is_listed(
        #[trigger] readings[k],
        listed,
    ) || (#[trigger] listed[i]).cpu_usage.rank() >= readings[k].cpu_usage.rank() by {
        assert(process_shows(all[k], readings[k]));
        if !listed.contains(all[k]) {
            assert(all.contains(all[k]));
            assert(listed.contains(listed[i]));
            law_unlisted_are_no_busier(listed, all, all[k], listed[i]);
        }
    }
    if pids_distinct(readings) {
        assert(all.no_duplicates()) by {
            assert forall|i: int, j: int| 0 <= i < j < all.len() implies all[i] != all[j] by {
                assert(process_shows(all[i], readings[i]) && process_shows(all[j], readings[j]));
                assert(readings[i].pid != readings[j].pid);
            }
        }
        all.lemma_multiset_has_no_duplicates();
        ordered.lemma_multiset_has_no_duplicates_conv();
        assert forall|i: int, j: int| 0 <= i < j < listed.len() implies (#[trigger] listed[i]).pid
            != (#[trigger] listed[j]).pid by {
            assert(ordered.contains(ordered[i]) && ordered.contains(ordered[j]));
            assert(ordered.to_multiset().count(ordered[i]) > 0);
            assert(ordered.to_multiset().count(ordered[j]) > 0);
            assert(all.contains(ordered[i]) && all.contains(ordered[j]));
            let k = all.index_of(ordered[i]);
            let m = all.index_of(ordered[j]);
            assert(ordered[i] != ordered[j]);
            assert(process_shows(all[k], readings[k]) && process_shows(all[m], readings[m]));
            if k < m {
                assert(readings[k].pid != readings[m].pid);
            } else {
                assert(readings[m].pid != readings[k].pid);
            }
        }
    }
    if readings.len() <= 10 {
        assert(listed =~= ordered);
        assert forall|k: int| 0 <= k < readings.len() implies is_listed(
            #[trigger] readings[k],
            listed,
        ) by {
            assert(all.contains(all[k]));
            assert(all.to_multiset().count(all[k]) > 0);
            assert(listed.contains(all[k]));
        }
    }
}

} // verus!
