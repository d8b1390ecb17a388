//! The graphics cards and what runs on them.

use std::collections::HashMap;

use vstd::prelude::*;

use crate::structures::{GpuProcessStats, GpuStats, ProcessCGroupInfo, StorageStats, Usage};
use crate::text::{is_text_of, text_from_lossy};

verus! {

/// How much of a card's memory a process uses, as the driver reports it.
#[derive(Debug, Clone, Copy, PartialEq, Eq, Structural)]
pub enum UsedGpuMemory {
    Unavailable,
    Used(u64),
}

/// A process on a card, as the driver reports it.
#[derive(Debug, Clone, Copy, PartialEq, Eq, Structural)]
pub struct GpuProcessReading {
    pub pid: u32,
    pub used_gpu_memory: UsedGpuMemory,
}

/// One card, as the driver reports it.
#[derive(Debug)]
pub struct GpuReading {
    pub name: String,
    pub temperature: u32,
    pub utilization: u32,
    pub power_usage_milliwatts: u32,
    pub memory_total: u64,
    pub memory_used: u64,
    pub memory_free: u64,
    /// The processes that compute, unless the driver would not say.
    pub compute_processes: Option<Vec<GpuProcessReading>>,
    /// The processes that draw, unless the driver would not say.
    pub graphics_processes: Option<Vec<GpuProcessReading>>,
}

/// The processes that the driver reported, none where it would not say.
pub open spec fn reported(processes: Option<Vec<GpuProcessReading>>) -> Seq<GpuProcessReading> {
    match processes {
        Some(processes) => processes@,
        None => Seq::empty(),
    }
}

/// A process's section says what was reported, with no name and nothing of its container yet.
pub open spec fn gpu_process_shows(stats: GpuProcessStats, process: GpuProcessReading) -> bool {
    &&& stats.pid == process.pid
    &&& stats.process_name@.len() == 0
    &&& stats.memory_used == (match process.used_gpu_memory {
        UsedGpuMemory::Unavailable => None,
        UsedGpuMemory::Used(used) => Some(used),
    })
    &&& stats.cgroup_info == ProcessCGroupInfo::nowhere()
}

/// The sections of a card's processes, one for one.
pub open spec fn gpu_processes_show(
    stats: Seq<GpuProcessStats>,
    processes: Seq<GpuProcessReading>,
) -> bool {
    &&& stats.len() == processes.len()
    &&& forall|i: int|
        0 <= i < stats.len() ==> gpu_process_shows(#[trigger] stats[i], processes[i])
}

/// A card's section says what was reported: those that compute come before those that draw.
pub open spec fn gpu_shows(stats: GpuStats, gpu: GpuReading) -> bool {
    &&& stats.name@ == gpu.name@
    &&& stats.temperature == gpu.temperature
    &&& stats.utilization == gpu.utilization
    &&& stats.power_usage_milliwatts == gpu.power_usage_milliwatts
    &&& stats.memory == (StorageStats {
        usage: Usage { part: gpu.memory_used, whole: gpu.memory_total, percent: true },
        total: gpu.memory_total,
        used: gpu.memory_used,
        available: gpu.memory_free,
    })
    &&& gpu_processes_show(
        stats.processes@,
        reported(gpu.compute_processes) + reported(gpu.graphics_processes),
    )
}

fn add_processes(stats: &mut Vec<GpuProcessStats>, processes: &Vec<GpuProcessReading>)
    ensures
        final(stats)@.len() == old(stats)@.len() + processes@.len(),
        forall|i: int| 0 <= i < old(stats)@.len() ==> final(stats)@[i] == old(stats)@[i],
        forall|i: int|
            0 <= i < processes@.len() ==> gpu_process_shows(
                #[trigger] final(stats)@[old(stats)@.len() + i],
                processes@[i],
            ),
{
    let ghost before = stats@;
    let mut i: usize = 0;
    while i < processes.len()
        invariant
            i <= processes@.len(),
            stats@.len() == before.len() + i,
            forall|j: int| 0 <= j < before.len() ==> stats@[j] == before[j],
            forall|j: int|
                before.len() <= j < before.len() + i ==> gpu_process_shows(
                    #[trigger] stats@[j],
                    processes@[j - before.len()],
                ),
        decreases processes@.len() - i,
    {
        let process: GpuProcessReading = processes[i];
        let memory_used: Option<u64> = match process.used_gpu_memory {
            UsedGpuMemory::Unavailable => None,
            UsedGpuMemory::Used(used) => Some(used),
        };
        stats.push(
            GpuProcessStats {
                pid: process.pid,
                process_name: String::new(),
                memory_used,
                cgroup_info: ProcessCGroupInfo::default(),
            },
        );
        i += 1;
    }
}

/// One card's section.
fn gpu_stats(gpu: GpuReading) -> (stats: GpuStats)
    ensures
        gpu_shows(stats, gpu),
{
    let mut processes: Vec<GpuProcessStats> = Vec::new();
    if let Some(compute) = &gpu.compute_processes {
        add_processes(&mut processes, compute);
    }
    let ghost first = processes@;
    assert(gpu_processes_show(first, reported(gpu.compute_processes))) by {
        assert forall|i: int| 0 <= i < first.len() implies gpu_process_shows(
            #[trigger] first[i],
            reported(gpu.compute_processes)[i],
        ) by {
            assert(first[0 + i] == first[i]);
        }
    }
    if let Some(graphics) = &gpu.graphics_processes {
        add_processes(&mut processes, graphics);
    }
    proof {
        let one = reported(gpu.compute_processes);
        let two = reported(gpu.graphics_processes);
        assert forall|i: int| 0 <= i < processes@.len() implies gpu_process_shows(
            #[trigger] processes@[i],
            (one + two)[i],
        ) by {
            if i < first.len() {
                assert(processes@[i] == first[i]);
            } else {
                assert(processes@[first.len() + (i - first.len())] == processes@[i]);
            }
        }
    }
    GpuStats {
        name: gpu.name,
        temperature: gpu.temperature,
        utilization: gpu.utilization,
        power_usage_milliwatts: gpu.power_usage_milliwatts,
        memory: StorageStats {
            usage: Usage { part: gpu.memory_used, whole: gpu.memory_total, percent: true },
            total: gpu.memory_total,
            used: gpu.memory_used,
            available: gpu.memory_free,
        },
        processes,
    }
}

/// The sections of the cards, one for one.
pub open spec fn gpus_show(stats: Seq<GpuStats>, gpus: Seq<GpuReading>) -> bool {
    &&& stats.len() == gpus.len()
    &&& forall|i: int| 0 <= i < stats.len() ==> gpu_shows(#[trigger] stats[i], gpus[i])
}

/// Every card, and what is running on it.
///
/// The names of the processes are put in by [`fill_process_names`] once every pid on every card is
/// known. Which container each of them belongs to is left to whoever assembles the page's picture.
pub fn fetch_gpu_stats(gpus: Vec<GpuReading>) -> (stats: Vec<GpuStats>)
    ensures
        gpus_show(stats@, gpus@),
{
    let mut stats: Vec<GpuStats> = Vec::new();
    for gpu in iter: gpus
        invariant
            iter.seq() == gpus@,
            stats@.len() == iter.index(),
            forall|i: int| 0 <= i < stats@.len() ==> gpu_shows(#[trigger] stats@[i], gpus@[i]),
    {
        stats.push(gpu_stats(gpu));
    }
    stats
}

/// The pids of some processes, in order.
pub open spec fn pids_of(processes: Seq<GpuProcessStats>) -> Seq<u32> {
    Seq::new(processes.len(), |i: int| processes[i].pid)
}

/// The pids on some cards, card by card.
pub open spec fn pids_on(gpus: Seq<GpuStats>) -> Seq<u32>
    decreases gpus.len(),
{
    if gpus.len() == 0 {
        Seq::empty()
    } else {
        pids_on(gpus.drop_last()) + pids_of(gpus.last().processes@)
    }
}

/// The pids on the cards, card by card.
pub fn gpu_pids(gpus: &Vec<GpuStats>) -> (pids: Vec<u32>)
    ensures
        pids@ == pids_on(gpus@),
{
    let mut pids: Vec<u32> = Vec::new();
    let mut g: usize = 0;
    assert(gpus@.take(0) =~= Seq::<GpuStats>::empty());
    while g < gpus.len()
        invariant
            g <= gpus@.len(),
            pids@ == pids_on(gpus@.take(g as int)),
        decreases gpus@.len() - g,
    {
        let processes: &Vec<GpuProcessStats> = &gpus[g].processes;
        let ghost before = pids@;
        let mut i: usize = 0;
        while i < processes.len()
            invariant
                i <= processes@.len(),
                pids@ == before + pids_of(processes@).take(i as int),
            decreases processes@.len() - i,
        {
            pids.push(processes[i].pid);
            i += 1;
            assert(pids@ =~= before + pids_of(processes@).take(i as int));
        }
        assert(pids_of(processes@).take(i as int) =~= pids_of(processes@));
        assert(gpus@.take(g + 1).drop_last() =~= gpus@.take(g as int));
        g += 1;
    }
    assert(gpus@.take(gpus@.len() as int) =~= gpus@);
    pids
}

/// The name of a process: what the kernel calls it, and `Unknown` where it is not there any more.
pub open spec fn is_name_for(name: Seq<char>, pid: u32, names: Map<u32, Vec<u8>>) -> bool {
    if names.contains_key(pid) {
        is_text_of(name, names[pid]@)
    } else {
        name == "Unknown"@
    }
}

/// A process with its name put in.
pub open spec fn is_named(
    after: GpuProcessStats,
    before: GpuProcessStats,
    names: Map<u32, Vec<u8>>,
) -> bool {
    &&& is_name_for(after.process_name@, before.pid, names)
    &&& after == (GpuProcessStats { process_name: after.process_name, ..before })
}

/// A card with the names of its processes put in, and nothing else changed.
pub open spec fn is_named_gpu(after: GpuStats, before: GpuStats, names: Map<u32, Vec<u8>>) -> bool {
    &&& after.name == before.name
    &&& after.temperature == before.temperature
    &&& after.utilization == before.utilization
    &&& after.power_usage_milliwatts == before.power_usage_milliwatts
    &&& after.memory == before.memory
    &&& after.processes@.len() == before.processes@.len()
    &&& forall|i: int|
        0 <= i < after.processes@.len() ==> is_named(
            #[trigger] after.processes@[i],
            before.processes@[i],
            names,
        )
}

fn name_processes(processes: &mut Vec<GpuProcessStats>, names: &HashMap<u32, Vec<u8>>)
    ensures
        final(processes)@.len() == old(processes)@.len(),
        forall|i: int|
            0 <= i < final(processes)@.len() ==> is_named(
                #[trigger] final(processes)@[i],
                old(processes)@[i],
                names@,
            ),
{
    broadcast use vstd::std_specs::hash::group_hash_axioms;

    let mut i: usize = 0;
    while i < processes.len()
        invariant
            i <= processes@.len(),
            processes@.len() == old(processes)@.len(),
            forall|j: int|
                0 <= j < i ==> is_named(#[trigger] processes@[j], old(processes)@[j], names@),
            forall|j: int| i <= j < processes@.len() ==> processes@[j] == old(processes)@[j],
        decreases processes@.len() - i,
    {
        let name: String = match names.get(&processes[i].pid) {
            Some(name) => text_from_lossy(name.as_slice()),
            None => "Unknown".to_owned(),
        };
        processes[i].process_name = name;
        i += 1;
    }
}

/// Puts a name to every process on every card.
pub fn fill_process_names(gpus: &mut Vec<GpuStats>, names: &HashMap<u32, Vec<u8>>)
    ensures
        final(gpus)@.len() == old(gpus)@.len(),
        forall|i: int|
            0 <= i < final(gpus)@.len() ==> is_named_gpu(
                #[trigger] final(gpus)@[i],
                old(gpus)@[i],
                names@,
            ),
{
    let mut g: usize = 0;
    while g < gpus.len()
        invariant
            g <= gpus@.len(),
            gpus@.len() == old(gpus)@.len(),
            forall|j: int|
                0 <= j < g ==> is_named_gpu(#[trigger] gpus@[j], old(gpus)@[j], names@),
            forall|j: int| g <= j < gpus@.len() ==> gpus@[j] == old(gpus)@[j],
        decreases gpus@.len() - g,
    {
        name_processes(&mut gpus[g].processes, names);
        g += 1;
    }
}

/// A card's section says every figure that was reported of it, and lists first the processes that
/// compute and then those that draw, each with its pid and with its memory where that was reported.
pub proof fn law_cards_are_shown_as_reported(
    stats: Seq<GpuStats>,
    gpus: Seq<GpuReading>,
    g: int,
    i: int,
)
    requires
        gpus_show(stats, gpus),
        0 <= g < gpus.len(),
    ensures
        ({
            let card = stats[g];
            let compute = reported(gpus[g].compute_processes);
            let graphics = reported(gpus[g].graphics_processes);
            &&& stats.len() == gpus.len()
            &&& card.name@ == gpus[g].name@
            &&& card.temperature == gpus[g].temperature
            &&& card.utilization == gpus[g].utilization
            &&& card.power_usage_milliwatts == gpus[g].power_usage_milliwatts
            &&& card.memory.total == gpus[g].memory_total
            &&& card.memory.used == gpus[g].memory_used
            &&& card.memory.available == gpus[g].memory_free
            &&& card.memory.usage.part == gpus[g].memory_used && card.memory.usage.whole
                == gpus[g].memory_total && card.memory.usage.percent
            &&& card.processes@.len() == compute.len() + graphics.len()
            &&& 0 <= i < compute.len() ==> card.processes@[i].pid == compute[i].pid && (
            card.processes@[i].memory_used == (match compute[i].used_gpu_memory {
                UsedGpuMemory::Used(used) => Some(used),
                UsedGpuMemory::Unavailable => None,
            }))
            &&& 0 <= i < graphics.len() ==> card.processes@[compute.len() + i].pid
                == graphics[i].pid && (card.processes@[compute.len() + i].memory_used == (
            match graphics[i].used_gpu_memory {
                UsedGpuMemory::Used(used) => Some(used),
                UsedGpuMemory::Unavailable => None,
            }))
        }),
{
    assert(gpu_shows(stats[g], gpus[g]));
    let compute = reported(gpus[g].compute_processes);
    let graphics = reported(gpus[g].graphics_processes);
    let both = compute + graphics;
    if 0 <= i < compute.len() {
        assert(gpu_process_shows(stats[g].processes@[i], both[i]));
    }
    if 0 <= i < graphics.len() {
        assert(gpu_process_shows(
            stats[g].processes@[compute.len() + i],
            both[compute.len() + i],
        ));
    }
}

/// The processes that were reported are those that the driver named, and none where it would not
/// say.
pub proof fn law_reported_is_what_the_driver_named(processes: Vec<GpuProcessReading>)
    ensures
        reported(Some(processes)) == processes@,
        reported(None).len() == 0,
{
}

/// Naming the processes changes their names and nothing else: each has the name that is known of
/// its own pid, or `Unknown`.
pub proof fn law_naming_changes_the_names_only(
    after: GpuStats,
    before: GpuStats,
    names: Map<u32, Vec<u8>>,
    i: int,
)
    requires
        is_named_gpu(after, before, names),
        0 <= i < before.processes@.len(),
    ensures
        after.name == before.name,
        after.temperature == before.temperature,
        after.utilization == before.utilization,
        after.power_usage_milliwatts == before.power_usage_milliwatts,
        after.memory == before.memory,
        after.processes@.len() == before.processes@.len(),
        after.processes@[i].pid == before.processes@[i].pid,
        after.processes@[i].memory_used == before.processes@[i].memory_used,
        after.processes@[i].cgroup_info == before.processes@[i].cgroup_info,
        names.contains_key(before.processes@[i].pid) ==> is_text_of(
            after.processes@[i].process_name@,
            names[before.processes@[i].pid]@,
        ),
        !names.contains_key(before.processes@[i].pid) ==> after.processes@[i].process_name@
            == "Unknown"@,
{
    assert(is_named(after.processes@[i], before.processes@[i], names));
}

/// The pids on the cards are those of all the processes on all of them: those of some cards and
/// then those of the others, and of one card those of its processes, in order.
pub proof fn law_pids_are_of_every_card(
    one: Seq<GpuStats>,
    two: Seq<GpuStats>,
    gpu: GpuStats,
    i: int,
)
    ensures
        pids_on(one + two) == pids_on(one) + pids_on(two),
        pids_on(Seq::empty()).len() == 0,
        pids_on(seq![gpu]).len() == gpu.processes@.len(),
        0 <= i < gpu.processes@.len() ==> pids_on(seq![gpu])[i] == gpu.processes@[i].pid,
    decreases two.len(),
{
    let single = seq![gpu];
    assert(single.drop_last() =~= Seq::<GpuStats>::empty());
    assert(pids_on(single.drop_last()).len() == 0);
    assert(pids_on(single) =~= pids_of(gpu.processes@));
    if two.len() == 0 {
        assert(one + two =~= one);
        assert(pids_on(one) + pids_on(two) =~= pids_on(one));
    } else {
        law_pids_are_of_every_card(one, two.drop_last(), gpu, i);
        assert((one + two).drop_last() =~= one + two.drop_last());
        assert(pids_on(one + two) =~= pids_on(one) + pids_on(two));
    }
}

} // verus!
