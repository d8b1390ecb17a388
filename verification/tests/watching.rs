use std::collections::HashMap;

use homemon::assemble::{
    cgroup_info_for, publish, report_staleness, Assembler, Wait, HEARTBEAT, MIN_PUBLISH_INTERVAL,
};
use homemon::clock::Timestamp;
use homemon::get_stats::{ComponentReading, DiskReading, ProcessReading, SystemReading};
use homemon::monitor::{
    cgroup_answered, cgroup_pids, ErrorLog, LookupFailure, Sources, State, DISK_INTERVAL,
};
use homemon::numbers::{Float32, Float64};
use homemon::nvidia::{fetch_gpu_stats, GpuProcessReading, GpuReading, UsedGpuMemory};
use homemon::proxmox::{get_lxc, LxcItem};
use homemon::slots::Slot;
use homemon::structures::{
    BaseSystemStats, DiskKind, DiskStats, EnergyUsage, GpuStats, ProcessCGroupInfo, ProcessStats,
    ProxmoxLxcStats, SourceStatus, SourceStatuses, TemperatureStats,
};

fn at(unix_secs: i64) -> Timestamp {
    Timestamp { unix_nanos: unix_secs as i128 * 1_000_000_000 }
}

fn f64_of(value: f64) -> Float64 {
    Float64 { bits: value.to_bits() }
}

fn process(pid: u32) -> ProcessStats {
    ProcessStats { pid, ..ProcessStats::default() }
}

fn gpu_with(pids: &[u32]) -> Vec<GpuStats> {
    let processes = pids
        .iter()
        .map(|pid| GpuProcessReading { pid: *pid, used_gpu_memory: UsedGpuMemory::Unavailable })
        .collect();
    fetch_gpu_stats(vec![GpuReading {
        name: "card".to_owned(),
        temperature: 1,
        utilization: 2,
        power_usage_milliwatts: 3,
        memory_total: 4,
        memory_used: 1,
        memory_free: 3,
        compute_processes: Some(processes),
        graphics_processes: None,
    }])
}

fn containers(ids: &[(u32, &str)]) -> Vec<ProxmoxLxcStats> {
    let items = ids
        .iter()
        .map(|(vmid, name)| LxcItem {
            cpu: 0,
            disk: 0,
            maxdisk: 1,
            maxmem: 1,
            maxswap: 1,
            mem: 0,
            name: (*name).to_owned(),
            pid: 1,
            swap: 0,
            uptime: 0,
            vmid: *vmid,
        })
        .collect();
    get_lxc(items)
}

fn in_lxc(vm_id: u32) -> ProcessCGroupInfo {
    ProcessCGroupInfo { lxc_vm_id: Some(vm_id), ..ProcessCGroupInfo::default() }
}

fn energy(power: u64) -> EnergyUsage {
    EnergyUsage {
        current_power: Some(power),
        electricity_charge: None,
        local_time: "2026-01-01 00:00:00".to_owned(),
        month_energy: 1,
        month_runtime: 2,
        today_energy: 3,
        today_runtime: 4,
    }
}

#[test]
fn equal_section_is_not_handed_on() {
    let mut slot: Slot<Float64> = Slot::new(f64_of(0.0), 250);
    let before = slot.load();
    assert!(!slot.publish_owned(f64_of(-0.0), at(5)));
    assert!(before.is_same_gather(&slot.load()));
    assert_eq!(slot.status(at(5), 0).updated_at, Some(at(5)));
    assert!(slot.publish_owned(f64_of(1.0), at(6)));
    assert!(!before.is_same_gather(&slot.load()));
    assert_eq!(*slot.load().value, f64_of(1.0));
    // What is not a number equals nothing, not even itself.
    assert!(slot.publish_owned(f64_of(f64::NAN), at(7)));
    assert!(slot.publish_owned(f64_of(f64::NAN), at(8)));
}

#[test]
fn source_keeps_its_own_copy() {
    let mut slot: Slot<Vec<ProcessStats>> = Slot::new(Vec::new(), 250);
    let mut mine = vec![process(1)];
    assert!(slot.publish(&mine, at(1)));
    let held = slot.load();
    assert!(!slot.publish(&mine, at(2)));
    assert!(held.is_same_gather(&slot.load()));
    mine[0].memory_used = 9;
    assert!(slot.publish(&mine, at(3)));
    assert_eq!(slot.load().value[0].memory_used, 9);
    assert_eq!(held.value[0].memory_used, 0);
}

#[test]
fn section_that_cannot_be_compared_always_moves() {
    let mut slot: Slot<Option<EnergyUsage>> = Slot::new(None, 1000);
    let before = slot.load();
    slot.publish_always(None, at(1));
    assert!(!before.is_same_gather(&slot.load()));
}

#[test]
fn patience_is_three_intervals_and_no_less_than_ten_seconds() {
    let slot = |millis: u32| Slot::new(f64_of(0.0), millis);
    assert_eq!(slot(250).stale_after_secs(), 10);
    assert_eq!(slot(2_000).stale_after_secs(), 10);
    assert_eq!(slot(3_333).stale_after_secs(), 10);
    assert_eq!(slot(3_334).stale_after_secs(), 11);
    assert_eq!(slot(5_000).stale_after_secs(), 15);
    assert_eq!(slot(u32::MAX).stale_after_secs(), 12_884_902);
    // The same in floating point.
    for millis in [0u32, 1, 333, 334, 4_999, 5_000, 5_001, 100_000, 123_457] {
        let secs = std::time::Duration::from_millis(millis as u64).as_secs_f64();
        let expected = ((secs * 3.0).ceil() as i64).max(10);
        assert_eq!(slot(millis).stale_after_secs(), expected);
    }
}

#[test]
fn status_tells_freshness() {
    let mut slot = Slot::new(f64_of(0.0), 250);
    // Never answered, not watched for long enough, then for long enough.
    assert_eq!(slot.status(at(1000), 10), SourceStatus { updated_at: None, stale: false });
    assert_eq!(slot.status(at(1000), 11), SourceStatus { updated_at: None, stale: true });
    slot.publish_owned(f64_of(1.0), Timestamp { unix_nanos: 1_000_900_000_000 });
    let answered = Some(at(1000));
    assert_eq!(slot.status(at(1010), 99), SourceStatus { updated_at: answered, stale: false });
    let late = Timestamp { unix_nanos: 1_010_999_999_999 };
    assert_eq!(slot.status(late, 99), SourceStatus { updated_at: answered, stale: false });
    assert_eq!(slot.status(at(1011), 99), SourceStatus { updated_at: answered, stale: true });
    assert_eq!(slot.status(at(1011), 10), SourceStatus { updated_at: answered, stale: false });
    // A clock that was set back.
    assert!(!slot.status(at(5), 99).stale);
}

#[test]
fn moments_before_the_epoch_are_seconds_rounded_down() {
    let mut slot = Slot::new(f64_of(0.0), 250);
    slot.publish_owned(f64_of(1.0), Timestamp { unix_nanos: -1 });
    assert_eq!(slot.status(at(0), 0).updated_at, Some(at(-1)));
}

#[test]
fn state_knows_since_when_it_is_watched() {
    let mut state = State::new();
    assert!(state.wait_for_listeners());
    assert_eq!(state.watching_for_secs(at(50)), None);
    state.add_listener(at(100));
    state.add_listener(at(150));
    assert!(!state.wait_for_listeners());
    assert_eq!(state.listener_count(), 2);
    assert_eq!(state.watching_for_secs(at(160)), Some(60));
    state.remove_listener();
    assert_eq!(state.watching_for_secs(at(161)), Some(61));
    state.remove_listener();
    assert_eq!(state.watching_for_secs(at(162)), None);
    assert!(state.wait_for_listeners());
    state.add_listener(at(200));
    assert_eq!(state.watching_for_secs(at(200)), Some(0));
}

#[test]
fn failure_is_said_once() {
    let mut log = ErrorLog::new("Proxmox");
    assert_eq!(log.failed("gone".to_owned()), Some("Proxmox error: gone".to_owned()));
    assert_eq!(log.failed("gone".to_owned()), None);
    assert_eq!(log.failed("back".to_owned()), Some("Proxmox error: back".to_owned()));
    log.ok();
    assert_eq!(log.failed("back".to_owned()), Some("Proxmox error: back".to_owned()));
}

#[test]
fn system_round_moves_what_has_changed() {
    let mut sources = Sources::default();
    let mut base = BaseSystemStats::default();
    let mut processes = Vec::new();
    let mut reading = SystemReading {
        global_cpu_usage: Float32 { bits: 0 },
        cpus: vec![],
        total_memory: 10,
        used_memory: 5,
        available_memory: 5,
        total_swap: 10,
        used_swap: 0,
        free_swap: 10,
        uptime: 1,
        processes: vec![ProcessReading {
            pid: 3,
            name: b"three".to_vec(),
            cpu_usage: Float32 { bits: 0 },
            memory: 30,
        }],
    };
    assert!(sources.system_source(&mut base, &mut processes, &reading, at(1)));
    assert_eq!(sources.base.load().value.uptime, 1);
    assert_eq!(sources.processes.load().value[0].name, "three");
    assert!(!sources.system_source(&mut base, &mut processes, &reading, at(2)));
    let held = sources.processes.load();
    reading.uptime = 2;
    assert!(sources.system_source(&mut base, &mut processes, &reading, at(3)));
    assert!(held.is_same_gather(&sources.processes.load()));
    assert_eq!(sources.processes.status(at(3), 0).updated_at, Some(at(3)));
    assert_eq!(sources.disks.status(at(3), 0).updated_at, None);
}

#[test]
fn disk_and_temperature_rounds() {
    let mut sources = Sources::default();
    let disk = DiskReading {
        kind: DiskKind::Hdd,
        name: b"sda".to_vec(),
        file_system: b"ext4".to_vec(),
        mount_point: b"/".to_vec(),
        is_removable: false,
        is_read_only: false,
        total_space: 10,
        available_space: 4,
    };
    let mut disks: Vec<DiskStats> = Vec::new();
    assert!(sources.disk_source(&mut disks, &vec![disk], at(1)));
    assert_eq!(sources.disks.load().value[0].stats.used, 6);
    let sensor = |temperature: f32| ComponentReading {
        label: "core".to_owned(),
        temperature: Some(Float32 { bits: temperature.to_bits() }),
        max: None,
        critical: None,
    };
    let mut temperatures: Vec<TemperatureStats> = Vec::new();
    assert!(sources.temperature_source(&mut temperatures, &vec![sensor(40.0)], at(1)));
    assert!(!sources.temperature_source(&mut temperatures, &vec![sensor(40.0)], at(2)));
    assert!(sources.temperature_source(&mut temperatures, &vec![sensor(41.0)], at(3)));
}

#[test]
fn failed_round_leaves_the_section_standing() {
    let mut sources = Sources::default();
    let mut log = ErrorLog::new("IO wait");
    assert!(sources.io_delay_source(Ok(f64_of(2.5)), &mut log, at(1)).moved);
    let outcome = sources.io_delay_source(Err("no file".to_owned()), &mut log, at(2));
    assert!(!outcome.moved);
    assert_eq!(outcome.say, Some("IO wait error: no file".to_owned()));
    assert_eq!(*sources.io_delay.load().value, f64_of(2.5));
    assert_eq!(sources.io_delay.status(at(2), 0).updated_at, Some(at(1)));
    let outcome = sources.io_delay_source(Err("no file".to_owned()), &mut log, at(3));
    assert_eq!(outcome.say, None);
    assert!(!sources.io_delay_source(Ok(f64_of(2.5)), &mut log, at(4)).moved);
    let outcome = sources.io_delay_source(Err("no file".to_owned()), &mut log, at(5));
    assert!(outcome.say.is_some());
}

#[test]
fn containers_round_hands_on_the_list() {
    let mut sources = Sources::default();
    let mut log = ErrorLog::new("Proxmox");
    assert!(sources.lxc_source(Ok(containers(&[(1, "a")])), &mut log, at(1)).moved);
    assert!(!sources.lxc_source(Ok(containers(&[(1, "a")])), &mut log, at(2)).moved);
    assert!(sources.lxc_source(Ok(containers(&[(1, "b")])), &mut log, at(3)).moved);
}

#[test]
fn machine_without_a_driver_shows_no_cards() {
    let mut sources = Sources::default();
    let mut log = ErrorLog::new("GPU stats");
    assert!(!sources.gpu_source(None, &mut log, at(7)).moved);
    assert_eq!(sources.gpus.status(at(7), 0).updated_at, Some(at(7)));
    assert!(sources.gpu_source(Some(Ok(gpu_with(&[1]))), &mut log, at(8)).moved);
    assert!(sources.gpu_source(None, &mut log, at(9)).moved);
    assert!(sources.gpus.load().value.is_empty());
}

#[test]
fn energy_is_kept_current_without_a_plug_only() {
    let mut sources = Sources::default();
    let mut log = ErrorLog::new("Energy usage");
    assert!(!sources.energy_source(true, None, &mut log, at(1)).moved);
    assert_eq!(sources.energy.status(at(1), 0).updated_at, None);
    assert!(sources.energy_source(true, Some(Ok(energy(5))), &mut log, at(2)).moved);
    assert_eq!(sources.energy.load().value.as_ref().as_ref().unwrap().current_power, Some(5));
    let outcome = sources.energy_source(true, Some(Err("off".to_owned())), &mut log, at(3));
    assert_eq!(outcome.say, Some("Energy usage error: off".to_owned()));
    assert!(sources.energy.load().value.is_some());
    assert_eq!(sources.energy.status(at(3), 0).updated_at, Some(at(2)));
    assert!(sources.energy_source(false, None, &mut log, at(4)).moved);
    assert!(sources.energy.load().value.is_none());
}

#[test]
fn pids_are_resolved_once_each() {
    let processes = vec![process(9), process(3), process(9)];
    assert_eq!(cgroup_pids(&processes, &gpu_with(&[3, 1, 12])), vec![1, 3, 9, 12]);
    assert_eq!(cgroup_pids(&vec![], &vec![]), Vec::<u32>::new());
}

#[test]
fn process_that_has_ended_is_not_worth_a_word() {
    let mut cgroups = HashMap::new();
    let mut log = ErrorLog::new("Process cgroup");
    assert_eq!(cgroup_answered(&mut cgroups, 1, Ok(in_lxc(5)), &mut log), None);
    let gone = LookupFailure { not_found: true, text: "no such file".to_owned() };
    assert_eq!(cgroup_answered(&mut cgroups, 2, Err(gone), &mut log), None);
    let refused = LookupFailure { not_found: false, text: "refused".to_owned() };
    assert_eq!(
        cgroup_answered(&mut cgroups, 3, Err(refused), &mut log),
        Some("Process cgroup error: refused".to_owned())
    );
    assert_eq!(cgroups, HashMap::from([(1, in_lxc(5))]));

    let mut sources = Sources::default();
    assert!(sources.cgroup_source(cgroups, at(1)));
    assert!(!sources.cgroup_source(HashMap::from([(1, in_lxc(5))]), at(2)));
    assert!(sources.cgroup_source(HashMap::from([(1, in_lxc(6))]), at(3)));
    assert!(sources.cgroup_source(HashMap::from([(2, in_lxc(6))]), at(4)));
    assert!(sources.cgroup_source(HashMap::new(), at(5)));
    assert!(!sources.cgroup_source(HashMap::new(), at(6)));
}

#[test]
fn container_name_is_joined_in() {
    let lxc = containers(&[(5, "web"), (5, "copy"), (7, "db")]);
    let known = ProcessCGroupInfo {
        docker_container_id: Some("id".to_owned()),
        lxc_name: Some("old".to_owned()),
        ..in_lxc(5)
    };
    let cgroups = HashMap::from([
        (1, known),
        (2, in_lxc(6)),
        (3, ProcessCGroupInfo { lxc_name: Some("kept".to_owned()), ..Default::default() }),
    ]);
    let info = cgroup_info_for(1, &cgroups, &lxc);
    assert!(info.lxc_name == Some("web".to_owned()) || info.lxc_name == Some("copy".to_owned()));
    assert_eq!(info.lxc_name.as_deref(), Some(lxc[0].name.as_str()));
    assert_eq!(info.docker_container_id, Some("id".to_owned()));
    assert_eq!(cgroup_info_for(2, &cgroups, &lxc).lxc_name, None);
    assert_eq!(cgroup_info_for(3, &cgroups, &lxc).lxc_name, Some("kept".to_owned()));
    assert_eq!(cgroup_info_for(4, &cgroups, &lxc), ProcessCGroupInfo::default());
}

#[test]
fn picture_shows_every_section() {
    let mut state = State::new();
    let mut log = ErrorLog::new("test");
    state.sources.processes.publish_owned(vec![process(1), process(2)], at(1));
    state.sources.gpu_source(Some(Ok(gpu_with(&[2, 1]))), &mut log, at(1));
    state.sources.lxc_source(Ok(containers(&[(5, "web")])), &mut log, at(1));
    state.sources.cgroup_source(HashMap::from([(1, in_lxc(5))]), at(1));
    state.sources.io_delay_source(Ok(f64_of(1.5)), &mut log, at(1));
    state.sources.energy_source(true, Some(Ok(energy(8))), &mut log, at(1));
    let snapshot = state.sources.snapshot();
    let statuses = state.sources.statuses(at(2), 0);
    let stats = publish(&snapshot, statuses, at(2));
    assert_eq!(stats.updated_at, Some(at(2)));
    assert_eq!(stats.sources, statuses);
    assert_eq!(stats.processes[0].cgroup_info.lxc_name, Some("web".to_owned()));
    assert_eq!(stats.processes[1].cgroup_info, ProcessCGroupInfo::default());
    assert_eq!(stats.gpus[0].name, "card");
    assert_eq!(stats.gpus[0].processes[0].cgroup_info, ProcessCGroupInfo::default());
    assert_eq!(stats.gpus[0].processes[1].cgroup_info.lxc_vm_id, Some(5));
    assert_eq!(stats.proxmox.io_delay, f64_of(1.5));
    assert_eq!(stats.proxmox.lxc[0].vm_id, 5);
    assert_eq!(stats.energy_usage.as_ref().as_ref().unwrap().current_power, Some(8));
}

#[test]
fn picture_is_published_when_something_changes() {
    let mut state = State::new();
    let mut assembler = Assembler::new();
    assert_eq!(assembler.assemble(&mut state, at(10)), Some(vec![]));
    assert_eq!(state.stats.updated_at, Some(at(10)));
    assert_eq!(assembler.assemble(&mut state, at(11)), None);
    assert_eq!(state.stats.updated_at, Some(at(10)));
    state.sources.io_delay.publish_owned(f64_of(1.0), at(12));
    assert_eq!(assembler.assemble(&mut state, at(12)), Some(vec![]));
    assert_eq!(state.stats.proxmox.io_delay, f64_of(1.0));
    // Answering again without news changes the status alone.
    state.sources.io_delay.publish_owned(f64_of(1.0), at(13));
    assert_eq!(assembler.assemble(&mut state, at(13)), Some(vec![]));
    assert_eq!(state.stats.sources.io_delay.updated_at, Some(at(13)));
    assert_eq!(assembler.assemble(&mut state, at(13)), None);
}

#[test]
fn silent_source_is_reported_while_it_is_watched() {
    let mut state = State::new();
    let mut assembler = Assembler::new();
    state.add_listener(at(100));
    assert_eq!(assembler.assemble(&mut state, at(100)), Some(vec![]));
    let lines = assembler.assemble(&mut state, at(111)).unwrap();
    // The disks are given fifteen seconds.
    assert_eq!(DISK_INTERVAL, 5_000);
    assert_eq!(lines.len(), 8);
    assert_eq!(
        lines[0],
        "base has stopped refreshing - that section of the page is out of date"
    );
    assert!(state.stats.sources.base.stale);
    assert!(!state.stats.sources.disks.stale);
    state.sources.io_delay.publish_owned(f64_of(1.0), at(112));
    assert_eq!(
        assembler.assemble(&mut state, at(112)),
        Some(vec!["io_delay is refreshing again".to_owned()])
    );
    // With nobody there every section reads as fresh again, and nothing is said.
    state.remove_listener();
    assert_eq!(assembler.assemble(&mut state, at(113)), Some(vec![]));
    assert!(!state.stats.sources.base.stale);
}

#[test]
fn stuck_source_costs_its_own_section() {
    let mut state = State::new();
    let mut assembler = Assembler::new();
    let mut log = ErrorLog::new("Proxmox");
    state.sources.lxc_source(Ok(containers(&[(5, "web")])), &mut log, at(1));
    assembler.assemble(&mut state, at(1));
    for second in 2..30 {
        state.sources.io_delay.publish_owned(f64_of(second as f64), at(second));
        assert!(assembler.assemble(&mut state, at(second)).is_some());
        assert_eq!(state.stats.proxmox.io_delay, f64_of(second as f64));
        assert_eq!(state.stats.proxmox.lxc[0].name, "web");
    }
}

#[test]
fn staleness_lines_name_the_sources_in_order() {
    let before = SourceStatuses::default();
    let mut after = SourceStatuses::default();
    after.energy.stale = true;
    after.processes.stale = true;
    let stopped = " has stopped refreshing - that section of the page is out of date";
    assert_eq!(
        report_staleness(&before, &after),
        vec![format!("processes{stopped}"), format!("energy{stopped}")]
    );
    assert_eq!(
        report_staleness(&after, &before),
        vec!["processes is refreshing again", "energy is refreshing again"]
    );
    assert!(report_staleness(&after, &after).is_empty());
}

#[test]
fn statuses_go_by_their_names() {
    let statuses = SourceStatuses::default();
    let names: Vec<&str> = statuses.named().iter().map(|(name, _)| *name).collect();
    assert_eq!(
        names,
        vec![
            "base",
            "processes",
            "disks",
            "temperatures",
            "io_delay",
            "lxc",
            "gpus",
            "cgroups",
            "energy"
        ]
    );
}

#[test]
fn picture_goes_out_no_more_often_than_the_floor() {
    let mut assembler = Assembler::new();
    assert_eq!(assembler.pause(5), 0);
    assembler.published_at(1_000);
    assert_eq!(MIN_PUBLISH_INTERVAL, 100_000_000);
    assert_eq!(assembler.pause(1_000), 100_000_000);
    assert_eq!(assembler.pause(40_001_000), 60_000_000);
    assert_eq!(assembler.pause(100_000_999), 1);
    assert_eq!(assembler.pause(100_001_000), 0);
    assert_eq!(assembler.pause(0), 100_000_000);
}

#[test]
fn heart_beats_once_a_second() {
    let mut assembler = Assembler::new();
    assert_eq!(HEARTBEAT, 1_000_000_000);
    assert_eq!(assembler.wait(500, 500, false), Wait::ForNews { nanos: HEARTBEAT });
    assert_eq!(assembler.wait(500, 1_500, false), Wait::ForNews { nanos: HEARTBEAT - 1_000 });
    assert_eq!(assembler.wait(500, 500 + HEARTBEAT - 1, false), Wait::ForNews { nanos: 1 });
    assert_eq!(assembler.wait(500, 500 + HEARTBEAT, false), Wait::Over);
    assert_eq!(assembler.wait(500, 501, true), Wait::Over);
    assert_eq!(assembler.wait(500, 0, false), Wait::ForNews { nanos: HEARTBEAT });
    // A source that says something right after the picture went out waits for the floor.
    assembler.published_at(400);
    assert_eq!(assembler.wait(500, 600, true), Wait::ForFloor { nanos: 99_999_800 });
    assert_eq!(assembler.wait(500, 400 + MIN_PUBLISH_INTERVAL, true), Wait::Over);
    assert_eq!(assembler.wait(500, 500 + HEARTBEAT, false), Wait::Over);
}

#[test]
fn snapshots_are_the_same_while_nothing_moves() {
    let mut sources = Sources::default();
    let mut log = ErrorLog::new("test");
    let first = sources.snapshot();
    assert!(first.is_same(&sources.snapshot()));
    // Answers that say nothing new.
    sources.io_delay_source(Ok(f64_of(0.0)), &mut log, at(1));
    sources.cgroup_source(HashMap::new(), at(1));
    sources.gpu_source(None, &mut log, at(1));
    sources.lxc_source(Err("stuck".to_owned()), &mut log, at(1));
    assert!(first.is_same(&sources.snapshot()));
    // What cannot be compared always moves.
    sources.energy_source(false, None, &mut log, at(2));
    assert!(!first.is_same(&sources.snapshot()));
    let second = sources.snapshot();
    sources.lxc_source(Ok(containers(&[(1, "a")])), &mut log, at(3));
    assert!(!second.is_same(&sources.snapshot()));
}

#[test]
fn sources_park_again_when_the_last_has_gone() {
    let mut state = State::new();
    for _ in 0..3 {
        state.add_listener(at(1));
        assert!(!state.wait_for_listeners());
    }
    for left in (0..3).rev() {
        state.remove_listener();
        assert_eq!(state.wait_for_listeners(), left == 0);
    }
}
