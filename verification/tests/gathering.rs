use std::collections::HashMap;
use std::path::Path;

use homemon::get_stats::{
    fill_disks, fill_processes, fill_temperatures, ComponentReading, CpuReading, DiskReading,
    ProcessReading, SystemReading,
};
use homemon::io_wait::{read_columns, reads_as_number, IoDelay, IoWait};
use homemon::numbers::{Float32, Float64};
use homemon::nvidia::{
    fetch_gpu_stats, fill_process_names, gpu_pids, GpuProcessReading, GpuReading, UsedGpuMemory,
};
use homemon::paths::is_same_path;
use homemon::proxmox::{get_lxc, LxcItem};
use homemon::structures::{
    BaseSystemStats, CpuStats, DiskKind, DiskStats, GpuProcessStats, GpuStats, ProcessCGroupInfo,
    ProcessStats, ProxmoxLxcStats, ProxmoxNodeStats, Section, StorageStats, SystemStats,
    TemperatureStats, Usage,
};
use homemon::text::{decimal_text, find_bytes, read_unsigned};

fn f32_of(value: f32) -> Float32 {
    Float32 { bits: value.to_bits() }
}

fn f64_of(value: f64) -> Float64 {
    Float64 { bits: value.to_bits() }
}

fn process(pid: u32, cpu_usage: f32) -> ProcessReading {
    ProcessReading {
        pid,
        name: format!("process {pid}").into_bytes(),
        cpu_usage: f32_of(cpu_usage),
        memory: pid as u64 * 10,
    }
}

fn system(processes: Vec<ProcessReading>) -> SystemReading {
    SystemReading {
        global_cpu_usage: f32_of(12.5),
        cpus: vec![
            CpuReading {
                name: "cpu0".to_owned(),
                usage: f32_of(10.0),
                vendor_id: "vendor".to_owned(),
                brand: "brand".to_owned(),
                frequency: 3000,
            },
            CpuReading {
                name: "cpu1".to_owned(),
                usage: f32_of(15.0),
                vendor_id: "vendor".to_owned(),
                brand: "brand".to_owned(),
                frequency: 3100,
            },
        ],
        total_memory: 1000,
        used_memory: 400,
        available_memory: 550,
        total_swap: 100,
        used_swap: 1,
        free_swap: 99,
        uptime: 77,
        processes,
    }
}

fn disk(total_space: u64, available_space: u64) -> DiskReading {
    DiskReading {
        kind: DiskKind::Ssd,
        name: b"sda1".to_vec(),
        file_system: b"ext4".to_vec(),
        mount_point: b"/".to_vec(),
        is_removable: false,
        is_read_only: true,
        total_space,
        available_space,
    }
}

#[test]
fn floating_point_equality_by_bits() {
    let values = [0.0f32, -0.0, 1.0, -1.0, 1.5, f32::INFINITY, f32::NEG_INFINITY, f32::NAN, 1e-40];
    for a in values {
        for b in values {
            assert_eq!(f32_of(a).equal(f32_of(b)), a == b, "{a} and {b}");
        }
    }
    let values = [0.0f64, -0.0, 1.0, -1.0, 1.5, f64::INFINITY, f64::NEG_INFINITY, f64::NAN, 1e-310];
    for a in values {
        for b in values {
            assert_eq!(f64_of(a).equal(f64_of(b)), a == b, "{a} and {b}");
        }
    }
}

#[test]
fn floating_point_order_by_rank() {
    let values = [0.0f32, -0.0, 1.0, -1.0, 1.5, -2.5, f32::INFINITY, f32::NEG_INFINITY, 1e-40];
    for a in values {
        for b in values {
            assert_eq!(f32_of(a).signed_rank() < f32_of(b).signed_rank(), a < b, "{a} and {b}");
        }
    }
}

#[test]
fn small_whole_numbers_as_floating_point() {
    for n in 0..=255u8 {
        assert_eq!(Float32::from_whole(n).bits, (n as f32).to_bits());
    }
    assert_eq!(Float32::zero().bits, 0.0f32.to_bits());
    assert_eq!(Float64::zero().bits, 0.0f64.to_bits());
    assert!(f32_of(f32::NAN).nan());
    assert!(!f32_of(f32::INFINITY).nan());
}

#[test]
fn numbers_are_written_and_read() {
    assert_eq!(decimal_text(0), "0");
    assert_eq!(decimal_text(1020), "1020");
    assert_eq!(decimal_text(u64::MAX), "18446744073709551615");
    assert_eq!(read_unsigned(b"18446744073709551615", u64::MAX), Some(u64::MAX));
    assert_eq!(read_unsigned(b"18446744073709551616", u64::MAX), None);
    assert_eq!(read_unsigned(b"007", 9), Some(7));
    assert_eq!(read_unsigned(b"+", 9), None);
    assert_eq!(read_unsigned(b"1 ", 9), None);
}

#[test]
fn bytes_are_found_where_they_first_stand() {
    assert_eq!(find_bytes(b"aabaab", b"ab"), Some(1));
    assert_eq!(find_bytes(b"aabaab", b""), Some(0));
    assert_eq!(find_bytes(b"aab", b"aaba"), None);
    assert_eq!(find_bytes(b"", b"a"), None);
}

#[test]
fn machine_shows_what_was_read() {
    let mut base = BaseSystemStats::default();
    base.cpus.push(CpuStats::default());
    base.cpus.push(CpuStats::default());
    base.cpus.push(CpuStats::default());
    base.init_with_system(&system(vec![]));
    assert_eq!(base.cpu_usage, f32_of(12.5));
    assert_eq!(base.cpus.len(), 2);
    assert_eq!(base.cpus[1].name, "cpu1");
    assert_eq!(base.cpus[1].frequency, 3100);
    assert_eq!(
        base.ram,
        StorageStats {
            usage: Usage { part: 400, whole: 1000, percent: false },
            total: 1000,
            used: 400,
            available: 550,
        }
    );
    assert_eq!(
        base.swap,
        StorageStats {
            usage: Usage { part: 1, whole: 100, percent: false },
            total: 100,
            used: 1,
            available: 99,
        }
    );
    assert_eq!(base.uptime, 77);
    assert!(base.is_same(&base.clone()));
}

#[test]
fn busiest_processes_come_first_and_ten_of_them() {
    let usages = [5.0, 80.0, 0.0, 33.0, 12.0, 99.0, 1.0, 2.0, 3.0, 4.0, 6.0, 7.0];
    let readings = usages.iter().enumerate().map(|(i, u)| process(i as u32, *u)).collect();
    let mut processes: Vec<ProcessStats> = Vec::new();
    fill_processes(&mut processes, &system(readings));
    let pids: Vec<u32> = processes.iter().map(|p| p.pid).collect();
    assert_eq!(pids, vec![5, 1, 3, 4, 11, 10, 0, 9, 8, 7]);
    assert_eq!(processes[0].name, "process 5");
    assert_eq!(processes[0].memory_used, 50);
    assert_eq!(processes[0].cgroup_info, ProcessCGroupInfo::default());
    // A process that is not listed is no busier than any that is.
    assert!(processes.iter().all(|p| p.cpu_usage.signed_rank() >= f32_of(1.0).signed_rank()));
}

#[test]
fn few_processes_are_all_listed() {
    let mut processes = vec![ProcessStats::default(); 7];
    fill_processes(&mut processes, &system(vec![process(1, 0.0), process(2, 1.0)]));
    let pids: Vec<u32> = processes.iter().map(|p| p.pid).collect();
    assert_eq!(pids, vec![2, 1]);
}

#[test]
fn disk_in_use_is_what_is_not_available() {
    let mut stats: Vec<DiskStats> = Vec::new();
    fill_disks(&mut stats, &vec![disk(100, 30), disk(0, 0)]);
    assert_eq!(stats.len(), 2);
    assert_eq!(stats[0].kind, DiskKind::Ssd);
    assert_eq!(stats[0].name, "sda1");
    assert_eq!(stats[0].file_system, "ext4");
    assert_eq!(stats[0].mount_point, "/");
    assert!(!stats[0].is_removable && stats[0].is_read_only);
    assert_eq!(
        stats[0].stats,
        StorageStats {
            usage: Usage { part: 70, whole: 100, percent: false },
            total: 100,
            used: 70,
            available: 30,
        }
    );
    assert!(stats[0].is_same(&stats[0].clone()));
    // A part of nothing is not a number, and equals nothing.
    assert!(!stats[1].is_same(&stats[1].clone()));
}

#[test]
fn temperatures_show_what_was_read() {
    let mut stats: Vec<TemperatureStats> = Vec::new();
    let reading = ComponentReading {
        label: "core".to_owned(),
        temperature: Some(f32_of(41.5)),
        max: None,
        critical: Some(f32_of(100.0)),
    };
    fill_temperatures(&mut stats, &vec![reading]);
    assert_eq!(
        stats,
        vec![TemperatureStats {
            label: "core".to_owned(),
            current: Some(f32_of(41.5)),
            max: None,
            critical: Some(f32_of(100.0)),
        }]
    );
}

#[test]
fn picture_takes_readings_directly() {
    let mut stats = SystemStats::default();
    stats.update_system(&system(vec![process(4, 1.0)]));
    stats.update_disks(&vec![disk(10, 4)]);
    stats.update_components(&vec![]);
    assert_eq!(stats.base.uptime, 77);
    assert_eq!(stats.processes[0].pid, 4);
    assert_eq!(stats.disks[0].stats.used, 6);
    assert!(stats.temperatures.is_empty());
    assert_eq!(stats.updated_at, None);
}

fn lxc_item(vmid: u32) -> LxcItem {
    LxcItem {
        cpu: 3,
        disk: 25,
        maxdisk: 100,
        maxmem: 64,
        maxswap: 0,
        mem: 16,
        name: format!("ct{vmid}"),
        pid: vmid + 1000,
        swap: 0,
        uptime: 5,
        vmid,
    }
}

#[test]
fn containers_are_listed_by_number() {
    let lxc = get_lxc(vec![lxc_item(104), lxc_item(100), lxc_item(102)]);
    let ids: Vec<u32> = lxc.iter().map(|l| l.vm_id).collect();
    assert_eq!(ids, vec![100, 102, 104]);
    assert_eq!(lxc[0].name, "ct100");
    assert_eq!(lxc[0].pid, Some(1100));
    assert_eq!(lxc[0].base.cpu_usage, f32_of(3.0));
    assert_eq!(lxc[0].base.ram.usage, Usage { part: 16, whole: 64, percent: false });
    assert_eq!(lxc[0].base.ram.available, 48);
    assert_eq!(lxc[0].base.swap, StorageStats::default());
    assert_eq!(lxc[0].disk.name, "LXC Root Disk");
    assert_eq!(lxc[0].disk.file_system, "unknown");
    assert_eq!(lxc[0].disk.mount_point, "/");
    assert_eq!(lxc[0].disk.kind, DiskKind::Unknown(0));
    assert_eq!(lxc[0].disk.stats.available, 75);
    assert!(lxc[0].is_same(&lxc[0]));
    assert!(!lxc[0].is_same(&lxc[1]));
}

#[test]
fn node_begins_without_io_delay() {
    let node = ProxmoxNodeStats::get(vec![lxc_item(7)]);
    assert_eq!(node.io_delay, f64_of(0.0));
    assert_eq!(node.lxc.len(), 1);
}

#[test]
fn container_that_uses_more_than_it_has_is_not_well_formed() {
    assert!(lxc_item(1).is_wf());
    assert!(!LxcItem { mem: 65, ..lxc_item(1) }.is_wf());
    assert!(!LxcItem { swap: 1, ..lxc_item(1) }.is_wf());
    assert!(!LxcItem { disk: 101, ..lxc_item(1) }.is_wf());
}

fn gpu(
    compute: Option<Vec<GpuProcessReading>>,
    graphics: Option<Vec<GpuProcessReading>>,
) -> GpuReading {
    GpuReading {
        name: "card".to_owned(),
        temperature: 60,
        utilization: 42,
        power_usage_milliwatts: 150_500,
        memory_total: 8000,
        memory_used: 2000,
        memory_free: 5900,
        compute_processes: compute,
        graphics_processes: graphics,
    }
}

fn on_gpu(pid: u32, used: u64) -> GpuProcessReading {
    GpuProcessReading { pid, used_gpu_memory: UsedGpuMemory::Used(used) }
}

#[test]
fn cards_show_what_computes_before_what_draws() {
    let unknown =
        GpuProcessReading { pid: 9, used_gpu_memory: UsedGpuMemory::Unavailable };
    let gpus = fetch_gpu_stats(vec![
        gpu(Some(vec![on_gpu(5, 100)]), Some(vec![on_gpu(3, 50), unknown])),
        gpu(None, Some(vec![on_gpu(5, 1)])),
        gpu(None, None),
    ]);
    assert_eq!(gpus.len(), 3);
    assert_eq!(gpus[0].power_usage_milliwatts, 150_500);
    assert_eq!(
        gpus[0].memory,
        StorageStats {
            usage: Usage { part: 2000, whole: 8000, percent: true },
            total: 8000,
            used: 2000,
            available: 5900,
        }
    );
    let pids: Vec<u32> = gpus[0].processes.iter().map(|p| p.pid).collect();
    assert_eq!(pids, vec![5, 3, 9]);
    assert_eq!(gpus[0].processes[0].memory_used, Some(100));
    assert_eq!(gpus[0].processes[2].memory_used, None);
    assert_eq!(gpus[0].processes[0].process_name, "");
    assert!(gpus[2].processes.is_empty());
    assert_eq!(gpu_pids(&gpus), vec![5, 3, 9, 5]);
    assert!(gpus[0].is_same(&gpus[0].clone()));
}

#[test]
fn processes_on_cards_are_named() {
    let mut gpus = fetch_gpu_stats(vec![gpu(Some(vec![on_gpu(5, 1), on_gpu(6, 1)]), None)]);
    let names = HashMap::from([(5, b"python".to_vec())]);
    fill_process_names(&mut gpus, &names);
    assert_eq!(gpus[0].processes[0].process_name, "python");
    assert_eq!(gpus[0].processes[1].process_name, "Unknown");
    assert_eq!(gpus[0].name, "card");
}

#[test]
fn names_that_are_no_text_are_replaced() {
    let mut processes: Vec<ProcessStats> = Vec::new();
    let odd = ProcessReading { name: b"w\xffb".to_vec(), ..process(1, 0.0) };
    fill_processes(&mut processes, &system(vec![odd]));
    assert_eq!(processes[0].name, "w\u{fffd}b");

    let mut stats: Vec<DiskStats> = Vec::new();
    let odd = DiskReading {
        name: b"\xc3(".to_vec(),
        file_system: b"\xe2\x82".to_vec(),
        mount_point: b"/\xfe".to_vec(),
        ..disk(10, 4)
    };
    fill_disks(&mut stats, &vec![odd]);
    assert_eq!(stats[0].name, "\u{fffd}(");
    assert_eq!(stats[0].file_system, "\u{fffd}");
    assert_eq!(stats[0].mount_point, "/\u{fffd}");

    let mut gpus = fetch_gpu_stats(vec![gpu(Some(vec![on_gpu(5, 1)]), None)]);
    fill_process_names(&mut gpus, &HashMap::from([(5, b"\xff".to_vec())]));
    assert_eq!(gpus[0].processes[0].process_name, "\u{fffd}");
}

fn mounted(mount_point: &str) -> DiskReading {
    DiskReading { mount_point: mount_point.as_bytes().to_vec(), ..disk(10, 4) }
}

#[test]
fn mount_point_keeps_its_spelling_while_the_path_is_the_same() {
    let mut stats: Vec<DiskStats> = Vec::new();
    fill_disks(&mut stats, &vec![mounted("/mnt/"), mounted("a//b"), mounted("/c")]);
    assert_eq!(stats[0].mount_point, "/mnt/");
    fill_disks(&mut stats, &vec![mounted("/mnt"), mounted("a/./b/"), mounted("/d")]);
    assert_eq!(stats[0].mount_point, "/mnt/");
    assert_eq!(stats[1].mount_point, "a//b");
    assert_eq!(stats[2].mount_point, "/d");
    // A disk that is new has nothing to keep, and takes what was read.
    fill_disks(&mut stats, &vec![mounted("/mnt")]);
    fill_disks(&mut stats, &vec![mounted("/mnt"), mounted("a/./b/")]);
    assert_eq!(stats[0].mount_point, "/mnt/");
    assert_eq!(stats[1].mount_point, "a/./b/");
}

#[test]
fn paths_are_held_against_each_other_part_by_part() {
    let spellings: [&str; 14] = [
        "", "/", "//", ".", "./", "a", "./a", "a/", "a/.", "/a", "//a/", "/./a", "a/..", "../a",
    ];
    for one in spellings {
        for other in spellings {
            assert_eq!(
                is_same_path(one.as_bytes(), other.as_bytes()),
                Path::new(one) == Path::new(other),
                "{one} and {other}"
            );
        }
    }
    assert!(is_same_path(b"/\xff//b", b"/\xff/b"));
    assert!(!is_same_path(b"/\xff", b"/\xfe"));
}

#[test]
fn usages_are_equal_as_numbers() {
    let part = |part: u64, whole: u64| Usage { part, whole, percent: false };
    let percent = |part: u64, whole: u64| Usage { part, whole, percent: true };
    assert_eq!(part(1, 2), part(2, 4));
    assert_ne!(part(1, 2), part(2, 3));
    assert_eq!(part(0, 5), part(0, 7));
    assert_eq!(percent(1, 200), part(1, 2));
    assert_eq!(part(50, 1), percent(1, 2));
    assert_ne!(percent(1, 2), part(1, 2));
    assert_eq!(part(3, 0), percent(7, 0));
    assert_ne!(part(3, 0), part(3, 1));
    assert_ne!(part(0, 0), part(0, 0));
    assert_eq!(part(u64::MAX, u64::MAX), part(1, 1));
}

#[test]
fn floating_point_numbers_are_equal_as_numbers() {
    assert_eq!(f32_of(0.0), f32_of(-0.0));
    assert_ne!(f32_of(f32::NAN), f32_of(f32::NAN));
    assert_eq!(f64_of(0.0), f64_of(-0.0));
    assert_ne!(f64_of(f64::NAN), f64_of(f64::NAN));
    assert_ne!(f64_of(1.0), f64_of(2.0));
    let sensor = |current: f32| TemperatureStats {
        label: "core".to_owned(),
        current: Some(f32_of(current)),
        max: None,
        critical: None,
    };
    assert_eq!(sensor(0.0), sensor(-0.0));
    assert_ne!(sensor(f32::NAN), sensor(f32::NAN));
}

#[test]
fn what_is_blank_and_what_is_copied() {
    let lxc = ProxmoxLxcStats::default();
    assert_eq!((lxc.vm_id, lxc.pid), (0, None));
    assert_eq!(lxc.name, "");
    assert_eq!(lxc.disk, DiskStats::default());
    let node = ProxmoxNodeStats::default();
    assert!(node.lxc.is_empty());
    assert_eq!(node.io_delay, f64_of(0.0));
    let on_card = GpuProcessStats::default();
    assert_eq!((on_card.pid, on_card.memory_used), (0, None));
    assert_eq!(on_card.process_name, "");
    let card = GpuStats::default();
    assert_eq!((card.temperature, card.utilization), (0, 0));
    assert!(card.processes.is_empty());

    let node = ProxmoxNodeStats::get(vec![lxc_item(7), lxc_item(3)]);
    assert_eq!(node.clone(), node);
    assert_eq!(node.lxc[0].clone(), node.lxc[0]);
    let mut stats = SystemStats::default();
    stats.update_system(&system(vec![process(4, 1.0)]));
    let copy = stats.clone();
    assert_eq!(copy.base, stats.base);
    assert_eq!(copy.processes, stats.processes);
}

fn columns(text: &str) -> Vec<String> {
    let chars: Vec<char> = text.chars().collect();
    read_columns(&chars).iter().map(|word| word.iter().collect()).collect()
}

#[test]
fn columns_are_the_numbers_after_the_first_word() {
    assert_eq!(columns("cpu  10 20 30 40 50\ncpu0 1 2"), ["10", "20", "30", "40", "50", "1", "2"]);
    assert!(columns("").is_empty());
    assert!(columns("12").is_empty());
    assert_eq!(columns("cpu\u{a0}1\u{3000}2\tx3 3x"), ["1", "2"]);
    assert_eq!(columns("cpu 99999999999999999999 +5 1.5 inf"), [
        "99999999999999999999",
        "+5",
        "1.5",
        "inf",
    ]);
}

#[test]
fn words_are_numbers_where_floating_point_reads_them() {
    let words = [
        "", "+", "-", "0", "007", "+5", "-1", "--1", "+-1", "1.5", "1.", ".5", ".", "+.", "-.5",
        "1.5.", "1e5", "1E5", "1e+5", "1e-05", "1e", "1e+", "e5", ".e5", "1.e5", ".5e1", "1e5.0",
        "1e5e5", "inf", "+inf", "-INF", "Infinity", "infinit", "infinityy", "nan", "NaN", "-nan",
        "nano", "in", "0x10", "1_000", "1f", " 1", "\u{661}", "99999999999999999999", "1e999",
    ];
    for word in words {
        let chars: Vec<char> = word.chars().collect();
        assert_eq!(reads_as_number(&chars), word.parse::<f64>().is_ok(), "{word}");
    }
}

fn part(waited: i64, elapsed: u64) -> IoDelay {
    IoDelay::Part { waited, elapsed }
}

fn words(columns: [&str; 5]) -> Vec<Vec<char>> {
    columns.iter().map(|word| word.chars().collect()).collect()
}

#[test]
fn io_delay_is_the_waiting_part_of_the_time() {
    let mut io_wait = IoWait::new();
    let first = b"cpu 100 0 100 800 50 0 0\n".to_vec();
    assert_eq!(io_wait.update(first), IoDelay::Nothing);
    let second = b"cpu 110 0 110 850 80 0 0\n".to_vec();
    assert_eq!(io_wait.update(second), part(30, 100));
    // Counters that went back.
    let third = b"cpu 120 0 120 1000 70 0 0\n".to_vec();
    assert_eq!(io_wait.update(third), part(-10, 160));
    let same = b"cpu 120 0 120 1000 70 0 0\n".to_vec();
    assert_eq!(io_wait.update(same), IoDelay::Nothing);
}

#[test]
fn signed_counters_are_numbers_too() {
    let mut io_wait = IoWait::new();
    io_wait.update(b"cpu +5 -1 x 10 10 +10".to_vec());
    assert_eq!(io_wait.update(b"cpu +5 -1 x 10 20 +20".to_vec()), part(10, 20));
    // What comes to nothing is nothing to measure from.
    io_wait.update(b"cpu 5 -5 0 0 0".to_vec());
    assert_eq!(io_wait.update(b"cpu 5 5 5 5 5".to_vec()), IoDelay::Nothing);
}

#[test]
fn columns_that_take_floating_point_are_handed_out() {
    let mut io_wait = IoWait::new();
    io_wait.update(b"cpu 1 1 1 1 1".to_vec());
    assert_eq!(
        io_wait.update(b"cpu 1 1.5 1 inf 1".to_vec()),
        IoDelay::Columns {
            before: words(["1", "1", "1", "1", "1"]),
            now: words(["1", "1.5", "1", "inf", "1"]),
        }
    );
    assert_eq!(
        io_wait.update(b"cpu 1 1 1 1 9".to_vec()),
        IoDelay::Columns {
            before: words(["1", "1.5", "1", "inf", "1"]),
            now: words(["1", "1", "1", "1", "9"]),
        }
    );
    assert_eq!(io_wait.update(b"cpu 2 1 1 1 10".to_vec()), part(1, 2));
}

#[test]
fn whole_numbers_are_exact_up_to_a_limit() {
    let limit = 1u64 << 53;
    let line = |first: u64| format!("cpu {first} 1 1 1 1").into_bytes();
    let mut io_wait = IoWait::new();
    io_wait.update(line(1));
    assert_eq!(io_wait.update(line(limit - 4)), part(0, limit - 5));
    let over = (limit - 3).to_string();
    assert_eq!(
        io_wait.update(line(limit - 3)),
        IoDelay::Columns {
            before: words([&(limit - 4).to_string(), "1", "1", "1", "1"]),
            now: words([&over, "1", "1", "1", "1"]),
        }
    );
    // A counter of any length is taken.
    let long = "cpu 99999999999999999999 1 1 1 1";
    assert_eq!(
        io_wait.update(long.as_bytes().to_vec()),
        IoDelay::Columns {
            before: words([&over, "1", "1", "1", "1"]),
            now: words(["99999999999999999999", "1", "1", "1", "1"]),
        }
    );
}

#[test]
fn too_few_columns_change_nothing() {
    let mut io_wait = IoWait::new();
    io_wait.update(b"cpu 1 1 1 1 6".to_vec());
    assert_eq!(io_wait.update(b"cpu 1 1 1 1".to_vec()), IoDelay::Nothing);
    assert_eq!(io_wait.update(b"cpu 2 2 2 2 12".to_vec()), part(6, 10));
}

fn padded(text: &str) -> Vec<u8> {
    let mut buffer = text.as_bytes().to_vec();
    buffer.resize(224, b' ');
    buffer
}

#[test]
fn only_the_line_about_all_processors_counts() {
    let mut io_wait = IoWait::default();
    let first = "cpu  100 0 100 700 100 0 0 0 0 0\ncpu0 100 0 100 700 100 0 0 0 0 0\n";
    let second = "cpu  110 0 110 755 125 0 0 0 0 0\ncpu0 110 0 110 755 125 0 0 0 0 0\n";
    assert_eq!(io_wait.update(padded(first)), IoDelay::Nothing);
    assert_eq!(io_wait.update(padded(second)), part(25, 100));
}

#[test]
fn number_cut_off_by_the_end_of_the_buffer_does_not_count() {
    let line = |cpu: &str| {
        let mut buffer = format!("{cpu}\ncpu0 ").into_bytes();
        buffer.resize(220, b'1');
        buffer.extend(b" 987");
        assert_eq!(buffer.len(), 224);
        buffer
    };
    let mut io_wait = IoWait::new();
    io_wait.update(line("cpu 10 10 10 10 10"));
    assert_eq!(io_wait.update(line("cpu 20 20 20 20 30")), part(20, 60));
}

#[test]
fn too_few_columns_say_nothing_however_large_they_are() {
    let mut io_wait = IoWait::new();
    io_wait.update(b"cpu 1 1 1 1 6".to_vec());
    assert_eq!(
        io_wait.update(b"cpu 1 99999999999999999999 1 1".to_vec()),
        IoDelay::Nothing
    );
    assert_eq!(io_wait.update(b"cpu 1 1 1\ncpu0 1 1 1 1 1 1".to_vec()), IoDelay::Nothing);
    // The next good look measures from the last good one.
    assert_eq!(io_wait.update(b"cpu 2 2 2 2 12".to_vec()), part(6, 10));
}

#[test]
fn waiting_is_a_part_of_the_time() {
    let mut io_wait = IoWait::new();
    io_wait.update(b"cpu 5 5 5 5 5 5".to_vec());
    // Nothing grew.
    assert_eq!(io_wait.update(b"cpu 5 5 5 5 5 5".to_vec()), IoDelay::Nothing);
    // Only the waiting grew.
    assert_eq!(io_wait.update(b"cpu 5 5 5 5 9 5".to_vec()), part(4, 4));
    // Everything but the waiting grew.
    assert_eq!(io_wait.update(b"cpu 6 6 6 6 9 6".to_vec()), part(0, 5));
}
