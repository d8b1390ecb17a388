//! The sections of the page and what they are made of.

use std::collections::HashMap;
use std::sync::Arc;

use vstd::prelude::*;
use vstd::std_specs::cmp::PartialEqSpecImpl;

use crate::clock::Timestamp;
use crate::numbers::{Float32, Float64};
use crate::slots::share;

verus! {

/// A value that a source publishes, and whether one gather of it differs from the last.
pub trait Section: Sized {
    /// The two are equal, part by part.
    spec fn same_as(&self, other: &Self) -> bool;

    /// Whether the two are equal.
    fn is_same(&self, other: &Self) -> (yes: bool)
        ensures
            yes == self.same_as(other),
    ;
}

impl<T: Section> Section for Vec<T> {
    open spec fn same_as(&self, other: &Self) -> bool {
        &&& self@.len() == other@.len()
        &&& forall|i: int| 0 <= i < self@.len() ==> (#[trigger] self@[i]).same_as(&other@[i])
    }

    fn is_same(&self, other: &Self) -> (yes: bool) {
        if self.len() != other.len() {
            return false;
        }
        let mut i: usize = 0;
        while i < self.len()
            invariant
                i <= self@.len(),
                self@.len() == other@.len(),
                forall|j: int| 0 <= j < i ==> (#[trigger] self@[j]).same_as(&other@[j]),
            decreases self@.len() - i,
        {
            if !self[i].is_same(&other[i]) {
                return false;
            }
            i += 1;
        }
        true
    }
}

/// The text of an optional string.
pub open spec fn optional_text(text: Option<String>) -> Option<Seq<char>> {
    match text {
        Some(s) => Some(s@),
        None => None,
    }
}

fn same_optional_text(one: &Option<String>, other: &Option<String>) -> (yes: bool)
    ensures
        yes == (optional_text(*one) == optional_text(*other)),
{
    match (one, other) {
        (Some(one), Some(other)) => *one == *other,
        (None, None) => true,
        _ => false,
    }
}

fn copy_of_optional_text(text: &Option<String>) -> (copy: Option<String>)
    ensures
        copy == *text,
{
    match text {
        Some(s) => Some(s.clone()),
        None => None,
    }
}

/// How much of something is in use: `part` of `whole`, as a fraction or as a percentage.
///
/// The page's floating-point figure is formed from this at the edge. A fraction of nothing,
/// `part` and `whole` both zero, is not a number there, and equals nothing.
#[derive(Debug, Clone, Copy)]
pub struct Usage {
    pub part: u64,
    pub whole: u64,
    pub percent: bool,
}

impl Usage {
    /// Zero, as a fraction.
    pub open spec fn nothing() -> Self {
        Usage { part: 0, whole: 1, percent: false }
    }

    /// The usage is a number, and not the fraction of nothing.
    pub open spec fn is_number(self) -> bool {
        self.part != 0 || self.whole != 0
    }

    /// How many times the fraction is taken.
    pub open spec fn times(self) -> int {
        if self.percent {
            100
        } else {
            1
        }
    }

    /// Two usages are the same number. Something of nothing is more than any number, and what is
    /// not a number equals nothing.
    pub open spec fn equals(self, other: Self) -> bool {
        &&& self.is_number()
        &&& other.is_number()
        &&& if self.whole == 0 || other.whole == 0 {
            self.whole == other.whole
        } else {
            (self.part * other.whole) * self.times() == (other.part * self.whole) * other.times()
        }
    }

    /// Whether two usages are the same number.
    pub fn equal(self, other: Self) -> (yes: bool)
        ensures
            yes == self.equals(other),
    {
        if (self.part == 0 && self.whole == 0) || (other.part == 0 && other.whole == 0) {
            return false;
        }
        if self.whole == 0 || other.whole == 0 {
            return self.whole == other.whole;
        }
        let mine: u128 = product(self.part, other.whole);
        let theirs: u128 = product(other.part, self.whole);
        if self.percent == other.percent {
            mine == theirs
        } else if self.percent {
            theirs % 100 == 0 && theirs / 100 == mine
        } else {
            mine % 100 == 0 && mine / 100 == theirs
        }
    }
}

fn product(one: u64, other: u64) -> (product: u128)
    ensures
        product == one * other,
{
    assert(one * other <= 0xffff_ffff_ffff_ffff * 0xffff_ffff_ffff_ffff) by (nonlinear_arith)
        requires
            one <= 0xffff_ffff_ffff_ffff,
            other <= 0xffff_ffff_ffff_ffff,
    ;
    one as u128 * other as u128
}

impl PartialEq for Usage {
    fn eq(&self, other: &Self) -> (yes: bool) {
        self.equal(*other)
    }
}

impl PartialEqSpecImpl for Usage {
    open spec fn obeys_eq_spec() -> bool {
        true
    }

    open spec fn eq_spec(&self, other: &Self) -> bool {
        self.equals(*other)
    }
}

/// Memory, swap or a disk.
#[derive(Debug, Clone, Copy, PartialEq)]
pub struct StorageStats {
    pub usage: Usage,
    pub total: u64,
    pub used: u64,
    pub available: u64,
}

impl StorageStats {
    /// Nothing in use of nothing.
    pub open spec fn empty() -> Self {
        StorageStats { usage: Usage::nothing(), total: 0, used: 0, available: 0 }
    }
}

impl Default for StorageStats {
    fn default() -> (stats: Self)
        ensures
            stats == StorageStats::empty(),
    {
        StorageStats {
            usage: Usage { part: 0, whole: 1, percent: false },
            total: 0,
            used: 0,
            available: 0,
        }
    }
}

impl Section for StorageStats {
    open spec fn same_as(&self, other: &Self) -> bool {
        &&& self.usage.equals(other.usage)
        &&& self.total == other.total
        &&& self.used == other.used
        &&& self.available == other.available
    }

    fn is_same(&self, other: &Self) -> (yes: bool) {
        self.usage.equal(other.usage) && self.total == other.total && self.used == other.used
            && self.available == other.available
    }
}

/// One processor core.
#[derive(Debug, PartialEq)]
pub struct CpuStats {
    pub name: String,
    pub usage: Float32,
    pub vendor_id: String,
    pub brand: String,
    pub frequency: u64,
}

impl Clone for CpuStats {
    fn clone(&self) -> (copy: Self)
        ensures
            copy == *self,
    {
        CpuStats {
            name: self.name.clone(),
            usage: self.usage,
            vendor_id: self.vendor_id.clone(),
            brand: self.brand.clone(),
            frequency: self.frequency,
        }
    }
}

impl Section for CpuStats {
    open spec fn same_as(&self, other: &Self) -> bool {
        &&& self.name@ == other.name@
        &&& self.usage.equals(other.usage)
        &&& self.vendor_id@ == other.vendor_id@
        &&& self.brand@ == other.brand@
        &&& self.frequency == other.frequency
    }

    fn is_same(&self, other: &Self) -> (yes: bool) {
        self.name == other.name && self.usage.equal(other.usage) && self.vendor_id
            == other.vendor_id && self.brand == other.brand && self.frequency == other.frequency
    }
}

impl CpuStats {
    /// No name, no usage.
    pub open spec fn is_blank(self) -> bool {
        &&& self.name@.len() == 0
        &&& self.usage.bits == 0
        &&& self.vendor_id@.len() == 0
        &&& self.brand@.len() == 0
        &&& self.frequency == 0
    }
}

impl Default for CpuStats {
    fn default() -> (stats: Self)
        ensures
            stats.is_blank(),
    {
        CpuStats {
            name: String::new(),
            usage: Float32::zero(),
            vendor_id: String::new(),
            brand: String::new(),
            frequency: 0,
        }
    }
}

/// The machine as a whole.
#[derive(Debug, PartialEq)]
pub struct BaseSystemStats {
    pub cpu_usage: Float32,
    pub cpus: Vec<CpuStats>,
    pub ram: StorageStats,
    pub swap: StorageStats,
    pub uptime: u64,
}

/// [`BaseSystemStats`] with its cores as a sequence.
#[verifier::ext_equal]
pub struct BaseSystemView {
    pub cpu_usage: Float32,
    pub cpus: Seq<CpuStats>,
    pub ram: StorageStats,
    pub swap: StorageStats,
    pub uptime: u64,
}

impl View for BaseSystemStats {
    type V = BaseSystemView;

    open spec fn view(&self) -> BaseSystemView {
        BaseSystemView {
            cpu_usage: self.cpu_usage,
            cpus: self.cpus@,
            ram: self.ram,
            swap: self.swap,
            uptime: self.uptime,
        }
    }
}

impl BaseSystemView {
    /// Nothing gathered yet.
    pub open spec fn blank() -> Self {
        BaseSystemView {
            cpu_usage: Float32 { bits: 0 },
            cpus: Seq::empty(),
            ram: StorageStats::empty(),
            swap: StorageStats::empty(),
            uptime: 0,
        }
    }
}

impl Default for BaseSystemStats {
    fn default() -> (stats: Self)
        ensures
            stats@ == BaseSystemView::blank(),
    {
        BaseSystemStats {
            cpu_usage: Float32::zero(),
            cpus: Vec::new(),
            ram: StorageStats::default(),
            swap: StorageStats::default(),
            uptime: 0,
        }
    }
}

impl Clone for BaseSystemStats {
    fn clone(&self) -> (copy: Self)
        ensures
            copy@ == self@,
    {
        let cpus = self.cpus.clone();
        assert(cpus@ =~= self.cpus@);
        BaseSystemStats {
            cpu_usage: self.cpu_usage,
            cpus,
            ram: self.ram,
            swap: self.swap,
            uptime: self.uptime,
        }
    }
}

impl Section for BaseSystemStats {
    open spec fn same_as(&self, other: &Self) -> bool {
        &&& self.cpu_usage.equals(other.cpu_usage)
        &&& self.cpus.same_as(&other.cpus)
        &&& self.ram.same_as(&other.ram)
        &&& self.swap.same_as(&other.swap)
        &&& self.uptime == other.uptime
    }

    fn is_same(&self, other: &Self) -> (yes: bool) {
        self.cpu_usage.equal(other.cpu_usage) && self.cpus.is_same(&other.cpus) && self.ram.is_same(
            &other.ram,
        ) && self.swap.is_same(&other.swap) && self.uptime == other.uptime
    }
}

/// What a disk is built of.
#[derive(Debug, Clone, Copy, PartialEq, Eq, Structural)]
pub enum DiskKind {
    Hdd,
    Ssd,
    Unknown(isize),
}

/// One mounted disk.
#[derive(Debug, PartialEq)]
pub struct DiskStats {
    pub kind: DiskKind,
    pub name: String,
    pub file_system: String,
    pub mount_point: String,
    pub is_removable: bool,
    pub is_read_only: bool,
    pub stats: StorageStats,
}

impl DiskStats {
    /// A disk of unknown kind, with no name and nothing on it.
    pub open spec fn is_blank(self) -> bool {
        &&& self.kind == DiskKind::Unknown(0)
        &&& self.name@.len() == 0
        &&& self.file_system@.len() == 0
        &&& self.mount_point@.len() == 0
        &&& !self.is_removable
        &&& !self.is_read_only
        &&& self.stats == StorageStats::empty()
    }
}

impl Default for DiskStats {
    fn default() -> (stats: Self)
        ensures
            stats.is_blank(),
    {
        DiskStats {
            kind: DiskKind::Unknown(0),
            name: String::new(),
            file_system: String::new(),
            mount_point: String::new(),
            is_removable: false,
            is_read_only: false,
            stats: StorageStats::default(),
        }
    }
}

impl Clone for DiskStats {
    fn clone(&self) -> (copy: Self)
        ensures
            copy == *self,
    {
        DiskStats {
            kind: self.kind,
            name: self.name.clone(),
            file_system: self.file_system.clone(),
            mount_point: self.mount_point.clone(),
            is_removable: self.is_removable,
            is_read_only: self.is_read_only,
            stats: self.stats,
        }
    }
}

impl Section for DiskStats {
    open spec fn same_as(&self, other: &Self) -> bool {
        &&& self.kind == other.kind
        &&& self.name@ == other.name@
        &&& self.file_system@ == other.file_system@
        &&& self.mount_point@ == other.mount_point@
        &&& self.is_removable == other.is_removable
        &&& self.is_read_only == other.is_read_only
        &&& self.stats.same_as(&other.stats)
    }

    fn is_same(&self, other: &Self) -> (yes: bool) {
        self.kind == other.kind && self.name == other.name && self.file_system == other.file_system
            && self.mount_point == other.mount_point && self.is_removable == other.is_removable
            && self.is_read_only == other.is_read_only && self.stats.is_same(&other.stats)
    }
}

/// One temperature sensor.
#[derive(Debug, PartialEq)]
pub struct TemperatureStats {
    pub label: String,
    pub current: Option<Float32>,
    pub max: Option<Float32>,
    pub critical: Option<Float32>,
}

impl TemperatureStats {
    /// A sensor with no label and no readings.
    pub open spec fn is_blank(self) -> bool {
        &&& self.label@.len() == 0
        &&& self.current is None
        &&& self.max is None
        &&& self.critical is None
    }
}

impl Default for TemperatureStats {
    fn default() -> (stats: Self)
        ensures
            stats.is_blank(),
    {
        TemperatureStats { label: String::new(), current: None, max: None, critical: None }
    }
}

impl Clone for TemperatureStats {
    fn clone(&self) -> (copy: Self)
        ensures
            copy == *self,
    {
        TemperatureStats {
            label: self.label.clone(),
            current: self.current,
            max: self.max,
            critical: self.critical,
        }
    }
}

/// Two readings that may be missing are equal.
pub open spec fn readings_equal(one: Option<Float32>, other: Option<Float32>) -> bool {
    match (one, other) {
        (Some(one), Some(other)) => one.equals(other),
        (None, None) => true,
        _ => false,
    }
}

fn equal_readings(one: Option<Float32>, other: Option<Float32>) -> (yes: bool)
    ensures
        yes == readings_equal(one, other),
{
    match (one, other) {
        (Some(one), Some(other)) => one.equal(other),
        (None, None) => true,
        _ => false,
    }
}

impl Section for TemperatureStats {
    open spec fn same_as(&self, other: &Self) -> bool {
        &&& self.label@ == other.label@
        &&& readings_equal(self.current, other.current)
        &&& readings_equal(self.max, other.max)
        &&& readings_equal(self.critical, other.critical)
    }

    fn is_same(&self, other: &Self) -> (yes: bool) {
        self.label == other.label && equal_readings(self.current, other.current) && equal_readings(
            self.max,
            other.max,
        ) && equal_readings(self.critical, other.critical)
    }
}

/// One LXC container of the node.
#[derive(Debug, PartialEq)]
pub struct ProxmoxLxcStats {
    pub vm_id: u32,
    pub pid: Option<u32>,
    pub name: String,
    pub base: BaseSystemStats,
    pub disk: DiskStats,
}

impl ProxmoxLxcStats {
    /// A container with no number, no name and nothing in use.
    pub open spec fn is_blank(self) -> bool {
        &&& self.vm_id == 0
        &&& self.pid is None
        &&& self.name@.len() == 0
        &&& self.base@ == BaseSystemView::blank()
        &&& self.disk.is_blank()
    }
}

impl Default for ProxmoxLxcStats {
    fn default() -> (stats: Self)
        ensures
            stats.is_blank(),
    {
        ProxmoxLxcStats {
            vm_id: 0,
            pid: None,
            name: String::new(),
            base: BaseSystemStats::default(),
            disk: DiskStats::default(),
        }
    }
}

impl Clone for ProxmoxLxcStats {
    fn clone(&self) -> (copy: Self)
        ensures
            copy == (ProxmoxLxcStats { base: copy.base, ..*self }),
            copy.base@ == self.base@,
    {
        ProxmoxLxcStats {
            vm_id: self.vm_id,
            pid: self.pid,
            name: self.name.clone(),
            base: self.base.clone(),
            disk: self.disk.clone(),
        }
    }
}

impl Section for ProxmoxLxcStats {
    open spec fn same_as(&self, other: &Self) -> bool {
        &&& self.vm_id == other.vm_id
        &&& self.pid == other.pid
        &&& self.name@ == other.name@
        &&& self.base.same_as(&other.base)
        &&& self.disk.same_as(&other.disk)
    }

    fn is_same(&self, other: &Self) -> (yes: bool) {
        self.vm_id == other.vm_id && self.pid == other.pid && self.name == other.name
            && self.base.is_same(&other.base) && self.disk.is_same(&other.disk)
    }
}

/// The node and its containers.
#[derive(Debug, PartialEq)]
pub struct ProxmoxNodeStats {
    pub io_delay: Float64,
    pub lxc: Arc<Vec<ProxmoxLxcStats>>,
}

impl ProxmoxNodeStats {
    /// No delay and no containers.
    pub open spec fn is_blank(self) -> bool {
        self.io_delay.bits == 0 && self.lxc@.len() == 0
    }
}

impl Default for ProxmoxNodeStats {
    fn default() -> (stats: Self)
        ensures
            stats.is_blank(),
    {
        ProxmoxNodeStats { io_delay: Float64::zero(), lxc: Arc::new(Vec::new()) }
    }
}

impl Clone for ProxmoxNodeStats {
    fn clone(&self) -> (copy: Self)
        ensures
            copy == *self,
    {
        ProxmoxNodeStats { io_delay: self.io_delay, lxc: share(&self.lxc) }
    }
}

impl Section for Float64 {
    open spec fn same_as(&self, other: &Self) -> bool {
        self.equals(*other)
    }

    fn is_same(&self, other: &Self) -> (yes: bool) {
        self.equal(*other)
    }
}

/// Which container a process sits in, as far as it is known.
#[derive(Debug, PartialEq)]
pub struct ProcessCGroupInfo {
    pub lxc_vm_id: Option<u32>,
    pub lxc_name: Option<String>,
    pub docker_container_id: Option<String>,
    pub docker_container_name: Option<String>,
}

impl ProcessCGroupInfo {
    /// Not in any container.
    pub open spec fn nowhere() -> Self {
        ProcessCGroupInfo {
            lxc_vm_id: None,
            lxc_name: None,
            docker_container_id: None,
            docker_container_name: None,
        }
    }
}

impl Default for ProcessCGroupInfo {
    fn default() -> (info: Self)
        ensures
            info == ProcessCGroupInfo::nowhere(),
    {
        ProcessCGroupInfo {
            lxc_vm_id: None,
            lxc_name: None,
            docker_container_id: None,
            docker_container_name: None,
        }
    }
}

impl Clone for ProcessCGroupInfo {
    fn clone(&self) -> (copy: Self)
        ensures
            copy == *self,
    {
        ProcessCGroupInfo {
            lxc_vm_id: self.lxc_vm_id,
            lxc_name: copy_of_optional_text(&self.lxc_name),
            docker_container_id: copy_of_optional_text(&self.docker_container_id),
            docker_container_name: copy_of_optional_text(&self.docker_container_name),
        }
    }
}

impl Section for ProcessCGroupInfo {
    open spec fn same_as(&self, other: &Self) -> bool {
        &&& self.lxc_vm_id == other.lxc_vm_id
        &&& optional_text(self.lxc_name) == optional_text(other.lxc_name)
        &&& optional_text(self.docker_container_id) == optional_text(other.docker_container_id)
        &&& optional_text(self.docker_container_name) == optional_text(other.docker_container_name)
    }

    fn is_same(&self, other: &Self) -> (yes: bool) {
        self.lxc_vm_id == other.lxc_vm_id && same_optional_text(&self.lxc_name, &other.lxc_name)
            && same_optional_text(&self.docker_container_id, &other.docker_container_id)
            && same_optional_text(&self.docker_container_name, &other.docker_container_name)
    }
}

impl Section for HashMap<u32, ProcessCGroupInfo> {
    open spec fn same_as(&self, other: &Self) -> bool {
        &&& self@.dom() == other@.dom()
        &&& forall|pid: u32| #[trigger]
            self@.contains_key(pid) ==> self@[pid].same_as(&other@[pid])
    }

    fn is_same(&self, other: &Self) -> (yes: bool) {
        broadcast use vstd::std_specs::hash::group_hash_axioms;

        if self.len() != other.len() {
            return false;
        }
        for pid in iter: self.keys()
            invariant
                iter.seq().unref().to_set() == self@.dom(),
                forall|i: int|
                    0 <= i < iter.index() ==> {
                        &&& other@.contains_key(*#[trigger] iter.seq()[i])
                        &&& self@[*iter.seq()[i]].same_as(&other@[*iter.seq()[i]])
                    },
                iter.index() == iter.seq().len() ==> forall|pid: u32| #[trigger]
                    self@.contains_key(pid) ==> other@.contains_key(pid) && self@[pid].same_as(
                        &other@[pid],
                    ),
        {
            assert(iter.seq().unref()[iter.index() as int] == *pid);
            assert(iter.seq().unref().to_set().contains(*pid));
            match (self.get(pid), other.get(pid)) {
                (Some(one), Some(another)) => {
                    if !one.is_same(another) {
                        return false;
                    }
                },
                _ => {
                    return false;
                },
            }
            assert forall|pid: u32|
                iter.index() + 1 == iter.seq().len() && #[trigger] self@.contains_key(
                    pid,
                ) implies other@.contains_key(pid) && self@[pid].same_as(&other@[pid]) by {
                assert(iter.seq().unref().to_set().contains(pid));
                let i = choose|i: int|
                    0 <= i < iter.seq().len() && iter.seq().unref()[i] == pid;
                assert(*iter.seq()[i] == pid);
            }
        }
        assert(self@.dom().subset_of(other@.dom()));
        proof {
            vstd::set_lib::lemma_subset_equality(self@.dom(), other@.dom());
        }
        true
    }
}

/// A process on a graphics card.
#[derive(Debug, PartialEq)]
pub struct GpuProcessStats {
    pub pid: u32,
    pub process_name: String,
    pub memory_used: Option<u64>,
    pub cgroup_info: ProcessCGroupInfo,
}

impl GpuProcessStats {
    /// A process with no number, no name and nothing in use.
    pub open spec fn is_blank(self) -> bool {
        &&& self.pid == 0
        &&& self.process_name@.len() == 0
        &&& self.memory_used is None
        &&& self.cgroup_info == ProcessCGroupInfo::nowhere()
    }
}

impl Default for GpuProcessStats {
    fn default() -> (stats: Self)
        ensures
            stats.is_blank(),
    {
        GpuProcessStats {
            pid: 0,
            process_name: String::new(),
            memory_used: None,
            cgroup_info: ProcessCGroupInfo::default(),
        }
    }
}

impl Clone for GpuProcessStats {
    fn clone(&self) -> (copy: Self)
        ensures
            copy == *self,
    {
        GpuProcessStats {
            pid: self.pid,
            process_name: self.process_name.clone(),
            memory_used: self.memory_used,
            cgroup_info: self.cgroup_info.clone(),
        }
    }
}

impl Section for GpuProcessStats {
    open spec fn same_as(&self, other: &Self) -> bool {
        &&& self.pid == other.pid
        &&& self.process_name@ == other.process_name@
        &&& self.memory_used == other.memory_used
        &&& self.cgroup_info.same_as(&other.cgroup_info)
    }

    fn is_same(&self, other: &Self) -> (yes: bool) {
        self.pid == other.pid && self.process_name == other.process_name && self.memory_used
            == other.memory_used && self.cgroup_info.is_same(&other.cgroup_info)
    }
}

/// One graphics card.
///
/// The driver gives the power in milliwatts; the page shows watts.
#[derive(Debug, PartialEq)]
pub struct GpuStats {
    pub name: String,
    pub temperature: u32,
    pub utilization: u32,
    pub power_usage_milliwatts: u32,
    pub memory: StorageStats,
    pub processes: Vec<GpuProcessStats>,
}

/// [`GpuStats`] with its processes as a sequence.
#[verifier::ext_equal]
pub struct GpuView {
    pub name: String,
    pub temperature: u32,
    pub utilization: u32,
    pub power_usage_milliwatts: u32,
    pub memory: StorageStats,
    pub processes: Seq<GpuProcessStats>,
}

impl View for GpuStats {
    type V = GpuView;

    open spec fn view(&self) -> GpuView {
        GpuView {
            name: self.name,
            temperature: self.temperature,
            utilization: self.utilization,
            power_usage_milliwatts: self.power_usage_milliwatts,
            memory: self.memory,
            processes: self.processes@,
        }
    }
}

impl GpuStats {
    /// A card with no name, nothing in use and nothing on it.
    pub open spec fn is_blank(self) -> bool {
        &&& self.name@.len() == 0
        &&& self.temperature == 0
        &&& self.utilization == 0
        &&& self.power_usage_milliwatts == 0
        &&& self.memory == StorageStats::empty()
        &&& self.processes@.len() == 0
    }
}

impl Default for GpuStats {
    fn default() -> (stats: Self)
        ensures
            stats.is_blank(),
    {
        GpuStats {
            name: String::new(),
            temperature: 0,
            utilization: 0,
            power_usage_milliwatts: 0,
            memory: StorageStats::default(),
            processes: Vec::new(),
        }
    }
}

impl Clone for GpuStats {
    fn clone(&self) -> (copy: Self)
        ensures
            copy@ == self@,
    {
        let processes = self.processes.clone();
        assert(processes@ =~= self.processes@);
        GpuStats {
            name: self.name.clone(),
            temperature: self.temperature,
            utilization: self.utilization,
            power_usage_milliwatts: self.power_usage_milliwatts,
            memory: self.memory,
            processes,
        }
    }
}

impl Section for GpuStats {
    open spec fn same_as(&self, other: &Self) -> bool {
        &&& self.name@ == other.name@
        &&& self.temperature == other.temperature
        &&& self.utilization == other.utilization
        &&& self.power_usage_milliwatts == other.power_usage_milliwatts
        &&& self.memory.same_as(&other.memory)
        &&& self.processes.same_as(&other.processes)
    }

    fn is_same(&self, other: &Self) -> (yes: bool) {
        self.name == other.name && self.temperature == other.temperature && self.utilization
            == other.utilization && self.power_usage_milliwatts == other.power_usage_milliwatts
            && self.memory.is_same(&other.memory) && self.processes.is_same(&other.processes)
    }
}

/// One process.
#[derive(Debug, PartialEq)]
pub struct ProcessStats {
    pub pid: u32,
    pub name: String,
    pub cpu_usage: Float32,
    pub memory_used: u64,
    pub cgroup_info: ProcessCGroupInfo,
}

impl Clone for ProcessStats {
    fn clone(&self) -> (copy: Self)
        ensures
            copy == *self,
    {
        ProcessStats {
            pid: self.pid,
            name: self.name.clone(),
            cpu_usage: self.cpu_usage,
            memory_used: self.memory_used,
            cgroup_info: self.cgroup_info.clone(),
        }
    }
}

impl ProcessStats {
    /// A process with no number, no name and nothing in use.
    pub open spec fn is_blank(self) -> bool {
        &&& self.pid == 0
        &&& self.name@.len() == 0
        &&& self.cpu_usage.bits == 0
        &&& self.memory_used == 0
        &&& self.cgroup_info == ProcessCGroupInfo::nowhere()
    }
}

impl Default for ProcessStats {
    fn default() -> (stats: Self)
        ensures
            stats.is_blank(),
    {
        ProcessStats {
            pid: 0,
            name: String::new(),
            cpu_usage: Float32::zero(),
            memory_used: 0,
            cgroup_info: ProcessCGroupInfo::default(),
        }
    }
}

impl Section for ProcessStats {
    open spec fn same_as(&self, other: &Self) -> bool {
        &&& self.pid == other.pid
        &&& self.name@ == other.name@
        &&& self.cpu_usage.equals(other.cpu_usage)
        &&& self.memory_used == other.memory_used
        &&& self.cgroup_info.same_as(&other.cgroup_info)
    }

    fn is_same(&self, other: &Self) -> (yes: bool) {
        self.pid == other.pid && self.name == other.name && self.cpu_usage.equal(other.cpu_usage)
            && self.memory_used == other.memory_used && self.cgroup_info.is_same(
            &other.cgroup_info,
        )
    }
}

/// When one independently-gathered section was last refreshed, and whether its source has fallen
/// far enough behind its own cadence to be worth saying so on the page.
#[derive(Debug, Clone, Copy, PartialEq, Eq, Structural)]
pub struct SourceStatus {
    pub updated_at: Option<Timestamp>,
    pub stale: bool,
}

impl SourceStatus {
    /// Never refreshed, and not called stale.
    pub open spec fn unknown() -> Self {
        SourceStatus { updated_at: None, stale: false }
    }
}

impl Default for SourceStatus {
    fn default() -> (status: Self)
        ensures
            status == SourceStatus::unknown(),
    {
        SourceStatus { updated_at: None, stale: false }
    }
}

/// One entry per source that fills part of [`SystemStats`].
///
/// Each is gathered at its own rate, so any one of them can fall behind - or stop entirely, if
/// whatever it asks never answers - while the rest carry on. This is what the page reads to say
/// which of its tables it should no longer be believed.
#[derive(Debug, Clone, Copy, PartialEq, Eq, Structural)]
pub struct SourceStatuses {
    pub base: SourceStatus,
    pub processes: SourceStatus,
    pub disks: SourceStatus,
    pub temperatures: SourceStatus,
    pub io_delay: SourceStatus,
    pub lxc: SourceStatus,
    pub gpus: SourceStatus,
    pub cgroups: SourceStatus,
    pub energy: SourceStatus,
}

impl SourceStatuses {
    /// Nothing has been refreshed yet.
    pub open spec fn unknown() -> Self {
        SourceStatuses {
            base: SourceStatus::unknown(),
            processes: SourceStatus::unknown(),
            disks: SourceStatus::unknown(),
            temperatures: SourceStatus::unknown(),
            io_delay: SourceStatus::unknown(),
            lxc: SourceStatus::unknown(),
            gpus: SourceStatus::unknown(),
            cgroups: SourceStatus::unknown(),
            energy: SourceStatus::unknown(),
        }
    }

    /// The names the log and the page know the sources by, in order.
    pub open spec fn source_names() -> Seq<Seq<char>> {
        seq![
            "base"@,
            "processes"@,
            "disks"@,
            "temperatures"@,
            "io_delay"@,
            "lxc"@,
            "gpus"@,
            "cgroups"@,
            "energy"@,
        ]
    }

    /// The statuses, in the order of the names.
    pub open spec fn in_order(self) -> Seq<SourceStatus> {
        seq![
            self.base,
            self.processes,
            self.disks,
            self.temperatures,
            self.io_delay,
            self.lxc,
            self.gpus,
            self.cgroups,
            self.energy,
        ]
    }

    /// Every status against the name the log and the page know it by.
    pub fn named(&self) -> (named: [(&'static str, &SourceStatus); 9])
        ensures
            forall|i: int|
                0 <= i < 9 ==> {
                    &&& (#[trigger] named@[i]).0@ == SourceStatuses::source_names()[i]
                    &&& *named@[i].1 == self.in_order()[i]
                },
    {
        [
            ("base", &self.base),
            ("processes", &self.processes),
            ("disks", &self.disks),
            ("temperatures", &self.temperatures),
            ("io_delay", &self.io_delay),
            ("lxc", &self.lxc),
            ("gpus", &self.gpus),
            ("cgroups", &self.cgroups),
            ("energy", &self.energy),
        ]
    }
}

impl Default for SourceStatuses {
    fn default() -> (statuses: Self)
        ensures
            statuses == SourceStatuses::unknown(),
    {
        SourceStatuses {
            base: SourceStatus::default(),
            processes: SourceStatus::default(),
            disks: SourceStatus::default(),
            temperatures: SourceStatus::default(),
            io_delay: SourceStatus::default(),
            lxc: SourceStatus::default(),
            gpus: SourceStatus::default(),
            cgroups: SourceStatus::default(),
            energy: SourceStatus::default(),
        }
    }
}

/// A reading of the energy plug.
#[derive(Debug, PartialEq)]
pub struct EnergyUsage {
    pub current_power: Option<u64>,
    pub electricity_charge: Option<(u64, u64, u64)>,
    pub local_time: String,
    pub month_energy: u64,
    pub month_runtime: u64,
    pub today_energy: u64,
    pub today_runtime: u64,
}

impl Clone for EnergyUsage {
    fn clone(&self) -> (copy: Self)
        ensures
            copy == *self,
    {
        EnergyUsage {
            current_power: self.current_power,
            electricity_charge: self.electricity_charge,
            local_time: self.local_time.clone(),
            month_energy: self.month_energy,
            month_runtime: self.month_runtime,
            today_energy: self.today_energy,
            today_runtime: self.today_runtime,
        }
    }
}

/// The assembled picture the page and the log are handed.
///
/// The sections are shared pointers because they are gathered separately and most of them do not
/// change from one publish to the next: a section nothing has touched costs no copy here.
#[derive(Debug)]
pub struct SystemStats {
    pub updated_at: Option<Timestamp>,
    pub sources: SourceStatuses,
    pub base: Arc<BaseSystemStats>,
    pub disks: Arc<Vec<DiskStats>>,
    pub temperatures: Arc<Vec<TemperatureStats>>,
    pub proxmox: ProxmoxNodeStats,
    pub gpus: Arc<Vec<GpuStats>>,
    pub processes: Arc<Vec<ProcessStats>>,
    pub energy_usage: Arc<Option<EnergyUsage>>,
}

impl SystemStats {
    /// Nothing gathered yet.
    pub open spec fn is_blank(self) -> bool {
        &&& self.updated_at is None
        &&& self.sources == SourceStatuses::unknown()
        &&& self.base@ == BaseSystemView::blank()
        &&& self.disks@.len() == 0
        &&& self.temperatures@.len() == 0
        &&& self.proxmox.is_blank()
        &&& self.gpus@.len() == 0
        &&& self.processes@.len() == 0
        &&& *self.energy_usage is None
    }
}

impl Clone for SystemStats {
    fn clone(&self) -> (copy: Self)
        ensures
            copy == *self,
    {
        SystemStats {
            updated_at: self.updated_at,
            sources: self.sources,
            base: share(&self.base),
            disks: share(&self.disks),
            temperatures: share(&self.temperatures),
            proxmox: self.proxmox.clone(),
            gpus: share(&self.gpus),
            processes: share(&self.processes),
            energy_usage: share(&self.energy_usage),
        }
    }
}

impl Default for SystemStats {
    fn default() -> (stats: Self)
        ensures
            stats.is_blank(),
    {
        SystemStats {
            updated_at: None,
            sources: SourceStatuses::default(),
            base: Arc::new(BaseSystemStats::default()),
            disks: Arc::new(Vec::new()),
            temperatures: Arc::new(Vec::new()),
            proxmox: ProxmoxNodeStats::default(),
            gpus: Arc::new(Vec::new()),
            processes: Arc::new(Vec::new()),
            energy_usage: Arc::new(None),
        }
    }
}

/// Each source is known by its own name: the status that stands against a name is that source's.
pub proof fn law_names_go_with_their_sources(statuses: SourceStatuses)
    ensures
        ({
            let names = SourceStatuses::source_names();
            let shown = statuses.in_order();
            &&& names.len() == shown.len() == 9
            &&& names[0] == "base"@ && shown[0] == statuses.base
            &&& names[1] == "processes"@ && shown[1] == statuses.processes
            &&& names[2] == "disks"@ && shown[2] == statuses.disks
            &&& names[3] == "temperatures"@ && shown[3] == statuses.temperatures
            &&& names[4] == "io_delay"@ && shown[4] == statuses.io_delay
            &&& names[5] == "lxc"@ && shown[5] == statuses.lxc
            &&& names[6] == "gpus"@ && shown[6] == statuses.gpus
            &&& names[7] == "cgroups"@ && shown[7] == statuses.cgroups
            &&& names[8] == "energy"@ && shown[8] == statuses.energy
        }),
{
}

/// Before anything has been refreshed nothing is called stale, and no section has a time.
pub proof fn law_nothing_is_stale_at_first(i: int)
    requires
        0 <= i < 9,
    ensures
        !SourceStatuses::unknown().in_order()[i].stale,
        SourceStatuses::unknown().in_order()[i].updated_at is None,
{
}

/// The same number says the same: a usage equals itself where it is a number, whichever way round
/// the two are held against each other, and the same share of more is the same usage. Of the same
/// whole, another part is another usage.
pub proof fn law_usages_are_compared_as_numbers(usage: Usage, other: Usage, times: u64)
    requires
        times > 0,
        usage.part * times <= u64::MAX,
        usage.whole * times <= u64::MAX,
    ensures
        usage.equals(usage) <==> usage.part != 0 || usage.whole != 0,
        usage.equals(other) <==> other.equals(usage),
        usage.part != 0 || usage.whole != 0 ==> usage.equals(
            Usage {
                part: (usage.part * times) as u64,
                whole: (usage.whole * times) as u64,
                percent: usage.percent,
            },
        ),
        usage.whole == other.whole && usage.whole > 0 && usage.percent == other.percent ==> (
        usage.equals(other) <==> usage.part == other.part),
        usage.whole == other.whole && usage.whole > 0 && usage.percent && !other.percent ==> (
        usage.equals(other) <==> 100 * usage.part == other.part),
        usage.whole > 0 && other.whole > 0 && usage.percent == other.percent ==> (usage.equals(
            other,
        ) <==> usage.part * other.whole == other.part * usage.whole),
        usage.whole == 0 && usage.part > 0 && other.part > 0 ==> (usage.equals(other)
            <==> other.whole == 0),
{
    let more = Usage {
        part: (usage.part * times) as u64,
        whole: (usage.whole * times) as u64,
        percent: usage.percent,
    };
    assert(usage.whole == 0 ==> usage.whole * times == 0) by (nonlinear_arith);
    assert(usage.whole > 0 ==> usage.whole * times > 0) by (nonlinear_arith)
        requires
            times > 0,
    ;
    assert(usage.part > 0 ==> usage.part * times > 0) by (nonlinear_arith)
        requires
            times > 0,
    ;
    assert(usage.part * (usage.whole * times) == (usage.part * times) * usage.whole)
        by (nonlinear_arith);
    if usage.whole == other.whole && usage.whole > 0 {
        let whole = usage.whole as int;
        assert(usage.part * whole == other.part * whole <==> usage.part == other.part)
            by (nonlinear_arith)
            requires
                whole > 0,
        ;
        assert((usage.part * whole) * 100 == other.part * whole <==> 100 * usage.part
            == other.part) by (nonlinear_arith)
            requires
                whole > 0,
        ;
    }
}

/// Two gathers of memory, swap or a disk are taken for the same only where every figure is the
/// same, and are where the figures are the same numbers.
pub proof fn law_same_storage_is_equal(one: StorageStats, other: StorageStats)
    ensures
        one.same_as(&other) ==> {
            &&& one.total == other.total
            &&& one.used == other.used
            &&& one.available == other.available
            &&& one.usage.equals(other.usage)
        },
        one == other && (one.usage.part != 0 || one.usage.whole != 0) ==> one.same_as(&other),
{
    if one == other {
        let usage = one.usage;
        assert(usage.part * usage.whole == usage.part * usage.whole);
    }
}

/// Every figure of a core that the page shows is the same in both.
pub open spec fn cores_agree(one: CpuStats, other: CpuStats) -> bool {
    &&& one.name@ == other.name@
    &&& one.vendor_id@ == other.vendor_id@
    &&& one.brand@ == other.brand@
    &&& one.frequency == other.frequency
    &&& one.usage.equals(other.usage)
}

/// Every figure of memory, swap or a disk that the page shows is the same in both.
pub open spec fn storages_agree(one: StorageStats, other: StorageStats) -> bool {
    &&& one.total == other.total
    &&& one.used == other.used
    &&& one.available == other.available
    &&& one.usage.equals(other.usage)
}

/// Two gathers of the machine are taken for the same exactly where every figure that the page shows
/// of it is the same: the processor use, every core, the memory, the swap and the uptime.
pub proof fn law_same_machine_is_equal(one: BaseSystemStats, other: BaseSystemStats)
    ensures
        one.same_as(&other) <==> {
            &&& one.cpu_usage.equals(other.cpu_usage)
            &&& one.cpus@.len() == other.cpus@.len()
            &&& forall|i: int|
                0 <= i < one.cpus@.len() ==> cores_agree(#[trigger] one.cpus@[i], other.cpus@[i])
            &&& storages_agree(one.ram, other.ram)
            &&& storages_agree(one.swap, other.swap)
            &&& one.uptime == other.uptime
        },
{
    if one.same_as(&other) {
        assert forall|i: int| 0 <= i < one.cpus@.len() implies cores_agree(
            #[trigger] one.cpus@[i],
            other.cpus@[i],
        ) by {
            assert(one.cpus@[i].same_as(&other.cpus@[i]));
        }
    } else if one.cpus@.len() == other.cpus@.len() && (forall|i: int|
        0 <= i < one.cpus@.len() ==> cores_agree(#[trigger] one.cpus@[i], other.cpus@[i])) {
        assert forall|i: int| 0 <= i < one.cpus@.len() implies (#[trigger] one.cpus@[i]).same_as(
            &other.cpus@[i],
        ) by {
            assert(cores_agree(one.cpus@[i], other.cpus@[i]));
        }
    }
}

/// Two gathers of a disk are taken for the same exactly where everything that the page shows of it
/// is the same.
pub proof fn law_same_disk_is_equal(one: DiskStats, other: DiskStats)
    ensures
        one.same_as(&other) <==> {
            &&& one.kind == other.kind
            &&& one.name@ == other.name@
            &&& one.file_system@ == other.file_system@
            &&& one.mount_point@ == other.mount_point@
            &&& one.is_removable == other.is_removable
            &&& one.is_read_only == other.is_read_only
            &&& storages_agree(one.stats, other.stats)
        },
{
}

/// A reading that may be missing is the same in both: it is missing in both, or the same number.
pub proof fn law_missing_readings_are_equal(one: Option<Float32>, other: Option<Float32>)
    ensures
        readings_equal(one, other) ==> (one is None <==> other is None),
        readings_equal(None, None),
        readings_equal(one, other) && one is Some ==> one->0.equals(other->0),
        one is Some && other is Some && one->0.equals(other->0) ==> readings_equal(one, other),
{
}

/// Two gathers of a sensor are taken for the same exactly where its label and all three of its
/// readings are the same.
pub proof fn law_same_sensor_is_equal(one: TemperatureStats, other: TemperatureStats)
    ensures
        one.same_as(&other) <==> {
            &&& one.label@ == other.label@
            &&& readings_equal(one.current, other.current)
            &&& readings_equal(one.max, other.max)
            &&& readings_equal(one.critical, other.critical)
        },
{
}

/// Two gathers of a container are taken for the same only where every figure that the page shows of
/// it is the same: its number, pid and name, the processor use, the memory, the swap, the uptime
/// and the disk. Where they all are, the two are taken for the same.
pub proof fn law_same_container_is_equal(one: ProxmoxLxcStats, other: ProxmoxLxcStats)
    ensures
        one.same_as(&other) ==> {
            &&& one.vm_id == other.vm_id
            &&& one.pid == other.pid
            &&& one.name@ == other.name@
            &&& one.base.cpu_usage.equals(other.base.cpu_usage)
            &&& one.base.uptime == other.base.uptime
            &&& one.base.cpus@.len() == other.base.cpus@.len()
            &&& storages_agree(one.base.ram, other.base.ram)
            &&& storages_agree(one.base.swap, other.base.swap)
            &&& storages_agree(one.disk.stats, other.disk.stats)
            &&& one.disk.kind == other.disk.kind
            &&& one.disk.name@ == other.disk.name@
            &&& one.disk.file_system@ == other.disk.file_system@
            &&& one.disk.mount_point@ == other.disk.mount_point@
            &&& one.disk.is_removable == other.disk.is_removable
            &&& one.disk.is_read_only == other.disk.is_read_only
        },
        one.vm_id == other.vm_id && one.pid == other.pid && one.name@ == other.name@
            && one.base.same_as(&other.base) && one.disk.same_as(&other.disk) ==> one.same_as(
            &other,
        ),
{
}

/// Two lists are taken for the same only where they are equally long and the same row by row, so a
/// row that was added, that has gone or that differs makes another list.
pub proof fn law_same_list_is_equal<T: Section>(one: Vec<T>, other: Vec<T>, row: int)
    requires
        0 <= row < one@.len(),
    ensures
        one.same_as(&other) ==> one@.len() == other@.len() && one@[row].same_as(&other@[row]),
        one@.len() == other@.len() && (forall|i: int|
            0 <= i < one@.len() ==> (#[trigger] one@[i]).same_as(&other@[i])) ==> one.same_as(
            &other,
        ),
{
}

/// What is known of the container that a process sits in is taken for the same exactly where its
/// numbers and its names are.
pub proof fn law_same_whereabouts_are_equal(one: ProcessCGroupInfo, other: ProcessCGroupInfo)
    ensures
        one.same_as(&other) <==> {
            &&& one.lxc_vm_id == other.lxc_vm_id
            &&& optional_text(one.lxc_name) == optional_text(other.lxc_name)
            &&& optional_text(one.docker_container_id) == optional_text(other.docker_container_id)
            &&& optional_text(one.docker_container_name) == optional_text(
                other.docker_container_name,
            )
        },
        one == other ==> one.same_as(&other),
        one.same_as(&other) ==> {
            &&& one.docker_container_name is None <==> other.docker_container_name is None
            &&& one.docker_container_name is Some ==> one.docker_container_name->0@
                == other.docker_container_name->0@
            &&& one.docker_container_id is None <==> other.docker_container_id is None
            &&& one.docker_container_id is Some ==> one.docker_container_id->0@
                == other.docker_container_id->0@
            &&& one.lxc_name is None <==> other.lxc_name is None
            &&& one.lxc_name is Some ==> one.lxc_name->0@ == other.lxc_name->0@
        },
{
}

/// Two rounds over the processes are taken for the same only where they know of the same processes,
/// and the same of each.
pub proof fn law_same_rounds_are_equal(
    one: HashMap<u32, ProcessCGroupInfo>,
    other: HashMap<u32, ProcessCGroupInfo>,
    pid: u32,
)
    ensures
        one.same_as(&other) ==> {
            &&& one@.contains_key(pid) <==> other@.contains_key(pid)
            &&& one@.contains_key(pid) ==> one@[pid].same_as(&other@[pid])
        },
        one@ == other@ ==> one.same_as(&other),
        one@.dom() == other@.dom() && (forall|known: u32| #[trigger]
            one@.contains_key(known) ==> one@[known].same_as(&other@[known])) ==> one.same_as(
            &other,
        ),
{
    if one.same_as(&other) {
        assert(one@.dom().contains(pid) == other@.dom().contains(pid));
    }
}

/// Two gathers of a process on a card are taken for the same exactly where everything that the page
/// shows of it is the same.
pub proof fn law_same_gpu_process_is_equal(one: GpuProcessStats, other: GpuProcessStats)
    ensures
        one.same_as(&other) <==> {
            &&& one.pid == other.pid
            &&& one.process_name@ == other.process_name@
            &&& one.memory_used == other.memory_used
            &&& one.cgroup_info.same_as(&other.cgroup_info)
        },
{
}

/// Two gathers of a card are taken for the same exactly where every figure that the page shows of
/// it is the same, and what runs on it.
pub proof fn law_same_card_is_equal(one: GpuStats, other: GpuStats)
    ensures
        one.same_as(&other) <==> {
            &&& one.name@ == other.name@
            &&& one.temperature == other.temperature
            &&& one.utilization == other.utilization
            &&& one.power_usage_milliwatts == other.power_usage_milliwatts
            &&& storages_agree(one.memory, other.memory)
            &&& one.processes@.len() == other.processes@.len()
            &&& forall|i: int|
                0 <= i < one.processes@.len() ==> (#[trigger] one.processes@[i]).same_as(
                    &other.processes@[i],
                )
        },
{
}

/// Two gathers of a process are taken for the same exactly where everything that the page shows of
/// it is the same.
pub proof fn law_same_process_is_equal(one: ProcessStats, other: ProcessStats)
    ensures
        one.same_as(&other) <==> {
            &&& one.pid == other.pid
            &&& one.name@ == other.name@
            &&& one.cpu_usage.equals(other.cpu_usage)
            &&& one.memory_used == other.memory_used
            &&& one.cgroup_info.same_as(&other.cgroup_info)
        },
{
}

/// The IO delay is taken for the same exactly where it is the same number.
pub proof fn law_same_delay_is_equal(one: Float64, other: Float64)
    ensures
        one.same_as(&other) <==> one.equals(other),
{
}

/// The picture of a monitor that has just been started shows nothing.
pub proof fn law_blank_picture_shows_nothing(stats: SystemStats)
    requires
        stats.is_blank(),
    ensures
        stats.updated_at is None,
        stats.base.uptime == 0 && stats.base.cpu_usage.bits == 0 && stats.base.cpus@.len() == 0,
        stats.base.ram.total == 0 && stats.base.ram.used == 0 && stats.base.ram.available == 0,
        stats.base.swap.total == 0 && stats.base.swap.used == 0 && stats.base.swap.available == 0,
        stats.disks@.len() == 0,
        stats.temperatures@.len() == 0,
        stats.proxmox.lxc@.len() == 0 && stats.proxmox.io_delay.bits == 0,
        stats.gpus@.len() == 0,
        stats.processes@.len() == 0,
        *stats.energy_usage is None,
{
    assert(stats.base@ == BaseSystemView::blank());
    assert(stats.base@.cpus.len() == 0);
}

} // verus!
