//! The containers of a Proxmox node.

use std::sync::Arc;

use vstd::prelude::*;

use crate::numbers::{Float32, Float64};
use crate::sorting::{in_order, sort_by_key, Keyed};
use crate::structures::{
    BaseSystemStats, DiskKind, DiskStats, ProxmoxLxcStats, ProxmoxNodeStats, StorageStats, Usage,
};

verus! {

/// One container, as the Proxmox shell reports it.
#[derive(Debug)]
pub struct LxcItem {
    pub cpu: u8,
    pub disk: u64,
    pub maxdisk: u64,
    pub maxmem: u64,
    pub maxswap: u64,
    pub mem: u64,
    pub name: String,
    pub pid: u32,
    pub swap: u64,
    pub uptime: u64,
    pub vmid: u32,
}

/// Containers are listed by their numbers.
impl Keyed for LxcItem {
    open spec fn key_of(&self) -> int {
        self.vmid as int
    }

    fn key(&self) -> (key: i64) {
        self.vmid as i64
    }
}

/// So much of so much: a fraction, which of nothing is zero.
pub open spec fn share_of(used: u64, total: u64) -> StorageStats {
    StorageStats {
        usage: if total > 0 {
            Usage { part: used, whole: total, percent: false }
        } else {
            Usage::nothing()
        },
        total,
        used,
        available: (total - used) as u64,
    }
}

fn share(used: u64, total: u64) -> (stats: StorageStats)
    requires
        used <= total,
    ensures
        stats == share_of(used, total),
{
    let usage = if total > 0 {
        Usage { part: used, whole: total, percent: false }
    } else {
        Usage { part: 0, whole: 1, percent: false }
    };
    StorageStats { usage, total, used, available: total - used }
}

/// A container's section says what was reported.
pub open spec fn lxc_shows(stats: ProxmoxLxcStats, item: LxcItem) -> bool {
    &&& stats.vm_id == item.vmid
    &&& stats.pid == Some(item.pid)
    &&& stats.name@ == item.name@
    &&& stats.base.cpu_usage.is_number(item.cpu)
    &&& stats.base.cpus@.len() == 0
    &&& stats.base.ram == share_of(item.mem, item.maxmem)
    &&& stats.base.swap == share_of(item.swap, item.maxswap)
    &&& stats.base.uptime == item.uptime
    &&& stats.disk.kind == DiskKind::Unknown(0)
    &&& stats.disk.name@ == "LXC Root Disk"@
    &&& stats.disk.file_system@ == "unknown"@
    &&& stats.disk.mount_point@ == "/"@
    &&& !stats.disk.is_removable
    &&& !stats.disk.is_read_only
    &&& stats.disk.stats == share_of(item.disk, item.maxdisk)
}

impl LxcItem {
    /// No more is in use than there is.
    pub open spec fn wf(self) -> bool {
        &&& self.mem <= self.maxmem
        &&& self.swap <= self.maxswap
        &&& self.disk <= self.maxdisk
    }

    /// Whether no more is in use than there is.
    pub fn is_wf(&self) -> (yes: bool)
        ensures
            yes == self.wf(),
    {
        self.mem <= self.maxmem && self.swap <= self.maxswap && self.disk <= self.maxdisk
    }

    /// The container's section.
    pub fn into_stats(self) -> (stats: ProxmoxLxcStats)
        requires
            self.wf(),
        ensures
            lxc_shows(stats, self),
    {
        ProxmoxLxcStats {
            vm_id: self.vmid,
            pid: Some(self.pid),
            name: self.name,
            base: BaseSystemStats {
                cpu_usage: Float32::from_whole(self.cpu),
                cpus: Vec::new(),
                ram: share(self.mem, self.maxmem),
                swap: share(self.swap, self.maxswap),
                uptime: self.uptime,
            },
            disk: DiskStats {
                kind: DiskKind::Unknown(0),
                name: "LXC Root Disk".to_owned(),
                file_system: "unknown".to_owned(),
                mount_point: "/".to_owned(),
                is_removable: false,
                is_read_only: false,
                stats: share(self.disk, self.maxdisk),
            },
        }
    }
}

/// The sections of some containers, one for one.
pub open spec fn lxcs_show(stats: Seq<ProxmoxLxcStats>, items: Seq<LxcItem>) -> bool {
    &&& stats.len() == items.len()
    &&& forall|i: int| 0 <= i < stats.len() ==> lxc_shows(#[trigger] stats[i], items[i])
}

/// The same containers, by their numbers.
pub open spec fn is_listing_of(listed: Seq<LxcItem>, items: Seq<LxcItem>) -> bool {
    in_order(listed) && listed.to_multiset() == items.to_multiset()
}

/// The sections of a node's containers, by their numbers.
///
/// Which of two containers with one number comes first is not said.
pub fn get_lxc(items: Vec<LxcItem>) -> (lxc: Vec<ProxmoxLxcStats>)
    requires
        forall|i: int| 0 <= i < items@.len() ==> (#[trigger] items@[i]).wf(),
    ensures
        exists|listed: Seq<LxcItem>| #[trigger]
            is_listing_of(listed, items@) && lxcs_show(lxc@, listed),
{
    let mut items = items;
    let ghost given = items@;
    sort_by_key(&mut items);
    let ghost listed = items@;
    proof {
        broadcast use vstd::seq_lib::group_to_multiset_ensures;

        assert forall|i: int| 0 <= i < listed.len() implies (#[trigger] listed[i]).wf() by {
            assert(listed.contains(listed[i]));
            assert(listed.to_multiset().count(listed[i]) > 0);
            assert(given.contains(listed[i]));
        }
    }
    let mut lxc: Vec<ProxmoxLxcStats> = Vec::new();
    for item in iter: items
        invariant
            iter.seq() == listed,
            lxc@.len() == iter.index(),
            forall|i: int| 0 <= i < listed.len() ==> (#[trigger] listed[i]).wf(),
            forall|i: int| 0 <= i < lxc@.len() ==> lxc_shows(#[trigger] lxc@[i], listed[i]),
    {
        lxc.push(item.into_stats());
    }
    assert(is_listing_of(listed, given));
    assert(lxcs_show(lxc@, listed));
    lxc
}

impl ProxmoxNodeStats {
    /// The node, of which nothing is known yet but its containers.
    pub fn get(items: Vec<LxcItem>) -> (stats: Self)
        requires
            forall|i: int| 0 <= i < items@.len() ==> (#[trigger] items@[i]).wf(),
        ensures
            stats.io_delay.bits == 0,
            exists|listed: Seq<LxcItem>| #[trigger]
                is_listing_of(listed, items@) && lxcs_show(stats.lxc@, listed),
    {
        ProxmoxNodeStats { io_delay: Float64::zero(), lxc: Arc::new(get_lxc(items)) }
    }
}

/// What there is of something, what is used of it and what is left go together, and the fraction is
/// that of the used to all there is, or zero where there is nothing.
pub proof fn law_shares_add_up(used: u64, total: u64)
    requires
        used <= total,
    ensures
        share_of(used, total).total == total,
        share_of(used, total).used == used,
        share_of(used, total).used + share_of(used, total).available == total,
        !share_of(used, total).usage.percent,
        total > 0 ==> share_of(used, total).usage.part == used && share_of(used, total).usage.whole
            == total,
        total == 0 ==> share_of(used, total).usage.part == 0 && share_of(used, total).usage.whole
            > 0,
{
}

/// A container's section says everything that was reported of it.
pub proof fn law_container_is_shown_as_reported(stats: ProxmoxLxcStats, item: LxcItem)
    requires
        lxc_shows(stats, item),
        item.wf(),
    ensures
        stats.vm_id == item.vmid,
        stats.pid == Some(item.pid),
        stats.name@ == item.name@,
        stats.base.cpu_usage.is_number(item.cpu),
        stats.base.uptime == item.uptime,
        stats.base.ram.total == item.maxmem && stats.base.ram.used == item.mem,
        stats.base.ram.used + stats.base.ram.available == item.maxmem,
        stats.base.swap.total == item.maxswap && stats.base.swap.used == item.swap,
        stats.base.swap.used + stats.base.swap.available == item.maxswap,
        stats.disk.stats.total == item.maxdisk && stats.disk.stats.used == item.disk,
        stats.disk.stats.used + stats.disk.stats.available == item.maxdisk,
        stats.base.cpus@.len() == 0,
        stats.disk.name@ == "LXC Root Disk"@,
        stats.disk.file_system@ == "unknown"@,
        stats.disk.mount_point@ == "/"@,
        !stats.disk.is_removable && !stats.disk.is_read_only,
{
}

/// One of the sections is that of a container.
pub open spec fn is_listed(item: LxcItem, lxc: Seq<ProxmoxLxcStats>) -> bool {
    exists|i: int| 0 <= i < lxc.len() && lxc_shows(#[trigger] lxc[i], item)
}

/// A section is that of one of the containers that were reported.
pub open spec fn was_reported(stats: ProxmoxLxcStats, items: Seq<LxcItem>) -> bool {
    exists|k: int| 0 <= k < items.len() && lxc_shows(stats, #[trigger] items[k])
}

/// The list of a node's containers has every container that was reported, as it was reported, and
/// no other, in the order of their numbers.
pub proof fn law_every_container_is_listed(
    lxc: Seq<ProxmoxLxcStats>,
    listed: Seq<LxcItem>,
    items: Seq<LxcItem>,
)
    requires
        is_listing_of(listed, items),
        lxcs_show(lxc, listed),
    ensures
        lxc.len() == items.len(),
        forall|i: int, j: int|
            0 <= i < j < lxc.len() ==> (#[trigger] lxc[i]).vm_id <= (#[trigger] lxc[j]).vm_id,
        forall|k: int| 0 <= k < items.len() ==> is_listed(#[trigger] items[k], lxc),
        forall|i: int| 0 <= i < lxc.len() ==> was_reported(#[trigger] lxc[i], items),
{
    broadcast use vstd::seq_lib::group_to_multiset_ensures;

    assert(listed.to_multiset().len() == items.to_multiset().len());
    assert forall|i: int, j: int| 0 <= i < j < lxc.len() implies (#[trigger] lxc[i]).vm_id <= (
    #[trigger] lxc[j]).vm_id by {
        assert(lxc_shows(lxc[i], listed[i]) && lxc_shows(lxc[j], listed[j]));
        assert(listed[i].key_of() <= listed[j].key_of());
    }
    assert forall|k: int| 0 <= k < items.len() implies is_listed(#[trigger] items[k], lxc) by {
        assert(items.contains(items[k]));
        assert(items.to_multiset().count(items[k]) > 0);
        assert(listed.contains(items[k]));
        let i = listed.index_of(items[k]);
        assert(lxc_shows(lxc[i], listed[i]));
    }
    assert forall|i: int| 0 <= i < lxc.len() implies was_reported(#[trigger] lxc[i], items) by {
        assert(lxc_shows(lxc[i], listed[i]));
        assert(listed.contains(listed[i]));
        assert(listed.to_multiset().count(listed[i]) > 0);
        assert(items.contains(listed[i]));
        let k = items.index_of(listed[i]);
        assert(lxc_shows(lxc[i], items[k]));
    }
}

} // verus!
