//! The device inventory: what a scan of the host reports, and how it is
//! merged into the device table.
//!
//! Scanning the host is the caller's business. What is decided here is what
//! a scan does to the table: claims survive, devices that are still free are
//! refreshed, devices that the scan did not find are marked as absent, and
//! devices that are new are added at the end.

use vstd::prelude::*;
use crate::device::{
    devices_wf, distinct_addresses, gpu_views, has_device, index_of, DeviceTable,
    DiscoveredGpu, DiscoveredView, GpuDevice, GpuView, ReservationState,
};
use crate::pci::PciAddress;

verus! {

/// A scan of the host: the devices found, in the order found.
pub type Scan = Seq<DiscoveredView>;

/// The views of a list of scanned devices.
pub open spec fn scan_views(v: Seq<DiscoveredGpu>) -> Scan {
    v.map_values(|d: DiscoveredGpu| d@)
}

/// Whether the scan found a device with this address.
pub open spec fn scan_has(s: Scan, a: PciAddress) -> bool {
    exists|k: int| 0 <= k < s.len() && (#[trigger] s[k]).address == a
}

/// What the scan says of the device with this address.
pub open spec fn scan_entry(s: Scan, a: PciAddress) -> DiscoveredView
    recommends
        scan_has(s, a),
{
    s[choose|k: int| 0 <= k < s.len() && (#[trigger] s[k]).address == a]
}

/// A usable scan reports no address twice.
pub open spec fn distinct_scan(s: Scan) -> bool {
    forall|i: int, j: int|
        0 <= i < j < s.len() ==> (#[trigger] s[i]).address != (#[trigger] s[j]).address
}

/// A known device after a scan.
///
/// One that the scan did not find is marked absent. One that is claimed
/// keeps everything: its state, and the group and host driver under which
/// it was claimed. One that is free takes what the scan says.
pub open spec fn refreshed(d: GpuView, s: Scan) -> GpuView {
    if !scan_has(s, d.address) {
        GpuView { online: false, ..d }
    } else if d.state is Free {
        let e = scan_entry(s, d.address);
        GpuView {
            address: d.address,
            iommu_group: e.iommu_group,
            model: e.model,
            driver: e.driver,
            state: ReservationState::Free,
            online: true,
        }
    } else {
        GpuView { online: true, ..d }
    }
}

/// A device that a scan found for the first time.
pub open spec fn newcomer(e: DiscoveredView) -> GpuView {
    GpuView {
        address: e.address,
        iommu_group: e.iommu_group,
        model: e.model,
        driver: e.driver,
        state: ReservationState::Free,
        online: true,
    }
}

/// The devices of the scan that the table does not know, in scan order.
pub open spec fn newcomers(t: DeviceTable, s: Scan) -> DeviceTable
    decreases s.len(),
{
    if s.len() == 0 {
        Seq::empty()
    } else {
        let rest = newcomers(t, s.drop_last());
        if has_device(t, s.last().address) {
            rest
        } else {
            rest.push(newcomer(s.last()))
        }
    }
}

/// The table after a scan: the known devices refreshed, in their order,
/// followed by the newcomers.
pub open spec fn merged(t: DeviceTable, s: Scan) -> DeviceTable {
    t.map_values(|d: GpuView| refreshed(d, s)) + newcomers(t, s)
}

/// In a usable scan an address is reported at one index only.
pub proof fn lemma_scan_entry(s: Scan, k: int)
    requires
        distinct_scan(s),
        0 <= k < s.len(),
    ensures
        scan_has(s, s[k].address),
        scan_entry(s, s[k].address) == s[k],
{
    let a = s[k].address;
    let j = choose|j: int| 0 <= j < s.len() && (#[trigger] s[j]).address == a;
    if j < k {
        assert(s[j].address != s[k].address);
    } else if k < j {
        assert(s[k].address != s[j].address);
    }
}

/// Every newcomer is free, present, unknown to the table and as the scan
/// reports it; no two newcomers share an address; and every scanned device
/// that the table does not know is among them.
pub proof fn lemma_newcomers(t: DeviceTable, s: Scan)
    requires
        distinct_scan(s),
    ensures
        forall|i: int|
            0 <= i < newcomers(t, s).len() ==> {
                let d = #[trigger] newcomers(t, s)[i];
                &&& d.state is Free
                &&& d.online
                &&& !has_device(t, d.address)
                &&& scan_has(s, d.address)
                &&& d == newcomer(scan_entry(s, d.address))
            },
        distinct_addresses(newcomers(t, s)),
        forall|k: int|
            0 <= k < s.len() && !has_device(t, (#[trigger] s[k]).address) ==> has_device(
                newcomers(t, s),
                s[k].address,
            ),
    decreases s.len(),
{
    if s.len() > 0 {
        let p = s.drop_last();
        let last = s.last();
        let rest = newcomers(t, p);
        let all = newcomers(t, s);
        lemma_newcomers(t, p);
        assert forall|i: int| 0 <= i < rest.len() implies scan_has(s, (#[trigger] rest[i]).address)
            && scan_entry(s, rest[i].address) == scan_entry(p, rest[i].address) && rest[i].address
            != last.address by {
            let a = rest[i].address;
            let k = choose|k: int| 0 <= k < p.len() && (#[trigger] p[k]).address == a;
            assert(s[k] == p[k]);
            lemma_scan_entry(s, k);
            lemma_scan_entry(p, k);
            assert(s[k].address != s[s.len() - 1].address);
        }
        lemma_scan_entry(s, s.len() - 1);
        assert forall|i: int| 0 <= i < all.len() implies {
            let d = #[trigger] all[i];
            &&& d.state is Free
            &&& d.online
            &&& !has_device(t, d.address)
            &&& scan_has(s, d.address)
            &&& d == newcomer(scan_entry(s, d.address))
        } by {
            if i < rest.len() {
                assert(all[i] == rest[i]);
            }
        }
        assert forall|i: int, j: int| 0 <= i < j < all.len() implies (#[trigger] all[i]).address
            != (#[trigger] all[j]).address by {
            if j < rest.len() {
                assert(rest[i].address != rest[j].address);
            } else {
                assert(all[i] == rest[i]);
            }
        }
        assert forall|k: int|
            0 <= k < s.len() && !has_device(t, (#[trigger] s[k]).address) implies has_device(
            all,
            s[k].address,
        ) by {
            if k < p.len() {
                assert(p[k] == s[k]);
                let i = index_of(rest, p[k].address);
                assert(all[i].address == s[k].address);
            } else {
                assert(all[all.len() - 1].address == s[k].address);
            }
        }
    }
}

/// A usable scan keeps the table's invariant.
pub proof fn lemma_merged_wf(t: DeviceTable, s: Scan)
    requires
        devices_wf(t),
        distinct_scan(s),
    ensures
        devices_wf(merged(t, s)),
{
    let m = merged(t, s);
    let nc = newcomers(t, s);
    lemma_newcomers(t, s);
    assert forall|i: int, j: int| 0 <= i < j < m.len() implies (#[trigger] m[i]).address != (
    #[trigger] m[j]).address by {
        if j < t.len() {
            assert(t[i].address != t[j].address);
        } else if i < t.len() {
            assert(m[j] == nc[j - t.len()]);
            assert(m[i].address == t[i].address);
        } else {
            assert(m[i] == nc[i - t.len()]);
            assert(m[j] == nc[j - t.len()]);
        }
    }
    assert forall|i: int, j: int|
        0 <= i < m.len() && 0 <= j < m.len() && (#[trigger] m[i]).iommu_group == (
        #[trigger] m[j]).iommu_group && m[i].state.owner() is Some && m[j].state.owner()
            is Some implies m[i].state.owner() == m[j].state.owner() by {
        if i >= t.len() {
            assert(m[i] == nc[i - t.len()]);
        }
        if j >= t.len() {
            assert(m[j] == nc[j - t.len()]);
        }
        assert(m[i] == refreshed(t[i], s));
        assert(m[j] == refreshed(t[j], s));
        assert(t[i].iommu_group == t[j].iommu_group);
    }
}

fn scan_find(scan: &Vec<DiscoveredGpu>, a: PciAddress) -> (r: Option<usize>)
    ensures
        match r {
            Some(k) => k < scan@.len() && scan@[k as int].address == a,
            None => !scan_has(scan_views(scan@), a),
        },
{
    let mut k: usize = 0;
    while k < scan.len()
        invariant
            k <= scan.len(),
            forall|j: int| 0 <= j < k ==> (#[trigger] scan_views(scan@)[j]).address != a,
        decreases scan.len() - k,
    {
        if scan[k].address == a {
            return Some(k);
        }
        assert(scan_views(scan@)[k as int].address != a);
        k = k + 1;
    }
    None
}

/// Whether the scan reports no address twice.
pub fn scan_is_distinct(scan: &Vec<DiscoveredGpu>) -> (ok: bool)
    ensures
        ok == distinct_scan(scan_views(scan@)),
{
    let ghost s = scan_views(scan@);
    let mut j: usize = 0;
    while j < scan.len()
        invariant
            j <= scan.len(),
            s == scan_views(scan@),
            forall|a: int, b: int|
                0 <= a < b < j ==> (#[trigger] s[a]).address != (#[trigger] s[b]).address,
        decreases scan.len() - j,
    {
        let mut i: usize = 0;
        while i < j
            invariant
                i <= j < scan.len(),
                s == scan_views(scan@),
                forall|a: int| 0 <= a < i ==> (#[trigger] s[a]).address != s[j as int].address,
            decreases j - i,
        {
            if scan[i].address == scan[j].address {
                assert(s[i as int].address == s[j as int].address);
                return false;
            }
            i = i + 1;
        }
        j = j + 1;
    }
    true
}

fn known_address(devices: &Vec<GpuDevice>, a: PciAddress) -> (b: bool)
    ensures
        b == has_device(gpu_views(devices@), a),
{
    let mut i: usize = 0;
    while i < devices.len()
        invariant
            i <= devices.len(),
            forall|k: int| 0 <= k < i ==> (#[trigger] gpu_views(devices@)[k]).address != a,
        decreases devices.len() - i,
    {
        if devices[i].address == a {
            assert(gpu_views(devices@)[i as int].address == a);
            return true;
        }
        i = i + 1;
    }
    false
}

fn collect_newcomers(devices: &Vec<GpuDevice>, scan: &Vec<DiscoveredGpu>) -> (fresh: Vec<GpuDevice>)
    ensures
        gpu_views(fresh@) == newcomers(gpu_views(devices@), scan_views(scan@)),
{
    let ghost t = gpu_views(devices@);
    let ghost s = scan_views(scan@);
    let mut fresh: Vec<GpuDevice> = Vec::new();
    let mut k: usize = 0;
    assert(s.take(0) =~= Seq::<DiscoveredView>::empty());
    assert(gpu_views(fresh@) =~= Seq::<GpuView>::empty());
    while k < scan.len()
        invariant
            k <= scan.len(),
            t == gpu_views(devices@),
            s == scan_views(scan@),
            gpu_views(fresh@) == newcomers(t, s.take(k as int)),
        decreases scan.len() - k,
    {
        let ghost before = fresh@;
        proof {
            assert(s.take(k + 1).drop_last() =~= s.take(k as int));
            assert(s.take(k + 1).last() == s[k as int]);
        }
        if !known_address(devices, scan[k].address) {
            let d = GpuDevice {
                address: scan[k].address,
                iommu_group: scan[k].iommu_group,
                model: scan[k].model.clone(),
                driver: scan[k].driver.clone(),
                state: ReservationState::Free,
                online: true,
            };
            assert(d@ == newcomer(s[k as int]));
            fresh.push(d);
            assert(gpu_views(fresh@) =~= gpu_views(before).push(newcomer(s[k as int])));
        }
        k = k + 1;
    }
    assert(s.take(k as int) =~= s);
    fresh
}

fn refresh_known(devices: &mut Vec<GpuDevice>, scan: &Vec<DiscoveredGpu>)
    requires
        distinct_scan(scan_views(scan@)),
    ensures
        gpu_views(final(devices)@) == gpu_views(old(devices)@).map_values(
            |d: GpuView| refreshed(d, scan_views(scan@)),
        ),
{
    let ghost t = gpu_views(devices@);
    let ghost s = scan_views(scan@);
    let mut i: usize = 0;
    while i < devices.len()
        invariant
            i <= devices.len(),
            devices@.len() == t.len(),
            s == scan_views(scan@),
            distinct_scan(s),
            forall|k: int| 0 <= k < i ==> #[trigger] gpu_views(devices@)[k] == refreshed(t[k], s),
            forall|k: int| i <= k < t.len() ==> #[trigger] gpu_views(devices@)[k] == t[k],
        decreases devices.len() - i,
    {
        let ghost before = devices@;
        let ghost shown = gpu_views(devices@);
        assert(shown[i as int] == t[i as int]);
        assert(shown[i as int] == before[i as int]@);
        match scan_find(scan, devices[i].address) {
            Some(k) => {
                proof {
                    assert(s[k as int] == scan@[k as int]@);
                    lemma_scan_entry(s, k as int);
                }
                let free: bool = match devices[i].state {
                    ReservationState::Free => true,
                    _ => false,
                };
                if free {
                    let group: u32 = scan[k].iommu_group;
                    let model = scan[k].model.clone();
                    let driver = scan[k].driver.clone();
                    devices[i].iommu_group = group;
                    devices[i].model = model;
                    devices[i].driver = driver;
                }
                devices[i].online = true;
            },
            None => {
                devices[i].online = false;
            },
        }
        assert(devices@.len() == before.len());
        assert(devices@[i as int]@ == refreshed(t[i as int], s));
        assert forall|k: int| 0 <= k < before.len() && k != i implies #[trigger] gpu_views(
            devices@,
        )[k] == shown[k] by {
            assert(devices@[k] == before[k]);
        }
        i = i + 1;
    }
    assert(gpu_views(devices@) =~= t.map_values(|d: GpuView| refreshed(d, s)));
}

/// Merges a usable scan into a list of devices; see [`merged`].
pub(crate) fn merge_scan(devices: &mut Vec<GpuDevice>, found: &Vec<DiscoveredGpu>)
    requires
        distinct_scan(scan_views(found@)),
    ensures
        gpu_views(final(devices)@) == merged(gpu_views(old(devices)@), scan_views(found@)),
{
    let mut fresh = collect_newcomers(devices, found);
    let ghost added = gpu_views(fresh@);
    refresh_known(devices, found);
    let ghost kept = gpu_views(devices@);
    devices.append(&mut fresh);
    assert(gpu_views(devices@) =~= kept + added);
}

} // verus!
