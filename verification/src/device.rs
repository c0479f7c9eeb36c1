//! GPU devices, their reservation state and the table that holds them.

use vstd::prelude::*;
use crate::pci::PciAddress;
use crate::vm::VmId;

verus! {

/// The claim that a VM has on a device.
#[derive(Clone, Copy, Debug, PartialEq, Eq, Hash, Structural)]
pub enum ReservationState {
    Free,
    /// Claimed for a VM while the passthrough is being set up.
    Reserved(VmId),
    /// Passed through to a VM.
    Attached(VmId),
}

impl ReservationState {
    /// The VM that claims the device, if any.
    pub open spec fn owner(self) -> Option<VmId> {
        match self {
            ReservationState::Free => None,
            ReservationState::Reserved(vm) => Some(vm),
            ReservationState::Attached(vm) => Some(vm),
        }
    }

    /// Whether `vm` may claim the device: it is free, or `vm`'s already.
    pub open spec fn available_to(self, vm: VmId) -> bool {
        self is Free || self.owner() == Some(vm)
    }

    #[verifier::when_used_as_spec(owner)]
    pub fn owner_id(self) -> (o: Option<VmId>)
        ensures
            o == self.owner(),
    {
        match self {
            ReservationState::Free => None,
            ReservationState::Reserved(vm) => Some(vm),
            ReservationState::Attached(vm) => Some(vm),
        }
    }

    #[verifier::when_used_as_spec(available_to)]
    pub fn is_available_to(self, vm: VmId) -> (b: bool)
        ensures
            b == self.available_to(vm),
    {
        match self {
            ReservationState::Free => true,
            ReservationState::Reserved(o) => o == vm,
            ReservationState::Attached(o) => o == vm,
        }
    }
}

/// A physical GPU as the reservation manager knows it.
#[derive(Clone, Debug, PartialEq, Eq)]
pub struct GpuDevice {
    pub address: PciAddress,
    pub iommu_group: u32,
    /// Vendor and model, as the host reports them.
    pub model: String,
    /// The host driver that the device is bound to when no VM holds it.
    pub driver: String,
    pub state: ReservationState,
    /// Whether the last scan of the host found the device.
    pub online: bool,
}

/// The mathematical content of a [`GpuDevice`].
pub struct GpuView {
    pub address: PciAddress,
    pub iommu_group: u32,
    pub model: Seq<char>,
    pub driver: Seq<char>,
    pub state: ReservationState,
    pub online: bool,
}

impl View for GpuDevice {
    type V = GpuView;

    open spec fn view(&self) -> GpuView {
        GpuView {
            address: self.address,
            iommu_group: self.iommu_group,
            model: self.model@,
            driver: self.driver@,
            state: self.state,
            online: self.online,
        }
    }
}

/// The device in another reservation state.
pub open spec fn with_state(d: GpuView, state: ReservationState) -> GpuView {
    GpuView { state, ..d }
}

impl GpuDevice {
    /// An independent copy of the record.
    pub fn snapshot(&self) -> (copy: GpuDevice)
        ensures
            copy@ == self@,
    {
        GpuDevice {
            address: self.address,
            iommu_group: self.iommu_group,
            model: self.model.clone(),
            driver: self.driver.clone(),
            state: self.state,
            online: self.online,
        }
    }
}

/// A device as one scan of the host reports it.
#[derive(Clone, Debug, PartialEq, Eq)]
pub struct DiscoveredGpu {
    pub address: PciAddress,
    pub iommu_group: u32,
    pub model: String,
    pub driver: String,
}

/// The mathematical content of a [`DiscoveredGpu`].
pub struct DiscoveredView {
    pub address: PciAddress,
    pub iommu_group: u32,
    pub model: Seq<char>,
    pub driver: Seq<char>,
}

impl View for DiscoveredGpu {
    type V = DiscoveredView;

    open spec fn view(&self) -> DiscoveredView {
        DiscoveredView {
            address: self.address,
            iommu_group: self.iommu_group,
            model: self.model@,
            driver: self.driver@,
        }
    }
}

/// The device table: devices in the order of their discovery.
pub type DeviceTable = Seq<GpuView>;

/// Which devices of the table an operation bears on.
#[derive(Clone, Copy, Debug, PartialEq, Eq, Structural)]
pub enum Selection {
    /// Every member of an IOMMU group.
    Group(u32),
    /// The members of an IOMMU group that are in the given state.
    GroupInState(u32, ReservationState),
    /// Every device in the given state.
    InState(ReservationState),
}

impl Selection {
    /// Whether the selection includes a device of this group and state.
    pub open spec fn covers(self, group: u32, state: ReservationState) -> bool {
        match self {
            Selection::Group(g) => group == g,
            Selection::GroupInState(g, s) => group == g && state == s,
            Selection::InState(s) => state == s,
        }
    }

    /// Whether the selection includes the device.
    pub open spec fn selects(self, d: GpuView) -> bool {
        self.covers(d.iommu_group, d.state)
    }

    #[verifier::when_used_as_spec(covers)]
    pub fn includes(self, group: u32, state: ReservationState) -> (b: bool)
        ensures
            b == self.covers(group, state),
    {
        match self {
            Selection::Group(g) => group == g,
            Selection::GroupInState(g, s) => group == g && state == s,
            Selection::InState(s) => state == s,
        }
    }
}

/// Whether the table holds a device with this address.
pub open spec fn has_device(t: DeviceTable, a: PciAddress) -> bool {
    exists|i: int| 0 <= i < t.len() && (#[trigger] t[i]).address == a
}

/// The index of the device with this address.
pub open spec fn index_of(t: DeviceTable, a: PciAddress) -> int
    recommends
        has_device(t, a),
{
    choose|i: int| 0 <= i < t.len() && (#[trigger] t[i]).address == a
}

/// The device with this address.
pub open spec fn device(t: DeviceTable, a: PciAddress) -> GpuView
    recommends
        has_device(t, a),
{
    t[index_of(t, a)]
}

/// No address occurs twice.
pub open spec fn distinct_addresses(t: DeviceTable) -> bool {
    forall|i: int, j: int|
        0 <= i < j < t.len() ==> (#[trigger] t[i]).address != (#[trigger] t[j]).address
}

/// No IOMMU group is split between two VMs: whenever two devices of one
/// group are both claimed, they are claimed by the same VM.
pub open spec fn groups_intact(t: DeviceTable) -> bool {
    forall|i: int, j: int|
        0 <= i < t.len() && 0 <= j < t.len() && (#[trigger] t[i]).iommu_group == (
        #[trigger] t[j]).iommu_group && t[i].state.owner() is Some && t[j].state.owner() is Some
            ==> t[i].state.owner() == t[j].state.owner()
}

/// Every IOMMU group is of one mind: all its devices are in the same
/// reservation state, so all are free or all are claimed by one VM.
///
/// Attach and detach move a group as a whole and so keep this. A scan keeps
/// it unless the host reports a free device inside a group that a VM holds;
/// such a device is still recorded, and [`groups_intact`] still holds.
pub open spec fn groups_uniform(t: DeviceTable) -> bool {
    forall|i: int, j: int|
        0 <= i < t.len() && 0 <= j < t.len() && (#[trigger] t[i]).iommu_group == (
        #[trigger] t[j]).iommu_group ==> t[i].state == t[j].state
}

/// The invariant of the device table.
pub open spec fn devices_wf(t: DeviceTable) -> bool {
    distinct_addresses(t) && groups_intact(t)
}

/// Whether every member of the group is free.
pub open spec fn group_free(t: DeviceTable, group: u32) -> bool {
    forall|i: int| 0 <= i < t.len() && (#[trigger] t[i]).iommu_group == group ==> t[i].state is Free
}

/// Whether `vm` may claim the whole group: no member is claimed by another VM.
pub open spec fn group_available(t: DeviceTable, group: u32, vm: VmId) -> bool {
    forall|i: int|
        0 <= i < t.len() && (#[trigger] t[i]).iommu_group == group ==> t[i].state.available_to(vm)
}

/// The table with every selected device moved to `state`.
pub open spec fn relabelled(
    t: DeviceTable,
    sel: Selection,
    state: ReservationState,
) -> DeviceTable {
    t.map_values(
        |d: GpuView|
            if sel.selects(d) {
                with_state(d, state)
            } else {
                d
            },
    )
}

/// The addresses of the selected devices, in table order.
pub open spec fn addresses_of(t: DeviceTable, sel: Selection) -> Seq<PciAddress>
    decreases t.len(),
{
    if t.len() == 0 {
        Seq::empty()
    } else {
        let rest = addresses_of(t.drop_last(), sel);
        if sel.selects(t.last()) {
            rest.push(t.last().address)
        } else {
            rest
        }
    }
}

/// The views of a list of devices.
pub open spec fn gpu_views(v: Seq<GpuDevice>) -> DeviceTable {
    v.map_values(|d: GpuDevice| d@)
}

/// In a table without repeated addresses a device is found at one index only.
pub proof fn lemma_index_unique(t: DeviceTable, i: int)
    requires
        distinct_addresses(t),
        0 <= i < t.len(),
    ensures
        has_device(t, t[i].address),
        index_of(t, t[i].address) == i,
        device(t, t[i].address) == t[i],
{
    let a = t[i].address;
    let j = index_of(t, a);
    assert(0 <= j < t.len() && t[j].address == a);
    if j < i {
        assert(t[j].address != t[i].address);
    } else if i < j {
        assert(t[i].address != t[j].address);
    }
}

/// Moving devices to another state changes nothing else about the table.
pub proof fn lemma_relabelled_frame(t: DeviceTable, sel: Selection, state: ReservationState)
    ensures
        relabelled(t, sel, state).len() == t.len(),
        forall|i: int|
            0 <= i < t.len() ==> {
                let d = #[trigger] relabelled(t, sel, state)[i];
                &&& d.address == t[i].address
                &&& d.iommu_group == t[i].iommu_group
                &&& d.model == t[i].model
                &&& d.driver == t[i].driver
                &&& d.online == t[i].online
                &&& d.state == if sel.selects(t[i]) {
                    state
                } else {
                    t[i].state
                }
            },
        distinct_addresses(t) ==> distinct_addresses(relabelled(t, sel, state)),
        forall|a: PciAddress| has_device(t, a) == has_device(relabelled(t, sel, state), a),
{
    let u = relabelled(t, sel, state);
    assert forall|a: PciAddress| has_device(t, a) == has_device(u, a) by {
        if has_device(t, a) {
            let i = index_of(t, a);
            assert(u[i].address == a);
        }
        if has_device(u, a) {
            let i = index_of(u, a);
            assert(t[i].address == a);
        }
    }
    if distinct_addresses(t) {
        assert forall|i: int, j: int| 0 <= i < j < u.len() implies (#[trigger] u[i]).address != (
        #[trigger] u[j]).address by {
            assert(t[i].address != t[j].address);
        }
    }
}

/// Releasing devices never splits a group.
pub proof fn lemma_release_wf(t: DeviceTable, sel: Selection)
    requires
        devices_wf(t),
    ensures
        devices_wf(relabelled(t, sel, ReservationState::Free)),
{
    let u = relabelled(t, sel, ReservationState::Free);
    lemma_relabelled_frame(t, sel, ReservationState::Free);
    assert forall|i: int, j: int|
        0 <= i < u.len() && 0 <= j < u.len() && (#[trigger] u[i]).iommu_group == (
        #[trigger] u[j]).iommu_group && u[i].state.owner() is Some && u[j].state.owner()
            is Some implies u[i].state.owner() == u[j].state.owner() by {
        assert(t[i].iommu_group == t[j].iommu_group);
        assert(u[i].state == t[i].state);
        assert(u[j].state == t[j].state);
    }
}

/// Claiming a whole group for a VM, when no member is another VM's, never
/// splits a group.
pub proof fn lemma_reserve_wf(t: DeviceTable, group: u32, vm: VmId)
    requires
        devices_wf(t),
        group_available(t, group, vm),
    ensures
        devices_wf(relabelled(t, Selection::Group(group), ReservationState::Reserved(vm))),
{
    let sel = Selection::Group(group);
    let u = relabelled(t, sel, ReservationState::Reserved(vm));
    lemma_relabelled_frame(t, sel, ReservationState::Reserved(vm));
    assert forall|i: int, j: int|
        0 <= i < u.len() && 0 <= j < u.len() && (#[trigger] u[i]).iommu_group == (
        #[trigger] u[j]).iommu_group && u[i].state.owner() is Some && u[j].state.owner()
            is Some implies u[i].state.owner() == u[j].state.owner() by {
        assert(t[i].iommu_group == t[j].iommu_group);
        if t[i].iommu_group != group {
            assert(u[i].state == t[i].state);
            assert(u[j].state == t[j].state);
        }
    }
}

/// Turning a VM's reservations in a group into attachments never splits a group.
pub proof fn lemma_commit_wf(t: DeviceTable, group: u32, vm: VmId)
    requires
        devices_wf(t),
    ensures
        devices_wf(
            relabelled(
                t,
                Selection::GroupInState(group, ReservationState::Reserved(vm)),
                ReservationState::Attached(vm),
            ),
        ),
{
    let sel = Selection::GroupInState(group, ReservationState::Reserved(vm));
    let u = relabelled(t, sel, ReservationState::Attached(vm));
    lemma_relabelled_frame(t, sel, ReservationState::Attached(vm));
    assert forall|i: int, j: int|
        0 <= i < u.len() && 0 <= j < u.len() && (#[trigger] u[i]).iommu_group == (
        #[trigger] u[j]).iommu_group && u[i].state.owner() is Some && u[j].state.owner()
            is Some implies u[i].state.owner() == u[j].state.owner() by {
        assert(t[i].iommu_group == t[j].iommu_group);
        assert(u[i].state.owner() == t[i].state.owner());
        assert(u[j].state.owner() == t[j].state.owner());
    }
}

} // verus!
