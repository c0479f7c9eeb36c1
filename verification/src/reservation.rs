//! The GPU reservation manager: group-consistent attach and detach.
//!
//! Drivers and domains are not touched from here. An attach claims a whole
//! IOMMU group and says which devices are to be switched to the passthrough
//! driver; `finish_attach` takes what became of that and either commits the
//! group to the VM or frees it again, saying which devices have to be given
//! back to their host driver. Detaching works the same way. An attach begins
//! in the orchestrator, because it is a VM that a group is claimed for.

use vstd::prelude::*;
use crate::device::{
    addresses_of, device, devices_wf, gpu_views, group_available, has_device, lemma_commit_wf,
    lemma_index_unique, lemma_release_wf, lemma_reserve_wf, relabelled, with_state, DeviceTable,
    DiscoveredGpu, GpuDevice, GpuView, ReservationState, Selection,
};
use crate::errors::{DegradedResourceWarning, GpuShareError};
use crate::inventory::{
    distinct_scan, lemma_merged_wf, merge_scan, merged, scan_is_distinct, scan_views,
};
use crate::pci::PciAddress;
use crate::vm::VmId;

verus! {

/// The devices of one IOMMU group that an operation is about to switch.
#[derive(Clone, Debug, PartialEq, Eq)]
pub struct GroupPlan {
    pub group: u32,
    /// The devices to switch, in table order.
    pub devices: Vec<PciAddress>,
}

/// What became of an attach after the group was reserved.
#[derive(Clone, Copy, Debug, PartialEq, Eq, Structural)]
pub enum AttachOutcome {
    /// Every device is bound to the passthrough driver and the domain has
    /// the device descriptor.
    Attached,
    /// Binding failed after `switched` devices of the plan had been switched.
    BindFailed { switched: usize, code: i32 },
    /// Every device was switched, but the domain refused the descriptor.
    DescriptorFailed { code: i32 },
}

/// How a finished attach ended, and what is left to undo.
#[derive(Debug, PartialEq, Eq)]
pub struct AttachResolution {
    pub result: Result<(), GpuShareError>,
    /// The devices to bind to their host driver again, in table order.
    pub rebind: Vec<PciAddress>,
}

/// What became of a detach.
#[derive(Clone, Copy, Debug, PartialEq, Eq, Structural)]
pub enum DetachOutcome {
    /// The descriptor is gone from the domain; `restored` says whether every
    /// device could be bound to its host driver again.
    Released { restored: bool },
    /// The domain kept the descriptor.
    DescriptorFailed { code: i32 },
}

/// What a completed detach reports.
#[derive(Clone, Debug, PartialEq, Eq)]
pub struct DetachReport {
    /// The devices that are free again, in table order.
    pub released: Vec<PciAddress>,
    pub warning: Option<DegradedResourceWarning>,
}

/// Why an attach is refused, if it is: an unknown or absent device first, a
/// group member claimed by another VM second.
pub open spec fn attach_refusal(t: DeviceTable, vm: VmId, a: PciAddress) -> Option<GpuShareError> {
    if !has_device(t, a) || !device(t, a).online {
        Some(GpuShareError::NotFoundError)
    } else if !group_available(t, device(t, a).iommu_group, vm) {
        Some(GpuShareError::ResourceConflictError)
    } else {
        None
    }
}

/// The table after an attach was accepted: the whole group reserved for `vm`.
pub open spec fn after_reserve(t: DeviceTable, vm: VmId, a: PciAddress) -> DeviceTable
    recommends
        has_device(t, a),
{
    relabelled(t, Selection::Group(device(t, a).iommu_group), ReservationState::Reserved(vm))
}

/// The devices that an accepted attach switches: every member of the group.
pub open spec fn attach_plan(t: DeviceTable, a: PciAddress) -> Seq<PciAddress>
    recommends
        has_device(t, a),
{
    addresses_of(t, Selection::Group(device(t, a).iommu_group))
}

/// Why there is nothing to finish, if so: an unknown device, or one that is
/// not reserved for `vm`.
pub open spec fn pending_refusal(t: DeviceTable, vm: VmId, a: PciAddress) -> Option<GpuShareError> {
    if !has_device(t, a) {
        Some(GpuShareError::NotFoundError)
    } else if device(t, a).state != ReservationState::Reserved(vm) {
        Some(GpuShareError::InvalidStateError)
    } else {
        None
    }
}

/// The members of `a`'s group that are reserved for `vm`.
pub open spec fn reserved_selection(t: DeviceTable, vm: VmId, a: PciAddress) -> Selection
    recommends
        has_device(t, a),
{
    Selection::GroupInState(device(t, a).iommu_group, ReservationState::Reserved(vm))
}

/// The members of `a`'s group that are attached to `vm`.
pub open spec fn attached_selection(t: DeviceTable, vm: VmId, a: PciAddress) -> Selection
    recommends
        has_device(t, a),
{
    Selection::GroupInState(device(t, a).iommu_group, ReservationState::Attached(vm))
}

/// The table after an attach was reported: unchanged if nothing is pending,
/// else with the reserved members of the group attached on success and free
/// on any failure.
pub open spec fn after_attach(
    t: DeviceTable,
    vm: VmId,
    a: PciAddress,
    outcome: AttachOutcome,
) -> DeviceTable {
    if pending_refusal(t, vm, a) is Some {
        t
    } else if outcome is Attached {
        relabelled(t, reserved_selection(t, vm, a), ReservationState::Attached(vm))
    } else {
        relabelled(t, reserved_selection(t, vm, a), ReservationState::Free)
    }
}

/// The devices to give back to their host driver after an attach was
/// reported: none if nothing is pending or the attach succeeded, those
/// already switched when binding failed, all of them when the domain
/// refused the descriptor.
pub open spec fn rebind_list(
    t: DeviceTable,
    vm: VmId,
    a: PciAddress,
    outcome: AttachOutcome,
) -> Seq<PciAddress> {
    let reserved = addresses_of(t, reserved_selection(t, vm, a));
    match (pending_refusal(t, vm, a), outcome) {
        (Some(_), _) => Seq::empty(),
        (None, AttachOutcome::Attached) => Seq::empty(),
        (None, AttachOutcome::BindFailed { switched, code }) => if switched <= reserved.len() {
            reserved.subrange(0, switched as int)
        } else {
            reserved
        },
        (None, AttachOutcome::DescriptorFailed { code }) => reserved,
    }
}

/// Why a reported attach fails, if it does: the refusal if nothing is
/// pending, else the failure of the drivers or of the hypervisor.
pub open spec fn attach_error(
    t: DeviceTable,
    vm: VmId,
    a: PciAddress,
    outcome: AttachOutcome,
) -> Option<GpuShareError> {
    match (pending_refusal(t, vm, a), outcome) {
        (Some(e), _) => Some(e),
        (None, AttachOutcome::Attached) => None,
        (None, AttachOutcome::BindFailed { switched, code }) => Some(
            GpuShareError::HypervisorError(code),
        ),
        (None, AttachOutcome::DescriptorFailed { code }) => Some(
            GpuShareError::HypervisorError(code),
        ),
    }
}

/// Why a detach is refused, if it is: the device is unknown or not attached
/// to `vm`.
pub open spec fn detach_refusal(t: DeviceTable, vm: VmId, a: PciAddress) -> Option<GpuShareError> {
    if !has_device(t, a) || device(t, a).state != ReservationState::Attached(vm) {
        Some(GpuShareError::NotFoundError)
    } else {
        None
    }
}

/// The devices that a detach releases: the members of the group that are
/// attached to `vm`.
pub open spec fn detach_plan(t: DeviceTable, vm: VmId, a: PciAddress) -> Seq<PciAddress>
    recommends
        has_device(t, a),
{
    addresses_of(t, attached_selection(t, vm, a))
}

/// The table after a detach was reported: unchanged if the detach is
/// refused or the domain kept the descriptor, else with the group's attached
/// members free.
pub open spec fn after_detach(
    t: DeviceTable,
    vm: VmId,
    a: PciAddress,
    outcome: DetachOutcome,
) -> DeviceTable {
    if detach_refusal(t, vm, a) is None && outcome is Released {
        relabelled(t, attached_selection(t, vm, a), ReservationState::Free)
    } else {
        t
    }
}

/// Why a reported detach fails, if it does: the refusal if it is refused,
/// the hypervisor's failure if the domain kept the descriptor.
pub open spec fn detach_error(
    t: DeviceTable,
    vm: VmId,
    a: PciAddress,
    outcome: DetachOutcome,
) -> Option<GpuShareError> {
    match (detach_refusal(t, vm, a), outcome) {
        (Some(e), _) => Some(e),
        (None, DetachOutcome::DescriptorFailed { code }) => Some(
            GpuShareError::HypervisorError(code),
        ),
        (None, DetachOutcome::Released { restored }) => None,
    }
}

/// The warning that a completed detach carries: none if every device went
/// back to its host driver.
pub open spec fn detach_warning(outcome: DetachOutcome) -> Option<DegradedResourceWarning> {
    match outcome {
        DetachOutcome::Released { restored: false } => Some(
            DegradedResourceWarning::DriverNotRestored,
        ),
        _ => None,
    }
}

/// Why a scan is refused, if it is: the host's metadata could not be read,
/// or it reports an address twice.
pub open spec fn scan_refusal(scan: Option<Vec<DiscoveredGpu>>) -> Option<GpuShareError> {
    match scan {
        Some(found) if distinct_scan(scan_views(found@)) => None,
        _ => Some(GpuShareError::DeviceDiscoveryError),
    }
}

/// Whether some device is claimed, reserved or attached, by `vm`.
pub open spec fn claims_any(t: DeviceTable, vm: VmId) -> bool {
    exists|i: int| 0 <= i < t.len() && (#[trigger] t[i]).state.owner() == Some(vm)
}

fn find(devices: &Vec<GpuDevice>, a: PciAddress) -> (r: Option<usize>)
    ensures
        match r {
            Some(i) => i < devices@.len() && gpu_views(devices@)[i as int].address == a,
            None => !has_device(gpu_views(devices@), a),
        },
{
    let ghost t = gpu_views(devices@);
    let mut i: usize = 0;
    while i < devices.len()
        invariant
            i <= devices.len(),
            t == gpu_views(devices@),
            forall|k: int| 0 <= k < i ==> (#[trigger] t[k]).address != a,
        decreases devices.len() - i,
    {
        if devices[i].address == a {
            assert(t[i as int].address == a);
            return Some(i);
        }
        i = i + 1;
    }
    None
}

fn relabel(devices: &mut Vec<GpuDevice>, sel: Selection, state: ReservationState)
    ensures
        gpu_views(final(devices)@) == relabelled(gpu_views(old(devices)@), sel, state),
{
    let ghost t = gpu_views(devices@);
    let mut i: usize = 0;
    while i < devices.len()
        invariant
            i <= devices.len(),
            devices@.len() == t.len(),
            forall|k: int|
                0 <= k < i ==> #[trigger] gpu_views(devices@)[k] == relabelled(t, sel, state)[k],
            forall|k: int| i <= k < t.len() ==> #[trigger] gpu_views(devices@)[k] == t[k],
        decreases devices.len() - i,
    {
        let ghost before = devices@;
        let ghost shown = gpu_views(devices@);
        assert(shown[i as int] == t[i as int]);
        assert(shown[i as int] == before[i as int]@);
        if sel.includes(devices[i].iommu_group, devices[i].state) {
            devices[i].state = state;
            assert(devices@[i as int]@ == with_state(before[i as int]@, state));
        }
        assert(devices@.len() == before.len());
        assert forall|k: int| 0 <= k < before.len() && k != i implies #[trigger] gpu_views(
            devices@,
        )[k] == shown[k] by {
            assert(devices@[k] == before[k]);
        }
        assert(gpu_views(devices@)[i as int] == relabelled(t, sel, state)[i as int]);
        i = i + 1;
    }
    assert(gpu_views(devices@) =~= relabelled(t, sel, state));
}

fn addresses(devices: &Vec<GpuDevice>, sel: Selection) -> (list: Vec<PciAddress>)
    ensures
        list@ == addresses_of(gpu_views(devices@), sel),
{
    let ghost t = gpu_views(devices@);
    let mut list: Vec<PciAddress> = Vec::new();
    let mut i: usize = 0;
    assert(t.take(0) =~= Seq::<GpuView>::empty());
    while i < devices.len()
        invariant
            i <= devices.len(),
            t == gpu_views(devices@),
            list@ == addresses_of(t.take(i as int), sel),
        decreases devices.len() - i,
    {
        proof {
            assert(t.take(i + 1).drop_last() =~= t.take(i as int));
            assert(t.take(i + 1).last() == t[i as int]);
        }
        if sel.includes(devices[i].iommu_group, devices[i].state) {
            list.push(devices[i].address);
        }
        i = i + 1;
    }
    assert(t.take(i as int) =~= t);
    list
}

fn group_free_for(devices: &Vec<GpuDevice>, group: u32, vm: VmId) -> (ok: bool)
    ensures
        ok == group_available(gpu_views(devices@), group, vm),
{
    let ghost t = gpu_views(devices@);
    let mut i: usize = 0;
    while i < devices.len()
        invariant
            i <= devices.len(),
            t == gpu_views(devices@),
            forall|k: int|
                0 <= k < i && (#[trigger] t[k]).iommu_group == group ==> t[k].state.available_to(
                    vm,
                ),
        decreases devices.len() - i,
    {
        if devices[i].iommu_group == group && !devices[i].state.is_available_to(vm) {
            assert(t[i as int].iommu_group == group);
            return false;
        }
        i = i + 1;
    }
    true
}

fn snapshots(devices: &Vec<GpuDevice>) -> (list: Vec<GpuDevice>)
    ensures
        gpu_views(list@) == gpu_views(devices@),
{
    let mut list: Vec<GpuDevice> = Vec::new();
    let mut i: usize = 0;
    while i < devices.len()
        invariant
            i <= devices.len(),
            list@.len() == i,
            forall|k: int| 0 <= k < i ==> (#[trigger] list@[k])@ == devices@[k]@,
        decreases devices.len() - i,
    {
        list.push(devices[i].snapshot());
        i = i + 1;
    }
    assert(gpu_views(list@) =~= gpu_views(devices@));
    list
}

/// The reservation manager: owner of the device table.
///
/// The table's invariant, [`devices_wf`], holds of every manager at all
/// times: no operation asks for it, and every operation keeps it.
pub struct ReservationManager {
    devices: Vec<GpuDevice>,
}

impl View for ReservationManager {
    type V = DeviceTable;

    closed spec fn view(&self) -> DeviceTable {
        gpu_views(self.devices@)
    }
}

impl ReservationManager {
    #[verifier::type_invariant]
    spec fn well_formed(self) -> bool {
        devices_wf(gpu_views(self.devices@))
    }

    /// The manager's invariant; see [`devices_wf`].
    pub open spec fn wf(&self) -> bool {
        devices_wf(self@)
    }

    /// A manager that knows no device yet.
    pub fn new() -> (m: ReservationManager)
        ensures
            m.wf(),
            m@ == Seq::<GpuView>::empty(),
    {
        let m = ReservationManager { devices: Vec::new() };
        assert(m@ =~= Seq::<GpuView>::empty());
        m
    }

    fn take_devices(&mut self) -> (devices: Vec<GpuDevice>)
        ensures
            devices == old(self).devices,
            final(self).devices@ == Seq::<GpuDevice>::empty(),
            devices_wf(gpu_views(devices@)),
    {
        proof {
            use_type_invariant(&*self);
        }
        let mut devices: Vec<GpuDevice> = Vec::new();
        assert(gpu_views(devices@) =~= Seq::<GpuView>::empty());
        std::mem::swap(&mut devices, &mut self.devices);
        devices
    }

    fn relabel_all(&mut self, sel: Selection, state: ReservationState)
        requires
            devices_wf(relabelled(old(self)@, sel, state)),
        ensures
            final(self).wf(),
            final(self)@ == relabelled(old(self)@, sel, state),
    {
        let mut devices = self.take_devices();
        relabel(&mut devices, sel, state);
        self.devices = devices;
    }

    /// The number of devices known. The manager is well formed, as it
    /// always is.
    pub fn len(&self) -> (n: usize)
        ensures
            n == self@.len(),
            self.wf(),
    {
        proof {
            use_type_invariant(self);
        }
        self.devices.len()
    }

    /// The IOMMU group of a device.
    pub fn get_iommu_group(&self, address: PciAddress) -> (res: Result<u32, GpuShareError>)
        ensures
            match res {
                Ok(group) => has_device(self@, address) && group == device(
                    self@,
                    address,
                ).iommu_group,
                Err(e) => !has_device(self@, address) && e == GpuShareError::NotFoundError,
            },
    {
        proof {
            use_type_invariant(self);
        }
        match find(&self.devices, address) {
            Some(i) => {
                proof {
                    lemma_index_unique(self@, i as int);
                }
                Ok(self.devices[i].iommu_group)
            },
            None => Err(GpuShareError::NotFoundError),
        }
    }

    /// A snapshot of one device.
    pub fn get(&self, address: PciAddress) -> (res: Result<GpuDevice, GpuShareError>)
        ensures
            match res {
                Ok(d) => has_device(self@, address) && d@ == device(self@, address),
                Err(e) => !has_device(self@, address) && e == GpuShareError::NotFoundError,
            },
    {
        proof {
            use_type_invariant(self);
        }
        match find(&self.devices, address) {
            Some(i) => {
                proof {
                    lemma_index_unique(self@, i as int);
                }
                Ok(self.devices[i].snapshot())
            },
            None => Err(GpuShareError::NotFoundError),
        }
    }

    /// Snapshots of all devices, in the order of their discovery.
    pub fn list(&self) -> (list: Vec<GpuDevice>)
        ensures
            gpu_views(list@) == self@,
    {
        snapshots(&self.devices)
    }

    /// Takes in a scan of the host and returns the devices now known, in
    /// table order.
    ///
    /// `None` stands for a host whose device or group metadata could not be
    /// read; a scan that reports an address twice is as unusable. Either is
    /// refused with `DeviceDiscoveryError` and changes nothing. A usable
    /// scan is merged as [`merged`] says: claims survive, free devices are
    /// refreshed, devices not found are marked absent, new ones are added.
    pub fn discover(&mut self, scan: Option<Vec<DiscoveredGpu>>) -> (res: Result<
        Vec<GpuDevice>,
        GpuShareError,
    >)
        ensures
            final(self).wf(),
            res.err() == scan_refusal(scan),
            res is Err ==> final(self)@ == old(self)@,
            res matches Ok(list) ==> final(self)@ == merged(old(self)@, scan_views(scan->Some_0@))
                && gpu_views(list@) == final(self)@,
    {
        proof {
            use_type_invariant(&*self);
        }
        let found: Vec<DiscoveredGpu> = match scan {
            Some(found) => found,
            None => {
                return Err(GpuShareError::DeviceDiscoveryError);
            },
        };
        if !scan_is_distinct(&found) {
            return Err(GpuShareError::DeviceDiscoveryError);
        }
        proof {
            lemma_merged_wf(self@, scan_views(found@));
        }
        let mut devices = self.take_devices();
        merge_scan(&mut devices, &found);
        let list = snapshots(&devices);
        self.devices = devices;
        Ok(list)
    }

    /// The members of an IOMMU group, in table order.
    pub fn group_members(&self, group: u32) -> (list: Vec<PciAddress>)
        ensures
            list@ == addresses_of(self@, Selection::Group(group)),
    {
        addresses(&self.devices, Selection::Group(group))
    }

    /// The devices attached to a VM, in table order.
    pub fn attached_to(&self, vm: VmId) -> (list: Vec<PciAddress>)
        ensures
            list@ == addresses_of(self@, Selection::InState(ReservationState::Attached(vm))),
    {
        addresses(&self.devices, Selection::InState(ReservationState::Attached(vm)))
    }

    /// The devices reserved for a VM by an attach that is not finished, in
    /// table order.
    pub fn reserved_for(&self, vm: VmId) -> (list: Vec<PciAddress>)
        ensures
            list@ == addresses_of(self@, Selection::InState(ReservationState::Reserved(vm))),
    {
        addresses(&self.devices, Selection::InState(ReservationState::Reserved(vm)))
    }

    /// Whether any device is reserved for or attached to a VM.
    pub fn claims_any(&self, vm: VmId) -> (b: bool)
        ensures
            b == claims_any(self@, vm),
    {
        let mut i: usize = 0;
        while i < self.devices.len()
            invariant
                i <= self.devices.len(),
                self@.len() == self.devices.len(),
                forall|k: int| 0 <= k < i ==> (#[trigger] self@[k]).state.owner() != Some(vm),
            decreases self.devices.len() - i,
        {
            match self.devices[i].state.owner_id() {
                Some(o) => {
                    if o == vm {
                        assert(self@[i as int].state.owner() == Some(vm));
                        return true;
                    }
                },
                None => {},
            }
            i = i + 1;
        }
        false
    }

    /// First half of attach: resolves the device's IOMMU group, checks that
    /// no member is claimed by another VM, and reserves every member for `vm`.
    ///
    /// The plan names the devices to release from their host driver and to
    /// bind to the passthrough driver. What became of that is reported to
    /// [`Self::finish_attach`]. On refusal no device changes state.
    ///
    /// This half knows nothing of VMs, and so is not for callers outside: an
    /// attach goes through the orchestrator, which sees to it that the VM
    /// exists and may take a device.
    pub(crate) fn begin_attach(&mut self, vm: VmId, address: PciAddress) -> (res: Result<
        GroupPlan,
        GpuShareError,
    >)
        ensures
            final(self).wf(),
            res.err() == attach_refusal(old(self)@, vm, address),
            res is Err ==> final(self)@ == old(self)@,
            res matches Ok(plan) ==> final(self)@ == after_reserve(old(self)@, vm, address)
                && plan.group == device(old(self)@, address).iommu_group
                && plan.devices@ == attach_plan(old(self)@, address),
    {
        proof {
            use_type_invariant(&*self);
        }
        let i: usize = match find(&self.devices, address) {
            Some(i) => i,
            None => {
                return Err(GpuShareError::NotFoundError);
            },
        };
        proof {
            lemma_index_unique(self@, i as int);
        }
        if !self.devices[i].online {
            return Err(GpuShareError::NotFoundError);
        }
        let group: u32 = self.devices[i].iommu_group;
        if !group_free_for(&self.devices, group, vm) {
            return Err(GpuShareError::ResourceConflictError);
        }
        let devices = addresses(&self.devices, Selection::Group(group));
        proof {
            lemma_reserve_wf(self@, group, vm);
        }
        self.relabel_all(Selection::Group(group), ReservationState::Reserved(vm));
        Ok(GroupPlan { group, devices })
    }

    /// Second half of attach: commits or rolls back the reservation.
    ///
    /// On `Attached` every reserved member of the group becomes
    /// `Attached(vm)`. On any failure every reserved member becomes `Free`,
    /// the failure is returned as `HypervisorError`, and `rebind` names the
    /// devices that were switched and have to be given back to their host
    /// driver. If nothing is reserved for `vm` on this device, nothing changes.
    pub fn finish_attach(&mut self, vm: VmId, address: PciAddress, outcome: AttachOutcome) -> (res:
        AttachResolution)
        ensures
            final(self).wf(),
            final(self)@ == after_attach(old(self)@, vm, address, outcome),
            res.result.err() == attach_error(old(self)@, vm, address, outcome),
            res.rebind@ == rebind_list(old(self)@, vm, address, outcome),
    {
        proof {
            use_type_invariant(&*self);
        }
        let i: usize = match find(&self.devices, address) {
            Some(i) => i,
            None => {
                return AttachResolution {
                    result: Err(GpuShareError::NotFoundError),
                    rebind: Vec::new(),
                };
            },
        };
        proof {
            lemma_index_unique(self@, i as int);
        }
        if self.devices[i].state != ReservationState::Reserved(vm) {
            return AttachResolution {
                result: Err(GpuShareError::InvalidStateError),
                rebind: Vec::new(),
            };
        }
        let group: u32 = self.devices[i].iommu_group;
        let sel = Selection::GroupInState(group, ReservationState::Reserved(vm));
        let mut rebind = addresses(&self.devices, sel);
        proof {
            lemma_commit_wf(self@, group, vm);
            lemma_release_wf(self@, sel);
        }
        match outcome {
            AttachOutcome::Attached => {
                self.relabel_all(sel, ReservationState::Attached(vm));
                AttachResolution { result: Ok(()), rebind: Vec::new() }
            },
            AttachOutcome::BindFailed { switched, code } => {
                self.relabel_all(sel, ReservationState::Free);
                rebind.truncate(switched);
                AttachResolution { result: Err(GpuShareError::HypervisorError(code)), rebind }
            },
            AttachOutcome::DescriptorFailed { code } => {
                self.relabel_all(sel, ReservationState::Free);
                AttachResolution { result: Err(GpuShareError::HypervisorError(code)), rebind }
            },
        }
    }

    /// First half of detach: says which devices are to be released. Nothing
    /// changes.
    pub fn begin_detach(&self, vm: VmId, address: PciAddress) -> (res: Result<
        GroupPlan,
        GpuShareError,
    >)
        ensures
            res.err() == detach_refusal(self@, vm, address),
            res matches Ok(plan) ==> plan.group == device(self@, address).iommu_group
                && plan.devices@ == detach_plan(self@, vm, address),
    {
        proof {
            use_type_invariant(self);
        }
        let i: usize = match find(&self.devices, address) {
            Some(i) => i,
            None => {
                return Err(GpuShareError::NotFoundError);
            },
        };
        proof {
            lemma_index_unique(self@, i as int);
        }
        if self.devices[i].state != ReservationState::Attached(vm) {
            return Err(GpuShareError::NotFoundError);
        }
        let group: u32 = self.devices[i].iommu_group;
        let devices = addresses(
            &self.devices,
            Selection::GroupInState(group, ReservationState::Attached(vm)),
        );
        Ok(GroupPlan { group, devices })
    }

    /// Second half of detach: frees the group once the descriptor is gone
    /// from the domain.
    ///
    /// A device that could not be bound to its host driver again is freed
    /// all the same, so that it cannot block later allocation; the report
    /// then carries a warning. If the domain kept the descriptor nothing
    /// changes and the failure is returned as `HypervisorError`.
    pub fn finish_detach(&mut self, vm: VmId, address: PciAddress, outcome: DetachOutcome) -> (res:
        Result<DetachReport, GpuShareError>)
        ensures
            final(self).wf(),
            final(self)@ == after_detach(old(self)@, vm, address, outcome),
            res.err() == detach_error(old(self)@, vm, address, outcome),
            res matches Ok(report) ==> report.released@ == detach_plan(old(self)@, vm, address)
                && report.warning == detach_warning(outcome),
    {
        proof {
            use_type_invariant(&*self);
        }
        let i: usize = match find(&self.devices, address) {
            Some(i) => i,
            None => {
                return Err(GpuShareError::NotFoundError);
            },
        };
        proof {
            lemma_index_unique(self@, i as int);
        }
        if self.devices[i].state != ReservationState::Attached(vm) {
            return Err(GpuShareError::NotFoundError);
        }
        match outcome {
            DetachOutcome::DescriptorFailed { code } => Err(GpuShareError::HypervisorError(code)),
            DetachOutcome::Released { restored } => {
                let group: u32 = self.devices[i].iommu_group;
                let sel = Selection::GroupInState(group, ReservationState::Attached(vm));
                let released = addresses(&self.devices, sel);
                proof {
                    lemma_release_wf(self@, sel);
                }
                self.relabel_all(sel, ReservationState::Free);
                let warning = if restored {
                    None
                } else {
                    Some(DegradedResourceWarning::DriverNotRestored)
                };
                Ok(DetachReport { released, warning })
            },
        }
    }
}

} // verus!
