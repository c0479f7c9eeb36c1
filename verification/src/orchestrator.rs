//! The resource orchestrator: the operations that bear on both managers,
//! and the quota check in front of creation.
//!
//! The managers are owned by the caller and handed in by reference. Every
//! operation takes the lifecycle manager before the reservation
//! manager. A caller that guards each manager with a lock takes the locks in
//! that order, and so cannot deadlock against another caller.

use vstd::prelude::*;
use crate::api::routes::{response_of, VMResponse, VMResponseView};
use crate::device::{
    addresses_of, device, lemma_relabelled_frame, DeviceTable, ReservationState, Selection,
};
use crate::errors::GpuShareError;
use crate::lifecycle::{
    after_request, create_refusal, delete_refusal, known, listing, set_status, vm_of, vm_views,
    LifecycleManager, VmTable,
};
use crate::pci::PciAddress;
use crate::reservation::{
    after_attach, after_detach, after_reserve, attach_error, attach_plan, attach_refusal,
    detach_error, detach_plan, detach_refusal, detach_warning, rebind_list, AttachOutcome,
    AttachResolution, DetachOutcome, DetachReport, ReservationManager,
};
use crate::resource_manager::ResourceManager;
use crate::vm::{VMConfig, VMStatus, VmId, VmView};

verus! {

/// What an accepted attach asks of the caller.
#[derive(Clone, Debug, PartialEq, Eq)]
pub struct AttachPlan {
    pub group: u32,
    /// The devices to switch to the passthrough driver, in table order.
    pub devices: Vec<PciAddress>,
    /// Whether the descriptor is applied to the running domain, rather than
    /// to its stored definition only.
    pub live_update: bool,
}

/// What an accepted detach asks of the caller.
#[derive(Clone, Debug, PartialEq, Eq)]
pub struct DetachPlan {
    pub group: u32,
    /// The devices to give back to their host driver, in table order.
    pub devices: Vec<PciAddress>,
    /// Whether the descriptor is taken out of the running domain, rather
    /// than out of its stored definition only.
    pub live_update: bool,
}

/// What an accepted delete asks of the caller.
#[derive(Clone, Debug, PartialEq, Eq)]
pub enum DeletePlan {
    /// The VM still holds these devices: detach them, then ask again.
    Detach(Vec<PciAddress>),
    /// The VM is `Deleting`: undefine its domain.
    Undefine,
}

/// The states in which a VM may be holding devices.
pub open spec fn holding(status: VMStatus) -> bool {
    status.attachable() || status is Error
}

/// The invariant across the two tables: whoever claims a device is a known
/// VM, and not one that is being created, being deleted or deleted.
///
/// It holds of two new managers, and every operation that a caller can
/// reach keeps it, as long as the two managers are used together: the two
/// operations that could break it, claiming devices for a VM and moving a
/// VM to `Deleting`, can only be reached through this module.
pub open spec fn consistent(vms: VmTable, devs: DeviceTable) -> bool {
    forall|i: int| 0 <= i < devs.len() ==> rightly_held(vms, (#[trigger] devs[i]).state)
}

/// Whether a reservation state names no VM, or a known VM that may hold
/// devices.
pub open spec fn rightly_held(vms: VmTable, state: ReservationState) -> bool {
    state.owner() matches Some(vm) ==> known(vms, vm) && holding(vm_of(vms, vm).status)
}

/// The devices attached to a VM, in table order.
pub open spec fn attached_of(devs: DeviceTable, vm: VmId) -> Seq<PciAddress> {
    addresses_of(devs, Selection::InState(ReservationState::Attached(vm)))
}

/// The devices reserved for a VM, in table order.
pub open spec fn reserved_of(devs: DeviceTable, vm: VmId) -> Seq<PciAddress> {
    addresses_of(devs, Selection::InState(ReservationState::Reserved(vm)))
}

/// Why an attach is refused, if it is: an unknown VM first, a VM in a state
/// that cannot take a device second, then the reservation manager's reasons.
pub open spec fn attach_vm_refusal(
    vms: VmTable,
    devs: DeviceTable,
    vm: VmId,
    a: PciAddress,
) -> Option<GpuShareError> {
    if !known(vms, vm) {
        Some(GpuShareError::NotFoundError)
    } else if !vm_of(vms, vm).status.attachable() {
        Some(GpuShareError::InvalidStateError)
    } else {
        attach_refusal(devs, vm, a)
    }
}

/// Why a delete is refused, if it is: the lifecycle manager's reasons first,
/// an attach still in flight for the VM second.
pub open spec fn delete_vm_refusal(
    vms: VmTable,
    devs: DeviceTable,
    id: VmId,
) -> Option<GpuShareError> {
    if delete_refusal(vms, id) is Some {
        delete_refusal(vms, id)
    } else if reserved_of(devs, id).len() > 0 {
        Some(GpuShareError::ResourceConflictError)
    } else {
        None
    }
}

/// The VM table after a delete was accepted: unchanged while the VM holds
/// devices, else with the VM in `Deleting`.
pub open spec fn after_delete_request(vms: VmTable, devs: DeviceTable, id: VmId) -> VmTable
    recommends
        delete_vm_refusal(vms, devs, id) is None,
{
    if attached_of(devs, id).len() > 0 {
        vms
    } else {
        set_status(vms, id, VMStatus::Deleting)
    }
}

/// The reports of the VMs that have not been deleted.
pub open spec fn reports(vms: VmTable, devs: DeviceTable) -> Seq<VMResponseView> {
    listing(vms).map_values(|vm: VmView| response_of(vm, attached_of(devs, vm.id).len() > 0))
}

/// The views of a list of responses.
pub open spec fn response_views(v: Seq<VMResponse>) -> Seq<VMResponseView> {
    v.map_values(|r: VMResponse| r@)
}

/// A selection picks no address exactly when it picks no device.
pub proof fn lemma_addresses_empty(t: DeviceTable, sel: Selection)
    ensures
        addresses_of(t, sel).len() == 0 <==> forall|i: int|
            0 <= i < t.len() ==> !sel.selects(#[trigger] t[i]),
    decreases t.len(),
{
    if t.len() > 0 {
        let p = t.drop_last();
        lemma_addresses_empty(p, sel);
        if addresses_of(t, sel).len() == 0 {
            assert forall|i: int| 0 <= i < t.len() implies !sel.selects(#[trigger] t[i]) by {
                if i < p.len() {
                    assert(p[i] == t[i]);
                }
            }
        } else {
            if sel.selects(t.last()) {
                assert(sel.selects(t[t.len() - 1]));
            } else {
                let i = choose|i: int| 0 <= i < p.len() && sel.selects(#[trigger] p[i]);
                assert(p[i] == t[i]);
            }
        }
    }
}

/// First half of `create`, with the verdict of a quota collaborator.
///
/// A denial is answered with `QuotaExceededError` and the lifecycle
/// manager is not consulted at all. Otherwise this is
/// [`LifecycleManager::begin_create`].
pub fn begin_create_decided(
    lifecycle: &mut LifecycleManager,
    quota: Result<(), GpuShareError>,
    config: &VMConfig,
    now: u64,
) -> (res: Result<VmId, GpuShareError>)
    ensures
        final(lifecycle).min_memory() == old(lifecycle).min_memory(),
        res.err() == if quota is Err {
            Some(GpuShareError::QuotaExceededError)
        } else {
            create_refusal(old(lifecycle)@, config@, old(lifecycle).min_memory())
        },
        res is Err ==> final(lifecycle)@ == old(lifecycle)@,
        res matches Ok(id) ==> id == old(lifecycle)@.len() && final(lifecycle)@ == after_request(
            old(lifecycle)@,
            config@,
            now,
        ),
{
    match quota {
        Err(_) => Err(GpuShareError::QuotaExceededError),
        Ok(_) => lifecycle.begin_create(config, now),
    }
}

/// First half of `create`: asks the resource manager for the quota
/// verdict, then proceeds as [`begin_create_decided`].
pub fn begin_create(
    resources: &ResourceManager,
    lifecycle: &mut LifecycleManager,
    user: &str,
    config: &VMConfig,
    now: u64,
) -> (res: Result<VmId, GpuShareError>)
    ensures
        final(lifecycle).min_memory() == old(lifecycle).min_memory(),
        res.err() == create_refusal(old(lifecycle)@, config@, old(lifecycle).min_memory()),
        res is Err ==> final(lifecycle)@ == old(lifecycle)@,
        res matches Ok(id) ==> id == old(lifecycle)@.len() && final(lifecycle)@ == after_request(
            old(lifecycle)@,
            config@,
            now,
        ),
{
    let quota = resources.check_quota(user, config);
    begin_create_decided(lifecycle, quota, config, now)
}

/// First half of attach: checks the VM, then reserves the device's whole
/// IOMMU group for it.
///
/// On refusal nothing changes. On acceptance the caller switches the
/// devices of the plan and applies the descriptor, then reports to
/// [`finish_attach`].
pub fn begin_attach(
    lifecycle: &LifecycleManager,
    reservations: &mut ReservationManager,
    vm: VmId,
    address: PciAddress,
) -> (res: Result<AttachPlan, GpuShareError>)
    ensures
        consistent(lifecycle@, old(reservations)@) ==> consistent(lifecycle@, final(reservations)@),
        res.err() == attach_vm_refusal(lifecycle@, old(reservations)@, vm, address),
        res is Err ==> final(reservations)@ == old(reservations)@,
        res matches Ok(plan) ==> final(reservations)@ == after_reserve(
            old(reservations)@,
            vm,
            address,
        )
            && plan.group == device(old(reservations)@, address).iommu_group
            && plan.devices@ == attach_plan(old(reservations)@, address)
            && plan.live_update == runs(lifecycle@, vm),
{
    let status = match lifecycle.status(vm) {
        Some(status) => status,
        None => {
            return Err(GpuShareError::NotFoundError);
        },
    };
    if !status.can_attach() {
        return Err(GpuShareError::InvalidStateError);
    }
    let live_update: bool = match status {
        VMStatus::Running => true,
        _ => false,
    };
    proof {
        if consistent(lifecycle@, reservations@) {
            lemma_reserve_consistent(lifecycle@, reservations@, vm, address);
        }
    }
    match reservations.begin_attach(vm, address) {
        Ok(plan) => Ok(AttachPlan { group: plan.group, devices: plan.devices, live_update }),
        Err(e) => Err(e),
    }
}

/// Second half of attach: commits the reservation or rolls it back; see
/// [`ReservationManager::finish_attach`].
pub fn finish_attach(
    lifecycle: &LifecycleManager,
    reservations: &mut ReservationManager,
    vm: VmId,
    address: PciAddress,
    outcome: AttachOutcome,
) -> (res: AttachResolution)
    ensures
        consistent(lifecycle@, old(reservations)@) ==> consistent(lifecycle@, final(reservations)@),
        final(reservations)@ == after_attach(old(reservations)@, vm, address, outcome),
        res.result.err() == attach_error(old(reservations)@, vm, address, outcome),
        res.rebind@ == rebind_list(old(reservations)@, vm, address, outcome),
{
    proof {
        if consistent(lifecycle@, reservations@) {
            lemma_finish_consistent(lifecycle@, reservations@, vm, address, outcome);
        }
    }
    reservations.finish_attach(vm, address, outcome)
}

/// Whether a VM is running, so that its domain is changed while it runs.
pub open spec fn runs(vms: VmTable, vm: VmId) -> bool {
    known(vms, vm) && vm_of(vms, vm).status is Running
}

/// First half of detach: says which devices are to be released, and
/// whether from a running domain. Nothing changes.
pub fn begin_detach(
    lifecycle: &LifecycleManager,
    reservations: &ReservationManager,
    vm: VmId,
    address: PciAddress,
) -> (res: Result<DetachPlan, GpuShareError>)
    ensures
        res.err() == detach_refusal(reservations@, vm, address),
        res matches Ok(plan) ==> plan.group == device(reservations@, address).iommu_group
            && plan.devices@ == detach_plan(reservations@, vm, address)
            && plan.live_update == runs(lifecycle@, vm),
{
    let live_update: bool = match lifecycle.status(vm) {
        Some(VMStatus::Running) => true,
        _ => false,
    };
    match reservations.begin_detach(vm, address) {
        Ok(plan) => Ok(DetachPlan { group: plan.group, devices: plan.devices, live_update }),
        Err(e) => Err(e),
    }
}

/// Second half of detach: frees the group once the descriptor is gone from
/// the domain; see [`ReservationManager::finish_detach`].
pub fn finish_detach(
    lifecycle: &LifecycleManager,
    reservations: &mut ReservationManager,
    vm: VmId,
    address: PciAddress,
    outcome: DetachOutcome,
) -> (res: Result<DetachReport, GpuShareError>)
    ensures
        consistent(lifecycle@, old(reservations)@) ==> consistent(lifecycle@, final(reservations)@),
        final(reservations)@ == after_detach(old(reservations)@, vm, address, outcome),
        res.err() == detach_error(old(reservations)@, vm, address, outcome),
        res matches Ok(report) ==> report.released@ == detach_plan(old(reservations)@, vm, address)
            && report.warning == detach_warning(outcome),
{
    proof {
        if consistent(lifecycle@, reservations@) {
            lemma_detach_consistent(lifecycle@, reservations@, vm, address, outcome);
        }
    }
    reservations.finish_detach(vm, address, outcome)
}

/// Detach as a step of deleting a VM: as [`finish_detach`], but
/// any failure is answered with `ResourceConflictError`. The delete has
/// then failed; the VM is in the state it was in, and the devices are
/// still attached.
pub fn cascade_detach(
    lifecycle: &LifecycleManager,
    reservations: &mut ReservationManager,
    vm: VmId,
    address: PciAddress,
    outcome: DetachOutcome,
) -> (res: Result<DetachReport, GpuShareError>)
    ensures
        consistent(lifecycle@, old(reservations)@) ==> consistent(lifecycle@, final(reservations)@),
        final(reservations)@ == after_detach(old(reservations)@, vm, address, outcome),
        res.err() == if detach_error(old(reservations)@, vm, address, outcome) is Some {
            Some(GpuShareError::ResourceConflictError)
        } else {
            None
        },
        res matches Ok(report) ==> report.released@ == detach_plan(old(reservations)@, vm, address)
            && report.warning == detach_warning(outcome),
{
    match finish_detach(lifecycle, reservations, vm, address, outcome) {
        Ok(report) => Ok(report),
        Err(_) => Err(GpuShareError::ResourceConflictError),
    }
}

/// First half of `delete`.
///
/// A VM that still holds devices is not touched: the plan names the
/// devices to detach first. A VM that holds none moves to `Deleting`,
/// and the caller asks the hypervisor to undefine its domain and reports
/// to [`LifecycleManager::finish_delete`]. A VM for which an attach is
/// still in flight is refused with `ResourceConflictError`.
pub fn begin_delete(
    lifecycle: &mut LifecycleManager,
    reservations: &ReservationManager,
    id: VmId,
) -> (res: Result<DeletePlan, GpuShareError>)
    ensures
        final(lifecycle).min_memory() == old(lifecycle).min_memory(),
        consistent(old(lifecycle)@, reservations@) ==> consistent(final(lifecycle)@, reservations@),
        res.err() == delete_vm_refusal(old(lifecycle)@, reservations@, id),
        res is Err ==> final(lifecycle)@ == old(lifecycle)@,
        res is Ok ==> final(lifecycle)@ == after_delete_request(old(lifecycle)@, reservations@, id),
        res matches Ok(DeletePlan::Detach(devices)) ==> devices@.len() > 0
            && devices@ == attached_of(reservations@, id),
        res matches Ok(DeletePlan::Undefine) ==> attached_of(reservations@, id).len() == 0,
{
    let status = match lifecycle.status(id) {
        Some(status) => status,
        None => {
            return Err(GpuShareError::NotFoundError);
        },
    };
    if !status.can_delete() {
        return Err(GpuShareError::InvalidStateError);
    }
    let reserved = reservations.reserved_for(id);
    if reserved.len() > 0 {
        return Err(GpuShareError::ResourceConflictError);
    }
    let attached = reservations.attached_to(id);
    if attached.len() > 0 {
        return Ok(DeletePlan::Detach(attached));
    }
    proof {
        if consistent(lifecycle@, reservations@) {
            lemma_delete_consistent(lifecycle@, reservations@, id);
        }
    }
    match lifecycle.begin_delete(id) {
        Ok(_) => Ok(DeletePlan::Undefine),
        Err(e) => Err(e),
    }
}

/// The report of one VM.
pub fn get_vm(lifecycle: &LifecycleManager, reservations: &ReservationManager, id: VmId) -> (res:
    Result<VMResponse, GpuShareError>)
    ensures
        match res {
            Ok(response) => known(lifecycle@, id) && response@ == response_of(
                vm_of(lifecycle@, id),
                attached_of(reservations@, id).len() > 0,
            ),
            Err(e) => !known(lifecycle@, id) && e == GpuShareError::NotFoundError,
        },
{
    match lifecycle.get(id) {
        Ok(vm) => {
            let attached = reservations.attached_to(id);
            Ok(VMResponse::from_vm(&vm, attached.len() > 0))
        },
        Err(e) => Err(e),
    }
}

/// The reports of the VMs that have not been deleted, in the order of
/// their creation.
pub fn list_vms(lifecycle: &LifecycleManager, reservations: &ReservationManager) -> (res:
    Vec<VMResponse>)
    ensures
        response_views(res@) == reports(lifecycle@, reservations@),
{
    let vms = lifecycle.list();
    let mut res: Vec<VMResponse> = Vec::new();
    let mut i: usize = 0;
    while i < vms.len()
        invariant
            i <= vms.len(),
            vm_views(vms@) == listing(lifecycle@),
            res@.len() == i,
            forall|k: int|
                0 <= k < i ==> (#[trigger] res@[k])@ == response_of(
                    vms@[k]@,
                    attached_of(reservations@, vms@[k]@.id).len() > 0,
                ),
        decreases vms.len() - i,
    {
        let attached = reservations.attached_to(vms[i].id);
        res.push(VMResponse::from_vm(&vms[i], attached.len() > 0));
        i = i + 1;
    }
    assert(response_views(res@) =~= reports(lifecycle@, reservations@)) by {
        assert(forall|k: int|
            0 <= k < vms@.len() ==> listing(lifecycle@)[k] == (#[trigger] vms@[k])@);
    }
    res
}

/// Reserving a group for a VM that may take devices keeps the two tables
/// consistent.
pub proof fn lemma_reserve_consistent(vms: VmTable, devs: DeviceTable, vm: VmId, a: PciAddress)
    requires
        consistent(vms, devs),
        known(vms, vm),
        vm_of(vms, vm).status.attachable(),
    ensures
        consistent(vms, after_reserve(devs, vm, a)),
{
    let sel = Selection::Group(device(devs, a).iommu_group);
    lemma_relabelled_frame(devs, sel, ReservationState::Reserved(vm));
    let u = after_reserve(devs, vm, a);
    assert forall|i: int| 0 <= i < u.len() implies rightly_held(vms, (#[trigger] u[i]).state) by {
        assert(devs[i].address == u[i].address);
    }
}

/// Finishing an attach, either way, keeps the two tables consistent.
pub proof fn lemma_finish_consistent(
    vms: VmTable,
    devs: DeviceTable,
    vm: VmId,
    a: PciAddress,
    outcome: AttachOutcome,
)
    requires
        consistent(vms, devs),
    ensures
        consistent(vms, after_attach(devs, vm, a, outcome)),
{
    let sel = Selection::GroupInState(device(devs, a).iommu_group, ReservationState::Reserved(vm));
    lemma_relabelled_frame(devs, sel, ReservationState::Attached(vm));
    lemma_relabelled_frame(devs, sel, ReservationState::Free);
    let u = after_attach(devs, vm, a, outcome);
    assert forall|i: int| 0 <= i < u.len() implies rightly_held(vms, (#[trigger] u[i]).state) by {
        assert(devs[i].address == u[i].address);
    }
}

/// Finishing a detach, either way, keeps the two tables consistent.
pub proof fn lemma_detach_consistent(
    vms: VmTable,
    devs: DeviceTable,
    vm: VmId,
    a: PciAddress,
    outcome: DetachOutcome,
)
    requires
        consistent(vms, devs),
    ensures
        consistent(vms, after_detach(devs, vm, a, outcome)),
{
    let sel = Selection::GroupInState(device(devs, a).iommu_group, ReservationState::Attached(vm));
    lemma_relabelled_frame(devs, sel, ReservationState::Free);
    let u = after_detach(devs, vm, a, outcome);
    assert forall|i: int| 0 <= i < u.len() implies rightly_held(vms, (#[trigger] u[i]).state) by {
        assert(devs[i].address == u[i].address);
    }
}

/// Moving a VM that claims no device to `Deleting` keeps the two tables
/// consistent.
pub proof fn lemma_delete_consistent(vms: VmTable, devs: DeviceTable, id: VmId)
    requires
        consistent(vms, devs),
        known(vms, id),
        reserved_of(devs, id).len() == 0,
        attached_of(devs, id).len() == 0,
    ensures
        consistent(set_status(vms, id, VMStatus::Deleting), devs),
{
    lemma_addresses_empty(devs, Selection::InState(ReservationState::Reserved(id)));
    lemma_addresses_empty(devs, Selection::InState(ReservationState::Attached(id)));
    let w = set_status(vms, id, VMStatus::Deleting);
    assert forall|i: int| 0 <= i < devs.len() implies rightly_held(
        w,
        (#[trigger] devs[i]).state,
    ) by {
        if devs[i].state.owner() == Some(id) {
            assert(Selection::InState(ReservationState::Reserved(id)).selects(devs[i])
                || Selection::InState(ReservationState::Attached(id)).selects(devs[i]));
        }
    }
}

} // verus!
