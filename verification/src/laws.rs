//! What holds of the orchestration core as a whole: laws that relate
//! several operations, proved over the same mathematical model in which the
//! operations' own contracts are stated.

use vstd::prelude::*;
use crate::api::routes::{memory_representable, requested_config, CreateVMRequestView};
use crate::device::{
    addresses_of, device, devices_wf, distinct_addresses, group_available, group_free,
    groups_intact, groups_uniform, has_device, index_of, lemma_commit_wf, lemma_index_unique,
    lemma_relabelled_frame, lemma_reserve_wf, relabelled, DeviceTable, ReservationState,
    Selection,
};
use crate::errors::GpuShareError;
use crate::inventory::{distinct_scan, lemma_newcomers, merged, newcomers, scan_has, Scan};
use crate::lifecycle::{
    after_request, create_refusal, delete_refusal, failure_refusal, holds_name, known,
    name_in_use, set_status, settled, step_refusal, table_wf, vm_of, BackendOutcome, Transition,
    VmTable,
};
use crate::orchestrator::{
    after_delete_request, attached_of, consistent, delete_vm_refusal, lemma_addresses_empty,
    rightly_held,
};
use crate::pci::PciAddress;
use crate::reservation::{
    after_attach, after_detach, after_reserve, attach_error, attach_plan, attach_refusal,
    detach_refusal, pending_refusal, rebind_list, AttachOutcome, DetachOutcome,
};
use crate::vm::{config_valid, requested_vm, VMConfigView, VMStatus, VmId};

verus! {

/// A VM whose creation was accepted and whose domain was defined is found
/// under its id, `Defined`, with the name, the CPUs and the memory that
/// were asked for.
pub proof fn law_create_then_get(t: VmTable, min_memory_kb: u64, c: VMConfigView, now: u64)
    requires
        table_wf(t, min_memory_kb),
        t.len() <= u64::MAX,
        config_valid(c, min_memory_kb),
        !name_in_use(t, c.name),
    ensures
        ({
            let id = t.len() as VmId;
            let requested = after_request(t, c, now);
            let defined = settled(requested, id, Transition::Define, Ok(()));
            &&& create_refusal(t, c, min_memory_kb) is None
            &&& step_refusal(requested, id, Transition::Define) is None
            &&& known(defined, id)
            &&& vm_of(defined, id).status == VMStatus::Defined
            &&& vm_of(defined, id).name == c.name
            &&& vm_of(defined, id).vcpus == c.vcpus
            &&& vm_of(defined, id).memory_kb == c.memory_kb
        }),
{
}

/// While a VM that has not been deleted bears a name, creating another VM
/// of that name is refused with `AlreadyExistsError`.
pub proof fn law_live_name_is_taken(t: VmTable, min_memory_kb: u64, id: VmId, c: VMConfigView)
    requires
        known(t, id),
        vm_of(t, id).status.live(),
        vm_of(t, id).name == c.name,
        config_valid(c, min_memory_kb),
    ensures
        create_refusal(t, c, min_memory_kb) == Some(GpuShareError::AlreadyExistsError),
{
    assert(holds_name(t[id as int], c.name));
}

/// After a creation was accepted, a second creation under the same name is
/// refused with `AlreadyExistsError`, before and after the first VM's
/// domain is defined.
pub proof fn law_duplicate_create_refused(
    t: VmTable,
    min_memory_kb: u64,
    first: VMConfigView,
    second: VMConfigView,
    now: u64,
)
    requires
        t.len() <= u64::MAX,
        create_refusal(t, first, min_memory_kb) is None,
        config_valid(second, min_memory_kb),
        second.name == first.name,
    ensures
        ({
            let id = t.len() as VmId;
            let requested = after_request(t, first, now);
            let defined = settled(requested, id, Transition::Define, Ok(()));
            &&& create_refusal(requested, second, min_memory_kb) == Some(
                GpuShareError::AlreadyExistsError,
            )
            &&& create_refusal(defined, second, min_memory_kb) == Some(
                GpuShareError::AlreadyExistsError,
            )
        }),
{
    let id = t.len() as VmId;
    let requested = after_request(t, first, now);
    let defined = settled(requested, id, Transition::Define, Ok(()));
    law_live_name_is_taken(requested, min_memory_kb, id, second);
    law_live_name_is_taken(defined, min_memory_kb, id, second);
}

/// Creations under different names do not stand in each other's way: a
/// creation that would be accepted alone is accepted after another one
/// under another name was, and gets the next id.
pub proof fn law_distinct_names_coexist(
    t: VmTable,
    min_memory_kb: u64,
    first: VMConfigView,
    second: VMConfigView,
    now: u64,
)
    requires
        t.len() < u64::MAX,
        create_refusal(t, first, min_memory_kb) is None,
        create_refusal(t, second, min_memory_kb) is None,
        first.name != second.name,
    ensures
        create_refusal(after_request(t, first, now), second, min_memory_kb) is None,
        after_request(t, first, now).len() as VmId == t.len() as VmId + 1,
{
    let u = after_request(t, first, now);
    if name_in_use(u, second.name) {
        let i = choose|i: int| 0 <= i < u.len() && holds_name(#[trigger] u[i], second.name);
        if i < t.len() {
            assert(holds_name(t[i], second.name));
        }
    }
}

/// The table after a run of creation requests, taken one after another;
/// a request that is refused leaves the table as it found it.
pub open spec fn after_requests(
    t: VmTable,
    requests: Seq<VMConfigView>,
    min_memory_kb: u64,
    now: u64,
) -> VmTable
    decreases requests.len(),
{
    if requests.len() == 0 {
        t
    } else {
        let before = after_requests(t, requests.drop_last(), min_memory_kb, now);
        if create_refusal(before, requests.last(), min_memory_kb) is None {
            after_request(before, requests.last(), now)
        } else {
            before
        }
    }
}

/// Any number of creations under names that differ from each other and
/// from every name in use are all accepted, in whatever order they come:
/// each gets an id of its own, the ids follow each other, and each VM is
/// entered as it was asked for.
pub proof fn law_distinct_names_all_created(
    t: VmTable,
    requests: Seq<VMConfigView>,
    min_memory_kb: u64,
    now: u64,
)
    requires
        t.len() + requests.len() <= u64::MAX,
        forall|k: int|
            0 <= k < requests.len() ==> config_valid(#[trigger] requests[k], min_memory_kb)
                && !name_in_use(t, requests[k].name),
        forall|j: int, k: int|
            0 <= j < k < requests.len() ==> (#[trigger] requests[j]).name != (
            #[trigger] requests[k]).name,
    ensures
        ({
            let after = after_requests(t, requests, min_memory_kb, now);
            &&& after.len() == t.len() + requests.len()
            &&& forall|i: int| 0 <= i < t.len() ==> #[trigger] after[i] == t[i]
            &&& forall|k: int|
                0 <= k < requests.len() ==> #[trigger] after[t.len() + k] == Some(
                    requested_vm((t.len() + k) as VmId, requests[k], now),
                )
        }),
    decreases requests.len(),
{
    if requests.len() > 0 {
        let earlier = requests.drop_last();
        let last = requests.last();
        let before = after_requests(t, earlier, min_memory_kb, now);
        assert forall|k: int| 0 <= k < earlier.len() implies config_valid(
            #[trigger] earlier[k],
            min_memory_kb,
        ) && !name_in_use(t, earlier[k].name) by {
            assert(earlier[k] == requests[k]);
        }
        assert forall|j: int, k: int|
            0 <= j < k < earlier.len() implies (#[trigger] earlier[j]).name != (
        #[trigger] earlier[k]).name by {
            assert(earlier[j] == requests[j]);
            assert(earlier[k] == requests[k]);
        }
        law_distinct_names_all_created(t, earlier, min_memory_kb, now);
        assert(last == requests[requests.len() - 1]);
        if name_in_use(before, last.name) {
            let i = choose|i: int|
                0 <= i < before.len() && holds_name(#[trigger] before[i], last.name);
            if i < t.len() {
                assert(before[i] == t[i]);
                assert(holds_name(t[i], last.name));
            } else {
                let k = i - t.len();
                assert(before[t.len() + k] == Some(
                    requested_vm((t.len() + k) as VmId, earlier[k], now),
                ));
                assert(earlier[k] == requests[k]);
            }
        }
        let after = after_requests(t, requests, min_memory_kb, now);
        assert(after == after_request(before, last, now));
        assert forall|k: int| 0 <= k < requests.len() implies #[trigger] after[t.len() + k] == Some(
            requested_vm((t.len() + k) as VmId, requests[k], now),
        ) by {
            if k < earlier.len() {
                assert(after[t.len() + k] == before[t.len() + k]);
                assert(earlier[k] == requests[k]);
            }
        }
    }
}

/// Any number of creations under one name that is not in use, in whatever
/// order they come, give one VM: the first is accepted, and each of the
/// others is refused with `AlreadyExistsError` and changes nothing.
pub proof fn law_same_name_created_once(
    t: VmTable,
    requests: Seq<VMConfigView>,
    min_memory_kb: u64,
    now: u64,
)
    requires
        t.len() < u64::MAX,
        requests.len() >= 1,
        !name_in_use(t, requests[0].name),
        forall|k: int|
            0 <= k < requests.len() ==> config_valid(#[trigger] requests[k], min_memory_kb)
                && requests[k].name == requests[0].name,
    ensures
        create_refusal(t, requests[0], min_memory_kb) is None,
        after_requests(t, requests, min_memory_kb, now) == after_request(t, requests[0], now),
        forall|k: int|
            1 <= k < requests.len() ==> create_refusal(
                after_request(t, requests[0], now),
                #[trigger] requests[k],
                min_memory_kb,
            ) == Some(GpuShareError::AlreadyExistsError),
    decreases requests.len(),
{
    let first = requests[0];
    let one = after_request(t, first, now);
    assert forall|k: int| 1 <= k < requests.len() implies create_refusal(
        one,
        #[trigger] requests[k],
        min_memory_kb,
    ) == Some(GpuShareError::AlreadyExistsError) by {
        law_live_name_is_taken(one, min_memory_kb, t.len() as VmId, requests[k]);
    }
    let earlier = requests.drop_last();
    if requests.len() == 1 {
        assert(earlier.len() == 0);
        assert(after_requests(t, earlier, min_memory_kb, now) == t);
        assert(requests.last() == first);
    } else {
        assert(earlier[0] == first);
        assert forall|k: int| 0 <= k < earlier.len() implies config_valid(
            #[trigger] earlier[k],
            min_memory_kb,
        ) && earlier[k].name == earlier[0].name by {
            assert(earlier[k] == requests[k]);
        }
        law_same_name_created_once(t, earlier, min_memory_kb, now);
        assert(requests.last() == requests[requests.len() - 1]);
    }
}

/// A configuration with less memory than the platform's minimum is refused
/// with `ValidationError`, whatever else holds of it or of the table.
pub proof fn law_low_memory_refused(t: VmTable, min_memory_kb: u64, c: VMConfigView)
    requires
        c.memory_kb < min_memory_kb,
    ensures
        create_refusal(t, c, min_memory_kb) == Some(GpuShareError::ValidationError),
{
}

/// A request that asks for less memory than the platform's minimum stands
/// for a configuration that is refused with `ValidationError`.
pub proof fn law_low_memory_request_refused(t: VmTable, min_memory_kb: u64, r: CreateVMRequestView)
    requires
        r.memory_mb * 1024 < min_memory_kb,
    ensures
        memory_representable(r),
        create_refusal(t, requested_config(r), min_memory_kb) == Some(
            GpuShareError::ValidationError,
        ),
{
}

/// Every change of a VM's status follows an edge of the state machine.
pub proof fn law_steps_follow_machine(
    t: VmTable,
    id: VmId,
    step: Transition,
    outcome: BackendOutcome,
)
    requires
        step_refusal(t, id, step) is None,
    ensures
        ({
            let next = settled(t, id, step, outcome);
            &&& next.len() == t.len()
            &&& forall|i: int| 0 <= i < t.len() && i != id ==> next[i] == t[i]
            &&& known(next, id) ==> vm_of(t, id).status.may_become(vm_of(next, id).status)
            &&& !known(next, id) ==> step is Define && outcome is Err
        }),
{
}

/// Accepting a deletion follows an edge of the state machine.
pub proof fn law_delete_follows_machine(t: VmTable, id: VmId)
    requires
        delete_refusal(t, id) is None,
    ensures
        vm_of(t, id).status.may_become(VMStatus::Deleting),
        known(set_status(t, id, VMStatus::Deleting), id),
        vm_of(set_status(t, id, VMStatus::Deleting), id).status == VMStatus::Deleting,
{
}

/// Declaring a VM failed follows an edge of the state machine.
pub proof fn law_failure_follows_machine(t: VmTable, id: VmId)
    requires
        failure_refusal(t, id) is None,
    ensures
        vm_of(t, id).status.may_become(VMStatus::Error),
        vm_of(set_status(t, id, VMStatus::Error), id).status == VMStatus::Error,
        vm_of(set_status(t, id, VMStatus::Error), id).faulted,
{
}

/// An id is issued once: a creation takes the first id that no VM has ever
/// had, and no operation gives an id back.
pub proof fn law_ids_are_fresh(t: VmTable, c: VMConfigView, now: u64, id: VmId)
    requires
        t.len() <= u64::MAX,
        id < t.len(),
    ensures
        after_request(t, c, now).len() == t.len() + 1,
        after_request(t, c, now)[id as int] == t[id as int],
        t.len() as VmId != id,
{
}

/// A deleted VM stays deleted, and an id whose creation was rolled back
/// stays empty: no step is enabled on either.
pub proof fn law_deleted_is_final(t: VmTable, id: VmId, step: Transition)
    requires
        id < t.len(),
        !known(t, id) || vm_of(t, id).status is Deleted,
    ensures
        step_refusal(t, id, step) is Some,
        delete_refusal(t, id) is Some,
{
}

/// Where a table without repeated addresses holds a device, the table with
/// devices moved to another state holds it at the same place.
pub proof fn lemma_device_after_relabel(
    t: DeviceTable,
    sel: Selection,
    state: ReservationState,
    a: PciAddress,
)
    requires
        distinct_addresses(t),
        has_device(t, a),
    ensures
        has_device(relabelled(t, sel, state), a),
        device(relabelled(t, sel, state), a) == relabelled(t, sel, state)[index_of(t, a)],
        device(relabelled(t, sel, state), a).iommu_group == device(t, a).iommu_group,
        device(relabelled(t, sel, state), a).online == device(t, a).online,
        device(relabelled(t, sel, state), a).state == if sel.selects(device(t, a)) {
            state
        } else {
            device(t, a).state
        },
{
    let u = relabelled(t, sel, state);
    let i = index_of(t, a);
    lemma_relabelled_frame(t, sel, state);
    assert(u[i].address == a);
    lemma_index_unique(u, i);
}

/// An attach is refused with `ResourceConflictError` when a member of the
/// device's IOMMU group is claimed by another VM.
pub proof fn law_foreign_claim_conflicts(t: DeviceTable, vm: VmId, a: PciAddress, member: int)
    requires
        has_device(t, a),
        device(t, a).online,
        0 <= member < t.len(),
        t[member].iommu_group == device(t, a).iommu_group,
        t[member].state.owner() is Some,
        t[member].state.owner() != Some(vm),
    ensures
        attach_refusal(t, vm, a) == Some(GpuShareError::ResourceConflictError),
{
}

/// Attaches to two different IOMMU groups do not stand in each other's way.
///
/// If each attach would be accepted alone, each is accepted after the other
/// was, in either order; both reservations can then be finished; and when
/// both succeed, whatever the order of the four steps, every member of the
/// first group is attached to the first VM, every member of the second to
/// the second, and no other device has changed.
pub proof fn law_disjoint_groups_independent(
    t: DeviceTable,
    vm_a: VmId,
    a: PciAddress,
    vm_b: VmId,
    b: PciAddress,
)
    requires
        devices_wf(t),
        attach_refusal(t, vm_a, a) is None,
        attach_refusal(t, vm_b, b) is None,
        device(t, a).iommu_group != device(t, b).iommu_group,
    ensures
        ({
            let ga = device(t, a).iommu_group;
            let gb = device(t, b).iommu_group;
            let a_first = after_reserve(after_reserve(t, vm_a, a), vm_b, b);
            let b_first = after_reserve(after_reserve(t, vm_b, b), vm_a, a);
            let done = after_attach(
                after_attach(a_first, vm_a, a, AttachOutcome::Attached),
                vm_b,
                b,
                AttachOutcome::Attached,
            );
            let done_other = after_attach(
                after_attach(a_first, vm_b, b, AttachOutcome::Attached),
                vm_a,
                a,
                AttachOutcome::Attached,
            );
            &&& attach_refusal(after_reserve(t, vm_a, a), vm_b, b) is None
            &&& attach_refusal(after_reserve(t, vm_b, b), vm_a, a) is None
            &&& a_first == b_first
            &&& pending_refusal(a_first, vm_a, a) is None
            &&& pending_refusal(a_first, vm_b, b) is None
            &&& pending_refusal(after_attach(a_first, vm_a, a, AttachOutcome::Attached), vm_b, b)
                is None
            &&& pending_refusal(after_attach(a_first, vm_b, b, AttachOutcome::Attached), vm_a, a)
                is None
            &&& done == done_other
            &&& done.len() == t.len()
            &&& forall|i: int|
                0 <= i < t.len() ==> (#[trigger] done[i]).state == if t[i].iommu_group == ga {
                    ReservationState::Attached(vm_a)
                } else if t[i].iommu_group == gb {
                    ReservationState::Attached(vm_b)
                } else {
                    t[i].state
                }
        }),
{
    let ga = device(t, a).iommu_group;
    let gb = device(t, b).iommu_group;
    let ra = ReservationState::Reserved(vm_a);
    let rb = ReservationState::Reserved(vm_b);
    let ta = after_reserve(t, vm_a, a);
    let tb = after_reserve(t, vm_b, b);
    lemma_relabelled_frame(t, Selection::Group(ga), ra);
    lemma_relabelled_frame(t, Selection::Group(gb), rb);
    lemma_device_after_relabel(t, Selection::Group(ga), ra, a);
    lemma_device_after_relabel(t, Selection::Group(ga), ra, b);
    lemma_device_after_relabel(t, Selection::Group(gb), rb, a);
    lemma_device_after_relabel(t, Selection::Group(gb), rb, b);
    assert(group_available(ta, gb, vm_b)) by {
        assert forall|i: int|
            0 <= i < ta.len() && (#[trigger] ta[i]).iommu_group
                == gb implies ta[i].state.available_to(vm_b) by {
            assert(t[i].iommu_group == gb);
        }
    }
    assert(group_available(tb, ga, vm_a)) by {
        assert forall|i: int|
            0 <= i < tb.len() && (#[trigger] tb[i]).iommu_group
                == ga implies tb[i].state.available_to(vm_a) by {
            assert(t[i].iommu_group == ga);
        }
    }
    let a_first = after_reserve(ta, vm_b, b);
    let b_first = after_reserve(tb, vm_a, a);
    lemma_relabelled_frame(ta, Selection::Group(gb), rb);
    lemma_relabelled_frame(tb, Selection::Group(ga), ra);
    assert(a_first =~= b_first);
    lemma_device_after_relabel(ta, Selection::Group(gb), rb, a);
    lemma_device_after_relabel(ta, Selection::Group(gb), rb, b);
    let sa = Selection::GroupInState(ga, ra);
    let sb = Selection::GroupInState(gb, rb);
    let aa = ReservationState::Attached(vm_a);
    let ab = ReservationState::Attached(vm_b);
    let fa = after_attach(a_first, vm_a, a, AttachOutcome::Attached);
    let fb = after_attach(a_first, vm_b, b, AttachOutcome::Attached);
    assert(fa == relabelled(a_first, sa, aa));
    assert(fb == relabelled(a_first, sb, ab));
    lemma_relabelled_frame(a_first, sa, aa);
    lemma_relabelled_frame(a_first, sb, ab);
    lemma_device_after_relabel(a_first, sa, aa, a);
    lemma_device_after_relabel(a_first, sa, aa, b);
    lemma_device_after_relabel(a_first, sb, ab, a);
    lemma_device_after_relabel(a_first, sb, ab, b);
    let done = after_attach(fa, vm_b, b, AttachOutcome::Attached);
    let done_other = after_attach(fb, vm_a, a, AttachOutcome::Attached);
    assert(done == relabelled(fa, sb, ab));
    assert(done_other == relabelled(fb, sa, aa));
    lemma_relabelled_frame(fa, sb, ab);
    lemma_relabelled_frame(fb, sa, aa);
    assert(done =~= done_other);
    assert forall|i: int| 0 <= i < t.len() implies (#[trigger] done[i]).state == if t[i].iommu_group
        == ga {
        ReservationState::Attached(vm_a)
    } else if t[i].iommu_group == gb {
        ReservationState::Attached(vm_b)
    } else {
        t[i].state
    } by {
        assert(ta[i].iommu_group == t[i].iommu_group);
        assert(a_first[i].iommu_group == t[i].iommu_group);
        assert(fa[i].iommu_group == t[i].iommu_group);
    }
}

/// An attach that has succeeded does not stand in the way of a later
/// attach to another IOMMU group: the second is accepted as it would have
/// been before the first, and when it has succeeded too, every member of
/// the first group is attached to the first VM, every member of the second
/// to the second, and no other device has changed.
pub proof fn law_disjoint_groups_in_sequence(
    t: DeviceTable,
    vm_a: VmId,
    a: PciAddress,
    vm_b: VmId,
    b: PciAddress,
)
    requires
        devices_wf(t),
        attach_refusal(t, vm_a, a) is None,
        attach_refusal(t, vm_b, b) is None,
        device(t, a).iommu_group != device(t, b).iommu_group,
    ensures
        ({
            let ga = device(t, a).iommu_group;
            let gb = device(t, b).iommu_group;
            let first = after_attach(after_reserve(t, vm_a, a), vm_a, a, AttachOutcome::Attached);
            let both = after_attach(
                after_reserve(first, vm_b, b),
                vm_b,
                b,
                AttachOutcome::Attached,
            );
            &&& attach_refusal(first, vm_b, b) is None
            &&& pending_refusal(after_reserve(first, vm_b, b), vm_b, b) is None
            &&& both.len() == t.len()
            &&& forall|i: int|
                0 <= i < t.len() ==> (#[trigger] both[i]).state == if t[i].iommu_group == ga {
                    ReservationState::Attached(vm_a)
                } else if t[i].iommu_group == gb {
                    ReservationState::Attached(vm_b)
                } else {
                    t[i].state
                }
        }),
{
    let ga = device(t, a).iommu_group;
    let gb = device(t, b).iommu_group;
    let ra = ReservationState::Reserved(vm_a);
    let aa = ReservationState::Attached(vm_a);
    let reserved = after_reserve(t, vm_a, a);
    let first = after_attach(reserved, vm_a, a, AttachOutcome::Attached);
    law_attach_claims_whole_group(t, vm_a, a);
    lemma_reserve_wf(t, ga, vm_a);
    lemma_relabelled_frame(t, Selection::Group(ga), ra);
    lemma_device_after_relabel(t, Selection::Group(ga), ra, a);
    lemma_device_after_relabel(t, Selection::Group(ga), ra, b);
    let sa = Selection::GroupInState(ga, ra);
    assert(first == relabelled(reserved, sa, aa));
    lemma_commit_wf(reserved, ga, vm_a);
    lemma_relabelled_frame(reserved, sa, aa);
    lemma_device_after_relabel(reserved, sa, aa, b);
    assert(group_available(first, gb, vm_b)) by {
        assert forall|i: int|
            0 <= i < first.len() && (#[trigger] first[i]).iommu_group
                == gb implies first[i].state.available_to(vm_b) by {
            assert(reserved[i].iommu_group == gb);
            assert(t[i].iommu_group == gb);
        }
    }
    law_attach_claims_whole_group(first, vm_b, b);
    let both = after_attach(after_reserve(first, vm_b, b), vm_b, b, AttachOutcome::Attached);
    assert forall|i: int| 0 <= i < t.len() implies (#[trigger] both[i]).state == if t[i].iommu_group
        == ga {
        ReservationState::Attached(vm_a)
    } else if t[i].iommu_group == gb {
        ReservationState::Attached(vm_b)
    } else {
        t[i].state
    } by {
        assert(reserved[i].iommu_group == t[i].iommu_group);
        assert(first[i].iommu_group == t[i].iommu_group);
        assert(first[i].state == if t[i].iommu_group == ga {
            aa
        } else {
            t[i].state
        });
    }
}

/// An address is among the selected ones exactly when a selected device
/// bears it.
pub proof fn lemma_addresses_contain(t: DeviceTable, sel: Selection, a: PciAddress)
    ensures
        addresses_of(t, sel).contains(a) <==> exists|i: int|
            0 <= i < t.len() && sel.selects(#[trigger] t[i]) && t[i].address == a,
    decreases t.len(),
{
    if t.len() > 0 {
        let p = t.drop_last();
        let rest = addresses_of(p, sel);
        let all = addresses_of(t, sel);
        lemma_addresses_contain(p, sel, a);
        if all.contains(a) {
            let k = choose|k: int| 0 <= k < all.len() && all[k] == a;
            if k < rest.len() {
                assert(rest[k] == a);
                let i = choose|i: int|
                    0 <= i < p.len() && sel.selects(#[trigger] p[i]) && p[i].address == a;
                assert(t[i] == p[i]);
            } else {
                assert(sel.selects(t[t.len() - 1]) && t[t.len() - 1].address == a);
            }
        }
        if exists|i: int| 0 <= i < t.len() && sel.selects(#[trigger] t[i]) && t[i].address == a {
            let i = choose|i: int|
                0 <= i < t.len() && sel.selects(#[trigger] t[i]) && t[i].address == a;
            if i < p.len() {
                assert(p[i] == t[i]);
                let k = choose|k: int| 0 <= k < rest.len() && rest[k] == a;
                assert(all[k] == a);
            } else {
                assert(all[all.len() - 1] == a);
            }
        }
    }
}

/// Attach followed by detach frees the whole group.
///
/// After an accepted attach that succeeded and a detach that released the
/// devices, every member of the group is `Free` and every other device is
/// as it was before the attach; where the group was free before the attach,
/// the table is what it was. The device is then not among those attached to
/// the VM.
pub proof fn law_attach_detach_round_trip(t: DeviceTable, vm: VmId, a: PciAddress, restored: bool)
    requires
        devices_wf(t),
        attach_refusal(t, vm, a) is None,
    ensures
        ({
            let group = device(t, a).iommu_group;
            let reserved = after_reserve(t, vm, a);
            let attached = after_attach(reserved, vm, a, AttachOutcome::Attached);
            let released = after_detach(attached, vm, a, DetachOutcome::Released { restored });
            &&& pending_refusal(reserved, vm, a) is None
            &&& detach_refusal(attached, vm, a) is None
            &&& attached_of(attached, vm).contains(a)
            &&& released == relabelled(t, Selection::Group(group), ReservationState::Free)
            &&& group_free(t, group) ==> released == t
            &&& !attached_of(released, vm).contains(a)
        }),
{
    let group = device(t, a).iommu_group;
    let rs = ReservationState::Reserved(vm);
    let at = ReservationState::Attached(vm);
    let reserved = after_reserve(t, vm, a);
    lemma_relabelled_frame(t, Selection::Group(group), rs);
    lemma_device_after_relabel(t, Selection::Group(group), rs, a);
    let sel_r = Selection::GroupInState(group, rs);
    let attached = after_attach(reserved, vm, a, AttachOutcome::Attached);
    assert(attached == relabelled(reserved, sel_r, at));
    lemma_relabelled_frame(reserved, sel_r, at);
    lemma_device_after_relabel(reserved, sel_r, at, a);
    let sel_a = Selection::GroupInState(group, at);
    let released = after_detach(attached, vm, a, DetachOutcome::Released { restored });
    assert(released == relabelled(attached, sel_a, ReservationState::Free));
    lemma_relabelled_frame(attached, sel_a, ReservationState::Free);
    lemma_device_after_relabel(attached, sel_a, ReservationState::Free, a);
    lemma_relabelled_frame(t, Selection::Group(group), ReservationState::Free);
    assert(released =~= relabelled(t, Selection::Group(group), ReservationState::Free));
    if group_free(t, group) {
        assert(released =~= t);
    }
    let sel_vm = Selection::InState(at);
    lemma_addresses_contain(attached, sel_vm, a);
    lemma_addresses_contain(released, sel_vm, a);
    let i = index_of(t, a);
    assert(attached[i].address == a && sel_vm.selects(attached[i]));
    assert forall|k: int|
        0 <= k < released.len() && (#[trigger] released[k]).address
            == a implies !sel_vm.selects(released[k]) by {
        lemma_index_unique(released, k);
    }
}

/// Settling a step of the lifecycle keeps the two tables consistent.
pub proof fn law_steps_keep_consistency(
    vms: VmTable,
    devs: DeviceTable,
    id: VmId,
    step: Transition,
    outcome: BackendOutcome,
)
    requires
        consistent(vms, devs),
        step_refusal(vms, id, step) is None,
    ensures
        consistent(settled(vms, id, step, outcome), devs),
{
    let next = settled(vms, id, step, outcome);
    assert forall|i: int| 0 <= i < devs.len() implies rightly_held(
        next,
        (#[trigger] devs[i]).state,
    ) by {
        if devs[i].state.owner() is Some {
            let o = devs[i].state.owner()->Some_0;
            if o != id {
                assert(next[o as int] == vms[o as int]);
            }
        }
    }
}

/// Accepting a creation, and declaring a VM failed, keep the two tables
/// consistent.
pub proof fn law_requests_keep_consistency(
    vms: VmTable,
    devs: DeviceTable,
    c: VMConfigView,
    now: u64,
    id: VmId,
)
    requires
        consistent(vms, devs),
    ensures
        consistent(after_request(vms, c, now), devs),
        known(vms, id) ==> consistent(set_status(vms, id, VMStatus::Error), devs),
{
    let more = after_request(vms, c, now);
    assert forall|i: int| 0 <= i < devs.len() implies rightly_held(
        more,
        (#[trigger] devs[i]).state,
    ) by {
        if devs[i].state.owner() is Some {
            let o = devs[i].state.owner()->Some_0;
            assert(more[o as int] == vms[o as int]);
        }
    }
    if known(vms, id) {
        let failed = set_status(vms, id, VMStatus::Error);
        assert forall|i: int| 0 <= i < devs.len() implies rightly_held(
            failed,
            (#[trigger] devs[i]).state,
        ) by {
            if devs[i].state.owner() is Some {
                let o = devs[i].state.owner()->Some_0;
                if o != id {
                    assert(failed[o as int] == vms[o as int]);
                }
            }
        }
    }
}

/// A scan never touches a claim: every known device keeps its address and
/// its reservation state, and a claimed device also keeps its group and its
/// host driver.
pub proof fn law_scan_keeps_claims(t: DeviceTable, s: Scan, i: int)
    requires
        0 <= i < t.len(),
    ensures
        merged(t, s).len() >= t.len(),
        merged(t, s)[i].address == t[i].address,
        merged(t, s)[i].state == t[i].state,
        merged(t, s)[i].online == scan_has(s, t[i].address),
        !(t[i].state is Free) ==> merged(t, s)[i].iommu_group == t[i].iommu_group && merged(
            t,
            s,
        )[i].driver == t[i].driver,
{
}

/// Merging a scan keeps the two tables consistent: a scan makes no claim
/// and moves none.
pub proof fn law_scan_keeps_consistency(vms: VmTable, devs: DeviceTable, s: Scan)
    requires
        consistent(vms, devs),
        distinct_scan(s),
    ensures
        consistent(vms, merged(devs, s)),
{
    let m = merged(devs, s);
    lemma_newcomers(devs, s);
    assert forall|i: int| 0 <= i < m.len() implies rightly_held(vms, (#[trigger] m[i]).state) by {
        if i < devs.len() {
            assert(m[i].state == devs[i].state);
        } else {
            assert(m[i] == newcomers(devs, s)[i - devs.len()]);
        }
    }
}

/// A group moves as a whole: once an attach is accepted every member of the
/// group is reserved for the VM, and once it has succeeded every member is
/// attached to it. No device outside the group changes.
pub proof fn law_attach_claims_whole_group(t: DeviceTable, vm: VmId, a: PciAddress)
    requires
        devices_wf(t),
        attach_refusal(t, vm, a) is None,
    ensures
        ({
            let group = device(t, a).iommu_group;
            let reserved = after_reserve(t, vm, a);
            let attached = after_attach(reserved, vm, a, AttachOutcome::Attached);
            &&& pending_refusal(reserved, vm, a) is None
            &&& reserved.len() == t.len()
            &&& attached.len() == t.len()
            &&& forall|i: int|
                0 <= i < t.len() ==> (#[trigger] reserved[i]).state == if t[i].iommu_group
                    == group {
                    ReservationState::Reserved(vm)
                } else {
                    t[i].state
                }
            &&& forall|i: int|
                0 <= i < t.len() ==> (#[trigger] attached[i]).state == if t[i].iommu_group
                    == group {
                    ReservationState::Attached(vm)
                } else {
                    t[i].state
                }
        }),
{
    let group = device(t, a).iommu_group;
    let rs = ReservationState::Reserved(vm);
    let reserved = after_reserve(t, vm, a);
    lemma_relabelled_frame(t, Selection::Group(group), rs);
    lemma_device_after_relabel(t, Selection::Group(group), rs, a);
    let sel = Selection::GroupInState(group, rs);
    lemma_relabelled_frame(reserved, sel, ReservationState::Attached(vm));
    let attached = after_attach(reserved, vm, a, AttachOutcome::Attached);
    assert(attached == relabelled(reserved, sel, ReservationState::Attached(vm)));
    assert forall|i: int|
        0 <= i < t.len() implies (#[trigger] attached[i]).state == if t[i].iommu_group == group {
        ReservationState::Attached(vm)
    } else {
        t[i].state
    } by {
        assert(reserved[i].iommu_group == t[i].iommu_group);
    }
}

/// Reserving a group and then selecting what is reserved gives the group.
pub proof fn lemma_reserved_are_the_group(t: DeviceTable, group: u32, vm: VmId)
    ensures
        addresses_of(
            relabelled(t, Selection::Group(group), ReservationState::Reserved(vm)),
            Selection::GroupInState(group, ReservationState::Reserved(vm)),
        ) == addresses_of(t, Selection::Group(group)),
    decreases t.len(),
{
    let rs = ReservationState::Reserved(vm);
    let u = relabelled(t, Selection::Group(group), rs);
    if t.len() > 0 {
        lemma_reserved_are_the_group(t.drop_last(), group, vm);
        assert(u.drop_last() =~= relabelled(t.drop_last(), Selection::Group(group), rs));
        assert(u.last() == u[t.len() - 1]);
    } else {
        assert(u =~= t);
    }
}

/// A failed attach leaves nothing behind.
///
/// After an accepted attach that failed, every member of the group is
/// `Free` and every other device is as it was; where the group was free
/// before, the table is what it was. The devices to give back to their host
/// driver are the first of the plan, as many as had been switched, or the
/// whole plan when the domain refused the descriptor.
pub proof fn law_failed_attach_rolls_back(
    t: DeviceTable,
    vm: VmId,
    a: PciAddress,
    outcome: AttachOutcome,
)
    requires
        devices_wf(t),
        attach_refusal(t, vm, a) is None,
        !(outcome is Attached),
    ensures
        ({
            let group = device(t, a).iommu_group;
            let plan = attach_plan(t, a);
            let reserved = after_reserve(t, vm, a);
            let rolled = after_attach(reserved, vm, a, outcome);
            &&& pending_refusal(reserved, vm, a) is None
            &&& attach_error(reserved, vm, a, outcome) is Some
            &&& rolled == relabelled(t, Selection::Group(group), ReservationState::Free)
            &&& group_free(t, group) ==> rolled == t
            &&& group_free(rolled, group)
            &&& rebind_list(reserved, vm, a, outcome) == match outcome {
                AttachOutcome::BindFailed { switched, code } => if switched <= plan.len() {
                    plan.subrange(0, switched as int)
                } else {
                    plan
                },
                _ => plan,
            }
        }),
{
    let group = device(t, a).iommu_group;
    let rs = ReservationState::Reserved(vm);
    let reserved = after_reserve(t, vm, a);
    lemma_relabelled_frame(t, Selection::Group(group), rs);
    lemma_device_after_relabel(t, Selection::Group(group), rs, a);
    lemma_reserved_are_the_group(t, group, vm);
    let sel = Selection::GroupInState(group, rs);
    let rolled = after_attach(reserved, vm, a, outcome);
    assert(rolled == relabelled(reserved, sel, ReservationState::Free));
    lemma_relabelled_frame(reserved, sel, ReservationState::Free);
    lemma_relabelled_frame(t, Selection::Group(group), ReservationState::Free);
    assert(rolled =~= relabelled(t, Selection::Group(group), ReservationState::Free));
    if group_free(t, group) {
        assert(rolled =~= t);
    }
}

/// Groups that are of one mind are never split: uniform groups satisfy the
/// table's invariant on groups, and in each group all devices have the same
/// owner or all are free.
pub proof fn law_uniform_groups_are_intact(t: DeviceTable)
    requires
        groups_uniform(t),
    ensures
        groups_intact(t),
        forall|i: int, j: int|
            0 <= i < t.len() && 0 <= j < t.len() && (#[trigger] t[i]).iommu_group == (
            #[trigger] t[j]).iommu_group ==> t[i].state.owner() == t[j].state.owner(),
{
}

/// Attach and detach keep groups of one mind: in a table where every group
/// is uniform, it still is after an attach was accepted, after it was
/// finished either way, and after a detach was finished either way.
pub proof fn law_groups_stay_uniform(
    t: DeviceTable,
    vm: VmId,
    a: PciAddress,
    attach: AttachOutcome,
    detach: DetachOutcome,
)
    requires
        distinct_addresses(t),
        groups_uniform(t),
    ensures
        has_device(t, a) ==> groups_uniform(after_reserve(t, vm, a)),
        pending_refusal(t, vm, a) is None ==> groups_uniform(after_attach(t, vm, a, attach)),
        detach_refusal(t, vm, a) is None ==> groups_uniform(after_detach(t, vm, a, detach)),
{
    if has_device(t, a) {
        let k = index_of(t, a);
        let group = t[k].iommu_group;
        let rs = ReservationState::Reserved(vm);
        let at = ReservationState::Attached(vm);
        lemma_relabelled_frame(t, Selection::Group(group), rs);
        let r = after_reserve(t, vm, a);
        assert forall|i: int, j: int|
            0 <= i < r.len() && 0 <= j < r.len() && (#[trigger] r[i]).iommu_group == (
            #[trigger] r[j]).iommu_group implies r[i].state == r[j].state by {
            assert(t[i].iommu_group == t[j].iommu_group);
        }
        if pending_refusal(t, vm, a) is None {
            let next = if attach is Attached {
                at
            } else {
                ReservationState::Free
            };
            let sel = Selection::GroupInState(group, rs);
            lemma_relabelled_frame(t, sel, next);
            let u = after_attach(t, vm, a, attach);
            assert forall|i: int, j: int|
                0 <= i < u.len() && 0 <= j < u.len() && (#[trigger] u[i]).iommu_group == (
                #[trigger] u[j]).iommu_group implies u[i].state == u[j].state by {
                assert(t[i].iommu_group == t[j].iommu_group);
                assert(t[i].iommu_group == group ==> t[i].state == t[k].state);
            }
        }
        if detach_refusal(t, vm, a) is None {
            let sel = Selection::GroupInState(group, at);
            lemma_relabelled_frame(t, sel, ReservationState::Free);
            let u = after_detach(t, vm, a, detach);
            assert forall|i: int, j: int|
                0 <= i < u.len() && 0 <= j < u.len() && (#[trigger] u[i]).iommu_group == (
                #[trigger] u[j]).iommu_group implies u[i].state == u[j].state by {
                assert(t[i].iommu_group == t[j].iommu_group);
                assert(t[i].iommu_group == group ==> t[i].state == t[k].state);
            }
        }
    }
}

/// The devices attached to a VM are devices that it owns: every address
/// among them is that of a known device whose state is `Attached` to the VM.
pub proof fn law_attached_set_is_owned(t: DeviceTable, vm: VmId, a: PciAddress)
    requires
        distinct_addresses(t),
        attached_of(t, vm).contains(a),
    ensures
        has_device(t, a),
        device(t, a).state == ReservationState::Attached(vm),
        device(t, a).state.owner() == Some(vm),
{
    let sel = Selection::InState(ReservationState::Attached(vm));
    lemma_addresses_contain(t, sel, a);
    let i = choose|i: int| 0 <= i < t.len() && sel.selects(#[trigger] t[i]) && t[i].address == a;
    lemma_index_unique(t, i);
}

/// How many devices a selection picks.
pub open spec fn chosen(t: DeviceTable, sel: Selection) -> nat {
    addresses_of(t, sel).len()
}

/// Freeing devices does not add to the devices attached to a VM, and takes
/// one away for every device that was attached to it and is freed.
pub proof fn lemma_release_counts(t: DeviceTable, sel: Selection, vm: VmId, k: int)
    requires
        0 <= k < t.len(),
        sel.selects(t[k]),
        t[k].state == ReservationState::Attached(vm),
    ensures
        chosen(
            relabelled(t, sel, ReservationState::Free),
            Selection::InState(ReservationState::Attached(vm)),
        ) < chosen(t, Selection::InState(ReservationState::Attached(vm))),
    decreases t.len(),
{
    let mine = Selection::InState(ReservationState::Attached(vm));
    let u = relabelled(t, sel, ReservationState::Free);
    assert(u.drop_last() =~= relabelled(t.drop_last(), sel, ReservationState::Free));
    assert(u.last() == u[t.len() - 1]);
    if k < t.len() - 1 {
        assert(t.drop_last()[k] == t[k]);
        lemma_release_counts(t.drop_last(), sel, vm, k);
    } else {
        lemma_release_never_adds(t.drop_last(), sel, vm);
    }
}

/// Freeing devices does not add to the devices attached to a VM.
pub proof fn lemma_release_never_adds(t: DeviceTable, sel: Selection, vm: VmId)
    ensures
        chosen(
            relabelled(t, sel, ReservationState::Free),
            Selection::InState(ReservationState::Attached(vm)),
        ) <= chosen(t, Selection::InState(ReservationState::Attached(vm))),
    decreases t.len(),
{
    let u = relabelled(t, sel, ReservationState::Free);
    if t.len() > 0 {
        assert(u.drop_last() =~= relabelled(t.drop_last(), sel, ReservationState::Free));
        assert(u.last() == u[t.len() - 1]);
        lemma_release_never_adds(t.drop_last(), sel, vm);
    } else {
        assert(u =~= t);
    }
}

/// A detach frees every device of the group that was attached to the VM,
/// touches no other device, and leaves the VM with fewer devices than it
/// had: deleting a VM by detaching what it holds comes to an end.
pub proof fn law_detach_frees_group(t: DeviceTable, vm: VmId, a: PciAddress, restored: bool)
    requires
        devices_wf(t),
        detach_refusal(t, vm, a) is None,
    ensures
        ({
            let group = device(t, a).iommu_group;
            let released = after_detach(t, vm, a, DetachOutcome::Released { restored });
            &&& released.len() == t.len()
            &&& forall|i: int|
                0 <= i < t.len() ==> (#[trigger] released[i]).state == if t[i].iommu_group == group
                    && t[i].state == ReservationState::Attached(vm) {
                    ReservationState::Free
                } else {
                    t[i].state
                }
            &&& attached_of(released, vm).len() < attached_of(t, vm).len()
        }),
{
    let group = device(t, a).iommu_group;
    let sel = Selection::GroupInState(group, ReservationState::Attached(vm));
    lemma_relabelled_frame(t, sel, ReservationState::Free);
    let k = index_of(t, a);
    lemma_release_counts(t, sel, vm, k);
}

/// A VM that is being deleted or is deleted holds no device: as long as the
/// two tables are consistent, none is reserved for it or attached to it.
pub proof fn law_deleted_vm_holds_nothing(vms: VmTable, devs: DeviceTable, id: VmId)
    requires
        consistent(vms, devs),
        known(vms, id),
        vm_of(vms, id).status is Deleting || vm_of(vms, id).status is Deleted,
    ensures
        forall|i: int| 0 <= i < devs.len() ==> (#[trigger] devs[i]).state.owner() != Some(id),
        attached_of(devs, id).len() == 0,
{
    let sel = Selection::InState(ReservationState::Attached(id));
    lemma_addresses_empty(devs, sel);
    assert forall|i: int| 0 <= i < devs.len() implies !sel.selects(#[trigger] devs[i]) by {
        assert(devs[i].state.owner() != Some(id));
    }
}

/// A delete does not touch a VM that still has a device attached, and a
/// detach that failed leaves every device as it was: the VM is not deleted
/// and its devices are still attached.
pub proof fn law_delete_waits_for_detach(
    vms: VmTable,
    devs: DeviceTable,
    id: VmId,
    a: PciAddress,
    code: i32,
)
    requires
        delete_vm_refusal(vms, devs, id) is None,
        attached_of(devs, id).len() > 0,
    ensures
        after_delete_request(vms, devs, id) == vms,
        vm_of(vms, id).status.live(),
        after_detach(devs, id, a, DetachOutcome::DescriptorFailed { code }) == devs,
{
}

} // verus!
