//! The VM lifecycle manager: the table of VMs and the state machine that
//! every VM follows.
//!
//! The hypervisor is not called from here. Each operation that needs it comes
//! in two halves: `begin_*` decides whether the hypervisor may be called at
//! all, and `finish_*` takes what the hypervisor answered and settles the
//! VM's state. A delete begins in the orchestrator, because a VM that holds
//! GPUs has to give them back first.

use vstd::prelude::*;
use crate::errors::{DegradedResourceWarning, GpuShareError};
use crate::vm::{
    config_valid, requested_vm, with_status, VMConfig, VMConfigView, VMStatus, Vm, VmId, VmView,
};

verus! {

/// The VM table as a sequence indexed by id. An empty slot is an id whose
/// creation was rolled back.
pub type VmTable = Seq<Option<VmView>>;

/// What the hypervisor answered: success, or its error code.
pub type BackendOutcome = Result<(), i32>;

/// The steps that the hypervisor carries out on a VM.
#[derive(Clone, Copy, Debug, PartialEq, Eq, Structural)]
pub enum Transition {
    /// Define the domain of a requested VM.
    Define,
    Start,
    Stop,
    /// Undefine the domain of a VM that is being deleted.
    Undefine,
}

impl Transition {
    /// The states from which the step may be taken.
    pub open spec fn enabled(self, from: VMStatus) -> bool {
        match self {
            Transition::Define => from is Requested,
            Transition::Start => from.startable(),
            Transition::Stop => from.stoppable(),
            Transition::Undefine => from is Deleting,
        }
    }

    /// The state that the step leads to when the hypervisor succeeds.
    pub open spec fn target(self) -> VMStatus {
        match self {
            Transition::Define => VMStatus::Defined,
            Transition::Start => VMStatus::Running,
            Transition::Stop => VMStatus::Stopped,
            Transition::Undefine => VMStatus::Deleted,
        }
    }
}

/// What the metrics collaborator is told after a successful create or delete.
#[derive(Clone, Copy, Debug, PartialEq, Eq, Structural)]
pub enum LifecycleNotification {
    /// Sampling for this VM should start.
    Created(VmId),
    /// Sampling for this VM should stop.
    Deleted(VmId),
}

/// What a completed deletion reports.
#[derive(Clone, Copy, Debug, PartialEq, Eq, Structural)]
pub struct DeleteReport {
    pub notification: LifecycleNotification,
    /// Set when an administrative delete cleared a VM whose domain the
    /// hypervisor could not undefine.
    pub warning: Option<DegradedResourceWarning>,
}

pub open spec fn slot_view(slot: Option<Vm>) -> Option<VmView> {
    match slot {
        Some(vm) => Some(vm@),
        None => None,
    }
}

/// Whether `id` names a VM of the table.
pub open spec fn known(t: VmTable, id: VmId) -> bool {
    id < t.len() && t[id as int] is Some
}

/// The record of a known VM.
pub open spec fn vm_of(t: VmTable, id: VmId) -> VmView
    recommends
        known(t, id),
{
    t[id as int]->Some_0
}

/// Whether the slot holds a VM that still claims `name`.
pub open spec fn holds_name(slot: Option<VmView>, name: Seq<char>) -> bool {
    slot matches Some(vm) && vm.status.live() && vm.name == name
}

/// Whether some VM that has not been deleted bears `name`.
pub open spec fn name_in_use(t: VmTable, name: Seq<char>) -> bool {
    exists|i: int| 0 <= i < t.len() && holds_name(#[trigger] t[i], name)
}

/// Whether a record could have been accepted under the platform's minimum.
pub open spec fn record_valid(vm: VmView, min_memory_kb: u64) -> bool {
    &&& vm.name.len() > 0
    &&& vm.vcpus >= 1
    &&& vm.memory_kb >= min_memory_kb
    &&& vm.disk_path.len() > 0
    &&& vm.status is Error ==> vm.faulted
}

/// Whether a slot is empty or holds a valid record under the id `i`.
pub open spec fn slot_valid(slot: Option<VmView>, i: int, min_memory_kb: u64) -> bool {
    slot matches Some(vm) ==> vm.id == i && record_valid(vm, min_memory_kb)
}

/// Whether two slots hold VMs that claim the same name.
pub open spec fn share_name(a: Option<VmView>, b: Option<VmView>) -> bool {
    a matches Some(x) && holds_name(b, x.name) && x.status.live()
}

/// The invariant of the VM table: a VM sits in the slot of its id, every
/// record is one that validation accepts, and no two VMs that have not been
/// deleted share a name.
pub open spec fn table_wf(t: VmTable, min_memory_kb: u64) -> bool {
    &&& forall|i: int| 0 <= i < t.len() ==> slot_valid(#[trigger] t[i], i, min_memory_kb)
    &&& forall|i: int, j: int|
        0 <= i < j < t.len() ==> !share_name(#[trigger] t[i], #[trigger] t[j])
}

/// Why a creation is refused, if it is: a bad configuration first, a name
/// already in use second.
pub open spec fn create_refusal(
    t: VmTable,
    c: VMConfigView,
    min_memory_kb: u64,
) -> Option<GpuShareError> {
    if !config_valid(c, min_memory_kb) {
        Some(GpuShareError::ValidationError)
    } else if name_in_use(t, c.name) {
        Some(GpuShareError::AlreadyExistsError)
    } else {
        None
    }
}

/// The table after a creation was accepted: one more VM, in state `Requested`,
/// under the next id.
pub open spec fn after_request(t: VmTable, c: VMConfigView, now: u64) -> VmTable {
    t.push(Some(requested_vm(t.len() as VmId, c, now)))
}

/// Why a step is refused, if it is: an unknown id first, a state from which
/// the step cannot be taken second.
pub open spec fn step_refusal(t: VmTable, id: VmId, step: Transition) -> Option<GpuShareError> {
    if !known(t, id) {
        Some(GpuShareError::NotFoundError)
    } else if !step.enabled(vm_of(t, id).status) {
        Some(GpuShareError::InvalidStateError)
    } else {
        None
    }
}

/// Why a deletion is refused, if it is.
pub open spec fn delete_refusal(t: VmTable, id: VmId) -> Option<GpuShareError> {
    if !known(t, id) {
        Some(GpuShareError::NotFoundError)
    } else if !vm_of(t, id).status.deletable() {
        Some(GpuShareError::InvalidStateError)
    } else {
        None
    }
}

/// Why a VM cannot be declared failed, if so: terminal states are final.
pub open spec fn failure_refusal(t: VmTable, id: VmId) -> Option<GpuShareError> {
    if !known(t, id) {
        Some(GpuShareError::NotFoundError)
    } else if vm_of(t, id).status.terminal() {
        Some(GpuShareError::InvalidStateError)
    } else {
        None
    }
}

/// The table with one VM moved to another status.
pub open spec fn set_status(t: VmTable, id: VmId, status: VMStatus) -> VmTable
    recommends
        known(t, id),
{
    t.update(id as int, Some(with_status(vm_of(t, id), status)))
}

/// Whether a failed undefine is forgiven: the VM had already faulted, so its
/// deletion is the administrative, best-effort one.
pub open spec fn forgiven(t: VmTable, id: VmId, step: Transition) -> bool {
    step is Undefine && vm_of(t, id).faulted
}

/// The table after a step was reported as taken or failed.
///
/// A step that is refused changes nothing. Otherwise success moves the VM
/// to the step's target; a failed definition leaves no entry behind; a
/// failed undefine of a VM that had already faulted still clears it; every
/// other failure moves the VM to `Error`.
pub open spec fn settled(
    t: VmTable,
    id: VmId,
    step: Transition,
    outcome: BackendOutcome,
) -> VmTable {
    if step_refusal(t, id, step) is Some {
        t
    } else if outcome is Ok {
        set_status(t, id, step.target())
    } else if step is Define {
        t.update(id as int, None)
    } else if forgiven(t, id, step) {
        set_status(t, id, VMStatus::Deleted)
    } else {
        set_status(t, id, VMStatus::Error)
    }
}

/// What the caller is told after a step was reported as taken or failed:
/// the refusal if the step is refused, the hypervisor's failure unless it
/// is forgiven, and a warning where it is.
pub open spec fn settled_result(
    t: VmTable,
    id: VmId,
    step: Transition,
    outcome: BackendOutcome,
) -> Result<Option<DegradedResourceWarning>, GpuShareError> {
    match (step_refusal(t, id, step), outcome) {
        (Some(e), _) => Err(e),
        (None, Ok(_)) => Ok(None),
        (None, Err(code)) => if forgiven(t, id, step) {
            Ok(Some(DegradedResourceWarning::DomainLeftDefined(code)))
        } else {
            Err(GpuShareError::HypervisorError(code))
        },
    }
}

/// The VMs that `list` reports: those that have not been deleted, by id.
pub open spec fn listing(t: VmTable) -> Seq<VmView>
    decreases t.len(),
{
    if t.len() == 0 {
        Seq::empty()
    } else {
        let rest = listing(t.drop_last());
        match t.last() {
            Some(vm) => if vm.status.live() {
                rest.push(vm)
            } else {
                rest
            },
            None => rest,
        }
    }
}

/// The views of a list of records.
pub open spec fn vm_views(v: Seq<Vm>) -> Seq<VmView> {
    v.map_values(|vm: Vm| vm@)
}

/// The views of the slots of a table.
pub open spec fn slot_views(slots: Seq<Option<Vm>>) -> VmTable {
    slots.map_values(|slot: Option<Vm>| slot_view(slot))
}

fn name_taken(slots: &Vec<Option<Vm>>, name: &String) -> (taken: bool)
    ensures
        taken == name_in_use(slot_views(slots@), name@),
{
    let ghost t = slot_views(slots@);
    let mut i: usize = 0;
    while i < slots.len()
        invariant
            i <= slots.len(),
            t == slot_views(slots@),
            forall|k: int| 0 <= k < i ==> !holds_name(#[trigger] t[k], name@),
        decreases slots.len() - i,
    {
        match &slots[i] {
            Some(vm) => {
                if vm.status.is_live() && vm.name == *name {
                    assert(holds_name(t[i as int], name@));
                    return true;
                }
            },
            None => {},
        }
        i = i + 1;
    }
    false
}

fn status_in(slots: &Vec<Option<Vm>>, id: VmId) -> (res: Option<VMStatus>)
    ensures
        res == if known(slot_views(slots@), id) {
            Some(vm_of(slot_views(slots@), id).status)
        } else {
            None
        },
{
    if id >= slots.len() as u64 {
        return None;
    }
    match &slots[id as usize] {
        Some(vm) => Some(vm.status),
        None => None,
    }
}

fn step_enabled(step: Transition, from: VMStatus) -> (b: bool)
    ensures
        b == step.enabled(from),
{
    match step {
        Transition::Define => match from {
            VMStatus::Requested => true,
            _ => false,
        },
        Transition::Start => from.can_start(),
        Transition::Stop => from.can_stop(),
        Transition::Undefine => match from {
            VMStatus::Deleting => true,
            _ => false,
        },
    }
}

fn check_step(slots: &Vec<Option<Vm>>, id: VmId, step: Transition) -> (res: Result<
    (),
    GpuShareError,
>)
    ensures
        res.err() == step_refusal(slot_views(slots@), id, step),
{
    match status_in(slots, id) {
        None => Err(GpuShareError::NotFoundError),
        Some(status) => {
            if step_enabled(step, status) {
                Ok(())
            } else {
                Err(GpuShareError::InvalidStateError)
            }
        },
    }
}

fn put_status(slots: &mut Vec<Option<Vm>>, id: VmId, status: VMStatus)
    requires
        known(slot_views(old(slots)@), id),
    ensures
        slot_views(final(slots)@) == set_status(slot_views(old(slots)@), id, status),
{
    assert(slot_views(slots@).len() == slots.len());
    let i: usize = id as usize;
    let updated: Option<Vm> = match &slots[i] {
        Some(vm) => Some(vm.with_status(status)),
        None => None,
    };
    slots.set(i, updated);
    assert(slot_views(slots@) =~= set_status(slot_views(old(slots)@), id, status));
}

fn settle(slots: &mut Vec<Option<Vm>>, id: VmId, step: Transition, outcome: BackendOutcome) -> (res:
    Result<Option<DegradedResourceWarning>, GpuShareError>)
    ensures
        res == settled_result(slot_views(old(slots)@), id, step, outcome),
        slot_views(final(slots)@) == settled(slot_views(old(slots)@), id, step, outcome),
{
    match check_step(slots, id, step) {
        Err(e) => {
            return Err(e);
        },
        Ok(_) => {},
    }
    assert(slot_views(slots@).len() == slots.len());
    let i: usize = id as usize;
    let faulted: bool = match &slots[i] {
        Some(vm) => vm.faulted,
        None => false,
    };
    match outcome {
        Ok(_) => {
            let target = match step {
                Transition::Define => VMStatus::Defined,
                Transition::Start => VMStatus::Running,
                Transition::Stop => VMStatus::Stopped,
                Transition::Undefine => VMStatus::Deleted,
            };
            put_status(slots, id, target);
            Ok(None)
        },
        Err(code) => {
            match step {
                Transition::Define => {
                    slots.set(i, None);
                    assert(slot_views(slots@) =~= slot_views(old(slots)@).update(id as int, None));
                    Err(GpuShareError::HypervisorError(code))
                },
                Transition::Undefine => {
                    if faulted {
                        put_status(slots, id, VMStatus::Deleted);
                        Ok(Some(DegradedResourceWarning::DomainLeftDefined(code)))
                    } else {
                        put_status(slots, id, VMStatus::Error);
                        Err(GpuShareError::HypervisorError(code))
                    }
                },
                _ => {
                    put_status(slots, id, VMStatus::Error);
                    Err(GpuShareError::HypervisorError(code))
                },
            }
        },
    }
}

/// The lifecycle manager: owner of the VM table.
///
/// The table's invariant, [`table_wf`], holds of every manager at all
/// times: no operation asks for it, and every operation keeps it.
pub struct LifecycleManager {
    slots: Vec<Option<Vm>>,
    min_memory_kb: u64,
}

impl View for LifecycleManager {
    type V = VmTable;

    closed spec fn view(&self) -> VmTable {
        slot_views(self.slots@)
    }
}

impl LifecycleManager {
    #[verifier::type_invariant]
    spec fn well_formed(self) -> bool {
        table_wf(slot_views(self.slots@), self.min_memory_kb)
    }

    /// The least memory, in KiB, that this platform gives a VM.
    pub closed spec fn min_memory(&self) -> u64 {
        self.min_memory_kb
    }

    /// The manager's invariant; see [`table_wf`].
    pub open spec fn wf(&self) -> bool {
        table_wf(self@, self.min_memory())
    }

    /// A manager without VMs, for a platform with the given minimum memory.
    pub fn new(min_memory_kb: u64) -> (m: LifecycleManager)
        ensures
            m.wf(),
            m@ == Seq::<Option<VmView>>::empty(),
            m.min_memory() == min_memory_kb,
    {
        let m = LifecycleManager { slots: Vec::new(), min_memory_kb };
        assert(m@ =~= Seq::<Option<VmView>>::empty());
        m
    }

    /// The platform's minimum memory, in KiB. The manager is well formed,
    /// as it always is.
    pub fn min_memory_kb(&self) -> (min: u64)
        ensures
            min == self.min_memory(),
            self.wf(),
    {
        proof {
            use_type_invariant(self);
        }
        self.min_memory_kb
    }

    fn take_slots(&mut self) -> (slots: Vec<Option<Vm>>)
        ensures
            slots == old(self).slots,
            final(self).min_memory_kb == old(self).min_memory_kb,
            final(self).slots@ == Seq::<Option<Vm>>::empty(),
            table_wf(slot_views(slots@), old(self).min_memory_kb),
    {
        proof {
            use_type_invariant(&*self);
        }
        let mut slots: Vec<Option<Vm>> = Vec::new();
        assert(slot_views(slots@) =~= Seq::<Option<VmView>>::empty());
        std::mem::swap(&mut slots, &mut self.slots);
        slots
    }

    /// First half of `create`: validates the configuration and claims the name.
    ///
    /// On acceptance the VM is entered in state `Requested` under a fresh id,
    /// which is returned; the caller then asks the hypervisor to define the
    /// domain and reports the answer to [`Self::finish_create`]. On refusal
    /// nothing changes, and the hypervisor must not be called.
    pub fn begin_create(&mut self, config: &VMConfig, now: u64) -> (res: Result<
        VmId,
        GpuShareError,
    >)
        ensures
            final(self).wf(),
            final(self).min_memory() == old(self).min_memory(),
            res.err() == create_refusal(old(self)@, config@, old(self).min_memory()),
            res is Err ==> final(self)@ == old(self)@,
            res matches Ok(id) ==> id == old(self)@.len() && final(self)@ == after_request(
                old(self)@,
                config@,
                now,
            ),
    {
        proof {
            use_type_invariant(&*self);
        }
        if !config.is_valid(self.min_memory_kb) {
            return Err(GpuShareError::ValidationError);
        }
        if name_taken(&self.slots, &config.name) {
            return Err(GpuShareError::AlreadyExistsError);
        }
        let mut slots = self.take_slots();
        let id: VmId = slots.len() as VmId;
        slots.push(Some(Vm::requested(id, config, now)));
        proof {
            assert(slot_views(slots@) =~= after_request(old(self)@, config@, now));
            lemma_request_wf(old(self)@, old(self).min_memory(), config@, now);
        }
        self.slots = slots;
        Ok(id)
    }

    fn settle(&mut self, id: VmId, step: Transition, outcome: BackendOutcome) -> (res: Result<
        Option<DegradedResourceWarning>,
        GpuShareError,
    >)
        ensures
            final(self).wf(),
            final(self).min_memory() == old(self).min_memory(),
            res == settled_result(old(self)@, id, step, outcome),
            final(self)@ == settled(old(self)@, id, step, outcome),
    {
        let mut slots = self.take_slots();
        proof {
            lemma_settled_wf(old(self)@, old(self).min_memory(), id, step, outcome);
        }
        let res = settle(&mut slots, id, step, outcome);
        self.slots = slots;
        res
    }

    /// Second half of `create`: settles a requested VM by the hypervisor's answer.
    ///
    /// If the domain was defined the VM becomes `Defined` and the metrics
    /// collaborator is to be told; if not, the entry is removed again and
    /// the failure is returned as `HypervisorError`.
    pub fn finish_create(&mut self, id: VmId, outcome: BackendOutcome) -> (res: Result<
        LifecycleNotification,
        GpuShareError,
    >)
        ensures
            final(self).wf(),
            final(self).min_memory() == old(self).min_memory(),
            final(self)@ == settled(old(self)@, id, Transition::Define, outcome),
            res.err() == settled_result(old(self)@, id, Transition::Define, outcome).err(),
            res matches Ok(notification) ==> notification == LifecycleNotification::Created(id),
    {
        match self.settle(id, Transition::Define, outcome) {
            Ok(_) => Ok(LifecycleNotification::Created(id)),
            Err(e) => Err(e),
        }
    }

    /// First half of `start`: says whether the hypervisor may be asked to
    /// start the VM. Nothing changes.
    pub fn begin_start(&self, id: VmId) -> (res: Result<(), GpuShareError>)
        ensures
            res.err() == step_refusal(self@, id, Transition::Start),
    {
        check_step(&self.slots, id, Transition::Start)
    }

    /// Second half of `start`: the VM becomes `Running`, or `Error` if the
    /// hypervisor failed.
    pub fn finish_start(&mut self, id: VmId, outcome: BackendOutcome) -> (res: Result<
        (),
        GpuShareError,
    >)
        ensures
            final(self).wf(),
            final(self).min_memory() == old(self).min_memory(),
            final(self)@ == settled(old(self)@, id, Transition::Start, outcome),
            res.err() == settled_result(old(self)@, id, Transition::Start, outcome).err(),
    {
        match self.settle(id, Transition::Start, outcome) {
            Ok(_) => Ok(()),
            Err(e) => Err(e),
        }
    }

    /// First half of `stop`: says whether the hypervisor may be asked to
    /// stop the VM. Nothing changes.
    pub fn begin_stop(&self, id: VmId) -> (res: Result<(), GpuShareError>)
        ensures
            res.err() == step_refusal(self@, id, Transition::Stop),
    {
        check_step(&self.slots, id, Transition::Stop)
    }

    /// Second half of `stop`: the VM becomes `Stopped`, or `Error` if the
    /// hypervisor failed.
    pub fn finish_stop(&mut self, id: VmId, outcome: BackendOutcome) -> (res: Result<
        (),
        GpuShareError,
    >)
        ensures
            final(self).wf(),
            final(self).min_memory() == old(self).min_memory(),
            final(self)@ == settled(old(self)@, id, Transition::Stop, outcome),
            res.err() == settled_result(old(self)@, id, Transition::Stop, outcome).err(),
    {
        match self.settle(id, Transition::Stop, outcome) {
            Ok(_) => Ok(()),
            Err(e) => Err(e),
        }
    }

    fn move_to(&mut self, id: VmId, status: VMStatus)
        requires
            known(old(self)@, id),
            vm_of(old(self)@, id).status.live(),
        ensures
            final(self).wf(),
            final(self).min_memory() == old(self).min_memory(),
            final(self)@ == set_status(old(self)@, id, status),
    {
        let mut slots = self.take_slots();
        proof {
            lemma_set_status_wf(old(self)@, old(self).min_memory(), id, status);
        }
        put_status(&mut slots, id, status);
        self.slots = slots;
    }

    /// First half of `delete`: moves the VM to `Deleting`, after which the
    /// caller asks the hypervisor to undefine the domain.
    ///
    /// This half knows nothing of GPUs, and so is not for callers outside:
    /// a delete goes through the orchestrator, which sees to it that the VM
    /// holds no device when it gets here.
    pub(crate) fn begin_delete(&mut self, id: VmId) -> (res: Result<(), GpuShareError>)
        ensures
            final(self).wf(),
            final(self).min_memory() == old(self).min_memory(),
            res.err() == delete_refusal(old(self)@, id),
            res is Err ==> final(self)@ == old(self)@,
            res is Ok ==> final(self)@ == set_status(old(self)@, id, VMStatus::Deleting),
    {
        proof {
            use_type_invariant(&*self);
        }
        match status_in(&self.slots, id) {
            None => Err(GpuShareError::NotFoundError),
            Some(status) => {
                if status.can_delete() {
                    self.move_to(id, VMStatus::Deleting);
                    Ok(())
                } else {
                    Err(GpuShareError::InvalidStateError)
                }
            },
        }
    }

    /// Second half of `delete`: the VM becomes `Deleted` and the metrics
    /// collaborator is to be told.
    ///
    /// If the hypervisor could not undefine the domain, a VM that had
    /// already faulted is cleared all the same, with a warning; any other VM
    /// moves to `Error` and the failure is returned.
    pub fn finish_delete(&mut self, id: VmId, outcome: BackendOutcome) -> (res: Result<
        DeleteReport,
        GpuShareError,
    >)
        ensures
            final(self).wf(),
            final(self).min_memory() == old(self).min_memory(),
            final(self)@ == settled(old(self)@, id, Transition::Undefine, outcome),
            res.err() == settled_result(old(self)@, id, Transition::Undefine, outcome).err(),
            res matches Ok(report) ==> report.notification == LifecycleNotification::Deleted(id)
                && report.warning == settled_result(
                old(self)@,
                id,
                Transition::Undefine,
                outcome,
            )->Ok_0,
    {
        match self.settle(id, Transition::Undefine, outcome) {
            Ok(warning) => Ok(
                DeleteReport { notification: LifecycleNotification::Deleted(id), warning },
            ),
            Err(e) => Err(e),
        }
    }

    /// Declares a VM failed: a watchdog that has given up on a hypervisor
    /// call moves the VM to `Error` from any state that is not terminal.
    pub fn mark_failed(&mut self, id: VmId) -> (res: Result<(), GpuShareError>)
        ensures
            final(self).wf(),
            final(self).min_memory() == old(self).min_memory(),
            res.err() == failure_refusal(old(self)@, id),
            res is Err ==> final(self)@ == old(self)@,
            res is Ok ==> final(self)@ == set_status(old(self)@, id, VMStatus::Error),
    {
        proof {
            use_type_invariant(&*self);
        }
        match status_in(&self.slots, id) {
            None => Err(GpuShareError::NotFoundError),
            Some(status) => {
                if status.is_terminal() {
                    Err(GpuShareError::InvalidStateError)
                } else {
                    self.move_to(id, VMStatus::Error);
                    Ok(())
                }
            },
        }
    }

    /// A snapshot of one VM, in whatever state it is, `Deleted` included.
    pub fn get(&self, id: VmId) -> (res: Result<Vm, GpuShareError>)
        ensures
            match res {
                Ok(vm) => known(self@, id) && vm@ == vm_of(self@, id),
                Err(e) => !known(self@, id) && e == GpuShareError::NotFoundError,
            },
    {
        if id >= self.slots.len() as u64 {
            return Err(GpuShareError::NotFoundError);
        }
        match &self.slots[id as usize] {
            Some(vm) => Ok(vm.snapshot()),
            None => Err(GpuShareError::NotFoundError),
        }
    }

    /// The status of one VM, if the id is known.
    pub fn status(&self, id: VmId) -> (res: Option<VMStatus>)
        ensures
            res == if known(self@, id) {
                Some(vm_of(self@, id).status)
            } else {
                None
            },
    {
        status_in(&self.slots, id)
    }

    /// Snapshots of the VMs that have not been deleted, in the order of
    /// their creation.
    pub fn list(&self) -> (vms: Vec<Vm>)
        ensures
            vm_views(vms@) == listing(self@),
    {
        let mut vms: Vec<Vm> = Vec::new();
        let mut i: usize = 0;
        assert(self@.take(0) =~= Seq::<Option<VmView>>::empty());
        assert(vm_views(vms@) =~= Seq::<VmView>::empty());
        while i < self.slots.len()
            invariant
                i <= self.slots.len(),
                self@.len() == self.slots.len(),
                vm_views(vms@) == listing(self@.take(i as int)),
            decreases self.slots.len() - i,
        {
            let ghost before = vms@;
            proof {
                assert(self@.take(i + 1).drop_last() =~= self@.take(i as int));
                assert(self@.take(i + 1).last() == self@[i as int]);
            }
            match &self.slots[i] {
                Some(vm) => {
                    if vm.status.is_live() {
                        vms.push(vm.snapshot());
                        assert(vm_views(vms@) =~= vm_views(before).push(vm@));
                    }
                },
                None => {},
            }
            i = i + 1;
        }
        assert(self@.take(i as int) =~= self@);
        vms
    }
}

/// Accepting a creation keeps the table's invariant.
pub proof fn lemma_request_wf(t: VmTable, min_memory_kb: u64, c: VMConfigView, now: u64)
    requires
        table_wf(t, min_memory_kb),
        t.len() <= u64::MAX,
        create_refusal(t, c, min_memory_kb) is None,
    ensures
        table_wf(after_request(t, c, now), min_memory_kb),
{
    let u = after_request(t, c, now);
    assert forall|i: int, j: int| 0 <= i < j < u.len() implies !share_name(
        #[trigger] u[i],
        #[trigger] u[j],
    ) by {
        if j == t.len() && u[i] is Some {
            assert(!holds_name(t[i], c.name));
        }
    }
}

/// Moving a VM along an edge that keeps or ends its claim on its name keeps
/// the table's invariant.
pub proof fn lemma_set_status_wf(t: VmTable, min_memory_kb: u64, id: VmId, status: VMStatus)
    requires
        table_wf(t, min_memory_kb),
        known(t, id),
        vm_of(t, id).status.live(),
    ensures
        table_wf(set_status(t, id, status), min_memory_kb),
{
    let u = set_status(t, id, status);
    assert forall|i: int, j: int| 0 <= i < j < u.len() implies !share_name(
        #[trigger] u[i],
        #[trigger] u[j],
    ) by {
        assert(t[i] is Some ==> t[i]->Some_0.name == u[i]->Some_0.name);
        assert(t[j] is Some ==> t[j]->Some_0.name == u[j]->Some_0.name);
    }
}

/// Settling a step keeps the table's invariant.
pub proof fn lemma_settled_wf(
    t: VmTable,
    min_memory_kb: u64,
    id: VmId,
    step: Transition,
    outcome: BackendOutcome,
)
    requires
        table_wf(t, min_memory_kb),
    ensures
        table_wf(settled(t, id, step, outcome), min_memory_kb),
{
    if step_refusal(t, id, step) is Some {
        return ;
    }
    lemma_set_status_wf(t, min_memory_kb, id, step.target());
    lemma_set_status_wf(t, min_memory_kb, id, VMStatus::Deleted);
    lemma_set_status_wf(t, min_memory_kb, id, VMStatus::Error);
    let u = t.update(id as int, None);
    assert forall|i: int, j: int| 0 <= i < j < u.len() implies !share_name(
        #[trigger] u[i],
        #[trigger] u[j],
    ) by {
        assert(u[i] is Some ==> u[i] == t[i]);
        assert(u[j] is Some ==> u[j] == t[j]);
    }
}

} // verus!
