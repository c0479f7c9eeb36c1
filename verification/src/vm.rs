//! Virtual machines: their configuration, their record and the states of
//! their lifecycle.

use vstd::prelude::*;

verus! {

/// The identity of a VM: a handle that is issued once and never again.
pub type VmId = u64;

/// The minimum memory, in KiB, of a platform that names none: 128 MiB.
pub const DEFAULT_MIN_MEMORY_KB: u64 = 131_072;

/// The states of the VM lifecycle.
///
/// `Requested -> Defined -> Running <-> Stopped -> Deleting -> Deleted`, with
/// `Error` entered when the hypervisor fails beyond recovery.
#[derive(Clone, Copy, Debug, PartialEq, Eq, Hash, Structural)]
pub enum VMStatus {
    /// Creation was accepted; the hypervisor has not defined the domain yet.
    Requested,
    /// The domain is defined and has never been started, or not since.
    Defined,
    Running,
    Stopped,
    /// Deletion was accepted; the hypervisor has not undefined the domain yet.
    Deleting,
    Deleted,
    /// The hypervisor failed on this VM; only an administrative delete clears it.
    Error,
}

impl VMStatus {
    /// `Deleted` and `Error` end the automated lifecycle.
    pub open spec fn terminal(self) -> bool {
        self is Deleted || self is Error
    }

    /// A VM holds its name until it is `Deleted`.
    pub open spec fn live(self) -> bool {
        !(self is Deleted)
    }

    /// States from which the VM can be started.
    pub open spec fn startable(self) -> bool {
        self is Defined || self is Stopped
    }

    /// States from which the VM can be stopped.
    pub open spec fn stoppable(self) -> bool {
        self is Running
    }

    /// States from which deletion is accepted: every non-terminal state but
    /// `Deleting` itself, and `Error` for the administrative delete.
    pub open spec fn deletable(self) -> bool {
        !(self is Deleting) && !(self is Deleted)
    }

    /// States in which a VM may hold GPUs.
    pub open spec fn attachable(self) -> bool {
        self is Defined || self is Running || self is Stopped
    }

    /// The edges of the state machine.
    pub open spec fn may_become(self, next: VMStatus) -> bool {
        match (self, next) {
            (VMStatus::Requested, VMStatus::Defined) => true,
            (VMStatus::Defined, VMStatus::Running) => true,
            (VMStatus::Stopped, VMStatus::Running) => true,
            (VMStatus::Running, VMStatus::Stopped) => true,
            (VMStatus::Deleting, VMStatus::Deleted) => true,
            (from, VMStatus::Deleting) => from.deletable(),
            (from, VMStatus::Error) => !from.terminal(),
            _ => false,
        }
    }

    #[verifier::when_used_as_spec(terminal)]
    pub fn is_terminal(self) -> (b: bool)
        ensures
            b == self.terminal(),
    {
        match self {
            VMStatus::Deleted | VMStatus::Error => true,
            _ => false,
        }
    }

    #[verifier::when_used_as_spec(live)]
    pub fn is_live(self) -> (b: bool)
        ensures
            b == self.live(),
    {
        match self {
            VMStatus::Deleted => false,
            _ => true,
        }
    }

    #[verifier::when_used_as_spec(startable)]
    pub fn can_start(self) -> (b: bool)
        ensures
            b == self.startable(),
    {
        match self {
            VMStatus::Defined | VMStatus::Stopped => true,
            _ => false,
        }
    }

    #[verifier::when_used_as_spec(stoppable)]
    pub fn can_stop(self) -> (b: bool)
        ensures
            b == self.stoppable(),
    {
        match self {
            VMStatus::Running => true,
            _ => false,
        }
    }

    #[verifier::when_used_as_spec(deletable)]
    pub fn can_delete(self) -> (b: bool)
        ensures
            b == self.deletable(),
    {
        match self {
            VMStatus::Deleting | VMStatus::Deleted => false,
            _ => true,
        }
    }

    #[verifier::when_used_as_spec(attachable)]
    pub fn can_attach(self) -> (b: bool)
        ensures
            b == self.attachable(),
    {
        match self {
            VMStatus::Defined | VMStatus::Running | VMStatus::Stopped => true,
            _ => false,
        }
    }
}

/// What a caller asks for when creating a VM.
#[derive(Clone, Debug, PartialEq, Eq)]
pub struct VMConfig {
    pub name: String,
    pub memory_kb: u64,
    pub vcpus: u32,
    pub disk_path: String,
    pub disk_size_gb: u64,
}

/// The mathematical content of a [`VMConfig`].
pub struct VMConfigView {
    pub name: Seq<char>,
    pub memory_kb: u64,
    pub vcpus: u32,
    pub disk_path: Seq<char>,
    pub disk_size_gb: u64,
}

impl View for VMConfig {
    type V = VMConfigView;

    open spec fn view(&self) -> VMConfigView {
        VMConfigView {
            name: self.name@,
            memory_kb: self.memory_kb,
            vcpus: self.vcpus,
            disk_path: self.disk_path@,
            disk_size_gb: self.disk_size_gb,
        }
    }
}

/// A configuration is acceptable when it names the VM, gives it at least one
/// virtual CPU and at least the platform's minimum of memory, and names a disk.
pub open spec fn config_valid(c: VMConfigView, min_memory_kb: u64) -> bool {
    &&& c.name.len() > 0
    &&& c.vcpus >= 1
    &&& c.memory_kb >= min_memory_kb
    &&& c.disk_path.len() > 0
}

impl VMConfig {
    /// Checks the configuration against the platform's minimum memory.
    pub fn is_valid(&self, min_memory_kb: u64) -> (ok: bool)
        ensures
            ok == config_valid(self@, min_memory_kb),
    {
        !self.name.as_str().is_empty() && self.vcpus >= 1 && self.memory_kb >= min_memory_kb
            && !self.disk_path.as_str().is_empty()
    }
}

/// The record that the lifecycle manager keeps of one VM.
#[derive(Clone, Debug, PartialEq, Eq)]
pub struct Vm {
    pub id: VmId,
    pub name: String,
    pub vcpus: u32,
    pub memory_kb: u64,
    pub disk_path: String,
    pub disk_size_gb: u64,
    pub status: VMStatus,
    /// When creation was requested, on the caller's clock.
    pub created_at: u64,
    /// Whether the hypervisor has ever failed on this VM.
    pub faulted: bool,
}

/// The mathematical content of a [`Vm`].
pub struct VmView {
    pub id: VmId,
    pub name: Seq<char>,
    pub vcpus: u32,
    pub memory_kb: u64,
    pub disk_path: Seq<char>,
    pub disk_size_gb: u64,
    pub status: VMStatus,
    pub created_at: u64,
    pub faulted: bool,
}

impl View for Vm {
    type V = VmView;

    open spec fn view(&self) -> VmView {
        VmView {
            id: self.id,
            name: self.name@,
            vcpus: self.vcpus,
            memory_kb: self.memory_kb,
            disk_path: self.disk_path@,
            disk_size_gb: self.disk_size_gb,
            status: self.status,
            created_at: self.created_at,
            faulted: self.faulted,
        }
    }
}

/// The record of a VM whose creation has just been accepted.
pub open spec fn requested_vm(id: VmId, c: VMConfigView, now: u64) -> VmView {
    VmView {
        id,
        name: c.name,
        vcpus: c.vcpus,
        memory_kb: c.memory_kb,
        disk_path: c.disk_path,
        disk_size_gb: c.disk_size_gb,
        status: VMStatus::Requested,
        created_at: now,
        faulted: false,
    }
}

/// The record after a change of status; entering `Error` marks the VM as faulted.
pub open spec fn with_status(vm: VmView, status: VMStatus) -> VmView {
    VmView { status, faulted: vm.faulted || status is Error, ..vm }
}

impl Vm {
    /// A copy of the record in another status.
    pub fn with_status(&self, status: VMStatus) -> (vm: Vm)
        ensures
            vm@ == with_status(self@, status),
    {
        let faulted = match status {
            VMStatus::Error => true,
            _ => self.faulted,
        };
        Vm {
            id: self.id,
            name: self.name.clone(),
            vcpus: self.vcpus,
            memory_kb: self.memory_kb,
            disk_path: self.disk_path.clone(),
            disk_size_gb: self.disk_size_gb,
            status,
            created_at: self.created_at,
            faulted,
        }
    }

    /// The record for a creation that has just been accepted.
    pub fn requested(id: VmId, config: &VMConfig, now: u64) -> (vm: Vm)
        ensures
            vm@ == requested_vm(id, config@, now),
    {
        Vm {
            id,
            name: config.name.clone(),
            vcpus: config.vcpus,
            memory_kb: config.memory_kb,
            disk_path: config.disk_path.clone(),
            disk_size_gb: config.disk_size_gb,
            status: VMStatus::Requested,
            created_at: now,
            faulted: false,
        }
    }

    /// An independent copy of the record.
    pub fn snapshot(&self) -> (copy: Vm)
        ensures
            copy@ == self@,
    {
        Vm {
            id: self.id,
            name: self.name.clone(),
            vcpus: self.vcpus,
            memory_kb: self.memory_kb,
            disk_path: self.disk_path.clone(),
            disk_size_gb: self.disk_size_gb,
            status: self.status,
            created_at: self.created_at,
            faulted: self.faulted,
        }
    }
}

} // verus!
