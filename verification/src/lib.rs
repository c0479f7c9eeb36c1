//! Orchestration core for virtual machines with exclusive GPU passthrough
//! on a single hypervisor host.
//!
//! The crate decides; it does not act. It keeps the table of VMs and the
//! table of GPUs, and says for every request whether it is accepted, what
//! the caller has to ask of the hypervisor or of the PCI drivers, and what
//! becomes of the tables once the caller reports how that went. The calls
//! themselves are made by the caller.
//!
//! * [`lifecycle`] holds the VM table and the state machine of a VM.
//! * [`inventory`] says what a scan of the host does to the GPU table.
//! * [`reservation`] holds the GPU table and moves IOMMU groups, as a
//!   whole, between `Free`, `Reserved` and `Attached`.
//! * [`orchestrator`] has the operations that need both tables.
//! * [`api`] has the request and response types of the management API.
//! * [`laws`] states and proves what holds across operations.
//!
//! Every operation is total: none has a precondition, and a request that
//! cannot be served is answered with a [`GpuShareError`] and changes
//! nothing. The invariants of the two tables hold at all times.

pub mod api;
pub mod device;
pub mod errors;
pub mod inventory;
pub mod laws;
pub mod lifecycle;
pub mod orchestrator;
pub mod pci;
pub mod reservation;
pub mod resource_manager;
pub mod vm;

pub use api::routes::{AttachGPURequest, CreateVMRequest, VMResponse};
pub use device::{DiscoveredGpu, GpuDevice, ReservationState};
pub use errors::{DegradedResourceWarning, GpuShareError};
pub use lifecycle::{DeleteReport, LifecycleManager, LifecycleNotification};
pub use orchestrator::{AttachPlan, DeletePlan, DetachPlan};
pub use pci::PciAddress;
pub use reservation::{
    AttachOutcome, AttachResolution, DetachOutcome, DetachReport, GroupPlan, ReservationManager,
};
pub use resource_manager::ResourceManager;
pub use vm::{VMConfig, VMStatus, Vm, VmId};
