//! The unified error taxonomy shared by every manager.

use vstd::prelude::*;

verus! {

/// Reasons for which an operation of the orchestration core is refused or fails.
#[derive(Clone, Copy, Debug, PartialEq, Eq, Structural)]
pub enum GpuShareError {
    /// The request itself is malformed; retrying it unchanged cannot succeed.
    ValidationError,
    /// The requested VM name is held by a VM that has not been deleted.
    AlreadyExistsError,
    /// The VM or GPU named by the request is not known.
    NotFoundError,
    /// The operation is not allowed from the current state of the VM.
    InvalidStateError,
    /// The IOMMU group is claimed, in whole or in part, by another VM.
    ResourceConflictError,
    /// The quota collaborator denied the request.
    QuotaExceededError,
    /// The hypervisor or driver backend failed; the payload is its error code.
    HypervisorError(i32),
    /// The host's device or IOMMU group metadata could not be used.
    DeviceDiscoveryError,
}

/// A non-fatal finding: the operation succeeded, but something is left for an
/// operator to look at.
#[derive(Clone, Copy, Debug, PartialEq, Eq, Structural)]
pub enum DegradedResourceWarning {
    /// The VM was cleared although the hypervisor could not undefine its
    /// domain; the payload is the backend's error code.
    DomainLeftDefined(i32),
    /// At least one released device could not be bound to its host driver again.
    DriverNotRestored,
}

impl GpuShareError {
    /// The text of the message for each error, as a sequence of characters.
    pub open spec fn message_text(self) -> Seq<char> {
        match self {
            GpuShareError::ValidationError => "invalid request"@,
            GpuShareError::AlreadyExistsError => "VM already exists"@,
            GpuShareError::NotFoundError => "resource not found"@,
            GpuShareError::InvalidStateError => "operation not valid in the current state"@,
            GpuShareError::ResourceConflictError => "IOMMU group is in use by another VM"@,
            GpuShareError::QuotaExceededError => "quota exceeded"@,
            GpuShareError::HypervisorError(_) => "hypervisor operation failed"@,
            GpuShareError::DeviceDiscoveryError => "device discovery failed"@,
        }
    }

    /// A short human-readable description of the error.
    pub fn message(&self) -> (text: String)
        ensures
            text@ == self.message_text(),
    {
        match self {
            GpuShareError::ValidationError => "invalid request".to_owned(),
            GpuShareError::AlreadyExistsError => "VM already exists".to_owned(),
            GpuShareError::NotFoundError => "resource not found".to_owned(),
            GpuShareError::InvalidStateError => {
                "operation not valid in the current state".to_owned()
            },
            GpuShareError::ResourceConflictError => {
                "IOMMU group is in use by another VM".to_owned()
            },
            GpuShareError::QuotaExceededError => "quota exceeded".to_owned(),
            GpuShareError::HypervisorError(_) => "hypervisor operation failed".to_owned(),
            GpuShareError::DeviceDiscoveryError => "device discovery failed".to_owned(),
        }
    }
}

} // verus!
