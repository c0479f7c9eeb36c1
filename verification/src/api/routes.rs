//! What the management API takes in and gives out, and how these values
//! relate to the records of the core.

use vstd::prelude::*;
use vstd::string::StringExecFns;
use vstd::utf8::encode_utf8;
use crate::errors::GpuShareError;
use crate::pci::{parsed_pci, PciAddress};
use crate::vm::{VMConfig, VMConfigView, VMStatus, Vm, VmId, VmView};

verus! {

/// Disk size, in GiB, of a VM whose request names none.
pub const DEFAULT_DISK_SIZE_GB: u64 = 20;

/// A request to create a VM.
#[derive(Clone, Debug, PartialEq, Eq)]
pub struct CreateVMRequest {
    pub name: String,
    pub cpu_cores: u32,
    pub memory_mb: u64,
    pub gpu_required: bool,
    pub disk_size_gb: Option<u64>,
}

/// The mathematical content of a [`CreateVMRequest`].
pub struct CreateVMRequestView {
    pub name: Seq<char>,
    pub cpu_cores: u32,
    pub memory_mb: u64,
    pub gpu_required: bool,
    pub disk_size_gb: Option<u64>,
}

impl View for CreateVMRequest {
    type V = CreateVMRequestView;

    open spec fn view(&self) -> CreateVMRequestView {
        CreateVMRequestView {
            name: self.name@,
            cpu_cores: self.cpu_cores,
            memory_mb: self.memory_mb,
            gpu_required: self.gpu_required,
            disk_size_gb: self.disk_size_gb,
        }
    }
}

/// A VM as the API reports it.
#[derive(Clone, Debug, PartialEq, Eq)]
pub struct VMResponse {
    pub id: VmId,
    pub name: String,
    pub status: VMStatus,
    pub gpu_attached: bool,
    pub memory_mb: u64,
    pub cpu_cores: u32,
    pub disk_size_gb: u64,
}

/// The mathematical content of a [`VMResponse`].
pub struct VMResponseView {
    pub id: VmId,
    pub name: Seq<char>,
    pub status: VMStatus,
    pub gpu_attached: bool,
    pub memory_mb: u64,
    pub cpu_cores: u32,
    pub disk_size_gb: u64,
}

impl View for VMResponse {
    type V = VMResponseView;

    open spec fn view(&self) -> VMResponseView {
        VMResponseView {
            id: self.id,
            name: self.name@,
            status: self.status,
            gpu_attached: self.gpu_attached,
            memory_mb: self.memory_mb,
            cpu_cores: self.cpu_cores,
            disk_size_gb: self.disk_size_gb,
        }
    }
}

/// A request to attach a GPU to a VM.
#[derive(Clone, Debug, PartialEq, Eq)]
pub struct AttachGPURequest {
    /// The PCI address of the GPU, as `DDDD:BB:DD.F`.
    pub gpu_id: String,
}

/// Where the disk image of a VM with this name lies.
pub open spec fn image_path(name: Seq<char>) -> Seq<char> {
    "/var/lib/gpu-share/images/"@ + name + ".qcow2"@
}

/// Whether the requested memory can be counted in KiB.
pub open spec fn memory_representable(r: CreateVMRequestView) -> bool {
    r.memory_mb * 1024 <= u64::MAX
}

/// The configuration that a request stands for.
pub open spec fn requested_config(r: CreateVMRequestView) -> VMConfigView
    recommends
        memory_representable(r),
{
    VMConfigView {
        name: r.name,
        memory_kb: (r.memory_mb * 1024) as u64,
        vcpus: r.cpu_cores,
        disk_path: image_path(r.name),
        disk_size_gb: match r.disk_size_gb {
            Some(size) => size,
            None => DEFAULT_DISK_SIZE_GB,
        },
    }
}

/// How a VM record is reported; memory is given in whole MiB.
pub open spec fn response_of(vm: VmView, gpu_attached: bool) -> VMResponseView {
    VMResponseView {
        id: vm.id,
        name: vm.name,
        status: vm.status,
        gpu_attached,
        memory_mb: vm.memory_kb / 1024,
        cpu_cores: vm.vcpus,
        disk_size_gb: vm.disk_size_gb,
    }
}

impl CreateVMRequest {
    /// Turns the request into a configuration.
    ///
    /// Memory is converted to KiB, the disk image is placed under the image
    /// directory by the VM's name, and the disk size defaults to
    /// [`DEFAULT_DISK_SIZE_GB`]. A memory size that cannot be counted in KiB
    /// is a `ValidationError`.
    pub fn to_config(&self) -> (res: Result<VMConfig, GpuShareError>)
        ensures
            match res {
                Ok(config) => memory_representable(self@) && config@ == requested_config(self@),
                Err(e) => !memory_representable(self@) && e == GpuShareError::ValidationError,
            },
    {
        let memory_kb: u64 = match self.memory_mb.checked_mul(1024) {
            Some(kb) => kb,
            None => {
                return Err(GpuShareError::ValidationError);
            },
        };
        let disk_path = "/var/lib/gpu-share/images/".to_owned().concat(self.name.as_str()).concat(
            ".qcow2",
        );
        let disk_size_gb: u64 = match self.disk_size_gb {
            Some(size) => size,
            None => DEFAULT_DISK_SIZE_GB,
        };
        Ok(
            VMConfig {
                name: self.name.clone(),
                memory_kb,
                vcpus: self.cpu_cores,
                disk_path,
                disk_size_gb,
            },
        )
    }
}

impl VMResponse {
    /// Reports a VM record; `gpu_attached` says whether the VM holds a GPU.
    pub fn from_vm(vm: &Vm, gpu_attached: bool) -> (response: VMResponse)
        ensures
            response@ == response_of(vm@, gpu_attached),
    {
        VMResponse {
            id: vm.id,
            name: vm.name.clone(),
            status: vm.status,
            gpu_attached,
            memory_mb: vm.memory_kb / 1024,
            cpu_cores: vm.vcpus,
            disk_size_gb: vm.disk_size_gb,
        }
    }
}

impl AttachGPURequest {
    /// The address that the request names; a text that is no PCI address is
    /// a `ValidationError`.
    pub fn address(&self) -> (res: Result<PciAddress, GpuShareError>)
        ensures
            match res {
                Ok(a) => parsed_pci(encode_utf8(self.gpu_id@)) == Some(a),
                Err(e) => parsed_pci(encode_utf8(self.gpu_id@)) is None && e
                    == GpuShareError::ValidationError,
            },
    {
        match PciAddress::parse(self.gpu_id.as_str()) {
            Some(a) => Ok(a),
            None => Err(GpuShareError::ValidationError),
        }
    }
}

} // verus!
