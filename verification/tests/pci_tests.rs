use gpu_share_vm_manager::api::routes::{
    AttachGPURequest, CreateVMRequest, VMResponse, DEFAULT_DISK_SIZE_GB,
};
use gpu_share_vm_manager::vm::{VMConfig, VMStatus, Vm};
use gpu_share_vm_manager::{GpuShareError, PciAddress, ResourceManager};

#[test]
fn test_parse_pci_address() {
    assert_eq!(
        PciAddress::parse("0000:01:00.0"),
        Some(PciAddress { domain: 0, bus: 1, device: 0, function: 0 })
    );
    assert_eq!(
        PciAddress::parse("abcd:ef:1f.7"),
        Some(PciAddress { domain: 0xabcd, bus: 0xef, device: 0x1f, function: 7 })
    );
    assert_eq!(
        PciAddress::parse("ABCD:EF:9a.F"),
        Some(PciAddress { domain: 0xabcd, bus: 0xef, device: 0x9a, function: 15 })
    );
    assert_eq!(
        PciAddress::parse_bytes(b"0001:02:03.4"),
        Some(PciAddress { domain: 1, bus: 2, device: 3, function: 4 })
    );
}

#[test]
fn test_parse_pci_address_rejects_malformed_text() {
    for text in [
        "",
        "0000:01:00",
        "0000:01:00.00",
        "000:001:00.0",
        "0000-01-00.0",
        "0000:01:00:0",
        "0000.01.00.0",
        "g000:01:00.0",
        "0000:0z:00.0",
        "0000:01:0 .0",
        "0000:01:00.x",
        " 0000:01:00.0",
        "0000:01:00.0 ",
        "00\u{e9}0:01:00.",
    ] {
        assert_eq!(PciAddress::parse(text), None, "{:?}", text);
    }
}

#[test]
fn test_pci_text_round_trip() {
    for address in [
        PciAddress { domain: 0, bus: 0, device: 0, function: 0 },
        PciAddress { domain: 0xffff, bus: 0xff, device: 0xff, function: 0xf },
        PciAddress { domain: 0x0a1b, bus: 0x2c, device: 0x3d, function: 0x4 },
    ] {
        let text = address.to_bytes();
        assert_eq!(text.len(), 12);
        assert_eq!(PciAddress::parse_bytes(&text), Some(address));
    }
    let text = PciAddress { domain: 0x0a1b, bus: 0x2c, device: 0x3d, function: 0x4 }.to_bytes();
    assert_eq!(text, b"0a1b:2c:3d.4".to_vec());
}

#[test]
fn test_attach_request_address() {
    let request = AttachGPURequest { gpu_id: "0000:65:00.1".to_string() };
    assert_eq!(
        request.address(),
        Ok(PciAddress { domain: 0, bus: 0x65, device: 0, function: 1 })
    );
    let request = AttachGPURequest { gpu_id: "GPU-0".to_string() };
    assert_eq!(request.address(), Err(GpuShareError::ValidationError));
}

#[test]
fn test_request_to_config() {
    let request = CreateVMRequest {
        name: "alpha".to_string(),
        cpu_cores: 4,
        memory_mb: 2048,
        gpu_required: true,
        disk_size_gb: None,
    };
    assert_eq!(
        request.to_config(),
        Ok(VMConfig {
            name: "alpha".to_string(),
            memory_kb: 2_097_152,
            vcpus: 4,
            disk_path: "/var/lib/gpu-share/images/alpha.qcow2".to_string(),
            disk_size_gb: 20,
        })
    );
    assert_eq!(DEFAULT_DISK_SIZE_GB, 20);

    let sized = CreateVMRequest { disk_size_gb: Some(7), ..request.clone() };
    assert_eq!(sized.to_config().unwrap().disk_size_gb, 7);
}

#[test]
fn test_request_with_uncountable_memory() {
    let limit = u64::MAX / 1024;
    let request = CreateVMRequest {
        name: "big".to_string(),
        cpu_cores: 1,
        memory_mb: limit,
        gpu_required: false,
        disk_size_gb: None,
    };
    assert_eq!(request.to_config().unwrap().memory_kb, limit * 1024);
    let request = CreateVMRequest { memory_mb: limit + 1, ..request };
    assert_eq!(request.to_config(), Err(GpuShareError::ValidationError));
}

#[test]
fn test_response_from_vm() {
    let vm = Vm {
        id: 3,
        name: "beta".to_string(),
        vcpus: 2,
        memory_kb: 1_048_576 + 1023,
        disk_path: "/images/beta.qcow2".to_string(),
        disk_size_gb: 40,
        status: VMStatus::Running,
        created_at: 12,
        faulted: false,
    };
    assert_eq!(
        VMResponse::from_vm(&vm, true),
        VMResponse {
            id: 3,
            name: "beta".to_string(),
            status: VMStatus::Running,
            gpu_attached: true,
            memory_mb: 1024,
            cpu_cores: 2,
            disk_size_gb: 40,
        }
    );
    assert!(!VMResponse::from_vm(&vm, false).gpu_attached);
    assert_eq!(vm.snapshot(), vm);
    assert_eq!(vm.with_status(VMStatus::Stopped).status, VMStatus::Stopped);
    assert!(vm.with_status(VMStatus::Error).faulted);
    assert!(!vm.with_status(VMStatus::Stopped).faulted);
}

#[test]
fn test_quota_allows_everything() {
    let resources = ResourceManager::new();
    let config = VMConfig {
        name: "any".to_string(),
        memory_kb: u64::MAX,
        vcpus: u32::MAX,
        disk_path: "/x".to_string(),
        disk_size_gb: u64::MAX,
    };
    assert_eq!(resources.check_quota("alice", &config), Ok(()));
    assert_eq!(resources.check_quota("", &config), Ok(()));
}

#[test]
fn test_error_messages() {
    assert_eq!(GpuShareError::ValidationError.message(), "invalid request");
    assert_eq!(GpuShareError::AlreadyExistsError.message(), "VM already exists");
    assert_eq!(GpuShareError::NotFoundError.message(), "resource not found");
    assert_eq!(
        GpuShareError::InvalidStateError.message(),
        "operation not valid in the current state"
    );
    assert_eq!(
        GpuShareError::ResourceConflictError.message(),
        "IOMMU group is in use by another VM"
    );
    assert_eq!(GpuShareError::QuotaExceededError.message(), "quota exceeded");
    assert_eq!(GpuShareError::HypervisorError(4).message(), "hypervisor operation failed");
    assert_eq!(GpuShareError::DeviceDiscoveryError.message(), "device discovery failed");
}
