use gpu_share_vm_manager::device::{DiscoveredGpu, GpuDevice, ReservationState, Selection};
use gpu_share_vm_manager::inventory::scan_is_distinct;
use gpu_share_vm_manager::lifecycle::{LifecycleManager, LifecycleNotification};
use gpu_share_vm_manager::orchestrator::{
    begin_attach, begin_create, begin_create_decided, begin_delete, begin_detach, cascade_detach,
    finish_attach, finish_detach, get_vm, list_vms, AttachPlan, DeletePlan, DetachPlan,
};
use gpu_share_vm_manager::reservation::{
    AttachOutcome, DetachOutcome, GroupPlan, ReservationManager,
};
use gpu_share_vm_manager::vm::{VMConfig, VMStatus, DEFAULT_MIN_MEMORY_KB};
use gpu_share_vm_manager::{DegradedResourceWarning, GpuShareError, PciAddress, ResourceManager};

fn addr(bus: u8, function: u8) -> PciAddress {
    PciAddress { domain: 0, bus, device: 0, function }
}

fn found(address: PciAddress, iommu_group: u32, driver: &str) -> DiscoveredGpu {
    DiscoveredGpu {
        address,
        iommu_group,
        model: "NVIDIA Corporation GA102".to_string(),
        driver: driver.to_string(),
    }
}

/// Group 1: a GPU and its audio function. Group 2: a second GPU. Group 3: a third.
fn host() -> ReservationManager {
    let mut manager = ReservationManager::new();
    let scan = vec![
        found(addr(1, 0), 1, "nvidia"),
        found(addr(1, 1), 1, "snd_hda_intel"),
        found(addr(2, 0), 2, "nvidia"),
        found(addr(3, 0), 3, "amdgpu"),
    ];
    assert_eq!(manager.discover(Some(scan)).unwrap().len(), 4);
    manager
}

fn config(name: &str) -> VMConfig {
    VMConfig {
        name: name.to_string(),
        memory_kb: 1_048_576,
        vcpus: 2,
        disk_path: format!("/var/lib/gpu-share/images/{}.qcow2", name),
        disk_size_gb: 10,
    }
}

fn vm(lifecycle: &mut LifecycleManager, name: &str) -> u64 {
    let id = lifecycle.begin_create(&config(name), 0).unwrap();
    lifecycle.finish_create(id, Ok(())).unwrap();
    id
}

fn states(manager: &ReservationManager) -> Vec<ReservationState> {
    manager.list().into_iter().map(|d| d.state).collect()
}

fn attach(
    lifecycle: &LifecycleManager,
    reservations: &mut ReservationManager,
    id: u64,
    address: PciAddress,
) {
    begin_attach(lifecycle, reservations, id, address).unwrap();
    let done = finish_attach(lifecycle, reservations, id, address, AttachOutcome::Attached);
    assert_eq!(done.result, Ok(()));
    assert!(done.rebind.is_empty());
}

#[test]
fn test_discover_adds_devices_in_scan_order() {
    let manager = host();
    let devices = manager.list();
    assert_eq!(
        devices[0],
        GpuDevice {
            address: addr(1, 0),
            iommu_group: 1,
            model: "NVIDIA Corporation GA102".to_string(),
            driver: "nvidia".to_string(),
            state: ReservationState::Free,
            online: true,
        }
    );
    let addresses: Vec<PciAddress> = devices.iter().map(|d| d.address).collect();
    assert_eq!(addresses, vec![addr(1, 0), addr(1, 1), addr(2, 0), addr(3, 0)]);
    assert_eq!(manager.get_iommu_group(addr(1, 1)), Ok(1));
    assert_eq!(manager.get_iommu_group(addr(3, 0)), Ok(3));
    assert_eq!(manager.get_iommu_group(addr(9, 0)), Err(GpuShareError::NotFoundError));
    assert_eq!(manager.get(addr(2, 0)).unwrap().driver, "nvidia");
    assert_eq!(manager.get(addr(9, 0)), Err(GpuShareError::NotFoundError));
    assert_eq!(manager.len(), 4);
    assert_eq!(ReservationManager::new().len(), 0);
    assert_eq!(manager.group_members(1), vec![addr(1, 0), addr(1, 1)]);
    assert_eq!(manager.group_members(3), vec![addr(3, 0)]);
    assert!(manager.group_members(4).is_empty());
}

#[test]
fn test_discover_refuses_unusable_scans() {
    let mut manager = host();
    let before = manager.list();
    assert_eq!(manager.discover(None), Err(GpuShareError::DeviceDiscoveryError));
    let twice = vec![found(addr(7, 0), 1, "nvidia"), found(addr(7, 0), 2, "nvidia")];
    assert!(!scan_is_distinct(&twice));
    assert_eq!(manager.discover(Some(twice)), Err(GpuShareError::DeviceDiscoveryError));
    assert_eq!(manager.list(), before);
    assert!(scan_is_distinct(&vec![found(addr(7, 0), 1, "a"), found(addr(7, 1), 1, "a")]));
    assert!(scan_is_distinct(&vec![]));
}

#[test]
fn test_rescan_preserves_claims_and_marks_absent_devices() {
    let mut lifecycle = LifecycleManager::new(DEFAULT_MIN_MEMORY_KB);
    let mut manager = host();
    let id = vm(&mut lifecycle, "holder");
    attach(&lifecycle, &mut manager, id, addr(2, 0));
    begin_attach(&lifecycle, &mut manager, id, addr(3, 0)).unwrap();

    // The attached device shows up under the passthrough driver and another
    // group; the audio function is gone; one free device changed; one is new.
    let scan = vec![
        found(addr(5, 0), 9, "nouveau"),
        found(addr(2, 0), 8, "vfio-pci"),
        found(addr(1, 0), 4, "nouveau"),
        found(addr(3, 0), 8, "vfio-pci"),
    ];
    let devices = manager.discover(Some(scan)).unwrap();
    assert_eq!(devices, manager.list());
    assert_eq!(devices.len(), 5);

    assert_eq!(devices[0].address, addr(1, 0));
    assert_eq!(devices[0].iommu_group, 4);
    assert_eq!(devices[0].driver, "nouveau");
    assert_eq!(devices[0].state, ReservationState::Free);
    assert!(devices[0].online);

    assert_eq!(devices[1].address, addr(1, 1));
    assert_eq!(devices[1].iommu_group, 1);
    assert_eq!(devices[1].driver, "snd_hda_intel");
    assert!(!devices[1].online);

    assert_eq!(devices[2].address, addr(2, 0));
    assert_eq!(devices[2].state, ReservationState::Attached(id));
    assert_eq!(devices[2].iommu_group, 2);
    assert_eq!(devices[2].driver, "nvidia");
    assert!(devices[2].online);

    assert_eq!(devices[3].state, ReservationState::Reserved(id));
    assert_eq!(devices[3].iommu_group, 3);
    assert_eq!(devices[3].driver, "amdgpu");

    assert_eq!(devices[4].address, addr(5, 0));
    assert_eq!(devices[4].iommu_group, 9);
    assert_eq!(devices[4].state, ReservationState::Free);
    assert!(devices[4].online);

    // An absent device cannot be attached; when it is back, it can.
    assert_eq!(
        begin_attach(&lifecycle, &mut manager, id, addr(1, 1)),
        Err(GpuShareError::NotFoundError)
    );
    manager.discover(Some(vec![found(addr(1, 1), 1, "snd_hda_intel")])).unwrap();
    assert!(manager.get(addr(1, 1)).unwrap().online);
    assert!(!manager.get(addr(1, 0)).unwrap().online);
}

#[test]
fn test_attach_reserves_then_attaches_whole_group() {
    let mut lifecycle = LifecycleManager::new(DEFAULT_MIN_MEMORY_KB);
    let mut manager = host();
    let id = vm(&mut lifecycle, "gpu-test-vm");

    let plan = begin_attach(&lifecycle, &mut manager, id, addr(1, 1)).unwrap();
    assert_eq!(
        plan,
        AttachPlan { group: 1, devices: vec![addr(1, 0), addr(1, 1)], live_update: false }
    );
    assert_eq!(
        states(&manager),
        vec![
            ReservationState::Reserved(id),
            ReservationState::Reserved(id),
            ReservationState::Free,
            ReservationState::Free
        ]
    );
    assert_eq!(manager.reserved_for(id), vec![addr(1, 0), addr(1, 1)]);
    assert!(manager.attached_to(id).is_empty());
    assert!(manager.claims_any(id));
    assert!(!get_vm(&lifecycle, &manager, id).unwrap().gpu_attached);

    let done = finish_attach(&lifecycle, &mut manager, id, addr(1, 1), AttachOutcome::Attached);
    assert_eq!(done.result, Ok(()));
    assert!(done.rebind.is_empty());
    assert_eq!(
        states(&manager),
        vec![
            ReservationState::Attached(id),
            ReservationState::Attached(id),
            ReservationState::Free,
            ReservationState::Free
        ]
    );
    assert_eq!(manager.attached_to(id), vec![addr(1, 0), addr(1, 1)]);
    assert!(manager.reserved_for(id).is_empty());
    assert!(get_vm(&lifecycle, &manager, id).unwrap().gpu_attached);
}

#[test]
fn test_attach_to_running_vm_is_live() {
    let mut lifecycle = LifecycleManager::new(DEFAULT_MIN_MEMORY_KB);
    let mut manager = host();
    let id = vm(&mut lifecycle, "running");
    lifecycle.finish_start(id, Ok(())).unwrap();
    let plan = begin_attach(&lifecycle, &mut manager, id, addr(2, 0)).unwrap();
    assert_eq!(plan, AttachPlan { group: 2, devices: vec![addr(2, 0)], live_update: true });
}

#[test]
fn test_attach_conflict_changes_nothing() {
    let mut lifecycle = LifecycleManager::new(DEFAULT_MIN_MEMORY_KB);
    let mut manager = host();
    let first = vm(&mut lifecycle, "first");
    let second = vm(&mut lifecycle, "second");
    attach(&lifecycle, &mut manager, first, addr(1, 0));
    let before = manager.list();

    // The audio function shares the group of the GPU that `first` holds.
    assert_eq!(
        begin_attach(&lifecycle, &mut manager, second, addr(1, 1)),
        Err(GpuShareError::ResourceConflictError)
    );
    assert_eq!(
        begin_attach(&lifecycle, &mut manager, second, addr(1, 0)),
        Err(GpuShareError::ResourceConflictError)
    );
    assert_eq!(manager.list(), before);
    assert!(!manager.claims_any(second));

    // A group that is only reserved is as much in the way.
    begin_attach(&lifecycle, &mut manager, first, addr(2, 0)).unwrap();
    assert_eq!(
        begin_attach(&lifecycle, &mut manager, second, addr(2, 0)),
        Err(GpuShareError::ResourceConflictError)
    );
}

#[test]
fn test_disjoint_groups_attach_independently() {
    let mut lifecycle = LifecycleManager::new(DEFAULT_MIN_MEMORY_KB);
    let mut manager = host();
    let a = vm(&mut lifecycle, "vm-a");
    let b = vm(&mut lifecycle, "vm-b");

    // Both attaches are in flight at once, and finish in the other order.
    let plan_a = begin_attach(&lifecycle, &mut manager, a, addr(1, 0)).unwrap();
    let plan_b = begin_attach(&lifecycle, &mut manager, b, addr(2, 0)).unwrap();
    assert_eq!(plan_a.devices, vec![addr(1, 0), addr(1, 1)]);
    assert_eq!(plan_b.devices, vec![addr(2, 0)]);
    let done_b = finish_attach(&lifecycle, &mut manager, b, addr(2, 0), AttachOutcome::Attached);
    let done_a = finish_attach(&lifecycle, &mut manager, a, addr(1, 0), AttachOutcome::Attached);
    assert_eq!(done_a.result, Ok(()));
    assert_eq!(done_b.result, Ok(()));
    assert_eq!(
        states(&manager),
        vec![
            ReservationState::Attached(a),
            ReservationState::Attached(a),
            ReservationState::Attached(b),
            ReservationState::Free
        ]
    );
    assert_eq!(manager.attached_to(a), vec![addr(1, 0), addr(1, 1)]);
    assert_eq!(manager.attached_to(b), vec![addr(2, 0)]);
}

#[test]
fn test_attach_one_vm_after_another() {
    let mut lifecycle = LifecycleManager::new(DEFAULT_MIN_MEMORY_KB);
    let mut manager = host();
    let a = vm(&mut lifecycle, "vm-a");
    let b = vm(&mut lifecycle, "vm-b");
    attach(&lifecycle, &mut manager, a, addr(3, 0));
    attach(&lifecycle, &mut manager, b, addr(1, 1));
    assert_eq!(
        states(&manager),
        vec![
            ReservationState::Attached(b),
            ReservationState::Attached(b),
            ReservationState::Free,
            ReservationState::Attached(a)
        ]
    );
    // One VM may hold several groups.
    attach(&lifecycle, &mut manager, a, addr(2, 0));
    assert_eq!(manager.attached_to(a), vec![addr(2, 0), addr(3, 0)]);
    assert_eq!(manager.attached_to(b), vec![addr(1, 0), addr(1, 1)]);
}

#[test]
fn test_attach_refusals() {
    let mut lifecycle = LifecycleManager::new(DEFAULT_MIN_MEMORY_KB);
    let mut manager = host();
    let before = manager.list();
    assert_eq!(
        begin_attach(&lifecycle, &mut manager, 0, addr(1, 0)),
        Err(GpuShareError::NotFoundError)
    );
    let requested = lifecycle.begin_create(&config("pending"), 0).unwrap();
    assert_eq!(
        begin_attach(&lifecycle, &mut manager, requested, addr(1, 0)),
        Err(GpuShareError::InvalidStateError)
    );
    lifecycle.finish_create(requested, Ok(())).unwrap();
    assert_eq!(
        begin_attach(&lifecycle, &mut manager, requested, addr(9, 0)),
        Err(GpuShareError::NotFoundError)
    );
    lifecycle.mark_failed(requested).unwrap();
    assert_eq!(
        begin_attach(&lifecycle, &mut manager, requested, addr(1, 0)),
        Err(GpuShareError::InvalidStateError)
    );
    assert_eq!(manager.list(), before);
}

#[test]
fn test_failed_bind_rolls_back() {
    let mut lifecycle = LifecycleManager::new(DEFAULT_MIN_MEMORY_KB);
    let mut manager = host();
    let id = vm(&mut lifecycle, "rollback");
    let before = manager.list();

    begin_attach(&lifecycle, &mut manager, id, addr(1, 0)).unwrap();
    let outcome = AttachOutcome::BindFailed { switched: 1, code: -16 };
    let done = finish_attach(&lifecycle, &mut manager, id, addr(1, 0), outcome);
    assert_eq!(done.result, Err(GpuShareError::HypervisorError(-16)));
    assert_eq!(done.rebind, vec![addr(1, 0)]);
    assert_eq!(manager.list(), before);
    assert!(!manager.claims_any(id));

    begin_attach(&lifecycle, &mut manager, id, addr(1, 0)).unwrap();
    let outcome = AttachOutcome::BindFailed { switched: 0, code: 1 };
    let done = finish_attach(&lifecycle, &mut manager, id, addr(1, 0), outcome);
    assert!(done.rebind.is_empty());

    begin_attach(&lifecycle, &mut manager, id, addr(1, 0)).unwrap();
    let outcome = AttachOutcome::BindFailed { switched: 5, code: 1 };
    let done = finish_attach(&lifecycle, &mut manager, id, addr(1, 0), outcome);
    assert_eq!(done.rebind, vec![addr(1, 0), addr(1, 1)]);
    assert_eq!(manager.list(), before);
}

#[test]
fn test_failed_descriptor_rolls_back_every_device() {
    let mut lifecycle = LifecycleManager::new(DEFAULT_MIN_MEMORY_KB);
    let mut manager = host();
    let id = vm(&mut lifecycle, "descriptor");
    let before = manager.list();
    begin_attach(&lifecycle, &mut manager, id, addr(1, 1)).unwrap();
    let outcome = AttachOutcome::DescriptorFailed { code: 55 };
    let done = finish_attach(&lifecycle, &mut manager, id, addr(1, 1), outcome);
    assert_eq!(done.result, Err(GpuShareError::HypervisorError(55)));
    assert_eq!(done.rebind, vec![addr(1, 0), addr(1, 1)]);
    assert_eq!(manager.list(), before);
}

#[test]
fn test_finish_attach_without_reservation() {
    let mut lifecycle = LifecycleManager::new(DEFAULT_MIN_MEMORY_KB);
    let mut manager = host();
    let id = vm(&mut lifecycle, "nothing-pending");
    let before = manager.list();
    let done = finish_attach(&lifecycle, &mut manager, id, addr(9, 0), AttachOutcome::Attached);
    assert_eq!(done.result, Err(GpuShareError::NotFoundError));
    assert!(done.rebind.is_empty());
    let done = finish_attach(&lifecycle, &mut manager, id, addr(1, 0), AttachOutcome::Attached);
    assert_eq!(done.result, Err(GpuShareError::InvalidStateError));
    attach(&lifecycle, &mut manager, id, addr(2, 0));
    let done = finish_attach(&lifecycle, &mut manager, id, addr(2, 0), AttachOutcome::Attached);
    assert_eq!(done.result, Err(GpuShareError::InvalidStateError));
    let other = vm(&mut lifecycle, "other");
    begin_attach(&lifecycle, &mut manager, id, addr(3, 0)).unwrap();
    let done = finish_attach(&lifecycle, &mut manager, other, addr(3, 0), AttachOutcome::Attached);
    assert_eq!(done.result, Err(GpuShareError::InvalidStateError));
    assert_eq!(manager.get(addr(3, 0)).unwrap().state, ReservationState::Reserved(id));
    assert_eq!(manager.get(addr(1, 0)).unwrap(), before[0]);
}

#[test]
fn test_attach_detach_round_trip() {
    let mut lifecycle = LifecycleManager::new(DEFAULT_MIN_MEMORY_KB);
    let mut manager = host();
    let id = vm(&mut lifecycle, "round-trip");
    let before = manager.list();
    attach(&lifecycle, &mut manager, id, addr(1, 0));

    let plan = manager.begin_detach(id, addr(1, 0)).unwrap();
    assert_eq!(plan, GroupPlan { group: 1, devices: vec![addr(1, 0), addr(1, 1)] });
    assert_eq!(
        begin_detach(&lifecycle, &manager, id, addr(1, 1)),
        Ok(DetachPlan { group: 1, devices: vec![addr(1, 0), addr(1, 1)], live_update: false })
    );
    lifecycle.finish_start(id, Ok(())).unwrap();
    assert!(begin_detach(&lifecycle, &manager, id, addr(1, 1)).unwrap().live_update);
    assert_eq!(
        begin_detach(&lifecycle, &manager, id, addr(2, 0)),
        Err(GpuShareError::NotFoundError)
    );
    let outcome = DetachOutcome::Released { restored: true };
    let report = finish_detach(&lifecycle, &mut manager, id, addr(1, 0), outcome).unwrap();
    assert_eq!(report.released, vec![addr(1, 0), addr(1, 1)]);
    assert_eq!(report.warning, None);
    assert_eq!(manager.list(), before);
    assert!(manager.attached_to(id).is_empty());
    assert!(!get_vm(&lifecycle, &manager, id).unwrap().gpu_attached);
}

#[test]
fn test_detach_with_stuck_driver_still_frees() {
    let mut lifecycle = LifecycleManager::new(DEFAULT_MIN_MEMORY_KB);
    let mut manager = host();
    let id = vm(&mut lifecycle, "degraded");
    attach(&lifecycle, &mut manager, id, addr(1, 1));
    let outcome = DetachOutcome::Released { restored: false };
    let report = finish_detach(&lifecycle, &mut manager, id, addr(1, 1), outcome).unwrap();
    assert_eq!(report.warning, Some(DegradedResourceWarning::DriverNotRestored));
    assert_eq!(report.released, vec![addr(1, 0), addr(1, 1)]);
    assert_eq!(states(&manager), vec![ReservationState::Free; 4]);
    // The devices can be allocated again.
    let other = vm(&mut lifecycle, "next");
    assert!(begin_attach(&lifecycle, &mut manager, other, addr(1, 0)).is_ok());
}

#[test]
fn test_detach_refusals_and_failure() {
    let mut lifecycle = LifecycleManager::new(DEFAULT_MIN_MEMORY_KB);
    let mut manager = host();
    let id = vm(&mut lifecycle, "owner");
    let other = vm(&mut lifecycle, "stranger");
    attach(&lifecycle, &mut manager, id, addr(2, 0));
    let before = manager.list();
    let released = DetachOutcome::Released { restored: true };

    assert_eq!(manager.begin_detach(other, addr(2, 0)), Err(GpuShareError::NotFoundError));
    assert_eq!(manager.begin_detach(id, addr(1, 0)), Err(GpuShareError::NotFoundError));
    assert_eq!(manager.begin_detach(id, addr(9, 0)), Err(GpuShareError::NotFoundError));
    assert_eq!(
        finish_detach(&lifecycle, &mut manager, other, addr(2, 0), released),
        Err(GpuShareError::NotFoundError)
    );
    assert_eq!(
        finish_detach(&lifecycle, &mut manager, id, addr(9, 0), released),
        Err(GpuShareError::NotFoundError)
    );
    let kept = DetachOutcome::DescriptorFailed { code: 3 };
    assert_eq!(
        finish_detach(&lifecycle, &mut manager, id, addr(2, 0), kept),
        Err(GpuShareError::HypervisorError(3))
    );
    assert_eq!(manager.list(), before);
    assert_eq!(manager.attached_to(id), vec![addr(2, 0)]);
}

#[test]
fn test_delete_cascades_detach() {
    let mut lifecycle = LifecycleManager::new(DEFAULT_MIN_MEMORY_KB);
    let mut manager = host();
    let id = vm(&mut lifecycle, "doomed");
    attach(&lifecycle, &mut manager, id, addr(1, 0));
    attach(&lifecycle, &mut manager, id, addr(3, 0));

    let plan = begin_delete(&mut lifecycle, &manager, id).unwrap();
    assert_eq!(plan, DeletePlan::Detach(vec![addr(1, 0), addr(1, 1), addr(3, 0)]));
    assert_eq!(lifecycle.status(id), Some(VMStatus::Defined));

    let released = DetachOutcome::Released { restored: true };
    let report = cascade_detach(&lifecycle, &mut manager, id, addr(1, 0), released).unwrap();
    assert_eq!(report.released, vec![addr(1, 0), addr(1, 1)]);
    let plan = begin_delete(&mut lifecycle, &manager, id).unwrap();
    assert_eq!(plan, DeletePlan::Detach(vec![addr(3, 0)]));
    cascade_detach(&lifecycle, &mut manager, id, addr(3, 0), released).unwrap();
    assert_eq!(states(&manager), vec![ReservationState::Free; 4]);
    assert_eq!(lifecycle.status(id), Some(VMStatus::Defined));

    let plan = begin_delete(&mut lifecycle, &manager, id).unwrap();
    assert_eq!(plan, DeletePlan::Undefine);
    assert_eq!(lifecycle.status(id), Some(VMStatus::Deleting));
    let report = lifecycle.finish_delete(id, Ok(())).unwrap();
    assert_eq!(report.notification, LifecycleNotification::Deleted(id));
    assert_eq!(lifecycle.status(id), Some(VMStatus::Deleted));
}

#[test]
fn test_delete_fails_when_detach_fails() {
    let mut lifecycle = LifecycleManager::new(DEFAULT_MIN_MEMORY_KB);
    let mut manager = host();
    let id = vm(&mut lifecycle, "stuck");
    lifecycle.finish_start(id, Ok(())).unwrap();
    attach(&lifecycle, &mut manager, id, addr(2, 0));
    let before = manager.list();

    assert_eq!(
        begin_delete(&mut lifecycle, &manager, id),
        Ok(DeletePlan::Detach(vec![addr(2, 0)]))
    );
    let kept = DetachOutcome::DescriptorFailed { code: 12 };
    assert_eq!(
        cascade_detach(&lifecycle, &mut manager, id, addr(2, 0), kept),
        Err(GpuShareError::ResourceConflictError)
    );
    assert_eq!(lifecycle.status(id), Some(VMStatus::Running));
    assert_eq!(manager.list(), before);
    assert_eq!(manager.get(addr(2, 0)).unwrap().state, ReservationState::Attached(id));
    let released = DetachOutcome::Released { restored: true };
    assert_eq!(
        cascade_detach(&lifecycle, &mut manager, id, addr(1, 0), released),
        Err(GpuShareError::ResourceConflictError)
    );
}

#[test]
fn test_delete_refusals() {
    let mut lifecycle = LifecycleManager::new(DEFAULT_MIN_MEMORY_KB);
    let mut manager = host();
    assert_eq!(begin_delete(&mut lifecycle, &manager, 4), Err(GpuShareError::NotFoundError));
    let id = vm(&mut lifecycle, "busy");
    begin_attach(&lifecycle, &mut manager, id, addr(2, 0)).unwrap();
    // An attach is still in flight.
    assert_eq!(
        begin_delete(&mut lifecycle, &manager, id),
        Err(GpuShareError::ResourceConflictError)
    );
    assert_eq!(lifecycle.status(id), Some(VMStatus::Defined));
    let failed = AttachOutcome::DescriptorFailed { code: 1 };
    finish_attach(&lifecycle, &mut manager, id, addr(2, 0), failed);
    assert_eq!(begin_delete(&mut lifecycle, &manager, id), Ok(DeletePlan::Undefine));
    assert_eq!(
        begin_delete(&mut lifecycle, &manager, id),
        Err(GpuShareError::InvalidStateError)
    );
    lifecycle.finish_delete(id, Ok(())).unwrap();
    assert_eq!(
        begin_delete(&mut lifecycle, &manager, id),
        Err(GpuShareError::InvalidStateError)
    );
}

#[test]
fn test_quota_denial_never_reaches_the_lifecycle_manager() {
    let mut lifecycle = LifecycleManager::new(DEFAULT_MIN_MEMORY_KB);
    let denied = Err(GpuShareError::QuotaExceededError);
    assert_eq!(
        begin_create_decided(&mut lifecycle, denied, &config("denied"), 0),
        Err(GpuShareError::QuotaExceededError)
    );
    // Whatever the collaborator's error and however bad the configuration.
    let bad = VMConfig { vcpus: 0, ..config("denied") };
    assert_eq!(
        begin_create_decided(&mut lifecycle, Err(GpuShareError::NotFoundError), &bad, 0),
        Err(GpuShareError::QuotaExceededError)
    );
    assert!(lifecycle.list().is_empty());
    assert_eq!(lifecycle.get(0), Err(GpuShareError::NotFoundError));

    assert_eq!(begin_create_decided(&mut lifecycle, Ok(()), &config("allowed"), 0), Ok(0));
    assert_eq!(
        begin_create_decided(&mut lifecycle, Ok(()), &bad, 0),
        Err(GpuShareError::ValidationError)
    );
    let resources = ResourceManager::new();
    assert_eq!(begin_create(&resources, &mut lifecycle, "alice", &config("second"), 5), Ok(1));
    assert_eq!(
        begin_create(&resources, &mut lifecycle, "bob", &config("second"), 6),
        Err(GpuShareError::AlreadyExistsError)
    );
    assert_eq!(lifecycle.status(1), Some(VMStatus::Requested));
}

#[test]
fn test_reports() {
    let mut lifecycle = LifecycleManager::new(DEFAULT_MIN_MEMORY_KB);
    let mut manager = host();
    let a = vm(&mut lifecycle, "report-a");
    let b = vm(&mut lifecycle, "report-b");
    let c = vm(&mut lifecycle, "report-c");
    lifecycle.finish_start(b, Ok(())).unwrap();
    attach(&lifecycle, &mut manager, b, addr(2, 0));
    assert_eq!(begin_delete(&mut lifecycle, &manager, c), Ok(DeletePlan::Undefine));
    lifecycle.finish_delete(c, Ok(())).unwrap();

    let reports = list_vms(&lifecycle, &manager);
    assert_eq!(reports.len(), 2);
    assert_eq!(reports[0].id, a);
    assert_eq!(reports[0].name, "report-a");
    assert_eq!(reports[0].status, VMStatus::Defined);
    assert!(!reports[0].gpu_attached);
    assert_eq!(reports[0].memory_mb, 1024);
    assert_eq!(reports[0].cpu_cores, 2);
    assert_eq!(reports[0].disk_size_gb, 10);
    assert_eq!(reports[1].id, b);
    assert_eq!(reports[1].status, VMStatus::Running);
    assert!(reports[1].gpu_attached);
    assert_eq!(get_vm(&lifecycle, &manager, b).unwrap(), reports[1]);
    assert_eq!(get_vm(&lifecycle, &manager, c).unwrap().status, VMStatus::Deleted);
    assert_eq!(get_vm(&lifecycle, &manager, 3), Err(GpuShareError::NotFoundError));
}

#[test]
fn test_selection_and_state_predicates() {
    let free = ReservationState::Free;
    let held = ReservationState::Attached(4);
    assert_eq!(free.owner_id(), None);
    assert_eq!(held.owner_id(), Some(4));
    assert_eq!(ReservationState::Reserved(2).owner_id(), Some(2));
    assert!(free.is_available_to(1));
    assert!(held.is_available_to(4));
    assert!(!held.is_available_to(5));
    assert!(!ReservationState::Reserved(2).is_available_to(3));
    assert!(Selection::Group(3).includes(3, held));
    assert!(!Selection::Group(3).includes(2, held));
    assert!(Selection::GroupInState(3, held).includes(3, held));
    assert!(!Selection::GroupInState(3, held).includes(3, free));
    assert!(!Selection::GroupInState(3, held).includes(2, held));
    assert!(Selection::InState(free).includes(8, free));
    assert!(!Selection::InState(free).includes(8, held));
}
