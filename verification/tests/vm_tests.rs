use gpu_share_vm_manager::lifecycle::{DeleteReport, LifecycleManager, LifecycleNotification};
use gpu_share_vm_manager::orchestrator::{begin_delete, DeletePlan};
use gpu_share_vm_manager::reservation::ReservationManager;
use gpu_share_vm_manager::vm::{VMConfig, VMStatus, DEFAULT_MIN_MEMORY_KB};
use gpu_share_vm_manager::{DegradedResourceWarning, GpuShareError};

fn test_vm_config(tag: &str) -> VMConfig {
    VMConfig {
        name: format!("test-vm-{}", tag),
        memory_kb: 1_048_576,
        vcpus: 2,
        disk_path: format!("/var/lib/gpu-share/images/test-{}.qcow2", tag),
        disk_size_gb: 10,
    }
}

/// Begins the deletion of a VM on a host without GPUs.
fn delete(manager: &mut LifecycleManager, id: u64) -> Result<(), GpuShareError> {
    match begin_delete(manager, &ReservationManager::new(), id) {
        Ok(plan) => {
            assert_eq!(plan, DeletePlan::Undefine);
            Ok(())
        }
        Err(e) => Err(e),
    }
}

fn create(manager: &mut LifecycleManager, config: &VMConfig) -> u64 {
    let id = manager.begin_create(config, 1_700_000_000).expect("Failed to create VM");
    manager.finish_create(id, Ok(())).expect("Failed to create VM");
    id
}

#[test]
fn test_full_vm_lifecycle() {
    let mut manager = LifecycleManager::new(DEFAULT_MIN_MEMORY_KB);
    let config = test_vm_config("lifecycle");

    let id = create(&mut manager, &config);
    let vm = manager.get(id).unwrap();
    assert_eq!(vm.name, config.name);
    assert_ne!(vm.status, VMStatus::Running, "VM should be initially stopped");
    assert_eq!(vm.status, VMStatus::Defined);

    manager.begin_start(id).unwrap();
    manager.finish_start(id, Ok(())).unwrap();
    assert_eq!(manager.status(id), Some(VMStatus::Running), "VM should be running after start");

    manager.begin_stop(id).unwrap();
    manager.finish_stop(id, Ok(())).unwrap();
    assert_eq!(manager.status(id), Some(VMStatus::Stopped), "VM should be stopped after destroy");

    delete(&mut manager, id).unwrap();
    assert_eq!(manager.status(id), Some(VMStatus::Deleting));
    let report = manager.finish_delete(id, Ok(())).unwrap();
    assert_eq!(
        report,
        DeleteReport { notification: LifecycleNotification::Deleted(id), warning: None }
    );

    let exists = manager.list().iter().any(|vm| vm.name == config.name);
    assert!(!exists, "VM should be deleted");
    assert_eq!(manager.status(id), Some(VMStatus::Deleted));
}

#[test]
fn test_concurrent_vm_creation() {
    let mut manager = LifecycleManager::new(DEFAULT_MIN_MEMORY_KB);
    let mut tickets = vec![];

    // Five creations in flight at once: all are accepted before any is settled.
    for i in 0..5 {
        let config = VMConfig {
            name: format!("stress-test-vm-{}", i),
            memory_kb: 524_288,
            vcpus: 1,
            disk_path: format!("/var/lib/gpu-share/images/stress-{}.qcow2", i),
            disk_size_gb: 5,
        };
        tickets.push(manager.begin_create(&config, 10 + i));
    }

    let mut seen = vec![];
    for (i, ticket) in tickets.into_iter().enumerate() {
        let id = ticket.unwrap();
        assert_eq!(
            manager.finish_create(id, Ok(())),
            Ok(LifecycleNotification::Created(id))
        );
        let vm = manager.get(id).unwrap();
        assert!(!vm.name.is_empty(), "VM should have valid name");
        assert_eq!(vm.name, format!("stress-test-vm-{}", i));
        assert_eq!(vm.status, VMStatus::Defined);
        assert!(!seen.contains(&id));
        seen.push(id);
    }
    assert_eq!(seen, vec![0, 1, 2, 3, 4]);
    assert_eq!(manager.list().len(), 5);
}

#[test]
fn test_concurrent_creation_of_one_name() {
    let mut manager = LifecycleManager::new(DEFAULT_MIN_MEMORY_KB);
    let config = test_vm_config("contended");
    let mut results = vec![];
    for i in 0..5 {
        results.push(manager.begin_create(&config, i));
    }
    let accepted: Vec<u64> = results.iter().filter_map(|r| r.ok()).collect();
    assert_eq!(accepted, vec![0]);
    let refused = results
        .iter()
        .filter(|r| **r == Err(GpuShareError::AlreadyExistsError))
        .count();
    assert_eq!(refused, 4);
    manager.finish_create(0, Ok(())).unwrap();
    assert_eq!(manager.list().len(), 1);
}

#[test]
fn test_invalid_vm_configurations() {
    let mut manager = LifecycleManager::new(DEFAULT_MIN_MEMORY_KB);

    let config = VMConfig {
        name: "invalid-memory".into(),
        memory_kb: 1024,
        vcpus: 2,
        disk_path: "/invalid/path.qcow2".into(),
        disk_size_gb: 10,
    };
    let result = manager.begin_create(&config, 0);
    assert!(result.is_err(), "Should reject insufficient memory");
    assert_eq!(result, Err(GpuShareError::ValidationError));
    assert!(manager.list().is_empty());
    assert_eq!(manager.get(0), Err(GpuShareError::NotFoundError));

    // An unusable disk image makes the hypervisor fail the definition.
    let config = VMConfig {
        name: "invalid-disk".into(),
        memory_kb: 1_048_576,
        vcpus: 2,
        disk_path: "/dev/null".into(),
        disk_size_gb: 10,
    };
    let id = manager.begin_create(&config, 0).unwrap();
    let result = manager.finish_create(id, Err(38));
    assert!(result.is_err(), "Should reject invalid disk path");
    assert_eq!(result, Err(GpuShareError::HypervisorError(38)));
    assert_eq!(manager.get(id), Err(GpuShareError::NotFoundError));
    assert!(manager.list().is_empty());
}

#[test]
fn test_vm_state_transitions() {
    let mut manager = LifecycleManager::new(DEFAULT_MIN_MEMORY_KB);
    let id = create(&mut manager, &test_vm_config("transitions"));

    assert_eq!(manager.begin_start(id), Ok(()));
    assert_eq!(manager.finish_start(id, Ok(())), Ok(()));
    assert_eq!(manager.status(id), Some(VMStatus::Running), "VM should be running");

    // A running VM cannot be started again, and stays running.
    assert_eq!(manager.begin_start(id), Err(GpuShareError::InvalidStateError));
    assert_eq!(manager.finish_start(id, Ok(())), Err(GpuShareError::InvalidStateError));
    assert_eq!(manager.status(id), Some(VMStatus::Running));

    assert_eq!(manager.begin_stop(id), Ok(()));
    assert_eq!(manager.finish_stop(id, Ok(())), Ok(()));
    assert_eq!(manager.status(id), Some(VMStatus::Stopped), "VM should shutdown gracefully");

    assert_eq!(manager.begin_stop(id), Err(GpuShareError::InvalidStateError));
    assert_eq!(manager.begin_start(id), Ok(()));
}

#[test]
fn test_resource_allocation() {
    let mut manager = LifecycleManager::new(DEFAULT_MIN_MEMORY_KB);
    let config = test_vm_config("resources");
    let id = create(&mut manager, &config);

    let vm = manager.get(id).unwrap();
    assert_eq!(vm.memory_kb * 1024, config.memory_kb * 1024, "Memory allocation mismatch");
    assert_eq!(vm.memory_kb, 1_048_576);
    assert_eq!(vm.vcpus, config.vcpus, "vCPU allocation mismatch");
    assert_eq!(vm.disk_path, config.disk_path);
    assert_eq!(vm.disk_size_gb, 10);
    assert_eq!(vm.created_at, 1_700_000_000);
    assert!(!vm.faulted);
}

#[test]
fn test_duplicate_vm_creation() {
    let mut manager = LifecycleManager::new(DEFAULT_MIN_MEMORY_KB);
    let config = test_vm_config("duplicate");

    let first = create(&mut manager, &config);
    let before = manager.get(first).unwrap();

    let result = manager.begin_create(&config, 99);
    assert!(result.is_err(), "Should return error when creating duplicate VM");
    if let Err(e) = result {
        assert_eq!(e, GpuShareError::AlreadyExistsError);
        assert!(e.message().contains("already exists"), "Error should indicate duplicate VM");
    }
    assert_eq!(manager.get(first).unwrap(), before);
    assert_eq!(manager.list().len(), 1);
}

#[test]
fn test_name_is_free_again_after_delete() {
    let mut manager = LifecycleManager::new(DEFAULT_MIN_MEMORY_KB);
    let config = test_vm_config("reuse");
    let first = create(&mut manager, &config);
    delete(&mut manager, first).unwrap();
    // The name is held until the VM is deleted.
    assert_eq!(manager.begin_create(&config, 1), Err(GpuShareError::AlreadyExistsError));
    manager.finish_delete(first, Ok(())).unwrap();
    let second = manager.begin_create(&config, 2).unwrap();
    assert_ne!(second, first);
    assert_eq!(second, 1);
    assert_eq!(manager.status(first), Some(VMStatus::Deleted));
}

#[test]
fn test_validation_cases() {
    let mut manager = LifecycleManager::new(2048);
    assert_eq!(manager.min_memory_kb(), 2048);
    let good = VMConfig {
        name: "vm".into(),
        memory_kb: 2048,
        vcpus: 1,
        disk_path: "d".into(),
        disk_size_gb: 0,
    };
    assert!(good.is_valid(2048));
    assert!(!good.is_valid(2049));
    assert!(!VMConfig { name: "".into(), ..good.clone() }.is_valid(2048));
    assert!(!VMConfig { vcpus: 0, ..good.clone() }.is_valid(2048));
    assert!(!VMConfig { memory_kb: 2047, ..good.clone() }.is_valid(2048));
    assert!(!VMConfig { disk_path: "".into(), ..good.clone() }.is_valid(2048));

    for bad in [
        VMConfig { name: "".into(), ..good.clone() },
        VMConfig { vcpus: 0, ..good.clone() },
        VMConfig { memory_kb: 2047, ..good.clone() },
        VMConfig { disk_path: "".into(), ..good.clone() },
    ] {
        assert_eq!(manager.begin_create(&bad, 0), Err(GpuShareError::ValidationError));
    }
    assert_eq!(manager.begin_create(&good, 0), Ok(0));
    // A bad configuration is a validation error even when the name is taken.
    let bad_and_taken = VMConfig { vcpus: 0, ..good.clone() };
    assert_eq!(manager.begin_create(&bad_and_taken, 0), Err(GpuShareError::ValidationError));
}

#[test]
fn test_unknown_ids_are_not_found() {
    let mut manager = LifecycleManager::new(DEFAULT_MIN_MEMORY_KB);
    assert_eq!(manager.get(0), Err(GpuShareError::NotFoundError));
    assert_eq!(manager.status(7), None);
    assert_eq!(manager.begin_start(7), Err(GpuShareError::NotFoundError));
    assert_eq!(manager.finish_start(7, Ok(())), Err(GpuShareError::NotFoundError));
    assert_eq!(manager.begin_stop(7), Err(GpuShareError::NotFoundError));
    assert_eq!(manager.finish_stop(7, Ok(())), Err(GpuShareError::NotFoundError));
    assert_eq!(delete(&mut manager, 7), Err(GpuShareError::NotFoundError));
    assert_eq!(manager.finish_delete(7, Ok(())), Err(GpuShareError::NotFoundError));
    assert_eq!(manager.finish_create(7, Ok(())), Err(GpuShareError::NotFoundError));
    assert_eq!(manager.mark_failed(7), Err(GpuShareError::NotFoundError));
    assert_eq!(manager.begin_start(u64::MAX), Err(GpuShareError::NotFoundError));
}

#[test]
fn test_invalid_states() {
    let mut manager = LifecycleManager::new(DEFAULT_MIN_MEMORY_KB);
    let id = manager.begin_create(&test_vm_config("states"), 0).unwrap();
    // Requested: nothing but the definition and a delete is possible.
    assert_eq!(manager.status(id), Some(VMStatus::Requested));
    assert_eq!(manager.begin_start(id), Err(GpuShareError::InvalidStateError));
    assert_eq!(manager.begin_stop(id), Err(GpuShareError::InvalidStateError));
    assert_eq!(manager.finish_delete(id, Ok(())), Err(GpuShareError::InvalidStateError));
    manager.finish_create(id, Ok(())).unwrap();
    assert_eq!(manager.finish_create(id, Ok(())), Err(GpuShareError::InvalidStateError));
    assert_eq!(manager.begin_stop(id), Err(GpuShareError::InvalidStateError));

    delete(&mut manager, id).unwrap();
    assert_eq!(delete(&mut manager, id), Err(GpuShareError::InvalidStateError));
    assert_eq!(manager.begin_start(id), Err(GpuShareError::InvalidStateError));
    manager.finish_delete(id, Ok(())).unwrap();
    assert_eq!(delete(&mut manager, id), Err(GpuShareError::InvalidStateError));
    assert_eq!(manager.begin_start(id), Err(GpuShareError::InvalidStateError));
    assert_eq!(manager.finish_delete(id, Ok(())), Err(GpuShareError::InvalidStateError));
    assert_eq!(manager.mark_failed(id), Err(GpuShareError::InvalidStateError));
}

#[test]
fn test_hypervisor_failure_moves_vm_to_error() {
    let mut manager = LifecycleManager::new(DEFAULT_MIN_MEMORY_KB);
    let id = create(&mut manager, &test_vm_config("failing"));
    assert_eq!(manager.finish_start(id, Err(-5)), Err(GpuShareError::HypervisorError(-5)));
    let vm = manager.get(id).unwrap();
    assert_eq!(vm.status, VMStatus::Error);
    assert!(vm.faulted);
    assert!(vm.status.is_terminal());
    // Error is terminal for everything but the administrative delete.
    assert_eq!(manager.begin_start(id), Err(GpuShareError::InvalidStateError));
    assert_eq!(manager.begin_stop(id), Err(GpuShareError::InvalidStateError));
    assert_eq!(manager.mark_failed(id), Err(GpuShareError::InvalidStateError));

    // The administrative delete clears the VM even if the undefine fails.
    assert_eq!(delete(&mut manager, id), Ok(()));
    let report = manager.finish_delete(id, Err(9)).unwrap();
    assert_eq!(report.notification, LifecycleNotification::Deleted(id));
    assert_eq!(report.warning, Some(DegradedResourceWarning::DomainLeftDefined(9)));
    assert_eq!(manager.status(id), Some(VMStatus::Deleted));
}

#[test]
fn test_failed_undefine_of_healthy_vm() {
    let mut manager = LifecycleManager::new(DEFAULT_MIN_MEMORY_KB);
    let id = create(&mut manager, &test_vm_config("undefine"));
    delete(&mut manager, id).unwrap();
    assert_eq!(manager.finish_delete(id, Err(1)), Err(GpuShareError::HypervisorError(1)));
    assert_eq!(manager.status(id), Some(VMStatus::Error));
    // It still holds its name.
    assert_eq!(
        manager.begin_create(&test_vm_config("undefine"), 0),
        Err(GpuShareError::AlreadyExistsError)
    );
}

#[test]
fn test_failed_stop_and_watchdog() {
    let mut manager = LifecycleManager::new(DEFAULT_MIN_MEMORY_KB);
    let id = create(&mut manager, &test_vm_config("stop"));
    manager.finish_start(id, Ok(())).unwrap();
    assert_eq!(manager.finish_stop(id, Err(2)), Err(GpuShareError::HypervisorError(2)));
    assert_eq!(manager.status(id), Some(VMStatus::Error));

    let other = create(&mut manager, &test_vm_config("watchdog"));
    assert_eq!(manager.mark_failed(other), Ok(()));
    let vm = manager.get(other).unwrap();
    assert_eq!(vm.status, VMStatus::Error);
    assert!(vm.faulted);
}

#[test]
fn test_listing_order_and_content() {
    let mut manager = LifecycleManager::new(DEFAULT_MIN_MEMORY_KB);
    let a = create(&mut manager, &test_vm_config("a"));
    let b = manager.begin_create(&test_vm_config("b"), 0).unwrap();
    let c = create(&mut manager, &test_vm_config("c"));
    let d = create(&mut manager, &test_vm_config("d"));
    manager.finish_create(b, Err(1)).unwrap_err();
    delete(&mut manager, c).unwrap();
    manager.finish_delete(c, Ok(())).unwrap();
    let names: Vec<String> = manager.list().into_iter().map(|vm| vm.name).collect();
    assert_eq!(names, vec!["test-vm-a".to_string(), "test-vm-d".to_string()]);
    let ids: Vec<u64> = manager.list().into_iter().map(|vm| vm.id).collect();
    assert_eq!(ids, vec![a, d]);
    assert_eq!((a, b, c, d), (0, 1, 2, 3));
}

#[test]
fn test_status_predicates() {
    assert!(VMStatus::Deleted.is_terminal());
    assert!(VMStatus::Error.is_terminal());
    assert!(!VMStatus::Deleting.is_terminal());
    assert!(VMStatus::Error.is_live());
    assert!(!VMStatus::Deleted.is_live());
    assert!(VMStatus::Defined.can_start());
    assert!(VMStatus::Stopped.can_start());
    assert!(!VMStatus::Running.can_start());
    assert!(VMStatus::Running.can_stop());
    assert!(!VMStatus::Stopped.can_stop());
    assert!(VMStatus::Error.can_delete());
    assert!(VMStatus::Requested.can_delete());
    assert!(!VMStatus::Deleting.can_delete());
    assert!(!VMStatus::Deleted.can_delete());
    assert!(VMStatus::Running.can_attach());
    assert!(!VMStatus::Requested.can_attach());
    assert!(!VMStatus::Error.can_attach());
}
