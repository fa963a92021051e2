use gpu_multiexp::locks::can_use_device;
use gpu_multiexp::locks::should_break;
use gpu_multiexp::locks::LockedMultiexpKernel;
use gpu_multiexp::locks::NamedLock;
use gpu_multiexp::multiexp::DeviceConfig;

fn working_device(max_batch: usize) -> DeviceConfig {
    DeviceConfig {
        max_batch,
        window_size: 10,
        num_groups: 4,
        has_primary: true,
        has_secondary: true,
        faulty: false,
    }
}

#[test]
fn lock_mutual_exclusion() {
    let mut lock = NamedLock::new();
    assert!(lock.try_acquire(1));
    assert!(!lock.try_acquire(2));
    assert!(!lock.try_acquire(2));
    lock.release(1);
    assert!(lock.try_acquire(2));
    assert!(!lock.try_acquire(1));
}

#[test]
fn lock_blocking_acquire_then_probe() {
    let mut lock = NamedLock::new();
    lock.acquire(7);
    assert!(lock.is_signaled(8));
    assert!(!lock.is_signaled(7));
    lock.release(7);
    assert!(!lock.is_signaled(8));
}

#[test]
fn self_non_contention() {
    let mut signal = NamedLock::new();
    signal.acquire(5);
    // The holder of the priority role never observes itself as contended.
    assert!(!signal.is_signaled(5));
    assert!(!should_break(true, &signal, 5));
    assert!(can_use_device(true, &signal, 5));
}

#[test]
fn priority_preemption_signal() {
    let mut signal = NamedLock::new();
    assert!(!should_break(false, &signal, 3));
    signal.acquire(9);
    // Every other normal-priority actor must now relinquish.
    assert!(should_break(false, &signal, 3));
    assert!(!can_use_device(false, &signal, 3));
    // A priority-role actor is not driven off.
    assert!(!should_break(true, &signal, 3));
}

#[test]
fn acquire_if_priority_none_for_normal() {
    let mut signal = NamedLock::new();
    assert!(!signal.acquire_if_priority(false, 4));
    assert!(!signal.is_signaled(6));
    assert!(signal.acquire_if_priority(true, 4));
    assert!(signal.is_signaled(6));
}

#[test]
fn cache_builds_and_reuses_kernel() {
    let signal = NamedLock::new();
    let devices = vec![working_device(8), working_device(16)];
    let mut cache = LockedMultiexpKernel::new(false);
    assert!(cache.kernel.is_none());
    assert!(cache.get(&signal, 1, &devices));
    assert!(cache.kernel.is_some());
    assert_eq!(cache.kernel.as_ref().unwrap().device_count(), 2);
    // A second clean observation keeps the same kernel.
    assert!(cache.get(&signal, 1, &devices));
    assert!(cache.kernel.is_some());
}

#[test]
fn cache_drops_kernel_on_preemption() {
    let mut signal = NamedLock::new();
    let devices = vec![working_device(8)];
    let mut cache = LockedMultiexpKernel::new(false);
    assert!(cache.get(&signal, 1, &devices));
    assert!(cache.kernel.is_some());
    // A high-priority actor raises the signal: the very next get drops it.
    signal.acquire(2);
    assert!(!cache.get(&signal, 1, &devices));
    assert!(cache.kernel.is_none());
    // And it stays empty while the signal stands.
    assert!(!cache.get(&signal, 1, &devices));
    assert!(cache.kernel.is_none());
    // Once released, the kernel is rebuilt on demand.
    signal.release(2);
    assert!(cache.get(&signal, 1, &devices));
    assert!(cache.kernel.is_some());
}

#[test]
fn priority_cache_keeps_kernel_under_signal() {
    let mut signal = NamedLock::new();
    let devices = vec![working_device(8)];
    let mut cache = LockedMultiexpKernel::new(true);
    assert!(cache.get(&signal, 1, &devices));
    signal.acquire(2);
    // The priority-role owner does not relinquish.
    assert!(cache.get(&signal, 1, &devices));
    assert!(cache.kernel.is_some());
}

#[test]
fn cache_stays_empty_without_devices() {
    let signal = NamedLock::new();
    let devices: Vec<DeviceConfig> = Vec::new();
    let mut cache = LockedMultiexpKernel::new(false);
    assert!(!cache.get(&signal, 1, &devices));
    assert!(cache.kernel.is_none());
}
