use serial_tool::devices::snapshot_diff;
use serial_tool::{DeviceId, DeviceSnapshot, PresenceMonitor};

fn first_device() -> DeviceId {
    DeviceId { bus: 1, address: 1, vendor_id: 0x1234, product_id: 0x5678 }
}

fn second_device() -> DeviceId {
    DeviceId { bus: 2, address: 3, vendor_id: 0xaaaa, product_id: 0xbbbb }
}

#[test]
fn token_is_zero_padded_decimal_and_hex() {
    assert_eq!(first_device().token(), "001_001_1234_5678");
    assert_eq!(second_device().token(), "002_003_aaaa_bbbb");
}

#[test]
fn token_edges() {
    let low = DeviceId { bus: 0, address: 255, vendor_id: 0, product_id: 0xffff };
    assert_eq!(low.token(), "000_255_0000_ffff");
    let high = DeviceId { bus: 255, address: 0, vendor_id: 0x0a0f, product_id: 0x00c2 };
    assert_eq!(high.token(), "255_000_0a0f_00c2");
}

#[test]
fn from_ids_keeps_each_identity_once() {
    let snap = DeviceSnapshot::from_ids(&vec![first_device(), first_device(), second_device()]);
    assert_eq!(snap.count(), 2);
    assert!(snap.contains(first_device()));
    assert!(snap.contains(second_device()));
}

#[test]
fn arrival_is_added_not_removed() {
    let a = DeviceSnapshot::from_ids(&vec![first_device()]);
    let b = DeviceSnapshot::from_ids(&vec![first_device(), second_device()]);
    let (added, removed) = snapshot_diff(&a, &b);
    assert_eq!(added.count(), 1);
    assert!(added.contains(second_device()));
    assert_eq!(removed.count(), 0);

    // Exactly one change notification fires for the cycle that saw it.
    let mut monitor = PresenceMonitor::new();
    let first = monitor.cycle(Some(DeviceSnapshot::from_ids(&vec![first_device()])));
    assert!(first);
    let second = monitor.cycle(Some(DeviceSnapshot::from_ids(&vec![
        first_device(),
        second_device(),
    ])));
    assert!(second);
}

#[test]
fn departure_is_removed_not_added() {
    let b = DeviceSnapshot::from_ids(&vec![first_device(), second_device()]);
    let a = DeviceSnapshot::from_ids(&vec![first_device()]);
    let (added, removed) = snapshot_diff(&b, &a);
    assert_eq!(added.count(), 0);
    assert_eq!(removed.count(), 1);
    assert!(removed.contains(second_device()));

    let mut monitor = PresenceMonitor::new();
    monitor.cycle(Some(DeviceSnapshot::from_ids(&vec![
        first_device(),
        second_device(),
    ])));
    let notify = monitor.cycle(Some(DeviceSnapshot::from_ids(&vec![first_device()])));
    assert!(notify);
}

#[test]
fn identical_snapshots_fire_nothing() {
    let mut monitor = PresenceMonitor::new();
    let first = monitor.cycle(Some(DeviceSnapshot::from_ids(&vec![
        first_device(),
        second_device(),
    ])));
    assert!(first);
    let again = monitor.cycle(Some(DeviceSnapshot::from_ids(&vec![
        second_device(),
        first_device(),
    ])));
    assert!(!again);
}

#[test]
fn paused_cycle_observes_nothing_and_stays_quiet() {
    let mut monitor = PresenceMonitor::new();
    monitor.cycle(Some(DeviceSnapshot::from_ids(&vec![first_device()])));
    assert!(!monitor.cycle(None));
    // After the pause the running snapshot is still the old one.
    let notify = monitor.cycle(Some(DeviceSnapshot::from_ids(&vec![first_device()])));
    assert!(!notify);
}

#[test]
fn empty_to_empty_is_no_change() {
    let mut monitor = PresenceMonitor::new();
    assert!(!monitor.cycle(Some(DeviceSnapshot::new())));
}

#[test]
fn same_devices_ignores_order() {
    let a = DeviceSnapshot::from_ids(&vec![first_device(), second_device()]);
    let b = DeviceSnapshot::from_ids(&vec![second_device(), first_device()]);
    assert!(a.same_devices(&b));
    let c = DeviceSnapshot::from_ids(&vec![first_device()]);
    assert!(!a.same_devices(&c));
}
