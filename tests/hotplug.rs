use gcadapter_driver::hotplug::{
    adapter_present, contains_address, device_is_adapter, AdapterEvent, DeviceInfo, HotplugMonitor,
};
use gcadapter_driver::{PRODUCT_ID, VENDOR_ID};

fn adapter(address: u8) -> DeviceInfo {
    DeviceInfo { address, vendor_id: VENDOR_ID, product_id: PRODUCT_ID }
}

fn other(address: u8) -> DeviceInfo {
    DeviceInfo { address, vendor_id: 0x1234, product_id: PRODUCT_ID }
}

#[test]
fn adapter_added_then_removed_once() {
    let mut monitor = HotplugMonitor::new();
    // cycle 1: present
    assert_eq!(monitor.poll(&vec![adapter(5)]), vec![AdapterEvent::Added(5)]);
    // cycle 2: still present
    assert_eq!(monitor.poll(&vec![adapter(5)]), vec![]);
    // cycle 3: gone
    assert_eq!(monitor.poll(&vec![]), vec![AdapterEvent::Removed(5)]);
    // cycle 4: still gone
    assert_eq!(monitor.poll(&vec![]), vec![]);
}

#[test]
fn other_devices_are_ignored() {
    let mut monitor = HotplugMonitor::new();
    assert_eq!(monitor.poll(&vec![other(1), adapter(2)]), vec![AdapterEvent::Added(2)]);
    assert_eq!(monitor.known_addresses(), &vec![2u8]);
    assert_eq!(monitor.poll(&vec![other(2)]), vec![AdapterEvent::Removed(2)]);
}

#[test]
fn removals_come_before_additions() {
    let mut monitor = HotplugMonitor::new();
    monitor.poll(&vec![adapter(1), adapter(2)]);
    let events = monitor.poll(&vec![adapter(3), adapter(2)]);
    assert_eq!(events, vec![AdapterEvent::Removed(1), AdapterEvent::Added(3)]);
    assert_eq!(monitor.known_addresses(), &vec![2u8, 3u8]);
}

#[test]
fn repeated_address_reported_once() {
    let mut monitor = HotplugMonitor::new();
    assert_eq!(monitor.poll(&vec![adapter(4), adapter(4)]), vec![AdapterEvent::Added(4)]);
    assert_eq!(monitor.known_addresses(), &vec![4u8]);
}

#[test]
fn address_reused_after_removal() {
    let mut monitor = HotplugMonitor::new();
    monitor.poll(&vec![adapter(9)]);
    monitor.poll(&vec![]);
    assert_eq!(monitor.poll(&vec![adapter(9)]), vec![AdapterEvent::Added(9)]);
}

#[test]
fn device_filter_and_lookups() {
    assert!(device_is_adapter(&adapter(1)));
    assert!(!device_is_adapter(&other(1)));
    assert!(!device_is_adapter(&DeviceInfo { address: 1, vendor_id: VENDOR_ID, product_id: 0 }));
    let devices = vec![other(3), adapter(7)];
    assert!(adapter_present(&devices, 7));
    assert!(!adapter_present(&devices, 3));
    assert!(contains_address(&vec![1, 2, 3], 2));
    assert!(!contains_address(&vec![1, 2, 3], 4));
}

#[test]
fn failed_enumeration_contributes_no_events() {
    let mut monitor = HotplugMonitor::new();
    assert_eq!(monitor.poll_enumeration(Some(vec![adapter(6)])), vec![AdapterEvent::Added(6)]);
    assert_eq!(monitor.poll_enumeration(None), vec![]);
    assert_eq!(monitor.known_addresses(), &vec![6u8]);
    assert_eq!(monitor.poll_enumeration(Some(vec![])), vec![AdapterEvent::Removed(6)]);
}
