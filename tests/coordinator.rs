use gcadapter_driver::controller::ControllerState;
use gcadapter_driver::coordinator::{
    read_latest_state, state_at, ControllerEvent, PollingCoordinator,
};
use gcadapter_driver::sync_cell::SyncCell;

fn report(ports: [[u8; 9]; 4]) -> [u8; 37] {
    let mut r = [0u8; 37];
    r[0] = 0x21;
    for p in 0..4 {
        for i in 0..9 {
            r[1 + 9 * p + i] = ports[p][i];
        }
    }
    r
}

const EMPTY: [u8; 9] = [0, 0, 0, 0, 0, 0, 0, 0, 0];
const PLUGGED: [u8; 9] = [0x14, 0, 0, 10, 20, 30, 40, 50, 60];

#[test]
fn plug_and_unplug_fire_once_per_transition() {
    let mut c = PollingCoordinator::new();
    assert_eq!(c.add_adapter(7), Some(0));
    let events = c.apply_report(7, &report([PLUGGED, PLUGGED, EMPTY, EMPTY]));
    assert_eq!(events, vec![ControllerEvent::Plugged(0), ControllerEvent::Plugged(1)]);
    let events = c.apply_report(7, &report([PLUGGED, PLUGGED, EMPTY, EMPTY]));
    assert_eq!(events, vec![]);
    let events = c.apply_report(7, &report([PLUGGED, EMPTY, EMPTY, EMPTY]));
    assert_eq!(events, vec![ControllerEvent::Unplugged(1)]);
    assert!(c.latest_state(0).plugged_in);
    assert!(!c.latest_state(1).plugged_in);
}

#[test]
fn report_writes_decoded_states_by_id() {
    let mut c = PollingCoordinator::new();
    c.add_adapter(1);
    c.add_adapter(2);
    c.apply_report(2, &report([EMPTY, EMPTY, PLUGGED, EMPTY]));
    let s = c.latest_state(6);
    assert!(s.plugged_in);
    assert_eq!((s.x, s.y, s.cx, s.cy, s.l, s.r), (10, 20, 30, 40, 50, 60));
    assert_eq!(c.latest_state(2), ControllerState::unplugged());
    assert_eq!(c.snapshot().len(), 8);
}

#[test]
fn removing_adapter_unplugs_only_plugged_ports() {
    let mut c = PollingCoordinator::new();
    c.add_adapter(3);
    c.apply_report(3, &report([EMPTY, PLUGGED, EMPTY, PLUGGED]));
    let events = c.remove_adapter(3);
    assert_eq!(events, vec![ControllerEvent::Unplugged(1), ControllerEvent::Unplugged(3)]);
    assert_eq!(c.latest_state(1), ControllerState::unplugged());
    assert_eq!(c.addresses(), Vec::<u8>::new());
    assert_eq!(c.remove_adapter(3), vec![]);
}

#[test]
fn removed_base_is_reused_lowest_first() {
    let mut c = PollingCoordinator::new();
    assert_eq!(c.add_adapter(10), Some(0));
    assert_eq!(c.add_adapter(11), Some(1));
    assert_eq!(c.add_adapter(12), Some(2));
    c.remove_adapter(11);
    assert_eq!(c.addresses(), vec![10, 12]);
    assert_eq!(c.add_adapter(13), Some(1));
    assert_eq!(c.add_adapter(14), Some(3));
    assert_eq!(c.addresses(), vec![10, 12, 13, 14]);
    assert_eq!(c.snapshot().len(), 16);
}

#[test]
fn adding_live_address_again_changes_nothing() {
    let mut c = PollingCoordinator::new();
    assert_eq!(c.add_adapter(4), Some(0));
    assert_eq!(c.add_adapter(4), None);
    assert_eq!(c.addresses(), vec![4]);
}

#[test]
fn report_for_unknown_adapter_is_ignored() {
    let mut c = PollingCoordinator::new();
    c.add_adapter(1);
    assert_eq!(c.apply_report(2, &report([PLUGGED, PLUGGED, PLUGGED, PLUGGED])), vec![]);
    assert_eq!(c.snapshot(), vec![ControllerState::unplugged(); 4]);
}

#[test]
fn unassigned_id_reads_unplugged() {
    let mut c = PollingCoordinator::new();
    assert_eq!(c.latest_state(0), ControllerState::unplugged());
    assert_eq!(c.latest_state(100), ControllerState::unplugged());
    c.add_adapter(1);
    c.add_adapter(2);
    c.apply_report(2, &report([PLUGGED, PLUGGED, PLUGGED, PLUGGED]));
    c.remove_adapter(2);
    assert_eq!(c.latest_state(5), ControllerState::unplugged());
    assert_eq!(c.latest_state(usize::MAX), ControllerState::unplugged());
}

#[test]
fn state_at_out_of_range_is_unplugged() {
    let mut s = ControllerState::unplugged();
    s.read_slice(&PLUGGED);
    let snapshot = vec![s];
    assert_eq!(state_at(&snapshot, 0), s);
    assert_eq!(state_at(&snapshot, 1), ControllerState::unplugged());
}

#[test]
fn published_snapshot_is_read_back() {
    let mut cell: SyncCell<Vec<ControllerState>> = SyncCell::new();
    assert_eq!(read_latest_state(&cell, 0), ControllerState::unplugged());
    let writer = cell.create_writer().unwrap();
    let mut c = PollingCoordinator::new();
    c.add_adapter(1);
    c.apply_report(1, &report([EMPTY, PLUGGED, EMPTY, EMPTY]));
    writer.write(c.snapshot());
    assert!(read_latest_state(&cell, 1).plugged_in);
    assert!(!read_latest_state(&cell, 0).plugged_in);
    assert_eq!(read_latest_state(&cell, 9), ControllerState::unplugged());
}

#[test]
fn failed_read_drops_adapter() {
    let mut c = PollingCoordinator::new();
    c.add_adapter(8);
    c.add_adapter(9);
    let r = report([EMPTY, EMPTY, PLUGGED, EMPTY]);
    assert_eq!(c.apply_read(9, Some(&r)), vec![ControllerEvent::Plugged(6)]);
    assert_eq!(c.apply_read(9, None), vec![ControllerEvent::Unplugged(6)]);
    assert_eq!(c.addresses(), vec![8]);
    assert_eq!(c.latest_state(6), ControllerState::unplugged());
    assert_eq!(c.add_adapter(10), Some(1));
}
