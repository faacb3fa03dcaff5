use gcadapter_driver::controller::ControllerState;
use gcadapter_driver::sync_cell::{ControlBlock, SyncCell, BUFFER_SIZE};

#[test]
fn new_cell_reads_default() {
    let cell: SyncCell<u32> = SyncCell::new();
    assert_eq!(*cell.read(), 0);
}

#[test]
fn read_returns_last_publish() {
    let mut cell = SyncCell::with_initial((1u32, 1u32));
    let writer = cell.create_writer().unwrap();
    writer.write((2, 2));
    assert_eq!(*cell.read(), (2, 2));
    writer.write((3, 3));
    writer.write((4, 4));
    assert_eq!(*cell.read(), (4, 4));
}

#[test]
fn many_publishes_wrap_the_ring() {
    let mut cell: SyncCell<Vec<u64>> = SyncCell::new();
    let writer = cell.create_writer().unwrap();
    let held = cell.read();
    for i in 0..(3 * BUFFER_SIZE as u64 + 5) {
        writer.write(vec![i, i * 2]);
        let seen = cell.read();
        assert_eq!(*seen, vec![i, i * 2]);
    }
    assert_eq!(*held, Vec::<u64>::new());
}

#[test]
fn control_block_update_then_read() {
    let mut cb: ControlBlock<i32> = ControlBlock::new();
    assert_eq!(*cb.read(), 0);
    cb.update(5);
    assert_eq!(*cb.read(), 5);
    for i in 0..40 {
        cb.update(i);
    }
    assert_eq!(*cb.read(), 39);
}

#[test]
fn readers_share_one_cell() {
    let mut cell = SyncCell::with_initial(String::from("a"));
    let writer = cell.create_writer().unwrap();
    let before = cell.read();
    writer.write(String::from("b"));
    let after = cell.read();
    assert_eq!(before.as_str(), "a");
    assert_eq!(after.as_str(), "b");
}

#[test]
fn cell_hands_out_one_writer() {
    let mut cell = SyncCell::with_initial(7u8);
    let writer = cell.create_writer();
    assert!(writer.is_some());
    assert!(cell.create_writer().is_none());
    assert!(cell.create_writer().is_none());
    writer.unwrap().write(8);
    assert_eq!(*cell.read(), 8);
}

#[test]
fn new_cell_of_states_reads_unplugged() {
    let cell: SyncCell<ControllerState> = SyncCell::new();
    assert_eq!(*cell.read(), ControllerState::unplugged());
}

#[test]
fn control_block_marker_advances_around_ring() {
    let mut cb = ControlBlock::with_initial(0usize);
    for i in 1..=(2 * BUFFER_SIZE + 1) {
        cb.update(i);
        assert_eq!(*cb.read(), i);
    }
}
