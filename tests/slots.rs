use gcadapter_driver::slots::ControllerSlots;

#[test]
fn allocate_hands_out_lowest_index() {
    let mut slots = ControllerSlots::new();
    assert_eq!(slots.allocate(), 0);
    assert_eq!(slots.allocate(), 1);
    assert_eq!(slots.allocate(), 2);
    slots.dealloc(1);
    assert_eq!(slots.allocate(), 1);
    assert_eq!(slots.allocate(), 3);
}

#[test]
fn allocate_dealloc_allocate_returns_same_index() {
    let mut slots = ControllerSlots::new();
    let i = slots.allocate();
    slots.dealloc(i);
    assert_eq!(slots.allocate(), i);
    slots.allocate();
    slots.allocate();
    let j = slots.allocate();
    assert_eq!(j, 3);
    slots.dealloc(j);
    assert_eq!(slots.allocate(), j);
}

#[test]
fn table_grows_only_when_full() {
    let mut slots = ControllerSlots::new();
    assert_eq!(slots.len(), 0);
    slots.allocate();
    slots.allocate();
    assert_eq!(slots.len(), 2);
    slots.dealloc(0);
    assert_eq!(slots.lowest_free_index(), 0);
    assert_eq!(slots.allocate(), 0);
    assert_eq!(slots.len(), 2);
    assert_eq!(slots.lowest_free_index(), 2);
}

#[test]
fn is_allocated_tracks_claims() {
    let mut slots = ControllerSlots::new();
    assert!(!slots.is_allocated(0));
    slots.allocate();
    assert!(slots.is_allocated(0));
    slots.dealloc(0);
    assert!(!slots.is_allocated(0));
    assert!(!slots.is_allocated(7));
}
