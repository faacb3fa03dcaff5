use gcadapter_driver::controller::{decode, port_bytes, ControllerState};

#[test]
fn decode_plugged_port() {
    let (plugged, state) = decode(&[0x14, 0x00, 0x00, 10, 20, 30, 40, 50, 60]);
    assert!(plugged);
    assert!(state.plugged_in);
    assert_eq!(state.buttons, 0x0000);
    assert_eq!(state.x, 10);
    assert_eq!(state.y, 20);
    assert_eq!(state.cx, 30);
    assert_eq!(state.cy, 40);
    assert_eq!(state.l, 50);
    assert_eq!(state.r, 60);
}

#[test]
fn decode_unplugged_port() {
    let (plugged, state) = decode(&[0x00, 0x00, 0x00, 10, 20, 30, 40, 50, 60]);
    assert!(!plugged);
    assert!(!state.plugged_in);
}

#[test]
fn decode_buttons_little_endian() {
    let (_, state) = decode(&[0x10, 0x34, 0x12, 0, 0, 0, 0, 0, 0]);
    assert_eq!(state.buttons, 0x1234);
    let (_, state) = decode(&[0x10, 0xFF, 0xFF, 255, 255, 255, 255, 255, 255]);
    assert_eq!(state.buttons, 0xFFFF);
    assert_eq!(state.r, 255);
}

#[test]
fn is_plugged_reads_first_byte() {
    assert!(ControllerState::is_plugged(&[1, 0, 0, 0, 0, 0, 0, 0, 0]));
    assert!(!ControllerState::is_plugged(&[0, 9, 9, 9, 9, 9, 9, 9, 9]));
}

#[test]
fn read_slice_overwrites_every_field() {
    let mut state = ControllerState::default();
    state.read_slice(&[0x14, 0x01, 0x02, 1, 2, 3, 4, 5, 6]);
    let expected = ControllerState {
        plugged_in: true,
        buttons: 0x0201,
        x: 1,
        y: 2,
        cx: 3,
        cy: 4,
        l: 5,
        r: 6,
    };
    assert_eq!(state, expected);
    state.read_slice(&[0, 0, 0, 0, 0, 0, 0, 0, 0]);
    assert_eq!(state, ControllerState::unplugged());
}

#[test]
fn default_state_is_unplugged() {
    let state = ControllerState::default();
    assert!(!state.plugged_in);
    assert_eq!(state, ControllerState::unplugged());
    assert_eq!(state.buttons, 0);
}

#[test]
fn port_bytes_slices_whole_report() {
    let mut report = [0u8; 37];
    for (i, b) in report.iter_mut().enumerate() {
        *b = i as u8;
    }
    assert_eq!(port_bytes(&report, 0), [1, 2, 3, 4, 5, 6, 7, 8, 9]);
    assert_eq!(port_bytes(&report, 2), [19, 20, 21, 22, 23, 24, 25, 26, 27]);
    assert_eq!(port_bytes(&report, 3), [28, 29, 30, 31, 32, 33, 34, 35, 36]);
}
