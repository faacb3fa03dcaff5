//! Controller state and the decoding of raw adapter reports.
use vstd::prelude::*;

verus! {

/// Unique id of a logical controller.
pub type ControllerId = usize;

/// Number of controller ports on one adapter.
pub const PORTS_PER_ADAPTER: usize = 4;

/// Size of the raw data of one port.
pub const PORT_REPORT_LEN: usize = 9;

/// Size of a whole-adapter report: one status byte, then the four ports.
pub const REPORT_LEN: usize = 37;

/// The instantaneous state of a GameCube controller. Axes are raw bytes.
#[derive(Clone, Copy, Debug, PartialEq, Eq, Structural)]
pub struct ControllerState {
    pub plugged_in: bool,
    pub buttons: u32,
    pub x: u8,
    pub y: u8,
    pub cx: u8,
    pub cy: u8,
    pub l: u8,
    pub r: u8,
}

/// The state of a controller that is not plugged in.
pub open spec fn unplugged_state() -> ControllerState {
    ControllerState { plugged_in: false, buttons: 0, x: 0, y: 0, cx: 0, cy: 0, l: 0, r: 0 }
}

/// Whether the 9 bytes of a port say that a controller is plugged in.
pub open spec fn spec_is_plugged(d: Seq<u8>) -> bool {
    d[0] != 0
}

/// The state that the 9 bytes of a port describe.
pub open spec fn spec_decode(d: Seq<u8>) -> ControllerState {
    ControllerState {
        plugged_in: spec_is_plugged(d),
        buttons: (d[1] + 256 * d[2]) as u32,
        x: d[3],
        y: d[4],
        cx: d[5],
        cy: d[6],
        l: d[7],
        r: d[8],
    }
}

/// The 9 bytes of port `port` within a whole-adapter report.
pub open spec fn port_slice(report: Seq<u8>, port: int) -> Seq<u8> {
    report.subrange(1 + 9 * port, 10 + 9 * port)
}

impl Default for ControllerState {
    fn default() -> (s: ControllerState)
        ensures
            s == unplugged_state(),
    {
        ControllerState { plugged_in: false, buttons: 0, x: 0, y: 0, cx: 0, cy: 0, l: 0, r: 0 }
    }
}

impl ControllerState {
    /// The state of a controller that is not plugged in.
    pub fn unplugged() -> (s: ControllerState)
        ensures
            s == unplugged_state(),
    {
        ControllerState { plugged_in: false, buttons: 0, x: 0, y: 0, cx: 0, cy: 0, l: 0, r: 0 }
    }

    /// Whether the 9 bytes of a port say that a controller is plugged in.
    pub fn is_plugged(data: &[u8; 9]) -> (r: bool)
        ensures
            r == spec_is_plugged(data@),
    {
        data[0] != 0
    }

    /// Overwrites every field with what the 9 bytes of a port describe.
    pub fn read_slice(&mut self, data: &[u8; 9])
        ensures
            *final(self) == spec_decode(data@),
    {
        self.plugged_in = ControllerState::is_plugged(data);
        self.buttons = (data[1] as u32) + (data[2] as u32) * 256;
        self.x = data[3];
        self.y = data[4];
        self.cx = data[5];
        self.cy = data[6];
        self.l = data[7];
        self.r = data[8];
    }
}

/// Decodes the 9 bytes of one port into the plugged flag and the state.
pub fn decode(data: &[u8; 9]) -> (res: (bool, ControllerState))
    ensures
        res.0 == spec_is_plugged(data@),
        res.1 == spec_decode(data@),
{
    let mut state = ControllerState::unplugged();
    state.read_slice(data);
    (state.plugged_in, state)
}

/// Copies out the 9 bytes of port `port` of a whole-adapter report.
pub fn port_bytes(report: &[u8; 37], port: usize) -> (d: [u8; 9])
    requires
        port < PORTS_PER_ADAPTER,
    ensures
        d@ == port_slice(report@, port as int),
{
    let o: usize = 1 + 9 * port;
    let d: [u8; 9] = [
        report[o],
        report[o + 1],
        report[o + 2],
        report[o + 3],
        report[o + 4],
        report[o + 5],
        report[o + 6],
        report[o + 7],
        report[o + 8],
    ];
    assert(d@ =~= port_slice(report@, port as int));
    d
}

} // verus!
