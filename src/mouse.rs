//! PS/2 mouse packets: three bytes per movement, decoded one byte at a time.
use vstd::prelude::*;
use crate::ata::PortIo;

verus! {

/// Flag: left button pressed.
pub const MOUSE_LEFT_BUTTON: u8 = 0x01;
/// Flag: right button pressed.
pub const MOUSE_RIGHT_BUTTON: u8 = 0x02;
/// Flag: middle button pressed.
pub const MOUSE_MIDDLE_BUTTON: u8 = 0x04;
/// Flag: set in every valid first byte.
pub const MOUSE_ALWAYS_ONE: u8 = 0x08;
/// Flag: the x movement is negative.
pub const MOUSE_X_SIGN: u8 = 0x10;
/// Flag: the y movement is negative.
pub const MOUSE_Y_SIGN: u8 = 0x20;
/// Flag: the x movement overflowed.
pub const MOUSE_X_OVERFLOW: u8 = 0x40;
/// Flag: the y movement overflowed.
pub const MOUSE_Y_OVERFLOW: u8 = 0x80;

/// Every bit of `mask` is set in `flags`.
pub open spec fn has_flags(flags: u8, mask: u8) -> bool {
    flags & mask == mask
}

/// Whether every bit of `mask` is set in `flags`.
pub fn contains_flags(flags: u8, mask: u8) -> (r: bool)
    ensures
        r == has_flags(flags, mask),
{
    flags & mask == mask
}

/// One decoded movement: the flags byte and the two movements.
#[derive(Clone, Copy, Debug, PartialEq, Eq, Structural)]
pub struct MouseAction {
    pub flags: u8,
    pub dx: i16,
    pub dy: i16,
}

impl MouseAction {
    /// No button, no movement.
    pub fn new() -> (r: MouseAction)
        ensures
            r.flags == 0 && r.dx == 0 && r.dy == 0,
    {
        MouseAction { flags: 0, dx: 0, dy: 0 }
    }

    pub fn left_button_down(&self) -> (r: bool)
        ensures
            r == has_flags(self.flags, MOUSE_LEFT_BUTTON),
    {
        contains_flags(self.flags, MOUSE_LEFT_BUTTON)
    }

    pub fn left_button_up(&self) -> (r: bool)
        ensures
            r == !has_flags(self.flags, MOUSE_LEFT_BUTTON),
    {
        !contains_flags(self.flags, MOUSE_LEFT_BUTTON)
    }

    pub fn right_button_down(&self) -> (r: bool)
        ensures
            r == has_flags(self.flags, MOUSE_RIGHT_BUTTON),
    {
        contains_flags(self.flags, MOUSE_RIGHT_BUTTON)
    }

    pub fn right_button_up(&self) -> (r: bool)
        ensures
            r == !has_flags(self.flags, MOUSE_RIGHT_BUTTON),
    {
        !contains_flags(self.flags, MOUSE_RIGHT_BUTTON)
    }

    pub fn x_moved(&self) -> (r: bool)
        ensures
            r == (self.dx != 0),
    {
        self.dx != 0
    }

    pub fn y_moved(&self) -> (r: bool)
        ensures
            r == (self.dy != 0),
    {
        self.dy != 0
    }

    pub fn moved(&self) -> (r: bool)
        ensures
            r == (self.dx != 0 || self.dy != 0),
    {
        self.x_moved() || self.y_moved()
    }

    pub fn get_dx(&self) -> (r: i16)
        ensures
            r == self.dx,
    {
        self.dx
    }

    pub fn get_dy(&self) -> (r: i16)
        ensures
            r == self.dy,
    {
        self.dy
    }
}

/// The movement that a packet byte stands for: negative when the sign flag
/// is set.
pub open spec fn movement(packet: u8, negative: bool) -> int {
    if negative { packet - 256 } else { packet as int }
}

/// The decoder: which byte of the packet comes next, the movement being
/// decoded, and the last one completed.
pub struct Mouse {
    pub current_packet: u8,
    pub current_action: MouseAction,
    pub completed_action: MouseAction,
}

impl Mouse {
    /// The next byte is one of the three.
    pub open spec fn wf(&self) -> bool {
        self.current_packet < 3
    }

    /// A decoder waiting for the first byte.
    pub fn new() -> (r: Mouse)
        ensures
            r.wf(),
            r.current_packet == 0,
            r.current_action == MouseAction::new_spec(),
            r.completed_action == MouseAction::new_spec(),
    {
        Mouse { current_packet: 0, current_action: MouseAction::new(), completed_action: MouseAction::new() }
    }

    /// The last completed movement.
    pub fn get_action(&self) -> (r: MouseAction)
        ensures
            r == self.completed_action,
    {
        self.completed_action
    }

    /// The byte as a negative movement.
    fn sign_extend(&self, packet: u8) -> (r: i16)
        ensures
            r == packet - 256,
    {
        let v: u16 = (packet as u16) | 0xFF00;
        assert((packet as u16) | 0xFF00u16 == packet + 0xFF00) by (bit_vector);
        (v as i32 - 65536) as i16
    }

    /// Takes one byte of a packet. A first byte without the always-one flag
    /// is dropped. The second and third bytes set the x and y movements,
    /// unless their overflow flag is set. After the third byte the movement
    /// is complete and is returned.
    pub fn process_packet(&mut self, packet: u8) -> (r: Option<MouseAction>)
        requires
            old(self).wf(),
        ensures
            final(self).wf(),
            old(self).current_packet == 0 ==> if has_flags(packet, MOUSE_ALWAYS_ONE) {
                r is None && final(self).current_packet == 1 && final(self).current_action == MouseAction {
                    flags: packet,
                    ..old(self).current_action
                } && final(self).completed_action == old(self).completed_action
            } else {
                r is None && *final(self) == *old(self)
            },
            old(self).current_packet == 1 ==> ({
                let a = old(self).current_action;
                let dx = if has_flags(a.flags, MOUSE_X_OVERFLOW) {
                    a.dx as int
                } else {
                    movement(packet, has_flags(a.flags, MOUSE_X_SIGN))
                };
                &&& r is None
                &&& final(self).current_packet == 2
                &&& final(self).current_action.flags == a.flags
                &&& final(self).current_action.dx == dx
                &&& final(self).current_action.dy == a.dy
                &&& final(self).completed_action == old(self).completed_action
            }),
            old(self).current_packet == 2 ==> ({
                let a = old(self).current_action;
                let dy = if has_flags(a.flags, MOUSE_Y_OVERFLOW) {
                    a.dy as int
                } else {
                    movement(packet, has_flags(a.flags, MOUSE_Y_SIGN))
                };
                &&& final(self).current_packet == 0
                &&& final(self).current_action.flags == a.flags
                &&& final(self).current_action.dx == a.dx
                &&& final(self).current_action.dy == dy
                &&& final(self).completed_action == final(self).current_action
                &&& r == Some(final(self).completed_action)
            }),
    {
        if self.current_packet == 0 {
            if !contains_flags(packet, MOUSE_ALWAYS_ONE) {
                return None;
            }
            self.current_action.flags = packet;
            self.current_packet = 1;
            None
        } else if self.current_packet == 1 {
            if !contains_flags(self.current_action.flags, MOUSE_X_OVERFLOW) {
                self.current_action.dx = if contains_flags(self.current_action.flags, MOUSE_X_SIGN) {
                    self.sign_extend(packet)
                } else {
                    packet as i16
                };
            }
            self.current_packet = 2;
            None
        } else {
            if !contains_flags(self.current_action.flags, MOUSE_Y_OVERFLOW) {
                self.current_action.dy = if contains_flags(self.current_action.flags, MOUSE_Y_SIGN) {
                    self.sign_extend(packet)
                } else {
                    packet as i16
                };
            }
            self.completed_action = self.current_action;
            self.current_packet = 0;
            Some(self.completed_action)
        }
    }
}

/// Data port of the PS/2 controller.
pub const PORT_MOUSE_DATA: u16 = 0x60;
/// Command and status port of the PS/2 controller.
pub const PORT_MOUSE_COMMAND: u16 = 0x64;
/// Status bit: the controller's input buffer is full.
pub const STATUS_INPUT_BUFFER_FULL: u8 = 0x02;
/// Status bit: the controller's output buffer is full.
pub const STATUS_OUTPUT_BUFFER_FULL: u8 = 0x01;
/// Controller command: write the configuration byte.
pub const COMMAND_SET_STATUS: u8 = 0x60;
/// Controller command: read the configuration byte.
pub const COMMAND_GET_STATUS: u8 = 0x20;
/// Controller command: send the next data byte to the mouse.
pub const COMMAND_SEND_TO_MOUSE: u8 = 0xD4;
/// Mouse command: start reporting.
pub const SET_ENABLE: u8 = 0xF4;
/// Mouse command: default settings.
pub const SET_DEFAULTS: u8 = 0xF6;
/// How many times a wait reads the status before giving up.
pub const MOUSE_MAX_POLLS: u32 = 100_000;

/// Why talking to the PS/2 controller failed.
#[derive(Clone, Copy, Debug, PartialEq, Eq, Structural)]
pub enum MouseError {
    /// No byte arrived to be read.
    ReadTimeout,
    /// The controller did not take a byte.
    WriteTimeout,
}

/// Waits until the controller has a byte to read.
pub fn wait_for_read<P: PortIo>(io: &mut P) -> (r: Result<(), MouseError>)
    ensures
        r is Err ==> r->Err_0 == MouseError::ReadTimeout,
{
    let mut polls: u32 = 0;
    while polls < MOUSE_MAX_POLLS
        decreases MOUSE_MAX_POLLS - polls,
    {
        let value: u8 = io.in_u8(PORT_MOUSE_COMMAND);
        if value & STATUS_OUTPUT_BUFFER_FULL != 0 {
            return Ok(());
        }
        polls = polls + 1;
    }
    Err(MouseError::ReadTimeout)
}

/// Waits until the controller can take a byte.
pub fn wait_for_write<P: PortIo>(io: &mut P) -> (r: Result<(), MouseError>)
    ensures
        r is Err ==> r->Err_0 == MouseError::WriteTimeout,
{
    let mut polls: u32 = 0;
    while polls < MOUSE_MAX_POLLS
        decreases MOUSE_MAX_POLLS - polls,
    {
        let value: u8 = io.in_u8(PORT_MOUSE_COMMAND);
        if value & STATUS_INPUT_BUFFER_FULL == 0 {
            return Ok(());
        }
        polls = polls + 1;
    }
    Err(MouseError::WriteTimeout)
}

/// Sends a command byte to the controller.
pub fn write_command<P: PortIo>(io: &mut P, data: u8) -> (r: Result<(), MouseError>)
    ensures
        r is Err ==> r->Err_0 == MouseError::WriteTimeout,
{
    match wait_for_write(io) {
        Ok(()) => {},
        Err(e) => return Err(e),
    }
    io.out_u8(PORT_MOUSE_COMMAND, data);
    Ok(())
}

/// Reads a data byte from the controller.
pub fn read_data<P: PortIo>(io: &mut P) -> (r: Result<u8, MouseError>)
    ensures
        r is Err ==> r->Err_0 == MouseError::ReadTimeout,
{
    match wait_for_read(io) {
        Ok(()) => {},
        Err(e) => return Err(e),
    }
    Ok(io.in_u8(PORT_MOUSE_DATA))
}

/// Writes a data byte to the controller.
pub fn write_data<P: PortIo>(io: &mut P, data: u8) -> (r: Result<(), MouseError>)
    ensures
        r is Err ==> r->Err_0 == MouseError::WriteTimeout,
{
    match wait_for_write(io) {
        Ok(()) => {},
        Err(e) => return Err(e),
    }
    io.out_u8(PORT_MOUSE_DATA, data);
    Ok(())
}

/// Reads the controller's configuration byte.
pub fn get_status<P: PortIo>(io: &mut P) -> (r: Result<u8, MouseError>) {
    match write_command(io, COMMAND_GET_STATUS) {
        Ok(()) => {},
        Err(e) => return Err(e),
    }
    read_data(io)
}

/// Writes the controller's configuration byte.
pub fn set_status<P: PortIo>(io: &mut P, data: u8) -> (r: Result<(), MouseError>)
    ensures
        r is Err ==> r->Err_0 == MouseError::WriteTimeout,
{
    match write_command(io, COMMAND_SET_STATUS) {
        Ok(()) => {},
        Err(e) => return Err(e),
    }
    write_data(io, data)
}

/// Sends a byte to the mouse and returns its answer.
pub fn send_to_mouse<P: PortIo>(io: &mut P, data: u8) -> (r: Result<u8, MouseError>) {
    match write_command(io, COMMAND_SEND_TO_MOUSE) {
        Ok(()) => {},
        Err(e) => return Err(e),
    }
    match write_data(io, data) {
        Ok(()) => {},
        Err(e) => return Err(e),
    }
    read_data(io)
}

/// Turns the mouse on: enables its interrupt in the controller, restores its
/// defaults and starts reporting. Returns a decoder for its packets.
pub fn init<P: PortIo>(io: &mut P) -> (r: Result<Mouse, MouseError>)
    ensures
        r is Ok ==> r->Ok_0.wf() && r->Ok_0.current_packet == 0,
{
    let status = match get_status(io) {
        Ok(s) => s,
        Err(e) => return Err(e),
    };
    match set_status(io, (status | 0x02) & 0xDF) {
        Ok(()) => {},
        Err(e) => return Err(e),
    }
    match send_to_mouse(io, SET_DEFAULTS) {
        Ok(_) => {},
        Err(e) => return Err(e),
    }
    match send_to_mouse(io, SET_ENABLE) {
        Ok(_) => {},
        Err(e) => return Err(e),
    }
    Ok(Mouse::new())
}

impl MouseAction {
    pub open spec fn new_spec() -> MouseAction {
        MouseAction { flags: 0, dx: 0, dy: 0 }
    }
}

impl Default for Mouse {
    fn default() -> (r: Mouse)
        ensures
            r.wf(),
            r.current_packet == 0,
    {
        Mouse::new()
    }
}

} // verus!
