//! The PC16500D serial device: which ports it has and what its registers say.
//!
//! Reading and writing the ports is left to the caller; this module says
//! which port to use and what to make of what was read.

use crate::io::IoPort;
use vstd::prelude::*;

verus! {

/// Bit 0 of the line status: a received byte is waiting.
pub const DATA_READY: u8 = 0x01;

/// Bit 5 of the line status: the device can take a byte to transmit.
pub const TRANSMITTER_EMPTY: u8 = 0x20;

/// Bit 4 of the modem control: transmitted data is fed back to the receiver.
pub const LOOPBACK: u8 = 0x10;

/// A serial device at a base port.
#[derive(Clone, Copy, Debug, PartialEq, Eq, Structural)]
pub struct PC16500D {
    io_base: IoPort,
}

proof fn lemma_loopback_bits(value: u8)
    by (bit_vector)
    ensures
        (value | 0x10u8) & 0x10u8 == 0x10u8,
        (value & !0x10u8) & 0x10u8 == 0u8,
        (value | 0x10u8) & !0x10u8 == value & !0x10u8,
        (value & !0x10u8) & !0x10u8 == value & !0x10u8,
{
}

impl PC16500D {
    /// The base port of the device.
    pub closed spec fn base(self) -> u16 {
        self.io_base.0
    }

    /// The device at `io_base`. The device has eight ports from its base on.
    pub fn new(io_base: IoPort) -> (device: Self)
        ensures
            device.base() == io_base.0,
    {
        Self { io_base }
    }

    /// The port through which bytes are received and transmitted.
    pub fn data_port(&self) -> (port: IoPort)
        ensures
            port.0 == self.base(),
    {
        self.io_base
    }

    /// The port of the modem control register, 4 ports after the base.
    pub fn modem_control_port(&self) -> (port: IoPort)
        requires
            self.base() + 4 <= u16::MAX,
        ensures
            port.0 == self.base() + 4,
    {
        self.io_base.add(4)
    }

    /// The port of the line status register, 5 ports after the base.
    pub fn line_status_port(&self) -> (port: IoPort)
        requires
            self.base() + 5 <= u16::MAX,
        ensures
            port.0 == self.base() + 5,
    {
        self.io_base.add(5)
    }

    /// Whether the line status says that a byte can be transmitted.
    pub fn can_transmit(line_status: u8) -> (ready: bool)
        ensures
            ready == (line_status & TRANSMITTER_EMPTY != 0),
    {
        line_status & 0x20 != 0
    }

    /// Whether the line status says that a byte was received.
    pub fn can_receive(line_status: u8) -> (ready: bool)
        ensures
            ready == (line_status & DATA_READY != 0),
    {
        line_status & 0x1 != 0
    }

    /// The modem control value that turns loopback on or off and leaves
    /// every other bit of `modem_control` as it is.
    pub fn loopback(modem_control: u8, value: bool) -> (control: u8)
        ensures
            control == if value {
                modem_control | LOOPBACK
            } else {
                modem_control & !LOOPBACK
            },
            (control & LOOPBACK == LOOPBACK) == value,
            control & !LOOPBACK == modem_control & !LOOPBACK,
    {
        proof {
            lemma_loopback_bits(modem_control);
        }
        if value {
            modem_control | 0x10
        } else {
            modem_control & !0x10
        }
    }
}

} // verus!
