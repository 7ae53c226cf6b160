//! What arrives from a world server.
use vstd::prelude::*;

verus! {

/// One packet: which it is, and what it carries.
#[derive(Debug, Clone, PartialEq, Eq)]
pub struct Packet {
    pub opcode: u16,
    pub body: Vec<u8>,
}

/// A [`Packet`] as a mathematical value.
pub struct PacketView {
    pub opcode: u16,
    pub body: Seq<u8>,
}

impl View for Packet {
    type V = PacketView;

    open spec fn view(&self) -> PacketView {
        PacketView { opcode: self.opcode, body: self.body@ }
    }
}

} // verus!
