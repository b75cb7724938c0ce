//! Receive-path packet parser: a byte-at-a-time state machine that turns the
//! raw stream into protocol units. Outside a frame it accepts `$` (frame
//! start), 0x03 (interrupt), `+` (acknowledge) and `-` (not-acknowledge);
//! inside a frame it collects 7-bit payload bytes until `#`, then consumes
//! the two checksum trailer bytes (not validated here, an accepted
//! simplification) and emits the command.

use vstd::prelude::*;
use crate::frame::{DOLLAR, HASH};

verus! {

pub const INTERRUPT_BYTE: u8 = 0x03;

pub const ACK_BYTE: u8 = 0x2b;

pub const NAK_BYTE: u8 = 0x2d;

/// One unit of the protocol stream.
pub enum ProtocolUnit {
    /// An out-of-band attention byte (0x03).
    Interrupt,
    /// A bare `+`: the peer accepted our last frame.
    Acknowledge,
    /// A bare `-`: the peer rejected our last frame.
    NotAcknowledge,
    /// A framed command with its unvalidated payload.
    Command(Vec<u8>),
}

/// What one fed byte produced.
pub enum FeedOutcome {
    /// The byte was consumed; no unit is complete yet.
    Pending,
    /// The byte completed a unit.
    Unit(ProtocolUnit),
    /// The byte broke the protocol: an unexpected byte outside a frame, or
    /// a byte with the high bit set inside one. The parser returns to the
    /// pre-frame state; the session treats this as terminal.
    Violation,
}

/// The scanning phase of the parser.
#[derive(PartialEq, Eq, Structural, Clone, Copy, Debug)]
pub enum Phase {
    /// Between frames, watching for a marker byte.
    PreFrame,
    /// Inside a frame, collecting payload bytes until `#`.
    Body,
    /// After `#`, awaiting the first checksum trailer byte.
    Trail1,
    /// Awaiting the second checksum trailer byte.
    Trail2,
}

/// The packet parser: the current phase and the payload collected so far.
pub struct PacketParser {
    pub phase: Phase,
    pub buf: Vec<u8>,
}

impl PacketParser {
    /// A fresh parser, between frames with nothing collected.
    pub fn new() -> (r: PacketParser)
        ensures
            r.phase == Phase::PreFrame,
            r.buf@ == Seq::<u8>::empty(),
    {
        PacketParser { phase: Phase::PreFrame, buf: Vec::new() }
    }

    /// Consumes one stream byte and steps the state machine.
    pub fn feed(&mut self, b: u8) -> (r: FeedOutcome)
        ensures
            old(self).phase == Phase::PreFrame && b == DOLLAR ==> final(self).phase == Phase::Body
                && final(self).buf@ == Seq::<u8>::empty() && r is Pending,
            old(self).phase == Phase::PreFrame && b == INTERRUPT_BYTE ==> final(self).phase
                == Phase::PreFrame && final(self).buf@ == old(self).buf@ && (r matches
            FeedOutcome::Unit(u) && u is Interrupt),
            old(self).phase == Phase::PreFrame && b == ACK_BYTE ==> final(self).phase
                == Phase::PreFrame && final(self).buf@ == old(self).buf@ && (r matches
            FeedOutcome::Unit(u) && u is Acknowledge),
            old(self).phase == Phase::PreFrame && b == NAK_BYTE ==> final(self).phase
                == Phase::PreFrame && final(self).buf@ == old(self).buf@ && (r matches
            FeedOutcome::Unit(u) && u is NotAcknowledge),
            old(self).phase == Phase::PreFrame && b != DOLLAR && b != INTERRUPT_BYTE && b
                != ACK_BYTE && b != NAK_BYTE ==> final(self).phase == Phase::PreFrame
                && r is Violation,
            old(self).phase == Phase::Body && b == HASH ==> final(self).phase == Phase::Trail1
                && final(self).buf@ == old(self).buf@ && r is Pending,
            old(self).phase == Phase::Body && b >= 0x80 ==> final(self).phase == Phase::PreFrame
                && r is Violation,
            old(self).phase == Phase::Body && b != HASH && b < 0x80 ==> final(self).phase
                == Phase::Body && final(self).buf@ == old(self).buf@.push(b) && r is Pending,
            old(self).phase == Phase::Trail1 ==> final(self).phase == Phase::Trail2 && final(self).buf@ == old(self).buf@ && r is Pending,
            old(self).phase == Phase::Trail2 ==> final(self).phase == Phase::PreFrame && final(self).buf@ == Seq::<u8>::empty() && (r matches FeedOutcome::Unit(
                ProtocolUnit::Command(p),
            ) && p@ == old(self).buf@),
    {
        match self.phase {
            Phase::PreFrame => {
                if b == DOLLAR {
                    self.phase = Phase::Body;
                    self.buf = Vec::new();
                    FeedOutcome::Pending
                } else if b == INTERRUPT_BYTE {
                    FeedOutcome::Unit(ProtocolUnit::Interrupt)
                } else if b == ACK_BYTE {
                    FeedOutcome::Unit(ProtocolUnit::Acknowledge)
                } else if b == NAK_BYTE {
                    FeedOutcome::Unit(ProtocolUnit::NotAcknowledge)
                } else {
                    FeedOutcome::Violation
                }
            },
            Phase::Body => {
                if b == HASH {
                    self.phase = Phase::Trail1;
                    FeedOutcome::Pending
                } else if b >= 0x80 {
                    self.phase = Phase::PreFrame;
                    self.buf = Vec::new();
                    FeedOutcome::Violation
                } else {
                    self.buf.push(b);
                    FeedOutcome::Pending
                }
            },
            Phase::Trail1 => {
                self.phase = Phase::Trail2;
                FeedOutcome::Pending
            },
            Phase::Trail2 => {
                self.phase = Phase::PreFrame;
                let mut done: Vec<u8> = Vec::new();
                core::mem::swap(&mut done, &mut self.buf);
                FeedOutcome::Unit(ProtocolUnit::Command(done))
            },
        }
    }
}

} // verus!
