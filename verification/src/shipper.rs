//! Sending messages to peers.

use vstd::prelude::*;

use crate::hyparview::messages::WireMessage;
use crate::hyparview::Envelope;
use crate::net::SocketAddr;

verus! {

/// Something that can be written to the wire.
pub trait Serializable {
    /// The bytes that stand for the value.
    spec fn bytes(&self) -> Seq<u8>;

    /// Whether the value can be written at all.
    spec fn writable(&self) -> bool;

    /// Appends the value's bytes to `writer`; returns how many were written.
    fn serialize(&self, writer: &mut Vec<u8>) -> (n: usize)
        requires
            self.writable(),
        ensures
            final(writer)@ == old(writer)@ + self.bytes(),
            n == self.bytes().len(),
    ;
}

impl Serializable for WireMessage {
    open spec fn bytes(&self) -> Seq<u8> {
        self.wire_bytes()
    }

    open spec fn writable(&self) -> bool {
        self.fits_wire()
    }

    fn serialize(&self, writer: &mut Vec<u8>) -> (n: usize) {
        WireMessage::serialize(self, writer)
    }
}

/// One entry of a shipper's record: the message, where it went, and the
/// answer that `ship` gave.
pub open spec fn handed_entry(msg: WireMessage, dest: SocketAddr, answer: bool) -> (Envelope, bool) {
    (Envelope { msg, dest }, answer)
}

/// The envelopes of a shipper's record, in order.
pub open spec fn envelopes_of(log: Seq<(Envelope, bool)>) -> Seq<Envelope> {
    log.map_values(|e: (Envelope, bool)| e.0)
}

/// The answers of a shipper's record, in order.
pub open spec fn answers_of(log: Seq<(Envelope, bool)>) -> Seq<bool> {
    log.map_values(|e: (Envelope, bool)| e.1)
}

/// Delivers messages to peers; whether a delivery worked is the shipper's word.
pub trait Shipper {
    /// Sends `msg` to `dest`; true when it was handed over.
    fn ship(&mut self, msg: &WireMessage, dest: &SocketAddr) -> bool;
}

/// A shipper together with a record of everything handed to it through
/// `ship`, in order, each with the answer the call gave.
pub struct Courier<S: Shipper> {
    shipper: S,
    handed: Ghost<Seq<(Envelope, bool)>>,
}

impl<S: Shipper> Courier<S> {
    /// What was handed to the shipper so far, with the answers.
    pub closed spec fn handed(&self) -> Seq<(Envelope, bool)> {
        self.handed@
    }

    /// Takes `shipper` into service, with nothing handed to it yet.
    pub fn new(shipper: S) -> (r: Courier<S>)
        ensures
            r.handed() == Seq::<(Envelope, bool)>::empty(),
    {
        Courier { shipper, handed: Ghost(Seq::empty()) }
    }

    /// Hands `msg` for `dest` to the shipper and records the call with its
    /// answer; returns the answer.
    pub fn ship(&mut self, msg: &WireMessage, dest: &SocketAddr) -> (r: bool)
        ensures
            final(self).handed() == old(self).handed().push(handed_entry(*msg, *dest, r)),
    {
        let r = self.shipper.ship(msg, dest);
        proof {
            self.handed@ = self.handed@.push(handed_entry(*msg, *dest, r));
        }
        r
    }

    /// The shipper in service.
    pub fn shipper(&self) -> &S {
        &self.shipper
    }
}

} // verus!
