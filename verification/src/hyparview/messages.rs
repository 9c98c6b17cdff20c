//! The HyParView wire format.
//!
//! Every message starts with a one-byte message id. A socket address is
//! written as its four IPv4 octets followed by the port in big-endian order;
//! a list of addresses is a one-byte count followed by the addresses.

use vstd::prelude::*;

use crate::net::{Ipv4Addr, SocketAddr};

verus! {

pub const HPV_MSG_ID_JOIN: u8 = 0;
pub const HPV_MSG_ID_FORWARD_JOIN: u8 = 1;
pub const HPV_MSG_ID_JOIN_ACK: u8 = 2;
pub const HPV_MSG_ID_DISCONNECT: u8 = 3;
pub const HPV_MSG_ID_NEIGHBOR_REQUEST: u8 = 4;
pub const HPV_MSG_ID_NEIGHBOR_RESPONSE: u8 = 5;
pub const HPV_MSG_ID_SHUFFLE: u8 = 6;
pub const HPV_MSG_ID_SHUFFLE_REPLY: u8 = 7;

/// Number of bytes that one socket address takes on the wire.
pub const SOCKET_ADDR_LEN: usize = 6;

/// Priority of a NEIGHBOR request: high when the requester has no active peer.
#[derive(Clone, Copy, Debug, PartialEq, Eq, Structural)]
pub enum Priority {
    High,
    Low,
}

/// Answer to a NEIGHBOR request.
#[derive(Clone, Copy, Debug, PartialEq, Eq, Structural)]
pub enum Result {
    Accept,
    Reject,
}

/// Why a byte stream could not be read as a message.
#[derive(Clone, Copy, Debug, PartialEq, Eq, Structural)]
pub enum DecodeError {
    /// There was no byte left to read the message id from.
    EndOfStream,
    /// The message id is none of the known ones.
    UnknownMessage,
    /// The stream ended inside the body of a message.
    Truncated,
}

// ---------------------------------------------------------------------------
// Reading bytes
// ---------------------------------------------------------------------------

/// A cursor over a buffer of received bytes.
pub struct MessageReader {
    data: Vec<u8>,
    pos: usize,
}

impl View for MessageReader {
    type V = Seq<u8>;

    /// The bytes that are left to read.
    closed spec fn view(&self) -> Seq<u8> {
        self.data@.subrange(self.pos as int, self.data@.len() as int)
    }
}

impl MessageReader {
    #[verifier::type_invariant]
    spec fn inv(self) -> bool {
        self.pos <= self.data@.len()
    }

    pub fn new(data: Vec<u8>) -> (r: MessageReader)
        ensures
            r@ == data@,
    {
        let r = MessageReader { data, pos: 0 };
        assert(r@ =~= r.data@);
        r
    }

    /// Number of bytes left to read.
    pub fn len(&self) -> (n: usize)
        ensures
            n == self@.len(),
    {
        proof {
            use_type_invariant(self);
        }
        self.data.len() - self.pos
    }

    /// The byte `i` places ahead of the cursor, without consuming anything.
    pub fn peek(&self, i: usize) -> (b: u8)
        requires
            i < self@.len(),
        ensures
            b == self@[i as int],
    {
        proof {
            use_type_invariant(self);
            assert(self@.len() == self.data@.len() - self.pos);
        }
        let _n = self.data.len();
        self.data[self.pos + i]
    }

    /// Reads one byte, or gives `None` when the stream is exhausted.
    pub fn read_u8(&mut self) -> (r: Option<u8>)
        ensures
            old(self)@.len() == 0 ==> r is None && final(self)@ == old(self)@,
            old(self)@.len() > 0 ==> r == Some(old(self)@[0]) && final(self)@ == old(self)@.drop_first(),
    {
        proof {
            use_type_invariant(&*self);
        }
        if self.pos < self.data.len() {
            let b = self.data[self.pos];
            self.pos = self.pos + 1;
            assert(self@ =~= old(self)@.drop_first());
            Some(b)
        } else {
            None
        }
    }

    /// Reads a byte that is known to be there.
    fn take_u8(&mut self) -> (b: u8)
        requires
            old(self)@.len() > 0,
        ensures
            b == old(self)@[0],
            final(self)@ == old(self)@.drop_first(),
    {
        proof {
            use_type_invariant(&*self);
            assert(self@.len() == self.data@.len() - self.pos);
        }
        let _n = self.data.len();
        let b = self.data[self.pos];
        self.pos = self.pos + 1;
        assert(self@ =~= old(self)@.drop_first());
        b
    }
}

// ---------------------------------------------------------------------------
// Socket addresses on the wire
// ---------------------------------------------------------------------------

/// The six bytes of an address: the octets, then the port's high and low byte.
pub open spec fn addr_bytes(a: SocketAddr) -> Seq<u8> {
    seq![a.ip.0, a.ip.1, a.ip.2, a.ip.3, (a.port / 256) as u8, (a.port % 256) as u8]
}

/// The address that six bytes stand for.
pub open spec fn addr_of_bytes(b: Seq<u8>) -> SocketAddr
    recommends
        b.len() >= 6,
{
    SocketAddr { ip: Ipv4Addr(b[0], b[1], b[2], b[3]), port: (b[4] * 256 + b[5]) as u16 }
}

/// Addresses written one after the other.
pub open spec fn addrs_bytes(nodes: Seq<SocketAddr>) -> Seq<u8>
    decreases nodes.len(),
{
    if nodes.len() == 0 {
        seq![]
    } else {
        addrs_bytes(nodes.drop_last()) + addr_bytes(nodes.last())
    }
}

/// A list of addresses: its length in one byte, then the addresses.
pub open spec fn addr_list_bytes(nodes: Seq<SocketAddr>) -> Seq<u8> {
    seq![nodes.len() as u8] + addrs_bytes(nodes)
}

/// Reading a list of addresses from the front of `b`: the list and the number
/// of bytes it took, or `None` when `b` ends before the list does.
pub open spec fn decode_addr_list(b: Seq<u8>) -> Option<(Seq<SocketAddr>, int)> {
    if b.len() >= 1 && b.len() >= 1 + 6 * b[0] {
        Some(
            (
                Seq::new(b[0] as nat, |i: int| addr_of_bytes(b.subrange(1 + 6 * i, 7 + 6 * i))),
                1 + 6 * b[0],
            ),
        )
    } else {
        None
    }
}

/// An address read back after it was written comes out unchanged.
pub proof fn lemma_addr_roundtrip(a: SocketAddr)
    ensures
        addr_of_bytes(addr_bytes(a)) == a,
        addr_bytes(a).len() == 6,
{
}

/// Each address of a list takes its own six bytes, in order.
pub proof fn lemma_addrs_bytes(nodes: Seq<SocketAddr>)
    ensures
        addrs_bytes(nodes).len() == 6 * nodes.len(),
        forall|i: int|
            0 <= i < nodes.len() ==> #[trigger] addrs_bytes(nodes).subrange(6 * i, 6 * i + 6)
                == addr_bytes(nodes[i]),
    decreases nodes.len(),
{
    if nodes.len() > 0 {
        let init = nodes.drop_last();
        lemma_addrs_bytes(init);
        let all = addrs_bytes(nodes);
        assert forall|i: int| 0 <= i < nodes.len() implies #[trigger] all.subrange(6 * i, 6 * i + 6)
            == addr_bytes(nodes[i]) by {
            if i < nodes.len() - 1 {
                assert(all.subrange(6 * i, 6 * i + 6) =~= addrs_bytes(init).subrange(6 * i, 6 * i + 6));
                assert(init[i] == nodes[i]);
            } else {
                assert(all.subrange(6 * i, 6 * i + 6) =~= addr_bytes(nodes.last()));
            }
        }
    }
}

/// A list of addresses read back after it was written comes out unchanged.
pub proof fn lemma_addr_list_roundtrip(nodes: Seq<SocketAddr>, rest: Seq<u8>)
    requires
        nodes.len() <= 255,
    ensures
        decode_addr_list(addr_list_bytes(nodes) + rest) == Some((nodes, 1 + 6 * nodes.len() as int)),
{
    lemma_addrs_bytes(nodes);
    let b = addr_list_bytes(nodes) + rest;
    assert(b[0] == nodes.len());
    let decoded = Seq::new(b[0] as nat, |i: int| addr_of_bytes(b.subrange(1 + 6 * i, 7 + 6 * i)));
    assert forall|i: int| 0 <= i < nodes.len() implies decoded[i] == nodes[i] by {
        assert(b.subrange(1 + 6 * i, 7 + 6 * i) =~= addrs_bytes(nodes).subrange(6 * i, 6 * i + 6));
        lemma_addr_roundtrip(nodes[i]);
    }
    assert(decoded =~= nodes);
}

/// Appends the six bytes of an address; returns how many bytes were written.
fn serialize_socket_addr(sa: &SocketAddr, writer: &mut Vec<u8>) -> (n: usize)
    ensures
        final(writer)@ == old(writer)@ + addr_bytes(*sa),
        n == SOCKET_ADDR_LEN,
{
    writer.push(sa.ip.0);
    writer.push(sa.ip.1);
    writer.push(sa.ip.2);
    writer.push(sa.ip.3);
    writer.push((sa.port / 256) as u8);
    writer.push((sa.port % 256) as u8);
    assert(writer@ =~= old(writer)@ + addr_bytes(*sa));
    SOCKET_ADDR_LEN
}

/// Reads an address from the six bytes at the front of the reader.
fn deserialize_socket_addr(reader: &mut MessageReader) -> (sa: SocketAddr)
    requires
        old(reader)@.len() >= 6,
    ensures
        sa == addr_of_bytes(old(reader)@),
        final(reader)@ == old(reader)@.skip(6),
{
    let a = reader.take_u8();
    let b = reader.take_u8();
    let c = reader.take_u8();
    let d = reader.take_u8();
    let hi = reader.take_u8();
    let lo = reader.take_u8();
    assert(reader@ =~= old(reader)@.skip(6));
    let port: u16 = (hi as u16) * 256 + (lo as u16);
    SocketAddr { ip: Ipv4Addr(a, b, c, d), port }
}

/// Appends a list of addresses: the count, then each address.
fn serialize_socket_addrs(nodes: &Vec<SocketAddr>, writer: &mut Vec<u8>) -> (n: usize)
    requires
        nodes@.len() <= 255,
    ensures
        final(writer)@ == old(writer)@ + addr_list_bytes(nodes@),
        n == 1 + 6 * nodes@.len(),
{
    writer.push(nodes.len() as u8);
    let mut cnt: usize = 1;
    let mut i: usize = 0;
    while i < nodes.len()
        invariant
            nodes@.len() <= 255,
            i <= nodes@.len(),
            cnt == 1 + 6 * i,
            writer@ == old(writer)@ + seq![nodes@.len() as u8] + addrs_bytes(nodes@.take(i as int)),
        decreases nodes@.len() - i,
    {
        let c = serialize_socket_addr(&nodes[i], writer);
        cnt = cnt + c;
        assert(nodes@.take(i + 1).drop_last() =~= nodes@.take(i as int));
        i = i + 1;
    }
    assert(nodes@.take(i as int) =~= nodes@);
    assert(writer@ =~= old(writer)@ + addr_list_bytes(nodes@));
    cnt
}

/// Reads a list of addresses; the reader is left as it was when the bytes end
/// before the list does.
fn deserialize_socket_addrs(reader: &mut MessageReader) -> (r: core::result::Result<
    Vec<SocketAddr>,
    DecodeError,
>)
    ensures
        match decode_addr_list(old(reader)@) {
            Some((nodes, n)) => r matches Ok(v) && v@ == nodes && final(reader)@ == old(reader)@.skip(
                n,
            ),
            None => r == Err::<Vec<SocketAddr>, DecodeError>(DecodeError::Truncated) && final(reader)@
                == old(reader)@,
        },
{
    let ghost start = reader@;
    if reader.len() < 1 {
        return Err(DecodeError::Truncated);
    }
    let len = reader.peek(0);
    if (reader.len() - 1) / 6 < len as usize {
        return Err(DecodeError::Truncated);
    }
    reader.take_u8();
    let mut nodes: Vec<SocketAddr> = Vec::new();
    let mut i: u8 = 0;
    while i < len
        invariant
            start.len() >= 1 + 6 * len,
            len == start[0],
            i <= len,
            reader@ == start.skip(1 + 6 * i),
            nodes@.len() == i,
            forall|j: int|
                0 <= j < i ==> #[trigger] nodes@[j] == addr_of_bytes(
                    start.subrange(1 + 6 * j, 7 + 6 * j),
                ),
        decreases len - i,
    {
        let ghost before = reader@;
        let sa = deserialize_socket_addr(reader);
        proof {
            assert(before.subrange(0, 6) =~= start.subrange(1 + 6 * i, 7 + 6 * i));
            assert(reader@ =~= start.skip(1 + 6 * (i + 1)));
        }
        nodes.push(sa);
        i = i + 1;
    }
    proof {
        let (expect, _) = decode_addr_list(start).unwrap();
        assert(nodes@ =~= expect);
    }
    Ok(nodes)
}


// ---------------------------------------------------------------------------
// Codes of the one-byte enums
// ---------------------------------------------------------------------------

/// The byte a priority is written as.
pub open spec fn priority_code(p: Priority) -> u8 {
    match p {
        Priority::Low => 0,
        Priority::High => 1,
    }
}

/// A priority byte: 1 is high; 0, and any byte not understood, is low.
pub open spec fn priority_of_code(c: u8) -> Priority {
    if c == 1 {
        Priority::High
    } else {
        Priority::Low
    }
}

/// The byte a result is written as.
pub open spec fn result_code(r: Result) -> u8 {
    match r {
        Result::Accept => 0,
        Result::Reject => 1,
    }
}

/// A result byte: 0 is accept; 1, and any byte not understood, is reject.
pub open spec fn result_of_code(c: u8) -> Result {
    if c == 0 {
        Result::Accept
    } else {
        Result::Reject
    }
}

// ---------------------------------------------------------------------------
// The messages
// ---------------------------------------------------------------------------

/// JOIN: a node asks a contact node to let it into the overlay.
#[derive(Clone, Copy, Debug, PartialEq, Eq, Structural)]
pub struct Join;

impl Join {
    pub fn new() -> (r: Join)
        ensures
            r == Join,
    {
        Join
    }

    /// The bytes of the message on the wire: its id, then its body.
    pub open spec fn wire_bytes(&self) -> Seq<u8> {
        seq![HPV_MSG_ID_JOIN]
    }

    /// Appends the message to `writer`; returns the number of bytes written.
    pub fn serialize(&self, writer: &mut Vec<u8>) -> (n: usize)
        ensures
            final(writer)@ == old(writer)@ + self.wire_bytes(),
            n == self.wire_bytes().len(),
    {
        writer.push(HPV_MSG_ID_JOIN);
        assert(writer@ =~= old(writer)@ + self.wire_bytes());
        1
    }
}

/// FORWARD_JOIN: a JOIN on its random walk through the overlay.
#[derive(Clone, Copy, Debug, PartialEq, Eq, Structural)]
pub struct ForwardJoin {
    pub originator: SocketAddr,
    pub arwl: u8,
    pub prwl: u8,
    pub ttl: u8,
}

/// The body of a FORWARD_JOIN read from the front of `b`, with its length.
pub open spec fn decode_forward_join(b: Seq<u8>) -> Option<(ForwardJoin, int)> {
    if b.len() >= 9 {
        Some((ForwardJoin { originator: addr_of_bytes(b), arwl: b[6], prwl: b[7], ttl: b[8] }, 9))
    } else {
        None
    }
}

impl ForwardJoin {
    pub fn new(addr: &SocketAddr, arwl: u8, prwl: u8, ttl: u8) -> (r: ForwardJoin)
        ensures
            r == (ForwardJoin { originator: *addr, arwl, prwl, ttl }),
    {
        ForwardJoin { originator: *addr, arwl, prwl, ttl }
    }

    /// The bytes that follow the message id.
    pub open spec fn body_bytes(&self) -> Seq<u8> {
        addr_bytes(self.originator) + seq![self.arwl, self.prwl, self.ttl]
    }

    /// The bytes of the message on the wire: its id, then its body.
    pub open spec fn wire_bytes(&self) -> Seq<u8> {
        seq![HPV_MSG_ID_FORWARD_JOIN] + self.body_bytes()
    }

    /// Reads the body of a FORWARD_JOIN (what follows its message id). The
    /// reader is left as it was when the body is cut short.
    pub fn deserialize(reader: &mut MessageReader) -> (r: core::result::Result<
        ForwardJoin,
        DecodeError,
    >)
        ensures
            match decode_forward_join(old(reader)@) {
                Some((m, n)) => r == Ok::<ForwardJoin, DecodeError>(m) && final(reader)@ == old(reader)@.skip(n),
                None => r == Err::<ForwardJoin, DecodeError>(DecodeError::Truncated) && final(reader)@ == old(reader)@,
            },
    {
        if reader.len() < 9 {
            return Err(DecodeError::Truncated);
        }
        let ghost start = reader@;
        let socket = deserialize_socket_addr(reader);
        let arwl = reader.take_u8();
        let prwl = reader.take_u8();
        let ttl = reader.take_u8();
        assert(reader@ =~= start.skip(9));
        Ok(ForwardJoin::new(&socket, arwl, prwl, ttl))
    }

    /// Appends the message to `writer`; returns the number of bytes written.
    pub fn serialize(&self, writer: &mut Vec<u8>) -> (n: usize)
        ensures
            final(writer)@ == old(writer)@ + self.wire_bytes(),
            n == self.wire_bytes().len(),
    {
        writer.push(HPV_MSG_ID_FORWARD_JOIN);
        let mut cnt: usize = 1;
        cnt = cnt + serialize_socket_addr(&self.originator, writer);
        writer.push(self.arwl);
        cnt = cnt + 1;
        writer.push(self.prwl);
        cnt = cnt + 1;
        writer.push(self.ttl);
        cnt = cnt + 1;
        assert(writer@ =~= old(writer)@ + self.wire_bytes());
        cnt
    }
}

/// DISCONNECT: the sender dropped the receiver from its active view.
#[derive(Clone, Copy, Debug, PartialEq, Eq, Structural)]
pub struct Disconnect;

impl Disconnect {
    pub fn new() -> (r: Disconnect)
        ensures
            r == Disconnect,
    {
        Disconnect
    }

    /// The bytes of the message on the wire: its id, then its body.
    pub open spec fn wire_bytes(&self) -> Seq<u8> {
        seq![HPV_MSG_ID_DISCONNECT]
    }

    /// Appends the message to `writer`; returns the number of bytes written.
    pub fn serialize(&self, writer: &mut Vec<u8>) -> (n: usize)
        ensures
            final(writer)@ == old(writer)@ + self.wire_bytes(),
            n == self.wire_bytes().len(),
    {
        writer.push(HPV_MSG_ID_DISCONNECT);
        assert(writer@ =~= old(writer)@ + self.wire_bytes());
        1
    }
}

/// JOIN_ACK: the receiver was taken into the sender's active view.
#[derive(Clone, Copy, Debug, PartialEq, Eq, Structural)]
pub struct JoinAck;

impl JoinAck {
    pub fn new() -> (r: JoinAck)
        ensures
            r == JoinAck,
    {
        JoinAck
    }

    /// The bytes of the message on the wire: its id, then its body.
    pub open spec fn wire_bytes(&self) -> Seq<u8> {
        seq![HPV_MSG_ID_JOIN_ACK]
    }

    /// Appends the message to `writer`; returns the number of bytes written.
    pub fn serialize(&self, writer: &mut Vec<u8>) -> (n: usize)
        ensures
            final(writer)@ == old(writer)@ + self.wire_bytes(),
            n == self.wire_bytes().len(),
    {
        writer.push(HPV_MSG_ID_JOIN_ACK);
        assert(writer@ =~= old(writer)@ + self.wire_bytes());
        1
    }
}

/// NEIGHBOR: the sender asks to be taken into the receiver's active view.
#[derive(Clone, Copy, Debug, PartialEq, Eq, Structural)]
pub struct NeighborRequest {
    pub priority: Priority,
}

/// The body of a NEIGHBOR request read from the front of `b`, with its length.
pub open spec fn decode_neighbor_request(b: Seq<u8>) -> Option<(NeighborRequest, int)> {
    if b.len() >= 1 {
        Some((NeighborRequest { priority: priority_of_code(b[0]) }, 1))
    } else {
        None
    }
}

impl NeighborRequest {
    pub fn new(priority: Priority) -> (r: NeighborRequest)
        ensures
            r == (NeighborRequest { priority }),
    {
        NeighborRequest { priority }
    }

    /// The bytes of the message on the wire: its id, then its body.
    pub open spec fn wire_bytes(&self) -> Seq<u8> {
        seq![HPV_MSG_ID_NEIGHBOR_REQUEST, priority_code(self.priority)]
    }

    /// Reads the body of a NEIGHBOR request (what follows its message id).
    pub fn deserialize(reader: &mut MessageReader) -> (r: core::result::Result<
        NeighborRequest,
        DecodeError,
    >)
        ensures
            match decode_neighbor_request(old(reader)@) {
                Some((m, n)) => r == Ok::<NeighborRequest, DecodeError>(m) && final(reader)@ == old(reader)@.skip(n),
                None => r == Err::<NeighborRequest, DecodeError>(DecodeError::Truncated) && final(reader)@ == old(reader)@,
            },
    {
        match reader.read_u8() {
            Some(c) => {
                let p = if c == 0 {
                    Priority::Low
                } else if c == 1 {
                    Priority::High
                } else {
                    Priority::Low
                };
                assert(reader@ =~= old(reader)@.skip(1));
                Ok(NeighborRequest::new(p))
            },
            None => Err(DecodeError::Truncated),
        }
    }

    /// Appends the message to `writer`; returns the number of bytes written.
    pub fn serialize(&self, writer: &mut Vec<u8>) -> (n: usize)
        ensures
            final(writer)@ == old(writer)@ + self.wire_bytes(),
            n == self.wire_bytes().len(),
    {
        writer.push(HPV_MSG_ID_NEIGHBOR_REQUEST);
        let p: u8 = match self.priority {
            Priority::Low => 0,
            Priority::High => 1,
        };
        writer.push(p);
        assert(writer@ =~= old(writer)@ + self.wire_bytes());
        2
    }
}

/// NEIGHBOR response: whether the receiver was taken into the sender's active view.
#[derive(Clone, Copy, Debug, PartialEq, Eq, Structural)]
pub struct NeighborResponse {
    pub result: Result,
}

/// The body of a NEIGHBOR response read from the front of `b`, with its length.
pub open spec fn decode_neighbor_response(b: Seq<u8>) -> Option<(NeighborResponse, int)> {
    if b.len() >= 1 {
        Some((NeighborResponse { result: result_of_code(b[0]) }, 1))
    } else {
        None
    }
}

impl NeighborResponse {
    pub fn new(result: Result) -> (r: NeighborResponse)
        ensures
            r == (NeighborResponse { result }),
    {
        NeighborResponse { result }
    }

    /// The bytes of the message on the wire: its id, then its body.
    pub open spec fn wire_bytes(&self) -> Seq<u8> {
        seq![HPV_MSG_ID_NEIGHBOR_RESPONSE, result_code(self.result)]
    }

    /// Reads the body of a NEIGHBOR response (what follows its message id).
    pub fn deserialize(reader: &mut MessageReader) -> (r: core::result::Result<
        NeighborResponse,
        DecodeError,
    >)
        ensures
            match decode_neighbor_response(old(reader)@) {
                Some((m, n)) => r == Ok::<NeighborResponse, DecodeError>(m) && final(reader)@ == old(reader)@.skip(n),
                None => r == Err::<NeighborResponse, DecodeError>(DecodeError::Truncated) && final(reader)@ == old(reader)@,
            },
    {
        match reader.read_u8() {
            Some(c) => {
                let r = if c == 0 {
                    Result::Accept
                } else if c == 1 {
                    Result::Reject
                } else {
                    Result::Reject
                };
                assert(reader@ =~= old(reader)@.skip(1));
                Ok(NeighborResponse::new(r))
            },
            None => Err(DecodeError::Truncated),
        }
    }

    /// Appends the message to `writer`; returns the number of bytes written.
    pub fn serialize(&self, writer: &mut Vec<u8>) -> (n: usize)
        ensures
            final(writer)@ == old(writer)@ + self.wire_bytes(),
            n == self.wire_bytes().len(),
    {
        writer.push(HPV_MSG_ID_NEIGHBOR_RESPONSE);
        let p: u8 = match self.result {
            Result::Accept => 0,
            Result::Reject => 1,
        };
        writer.push(p);
        assert(writer@ =~= old(writer)@ + self.wire_bytes());
        2
    }
}


/// The contents of a SHUFFLE, as plain values.
pub struct ShuffleView {
    pub originator: SocketAddr,
    pub nodes: Seq<SocketAddr>,
    pub ttl: u8,
}

/// SHUFFLE: a sample of the originator's views on a random walk.
#[derive(Clone, Debug, PartialEq, Eq)]
pub struct Shuffle {
    pub originator: SocketAddr,
    pub nodes: Vec<SocketAddr>,
    pub ttl: u8,
}

impl View for Shuffle {
    type V = ShuffleView;

    open spec fn view(&self) -> ShuffleView {
        ShuffleView { originator: self.originator, nodes: self.nodes@, ttl: self.ttl }
    }
}

/// The body of a SHUFFLE read from the front of `b`, with its length.
pub open spec fn decode_shuffle(b: Seq<u8>) -> Option<(ShuffleView, int)> {
    if b.len() < 6 {
        None
    } else {
        match decode_addr_list(b.skip(6)) {
            Some((nodes, n)) => if b.len() >= 7 + n {
                Some((ShuffleView { originator: addr_of_bytes(b), nodes, ttl: b[6 + n] }, 7 + n))
            } else {
                None
            },
            None => None,
        }
    }
}

impl Shuffle {
    pub fn new(originator: SocketAddr, nodes: Vec<SocketAddr>, ttl: u8) -> (r: Shuffle)
        ensures
            r@ == (ShuffleView { originator, nodes: nodes@, ttl }),
    {
        Shuffle { originator, nodes, ttl }
    }

    /// At most 255 addresses fit in the one-byte count of the list.
    pub open spec fn fits_wire(&self) -> bool {
        self.nodes@.len() <= 255
    }

    /// The bytes that follow the message id.
    pub open spec fn body_bytes(&self) -> Seq<u8> {
        addr_bytes(self.originator) + addr_list_bytes(self.nodes@) + seq![self.ttl]
    }

    /// The bytes of the message on the wire: its id, then its body.
    pub open spec fn wire_bytes(&self) -> Seq<u8> {
        seq![HPV_MSG_ID_SHUFFLE] + self.body_bytes()
    }

    /// Reads the body of a SHUFFLE (what follows its message id). The reader
    /// is left as it was when the body is cut short.
    pub fn deserialize(reader: &mut MessageReader) -> (r: core::result::Result<Shuffle, DecodeError>)
        ensures
            match decode_shuffle(old(reader)@) {
                Some((m, n)) => r matches Ok(s) && s@ == m && final(reader)@ == old(reader)@.skip(n),
                None => r == Err::<Shuffle, DecodeError>(DecodeError::Truncated) && final(reader)@
                    == old(reader)@,
            },
    {
        let ghost start = reader@;
        if reader.len() < 7 {
            return Err(DecodeError::Truncated);
        }
        let count = reader.peek(6);
        if (reader.len() - 7) / 6 < count as usize {
            return Err(DecodeError::Truncated);
        }
        if reader.len() - 7 - 6 * (count as usize) < 1 {
            return Err(DecodeError::Truncated);
        }
        let originator = deserialize_socket_addr(reader);
        assert(reader@ == start.skip(6));
        let nodes = match deserialize_socket_addrs(reader) {
            Ok(v) => v,
            Err(e) => {
                return Err(e);
            },
        };
        assert(reader@ =~= start.skip(7 + 6 * count));
        let ttl = reader.take_u8();
        assert(reader@ =~= start.skip(8 + 6 * count));
        Ok(Shuffle::new(originator, nodes, ttl))
    }

    /// Appends the message to `writer`; returns the number of bytes written.
    pub fn serialize(&self, writer: &mut Vec<u8>) -> (n: usize)
        requires
            self.fits_wire(),
        ensures
            final(writer)@ == old(writer)@ + self.wire_bytes(),
            n == self.wire_bytes().len(),
    {
        writer.push(HPV_MSG_ID_SHUFFLE);
        let mut cnt: usize = 1;
        cnt = cnt + serialize_socket_addr(&self.originator, writer);
        cnt = cnt + serialize_socket_addrs(&self.nodes, writer);
        writer.push(self.ttl);
        cnt = cnt + 1;
        proof {
            lemma_addrs_bytes(self.nodes@);
        }
        assert(writer@ =~= old(writer)@ + self.wire_bytes());
        cnt
    }
}

/// The contents of a SHUFFLE reply, as plain values.
pub struct ShuffleReplyView {
    pub sent_nodes: Seq<SocketAddr>,
    pub nodes: Seq<SocketAddr>,
}

/// SHUFFLE reply: the nodes the originator sent, and a sample of the replier's views.
#[derive(Clone, Debug, PartialEq, Eq)]
pub struct ShuffleReply {
    /// The nodes the originator first sent out, so that it need not remember them.
    pub sent_nodes: Vec<SocketAddr>,
    pub nodes: Vec<SocketAddr>,
}

impl View for ShuffleReply {
    type V = ShuffleReplyView;

    open spec fn view(&self) -> ShuffleReplyView {
        ShuffleReplyView { sent_nodes: self.sent_nodes@, nodes: self.nodes@ }
    }
}

/// The body of a SHUFFLE reply read from the front of `b`, with its length.
pub open spec fn decode_shuffle_reply(b: Seq<u8>) -> Option<(ShuffleReplyView, int)> {
    match decode_addr_list(b) {
        Some((sent, n1)) => match decode_addr_list(b.skip(n1)) {
            Some((nodes, n2)) => Some((ShuffleReplyView { sent_nodes: sent, nodes }, n1 + n2)),
            None => None,
        },
        None => None,
    }
}

impl ShuffleReply {
    pub fn new(sent_nodes: Vec<SocketAddr>, nodes: Vec<SocketAddr>) -> (r: ShuffleReply)
        ensures
            r@ == (ShuffleReplyView { sent_nodes: sent_nodes@, nodes: nodes@ }),
    {
        ShuffleReply { sent_nodes, nodes }
    }

    /// At most 255 addresses fit in the one-byte count of each list.
    pub open spec fn fits_wire(&self) -> bool {
        self.sent_nodes@.len() <= 255 && self.nodes@.len() <= 255
    }

    /// The bytes that follow the message id.
    pub open spec fn body_bytes(&self) -> Seq<u8> {
        addr_list_bytes(self.sent_nodes@) + addr_list_bytes(self.nodes@)
    }

    /// The bytes of the message on the wire: its id, then its body.
    pub open spec fn wire_bytes(&self) -> Seq<u8> {
        seq![HPV_MSG_ID_SHUFFLE_REPLY] + self.body_bytes()
    }

    /// Reads the body of a SHUFFLE reply (what follows its message id). The
    /// reader is left as it was when the body is cut short.
    pub fn deserialize(reader: &mut MessageReader) -> (r: core::result::Result<
        ShuffleReply,
        DecodeError,
    >)
        ensures
            match decode_shuffle_reply(old(reader)@) {
                Some((m, n)) => r matches Ok(s) && s@ == m && final(reader)@ == old(reader)@.skip(n),
                None => r == Err::<ShuffleReply, DecodeError>(DecodeError::Truncated) && final(
                    reader)@ == old(reader)@,
            },
    {
        let ghost start = reader@;
        if reader.len() < 1 {
            return Err(DecodeError::Truncated);
        }
        let count = reader.peek(0);
        if (reader.len() - 1) / 6 < count as usize {
            return Err(DecodeError::Truncated);
        }
        let first = 1 + 6 * (count as usize);
        if reader.len() - first < 1 {
            return Err(DecodeError::Truncated);
        }
        let count2 = reader.peek(first);
        if (reader.len() - first - 1) / 6 < count2 as usize {
            return Err(DecodeError::Truncated);
        }
        let sent_nodes = match deserialize_socket_addrs(reader) {
            Ok(v) => v,
            Err(e) => {
                return Err(e);
            },
        };
        assert(reader@ == start.skip(first as int));
        let nodes = match deserialize_socket_addrs(reader) {
            Ok(v) => v,
            Err(e) => {
                return Err(e);
            },
        };
        assert(reader@ =~= start.skip(first + 1 + 6 * count2));
        Ok(ShuffleReply::new(sent_nodes, nodes))
    }

    /// Appends the message to `writer`; returns the number of bytes written.
    pub fn serialize(&self, writer: &mut Vec<u8>) -> (n: usize)
        requires
            self.fits_wire(),
        ensures
            final(writer)@ == old(writer)@ + self.wire_bytes(),
            n == self.wire_bytes().len(),
    {
        writer.push(HPV_MSG_ID_SHUFFLE_REPLY);
        let mut cnt: usize = 1;
        cnt = cnt + serialize_socket_addrs(&self.sent_nodes, writer);
        cnt = cnt + serialize_socket_addrs(&self.nodes, writer);
        proof {
            lemma_addrs_bytes(self.sent_nodes@);
            lemma_addrs_bytes(self.nodes@);
        }
        assert(writer@ =~= old(writer)@ + self.wire_bytes());
        cnt
    }
}


// ---------------------------------------------------------------------------
// Events and the top-level codec
// ---------------------------------------------------------------------------

/// An event for the HyParView handler: a message received from a peer (with
/// the peer's address), or a signal from the node itself.
#[derive(Clone, Debug, PartialEq, Eq)]
pub enum HyParViewMessage {
    JoinBegin,
    JoinMessage(Join, SocketAddr),
    ForwardJoinMessage(ForwardJoin, SocketAddr),
    JoinAckMessage(JoinAck, SocketAddr),
    DisconnectMessage(Disconnect, SocketAddr),
    NeighborRequestMessage(NeighborRequest, SocketAddr),
    NeighborResponseMessage(NeighborResponse, SocketAddr),
    ShuffleMessage(Shuffle, SocketAddr),
    ShuffleReplyMessage(ShuffleReply, SocketAddr),
    NextShuffleRound,
    PeerDisconnect(SocketAddr),
}

/// An event as plain values.
pub enum EventView {
    JoinBegin,
    JoinMessage(Join, SocketAddr),
    ForwardJoinMessage(ForwardJoin, SocketAddr),
    JoinAckMessage(JoinAck, SocketAddr),
    DisconnectMessage(Disconnect, SocketAddr),
    NeighborRequestMessage(NeighborRequest, SocketAddr),
    NeighborResponseMessage(NeighborResponse, SocketAddr),
    ShuffleMessage(ShuffleView, SocketAddr),
    ShuffleReplyMessage(ShuffleReplyView, SocketAddr),
    NextShuffleRound,
    PeerDisconnect(SocketAddr),
}

impl View for HyParViewMessage {
    type V = EventView;

    open spec fn view(&self) -> EventView {
        match self {
            HyParViewMessage::JoinBegin => EventView::JoinBegin,
            HyParViewMessage::JoinMessage(m, a) => EventView::JoinMessage(*m, *a),
            HyParViewMessage::ForwardJoinMessage(m, a) => EventView::ForwardJoinMessage(*m, *a),
            HyParViewMessage::JoinAckMessage(m, a) => EventView::JoinAckMessage(*m, *a),
            HyParViewMessage::DisconnectMessage(m, a) => EventView::DisconnectMessage(*m, *a),
            HyParViewMessage::NeighborRequestMessage(m, a) => EventView::NeighborRequestMessage(*m, *a),
            HyParViewMessage::NeighborResponseMessage(m, a) => EventView::NeighborResponseMessage(
                *m,
                *a,
            ),
            HyParViewMessage::ShuffleMessage(m, a) => EventView::ShuffleMessage(m@, *a),
            HyParViewMessage::ShuffleReplyMessage(m, a) => EventView::ShuffleReplyMessage(m@, *a),
            HyParViewMessage::NextShuffleRound => EventView::NextShuffleRound,
            HyParViewMessage::PeerDisconnect(a) => EventView::PeerDisconnect(*a),
        }
    }
}

/// The event that the front of `b` stands for when it came from `sender`,
/// with the number of bytes it took.
pub open spec fn decode_event(b: Seq<u8>, sender: SocketAddr) -> core::result::Result<
    (EventView, int),
    DecodeError,
> {
    if b.len() == 0 {
        Err(DecodeError::EndOfStream)
    } else {
        let body = b.drop_first();
        if b[0] == HPV_MSG_ID_JOIN {
            Ok((EventView::JoinMessage(Join, sender), 1))
        } else if b[0] == HPV_MSG_ID_FORWARD_JOIN {
            match decode_forward_join(body) {
                Some((m, n)) => Ok((EventView::ForwardJoinMessage(m, sender), 1 + n)),
                None => Err(DecodeError::Truncated),
            }
        } else if b[0] == HPV_MSG_ID_JOIN_ACK {
            Ok((EventView::JoinAckMessage(JoinAck, sender), 1))
        } else if b[0] == HPV_MSG_ID_DISCONNECT {
            Ok((EventView::DisconnectMessage(Disconnect, sender), 1))
        } else if b[0] == HPV_MSG_ID_NEIGHBOR_REQUEST {
            match decode_neighbor_request(body) {
                Some((m, n)) => Ok((EventView::NeighborRequestMessage(m, sender), 1 + n)),
                None => Err(DecodeError::Truncated),
            }
        } else if b[0] == HPV_MSG_ID_NEIGHBOR_RESPONSE {
            match decode_neighbor_response(body) {
                Some((m, n)) => Ok((EventView::NeighborResponseMessage(m, sender), 1 + n)),
                None => Err(DecodeError::Truncated),
            }
        } else if b[0] == HPV_MSG_ID_SHUFFLE {
            match decode_shuffle(body) {
                Some((m, n)) => Ok((EventView::ShuffleMessage(m, sender), 1 + n)),
                None => Err(DecodeError::Truncated),
            }
        } else if b[0] == HPV_MSG_ID_SHUFFLE_REPLY {
            match decode_shuffle_reply(body) {
                Some((m, n)) => Ok((EventView::ShuffleReplyMessage(m, sender), 1 + n)),
                None => Err(DecodeError::Truncated),
            }
        } else {
            Err(DecodeError::UnknownMessage)
        }
    }
}

/// Reads one message from `reader` and tags it with `addr`, the peer it came
/// from. On an error the message id has been consumed, if there was one.
pub fn deserialize(reader: &mut MessageReader, addr: SocketAddr) -> (r: core::result::Result<
    HyParViewMessage,
    DecodeError,
>)
    ensures
        match decode_event(old(reader)@, addr) {
            Ok((e, n)) => r matches Ok(m) && m@ == e && final(reader)@ == old(reader)@.skip(n),
            Err(err) => r == Err::<HyParViewMessage, DecodeError>(err) && (if old(reader)@.len()
                == 0 {
                final(reader)@ == old(reader)@
            } else {
                final(reader)@ == old(reader)@.drop_first()
            }),
        },
{
    let ghost start = reader@;
    let id = match reader.read_u8() {
        Some(b) => b,
        None => {
            return Err(DecodeError::EndOfStream);
        },
    };
    let ghost body = reader@;
    assert(body == start.drop_first());
    if id == HPV_MSG_ID_JOIN {
        assert(reader@ =~= start.skip(1));
        Ok(HyParViewMessage::JoinMessage(Join::new(), addr))
    } else if id == HPV_MSG_ID_FORWARD_JOIN {
        match ForwardJoin::deserialize(reader) {
            Ok(m) => {
                assert(reader@ =~= start.skip(10));
                Ok(HyParViewMessage::ForwardJoinMessage(m, addr))
            },
            Err(e) => Err(e),
        }
    } else if id == HPV_MSG_ID_JOIN_ACK {
        assert(reader@ =~= start.skip(1));
        Ok(HyParViewMessage::JoinAckMessage(JoinAck::new(), addr))
    } else if id == HPV_MSG_ID_DISCONNECT {
        assert(reader@ =~= start.skip(1));
        Ok(HyParViewMessage::DisconnectMessage(Disconnect::new(), addr))
    } else if id == HPV_MSG_ID_NEIGHBOR_REQUEST {
        match NeighborRequest::deserialize(reader) {
            Ok(m) => {
                assert(reader@ =~= start.skip(2));
                Ok(HyParViewMessage::NeighborRequestMessage(m, addr))
            },
            Err(e) => Err(e),
        }
    } else if id == HPV_MSG_ID_NEIGHBOR_RESPONSE {
        match NeighborResponse::deserialize(reader) {
            Ok(m) => {
                assert(reader@ =~= start.skip(2));
                Ok(HyParViewMessage::NeighborResponseMessage(m, addr))
            },
            Err(e) => Err(e),
        }
    } else if id == HPV_MSG_ID_SHUFFLE {
        match Shuffle::deserialize(reader) {
            Ok(m) => {
                proof {
                    let (_, n) = decode_shuffle(body).unwrap();
                    assert(reader@ =~= start.skip(1 + n));
                }
                Ok(HyParViewMessage::ShuffleMessage(m, addr))
            },
            Err(e) => Err(e),
        }
    } else if id == HPV_MSG_ID_SHUFFLE_REPLY {
        match ShuffleReply::deserialize(reader) {
            Ok(m) => {
                proof {
                    let (_, n) = decode_shuffle_reply(body).unwrap();
                    assert(reader@ =~= start.skip(1 + n));
                }
                Ok(HyParViewMessage::ShuffleReplyMessage(m, addr))
            },
            Err(e) => Err(e),
        }
    } else {
        Err(DecodeError::UnknownMessage)
    }
}

/// A message that one node ships to another.
#[derive(Clone, Debug, PartialEq, Eq)]
pub enum WireMessage {
    Join(Join),
    ForwardJoin(ForwardJoin),
    JoinAck(JoinAck),
    Disconnect(Disconnect),
    NeighborRequest(NeighborRequest),
    NeighborResponse(NeighborResponse),
    Shuffle(Shuffle),
    ShuffleReply(ShuffleReply),
}

impl WireMessage {
    /// Whether the message can be written: address lists hold at most 255 entries.
    pub open spec fn fits_wire(&self) -> bool {
        match self {
            WireMessage::Shuffle(m) => m.fits_wire(),
            WireMessage::ShuffleReply(m) => m.fits_wire(),
            _ => true,
        }
    }

    /// The bytes of the message on the wire: its id, then its body.
    pub open spec fn wire_bytes(&self) -> Seq<u8> {
        match self {
            WireMessage::Join(m) => m.wire_bytes(),
            WireMessage::ForwardJoin(m) => m.wire_bytes(),
            WireMessage::JoinAck(m) => m.wire_bytes(),
            WireMessage::Disconnect(m) => m.wire_bytes(),
            WireMessage::NeighborRequest(m) => m.wire_bytes(),
            WireMessage::NeighborResponse(m) => m.wire_bytes(),
            WireMessage::Shuffle(m) => m.wire_bytes(),
            WireMessage::ShuffleReply(m) => m.wire_bytes(),
        }
    }

    /// The event that the receiver gets for this message when `sender` sent it.
    pub open spec fn received_from(&self, sender: SocketAddr) -> EventView {
        match self {
            WireMessage::Join(m) => EventView::JoinMessage(*m, sender),
            WireMessage::ForwardJoin(m) => EventView::ForwardJoinMessage(*m, sender),
            WireMessage::JoinAck(m) => EventView::JoinAckMessage(*m, sender),
            WireMessage::Disconnect(m) => EventView::DisconnectMessage(*m, sender),
            WireMessage::NeighborRequest(m) => EventView::NeighborRequestMessage(*m, sender),
            WireMessage::NeighborResponse(m) => EventView::NeighborResponseMessage(*m, sender),
            WireMessage::Shuffle(m) => EventView::ShuffleMessage(m@, sender),
            WireMessage::ShuffleReply(m) => EventView::ShuffleReplyMessage(m@, sender),
        }
    }

    /// Appends the message to `writer`; returns the number of bytes written.
    pub fn serialize(&self, writer: &mut Vec<u8>) -> (n: usize)
        requires
            self.fits_wire(),
        ensures
            final(writer)@ == old(writer)@ + self.wire_bytes(),
            n == self.wire_bytes().len(),
    {
        match self {
            WireMessage::Join(m) => m.serialize(writer),
            WireMessage::ForwardJoin(m) => m.serialize(writer),
            WireMessage::JoinAck(m) => m.serialize(writer),
            WireMessage::Disconnect(m) => m.serialize(writer),
            WireMessage::NeighborRequest(m) => m.serialize(writer),
            WireMessage::NeighborResponse(m) => m.serialize(writer),
            WireMessage::Shuffle(m) => m.serialize(writer),
            WireMessage::ShuffleReply(m) => m.serialize(writer),
        }
    }
}

// ---------------------------------------------------------------------------
// Laws of the codec
// ---------------------------------------------------------------------------

/// Reading back the body of a FORWARD_JOIN gives the message that was written,
/// whatever follows it in the stream.
pub proof fn lemma_forward_join_roundtrip(m: ForwardJoin, rest: Seq<u8>)
    ensures
        decode_forward_join(m.body_bytes() + rest) == Some((m, 9int)),
{
    let b = m.body_bytes() + rest;
    assert(b[6] == m.arwl && b[7] == m.prwl && b[8] == m.ttl);
    assert(addr_of_bytes(b) == addr_of_bytes(addr_bytes(m.originator)));
    lemma_addr_roundtrip(m.originator);
}

/// Reading back the body of a SHUFFLE gives the message that was written.
pub proof fn lemma_shuffle_roundtrip(m: Shuffle, rest: Seq<u8>)
    requires
        m.fits_wire(),
    ensures
        decode_shuffle(m.body_bytes() + rest) == Some((m@, 8 + 6 * m.nodes@.len() as int)),
{
    let b = m.body_bytes() + rest;
    lemma_addrs_bytes(m.nodes@);
    lemma_addr_roundtrip(m.originator);
    assert(addr_of_bytes(b) == addr_of_bytes(addr_bytes(m.originator)));
    assert(b.skip(6) =~= addr_list_bytes(m.nodes@) + (seq![m.ttl] + rest));
    lemma_addr_list_roundtrip(m.nodes@, seq![m.ttl] + rest);
    let n: int = 1 + 6 * m.nodes@.len() as int;
    assert(b[6 + n] == m.ttl);
}

/// Reading back the body of a SHUFFLE reply gives the message that was written.
pub proof fn lemma_shuffle_reply_roundtrip(m: ShuffleReply, rest: Seq<u8>)
    requires
        m.fits_wire(),
    ensures
        decode_shuffle_reply(m.body_bytes() + rest) == Some(
            (m@, 2 + 6 * m.sent_nodes@.len() as int + 6 * m.nodes@.len() as int),
        ),
{
    let b = m.body_bytes() + rest;
    lemma_addrs_bytes(m.sent_nodes@);
    lemma_addrs_bytes(m.nodes@);
    assert(b =~= addr_list_bytes(m.sent_nodes@) + (addr_list_bytes(m.nodes@) + rest));
    lemma_addr_list_roundtrip(m.sent_nodes@, addr_list_bytes(m.nodes@) + rest);
    let n1: int = 1 + 6 * m.sent_nodes@.len() as int;
    assert(b.skip(n1) =~= addr_list_bytes(m.nodes@) + rest);
    lemma_addr_list_roundtrip(m.nodes@, rest);
}

/// What a message id followed by a body reads as, for the messages with an
/// address list or an address in their body.
proof fn lemma_event_of_body(b: Seq<u8>, sender: SocketAddr)
    requires
        b.len() > 0,
    ensures
        b[0] == HPV_MSG_ID_FORWARD_JOIN ==> decode_event(b, sender) == match decode_forward_join(
            b.drop_first(),
        ) {
            Some((m, n)) => Ok((EventView::ForwardJoinMessage(m, sender), 1 + n)),
            None => Err(DecodeError::Truncated),
        },
        b[0] == HPV_MSG_ID_SHUFFLE ==> decode_event(b, sender) == match decode_shuffle(
            b.drop_first(),
        ) {
            Some((m, n)) => Ok((EventView::ShuffleMessage(m, sender), 1 + n)),
            None => Err(DecodeError::Truncated),
        },
        b[0] == HPV_MSG_ID_SHUFFLE_REPLY ==> decode_event(b, sender) == match decode_shuffle_reply(
            b.drop_first(),
        ) {
            Some((m, n)) => Ok((EventView::ShuffleReplyMessage(m, sender), 1 + n)),
            None => Err(DecodeError::Truncated),
        },
{
}

/// What one node writes, the other reads back: decoding the bytes of any
/// message, followed by anything, gives the event for that message from its
/// sender and consumes exactly the message's bytes.
pub proof fn lemma_wire_roundtrip(m: WireMessage, sender: SocketAddr, rest: Seq<u8>)
    requires
        m.fits_wire(),
    ensures
        decode_event(m.wire_bytes() + rest, sender) == Ok::<(EventView, int), DecodeError>(
            (m.received_from(sender), m.wire_bytes().len() as int),
        ),
{
    let b = m.wire_bytes() + rest;
    assert(b[0] == m.wire_bytes()[0]);
    match m {
        WireMessage::ForwardJoin(f) => {
            assert(b.drop_first() =~= f.body_bytes() + rest);
            lemma_forward_join_roundtrip(f, rest);
            lemma_event_of_body(b, sender);
        },
        WireMessage::NeighborRequest(r) => {
            assert(b.drop_first() =~= seq![priority_code(r.priority)] + rest);
            assert(priority_of_code(priority_code(r.priority)) == r.priority);
        },
        WireMessage::NeighborResponse(r) => {
            assert(b.drop_first() =~= seq![result_code(r.result)] + rest);
            assert(result_of_code(result_code(r.result)) == r.result);
        },
        WireMessage::Shuffle(s) => {
            assert(b.drop_first() =~= s.body_bytes() + rest);
            lemma_shuffle_roundtrip(s, rest);
            lemma_addrs_bytes(s.nodes@);
            lemma_event_of_body(b, sender);
        },
        WireMessage::ShuffleReply(s) => {
            assert(b.drop_first() =~= s.body_bytes() + rest);
            lemma_shuffle_reply_roundtrip(s, rest);
            lemma_addrs_bytes(s.sent_nodes@);
            lemma_addrs_bytes(s.nodes@);
            lemma_event_of_body(b, sender);
        },
        _ => {},
    }
}

} // verus!
