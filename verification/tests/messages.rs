use polaris::hyparview::messages::{
    deserialize, DecodeError, Disconnect, ForwardJoin, HyParViewMessage, Join, JoinAck,
    MessageReader, NeighborRequest, NeighborResponse, Priority, Result as NeighborResult, Shuffle,
    ShuffleReply, WireMessage,
};
use polaris::net::{Ipv4Addr, SocketAddr};
use polaris::shipper::Serializable;

fn addr(s: &str) -> SocketAddr {
    SocketAddr::parse(&s.as_bytes().to_vec()).expect("invalid socket addr")
}

#[test]
fn test_join_serialization() {
    let arwl = 6u8;
    let prwl = 3u8;
    let ttl = 4u8;

    let sock_addr: SocketAddr = addr("127.0.0.1:9090");
    let fjoin_msg = ForwardJoin::new(&sock_addr, arwl, prwl, ttl);
    let mut writer: Vec<u8> = Vec::new();
    let _result = fjoin_msg.serialize(&mut writer);

    let mut reader = MessageReader::new(writer);
    let _header = reader.read_u8().expect("failed to read the header");
    let return_fjoin_msg = ForwardJoin::deserialize(&mut reader).ok().expect("failed to parse socket addr");
    assert!(return_fjoin_msg.originator.eq(&sock_addr));
    assert_eq!(return_fjoin_msg.arwl, arwl);
    assert_eq!(return_fjoin_msg.prwl, prwl);
    assert_eq!(return_fjoin_msg.ttl, ttl);
}

#[test]
fn forward_join_bytes_are_exact() {
    let m = ForwardJoin::new(&addr("10.1.2.3:258"), 6, 3, 4);
    let mut w: Vec<u8> = Vec::new();
    let n = m.serialize(&mut w);
    assert_eq!(n, 10);
    assert_eq!(w, vec![1, 10, 1, 2, 3, 1, 2, 6, 3, 4]);
}

#[test]
fn serialize_appends_to_what_is_there() {
    let mut w: Vec<u8> = vec![42];
    assert_eq!(Join::new().serialize(&mut w), 1);
    assert_eq!(JoinAck::new().serialize(&mut w), 1);
    assert_eq!(Disconnect::new().serialize(&mut w), 1);
    assert_eq!(NeighborRequest::new(Priority::High).serialize(&mut w), 2);
    assert_eq!(NeighborResponse::new(NeighborResult::Reject).serialize(&mut w), 2);
    assert_eq!(w, vec![42, 0, 2, 3, 4, 1, 5, 1]);
}

#[test]
fn shuffle_bytes_are_exact() {
    let m = Shuffle::new(addr("1.2.3.4:5"), vec![addr("5.6.7.8:65535")], 9);
    let mut w: Vec<u8> = Vec::new();
    assert_eq!(m.serialize(&mut w), 15);
    assert_eq!(w, vec![6, 1, 2, 3, 4, 0, 5, 1, 5, 6, 7, 8, 255, 255, 9]);
}

fn roundtrip(m: WireMessage) -> HyParViewMessage {
    let mut w: Vec<u8> = Vec::new();
    let n = m.serialize(&mut w);
    assert_eq!(n, w.len());
    w.push(77);
    let mut reader = MessageReader::new(w);
    let ev = deserialize(&mut reader, addr("9.9.9.9:99")).expect("decodes");
    assert_eq!(reader.len(), 1);
    ev
}

#[test]
fn every_message_reads_back_as_written() {
    let from = addr("9.9.9.9:99");
    assert_eq!(roundtrip(WireMessage::Join(Join::new())), HyParViewMessage::JoinMessage(Join, from));
    let fj = ForwardJoin::new(&addr("127.0.0.1:9090"), 1, 2, 3);
    assert_eq!(roundtrip(WireMessage::ForwardJoin(fj)), HyParViewMessage::ForwardJoinMessage(fj, from));
    assert_eq!(roundtrip(WireMessage::JoinAck(JoinAck)), HyParViewMessage::JoinAckMessage(JoinAck, from));
    assert_eq!(
        roundtrip(WireMessage::Disconnect(Disconnect)),
        HyParViewMessage::DisconnectMessage(Disconnect, from)
    );
    for p in [Priority::High, Priority::Low] {
        let m = NeighborRequest::new(p);
        assert_eq!(roundtrip(WireMessage::NeighborRequest(m)), HyParViewMessage::NeighborRequestMessage(m, from));
    }
    for r in [NeighborResult::Accept, NeighborResult::Reject] {
        let m = NeighborResponse::new(r);
        assert_eq!(
            roundtrip(WireMessage::NeighborResponse(m)),
            HyParViewMessage::NeighborResponseMessage(m, from)
        );
    }
    let s = Shuffle::new(addr("1.1.1.1:1"), vec![addr("2.2.2.2:2"), addr("3.3.3.3:3")], 5);
    assert_eq!(roundtrip(WireMessage::Shuffle(s.clone())), HyParViewMessage::ShuffleMessage(s, from));
    let r = ShuffleReply::new(vec![addr("4.4.4.4:4")], vec![]);
    assert_eq!(roundtrip(WireMessage::ShuffleReply(r.clone())), HyParViewMessage::ShuffleReplyMessage(r, from));
}

#[test]
fn trait_serialize_matches_inherent() {
    let m = WireMessage::NeighborRequest(NeighborRequest::new(Priority::Low));
    let mut a: Vec<u8> = Vec::new();
    let mut b: Vec<u8> = Vec::new();
    m.serialize(&mut a);
    Serializable::serialize(&m, &mut b);
    assert_eq!(a, b);
    assert_eq!(a, vec![4, 0]);
}

#[test]
fn empty_stream_is_end_of_stream() {
    let mut reader = MessageReader::new(vec![]);
    assert_eq!(deserialize(&mut reader, addr("1.1.1.1:1")), Err(DecodeError::EndOfStream));
}

#[test]
fn unknown_id_is_refused() {
    let mut reader = MessageReader::new(vec![8, 1, 2]);
    assert_eq!(deserialize(&mut reader, addr("1.1.1.1:1")), Err(DecodeError::UnknownMessage));
    assert_eq!(reader.len(), 2);
}

#[test]
fn truncated_bodies_are_refused() {
    for bytes in [
        vec![1, 127, 0, 0, 1, 35, 130, 3, 2],
        vec![4],
        vec![5],
        vec![6, 1, 2, 3, 4, 0, 5, 1, 5, 6, 7, 8, 255, 255],
        vec![6, 1, 2, 3, 4, 0, 5, 2, 5, 6, 7, 8, 255, 255, 1],
        vec![7, 0],
        vec![7, 1, 1, 1, 1, 1, 0, 1],
    ] {
        let mut reader = MessageReader::new(bytes);
        assert_eq!(deserialize(&mut reader, addr("1.1.1.1:1")), Err(DecodeError::Truncated));
    }
}

#[test]
fn odd_codes_read_as_defaults() {
    let mut reader = MessageReader::new(vec![4, 7, 5, 9, 5, 0]);
    let from = addr("1.1.1.1:1");
    assert_eq!(
        deserialize(&mut reader, from),
        Ok(HyParViewMessage::NeighborRequestMessage(NeighborRequest::new(Priority::Low), from))
    );
    assert_eq!(
        deserialize(&mut reader, from),
        Ok(HyParViewMessage::NeighborResponseMessage(NeighborResponse::new(NeighborResult::Reject), from))
    );
    assert_eq!(
        deserialize(&mut reader, from),
        Ok(HyParViewMessage::NeighborResponseMessage(NeighborResponse::new(NeighborResult::Accept), from))
    );
}

#[test]
fn reader_reads_and_peeks() {
    let mut reader = MessageReader::new(vec![1, 2]);
    assert_eq!(reader.peek(1), 2);
    assert_eq!(reader.read_u8(), Some(1));
    assert_eq!(reader.read_u8(), Some(2));
    assert_eq!(reader.read_u8(), None);
    assert_eq!(reader.len(), 0);
}

#[test]
fn socket_addr_parsing() {
    assert_eq!(
        SocketAddr::parse(&b"127.0.0.1:9090".to_vec()),
        Some(SocketAddr::new(Ipv4Addr(127, 0, 0, 1), 9090))
    );
    assert_eq!(SocketAddr::parse(&b"255.255.255.255:65535".to_vec()), Some(SocketAddr::new(Ipv4Addr(255, 255, 255, 255), 65535)));
    assert_eq!(SocketAddr::parse(&b"256.0.0.1:1".to_vec()), None);
    assert_eq!(SocketAddr::parse(&b"1.0.0.1:65536".to_vec()), None);
    assert_eq!(SocketAddr::parse(&b"1.0.0:1".to_vec()), None);
    assert_eq!(SocketAddr::parse(&b"1.0.0.1".to_vec()), None);
    assert_eq!(SocketAddr::parse(&b"1.0.0.1:2:3".to_vec()), None);
    assert_eq!(SocketAddr::parse(&b" 1.0.0.1:2".to_vec()), None);
    assert_eq!(SocketAddr::parse(&b"1.0.0.1:".to_vec()), None);
}
