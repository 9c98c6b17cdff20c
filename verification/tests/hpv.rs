use polaris::config::Config;
use polaris::hyparview::messages::{
    deserialize, Disconnect, ForwardJoin, HyParViewMessage, JoinAck, MessageReader,
    NeighborRequest, NeighborResponse, Priority, Result as NeighborResult, WireMessage,
};
use polaris::hyparview::{select_random, Envelope, HyParViewContext};
use polaris::net::SocketAddr;
use polaris::shipper::{Courier, Shipper};
use std::collections::{HashMap, VecDeque};

fn addr(s: &str) -> SocketAddr {
    SocketAddr::parse(&s.as_bytes().to_vec()).unwrap()
}

struct SimpleShipper {
    invoked: bool,
}

impl SimpleShipper {
    fn new() -> SimpleShipper {
        SimpleShipper { invoked: false }
    }
}

impl Shipper for SimpleShipper {
    fn ship(&mut self, _msg: &WireMessage, _dest: &SocketAddr) -> bool {
        self.invoked = true;
        true
    }
}

/// Ships by writing the message to bytes and reading it back, queuing the
/// event for its destination.
struct InMemoryShipper<'a> {
    local_addr: SocketAddr,
    queue: &'a mut VecDeque<(HyParViewMessage, SocketAddr)>,
}

impl<'a> Shipper for InMemoryShipper<'a> {
    fn ship(&mut self, msg: &WireMessage, dest: &SocketAddr) -> bool {
        let ev = convert(msg, &self.local_addr);
        self.queue.push_back((ev, *dest));
        true
    }
}

fn convert(msg: &WireMessage, src_addr: &SocketAddr) -> HyParViewMessage {
    let mut writer: Vec<u8> = Vec::with_capacity(256);
    msg.serialize(&mut writer);
    let mut reader = MessageReader::new(writer);
    deserialize(&mut reader, *src_addr).expect("failed to convert serializable to a HyParViewMessage")
}

fn build_node(socket: SocketAddr, seeds: &Vec<SocketAddr>) -> HyParViewContext {
    let mut seeds_clone: Vec<SocketAddr> = Vec::with_capacity(seeds.len());
    for addr in seeds.iter() {
        seeds_clone.push(addr.clone());
    }

    let config = Config {
        local_addr: socket,
        contact_nodes: seeds_clone,
        active_random_walk_length: 3,
        passive_random_walk_length: 2,
        active_view_size: 4,
        passive_view_size: 7,
        shuffle_period_seconds: 15,
        shuffle_active_view_count: 2,
        shuffle_passive_view_count: 5,
        shuffle_walk_length: 3,
    };

    HyParViewContext::new(config)
}

fn ship_all<S: Shipper>(shipper: &mut S, sends: &Vec<Envelope>) {
    for e in sends.iter() {
        shipper.ship(&e.msg, &e.dest);
    }
}

#[test]
fn one_node_join_seed_is_self() {
    let sock_addr: SocketAddr = addr("127.0.0.1:9090");
    let mut seeds: Vec<SocketAddr> = Vec::with_capacity(1);
    seeds.push(sock_addr);

    let mut shipper = SimpleShipper::new();
    let seed = build_node(sock_addr, &seeds);
    ship_all(&mut shipper, &seed.join());
    assert!(!shipper.invoked);
}

#[test]
fn one_node_join_seed_is_other() {
    let sock_addr: SocketAddr = addr("127.0.0.1:9090");
    let mut seeds: Vec<SocketAddr> = Vec::with_capacity(1);
    let seed_sock_addr: SocketAddr = addr("127.1.0.1:9090");
    seeds.push(seed_sock_addr);

    let mut shipper = SimpleShipper::new();
    let seed = build_node(sock_addr, &seeds);
    ship_all(&mut shipper, &seed.join());
    assert!(shipper.invoked);
}

fn dispatch(nodes: &mut HashMap<SocketAddr, HyParViewContext>, queue: &mut VecDeque<(HyParViewMessage, SocketAddr)>) {
    let mut steps = 0;
    while let Some((msg, dest)) = queue.pop_front() {
        steps += 1;
        assert!(steps < 1000, "the exchange does not settle");
        let ctx = nodes.get_mut(&dest).expect("could not find dest addr in dispatch map");
        let mut courier = Courier::new(InMemoryShipper { local_addr: dest, queue });
        ctx.receive_event(msg, &mut courier);
    }
}

/// test out the entire join sequence between two nodes, one is a seed, and the other not.
#[test]
fn two_node_join() {
    let seed_addr: SocketAddr = addr("127.0.0.1:9090");
    let mut seeds: Vec<SocketAddr> = Vec::with_capacity(1);
    seeds.push(seed_addr);

    let mut nodes: HashMap<SocketAddr, HyParViewContext> = HashMap::new();

    let seed = build_node(seed_addr, &seeds);
    nodes.insert(seed.config().local_addr, seed);

    let mut queue: VecDeque<(HyParViewMessage, SocketAddr)> = VecDeque::new();

    let peer_addr: SocketAddr = addr("127.1.0.1:9090");
    let peer = build_node(peer_addr, &seeds);
    {
        let mut starter_shipper = InMemoryShipper { local_addr: peer_addr, queue: &mut queue };
        ship_all(&mut starter_shipper, &peer.join());
    }
    nodes.insert(peer.config().local_addr, peer);

    dispatch(&mut nodes, &mut queue);

    let seed = nodes.get(&seed_addr).unwrap();
    assert_eq!(1, seed.active_view().len());
    assert!(seed.active_view()[0].eq(&peer_addr));

    let peer = nodes.get(&peer_addr).unwrap();
    assert_eq!(1, peer.active_view().len());
    assert!(peer.active_view()[0].eq(&seed_addr));
}

#[test]
fn three_node_join_through_one_contact() {
    let seed_addr = addr("10.0.0.1:1");
    let seeds = vec![seed_addr];
    let mut nodes: HashMap<SocketAddr, HyParViewContext> = HashMap::new();
    nodes.insert(seed_addr, build_node(seed_addr, &seeds));
    let mut queue: VecDeque<(HyParViewMessage, SocketAddr)> = VecDeque::new();
    for a in ["10.0.0.2:1", "10.0.0.3:1"] {
        let a = addr(a);
        let n = build_node(a, &seeds);
        {
            let mut s = InMemoryShipper { local_addr: a, queue: &mut queue };
            ship_all(&mut s, &n.join());
        }
        nodes.insert(a, n);
        dispatch(&mut nodes, &mut queue);
    }
    // the second joiner's JOIN is forwarded by the seed to the first joiner,
    // whose active view holds only the seed, so it takes the joiner in
    let first = nodes.get(&addr("10.0.0.2:1")).unwrap();
    assert_eq!(first.active_view().clone(), vec![seed_addr, addr("10.0.0.3:1")]);
    let second = nodes.get(&addr("10.0.0.3:1")).unwrap();
    assert_eq!(second.active_view().clone(), vec![addr("10.0.0.2:1")]);
    let seed = nodes.get(&seed_addr).unwrap();
    assert_eq!(seed.active_view().clone(), vec![addr("10.0.0.2:1")]);
}

#[test]
fn join_from_self_is_ignored() {
    let me = addr("1.1.1.1:1");
    let mut ctx = build_node(me, &vec![me]);
    let r = ctx.step_with(&HyParViewMessage::JoinMessage(polaris::hyparview::messages::Join, me), 0);
    assert!(r.sends.is_empty());
    assert!(ctx.active_view().is_empty());
}

#[test]
fn join_with_active_peers_forwards_to_each() {
    let me = addr("1.1.1.1:1");
    let mut ctx = build_node(me, &vec![me]);
    for p in ["2.2.2.2:2", "3.3.3.3:3"] {
        ctx.step_with(&HyParViewMessage::JoinAckMessage(JoinAck, addr(p)), 0);
    }
    let joiner = addr("4.4.4.4:4");
    let r = ctx.step_with(&HyParViewMessage::JoinMessage(polaris::hyparview::messages::Join, joiner), 0);
    let fj = ForwardJoin::new(&joiner, 3, 2, 3);
    assert_eq!(
        r.sends,
        vec![
            Envelope { msg: WireMessage::ForwardJoin(fj), dest: addr("2.2.2.2:2") },
            Envelope { msg: WireMessage::ForwardJoin(fj), dest: addr("3.3.3.3:3") },
        ]
    );
    assert_eq!(ctx.active_view().len(), 2);
}

#[test]
fn forward_join_at_end_of_walk_is_taken_in() {
    let me = addr("1.1.1.1:1");
    let mut ctx = build_node(me, &vec![me]);
    for p in ["2.2.2.2:2", "3.3.3.3:3"] {
        ctx.step_with(&HyParViewMessage::JoinAckMessage(JoinAck, addr(p)), 0);
    }
    let origin = addr("9.9.9.9:9");
    let r = ctx.step_with(
        &HyParViewMessage::ForwardJoinMessage(ForwardJoin::new(&origin, 3, 2, 0), addr("2.2.2.2:2")),
        0,
    );
    assert_eq!(r.sends, vec![Envelope { msg: WireMessage::JoinAck(JoinAck), dest: origin }]);
    assert_eq!(ctx.active_view().clone(), vec![addr("2.2.2.2:2"), addr("3.3.3.3:3"), origin]);
}

#[test]
fn forward_join_moves_on_and_fills_passive_view() {
    let me = addr("1.1.1.1:1");
    let mut ctx = build_node(me, &vec![me]);
    for p in ["2.2.2.2:2", "3.3.3.3:3", "4.4.4.4:4"] {
        ctx.step_with(&HyParViewMessage::JoinAckMessage(JoinAck, addr(p)), 0);
    }
    let origin = addr("9.9.9.9:9");
    // ttl equals the passive random walk length: the originator enters the passive view
    let r = ctx.step_with(
        &HyParViewMessage::ForwardJoinMessage(ForwardJoin::new(&origin, 3, 2, 2), addr("2.2.2.2:2")),
        1,
    );
    assert_eq!(ctx.passive_view().clone(), vec![origin]);
    // candidates are 3.3.3.3 and 4.4.4.4; choice 1 picks the second
    assert_eq!(
        r.sends,
        vec![Envelope { msg: WireMessage::ForwardJoin(ForwardJoin::new(&origin, 3, 2, 1)), dest: addr("4.4.4.4:4") }]
    );
}

#[test]
fn forward_join_without_candidates_goes_back_to_originator() {
    let me = addr("1.1.1.1:1");
    let mut ctx = build_node(me, &vec![me]);
    let origin = addr("9.9.9.9:9");
    for p in ["2.2.2.2:2", "9.9.9.9:9"] {
        ctx.step_with(&HyParViewMessage::JoinAckMessage(JoinAck, addr(p)), 0);
    }
    let r = ctx.step_with(
        &HyParViewMessage::ForwardJoinMessage(ForwardJoin::new(&origin, 3, 2, 3), addr("2.2.2.2:2")),
        5,
    );
    assert_eq!(
        r.sends,
        vec![Envelope { msg: WireMessage::ForwardJoin(ForwardJoin::new(&origin, 3, 2, 2)), dest: origin }]
    );
}

#[test]
fn forward_join_of_own_join_wraps_ttl() {
    let me = addr("1.1.1.1:1");
    let mut ctx = build_node(me, &vec![me]);
    for p in ["2.2.2.2:2", "3.3.3.3:3"] {
        ctx.step_with(&HyParViewMessage::JoinAckMessage(JoinAck, addr(p)), 0);
    }
    let r = ctx.step_with(
        &HyParViewMessage::ForwardJoinMessage(ForwardJoin::new(&me, 3, 2, 0), addr("2.2.2.2:2")),
        0,
    );
    assert_eq!(
        r.sends,
        vec![Envelope { msg: WireMessage::ForwardJoin(ForwardJoin::new(&me, 3, 2, 255)), dest: addr("3.3.3.3:3") }]
    );
    // at the passive walk length the ttl is kept
    let r = ctx.step_with(
        &HyParViewMessage::ForwardJoinMessage(ForwardJoin::new(&me, 3, 2, 2), addr("2.2.2.2:2")),
        0,
    );
    assert_eq!(
        r.sends,
        vec![Envelope { msg: WireMessage::ForwardJoin(ForwardJoin::new(&me, 3, 2, 2)), dest: addr("3.3.3.3:3") }]
    );
    assert!(ctx.passive_view().is_empty());
}

#[test]
fn full_active_view_evicts_oldest() {
    let me = addr("1.1.1.1:1");
    let mut ctx = build_node(me, &vec![me]);
    for p in ["2.2.2.2:2", "3.3.3.3:3", "4.4.4.4:4", "5.5.5.5:5"] {
        let r = ctx.step_with(&HyParViewMessage::JoinAckMessage(JoinAck, addr(p)), 0);
        assert!(r.sends.is_empty());
    }
    let r = ctx.step_with(&HyParViewMessage::JoinAckMessage(JoinAck, addr("6.6.6.6:6")), 0);
    assert_eq!(r.sends, vec![Envelope { msg: WireMessage::Disconnect(Disconnect), dest: addr("2.2.2.2:2") }]);
    assert_eq!(
        ctx.active_view().clone(),
        vec![addr("3.3.3.3:3"), addr("4.4.4.4:4"), addr("5.5.5.5:5"), addr("6.6.6.6:6")]
    );
    assert_eq!(ctx.passive_view().clone(), vec![addr("2.2.2.2:2")]);
    // taking the evicted peer back removes it from the passive view
    ctx.step_with(&HyParViewMessage::JoinAckMessage(JoinAck, addr("2.2.2.2:2")), 0);
    assert_eq!(ctx.passive_view().clone(), vec![addr("3.3.3.3:3")]);
}

#[test]
fn neighbor_requests_by_priority() {
    let me = addr("1.1.1.1:1");
    let mut ctx = build_node(me, &vec![me]);
    for p in ["2.2.2.2:2", "3.3.3.3:3", "4.4.4.4:4", "5.5.5.5:5"] {
        ctx.step_with(&HyParViewMessage::JoinAckMessage(JoinAck, addr(p)), 0);
    }
    let asker = addr("7.7.7.7:7");
    let r = ctx.step_with(&HyParViewMessage::NeighborRequestMessage(NeighborRequest::new(Priority::Low), asker), 0);
    assert_eq!(
        r.sends,
        vec![Envelope { msg: WireMessage::NeighborResponse(NeighborResponse::new(NeighborResult::Reject)), dest: asker }]
    );
    assert!(!ctx.active_view().contains(&asker));
    let r = ctx.step_with(&HyParViewMessage::NeighborRequestMessage(NeighborRequest::new(Priority::High), asker), 0);
    assert_eq!(
        r.sends,
        vec![
            Envelope { msg: WireMessage::Disconnect(Disconnect), dest: addr("2.2.2.2:2") },
            Envelope { msg: WireMessage::NeighborResponse(NeighborResponse::new(NeighborResult::Accept)), dest: asker },
        ]
    );
    assert!(ctx.active_view().contains(&asker));
}

struct FailingShipper {
    fail_until: usize,
    calls: Vec<SocketAddr>,
}

impl Shipper for FailingShipper {
    fn ship(&mut self, _msg: &WireMessage, dest: &SocketAddr) -> bool {
        self.calls.push(*dest);
        self.calls.len() > self.fail_until
    }
}

#[test]
fn disconnect_moves_peer_out_and_starts_walk() {
    let me = addr("1.1.1.1:1");
    let mut ctx = build_node(me, &vec![me]);
    ctx.step_with(&HyParViewMessage::JoinAckMessage(JoinAck, addr("2.2.2.2:2")), 0);
    let r = ctx.step_with(&HyParViewMessage::DisconnectMessage(Disconnect, addr("2.2.2.2:2")), 0);
    assert!(ctx.active_view().is_empty());
    // the peer moves to the passive view
    assert_eq!(ctx.passive_view().clone(), vec![addr("2.2.2.2:2")]);
    assert!(r.sends.is_empty());
    let w = r.walk.expect("an empty active view always walks");
    assert_eq!(w.next, 0);
    assert_eq!(w.priority, Priority::High);
}

#[test]
fn neighbor_walk_drops_unreachable_peers() {
    let me = addr("1.1.1.1:1");
    // build a passive view [a, b, c] through evictions with a view size of 1
    let mut config = build_node(me, &vec![me]).config().clone();
    config.active_view_size = 1;
    let mut ctx = HyParViewContext::new(config);
    for p in ["3.3.3.3:3", "4.4.4.4:4", "5.5.5.5:5", "2.2.2.2:2"] {
        ctx.step_with(&HyParViewMessage::JoinAckMessage(JoinAck, addr(p)), 0);
    }
    assert_eq!(ctx.passive_view().clone(), vec![addr("3.3.3.3:3"), addr("4.4.4.4:4"), addr("5.5.5.5:5")]);
    let mut courier = Courier::new(FailingShipper { fail_until: 1, calls: vec![] });
    let shipped = ctx.receive_event(HyParViewMessage::PeerDisconnect(addr("2.2.2.2:2")), &mut courier);
    assert!(ctx.active_view().is_empty());
    // the first peer asked could not be reached and left; the next one was asked
    assert_eq!(courier.shipper().calls, vec![addr("3.3.3.3:3"), addr("4.4.4.4:4")]);
    let req = WireMessage::NeighborRequest(NeighborRequest::new(Priority::High));
    assert_eq!(
        shipped,
        vec![
            Envelope { msg: req.clone(), dest: addr("3.3.3.3:3") },
            Envelope { msg: req, dest: addr("4.4.4.4:4") },
        ]
    );
    assert_eq!(ctx.passive_view().clone(), vec![addr("4.4.4.4:4"), addr("5.5.5.5:5")]);
}

#[test]
fn rejected_neighbor_request_walks_from_rejecter() {
    let me = addr("1.1.1.1:1");
    let mut config = build_node(me, &vec![me]).config().clone();
    config.active_view_size = 1;
    let mut ctx = HyParViewContext::new(config);
    for p in ["3.3.3.3:3", "4.4.4.4:4", "2.2.2.2:2"] {
        ctx.step_with(&HyParViewMessage::JoinAckMessage(JoinAck, addr(p)), 0);
    }
    // the active view is full: a rejection starts no walk
    let r = ctx.step_with(
        &HyParViewMessage::NeighborResponseMessage(NeighborResponse::new(NeighborResult::Reject), addr("4.4.4.4:4")),
        0,
    );
    assert!(r.walk.is_none());
    ctx.step_with(&HyParViewMessage::PeerDisconnect(addr("2.2.2.2:2")), 0);
    // the rejecter is the last passive peer and no peer is active: the walk starts over
    let r = ctx.step_with(
        &HyParViewMessage::NeighborResponseMessage(NeighborResponse::new(NeighborResult::Reject), addr("4.4.4.4:4")),
        0,
    );
    let w = r.walk.unwrap();
    assert_eq!(w.next, 0);
    assert_eq!(w.priority, Priority::High);
    assert_eq!(ctx.neighbor_walk_target(&w), Some(addr("3.3.3.3:3")));
}

#[test]
fn rejected_neighbor_request_asks_the_next_peer() {
    let me = addr("1.1.1.1:1");
    let mut config = build_node(me, &vec![me]).config().clone();
    config.active_view_size = 2;
    let mut ctx = HyParViewContext::new(config);
    for p in ["3.3.3.3:3", "4.4.4.4:4", "5.5.5.5:5", "2.2.2.2:2"] {
        ctx.step_with(&HyParViewMessage::JoinAckMessage(JoinAck, addr(p)), 0);
    }
    assert_eq!(ctx.passive_view().clone(), vec![addr("3.3.3.3:3"), addr("4.4.4.4:4")]);
    ctx.step_with(&HyParViewMessage::PeerDisconnect(addr("2.2.2.2:2")), 0);
    let r = ctx.step_with(
        &HyParViewMessage::NeighborResponseMessage(NeighborResponse::new(NeighborResult::Reject), addr("3.3.3.3:3")),
        0,
    );
    let w = r.walk.unwrap();
    assert_eq!(w.next, 1);
    assert_eq!(w.priority, Priority::Low);
    assert_eq!(ctx.neighbor_walk_target(&w), Some(addr("4.4.4.4:4")));
    // a rejection by the last passive peer starts no walk while a peer is active
    let r = ctx.step_with(
        &HyParViewMessage::NeighborResponseMessage(NeighborResponse::new(NeighborResult::Reject), addr("4.4.4.4:4")),
        0,
    );
    assert!(r.walk.is_none());
}

struct RefusingShipper {
    refuse: SocketAddr,
    calls: Vec<(WireMessage, SocketAddr)>,
}

impl Shipper for RefusingShipper {
    fn ship(&mut self, msg: &WireMessage, dest: &SocketAddr) -> bool {
        self.calls.push((msg.clone(), *dest));
        *dest != self.refuse
    }
}

#[test]
fn neighbor_walk_asks_each_peer_in_turn() {
    let me = addr("127.0.0.1:9090");
    let mut config = build_node(me, &vec![me]).config().clone();
    config.active_view_size = 1;
    let mut ctx = HyParViewContext::new(config);
    for p in ["127.0.0.3:9090", "127.0.0.4:9090", "127.0.0.5:9090", "127.0.0.2:9090"] {
        ctx.step_with(&HyParViewMessage::JoinAckMessage(JoinAck, addr(p)), 0);
    }
    assert_eq!(ctx.active_view().clone(), vec![addr("127.0.0.2:9090")]);
    assert_eq!(
        ctx.passive_view().clone(),
        vec![addr("127.0.0.3:9090"), addr("127.0.0.4:9090"), addr("127.0.0.5:9090")]
    );
    let w = ctx.begin_neighbor_walk(None).unwrap();
    let mut courier = Courier::new(RefusingShipper { refuse: addr("127.0.0.3:9090"), calls: vec![] });
    let run = ctx.run_neighbor_walk(w, &mut courier);
    let req = WireMessage::NeighborRequest(NeighborRequest::new(Priority::Low));
    assert_eq!(
        courier.shipper().calls,
        vec![(req.clone(), addr("127.0.0.3:9090")), (req.clone(), addr("127.0.0.4:9090"))]
    );
    assert!(run.handed_over);
    assert_eq!(run.requests.len(), 2);
    assert_eq!(ctx.passive_view().clone(), vec![addr("127.0.0.4:9090"), addr("127.0.0.5:9090")]);
    assert_eq!(ctx.active_view().clone(), vec![addr("127.0.0.2:9090")]);
    // past the end nothing is asked and nothing changes
    let far = polaris::hyparview::NeighborWalk { next: 5, priority: Priority::Low };
    let run = ctx.run_neighbor_walk(far, &mut courier);
    assert!(run.requests.is_empty() && !run.handed_over);
    assert_eq!(ctx.passive_view().len(), 2);
    assert_eq!(courier.shipper().calls.len(), 2);
}

#[test]
fn neighbor_walk_with_no_answer_empties_the_walked_part() {
    let me = addr("127.0.0.1:9090");
    let mut config = build_node(me, &vec![me]).config().clone();
    config.active_view_size = 1;
    let mut ctx = HyParViewContext::new(config);
    for p in ["127.0.0.3:9090", "127.0.0.4:9090", "127.0.0.5:9090", "127.0.0.2:9090"] {
        ctx.step_with(&HyParViewMessage::JoinAckMessage(JoinAck, addr(p)), 0);
    }
    // every request is refused: each peer from the start is asked and leaves
    let w = polaris::hyparview::NeighborWalk { next: 1, priority: Priority::Low };
    let mut courier = Courier::new(FailingShipper { fail_until: 100, calls: vec![] });
    let run = ctx.run_neighbor_walk(w, &mut courier);
    assert!(!run.handed_over);
    assert_eq!(courier.shipper().calls, vec![addr("127.0.0.4:9090"), addr("127.0.0.5:9090")]);
    assert_eq!(run.requests.len(), 2);
    assert_eq!(ctx.passive_view().clone(), vec![addr("127.0.0.3:9090")]);
}

#[test]
fn neighbor_walk_answered_follows_the_answer() {
    let me = addr("127.0.0.1:9090");
    let mut config = build_node(me, &vec![me]).config().clone();
    config.active_view_size = 1;
    let mut ctx = HyParViewContext::new(config);
    for p in ["127.0.0.3:9090", "127.0.0.4:9090", "127.0.0.2:9090"] {
        ctx.step_with(&HyParViewMessage::JoinAckMessage(JoinAck, addr(p)), 0);
    }
    let w = polaris::hyparview::NeighborWalk { next: 0, priority: Priority::Low };
    // handed over: the walk ends and the views stay
    assert_eq!(ctx.neighbor_walk_answered(&w, true), None);
    assert_eq!(ctx.passive_view().clone(), vec![addr("127.0.0.3:9090"), addr("127.0.0.4:9090")]);
    // refused: the peer leaves and the walk goes on at the same place
    assert_eq!(ctx.neighbor_walk_answered(&w, false), Some(w));
    assert_eq!(ctx.passive_view().clone(), vec![addr("127.0.0.4:9090")]);
    assert_eq!(ctx.neighbor_walk_target(&w), Some(addr("127.0.0.4:9090")));
    // refused with nobody left after it: the walk ends
    assert_eq!(ctx.neighbor_walk_answered(&w, false), None);
    assert!(ctx.passive_view().is_empty());
    assert_eq!(ctx.active_view().clone(), vec![addr("127.0.0.2:9090")]);
}

#[test]
fn next_round_joins_only_when_alone() {
    let me = addr("1.1.1.1:1");
    let contact = addr("8.8.8.8:8");
    let mut ctx = build_node(me, &vec![me, contact]);
    let r = ctx.step_with(&HyParViewMessage::NextShuffleRound, 7);
    assert_eq!(r.sends, vec![Envelope { msg: WireMessage::Join(polaris::hyparview::messages::Join), dest: contact }]);
    ctx.step_with(&HyParViewMessage::JoinAckMessage(JoinAck, contact), 0);
    let r = ctx.step_with(&HyParViewMessage::NextShuffleRound, 7);
    assert!(r.sends.is_empty());
}

#[test]
fn select_random_picks_a_member() {
    let v = vec![addr("1.1.1.1:1"), addr("2.2.2.2:2")];
    for _ in 0..20 {
        let x = select_random(&v).unwrap();
        assert!(v.contains(x));
    }
    let empty: Vec<SocketAddr> = Vec::new();
    assert!(select_random(&empty).is_none());
}
