use polaris::config::Config;
use polaris::hyparview::messages::{
    Disconnect, ForwardJoin, HyParViewMessage, Join, JoinAck, NeighborRequest, NeighborResponse,
    Priority, Result as NeighborResult, WireMessage,
};
use polaris::hyparview::HyParViewContext;
use polaris::net::{Ipv4Addr, SocketAddr};
use polaris::shipper::{Courier, Shipper};

fn peer(i: u32) -> SocketAddr {
    SocketAddr::new(Ipv4Addr(10, 0, 0, (i % 12) as u8), 7000)
}

struct CoinShipper {
    state: u32,
}

impl Shipper for CoinShipper {
    fn ship(&mut self, _msg: &WireMessage, _dest: &SocketAddr) -> bool {
        self.state = self.state.wrapping_mul(1103515245).wrapping_add(12345);
        (self.state >> 16) % 3 == 0
    }
}

fn check_views(ctx: &HyParViewContext) {
    let c = ctx.config();
    let a = ctx.active_view();
    let p = ctx.passive_view();
    assert!(a.len() <= c.active_view_size as usize);
    assert!(p.len() <= c.passive_view_size as usize);
    assert!(!a.contains(&c.local_addr));
    assert!(!p.contains(&c.local_addr));
    for i in 0..a.len() {
        for j in (i + 1)..a.len() {
            assert_ne!(a[i], a[j]);
        }
    }
}

#[test]
fn views_stay_in_good_order() {
    let me = peer(0);
    let config = Config {
        local_addr: me,
        contact_nodes: vec![me, peer(1)],
        active_random_walk_length: 3,
        passive_random_walk_length: 2,
        active_view_size: 3,
        passive_view_size: 4,
        shuffle_period_seconds: 10,
        shuffle_active_view_count: 2,
        shuffle_passive_view_count: 2,
        shuffle_walk_length: 3,
    };
    let mut ctx = HyParViewContext::new(config);
    let mut courier = Courier::new(CoinShipper { state: 7 });
    let mut seed: u32 = 1;
    for _ in 0..3000 {
        seed = seed.wrapping_mul(69069).wrapping_add(1);
        let who = peer(seed >> 20);
        let ev = match (seed >> 8) % 9 {
            0 => HyParViewMessage::JoinMessage(Join, who),
            1 => HyParViewMessage::ForwardJoinMessage(ForwardJoin::new(&peer(seed >> 12), 3, 2, ((seed >> 4) % 4) as u8), who),
            2 => HyParViewMessage::JoinAckMessage(JoinAck, who),
            3 => HyParViewMessage::DisconnectMessage(Disconnect, who),
            4 => HyParViewMessage::NeighborRequestMessage(NeighborRequest::new(if seed % 2 == 0 { Priority::High } else { Priority::Low }), who),
            5 => HyParViewMessage::NeighborResponseMessage(NeighborResponse::new(if seed % 2 == 0 { NeighborResult::Accept } else { NeighborResult::Reject }), who),
            6 => HyParViewMessage::PeerDisconnect(who),
            7 => HyParViewMessage::NextShuffleRound,
            _ => HyParViewMessage::JoinBegin,
        };
        ctx.receive_event(ev, &mut courier);
        check_views(&ctx);
    }
}

#[test]
fn accepted_peer_is_active_and_not_passive() {
    let me = peer(0);
    let config = Config {
        local_addr: me,
        contact_nodes: vec![me],
        active_random_walk_length: 3,
        passive_random_walk_length: 2,
        active_view_size: 1,
        passive_view_size: 4,
        shuffle_period_seconds: 10,
        shuffle_active_view_count: 2,
        shuffle_passive_view_count: 2,
        shuffle_walk_length: 3,
    };
    let mut ctx = HyParViewContext::new(config);
    ctx.step_with(&HyParViewMessage::JoinAckMessage(JoinAck, peer(1)), 0);
    ctx.step_with(&HyParViewMessage::JoinAckMessage(JoinAck, peer(2)), 0);
    assert_eq!(ctx.passive_view().clone(), vec![peer(1)]);
    let r = ctx.step_with(&HyParViewMessage::NeighborResponseMessage(NeighborResponse::new(NeighborResult::Accept), peer(1)), 0);
    assert_eq!(ctx.active_view().clone(), vec![peer(1)]);
    assert_eq!(ctx.passive_view().clone(), vec![peer(2)]);
    assert_eq!(r.sends, vec![polaris::hyparview::Envelope { msg: WireMessage::Disconnect(Disconnect), dest: peer(2) }]);
}

fn check_apart(ctx: &HyParViewContext) {
    let a = ctx.active_view();
    let p = ctx.passive_view();
    for x in a.iter() {
        assert!(!p.contains(x));
    }
    for i in 0..p.len() {
        for j in (i + 1)..p.len() {
            assert_ne!(p[i], p[j]);
        }
    }
}

#[test]
fn views_stay_apart_without_forward_joins() {
    let me = peer(0);
    let config = Config {
        local_addr: me,
        contact_nodes: vec![me, peer(1)],
        active_random_walk_length: 3,
        passive_random_walk_length: 2,
        active_view_size: 3,
        passive_view_size: 4,
        shuffle_period_seconds: 10,
        shuffle_active_view_count: 2,
        shuffle_passive_view_count: 2,
        shuffle_walk_length: 3,
    };
    let mut ctx = HyParViewContext::new(config);
    let mut courier = Courier::new(CoinShipper { state: 11 });
    let mut seed: u32 = 5;
    for _ in 0..3000 {
        seed = seed.wrapping_mul(69069).wrapping_add(1);
        let who = peer(seed >> 20);
        let ev = match (seed >> 8) % 7 {
            0 => HyParViewMessage::JoinMessage(Join, who),
            1 => HyParViewMessage::JoinAckMessage(JoinAck, who),
            2 => HyParViewMessage::DisconnectMessage(Disconnect, who),
            3 => HyParViewMessage::NeighborRequestMessage(NeighborRequest::new(if seed % 2 == 0 { Priority::High } else { Priority::Low }), who),
            4 => HyParViewMessage::NeighborResponseMessage(NeighborResponse::new(if seed % 2 == 0 { NeighborResult::Accept } else { NeighborResult::Reject }), who),
            5 => HyParViewMessage::PeerDisconnect(who),
            _ => HyParViewMessage::NextShuffleRound,
        };
        ctx.receive_event(ev, &mut courier);
        check_views(&ctx);
        check_apart(&ctx);
    }
}

#[test]
fn forward_join_of_active_originator_overlaps_views() {
    let me = peer(0);
    let config = Config {
        local_addr: me,
        contact_nodes: vec![me],
        active_random_walk_length: 3,
        passive_random_walk_length: 2,
        active_view_size: 4,
        passive_view_size: 4,
        shuffle_period_seconds: 10,
        shuffle_active_view_count: 2,
        shuffle_passive_view_count: 2,
        shuffle_walk_length: 3,
    };
    let mut ctx = HyParViewContext::new(config);
    ctx.step_with(&HyParViewMessage::JoinAckMessage(JoinAck, peer(1)), 0);
    ctx.step_with(&HyParViewMessage::JoinAckMessage(JoinAck, peer(2)), 0);
    ctx.step_with(&HyParViewMessage::ForwardJoinMessage(ForwardJoin::new(&peer(1), 3, 2, 2), peer(2)), 0);
    assert!(ctx.active_view().contains(&peer(1)));
    assert!(ctx.passive_view().contains(&peer(1)));
}
