use polaris::hyparview::proto_messages::{Disconnect, ForwardJoin, Join, Neighbor, NeighborReject, Neighbor_Priority};

#[test]
fn join_sender_field() {
    let mut m = Join::new();
    assert!(!m.has_sender());
    assert!(!m.is_initialized());
    assert_eq!(m.get_sender(), "");
    m.set_sender("127.0.0.1:9090".to_string());
    assert!(m.has_sender());
    assert!(m.is_initialized());
    assert_eq!(m.get_sender(), "127.0.0.1:9090");
    m.mut_sender().push_str("1");
    assert_eq!(m.get_sender(), "127.0.0.1:90901");
    assert_eq!(m.take_sender(), "127.0.0.1:90901");
    assert!(!m.has_sender());
    assert_eq!(m.take_sender(), "");
    m.mut_sender().push_str("x");
    assert_eq!(m.get_sender(), "x");
    m.clear_sender();
    assert!(!m.has_sender());
    assert_eq!(m.get_sender(), "");
    // an unset field is set to the empty string before it is handed out
    m.mut_sender();
    assert!(m.has_sender());
    assert_eq!(m.get_sender(), "");
}

#[test]
fn forward_join_fields() {
    let mut m = ForwardJoin::new();
    assert_eq!(m.get_ttl(), 0);
    assert!(!m.has_ttl());
    m.set_sender("a".to_string());
    assert!(!m.is_initialized());
    m.set_ttl(-3);
    assert!(m.has_ttl());
    assert_eq!(m.get_ttl(), -3);
    assert!(m.is_initialized());
    m.clear_ttl();
    assert_eq!(m.get_ttl(), 0);
    assert_eq!(m.get_sender(), "a");
    m.clear_sender();
    assert!(!m.has_sender());
    assert_eq!(m.mut_sender().len(), 0);
    assert_eq!(m.take_sender(), "");
}

#[test]
fn neighbor_fields() {
    let mut m = Neighbor::new();
    assert_eq!(m.get_priority(), Neighbor_Priority::high);
    assert!(!m.has_priority());
    m.set_priority(Neighbor_Priority::low);
    assert_eq!(m.get_priority(), Neighbor_Priority::low);
    m.set_sender("s".to_string());
    assert!(m.is_initialized());
    m.clear_priority();
    assert!(!m.is_initialized());
    assert_eq!(m.get_sender(), "s");
    assert_eq!(m.mut_sender().as_str(), "s");
    assert_eq!(m.take_sender(), "s");
    m.clear_sender();
    assert!(!m.has_sender());
    assert_eq!(Neighbor_Priority::high.value(), 1);
    assert_eq!(Neighbor_Priority::low.value(), 2);
    assert_eq!(Neighbor_Priority::from_i32(2), Some(Neighbor_Priority::low));
    assert_eq!(Neighbor_Priority::from_i32(1), Some(Neighbor_Priority::high));
    assert_eq!(Neighbor_Priority::from_i32(0), None);
}

#[test]
fn disconnect_and_reject_fields() {
    let mut d = Disconnect::new();
    d.set_sender("d".to_string());
    assert!(d.is_initialized());
    assert_eq!(d.get_sender(), "d");
    d.mut_sender().push('!');
    assert_eq!(d.take_sender(), "d!");
    d.clear_sender();
    assert!(!d.has_sender());
    let mut r = NeighborReject::new();
    assert!(!r.is_initialized());
    r.set_sender("r".to_string());
    assert!(r.has_sender());
    assert_eq!(r.get_sender(), "r");
    r.mut_sender().clear();
    assert_eq!(r.get_sender(), "");
    assert!(r.has_sender());
    assert_eq!(r.take_sender(), "");
    r.clear_sender();
    assert!(!r.is_initialized());
}

#[test]
fn clear_unsets_every_field() {
    let mut f = ForwardJoin::new();
    f.set_sender("a".to_string());
    f.set_ttl(3);
    f.clear();
    assert!(!f.has_sender() && !f.has_ttl());
    let mut n = Neighbor::new();
    n.set_sender("b".to_string());
    n.set_priority(Neighbor_Priority::low);
    n.clear();
    assert!(!n.has_sender() && !n.has_priority());
    let mut j = Join::new();
    j.set_sender("c".to_string());
    j.clear();
    assert!(!j.has_sender());
    let mut d = Disconnect::new();
    d.set_sender("d".to_string());
    d.clear();
    assert!(!d.has_sender());
    let mut r = NeighborReject::new();
    r.set_sender("e".to_string());
    r.clear();
    assert!(!r.has_sender());
}

#[test]
fn has_sender_follows_last_call() {
    let mut m = Join::new();
    assert!(!m.has_sender());
    m.set_sender("a".to_string());
    m.clear_sender();
    m.mut_sender();
    assert!(m.has_sender() && m.is_initialized());
    m.take_sender();
    assert!(!m.has_sender() && !m.is_initialized());
    m.set_sender("b".to_string());
    assert!(m.has_sender());
}
