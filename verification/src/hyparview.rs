//! The HyParView membership protocol.
//!
//! A node keeps a small active view (the peers it exchanges messages with) and
//! a larger passive view (backups). Each received event changes the views and
//! yields the messages to send in answer.

pub mod messages;
pub mod proto_messages;

use vstd::prelude::*;

use crate::config::Config;
use crate::hyparview::messages::{
    Disconnect, EventView, ForwardJoin, HyParViewMessage, Join, JoinAck, NeighborRequest,
    NeighborResponse, Priority, Result, WireMessage,
};
use crate::net::SocketAddr;
use crate::random::random_usize;
use crate::shipper::{answers_of, envelopes_of, Courier, Shipper};

verus! {

/// A message to ship and the peer to ship it to.
#[derive(Clone, Debug, PartialEq, Eq)]
pub struct Envelope {
    pub msg: WireMessage,
    pub dest: SocketAddr,
}

/// Where a walk over the passive view, sending NEIGHBOR requests one peer at
/// a time until one is handed over, stands.
#[derive(Clone, Copy, Debug, PartialEq, Eq, Structural)]
pub struct NeighborWalk {
    /// Index in the passive view of the next peer to ask.
    pub next: usize,
    pub priority: Priority,
}

/// What one event asks of the caller: the messages to ship, in order, then
/// possibly a NEIGHBOR walk over the passive view.
pub struct Reaction {
    pub sends: Vec<Envelope>,
    pub walk: Option<NeighborWalk>,
}

/// What a NEIGHBOR walk shipped: its requests in order, and whether the last
/// was handed over.
pub struct WalkRun {
    pub requests: Vec<Envelope>,
    pub handed_over: bool,
}

/// The two views, as plain values.
pub struct Views {
    pub active: Seq<SocketAddr>,
    pub passive: Seq<SocketAddr>,
}

// ---------------------------------------------------------------------------
// The model
// ---------------------------------------------------------------------------

/// No address occurs twice in `s`.
pub open spec fn no_dups(s: Seq<SocketAddr>) -> bool {
    forall|i: int, j: int| 0 <= i < j < s.len() ==> s[i] != s[j]
}

/// The views of a node configured by `cfg` are in good order: the active view
/// holds no peer twice, neither view holds the node itself, and neither is
/// over its size.
pub open spec fn views_wf(cfg: Config, v: Views) -> bool {
    &&& no_dups(v.active)
    &&& v.active.len() <= cfg.active_view_size
    &&& v.passive.len() <= cfg.passive_view_size
    &&& !v.active.contains(cfg.local_addr)
    &&& !v.passive.contains(cfg.local_addr)
}

/// `s` without its oldest entries, so that at most `n` remain.
pub open spec fn keep_newest(s: Seq<SocketAddr>, n: int) -> Seq<SocketAddr> {
    if s.len() > n {
        s.subrange(s.len() - n, s.len() as int)
    } else {
        s
    }
}

/// `s` without the first occurrence of `x`.
pub open spec fn remove_first(s: Seq<SocketAddr>, x: SocketAddr) -> Seq<SocketAddr> {
    match s.index_of_first(x) {
        Some(i) => s.remove(i),
        None => s,
    }
}

/// The passive view after `peer` is offered to it: the node itself and peers
/// already there are ignored; otherwise the peer is appended and the oldest
/// entries dropped to keep the size.
pub open spec fn passive_with(cfg: Config, passive: Seq<SocketAddr>, peer: SocketAddr) -> Seq<
    SocketAddr,
> {
    if peer == cfg.local_addr || passive.contains(peer) {
        passive
    } else {
        keep_newest(passive.push(peer), cfg.passive_view_size as int)
    }
}

pub open spec fn disconnect_to(dest: SocketAddr) -> Envelope {
    Envelope { msg: WireMessage::Disconnect(Disconnect), dest }
}

pub open spec fn join_ack_to(dest: SocketAddr) -> Envelope {
    Envelope { msg: WireMessage::JoinAck(JoinAck), dest }
}

pub open spec fn neighbor_response_to(dest: SocketAddr, r: Result) -> Envelope {
    Envelope { msg: WireMessage::NeighborResponse(NeighborResponse { result: r }), dest }
}

/// Taking `peer` into the active view: the views after, and the DISCONNECTs
/// to send. When the active view overflows, its oldest peer moves to the
/// passive view and is told so. The peer leaves the passive view.
pub open spec fn spec_add_active(cfg: Config, v: Views, peer: SocketAddr) -> (Views, Seq<Envelope>) {
    if peer == cfg.local_addr {
        (v, seq![])
    } else if v.active.contains(peer) {
        (Views { active: v.active, passive: remove_first(v.passive, peer) }, seq![])
    } else {
        let grown = v.active.push(peer);
        if grown.len() > cfg.active_view_size {
            let evicted = grown[0];
            (
                Views {
                    active: grown.drop_first(),
                    passive: remove_first(passive_with(cfg, v.passive, evicted), peer),
                },
                seq![disconnect_to(evicted)],
            )
        } else {
            (Views { active: grown, passive: remove_first(v.passive, peer) }, seq![])
        }
    }
}

/// The contact nodes other than the node itself.
pub open spec fn other_contacts(cfg: Config) -> Seq<SocketAddr> {
    cfg.contact_nodes@.filter(excluding(cfg.local_addr, cfg.local_addr))
}

/// Holds of every address but `a` and `b`.
pub open spec fn excluding(a: SocketAddr, b: SocketAddr) -> spec_fn(SocketAddr) -> bool {
    |x: SocketAddr| x != a && x != b
}

/// JOIN: sent to one contact node other than the node itself, picked by `choice`.
pub open spec fn spec_join(cfg: Config, choice: usize) -> Seq<Envelope> {
    let others = other_contacts(cfg);
    if others.len() == 0 {
        seq![]
    } else {
        seq![
            Envelope {
                msg: WireMessage::Join(Join),
                dest: others[choice as int % others.len() as int],
            },
        ]
    }
}

/// A JOIN from `sender`. With an empty active view the sender is taken in and
/// acknowledged; otherwise a FORWARD_JOIN for it goes to every active peer.
pub open spec fn spec_handle_join(cfg: Config, v: Views, sender: SocketAddr) -> (Views, Seq<Envelope>) {
    if sender == cfg.local_addr {
        (v, seq![])
    } else if v.active.len() == 0 {
        let (v2, sends) = spec_add_active(cfg, v, sender);
        (v2, sends.push(join_ack_to(sender)))
    } else {
        let fj = ForwardJoin {
            originator: sender,
            arwl: cfg.active_random_walk_length,
            prwl: cfg.passive_random_walk_length,
            ttl: cfg.active_random_walk_length,
        };
        (v, v.active.map_values(|p: SocketAddr| Envelope { msg: WireMessage::ForwardJoin(fj), dest: p }))
    }
}

/// The time-to-live that a FORWARD_JOIN moves on with. A zero ttl wraps
/// around to 255; when the walk reaches the passive length at the node that
/// originated it, the ttl is kept.
pub open spec fn next_ttl(cfg: Config, msg: ForwardJoin) -> u8 {
    if msg.ttl == msg.prwl && msg.originator == cfg.local_addr {
        msg.ttl
    } else if msg.ttl == 0 {
        255
    } else {
        (msg.ttl - 1) as u8
    }
}

/// The active peers a FORWARD_JOIN may move on to: not its sender, not its originator.
pub open spec fn forward_candidates(v: Views, msg: ForwardJoin, sender: SocketAddr) -> Seq<SocketAddr> {
    v.active.filter(excluding(sender, msg.originator))
}

/// A FORWARD_JOIN from `sender`. The originator is taken into the active view
/// when this node has at most one active peer or the walk is over; otherwise
/// the walk goes on to a peer picked by `choice` (back to the originator when
/// there is none), and the originator enters the passive view at the passive
/// random walk length.
pub open spec fn spec_handle_forward_join(
    cfg: Config,
    v: Views,
    msg: ForwardJoin,
    sender: SocketAddr,
    choice: usize,
) -> (Views, Seq<Envelope>) {
    if (v.active.len() <= 1 || msg.ttl == 0) && msg.originator != cfg.local_addr {
        let (v2, sends) = spec_add_active(cfg, v, msg.originator);
        (v2, sends.push(join_ack_to(msg.originator)))
    } else {
        let passive = if msg.ttl == msg.prwl && msg.originator != cfg.local_addr {
            passive_with(cfg, v.passive, msg.originator)
        } else {
            v.passive
        };
        let fj = ForwardJoin {
            originator: msg.originator,
            arwl: msg.arwl,
            prwl: msg.prwl,
            ttl: next_ttl(cfg, msg),
        };
        let cands = forward_candidates(v, msg, sender);
        let dest = if cands.len() == 0 {
            msg.originator
        } else {
            cands[choice as int % cands.len() as int]
        };
        (
            Views { active: v.active, passive },
            seq![Envelope { msg: WireMessage::ForwardJoin(fj), dest }],
        )
    }
}

/// Where a NEIGHBOR walk starts: after a rejection by `last`, just past that
/// peer's place in the passive view (at the front when there is no rejecter
/// or it is not there). A walk that would start past the end is not taken,
/// unless the active view is empty, when it starts at the front.
pub open spec fn spec_begin_walk(v: Views, last: Option<SocketAddr>) -> Option<NeighborWalk> {
    let idx: int = match last {
        None => 0,
        Some(a) => match v.passive.index_of_first(a) {
            Some(i) => i + 1,
            None => 0,
        },
    };
    let priority = if v.active.len() == 0 {
        Priority::High
    } else {
        Priority::Low
    };
    if idx >= v.passive.len() {
        if v.active.len() == 0 {
            Some(NeighborWalk { next: 0, priority })
        } else {
            None
        }
    } else {
        Some(NeighborWalk { next: idx as usize, priority })
    }
}

/// A DISCONNECT from `sender`: an active sender leaves the active view and is
/// appended to the passive view unless it is there already; then the oldest
/// passive entries are dropped so that fewer than `passive_view_size` remain.
/// A NEIGHBOR walk from the front follows.
pub open spec fn spec_handle_disconnect(cfg: Config, v: Views, sender: SocketAddr) -> Views {
    if v.active.contains(sender) {
        let passive = if v.passive.contains(sender) {
            v.passive
        } else {
            v.passive.push(sender)
        };
        Views {
            active: remove_first(v.active, sender),
            passive: keep_newest(passive, cfg.passive_view_size - 1),
        }
    } else {
        v
    }
}

/// A NEIGHBOR request from `sender`: refused when it is of low priority and the
/// active view is full; otherwise the sender is taken into the active view.
pub open spec fn spec_handle_neighbor_request(
    cfg: Config,
    v: Views,
    msg: NeighborRequest,
    sender: SocketAddr,
) -> (Views, Seq<Envelope>) {
    if msg.priority == Priority::Low && v.active.len() == cfg.active_view_size {
        (v, seq![neighbor_response_to(sender, Result::Reject)])
    } else {
        let (v2, sends) = spec_add_active(cfg, v, sender);
        (v2, sends.push(neighbor_response_to(sender, Result::Accept)))
    }
}

/// A failed peer leaves the active view.
pub open spec fn spec_handle_peer_failure(v: Views, addr: SocketAddr) -> Views {
    Views { active: remove_first(v.active, addr), passive: v.passive }
}

/// One event: the views after it, the messages to ship, and the NEIGHBOR walk
/// to run after them. `choice` is the random number behind the picks of
/// JOIN and FORWARD_JOIN.
pub open spec fn spec_step(cfg: Config, v: Views, ev: EventView, choice: usize) -> (
    Views,
    Seq<Envelope>,
    Option<NeighborWalk>,
) {
    match ev {
        EventView::JoinBegin => (v, spec_join(cfg, choice), None),
        EventView::JoinMessage(_, s) => {
            let (v2, out) = spec_handle_join(cfg, v, s);
            (v2, out, None)
        },
        EventView::ForwardJoinMessage(m, s) => {
            let (v2, out) = spec_handle_forward_join(cfg, v, m, s, choice);
            (v2, out, None)
        },
        EventView::JoinAckMessage(_, s) => {
            let (v2, out) = spec_add_active(cfg, v, s);
            (v2, out, None)
        },
        EventView::DisconnectMessage(_, s) => {
            let v2 = spec_handle_disconnect(cfg, v, s);
            (v2, seq![], spec_begin_walk(v2, None))
        },
        EventView::NeighborRequestMessage(m, s) => {
            let (v2, out) = spec_handle_neighbor_request(cfg, v, m, s);
            (v2, out, None)
        },
        EventView::NeighborResponseMessage(m, s) => {
            if m.result == Result::Accept {
                let (v2, out) = spec_add_active(cfg, v, s);
                (v2, out, None)
            } else if v.active.len() < cfg.active_view_size {
                (v, seq![], spec_begin_walk(v, Some(s)))
            } else {
                (v, seq![], None)
            }
        },
        EventView::ShuffleMessage(_, _) => (v, seq![], None),
        EventView::ShuffleReplyMessage(_, _) => (v, seq![], None),
        EventView::NextShuffleRound => if v.active.len() == 0 {
            (v, spec_join(cfg, choice), None)
        } else {
            (v, seq![], None)
        },
        EventView::PeerDisconnect(a) => {
            let v2 = spec_handle_peer_failure(v, a);
            (v2, seq![], spec_begin_walk(v2, None))
        },
    }
}

/// An event can be handled without fault: a DISCONNECT from an active peer
/// needs a passive view of size at least one.
pub open spec fn event_ok(cfg: Config, v: Views, ev: EventView) -> bool {
    ev matches EventView::DisconnectMessage(_, s) ==> (cfg.passive_view_size > 0 || !v.active.contains(s))
}

/// The NEIGHBOR requests of a walk `w` over `passive` that asked `m` peers:
/// a request of the walk's priority to each passive peer in turn from the
/// walk's start.
pub open spec fn walk_requests(passive: Seq<SocketAddr>, w: NeighborWalk, m: nat) -> Seq<Envelope> {
    Seq::new(m, |i: int| neighbor_request_to(passive[w.next + i], w.priority))
}

pub open spec fn neighbor_request_to(dest: SocketAddr, p: Priority) -> Envelope {
    Envelope { msg: WireMessage::NeighborRequest(NeighborRequest { priority: p }), dest }
}

/// A walk over `passive` that asked `m` peers is one the walk can make: none
/// when it starts past the end; otherwise it stops at the first request handed
/// over (`handed`), or when every peer from its start has been asked.
pub open spec fn walk_run_ok(passive: Seq<SocketAddr>, w: NeighborWalk, m: nat, handed: bool) -> bool {
    if w.next >= passive.len() {
        m == 0 && !handed
    } else {
        &&& w.next + m <= passive.len()
        &&& handed ==> m >= 1
        &&& !handed ==> w.next + m == passive.len()
    }
}

/// The passive view after such a walk: every peer asked whose request was not
/// handed over has left it; the others stay in order.
pub open spec fn walk_passive_after(passive: Seq<SocketAddr>, w: NeighborWalk, m: nat, handed: bool) -> Seq<
    SocketAddr,
> {
    if w.next >= passive.len() {
        passive
    } else {
        let failed: int = if handed {
            m - 1
        } else {
            m as int
        };
        passive.subrange(0, w.next as int) + passive.subrange(w.next + failed, passive.len() as int)
    }
}

/// The answers of a NEIGHBOR walk: every request refused but the last, whose
/// answer is `handed`; none at all, and not handed, for a walk that asked
/// nobody.
pub open spec fn ends_walk(answers: Seq<bool>, handed: bool) -> bool {
    &&& forall|i: int| 0 <= i < answers.len() - 1 ==> !#[trigger] answers[i]
    &&& if answers.len() == 0 {
        !handed
    } else {
        answers.last() == handed
    }
}

/// Handling `ev` from the views `v` gave the views `after` and shipped
/// `shipped`, whose answers were `answers`: the event's messages, in order,
/// then the requests of its NEIGHBOR walk, if any, which asked `m` peers and
/// stopped as those answers say; `choice` is the random number behind the
/// picks of JOIN and FORWARD_JOIN.
pub open spec fn handled_as(
    cfg: Config,
    v: Views,
    ev: EventView,
    choice: usize,
    m: nat,
    handed: bool,
    after: Views,
    shipped: Seq<Envelope>,
    answers: Seq<bool>,
) -> bool {
    let (v2, sends, walk) = spec_step(cfg, v, ev, choice);
    &&& after.active == v2.active
    &&& match walk {
        None => after.passive == v2.passive && shipped == sends,
        Some(w) => {
            &&& walk_run_ok(v2.passive, w, m, handed)
            &&& after.passive == walk_passive_after(v2.passive, w, m, handed)
            &&& shipped == sends + walk_requests(v2.passive, w, m)
            &&& ends_walk(answers.skip(sends.len() as int), handed)
        },
    }
}

/// The element at `choice` modulo the length, or `None` for an empty vector.
pub fn pick<T>(v: &Vec<T>, choice: usize) -> (r: Option<&T>)
    ensures
        v@.len() == 0 ==> r is None,
        v@.len() > 0 ==> r == Some(&v@[choice as int % v@.len() as int]),
{
    if v.len() == 0 {
        None
    } else {
        Some(&v[choice % v.len()])
    }
}

/// An element drawn at random, or `None` for an empty vector.
pub fn select_random<T>(v: &Vec<T>) -> (r: Option<&T>)
    ensures
        v@.len() == 0 <==> r is None,
        r matches Some(x) ==> v@.contains(*x),
{
    let choice = random_usize();
    let r = pick(v, choice);
    proof {
        if v@.len() > 0 {
            let i = choice as int % v@.len() as int;
            assert(v@[i] == v@[i]);
        }
    }
    r
}

// ---------------------------------------------------------------------------
// Small operations on views
// ---------------------------------------------------------------------------

/// The index of the first occurrence of `target` in `nodes`.
pub fn index_of(nodes: &Vec<SocketAddr>, target: &SocketAddr) -> (r: Option<usize>)
    ensures
        match r {
            Some(i) => nodes@.index_of_first(*target) == Some(i as int),
            None => nodes@.index_of_first(*target) == None::<int>,
        },
{
    let mut i: usize = 0;
    while i < nodes.len()
        invariant
            i <= nodes@.len(),
            forall|j: int| 0 <= j < i ==> nodes@[j] != *target,
        decreases nodes@.len() - i,
    {
        if nodes[i] == *target {
            proof {
                nodes@.index_of_first_ensures(*target);
            }
            return Some(i);
        }
        i = i + 1;
    }
    proof {
        nodes@.index_of_first_ensures(*target);
    }
    None
}

/// Whether `target` occurs in `nodes`.
pub fn contains(nodes: &Vec<SocketAddr>, target: &SocketAddr) -> (r: bool)
    ensures
        r == nodes@.contains(*target),
{
    let idx = index_of(nodes, target);
    proof {
        nodes@.index_of_first_ensures(*target);
    }
    idx.is_some()
}

/// Drops the oldest entries of `v` until at most `n` remain.
fn keep_newest_in(v: &mut Vec<SocketAddr>, n: usize)
    ensures
        final(v)@ == keep_newest(old(v)@, n as int),
{
    let ghost start = v@;
    while v.len() > n
        invariant
            v@ == start.subrange(start.len() - v@.len(), start.len() as int),
            v@.len() <= start.len(),
            start.len() > n ==> v@.len() >= n,
            start.len() <= n ==> v@ == start,
        decreases v@.len(),
    {
        v.remove(0);
    }
}

/// Removes the first occurrence of `x` from `v`.
fn remove_first_in(v: &mut Vec<SocketAddr>, x: &SocketAddr)
    ensures
        final(v)@ == remove_first(old(v)@, *x),
{
    proof {
        v@.index_of_first_ensures(*x);
    }
    match index_of(v, x) {
        Some(i) => {
            v.remove(i);
        },
        None => {},
    }
}

/// Offers `peer` to the passive view: see `passive_with`.
fn add_to_passive_view(cfg: &Config, passive: &mut Vec<SocketAddr>, peer: &SocketAddr)
    ensures
        final(passive)@ == passive_with(*cfg, old(passive)@, *peer),
{
    if cfg.local_addr == *peer || contains(passive, peer) {
        return;
    }
    passive.push(*peer);
    keep_newest_in(passive, cfg.passive_view_size as usize);
}

proof fn lemma_no_dups_push(s: Seq<SocketAddr>, x: SocketAddr)
    requires
        no_dups(s),
        !s.contains(x),
    ensures
        no_dups(s.push(x)),
{
    assert forall|i: int, j: int| 0 <= i < j < s.push(x).len() implies s.push(x)[i] != s.push(x)[j] by {
        if j == s.len() {
            assert(s[i] == s.push(x)[i]);
        }
    }
}

proof fn lemma_remove_keeps(s: Seq<SocketAddr>, i: int, y: SocketAddr)
    requires
        0 <= i < s.len(),
        !s.contains(y),
    ensures
        !s.remove(i).contains(y),
        no_dups(s) ==> no_dups(s.remove(i)),
{
    assert forall|k: int| 0 <= k < s.remove(i).len() implies s.remove(i)[k] != y by {
        if k < i {
            assert(s.remove(i)[k] == s[k]);
        } else {
            assert(s.remove(i)[k] == s[k + 1]);
        }
    }
    if no_dups(s) {
        let r = s.remove(i);
        assert forall|a: int, b: int| 0 <= a < b < r.len() implies r[a] != r[b] by {
            let a2 = if a < i { a } else { a + 1 };
            let b2 = if b < i { b } else { b + 1 };
            assert(r[a] == s[a2] && r[b] == s[b2]);
        }
    }
}

proof fn lemma_remove_first_keeps(s: Seq<SocketAddr>, x: SocketAddr, y: SocketAddr)
    requires
        !s.contains(y),
    ensures
        !remove_first(s, x).contains(y),
        no_dups(s) ==> no_dups(remove_first(s, x)),
        remove_first(s, x).len() <= s.len(),
{
    s.index_of_first_ensures(x);
    match s.index_of_first(x) {
        Some(i) => lemma_remove_keeps(s, i, y),
        None => {},
    }
}

proof fn lemma_keep_newest_keeps(s: Seq<SocketAddr>, n: int, y: SocketAddr)
    requires
        !s.contains(y),
        n >= 0,
    ensures
        !keep_newest(s, n).contains(y),
        keep_newest(s, n).len() <= n || keep_newest(s, n) == s,
{
    if s.len() > n {
        let r = s.subrange(s.len() - n, s.len() as int);
        assert forall|k: int| 0 <= k < r.len() implies r[k] != y by {
            assert(r[k] == s[s.len() - n + k]);
        }
    }
}

proof fn lemma_passive_with_wf(cfg: Config, p: Seq<SocketAddr>, peer: SocketAddr)
    requires
        p.len() <= cfg.passive_view_size,
        !p.contains(cfg.local_addr),
    ensures
        passive_with(cfg, p, peer).len() <= cfg.passive_view_size,
        !passive_with(cfg, p, peer).contains(cfg.local_addr),
{
    if !(peer == cfg.local_addr || p.contains(peer)) {
        assert(!p.push(peer).contains(cfg.local_addr)) by {
            assert forall|k: int| 0 <= k < p.push(peer).len() implies p.push(peer)[k]
                != cfg.local_addr by {
                if k < p.len() {
                    assert(p.push(peer)[k] == p[k]);
                }
            }
        }
        lemma_keep_newest_keeps(p.push(peer), cfg.passive_view_size as int, cfg.local_addr);
    }
}

/// Taking a peer into the active view keeps the views in good order.
pub proof fn lemma_add_active_wf(cfg: Config, v: Views, peer: SocketAddr)
    requires
        views_wf(cfg, v),
    ensures
        views_wf(cfg, spec_add_active(cfg, v, peer).0),
{
    let (v2, _) = spec_add_active(cfg, v, peer);
    if peer == cfg.local_addr {
    } else if v.active.contains(peer) {
        lemma_remove_first_keeps(v.passive, peer, cfg.local_addr);
    } else {
        let grown = v.active.push(peer);
        lemma_no_dups_push(v.active, peer);
        assert(!grown.contains(cfg.local_addr)) by {
            assert forall|k: int| 0 <= k < grown.len() implies grown[k] != cfg.local_addr by {
                if k < v.active.len() {
                    assert(grown[k] == v.active[k]);
                }
            }
        }
        if grown.len() > cfg.active_view_size {
            lemma_remove_keeps(grown, 0, cfg.local_addr);
            assert(grown.remove(0) =~= grown.drop_first());
            lemma_passive_with_wf(cfg, v.passive, grown[0]);
            lemma_remove_first_keeps(passive_with(cfg, v.passive, grown[0]), peer, cfg.local_addr);
        } else {
            lemma_remove_first_keeps(v.passive, peer, cfg.local_addr);
        }
    }
}

// ---------------------------------------------------------------------------
// The node
// ---------------------------------------------------------------------------

/// The state of one HyParView node.
pub struct HyParViewContext {
    config: Config,
    active_view: Vec<SocketAddr>,
    passive_view: Vec<SocketAddr>,
}

impl HyParViewContext {
    pub closed spec fn conf(&self) -> Config {
        self.config
    }

    pub closed spec fn active(&self) -> Seq<SocketAddr> {
        self.active_view@
    }

    pub closed spec fn passive(&self) -> Seq<SocketAddr> {
        self.passive_view@
    }

    pub open spec fn views(&self) -> Views {
        Views { active: self.active(), passive: self.passive() }
    }

    /// The node's views are in good order (see `views_wf`).
    pub open spec fn wf(&self) -> bool {
        views_wf(self.conf(), self.views())
    }

    /// A node with both views empty.
    pub fn new(config: Config) -> (r: HyParViewContext)
        ensures
            r.conf() == config,
            r.active() == Seq::<SocketAddr>::empty(),
            r.passive() == Seq::<SocketAddr>::empty(),
            r.wf(),
    {
        let active_view: Vec<SocketAddr> = Vec::new();
        let passive_view: Vec<SocketAddr> = Vec::new();
        HyParViewContext { config, active_view, passive_view }
    }

    /// The node's configuration.
    pub fn config(&self) -> (r: &Config)
        ensures
            *r == self.conf(),
    {
        &self.config
    }

    /// The peers the node exchanges messages with, oldest first.
    pub fn active_view(&self) -> (r: &Vec<SocketAddr>)
        ensures
            r@ == self.active(),
    {
        &self.active_view
    }

    /// The backup peers, oldest first.
    pub fn passive_view(&self) -> (r: &Vec<SocketAddr>)
        ensures
            r@ == self.passive(),
    {
        &self.passive_view
    }

    /// Takes `peer` into the active view; returns the DISCONNECTs to send.
    fn add_to_active_view(&mut self, peer: &SocketAddr) -> (sends: Vec<Envelope>)
        requires
            old(self).wf(),
        ensures
            final(self).conf() == old(self).conf(),
            (final(self).views(), sends@) == spec_add_active(old(self).conf(), old(self).views(), *peer),
            final(self).wf(),
    {
        proof {
            lemma_add_active_wf(self.config, self.views(), *peer);
        }
        let mut sends: Vec<Envelope> = Vec::new();
        if self.config.local_addr == *peer {
            return sends;
        }
        if !contains(&self.active_view, peer) {
            let ghost v0 = self.views();
            self.active_view.push(*peer);
            let ghost grown = self.active_view@;
            while self.active_view.len() > self.config.active_view_size as usize
                invariant
                    self.config == old(self).config,
                    grown == v0.active.push(*peer),
                    v0.active.len() <= self.config.active_view_size,
                    (self.active_view@ == grown && self.passive_view@ == v0.passive && sends@
                        == Seq::<Envelope>::empty()) || (grown.len() > self.config.active_view_size
                        && self.active_view@ == grown.drop_first() && self.passive_view@
                        == passive_with(self.config, v0.passive, grown[0]) && sends@ == seq![
                        disconnect_to(grown[0]),
                    ]),
                decreases self.active_view@.len(),
            {
                let removed = self.active_view.remove(0);
                add_to_passive_view(&self.config, &mut self.passive_view, &removed);
                sends.push(Envelope { msg: WireMessage::Disconnect(Disconnect::new()), dest: removed });
                assert(self.active_view@ =~= grown.drop_first());
            }
        }
        remove_first_in(&mut self.passive_view, peer);
        sends
    }

    /// JOIN, to one contact node other than this one, picked by `choice`.
    pub fn join_with(&self, choice: usize) -> (sends: Vec<Envelope>)
        ensures
            sends@ == spec_join(self.conf(), choice),
    {
        let others = filter_out(&self.config.contact_nodes, &self.config.local_addr, &self.config.local_addr);
        let mut sends: Vec<Envelope> = Vec::new();
        match pick(&others, choice) {
            Some(node) => {
                sends.push(Envelope { msg: WireMessage::Join(Join::new()), dest: *node });
                assert(sends@ =~= spec_join(self.conf(), choice));
            },
            None => {
                assert(sends@ =~= spec_join(self.conf(), choice));
            },
        }
        sends
    }

    /// JOIN, to one contact node other than this one, picked at random; nothing
    /// when there is no such contact node.
    pub fn join(&self) -> (sends: Vec<Envelope>)
        ensures
            exists|c: usize| sends@ == spec_join(self.conf(), c),
            sends@.len() == 0 <==> other_contacts(self.conf()).len() == 0,
            forall|i: int| 0 <= i < sends@.len() ==> sends@[i].msg == WireMessage::Join(Join) &&
                other_contacts(self.conf()).contains(#[trigger] sends@[i].dest),
    {
        let c = random_usize();
        let sends = self.join_with(c);
        proof {
            let others = other_contacts(self.conf());
            if others.len() > 0 {
                let k = c as int % others.len() as int;
                assert(sends@[0].dest == others[k]);
            }
        }
        sends
    }

    /// A JOIN from `sender` (see `spec_handle_join`).
    fn handle_join(&mut self, sender: &SocketAddr) -> (sends: Vec<Envelope>)
        requires
            old(self).wf(),
        ensures
            final(self).conf() == old(self).conf(),
            (final(self).views(), sends@) == spec_handle_join(old(self).conf(), old(self).views(), *sender),
            final(self).wf(),
    {
        if *sender == self.config.local_addr {
            return Vec::new();
        }
        let forward_join = ForwardJoin::new(
            sender,
            self.config.active_random_walk_length,
            self.config.passive_random_walk_length,
            self.config.active_random_walk_length,
        );
        if self.active_view.len() == 0 {
            let mut sends = self.add_to_active_view(sender);
            sends.push(Envelope { msg: WireMessage::JoinAck(JoinAck::new()), dest: *sender });
            sends
        } else {
            let mut sends: Vec<Envelope> = Vec::new();
            let ghost f = |p: SocketAddr| Envelope { msg: WireMessage::ForwardJoin(forward_join), dest: p };
            let mut i: usize = 0;
            while i < self.active_view.len()
                invariant
                    i <= self.active_view@.len(),
                    sends@ == self.active_view@.take(i as int).map_values(f),
                    f == (|p: SocketAddr| Envelope { msg: WireMessage::ForwardJoin(forward_join), dest: p }),
                decreases self.active_view@.len() - i,
            {
                sends.push(Envelope { msg: WireMessage::ForwardJoin(forward_join), dest: self.active_view[i] });
                assert(sends@ =~= self.active_view@.take(i + 1).map_values(f));
                i = i + 1;
            }
            assert(self.active_view@.take(i as int) =~= self.active_view@);
            sends
        }
    }

    /// A FORWARD_JOIN from `sender`; `choice` picks the peer it moves on to
    /// (see `spec_handle_forward_join`).
    fn handle_forward_join(&mut self, msg: &ForwardJoin, sender: &SocketAddr, choice: usize) -> (sends: Vec<Envelope>)
        requires
            old(self).wf(),
        ensures
            final(self).conf() == old(self).conf(),
            (final(self).views(), sends@) == spec_handle_forward_join(
                old(self).conf(),
                old(self).views(),
                *msg,
                *sender,
                choice,
            ),
            final(self).wf(),
    {
        if (self.active_view.len() <= 1 || msg.ttl == 0) && msg.originator != self.config.local_addr {
            let mut sends = self.add_to_active_view(&msg.originator);
            sends.push(Envelope { msg: WireMessage::JoinAck(JoinAck::new()), dest: msg.originator });
            return sends;
        }
        let mut ttl: u8 = if msg.ttl == 0 { 255 } else { msg.ttl - 1 };
        if msg.ttl == msg.prwl {
            if msg.originator != self.config.local_addr {
                proof {
                    lemma_passive_with_wf(self.config, self.passive_view@, msg.originator);
                }
                add_to_passive_view(&self.config, &mut self.passive_view, &msg.originator);
            } else {
                // the originator may then enter the passive view of another node
                ttl = msg.ttl;
            }
        }
        let forward_join = ForwardJoin::new(&msg.originator, msg.arwl, msg.prwl, ttl);
        let candidates = filter_out(&self.active_view, sender, &msg.originator);
        let peer = match pick(&candidates, choice) {
            Some(p) => *p,
            None => msg.originator,
        };
        let mut sends: Vec<Envelope> = Vec::new();
        sends.push(Envelope { msg: WireMessage::ForwardJoin(forward_join), dest: peer });
        assert(sends@ =~= spec_handle_forward_join(old(self).conf(), old(self).views(), *msg, *sender, choice).1);
        sends
    }

    /// A JOIN_ACK from `sender`: the sender is taken into the active view.
    fn handle_join_ack(&mut self, sender: &SocketAddr) -> (sends: Vec<Envelope>)
        requires
            old(self).wf(),
        ensures
            final(self).conf() == old(self).conf(),
            (final(self).views(), sends@) == spec_add_active(old(self).conf(), old(self).views(), *sender),
            final(self).wf(),
    {
        self.add_to_active_view(sender)
    }

    /// A DISCONNECT from `sender` (see `spec_handle_disconnect`); returns the
    /// NEIGHBOR walk to run next.
    fn handle_disconnect(&mut self, sender: &SocketAddr) -> (walk: Option<NeighborWalk>)
        requires
            old(self).wf(),
            old(self).conf().passive_view_size > 0 || !old(self).active().contains(*sender),
        ensures
            final(self).conf() == old(self).conf(),
            final(self).views() == spec_handle_disconnect(old(self).conf(), old(self).views(), *sender),
            walk == spec_begin_walk(final(self).views(), None),
            final(self).wf(),
    {
        let ghost v0 = self.views();
        match index_of(&self.active_view, sender) {
            Some(idx) => {
                proof {
                    v0.active.index_of_first_ensures(*sender);
                    lemma_remove_first_keeps(v0.active, *sender, self.config.local_addr);
                }
                assert(v0.active[idx as int] == *sender);
                self.active_view.remove(idx);
                if !contains(&self.passive_view, sender) {
                    self.passive_view.push(*sender);
                }
                proof {
                    let p1 = self.passive_view@;
                    assert(!p1.contains(self.config.local_addr)) by {
                        assert forall|k: int| 0 <= k < p1.len() implies p1[k] != self.config.local_addr by {
                            if k < v0.passive.len() {
                                assert(p1[k] == v0.passive[k]);
                            }
                        }
                    }
                    lemma_keep_newest_keeps(p1, self.config.passive_view_size - 1, self.config.local_addr);
                }
                keep_newest_in(&mut self.passive_view, (self.config.passive_view_size - 1) as usize);
            },
            None => {
                proof {
                    v0.active.index_of_first_ensures(*sender);
                }
            },
        }
        self.begin_neighbor_walk(None)
    }

    /// Where a NEIGHBOR walk starts (see `spec_begin_walk`), or `None` when none is taken.
    pub fn begin_neighbor_walk(&self, last_addr: Option<&SocketAddr>) -> (walk: Option<NeighborWalk>)
        ensures
            walk == spec_begin_walk(self.views(), match last_addr {
                Some(a) => Some(*a),
                None => None,
            }),
    {
        let _plen = self.passive_view.len();
        let mut idx: usize = match last_addr {
            None => 0,
            Some(addr) => match index_of(&self.passive_view, addr) {
                Some(i) => {
                    proof {
                        self.passive_view@.index_of_first_ensures(*addr);
                    }
                    i + 1
                },
                None => 0,
            },
        };
        if idx >= self.passive_view.len() {
            if self.active_view.len() == 0 {
                idx = 0;
            } else {
                return None;
            }
        }
        let priority = if self.active_view.len() == 0 {
            Priority::High
        } else {
            Priority::Low
        };
        Some(NeighborWalk { next: idx, priority })
    }

    /// A NEIGHBOR request from `sender` (see `spec_handle_neighbor_request`).
    fn handle_neighbor_request(&mut self, msg: &NeighborRequest, sender: &SocketAddr) -> (sends: Vec<Envelope>)
        requires
            old(self).wf(),
        ensures
            final(self).conf() == old(self).conf(),
            (final(self).views(), sends@) == spec_handle_neighbor_request(
                old(self).conf(),
                old(self).views(),
                *msg,
                *sender,
            ),
            final(self).wf(),
    {
        if msg.priority == Priority::Low && self.active_view.len() == self.config.active_view_size as usize {
            let mut sends: Vec<Envelope> = Vec::new();
            sends.push(Envelope { msg: WireMessage::NeighborResponse(NeighborResponse::new(Result::Reject)), dest: *sender });
            assert(sends@ =~= seq![neighbor_response_to(*sender, Result::Reject)]);
            return sends;
        }
        let mut sends = self.add_to_active_view(sender);
        sends.push(Envelope { msg: WireMessage::NeighborResponse(NeighborResponse::new(Result::Accept)), dest: *sender });
        sends
    }

    /// A peer that could not be reached leaves the active view; returns the
    /// NEIGHBOR walk to run next.
    fn handle_peer_failure(&mut self, addr: &SocketAddr) -> (walk: Option<NeighborWalk>)
        requires
            old(self).wf(),
        ensures
            final(self).conf() == old(self).conf(),
            final(self).views() == spec_handle_peer_failure(old(self).views(), *addr),
            walk == spec_begin_walk(final(self).views(), None),
            final(self).wf(),
    {
        proof {
            lemma_remove_first_keeps(self.active_view@, *addr, self.config.local_addr);
        }
        remove_first_in(&mut self.active_view, addr);
        self.begin_neighbor_walk(None)
    }

    /// Handles one event; `choice` is the random number behind the picks of
    /// JOIN and FORWARD_JOIN. SHUFFLE and SHUFFLE reply messages, and the
    /// shuffle of a round with active peers, change nothing and send nothing.
    pub fn step_with(&mut self, event: &HyParViewMessage, choice: usize) -> (r: Reaction)
        requires
            old(self).wf(),
            event_ok(old(self).conf(), old(self).views(), event@),
        ensures
            final(self).conf() == old(self).conf(),
            (final(self).views(), r.sends@, r.walk) == spec_step(
                old(self).conf(),
                old(self).views(),
                event@,
                choice,
            ),
            final(self).wf(),
    {
        match event {
            HyParViewMessage::JoinBegin => Reaction { sends: self.join_with(choice), walk: None },
            HyParViewMessage::JoinMessage(_, addr) => Reaction { sends: self.handle_join(addr), walk: None },
            HyParViewMessage::ForwardJoinMessage(msg, addr) => Reaction {
                sends: self.handle_forward_join(msg, addr, choice),
                walk: None,
            },
            HyParViewMessage::JoinAckMessage(_, addr) => Reaction {
                sends: self.handle_join_ack(addr),
                walk: None,
            },
            HyParViewMessage::DisconnectMessage(_, addr) => {
                let walk = self.handle_disconnect(addr);
                Reaction { sends: Vec::new(), walk }
            },
            HyParViewMessage::NeighborRequestMessage(msg, addr) => Reaction {
                sends: self.handle_neighbor_request(msg, addr),
                walk: None,
            },
            HyParViewMessage::NeighborResponseMessage(msg, addr) => {
                match msg.result {
                    Result::Accept => Reaction { sends: self.add_to_active_view(addr), walk: None },
                    Result::Reject => {
                        // the active view may have filled up since the request went out
                        if self.active_view.len() < self.config.active_view_size as usize {
                            let walk = self.begin_neighbor_walk(Some(addr));
                            Reaction { sends: Vec::new(), walk }
                        } else {
                            Reaction { sends: Vec::new(), walk: None }
                        }
                    },
                }
            },
            HyParViewMessage::ShuffleMessage(_, _) => Reaction { sends: Vec::new(), walk: None },
            HyParViewMessage::ShuffleReplyMessage(_, _) => Reaction { sends: Vec::new(), walk: None },
            HyParViewMessage::NextShuffleRound => {
                if self.active_view.len() == 0 {
                    Reaction { sends: self.join_with(choice), walk: None }
                } else {
                    Reaction { sends: Vec::new(), walk: None }
                }
            },
            HyParViewMessage::PeerDisconnect(addr) => {
                let walk = self.handle_peer_failure(addr);
                Reaction { sends: Vec::new(), walk }
            },
        }
    }

    /// Handles one event, drawing the random number behind the picks of JOIN
    /// and FORWARD_JOIN (see `step_with`).
    pub fn step(&mut self, event: &HyParViewMessage) -> (r: Reaction)
        requires
            old(self).wf(),
            event_ok(old(self).conf(), old(self).views(), event@),
        ensures
            final(self).conf() == old(self).conf(),
            exists|c: usize|
                (final(self).views(), r.sends@, r.walk) == spec_step(
                    old(self).conf(),
                    old(self).views(),
                    event@,
                    c,
                ),
            final(self).wf(),
    {
        let c = random_usize();
        self.step_with(event, c)
    }

    /// The peer that a NEIGHBOR walk asks next, or `None` once it has run past
    /// the passive view.
    pub fn neighbor_walk_target(&self, walk: &NeighborWalk) -> (r: Option<SocketAddr>)
        ensures
            walk.next < self.passive().len() ==> r == Some(self.passive()[walk.next as int]),
            walk.next >= self.passive().len() ==> r is None,
    {
        if walk.next < self.passive_view.len() {
            Some(self.passive_view[walk.next])
        } else {
            None
        }
    }

    /// What a NEIGHBOR walk does with the answer for the peer it just asked:
    /// a request handed over ends the walk and leaves the views alone; a
    /// refused one takes that peer out of the passive view, and the walk goes
    /// on at the same place, now holding the next peer, while there is one.
    pub fn neighbor_walk_answered(&mut self, walk: &NeighborWalk, delivered: bool) -> (next: Option<
        NeighborWalk,
    >)
        requires
            old(self).wf(),
            walk.next < old(self).passive().len(),
        ensures
            final(self).conf() == old(self).conf(),
            final(self).active() == old(self).active(),
            final(self).wf(),
            delivered ==> next is None && final(self).passive() == old(self).passive(),
            !delivered ==> final(self).passive() == old(self).passive().remove(walk.next as int),
            !delivered ==> next == if walk.next < final(self).passive().len() {
                Some(*walk)
            } else {
                None::<NeighborWalk>
            },
    {
        if delivered {
            return None;
        }
        proof {
            lemma_remove_keeps(self.passive_view@, walk.next as int, self.config.local_addr);
        }
        self.passive_view.remove(walk.next);
        if walk.next < self.passive_view.len() {
            Some(*walk)
        } else {
            None
        }
    }

    /// Runs a NEIGHBOR walk: sends a NEIGHBOR request of the walk's priority
    /// to each passive peer in turn from the walk's start, until one is handed
    /// over; each peer whose request was refused leaves the passive view.
    /// Returns the requests shipped, in order, and whether the last was
    /// handed over; the courier's record holds each request with its answer.
    pub fn run_neighbor_walk<S: Shipper>(&mut self, walk: NeighborWalk, courier: &mut Courier<S>) -> (r: WalkRun)
        requires
            old(self).wf(),
        ensures
            final(self).conf() == old(self).conf(),
            final(self).active() == old(self).active(),
            walk_run_ok(old(self).passive(), walk, r.requests@.len(), r.handed_over),
            r.requests@ == walk_requests(old(self).passive(), walk, r.requests@.len()),
            final(self).passive() == walk_passive_after(
                old(self).passive(),
                walk,
                r.requests@.len(),
                r.handed_over,
            ),
            final(self).wf(),
            final(courier).handed().len() == old(courier).handed().len() + r.requests@.len(),
            final(courier).handed().subrange(0, old(courier).handed().len() as int) == old(courier).handed(),
            envelopes_of(final(courier).handed().skip(old(courier).handed().len() as int)) == r.requests@,
            ends_walk(answers_of(final(courier).handed().skip(old(courier).handed().len() as int)), r.handed_over),
    {
        let ghost p0 = self.passive();
        let ghost log0 = courier.handed();
        let ghost n0 = log0.len() as int;
        let mut requests: Vec<Envelope> = Vec::new();
        let mut handed_over = false;
        let mut current: Option<NeighborWalk> = if walk.next < self.passive_view.len() {
            Some(walk)
        } else {
            None
        };
        proof {
            assert(courier.handed().skip(n0) =~= Seq::<(Envelope, bool)>::empty());
            assert(envelopes_of(courier.handed().skip(n0)) =~= requests@);
            assert(answers_of(courier.handed().skip(n0)) =~= Seq::<bool>::empty());
            assert(courier.handed().subrange(0, n0) =~= log0);
            assert(requests@ =~= walk_requests(p0, walk, 0));
            if walk.next < p0.len() {
                assert(p0.subrange(0, walk.next as int) + p0.subrange(walk.next as int, p0.len() as int) =~= p0);
            }
        }
        loop
            invariant
                self.wf(),
                self.conf() == old(self).conf(),
                self.active() == old(self).active(),
                p0 == old(self).passive(),
                log0 == old(courier).handed(),
                n0 == log0.len(),
                requests@.len() <= p0.len(),
                requests@ == walk_requests(p0, walk, requests@.len()),
                courier.handed().len() == n0 + requests@.len(),
                courier.handed().subrange(0, n0) == log0,
                envelopes_of(courier.handed().skip(n0)) == requests@,
                current is Some ==> {
                    &&& current == Some(walk)
                    &&& !handed_over
                    &&& walk.next + requests@.len() < p0.len()
                    &&& forall|i: int|
                        0 <= i < requests@.len() ==> !#[trigger] answers_of(courier.handed().skip(n0))[i]
                    &&& self.passive() == p0.subrange(0, walk.next as int) + p0.subrange(
                        walk.next + requests@.len(),
                        p0.len() as int,
                    )
                },
                current is None ==> {
                    &&& walk_run_ok(p0, walk, requests@.len(), handed_over)
                    &&& self.passive() == walk_passive_after(p0, walk, requests@.len(), handed_over)
                    &&& ends_walk(answers_of(courier.handed().skip(n0)), handed_over)
                },
            ensures
                self.wf(),
                self.conf() == old(self).conf(),
                self.active() == old(self).active(),
                requests@ == walk_requests(p0, walk, requests@.len()),
                courier.handed().len() == n0 + requests@.len(),
                courier.handed().subrange(0, n0) == log0,
                envelopes_of(courier.handed().skip(n0)) == requests@,
                walk_run_ok(p0, walk, requests@.len(), handed_over),
                self.passive() == walk_passive_after(p0, walk, requests@.len(), handed_over),
                ends_walk(answers_of(courier.handed().skip(n0)), handed_over),
            decreases p0.len() - requests@.len(),
        {
            match current {
                None => {
                    break;
                },
                Some(w) => {
                    let ghost asked = requests@.len();
                    let ghost log1 = courier.handed();
                    let addr = self.passive_view[w.next];
                    assert(addr == p0[walk.next + asked]);
                    let msg = WireMessage::NeighborRequest(NeighborRequest::new(w.priority));
                    let delivered = courier.ship(&msg, &addr);
                    requests.push(Envelope { msg, dest: addr });
                    current = self.neighbor_walk_answered(&w, delivered);
                    handed_over = delivered;
                    proof {
                        let e = crate::shipper::handed_entry(msg, addr, delivered);
                        lemma_log_push(log1, e, n0);
                        assert(requests@ =~= walk_requests(p0, walk, requests@.len()));
                        assert(courier.handed().subrange(0, n0) =~= log1.subrange(0, n0));
                        let ans = answers_of(courier.handed().skip(n0));
                        assert(ans[asked as int] == delivered);
                        if delivered {
                            assert(self.passive() =~= walk_passive_after(p0, walk, requests@.len(), handed_over));
                        } else {
                            assert(self.passive() =~= p0.subrange(0, walk.next as int) + p0.subrange(
                                walk.next + requests@.len(),
                                p0.len() as int,
                            ));
                            if current is None {
                                assert(self.passive() =~= walk_passive_after(p0, walk, requests@.len(), handed_over));
                            }
                        }
                    }
                },
            }
        }
        WalkRun { requests, handed_over }
    }

    /// Handles one event and ships what it asks for, in order, through the
    /// courier; then runs its NEIGHBOR walk, if any. Returns every message
    /// shipped, in order; the courier's record holds exactly those, each with
    /// its answer.
    pub fn receive_event<S: Shipper>(&mut self, event: HyParViewMessage, courier: &mut Courier<S>) -> (shipped: Vec<
        Envelope,
    >)
        requires
            old(self).wf(),
            event_ok(old(self).conf(), old(self).views(), event@),
        ensures
            final(self).conf() == old(self).conf(),
            final(self).wf(),
            final(courier).handed().subrange(0, old(courier).handed().len() as int) == old(courier).handed(),
            envelopes_of(final(courier).handed().skip(old(courier).handed().len() as int)) == shipped@,
            exists|c: usize, m: nat, handed: bool|
                #[trigger] handled_as(
                    old(self).conf(),
                    old(self).views(),
                    event@,
                    c,
                    m,
                    handed,
                    final(self).views(),
                    shipped@,
                    answers_of(final(courier).handed().skip(old(courier).handed().len() as int)),
                ),
    {
        let ghost v0 = self.views();
        let ghost log0 = courier.handed();
        let ghost n0 = log0.len() as int;
        let r = self.step(&event);
        let ghost mid = self.views();
        let ghost c = choose|c: usize|
            (mid, r.sends@, r.walk) == spec_step(self.conf(), v0, event@, c);
        proof {
            assert(courier.handed().skip(n0) =~= Seq::<(Envelope, bool)>::empty());
            assert(envelopes_of(courier.handed().skip(n0)) =~= r.sends@.take(0));
            assert(courier.handed().subrange(0, n0) =~= log0);
        }
        let mut i: usize = 0;
        while i < r.sends.len()
            invariant
                i <= r.sends@.len(),
                log0 == old(courier).handed(),
                n0 == log0.len(),
                courier.handed().len() == n0 + i,
                courier.handed().subrange(0, n0) == log0,
                envelopes_of(courier.handed().skip(n0)) == r.sends@.take(i as int),
            decreases r.sends@.len() - i,
        {
            let ghost log1 = courier.handed();
            let e = &r.sends[i];
            let _ = courier.ship(&e.msg, &e.dest);
            proof {
                lemma_log_push(log1, crate::shipper::handed_entry(e.msg, e.dest, courier.handed().last().1), n0);
                assert(courier.handed().subrange(0, n0) =~= log1.subrange(0, n0));
                assert(r.sends@.take(i + 1) =~= r.sends@.take(i as int).push(*e));
            }
            i = i + 1;
        }
        proof {
            assert(r.sends@.take(i as int) =~= r.sends@);
        }
        let ghost log_mid = courier.handed();
        let ghost n1 = log_mid.len() as int;
        let mut shipped = r.sends;
        match r.walk {
            Some(w) => {
                let mut run = self.run_neighbor_walk(w, courier);
                let ghost reqs = run.requests@;
                let ghost sends = shipped@;
                shipped.append(&mut run.requests);
                proof {
                    lemma_log_extends(log_mid, courier.handed(), n0, n1);
                    assert(courier.handed().subrange(0, n0) =~= log0);
                    assert(shipped@ =~= sends + reqs);
                    assert(handled_as(
                        self.conf(),
                        v0,
                        event@,
                        c,
                        reqs.len(),
                        run.handed_over,
                        self.views(),
                        shipped@,
                        answers_of(courier.handed().skip(n0)),
                    ));
                }
            },
            None => {
                assert(handled_as(
                    self.conf(),
                    v0,
                    event@,
                    c,
                    0,
                    false,
                    self.views(),
                    shipped@,
                    answers_of(courier.handed().skip(n0)),
                ));
            },
        }
        shipped
    }
}

/// Recording one more call keeps the record's start and adds the call at
/// the end of what follows `n0`.
proof fn lemma_log_push(log: Seq<(Envelope, bool)>, e: (Envelope, bool), n0: int)
    requires
        0 <= n0 <= log.len(),
    ensures
        log.push(e).subrange(0, n0) == log.subrange(0, n0),
        envelopes_of(log.push(e).skip(n0)) == envelopes_of(log.skip(n0)).push(e.0),
        answers_of(log.push(e).skip(n0)) == answers_of(log.skip(n0)).push(e.1),
{
    assert(log.push(e).subrange(0, n0) =~= log.subrange(0, n0));
    assert(log.push(e).skip(n0) =~= log.skip(n0).push(e));
    assert(envelopes_of(log.push(e).skip(n0)) =~= envelopes_of(log.skip(n0)).push(e.0));
    assert(answers_of(log.push(e).skip(n0)) =~= answers_of(log.skip(n0)).push(e.1));
}

/// A record `b` that carries on from `a` splits, after `n0`, into what `a`
/// had there and what `b` added.
proof fn lemma_log_extends(a: Seq<(Envelope, bool)>, b: Seq<(Envelope, bool)>, n0: int, n1: int)
    requires
        0 <= n0 <= n1,
        n1 == a.len(),
        a.len() <= b.len(),
        b.subrange(0, n1) == a,
    ensures
        b.subrange(0, n0) == a.subrange(0, n0),
        envelopes_of(b.skip(n0)) == envelopes_of(a.skip(n0)) + envelopes_of(b.skip(n1)),
        answers_of(b.skip(n0)).skip(n1 - n0) == answers_of(b.skip(n1)),
{
    assert forall|k: int| 0 <= k < n1 implies #[trigger] b[k] == a[k] by {
        assert(b.subrange(0, n1)[k] == b[k]);
    }
    assert(b.subrange(0, n0) =~= a.subrange(0, n0));
    assert(envelopes_of(b.skip(n0)) =~= envelopes_of(a.skip(n0)) + envelopes_of(b.skip(n1)));
    assert(answers_of(b.skip(n0)).skip(n1 - n0) =~= answers_of(b.skip(n1)));
}

/// The addresses of `v` other than `a` and `b`, in order.
fn filter_out(v: &Vec<SocketAddr>, a: &SocketAddr, b: &SocketAddr) -> (r: Vec<SocketAddr>)
    ensures
        r@ == v@.filter(excluding(*a, *b)),
{
    let mut r: Vec<SocketAddr> = Vec::new();
    let mut i: usize = 0;
    while i < v.len()
        invariant
            i <= v@.len(),
            r@ == v@.take(i as int).filter(excluding(*a, *b)),
        decreases v@.len() - i,
    {
        proof {
            reveal_with_fuel(Seq::<SocketAddr>::filter, 1);
            assert(v@.take(i + 1).drop_last() =~= v@.take(i as int));
        }
        if v[i] != *a && v[i] != *b {
            r.push(v[i]);
        }
        i = i + 1;
    }
    assert(v@.take(i as int) =~= v@);
    r
}

// ---------------------------------------------------------------------------
// Laws
// ---------------------------------------------------------------------------

proof fn lemma_remove_first_no_dups_gone(s: Seq<SocketAddr>, x: SocketAddr)
    requires
        no_dups(s),
    ensures
        !remove_first(s, x).contains(x),
        no_dups(remove_first(s, x)),
{
    s.index_of_first_ensures(x);
    match s.index_of_first(x) {
        Some(i) => {
            let r = s.remove(i);
            assert forall|k: int| 0 <= k < r.len() implies r[k] != x by {
                if k < i {
                    assert(r[k] == s[k]);
                } else {
                    assert(r[k] == s[k + 1]);
                    assert(s[i] != s[k + 1]);
                }
            }
            assert forall|a: int, b: int| 0 <= a < b < r.len() implies r[a] != r[b] by {
                let a2 = if a < i { a } else { a + 1 };
                let b2 = if b < i { b } else { b + 1 };
                assert(r[a] == s[a2] && r[b] == s[b2]);
            }
        },
        None => {},
    }
}

/// Every event keeps the views in good order: the active view holds no peer
/// twice, neither view holds the node itself, and neither outgrows its size.
pub proof fn lemma_step_keeps_wf(cfg: Config, v: Views, ev: EventView, choice: usize)
    requires
        views_wf(cfg, v),
        event_ok(cfg, v, ev),
    ensures
        views_wf(cfg, spec_step(cfg, v, ev, choice).0),
{
    match ev {
        EventView::JoinMessage(_, s) => {
            lemma_add_active_wf(cfg, v, s);
        },
        EventView::ForwardJoinMessage(m, s) => {
            lemma_add_active_wf(cfg, v, m.originator);
            lemma_passive_with_wf(cfg, v.passive, m.originator);
        },
        EventView::JoinAckMessage(_, s) => {
            lemma_add_active_wf(cfg, v, s);
        },
        EventView::DisconnectMessage(_, s) => {
            if v.active.contains(s) {
                lemma_remove_first_keeps(v.active, s, cfg.local_addr);
                let p1 = if v.passive.contains(s) {
                    v.passive
                } else {
                    v.passive.push(s)
                };
                assert(s != cfg.local_addr);
                assert(!p1.contains(cfg.local_addr)) by {
                    assert forall|k: int| 0 <= k < p1.len() implies p1[k] != cfg.local_addr by {
                        if k < v.passive.len() {
                            assert(p1[k] == v.passive[k]);
                        }
                    }
                }
                lemma_keep_newest_keeps(p1, cfg.passive_view_size - 1, cfg.local_addr);
            }
        },
        EventView::NeighborRequestMessage(_, s) => {
            lemma_add_active_wf(cfg, v, s);
        },
        EventView::NeighborResponseMessage(_, s) => {
            lemma_add_active_wf(cfg, v, s);
        },
        EventView::PeerDisconnect(a) => {
            lemma_remove_first_keeps(v.active, a, cfg.local_addr);
        },
        _ => {},
    }
}

/// A peer other than the node itself that is taken into the active view
/// (on a JOIN_ACK, an accepted NEIGHBOR request or response, a JOIN or a
/// FORWARD_JOIN that ends here) is in the active view afterwards, provided
/// the active view has room for one peer.
pub proof fn lemma_add_active_takes_peer(cfg: Config, v: Views, peer: SocketAddr)
    requires
        views_wf(cfg, v),
        peer != cfg.local_addr,
        cfg.active_view_size >= 1,
    ensures
        spec_add_active(cfg, v, peer).0.active.contains(peer),
        spec_add_active(cfg, v, peer).1.len() <= 1,
{
    if !v.active.contains(peer) {
        let grown = v.active.push(peer);
        assert(grown[grown.len() - 1] == peer);
        if grown.len() > cfg.active_view_size {
            assert(grown.drop_first()[grown.len() - 2] == peer);
        }
    }
}

/// A DISCONNECT from an active peer drops that peer from the active view.
pub proof fn lemma_disconnect_drops_sender(cfg: Config, v: Views, sender: SocketAddr)
    requires
        views_wf(cfg, v),
    ensures
        !spec_handle_disconnect(cfg, v, sender).active.contains(sender),
{
    lemma_remove_first_no_dups_gone(v.active, sender);
}

/// A failed peer is no longer in the active view.
pub proof fn lemma_peer_failure_drops_peer(cfg: Config, v: Views, addr: SocketAddr)
    requires
        views_wf(cfg, v),
    ensures
        !spec_handle_peer_failure(v, addr).active.contains(addr),
{
    lemma_remove_first_no_dups_gone(v.active, addr);
}

/// A node never sends a JOIN to itself: the JOIN goes to one of the contact
/// nodes, other than the node itself.
pub proof fn lemma_join_not_to_self(cfg: Config, choice: usize)
    ensures
        forall|i: int|
            0 <= i < spec_join(cfg, choice).len() ==> {
                let e = #[trigger] spec_join(cfg, choice)[i];
                &&& e.dest != cfg.local_addr
                &&& cfg.contact_nodes@.contains(e.dest)
                &&& e.msg == WireMessage::Join(Join)
            },
{
    let others = other_contacts(cfg);
    if others.len() > 0 {
        let k = choice as int % others.len() as int;
        #[allow(deprecated)]
        cfg.contact_nodes@.filter_lemma(excluding(cfg.local_addr, cfg.local_addr));
        assert(excluding(cfg.local_addr, cfg.local_addr)(others[k]));
        lemma_filter_from(cfg.contact_nodes@, excluding(cfg.local_addr, cfg.local_addr), k);
    }
}

proof fn lemma_filter_from(s: Seq<SocketAddr>, pred: spec_fn(SocketAddr) -> bool, k: int)
    requires
        0 <= k < s.filter(pred).len(),
    ensures
        s.contains(s.filter(pred)[k]),
    decreases s.len(),
{
    reveal_with_fuel(Seq::<SocketAddr>::filter, 1);
    if s.len() > 0 {
        let sub = s.drop_last().filter(pred);
        if k < sub.len() {
            if pred(s.last()) {
                assert(s.filter(pred)[k] == sub[k]);
            }
            lemma_filter_from(s.drop_last(), pred, k);
            let j = choose|j: int| 0 <= j < s.drop_last().len() && s.drop_last()[j] == sub[k];
            assert(s[j] == sub[k]);
        } else {
            assert(s.filter(pred)[k] == s.last());
            assert(s[s.len() - 1] == s.last());
        }
    }
}

/// A FORWARD_JOIN that is passed on goes to an active peer that is neither
/// the one it came from nor its originator, or, when there is none, back to
/// its originator.
pub proof fn lemma_forward_join_next_hop(
    cfg: Config,
    v: Views,
    msg: ForwardJoin,
    sender: SocketAddr,
    choice: usize,
)
    requires
        !((v.active.len() <= 1 || msg.ttl == 0) && msg.originator != cfg.local_addr),
    ensures
        ({
            let e = spec_handle_forward_join(cfg, v, msg, sender, choice).1[0];
            ||| e.dest == msg.originator
            ||| (v.active.contains(e.dest) && e.dest != sender && e.dest != msg.originator)
        }),
{
    let cands = forward_candidates(v, msg, sender);
    if cands.len() > 0 {
        let k = choice as int % cands.len() as int;
        #[allow(deprecated)]
        v.active.filter_lemma(excluding(sender, msg.originator));
        assert(excluding(sender, msg.originator)(cands[k]));
        lemma_filter_from(v.active, excluding(sender, msg.originator), k);
    }
}

/// A NEIGHBOR request of high priority is always accepted: the answer is
/// ACCEPT, and the sender (unless it is the node itself) enters the active
/// view when that view has room for one peer.
pub proof fn lemma_high_priority_accepted(cfg: Config, v: Views, sender: SocketAddr)
    requires
        views_wf(cfg, v),
    ensures
        ({
            let (v2, out) = spec_handle_neighbor_request(
                cfg,
                v,
                NeighborRequest { priority: Priority::High },
                sender,
            );
            &&& out.last() == neighbor_response_to(sender, Result::Accept)
            &&& (sender != cfg.local_addr && cfg.active_view_size >= 1) ==> v2.active.contains(sender)
        }),
{
    if sender != cfg.local_addr && cfg.active_view_size >= 1 {
        lemma_add_active_takes_peer(cfg, v, sender);
    }
}

/// A NEIGHBOR request of low priority to a node whose active view is full is
/// refused and changes nothing.
pub proof fn lemma_low_priority_full_rejected(cfg: Config, v: Views, sender: SocketAddr)
    requires
        v.active.len() == cfg.active_view_size,
    ensures
        spec_handle_neighbor_request(cfg, v, NeighborRequest { priority: Priority::Low }, sender)
            == (v, seq![neighbor_response_to(sender, Result::Reject)]),
{
}

/// The JOIN handshake between a joining node and a contact node: the contact
/// node, with an empty active view, takes the joiner in and acknowledges it;
/// the acknowledgment makes the joiner take the contact node in. Afterwards
/// each is the other's only active peer.
pub proof fn lemma_join_handshake(contact: Config, joiner: Config, empty: Views)
    requires
        empty.active.len() == 0,
        empty.passive.len() == 0,
        contact.local_addr != joiner.local_addr,
        contact.active_view_size >= 1,
        joiner.active_view_size >= 1,
    ensures
        ({
            let (c2, answer, _) = spec_step(
                contact,
                empty,
                EventView::JoinMessage(Join, joiner.local_addr),
                0,
            );
            let (j2, _, _) = spec_step(
                joiner,
                empty,
                EventView::JoinAckMessage(JoinAck, contact.local_addr),
                0,
            );
            &&& answer == seq![join_ack_to(joiner.local_addr)]
            &&& c2.active == seq![joiner.local_addr]
            &&& j2.active == seq![contact.local_addr]
        }),
{
    let (c2, answer, _) = spec_step(contact, empty, EventView::JoinMessage(Join, joiner.local_addr), 0);
    assert(!empty.active.contains(joiner.local_addr));
    assert(!empty.active.contains(contact.local_addr));
    assert(empty.active.push(joiner.local_addr) =~= seq![joiner.local_addr]);
    assert(empty.active.push(contact.local_addr) =~= seq![contact.local_addr]);
    assert(answer =~= seq![join_ack_to(joiner.local_addr)]);
}


/// No peer is in both views, and the passive view holds no peer twice.
pub open spec fn views_apart(v: Views) -> bool {
    &&& no_dups(v.passive)
    &&& forall|x: SocketAddr| #[trigger] v.active.contains(x) ==> !v.passive.contains(x)
}

proof fn lemma_remove_first_sub(s: Seq<SocketAddr>, x: SocketAddr)
    ensures
        forall|y: SocketAddr| #[trigger] remove_first(s, x).contains(y) ==> s.contains(y),
        no_dups(s) ==> no_dups(remove_first(s, x)),
{
    s.index_of_first_ensures(x);
    match s.index_of_first(x) {
        Some(i) => {
            let r = s.remove(i);
            assert forall|y: SocketAddr| #[trigger] r.contains(y) implies s.contains(y) by {
                let k = choose|k: int| 0 <= k < r.len() && r[k] == y;
                if k < i {
                    assert(s[k] == y);
                } else {
                    assert(s[k + 1] == y);
                }
            }
            if no_dups(s) {
                assert forall|a: int, b: int| 0 <= a < b < r.len() implies r[a] != r[b] by {
                    let a2 = if a < i { a } else { a + 1 };
                    let b2 = if b < i { b } else { b + 1 };
                    assert(r[a] == s[a2] && r[b] == s[b2]);
                }
            }
        },
        None => {},
    }
}

proof fn lemma_keep_newest_sub(s: Seq<SocketAddr>, n: int)
    requires
        n >= 0,
    ensures
        forall|y: SocketAddr| #[trigger] keep_newest(s, n).contains(y) ==> s.contains(y),
        no_dups(s) ==> no_dups(keep_newest(s, n)),
{
    if s.len() > n {
        let r = s.subrange(s.len() - n, s.len() as int);
        assert forall|y: SocketAddr| #[trigger] r.contains(y) implies s.contains(y) by {
            let k = choose|k: int| 0 <= k < r.len() && r[k] == y;
            assert(s[s.len() - n + k] == y);
        }
        if no_dups(s) {
            assert forall|a: int, b: int| 0 <= a < b < r.len() implies r[a] != r[b] by {
                assert(r[a] == s[s.len() - n + a] && r[b] == s[s.len() - n + b]);
            }
        }
    }
}

proof fn lemma_passive_with_sub(cfg: Config, p: Seq<SocketAddr>, peer: SocketAddr)
    ensures
        forall|y: SocketAddr| #[trigger] passive_with(cfg, p, peer).contains(y) ==> p.contains(y) || y == peer,
        no_dups(p) ==> no_dups(passive_with(cfg, p, peer)),
{
    if !(peer == cfg.local_addr || p.contains(peer)) {
        let q = p.push(peer);
        assert forall|y: SocketAddr| #[trigger] q.contains(y) implies p.contains(y) || y == peer by {
            let k = choose|k: int| 0 <= k < q.len() && q[k] == y;
            if k < p.len() {
                assert(p[k] == y);
            }
        }
        if no_dups(p) {
            lemma_no_dups_push(p, peer);
        }
        lemma_keep_newest_sub(q, cfg.passive_view_size as int);
    }
}

proof fn lemma_add_active_apart(cfg: Config, v: Views, peer: SocketAddr)
    requires
        views_wf(cfg, v),
        views_apart(v),
    ensures
        views_apart(spec_add_active(cfg, v, peer).0),
{
    let v2 = spec_add_active(cfg, v, peer).0;
    if peer == cfg.local_addr {
    } else if v.active.contains(peer) {
        lemma_remove_first_sub(v.passive, peer);
    } else {
        let grown = v.active.push(peer);
        if grown.len() > cfg.active_view_size {
            let e = grown[0];
            assert(v.active.len() > 0 ==> v.active[0] == e);
            let p1 = passive_with(cfg, v.passive, e);
            lemma_passive_with_sub(cfg, v.passive, e);
            lemma_remove_first_sub(p1, peer);
            lemma_remove_first_no_dups_gone(p1, peer);
            assert forall|x: SocketAddr| #[trigger] v2.active.contains(x) implies !v2.passive.contains(x) by {
                let k = choose|k: int| 0 <= k < v2.active.len() && v2.active[k] == x;
                if x != peer {
                    assert(grown[k + 1] == x);
                    assert(v.active[k + 1] == x);
                    assert(v.active.contains(x));
                    assert(v.active[0] != v.active[k + 1]);
                    assert(v.active.contains(e));
                }
            }
        } else {
            lemma_remove_first_sub(v.passive, peer);
            lemma_remove_first_no_dups_gone(v.passive, peer);
            assert forall|x: SocketAddr| #[trigger] v2.active.contains(x) implies !v2.passive.contains(x) by {
                let k = choose|k: int| 0 <= k < v2.active.len() && v2.active[k] == x;
                if x != peer {
                    assert(v.active[k] == x);
                    assert(v.active.contains(x));
                }
            }
        }
    }
}

/// No peer is in both views, and the passive view holds no peer twice, after
/// every event but one: a FORWARD_JOIN whose originator is already an active
/// peer, which may put the originator in the passive view as well.
pub proof fn lemma_step_keeps_views_apart(cfg: Config, v: Views, ev: EventView, choice: usize)
    requires
        views_wf(cfg, v),
        views_apart(v),
        event_ok(cfg, v, ev),
        !(ev matches EventView::ForwardJoinMessage(m, _) && v.active.contains(m.originator)),
    ensures
        views_apart(spec_step(cfg, v, ev, choice).0),
{
    match ev {
        EventView::JoinMessage(_, s) => {
            lemma_add_active_apart(cfg, v, s);
        },
        EventView::ForwardJoinMessage(m, s) => {
            lemma_add_active_apart(cfg, v, m.originator);
            lemma_passive_with_sub(cfg, v.passive, m.originator);
        },
        EventView::JoinAckMessage(_, s) => {
            lemma_add_active_apart(cfg, v, s);
        },
        EventView::DisconnectMessage(_, s) => {
            if v.active.contains(s) {
                let p1 = if v.passive.contains(s) {
                    v.passive
                } else {
                    v.passive.push(s)
                };
                if !v.passive.contains(s) {
                    lemma_no_dups_push(v.passive, s);
                }
                assert forall|y: SocketAddr| #[trigger] p1.contains(y) implies v.passive.contains(y) || y == s by {
                    if !v.passive.contains(s) {
                        let k = choose|k: int| 0 <= k < p1.len() && p1[k] == y;
                        if k < v.passive.len() {
                            assert(v.passive[k] == y);
                        }
                    }
                }
                lemma_remove_first_sub(v.active, s);
                lemma_remove_first_no_dups_gone(v.active, s);
                lemma_keep_newest_sub(p1, cfg.passive_view_size - 1);
            }
        },
        EventView::NeighborRequestMessage(_, s) => {
            lemma_add_active_apart(cfg, v, s);
        },
        EventView::NeighborResponseMessage(_, s) => {
            lemma_add_active_apart(cfg, v, s);
        },
        EventView::PeerDisconnect(a) => {
            lemma_remove_first_sub(v.active, a);
        },
        _ => {},
    }
}


/// Taking a peer into the active view keeps the views in good order and
/// apart; a peer other than the node itself ends in the active view and out of
/// the passive view when the active view has room for one peer; the node
/// itself changes nothing and sends nothing.
pub proof fn lemma_add_active_law(cfg: Config, v: Views, peer: SocketAddr)
    requires
        views_wf(cfg, v),
        views_apart(v),
    ensures
        ({
            let (v2, sends) = spec_add_active(cfg, v, peer);
            &&& views_wf(cfg, v2)
            &&& views_apart(v2)
            &&& (peer != cfg.local_addr && cfg.active_view_size >= 1) ==> (v2.active.contains(peer)
                && !v2.passive.contains(peer))
            &&& peer == cfg.local_addr ==> (v2 == v && sends.len() == 0)
        }),
{
    lemma_add_active_wf(cfg, v, peer);
    lemma_add_active_apart(cfg, v, peer);
    if peer != cfg.local_addr && cfg.active_view_size >= 1 {
        lemma_add_active_takes_peer(cfg, v, peer);
    }
}

/// A DISCONNECT from an active peer moves it to the passive view: it leaves
/// the active view and, when the passive view may hold two peers or more,
/// is in the passive view once.
pub proof fn lemma_disconnect_moves_sender_to_passive(cfg: Config, v: Views, sender: SocketAddr)
    requires
        views_wf(cfg, v),
        views_apart(v),
        v.active.contains(sender),
        cfg.passive_view_size >= 2,
    ensures
        ({
            let v2 = spec_handle_disconnect(cfg, v, sender);
            &&& !v2.active.contains(sender)
            &&& v2.passive.contains(sender)
            &&& no_dups(v2.passive)
            &&& v2.passive.len() < cfg.passive_view_size
        }),
{
    lemma_remove_first_no_dups_gone(v.active, sender);
    let p1 = v.passive.push(sender);
    lemma_no_dups_push(v.passive, sender);
    lemma_keep_newest_sub(p1, cfg.passive_view_size - 1);
    let n = cfg.passive_view_size - 1;
    let r = keep_newest(p1, n);
    if p1.len() > n {
        assert(r[n - 1] == p1[p1.len() - 1]);
    } else {
        assert(r[r.len() - 1] == sender);
    }
}

/// A NEIGHBOR walk after a rejection never asks the rejecting peer again,
/// and is not taken at all when that peer is the last passive one while
/// active peers remain.
pub proof fn lemma_walk_skips_rejecter(v: Views, p: SocketAddr)
    requires
        no_dups(v.passive),
        v.passive.contains(p),
        v.active.len() > 0,
        v.passive.len() <= usize::MAX,
    ensures
        spec_begin_walk(v, Some(p)) matches Some(w) ==> forall|i: int|
            w.next <= i < v.passive.len() ==> #[trigger] v.passive[i] != p,
        v.passive.last() == p ==> spec_begin_walk(v, Some(p)) is None,
{
    v.passive.index_of_first_ensures(p);
    let k = v.passive.index_of_first(p).unwrap();
    assert forall|i: int| k < i < v.passive.len() implies #[trigger] v.passive[i] != p by {
        assert(v.passive[k] != v.passive[i]);
    }
    if v.passive.last() == p {
        assert(v.passive[v.passive.len() - 1] == p);
    }
}

/// A NEIGHBOR request, of either priority, from a peer other than the node
/// itself, to a node whose active view still has room, is accepted: the
/// answer is a single ACCEPT to the sender, the sender ends up active, every
/// peer that was active stays active, and no walk follows.
pub proof fn lemma_neighbor_request_with_room_accepted(
    cfg: Config,
    v: Views,
    msg: NeighborRequest,
    sender: SocketAddr,
    choice: usize,
)
    requires
        views_wf(cfg, v),
        sender != cfg.local_addr,
        v.active.len() < cfg.active_view_size,
    ensures
        ({
            let (v2, sends, walk) = spec_step(cfg, v, EventView::NeighborRequestMessage(msg, sender), choice);
            &&& sends.len() == 1
            &&& sends[0].dest == sender
            &&& sends[0].msg == WireMessage::NeighborResponse(NeighborResponse { result: Result::Accept })
            &&& v2.active.contains(sender)
            &&& forall|p: SocketAddr| v.active.contains(p) ==> #[trigger] v2.active.contains(p)
            &&& walk is None
        }),
{
    lemma_add_active_takes_peer(cfg, v, sender);
    let (v2, out) = spec_add_active(cfg, v, sender);
    assert forall|p: SocketAddr| v.active.contains(p) implies #[trigger] v2.active.contains(p) by {
        if !v.active.contains(sender) {
            let i = choose|i: int| 0 <= i < v.active.len() && v.active[i] == p;
            assert(v.active.push(sender)[i] == p);
        }
    }
}

/// A FORWARD_JOIN that this node passes on (it is its own, or the node has
/// two active peers or more and the walk has time to live left) changes no
/// active peer and sends one FORWARD_JOIN on. It leaves the passive view as
/// it was unless the walk is at the passive random walk length; there, an
/// originator other than the node itself enters the passive view.
pub proof fn lemma_forward_join_passed_on(
    cfg: Config,
    v: Views,
    msg: ForwardJoin,
    sender: SocketAddr,
    choice: usize,
)
    requires
        views_wf(cfg, v),
        msg.originator == cfg.local_addr || (v.active.len() >= 2 && msg.ttl > 0),
    ensures
        ({
            let (v2, sends, walk) = spec_step(cfg, v, EventView::ForwardJoinMessage(msg, sender), choice);
            &&& v2.active == v.active
            &&& sends.len() == 1
            &&& sends[0].msg is ForwardJoin
            &&& walk is None
            &&& msg.ttl != msg.prwl ==> v2.passive == v.passive
            &&& (msg.ttl == msg.prwl && msg.originator != cfg.local_addr && cfg.passive_view_size >= 1)
                ==> v2.passive.contains(msg.originator)
        }),
{
    if msg.ttl == msg.prwl && msg.originator != cfg.local_addr && cfg.passive_view_size >= 1 {
        if !v.passive.contains(msg.originator) {
            let p1 = v.passive.push(msg.originator);
            let r = keep_newest(p1, cfg.passive_view_size as int);
            if p1.len() > cfg.passive_view_size {
                assert(r[r.len() - 1] == p1[p1.len() - 1]);
            } else {
                assert(r[r.len() - 1] == msg.originator);
            }
        }
    }
}

/// A DISCONNECT from an active peer that is not passive, while the passive
/// view has room for it and one more, keeps every backup peer: the passive
/// view becomes the old one with the sender appended, and the active view
/// loses the sender.
pub proof fn lemma_disconnect_keeps_backups(
    cfg: Config,
    v: Views,
    d: Disconnect,
    sender: SocketAddr,
    choice: usize,
)
    requires
        views_wf(cfg, v),
        v.active.contains(sender),
        !v.passive.contains(sender),
        v.passive.len() + 1 < cfg.passive_view_size,
    ensures
        ({
            let (v2, sends, walk) = spec_step(cfg, v, EventView::DisconnectMessage(d, sender), choice);
            &&& v2.passive == v.passive.push(sender)
            &&& !v2.active.contains(sender)
            &&& sends.len() == 0
        }),
{
    lemma_remove_first_no_dups_gone(v.active, sender);
}

/// Removing an entry other than the last one keeps the last one last.
proof fn lemma_remove_first_keeps_last(s: Seq<SocketAddr>, x: SocketAddr)
    requires
        s.len() > 0,
        s.last() != x,
    ensures
        remove_first(s, x).len() > 0,
        remove_first(s, x).last() == s.last(),
{
    s.index_of_first_ensures(x);
    match s.index_of_first(x) {
        Some(i) => {
            assert(i != s.len() - 1);
            assert(s.remove(i)[s.len() - 2] == s[s.len() - 1]);
        },
        None => {},
    }
}

/// A JOIN_ACK from a new peer when the active view is full: the oldest active
/// peer is evicted to make room, told so by a single DISCONNECT, and becomes
/// the newest entry of the passive view; the active view is the old one
/// without its oldest peer and with the new one.
pub proof fn lemma_eviction_goes_to_passive(
    cfg: Config,
    v: Views,
    ack: JoinAck,
    peer: SocketAddr,
    choice: usize,
)
    requires
        views_wf(cfg, v),
        views_apart(v),
        peer != cfg.local_addr,
        !v.active.contains(peer),
        cfg.active_view_size >= 1,
        v.active.len() == cfg.active_view_size,
        cfg.passive_view_size >= 1,
    ensures
        ({
            let (v2, sends, walk) = spec_step(cfg, v, EventView::JoinAckMessage(ack, peer), choice);
            &&& v2.passive.len() > 0
            &&& v2.passive.last() == v.active[0]
            &&& v2.active == v.active.drop_first().push(peer)
            &&& sends == seq![Envelope { msg: WireMessage::Disconnect(Disconnect), dest: v.active[0] }]
        }),
{
    let evicted = v.active[0];
    assert(v.active.contains(evicted));
    let grown = v.active.push(peer);
    assert(grown[0] == evicted);
    assert(grown.drop_first() =~= v.active.drop_first().push(peer));
    let p1 = v.passive.push(evicted);
    let r = keep_newest(p1, cfg.passive_view_size as int);
    if p1.len() > cfg.passive_view_size {
        assert(r[r.len() - 1] == p1[p1.len() - 1]);
    } else {
        assert(r[r.len() - 1] == evicted);
    }
    assert(peer != evicted);
    lemma_remove_first_keeps_last(r, peer);
}

/// A JOIN from another node at a node with active peers sends one
/// FORWARD_JOIN per active peer, in the order of the active view, each naming
/// the joiner as originator with the configured walk lengths and a time to
/// live of the active random walk length; the views do not change.
pub proof fn lemma_join_fans_out(cfg: Config, v: Views, j: Join, sender: SocketAddr, choice: usize)
    requires
        sender != cfg.local_addr,
        v.active.len() > 0,
    ensures
        ({
            let (v2, sends, walk) = spec_step(cfg, v, EventView::JoinMessage(j, sender), choice);
            &&& v2 == v
            &&& walk is None
            &&& sends.len() == v.active.len()
            &&& forall|i: int|
                0 <= i < v.active.len() ==> #[trigger] sends[i] == Envelope {
                    msg: WireMessage::ForwardJoin(
                        ForwardJoin {
                            originator: sender,
                            arwl: cfg.active_random_walk_length,
                            prwl: cfg.passive_random_walk_length,
                            ttl: cfg.active_random_walk_length,
                        },
                    ),
                    dest: v.active[i],
                }
        }),
{
}

/// A DISCONNECT from an active peer that is not passive keeps the newest
/// entries of the old passive view followed by the sender, as many as fit
/// below the passive view size: the passive view after is the tail of the old
/// one with the sender appended, of length the smaller of that sequence's
/// length and `passive_view_size - 1`.
pub proof fn lemma_disconnect_trims_oldest(
    cfg: Config,
    v: Views,
    d: Disconnect,
    sender: SocketAddr,
    choice: usize,
)
    requires
        views_wf(cfg, v),
        v.active.contains(sender),
        !v.passive.contains(sender),
        cfg.passive_view_size >= 1,
    ensures
        ({
            let (v2, sends, walk) = spec_step(cfg, v, EventView::DisconnectMessage(d, sender), choice);
            let grown = v.passive.push(sender);
            let n: int = if grown.len() < cfg.passive_view_size - 1 {
                grown.len() as int
            } else {
                cfg.passive_view_size - 1
            };
            &&& v2.passive.len() == n
            &&& forall|i: int| 0 <= i < n ==> #[trigger] v2.passive[i] == grown[grown.len() - n + i]
        }),
{
}

/// A FORWARD_JOIN for another node that reaches the end of its walk (no time
/// to live left, or at most one active peer here) takes the originator into
/// the active view and acknowledges it with a JOIN_ACK as the last message.
pub proof fn lemma_forward_join_walk_ends(
    cfg: Config,
    v: Views,
    msg: ForwardJoin,
    sender: SocketAddr,
    choice: usize,
)
    requires
        views_wf(cfg, v),
        msg.originator != cfg.local_addr,
        v.active.len() <= 1 || msg.ttl == 0,
        cfg.active_view_size >= 1,
    ensures
        ({
            let (v2, sends, walk) = spec_step(cfg, v, EventView::ForwardJoinMessage(msg, sender), choice);
            &&& v2.active.contains(msg.originator)
            &&& sends.len() >= 1
            &&& sends.last() == Envelope { msg: WireMessage::JoinAck(JoinAck), dest: msg.originator }
            &&& walk is None
        }),
{
    lemma_add_active_takes_peer(cfg, v, msg.originator);
}

/// A JOIN from another node at a node with no active peer takes the joiner
/// into the active view and answers it with a JOIN_ACK alone.
pub proof fn lemma_join_when_alone(cfg: Config, v: Views, j: Join, sender: SocketAddr, choice: usize)
    requires
        views_wf(cfg, v),
        sender != cfg.local_addr,
        v.active.len() == 0,
        cfg.active_view_size >= 1,
    ensures
        ({
            let (v2, sends, walk) = spec_step(cfg, v, EventView::JoinMessage(j, sender), choice);
            &&& v2.active == seq![sender]
            &&& sends == seq![Envelope { msg: WireMessage::JoinAck(JoinAck), dest: sender }]
            &&& walk is None
        }),
{
    assert(Seq::<SocketAddr>::empty().push(sender) =~= seq![sender]);
    assert(v.active =~= Seq::<SocketAddr>::empty());
}

} // verus!
