use vstd::prelude::*;

use crate::address::{Addr, Ip};
use crate::peer::Peer;
use crate::registry::PeerRegistry;

verus! {

/// What an inbound connection request came to.
#[derive(Clone, Copy, Debug, PartialEq, Eq, Structural)]
pub enum Handshake {
    /// The peer was registered under this address.
    Connected(Addr),
    /// A peer was already registered under this address; nothing changed.
    AlreadyConnected(Addr),
    /// The address resolved to this node's own; nothing changed.
    RejectedSelf,
}

/// What the gossip loop does on a timer tick.
pub enum TickPlan {
    /// The loop ends.
    Stop,
    /// Pull the registries of these peers, merge them, then push to every known peer.
    Discover(Vec<Addr>),
    /// Push the message to these peers.
    Disseminate(Vec<Addr>),
}

/// The address a connecting peer is registered under: its declared host alias, else the
/// address the request came from, with its declared port.
pub open spec fn resolved_addr(observed: Ip, peer: Peer) -> Addr {
    Addr {
        ip: match peer.host_alias {
            Some(ip) => ip,
            None => observed,
        },
        port: peer.port,
    }
}

/// The registry after a handshake, and what the handshake reports.
pub open spec fn handshake_result(known: Map<Addr, Peer>, me: Addr, observed: Ip, peer: Peer) -> (Map<Addr, Peer>, Handshake) {
    let x = resolved_addr(observed, peer);
    if x == me {
        (known, Handshake::RejectedSelf)
    } else if known.contains_key(x) {
        (known, Handshake::AlreadyConnected(x))
    } else {
        (known.insert(x, peer), Handshake::Connected(x))
    }
}

/// The registry after merging one pulled registry: this node's own address is dropped from
/// the pulled one, and the rest overwrites what is known.
pub open spec fn merged(known: Map<Addr, Peer>, me: Addr, remote: Map<Addr, Peer>) -> Map<Addr, Peer> {
    known.union_prefer_right(remote.remove(me))
}

/// The registry after merging, in order, every pull that succeeded.
pub open spec fn merged_all(known: Map<Addr, Peer>, me: Addr, pulls: Seq<Option<Map<Addr, Peer>>>) -> Map<Addr, Peer>
    decreases pulls.len(),
{
    if pulls.len() == 0 {
        known
    } else {
        let before = merged_all(known, me, pulls.drop_last());
        match pulls.last() {
            Some(remote) => merged(before, me, remote),
            None => before,
        }
    }
}

/// The addresses to which a push failed.
pub open spec fn failed_targets(outcomes: Seq<(Addr, bool)>) -> Set<Addr> {
    Set::new(|a: Addr| exists|i: int| 0 <= i < outcomes.len() && #[trigger] outcomes[i] == (a, false))
}

/// The views of a list of pull results.
pub open spec fn pull_views(pulls: Seq<Option<PeerRegistry>>) -> Seq<Option<Map<Addr, Peer>>> {
    pulls.map_values(|p: Option<PeerRegistry>| match p {
        Some(r) => Some(r@),
        None => None,
    })
}

/// Connecting twice with the same descriptor: the second handshake reports that the peer is
/// already connected and leaves the registry as the first left it, with one entry under the
/// resolved address; a request that resolves to this node's own address is refused both times.
pub proof fn law_handshake_idempotent(known: Map<Addr, Peer>, me: Addr, observed: Ip, peer: Peer)
    ensures
        ({
            let x = resolved_addr(observed, peer);
            let (first, r1) = handshake_result(known, me, observed, peer);
            let (second, r2) = handshake_result(first, me, observed, peer);
            &&& second == first
            &&& x != me ==> r2 == Handshake::AlreadyConnected(x) && second.contains_key(x)
            &&& x == me ==> r1 == Handshake::RejectedSelf && r2 == Handshake::RejectedSelf
        }),
{
}

/// A handshake from a new address registers exactly the descriptor that was sent, under the
/// resolved address, and changes nothing else.
pub proof fn law_handshake_registers(known: Map<Addr, Peer>, me: Addr, observed: Ip, peer: Peer)
    requires
        resolved_addr(observed, peer) != me,
        !known.contains_key(resolved_addr(observed, peer)),
    ensures
        ({
            let x = resolved_addr(observed, peer);
            let (after, r) = handshake_result(known, me, observed, peer);
            &&& r == Handshake::Connected(x)
            &&& after.contains_key(x)
            &&& after[x] == peer
            &&& after == known.insert(x, peer)
        }),
{
}

/// Neither a handshake nor any sequence of merged pulls puts this node's own address into a
/// registry that did not hold it.
pub proof fn law_self_excluded(
    known: Map<Addr, Peer>,
    me: Addr,
    observed: Ip,
    peer: Peer,
    pulls: Seq<Option<Map<Addr, Peer>>>,
)
    requires
        !known.contains_key(me),
    ensures
        !handshake_result(known, me, observed, peer).0.contains_key(me),
        !merged_all(known, me, pulls).contains_key(me),
    decreases pulls.len(),
{
    if pulls.len() > 0 {
        law_self_excluded(known, me, observed, peer, pulls.drop_last());
    }
}

/// Merging a pulled registry that lists peers `a` and `b` and this node itself adds `a` and
/// `b` with the descriptors pulled, and not this node.
pub proof fn law_merge_adds_others(known: Map<Addr, Peer>, me: Addr, remote: Map<Addr, Peer>, a: Addr, b: Addr)
    requires
        !known.contains_key(me),
        remote.contains_key(a),
        remote.contains_key(b),
        remote.contains_key(me),
        a != me,
        b != me,
    ensures
        merged(known, me, remote).contains_key(a),
        merged(known, me, remote)[a] == remote[a],
        merged(known, me, remote).contains_key(b),
        merged(known, me, remote)[b] == remote[b],
        !merged(known, me, remote).contains_key(me),
{
}

/// A peer to which a push failed is gone from the registry after the evictions of that cycle,
/// whatever the other outcomes were.
pub proof fn law_failed_push_evicts(known: Map<Addr, Peer>, outcomes: Seq<(Addr, bool)>, i: int)
    requires
        0 <= i < outcomes.len(),
        !outcomes[i].1,
    ensures
        !known.remove_keys(failed_targets(outcomes)).contains_key(outcomes[i].0),
{
    assert(outcomes[i] == (outcomes[i].0, false));
    assert(failed_targets(outcomes).contains(outcomes[i].0));
}

/// The state of a gossip node: its own descriptor, its known peers, and its two flags.
pub struct ApplicationState {
    known_peers: PeerRegistry,
    this_peer: Peer,
    keep_running: bool,
    update_known_peers: bool,
}

impl ApplicationState {
    /// The registry is well formed and never holds this node's own address.
    pub closed spec fn wf(&self) -> bool {
        &&& self.known_peers.wf()
        &&& !self.known_peers@.contains_key(self.this_peer.spec_socket_addr())
    }

    pub closed spec fn spec_known(&self) -> Map<Addr, Peer> {
        self.known_peers@
    }

    pub closed spec fn spec_this_peer(&self) -> Peer {
        self.this_peer
    }

    pub closed spec fn spec_running(&self) -> bool {
        self.keep_running
    }

    pub closed spec fn spec_discovery(&self) -> bool {
        self.update_known_peers
    }

    /// This node's own address.
    pub open spec fn spec_self_addr(&self) -> Addr {
        self.spec_this_peer().spec_socket_addr()
    }

    /// A running node with no known peers.
    pub fn new(this_peer: Peer, update_known_peers: bool) -> (r: ApplicationState)
        ensures
            r.wf(),
            r.spec_known() == Map::<Addr, Peer>::empty(),
            r.spec_this_peer() == this_peer,
            r.spec_running(),
            r.spec_discovery() == update_known_peers,
    {
        ApplicationState { known_peers: PeerRegistry::new(), this_peer, keep_running: true, update_known_peers }
    }

    pub fn this_peer(&self) -> (r: Peer)
        ensures
            r == self.spec_this_peer(),
    {
        self.this_peer
    }

    pub fn keep_running(&self) -> (r: bool)
        ensures
            r == self.spec_running(),
    {
        self.keep_running
    }

    pub fn discovery_enabled(&self) -> (r: bool)
        ensures
            r == self.spec_discovery(),
    {
        self.update_known_peers
    }

    /// A copy of the known peers.
    pub fn known_peers(&self) -> (r: PeerRegistry)
        requires
            self.wf(),
        ensures
            r.wf(),
            r@ == self.spec_known(),
    {
        self.known_peers.snapshot()
    }

    /// Registers `peer` under `socket_addr`, overwriting; this node's own address is never stored.
    pub fn add_known_peer(&mut self, socket_addr: Addr, peer: Peer)
        requires
            old(self).wf(),
        ensures
            final(self).wf(),
            final(self).spec_known() == if socket_addr == old(self).spec_self_addr() {
                old(self).spec_known()
            } else {
                old(self).spec_known().insert(socket_addr, peer)
            },
            final(self).spec_this_peer() == old(self).spec_this_peer(),
            final(self).spec_running() == old(self).spec_running(),
            final(self).spec_discovery() == old(self).spec_discovery(),
    {
        let me = self.this_peer.socket_addr();
        if socket_addr != me {
            self.known_peers.put(socket_addr, peer);
        }
    }

    /// Handles a connection request from `observed` declaring `peer`.
    pub fn handshake(&mut self, observed: Ip, peer: Peer) -> (r: Handshake)
        requires
            old(self).wf(),
        ensures
            final(self).wf(),
            (final(self).spec_known(), r) == handshake_result(old(self).spec_known(), old(self).spec_self_addr(), observed, peer),
            final(self).spec_this_peer() == old(self).spec_this_peer(),
            final(self).spec_running() == old(self).spec_running(),
            final(self).spec_discovery() == old(self).spec_discovery(),
    {
        let ip = match peer.host_alias {
            Some(alias) => alias,
            None => observed,
        };
        let x = Addr { ip, port: peer.port };
        let me = self.this_peer.socket_addr();
        if x == me {
            Handshake::RejectedSelf
        } else if self.known_peers.contains(&x) {
            Handshake::AlreadyConnected(x)
        } else {
            self.known_peers.put(x, peer);
            Handshake::Connected(x)
        }
    }

    /// Merges one registry pulled from another peer.
    pub fn merge_known_peers(&mut self, remote: &PeerRegistry)
        requires
            old(self).wf(),
            remote.wf(),
        ensures
            final(self).wf(),
            final(self).spec_known() == merged(old(self).spec_known(), old(self).spec_self_addr(), remote@),
            final(self).spec_this_peer() == old(self).spec_this_peer(),
            final(self).spec_running() == old(self).spec_running(),
            final(self).spec_discovery() == old(self).spec_discovery(),
    {
        let me = self.this_peer.socket_addr();
        let entries = remote.entries();
        let ghost m0 = self.known_peers@;
        let ghost r = remote@.remove(me);
        let mut i: usize = 0;
        while i < entries.len()
            invariant
                i <= entries@.len(),
                me == self.this_peer.spec_socket_addr(),
                crate::registry::keys_unique(entries@),
                crate::registry::entries_map(entries@) == remote@,
                self.known_peers.wf(),
                !self.known_peers@.contains_key(me),
                self.this_peer == old(self).this_peer,
                self.keep_running == old(self).keep_running,
                self.update_known_peers == old(self).update_known_peers,
                r == remote@.remove(me),
                self.known_peers@ == m0.union_prefer_right(
                    r.restrict(Set::new(|a: Addr| exists|j: int| 0 <= j < i && #[trigger] entries@[j].0 == a)),
                ),
            decreases entries@.len() - i,
        {
            let (a, p) = entries[i];
            let ghost before = self.known_peers@;
            if a != me {
                self.known_peers.put(a, p);
            }
            proof {
                crate::registry::lemma_entry(entries@, i as int);
                let s_old = Set::new(|b: Addr| exists|j: int| 0 <= j < i && #[trigger] entries@[j].0 == b);
                let s_new = Set::new(|b: Addr| exists|j: int| 0 <= j < i + 1 && #[trigger] entries@[j].0 == b);
                assert(entries@[i as int].0 == a);
                assert(entries@[i as int].1 == p);
                assert(remote@.contains_key(a) && remote@[a] == p);
                assert(s_new =~= s_old.insert(a));
                if a != me {
                    assert(r.contains_key(a) && r[a] == p);
                    assert(m0.union_prefer_right(r.restrict(s_new)) =~= m0.union_prefer_right(r.restrict(s_old)).insert(a, p));
                } else {
                    assert(!r.contains_key(a));
                    assert(m0.union_prefer_right(r.restrict(s_new)) =~= m0.union_prefer_right(r.restrict(s_old)));
                }
            }
            i = i + 1;
        }
        proof {
            let s_all = Set::new(|b: Addr| exists|j: int| 0 <= j < entries@.len() && #[trigger] entries@[j].0 == b);
            assert forall|b: Addr| r.contains_key(b) implies s_all.contains(b) by {
                let j = choose|j: int| 0 <= j < entries@.len() && #[trigger] entries@[j].0 == b;
                assert(entries@[j].0 == b);
            }
            assert(r.restrict(s_all) =~= r);
        }
    }

    /// Merges, in order, every pull that succeeded (`Some`); failed pulls are dropped.
    pub fn update_known_peers(&mut self, pulls: &Vec<Option<PeerRegistry>>)
        requires
            old(self).wf(),
            forall|i: int| 0 <= i < pulls@.len() && (#[trigger] pulls@[i]) is Some ==> pulls@[i]->0.wf(),
        ensures
            final(self).wf(),
            final(self).spec_known() == merged_all(old(self).spec_known(), old(self).spec_self_addr(), pull_views(pulls@)),
            final(self).spec_this_peer() == old(self).spec_this_peer(),
            final(self).spec_running() == old(self).spec_running(),
            final(self).spec_discovery() == old(self).spec_discovery(),
    {
        let ghost m0 = self.known_peers@;
        let ghost me = self.this_peer.spec_socket_addr();
        let mut i: usize = 0;
        while i < pulls.len()
            invariant
                i <= pulls@.len(),
                forall|k: int| 0 <= k < pulls@.len() && (#[trigger] pulls@[k]) is Some ==> pulls@[k]->0.wf(),
                self.wf(),
                self.this_peer == old(self).this_peer,
                self.keep_running == old(self).keep_running,
                self.update_known_peers == old(self).update_known_peers,
                me == self.this_peer.spec_socket_addr(),
                self.known_peers@ == merged_all(m0, me, pull_views(pulls@).take(i as int)),
            decreases pulls@.len() - i,
        {
            match &pulls[i] {
                Some(remote) => self.merge_known_peers(remote),
                None => {},
            }
            proof {
                let v = pull_views(pulls@);
                assert(v.take(i + 1).drop_last() =~= v.take(i as int));
            }
            i = i + 1;
        }
        proof {
            assert(pull_views(pulls@).take(pulls@.len() as int) =~= pull_views(pulls@));
        }
    }

    /// The peers to push to: every known address, each once.
    pub fn push_targets(&self) -> (r: Vec<Addr>)
        requires
            self.wf(),
        ensures
            r@.no_duplicates(),
            forall|a: Addr| r@.contains(a) <==> self.spec_known().contains_key(a),
    {
        self.known_peers.addresses()
    }

    /// Evicts every peer to which a push failed; `outcomes` pairs each target with whether
    /// the push succeeded.
    pub fn evict_unreachable(&mut self, outcomes: &Vec<(Addr, bool)>)
        requires
            old(self).wf(),
        ensures
            final(self).wf(),
            final(self).spec_known() == old(self).spec_known().remove_keys(failed_targets(outcomes@)),
            final(self).spec_this_peer() == old(self).spec_this_peer(),
            final(self).spec_running() == old(self).spec_running(),
            final(self).spec_discovery() == old(self).spec_discovery(),
    {
        let ghost m0 = self.known_peers@;
        let mut i: usize = 0;
        while i < outcomes.len()
            invariant
                i <= outcomes@.len(),
                self.wf(),
                self.this_peer == old(self).this_peer,
                self.keep_running == old(self).keep_running,
                self.update_known_peers == old(self).update_known_peers,
                self.known_peers@ == m0.remove_keys(failed_targets(outcomes@.take(i as int))),
            decreases outcomes@.len() - i,
        {
            let (a, delivered) = outcomes[i];
            if !delivered {
                self.known_peers.remove(&a);
            }
            proof {
                let f_old = failed_targets(outcomes@.take(i as int));
                let f_new = failed_targets(outcomes@.take(i + 1));
                assert(outcomes@.take(i + 1)[i as int] == (a, delivered));
                assert forall|b: Addr| f_old.contains(b) implies f_new.contains(b) by {
                    let j = choose|j: int| 0 <= j < i && #[trigger] outcomes@.take(i as int)[j] == (b, false);
                    assert(outcomes@.take(i + 1)[j] == (b, false));
                }
                assert forall|b: Addr| f_new.contains(b) && b != a implies f_old.contains(b) by {
                    let j = choose|j: int| 0 <= j < i + 1 && #[trigger] outcomes@.take(i + 1)[j] == (b, false);
                    assert(outcomes@.take(i as int)[j] == (b, false));
                }
                if delivered {
                    assert forall|b: Addr| f_new.contains(b) implies f_old.contains(b) by {
                        let j = choose|j: int| 0 <= j < i + 1 && #[trigger] outcomes@.take(i + 1)[j] == (b, false);
                        assert(outcomes@.take(i as int)[j] == (b, false));
                    }
                    assert(f_new =~= f_old);
                } else {
                    assert(f_new =~= f_old.insert(a));
                    assert(m0.remove_keys(f_new) =~= m0.remove_keys(f_old).remove(a));
                }
            }
            i = i + 1;
        }
        proof {
            assert(outcomes@.take(outcomes@.len() as int) =~= outcomes@);
        }
    }

    /// Tells the gossip loop to end at its next tick.
    pub fn stop(&mut self)
        requires
            old(self).wf(),
        ensures
            final(self).wf(),
            !final(self).spec_running(),
            final(self).spec_known() == old(self).spec_known(),
            final(self).spec_this_peer() == old(self).spec_this_peer(),
            final(self).spec_discovery() == old(self).spec_discovery(),
    {
        self.keep_running = false;
    }

    /// What the gossip loop does on this tick: stop once told to, else pull first when
    /// discovery is enabled, else push; the targets are every known address, each once.
    pub fn on_tick(&self) -> (r: TickPlan)
        requires
            self.wf(),
        ensures
            (r is Stop) == !self.spec_running(),
            (r is Discover) == (self.spec_running() && self.spec_discovery()),
            (r is Disseminate) == (self.spec_running() && !self.spec_discovery()),
            match r {
                TickPlan::Discover(t) | TickPlan::Disseminate(t) => {
                    &&& t@.no_duplicates()
                    &&& forall|a: Addr| t@.contains(a) <==> self.spec_known().contains_key(a)
                },
                TickPlan::Stop => true,
            },
    {
        if !self.keep_running {
            TickPlan::Stop
        } else if self.update_known_peers {
            TickPlan::Discover(self.known_peers.addresses())
        } else {
            TickPlan::Disseminate(self.known_peers.addresses())
        }
    }
}

} // verus!
