//! Which peers the client is connected to, and which it could connect to.
use crate::address::SocketAddr;
use crate::queue::{insert_all, law_insert_all};
use vstd::prelude::*;

verus! {

/// The most peers that are dialed at once.
pub const MAX_DIALED: usize = 5;

/// The peers that are known but not dialed yet, and those that are connected.
#[derive(Debug)]
pub struct PeerManager {
    pub available_peers: Vec<SocketAddr>,
    pub peers: Vec<SocketAddr>,
}

/// What a peer manager knows.
#[verifier::ext_equal]
pub struct ManagerView {
    pub available: Seq<SocketAddr>,
    pub peers: Seq<SocketAddr>,
}

impl View for PeerManager {
    type V = ManagerView;

    open spec fn view(&self) -> ManagerView {
        ManagerView { available: self.available_peers@, peers: self.peers@ }
    }
}

/// `s` without any `a`.
pub open spec fn without<A>(s: Seq<A>, a: A) -> Seq<A>
    decreases s.len(),
{
    if s.len() == 0 {
        s
    } else if s.last() == a {
        without(s.drop_last(), a)
    } else {
        without(s.drop_last(), a).push(s.last())
    }
}

impl ManagerView {
    /// No peer is connected twice.
    pub open spec fn wf(self) -> bool {
        self.peers.no_duplicates()
    }

    /// How many peers there are to dial.
    pub open spec fn quota(self) -> nat {
        if self.available.len() > MAX_DIALED {
            MAX_DIALED as nat
        } else {
            self.available.len()
        }
    }

    /// The peers to dial: the first of those that are known, unless more are
    /// connected than there are to dial.
    pub open spec fn dialed(self) -> Seq<SocketAddr> {
        if self.peers.len() > self.quota() {
            Seq::empty()
        } else {
            self.available.take(self.quota() as int)
        }
    }

    /// After the peers to dial were dialed.
    pub open spec fn after_dialing(self) -> ManagerView {
        ManagerView {
            available: self.available.skip(self.dialed().len() as int),
            peers: insert_all(self.peers, self.dialed()),
        }
    }

    /// After the tracker gave a new list.
    pub open spec fn after_announce(self, addresses: Seq<SocketAddr>) -> ManagerView {
        ManagerView { available: addresses, ..self }
    }

    /// After the connection to `peer` ended.
    pub open spec fn after_shutdown(self, peer: SocketAddr) -> ManagerView {
        ManagerView { peers: without(self.peers, peer), ..self }
    }
}

impl PeerManager {
    /// A manager that knows no peers.
    pub fn new() -> (manager: PeerManager)
        ensures
            manager@ == (ManagerView { available: Seq::empty(), peers: Seq::empty() }),
            manager@.wf(),
    {
        PeerManager { available_peers: Vec::new(), peers: Vec::new() }
    }

    /// Takes over the peers that the tracker gave, in place of those it gave
    /// before.
    pub fn set_available_peers(&mut self, address: Vec<SocketAddr>)
        ensures
            final(self)@ == old(self)@.after_announce(address@),
    {
        self.available_peers = address;
    }

    /// The peers to dial now. They are no longer available, and count as
    /// connected.
    pub fn connect_peers(&mut self) -> (dialed: Vec<SocketAddr>)
        ensures
            dialed@ == old(self)@.dialed(),
            final(self)@ == old(self)@.after_dialing(),
    {
        let ghost before = self@;
        let known: usize = self.available_peers.len();
        let quota: usize = if known > MAX_DIALED {
            MAX_DIALED
        } else {
            known
        };
        let mut dialed: Vec<SocketAddr> = Vec::new();
        if self.peers.len() > quota {
            proof {
                assert(before.available.skip(0) =~= before.available);
                assert(dialed@ =~= before.dialed());
                assert(self@ =~= before.after_dialing());
            }
            return dialed;
        }
        let mut rest: Vec<SocketAddr> = Vec::new();
        let mut i: usize = 0;
        assert(before.available.take(0) =~= Seq::empty());
        while i < known
            invariant
                i <= known,
                known == before.available.len(),
                quota == before.quota(),
                quota <= known,
                self.available_peers@ == before.available,
                i <= quota ==> dialed@ == before.available.take(i as int) && rest@ == Seq::<
                    SocketAddr,
                >::empty(),
                i > quota ==> dialed@ == before.available.take(quota as int) && rest@
                    == before.available.subrange(quota as int, i as int),
                self.peers@ == insert_all(before.peers, dialed@),
            decreases known - i,
        {
            let addr: SocketAddr = self.available_peers[i];
            if i < quota {
                let ghost connected = self.peers@;
                let ghost list = dialed@;
                dialed.push(addr);
                let present: bool = self.is_connected(addr);
                if !present {
                    self.peers.push(addr);
                }
                proof {
                    assert(dialed@.drop_last() =~= list);
                    assert(dialed@ =~= before.available.take(i + 1));
                }
            } else {
                rest.push(addr);
                assert(rest@ =~= before.available.subrange(quota as int, i + 1));
            }
            i = i + 1;
        }
        self.available_peers = rest;
        proof {
            assert(dialed@ =~= before.dialed());
            assert(self.available_peers@ =~= before.available.skip(quota as int));
            assert(self@ =~= before.after_dialing());
        }
        dialed
    }

    /// Whether the client is connected to `peer`.
    pub fn is_connected(&self, peer: SocketAddr) -> (connected: bool)
        ensures
            connected == self@.peers.contains(peer),
    {
        let mut i: usize = 0;
        while i < self.peers.len()
            invariant
                i <= self.peers@.len(),
                forall|j: int| 0 <= j < i ==> self.peers@[j] != peer,
            decreases self.peers@.len() - i,
        {
            if self.peers[i] == peer {
                assert(self.peers@[i as int] == peer);
                return true;
            }
            i = i + 1;
        }
        false
    }

    /// Forgets the connection to `peer`.
    pub fn shutdown_peer(&mut self, peer: SocketAddr)
        ensures
            final(self)@ == old(self)@.after_shutdown(peer),
    {
        let ghost before = self@;
        let mut kept: Vec<SocketAddr> = Vec::new();
        let mut i: usize = 0;
        while i < self.peers.len()
            invariant
                i <= self.peers@.len(),
                self@ == before,
                kept@ == without(before.peers.take(i as int), peer),
            decreases self.peers@.len() - i,
        {
            let addr: SocketAddr = self.peers[i];
            if addr != peer {
                kept.push(addr);
            }
            i = i + 1;
            assert(before.peers.take(i as int).drop_last() =~= before.peers.take(i - 1));
        }
        assert(before.peers.take(i as int) =~= before.peers);
        self.peers = kept;
        assert(self@ =~= before.after_shutdown(peer));
    }
}

/// What `without` keeps.
pub proof fn law_without<A>(s: Seq<A>, a: A)
    ensures
        forall|b: A| #[trigger] without(s, a).contains(b) <==> s.contains(b) && b != a,
        s.no_duplicates() ==> without(s, a).no_duplicates(),
        without(s, a).len() <= s.len(),
    decreases s.len(),
{
    if s.len() > 0 {
        law_without(s.drop_last(), a);
        let rest = without(s.drop_last(), a);
        let all = without(s, a);
        assert forall|b: A| #[trigger] all.contains(b) <==> s.contains(b) && b != a by {
            if s.drop_last().contains(b) {
                let k = choose|k: int| 0 <= k < s.len() - 1 && s.drop_last()[k] == b;
                assert(s[k] == b);
            }
            if s.contains(b) && b != s.last() {
                let k = choose|k: int| 0 <= k < s.len() && s[k] == b;
                assert(s.drop_last()[k] == b);
            }
            if s.last() != a {
                assert(all.last() == s.last());
                if rest.contains(b) {
                    let k = choose|k: int| 0 <= k < rest.len() && rest[k] == b;
                    assert(all[k] == b);
                }
                if all.contains(b) && b != s.last() {
                    let k = choose|k: int| 0 <= k < all.len() && all[k] == b;
                    assert(rest[k] == b);
                }
                assert(s[s.len() - 1] == s.last());
            }
        }
        if s.no_duplicates() && s.last() != a {
            assert(!s.drop_last().contains(s.last()));
            assert(!rest.contains(s.last()));
        }
    }
}

/// Dialing takes at most five of the known peers, the first ones, leaves the
/// others known in their order, and connects to each of them once. Afterwards
/// there are no more connections than before, or at most ten.
pub proof fn law_dialing(m: ManagerView)
    requires
        m.wf(),
    ensures
        m.dialed().len() <= MAX_DIALED,
        m.dialed() + m.after_dialing().available == m.available,
        m.after_dialing().wf(),
        forall|a: SocketAddr| #[trigger]
            m.after_dialing().peers.contains(a) <==> m.peers.contains(a) || m.dialed().contains(a),
        m.after_dialing().peers.len() <= m.peers.len() || m.after_dialing().peers.len() <= 2
            * MAX_DIALED,
{
    law_insert_all(m.peers, m.dialed());
    assert(m.dialed() + m.after_dialing().available =~= m.available);
}

/// A peer whose connection ended is not connected, and nothing else changes.
pub proof fn law_shutdown(m: ManagerView, peer: SocketAddr)
    requires
        m.wf(),
    ensures
        m.after_shutdown(peer).wf(),
        m.after_shutdown(peer).available == m.available,
        forall|a: SocketAddr| #[trigger]
            m.after_shutdown(peer).peers.contains(a) <==> m.peers.contains(a) && a != peer,
{
    law_without(m.peers, peer);
}

/// What a manager knows is what its fields hold.
pub proof fn law_manager_view(m: PeerManager)
    ensures
        m@.available == m.available_peers@,
        m@.peers == m.peers@,
{
}

/// Who is dialed: the first five of the known peers, or all where there are
/// fewer; nobody where more peers are connected than that.
pub proof fn law_who_is_dialed(m: ManagerView)
    ensures
        ({
            let n: int = if m.available.len() < 5 {
                m.available.len() as int
            } else {
                5
            };
            &&& m.peers.len() > n ==> m.dialed().len() == 0 && m.after_dialing().available
                == m.available && m.after_dialing().peers == m.peers
            &&& m.peers.len() <= n ==> {
                &&& m.dialed().len() == n
                &&& forall|i: int| 0 <= i < n ==> #[trigger] m.dialed()[i] == m.available[i]
                &&& m.after_dialing().available.len() == m.available.len() - n
                &&& forall|i: int|
                    0 <= i < m.available.len() - n ==> #[trigger] m.after_dialing().available[i]
                        == m.available[i + n]
            }
            &&& m.peers.is_prefix_of(m.after_dialing().peers)
            &&& forall|a: SocketAddr| #[trigger]
                m.after_dialing().peers.contains(a) <==> m.peers.contains(a) || m.dialed().contains(a)
        }),
{
    law_insert_all(m.peers, m.dialed());
    assert(m.after_dialing().peers.take(m.peers.len() as int) == m.peers);
    assert(m.available.skip(0) =~= m.available);
}

/// The peers that the tracker gives take the place of those that were known, and
/// no connection changes.
pub proof fn law_announced_peers_replace(m: ManagerView, addresses: Seq<SocketAddr>)
    ensures
        m.after_announce(addresses).available == addresses,
        m.after_announce(addresses).peers == m.peers,
{
}

/// A connection that ended leaves the list, and the others stay in their order.
pub proof fn law_shutdown_keeps_order(
    m: ManagerView,
    front: Seq<SocketAddr>,
    peer: SocketAddr,
    back: Seq<SocketAddr>,
)
    requires
        m.peers == front + seq![peer] + back,
        !front.contains(peer),
        !back.contains(peer),
    ensures
        m.after_shutdown(peer).peers == front + back,
        m.after_shutdown(peer).available == m.available,
{
    lemma_without_absent(front, peer);
    lemma_without_add(front + seq![peer], back, peer);
    lemma_without_absent(back, peer);
    assert((front + seq![peer]).drop_last() =~= front);
    assert(m.peers =~= (front + seq![peer]) + back);
}

/// Nothing changes where a peer that is not connected is forgotten.
pub proof fn law_shutdown_of_a_stranger(m: ManagerView, peer: SocketAddr)
    requires
        !m.peers.contains(peer),
    ensures
        m.after_shutdown(peer).peers == m.peers,
        m.after_shutdown(peer).available == m.available,
{
    lemma_without_absent(m.peers, peer);
}

proof fn lemma_without_absent<A>(s: Seq<A>, a: A)
    requires
        !s.contains(a),
    ensures
        without(s, a) == s,
    decreases s.len(),
{
    if s.len() > 0 {
        assert(s.contains(s[s.len() - 1]));
        assert forall|i: int| 0 <= i < s.len() - 1 implies s.drop_last()[i] != a by {
            assert(s.contains(s[i]));
        }
        lemma_without_absent(s.drop_last(), a);
        assert(s.drop_last().push(s.last()) =~= s);
    }
}

proof fn lemma_without_add<A>(s: Seq<A>, t: Seq<A>, a: A)
    ensures
        without(s + t, a) == without(s, a) + without(t, a),
    decreases t.len(),
{
    if t.len() == 0 {
        assert(s + t =~= s);
        assert(without(s, a) + without(t, a) =~= without(s, a));
    } else {
        lemma_without_add(s, t.drop_last(), a);
        assert((s + t).drop_last() =~= s + t.drop_last());
        assert((s + t).last() == t.last());
        assert(without(s + t, a) =~= without(s, a) + without(t, a));
    }
}

/// Peers that are dialed for the first time are connected after those that were,
/// as they were known.
pub proof fn law_dialed_come_last(m: ManagerView)
    requires
        m.dialed().no_duplicates(),
        forall|k: int| 0 <= k < m.dialed().len() ==> !m.peers.contains(#[trigger] m.dialed()[k]),
    ensures
        m.after_dialing().peers == m.peers + m.dialed(),
{
    crate::queue::law_insert_all_of_new_items(m.peers, m.dialed());
}

} // verus!
