//! The registry of trusted federation peers, and what a federated query asks
//! of each: adding, removing and finding peers, recording contact, the peer
//! endpoints, and the scope and size of each peer's share of a query.

use vstd::prelude::*;
use crate::error::{unit_result, EngineError, ErrorView};
use crate::federation::FederationPeer;
use crate::text::{char_pred, chars_eq_str, chars_of, concat_str, drop_back};

verus! {

/// The federation engine's peer registry: the trusted peers, in the order
/// they were added.
pub struct FederationEngine {
    pub peers: Vec<FederationPeer>,
}

/// `ps` without the peers whose id is `id`.
pub open spec fn without_peer(ps: Seq<FederationPeer>, id: u128) -> Seq<FederationPeer>
    decreases ps.len(),
{
    if ps.len() == 0 {
        ps
    } else {
        let r = without_peer(ps.drop_last(), id);
        if ps.last().id != id { r.push(ps.last()) } else { r }
    }
}

/// No peer left by `without_peer` has the removed id, and every other peer
/// stays.
pub proof fn lemma_without_peer(ps: Seq<FederationPeer>, id: u128)
    ensures
        forall|i: int| 0 <= i < without_peer(ps, id).len() ==> (#[trigger] without_peer(ps, id)[i]).id != id,
        forall|i: int| 0 <= i < ps.len() && (#[trigger] ps[i]).id != id ==> without_peer(ps, id).contains(ps[i]),
    decreases ps.len(),
{
    if ps.len() > 0 {
        lemma_without_peer(ps.drop_last(), id);
        let r = without_peer(ps.drop_last(), id);
        assert forall|i: int| 0 <= i < ps.len() && (#[trigger] ps[i]).id != id implies without_peer(ps, id).contains(ps[i]) by {
            if i < ps.len() - 1 {
                assert(ps.drop_last()[i] == ps[i]);
                assert(r.contains(ps[i]));
                let k = choose|k: int| 0 <= k < r.len() && r[k] == ps[i];
                if ps.last().id != id {
                    assert(r.push(ps.last())[k] == ps[i]);
                }
            } else {
                assert(r.push(ps.last())[r.len() as int] == ps[i]);
            }
        }
    }
}

/// The first peer among `ps` whose vault id is `vault_id`.
pub open spec fn first_with_vault_id(ps: Seq<FederationPeer>, vault_id: Seq<char>) -> Option<int> {
    if exists|i: int| 0 <= i < ps.len() && (#[trigger] ps[i]).vault_id@ == vault_id {
        Some(choose|i: int| 0 <= i < ps.len() && (#[trigger] ps[i]).vault_id@ == vault_id && forall|j: int| 0 <= j < i ==> (#[trigger] ps[j]).vault_id@ != vault_id)
    } else {
        None
    }
}

impl FederationEngine {
    /// An empty registry.
    pub fn new() -> (r: Self)
        ensures
            r.peers@.len() == 0,
    {
        FederationEngine { peers: Vec::new() }
    }

    /// Adds a trusted peer after the others.
    pub fn add_peer(&mut self, peer: FederationPeer)
        ensures
            final(self).peers@ == old(self).peers@.push(peer),
    {
        self.peers.push(peer);
    }

    /// Removes every peer with `id`; whether one was removed.
    pub fn remove_peer(&mut self, id: u128) -> (removed: bool)
        ensures
            removed == exists|i: int| 0 <= i < old(self).peers@.len() && (#[trigger] old(self).peers@[i]).id == id,
            final(self).peers@ == without_peer(old(self).peers@, id),
            forall|i: int| 0 <= i < final(self).peers@.len() ==> (#[trigger] final(self).peers@[i]).id != id,
    {
        let ghost before = self.peers@;
        let mut rest: Vec<FederationPeer> = Vec::new();
        std::mem::swap(&mut rest, &mut self.peers);
        let n = rest.len();
        let mut kept: Vec<FederationPeer> = Vec::new();
        let mut removed = false;
        let mut i: usize = 0;
        proof {
            assert(before.skip(0) =~= before);
            assert(before.take(0) =~= Seq::<FederationPeer>::empty());
        }
        while rest.len() > 0
            invariant
                i + rest@.len() == before.len(),
                n == before.len(),
                rest@ == before.skip(i as int),
                kept@ == without_peer(before.take(i as int), id),
                removed == exists|k: int| 0 <= k < i && (#[trigger] before[k]).id == id,
            decreases rest.len(),
        {
            let p = rest.remove(0);
            proof {
                assert(before.take(i + 1).drop_last() =~= before.take(i as int));
                assert(before.take(i + 1).last() == before[i as int]);
                assert(rest@ =~= before.skip(i + 1));
            }
            if p.id == id {
                removed = true;
            } else {
                kept.push(p);
            }
            i += 1;
        }
        proof {
            assert(before.take(before.len() as int) =~= before);
            lemma_without_peer(before, id);
        }
        self.peers = kept;
        removed
    }

    /// The index of the first peer with `vault_id`, if any.
    pub fn find_peer_by_vault_id(&self, vault_id: &str) -> (r: Option<usize>)
        ensures
            match r {
                Some(i) => first_with_vault_id(self.peers@, vault_id@) == Some(i as int) && i < self.peers@.len(),
                None => first_with_vault_id(self.peers@, vault_id@) is None,
            },
    {
        let v = chars_of(vault_id);
        let mut i: usize = 0;
        while i < self.peers.len()
            invariant
                i <= self.peers@.len(),
                v@ == vault_id@,
                forall|j: int| 0 <= j < i ==> (#[trigger] self.peers@[j]).vault_id@ != vault_id@,
            decreases self.peers.len() - i,
        {
            if chars_eq_str(v.as_slice(), self.peers[i].vault_id.as_str()) {
                proof {
                    let w = choose|q: int| 0 <= q < self.peers@.len() && (#[trigger] self.peers@[q]).vault_id@ == vault_id@ && forall|j: int| 0 <= j < q ==> (#[trigger] self.peers@[j]).vault_id@ != vault_id@;
                    assert(self.peers@[i as int].vault_id@ == vault_id@);
                    if w < i {
                        assert(self.peers@[w].vault_id@ != vault_id@);
                    }
                    if w > i {
                        assert(self.peers@[i as int].vault_id@ != vault_id@);
                    }
                }
                return Some(i);
            }
            i += 1;
        }
        None
    }

    /// The index of the first peer with `id`, if any.
    pub fn find_peer(&self, id: u128) -> (r: Option<usize>)
        ensures
            match r {
                Some(i) => i < self.peers@.len() && self.peers@[i as int].id == id
                    && forall|j: int| 0 <= j < i ==> (#[trigger] self.peers@[j]).id != id,
                None => forall|j: int| 0 <= j < self.peers@.len() ==> (#[trigger] self.peers@[j]).id != id,
            },
    {
        let mut i: usize = 0;
        while i < self.peers.len()
            invariant
                i <= self.peers@.len(),
                forall|j: int| 0 <= j < i ==> (#[trigger] self.peers@[j]).id != id,
            decreases self.peers.len() - i,
        {
            if self.peers[i].id == id {
                return Some(i);
            }
            i += 1;
        }
        None
    }

    /// Refuses a handshake with a vault that is already a peer.
    pub fn check_new_vault_id(&self, vault_id: &str) -> (r: Result<(), EngineError>)
        ensures
            r is Ok <==> first_with_vault_id(self.peers@, vault_id@) is None,
            r matches Err(e) ==> e@ == ErrorView::Federation("peer with vault_id '"@ + vault_id@ + "' is already registered"@),
    {
        if self.find_peer_by_vault_id(vault_id).is_some() {
            let a = concat_str("peer with vault_id '", vault_id);
            return Err(EngineError::Federation(concat_str(a.as_str(), "' is already registered")));
        }
        Ok(())
    }

    /// Records contact with the first peer with `id` at `now` (Unix
    /// milliseconds); the other peers are unchanged.
    pub fn update_last_seen(&mut self, id: u128, now: i64)
        ensures
            final(self).peers@.len() == old(self).peers@.len(),
            forall|j: int| 0 <= j < old(self).peers@.len() ==> (#[trigger] final(self).peers@[j]).id == old(self).peers@[j].id
                && final(self).peers@[j].vault_id == old(self).peers@[j].vault_id
                && final(self).peers@[j].enabled == old(self).peers@[j].enabled,
            forall|j: int| 0 <= j < old(self).peers@.len() && (#[trigger] old(self).peers@[j]).id == id
                && (forall|k: int| 0 <= k < j ==> (#[trigger] old(self).peers@[k]).id != id)
                ==> final(self).peers@[j].last_seen == Some(now),
            forall|j: int| 0 <= j < old(self).peers@.len() && !((#[trigger] old(self).peers@[j]).id == id
                && (forall|k: int| 0 <= k < j ==> (#[trigger] old(self).peers@[k]).id != id))
                ==> final(self).peers@[j] == old(self).peers@[j],
    {
        match self.find_peer(id) {
            Some(i) => {
                let mut p = self.peers.remove(i);
                p.last_seen = Some(now);
                self.peers.insert(i, p);
                proof {
                    assert forall|j: int| 0 <= j < old(self).peers@.len() && (#[trigger] old(self).peers@[j]).id == id
                        && (forall|k: int| 0 <= k < j ==> (#[trigger] old(self).peers@[k]).id != id)
                        implies j == i by {
                        if j > i {
                            assert(old(self).peers@[i as int].id == id);
                        }
                    }
                }
            },
            None => {},
        }
    }

    /// The peers a federated query goes to: the enabled ones, in order.
    pub fn enabled_peer_ids(&self) -> (out: Vec<u128>)
        ensures
            out@ == self.peers@.filter(|p: FederationPeer| p.enabled).map_values(|p: FederationPeer| p.id),
    {
        let mut out: Vec<u128> = Vec::new();
        let mut i: usize = 0;
        proof {
            reveal(Seq::filter);
            assert(self.peers@.take(0).filter(|p: FederationPeer| p.enabled) =~= Seq::<FederationPeer>::empty());
        }
        while i < self.peers.len()
            invariant
                i <= self.peers@.len(),
                out@ == self.peers@.take(i as int).filter(|p: FederationPeer| p.enabled).map_values(|p: FederationPeer| p.id),
            decreases self.peers.len() - i,
        {
            proof {
                reveal(Seq::filter);
                assert(self.peers@.take(i + 1).drop_last() =~= self.peers@.take(i as int));
                assert(self.peers@.take(i + 1).last() == self.peers@[i as int]);
                let f = |p: FederationPeer| p.enabled;
                let g = |p: FederationPeer| p.id;
                if self.peers@[i as int].enabled {
                    assert(self.peers@.take(i + 1).filter(f).map_values(g) =~= self.peers@.take(i as int).filter(f).map_values(g).push(self.peers@[i as int].id));
                }
            }
            if self.peers[i].enabled {
                out.push(self.peers[i].id);
            }
            i += 1;
        }
        proof { assert(self.peers@.take(self.peers@.len() as int) =~= self.peers@); }
        out
    }
}

/// The identity endpoint of a peer whose endpoint is `endpoint`.
pub fn identity_url(endpoint: &str) -> (out: String)
    ensures
        out@ == drop_back(endpoint@, char_pred('/')) + "/api/v1/federation/identity"@,
{
    let p = FederationPeer::new("", "", endpoint);
    let base = p.api_base();
    concat_str(base.as_str(), "/api/v1/federation/identity")
}

/// The health endpoint of a peer.
pub fn health_url(peer: &FederationPeer) -> (out: String)
    ensures
        out@ == drop_back(peer.endpoint@, char_pred('/')) + "/api/v1/health"@,
{
    let base = peer.api_base();
    concat_str(base.as_str(), "/api/v1/health")
}

/// The recall endpoint of a peer.
pub fn recall_url(peer: &FederationPeer) -> (out: String)
    ensures
        out@ == drop_back(peer.endpoint@, char_pred('/')) + "/api/v1/recall"@,
{
    let base = peer.api_base();
    concat_str(base.as_str(), "/api/v1/recall")
}

/// How many results a peer is asked for: the query's limit, at most the
/// peer's own maximum.
pub fn per_peer_limit(limit: usize, peer: &FederationPeer) -> (n: usize)
    ensures
        n == if limit < peer.max_results { limit } else { peer.max_results },
{
    if limit < peer.max_results { limit } else { peer.max_results }
}

/// The namespace a peer's recall is scoped to: its one allowed namespace,
/// when it allows exactly one.
pub fn recall_namespace(peer: &FederationPeer) -> (r: Option<String>)
    ensures
        peer.allowed_namespaces@.len() == 1 ==> (r matches Some(n) && n@ == peer.allowed_namespaces@[0]@),
        peer.allowed_namespaces@.len() != 1 ==> r is None,
{
    if peer.allowed_namespaces.len() == 1 {
        Some(peer.allowed_namespaces[0].clone())
    } else {
        None
    }
}

/// Whether a peer's health answer says it is healthy: its status is `ok`.
pub fn peer_healthy(status: &str) -> (b: bool)
    ensures
        b == (status@ == "ok"@),
{
    let s = chars_of(status);
    chars_eq_str(s.as_slice(), "ok")
}

/// A peer just added is found by its vault id: at its own place when no
/// earlier peer has that vault id, else at the earlier one.
pub proof fn lemma_added_peer_is_found(ps: Seq<FederationPeer>, p: FederationPeer)
    ensures
        first_with_vault_id(ps.push(p), p.vault_id@) is Some,
        first_with_vault_id(ps, p.vault_id@) is None ==> first_with_vault_id(ps.push(p), p.vault_id@) == Some(ps.len() as int),
{
    let qs = ps.push(p);
    assert(qs[ps.len() as int].vault_id@ == p.vault_id@);
    if first_with_vault_id(ps, p.vault_id@) is None {
        let w = choose|i: int| 0 <= i < qs.len() && (#[trigger] qs[i]).vault_id@ == p.vault_id@ && forall|j: int| 0 <= j < i ==> (#[trigger] qs[j]).vault_id@ != p.vault_id@;
        if w < ps.len() {
            assert(ps[w] == qs[w]);
        }
        assert forall|j: int| 0 <= j < ps.len() implies (#[trigger] qs[j]).vault_id@ != p.vault_id@ by {
            assert(ps[j] == qs[j]);
        }
    }
}

} // verus!
