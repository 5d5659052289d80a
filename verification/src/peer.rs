//! A peer and its connections: which one carries the data, which ones are let in.
use crate::collections::lists;
use crate::digits::{decimal, decimal_text};
use crate::text::{copy_text, push_text};
use dashmap::{DashMap, DashSet};
use vstd::prelude::*;

verus! {

/// The id of a connection: the bits of its UUID. Zero stands for none.
pub type PeerConnId = u128;

/// What the choice of a connection goes by.
#[derive(Clone, Copy, Debug, PartialEq, Eq, Structural)]
pub struct DataPathCandidate {
    pub conn_id: PeerConnId,
    /// The connection is closed.
    pub is_closed: bool,
    /// The protocol reported that data can be sent.
    pub ready_for_data: bool,
    /// There is a real sample of the latency. Without one `latency_us` says nothing.
    pub has_latency_sample: bool,
    pub latency_us: u64,
}

impl DataPathCandidate {
    /// Whether data can be sent: the connection is open and ready.
    pub open spec fn eligible(self) -> bool {
        !self.is_closed && self.ready_for_data
    }

    /// Whether data can be sent: the connection is open and ready.
    pub fn is_eligible(&self) -> (res: bool)
        ensures
            res == self.eligible(),
    {
        !self.is_closed && self.ready_for_data
    }
}

/// The connection can be used and its latency is known.
pub open spec fn is_sampled(c: DataPathCandidate) -> bool {
    c.eligible() && c.has_latency_sample
}

/// The connection at `i` is the first with the smallest known latency.
pub open spec fn is_fastest(candidates: Seq<DataPathCandidate>, i: int) -> bool {
    &&& 0 <= i < candidates.len()
    &&& is_sampled(candidates[i])
    &&& forall|j: int|
        0 <= j < candidates.len() && is_sampled(#[trigger] candidates[j])
            ==> candidates[i].latency_us <= candidates[j].latency_us && (j < i
            ==> candidates[i].latency_us < candidates[j].latency_us)
}

/// No latency is known, and the connection at `i` is the first that can be used.
pub open spec fn is_first_usable(candidates: Seq<DataPathCandidate>, i: int) -> bool {
    &&& 0 <= i < candidates.len()
    &&& candidates[i].eligible()
    &&& forall|j: int| 0 <= j < candidates.len() ==> !is_sampled(#[trigger] candidates[j])
    &&& forall|j: int| 0 <= j < i ==> !(#[trigger] candidates[j]).eligible()
}

/// `picked` is the connection that data goes over: the fastest of those with a known latency, or
/// the first that can be used where none is known; none where no connection can be used.
pub open spec fn is_picked(
    candidates: Seq<DataPathCandidate>,
    picked: Option<PeerConnId>,
) -> bool {
    match picked {
        Some(id) => exists|i: int|
            #![trigger candidates[i]]
            (is_fastest(candidates, i) || is_first_usable(candidates, i)) && candidates[i].conn_id
                == id,
        None => forall|i: int|
            0 <= i < candidates.len() ==> !(#[trigger] candidates[i]).eligible(),
    }
}

/// Picks the connection that data goes over. A connection without a sample of its latency never
/// counts as a fast one.
pub fn pick_default_conn(candidates: &[DataPathCandidate]) -> (picked: Option<PeerConnId>)
    ensures
        is_picked(candidates@, picked),
        picked is Some <==> exists|i: int|
            0 <= i < candidates@.len() && !(#[trigger] candidates@[i]).is_closed
                && candidates@[i].ready_for_data,
{
    let mut best_sampled: Option<usize> = None;
    let mut fallback: Option<usize> = None;
    let mut i: usize = 0;
    while i < candidates.len()
        invariant
            i <= candidates@.len(),
            match best_sampled {
                Some(b) => b < i && is_fastest(candidates@.take(i as int), b as int),
                None => forall|j: int| 0 <= j < i ==> !is_sampled(#[trigger] candidates@[j]),
            },
            match fallback {
                Some(f) => f < i && candidates@[f as int].eligible() && !is_sampled(
                    candidates@[f as int],
                ) && forall|j: int|
                    0 <= j < f && !is_sampled(#[trigger] candidates@[j])
                        ==> !candidates@[j].eligible(),
                None => forall|j: int|
                    0 <= j < i && !is_sampled(#[trigger] candidates@[j])
                        ==> !candidates@[j].eligible(),
            },
        decreases candidates@.len() - i,
    {
        let candidate = candidates[i];
        let ghost before = candidates@.take(i as int);
        let ghost after = candidates@.take(i + 1);
        assert(forall|j: int| 0 <= j < i ==> #[trigger] before[j] == candidates@[j]);
        assert(forall|j: int| 0 <= j < i + 1 ==> #[trigger] after[j] == candidates@[j]);
        assert(forall|j: int| 0 <= j < i ==> #[trigger] after[j] == before[j]);
        if candidate.is_eligible() {
            if candidate.has_latency_sample {
                let better = match best_sampled {
                    None => true,
                    Some(b) => candidate.latency_us < candidates[b].latency_us,
                };
                if better {
                    best_sampled = Some(i);
                    assert(is_fastest(after, i as int));
                } else {
                    assert(is_fastest(after, best_sampled->0 as int));
                }
            } else {
                match fallback {
                    None => {
                        fallback = Some(i);
                    },
                    Some(_) => {},
                }
                proof {
                    if best_sampled is Some {
                        assert(is_fastest(after, best_sampled->0 as int));
                    }
                }
            }
        } else {
            proof {
                if best_sampled is Some {
                    assert(is_fastest(after, best_sampled->0 as int));
                }
            }
        }
        i = i + 1;
    }
    assert(candidates@.take(i as int) =~= candidates@);
    proof {
        if best_sampled is None && fallback is None {
            assert forall|j: int| 0 <= j < candidates@.len() implies !(
            #[trigger] candidates@[j]).eligible() by {
                assert(!is_sampled(candidates@[j]));
            }
        }
    }
    match best_sampled {
        Some(b) => {
            assert(is_fastest(candidates@, b as int));
            Some(candidates[b].conn_id)
        },
        None => match fallback {
            Some(f) => {
                assert(is_first_usable(candidates@, f as int));
                Some(candidates[f].conn_id)
            },
            None => None,
        },
    }
}

/// The pick is decided by the list: at most one connection is picked.
pub proof fn the_pick_is_unique(
    candidates: Seq<DataPathCandidate>,
    a: Option<PeerConnId>,
    b: Option<PeerConnId>,
)
    requires
        is_picked(candidates, a),
        is_picked(candidates, b),
    ensures
        a == b,
{
    if a is Some && b is Some {
        let i = choose|i: int|
            #![trigger candidates[i]]
            (is_fastest(candidates, i) || is_first_usable(candidates, i)) && candidates[i].conn_id
                == a->0;
        let j = choose|j: int|
            #![trigger candidates[j]]
            (is_fastest(candidates, j) || is_first_usable(candidates, j)) && candidates[j].conn_id
                == b->0;
        assert(i == j);
    } else if a is Some {
        let i = choose|i: int|
            #![trigger candidates[i]]
            (is_fastest(candidates, i) || is_first_usable(candidates, i)) && candidates[i].conn_id
                == a->0;
        assert(candidates[i].eligible());
    } else if b is Some {
        let i = choose|i: int|
            #![trigger candidates[i]]
            (is_fastest(candidates, i) || is_first_usable(candidates, i)) && candidates[i].conn_id
                == b->0;
        assert(candidates[i].eligible());
    }
}

/// A connection without a sample is never preferred to one with a sample, and a connection that
/// cannot be used is never picked.
pub proof fn the_pick_is_usable(candidates: Seq<DataPathCandidate>, picked: PeerConnId)
    requires
        is_picked(candidates, Some(picked)),
    ensures
        exists|i: int|
            #![trigger candidates[i]]
            0 <= i < candidates.len() && candidates[i].conn_id == picked && candidates[i].eligible()
                && ((exists|j: int|
                0 <= j < candidates.len() && is_sampled(#[trigger] candidates[j]))
                ==> candidates[i].has_latency_sample),
{
    let i = choose|i: int|
        #![trigger candidates[i]]
        (is_fastest(candidates, i) || is_first_usable(candidates, i)) && candidates[i].conn_id
            == picked;
    assert(candidates[i].eligible());
}

/// Where a connection is open and ready and its latency was sampled, the one that is picked has a
/// sample too, and none of those is faster; of equally fast ones the first is picked. Where no such
/// connection has a sample, the first that is open and ready is picked.
pub proof fn the_pick_goes_by_sampled_latencies(
    candidates: Seq<DataPathCandidate>,
    picked: PeerConnId,
) -> (i: int)
    requires
        is_picked(candidates, Some(picked)),
    ensures
        0 <= i < candidates.len(),
        candidates[i].conn_id == picked,
        !candidates[i].is_closed,
        candidates[i].ready_for_data,
        forall|j: int|
            0 <= j < candidates.len() && !(#[trigger] candidates[j]).is_closed
                && candidates[j].ready_for_data && candidates[j].has_latency_sample
                ==> candidates[i].has_latency_sample && candidates[i].latency_us
                <= candidates[j].latency_us,
        forall|j: int|
            0 <= j < i && !(#[trigger] candidates[j]).is_closed && candidates[j].ready_for_data
                ==> candidates[i].has_latency_sample && (candidates[j].has_latency_sample
                ==> candidates[i].latency_us < candidates[j].latency_us),
{
    let i = choose|i: int|
        #![trigger candidates[i]]
        (is_fastest(candidates, i) || is_first_usable(candidates, i)) && candidates[i].conn_id
            == picked;
    assert forall|j: int|
        0 <= j < candidates.len() && !(#[trigger] candidates[j]).is_closed
            && candidates[j].ready_for_data
            && candidates[j].has_latency_sample implies candidates[i].has_latency_sample
        && candidates[i].latency_us <= candidates[j].latency_us by {
        assert(is_sampled(candidates[j]));
    }
    assert forall|j: int|
        0 <= j < i && !(#[trigger] candidates[j]).is_closed
            && candidates[j].ready_for_data implies candidates[i].has_latency_sample && (
    candidates[j].has_latency_sample ==> candidates[i].latency_us < candidates[j].latency_us) by {
        assert(candidates[j].eligible());
    }
    i
}

/// A connection can be used exactly where it is open and the protocol said that it is ready.
pub proof fn usable_means_open_and_ready(c: DataPathCandidate)
    ensures
        c.eligible() <==> !c.is_closed && c.ready_for_data,
        is_sampled(c) <==> !c.is_closed && c.ready_for_data && c.has_latency_sample,
{
}

/// What is known of a connection at the moment.
#[derive(Clone, Copy, Debug, PartialEq, Eq, Structural)]
pub struct ConnState {
    pub is_closed: bool,
    pub ready_for_data: bool,
    pub has_latency_sample: bool,
    pub latency_us: u64,
    /// The connection came about by hole punching.
    pub is_hole_punched: bool,
}

impl ConnState {
    /// The connection as a candidate.
    pub open spec fn candidate(self, conn_id: PeerConnId) -> DataPathCandidate {
        DataPathCandidate {
            conn_id,
            is_closed: self.is_closed,
            ready_for_data: self.ready_for_data,
            has_latency_sample: self.has_latency_sample,
            latency_us: self.latency_us,
        }
    }

    /// The connection as a candidate.
    pub fn as_candidate(&self, conn_id: PeerConnId) -> (c: DataPathCandidate)
        ensures
            c == self.candidate(conn_id),
    {
        DataPathCandidate {
            conn_id,
            is_closed: self.is_closed,
            ready_for_data: self.ready_for_data,
            has_latency_sample: self.has_latency_sample,
            latency_us: self.latency_us,
        }
    }
}

/// What the map of connections holds.
pub uninterp spec fn conn_map(map: DashMap<PeerConnId, ConnState>) -> Map<PeerConnId, ConnState>;

/// `DashMap::new`: an empty map.
#[verifier::external_body]
fn conn_map_new() -> (res: DashMap<PeerConnId, ConnState>)
    ensures
        conn_map(res).dom() == Set::<PeerConnId>::empty(),
{
    DashMap::new()
}

/// `DashMap::get`, of which the value is copied out.
#[verifier::external_body]
fn conn_map_get(map: &DashMap<PeerConnId, ConnState>, id: PeerConnId) -> (res: Option<ConnState>)
    ensures
        res == (if conn_map(*map).dom().contains(id) {
            Some(conn_map(*map)[id])
        } else {
            None
        }),
{
    map.get(&id).map(|entry| *entry.value())
}

/// `DashMap::insert`: the key has the new value, everything else stays.
#[verifier::external_body]
fn conn_map_insert(map: &mut DashMap<PeerConnId, ConnState>, id: PeerConnId, state: ConnState)
    ensures
        conn_map(*final(map)) == conn_map(*old(map)).insert(id, state),
{
    map.insert(id, state);
}

/// `DashMap::remove`: the key is gone, everything else stays; true where it was there.
#[verifier::external_body]
fn conn_map_remove(map: &mut DashMap<PeerConnId, ConnState>, id: PeerConnId) -> (was_there: bool)
    ensures
        conn_map(*final(map)) == conn_map(*old(map)).remove(id),
        was_there == conn_map(*old(map)).dom().contains(id),
{
    map.remove(&id).is_some()
}

/// `DashMap::iter`, of which the keys are collected: each key once, in the order of the shards.
#[verifier::external_body]
fn conn_map_ids(map: &DashMap<PeerConnId, ConnState>) -> (ids: Vec<PeerConnId>)
    ensures
        lists(ids@, conn_map(*map).dom()),
{
    map.iter().map(|entry| *entry.key()).collect()
}

/// What a set of connection ids holds.
pub uninterp spec fn conn_ids(set: DashSet<PeerConnId>) -> Set<PeerConnId>;

/// `DashSet::new`: an empty set.
#[verifier::external_body]
fn conn_ids_new() -> (res: DashSet<PeerConnId>)
    ensures
        conn_ids(res) == Set::<PeerConnId>::empty(),
{
    DashSet::new()
}

/// `DashSet::insert`: the id is in the set, everything else stays.
#[verifier::external_body]
fn conn_ids_insert(set: &mut DashSet<PeerConnId>, id: PeerConnId)
    ensures
        conn_ids(*final(set)) == conn_ids(*old(set)).insert(id),
{
    set.insert(id);
}

/// Why something was refused.
#[derive(Clone, Copy, Debug, PartialEq, Eq, Structural)]
pub enum PeerError {
    /// The connection is of another identity type than the peer.
    IdentityMismatch { peer: i32, conn: i32 },
    /// The connection has another public key than the peer.
    PublicKeyMismatch { peer_id: u32, existing_len: usize, new_len: usize },
    /// There is no such connection.
    NotFound,
    /// No connection can be used.
    NoConnection { peer_id: u32 },
}

/// The error of a connection with another public key.
pub fn public_key_mismatch_text(peer_id: u32, existing_len: usize, new_len: usize) -> (s: String)
    ensures
        s@ == "peer public key mismatch. peer_id: "@ + decimal(peer_id as nat)
            + ", existing_len: "@ + decimal(existing_len as nat) + ", new_len: "@ + decimal(
            new_len as nat,
        ),
{
    let mut s = copy_text("peer public key mismatch. peer_id: ");
    push_text(&mut s, decimal_text(peer_id as u64).as_str());
    push_text(&mut s, ", existing_len: ");
    push_text(&mut s, decimal_text(existing_len as u64).as_str());
    push_text(&mut s, ", new_len: ");
    push_text(&mut s, decimal_text(new_len as u64).as_str());
    s
}

/// Whether two byte strings are equal.
fn same_bytes(a: &Vec<u8>, b: &Vec<u8>) -> (res: bool)
    ensures
        res == (a@ == b@),
{
    if a.len() != b.len() {
        return false;
    }
    let mut i: usize = 0;
    while i < a.len()
        invariant
            i <= a@.len(),
            a@.len() == b@.len(),
            forall|j: int| 0 <= j < i ==> a@[j] == b@[j],
        decreases a@.len() - i,
    {
        if a[i] != b[i] {
            return false;
        }
        i = i + 1;
    }
    assert(a@ =~= b@);
    true
}

/// A peer.
pub struct Peer {
    pub peer_node_id: u32,
    pub conns: DashMap<PeerConnId, ConnState>,
    /// The connection that data went over last; zero for none.
    pub default_conn_id: PeerConnId,
    /// The identity type of all connections, while there are any.
    pub peer_identity_type: Option<i32>,
    /// The public key of all connections, while there are any.
    pub peer_public_key: Option<Vec<u8>>,
}

/// A peer, over sequences.
#[verifier::ext_equal]
pub ghost struct PeerView {
    pub id: u32,
    pub conns: Map<PeerConnId, ConnState>,
    pub default_conn: PeerConnId,
    pub identity: Option<i32>,
    pub public_key: Option<Seq<u8>>,
}

impl View for Peer {
    type V = PeerView;

    open spec fn view(&self) -> PeerView {
        PeerView {
            id: self.peer_node_id,
            conns: conn_map(self.conns),
            default_conn: self.default_conn_id,
            identity: self.peer_identity_type,
            public_key: match self.peer_public_key {
                Some(key) => Some(key@),
                None => None,
            },
        }
    }
}

impl PeerView {
    /// While there are connections, their identity type and public key are known.
    pub open spec fn wf(self) -> bool {
        self.conns.dom() != Set::<PeerConnId>::empty() ==> self.identity is Some
            && self.public_key is Some
    }

    /// A connection of the given identity type is refused.
    pub open spec fn refuses_identity(self, identity: i32) -> bool {
        self.identity is Some && self.identity != Some(identity)
    }

    /// A connection with the given public key is refused.
    pub open spec fn refuses_key(self, key: Seq<u8>) -> bool {
        self.public_key is Some && self.public_key != Some(key)
    }

    /// The data can go over this connection.
    pub open spec fn usable(self, id: PeerConnId) -> bool {
        self.conns.dom().contains(id) && self.conns[id].candidate(id).eligible()
    }

    /// `candidates` are the connections, in some order.
    pub open spec fn offers(self, candidates: Seq<DataPathCandidate>, ids: Seq<PeerConnId>) -> bool {
        &&& lists(ids, self.conns.dom())
        &&& candidates.len() == ids.len()
        &&& forall|i: int|
            0 <= i < ids.len() ==> #[trigger] candidates[i] == self.conns[ids[i]].candidate(ids[i])
    }

    /// After a connection left; with the last one the identity and the key are forgotten.
    pub open spec fn without(self, id: PeerConnId) -> PeerView {
        let conns = self.conns.remove(id);
        if !self.conns.dom().contains(id) {
            self
        } else if conns.dom() =~= Set::empty() {
            PeerView { conns, identity: None, public_key: None, ..self }
        } else {
            PeerView { conns, ..self }
        }
    }
}

impl Peer {
    /// A peer without connections.
    pub fn new(peer_node_id: u32) -> (peer: Peer)
        ensures
            peer@.id == peer_node_id,
            peer@.conns.dom() == Set::<PeerConnId>::empty(),
            peer@.default_conn == 0,
            peer@.identity is None,
            peer@.public_key is None,
            peer@.wf(),
    {
        Peer {
            peer_node_id,
            conns: conn_map_new(),
            default_conn_id: 0,
            peer_identity_type: None,
            peer_public_key: None,
        }
    }

    /// Lets a connection in, unless its identity type or its public key is not that of the peer.
    /// The first connection sets both.
    pub fn add_peer_conn(
        &mut self,
        conn_id: PeerConnId,
        identity: i32,
        public_key: Vec<u8>,
        state: ConnState,
    ) -> (res: Result<(), PeerError>)
        ensures
            res matches Err(e) ==> if old(self)@.refuses_identity(identity) {
                e == (PeerError::IdentityMismatch {
                    peer: old(self)@.identity.unwrap(),
                    conn: identity,
                })
            } else {
                old(self)@.refuses_key(public_key@) && e == (PeerError::PublicKeyMismatch {
                    peer_id: old(self)@.id,
                    existing_len: old(self)@.public_key.unwrap().len() as usize,
                    new_len: public_key@.len() as usize,
                })
            },
            res is Ok <==> !old(self)@.refuses_identity(identity) && !old(self)@.refuses_key(
                public_key@,
            ),
            final(self)@ == (if old(self)@.refuses_identity(identity) {
                old(self)@
            } else if old(self)@.refuses_key(public_key@) {
                PeerView { identity: Some(identity), ..old(self)@ }
            } else {
                PeerView {
                    identity: Some(identity),
                    public_key: Some(public_key@),
                    conns: old(self)@.conns.insert(conn_id, state),
                    ..old(self)@
                }
            }),
    {
        match self.peer_identity_type {
            Some(known) => {
                if known != identity {
                    return Err(PeerError::IdentityMismatch { peer: known, conn: identity });
                }
            },
            None => {
                self.peer_identity_type = Some(identity);
            },
        }
        let mismatch: Option<usize> = match &self.peer_public_key {
            Some(existing) => if same_bytes(existing, &public_key) {
                None
            } else {
                Some(existing.len())
            },
            None => None,
        };
        match mismatch {
            Some(existing_len) => {
                return Err(
                    PeerError::PublicKeyMismatch {
                        peer_id: self.peer_node_id,
                        existing_len,
                        new_len: public_key.len(),
                    },
                );
            },
            None => {
                self.peer_public_key = Some(public_key);
            },
        }
        conn_map_insert(&mut self.conns, conn_id, state);
        Ok(())
    }

    /// Takes note of the state of a connection; one that is not there stays away.
    pub fn note_state(&mut self, conn_id: PeerConnId, state: ConnState)
        ensures
            final(self)@ == (if old(self)@.conns.dom().contains(conn_id) {
                PeerView { conns: old(self)@.conns.insert(conn_id, state), ..old(self)@ }
            } else {
                old(self)@
            }),
    {
        match conn_map_get(&self.conns, conn_id) {
            Some(_) => {
                conn_map_insert(&mut self.conns, conn_id, state);
            },
            None => {},
        }
    }

    /// The connections as candidates.
    fn candidates(&self, ids: &Vec<PeerConnId>) -> (candidates: Vec<DataPathCandidate>)
        requires
            lists(ids@, self@.conns.dom()),
        ensures
            self@.offers(candidates@, ids@),
    {
        let mut candidates: Vec<DataPathCandidate> = Vec::new();
        let mut i: usize = 0;
        while i < ids.len()
            invariant
                i <= ids@.len(),
                lists(ids@, self@.conns.dom()),
                candidates@.len() == i,
                forall|j: int|
                    0 <= j < i ==> #[trigger] candidates@[j] == self@.conns[ids@[j]].candidate(
                        ids@[j],
                    ),
            decreases ids@.len() - i,
        {
            let id = ids[i];
            assert(ids@.contains(ids@[i as int]));
            match conn_map_get(&self.conns, id) {
                Some(state) => {
                    candidates.push(state.as_candidate(id));
                },
                None => {
                    assert(false);
                },
            }
            i = i + 1;
        }
        candidates
    }

    /// Chooses the connection that data goes over. The one that was chosen before stays, as long as
    /// it can be used.
    pub fn select_conn(&mut self) -> (res: Option<PeerConnId>)
        ensures
            old(self)@.usable(old(self)@.default_conn) ==> res == Some(old(self)@.default_conn)
                && final(self)@ == old(self)@,
            !old(self)@.usable(old(self)@.default_conn) ==> {
                &&& exists|candidates: Seq<DataPathCandidate>, ids: Seq<PeerConnId>|
                    #[trigger] old(self)@.offers(candidates, ids) && is_picked(candidates, res)
                &&& final(self)@ == (match res {
                    Some(id) => PeerView { default_conn: id, ..old(self)@ },
                    None => old(self)@,
                })
            },
            old(self)@.conns.dom().contains(old(self)@.default_conn) && !old(
                self,
            )@.conns[old(self)@.default_conn].is_closed && old(
                self,
            )@.conns[old(self)@.default_conn].ready_for_data ==> res == Some(
                old(self)@.default_conn,
            ),
            res matches Some(id) ==> old(self)@.conns.dom().contains(id) && !old(
                self,
            )@.conns[id].is_closed && old(self)@.conns[id].ready_for_data,
            res is None ==> forall|id: PeerConnId| #[trigger]
                old(self)@.conns.dom().contains(id) ==> old(self)@.conns[id].is_closed || !old(
                    self,
                )@.conns[id].ready_for_data,
            res matches Some(id) ==> id != old(self)@.default_conn ==> forall|other: PeerConnId|
                #[trigger] old(self)@.conns.dom().contains(other) && !old(
                    self,
                )@.conns[other].is_closed && old(self)@.conns[other].ready_for_data && old(
                    self,
                )@.conns[other].has_latency_sample ==> old(self)@.conns[id].has_latency_sample
                    && old(self)@.conns[id].latency_us <= old(self)@.conns[other].latency_us,
            final(self)@.conns == old(self)@.conns,
    {
        match conn_map_get(&self.conns, self.default_conn_id) {
            Some(state) => {
                if state.as_candidate(self.default_conn_id).is_eligible() {
                    return Some(self.default_conn_id);
                }
            },
            None => {},
        }
        let ids = conn_map_ids(&self.conns);
        let candidates = self.candidates(&ids);
        let picked = pick_default_conn(candidates.as_slice());
        assert(self@.offers(candidates@, ids@) && is_picked(candidates@, picked));
        proof {
            the_fastest_open_connection_is_chosen(self@, candidates@, ids@, picked);
        }
        match picked {
            Some(id) => {
                self.default_conn_id = id;
            },
            None => {},
        }
        picked
    }

    /// The connection that a message is sent over.
    pub fn send_msg(&mut self) -> (res: Result<PeerConnId, PeerError>)
        ensures
            res matches Ok(id) ==> old(self)@.usable(id) && final(self)@ == (PeerView {
                default_conn: id,
                ..old(self)@
            }),
            res matches Err(e) ==> e == (PeerError::NoConnection { peer_id: old(self)@.id })
                && final(self)@ == old(self)@,
            res is Ok <==> exists|id: PeerConnId| old(self)@.usable(id),
            old(self)@.usable(old(self)@.default_conn) ==> res == Ok::<PeerConnId, PeerError>(
                old(self)@.default_conn,
            ),
            !old(self)@.usable(old(self)@.default_conn) ==> exists|
                candidates: Seq<DataPathCandidate>,
                ids: Seq<PeerConnId>,
            | #[trigger]
                old(self)@.offers(candidates, ids) && is_picked(
                    candidates,
                    match res {
                        Ok(id) => Some(id),
                        Err(_) => None,
                    },
                ),
            old(self)@.conns.dom().contains(old(self)@.default_conn) && !old(
                self,
            )@.conns[old(self)@.default_conn].is_closed && old(
                self,
            )@.conns[old(self)@.default_conn].ready_for_data ==> res == Ok::<PeerConnId, PeerError>(
                old(self)@.default_conn,
            ),
            res matches Ok(id) ==> old(self)@.conns.dom().contains(id) && !old(
                self,
            )@.conns[id].is_closed && old(self)@.conns[id].ready_for_data,
            res is Err ==> forall|id: PeerConnId| #[trigger]
                old(self)@.conns.dom().contains(id) ==> old(self)@.conns[id].is_closed || !old(
                    self,
                )@.conns[id].ready_for_data,
            res matches Ok(id) ==> id != old(self)@.default_conn ==> forall|other: PeerConnId|
                #[trigger] old(self)@.conns.dom().contains(other) && !old(
                    self,
                )@.conns[other].is_closed && old(self)@.conns[other].ready_for_data && old(
                    self,
                )@.conns[other].has_latency_sample ==> old(self)@.conns[id].has_latency_sample
                    && old(self)@.conns[id].latency_us <= old(self)@.conns[other].latency_us,
    {
        let ghost before = self@;
        let selected = self.select_conn();
        proof {
            if !before.usable(before.default_conn) {
                let (candidates, ids) = choose|
                    candidates: Seq<DataPathCandidate>,
                    ids: Seq<PeerConnId>,
                |
                    #[trigger] before.offers(candidates, ids) && is_picked(candidates, selected);
                if selected is Some {
                    let i = choose|i: int|
                        #![trigger candidates[i]]
                        (is_fastest(candidates, i) || is_first_usable(candidates, i))
                            && candidates[i].conn_id == selected->0;
                    assert(candidates[i] == before.conns[ids[i]].candidate(ids[i]));
                    assert(ids.contains(ids[i]));
                    assert(before.usable(selected->0));
                } else {
                    assert forall|id: PeerConnId| !before.usable(id) by {
                        if before.conns.dom().contains(id) {
                            assert(ids.contains(id));
                            let i = choose|i: int| 0 <= i < ids.len() && ids[i] == id;
                            assert(!candidates[i].eligible());
                        }
                    }
                }
            }
        }
        match selected {
            Some(id) => Ok(id),
            None => Err(PeerError::NoConnection { peer_id: self.peer_node_id }),
        }
    }

    /// Whether a connection can be closed: it has to be there.
    pub fn close_peer_conn(&self, conn_id: PeerConnId) -> (res: Result<(), PeerError>)
        ensures
            res == (if self@.conns.dom().contains(conn_id) {
                Ok::<(), PeerError>(())
            } else {
                Err(PeerError::NotFound)
            }),
    {
        match conn_map_get(&self.conns, conn_id) {
            Some(_) => Ok(()),
            None => Err(PeerError::NotFound),
        }
    }

    /// A connection was closed and leaves. True where it was there.
    pub fn on_conn_closed(&mut self, conn_id: PeerConnId) -> (was_there: bool)
        ensures
            was_there == old(self)@.conns.dom().contains(conn_id),
            final(self)@ == old(self)@.without(conn_id),
    {
        let was_there = conn_map_remove(&mut self.conns, conn_id);
        if was_there {
            let ids = conn_map_ids(&self.conns);
            if ids.len() == 0 {
                proof {
                    assert(self@.conns.dom() =~= Set::empty()) by {
                        assert forall|k: PeerConnId| !self@.conns.dom().contains(k) by {
                            if self@.conns.dom().contains(k) {
                                assert(ids@.contains(k));
                            }
                        }
                    }
                }
                self.peer_identity_type = None;
                self.peer_public_key = None;
            } else {
                proof {
                    assert(ids@.contains(ids@[0]));
                    assert(self@.conns.dom().contains(ids@[0]));
                }
            }
        } else {
            assert(self@.conns =~= old(self)@.conns);
        }
        was_there
    }

    /// Forgets the chosen connection where there are several, so that the choice is made anew.
    pub fn clear_default_conn(&mut self)
        ensures
            final(self)@ == (if exists|a: PeerConnId, b: PeerConnId|
                a != b && #[trigger] old(self)@.conns.dom().contains(a)
                    && #[trigger] old(self)@.conns.dom().contains(b) {
                PeerView { default_conn: 0, ..old(self)@ }
            } else {
                old(self)@
            }),
    {
        let ids = conn_map_ids(&self.conns);
        if ids.len() > 1 {
            proof {
                assert(ids@.contains(ids@[0]) && ids@.contains(ids@[1]));
                assert(self@.conns.dom().contains(ids@[0]) && self@.conns.dom().contains(ids@[1]));
            }
            self.default_conn_id = 0;
        } else {
            proof {
                assert forall|a: PeerConnId, b: PeerConnId|
                    self@.conns.dom().contains(a) && self@.conns.dom().contains(b) implies a
                    == b by {
                    assert(ids@.contains(a) && ids@.contains(b));
                }
            }
        }
    }

    /// The ids of the connections for which `hole_punched` and `closed` are as asked; `None` asks
    /// for nothing.
    fn conns_where(&self, closed: Option<bool>, hole_punched: Option<bool>) -> (ids: Vec<PeerConnId>)
        ensures
            ids@.no_duplicates(),
            forall|id: PeerConnId| #[trigger]
                ids@.contains(id) <==> self@.conns.dom().contains(id) && (closed is None || closed
                    == Some(self@.conns[id].is_closed)) && (hole_punched is None || hole_punched
                    == Some(self@.conns[id].is_hole_punched)),
    {
        let all = conn_map_ids(&self.conns);
        let mut ids: Vec<PeerConnId> = Vec::new();
        let mut i: usize = 0;
        while i < all.len()
            invariant
                i <= all@.len(),
                lists(all@, self@.conns.dom()),
                ids@.no_duplicates(),
                forall|id: PeerConnId| #[trigger]
                    ids@.contains(id) <==> all@.take(i as int).contains(id) && (closed is None
                        || closed == Some(self@.conns[id].is_closed)) && (hole_punched is None
                        || hole_punched == Some(self@.conns[id].is_hole_punched)),
            decreases all@.len() - i,
        {
            let id = all[i];
            let ghost ids0 = ids@;
            proof {
                assert(all@.contains(id));
                assert(all@.take(i + 1) =~= all@.take(i as int).push(id));
                assert forall|x: PeerConnId| #[trigger] all@.take(i + 1).contains(x) <==> all@.take(
                    i as int,
                ).contains(x) || x == id by {
                    if all@.take(i as int).contains(x) {
                        let j = choose|j: int| 0 <= j < i && all@.take(i as int)[j] == x;
                        assert(all@.take(i + 1)[j] == x);
                    }
                    assert(all@.take(i + 1)[i as int] == id);
                }
                if all@.take(i as int).contains(id) {
                    let j = choose|j: int| 0 <= j < i && all@.take(i as int)[j] == id;
                    assert(all@[j] == all@[i as int]);
                }
            }
            match conn_map_get(&self.conns, id) {
                Some(state) => {
                    let closed_fits = match closed {
                        Some(c) => c == state.is_closed,
                        None => true,
                    };
                    let punched_fits = match hole_punched {
                        Some(h) => h == state.is_hole_punched,
                        None => true,
                    };
                    if closed_fits && punched_fits {
                        ids.push(id);
                        proof {
                            assert(!ids0.contains(id));
                            assert forall|a: int, b: int|
                                0 <= a < b < ids@.len() implies ids@[a] != ids@[b] by {
                                if b == ids0.len() {
                                    assert(ids0.contains(ids0[a]));
                                }
                            }
                            assert forall|x: PeerConnId| #[trigger] ids@.contains(x)
                                <==> ids0.contains(x) || x == id by {
                                if ids0.contains(x) {
                                    let j = choose|j: int| 0 <= j < ids0.len() && ids0[j] == x;
                                    assert(ids@[j] == x);
                                }
                                assert(ids@[ids0.len() as int] == id);
                            }
                        }
                    }
                },
                None => {
                    assert(false);
                },
            }
            i = i + 1;
        }
        assert(all@.take(i as int) =~= all@);
        ids
    }

    /// The connections that are open, and those that are closed and have to be cleaned up.
    pub fn list_peer_conns(&self) -> (res: (Vec<PeerConnId>, Vec<PeerConnId>))
        ensures
            res.0@.no_duplicates(),
            res.1@.no_duplicates(),
            forall|id: PeerConnId| #[trigger]
                res.0@.contains(id) <==> self@.conns.dom().contains(id)
                    && !self@.conns[id].is_closed,
            forall|id: PeerConnId| #[trigger]
                res.1@.contains(id) <==> self@.conns.dom().contains(id)
                    && self@.conns[id].is_closed,
    {
        (self.conns_where(Some(false), None), self.conns_where(Some(true), None))
    }

    /// Whether a connection is open.
    pub fn has_live_conns(&self) -> (res: bool)
        ensures
            res == exists|id: PeerConnId| #[trigger]
                self@.conns.dom().contains(id) && !self@.conns[id].is_closed,
    {
        let live = self.conns_where(Some(false), None);
        proof {
            if live@.len() > 0 {
                assert(live@.contains(live@[0]));
            } else {
                assert(forall|id: PeerConnId| !(#[trigger] live@.contains(id)));
                assert(forall|id: PeerConnId| #[trigger]
                    self@.conns.dom().contains(id) ==> !live@.contains(id));
            }
        }
        live.len() > 0
    }

    /// Whether a connection is open that did not come about by hole punching.
    pub fn has_directly_connected_conn(&self) -> (res: bool)
        ensures
            res == exists|id: PeerConnId| #[trigger]
                self@.conns.dom().contains(id) && !self@.conns[id].is_closed
                    && !self@.conns[id].is_hole_punched,
    {
        let direct = self.conns_where(Some(false), Some(false));
        proof {
            if direct@.len() > 0 {
                assert(direct@.contains(direct@[0]));
            } else {
                assert(forall|id: PeerConnId| !(#[trigger] direct@.contains(id)));
                assert(forall|id: PeerConnId| #[trigger]
                    self@.conns.dom().contains(id) ==> !direct@.contains(id));
            }
        }
        direct.len() > 0
    }

    /// The connections that did not come about by hole punching.
    pub fn get_directly_connections(&self) -> (ids: DashSet<PeerConnId>)
        ensures
            forall|id: PeerConnId| #[trigger]
                conn_ids(ids).contains(id) <==> self@.conns.dom().contains(id)
                    && !self@.conns[id].is_hole_punched,
    {
        let direct = self.conns_where(None, Some(false));
        let mut ids = conn_ids_new();
        let mut i: usize = 0;
        while i < direct.len()
            invariant
                i <= direct@.len(),
                forall|id: PeerConnId| #[trigger]
                    conn_ids(ids).contains(id) <==> direct@.take(i as int).contains(id),
            decreases direct@.len() - i,
        {
            let ghost before = conn_ids(ids);
            conn_ids_insert(&mut ids, direct[i]);
            proof {
                let less = direct@.take(i as int);
                let more = direct@.take(i + 1);
                assert forall|id: PeerConnId| #[trigger] conn_ids(ids).contains(id)
                    <==> more.contains(id) by {
                    assert(before.contains(id) <==> less.contains(id));
                    assert(more[i as int] == direct@[i as int]);
                    if less.contains(id) {
                        let j = choose|j: int| 0 <= j < i && less[j] == id;
                        assert(more[j] == id);
                    }
                    if more.contains(id) {
                        let j = choose|j: int| 0 <= j < i + 1 && more[j] == id;
                        if j < i {
                            assert(less[j] == id);
                        }
                    }
                }
            }
            i = i + 1;
        }
        assert(direct@.take(i as int) =~= direct@);
        ids
    }

    /// Every connection leaves, because the peer goes away. Gives their ids.
    pub fn remove_all(&mut self) -> (ids: Vec<PeerConnId>)
        ensures
            lists(ids@, old(self)@.conns.dom()),
            final(self)@ == (PeerView {
                conns: Map::<PeerConnId, ConnState>::empty(),
                ..old(self)@
            }),
    {
        let ids = conn_map_ids(&self.conns);
        self.conns = conn_map_new();
        assert(self@.conns =~= Map::<PeerConnId, ConnState>::empty());
        ids
    }

    /// The connection that data went over last; zero for none.
    pub fn get_default_conn_id(&self) -> (id: PeerConnId)
        ensures
            id == self@.default_conn,
    {
        self.default_conn_id
    }

    /// The identity type of the connections.
    pub fn get_peer_identity_type(&self) -> (res: Option<i32>)
        ensures
            res == self@.identity,
    {
        self.peer_identity_type
    }

    /// The public key of the connections.
    pub fn get_peer_public_key(&self) -> (res: Option<Vec<u8>>)
        ensures
            (match res {
                Some(key) => Some(key@),
                None => None,
            }) == self@.public_key,
    {
        match &self.peer_public_key {
            Some(key) => Some(key.clone()),
            None => None,
        }
    }
}

/// Once a connection is let in, no connection of another identity type or with another public key
/// is, until all have left.
pub proof fn connections_of_one_peer_agree(
    peer: PeerView,
    identity: i32,
    key: Seq<u8>,
    id: PeerConnId,
)
    requires
        peer.identity == Some(identity),
        peer.public_key == Some(key),
    ensures
        forall|other: i32| other != identity ==> #[trigger] peer.refuses_identity(other),
        forall|other: Seq<u8>| other != key ==> #[trigger] peer.refuses_key(other),
        peer.without(id).conns.dom() != Set::<PeerConnId>::empty() ==> peer.without(id).identity
            == Some(identity) && peer.without(id).public_key == Some(key),
{
}

/// While there are connections, their identity type and public key stay known.
pub proof fn peers_with_connections_are_known(
    peer: PeerView,
    id: PeerConnId,
    state: ConnState,
    identity: i32,
    key: Seq<u8>,
)
    requires
        peer.wf(),
    ensures
        peer.without(id).wf(),
        (PeerView { identity: Some(identity), ..peer }).wf(),
        (PeerView {
            identity: Some(identity),
            public_key: Some(key),
            conns: peer.conns.insert(id, state),
            ..peer
        }).wf(),
{
    assert(peer.conns.dom() =~= Set::<PeerConnId>::empty() ==> peer.without(id) == peer);
}

/// After the last connection left, any connection is let in again.
pub proof fn an_empty_peer_accepts_anyone(peer: PeerView, id: PeerConnId)
    requires
        peer.conns.dom() == set![id],
    ensures
        forall|identity: i32| !(#[trigger] peer.without(id).refuses_identity(identity)),
        forall|key: Seq<u8>| !(#[trigger] peer.without(id).refuses_key(key)),
{
    assert(peer.conns.remove(id).dom() =~= Set::<PeerConnId>::empty());
}

/// Stated on the peer's own connections: what is chosen among them is open and ready. Where some open
/// and ready connection has a sample of its latency, the chosen one has a sample, and its latency is
/// the smallest of those. None is chosen exactly where none is open and ready.
pub proof fn the_fastest_open_connection_is_chosen(
    peer: PeerView,
    candidates: Seq<DataPathCandidate>,
    ids: Seq<PeerConnId>,
    picked: Option<PeerConnId>,
)
    requires
        peer.offers(candidates, ids),
        is_picked(candidates, picked),
    ensures
        picked is None ==> forall|id: PeerConnId| #[trigger]
            peer.conns.dom().contains(id) ==> peer.conns[id].is_closed
                || !peer.conns[id].ready_for_data,
        picked matches Some(id) ==> peer.conns.dom().contains(id) && !peer.conns[id].is_closed
            && peer.conns[id].ready_for_data,
        picked matches Some(id) ==> forall|other: PeerConnId| #[trigger]
            peer.conns.dom().contains(other) && !peer.conns[other].is_closed
                && peer.conns[other].ready_for_data && peer.conns[other].has_latency_sample
                ==> peer.conns[id].has_latency_sample && peer.conns[id].latency_us
                <= peer.conns[other].latency_us,
{
    match picked {
        None => {
            assert forall|id: PeerConnId| #[trigger]
                peer.conns.dom().contains(id) implies peer.conns[id].is_closed
                || !peer.conns[id].ready_for_data by {
                assert(ids.contains(id));
                let i = choose|i: int| 0 <= i < ids.len() && ids[i] == id;
                assert(!candidates[i].eligible());
            }
        },
        Some(id) => {
            let i = the_pick_goes_by_sampled_latencies(candidates, id);
            assert(candidates[i] == peer.conns[ids[i]].candidate(ids[i]));
            assert(ids.contains(ids[i]));
            assert forall|other: PeerConnId| #[trigger]
                peer.conns.dom().contains(other) && !peer.conns[other].is_closed
                    && peer.conns[other].ready_for_data
                    && peer.conns[other].has_latency_sample implies peer.conns[id].has_latency_sample
                && peer.conns[id].latency_us <= peer.conns[other].latency_us by {
                assert(ids.contains(other));
                let j = choose|j: int| 0 <= j < ids.len() && ids[j] == other;
                assert(candidates[j] == peer.conns[other].candidate(other));
            }
        },
    }
}

/// A candidate says of a connection what the connection says of itself, under its own id.
pub proof fn candidates_are_what_the_connections_are(state: ConnState, conn_id: PeerConnId)
    ensures
        state.candidate(conn_id).conn_id == conn_id,
        state.candidate(conn_id).is_closed == state.is_closed,
        state.candidate(conn_id).ready_for_data == state.ready_for_data,
        state.candidate(conn_id).has_latency_sample == state.has_latency_sample,
        state.candidate(conn_id).latency_us == state.latency_us,
{
}

/// The chosen connection can be used while it is one of the peer's, open and ready.
pub proof fn a_connection_is_usable_while_open_and_ready(peer: PeerView, id: PeerConnId)
    ensures
        peer.usable(id) <==> peer.conns.dom().contains(id) && !peer.conns[id].is_closed
            && peer.conns[id].ready_for_data,
{
}

/// A connection is refused for its identity type or its key only where the peer has another one; a
/// peer that has none refuses nobody.
pub proof fn only_another_identity_or_key_is_refused(peer: PeerView, identity: i32, key: Seq<u8>)
    ensures
        peer.refuses_identity(identity) <==> (peer.identity matches Some(known) && known
            != identity),
        peer.refuses_key(key) <==> (peer.public_key matches Some(known) && known != key),
{
}

/// When a connection leaves, every other connection stays as it is, and so does the connection that
/// was chosen last. The identity type and the key are forgotten exactly where it was the last one.
pub proof fn a_leaving_connection_leaves_the_others(peer: PeerView, id: PeerConnId)
    ensures
        !peer.without(id).conns.dom().contains(id),
        forall|other: PeerConnId|
            other != id ==> {
                &&& #[trigger] peer.without(id).conns.dom().contains(other)
                    <==> peer.conns.dom().contains(other)
                &&& peer.without(id).conns[other] == peer.conns[other]
            },
        peer.without(id).default_conn == peer.default_conn,
        peer.without(id).id == peer.id,
        !peer.conns.dom().contains(id) ==> peer.without(id) == peer,
        (exists|other: PeerConnId| other != id && #[trigger] peer.conns.dom().contains(other))
            ==> peer.without(id).identity == peer.identity && peer.without(id).public_key
            == peer.public_key,
        peer.conns.dom().contains(id) && (forall|other: PeerConnId|
            #[trigger] peer.conns.dom().contains(other) ==> other == id) ==> peer.without(
            id,
        ).identity is None && peer.without(id).public_key is None,
{
    let conns = peer.conns.remove(id);
    if exists|other: PeerConnId| other != id && #[trigger] peer.conns.dom().contains(other) {
        let other = choose|other: PeerConnId|
            other != id && #[trigger] peer.conns.dom().contains(other);
        assert(conns.dom().contains(other));
    }
    if peer.conns.dom().contains(id) && (forall|other: PeerConnId|
        #[trigger] peer.conns.dom().contains(other) ==> other == id) {
        assert(conns.dom() =~= Set::empty());
    }
}

/// A peer is shown as it is.
pub proof fn peers_are_shown_as_they_are(peer: Peer)
    ensures
        peer@.id == peer.peer_node_id,
        peer@.conns == conn_map(peer.conns),
        peer@.default_conn == peer.default_conn_id,
        peer@.identity == peer.peer_identity_type,
        peer.peer_public_key matches Some(key) ==> peer@.public_key == Some(key@),
        peer.peer_public_key is None ==> peer@.public_key is None,
{
}

/// Of a peer with a connection both the identity type and the public key are known.
pub proof fn connections_make_a_peer_known(peer: PeerView, id: PeerConnId)
    requires
        peer.wf(),
        peer.conns.dom().contains(id),
    ensures
        peer.identity is Some,
        peer.public_key is Some,
{
    assert(peer.conns.dom() != Set::<PeerConnId>::empty());
}

/// A connection can be closed exactly where the peer has it.
pub proof fn only_a_connection_that_is_there_can_be_closed(
    peer: Peer,
    id: PeerConnId,
    res: Result<(), PeerError>,
)
    requires
        call_ensures(Peer::close_peer_conn, (&peer, id), res),
    ensures
        res is Ok <==> peer@.conns.dom().contains(id),
        res matches Err(e) ==> e == PeerError::NotFound,
{
}

/// A peer that is directly connected is live, and one that is not live has no connection that can be
/// used.
pub proof fn direct_connections_are_live(peer: Peer, live: bool, direct: bool, id: PeerConnId)
    requires
        call_ensures(Peer::has_live_conns, (&peer,), live),
        call_ensures(Peer::has_directly_connected_conn, (&peer,), direct),
        peer@.conns.dom().contains(id),
    ensures
        direct ==> live,
        !peer@.conns[id].is_closed ==> live,
        !peer@.conns[id].is_closed && !peer@.conns[id].is_hole_punched ==> direct,
        !live ==> !peer@.usable(id),
{
}

/// Every connection is listed once: among the open ones while it is open, among the closed ones after.
pub proof fn every_connection_is_listed_once(
    peer: Peer,
    lists: (Vec<PeerConnId>, Vec<PeerConnId>),
    id: PeerConnId,
)
    requires
        call_ensures(Peer::list_peer_conns, (&peer,), lists),
    ensures
        peer@.conns.dom().contains(id) <==> lists.0@.contains(id) || lists.1@.contains(id),
        !(lists.0@.contains(id) && lists.1@.contains(id)),
        lists.0@.contains(id) ==> !peer@.conns[id].is_closed,
        lists.1@.contains(id) ==> peer@.conns[id].is_closed,
        lists.0@.no_duplicates() && lists.1@.no_duplicates(),
{
}

} // verus!
