//! Which address blocks are routed into the virtual network, and when that changes.
use crate::clock::{since, Instant, NANOS_PER_SEC};
use crate::net::Ipv4Cidr;
use vstd::prelude::*;

verus! {

/// How long the exit nodes must have been in a new state before it counts.
pub const EXIT_NODE_STATE_DEBOUNCE_SECS: u64 = 5;

/// How often the monitor looks.
pub const PROXY_CIDRS_TICK_SECS: u64 = 1;

/// `a` comes before `b`: by address, then by the length of the prefix.
pub open spec fn cidr_before(a: Ipv4Cidr, b: Ipv4Cidr) -> bool {
    a.address.bits < b.address.bits || a.address.bits == b.address.bits && a.prefix_len
        < b.prefix_len
}

/// The blocks are in strictly ascending order.
pub open spec fn cidrs_ascending(list: Seq<Ipv4Cidr>) -> bool {
    forall|i: int, j: int| 0 <= i < j < list.len() ==> cidr_before(list[i], list[j])
}

/// Whether `a` comes before `b`.
fn is_cidr_before(a: Ipv4Cidr, b: Ipv4Cidr) -> (res: bool)
    ensures
        res == cidr_before(a, b),
{
    a.address.bits < b.address.bits || a.address.bits == b.address.bits && a.prefix_len
        < b.prefix_len
}

/// Puts a block into an ascending list, unless it is there.
fn insert_cidr(list: &mut Vec<Ipv4Cidr>, cidr: Ipv4Cidr)
    requires
        cidrs_ascending(old(list)@),
    ensures
        cidrs_ascending(final(list)@),
        forall|x: Ipv4Cidr| #[trigger]
            final(list)@.contains(x) <==> old(list)@.contains(x) || x == cidr,
{
    let ghost before = list@;
    let mut i: usize = 0;
    while i < list.len() && is_cidr_before(list[i], cidr)
        invariant
            i <= list@.len(),
            list@ == before,
            forall|j: int| 0 <= j < i ==> cidr_before(#[trigger] list@[j], cidr),
        decreases list@.len() - i,
    {
        i = i + 1;
    }
    if i < list.len() && !is_cidr_before(cidr, list[i]) {
        assert(before[i as int] == cidr);
        return;
    }
    list.insert(i, cidr);
    proof {
        let after = list@;
        assert(after[i as int] == cidr);
        assert forall|x: Ipv4Cidr| before.contains(x) implies #[trigger] after.contains(x) by {
            let j = choose|j: int| 0 <= j < before.len() && before[j] == x;
            if j < i {
                assert(after[j] == x);
            } else {
                assert(after[j + 1] == x);
            }
        }
        assert forall|x: Ipv4Cidr| #[trigger] after.contains(x) implies before.contains(x) || x
            == cidr by {
            let j = choose|j: int| 0 <= j < after.len() && after[j] == x;
            if j < i {
                assert(before[j] == x);
            } else if j > i {
                assert(before[j - 1] == x);
            }
        }
        assert forall|p: int, q: int| 0 <= p < q < after.len() implies cidr_before(
            after[p],
            after[q],
        ) by {
            if p < i && q > i {
                assert(cidr_before(before[p], before[q - 1]));
            } else if p == i {
                assert(i as int == q - 1 || cidr_before(before[i as int], before[q - 1]));
            } else if q < i {
                assert(cidr_before(before[p], before[q]));
            } else if p > i {
                assert(cidr_before(before[p - 1], before[q - 1]));
            }
        }
    }
}

/// Whether a block is in a list.
fn contains_cidr(list: &Vec<Ipv4Cidr>, cidr: Ipv4Cidr) -> (res: bool)
    ensures
        res == list@.contains(cidr),
{
    let mut i: usize = 0;
    while i < list.len()
        invariant
            i <= list@.len(),
            forall|j: int| 0 <= j < i ==> list@[j] != cidr,
        decreases list@.len() - i,
    {
        if list[i].address.bits == cidr.address.bits && list[i].prefix_len == cidr.prefix_len {
            assert(list@[i as int] == cidr);
            return true;
        }
        i = i + 1;
    }
    false
}

/// The blocks of an ascending list that are not in another, in their order.
fn difference(list: &Vec<Ipv4Cidr>, other: &Vec<Ipv4Cidr>) -> (res: Vec<Ipv4Cidr>)
    requires
        cidrs_ascending(list@),
    ensures
        cidrs_ascending(res@),
        forall|x: Ipv4Cidr| #[trigger]
            res@.contains(x) <==> list@.contains(x) && !other@.contains(x),
{
    let mut res: Vec<Ipv4Cidr> = Vec::new();
    let mut i: usize = 0;
    while i < list.len()
        invariant
            i <= list@.len(),
            cidrs_ascending(res@),
            forall|x: Ipv4Cidr| #[trigger]
                res@.contains(x) <==> list@.take(i as int).contains(x) && !other@.contains(x),
        decreases list@.len() - i,
    {
        let cidr = list[i];
        let ghost before = res@;
        if !contains_cidr(other, cidr) {
            insert_cidr(&mut res, cidr);
        }
        proof {
            lemma_take_contains(list@, i as int);
            assert forall|x: Ipv4Cidr| #[trigger] res@.contains(x) <==> list@.take(i + 1).contains(x)
                && !other@.contains(x) by {
                assert(before.contains(x) <==> list@.take(i as int).contains(x)
                    && !other@.contains(x));
                assert(list@.take(i + 1).contains(x) <==> list@.take(i as int).contains(x) || x
                    == cidr);
            }
        }
        i = i + 1;
    }
    assert(list@.take(i as int) =~= list@);
    res
}

/// What the first elements hold, with one more.
proof fn lemma_take_contains<A>(list: Seq<A>, n: int)
    requires
        0 <= n < list.len(),
    ensures
        forall|x: A| #[trigger]
            list.take(n + 1).contains(x) <==> list.take(n).contains(x) || x == list[n],
{
    let less = list.take(n);
    let more = list.take(n + 1);
    assert(more[n] == list[n]);
    assert forall|x: A| less.contains(x) implies #[trigger] more.contains(x) by {
        let j = choose|j: int| 0 <= j < less.len() && less[j] == x;
        assert(more[j] == x);
    }
    assert forall|x: A| #[trigger] more.contains(x) implies less.contains(x) || x == list[n] by {
        let j = choose|j: int| 0 <= j < more.len() && more[j] == x;
        if j < n {
            assert(less[j] == x);
        }
    }
}

/// Where the routed blocks come from.
#[derive(Debug)]
pub struct CidrSources {
    /// The routes that the user set; they replace all others.
    pub routes: Option<Vec<Ipv4Cidr>>,
    /// Whether exit nodes are configured.
    pub has_exit_nodes: bool,
    /// Whether one of them is online.
    pub exit_node_online: bool,
    /// The blocks that the peers announce.
    pub peer_cidrs: Vec<Ipv4Cidr>,
    /// The block of the portal's clients.
    pub vpn_portal_cidr: Option<Ipv4Cidr>,
}

/// The block is to be routed, where `online` says whether an exit node counts as online. Where exit
/// nodes are configured and none does, a route that leads everywhere is withdrawn.
pub open spec fn is_routed_while(sources: CidrSources, online: bool, cidr: Ipv4Cidr) -> bool {
    match sources.routes {
        Some(routes) => routes@.contains(cidr) && !(sources.has_exit_nodes && !online
            && cidr.prefix_len == 0),
        None => sources.peer_cidrs@.contains(cidr) || sources.vpn_portal_cidr == Some(cidr),
    }
}

/// The block is to be routed by what is seen of the exit nodes at this moment.
pub open spec fn is_routed(sources: CidrSources, cidr: Ipv4Cidr) -> bool {
    is_routed_while(sources, sources.exit_node_online, cidr)
}

/// The blocks that are to be routed by what is seen of the exit nodes at this moment, each once, in
/// ascending order.
pub fn collect_proxy_cidrs(sources: &CidrSources) -> (res: Vec<Ipv4Cidr>)
    ensures
        cidrs_ascending(res@),
        forall|x: Ipv4Cidr| #[trigger] res@.contains(x) <==> is_routed(*sources, x),
        sources.routes is None ==> forall|x: Ipv4Cidr| #[trigger]
            res@.contains(x) <==> sources.peer_cidrs@.contains(x) || sources.vpn_portal_cidr
                == Some(x),
        sources.routes matches Some(routes) ==> forall|x: Ipv4Cidr| #[trigger]
            res@.contains(x) <==> routes@.contains(x) && (x.prefix_len != 0
                || !sources.has_exit_nodes || sources.exit_node_online),
        forall|i: int, j: int|
            #![trigger res@[i], res@[j]]
            0 <= i < j < res@.len() ==> res@[i].address.bits < res@[j].address.bits || (
            res@[i].address.bits == res@[j].address.bits && res@[i].prefix_len < res@[j].prefix_len),
{
    let res = collect_while(sources, sources.exit_node_online);
    assert(forall|i: int, j: int|
        0 <= i < j < res@.len() ==> cidr_before(#[trigger] res@[i], #[trigger] res@[j]));
    res
}

/// The blocks that are to be routed, where `online` says whether an exit node counts as online.
fn collect_while(sources: &CidrSources, online: bool) -> (res: Vec<Ipv4Cidr>)
    ensures
        cidrs_ascending(res@),
        forall|x: Ipv4Cidr| #[trigger] res@.contains(x) <==> is_routed_while(*sources, online, x),
        sources.routes is None ==> forall|x: Ipv4Cidr| #[trigger]
            res@.contains(x) <==> sources.peer_cidrs@.contains(x) || sources.vpn_portal_cidr
                == Some(x),
        sources.routes matches Some(routes) ==> forall|x: Ipv4Cidr| #[trigger]
            res@.contains(x) <==> routes@.contains(x) && (x.prefix_len != 0
                || !sources.has_exit_nodes || online),
{
    let mut res: Vec<Ipv4Cidr> = Vec::new();
    match &sources.routes {
        Some(routes) => {
            let withdraw = sources.has_exit_nodes && !online;
            let mut i: usize = 0;
            while i < routes.len()
                invariant
                    i <= routes@.len(),
                    cidrs_ascending(res@),
                    forall|x: Ipv4Cidr| #[trigger]
                        res@.contains(x) <==> routes@.take(i as int).contains(x) && !(withdraw
                            && x.prefix_len == 0),
                decreases routes@.len() - i,
            {
                let cidr = routes[i];
                let ghost before = res@;
                if !(withdraw && cidr.prefix_len == 0) {
                    insert_cidr(&mut res, cidr);
                }
                proof {
                    lemma_take_contains(routes@, i as int);
                    assert forall|x: Ipv4Cidr| #[trigger] res@.contains(x) <==> routes@.take(
                        i + 1,
                    ).contains(x) && !(withdraw && x.prefix_len == 0) by {
                        assert(before.contains(x) <==> routes@.take(i as int).contains(x) && !(
                        withdraw && x.prefix_len == 0));
                        assert(routes@.take(i + 1).contains(x) <==> routes@.take(
                            i as int,
                        ).contains(x) || x == cidr);
                    }
                }
                i = i + 1;
            }
            assert(routes@.take(i as int) =~= routes@);
        },
        None => {
            let mut i: usize = 0;
            while i < sources.peer_cidrs.len()
                invariant
                    i <= sources.peer_cidrs@.len(),
                    cidrs_ascending(res@),
                    forall|x: Ipv4Cidr| #[trigger]
                        res@.contains(x) <==> sources.peer_cidrs@.take(i as int).contains(x),
                decreases sources.peer_cidrs@.len() - i,
            {
                let cidr = sources.peer_cidrs[i];
                let ghost before = res@;
                insert_cidr(&mut res, cidr);
                proof {
                    lemma_take_contains(sources.peer_cidrs@, i as int);
                    assert forall|x: Ipv4Cidr| #[trigger]
                        res@.contains(x) <==> sources.peer_cidrs@.take(i + 1).contains(x) by {
                        assert(before.contains(x) <==> sources.peer_cidrs@.take(i as int).contains(
                            x,
                        ));
                    }
                }
                i = i + 1;
            }
            assert(sources.peer_cidrs@.take(i as int) =~= sources.peer_cidrs@);
            match sources.vpn_portal_cidr {
                Some(cidr) => {
                    insert_cidr(&mut res, cidr);
                },
                None => {},
            }
        },
    }
    res
}

/// Whether one of the exit nodes is online.
pub fn any_exit_node_online(online: &Vec<bool>) -> (res: bool)
    ensures
        res == online@.contains(true),
{
    let mut i: usize = 0;
    while i < online.len()
        invariant
            i <= online@.len(),
            forall|j: int| 0 <= j < i ==> !online@[j],
        decreases online@.len() - i,
    {
        if online[i] {
            assert(online@[i as int] == true);
            return true;
        }
        i = i + 1;
    }
    false
}

/// What is known of the exit nodes between two looks.
#[derive(Clone, Copy, Debug, PartialEq, Eq)]
pub struct ExitNodeState {
    /// The state that counts; none before the first look.
    pub exit_online: Option<bool>,
    /// Another state that was seen, and since when.
    pub pending: Option<(bool, Instant)>,
}

/// The state before the first look.
pub open spec fn initial_exit_state() -> ExitNodeState {
    ExitNodeState { exit_online: None, pending: None }
}

/// The state after a look at `now`. `seen` is whether an exit node is online, and none where there
/// are no exit nodes. The first state that is seen counts at once. Another state counts once it was
/// seen for long enough without a break.
pub open spec fn after_look(
    state: ExitNodeState,
    seen: Option<bool>,
    now: Instant,
) -> ExitNodeState {
    match (seen, state.exit_online) {
        (None, _) => ExitNodeState { exit_online: Some(true), pending: None },
        (Some(online), None) => ExitNodeState { exit_online: Some(online), pending: None },
        (Some(online), Some(counts)) => if online == counts {
            ExitNodeState { pending: None, ..state }
        } else {
            match state.pending {
                Some((other, start)) => if other != online {
                    ExitNodeState { pending: Some((online, now)), ..state }
                } else if since(now, start) >= EXIT_NODE_STATE_DEBOUNCE_SECS * NANOS_PER_SEC {
                    ExitNodeState { exit_online: Some(online), pending: None }
                } else {
                    state
                },
                None => ExitNodeState { pending: Some((online, now)), ..state },
            }
        },
    }
}

/// Whether a look makes another state count. That exit nodes were taken out of the configuration
/// does not, nor does the first look.
pub open spec fn look_changes(state: ExitNodeState, seen: Option<bool>, now: Instant) -> bool {
    seen is Some && state.exit_online is Some && after_look(state, seen, now).exit_online
        != state.exit_online
}

impl ExitNodeState {
    /// Takes a look at `now`; true where another state counts from then on.
    pub fn look(&mut self, seen: Option<bool>, now: Instant) -> (changed: bool)
        ensures
            *final(self) == after_look(*old(self), seen, now),
            changed == look_changes(*old(self), seen, now),
    {
        let online = match seen {
            None => {
                self.pending = None;
                self.exit_online = Some(true);
                return false;
            },
            Some(online) => online,
        };
        let counts = match self.exit_online {
            None => {
                self.pending = None;
                self.exit_online = Some(online);
                return false;
            },
            Some(counts) => counts,
        };
        if online == counts {
            self.pending = None;
            return false;
        }
        match self.pending {
            Some((other, start)) => {
                if other != online {
                    self.pending = Some((online, now));
                    false
                } else if start.elapsed(now).nanos >= EXIT_NODE_STATE_DEBOUNCE_SECS
                    * NANOS_PER_SEC {
                    self.exit_online = Some(online);
                    self.pending = None;
                    true
                } else {
                    false
                }
            },
            None => {
                self.pending = Some((online, now));
                false
            },
        }
    }
}

/// Whether an exit node counts as online: by the looks, and by what is seen at this moment where
/// there was no look yet.
pub open spec fn counts_as_online(state: ExitNodeState, sources: CidrSources) -> bool {
    match state.exit_online {
        Some(online) => online,
        None => sources.exit_node_online,
    }
}

/// The monitor.
#[derive(Debug)]
pub struct ProxyCidrsMonitor {
    pub cur_proxy_cidrs: Vec<Ipv4Cidr>,
    /// When the routes of the peers last changed.
    pub last_update: Option<Instant>,
    pub exit_state: ExitNodeState,
}

/// Blocks that are routed from now on, and blocks that are not any more.
#[derive(Debug)]
pub struct CidrDiff {
    pub added: Vec<Ipv4Cidr>,
    pub removed: Vec<Ipv4Cidr>,
}

impl ProxyCidrsMonitor {
    /// The routed blocks are in ascending order.
    pub open spec fn wf(self) -> bool {
        cidrs_ascending(self.cur_proxy_cidrs@)
    }

    /// A monitor that has seen nothing yet.
    pub fn new() -> (monitor: ProxyCidrsMonitor)
        ensures
            monitor.wf(),
            monitor.cur_proxy_cidrs@ == Seq::<Ipv4Cidr>::empty(),
            monitor.last_update is None,
            monitor.exit_state == initial_exit_state(),
    {
        ProxyCidrsMonitor {
            cur_proxy_cidrs: Vec::new(),
            last_update: None,
            exit_state: ExitNodeState { exit_online: None, pending: None },
        }
    }

    /// The blocks to be routed by what is seen of the exit nodes at this moment, and how they differ
    /// from those that are.
    pub fn diff_proxy_cidrs(sources: &CidrSources, cur_proxy_cidrs: &Vec<Ipv4Cidr>) -> (res: (
        Vec<Ipv4Cidr>,
        CidrDiff,
    ))
        requires
            cidrs_ascending(cur_proxy_cidrs@),
        ensures
            cidrs_ascending(res.0@),
            forall|x: Ipv4Cidr| #[trigger] res.0@.contains(x) <==> is_routed(*sources, x),
            sources.routes is None ==> forall|x: Ipv4Cidr| #[trigger]
                res.0@.contains(x) <==> sources.peer_cidrs@.contains(x) || sources.vpn_portal_cidr
                    == Some(x),
            cidrs_ascending(res.1.added@),
            forall|x: Ipv4Cidr| #[trigger]
                res.1.added@.contains(x) <==> is_routed(*sources, x) && !cur_proxy_cidrs@.contains(
                    x,
                ),
            cidrs_ascending(res.1.removed@),
            forall|x: Ipv4Cidr| #[trigger]
                res.1.removed@.contains(x) <==> cur_proxy_cidrs@.contains(x) && !is_routed(
                    *sources,
                    x,
                ),
    {
        Self::diff_while(sources, sources.exit_node_online, cur_proxy_cidrs)
    }

    /// The blocks to be routed, where `online` says whether an exit node counts as online, and how
    /// they differ from those that are.
    fn diff_while(sources: &CidrSources, online: bool, cur_proxy_cidrs: &Vec<Ipv4Cidr>) -> (res: (
        Vec<Ipv4Cidr>,
        CidrDiff,
    ))
        requires
            cidrs_ascending(cur_proxy_cidrs@),
        ensures
            cidrs_ascending(res.0@),
            forall|x: Ipv4Cidr| #[trigger]
                res.0@.contains(x) <==> is_routed_while(*sources, online, x),
            cidrs_ascending(res.1.added@),
            forall|x: Ipv4Cidr| #[trigger]
                res.1.added@.contains(x) <==> is_routed_while(*sources, online, x)
                    && !cur_proxy_cidrs@.contains(x),
            cidrs_ascending(res.1.removed@),
            forall|x: Ipv4Cidr| #[trigger]
                res.1.removed@.contains(x) <==> cur_proxy_cidrs@.contains(x) && !is_routed_while(
                    *sources,
                    online,
                    x,
                ),
    {
        let proxy_cidrs = collect_while(sources, online);
        let added = difference(&proxy_cidrs, cur_proxy_cidrs);
        let removed = difference(cur_proxy_cidrs, &proxy_cidrs);
        (proxy_cidrs, CidrDiff { added, removed })
    }

    /// Takes a look at `now`: true where the blocks have to be collected anew, because the routes of
    /// the peers changed or another state of the exit nodes counts.
    pub fn look(&mut self, last_update_time: Instant, exit_seen: Option<bool>, now: Instant) -> (
    due: bool)
        ensures
            due == (old(self).last_update != Some(last_update_time) || look_changes(
                old(self).exit_state,
                exit_seen,
                now,
            )),
            final(self).last_update == Some(last_update_time),
            final(self).exit_state == after_look(old(self).exit_state, exit_seen, now),
            final(self).cur_proxy_cidrs == old(self).cur_proxy_cidrs,
    {
        let route_info_changed = match self.last_update {
            Some(seen) => seen.nanos != last_update_time.nanos,
            None => true,
        };
        self.last_update = Some(last_update_time);
        let exit_node_state_changed = self.exit_state.look(exit_seen, now);
        route_info_changed || exit_node_state_changed
    }

    /// Routes the blocks that are to be routed, by the state of the exit nodes that counts. Gives the
    /// difference, where there is one.
    pub fn update(&mut self, sources: &CidrSources) -> (res: Option<CidrDiff>)
        requires
            old(self).wf(),
        ensures
            final(self).wf(),
            forall|x: Ipv4Cidr| #[trigger]
                final(self).cur_proxy_cidrs@.contains(x) <==> is_routed_while(
                    *sources,
                    counts_as_online(old(self).exit_state, *sources),
                    x,
                ),
            final(self).last_update == old(self).last_update,
            final(self).exit_state == old(self).exit_state,
            sources.routes is None ==> forall|x: Ipv4Cidr| #[trigger]
                final(self).cur_proxy_cidrs@.contains(x) <==> sources.peer_cidrs@.contains(x)
                    || sources.vpn_portal_cidr == Some(x),
            sources.routes matches Some(routes) ==> forall|x: Ipv4Cidr| #[trigger]
                final(self).cur_proxy_cidrs@.contains(x) ==> routes@.contains(x),
            sources.routes matches Some(routes) ==> forall|x: Ipv4Cidr|
                routes@.contains(x) && x.prefix_len != 0 ==> #[trigger]
                    final(self).cur_proxy_cidrs@.contains(x),
            res is None <==> forall|x: Ipv4Cidr| #[trigger]
                old(self).cur_proxy_cidrs@.contains(x) == final(self).cur_proxy_cidrs@.contains(x),
            res matches Some(diff) ==> {
                &&& cidrs_ascending(diff.added@)
                &&& cidrs_ascending(diff.removed@)
                &&& forall|x: Ipv4Cidr| #[trigger]
                    diff.added@.contains(x) <==> final(self).cur_proxy_cidrs@.contains(x)
                        && !old(self).cur_proxy_cidrs@.contains(x)
                &&& forall|x: Ipv4Cidr| #[trigger]
                    diff.removed@.contains(x) <==> old(self).cur_proxy_cidrs@.contains(x)
                        && !final(self).cur_proxy_cidrs@.contains(x)
            },
    {
        let ghost before = self.cur_proxy_cidrs@;
        let online = match self.exit_state.exit_online {
            Some(online) => online,
            None => sources.exit_node_online,
        };
        let (new_proxy_cidrs, diff) = Self::diff_while(sources, online, &self.cur_proxy_cidrs);
        self.cur_proxy_cidrs = new_proxy_cidrs;
        if diff.added.len() == 0 && diff.removed.len() == 0 {
            proof {
                assert forall|x: Ipv4Cidr| #[trigger] before.contains(x)
                    == self.cur_proxy_cidrs@.contains(x) by {
                    assert(!diff.added@.contains(x) && !diff.removed@.contains(x));
                }
            }
            return None;
        }
        proof {
            if diff.added@.len() > 0 {
                assert(diff.added@.contains(diff.added@[0]));
                assert(before.contains(diff.added@[0]) != self.cur_proxy_cidrs@.contains(
                    diff.added@[0],
                ));
            } else {
                assert(diff.removed@.contains(diff.removed@[0]));
                assert(before.contains(diff.removed@[0]) != self.cur_proxy_cidrs@.contains(
                    diff.removed@[0],
                ));
            }
        }
        Some(diff)
    }
}

/// The state after a series of looks.
pub open spec fn after_looks(looks: Seq<(Option<bool>, Instant)>) -> ExitNodeState
    decreases looks.len(),
{
    if looks.len() == 0 {
        initial_exit_state()
    } else {
        after_look(after_looks(looks.drop_last()), looks.last().0, looks.last().1)
    }
}

/// From the look at `k` on, each look saw `online`.
pub open spec fn seen_since(looks: Seq<(Option<bool>, Instant)>, k: int, online: bool) -> bool {
    &&& 0 <= k < looks.len()
    &&& forall|i: int| k <= i < looks.len() ==> (#[trigger] looks[i]).0 == Some(online)
}

/// A pending state was seen without a break since it became pending.
proof fn lemma_pending_was_seen(looks: Seq<(Option<bool>, Instant)>)
    ensures
        after_looks(looks).pending matches Some((online, start)) ==> after_looks(
            looks,
        ).exit_online == Some(!online) && exists|k: int| #[trigger]
            seen_since(looks, k, online) && looks[k].1 == start,
    decreases looks.len(),
{
    if looks.len() > 0 {
        let rest = looks.drop_last();
        lemma_pending_was_seen(rest);
        let state = after_looks(rest);
        if let Some((online, start)) = after_looks(looks).pending {
            if state.pending == Some((online, start)) && looks.last().0 == Some(online)
                && state.exit_online == Some(!online) {
                let k = choose|k: int| #[trigger]
                    seen_since(rest, k, online) && rest[k].1 == start;
                assert forall|i: int| k <= i < looks.len() implies (#[trigger] looks[i]).0 == Some(
                    online,
                ) by {
                    if i < rest.len() {
                        assert(looks[i] == rest[i]);
                    }
                }
                assert(looks[k] == rest[k]);
                assert(seen_since(looks, k, online));
            } else {
                assert(seen_since(looks, looks.len() - 1, online));
            }
        }
    }
}

/// A state of the exit nodes counts only after it was seen for the whole time without a break: a
/// shorter interruption changes nothing.
pub proof fn only_a_lasting_change_counts(
    looks: Seq<(Option<bool>, Instant)>,
    online: bool,
    now: Instant,
)
    requires
        look_changes(after_looks(looks), Some(online), now),
    ensures
        exists|k: int| #[trigger]
            seen_since(looks, k, online) && since(now, looks[k].1) >= EXIT_NODE_STATE_DEBOUNCE_SECS
                * NANOS_PER_SEC,
{
    lemma_pending_was_seen(looks);
}

/// The looks from `i` to `j` all saw the exit nodes offline.
pub open spec fn offline_through(looks: Seq<(Option<bool>, Instant)>, i: int, j: int) -> bool {
    &&& 0 <= i <= j < looks.len()
    &&& forall|k: int| i <= k <= j ==> (#[trigger] looks[k]).0 == Some(false)
}

/// No outage among the looks is as long as the whole time that a state must last.
pub open spec fn only_short_outages(looks: Seq<(Option<bool>, Instant)>) -> bool {
    forall|i: int, j: int| #[trigger]
        offline_through(looks, i, j) ==> since(looks[j].1, looks[i].1)
            < EXIT_NODE_STATE_DEBOUNCE_SECS * NANOS_PER_SEC
}

/// Through short outages the exit nodes go on counting as online.
proof fn lemma_short_outages(
    looks: Seq<(Option<bool>, Instant)>,
    more: Seq<(Option<bool>, Instant)>,
)
    requires
        after_looks(looks).exit_online == Some(true),
        after_looks(looks).pending is None,
        only_short_outages(more),
    ensures
        after_looks(looks + more).exit_online == Some(true),
        after_looks(looks + more).pending matches Some((online, start)) ==> !online
            && exists|i: int| #[trigger]
            offline_through(more, i, more.len() - 1) && more[i].1 == start,
    decreases more.len(),
{
    if more.len() == 0 {
        assert(looks + more =~= looks);
    } else {
        let rest = more.drop_last();
        let n = more.len() - 1;
        assert forall|i: int, j: int| #[trigger] offline_through(rest, i, j) implies since(
            rest[j].1,
            rest[i].1,
        ) < EXIT_NODE_STATE_DEBOUNCE_SECS * NANOS_PER_SEC by {
            assert(forall|k: int| i <= k <= j ==> #[trigger] more[k] == rest[k]);
            assert(offline_through(more, i, j));
        }
        lemma_short_outages(looks, rest);
        assert((looks + more).drop_last() =~= looks + rest);
        assert((looks + more).last() == more[n]);
        if more[n].0 == Some(false) {
            assert(offline_through(more, n, n));
            if let Some((_, start)) = after_looks(looks + rest).pending {
                let i = choose|i: int| #[trigger]
                    offline_through(rest, i, rest.len() - 1) && rest[i].1 == start;
                assert forall|k: int| i <= k <= n implies (#[trigger] more[k]).0 == Some(false) by {
                    if k < n {
                        assert(more[k] == rest[k]);
                    }
                }
                assert(offline_through(more, i, n));
                assert(more[i] == rest[i]);
            }
        }
    }
}

/// Flaps withdraw nothing: as long as no outage lasts for the whole time, every route that the user
/// set stays routed, the global one included.
pub proof fn short_outages_withdraw_nothing(
    looks: Seq<(Option<bool>, Instant)>,
    more: Seq<(Option<bool>, Instant)>,
    sources: CidrSources,
    routes: Vec<Ipv4Cidr>,
    cidr: Ipv4Cidr,
)
    requires
        after_looks(looks).exit_online == Some(true),
        after_looks(looks).pending is None,
        only_short_outages(more),
        sources.routes == Some(routes),
        routes@.contains(cidr),
    ensures
        is_routed_while(
            sources,
            counts_as_online(after_looks(looks + more), sources),
            cidr,
        ),
{
    lemma_short_outages(looks, more);
}

/// While no exit node is online the global route is not routed, where exit nodes are configured;
/// every other route that the user set is.
pub proof fn offline_exit_nodes_withdraw_only_the_global_route(
    sources: CidrSources,
    routes: Vec<Ipv4Cidr>,
    cidr: Ipv4Cidr,
)
    requires
        sources.routes == Some(routes),
        sources.has_exit_nodes,
        !sources.exit_node_online,
    ensures
        is_routed(sources, cidr) <==> routes@.contains(cidr) && cidr.prefix_len != 0,
{
}

/// Where no routes are set, the blocks of the peers and of the portal are routed and no others,
/// whether or not there are exit nodes and whatever their state is.
pub proof fn without_routes_the_peers_decide(sources: CidrSources, online: bool, cidr: Ipv4Cidr)
    requires
        sources.routes is None,
    ensures
        is_routed_while(sources, online, cidr) <==> sources.peer_cidrs@.contains(cidr)
            || sources.vpn_portal_cidr == Some(cidr),
        is_routed(sources, cidr) <==> sources.peer_cidrs@.contains(cidr) || sources.vpn_portal_cidr
            == Some(cidr),
{
}

/// The routes that the user set replace all others: a block that is not among them is not routed,
/// whoever announces it.
pub proof fn set_routes_replace_all_others(
    sources: CidrSources,
    routes: Vec<Ipv4Cidr>,
    online: bool,
    cidr: Ipv4Cidr,
)
    requires
        sources.routes == Some(routes),
    ensures
        is_routed_while(sources, online, cidr) ==> routes@.contains(cidr),
        !sources.has_exit_nodes || online ==> (is_routed_while(sources, online, cidr)
            <==> routes@.contains(cidr)),
        is_routed(sources, cidr) == is_routed_while(sources, sources.exit_node_online, cidr),
{
}

/// The state of the exit nodes can take away nothing but a block that leads everywhere, and that
/// only where routes are set and exit nodes are configured.
pub proof fn exit_nodes_take_away_only_a_global_route(sources: CidrSources, cidr: Ipv4Cidr)
    ensures
        is_routed_while(sources, false, cidr) ==> is_routed_while(sources, true, cidr),
        is_routed_while(sources, true, cidr) && !is_routed_while(sources, false, cidr)
            ==> cidr.prefix_len == 0 && sources.routes is Some && sources.has_exit_nodes,
        is_routed_while(sources, true, cidr) && cidr.prefix_len == 0 && sources.routes is Some
            && sources.has_exit_nodes ==> !is_routed_while(sources, false, cidr),
{
}

/// The order of the blocks is that of the pairs of address and prefix length: of two different
/// blocks exactly one comes first.
pub proof fn blocks_are_ordered(a: Ipv4Cidr, b: Ipv4Cidr)
    ensures
        a != b ==> (cidr_before(a, b) <==> !cidr_before(b, a)),
        !cidr_before(a, a),
        a.address.bits < b.address.bits ==> cidr_before(a, b),
        a.address.bits == b.address.bits && a.prefix_len < b.prefix_len ==> cidr_before(a, b),
{
}

/// Another state of the exit nodes counts exactly where it was pending for five seconds. Until then
/// the state that counted goes on to count.
pub proof fn a_new_state_counts_after_five_seconds(
    counts: bool,
    start: Instant,
    now: Instant,
)
    requires
        start.nanos <= now.nanos,
    ensures
        ({
            let state = ExitNodeState { exit_online: Some(counts), pending: Some((!counts, start)) };
            &&& now.nanos - start.nanos >= 5_000_000_000 ==> after_look(
                state,
                Some(!counts),
                now,
            ) == (ExitNodeState { exit_online: Some(!counts), pending: None }) && look_changes(
                state,
                Some(!counts),
                now,
            )
            &&& now.nanos - start.nanos < 5_000_000_000 ==> after_look(state, Some(!counts), now)
                == state && !look_changes(state, Some(!counts), now)
        }),
{
}

/// A look that sees the state that counts ends what was pending. One that sees the other state
/// makes it pending from then on, where it was not. Neither changes what counts.
pub proof fn one_look_changes_nothing(
    counts: bool,
    pending: Option<(bool, Instant)>,
    start: Instant,
    now: Instant,
)
    ensures
        after_look(ExitNodeState { exit_online: Some(counts), pending }, Some(counts), now) == (
        ExitNodeState { exit_online: Some(counts), pending: None }),
        !look_changes(ExitNodeState { exit_online: Some(counts), pending }, Some(counts), now),
        after_look(ExitNodeState { exit_online: Some(counts), pending: None }, Some(!counts), now)
            == (ExitNodeState { exit_online: Some(counts), pending: Some((!counts, now)) }),
        !look_changes(
            ExitNodeState { exit_online: Some(counts), pending: None },
            Some(!counts),
            now,
        ),
        after_look(
            ExitNodeState { exit_online: Some(counts), pending: Some((counts, start)) },
            Some(!counts),
            now,
        ) == (ExitNodeState { exit_online: Some(counts), pending: Some((!counts, now)) }),
        start.nanos > now.nanos ==> after_look(
            ExitNodeState { exit_online: Some(counts), pending: Some((!counts, start)) },
            Some(!counts),
            now,
        ) == (ExitNodeState { exit_online: Some(counts), pending: Some((!counts, start)) }),
{
}

/// Where there are no exit nodes they count as online at once, and that is no change; so is the
/// first look, whose state counts at once.
pub proof fn the_first_look_counts_at_once(state: ExitNodeState, seen: bool, now: Instant)
    ensures
        after_look(state, None, now).exit_online == Some(true),
        after_look(state, None, now).pending is None,
        !look_changes(state, None, now),
        after_look(initial_exit_state(), Some(seen), now).exit_online == Some(seen),
        after_look(initial_exit_state(), Some(seen), now).pending is None,
        !look_changes(initial_exit_state(), Some(seen), now),
        after_looks(Seq::empty()).exit_online is None,
{
}

/// What the looks made count decides, and what is seen at this moment only before the first look.
pub proof fn the_looks_decide_what_counts(
    pending: Option<(bool, Instant)>,
    sources: CidrSources,
)
    ensures
        counts_as_online(ExitNodeState { exit_online: Some(true), pending }, sources),
        !counts_as_online(ExitNodeState { exit_online: Some(false), pending }, sources),
        counts_as_online(ExitNodeState { exit_online: None, pending }, sources)
            == sources.exit_node_online,
{
}

/// How long a new state has to last, and how often the monitor looks.
pub proof fn times_of_the_monitor()
    ensures
        EXIT_NODE_STATE_DEBOUNCE_SECS == 5,
        PROXY_CIDRS_TICK_SECS == 1,
{
}

/// The exit nodes are online exactly where one of them is.
pub proof fn one_exit_node_is_enough(online: Vec<bool>, res: bool, i: int)
    requires
        call_ensures(any_exit_node_online, (&online,), res),
        0 <= i < online@.len(),
    ensures
        online@[i] ==> res,
        (forall|j: int| 0 <= j < online@.len() ==> !#[trigger] online@[j]) ==> !res,
{
    if online@[i] {
        assert(online@.contains(online@[i]));
    }
    if res {
        let j = choose|j: int| 0 <= j < online@.len() && online@[j] == true;
        assert(online@[j]);
    }
}

/// The blocks of the monitor are in ascending order, each once.
pub proof fn the_monitor_keeps_its_blocks_in_order(monitor: ProxyCidrsMonitor, i: int, j: int)
    requires
        monitor.wf(),
        0 <= i < j < monitor.cur_proxy_cidrs@.len(),
    ensures
        monitor.cur_proxy_cidrs@[i].address.bits <= monitor.cur_proxy_cidrs@[j].address.bits,
        monitor.cur_proxy_cidrs@[i] != monitor.cur_proxy_cidrs@[j],
{
    assert(cidr_before(monitor.cur_proxy_cidrs@[i], monitor.cur_proxy_cidrs@[j]));
}

} // verus!
