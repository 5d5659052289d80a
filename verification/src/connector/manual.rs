//! The connectors that the user asked for.
//!
//! A URL is wanted (`connectors`), being reconnected (`reconnecting`), or marked for removal
//! (`removed_conn_urls`). A dead URL is moved from the first set to the second for the time of an
//! attempt and comes back afterwards.
use crate::clock::{duration_text, since, Duration, Instant, NANOS_PER_SEC};
use crate::collections::lists;
use crate::connector::backoff::{
    failures, is_delay_after, may_attempt, one_more, BackoffState, BackoffTable,
    RECONN_BACKOFF_LIMIT_SECS,
};
use crate::net::IpAddr;
use crate::text::{
    ascending, contains_text, copy_text, insert_ascending, join_three, same_text, text_before, texts,
};
use crate::url::PeerUrl;
use crate::wireguard::connector::IpVersion;
use dashmap::DashSet;
use vstd::prelude::*;

verus! {

/// What a set of URLs holds.
pub uninterp spec fn url_set(set: DashSet<String>) -> Set<Seq<char>>;

/// `DashSet::new`: an empty set.
#[verifier::external_body]
fn url_set_new() -> (res: DashSet<String>)
    ensures
        url_set(res) == Set::<Seq<char>>::empty(),
{
    DashSet::new()
}

/// `DashSet::insert`: the URL is in the set; true where it was not.
#[verifier::external_body]
fn url_set_insert(set: &mut DashSet<String>, url: String) -> (is_new: bool)
    ensures
        url_set(*final(set)) == url_set(*old(set)).insert(url@),
        is_new == !url_set(*old(set)).contains(url@),
{
    set.insert(url)
}

/// `DashSet::remove`: the URL is not in the set; true where it was.
#[verifier::external_body]
fn url_set_remove(set: &mut DashSet<String>, url: &str) -> (was_there: bool)
    ensures
        url_set(*final(set)) == url_set(*old(set)).remove(url@),
        was_there == url_set(*old(set)).contains(url@),
{
    set.remove(url).is_some()
}

/// `DashSet::contains`.
#[verifier::external_body]
fn url_set_contains(set: &DashSet<String>, url: &str) -> (res: bool)
    ensures
        res == url_set(*set).contains(url@),
{
    set.contains(url)
}

/// `DashSet::iter`, of which the URLs are copied: each once, in the order of the shards.
#[verifier::external_body]
fn url_set_list(set: &DashSet<String>) -> (urls: Vec<String>)
    ensures
        lists(texts(urls@), url_set(*set)),
{
    set.iter().map(|entry| entry.key().clone()).collect()
}

/// `DashSet::clear`: an empty set.
#[verifier::external_body]
fn url_set_clear(set: &mut DashSet<String>)
    ensures
        url_set(*final(set)) == Set::<Seq<char>>::empty(),
{
    set.clear()
}

/// The URLs of a set in ascending order.
fn url_set_ascending(set: &DashSet<String>) -> (urls: Vec<String>)
    ensures
        ascending(texts(urls@)),
        lists(texts(urls@), url_set(*set)),
{
    let list = url_set_list(set);
    let mut urls: Vec<String> = Vec::new();
    let mut i: usize = 0;
    while i < list.len()
        invariant
            i <= list@.len(),
            lists(texts(list@), url_set(*set)),
            ascending(texts(urls@)),
            texts(urls@).no_duplicates(),
            forall|u: Seq<char>| #[trigger]
                texts(urls@).contains(u) <==> exists|j: int| 0 <= j < i && texts(list@)[j] == u,
        decreases list@.len() - i,
    {
        let ghost u = texts(list@)[i as int];
        let ghost before = texts(urls@);
        proof {
            if before.contains(u) {
                let j = choose|j: int| 0 <= j < i && texts(list@)[j] == u;
                assert(texts(list@)[j] == texts(list@)[i as int]);
            }
        }
        insert_ascending(&mut urls, copy_text(list[i].as_str()));
        proof {
            let p = choose|p: int|
                0 <= p <= before.len() && #[trigger] before.insert(p, u) == texts(urls@);
            lemma_insert_contains(before, p, u);
            assert forall|v: Seq<char>| #[trigger] texts(urls@).contains(v) <==> exists|j: int|
                0 <= j < i + 1 && texts(list@)[j] == v by {
                if before.contains(v) {
                    let j = choose|j: int| 0 <= j < i && texts(list@)[j] == v;
                    assert(texts(list@)[j] == v);
                }
                if exists|j: int| 0 <= j < i + 1 && texts(list@)[j] == v {
                    let j = choose|j: int| 0 <= j < i + 1 && texts(list@)[j] == v;
                    if j < i {
                        assert(before.contains(v));
                    }
                }
                assert(texts(list@)[i as int] == u);
            }
        }
        i = i + 1;
    }
    proof {
        assert forall|u: Seq<char>| #[trigger] url_set(*set).contains(u) <==> texts(urls@).contains(
            u,
        ) by {
            if texts(list@).contains(u) {
                let j = choose|j: int| 0 <= j < texts(list@).len() && texts(list@)[j] == u;
                assert(0 <= j < i && texts(list@)[j] == u);
            }
            if texts(urls@).contains(u) {
                let j = choose|j: int| 0 <= j < i && texts(list@)[j] == u;
                assert(texts(list@).contains(u));
            }
        }
    }
    urls
}

/// What a list holds after an insertion.
proof fn lemma_insert_contains<A>(list: Seq<A>, at: int, x: A)
    requires
        0 <= at <= list.len(),
        !list.contains(x),
        list.no_duplicates(),
    ensures
        list.insert(at, x).no_duplicates(),
        forall|y: A| #[trigger] list.insert(at, x).contains(y) <==> list.contains(y) || y == x,
{
    let after = list.insert(at, x);
    assert(after[at] == x);
    assert forall|y: A| list.contains(y) implies #[trigger] after.contains(y) by {
        let j = choose|j: int| 0 <= j < list.len() && list[j] == y;
        if j < at {
            assert(after[j] == y);
        } else {
            assert(after[j + 1] == y);
        }
    }
    assert forall|y: A| #[trigger] after.contains(y) implies list.contains(y) || y == x by {
        let j = choose|j: int| 0 <= j < after.len() && after[j] == y;
        if j < at {
            assert(list[j] == y);
        } else if j > at {
            assert(list[j - 1] == y);
        }
    }
    assert forall|p: int, q: int| 0 <= p < q < after.len() implies after[p] != after[q] by {
        if p == at {
            assert(list.contains(list[q - 1]));
        }
        if q == at {
            assert(list.contains(list[p]));
        }
    }
}

/// The sets and the table of the manager, over sequences.
#[verifier::ext_equal]
pub ghost struct ConnectorState {
    /// Wanted URLs that are not being reconnected.
    pub connectors: Set<Seq<char>>,
    /// URLs that are being reconnected.
    pub reconnecting: Set<Seq<char>>,
    /// URLs that the user removed.
    pub removed: Set<Seq<char>>,
    /// The failures on record.
    pub backoff: Map<Seq<char>, BackoffState>,
}

impl ConnectorState {
    /// A manager that was asked for nothing.
    pub open spec fn initial() -> ConnectorState {
        ConnectorState {
            connectors: Set::empty(),
            reconnecting: Set::empty(),
            removed: Set::empty(),
            backoff: Map::empty(),
        }
    }

    /// Every URL that is wanted, whether it is being reconnected or not.
    pub open spec fn wanted(self) -> Set<Seq<char>> {
        self.connectors.union(self.reconnecting)
    }

    /// No URL that is being reconnected waits to be reconnected.
    pub open spec fn consistent(self) -> bool {
        self.connectors.disjoint(self.reconnecting)
    }

    /// No dead URL whose wait is over is being reconnected.
    pub open spec fn free_to_begin(self, dead: Seq<Seq<char>>, now: Instant) -> bool {
        forall|url: Seq<char>| #[trigger]
            ready_urls(dead, self.backoff, now).contains(url) ==> !self.reconnecting.contains(url)
    }

    /// After the removals were carried out. A URL that is being reconnected stays marked.
    pub open spec fn removals_done(self) -> ConnectorState {
        ConnectorState {
            connectors: self.connectors.difference(self.removed),
            removed: self.removed.intersect(self.reconnecting).difference(self.connectors),
            ..self
        }
    }

    /// After the failures of URLs that are not wanted were forgotten.
    pub open spec fn pruned(self) -> ConnectorState {
        ConnectorState {
            backoff: self.backoff.restrict(self.backoff.dom().intersect(self.wanted())),
            ..self
        }
    }

    /// After an attempt was begun for each of `urls`.
    pub open spec fn begun(self, urls: Seq<Seq<char>>) -> ConnectorState {
        ConnectorState {
            connectors: self.connectors.difference(urls.to_set()),
            reconnecting: self.reconnecting.union(urls.to_set()),
            ..self
        }
    }

    /// After the attempt for `url` ended, with the failures then on record.
    pub open spec fn ended(
        self,
        url: Seq<char>,
        backoff: Map<Seq<char>, BackoffState>,
    ) -> ConnectorState {
        ConnectorState {
            connectors: self.connectors.insert(url),
            reconnecting: self.reconnecting.remove(url),
            backoff,
            ..self
        }
    }
}

/// The URLs whose wait is over, in the order of the list.
pub open spec fn ready_urls(
    dead: Seq<Seq<char>>,
    backoff: Map<Seq<char>, BackoffState>,
    now: Instant,
) -> Seq<Seq<char>> {
    dead.filter(|url: Seq<char>| may_attempt(backoff, url, now))
}

/// Why a request of the user was refused.
#[derive(Clone, Copy, Debug, PartialEq, Eq, Structural)]
pub enum ConnectorError {
    /// There is no such connector.
    NotFound,
}

/// The state of a connector, as it is listed.
#[derive(Clone, Copy, Debug, PartialEq, Eq, Structural)]
pub enum ConnectorStatus {
    Connected,
    Disconnected,
    Connecting,
}

/// A connector, as it is listed.
#[derive(Debug)]
pub struct Connector {
    pub url: String,
    pub status: ConnectorStatus,
}

/// The attempts of one tick.
#[derive(Debug)]
pub struct ReconnectTick {
    /// The URLs to reconnect.
    pub attempts: Vec<String>,
    /// How many dead URLs still have to wait.
    pub backoff_skipped: usize,
}

/// What an ended attempt did to the failures of its URL.
#[derive(Clone, Copy, Debug, PartialEq, Eq, Structural)]
pub enum AttemptNote {
    /// It succeeded; so many failures were forgotten, if there were any.
    Reset(Option<u32>),
    /// It failed; so many failures are on record, and the next attempt has to wait.
    Delayed(u32, Duration),
}

/// The manager of the connectors.
pub struct ManualConnectorManager {
    pub connectors: DashSet<String>,
    pub reconnecting: DashSet<String>,
    pub reconn_backoff: BackoffTable,
    pub removed_conn_urls: DashSet<String>,
}

impl View for ManualConnectorManager {
    type V = ConnectorState;

    open spec fn view(&self) -> ConnectorState {
        ConnectorState {
            connectors: url_set(self.connectors),
            reconnecting: url_set(self.reconnecting),
            removed: url_set(self.removed_conn_urls),
            backoff: self.reconn_backoff@,
        }
    }
}

impl ManualConnectorManager {
    /// A manager that was asked for nothing.
    pub fn new() -> (data: ManualConnectorManager)
        ensures
            data@ == ConnectorState::initial(),
    {
        ManualConnectorManager {
            connectors: url_set_new(),
            reconnecting: url_set_new(),
            reconn_backoff: BackoffTable::new(),
            removed_conn_urls: url_set_new(),
        }
    }

    /// Asks for a connector to `url`.
    pub fn add_connector_by_url(&mut self, url: &str)
        ensures
            final(self)@ == (ConnectorState {
                connectors: old(self)@.connectors.insert(url@),
                ..old(self)@
            }),
    {
        let _ = url_set_insert(&mut self.connectors, copy_text(url));
    }

    /// Asks for a connector to the URL that a connector leads to.
    pub fn add_connector(&mut self, remote_url: &PeerUrl)
        ensures
            final(self)@ == (ConnectorState {
                connectors: old(self)@.connectors.insert(remote_url@.text),
                ..old(self)@
            }),
    {
        self.add_connector_by_url(remote_url.text.as_str());
    }

    /// Carries out the removals. A URL that is being reconnected is removed later.
    pub fn handle_remove_connector(&mut self)
        ensures
            final(self)@ == old(self)@.removals_done(),
    {
        let marked = url_set_list(&self.removed_conn_urls);
        let mut remove_later: Vec<String> = Vec::new();
        let ghost before = self@;
        let mut i: usize = 0;
        while i < marked.len()
            invariant
                i <= marked@.len(),
                lists(texts(marked@), before.removed),
                self@.reconnecting == before.reconnecting,
                self@.removed == before.removed,
                self@.backoff == before.backoff,
                forall|u: Seq<char>| #[trigger]
                    self@.connectors.contains(u) <==> before.connectors.contains(u) && !texts(
                        marked@,
                    ).take(i as int).contains(u),
                forall|u: Seq<char>| #[trigger]
                    texts(remove_later@).contains(u) <==> texts(marked@).take(i as int).contains(u)
                        && !before.connectors.contains(u) && before.reconnecting.contains(u),
            decreases marked@.len() - i,
        {
            let ghost u = texts(marked@)[i as int];
            let ghost later0 = texts(remove_later@);
            let ghost conn0 = self@.connectors;
            proof {
                let all = texts(marked@);
                lemma_take_one_more(all, i as int);
                lemma_push_contains(all.take(i as int), u);
                lemma_not_before(all, i as int);
            }
            let was_there = url_set_remove(&mut self.connectors, marked[i].as_str());
            if !was_there && url_set_contains(&self.reconnecting, marked[i].as_str()) {
                remove_later.push(copy_text(marked[i].as_str()));
                proof {
                    lemma_push_contains(later0, u);
                    assert(texts(remove_later@) =~= later0.push(u));
                }
            }
            proof {
                assert(self@.connectors == conn0.remove(u));
                let all = texts(marked@);
                assert forall|v: Seq<char>| #[trigger]
                    self@.connectors.contains(v) <==> before.connectors.contains(v) && !all.take(
                        i + 1,
                    ).contains(v) by {
                    assert(all.take(i + 1).contains(v) <==> all.take(i as int).contains(v) || v
                        == u);
                }
                assert forall|v: Seq<char>| #[trigger]
                    texts(remove_later@).contains(v) <==> all.take(i + 1).contains(v)
                        && !before.connectors.contains(v) && before.reconnecting.contains(v) by {
                    assert(all.take(i + 1).contains(v) <==> all.take(i as int).contains(v) || v
                        == u);
                    assert(later0.contains(v) <==> all.take(i as int).contains(v)
                        && !before.connectors.contains(v) && before.reconnecting.contains(v));
                }
            }
            i = i + 1;
        }
        proof {
            assert(texts(marked@).take(i as int) =~= texts(marked@));
            assert(self@.connectors =~= before.connectors.difference(before.removed));
        }
        url_set_clear(&mut self.removed_conn_urls);
        let ghost mid = self@;
        let mut k: usize = 0;
        while k < remove_later.len()
            invariant
                k <= remove_later@.len(),
                self@.connectors == mid.connectors,
                self@.reconnecting == mid.reconnecting,
                self@.backoff == mid.backoff,
                self@.removed == texts(remove_later@).take(k as int).to_set(),
            decreases remove_later@.len() - k,
        {
            let _ = url_set_insert(
                &mut self.removed_conn_urls,
                copy_text(remove_later[k].as_str()),
            );
            proof {
                let all = texts(remove_later@);
                lemma_take_one_more(all, k as int);
                lemma_push_to_set(all.take(k as int), all[k as int]);
            }
            k = k + 1;
        }
        proof {
            let all = texts(remove_later@);
            assert(all.take(k as int) =~= all);
            assert(self@.removed =~= before.removed.intersect(before.reconnecting).difference(
                before.connectors,
            )) by {
                assert forall|u: Seq<char>| all.to_set().contains(u) <==> all.contains(u) by {}
            }
        }
    }
}

/// What an answer of `alive` says of a URL.
pub open spec fn answered<F: Fn(&String) -> bool>(alive: F, url: Seq<char>, answer: bool) -> bool {
    exists|s: String| s@ == url && #[trigger] alive.ensures((&s,), answer)
}

impl ManualConnectorManager {
    /// Carries out the removals and gives the wanted URLs that are not alive, in ascending order.
    pub fn collect_dead_conns<F: Fn(&String) -> bool>(&mut self, alive: F) -> (dead: Vec<String>)
        requires
            forall|url: &String| #[trigger] alive.requires((url,)),
        ensures
            final(self)@ == old(self)@.removals_done(),
            ascending(texts(dead@)),
            texts(dead@).no_duplicates(),
            forall|url: Seq<char>| #[trigger]
                texts(dead@).contains(url) ==> final(self)@.connectors.contains(url) && answered(
                    alive,
                    url,
                    false,
                ),
            forall|url: Seq<char>| #[trigger]
                final(self)@.connectors.contains(url) && !texts(dead@).contains(url) ==> answered(
                    alive,
                    url,
                    true,
                ),
    {
        self.handle_remove_connector();
        let urls = url_set_ascending(&self.connectors);
        let mut dead: Vec<String> = Vec::new();
        let ghost all = texts(urls@);
        let mut i: usize = 0;
        while i < urls.len()
            invariant
                i <= urls@.len(),
                all == texts(urls@),
                lists(all, url_set(self.connectors)),
                ascending(all),
                forall|url: &String| #[trigger] alive.requires((url,)),
                ascending(texts(dead@)),
                texts(dead@).no_duplicates(),
                forall|a: int, b: int|
                    0 <= a < dead@.len() && i <= b < all.len() ==> text_before(
                        #[trigger] texts(dead@)[a],
                        #[trigger] all[b],
                    ),
                forall|url: Seq<char>| #[trigger]
                    texts(dead@).contains(url) ==> all.take(i as int).contains(url) && answered(
                        alive,
                        url,
                        false,
                    ),
                forall|url: Seq<char>| #[trigger]
                    all.take(i as int).contains(url) && !texts(dead@).contains(url) ==> answered(
                        alive,
                        url,
                        true,
                    ),
            decreases urls@.len() - i,
        {
            let ghost u = all[i as int];
            let ghost dead0 = texts(dead@);
            proof {
                lemma_take_one_more(all, i as int);
                lemma_push_contains(all.take(i as int), u);
                lemma_not_before(all, i as int);
                lemma_push_contains(dead0, u);
            }
            let is_alive = alive(&urls[i]);
            proof {
                assert(urls@[i as int]@ == u);
                assert(answered(alive, u, is_alive));
            }
            if !is_alive {
                dead.push(copy_text(urls[i].as_str()));
                proof {
                    assert(texts(dead@) =~= dead0.push(u));
                    assert forall|a: int, b: int|
                        0 <= a < b < texts(dead@).len() implies text_before(
                        texts(dead@)[a],
                        texts(dead@)[b],
                    ) by {
                        if b == dead0.len() {
                            assert(text_before(dead0[a], all[i as int]));
                        } else {
                            assert(text_before(dead0[a], dead0[b]));
                        }
                    }
                }
            }
            proof {
                assert forall|a: int, b: int|
                    0 <= a < dead@.len() && i + 1 <= b < all.len() implies text_before(
                    #[trigger] texts(dead@)[a],
                    #[trigger] all[b],
                ) by {
                    if a < dead0.len() {
                        assert(text_before(dead0[a], all[b]));
                        assert(texts(dead@)[a] == dead0[a]);
                    } else {
                        assert(text_before(all[i as int], all[b]));
                    }
                }
                assert forall|url: Seq<char>| #[trigger] texts(dead@).contains(url) implies all.take(
                    i + 1,
                ).contains(url) && answered(alive, url, false) by {
                    assert(all.take(i + 1).contains(url) <==> all.take(i as int).contains(url)
                        || url == u);
                    assert(dead0.contains(url) || url == u);
                }
                assert forall|url: Seq<char>| #[trigger]
                    all.take(i + 1).contains(url) && !texts(dead@).contains(url) implies answered(
                    alive,
                    url,
                    true,
                ) by {
                    assert(all.take(i + 1).contains(url) <==> all.take(i as int).contains(url)
                        || url == u);
                    assert(dead0.contains(url) ==> texts(dead@).contains(url));
                }
            }
            i = i + 1;
        }
        proof {
            assert(all.take(i as int) =~= all);
        }
        dead
    }

    /// Whether no dead URL whose wait is over is being reconnected. It can only be otherwise after a
    /// URL was asked for again during its own attempt.
    pub fn may_begin(&self, dead: &Vec<String>, now: Instant) -> (res: bool)
        ensures
            res == self@.free_to_begin(texts(dead@), now),
    {
        let ghost all = texts(dead@);
        let mut i: usize = 0;
        while i < dead.len()
            invariant
                i <= dead@.len(),
                all == texts(dead@),
                forall|j: int|
                    0 <= j < i && may_attempt(self@.backoff, #[trigger] all[j], now)
                        ==> !self@.reconnecting.contains(all[j]),
            decreases dead@.len() - i,
        {
            assert(all[i as int] == dead@[i as int]@);
            let ready = self.reconn_backoff.should_attempt(dead[i].as_str(), now);
            if ready && url_set_contains(&self.reconnecting, dead[i].as_str()) {
                proof {
                    assert(all.contains(all[i as int]));
                    every_ready_url_is_tried(all, self@.backoff, now, all[i as int]);
                }
                return false;
            }
            i = i + 1;
        }
        proof {
            assert forall|url: Seq<char>| #[trigger]
                ready_urls(all, self@.backoff, now).contains(url) implies !self@.reconnecting.contains(
                url,
            ) by {
                every_ready_url_is_tried(all, self@.backoff, now, url);
                let j = choose|j: int| 0 <= j < all.len() && all[j] == url;
                assert(may_attempt(self@.backoff, all[j], now));
            }
        }
        true
    }

    /// Forgets the failures of URLs that are not wanted any more.
    fn prune_backoff(&mut self)
        ensures
            final(self)@ == old(self)@.pruned(),
    {
        let ghost before = self@;
        let connectors = &self.connectors;
        let reconnecting = &self.reconnecting;
        let keep = |url: &String| -> (kept: bool)
            ensures
                kept == (url_set(*connectors).contains(url@) || url_set(*reconnecting).contains(
                    url@,
                )),
        {
            let wanted = url_set_contains(connectors, url.as_str());
            let busy = url_set_contains(reconnecting, url.as_str());
            wanted || busy
        };
        let _ = self.reconn_backoff.prune(keep);
        proof {
            assert(self@.backoff =~= before.pruned().backoff);
        }
    }

    /// One tick: forgets what is not needed, and begins an attempt for each dead URL whose wait is
    /// over. The others stay where they are.
    pub fn reconnect_tick(&mut self, dead: &Vec<String>, now: Instant) -> (tick: ReconnectTick)
        requires
            old(self)@.free_to_begin(texts(dead@), now),
            texts(dead@).no_duplicates(),
            forall|url: Seq<char>| #[trigger]
                texts(dead@).contains(url) ==> old(self)@.connectors.contains(url),
        ensures
            texts(tick.attempts@) == ready_urls(texts(dead@), old(self)@.backoff, now),
            forall|url: Seq<char>| #[trigger]
                texts(tick.attempts@).contains(url) <==> texts(dead@).contains(url) && (
                old(self)@.backoff.dom().contains(url) ==> now.nanos
                    >= old(self)@.backoff[url].next_attempt_at.nanos),
            tick.backoff_skipped == dead@.len() - tick.attempts@.len(),
            final(self)@ == old(self)@.pruned().begun(texts(tick.attempts@)),
            old(self)@.consistent() ==> final(self)@.consistent(),
    {
        let ghost before = self@;
        self.prune_backoff();
        let ghost start = self@;
        let ghost all = texts(dead@);
        let ghost ready = |url: Seq<char>| may_attempt(before.backoff, url, now);
        let mut attempts: Vec<String> = Vec::new();
        let mut backoff_skipped: usize = 0;
        let mut i: usize = 0;
        while i < dead.len()
            invariant
                i <= dead@.len(),
                all == texts(dead@),
                all.no_duplicates(),
                start == before.pruned(),
                before.free_to_begin(all, now),
                ready == (|url: Seq<char>| may_attempt(before.backoff, url, now)),
                forall|url: Seq<char>| #[trigger]
                    all.contains(url) ==> before.connectors.contains(url),
                texts(attempts@) == all.take(i as int).filter(ready),
                backoff_skipped == i - attempts@.len(),
                attempts@.len() <= i,
                self@ == start.begun(texts(attempts@)),
            decreases dead@.len() - i,
        {
            let ghost u = all[i as int];
            let ghost attempts0 = texts(attempts@);
            proof {
                assert(all.contains(u));
                lemma_filter_one_more(all, ready, i as int);
                lemma_filtered_before(all, ready, i as int);
                assert(before.connectors.contains(u));
                assert(!attempts0.contains(u));
            }
            let ready_now = self.reconn_backoff.should_attempt(dead[i].as_str(), now);
            assert(ready_now == ready(u));
            if !ready_now {
                backoff_skipped = backoff_skipped + 1;
            } else {
                proof {
                    every_ready_url_is_tried(all, before.backoff, now, u);
                    assert(!before.reconnecting.contains(u));
                }
                let _ = url_set_remove(&mut self.connectors, dead[i].as_str());
                let is_new = url_set_insert(&mut self.reconnecting, copy_text(dead[i].as_str()));
                assert(is_new);
                attempts.push(copy_text(dead[i].as_str()));
                proof {
                    assert(texts(attempts@) =~= attempts0.push(u));
                    lemma_push_to_set(attempts0, u);
                    assert(self@ =~= start.begun(texts(attempts@)));
                }
            }
            i = i + 1;
        }
        proof {
            assert(all.take(i as int) =~= all);
            assert forall|url: Seq<char>| #[trigger] texts(attempts@).contains(url)
                <==> all.contains(url) && (before.backoff.dom().contains(url) ==> now.nanos
                >= before.backoff[url].next_attempt_at.nanos) by {
                every_ready_url_is_tried(all, before.backoff, now, url);
            }
        }
        ReconnectTick { attempts, backoff_skipped }
    }

    /// The attempt for `url` ended: its failures are forgotten or counted, and it is wanted again.
    pub fn finish_reconnect(&mut self, url: &str, success: bool, now: Instant) -> (note: AttemptNote)
        requires
            old(self)@.reconnecting.contains(url@),
            now.nanos + RECONN_BACKOFF_LIMIT_SECS * NANOS_PER_SEC <= u64::MAX,
        ensures
            success ==> final(self)@ == old(self)@.ended(url@, old(self)@.backoff.remove(url@))
                && note == AttemptNote::Reset(
                if old(self)@.backoff.dom().contains(url@) {
                    Some(old(self)@.backoff[url@].fail_count)
                } else {
                    None
                },
            ),
            !success ==> {
                &&& note matches AttemptNote::Delayed(count, delay)
                &&& count == one_more(failures(old(self)@.backoff, url@))
                &&& is_delay_after(count, delay)
                &&& !old(self)@.backoff.dom().contains(url@) ==> count == 1
                &&& old(self)@.backoff.dom().contains(url@) && old(self)@.backoff[url@].fail_count
                    < u32::MAX ==> count == old(self)@.backoff[url@].fail_count + 1
                &&& count == 1 ==> 1_600_000_000 <= delay.nanos <= 2_400_000_000
                &&& count >= 6 ==> 48_000_000_000 <= delay.nanos <= 72_000_000_000
                &&& final(self)@ == old(self)@.ended(
                    url@,
                    old(self)@.backoff.insert(
                        url@,
                        BackoffState {
                            fail_count: count,
                            next_attempt_at: Instant { nanos: (now.nanos + delay.nanos) as u64 },
                        },
                    ),
                )
            },
    {
        let note = if success {
            AttemptNote::Reset(self.reconn_backoff.record_success(url))
        } else {
            let (count, delay) = self.reconn_backoff.record_failure(url, now);
            AttemptNote::Delayed(count, delay)
        };
        let _ = url_set_remove(&mut self.reconnecting, url);
        let _ = url_set_insert(&mut self.connectors, copy_text(url));
        note
    }

    /// Marks `url` for removal; refused where there is no such connector.
    pub fn remove_connector(&mut self, url: &str) -> (res: Result<(), ConnectorError>)
        ensures
            res is Err <==> !old(self)@.removals_done().wanted().contains(url@),
            res is Ok <==> old(self)@.reconnecting.contains(url@) || old(
                self,
            )@.connectors.contains(url@) && !old(self)@.removed.contains(url@),
            final(self)@ == (if res is Ok {
                ConnectorState {
                    removed: old(self)@.removals_done().removed.insert(url@),
                    ..old(self)@.removals_done()
                }
            } else {
                old(self)@.removals_done()
            }),
    {
        self.handle_remove_connector();
        if !url_set_contains(&self.connectors, url) && !url_set_contains(&self.reconnecting, url) {
            return Err(ConnectorError::NotFound);
        }
        let _ = url_set_insert(&mut self.removed_conn_urls, copy_text(url));
        Ok(())
    }

    /// Marks every connector for removal.
    pub fn clear_connectors(&mut self)
        ensures
            final(self)@ == (ConnectorState {
                removed: old(self)@.removals_done().removed.union(
                    old(self)@.removals_done().wanted(),
                ),
                ..old(self)@.removals_done()
            }),
    {
        self.handle_remove_connector();
        let ghost before = self@;
        let first = url_set_list(&self.connectors);
        let second = url_set_list(&self.reconnecting);
        self.mark_all_removed(&first);
        self.mark_all_removed(&second);
        proof {
            assert(self@.removed =~= before.removed.union(before.wanted()));
        }
    }

    /// Marks the URLs of a list for removal.
    fn mark_all_removed(&mut self, urls: &Vec<String>)
        ensures
            final(self)@ == (ConnectorState {
                removed: old(self)@.removed.union(texts(urls@).to_set()),
                ..old(self)@
            }),
    {
        let ghost before = self@;
        let ghost all = texts(urls@);
        let mut i: usize = 0;
        while i < urls.len()
            invariant
                i <= urls@.len(),
                all == texts(urls@),
                self@ == (ConnectorState {
                    removed: before.removed.union(all.take(i as int).to_set()),
                    ..before
                }),
            decreases urls@.len() - i,
        {
            let _ = url_set_insert(&mut self.removed_conn_urls, copy_text(urls[i].as_str()));
            proof {
                lemma_take_one_more(all, i as int);
                lemma_push_to_set(all.take(i as int), all[i as int]);
                assert(self@.removed =~= before.removed.union(all.take(i + 1).to_set()));
            }
            i = i + 1;
        }
        proof {
            assert(all.take(i as int) =~= all);
            assert(before.removed.union(Set::<Seq<char>>::empty()) =~= before.removed);
        }
    }
}

/// The URLs of a list of connectors.
pub open spec fn connector_urls(list: Seq<Connector>) -> Seq<Seq<char>> {
    Seq::new(list.len(), |i: int| list[i].url@)
}

/// `list` shows the connectors: those being reconnected first, in descending order, then the
/// others, in no particular order.
pub open spec fn shows(list: Seq<Connector>, state: ConnectorState, busy: Seq<Seq<char>>) -> bool {
    &&& ascending(busy)
    &&& lists(busy, state.reconnecting)
    &&& busy.len() <= list.len()
    &&& forall|i: int|
        0 <= i < busy.len() ==> #[trigger] connector_urls(list)[i] == busy[busy.len() - 1 - i]
    &&& lists(connector_urls(list).skip(busy.len() as int), state.connectors)
}

impl ManualConnectorManager {
    /// Carries out the removals and lists the connectors.
    pub fn list_connectors<F: Fn(&String) -> bool>(&mut self, alive: F) -> (list: Vec<Connector>)
        requires
            forall|url: &String| #[trigger] alive.requires((url,)),
        ensures
            final(self)@ == old(self)@.removals_done(),
            exists|busy: Seq<Seq<char>>|
                #[trigger] shows(list@, final(self)@, busy) && forall|i: int|
                    #![trigger list@[i]]
                    0 <= i < list@.len() ==> match list@[i].status {
                        ConnectorStatus::Connecting => i < busy.len(),
                        ConnectorStatus::Connected => i >= busy.len() && answered(
                            alive,
                            list@[i].url@,
                            true,
                        ),
                        ConnectorStatus::Disconnected => i >= busy.len() && answered(
                            alive,
                            list@[i].url@,
                            false,
                        ),
                    },
    {
        let dead = self.collect_dead_conns(alive);
        let busy = url_set_ascending(&self.reconnecting);
        let idle = url_set_list(&self.connectors);
        let ghost busy_urls = texts(busy@);
        let ghost idle_urls = texts(idle@);
        let mut list: Vec<Connector> = Vec::new();
        let mut i: usize = busy.len();
        while i > 0
            invariant
                i <= busy@.len(),
                busy_urls == texts(busy@),
                list@.len() == busy@.len() - i,
                forall|k: int|
                    0 <= k < list@.len() ==> #[trigger] connector_urls(list@)[k]
                        == busy_urls[busy_urls.len() - 1 - k],
                forall|k: int| #![trigger list@[k]]
                    0 <= k < list@.len() ==> list@[k].status == ConnectorStatus::Connecting,
            decreases i,
        {
            i = i - 1;
            let ghost before = connector_urls(list@);
            list.push(
                Connector {
                    url: copy_text(busy[i].as_str()),
                    status: ConnectorStatus::Connecting,
                },
            );
            assert(connector_urls(list@) =~= before.push(busy_urls[i as int]));
        }
        let mut j: usize = 0;
        while j < idle.len()
            invariant
                j <= idle@.len(),
                busy_urls == texts(busy@),
                idle_urls == texts(idle@),
                lists(idle_urls, self@.connectors),
                list@.len() == busy@.len() + j,
                forall|url: Seq<char>| #[trigger]
                    texts(dead@).contains(url) ==> answered(alive, url, false),
                forall|url: Seq<char>| #[trigger]
                    self@.connectors.contains(url) && !texts(dead@).contains(url) ==> answered(
                        alive,
                        url,
                        true,
                    ),
                forall|k: int|
                    0 <= k < busy_urls.len() ==> #[trigger] connector_urls(list@)[k]
                        == busy_urls[busy_urls.len() - 1 - k],
                connector_urls(list@).skip(busy_urls.len() as int) == idle_urls.take(j as int),
                forall|k: int| #![trigger list@[k]]
                    0 <= k < list@.len() ==> match list@[k].status {
                        ConnectorStatus::Connecting => k < busy_urls.len(),
                        ConnectorStatus::Connected => k >= busy_urls.len() && answered(
                            alive,
                            list@[k].url@,
                            true,
                        ),
                        ConnectorStatus::Disconnected => k >= busy_urls.len() && answered(
                            alive,
                            list@[k].url@,
                            false,
                        ),
                    },
            decreases idle@.len() - j,
        {
            let ghost u = idle_urls[j as int];
            let ghost before = connector_urls(list@);
            proof {
                assert(idle_urls.contains(u));
                assert(self@.connectors.contains(u));
            }
            let is_dead = contains_text(&dead, idle[j].as_str());
            let status = if is_dead {
                ConnectorStatus::Disconnected
            } else {
                ConnectorStatus::Connected
            };
            list.push(Connector { url: copy_text(idle[j].as_str()), status });
            j = j + 1;
            proof {
                assert(connector_urls(list@) =~= before.push(u));
                assert(connector_urls(list@).skip(busy_urls.len() as int) =~= before.skip(
                    busy_urls.len() as int,
                ).push(u));
                assert(idle_urls.take(j as int) =~= idle_urls.take(j - 1).push(u));
            }
        }
        proof {
            assert(idle_urls.take(j as int) =~= idle_urls);
            assert(shows(list@, self@, busy_urls));
        }
        list
    }
}

/// How long an attempt may take in all.
pub open spec fn timeout_secs(scheme: Seq<char>) -> u64 {
    if scheme == "http"@ || scheme == "https"@ || scheme == "txt"@ || scheme == "srv"@ || scheme
        == "ws"@ || scheme == "wss"@ {
        20
    } else {
        2
    }
}

/// How long an attempt for `dead_url` may take in all.
pub fn reconnect_timeout(dead_url: &PeerUrl) -> (d: Duration)
    ensures
        d.nanos == timeout_secs(dead_url@.scheme) * NANOS_PER_SEC,
        d.nanos == 20_000_000_000 || d.nanos == 2_000_000_000,
{
    let scheme = dead_url.scheme.as_str();
    let long = same_text(scheme, "http") || same_text(scheme, "https") || same_text(scheme, "txt")
        || same_text(scheme, "srv") || same_text(scheme, "ws") || same_text(scheme, "wss");
    if long {
        Duration::from_secs(20)
    } else {
        Duration::from_secs(2)
    }
}

/// What is left of the time for an attempt; none where it is used up.
pub fn remaining_budget(started_at: Instant, total_timeout: Duration, now: Instant) -> (res: Option<
    Duration,
>)
    ensures
        res is Some <==> since(now, started_at) < total_timeout.nanos,
        res matches Some(d) ==> d.nanos == total_timeout.nanos - since(now, started_at),
{
    let elapsed = started_at.elapsed(now);
    if elapsed.nanos < total_timeout.nanos {
        Some(Duration { nanos: total_timeout.nanos - elapsed.nanos })
    } else {
        None
    }
}

/// The steps of an attempt.
#[derive(Clone, Copy, Debug, PartialEq, Eq, Structural)]
pub enum ReconnectStage {
    Resolve,
    Connect,
    Handshake,
}

/// The name of a step.
pub open spec fn stage_text(stage: ReconnectStage) -> Seq<char> {
    match stage {
        ReconnectStage::Resolve => "resolve"@,
        ReconnectStage::Connect => "connect"@,
        ReconnectStage::Handshake => "handshake"@,
    }
}

/// The name of a step.
pub fn stage_name(stage: ReconnectStage) -> (s: String)
    ensures
        s@ == stage_text(stage),
{
    match stage {
        ReconnectStage::Resolve => copy_text("resolve"),
        ReconnectStage::Connect => copy_text("connect"),
        ReconnectStage::Handshake => copy_text("handshake"),
    }
}

/// The error of a step that took too long.
pub fn reconnect_timeout_error(stage: ReconnectStage, duration: Duration) -> (s: String)
    ensures
        s@ == stage_text(stage) + " timeout after "@ + duration_text(duration.nanos as nat),
{
    join_three(stage_name(stage).as_str(), " timeout after ", duration.to_text().as_str())
}

/// Whether the step may start, and for how long it may run; otherwise the error that says for how
/// long the attempt has been running.
pub fn begin_stage(
    stage: ReconnectStage,
    started_at: Instant,
    total_timeout: Duration,
    now: Instant,
) -> (res: Result<Duration, String>)
    ensures
        res is Ok <==> since(now, started_at) < total_timeout.nanos,
        res matches Ok(d) ==> d.nanos == total_timeout.nanos - since(now, started_at),
        res matches Err(e) ==> e@ == stage_text(stage) + " timeout after "@ + duration_text(
            since(now, started_at) as nat,
        ),
{
    match remaining_budget(started_at, total_timeout, now) {
        Some(d) => Ok(d),
        None => Err(reconnect_timeout_error(stage, started_at.elapsed(now))),
    }
}

/// Whether URLs of this scheme are tried without looking at addresses.
pub open spec fn needs_no_address(scheme: Seq<char>) -> bool {
    scheme == "ring"@ || scheme == "txt"@ || scheme == "srv"@
}

/// Whether `dead_url` is tried without looking at addresses.
pub fn is_tried_without_address(dead_url: &PeerUrl) -> (res: bool)
    ensures
        res == needs_no_address(dead_url@.scheme),
{
    let scheme = dead_url.scheme.as_str();
    same_text(scheme, "ring") || same_text(scheme, "txt") || same_text(scheme, "srv")
}

/// Whether one of the addresses is of the given version.
pub open spec fn has_version(addrs: Seq<IpAddr>, v4: bool) -> bool {
    exists|i: int| 0 <= i < addrs.len() && (#[trigger] addrs[i] is V4) == v4
}

/// The IP versions that an attempt goes through, in order: IPv4 before IPv6, each if the name has
/// such an address.
pub open spec fn versions_of(scheme: Seq<char>, addrs: Seq<IpAddr>) -> Seq<IpVersion> {
    if needs_no_address(scheme) {
        seq![IpVersion::Both]
    } else {
        (if has_version(addrs, true) {
            seq![IpVersion::V4]
        } else {
            Seq::empty()
        }) + (if has_version(addrs, false) {
            seq![IpVersion::V6]
        } else {
            Seq::empty()
        })
    }
}

/// The IP versions that an attempt for `dead_url` goes through.
pub fn ip_versions(dead_url: &PeerUrl, addrs: &Vec<IpAddr>) -> (versions: Vec<IpVersion>)
    ensures
        versions@ == versions_of(dead_url@.scheme, addrs@),
        versions@.len() <= 2,
{
    let mut versions: Vec<IpVersion> = Vec::new();
    if is_tried_without_address(dead_url) {
        versions.push(IpVersion::Both);
        assert(versions@ =~= seq![IpVersion::Both]);
        return versions;
    }
    let mut has_ipv4 = false;
    let mut has_ipv6 = false;
    let mut i: usize = 0;
    while i < addrs.len()
        invariant
            i <= addrs@.len(),
            has_ipv4 == has_version(addrs@.take(i as int), true),
            has_ipv6 == has_version(addrs@.take(i as int), false),
            versions@ == (if has_ipv4 {
                seq![IpVersion::V4]
            } else {
                Seq::empty()
            }) + (if has_ipv6 {
                seq![IpVersion::V6]
            } else {
                Seq::empty()
            }),
        decreases addrs@.len() - i,
    {
        proof {
            lemma_versions_one_more(addrs@, i as int);
        }
        match addrs[i] {
            IpAddr::V4(_) => {
                if !has_ipv4 {
                    versions.insert(0, IpVersion::V4);
                }
                has_ipv4 = true;
            },
            IpAddr::V6(_) => {
                if !has_ipv6 {
                    versions.push(IpVersion::V6);
                }
                has_ipv6 = true;
            },
        }
        i = i + 1;
    }
    assert(addrs@.take(i as int) =~= addrs@);
    versions
}

/// The versions among one address more.
proof fn lemma_versions_one_more(addrs: Seq<IpAddr>, n: int)
    requires
        0 <= n < addrs.len(),
    ensures
        has_version(addrs.take(n + 1), true) == (has_version(addrs.take(n), true) || addrs[n] is V4),
        has_version(addrs.take(n + 1), false) == (has_version(addrs.take(n), false) || !(
        addrs[n] is V4)),
{
    assert forall|v4: bool| #[trigger]
        has_version(addrs.take(n + 1), v4) == (has_version(addrs.take(n), v4) || (addrs[n] is V4)
            == v4) by {
        let more = addrs.take(n + 1);
        let less = addrs.take(n);
        if has_version(more, v4) {
            let i = choose|i: int| 0 <= i < more.len() && (#[trigger] more[i] is V4) == v4;
            if i < n {
                assert(less[i] == more[i]);
            }
        }
        if has_version(less, v4) {
            let i = choose|i: int| 0 <= i < less.len() && (#[trigger] less[i] is V4) == v4;
            assert(more[i] == less[i]);
        }
        assert(more[n] == addrs[n]);
    }
}

/// The name of an IP version, as errors show it.
pub open spec fn ip_version_text(version: IpVersion) -> Seq<char> {
    match version {
        IpVersion::V4 => "V4"@,
        IpVersion::V6 => "V6"@,
        IpVersion::Both => "Both"@,
    }
}

/// The name of an IP version, as errors show it.
pub fn ip_version_name(version: IpVersion) -> (s: String)
    ensures
        s@ == ip_version_text(version),
{
    match version {
        IpVersion::V4 => copy_text("V4"),
        IpVersion::V6 => copy_text("V6"),
        IpVersion::Both => copy_text("Both"),
    }
}

/// An attempt on its way through the IP versions.
#[derive(Debug)]
pub struct ReconnectAttempt {
    pub versions: Vec<IpVersion>,
    /// How many versions failed.
    pub failed: usize,
    /// The error of the last version that failed.
    pub last_error: Option<String>,
}

impl ReconnectAttempt {
    /// Some versions failed, and the error of the last is kept.
    pub open spec fn wf(self) -> bool {
        self.failed <= self.versions@.len() && (self.failed > 0 <==> self.last_error is Some)
    }

    /// An attempt that goes through `versions`.
    pub fn new(versions: Vec<IpVersion>) -> (res: ReconnectAttempt)
        ensures
            res.versions == versions,
            res.failed == 0,
            res.last_error is None,
            res.wf(),
    {
        ReconnectAttempt { versions, failed: 0, last_error: None }
    }

    /// The version to try next; none where all have failed.
    pub fn next(&self) -> (res: Option<IpVersion>)
        ensures
            res == (if self.failed < self.versions@.len() {
                Some(self.versions@[self.failed as int])
            } else {
                None
            }),
    {
        if self.failed < self.versions.len() {
            Some(self.versions[self.failed])
        } else {
            None
        }
    }

    /// The version that was tried failed with `error`.
    pub fn note_failure(&mut self, error: String)
        requires
            old(self).wf(),
            old(self).failed < old(self).versions@.len(),
        ensures
            final(self).wf(),
            final(self).versions == old(self).versions,
            final(self).failed == old(self).failed + 1,
            final(self).last_error == Some(error),
    {
        if self.failed < self.versions.len() {
            self.failed = self.failed + 1;
        }
        self.last_error = Some(error);
    }

    /// The error of an attempt of which every version failed: that of the last one, or that there
    /// was none to try.
    pub fn error(self) -> (s: String)
        requires
            self.wf(),
        ensures
            s@ == (match self.last_error {
                Some(e) => e@,
                None => "cannot get ip from url"@,
            }),
            self.last_error is None <==> self.failed == 0,
    {
        match self.last_error {
            Some(e) => e,
            None => copy_text("cannot get ip from url"),
        }
    }
}

/// No URL gets lost: a tick and the end of an attempt leave the wanted URLs as they are.
pub proof fn wanted_urls_are_never_lost(
    state: ConnectorState,
    attempts: Seq<Seq<char>>,
    url: Seq<char>,
    backoff: Map<Seq<char>, BackoffState>,
)
    requires
        forall|u: Seq<char>| #[trigger] attempts.contains(u) ==> state.connectors.contains(u),
    ensures
        state.pruned().begun(attempts).wanted() == state.wanted(),
        state.reconnecting.contains(url) ==> state.ended(url, backoff).wanted() == state.wanted(),
{
    assert(state.pruned().begun(attempts).wanted() =~= state.wanted()) by {
        assert forall|u: Seq<char>| attempts.to_set().contains(u) implies state.connectors.contains(
            u,
        ) by {
            assert(attempts.contains(u));
        }
    }
    if state.reconnecting.contains(url) {
        assert(state.ended(url, backoff).wanted() =~= state.wanted());
    }
}

/// The attempts keep the sets apart: what is being reconnected does not wait to be reconnected.
pub proof fn attempts_keep_the_sets_apart(
    state: ConnectorState,
    attempts: Seq<Seq<char>>,
    url: Seq<char>,
    backoff: Map<Seq<char>, BackoffState>,
)
    requires
        state.consistent(),
    ensures
        state.pruned().begun(attempts).consistent(),
        state.ended(url, backoff).consistent(),
        state.removals_done().consistent(),
{
}

/// A removed URL leaves: at once where it is not being reconnected, otherwise after its attempt.
pub proof fn removed_urls_leave(
    state: ConnectorState,
    url: Seq<char>,
    backoff: Map<Seq<char>, BackoffState>,
)
    requires
        state.consistent(),
        state.removed.contains(url),
    ensures
        !state.removals_done().connectors.contains(url),
        !state.reconnecting.contains(url) ==> !state.removals_done().wanted().contains(url)
            && !state.removals_done().removed.contains(url),
        state.reconnecting.contains(url) ==> {
            let later = state.removals_done().ended(url, backoff).removals_done();
            !later.wanted().contains(url) && !later.removed.contains(url)
        },
{
}

/// The tick goes by each URL's own wait: a URL is tried exactly when it is dead and its own wait is
/// over, whatever the others do.
pub proof fn every_ready_url_is_tried(
    dead: Seq<Seq<char>>,
    backoff: Map<Seq<char>, BackoffState>,
    now: Instant,
    url: Seq<char>,
)
    ensures
        ready_urls(dead, backoff, now).contains(url) <==> dead.contains(url) && may_attempt(
            backoff,
            url,
            now,
        ),
{
    let ready = |u: Seq<char>| may_attempt(backoff, u, now);
    lemma_filtered_subset(dead, ready);
    if dead.contains(url) && ready(url) {
        lemma_filter_keeps(dead, ready, url);
    }
}

/// What passes the filter is kept.
proof fn lemma_filter_keeps<A>(list: Seq<A>, keep: spec_fn(A) -> bool, x: A)
    requires
        list.contains(x),
        keep(x),
    ensures
        list.filter(keep).contains(x),
    decreases list.len(),
{
    reveal(Seq::filter);
    if list.len() > 0 {
        let rest = list.drop_last();
        lemma_push_contains(rest.filter(keep), list.last());
        if list.last() != x {
            let j = choose|j: int| 0 <= j < list.len() && list[j] == x;
            assert(rest[j] == x);
            lemma_filter_keeps(rest, keep, x);
        }
    }
}

/// Filtering one element more.
proof fn lemma_filter_one_more<A>(list: Seq<A>, keep: spec_fn(A) -> bool, n: int)
    requires
        0 <= n < list.len(),
    ensures
        list.take(n + 1).filter(keep) == (if keep(list[n]) {
            list.take(n).filter(keep).push(list[n])
        } else {
            list.take(n).filter(keep)
        }),
{
    reveal(Seq::filter);
    assert(list.take(n + 1).drop_last() =~= list.take(n));
}

/// In a list without duplicates an element is not among what was kept of those before it.
proof fn lemma_filtered_before<A>(list: Seq<A>, keep: spec_fn(A) -> bool, n: int)
    requires
        0 <= n < list.len(),
        list.no_duplicates(),
    ensures
        !list.take(n).filter(keep).contains(list[n]),
        forall|x: A| #[trigger] list.take(n).filter(keep).contains(x) ==> list.contains(x),
    decreases n,
{
    reveal(Seq::filter);
    if n > 0 {
        lemma_filter_one_more(list, keep, n - 1);
        lemma_filtered_subset(list.take(n - 1), keep);
        lemma_push_contains(list.take(n - 1).filter(keep), list[n - 1]);
        lemma_filtered_subset(list.take(n), keep);
        assert forall|x: A| list.take(n).contains(x) implies list.contains(x) by {
            let j = choose|j: int| 0 <= j < n && list.take(n)[j] == x;
            assert(list[j] == x);
        }
        lemma_not_before(list, n);
    }
}

/// What was kept was there.
proof fn lemma_filtered_subset<A>(list: Seq<A>, keep: spec_fn(A) -> bool)
    ensures
        forall|x: A| #[trigger] list.filter(keep).contains(x) ==> list.contains(x) && keep(x),
    decreases list.len(),
{
    reveal(Seq::filter);
    if list.len() > 0 {
        lemma_filtered_subset(list.drop_last(), keep);
        lemma_push_contains(list.drop_last().filter(keep), list.last());
        assert forall|x: A| #[trigger] list.filter(keep).contains(x) implies list.contains(x)
            && keep(x) by {
            if list.drop_last().filter(keep).contains(x) {
                let j = choose|j: int| 0 <= j < list.len() - 1 && list.drop_last()[j] == x;
                assert(list[j] == x);
            } else {
                assert(list[list.len() - 1] == x);
            }
        }
    }
}

/// What a list holds after a push.
proof fn lemma_push_contains<A>(list: Seq<A>, x: A)
    ensures
        forall|y: A| #[trigger] list.push(x).contains(y) <==> list.contains(y) || y == x,
{
    let after = list.push(x);
    assert(after[list.len() as int] == x);
    assert forall|y: A| list.contains(y) implies #[trigger] after.contains(y) by {
        let j = choose|j: int| 0 <= j < list.len() && list[j] == y;
        assert(after[j] == y);
    }
}

/// The first elements and the next one.
proof fn lemma_take_one_more<A>(list: Seq<A>, n: int)
    requires
        0 <= n < list.len(),
    ensures
        list.take(n + 1) == list.take(n).push(list[n]),
{
    assert(list.take(n + 1) =~= list.take(n).push(list[n]));
}

/// In a list without duplicates an element does not occur before its place.
proof fn lemma_not_before<A>(list: Seq<A>, n: int)
    requires
        0 <= n < list.len(),
        list.no_duplicates(),
    ensures
        !list.take(n).contains(list[n]),
{
    if list.take(n).contains(list[n]) {
        let j = choose|j: int| 0 <= j < n && list.take(n)[j] == list[n];
        assert(list[j] == list[n]);
    }
}

/// What a list holds after a push, as a set.
proof fn lemma_push_to_set<A>(list: Seq<A>, x: A)
    ensures
        list.push(x).to_set() == list.to_set().insert(x),
{
    lemma_push_contains(list, x);
    assert(list.push(x).to_set() =~= list.to_set().insert(x));
}

/// A manager that was asked for nothing wants nothing, tries nothing and remembers nothing.
pub proof fn the_initial_state_is_empty(url: Seq<char>)
    ensures
        !ConnectorState::initial().connectors.contains(url),
        !ConnectorState::initial().reconnecting.contains(url),
        !ConnectorState::initial().removed.contains(url),
        !ConnectorState::initial().backoff.dom().contains(url),
        !ConnectorState::initial().wanted().contains(url),
{
}

/// A URL is wanted where it waits or is being reconnected; the sets are consistent where no URL does
/// both.
pub proof fn what_is_wanted(state: ConnectorState, url: Seq<char>)
    ensures
        state.wanted().contains(url) <==> state.connectors.contains(url)
            || state.reconnecting.contains(url),
        state.consistent() <==> forall|u: Seq<char>| #[trigger]
            state.connectors.contains(u) ==> !state.reconnecting.contains(u),
{
    if state.consistent() {
        assert forall|u: Seq<char>| #[trigger]
            state.connectors.contains(u) implies !state.reconnecting.contains(u) by {}
    } else {
        assert(!state.connectors.disjoint(state.reconnecting));
    }
}

/// Carrying out the removals takes a marked URL away and leaves every other one. A mark stays only on
/// a URL that is being reconnected and was not waiting; attempts and failures are not touched.
pub proof fn removals_take_marked_urls_away(state: ConnectorState, url: Seq<char>)
    ensures
        state.removals_done().connectors.contains(url) <==> state.connectors.contains(url)
            && !state.removed.contains(url),
        state.removals_done().reconnecting.contains(url) <==> state.reconnecting.contains(url),
        state.removals_done().removed.contains(url) <==> state.removed.contains(url)
            && state.reconnecting.contains(url) && !state.connectors.contains(url),
        state.removals_done().backoff == state.backoff,
{
}

/// The failures of a wanted URL are kept as they are, whether it waits or is being reconnected; those
/// of any other URL are forgotten.
pub proof fn failures_of_wanted_urls_are_kept(state: ConnectorState, url: Seq<char>)
    ensures
        state.pruned().backoff.dom().contains(url) <==> state.backoff.dom().contains(url) && (
        state.connectors.contains(url) || state.reconnecting.contains(url)),
        state.pruned().backoff.dom().contains(url) ==> state.pruned().backoff[url]
            == state.backoff[url],
        state.pruned().connectors == state.connectors,
        state.pruned().reconnecting == state.reconnecting,
        state.pruned().removed == state.removed,
{
}

/// An attempt moves its URL, and no other, from the waiting ones to those being reconnected; its end
/// moves it back. Neither touches a mark of removal.
pub proof fn attempts_move_their_urls(
    state: ConnectorState,
    attempts: Seq<Seq<char>>,
    ended: Seq<char>,
    backoff: Map<Seq<char>, BackoffState>,
    url: Seq<char>,
)
    ensures
        state.begun(attempts).connectors.contains(url) <==> state.connectors.contains(url)
            && !attempts.contains(url),
        state.begun(attempts).reconnecting.contains(url) <==> state.reconnecting.contains(url)
            || attempts.contains(url),
        state.begun(attempts).removed == state.removed,
        state.begun(attempts).backoff == state.backoff,
        state.ended(ended, backoff).connectors.contains(url) <==> state.connectors.contains(url)
            || url == ended,
        state.ended(ended, backoff).reconnecting.contains(url) <==> state.reconnecting.contains(url)
            && url != ended,
        state.ended(ended, backoff).removed == state.removed,
        state.ended(ended, backoff).backoff == backoff,
{
}

/// The attempts are in the order of the dead URLs: one more dead URL is tried last, where its wait is
/// over, and changes nothing before it.
pub proof fn attempts_keep_the_order(
    dead: Seq<Seq<char>>,
    url: Seq<char>,
    backoff: Map<Seq<char>, BackoffState>,
    now: Instant,
)
    ensures
        ready_urls(Seq::empty(), backoff, now).len() == 0,
        (backoff.dom().contains(url) ==> now.nanos >= backoff[url].next_attempt_at.nanos)
            ==> ready_urls(dead.push(url), backoff, now) == ready_urls(dead, backoff, now).push(
            url,
        ),
        backoff.dom().contains(url) && now.nanos < backoff[url].next_attempt_at.nanos ==> ready_urls(
            dead.push(url),
            backoff,
            now,
        ) == ready_urls(dead, backoff, now),
{
    reveal(Seq::filter);
    assert(dead.push(url).drop_last() =~= dead);
}

/// A tick can begin exactly where no dead URL whose wait is over is being reconnected already.
pub proof fn a_tick_can_begin_unless_a_url_is_busy(
    state: ConnectorState,
    dead: Seq<Seq<char>>,
    now: Instant,
)
    ensures
        state.free_to_begin(dead, now) <==> forall|i: int|
            0 <= i < dead.len() && (state.backoff.dom().contains(#[trigger] dead[i]) ==> now.nanos
                >= state.backoff[dead[i]].next_attempt_at.nanos) ==> !state.reconnecting.contains(
                dead[i],
            ),
{
    if state.free_to_begin(dead, now) {
        assert forall|i: int|
            0 <= i < dead.len() && (state.backoff.dom().contains(#[trigger] dead[i]) ==> now.nanos
                >= state.backoff[dead[i]].next_attempt_at.nanos) implies !state.reconnecting.contains(
            dead[i],
        ) by {
            assert(dead.contains(dead[i]));
            every_ready_url_is_tried(dead, state.backoff, now, dead[i]);
        }
    }
    if forall|i: int|
        0 <= i < dead.len() && (state.backoff.dom().contains(#[trigger] dead[i]) ==> now.nanos
            >= state.backoff[dead[i]].next_attempt_at.nanos) ==> !state.reconnecting.contains(
            dead[i],
        ) {
        assert forall|url: Seq<char>| #[trigger]
            ready_urls(dead, state.backoff, now).contains(url) implies !state.reconnecting.contains(
            url,
        ) by {
            every_ready_url_is_tried(dead, state.backoff, now, url);
            let i = choose|i: int| 0 <= i < dead.len() && dead[i] == url;
            assert(!state.reconnecting.contains(dead[i]));
        }
    }
}

/// Twenty seconds are given where a list has to be fetched or a web server upgraded first, and two
/// seconds otherwise.
pub proof fn slow_schemes_get_more_time(scheme: Seq<char>)
    ensures
        timeout_secs("http"@) == 20 && timeout_secs("https"@) == 20 && timeout_secs("txt"@) == 20
            && timeout_secs("srv"@) == 20 && timeout_secs("ws"@) == 20 && timeout_secs("wss"@) == 20,
        timeout_secs(scheme) != 20 ==> timeout_secs(scheme) == 2,
        timeout_secs(scheme) == 20 ==> scheme == "http"@ || scheme == "https"@ || scheme == "txt"@
            || scheme == "srv"@ || scheme == "ws"@ || scheme == "wss"@,
{
}

/// The versions of an attempt: both at once exactly for the schemes that need no address; otherwise
/// each version of which there is an address, once, and IPv4 before IPv6.
pub proof fn each_version_with_an_address_is_tried(scheme: Seq<char>, addrs: Seq<IpAddr>)
    ensures
        scheme == "ring"@ || scheme == "txt"@ || scheme == "srv"@ ==> versions_of(scheme, addrs)
            == seq![IpVersion::Both],
        scheme != "ring"@ && scheme != "txt"@ && scheme != "srv"@ ==> {
            let versions = versions_of(scheme, addrs);
            &&& !versions.contains(IpVersion::Both)
            &&& versions.contains(IpVersion::V4) <==> exists|i: int|
                0 <= i < addrs.len() && #[trigger] addrs[i] is V4
            &&& versions.contains(IpVersion::V6) <==> exists|i: int|
                0 <= i < addrs.len() && #[trigger] addrs[i] is V6
            &&& versions.len() <= 2
            &&& versions.len() == 2 ==> versions[0] == IpVersion::V4 && versions[1] == IpVersion::V6
        },
{
    let versions = versions_of(scheme, addrs);
    if scheme != "ring"@ && scheme != "txt"@ && scheme != "srv"@ {
        if has_version(addrs, true) {
            assert(versions[0] == IpVersion::V4);
            let i = choose|i: int| 0 <= i < addrs.len() && (#[trigger] addrs[i] is V4) == true;
            assert(addrs[i] is V4);
        }
        if has_version(addrs, false) {
            assert(versions[versions.len() - 1] == IpVersion::V6);
            let i = choose|i: int| 0 <= i < addrs.len() && (#[trigger] addrs[i] is V4) == false;
            assert(addrs[i] is V6);
        }
        if exists|i: int| 0 <= i < addrs.len() && #[trigger] addrs[i] is V4 {
            let i = choose|i: int| 0 <= i < addrs.len() && #[trigger] addrs[i] is V4;
            assert((addrs[i] is V4) == true);
            assert(has_version(addrs, true));
        }
        if exists|i: int| 0 <= i < addrs.len() && #[trigger] addrs[i] is V6 {
            let i = choose|i: int| 0 <= i < addrs.len() && #[trigger] addrs[i] is V6;
            assert((addrs[i] is V4) == false);
            assert(has_version(addrs, false));
        }
    }
}

/// The names of the steps and of the versions, which errors show.
pub proof fn names_in_errors()
    ensures
        stage_text(ReconnectStage::Resolve) == "resolve"@,
        stage_text(ReconnectStage::Connect) == "connect"@,
        stage_text(ReconnectStage::Handshake) == "handshake"@,
        ip_version_text(IpVersion::V4) == "V4"@,
        ip_version_text(IpVersion::V6) == "V6"@,
        ip_version_text(IpVersion::Both) == "Both"@,
{
}

/// A list of connectors shows each URL that is being reconnected, in descending order, and behind
/// them each waiting one.
pub proof fn the_list_shows_every_connector(
    list: Seq<Connector>,
    state: ConnectorState,
    busy: Seq<Seq<char>>,
    i: int,
    j: int,
)
    requires
        shows(list, state, busy),
        0 <= i < list.len(),
    ensures
        i < busy.len() ==> state.reconnecting.contains(list[i].url@),
        i >= busy.len() ==> state.connectors.contains(list[i].url@),
        i < j < busy.len() ==> text_before(list[j].url@, list[i].url@),
        forall|url: Seq<char>| #[trigger] state.wanted().contains(url) ==> connector_urls(
            list,
        ).contains(url),
        connector_urls(list).len() == list.len(),
        connector_urls(list)[i] == list[i].url@,
{
    let urls = connector_urls(list);
    let idle = urls.skip(busy.len() as int);
    if i < busy.len() {
        assert(urls[i] == busy[busy.len() - 1 - i]);
        assert(busy.contains(busy[busy.len() - 1 - i]));
    } else {
        assert(idle[i - busy.len()] == urls[i]);
        assert(idle.contains(idle[i - busy.len()]));
    }
    if i < j < busy.len() {
        assert(urls[i] == busy[busy.len() - 1 - i]);
        assert(urls[j] == busy[busy.len() - 1 - j]);
        assert(text_before(busy[busy.len() - 1 - j], busy[busy.len() - 1 - i]));
    }
    assert forall|url: Seq<char>| #[trigger] state.wanted().contains(url) implies urls.contains(
        url,
    ) by {
        if state.reconnecting.contains(url) {
            assert(busy.contains(url));
            let k = choose|k: int| 0 <= k < busy.len() && busy[k] == url;
            assert(urls[busy.len() - 1 - k] == busy[busy.len() - 1 - (busy.len() - 1 - k)]);
        } else {
            assert(idle.contains(url));
            let k = choose|k: int| 0 <= k < idle.len() && idle[k] == url;
            assert(urls[busy.len() + k] == url);
        }
    }
}

/// The manager is shown as it is.
pub proof fn managers_are_shown_as_they_are(data: ManualConnectorManager)
    ensures
        data@.connectors == url_set(data.connectors),
        data@.reconnecting == url_set(data.reconnecting),
        data@.removed == url_set(data.removed_conn_urls),
        data@.backoff == data.reconn_backoff@,
{
}

/// A step may start while time is left, and may run for just what is left; what was used and what is
/// left make up the whole.
pub proof fn a_step_gets_the_rest_of_the_time(
    stage: ReconnectStage,
    started_at: Instant,
    total: Duration,
    now: Instant,
    res: Result<Duration, String>,
)
    requires
        started_at.nanos <= now.nanos,
        call_ensures(begin_stage, (stage, started_at, total, now), res),
    ensures
        res is Ok <==> now.nanos < started_at.nanos + total.nanos,
        res matches Ok(rest) ==> now.nanos + rest.nanos == started_at.nanos + total.nanos,
{
}

/// An attempt keeps the last error exactly where a version failed, and never counts more failures than
/// it has versions.
pub proof fn what_an_attempt_keeps(attempt: ReconnectAttempt)
    ensures
        attempt.wf() <==> attempt.failed <= attempt.versions@.len() && (attempt.failed > 0
            <==> attempt.last_error is Some),
{
}

/// A list of connectors has a URL for each of them.
pub proof fn urls_of_a_list(list: Seq<Connector>, i: int)
    requires
        0 <= i < list.len(),
    ensures
        connector_urls(list).len() == list.len(),
        connector_urls(list)[i] == list[i].url@,
{
}

/// An attempt of which every version failed ends with the last error, and one that had no version to
/// try says so.
pub proof fn the_last_error_is_told(attempt: ReconnectAttempt, s: String)
    requires
        attempt.wf(),
        call_ensures(ReconnectAttempt::error, (attempt,), s),
    ensures
        attempt.failed > 0 ==> attempt.last_error is Some && s@ == attempt.last_error->0@,
        attempt.failed == 0 ==> s@ == "cannot get ip from url"@,
{
}

} // verus!
