//! The client's side: queries for names outside of the virtual network are put to the DNS service
//! of an exit node, through the tunnel. Where that is not possible, the caller asks its own
//! upstream servers.
use crate::clock::{Duration, Instant, NANOS_PER_SEC};
use crate::net::IpAddr;
use crate::text::same_text;
use hickory_proto::op::Message;
use vstd::prelude::*;

verus! {

/// How long one query to the exit node may take, over UDP and over TCP each.
pub const EXIT_DNS_QUERY_TIMEOUT_MILLIS: u64 = 400;

/// After so many failures in a row the exit node is not asked for a while.
pub const EXIT_DNS_BREAKER_FAIL_THRESHOLD: u32 = 3;

/// For so long it is not asked.
pub const EXIT_DNS_BREAKER_COOLDOWN_SECS: u64 = 30;

/// So many answers are kept at most.
pub const DNS_CACHE_MAX_ENTRIES: usize = 512;

/// An answer is kept for at least so many seconds.
pub const DNS_CACHE_MIN_TTL: u32 = 5;

/// An answer is kept for at most so many seconds.
pub const DNS_CACHE_MAX_TTL: u32 = 300;

/// An answer of which no time to live is known is kept for so many seconds.
pub const DNS_CACHE_DEFAULT_TTL: u32 = 30;

/// The port of the DNS service.
pub const DNS_PORT: u16 = 53;

/// The type of records that hold an IPv6 address.
pub const RECORD_TYPE_AAAA: u16 = 28;

/// Keeps queries from waiting for an exit node that does not answer.
#[derive(Clone, Copy, Debug, PartialEq, Eq, Structural)]
pub struct BreakerState {
    pub consecutive_failures: u32,
    pub unusable_until: Option<Instant>,
}

/// The exit node may be asked at `now`.
pub open spec fn breaker_open(st: BreakerState, now: Instant) -> bool {
    st.unusable_until matches Some(until) ==> until.nanos <= now.nanos
}

/// Before the first failure.
pub open spec fn fresh_breaker() -> BreakerState {
    BreakerState { consecutive_failures: 0, unusable_until: None }
}

/// One more failure, as far as the counter goes.
pub open spec fn counted(failures: u32) -> u32 {
    if failures == u32::MAX {
        u32::MAX
    } else {
        (failures + 1) as u32
    }
}

/// After a failure at `now`.
pub open spec fn after_failure(st: BreakerState, now: Instant) -> BreakerState {
    BreakerState {
        consecutive_failures: counted(st.consecutive_failures),
        unusable_until: if counted(st.consecutive_failures) >= EXIT_DNS_BREAKER_FAIL_THRESHOLD {
            Some(
                Instant {
                    nanos: (now.nanos + EXIT_DNS_BREAKER_COOLDOWN_SECS * NANOS_PER_SEC) as u64,
                },
            )
        } else {
            st.unusable_until
        },
    }
}

impl BreakerState {
    /// Before the first failure.
    pub fn new() -> (st: BreakerState)
        ensures
            st == fresh_breaker(),
    {
        BreakerState { consecutive_failures: 0, unusable_until: None }
    }
}

/// Whether the exit node may be asked at `now`. Once its pause is over, the failures are forgotten.
pub fn breaker_allows(st: &mut BreakerState, now: Instant) -> (res: bool)
    ensures
        res == breaker_open(*old(st), now),
        res <==> (old(st).unusable_until matches Some(until) ==> now.nanos >= until.nanos),
        *final(st) == (if res && old(st).unusable_until is Some {
            fresh_breaker()
        } else {
            *old(st)
        }),
{
    match st.unusable_until {
        Some(until) => {
            if until.nanos > now.nanos {
                false
            } else {
                st.unusable_until = None;
                st.consecutive_failures = 0;
                true
            }
        },
        None => true,
    }
}

/// Records a failure at `now`.
pub fn breaker_record_failure(st: &mut BreakerState, now: Instant)
    requires
        now.nanos + EXIT_DNS_BREAKER_COOLDOWN_SECS * NANOS_PER_SEC <= u64::MAX,
    ensures
        *final(st) == after_failure(*old(st), now),
        old(st).consecutive_failures < u32::MAX ==> final(st).consecutive_failures == old(
            st,
        ).consecutive_failures + 1,
        old(st).consecutive_failures >= 2 ==> (final(st).unusable_until matches Some(until)
            && until.nanos == now.nanos + 30_000_000_000),
        old(st).consecutive_failures < 2 ==> final(st).unusable_until == old(st).unusable_until,
{
    st.consecutive_failures = st.consecutive_failures.saturating_add(1);
    if st.consecutive_failures >= EXIT_DNS_BREAKER_FAIL_THRESHOLD {
        st.unusable_until = Some(now.after(Duration::from_secs(EXIT_DNS_BREAKER_COOLDOWN_SECS)));
    }
}

/// Records a success.
pub fn breaker_record_success(st: &mut BreakerState)
    ensures
        *final(st) == fresh_breaker(),
        final(st).consecutive_failures == 0,
        final(st).unusable_until is None,
{
    st.consecutive_failures = 0;
    st.unusable_until = None;
}

/// After failures at the given times, none of which was followed by a success.
pub open spec fn after_failures(times: Seq<Instant>) -> BreakerState
    decreases times.len(),
{
    if times.len() == 0 {
        fresh_breaker()
    } else {
        after_failure(after_failures(times.drop_last()), times.last())
    }
}

/// Fewer than three failures in a row leave the way to the exit node open. Three or more close it
/// for the whole pause after the last one, and not longer.
pub proof fn failures_pause_from_the_third_on(times: Seq<Instant>, now: Instant)
    requires
        times.len() > 0 ==> times.last().nanos + EXIT_DNS_BREAKER_COOLDOWN_SECS * NANOS_PER_SEC
            <= u64::MAX,
    ensures
        breaker_open(after_failures(times), now) <==> times.len() < 3 || now.nanos
            >= times.last().nanos + EXIT_DNS_BREAKER_COOLDOWN_SECS * NANOS_PER_SEC,
{
    lemma_failures_counted(times);
    if times.len() > 0 && times.len() < 3 {
        lemma_failures_counted(times.drop_last());
    }
}

/// How many failures are counted, and that fewer than three set no pause.
proof fn lemma_failures_counted(times: Seq<Instant>)
    ensures
        after_failures(times).consecutive_failures == (if times.len() > u32::MAX {
            u32::MAX as int
        } else {
            times.len() as int
        }),
        times.len() < 3 ==> after_failures(times).unusable_until is None,
    decreases times.len(),
{
    if times.len() > 0 {
        lemma_failures_counted(times.drop_last());
    }
}

/// What is read of a DNS message.
#[derive(Debug)]
pub struct DnsMessage {
    pub response_code: u16,
    /// The type and the time to live of each answer.
    pub answers: Vec<(u16, u32)>,
}

/// What is read of a DNS message, over sequences.
#[verifier::ext_equal]
pub ghost struct DnsView {
    pub response_code: u16,
    pub answers: Seq<(u16, u32)>,
}

impl View for DnsMessage {
    type V = DnsView;

    open spec fn view(&self) -> DnsView {
        DnsView { response_code: self.response_code, answers: self.answers@ }
    }
}

/// What is read of a DNS message that may be none.
pub open spec fn dns_view(msg: Option<DnsMessage>) -> Option<DnsView> {
    match msg {
        Some(msg) => Some(msg@),
        None => None,
    }
}

/// Bytes that may be none.
pub open spec fn bytes_view(bytes: Option<Vec<u8>>) -> Option<Seq<u8>> {
    match bytes {
        Some(bytes) => Some(bytes@),
        None => None,
    }
}

/// What `hickory_proto::op::Message::from_vec` reads from bytes: the response code, and the type
/// and time to live of each answer; nothing where they are no message.
pub uninterp spec fn dns_message(bytes: Seq<u8>) -> Option<DnsView>;

/// What `hickory_proto::op::Message::to_vec` makes of the message that the bytes hold, with no
/// answers but those at the given places, in that order; nothing where it cannot be encoded.
pub uninterp spec fn dns_reencoded(bytes: Seq<u8>, kept: Seq<usize>) -> Option<Seq<u8>>;

/// `Message::from_vec`, and `response_code` and `answers` of its result, with `record_type` and
/// `ttl` of each answer. Claimed: the result depends on the bytes alone.
#[verifier::external_body]
fn parse_message(bytes: &[u8]) -> (res: Option<DnsMessage>)
    ensures
        dns_view(res) == dns_message(bytes@),
{
    let msg = Message::from_vec(bytes).ok()?;
    Some(DnsMessage {
        response_code: u16::from(msg.response_code()),
        answers: msg.answers().iter().map(|r| (u16::from(r.record_type()), r.ttl())).collect(),
    })
}

/// `Message::from_vec`, `take_answers`, `insert_answers` of the answers at the given places, and
/// `to_vec`. Claimed: the result depends on the arguments alone. That reading the result gives the
/// kept answers again is left unsaid: it rests on the coding of every type of record.
#[verifier::external_body]
fn reencode_message(bytes: &[u8], kept: &Vec<usize>) -> (res: Option<Vec<u8>>)
    requires
        dns_message(bytes@) matches Some(msg) && forall|i: int|
            0 <= i < kept@.len() ==> #[trigger] kept@[i] < msg.answers.len(),
    ensures
        bytes_view(res) == dns_reencoded(bytes@, kept@),
{
    let mut msg = Message::from_vec(bytes).ok()?;
    let answers = msg.take_answers();
    msg.insert_answers(kept.iter().map(|i| answers[*i].clone()).collect());
    msg.to_vec().ok()
}

/// `ttl` is the smallest time to live of the answers.
pub open spec fn is_smallest_ttl(answers: Seq<(u16, u32)>, ttl: u32) -> bool {
    &&& exists|i: int| 0 <= i < answers.len() && (#[trigger] answers[i]).1 == ttl
    &&& forall|i: int| 0 <= i < answers.len() ==> ttl <= (#[trigger] answers[i]).1
}

/// A time to live within the limits.
pub open spec fn ttl_within_limits(ttl: u32) -> u32 {
    if ttl < DNS_CACHE_MIN_TTL {
        DNS_CACHE_MIN_TTL
    } else if ttl > DNS_CACHE_MAX_TTL {
        DNS_CACHE_MAX_TTL
    } else {
        ttl
    }
}

/// `secs` is how long an answer is kept: not at all where it reports an error, otherwise for the
/// smallest time to live, within the limits.
pub open spec fn is_kept_for(msg: Option<DnsView>, secs: u32) -> bool {
    match msg {
        None => secs == DNS_CACHE_DEFAULT_TTL,
        Some(msg) => if msg.response_code != 0 {
            secs == 0
        } else if msg.answers.len() == 0 {
            secs == DNS_CACHE_DEFAULT_TTL
        } else {
            exists|ttl: u32| #[trigger]
                is_smallest_ttl(msg.answers, ttl) && secs == ttl_within_limits(ttl)
        },
    }
}

/// How long an answer is kept, given what was read of it.
pub fn ttl_of_message(msg: &Option<DnsMessage>) -> (secs: u32)
    ensures
        is_kept_for(dns_view(*msg), secs),
        secs <= DNS_CACHE_MAX_TTL,
        msg is None ==> secs == 30,
        msg matches Some(m) ==> m.response_code != 0 ==> secs == 0,
        msg matches Some(m) ==> m.response_code == 0 && m.answers@.len() == 0 ==> secs == 30,
        msg matches Some(m) ==> m.response_code == 0 && m.answers@.len() > 0 ==> 5 <= secs <= 300,
        msg matches Some(m) ==> m.response_code == 0 ==> forall|i: int|
            0 <= i < m.answers@.len() && secs > 5 ==> secs <= (#[trigger] m.answers@[i]).1,
        msg matches Some(m) ==> m.response_code == 0 && m.answers@.len() > 0 && secs < 300
            ==> exists|i: int| 0 <= i < m.answers@.len() && (#[trigger] m.answers@[i]).1 <= secs,
{
    match msg {
        None => DNS_CACHE_DEFAULT_TTL,
        Some(msg) => {
            if msg.response_code != 0 {
                return 0;
            }
            if msg.answers.len() == 0 {
                return DNS_CACHE_DEFAULT_TTL;
            }
            let mut ttl: u32 = msg.answers[0].1;
            let mut i: usize = 1;
            assert(msg.answers@[0].1 == ttl);
            while i < msg.answers.len()
                invariant
                    1 <= i <= msg.answers@.len(),
                    exists|j: int| 0 <= j < i && (#[trigger] msg.answers@[j]).1 == ttl,
                    forall|j: int| 0 <= j < i ==> ttl <= (#[trigger] msg.answers@[j]).1,
                decreases msg.answers@.len() - i,
            {
                if msg.answers[i].1 < ttl {
                    ttl = msg.answers[i].1;
                    assert(msg.answers@[i as int].1 == ttl);
                }
                i = i + 1;
            }
            assert(is_smallest_ttl(msg.answers@, ttl));
            if ttl < DNS_CACHE_MIN_TTL {
                DNS_CACHE_MIN_TTL
            } else if ttl > DNS_CACHE_MAX_TTL {
                DNS_CACHE_MAX_TTL
            } else {
                ttl
            }
        },
    }
}

/// How long an answer is kept, in seconds.
pub fn response_ttl(response: &[u8]) -> (secs: u32)
    ensures
        is_kept_for(dns_message(response@), secs),
        secs <= DNS_CACHE_MAX_TTL,
{
    ttl_of_message(&parse_message(response))
}

/// How long an answer is kept is decided by the answer.
pub proof fn the_time_kept_is_unique(msg: Option<DnsView>, a: u32, b: u32)
    requires
        is_kept_for(msg, a),
        is_kept_for(msg, b),
    ensures
        a == b,
{
    if let Some(msg) = msg {
        if msg.response_code == 0 && msg.answers.len() > 0 {
            let x = choose|ttl: u32| #[trigger]
                is_smallest_ttl(msg.answers, ttl) && a == ttl_within_limits(ttl);
            let y = choose|ttl: u32| #[trigger]
                is_smallest_ttl(msg.answers, ttl) && b == ttl_within_limits(ttl);
            let i = choose|i: int| 0 <= i < msg.answers.len() && (#[trigger] msg.answers[i]).1 == x;
            let j = choose|j: int| 0 <= j < msg.answers.len() && (#[trigger] msg.answers[j]).1 == y;
            assert(x <= msg.answers[j].1 && y <= msg.answers[i].1);
        }
    }
}

/// The places of the first `n` answers that hold no IPv6 address.
pub open spec fn non_aaaa_places(answers: Seq<(u16, u32)>, n: int) -> Seq<usize>
    decreases n,
{
    if n <= 0 {
        Seq::empty()
    } else {
        let rest = non_aaaa_places(answers, n - 1);
        if answers[n - 1].0 != RECORD_TYPE_AAAA {
            rest.push((n - 1) as usize)
        } else {
            rest
        }
    }
}

/// The places of the answers that hold no IPv6 address.
pub fn non_aaaa_answers(msg: &DnsMessage) -> (kept: Vec<usize>)
    ensures
        kept@ == non_aaaa_places(msg@.answers, msg@.answers.len() as int),
        kept@.len() <= msg@.answers.len(),
        forall|i: int| 0 <= i < kept@.len() ==> #[trigger] kept@[i] < msg@.answers.len(),
{
    let mut kept: Vec<usize> = Vec::new();
    let mut i: usize = 0;
    while i < msg.answers.len()
        invariant
            i <= msg.answers@.len(),
            kept@ == non_aaaa_places(msg.answers@, i as int),
            kept@.len() <= i,
            forall|j: int| 0 <= j < kept@.len() ==> #[trigger] kept@[j] < i,
        decreases msg.answers@.len() - i,
    {
        if msg.answers[i].0 != RECORD_TYPE_AAAA {
            kept.push(i);
        }
        i = i + 1;
    }
    kept
}

/// An answer without its IPv6 addresses; none where it holds none, is no message, or cannot be
/// encoded again.
pub open spec fn stripped(response: Seq<u8>) -> Option<Seq<u8>> {
    match dns_message(response) {
        None => None,
        Some(msg) => {
            let kept = non_aaaa_places(msg.answers, msg.answers.len() as int);
            if kept.len() == msg.answers.len() {
                None
            } else {
                dns_reencoded(response, kept)
            }
        },
    }
}

/// Takes the IPv6 addresses out of an answer; none where nothing has to be changed.
pub fn strip_aaaa_records(response: &[u8]) -> (res: Option<Vec<u8>>)
    ensures
        bytes_view(res) == stripped(response@),
{
    match parse_message(response) {
        None => None,
        Some(msg) => {
            let kept = non_aaaa_answers(&msg);
            if kept.len() == msg.answers.len() {
                return None;
            }
            reencode_message(response, &kept)
        },
    }
}

/// An answer without an IPv6 address is left as it is.
pub proof fn answers_without_aaaa_are_left_alone(answers: Seq<(u16, u32)>, n: int)
    requires
        0 <= n <= answers.len(),
    ensures
        non_aaaa_places(answers, n).len() <= n,
        non_aaaa_places(answers, n).len() == n <==> forall|i: int|
            0 <= i < n ==> (#[trigger] answers[i]).0 != RECORD_TYPE_AAAA,
    decreases n,
{
    if n > 0 {
        answers_without_aaaa_are_left_alone(answers, n - 1);
    }
}

/// An answer that is kept.
#[derive(Debug)]
pub struct CacheEntry {
    /// The query without its id.
    pub key: Vec<u8>,
    pub response: Vec<u8>,
    pub expires_at: Instant,
}

/// An answer that is kept, over sequences.
#[verifier::ext_equal]
pub ghost struct CachedAnswer {
    pub response: Seq<u8>,
    pub expires_at: Instant,
}

/// The answers that are kept.
#[derive(Debug)]
pub struct DnsCache {
    pub entries: Vec<CacheEntry>,
}

/// Whether `key` is at `i`.
pub open spec fn key_at(entries: Seq<CacheEntry>, key: Seq<u8>, i: int) -> bool {
    0 <= i < entries.len() && entries[i].key@ == key
}

/// The answers of a list, by query.
pub open spec fn answers_of(entries: Seq<CacheEntry>) -> Map<Seq<u8>, CachedAnswer> {
    Map::new(
        |key: Seq<u8>| exists|i: int| key_at(entries, key, i),
        |key: Seq<u8>|
            {
                let i = choose|i: int| key_at(entries, key, i);
                CachedAnswer {
                    response: entries[i].response@,
                    expires_at: entries[i].expires_at,
                }
            },
    )
}

/// No query occurs twice.
pub open spec fn unique_keys(entries: Seq<CacheEntry>) -> bool {
    forall|i: int, j: int|
        0 <= i < j < entries.len() ==> (#[trigger] entries[i]).key@ != (#[trigger] entries[j]).key@
}

impl View for DnsCache {
    type V = Map<Seq<u8>, CachedAnswer>;

    open spec fn view(&self) -> Map<Seq<u8>, CachedAnswer> {
        answers_of(self.entries@)
    }
}

/// An answer with the id of a query.
pub open spec fn with_id(response: Seq<u8>, query: Seq<u8>) -> Seq<u8> {
    response.update(0, query[0]).update(1, query[1])
}

/// What is found for a query at `now`.
pub open spec fn looked_up(
    cache: Map<Seq<u8>, CachedAnswer>,
    query: Seq<u8>,
    now: Instant,
) -> Option<Seq<u8>> {
    let key = query.skip(2);
    if query.len() > 2 && cache.dom().contains(key) && cache[key].expires_at.nanos > now.nanos {
        Some(with_id(cache[key].response, query))
    } else {
        None
    }
}

/// The cache after a query at `now`: an answer that has expired is gone.
pub open spec fn after_lookup(
    cache: Map<Seq<u8>, CachedAnswer>,
    query: Seq<u8>,
    now: Instant,
) -> Map<Seq<u8>, CachedAnswer> {
    let key = query.skip(2);
    if query.len() > 2 && cache.dom().contains(key) && cache[key].expires_at.nanos <= now.nanos {
        cache.remove(key)
    } else {
        cache
    }
}

/// The cache after an answer was stored for `secs` seconds; zero stores nothing. A full cache is
/// emptied first.
pub open spec fn after_store(
    cache: Map<Seq<u8>, CachedAnswer>,
    full: bool,
    query: Seq<u8>,
    response: Seq<u8>,
    secs: u32,
    now: Instant,
) -> Map<Seq<u8>, CachedAnswer> {
    if query.len() <= 2 || response.len() < 12 || secs == 0 {
        cache
    } else {
        (if full {
            Map::empty()
        } else {
            cache
        }).insert(
            query.skip(2),
            CachedAnswer {
                response,
                expires_at: Instant { nanos: (now.nanos + secs * NANOS_PER_SEC) as u64 },
            },
        )
    }
}

/// Whether two byte strings are equal.
fn same_bytes(a: &[u8], b: &[u8]) -> (res: bool)
    ensures
        res == (a@ == b@),
{
    if a.len() != b.len() {
        return false;
    }
    let mut i: usize = 0;
    while i < a.len()
        invariant
            i <= a@.len(),
            a@.len() == b@.len(),
            forall|j: int| 0 <= j < i ==> a@[j] == b@[j],
        decreases a@.len() - i,
    {
        if a[i] != b[i] {
            return false;
        }
        i = i + 1;
    }
    assert(a@ =~= b@);
    true
}

/// The answer at `i` is the one for its query.
proof fn lemma_entry(entries: Seq<CacheEntry>, i: int)
    requires
        unique_keys(entries),
        0 <= i < entries.len(),
    ensures
        answers_of(entries).dom().contains(entries[i].key@),
        answers_of(entries)[entries[i].key@] == (CachedAnswer {
            response: entries[i].response@,
            expires_at: entries[i].expires_at,
        }),
{
    let key = entries[i].key@;
    assert(key_at(entries, key, i));
    let j = choose|j: int| key_at(entries, key, j);
    assert(i == j);
}

impl DnsCache {
    /// No query occurs twice, no answer is shorter than a header, and there are not too many.
    pub open spec fn wf(self) -> bool {
        &&& unique_keys(self.entries@)
        &&& self.entries@.len() <= DNS_CACHE_MAX_ENTRIES
        &&& forall|i: int|
            0 <= i < self.entries@.len() ==> (#[trigger] self.entries@[i]).response@.len() >= 12
    }

    /// Nothing is kept.
    pub fn new() -> (cache: DnsCache)
        ensures
            cache.wf(),
            cache@ == Map::<Seq<u8>, CachedAnswer>::empty(),
            cache.entries@.len() == 0,
    {
        let cache = DnsCache { entries: Vec::new() };
        assert(cache@ =~= Map::<Seq<u8>, CachedAnswer>::empty());
        cache
    }

    /// The place of a query; none where it is not kept.
    fn find(&self, key: &[u8]) -> (res: Option<usize>)
        ensures
            match res {
                Some(i) => key_at(self.entries@, key@, i as int),
                None => !self@.dom().contains(key@),
            },
    {
        let mut i: usize = 0;
        while i < self.entries.len()
            invariant
                i <= self.entries@.len(),
                forall|j: int| 0 <= j < i ==> !key_at(self.entries@, key@, j),
            decreases self.entries@.len() - i,
        {
            if same_bytes(self.entries[i].key.as_slice(), key) {
                return Some(i);
            }
            i = i + 1;
        }
        None
    }

    /// Takes the answer at `i` away.
    fn remove_at(&mut self, i: usize)
        requires
            old(self).wf(),
            i < old(self).entries@.len(),
        ensures
            final(self).wf(),
            final(self)@ == old(self)@.remove(old(self).entries@[i as int].key@),
            final(self).entries@.len() == old(self).entries@.len() - 1,
    {
        let ghost before = self.entries@;
        let ghost gone = before[i as int].key@;
        let _ = self.entries.remove(i);
        proof {
            let after = self.entries@;
            assert(after =~= before.remove(i as int));
            assert forall|a: int, b: int| 0 <= a < b < after.len() implies (
            #[trigger] after[a]).key@ != (#[trigger] after[b]).key@ by {
                let x = if a < i {
                    a
                } else {
                    a + 1
                };
                let y = if b < i {
                    b
                } else {
                    b + 1
                };
                assert(before[x].key@ != before[y].key@);
            }
            assert forall|a: int| 0 <= a < after.len() implies (
            #[trigger] after[a]).response@.len() >= 12 by {
                let x = if a < i {
                    a
                } else {
                    a + 1
                };
                assert(before[x].response@.len() >= 12);
            }
            assert(answers_of(after) =~= answers_of(before).remove(gone)) by {
                assert forall|k: Seq<u8>| #[trigger]
                    answers_of(after).dom().contains(k) implies answers_of(
                    before,
                ).dom().contains(k) && k != gone && answers_of(after)[k] == answers_of(
                    before,
                )[k] by {
                    let a = choose|a: int| key_at(after, k, a);
                    let x = if a < i {
                        a
                    } else {
                        a + 1
                    };
                    assert(before[x] == after[a]);
                    assert(x != i);
                    if x < i {
                        assert(before[x].key@ != before[i as int].key@);
                    } else {
                        assert(before[i as int].key@ != before[x].key@);
                    }
                    lemma_entry(before, x);
                    lemma_entry(after, a);
                }
                assert forall|k: Seq<u8>|
                    answers_of(before).dom().contains(k) && k != gone implies #[trigger] answers_of(
                    after,
                ).dom().contains(k) by {
                    let x = choose|x: int| key_at(before, k, x);
                    let a = if x < i {
                        x
                    } else {
                        x - 1
                    };
                    assert(after[a] == before[x]);
                    assert(key_at(after, k, a));
                }
            }
        }
    }

    /// Puts an answer in for a query that is not kept.
    fn put(&mut self, entry: CacheEntry)
        requires
            old(self).wf(),
            old(self).entries@.len() < DNS_CACHE_MAX_ENTRIES,
            !old(self)@.dom().contains(entry.key@),
            entry.response@.len() >= 12,
        ensures
            final(self).wf(),
            final(self)@ == old(self)@.insert(
                entry.key@,
                CachedAnswer { response: entry.response@, expires_at: entry.expires_at },
            ),
    {
        let ghost before = self.entries@;
        let ghost e = entry;
        self.entries.push(entry);
        proof {
            let after = self.entries@;
            let n = before.len() as int;
            assert(after =~= before.push(e));
            assert forall|a: int, b: int| 0 <= a < b < after.len() implies (
            #[trigger] after[a]).key@ != (#[trigger] after[b]).key@ by {
                if b == n {
                    assert(!key_at(before, e.key@, a));
                } else {
                    assert(before[a].key@ != before[b].key@);
                }
            }
            assert forall|k: Seq<u8>| #[trigger]
                answers_of(after).dom().contains(k) implies k == e.key@
                || answers_of(before).dom().contains(k) && answers_of(after)[k] == answers_of(
                before,
            )[k] by {
                let a = choose|a: int| key_at(after, k, a);
                if a < n {
                    assert(key_at(before, k, a));
                    lemma_entry(before, a);
                    lemma_entry(after, a);
                }
            }
            assert forall|k: Seq<u8>| answers_of(before).dom().contains(k) implies #[trigger] answers_of(
            after).dom().contains(k) by {
                let a = choose|a: int| key_at(before, k, a);
                assert(key_at(after, k, a));
            }
            lemma_entry(after, n);
            assert(answers_of(after) =~= answers_of(before).insert(
                e.key@,
                CachedAnswer { response: e.response@, expires_at: e.expires_at },
            ));
        }
    }
}

/// Looks for the answer to a query, and gives it the id of the query.
pub fn lookup_cache(cache: &mut DnsCache, query: &[u8], now: Instant) -> (res: Option<Vec<u8>>)
    requires
        old(cache).wf(),
    ensures
        final(cache).wf(),
        bytes_view(res) == looked_up(old(cache)@, query@, now),
        final(cache)@ == after_lookup(old(cache)@, query@, now),
{
    if query.len() <= 2 {
        return None;
    }
    let key = vstd::slice::slice_subrange(query, 2, query.len());
    assert(key@ =~= query@.skip(2));
    match cache.find(key) {
        None => None,
        Some(i) => {
            proof {
                lemma_entry(cache.entries@, i as int);
            }
            if cache.entries[i].expires_at.nanos <= now.nanos {
                cache.remove_at(i);
                return None;
            }
            let mut response = cache.entries[i].response.clone();
            assert(response@ =~= cache.entries@[i as int].response@);
            response.set(0, query[0]);
            response.set(1, query[1]);
            Some(response)
        },
    }
}

/// Stores an answer for `secs` seconds; zero stores nothing.
pub fn store_for(cache: &mut DnsCache, query: &[u8], response: &[u8], secs: u32, now: Instant)
    requires
        old(cache).wf(),
        secs <= DNS_CACHE_MAX_TTL,
        now.nanos + DNS_CACHE_MAX_TTL * NANOS_PER_SEC <= u64::MAX,
    ensures
        final(cache).wf(),
        final(cache)@ == after_store(
            old(cache)@,
            old(cache).entries@.len() >= DNS_CACHE_MAX_ENTRIES,
            query@,
            response@,
            secs,
            now,
        ),
        query@.len() > 2 && response@.len() >= 12 && secs > 0 ==> final(cache)@.dom().contains(
            query@.skip(2),
        ) && final(cache)@[query@.skip(2)].response == response@ && final(cache)@[query@.skip(2)].expires_at.nanos == now.nanos + secs * 1_000_000_000,
        query@.len() <= 2 || response@.len() < 12 || secs == 0 ==> final(cache)@ == old(cache)@,
        old(cache).entries@.len() < 512 ==> forall|key: Seq<u8>|
            key != query@.skip(2) && #[trigger] old(cache)@.dom().contains(key) ==> final(cache)@.dom().contains(key) && final(cache)@[key] == old(cache)@[key],
{
    if query.len() <= 2 || response.len() < 12 || secs == 0 {
        return;
    }
    let ghost before = cache@;
    if cache.entries.len() >= DNS_CACHE_MAX_ENTRIES {
        cache.entries = Vec::new();
        assert(cache@ =~= Map::<Seq<u8>, CachedAnswer>::empty());
    }
    let ghost start = cache@;
    let key = vstd::slice::slice_subrange(query, 2, query.len());
    assert(key@ =~= query@.skip(2));
    match cache.find(key) {
        None => {},
        Some(i) => {
            cache.remove_at(i);
        },
    }
    let entry = CacheEntry {
        key: vstd::slice::slice_to_vec(key),
        response: vstd::slice::slice_to_vec(response),
        expires_at: now.after(Duration::from_secs(secs as u64)),
    };
    cache.put(entry);
    proof {
        assert(cache@ =~= start.insert(
            query@.skip(2),
            CachedAnswer {
                response: response@,
                expires_at: Instant { nanos: (now.nanos + secs * NANOS_PER_SEC) as u64 },
            },
        ));
    }
}

/// Stores an answer for as long as its records say.
pub fn store_cache(cache: &mut DnsCache, query: &[u8], response: &[u8], now: Instant)
    requires
        old(cache).wf(),
        now.nanos + DNS_CACHE_MAX_TTL * NANOS_PER_SEC <= u64::MAX,
    ensures
        final(cache).wf(),
        exists|secs: u32| #[trigger]
            is_kept_for(dns_message(response@), secs) && final(cache)@ == after_store(
                old(cache)@,
                old(cache).entries@.len() >= DNS_CACHE_MAX_ENTRIES,
                query@,
                response@,
                secs,
                now,
            ),
{
    let secs = response_ttl(response);
    store_for(cache, query, response, secs, now);
    assert(is_kept_for(dns_message(response@), secs));
}

/// What was stored is found until it expires, with the id of whoever asks.
pub proof fn a_stored_answer_is_found_again(
    cache: Map<Seq<u8>, CachedAnswer>,
    full: bool,
    query: Seq<u8>,
    response: Seq<u8>,
    secs: u32,
    stored: Instant,
    again: Seq<u8>,
    now: Instant,
)
    requires
        query.len() > 2,
        response.len() >= 12,
        0 < secs <= DNS_CACHE_MAX_TTL,
        stored.nanos + DNS_CACHE_MAX_TTL * NANOS_PER_SEC <= u64::MAX,
        again.len() == query.len(),
        again.skip(2) == query.skip(2),
    ensures
        looked_up(after_store(cache, full, query, response, secs, stored), again, now) == (if now.nanos
            < stored.nanos + secs * NANOS_PER_SEC {
            Some(with_id(response, again))
        } else {
            None
        }),
{
}

/// Whether sockets of this process reach the tunnel: not where the system keeps them out of it.
pub fn can_reach_tunnel_dns(target_os: &str, target_env: &str) -> (res: bool)
    ensures
        res == (target_os@ != "android"@ && target_env@ != "ohos"@),
{
    !same_text(target_os, "android") && !same_text(target_env, "ohos")
}

/// The exit node at `i` can be asked: it has an IPv4 address and is online.
pub open spec fn can_be_asked(exit_nodes: Seq<IpAddr>, online: Seq<bool>, i: int) -> bool {
    exit_nodes[i] is V4 && online[i]
}

/// The first exit node that has an IPv4 address and is online.
pub fn select_online_exit_ip(exit_nodes: &Vec<IpAddr>, online: &Vec<bool>) -> (res: Option<IpAddr>)
    requires
        exit_nodes@.len() == online@.len(),
    ensures
        match res {
            Some(ip) => exists|i: int|
                0 <= i < exit_nodes@.len() && #[trigger] can_be_asked(exit_nodes@, online@, i)
                    && exit_nodes@[i] == ip && forall|j: int|
                    0 <= j < i ==> !#[trigger] can_be_asked(exit_nodes@, online@, j),
            None => forall|i: int|
                0 <= i < exit_nodes@.len() ==> !#[trigger] can_be_asked(exit_nodes@, online@, i),
        },
        res is None <==> forall|i: int|
            0 <= i < exit_nodes@.len() ==> #[trigger] exit_nodes@[i] is V6 || !online@[i],
        res matches Some(ip) ==> ip is V4 && exists|i: int|
            0 <= i < exit_nodes@.len() && #[trigger] exit_nodes@[i] == ip && online@[i] && forall|
                j: int,
            |
                0 <= j < i ==> #[trigger] exit_nodes@[j] is V6 || !online@[j],
{
    let mut i: usize = 0;
    while i < exit_nodes.len()
        invariant
            i <= exit_nodes@.len(),
            exit_nodes@.len() == online@.len(),
            forall|j: int| 0 <= j < i ==> !#[trigger] can_be_asked(exit_nodes@, online@, j),
            forall|j: int| 0 <= j < i ==> #[trigger] exit_nodes@[j] is V6 || !online@[j],
        decreases exit_nodes@.len() - i,
    {
        let is_v4 = match exit_nodes[i] {
            IpAddr::V4(_) => true,
            IpAddr::V6(_) => false,
        };
        if is_v4 && online[i] {
            assert(can_be_asked(exit_nodes@, online@, i as int));
            return Some(exit_nodes[i]);
        }
        i = i + 1;
    }
    None
}

/// The exit nodes, each with whether it is online.
pub fn describe_exit_nodes(exit_nodes: &Vec<IpAddr>, online: &Vec<bool>) -> (res: Vec<
    (IpAddr, bool),
>)
    requires
        exit_nodes@.len() == online@.len(),
    ensures
        res@ == Seq::new(exit_nodes@.len(), |i: int| (exit_nodes@[i], online@[i])),
{
    let mut res: Vec<(IpAddr, bool)> = Vec::new();
    let mut i: usize = 0;
    while i < exit_nodes.len()
        invariant
            i <= exit_nodes@.len(),
            exit_nodes@.len() == online@.len(),
            res@.len() == i,
            forall|j: int| 0 <= j < i ==> #[trigger] res@[j] == (exit_nodes@[j], online@[j]),
        decreases exit_nodes@.len() - i,
    {
        res.push((exit_nodes[i], online[i]));
        i = i + 1;
    }
    assert(res@ =~= Seq::new(exit_nodes@.len(), |i: int| (exit_nodes@[i], online@[i])));
    res
}

/// Whether an answer was cut off and has to be asked for again over TCP: the bit of the value 2 in
/// its third byte says so.
pub fn is_truncated(udp_response: &[u8]) -> (res: bool)
    ensures
        res == (udp_response@.len() >= 4 && (udp_response@[2] / 2) % 2 == 1),
{
    udp_response.len() >= 4 && (udp_response[2] / 2) % 2 == 1
}

/// A query as it is sent over TCP: its length, modulo 2^16, in two bytes, the higher first, and the
/// query.
pub open spec fn framed(query: Seq<u8>) -> Seq<u8> {
    let len = query.len() % 0x1_0000;
    seq![(len / 0x100) as u8, (len % 0x100) as u8] + query
}

/// A query as it is sent over TCP.
pub fn frame_tcp_query(query: &[u8]) -> (res: Vec<u8>)
    ensures
        res@ == framed(query@),
        res@.len() == query@.len() + 2,
        res@[0] * 256 + res@[1] == query@.len() % 65536,
{
    let len: usize = query.len() % 0x1_0000;
    let mut res: Vec<u8> = Vec::new();
    res.push((len / 0x100) as u8);
    res.push((len % 0x100) as u8);
    res.extend_from_slice(query);
    assert(res@ =~= framed(query@));
    res
}

/// The length that two bytes say.
pub fn tcp_frame_len(high: u8, low: u8) -> (len: usize)
    ensures
        len == high * 0x100 + low,
{
    high as usize * 0x100 + low as usize
}

/// The length in front of a query is read back, where it fits.
pub proof fn the_frame_tells_the_length(query: Seq<u8>)
    requires
        query.len() < 0x1_0000,
    ensures
        framed(query)[0] * 0x100 + framed(query)[1] == query.len(),
        framed(query).skip(2) == query,
{
    assert(framed(query).skip(2) =~= query);
}

/// What to do with a query.
#[derive(Debug)]
pub enum QueryStep {
    /// Ask the own upstream servers.
    UseLocal,
    /// This is the answer.
    Answer(Vec<u8>),
    /// Ask an exit node.
    AskExit,
}

/// What the client keeps between queries.
#[derive(Debug)]
pub struct ExitDnsRelay {
    pub breaker: BreakerState,
    pub cache: DnsCache,
}

impl ExitDnsRelay {
    /// Nothing is kept, and nothing failed yet.
    pub fn new() -> (relay: ExitDnsRelay)
        ensures
            relay.breaker == fresh_breaker(),
            relay.cache.wf(),
            relay.cache@ == Map::<Seq<u8>, CachedAnswer>::empty(),
    {
        ExitDnsRelay { breaker: BreakerState::new(), cache: DnsCache::new() }
    }

    /// Decides what to do with a query: an answer that is kept is given at once, and during a pause
    /// the exit node is not asked.
    pub fn resolve_external_query(&mut self, reachable: bool, query: &[u8], now: Instant) -> (step:
        QueryStep)
        requires
            old(self).cache.wf(),
        ensures
            final(self).cache.wf(),
            !reachable ==> step is UseLocal && final(self).cache@ == old(self).cache@
                && final(self).breaker == old(self).breaker,
            reachable ==> final(self).cache@ == after_lookup(old(self).cache@, query@, now),
            reachable ==> match looked_up(old(self).cache@, query@, now) {
                Some(found) => (step matches QueryStep::Answer(bytes) && bytes@ == found) && final(self).breaker
                    == old(self).breaker,
                None => if breaker_open(old(self).breaker, now) {
                    let was_paused = old(self).breaker.unusable_until is Some;
                    step is AskExit && final(self).breaker == (if was_paused {
                        fresh_breaker()
                    } else {
                        old(self).breaker
                    })
                } else {
                    step is UseLocal && final(self).breaker == old(self).breaker
                },
            },
    {
        if !reachable {
            return QueryStep::UseLocal;
        }
        match lookup_cache(&mut self.cache, query, now) {
            Some(cached) => {
                return QueryStep::Answer(cached);
            },
            None => {},
        }
        if !breaker_allows(&mut self.breaker, now) {
            return QueryStep::UseLocal;
        }
        QueryStep::AskExit
    }

    /// Takes what came of asking the exit node: an answer is relieved of its IPv6 addresses where
    /// they are of no use, kept, and given; a failure is counted.
    pub fn finish_query(
        &mut self,
        query: &[u8],
        result: Option<Vec<u8>>,
        enable_ipv6: bool,
        now: Instant,
    ) -> (res: Option<Vec<u8>>)
        requires
            old(self).cache.wf(),
            now.nanos + DNS_CACHE_MAX_TTL * NANOS_PER_SEC <= u64::MAX,
        ensures
            final(self).cache.wf(),
            bytes_view(res) == given_answer(bytes_view(result), enable_ipv6),
            res matches Some(given) ==> final(self).breaker == fresh_breaker() && exists|
                secs: u32,
            | #[trigger]
                is_kept_for(dns_message(given@), secs) && final(self).cache@ == after_store(
                    old(self).cache@,
                    old(self).cache.entries@.len() >= DNS_CACHE_MAX_ENTRIES,
                    query@,
                    given@,
                    secs,
                    now,
                ),
            res is None ==> final(self).breaker == after_failure(old(self).breaker, now)
                && final(self).cache@ == old(self).cache@,
    {
        match result {
            Some(answer) => {
                breaker_record_success(&mut self.breaker);
                let mut response = answer;
                if !enable_ipv6 {
                    match strip_aaaa_records(response.as_slice()) {
                        Some(changed) => {
                            response = changed;
                        },
                        None => {},
                    }
                }
                store_cache(&mut self.cache, query, response.as_slice(), now);
                Some(response)
            },
            None => {
                breaker_record_failure(&mut self.breaker, now);
                None
            },
        }
    }
}

/// The answer that is given for what the exit node answered.
pub open spec fn given_answer(answer: Option<Seq<u8>>, enable_ipv6: bool) -> Option<Seq<u8>> {
    match answer {
        Some(bytes) => if enable_ipv6 {
            Some(bytes)
        } else {
            match stripped(bytes) {
                Some(changed) => Some(changed),
                None => Some(bytes),
            }
        },
        None => None,
    }
}

/// The exit node may be asked unless a pause that was set is not over.
pub proof fn a_pause_ends_at_its_time(failures: u32, until: Instant, now: Instant)
    ensures
        breaker_open(BreakerState { consecutive_failures: failures, unusable_until: None }, now),
        breaker_open(
            BreakerState { consecutive_failures: failures, unusable_until: Some(until) },
            now,
        ) <==> now.nanos >= until.nanos,
        fresh_breaker().consecutive_failures == 0,
        fresh_breaker().unusable_until is None,
{
}

/// After failures at the given times, without a success between them, the exit node may be asked
/// where there were at most two, or where the last is thirty seconds ago.
pub proof fn three_failures_pause_for_thirty_seconds(times: Seq<Instant>, now: Instant)
    requires
        times.len() > 0 ==> times.last().nanos + 30_000_000_000 <= u64::MAX,
    ensures
        breaker_open(after_failures(times), now) <==> times.len() <= 2 || now.nanos
            >= times.last().nanos + 30_000_000_000,
        times.len() <= u32::MAX ==> after_failures(times).consecutive_failures == times.len(),
{
    failures_pause_from_the_third_on(times, now);
    lemma_failures_counted(times);
}

/// A failure is counted, as far as the counter goes.
pub proof fn a_failure_is_counted(st: BreakerState, now: Instant)
    ensures
        st.consecutive_failures < u32::MAX ==> after_failure(st, now).consecutive_failures
            == st.consecutive_failures + 1,
        st.consecutive_failures == u32::MAX ==> after_failure(st, now).consecutive_failures
            == u32::MAX,
{
}

/// An answer is kept for no longer than the shortest-lived of its records, but for five seconds at
/// least and five minutes at most. An error is not kept, and what names no time is kept for thirty
/// seconds.
pub proof fn answers_are_kept_for_their_shortest_record(msg: DnsView, secs: u32)
    requires
        is_kept_for(Some(msg), secs),
    ensures
        msg.response_code != 0 <==> secs == 0,
        msg.response_code == 0 && msg.answers.len() == 0 ==> secs == 30,
        msg.response_code == 0 && msg.answers.len() > 0 ==> 5 <= secs <= 300,
        msg.response_code == 0 && secs > 5 ==> forall|i: int|
            0 <= i < msg.answers.len() ==> secs <= (#[trigger] msg.answers[i]).1,
        msg.response_code == 0 && msg.answers.len() > 0 && secs < 300 ==> exists|i: int|
            0 <= i < msg.answers.len() && (#[trigger] msg.answers[i]).1 <= secs,
{
    if msg.response_code == 0 && msg.answers.len() > 0 {
        let ttl = choose|ttl: u32| #[trigger]
            is_smallest_ttl(msg.answers, ttl) && secs == ttl_within_limits(ttl);
        let i = choose|i: int| 0 <= i < msg.answers.len() && (#[trigger] msg.answers[i]).1 == ttl;
        assert(msg.answers[i].1 == ttl);
    }
}

/// What is no message is kept for thirty seconds.
pub proof fn what_cannot_be_read_is_kept_briefly(secs: u32)
    ensures
        is_kept_for(None, secs) <==> secs == 30,
{
}

/// The places that are kept are in ascending order, and a place is kept exactly where its record is
/// not of the type 28, which holds an IPv6 address.
pub proof fn exactly_the_ipv6_addresses_are_left_out(answers: Seq<(u16, u32)>, n: int, i: int)
    requires
        0 <= i < n <= answers.len(),
        answers.len() <= usize::MAX,
    ensures
        non_aaaa_places(answers, n).contains(i as usize) <==> answers[i].0 != 28,
        forall|a: int, b: int|
            #![trigger non_aaaa_places(answers, n)[a], non_aaaa_places(answers, n)[b]]
            0 <= a < b < non_aaaa_places(answers, n).len() ==> non_aaaa_places(answers, n)[a]
                < non_aaaa_places(answers, n)[b],
{
    lemma_kept_places(answers, n);
    let kept = non_aaaa_places(answers, n);
    if answers[i].0 != 28 {
        lemma_place_is_kept(answers, n, i);
    }
    if kept.contains(i as usize) {
        let a = choose|a: int| 0 <= a < kept.len() && kept[a] == i as usize;
        assert(answers[kept[a] as int].0 != 28);
    }
}

/// What is kept lies among the first answers, in ascending order, and is no IPv6 address.
proof fn lemma_kept_places(answers: Seq<(u16, u32)>, n: int)
    requires
        0 <= n <= answers.len(),
        answers.len() <= usize::MAX,
    ensures
        forall|a: int|
            0 <= a < non_aaaa_places(answers, n).len() ==> #[trigger] non_aaaa_places(answers, n)[a]
                < n && answers[non_aaaa_places(answers, n)[a] as int].0 != 28,
        forall|a: int, b: int|
            #![trigger non_aaaa_places(answers, n)[a], non_aaaa_places(answers, n)[b]]
            0 <= a < b < non_aaaa_places(answers, n).len() ==> non_aaaa_places(answers, n)[a]
                < non_aaaa_places(answers, n)[b],
    decreases n,
{
    if n > 0 {
        lemma_kept_places(answers, n - 1);
        let rest = non_aaaa_places(answers, n - 1);
        let all = non_aaaa_places(answers, n);
        assert forall|a: int| 0 <= a < all.len() implies #[trigger] all[a] < n
            && answers[all[a] as int].0 != 28 by {
            if a < rest.len() {
                assert(rest[a] < n - 1);
            }
        }
        assert forall|a: int, b: int|
            #![trigger all[a], all[b]]
            0 <= a < b < all.len() implies all[a] < all[b] by {
            assert(rest[a] < n - 1);
            if b < rest.len() {
                assert(rest[a] < rest[b]);
            }
        }
    }
}

/// A place whose record is no IPv6 address is kept.
proof fn lemma_place_is_kept(answers: Seq<(u16, u32)>, n: int, i: int)
    requires
        0 <= i < n <= answers.len(),
        answers[i].0 != 28,
    ensures
        non_aaaa_places(answers, n).contains(i as usize),
    decreases n,
{
    let rest = non_aaaa_places(answers, n - 1);
    let all = non_aaaa_places(answers, n);
    if i < n - 1 {
        lemma_place_is_kept(answers, n - 1, i);
        let a = choose|a: int| 0 <= a < rest.len() && rest[a] == i as usize;
        assert(all[a] == i as usize);
    } else {
        assert(all[rest.len() as int] == i as usize);
    }
}

/// An answer is changed only where it is a message with an IPv6 address in it, and is otherwise left
/// as it is; with IPv6 in use it is never changed.
pub proof fn answers_are_changed_only_for_ipv6_addresses(response: Seq<u8>)
    ensures
        dns_message(response) is None ==> stripped(response) is None,
        dns_message(response) matches Some(msg) ==> (forall|i: int|
            0 <= i < msg.answers.len() ==> (#[trigger] msg.answers[i]).0 != 28) ==> stripped(
            response,
        ) is None,
        dns_message(response) matches Some(msg) ==> (exists|i: int|
            0 <= i < msg.answers.len() && (#[trigger] msg.answers[i]).0 == 28) ==> stripped(response)
            == dns_reencoded(response, non_aaaa_places(msg.answers, msg.answers.len() as int)),
        given_answer(Some(response), true) == Some(response),
        stripped(response) is None ==> given_answer(Some(response), false) == Some(response),
        stripped(response) is Some ==> given_answer(Some(response), false) == stripped(response),
        given_answer(None, true) is None,
        given_answer(None, false) is None,
{
    if let Some(msg) = dns_message(response) {
        answers_without_aaaa_are_left_alone(msg.answers, msg.answers.len() as int);
    }
}

/// A framed query is two bytes longer; they are its length modulo 65536, the higher byte first.
pub proof fn the_frame_is_two_bytes(query: Seq<u8>)
    ensures
        framed(query).len() == query.len() + 2,
        framed(query)[0] * 256 + framed(query)[1] == query.len() % 65536,
        framed(query).subrange(2, framed(query).len() as int) == query,
{
    assert(framed(query).subrange(2, framed(query).len() as int) =~= query);
}

/// An answer is found by the query without its id, while it has not expired. It is given with the two
/// bytes of the asking query's id, and otherwise as it was stored.
pub proof fn what_is_found(
    cache: Map<Seq<u8>, CachedAnswer>,
    query: Seq<u8>,
    now: Instant,
)
    requires
        forall|key: Seq<u8>| #[trigger]
            cache.dom().contains(key) ==> cache[key].response.len() >= 12,
    ensures
        looked_up(cache, query, now) is Some <==> query.len() > 2 && cache.dom().contains(
            query.skip(2),
        ) && now.nanos < cache[query.skip(2)].expires_at.nanos,
        looked_up(cache, query, now) matches Some(found) ==> {
            let stored = cache[query.skip(2)].response;
            &&& found.len() == stored.len()
            &&& found[0] == query[0]
            &&& found[1] == query[1]
            &&& found.skip(2) == stored.skip(2)
        },
{
    if let Some(found) = looked_up(cache, query, now) {
        assert(found.skip(2) =~= cache[query.skip(2)].response.skip(2));
    }
}

/// Looking changes nothing but that the answer to this query is gone where it has expired.
pub proof fn looking_removes_only_what_expired(
    cache: Map<Seq<u8>, CachedAnswer>,
    query: Seq<u8>,
    now: Instant,
    key: Seq<u8>,
)
    ensures
        after_lookup(cache, query, now).dom().contains(key) <==> cache.dom().contains(key) && !(
        query.len() > 2 && key == query.skip(2) && cache[key].expires_at.nanos <= now.nanos),
        after_lookup(cache, query, now).dom().contains(key) ==> after_lookup(cache, query, now)[key]
            == cache[key],
{
}

/// Storing puts the answer under its query, without the id, until its seconds are over. Every other
/// answer stays, unless the cache was full: it is emptied first. Nothing is stored of a query without
/// a question, of an answer shorter than a header of 12 bytes, or for no time.
pub proof fn what_is_stored(
    cache: Map<Seq<u8>, CachedAnswer>,
    full: bool,
    query: Seq<u8>,
    response: Seq<u8>,
    secs: u32,
    now: Instant,
    key: Seq<u8>,
)
    requires
        now.nanos + secs * 1_000_000_000 <= u64::MAX,
    ensures
        query.len() <= 2 || response.len() < 12 || secs == 0 ==> after_store(
            cache,
            full,
            query,
            response,
            secs,
            now,
        ) == cache,
        query.len() > 2 && response.len() >= 12 && secs > 0 ==> {
            let after = after_store(cache, full, query, response, secs, now);
            &&& after.dom().contains(query.skip(2))
            &&& after[query.skip(2)].response == response
            &&& after[query.skip(2)].expires_at.nanos == now.nanos + secs * 1_000_000_000
            &&& key != query.skip(2) ==> (after.dom().contains(key) <==> cache.dom().contains(key)
                && !full)
            &&& key != query.skip(2) && after.dom().contains(key) ==> after[key] == cache[key]
        },
{
}

/// The cache holds what its entries say, each query once; at most 512 of them, and none whose answer
/// is shorter than 12 bytes.
pub proof fn the_cache_holds_its_entries(cache: DnsCache, i: int)
    requires
        cache.wf(),
        0 <= i < cache.entries@.len(),
    ensures
        cache.entries@.len() <= 512,
        cache@.dom().contains(cache.entries@[i].key@),
        cache@[cache.entries@[i].key@].response == cache.entries@[i].response@,
        cache@[cache.entries@[i].key@].expires_at == cache.entries@[i].expires_at,
        cache.entries@[i].response@.len() >= 12,
        forall|j: int|
            0 <= j < cache.entries@.len() && j != i ==> (#[trigger] cache.entries@[j]).key@
                != cache.entries@[i].key@,
        forall|key: Seq<u8>| #[trigger]
            cache@.dom().contains(key) ==> exists|j: int|
                0 <= j < cache.entries@.len() && (#[trigger] cache.entries@[j]).key@ == key,
{
    lemma_entry(cache.entries@, i);
    assert forall|key: Seq<u8>| #[trigger] cache@.dom().contains(key) implies exists|j: int|
        0 <= j < cache.entries@.len() && (#[trigger] cache.entries@[j]).key@ == key by {
        let j = choose|j: int| key_at(cache.entries@, key, j);
        assert(cache.entries@[j].key@ == key);
    }
}

/// An exit node can be asked where it has an IPv4 address and is online; one of the two is not
/// enough.
pub proof fn who_can_be_asked(exit_nodes: Seq<IpAddr>, online: Seq<bool>, i: int)
    requires
        0 <= i < exit_nodes.len(),
        0 <= i < online.len(),
    ensures
        can_be_asked(exit_nodes, online, i) <==> !(exit_nodes[i] is V6) && online[i],
{
}

/// The times and numbers that the service goes by.
pub proof fn dns_limits()
    ensures
        EXIT_DNS_QUERY_TIMEOUT_MILLIS == 400,
        EXIT_DNS_BREAKER_FAIL_THRESHOLD == 3,
        EXIT_DNS_BREAKER_COOLDOWN_SECS == 30,
        DNS_CACHE_MAX_ENTRIES == 512,
        DNS_CACHE_MIN_TTL == 5,
        DNS_CACHE_MAX_TTL == 300,
        DNS_CACHE_DEFAULT_TTL == 30,
        DNS_PORT == 53,
{
}

/// What is read of a message, and bytes that may be missing, are shown as they are.
pub proof fn messages_are_shown_as_they_are(msg: DnsMessage, bytes: Vec<u8>)
    ensures
        msg@.response_code == msg.response_code,
        msg@.answers == msg.answers@,
        dns_view(Some(msg)) == Some(msg@),
        dns_view(None) is None,
        bytes_view(Some(bytes)) == Some(bytes@),
        bytes_view(None) is None,
{
}

/// The length in front of a framed query is read back, as far as two bytes go.
pub proof fn the_length_is_read_back(query: Seq<u8>, len: usize)
    requires
        call_ensures(tcp_frame_len, (framed(query)[0], framed(query)[1]), len),
    ensures
        len == query.len() % 65536,
        query.len() < 65536 ==> len == query.len(),
{
}

/// An answer was cut off where the second lowest bit of its third byte is set; an answer without a
/// fourth byte was not.
pub proof fn when_an_answer_was_cut_off(answer: &[u8], res: bool)
    requires
        call_ensures(is_truncated, (answer,), res),
    ensures
        res ==> answer@.len() >= 4,
        answer@.len() >= 4 ==> (res <==> answer@[2] % 4 >= 2),
{
}

/// The DNS service of an exit node can be reached everywhere but on Android and on OpenHarmony.
pub proof fn where_the_service_can_be_reached(target_os: &str, target_env: &str, res: bool)
    requires
        call_ensures(can_reach_tunnel_dns, (target_os, target_env), res),
    ensures
        target_os@ == "android"@ ==> !res,
        target_env@ == "ohos"@ ==> !res,
        target_os@ != "android"@ && target_env@ != "ohos"@ ==> res,
{
}

/// Every exit node is described, in its place, with whether it is online.
pub proof fn every_exit_node_is_described(
    exit_nodes: Vec<IpAddr>,
    online: Vec<bool>,
    res: Vec<(IpAddr, bool)>,
    i: int,
)
    requires
        exit_nodes@.len() == online@.len(),
        call_ensures(describe_exit_nodes, (&exit_nodes, &online), res),
        0 <= i < exit_nodes@.len(),
    ensures
        res@.len() == exit_nodes@.len(),
        res@[i].0 == exit_nodes@[i],
        res@[i].1 == online@[i],
{
}

} // verus!
