//! The wait between attempts to connect. Each URL has its own.
use crate::clock::{since, Duration, Instant, NANOS_PER_MILLI, NANOS_PER_SEC};
use crate::collections::lists;
use crate::random::random_u64;
use crate::text::{copy_text, texts};
use dashmap::DashMap;
use vstd::prelude::*;

verus! {

/// The wait after the first failure.
pub const RECONN_BACKOFF_INITIAL_SECS: u64 = 2;

/// The longest wait, before the jitter.
pub const RECONN_BACKOFF_MAX_SECS: u64 = 60;

/// The longest wait, with the jitter.
pub const RECONN_BACKOFF_LIMIT_SECS: u64 = 72;

/// How far the jitter moves a wait, in percent.
pub const RECONN_BACKOFF_JITTER_PERCENT: u64 = 20;

/// The failures of one URL since it last succeeded.
#[derive(Clone, Copy, Debug, PartialEq, Eq, Structural)]
pub struct BackoffState {
    pub fail_count: u32,
    /// The earliest time of the next attempt.
    pub next_attempt_at: Instant,
}

/// The wait after so many failures in a row, in seconds: 2, 4, 8, 16, 32, then always 60.
pub open spec fn base_delay_secs(fail_count: u32) -> u64 {
    if fail_count <= 1 {
        2
    } else if fail_count == 2 {
        4
    } else if fail_count == 3 {
        8
    } else if fail_count == 4 {
        16
    } else if fail_count == 5 {
        32
    } else {
        60
    }
}

/// The wait after so many failures in a row, without jitter. No failure counts as one.
pub fn backoff_base_delay(fail_count: u32) -> (d: Duration)
    ensures
        d.nanos == base_delay_secs(fail_count) * NANOS_PER_SEC,
{
    let mut secs: u64 = RECONN_BACKOFF_INITIAL_SECS;
    let mut i: u32 = 1;
    while i < fail_count && i < 7
        invariant
            1 <= i <= 7,
            fail_count > 1 ==> i <= fail_count,
            fail_count <= 1 ==> i == 1,
            secs == (if i == 1 {
                2u64
            } else if i == 2 {
                4
            } else if i == 3 {
                8
            } else if i == 4 {
                16
            } else if i == 5 {
                32
            } else if i == 6 {
                64
            } else {
                128
            }),
        decreases 7 - i,
    {
        secs = secs * 2;
        i = i + 1;
    }
    if secs > RECONN_BACKOFF_MAX_SECS {
        secs = RECONN_BACKOFF_MAX_SECS;
    }
    Duration::from_secs(secs)
}

/// The waits double until they reach the longest.
pub proof fn waits_double_up_to_the_limit(fail_count: u32)
    requires
        1 <= fail_count < u32::MAX,
    ensures
        base_delay_secs((fail_count + 1) as u32) == (if 2 * base_delay_secs(fail_count)
            > RECONN_BACKOFF_MAX_SECS {
            RECONN_BACKOFF_MAX_SECS as int
        } else {
            2 * base_delay_secs(fail_count)
        }),
{
}

/// A wait moved by the jitter, in nanoseconds: in whole milliseconds, up to a fifth less or more.
/// A wait too short for that is left as it is.
pub open spec fn jittered(base: int, jitter: int) -> int {
    let base_ms = base / NANOS_PER_MILLI as int;
    let span_ms = base_ms * RECONN_BACKOFF_JITTER_PERCENT / 100;
    if span_ms == 0 {
        base
    } else {
        (base_ms - span_ms + jitter % (span_ms * 2 + 1)) * NANOS_PER_MILLI
    }
}

/// Moves a wait by the jitter that a random number stands for.
pub fn apply_backoff_jitter(base: Duration, jitter: u64) -> (d: Duration)
    requires
        base.nanos * 12 <= u64::MAX * 10,
    ensures
        d.nanos == jittered(base.nanos as int, jitter as int),
{
    let base_ms: u64 = base.as_millis();
    let span_ms: u64 = base_ms * RECONN_BACKOFF_JITTER_PERCENT / 100;
    if span_ms == 0 {
        return base;
    }
    let offset: u64 = jitter % (span_ms * 2 + 1);
    Duration::from_millis(base_ms - span_ms + offset)
}

/// The jitter keeps a wait within a fifth of what it was, to the millisecond.
pub proof fn jitter_stays_within_a_fifth(base: int, jitter: int)
    requires
        0 <= base,
        base % NANOS_PER_MILLI as int == 0,
        0 <= jitter,
    ensures
        base * 80 <= jittered(base, jitter) * 100,
        jittered(base, jitter) * 100 <= base * 120,
{
    let base_ms = base / NANOS_PER_MILLI as int;
    let span_ms = base_ms * RECONN_BACKOFF_JITTER_PERCENT / 100;
    assert(base == base_ms * NANOS_PER_MILLI);
    if span_ms > 0 {
        let offset = jitter % (span_ms * 2 + 1);
        assert(0 <= offset <= span_ms * 2);
        assert(base_ms * 80 <= (base_ms - span_ms) * 100);
        assert((base_ms + span_ms) * 100 <= base_ms * 120);
    }
}

/// `d` is a wait after so many failures, for some jitter.
pub open spec fn is_delay_after(fail_count: u32, d: Duration) -> bool {
    exists|jitter: int|
        0 <= jitter && d.nanos == #[trigger] jittered(
            base_delay_secs(fail_count) * NANOS_PER_SEC,
            jitter,
        )
}

/// Every wait is between 0.8 and 1.2 times its base.
pub proof fn delays_are_bounded(fail_count: u32, d: Duration)
    requires
        is_delay_after(fail_count, d),
    ensures
        base_delay_secs(fail_count) * NANOS_PER_SEC * 80 <= d.nanos * 100,
        d.nanos * 100 <= base_delay_secs(fail_count) * NANOS_PER_SEC * 120,
        d.nanos <= RECONN_BACKOFF_LIMIT_SECS * NANOS_PER_SEC,
{
    let base = base_delay_secs(fail_count) * NANOS_PER_SEC;
    let jitter = choose|jitter: int|
        0 <= jitter && d.nanos == #[trigger] jittered(
            base_delay_secs(fail_count) * NANOS_PER_SEC,
            jitter,
        );
    jitter_stays_within_a_fifth(base, jitter);
}

/// The wait after so many failures in a row, with a random jitter.
pub fn backoff_delay(fail_count: u32) -> (d: Duration)
    ensures
        is_delay_after(fail_count, d),
{
    let jitter: u64 = random_u64();
    let d = apply_backoff_jitter(backoff_base_delay(fail_count), jitter);
    assert(d.nanos == jittered(base_delay_secs(fail_count) * NANOS_PER_SEC, jitter as int));
    d
}

/// What the map of failures holds, by URL.
pub uninterp spec fn backoff_map(map: DashMap<String, BackoffState>) -> Map<
    Seq<char>,
    BackoffState,
>;

/// `DashMap::new`: an empty map.
#[verifier::external_body]
fn backoff_map_new() -> (res: DashMap<String, BackoffState>)
    ensures
        backoff_map(res).dom() == Set::<Seq<char>>::empty(),
{
    DashMap::new()
}

/// `DashMap::get`, of which the value is copied out.
#[verifier::external_body]
fn backoff_map_get(map: &DashMap<String, BackoffState>, url: &str) -> (res: Option<BackoffState>)
    ensures
        res == (if backoff_map(*map).dom().contains(url@) {
            Some(backoff_map(*map)[url@])
        } else {
            None
        }),
{
    map.get(url).map(|entry| *entry.value())
}

/// `DashMap::insert`: the key has the new value, everything else stays.
#[verifier::external_body]
fn backoff_map_insert(map: &mut DashMap<String, BackoffState>, url: String, state: BackoffState)
    ensures
        backoff_map(*final(map)) == backoff_map(*old(map)).insert(url@, state),
{
    map.insert(url, state);
}

/// `DashMap::remove`: the key is gone, everything else stays; its value is handed out.
#[verifier::external_body]
fn backoff_map_remove(map: &mut DashMap<String, BackoffState>, url: &str) -> (res: Option<
    BackoffState,
>)
    ensures
        backoff_map(*final(map)) == backoff_map(*old(map)).remove(url@),
        res == (if backoff_map(*old(map)).dom().contains(url@) {
            Some(backoff_map(*old(map))[url@])
        } else {
            None
        }),
{
    map.remove(url).map(|entry| entry.1)
}

/// `DashMap::iter`, of which the keys are copied: each key once, in the order of the shards.
#[verifier::external_body]
fn backoff_map_keys(map: &DashMap<String, BackoffState>) -> (keys: Vec<String>)
    ensures
        lists(texts(keys@), backoff_map(*map).dom()),
{
    map.iter().map(|entry| entry.key().clone()).collect()
}

/// The failures of every URL.
pub struct BackoffTable {
    pub inner: DashMap<String, BackoffState>,
}

impl View for BackoffTable {
    type V = Map<Seq<char>, BackoffState>;

    open spec fn view(&self) -> Map<Seq<char>, BackoffState> {
        backoff_map(self.inner)
    }
}

/// How many failures of `url` are on record.
pub open spec fn failures(table: Map<Seq<char>, BackoffState>, url: Seq<char>) -> u32 {
    if table.dom().contains(url) {
        table[url].fail_count
    } else {
        0
    }
}

/// Whether `url` may be tried at `now`: it has no failure on record, or its wait is over.
pub open spec fn may_attempt(
    table: Map<Seq<char>, BackoffState>,
    url: Seq<char>,
    now: Instant,
) -> bool {
    table.dom().contains(url) ==> now.nanos >= table[url].next_attempt_at.nanos
}

/// One more failure, as far as the counter goes.
pub open spec fn one_more(fail_count: u32) -> u32 {
    if fail_count == u32::MAX {
        u32::MAX
    } else {
        (fail_count + 1) as u32
    }
}

impl BackoffTable {
    /// A table without failures.
    pub fn new() -> (table: BackoffTable)
        ensures
            table@ == Map::<Seq<char>, BackoffState>::empty(),
    {
        BackoffTable { inner: backoff_map_new() }
    }

    /// Whether `url` may be tried at `now`.
    pub fn should_attempt(&self, url: &str, now: Instant) -> (res: bool)
        ensures
            res == may_attempt(self@, url@, now),
    {
        match backoff_map_get(&self.inner, url) {
            None => true,
            Some(state) => now.nanos >= state.next_attempt_at.nanos,
        }
    }

    /// The failures of `url` and how long it has to wait; none where it has no failure on record.
    pub fn pending(&self, url: &str, now: Instant) -> (res: Option<(u32, Duration)>)
        ensures
            res is Some <==> self@.dom().contains(url@),
            res matches Some((count, rest)) ==> count == self@[url@].fail_count && rest.nanos
                == since(self@[url@].next_attempt_at, now),
    {
        match backoff_map_get(&self.inner, url) {
            None => None,
            Some(state) => Some((state.fail_count, now.elapsed(state.next_attempt_at))),
        }
    }

    /// Records a failure of `url` at `now` and gives the count and the wait that follows.
    pub fn record_failure(&mut self, url: &str, now: Instant) -> (res: (u32, Duration))
        requires
            now.nanos + RECONN_BACKOFF_LIMIT_SECS * NANOS_PER_SEC <= u64::MAX,
        ensures
            res.0 == one_more(failures(old(self)@, url@)),
            !old(self)@.dom().contains(url@) ==> res.0 == 1,
            old(self)@.dom().contains(url@) && old(self)@[url@].fail_count < u32::MAX ==> res.0
                == old(self)@[url@].fail_count + 1,
            old(self)@.dom().contains(url@) && old(self)@[url@].fail_count == u32::MAX ==> res.0
                == u32::MAX,
            is_delay_after(res.0, res.1),
            res.0 == 1 ==> 1_600_000_000 <= res.1.nanos <= 2_400_000_000,
            res.0 == 2 ==> 3_200_000_000 <= res.1.nanos <= 4_800_000_000,
            res.0 == 3 ==> 6_400_000_000 <= res.1.nanos <= 9_600_000_000,
            res.0 == 4 ==> 12_800_000_000 <= res.1.nanos <= 19_200_000_000,
            res.0 == 5 ==> 25_600_000_000 <= res.1.nanos <= 38_400_000_000,
            res.0 >= 6 ==> 48_000_000_000 <= res.1.nanos <= 72_000_000_000,
            final(self)@ == old(self)@.insert(
                url@,
                BackoffState {
                    fail_count: res.0,
                    next_attempt_at: Instant { nanos: (now.nanos + res.1.nanos) as u64 },
                },
            ),
            now.nanos + res.1.nanos <= u64::MAX,
    {
        let count: u32 = match backoff_map_get(&self.inner, url) {
            None => 0,
            Some(state) => state.fail_count,
        };
        let fail_count: u32 = count.saturating_add(1);
        let delay = backoff_delay(fail_count);
        proof {
            delays_are_bounded(fail_count, delay);
        }
        backoff_map_insert(
            &mut self.inner,
            copy_text(url),
            BackoffState { fail_count, next_attempt_at: now.after(delay) },
        );
        (fail_count, delay)
    }

    /// Records a success of `url`: its failures are forgotten. Gives their count, if there were any.
    pub fn record_success(&mut self, url: &str) -> (res: Option<u32>)
        ensures
            final(self)@ == old(self)@.remove(url@),
            res == (if old(self)@.dom().contains(url@) {
                Some(old(self)@[url@].fail_count)
            } else {
                None
            }),
    {
        match backoff_map_remove(&mut self.inner, url) {
            None => None,
            Some(state) => Some(state.fail_count),
        }
    }

    /// Forgets every URL that `keep` refuses and gives their number.
    pub fn prune<F: Fn(&String) -> bool>(&mut self, keep: F) -> (removed: usize)
        requires
            forall|url: &String| #[trigger] keep.requires((url,)),
        ensures
            final(self)@.submap_of(old(self)@),
            forall|url: Seq<char>| #[trigger]
                old(self)@.dom().contains(url) ==> exists|s: String, kept: bool|
                    s@ == url && #[trigger] keep.ensures((&s,), kept) && kept
                        == final(self)@.dom().contains(url),
            removed == old(self)@.dom().difference(final(self)@.dom()).len(),
    {
        let urls = backoff_map_keys(&self.inner);
        let ghost before = self@;
        let ghost mut gone: Seq<Seq<char>> = Seq::empty();
        let mut removed: usize = 0;
        let mut i: usize = 0;
        while i < urls.len()
            invariant
                i <= urls@.len(),
                before == old(self)@,
                lists(texts(urls@), before.dom()),
                forall|url: &String| #[trigger] keep.requires((url,)),
                removed == gone.len(),
                removed <= i,
                gone.no_duplicates(),
                forall|k: Seq<char>| #[trigger]
                    self@.dom().contains(k) <==> before.dom().contains(k) && !gone.contains(k),
                forall|k: Seq<char>| #[trigger] self@.dom().contains(k) ==> self@[k] == before[k],
                forall|k: Seq<char>| #[trigger]
                    gone.contains(k) ==> exists|j: int| 0 <= j < i && texts(urls@)[j] == k,
                forall|j: int| #![trigger urls@[j]]
                    0 <= j < i ==> exists|s: String, kept: bool|
                        s@ == urls@[j]@ && #[trigger] keep.ensures((&s,), kept) && kept
                            == !gone.contains(urls@[j]@),
            decreases urls@.len() - i,
        {
            let ghost url = urls@[i as int]@;
            let ghost gone0 = gone;
            let ghost before_step = self@;
            proof {
                assert(texts(urls@)[i as int] == url);
                assert(texts(urls@).contains(url));
                if gone.contains(url) {
                    let j = choose|j: int| 0 <= j < i && texts(urls@)[j] == url;
                    assert(texts(urls@)[j] == texts(urls@)[i as int]);
                }
            }
            let kept = keep(&urls[i]);
            assert(keep.ensures((&urls@[i as int],), kept));
            if !kept {
                let _ = backoff_map_remove(&mut self.inner, urls[i].as_str());
                removed = removed + 1;
                proof {
                    gone = gone.push(url);
                    assert forall|k: Seq<char>| #[trigger] gone.contains(k) implies gone0.contains(k)
                        || k == url by {}
                    assert forall|k: Seq<char>| gone0.contains(k) implies #[trigger] gone.contains(k) by {
                        let j = choose|j: int| 0 <= j < gone0.len() && gone0[j] == k;
                        assert(gone[j] == k);
                    }
                    assert(gone[gone0.len() as int] == url);
                    assert(gone.contains(url));
                }
            }
            proof {
                assert forall|j: int| #![trigger urls@[j]] 0 <= j < i + 1 implies exists|
                    s: String,
                    kept: bool,
                |
                    s@ == urls@[j]@ && #[trigger] keep.ensures((&s,), kept) && kept
                        == !gone.contains(urls@[j]@) by {
                    if j < i {
                        assert(texts(urls@)[j] != texts(urls@)[i as int]);
                        assert(gone.contains(urls@[j]@) == gone0.contains(urls@[j]@));
                    } else {
                        assert(keep.ensures((&urls@[i as int],), kept));
                    }
                }
                assert forall|k: Seq<char>| #[trigger] gone.contains(k) implies exists|j: int|
                    0 <= j < i + 1 && texts(urls@)[j] == k by {
                    if gone0.contains(k) {
                        let j = choose|j: int| 0 <= j < i && texts(urls@)[j] == k;
                        assert(texts(urls@)[j] == k);
                    } else {
                        assert(texts(urls@)[i as int] == k);
                    }
                }
            }
            i = i + 1;
        }
        proof {
            assert forall|url: Seq<char>| #[trigger] before.dom().contains(url) implies exists|
                s: String,
                kept: bool,
            |
                s@ == url && #[trigger] keep.ensures((&s,), kept) && kept == self@.dom().contains(
                    url,
                ) by {
                assert(texts(urls@).contains(url));
                let j = choose|j: int| 0 <= j < texts(urls@).len() && texts(urls@)[j] == url;
                assert(urls@[j]@ == url);
            }
            let lost = before.dom().difference(self@.dom());
            assert(gone.to_set() =~= lost) by {
                assert forall|k: Seq<char>| gone.to_set().contains(k) implies lost.contains(k) by {
                    assert(gone.contains(k));
                    let j = choose|j: int| 0 <= j < urls@.len() && texts(urls@)[j] == k;
                    assert(texts(urls@).contains(k));
                }
            }
            gone.unique_seq_to_set();
        }
        removed
    }
}

/// A failure or a success of one URL leaves every other URL as it is.
pub proof fn urls_are_isolated(
    table: Map<Seq<char>, BackoffState>,
    url: Seq<char>,
    state: BackoffState,
    other: Seq<char>,
    now: Instant,
)
    requires
        other != url,
    ensures
        failures(table.insert(url, state), other) == failures(table, other),
        may_attempt(table.insert(url, state), other, now) == may_attempt(table, other, now),
        failures(table.remove(url), other) == failures(table, other),
        may_attempt(table.remove(url), other, now) == may_attempt(table, other, now),
{
}

/// After a success the URL may be tried at once, and its next failure counts as the first.
pub proof fn success_resets_the_wait(
    table: Map<Seq<char>, BackoffState>,
    url: Seq<char>,
    now: Instant,
)
    ensures
        may_attempt(table.remove(url), url, now),
        one_more(failures(table.remove(url), url)) == 1,
{
}

/// The table after failures of `url` in a row, after each of which the next attempt is due at the
/// given time.
pub open spec fn after_failures(
    table: Map<Seq<char>, BackoffState>,
    url: Seq<char>,
    times: Seq<Instant>,
) -> Map<Seq<char>, BackoffState>
    decreases times.len(),
{
    if times.len() == 0 {
        table
    } else {
        let before = after_failures(table, url, times.drop_last());
        before.insert(
            url,
            BackoffState {
                fail_count: one_more(failures(before, url)),
                next_attempt_at: times.last(),
            },
        )
    }
}

/// Each failure counts: after `n` failures in a row the count on record has grown by `n`, as far as
/// the counter goes, and the next attempt is due when the last failure said. What is on record of
/// any other URL is not touched.
pub proof fn failures_in_a_row_are_counted(
    table: Map<Seq<char>, BackoffState>,
    url: Seq<char>,
    times: Seq<Instant>,
)
    requires
        !table.dom().contains(url) ==> times.len() <= u32::MAX,
        table.dom().contains(url) ==> table[url].fail_count + times.len() <= u32::MAX,
    ensures
        !table.dom().contains(url) && times.len() > 0 ==> after_failures(
            table,
            url,
            times,
        )[url].fail_count == times.len(),
        table.dom().contains(url) ==> after_failures(table, url, times)[url].fail_count
            == table[url].fail_count + times.len(),
        times.len() > 0 ==> after_failures(table, url, times).dom().contains(url)
            && after_failures(table, url, times)[url].next_attempt_at == times.last(),
        forall|other: Seq<char>|
            other != url ==> {
                &&& #[trigger] after_failures(table, url, times).dom().contains(other)
                    <==> table.dom().contains(other)
                &&& after_failures(table, url, times)[other] == table[other]
            },
    decreases times.len(),
{
    reveal_with_fuel(after_failures, 2);
    if times.len() > 0 {
        failures_in_a_row_are_counted(table, url, times.drop_last());
    }
}

/// A failure never lowers the count, and raises it as long as the counter goes on.
pub proof fn a_failure_raises_the_count(fail_count: u32)
    ensures
        fail_count < u32::MAX ==> one_more(fail_count) == fail_count + 1,
        one_more(fail_count) >= fail_count,
        one_more(u32::MAX) == u32::MAX,
{
}

/// The wait after `n` failures in a row is 2^n seconds, moved by a fifth at most, up to the fifth
/// failure; from the sixth on it lies between 48 and 72 seconds.
pub proof fn waits_after_failures_in_a_row(
    url: Seq<char>,
    times: Seq<Instant>,
    d: Duration,
)
    requires
        0 < times.len() <= u32::MAX,
        is_delay_after(after_failures(Map::empty(), url, times)[url].fail_count, d),
    ensures
        times.len() == 1 ==> 1_600_000_000 <= d.nanos <= 2_400_000_000,
        times.len() == 2 ==> 3_200_000_000 <= d.nanos <= 4_800_000_000,
        times.len() == 3 ==> 6_400_000_000 <= d.nanos <= 9_600_000_000,
        times.len() == 4 ==> 12_800_000_000 <= d.nanos <= 19_200_000_000,
        times.len() == 5 ==> 25_600_000_000 <= d.nanos <= 38_400_000_000,
        times.len() >= 6 ==> 48_000_000_000 <= d.nanos <= 72_000_000_000,
{
    failures_in_a_row_are_counted(Map::empty(), url, times);
    delays_are_bounded(after_failures(Map::empty(), url, times)[url].fail_count, d);
}

/// Without jitter the wait after the first failure is two seconds, each further failure doubles it
/// as long as it stays below a minute, and no wait is longer than a minute.
pub proof fn base_waits_in_seconds(fail_count: u32)
    ensures
        fail_count <= 1 ==> base_delay_secs(fail_count) == 2,
        2 <= fail_count <= 5 ==> base_delay_secs(fail_count) == 2 * base_delay_secs(
            (fail_count - 1) as u32,
        ),
        fail_count >= 6 ==> base_delay_secs(fail_count) == 60,
{
}

/// The jitter reaches both ends of its range, in steps of a millisecond.
pub proof fn the_jitter_covers_its_range(base: int, jitter: int)
    requires
        0 < base,
        base % 5_000_000 == 0,
        0 <= jitter < 2 * (base / 5_000_000),
    ensures
        jittered(base, 0) * 100 == base * 80,
        jittered(base, 2 * (base / 5_000_000)) * 100 == base * 120,
        jittered(base, jitter + 1) == jittered(base, jitter) + 1_000_000,
{
    let fifth = base / 5_000_000;
    let base_ms = base / NANOS_PER_MILLI as int;
    assert(base_ms == fifth * 5);
    assert(base_ms * RECONN_BACKOFF_JITTER_PERCENT / 100 == fifth);
    assert(0int % (fifth * 2 + 1) == 0) by (nonlinear_arith)
        requires
            fifth > 0,
    ;
    assert((2 * fifth) % (fifth * 2 + 1) == 2 * fifth) by (nonlinear_arith)
        requires
            fifth > 0,
    ;
    assert(jitter % (fifth * 2 + 1) == jitter && (jitter + 1) % (fifth * 2 + 1) == jitter + 1)
        by (nonlinear_arith)
        requires
            0 <= jitter < 2 * fifth,
    ;
}

/// A URL without a failure on record may always be tried; another one may be tried from the moment
/// on that its record names, and not before.
pub proof fn the_wait_ends_when_it_is_over(
    table: Map<Seq<char>, BackoffState>,
    url: Seq<char>,
    now: Instant,
)
    ensures
        !table.dom().contains(url) ==> may_attempt(table, url, now) && failures(table, url) == 0,
        table.dom().contains(url) ==> (may_attempt(table, url, now) <==> now.nanos
            >= table[url].next_attempt_at.nanos),
        table.dom().contains(url) ==> failures(table, url) == table[url].fail_count,
{
}

/// The waits and the jitter, in seconds and in percent.
pub proof fn numbers_of_the_backoff()
    ensures
        RECONN_BACKOFF_INITIAL_SECS == 2,
        RECONN_BACKOFF_MAX_SECS == 60,
        RECONN_BACKOFF_LIMIT_SECS == 72,
        RECONN_BACKOFF_JITTER_PERCENT == 20,
{
}

/// What is pending of a URL is its count and the rest of its wait: it may be tried exactly where
/// nothing is left of that.
pub proof fn what_is_pending_of_a_url(
    table: BackoffTable,
    url: &str,
    now: Instant,
    pending: Option<(u32, Duration)>,
    may: bool,
)
    requires
        call_ensures(BackoffTable::pending, (&table, url, now), pending),
        call_ensures(BackoffTable::should_attempt, (&table, url, now), may),
    ensures
        pending is None <==> !table@.dom().contains(url@),
        pending matches Some((count, rest)) ==> count == table@[url@].fail_count && (may <==> rest.nanos
            == 0),
        pending matches Some((count, rest)) ==> !may ==> now.nanos + rest.nanos
            == table@[url@].next_attempt_at.nanos,
        pending is None ==> may,
{
}

/// The jitter goes round: a number that is larger by the length of the range moves a wait as much. A
/// wait of less than five milliseconds is not moved.
pub proof fn the_jitter_goes_round(base: int, jitter: int)
    requires
        0 < base,
        base % 5_000_000 == 0,
        0 <= jitter,
    ensures
        jittered(base, jitter + 2 * (base / 5_000_000) + 1) == jittered(base, jitter),
        forall|small: int| 0 <= small < 5_000_000 ==> #[trigger] jittered(small, jitter) == small,
{
    let fifth = base / 5_000_000;
    let base_ms = base / NANOS_PER_MILLI as int;
    assert(base_ms == fifth * 5);
    assert(base_ms * RECONN_BACKOFF_JITTER_PERCENT / 100 == fifth);
    vstd::arithmetic::div_mod::lemma_mod_add_multiples_vanish(jitter, fifth * 2 + 1);
    assert(jitter + 2 * fifth + 1 == (fifth * 2 + 1) + jitter);
}

} // verus!
