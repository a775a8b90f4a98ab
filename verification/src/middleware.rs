//! Sliding-window rate limiting, one window per key.
//!
//! A window holds the moments at which requests of its key were admitted,
//! as nanoseconds on the limiter's own clock. Moments older than the window
//! are dropped whenever the key is checked, and a sweep drops the keys that
//! are left with nothing.
use vstd::prelude::*;
use dashmap::DashMap;
use std::collections::hash_map::RandomState;
use std::time::{Duration, Instant};

verus! {

/// Length of the window: 60 seconds, in nanoseconds.
pub const WINDOW_NANOS: u64 = 60_000_000_000;

/// Makes `dashmap::DashMap` known to the verifier. A value of it is opaque:
/// what it holds is spoken of through [`windows_of`] alone.
#[verifier::external_type_specification]
#[verifier::external_body]
#[verifier::reject_recursive_types(K)]
#[verifier::reject_recursive_types(V)]
#[verifier::reject_recursive_types(S)]
pub struct ExDashMap<K, V, S>(DashMap<K, V, S>);

/// Makes `std::time::Instant` known to the verifier. A value of it is
/// opaque.
#[verifier::external_type_specification]
#[verifier::external_body]
pub struct ExInstant(Instant);

/// What a `DashMap` of windows holds: each key with its window.
pub uninterp spec fn windows_of(map: DashMap<String, Vec<u64>, RandomState>) -> Map<
    Seq<char>,
    Seq<u64>,
>;

/// Whether a moment still counts at `now`: it is not older than the
/// window. A moment exactly one window old counts; so does one that lies
/// ahead of `now`.
pub open spec fn is_live(stamp: u64, now: u64) -> bool {
    now - stamp <= WINDOW_NANOS
}

/// The moments of a window that still count at `now`, in order.
pub open spec fn live(window: Seq<u64>, now: u64) -> Seq<u64> {
    window.filter(|stamp: u64| is_live(stamp, now))
}

/// Whether a request is admitted at `now`: fewer than `limit` moments of
/// the window still count.
pub open spec fn admitted(window: Seq<u64>, now: u64, limit: u32) -> bool {
    live(window, now).len() < limit
}

/// The window after a check at `now`: what still counts, and `now` itself
/// where the request was admitted.
pub open spec fn window_after(window: Seq<u64>, now: u64, limit: u32) -> Seq<u64> {
    if admitted(window, now, limit) {
        live(window, now).push(now)
    } else {
        live(window, now)
    }
}

/// The window of a key; empty where the key has none yet.
pub open spec fn window_at(windows: Map<Seq<char>, Seq<u64>>, key: Seq<char>) -> Seq<u64> {
    if windows.dom().contains(key) {
        windows[key]
    } else {
        Seq::empty()
    }
}

/// Whether a check of `key` at `now` admits the request.
pub open spec fn allows(
    windows: Map<Seq<char>, Seq<u64>>,
    key: Seq<char>,
    now: u64,
    limit: u32,
) -> bool {
    admitted(window_at(windows, key), now, limit)
}

/// The windows after a check of `key` at `now`.
pub open spec fn checked(
    windows: Map<Seq<char>, Seq<u64>>,
    key: Seq<char>,
    now: u64,
    limit: u32,
) -> Map<Seq<char>, Seq<u64>> {
    windows.insert(key, window_after(window_at(windows, key), now, limit))
}

/// The windows after a sweep at `now`: every window keeps what still
/// counts, and a key whose window is left empty is gone.
pub open spec fn swept(windows: Map<Seq<char>, Seq<u64>>, now: u64) -> Map<Seq<char>, Seq<u64>> {
    Map::new(
        |key: Seq<char>| windows.dom().contains(key) && live(windows[key], now).len() > 0,
        |key: Seq<char>| live(windows[key], now),
    )
}

/// No window at all.
pub open spec fn no_windows() -> Map<Seq<char>, Seq<u64>> {
    Map::empty()
}

/// Calls `DashMap::new`: the new map holds nothing.
#[verifier::external_body]
fn fresh_windows() -> (map: DashMap<String, Vec<u64>, RandomState>)
    ensures
        windows_of(map) == no_windows(),
{
    DashMap::new()
}

/// Calls `DashMap::get` and copies the value out: the window under the key,
/// or nothing where the map does not hold the key.
#[verifier::external_body]
fn window_of(map: &DashMap<String, Vec<u64>, RandomState>, key: &str) -> (window: Option<Vec<u64>>)
    ensures
        match window {
            Some(stamps) => windows_of(*map).dom().contains(key@) && stamps@ == windows_of(
                *map,
            )[key@],
            None => !windows_of(*map).dom().contains(key@),
        },
{
    map.get(key).map(|held| held.value().clone())
}

/// Calls `DashMap::insert`: afterwards the key maps to the given window, and
/// every other key to what it mapped to before.
#[verifier::external_body]
fn store_window(map: &mut DashMap<String, Vec<u64>, RandomState>, key: &str, window: Vec<u64>)
    ensures
        windows_of(*final(map)) == windows_of(*old(map)).insert(key@, window@),
{
    map.insert(key.to_owned(), window);
}

/// Calls `DashMap::retain` with [`keep_live`]: every window is cut down to
/// what still counts at `now`, and exactly the keys whose window is left
/// empty are removed.
#[verifier::external_body]
fn sweep_windows(map: &mut DashMap<String, Vec<u64>, RandomState>, now: u64)
    ensures
        windows_of(*final(map)) == swept(windows_of(*old(map)), now),
{
    map.retain(|_, window| keep_live(window, now));
}

/// Calls `DashMap::len`: the number of keys.
#[verifier::external_body]
fn count_windows(map: &DashMap<String, Vec<u64>, RandomState>) -> (count: usize)
    ensures
        count == windows_of(*map).dom().len(),
{
    map.len()
}

/// Calls `Instant::now`. Nothing is known of the moment it returns.
#[verifier::external_body]
fn clock_start() -> Instant {
    Instant::now()
}

/// Calls `Instant::elapsed`. Nothing is known of the time it returns.
#[verifier::external_body]
fn elapsed_since(start: &Instant) -> Duration {
    start.elapsed()
}

/// Calls `Duration::as_nanos`. Nothing is claimed of the number.
#[verifier::external_body]
fn whole_nanos(span: &Duration) -> u128 {
    span.as_nanos()
}

/// Filtering keeps a prefix in step: the filter of a sequence with one more
/// item is the filter of the sequence, with the item where it passes.
pub proof fn lemma_live_push(window: Seq<u64>, stamp: u64, now: u64)
    ensures
        live(window.push(stamp), now) == if is_live(stamp, now) {
            live(window, now).push(stamp)
        } else {
            live(window, now)
        },
{
    reveal(Seq::filter);
    assert(window.push(stamp).drop_last() =~= window);
}

/// Cuts a window down to what still counts at `now`.
pub fn prune_window(window: &mut Vec<u64>, now: u64)
    ensures
        final(window)@ == live(old(window)@, now),
{
    let mut kept: Vec<u64> = Vec::new();
    let mut i: usize = 0;
    proof {
        reveal(Seq::filter);
        assert(window@.take(0) =~= Seq::<u64>::empty());
    }
    while i < window.len()
        invariant
            i <= window.len(),
            kept@ == live(window@.take(i as int), now),
        decreases window.len() - i,
    {
        let stamp = window[i];
        proof {
            lemma_live_push(window@.take(i as int), stamp, now);
            assert(window@.take(i + 1) =~= window@.take(i as int).push(stamp));
        }
        if now < stamp || now - stamp <= WINDOW_NANOS {
            kept.push(stamp);
        }
        i += 1;
    }
    assert(window@.take(window.len() as int) =~= window@);
    *window = kept;
}

/// Cuts a window down to what still counts at `now` and says whether
/// anything is left.
pub fn keep_live(window: &mut Vec<u64>, now: u64) -> (kept: bool)
    ensures
        final(window)@ == live(old(window)@, now),
        kept == (live(old(window)@, now).len() > 0),
{
    prune_window(window, now);
    window.len() > 0
}

/// The window of a key after a run of checks at the given times, starting
/// from nothing.
pub open spec fn window_after_checks(times: Seq<u64>, limit: u32) -> Seq<u64>
    decreases times.len(),
{
    if times.len() == 0 {
        Seq::empty()
    } else {
        window_after(window_after_checks(times.drop_last(), limit), times.last(), limit)
    }
}

/// Whether the check number `i` of such a run admits its request.
pub open spec fn check_admitted(times: Seq<u64>, limit: u32, i: int) -> bool {
    admitted(window_after_checks(times.take(i), limit), times[i], limit)
}

/// Whether all the times lie within one window of each other: no two are
/// further apart than the window is long.
pub open spec fn within_one_window(times: Seq<u64>) -> bool {
    forall|i: int, j: int|
        0 <= i < times.len() && 0 <= j < times.len() ==> #[trigger] times[j] - #[trigger] times[i]
            <= WINDOW_NANOS
}

/// A window whose moments all still count is left as it is.
pub proof fn lemma_all_live(window: Seq<u64>, now: u64)
    requires
        forall|i: int| 0 <= i < window.len() ==> is_live(#[trigger] window[i], now),
    ensures
        live(window, now) == window,
    decreases window.len(),
{
    reveal(Seq::filter);
    if window.len() > 0 {
        let front = window.drop_last();
        assert forall|i: int| 0 <= i < front.len() implies is_live(#[trigger] front[i], now) by {
            assert(front[i] == window[i]);
        }
        lemma_all_live(front, now);
        assert(is_live(window.last(), now));
        assert(front.push(window.last()) =~= window);
    }
}

/// A window none of whose moments still counts is left empty.
pub proof fn lemma_none_live(window: Seq<u64>, now: u64)
    requires
        forall|i: int| 0 <= i < window.len() ==> !is_live(#[trigger] window[i], now),
    ensures
        live(window, now) == Seq::<u64>::empty(),
    decreases window.len(),
{
    reveal(Seq::filter);
    if window.len() > 0 {
        let front = window.drop_last();
        assert forall|i: int| 0 <= i < front.len() implies !is_live(#[trigger] front[i], now) by {
            assert(front[i] == window[i]);
        }
        lemma_none_live(front, now);
        assert(!is_live(window.last(), now));
    }
}

/// Within one window, the window of a key after a run of checks holds the
/// times of the first `limit` checks and nothing else.
pub proof fn lemma_window_after_checks(times: Seq<u64>, limit: u32)
    requires
        within_one_window(times),
    ensures
        window_after_checks(times, limit) == if times.len() <= limit {
            times
        } else {
            times.take(limit as int)
        },
    decreases times.len(),
{
    if times.len() > 0 {
        let front = times.drop_last();
        let now = times.last();
        assert forall|i: int, j: int| 0 <= i < front.len() && 0 <= j < front.len() implies #[trigger] front[j]
            - #[trigger] front[i] <= WINDOW_NANOS by {
            assert(front[i] == times[i]);
            assert(front[j] == times[j]);
            assert(times[j] - times[i] <= WINDOW_NANOS);
        }
        lemma_window_after_checks(front, limit);
        let before = window_after_checks(front, limit);
        assert forall|i: int| 0 <= i < before.len() implies is_live(#[trigger] before[i], now) by {
            assert(before[i] == times[i]);
            assert(times[times.len() - 1] - times[i] <= WINDOW_NANOS);
        }
        lemma_all_live(before, now);
        if front.len() < limit {
            assert(front.push(now) =~= times);
        } else {
            assert(front.take(limit as int) =~= times.take(limit as int));
        }
    }
}

/// Of a run of checks of one key that lie within one window of each other,
/// starting from nothing, exactly the first `limit` are admitted.
pub proof fn lemma_exactly_limit_admitted(times: Seq<u64>, limit: u32, i: int)
    requires
        within_one_window(times),
        0 <= i < times.len(),
    ensures
        check_admitted(times, limit, i) == (i < limit),
{
    let earlier = times.take(i);
    assert forall|a: int, b: int| 0 <= a < earlier.len() && 0 <= b < earlier.len() implies #[trigger] earlier[b]
        - #[trigger] earlier[a] <= WINDOW_NANOS by {
        assert(earlier[a] == times[a]);
        assert(earlier[b] == times[b]);
        assert(times[b] - times[a] <= WINDOW_NANOS);
    }
    lemma_window_after_checks(earlier, limit);
    let before = window_after_checks(earlier, limit);
    assert forall|k: int| 0 <= k < before.len() implies is_live(#[trigger] before[k], times[i]) by {
        assert(before[k] == times[k]);
        assert(times[i] - times[k] <= WINDOW_NANOS);
    }
    lemma_all_live(before, times[i]);
}

/// A check leaves its key with the window after the check.
pub proof fn lemma_checked_key(
    windows: Map<Seq<char>, Seq<u64>>,
    key: Seq<char>,
    now: u64,
    limit: u32,
)
    ensures
        checked(windows, key, now, limit).dom().contains(key),
        window_at(checked(windows, key, now, limit), key) == window_after(
            window_at(windows, key),
            now,
            limit,
        ),
{
}

/// A check of one key leaves every other key as it was.
pub proof fn lemma_other_keys_untouched(
    windows: Map<Seq<char>, Seq<u64>>,
    key: Seq<char>,
    other: Seq<char>,
    now: u64,
    limit: u32,
)
    requires
        other != key,
    ensures
        checked(windows, key, now, limit).dom().contains(other) == windows.dom().contains(other),
        window_at(checked(windows, key, now, limit), other) == window_at(windows, other),
        forall|later: u64, cap: u32|
            allows(checked(windows, key, now, limit), other, later, cap) == allows(
                windows,
                other,
                later,
                cap,
            ),
{
}

/// Once every moment of a key's window is older than the window is long, a
/// check admits its request again, whatever was refused before, provided
/// the limit admits anything at all.
pub proof fn lemma_admitted_after_aging_out(
    windows: Map<Seq<char>, Seq<u64>>,
    key: Seq<char>,
    now: u64,
    limit: u32,
)
    requires
        limit > 0,
        forall|i: int|
            0 <= i < window_at(windows, key).len() ==> now - #[trigger] window_at(windows, key)[i]
                > WINDOW_NANOS,
    ensures
        allows(windows, key, now, limit),
        window_at(checked(windows, key, now, limit), key) == seq![now],
{
    lemma_none_live(window_at(windows, key), now);
    assert(Seq::<u64>::empty().push(now) =~= seq![now]);
}

/// A check never leaves more than `limit` moments that count in a window
/// that held no more than `limit` of them.
pub proof fn lemma_window_stays_within_limit(window: Seq<u64>, now: u64, limit: u32)
    ensures
        live(window, now).len() <= limit ==> window_after(window, now, limit).len() <= limit,
        live(window_after(window, now, limit), now) == window_after(window, now, limit),
{
    let kept = live(window, now);
    assert forall|i: int| 0 <= i < kept.len() implies is_live(#[trigger] kept[i], now) by {
        window.lemma_filter_pred(|stamp: u64| is_live(stamp, now), i);
    }
    let after = window_after(window, now, limit);
    assert forall|i: int| 0 <= i < after.len() implies is_live(#[trigger] after[i], now) by {
        if i < kept.len() {
            assert(after[i] == kept[i]);
        }
    }
    lemma_all_live(after, now);
}

/// The window of a key after a run of checks at the given times, starting
/// from the given window.
pub open spec fn window_after_run(window: Seq<u64>, times: Seq<u64>, limit: u32) -> Seq<u64>
    decreases times.len(),
{
    if times.len() == 0 {
        window
    } else {
        window_after(window_after_run(window, times.drop_last(), limit), times.last(), limit)
    }
}

/// How many checks of such a run admit their request.
pub open spec fn admissions(window: Seq<u64>, times: Seq<u64>, limit: u32) -> nat
    decreases times.len(),
{
    if times.len() == 0 {
        0
    } else {
        let earlier = admissions(window, times.drop_last(), limit);
        if admitted(window_after_run(window, times.drop_last(), limit), times.last(), limit) {
            earlier + 1
        } else {
            earlier
        }
    }
}

/// The moments of a window that count at every time from one window before
/// `latest` up to `latest`.
pub open spec fn lasting(window: Seq<u64>, latest: u64) -> Seq<u64> {
    window.filter(|stamp: u64| stamp + WINDOW_NANOS >= latest)
}

/// Filtering by a narrower test after a wider one is filtering by the
/// narrower one.
pub proof fn lemma_filter_twice<A>(items: Seq<A>, narrow: spec_fn(A) -> bool, wide: spec_fn(A) -> bool)
    requires
        forall|item: A| #[trigger] narrow(item) ==> wide(item),
    ensures
        items.filter(wide).filter(narrow) == items.filter(narrow),
        items.filter(narrow).len() <= items.filter(wide).len(),
    decreases items.len(),
{
    reveal(Seq::filter);
    if items.len() > 0 {
        let front = items.drop_last();
        let last = items.last();
        lemma_filter_twice(front, narrow, wide);
        if wide(last) {
            assert(front.filter(wide).push(last).drop_last() =~= front.filter(wide));
        }
    }
}

/// What lasts through an interval is untouched by a check within it, and a
/// check that admits its request adds one moment that lasts.
pub proof fn lemma_check_keeps_what_lasts(window: Seq<u64>, now: u64, limit: u32, latest: u64)
    requires
        now <= latest,
        latest - now <= WINDOW_NANOS,
    ensures
        lasting(window_after(window, now, limit), latest).len() == lasting(window, latest).len()
            + if admitted(window, now, limit) {
            1nat
        } else {
            0nat
        },
        lasting(window_after(window, now, limit), latest).len() <= if admitted(window, now, limit) {
            limit as nat
        } else {
            lasting(window, latest).len()
        },
{
    let narrow = |stamp: u64| stamp + WINDOW_NANOS >= latest;
    let wide = |stamp: u64| is_live(stamp, now);
    lemma_filter_twice(window, narrow, wide);
    let kept = live(window, now);
    assert(lasting(kept, latest) == lasting(window, latest));
    if admitted(window, now, limit) {
        reveal(Seq::filter);
        assert(kept.push(now).drop_last() =~= kept);
        assert(narrow(now));
        assert(lasting(kept.push(now), latest) == lasting(kept, latest).push(now));
    }
}

/// However a window starts out, a run of checks of one key that lie within
/// one window of time admits at most `limit` requests. The times need not
/// come in order; `latest` is no earlier than any of them and no later than
/// a window after each.
pub proof fn lemma_at_most_limit_admitted(
    window: Seq<u64>,
    times: Seq<u64>,
    limit: u32,
    latest: u64,
)
    requires
        forall|i: int|
            0 <= i < times.len() ==> #[trigger] times[i] <= latest && latest - times[i]
                <= WINDOW_NANOS,
    ensures
        admissions(window, times, limit) <= limit,
        admissions(window, times, limit) <= lasting(
            window_after_run(window, times, limit),
            latest,
        ).len(),
    decreases times.len(),
{
    if times.len() > 0 {
        let front = times.drop_last();
        assert forall|i: int| 0 <= i < front.len() implies #[trigger] front[i] <= latest && latest
            - front[i] <= WINDOW_NANOS by {
            assert(front[i] == times[i]);
        }
        lemma_at_most_limit_admitted(window, front, limit, latest);
        assert(times.last() == times[times.len() - 1]);
        lemma_check_keeps_what_lasts(
            window_after_run(window, front, limit),
            times.last(),
            limit,
            latest,
        );
    }
}

/// Admission control by key: at most `limit` requests per key in any
/// window of 60 seconds.
pub struct RateLimiter {
    requests: DashMap<String, Vec<u64>, RandomState>,
    started: Instant,
}

impl View for RateLimiter {
    type V = Map<Seq<char>, Seq<u64>>;

    closed spec fn view(&self) -> Map<Seq<char>, Seq<u64>> {
        windows_of(self.requests)
    }
}

/// A sweep of finitely many windows leaves finitely many.
pub proof fn lemma_swept_finite(windows: Map<Seq<char>, Seq<u64>>, now: u64)
    requires
        windows.dom().finite(),
    ensures
        swept(windows, now).dom().finite(),
{
    vstd::set_lib::lemma_len_subset(swept(windows, now).dom(), windows.dom());
}

impl RateLimiter {
    /// A limiter that has seen no request.
    pub fn new() -> (limiter: Self)
        ensures
            limiter@ == no_windows(),
    {
        RateLimiter { requests: fresh_windows(), started: clock_start() }
    }

    /// The time on the limiter's clock, in nanoseconds since it was made.
    pub fn now(&self) -> u64 {
        let span = elapsed_since(&self.started);
        let nanos: u128 = whole_nanos(&span);
        if nanos > u64::MAX as u128 {
            u64::MAX
        } else {
            nanos as u64
        }
    }

    /// Checks a request of `key` at the time `now`: the moments of its
    /// window that no longer count are dropped, and the request is admitted,
    /// and recorded, exactly if fewer than `limit` are left.
    pub fn check_rate_limit_at(&mut self, key: &str, limit: u32, now: u64) -> (allowed: bool)
        ensures
            allowed == allows(old(self)@, key@, now, limit),
            final(self)@ == checked(old(self)@, key@, now, limit),
    {
        let mut window = match window_of(&self.requests, key) {
            Some(stamps) => stamps,
            None => Vec::new(),
        };
        prune_window(&mut window, now);
        let allowed = window.len() < limit as usize;
        if allowed {
            window.push(now);
        }
        store_window(&mut self.requests, key, window);
        allowed
    }

    /// Checks a request of `key` at the present time.
    pub fn check_rate_limit(&mut self, key: &str, limit: u32) -> (allowed: bool)
        ensures
            exists|now: u64|
                allowed == #[trigger] allows(old(self)@, key@, now, limit) && final(self)@
                    == checked(old(self)@, key@, now, limit),
    {
        let now = self.now();
        self.check_rate_limit_at(key, limit, now)
    }

    /// Sweeps the windows at the time `now`.
    pub fn cleanup_at(&mut self, now: u64)
        ensures
            final(self)@ == swept(old(self)@, now),
    {
        sweep_windows(&mut self.requests, now);
    }

    /// Sweeps the windows at the present time.
    pub fn cleanup(&mut self)
        ensures
            exists|now: u64| final(self)@ == #[trigger] swept(old(self)@, now),
    {
        let now = self.now();
        self.cleanup_at(now);
    }

    /// How many keys have a window.
    pub fn tracked_keys(&self) -> (count: usize)
        ensures
            count == self@.dom().len(),
    {
        count_windows(&self.requests)
    }
}

} // verus!
