//! Sliding-window aggregates over parsed records.

use vstd::prelude::*;
use crate::json::{lookup_text, Fields};
use crate::keyed::{distinct_keys, lemma_map_at, lemma_map_values, KeyedList};
use crate::number::{is_number_text, spells_number};
use crate::parser::{Level, ParsedLog, ParsedLogView};
use crate::time::Timestamp;

verus! {

/// Counters and series over the records of the last `window_size` seconds.
#[derive(Debug)]
pub struct LogAnalytics {
    window_size: i64,
    error_counts: KeyedList<usize>,
    user_activity: KeyedList<Vec<Timestamp>>,
    resource_usage: KeyedList<Vec<Timestamp>>,
    window_start: Timestamp,
}

/// What a `LogAnalytics` stands for.
pub struct AnalyticsView {
    /// The length of the window in seconds.
    pub window_size: int,
    /// Where the window began when it was last moved.
    pub window_start: Timestamp,
    /// How often each kind of error was seen.
    pub error_counts: Map<Seq<char>, usize>,
    /// When each user was seen, oldest first.
    pub user_activity: Map<Seq<char>, Seq<Timestamp>>,
    /// When each resource reading was taken, oldest first. A reading's
    /// value is the number that its key spells.
    pub resource_usage: Map<Seq<char>, Seq<Timestamp>>,
}

/// The instants of `series` that do not lie before `start`, in order.
pub open spec fn retained(series: Seq<Timestamp>, start: Timestamp) -> Seq<Timestamp> {
    series.filter(|t: Timestamp| !t.before(start))
}

/// The function that keeps of a series what does not lie before `start`.
pub open spec fn retain_from(start: Timestamp) -> spec_fn(Seq<Timestamp>) -> Seq<Timestamp> {
    |s: Seq<Timestamp>| retained(s, start)
}

/// Where the window of `window_size` seconds that ends at `now` begins.
pub open spec fn window_start_at(now: Timestamp, window_size: int) -> Timestamp {
    Timestamp { secs: (now.secs - window_size) as i64, nanos: now.nanos }
}

/// The count under `key`, 0 where there is none.
pub open spec fn count_of(counts: Map<Seq<char>, usize>, key: Seq<char>) -> int {
    if counts.dom().contains(key) {
        counts[key] as int
    } else {
        0
    }
}

/// The series under `key`, empty where there is none.
pub open spec fn series_of(all: Map<Seq<char>, Seq<Timestamp>>, key: Seq<char>) -> Seq<Timestamp> {
    if all.dom().contains(key) {
        all[key]
    } else {
        Seq::empty()
    }
}

/// `all` with `stamp` added to the series under `key`, where there is a key.
pub open spec fn noted(
    all: Map<Seq<char>, Seq<Timestamp>>,
    key: Option<Seq<char>>,
    stamp: Timestamp,
) -> Map<Seq<char>, Seq<Timestamp>> {
    match key {
        Some(k) => all.insert(k, series_of(all, k).push(stamp)),
        None => all,
    }
}

/// The kind of error that a record reports: the string of its field
/// `error_type`, else `unknown`.
pub open spec fn error_type_of(metadata: Fields) -> Seq<char> {
    match lookup_text(metadata, "error_type"@) {
        Some(s) => s,
        None => "unknown"@,
    }
}

impl AnalyticsView {
    /// The state after the window was moved to end at `now`: the window
    /// begins `window_size` seconds before `now`, and every series keeps
    /// what does not lie before that.
    pub open spec fn pruned(self, now: Timestamp) -> AnalyticsView {
        let start = window_start_at(now, self.window_size);
        AnalyticsView {
            window_start: start,
            user_activity: self.user_activity.map_values(retain_from(start)),
            resource_usage: self.resource_usage.map_values(retain_from(start)),
            ..self
        }
    }

    /// The state after `log` was processed at `now`: the window is moved
    /// first; an error is counted under its kind; the record's instant,
    /// else `now`, is noted for its user and for its resource reading.
    pub open spec fn processed(self, log: ParsedLogView, now: Timestamp) -> AnalyticsView {
        let p = self.pruned(now);
        let stamp = match log.timestamp {
            Some(t) => t,
            None => now,
        };
        let kind = error_type_of(log.metadata);
        AnalyticsView {
            error_counts: if log.level == Some(Level::Error) {
                p.error_counts.insert(kind, (count_of(p.error_counts, kind) + 1) as usize)
            } else {
                p.error_counts
            },
            user_activity: noted(p.user_activity, lookup_text(log.metadata, "userid"@), stamp),
            resource_usage: noted(p.resource_usage, lookup_text(log.metadata, "cpu_usage"@), stamp),
            ..p
        }
    }

    /// Whether a record can be processed: the window has a length, a
    /// resource reading spells a number, and an error can still be counted.
    pub open spec fn ready_for(self, log: ParsedLogView) -> bool {
        &&& 0 <= self.window_size
        &&& match lookup_text(log.metadata, "cpu_usage"@) {
            Some(v) => is_number_text(v),
            None => true,
        }
        &&& log.level == Some(Level::Error) ==> count_of(
            self.error_counts,
            error_type_of(log.metadata),
        ) < usize::MAX
    }

    /// Whether every retained instant of user activity and of resource
    /// usage is at or after where the window begins.
    pub open spec fn within_window(self) -> bool {
        none_before(self.user_activity, self.window_start) && none_before(
            self.resource_usage,
            self.window_start,
        )
    }

    /// The users that have some retained activity.
    pub open spec fn active_users(self) -> Set<Seq<char>> {
        Set::new(
            |u: Seq<char>| self.user_activity.dom().contains(u) && self.user_activity[u].len() > 0,
        )
    }
}

/// Whether every count of `counts` is above zero.
pub open spec fn all_positive(counts: Map<Seq<char>, usize>) -> bool {
    forall|key: Seq<char>| counts.dom().contains(key) ==> #[trigger] counts[key] > 0
}

/// No kind of error is held with a count of zero: analytics begin without
/// counts, and processing a record keeps every count above zero.
pub proof fn lemma_counts_stay_positive(state: AnalyticsView, log: ParsedLogView, now: Timestamp)
    requires
        all_positive(state.error_counts),
        state.ready_for(log),
    ensures
        all_positive(Map::<Seq<char>, usize>::empty()),
        all_positive(state.processed(log, now).error_counts),
{
}

/// Whether no instant of any series of `all` lies before `start`.
pub open spec fn none_before(all: Map<Seq<char>, Seq<Timestamp>>, start: Timestamp) -> bool {
    forall|key: Seq<char>, i: int|
        all.dom().contains(key) && 0 <= i < all[key].len() ==> !(#[trigger] all[key][i]).before(
            start,
        )
}

/// Moving the window leaves no instant before where the window begins,
/// and sets that place to `window_size` seconds before `now`.
pub proof fn lemma_pruned_window(state: AnalyticsView, now: Timestamp)
    ensures
        state.pruned(now).window_start == window_start_at(now, state.window_size),
        none_before(state.pruned(now).user_activity, state.pruned(now).window_start),
        none_before(state.pruned(now).resource_usage, state.pruned(now).window_start),
{
    let start = window_start_at(now, state.window_size);
    assert forall|key: Seq<char>, i: int|
        state.user_activity.dom().contains(key) && 0 <= i < retained(
            state.user_activity[key],
            start,
        ).len() implies !(#[trigger] retained(state.user_activity[key], start)[i]).before(
        start,
    ) by {
        state.user_activity[key].lemma_filter_pred(|t: Timestamp| !t.before(start), i);
    }
    assert forall|key: Seq<char>, i: int|
        state.resource_usage.dom().contains(key) && 0 <= i < retained(
            state.resource_usage[key],
            start,
        ).len() implies !(#[trigger] retained(state.resource_usage[key], start)[i]).before(
        start,
    ) by {
        state.resource_usage[key].lemma_filter_pred(|t: Timestamp| !t.before(start), i);
    }
}

/// Noting an instant that does not lie before `start` keeps every series
/// clear of instants before `start`.
pub proof fn lemma_noted_window(
    all: Map<Seq<char>, Seq<Timestamp>>,
    key: Option<Seq<char>>,
    stamp: Timestamp,
    start: Timestamp,
)
    requires
        none_before(all, start),
        !stamp.before(start),
    ensures
        none_before(noted(all, key, stamp), start),
{
    let after = noted(all, key, stamp);
    assert forall|k: Seq<char>, i: int|
        after.dom().contains(k) && 0 <= i < after[k].len() implies !(#[trigger] after[k][i]).before(
        start,
    ) by {
        if key == Some(k) {
            if i < series_of(all, k).len() {
                assert(after[k][i] == all[k][i]);
            }
        } else {
            assert(after[k][i] == all[k][i]);
        }
    }
}

/// The window invariant: after a record is processed at `now`, every
/// retained instant of user activity and of resource usage is at or after
/// `now` less the window's length. This holds for a window with a length
/// and a record whose own instant, where it has one, does not lie before
/// the window.
pub proof fn lemma_window_invariant(state: AnalyticsView, log: ParsedLogView, now: Timestamp)
    requires
        0 <= state.window_size,
        i64::MIN <= now.secs - state.window_size,
        log.timestamp matches Some(t) ==> !t.before(window_start_at(now, state.window_size)),
    ensures
        state.processed(log, now).window_start == window_start_at(now, state.window_size),
        none_before(
            state.processed(log, now).user_activity,
            window_start_at(now, state.window_size),
        ),
        none_before(
            state.processed(log, now).resource_usage,
            window_start_at(now, state.window_size),
        ),
{
    let start = window_start_at(now, state.window_size);
    let p = state.pruned(now);
    lemma_pruned_window(state, now);
    let stamp = match log.timestamp {
        Some(t) => t,
        None => now,
    };
    assert(!now.before(start));
    lemma_noted_window(p.user_activity, lookup_text(log.metadata, "userid"@), stamp, start);
    lemma_noted_window(p.resource_usage, lookup_text(log.metadata, "cpu_usage"@), stamp, start);
}

impl View for LogAnalytics {
    type V = AnalyticsView;

    closed spec fn view(&self) -> AnalyticsView {
        AnalyticsView {
            window_size: self.window_size as int,
            window_start: self.window_start,
            error_counts: self.error_counts.map(),
            user_activity: self.user_activity.map(),
            resource_usage: self.resource_usage.map(),
        }
    }
}

/// The keys of the first `n` entries that have a series with something in
/// it.
pub open spec fn active_among(entries: Seq<(String, Vec<Timestamp>)>, n: int) -> Set<Seq<char>> {
    Set::new(
        |u: Seq<char>|
            exists|k: int| 0 <= k < n && (#[trigger] entries[k]).0@ == u && entries[k].1@.len() > 0,
    )
}

/// The place in a sorted series of `len` values at which the value of
/// `percent` per cent stands: `len * percent / 100`, rounded down.
pub open spec fn percentile_place(len: int, percent: int) -> int {
    (len * percent) / 100
}

/// The place in a sorted series of `len` values at which the value of
/// `percent` per cent stands.
pub fn percentile_index(len: usize, percent: u8) -> (place: usize)
    requires
        0 < len,
        percent < 100,
    ensures
        place == percentile_place(len as int, percent as int),
        place < len,
{
    let hundreds: usize = len / 100;
    let rest: usize = len % 100;
    let p: usize = percent as usize;
    assert(hundreds * p <= hundreds * 99 && hundreds * 100 <= len && hundreds * p + 99 <= len
        + 99) by (nonlinear_arith)
        requires
            p <= 99,
            hundreds == len / 100,
    ;
    assert(rest * p <= 99 * 99) by (nonlinear_arith)
        requires
            rest <= 99,
            p <= 99,
    ;
    let place: usize = hundreds * p + (rest * p) / 100;
    assert(place == (len * p) / 100 && place < len) by (nonlinear_arith)
        requires
            len == hundreds * 100 + rest,
            0 <= rest < 100,
            0 <= p < 100,
            0 < len,
            place == hundreds * p + (rest * p) / 100,
    ;
    place
}

/// The places in a sorted series of `len` response times at which the
/// values of 50, 90 and 99 per cent stand; `None` for an empty series.
pub fn percentile_indices(len: usize) -> (places: Option<(usize, usize, usize)>)
    ensures
        match places {
            Some((p50, p90, p99)) => len > 0 && p50 == percentile_place(len as int, 50) && p90
                == percentile_place(len as int, 90) && p99 == percentile_place(len as int, 99)
                && p50 < len && p90 < len && p99 < len,
            None => len == 0,
        },
{
    if len == 0 {
        None
    } else {
        Some((percentile_index(len, 50), percentile_index(len, 90), percentile_index(len, 99)))
    }
}

/// The instants of `series` that do not lie before `start`.
fn retain_series(series: &Vec<Timestamp>, start: Timestamp) -> (kept: Vec<Timestamp>)
    ensures
        kept@ == retained(series@, start),
{
    let ghost keep = |t: Timestamp| !t.before(start);
    let mut kept: Vec<Timestamp> = Vec::new();
    let mut i: usize = 0;
    proof {
        reveal(Seq::filter);
        assert(series@.take(0).filter(keep) == Seq::<Timestamp>::empty());
    }
    while i < series.len()
        invariant
            i <= series.len(),
            keep == |t: Timestamp| !t.before(start),
            kept@ == series@.take(i as int).filter(keep),
        decreases series.len() - i,
    {
        proof {
            reveal(Seq::filter);
            assert(series@.take(i + 1).drop_last() == series@.take(i as int));
        }
        let t = series[i];
        if !t.is_before(&start) {
            kept.push(t);
        }
        i += 1;
    }
    assert(series@.take(i as int) == series@);
    kept
}

/// Keeps of every series of `all` what does not lie before `start`.
fn prune_all(all: &mut KeyedList<Vec<Timestamp>>, start: Timestamp)
    ensures
        final(all).map() == old(all).map().map_values(retain_from(start)),
{
    let n = all.len();
    let mut i: usize = 0;
    while i < n
        invariant
            i <= n,
            n == old(all).entries().len(),
            all.entries().len() == n,
            distinct_keys(old(all).entries()),
            forall|k: int|
                0 <= k < i ==> (#[trigger] all.entries()[k]).0@ == old(all).entries()[k].0@
                    && all.entries()[k].1@ == retained(old(all).entries()[k].1@, start),
            forall|k: int| i <= k < n ==> #[trigger] all.entries()[k] == old(all).entries()[k],
        decreases n - i,
    {
        let kept = retain_series(all.value_at(i), start);
        all.replace_at(i, kept);
        i += 1;
    }
    proof {
        lemma_map_values(old(all).entries(), all.entries(), retain_from(start));
    }
}

/// Adds `stamp` to the series under `key`.
fn note(all: &mut KeyedList<Vec<Timestamp>>, key: &String, stamp: Timestamp)
    ensures
        final(all).map() == noted(old(all).map(), Some(key@), stamp),
{
    match all.position(key) {
        Some(i) => {
            let mut series = all.exchange_at(i, Vec::new());
            series.push(stamp);
            let ghost between = all.map();
            all.replace_at(i, series);
            assert(all.map() =~= old(all).map().insert(key@, series@));
        },
        None => {
            let mut series: Vec<Timestamp> = Vec::new();
            series.push(stamp);
            assert(series@ =~= Seq::<Timestamp>::empty().push(stamp));
            all.push(key.clone(), series);
        },
    }
}

impl LogAnalytics {
    /// Analytics over a window of `window_size` seconds that begins at
    /// `now`, with nothing seen yet.
    pub fn new_at(window_size: i64, now: Timestamp) -> (analytics: LogAnalytics)
        ensures
            analytics@ == (AnalyticsView {
                window_size: window_size as int,
                window_start: now,
                error_counts: Map::empty(),
                user_activity: Map::empty(),
                resource_usage: Map::empty(),
            }),
    {
        LogAnalytics {
            window_size,
            error_counts: KeyedList::new(),
            user_activity: KeyedList::new(),
            resource_usage: KeyedList::new(),
            window_start: now,
        }
    }

    /// Analytics over a window of `window_size` seconds that begins at the
    /// current time, with nothing seen yet.
    pub fn new(window_size: i64) -> (analytics: LogAnalytics)
        ensures
            analytics@ == (AnalyticsView {
                window_size: window_size as int,
                window_start: analytics@.window_start,
                error_counts: Map::empty(),
                user_activity: Map::empty(),
                resource_usage: Map::empty(),
            }),
            analytics@.window_start.secs >= 0,
    {
        let now = Timestamp::now();
        LogAnalytics::new_at(window_size, now)
    }

    /// Moves the window to end at `now` and drops what lies before it.
    pub fn prune_old_data_at(&mut self, now: Timestamp)
        requires
            0 <= old(self)@.window_size,
            i64::MIN <= now.secs - old(self)@.window_size,
        ensures
            final(self)@ == old(self)@.pruned(now),
            final(self)@.window_start == window_start_at(now, old(self)@.window_size),
            final(self)@.within_window(),
    {
        proof {
            lemma_pruned_window(self@, now);
        }
        let start = Timestamp { secs: now.secs - self.window_size, nanos: now.nanos };
        self.window_start = start;
        prune_all(&mut self.user_activity, start);
        prune_all(&mut self.resource_usage, start);
    }

    /// Whether `log` can be processed: see `AnalyticsView::ready_for`.
    pub fn accepts(&self, log: &ParsedLog) -> (b: bool)
        ensures
            b == self@.ready_for(log@),
    {
        if self.window_size < 0 {
            return false;
        }
        let cpu_key = "cpu_usage".to_owned();
        let numeric = match log.metadata.get_text(&cpu_key) {
            Some(v) => spells_number(v.as_str()),
            None => true,
        };
        if !numeric {
            return false;
        }
        match log.level {
            Some(Level::Error) => {
                let kind = LogAnalytics::error_type(log);
                match self.error_counts.position(&kind) {
                    Some(i) => *self.error_counts.value_at(i) < usize::MAX,
                    None => true,
                }
            },
            _ => true,
        }
    }

    /// The kind of error that `log` reports.
    pub fn error_type(log: &ParsedLog) -> (kind: String)
        ensures
            kind@ == error_type_of(log@.metadata),
    {
        let key = "error_type".to_owned();
        match log.metadata.get_text(&key) {
            Some(s) => s.clone(),
            None => "unknown".to_owned(),
        }
    }

    /// Processes `log` at the instant `now`: moves the window, counts an
    /// error under its kind, and notes the record's instant for its user
    /// and for its resource reading. Where the record's own instant does
    /// not lie before the window, every retained instant is within the
    /// window afterwards.
    pub fn process_log_at(&mut self, log: ParsedLog, now: Timestamp)
        requires
            old(self)@.ready_for(log@),
            i64::MIN <= now.secs - old(self)@.window_size,
        ensures
            final(self)@ == old(self)@.processed(log@, now),
            final(self)@.window_start == window_start_at(now, old(self)@.window_size),
            (log@.timestamp matches Some(t) ==> !t.before(final(self)@.window_start))
                ==> final(self)@.within_window(),
    {
        proof {
            if log@.timestamp matches Some(t) ==> !t.before(
                window_start_at(now, self@.window_size),
            ) {
                lemma_window_invariant(self@, log@, now);
            }
        }
        self.prune_old_data_at(now);
        let stamp = match log.timestamp {
            Some(t) => t,
            None => now,
        };
        match log.level {
            Some(Level::Error) => {
                let kind = LogAnalytics::error_type(&log);
                match self.error_counts.position(&kind) {
                    Some(i) => {
                        let count = *self.error_counts.value_at(i);
                        self.error_counts.replace_at(i, count + 1);
                    },
                    None => {
                        self.error_counts.push(kind, 1);
                    },
                }
            },
            _ => {},
        }
        let user_key = "userid".to_owned();
        match log.metadata.get_text(&user_key) {
            Some(user) => {
                note(&mut self.user_activity, user, stamp);
            },
            None => {},
        }
        let cpu_key = "cpu_usage".to_owned();
        match log.metadata.get_text(&cpu_key) {
            Some(reading) => {
                note(&mut self.resource_usage, reading, stamp);
            },
            None => {},
        }
    }

    /// Processes `log` at the current time. Where the record's own
    /// instant does not lie before the window, every retained instant is
    /// within the window afterwards.
    pub fn process_log(&mut self, log: ParsedLog)
        requires
            old(self)@.ready_for(log@),
        ensures
            exists|now: Timestamp|
                now.secs >= 0 && #[trigger] old(self)@.processed(log@, now) == final(self)@,
            (log@.timestamp matches Some(t) ==> !t.before(final(self)@.window_start))
                ==> final(self)@.within_window(),
    {
        let now = Timestamp::now();
        self.process_log_at(log, now);
    }

    /// Processes `log` at the current time where it can be processed, and
    /// says whether it was; a record that cannot be leaves the state as it
    /// is.
    pub fn try_process_log(&mut self, log: ParsedLog) -> (done: bool)
        ensures
            done == old(self)@.ready_for(log@),
            !done ==> final(self)@ == old(self)@,
            done ==> exists|now: Timestamp|
                now.secs >= 0 && #[trigger] old(self)@.processed(log@, now) == final(self)@,
            done && (log@.timestamp matches Some(t) ==> !t.before(final(self)@.window_start))
                ==> final(self)@.within_window(),
    {
        if self.accepts(&log) {
            self.process_log(log);
            true
        } else {
            false
        }
    }

    /// The length of the window in seconds.
    pub fn window_size(&self) -> (seconds: i64)
        ensures
            seconds == self@.window_size,
    {
        self.window_size
    }

    /// Where the window began when it was last moved.
    pub fn window_start(&self) -> (start: Timestamp)
        ensures
            start == self@.window_start,
    {
        self.window_start
    }

    /// How often errors of the kind `kind` were seen.
    pub fn error_count(&self, kind: &String) -> (count: usize)
        ensures
            count == count_of(self@.error_counts, kind@),
    {
        match self.error_counts.position(kind) {
            Some(i) => *self.error_counts.value_at(i),
            None => 0,
        }
    }

    /// The retained instants of `user`, oldest first; `None` where the
    /// user was never seen.
    pub fn user_activity(&self, user: &String) -> (series: Option<&Vec<Timestamp>>)
        ensures
            match series {
                Some(s) => self@.user_activity.dom().contains(user@) && self@.user_activity[user@]
                    == s@,
                None => !self@.user_activity.dom().contains(user@),
            },
    {
        match self.user_activity.position(user) {
            Some(i) => Some(self.user_activity.value_at(i)),
            None => None,
        }
    }

    /// The retained instants of the readings for `resource`, oldest first;
    /// `None` where there never was one.
    pub fn resource_usage(&self, resource: &String) -> (series: Option<&Vec<Timestamp>>)
        ensures
            match series {
                Some(s) => self@.resource_usage.dom().contains(resource@)
                    && self@.resource_usage[resource@] == s@,
                None => !self@.resource_usage.dom().contains(resource@),
            },
    {
        match self.resource_usage.position(resource) {
            Some(i) => Some(self.resource_usage.value_at(i)),
            None => None,
        }
    }

    /// How many readings are retained for `resource`; `None` where there
    /// never was one.
    pub fn resource_sample_count(&self, resource: &String) -> (count: Option<usize>)
        ensures
            match count {
                Some(n) => self@.resource_usage.dom().contains(resource@)
                    && self@.resource_usage[resource@].len() == n,
                None => !self@.resource_usage.dom().contains(resource@),
            },
    {
        match self.resource_usage.position(resource) {
            Some(i) => Some(self.resource_usage.value_at(i).len()),
            None => None,
        }
    }

    /// The number of users with some retained activity.
    pub fn get_active_users_count(&self) -> (count: usize)
        ensures
            self@.active_users().finite(),
            count == self@.active_users().len(),
    {
        let n = self.user_activity.len();
        let ghost entries = self.user_activity.entries();
        let mut count: usize = 0;
        let mut i: usize = 0;
        assert(active_among(entries, 0) =~= Set::<Seq<char>>::empty());
        while i < n
            invariant
                i <= n,
                n == entries.len(),
                entries == self.user_activity.entries(),
                distinct_keys(entries),
                count <= i,
                active_among(entries, i as int).finite(),
                count == active_among(entries, i as int).len(),
            decreases n - i,
        {
            let active = self.user_activity.value_at(i).len() > 0;
            proof {
                let key = entries[i as int].0@;
                if active {
                    assert(!active_among(entries, i as int).contains(key));
                    assert(active_among(entries, i + 1) =~= active_among(entries, i as int).insert(
                        key,
                    ));
                } else {
                    assert(active_among(entries, i + 1) =~= active_among(entries, i as int));
                }
            }
            if active {
                count += 1;
            }
            i += 1;
        }
        proof {
            assert forall|u: Seq<char>|
                active_among(entries, n as int).contains(u) <==> self@.active_users().contains(
                    u,
                ) by {
                if active_among(entries, n as int).contains(u) {
                    let k = choose|k: int|
                        0 <= k < n && (#[trigger] entries[k]).0@ == u && entries[k].1@.len() > 0;
                    lemma_map_at(entries, k);
                }
                if self@.active_users().contains(u) {
                    let k = crate::keyed::place_of(entries, u);
                    lemma_map_at(entries, k);
                }
            }
            assert(active_among(entries, n as int) =~= self@.active_users());
        }
        count
    }

    /// Moves the window to end at the current time and drops what lies
    /// before it.
    pub fn prune_old_data(&mut self)
        requires
            0 <= old(self)@.window_size,
        ensures
            exists|now: Timestamp| now.secs >= 0 && #[trigger] old(self)@.pruned(now) == final(self)@,
            final(self)@.within_window(),
    {
        let now = Timestamp::now();
        self.prune_old_data_at(now);
    }
}

} // verus!
