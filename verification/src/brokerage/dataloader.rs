//! The price cache: answers of the data provider are kept on disk and
//! served from there while they are fresh, so that the provider is asked as
//! seldom as possible. Here is what is decided; reading, fetching and
//! writing are done by whoever runs the steps.

use vstd::prelude::*;
use vstd::string::StringExecFns;
use crate::utils::{expand_tilde, expanded, CACHE_INVALIDATE_RATE};

verus! {

/// The spacing of the points of an intraday series.
#[derive(Debug, Clone, Copy, PartialEq, Eq, Structural)]
pub enum IntradayInterval {
    OneMinute,
    FiveMinutes,
    FifteenMinutes,
    ThirtyMinutes,
    SixtyMinutes,
}

impl IntradayInterval {
    /// The name of the interval in cache paths and provider requests.
    pub open spec fn label(self) -> Seq<char> {
        match self {
            IntradayInterval::OneMinute => "1min"@,
            IntradayInterval::FiveMinutes => "5min"@,
            IntradayInterval::FifteenMinutes => "15min"@,
            IntradayInterval::ThirtyMinutes => "30min"@,
            IntradayInterval::SixtyMinutes => "60min"@,
        }
    }

    /// How many minutes lie between two points of the series.
    pub open spec fn minutes(self) -> int {
        match self {
            IntradayInterval::OneMinute => 1,
            IntradayInterval::FiveMinutes => 5,
            IntradayInterval::FifteenMinutes => 15,
            IntradayInterval::ThirtyMinutes => 30,
            IntradayInterval::SixtyMinutes => 60,
        }
    }

    /// The next longer interval, if there is one.
    pub open spec fn longer(self) -> Option<IntradayInterval> {
        match self {
            IntradayInterval::OneMinute => Some(IntradayInterval::FiveMinutes),
            IntradayInterval::FiveMinutes => Some(IntradayInterval::FifteenMinutes),
            IntradayInterval::FifteenMinutes => Some(IntradayInterval::ThirtyMinutes),
            IntradayInterval::ThirtyMinutes => Some(IntradayInterval::SixtyMinutes),
            IntradayInterval::SixtyMinutes => None,
        }
    }

    /// The shortest interval: the one to ask for first.
    pub fn shortest() -> (interval: Self)
        ensures
            forall|other: IntradayInterval| interval.minutes() <= other.minutes(),
    {
        IntradayInterval::OneMinute
    }

    /// The interval to ask for where this one is not to be had: the
    /// shortest of the longer ones, if there is one.
    pub fn next_longer(&self) -> (next: Option<Self>)
        ensures
            next == self.longer(),
            match next {
                Some(interval) => self.minutes() < interval.minutes() && forall|
                    other: IntradayInterval,
                |
                    self.minutes() < other.minutes() ==> interval.minutes() <= other.minutes(),
                None => forall|other: IntradayInterval| other.minutes() <= self.minutes(),
            },
    {
        match self {
            IntradayInterval::OneMinute => Some(IntradayInterval::FiveMinutes),
            IntradayInterval::FiveMinutes => Some(IntradayInterval::FifteenMinutes),
            IntradayInterval::FifteenMinutes => Some(IntradayInterval::ThirtyMinutes),
            IntradayInterval::ThirtyMinutes => Some(IntradayInterval::SixtyMinutes),
            IntradayInterval::SixtyMinutes => None,
        }
    }

    /// The name of the interval in cache paths and provider requests.
    pub fn to_string(&self) -> (text: String)
        ensures
            text@ == self.label(),
    {
        match self {
            IntradayInterval::OneMinute => String::from_str("1min"),
            IntradayInterval::FiveMinutes => String::from_str("5min"),
            IntradayInterval::FifteenMinutes => String::from_str("15min"),
            IntradayInterval::ThirtyMinutes => String::from_str("30min"),
            IntradayInterval::SixtyMinutes => String::from_str("60min"),
        }
    }
}

/// What was asked of the provider.
#[derive(Debug, Clone, Copy, PartialEq, Eq, Structural)]
pub enum CallKind {
    /// An intraday price series.
    TimeSeriesIntraday,
    /// The listing of a symbol, with its trading hours.
    Ticker,
    /// The dividend history of a symbol.
    Dividends,
}

impl CallKind {
    /// The directory under which answers of this kind are kept.
    pub open spec fn label(self) -> Seq<char> {
        match self {
            CallKind::TimeSeriesIntraday => "time_series_intraday"@,
            CallKind::Ticker => "get_ticker"@,
            CallKind::Dividends => "dividends"@,
        }
    }

    /// The directory under which answers of this kind are kept.
    pub fn to_string(&self) -> (text: String)
        ensures
            text@ == self.label(),
    {
        match self {
            CallKind::TimeSeriesIntraday => String::from_str("time_series_intraday"),
            CallKind::Ticker => String::from_str("get_ticker"),
            CallKind::Dividends => String::from_str("dividends"),
        }
    }
}

/// The path, below the cache root, of the file that keeps the answer to a
/// call: the kind of call, the symbol, the interval or `none`, and
/// `data.json`.
pub open spec fn cache_key_of(kind: CallKind, symbol: Seq<char>, interval: Option<IntradayInterval>)
    -> Seq<Seq<char>> {
    seq![
        kind.label(),
        symbol,
        match interval {
            Some(spacing) => spacing.label(),
            None => "none"@,
        },
        "data.json"@,
    ]
}

/// The texts of `parts`.
pub open spec fn texts_of(parts: Seq<String>) -> Seq<Seq<char>> {
    Seq::new(parts.len(), |i: int| parts[i]@)
}

/// Whether an entry last written at `last_written` is still good at `now`,
/// where answers stay good for `rate` seconds: it exists and is younger
/// than that.
pub open spec fn is_fresh(last_written: Option<i64>, now: i64, rate: i64) -> bool {
    match last_written {
        Some(written) => now - written < rate,
        None => false,
    }
}

/// How far the loading of one answer has come.
#[derive(Debug, Clone, Copy, PartialEq, Eq, Structural)]
pub enum LoadState {
    /// Nothing is known yet: the cache entry's age is being looked up.
    Checking,
    /// The cache entry is fresh and is being read.
    Reading,
    /// The provider is being asked.
    Fetching,
    /// The answer was handed over, or the load has failed.
    Done,
}

/// What the outside reports back after a step.
#[derive(Debug, Clone, Copy, PartialEq, Eq, Structural)]
pub enum LoadEvent {
    /// The cache entry was looked up: when it was last written, if it
    /// exists, and what time it is now.
    Checked { last_written: Option<i64>, now: i64 },
    /// The cache entry was read; `ok` is false where it could not be read
    /// or made no sense.
    Read { ok: bool },
    /// The provider was asked; `ok` is false where it failed.
    Fetched { ok: bool },
}

/// What the outside is to do next.
#[derive(Debug, Clone, Copy, PartialEq, Eq, Structural)]
pub enum LoadAction {
    /// Read the cache entry.
    ReadCache,
    /// Ask the provider.
    CallProvider,
    /// Hand over what was read from the cache.
    ServeCached,
    /// Hand over what the provider sent, and write it to the cache in the
    /// background.
    StoreAndServe,
    /// Report the provider's failure.
    Fail,
}

/// The step that follows `event` in `state`, where answers stay good for
/// `rate` seconds: the new state and what to do. An event that does not
/// belong to the state is no step.
pub open spec fn next_step(rate: i64, state: LoadState, event: LoadEvent) -> Option<
    (LoadState, LoadAction),
> {
    match (state, event) {
        (LoadState::Checking, LoadEvent::Checked { last_written, now }) => {
            if is_fresh(last_written, now, rate) {
                Some((LoadState::Reading, LoadAction::ReadCache))
            } else {
                Some((LoadState::Fetching, LoadAction::CallProvider))
            }
        },
        (LoadState::Reading, LoadEvent::Read { ok }) => {
            if ok {
                Some((LoadState::Done, LoadAction::ServeCached))
            } else {
                Some((LoadState::Fetching, LoadAction::CallProvider))
            }
        },
        (LoadState::Fetching, LoadEvent::Fetched { ok }) => {
            if ok {
                Some((LoadState::Done, LoadAction::StoreAndServe))
            } else {
                Some((LoadState::Done, LoadAction::Fail))
            }
        },
        _ => None,
    }
}

/// The state reached from `state` by `events`, those that are no step left
/// out.
pub open spec fn state_after(rate: i64, state: LoadState, events: Seq<LoadEvent>) -> LoadState
    decreases events.len(),
{
    if events.len() == 0 {
        state
    } else {
        let before = state_after(rate, state, events.drop_last());
        match next_step(rate, before, events.last()) {
            Some((after, _)) => after,
            None => before,
        }
    }
}

/// What the outside was told to do, in order, while `events` came in from
/// `state`.
pub open spec fn actions_of(rate: i64, state: LoadState, events: Seq<LoadEvent>) -> Seq<LoadAction>
    decreases events.len(),
{
    if events.len() == 0 {
        Seq::empty()
    } else {
        let earlier = actions_of(rate, state, events.drop_last());
        match next_step(rate, state_after(rate, state, events.drop_last()), events.last()) {
            Some((_, action)) => earlier.push(action),
            None => earlier,
        }
    }
}

/// How often `action` occurs in `actions`.
pub open spec fn occurrences(actions: Seq<LoadAction>, action: LoadAction) -> nat
    decreases actions.len(),
{
    if actions.len() == 0 {
        0
    } else if actions.last() == action {
        occurrences(actions.drop_last(), action) + 1
    } else {
        occurrences(actions.drop_last(), action)
    }
}

/// The cache in front of the data provider.
#[derive(Debug)]
pub struct Dataloader {
    cache_path: String,
    invalidate_rate: i64,
}

impl Dataloader {
    /// The directory under which the cache lives.
    pub closed spec fn cache_root(&self) -> Seq<char> {
        self.cache_path@
    }

    /// For how many seconds an answer stays good.
    pub closed spec fn rate(&self) -> i64 {
        self.invalidate_rate
    }

    /// A cache below the home directory `home`, in `.cache` under the
    /// program's name, whose answers stay good for thirty minutes.
    pub fn new(home: Option<&str>) -> (loader: Self)
        ensures
            loader.cache_root() == expanded(
                "~/.cache/trading_simulator"@,
                match home {
                    Some(directory) => Some(directory@),
                    None => None,
                },
            ),
            loader.rate() == CACHE_INVALIDATE_RATE,
    {
        Dataloader {
            cache_path: expand_tilde("~/.cache/trading_simulator", home),
            invalidate_rate: CACHE_INVALIDATE_RATE,
        }
    }

    /// The directory under which the cache lives.
    pub fn get_cache_path(&self) -> (path: String)
        ensures
            path@ == self.cache_root(),
    {
        self.cache_path.clone()
    }

    /// For how many seconds an answer stays good.
    pub fn get_invalidate_rate(&self) -> (rate: i64)
        ensures
            rate == self.rate(),
    {
        self.invalidate_rate
    }

    /// The path, below the cache root, of the file that keeps the answer to
    /// a call, one directory or file name after the other.
    pub fn cache_key(kind: CallKind, symbol: &str, interval: Option<IntradayInterval>) -> (parts:
        Vec<String>)
        ensures
            texts_of(parts@) == cache_key_of(kind, symbol@, interval),
    {
        let mut parts: Vec<String> = Vec::new();
        parts.push(kind.to_string());
        parts.push(String::from_str(symbol));
        parts.push(
            match interval {
                Some(spacing) => spacing.to_string(),
                None => String::from_str("none"),
            },
        );
        parts.push(String::from_str("data.json"));
        assert(texts_of(parts@) =~= cache_key_of(kind, symbol@, interval));
        parts
    }

    /// Whether a cache entry last written at `last_written`, if it exists,
    /// is still good at `now`.
    pub fn check_cache_file_valid(&self, last_written: Option<i64>, now: i64) -> (valid: bool)
        ensures
            valid == is_fresh(last_written, now, self.rate()),
    {
        match last_written {
            Some(written) => (now as i128) - (written as i128) < (self.invalidate_rate as i128),
            None => false,
        }
    }

    /// One step of loading an answer through the cache: given how far the
    /// load has come and what the outside reports, says how far it has come
    /// now and what to do next. A fresh entry is read and served; a missing,
    /// stale or unreadable one makes the provider be asked, and what it
    /// sends is served and written back. An event that does not belong to
    /// the state is no step.
    pub fn get_time_series_intraday(&self, state: LoadState, event: LoadEvent) -> (step: Option<
        (LoadState, LoadAction),
    >)
        ensures
            step == next_step(self.rate(), state, event),
    {
        match (state, event) {
            (LoadState::Checking, LoadEvent::Checked { last_written, now }) => {
                if self.check_cache_file_valid(last_written, now) {
                    Some((LoadState::Reading, LoadAction::ReadCache))
                } else {
                    Some((LoadState::Fetching, LoadAction::CallProvider))
                }
            },
            (LoadState::Reading, LoadEvent::Read { ok }) => {
                if ok {
                    Some((LoadState::Done, LoadAction::ServeCached))
                } else {
                    Some((LoadState::Fetching, LoadAction::CallProvider))
                }
            },
            (LoadState::Fetching, LoadEvent::Fetched { ok }) => {
                if ok {
                    Some((LoadState::Done, LoadAction::StoreAndServe))
                } else {
                    Some((LoadState::Done, LoadAction::Fail))
                }
            },
            _ => None,
        }
    }
}

/// How many more times the provider can be asked from `state`.
pub open spec fn calls_left(state: LoadState) -> nat {
    match state {
        LoadState::Checking => 1,
        LoadState::Reading => 1,
        LoadState::Fetching => 0,
        LoadState::Done => 0,
    }
}

/// How many more times the cache can be written from `state`.
pub open spec fn stores_left(state: LoadState) -> nat {
    match state {
        LoadState::Checking => 1,
        LoadState::Reading => 1,
        LoadState::Fetching => 1,
        LoadState::Done => 0,
    }
}

/// Whatever the outside reports, and in whatever order: one load asks the
/// provider at most once and writes the cache at most once, and it writes
/// only what an asked provider sent.
pub proof fn provider_is_asked_at_most_once(rate: i64, state: LoadState, events: Seq<LoadEvent>)
    ensures
        occurrences(actions_of(rate, state, events), LoadAction::CallProvider) + calls_left(
            state_after(rate, state, events),
        ) <= calls_left(state),
        occurrences(actions_of(rate, state, events), LoadAction::StoreAndServe) + stores_left(
            state_after(rate, state, events),
        ) <= stores_left(state),
        state == LoadState::Checking ==> occurrences(
            actions_of(rate, state, events),
            LoadAction::StoreAndServe,
        ) <= occurrences(actions_of(rate, state, events), LoadAction::CallProvider),
    decreases events.len(),
{
    if events.len() > 0 {
        provider_is_asked_at_most_once(rate, state, events.drop_last());
        let earlier = actions_of(rate, state, events.drop_last());
        let before = state_after(rate, state, events.drop_last());
        match next_step(rate, before, events.last()) {
            Some((_, action)) => {
                assert(earlier.push(action).drop_last() =~= earlier);
                if state == LoadState::Checking {
                    reached_fetching_by_asking(rate, events.drop_last());
                }
            },
            None => {},
        }
    }
}

/// A load that started at the beginning waits for the provider only after
/// asking it.
pub proof fn reached_fetching_by_asking(rate: i64, events: Seq<LoadEvent>)
    ensures
        state_after(rate, LoadState::Checking, events) == LoadState::Fetching ==> occurrences(
            actions_of(rate, LoadState::Checking, events),
            LoadAction::CallProvider,
        ) == 1 && occurrences(
            actions_of(rate, LoadState::Checking, events),
            LoadAction::StoreAndServe,
        ) == 0,
        state_after(rate, LoadState::Checking, events) == LoadState::Checking
            || state_after(rate, LoadState::Checking, events) == LoadState::Reading
            ==> occurrences(
            actions_of(rate, LoadState::Checking, events),
            LoadAction::CallProvider,
        ) == 0 && occurrences(
            actions_of(rate, LoadState::Checking, events),
            LoadAction::StoreAndServe,
        ) == 0,
    decreases events.len(),
{
    if events.len() > 0 {
        reached_fetching_by_asking(rate, events.drop_last());
        let earlier = actions_of(rate, LoadState::Checking, events.drop_last());
        let before = state_after(rate, LoadState::Checking, events.drop_last());
        match next_step(rate, before, events.last()) {
            Some((_, action)) => {
                assert(earlier.push(action).drop_last() =~= earlier);
            },
            None => {},
        }
    }
}

/// A cache entry younger than the rate is served without asking the
/// provider: once the entry was found fresh and read, the load is done, and
/// all that was asked of the outside was to read the cache and serve it.
pub proof fn fresh_entry_is_served_from_cache(rate: i64, last_written: Option<i64>, now: i64)
    requires
        is_fresh(last_written, now, rate),
    ensures
        ({
            let events = seq![LoadEvent::Checked { last_written, now }, LoadEvent::Read { ok: true }];
            &&& state_after(rate, LoadState::Checking, events) == LoadState::Done
            &&& actions_of(rate, LoadState::Checking, events) == seq![
                LoadAction::ReadCache,
                LoadAction::ServeCached,
            ]
        }),
{
    let events = seq![LoadEvent::Checked { last_written, now }, LoadEvent::Read { ok: true }];
    let first = seq![LoadEvent::Checked { last_written, now }];
    assert(events.drop_last() =~= first);
    assert(first.drop_last() =~= Seq::<LoadEvent>::empty());
    assert(state_after(rate, LoadState::Checking, first.drop_last()) == LoadState::Checking);
    assert(actions_of(rate, LoadState::Checking, first.drop_last()) =~= Seq::<LoadAction>::empty());
    assert(state_after(rate, LoadState::Checking, first) == LoadState::Reading);
    assert(actions_of(rate, LoadState::Checking, first) =~= seq![LoadAction::ReadCache]);
    assert(actions_of(rate, LoadState::Checking, events) =~= seq![
        LoadAction::ReadCache,
        LoadAction::ServeCached,
    ]);
}

/// A cache entry that is missing or as old as the rate makes the provider
/// be asked exactly once and the cache be written anew: once the entry was
/// found stale and the provider answered, the load is done, and all that
/// was asked of the outside was to call the provider, serve its answer and
/// store it.
pub proof fn stale_entry_is_fetched_once(rate: i64, last_written: Option<i64>, now: i64)
    requires
        !is_fresh(last_written, now, rate),
    ensures
        ({
            let events = seq![
                LoadEvent::Checked { last_written, now },
                LoadEvent::Fetched { ok: true },
            ];
            &&& state_after(rate, LoadState::Checking, events) == LoadState::Done
            &&& actions_of(rate, LoadState::Checking, events) == seq![
                LoadAction::CallProvider,
                LoadAction::StoreAndServe,
            ]
        }),
{
    let events = seq![LoadEvent::Checked { last_written, now }, LoadEvent::Fetched { ok: true }];
    let first = seq![LoadEvent::Checked { last_written, now }];
    assert(events.drop_last() =~= first);
    assert(first.drop_last() =~= Seq::<LoadEvent>::empty());
    assert(state_after(rate, LoadState::Checking, first.drop_last()) == LoadState::Checking);
    assert(actions_of(rate, LoadState::Checking, first.drop_last()) =~= Seq::<LoadAction>::empty());
    assert(state_after(rate, LoadState::Checking, first) == LoadState::Fetching);
    assert(actions_of(rate, LoadState::Checking, first) =~= seq![LoadAction::CallProvider]);
    assert(actions_of(rate, LoadState::Checking, events) =~= seq![
        LoadAction::CallProvider,
        LoadAction::StoreAndServe,
    ]);
}

} // verus!
