//! Following the active layer through Keymapp's status API: reading the
//! layer from a status document, and the poll loop's online/backoff logic.
use crate::json::{as_i64, json_get, opt_get, Json, JsonNumber};
use vstd::prelude::*;

verus! {

/// Delay after a successful poll (ms).
pub const POLL_INTERVAL_MS: u64 = 100;

/// First retry delay after a failed poll (ms).
pub const INITIAL_BACKOFF_MS: u64 = 250;

/// Longest retry delay (ms).
pub const MAX_BACKOFF_MS: u64 = 5000;

/// The layer in a Keymapp status document: `keyboard.current_layer`, when it
/// is an integer that fits an `i64`.
pub open spec fn spec_extract_layer(status: Json) -> Option<i64> {
    as_i64(opt_get(json_get(status, "keyboard"@), "current_layer"@))
}

/// Reads the active layer from a Keymapp status document (see
/// [`spec_extract_layer`]); `None` when no keyboard is reported.
pub fn extract_layer(status: &Json) -> (r: Option<i64>)
    ensures
        r == spec_extract_layer(*status),
{
    match status.get("keyboard") {
        Some(k) => match k.get("current_layer") {
            Some(Json::Number(JsonNumber::PosInt(n))) => if *n <= i64::MAX as u64 {
                Some(*n as i64)
            } else {
                None
            },
            Some(Json::Number(JsonNumber::NegInt(n))) => Some(*n),
            _ => None,
        },
        None => None,
    }
}

/// The poll loop's memory between polls.
#[derive(Debug, Clone, Copy, PartialEq, Eq, Structural)]
pub struct WatcherState {
    /// Whether Keymapp was last seen reporting a layer.
    pub online: bool,
    /// Delay before the next retry after a failed poll (ms).
    pub backoff_ms: u64,
    /// The layer last announced.
    pub last_layer: Option<i64>,
}

/// What one poll asks the loop to do.
#[derive(Debug, Clone, Copy, PartialEq, Eq, Structural)]
pub struct WatcherActions {
    /// Announce that Keymapp is reachable again.
    pub announce_online: bool,
    /// Announce that Keymapp is unreachable.
    pub announce_offline: bool,
    /// Announce this new active layer.
    pub announce_layer: Option<i64>,
    /// Wait this long before the next poll (ms).
    pub sleep_ms: u64,
}

/// The backoff after `b`: doubled, at most [`MAX_BACKOFF_MS`].
pub open spec fn doubled_backoff(b: u64) -> u64 {
    if 2 * b > MAX_BACKOFF_MS {
        MAX_BACKOFF_MS
    } else {
        (2 * b) as u64
    }
}

/// One poll that read `layer`, from state `s`: the new state and what the
/// loop must do. A layer brings the loop online (announced only when it was
/// offline), resets the backoff, announces the layer only when it differs
/// from the last one announced, and polls again after [`POLL_INTERVAL_MS`].
/// No layer takes the loop offline (announced only when it was online),
/// waits the current backoff and doubles it up to [`MAX_BACKOFF_MS`].
pub open spec fn poll_step(s: WatcherState, layer: Option<i64>) -> (WatcherState, WatcherActions) {
    match layer {
        Some(l) => (
            WatcherState { online: true, backoff_ms: INITIAL_BACKOFF_MS, last_layer: Some(l) },
            WatcherActions {
                announce_online: !s.online,
                announce_offline: false,
                announce_layer: if s.last_layer == Some(l) {
                    None
                } else {
                    Some(l)
                },
                sleep_ms: POLL_INTERVAL_MS,
            },
        ),
        None => (
            WatcherState {
                online: false,
                backoff_ms: doubled_backoff(s.backoff_ms),
                last_layer: s.last_layer,
            },
            WatcherActions {
                announce_online: false,
                announce_offline: s.online,
                announce_layer: None,
                sleep_ms: s.backoff_ms,
            },
        ),
    }
}

/// The state after polls that read `layers`, in order, starting from `s`.
pub open spec fn poll_run(s: WatcherState, layers: Seq<Option<i64>>) -> WatcherState
    decreases layers.len(),
{
    if layers.len() == 0 {
        s
    } else {
        poll_step(poll_run(s, layers.drop_last()), layers.last()).0
    }
}

/// What poll `i` of the run asks for (polls counted from 0).
pub open spec fn run_actions(s: WatcherState, layers: Seq<Option<i64>>, i: int) -> WatcherActions {
    poll_step(poll_run(s, layers.take(i)), layers[i]).1
}

/// The layer most recently announced in the run, or the one `s` holds when
/// the run announced none.
pub open spec fn last_announced_layer(s: WatcherState, layers: Seq<Option<i64>>) -> Option<i64>
    decreases layers.len(),
{
    if layers.len() == 0 {
        s.last_layer
    } else {
        match poll_step(poll_run(s, layers.drop_last()), layers.last()).1.announce_layer {
            Some(l) => Some(l),
            None => last_announced_layer(s, layers.drop_last()),
        }
    }
}

/// Whether the run's most recent connection announcement was "online"
/// (`true`) or "offline" (`false`); what `s` holds when it made none.
pub open spec fn last_announced_online(s: WatcherState, layers: Seq<Option<i64>>) -> bool
    decreases layers.len(),
{
    if layers.len() == 0 {
        s.online
    } else {
        let a = poll_step(poll_run(s, layers.drop_last()), layers.last()).1;
        if a.announce_online {
            true
        } else if a.announce_offline {
            false
        } else {
            last_announced_online(s, layers.drop_last())
        }
    }
}

/// `2^n`.
pub open spec fn two_pow(n: nat) -> nat
    decreases n,
{
    if n == 0 {
        1
    } else {
        2 * two_pow((n - 1) as nat)
    }
}

/// The wait of failed poll `k` (counted from 0) in a row of failures that
/// starts at the shortest backoff: `250 · 2^k` ms, at most [`MAX_BACKOFF_MS`].
pub open spec fn failure_wait(k: nat) -> u64 {
    if INITIAL_BACKOFF_MS * two_pow(k) > MAX_BACKOFF_MS {
        MAX_BACKOFF_MS
    } else {
        (INITIAL_BACKOFF_MS * two_pow(k)) as u64
    }
}

/// `k` polls that read no layer.
pub open spec fn failures(k: nat) -> Seq<Option<i64>> {
    Seq::new(k, |i: int| None::<i64>)
}

impl WatcherState {
    /// The state the loop starts in: online, shortest backoff, no layer yet.
    pub fn new() -> (r: Self)
        ensures
            r == (WatcherState { online: true, backoff_ms: INITIAL_BACKOFF_MS, last_layer: None }),
    {
        WatcherState { online: true, backoff_ms: INITIAL_BACKOFF_MS, last_layer: None }
    }

    /// One poll that read `layer` (`None`: no status, or no keyboard in it);
    /// see [`poll_step`] for the new state and the actions.
    pub fn poll(&mut self, layer: Option<i64>) -> (a: WatcherActions)
        ensures
            (*final(self), a) == poll_step(*old(self), layer),
    {
        match layer {
            Some(l) => {
                let announce_online = !self.online;
                self.online = true;
                self.backoff_ms = INITIAL_BACKOFF_MS;
                let changed = match self.last_layer {
                    Some(prev) => prev != l,
                    None => true,
                };
                self.last_layer = Some(l);
                WatcherActions {
                    announce_online,
                    announce_offline: false,
                    announce_layer: if changed {
                        Some(l)
                    } else {
                        None
                    },
                    sleep_ms: POLL_INTERVAL_MS,
                }
            },
            None => {
                let announce_offline = self.online;
                self.online = false;
                let sleep_ms = self.backoff_ms;
                self.backoff_ms = if self.backoff_ms > MAX_BACKOFF_MS / 2 {
                    MAX_BACKOFF_MS
                } else {
                    self.backoff_ms * 2
                };
                WatcherActions { announce_online: false, announce_offline, announce_layer: None, sleep_ms }
            },
        }
    }
}

/// Whether a failure message is new and must be logged: it is, unless it
/// repeats the last one logged. A logged message becomes the last one.
pub fn log_once(last_error: &mut Option<String>, msg: String) -> (print: bool)
    ensures
        print == !(*old(last_error) matches Some(m) && m@ == msg@),
        print ==> *final(last_error) == Some(msg),
        !print ==> *final(last_error) == *old(last_error),
{
    let repeat = match &*last_error {
        Some(m) => *m == msg,
        None => false,
    };
    if !repeat {
        *last_error = Some(msg);
    }
    !repeat
}

proof fn lemma_run_of_failures(s: WatcherState, k: nat)
    requires
        s.backoff_ms == INITIAL_BACKOFF_MS,
    ensures
        poll_run(s, failures(k)) == (WatcherState {
            online: if k == 0 {
                s.online
            } else {
                false
            },
            backoff_ms: failure_wait(k),
            last_layer: s.last_layer,
        }),
    decreases k,
{
    if k > 0 {
        let j = (k - 1) as nat;
        assert(failures(k).drop_last() =~= failures(j));
        lemma_run_of_failures(s, j);
        assert(two_pow(k) == 2 * two_pow(j));
        assert(INITIAL_BACKOFF_MS * two_pow(k) == 2 * (INITIAL_BACKOFF_MS * two_pow(j)));
    } else {
        assert(two_pow(0) == 1);
    }
}

/// Consecutive failed polls back off: from the shortest backoff (where the
/// loop starts and where every successful poll leaves it), failed poll `k`
/// of a row (counted from 0) waits `min(250 · 2^k, 5000)` ms, announces
/// nothing but "offline", and announces that only on the first failure and
/// only if the loop was online.
pub proof fn lemma_failures_back_off(s: WatcherState, k: nat, j: int)
    requires
        s.backoff_ms == INITIAL_BACKOFF_MS,
        0 <= j < k,
    ensures
        run_actions(s, failures(k), j) == (WatcherActions {
            announce_online: false,
            announce_offline: j == 0 && s.online,
            announce_layer: None,
            sleep_ms: failure_wait(j as nat),
        }),
{
    assert(failures(k).take(j) =~= failures(j as nat));
    lemma_run_of_failures(s, j as nat);
}

/// The state keeps the layer last announced: after any run of polls,
/// `last_layer` is the layer the run most recently announced.
pub proof fn lemma_run_remembers_announced_layer(s: WatcherState, layers: Seq<Option<i64>>)
    ensures
        poll_run(s, layers).last_layer == last_announced_layer(s, layers),
    decreases layers.len(),
{
    if layers.len() > 0 {
        lemma_run_remembers_announced_layer(s, layers.drop_last());
    }
}

/// The state keeps the connection last announced: after any run of polls,
/// `online` is whether the run's latest connection announcement was
/// "online".
pub proof fn lemma_run_remembers_announced_connection(s: WatcherState, layers: Seq<Option<i64>>)
    ensures
        poll_run(s, layers).online == last_announced_online(s, layers),
    decreases layers.len(),
{
    if layers.len() > 0 {
        lemma_run_remembers_announced_connection(s, layers.drop_last());
    }
}

/// Over any run of polls, poll `i` announces a layer exactly when it read a
/// layer that differs from the last one announced before it, and announces
/// "online" (or "offline") exactly when it read a layer (or none) and the
/// last connection announcement before it said the opposite; so each change
/// is announced once and the two announcements alternate.
pub proof fn lemma_announcements_follow_changes(s: WatcherState, layers: Seq<Option<i64>>, i: int)
    requires
        0 <= i < layers.len(),
    ensures
        run_actions(s, layers, i).announce_layer == (match layers[i] {
            Some(l) => if last_announced_layer(s, layers.take(i)) == Some(l) {
                None
            } else {
                Some(l)
            },
            None => None,
        }),
        run_actions(s, layers, i).announce_online == (layers[i] is Some && !last_announced_online(
            s,
            layers.take(i),
        )),
        run_actions(s, layers, i).announce_offline == (layers[i] is None && last_announced_online(
            s,
            layers.take(i),
        )),
{
    lemma_run_remembers_announced_layer(s, layers.take(i));
    lemma_run_remembers_announced_connection(s, layers.take(i));
}

/// Starting from any backoff of at most [`MAX_BACKOFF_MS`], failed polls
/// never wait longer than [`MAX_BACKOFF_MS`].
pub proof fn lemma_backoff_is_bounded(b: u64)
    requires
        b <= MAX_BACKOFF_MS,
    ensures
        doubled_backoff(b) <= MAX_BACKOFF_MS,
        b < MAX_BACKOFF_MS ==> doubled_backoff(b) > b || b == 0,
{
}

} // verus!
