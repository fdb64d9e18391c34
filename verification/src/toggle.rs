//! Recognising the recorded key sequence that hides and restores the overlay.
//! Presses arrive from the keyboard with a monotonic timestamp in nanoseconds.
use vstd::prelude::*;

verus! {

/// A second press of the same key sooner than this (ns) is a bounce, not a press.
pub const DEBOUNCE_NS: u64 = 160_000_000;

/// Presses further apart than this (ns) start a new sequence.
pub const SEQUENCE_GAP_NS: u64 = 1_000_000_000;

/// Time from `at` to `now`, or zero when `at` is later (a monotonic clock's
/// `duration_since` saturates the same way).
pub open spec fn elapsed(at: u64, now: u64) -> int {
    if now >= at {
        now - at
    } else {
        0
    }
}

/// Progress towards the toggle sequence.
#[derive(Debug, Clone, PartialEq, Eq)]
pub struct ToggleTracker {
    /// The last press that counted: key index and time.
    pub last_down: Option<(u8, u64)>,
    /// Time of the last press that counted.
    pub last_event: Option<u64>,
    /// The latest presses, oldest first, at most as many as the sequence has.
    pub buffer: Vec<u8>,
}

/// The state of a [`ToggleTracker`] as the contracts see it.
pub struct TrackerState {
    pub last_down: Option<(u8, u64)>,
    pub last_event: Option<u64>,
    pub buffer: Seq<u8>,
}

impl View for ToggleTracker {
    type V = TrackerState;

    open spec fn view(&self) -> TrackerState {
        TrackerState { last_down: self.last_down, last_event: self.last_event, buffer: self.buffer@ }
    }
}

/// The presses a counted press leaves in the buffer before matching: the
/// buffer (emptied first if the previous press is more than the gap ago) with
/// `index` appended, cut to the newest `len` presses.
pub open spec fn next_buffer(buffer: Seq<u8>, last_event: Option<u64>, index: u8, now: u64, len: nat) -> Seq<u8> {
    let base = if last_event matches Some(at) && elapsed(at, now) > SEQUENCE_GAP_NS {
        Seq::empty()
    } else {
        buffer
    };
    let pushed = base.push(index);
    if pushed.len() > len {
        pushed.skip(pushed.len() - len)
    } else {
        pushed
    }
}

/// A press of `index` does not count: the sequence is being re-recorded, no
/// sequence is set, or it repeats the last counted key within the bounce time.
pub open spec fn press_ignored(t: TrackerState, index: u8, now: u64, sequence: Seq<u8>, recording: bool) -> bool {
    ||| recording
    ||| sequence.len() == 0
    ||| (t.last_down matches Some((prev, at)) && prev == index && elapsed(at, now) < DEBOUNCE_NS)
}

/// One press: the next state, and whether the press completes `sequence`.
/// An ignored press (see [`press_ignored`]) changes nothing. A counted press
/// becomes the last press, and the newest presses (see [`next_buffer`])
/// complete the sequence exactly when they equal it; completing it empties
/// the buffer.
pub open spec fn press_step(t: TrackerState, index: u8, now: u64, sequence: Seq<u8>, recording: bool) -> (TrackerState, bool) {
    if press_ignored(t, index, now, sequence, recording) {
        (t, false)
    } else {
        let kept = next_buffer(t.buffer, t.last_event, index, now, sequence.len());
        let fired = kept == sequence;
        (
            TrackerState {
                last_down: Some((index, now)),
                last_event: Some(now),
                buffer: if fired {
                    Seq::empty()
                } else {
                    kept
                },
            },
            fired,
        )
    }
}

/// The state after the presses `presses` (key index, time), in order.
pub open spec fn press_run(t: TrackerState, presses: Seq<(u8, u64)>, sequence: Seq<u8>) -> TrackerState
    decreases presses.len(),
{
    if presses.len() == 0 {
        t
    } else {
        press_step(
            press_run(t, presses.drop_last(), sequence),
            presses.last().0,
            presses.last().1,
            sequence,
            false,
        ).0
    }
}

/// Whether the last of `presses` completes the sequence.
pub open spec fn last_press_fires(t: TrackerState, presses: Seq<(u8, u64)>, sequence: Seq<u8>) -> bool {
    presses.len() > 0 && press_step(
        press_run(t, presses.drop_last(), sequence),
        presses.last().0,
        presses.last().1,
        sequence,
        false,
    ).1
}

/// Presses that follow each other at least the bounce time and at most the
/// sequence gap apart, the first one not a bounce of the tracker's last press.
pub open spec fn well_paced(t: TrackerState, presses: Seq<(u8, u64)>) -> bool {
    &&& presses.len() > 0 ==> !(t.last_down matches Some((k, at)) && k == presses[0].0 && elapsed(
        at,
        presses[0].1,
    ) < DEBOUNCE_NS)
    &&& forall|i: int|
        0 <= i < presses.len() - 1 ==> {
            let gap = elapsed(#[trigger] presses[i].1, presses[i + 1].1);
            DEBOUNCE_NS <= gap <= SEQUENCE_GAP_NS
        }
}

impl ToggleTracker {
    /// A tracker that has seen no presses.
    pub fn new() -> (r: Self)
        ensures
            r@.last_down is None,
            r@.last_event is None,
            r@.buffer.len() == 0,
    {
        ToggleTracker { last_down: None, last_event: None, buffer: Vec::new() }
    }

    /// Feeds one key press at time `now`; returns whether it completes
    /// `sequence` (see [`press_step`]).
    pub fn record_press(&mut self, index: u8, now: u64, sequence: &Vec<u8>, recording: bool) -> (fired: bool)
        ensures
            (final(self)@, fired) == press_step(old(self)@, index, now, sequence@, recording),
    {
        if recording || sequence.len() == 0 {
            return false;
        }
        if let Some((prev, at)) = self.last_down {
            let since = if now >= at { now - at } else { 0 };
            if prev == index && since < DEBOUNCE_NS {
                return false;
            }
        }
        self.last_down = Some((index, now));
        if let Some(at) = self.last_event {
            let since = if now >= at { now - at } else { 0 };
            if since > SEQUENCE_GAP_NS {
                self.buffer = Vec::new();
            }
        }
        self.last_event = Some(now);
        self.buffer.push(index);
        let len = sequence.len();
        if self.buffer.len() > len {
            let excess = self.buffer.len() - len;
            self.buffer = tail_from(&self.buffer, excess);
        }
        if same_bytes(&self.buffer, sequence) {
            self.buffer = Vec::new();
            true
        } else {
            false
        }
    }
}

/// Pressing the recorded sequence, well paced, from a tracker with no
/// pending presses completes it on its last press and not before; the
/// tracker is then ready for the same sequence again. So one sequence both
/// hides and restores the overlay, and repeated taps of one key work.
pub proof fn lemma_sequence_fires_on_last_press(t: TrackerState, presses: Seq<(u8, u64)>, sequence: Seq<u8>, j: int)
    requires
        t.buffer.len() == 0,
        sequence.len() > 0,
        presses.len() == sequence.len(),
        forall|i: int| 0 <= i < presses.len() ==> (#[trigger] presses[i]).0 == sequence[i],
        well_paced(t, presses),
        1 <= j <= presses.len(),
    ensures
        last_press_fires(t, presses.take(j), sequence) == (j == presses.len()),
        j < presses.len() ==> press_run(t, presses.take(j), sequence).buffer == sequence.take(j),
        j == presses.len() ==> press_run(t, presses.take(j), sequence).buffer.len() == 0,
        press_run(t, presses.take(j), sequence).last_down == Some(presses[j - 1]),
        press_run(t, presses.take(j), sequence).last_event == Some(presses[j - 1].1),
    decreases j,
{
    let p = presses.take(j);
    assert(p.drop_last() =~= presses.take(j - 1));
    assert(p.last() == presses[j - 1]);
    if j > 1 {
        lemma_sequence_fires_on_last_press(t, presses, sequence, j - 1);
    }
    let prev = press_run(t, presses.take(j - 1), sequence);
    if j == 1 {
        assert(presses.take(0) =~= Seq::<(u8, u64)>::empty());
    } else {
        let g = elapsed(presses[j - 2].1, presses[j - 1].1);
        assert(DEBOUNCE_NS <= g <= SEQUENCE_GAP_NS);
    }
    let kept = next_buffer(prev.buffer, prev.last_event, presses[j - 1].0, presses[j - 1].1, sequence.len());
    assert(kept =~= sequence.take(j)) by {
        if j == 1 {
            assert(prev.buffer.len() == 0);
        }
    }
    if j < presses.len() {
        assert(kept.len() != sequence.len());
    } else {
        assert(sequence.take(j) =~= sequence);
    }
}

/// A counted press never leaves more presses pending than the sequence has.
pub proof fn lemma_pending_presses_are_bounded(t: TrackerState, index: u8, now: u64, sequence: Seq<u8>)
    requires
        !press_ignored(t, index, now, sequence, false),
    ensures
        press_step(t, index, now, sequence, false).0.buffer.len() <= sequence.len(),
{
}

/// A press is ignored, and then changes nothing and never fires, exactly
/// when the sequence is being re-recorded, no sequence is set, or it repeats
/// the last counted key less than 160 ms after it.
pub proof fn lemma_only_quick_repeats_are_ignored(
    t: TrackerState,
    index: u8,
    now: u64,
    sequence: Seq<u8>,
    recording: bool,
)
    ensures
        press_ignored(t, index, now, sequence, recording) <==> (recording || sequence.len() == 0 || (
        t.last_down matches Some((k, at)) && k == index && (if now >= at {
            now - at
        } else {
            0
        }) < 160_000_000)),
        press_ignored(t, index, now, sequence, recording) ==> press_step(
            t,
            index,
            now,
            sequence,
            recording,
        ) == (t, false),
{
}

/// A counted press keeps the newest presses since the last gap: the pending
/// presses (none when the previous counted press is more than
/// [`SEQUENCE_GAP_NS`] ago) with this one appended, cut to the newest
/// `sequence.len()`. The press fires exactly when those newest presses equal
/// the sequence, whatever presses came before them; firing empties the
/// buffer, and otherwise the buffer is those newest presses.
pub proof fn lemma_counted_press_keeps_newest(t: TrackerState, index: u8, now: u64, sequence: Seq<u8>)
    requires
        !press_ignored(t, index, now, sequence, false),
    ensures
        ({
            let n = sequence.len() as int;
            let since_gap = if t.last_event matches Some(at) && (if now >= at {
                now - at
            } else {
                0
            }) > 1_000_000_000 {
                seq![index]
            } else {
                t.buffer + seq![index]
            };
            let newest = if since_gap.len() > n {
                since_gap.subrange(since_gap.len() - n, since_gap.len() as int)
            } else {
                since_gap
            };
            let (after, fired) = press_step(t, index, now, sequence, false);
            &&& fired == (newest == sequence)
            &&& after.buffer == if fired {
                Seq::<u8>::empty()
            } else {
                newest
            }
            &&& after.last_down == Some((index, now))
            &&& after.last_event == Some(now)
        }),
{
    let gap = t.last_event matches Some(at) && elapsed(at, now) > SEQUENCE_GAP_NS;
    let since_gap = if gap {
        seq![index]
    } else {
        t.buffer + seq![index]
    };
    let base = if gap {
        Seq::<u8>::empty()
    } else {
        t.buffer
    };
    assert(base.push(index) =~= since_gap);
    let n = sequence.len() as int;
    if since_gap.len() > n {
        assert(since_gap.skip(since_gap.len() - n) =~= since_gap.subrange(
            since_gap.len() - n,
            since_gap.len() as int,
        ));
    }
}

/// The elements of `v` from index `from` on.
fn tail_from(v: &Vec<u8>, from: usize) -> (r: Vec<u8>)
    requires
        from <= v@.len(),
    ensures
        r@ == v@.skip(from as int),
{
    let mut r: Vec<u8> = Vec::new();
    let mut i = from;
    while i < v.len()
        invariant
            from <= i <= v@.len(),
            r@ == v@.subrange(from as int, i as int),
        decreases v.len() - i,
    {
        r.push(v[i]);
        i = i + 1;
        assert(r@ =~= v@.subrange(from as int, i as int));
    }
    assert(r@ =~= v@.skip(from as int));
    r
}

/// Whether two byte vectors hold the same bytes.
fn same_bytes(a: &Vec<u8>, b: &Vec<u8>) -> (r: bool)
    ensures
        r == (a@ == b@),
{
    if a.len() != b.len() {
        return false;
    }
    let mut i: usize = 0;
    while i < a.len()
        invariant
            i <= a@.len() == b@.len(),
            forall|k: int| 0 <= k < i ==> a@[k] == b@[k],
        decreases a.len() - i,
    {
        if a[i] != b[i] {
            return false;
        }
        i = i + 1;
    }
    assert(a@ =~= b@);
    true
}

} // verus!
