//! Betaflight-style frame-time semantics: which main frames are accepted,
//! how the log splits into continuous periods, and event time backfilling.

use vstd::prelude::*;

verus! {

/// What to do with a main frame, given its timestamp.
#[derive(Debug, Clone, Copy, PartialEq, Eq, Structural)]
pub enum FrameAction {
    /// Drop frame (time moved backwards)
    Skip,
    /// Accept frame in the current period
    AcceptSamePeriod,
    /// Accept frame and start a new period (after a large forward jump or the first frame)
    AcceptNewPeriod,
}

/// Forward jumps larger than this (10 s, in µs) split the log into a new period.
pub const MAX_FORWARD_JUMP_US: u64 = 10_000_000;

/// Frame-time acceptance and period tracking.
#[derive(Debug, Clone, Copy, PartialEq, Eq, Structural)]
pub struct TimeSemantics {
    /// Timestamp of the last accepted frame
    pub last_time_us: Option<u64>,
    /// Start of the current period
    pub current_period_start: Option<u64>,
    /// End (latest accepted time) of the current period
    pub current_period_end: Option<u64>,
    /// Start of the longest finalized period
    pub best_period_start: Option<u64>,
    /// End of the longest finalized period
    pub best_period_end: Option<u64>,
}

/// `a - b`, or 0 when `b > a`.
pub open spec fn sat_sub(a: u64, b: u64) -> u64 {
    if a >= b {
        (a - b) as u64
    } else {
        0
    }
}

/// Length of a period given by optional bounds (0 when either bound is missing).
pub open spec fn period_len(start: Option<u64>, end: Option<u64>) -> u64 {
    match (start, end) {
        (Some(s), Some(e)) => sat_sub(e, s),
        _ => 0,
    }
}

/// The state after the current period is compared against the best one.
pub open spec fn finalize_spec(s: TimeSemantics) -> TimeSemantics {
    match (s.current_period_start, s.current_period_end) {
        (Some(start), Some(end)) => if sat_sub(end, start) > period_len(
            s.best_period_start,
            s.best_period_end,
        ) {
            TimeSemantics {
                best_period_start: s.current_period_start,
                best_period_end: s.current_period_end,
                ..s
            }
        } else {
            s
        },
        _ => s,
    }
}

/// The action and next state for a frame at time `t`.
pub open spec fn on_time_spec(s: TimeSemantics, t: u64) -> (TimeSemantics, FrameAction) {
    match s.last_time_us {
        None => (
            TimeSemantics {
                current_period_start: Some(t),
                current_period_end: Some(t),
                last_time_us: Some(t),
                ..s
            },
            FrameAction::AcceptNewPeriod,
        ),
        Some(last) => if t < last {
            (s, FrameAction::Skip)
        } else if t > last + MAX_FORWARD_JUMP_US {
            (
                TimeSemantics {
                    current_period_start: Some(t),
                    current_period_end: Some(t),
                    last_time_us: Some(t),
                    ..finalize_spec(s)
                },
                FrameAction::AcceptNewPeriod,
            )
        } else {
            (
                TimeSemantics {
                    current_period_start: if s.current_period_start is None {
                        Some(t)
                    } else {
                        s.current_period_start
                    },
                    current_period_end: Some(t),
                    last_time_us: Some(t),
                    ..s
                },
                FrameAction::AcceptSamePeriod,
            )
        },
    }
}

impl TimeSemantics {
    /// The state before any frame: nothing accepted, no period.
    pub open spec fn initial() -> TimeSemantics {
        TimeSemantics {
            last_time_us: None,
            current_period_start: None,
            current_period_end: None,
            best_period_start: None,
            best_period_end: None,
        }
    }

    /// No frame seen yet.
    pub fn new() -> (res: Self)
        ensures
            res == Self::initial(),
            res.wf(),
    {
        TimeSemantics {
            last_time_us: None,
            current_period_start: None,
            current_period_end: None,
            best_period_start: None,
            best_period_end: None,
        }
    }

    /// Well-formed state: the current period ends at the last accepted time
    /// and both periods have start <= end.
    pub open spec fn wf(&self) -> bool {
        &&& self.current_period_end == self.last_time_us
        &&& (self.last_time_us is Some <==> self.current_period_start is Some)
        &&& (self.current_period_start matches Some(s) ==> self.current_period_end matches Some(
            e,
        ) && s <= e)
        &&& (self.best_period_start is Some <==> self.best_period_end is Some)
        &&& (self.best_period_start matches Some(s) ==> self.best_period_end matches Some(e) && s
            <= e)
    }

    /// Process a frame timestamp and decide acceptance semantics: the first
    /// frame starts a period, a frame earlier than the last accepted one is
    /// skipped, a jump of more than 10 s closes the current period and starts
    /// a new one, anything else extends the current period.
    pub fn on_time(&mut self, time_us: u64) -> (res: FrameAction)
        requires
            old(self).wf(),
        ensures
            (*final(self), res) == on_time_spec(*old(self), time_us),
            final(self).wf(),
            res != FrameAction::Skip ==> final(self).last_time_us == Some(time_us)
                && final(self).current_period_end == Some(time_us),
            res != FrameAction::Skip ==> (final(self).current_period_start matches Some(start)
                && start <= time_us),
            res == FrameAction::Skip ==> *final(self) == *old(self),
            period_len(final(self).best_period_start, final(self).best_period_end) >= period_len(
                old(self).best_period_start,
                old(self).best_period_end,
            ),
    {
        proof {
            lemma_on_time_invariants(*self, time_us);
        }
        match self.last_time_us {
            None => {
                self.current_period_start = Some(time_us);
                self.current_period_end = Some(time_us);
                self.last_time_us = Some(time_us);
                FrameAction::AcceptNewPeriod
            },
            Some(last) => {
                if time_us < last {
                    return FrameAction::Skip;
                }
                if time_us > last.saturating_add(MAX_FORWARD_JUMP_US) {
                    self.finalize_current_period_into_best();
                    self.current_period_start = Some(time_us);
                    self.current_period_end = Some(time_us);
                    self.last_time_us = Some(time_us);
                    return FrameAction::AcceptNewPeriod;
                }
                if self.current_period_start.is_none() {
                    self.current_period_start = Some(time_us);
                }
                self.current_period_end = Some(time_us);
                self.last_time_us = Some(time_us);
                FrameAction::AcceptSamePeriod
            },
        }
    }

    /// Finalize the current period at end of stream.
    pub fn finalize_at_end(&mut self)
        ensures
            *final(self) == finalize_spec(*old(self)),
    {
        self.finalize_current_period_into_best();
    }

    /// The best (longest) continuous period finalized so far.
    pub fn best_period(&self) -> (res: (Option<u64>, Option<u64>))
        ensures
            res == (self.best_period_start, self.best_period_end),
    {
        (self.best_period_start, self.best_period_end)
    }

    /// Keep the current period as the best one when it is strictly longer.
    pub fn finalize_current_period_into_best(&mut self)
        ensures
            *final(self) == finalize_spec(*old(self)),
    {
        if let (Some(start), Some(end)) = (self.current_period_start, self.current_period_end) {
            let duration = end.saturating_sub(start);
            let best_duration = if let (Some(bstart), Some(bend)) = (
                self.best_period_start,
                self.best_period_end,
            ) {
                bend.saturating_sub(bstart)
            } else {
                0
            };
            if duration > best_duration {
                self.best_period_start = self.current_period_start;
                self.best_period_end = self.current_period_end;
            }
        }
    }
}

/// Finalizing keeps the state well formed and never shortens the best period;
/// afterwards the best period is at least as long as the current one.
pub proof fn lemma_finalize_keeps_longest(s: TimeSemantics)
    requires
        s.wf(),
    ensures
        finalize_spec(s).wf(),
        period_len(finalize_spec(s).best_period_start, finalize_spec(s).best_period_end)
            >= period_len(s.best_period_start, s.best_period_end),
        period_len(finalize_spec(s).best_period_start, finalize_spec(s).best_period_end)
            >= period_len(s.current_period_start, s.current_period_end),
{
}

/// Every step keeps the state well formed, never shortens the best period,
/// and accepts a frame exactly when no earlier accepted frame is later.
pub proof fn lemma_on_time_invariants(s: TimeSemantics, t: u64)
    requires
        s.wf(),
    ensures
        on_time_spec(s, t).0.wf(),
        period_len(on_time_spec(s, t).0.best_period_start, on_time_spec(s, t).0.best_period_end)
            >= period_len(s.best_period_start, s.best_period_end),
        (on_time_spec(s, t).1 == FrameAction::Skip) <==> (s.last_time_us matches Some(l) && t
            < l),
        on_time_spec(s, t).1 != FrameAction::Skip ==> on_time_spec(s, t).0.last_time_us == Some(
            t,
        ),
{
    if let Some(last) = s.last_time_us {
        if t >= last && t > last + MAX_FORWARD_JUMP_US {
            lemma_finalize_keeps_longest(s);
        }
    }
}

/// The time of the last accepted frame never decreases, and a frame at
/// the same time as the last accepted one is accepted.
pub proof fn lemma_accepted_time_never_decreases(s: TimeSemantics, t: u64)
    requires
        s.wf(),
    ensures
        s.last_time_us matches Some(l) ==> on_time_spec(s, t).0.last_time_us matches Some(l2)
            && l <= l2,
        s.last_time_us == Some(t) ==> on_time_spec(s, t).1 == FrameAction::AcceptSamePeriod,
{
}

/// How a frame time moves the periods: the first frame opens a period at
/// its time; a frame at most 10 s after the last accepted one extends the
/// current period (same start, new end) and leaves the best period alone; a
/// later frame opens a new period at its time after keeping the closed one
/// as the best when it is strictly longer than the best so far.
pub proof fn lemma_on_time_periods(s: TimeSemantics, t: u64)
    requires
        s.wf(),
    ensures
        ({
            let (n, a) = on_time_spec(s, t);
            &&& s.last_time_us is None ==> a == FrameAction::AcceptNewPeriod && n.current_period_start
                == Some(t) && n.best_period_start == s.best_period_start && n.best_period_end
                == s.best_period_end
            &&& (s.last_time_us matches Some(l) && l <= t && t <= l + 10_000_000) ==> a
                == FrameAction::AcceptSamePeriod && n.current_period_start == s.current_period_start
                && n.current_period_end == Some(t) && n.best_period_start == s.best_period_start
                && n.best_period_end == s.best_period_end
            &&& (s.last_time_us matches Some(l) && t > l + 10_000_000) ==> a
                == FrameAction::AcceptNewPeriod && n.current_period_start == Some(t)
                && n.current_period_end == Some(t) && (if period_len(
                s.current_period_start,
                s.current_period_end,
            ) > period_len(s.best_period_start, s.best_period_end) {
                n.best_period_start == s.current_period_start && n.best_period_end
                    == s.current_period_end
            } else {
                n.best_period_start == s.best_period_start && n.best_period_end == s.best_period_end
            })
        }),
{
}

/// Assigns event timestamps from the next main frame (Betaflight semantics).
#[derive(Debug, Clone)]
pub struct EventBackfiller {
    /// Events collected in order; None means time not assigned yet
    pub event_times_us: Vec<Option<u64>>,
    /// Indices of events waiting for the next main-frame time
    pub pending_indices: Vec<usize>,
}

/// `times` with every index listed in `pending` (and in range) set to `t`.
pub open spec fn assign_pending(times: Seq<Option<u64>>, pending: Seq<usize>, t: u64) -> Seq<
    Option<u64>,
> {
    Seq::new(times.len(), |i: int| if pending.contains(i as usize) { Some(t) } else { times[i] })
}

impl EventBackfiller {
    /// No events yet.
    pub fn new() -> (res: Self)
        ensures
            res.event_times_us@ == Seq::<Option<u64>>::empty(),
            res.pending_indices@ == Seq::<usize>::empty(),
    {
        EventBackfiller { event_times_us: Vec::new(), pending_indices: Vec::new() }
    }

    /// Every event without a time is pending, and every pending index names
    /// an event without a time.
    pub open spec fn wf(&self) -> bool {
        &&& forall|k: int|
            0 <= k < self.pending_indices@.len() ==> #[trigger] self.pending_indices@[k]
                < self.event_times_us@.len()
        &&& forall|i: int|
            0 <= i < self.event_times_us@.len() ==> (#[trigger] self.event_times_us@[i] is None
                <==> self.pending_indices@.contains(i as usize))
    }

    /// Called when an event is encountered without a known timestamp.
    pub fn on_event_without_time(&mut self)
        requires
            old(self).wf(),
        ensures
            final(self).wf(),
            final(self).event_times_us@ == old(self).event_times_us@.push(None),
            final(self).pending_indices@ == old(self).pending_indices@.push(
                old(self).event_times_us@.len() as usize,
            ),
    {
        let idx = self.event_times_us.len();
        self.event_times_us.push(None);
        self.pending_indices.push(idx);
        proof {
            assert forall|i: int| 0 <= i < self.event_times_us@.len() implies (
            #[trigger] self.event_times_us@[i] is None <==> self.pending_indices@.contains(
                i as usize,
            )) by {
                if i < idx {
                    if old(self).pending_indices@.contains(i as usize) {
                        let k = choose|k: int|
                            0 <= k < old(self).pending_indices@.len()
                                && #[trigger] old(self).pending_indices@[k] == i as usize;
                        assert(self.pending_indices@[k] == i as usize);
                    }
                    if self.pending_indices@.contains(i as usize) {
                        let k = choose|k: int|
                            0 <= k < self.pending_indices@.len() && #[trigger] self.pending_indices@[k]
                                == i as usize;
                        assert(k < old(self).pending_indices@.len());
                        assert(old(self).pending_indices@[k] == i as usize);
                    }
                } else {
                    assert(self.pending_indices@[self.pending_indices@.len() - 1] == idx);
                }
            }
        }
    }

    /// Assign `time_us` to every pending event and clear the pending list.
    fn assign_all(&mut self, time_us: u64)
        requires
            old(self).wf(),
        ensures
            final(self).wf(),
            final(self).event_times_us@ == assign_pending(
                old(self).event_times_us@,
                old(self).pending_indices@,
                time_us,
            ),
            final(self).pending_indices@ == Seq::<usize>::empty(),
    {
        let ghost old_times = self.event_times_us@;
        let ghost pend = self.pending_indices@;
        let n_events = self.event_times_us.len();
        let mut k: usize = 0;
        while k < self.pending_indices.len()
            invariant
                0 <= k <= pend.len(),
                old_times.len() == n_events,
                self.pending_indices@ == pend,
                self.event_times_us@.len() == old_times.len(),
                forall|j: int| 0 <= j < pend.len() ==> #[trigger] pend[j] < old_times.len(),
                forall|i: int|
                    0 <= i < old_times.len() ==> #[trigger] self.event_times_us@[i] == if pend.take(
                        k as int,
                    ).contains(i as usize) {
                        Some(time_us)
                    } else {
                        old_times[i]
                    },
            decreases pend.len() - k,
        {
            let idx = self.pending_indices[k];
            self.event_times_us.set(idx, Some(time_us));
            proof {
                assert forall|i: int| 0 <= i < old_times.len() implies #[trigger] self.event_times_us@[i]
                    == if pend.take(k + 1).contains(i as usize) {
                    Some(time_us)
                } else {
                    old_times[i]
                } by {
                    if pend.take(k + 1).contains(i as usize) && i != idx {
                        let j = choose|j: int|
                            0 <= j < k + 1 && #[trigger] pend.take(k + 1)[j] == i as usize;
                        assert(pend[j] == i as usize);
                        assert(pend[k as int] == idx);
                        assert(j != k);
                        assert(pend.take(k as int)[j] == i as usize);
                    }
                    if pend.take(k as int).contains(i as usize) {
                        let j = choose|j: int| 0 <= j < k && #[trigger] pend.take(k as int)[j] == i as usize;
                        assert(pend.take(k + 1)[j] == i as usize);
                    }
                    if i == idx {
                        assert(pend.take(k + 1)[k as int] == i as usize);
                    }
                }
            }
            k = k + 1;
        }
        self.pending_indices = Vec::new();
        proof {
            assert(pend.take(pend.len() as int) =~= pend);
            assert(self.event_times_us@ =~= assign_pending(old_times, pend, time_us));
            assert forall|i: int| 0 <= i < self.event_times_us@.len() implies (
            #[trigger] self.event_times_us@[i] is None <==> self.pending_indices@.contains(
                i as usize,
            )) by {
                if pend.contains(i as usize) {
                } else {
                    assert(old_times[i] is Some);
                }
            }
        }
    }

    /// Called when a main frame time is known; assigns this time to all pending events.
    pub fn on_main_frame_time(&mut self, time_us: u64)
        requires
            old(self).wf(),
        ensures
            final(self).wf(),
            final(self).event_times_us@ == assign_pending(
                old(self).event_times_us@,
                old(self).pending_indices@,
                time_us,
            ),
            final(self).pending_indices@ == Seq::<usize>::empty(),
    {
        if self.pending_indices.len() == 0 {
            proof {
                assert(self.event_times_us@ =~= assign_pending(
                    self.event_times_us@,
                    self.pending_indices@,
                    time_us,
                ));
                assert(self.pending_indices@ =~= Seq::<usize>::empty());
            }
            return;
        }
        self.assign_all(time_us);
    }

    /// Finalize at end-of-stream: assign any trailing events the last known
    /// time; with no known time they stay unassigned.
    pub fn finalize_end(&mut self, last_time_us: Option<u64>)
        requires
            old(self).wf(),
        ensures
            final(self).pending_indices@ == Seq::<usize>::empty(),
            match last_time_us {
                Some(t) => final(self).event_times_us@ == assign_pending(
                    old(self).event_times_us@,
                    old(self).pending_indices@,
                    t,
                ),
                None => final(self).event_times_us@ == old(self).event_times_us@,
            },
    {
        match last_time_us {
            Some(t) => {
                self.assign_all(t);
            },
            None => {
                self.pending_indices = Vec::new();
            },
        }
    }

    /// The collected event times.
    pub fn take_times(self) -> (res: Vec<Option<u64>>)
        ensures
            res@ == self.event_times_us@,
    {
        self.event_times_us
    }
}

/// Once a known time has been handed out, no event is left without one.
pub proof fn lemma_backfill_complete(b: EventBackfiller, t: u64)
    requires
        b.wf(),
    ensures
        forall|i: int|
            0 <= i < b.event_times_us@.len() ==> #[trigger] assign_pending(
                b.event_times_us@,
                b.pending_indices@,
                t,
            )[i] is Some,
{
}

} // verus!
