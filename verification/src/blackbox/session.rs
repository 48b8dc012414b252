//! Session scanning: the per-event decisions of the main parse of one
//! session, the per-session survey that estimates each session's length,
//! and the choice of which session to analyze.
//!
//! The frames themselves come from the log decoder; these state machines
//! take what the decoder reports (a main frame's raw time, or the kind of an
//! auxiliary frame) and say what to do next.

use crate::blackbox::timing::{
    assign_pending, finalize_spec, on_time_spec, EventBackfiller, FrameAction, TimeSemantics,
};
use crate::blackbox::{BlackboxError, ParsingConfig, ParsingStats, SessionStrategy};
use crate::text::{chars_of, concat, decimal, decimal_spec, string_of};
use vstd::prelude::*;

verus! {

/// A frame reported by the log decoder while one session is parsed.
#[derive(Debug, Clone, Copy, PartialEq, Eq, Structural)]
pub enum ScanEvent {
    /// A main frame with its raw time in microseconds
    Main(u64),
    /// A slow (auxiliary) frame
    Slow,
    /// A GPS frame
    Gps,
    /// An event frame
    Event,
}

/// What the caller does with the frame it just reported.
#[derive(Debug, Clone, Copy, PartialEq, Eq, Structural)]
pub enum ScanAction {
    /// Drop the main frame (its time went backwards)
    Skip,
    /// Extract the main frame's telemetry and go on
    Extract,
    /// Extract the main frame's telemetry, then stop (frame limit reached)
    ExtractAndStop,
    /// Nothing to extract from this frame
    Ignore,
}

/// `a` and `b` combined into the smaller of the two.
pub open spec fn opt_min(a: Option<u64>, t: u64) -> Option<u64> {
    match a {
        Some(m) => Some(if t < m { t } else { m }),
        None => Some(t),
    }
}

/// `a` and `b` combined into the larger of the two.
pub open spec fn opt_max(a: Option<u64>, t: u64) -> Option<u64> {
    match a {
        Some(m) => Some(if t > m { t } else { m }),
        None => Some(t),
    }
}

fn fold_min(a: Option<u64>, t: u64) -> (res: Option<u64>)
    ensures
        res == opt_min(a, t),
{
    match a {
        Some(m) => Some(if t < m { t } else { m }),
        None => Some(t),
    }
}

fn fold_max(a: Option<u64>, t: u64) -> (res: Option<u64>)
    ensures
        res == opt_max(a, t),
{
    match a {
        Some(m) => Some(if t > m { t } else { m }),
        None => Some(t),
    }
}

/// Microseconds rounded to the nearest millisecond (halves round up).
pub open spec fn round_ms_spec(us: u64) -> int {
    (us + 500) / 1000
}

/// Rounding to milliseconds picks the nearest whole millisecond, halves
/// going up: the result in microseconds is at most 500 above and less than
/// 500 below the input.
pub proof fn lemma_round_ms_nearest(us: u64)
    ensures
        round_ms_spec(us) * 1000 - 500 <= us < round_ms_spec(us) * 1000 + 500,
{
    let r = round_ms_spec(us);
    assert(r * 1000 <= us + 500 < r * 1000 + 1000) by (nonlinear_arith)
        requires
            r == (us + 500) / 1000,
            us >= 0,
    ;
}

/// Microseconds rounded to the nearest millisecond (halves round up).
pub fn round_to_ms(us: u64) -> (res: u64)
    ensures
        res == round_ms_spec(us),
{
    let q = us / 1000;
    let r = us % 1000;
    assert(us == 1000 * q + r && r < 1000) by (nonlinear_arith)
        requires
            q == us / 1000,
            r == us % 1000,
    ;
    assert((us + 500) / 1000 == q + (if r >= 500 { 1int } else { 0int })) by (nonlinear_arith)
        requires
            us == 1000 * q + r,
            0 <= r < 1000,
    ;
    if r >= 500 {
        q + 1
    } else {
        q
    }
}

/// Duration override of a scanned session: the best period when there is
/// one, else the overall time range, rounded to milliseconds.
pub open spec fn scan_duration_spec(
    best_start: Option<u64>,
    best_end: Option<u64>,
    min_time: Option<u64>,
    max_time: Option<u64>,
) -> Option<int> {
    match (best_start, best_end) {
        (Some(s), Some(e)) => Some(round_ms_spec(if e >= s { (e - s) as u64 } else { 0 })),
        _ => match (min_time, max_time) {
            (Some(lo), Some(hi)) => Some(round_ms_spec(if hi >= lo { (hi - lo) as u64 } else { 0 })),
            _ => None,
        },
    }
}

/// State of the main parse of the selected session.
#[derive(Debug, Clone)]
pub struct SessionScan {
    /// Frame limit from the configuration
    pub max_frames: Option<u64>,
    /// Main frames seen in this session, dropped ones included
    pub main_frame_count: u64,
    /// Parser statistics, updated frame by frame
    pub stats: ParsingStats,
    /// Frame-time semantics
    pub time: TimeSemantics,
    /// Event time backfilling
    pub backfill: EventBackfiller,
    /// Earliest accepted main-frame time
    pub min_time: Option<u64>,
    /// Latest accepted main-frame time
    pub max_time: Option<u64>,
}

/// What a finished scan hands back.
#[derive(Debug, Clone)]
pub struct ScanOutcome {
    /// Statistics with `total_frames` set to this session's main frames
    pub stats: ParsingStats,
    /// Main frames seen in this session, dropped ones included
    pub main_frame_count: u64,
    /// Backfilled event times, one per event frame
    pub event_times: Vec<Option<u64>>,
    /// Earliest accepted main-frame time
    pub min_time: Option<u64>,
    /// Latest accepted main-frame time
    pub max_time: Option<u64>,
    /// Duration from the frame times, in milliseconds
    pub duration_ms: Option<u64>,
}

impl SessionScan {
    /// A scan before the first frame, carrying the parser's statistics.
    pub fn new(max_frames: Option<u64>, stats: ParsingStats) -> (res: Self)
        ensures
            res.wf(),
            res.max_frames == max_frames,
            res.stats == stats,
            res.main_frame_count == 0,
            res.time == TimeSemantics::initial(),
            res.backfill.event_times_us@.len() == 0,
            res.min_time is None,
            res.max_time is None,
    {
        SessionScan {
            max_frames,
            main_frame_count: 0,
            stats,
            time: TimeSemantics::new(),
            backfill: EventBackfiller::new(),
            min_time: None,
            max_time: None,
        }
    }

    /// Well-formed scan state.
    pub open spec fn wf(&self) -> bool {
        &&& self.time.wf()
        &&& self.backfill.wf()
        &&& (self.min_time is Some <==> self.max_time is Some)
        &&& (self.min_time matches Some(lo) ==> self.max_time matches Some(hi) && lo <= hi)
    }

    /// No counter that the next frame advances is at its limit.
    pub open spec fn can_count(&self) -> bool {
        &&& self.main_frame_count < u64::MAX
        &&& self.stats.main_frames < u64::MAX
        &&& self.stats.slow_frames < u64::MAX
        &&& self.stats.gps_frames < u64::MAX
        &&& self.stats.event_frames < u64::MAX
    }

    /// Whether the counters can take one more frame.
    pub fn has_room(&self) -> (res: bool)
        ensures
            res == self.can_count(),
    {
        self.main_frame_count < u64::MAX && self.stats.main_frames < u64::MAX
            && self.stats.slow_frames < u64::MAX && self.stats.gps_frames < u64::MAX
            && self.stats.event_frames < u64::MAX
    }

    /// Account for one reported frame and say what to do with it.
    ///
    /// A main frame is counted, then judged by its time: a frame earlier
    /// than the last accepted one is dropped; otherwise its time is handed
    /// to the pending events, the time range grows to cover it, and it is
    /// extracted, the last one when the frame limit is reached. An event
    /// frame waits for the next accepted main-frame time.
    pub fn on_event(&mut self, ev: ScanEvent) -> (act: ScanAction)
        requires
            old(self).wf(),
            old(self).can_count(),
        ensures
            final(self).wf(),
            final(self).max_frames == old(self).max_frames,
            match ev {
                ScanEvent::Main(t) => {
                    let (next_time, fa) = on_time_spec(old(self).time, t);
                    &&& final(self).main_frame_count == old(self).main_frame_count + 1
                    &&& final(self).stats == (ParsingStats {
                        main_frames: (old(self).stats.main_frames + 1) as u64,
                        ..old(self).stats
                    })
                    &&& final(self).time == next_time
                    &&& if fa == FrameAction::Skip {
                        &&& act == ScanAction::Skip
                        &&& final(self).backfill == old(self).backfill
                        &&& final(self).min_time == old(self).min_time
                        &&& final(self).max_time == old(self).max_time
                    } else {
                        &&& final(self).backfill.event_times_us@ == assign_pending(
                            old(self).backfill.event_times_us@,
                            old(self).backfill.pending_indices@,
                            t,
                        )
                        &&& final(self).backfill.pending_indices@.len() == 0
                        &&& final(self).min_time == opt_min(old(self).min_time, t)
                        &&& final(self).max_time == opt_max(old(self).max_time, t)
                        &&& act == if (old(self).max_frames matches Some(m)
                            && final(self).main_frame_count >= m) {
                            ScanAction::ExtractAndStop
                        } else {
                            ScanAction::Extract
                        }
                    }
                },
                ScanEvent::Event => {
                    &&& act == ScanAction::Ignore
                    &&& final(self).stats == (ParsingStats {
                        event_frames: (old(self).stats.event_frames + 1) as u64,
                        ..old(self).stats
                    })
                    &&& final(self).backfill.event_times_us@ == old(
                        self,
                    ).backfill.event_times_us@.push(None)
                    &&& final(self).main_frame_count == old(self).main_frame_count
                    &&& final(self).time == old(self).time
                    &&& final(self).min_time == old(self).min_time
                    &&& final(self).max_time == old(self).max_time
                },
                ScanEvent::Slow => {
                    &&& act == ScanAction::Ignore
                    &&& final(self).stats == (ParsingStats {
                        slow_frames: (old(self).stats.slow_frames + 1) as u64,
                        ..old(self).stats
                    })
                    &&& final(self).backfill == old(self).backfill
                    &&& final(self).main_frame_count == old(self).main_frame_count
                    &&& final(self).time == old(self).time
                    &&& final(self).min_time == old(self).min_time
                    &&& final(self).max_time == old(self).max_time
                },
                ScanEvent::Gps => {
                    &&& act == ScanAction::Ignore
                    &&& final(self).stats == (ParsingStats {
                        gps_frames: (old(self).stats.gps_frames + 1) as u64,
                        ..old(self).stats
                    })
                    &&& final(self).backfill == old(self).backfill
                    &&& final(self).main_frame_count == old(self).main_frame_count
                    &&& final(self).time == old(self).time
                    &&& final(self).min_time == old(self).min_time
                    &&& final(self).max_time == old(self).max_time
                },
            },
    {
        match ev {
            ScanEvent::Main(t) => {
                self.main_frame_count = self.main_frame_count + 1;
                self.stats.main_frames = self.stats.main_frames + 1;
                proof {
                    crate::blackbox::timing::lemma_on_time_invariants(self.time, t);
                }
                let fa = self.time.on_time(t);
                match fa {
                    FrameAction::Skip => {
                        return ScanAction::Skip;
                    },
                    _ => {},
                }
                self.backfill.on_main_frame_time(t);
                self.min_time = fold_min(self.min_time, t);
                self.max_time = fold_max(self.max_time, t);
                match self.max_frames {
                    Some(m) => {
                        if self.main_frame_count >= m {
                            ScanAction::ExtractAndStop
                        } else {
                            ScanAction::Extract
                        }
                    },
                    None => ScanAction::Extract,
                }
            },
            ScanEvent::Slow => {
                self.stats.slow_frames = self.stats.slow_frames + 1;
                ScanAction::Ignore
            },
            ScanEvent::Gps => {
                self.stats.gps_frames = self.stats.gps_frames + 1;
                ScanAction::Ignore
            },
            ScanEvent::Event => {
                self.stats.event_frames = self.stats.event_frames + 1;
                self.backfill.on_event_without_time();
                ScanAction::Ignore
            },
        }
    }

    /// Close the scan: pending events get the end of the best period
    /// finalized before the last one closes (or stay without a time), the
    /// last period is then finalized, and the duration comes from the best
    /// period, else from the overall time range.
    pub fn finish(self) -> (res: ScanOutcome)
        requires
            self.wf(),
        ensures
            res.stats == (ParsingStats { total_frames: self.main_frame_count, ..self.stats }),
            res.main_frame_count == self.main_frame_count,
            res.event_times@ == match self.time.best_period_end {
                Some(t) => assign_pending(
                    self.backfill.event_times_us@,
                    self.backfill.pending_indices@,
                    t,
                ),
                None => self.backfill.event_times_us@,
            },
            res.min_time == self.min_time,
            res.max_time == self.max_time,
            match scan_duration_spec(
                finalize_spec(self.time).best_period_start,
                finalize_spec(self.time).best_period_end,
                self.min_time,
                self.max_time,
            ) {
                Some(ms) => res.duration_ms == Some(ms as u64),
                None => res.duration_ms is None,
            },
    {
        let mut scan = self;
        let (_best_start, best_end) = scan.time.best_period();
        scan.backfill.finalize_end(best_end);
        let event_times = scan.backfill.take_times();
        scan.time.finalize_at_end();
        let duration_ms = match scan.time.best_period() {
            (Some(s), Some(e)) => Some(round_to_ms(e.saturating_sub(s))),
            _ => match (scan.min_time, scan.max_time) {
                (Some(lo), Some(hi)) => Some(round_to_ms(hi.saturating_sub(lo))),
                _ => None,
            },
        };
        let mut stats = scan.stats;
        stats.total_frames = scan.main_frame_count;
        ScanOutcome {
            stats,
            main_frame_count: scan.main_frame_count,
            event_times,
            min_time: scan.min_time,
            max_time: scan.max_time,
            duration_ms,
        }
    }
}

/// What a session's length estimate is based on, in decreasing preference.
#[derive(Debug, Clone, Copy, PartialEq, Eq, Structural)]
pub enum DurationBasis {
    /// Length of the longest continuous period, in microseconds
    BestPeriodUs(u64),
    /// Overall range of accepted frame times, in microseconds
    RangeUs(u64),
    /// Range of loop iterations of accepted frames
    IterationRange(u64),
    /// Only the number of main frames is known
    Frames(u64),
}

/// The length basis of a surveyed session.
pub open spec fn survey_basis_spec(
    time: TimeSemantics,
    min_time: Option<u64>,
    max_time: Option<u64>,
    min_iteration: Option<u64>,
    max_iteration: Option<u64>,
    main_frames: u64,
) -> DurationBasis {
    let t = finalize_spec(time);
    match (t.best_period_start, t.best_period_end) {
        (Some(s), Some(e)) => DurationBasis::BestPeriodUs((e - s) as u64),
        _ => match (min_time, max_time) {
            (Some(lo), Some(hi)) => DurationBasis::RangeUs((hi - lo) as u64),
            _ => match (min_iteration, max_iteration) {
                (Some(lo), Some(hi)) => DurationBasis::IterationRange((hi - lo) as u64),
                _ => DurationBasis::Frames(main_frames),
            },
        },
    }
}

/// Survey of one session: how many main frames it has and how long it is.
#[derive(Debug, Clone, Copy, PartialEq, Eq, Structural)]
pub struct SessionSurvey {
    /// Main frames seen, dropped ones included
    pub main_frame_count: u64,
    /// Frame-time semantics
    pub time: TimeSemantics,
    /// Earliest accepted main-frame time
    pub min_time: Option<u64>,
    /// Latest accepted main-frame time
    pub max_time: Option<u64>,
    /// Smallest loop iteration of an accepted frame
    pub min_iteration: Option<u64>,
    /// Largest loop iteration of an accepted frame
    pub max_iteration: Option<u64>,
}

impl SessionSurvey {
    /// A survey before the first frame.
    pub fn new() -> (res: Self)
        ensures
            res.wf(),
            res.main_frame_count == 0,
            res.time == TimeSemantics::initial(),
            res.min_time is None,
            res.max_time is None,
            res.min_iteration is None,
            res.max_iteration is None,
    {
        SessionSurvey {
            main_frame_count: 0,
            time: TimeSemantics::new(),
            min_time: None,
            max_time: None,
            min_iteration: None,
            max_iteration: None,
        }
    }

    /// Well-formed survey state: each range has both bounds or neither,
    /// in order.
    pub open spec fn wf(&self) -> bool {
        &&& self.time.wf()
        &&& (self.min_time is Some <==> self.max_time is Some)
        &&& (self.min_time matches Some(lo) ==> self.max_time matches Some(hi) && lo <= hi)
        &&& (self.min_iteration is Some <==> self.max_iteration is Some)
        &&& (self.min_iteration matches Some(lo) ==> self.max_iteration matches Some(hi) && lo
            <= hi)
    }

    /// Account for one main frame with its raw time and, when the session
    /// logs one, its loop iteration. A frame earlier than the last accepted
    /// one is counted and dropped; an accepted frame widens the time range
    /// and the iteration range.
    pub fn on_main(&mut self, time_us: u64, iteration: Option<u64>) -> (res: FrameAction)
        requires
            old(self).wf(),
            old(self).main_frame_count < u64::MAX,
        ensures
            final(self).wf(),
            final(self).main_frame_count == old(self).main_frame_count + 1,
            (final(self).time, res) == on_time_spec(old(self).time, time_us),
            res == FrameAction::Skip ==> {
                &&& final(self).min_time == old(self).min_time
                &&& final(self).max_time == old(self).max_time
                &&& final(self).min_iteration == old(self).min_iteration
                &&& final(self).max_iteration == old(self).max_iteration
            },
            res != FrameAction::Skip ==> {
                &&& final(self).min_time == opt_min(old(self).min_time, time_us)
                &&& final(self).max_time == opt_max(old(self).max_time, time_us)
                &&& final(self).min_iteration == match iteration {
                    Some(it) => opt_min(old(self).min_iteration, it),
                    None => old(self).min_iteration,
                }
                &&& final(self).max_iteration == match iteration {
                    Some(it) => opt_max(old(self).max_iteration, it),
                    None => old(self).max_iteration,
                }
            },
    {
        self.main_frame_count = self.main_frame_count + 1;
        proof {
            crate::blackbox::timing::lemma_on_time_invariants(self.time, time_us);
        }
        let fa = self.time.on_time(time_us);
        match fa {
            FrameAction::Skip => {
                return fa;
            },
            _ => {},
        }
        self.min_time = fold_min(self.min_time, time_us);
        self.max_time = fold_max(self.max_time, time_us);
        if let Some(it) = iteration {
            self.min_iteration = fold_min(self.min_iteration, it);
            self.max_iteration = fold_max(self.max_iteration, it);
        }
        fa
    }

    /// Close the survey: the last period is finalized and the length is
    /// taken from the best period, else the time range, else the iteration
    /// range, else the frame count.
    pub fn finish(self) -> (res: (u64, DurationBasis))
        requires
            self.wf(),
        ensures
            res.0 == self.main_frame_count,
            res.1 == survey_basis_spec(
                self.time,
                self.min_time,
                self.max_time,
                self.min_iteration,
                self.max_iteration,
                self.main_frame_count,
            ),
    {
        let mut time = self.time;
        proof {
            crate::blackbox::timing::lemma_finalize_keeps_longest(time);
        }
        time.finalize_at_end();
        let basis = match time.best_period() {
            (Some(s), Some(e)) => DurationBasis::BestPeriodUs(e - s),
            _ => match (self.min_time, self.max_time) {
                (Some(lo), Some(hi)) => DurationBasis::RangeUs(hi - lo),
                _ => match (self.min_iteration, self.max_iteration) {
                    (Some(lo), Some(hi)) => DurationBasis::IterationRange(hi - lo),
                    _ => DurationBasis::Frames(self.main_frame_count),
                },
            },
        };
        (self.main_frame_count, basis)
    }
}

/// The session a configuration asks for: an explicit index, else the one
/// its strategy names (the last one when it names none).
pub open spec fn requested_session(
    config: ParsingConfig,
    total_sessions: usize,
    longest_index: usize,
) -> int {
    match config.selected_session {
        Some(i) => i as int,
        None => match config.session_strategy {
            Some(SessionStrategy::First) => 0,
            Some(SessionStrategy::Longest) => longest_index as int,
            _ => if total_sessions > 0 {
                total_sessions - 1
            } else {
                0
            },
        },
    }
}

/// The session choice: an explicit index is taken as given; without one,
/// the first strategy picks session 0, the longest strategy the longest
/// session, and the last strategy or no strategy the most recent session.
/// Without an explicit index the choice is always a session of the file
/// (when it has any and the longest index names one of them).
pub proof fn lemma_session_choice(config: ParsingConfig, total_sessions: usize, longest_index: usize)
    ensures
        config.selected_session matches Some(i) ==> requested_session(
            config,
            total_sessions,
            longest_index,
        ) == i,
        config.selected_session is None && config.session_strategy == Some(SessionStrategy::First)
            ==> requested_session(config, total_sessions, longest_index) == 0,
        config.selected_session is None && config.session_strategy == Some(
            SessionStrategy::Longest,
        ) ==> requested_session(config, total_sessions, longest_index) == longest_index,
        config.selected_session is None && (config.session_strategy is None
            || config.session_strategy == Some(SessionStrategy::Last)) && total_sessions > 0
            ==> requested_session(config, total_sessions, longest_index) == total_sessions - 1,
        config.selected_session is None && total_sessions > 0 && longest_index < total_sessions
            ==> 0 <= requested_session(config, total_sessions, longest_index) < total_sessions,
{
}

/// The message for a session index out of range.
pub open spec fn invalid_session_message(index: int, total_sessions: int) -> Seq<char> {
    "Invalid session index "@ + decimal_spec(index as nat) + ". File contains "@ + decimal_spec(
        total_sessions as nat,
    ) + " session(s) (valid range: 0-"@ + decimal_spec(
        (if total_sessions > 0 {
            total_sessions - 1
        } else {
            0
        }) as nat,
    ) + ")"@
}

/// Choose the session to analyze among `total_sessions` surveyed ones.
///
/// `longest_index` is the index of the session with the longest length
/// estimate, used by the `Longest` strategy. An index past the last
/// session is refused with a parse error that names the valid range.
pub fn select_session(config: &ParsingConfig, total_sessions: usize, longest_index: usize) -> (res:
    Result<usize, BlackboxError>)
    ensures
        match res {
            Ok(i) => i == requested_session(*config, total_sessions, longest_index) && i
                < total_sessions,
            Err(e) => requested_session(*config, total_sessions, longest_index) >= total_sessions
                && (e matches BlackboxError::Parse(m) && m@ == invalid_session_message(
                requested_session(*config, total_sessions, longest_index),
                total_sessions as int,
            )),
        },
{
    let index: usize = match config.selected_session {
        Some(i) => i,
        None => match config.session_strategy {
            Some(SessionStrategy::First) => 0,
            Some(SessionStrategy::Longest) => longest_index,
            _ => total_sessions.saturating_sub(1),
        },
    };
    if index >= total_sessions {
        let last = total_sessions.saturating_sub(1);
        let a = concat(&chars_of("Invalid session index "), &decimal(index as u64));
        let b = concat(&a, &chars_of(". File contains "));
        let c = concat(&b, &decimal(total_sessions as u64));
        let d = concat(&c, &chars_of(" session(s) (valid range: 0-"));
        let e = concat(&d, &decimal(last as u64));
        let m = concat(&e, &chars_of(")"));
        return Err(BlackboxError::Parse(string_of(&m)));
    }
    Ok(index)
}

} // verus!
