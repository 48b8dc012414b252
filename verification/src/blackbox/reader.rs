//! Reading Betaflight logs through the `blackbox-log` crate: the survey of
//! every session in a file, and the scan of the selected session.
//!
//! The crate does the byte-level decoding; each of its calls stands behind
//! a small wrapper that turns what it returns into plain values. The loops
//! that walk the sessions and the frames, and every decision taken on the
//! way, are verified here against the sequence of frames the crate
//! reported, which the results carry as a ghost value.

use crate::blackbox::fields::{
    all3, all4, extract_field_mappings, last_with_role, name_views, positions_with_role, FieldRole,
};
use crate::blackbox::session::{
    invalid_session_message, opt_max, opt_min, requested_session, scan_duration_spec,
    select_session, survey_basis_spec, DurationBasis, ScanAction, ScanEvent, SessionScan,
    SessionSurvey,
};
use crate::blackbox::timing::{finalize_spec, on_time_spec, FrameAction, TimeSemantics};
use crate::blackbox::{BlackboxError, FieldMappings, ParsingConfig, ParsingStats};
use crate::info_map::InfoMap;
use crate::text::{chars_of, concat, string_of};
use vstd::prelude::*;

verus! {

/// The parsed headers of one log.
#[verifier::external_type_specification]
#[verifier::external_body]
pub struct ExBbHeaders<'data>(blackbox_log::Headers<'data>);

/// The frame parser of one log.
#[verifier::external_type_specification]
#[verifier::external_body]
pub struct ExBbDataParser<'data, 'headers>(blackbox_log::DataParser<'data, 'headers>);

/// One frame reported by the frame parser, as plain values.
#[derive(Debug, Clone, Copy, PartialEq, Eq, Structural)]
pub enum LogEvent {
    /// A main frame with its raw microsecond time and its loop iteration
    Main {
        /// Raw microsecond counter since power on
        time_us: u64,
        /// Raw loop-iteration value
        iteration: Option<u64>,
    },
    /// A slow frame
    Slow,
    /// A GPS frame
    Gps,
    /// An event frame
    Event,
}

/// The start marker of a log, as `blackbox_log` searches for it.
pub open spec fn log_marker() -> Seq<char> {
    "H Product:Blackbox flight data recorder by Nicholas Sherlock\n"@
}

/// Whether the log marker occurs in `data` at `at`.
pub open spec fn marker_at(data: Seq<u8>, at: int) -> bool {
    &&& 0 <= at
    &&& at + log_marker().len() <= data.len()
    &&& forall|k: int| 0 <= k < log_marker().len() ==> data[at + k] as char == #[trigger] log_marker()[k]
}

/// The number of non-overlapping log markers in `data` from `from` on,
/// found left to right.
pub open spec fn markers_from(data: Seq<u8>, from: int) -> nat
    decreases data.len() - from,
{
    if from < 0 || from >= data.len() {
        0
    } else if marker_at(data, from) && log_marker().len() > 0 {
        1 + markers_from(data, from + log_marker().len())
    } else {
        markers_from(data, from + 1)
    }
}

/// The number of log start markers in `data` (`blackbox_log::File::log_count`:
/// the non-overlapping occurrences `memmem::find_iter` reports).
pub open spec fn bb_log_count(data: Seq<u8>) -> nat {
    markers_from(data, 0)
}

/// Whether the headers of log `index` of `data` parse, with the debug text
/// of the crate's error when they do not; none past the last log.
pub uninterp spec fn bb_log_headers(data: Seq<u8>, index: nat) -> Option<Result<(), Seq<char>>>;

/// The file and log index a parsed header set was read from.
pub uninterp spec fn headers_origin(headers: blackbox_log::Headers) -> (Seq<u8>, nat);

/// The names of the main-frame fields of log `index` of `data`, in order.
pub uninterp spec fn bb_field_names(data: Seq<u8>, index: nat) -> Seq<Seq<char>>;

/// The configuration headers of log `index` of `data` that the crate does
/// not interpret, by name.
pub uninterp spec fn bb_unknown_headers(data: Seq<u8>, index: nat) -> Map<Seq<char>, Seq<char>>;

/// The frames a fresh frame parser of the crate reports for log `index` of
/// `data`, in order and as plain values, up to its first `None`.
pub uninterp spec fn bb_log_frames(data: Seq<u8>, index: nat) -> Seq<LogEvent>;

/// The frames a frame parser has still to report before its next `None`.
/// Nothing is named of what it reports after a `None`.
pub uninterp spec fn parser_frames(parser: blackbox_log::DataParser) -> Seq<LogEvent>;

/// The loop iteration of the last main frame a frame parser reported.
pub uninterp spec fn parser_last_iteration(parser: blackbox_log::DataParser) -> Option<u64>;

/// The largest loop iteration a log can carry. The crate computes the
/// iteration of an inter frame as one more than the last main frame's, in
/// unchecked `u32` arithmetic, so no frame may be read after a main frame
/// that carries this one.
pub open spec fn iteration_limit() -> u64 {
    0xffff_ffff
}

/// `blackbox_log::File::log_count` of `File::new(data)`: the number of log
/// start markers.
#[verifier::external_body]
fn log_count(data: &[u8]) -> (res: usize)
    ensures
        res == bb_log_count(data@),
{
    blackbox_log::File::new(data).log_count()
}

/// The headers of log `index` of `data` as `blackbox_log::File::iter`
/// yields them (parsed from its start marker on), or the debug text of the
/// crate's error; none past the last log.
#[verifier::external_body]
fn log_headers<'data>(data: &'data [u8], index: usize) -> (res: Option<
    Result<blackbox_log::Headers<'data>, String>,
>)
    ensures
        res is Some <==> index < bb_log_count(data@),
        match res {
            None => bb_log_headers(data@, index as nat) is None,
            Some(Ok(h)) => bb_log_headers(data@, index as nat) == Some(Ok::<(), Seq<char>>(()))
                && headers_origin(h) == (data@, index as nat),
            Some(Err(e)) => bb_log_headers(data@, index as nat) == Some(Err::<(), Seq<char>>(e@)),
        },
{
    blackbox_log::File::new(data).iter().nth(index).map(|r| r.map_err(|e| format!("{:?}", e)))
}

/// The names of the main-frame fields, in order
/// (`blackbox_log::Headers::main_frame_def`).
#[verifier::external_body]
fn main_field_names(headers: &blackbox_log::Headers) -> (res: Vec<String>)
    ensures
        name_views(res@) == bb_field_names(headers_origin(*headers).0, headers_origin(*headers).1),
{
    let def = headers.main_frame_def();
    blackbox_log::frame::FrameDef::iter(def).map(|f| f.name.to_string()).collect()
}

/// The configuration headers the crate does not interpret
/// (`blackbox_log::Headers::unknown`), as name and value pairs in the order
/// the crate's hash map walks them (that order is not stated). The names
/// are pairwise distinct, as the keys of a map are.
#[verifier::external_body]
fn unknown_headers(headers: &blackbox_log::Headers) -> (res: Vec<(String, String)>)
    ensures
        forall|i: int, j: int|
            0 <= i < j < res@.len() ==> #[trigger] res@[i].0@ != #[trigger] res@[j].0@,
        pairs_map(pair_views(res@)) == bb_unknown_headers(
            headers_origin(*headers).0,
            headers_origin(*headers).1,
        ),
{
    headers.unknown().iter().map(|(k, v)| (k.to_string(), v.to_string())).collect()
}

/// `blackbox_log::Headers::data_parser`: a frame parser at the first frame
/// of the log.
#[verifier::external_body]
fn data_parser<'data, 'headers>(
    headers: &'headers blackbox_log::Headers<'data>,
) -> (res: blackbox_log::DataParser<'data, 'headers>)
    ensures
        parser_frames(res) == bb_log_frames(headers_origin(*headers).0, headers_origin(*headers).1),
        parser_last_iteration(res) is None,
{
    headers.data_parser()
}

/// `blackbox_log::DataParser::next`: the next frame, or none at the end of
/// the log. After a `None` nothing is stated of the parser (the crate may
/// stop in the middle of a truncated frame without marking itself done, so
/// a later call could still yield frames); callers stop there. A main
/// frame reports its raw time (`MainFrame::time_raw`) and its loop
/// iteration (`Frame::get_raw` of field 0, which the crate's
/// default filter keeps first). Not to be called once a main frame with the
/// largest loop iteration was reported: the crate's unchecked iteration
/// arithmetic may then overflow.
#[verifier::external_body]
fn next_event(parser: &mut blackbox_log::DataParser) -> (res: Option<LogEvent>)
    requires
        parser_last_iteration(*old(parser)) != Some(iteration_limit()),
    ensures
        res == if parser_frames(*old(parser)).len() == 0 {
            None
        } else {
            Some(parser_frames(*old(parser))[0])
        },
        res is Some ==> parser_frames(*final(parser)) == parser_frames(*old(parser)).drop_first(),
        res matches Some(LogEvent::Main { iteration, .. }) ==> iteration is Some
            && parser_last_iteration(*final(parser)) == iteration,
        (res is Some && !(res matches Some(LogEvent::Main { .. }))) ==> parser_last_iteration(
            *final(parser),
        ) == parser_last_iteration(*old(parser)),
{
    match parser.next()? {
        blackbox_log::ParserEvent::Main(f) => Some(LogEvent::Main {
            time_us: f.time_raw(),
            iteration: blackbox_log::frame::Frame::get_raw(&f, 0).map(|v| v as u64),
        }),
        blackbox_log::ParserEvent::Slow(_) => Some(LogEvent::Slow),
        blackbox_log::ParserEvent::Gps(_) => Some(LogEvent::Gps),
        blackbox_log::ParserEvent::Event(_) => Some(LogEvent::Event),
    }
}

/// The loop iteration of the last main frame of `events`.
pub open spec fn last_main_iteration(events: Seq<LogEvent>) -> Option<u64>
    decreases events.len(),
{
    if events.len() == 0 {
        None
    } else {
        match events.last() {
            LogEvent::Main { iteration, .. } => iteration,
            _ => last_main_iteration(events.drop_last()),
        }
    }
}

/// Whether reading must stop after `events`: the last main frame carries
/// the largest loop iteration.
pub open spec fn at_iteration_limit(events: Seq<LogEvent>) -> bool {
    last_main_iteration(events) == Some(iteration_limit())
}

// ---------------------------------------------------------------------
// Session survey
// ---------------------------------------------------------------------

/// The survey state before any frame.
pub open spec fn survey_initial() -> SessionSurvey {
    SessionSurvey {
        main_frame_count: 0,
        time: TimeSemantics::initial(),
        min_time: None,
        max_time: None,
        min_iteration: None,
        max_iteration: None,
    }
}

/// A survey after one more main frame: it is counted, then dropped when
/// its time goes back, else it widens the time and iteration ranges.
pub open spec fn survey_step(s: SessionSurvey, time_us: u64, iteration: Option<u64>) -> SessionSurvey {
    let (time, fa) = on_time_spec(s.time, time_us);
    if fa == FrameAction::Skip {
        SessionSurvey { main_frame_count: (s.main_frame_count + 1) as u64, time, ..s }
    } else {
        SessionSurvey {
            main_frame_count: (s.main_frame_count + 1) as u64,
            time,
            min_time: opt_min(s.min_time, time_us),
            max_time: opt_max(s.max_time, time_us),
            min_iteration: match iteration {
                Some(it) => opt_min(s.min_iteration, it),
                None => s.min_iteration,
            },
            max_iteration: match iteration {
                Some(it) => opt_max(s.max_iteration, it),
                None => s.max_iteration,
            },
        }
    }
}

/// The survey of a log after the frames `events`; frames other than main
/// frames leave it as it is.
pub open spec fn survey_fold(events: Seq<LogEvent>) -> SessionSurvey
    decreases events.len(),
{
    if events.len() == 0 {
        survey_initial()
    } else {
        let s = survey_fold(events.drop_last());
        match events.last() {
            LogEvent::Main { time_us, iteration } => survey_step(s, time_us, iteration),
            _ => s,
        }
    }
}

/// The main-frame count and the length basis of a log with frames `events`.
pub open spec fn survey_result(events: Seq<LogEvent>) -> (u64, DurationBasis) {
    let s = survey_fold(events);
    (
        s.main_frame_count,
        survey_basis_spec(
            s.time,
            s.min_time,
            s.max_time,
            s.min_iteration,
            s.max_iteration,
            s.main_frame_count,
        ),
    )
}

/// What the survey of one session found.
pub struct SessionSummary {
    /// Index of the log in the file
    pub index: usize,
    /// Main frames in the log, dropped ones included
    pub main_frames: u64,
    /// What the log's length estimate is based on
    pub basis: DurationBasis,
    /// The frames the parser reported, in order
    pub events: Ghost<Seq<LogEvent>>,
}

/// Whether `events` is what a survey reads of a log whose parser reports
/// `all`: a prefix of it, ending before the end of the log only after a
/// main frame with the largest loop iteration or when the main-frame count
/// is full.
pub open spec fn survey_read_of(all: Seq<LogEvent>, events: Seq<LogEvent>) -> bool {
    &&& events.len() <= all.len()
    &&& events == all.take(events.len() as int)
    &&& events.len() < all.len() ==> (at_iteration_limit(events) || survey_fold(
        events,
    ).main_frame_count == u64::MAX)
}

/// The frames after `events`, and the parser state, agree with a log
/// reporting `all`.
pub open spec fn parser_after(parser: blackbox_log::DataParser, all: Seq<LogEvent>, events: Seq<LogEvent>) -> bool {
    &&& events.len() <= all.len()
    &&& events == all.take(events.len() as int)
    &&& parser_frames(parser) == all.skip(events.len() as int)
    &&& parser_last_iteration(parser) == last_main_iteration(events)
}

/// Reading one more frame from a parser that agrees with `all`.
proof fn lemma_parser_step(
    before: blackbox_log::DataParser,
    after: blackbox_log::DataParser,
    all: Seq<LogEvent>,
    events: Seq<LogEvent>,
    e: LogEvent,
)
    requires
        parser_after(before, all, events),
        parser_frames(before).len() > 0,
        e == parser_frames(before)[0],
        parser_frames(after) == parser_frames(before).drop_first(),
        e matches LogEvent::Main { iteration, .. } ==> parser_last_iteration(after) == iteration,
        !(e matches LogEvent::Main { .. }) ==> parser_last_iteration(after) == parser_last_iteration(
            before,
        ),
    ensures
        parser_after(after, all, events.push(e)),
        events.push(e).drop_last() == events,
{
    let next = events.push(e);
    assert(next.drop_last() =~= events);
    assert(next =~= all.take(next.len() as int));
    assert(all.skip(events.len() as int).drop_first() =~= all.skip(next.len() as int));
}

/// Whether the loop iteration is at its largest value.
fn at_limit(iteration: Option<u64>) -> (res: bool)
    ensures
        res == (iteration == Some(iteration_limit())),
{
    match iteration {
        Some(it) => it == 0xffff_ffff,
        None => false,
    }
}

/// The survey of one log read from its frame parser, and the frames read.
/// Reading stops at the end of the log, after a main frame with the largest
/// loop iteration, or when the main-frame count is full.
fn survey_log(headers: &blackbox_log::Headers) -> (res: (u64, DurationBasis, Ghost<Seq<LogEvent>>))
    ensures
        (res.0, res.1) == survey_result(res.2@),
        survey_read_of(
            bb_log_frames(headers_origin(*headers).0, headers_origin(*headers).1),
            res.2@,
        ),
{
    let mut parser = data_parser(headers);
    let ghost all = parser_frames(parser);
    let mut survey = SessionSurvey::new();
    let ghost mut events: Seq<LogEvent> = Seq::empty();
    let mut last_iteration: Option<u64> = None;
    assert(survey == survey_fold(events));
    assert(all.take(0) =~= events);
    assert(all.skip(0) =~= all);
    loop
        invariant_except_break
            parser_after(parser, all, events),
            last_iteration == last_main_iteration(events),
        invariant
            survey.wf(),
            survey == survey_fold(events),
            events.len() <= all.len(),
            events == all.take(events.len() as int),
        ensures
            survey.wf(),
            survey == survey_fold(events),
            survey_read_of(all, events),
        decreases all.len() - events.len(),
    {
        if survey.main_frame_count == u64::MAX || at_limit(last_iteration) {
            break;
        }
        let ghost before = parser;
        let ev = next_event(&mut parser);
        match ev {
            None => {
                assert(events.len() == all.len());
                break;
            },
            Some(e) => {
                let ghost before_survey = survey;
                proof {
                    lemma_parser_step(before, parser, all, events, e);
                }
                match e {
                    LogEvent::Main { time_us, iteration } => {
                        survey.on_main(time_us, iteration);
                        assert(survey == survey_step(before_survey, time_us, iteration));
                        last_iteration = iteration;
                    },
                    _ => {},
                }
                proof {
                    events = events.push(e);
                }
            },
        }
    }
    let (count, basis) = survey.finish();
    (count, basis, Ghost(events))
}

/// Survey a log from the frames its parser reported: the number of main
/// frames and what the log's length estimate is based on.
pub fn survey_events(events: &Vec<LogEvent>) -> (res: (u64, DurationBasis))
    ensures
        res == survey_result(events@),
{
    let mut survey = SessionSurvey::new();
    let mut i: usize = 0;
    assert(events@.take(0) =~= Seq::<LogEvent>::empty());
    while i < events.len()
        invariant
            0 <= i <= events@.len(),
            survey.wf(),
            survey == survey_fold(events@.take(i as int)),
            survey.main_frame_count <= i,
        decreases events@.len() - i,
    {
        let ghost before = survey;
        match events[i] {
            LogEvent::Main { time_us, iteration } => {
                survey.on_main(time_us, iteration);
                assert(survey == survey_step(before, time_us, iteration));
            },
            _ => {},
        }
        proof {
            assert(events@.take(i + 1).drop_last() =~= events@.take(i as int));
        }
        i = i + 1;
    }
    assert(events@.take(events@.len() as int) =~= events@);
    survey.finish()
}

/// Whether the headers of log `index` of `data` parse.
pub open spec fn log_parses(data: Seq<u8>, index: nat) -> bool {
    bb_log_headers(data, index) == Some(Ok::<(), Seq<char>>(()))
}

/// Survey every log of a file: its index, main frames and length basis,
/// in file order. Exactly the logs whose headers parse are surveyed; the
/// others are left out.
pub fn survey_sessions(data: &[u8]) -> (res: Vec<SessionSummary>)
    ensures
        forall|k: int|
            0 <= k < res@.len() ==> {
                &&& (#[trigger] res@[k]).index < bb_log_count(data@)
                &&& log_parses(data@, res@[k].index as nat)
                &&& survey_read_of(bb_log_frames(data@, res@[k].index as nat), res@[k].events@)
                &&& (res@[k].main_frames, res@[k].basis) == survey_result(res@[k].events@)
            },
        forall|k: int, l: int|
            0 <= k < l < res@.len() ==> #[trigger] res@[k].index < #[trigger] res@[l].index,
        forall|i: nat|
            i < bb_log_count(data@) && #[trigger] log_parses(data@, i) ==> exists|k: int|
                0 <= k < res@.len() && (#[trigger] res@[k]).index == i,
{
    let n = log_count(data);
    let mut out: Vec<SessionSummary> = Vec::new();
    let mut i: usize = 0;
    while i < n
        invariant
            i <= n,
            n == bb_log_count(data@),
            forall|k: int|
                0 <= k < out@.len() ==> {
                    &&& (#[trigger] out@[k]).index < i
                    &&& log_parses(data@, out@[k].index as nat)
                    &&& survey_read_of(bb_log_frames(data@, out@[k].index as nat), out@[k].events@)
                    &&& (out@[k].main_frames, out@[k].basis) == survey_result(out@[k].events@)
                },
            forall|k: int, l: int|
                0 <= k < l < out@.len() ==> #[trigger] out@[k].index < #[trigger] out@[l].index,
            forall|j: nat|
                j < i && #[trigger] log_parses(data@, j) ==> exists|k: int|
                    0 <= k < out@.len() && (#[trigger] out@[k]).index == j,
        decreases n - i,
    {
        let ghost before = out@;
        match log_headers(data, i) {
            Some(Ok(headers)) => {
                let (main_frames, basis, events) = survey_log(&headers);
                out.push(SessionSummary { index: i, main_frames, basis, events });
                proof {
                    assert forall|j: nat| j < i + 1 && #[trigger] log_parses(data@, j) implies exists|
                        k: int,
                    | 0 <= k < out@.len() && (#[trigger] out@[k]).index == j by {
                        if j < i {
                            let k = choose|k: int| 0 <= k < before.len() && (#[trigger] before[k]).index == j;
                            assert(out@[k] == before[k]);
                        } else {
                            assert(out@[before.len() as int].index == j);
                        }
                    }
                }
            },
            _ => {},
        }
        i = i + 1;
    }
    out
}

/// Number of main frames in `events`.
pub open spec fn main_count(events: Seq<LogEvent>) -> nat
    decreases events.len(),
{
    if events.len() == 0 {
        0
    } else {
        main_count(events.drop_last()) + if events.last() is Main {
            1nat
        } else {
            0nat
        }
    }
}

/// Whether a survey state is one a log can reach: it holds a frame time
/// exactly when it has seen a main frame, and an iteration only then.
pub open spec fn survey_consistent(s: SessionSurvey) -> bool {
    &&& s.time.wf()
    &&& (s.main_frame_count == 0 <==> s.min_time is None)
    &&& (s.min_time is Some <==> s.max_time is Some)
    &&& (s.min_time is Some <==> s.time.last_time_us is Some)
    &&& (s.min_iteration is Some ==> s.min_time is Some)
    &&& (s.time.last_time_us is None ==> s.time.best_period_start is None)
}

proof fn lemma_survey_fold_consistent(events: Seq<LogEvent>)
    requires
        main_count(events) < u64::MAX,
    ensures
        survey_consistent(survey_fold(events)),
        survey_fold(events).main_frame_count == main_count(events),
    decreases events.len(),
{
    if events.len() > 0 {
        lemma_survey_fold_consistent(events.drop_last());
        let s = survey_fold(events.drop_last());
        match events.last() {
            LogEvent::Main { time_us, iteration } => {
                crate::blackbox::timing::lemma_on_time_invariants(s.time, time_us);
            },
            _ => {},
        }
    }
}

/// A log with a main frame gets its length from frame times: its first
/// main frame is always accepted, so the basis is then the best period or
/// the time range, never the loop-iteration range or the bare frame count;
/// a log without main frames has the basis `Frames(0)`.
pub proof fn lemma_survey_basis_from_times(events: Seq<LogEvent>)
    requires
        main_count(events) < u64::MAX,
    ensures
        survey_result(events).0 > 0 ==> (survey_result(events).1 is BestPeriodUs
            || survey_result(events).1 is RangeUs),
        survey_result(events).0 == 0 ==> survey_result(events).1 == DurationBasis::Frames(0),
{
    lemma_survey_fold_consistent(events);
}

// ---------------------------------------------------------------------
// Scan of the selected session
// ---------------------------------------------------------------------

/// Counters, time state and time range of a scan, as plain values.
#[derive(Debug, Clone, Copy, PartialEq, Eq, Structural)]
pub struct ScanTally {
    /// Main frames seen, dropped ones included
    pub main_frame_count: u64,
    /// Frame counters by kind
    pub stats: ParsingStats,
    /// Frame-time semantics
    pub time: TimeSemantics,
    /// Earliest accepted main-frame time
    pub min_time: Option<u64>,
    /// Latest accepted main-frame time
    pub max_time: Option<u64>,
}

/// The tally a scan state carries.
pub open spec fn tally_of(s: SessionScan) -> ScanTally {
    ScanTally {
        main_frame_count: s.main_frame_count,
        stats: s.stats,
        time: s.time,
        min_time: s.min_time,
        max_time: s.max_time,
    }
}

/// The tally before any frame, with the parser's earlier statistics.
pub open spec fn scan_initial(stats: ParsingStats) -> ScanTally {
    ScanTally {
        main_frame_count: 0,
        stats,
        time: TimeSemantics::initial(),
        min_time: None,
        max_time: None,
    }
}

/// The scan event a reported frame is.
pub open spec fn scan_event_of(e: LogEvent) -> ScanEvent {
    match e {
        LogEvent::Main { time_us, .. } => ScanEvent::Main(time_us),
        LogEvent::Slow => ScanEvent::Slow,
        LogEvent::Gps => ScanEvent::Gps,
        LogEvent::Event => ScanEvent::Event,
    }
}

fn to_scan_event(e: LogEvent) -> (res: ScanEvent)
    ensures
        res == scan_event_of(e),
{
    match e {
        LogEvent::Main { time_us, .. } => ScanEvent::Main(time_us),
        LogEvent::Slow => ScanEvent::Slow,
        LogEvent::Gps => ScanEvent::Gps,
        LogEvent::Event => ScanEvent::Event,
    }
}

/// A tally after one more frame, and what is done with the frame: a main
/// frame is counted, dropped when its time goes back, else it widens the
/// time range and is extracted, the last one when the frame limit is
/// reached; other frames are only counted.
pub open spec fn scan_step(t: ScanTally, max_frames: Option<u64>, e: LogEvent) -> (
    ScanTally,
    ScanAction,
) {
    match e {
        LogEvent::Main { time_us, .. } => {
            let (time, fa) = on_time_spec(t.time, time_us);
            let count = (t.main_frame_count + 1) as u64;
            let stats = ParsingStats { main_frames: (t.stats.main_frames + 1) as u64, ..t.stats };
            if fa == FrameAction::Skip {
                (ScanTally { main_frame_count: count, stats, time, ..t }, ScanAction::Skip)
            } else {
                (
                    ScanTally {
                        main_frame_count: count,
                        stats,
                        time,
                        min_time: opt_min(t.min_time, time_us),
                        max_time: opt_max(t.max_time, time_us),
                    },
                    if (max_frames matches Some(m) && count >= m) {
                        ScanAction::ExtractAndStop
                    } else {
                        ScanAction::Extract
                    },
                )
            }
        },
        LogEvent::Slow => (
            ScanTally {
                stats: ParsingStats { slow_frames: (t.stats.slow_frames + 1) as u64, ..t.stats },
                ..t
            },
            ScanAction::Ignore,
        ),
        LogEvent::Gps => (
            ScanTally {
                stats: ParsingStats { gps_frames: (t.stats.gps_frames + 1) as u64, ..t.stats },
                ..t
            },
            ScanAction::Ignore,
        ),
        LogEvent::Event => (
            ScanTally {
                stats: ParsingStats { event_frames: (t.stats.event_frames + 1) as u64, ..t.stats },
                ..t
            },
            ScanAction::Ignore,
        ),
    }
}

/// No counter that the next frame advances is at its limit.
pub open spec fn tally_has_room(t: ScanTally) -> bool {
    &&& t.main_frame_count < u64::MAX
    &&& t.stats.main_frames < u64::MAX
    &&& t.stats.slow_frames < u64::MAX
    &&& t.stats.gps_frames < u64::MAX
    &&& t.stats.event_frames < u64::MAX
}

/// The tally after the frames `events`.
pub open spec fn scan_fold(max_frames: Option<u64>, stats: ParsingStats, events: Seq<LogEvent>) -> ScanTally
    decreases events.len(),
{
    if events.len() == 0 {
        scan_initial(stats)
    } else {
        scan_step(scan_fold(max_frames, stats, events.drop_last()), max_frames, events.last()).0
    }
}

/// Whether an action hands the frame over for extraction.
pub open spec fn is_extract(a: ScanAction) -> bool {
    a == ScanAction::Extract || a == ScanAction::ExtractAndStop
}

/// The ordinals (0-based positions among the main frames) of the main
/// frames extracted while scanning `events`.
pub open spec fn scan_extracted(max_frames: Option<u64>, stats: ParsingStats, events: Seq<LogEvent>) -> Seq<u64>
    decreases events.len(),
{
    if events.len() == 0 {
        Seq::empty()
    } else {
        let t = scan_fold(max_frames, stats, events.drop_last());
        let prev = scan_extracted(max_frames, stats, events.drop_last());
        if is_extract(scan_step(t, max_frames, events.last()).1) {
            prev.push(t.main_frame_count)
        } else {
            prev
        }
    }
}

/// The action taken on the frame at position `k` of `events`.
pub open spec fn action_at(max_frames: Option<u64>, stats: ParsingStats, events: Seq<LogEvent>, k: int) -> ScanAction {
    scan_step(scan_fold(max_frames, stats, events.take(k)), max_frames, events[k]).1
}

/// Whether a scan reads each of `events`: the counters had room for every
/// frame, and no frame but the last one stopped the scan.
pub open spec fn scan_reads_through(max_frames: Option<u64>, stats: ParsingStats, events: Seq<LogEvent>) -> bool {
    forall|k: int|
        0 <= k < events.len() ==> {
            &&& tally_has_room(scan_fold(max_frames, stats, #[trigger] events.take(k)))
            &&& (k + 1 < events.len() ==> action_at(max_frames, stats, events, k)
                != ScanAction::ExtractAndStop)
        }
}

/// What a finished scan of a session reports.
pub struct ScanReport {
    /// Main frames seen, dropped ones included
    pub main_frame_count: u64,
    /// The parser's statistics with this scan's frames added and the total
    /// set to its main frames
    pub stats: ParsingStats,
    /// Earliest accepted main-frame time
    pub min_time: Option<u64>,
    /// Latest accepted main-frame time
    pub max_time: Option<u64>,
    /// Length in milliseconds: the best period, else the time range
    pub duration_ms: Option<u64>,
    /// Ordinals of the main frames to extract, in order
    pub extracted: Vec<u64>,
}

/// The length in milliseconds a tally gives: its best period once the
/// last one is closed, else its time range.
pub open spec fn duration_of(t: ScanTally) -> Option<u64> {
    let f = finalize_spec(t.time);
    match scan_duration_spec(f.best_period_start, f.best_period_end, t.min_time, t.max_time) {
        Some(ms) => Some(ms as u64),
        None => None,
    }
}

/// Whether `r` is the report of a scan that read `events`.
pub open spec fn report_matches(
    r: ScanReport,
    max_frames: Option<u64>,
    stats: ParsingStats,
    events: Seq<LogEvent>,
) -> bool {
    let t = scan_fold(max_frames, stats, events);
    &&& r.main_frame_count == t.main_frame_count
    &&& r.stats == (ParsingStats { total_frames: t.main_frame_count, ..t.stats })
    &&& r.min_time == t.min_time
    &&& r.max_time == t.max_time
    &&& r.duration_ms == duration_of(t)
    &&& r.extracted@ == scan_extracted(max_frames, stats, events)
}

/// One frame through the scan, recording its ordinal when it is extracted.
fn scan_one(scan: &mut SessionScan, extracted: &mut Vec<u64>, e: LogEvent) -> (act: ScanAction)
    requires
        old(scan).wf(),
        old(scan).can_count(),
    ensures
        final(scan).wf(),
        final(scan).max_frames == old(scan).max_frames,
        (tally_of(*final(scan)), act) == scan_step(tally_of(*old(scan)), old(scan).max_frames, e),
        final(extracted)@ == if is_extract(act) {
            old(extracted)@.push(old(scan).main_frame_count)
        } else {
            old(extracted)@
        },
{
    let ordinal = scan.main_frame_count;
    let act = scan.on_event(to_scan_event(e));
    match act {
        ScanAction::Extract | ScanAction::ExtractAndStop => {
            extracted.push(ordinal);
        },
        _ => {},
    }
    act
}

/// The report of a finished scan.
fn report_of(scan: SessionScan, extracted: Vec<u64>) -> (r: ScanReport)
    requires
        scan.wf(),
    ensures
        r.main_frame_count == tally_of(scan).main_frame_count,
        r.stats == (ParsingStats { total_frames: scan.main_frame_count, ..scan.stats }),
        r.min_time == scan.min_time,
        r.max_time == scan.max_time,
        r.duration_ms == duration_of(tally_of(scan)),
        r.extracted@ == extracted@,
{
    let outcome = scan.finish();
    ScanReport {
        main_frame_count: outcome.main_frame_count,
        stats: outcome.stats,
        min_time: outcome.min_time,
        max_time: outcome.max_time,
        duration_ms: outcome.duration_ms,
        extracted,
    }
}

/// Reading one more frame keeps a scan read through: the counters had room
/// for it and the frame before it did not stop the scan.
proof fn lemma_reads_through_push(
    max_frames: Option<u64>,
    stats: ParsingStats,
    events: Seq<LogEvent>,
    e: LogEvent,
)
    requires
        scan_reads_through(max_frames, stats, events),
        tally_has_room(scan_fold(max_frames, stats, events)),
        events.len() > 0 ==> action_at(max_frames, stats, events, events.len() - 1)
            != ScanAction::ExtractAndStop,
    ensures
        scan_reads_through(max_frames, stats, events.push(e)),
{
    let next = events.push(e);
    assert forall|k: int| 0 <= k < next.len() implies {
        &&& tally_has_room(scan_fold(max_frames, stats, #[trigger] next.take(k)))
        &&& (k + 1 < next.len() ==> action_at(max_frames, stats, next, k)
            != ScanAction::ExtractAndStop)
    } by {
        assert(next.take(k) =~= events.take(k));
        if k < events.len() {
            assert(next[k] == events[k]);
        } else {
            assert(events.take(k) =~= events);
        }
    }
}

/// The fold, the extracted ordinals and the last action after one more frame.
proof fn lemma_scan_push(max_frames: Option<u64>, stats: ParsingStats, events: Seq<LogEvent>, e: LogEvent)
    ensures
        scan_fold(max_frames, stats, events.push(e)) == scan_step(
            scan_fold(max_frames, stats, events),
            max_frames,
            e,
        ).0,
        scan_extracted(max_frames, stats, events.push(e)) == if is_extract(
            scan_step(scan_fold(max_frames, stats, events), max_frames, e).1,
        ) {
            scan_extracted(max_frames, stats, events).push(
                scan_fold(max_frames, stats, events).main_frame_count,
            )
        } else {
            scan_extracted(max_frames, stats, events)
        },
        action_at(max_frames, stats, events.push(e), events.len() as int) == scan_step(
            scan_fold(max_frames, stats, events),
            max_frames,
            e,
        ).1,
{
    let next = events.push(e);
    assert(next.drop_last() =~= events);
    assert(next.take(events.len() as int) =~= events);
}

/// Scan a session from the frames its parser reported, with the frame
/// limit `max_frames` and the parser's earlier statistics. Reading stops
/// after the frame that reaches the limit, or before a frame the counters
/// have no room for; the second result is the number of frames read.
pub fn scan_events(events: &Vec<LogEvent>, max_frames: Option<u64>, stats: ParsingStats) -> (res: (
    ScanReport,
    usize,
))
    ensures
        res.1 <= events@.len(),
        report_matches(res.0, max_frames, stats, events@.take(res.1 as int)),
        scan_reads_through(max_frames, stats, events@.take(res.1 as int)),
        res.1 < events@.len() ==> (res.1 > 0 && action_at(
            max_frames,
            stats,
            events@.take(res.1 as int),
            res.1 - 1,
        ) == ScanAction::ExtractAndStop) || !tally_has_room(
            scan_fold(max_frames, stats, events@.take(res.1 as int)),
        ),
{
    let mut scan = SessionScan::new(max_frames, stats);
    let mut extracted: Vec<u64> = Vec::new();
    let mut i: usize = 0;
    let mut stopped = false;
    assert(events@.take(0) =~= Seq::<LogEvent>::empty());
    while i < events.len() && !stopped && scan.has_room()
        invariant
            0 <= i <= events@.len(),
            scan.wf(),
            scan.max_frames == max_frames,
            tally_of(scan) == scan_fold(max_frames, stats, events@.take(i as int)),
            extracted@ == scan_extracted(max_frames, stats, events@.take(i as int)),
            scan_reads_through(max_frames, stats, events@.take(i as int)),
            stopped <==> (i > 0 && action_at(max_frames, stats, events@.take(i as int), i - 1)
                == ScanAction::ExtractAndStop),
        decreases events@.len() - i,
    {
        let ghost before = events@.take(i as int);
        let e = events[i];
        let act = scan_one(&mut scan, &mut extracted, e);
        proof {
            lemma_reads_through_push(max_frames, stats, before, e);
            lemma_scan_push(max_frames, stats, before, e);
            assert(events@.take(i + 1) =~= before.push(e));
        }
        i = i + 1;
        stopped = act == ScanAction::ExtractAndStop;
    }
    (report_of(scan, extracted), i)
}

/// Whether `events` is what a scan reads of a log whose parser reports
/// `all`: a prefix of it, read through, that ends before the end of the
/// log only after the frame that reached the frame limit, when a counter is
/// full, or after a main frame with the largest loop iteration.
pub open spec fn scan_read_of(
    all: Seq<LogEvent>,
    max_frames: Option<u64>,
    stats: ParsingStats,
    events: Seq<LogEvent>,
) -> bool {
    &&& events.len() <= all.len()
    &&& events == all.take(events.len() as int)
    &&& scan_reads_through(max_frames, stats, events)
    &&& events.len() < all.len() ==> {
        ||| (events.len() > 0 && action_at(max_frames, stats, events, events.len() - 1)
            == ScanAction::ExtractAndStop)
        ||| !tally_has_room(scan_fold(max_frames, stats, events))
        ||| at_iteration_limit(events)
    }
}

/// The scan of one log read from its frame parser, and the frames read.
fn scan_log(headers: &blackbox_log::Headers, max_frames: Option<u64>, stats: ParsingStats) -> (res: (
    ScanReport,
    Ghost<Seq<LogEvent>>,
))
    ensures
        report_matches(res.0, max_frames, stats, res.1@),
        scan_read_of(
            bb_log_frames(headers_origin(*headers).0, headers_origin(*headers).1),
            max_frames,
            stats,
            res.1@,
        ),
{
    let mut parser = data_parser(headers);
    let ghost all = parser_frames(parser);
    let mut scan = SessionScan::new(max_frames, stats);
    let mut extracted: Vec<u64> = Vec::new();
    let ghost mut events: Seq<LogEvent> = Seq::empty();
    let mut last_iteration: Option<u64> = None;
    let mut stopped = false;
    assert(all.take(0) =~= events);
    assert(all.skip(0) =~= all);
    loop
        invariant_except_break
            parser_after(parser, all, events),
            last_iteration == last_main_iteration(events),
        invariant
            scan.wf(),
            scan.max_frames == max_frames,
            tally_of(scan) == scan_fold(max_frames, stats, events),
            extracted@ == scan_extracted(max_frames, stats, events),
            scan_reads_through(max_frames, stats, events),
            events.len() <= all.len(),
            events == all.take(events.len() as int),
            stopped <==> (events.len() > 0 && action_at(max_frames, stats, events, events.len() - 1)
                == ScanAction::ExtractAndStop),
        ensures
            scan.wf(),
            tally_of(scan) == scan_fold(max_frames, stats, events),
            extracted@ == scan_extracted(max_frames, stats, events),
            scan_read_of(all, max_frames, stats, events),
        decreases all.len() - events.len(),
    {
        if stopped || !scan.has_room() || at_limit(last_iteration) {
            break;
        }
        let ghost before = parser;
        match next_event(&mut parser) {
            None => {
                assert(events.len() == all.len());
                break;
            },
            Some(e) => {
                let act = scan_one(&mut scan, &mut extracted, e);
                proof {
                    lemma_parser_step(before, parser, all, events, e);
                    lemma_reads_through_push(max_frames, stats, events, e);
                    lemma_scan_push(max_frames, stats, events, e);
                    events = events.push(e);
                }
                match e {
                    LogEvent::Main { iteration, .. } => {
                        last_iteration = iteration;
                    },
                    _ => {},
                }
                stopped = act == ScanAction::ExtractAndStop;
            },
        }
    }
    (report_of(scan, extracted), Ghost(events))
}

/// Whether `m` is what the field mapping gives for main-frame fields named
/// `ns`, starting from empty mappings.
pub open spec fn mapped_from_names(ns: Seq<Seq<char>>, m: FieldMappings) -> bool {
    &&& m.gyro_indices == all3(
        last_with_role(ns, FieldRole::Gyro(0)),
        last_with_role(ns, FieldRole::Gyro(1)),
        last_with_role(ns, FieldRole::Gyro(2)),
    )
    &&& m.accel_indices == all3(
        last_with_role(ns, FieldRole::Accel(0)),
        last_with_role(ns, FieldRole::Accel(1)),
        last_with_role(ns, FieldRole::Accel(2)),
    )
    &&& m.rc_command_indices == all4(
        last_with_role(ns, FieldRole::RcCommand(0)),
        last_with_role(ns, FieldRole::RcCommand(1)),
        last_with_role(ns, FieldRole::RcCommand(2)),
        last_with_role(ns, FieldRole::RcCommand(3)),
    )
    &&& m.motor_indices@ == positions_with_role(ns, FieldRole::Motor)
    &&& m.iteration_idx == last_with_role(ns, FieldRole::Iteration)
    &&& m.pid_error_indices is None
    &&& m.pid_output_indices is None
    &&& m.setpoint_indices is None
}

/// What was read of the selected session.
pub struct SessionRead {
    /// Index of the log in the file
    pub index: usize,
    /// Names of its main-frame fields, in order
    pub field_names: Vec<String>,
    /// Field mappings from those names
    pub mappings: FieldMappings,
    /// The scan of its frames
    pub report: ScanReport,
    /// The frames the parser reported, in order
    pub events: Ghost<Seq<LogEvent>>,
}

/// The prefix of the message for headers the crate cannot parse.
pub open spec fn header_error_prefix() -> Seq<char> {
    "Failed to parse headers: "@
}

/// Choose the session to analyze among `total_sessions` surveyed ones
/// (`longest_index` is the one with the longest length estimate) and scan
/// its frames with the configured frame limit, adding its frames to the
/// parser's statistics `stats`.
///
/// A requested index past the last session is refused with the message
/// naming the valid range. Otherwise the selected log's headers are read:
/// when the crate cannot parse them the error carries its description;
/// when the file has no such log there is nothing to read; else the
/// result holds the field names and mappings and the scan of the log's
/// frames.
pub fn read_selected_session(
    data: &[u8],
    config: &ParsingConfig,
    total_sessions: usize,
    longest_index: usize,
    stats: ParsingStats,
) -> (res: Result<Option<SessionRead>, BlackboxError>)
    ensures
        ({
            let req = requested_session(*config, total_sessions, longest_index);
            &&& req >= total_sessions ==> (res matches Err(BlackboxError::Parse(m)) && m@
                == invalid_session_message(req, total_sessions as int))
            &&& req < total_sessions ==> match bb_log_headers(data@, req as nat) {
                None => res matches Ok(None),
                Some(Err(d)) => res matches Err(BlackboxError::Parse(m)) && m@
                    == header_error_prefix() + d,
                Some(Ok(_)) => res matches Ok(Some(r)) && {
                    &&& r.index == req
                    &&& name_views(r.field_names@) == bb_field_names(data@, req as nat)
                    &&& mapped_from_names(name_views(r.field_names@), r.mappings)
                    &&& report_matches(r.report, config.max_frames, stats, r.events@)
                    &&& scan_read_of(
                        bb_log_frames(data@, req as nat),
                        config.max_frames,
                        stats,
                        r.events@,
                    )
                },
            }
        }),
{
    let index = match select_session(config, total_sessions, longest_index) {
        Ok(i) => i,
        Err(e) => {
            return Err(e);
        },
    };
    match log_headers(data, index) {
        None => Ok(None),
        Some(Err(description)) => {
            let prefix = chars_of("Failed to parse headers: ");
            let m = concat(&prefix, &chars_of(description.as_str()));
            Err(BlackboxError::Parse(string_of(&m)))
        },
        Some(Ok(headers)) => {
            let field_names = main_field_names(&headers);
            let mut mappings = FieldMappings::default();
            extract_field_mappings(&field_names, &mut mappings);
            let (report, events) = scan_log(&headers, config.max_frames, stats);
            Ok(Some(SessionRead { index, field_names, mappings, report, events }))
        },
    }
}

/// The map of name and value pairs; for a repeated name the earlier pair wins.
pub open spec fn pairs_map(pairs: Seq<(Seq<char>, Seq<char>)>) -> Map<Seq<char>, Seq<char>>
    decreases pairs.len(),
{
    if pairs.len() == 0 {
        Map::empty()
    } else {
        pairs_map(pairs.drop_first()).insert(pairs[0].0, pairs[0].1)
    }
}

/// The views of name and value pairs.
pub open spec fn pair_views(pairs: Seq<(String, String)>) -> Seq<(Seq<char>, Seq<char>)> {
    pairs.map_values(|p: (String, String)| (p.0@, p.1@))
}

/// The configuration headers of a log, by name.
pub struct LogConfig {
    /// The headers by name
    pub headers: InfoMap,
    /// The name and value pairs the crate reported, in its order
    pub entries: Ghost<Seq<(Seq<char>, Seq<char>)>>,
}

/// The configuration headers of the first log that the crate leaves
/// uninterpreted (PID and filter settings among them), by name; none
/// exactly when the first log's headers cannot be read.
pub fn log_config(data: &[u8]) -> (res: Option<LogConfig>)
    ensures
        res is Some <==> log_parses(data@, 0),
        res matches Some(c) ==> c.headers@ == pairs_map(c.entries@)
            && c.headers@ == bb_unknown_headers(data@, 0),
{
    match log_headers(data, 0) {
        Some(Ok(headers)) => {
            let mut entries = unknown_headers(&headers);
            let ghost all = pair_views(entries@);
            let mut m = InfoMap::new();
            assert(all.subrange(entries@.len() as int, all.len() as int) =~= Seq::<
                (Seq<char>, Seq<char>),
            >::empty());
            while entries.len() > 0
                invariant
                    entries@.len() <= all.len(),
                    pair_views(entries@) == all.subrange(0, entries@.len() as int),
                    m@ == pairs_map(all.subrange(entries@.len() as int, all.len() as int)),
                decreases entries@.len(),
            {
                let ghost n = entries@.len() as int;
                let (k, v) = entries.pop().unwrap();
                proof {
                    assert(all[n - 1] == (k@, v@)) by {
                        assert(pair_views(entries@.push((k, v)))[n - 1] == all.subrange(0, n)[n - 1]);
                    }
                    assert(pair_views(entries@) =~= all.subrange(0, n - 1));
                    let suffix = all.subrange(n - 1, all.len() as int);
                    assert(suffix.drop_first() =~= all.subrange(n, all.len() as int));
                }
                m.insert(k, v);
            }
            assert(all.subrange(0, all.len() as int) =~= all);
            Some(LogConfig { headers: m, entries: Ghost(all) })
        },
        _ => None,
    }
}

// ---------------------------------------------------------------------
// Laws of the scan
// ---------------------------------------------------------------------

/// No frame of `events` stopped the scan.
pub open spec fn stop_free(max_frames: Option<u64>, stats: ParsingStats, events: Seq<LogEvent>) -> bool {
    forall|k: int|
        0 <= k < events.len() ==> #[trigger] action_at(max_frames, stats, events, k)
            != ScanAction::ExtractAndStop
}

/// Whether a tally is one a scan can reach: it holds a frame time exactly
/// when it has seen a main frame.
pub open spec fn tally_consistent(t: ScanTally) -> bool {
    &&& t.time.wf()
    &&& (t.main_frame_count == 0 <==> t.min_time is None)
    &&& (t.min_time is Some <==> t.max_time is Some)
    &&& (t.min_time is Some <==> t.time.last_time_us is Some)
    &&& (t.time.last_time_us is None ==> t.time.best_period_start is None)
}

proof fn lemma_prefix_actions(max_frames: Option<u64>, stats: ParsingStats, events: Seq<LogEvent>)
    requires
        events.len() > 0,
    ensures
        forall|k: int|
            0 <= k < events.len() - 1 ==> #[trigger] action_at(max_frames, stats, events.drop_last(), k)
                == action_at(max_frames, stats, events, k),
        forall|k: int|
            0 <= k < events.len() - 1 ==> #[trigger] events.drop_last().take(k) == events.take(k),
        events.take(events.len() - 1) == events.drop_last(),
{
    assert forall|k: int| 0 <= k < events.len() - 1 implies #[trigger] events.drop_last().take(k)
        == events.take(k) by {
        assert(events.drop_last().take(k) =~= events.take(k));
    }
    assert forall|k: int| 0 <= k < events.len() - 1 implies #[trigger] action_at(
        max_frames,
        stats,
        events.drop_last(),
        k,
    ) == action_at(max_frames, stats, events, k) by {
        assert(events.drop_last().take(k) =~= events.take(k));
    }
    assert(events.take(events.len() - 1) =~= events.drop_last());
}

proof fn lemma_reads_through_drop_last(max_frames: Option<u64>, stats: ParsingStats, events: Seq<LogEvent>)
    requires
        scan_reads_through(max_frames, stats, events),
        events.len() > 0,
    ensures
        scan_reads_through(max_frames, stats, events.drop_last()),
        tally_has_room(scan_fold(max_frames, stats, events.drop_last())),
        stop_free(max_frames, stats, events.drop_last()),
{
    lemma_prefix_actions(max_frames, stats, events);
    let p = events.drop_last();
    assert(events.take(events.len() - 1) == p);
    assert forall|k: int| 0 <= k < p.len() implies {
        &&& tally_has_room(scan_fold(max_frames, stats, #[trigger] p.take(k)))
        &&& (k + 1 < p.len() ==> action_at(max_frames, stats, p, k) != ScanAction::ExtractAndStop)
    } by {
        assert(p.take(k) == events.take(k));
        assert(action_at(max_frames, stats, p, k) == action_at(max_frames, stats, events, k));
    }
    assert forall|k: int| 0 <= k < p.len() implies #[trigger] action_at(max_frames, stats, p, k)
        != ScanAction::ExtractAndStop by {
        assert(p.take(k) == events.take(k));
        assert(action_at(max_frames, stats, p, k) == action_at(max_frames, stats, events, k));
    }
}

/// Facts a read-through scan keeps: its tally is consistent, the extracted
/// ordinals are strictly increasing and below the main-frame count, and
/// without a stop each was extracted below the frame limit.
proof fn lemma_scan_fold_facts(max_frames: Option<u64>, stats: ParsingStats, events: Seq<LogEvent>)
    requires
        scan_reads_through(max_frames, stats, events),
    ensures
        ({
            let t = scan_fold(max_frames, stats, events);
            let x = scan_extracted(max_frames, stats, events);
            &&& tally_consistent(t)
            &&& x.len() <= t.main_frame_count
            &&& forall|i: int| 0 <= i < x.len() ==> i <= #[trigger] x[i] < t.main_frame_count
            &&& forall|i: int, j: int| 0 <= i < j < x.len() ==> #[trigger] x[i] < #[trigger] x[j]
            &&& stop_free(max_frames, stats, events) ==> (max_frames matches Some(m) ==> forall|
                i: int,
            | 0 <= i < x.len() ==> #[trigger] x[i] + 1 < m)
        }),
    decreases events.len(),
{
    if events.len() > 0 {
        let p = events.drop_last();
        let e = events.last();
        lemma_reads_through_drop_last(max_frames, stats, events);
        lemma_scan_fold_facts(max_frames, stats, p);
        lemma_prefix_actions(max_frames, stats, events);
        let t = scan_fold(max_frames, stats, p);
        match e {
            LogEvent::Main { time_us, .. } => {
                crate::blackbox::timing::lemma_on_time_invariants(t.time, time_us);
            },
            _ => {},
        }
        assert(action_at(max_frames, stats, events, events.len() - 1) == scan_step(
            t,
            max_frames,
            e,
        ).1);
        if stop_free(max_frames, stats, events) {
            assert forall|k: int| 0 <= k < p.len() implies #[trigger] action_at(
                max_frames,
                stats,
                p,
                k,
            ) != ScanAction::ExtractAndStop by {
                assert(action_at(max_frames, stats, p, k) == action_at(
                    max_frames,
                    stats,
                    events,
                    k,
                ));
            }
            assert(action_at(max_frames, stats, events, events.len() - 1)
                != ScanAction::ExtractAndStop);
        }
    }
}

/// Extracted frames come in parse order: their ordinals are strictly
/// increasing and each names a main frame the scan read.
pub proof fn lemma_scan_extracted_ordered(
    max_frames: Option<u64>,
    stats: ParsingStats,
    events: Seq<LogEvent>,
)
    requires
        scan_reads_through(max_frames, stats, events),
    ensures
        forall|i: int, j: int|
            0 <= i < j < scan_extracted(max_frames, stats, events).len() ==> #[trigger] scan_extracted(
                max_frames,
                stats,
                events,
            )[i] < #[trigger] scan_extracted(max_frames, stats, events)[j],
        forall|i: int|
            0 <= i < scan_extracted(max_frames, stats, events).len() ==> #[trigger] scan_extracted(
                max_frames,
                stats,
                events,
            )[i] < scan_fold(max_frames, stats, events).main_frame_count,
{
    lemma_scan_fold_facts(max_frames, stats, events);
}

/// The frame limit: with a limit of `m` main frames a scan extracts at most
/// `m` of them, and one when the limit is zero (the first accepted frame is
/// extracted before the limit is checked).
pub proof fn lemma_scan_frame_limit(
    max_frames: Option<u64>,
    stats: ParsingStats,
    events: Seq<LogEvent>,
    m: u64,
)
    requires
        scan_reads_through(max_frames, stats, events),
        max_frames == Some(m),
    ensures
        scan_extracted(max_frames, stats, events).len() <= if m == 0 {
            1
        } else {
            m as int
        },
{
    if events.len() > 0 {
        let p = events.drop_last();
        lemma_reads_through_drop_last(max_frames, stats, events);
        lemma_scan_fold_facts(max_frames, stats, p);
        let x = scan_extracted(max_frames, stats, p);
        if x.len() > 0 {
            assert(x[x.len() - 1] + 1 < m);
            assert(x.len() - 1 <= x[x.len() - 1]);
        }
        assert(p.push(events.last()) =~= events);
        lemma_scan_push(max_frames, stats, p, events.last());
    }
}

/// A scan has a length exactly when it read a main frame: the first main
/// frame is always accepted and opens the time range.
pub proof fn lemma_scan_duration_from_times(
    max_frames: Option<u64>,
    stats: ParsingStats,
    events: Seq<LogEvent>,
)
    requires
        scan_reads_through(max_frames, stats, events),
    ensures
        duration_of(scan_fold(max_frames, stats, events)) is None <==> scan_fold(
            max_frames,
            stats,
            events,
        ).main_frame_count == 0,
{
    lemma_scan_fold_facts(max_frames, stats, events);
}

} // verus!
