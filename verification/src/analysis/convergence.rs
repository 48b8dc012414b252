//! Cross-tune convergence detection.
//!
//! The tune history records, iteration after iteration, how each PID gain
//! was changed. When the same gain was pushed the same way on each of the
//! last few iterations that touched it and a new analysis wants to push it
//! that way again, the PID loop is most likely not the failing component:
//! the new recommendation is suppressed and an advisory points at the
//! filters and the mechanics instead.

use crate::domain::{Axis, PidTerm};
use crate::text::{chars_of, concat, decimal, decimal_spec, starts_with_spec, string_of};
use vstd::prelude::*;

verus! {

/// One historical PID-gain change recorded by a prior tune iteration. A
/// history lists them chronologically, oldest first.
#[derive(Debug, Clone, Copy, PartialEq, Eq, Structural)]
pub struct PidChangeRecord {
    /// Which axis the historical change was on.
    pub axis: Axis,
    /// Which PID term the historical change touched.
    pub term: PidTerm,
    /// Signed change in raw FC integer units (post − pre). Positive = bumped
    /// up, negative = cut, zero = the iteration left this gain alone.
    pub delta: i32,
}

/// Default number of consecutive same-direction changes before a gain is
/// considered to be running away.
pub const DEFAULT_MIN_REPEATED: usize = 2;

/// Direction of a gain change.
#[derive(Debug, Clone, Copy, PartialEq, Eq, Structural)]
pub enum Direction {
    /// The gain goes up
    Up,
    /// The gain goes down
    Down,
    /// No change the flight controller would see
    Flat,
}

/// What the convergence check reads of a PID recommendation: its gain and
/// the direction it moves it (flat when the change is within half a unit).
#[derive(Debug, Clone, Copy, PartialEq, Eq, Structural)]
pub struct RecDirection {
    /// Axis of the recommendation
    pub axis: Axis,
    /// Term of the recommendation
    pub term: PidTerm,
    /// Direction of the recommended change
    pub direction: Direction,
}

/// Direction of a recorded change.
pub open spec fn delta_direction(delta: i32) -> Direction {
    if delta > 0 {
        Direction::Up
    } else if delta < 0 {
        Direction::Down
    } else {
        Direction::Flat
    }
}

/// Directions of the non-zero recorded changes of one gain, oldest first.
pub open spec fn gain_history(history: Seq<PidChangeRecord>, axis: Axis, term: PidTerm) -> Seq<
    Direction,
>
    decreases history.len(),
{
    if history.len() == 0 {
        Seq::empty()
    } else {
        let rest = gain_history(history.drop_last(), axis, term);
        let h = history.last();
        if h.axis == axis && h.term == term && h.delta != 0 {
            rest.push(delta_direction(h.delta))
        } else {
            rest
        }
    }
}

/// Whether the last `m` non-zero changes of the gain all went `dir`.
pub open spec fn runs_away(
    history: Seq<PidChangeRecord>,
    axis: Axis,
    term: PidTerm,
    dir: Direction,
    m: nat,
) -> bool {
    let g = gain_history(history, axis, term);
    g.len() >= m && forall|i: int| g.len() - m <= i < g.len() ==> g[i] == dir
}

/// Whether a recommendation is suppressed: checking is on (`m > 0`, some
/// history), the recommendation moves its gain, and the gain ran away in
/// that direction.
pub open spec fn is_suppressed(rec: RecDirection, history: Seq<PidChangeRecord>, m: nat) -> bool {
    &&& m > 0
    &&& history.len() > 0
    &&& rec.direction != Direction::Flat
    &&& runs_away(history, rec.axis, rec.term, rec.direction, m)
}

/// The name of an axis as shown in advisories.
pub open spec fn axis_name(a: Axis) -> Seq<char> {
    match a {
        Axis::Roll => "Roll"@,
        Axis::Pitch => "Pitch"@,
        Axis::Yaw => "Yaw"@,
    }
}

/// The name of a PID term as shown in advisories.
pub open spec fn term_name(t: PidTerm) -> Seq<char> {
    match t {
        PidTerm::P => "P"@,
        PidTerm::I => "I"@,
        PidTerm::D => "D"@,
        PidTerm::F => "F"@,
    }
}

/// Follow-up advice after a D runaway.
pub open spec fn d_followup() -> Seq<char> {
    "Bumping D iteratively masks gyro/D-term LPF noise that should be filtered, not damped. Investigate: D-term LPF cutoff (try 100\u{2013}150 Hz), RPM filter enabled, prop balance, motor health."@
}

/// Follow-up advice after repeated I bumps.
pub open spec fn i_bump_followup() -> Seq<char> {
    "Repeated I-bumps suggest persistent error the PID can't track \u{2014} often rate config, RC link delay, or motor desync. Investigate: rcCommand filtering, rates curve, motor protocol/timing."@
}

/// Follow-up advice after repeated P cuts.
pub open spec fn p_cut_followup() -> Seq<char> {
    "Repeated P-cuts suggest the system is hunting at a frequency the PID can't suppress. Investigate: gyro LPF cutoff (try 90\u{2013}120 Hz), frame stiffness, motor mounting."@
}

/// Follow-up advice in every other case.
pub open spec fn generic_followup() -> Seq<char> {
    "Investigate filter chain (gyro/D-term LPF), RPM filter, and mechanical health (prop balance, frame stiffness) before further PID adjustments."@
}

/// The follow-up advice for a runaway of `term` in direction `dir`.
pub open spec fn followup_spec(dir: Direction, term: PidTerm) -> Seq<char> {
    if term == PidTerm::D {
        d_followup()
    } else if dir == Direction::Up && term == PidTerm::I {
        i_bump_followup()
    } else if dir == Direction::Down && term == PidTerm::P {
        p_cut_followup()
    } else {
        generic_followup()
    }
}

/// The advisory for a suppressed recommendation.
pub open spec fn advisory_spec(axis: Axis, term: PidTerm, dir: Direction, iterations: nat) -> Seq<
    char,
> {
    axis_name(axis) + " "@ + term_name(term) + " has been pushed "@ + (if dir == Direction::Up {
        "up"@
    } else {
        "down"@
    }) + " for "@ + decimal_spec(iterations)
        + " iterations without resolving \u{2014} this is likely a filter / mechanical issue, not a PID problem. "@
        + followup_spec(dir, term)
}

/// The advisory names the gain and the direction of the runaway, and ends
/// with advice by term: a D runaway points at the D-term filtering, an I
/// runaway upward at tracking error, a P runaway downward at gyro
/// filtering and the frame, anything else at the filter chain and the
/// mechanics.
pub proof fn lemma_advisory_text(axis: Axis, term: PidTerm, dir: Direction, iterations: nat)
    ensures
        ({
            let a = advisory_spec(axis, term, dir, iterations);
            let gain = (match axis {
                Axis::Roll => "Roll"@,
                Axis::Pitch => "Pitch"@,
                Axis::Yaw => "Yaw"@,
            }) + " "@ + (match term {
                PidTerm::P => "P"@,
                PidTerm::I => "I"@,
                PidTerm::D => "D"@,
                PidTerm::F => "F"@,
            });
            let head = gain + " has been pushed "@ + (if dir == Direction::Up {
                "up"@
            } else {
                "down"@
            }) + " for "@;
            let advice = if term == PidTerm::D {
                d_followup()
            } else if term == PidTerm::I && dir == Direction::Up {
                i_bump_followup()
            } else if term == PidTerm::P && dir == Direction::Down {
                p_cut_followup()
            } else {
                generic_followup()
            };
            &&& starts_with_spec(a, head)
            &&& ends_with_seq(a, advice)
        }),
{
    let a = advisory_spec(axis, term, dir, iterations);
    let gain = axis_name(axis) + " "@ + term_name(term);
    let head = gain + " has been pushed "@ + (if dir == Direction::Up {
        "up"@
    } else {
        "down"@
    }) + " for "@;
    let mid = decimal_spec(iterations)
        + " iterations without resolving \u{2014} this is likely a filter / mechanical issue, not a PID problem. "@;
    let f = followup_spec(dir, term);
    assert(a =~= head + mid + f);
    assert((head + mid + f).take(head.len() as int) =~= head);
    assert((head + mid + f).skip((head + mid).len() as int) =~= f);
}

/// Whether `s` ends with `p`.
pub open spec fn ends_with_seq(s: Seq<char>, p: Seq<char>) -> bool {
    p.len() <= s.len() && s.skip(s.len() - p.len()) == p
}

fn axis_label(a: Axis) -> (res: Vec<char>)
    ensures
        res@ == axis_name(a),
{
    match a {
        Axis::Roll => chars_of("Roll"),
        Axis::Pitch => chars_of("Pitch"),
        Axis::Yaw => chars_of("Yaw"),
    }
}

fn term_label(t: PidTerm) -> (res: Vec<char>)
    ensures
        res@ == term_name(t),
{
    match t {
        PidTerm::P => chars_of("P"),
        PidTerm::I => chars_of("I"),
        PidTerm::D => chars_of("D"),
        PidTerm::F => chars_of("F"),
    }
}

fn followup(dir: Direction, term: PidTerm) -> (res: Vec<char>)
    ensures
        res@ == followup_spec(dir, term),
{
    if term == PidTerm::D {
        chars_of(
            "Bumping D iteratively masks gyro/D-term LPF noise that should be filtered, not damped. Investigate: D-term LPF cutoff (try 100\u{2013}150 Hz), RPM filter enabled, prop balance, motor health.",
        )
    } else if dir == Direction::Up && term == PidTerm::I {
        chars_of(
            "Repeated I-bumps suggest persistent error the PID can't track \u{2014} often rate config, RC link delay, or motor desync. Investigate: rcCommand filtering, rates curve, motor protocol/timing.",
        )
    } else if dir == Direction::Down && term == PidTerm::P {
        chars_of(
            "Repeated P-cuts suggest the system is hunting at a frequency the PID can't suppress. Investigate: gyro LPF cutoff (try 90\u{2013}120 Hz), frame stiffness, motor mounting.",
        )
    } else {
        chars_of(
            "Investigate filter chain (gyro/D-term LPF), RPM filter, and mechanical health (prop balance, frame stiffness) before further PID adjustments.",
        )
    }
}

/// Render the advisory for a suppressed recommendation: the gain, the
/// direction, the number of iterations, and where to look instead.
pub fn build_advisory(axis: Axis, term: PidTerm, dir: Direction, iterations: usize) -> (res: String)
    ensures
        res@ == advisory_spec(axis, term, dir, iterations as nat),
{
    let a = concat(&axis_label(axis), &chars_of(" "));
    let b = concat(&a, &term_label(term));
    let c = concat(&b, &chars_of(" has been pushed "));
    let d = concat(
        &c,
        &(if dir == Direction::Up {
            chars_of("up")
        } else {
            chars_of("down")
        }),
    );
    let e = concat(&d, &chars_of(" for "));
    let f = concat(&e, &decimal(iterations as u64));
    let g = concat(
        &f,
        &chars_of(
            " iterations without resolving \u{2014} this is likely a filter / mechanical issue, not a PID problem. ",
        ),
    );
    let h = concat(&g, &followup(dir, term));
    string_of(&h)
}

/// One suppressed recommendation.
#[derive(Debug, Clone)]
pub struct SuppressedRecommendation {
    /// Index of the recommendation in the input
    pub index: usize,
    /// Iterations (including the current one) that pushed the gain in the
    /// same direction
    pub iterations_in_direction: usize,
    /// Human-readable advisory
    pub advisory: String,
}

/// The outcome of the convergence check, by position in the input.
#[derive(Debug, Clone)]
pub struct ConvergenceOutcome {
    /// Indices of the kept recommendations, in input order
    pub kept: Vec<usize>,
    /// The suppressed recommendations, in input order
    pub suppressed: Vec<SuppressedRecommendation>,
}

/// Indices of the recommendations in `recs` that are kept.
pub open spec fn kept_spec(recs: Seq<RecDirection>, history: Seq<PidChangeRecord>, m: nat) -> Seq<
    usize,
>
    decreases recs.len(),
{
    if recs.len() == 0 {
        Seq::empty()
    } else {
        let rest = kept_spec(recs.drop_last(), history, m);
        if is_suppressed(recs.last(), history, m) {
            rest
        } else {
            rest.push((recs.len() - 1) as usize)
        }
    }
}

/// Indices of the recommendations in `recs` that are suppressed.
pub open spec fn suppressed_spec(recs: Seq<RecDirection>, history: Seq<PidChangeRecord>, m: nat) -> Seq<
    usize,
>
    decreases recs.len(),
{
    if recs.len() == 0 {
        Seq::empty()
    } else {
        let rest = suppressed_spec(recs.drop_last(), history, m);
        if is_suppressed(recs.last(), history, m) {
            rest.push((recs.len() - 1) as usize)
        } else {
            rest
        }
    }
}

/// Whether the gain of `rec` ran away in its direction over the last `m`
/// non-zero changes of `history`.
fn check_runaway(rec: &RecDirection, history: &Vec<PidChangeRecord>, m: usize) -> (res: bool)
    ensures
        res == runs_away(history@, rec.axis, rec.term, rec.direction, m as nat),
{
    let ghost g = gain_history(history@, rec.axis, rec.term);
    let mut i = history.len();
    let mut count: usize = 0;
    assert(history@.take(history@.len() as int) =~= history@);
    assert(g + g.subrange(g.len() as int, g.len() as int) =~= g);
    while i > 0 && count < m
        invariant
            0 <= i <= history@.len(),
            count <= m,
            g == gain_history(history@, rec.axis, rec.term),
            g.len() == gain_history(history@.take(i as int), rec.axis, rec.term).len() + count,
            g == gain_history(history@.take(i as int), rec.axis, rec.term) + g.subrange(
                g.len() - count,
                g.len() as int,
            ),
            forall|k: int| g.len() - count <= k < g.len() ==> g[k] == rec.direction,
        decreases i,
    {
        let h = history[i - 1];
        proof {
            let t = history@.take(i as int);
            assert(t.drop_last() =~= history@.take(i - 1));
            assert(t.last() == h);
        }
        if h.axis == rec.axis && h.term == rec.term && h.delta != 0 {
            let d = if h.delta > 0 {
                Direction::Up
            } else {
                Direction::Down
            };
            let ghost before = gain_history(history@.take(i - 1), rec.axis, rec.term);
            proof {
                assert(g[g.len() - count - 1] == d) by {
                    assert(g =~= before.push(d) + g.subrange(g.len() - count, g.len() as int));
                }
            }
            if d != rec.direction {
                return false;
            }
            proof {
                assert(g =~= before + g.subrange(g.len() - count - 1, g.len() as int)) by {
                    assert(g =~= before.push(d) + g.subrange(g.len() - count, g.len() as int));
                }
            }
            count = count + 1;
        }
        i = i - 1;
    }
    count == m
}

/// Filter `recs` against the tune history: a recommendation is suppressed
/// when its direction matches each of the last `min_repeated` non-zero
/// changes of its gain; the advisory then counts those changes plus the
/// current one. `min_repeated == 0` or an empty history keeps everything.
pub fn apply_convergence_suppression(
    recs: &Vec<RecDirection>,
    history: &Vec<PidChangeRecord>,
    min_repeated: usize,
) -> (res: ConvergenceOutcome)
    requires
        min_repeated < usize::MAX || history@.len() < usize::MAX,
    ensures
        res.kept@ == kept_spec(recs@, history@, min_repeated as nat),
        res.kept@.len() + res.suppressed@.len() == recs@.len(),
        min_repeated == 0 || history@.len() == 0 ==> res.kept@ == Seq::new(
            recs@.len(),
            |i: int| i as usize,
        ) && res.suppressed@.len() == 0,
        res.suppressed@.map_values(|n: SuppressedRecommendation| n.index) == suppressed_spec(
            recs@,
            history@,
            min_repeated as nat,
        ),
        forall|k: int|
            0 <= k < res.suppressed@.len() ==> {
                let n = #[trigger] res.suppressed@[k];
                let r = recs@[n.index as int];
                &&& n.index < recs@.len()
                &&& n.iterations_in_direction == min_repeated + 1
                &&& n.advisory@ == advisory_spec(
                    r.axis,
                    r.term,
                    r.direction,
                    (min_repeated + 1) as nat,
                )
            },
{
    let mut kept: Vec<usize> = Vec::new();
    let mut suppressed: Vec<SuppressedRecommendation> = Vec::new();
    let mut i: usize = 0;
    while i < recs.len()
        invariant
            0 <= i <= recs@.len(),
            min_repeated < usize::MAX || history@.len() < usize::MAX,
            kept@ == kept_spec(recs@.take(i as int), history@, min_repeated as nat),
            suppressed@.map_values(|n: SuppressedRecommendation| n.index) == suppressed_spec(
                recs@.take(i as int),
                history@,
                min_repeated as nat,
            ),
            forall|k: int|
                0 <= k < suppressed@.len() ==> {
                    let n = #[trigger] suppressed@[k];
                    let r = recs@[n.index as int];
                    &&& n.index < i
                    &&& n.iterations_in_direction == min_repeated + 1
                    &&& n.advisory@ == advisory_spec(
                        r.axis,
                        r.term,
                        r.direction,
                        (min_repeated + 1) as nat,
                    )
                },
        decreases recs@.len() - i,
    {
        let rec = recs[i];
        proof {
            let t = recs@.take(i + 1);
            assert(t.drop_last() =~= recs@.take(i as int));
            assert(t.last() == rec);
        }
        let suppress = if min_repeated == 0 || history.len() == 0 {
            false
        } else if rec.direction == Direction::Flat {
            false
        } else {
            check_runaway(&rec, history, min_repeated)
        };
        if suppress {
            proof {
                lemma_gain_history_len(history@, rec.axis, rec.term);
            }
            let advisory = build_advisory(rec.axis, rec.term, rec.direction, min_repeated + 1);
            let ghost before = suppressed@;
            suppressed.push(
                SuppressedRecommendation {
                    index: i,
                    iterations_in_direction: min_repeated + 1,
                    advisory,
                },
            );
            proof {
                assert(suppressed@.map_values(|n: SuppressedRecommendation| n.index) =~= before.map_values(
                    |n: SuppressedRecommendation| n.index,
                ).push(i));
            }
        } else {
            kept.push(i);
        }
        i = i + 1;
    }
    proof {
        assert(recs@.take(recs@.len() as int) =~= recs@);
        lemma_kept_and_suppressed_partition(recs@, history@, min_repeated as nat);
        assert(suppressed@.map_values(|n: SuppressedRecommendation| n.index).len()
            == suppressed@.len());
        if min_repeated == 0 || history@.len() == 0 {
            lemma_no_history_keeps_all(recs@, history@, min_repeated as nat);
        }
    }
    ConvergenceOutcome { kept, suppressed }
}

/// A gain's history of non-zero changes is no longer than the history.
proof fn lemma_gain_history_len(history: Seq<PidChangeRecord>, axis: Axis, term: PidTerm)
    ensures
        gain_history(history, axis, term).len() <= history.len(),
    decreases history.len(),
{
    if history.len() > 0 {
        lemma_gain_history_len(history.drop_last(), axis, term);
    }
}

/// Every recommendation is either kept or suppressed, never both, and
/// both lists keep the input order.
pub proof fn lemma_kept_and_suppressed_partition(
    recs: Seq<RecDirection>,
    history: Seq<PidChangeRecord>,
    m: nat,
)
    requires
        recs.len() <= usize::MAX,
    ensures
        kept_spec(recs, history, m).len() + suppressed_spec(recs, history, m).len() == recs.len(),
        forall|i: int|
            0 <= i < recs.len() ==> (kept_spec(recs, history, m).contains(i as usize) <==> !is_suppressed(
                #[trigger] recs[i],
                history,
                m,
            )),
        forall|i: int|
            0 <= i < recs.len() ==> (suppressed_spec(recs, history, m).contains(i as usize)
                <==> is_suppressed(#[trigger] recs[i], history, m)),
        forall|a: int, b: int|
            0 <= a < b < kept_spec(recs, history, m).len() ==> kept_spec(recs, history, m)[a]
                < kept_spec(recs, history, m)[b],
        forall|a: int, b: int|
            0 <= a < b < suppressed_spec(recs, history, m).len() ==> suppressed_spec(
                recs,
                history,
                m,
            )[a] < suppressed_spec(recs, history, m)[b],
        forall|a: int|
            0 <= a < kept_spec(recs, history, m).len() ==> kept_spec(recs, history, m)[a]
                < recs.len(),
        forall|a: int|
            0 <= a < suppressed_spec(recs, history, m).len() ==> suppressed_spec(recs, history, m)[a]
                < recs.len(),
    decreases recs.len(),
{
    if recs.len() > 0 {
        let d = recs.drop_last();
        let n = recs.len() - 1;
        lemma_kept_and_suppressed_partition(d, history, m);
        assert forall|i: int| 0 <= i < n implies recs[i] == d[i] by {}
        let k0 = kept_spec(d, history, m);
        let s0 = suppressed_spec(d, history, m);
        assert forall|i: int|
            0 <= i < recs.len() implies (kept_spec(recs, history, m).contains(i as usize) <==> !is_suppressed(
            #[trigger] recs[i],
            history,
            m,
        )) by {
            if is_suppressed(recs[n], history, m) {
                assert(kept_spec(recs, history, m) == k0);
                if i == n {
                    if k0.contains(i as usize) {
                        let a = choose|a: int| 0 <= a < k0.len() && #[trigger] k0[a] == i as usize;
                        assert(k0[a] < d.len());
                    }
                }
            } else {
                assert(kept_spec(recs, history, m) == k0.push(n as usize));
                if i < n {
                    if k0.push(n as usize).contains(i as usize) {
                        let a = choose|a: int|
                            0 <= a < k0.len() + 1 && #[trigger] k0.push(n as usize)[a] == i as usize;
                        if a < k0.len() {
                            assert(k0[a] == i as usize);
                        }
                    }
                    if k0.contains(i as usize) {
                        let a = choose|a: int| 0 <= a < k0.len() && #[trigger] k0[a] == i as usize;
                        assert(k0.push(n as usize)[a] == i as usize);
                    }
                } else {
                    assert(k0.push(n as usize)[k0.len() as int] == n as usize);
                }
            }
        }
        assert forall|i: int|
            0 <= i < recs.len() implies (suppressed_spec(recs, history, m).contains(i as usize)
            <==> is_suppressed(#[trigger] recs[i], history, m)) by {
            if !is_suppressed(recs[n], history, m) {
                assert(suppressed_spec(recs, history, m) == s0);
                if i == n {
                    if s0.contains(i as usize) {
                        let a = choose|a: int| 0 <= a < s0.len() && #[trigger] s0[a] == i as usize;
                        assert(s0[a] < d.len());
                    }
                }
            } else {
                assert(suppressed_spec(recs, history, m) == s0.push(n as usize));
                if i < n {
                    if s0.push(n as usize).contains(i as usize) {
                        let a = choose|a: int|
                            0 <= a < s0.len() + 1 && #[trigger] s0.push(n as usize)[a] == i as usize;
                        if a < s0.len() {
                            assert(s0[a] == i as usize);
                        }
                    }
                    if s0.contains(i as usize) {
                        let a = choose|a: int| 0 <= a < s0.len() && #[trigger] s0[a] == i as usize;
                        assert(s0.push(n as usize)[a] == i as usize);
                    }
                } else {
                    assert(s0.push(n as usize)[s0.len() as int] == n as usize);
                }
            }
        }
    }
}

/// With the check off (`m == 0`) or no history, every recommendation is
/// kept and none is suppressed.
pub proof fn lemma_no_history_keeps_all(
    recs: Seq<RecDirection>,
    history: Seq<PidChangeRecord>,
    m: nat,
)
    requires
        m == 0 || history.len() == 0,
    ensures
        kept_spec(recs, history, m) == Seq::new(recs.len(), |i: int| i as usize),
        suppressed_spec(recs, history, m) == Seq::<usize>::empty(),
    decreases recs.len(),
{
    if recs.len() > 0 {
        lemma_no_history_keeps_all(recs.drop_last(), history, m);
        assert(kept_spec(recs, history, m) =~= Seq::new(recs.len(), |i: int| i as usize));
    }
}

/// Whether a recorded change is a non-zero change of the gain `(axis, term)`.
pub open spec fn changes_gain(axis: Axis, term: PidTerm) -> spec_fn(PidChangeRecord) -> bool {
    |r: PidChangeRecord| r.axis == axis && r.term == term && r.delta != 0
}

/// The gain history ends, `after` non-zero changes of the gain past
/// position `j`, with the direction of the change at `j`.
proof fn lemma_gain_history_at(history: Seq<PidChangeRecord>, axis: Axis, term: PidTerm, j: int)
    requires
        0 <= j < history.len(),
        changes_gain(axis, term)(history[j]),
    ensures
        ({
            let g = gain_history(history, axis, term);
            let after = history.subrange(j + 1, history.len() as int).filter(
                changes_gain(axis, term),
            ).len();
            &&& after < g.len()
            &&& g[g.len() - 1 - after] == delta_direction(history[j].delta)
        }),
    decreases history.len(),
{
    let p = changes_gain(axis, term);
    let n = history.len() - 1;
    let tail = history.subrange(j + 1, history.len() as int);
    if j == n {
        assert(tail =~= Seq::<PidChangeRecord>::empty());
        tail.lemma_filter_len(p);
    } else {
        let d = history.drop_last();
        lemma_gain_history_at(d, axis, term, j);
        let dtail = d.subrange(j + 1, d.len() as int);
        assert(tail =~= dtail.push(history[n]));
        dtail.lemma_filter_len_push(p, history[n]);
        assert(d[j] == history[j]);
        assert(d.last() == history[n - 1]);
        assert(history.last() == history[n]);
    }
}

/// A recommendation is kept when one of the last `m` non-zero changes of
/// its gain went the other way: a recorded change at `j` of the same gain
/// opposite to the recommendation's direction, followed by fewer than `m`
/// non-zero changes of that gain, keeps recommendation `i`.
pub proof fn lemma_opposite_recent_change_keeps(
    recs: Seq<RecDirection>,
    history: Seq<PidChangeRecord>,
    m: nat,
    i: int,
    j: int,
)
    requires
        recs.len() <= usize::MAX,
        0 <= i < recs.len(),
        0 <= j < history.len(),
        history[j].axis == recs[i].axis,
        history[j].term == recs[i].term,
        (recs[i].direction == Direction::Up && history[j].delta < 0) || (recs[i].direction
            == Direction::Down && history[j].delta > 0),
        later_changes(history, recs[i].axis, recs[i].term, j) < m,
    ensures
        kept_spec(recs, history, m).contains(i as usize),
        !suppressed_spec(recs, history, m).contains(i as usize),
{
    let r = recs[i];
    lemma_gain_history_at(history, r.axis, r.term, j);
    let g = gain_history(history, r.axis, r.term);
    let after = history.subrange(j + 1, history.len() as int).filter(changes_gain(r.axis, r.term)).len();
    if g.len() >= m {
        assert(g.len() - m <= g.len() - 1 - after < g.len());
        assert(g[g.len() - 1 - after] != r.direction);
    }
    assert(!runs_away(history, r.axis, r.term, r.direction, m));
    lemma_kept_and_suppressed_partition(recs, history, m);
}

/// The number of non-zero changes of the gain `(axis, term)` recorded after
/// position `j`.
pub open spec fn later_changes(history: Seq<PidChangeRecord>, axis: Axis, term: PidTerm, j: int) -> nat {
    history.subrange(j + 1, history.len() as int).filter(changes_gain(axis, term)).len()
}

/// Every entry of the gain history comes from a recorded non-zero change of
/// the gain, with as many such changes after it as entries after it; the
/// gain history has one entry per such change.
proof fn lemma_gain_history_sources(history: Seq<PidChangeRecord>, axis: Axis, term: PidTerm)
    ensures
        gain_history(history, axis, term).len() == history.filter(changes_gain(axis, term)).len(),
        forall|t: int|
            #![trigger gain_history(history, axis, term)[t]]
            0 <= t < gain_history(history, axis, term).len() ==> exists|j: int|
                0 <= j < history.len() && changes_gain(axis, term)(history[j])
                    && #[trigger] later_changes(history, axis, term, j) == gain_history(
                    history,
                    axis,
                    term,
                ).len() - 1 - t && gain_history(history, axis, term)[t] == delta_direction(
                    history[j].delta,
                ),
    decreases history.len(),
{
    let p = changes_gain(axis, term);
    if history.len() == 0 {
        history.lemma_filter_len(p);
    } else {
        let d = history.drop_last();
        let n = history.len() - 1;
        lemma_gain_history_sources(d, axis, term);
        assert(history =~= d.push(history[n]));
        d.lemma_filter_len_push(p, history[n]);
        let g = gain_history(history, axis, term);
        let gd = gain_history(d, axis, term);
        assert forall|j: int| 0 <= j < n implies #[trigger] later_changes(history, axis, term, j)
            == later_changes(d, axis, term, j) + (if p(history[n]) {
            1int
        } else {
            0int
        }) by {
            let dt = d.subrange(j + 1, d.len() as int);
            assert(history.subrange(j + 1, history.len() as int) =~= dt.push(history[n]));
            dt.lemma_filter_len_push(p, history[n]);
        }
        assert forall|t: int| #![trigger g[t]] 0 <= t < g.len() implies exists|j: int|
            0 <= j < history.len() && p(history[j]) && #[trigger] later_changes(
                history,
                axis,
                term,
                j,
            ) == g.len() - 1 - t && g[t] == delta_direction(history[j].delta) by {
            if t < gd.len() {
                let j = choose|j: int|
                    0 <= j < d.len() && p(d[j]) && #[trigger] later_changes(d, axis, term, j)
                        == gd.len() - 1 - t && gd[t] == delta_direction(d[j].delta);
                assert(d[j] == history[j]);
                assert(later_changes(history, axis, term, j) == g.len() - 1 - t);
            } else {
                let e = history.subrange(n + 1, history.len() as int);
                assert(e =~= Seq::<PidChangeRecord>::empty());
                e.lemma_filter_len(p);
                assert(later_changes(history, axis, term, n) == 0);
            }
        }
    }
}

/// A recommendation is suppressed when it moves its gain and each of the
/// last `m` (at least one) non-zero recorded changes of that gain went its
/// way: there are at least `m` such changes, and every one with fewer than
/// `m` such changes after it has the recommendation's direction.
pub proof fn lemma_same_direction_run_suppresses(
    recs: Seq<RecDirection>,
    history: Seq<PidChangeRecord>,
    m: nat,
    i: int,
)
    requires
        recs.len() <= usize::MAX,
        0 <= i < recs.len(),
        m > 0,
        recs[i].direction != Direction::Flat,
        history.filter(changes_gain(recs[i].axis, recs[i].term)).len() >= m,
        forall|j: int|
            0 <= j < history.len() && changes_gain(recs[i].axis, recs[i].term)(history[j])
                && #[trigger] later_changes(history, recs[i].axis, recs[i].term, j) < m ==> (
            recs[i].direction == Direction::Up && history[j].delta > 0) || (recs[i].direction
                == Direction::Down && history[j].delta < 0),
    ensures
        suppressed_spec(recs, history, m).contains(i as usize),
        !kept_spec(recs, history, m).contains(i as usize),
{
    let r = recs[i];
    lemma_gain_history_sources(history, r.axis, r.term);
    let g = gain_history(history, r.axis, r.term);
    assert(history.len() > 0) by {
        if history.len() == 0 {
            history.lemma_filter_len(changes_gain(r.axis, r.term));
        }
    }
    assert forall|t: int| g.len() - m <= t < g.len() implies g[t] == r.direction by {
        let j = choose|j: int|
            0 <= j < history.len() && changes_gain(r.axis, r.term)(history[j]) && #[trigger] later_changes(
                history,
                r.axis,
                r.term,
                j,
            ) == g.len() - 1 - t && g[t] == delta_direction(history[j].delta);
        assert(later_changes(history, r.axis, r.term, j) < m);
    }
    assert(runs_away(history, r.axis, r.term, r.direction, m));
    lemma_kept_and_suppressed_partition(recs, history, m);
}

/// A recommendation that moves its gain against the last recorded non-zero
/// change of that gain is never suppressed; neither is one that moves its
/// gain by less than the flight controller can see.
pub proof fn lemma_reversal_is_kept(rec: RecDirection, history: Seq<PidChangeRecord>, m: nat)
    requires
        m > 0,
        rec.direction == Direction::Flat || ({
            let g = gain_history(history, rec.axis, rec.term);
            g.len() > 0 && g.last() != rec.direction
        }),
    ensures
        !is_suppressed(rec, history, m),
{
    let g = gain_history(history, rec.axis, rec.term);
    if rec.direction != Direction::Flat && g.len() >= m {
        assert(g.len() - m <= g.len() - 1 < g.len());
    }
}

} // verus!
