//! Ranking of PID recommendations, the one-per-axis collapse, and the PID
//! step sizes.

use crate::domain::{Axis, PidTerm, Priority};
use vstd::prelude::*;

verus! {

// ---------------------------------------------------------------------------
// Step sizes, in percent
// ---------------------------------------------------------------------------

/// Largest P-term reduction of one recommendation, in percent.
pub const MAX_P_CUT_PCT: u32 = 15;

/// P-term increase of one recommendation, in percent.
pub const P_BUMP_PCT: u32 = 8;

/// D-term step (bump or cut) of one recommendation, in percent.
pub const D_STEP_PCT: u32 = 8;

/// I-term increase of one recommendation, in percent.
pub const I_BUMP_PCT: u32 = 8;

/// Smallest P after the largest cut, in percent of the current P.
pub const P_CUT_MAX_FACTOR: u32 = 100 - MAX_P_CUT_PCT;

/// P after a bump, in percent of the current P.
pub const P_BUMP_FACTOR: u32 = 100 + P_BUMP_PCT;

/// D after a bump, in percent of the current D.
pub const D_BUMP_FACTOR: u32 = 100 + D_STEP_PCT;

/// D after a cut, in percent of the current D.
pub const D_CUT_FACTOR: u32 = 100 - D_STEP_PCT;

/// I after a bump, in percent of the current I.
pub const I_TERM_BUMP: u32 = 100 + I_BUMP_PCT;

/// Largest drift of a recommended gain away from its baseline, in percent
/// of the baseline.
pub const BASELINE_BOUND_PCT: u32 = 15;

/// The step sizes stay conservative (P cuts at most 15%, D steps at most
/// 10%, bumps of 8%) and every factor is its percentage applied to 100%.
pub proof fn lemma_step_sizes()
    ensures
        MAX_P_CUT_PCT <= 15,
        D_STEP_PCT <= 10,
        P_BUMP_PCT == 8,
        I_BUMP_PCT == 8,
        P_CUT_MAX_FACTOR == 100 - MAX_P_CUT_PCT,
        P_BUMP_FACTOR == 100 + P_BUMP_PCT,
        D_BUMP_FACTOR == 100 + D_STEP_PCT,
        D_CUT_FACTOR == 100 - D_STEP_PCT,
        I_TERM_BUMP == 100 + I_BUMP_PCT,
{
}

// ---------------------------------------------------------------------------
// Ranking
// ---------------------------------------------------------------------------

/// Rank of a priority; higher is more important.
pub open spec fn priority_rank_spec(p: Priority) -> u8 {
    match p {
        Priority::Critical => 4,
        Priority::High => 3,
        Priority::Medium => 2,
        Priority::Low => 1,
    }
}

/// Rank of a PID term among same-priority, same-direction recommendations:
/// F, then P, then D, then I.
pub open spec fn term_rank_spec(t: PidTerm) -> u8 {
    match t {
        PidTerm::F => 4,
        PidTerm::P => 3,
        PidTerm::D => 2,
        PidTerm::I => 1,
    }
}

/// Map a priority to its rank (Critical 4, High 3, Medium 2, Low 1).
pub fn priority_rank(p: &Priority) -> (res: u8)
    ensures
        res == priority_rank_spec(*p),
{
    match p {
        Priority::Critical => 4,
        Priority::High => 3,
        Priority::Medium => 2,
        Priority::Low => 1,
    }
}

/// Map a PID term to its tiebreak rank (F 4, P 3, D 2, I 1).
pub fn term_rank(t: &PidTerm) -> (res: u8)
    ensures
        res == term_rank_spec(*t),
{
    match t {
        PidTerm::F => 4,
        PidTerm::P => 3,
        PidTerm::D => 2,
        PidTerm::I => 1,
    }
}

/// What the collapse reads of a PID recommendation: its axis, term and
/// priority, and whether it lowers the gain (recommended below current).
#[derive(Debug, Clone, Copy, PartialEq, Eq, Structural)]
pub struct RecKey {
    /// Axis of the recommendation
    pub axis: Axis,
    /// Term the recommendation changes
    pub term: PidTerm,
    /// Priority of the recommendation
    pub priority: Priority,
    /// Whether the recommended value is below the current one
    pub is_cut: bool,
}

/// Whether `c` should replace `i`: higher priority wins; at equal priority a
/// cut beats a bump; then the higher term rank wins.
pub open spec fn outranks(c: RecKey, i: RecKey) -> bool {
    if priority_rank_spec(c.priority) != priority_rank_spec(i.priority) {
        priority_rank_spec(c.priority) > priority_rank_spec(i.priority)
    } else if c.is_cut != i.is_cut {
        c.is_cut
    } else {
        term_rank_spec(c.term) > term_rank_spec(i.term)
    }
}

/// Whether `candidate` should replace `incumbent` in the per-axis collapse.
pub fn rec_outranks(candidate: &RecKey, incumbent: &RecKey) -> (res: bool)
    ensures
        res == outranks(*candidate, *incumbent),
{
    let cand_pri = priority_rank(&candidate.priority);
    let inc_pri = priority_rank(&incumbent.priority);
    if cand_pri != inc_pri {
        return cand_pri > inc_pri;
    }
    if candidate.is_cut != incumbent.is_cut {
        return candidate.is_cut;
    }
    term_rank(&candidate.term) > term_rank(&incumbent.term)
}

/// The recommendation kept for `axis` after reading `keys` in order: the
/// first one for the axis, replaced by each later one that outranks it.
pub open spec fn kept_for_axis(keys: Seq<RecKey>, axis: Axis) -> Option<int>
    decreases keys.len(),
{
    if keys.len() == 0 {
        None
    } else {
        let before = kept_for_axis(keys.drop_last(), axis);
        let n = keys.len() - 1;
        if keys[n].axis != axis {
            before
        } else {
            match before {
                None => Some(n),
                Some(j) => if outranks(keys[n], keys[j]) {
                    Some(n)
                } else {
                    Some(j)
                },
            }
        }
    }
}

/// The indices kept by the collapse, in Roll, Pitch, Yaw order.
#[verifier::opaque]
pub open spec fn collapse_spec(keys: Seq<RecKey>) -> Seq<usize> {
    let pick = |o: Option<int>|
        match o {
            Some(j) => seq![j as usize],
            None => Seq::<usize>::empty(),
        };
    pick(kept_for_axis(keys, Axis::Roll)) + pick(kept_for_axis(keys, Axis::Pitch)) + pick(
        kept_for_axis(keys, Axis::Yaw),
    )
}

fn pick(o: Option<usize>, out: &mut Vec<usize>)
    ensures
        final(out)@ == old(out)@ + match o {
            Some(j) => seq![j],
            None => Seq::<usize>::empty(),
        },
{
    if let Some(j) = o {
        out.push(j);
    }
}

/// The indices the collapse keeps, in Roll, Pitch, Yaw order.
fn collapse_indices(keys: &Vec<RecKey>) -> (res: Vec<usize>)
    ensures
        res@ == collapse_spec(keys@),
{
    let mut roll: Option<usize> = None;
    let mut pitch: Option<usize> = None;
    let mut yaw: Option<usize> = None;
    let mut i: usize = 0;
    while i < keys.len()
        invariant
            0 <= i <= keys@.len(),
            roll matches Some(j) ==> j < i,
            pitch matches Some(j) ==> j < i,
            yaw matches Some(j) ==> j < i,
            kept_for_axis(keys@.take(i as int), Axis::Roll) == match roll {
                Some(j) => Some(j as int),
                None => None::<int>,
            },
            kept_for_axis(keys@.take(i as int), Axis::Pitch) == match pitch {
                Some(j) => Some(j as int),
                None => None::<int>,
            },
            kept_for_axis(keys@.take(i as int), Axis::Yaw) == match yaw {
                Some(j) => Some(j as int),
                None => None::<int>,
            },
        decreases keys@.len() - i,
    {
        let k = keys[i];
        proof {
            let t = keys@.take(i + 1);
            assert(t.drop_last() =~= keys@.take(i as int));
            assert(t[i as int] == k);
            assert forall|j: int| 0 <= j < i implies t[j] == keys@[j] by {}
        }
        match k.axis {
            Axis::Roll => {
                roll = match roll {
                    None => Some(i),
                    Some(j) => if rec_outranks(&k, &keys[j]) {
                        Some(i)
                    } else {
                        Some(j)
                    },
                };
            },
            Axis::Pitch => {
                pitch = match pitch {
                    None => Some(i),
                    Some(j) => if rec_outranks(&k, &keys[j]) {
                        Some(i)
                    } else {
                        Some(j)
                    },
                };
            },
            Axis::Yaw => {
                yaw = match yaw {
                    None => Some(i),
                    Some(j) => if rec_outranks(&k, &keys[j]) {
                        Some(i)
                    } else {
                        Some(j)
                    },
                };
            },
        }
        i = i + 1;
    }
    proof {
        assert(keys@.take(keys@.len() as int) =~= keys@);
    }
    let mut out: Vec<usize> = Vec::new();
    pick(roll, &mut out);
    pick(pitch, &mut out);
    pick(yaw, &mut out);
    proof {
        reveal(collapse_spec);
    }
    assert(out@ =~= collapse_spec(keys@));
    out
}

/// Collapse a recommendation list to at most one recommendation per axis:
/// the indices of the kept recommendations, in Roll, Pitch, Yaw order.
pub fn collapse_recs_per_axis(keys: &Vec<RecKey>) -> (res: Vec<usize>)
    ensures
        res@ == collapse_spec(keys@),
        one_per_axis(keys@, res@),
{
    let out = collapse_indices(keys);
    proof {
        assert(keys@.len() == keys.len());
        lemma_collapse_one_per_axis(keys@, out@);
    }
    out
}

/// Outranking by cases: a more important priority wins (Critical over
/// High over Medium over Low) whatever the direction and term; at equal
/// priority a cut beats a bump; at equal priority and direction the term
/// decides, F over P over D over I; equal priority, direction and term
/// never outrank.
pub proof fn lemma_outranks_by_cases(c: RecKey, i: RecKey)
    ensures
        c.priority == Priority::Critical && i.priority != Priority::Critical ==> outranks(c, i),
        c.priority == Priority::High && (i.priority == Priority::Medium || i.priority
            == Priority::Low) ==> outranks(c, i),
        c.priority == Priority::Medium && i.priority == Priority::Low ==> outranks(c, i),
        c.priority == i.priority && c.is_cut && !i.is_cut ==> outranks(c, i),
        c.priority == i.priority && c.is_cut == i.is_cut && c.term == PidTerm::F && i.term
            != PidTerm::F ==> outranks(c, i),
        c.priority == i.priority && c.is_cut == i.is_cut && c.term == PidTerm::P && (i.term
            == PidTerm::D || i.term == PidTerm::I) ==> outranks(c, i),
        c.priority == i.priority && c.is_cut == i.is_cut && c.term == PidTerm::D && i.term
            == PidTerm::I ==> outranks(c, i),
        c.priority == i.priority && c.is_cut == i.is_cut && c.term == i.term ==> !outranks(c, i),
{
}

/// Outranking is a strict order: irreflexive and transitive; and any two
/// recommendations with different priority, direction or term are ranked.
pub proof fn lemma_outranks_strict_order(a: RecKey, b: RecKey, c: RecKey)
    ensures
        !outranks(a, a),
        outranks(a, b) && outranks(b, c) ==> outranks(a, c),
        outranks(a, b) ==> !outranks(b, a),
        (a.priority != b.priority || a.is_cut != b.is_cut || a.term != b.term) ==> (outranks(a, b)
            || outranks(b, a)),
{
}

/// The collapse keeps, for each axis that has recommendations, the first
/// recommendation that no other one on that axis outranks; it keeps
/// nothing for an axis without recommendations.
pub proof fn lemma_collapse_keeps_first_best(keys: Seq<RecKey>, axis: Axis)
    ensures
        kept_for_axis(keys, axis) is None <==> forall|i: int|
            0 <= i < keys.len() ==> (#[trigger] keys[i]).axis != axis,
        kept_for_axis(keys, axis) matches Some(j) ==> {
            &&& 0 <= j < keys.len()
            &&& keys[j].axis == axis
            &&& forall|i: int|
                0 <= i < keys.len() && (#[trigger] keys[i]).axis == axis ==> !outranks(
                    keys[i],
                    keys[j],
                )
            &&& forall|i: int|
                0 <= i < j && (#[trigger] keys[i]).axis == axis ==> outranks(keys[j], keys[i])
        },
    decreases keys.len(),
{
    if keys.len() > 0 {
        let d = keys.drop_last();
        let n = keys.len() - 1;
        lemma_collapse_keeps_first_best(d, axis);
        assert forall|i: int| 0 <= i < n implies keys[i] == d[i] by {}
        match kept_for_axis(d, axis) {
            None => {
                if keys[n].axis == axis {
                    assert forall|i: int|
                        0 <= i < keys.len() && (#[trigger] keys[i]).axis == axis implies !outranks(
                        keys[i],
                        keys[n],
                    ) by {
                        if i < n {
                            assert(d[i].axis != axis);
                        }
                        lemma_outranks_strict_order(keys[i], keys[n], keys[n]);
                    }
                }
            },
            Some(j) => {
                if keys[n].axis == axis {
                    if outranks(keys[n], keys[j]) {
                        assert forall|i: int|
                            0 <= i < keys.len() && (#[trigger] keys[i]).axis == axis implies !outranks(
                            keys[i],
                            keys[n],
                        ) by {
                            lemma_outranks_strict_order(keys[i], keys[j], keys[n]);
                            lemma_outranks_strict_order(keys[n], keys[n], keys[n]);
                            if i < n {
                                assert(d[i].axis == axis);
                                assert(!outranks(d[i], d[j]));
                                lemma_outranks_strict_order(keys[i], keys[n], keys[j]);
                            }
                        }
                        assert forall|i: int|
                            0 <= i < n && (#[trigger] keys[i]).axis == axis implies outranks(
                            keys[n],
                            keys[i],
                        ) by {
                            assert(d[i].axis == axis);
                            assert(!outranks(d[i], d[j]));
                            lemma_outranks_strict_order(keys[n], keys[j], keys[i]);
                            lemma_outranks_strict_order(keys[j], keys[i], keys[n]);
                            lemma_outranks_strict_order(keys[i], keys[j], keys[n]);
                        }
                    } else {
                        assert forall|i: int|
                            0 <= i < keys.len() && (#[trigger] keys[i]).axis == axis implies !outranks(
                            keys[i],
                            keys[j],
                        ) by {
                            if i < n {
                                assert(d[i].axis == axis);
                            }
                        }
                    }
                }
            },
        }
    }
}

/// The index an optional pick contributes to the collapse.
pub open spec fn opt_seq(o: Option<int>) -> Seq<usize> {
    match o {
        Some(j) => seq![j as usize],
        None => Seq::<usize>::empty(),
    }
}

/// Position of an axis in the collapse's output order.
pub open spec fn axis_rank(a: Axis) -> int {
    match a {
        Axis::Roll => 0,
        Axis::Pitch => 1,
        Axis::Yaw => 2,
    }
}

/// Whether some recommendation of `keys` is for `axis`.
pub open spec fn axis_present(keys: Seq<RecKey>, axis: Axis) -> bool {
    exists|i: int| 0 <= i < keys.len() && #[trigger] keys[i].axis == axis
}

/// Whether some index of `out` names a recommendation of `keys` for `axis`.
pub open spec fn axis_kept(keys: Seq<RecKey>, out: Seq<usize>, axis: Axis) -> bool {
    exists|k: int| 0 <= k < out.len() && #[trigger] keys[out[k] as int].axis == axis
}

/// What the collapse promises of its result `out` for the input `keys`:
/// at most three indices, none for an empty input, each naming a
/// recommendation of the input, the kept ones in Roll, Pitch, Yaw order
/// (so no axis twice), and an axis kept exactly when the input has it.
pub open spec fn one_per_axis(keys: Seq<RecKey>, out: Seq<usize>) -> bool {
    &&& out.len() <= 3
    &&& keys.len() == 0 ==> out.len() == 0
    &&& forall|k: int| 0 <= k < out.len() ==> #[trigger] out[k] < keys.len()
    &&& forall|k: int, l: int|
        0 <= k < l < out.len() ==> axis_rank(keys[#[trigger] out[k] as int].axis) < axis_rank(
            keys[#[trigger] out[l] as int].axis,
        )
    &&& forall|a: Axis| #[trigger] axis_present(keys, a) <==> axis_kept(keys, out, a)
}

/// What the collapse picks for one axis: at most one index, naming a
/// recommendation of that axis, and one whenever the axis has any.
proof fn lemma_pick_for_axis(keys: Seq<RecKey>, axis: Axis)
    requires
        keys.len() <= usize::MAX,
    ensures
        opt_seq(kept_for_axis(keys, axis)).len() <= 1,
        forall|k: int|
            0 <= k < opt_seq(kept_for_axis(keys, axis)).len() ==> #[trigger] opt_seq(
                kept_for_axis(keys, axis),
            )[k] < keys.len() && keys[opt_seq(kept_for_axis(keys, axis))[k] as int].axis == axis,
        forall|i: int|
            0 <= i < keys.len() && (#[trigger] keys[i]).axis == axis ==> opt_seq(
                kept_for_axis(keys, axis),
            ).len() == 1,
{
    lemma_collapse_keeps_first_best(keys, axis);
    match kept_for_axis(keys, axis) {
        Some(j) => {
            assert(opt_seq(kept_for_axis(keys, axis))[0] == j as usize);
        },
        None => {},
    }
}

/// The collapse keeps one recommendation for each axis that has any and
/// none for the others, each kept index names a recommendation of the
/// input, and the kept ones come in Roll, Pitch, Yaw order; an empty list
/// collapses to nothing.
pub proof fn lemma_collapse_one_per_axis(keys: Seq<RecKey>, out: Seq<usize>)
    requires
        keys.len() <= usize::MAX,
        out == collapse_spec(keys),
    ensures
        one_per_axis(keys, out),
{
    reveal(collapse_spec);
    lemma_pick_for_axis(keys, Axis::Roll);
    lemma_pick_for_axis(keys, Axis::Pitch);
    lemma_pick_for_axis(keys, Axis::Yaw);
    let r = opt_seq(kept_for_axis(keys, Axis::Roll));
    let p = opt_seq(kept_for_axis(keys, Axis::Pitch));
    let y = opt_seq(kept_for_axis(keys, Axis::Yaw));
    assert(out =~= r + p + y);
    assert forall|k: int| 0 <= k < out.len() implies {
        &&& out[k] < keys.len()
        &&& axis_rank(keys[out[k] as int].axis) == if k < r.len() {
            0
        } else if k < r.len() + p.len() {
            1
        } else {
            2int
        }
    } by {
        if k < r.len() {
            assert(out[k] == r[k]);
        } else if k < r.len() + p.len() {
            assert(out[k] == p[k - r.len()]);
        } else {
            assert(out[k] == y[k - r.len() - p.len()]);
        }
    }
    assert forall|a: Axis| #[trigger] axis_present(keys, a) <==> axis_kept(keys, out, a) by {
        if axis_present(keys, a) {
            let i = choose|i: int| 0 <= i < keys.len() && #[trigger] keys[i].axis == a;
            match a {
                Axis::Roll => {
                    assert(keys[out[0] as int].axis == a);
                },
                Axis::Pitch => {
                    assert(keys[out[r.len() as int] as int].axis == a);
                },
                Axis::Yaw => {
                    assert(keys[out[(r.len() + p.len()) as int] as int].axis == a);
                },
            }
        }
        if axis_kept(keys, out, a) {
            let k = choose|k: int| 0 <= k < out.len() && #[trigger] keys[out[k] as int].axis == a;
            assert(out[k] < keys.len());
            assert(keys[out[k] as int].axis == a);
        }
    }
}

} // verus!
