use drone_tuner_core::analysis::advanced::{AdvancedAnalyzer, AdvancedInputs, AxisD, NoiseTrend};
use drone_tuner_core::analysis::convergence::{
    apply_convergence_suppression, build_advisory, Direction, PidChangeRecord, RecDirection,
    DEFAULT_MIN_REPEATED,
};
use drone_tuner_core::analysis::ranking::{
    collapse_recs_per_axis, priority_rank, rec_outranks, term_rank, RecKey, D_BUMP_FACTOR,
    D_CUT_FACTOR, D_STEP_PCT, I_BUMP_PCT, I_TERM_BUMP, MAX_P_CUT_PCT, P_BUMP_FACTOR, P_BUMP_PCT,
    P_CUT_MAX_FACTOR,
};
use drone_tuner_core::domain::{
    AdvancedParameter, AdvancedRecommendation, AdvancedTuningConfig, Axis, FeedforwardConfig,
    FeedforwardParam, PerAxisU8, PidTerm, Priority, SimplifiedTuning, TpaAdvancedConfig,
};

// ---------------------------------------------------------------------------
// Step sizes
// ---------------------------------------------------------------------------

fn frac(pct: u32) -> f32 {
    pct as f32 / 100.0
}

#[test]
fn step_size_constants_are_conservative() {
    assert!(
        frac(MAX_P_CUT_PCT) <= 0.15,
        "MAX_P_CUT_PCT must stay ≤15% — looser caps are what drove pitch P 51→29 in MEDIUM FUCKER"
    );
    assert!(
        frac(D_STEP_PCT) <= 0.10,
        "D_STEP_PCT must stay ≤10% — the pre-Item-2 30% bump was the runaway arithmetic"
    );
    assert!((frac(P_BUMP_PCT) - 0.08).abs() < 1e-6, "P_BUMP_PCT == 8%");
    assert!((frac(I_BUMP_PCT) - 0.08).abs() < 1e-6, "I_BUMP_PCT == 8%");
    assert!((frac(P_CUT_MAX_FACTOR) - (1.0 - frac(MAX_P_CUT_PCT))).abs() < 1e-6);
    assert!((frac(P_BUMP_FACTOR) - (1.0 + frac(P_BUMP_PCT))).abs() < 1e-6);
    assert!((frac(D_BUMP_FACTOR) - (1.0 + frac(D_STEP_PCT))).abs() < 1e-6);
    assert!((frac(D_CUT_FACTOR) - (1.0 - frac(D_STEP_PCT))).abs() < 1e-6);
    assert!((frac(I_TERM_BUMP) - (1.0 + frac(I_BUMP_PCT))).abs() < 1e-6);
}

// ---------------------------------------------------------------------------
// Ranking and collapse
// ---------------------------------------------------------------------------

#[derive(Debug, Clone)]
struct Rec {
    axis: Axis,
    term: PidTerm,
    current_value: f32,
    recommended_value: f32,
    priority: Priority,
}

fn make_rec(axis: Axis, term: PidTerm, current: f32, recommended: f32, priority: Priority) -> Rec {
    Rec { axis, term, current_value: current, recommended_value: recommended, priority }
}

fn collapse(recs: Vec<Rec>) -> Vec<Rec> {
    let keys: Vec<RecKey> = recs
        .iter()
        .map(|r| RecKey {
            axis: r.axis,
            term: r.term,
            priority: r.priority,
            is_cut: r.recommended_value < r.current_value,
        })
        .collect();
    collapse_recs_per_axis(&keys).into_iter().map(|i| recs[i].clone()).collect()
}

#[test]
fn ranks_follow_the_documented_order() {
    assert_eq!(priority_rank(&Priority::Critical), 4);
    assert_eq!(priority_rank(&Priority::High), 3);
    assert_eq!(priority_rank(&Priority::Medium), 2);
    assert_eq!(priority_rank(&Priority::Low), 1);
    assert_eq!(term_rank(&PidTerm::F), 4);
    assert_eq!(term_rank(&PidTerm::P), 3);
    assert_eq!(term_rank(&PidTerm::D), 2);
    assert_eq!(term_rank(&PidTerm::I), 1);
    let a = RecKey { axis: Axis::Roll, term: PidTerm::I, priority: Priority::Medium, is_cut: true };
    let b = RecKey { axis: Axis::Roll, term: PidTerm::P, priority: Priority::Medium, is_cut: false };
    assert!(rec_outranks(&a, &b));
    assert!(!rec_outranks(&b, &a));
    assert!(!rec_outranks(&a, &a));
}

#[test]
fn collapse_keeps_at_most_one_rec_per_axis() {
    let recs = vec![
        make_rec(Axis::Roll, PidTerm::P, 50.0, 45.0, Priority::Medium),
        make_rec(Axis::Roll, PidTerm::I, 80.0, 86.0, Priority::Medium),
        make_rec(Axis::Roll, PidTerm::D, 30.0, 33.0, Priority::Medium),
    ];
    let out = collapse(recs);
    assert_eq!(out.len(), 1, "Three same-axis recs must collapse to one");
    assert_eq!(out[0].axis, Axis::Roll);
}

#[test]
fn collapse_per_axis_independent() {
    let recs = vec![
        make_rec(Axis::Roll, PidTerm::P, 50.0, 45.0, Priority::Medium),
        make_rec(Axis::Roll, PidTerm::I, 80.0, 86.0, Priority::Medium),
        make_rec(Axis::Pitch, PidTerm::D, 30.0, 33.0, Priority::Medium),
        make_rec(Axis::Yaw, PidTerm::P, 40.0, 38.0, Priority::Medium),
    ];
    let out = collapse(recs);
    assert_eq!(out.len(), 3, "Each axis collapses independently");
    let axes: Vec<_> = out.iter().map(|r| r.axis).collect();
    assert_eq!(axes, vec![Axis::Roll, Axis::Pitch, Axis::Yaw], "Output stably ordered Roll → Pitch → Yaw");
}

#[test]
fn collapse_higher_priority_wins() {
    let recs = vec![
        make_rec(Axis::Roll, PidTerm::P, 50.0, 45.0, Priority::Medium),
        make_rec(Axis::Roll, PidTerm::I, 80.0, 88.0, Priority::High),
    ];
    let out = collapse(recs);
    assert_eq!(out.len(), 1);
    assert!(matches!(out[0].term, PidTerm::I), "High-priority I-bump must win, got {:?}", out[0]);
}

#[test]
fn collapse_cut_beats_bump_on_same_priority() {
    let recs = vec![
        make_rec(Axis::Pitch, PidTerm::D, 30.0, 33.0, Priority::Medium),
        make_rec(Axis::Pitch, PidTerm::I, 80.0, 73.6, Priority::Medium),
    ];
    let out = collapse(recs);
    assert_eq!(out.len(), 1);
    assert!(out[0].recommended_value < out[0].current_value, "Cut must beat bump at same priority");
}

#[test]
fn collapse_p_beats_d_beats_i_on_full_tie() {
    let recs = vec![
        make_rec(Axis::Roll, PidTerm::I, 80.0, 73.0, Priority::Medium),
        make_rec(Axis::Roll, PidTerm::D, 30.0, 27.0, Priority::Medium),
        make_rec(Axis::Roll, PidTerm::P, 50.0, 45.0, Priority::Medium),
    ];
    let out = collapse(recs);
    assert_eq!(out.len(), 1);
    assert!(matches!(out[0].term, PidTerm::P), "P must beat D and I on full tie, got {:?}", out[0]);

    let recs = vec![
        make_rec(Axis::Roll, PidTerm::I, 80.0, 73.0, Priority::Medium),
        make_rec(Axis::Roll, PidTerm::D, 30.0, 27.0, Priority::Medium),
    ];
    let out = collapse(recs);
    assert!(matches!(out[0].term, PidTerm::D), "D must beat I on tie, got {:?}", out[0]);
}

#[test]
fn collapse_preserves_critical_over_high() {
    let recs = vec![
        make_rec(Axis::Yaw, PidTerm::P, 40.0, 36.0, Priority::High),
        make_rec(Axis::Yaw, PidTerm::D, 20.0, 18.0, Priority::Critical),
    ];
    let out = collapse(recs);
    assert_eq!(out.len(), 1);
    assert!(matches!(out[0].priority, Priority::Critical), "Critical must beat High");
}

#[test]
fn collapse_empty_input_is_empty() {
    let out = collapse(Vec::new());
    assert!(out.is_empty());
}

#[test]
fn collapse_drops_i_bump_when_p_cut_also_present() {
    let recs = vec![
        make_rec(Axis::Roll, PidTerm::P, 50.0, 42.5, Priority::Medium),
        make_rec(Axis::Roll, PidTerm::I, 80.0, 86.4, Priority::Medium),
    ];
    let out = collapse(recs);
    assert_eq!(out.len(), 1);
    assert!(matches!(out[0].term, PidTerm::P), "P-cut should win over I-bump at same priority (cut > bump)");
}

#[test]
fn collapse_keeps_first_of_equal_recs() {
    let keys = vec![
        RecKey { axis: Axis::Pitch, term: PidTerm::D, priority: Priority::Low, is_cut: false },
        RecKey { axis: Axis::Pitch, term: PidTerm::D, priority: Priority::Low, is_cut: false },
    ];
    assert_eq!(collapse_recs_per_axis(&keys), vec![0]);
}

// ---------------------------------------------------------------------------
// Convergence
// ---------------------------------------------------------------------------

struct Outcome {
    kept: Vec<Rec>,
    suppressed: Vec<(Rec, usize, String)>,
}

fn rec(axis: Axis, term: PidTerm, current: f32, recommended: f32) -> Rec {
    make_rec(axis, term, current, recommended, Priority::Medium)
}

fn change(axis: Axis, term: PidTerm, delta: i32) -> PidChangeRecord {
    PidChangeRecord { axis, term, delta }
}

fn suppress(recs: Vec<Rec>, history: &[PidChangeRecord], min_repeated: usize) -> Outcome {
    let dirs: Vec<RecDirection> = recs
        .iter()
        .map(|r| {
            let d = r.recommended_value - r.current_value;
            let direction = if d > 0.5 {
                Direction::Up
            } else if d < -0.5 {
                Direction::Down
            } else {
                Direction::Flat
            };
            RecDirection { axis: r.axis, term: r.term, direction }
        })
        .collect();
    let decision = apply_convergence_suppression(&dirs, &history.to_vec(), min_repeated);
    Outcome {
        kept: decision.kept.iter().map(|&i| recs[i].clone()).collect(),
        suppressed: decision
            .suppressed
            .iter()
            .map(|n| (recs[n.index].clone(), n.iterations_in_direction, n.advisory.clone()))
            .collect(),
    }
}

#[test]
fn empty_history_is_no_op() {
    let recs = vec![rec(Axis::Roll, PidTerm::D, 30.0, 33.0)];
    let out = suppress(recs, &[], DEFAULT_MIN_REPEATED);
    assert_eq!(out.kept.len(), 1);
    assert!(out.suppressed.is_empty());
}

#[test]
fn min_repeated_zero_is_no_op() {
    let recs = vec![rec(Axis::Roll, PidTerm::D, 30.0, 33.0)];
    let history = vec![change(Axis::Roll, PidTerm::D, 3), change(Axis::Roll, PidTerm::D, 4)];
    let out = suppress(recs, &history, 0);
    assert_eq!(out.kept.len(), 1);
    assert!(out.suppressed.is_empty());
}

#[test]
fn single_prior_change_does_not_trigger() {
    let recs = vec![rec(Axis::Roll, PidTerm::D, 30.0, 33.0)];
    let history = vec![change(Axis::Roll, PidTerm::D, 3)];
    let out = suppress(recs, &history, DEFAULT_MIN_REPEATED);
    assert_eq!(out.kept.len(), 1);
    assert!(out.suppressed.is_empty());
}

#[test]
fn three_consecutive_same_direction_pushes_get_suppressed() {
    let recs = vec![rec(Axis::Roll, PidTerm::D, 34.0, 37.0)];
    let history = vec![change(Axis::Roll, PidTerm::D, 3), change(Axis::Roll, PidTerm::D, 3)];
    let out = suppress(recs, &history, DEFAULT_MIN_REPEATED);
    assert!(out.kept.is_empty(), "rec must be suppressed");
    assert_eq!(out.suppressed.len(), 1);
    let (_, iterations, advisory) = &out.suppressed[0];
    assert_eq!(*iterations, 3);
    assert!(
        advisory.contains("filter") || advisory.contains("mechanical"),
        "advisory must redirect to filter/mechanical follow-up: {}",
        advisory
    );
    assert!(advisory.contains("Roll") && advisory.contains("D"), "advisory must name the gain: {}", advisory);
}

#[test]
fn opposite_direction_after_runaway_is_kept() {
    let recs = vec![rec(Axis::Roll, PidTerm::D, 34.0, 31.0)];
    let history = vec![change(Axis::Roll, PidTerm::D, 3), change(Axis::Roll, PidTerm::D, 3)];
    let out = suppress(recs, &history, DEFAULT_MIN_REPEATED);
    assert_eq!(out.kept.len(), 1, "opposite-direction recovery rec must survive");
    assert!(out.suppressed.is_empty());
}

#[test]
fn mixed_history_does_not_trigger() {
    let recs = vec![rec(Axis::Roll, PidTerm::D, 32.0, 35.0)];
    let history = vec![change(Axis::Roll, PidTerm::D, 3), change(Axis::Roll, PidTerm::D, -2)];
    let out = suppress(recs, &history, DEFAULT_MIN_REPEATED);
    assert_eq!(out.kept.len(), 1);
    assert!(out.suppressed.is_empty());
}

#[test]
fn other_axis_history_is_ignored() {
    let recs = vec![rec(Axis::Pitch, PidTerm::D, 30.0, 33.0)];
    let history = vec![change(Axis::Roll, PidTerm::D, 3), change(Axis::Roll, PidTerm::D, 3)];
    let out = suppress(recs, &history, DEFAULT_MIN_REPEATED);
    assert_eq!(out.kept.len(), 1);
    assert!(out.suppressed.is_empty());
}

#[test]
fn other_term_history_is_ignored() {
    let recs = vec![rec(Axis::Roll, PidTerm::D, 30.0, 33.0)];
    let history = vec![change(Axis::Roll, PidTerm::P, -3), change(Axis::Roll, PidTerm::P, -2)];
    let out = suppress(recs, &history, DEFAULT_MIN_REPEATED);
    assert_eq!(out.kept.len(), 1);
    assert!(out.suppressed.is_empty());
}

#[test]
fn zero_delta_history_entries_are_skipped() {
    let recs = vec![rec(Axis::Roll, PidTerm::D, 34.0, 37.0)];
    let history = vec![
        change(Axis::Roll, PidTerm::D, 3),
        change(Axis::Roll, PidTerm::D, 0),
        change(Axis::Roll, PidTerm::D, 0),
        change(Axis::Roll, PidTerm::D, 3),
    ];
    let out = suppress(recs, &history, DEFAULT_MIN_REPEATED);
    assert!(out.kept.is_empty(), "zero deltas must not break the detector");
    assert_eq!(out.suppressed.len(), 1);
}

#[test]
fn no_op_rec_passes_through() {
    let recs = vec![rec(Axis::Roll, PidTerm::D, 30.0, 30.2)];
    let history = vec![change(Axis::Roll, PidTerm::D, 3), change(Axis::Roll, PidTerm::D, 3)];
    let out = suppress(recs, &history, DEFAULT_MIN_REPEATED);
    assert_eq!(out.kept.len(), 1, "round-to-zero recs aren't convergence concerns");
    assert!(out.suppressed.is_empty());
}

#[test]
fn each_axis_term_evaluated_independently() {
    let recs = vec![rec(Axis::Roll, PidTerm::D, 34.0, 37.0), rec(Axis::Pitch, PidTerm::I, 80.0, 86.0)];
    let history = vec![
        change(Axis::Roll, PidTerm::D, 3),
        change(Axis::Roll, PidTerm::D, 3),
        change(Axis::Pitch, PidTerm::I, 4),
    ];
    let out = suppress(recs, &history, DEFAULT_MIN_REPEATED);
    assert_eq!(out.kept.len(), 1);
    assert!(matches!(out.kept[0].term, PidTerm::I));
    assert_eq!(out.suppressed.len(), 1);
    assert!(matches!(out.suppressed[0].0.term, PidTerm::D));
}

#[test]
fn advisory_for_d_bump_mentions_filter() {
    let recs = vec![rec(Axis::Roll, PidTerm::D, 34.0, 37.0)];
    let history = vec![change(Axis::Roll, PidTerm::D, 3), change(Axis::Roll, PidTerm::D, 3)];
    let out = suppress(recs, &history, DEFAULT_MIN_REPEATED);
    let advisory = &out.suppressed[0].2;
    assert!(
        advisory.to_lowercase().contains("lpf") || advisory.to_lowercase().contains("filter"),
        "D-bump advisory must point at LPF / filter chain: {}",
        advisory
    );
}

#[test]
fn advisory_for_p_cut_mentions_gyro_lpf() {
    let recs = vec![rec(Axis::Roll, PidTerm::P, 40.0, 36.0)];
    let history = vec![change(Axis::Roll, PidTerm::P, -3), change(Axis::Roll, PidTerm::P, -3)];
    let out = suppress(recs, &history, DEFAULT_MIN_REPEATED);
    let advisory = &out.suppressed[0].2;
    assert!(
        advisory.to_lowercase().contains("gyro lpf") || advisory.to_lowercase().contains("hunting"),
        "P-cut advisory must point at gyro LPF / hunting frequency: {}",
        advisory
    );
}

#[test]
fn advisory_text_is_exact() {
    let a = build_advisory(Axis::Pitch, PidTerm::I, Direction::Up, 3);
    assert_eq!(
        a,
        "Pitch I has been pushed up for 3 iterations without resolving — this is likely a filter / mechanical issue, not a PID problem. Repeated I-bumps suggest persistent error the PID can't track — often rate config, RC link delay, or motor desync. Investigate: rcCommand filtering, rates curve, motor protocol/timing."
    );
    let b = build_advisory(Axis::Yaw, PidTerm::P, Direction::Up, 12);
    assert!(b.starts_with("Yaw P has been pushed up for 12 iterations"));
    assert!(b.ends_with("before further PID adjustments."));
}

// ---------------------------------------------------------------------------
// Advanced parameters
// ---------------------------------------------------------------------------

/// What the analyzer reads of a test scenario: the roll and pitch D of the
/// PID table, the throttle-band noise (low/mid level, high level, samples
/// per band) and the PID recommendations (term, current, recommended).
fn inputs(roll_d: f32, pitch_d: f32, noise: Option<(f32, f32, usize)>, pid_recs: &[(PidTerm, f32, f32)]) -> AdvancedInputs {
    let axis = |d: f32| AxisD { d_max: d as u8, recommended_d_min: (d * 0.65).round() as u8 };
    let max_d = roll_d.max(pitch_d);
    let (trend, ratio) = match noise {
        Some((low, high, samples)) if samples >= 500 => {
            let low_rms = ((2.0 * (low as f64) * (low as f64)) as f64).sqrt();
            let high_rms = ((2.0 * (high as f64) * (high as f64)) as f64).sqrt();
            if low_rms < f64::EPSILON {
                (NoiseTrend::Unknown, 0.0)
            } else {
                let ratio = high_rms / low_rms;
                if ratio > 1.5 {
                    (NoiseTrend::Rising, ratio)
                } else if ratio < 1.1 {
                    (NoiseTrend::Flat, ratio)
                } else {
                    (NoiseTrend::Moderate, ratio)
                }
            }
        }
        _ => (NoiseTrend::Unknown, 0.0),
    };
    AdvancedInputs {
        roll_d: axis(roll_d),
        pitch_d: axis(pitch_d),
        d_gains_high: max_d > 25.0,
        max_d_label: format!("{:.0}", max_d),
        noise_trend: trend,
        ratio_label_1: format!("{:.1}", ratio),
        ratio_label_2: format!("{:.2}", ratio),
        has_p_increase: pid_recs.iter().any(|(t, c, r)| *t == PidTerm::P && r > c),
        has_d_increase: pid_recs.iter().any(|(t, c, r)| *t == PidTerm::D && r > c),
    }
}

/// The default test hardware has roll D 38 and pitch D 42.
fn analyze(adv: AdvancedTuningConfig) -> Vec<AdvancedRecommendation> {
    AdvancedAnalyzer::new().analyze(Some(&adv), &inputs(38.0, 42.0, None, &[]))
}

fn default_adv() -> AdvancedTuningConfig {
    AdvancedTuningConfig::default()
}

#[test]
fn vbat_sag_recommended_when_bidir_active_and_comp_zero() {
    let mut adv = default_adv();
    adv.dshot_bidir = Some(true);
    adv.vbat_sag_compensation = Some(0);
    let recs = analyze(adv);
    let vbat = recs.iter().find(|r| matches!(r.parameter, AdvancedParameter::VbatSagCompensation { .. }));
    assert!(vbat.is_some(), "should recommend vbat sag comp");
    if let AdvancedParameter::VbatSagCompensation { recommended, .. } = vbat.unwrap().parameter {
        assert_eq!(recommended, 100);
    }
}

#[test]
fn vbat_sag_recommended_when_bidir_active_and_comp_none() {
    let mut adv = default_adv();
    adv.dshot_bidir = Some(true);
    adv.vbat_sag_compensation = None;
    let recs = analyze(adv);
    assert!(
        recs.iter().any(|r| matches!(r.parameter, AdvancedParameter::VbatSagCompensation { .. })),
        "should recommend vbat sag comp when field is None"
    );
}

#[test]
fn vbat_sag_not_recommended_when_already_set() {
    let mut adv = default_adv();
    adv.dshot_bidir = Some(true);
    adv.vbat_sag_compensation = Some(80);
    let recs = analyze(adv);
    assert!(
        !recs.iter().any(|r| matches!(r.parameter, AdvancedParameter::VbatSagCompensation { .. })),
        "should not recommend when already non-zero"
    );
}

#[test]
fn vbat_sag_not_recommended_without_bidir() {
    let mut adv = default_adv();
    adv.dshot_bidir = Some(false);
    adv.vbat_sag_compensation = Some(0);
    let recs = analyze(adv);
    assert!(
        !recs.iter().any(|r| matches!(r.parameter, AdvancedParameter::VbatSagCompensation { .. })),
        "bidir off => no vbat sag rec"
    );
}

#[test]
fn dynamic_idle_recommended_when_dshot_and_zero() {
    let mut adv = default_adv();
    adv.motor_protocol = Some(6);
    adv.dynamic_idle_min_rpm = Some(0);
    let recs = analyze(adv);
    let idle = recs.iter().find(|r| matches!(r.parameter, AdvancedParameter::DynamicIdle { .. }));
    assert!(idle.is_some(), "should recommend dynamic idle");
    if let AdvancedParameter::DynamicIdle { recommended_rpm, .. } = idle.unwrap().parameter {
        assert_eq!(recommended_rpm, 30);
    }
}

#[test]
fn dynamic_idle_skipped_when_none() {
    let mut adv = default_adv();
    adv.motor_protocol = Some(6);
    adv.dynamic_idle_min_rpm = None;
    let recs = analyze(adv);
    assert!(
        !recs.iter().any(|r| matches!(r.parameter, AdvancedParameter::DynamicIdle { .. })),
        "should skip when current state is unknown"
    );
}

#[test]
fn dynamic_idle_skipped_when_not_dshot() {
    let mut adv = default_adv();
    adv.motor_protocol = Some(2);
    adv.dynamic_idle_min_rpm = Some(0);
    let recs = analyze(adv);
    assert!(
        !recs.iter().any(|r| matches!(r.parameter, AdvancedParameter::DynamicIdle { .. })),
        "non-DShot => no dynamic idle rec"
    );
}

#[test]
fn thrust_lin_recommended_when_dshot_and_zero() {
    let mut adv = default_adv();
    adv.motor_protocol = Some(7);
    adv.thrust_linearization = Some(0);
    let recs = analyze(adv);
    let tl = recs.iter().find(|r| matches!(r.parameter, AdvancedParameter::ThrustLinearization { .. }));
    assert!(tl.is_some(), "should recommend thrust linearization");
    if let AdvancedParameter::ThrustLinearization { recommended, .. } = tl.unwrap().parameter {
        assert_eq!(recommended, 25);
    }
}

#[test]
fn thrust_lin_skipped_when_already_set() {
    let mut adv = default_adv();
    adv.motor_protocol = Some(6);
    adv.thrust_linearization = Some(20);
    let recs = analyze(adv);
    assert!(
        !recs.iter().any(|r| matches!(r.parameter, AdvancedParameter::ThrustLinearization { .. })),
        "already set => no rec"
    );
}

#[test]
fn d_max_recommended_when_d_min_equals_d() {
    let mut adv = default_adv();
    adv.d_min = Some(PerAxisU8 { roll: 38, pitch: 42, yaw: 0 });
    let recs = AdvancedAnalyzer::new().analyze(Some(&adv), &inputs(38.0, 42.0, None, &[]));
    let d_max_recs: Vec<_> = recs.iter().filter(|r| matches!(r.parameter, AdvancedParameter::DMax { .. })).collect();
    assert_eq!(d_max_recs.len(), 2, "should recommend for both roll and pitch");
    for rec in &d_max_recs {
        if let AdvancedParameter::DMax { current_d_min, current_d_max, recommended_d_min, .. } = rec.parameter {
            assert_eq!(current_d_min, current_d_max);
            let expected = (current_d_max as f32 * 0.65).round() as u8;
            assert_eq!(recommended_d_min, expected);
        }
    }
}

#[test]
fn d_max_not_recommended_when_range_exists() {
    let mut adv = default_adv();
    adv.d_min = Some(PerAxisU8 { roll: 25, pitch: 28, yaw: 0 });
    let recs = AdvancedAnalyzer::new().analyze(Some(&adv), &inputs(38.0, 42.0, None, &[]));
    assert!(!recs.iter().any(|r| matches!(r.parameter, AdvancedParameter::DMax { .. })), "d_min < D => no rec");
}

#[test]
fn d_max_gain_zero_recommends_restore() {
    let mut adv = default_adv();
    adv.d_max_gain = Some(0);
    let recs = analyze(adv);
    assert!(recs.iter().any(|r| r.reason.contains("D Max gain is 0")), "should recommend restoring d_max_gain");
}

#[test]
fn d_min_reason_names_both_values() {
    let mut adv = default_adv();
    adv.d_min = Some(PerAxisU8 { roll: 38, pitch: 0, yaw: 0 });
    let recs = AdvancedAnalyzer::new().analyze(Some(&adv), &inputs(38.0, 42.0, None, &[]));
    assert_eq!(recs.len(), 1);
    assert_eq!(
        recs[0].reason,
        "D Min equals D Max (38) — the D Max dynamic range is effectively disabled. Lower D Min to 25 to allow the flight controller to reduce D during calm flight"
    );
}

#[test]
fn tpa_recommended_when_rate_zero_and_d_high() {
    let mut adv = default_adv();
    adv.tpa = Some(TpaAdvancedConfig { mode: None, rate: 0, breakpoint: 1250 });
    let recs = AdvancedAnalyzer::new().analyze(Some(&adv), &inputs(38.0, 42.0, None, &[]));
    let tpa = recs.iter().find(|r| matches!(r.parameter, AdvancedParameter::Tpa { .. }));
    assert!(tpa.is_some(), "should recommend TPA");
    if let AdvancedParameter::Tpa { recommended_rate, recommended_breakpoint, .. } = tpa.unwrap().parameter {
        assert_eq!(recommended_rate, 65);
        assert_eq!(recommended_breakpoint, 1350);
    }
    assert_eq!(
        tpa.unwrap().reason,
        "TPA is disabled but D gains are 42 — enable TPA to attenuate D at high throttle and prevent hot-motor oscillations"
    );
}

#[test]
fn tpa_not_recommended_when_d_low() {
    let mut adv = default_adv();
    adv.tpa = Some(TpaAdvancedConfig { mode: None, rate: 0, breakpoint: 1250 });
    let recs = AdvancedAnalyzer::new().analyze(Some(&adv), &inputs(20.0, 22.0, None, &[]));
    assert!(!recs.iter().any(|r| matches!(r.parameter, AdvancedParameter::Tpa { .. })), "low D => no TPA rec");
}

#[test]
fn tpa_not_recommended_when_rate_nonzero() {
    let mut adv = default_adv();
    adv.tpa = Some(TpaAdvancedConfig { mode: None, rate: 65, breakpoint: 1350 });
    let recs = AdvancedAnalyzer::new().analyze(Some(&adv), &inputs(38.0, 42.0, None, &[]));
    assert!(!recs.iter().any(|r| matches!(r.parameter, AdvancedParameter::Tpa { .. })), "TPA already configured => no rec");
}

fn tpa_after(rate: u8, breakpoint: u16, low: f32, high: f32, samples: usize) -> Vec<AdvancedRecommendation> {
    let mut adv = default_adv();
    adv.tpa = Some(TpaAdvancedConfig { mode: None, rate, breakpoint });
    AdvancedAnalyzer::new().analyze(Some(&adv), &inputs(38.0, 42.0, Some((low, high, samples)), &[]))
}

#[test]
fn tpa_telemetry_increase_rate_when_high_throttle_noisy() {
    let recs = tpa_after(30, 1350, 10.0, 20.0, 600);
    let tpa = recs.iter().find(|r| matches!(r.parameter, AdvancedParameter::Tpa { .. }));
    assert!(tpa.is_some(), "should recommend TPA rate increase");
    if let AdvancedParameter::Tpa { recommended_rate, recommended_breakpoint, .. } = tpa.unwrap().parameter {
        assert_eq!(recommended_rate, 65);
        assert_eq!(recommended_breakpoint, 1350, "breakpoint <= 1400 stays");
    }
    assert!(matches!(tpa.unwrap().priority, Priority::Low), "TPA telemetry recs should be Low priority");
    assert_eq!(
        tpa.unwrap().reason,
        "Gyro noise at high throttle is 2.0x higher than at low/mid throttle — increase TPA rate from 30 to 65 to reduce D-term oscillations at high throttle"
    );
}

#[test]
fn tpa_telemetry_lower_breakpoint_when_high_throttle_noisy_and_rate_ok() {
    let recs = tpa_after(60, 1500, 10.0, 20.0, 600);
    let tpa = recs.iter().find(|r| matches!(r.parameter, AdvancedParameter::Tpa { .. }));
    assert!(tpa.is_some(), "should recommend breakpoint reduction");
    if let AdvancedParameter::Tpa { recommended_rate, recommended_breakpoint, .. } = tpa.unwrap().parameter {
        assert_eq!(recommended_rate, 60, "rate stays at current value");
        assert_eq!(recommended_breakpoint, 1250);
    }
}

#[test]
fn tpa_telemetry_reduce_excessive_rate_when_noise_flat() {
    let recs = tpa_after(90, 1350, 15.0, 15.0, 600);
    let tpa = recs.iter().find(|r| matches!(r.parameter, AdvancedParameter::Tpa { .. }));
    assert!(tpa.is_some(), "should recommend TPA rate reduction");
    if let AdvancedParameter::Tpa { recommended_rate, recommended_breakpoint, .. } = tpa.unwrap().parameter {
        assert_eq!(recommended_rate, 65);
        assert_eq!(recommended_breakpoint, 1350, "breakpoint unchanged");
    }
    assert_eq!(
        tpa.unwrap().reason,
        "Gyro noise is similar across throttle range (ratio 1.00x) — reduce TPA rate from 90 to 65 to recover high-throttle authority"
    );
}

#[test]
fn tpa_telemetry_no_rec_when_noise_moderate() {
    let recs = tpa_after(65, 1350, 10.0, 13.0, 600);
    assert!(!recs.iter().any(|r| matches!(r.parameter, AdvancedParameter::Tpa { .. })), "moderate noise ratio => no TPA rec");
}

#[test]
fn tpa_telemetry_no_rec_when_insufficient_samples() {
    let recs = tpa_after(30, 1350, 10.0, 20.0, 100);
    assert!(!recs.iter().any(|r| matches!(r.parameter, AdvancedParameter::Tpa { .. })), "insufficient samples => no TPA rec");
}

#[test]
fn tpa_telemetry_skipped_when_rate_zero() {
    let recs = tpa_after(0, 1350, 10.0, 20.0, 600);
    let tpa_recs: Vec<_> = recs.iter().filter(|r| matches!(r.parameter, AdvancedParameter::Tpa { .. })).collect();
    assert_eq!(tpa_recs.len(), 1, "only config-based TPA rec when rate is 0");
    assert!(tpa_recs[0].reason.contains("TPA is disabled"), "should be the config-based reason");
}

#[test]
fn tpa_telemetry_increase_rate_and_lower_breakpoint() {
    let recs = tpa_after(30, 1500, 10.0, 20.0, 600);
    let tpa = recs.iter().find(|r| matches!(r.parameter, AdvancedParameter::Tpa { .. }));
    assert!(tpa.is_some(), "should recommend TPA adjustment");
    if let AdvancedParameter::Tpa { recommended_rate, recommended_breakpoint, .. } = tpa.unwrap().parameter {
        assert_eq!(recommended_rate, 65);
        assert_eq!(recommended_breakpoint, 1250);
    }
}

#[test]
fn feedforward_jitter_recommended_when_zero() {
    let mut adv = default_adv();
    adv.feedforward = Some(FeedforwardConfig { jitter_factor: Some(0), ..FeedforwardConfig::default() });
    let recs = analyze(adv);
    let ff = recs.iter().find(|r| matches!(r.parameter, AdvancedParameter::Feedforward { param: FeedforwardParam::JitterFactor, .. }));
    assert!(ff.is_some(), "should recommend jitter factor");
    if let AdvancedParameter::Feedforward { recommended, .. } = ff.unwrap().parameter {
        assert_eq!(recommended, 7);
    }
}

#[test]
fn feedforward_jitter_not_recommended_when_nonzero() {
    let mut adv = default_adv();
    adv.feedforward = Some(FeedforwardConfig { jitter_factor: Some(7), ..FeedforwardConfig::default() });
    let recs = analyze(adv);
    assert!(
        !recs.iter().any(|r| matches!(r.parameter, AdvancedParameter::Feedforward { param: FeedforwardParam::JitterFactor, .. })),
        "jitter already set => no rec"
    );
}

#[test]
fn no_recs_when_advanced_tuning_is_none() {
    let recs = AdvancedAnalyzer::new().analyze(None, &inputs(38.0, 42.0, None, &[]));
    assert!(recs.is_empty(), "no advanced config => no recs");
}

#[test]
fn full_sweep_produces_expected_count() {
    let adv = AdvancedTuningConfig {
        d_min: Some(PerAxisU8 { roll: 38, pitch: 42, yaw: 0 }),
        d_max_gain: Some(0),
        d_max_advance: None,
        feedforward: Some(FeedforwardConfig { jitter_factor: Some(0), ..FeedforwardConfig::default() }),
        tpa: Some(TpaAdvancedConfig { mode: None, rate: 0, breakpoint: 1250 }),
        vbat_sag_compensation: Some(0),
        thrust_linearization: Some(0),
        dynamic_idle_min_rpm: Some(0),
        anti_gravity_gain: None,
        motor_protocol: Some(6),
        dshot_bidir: Some(true),
        motor_kv: None,
        motor_poles: None,
        simplified_tuning: None,
    };
    let recs = AdvancedAnalyzer::new().analyze(Some(&adv), &inputs(38.0, 42.0, None, &[]));
    assert_eq!(
        recs.len(),
        8,
        "full sweep should produce 8 recs, got {}: {:?}",
        recs.len(),
        recs.iter().map(|r| &r.reason).collect::<Vec<_>>()
    );
    for rec in &recs {
        assert!(matches!(rec.priority, Priority::Low), "all advanced recs should be Low priority");
    }
}

fn sliders(mode: u8, master: Option<u8>, d_gain: Option<u8>, pid_recs: &[(PidTerm, f32, f32)]) -> Vec<AdvancedRecommendation> {
    let mut adv = default_adv();
    adv.simplified_tuning = Some(SimplifiedTuning { mode, master_multiplier: master, d_gain, ..SimplifiedTuning::default() });
    AdvancedAnalyzer::new().analyze(Some(&adv), &inputs(38.0, 42.0, None, pid_recs))
}

fn slider_named<'a>(recs: &'a [AdvancedRecommendation], name: &str) -> Option<&'a AdvancedRecommendation> {
    recs.iter().find(|r| matches!(&r.parameter, AdvancedParameter::SliderHint { slider_name, .. } if slider_name == name))
}

#[test]
fn slider_master_hint_when_p_increase_recommended() {
    let recs = sliders(2, Some(100), Some(120), &[(PidTerm::P, 42.0, 48.0)]);
    let slider = slider_named(&recs, "Master Multiplier");
    assert!(slider.is_some(), "should hint Master Multiplier when P increase recommended");
    if let AdvancedParameter::SliderHint { current_value, suggested_value, .. } = &slider.unwrap().parameter {
        assert_eq!(*current_value, 100);
        assert_eq!(*suggested_value, 110);
    }
}

#[test]
fn slider_d_gain_hint_when_d_increase_recommended() {
    let recs = sliders(2, Some(120), Some(100), &[(PidTerm::D, 38.0, 44.0)]);
    let slider = slider_named(&recs, "D Gain");
    assert!(slider.is_some(), "should hint D Gain when D increase recommended");
    if let AdvancedParameter::SliderHint { current_value, suggested_value, .. } = &slider.unwrap().parameter {
        assert_eq!(*current_value, 100);
        assert_eq!(*suggested_value, 110);
    }
}

#[test]
fn slider_no_hint_when_mode_off() {
    let recs = sliders(0, Some(100), Some(100), &[(PidTerm::P, 42.0, 48.0), (PidTerm::D, 38.0, 44.0)]);
    assert!(!recs.iter().any(|r| matches!(r.parameter, AdvancedParameter::SliderHint { .. })), "mode 0 => no slider hints");
}

#[test]
fn slider_no_hint_when_no_pid_increase() {
    let recs = sliders(2, Some(100), Some(100), &[(PidTerm::P, 48.0, 42.0)]);
    assert!(slider_named(&recs, "Master Multiplier").is_none(), "no P increase => no Master Multiplier hint");
}

#[test]
fn slider_no_hint_when_sliders_already_bumped() {
    let recs = sliders(2, Some(120), Some(110), &[(PidTerm::P, 42.0, 48.0), (PidTerm::D, 38.0, 44.0)]);
    assert!(!recs.iter().any(|r| matches!(r.parameter, AdvancedParameter::SliderHint { .. })), "sliders already bumped => no hints");
}

#[test]
fn slider_no_hint_when_simplified_tuning_none() {
    let adv = default_adv();
    assert!(adv.simplified_tuning.is_none());
    let recs = AdvancedAnalyzer::new().analyze(Some(&adv), &inputs(38.0, 42.0, None, &[(PidTerm::P, 42.0, 48.0)]));
    assert!(!recs.iter().any(|r| matches!(r.parameter, AdvancedParameter::SliderHint { .. })), "no simplified_tuning => no slider hints");
}

#[test]
fn slider_both_hints_fire_together() {
    let recs = sliders(2, Some(100), Some(100), &[(PidTerm::P, 42.0, 48.0), (PidTerm::D, 38.0, 44.0)]);
    let slider_count = recs.iter().filter(|r| matches!(r.parameter, AdvancedParameter::SliderHint { .. })).count();
    assert_eq!(slider_count, 2, "both Master Multiplier and D Gain hints should fire");
}

#[test]
fn largest_repeat_count_without_history_keeps_everything() {
    let dirs = vec![
        RecDirection { axis: Axis::Roll, term: PidTerm::D, direction: Direction::Up },
        RecDirection { axis: Axis::Yaw, term: PidTerm::P, direction: Direction::Down },
    ];
    let decision = apply_convergence_suppression(&dirs, &Vec::new(), usize::MAX);
    assert_eq!(decision.kept, vec![0, 1]);
    assert!(decision.suppressed.is_empty());
}
