//! Heuristics for advanced tuning parameters: vbat sag compensation,
//! dynamic idle, thrust linearization, D Max, TPA, feedforward and the
//! simplified-tuning sliders.
//!
//! The checks read the advanced configuration from the log headers. What
//! they need of the PID table, of the flight telemetry and of the PID
//! recommendations arrives already reduced to integers, flags and labels
//! ([`AdvancedInputs`]).

use crate::domain::{
    AdvancedParameter, AdvancedRecommendation, AdvancedTuningConfig, Axis, FeedforwardParam,
    Priority, TpaAdvancedConfig,
};
use crate::text::{chars_of, concat, decimal, decimal_spec, string_of};
use vstd::prelude::*;

verus! {

/// The parameter of a recommendation, with its text as characters.
pub enum ParameterView {
    /// `vbat_sag_compensation`
    VbatSagCompensation { current: u8, recommended: u8 },
    /// `dyn_idle_min_rpm`
    DynamicIdle { current_rpm: u8, recommended_rpm: u8 },
    /// `thrust_linear`
    ThrustLinearization { current: u8, recommended: u8 },
    /// A feedforward parameter
    Feedforward { param: FeedforwardParam, current: u8, recommended: u8 },
    /// D Min / D Max range on one axis
    DMax {
        axis: Axis,
        current_d_min: u8,
        current_d_max: u8,
        recommended_d_min: u8,
        recommended_d_max: u8,
    },
    /// TPA rate and breakpoint
    Tpa {
        current_rate: u8,
        current_breakpoint: u16,
        recommended_rate: u8,
        recommended_breakpoint: u16,
    },
    /// A simplified-tuning slider hint
    SliderHint { slider_name: Seq<char>, current_value: u8, suggested_value: u8 },
}

/// A recommendation as values.
pub struct RecView {
    /// The parameter change
    pub parameter: ParameterView,
    /// Why the change is recommended
    pub reason: Seq<char>,
    /// Priority
    pub priority: Priority,
}

/// The values of a parameter change.
pub open spec fn parameter_view(p: AdvancedParameter) -> ParameterView {
    match p {
        AdvancedParameter::VbatSagCompensation { current, recommended } => {
            ParameterView::VbatSagCompensation { current, recommended }
        },
        AdvancedParameter::DynamicIdle { current_rpm, recommended_rpm } => {
            ParameterView::DynamicIdle { current_rpm, recommended_rpm }
        },
        AdvancedParameter::ThrustLinearization { current, recommended } => {
            ParameterView::ThrustLinearization { current, recommended }
        },
        AdvancedParameter::Feedforward { param, current, recommended } => {
            ParameterView::Feedforward { param, current, recommended }
        },
        AdvancedParameter::DMax {
            axis,
            current_d_min,
            current_d_max,
            recommended_d_min,
            recommended_d_max,
        } => ParameterView::DMax {
            axis,
            current_d_min,
            current_d_max,
            recommended_d_min,
            recommended_d_max,
        },
        AdvancedParameter::Tpa {
            current_rate,
            current_breakpoint,
            recommended_rate,
            recommended_breakpoint,
        } => ParameterView::Tpa {
            current_rate,
            current_breakpoint,
            recommended_rate,
            recommended_breakpoint,
        },
        AdvancedParameter::SliderHint { slider_name, current_value, suggested_value } => {
            ParameterView::SliderHint { slider_name: slider_name@, current_value, suggested_value }
        },
    }
}

/// The values of a recommendation.
pub open spec fn rec_view(r: AdvancedRecommendation) -> RecView {
    RecView { parameter: parameter_view(r.parameter), reason: r.reason@, priority: r.priority }
}

/// The values of a list of recommendations.
pub open spec fn rec_views(rs: Seq<AdvancedRecommendation>) -> Seq<RecView> {
    rs.map_values(|r: AdvancedRecommendation| rec_view(r))
}

/// A low-priority recommendation.
pub open spec fn low(parameter: ParameterView, reason: Seq<char>) -> RecView {
    RecView { parameter, reason, priority: Priority::Low }
}

/// Zero or one recommendation as a sequence.
pub open spec fn opt_seq(o: Option<RecView>) -> Seq<RecView> {
    match o {
        Some(r) => seq![r],
        None => Seq::empty(),
    }
}

/// Whether a motor protocol is a DShot variant.
pub open spec fn is_dshot(protocol: u8) -> bool {
    5 <= protocol <= 8
}

// ---------------------------------------------------------------------------
// Reasons
// ---------------------------------------------------------------------------

/// Reason of the vbat sag recommendation.
pub open spec fn vbat_reason() -> Seq<char> {
    "Bidirectional DShot is active \u{2014} enable vbat sag compensation for consistent throttle response across battery voltage range"@
}

/// Reason of the dynamic idle recommendation.
pub open spec fn idle_reason() -> Seq<char> {
    "DShot motor protocol detected \u{2014} enable dynamic idle for better prop wash handling and desync prevention"@
}

/// Reason of the thrust linearization recommendation.
pub open spec fn thrust_reason() -> Seq<char> {
    "Enable thrust linearization for more linear throttle response"@
}

/// Reason of the D Max gain recommendation.
pub open spec fn d_max_gain_reason() -> Seq<char> {
    "D Max gain is 0 (dynamic D range disabled) \u{2014} recommend restoring Betaflight default of 37"@
}

/// Reason of a D Min recommendation.
pub open spec fn d_min_reason(d_max: u8, recommended_d_min: u8) -> Seq<char> {
    "D Min equals D Max ("@ + decimal_spec(d_max as nat)
        + ") \u{2014} the D Max dynamic range is effectively disabled. Lower D Min to "@
        + decimal_spec(recommended_d_min as nat)
        + " to allow the flight controller to reduce D during calm flight"@
}

/// Reason of the configuration TPA recommendation.
pub open spec fn tpa_reason(max_d_label: Seq<char>) -> Seq<char> {
    "TPA is disabled but D gains are "@ + max_d_label
        + " \u{2014} enable TPA to attenuate D at high throttle and prevent hot-motor oscillations"@
}

/// Reason of the telemetry TPA rate increase.
pub open spec fn tpa_rate_up_reason(ratio_label: Seq<char>, rate: u8) -> Seq<char> {
    "Gyro noise at high throttle is "@ + ratio_label
        + "x higher than at low/mid throttle \u{2014} increase TPA rate from "@ + decimal_spec(
        rate as nat,
    ) + " to 65 to reduce D-term oscillations at high throttle"@
}

/// Reason of the telemetry TPA breakpoint reduction.
pub open spec fn tpa_breakpoint_reason(ratio_label: Seq<char>, breakpoint: u16) -> Seq<char> {
    "Gyro noise at high throttle is "@ + ratio_label
        + "x higher than at low/mid throttle \u{2014} lower TPA breakpoint from "@ + decimal_spec(
        breakpoint as nat,
    ) + " to 1250 so attenuation kicks in earlier"@
}

/// Reason of the telemetry TPA rate reduction.
pub open spec fn tpa_rate_down_reason(ratio_label: Seq<char>, rate: u8) -> Seq<char> {
    "Gyro noise is similar across throttle range (ratio "@ + ratio_label
        + "x) \u{2014} reduce TPA rate from "@ + decimal_spec(rate as nat)
        + " to 65 to recover high-throttle authority"@
}

/// Reason of the Master Multiplier hint.
pub open spec fn master_reason() -> Seq<char> {
    "PID analysis suggests higher P gains \u{2014} bumping the Master Multiplier slider from 1.00 to 1.10 scales all PID terms proportionally and is the recommended way to increase authority when using simplified tuning"@
}

/// Reason of the D Gain hint.
pub open spec fn d_gain_reason() -> Seq<char> {
    "PID analysis suggests higher D gains for faster settling \u{2014} increase the D Gain slider from 1.00 to 1.10 instead of editing raw PID values when using simplified tuning"@
}

/// Reason of the feedforward jitter recommendation.
pub open spec fn jitter_reason() -> Seq<char> {
    "Feedforward jitter factor is 0 \u{2014} set to 7 (Betaflight default) to reduce RC link jitter in the feedforward path"@
}

// ---------------------------------------------------------------------------
// Inputs
// ---------------------------------------------------------------------------

/// D of one axis as the D Max check reads it.
#[derive(Debug, Clone, Copy, PartialEq, Eq, Structural)]
pub struct AxisD {
    /// The axis D gain as a whole number (saturated to `u8`)
    pub d_max: u8,
    /// About 65% of the D gain, rounded (saturated to `u8`)
    pub recommended_d_min: u8,
}

/// How high-throttle gyro noise compares with low/mid-throttle noise.
#[derive(Debug, Clone, Copy, PartialEq, Eq, Structural)]
pub enum NoiseTrend {
    /// Too few samples in a throttle band, or no low/mid noise to compare with
    Unknown,
    /// High-throttle noise is more than 1.5 times the low/mid noise
    Rising,
    /// High-throttle noise is less than 1.1 times the low/mid noise
    Flat,
    /// In between
    Moderate,
}

/// What the checks need beyond the advanced configuration.
#[derive(Debug, Clone)]
pub struct AdvancedInputs {
    /// Roll D
    pub roll_d: AxisD,
    /// Pitch D
    pub pitch_d: AxisD,
    /// Whether the larger of roll and pitch D exceeds 25
    pub d_gains_high: bool,
    /// The larger of roll and pitch D, as shown in reasons
    pub max_d_label: String,
    /// Throttle-band noise comparison
    pub noise_trend: NoiseTrend,
    /// The noise ratio to one decimal, as shown in reasons
    pub ratio_label_1: String,
    /// The noise ratio to two decimals, as shown in reasons
    pub ratio_label_2: String,
    /// Whether a PID recommendation raises a P gain
    pub has_p_increase: bool,
    /// Whether a PID recommendation raises a D gain
    pub has_d_increase: bool,
}

// ---------------------------------------------------------------------------
// Checks, as values
// ---------------------------------------------------------------------------

/// Vbat sag compensation: with bidirectional DShot on and compensation
/// unset or 0, recommend 100.
pub open spec fn vbat_sag_spec(adv: AdvancedTuningConfig) -> Option<RecView> {
    let current = match adv.vbat_sag_compensation {
        Some(v) => v,
        None => 0,
    };
    if adv.dshot_bidir == Some(true) && current == 0 {
        Some(low(ParameterView::VbatSagCompensation { current, recommended: 100 }, vbat_reason()))
    } else {
        None
    }
}

/// Dynamic idle: with a DShot protocol and a known idle of 0, recommend 30.
pub open spec fn dynamic_idle_spec(adv: AdvancedTuningConfig) -> Option<RecView> {
    match (adv.motor_protocol, adv.dynamic_idle_min_rpm) {
        (Some(p), Some(rpm)) => if is_dshot(p) && rpm == 0 {
            Some(
                low(
                    ParameterView::DynamicIdle { current_rpm: 0, recommended_rpm: 30 },
                    idle_reason(),
                ),
            )
        } else {
            None
        },
        _ => None,
    }
}

/// Thrust linearization: with a DShot protocol and a known value of 0,
/// recommend 25.
pub open spec fn thrust_linearization_spec(adv: AdvancedTuningConfig) -> Option<RecView> {
    match (adv.motor_protocol, adv.thrust_linearization) {
        (Some(p), Some(v)) => if is_dshot(p) && v == 0 {
            Some(
                low(
                    ParameterView::ThrustLinearization { current: 0, recommended: 25 },
                    thrust_reason(),
                ),
            )
        } else {
            None
        },
        _ => None,
    }
}

/// D Min on one axis: when it equals the axis D (and D is not 0), lower it.
pub open spec fn d_min_axis_spec(axis: Axis, d_min: u8, d: AxisD) -> Option<RecView> {
    if d_min == d.d_max && d.d_max > 0 {
        Some(
            low(
                ParameterView::DMax {
                    axis,
                    current_d_min: d_min,
                    current_d_max: d.d_max,
                    recommended_d_min: d.recommended_d_min,
                    recommended_d_max: d.d_max,
                },
                d_min_reason(d.d_max, d.recommended_d_min),
            ),
        )
    } else {
        None
    }
}

/// D Max: a D Max gain of 0 is restored to 37 (carried as a feedforward
/// boost change), then roll and pitch D Min are checked.
pub open spec fn d_max_spec(adv: AdvancedTuningConfig, roll: AxisD, pitch: AxisD) -> Seq<RecView> {
    let gain = if adv.d_max_gain == Some(0u8) {
        seq![
            low(
                ParameterView::Feedforward {
                    param: FeedforwardParam::Boost,
                    current: 0,
                    recommended: 37,
                },
                d_max_gain_reason(),
            ),
        ]
    } else {
        Seq::empty()
    };
    match adv.d_min {
        Some(dm) => gain + opt_seq(d_min_axis_spec(Axis::Roll, dm.roll, roll)) + opt_seq(
            d_min_axis_spec(Axis::Pitch, dm.pitch, pitch),
        ),
        None => gain,
    }
}

/// TPA from the configuration: TPA rate 0 with high D gains, enable TPA.
pub open spec fn tpa_spec(adv: AdvancedTuningConfig, d_gains_high: bool, max_d_label: Seq<char>) -> Option<
    RecView,
> {
    match adv.tpa {
        Some(t) => if t.rate == 0 && d_gains_high {
            Some(
                low(
                    ParameterView::Tpa {
                        current_rate: t.rate,
                        current_breakpoint: t.breakpoint,
                        recommended_rate: 65,
                        recommended_breakpoint: 1350,
                    },
                    tpa_reason(max_d_label),
                ),
            )
        } else {
            None
        },
        None => None,
    }
}

/// TPA from telemetry, for a configured TPA: rising noise raises a rate
/// below 50 to 65 (also lowering a breakpoint above 1400 to 1250), or
/// lowers a breakpoint above 1400; flat noise brings a rate above 80 down
/// to 65.
pub open spec fn tpa_telemetry_spec(
    adv: AdvancedTuningConfig,
    trend: NoiseTrend,
    label1: Seq<char>,
    label2: Seq<char>,
) -> Option<RecView> {
    match adv.tpa {
        Some(t) => if t.rate == 0 {
            None
        } else {
            match trend {
                NoiseTrend::Rising => if t.rate < 50 {
                    Some(
                        low(
                            ParameterView::Tpa {
                                current_rate: t.rate,
                                current_breakpoint: t.breakpoint,
                                recommended_rate: 65,
                                recommended_breakpoint: if t.breakpoint > 1400 {
                                    1250
                                } else {
                                    t.breakpoint
                                },
                            },
                            tpa_rate_up_reason(label1, t.rate),
                        ),
                    )
                } else if t.breakpoint > 1400 {
                    Some(
                        low(
                            ParameterView::Tpa {
                                current_rate: t.rate,
                                current_breakpoint: t.breakpoint,
                                recommended_rate: t.rate,
                                recommended_breakpoint: 1250,
                            },
                            tpa_breakpoint_reason(label1, t.breakpoint),
                        ),
                    )
                } else {
                    None
                },
                NoiseTrend::Flat => if t.rate > 80 {
                    Some(
                        low(
                            ParameterView::Tpa {
                                current_rate: t.rate,
                                current_breakpoint: t.breakpoint,
                                recommended_rate: 65,
                                recommended_breakpoint: t.breakpoint,
                            },
                            tpa_rate_down_reason(label2, t.rate),
                        ),
                    )
                } else {
                    None
                },
                _ => None,
            }
        },
        None => None,
    }
}

/// Feedforward: a jitter factor of 0 is raised to 7.
pub open spec fn feedforward_spec(adv: AdvancedTuningConfig) -> Option<RecView> {
    match adv.feedforward {
        Some(ff) => if ff.jitter_factor == Some(0u8) {
            Some(
                low(
                    ParameterView::Feedforward {
                        param: FeedforwardParam::JitterFactor,
                        current: 0,
                        recommended: 7,
                    },
                    jitter_reason(),
                ),
            )
        } else {
            None
        },
        None => None,
    }
}

/// Slider hints in simplified-tuning mode 2: a Master Multiplier at 100
/// with a P increase recommended, a D Gain at 100 with a D increase
/// recommended, each suggests 110.
pub open spec fn sliders_spec(adv: AdvancedTuningConfig, p_up: bool, d_up: bool) -> Seq<RecView> {
    match adv.simplified_tuning {
        Some(st) => if st.mode == 2 {
            (if st.master_multiplier == Some(100u8) && p_up {
                seq![
                    low(
                        ParameterView::SliderHint {
                            slider_name: "Master Multiplier"@,
                            current_value: 100,
                            suggested_value: 110,
                        },
                        master_reason(),
                    ),
                ]
            } else {
                Seq::empty()
            }) + (if st.d_gain == Some(100u8) && d_up {
                seq![
                    low(
                        ParameterView::SliderHint {
                            slider_name: "D Gain"@,
                            current_value: 100,
                            suggested_value: 110,
                        },
                        d_gain_reason(),
                    ),
                ]
            } else {
                Seq::empty()
            })
        } else {
            Seq::empty()
        },
        None => Seq::empty(),
    }
}

/// Laws of the single-value checks, stated over the configuration: vbat
/// sag compensation is recommended (0 to 100) exactly with bidirectional
/// DShot on and compensation off or unknown; dynamic idle (0 to 30) and
/// thrust linearization (0 to 25) exactly with a DShot protocol (5 to 8)
/// and a known value of 0; the feedforward jitter factor (0 to 7) exactly
/// when it is known to be 0. Each is of low priority.
pub proof fn lemma_config_checks(adv: AdvancedTuningConfig)
    ensures
        vbat_sag_spec(adv) is Some <==> adv.dshot_bidir == Some(true) && (
        adv.vbat_sag_compensation is None || adv.vbat_sag_compensation == Some(0u8)),
        vbat_sag_spec(adv) matches Some(r) ==> r.priority == Priority::Low && r.parameter
            == (ParameterView::VbatSagCompensation { current: 0, recommended: 100 }),
        dynamic_idle_spec(adv) is Some <==> (adv.motor_protocol matches Some(p) && 5 <= p <= 8)
            && adv.dynamic_idle_min_rpm == Some(0u8),
        dynamic_idle_spec(adv) matches Some(r) ==> r.priority == Priority::Low && r.parameter
            == (ParameterView::DynamicIdle { current_rpm: 0, recommended_rpm: 30 }),
        thrust_linearization_spec(adv) is Some <==> (adv.motor_protocol matches Some(p) && 5 <= p
            <= 8) && adv.thrust_linearization == Some(0u8),
        thrust_linearization_spec(adv) matches Some(r) ==> r.priority == Priority::Low && r.parameter
            == (ParameterView::ThrustLinearization { current: 0, recommended: 25 }),
        feedforward_spec(adv) is Some <==> (adv.feedforward matches Some(ff) && ff.jitter_factor
            == Some(0u8)),
        feedforward_spec(adv) matches Some(r) ==> r.priority == Priority::Low && r.parameter
            == (ParameterView::Feedforward {
                param: FeedforwardParam::JitterFactor,
                current: 0,
                recommended: 7,
            }),
{
}

/// Law of the D Max check: a D Max gain of 0 yields one restore to 37,
/// first; then roll, then pitch yield a D Min recommendation exactly when
/// the axis D Min equals its (non-zero) D, lowering D Min to the given
/// value and keeping D Max; nothing else is recommended.
pub proof fn lemma_d_max_check(adv: AdvancedTuningConfig, roll: AxisD, pitch: AxisD)
    ensures
        ({
            let r = d_max_spec(adv, roll, pitch);
            let g: int = if adv.d_max_gain == Some(0u8) {
                1
            } else {
                0
            };
            let roll_hit = adv.d_min matches Some(dm) && dm.roll == roll.d_max && roll.d_max > 0;
            let pitch_hit = adv.d_min matches Some(dm) && dm.pitch == pitch.d_max && pitch.d_max > 0;
            &&& r.len() == g + (if roll_hit {
                1int
            } else {
                0int
            }) + (if pitch_hit {
                1int
            } else {
                0int
            })
            &&& g == 1 ==> r[0].parameter == (ParameterView::Feedforward {
                param: FeedforwardParam::Boost,
                current: 0,
                recommended: 37,
            })
            &&& roll_hit ==> r[g].parameter == (ParameterView::DMax {
                axis: Axis::Roll,
                current_d_min: roll.d_max,
                current_d_max: roll.d_max,
                recommended_d_min: roll.recommended_d_min,
                recommended_d_max: roll.d_max,
            })
            &&& pitch_hit ==> r[r.len() - 1].parameter == (ParameterView::DMax {
                axis: Axis::Pitch,
                current_d_min: pitch.d_max,
                current_d_max: pitch.d_max,
                recommended_d_min: pitch.recommended_d_min,
                recommended_d_max: pitch.d_max,
            })
            &&& forall|k: int| 0 <= k < r.len() ==> (#[trigger] r[k]).priority == Priority::Low
        }),
{
}

/// Laws of the TPA checks. From the configuration: TPA rate 0 with high D
/// gains is raised to 65 with breakpoint 1350, nothing else. From
/// telemetry, for a configured non-zero rate only: rising noise raises a
/// rate below 50 to 65 (a breakpoint above 1400 also going to 1250), else
/// lowers a breakpoint above 1400 to 1250; flat noise brings a rate above
/// 80 down to 65; moderate or unknown noise recommends nothing.
pub proof fn lemma_tpa_checks(
    adv: AdvancedTuningConfig,
    d_gains_high: bool,
    label: Seq<char>,
    trend: NoiseTrend,
    label1: Seq<char>,
    label2: Seq<char>,
)
    ensures
        tpa_spec(adv, d_gains_high, label) is Some <==> (adv.tpa matches Some(t) && t.rate == 0)
            && d_gains_high,
        tpa_spec(adv, d_gains_high, label) matches Some(r) ==> (adv.tpa matches Some(t)
            && r.parameter == (ParameterView::Tpa {
            current_rate: 0,
            current_breakpoint: t.breakpoint,
            recommended_rate: 65,
            recommended_breakpoint: 1350,
        })),
        tpa_telemetry_spec(adv, trend, label1, label2) is Some <==> (adv.tpa matches Some(t) && t.rate
            != 0 && ((trend == NoiseTrend::Rising && (t.rate < 50 || t.breakpoint > 1400)) || (trend
            == NoiseTrend::Flat && t.rate > 80))),
        tpa_telemetry_spec(adv, trend, label1, label2) matches Some(r) ==> (adv.tpa matches Some(t)
            && r.priority == Priority::Low && r.parameter == (ParameterView::Tpa {
            current_rate: t.rate,
            current_breakpoint: t.breakpoint,
            recommended_rate: if trend == NoiseTrend::Rising && t.rate >= 50 {
                t.rate
            } else {
                65
            },
            recommended_breakpoint: if trend == NoiseTrend::Rising && t.breakpoint > 1400 {
                1250
            } else {
                t.breakpoint
            },
        })),
{
}

/// Law of the slider hints: only in simplified-tuning mode 2; a Master
/// Multiplier at 100 with a P increase recommended, then a D Gain at 100
/// with a D increase recommended, each suggest 110.
pub proof fn lemma_slider_hints(adv: AdvancedTuningConfig, p_up: bool, d_up: bool)
    ensures
        ({
            let r = sliders_spec(adv, p_up, d_up);
            let on = adv.simplified_tuning matches Some(st) && st.mode == 2;
            let master = on && p_up && adv.simplified_tuning->Some_0.master_multiplier == Some(100u8);
            let dg = on && d_up && adv.simplified_tuning->Some_0.d_gain == Some(100u8);
            &&& r.len() == (if master {
                1int
            } else {
                0int
            }) + (if dg {
                1int
            } else {
                0int
            })
            &&& master ==> r[0].parameter == (ParameterView::SliderHint {
                slider_name: "Master Multiplier"@,
                current_value: 100,
                suggested_value: 110,
            })
            &&& dg ==> r[r.len() - 1].parameter == (ParameterView::SliderHint {
                slider_name: "D Gain"@,
                current_value: 100,
                suggested_value: 110,
            })
        }),
{
}

/// Every check in order: vbat sag, dynamic idle, thrust linearization,
/// D Max, configuration TPA, telemetry TPA, feedforward, sliders.
pub open spec fn analyze_spec(adv: AdvancedTuningConfig, inputs: AdvancedInputs) -> Seq<RecView> {
    opt_seq(vbat_sag_spec(adv)) + opt_seq(dynamic_idle_spec(adv)) + opt_seq(
        thrust_linearization_spec(adv),
    ) + d_max_spec(adv, inputs.roll_d, inputs.pitch_d) + opt_seq(
        tpa_spec(adv, inputs.d_gains_high, inputs.max_d_label@),
    ) + opt_seq(
        tpa_telemetry_spec(
            adv,
            inputs.noise_trend,
            inputs.ratio_label_1@,
            inputs.ratio_label_2@,
        ),
    ) + opt_seq(feedforward_spec(adv)) + sliders_spec(
        adv,
        inputs.has_p_increase,
        inputs.has_d_increase,
    )
}

// ---------------------------------------------------------------------------
// The analyzer
// ---------------------------------------------------------------------------

fn text(s: &str) -> (res: String)
    ensures
        res@ == s@,
{
    s.to_string()
}

fn rec(parameter: AdvancedParameter, reason: String) -> (res: AdvancedRecommendation)
    ensures
        rec_view(res) == low(parameter_view(parameter), reason@),
{
    AdvancedRecommendation { parameter, reason, priority: Priority::Low }
}

fn push_opt(out: &mut Vec<AdvancedRecommendation>, o: Option<AdvancedRecommendation>)
    ensures
        rec_views(final(out)@) == rec_views(old(out)@) + match o {
            Some(r) => seq![rec_view(r)],
            None => Seq::<RecView>::empty(),
        },
{
    let ghost before = out@;
    if let Some(r) = o {
        out.push(r);
        assert(rec_views(out@) =~= rec_views(before) + seq![rec_view(r)]);
    } else {
        assert(rec_views(out@) =~= rec_views(before) + Seq::<RecView>::empty());
    }
}

fn push_all(out: &mut Vec<AdvancedRecommendation>, more: Vec<AdvancedRecommendation>)
    ensures
        rec_views(final(out)@) == rec_views(old(out)@) + rec_views(more@),
{
    let ghost before = out@;
    let mut more = more;
    let ghost m = more@;
    out.append(&mut more);
    assert(rec_views(out@) =~= rec_views(before) + rec_views(m));
}

/// Produces advanced tuning recommendations from the configuration headers.
#[derive(Debug, Clone, Copy)]
pub struct AdvancedAnalyzer;

impl AdvancedAnalyzer {
    /// The analyzer.
    pub fn new() -> Self {
        AdvancedAnalyzer
    }

    /// Run every check; without an advanced configuration there is nothing
    /// to recommend.
    pub fn analyze(&self, adv: Option<&AdvancedTuningConfig>, inputs: &AdvancedInputs) -> (res: Vec<
        AdvancedRecommendation,
    >)
        ensures
            rec_views(res@) == match adv {
                Some(a) => analyze_spec(*a, *inputs),
                None => Seq::<RecView>::empty(),
            },
    {
        let adv = match adv {
            Some(a) => a,
            None => {
                let res: Vec<AdvancedRecommendation> = Vec::new();
                assert(rec_views(res@) =~= Seq::<RecView>::empty());
                return res;
            },
        };
        let mut recs: Vec<AdvancedRecommendation> = Vec::new();
        assert(rec_views(recs@) =~= Seq::<RecView>::empty());
        push_opt(&mut recs, self.check_vbat_sag(adv));
        push_opt(&mut recs, self.check_dynamic_idle(adv));
        push_opt(&mut recs, self.check_thrust_linearization(adv));
        push_all(&mut recs, self.check_d_max(adv, inputs.roll_d, inputs.pitch_d));
        push_opt(&mut recs, self.check_tpa(adv, inputs.d_gains_high, &inputs.max_d_label));
        push_opt(
            &mut recs,
            self.check_tpa_from_telemetry(
                adv,
                inputs.noise_trend,
                &inputs.ratio_label_1,
                &inputs.ratio_label_2,
            ),
        );
        push_opt(&mut recs, self.check_feedforward(adv));
        push_all(&mut recs, self.check_sliders(adv, inputs.has_p_increase, inputs.has_d_increase));
        recs
    }

    /// Recommend vbat sag compensation when bidirectional DShot is on and
    /// compensation is unset or 0.
    pub fn check_vbat_sag(&self, adv: &AdvancedTuningConfig) -> (res: Option<AdvancedRecommendation>)
        ensures
            match res {
                Some(r) => vbat_sag_spec(*adv) == Some(rec_view(r)),
                None => vbat_sag_spec(*adv) is None,
            },
    {
        if adv.dshot_bidir != Some(true) {
            return None;
        }
        let current = match adv.vbat_sag_compensation {
            Some(v) => v,
            None => 0,
        };
        if current != 0 {
            return None;
        }
        Some(
            rec(
                AdvancedParameter::VbatSagCompensation { current, recommended: 100 },
                text(
                    "Bidirectional DShot is active \u{2014} enable vbat sag compensation for consistent throttle response across battery voltage range",
                ),
            ),
        )
    }

    /// Recommend dynamic idle for a DShot protocol with a known idle of 0.
    pub fn check_dynamic_idle(&self, adv: &AdvancedTuningConfig) -> (res: Option<
        AdvancedRecommendation,
    >)
        ensures
            match res {
                Some(r) => dynamic_idle_spec(*adv) == Some(rec_view(r)),
                None => dynamic_idle_spec(*adv) is None,
            },
    {
        let protocol = match adv.motor_protocol {
            Some(p) => p,
            None => {
                return None;
            },
        };
        if !(5 <= protocol && protocol <= 8) {
            return None;
        }
        let current_rpm = match adv.dynamic_idle_min_rpm {
            Some(r) => r,
            None => {
                return None;
            },
        };
        if current_rpm != 0 {
            return None;
        }
        Some(
            rec(
                AdvancedParameter::DynamicIdle { current_rpm, recommended_rpm: 30 },
                text(
                    "DShot motor protocol detected \u{2014} enable dynamic idle for better prop wash handling and desync prevention",
                ),
            ),
        )
    }

    /// Recommend thrust linearization for a DShot protocol with a known
    /// value of 0.
    pub fn check_thrust_linearization(&self, adv: &AdvancedTuningConfig) -> (res: Option<
        AdvancedRecommendation,
    >)
        ensures
            match res {
                Some(r) => thrust_linearization_spec(*adv) == Some(rec_view(r)),
                None => thrust_linearization_spec(*adv) is None,
            },
    {
        let protocol = match adv.motor_protocol {
            Some(p) => p,
            None => {
                return None;
            },
        };
        if !(5 <= protocol && protocol <= 8) {
            return None;
        }
        let current = match adv.thrust_linearization {
            Some(v) => v,
            None => {
                return None;
            },
        };
        if current != 0 {
            return None;
        }
        Some(
            rec(
                AdvancedParameter::ThrustLinearization { current, recommended: 25 },
                text("Enable thrust linearization for more linear throttle response"),
            ),
        )
    }

    fn check_d_min_axis(axis: Axis, d_min: u8, d: AxisD) -> (res: Option<AdvancedRecommendation>)
        ensures
            match res {
                Some(r) => d_min_axis_spec(axis, d_min, d) == Some(rec_view(r)),
                None => d_min_axis_spec(axis, d_min, d) is None,
            },
    {
        if d_min == d.d_max && d.d_max > 0 {
            let a = concat(&chars_of("D Min equals D Max ("), &decimal(d.d_max as u64));
            let b = concat(
                &a,
                &chars_of(
                    ") \u{2014} the D Max dynamic range is effectively disabled. Lower D Min to ",
                ),
            );
            let c = concat(&b, &decimal(d.recommended_d_min as u64));
            let m = concat(
                &c,
                &chars_of(" to allow the flight controller to reduce D during calm flight"),
            );
            Some(
                rec(
                    AdvancedParameter::DMax {
                        axis,
                        current_d_min: d_min,
                        current_d_max: d.d_max,
                        recommended_d_min: d.recommended_d_min,
                        recommended_d_max: d.d_max,
                    },
                    string_of(&m),
                ),
            )
        } else {
            None
        }
    }

    /// Restore a D Max gain of 0, then check roll and pitch D Min against D.
    pub fn check_d_max(&self, adv: &AdvancedTuningConfig, roll: AxisD, pitch: AxisD) -> (res: Vec<
        AdvancedRecommendation,
    >)
        ensures
            rec_views(res@) == d_max_spec(*adv, roll, pitch),
    {
        let mut recs: Vec<AdvancedRecommendation> = Vec::new();
        assert(rec_views(recs@) =~= Seq::<RecView>::empty());
        if adv.d_max_gain == Some(0u8) {
            push_opt(
                &mut recs,
                Some(
                    rec(
                        AdvancedParameter::Feedforward {
                            param: FeedforwardParam::Boost,
                            current: 0,
                            recommended: 37,
                        },
                        text(
                            "D Max gain is 0 (dynamic D range disabled) \u{2014} recommend restoring Betaflight default of 37",
                        ),
                    ),
                ),
            );
        }
        let d_min = match adv.d_min {
            Some(dm) => dm,
            None => {
                return recs;
            },
        };
        push_opt(&mut recs, Self::check_d_min_axis(Axis::Roll, d_min.roll, roll));
        push_opt(&mut recs, Self::check_d_min_axis(Axis::Pitch, d_min.pitch, pitch));
        recs
    }

    /// Recommend enabling TPA when its rate is 0 and the D gains are high.
    pub fn check_tpa(&self, adv: &AdvancedTuningConfig, d_gains_high: bool, max_d_label: &String) -> (res:
        Option<AdvancedRecommendation>)
        ensures
            match res {
                Some(r) => tpa_spec(*adv, d_gains_high, max_d_label@) == Some(rec_view(r)),
                None => tpa_spec(*adv, d_gains_high, max_d_label@) is None,
            },
    {
        let tpa = match adv.tpa {
            Some(t) => t,
            None => {
                return None;
            },
        };
        if tpa.rate != 0 {
            return None;
        }
        if !d_gains_high {
            return None;
        }
        let a = concat(&chars_of("TPA is disabled but D gains are "), &chars_of(max_d_label.as_str()));
        let m = concat(
            &a,
            &chars_of(
                " \u{2014} enable TPA to attenuate D at high throttle and prevent hot-motor oscillations",
            ),
        );
        Some(
            rec(
                AdvancedParameter::Tpa {
                    current_rate: tpa.rate,
                    current_breakpoint: tpa.breakpoint,
                    recommended_rate: 65,
                    recommended_breakpoint: 1350,
                },
                string_of(&m),
            ),
        )
    }

    fn tpa_rec(t: TpaAdvancedConfig, rate: u8, breakpoint: u16, reason: &Vec<char>) -> (res:
        AdvancedRecommendation)
        ensures
            rec_view(res) == low(
                ParameterView::Tpa {
                    current_rate: t.rate,
                    current_breakpoint: t.breakpoint,
                    recommended_rate: rate,
                    recommended_breakpoint: breakpoint,
                },
                reason@,
            ),
    {
        rec(
            AdvancedParameter::Tpa {
                current_rate: t.rate,
                current_breakpoint: t.breakpoint,
                recommended_rate: rate,
                recommended_breakpoint: breakpoint,
            },
            string_of(reason),
        )
    }

    /// Adjust a configured TPA from the throttle-band noise comparison.
    pub fn check_tpa_from_telemetry(
        &self,
        adv: &AdvancedTuningConfig,
        trend: NoiseTrend,
        ratio_label_1: &String,
        ratio_label_2: &String,
    ) -> (res: Option<AdvancedRecommendation>)
        ensures
            match res {
                Some(r) => tpa_telemetry_spec(*adv, trend, ratio_label_1@, ratio_label_2@) == Some(
                    rec_view(r),
                ),
                None => tpa_telemetry_spec(*adv, trend, ratio_label_1@, ratio_label_2@) is None,
            },
    {
        let t = match adv.tpa {
            Some(t) => t,
            None => {
                return None;
            },
        };
        if t.rate == 0 {
            return None;
        }
        match trend {
            NoiseTrend::Rising => {
                if t.rate < 50 {
                    let a = concat(
                        &chars_of("Gyro noise at high throttle is "),
                        &chars_of(ratio_label_1.as_str()),
                    );
                    let b = concat(
                        &a,
                        &chars_of(
                            "x higher than at low/mid throttle \u{2014} increase TPA rate from ",
                        ),
                    );
                    let c = concat(&b, &decimal(t.rate as u64));
                    let m = concat(
                        &c,
                        &chars_of(" to 65 to reduce D-term oscillations at high throttle"),
                    );
                    let bp = if t.breakpoint > 1400 {
                        1250
                    } else {
                        t.breakpoint
                    };
                    return Some(Self::tpa_rec(t, 65, bp, &m));
                }
                if t.breakpoint > 1400 {
                    let a = concat(
                        &chars_of("Gyro noise at high throttle is "),
                        &chars_of(ratio_label_1.as_str()),
                    );
                    let b = concat(
                        &a,
                        &chars_of(
                            "x higher than at low/mid throttle \u{2014} lower TPA breakpoint from ",
                        ),
                    );
                    let c = concat(&b, &decimal(t.breakpoint as u64));
                    let m = concat(&c, &chars_of(" to 1250 so attenuation kicks in earlier"));
                    return Some(Self::tpa_rec(t, t.rate, 1250, &m));
                }
                None
            },
            NoiseTrend::Flat => {
                if t.rate > 80 {
                    let a = concat(
                        &chars_of("Gyro noise is similar across throttle range (ratio "),
                        &chars_of(ratio_label_2.as_str()),
                    );
                    let b = concat(&a, &chars_of("x) \u{2014} reduce TPA rate from "));
                    let c = concat(&b, &decimal(t.rate as u64));
                    let m = concat(&c, &chars_of(" to 65 to recover high-throttle authority"));
                    return Some(Self::tpa_rec(t, 65, t.breakpoint, &m));
                }
                None
            },
            _ => None,
        }
    }

    /// Slider hints when simplified tuning (mode 2) is active.
    pub fn check_sliders(&self, adv: &AdvancedTuningConfig, has_p_increase: bool, has_d_increase: bool) -> (res:
        Vec<AdvancedRecommendation>)
        ensures
            rec_views(res@) == sliders_spec(*adv, has_p_increase, has_d_increase),
    {
        let mut recs: Vec<AdvancedRecommendation> = Vec::new();
        assert(rec_views(recs@) =~= Seq::<RecView>::empty());
        let st = match adv.simplified_tuning {
            Some(s) => s,
            None => {
                return recs;
            },
        };
        if st.mode != 2 {
            return recs;
        }
        let ghost first: Seq<RecView> = if st.master_multiplier == Some(100u8) && has_p_increase {
            seq![
                low(
                    ParameterView::SliderHint {
                        slider_name: "Master Multiplier"@,
                        current_value: 100,
                        suggested_value: 110,
                    },
                    master_reason(),
                ),
            ]
        } else {
            Seq::empty()
        };
        if st.master_multiplier == Some(100u8) && has_p_increase {
            push_opt(
                &mut recs,
                Some(
                    rec(
                        AdvancedParameter::SliderHint {
                            slider_name: text("Master Multiplier"),
                            current_value: 100,
                            suggested_value: 110,
                        },
                        text(
                            "PID analysis suggests higher P gains \u{2014} bumping the Master Multiplier slider from 1.00 to 1.10 scales all PID terms proportionally and is the recommended way to increase authority when using simplified tuning",
                        ),
                    ),
                ),
            );
        }
        assert(rec_views(recs@) =~= first);
        if st.d_gain == Some(100u8) && has_d_increase {
            push_opt(
                &mut recs,
                Some(
                    rec(
                        AdvancedParameter::SliderHint {
                            slider_name: text("D Gain"),
                            current_value: 100,
                            suggested_value: 110,
                        },
                        text(
                            "PID analysis suggests higher D gains for faster settling \u{2014} increase the D Gain slider from 1.00 to 1.10 instead of editing raw PID values when using simplified tuning",
                        ),
                    ),
                ),
            );
        } else {
            assert(rec_views(recs@) =~= first + Seq::<RecView>::empty());
        }
        recs
    }

    /// Recommend a feedforward jitter factor of 7 when it is 0.
    pub fn check_feedforward(&self, adv: &AdvancedTuningConfig) -> (res: Option<
        AdvancedRecommendation,
    >)
        ensures
            match res {
                Some(r) => feedforward_spec(*adv) == Some(rec_view(r)),
                None => feedforward_spec(*adv) is None,
            },
    {
        let ff = match adv.feedforward {
            Some(f) => f,
            None => {
                return None;
            },
        };
        if ff.jitter_factor != Some(0u8) {
            return None;
        }
        Some(
            rec(
                AdvancedParameter::Feedforward {
                    param: FeedforwardParam::JitterFactor,
                    current: 0,
                    recommended: 7,
                },
                text(
                    "Feedforward jitter factor is 0 \u{2014} set to 7 (Betaflight default) to reduce RC link jitter in the feedforward path",
                ),
            ),
        )
    }
}

/// Every recommendation in `s` has low priority.
pub open spec fn all_low(s: Seq<RecView>) -> bool {
    forall|i: int| 0 <= i < s.len() ==> (#[trigger] s[i]).priority == Priority::Low
}

proof fn lemma_concat_low(a: Seq<RecView>, b: Seq<RecView>)
    requires
        all_low(a),
        all_low(b),
    ensures
        all_low(a + b),
{
    assert forall|i: int| 0 <= i < (a + b).len() implies (#[trigger] (a + b)[i]).priority
        == Priority::Low by {
        if i < a.len() {
            assert((a + b)[i] == a[i]);
        } else {
            assert((a + b)[i] == b[i - a.len()]);
        }
    }
}

proof fn lemma_opt_low(o: Option<RecView>)
    requires
        o matches Some(r) ==> r.priority == Priority::Low,
    ensures
        all_low(opt_seq(o)),
{
}

/// Every advanced recommendation has low priority.
pub proof fn lemma_advanced_recs_are_low_priority(adv: AdvancedTuningConfig, inputs: AdvancedInputs)
    ensures
        all_low(analyze_spec(adv, inputs)),
{
    let p0 = opt_seq(vbat_sag_spec(adv));
    let p1 = opt_seq(dynamic_idle_spec(adv));
    let p2 = opt_seq(thrust_linearization_spec(adv));
    let p3 = d_max_spec(adv, inputs.roll_d, inputs.pitch_d);
    let p4 = opt_seq(tpa_spec(adv, inputs.d_gains_high, inputs.max_d_label@));
    let p5 = opt_seq(
        tpa_telemetry_spec(adv, inputs.noise_trend, inputs.ratio_label_1@, inputs.ratio_label_2@),
    );
    let p6 = opt_seq(feedforward_spec(adv));
    let p7 = sliders_spec(adv, inputs.has_p_increase, inputs.has_d_increase);
    lemma_opt_low(vbat_sag_spec(adv));
    lemma_opt_low(dynamic_idle_spec(adv));
    lemma_opt_low(thrust_linearization_spec(adv));
    lemma_opt_low(tpa_spec(adv, inputs.d_gains_high, inputs.max_d_label@));
    lemma_opt_low(
        tpa_telemetry_spec(adv, inputs.noise_trend, inputs.ratio_label_1@, inputs.ratio_label_2@),
    );
    lemma_opt_low(feedforward_spec(adv));
    let gain = if adv.d_max_gain == Some(0u8) {
        seq![
            low(
                ParameterView::Feedforward {
                    param: FeedforwardParam::Boost,
                    current: 0,
                    recommended: 37,
                },
                d_max_gain_reason(),
            ),
        ]
    } else {
        Seq::empty()
    };
    assert(all_low(gain));
    if let Some(dm) = adv.d_min {
        lemma_opt_low(d_min_axis_spec(Axis::Roll, dm.roll, inputs.roll_d));
        lemma_opt_low(d_min_axis_spec(Axis::Pitch, dm.pitch, inputs.pitch_d));
        lemma_concat_low(gain, opt_seq(d_min_axis_spec(Axis::Roll, dm.roll, inputs.roll_d)));
        lemma_concat_low(
            gain + opt_seq(d_min_axis_spec(Axis::Roll, dm.roll, inputs.roll_d)),
            opt_seq(d_min_axis_spec(Axis::Pitch, dm.pitch, inputs.pitch_d)),
        );
    }
    assert(all_low(p3));
    if let Some(st) = adv.simplified_tuning {
        if st.mode == 2 {
            let m = if st.master_multiplier == Some(100u8) && inputs.has_p_increase {
                seq![
                    low(
                        ParameterView::SliderHint {
                            slider_name: "Master Multiplier"@,
                            current_value: 100,
                            suggested_value: 110,
                        },
                        master_reason(),
                    ),
                ]
            } else {
                Seq::empty()
            };
            let d = if st.d_gain == Some(100u8) && inputs.has_d_increase {
                seq![
                    low(
                        ParameterView::SliderHint {
                            slider_name: "D Gain"@,
                            current_value: 100,
                            suggested_value: 110,
                        },
                        d_gain_reason(),
                    ),
                ]
            } else {
                Seq::empty()
            };
            assert(all_low(m));
            assert(all_low(d));
            lemma_concat_low(m, d);
        }
    }
    assert(all_low(p7));
    lemma_concat_low(p0, p1);
    lemma_concat_low(p0 + p1, p2);
    lemma_concat_low(p0 + p1 + p2, p3);
    lemma_concat_low(p0 + p1 + p2 + p3, p4);
    lemma_concat_low(p0 + p1 + p2 + p3 + p4, p5);
    lemma_concat_low(p0 + p1 + p2 + p3 + p4 + p5, p6);
    lemma_concat_low(p0 + p1 + p2 + p3 + p4 + p5 + p6, p7);
}

} // verus!
