//! Domain types that carry no floating-point data: axes, PID terms,
//! priorities, hardware descriptions, pilot profile, flight events and the
//! advanced tuning configuration read from blackbox headers.

use crate::info_map::InfoMap;
use vstd::prelude::*;

verus! {

/// Flight controller information
#[derive(Debug, Clone)]
pub struct FlightController {
    /// Firmware name (e.g., "Betaflight", "INAV", "ArduPilot")
    pub firmware: String,
    /// Firmware version
    pub version: String,
    /// Target board (e.g., "STM32F405", "STM32F7X2")
    pub target: String,
    /// Control loop rate in Hz
    pub loop_rate: u32,
}

/// Motor specifications
#[derive(Debug, Clone)]
pub struct MotorSpec {
    /// Motor model/name
    pub model: String,
    /// KV rating (RPM per volt)
    pub kv: u16,
    /// Stator size (e.g., "2207")
    pub stator_size: String,
}

/// ESC specifications
#[derive(Debug, Clone)]
pub struct EscSpec {
    /// ESC model/name
    pub model: String,
    /// Current rating in amps
    pub current_rating: u16,
    /// Protocol used (PWM, OneShot, DShot, etc.)
    pub protocol: String,
}

/// Types of filters available
#[derive(Debug, Clone, PartialEq, Eq, Structural)]
pub enum FilterType {
    /// Low-pass filter (attenuates high frequencies)
    LowPass,
    /// High-pass filter (attenuates low frequencies)
    HighPass,
    /// Band-pass filter (allows specific frequency range)
    BandPass,
    /// Butterworth filter
    Butterworth,
    /// Chebyshev filter
    Chebyshev,
    /// Bessel filter
    Bessel,
}

/// Pilot profile information
#[derive(Debug, Clone)]
pub struct PilotProfile {
    /// Pilot identifier (anonymous)
    pub pilot_id: Option<String>,
    /// Skill level estimation
    pub skill_level: SkillLevel,
    /// Preferred flying style
    pub flying_style: FlyingStyle,
}

/// Pilot skill levels
#[derive(Debug, Clone, Copy, PartialEq, Eq, Structural)]
pub enum SkillLevel {
    /// New to FPV flying
    Beginner,
    /// Comfortable with basic maneuvers
    Intermediate,
    /// Experienced with advanced techniques
    Advanced,
    /// Professional/competitive level
    Expert,
}

/// Flying styles affect tuning requirements
#[derive(Debug, Clone, Copy, PartialEq, Eq, Structural)]
pub enum FlyingStyle {
    /// Smooth cinematic flight
    Cinematic,
    /// Freestyle with tricks and flips
    Freestyle,
    /// Racing with high-speed turns
    Racing,
    /// Long-range exploration
    LongRange,
    /// Mixed flying styles
    Mixed,
}

impl Default for PilotProfile {
    fn default() -> (res: Self)
        ensures
            res.pilot_id is None,
            res.skill_level == SkillLevel::Intermediate,
            res.flying_style == FlyingStyle::Freestyle,
    {
        PilotProfile {
            pilot_id: None,
            skill_level: SkillLevel::Intermediate,
            flying_style: FlyingStyle::Freestyle,
        }
    }
}

/// Flight events (mode changes, arming, etc.)
#[derive(Debug, Clone)]
pub struct FlightEvent {
    /// Timestamp relative to start of flight (milliseconds)
    pub timestamp_ms: u64,
    /// Type of event
    pub event_type: FlightEventType,
    /// Optional additional data
    pub data: Option<InfoMap>,
}

/// Types of flight events
#[derive(Debug, Clone)]
pub enum FlightEventType {
    /// Drone was armed
    Armed,
    /// Drone was disarmed
    Disarmed,
    /// Flight mode changed
    ModeChange {
        /// Previous mode
        from: String,
        /// New mode
        to: String,
    },
    /// Failsafe triggered
    Failsafe,
    /// GPS fix acquired
    GpsLock,
    /// Battery voltage warning
    LowBattery,
    /// Custom event with description
    Custom(String),
}

/// Axis enumeration
#[derive(Debug, Clone, Copy, PartialEq, Eq, Hash, Structural)]
pub enum Axis {
    /// Roll axis
    Roll,
    /// Pitch axis
    Pitch,
    /// Yaw axis
    Yaw,
}

/// Issue severity levels
#[derive(Debug, Clone, Copy, PartialEq, Eq, Structural)]
pub enum Severity {
    /// Low impact, cosmetic issue
    Low,
    /// Moderate impact on performance
    Medium,
    /// High impact, needs immediate attention
    High,
    /// Critical issue, unsafe to fly
    Critical,
}

/// PID terms
#[derive(Debug, Clone, Copy, PartialEq, Eq, Hash, Structural)]
pub enum PidTerm {
    /// Proportional term
    P,
    /// Integral term
    I,
    /// Derivative term
    D,
    /// Feedforward term
    F,
}

/// Recommendation priorities
#[derive(Debug, Clone, Copy, PartialEq, Eq, Structural)]
pub enum Priority {
    /// Low priority, optional improvement
    Low,
    /// Medium priority, recommended
    Medium,
    /// High priority, strongly recommended
    High,
    /// Critical priority, required for safety
    Critical,
}

/// Per-axis byte values (e.g. `d_min` from the blackbox header).
#[derive(Debug, Clone, Copy, PartialEq, Eq, Default, Structural)]
pub struct PerAxisU8 {
    /// Roll value
    pub roll: u8,
    /// Pitch value
    pub pitch: u8,
    /// Yaw value
    pub yaw: u8,
}

/// Feedforward settings from the blackbox header.
#[derive(Debug, Clone, Copy, PartialEq, Eq, Default, Structural)]
pub struct FeedforwardConfig {
    /// `feedforward_transition`
    pub transition: Option<u8>,
    /// `feedforward_boost`
    pub boost: Option<u8>,
    /// `feedforward_smooth_factor`
    pub smooth_factor: Option<u8>,
    /// `feedforward_jitter_factor`
    pub jitter_factor: Option<u8>,
    /// `feedforward_max_rate_limit`
    pub max_rate_limit: Option<u8>,
}

/// TPA settings in raw Betaflight units (rate in percent, breakpoint in µs).
#[derive(Debug, Clone, Copy, PartialEq, Eq, Default, Structural)]
pub struct TpaAdvancedConfig {
    /// `tpa_mode`
    pub mode: Option<u8>,
    /// `tpa_rate` (percent)
    pub rate: u8,
    /// `tpa_breakpoint` (µs)
    pub breakpoint: u16,
}

/// Betaflight simplified-tuning slider state.
#[derive(Debug, Clone, Copy, PartialEq, Eq, Default, Structural)]
pub struct SimplifiedTuning {
    /// `simplified_pids_mode` (0 = off, 1 = RP, 2 = RPY)
    pub mode: u8,
    /// Master multiplier slider (percent)
    pub master_multiplier: Option<u8>,
    /// Roll/pitch ratio slider (percent)
    pub roll_pitch_ratio: Option<u8>,
    /// I gain slider (percent)
    pub i_gain: Option<u8>,
    /// D gain slider (percent)
    pub d_gain: Option<u8>,
    /// P/I gain slider (percent)
    pub pi_gain: Option<u8>,
    /// D max gain slider (percent)
    pub d_max_gain: Option<u8>,
    /// Feedforward gain slider (percent)
    pub feedforward_gain: Option<u8>,
}

/// Advanced tuning parameters read from the blackbox configuration headers.
#[derive(Debug, Clone, Copy, PartialEq, Eq, Default, Structural)]
pub struct AdvancedTuningConfig {
    /// Per-axis `d_min`
    pub d_min: Option<PerAxisU8>,
    /// `d_max_gain`
    pub d_max_gain: Option<u8>,
    /// `d_max_advance`
    pub d_max_advance: Option<u8>,
    /// Feedforward settings
    pub feedforward: Option<FeedforwardConfig>,
    /// TPA settings
    pub tpa: Option<TpaAdvancedConfig>,
    /// `vbat_sag_compensation` (percent)
    pub vbat_sag_compensation: Option<u8>,
    /// `thrust_linear` (percent)
    pub thrust_linearization: Option<u8>,
    /// `dyn_idle_min_rpm` (hundreds of RPM)
    pub dynamic_idle_min_rpm: Option<u8>,
    /// `anti_gravity_gain`
    pub anti_gravity_gain: Option<u16>,
    /// `motor_pwm_protocol` (5..=8 are the DShot variants)
    pub motor_protocol: Option<u8>,
    /// `dshot_bidir`
    pub dshot_bidir: Option<bool>,
    /// `motor_kv`
    pub motor_kv: Option<u16>,
    /// `motor_poles`
    pub motor_poles: Option<u8>,
    /// Simplified tuning slider state
    pub simplified_tuning: Option<SimplifiedTuning>,
}

/// Feedforward parameters that a recommendation can target.
#[derive(Debug, Clone, Copy, PartialEq, Eq, Structural)]
pub enum FeedforwardParam {
    /// `feedforward_transition`
    Transition,
    /// `feedforward_boost`
    Boost,
    /// `feedforward_smooth_factor`
    SmoothFactor,
    /// `feedforward_jitter_factor`
    JitterFactor,
    /// `feedforward_max_rate_limit`
    MaxRateLimit,
}

/// One advanced parameter change.
#[derive(Debug, Clone)]
pub enum AdvancedParameter {
    /// `vbat_sag_compensation`
    VbatSagCompensation {
        /// Current value
        current: u8,
        /// Recommended value
        recommended: u8,
    },
    /// `dyn_idle_min_rpm`
    DynamicIdle {
        /// Current value
        current_rpm: u8,
        /// Recommended value
        recommended_rpm: u8,
    },
    /// `thrust_linear`
    ThrustLinearization {
        /// Current value
        current: u8,
        /// Recommended value
        recommended: u8,
    },
    /// A feedforward parameter
    Feedforward {
        /// Which parameter
        param: FeedforwardParam,
        /// Current value
        current: u8,
        /// Recommended value
        recommended: u8,
    },
    /// D Min / D Max range on one axis
    DMax {
        /// Axis
        axis: Axis,
        /// Current D Min
        current_d_min: u8,
        /// Current D Max
        current_d_max: u8,
        /// Recommended D Min
        recommended_d_min: u8,
        /// Recommended D Max
        recommended_d_max: u8,
    },
    /// TPA rate and breakpoint
    Tpa {
        /// Current rate (percent)
        current_rate: u8,
        /// Current breakpoint (µs)
        current_breakpoint: u16,
        /// Recommended rate (percent)
        recommended_rate: u8,
        /// Recommended breakpoint (µs)
        recommended_breakpoint: u16,
    },
    /// A simplified-tuning slider hint
    SliderHint {
        /// Slider name as shown in the Configurator
        slider_name: String,
        /// Current slider value (percent)
        current_value: u8,
        /// Suggested slider value (percent)
        suggested_value: u8,
    },
}

/// An advanced tuning recommendation.
#[derive(Debug, Clone)]
pub struct AdvancedRecommendation {
    /// The parameter change
    pub parameter: AdvancedParameter,
    /// Why the change is recommended
    pub reason: String,
    /// Priority of this recommendation
    pub priority: Priority,
}

} // verus!
