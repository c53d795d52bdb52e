use vstd::prelude::*;

verus! {

/// The parsed `animation.json`: every animation a mascot can play and the
/// engine-event rules that move between them.
#[derive(Debug, Clone)]
pub struct AnimationSchema {
    pub schema_id: String,
    pub version: u32,
    pub default_animation: String,
    pub initial_candidates: Vec<String>,
    pub animations: Vec<Animation>,
    pub events: Vec<EventRule>,
}

/// One named animation: a frame list plus the rules that leave it.
#[derive(Debug, Clone)]
pub struct Animation {
    pub key: String,
    pub kind: SurfaceType,
    pub subtype: String,
    pub level: u8,
    pub loop_mode: LoopMode,
    pub direction: Direction,
    pub frames: Vec<Frame>,
    pub auto: Option<AutoBehavior>,
    pub border_transitions: Vec<BorderTransition>,
    pub event_transitions: Vec<EventRule>,
}

/// One sprite shown for `duration_ticks` ticks while the mascot moves by `(dx, dy)` per tick.
#[derive(Debug, Clone, Copy, PartialEq, Eq, Structural)]
pub struct Frame {
    pub sprite: u32,
    pub dx: i32,
    pub dy: i32,
    pub duration_ticks: u32,
}

/// Transitions an animation takes on its own: when a oneshot finishes, when a
/// timer fires, or when it has run for too long.
#[derive(Debug, Clone)]
pub struct AutoBehavior {
    pub on_finish: Vec<ChoiceItem>,
    pub on_timer: Vec<TimerRule>,
    pub max_duration_ticks: Option<MaxDurationTicks>,
}

/// A weighted candidate target animation. The weight is a binary64 number, held here as
/// its IEEE-754 bit pattern (`f64::to_bits`): the engine only hands it to the
/// randomness source, never computes with it.
#[derive(Debug, Clone)]
pub struct ChoiceItem {
    pub to: String,
    pub weight_bits: u64,
    pub set_facing: Option<String>,
    pub min_level: Option<u8>,
}

/// After a number of ticks drawn from `min_ticks..=max_ticks`, take one of `choices` with
/// probability `chance` (a binary64 number held as its bit pattern; 1.0 when absent).
#[derive(Debug, Clone)]
pub struct TimerRule {
    pub choices: Vec<ChoiceItem>,
    pub min_ticks: u32,
    pub max_ticks: u32,
    pub chance_bits: u64,
}

/// How long an animation may run before the engine returns to the default animation.
#[derive(Debug, Clone, Copy, PartialEq, Eq, Structural)]
pub enum MaxDurationTicks {
    Fixed(u32),
    Range { min_ticks: u32, max_ticks: u32 },
}

/// On contact with edge `when` (and, if given, only while facing `facing`), take one of `choices`.
#[derive(Debug, Clone)]
pub struct BorderTransition {
    pub when: Edge,
    pub facing: Option<Direction>,
    pub choices: Vec<ChoiceItem>,
}

/// How the mascot reacts to an engine event (drag, fling, tap, ...).
#[derive(Debug, Clone)]
pub struct EventRule {
    pub event: EngineEventKind,
    pub from: Option<String>,
    pub when: Option<Edge>,
    pub facing: Option<Direction>,
    pub to: Option<String>,
    pub set_facing: Option<String>,
    pub choices: Option<Vec<ChoiceItem>>,
    pub min_level: Option<u8>,
    pub max_level: Option<u8>,
    pub allowed_types: Option<Vec<SurfaceType>>,
}

#[derive(Debug, Clone, Copy, PartialEq, Eq, Structural)]
pub enum Edge {
    Left,
    Right,
    Top,
    Bottom,
}

#[derive(Debug, Clone, Copy, PartialEq, Eq, Structural)]
pub enum Direction {
    Left,
    Right,
    Any,
}

#[derive(Debug, Clone, Copy, PartialEq, Eq, Structural)]
pub enum SurfaceType {
    Ground,
    Wall,
    Ceiling,
    Air,
    User,
}

#[derive(Debug, Clone, Copy, PartialEq, Eq, Structural)]
pub enum LoopMode {
    Oneshot,
    Loop,
}

#[derive(Debug, Clone, Copy, PartialEq, Eq, Hash, Structural)]
pub enum EngineEventKind {
    DragStart,
    DragEnd,
    FlingStart,
    FlingEnd,
    Jump,
    Idle,
    Tap,
}

} // verus!
