//! The animation state machine: plays an animation's frames and follows the bundle's
//! rules (border transitions, timers, oneshot endings, engine events) between animations.

pub mod weighted;

use crate::format::animation::{
    Animation, AnimationSchema, ChoiceItem, Direction, Edge, EngineEventKind, LoopMode, MaxDurationTicks,
    SurfaceType, TimerRule,
};
use vstd::prelude::*;
use weighted::{any_eligible, eligible, pick_weighted};

verus! {

/// What the mascot is touching, as far as the animation rules care.
#[derive(Debug, Clone, Copy, PartialEq, Eq, Structural)]
pub enum SurfaceKind {
    Ground,
    Wall,
    Ceiling,
    Air,
}

/// The result of a surface query: the surface kind, the edge crossed this tick (if any),
/// and the floor and ceiling heights that were resolved for the mascot's position.
#[derive(Debug, Clone, Copy, PartialEq, Eq, Structural)]
pub struct SurfaceContext {
    pub kind: SurfaceKind,
    pub edge_hit: Option<Edge>,
    pub floor_y: i32,
    pub ceiling_y: i32,
}

/// What one tick produced: the sprite to show, the movement to apply, and whether the
/// tick switched to another animation.
#[derive(Debug, Clone, Copy, PartialEq, Eq, Structural)]
pub struct StepOutput {
    pub sprite_index: u32,
    pub dx: i32,
    pub dy: i32,
    pub changed_animation: bool,
}

/// Where the engine's random decisions come from. Weights and probabilities are binary64
/// numbers held as their IEEE-754 bit patterns. Nothing is assumed of what an
/// implementation returns: the engine checks every answer it relies on.
pub trait Randomness {
    /// An index into `weights`, drawn with probability proportional to each weight.
    fn pick_weighted(&mut self, weights: &Vec<u64>) -> usize;

    /// `true` with the given probability.
    fn chance(&mut self, probability_bits: u64) -> bool;

    /// `true` or `false` with equal probability.
    fn coin(&mut self) -> bool;

    /// A number drawn uniformly from `low..=high`.
    fn range_inclusive(&mut self, low: u32, high: u32) -> u32;
}

/// The position of the last animation in `anims` with this key (later duplicates win).
pub open spec fn key_index(anims: Seq<Animation>, key: Seq<char>) -> Option<int>
    decreases anims.len(),
{
    if anims.len() == 0 {
        None
    } else if anims.last().key@ == key {
        Some(anims.len() - 1)
    } else {
        key_index(anims.drop_last(), key)
    }
}

/// `key` names an animation of `anims` that the engine can enter: one with a frame.
pub open spec fn key_known(anims: Seq<Animation>, key: Seq<char>) -> bool {
    key_index(anims, key) matches Some(i) && 0 <= i < anims.len() && anims[i].frames@.len() > 0
}

/// Every choice names an animation of `anims` that can be entered.
pub open spec fn choices_known(anims: Seq<Animation>, choices: Seq<ChoiceItem>) -> bool {
    forall|i: int| 0 <= i < choices.len() ==> key_known(anims, (#[trigger] choices[i]).to@)
}

/// Every rule of `a` that leaves it names an animation of `anims`.
pub open spec fn animation_targets_known(anims: Seq<Animation>, a: Animation) -> bool {
    &&& match a.auto {
        Some(auto) => {
            &&& choices_known(anims, auto.on_finish@)
            &&& forall|j: int| 0 <= j < auto.on_timer@.len() ==> choices_known(anims, (#[trigger] auto.on_timer@[j]).choices@)
        },
        None => true,
    }
    &&& forall|j: int| 0 <= j < a.border_transitions@.len()
        ==> choices_known(anims, (#[trigger] a.border_transitions@[j]).choices@)
}

/// The event rule's target (direct or by choice) names an animation of `anims`.
pub open spec fn event_targets_known(anims: Seq<Animation>, e: crate::format::animation::EventRule) -> bool {
    &&& match e.to {
        Some(t) => key_known(anims, t@),
        None => true,
    }
    &&& match e.choices {
        Some(cs) => choices_known(anims, cs@),
        None => true,
    }
}

/// A schema the engine can run: every animation key the schema names (default,
/// transitions, events) exists and names an animation with a frame. Animations that
/// nothing names may have none: they are never entered on their own.
pub open spec fn schema_wf(schema: AnimationSchema) -> bool {
    let anims = schema.animations@;
    &&& key_known(anims, schema.default_animation@)
    &&& forall|i: int| 0 <= i < anims.len() ==> animation_targets_known(anims, #[trigger] anims[i])
    &&& forall|i: int| 0 <= i < schema.events@.len() ==> event_targets_known(anims, #[trigger] schema.events@[i])
}

/// The timer rules of `a` (none without auto behavior).
pub open spec fn timer_rules(a: Animation) -> Seq<TimerRule> {
    match a.auto {
        Some(auto) => auto.on_timer@,
        None => Seq::empty(),
    }
}

/// The maximum-duration rule of `a`, if any.
pub open spec fn max_rule(a: Animation) -> Option<MaxDurationTicks> {
    match a.auto {
        Some(auto) => auto.max_duration_ticks,
        None => None,
    }
}

/// `t` is a value drawn from `low..=high`, or exactly `low` when that range has at most
/// one value.
pub open spec fn drawn_in(t: u32, low: u32, high: u32) -> bool {
    if low >= high { t == low } else { low <= t <= high }
}

/// Freshly drawn timers: one unresolved target per rule, each within its rule's range.
pub open spec fn timers_drawn(rules: Seq<TimerRule>, timers: Seq<(u32, bool)>) -> bool {
    &&& timers.len() == rules.len()
    &&& forall|i: int| 0 <= i < rules.len() ==> {
        let t = #[trigger] timers[i];
        !t.1 && drawn_in(t.0, rules[i].min_ticks, rules[i].max_ticks)
    }
}

/// A freshly drawn maximum duration for the rule `m`.
pub open spec fn max_drawn(m: Option<MaxDurationTicks>, target: Option<u32>) -> bool {
    match m {
        None => target is None,
        Some(MaxDurationTicks::Fixed(t)) => target == Some(t),
        Some(MaxDurationTicks::Range { min_ticks, max_ticks }) => match target {
            Some(v) => drawn_in(v, min_ticks, max_ticks),
            None => false,
        },
    }
}

/// The facing named by a `setFacing` value: `LEFT`, `RIGHT`, or either one for `RANDOM`;
/// anything else keeps the current facing.
pub open spec fn facing_allowed(set_facing: Option<String>, current: Direction, facing: Direction) -> bool {
    match set_facing {
        Some(s) => if s@ == "LEFT"@ {
            facing == Direction::Left
        } else if s@ == "RIGHT"@ {
            facing == Direction::Right
        } else if s@ == "RANDOM"@ {
            facing == Direction::Left || facing == Direction::Right
        } else {
            facing == current
        },
        None => facing == current,
    }
}

/// The tick counter after one more tick (it stops at `u32::MAX`).
pub open spec fn next_tick(t: u32) -> u32 {
    if t < u32::MAX { (t + 1) as u32 } else { t }
}

/// A frame timer pass with no transition: count the current frame down, then move to
/// the next frame, wrap a looping animation, or stay on the last frame of a finished oneshot.
pub open spec fn frame_after_tick(a: Animation, frame: int, remaining: u32) -> (int, u32) {
    if remaining > 1 {
        (frame, (remaining - 1) as u32)
    } else if frame + 1 < a.frames@.len() {
        (frame + 1, a.frames@[frame + 1].duration_ticks)
    } else if a.loop_mode == LoopMode::Loop {
        (0, a.frames@[0].duration_ticks)
    } else {
        (frame, remaining)
    }
}

/// A oneshot that is on its last tick and has somewhere to go when it finishes.
pub open spec fn finishes_into_choice(a: Animation, frame: int, remaining: u32) -> bool {
    &&& remaining <= 1
    &&& frame + 1 >= a.frames@.len()
    &&& a.loop_mode == LoopMode::Oneshot
    &&& match a.auto {
        Some(auto) => auto.on_finish@.len() > 0,
        None => false,
    }
}

/// The choices a oneshot may finish into (none without auto behavior).
pub open spec fn finish_choices_of(a: Animation) -> Seq<ChoiceItem> {
    match a.auto {
        Some(auto) => auto.on_finish@,
        None => Seq::empty(),
    }
}

/// A timer target that has not fired yet and whose tick has been reached.
/// The timers with the first `upto` of them marked as fired where they are due at `ticks`:
/// each timer fires at most once per entry into an animation, whether or not its chance
/// then succeeds.
pub open spec fn timers_marked(timers: Seq<(u32, bool)>, upto: int, ticks: u32) -> Seq<(u32, bool)> {
    Seq::new(
        timers.len(),
        |i: int| if i < upto { (timers[i].0, timers[i].1 || ticks >= timers[i].0) } else { timers[i] },
    )
}

pub open spec fn timer_due(timers: Seq<(u32, bool)>, ticks: u32) -> bool {
    exists|i: int| 0 <= i < timers.len() && !(#[trigger] timers[i]).1 && ticks >= timers[i].0
}

/// The position of the first border transition of `a` that fires on `edge` while facing
/// `facing`: its edge matches, its facing condition (if any) matches, and one of its
/// choices is open at `level`.
pub open spec fn firing_border(a: Animation, edge: Edge, facing: Direction, level: u8) -> Option<int> {
    first_firing_border(a.border_transitions@, edge, facing, level, 0)
}

pub open spec fn border_fires(bt: crate::format::animation::BorderTransition, edge: Edge, facing: Direction, level: u8) -> bool {
    &&& bt.when == edge
    &&& match bt.facing {
        Some(f) => f == facing,
        None => true,
    }
    &&& any_eligible(bt.choices@, level)
}

pub open spec fn first_firing_border(
    bts: Seq<crate::format::animation::BorderTransition>,
    edge: Edge,
    facing: Direction,
    level: u8,
    from: int,
) -> Option<int>
    decreases bts.len() - from,
{
    if from < 0 || from >= bts.len() {
        None
    } else if border_fires(bts[from], edge, facing, level) {
        Some(from)
    } else {
        first_firing_border(bts, edge, facing, level, from + 1)
    }
}

/// The rule's `from` condition holds: `*` matches any animation, a key matches that
/// animation, and without `from` the level range and surface types decide.
pub open spec fn event_from_matches(rule: crate::format::animation::EventRule, current: Animation, level: u8) -> bool {
    match rule.from {
        Some(f) => f@ == "*"@ || f@ == current.key@,
        None => {
            &&& match rule.min_level {
                Some(m) => level >= m,
                None => true,
            }
            &&& match rule.max_level {
                Some(m) => level <= m,
                None => true,
            }
            &&& match rule.allowed_types {
                Some(types) => types@.contains(current.kind),
                None => true,
            }
        },
    }
}

/// The event rule takes effect: same event, `from`, edge and facing conditions hold, and
/// it has somewhere to go (an open choice when it lists choices, else a `to` target).
pub open spec fn event_rule_applies(
    rule: crate::format::animation::EventRule,
    event: EngineEventKind,
    current: Animation,
    facing: Direction,
    surface: SurfaceContext,
    level: u8,
) -> bool {
    &&& rule.event == event
    &&& event_from_matches(rule, current, level)
    &&& match rule.when {
        Some(w) => surface.edge_hit == Some(w),
        None => true,
    }
    &&& match rule.facing {
        Some(f) => f == facing,
        None => true,
    }
    &&& match rule.choices {
        Some(cs) => any_eligible(cs@, level),
        None => rule.to is Some,
    }
}

/// The position of the first event rule from `from` on that takes effect.
pub open spec fn first_applying_event(
    rules: Seq<crate::format::animation::EventRule>,
    event: EngineEventKind,
    current: Animation,
    facing: Direction,
    surface: SurfaceContext,
    level: u8,
    from: int,
) -> Option<int>
    decreases rules.len() - from,
{
    if from < 0 || from >= rules.len() {
        None
    } else if event_rule_applies(rules[from], event, current, facing, surface, level) {
        Some(from)
    } else {
        first_applying_event(rules, event, current, facing, surface, level, from + 1)
    }
}

struct TimerTarget {
    tick: u32,
    resolved: bool,
}

/// Plays one animation of a schema at a time and decides, tick by tick, when to move on.
pub struct StateMachine<'a> {
    schema: &'a AnimationSchema,
    current: usize,
    frame_index: usize,
    frame_ticks_remaining: u32,
    ticks_in_animation: u32,
    facing: Direction,
    timer_targets: Vec<TimerTarget>,
    max_duration_target: Option<u32>,
}

impl<'a> StateMachine<'a> {
    pub closed spec fn schema_spec(&self) -> AnimationSchema {
        *self.schema
    }

    /// The position in the schema of the animation being played.
    pub closed spec fn current_index(&self) -> int {
        self.current as int
    }

    pub open spec fn current_animation(&self) -> Animation {
        self.schema_spec().animations@[self.current_index()]
    }

    /// The position of the frame being shown.
    pub closed spec fn frame_position(&self) -> int {
        self.frame_index as int
    }

    /// Ticks left before the current frame ends.
    pub closed spec fn frame_ticks_left(&self) -> u32 {
        self.frame_ticks_remaining
    }

    /// Ticks spent in the current animation.
    pub closed spec fn ticks(&self) -> u32 {
        self.ticks_in_animation
    }

    pub closed spec fn facing_spec(&self) -> Direction {
        self.facing
    }

    /// The timer targets of the current animation's timer rules: `(tick, fired)`.
    pub closed spec fn timers(&self) -> Seq<(u32, bool)> {
        self.timer_targets@.map_values(|t: TimerTarget| (t.tick, t.resolved))
    }

    /// The tick at which the current animation gives way to the default one, if it is limited.
    pub closed spec fn max_duration(&self) -> Option<u32> {
        self.max_duration_target
    }

    pub open spec fn current_frame(&self) -> crate::format::animation::Frame {
        self.current_animation().frames@[self.frame_position()]
    }

    /// The machine is playing a real frame of a real animation of a runnable schema, with
    /// one timer per timer rule.
    pub closed spec fn wf(&self) -> bool {
        &&& schema_wf(*self.schema)
        &&& self.current < self.schema.animations@.len()
        &&& self.frame_index < self.schema.animations@[self.current as int].frames@.len()
        &&& self.timer_targets@.len() == timer_rules(self.schema.animations@[self.current as int]).len()
        &&& (max_rule(self.schema.animations@[self.current as int]) is None ==> self.max_duration_target is None)
    }

    /// The machine has just entered animation `index` facing `facing`: first frame, no ticks
    /// spent, timers and maximum duration freshly drawn from the animation's rules.
    pub open spec fn entered(&self, index: int, facing: Direction) -> bool {
        let a = self.schema_spec().animations@[index];
        &&& self.current_index() == index
        &&& self.frame_position() == 0
        &&& self.frame_ticks_left() == a.frames@[0].duration_ticks
        &&& self.ticks() == 0
        &&& self.facing_spec() == facing
        &&& timers_drawn(timer_rules(a), self.timers())
        &&& max_drawn(max_rule(a), self.max_duration())
    }

    /// The machine has just entered one of `choices`: an open one, with a facing its
    /// `setFacing` allows given the facing `old_facing` before the switch.
    pub open spec fn entered_choice(&self, choices: Seq<ChoiceItem>, level: u8, old_facing: Direction) -> bool {
        exists|k: int|
            0 <= k < choices.len() && eligible(#[trigger] choices[k], level)
                && self.entered(key_index(self.schema_spec().animations@, choices[k].to@)->0, self.facing_spec())
                && facing_allowed(choices[k].set_facing, old_facing, self.facing_spec())
    }

    /// The border transition of the current animation that fires on this surface, if any.
    pub open spec fn border_firing(&self, surface: SurfaceContext, level: u8) -> Option<int> {
        match surface.edge_hit {
            Some(e) => firing_border(self.current_animation(), e, self.facing_spec(), level),
            None => None,
        }
    }

    /// The output for the current frame.
    pub open spec fn frame_output_spec(&self, changed_animation: bool) -> StepOutput {
        StepOutput {
            sprite_index: self.current_frame().sprite,
            dx: self.current_frame().dx,
            dy: self.current_frame().dy,
            changed_animation,
        }
    }

    /// A tick on which nothing but the clock moves: no border transition fires, the
    /// animation does not finish into a choice, no timer comes due and the maximum
    /// duration is not reached.
    pub open spec fn quiet_tick(&self, surface: SurfaceContext, level: u8) -> bool {
        &&& self.border_firing(surface, level) is None
        &&& !finishes_into_choice(self.current_animation(), self.frame_position(), self.frame_ticks_left())
        &&& !timer_due(self.timers(), next_tick(self.ticks()))
        &&& !(self.max_duration() matches Some(m) && next_tick(self.ticks()) >= m)
    }

    /// A tick that reaches the maximum duration with nothing else happening first.
    pub open spec fn max_duration_ends(&self, surface: SurfaceContext, level: u8) -> bool {
        &&& self.border_firing(surface, level) is None
        &&& !finishes_into_choice(self.current_animation(), self.frame_position(), self.frame_ticks_left())
        &&& !timer_due(self.timers(), next_tick(self.ticks()))
        &&& self.max_duration() matches Some(m) && next_tick(self.ticks()) >= m
    }

    /// `self` is `before` after one tick of its frame timer: a oneshot finishing into a
    /// choice has entered one of its finishing choices (all open at any level), with the
    /// facing that choice allows; any other animation has only moved its clock.
    pub open spec fn advanced_from(&self, before: &Self) -> bool {
        if finishes_into_choice(before.current_animation(), before.frame_position(), before.frame_ticks_left()) {
            &&& self.schema_spec() == before.schema_spec()
            &&& self.entered_choice(finish_choices_of(before.current_animation()), u8::MAX, before.facing_spec())
        } else {
            self.ticked_from(before)
        }
    }

    /// `self` is what the timers and the maximum duration of `mid` made of it: when the
    /// animation changed, either a timer rule of `mid`'s animation that was due and had not
    /// fired yet fired and one of its open choices was entered, or `mid` had reached its
    /// maximum duration and the default animation was entered; otherwise every due timer
    /// is marked as fired and nothing else changed.
    pub open spec fn timers_settled(&self, mid: &Self, changed: bool, level: u8) -> bool {
        if changed {
            ||| exists|k: int|
                0 <= k < timer_rules(mid.current_animation()).len()
                    && !mid.timers()[k].1 && mid.ticks() >= mid.timers()[k].0
                    && self.entered_choice(
                    (#[trigger] timer_rules(mid.current_animation())[k]).choices@,
                    level,
                    mid.facing_spec(),
                )
            ||| (mid.max_duration() matches Some(m) && mid.ticks() >= m) && self.entered(
                key_index(mid.schema_spec().animations@, mid.schema_spec().default_animation@)->0,
                mid.facing_spec(),
            )
        } else {
            &&& self.current_index() == mid.current_index()
            &&& self.frame_position() == mid.frame_position()
            &&& self.frame_ticks_left() == mid.frame_ticks_left()
            &&& self.ticks() == mid.ticks()
            &&& self.facing_spec() == mid.facing_spec()
            &&& self.max_duration() == mid.max_duration()
            &&& self.timers() == timers_marked(mid.timers(), mid.timers().len() as int, mid.ticks())
        }
    }

    /// `self` is `before` one tick later, with only the clock moved.
    pub open spec fn ticked_from(&self, before: &Self) -> bool {
        let (frame, left) = frame_after_tick(before.current_animation(), before.frame_position(), before.frame_ticks_left());
        &&& self.schema_spec() == before.schema_spec()
        &&& self.current_index() == before.current_index()
        &&& self.frame_position() == frame
        &&& self.frame_ticks_left() == left
        &&& self.ticks() == next_tick(before.ticks())
        &&& self.facing_spec() == before.facing_spec()
        &&& self.timers() == before.timers()
        &&& self.max_duration() == before.max_duration()
    }
}


/// Compares a string with a word character by character.
pub(crate) fn text_equals(s: &str, word: &str) -> (same: bool)
    ensures
        same == (s@ == word@),
{
    let n = s.unicode_len();
    if n != word.unicode_len() {
        return false;
    }
    let mut i: usize = 0;
    while i < n
        invariant
            n == s@.len(),
            n == word@.len(),
            i <= n,
            forall|k: int| 0 <= k < i ==> s@[k] == word@[k],
        decreases n - i,
    {
        if s.get_char(i) != word.get_char(i) {
            return false;
        }
        i = i + 1;
    }
    assert(s@ =~= word@);
    true
}

/// The position of the last animation whose key is `key`.
fn find_animation(anims: &Vec<Animation>, key: &str) -> (found: Option<usize>)
    ensures
        match found {
            Some(i) => key_index(anims@, key@) == Some(i as int),
            None => key_index(anims@, key@) is None,
        },
{
    let mut i = anims.len();
    assert(anims@.take(i as int) =~= anims@);
    while i > 0
        invariant
            i <= anims@.len(),
            key_index(anims@, key@) == key_index(anims@.take(i as int), key@),
        decreases i,
    {
        proof {
            assert(anims@.take(i as int).drop_last() =~= anims@.take(i - 1));
        }
        if text_equals(anims[i - 1].key.as_str(), key) {
            return Some(i - 1);
        }
        i = i - 1;
    }
    None
}

/// The facing a `setFacing` value asks for: `LEFT`, `RIGHT`, a coin toss for `RANDOM`,
/// and the current facing otherwise.
fn resolve_facing<R: Randomness>(set_facing: &Option<String>, current: Direction, rng: &mut R) -> (facing: Direction)
    ensures
        facing_allowed(*set_facing, current, facing),
{
    match set_facing {
        Some(s) => {
            if text_equals(s.as_str(), "LEFT") {
                Direction::Left
            } else if text_equals(s.as_str(), "RIGHT") {
                Direction::Right
            } else if text_equals(s.as_str(), "RANDOM") {
                if rng.coin() { Direction::Left } else { Direction::Right }
            } else {
                current
            }
        },
        None => current,
    }
}

/// Whether `kind` is one of `types`.
fn surface_type_listed(types: &Vec<SurfaceType>, kind: SurfaceType) -> (listed: bool)
    ensures
        listed == types@.contains(kind),
{
    let mut i: usize = 0;
    while i < types.len()
        invariant
            i <= types@.len(),
            forall|k: int| 0 <= k < i ==> types@[k] != kind,
        decreases types@.len() - i,
    {
        if types[i] == kind {
            assert(types@[i as int] == kind);
            return true;
        }
        i = i + 1;
    }
    false
}

/// Whether some choice is open at `level`.
fn any_open(choices: &Vec<ChoiceItem>, level: u8) -> (open: bool)
    ensures
        open == any_eligible(choices@, level),
{
    let mut i: usize = 0;
    while i < choices.len()
        invariant
            i <= choices@.len(),
            forall|k: int| 0 <= k < i ==> !eligible(#[trigger] choices@[k], level),
        decreases choices@.len() - i,
    {
        let open_here = match choices[i].min_level {
            Some(m) => level >= m,
            None => true,
        };
        if open_here {
            assert(eligible(choices@[i as int], level));
            return true;
        }
        i = i + 1;
    }
    false
}

/// The first border transition that fires on `edge` while facing `facing` at `level`.
fn find_firing_border(
    bts: &Vec<crate::format::animation::BorderTransition>,
    edge: Edge,
    facing: Direction,
    level: u8,
) -> (found: Option<usize>)
    ensures
        match found {
            Some(j) => first_firing_border(bts@, edge, facing, level, 0) == Some(j as int) && j < bts@.len(),
            None => first_firing_border(bts@, edge, facing, level, 0) is None,
        },
{
    let mut j: usize = 0;
    while j < bts.len()
        invariant
            j <= bts@.len(),
            first_firing_border(bts@, edge, facing, level, 0) == first_firing_border(bts@, edge, facing, level, j as int),
        decreases bts@.len() - j,
    {
        let bt = &bts[j];
        let facing_ok = match bt.facing {
            Some(f) => f == facing,
            None => true,
        };
        if bt.when == edge && facing_ok && any_open(&bt.choices, level) {
            return Some(j);
        }
        j = j + 1;
    }
    None
}

/// The first event rule that takes effect for `event`.
fn find_applying_event(
    rules: &Vec<crate::format::animation::EventRule>,
    event: EngineEventKind,
    current: &Animation,
    facing: Direction,
    surface: SurfaceContext,
    level: u8,
) -> (found: Option<usize>)
    ensures
        match found {
            Some(i) => first_applying_event(rules@, event, *current, facing, surface, level, 0) == Some(i as int)
                && i < rules@.len(),
            None => first_applying_event(rules@, event, *current, facing, surface, level, 0) is None,
        },
{
    let mut i: usize = 0;
    while i < rules.len()
        invariant
            i <= rules@.len(),
            first_applying_event(rules@, event, *current, facing, surface, level, 0)
                == first_applying_event(rules@, event, *current, facing, surface, level, i as int),
        decreases rules@.len() - i,
    {
        let rule = &rules[i];
        let mut applies = rule.event == event;
        if applies {
            applies = match &rule.from {
                Some(f) => text_equals(f.as_str(), "*") || text_equals(f.as_str(), current.key.as_str()),
                None => {
                    let level_ok = match rule.min_level {
                        Some(m) => level >= m,
                        None => true,
                    } && match rule.max_level {
                        Some(m) => level <= m,
                        None => true,
                    };
                    let type_ok = match &rule.allowed_types {
                        Some(types) => surface_type_listed(types, current.kind),
                        None => true,
                    };
                    level_ok && type_ok
                },
            };
        }
        if applies {
            applies = match rule.when {
                Some(w) => surface.edge_hit == Some(w),
                None => true,
            };
        }
        if applies {
            applies = match rule.facing {
                Some(f) => f == facing,
                None => true,
            };
        }
        if applies {
            applies = match &rule.choices {
                Some(choices) => any_open(choices, level),
                None => rule.to.is_some(),
            };
        }
        if applies {
            return Some(i);
        }
        i = i + 1;
    }
    None
}

/// Draws a tick from `low..=high`, or takes `low` when that range has at most one value.
fn draw_ticks<R: Randomness>(low: u32, high: u32, rng: &mut R) -> (t: u32)
    ensures
        drawn_in(t, low, high),
{
    if low >= high {
        low
    } else {
        let t = rng.range_inclusive(low, high);
        if t < low { low } else if t > high { high } else { t }
    }
}

impl<'a> StateMachine<'a> {
    /// Draws the current animation's timer targets and maximum duration.
    fn resolve_timers_for_current<R: Randomness>(&mut self, rng: &mut R)
        requires
            old(self).current < old(self).schema.animations@.len(),
        ensures
            final(self).schema == old(self).schema,
            final(self).current == old(self).current,
            final(self).frame_index == old(self).frame_index,
            final(self).frame_ticks_remaining == old(self).frame_ticks_remaining,
            final(self).ticks_in_animation == old(self).ticks_in_animation,
            final(self).facing == old(self).facing,
            timers_drawn(timer_rules(final(self).current_animation()), final(self).timers()),
            max_drawn(max_rule(final(self).current_animation()), final(self).max_duration()),
    {
        let schema: &'a AnimationSchema = self.schema;
        let anim = &schema.animations[self.current];
        let mut targets: Vec<TimerTarget> = Vec::new();
        let mut max_target: Option<u32> = None;
        match &anim.auto {
            None => {},
            Some(auto) => {
                let mut i: usize = 0;
                while i < auto.on_timer.len()
                    invariant
                        i <= auto.on_timer@.len(),
                        targets@.len() == i,
                        forall|k: int| 0 <= k < i ==> {
                            let t = #[trigger] targets@[k];
                            !t.resolved && drawn_in(t.tick, auto.on_timer@[k].min_ticks, auto.on_timer@[k].max_ticks)
                        },
                    decreases auto.on_timer@.len() - i,
                {
                    let rule = &auto.on_timer[i];
                    let tick = draw_ticks(rule.min_ticks, rule.max_ticks, rng);
                    targets.push(TimerTarget { tick, resolved: false });
                    i = i + 1;
                }
                max_target = match &auto.max_duration_ticks {
                    None => None,
                    Some(MaxDurationTicks::Fixed(t)) => Some(*t),
                    Some(MaxDurationTicks::Range { min_ticks, max_ticks }) => Some(draw_ticks(*min_ticks, *max_ticks, rng)),
                };
            },
        }
        self.timer_targets = targets;
        self.max_duration_target = max_target;
        assert(timers_drawn(timer_rules(self.current_animation()), self.timers()));
    }

    /// Switches to animation `index` with the given facing, starting from its first frame.
    fn enter_animation<R: Randomness>(&mut self, index: usize, facing: Direction, rng: &mut R)
        requires
            schema_wf(*old(self).schema),
            index < old(self).schema.animations@.len(),
            old(self).schema.animations@[index as int].frames@.len() > 0,
        ensures
            final(self).wf(),
            final(self).schema == old(self).schema,
            final(self).entered(index as int, facing),
    {
        self.current = index;
        self.frame_index = 0;
        self.frame_ticks_remaining = self.schema.animations[index].frames[0].duration_ticks;
        self.ticks_in_animation = 0;
        self.facing = facing;
        self.resolve_timers_for_current(rng);
    }

    /// Starts on the schema's default animation, facing that animation's direction. The
    /// schema need only name its default animation and give it a frame; the machine can be
    /// run (it is well formed) when the whole schema is well formed, as a validated bundle's
    /// is.
    pub fn new<R: Randomness>(schema: &'a AnimationSchema, rng: &mut R) -> (sm: Self)
        requires
            key_known(schema.animations@, schema.default_animation@),
        ensures
            schema_wf(*schema) ==> sm.wf(),
            sm.schema_spec() == *schema,
            sm.entered(
                key_index(schema.animations@, schema.default_animation@)->0,
                schema.animations@[key_index(schema.animations@, schema.default_animation@)->0].direction,
            ),
    {
        proof { lemma_key_index_bounds(schema.animations@, schema.default_animation@); }
        let current = match find_animation(&schema.animations, schema.default_animation.as_str()) {
            Some(i) => i,
            None => {
                assert(false);
                0
            },
        };
        let first = &schema.animations[current];
        let mut sm = StateMachine {
            schema,
            current,
            frame_index: 0,
            frame_ticks_remaining: first.frames[0].duration_ticks,
            ticks_in_animation: 0,
            facing: first.direction,
            timer_targets: Vec::new(),
            max_duration_target: None,
        };
        sm.resolve_timers_for_current(rng);
        sm
    }

    /// Switches to the animation named `key`, keeping the current facing.
    pub fn force_animation<R: Randomness>(&mut self, key: &str, rng: &mut R)
        requires
            old(self).wf(),
            key_known(old(self).schema_spec().animations@, key@),
        ensures
            final(self).wf(),
            final(self).schema_spec() == old(self).schema_spec(),
            final(self).entered(key_index(old(self).schema_spec().animations@, key@)->0, old(self).facing_spec()),
    {
        proof { lemma_key_index_bounds(self.schema.animations@, key@); }
        let index = match find_animation(&self.schema.animations, key) {
            Some(i) => i,
            None => {
                assert(false);
                0
            },
        };
        let facing = self.facing;
        self.enter_animation(index, facing, rng);
    }

    fn frame_output(&self, changed_animation: bool) -> (out: StepOutput)
        requires
            self.wf(),
        ensures
            out == self.frame_output_spec(changed_animation),
    {
        let frame = self.schema.animations[self.current].frames[self.frame_index];
        StepOutput { sprite_index: frame.sprite, dx: frame.dx, dy: frame.dy, changed_animation }
    }

    /// Enters one of `choices` (which must all name known animations), picked at `level`.
    /// Returns whether a choice was open.
    fn take_choice<R: Randomness>(&mut self, choices: &Vec<ChoiceItem>, level: u8, rng: &mut R) -> (taken: bool)
        requires
            old(self).wf(),
            choices_known(old(self).schema_spec().animations@, choices@),
        ensures
            final(self).wf(),
            final(self).schema_spec() == old(self).schema_spec(),
            taken == any_eligible(choices@, level),
            taken ==> final(self).entered_choice(choices@, level, old(self).facing_spec()),
            !taken ==> *final(self) == *old(self),
    {
        match pick_weighted(choices.as_slice(), level, rng) {
            Some(choice) => {
                let facing = resolve_facing(&choice.set_facing, self.facing, rng);
                let ghost k = choose|k: int| 0 <= k < choices@.len() && eligible(choices@[k], level) && *choice == #[trigger] choices@[k];
                assert(key_known(self.schema.animations@, choices@[k].to@));
                proof { lemma_key_index_bounds(self.schema.animations@, choice.to@); }
                let index = match find_animation(&self.schema.animations, choice.to.as_str()) {
                    Some(i) => i,
                    None => {
                        assert(false);
                        0
                    },
                };
                let old_facing = self.facing;
                self.enter_animation(index, facing, rng);
                assert(self.entered(key_index(self.schema_spec().animations@, choices@[k].to@)->0, self.facing_spec()));
                assert(facing_allowed(choices@[k].set_facing, old_facing, self.facing_spec()));
                true
            },
            None => false,
        }
    }

    /// Moves to the next frame, wraps a looping animation, or, when a oneshot has
    /// finished, takes one of its finishing choices (all are open at any level).
    fn advance_frame<R: Randomness>(&mut self, rng: &mut R)
        requires
            old(self).wf(),
            old(self).frame_ticks_left() <= 1,
        ensures
            final(self).wf(),
            final(self).schema_spec() == old(self).schema_spec(),
            !finishes_into_choice(old(self).current_animation(), old(self).frame_position(), old(self).frame_ticks_left()) ==> {
                let (frame, left) = frame_after_tick(old(self).current_animation(), old(self).frame_position(), old(self).frame_ticks_left());
                &&& final(self).current_index() == old(self).current_index()
                &&& final(self).frame_position() == frame
                &&& final(self).frame_ticks_left() == left
                &&& final(self).ticks() == old(self).ticks()
                &&& final(self).facing_spec() == old(self).facing_spec()
                &&& final(self).timers() == old(self).timers()
                &&& final(self).max_duration() == old(self).max_duration()
            },
            finishes_into_choice(old(self).current_animation(), old(self).frame_position(), old(self).frame_ticks_left()) ==>
                final(self).frame_position() == 0 && final(self).ticks() == 0 && final(self).entered_choice(
                    finish_choices_of(old(self).current_animation()),
                    u8::MAX,
                    old(self).facing_spec(),
                ),
    {
        let schema: &'a AnimationSchema = self.schema;
        let anim = &schema.animations[self.current];
        assert(anim.frames@.len() > 0);
        if self.frame_index < anim.frames.len() - 1 {
            self.frame_index = self.frame_index + 1;
            self.frame_ticks_remaining = anim.frames[self.frame_index].duration_ticks;
        } else if anim.loop_mode == LoopMode::Loop {
            self.frame_index = 0;
            self.frame_ticks_remaining = anim.frames[0].duration_ticks;
        } else {
            match &anim.auto {
                None => {},
                Some(auto) => {
                    if auto.on_finish.len() > 0 {
                        assert(animation_targets_known(schema.animations@, schema.animations@[self.current as int]));
                        assert(eligible(auto.on_finish@[0], u8::MAX));
                        let taken = self.take_choice(&auto.on_finish, u8::MAX, rng);
                    }
                },
            }
        }
    }

    /// Plays one tick: fires a border transition when the surface reports a matching edge,
    /// otherwise counts the frame down (finishing a oneshot into one of its choices), then
    /// fires due timers (each with its rule's chance) and the maximum duration.
    pub fn step<R: Randomness>(&mut self, surface: SurfaceContext, level: u8, rng: &mut R) -> (out: StepOutput)
        requires
            old(self).wf(),
        ensures
            final(self).wf(),
            final(self).schema_spec() == old(self).schema_spec(),
            old(self).border_firing(surface, level) matches Some(j) ==> {
                &&& final(self).entered_choice(
                    old(self).current_animation().border_transitions@[j].choices@,
                    level,
                    old(self).facing_spec(),
                )
                &&& out == final(self).frame_output_spec(true)
            },
            old(self).border_firing(surface, level) is None ==> {
                &&& out.dx == old(self).current_frame().dx
                &&& out.dy == old(self).current_frame().dy
                &&& !out.changed_animation ==> out.sprite_index == old(self).current_frame().sprite
                &&& out.changed_animation ==> final(self).frame_position() == 0 && final(self).ticks() == 0
                    && out.sprite_index == final(self).current_frame().sprite
            },
            old(self).quiet_tick(surface, level) ==> final(self).ticked_from(old(self))
                && out == old(self).frame_output_spec(false),
            old(self).max_duration_ends(surface, level) ==> out.changed_animation && final(self).entered(
                key_index(old(self).schema_spec().animations@, old(self).schema_spec().default_animation@)->0,
                old(self).facing_spec(),
            ),
            old(self).border_firing(surface, level) is None ==> exists|mid: StateMachine<'a>|
                #[trigger] mid.advanced_from(old(self)) && mid.wf() && mid.schema_spec() == old(self).schema_spec()
                    && final(self).timers_settled(&mid, out.changed_animation, level),
    {
        let ghost s0 = *self;
        let schema: &'a AnimationSchema = self.schema;
        if let Some(edge) = surface.edge_hit {
            let bts = &schema.animations[self.current].border_transitions;
            if let Some(j) = find_firing_border(bts, edge, self.facing, level) {
                proof {
                    lemma_first_firing_border_fires(bts@, edge, self.facing, level, 0);
                    assert(animation_targets_known(schema.animations@, schema.animations@[self.current as int]));
                    assert(choices_known(schema.animations@, bts@[j as int].choices@));
                }
                let taken = self.take_choice(&bts[j].choices, level, rng);
                return self.frame_output(true);
            }
        }
        assert(s0.border_firing(surface, level) is None);

        let frame = schema.animations[self.current].frames[self.frame_index];
        let dx = frame.dx;
        let dy = frame.dy;

        self.ticks_in_animation = self.ticks_in_animation.saturating_add(1);
        if self.frame_ticks_remaining > 1 {
            self.frame_ticks_remaining = self.frame_ticks_remaining - 1;
        } else {
            self.advance_frame(rng);
        }

        let ghost s1 = *self;
        assert(s1.timers() =~= timers_marked(s1.timers(), 0, s1.ticks()));
        if schema.animations[self.current].auto.is_some() {
            let ticks = self.ticks_in_animation;
            let n = self.timer_targets.len();
            let mut fired: Option<usize> = None;
            let mut i: usize = 0;
            while i < n && fired.is_none()
                invariant
                    s1.wf(),
                    self.wf(),
                    schema == s1.schema,
                    self.schema == s1.schema,
                    self.current == s1.current,
                    self.frame_index == s1.frame_index,
                    self.frame_ticks_remaining == s1.frame_ticks_remaining,
                    self.ticks_in_animation == ticks,
                    s1.ticks_in_animation == ticks,
                    self.facing == s1.facing,
                    self.max_duration_target == s1.max_duration_target,
                    n == self.timer_targets@.len(),
                    n == s1.timer_targets@.len(),
                    i <= n,
                    !timer_due(s1.timers(), ticks) ==> self.timers() == s1.timers() && fired is None,
                    schema.animations@[self.current as int].auto is Some,
                    fired matches Some(k) ==> k < n && any_eligible(
                        timer_rules(schema.animations@[self.current as int])[k as int].choices@,
                        level,
                    ) && !s1.timers()[k as int].1 && ticks >= s1.timers()[k as int].0,
                    self.timers() == timers_marked(s1.timers(), i as int, ticks),
                decreases n - i,
            {
                let tick = self.timer_targets[i].tick;
                let resolved = self.timer_targets[i].resolved;
                let ghost marked_before = self.timers();
                proof {
                    assert(self.timers()[i as int] == (tick, resolved));
                    assert(s1.timers()[i as int] == marked_before[i as int]);
                }
                if !resolved && ticks >= tick {
                    proof {
                        assert(self.timers()[i as int] == (tick, resolved));
                        if self.timers() == s1.timers() {
                            assert(timer_due(s1.timers(), ticks));
                        }
                    }
                    self.timer_targets.set(i, TimerTarget { tick, resolved: true });
                    assert(self.timers() =~= marked_before.update(i as int, (tick, true)));
                    if let Some(auto) = &schema.animations[self.current].auto {
                        let rule = &auto.on_timer[i];
                        if rng.chance(rule.chance_bits) && any_open(&rule.choices, level) {
                            fired = Some(i);
                        }
                    }
                }
                assert(self.timers() =~= timers_marked(s1.timers(), i + 1, ticks));
                i = i + 1;
            }
            if let Some(k) = fired {
                if let Some(auto) = &schema.animations[self.current].auto {
                    proof {
                        assert(animation_targets_known(schema.animations@, schema.animations@[self.current as int]));
                        assert(choices_known(schema.animations@, auto.on_timer@[k as int].choices@));
                    }
                    let taken = self.take_choice(&auto.on_timer[k].choices, level, rng);
                    proof {
                        assert(timer_rules(s1.current_animation())[k as int] == auto.on_timer@[k as int]);
                        assert(self.timers_settled(&s1, true, level));
                        assert(s1.advanced_from(&s0));
                    }
                    let first = schema.animations[self.current].frames[0];
                    return StepOutput { sprite_index: first.sprite, dx, dy, changed_animation: true };
                }
            }
            if let Some(max) = self.max_duration_target {
                if self.ticks_in_animation >= max {
                    proof { lemma_key_index_bounds(schema.animations@, schema.default_animation@); }
                    let index = match find_animation(&schema.animations, schema.default_animation.as_str()) {
                        Some(k) => k,
                        None => {
                            assert(false);
                            0
                        },
                    };
                    let facing = self.facing;
                    self.enter_animation(index, facing, rng);
                    proof {
                        assert(self.timers_settled(&s1, true, level));
                        assert(s1.advanced_from(&s0));
                    }
                    let first = schema.animations[self.current].frames[0];
                    return StepOutput { sprite_index: first.sprite, dx, dy, changed_animation: true };
                }
            }
        }
        proof {
            assert(self.timers_settled(&s1, false, level));
            assert(s1.advanced_from(&s0));
        }
        StepOutput { sprite_index: frame.sprite, dx, dy, changed_animation: false }
    }

    /// Reacts to an engine event: the first rule for this event whose conditions hold and
    /// that has somewhere to go moves the machine there. Returns whether one did.
    pub fn apply_event<R: Randomness>(
        &mut self,
        event: EngineEventKind,
        surface: SurfaceContext,
        level: u8,
        rng: &mut R,
    ) -> (changed: bool)
        requires
            old(self).wf(),
        ensures
            final(self).wf(),
            final(self).schema_spec() == old(self).schema_spec(),
            changed == first_applying_event(
                old(self).schema_spec().events@, event, old(self).current_animation(),
                old(self).facing_spec(), surface, level, 0,
            ) is Some,
            !changed ==> *final(self) == *old(self),
            first_applying_event(
                old(self).schema_spec().events@, event, old(self).current_animation(),
                old(self).facing_spec(), surface, level, 0,
            ) matches Some(r) ==> {
                let rule = old(self).schema_spec().events@[r];
                match rule.choices {
                    Some(cs) => final(self).entered_choice(cs@, level, old(self).facing_spec()),
                    None => final(self).entered(
                        key_index(old(self).schema_spec().animations@, rule.to->0@)->0,
                        final(self).facing_spec(),
                    ) && facing_allowed(rule.set_facing, old(self).facing_spec(), final(self).facing_spec()),
                }
            },
    {
        let schema: &'a AnimationSchema = self.schema;
        let current = &schema.animations[self.current];
        match find_applying_event(&schema.events, event, current, self.facing, surface, level) {
            None => false,
            Some(i) => {
                let rule = &schema.events[i];
                proof {
                    assert(event_targets_known(schema.animations@, schema.events@[i as int]));
                    lemma_first_applying_event_applies(schema.events@, event, *current, self.facing, surface, level, 0);
                }
                match &rule.choices {
                    Some(choices) => {
                        let taken = self.take_choice(choices, level, rng);
                        true
                    },
                    None => match &rule.to {
                        Some(to) => {
                            let facing = resolve_facing(&rule.set_facing, self.facing, rng);
                            proof { lemma_key_index_bounds(schema.animations@, to@); }
                            let index = match find_animation(&schema.animations, to.as_str()) {
                                Some(k) => k,
                                None => {
                                    assert(false);
                                    0
                                },
                            };
                            self.enter_animation(index, facing, rng);
                            true
                        },
                        None => {
                            assert(false);
                            false
                        },
                    },
                }
            },
        }
    }

    /// The key of the animation being played.
    pub fn current_key(&self) -> (key: &str)
        requires
            self.wf(),
        ensures
            key@ == self.current_animation().key@,
    {
        self.schema.animations[self.current].key.as_str()
    }

    /// The movement the current frame applies on the next tick that fires no border
    /// transition (what `step` then reports as its `dx` and `dy`).
    pub fn pending_movement(&self) -> (movement: (i32, i32))
        requires
            self.wf(),
        ensures
            movement == (self.current_frame().dx, self.current_frame().dy),
    {
        let frame = self.schema.animations[self.current].frames[self.frame_index];
        (frame.dx, frame.dy)
    }

    /// The sprite of the frame being shown.
    pub fn current_sprite(&self) -> (sprite: u32)
        requires
            self.wf(),
        ensures
            sprite == self.current_frame().sprite,
    {
        self.schema.animations[self.current].frames[self.frame_index].sprite
    }

    /// The direction the mascot faces.
    pub fn facing(&self) -> (facing: Direction)
        ensures
            facing == self.facing_spec(),
    {
        self.facing
    }

    /// The surface type of the animation being played.
    pub fn current_kind(&self) -> (kind: SurfaceType)
        requires
            self.wf(),
        ensures
            kind == self.current_animation().kind,
    {
        self.schema.animations[self.current].kind
    }
}

proof fn lemma_first_firing_border_fires(
    bts: Seq<crate::format::animation::BorderTransition>,
    edge: Edge,
    facing: Direction,
    level: u8,
    from: int,
)
    ensures
        first_firing_border(bts, edge, facing, level, from) matches Some(j)
            ==> from <= j < bts.len() && border_fires(bts[j], edge, facing, level),
    decreases bts.len() - from,
{
    if 0 <= from < bts.len() && !border_fires(bts[from], edge, facing, level) {
        lemma_first_firing_border_fires(bts, edge, facing, level, from + 1);
    }
}

proof fn lemma_first_applying_event_applies(
    rules: Seq<crate::format::animation::EventRule>,
    event: EngineEventKind,
    current: Animation,
    facing: Direction,
    surface: SurfaceContext,
    level: u8,
    from: int,
)
    ensures
        first_applying_event(rules, event, current, facing, surface, level, from) matches Some(i)
            ==> from <= i < rules.len() && event_rule_applies(rules[i], event, current, facing, surface, level),
    decreases rules.len() - from,
{
    if 0 <= from < rules.len() && !event_rule_applies(rules[from], event, current, facing, surface, level) {
        lemma_first_applying_event_applies(rules, event, current, facing, surface, level, from + 1);
    }
}

proof fn lemma_key_index_bounds(anims: Seq<Animation>, key: Seq<char>)
    ensures
        key_index(anims, key) matches Some(i) ==> 0 <= i < anims.len() && anims[i].key@ == key,
    decreases anims.len(),
{
    if anims.len() > 0 && anims.last().key@ != key {
        lemma_key_index_bounds(anims.drop_last(), key);
    }
}

/// Whether `key` names an animation of `anims` that has a frame.
fn key_enterable(anims: &Vec<Animation>, key: &str) -> (ok: bool)
    ensures
        ok == key_known(anims@, key@),
{
    proof { lemma_key_index_bounds(anims@, key@); }
    match find_animation(anims, key) {
        Some(i) => anims[i].frames.len() > 0,
        None => false,
    }
}

/// Whether every choice names an animation that has a frame.
fn choices_enterable(anims: &Vec<Animation>, choices: &Vec<ChoiceItem>) -> (ok: bool)
    ensures
        ok == choices_known(anims@, choices@),
{
    let mut i: usize = 0;
    while i < choices.len()
        invariant
            i <= choices@.len(),
            forall|j: int| 0 <= j < i ==> key_known(anims@, (#[trigger] choices@[j]).to@),
        decreases choices@.len() - i,
    {
        if !key_enterable(anims, choices[i].to.as_str()) {
            return false;
        }
        i = i + 1;
    }
    true
}

/// Whether every rule that leaves `a` names an animation that has a frame.
fn animation_enterable(anims: &Vec<Animation>, a: &Animation) -> (ok: bool)
    ensures
        ok == animation_targets_known(anims@, *a),
{
    if let Some(auto) = &a.auto {
        if !choices_enterable(anims, &auto.on_finish) {
            return false;
        }
        let mut j: usize = 0;
        while j < auto.on_timer.len()
            invariant
                a.auto == Some(*auto),
                j <= auto.on_timer@.len(),
                forall|k: int| 0 <= k < j ==> choices_known(anims@, (#[trigger] auto.on_timer@[k]).choices@),
            decreases auto.on_timer@.len() - j,
        {
            if !choices_enterable(anims, &auto.on_timer[j].choices) {
                assert(!choices_known(anims@, auto.on_timer@[j as int].choices@));
                return false;
            }
            j = j + 1;
        }
    }
    let mut j: usize = 0;
    while j < a.border_transitions.len()
        invariant
            j <= a.border_transitions@.len(),
            forall|k: int| 0 <= k < j ==> choices_known(anims@, (#[trigger] a.border_transitions@[k]).choices@),
        decreases a.border_transitions@.len() - j,
    {
        if !choices_enterable(anims, &a.border_transitions[j].choices) {
            return false;
        }
        j = j + 1;
    }
    true
}

/// Whether the event rule's targets name animations that have a frame.
fn event_enterable(anims: &Vec<Animation>, e: &crate::format::animation::EventRule) -> (ok: bool)
    ensures
        ok == event_targets_known(anims@, *e),
{
    let to_ok = match &e.to {
        Some(t) => key_enterable(anims, t.as_str()),
        None => true,
    };
    let choices_ok = match &e.choices {
        Some(cs) => choices_enterable(anims, cs),
        None => true,
    };
    to_ok && choices_ok
}

/// Whether the engine can run `schema` (see `schema_wf`): every key it names, as its
/// default animation, in a transition or in an event, names an animation with a frame.
pub fn schema_runnable(schema: &AnimationSchema) -> (ok: bool)
    ensures
        ok == schema_wf(*schema),
{
    if !key_enterable(&schema.animations, schema.default_animation.as_str()) {
        return false;
    }
    let mut i: usize = 0;
    while i < schema.animations.len()
        invariant
            i <= schema.animations@.len(),
            forall|k: int| 0 <= k < i ==> animation_targets_known(schema.animations@, #[trigger] schema.animations@[k]),
        decreases schema.animations@.len() - i,
    {
        if !animation_enterable(&schema.animations, &schema.animations[i]) {
            return false;
        }
        i = i + 1;
    }
    let mut i: usize = 0;
    while i < schema.events.len()
        invariant
            i <= schema.events@.len(),
            forall|k: int| 0 <= k < i ==> event_targets_known(schema.animations@, #[trigger] schema.events@[k]),
        decreases schema.events@.len() - i,
    {
        if !event_enterable(&schema.animations, &schema.events[i]) {
            return false;
        }
        i = i + 1;
    }
    true
}

/// A machine that has just entered the animation named `key` (as `new`, `force_animation`,
/// a transition or an event leave it) reports `key` as its current key.
pub proof fn lemma_entered_animation_has_its_key(sm: StateMachine, key: Seq<char>, facing: Direction)
    requires
        key_index(sm.schema_spec().animations@, key) is Some,
        sm.entered(key_index(sm.schema_spec().animations@, key)->0, facing),
    ensures
        sm.current_animation().key@ == key,
{
    lemma_key_index_bounds(sm.schema_spec().animations@, key);
}

/// When several animations share a key, the key names the last of them: lookups by key
/// land on an animation with that key, and no later one has it.
pub proof fn lemma_key_lookup_takes_the_last_duplicate(anims: Seq<Animation>, key: Seq<char>)
    requires
        key_index(anims, key) is Some,
    ensures
        anims[key_index(anims, key)->0].key@ == key,
        forall|i: int| key_index(anims, key)->0 < i < anims.len() ==> (#[trigger] anims[i]).key@ != key,
    decreases anims.len(),
{
    lemma_key_index_bounds(anims, key);
    if anims.last().key@ != key {
        lemma_key_lookup_takes_the_last_duplicate(anims.drop_last(), key);
        assert forall|i: int| key_index(anims, key)->0 < i < anims.len() implies (#[trigger] anims[i]).key@ != key by {
            if i < anims.len() - 1 {
                assert(anims[i] == anims.drop_last()[i]);
            }
        }
    }
}

} // verus!
