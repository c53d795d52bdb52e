use shimeji::format::animation::{
    Animation, AnimationSchema, AutoBehavior, BorderTransition, ChoiceItem, Direction, Edge, EngineEventKind, EventRule,
    Frame, LoopMode, MaxDurationTicks, SurfaceType, TimerRule,
};
use rand::rngs::StdRng;
use rand::{RngExt, SeedableRng};
use shimeji::state_machine::weighted::{choice_for_draw, pick_weighted, weights_for_draw};
use shimeji::state_machine::{schema_runnable, Randomness, StateMachine, SurfaceContext, SurfaceKind};

/// Always takes the first choice, every chance, heads, and the low end of every range.
struct Predictable;

impl Randomness for Predictable {
    fn pick_weighted(&mut self, _weights: &Vec<u64>) -> usize {
        0
    }
    fn chance(&mut self, probability_bits: u64) -> bool {
        f64::from_bits(probability_bits) > 0.0
    }
    fn coin(&mut self) -> bool {
        true
    }
    fn range_inclusive(&mut self, low: u32, _high: u32) -> u32 {
        low
    }
}

fn choice(to: &str, weight: f64, min_level: Option<u8>) -> ChoiceItem {
    ChoiceItem { to: to.to_string(), weight_bits: weight.to_bits(), set_facing: None, min_level }
}

fn frame(sprite: u32, dx: i32, dy: i32, duration_ticks: u32) -> Frame {
    Frame { sprite, dx, dy, duration_ticks }
}

fn animation(key: &str, kind: SurfaceType, loop_mode: LoopMode, direction: Direction, frames: Vec<Frame>) -> Animation {
    Animation {
        key: key.to_string(),
        kind,
        subtype: String::new(),
        level: 1,
        loop_mode,
        direction,
        frames,
        auto: None,
        border_transitions: Vec::new(),
        event_transitions: Vec::new(),
    }
}

fn event(event: EngineEventKind, from: Option<&str>, to: Option<&str>) -> EventRule {
    EventRule {
        event,
        from: from.map(str::to_string),
        when: None,
        facing: None,
        to: to.map(str::to_string),
        set_facing: None,
        choices: None,
        min_level: None,
        max_level: None,
        allowed_types: None,
    }
}

fn schema() -> AnimationSchema {
    let mut fall = animation("fall", SurfaceType::Air, LoopMode::Loop, Direction::Any, vec![frame(0, 0, 15, 20)]);
    fall.border_transitions = vec![BorderTransition {
        when: Edge::Bottom,
        facing: None,
        choices: vec![choice("bounce_left", 1.0, None), choice("bounce_right", 1.0, None)],
    }];
    let mut bounce_left =
        animation("bounce_left", SurfaceType::Ground, LoopMode::Oneshot, Direction::Left, vec![frame(17, 0, 0, 8), frame(18, 0, 0, 8)]);
    bounce_left.auto = Some(AutoBehavior {
        on_finish: vec![choice("walk_left", 1.0, None), choice("walk_right", 1.0, None)],
        on_timer: Vec::new(),
        max_duration_ticks: None,
    });
    let bounce_right =
        animation("bounce_right", SurfaceType::Ground, LoopMode::Oneshot, Direction::Right, vec![frame(17, 0, 0, 8), frame(18, 0, 0, 8)]);
    let mut walk_left = animation(
        "walk_left",
        SurfaceType::Ground,
        LoopMode::Loop,
        Direction::Left,
        vec![frame(3, -2, 0, 6), frame(4, -2, 0, 6), frame(5, -2, 0, 6), frame(6, -2, 0, 6)],
    );
    walk_left.auto = Some(AutoBehavior {
        on_finish: Vec::new(),
        on_timer: vec![TimerRule { choices: vec![choice("walk_right", 1.0, None)], min_ticks: 96, max_ticks: 96, chance_bits: 0.0f64.to_bits() }],
        max_duration_ticks: Some(MaxDurationTicks::Fixed(100)),
    });
    walk_left.border_transitions = vec![BorderTransition {
        when: Edge::Left,
        facing: None,
        choices: vec![choice("climb_left", 1.0, Some(3)), choice("walk_right", 1.0, None)],
    }];
    let walk_right = animation("walk_right", SurfaceType::Ground, LoopMode::Loop, Direction::Right, vec![frame(3, 2, 0, 6)]);
    let climb_left = animation("climb_left", SurfaceType::Wall, LoopMode::Loop, Direction::Left, vec![frame(10, 0, -2, 6)]);
    let drag = animation("drag", SurfaceType::User, LoopMode::Loop, Direction::Any, vec![frame(9, 0, 0, 8)]);
    let mut drag_start = event(EngineEventKind::DragStart, Some("*"), Some("drag"));
    drag_start.set_facing = Some("RANDOM".to_string());
    let mut tap_ground = event(EngineEventKind::Tap, None, None);
    tap_ground.min_level = Some(4);
    tap_ground.allowed_types = Some(vec![SurfaceType::Ground]);
    tap_ground.choices = Some(vec![choice("climb_left", 1.0, None)]);
    AnimationSchema {
        schema_id: "legacy_default_v1".to_string(),
        version: 1,
        default_animation: "fall".to_string(),
        initial_candidates: vec!["fall".to_string()],
        animations: vec![fall, bounce_left, bounce_right, walk_left, walk_right, climb_left, drag],
        events: vec![drag_start, tap_ground],
    }
}

fn no_edge() -> SurfaceContext {
    SurfaceContext { kind: SurfaceKind::Ground, edge_hit: None, floor_y: 0, ceiling_y: 0 }
}

#[test]
fn starts_on_the_default_animation() {
    let schema = schema();
    let sm = StateMachine::new(&schema, &mut Predictable);
    assert_eq!(sm.current_key(), "fall");
}

#[test]
fn oneshot_animation_advances_frames_by_duration_ticks() {
    let schema = schema();
    let mut rng = Predictable;
    let mut sm = StateMachine::new(&schema, &mut rng);
    sm.force_animation("bounce_left", &mut rng);

    let out1 = sm.step(no_edge(), 4, &mut rng);
    assert_eq!(out1.sprite_index, 17);
    for _ in 0..7 {
        sm.step(no_edge(), 4, &mut rng);
    }
    // after 8 ticks total, frame 2 (sprite 18) should be current
    let out_after_frame1 = sm.step(no_edge(), 4, &mut rng);
    assert_eq!(out_after_frame1.sprite_index, 18);
}

#[test]
fn oneshot_animation_transitions_on_finish() {
    let schema = schema();
    let mut rng = Predictable;
    let mut sm = StateMachine::new(&schema, &mut rng);
    sm.force_animation("bounce_left", &mut rng);

    // bounce_left = 8 + 8 = 16 ticks total before onFinish fires.
    for _ in 0..16 {
        sm.step(no_edge(), 4, &mut rng);
    }
    assert!(sm.current_key() == "walk_left" || sm.current_key() == "walk_right");
}

#[test]
fn border_transition_fires_immediately_on_edge_hit() {
    let schema = schema();
    let mut rng = Predictable;
    let mut sm = StateMachine::new(&schema, &mut rng);
    sm.force_animation("walk_left", &mut rng);

    let hit_left = SurfaceContext { kind: SurfaceKind::Ground, edge_hit: Some(Edge::Left), floor_y: 0, ceiling_y: 0 };
    let out = sm.step(hit_left, 4, &mut rng);
    assert!(sm.current_key() == "climb_left" || sm.current_key() == "walk_right");
    assert!(out.changed_animation);
}

#[test]
fn border_choices_below_the_level_are_skipped() {
    let schema = schema();
    let mut rng = Predictable;
    let mut sm = StateMachine::new(&schema, &mut rng);
    sm.force_animation("walk_left", &mut rng);
    let hit_left = SurfaceContext { kind: SurfaceKind::Ground, edge_hit: Some(Edge::Left), floor_y: 0, ceiling_y: 0 };
    sm.step(hit_left, 1, &mut rng);
    assert_eq!(sm.current_key(), "walk_right");
}

#[test]
fn looping_animation_wraps_and_reports_each_frames_movement() {
    let schema = schema();
    let mut rng = Predictable;
    let mut sm = StateMachine::new(&schema, &mut rng);
    sm.force_animation("walk_left", &mut rng);
    let mut sprites = Vec::new();
    for _ in 0..30 {
        let out = sm.step(no_edge(), 4, &mut rng);
        assert_eq!((out.dx, out.dy), (-2, 0));
        assert!(!out.changed_animation);
        sprites.push(out.sprite_index);
    }
    assert_eq!(&sprites[0..6], &[3, 3, 3, 3, 3, 3]);
    assert_eq!(sprites[6], 4);
    assert_eq!(sprites[24], 3);
}

#[test]
fn maximum_duration_returns_to_the_default_animation() {
    let schema = schema();
    let mut rng = Predictable;
    let mut sm = StateMachine::new(&schema, &mut rng);
    sm.force_animation("walk_left", &mut rng);
    let mut changed_at = None;
    for tick in 1..=100 {
        if sm.step(no_edge(), 4, &mut rng).changed_animation {
            changed_at = Some(tick);
            break;
        }
    }
    // The 96-tick timer never fires (chance 0), so the 100-tick limit ends the walk.
    assert_eq!(changed_at, Some(100));
    assert_eq!(sm.current_key(), "fall");
}

#[test]
fn drag_start_switches_to_drag_from_any_animation() {
    let schema = schema();
    let mut rng = Predictable;
    let mut sm = StateMachine::new(&schema, &mut rng);
    sm.force_animation("walk_left", &mut rng);
    assert!(sm.apply_event(EngineEventKind::DragStart, no_edge(), 4, &mut rng));
    assert_eq!(sm.current_key(), "drag");
    assert_eq!(sm.facing(), Direction::Left);
}

#[test]
fn tap_at_level_one_has_no_matching_rule() {
    let schema = schema();
    let mut rng = Predictable;
    let mut sm = StateMachine::new(&schema, &mut rng);
    sm.force_animation("walk_left", &mut rng);
    assert!(!sm.apply_event(EngineEventKind::Tap, no_edge(), 1, &mut rng));
    assert_eq!(sm.current_key(), "walk_left");
}

#[test]
fn tap_at_level_four_on_ground_picks_a_response() {
    let schema = schema();
    let mut rng = Predictable;
    let mut sm = StateMachine::new(&schema, &mut rng);
    sm.force_animation("walk_left", &mut rng);
    assert_eq!(sm.current_kind(), SurfaceType::Ground);
    assert!(sm.apply_event(EngineEventKind::Tap, no_edge(), 4, &mut rng));
    assert_eq!(sm.current_key(), "climb_left");
}

#[test]
fn filters_out_choices_below_the_current_level() {
    let choices = vec![choice("a", 1.0, Some(3)), choice("b", 1.0, None)];
    let mut rng = Predictable;
    for _ in 0..20 {
        let picked = pick_weighted(&choices, 1, &mut rng).unwrap();
        assert_eq!(picked.to, "b");
    }
}

#[test]
fn returns_none_when_no_choice_is_eligible() {
    let choices = vec![choice("a", 1.0, Some(3))];
    let mut rng = Predictable;
    assert!(pick_weighted(&choices, 1, &mut rng).is_none());
}

/// Answers every pick with an index past the end.
struct Overshooting;

impl Randomness for Overshooting {
    fn pick_weighted(&mut self, weights: &Vec<u64>) -> usize {
        weights.len() + 5
    }
    fn chance(&mut self, _probability_bits: u64) -> bool {
        true
    }
    fn coin(&mut self) -> bool {
        false
    }
    fn range_inclusive(&mut self, _low: u32, high: u32) -> u32 {
        high + 1000
    }
}

#[test]
fn an_overshooting_pick_falls_back_to_the_last_open_choice() {
    let choices = vec![choice("a", 1.0, None), choice("b", 1.0, None), choice("c", 1.0, Some(9))];
    assert_eq!(pick_weighted(&choices, 1, &mut Overshooting).unwrap().to, "b");
}

#[test]
fn reports_the_shown_frames_movement_and_sprite() {
    let schema = schema();
    let mut rng = Predictable;
    let mut sm = StateMachine::new(&schema, &mut rng);
    assert_eq!(sm.pending_movement(), (0, 15));
    assert_eq!(sm.current_sprite(), 0);
    let landed = SurfaceContext { kind: SurfaceKind::Air, edge_hit: Some(Edge::Bottom), floor_y: 0, ceiling_y: 0 };
    let out = sm.step(landed, 1, &mut rng);
    assert!(out.changed_animation);
    assert_eq!(sm.current_key(), "bounce_left");
    assert_eq!(sm.pending_movement(), (0, 0));
    assert_eq!(sm.current_sprite(), 17);
    assert_eq!(out.sprite_index, sm.current_sprite());
}

/// Draws with a seeded generator, proportionally to the weights.
struct Seeded(StdRng);

impl Randomness for Seeded {
    fn pick_weighted(&mut self, weights: &Vec<u64>) -> usize {
        let weights: Vec<f64> = weights.iter().map(|w| f64::from_bits(*w)).collect();
        let total: f64 = weights.iter().sum();
        let mut roll = self.0.random_range(0.0..total);
        for (i, w) in weights.iter().enumerate() {
            if roll < *w {
                return i;
            }
            roll -= *w;
        }
        weights.len() - 1
    }
    fn chance(&mut self, probability_bits: u64) -> bool {
        self.0.random_bool(f64::from_bits(probability_bits))
    }
    fn coin(&mut self) -> bool {
        self.0.random_bool(0.5)
    }
    fn range_inclusive(&mut self, low: u32, high: u32) -> u32 {
        self.0.random_range(low..=high)
    }
}

#[test]
fn respects_relative_weights_over_many_draws() {
    let choices = vec![choice("common", 9.0, None), choice("rare", 1.0, None)];
    let mut rng = Seeded(StdRng::seed_from_u64(42));
    let mut common_count = 0;
    for _ in 0..1000 {
        if pick_weighted(&choices, 1, &mut rng).unwrap().to == "common" {
            common_count += 1;
        }
    }
    assert!(common_count > 800 && common_count < 980, "got {common_count}/1000");
}

#[test]
fn draws_use_the_open_weights_and_map_back_to_open_choices() {
    let choices = vec![choice("a", 2.0, Some(3)), choice("b", 5.0, None), choice("c", 7.0, Some(1))];
    assert_eq!(weights_for_draw(&choices, 1), vec![5.0f64.to_bits(), 7.0f64.to_bits()]);
    assert_eq!(weights_for_draw(&choices, 3).len(), 3);
    assert_eq!(choice_for_draw(&choices, 1, 0).unwrap().to, "b");
    assert_eq!(choice_for_draw(&choices, 1, 1).unwrap().to, "c");
    assert_eq!(choice_for_draw(&choices, 1, 9).unwrap().to, "c");
    assert!(choice_for_draw(&choices[..1], 1, 0).is_none());
}

#[test]
fn starts_even_where_another_animation_has_no_frames() {
    let mut schema = schema();
    let last = schema.animations.len() - 1;
    schema.animations[last].frames.clear();
    let _sm = StateMachine::new(&schema, &mut Predictable);
    assert!(schema.animations[last].frames.is_empty());
}

/// Fails every chance it is asked for, and counts them.
struct Unlucky {
    chances: u32,
}

impl Randomness for Unlucky {
    fn pick_weighted(&mut self, _weights: &Vec<u64>) -> usize {
        0
    }
    fn chance(&mut self, _probability_bits: u64) -> bool {
        self.chances += 1;
        false
    }
    fn coin(&mut self) -> bool {
        true
    }
    fn range_inclusive(&mut self, low: u32, _high: u32) -> u32 {
        low
    }
}

#[test]
fn a_timer_whose_chance_fails_is_not_drawn_again() {
    let schema = schema();
    let mut rng = Unlucky { chances: 0 };
    let mut sm = StateMachine::new(&schema, &mut rng);
    sm.force_animation("walk_left", &mut rng);
    for _ in 0..99 {
        sm.step(no_edge(), 1, &mut rng);
    }
    assert_eq!(sm.current_key(), "walk_left");
    assert_eq!(rng.chances, 1);
}

#[test]
fn a_schema_is_runnable_while_every_named_animation_has_a_frame() {
    let mut schema = schema();
    assert!(schema_runnable(&schema));
    let mut unnamed = schema.animations[0].clone();
    unnamed.key = "never_entered".to_string();
    unnamed.frames.clear();
    unnamed.border_transitions.clear();
    schema.animations.push(unnamed);
    assert!(schema_runnable(&schema));
    let drag = schema.animations.iter_mut().find(|a| a.key == "drag").unwrap();
    drag.frames.clear();
    assert!(!schema_runnable(&schema));
}
