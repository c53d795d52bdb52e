use shimeji::format::animation::{EngineEventKind, LoopMode, SurfaceType};
use shimeji::importer::shimeji_ee::actions::{map_actions, MappedActions};
use shimeji::importer::shimeji_ee::detect::character_folder;
use shimeji::importer::shimeji_ee::mapping::{map_to_schema, SEQUENCE_STEP_FALLBACK_TICKS};
use shimeji::importer::shimeji_ee::xml::{RawAction, RawActionRef, RawAnimationBlock, RawBehavior, RawBehaviorRef, RawPose};
use shimeji::importer::shimeji_ee::ShimejiEeError;
use std::collections::HashSet;

const FALL_CLASS: &str = "com.group_finity.mascot.action.Fall";

fn literal_action(name: &str, kind: &str, border_type: Option<&str>, poses: Vec<RawPose>) -> RawAction {
    RawAction {
        name: name.to_string(),
        kind: kind.to_string(),
        border_type: border_type.map(str::to_string),
        class: None,
        loop_flag: false,
        attributes: Vec::new(),
        animations: vec![RawAnimationBlock { condition: None, poses }],
        refs: Vec::new(),
    }
}

fn pose(image: &str, dx: i32, dy: i32, duration: u32) -> RawPose {
    RawPose { image: image.to_string(), velocity: (dx, dy), duration }
}

fn action_ref(name: &str, duration: Option<&str>) -> RawActionRef {
    RawActionRef { name: name.to_string(), duration: duration.map(str::to_string) }
}

fn sequence(name: &str, refs: Vec<(&str, Option<&str>)>) -> RawAction {
    RawAction {
        name: name.to_string(),
        kind: "Sequence".to_string(),
        border_type: None,
        class: None,
        loop_flag: false,
        attributes: Vec::new(),
        animations: Vec::new(),
        refs: refs.into_iter().map(|(n, d)| action_ref(n, d)).collect(),
    }
}

fn fall_and_dragged() -> Vec<RawAction> {
    let mut falling = literal_action("Falling", "Embedded", None, vec![pose("/falling.png", 0, 0, 250)]);
    falling.class = Some(FALL_CLASS.to_string());
    falling.attributes.push(("Gravity".to_string(), "2.0".to_string()));

    let mut dragged_pose_action = literal_action("Pinched", "Embedded", None, vec![pose("/pinched.png", 0, 0, 5)]);
    dragged_pose_action.class = Some("com.group_finity.mascot.action.Dragged".to_string());

    vec![falling, dragged_pose_action, sequence("Fall", vec![("Falling", None)]), sequence("Dragged", vec![("Pinched", None)])]
}

/// The per-tick motion of a `Fall` action with the given gravity, for the fixtures.
fn fall_motion(gravity: f64) -> Vec<(i32, i32)> {
    let mut vy = 0.0f64;
    let mut motion = Vec::new();
    for _ in 0..240 {
        vy += gravity;
        motion.push((0, vy.round() as i32));
    }
    motion
}

/// A motion for each action: the falling one for `Fall` actions, none for the others.
fn motions_for(actions: &[RawAction]) -> Vec<Vec<(i32, i32)>> {
    actions
        .iter()
        .map(|a| {
            if a.class.as_deref() == Some(FALL_CLASS) {
                let gravity = a
                    .attributes
                    .iter()
                    .find(|(k, _)| k == "Gravity")
                    .and_then(|(_, v)| v.parse::<f64>().ok())
                    .unwrap_or(1.0);
                fall_motion(gravity)
            } else {
                Vec::new()
            }
        })
        .collect()
}

fn map(actions: &Vec<RawAction>, img_dir: &str) -> Result<MappedActions, ShimejiEeError> {
    map_actions(actions, img_dir, &motions_for(actions))
}

fn sequence_anchors(mapped: &MappedActions, name: &str) -> Option<(String, String)> {
    mapped.sequences.iter().rev().find(|(n, _)| n == name).map(|(_, anchors)| anchors.clone())
}

fn behavior(name: &str, next: Vec<(&str, u32, Option<&str>)>) -> RawBehavior {
    RawBehavior {
        name: name.to_string(),
        frequency: 0,
        hidden: false,
        condition: None,
        next: next
            .into_iter()
            .map(|(n, frequency, condition)| RawBehaviorRef {
                name: n.to_string(),
                frequency,
                condition: condition.map(str::to_string),
            })
            .collect(),
    }
}

#[test]
fn maps_a_literal_move_action_with_loop_mode_and_frames() {
    let mut actions = fall_and_dragged();
    actions.push(literal_action("Walk", "Move", Some("Floor"), vec![pose("/walk1.png", -2, 0, 6), pose("/walk2.png", -2, 0, 6)]));
    let mapped = map(&actions, "/img").unwrap();
    let walk = mapped.animations.iter().find(|a| a.key == "Walk").unwrap();
    assert_eq!(walk.kind, SurfaceType::Ground);
    assert_eq!(walk.loop_mode, LoopMode::Loop);
    assert_eq!(walk.frames.len(), 2);
    assert_eq!(walk.frames[0].dx, -2);
    assert_eq!(walk.frames[0].duration_ticks, 6);
}

#[test]
fn animate_kind_is_oneshot() {
    let mut actions = fall_and_dragged();
    actions.push(literal_action("Bouncing", "Animate", Some("Floor"), vec![pose("/b1.png", 0, 0, 4), pose("/b2.png", 0, 0, 4)]));
    let mapped = map(&actions, "/img").unwrap();
    let bouncing = mapped.animations.iter().find(|a| a.key == "Bouncing").unwrap();
    assert_eq!(bouncing.loop_mode, LoopMode::Oneshot);
}

#[test]
fn collapses_multiple_conditioned_blocks_to_the_last_one_and_records_it_as_skipped() {
    let mut pinched = literal_action("Pinched2", "Embedded", None, vec![]);
    pinched.class = Some("com.group_finity.mascot.action.Dragged".to_string());
    pinched.animations = vec![
        RawAnimationBlock { condition: Some("a".to_string()), poses: vec![pose("/left.png", 0, 0, 5)] },
        RawAnimationBlock { condition: Some("b".to_string()), poses: vec![pose("/right.png", 0, 0, 5)] },
    ];
    let mut actions = fall_and_dragged();
    actions.push(pinched);
    let mapped = map(&actions, "/img").unwrap();
    let mapped_action = mapped.animations.iter().find(|a| a.key == "Pinched2").unwrap();
    assert_eq!(mapped_action.frames.len(), 1);
    assert_eq!(
        mapped.sprites.iter().find(|s| s.index == mapped_action.frames[0].sprite).unwrap().source,
        "/img/right.png"
    );
    assert!(mapped.skipped.contains(&"Pinched2".to_string()));
}

#[test]
fn bakes_fall_physics_into_a_multi_frame_oneshot_animation() {
    let mapped = map(&fall_and_dragged(), "/img").unwrap();
    let falling = mapped.animations.iter().find(|a| a.key == "Falling").unwrap();
    assert_eq!(falling.kind, SurfaceType::Air);
    assert_eq!(falling.loop_mode, LoopMode::Oneshot);
    assert!(falling.frames.len() > 1, "baked fall should produce many frames, got {}", falling.frames.len());
    assert!(falling.frames[1].dy > falling.frames[0].dy, "gravity should keep accelerating dy");
}

#[test]
fn degrades_unsupported_embedded_classes_to_a_single_static_frame() {
    let mut walk_with_ie = literal_action("WalkWithIe", "Embedded", Some("Floor"), vec![pose("/ie.png", -2, 0, 6)]);
    walk_with_ie.class = Some("com.group_finity.mascot.action.WalkWithIE".to_string());
    let mut actions = fall_and_dragged();
    actions.push(walk_with_ie);
    let mapped = map(&actions, "/img").unwrap();
    let mapped_action = mapped.animations.iter().find(|a| a.key == "WalkWithIe").unwrap();
    assert_eq!(mapped_action.frames.len(), 1);
    assert_eq!(mapped_action.frames[0].dx, 0);
    assert_eq!(mapped_action.frames[0].dy, 0);
    assert!(mapped.skipped.contains(&"WalkWithIe".to_string()));
}

#[test]
fn zero_animation_embedded_actions_are_unmapped() {
    let mut offset = literal_action("Offset", "Embedded", None, vec![]);
    offset.animations = Vec::new();
    offset.class = Some("com.group_finity.mascot.action.Offset".to_string());
    let mut actions = fall_and_dragged();
    actions.push(offset);
    let mapped = map(&actions, "/img").unwrap();
    assert!(mapped.animations.iter().all(|a| a.key != "Offset"));
    assert!(!mapped.leaf.iter().any(|(name, _)| name == "Offset"));
}

#[test]
fn sequence_chains_oneshot_steps_via_on_finish() {
    let mut actions = fall_and_dragged();
    actions.push(literal_action("Bouncing", "Animate", Some("Floor"), vec![pose("/b.png", 0, 0, 4)]));
    actions.push(sequence("Land", vec![("Falling", None), ("Bouncing", None)]));
    let mapped = map(&actions, "/img").unwrap();
    let falling = mapped.animations.iter().find(|a| a.key == "Falling").unwrap();
    let auto = falling.auto.as_ref().expect("Falling should have gained an auto rule from the chain");
    assert_eq!(auto.on_finish.len(), 1);
    assert_eq!(auto.on_finish[0].to, "Bouncing");
    assert_eq!(sequence_anchors(&mapped, "Land"), Some(("Falling".to_string(), "Bouncing".to_string())));
}

#[test]
fn a_leaf_referenced_by_multiple_sequences_gets_only_one_choice_per_target() {
    let mut actions = fall_and_dragged();
    actions.push(literal_action("Bouncing", "Animate", Some("Floor"), vec![pose("/b.png", 0, 0, 4)]));
    actions.push(sequence("Land", vec![("Falling", None), ("Bouncing", None)]));
    actions.push(sequence("LandAgain", vec![("Falling", None), ("Bouncing", None)]));
    actions.push(sequence("LandYetAgain", vec![("Falling", None), ("Bouncing", None)]));
    let mapped = map(&actions, "/img").unwrap();
    let falling = mapped.animations.iter().find(|a| a.key == "Falling").unwrap();
    let auto = falling.auto.as_ref().unwrap();
    assert_eq!(auto.on_finish.len(), 1, "three Sequences chaining to the same target must not triple the choice list");
}

#[test]
fn sequence_chains_loop_steps_via_on_timer_using_literal_duration() {
    let mut actions = fall_and_dragged();
    actions.push(literal_action("Walk", "Move", Some("Floor"), vec![pose("/w.png", -2, 0, 6)]));
    actions.push(sequence("Stroll", vec![("Walk", Some("42")), ("Falling", None)]));
    let mapped = map(&actions, "/img").unwrap();
    let walk = mapped.animations.iter().find(|a| a.key == "Walk").unwrap();
    let auto = walk.auto.as_ref().unwrap();
    assert_eq!(auto.on_timer.len(), 1);
    assert_eq!(auto.on_timer[0].min_ticks, 42);
    assert_eq!(auto.on_timer[0].max_ticks, 42);
    assert_eq!(auto.on_timer[0].choices[0].to, "Falling");
}

#[test]
fn sequence_chains_loop_steps_via_on_timer_using_fallback_when_duration_is_an_el_expression() {
    let mut actions = fall_and_dragged();
    actions.push(literal_action("Walk", "Move", Some("Floor"), vec![pose("/w.png", -2, 0, 6)]));
    actions.push(sequence("Stroll", vec![("Walk", Some("${Math.random()*100}")), ("Falling", None)]));
    let mapped = map(&actions, "/img").unwrap();
    let walk = mapped.animations.iter().find(|a| a.key == "Walk").unwrap();
    assert_eq!(walk.auto.as_ref().unwrap().on_timer[0].min_ticks, SEQUENCE_STEP_FALLBACK_TICKS);
}

#[test]
fn drops_a_whole_sequence_that_references_an_unmapped_action() {
    let mut offset = literal_action("Offset", "Embedded", None, vec![]);
    offset.animations = Vec::new();
    let mut actions = fall_and_dragged();
    actions.push(offset);
    actions.push(literal_action("Stand", "Stay", Some("Floor"), vec![pose("/s.png", 0, 0, 250)]));
    actions.push(sequence("FallFromWall", vec![("Offset", None), ("Stand", None)]));
    let mapped = map(&actions, "/img").unwrap();
    assert!(sequence_anchors(&mapped, "FallFromWall").is_none());
    assert!(mapped.skipped.contains(&"FallFromWall".to_string()));
}

#[test]
fn wires_fall_and_dragged_into_top_level_events() {
    let mapped = map(&fall_and_dragged(), "/img").unwrap();
    assert_eq!(mapped.default_animation, "Falling");
    assert!(mapped.events.iter().any(|e| e.event == EngineEventKind::DragStart && e.to.as_deref() == Some("Pinched")));
    assert!(mapped.events.iter().any(|e| e.event == EngineEventKind::FlingStart && e.to.as_deref() == Some("Falling")));
    assert!(mapped.events.iter().any(|e| e.event == EngineEventKind::Tap && e.to.as_deref() == Some("Falling")));
    assert!(mapped.events.iter().any(|e| e.event == EngineEventKind::DragEnd && e.to.as_deref() == Some("Falling")));
    assert!(mapped.events.iter().any(|e| e.event == EngineEventKind::FlingEnd && e.to.as_deref() == Some("Falling")));
}

#[test]
fn missing_fall_action_is_an_error() {
    let mut dragged_only = fall_and_dragged();
    dragged_only.retain(|a| a.name != "Fall" && a.name != "Falling");
    let err = map(&dragged_only, "/img").unwrap_err();
    assert!(matches!(err, ShimejiEeError::MissingRequiredAction(name) if name == "Fall"));
}

#[test]
fn missing_dragged_action_is_an_error() {
    let mut fall_only = fall_and_dragged();
    fall_only.retain(|a| a.name != "Dragged" && a.name != "Pinched");
    let err = map(&fall_only, "/img").unwrap_err();
    assert!(matches!(err, ShimejiEeError::MissingRequiredAction(name) if name == "Dragged"));
}

#[test]
fn sprite_paths_are_resolved_under_the_img_dir_and_deduplicated() {
    let mapped = map(&fall_and_dragged(), "/mascots/img/Test").unwrap();
    assert!(mapped.sprites.iter().any(|s| s.source == "/mascots/img/Test/falling.png"));
    let indices: HashSet<u32> = mapped.sprites.iter().map(|s| s.index).collect();
    assert_eq!(indices.len(), mapped.sprites.len(), "every sprite index must be unique");
}

#[test]
fn map_to_schema_attaches_behaviors_choices_to_the_exit_anchor() {
    let mut actions = fall_and_dragged();
    actions.push(literal_action("Walk", "Move", Some("Floor"), vec![pose("/w.png", -2, 0, 6)]));
    actions.push(literal_action("Stand", "Stay", Some("Floor"), vec![pose("/s.png", 0, 0, 250)]));
    let behaviors = vec![behavior("Stand", vec![("Walk", 100, None), ("Unknown", 1, None), ("Walk", 50, Some("${cond}"))])];

    let (schema, _sprites, skipped) = map_to_schema(&actions, &behaviors, "/img", &motions_for(&actions)).unwrap();

    let stand = schema.animations.iter().find(|a| a.key == "Stand").unwrap();
    let auto = stand.auto.as_ref().expect("Stand should have gained an on_timer rule from behaviors.xml");
    assert_eq!(auto.on_timer.len(), 1);
    assert_eq!(auto.on_timer[0].choices.len(), 1, "the unresolvable ref and the condition-gated ref must be dropped");
    assert_eq!(auto.on_timer[0].choices[0].to, "Walk");
    assert_eq!(f64::from_bits(auto.on_timer[0].choices[0].weight_bits), 100.0);
    assert!(skipped.contains(&"Unknown".to_string()));
    assert!(
        skipped.iter().filter(|s| s.as_str() == "Walk").count() >= 1,
        "the condition-gated Walk ref must be recorded as skipped too"
    );
}

#[test]
fn map_to_schema_skips_a_behavior_whose_name_does_not_resolve() {
    let actions = fall_and_dragged();
    let behaviors = vec![behavior("GhostBehavior", vec![("Falling", 1, None)])];
    let (_schema, _sprites, skipped) = map_to_schema(&actions, &behaviors, "/img", &motions_for(&actions)).unwrap();
    assert!(skipped.contains(&"GhostBehavior".to_string()));
}

#[test]
fn map_to_schema_appends_behaviors_choices_onto_an_existing_on_finish_from_chaining() {
    let mut actions = fall_and_dragged();
    actions.push(literal_action("Bouncing", "Animate", Some("Floor"), vec![pose("/b.png", 0, 0, 4)]));
    actions.push(sequence("Land", vec![("Falling", None), ("Bouncing", None)]));
    let behaviors = vec![behavior("Falling", vec![("Bouncing", 5, None)])];

    let (schema, _sprites, _skipped) = map_to_schema(&actions, &behaviors, "/img", &motions_for(&actions)).unwrap();
    let falling = schema.animations.iter().find(|a| a.key == "Falling").unwrap();
    let on_finish = &falling.auto.as_ref().unwrap().on_finish;
    assert_eq!(on_finish.len(), 2, "the chain's own link plus the behaviors.xml choice");
}

#[test]
fn map_to_schema_produces_a_legacy_default_v1_schema_id() {
    let actions = fall_and_dragged();
    let (schema, _sprites, _skipped) = map_to_schema(&actions, &Vec::new(), "/img", &motions_for(&actions)).unwrap();
    assert_eq!(schema.schema_id, "legacy_default_v1");
    assert_eq!(schema.default_animation, "Falling");
    assert_eq!(schema.initial_candidates, vec!["Falling".to_string()]);
}

#[test]
fn map_to_schema_passes_a_missing_required_action_through() {
    let mut dragged_only = fall_and_dragged();
    dragged_only.retain(|a| a.name != "Fall" && a.name != "Falling");
    let err = map_to_schema(&dragged_only, &Vec::new(), "/img", &motions_for(&dragged_only)).unwrap_err();
    assert!(matches!(err, ShimejiEeError::MissingRequiredAction(name) if name == "Fall"));
}

#[test]
fn the_physics_motion_becomes_one_tick_frames_on_the_first_pose() {
    let mut actions = fall_and_dragged();
    let mut motions = motions_for(&actions);
    motions[0] = vec![(1, 2), (3, 4)];
    actions[0].animations[0].poses.push(pose("/second.png", 9, 9, 9));
    let mapped = map_actions(&actions, "/img", &motions).unwrap();
    let falling = mapped.animations.iter().find(|a| a.key == "Falling").unwrap();
    assert_eq!(falling.frames.len(), 2);
    assert_eq!((falling.frames[0].dx, falling.frames[0].dy, falling.frames[0].duration_ticks), (1, 2, 1));
    assert_eq!((falling.frames[1].dx, falling.frames[1].dy), (3, 4));
    assert_eq!(falling.frames[0].sprite, falling.frames[1].sprite);
    let shown = mapped.sprites.iter().find(|s| s.index == falling.frames[0].sprite).unwrap();
    assert_eq!(shown.source, "/img/falling.png");
}

#[test]
fn a_shared_conf_folder_takes_the_first_image_folder_in_sorted_order() {
    let folders = vec!["shimeji".to_string(), "Neko".to_string(), "neko".to_string(), "Ne".to_string()];
    assert_eq!(character_folder(true, &folders, Some("conf".to_string())), Some("Ne".to_string()));
    assert_eq!(character_folder(true, &Vec::new(), Some("conf".to_string())), None);
}

#[test]
fn a_character_conf_folder_names_its_image_folder() {
    let folders = vec!["a".to_string()];
    assert_eq!(character_folder(false, &folders, Some("Usagi".to_string())), Some("Usagi".to_string()));
    assert_eq!(character_folder(false, &folders, None), None);
}

#[test]
fn an_imported_schema_has_its_default_and_drag_animations() {
    let mut actions = fall_and_dragged();
    actions.push(literal_action("Bouncing", "Animate", Some("Floor"), vec![pose("/b.png", 0, 0, 4)]));
    actions.push(sequence("Land", vec![("Falling", None), ("Bouncing", None)]));
    let (schema, _sprites, _skipped) = map_to_schema(&actions, &Vec::new(), "/img", &motions_for(&actions)).unwrap();
    assert!(schema.animations.iter().any(|a| a.key == schema.default_animation));
    let drag_target = schema.events[4].to.clone().unwrap();
    assert_eq!(schema.events[4].event, EngineEventKind::DragStart);
    assert!(schema.animations.iter().any(|a| a.key == drag_target));
}

#[test]
fn a_dragged_action_plays_in_the_users_hand_and_physics_in_the_air() {
    let mut actions = fall_and_dragged();
    actions[0].border_type = Some("Floor".to_string());
    let mapped = map(&actions, "/img").unwrap();
    let pinched = mapped.animations.iter().find(|a| a.key == "Pinched").unwrap();
    assert_eq!(pinched.kind, SurfaceType::User);
    assert_eq!(pinched.frames.len(), 1);
    assert_eq!(pinched.frames[0].duration_ticks, 5);
    let falling = mapped.animations.iter().find(|a| a.key == "Falling").unwrap();
    assert_eq!(falling.kind, SurfaceType::Air);
}

#[test]
fn an_unsupported_class_stands_on_the_first_pose_of_its_first_block() {
    let mut thrower = literal_action("Throw", "Embedded", Some("Floor"), vec![pose("/first.png", 3, 3, 6)]);
    thrower.class = Some("com.group_finity.mascot.action.ThrowIE".to_string());
    thrower.animations.push(RawAnimationBlock { condition: None, poses: vec![pose("/last.png", 0, 0, 6)] });
    let mut actions = fall_and_dragged();
    actions.push(thrower);
    let mapped = map(&actions, "/img").unwrap();
    let throw = mapped.animations.iter().find(|a| a.key == "Throw").unwrap();
    assert_eq!(throw.kind, SurfaceType::Ground);
    let shown = mapped.sprites.iter().find(|s| s.index == throw.frames[0].sprite).unwrap();
    assert_eq!(shown.source, "/img/first.png");
}
