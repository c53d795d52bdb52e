use shimeji::format::animation::{Animation, Direction, Edge, EngineEventKind, Frame, LoopMode, SurfaceType};
use shimeji::importer::shimeji_ee::mapping::{
    apply_behaviors, link, push_border_transition_once, resolve_entry, resolve_exit, resolve_reference_chain,
    surface_type, wildcard_event, BEHAVIOR_FALLBACK_TICKS, ONE_BITS, SEQUENCE_STEP_FALLBACK_TICKS,
};
use shimeji::importer::shimeji_ee::sprites::{first_sprite, intern_sprite, literal_frame};
use shimeji::importer::shimeji_ee::values::f64_bits_of_u32;
use shimeji::importer::shimeji_ee::xml::{RawActionRef, RawAnimationBlock, RawBehavior, RawBehaviorRef, RawPose};

fn animation(key: &str, loop_mode: LoopMode) -> Animation {
    Animation {
        key: key.to_string(),
        kind: SurfaceType::Ground,
        subtype: "Stay".to_string(),
        level: 1,
        loop_mode,
        direction: Direction::Any,
        frames: vec![Frame { sprite: 0, dx: 0, dy: 0, duration_ticks: 1 }],
        auto: None,
        border_transitions: Vec::new(),
        event_transitions: Vec::new(),
    }
}

fn step(name: &str, duration: Option<&str>) -> RawActionRef {
    RawActionRef { name: name.to_string(), duration: duration.map(str::to_string) }
}

fn leaf(names: &[&str]) -> Vec<(String, String)> {
    names.iter().map(|n| (n.to_string(), n.to_string())).collect()
}

#[test]
fn border_types_map_to_surfaces() {
    assert_eq!(surface_type(Some("Floor")), SurfaceType::Ground);
    assert_eq!(surface_type(Some("Wall")), SurfaceType::Wall);
    assert_eq!(surface_type(Some("Ceiling")), SurfaceType::Ceiling);
    assert_eq!(surface_type(Some("floor")), SurfaceType::Air);
    assert_eq!(surface_type(None), SurfaceType::Air);
}

#[test]
fn wildcard_events_come_from_any_animation() {
    let rule = wildcard_event(EngineEventKind::DragStart, "Pinched");
    assert_eq!(rule.event, EngineEventKind::DragStart);
    assert_eq!(rule.from.as_deref(), Some("*"));
    assert_eq!(rule.to.as_deref(), Some("Pinched"));
    assert!(rule.when.is_none() && rule.choices.is_none() && rule.allowed_types.is_none());
}

#[test]
fn a_oneshot_step_links_on_finish_once_per_target() {
    let mut anims = vec![animation("Falling", LoopMode::Oneshot), animation("Bouncing", LoopMode::Oneshot)];
    link(&mut anims, "Falling", "Bouncing", None);
    link(&mut anims, "Falling", "Bouncing", Some(9));
    let auto = anims[0].auto.as_ref().unwrap();
    assert_eq!(auto.on_finish.len(), 1);
    assert_eq!(auto.on_finish[0].to, "Bouncing");
    assert_eq!(auto.on_finish[0].weight_bits, 1.0f64.to_bits());
    assert!(auto.on_timer.is_empty());
    assert!(anims[1].auto.is_none());
}

#[test]
fn a_looping_step_links_by_a_certain_timer() {
    let mut anims = vec![animation("Walk", LoopMode::Loop), animation("Falling", LoopMode::Oneshot)];
    link(&mut anims, "Walk", "Falling", Some(42));
    link(&mut anims, "Walk", "Stand", None);
    link(&mut anims, "Walk", "Falling", None);
    let auto = anims[0].auto.as_ref().unwrap();
    assert_eq!(auto.on_timer.len(), 2);
    assert_eq!(auto.on_timer[0].min_ticks, 42);
    assert_eq!(auto.on_timer[0].max_ticks, 42);
    assert_eq!(auto.on_timer[0].chance_bits, ONE_BITS);
    assert_eq!(auto.on_timer[0].choices[0].to, "Falling");
    assert_eq!(auto.on_timer[1].min_ticks, SEQUENCE_STEP_FALLBACK_TICKS);
    assert_eq!(auto.on_timer[1].choices[0].to, "Stand");
}

#[test]
fn linking_an_unknown_step_changes_nothing() {
    let mut anims = vec![animation("Walk", LoopMode::Loop)];
    link(&mut anims, "Nobody", "Walk", None);
    assert!(anims[0].auto.is_none());
}

#[test]
fn each_edge_keeps_its_first_border_target() {
    let mut falling = animation("Falling", LoopMode::Oneshot);
    push_border_transition_once(&mut falling, Edge::Bottom, "Bouncing");
    push_border_transition_once(&mut falling, Edge::Bottom, "Sitting");
    push_border_transition_once(&mut falling, Edge::Left, "GrabWall");
    assert_eq!(falling.border_transitions.len(), 2);
    assert_eq!(falling.border_transitions[0].when, Edge::Bottom);
    assert_eq!(falling.border_transitions[0].choices.len(), 1);
    assert_eq!(falling.border_transitions[0].choices[0].to, "Bouncing");
    assert_eq!(falling.border_transitions[1].choices[0].to, "GrabWall");
}

#[test]
fn entries_and_exits_prefer_leaf_actions_then_sequences() {
    let leaf = leaf(&["Stand"]);
    let sequences = vec![
        ("Land".to_string(), ("Falling".to_string(), "Bouncing".to_string())),
        ("Stand".to_string(), ("X".to_string(), "Y".to_string())),
    ];
    assert_eq!(resolve_entry("Stand", &leaf, &sequences).as_deref(), Some("Stand"));
    assert_eq!(resolve_entry("Land", &leaf, &sequences).as_deref(), Some("Falling"));
    assert_eq!(resolve_exit("Land", &leaf, &sequences).as_deref(), Some("Bouncing"));
    assert_eq!(resolve_entry("Nowhere", &leaf, &sequences), None);
}

#[test]
fn a_chain_links_each_step_to_the_next() {
    let mut anims = vec![animation("Walk", LoopMode::Loop), animation("Falling", LoopMode::Oneshot)];
    let leaf = leaf(&["Walk", "Falling"]);
    let anchors = resolve_reference_chain(
        &vec![step("Walk", Some("42")), step("Falling", None)],
        &leaf,
        &Vec::new(),
        &mut anims,
    );
    assert_eq!(anchors, Some(("Walk".to_string(), "Falling".to_string())));
    let timer = &anims[0].auto.as_ref().unwrap().on_timer[0];
    assert_eq!(timer.min_ticks, 42);
    assert_eq!(timer.choices[0].to, "Falling");
}

#[test]
fn an_expression_duration_falls_back_to_the_default_ticks() {
    let mut anims = vec![animation("Walk", LoopMode::Loop), animation("Falling", LoopMode::Oneshot)];
    let leaf = leaf(&["Walk", "Falling"]);
    resolve_reference_chain(
        &vec![step("Walk", Some("${Math.random()*100}")), step("Falling", None)],
        &leaf,
        &Vec::new(),
        &mut anims,
    );
    assert_eq!(anims[0].auto.as_ref().unwrap().on_timer[0].min_ticks, SEQUENCE_STEP_FALLBACK_TICKS);
}

#[test]
fn chains_sharing_a_step_add_one_choice_per_target() {
    let mut anims = vec![animation("Falling", LoopMode::Oneshot), animation("Bouncing", LoopMode::Oneshot)];
    let leaf = leaf(&["Falling", "Bouncing"]);
    for _ in 0..3 {
        resolve_reference_chain(&vec![step("Falling", None), step("Bouncing", None)], &leaf, &Vec::new(), &mut anims);
    }
    assert_eq!(anims[0].auto.as_ref().unwrap().on_finish.len(), 1);
}

#[test]
fn a_chain_with_an_unknown_step_links_nothing() {
    let mut anims = vec![animation("Stand", LoopMode::Loop)];
    let leaf = leaf(&["Stand"]);
    let anchors = resolve_reference_chain(&vec![step("Stand", None), step("Offset", None)], &leaf, &Vec::new(), &mut anims);
    assert_eq!(anchors, None);
    assert!(anims[0].auto.is_none());
    assert_eq!(resolve_reference_chain(&Vec::new(), &leaf, &Vec::new(), &mut anims), None);
}

#[test]
fn a_chain_through_a_sequence_uses_its_entry_and_exit() {
    let mut anims = vec![animation("Bouncing", LoopMode::Oneshot), animation("Stand", LoopMode::Loop)];
    let leaf = leaf(&["Stand"]);
    let sequences = vec![("Land".to_string(), ("Falling".to_string(), "Bouncing".to_string()))];
    let anchors = resolve_reference_chain(&vec![step("Land", None), step("Stand", None)], &leaf, &sequences, &mut anims);
    assert_eq!(anchors, Some(("Falling".to_string(), "Stand".to_string())));
    assert_eq!(anims[0].auto.as_ref().unwrap().on_finish[0].to, "Stand");
}

#[test]
fn each_image_becomes_one_numbered_sprite() {
    let mut table = Vec::new();
    let mut sprites = Vec::new();
    assert_eq!(intern_sprite("/falling.png", "/mascots/img/Test", &mut table, &mut sprites), 0);
    assert_eq!(intern_sprite("/stand.png", "/mascots/img/Test", &mut table, &mut sprites), 1);
    assert_eq!(intern_sprite("/falling.png", "/mascots/img/Test", &mut table, &mut sprites), 0);
    assert_eq!(sprites.len(), 2);
    assert_eq!(std::path::PathBuf::from(&sprites[0].source), std::path::Path::new("/mascots/img/Test/falling.png"));
    assert_eq!(sprites[1].index, 1);

    let pose = RawPose { image: "/walk.png".to_string(), velocity: (-2, 0), duration: 0 };
    let frame = literal_frame(&pose, "/img", &mut table, &mut sprites);
    assert_eq!((frame.sprite, frame.dx, frame.dy, frame.duration_ticks), (2, -2, 0, 1));

    let empty = RawAnimationBlock { condition: None, poses: Vec::new() };
    assert_eq!(first_sprite(&empty, "/img", &mut table, &mut sprites), 0);
    assert_eq!(sprites.len(), 3);
    let block = RawAnimationBlock { condition: None, poses: vec![pose.clone()] };
    assert_eq!(first_sprite(&block, "/img", &mut table, &mut sprites), 2);
    assert_eq!(sprites.len(), 3);
}

fn behavior(name: &str, next: Vec<(&str, u32, Option<&str>)>) -> RawBehavior {
    RawBehavior {
        name: name.to_string(),
        frequency: 0,
        hidden: false,
        condition: None,
        next: next
            .into_iter()
            .map(|(n, frequency, condition)| RawBehaviorRef {
                name: n.to_string(),
                frequency,
                condition: condition.map(str::to_string),
            })
            .collect(),
    }
}

#[test]
fn behaviors_attach_weighted_choices_where_they_end() {
    let mut anims = vec![animation("Stand", LoopMode::Loop), animation("Walk", LoopMode::Loop)];
    let leaf = leaf(&["Stand", "Walk"]);
    let behaviors = vec![behavior("Stand", vec![("Walk", 100, None), ("Unknown", 1, None), ("Walk", 50, Some("${cond}"))])];
    let mut skipped = Vec::new();
    apply_behaviors(&behaviors, &mut anims, &leaf, &Vec::new(), &mut skipped);
    let auto = anims[0].auto.as_ref().unwrap();
    assert_eq!(auto.on_timer.len(), 1);
    assert_eq!(auto.on_timer[0].min_ticks, BEHAVIOR_FALLBACK_TICKS);
    assert_eq!(auto.on_timer[0].choices.len(), 1);
    assert_eq!(auto.on_timer[0].choices[0].to, "Walk");
    assert_eq!(f64::from_bits(auto.on_timer[0].choices[0].weight_bits), 100.0);
    assert_eq!(skipped, vec!["Unknown".to_string(), "Walk".to_string()]);
}

#[test]
fn a_behavior_whose_name_resolves_to_nothing_is_skipped() {
    let mut anims = vec![animation("Falling", LoopMode::Oneshot)];
    let behaviors = vec![behavior("GhostBehavior", vec![("Falling", 1, None)]), behavior("Falling", Vec::new())];
    let mut skipped = Vec::new();
    apply_behaviors(&behaviors, &mut anims, &leaf(&["Falling"]), &Vec::new(), &mut skipped);
    assert_eq!(skipped, vec!["GhostBehavior".to_string()]);
    assert!(anims[0].auto.is_none());
}

#[test]
fn behavior_choices_follow_a_chained_on_finish() {
    let mut anims = vec![animation("Falling", LoopMode::Oneshot), animation("Bouncing", LoopMode::Oneshot)];
    let leaf = leaf(&["Falling", "Bouncing"]);
    link(&mut anims, "Falling", "Bouncing", None);
    let mut skipped = Vec::new();
    apply_behaviors(&vec![behavior("Falling", vec![("Bouncing", 5, None)])], &mut anims, &leaf, &Vec::new(), &mut skipped);
    let on_finish = &anims[0].auto.as_ref().unwrap().on_finish;
    assert_eq!(on_finish.len(), 2);
    assert_eq!(f64::from_bits(on_finish[1].weight_bits), 5.0);
}

#[test]
fn integer_weights_have_their_binary64_patterns() {
    for n in [0u32, 1, 2, 3, 5, 100, 255, 256, 65_535, 1 << 31, u32::MAX] {
        assert_eq!(f64_bits_of_u32(n), (n as f64).to_bits(), "n = {n}");
    }
}

#[test]
fn a_new_sprite_file_is_its_image_joined_under_the_image_folder() {
    let mut table = Vec::new();
    let mut sprites = Vec::new();
    assert_eq!(intern_sprite("//walk.png", "/mascots/img/", &mut table, &mut sprites), 0);
    assert_eq!(intern_sprite("sub/run.png", "/mascots/img/", &mut table, &mut sprites), 1);
    assert_eq!(sprites[0].source, "/mascots/img/walk.png");
    assert_eq!(sprites[1].source, "/mascots/img/sub/run.png");
}

#[test]
fn a_sprite_file_follows_the_platforms_join_in_the_edge_cases() {
    let mut table = Vec::new();
    let mut sprites = Vec::new();
    intern_sprite("\\rooted.png", "/img", &mut table, &mut sprites);
    intern_sprite("plain.png", "", &mut table, &mut sprites);
    intern_sprite("c.png", "C:", &mut table, &mut sprites);
    intern_sprite("D:drive.png", "/img", &mut table, &mut sprites);
    let sources: Vec<&str> = sprites.iter().map(|s| s.source.as_str()).collect();
    assert!(sources[0] == "/img/\\rooted.png" || sources[0] == "\\rooted.png");
    assert_eq!(sources[1], "plain.png");
    assert!(sources[2] == "C:/c.png" || sources[2] == "C:c.png");
    assert!(sources[3] == "/img/D:drive.png" || sources[3] == "D:drive.png");
}
