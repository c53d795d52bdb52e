use shimeji::format::animation::{
    Animation, AnimationSchema, AutoBehavior, ChoiceItem, Direction, EngineEventKind, EventRule, Frame, LoopMode,
    SurfaceType,
};
use shimeji::format::bundle::{check_schema_version, BundleError, MascotBundle};
use shimeji::format::manifest::{AnimationSchemaRef, AuthorInfo, LicenseInfo, Manifest, PreviewInfo, SpriteSheetInfo};

fn manifest(sprite_count: u32) -> Manifest {
    Manifest {
        schema_version: 1,
        name: "sample_mascot".to_string(),
        name_slug: "sample_mascot".to_string(),
        category: "test".to_string(),
        category_slug: "test".to_string(),
        description: String::new(),
        bundle_version: 1,
        min_app_version: 1,
        levels: 4,
        origin: "test".to_string(),
        animation_schema: AnimationSchemaRef { path: "animation.json".to_string(), schema_id: "legacy_default_v1".to_string(), version: 1 },
        sprites: SpriteSheetInfo {
            kind: "sequence".to_string(),
            base_path: "sprites/".to_string(),
            file_pattern: "%04d.webp".to_string(),
            sprite_count,
            size: [16, 16],
        },
        preview: PreviewInfo { thumbnail: "sprites/0000.webp".to_string() },
        author: AuthorInfo { name: "someone".to_string() },
        license: LicenseInfo { kind: "MIT".to_string(), text: String::new(), attribution: String::new() },
    }
}

fn animation(key: &str, sprites: &[u32]) -> Animation {
    Animation {
        key: key.to_string(),
        kind: SurfaceType::Ground,
        subtype: String::new(),
        level: 1,
        loop_mode: LoopMode::Loop,
        direction: Direction::Any,
        frames: sprites.iter().map(|s| Frame { sprite: *s, dx: 0, dy: 0, duration_ticks: 8 }).collect(),
        auto: None,
        border_transitions: Vec::new(),
        event_transitions: Vec::new(),
    }
}

fn drag_end_rule() -> EventRule {
    EventRule {
        event: EngineEventKind::DragEnd,
        from: Some("drag".to_string()),
        when: None,
        facing: None,
        to: Some("fall".to_string()),
        set_facing: Some("RANDOM".to_string()),
        choices: None,
        min_level: None,
        max_level: None,
        allowed_types: None,
    }
}

fn schema(schema_id: &str) -> AnimationSchema {
    let mut walk = animation("walk_left", &[3, 4]);
    walk.auto = Some(AutoBehavior {
        on_finish: vec![ChoiceItem { to: "fall".to_string(), weight_bits: 1.0f64.to_bits(), set_facing: None, min_level: None }],
        on_timer: Vec::new(),
        max_duration_ticks: None,
    });
    AnimationSchema {
        schema_id: schema_id.to_string(),
        version: 1,
        default_animation: "fall".to_string(),
        initial_candidates: vec!["fall".to_string()],
        animations: vec![animation("fall", &[0]), walk, animation("drag", &[9])],
        events: vec![drag_end_rule()],
    }
}

fn validate(animation: AnimationSchema, present: Vec<bool>) -> Result<MascotBundle, BundleError> {
    let manifest = manifest(present.len() as u32);
    MascotBundle::validate(manifest, animation, "bundle".to_string(), "bundle/sprites/".to_string(), &present)
}

#[test]
fn loads_the_valid_sample_bundle() {
    let bundle = validate(schema("legacy_default_v1"), vec![true; 13]).unwrap();
    assert_eq!(bundle.manifest.name, "sample_mascot");
    assert_eq!(bundle.animation.animations.len(), 3);
    assert_eq!(bundle.base_path, "bundle");
}

#[test]
fn rejects_unsupported_manifest_schema_version() {
    let mut m = manifest(13);
    assert!(check_schema_version(&m).is_ok());
    m.schema_version = 2;
    let err = check_schema_version(&m).unwrap_err();
    assert!(matches!(err, BundleError::UnsupportedSchemaVersion { found: 2 }));
}

#[test]
fn rejects_missing_sprite_file() {
    let mut present = vec![true; 13];
    present[0] = false;
    let err = validate(schema("legacy_default_v1"), present).unwrap_err();
    assert!(matches!(err, BundleError::SpriteCountMismatch { declared: 13, found: 12, .. }));
}

#[test]
fn rejects_a_frame_showing_a_sprite_past_the_end() {
    let err = validate(schema("legacy_default_v1"), vec![true; 5]).unwrap_err();
    assert!(matches!(err, BundleError::SpriteIndexOutOfRange { ref animation, index: 9, count: 5 } if animation == "drag"));
}

#[test]
fn rejects_dangling_transition_target() {
    let mut broken = schema("legacy_default_v1");
    broken.animations[1].auto.as_mut().unwrap().on_finish[0].to = "not_a_real_animation".to_string();
    let err = validate(broken, vec![true; 13]).unwrap_err();
    assert!(matches!(err, BundleError::UnknownAnimationKey { ref context, ref key }
        if context == "walk_left.auto.onFinish" && key == "not_a_real_animation"));
}

#[test]
fn rejects_a_dangling_event_target_naming_the_event() {
    let mut broken = schema("legacy_default_v1");
    broken.events[0].to = Some("nowhere".to_string());
    let err = validate(broken, vec![true; 13]).unwrap_err();
    assert!(matches!(err, BundleError::UnknownAnimationKey { ref context, ref key }
        if context == "events[DragEnd]" && key == "nowhere"));
}

#[test]
fn accepts_pc_import_v1_animation_schema() {
    let bundle = validate(schema("pc_import_v1"), vec![true; 13]).unwrap();
    assert_eq!(bundle.animation.schema_id, "pc_import_v1");
}

#[test]
fn rejects_unknown_animation_schema_id() {
    let err = validate(schema("totally_unknown_v9"), vec![true; 13]).unwrap_err();
    assert!(matches!(err, BundleError::UnsupportedAnimationSchema { found } if found == "totally_unknown_v9"));
}

#[test]
fn merges_pc_import_v1_inline_event_transitions_into_top_level_events() {
    let mut animation = schema("pc_import_v1");
    animation.events.clear();
    animation.animations[2].event_transitions.push(drag_end_rule());
    let bundle = validate(animation, vec![true; 13]).unwrap();

    let drag = bundle.animation.animations.iter().find(|a| a.key == "drag").unwrap();
    assert_eq!(drag.event_transitions.len(), 1);

    let merged = bundle
        .animation
        .events
        .iter()
        .find(|e| e.event == EngineEventKind::DragEnd && e.from.as_deref() == Some("drag"));
    assert!(merged.is_some(), "inline eventTransitions on 'drag' must be merged into top-level events");
    assert_eq!(merged.unwrap().to.as_deref(), Some("fall"));
}

#[test]
fn validation_refuses_an_unsupported_manifest_schema_version_first() {
    let mut m = manifest(13);
    m.schema_version = 3;
    let err = MascotBundle::validate(m, schema("totally_unknown_v9"), "bundle".to_string(), "bundle/sprites/".to_string(), &vec![true; 13])
        .unwrap_err();
    assert!(matches!(err, BundleError::UnsupportedSchemaVersion { found: 3 }));
}
