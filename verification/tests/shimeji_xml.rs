use shimeji::importer::shimeji_ee::values::{parse_u32_text, parse_velocity};
use shimeji::importer::shimeji_ee::xml::{parse_actions, parse_behaviors, RawAction};
use shimeji::importer::shimeji_ee::ShimejiEeError;

const ACTIONS_XML: &str = r##"<?xml version="1.0" encoding="UTF-8" ?>
<Mascot xmlns="http://www.group-finity.com/Mascot">
    <ActionList>
        <Action Name="Stand" Type="Stay" BorderType="Floor">
            <Animation>
                <Pose Image="/stand.png" ImageAnchor="64,128" Velocity="0,0" Duration="250" />
            </Animation>
        </Action>
        <Action Name="Falling" Type="Embedded" Class="com.group_finity.mascot.action.Fall" Gravity="2" RegistanceX="0.05" RegistanceY="0.1">
            <Animation>
                <Pose Image="/falling.png" ImageAnchor="64,128" Velocity="0,0" Duration="250" />
            </Animation>
        </Action>
        <Action Name="Pinched" Type="Embedded" Class="com.group_finity.mascot.action.Dragged">
            <Animation Condition="#{FootX &lt; mascot.environment.cursor.x}">
                <Pose Image="/pinched_left.png" ImageAnchor="64,128" Velocity="0,0" Duration="5" />
            </Animation>
            <Animation Condition="#{FootX &gt;= mascot.environment.cursor.x}">
                <Pose Image="/pinched_right.png" ImageAnchor="64,128" Velocity="0,0" Duration="5" />
            </Animation>
        </Action>
    </ActionList>
    <ActionList>
        <Action Name="Fall" Type="Sequence" Loop="false">
            <ActionReference Name="Falling"/>
        </Action>
        <Action Name="ThrowIe" Type="Sequence" Loop="false">
            <ActionReference Name="WalkWithIe" TargetX="${mascot.environment.activeIE.left}" />
            <ActionReference Name="Stand" Duration="20" />
        </Action>
    </ActionList>
</Mascot>"##;

const BEHAVIORS_XML: &str = r##"<?xml version="1.0" encoding="UTF-8" ?>
<Mascot xmlns="http://www.group-finity.com/Mascot">
    <BehaviorList>
        <Behavior Name="Stand" Frequency="0">
            <NextBehavior Add="false">
                <BehaviorReference Name="Walk" Frequency="100" />
                <BehaviorReference Name="ChaseMouse" Frequency="50" Condition="${mascot.environment.activeIE.exists}" />
            </NextBehavior>
        </Behavior>
        <Condition Condition="#{mascot.environment.floor.isOn(mascot.anchor)}">
            <Behavior Name="Walk" Frequency="50" />
        </Condition>
    </BehaviorList>
</Mascot>"##;

fn numeric_attribute(action: &RawAction, name: &str) -> Option<f64> {
    action.attributes.iter().find(|(n, _)| n == name).and_then(|(_, v)| v.parse::<f64>().ok())
}

#[test]
fn parses_a_literal_pose_list_action() {
    let actions = parse_actions(ACTIONS_XML).unwrap();
    let stand = actions.iter().find(|a| a.name == "Stand").unwrap();
    assert_eq!(stand.kind, "Stay");
    assert_eq!(stand.border_type.as_deref(), Some("Floor"));
    assert!(stand.class.is_none());
    assert_eq!(stand.animations.len(), 1);
    assert_eq!(stand.animations[0].poses.len(), 1);
    assert_eq!(stand.animations[0].poses[0].image, "/stand.png");
    assert_eq!(stand.animations[0].poses[0].velocity, (0, 0));
    assert_eq!(stand.animations[0].poses[0].duration, 250);
}

#[test]
fn parses_embedded_action_params_as_numbers() {
    let actions = parse_actions(ACTIONS_XML).unwrap();
    let falling = actions.iter().find(|a| a.name == "Falling").unwrap();
    assert_eq!(falling.class.as_deref(), Some("com.group_finity.mascot.action.Fall"));
    assert_eq!(numeric_attribute(falling, "Gravity"), Some(2.0));
    assert_eq!(numeric_attribute(falling, "RegistanceX"), Some(0.05));
    assert_eq!(numeric_attribute(falling, "RegistanceY"), Some(0.1));
}

#[test]
fn parses_multiple_conditioned_animation_blocks() {
    let actions = parse_actions(ACTIONS_XML).unwrap();
    let pinched = actions.iter().find(|a| a.name == "Pinched").unwrap();
    assert_eq!(pinched.animations.len(), 2);
    assert!(pinched.animations[0].condition.is_some());
    assert_eq!(pinched.animations[1].poses[0].image, "/pinched_right.png");
}

#[test]
fn parses_sequence_action_references_including_el_and_literal_durations() {
    let actions = parse_actions(ACTIONS_XML).unwrap();
    let fall = actions.iter().find(|a| a.name == "Fall").unwrap();
    assert_eq!(fall.kind, "Sequence");
    assert_eq!(fall.refs.len(), 1);
    assert_eq!(fall.refs[0].name, "Falling");

    let throw = actions.iter().find(|a| a.name == "ThrowIe").unwrap();
    assert_eq!(throw.refs.len(), 2);
    assert_eq!(throw.refs[1].name, "Stand");
    assert_eq!(throw.refs[1].duration.as_deref(), Some("20"));
}

#[test]
fn rejects_malformed_xml() {
    let err = parse_actions("<not-even-closed>").unwrap_err();
    assert!(matches!(err, ShimejiEeError::Xml(_)));
}

#[test]
fn parses_behavior_next_references_with_conditions() {
    let behaviors = parse_behaviors(BEHAVIORS_XML).unwrap();
    let stand = behaviors.iter().find(|b| b.name == "Stand").unwrap();
    assert_eq!(stand.next.len(), 2);
    assert_eq!(stand.next[0].name, "Walk");
    assert_eq!(stand.next[0].frequency, 100);
    assert!(stand.next[0].condition.is_none());
    assert_eq!(stand.next[1].name, "ChaseMouse");
    assert!(stand.next[1].condition.is_some());
}

#[test]
fn behavior_inside_a_condition_wrapper_inherits_its_condition() {
    let behaviors = parse_behaviors(BEHAVIORS_XML).unwrap();
    let walk = behaviors.iter().find(|b| b.name == "Walk").unwrap();
    assert!(walk.condition.is_some());
}

#[test]
fn actions_come_list_by_list_in_document_order() {
    let actions = parse_actions(ACTIONS_XML).unwrap();
    let names: Vec<&str> = actions.iter().map(|a| a.name.as_str()).collect();
    assert_eq!(names, vec!["Stand", "Falling", "Pinched", "Fall", "ThrowIe"]);
    assert!(!actions[3].loop_flag);
    assert_eq!(actions[0].attributes.len(), 3);
    assert_eq!(actions[0].attributes[1], ("Type".to_string(), "Stay".to_string()));
}

#[test]
fn a_behavior_keeps_its_own_condition_inside_a_condition_wrapper() {
    let xml = r#"<Mascot><Condition Condition="outer"><BehaviorList>
        <Behavior Name="A" Condition="own" Hidden="true"/>
        <Behavior Name="B" Frequency="x"/>
    </BehaviorList></Condition><Behavior Name="C"/></Mascot>"#;
    let behaviors = parse_behaviors(xml).unwrap();
    let names: Vec<&str> = behaviors.iter().map(|b| b.name.as_str()).collect();
    assert_eq!(names, vec!["A", "B", "C"]);
    assert_eq!(behaviors[0].condition.as_deref(), Some("own"));
    assert!(behaviors[0].hidden);
    assert_eq!(behaviors[1].condition.as_deref(), Some("outer"));
    assert_eq!(behaviors[1].frequency, 0);
    assert!(!behaviors[1].hidden);
    assert!(behaviors[2].condition.is_none());
}

#[test]
fn pose_defaults_apply_to_missing_or_unreadable_attributes() {
    let xml = r#"<Mascot><ActionList><Action Name="A">
        <Animation><Pose Duration="soon"/><Pose Image="/b.png" Velocity=" -3 , 4 " Duration="+7"/></Animation>
    </Action></ActionList></Mascot>"#;
    let actions = parse_actions(xml).unwrap();
    let poses = &actions[0].animations[0].poses;
    assert_eq!(poses[0].image, "");
    assert_eq!(poses[0].velocity, (0, 0));
    assert_eq!(poses[0].duration, 1);
    assert_eq!(poses[1].velocity, (-3, 4));
    assert_eq!(poses[1].duration, 7);
    assert_eq!(actions[0].kind, "");
    assert!(actions[0].border_type.is_none());
}

#[test]
fn reads_velocities_field_by_field() {
    assert_eq!(parse_velocity("-2,0"), (-2, 0));
    assert_eq!(parse_velocity("5"), (5, 0));
    assert_eq!(parse_velocity("a,7,9"), (0, 7));
    assert_eq!(parse_velocity("\u{3000}12\t, -2147483648"), (12, i32::MIN));
    assert_eq!(parse_velocity("2147483648,-2147483649"), (0, 0));
    assert_eq!(parse_velocity("-+1,+-1"), (0, 0));
    assert_eq!(parse_velocity(""), (0, 0));
}

#[test]
fn reads_u32_text_as_rust_does() {
    assert_eq!(parse_u32_text("250"), Some(250));
    assert_eq!(parse_u32_text("+1"), Some(1));
    assert_eq!(parse_u32_text("4294967295"), Some(u32::MAX));
    assert_eq!(parse_u32_text("4294967296"), None);
    assert_eq!(parse_u32_text("-0"), None);
    assert_eq!(parse_u32_text(" 1"), None);
    assert_eq!(parse_u32_text(""), None);
}
