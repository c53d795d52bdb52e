use super::animation::{
    Animation, AnimationSchema, BorderTransition, ChoiceItem, EngineEventKind, EventRule, SurfaceType, TimerRule,
};
use super::manifest::Manifest;
use crate::state_machine::{animation_targets_known, choices_known, event_targets_known, key_known, schema_wf};
use vstd::prelude::*;

verus! {

/// Why a directory does not hold a usable mascot bundle.
#[derive(Debug)]
pub enum BundleError {
    Io { path: String, source: std::io::Error },
    ManifestParse(serde_json::Error),
    AnimationParse(serde_json::Error),
    UnsupportedSchemaVersion { found: u32 },
    UnsupportedAnimationSchema { found: String },
    SpriteCountMismatch { declared: u32, found: usize, base_path: String },
    SpriteIndexOutOfRange { animation: String, index: u32, count: u32 },
    UnknownAnimationKey { context: String, key: String },
}

/// A loaded, validated mascot bundle.
#[derive(Debug)]
pub struct MascotBundle {
    pub manifest: Manifest,
    pub animation: AnimationSchema,
    pub base_path: String,
}

/// The animation schema ids this engine plays.
pub open spec fn supported_schema(id: Seq<char>) -> bool {
    id == "legacy_default_v1"@ || id == "pc_import_v1"@
}

/// How many flags are set.
pub open spec fn count_present(present: Seq<bool>) -> nat
    decreases present.len(),
{
    if present.len() == 0 {
        0
    } else {
        count_present(present.drop_last()) + if present.last() { 1nat } else { 0nat }
    }
}

/// Frame `f` of animation `a` shows a sprite the bundle does not have.
pub open spec fn sprite_out_of_range(anims: Seq<Animation>, count: u32, a: int, f: int) -> bool {
    &&& 0 <= a < anims.len()
    &&& 0 <= f < anims[a].frames@.len()
    &&& anims[a].frames@[f].sprite >= count
}

/// No frame before frame `f` of animation `a` (animations in order, then frames in order)
/// shows a missing sprite.
pub open spec fn no_bad_sprite_before(anims: Seq<Animation>, count: u32, a: int, f: int) -> bool {
    &&& forall|a2: int, f2: int| 0 <= a2 < a ==> !(#[trigger] sprite_out_of_range(anims, count, a2, f2))
    &&& forall|f2: int| 0 <= f2 < f ==> !(#[trigger] sprite_out_of_range(anims, count, a, f2))
}

/// The name an engine event has in error messages.
pub open spec fn event_name(e: EngineEventKind) -> Seq<char> {
    match e {
        EngineEventKind::DragStart => "DragStart"@,
        EngineEventKind::DragEnd => "DragEnd"@,
        EngineEventKind::FlingStart => "FlingStart"@,
        EngineEventKind::FlingEnd => "FlingEnd"@,
        EngineEventKind::Jump => "Jump"@,
        EngineEventKind::Idle => "Idle"@,
        EngineEventKind::Tap => "Tap"@,
    }
}

/// A key that must name an animation, with the place that names it.
pub type KeyCheck = (Seq<char>, Seq<char>);

pub open spec fn choice_checks(context: Seq<char>, choices: Seq<ChoiceItem>) -> Seq<KeyCheck> {
    choices.map_values(|c: ChoiceItem| (context, c.to@))
}

pub open spec fn timer_checks(context: Seq<char>, rules: Seq<TimerRule>) -> Seq<KeyCheck>
    decreases rules.len(),
{
    if rules.len() == 0 {
        Seq::empty()
    } else {
        timer_checks(context, rules.drop_last()) + choice_checks(context, rules.last().choices@)
    }
}

pub open spec fn border_checks(context: Seq<char>, bts: Seq<BorderTransition>) -> Seq<KeyCheck>
    decreases bts.len(),
{
    if bts.len() == 0 {
        Seq::empty()
    } else {
        border_checks(context, bts.drop_last()) + choice_checks(context, bts.last().choices@)
    }
}

/// The keys an animation names: its finishing choices, its timer choices, then its
/// border-transition choices.
pub open spec fn animation_checks(a: Animation) -> Seq<KeyCheck> {
    (match a.auto {
        Some(auto) => choice_checks(a.key@ + ".auto.onFinish"@, auto.on_finish@)
            + timer_checks(a.key@ + ".auto.onTimer"@, auto.on_timer@),
        None => Seq::empty(),
    }) + border_checks(a.key@ + ".borderTransitions"@, a.border_transitions@)
}

pub open spec fn animations_checks(anims: Seq<Animation>) -> Seq<KeyCheck>
    decreases anims.len(),
{
    if anims.len() == 0 {
        Seq::empty()
    } else {
        animations_checks(anims.drop_last()) + animation_checks(anims.last())
    }
}

/// The keys an event rule names: its `to` target, then its choices.
pub open spec fn event_checks(e: EventRule) -> Seq<KeyCheck> {
    let context = "events["@ + event_name(e.event) + "]"@;
    (match e.to {
        Some(t) => seq![(context, t@)],
        None => Seq::empty(),
    }) + match e.choices {
        Some(cs) => choice_checks(context, cs@),
        None => Seq::empty(),
    }
}

pub open spec fn events_checks(events: Seq<EventRule>) -> Seq<KeyCheck>
    decreases events.len(),
{
    if events.len() == 0 {
        Seq::empty()
    } else {
        events_checks(events.drop_last()) + event_checks(events.last())
    }
}

/// The event rules attached to animations, in animation order.
pub open spec fn inline_events(anims: Seq<Animation>) -> Seq<EventRule>
    decreases anims.len(),
{
    if anims.len() == 0 {
        Seq::empty()
    } else {
        inline_events(anims.drop_last()) + anims.last().event_transitions@
    }
}

/// The schema's top-level event rules followed by those attached to its animations.
pub open spec fn merged_events(schema: AnimationSchema) -> Seq<EventRule> {
    schema.events@ + inline_events(schema.animations@)
}

/// Two event rules agree field by field (lists compared by their contents).
pub open spec fn same_rule(a: EventRule, b: EventRule) -> bool {
    &&& a.event == b.event
    &&& a.from == b.from
    &&& a.when == b.when
    &&& a.facing == b.facing
    &&& a.to == b.to
    &&& a.set_facing == b.set_facing
    &&& a.min_level == b.min_level
    &&& a.max_level == b.max_level
    &&& match (a.choices, b.choices) {
        (Some(x), Some(y)) => x@ == y@,
        (None, None) => true,
        _ => false,
    }
    &&& match (a.allowed_types, b.allowed_types) {
        (Some(x), Some(y)) => x@ == y@,
        (None, None) => true,
        _ => false,
    }
}

/// Two lists of event rules agree rule by rule.
pub open spec fn same_rules(a: Seq<EventRule>, b: Seq<EventRule>) -> bool {
    &&& a.len() == b.len()
    &&& forall|i: int| 0 <= i < a.len() ==> same_rule(#[trigger] a[i], b[i])
}

/// Every key the schema names, in the order they are checked: the default animation,
/// the initial candidates, each animation's rules, then every (merged) event rule.
pub open spec fn key_checks(schema: AnimationSchema) -> Seq<KeyCheck> {
    seq![("default_animation"@, schema.default_animation@)]
        + schema.initial_candidates@.map_values(|k: String| ("initial_candidates"@, k@))
        + animations_checks(schema.animations@)
        + events_checks(merged_events(schema))
}

/// Some animation has this key.
pub open spec fn names_animation(anims: Seq<Animation>, key: Seq<char>) -> bool {
    exists|i: int| 0 <= i < anims.len() && (#[trigger] anims[i]).key@ == key
}

/// The position of the first check whose key names no animation.
pub open spec fn first_unknown_key(checks: Seq<KeyCheck>, anims: Seq<Animation>, from: int) -> Option<int>
    decreases checks.len() - from,
{
    if from < 0 || from >= checks.len() {
        None
    } else if !names_animation(anims, checks[from].1) {
        Some(from)
    } else {
        first_unknown_key(checks, anims, from + 1)
    }
}

/// The bundle's manifest follows the only manifest schema version there is.
pub fn check_schema_version(manifest: &Manifest) -> (result: Result<(), BundleError>)
    ensures
        manifest.schema_version == 1 <==> result is Ok,
        result matches Err(e) ==> e == (BundleError::UnsupportedSchemaVersion { found: manifest.schema_version }),
{
    if manifest.schema_version != 1 {
        Err(BundleError::UnsupportedSchemaVersion { found: manifest.schema_version })
    } else {
        Ok(())
    }
}

/// The checks held as strings, seen as character sequences.
pub open spec fn pair_view(v: Seq<(String, String)>) -> Seq<KeyCheck> {
    v.map_values(|p: (String, String)| (p.0@, p.1@))
}

proof fn lemma_pair_view_push(v: Seq<(String, String)>, p: (String, String))
    ensures
        pair_view(v.push(p)) == pair_view(v).push((p.0@, p.1@)),
{
    assert(pair_view(v.push(p)) =~= pair_view(v).push((p.0@, p.1@)));
}

fn push_choice_checks(out: &mut Vec<(String, String)>, context: &String, choices: &Vec<ChoiceItem>)
    ensures
        pair_view(final(out)@) == pair_view(old(out)@) + choice_checks(context@, choices@),
{
    let ghost start = out@;
    let mut i: usize = 0;
    while i < choices.len()
        invariant
            i <= choices@.len(),
            pair_view(out@) == pair_view(start) + choice_checks(context@, choices@.take(i as int)),
        decreases choices@.len() - i,
    {
        let ghost before = out@;
        out.push((context.clone(), choices[i].to.clone()));
        proof {
            lemma_pair_view_push(before, out@[out@.len() - 1]);
            assert(choice_checks(context@, choices@.take(i + 1)) =~= choice_checks(context@, choices@.take(i as int)).push(
                (context@, choices@[i as int].to@),
            ));
            assert(pair_view(out@) =~= pair_view(start) + choice_checks(context@, choices@.take(i + 1)));
        }
        i = i + 1;
    }
    assert(choices@.take(i as int) =~= choices@);
}

fn push_timer_checks(out: &mut Vec<(String, String)>, context: &String, rules: &Vec<TimerRule>)
    ensures
        pair_view(final(out)@) == pair_view(old(out)@) + timer_checks(context@, rules@),
{
    let ghost start = out@;
    let mut i: usize = 0;
    while i < rules.len()
        invariant
            i <= rules@.len(),
            pair_view(out@) == pair_view(start) + timer_checks(context@, rules@.take(i as int)),
        decreases rules@.len() - i,
    {
        push_choice_checks(out, context, &rules[i].choices);
        proof {
            assert(rules@.take(i + 1).drop_last() =~= rules@.take(i as int));
            assert(pair_view(out@) =~= pair_view(start) + timer_checks(context@, rules@.take(i + 1)));
        }
        i = i + 1;
    }
    assert(rules@.take(i as int) =~= rules@);
}

fn push_border_checks(out: &mut Vec<(String, String)>, context: &String, bts: &Vec<BorderTransition>)
    ensures
        pair_view(final(out)@) == pair_view(old(out)@) + border_checks(context@, bts@),
{
    let ghost start = out@;
    let mut i: usize = 0;
    while i < bts.len()
        invariant
            i <= bts@.len(),
            pair_view(out@) == pair_view(start) + border_checks(context@, bts@.take(i as int)),
        decreases bts@.len() - i,
    {
        push_choice_checks(out, context, &bts[i].choices);
        proof {
            assert(bts@.take(i + 1).drop_last() =~= bts@.take(i as int));
            assert(pair_view(out@) =~= pair_view(start) + border_checks(context@, bts@.take(i + 1)));
        }
        i = i + 1;
    }
    assert(bts@.take(i as int) =~= bts@);
}

fn with_suffix(key: &String, suffix: &str) -> (s: String)
    ensures
        s@ == key@ + suffix@,
{
    let mut s = String::from_str(key.as_str());
    s.append(suffix);
    s
}

fn push_animation_checks(out: &mut Vec<(String, String)>, a: &Animation)
    ensures
        pair_view(final(out)@) == pair_view(old(out)@) + animation_checks(*a),
{
    let ghost start = out@;
    match &a.auto {
        Some(auto) => {
            let finish_context = with_suffix(&a.key, ".auto.onFinish");
            push_choice_checks(out, &finish_context, &auto.on_finish);
            let timer_context = with_suffix(&a.key, ".auto.onTimer");
            push_timer_checks(out, &timer_context, &auto.on_timer);
        },
        None => {},
    }
    let border_context = with_suffix(&a.key, ".borderTransitions");
    push_border_checks(out, &border_context, &a.border_transitions);
    assert(pair_view(out@) =~= pair_view(start) + animation_checks(*a));
}

fn event_context(event: EngineEventKind) -> (context: String)
    ensures
        context@ == "events["@ + event_name(event) + "]"@,
{
    let mut s = String::from_str("events[");
    let name = match event {
        EngineEventKind::DragStart => "DragStart",
        EngineEventKind::DragEnd => "DragEnd",
        EngineEventKind::FlingStart => "FlingStart",
        EngineEventKind::FlingEnd => "FlingEnd",
        EngineEventKind::Jump => "Jump",
        EngineEventKind::Idle => "Idle",
        EngineEventKind::Tap => "Tap",
    };
    s.append(name);
    s.append("]");
    s
}

fn push_event_checks(out: &mut Vec<(String, String)>, e: &EventRule)
    ensures
        pair_view(final(out)@) == pair_view(old(out)@) + event_checks(*e),
{
    let ghost start = out@;
    let context = event_context(e.event);
    match &e.to {
        Some(t) => {
            let ghost before = out@;
            out.push((context.clone(), t.clone()));
            proof { lemma_pair_view_push(before, out@[out@.len() - 1]); }
        },
        None => {},
    }
    let ghost mid = out@;
    match &e.choices {
        Some(cs) => push_choice_checks(out, &context, cs),
        None => {},
    }
    assert(pair_view(out@) =~= pair_view(start) + event_checks(*e));
}

fn copy_choice(c: &ChoiceItem) -> (r: ChoiceItem)
    ensures
        r == *c,
{
    ChoiceItem {
        to: c.to.clone(),
        weight_bits: c.weight_bits,
        set_facing: match &c.set_facing {
            Some(f) => Some(f.clone()),
            None => None,
        },
        min_level: c.min_level,
    }
}

fn copy_choices(v: &Vec<ChoiceItem>) -> (r: Vec<ChoiceItem>)
    ensures
        r@ == v@,
{
    let mut r: Vec<ChoiceItem> = Vec::new();
    let mut i: usize = 0;
    while i < v.len()
        invariant
            i <= v@.len(),
            r@ == v@.take(i as int),
        decreases v@.len() - i,
    {
        r.push(copy_choice(&v[i]));
        assert(r@ =~= v@.take(i + 1));
        i = i + 1;
    }
    assert(v@.take(i as int) =~= v@);
    r
}

fn copy_surface_types(v: &Vec<SurfaceType>) -> (r: Vec<SurfaceType>)
    ensures
        r@ == v@,
{
    let mut r: Vec<SurfaceType> = Vec::new();
    let mut i: usize = 0;
    while i < v.len()
        invariant
            i <= v@.len(),
            r@ == v@.take(i as int),
        decreases v@.len() - i,
    {
        r.push(v[i]);
        assert(r@ =~= v@.take(i + 1));
        i = i + 1;
    }
    assert(v@.take(i as int) =~= v@);
    r
}

fn copy_event_rule(e: &EventRule) -> (r: EventRule)
    ensures
        same_rule(r, *e),
{
    EventRule {
        event: e.event,
        from: match &e.from {
            Some(f) => Some(f.clone()),
            None => None,
        },
        when: e.when,
        facing: e.facing,
        to: match &e.to {
            Some(t) => Some(t.clone()),
            None => None,
        },
        set_facing: match &e.set_facing {
            Some(f) => Some(f.clone()),
            None => None,
        },
        choices: match &e.choices {
            Some(cs) => Some(copy_choices(cs)),
            None => None,
        },
        min_level: e.min_level,
        max_level: e.max_level,
        allowed_types: match &e.allowed_types {
            Some(ts) => Some(copy_surface_types(ts)),
            None => None,
        },
    }
}

/// Whether some animation has this key.
fn names_animation_exec(anims: &Vec<Animation>, key: &String) -> (named: bool)
    ensures
        named == names_animation(anims@, key@),
{
    let mut i: usize = 0;
    while i < anims.len()
        invariant
            i <= anims@.len(),
            forall|k: int| 0 <= k < i ==> (#[trigger] anims@[k]).key@ != key@,
        decreases anims@.len() - i,
    {
        if anims[i].key == *key {
            assert(anims@[i as int].key@ == key@);
            return true;
        }
        i = i + 1;
    }
    false
}

/// Where the first frame showing a missing sprite is, if any.
fn find_bad_sprite(anims: &Vec<Animation>, count: u32) -> (found: Option<(usize, usize)>)
    ensures
        match found {
            Some((a, f)) => sprite_out_of_range(anims@, count, a as int, f as int)
                && no_bad_sprite_before(anims@, count, a as int, f as int),
            None => forall|a: int, f: int| !(#[trigger] sprite_out_of_range(anims@, count, a, f)),
        },
{
    let mut a: usize = 0;
    while a < anims.len()
        invariant
            a <= anims@.len(),
            forall|a2: int, f2: int| 0 <= a2 < a ==> !(#[trigger] sprite_out_of_range(anims@, count, a2, f2)),
        decreases anims@.len() - a,
    {
        let frames = &anims[a].frames;
        let mut f: usize = 0;
        while f < frames.len()
            invariant
                a < anims@.len(),
                frames@ == anims@[a as int].frames@,
                f <= frames@.len(),
                forall|a2: int, f2: int| 0 <= a2 < a ==> !(#[trigger] sprite_out_of_range(anims@, count, a2, f2)),
                forall|f2: int| 0 <= f2 < f ==> !(#[trigger] sprite_out_of_range(anims@, count, a as int, f2)),
            decreases frames@.len() - f,
        {
            if frames[f].sprite >= count {
                assert(sprite_out_of_range(anims@, count, a as int, f as int));
                return Some((a, f));
            }
            f = f + 1;
        }
        assert forall|a2: int, f2: int| 0 <= a2 < a + 1 implies !(#[trigger] sprite_out_of_range(anims@, count, a2, f2)) by {
            if a2 == a as int && sprite_out_of_range(anims@, count, a2, f2) {
                assert(!sprite_out_of_range(anims@, count, a as int, f2));
            }
        }
        a = a + 1;
    }
    assert forall|a2: int, f2: int| !(#[trigger] sprite_out_of_range(anims@, count, a2, f2)) by {
        if 0 <= a2 < anims@.len() {
        }
    }
    None
}

fn count_true(present: &Vec<bool>) -> (n: usize)
    ensures
        n == count_present(present@),
{
    let mut n: usize = 0;
    let mut i: usize = 0;
    while i < present.len()
        invariant
            i <= present@.len(),
            n == count_present(present@.take(i as int)),
            n <= i,
        decreases present@.len() - i,
    {
        assert(present@.take(i + 1).drop_last() =~= present@.take(i as int));
        if present[i] {
            n = n + 1;
        }
        i = i + 1;
    }
    assert(present@.take(i as int) =~= present@);
    n
}

proof fn lemma_same_rules_same_checks(a: Seq<EventRule>, b: Seq<EventRule>)
    requires
        same_rules(a, b),
    ensures
        events_checks(a) == events_checks(b),
    decreases a.len(),
{
    if a.len() > 0 {
        assert(same_rule(a[a.len() - 1], b[b.len() - 1]));
        assert(same_rules(a.drop_last(), b.drop_last())) by {
            assert forall|i: int| 0 <= i < a.len() - 1 implies same_rule(#[trigger] a.drop_last()[i], b.drop_last()[i]) by {
                assert(same_rule(a[i], b[i]));
            }
        }
        lemma_same_rules_same_checks(a.drop_last(), b.drop_last());
        assert(event_checks(a.last()) == event_checks(b.last()));
    }
}

/// Every check names an existing animation.
pub open spec fn all_known(checks: Seq<KeyCheck>, anims: Seq<Animation>) -> bool {
    forall|k: int| 0 <= k < checks.len() ==> names_animation(anims, (#[trigger] checks[k]).1)
}

proof fn lemma_no_unknown_means_all_known(checks: Seq<KeyCheck>, anims: Seq<Animation>, from: int)
    requires
        0 <= from <= checks.len(),
        first_unknown_key(checks, anims, from) is None,
    ensures
        forall|k: int| from <= k < checks.len() ==> names_animation(anims, (#[trigger] checks[k]).1),
    decreases checks.len() - from,
{
    if from < checks.len() {
        lemma_no_unknown_means_all_known(checks, anims, from + 1);
    }
}

proof fn lemma_named_means_known(anims: Seq<Animation>, key: Seq<char>)
    requires
        forall|i: int| 0 <= i < anims.len() ==> (#[trigger] anims[i]).frames@.len() > 0,
        names_animation(anims, key),
    ensures
        key_known(anims, key),
    decreases anims.len(),
{
    if anims.last().key@ != key {
        let i = choose|i: int| 0 <= i < anims.len() && (#[trigger] anims[i]).key@ == key;
        assert(i != anims.len() - 1);
        assert(anims.drop_last()[i] == anims[i]);
        lemma_named_means_known(anims.drop_last(), key);
    }
}

proof fn lemma_split_known(a: Seq<KeyCheck>, b: Seq<KeyCheck>, anims: Seq<Animation>)
    requires
        all_known(a + b, anims),
    ensures
        all_known(a, anims),
        all_known(b, anims),
{
    assert forall|k: int| 0 <= k < a.len() implies names_animation(anims, (#[trigger] a[k]).1) by {
        assert((a + b)[k] == a[k]);
    }
    assert forall|k: int| 0 <= k < b.len() implies names_animation(anims, (#[trigger] b[k]).1) by {
        assert((a + b)[a.len() + k] == b[k]);
    }
}

proof fn lemma_choices_checked(context: Seq<char>, choices: Seq<ChoiceItem>, anims: Seq<Animation>)
    requires
        forall|i: int| 0 <= i < anims.len() ==> (#[trigger] anims[i]).frames@.len() > 0,
        all_known(choice_checks(context, choices), anims),
    ensures
        choices_known(anims, choices),
{
    assert forall|i: int| 0 <= i < choices.len() implies key_known(anims, (#[trigger] choices[i]).to@) by {
        assert(choice_checks(context, choices)[i].1 == choices[i].to@);
        lemma_named_means_known(anims, choices[i].to@);
    }
}

proof fn lemma_timers_checked(context: Seq<char>, rules: Seq<TimerRule>, anims: Seq<Animation>)
    requires
        forall|i: int| 0 <= i < anims.len() ==> (#[trigger] anims[i]).frames@.len() > 0,
        all_known(timer_checks(context, rules), anims),
    ensures
        forall|j: int| 0 <= j < rules.len() ==> choices_known(anims, (#[trigger] rules[j]).choices@),
    decreases rules.len(),
{
    if rules.len() > 0 {
        lemma_split_known(timer_checks(context, rules.drop_last()), choice_checks(context, rules.last().choices@), anims);
        lemma_timers_checked(context, rules.drop_last(), anims);
        lemma_choices_checked(context, rules.last().choices@, anims);
        assert forall|j: int| 0 <= j < rules.len() implies choices_known(anims, (#[trigger] rules[j]).choices@) by {
            if j < rules.len() - 1 {
                assert(rules.drop_last()[j] == rules[j]);
            }
        }
    }
}

proof fn lemma_borders_checked(context: Seq<char>, bts: Seq<BorderTransition>, anims: Seq<Animation>)
    requires
        forall|i: int| 0 <= i < anims.len() ==> (#[trigger] anims[i]).frames@.len() > 0,
        all_known(border_checks(context, bts), anims),
    ensures
        forall|j: int| 0 <= j < bts.len() ==> choices_known(anims, (#[trigger] bts[j]).choices@),
    decreases bts.len(),
{
    if bts.len() > 0 {
        lemma_split_known(border_checks(context, bts.drop_last()), choice_checks(context, bts.last().choices@), anims);
        lemma_borders_checked(context, bts.drop_last(), anims);
        lemma_choices_checked(context, bts.last().choices@, anims);
        assert forall|j: int| 0 <= j < bts.len() implies choices_known(anims, (#[trigger] bts[j]).choices@) by {
            if j < bts.len() - 1 {
                assert(bts.drop_last()[j] == bts[j]);
            }
        }
    }
}

proof fn lemma_animations_checked(list: Seq<Animation>, anims: Seq<Animation>)
    requires
        forall|i: int| 0 <= i < anims.len() ==> (#[trigger] anims[i]).frames@.len() > 0,
        all_known(animations_checks(list), anims),
    ensures
        forall|i: int| 0 <= i < list.len() ==> animation_targets_known(anims, #[trigger] list[i]),
    decreases list.len(),
{
    if list.len() > 0 {
        let a = list.last();
        lemma_split_known(animations_checks(list.drop_last()), animation_checks(a), anims);
        lemma_animations_checked(list.drop_last(), anims);
        let auto_part = match a.auto {
            Some(auto) => choice_checks(a.key@ + ".auto.onFinish"@, auto.on_finish@)
                + timer_checks(a.key@ + ".auto.onTimer"@, auto.on_timer@),
            None => Seq::empty(),
        };
        lemma_split_known(auto_part, border_checks(a.key@ + ".borderTransitions"@, a.border_transitions@), anims);
        lemma_borders_checked(a.key@ + ".borderTransitions"@, a.border_transitions@, anims);
        if let Some(auto) = a.auto {
            lemma_split_known(
                choice_checks(a.key@ + ".auto.onFinish"@, auto.on_finish@),
                timer_checks(a.key@ + ".auto.onTimer"@, auto.on_timer@),
                anims,
            );
            lemma_choices_checked(a.key@ + ".auto.onFinish"@, auto.on_finish@, anims);
            lemma_timers_checked(a.key@ + ".auto.onTimer"@, auto.on_timer@, anims);
        }
        assert forall|i: int| 0 <= i < list.len() implies animation_targets_known(anims, #[trigger] list[i]) by {
            if i < list.len() - 1 {
                assert(list.drop_last()[i] == list[i]);
            }
        }
    }
}

proof fn lemma_events_checked(events: Seq<EventRule>, anims: Seq<Animation>)
    requires
        forall|i: int| 0 <= i < anims.len() ==> (#[trigger] anims[i]).frames@.len() > 0,
        all_known(events_checks(events), anims),
    ensures
        forall|i: int| 0 <= i < events.len() ==> event_targets_known(anims, #[trigger] events[i]),
    decreases events.len(),
{
    if events.len() > 0 {
        let e = events.last();
        lemma_split_known(events_checks(events.drop_last()), event_checks(e), anims);
        lemma_events_checked(events.drop_last(), anims);
        let context = "events["@ + event_name(e.event) + "]"@;
        let to_part = match e.to {
            Some(t) => seq![(context, t@)],
            None => Seq::empty(),
        };
        let choice_part = match e.choices {
            Some(cs) => choice_checks(context, cs@),
            None => Seq::empty(),
        };
        lemma_split_known(to_part, choice_part, anims);
        if let Some(t) = e.to {
            assert(to_part[0].1 == t@);
            lemma_named_means_known(anims, t@);
        }
        if let Some(cs) = e.choices {
            lemma_choices_checked(context, cs@, anims);
        }
        assert forall|i: int| 0 <= i < events.len() implies event_targets_known(anims, #[trigger] events[i]) by {
            if i < events.len() - 1 {
                assert(events.drop_last()[i] == events[i]);
            }
        }
    }
}

/// A schema that passes the key checks is runnable by the engine as soon as every
/// animation has a frame: its default animation, every transition target and every event
/// target (with the rules attached to animations merged in) name animations it has.
pub proof fn lemma_checked_schema_is_runnable(schema: AnimationSchema, merged: AnimationSchema)
    requires
        first_unknown_key(key_checks(schema), schema.animations@, 0) is None,
        merged.animations == schema.animations,
        merged.default_animation == schema.default_animation,
        same_rules(merged.events@, merged_events(schema)),
        forall|i: int| 0 <= i < schema.animations@.len() ==> (#[trigger] schema.animations@[i]).frames@.len() > 0,
    ensures
        schema_wf(merged),
{
    let anims = schema.animations@;
    let checks = key_checks(schema);
    lemma_no_unknown_means_all_known(checks, anims, 0);
    let head = seq![("default_animation"@, schema.default_animation@)];
    let candidates = schema.initial_candidates@.map_values(|k: String| ("initial_candidates"@, k@));
    let part_anims = animations_checks(anims);
    let part_events = events_checks(merged_events(schema));
    assert(checks == head + candidates + part_anims + part_events);
    lemma_split_known(head + candidates + part_anims, part_events, anims);
    lemma_split_known(head + candidates, part_anims, anims);
    lemma_split_known(head, candidates, anims);
    assert(head[0].1 == schema.default_animation@);
    lemma_named_means_known(anims, schema.default_animation@);
    lemma_animations_checked(anims, anims);
    lemma_events_checked(merged_events(schema), anims);
    assert forall|i: int| 0 <= i < merged.events@.len() implies event_targets_known(anims, #[trigger] merged.events@[i]) by {
        assert(same_rule(merged.events@[i], merged_events(schema)[i]));
        assert(event_targets_known(anims, merged_events(schema)[i]));
    }
}

impl MascotBundle {
    /// Validates a parsed bundle and assembles it. `sprite_present[i]` says whether the
    /// file for sprite `i` exists under `sprites_dir`. The checks, in order: the animation
    /// schema id is supported; every declared sprite file exists; every frame shows an
    /// existing sprite; every animation key the schema names exists. Event rules attached
    /// to animations are appended to the top-level event rules.
    pub fn validate(
        manifest: Manifest,
        animation: AnimationSchema,
        base_path: String,
        sprites_dir: String,
        sprite_present: &Vec<bool>,
    ) -> (result: Result<MascotBundle, BundleError>)
        requires
            sprite_present@.len() == manifest.sprites.sprite_count,
        ensures
            manifest.schema_version != 1 ==> (result matches Err(BundleError::UnsupportedSchemaVersion { found })
                && found == manifest.schema_version),
            manifest.schema_version == 1 && !supported_schema(animation.schema_id@) ==> (result matches Err(BundleError::UnsupportedAnimationSchema { found })
                && found@ == animation.schema_id@),
            manifest.schema_version == 1 && supported_schema(animation.schema_id@) && count_present(sprite_present@) != manifest.sprites.sprite_count ==> (
                result matches Err(BundleError::SpriteCountMismatch { declared, found, base_path: dir })
                && declared == manifest.sprites.sprite_count && found == count_present(sprite_present@)
                && dir@ == sprites_dir@),
            manifest.schema_version == 1 && supported_schema(animation.schema_id@) && count_present(sprite_present@) == manifest.sprites.sprite_count
                && (exists|a: int, f: int| sprite_out_of_range(animation.animations@, manifest.sprites.sprite_count, a, f)) ==> (
                result matches Err(BundleError::SpriteIndexOutOfRange { animation: key, index, count })
                && count == manifest.sprites.sprite_count
                && exists|a: int, f: int| sprite_out_of_range(animation.animations@, count, a, f)
                    && no_bad_sprite_before(animation.animations@, count, a, f)
                    && key@ == animation.animations@[a].key@
                    && index == animation.animations@[a].frames@[f].sprite),
            manifest.schema_version == 1 && supported_schema(animation.schema_id@) && count_present(sprite_present@) == manifest.sprites.sprite_count
                && (forall|a: int, f: int| !sprite_out_of_range(animation.animations@, manifest.sprites.sprite_count, a, f))
                && first_unknown_key(key_checks(animation), animation.animations@, 0) is Some ==> (
                result matches Err(BundleError::UnknownAnimationKey { context, key })
                && ({
                    let k = first_unknown_key(key_checks(animation), animation.animations@, 0)->0;
                    context@ == key_checks(animation)[k].0 && key@ == key_checks(animation)[k].1
                })),
            result is Ok <==> (manifest.schema_version == 1 && supported_schema(animation.schema_id@)
                && count_present(sprite_present@) == manifest.sprites.sprite_count
                && (forall|a: int, f: int| !sprite_out_of_range(animation.animations@, manifest.sprites.sprite_count, a, f))
                && first_unknown_key(key_checks(animation), animation.animations@, 0) is None),
            result matches Ok(bundle) ==> {
                &&& bundle.manifest == manifest
                &&& bundle.base_path == base_path
                &&& bundle.animation.schema_id == animation.schema_id
                &&& bundle.animation.version == animation.version
                &&& bundle.animation.default_animation == animation.default_animation
                &&& bundle.animation.initial_candidates == animation.initial_candidates
                &&& bundle.animation.animations == animation.animations
                &&& same_rules(bundle.animation.events@, merged_events(animation))
                &&& (forall|i: int| 0 <= i < animation.animations@.len()
                    ==> (#[trigger] animation.animations@[i]).frames@.len() > 0) ==> schema_wf(bundle.animation)
            },
    {
        if manifest.schema_version != 1 {
            return Err(BundleError::UnsupportedSchemaVersion { found: manifest.schema_version });
        }
        let legacy = String::from_str("legacy_default_v1");
        let imported = String::from_str("pc_import_v1");
        if !(animation.schema_id == legacy || animation.schema_id == imported) {
            return Err(BundleError::UnsupportedAnimationSchema { found: animation.schema_id });
        }

        let declared = manifest.sprites.sprite_count;
        let found = count_true(sprite_present);
        if found != declared as usize {
            return Err(BundleError::SpriteCountMismatch { declared, found, base_path: sprites_dir });
        }

        match find_bad_sprite(&animation.animations, declared) {
            Some((a, f)) => {
                assert(sprite_out_of_range(animation.animations@, declared, a as int, f as int)
                    && no_bad_sprite_before(animation.animations@, declared, a as int, f as int));
                return Err(BundleError::SpriteIndexOutOfRange {
                    animation: animation.animations[a].key.clone(),
                    index: animation.animations[a].frames[f].sprite,
                    count: declared,
                });
            },
            None => {},
        }

        let ghost original = animation;
        assert(same_rules(original.events@, original.events@ + inline_events(original.animations@.take(0))));
        let AnimationSchema { schema_id, version, default_animation, initial_candidates, animations, events } = animation;
        let mut events = events;
        let mut a: usize = 0;
        while a < animations.len()
            invariant
                a <= animations@.len(),
                animations@ == original.animations@,
                same_rules(events@, original.events@ + inline_events(animations@.take(a as int))),
            decreases animations@.len() - a,
        {
            let inline = &animations[a].event_transitions;
            let ghost before = events@;
            let mut j: usize = 0;
            while j < inline.len()
                invariant
                    j <= inline@.len(),
                    events@.len() == before.len() + j,
                    forall|q: int| 0 <= q < before.len() ==> events@[q] == #[trigger] before[q],
                    forall|q: int| 0 <= q < j ==> same_rule(#[trigger] events@[before.len() + q], inline@[q]),
                decreases inline@.len() - j,
            {
                events.push(copy_event_rule(&inline[j]));
                j = j + 1;
            }
            proof {
                let target = original.events@ + inline_events(animations@.take(a + 1));
                assert(animations@.take(a + 1).drop_last() =~= animations@.take(a as int));
                let prev = original.events@ + inline_events(animations@.take(a as int));
                assert(target =~= prev + inline@);
                assert forall|q: int| 0 <= q < events@.len() implies same_rule(#[trigger] events@[q], target[q]) by {
                    if q < before.len() {
                        assert(same_rule(before[q], prev[q]));
                    } else {
                        assert(same_rule(events@[before.len() + (q - before.len())], inline@[q - before.len()]));
                    }
                }
            }
            a = a + 1;
        }
        assert(animations@.take(a as int) =~= animations@);
        let merged = AnimationSchema { schema_id, version, default_animation, initial_candidates, animations, events };

        let mut checks: Vec<(String, String)> = Vec::new();
        let ghost empty = checks@;
        checks.push((String::from_str("default_animation"), merged.default_animation.clone()));
        proof {
            lemma_pair_view_push(empty, checks@[0]);
        }
        let mut i: usize = 0;
        let ghost first = checks@;
        while i < merged.initial_candidates.len()
            invariant
                i <= merged.initial_candidates@.len(),
                pair_view(checks@) == pair_view(first)
                    + merged.initial_candidates@.take(i as int).map_values(|k: String| ("initial_candidates"@, k@)),
            decreases merged.initial_candidates@.len() - i,
        {
            let ghost before = checks@;
            checks.push((String::from_str("initial_candidates"), merged.initial_candidates[i].clone()));
            proof {
                lemma_pair_view_push(before, checks@[checks@.len() - 1]);
                assert(merged.initial_candidates@.take(i + 1).map_values(|k: String| ("initial_candidates"@, k@))
                    =~= merged.initial_candidates@.take(i as int).map_values(|k: String| ("initial_candidates"@, k@)).push(
                        ("initial_candidates"@, merged.initial_candidates@[i as int]@)));
                assert(pair_view(checks@) =~= pair_view(first)
                    + merged.initial_candidates@.take(i + 1).map_values(|k: String| ("initial_candidates"@, k@)));
            }
            i = i + 1;
        }
        assert(merged.initial_candidates@.take(i as int) =~= merged.initial_candidates@);
        let ghost after_candidates = checks@;
        i = 0;
        while i < merged.animations.len()
            invariant
                i <= merged.animations@.len(),
                pair_view(checks@) == pair_view(after_candidates) + animations_checks(merged.animations@.take(i as int)),
            decreases merged.animations@.len() - i,
        {
            push_animation_checks(&mut checks, &merged.animations[i]);
            proof {
                assert(merged.animations@.take(i + 1).drop_last() =~= merged.animations@.take(i as int));
                assert(pair_view(checks@) =~= pair_view(after_candidates) + animations_checks(merged.animations@.take(i + 1)));
            }
            i = i + 1;
        }
        assert(merged.animations@.take(i as int) =~= merged.animations@);
        let ghost after_animations = checks@;
        i = 0;
        while i < merged.events.len()
            invariant
                i <= merged.events@.len(),
                pair_view(checks@) == pair_view(after_animations) + events_checks(merged.events@.take(i as int)),
            decreases merged.events@.len() - i,
        {
            push_event_checks(&mut checks, &merged.events[i]);
            proof {
                assert(merged.events@.take(i + 1).drop_last() =~= merged.events@.take(i as int));
                assert(pair_view(checks@) =~= pair_view(after_animations) + events_checks(merged.events@.take(i + 1)));
            }
            i = i + 1;
        }
        assert(merged.events@.take(i as int) =~= merged.events@);
        proof {
            lemma_same_rules_same_checks(merged.events@, merged_events(original));
        }
        assert(pair_view(checks@) =~= key_checks(original));

        let ghost all = pair_view(checks@);
        let mut k: usize = 0;
        let mut unknown = false;
        while k < checks.len() && !unknown
            invariant
                k <= checks@.len(),
                all == pair_view(checks@),
                merged.animations@ == original.animations@,
                !unknown ==> first_unknown_key(all, original.animations@, 0) == first_unknown_key(all, original.animations@, k as int),
                unknown ==> k < checks@.len() && first_unknown_key(all, original.animations@, 0) == Some(k as int),
            decreases checks@.len() - k + if unknown { 0int } else { 1int },
        {
            if !names_animation_exec(&merged.animations, &checks[k].1) {
                unknown = true;
            } else {
                k = k + 1;
            }
        }
        if unknown {
            let (context, key) = (checks[k].0.clone(), checks[k].1.clone());
            return Err(BundleError::UnknownAnimationKey { context, key });
        }
        proof {
            if forall|i: int| 0 <= i < original.animations@.len() ==> (#[trigger] original.animations@[i]).frames@.len() > 0 {
                lemma_checked_schema_is_runnable(original, merged);
            }
        }
        Ok(MascotBundle { manifest, animation: merged, base_path })
    }
}

} // verus!
