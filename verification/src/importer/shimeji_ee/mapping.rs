//! Wiring shimeji-ee actions into the animation schema: the surface an action
//! plays on, the fixed engine-event rules, and the links that chain one step of a
//! sequence to the next.

use crate::format::animation::{
    Animation, AutoBehavior, BorderTransition, ChoiceItem, Edge, EngineEventKind, EventRule, LoopMode, SurfaceType,
    TimerRule,
};
use super::values::{f64_bits_of_integer, f64_bits_of_u32, parse_u32_spec, parse_u32_text};
use super::actions::{actions_mapped, map_actions, pose_total, sequence_actions, sequence_applied, sequences_applied, MappedActions};
use super::sprites::SpriteFile;
use super::xml::{opt_view, RawAction, RawActionRef, RawBehavior, RawBehaviorRef};
use super::ShimejiEeError;
use crate::format::animation::AnimationSchema;
use crate::state_machine::text_equals;
use vstd::prelude::*;

verus! {

/// The bit pattern of the binary64 number 1.0: the weight of a single linked choice and the
/// chance of a linking timer.
pub const ONE_BITS: u64 = 0x3ff0_0000_0000_0000;

/// How long a looping step of a sequence plays before the next step when its `Duration`
/// is not a plain number of ticks.
pub const SEQUENCE_STEP_FALLBACK_TICKS: u32 = 60;

/// The surface an action with this `BorderType` plays on.
pub open spec fn surface_type_spec(border_type: Option<Seq<char>>) -> SurfaceType {
    match border_type {
        Some(t) => if t == "Floor"@ {
            SurfaceType::Ground
        } else if t == "Wall"@ {
            SurfaceType::Wall
        } else if t == "Ceiling"@ {
            SurfaceType::Ceiling
        } else {
            SurfaceType::Air
        },
        None => SurfaceType::Air,
    }
}

/// The surface an action with this `BorderType` plays on: `Floor` is the ground, `Wall`
/// and `Ceiling` are themselves, and anything else is the air.
pub fn surface_type(border_type: Option<&str>) -> (kind: SurfaceType)
    ensures
        kind == surface_type_spec(match border_type {
            Some(t) => Some(t@),
            None => None,
        }),
{
    match border_type {
        Some(t) => {
            if text_equals(t, "Floor") {
                SurfaceType::Ground
            } else if text_equals(t, "Wall") {
                SurfaceType::Wall
            } else if text_equals(t, "Ceiling") {
                SurfaceType::Ceiling
            } else {
                SurfaceType::Air
            }
        },
        None => SurfaceType::Air,
    }
}

/// A rule that moves any animation to `to` on `event`, whatever the surface, facing or level.
pub fn wildcard_event(event: EngineEventKind, to: &str) -> (rule: EventRule)
    ensures
        rule.event == event,
        rule.from matches Some(f) && f@ == "*"@,
        rule.to matches Some(t) && t@ == to@,
        rule.when is None,
        rule.facing is None,
        rule.set_facing is None,
        rule.choices is None,
        rule.min_level is None,
        rule.max_level is None,
        rule.allowed_types is None,
{
    EventRule {
        event,
        from: Some(String::from_str("*")),
        when: None,
        facing: None,
        to: Some(String::from_str(to)),
        set_facing: None,
        choices: None,
        min_level: None,
        max_level: None,
        allowed_types: None,
    }
}

/// `choices` is a single plain choice of `to`: weight 1.0, no facing change, no level limit.
pub open spec fn only_choice_of(choices: Seq<ChoiceItem>, to: Seq<char>) -> bool {
    &&& choices.len() == 1
    &&& choices[0].to@ == to
    &&& choices[0].weight_bits == ONE_BITS
    &&& choices[0].set_facing is None
    &&& choices[0].min_level is None
}

/// Some transition of `bts` fires on edge `when`.
pub open spec fn has_border(bts: Seq<BorderTransition>, when: Edge) -> bool {
    exists|k: int| 0 <= k < bts.len() && (#[trigger] bts[k]).when == when
}

/// `after` is `before` with its border transitions changed only as pushing a transition
/// on `when` to `to` changes them: kept when some transition already fires on `when`, and
/// otherwise extended by one unconditional transition to `to` alone.
pub open spec fn border_pushed_once(before: Animation, after: Animation, when: Edge, to: Seq<char>) -> bool {
    let old_bts = before.border_transitions@;
    let new_bts = after.border_transitions@;
    &&& after == Animation { border_transitions: after.border_transitions, ..before }
    &&& has_border(old_bts, when) ==> after == before
    &&& !has_border(old_bts, when) ==> {
        &&& new_bts.len() == old_bts.len() + 1
        &&& new_bts.subrange(0, old_bts.len() as int) == old_bts
        &&& new_bts.last().when == when
        &&& new_bts.last().facing is None
        &&& only_choice_of(new_bts.last().choices@, to)
    }
}

/// Adds a transition to `to` on edge `when`, unless the animation already has one on that
/// edge: an animation shared by several sequences keeps the first target it was given.
pub fn push_border_transition_once(anim: &mut Animation, when: Edge, to: &str)
    ensures
        border_pushed_once(*old(anim), *final(anim), when, to@),
{
    let mut k: usize = 0;
    while k < anim.border_transitions.len()
        invariant
            k <= anim.border_transitions@.len(),
            forall|j: int| 0 <= j < k ==> (#[trigger] anim.border_transitions@[j]).when != when,
        decreases anim.border_transitions@.len() - k,
    {
        if anim.border_transitions[k].when == when {
            return;
        }
        k = k + 1;
    }
    let choice = ChoiceItem { to: String::from_str(to), weight_bits: ONE_BITS, set_facing: None, min_level: None };
    let mut choices: Vec<ChoiceItem> = Vec::new();
    choices.push(choice);
    anim.border_transitions.push(BorderTransition { when, facing: None, choices });
    assert(anim.border_transitions@.subrange(0, old(anim).border_transitions@.len() as int)
        =~= old(anim).border_transitions@);
}

/// The position of the first animation of `anims` from the `k`-th on whose key is `key`.
pub open spec fn first_with_key(anims: Seq<Animation>, key: Seq<char>, k: int) -> Option<int>
    decreases anims.len() - k,
{
    if k < 0 || k >= anims.len() {
        None
    } else if anims[k].key@ == key {
        Some(k)
    } else {
        first_with_key(anims, key, k + 1)
    }
}

/// The `onFinish` choices of an animation's auto behavior (none without one).
pub open spec fn finish_choices(a: Animation) -> Seq<ChoiceItem> {
    match a.auto {
        Some(auto) => auto.on_finish@,
        None => Seq::empty(),
    }
}

/// The timer rules of an animation's auto behavior (none without one).
pub open spec fn timer_list(a: Animation) -> Seq<TimerRule> {
    match a.auto {
        Some(auto) => auto.on_timer@,
        None => Seq::empty(),
    }
}

/// `a` already moves on to `to` the way linking would make it: a oneshot by one of its
/// `onFinish` choices, any other animation by a choice of one of its timers.
pub open spec fn already_links(a: Animation, to: Seq<char>) -> bool {
    if a.loop_mode == LoopMode::Oneshot {
        exists|c: int| 0 <= c < finish_choices(a).len() && (#[trigger] finish_choices(a)[c]).to@ == to
    } else {
        exists|r: int, c: int|
            #![trigger timer_list(a)[r].choices@[c]]
            0 <= r < timer_list(a).len() && 0 <= c < timer_list(a)[r].choices@.len()
                && timer_list(a)[r].choices@[c].to@ == to
    }
}

/// The ticks a linking timer waits: the step's own duration, or the fallback.
pub open spec fn link_ticks(duration_ticks: Option<u32>) -> u32 {
    match duration_ticks {
        Some(t) => t,
        None => SEQUENCE_STEP_FALLBACK_TICKS,
    }
}

/// `after` is `before` linked on to `to`: a oneshot gains `to` as a last `onFinish`
/// choice, any other animation a last timer that takes `to` for certain after
/// `link_ticks(duration_ticks)` ticks; everything else stays, and an animation already
/// linked to `to` stays as it is.
pub open spec fn linked_animation(before: Animation, after: Animation, to: Seq<char>, duration_ticks: Option<u32>) -> bool {
    &&& after == Animation { auto: after.auto, ..before }
    &&& already_links(before, to) ==> after.auto == before.auto
    &&& !already_links(before, to) ==> (after.auto matches Some(auto) && {
        &&& auto.max_duration_ticks == match before.auto {
            Some(b) => b.max_duration_ticks,
            None => None,
        }
        &&& if before.loop_mode == LoopMode::Oneshot {
            &&& auto.on_timer@ == timer_list(before)
            &&& auto.on_finish@.len() == finish_choices(before).len() + 1
            &&& auto.on_finish@.subrange(0, finish_choices(before).len() as int) == finish_choices(before)
            &&& only_choice_of(auto.on_finish@.subrange(finish_choices(before).len() as int, auto.on_finish@.len() as int), to)
        } else {
            &&& auto.on_finish@ == finish_choices(before)
            &&& auto.on_timer@.len() == timer_list(before).len() + 1
            &&& auto.on_timer@.subrange(0, timer_list(before).len() as int) == timer_list(before)
            &&& auto.on_timer@.last().min_ticks == link_ticks(duration_ticks)
            &&& auto.on_timer@.last().max_ticks == link_ticks(duration_ticks)
            &&& auto.on_timer@.last().chance_bits == ONE_BITS
            &&& only_choice_of(auto.on_timer@.last().choices@, to)
        }
    })
}

/// `after` is `before` with the first animation keyed `from_key` linked on to `to_key`,
/// and nothing else changed (nothing at all without such an animation).
pub open spec fn linked(
    before: Seq<Animation>,
    after: Seq<Animation>,
    from_key: Seq<char>,
    to_key: Seq<char>,
    duration_ticks: Option<u32>,
) -> bool {
    match first_with_key(before, from_key, 0) {
        None => after == before,
        Some(i) => {
            &&& after.len() == before.len()
            &&& forall|j: int| 0 <= j < before.len() && j != i ==> after[j] == before[j]
            &&& linked_animation(before[i], after[i], to_key, duration_ticks)
        },
    }
}

proof fn lemma_first_with_key_bounds(anims: Seq<Animation>, key: Seq<char>, k: int)
    requires
        0 <= k,
    ensures
        first_with_key(anims, key, k) matches Some(i) ==> k <= i < anims.len() && anims[i].key@ == key
            && forall|j: int| k <= j < i ==> (#[trigger] anims[j]).key@ != key,
        first_with_key(anims, key, k) is None ==> forall|j: int| k <= j < anims.len() ==> (#[trigger] anims[j]).key@ != key,
    decreases anims.len() - k,
{
    if 0 <= k < anims.len() && anims[k].key@ != key {
        lemma_first_with_key_bounds(anims, key, k + 1);
    }
}

/// Whether `choices` holds a choice of `to`.
fn has_choice(choices: &Vec<ChoiceItem>, to: &str) -> (found: bool)
    ensures
        found == exists|c: int| 0 <= c < choices@.len() && (#[trigger] choices@[c]).to@ == to@,
{
    let mut c: usize = 0;
    while c < choices.len()
        invariant
            c <= choices@.len(),
            forall|j: int| 0 <= j < c ==> (#[trigger] choices@[j]).to@ != to@,
        decreases choices@.len() - c,
    {
        if text_equals(choices[c].to.as_str(), to) {
            return true;
        }
        c = c + 1;
    }
    false
}

/// Whether some timer rule of `rules` has a choice of `to`.
fn has_timer_choice(rules: &Vec<TimerRule>, to: &str) -> (found: bool)
    ensures
        found == exists|r: int, c: int|
            #![trigger rules@[r].choices@[c]]
            0 <= r < rules@.len() && 0 <= c < rules@[r].choices@.len() && rules@[r].choices@[c].to@ == to@,
{
    let mut r: usize = 0;
    while r < rules.len()
        invariant
            r <= rules@.len(),
            forall|j: int, c: int|
                #![trigger rules@[j].choices@[c]]
                0 <= j < r && 0 <= c < rules@[j].choices@.len() ==> rules@[j].choices@[c].to@ != to@,
        decreases rules@.len() - r,
    {
        if has_choice(&rules[r].choices, to) {
            return true;
        }
        r = r + 1;
    }
    false
}

/// Links animation `anim` on to `to_key` (see `linked_animation`).
fn link_animation(anim: &mut Animation, to_key: &str, duration_ticks: Option<u32>)
    ensures
        linked_animation(*old(anim), *final(anim), to_key@, duration_ticks),
{
    let is_oneshot = anim.loop_mode == LoopMode::Oneshot;
    let mut auto = match anim.auto.take() {
        Some(a) => a,
        None => AutoBehavior { on_finish: Vec::new(), on_timer: Vec::new(), max_duration_ticks: None },
    };
    proof {
        assert(finish_choices(*old(anim)) == auto.on_finish@);
        assert(timer_list(*old(anim)) == auto.on_timer@);
    }
    if is_oneshot {
        if has_choice(&auto.on_finish, to_key) {
            anim.auto = Some(auto);
            return;
        }
        let ghost prior = auto.on_finish@;
        auto.on_finish.push(
            ChoiceItem { to: String::from_str(to_key), weight_bits: ONE_BITS, set_facing: None, min_level: None },
        );
        assert(auto.on_finish@.subrange(0, prior.len() as int) =~= prior);
    } else {
        if has_timer_choice(&auto.on_timer, to_key) {
            anim.auto = Some(auto);
            return;
        }
        let ticks = match duration_ticks {
            Some(t) => t,
            None => SEQUENCE_STEP_FALLBACK_TICKS,
        };
        let mut choices: Vec<ChoiceItem> = Vec::new();
        choices.push(
            ChoiceItem { to: String::from_str(to_key), weight_bits: ONE_BITS, set_facing: None, min_level: None },
        );
        let ghost prior = auto.on_timer@;
        auto.on_timer.push(TimerRule { choices, min_ticks: ticks, max_ticks: ticks, chance_bits: ONE_BITS });
        assert(auto.on_timer@.subrange(0, prior.len() as int) =~= prior);
    }
    anim.auto = Some(auto);
}

/// Chains the first animation keyed `from_key` on to `to_key`, as a sequence chains one
/// step to the next: a oneshot step moves on when it finishes, any other step after
/// `duration_ticks` ticks (60 where the step gives no plain number). A link that is
/// already there is not added again, so that a step shared by many sequences gets one
/// choice per target.
pub fn link(animations: &mut Vec<Animation>, from_key: &str, to_key: &str, duration_ticks: Option<u32>)
    ensures
        linked(old(animations)@, final(animations)@, from_key@, to_key@, duration_ticks),
{
    proof { lemma_first_with_key_bounds(animations@, from_key@, 0); }
    let n = animations.len();
    let mut i: usize = 0;
    while i < n && !text_equals(animations[i].key.as_str(), from_key)
        invariant
            n == animations@.len(),
            i <= n,
            forall|j: int| 0 <= j < i ==> (#[trigger] animations@[j]).key@ != from_key@,
        decreases n - i,
    {
        i = i + 1;
    }
    if i == n {
        return;
    }
    assert(first_with_key(animations@, from_key@, 0) == Some(i as int));
    let mut anim = animations.remove(i);
    link_animation(&mut anim, to_key, duration_ticks);
    animations.insert(i, anim);
    proof {
        let before = old(animations)@;
        let after = animations@;
        assert forall|j: int| 0 <= j < before.len() && j != i implies after[j] == before[j] by {
            if j < i {
                assert(after[j] == before[j]);
            } else {
                assert(after[j] == before[j]);
            }
        }
    }
}

/// The last entry of `table` named `name` (a later entry replaces an earlier one, as a
/// map insertion would).
pub open spec fn last_named<V>(table: Seq<(String, V)>, name: Seq<char>) -> Option<int>
    decreases table.len(),
{
    if table.len() == 0 {
        None
    } else if table.last().0@ == name {
        Some(table.len() - 1)
    } else {
        last_named(table.drop_last(), name)
    }
}

/// Where a step named `name` starts: the animation of the leaf action of that name, or
/// else the first animation of the sequence of that name.
pub open spec fn entry_of(leaf: Seq<(String, String)>, sequences: Seq<(String, (String, String))>, name: Seq<char>) -> Option<Seq<char>> {
    match last_named(leaf, name) {
        Some(k) => Some(leaf[k].1@),
        None => match last_named(sequences, name) {
            Some(k) => Some(sequences[k].1.0@),
            None => None,
        },
    }
}

/// Where a step named `name` ends: the animation of the leaf action of that name, or
/// else the last animation of the sequence of that name.
pub open spec fn exit_of(leaf: Seq<(String, String)>, sequences: Seq<(String, (String, String))>, name: Seq<char>) -> Option<Seq<char>> {
    match last_named(leaf, name) {
        Some(k) => Some(leaf[k].1@),
        None => match last_named(sequences, name) {
            Some(k) => Some(sequences[k].1.1@),
            None => None,
        },
    }
}

/// Every step of `refs` names a leaf action or a sequence.
pub open spec fn chain_resolves(leaf: Seq<(String, String)>, sequences: Seq<(String, (String, String))>, refs: Seq<RawActionRef>) -> bool {
    forall|k: int| 0 <= k < refs.len() ==> entry_of(leaf, sequences, (#[trigger] refs[k]).name@) is Some
}

/// The ticks a step's `Duration` gives, where it is a plain number.
pub open spec fn step_ticks(r: RawActionRef) -> Option<u32> {
    match opt_view(r.duration) {
        Some(d) => parse_u32_spec(d),
        None => None,
    }
}

/// `states` goes from `before` to `after` linking each step of `refs` on to the next:
/// the exit of step `i` to the entry of step `i + 1`, after step `i`'s own duration.
pub open spec fn chain_linked(
    before: Seq<Animation>,
    after: Seq<Animation>,
    states: Seq<Seq<Animation>>,
    leaf: Seq<(String, String)>,
    sequences: Seq<(String, (String, String))>,
    refs: Seq<RawActionRef>,
) -> bool {
    &&& states.len() == refs.len()
    &&& states[0] == before
    &&& states.last() == after
    &&& forall|i: int|
        #![trigger states[i + 1]]
        0 <= i < refs.len() - 1 ==> linked(
            states[i],
            states[i + 1],
            exit_of(leaf, sequences, refs[i].name@)->0,
            entry_of(leaf, sequences, refs[i + 1].name@)->0,
            step_ticks(refs[i]),
        )
}

pub(crate) proof fn lemma_last_named_bounds<V>(table: Seq<(String, V)>, name: Seq<char>)
    ensures
        last_named(table, name) matches Some(k) ==> 0 <= k < table.len() && table[k].0@ == name,
    decreases table.len(),
{
    if table.len() > 0 && table.last().0@ != name {
        lemma_last_named_bounds(table.drop_last(), name);
    }
}

/// The position of the last entry of `table` named `name`.
fn find_last_named<V>(table: &Vec<(String, V)>, name: &str) -> (found: Option<usize>)
    ensures
        match found {
            Some(k) => last_named(table@, name@) == Some(k as int),
            None => last_named(table@, name@) is None,
        },
{
    let mut i = table.len();
    assert(table@.subrange(0, i as int) =~= table@);
    while i > 0
        invariant
            i <= table@.len(),
            last_named(table@, name@) == last_named(table@.subrange(0, i as int), name@),
        decreases i,
    {
        assert(table@.subrange(0, i as int).drop_last() =~= table@.subrange(0, i - 1));
        if text_equals(table[i - 1].0.as_str(), name) {
            return Some(i - 1);
        }
        i = i - 1;
    }
    None
}

/// Where a step named `name` starts (see `entry_of`).
pub fn resolve_entry(name: &str, leaf: &Vec<(String, String)>, sequences: &Vec<(String, (String, String))>) -> (entry: Option<String>)
    ensures
        opt_view(entry) == entry_of(leaf@, sequences@, name@),
{
    proof {
        lemma_last_named_bounds(leaf@, name@);
        lemma_last_named_bounds(sequences@, name@);
    }
    match find_last_named(leaf, name) {
        Some(k) => Some(leaf[k].1.clone()),
        None => match find_last_named(sequences, name) {
            Some(k) => Some(sequences[k].1.0.clone()),
            None => None,
        },
    }
}

/// Where a step named `name` ends (see `exit_of`).
pub fn resolve_exit(name: &str, leaf: &Vec<(String, String)>, sequences: &Vec<(String, (String, String))>) -> (exit: Option<String>)
    ensures
        opt_view(exit) == exit_of(leaf@, sequences@, name@),
{
    proof {
        lemma_last_named_bounds(leaf@, name@);
        lemma_last_named_bounds(sequences@, name@);
    }
    match find_last_named(leaf, name) {
        Some(k) => Some(leaf[k].1.clone()),
        None => match find_last_named(sequences, name) {
            Some(k) => Some(sequences[k].1.1.clone()),
            None => None,
        },
    }
}

/// Chains the steps of a sequence: when every step names a leaf action or a sequence,
/// links the exit of each step to the entry of the next (see `link`) and returns where the
/// whole chain starts and ends. An empty chain, or one with a step that names nothing,
/// links nothing and resolves to nothing.
pub fn resolve_reference_chain(
    refs: &Vec<RawActionRef>,
    leaf: &Vec<(String, String)>,
    sequences: &Vec<(String, (String, String))>,
    animations: &mut Vec<Animation>,
) -> (anchors: Option<(String, String)>)
    ensures
        !(refs@.len() > 0 && chain_resolves(leaf@, sequences@, refs@)) ==> anchors is None
            && final(animations)@ == old(animations)@,
        refs@.len() > 0 && chain_resolves(leaf@, sequences@, refs@) ==> {
            &&& anchors matches Some((entry, exit))
                && entry@ == entry_of(leaf@, sequences@, refs@[0].name@)->0
                && exit@ == exit_of(leaf@, sequences@, refs@.last().name@)->0
            &&& exists|states: Seq<Seq<Animation>>|
                chain_linked(old(animations)@, final(animations)@, states, leaf@, sequences@, refs@)
        },
{
    let n = refs.len();
    let mut resolved: Vec<(String, String)> = Vec::new();
    let mut k: usize = 0;
    while k < n
        invariant
            n == refs@.len(),
            k <= n,
            resolved@.len() == k,
            forall|j: int| 0 <= j < k ==> entry_of(leaf@, sequences@, (#[trigger] refs@[j]).name@) == Some(resolved@[j].0@)
                && exit_of(leaf@, sequences@, refs@[j].name@) == Some(resolved@[j].1@),
        decreases n - k,
    {
        let entry = match resolve_entry(refs[k].name.as_str(), leaf, sequences) {
            Some(e) => e,
            None => {
                assert(!chain_resolves(leaf@, sequences@, refs@));
                return None;
            },
        };
        let exit = match resolve_exit(refs[k].name.as_str(), leaf, sequences) {
            Some(e) => e,
            None => {
                proof {
                    lemma_last_named_bounds(leaf@, refs@[k as int].name@);
                }
                assert(false);
                return None;
            },
        };
        resolved.push((entry, exit));
        k = k + 1;
    }
    if n == 0 {
        return None;
    }
    assert(chain_resolves(leaf@, sequences@, refs@));
    let ghost mut states: Seq<Seq<Animation>> = seq![animations@];
    let mut i: usize = 0;
    while i + 1 < n
        invariant
            n == refs@.len(),
            n > 0,
            i < n,
            resolved@.len() == n,
            forall|j: int| 0 <= j < n ==> entry_of(leaf@, sequences@, (#[trigger] refs@[j]).name@) == Some(resolved@[j].0@)
                && exit_of(leaf@, sequences@, refs@[j].name@) == Some(resolved@[j].1@),
            states.len() == i + 1,
            states[0] == old(animations)@,
            states.last() == animations@,
            forall|j: int|
                #![trigger states[j + 1]]
                0 <= j < i ==> linked(
                    states[j],
                    states[j + 1],
                    exit_of(leaf@, sequences@, refs@[j].name@)->0,
                    entry_of(leaf@, sequences@, refs@[j + 1].name@)->0,
                    step_ticks(refs@[j]),
                ),
        decreases n - i,
    {
        let duration_ticks = match &refs[i].duration {
            Some(d) => parse_u32_text(d.as_str()),
            None => None,
        };
        assert(duration_ticks == step_ticks(refs@[i as int]));
        assert(entry_of(leaf@, sequences@, refs@[i + 1].name@) == Some(resolved@[i + 1].0@));
        let ghost prior = states;
        link(animations, resolved[i].1.as_str(), resolved[i + 1].0.as_str(), duration_ticks);
        proof {
            states = states.push(animations@);
            assert forall|j: int|
                #![trigger states[j + 1]]
                0 <= j < i + 1 implies linked(
                    states[j],
                    states[j + 1],
                    exit_of(leaf@, sequences@, refs@[j].name@)->0,
                    entry_of(leaf@, sequences@, refs@[j + 1].name@)->0,
                    step_ticks(refs@[j]),
                ) by {
                if j < i {
                    assert(states[j] == prior[j]);
                    assert(states[j + 1] == prior[j + 1]);
                }
            }
        }
        i = i + 1;
    }
    assert(chain_linked(old(animations)@, animations@, states, leaf@, sequences@, refs@));
    let entry = resolved[0].0.clone();
    let exit = resolved[n - 1].1.clone();
    Some((entry, exit))
}

/// How long an animation plays before a timer takes one of its behavior's next behaviors.
pub const BEHAVIOR_FALLBACK_TICKS: u32 = 300;

/// The references that become choices: the unconditional ones that name a leaf action or
/// a sequence, each as the entry it names and its frequency.
pub open spec fn kept_choices(
    refs: Seq<RawBehaviorRef>,
    leaf: Seq<(String, String)>,
    sequences: Seq<(String, (String, String))>,
) -> Seq<(Seq<char>, u32)>
    decreases refs.len(),
{
    if refs.len() == 0 {
        Seq::empty()
    } else {
        let before = kept_choices(refs.drop_last(), leaf, sequences);
        let r = refs.last();
        if r.condition is Some {
            before
        } else {
            match entry_of(leaf, sequences, r.name@) {
                Some(entry) => before.push((entry, r.frequency)),
                None => before,
            }
        }
    }
}

/// The names of the references that are left out: the conditional ones (conditions are
/// not evaluated) and those that name nothing.
pub open spec fn skipped_refs(
    refs: Seq<RawBehaviorRef>,
    leaf: Seq<(String, String)>,
    sequences: Seq<(String, (String, String))>,
) -> Seq<Seq<char>>
    decreases refs.len(),
{
    if refs.len() == 0 {
        Seq::empty()
    } else {
        let before = skipped_refs(refs.drop_last(), leaf, sequences);
        let r = refs.last();
        if r.condition is Some || entry_of(leaf, sequences, r.name@) is None {
            before.push(r.name@)
        } else {
            before
        }
    }
}

/// `choices` are the plain choices of `kept`: each entry with its frequency as the weight.
pub open spec fn choices_of(choices: Seq<ChoiceItem>, kept: Seq<(Seq<char>, u32)>) -> bool {
    &&& choices.len() == kept.len()
    &&& forall|k: int|
        0 <= k < kept.len() ==> {
            &&& (#[trigger] choices[k]).to@ == kept[k].0
            &&& choices[k].weight_bits == f64_bits_of_integer(kept[k].1 as nat)
            &&& choices[k].set_facing is None
            &&& choices[k].min_level is None
        }
}

/// `after` is `before` with the choices of `kept` added the way chaining adds a link: a
/// oneshot gains them after its `onFinish` choices, any other animation a last timer that
/// takes one of them for certain after `BEHAVIOR_FALLBACK_TICKS` ticks.
pub open spec fn behavior_choices_added(before: Animation, after: Animation, kept: Seq<(Seq<char>, u32)>) -> bool {
    &&& after == Animation { auto: after.auto, ..before }
    &&& after.auto matches Some(auto) && {
        &&& auto.max_duration_ticks == match before.auto {
            Some(b) => b.max_duration_ticks,
            None => None,
        }
        &&& if before.loop_mode == LoopMode::Oneshot {
            let n = finish_choices(before).len() as int;
            &&& auto.on_timer@ == timer_list(before)
            &&& auto.on_finish@.len() == n + kept.len()
            &&& auto.on_finish@.subrange(0, n) == finish_choices(before)
            &&& choices_of(auto.on_finish@.subrange(n, auto.on_finish@.len() as int), kept)
        } else {
            &&& auto.on_finish@ == finish_choices(before)
            &&& auto.on_timer@.len() == timer_list(before).len() + 1
            &&& auto.on_timer@.subrange(0, timer_list(before).len() as int) == timer_list(before)
            &&& auto.on_timer@.last().min_ticks == BEHAVIOR_FALLBACK_TICKS
            &&& auto.on_timer@.last().max_ticks == BEHAVIOR_FALLBACK_TICKS
            &&& auto.on_timer@.last().chance_bits == ONE_BITS
            &&& choices_of(auto.on_timer@.last().choices@, kept)
        }
    }
}

/// One behavior of `behaviors.xml` applied to the animations and the skipped names: a
/// behavior with next behaviors whose own name resolves gives the animation where it ends
/// (the first keyed so) its resolvable unconditional next behaviors as choices; the
/// references left out, and a behavior whose name resolves to nothing, are recorded as
/// skipped.
pub open spec fn behavior_applied(
    anims0: Seq<Animation>,
    skipped0: Seq<Seq<char>>,
    anims1: Seq<Animation>,
    skipped1: Seq<Seq<char>>,
    behavior: RawBehavior,
    leaf: Seq<(String, String)>,
    sequences: Seq<(String, (String, String))>,
) -> bool {
    if behavior.next@.len() == 0 {
        anims1 == anims0 && skipped1 == skipped0
    } else {
        match exit_of(leaf, sequences, behavior.name@) {
            None => anims1 == anims0 && skipped1 == skipped0.push(behavior.name@),
            Some(exit) => {
                let kept = kept_choices(behavior.next@, leaf, sequences);
                &&& skipped1 == skipped0 + skipped_refs(behavior.next@, leaf, sequences)
                &&& if kept.len() == 0 {
                    anims1 == anims0
                } else {
                    match first_with_key(anims0, exit, 0) {
                        None => anims1 == anims0,
                        Some(i) => {
                            &&& anims1.len() == anims0.len()
                            &&& forall|j: int| 0 <= j < anims0.len() && j != i ==> anims1[j] == anims0[j]
                            &&& behavior_choices_added(anims0[i], anims1[i], kept)
                        },
                    }
                }
            },
        }
    }
}

/// The texts of `names`.
pub open spec fn texts(names: Seq<String>) -> Seq<Seq<char>> {
    names.map_values(|s: String| s@)
}

/// Adds `choices` to `anim` (see `behavior_choices_added`).
fn add_behavior_choices(anim: &mut Animation, choices: Vec<ChoiceItem>, Ghost(kept): Ghost<Seq<(Seq<char>, u32)>>)
    requires
        choices_of(choices@, kept),
    ensures
        behavior_choices_added(*old(anim), *final(anim), kept),
{
    let mut choices = choices;
    let is_oneshot = anim.loop_mode == LoopMode::Oneshot;
    let mut auto = match anim.auto.take() {
        Some(a) => a,
        None => AutoBehavior { on_finish: Vec::new(), on_timer: Vec::new(), max_duration_ticks: None },
    };
    proof {
        assert(finish_choices(*old(anim)) == auto.on_finish@);
        assert(timer_list(*old(anim)) == auto.on_timer@);
    }
    if is_oneshot {
        let ghost prior = auto.on_finish@;
        let ghost added = choices@;
        auto.on_finish.append(&mut choices);
        assert(auto.on_finish@.subrange(0, prior.len() as int) =~= prior);
        assert(auto.on_finish@.subrange(prior.len() as int, auto.on_finish@.len() as int) =~= added);
    } else {
        let ghost prior = auto.on_timer@;
        auto.on_timer.push(TimerRule {
            choices,
            min_ticks: BEHAVIOR_FALLBACK_TICKS,
            max_ticks: BEHAVIOR_FALLBACK_TICKS,
            chance_bits: ONE_BITS,
        });
        assert(auto.on_timer@.subrange(0, prior.len() as int) =~= prior);
    }
    anim.auto = Some(auto);
}

/// Applies one behavior (see `behavior_applied`).
fn apply_behavior(
    behavior: &RawBehavior,
    animations: &mut Vec<Animation>,
    leaf: &Vec<(String, String)>,
    sequences: &Vec<(String, (String, String))>,
    skipped: &mut Vec<String>,
)
    ensures
        behavior_applied(
            old(animations)@,
            texts(old(skipped)@),
            final(animations)@,
            texts(final(skipped)@),
            *behavior,
            leaf@,
            sequences@,
        ),
{
    if behavior.next.len() == 0 {
        return;
    }
    let exit = match resolve_exit(behavior.name.as_str(), leaf, sequences) {
        Some(e) => e,
        None => {
            let ghost before = skipped@;
            skipped.push(behavior.name.clone());
            assert(texts(skipped@) =~= texts(before).push(behavior.name@));
            return;
        },
    };
    let refs = &behavior.next;
    let ghost start = texts(skipped@);
    let mut choices: Vec<ChoiceItem> = Vec::new();
    let mut k: usize = 0;
    while k < refs.len()
        invariant
            refs@ == behavior.next@,
            k <= refs@.len(),
            choices_of(choices@, kept_choices(refs@.subrange(0, k as int), leaf@, sequences@)),
            texts(skipped@) == start + skipped_refs(refs@.subrange(0, k as int), leaf@, sequences@),
        decreases refs@.len() - k,
    {
        let ghost prefix = refs@.subrange(0, k as int);
        let ghost kept_before = kept_choices(prefix, leaf@, sequences@);
        let ghost skipped_before = skipped@;
        assert(refs@.subrange(0, k + 1).drop_last() =~= prefix);
        let r = &refs[k];
        if r.condition.is_some() {
            skipped.push(r.name.clone());
            assert(texts(skipped@) =~= texts(skipped_before).push(r.name@));
        } else {
            match resolve_entry(r.name.as_str(), leaf, sequences) {
                Some(entry) => {
                    let weight_bits = f64_bits_of_u32(r.frequency);
                    let ghost entry_text = entry@;
                    choices.push(ChoiceItem { to: entry, weight_bits, set_facing: None, min_level: None });
                    proof {
                        let kept_after = kept_choices(refs@.subrange(0, k + 1), leaf@, sequences@);
                        assert(kept_after == kept_before.push((entry_text, r.frequency)));
                        assert forall|j: int| 0 <= j < kept_after.len() implies {
                            &&& (#[trigger] choices@[j]).to@ == kept_after[j].0
                            &&& choices@[j].weight_bits == f64_bits_of_integer(kept_after[j].1 as nat)
                            &&& choices@[j].set_facing is None
                            &&& choices@[j].min_level is None
                        } by {
                            if j < kept_before.len() {
                                assert(kept_after[j] == kept_before[j]);
                            }
                        }
                    }
                },
                None => {
                    skipped.push(r.name.clone());
                    assert(texts(skipped@) =~= texts(skipped_before).push(r.name@));
                },
            }
        }
        k = k + 1;
    }
    assert(refs@.subrange(0, k as int) =~= refs@);
    if choices.len() == 0 {
        return;
    }
    let ghost kept = kept_choices(behavior.next@, leaf@, sequences@);
    proof { lemma_first_with_key_bounds(animations@, exit@, 0); }
    let n = animations.len();
    let mut i: usize = 0;
    while i < n && !text_equals(animations[i].key.as_str(), exit.as_str())
        invariant
            n == animations@.len(),
            i <= n,
            forall|j: int| 0 <= j < i ==> (#[trigger] animations@[j]).key@ != exit@,
        decreases n - i,
    {
        i = i + 1;
    }
    if i == n {
        return;
    }
    assert(first_with_key(animations@, exit@, 0) == Some(i as int));
    let mut anim = animations.remove(i);
    add_behavior_choices(&mut anim, choices, Ghost(kept));
    animations.insert(i, anim);
    proof {
        let before = old(animations)@;
        let after = animations@;
        assert forall|j: int| 0 <= j < before.len() && j != i implies after[j] == before[j] by {}
    }
}

/// `states` and `skip_states` go from the animations and skipped names before to those
/// after, one behavior at a time.
pub open spec fn behaviors_applied(
    anim_states: Seq<Seq<Animation>>,
    skip_states: Seq<Seq<Seq<char>>>,
    behaviors: Seq<RawBehavior>,
    leaf: Seq<(String, String)>,
    sequences: Seq<(String, (String, String))>,
) -> bool {
    &&& anim_states.len() == behaviors.len() + 1
    &&& skip_states.len() == behaviors.len() + 1
    &&& forall|i: int|
        #![trigger anim_states[i + 1]]
        0 <= i < behaviors.len() ==> behavior_applied(
            anim_states[i],
            skip_states[i],
            anim_states[i + 1],
            skip_states[i + 1],
            behaviors[i],
            leaf,
            sequences,
        )
}

/// Applies the behaviors of `behaviors.xml` in order (see `behavior_applied`): each
/// behavior's resolvable, unconditional next behaviors become choices of the animation
/// where that behavior ends, weighted by their frequencies; what is left out is recorded
/// in `skipped`.
pub fn apply_behaviors(
    behaviors: &Vec<RawBehavior>,
    animations: &mut Vec<Animation>,
    leaf: &Vec<(String, String)>,
    sequences: &Vec<(String, (String, String))>,
    skipped: &mut Vec<String>,
)
    ensures
        exists|anim_states: Seq<Seq<Animation>>, skip_states: Seq<Seq<Seq<char>>>|
            behaviors_applied(anim_states, skip_states, behaviors@, leaf@, sequences@)
                && anim_states[0] == old(animations)@ && skip_states[0] == texts(old(skipped)@)
                && anim_states.last() == final(animations)@ && skip_states.last() == texts(final(skipped)@),
{
    let ghost mut anim_states: Seq<Seq<Animation>> = seq![animations@];
    let ghost mut skip_states: Seq<Seq<Seq<char>>> = seq![texts(skipped@)];
    let mut b: usize = 0;
    while b < behaviors.len()
        invariant
            b <= behaviors@.len(),
            anim_states.len() == b + 1,
            skip_states.len() == b + 1,
            anim_states[0] == old(animations)@,
            skip_states[0] == texts(old(skipped)@),
            anim_states.last() == animations@,
            skip_states.last() == texts(skipped@),
            forall|i: int|
                #![trigger anim_states[i + 1]]
                0 <= i < b ==> behavior_applied(
                    anim_states[i],
                    skip_states[i],
                    anim_states[i + 1],
                    skip_states[i + 1],
                    behaviors@[i],
                    leaf@,
                    sequences@,
                ),
        decreases behaviors@.len() - b,
    {
        let ghost prior_anims = anim_states;
        let ghost prior_skips = skip_states;
        apply_behavior(&behaviors[b], animations, leaf, sequences, skipped);
        proof {
            anim_states = anim_states.push(animations@);
            skip_states = skip_states.push(texts(skipped@));
            assert forall|i: int|
                #![trigger anim_states[i + 1]]
                0 <= i < b + 1 implies behavior_applied(
                    anim_states[i],
                    skip_states[i],
                    anim_states[i + 1],
                    skip_states[i + 1],
                    behaviors@[i],
                    leaf@,
                    sequences@,
                ) by {
                if i < b {
                    assert(anim_states[i] == prior_anims[i] && anim_states[i + 1] == prior_anims[i + 1]);
                    assert(skip_states[i] == prior_skips[i] && skip_states[i + 1] == prior_skips[i + 1]);
                }
            }
        }
        b = b + 1;
    }
    assert(behaviors_applied(anim_states, skip_states, behaviors@, leaf@, sequences@));
}

/// Linking the same step to the same target a second time changes nothing, whatever
/// duration the second link gives: a step referenced by many sequences ends up with a
/// single choice per target.
pub proof fn lemma_linking_twice_is_linking_once(
    a0: Seq<Animation>,
    a1: Seq<Animation>,
    a2: Seq<Animation>,
    from_key: Seq<char>,
    to_key: Seq<char>,
    first_ticks: Option<u32>,
    second_ticks: Option<u32>,
)
    requires
        linked(a0, a1, from_key, to_key, first_ticks),
        linked(a1, a2, from_key, to_key, second_ticks),
    ensures
        a2 == a1,
{
    lemma_first_with_key_bounds(a0, from_key, 0);
    lemma_first_with_key_bounds(a1, from_key, 0);
    match first_with_key(a0, from_key, 0) {
        None => {},
        Some(i) => {
            assert(first_with_key(a1, from_key, 0) == Some(i)) by {
                assert forall|j: int| 0 <= j < i implies (#[trigger] a1[j]).key@ != from_key by {
                    assert(a1[j] == a0[j]);
                }
                if first_with_key(a1, from_key, 0) != Some(i) {
                    assert(a1[i].key@ == from_key);
                }
            }
            let b = a1[i];
            if !already_links(a0[i], to_key) {
                if a0[i].loop_mode == LoopMode::Oneshot {
                    let n = finish_choices(a0[i]).len() as int;
                    assert(finish_choices(b)[n].to@ == to_key) by {
                        assert(finish_choices(b).subrange(n, finish_choices(b).len() as int)[0] == finish_choices(b)[n]);
                    }
                } else {
                    let n = timer_list(a0[i]).len() as int;
                    assert(timer_list(b)[n].choices@[0].to@ == to_key);
                }
            }
            assert(already_links(b, to_key));
            assert(a2[i] == a1[i]);
            assert(a2 =~= a1);
        },
    }
}

/// Pushing a border transition on an edge that already has one changes nothing: each edge
/// of an animation keeps the first target it was given.
pub proof fn lemma_border_transition_pushed_once(
    a0: Animation,
    a1: Animation,
    a2: Animation,
    when: Edge,
    first_to: Seq<char>,
    second_to: Seq<char>,
)
    requires
        border_pushed_once(a0, a1, when, first_to),
        border_pushed_once(a1, a2, when, second_to),
    ensures
        a2 == a1,
{
    if !has_border(a0.border_transitions@, when) {
        let n = a1.border_transitions@.len() - 1;
        assert(a1.border_transitions@[n].when == when);
    }
    assert(has_border(a1.border_transitions@, when));
}

/// The schema made of mapped actions: a failed mapping fails the same way; otherwise the
/// schema is labelled `legacy_default_v1` (version 1), starts on the default animation
/// (its only initial candidate), keeps the mapped events and sprites, and holds the mapped
/// animations with the behaviors applied to them (see `behaviors_applied`), the names the
/// behaviors leave out added to the skipped ones.
pub open spec fn schema_from(
    mapped: Result<MappedActions, ShimejiEeError>,
    behaviors: Seq<RawBehavior>,
    result: Result<(AnimationSchema, Vec<SpriteFile>, Vec<String>), ShimejiEeError>,
) -> bool {
    match mapped {
        Err(e) => result matches Err(f) && f == e,
        Ok(m) => result matches Ok((schema, sprites, skipped)) && {
            &&& schema.schema_id@ == "legacy_default_v1"@
            &&& schema.version == 1
            &&& schema.default_animation@ == m.default_animation@
            &&& schema.initial_candidates@.len() == 1
            &&& schema.initial_candidates@[0]@ == m.default_animation@
            &&& schema.events@ == m.events@
            &&& sprites@ == m.sprites@
            &&& exists|anim_states: Seq<Seq<Animation>>, skip_states: Seq<Seq<Seq<char>>>|
                behaviors_applied(anim_states, skip_states, behaviors, m.leaf@, m.sequences@)
                    && anim_states[0] == m.animations@ && skip_states[0] == texts(m.skipped@)
                    && anim_states.last() == schema.animations@ && skip_states.last() == texts(skipped@)
        },
    }
}

/// What importing gives: the actions mapped (see `actions_mapped`, through the states
/// named by the other arguments) and the schema made of them (see `schema_from`).
pub open spec fn schema_mapped(
    actions: Seq<RawAction>,
    img_dir: Seq<char>,
    motions: Seq<Vec<(i32, i32)>>,
    behaviors: Seq<RawBehavior>,
    result: Result<(AnimationSchema, Vec<SpriteFile>, Vec<String>), ShimejiEeError>,
    mapped: Result<MappedActions, ShimejiEeError>,
    leaf: Seq<(String, String)>,
    anims0: Seq<Animation>,
    table: Seq<(String, u32)>,
    anim_states: Seq<Seq<Animation>>,
    seq_states: Seq<Seq<(String, (String, String))>>,
    skip_states: Seq<Seq<Seq<char>>>,
) -> bool {
    &&& actions_mapped(actions, img_dir, motions, mapped, leaf, anims0, table, anim_states, seq_states, skip_states)
    &&& schema_from(mapped, behaviors, result)
}

/// Imports a shimeji-ee mascot's actions and behaviors as an animation schema, with the
/// sprite files its frames show and the names that were left out (see `schema_mapped`).
/// `motions` holds, for each action, the motion of a physics action, one `(dx, dy)` per
/// tick.
pub fn map_to_schema(
    actions: &Vec<RawAction>,
    behaviors: &Vec<RawBehavior>,
    img_dir: &str,
    motions: &Vec<Vec<(i32, i32)>>,
) -> (result: Result<(AnimationSchema, Vec<SpriteFile>, Vec<String>), ShimejiEeError>)
    requires
        motions@.len() == actions@.len(),
        pose_total(actions@) < u32::MAX,
    ensures
        exists|
            mapped: Result<MappedActions, ShimejiEeError>,
            leaf: Seq<(String, String)>,
            anims0: Seq<Animation>,
            table: Seq<(String, u32)>,
            anim_states: Seq<Seq<Animation>>,
            seq_states: Seq<Seq<(String, (String, String))>>,
            skip_states: Seq<Seq<Seq<char>>>,
        |
            #[trigger] schema_mapped(
                actions@,
                img_dir@,
                motions@,
                behaviors@,
                result,
                mapped,
                leaf,
                anims0,
                table,
                anim_states,
                seq_states,
                skip_states,
            ),
{
    let mapped = map_actions(actions, img_dir, motions);
    let ghost mapped_view = mapped;
    let ghost (leaf, anims0, table, anim_states, seq_states, skip_states) = choose|
        leaf: Seq<(String, String)>,
        anims0: Seq<Animation>,
        table: Seq<(String, u32)>,
        anim_states: Seq<Seq<Animation>>,
        seq_states: Seq<Seq<(String, (String, String))>>,
        skip_states: Seq<Seq<Seq<char>>>,
    | actions_mapped(actions@, img_dir@, motions@, mapped_view, leaf, anims0, table, anim_states, seq_states, skip_states);
    let m = match mapped {
        Ok(m) => m,
        Err(e) => {
            let result = Err(e);
            assert(schema_mapped(
                actions@,
                img_dir@,
                motions@,
                behaviors@,
                result,
                mapped_view,
                leaf,
                anims0,
                table,
                anim_states,
                seq_states,
                skip_states,
            ));
            return result;
        },
    };
    let MappedActions { mut animations, events, default_animation, sprites, mut skipped, leaf: leaf_table, sequences } = m;
    apply_behaviors(behaviors, &mut animations, &leaf_table, &sequences, &mut skipped);
    let mut initial_candidates: Vec<String> = Vec::new();
    initial_candidates.push(default_animation.clone());
    let schema = AnimationSchema {
        schema_id: String::from_str("legacy_default_v1"),
        version: 1,
        default_animation,
        initial_candidates,
        animations,
        events,
    };
    let result = Ok((schema, sprites, skipped));
    assert(schema_mapped(
        actions@,
        img_dir@,
        motions@,
        behaviors@,
        result,
        mapped_view,
        leaf,
        anims0,
        table,
        anim_states,
        seq_states,
        skip_states,
    ));
    result
}

/// `a` and `b` hold animations with the same keys, position by position.
pub open spec fn same_keys(a: Seq<Animation>, b: Seq<Animation>) -> bool {
    &&& a.len() == b.len()
    &&& forall|j: int| 0 <= j < a.len() ==> (#[trigger] b[j]).key@ == a[j].key@
}

/// Some animation of `anims` has the key `key`.
pub open spec fn names_an_animation(anims: Seq<Animation>, key: Seq<char>) -> bool {
    exists|j: int| 0 <= j < anims.len() && (#[trigger] anims[j]).key@ == key
}

/// Every entry and exit that `seqs` records is the animation of a plain action of `leaf`.
pub open spec fn anchors_are_leaves(leaf: Seq<(String, String)>, seqs: Seq<(String, (String, String))>) -> bool {
    forall|k: int|
        0 <= k < seqs.len() ==> {
            &&& exists|j: int| 0 <= j < leaf.len() && (#[trigger] leaf[j]).1@ == (#[trigger] seqs[k]).1.0@
            &&& exists|j: int| 0 <= j < leaf.len() && (#[trigger] leaf[j]).1@ == seqs[k].1.1@
        }
}

proof fn lemma_linked_keeps_keys(before: Seq<Animation>, after: Seq<Animation>, from_key: Seq<char>, to_key: Seq<char>, ticks: Option<u32>)
    requires
        linked(before, after, from_key, to_key, ticks),
    ensures
        same_keys(before, after),
{
    if let Some(i) = first_with_key(before, from_key, 0) {
        assert forall|j: int| 0 <= j < before.len() implies (#[trigger] after[j]).key@ == before[j].key@ by {
            if j != i {
                assert(after[j] == before[j]);
            }
        }
    }
}

proof fn lemma_chain_keeps_keys(
    states: Seq<Seq<Animation>>,
    leaf: Seq<(String, String)>,
    sequences: Seq<(String, (String, String))>,
    refs: Seq<RawActionRef>,
    n: int,
)
    requires
        states.len() == refs.len(),
        0 <= n < refs.len(),
        forall|i: int|
            #![trigger states[i + 1]]
            0 <= i < refs.len() - 1 ==> linked(
                states[i],
                states[i + 1],
                exit_of(leaf, sequences, refs[i].name@)->0,
                entry_of(leaf, sequences, refs[i + 1].name@)->0,
                step_ticks(refs[i]),
            ),
    ensures
        same_keys(states[0], states[n]),
    decreases n,
{
    if n > 0 {
        lemma_chain_keeps_keys(states, leaf, sequences, refs, n - 1);
        let m = n - 1;
        assert(linked(
            states[m],
            states[m + 1],
            exit_of(leaf, sequences, refs[m].name@)->0,
            entry_of(leaf, sequences, refs[m + 1].name@)->0,
            step_ticks(refs[m]),
        ));
        lemma_linked_keeps_keys(
            states[m],
            states[m + 1],
            exit_of(leaf, sequences, refs[m].name@)->0,
            entry_of(leaf, sequences, refs[m + 1].name@)->0,
            step_ticks(refs[m]),
        );
    }
}

/// What a name resolves to is the animation of a plain action.
proof fn lemma_resolved_is_leaf(leaf: Seq<(String, String)>, seqs: Seq<(String, (String, String))>, name: Seq<char>)
    requires
        anchors_are_leaves(leaf, seqs),
    ensures
        entry_of(leaf, seqs, name) matches Some(e) ==> exists|j: int| 0 <= j < leaf.len() && (#[trigger] leaf[j]).1@ == e,
        exit_of(leaf, seqs, name) matches Some(e) ==> exists|j: int| 0 <= j < leaf.len() && (#[trigger] leaf[j]).1@ == e,
        entry_of(leaf, seqs, name) is Some <==> exit_of(leaf, seqs, name) is Some,
{
    lemma_last_named_bounds(leaf, name);
    lemma_last_named_bounds(seqs, name);
    if let Some(k) = last_named(leaf, name) {
        assert(leaf[k].1@ == entry_of(leaf, seqs, name)->0);
    } else if let Some(k) = last_named(seqs, name) {
        assert(seqs[k] == seqs[k]);
    }
}

proof fn lemma_sequences_keep_keys_and_leaf_anchors(
    anim_states: Seq<Seq<Animation>>,
    seq_states: Seq<Seq<(String, (String, String))>>,
    skip_states: Seq<Seq<Seq<char>>>,
    seqs: Seq<super::xml::RawAction>,
    leaf: Seq<(String, String)>,
    n: int,
)
    requires
        sequences_applied(anim_states, seq_states, skip_states, seqs, leaf),
        seq_states[0].len() == 0,
        0 <= n <= seqs.len(),
    ensures
        same_keys(anim_states[0], anim_states[n]),
        anchors_are_leaves(leaf, seq_states[n]),
    decreases n,
{
    if n > 0 {
        let m = n - 1;
        lemma_sequences_keep_keys_and_leaf_anchors(anim_states, seq_states, skip_states, seqs, leaf, m);
        let a = seqs[m];
        let s0 = seq_states[m];
        let s1 = seq_states[m + 1];
        assert(sequence_applied(anim_states[m], s0, skip_states[m], anim_states[m + 1], s1, skip_states[m + 1], a, leaf));
        if a.refs@.len() > 0 && chain_resolves(leaf, s0, a.refs@) {
            let states = choose|states: Seq<Seq<Animation>>| #[trigger] chain_linked(anim_states[m], anim_states[m + 1], states, leaf, s0, a.refs@);
            lemma_chain_keeps_keys(states, leaf, s0, a.refs@, a.refs@.len() - 1);
            lemma_resolved_is_leaf(leaf, s0, a.refs@[0].name@);
            lemma_resolved_is_leaf(leaf, s0, a.refs@.last().name@);
            assert(entry_of(leaf, s0, a.refs@[0].name@) is Some);
            assert(entry_of(leaf, s0, a.refs@[a.refs@.len() - 1].name@) is Some);
            assert forall|k: int| 0 <= k < s1.len() implies {
                &&& exists|j: int| 0 <= j < leaf.len() && (#[trigger] leaf[j]).1@ == (#[trigger] s1[k]).1.0@
                &&& exists|j: int| 0 <= j < leaf.len() && (#[trigger] leaf[j]).1@ == s1[k].1.1@
            } by {
                if k < s0.len() {
                    assert(s1[k] == s1.drop_last()[k]);
                    assert(s1[k] == s0[k]);
                }
            }
            assert forall|j: int| 0 <= j < anim_states[0].len() implies (#[trigger] anim_states[n][j]).key@ == anim_states[0][j].key@ by {
                assert(anim_states[m][j].key@ == anim_states[0][j].key@);
            }
        }
    }
}

proof fn lemma_behaviors_keep_keys(
    anim_states: Seq<Seq<Animation>>,
    skip_states: Seq<Seq<Seq<char>>>,
    behaviors: Seq<RawBehavior>,
    leaf: Seq<(String, String)>,
    sequences: Seq<(String, (String, String))>,
    n: int,
)
    requires
        behaviors_applied(anim_states, skip_states, behaviors, leaf, sequences),
        0 <= n <= behaviors.len(),
    ensures
        same_keys(anim_states[0], anim_states[n]),
    decreases n,
{
    if n > 0 {
        let m = n - 1;
        lemma_behaviors_keep_keys(anim_states, skip_states, behaviors, leaf, sequences, m);
        assert(behavior_applied(anim_states[m], skip_states[m], anim_states[m + 1], skip_states[m + 1], behaviors[m], leaf, sequences));
        let a0 = anim_states[m];
        let a1 = anim_states[n];
        assert forall|j: int| 0 <= j < anim_states[0].len() implies (#[trigger] a1[j]).key@ == anim_states[0][j].key@ by {
            assert(a0[j].key@ == anim_states[0][j].key@);
            if a1[j] != a0[j] {
                assert(a1[j].key@ == a0[j].key@);
            }
        }
    }
}

/// An imported schema's default animation, and the animation a drag starts, are
/// animations the schema has: the import fails rather than make a schema whose default
/// animation is missing.
pub proof fn lemma_imported_schema_names_its_default_animation(
    actions: Seq<RawAction>,
    img_dir: Seq<char>,
    motions: Seq<Vec<(i32, i32)>>,
    behaviors: Seq<RawBehavior>,
    result: Result<(AnimationSchema, Vec<SpriteFile>, Vec<String>), ShimejiEeError>,
    mapped: Result<MappedActions, ShimejiEeError>,
    leaf: Seq<(String, String)>,
    anims0: Seq<Animation>,
    table: Seq<(String, u32)>,
    anim_states: Seq<Seq<Animation>>,
    seq_states: Seq<Seq<(String, (String, String))>>,
    skip_states: Seq<Seq<Seq<char>>>,
)
    requires
        schema_mapped(actions, img_dir, motions, behaviors, result, mapped, leaf, anims0, table, anim_states, seq_states, skip_states),
        result is Ok,
    ensures
        names_an_animation(result->Ok_0.0.animations@, result->Ok_0.0.default_animation@),
        names_an_animation(result->Ok_0.0.animations@, result->Ok_0.0.events@[4].to->0@),
{
    let m = mapped->Ok_0;
    let schema = result->Ok_0.0;
    let seqs = sequence_actions(actions);
    lemma_sequences_keep_keys_and_leaf_anchors(anim_states, seq_states, skip_states, seqs, leaf, seqs.len() as int);
    let final_seqs = seq_states.last();
    assert(seq_states.last() == seq_states[seqs.len() as int]);
    assert(anim_states.last() == anim_states[seqs.len() as int]);
    let (b_states, k_states) = choose|b_states: Seq<Seq<Animation>>, k_states: Seq<Seq<Seq<char>>>|
        behaviors_applied(b_states, k_states, behaviors, m.leaf@, m.sequences@)
            && b_states[0] == m.animations@ && k_states[0] == texts(m.skipped@)
            && b_states.last() == schema.animations@ && k_states.last() == texts(result->Ok_0.2@);
    lemma_behaviors_keep_keys(b_states, k_states, behaviors, m.leaf@, m.sequences@, behaviors.len() as int);
    assert(b_states.last() == b_states[behaviors.len() as int]);
    lemma_resolved_is_leaf(leaf, final_seqs, "Fall"@);
    lemma_resolved_is_leaf(leaf, final_seqs, "Dragged"@);
    let fall = entry_of(leaf, final_seqs, "Fall"@)->0;
    let j = choose|j: int| 0 <= j < leaf.len() && (#[trigger] leaf[j]).1@ == fall;
    assert(anims0[j].key@ == leaf[j].1@);
    assert(schema.animations@[j].key@ == fall);
    let dragged = entry_of(leaf, final_seqs, "Dragged"@)->0;
    let d = choose|d: int| 0 <= d < leaf.len() && (#[trigger] leaf[d]).1@ == dragged;
    assert(anims0[d].key@ == leaf[d].1@);
    assert(schema.animations@[d].key@ == dragged);
}

} // verus!
