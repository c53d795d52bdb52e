//! Mapping shimeji-ee actions to animations: each plain action becomes one animation,
//! and each sequence chains the animations of its steps.
//!
//! The motion of the physics actions (`Fall` and `Jump`) is integrated in floating point
//! outside the library; it is handed in as one `(dx, dy)` per tick, and the library turns
//! it into frames.

use super::mapping::{chain_linked, chain_resolves, entry_of, exit_of, last_named, resolve_reference_chain, surface_type, surface_type_spec};
use super::sprites::{first_sprite, lemma_last_named_of_distinct, literal_frame, sources_under, sprite_table_wf, SpriteFile, interned};
use super::xml::{opt_view, RawAction, RawPose};
use super::mapping::{texts, wildcard_event};
use super::ShimejiEeError;
use crate::format::animation::{Animation, Direction, EngineEventKind, EventRule, Frame, LoopMode, SurfaceType};
use crate::state_machine::text_equals;
use vstd::prelude::*;

verus! {

/// The class of an action that falls under gravity.
pub open spec fn is_fall_class(c: Seq<char>) -> bool {
    c == "com.group_finity.mascot.action.Fall"@
}

/// The class of an action that jumps.
pub open spec fn is_jump_class(c: Seq<char>) -> bool {
    c == "com.group_finity.mascot.action.Jump"@
}

/// The class of an action that shows the mascot being dragged.
pub open spec fn is_dragged_class(c: Seq<char>) -> bool {
    c == "com.group_finity.mascot.action.Dragged"@
}

/// The action moves by integrated physics (`Fall` or `Jump`).
pub open spec fn baked_class(class: Option<String>) -> bool {
    match opt_view(class) {
        Some(c) => is_fall_class(c) || is_jump_class(c),
        None => false,
    }
}

/// The action plays its poses as written: it has no class, or it is `Dragged`.
pub open spec fn posed_class(class: Option<String>) -> bool {
    match opt_view(class) {
        Some(c) => is_dragged_class(c),
        None => true,
    }
}

/// The action is a sequence of other actions.
pub open spec fn is_sequence(a: RawAction) -> bool {
    a.kind@ == "Sequence"@
}

/// A one-shot plays once: `Animate` actions and the physics actions; any other action loops.
pub open spec fn leaf_loop_mode(a: RawAction) -> LoopMode {
    if a.kind@ == "Animate"@ || baked_class(a.class) {
        LoopMode::Oneshot
    } else {
        LoopMode::Loop
    }
}

/// In the sprite table `table`, `image` is sprite `sprite`.
pub open spec fn shows(table: Seq<(String, u32)>, image: Seq<char>, sprite: u32) -> bool {
    last_named(table, image) == Some(sprite as int)
}

/// `sprite` is the sprite of the first pose (0 where there is none).
pub open spec fn first_shown(poses: Seq<RawPose>, table: Seq<(String, u32)>, sprite: u32) -> bool {
    if poses.len() == 0 {
        sprite == 0
    } else {
        shows(table, poses[0].image@, sprite)
    }
}

/// `frames` are the poses as written: each pose's sprite, movement and duration (at least
/// one tick).
pub open spec fn posed_frames(frames: Seq<Frame>, poses: Seq<RawPose>, table: Seq<(String, u32)>) -> bool {
    &&& frames.len() == poses.len()
    &&& forall|k: int|
        0 <= k < poses.len() ==> {
            &&& shows(table, poses[k].image@, (#[trigger] frames[k]).sprite)
            &&& frames[k].dx == poses[k].velocity.0
            &&& frames[k].dy == poses[k].velocity.1
            &&& frames[k].duration_ticks == if poses[k].duration >= 1 { poses[k].duration } else { 1 }
        }
}

/// The poses of an action's last animation block (none without a block).
pub open spec fn last_poses(a: RawAction) -> Seq<RawPose> {
    if a.animations@.len() == 0 {
        Seq::empty()
    } else {
        a.animations@.last().poses@
    }
}

/// The poses of an action's first animation block (none without a block).
pub open spec fn first_poses(a: RawAction) -> Seq<RawPose> {
    if a.animations@.len() == 0 {
        Seq::empty()
    } else {
        a.animations@[0].poses@
    }
}

/// How many sprites mapping an action can add: the poses of its last block, and one more
/// for an action that shows a single pose of its first block.
pub open spec fn sprite_bound(a: RawAction) -> nat {
    last_poses(a).len() + 1
}

/// The surface an action's animation plays on: the air for a physics action, the user's
/// hand for a dragged one, and otherwise the surface of its border type.
pub open spec fn leaf_kind(a: RawAction) -> SurfaceType {
    if baked_class(a.class) {
        SurfaceType::Air
    } else if opt_view(a.class) is Some && is_dragged_class(opt_view(a.class)->0) {
        SurfaceType::User
    } else {
        surface_type_spec(opt_view(a.border_type))
    }
}

/// The frames of an action, given its motion and the final sprite table: a physics action
/// moves by `motion`, one tick per frame, showing the first pose of its last block; a
/// posed action plays its last block's poses; an action of any other class stands still
/// on the first pose of its first block.
pub open spec fn leaf_frames(a: RawAction, frames: Seq<Frame>, motion: Seq<(i32, i32)>, table: Seq<(String, u32)>) -> bool {
    let poses = last_poses(a);
    if baked_class(a.class) {
        &&& frames.len() == motion.len()
        &&& forall|k: int|
            0 <= k < motion.len() ==> {
                &&& first_shown(poses, table, (#[trigger] frames[k]).sprite)
                &&& frames[k].dx == motion[k].0
                &&& frames[k].dy == motion[k].1
                &&& frames[k].duration_ticks == 1
            }
    } else if posed_class(a.class) {
        posed_frames(frames, poses, table)
    } else {
        &&& frames.len() == 1
        &&& first_shown(first_poses(a), table, frames[0].sprite)
        &&& frames[0].dx == 0
        &&& frames[0].dy == 0
        &&& frames[0].duration_ticks == 1
    }
}

/// `anim` is the animation that action `a` maps to: keyed by the action's name, on the
/// surface `leaf_kind` gives, with its type as the subtype, at level 1, facing either
/// way, with no transitions yet, and with its frames as `leaf_frames` says.
pub open spec fn leaf_animation(a: RawAction, anim: Animation, motion: Seq<(i32, i32)>, table: Seq<(String, u32)>) -> bool {
    &&& anim.key@ == a.name@
    &&& anim.kind == leaf_kind(a)
    &&& anim.subtype@ == a.kind@
    &&& anim.level == 1
    &&& anim.loop_mode == leaf_loop_mode(a)
    &&& anim.direction == Direction::Any
    &&& anim.auto is None
    &&& anim.border_transitions@.len() == 0
    &&& anim.event_transitions@.len() == 0
    &&& leaf_frames(a, anim.frames@, motion, table)
}

/// The names an action records as skipped when it is mapped: once when it has more than
/// one animation block (only the last is kept), and once when its class is neither a
/// physics class nor a posed one.
pub open spec fn leaf_skips(a: RawAction) -> Seq<Seq<char>> {
    let multi: Seq<Seq<char>> = if a.animations@.len() > 1 { seq![a.name@] } else { Seq::empty() };
    if a.animations@.len() > 0 && !baked_class(a.class) && !posed_class(a.class) {
        multi.push(a.name@)
    } else {
        multi
    }
}

/// `t1` extends `t0`: its first entries are those of `t0`.
pub open spec fn table_extends(t0: Seq<(String, u32)>, t1: Seq<(String, u32)>) -> bool {
    t0.len() <= t1.len() && t1.subrange(0, t0.len() as int) == t0
}

/// A sprite an image had keeps being that image's sprite as the table grows.
proof fn lemma_shows_kept(
    t0: Seq<(String, u32)>,
    t1: Seq<(String, u32)>,
    s1: Seq<SpriteFile>,
    image: Seq<char>,
    sprite: u32,
)
    requires
        sprite_table_wf(t1, s1),
        table_extends(t0, t1),
        shows(t0, image, sprite),
    ensures
        shows(t1, image, sprite),
{
    super::mapping::lemma_last_named_bounds(t0, image);
    let j = sprite as int;
    assert(t1[j] == t0[j]);
    lemma_last_named_of_distinct(t1, s1, image);
    if let Some(k) = last_named(t1, image) {
        if k != j {
            if k < j {
                assert(t1[k].0@ != t1[j].0@);
            } else {
                assert(t1[j].0@ != t1[k].0@);
            }
        }
    }
}

/// After interning, the image is shown by the sprite returned, and the table only grew.
proof fn lemma_interned_shows(
    t0: Seq<(String, u32)>,
    s0: Seq<SpriteFile>,
    t1: Seq<(String, u32)>,
    s1: Seq<SpriteFile>,
    image: Seq<char>,
    index: u32,
)
    requires
        sprite_table_wf(t0, s0),
        interned(t0, s0, t1, s1, image, index),
    ensures
        shows(t1, image, index),
        table_extends(t0, t1),
        s1.len() <= s0.len() + 1,
{
    if last_named(t0, image) is None {
        assert(t1.subrange(0, t0.len() as int) =~= t1.drop_last());
        assert(last_named(t1, image) == Some(t1.len() - 1));
    } else {
        assert(t1.subrange(0, t0.len() as int) =~= t1);
    }
}

proof fn lemma_extends_trans(t0: Seq<(String, u32)>, t1: Seq<(String, u32)>, t2: Seq<(String, u32)>)
    requires
        table_extends(t0, t1),
        table_extends(t1, t2),
    ensures
        table_extends(t0, t2),
{
    assert(t2.subrange(0, t0.len() as int) =~= t1.subrange(0, t0.len() as int));
}

/// Is `class` the given one?
fn class_is(class: &Option<String>, name: &str) -> (same: bool)
    ensures
        same == (opt_view(*class) == Some(name@)),
{
    match class {
        Some(c) => text_equals(c.as_str(), name),
        None => false,
    }
}

/// The animation of a plain action, with its sprites interned (see `leaf_animation`); an
/// action without animation blocks maps to nothing. The names it skips are recorded
/// (see `leaf_skips`).
pub fn map_leaf_action(
    action: &RawAction,
    img_dir: &str,
    motion: &Vec<(i32, i32)>,
    sprite_index: &mut Vec<(String, u32)>,
    sprites: &mut Vec<SpriteFile>,
    skipped: &mut Vec<String>,
) -> (mapped: Option<Animation>)
    requires
        sprite_table_wf(old(sprite_index)@, old(sprites)@),
        sources_under(img_dir@, old(sprite_index)@, old(sprites)@),
        old(sprites)@.len() + sprite_bound(*action) < u32::MAX,
    ensures
        sprite_table_wf(final(sprite_index)@, final(sprites)@),
        sources_under(img_dir@, final(sprite_index)@, final(sprites)@),
        table_extends(old(sprite_index)@, final(sprite_index)@),
        final(sprites)@.len() <= old(sprites)@.len() + sprite_bound(*action),
        texts(final(skipped)@) == texts(old(skipped)@) + leaf_skips(*action),
        mapped is None <==> action.animations@.len() == 0,
        mapped matches Some(anim) ==> leaf_animation(*action, anim, motion@, final(sprite_index)@),
{
    let ghost skipped0 = texts(skipped@);
    if action.animations.len() > 1 {
        skipped.push(action.name.clone());
    }
    let ghost skipped1 = texts(skipped@);
    assert(skipped1 =~= skipped0 + (if action.animations@.len() > 1 { seq![action.name@] } else { Seq::<Seq<char>>::empty() }));
    if action.animations.len() == 0 {
        assert(leaf_skips(*action) =~= Seq::<Seq<char>>::empty());
        assert(skipped1 =~= skipped0 + leaf_skips(*action));
        assert(sprite_index@.subrange(0, sprite_index@.len() as int) =~= sprite_index@);
        return None;
    }
    let block = &action.animations[action.animations.len() - 1];
    assert(block.poses@ == last_poses(*action));
    let is_fall = class_is(&action.class, "com.group_finity.mascot.action.Fall");
    let is_jump = class_is(&action.class, "com.group_finity.mascot.action.Jump");
    let is_dragged = class_is(&action.class, "com.group_finity.mascot.action.Dragged");
    let baked = is_fall || is_jump;
    let posed = action.class.is_none() || is_dragged;
    assert(baked == baked_class(action.class));
    assert(posed == posed_class(action.class));
    let ghost t0 = sprite_index@;
    let ghost s0 = sprites@;
    let mut frames: Vec<Frame> = Vec::new();
    if baked {
        let sprite = first_sprite(block, img_dir, sprite_index, sprites);
        proof {
            if block.poses@.len() > 0 {
                lemma_interned_shows(t0, s0, sprite_index@, sprites@, block.poses@[0].image@, sprite);
            } else {
                assert(sprite_index@.subrange(0, t0.len() as int) =~= sprite_index@);
            }
        }
        let mut k: usize = 0;
        while k < motion.len()
            invariant
                k <= motion@.len(),
                frames@.len() == k,
                forall|j: int|
                    0 <= j < k ==> (#[trigger] frames@[j]) == (Frame {
                        sprite,
                        dx: motion@[j].0,
                        dy: motion@[j].1,
                        duration_ticks: 1,
                    }),
            decreases motion@.len() - k,
        {
            frames.push(Frame { sprite, dx: motion[k].0, dy: motion[k].1, duration_ticks: 1 });
            k = k + 1;
        }
    } else if posed {
        let n = block.poses.len();
        assert(sprite_index@.subrange(0, t0.len() as int) =~= t0);
        let mut k: usize = 0;
        while k < n
            invariant
                n == block.poses@.len(),
                n == last_poses(*action).len(),
                k <= n,
                sprite_table_wf(sprite_index@, sprites@),
                sources_under(img_dir@, sprite_index@, sprites@),
                sprite_table_wf(t0, s0),
                table_extends(t0, sprite_index@),
                sprites@.len() <= s0.len() + k,
                s0.len() + n < u32::MAX,
                posed_frames(frames@, block.poses@.subrange(0, k as int), sprite_index@),
            decreases n - k,
        {
            let ghost tk = sprite_index@;
            let ghost sk = sprites@;
            let frame = literal_frame(&block.poses[k], img_dir, sprite_index, sprites);
            proof {
                lemma_interned_shows(tk, sk, sprite_index@, sprites@, block.poses@[k as int].image@, frame.sprite);
                lemma_extends_trans(t0, tk, sprite_index@);
            }
            let ghost prior = frames@;
            frames.push(frame);
            proof {
                let poses = block.poses@.subrange(0, k + 1);
                assert forall|j: int|
                    0 <= j < poses.len() implies {
                    &&& shows(sprite_index@, poses[j].image@, (#[trigger] frames@[j]).sprite)
                    &&& frames@[j].dx == poses[j].velocity.0
                    &&& frames@[j].dy == poses[j].velocity.1
                    &&& frames@[j].duration_ticks == if poses[j].duration >= 1 { poses[j].duration } else { 1 }
                } by {
                    if j < k {
                        assert(poses[j] == block.poses@.subrange(0, k as int)[j]);
                        assert(frames@[j] == prior[j]);
                        lemma_shows_kept(tk, sprite_index@, sprites@, poses[j].image@, frames@[j].sprite);
                    }
                }
            }
            k = k + 1;
        }
        assert(block.poses@.subrange(0, n as int) =~= block.poses@);
    } else {
        let first_block = &action.animations[0];
        assert(first_block.poses@ == first_poses(*action));
        let sprite = first_sprite(first_block, img_dir, sprite_index, sprites);
        proof {
            if first_block.poses@.len() > 0 {
                lemma_interned_shows(t0, s0, sprite_index@, sprites@, first_block.poses@[0].image@, sprite);
            } else {
                assert(sprite_index@.subrange(0, t0.len() as int) =~= sprite_index@);
            }
        }
        frames.push(Frame { sprite, dx: 0, dy: 0, duration_ticks: 1 });
        let ghost before_skip = texts(skipped@);
        skipped.push(action.name.clone());
        assert(texts(skipped@) =~= before_skip.push(action.name@));
    }
    proof {
        assert(texts(skipped@) =~= skipped0 + leaf_skips(*action));
    }
    let oneshot = text_equals(action.kind.as_str(), "Animate") || baked;
    let loop_mode = if oneshot { LoopMode::Oneshot } else { LoopMode::Loop };
    let border_type = match &action.border_type {
        Some(t) => Some(t.as_str()),
        None => None,
    };
    let kind = if baked {
        SurfaceType::Air
    } else if is_dragged {
        SurfaceType::User
    } else {
        surface_type(border_type)
    };
    Some(Animation {
        key: action.name.clone(),
        kind,
        subtype: action.kind.clone(),
        level: 1,
        loop_mode,
        direction: Direction::Any,
        frames,
        auto: None,
        border_transitions: Vec::new(),
        event_transitions: Vec::new(),
    })
}

/// A plain action that maps to an animation: not a sequence, and with an animation block.
pub open spec fn is_leaf(a: RawAction) -> bool {
    !is_sequence(a) && a.animations@.len() > 0
}

/// The positions of the plain actions that map to animations, in order.
pub open spec fn leaf_positions(actions: Seq<RawAction>) -> Seq<int>
    decreases actions.len(),
{
    if actions.len() == 0 {
        Seq::empty()
    } else if is_leaf(actions.last()) {
        leaf_positions(actions.drop_last()).push(actions.len() - 1)
    } else {
        leaf_positions(actions.drop_last())
    }
}

/// The names the plain actions record as skipped, in order.
pub open spec fn leaf_phase_skips(actions: Seq<RawAction>) -> Seq<Seq<char>>
    decreases actions.len(),
{
    if actions.len() == 0 {
        Seq::empty()
    } else if is_sequence(actions.last()) {
        leaf_phase_skips(actions.drop_last())
    } else {
        leaf_phase_skips(actions.drop_last()) + leaf_skips(actions.last())
    }
}

/// The sequences among the actions, in order.
pub open spec fn sequence_actions(actions: Seq<RawAction>) -> Seq<RawAction>
    decreases actions.len(),
{
    if actions.len() == 0 {
        Seq::empty()
    } else if is_sequence(actions.last()) {
        sequence_actions(actions.drop_last()).push(actions.last())
    } else {
        sequence_actions(actions.drop_last())
    }
}

/// A bound on the number of sprites that mapping the actions can add (see `sprite_bound`).
pub open spec fn pose_total(actions: Seq<RawAction>) -> nat
    decreases actions.len(),
{
    if actions.len() == 0 {
        0
    } else {
        pose_total(actions.drop_last()) + sprite_bound(actions.last())
    }
}

/// The plain actions mapped: `leaf` names each one's animation (its own name), and
/// `anims` holds the animations, in order (see `leaf_animation`).
pub open spec fn leaves_mapped(
    actions: Seq<RawAction>,
    motions: Seq<Vec<(i32, i32)>>,
    leaf: Seq<(String, String)>,
    anims: Seq<Animation>,
    table: Seq<(String, u32)>,
) -> bool {
    &&& leaf.len() == leaf_positions(actions).len()
    &&& anims.len() == leaf_positions(actions).len()
    &&& forall|k: int|
        #![trigger leaf[k]]
        #![trigger anims[k]]
        0 <= k < leaf_positions(actions).len() ==> {
            &&& leaf[k].0@ == actions[leaf_positions(actions)[k]].name@
            &&& leaf[k].1@ == actions[leaf_positions(actions)[k]].name@
            &&& leaf_animation(actions[leaf_positions(actions)[k]], anims[k], motions[leaf_positions(actions)[k]]@, table)
        }
}

/// One sequence applied: when it has steps and each names a plain action or an earlier
/// sequence, its steps are chained (see `chain_linked`) and it is recorded with where it
/// starts and ends; otherwise nothing changes but its name is recorded as skipped.
pub open spec fn sequence_applied(
    anims0: Seq<Animation>,
    seqs0: Seq<(String, (String, String))>,
    skipped0: Seq<Seq<char>>,
    anims1: Seq<Animation>,
    seqs1: Seq<(String, (String, String))>,
    skipped1: Seq<Seq<char>>,
    a: RawAction,
    leaf: Seq<(String, String)>,
) -> bool {
    if a.refs@.len() > 0 && chain_resolves(leaf, seqs0, a.refs@) {
        &&& seqs1.len() == seqs0.len() + 1
        &&& seqs1.drop_last() == seqs0
        &&& seqs1.last().0@ == a.name@
        &&& seqs1.last().1.0@ == entry_of(leaf, seqs0, a.refs@[0].name@)->0
        &&& seqs1.last().1.1@ == exit_of(leaf, seqs0, a.refs@.last().name@)->0
        &&& exists|states: Seq<Seq<Animation>>| chain_linked(anims0, anims1, states, leaf, seqs0, a.refs@)
        &&& skipped1 == skipped0
    } else {
        &&& anims1 == anims0
        &&& seqs1 == seqs0
        &&& skipped1 == skipped0.push(a.name@)
    }
}

/// The sequences applied in order, from the first state of each list to the last.
pub open spec fn sequences_applied(
    anim_states: Seq<Seq<Animation>>,
    seq_states: Seq<Seq<(String, (String, String))>>,
    skip_states: Seq<Seq<Seq<char>>>,
    seqs: Seq<RawAction>,
    leaf: Seq<(String, String)>,
) -> bool {
    &&& anim_states.len() == seqs.len() + 1
    &&& seq_states.len() == seqs.len() + 1
    &&& skip_states.len() == seqs.len() + 1
    &&& forall|i: int|
        #![trigger anim_states[i + 1]]
        0 <= i < seqs.len() ==> sequence_applied(
            anim_states[i],
            seq_states[i],
            skip_states[i],
            anim_states[i + 1],
            seq_states[i + 1],
            skip_states[i + 1],
            seqs[i],
            leaf,
        )
}

/// `rule` moves any animation to `to` on `event`, whatever the surface, facing or level.
pub open spec fn wildcard_rule(rule: EventRule, event: EngineEventKind, to: Seq<char>) -> bool {
    &&& rule.event == event
    &&& rule.from matches Some(f) && f@ == "*"@
    &&& rule.to matches Some(t) && t@ == to
    &&& rule.when is None
    &&& rule.facing is None
    &&& rule.set_facing is None
    &&& rule.choices is None
    &&& rule.min_level is None
    &&& rule.max_level is None
    &&& rule.allowed_types is None
}

/// The engine-event rules of an imported mascot: letting go of it (a drag's end, a
/// fling's start or end, a tap) returns it to `default`, and picking it up plays
/// `dragged`.
pub open spec fn mascot_events(events: Seq<EventRule>, default: Seq<char>, dragged: Seq<char>) -> bool {
    &&& events.len() == 5
    &&& wildcard_rule(events[0], EngineEventKind::DragEnd, default)
    &&& wildcard_rule(events[1], EngineEventKind::FlingEnd, default)
    &&& wildcard_rule(events[2], EngineEventKind::FlingStart, default)
    &&& wildcard_rule(events[3], EngineEventKind::Tap, default)
    &&& wildcard_rule(events[4], EngineEventKind::DragStart, dragged)
}

/// The actions mapped: the animations, the engine-event rules, the default animation, the
/// sprites, the names left out, and the tables of plain actions and sequences.
#[derive(Debug)]
pub struct MappedActions {
    pub animations: Vec<Animation>,
    pub events: Vec<EventRule>,
    pub default_animation: String,
    pub sprites: Vec<SpriteFile>,
    pub skipped: Vec<String>,
    pub leaf: Vec<(String, String)>,
    pub sequences: Vec<(String, (String, String))>,
}

/// What mapping `actions` gives, with the sprites' files under `img_dir`, through the
/// intermediate states named by the other arguments: the plain actions map to `leaf` and
/// `anims0` with the final sprite table `table` (each sprite's file its image joined
/// under `img_dir`, see `sources_under`); the sequences are applied from there; then `Fall` must resolve (it is the
/// default animation) and `Dragged` must too (it is played on a drag), or the mapping
/// fails naming the first of them that does not.
pub open spec fn actions_mapped(
    actions: Seq<RawAction>,
    img_dir: Seq<char>,
    motions: Seq<Vec<(i32, i32)>>,
    result: Result<MappedActions, ShimejiEeError>,
    leaf: Seq<(String, String)>,
    anims0: Seq<Animation>,
    table: Seq<(String, u32)>,
    anim_states: Seq<Seq<Animation>>,
    seq_states: Seq<Seq<(String, (String, String))>>,
    skip_states: Seq<Seq<Seq<char>>>,
) -> bool {
    let seqs = seq_states.last();
    let fall = entry_of(leaf, seqs, "Fall"@);
    let dragged = entry_of(leaf, seqs, "Dragged"@);
    &&& leaves_mapped(actions, motions, leaf, anims0, table)
    &&& sequences_applied(anim_states, seq_states, skip_states, sequence_actions(actions), leaf)
    &&& anim_states[0] == anims0
    &&& seq_states[0].len() == 0
    &&& skip_states[0] == leaf_phase_skips(actions)
    &&& match result {
        Err(e) => e matches ShimejiEeError::MissingRequiredAction(name) && {
            ||| name@ == "Fall"@ && fall is None
            ||| name@ == "Dragged"@ && fall is Some && dragged is None
        },
        Ok(m) => {
            &&& fall == Some(m.default_animation@)
            &&& dragged is Some
            &&& m.leaf@ == leaf
            &&& m.sequences@ == seqs
            &&& m.animations@ == anim_states.last()
            &&& texts(m.skipped@) == skip_states.last()
            &&& sprite_table_wf(table, m.sprites@)
            &&& sources_under(img_dir, table, m.sprites@)
            &&& mascot_events(m.events@, m.default_animation@, dragged->0)
        },
    }
}

proof fn lemma_pose_total_prefix(actions: Seq<RawAction>, i: int)
    requires
        0 <= i <= actions.len(),
    ensures
        pose_total(actions.take(i)) <= pose_total(actions),
    decreases actions.len(),
{
    if i < actions.len() {
        assert(actions.drop_last().take(i) =~= actions.take(i));
        lemma_pose_total_prefix(actions.drop_last(), i);
    } else {
        assert(actions.take(i) =~= actions);
    }
}

proof fn lemma_leaf_positions_bounds(actions: Seq<RawAction>)
    ensures
        forall|k: int| 0 <= k < leaf_positions(actions).len() ==> 0 <= #[trigger] leaf_positions(actions)[k] < actions.len(),
    decreases actions.len(),
{
    if actions.len() > 0 {
        let before = leaf_positions(actions.drop_last());
        lemma_leaf_positions_bounds(actions.drop_last());
        assert forall|k: int| 0 <= k < leaf_positions(actions).len() implies 0 <= #[trigger] leaf_positions(
            actions,
        )[k] < actions.len() by {
            if k < before.len() {
                assert(leaf_positions(actions)[k] == before[k]);
            }
        }
    }
}

/// An animation keeps what it maps to as the sprite table grows.
proof fn lemma_leaf_animation_kept(
    a: RawAction,
    anim: Animation,
    motion: Seq<(i32, i32)>,
    t0: Seq<(String, u32)>,
    t1: Seq<(String, u32)>,
    s1: Seq<SpriteFile>,
)
    requires
        leaf_animation(a, anim, motion, t0),
        table_extends(t0, t1),
        sprite_table_wf(t1, s1),
    ensures
        leaf_animation(a, anim, motion, t1),
{
    let poses = last_poses(a);
    let frames = anim.frames@;
    if baked_class(a.class) {
        assert forall|k: int| 0 <= k < motion.len() implies first_shown(poses, t1, (#[trigger] frames[k]).sprite) by {
            if poses.len() > 0 {
                lemma_shows_kept(t0, t1, s1, poses[0].image@, frames[k].sprite);
            }
        }
    } else if posed_class(a.class) {
        assert forall|k: int| 0 <= k < poses.len() implies shows(t1, poses[k].image@, (#[trigger] frames[k]).sprite) by {
            lemma_shows_kept(t0, t1, s1, poses[k].image@, frames[k].sprite);
        }
    } else {
        if first_poses(a).len() > 0 {
            lemma_shows_kept(t0, t1, s1, first_poses(a)[0].image@, frames[0].sprite);
        }
    }
}

/// Maps the actions (see `actions_mapped`): each plain action becomes an animation, each
/// sequence chains the animations of its steps, and `Fall` and `Dragged` are wired to the
/// engine's events. `motions` holds, for each action, the motion of a physics action.
pub fn map_actions(
    actions: &Vec<RawAction>,
    img_dir: &str,
    motions: &Vec<Vec<(i32, i32)>>,
) -> (result: Result<MappedActions, ShimejiEeError>)
    requires
        motions@.len() == actions@.len(),
        pose_total(actions@) < u32::MAX,
    ensures
        exists|
            leaf: Seq<(String, String)>,
            anims0: Seq<Animation>,
            table: Seq<(String, u32)>,
            anim_states: Seq<Seq<Animation>>,
            seq_states: Seq<Seq<(String, (String, String))>>,
            skip_states: Seq<Seq<Seq<char>>>,
        |
            #[trigger] actions_mapped(
                actions@,
                img_dir@,
                motions@,
                result,
                leaf,
                anims0,
                table,
                anim_states,
                seq_states,
                skip_states,
            ),
{
    let n = actions.len();
    let mut skipped: Vec<String> = Vec::new();
    let mut sprite_index: Vec<(String, u32)> = Vec::new();
    let mut sprites: Vec<SpriteFile> = Vec::new();
    let mut animations: Vec<Animation> = Vec::new();
    let mut leaf: Vec<(String, String)> = Vec::new();
    let mut i: usize = 0;
    proof {
        assert(actions@.take(0) =~= Seq::<RawAction>::empty());
        assert(texts(skipped@) =~= Seq::<Seq<char>>::empty());
    }
    while i < n
        invariant
            n == actions@.len(),
            motions@.len() == n,
            i <= n,
            pose_total(actions@) < u32::MAX,
            sprite_table_wf(sprite_index@, sprites@),
            sources_under(img_dir@, sprite_index@, sprites@),
            sprites@.len() <= pose_total(actions@.take(i as int)),
            texts(skipped@) == leaf_phase_skips(actions@.take(i as int)),
            leaves_mapped(actions@.take(i as int), motions@, leaf@, animations@, sprite_index@),
        decreases n - i,
    {
        let ghost prefix = actions@.take(i as int);
        let ghost next = actions@.take(i + 1);
        assert(next.drop_last() =~= prefix);
        assert(next.last() == actions@[i as int]);
        proof {
            lemma_pose_total_prefix(actions@, i + 1);
            lemma_leaf_positions_bounds(prefix);
        }
        let action = &actions[i];
        if !text_equals(action.kind.as_str(), "Sequence") {
            let ghost t0 = sprite_index@;
            let ghost anims_before = animations@;
            let ghost leaf_before = leaf@;
            let mapped = map_leaf_action(action, img_dir, &motions[i], &mut sprite_index, &mut sprites, &mut skipped);
            let ghost mapped_view = mapped;
            match mapped {
                Some(anim) => {
                    leaf.push((action.name.clone(), action.name.clone()));
                    animations.push(anim);
                },
                None => {},
            }
            proof {
                let pos = leaf_positions(next);
                assert(is_leaf(next.last()) == (mapped_view is Some));
                if is_leaf(next.last()) {
                    assert(pos == leaf_positions(prefix).push(i as int));
                } else {
                    assert(pos == leaf_positions(prefix));
                }
                assert(leaf@.len() == pos.len());
                assert(animations@.len() == pos.len());
                assert(leaf_phase_skips(next) == leaf_phase_skips(prefix) + leaf_skips(*action));
                assert forall|k: int|
                    #![trigger animations@[k]]
                    0 <= k < pos.len() implies {
                    &&& leaf@[k].0@ == next[pos[k]].name@
                    &&& leaf@[k].1@ == next[pos[k]].name@
                    &&& leaf_animation(next[pos[k]], animations@[k], motions@[pos[k]]@, sprite_index@)
                } by {
                    if k < anims_before.len() {
                        assert(animations@[k] == anims_before[k]);
                        assert(leaf@[k] == leaf_before[k]);
                        assert(pos[k] == leaf_positions(prefix)[k]);
                        assert(next[pos[k]] == prefix[pos[k]]);
                        lemma_leaf_animation_kept(
                            prefix[pos[k]],
                            anims_before[k],
                            motions@[pos[k]]@,
                            t0,
                            sprite_index@,
                            sprites@,
                        );
                    } else {
                        assert(pos[k] == i);
                        assert(animations@[k] == mapped_view->0);
                    }
                }
            }
        } else {
            proof {
                assert(leaf_positions(next) == leaf_positions(prefix));
                let pos = leaf_positions(prefix);
                assert forall|k: int|
                    #![trigger animations@[k]]
                    0 <= k < pos.len() implies {
                    &&& leaf@[k].0@ == next[pos[k]].name@
                    &&& leaf@[k].1@ == next[pos[k]].name@
                    &&& leaf_animation(next[pos[k]], animations@[k], motions@[pos[k]]@, sprite_index@)
                } by {
                    assert(next[pos[k]] == prefix[pos[k]]);
                }
            }
        }
        i = i + 1;
    }
    assert(actions@.take(n as int) =~= actions@);
    let ghost anims0 = animations@;
    let ghost table = sprite_index@;
    let ghost leaf_skipped = texts(skipped@);

    let mut sequences: Vec<(String, (String, String))> = Vec::new();
    let ghost mut anim_states: Seq<Seq<Animation>> = seq![animations@];
    let ghost mut seq_states: Seq<Seq<(String, (String, String))>> = seq![sequences@];
    let ghost mut skip_states: Seq<Seq<Seq<char>>> = seq![texts(skipped@)];
    let mut j: usize = 0;
    assert(sequence_actions(actions@.take(0)) =~= Seq::<RawAction>::empty());
    while j < n
        invariant
            n == actions@.len(),
            j <= n,
            sequences_applied(anim_states, seq_states, skip_states, sequence_actions(actions@.take(j as int)), leaf@),
            anim_states[0] == anims0,
            seq_states[0].len() == 0,
            skip_states[0] == leaf_skipped,
            anim_states.last() == animations@,
            seq_states.last() == sequences@,
            skip_states.last() == texts(skipped@),
        decreases n - j,
    {
        let ghost prefix = actions@.take(j as int);
        let ghost next = actions@.take(j + 1);
        assert(next.drop_last() =~= prefix);
        assert(next.last() == actions@[j as int]);
        let action = &actions[j];
        if text_equals(action.kind.as_str(), "Sequence") {
            let ghost seqs_before = sequence_actions(prefix);
            let ghost prior_anims = anim_states;
            let ghost prior_seqs = seq_states;
            let ghost prior_skips = skip_states;
            let ghost sequences_before = sequences@;
            let ghost skipped_before = texts(skipped@);
            match resolve_reference_chain(&action.refs, &leaf, &sequences, &mut animations) {
                Some(anchors) => {
                    sequences.push((action.name.clone(), anchors));
                    assert(sequences@.drop_last() =~= sequences_before);
                },
                None => {
                    skipped.push(action.name.clone());
                    assert(texts(skipped@) =~= skipped_before.push(action.name@));
                },
            }
            proof {
                anim_states = anim_states.push(animations@);
                seq_states = seq_states.push(sequences@);
                skip_states = skip_states.push(texts(skipped@));
                let seqs = sequence_actions(next);
                assert(seqs == seqs_before.push(*action));
                assert forall|k: int|
                    #![trigger anim_states[k + 1]]
                    0 <= k < seqs.len() implies sequence_applied(
                    anim_states[k],
                    seq_states[k],
                    skip_states[k],
                    anim_states[k + 1],
                    seq_states[k + 1],
                    skip_states[k + 1],
                    seqs[k],
                    leaf@,
                ) by {
                    if k < seqs_before.len() {
                        assert(anim_states[k] == prior_anims[k] && anim_states[k + 1] == prior_anims[k + 1]);
                        assert(seq_states[k] == prior_seqs[k] && seq_states[k + 1] == prior_seqs[k + 1]);
                        assert(skip_states[k] == prior_skips[k] && skip_states[k + 1] == prior_skips[k + 1]);
                        assert(seqs[k] == seqs_before[k]);
                    }
                }
            }
        } else {
            assert(sequence_actions(next) == sequence_actions(prefix));
        }
        j = j + 1;
    }
    assert(actions@.take(n as int) =~= actions@);
    let ghost seqs_final = sequences@;
    let fall = resolve_entry_text("Fall", &leaf, &sequences);
    let default_animation = match fall {
        Some(d) => d,
        None => {
            let result = Err(ShimejiEeError::MissingRequiredAction(String::from_str("Fall")));
            assert(actions_mapped(actions@, img_dir@, motions@, result, leaf@, anims0, table, anim_states, seq_states, skip_states));
            return result;
        },
    };
    let dragged_entry = match resolve_entry_text("Dragged", &leaf, &sequences) {
        Some(d) => d,
        None => {
            let result = Err(ShimejiEeError::MissingRequiredAction(String::from_str("Dragged")));
            assert(actions_mapped(actions@, img_dir@, motions@, result, leaf@, anims0, table, anim_states, seq_states, skip_states));
            return result;
        },
    };
    let mut events: Vec<EventRule> = Vec::new();
    events.push(wildcard_event(EngineEventKind::DragEnd, default_animation.as_str()));
    events.push(wildcard_event(EngineEventKind::FlingEnd, default_animation.as_str()));
    events.push(wildcard_event(EngineEventKind::FlingStart, default_animation.as_str()));
    events.push(wildcard_event(EngineEventKind::Tap, default_animation.as_str()));
    events.push(wildcard_event(EngineEventKind::DragStart, dragged_entry.as_str()));
    let result = Ok(MappedActions { animations, events, default_animation, sprites, skipped, leaf, sequences });
    assert(actions_mapped(actions@, img_dir@, motions@, result, leaf@, anims0, table, anim_states, seq_states, skip_states));
    result
}

/// Where the step named `name` starts (see `entry_of`).
fn resolve_entry_text(name: &str, leaf: &Vec<(String, String)>, sequences: &Vec<(String, (String, String))>) -> (entry: Option<String>)
    ensures
        opt_view(entry) == entry_of(leaf@, sequences@, name@),
{
    super::mapping::resolve_entry(name, leaf, sequences)
}

} // verus!
