//! The raw content of shimeji-ee's `actions.xml` and `behaviors.xml`: which elements are
//! read, and which of their attributes become which fields.

use super::values::{number_or, parse_u32_text, parse_velocity, velocity_spec};
use super::ShimejiEeError;
use crate::state_machine::text_equals;
use vstd::prelude::*;

verus! {

/// One node of a parsed XML document. An element has its local tag name and its
/// attributes (local name and value, in document order); other nodes have neither.
/// `children` holds the positions of the node's children in the document.
#[derive(Debug, Clone)]
pub struct XmlNode {
    pub is_element: bool,
    pub name: String,
    pub attributes: Vec<(String, String)>,
    pub children: Vec<usize>,
}

/// A parsed XML document: its nodes in document order, the document root first.
#[derive(Debug, Clone)]
pub struct XmlDocument {
    pub nodes: Vec<XmlNode>,
}

impl XmlDocument {
    /// Every child comes after its parent in the document, and the root holds an element.
    pub open spec fn wf(&self) -> bool {
        &&& self.nodes@.len() > 0
        &&& forall|i: int, k: int|
            #![trigger self.nodes@[i].children@[k]]
            0 <= i < self.nodes@.len() && 0 <= k < self.nodes@[i].children@.len()
                ==> i < self.nodes@[i].children@[k] < self.nodes@.len()
        &&& first_element_child(*self, 0, 0) is Some
    }
}

/// What `roxmltree::Document::parse` makes of `text`: the document, or `None` where it
/// refuses the text.
pub uninterp spec fn parsed_xml(text: Seq<char>) -> Option<XmlDocument>;

/// Parses `text` with `roxmltree::Document::parse` and copies every node, in document
/// order, into an `XmlDocument`. roxmltree numbers its nodes in the order it appends
/// them, the root first and each child after its parent, and refuses a document without
/// a root element; the contract states that much of the result.
#[verifier::external_body]
fn parse_document(text: &str) -> (parsed: Result<XmlDocument, roxmltree::Error>)
    ensures
        match parsed {
            Ok(doc) => parsed_xml(text@) == Some(doc) && doc.wf(),
            Err(_) => parsed_xml(text@) is None,
        },
{
    let doc = roxmltree::Document::parse(text)?;
    let nodes = doc.descendants().map(|n| XmlNode {
        is_element: n.is_element(),
        name: n.tag_name().name().to_string(),
        attributes: n.attributes().map(|a| (a.name().to_string(), a.value().to_string())).collect(),
        children: n.children().map(|c| c.id().get_usize()).collect(),
    }).collect();
    Ok(XmlDocument { nodes })
}

/// The first element among the children of `parent` from the `k`-th on.
pub open spec fn first_element_child(doc: XmlDocument, parent: int, k: int) -> Option<int>
    decreases doc.nodes@[parent].children@.len() - k,
{
    if k < 0 || k >= doc.nodes@[parent].children@.len() {
        None
    } else if doc.nodes@[doc.nodes@[parent].children@[k] as int].is_element {
        Some(doc.nodes@[parent].children@[k] as int)
    } else {
        first_element_child(doc, parent, k + 1)
    }
}

/// The document's root element.
pub open spec fn root_element_spec(doc: XmlDocument) -> int {
    first_element_child(doc, 0, 0)->0
}

/// The position of the first attribute named `name` from the `k`-th on.
pub open spec fn attribute_from(attributes: Seq<(String, String)>, name: Seq<char>, k: int) -> Option<int>
    decreases attributes.len() - k,
{
    if k < 0 || k >= attributes.len() {
        None
    } else if attributes[k].0@ == name {
        Some(k)
    } else {
        attribute_from(attributes, name, k + 1)
    }
}

/// The value of node `i`'s attribute `name` (of the first, should the name repeat).
pub open spec fn attribute_spec(doc: XmlDocument, i: int, name: Seq<char>) -> Option<Seq<char>> {
    let attributes = doc.nodes@[i].attributes@;
    match attribute_from(attributes, name, 0) {
        Some(k) => Some(attributes[k].1@),
        None => None,
    }
}

/// The text, or nothing for an absent value.
pub open spec fn text_or_empty(t: Option<Seq<char>>) -> Seq<char> {
    match t {
        Some(text) => text,
        None => Seq::empty(),
    }
}

/// The characters of an optional string.
pub open spec fn opt_view(s: Option<String>) -> Option<Seq<char>> {
    match s {
        Some(text) => Some(text@),
        None => None,
    }
}

/// The elements named `tag` among the descendants reached through the first `k` children
/// of `parent`, in document order, without looking inside an element that matches.
pub open spec fn elements_named_upto(doc: XmlDocument, parent: int, k: int, tag: Seq<char>) -> Seq<usize>
    decreases doc.nodes@.len() - parent, k,
{
    if parent < 0 || parent >= doc.nodes@.len() || k <= 0 || k > doc.nodes@[parent].children@.len() {
        Seq::empty()
    } else {
        let before = elements_named_upto(doc, parent, k - 1, tag);
        let c = doc.nodes@[parent].children@[k - 1];
        if c <= parent || c >= doc.nodes@.len() || !doc.nodes@[c as int].is_element {
            before
        } else if doc.nodes@[c as int].name@ == tag {
            before.push(c)
        } else {
            before + elements_named_upto(doc, c as int, doc.nodes@[c as int].children@.len() as int, tag)
        }
    }
}

/// The outermost elements named `tag` below `parent`, in document order.
pub open spec fn elements_named(doc: XmlDocument, parent: int, tag: Seq<char>) -> Seq<usize> {
    elements_named_upto(doc, parent, doc.nodes@[parent].children@.len() as int, tag)
}

/// The elements named `tag` among the first `k` children of `parent`.
pub open spec fn children_named_upto(doc: XmlDocument, parent: int, k: int, tag: Seq<char>) -> Seq<usize>
    decreases k,
{
    if k <= 0 || k > doc.nodes@[parent].children@.len() {
        Seq::empty()
    } else {
        let before = children_named_upto(doc, parent, k - 1, tag);
        let c = doc.nodes@[parent].children@[k - 1];
        if doc.nodes@[c as int].is_element && doc.nodes@[c as int].name@ == tag {
            before.push(c)
        } else {
            before
        }
    }
}

/// The child elements of `parent` named `tag`, in order.
pub open spec fn named_children(doc: XmlDocument, parent: int, tag: Seq<char>) -> Seq<usize> {
    children_named_upto(doc, parent, doc.nodes@[parent].children@.len() as int, tag)
}

/// One `Pose` of an animation: the sprite's image path, the per-frame movement and the
/// frame's duration in ticks.
#[derive(Debug)]
pub struct RawPose {
    pub image: String,
    pub velocity: (i32, i32),
    pub duration: u32,
}

impl Clone for RawPose {
    fn clone(&self) -> (copy: Self)
        ensures
            copy == *self,
    {
        RawPose { image: self.image.clone(), velocity: self.velocity, duration: self.duration }
    }
}

/// One `Animation` block of an action: the condition it is played under and its poses.
#[derive(Debug, Clone, Default)]
pub struct RawAnimationBlock {
    pub condition: Option<String>,
    pub poses: Vec<RawPose>,
}

/// One `ActionReference` of a sequence: the action named and its `Duration`, as written.
#[derive(Debug, Clone)]
pub struct RawActionRef {
    pub name: String,
    pub duration: Option<String>,
}

/// One `Action`: its name, type, border type, class and loop flag, every attribute as
/// written (the physics parameters among them), its animation blocks and the actions it
/// references.
#[derive(Debug, Clone, Default)]
pub struct RawAction {
    pub name: String,
    pub kind: String,
    pub border_type: Option<String>,
    pub class: Option<String>,
    pub loop_flag: bool,
    pub attributes: Vec<(String, String)>,
    pub animations: Vec<RawAnimationBlock>,
    pub refs: Vec<RawActionRef>,
}

/// One `Behavior`: its name, frequency, hidden flag, the condition it runs under and the
/// behaviors that may follow it.
#[derive(Debug, Clone, Default)]
pub struct RawBehavior {
    pub name: String,
    pub frequency: u32,
    pub hidden: bool,
    pub condition: Option<String>,
    pub next: Vec<RawBehaviorRef>,
}

/// One `BehaviorReference` among a behavior's `NextBehavior` choices.
#[derive(Debug, Clone)]
pub struct RawBehaviorRef {
    pub name: String,
    pub frequency: u32,
    pub condition: Option<String>,
}

/// `p` holds what pose element `i` says: `Image` (empty without one), `Velocity` (0, 0
/// without one) and `Duration` (1 without one, or where it is not a `u32`).
pub open spec fn pose_read(p: RawPose, doc: XmlDocument, i: int) -> bool {
    &&& p.image@ == text_or_empty(attribute_spec(doc, i, "Image"@))
    &&& p.velocity == match attribute_spec(doc, i, "Velocity"@) {
        Some(v) => velocity_spec(v),
        None => (0i32, 0i32),
    }
    &&& p.duration == number_or(attribute_spec(doc, i, "Duration"@), 1)
}

/// `b` holds the `Condition` of animation element `i` and its `Pose` children.
pub open spec fn block_read(b: RawAnimationBlock, doc: XmlDocument, i: int) -> bool {
    let poses = named_children(doc, i, "Pose"@);
    &&& opt_view(b.condition) == attribute_spec(doc, i, "Condition"@)
    &&& b.poses@.len() == poses.len()
    &&& forall|k: int| 0 <= k < poses.len() ==> pose_read(#[trigger] b.poses@[k], doc, poses[k] as int)
}

/// `r` holds the `Name` (empty without one) and `Duration` of reference element `i`.
pub open spec fn action_ref_read(r: RawActionRef, doc: XmlDocument, i: int) -> bool {
    &&& r.name@ == text_or_empty(attribute_spec(doc, i, "Name"@))
    &&& opt_view(r.duration) == attribute_spec(doc, i, "Duration"@)
}

/// The two attribute lists hold the same names and values in the same order.
pub open spec fn same_attributes(a: Seq<(String, String)>, b: Seq<(String, String)>) -> bool {
    &&& a.len() == b.len()
    &&& forall|k: int| 0 <= k < a.len() ==> (#[trigger] a[k]).0@ == b[k].0@ && a[k].1@ == b[k].1@
}

/// `a` holds what action element `i` says: `Name` and `Type` (empty without them),
/// `BorderType`, `Class`, whether `Loop` is exactly `true`, all its attributes, its
/// `Animation` children and its `ActionReference` children.
pub open spec fn action_read(a: RawAction, doc: XmlDocument, i: int) -> bool {
    let blocks = named_children(doc, i, "Animation"@);
    let refs = named_children(doc, i, "ActionReference"@);
    &&& a.name@ == text_or_empty(attribute_spec(doc, i, "Name"@))
    &&& a.kind@ == text_or_empty(attribute_spec(doc, i, "Type"@))
    &&& opt_view(a.border_type) == attribute_spec(doc, i, "BorderType"@)
    &&& opt_view(a.class) == attribute_spec(doc, i, "Class"@)
    &&& a.loop_flag == (attribute_spec(doc, i, "Loop"@) == Some("true"@))
    &&& same_attributes(a.attributes@, doc.nodes@[i].attributes@)
    &&& a.animations@.len() == blocks.len()
    &&& forall|k: int| 0 <= k < blocks.len() ==> block_read(#[trigger] a.animations@[k], doc, blocks[k] as int)
    &&& a.refs@.len() == refs.len()
    &&& forall|k: int| 0 <= k < refs.len() ==> action_ref_read(#[trigger] a.refs@[k], doc, refs[k] as int)
}

/// The `Action` elements inside the given `ActionList` elements, list by list.
pub open spec fn actions_in_lists(doc: XmlDocument, lists: Seq<usize>) -> Seq<usize>
    decreases lists.len(),
{
    if lists.len() == 0 {
        Seq::empty()
    } else {
        actions_in_lists(doc, lists.drop_last()) + elements_named(doc, lists.last() as int, "Action"@)
    }
}

/// The document's `Action` elements: those inside each `ActionList`, list by list.
pub open spec fn action_nodes(doc: XmlDocument) -> Seq<usize> {
    actions_in_lists(doc, elements_named(doc, root_element_spec(doc), "ActionList"@))
}

/// `actions` holds what the document's `Action` elements say, one for one.
pub open spec fn actions_read(actions: Seq<RawAction>, doc: XmlDocument) -> bool {
    let nodes = action_nodes(doc);
    &&& actions.len() == nodes.len()
    &&& forall|k: int| 0 <= k < nodes.len() ==> action_read(#[trigger] actions[k], doc, nodes[k] as int)
}

/// `r` holds the `Name` (empty without one), `Frequency` (0 without one, or where it is
/// not a `u32`) and `Condition` of behavior reference element `i`.
pub open spec fn behavior_ref_read(r: RawBehaviorRef, doc: XmlDocument, i: int) -> bool {
    &&& r.name@ == text_or_empty(attribute_spec(doc, i, "Name"@))
    &&& r.frequency == number_or(attribute_spec(doc, i, "Frequency"@), 0)
    &&& opt_view(r.condition) == attribute_spec(doc, i, "Condition"@)
}

/// The `BehaviorReference` children of the given `NextBehavior` elements, element by element.
pub open spec fn references_in(doc: XmlDocument, nexts: Seq<usize>) -> Seq<usize>
    decreases nexts.len(),
{
    if nexts.len() == 0 {
        Seq::empty()
    } else {
        references_in(doc, nexts.drop_last()) + named_children(doc, nexts.last() as int, "BehaviorReference"@)
    }
}

/// The condition a behavior runs under: its own, or else the one it inherits.
pub open spec fn or_inherited(own: Option<Seq<char>>, inherited: Option<Seq<char>>) -> Option<Seq<char>> {
    match own {
        Some(t) => Some(t),
        None => inherited,
    }
}

/// `b` holds what behavior element `i` says: `Name`, `Frequency`, whether `Hidden` is
/// exactly `true`, the condition `condition`, and the references inside its
/// `NextBehavior` children.
pub open spec fn behavior_read(b: RawBehavior, doc: XmlDocument, i: int, condition: Option<Seq<char>>) -> bool {
    let refs = references_in(doc, named_children(doc, i, "NextBehavior"@));
    &&& b.name@ == text_or_empty(attribute_spec(doc, i, "Name"@))
    &&& b.frequency == number_or(attribute_spec(doc, i, "Frequency"@), 0)
    &&& b.hidden == (attribute_spec(doc, i, "Hidden"@) == Some("true"@))
    &&& opt_view(b.condition) == condition
    &&& b.next@.len() == refs.len()
    &&& forall|k: int| 0 <= k < refs.len() ==> behavior_ref_read(#[trigger] b.next@[k], doc, refs[k] as int)
}

/// The `Behavior` elements reached through the first `k` children of `parent`, directly or
/// inside `BehaviorList` and `Condition` elements, in document order, each with the
/// condition it runs under: its own, or else that of the nearest enclosing `Condition`
/// that has one, or else `inherited`.
pub open spec fn behavior_sites_upto(
    doc: XmlDocument,
    parent: int,
    k: int,
    inherited: Option<Seq<char>>,
) -> Seq<(usize, Option<Seq<char>>)>
    decreases doc.nodes@.len() - parent, k,
{
    if parent < 0 || parent >= doc.nodes@.len() || k <= 0 || k > doc.nodes@[parent].children@.len() {
        Seq::empty()
    } else {
        let before = behavior_sites_upto(doc, parent, k - 1, inherited);
        let c = doc.nodes@[parent].children@[k - 1];
        let n = doc.nodes@[c as int];
        if c <= parent || c >= doc.nodes@.len() || !n.is_element {
            before
        } else if n.name@ == "Behavior"@ {
            before.push((c, or_inherited(attribute_spec(doc, c as int, "Condition"@), inherited)))
        } else if n.name@ == "BehaviorList"@ {
            before + behavior_sites_upto(doc, c as int, n.children@.len() as int, inherited)
        } else if n.name@ == "Condition"@ {
            before + behavior_sites_upto(
                doc,
                c as int,
                n.children@.len() as int,
                or_inherited(attribute_spec(doc, c as int, "Condition"@), inherited),
            )
        } else {
            before
        }
    }
}

/// The document's behaviors with their conditions, as `behavior_sites_upto` finds them
/// below the root element.
pub open spec fn behavior_sites(doc: XmlDocument) -> Seq<(usize, Option<Seq<char>>)> {
    let root = root_element_spec(doc);
    behavior_sites_upto(doc, root, doc.nodes@[root].children@.len() as int, None)
}

/// `behaviors` holds what the document's behaviors say, one for one.
pub open spec fn behaviors_read(behaviors: Seq<RawBehavior>, doc: XmlDocument) -> bool {
    let sites = behavior_sites(doc);
    &&& behaviors.len() == sites.len()
    &&& forall|k: int| 0 <= k < sites.len() ==> behavior_read(#[trigger] behaviors[k], doc, sites[k].0 as int, sites[k].1)
}

/// The document's root element.
fn root_element(doc: &XmlDocument) -> (root: usize)
    requires
        doc.wf(),
    ensures
        root as int == root_element_spec(*doc),
        root < doc.nodes@.len(),
{
    let children = &doc.nodes[0].children;
    let n = children.len();
    let mut k: usize = 0;
    while k < n
        invariant
            doc.wf(),
            children@ == doc.nodes@[0].children@,
            n == children@.len(),
            k <= n,
            first_element_child(*doc, 0, 0) == first_element_child(*doc, 0, k as int),
        decreases n - k,
    {
        let c = children[k];
        assert(0 < doc.nodes@[0].children@[k as int] < doc.nodes@.len());
        if doc.nodes[c].is_element {
            return c;
        }
        k = k + 1;
    }
    assert(first_element_child(*doc, 0, n as int) is None);
    0
}

/// The value of node `i`'s attribute `name`, if it has one.
fn attribute(doc: &XmlDocument, i: usize, name: &str) -> (value: Option<String>)
    requires
        i < doc.nodes@.len(),
    ensures
        opt_view(value) == attribute_spec(*doc, i as int, name@),
{
    let attributes = &doc.nodes[i].attributes;
    let mut k: usize = 0;
    while k < attributes.len()
        invariant
            i < doc.nodes@.len(),
            attributes@ == doc.nodes@[i as int].attributes@,
            k <= attributes@.len(),
            attribute_from(attributes@, name@, 0) == attribute_from(attributes@, name@, k as int),
        decreases attributes@.len() - k,
    {
        if text_equals(attributes[k].0.as_str(), name) {
            return Some(attributes[k].1.clone());
        }
        k = k + 1;
    }
    None
}

/// The outermost elements named `tag` below `parent`, in document order (the elements a
/// search finds without looking inside the ones it has found).
fn element_children(doc: &XmlDocument, parent: usize, tag: &str) -> (found: Vec<usize>)
    requires
        doc.wf(),
        parent < doc.nodes@.len(),
    ensures
        found@ == elements_named(*doc, parent as int, tag@),
        forall|k: int| 0 <= k < found@.len() ==> (#[trigger] found@[k]) < doc.nodes@.len(),
    decreases doc.nodes@.len() - parent,
{
    let children = &doc.nodes[parent].children;
    let n = children.len();
    let mut found: Vec<usize> = Vec::new();
    let mut k: usize = 0;
    while k < n
        invariant
            doc.wf(),
            parent < doc.nodes@.len(),
            children@ == doc.nodes@[parent as int].children@,
            n == children@.len(),
            k <= n,
            found@ == elements_named_upto(*doc, parent as int, k as int, tag@),
            forall|j: int| 0 <= j < found@.len() ==> (#[trigger] found@[j]) < doc.nodes@.len(),
        decreases n - k,
    {
        let c = children[k];
        assert(parent < doc.nodes@[parent as int].children@[k as int] < doc.nodes@.len());
        if doc.nodes[c].is_element {
            if text_equals(doc.nodes[c].name.as_str(), tag) {
                found.push(c);
            } else {
                let mut inner = element_children(doc, c, tag);
                found.append(&mut inner);
            }
        }
        k = k + 1;
    }
    found
}

/// The child elements of `parent` named `tag`, in order.
fn children_named(doc: &XmlDocument, parent: usize, tag: &str) -> (found: Vec<usize>)
    requires
        doc.wf(),
        parent < doc.nodes@.len(),
    ensures
        found@ == named_children(*doc, parent as int, tag@),
        forall|k: int| 0 <= k < found@.len() ==> (#[trigger] found@[k]) < doc.nodes@.len(),
{
    let children = &doc.nodes[parent].children;
    let n = children.len();
    let mut found: Vec<usize> = Vec::new();
    let mut k: usize = 0;
    while k < n
        invariant
            doc.wf(),
            parent < doc.nodes@.len(),
            children@ == doc.nodes@[parent as int].children@,
            n == children@.len(),
            k <= n,
            found@ == children_named_upto(*doc, parent as int, k as int, tag@),
            forall|j: int| 0 <= j < found@.len() ==> (#[trigger] found@[j]) < doc.nodes@.len(),
        decreases n - k,
    {
        let c = children[k];
        assert(parent < doc.nodes@[parent as int].children@[k as int] < doc.nodes@.len());
        if doc.nodes[c].is_element && text_equals(doc.nodes[c].name.as_str(), tag) {
            found.push(c);
        }
        k = k + 1;
    }
    found
}

/// The text of attribute `name`, or an empty string without one.
fn attribute_or_empty(doc: &XmlDocument, i: usize, name: &str) -> (value: String)
    requires
        i < doc.nodes@.len(),
    ensures
        value@ == text_or_empty(attribute_spec(*doc, i as int, name@)),
{
    match attribute(doc, i, name) {
        Some(v) => v,
        None => String::new(),
    }
}

/// Attribute `name` read as a `u32`, or `fallback` where it is absent or not a `u32`.
fn attribute_number(doc: &XmlDocument, i: usize, name: &str, fallback: u32) -> (value: u32)
    requires
        i < doc.nodes@.len(),
    ensures
        value == number_or(attribute_spec(*doc, i as int, name@), fallback),
{
    match attribute(doc, i, name) {
        Some(v) => match parse_u32_text(v.as_str()) {
            Some(n) => n,
            None => fallback,
        },
        None => fallback,
    }
}

/// Attribute `name` is exactly `true`.
fn attribute_is_true(doc: &XmlDocument, i: usize, name: &str) -> (set: bool)
    requires
        i < doc.nodes@.len(),
    ensures
        set == (attribute_spec(*doc, i as int, name@) == Some("true"@)),
{
    match attribute(doc, i, name) {
        Some(v) => text_equals(v.as_str(), "true"),
        None => false,
    }
}

fn parse_pose(doc: &XmlDocument, i: usize) -> (pose: RawPose)
    requires
        i < doc.nodes@.len(),
    ensures
        pose_read(pose, *doc, i as int),
{
    let image = attribute_or_empty(doc, i, "Image");
    let velocity = match attribute(doc, i, "Velocity") {
        Some(v) => parse_velocity(v.as_str()),
        None => (0, 0),
    };
    let duration = attribute_number(doc, i, "Duration", 1);
    RawPose { image, velocity, duration }
}

fn parse_animation_block(doc: &XmlDocument, i: usize) -> (block: RawAnimationBlock)
    requires
        doc.wf(),
        i < doc.nodes@.len(),
    ensures
        block_read(block, *doc, i as int),
{
    let condition = attribute(doc, i, "Condition");
    let ids = children_named(doc, i, "Pose");
    let mut poses: Vec<RawPose> = Vec::new();
    let mut k: usize = 0;
    while k < ids.len()
        invariant
            ids@ == named_children(*doc, i as int, "Pose"@),
            forall|j: int| 0 <= j < ids@.len() ==> (#[trigger] ids@[j]) < doc.nodes@.len(),
            k <= ids@.len(),
            poses@.len() == k,
            forall|j: int| 0 <= j < k ==> pose_read(#[trigger] poses@[j], *doc, ids@[j] as int),
        decreases ids@.len() - k,
    {
        let pose = parse_pose(doc, ids[k]);
        poses.push(pose);
        k = k + 1;
    }
    RawAnimationBlock { condition, poses }
}

fn parse_action_ref(doc: &XmlDocument, i: usize) -> (reference: RawActionRef)
    requires
        i < doc.nodes@.len(),
    ensures
        action_ref_read(reference, *doc, i as int),
{
    RawActionRef { name: attribute_or_empty(doc, i, "Name"), duration: attribute(doc, i, "Duration") }
}

fn parse_action(doc: &XmlDocument, i: usize) -> (action: RawAction)
    requires
        doc.wf(),
        i < doc.nodes@.len(),
    ensures
        action_read(action, *doc, i as int),
{
    let name = attribute_or_empty(doc, i, "Name");
    let kind = attribute_or_empty(doc, i, "Type");
    let border_type = attribute(doc, i, "BorderType");
    let class = attribute(doc, i, "Class");
    let loop_flag = attribute_is_true(doc, i, "Loop");

    let source = &doc.nodes[i].attributes;
    let mut attributes: Vec<(String, String)> = Vec::new();
    let mut a: usize = 0;
    while a < source.len()
        invariant
            source@ == doc.nodes@[i as int].attributes@,
            a <= source@.len(),
            attributes@.len() == a,
            forall|j: int| 0 <= j < a ==> (#[trigger] attributes@[j]).0@ == source@[j].0@ && attributes@[j].1@ == source@[j].1@,
        decreases source@.len() - a,
    {
        attributes.push((source[a].0.clone(), source[a].1.clone()));
        a = a + 1;
    }

    let block_ids = children_named(doc, i, "Animation");
    let mut animations: Vec<RawAnimationBlock> = Vec::new();
    let mut k: usize = 0;
    while k < block_ids.len()
        invariant
            doc.wf(),
            block_ids@ == named_children(*doc, i as int, "Animation"@),
            forall|j: int| 0 <= j < block_ids@.len() ==> (#[trigger] block_ids@[j]) < doc.nodes@.len(),
            k <= block_ids@.len(),
            animations@.len() == k,
            forall|j: int| 0 <= j < k ==> block_read(#[trigger] animations@[j], *doc, block_ids@[j] as int),
        decreases block_ids@.len() - k,
    {
        let block = parse_animation_block(doc, block_ids[k]);
        animations.push(block);
        k = k + 1;
    }

    let ref_ids = children_named(doc, i, "ActionReference");
    let mut refs: Vec<RawActionRef> = Vec::new();
    let mut r: usize = 0;
    while r < ref_ids.len()
        invariant
            ref_ids@ == named_children(*doc, i as int, "ActionReference"@),
            forall|j: int| 0 <= j < ref_ids@.len() ==> (#[trigger] ref_ids@[j]) < doc.nodes@.len(),
            r <= ref_ids@.len(),
            refs@.len() == r,
            forall|j: int| 0 <= j < r ==> action_ref_read(#[trigger] refs@[j], *doc, ref_ids@[j] as int),
        decreases ref_ids@.len() - r,
    {
        let reference = parse_action_ref(doc, ref_ids[r]);
        refs.push(reference);
        r = r + 1;
    }

    RawAction { name, kind, border_type, class, loop_flag, attributes, animations, refs }
}

/// Reads every `Action` inside the document's `ActionList` elements, list by list.
pub fn actions_in(doc: &XmlDocument) -> (actions: Vec<RawAction>)
    requires
        doc.wf(),
    ensures
        actions_read(actions@, *doc),
{
    let root = root_element(doc);
    let lists = element_children(doc, root, "ActionList");
    let mut actions: Vec<RawAction> = Vec::new();
    let mut l: usize = 0;
    while l < lists.len()
        invariant
            doc.wf(),
            lists@ == elements_named(*doc, root_element_spec(*doc), "ActionList"@),
            forall|j: int| 0 <= j < lists@.len() ==> (#[trigger] lists@[j]) < doc.nodes@.len(),
            l <= lists@.len(),
            actions@.len() == actions_in_lists(*doc, lists@.subrange(0, l as int)).len(),
            forall|j: int| 0 <= j < actions@.len()
                ==> action_read(#[trigger] actions@[j], *doc, actions_in_lists(*doc, lists@.subrange(0, l as int))[j] as int),
        decreases lists@.len() - l,
    {
        let ghost done = actions_in_lists(*doc, lists@.subrange(0, l as int));
        let ids = element_children(doc, lists[l], "Action");
        let mut k: usize = 0;
        while k < ids.len()
            invariant
                doc.wf(),
                forall|j: int| 0 <= j < ids@.len() ==> (#[trigger] ids@[j]) < doc.nodes@.len(),
                k <= ids@.len(),
                actions@.len() == (done + ids@.subrange(0, k as int)).len(),
                forall|j: int| 0 <= j < actions@.len()
                    ==> action_read(#[trigger] actions@[j], *doc, (done + ids@.subrange(0, k as int))[j] as int),
            decreases ids@.len() - k,
        {
            let action = parse_action(doc, ids[k]);
            proof {
                assert(done + ids@.subrange(0, k + 1) =~= (done + ids@.subrange(0, k as int)).push(ids@[k as int]));
            }
            actions.push(action);
            k = k + 1;
        }
        proof {
            assert(ids@.subrange(0, k as int) =~= ids@);
            assert(lists@.subrange(0, l + 1).drop_last() =~= lists@.subrange(0, l as int));
        }
        l = l + 1;
    }
    proof {
        assert(lists@.subrange(0, l as int) =~= lists@);
    }
    actions
}

/// Parses `xml` as shimeji-ee's `actions.xml` and reads every `Action` inside its
/// `ActionList` elements.
pub fn parse_actions(xml: &str) -> (result: Result<Vec<RawAction>, ShimejiEeError>)
    ensures
        match result {
            Ok(actions) => parsed_xml(xml@) matches Some(doc) && actions_read(actions@, doc),
            Err(e) => parsed_xml(xml@) is None && e matches ShimejiEeError::Xml(_),
        },
{
    match parse_document(xml) {
        Ok(doc) => Ok(actions_in(&doc)),
        Err(e) => Err(ShimejiEeError::Xml(e)),
    }
}

fn parse_behavior_ref(doc: &XmlDocument, i: usize) -> (reference: RawBehaviorRef)
    requires
        i < doc.nodes@.len(),
    ensures
        behavior_ref_read(reference, *doc, i as int),
{
    RawBehaviorRef {
        name: attribute_or_empty(doc, i, "Name"),
        frequency: attribute_number(doc, i, "Frequency", 0),
        condition: attribute(doc, i, "Condition"),
    }
}

/// Reads behavior element `i` with the condition it states itself.
fn parse_behavior(doc: &XmlDocument, i: usize) -> (behavior: RawBehavior)
    requires
        doc.wf(),
        i < doc.nodes@.len(),
    ensures
        behavior_read(behavior, *doc, i as int, attribute_spec(*doc, i as int, "Condition"@)),
{
    let name = attribute_or_empty(doc, i, "Name");
    let frequency = attribute_number(doc, i, "Frequency", 0);
    let hidden = attribute_is_true(doc, i, "Hidden");
    let condition = attribute(doc, i, "Condition");

    let nexts = children_named(doc, i, "NextBehavior");
    let mut next: Vec<RawBehaviorRef> = Vec::new();
    let mut l: usize = 0;
    while l < nexts.len()
        invariant
            doc.wf(),
            nexts@ == named_children(*doc, i as int, "NextBehavior"@),
            forall|j: int| 0 <= j < nexts@.len() ==> (#[trigger] nexts@[j]) < doc.nodes@.len(),
            l <= nexts@.len(),
            next@.len() == references_in(*doc, nexts@.subrange(0, l as int)).len(),
            forall|j: int| 0 <= j < next@.len()
                ==> behavior_ref_read(#[trigger] next@[j], *doc, references_in(*doc, nexts@.subrange(0, l as int))[j] as int),
        decreases nexts@.len() - l,
    {
        let ghost done = references_in(*doc, nexts@.subrange(0, l as int));
        let ids = children_named(doc, nexts[l], "BehaviorReference");
        let mut k: usize = 0;
        while k < ids.len()
            invariant
                forall|j: int| 0 <= j < ids@.len() ==> (#[trigger] ids@[j]) < doc.nodes@.len(),
                k <= ids@.len(),
                next@.len() == (done + ids@.subrange(0, k as int)).len(),
                forall|j: int| 0 <= j < next@.len()
                    ==> behavior_ref_read(#[trigger] next@[j], *doc, (done + ids@.subrange(0, k as int))[j] as int),
            decreases ids@.len() - k,
        {
            let reference = parse_behavior_ref(doc, ids[k]);
            proof {
                assert(done + ids@.subrange(0, k + 1) =~= (done + ids@.subrange(0, k as int)).push(ids@[k as int]));
            }
            next.push(reference);
            k = k + 1;
        }
        proof {
            assert(ids@.subrange(0, k as int) =~= ids@);
            assert(nexts@.subrange(0, l + 1).drop_last() =~= nexts@.subrange(0, l as int));
        }
        l = l + 1;
    }
    proof {
        assert(nexts@.subrange(0, l as int) =~= nexts@);
    }
    RawBehavior { name, frequency, hidden, condition, next }
}

/// A copy of an optional string.
fn copy_text(text: &Option<String>) -> (copy: Option<String>)
    ensures
        opt_view(copy) == opt_view(*text),
{
    match text {
        Some(t) => Some(t.clone()),
        None => None,
    }
}

/// Appends the behaviors found below `parent` (see `behavior_sites_upto`) to `out`, each
/// falling back on `inherited` where it states no condition of its own.
fn collect_behaviors(doc: &XmlDocument, parent: usize, inherited: &Option<String>, out: &mut Vec<RawBehavior>)
    requires
        doc.wf(),
        parent < doc.nodes@.len(),
    ensures
        ({
            let sites = behavior_sites_upto(
                *doc,
                parent as int,
                doc.nodes@[parent as int].children@.len() as int,
                opt_view(*inherited),
            );
            &&& final(out)@.len() == old(out)@.len() + sites.len()
            &&& forall|k: int| 0 <= k < old(out)@.len() ==> final(out)@[k] == old(out)@[k]
            &&& forall|k: int| 0 <= k < sites.len()
                ==> behavior_read(#[trigger] final(out)@[old(out)@.len() + k], *doc, sites[k].0 as int, sites[k].1)
        }),
    decreases doc.nodes@.len() - parent,
{
    let ghost start = out@;
    let ghost inh = opt_view(*inherited);
    let children = &doc.nodes[parent].children;
    let n = children.len();
    let mut k: usize = 0;
    while k < n
        invariant
            doc.wf(),
            parent < doc.nodes@.len(),
            children@ == doc.nodes@[parent as int].children@,
            n == children@.len(),
            k <= n,
            inh == opt_view(*inherited),
            out@.len() == start.len() + behavior_sites_upto(*doc, parent as int, k as int, inh).len(),
            forall|j: int| 0 <= j < start.len() ==> out@[j] == start[j],
            forall|j: int| 0 <= j < behavior_sites_upto(*doc, parent as int, k as int, inh).len()
                ==> behavior_read(
                    #[trigger] out@[start.len() + j],
                    *doc,
                    behavior_sites_upto(*doc, parent as int, k as int, inh)[j].0 as int,
                    behavior_sites_upto(*doc, parent as int, k as int, inh)[j].1,
                ),
        decreases n - k,
    {
        let ghost before = behavior_sites_upto(*doc, parent as int, k as int, inh);
        let ghost mid = out@;
        let c = children[k];
        assert(parent < doc.nodes@[parent as int].children@[k as int] < doc.nodes@.len());
        if doc.nodes[c].is_element {
            let name = doc.nodes[c].name.as_str();
            if text_equals(name, "Behavior") {
                let mut behavior = parse_behavior(doc, c);
                if behavior.condition.is_none() {
                    behavior.condition = copy_text(inherited);
                }
                out.push(behavior);
                proof {
                    let after = behavior_sites_upto(*doc, parent as int, k + 1, inh);
                    assert(after == before.push((c, or_inherited(attribute_spec(*doc, c as int, "Condition"@), inh))));
                    assert forall|j: int| 0 <= j < after.len() implies behavior_read(
                        #[trigger] out@[start.len() + j], *doc, after[j].0 as int, after[j].1,
                    ) by {
                        if j < before.len() {
                            assert(out@[start.len() + j] == mid[start.len() + j]);
                        }
                    }
                }
            } else if text_equals(name, "BehaviorList") {
                collect_behaviors(doc, c, inherited, out);
                proof {
                    let inner = behavior_sites_upto(*doc, c as int, doc.nodes@[c as int].children@.len() as int, inh);
                    let after = behavior_sites_upto(*doc, parent as int, k + 1, inh);
                    assert(after == before + inner);
                    assert forall|j: int| 0 <= j < after.len() implies behavior_read(
                        #[trigger] out@[start.len() + j], *doc, after[j].0 as int, after[j].1,
                    ) by {
                        if j < before.len() {
                            assert(out@[start.len() + j] == mid[start.len() + j]);
                        } else {
                            assert(out@[start.len() + j] == out@[mid.len() + (j - before.len())]);
                        }
                    }
                }
            } else if text_equals(name, "Condition") {
                let own = attribute(doc, c, "Condition");
                let condition = match own {
                    Some(t) => Some(t),
                    None => copy_text(inherited),
                };
                collect_behaviors(doc, c, &condition, out);
                proof {
                    let cond = or_inherited(attribute_spec(*doc, c as int, "Condition"@), inh);
                    assert(opt_view(condition) == cond);
                    let inner = behavior_sites_upto(*doc, c as int, doc.nodes@[c as int].children@.len() as int, cond);
                    let after = behavior_sites_upto(*doc, parent as int, k + 1, inh);
                    assert(after == before + inner);
                    assert forall|j: int| 0 <= j < after.len() implies behavior_read(
                        #[trigger] out@[start.len() + j], *doc, after[j].0 as int, after[j].1,
                    ) by {
                        if j < before.len() {
                            assert(out@[start.len() + j] == mid[start.len() + j]);
                        } else {
                            assert(out@[start.len() + j] == out@[mid.len() + (j - before.len())]);
                        }
                    }
                }
            } else {
                assert(behavior_sites_upto(*doc, parent as int, k + 1, inh) == before);
            }
        } else {
            assert(behavior_sites_upto(*doc, parent as int, k + 1, inh) == before);
        }
        k = k + 1;
    }
}

/// Reads every `Behavior` of the document, directly under the root element or inside
/// `BehaviorList` and `Condition` elements, each with the condition it runs under.
pub fn behaviors_in(doc: &XmlDocument) -> (behaviors: Vec<RawBehavior>)
    requires
        doc.wf(),
    ensures
        behaviors_read(behaviors@, *doc),
{
    let root = root_element(doc);
    let mut behaviors: Vec<RawBehavior> = Vec::new();
    let none: Option<String> = None;
    collect_behaviors(doc, root, &none, &mut behaviors);
    proof {
        let sites = behavior_sites(*doc);
        assert forall|k: int| 0 <= k < sites.len() implies behavior_read(
            #[trigger] behaviors@[k], *doc, sites[k].0 as int, sites[k].1,
        ) by {
            assert(behaviors@[k] == behaviors@[0 + k]);
        }
    }
    behaviors
}

/// Parses `xml` as shimeji-ee's `behaviors.xml` and reads every `Behavior` in it.
pub fn parse_behaviors(xml: &str) -> (result: Result<Vec<RawBehavior>, ShimejiEeError>)
    ensures
        match result {
            Ok(behaviors) => parsed_xml(xml@) matches Some(doc) && behaviors_read(behaviors@, doc),
            Err(e) => parsed_xml(xml@) is None && e matches ShimejiEeError::Xml(_),
        },
{
    match parse_document(xml) {
        Ok(doc) => Ok(behaviors_in(&doc)),
        Err(e) => Err(ShimejiEeError::Xml(e)),
    }
}

} // verus!
