//! Semantic snapshots: a breadth-first walk with limits.

use vstd::prelude::*;

use crate::accessibility;
use crate::accessibility::{
    AccessibilityRoot, AccessibilitySnapshot, AccessibilitySnapshotRequest, AccessibleNode,
    AccessibleValue, BusObject, ElementRegistry,
};
use crate::error;
use crate::error::{ControllerError, ErrorCode};
use crate::geometry;
use crate::geometry::{associate_window, extents_to_geometry};
use crate::text;
use crate::text::{is_text, texts};
use crate::types::{clone_opt, Geometry, WindowInfo};

verus! {

/// What was read of an element. What could not be read is absent.
#[derive(Debug)]
pub struct RawNode {
    pub name: Option<String>,
    pub description: Option<String>,
    pub role: Option<String>,
    pub states: Option<Vec<String>>,
    pub interfaces: Vec<String>,
    pub has_action: bool,
    pub has_component: bool,
    pub has_value: bool,
    pub has_text: bool,
    pub actions: Option<Vec<String>>,
    pub extents: Option<(i32, i32, i32, i32)>,
    pub current: Option<u64>,
    pub minimum: Option<u64>,
    pub maximum: Option<u64>,
    pub increment: Option<u64>,
    pub text: Option<String>,
}

/// The text of an optional string, or another.
pub open spec fn text_or(text: Option<String>, other: Seq<char>) -> Seq<char> {
    match text {
        Some(value) => value@,
        None => other,
    }
}

/// An optional string, or another.
fn string_or(text: Option<String>, other: &str) -> (result: String)
    ensures
        result@ == text_or(text, other@),
{
    match text {
        Some(value) => value,
        None => other.to_owned(),
    }
}

/// The texts of an optional list.
pub open spec fn texts_or_none(list: Option<Vec<String>>) -> Seq<Seq<char>> {
    match list {
        Some(values) => texts(values@),
        None => Seq::empty(),
    }
}

/// The bounds of an element on the screen.
pub open spec fn raw_bounds(raw: RawNode) -> Option<Geometry> {
    if raw.has_component && raw.extents is Some {
        geometry::extents_geometry(raw.extents->0)
    } else {
        None
    }
}

/// The numeric value of an element, where all of it could be read.
pub open spec fn raw_value(raw: RawNode) -> Option<AccessibleValue> {
    if raw.has_value {
        match (raw.current, raw.minimum, raw.maximum, raw.increment) {
            (Some(current), Some(minimum), Some(maximum), Some(increment)) => Some(
                AccessibleValue { current, minimum, maximum, increment },
            ),
            _ => None,
        }
    } else {
        None
    }
}

/// Whether a node is what was read of an element. Parts of an interface that
/// the element does not have are left out, and so is text that was not asked for.
pub open spec fn is_node(
    node: AccessibleNode,
    raw: RawNode,
    element_ref: Seq<char>,
    parent_ref: Option<Seq<char>>,
    include_text: bool,
    process_id: Option<u32>,
    windows: Seq<WindowInfo>,
) -> bool {
    &&& node.element_ref@ == element_ref
    &&& text::opt_text(node.parent_ref) == parent_ref
    &&& node.role@ == text_or(raw.role, "unknown"@)
    &&& node.name@ == text_or(raw.name, Seq::empty())
    &&& node.description@ == text_or(raw.description, Seq::empty())
    &&& texts(node.states@) == texts_or_none(raw.states)
    &&& texts(node.interfaces@) == texts(raw.interfaces@)
    &&& texts(node.actions@) == (if raw.has_action {
        texts_or_none(raw.actions)
    } else {
        Seq::empty()
    })
    &&& node.bounds == raw_bounds(raw)
    &&& node.value == raw_value(raw)
    &&& text::opt_text(node.text) == (if include_text && raw.has_text {
        text::opt_text(raw.text)
    } else {
        None
    })
    &&& match node.window_ref {
        Some(found) => raw_bounds(raw) is Some && exists|at: int| #[trigger]
            geometry::associated(windows, raw_bounds(raw)->0, process_id, at) && found
                == windows[at].window_ref,
        None => raw_bounds(raw) is None || forall|at: int|
            !#[trigger] geometry::associated(windows, raw_bounds(raw)->0, process_id, at),
    }
}

/// Makes up a node from what was read of an element.
pub fn read_node(
    raw: RawNode,
    element_ref: String,
    parent_ref: Option<String>,
    include_text: bool,
    process_id: Option<u32>,
    windows: &Vec<WindowInfo>,
) -> (node: AccessibleNode)
    ensures
        is_node(
            node,
            raw,
            element_ref@,
            text::opt_text(parent_ref),
            include_text,
            process_id,
            windows@,
        ),
{
    let bounds = match raw.extents {
        Some(extents) => {
            if raw.has_component {
                extents_to_geometry(extents)
            } else {
                None
            }
        },
        None => None,
    };
    let value = match (raw.current, raw.minimum, raw.maximum, raw.increment) {
        (Some(current), Some(minimum), Some(maximum), Some(increment)) => {
            if raw.has_value {
                Some(AccessibleValue { current, minimum, maximum, increment })
            } else {
                None
            }
        },
        _ => None,
    };
    let window_ref = match bounds {
        Some(area) => associate_window(area, process_id, windows),
        None => None,
    };
    let states = match raw.states {
        Some(states) => states,
        None => Vec::new(),
    };
    assert(texts(states@) =~= texts_or_none(raw.states));
    let actions = match raw.actions {
        Some(actions) => {
            if raw.has_action {
                actions
            } else {
                Vec::new()
            }
        },
        None => Vec::new(),
    };
    assert(texts(actions@) =~= (if raw.has_action {
        texts_or_none(raw.actions)
    } else {
        Seq::empty()
    }));
    let text = if include_text && raw.has_text {
        raw.text
    } else {
        None
    };
    let name = string_or(raw.name, "");
    let description = string_or(raw.description, "");
    proof {
        reveal_strlit("");
        assert(""@ =~= Seq::<char>::empty());
    }
    AccessibleNode {
        element_ref,
        parent_ref,
        window_ref,
        role: string_or(raw.role, "unknown"),
        name,
        description,
        states,
        bounds,
        interfaces: raw.interfaces,
        actions,
        text,
        value,
    }
}

/// Where the text that is read of an element ends: at its length, at most at
/// the limit.
pub fn text_end(count: Option<i32>, limit: usize) -> (end: i32)
    ensures
        0 <= end,
        end == (match count {
            Some(n) => if n < 0 {
                0
            } else if n > limit {
                limit as int
            } else {
                n as int
            },
            None => 0,
        }),
{
    match count {
        Some(n) => {
            if n < 0 {
                0
            } else if n as u32 as usize > limit {
                limit as i32
            } else {
                n
            }
        },
        None => 0,
    }
}

/// An object that waits for its visit.
#[derive(Debug)]
pub struct Pending {
    pub object: BusObject,
    pub parent_ref: Option<String>,
    pub depth: u8,
}

/// A walk over elements: those that wait, what was found, and the limits.
#[derive(Debug)]
pub struct SnapshotWalk {
    pub queue: Vec<Pending>,
    pub nodes: Vec<AccessibleNode>,
    pub topology: Vec<String>,
    pub truncated: bool,
    pub max_depth: u8,
    pub max_nodes: usize,
    pub include_text: bool,
}

/// The objects of a list that are not null.
pub open spec fn real_objects(objects: Seq<BusObject>) -> Seq<BusObject>
    decreases objects.len(),
{
    if objects.len() == 0 {
        Seq::empty()
    } else if objects.last().name is Some {
        real_objects(objects.drop_last()).push(objects.last())
    } else {
        real_objects(objects.drop_last())
    }
}

/// Whether objects wait for their visits under a parent at a depth.
pub open spec fn pending_under(
    pending: Seq<Pending>,
    objects: Seq<BusObject>,
    parent_ref: Option<Seq<char>>,
    depth: int,
) -> bool {
    &&& pending.len() == objects.len()
    &&& forall|i: int|
        0 <= i < pending.len() ==> (#[trigger] pending[i]).object == objects[i] && text::opt_text(
            pending[i].parent_ref,
        ) == parent_ref && pending[i].depth == depth
}

/// What comes next in a walk.
#[derive(Debug)]
pub enum WalkStep {
    Visit { pending: Pending },
    Done,
}

/// What was read of the children of an element.
#[derive(Debug)]
pub enum Children {
    /// The children themselves.
    Listed { objects: Vec<BusObject> },
    /// Only how many there are.
    Counted { count: i32 },
    /// Nothing.
    Unknown,
}

/// The line of an element in the topology: its key and its parent.
pub open spec fn topology_line(key: Seq<char>, parent_ref: Option<Seq<char>>) -> Seq<char> {
    key + "|"@ + (match parent_ref {
        Some(parent) => parent,
        None => Seq::empty(),
    })
}

/// Adds the objects of a list that are not null to those that wait.
fn push_pending(
    queue: &mut Vec<Pending>,
    objects: Vec<BusObject>,
    parent_ref: &Option<String>,
    depth: u8,
)
    ensures
        final(queue)@.len() == old(queue)@.len() + real_objects(objects@).len(),
        final(queue)@.take(old(queue)@.len() as int) == old(queue)@,
        pending_under(
            final(queue)@.skip(old(queue)@.len() as int),
            real_objects(objects@),
            text::opt_text(*parent_ref),
            depth as int,
        ),
{
    let ghost all = objects@;
    let ghost start = old(queue)@;
    let mut rest: Vec<BusObject> = objects;
    let ghost mut done: int = 0;
    while rest.len() > 0
        invariant
            0 <= done <= all.len(),
            rest@ == all.skip(done),
            start == old(queue)@,
            queue@.len() == start.len() + real_objects(all.take(done)).len(),
            queue@.take(start.len() as int) == start,
            forall|i: int|
                0 <= i < real_objects(all.take(done)).len() ==> (
                #[trigger] queue@[start.len() + i]).object == real_objects(all.take(done))[i]
                    && text::opt_text(queue@[start.len() + i].parent_ref) == text::opt_text(
                    *parent_ref,
                ) && queue@[start.len() + i].depth == depth,
        decreases rest.len(),
    {
        let object = rest.remove(0);
        let ghost before = queue@;
        proof {
            assert(object == all[done]);
            assert(rest@ =~= all.skip(done + 1));
            assert(all.take(done + 1).drop_last() =~= all.take(done));
            assert(all.take(done + 1).last() == object);
        }
        if object.name.is_some() {
            queue.push(Pending { object, parent_ref: clone_opt(parent_ref), depth });
            assert(queue@.take(start.len() as int) =~= before.take(start.len() as int));
        }
        proof {
            done = done + 1;
        }
    }
    assert(all.take(all.len() as int) =~= all);
    assert(done == all.len());
    let ghost added = queue@.skip(start.len() as int);
    assert forall|i: int| 0 <= i < added.len() implies (#[trigger] added[i]).object
        == real_objects(all)[i] && text::opt_text(added[i].parent_ref) == text::opt_text(
        *parent_ref,
    ) && added[i].depth == depth by {
        assert(added[i] == queue@[start.len() + i]);
    }
}

impl SnapshotWalk {
    /// Whether a walk has found no more than it may, and goes no deeper.
    pub open spec fn within_limits(&self) -> bool {
        &&& self.nodes@.len() <= self.max_nodes
        &&& forall|i: int|
            0 <= i < self.queue@.len() ==> (#[trigger] self.queue@[i]).depth <= self.max_depth
    }

    /// Begins a walk from its roots.
    pub fn begin(request: &AccessibilitySnapshotRequest, roots: Vec<BusObject>) -> (walk: Self)
        ensures
            walk.within_limits(),
            walk.nodes@.len() == 0,
            walk.topology@.len() == 0,
            !walk.truncated,
            walk.max_depth == request.max_depth,
            walk.max_nodes == request.max_nodes,
            walk.include_text == request.include_text,
            pending_under(walk.queue@, real_objects(roots@), None, 0),
    {
        let mut queue: Vec<Pending> = Vec::new();
        let none: Option<String> = None;
        push_pending(&mut queue, roots, &none, 0);
        assert(queue@.skip(0) =~= queue@);
        SnapshotWalk {
            queue,
            nodes: Vec::new(),
            topology: Vec::new(),
            truncated: false,
            max_depth: request.max_depth,
            max_nodes: request.max_nodes,
            include_text: request.include_text,
        }
    }

    /// What comes next: the walk ends where nothing waits, and is cut off
    /// where enough was found.
    pub fn next(&mut self) -> (step: WalkStep)
        requires
            old(self).within_limits(),
        ensures
            final(self).within_limits(),
            final(self).nodes == old(self).nodes,
            final(self).topology == old(self).topology,
            final(self).max_depth == old(self).max_depth,
            final(self).max_nodes == old(self).max_nodes,
            final(self).include_text == old(self).include_text,
            match step {
                WalkStep::Visit { pending } => {
                    &&& old(self).queue@.len() > 0
                    &&& old(self).nodes@.len() < old(self).max_nodes
                    &&& pending == old(self).queue@[0]
                    &&& pending.depth <= old(self).max_depth
                    &&& final(self).queue@ == old(self).queue@.drop_first()
                    &&& final(self).truncated == old(self).truncated
                },
                WalkStep::Done => {
                    &&& old(self).queue@.len() == 0 || old(self).nodes@.len() >= old(
                        self,
                    ).max_nodes
                    &&& final(self).truncated == (old(self).truncated || old(self).queue@.len()
                        > 0)
                },
            },
    {
        if self.queue.len() == 0 {
            return WalkStep::Done;
        }
        let ghost before = self.queue@;
        let pending = self.queue.remove(0);
        assert(self.queue@ =~= before.drop_first());
        if self.nodes.len() >= self.max_nodes {
            self.truncated = true;
            return WalkStep::Done;
        }
        WalkStep::Visit { pending }
    }

    /// Takes in a visited element. Its children wait for their visits where
    /// the depth allows it, and else cut the walk off where there are any.
    pub fn visit(
        &mut self,
        registry: &mut ElementRegistry,
        pending: Pending,
        reading: Result<RawNode, ControllerError>,
        children: Children,
        process_id: Option<u32>,
        windows: &Vec<WindowInfo>,
    ) -> (result: Result<(), ControllerError>)
        requires
            old(registry).well_formed(),
            old(self).within_limits(),
            old(self).nodes@.len() < old(self).max_nodes,
            pending.depth <= old(self).max_depth,
        ensures
            final(registry).well_formed(),
            final(self).within_limits(),
            final(self).max_depth == old(self).max_depth,
            final(self).max_nodes == old(self).max_nodes,
            final(self).include_text == old(self).include_text,
            match pending.object.name {
                None => {
                    &&& result is Err
                    &&& error::retry_error(
                        result->Err_0,
                        ErrorCode::StaleElement,
                        "AT-SPI returned a null object"@,
                    )
                    &&& final(registry)@ == old(registry)@
                },
                Some(name) => {
                    let key = accessibility::object_key(name@, pending.object.path@);
                    let element_ref = old(registry)@.ref_of(key);
                    &&& final(registry)@ == old(registry)@.seen(key)
                    &&& match reading {
                        Err(e) => result == Err::<(), ControllerError>(e),
                        Ok(raw) => {
                            &&& result is Ok
                            &&& texts(final(self).topology@) == texts(
                                old(self).topology@,
                            ).push(topology_line(key, text::opt_text(pending.parent_ref)))
                            &&& final(self).nodes@.len() == old(self).nodes@.len() + 1
                            &&& final(self).nodes@.drop_last() == old(self).nodes@
                            &&& is_node(
                                final(self).nodes@.last(),
                                raw,
                                element_ref,
                                text::opt_text(pending.parent_ref),
                                old(self).include_text,
                                process_id,
                                windows@,
                            )
                            &&& if pending.depth < old(self).max_depth {
                                let added = match children {
                                    Children::Listed { objects } => real_objects(objects@),
                                    _ => Seq::empty(),
                                };
                                &&& final(self).truncated == old(self).truncated
                                &&& final(self).queue@.len() == old(self).queue@.len()
                                    + added.len()
                                &&& final(self).queue@.take(old(self).queue@.len() as int) == old(
                                    self,
                                ).queue@
                                &&& pending_under(
                                    final(self).queue@.skip(old(self).queue@.len() as int),
                                    added,
                                    Some(element_ref),
                                    pending.depth + 1,
                                )
                            } else {
                                &&& final(self).queue@ == old(self).queue@
                                &&& final(self).truncated == (old(self).truncated
                                    || has_children(children))
                            }
                        },
                    }
                },
            },
    {
        let name = match pending.object.name {
            Some(name) => name,
            None => {
                return Err(
                    ControllerError::new(
                        ErrorCode::StaleElement,
                        "AT-SPI returned a null object",
                    ).retryable(true),
                );
            },
        };
        let path = pending.object.path;
        let element_ref = registry.ensure_ref(name.as_str(), path.as_str());
        let parent = match &pending.parent_ref {
            Some(parent) => parent.clone(),
            None => String::new(),
        };
        assert(parent@ =~= (match text::opt_text(pending.parent_ref) {
            Some(parent) => parent,
            None => Seq::empty(),
        }));
        let line = name.concat("|").concat(path.as_str()).concat("|").concat(parent.as_str());
        let raw = match reading {
            Ok(raw) => raw,
            Err(e) => {
                return Err(e);
            },
        };
        let ghost lines = self.topology@;
        self.topology.push(line);
        assert(texts(self.topology@) =~= texts(lines).push(line@));
        let this: Option<String> = Some(element_ref.clone());
        let node = read_node(
            raw,
            element_ref,
            pending.parent_ref,
            self.include_text,
            process_id,
            windows,
        );
        let ghost waiting = self.queue@;
        if pending.depth < self.max_depth {
            if let Children::Listed { objects } = children {
                push_pending(&mut self.queue, objects, &this, pending.depth + 1);
                assert forall|i: int| 0 <= i < self.queue@.len() implies (
                #[trigger] self.queue@[i]).depth <= self.max_depth by {
                    if i < waiting.len() {
                        assert(self.queue@.take(waiting.len() as int)[i] == waiting[i]);
                    } else {
                        assert(self.queue@.skip(waiting.len() as int)[i - waiting.len()]
                            == self.queue@[i]);
                    }
                }
            } else {
                assert(self.queue@.take(waiting.len() as int) =~= waiting);
            }
        } else {
            let more: bool = match &children {
                Children::Listed { objects } => objects.len() > 0,
                Children::Counted { count } => *count > 0,
                Children::Unknown => false,
            };
            if more {
                self.truncated = true;
            }
        }
        let ghost found = self.nodes@;
        self.nodes.push(node);
        assert(self.nodes@.drop_last() =~= found);
        Ok(())
    }
}

/// Whether an element is known to have children.
pub open spec fn has_children(children: Children) -> bool {
    match children {
        Children::Listed { objects } => objects@.len() > 0,
        Children::Counted { count } => count > 0,
        Children::Unknown => false,
    }
}

/// Whether a found element is one that a snapshot asks for.
pub open spec fn wanted_node(node: AccessibleNode, request: AccessibilitySnapshotRequest) -> bool {
    &&& match request.root {
        AccessibilityRoot::Window { window_ref } => text::opt_text(node.window_ref) == Some(
            window_ref@,
        ),
        _ => true,
    }
    &&& request.selector is Some ==> accessibility::selects(request.selector->0, node)
}

/// The found elements that a snapshot asks for, in order.
pub open spec fn wanted_nodes(
    nodes: Seq<AccessibleNode>,
    request: AccessibilitySnapshotRequest,
) -> Seq<AccessibleNode>
    decreases nodes.len(),
{
    if nodes.len() == 0 {
        Seq::empty()
    } else {
        let rest = wanted_nodes(nodes.drop_last(), request);
        if wanted_node(nodes.last(), request) {
            rest.push(nodes.last())
        } else {
            rest
        }
    }
}

/// A snapshot holds no more elements than its limit, and only such as were
/// asked for.
pub proof fn snapshots_stay_within_limits(
    walk: SnapshotWalk,
    request: AccessibilitySnapshotRequest,
    at: int,
)
    requires
        walk.within_limits(),
    ensures
        wanted_nodes(walk.nodes@, request).len() <= walk.max_nodes,
        0 <= at < wanted_nodes(walk.nodes@, request).len() ==> wanted_node(
            wanted_nodes(walk.nodes@, request)[at],
            request,
        ),
{
    lemma_wanted_nodes(walk.nodes@, request, at);
}

/// The elements that a snapshot asks for are among those that were found.
proof fn lemma_wanted_nodes(
    nodes: Seq<AccessibleNode>,
    request: AccessibilitySnapshotRequest,
    at: int,
)
    ensures
        wanted_nodes(nodes, request).len() <= nodes.len(),
        0 <= at < wanted_nodes(nodes, request).len() ==> wanted_node(
            wanted_nodes(nodes, request)[at],
            request,
        ),
    decreases nodes.len(),
{
    if nodes.len() > 0 {
        lemma_wanted_nodes(nodes.drop_last(), request, at);
    }
}

/// Keeps the found elements that a snapshot asks for.
fn keep_wanted(nodes: Vec<AccessibleNode>, request: &AccessibilitySnapshotRequest) -> (kept: Vec<
    AccessibleNode,
>)
    ensures
        kept@ == wanted_nodes(nodes@, *request),
{
    let ghost all = nodes@;
    let mut rest: Vec<AccessibleNode> = nodes;
    let mut kept: Vec<AccessibleNode> = Vec::new();
    let ghost mut done: int = 0;
    while rest.len() > 0
        invariant
            0 <= done <= all.len(),
            rest@ == all.skip(done),
            kept@ == wanted_nodes(all.take(done), *request),
        decreases rest.len(),
    {
        let node = rest.remove(0);
        proof {
            assert(node == all[done]);
            assert(rest@ =~= all.skip(done + 1));
            assert(all.take(done + 1).drop_last() =~= all.take(done));
        }
        let in_window: bool = match &request.root {
            AccessibilityRoot::Window { window_ref } => is_text(
                &node.window_ref,
                window_ref.as_str(),
            ),
            _ => true,
        };
        let selected: bool = match &request.selector {
            Some(selector) => selector.matches(&node),
            None => true,
        };
        if in_window && selected {
            kept.push(node);
        }
        proof {
            done = done + 1;
        }
    }
    assert(all.take(all.len() as int) =~= all);
    assert(done == all.len());
    kept
}

/// Ends a walk: its topology is compared with the known one, and the
/// elements that were asked for are kept.
pub fn finish_snapshot(
    registry: &mut ElementRegistry,
    walk: SnapshotWalk,
    request: &AccessibilitySnapshotRequest,
) -> (snapshot: AccessibilitySnapshot)
    requires
        old(registry).well_formed(),
    ensures
        final(registry).well_formed(),
        exists|found: Seq<Seq<char>>|
            crate::sort::in_text_order(found) && found.to_multiset() == texts(
                walk.topology@,
            ).to_multiset() && final(registry)@ == #[trigger] old(registry)@.compared(found),
        snapshot.generation == final(registry)@.generation,
        snapshot.truncated == walk.truncated,
        snapshot.nodes@ == wanted_nodes(walk.nodes@, *request),
{
    let generation = registry.compare_topology(walk.topology);
    AccessibilitySnapshot {
        generation,
        truncated: walk.truncated,
        nodes: keep_wanted(walk.nodes, request),
    }
}

/// A snapshot is complete: it holds every found element that lies in the
/// asked-for window and fits the selector, as often as it was found and in the
/// order of the walk, and nothing else.
pub proof fn snapshots_are_complete(
    registry: &mut ElementRegistry,
    walk: SnapshotWalk,
    request: AccessibilitySnapshotRequest,
    snapshot: AccessibilitySnapshot,
    at: int,
)
    requires
        call_ensures(finish_snapshot, (registry, walk, &request), snapshot),
    ensures
        snapshot.nodes@ == walk.nodes@.filter(
            |node: AccessibleNode|
                {
                    &&& request.root matches AccessibilityRoot::Window { window_ref } ==> {
                        &&& node.window_ref is Some
                        &&& node.window_ref->0@ == window_ref@
                    }
                    &&& request.selector matches Some(selector) ==> accessibility::selects(
                        selector,
                        node,
                    )
                },
        ),
        0 <= at < walk.nodes@.len() && wanted_node(walk.nodes@[at], request)
            ==> snapshot.nodes@.contains(walk.nodes@[at]),
        !(request.root is Window) && request.selector is None ==> snapshot.nodes@ == walk.nodes@,
        snapshot.truncated == walk.truncated,
        snapshot.generation == final(registry)@.generation,
{
    let wanted = |node: AccessibleNode|
        {
            &&& request.root matches AccessibilityRoot::Window { window_ref } ==> {
                &&& node.window_ref is Some
                &&& node.window_ref->0@ == window_ref@
            }
            &&& request.selector matches Some(selector) ==> accessibility::selects(selector, node)
        };
    lemma_wanted_filter(walk.nodes@, request, wanted);
    walk.nodes@.filter_lemma(wanted);
    if !(request.root is Window) && request.selector is None {
        lemma_all_wanted(walk.nodes@, request);
    }
}

/// The elements that a snapshot asks for are those that fit.
proof fn lemma_wanted_filter(
    nodes: Seq<AccessibleNode>,
    request: AccessibilitySnapshotRequest,
    wanted: spec_fn(AccessibleNode) -> bool,
)
    requires
        forall|node: AccessibleNode| #[trigger] wanted(node) == wanted_node(node, request),
    ensures
        wanted_nodes(nodes, request) == nodes.filter(wanted),
    decreases nodes.len(),
{
    reveal(Seq::filter);
    if nodes.len() > 0 {
        lemma_wanted_filter(nodes.drop_last(), request, wanted);
        assert(wanted(nodes.last()) == wanted_node(nodes.last(), request));
    }
}

/// Where nothing is asked of them, all elements are kept.
proof fn lemma_all_wanted(nodes: Seq<AccessibleNode>, request: AccessibilitySnapshotRequest)
    requires
        !(request.root is Window),
        request.selector is None,
    ensures
        wanted_nodes(nodes, request) == nodes,
    decreases nodes.len(),
{
    if nodes.len() > 0 {
        lemma_all_wanted(nodes.drop_last(), request);
        assert(nodes =~= nodes.drop_last().push(nodes.last()));
    } else {
        assert(wanted_nodes(nodes, request) =~= nodes);
    }
}

/// A node shows what was read of its element, field by field: what could not be
/// read is empty or absent, and text, actions, bounds and a value are there only
/// where the element has them.
pub proof fn nodes_show_what_was_read(
    raw: RawNode,
    element_ref: String,
    parent_ref: Option<String>,
    include_text: bool,
    process_id: Option<u32>,
    windows: Vec<WindowInfo>,
    node: AccessibleNode,
)
    requires
        call_ensures(
            read_node,
            (raw, element_ref, parent_ref, include_text, process_id, &windows),
            node,
        ),
    ensures
        node.element_ref@ == element_ref@,
        text::opt_text(node.parent_ref) == text::opt_text(parent_ref),
        raw.role is Some ==> node.role@ == raw.role->0@,
        raw.role is None ==> node.role@ == "unknown"@,
        raw.name is Some ==> node.name@ == raw.name->0@,
        raw.name is None ==> node.name@.len() == 0,
        raw.description is Some ==> node.description@ == raw.description->0@,
        raw.description is None ==> node.description@.len() == 0,
        raw.states is Some ==> texts(node.states@) == texts(raw.states->0@),
        raw.states is None ==> node.states@.len() == 0,
        texts(node.interfaces@) == texts(raw.interfaces@),
        raw.has_action && raw.actions is Some ==> texts(node.actions@) == texts(raw.actions->0@),
        !raw.has_action || raw.actions is None ==> node.actions@.len() == 0,
        node.text is Some <==> include_text && raw.has_text && raw.text is Some,
        node.text is Some ==> node.text->0@ == raw.text->0@,
        node.value is Some <==> raw.has_value && raw.current is Some && raw.minimum is Some
            && raw.maximum is Some && raw.increment is Some,
        node.value is Some ==> node.value->0.current == raw.current->0 && node.value->0.minimum
            == raw.minimum->0 && node.value->0.maximum == raw.maximum->0 && node.value->0.increment
            == raw.increment->0,
        node.bounds is Some <==> raw.has_component && raw.extents is Some && (raw.extents->0).2 > 0
            && (raw.extents->0).3 > 0,
        node.bounds is Some ==> node.bounds->0.x == (raw.extents->0).0 && node.bounds->0.y == (
        raw.extents->0).1 && node.bounds->0.width == (raw.extents->0).2 && node.bounds->0.height
            == (raw.extents->0).3,
        node.window_ref is Some ==> node.bounds is Some && exists|at: int|
            0 <= at < windows@.len() && (#[trigger] windows@[at]).mapped && windows@[at].window_ref
                == node.window_ref->0 && geometry::overlap(
                node.bounds->0,
                windows@[at].geometry,
            ),
{
    assert(texts(node.states@).len() == node.states@.len());
    assert(texts(node.actions@).len() == node.actions@.len());
}

/// The walk starts with the roots that are objects, in their order and at the
/// top, and without anything found.
pub proof fn walks_start_at_their_roots(
    request: AccessibilitySnapshotRequest,
    roots: Vec<BusObject>,
    walk: SnapshotWalk,
    at: int,
)
    requires
        call_ensures(SnapshotWalk::begin, (&request, roots), walk),
    ensures
        ({
            let objects = roots@.filter(|object: BusObject| object.name is Some);
            &&& walk.queue@.len() == objects.len()
            &&& 0 <= at < objects.len() ==> walk.queue@[at].object == objects[at]
                && walk.queue@[at].parent_ref is None && walk.queue@[at].depth == 0
        }),
        walk.nodes@.len() == 0 && walk.topology@.len() == 0 && !walk.truncated,
        walk.max_depth == request.max_depth && walk.max_nodes == request.max_nodes
            && walk.include_text == request.include_text,
{
    lemma_real_objects(roots@);
    if 0 <= at < walk.queue@.len() {
        let _ = walk.queue@[at];
    }
}

/// The objects of a list that are not null are those with a name.
proof fn lemma_real_objects(objects: Seq<BusObject>)
    ensures
        real_objects(objects) == objects.filter(|object: BusObject| object.name is Some),
    decreases objects.len(),
{
    reveal(Seq::filter);
    if objects.len() > 0 {
        lemma_real_objects(objects.drop_last());
    }
}

/// A walk visits what has waited longest, ends where nothing waits, and is cut
/// off, and says so, where something still waits but enough was found.
pub proof fn walks_visit_in_order(walk: &mut SnapshotWalk, step: WalkStep)
    requires
        call_ensures(SnapshotWalk::next, (walk,), step),
    ensures
        step is Visit <==> old(walk).queue@.len() > 0 && old(walk).nodes@.len() < old(
            walk,
        ).max_nodes,
        step matches WalkStep::Visit { pending } ==> {
            &&& pending == old(walk).queue@[0]
            &&& final(walk).queue@ == old(walk).queue@.skip(1)
            &&& final(walk).truncated == old(walk).truncated
        },
        step is Done && old(walk).queue@.len() > 0 ==> final(walk).truncated,
        step is Done && old(walk).queue@.len() == 0 ==> final(walk).truncated == old(
            walk,
        ).truncated,
        final(walk).nodes == old(walk).nodes,
{
    if step is Visit {
        assert(old(walk).queue@.drop_first() =~= old(walk).queue@.skip(1));
    }
}

/// A visited element is found last and keeps its reference; its children wait
/// behind all others, one level deeper and under it. Where the depth is reached
/// they do not, and the walk says that it was cut off if there are any.
pub proof fn visits_find_the_element_and_queue_its_children(
    walk: &mut SnapshotWalk,
    registry: &mut ElementRegistry,
    pending: Pending,
    raw: RawNode,
    children: Children,
    process_id: Option<u32>,
    windows: Vec<WindowInfo>,
    result: Result<(), ControllerError>,
    at: int,
)
    requires
        call_ensures(
            SnapshotWalk::visit,
            (
                walk,
                registry,
                pending,
                Ok::<RawNode, ControllerError>(raw),
                children,
                process_id,
                &windows,
            ),
            result,
        ),
        pending.object.name is Some,
    ensures
        result is Ok,
        final(walk).nodes@.len() == old(walk).nodes@.len() + 1,
        0 <= at < old(walk).nodes@.len() ==> final(walk).nodes@[at] == old(walk).nodes@[at],
        0 <= at < old(walk).queue@.len() ==> final(walk).queue@[at] == old(walk).queue@[at],
        ({
            let key = pending.object.name->0@ + "|"@ + pending.object.path@;
            let listed = match children {
                Children::Listed { objects } => objects@.filter(
                    |object: BusObject| object.name is Some,
                ),
                _ => Seq::empty(),
            };
            let waiting = old(walk).queue@.len();
            &&& final(walk).nodes@.last().element_ref@ == old(registry)@.ref_of(key)
            &&& text::opt_text(final(walk).nodes@.last().parent_ref) == text::opt_text(
                pending.parent_ref,
            )
            &&& pending.depth < old(walk).max_depth ==> {
                &&& final(walk).truncated == old(walk).truncated
                &&& final(walk).queue@.len() == waiting + listed.len()
                &&& 0 <= at < listed.len() ==> {
                    let child = final(walk).queue@[waiting + at];
                    &&& child.object == listed[at]
                    &&& child.depth == pending.depth + 1
                    &&& child.parent_ref is Some
                    &&& child.parent_ref->0@ == final(walk).nodes@.last().element_ref@
                }
            }
            &&& pending.depth >= old(walk).max_depth ==> {
                &&& final(walk).queue@.len() == waiting
                &&& final(walk).truncated <==> old(walk).truncated || match children {
                    Children::Listed { objects } => objects@.len() > 0,
                    Children::Counted { count } => count > 0,
                    Children::Unknown => false,
                }
            }
        }),
{
    if let Children::Listed { objects } = children {
        lemma_real_objects(objects@);
    }
    let waiting = old(walk).queue@.len() as int;
    if 0 <= at < old(walk).nodes@.len() {
        assert(final(walk).nodes@.drop_last()[at] == old(walk).nodes@[at]);
    }
    if pending.depth < old(walk).max_depth {
        if 0 <= at < old(walk).queue@.len() {
            assert(final(walk).queue@.take(waiting)[at] == old(walk).queue@[at]);
        }
        let added = final(walk).queue@.skip(waiting);
        if 0 <= at < added.len() {
            assert(added[at] == final(walk).queue@[waiting + at]);
        }
    }
}

/// The text that is read of an element ends where it ends, or at the limit.
pub proof fn read_text_is_limited(count: Option<i32>, limit: usize, end: i32)
    requires
        call_ensures(text_end, (count, limit), end),
        limit <= i32::MAX,
    ensures
        0 <= end <= limit,
        count is None || count->0 < 0 ==> end == 0,
        count is Some && 0 <= count->0 <= limit ==> end == count->0,
        count is Some && count->0 > limit ==> end == limit,
{
}

/// An element that is no object is stale, and the walk can be retried; one
/// that could not be read fails the walk with the reason.
pub proof fn unreadable_elements_end_the_walk(
    walk: &mut SnapshotWalk,
    registry: &mut ElementRegistry,
    pending: Pending,
    reading: Result<RawNode, ControllerError>,
    children: Children,
    process_id: Option<u32>,
    windows: Vec<WindowInfo>,
    result: Result<(), ControllerError>,
)
    requires
        call_ensures(
            SnapshotWalk::visit,
            (walk, registry, pending, reading, children, process_id, &windows),
            result,
        ),
    ensures
        pending.object.name is None ==> result is Err && result->Err_0.code
            == ErrorCode::StaleElement && result->Err_0.retryable,
        pending.object.name is Some ==> (result is Ok <==> reading is Ok),
        pending.object.name is Some && reading is Err ==> result->Err_0 == reading->Err_0,
{
}

} // verus!
