//! Waits of a session: those of the controller, and those for elements.
//!
//! Times are nanoseconds of one clock.

use vstd::prelude::*;

use crate::accessibility::{
    AccessibilityRoot, AccessibilitySnapshotRequest, AccessibleNode, ElementSelector,
    DEFAULT_MAX_DEPTH, DEFAULT_MAX_NODES, DEFAULT_TEXT_LIMIT,
};
use crate::error;
use crate::error::{ControllerError, ErrorCode};
use crate::ieee;
use crate::session;
use crate::session::{
    deadline_at, validate_timeout, SessionWaitCondition, SessionWaitRequest, ValueRange,
};
use crate::text;
use crate::text::{all_eq_ignore_ascii_case, contains_text, texts, to_lowercase};
use crate::types::{clone_opt, ObserveRequest, WaitCondition, WaitRequest};
use crate::wait::wait_timeout_error;

verus! {

/// How long a wait without events sleeps between two looks.
pub const POLL_NS: u64 = 50_000_000;

/// What an element is waited for.
#[derive(Debug)]
pub enum ElementCondition {
    /// Some element matches.
    Matched { selector: ElementSelector },
    /// An element is in a state.
    State {
        element_ref: String,
        states_all: Vec<String>,
        name_contains: Option<String>,
        text_contains: Option<String>,
        value: Option<ValueRange>,
    },
}

/// A wait for an element.
#[derive(Debug)]
pub struct ElementWait {
    pub condition: ElementCondition,
    pub observe: bool,
    pub deadline: u64,
}

/// How a session waits.
#[derive(Debug)]
pub enum WaitPlan {
    /// The controller waits for a frame.
    Frame { request: WaitRequest },
    /// The controller waits for a window.
    Window { request: WaitRequest },
    /// The session waits for an element.
    Element { wait: ElementWait },
}

/// Whether a plan is that of a request.
pub open spec fn is_plan_of(plan: WaitPlan, request: SessionWaitRequest, now: u64) -> bool {
    match (request.condition, plan) {
        (
            SessionWaitCondition::FrameChanged { since_frame_id, target },
            WaitPlan::Frame { request: wait },
        ) => wait == (WaitRequest {
            condition: WaitCondition::Change { since_frame_id, target },
            timeout_ms: request.timeout_ms,
            observe: request.observe,
        }),
        (
            SessionWaitCondition::FrameIdle { quiet_ms, target },
            WaitPlan::Frame { request: wait },
        ) => wait == (WaitRequest {
            condition: WaitCondition::Idle { quiet_ms, target },
            timeout_ms: request.timeout_ms,
            observe: request.observe,
        }),
        (
            SessionWaitCondition::WindowMatched { selector },
            WaitPlan::Window { request: wait },
        ) => wait == (WaitRequest {
            condition: WaitCondition::Window { selector },
            timeout_ms: request.timeout_ms,
            observe: request.observe,
        }),
        (
            SessionWaitCondition::WindowState { window_ref, mapped, active, title_contains },
            WaitPlan::Window { request: wait },
        ) => wait == (WaitRequest {
            condition: WaitCondition::WindowState { window_ref, mapped, active, title_contains },
            timeout_ms: request.timeout_ms,
            observe: request.observe,
        }),
        (
            SessionWaitCondition::WindowClosed { window_ref },
            WaitPlan::Window { request: wait },
        ) => wait == (WaitRequest {
            condition: WaitCondition::WindowClosed { window_ref },
            timeout_ms: request.timeout_ms,
            observe: request.observe,
        }),
        (SessionWaitCondition::ElementMatched { selector }, WaitPlan::Element { wait }) => wait == (
        ElementWait {
            condition: ElementCondition::Matched { selector },
            observe: request.observe,
            deadline: session::ns_later(now, request.timeout_ms) as u64,
        }),
        (
            SessionWaitCondition::ElementState {
                element_ref,
                states_all,
                name_contains,
                text_contains,
                value,
            },
            WaitPlan::Element { wait },
        ) => wait == (ElementWait {
            condition: ElementCondition::State {
                element_ref,
                states_all,
                name_contains,
                text_contains,
                value,
            },
            observe: request.observe,
            deadline: session::ns_later(now, request.timeout_ms) as u64,
        }),
        _ => false,
    }
}

/// Decides how to wait.
pub fn plan_wait(request: SessionWaitRequest, now: u64) -> (result: Result<
    WaitPlan,
    ControllerError,
>)
    ensures
        match result {
            Ok(plan) => session::valid_timeout(request.timeout_ms) && is_plan_of(
                plan,
                request,
                now,
            ),
            Err(e) => !session::valid_timeout(request.timeout_ms) && error::final_error(
                e,
                ErrorCode::InvalidInput,
                "timeout_ms must be between 1 and 60000"@,
            ),
        },
{
    match validate_timeout(request.timeout_ms) {
        Ok(()) => {},
        Err(e) => {
            return Err(e);
        },
    }
    let timeout_ms: u64 = request.timeout_ms;
    let observe: bool = request.observe;
    let deadline = deadline_at(now, timeout_ms);
    let plan = match request.condition {
        SessionWaitCondition::FrameChanged { since_frame_id, target } => WaitPlan::Frame {
            request: WaitRequest {
                condition: WaitCondition::Change { since_frame_id, target },
                timeout_ms,
                observe,
            },
        },
        SessionWaitCondition::FrameIdle { quiet_ms, target } => WaitPlan::Frame {
            request: WaitRequest {
                condition: WaitCondition::Idle { quiet_ms, target },
                timeout_ms,
                observe,
            },
        },
        SessionWaitCondition::WindowMatched { selector } => WaitPlan::Window {
            request: WaitRequest {
                condition: WaitCondition::Window { selector },
                timeout_ms,
                observe,
            },
        },
        SessionWaitCondition::WindowState { window_ref, mapped, active, title_contains } =>
            WaitPlan::Window {
            request: WaitRequest {
                condition: WaitCondition::WindowState {
                    window_ref,
                    mapped,
                    active,
                    title_contains,
                },
                timeout_ms,
                observe,
            },
        },
        SessionWaitCondition::WindowClosed { window_ref } => WaitPlan::Window {
            request: WaitRequest {
                condition: WaitCondition::WindowClosed { window_ref },
                timeout_ms,
                observe,
            },
        },
        SessionWaitCondition::ElementMatched { selector } => WaitPlan::Element {
            wait: ElementWait {
                condition: ElementCondition::Matched { selector },
                observe,
                deadline,
            },
        },
        SessionWaitCondition::ElementState {
            element_ref,
            states_all,
            name_contains,
            text_contains,
            value,
        } => WaitPlan::Element {
            wait: ElementWait {
                condition: ElementCondition::State {
                    element_ref,
                    states_all,
                    name_contains,
                    text_contains,
                    value,
                },
                observe,
                deadline,
            },
        },
    };
    Ok(plan)
}

/// Whether an element meets what it is waited for. One that matches was
/// selected by the snapshot.
pub open spec fn meets(condition: ElementCondition, node: AccessibleNode) -> bool {
    match condition {
        ElementCondition::Matched { .. } => true,
        ElementCondition::State { states_all, name_contains, text_contains, value, .. } => {
            &&& text::all_folded(texts(node.states@), texts(states_all@))
            &&& name_contains is Some ==> text::occurs(
                text::lowercase(node.name@),
                text::lowercase(name_contains->0@),
            )
            &&& text_contains is Some ==> node.text is Some && text::occurs(
                node.text->0@,
                text_contains->0@,
            )
            &&& value is Some ==> value->0.holds(node.value)
        },
    }
}

/// Whether a snapshot request is that of a wait.
pub open spec fn is_request_of(
    request: AccessibilitySnapshotRequest,
    condition: ElementCondition,
) -> bool {
    &&& request.text_limit == DEFAULT_TEXT_LIMIT
    &&& match condition {
        ElementCondition::Matched { selector } => {
            &&& request.root is Desktop
            &&& request.max_depth == DEFAULT_MAX_DEPTH
            &&& request.max_nodes == DEFAULT_MAX_NODES
            &&& !request.include_text
            &&& request.selector is Some
            &&& request.selector->0.window_ref == selector.window_ref
            &&& request.selector->0.role == selector.role
            &&& request.selector->0.name_contains == selector.name_contains
            &&& texts(request.selector->0.states_all@) == texts(selector.states_all@)
            &&& request.selector->0.action == selector.action
        },
        ElementCondition::State { element_ref, text_contains, .. } => {
            &&& request.root == (AccessibilityRoot::Element { element_ref })
            &&& request.selector is None
            &&& request.max_depth == 0
            &&& request.max_nodes == 1
            &&& request.include_text == (text_contains is Some)
        },
    }
}

/// What a wait for an element does between two looks.
#[derive(Debug, Clone, Copy, PartialEq, Eq, Structural)]
pub enum Tick {
    /// Await an event, for no longer than some nanoseconds.
    AwaitEvent { ns: u64 },
    /// Sleep for some nanoseconds.
    Sleep { ns: u64 },
}

/// Copies a list of texts.
fn clone_texts(list: &Vec<String>) -> (copy: Vec<String>)
    ensures
        copy@ == list@,
{
    let mut copy: Vec<String> = Vec::new();
    let mut at: usize = 0;
    while at < list.len()
        invariant
            at <= list.len(),
            copy@ =~= list@.take(at as int),
        decreases list.len() - at,
    {
        copy.push(list[at].clone());
        at += 1;
    }
    assert(list@.take(list@.len() as int) =~= list@);
    copy
}

impl ElementWait {
    /// The snapshot to look at.
    pub fn request(&self) -> (request: AccessibilitySnapshotRequest)
        ensures
            is_request_of(request, self.condition),
    {
        match &self.condition {
            ElementCondition::Matched { selector } => AccessibilitySnapshotRequest {
                root: AccessibilityRoot::Desktop,
                selector: Some(
                    ElementSelector {
                        window_ref: clone_opt(&selector.window_ref),
                        role: clone_opt(&selector.role),
                        name_contains: clone_opt(&selector.name_contains),
                        states_all: clone_texts(&selector.states_all),
                        action: clone_opt(&selector.action),
                    },
                ),
                max_depth: DEFAULT_MAX_DEPTH,
                max_nodes: DEFAULT_MAX_NODES,
                include_text: false,
                text_limit: DEFAULT_TEXT_LIMIT,
            },
            ElementCondition::State { element_ref, text_contains, .. } => {
                AccessibilitySnapshotRequest {
                    root: AccessibilityRoot::Element { element_ref: element_ref.clone() },
                    selector: None,
                    max_depth: 0,
                    max_nodes: 1,
                    include_text: text_contains.is_some(),
                    text_limit: DEFAULT_TEXT_LIMIT,
                }
            },
        }
    }

    /// Looks at the elements of a snapshot: the first one decides.
    pub fn look(&self, nodes: Vec<AccessibleNode>) -> (found: Option<AccessibleNode>)
        ensures
            if nodes@.len() > 0 && meets(self.condition, nodes@[0]) {
                found == Some(nodes@[0])
            } else {
                found is None
            },
    {
        let mut nodes = nodes;
        if nodes.len() == 0 {
            return None;
        }
        let node = nodes.remove(0);
        match &self.condition {
            ElementCondition::Matched { .. } => Some(node),
            ElementCondition::State { states_all, name_contains, text_contains, value, .. } => {
                if !all_eq_ignore_ascii_case(&node.states, states_all) {
                    return None;
                }
                if let Some(wanted) = name_contains {
                    if !contains_text(
                        to_lowercase(node.name.as_str()).as_str(),
                        to_lowercase(wanted.as_str()).as_str(),
                    ) {
                        return None;
                    }
                }
                if let Some(wanted) = text_contains {
                    match &node.text {
                        Some(content) => {
                            if !contains_text(content.as_str(), wanted.as_str()) {
                                return None;
                            }
                        },
                        None => {
                            return None;
                        },
                    }
                }
                if let Some(range) = value {
                    if !range.matches(&node.value) {
                        return None;
                    }
                }
                Some(node)
            },
        }
    }

    /// What to do until the next look. Without events, the wait polls.
    pub fn tick(&self, event_driven: bool, now: u64) -> (result: Result<Tick, ControllerError>)
        ensures
            match result {
                Err(e) => now >= self.deadline && error::retry_error(
                    e,
                    ErrorCode::Timeout,
                    "wait condition timed out"@,
                ),
                Ok(Tick::AwaitEvent { ns }) => event_driven && now < self.deadline && ns
                    == self.deadline - now,
                Ok(Tick::Sleep { ns }) => !event_driven && now < self.deadline && ns == (if POLL_NS
                    < self.deadline - now {
                    POLL_NS as int
                } else {
                    self.deadline - now
                }),
            },
    {
        if now >= self.deadline {
            return Err(wait_timeout_error());
        }
        let left: u64 = self.deadline - now;
        if event_driven {
            Ok(Tick::AwaitEvent { ns: left })
        } else if POLL_NS < left {
            Ok(Tick::Sleep { ns: POLL_NS })
        } else {
            Ok(Tick::Sleep { ns: left })
        }
    }

    /// What comes of awaiting an event: none until the deadline ends the wait.
    pub fn awaited(&self, event: bool) -> (result: Result<(), ControllerError>)
        ensures
            match result {
                Ok(()) => event,
                Err(e) => !event && error::retry_error(
                    e,
                    ErrorCode::Timeout,
                    "wait condition timed out"@,
                ),
            },
    {
        if event {
            Ok(())
        } else {
            Err(wait_timeout_error())
        }
    }

    /// The observation that goes with the outcome, where one is asked for:
    /// that of the desktop.
    pub fn observation(&self) -> (request: Option<ObserveRequest>)
        ensures
            match request {
                Some(request) => self.observe && request.target is Desktop
                    && request.include_windows && request.delivery is Full,
                None => !self.observe,
            },
    {
        if self.observe {
            Some(ObserveRequest::default())
        } else {
            None
        }
    }
}

/// A wait for the state of an element is met exactly where the element has
/// every wanted state, and a name, a text and a value as asked, each whatever the
/// others are; a wait for an element that matches is met by the first one.
pub proof fn element_states_meet_every_constraint(
    wait: ElementWait,
    nodes: Vec<AccessibleNode>,
    found: Option<AccessibleNode>,
)
    requires
        call_ensures(ElementWait::look, (&wait, nodes), found),
    ensures
        nodes@.len() == 0 ==> found is None,
        found is Some ==> nodes@.len() > 0 && found->0 == nodes@[0],
        wait.condition is Matched ==> (found is Some <==> nodes@.len() > 0),
        nodes@.len() > 0 ==> (wait.condition matches ElementCondition::State {
            element_ref,
            states_all,
            name_contains,
            text_contains,
            value,
        } ==> {
            let node = nodes@[0];
            let stated = forall|i: int|
                0 <= i < states_all@.len() ==> text::list_has_folded(
                    texts(node.states@),
                    (#[trigger] states_all@[i])@,
                );
            let named = text::occurs(
                text::lowercase(node.name@),
                text::lowercase(name_contains->0@),
            );
            let read = node.text is Some && text::occurs(node.text->0@, text_contains->0@);
            let ranged = node.value is Some && (value->0.minimum is Some ==> ieee::at_most(
                value->0.minimum->0,
                node.value->0.current,
            )) && (value->0.maximum is Some ==> ieee::at_most(
                node.value->0.current,
                value->0.maximum->0,
            ));
            &&& found is Some ==> stated
            &&& found is Some && name_contains is Some ==> named
            &&& found is Some && text_contains is Some ==> read
            &&& found is Some && value is Some ==> ranged
            &&& found is None ==> {
                ||| !stated
                ||| name_contains is Some && !named
                ||| text_contains is Some && !read
                ||| value is Some && !ranged
            }
        }),
{
    if nodes@.len() > 0 {
        if let ElementCondition::State { states_all, .. } = wait.condition {
            let node = nodes@[0];
            let wanted = texts(states_all@);
            assert forall|i: int| 0 <= i < states_all@.len() implies wanted[i] == (
            #[trigger] states_all@[i])@ by {}
            if forall|i: int|
                0 <= i < states_all@.len() ==> text::list_has_folded(
                    texts(node.states@),
                    (#[trigger] states_all@[i])@,
                ) {
                assert forall|i: int| 0 <= i < wanted.len() implies text::list_has_folded(
                    texts(node.states@),
                    #[trigger] wanted[i],
                ) by {
                    assert(text::list_has_folded(texts(node.states@), states_all@[i]@));
                }
            }
        }
    }
}

/// A wait for an element that matches looks for it with its own selector among
/// all elements; one for the state of an element looks at that element alone,
/// and at its text only where it asks for some.
pub proof fn element_waits_look_where_they_should(
    wait: ElementWait,
    request: AccessibilitySnapshotRequest,
    node: AccessibleNode,
)
    requires
        call_ensures(ElementWait::request, (&wait,), request),
    ensures
        wait.condition matches ElementCondition::Matched { selector } ==> {
            &&& request.root is Desktop
            &&& request.selector is Some
            &&& crate::accessibility::selects(request.selector->0, node)
                == crate::accessibility::selects(selector, node)
            &&& request.max_depth == 8 && request.max_nodes == 500
        },
        wait.condition matches ElementCondition::State {
            element_ref,
            states_all,
            name_contains,
            text_contains,
            value,
        } ==> {
            &&& request.root is Element
            &&& request.root->Element_element_ref@ == element_ref@
            &&& request.selector is None
            &&& request.max_depth == 0 && request.max_nodes == 1
            &&& request.include_text <==> text_contains is Some
        },
{
}

/// A wait for an element gives up exactly at its deadline, and until then
/// awaits an event, or where there are none sleeps for at most fifty
/// milliseconds, but never past the deadline.
pub proof fn element_waits_are_bounded(
    wait: ElementWait,
    event_driven: bool,
    now: u64,
    result: Result<Tick, ControllerError>,
)
    requires
        call_ensures(ElementWait::tick, (&wait, event_driven, now), result),
    ensures
        result is Err <==> now >= wait.deadline,
        result is Err ==> result->Err_0.code == ErrorCode::Timeout && result->Err_0.retryable,
        result matches Ok(Tick::AwaitEvent { ns }) ==> event_driven && now + ns == wait.deadline,
        result matches Ok(Tick::Sleep { ns }) ==> !event_driven && 0 < ns <= 50_000_000 && now + ns
            <= wait.deadline && (ns == 50_000_000 || now + ns == wait.deadline),
        event_driven && now < wait.deadline ==> result is Ok && result->Ok_0 is AwaitEvent,
        !event_driven && now < wait.deadline ==> result is Ok && result->Ok_0 is Sleep,
{
}

/// A session waits for what it is asked to: each condition goes to the wait of
/// its kind, with its own time limit, and a limit of no time or of more than a
/// minute is refused.
pub proof fn session_waits_are_as_asked(
    request: SessionWaitRequest,
    now: u64,
    result: Result<WaitPlan, ControllerError>,
)
    requires
        call_ensures(plan_wait, (request, now), result),
        now <= u64::MAX - 60_000_000_000,
    ensures
        result is Ok <==> 1 <= request.timeout_ms <= 60_000,
        result is Err ==> result->Err_0.code == ErrorCode::InvalidInput,
        result matches Ok(plan) ==> {
            &&& plan is Frame <==> request.condition is FrameChanged
                || request.condition is FrameIdle
            &&& plan is Window <==> request.condition is WindowMatched
                || request.condition is WindowState || request.condition is WindowClosed
            &&& plan is Element <==> request.condition is ElementMatched
                || request.condition is ElementState
            &&& plan matches WaitPlan::Frame { request: wait } ==> {
                &&& wait.timeout_ms == request.timeout_ms && wait.observe == request.observe
                &&& request.condition matches SessionWaitCondition::FrameChanged {
                    since_frame_id,
                    target,
                } ==> wait.condition == (WaitCondition::Change { since_frame_id, target })
                &&& request.condition matches SessionWaitCondition::FrameIdle {
                    quiet_ms,
                    target,
                } ==> wait.condition == (WaitCondition::Idle { quiet_ms, target })
            }
            &&& plan matches WaitPlan::Window { request: wait } ==> {
                &&& wait.timeout_ms == request.timeout_ms && wait.observe == request.observe
                &&& request.condition matches SessionWaitCondition::WindowMatched {
                    selector,
                } ==> wait.condition == (WaitCondition::Window { selector })
                &&& request.condition matches SessionWaitCondition::WindowState {
                    window_ref,
                    mapped,
                    active,
                    title_contains,
                } ==> wait.condition == (WaitCondition::WindowState {
                    window_ref,
                    mapped,
                    active,
                    title_contains,
                })
                &&& request.condition matches SessionWaitCondition::WindowClosed {
                    window_ref,
                } ==> wait.condition == (WaitCondition::WindowClosed { window_ref })
            }
            &&& plan matches WaitPlan::Element { wait } ==> {
                &&& wait.observe == request.observe
                &&& wait.deadline == now + request.timeout_ms * 1_000_000
                &&& request.condition matches SessionWaitCondition::ElementMatched {
                    selector,
                } ==> wait.condition == (ElementCondition::Matched { selector })
                &&& request.condition matches SessionWaitCondition::ElementState {
                    element_ref,
                    states_all,
                    name_contains,
                    text_contains,
                    value,
                } ==> wait.condition == (ElementCondition::State {
                    element_ref,
                    states_all,
                    name_contains,
                    text_contains,
                    value,
                })
            }
        },
{
}

} // verus!
