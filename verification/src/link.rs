//! The link of a session to the accessibility bus.

use vstd::prelude::*;

use crate::accessibility::{
    AccessibilityInfo, AccessibilityMode, AccessibilityRoot, AccessibilitySnapshotRequest,
    AccessibleNode, DEFAULT_TEXT_LIMIT,
};
use crate::error;
use crate::error::{error2, ControllerError, ErrorCode};
use crate::types::clone_opt;

verus! {

/// How many seconds a connection may take.
pub const CONNECT_TIMEOUT_SECONDS: u64 = 5;

/// Whether the bus is linked, and why not.
#[derive(Debug)]
pub struct Link {
    pub mode: AccessibilityMode,
    pub linked: bool,
    pub reason: Option<String>,
}

/// What a semantic request needs of the link.
#[derive(Debug)]
pub enum LinkStep {
    /// Use the link.
    Use,
    /// Connect first.
    Connect,
    /// Refuse the request.
    Refuse { e: ControllerError },
}

/// What is said of a bus that cannot be had.
pub open spec fn unavailable(message: Seq<char>) -> Seq<char> {
    "AT-SPI is unavailable: "@ + message
}

/// The error of a connection that took too long.
pub fn connect_timeout_error() -> (e: ControllerError)
    ensures
        error::retry_error(
            e,
            ErrorCode::Accessibility,
            "timed out connecting to the AT-SPI bus"@,
        ),
{
    ControllerError::new(
        ErrorCode::Accessibility,
        "timed out connecting to the AT-SPI bus",
    ).retryable(true)
}

impl Link {
    /// A link that is not there yet.
    pub fn new(mode: AccessibilityMode) -> (link: Self)
        ensures
            link.mode == mode,
            !link.linked,
            link.reason is None,
    {
        Link { mode, linked: false, reason: None }
    }

    /// Whether to connect at startup.
    pub fn connects_at_start(&self) -> (connects: bool)
        ensures
            connects == (self.mode != AccessibilityMode::Disabled),
    {
        match self.mode {
            AccessibilityMode::Disabled => false,
            _ => true,
        }
    }

    /// Takes in what the connection at startup came to. Startup fails with
    /// it only where the bus is required.
    pub fn started(&mut self, outcome: Result<(), ControllerError>) -> (result: Result<
        (),
        ControllerError,
    >)
        ensures
            final(self).mode == old(self).mode,
            match outcome {
                Ok(()) => result is Ok && final(self).linked && final(self).reason == old(
                    self,
                ).reason,
                Err(cause) => final(self).linked == old(self).linked && if old(self).mode
                    == AccessibilityMode::Required {
                    result == Err::<(), ControllerError>(cause) && final(self).reason == old(
                        self,
                    ).reason
                } else {
                    result is Ok && final(self).reason == Some(cause.message)
                },
            },
    {
        match outcome {
            Ok(()) => {
                self.linked = true;
                Ok(())
            },
            Err(cause) => match self.mode {
                AccessibilityMode::Required => Err(cause),
                _ => {
                    self.reason = Some(cause.message);
                    Ok(())
                },
            },
        }
    }

    /// What a semantic request needs of the link, where it is still alive or
    /// not. A link that was lost is given up.
    pub fn ensure(&mut self, alive: bool) -> (step: LinkStep)
        ensures
            final(self).mode == old(self).mode,
            final(self).linked == (old(self).linked && alive),
            if old(self).linked && !alive {
                final(self).reason is Some && final(self).reason->0@
                    == "AT-SPI connection was lost; reconnecting"@
            } else {
                final(self).reason == old(self).reason
            },
            match step {
                LinkStep::Use => old(self).linked && alive,
                LinkStep::Connect => !(old(self).linked && alive) && old(self).mode
                    != AccessibilityMode::Disabled,
                LinkStep::Refuse { e } => !(old(self).linked && alive) && old(self).mode
                    == AccessibilityMode::Disabled && error::final_error(
                    e,
                    ErrorCode::UnsupportedCapability,
                    "accessibility support is disabled"@,
                ),
            },
    {
        if self.linked {
            if alive {
                return LinkStep::Use;
            }
            self.linked = false;
            self.reason = Some("AT-SPI connection was lost; reconnecting".to_owned());
        }
        match self.mode {
            AccessibilityMode::Disabled => LinkStep::Refuse {
                e: ControllerError::new(
                    ErrorCode::UnsupportedCapability,
                    "accessibility support is disabled",
                ),
            },
            _ => LinkStep::Connect,
        }
    }

    /// Takes in what a connection for a semantic request came to.
    pub fn connected(&mut self, outcome: Result<(), ControllerError>) -> (result: Result<
        (),
        ControllerError,
    >)
        ensures
            final(self).mode == old(self).mode,
            match (result, outcome) {
                (Ok(()), Ok(())) => final(self).linked && final(self).reason is None,
                (Err(e), Err(cause)) => {
                    &&& final(self).linked == old(self).linked
                    &&& final(self).reason == Some(cause.message)
                    &&& error::retry_error(
                        e,
                        ErrorCode::UnsupportedCapability,
                        unavailable(cause.message@),
                    )
                },
                _ => false,
            },
    {
        match outcome {
            Ok(()) => {
                self.linked = true;
                self.reason = None;
                Ok(())
            },
            Err(cause) => {
                let e = error2(
                    ErrorCode::UnsupportedCapability,
                    "AT-SPI is unavailable: ",
                    cause.message.as_str(),
                ).retryable(true);
                self.reason = Some(cause.message);
                Err(e)
            },
        }
    }

    /// What is said of a bus that is not linked.
    pub fn info(&self) -> (info: AccessibilityInfo)
        ensures
            !info.available,
            info.generation == 0,
            info.reason == self.reason,
    {
        AccessibilityInfo { available: false, generation: 0, reason: clone_opt(&self.reason) }
    }
}

/// The snapshot of one element alone.
pub fn element_request(element_ref: &str) -> (request: AccessibilitySnapshotRequest)
    ensures
        match request.root {
            AccessibilityRoot::Element { element_ref: root } => root@ == element_ref@,
            _ => false,
        },
        request.selector is None,
        request.max_depth == 0,
        request.max_nodes == 1,
        !request.include_text,
        request.text_limit == DEFAULT_TEXT_LIMIT,
{
    AccessibilitySnapshotRequest {
        root: AccessibilityRoot::Element { element_ref: element_ref.to_owned() },
        selector: None,
        max_depth: 0,
        max_nodes: 1,
        include_text: false,
        text_limit: DEFAULT_TEXT_LIMIT,
    }
}

/// The window of an element, from the snapshot of the element alone.
pub fn element_window(nodes: &Vec<AccessibleNode>) -> (window_ref: Option<String>)
    ensures
        window_ref == (if nodes@.len() > 0 {
            nodes@[0].window_ref
        } else {
            None
        }),
{
    if nodes.len() > 0 {
        clone_opt(&nodes[0].window_ref)
    } else {
        None
    }
}

/// The bus is connected to at startup unless accessibility is disabled, and a
/// failed connection fails startup exactly where the bus is required.
pub proof fn startup_needs_only_a_required_bus(
    link: &mut Link,
    connects: bool,
    outcome: Result<(), ControllerError>,
    result: Result<(), ControllerError>,
)
    requires
        call_ensures(Link::connects_at_start, (&*old(link),), connects),
        call_ensures(Link::started, (link, outcome), result),
    ensures
        old(link).mode is Disabled ==> !connects,
        old(link).mode is Auto || old(link).mode is Required ==> connects,
        result is Err <==> outcome is Err && old(link).mode is Required,
        result is Err ==> result->Err_0 == outcome->Err_0,
        outcome is Ok ==> final(link).linked,
        outcome is Err ==> final(link).linked == old(link).linked,
        outcome is Err && old(link).mode is Auto ==> final(link).reason == Some(
            outcome->Err_0.message,
        ),
        final(link).mode == old(link).mode,
{
}

/// A semantic request uses a living link, connects where there is none or it
/// was lost, and is refused for good exactly where accessibility is disabled.
pub proof fn requests_use_a_living_link(link: &mut Link, alive: bool, step: LinkStep)
    requires
        call_ensures(Link::ensure, (link, alive), step),
    ensures
        step is Use <==> old(link).linked && alive,
        step is Connect <==> !(old(link).linked && alive) && !(old(link).mode is Disabled),
        step is Refuse ==> step->e.code == ErrorCode::UnsupportedCapability && !step->e.retryable,
        step is Use <==> final(link).linked,
        old(link).linked && !alive ==> final(link).reason is Some,
        !old(link).linked || alive ==> final(link).reason == old(link).reason,
{
}

/// A connection for a request leaves a link without complaint; a failed one
/// refuses the request, which can be retried, and is remembered as the reason.
pub proof fn failed_connections_are_remembered(
    link: &mut Link,
    outcome: Result<(), ControllerError>,
    result: Result<(), ControllerError>,
)
    requires
        call_ensures(Link::connected, (link, outcome), result),
    ensures
        result is Ok <==> outcome is Ok,
        result is Ok ==> final(link).linked && final(link).reason is None,
        result is Err ==> {
            &&& final(link).linked == old(link).linked
            &&& final(link).reason == Some(outcome->Err_0.message)
            &&& result->Err_0.code == ErrorCode::UnsupportedCapability
            &&& result->Err_0.retryable
        },
        final(link).mode == old(link).mode,
{
}

/// The snapshot that finds the window of an element is of that element alone,
/// and its window is the one of the first node.
pub proof fn elements_are_looked_up_alone(
    element_ref: &str,
    request: AccessibilitySnapshotRequest,
    nodes: Vec<AccessibleNode>,
    window_ref: Option<String>,
)
    requires
        call_ensures(element_request, (element_ref,), request),
        call_ensures(element_window, (&nodes,), window_ref),
    ensures
        request.root is Element && request.root->Element_element_ref@ == element_ref@,
        request.max_depth == 0 && request.max_nodes == 1,
        request.selector is None && !request.include_text,
        nodes@.len() == 0 ==> window_ref is None,
        nodes@.len() > 0 ==> window_ref == nodes@[0].window_ref,
{
}

/// A bus that is not linked is told as not available, with the reason.
pub proof fn missing_links_are_told(link: Link, info: AccessibilityInfo)
    requires
        call_ensures(Link::info, (&link,), info),
    ensures
        !info.available && info.generation == 0 && info.reason == link.reason,
{
}

} // verus!
