//! Errors of the controller, with a stable code, a message and a retry hint.

use vstd::prelude::*;

use crate::session::BatchStepResult;
use crate::text;

verus! {

/// The kind of a failure.
#[derive(Debug, Clone, Copy, PartialEq, Eq, Structural)]
pub enum ErrorCode {
    InvalidInput,
    StaleWindow,
    StaleFrame,
    StaleElement,
    PreconditionFailed,
    UnsupportedCapability,
    Accessibility,
    Timeout,
    RateLimited,
    EmergencyStop,
    AccessDenied,
    X11,
    Internal,
}

/// What a failure says beyond its message.
#[derive(Debug)]
pub enum ErrorDetails {
    /// The semantic generation that a guard named and the current one.
    AccessibilityGeneration { expected_accessibility_generation: u64, accessibility_generation: u64 },
    /// The desktop state against which a guard failed.
    DesktopState { latest_frame_id: u64, desktop_generation: u64, active_window: Option<String> },
    /// Where a batch stopped and what it had completed.
    Batch {
        failed_step: usize,
        completed_steps: Vec<BatchStepResult>,
        cause: Option<Box<ErrorDetails>>,
    },
}

/// A failure of the controller.
#[derive(Debug)]
pub struct ControllerError {
    pub code: ErrorCode,
    pub message: String,
    pub retryable: bool,
    pub details: Option<ErrorDetails>,
}

/// Whether an error has this code and message, is final and has no details.
pub open spec fn final_error(error: ControllerError, code: ErrorCode, message: Seq<char>) -> bool {
    &&& error.code == code
    &&& error.message@ == message
    &&& !error.retryable
    &&& error.details is None
}

/// Whether an error has this code and message, may be retried and has no details.
pub open spec fn retry_error(error: ControllerError, code: ErrorCode, message: Seq<char>) -> bool {
    &&& error.code == code
    &&& error.message@ == message
    &&& error.retryable
    &&& error.details is None
}

/// What a failure is: one that is said here, one against the desktop state,
/// or one that was handed in.
pub enum Fault {
    Said { code: ErrorCode, message: Seq<char>, retryable: bool },
    Guard {
        message: Seq<char>,
        latest_frame_id: u64,
        desktop_generation: u64,
        active_window: Option<Seq<char>>,
    },
    Given(ControllerError),
}

/// A final fault.
pub open spec fn fault(code: ErrorCode, message: Seq<char>) -> Fault {
    Fault::Said { code, message, retryable: false }
}

/// Whether an error is a fault.
pub open spec fn is_fault(error: ControllerError, fault: Fault) -> bool {
    match fault {
        Fault::Said { code, message, retryable } => {
            &&& error.code == code
            &&& error.message@ == message
            &&& error.retryable == retryable
            &&& error.details is None
        },
        Fault::Guard { message, latest_frame_id, desktop_generation, active_window } => {
            &&& error.code == ErrorCode::PreconditionFailed
            &&& error.message@ == message
            &&& error.retryable
            &&& match error.details {
                Some(
                    ErrorDetails::DesktopState {
                        latest_frame_id: latest,
                        desktop_generation: generation,
                        active_window: active,
                    },
                ) => latest == latest_frame_id && generation == desktop_generation
                    && text::opt_text(active) == active_window,
                _ => false,
            }
        },
        Fault::Given(given) => error == given,
    }
}

/// Whether a result is the one that a specification names.
pub open spec fn faulty_result<T>(
    result: Result<T, ControllerError>,
    expected: Result<T, Fault>,
) -> bool {
    match (result, expected) {
        (Ok(value), Ok(wanted)) => value == wanted,
        (Err(error), Err(fault)) => is_fault(error, fault),
        _ => false,
    }
}

impl ControllerError {
    /// A final error without details.
    #[must_use]
    pub fn new(code: ErrorCode, message: &str) -> (error: Self)
        ensures
            final_error(error, code, message@),
    {
        ControllerError { code, message: message.to_owned(), retryable: false, details: None }
    }

    /// The same error with this retry hint.
    #[must_use]
    pub fn retryable(self, retryable: bool) -> (error: Self)
        ensures
            error.code == self.code,
            error.message == self.message,
            error.details == self.details,
            error.retryable == retryable,
    {
        ControllerError { code: self.code, message: self.message, retryable, details: self.details }
    }

    /// The same error with these details.
    #[must_use]
    pub fn with_details(self, details: ErrorDetails) -> (error: Self)
        ensures
            error.code == self.code,
            error.message == self.message,
            error.retryable == self.retryable,
            error.details == Some(details),
    {
        ControllerError {
            code: self.code,
            message: self.message,
            retryable: self.retryable,
            details: Some(details),
        }
    }

    /// A final X11 error: what was attempted, a colon, and what the server or connection said.
    #[must_use]
    pub fn x11(context: &str, error: &str) -> (result: Self)
        ensures
            final_error(result, ErrorCode::X11, context@ + ": "@ + error@),
    {
        let message = context.to_owned().concat(": ").concat(error);
        ControllerError::new(ErrorCode::X11, message.as_str())
    }
}

/// A final error with a message in two parts.
pub(crate) fn error2(code: ErrorCode, first: &str, second: &str) -> (error: ControllerError)
    ensures
        final_error(error, code, first@ + second@),
{
    let message = first.to_owned().concat(second);
    ControllerError::new(code, message.as_str())
}

/// A final error with a message in three parts.
pub(crate) fn error3(code: ErrorCode, first: &str, second: &str, third: &str) -> (error:
    ControllerError)
    ensures
        final_error(error, code, first@ + second@ + third@),
{
    let message = first.to_owned().concat(second).concat(third);
    ControllerError::new(code, message.as_str())
}

/// An error has the code and the message that it is made with, is final until
/// it is said that it can be retried, and keeps the rest as it is changed.
pub proof fn errors_keep_what_they_are_made_with(
    code: ErrorCode,
    message: &str,
    made: ControllerError,
    retryable: bool,
    hinted: ControllerError,
    details: ErrorDetails,
    detailed: ControllerError,
)
    requires
        call_ensures(ControllerError::new, (code, message), made),
        call_ensures(ControllerError::retryable, (made, retryable), hinted),
        call_ensures(ControllerError::with_details, (hinted, details), detailed),
    ensures
        made.code == code && made.message@ == message@ && !made.retryable && made.details is None,
        hinted.code == code && hinted.message@ == message@ && hinted.details is None,
        hinted.retryable == retryable,
        detailed.code == code && detailed.message@ == message@,
        detailed.retryable == retryable,
        detailed.details == Some(details),
{
}

} // verus!
