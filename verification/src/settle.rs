//! Settling: the wait between an action and the observation after it.
//!
//! Times are milliseconds of one clock.

use vstd::prelude::*;

use crate::controller;
use crate::controller::ensure_mutation_allowed;
use crate::error;
use crate::error::{ControllerError, ErrorCode};
use crate::types::{
    ActionResult, AfterDelivery, Observation, ObservationDelivery, ObserveAfter, ObserveRequest,
};
use crate::wait;
use crate::wait::{deadline_after, POLL_MS};

verus! {

/// Whether an observation is needed before an action, to compare the one
/// after it with.
pub open spec fn needs_baseline(after: ObserveAfter) -> bool {
    after.require_change || after.delivery == AfterDelivery::Delta
}

/// Whether a request is for the observation before an action.
pub open spec fn is_baseline(request: ObserveRequest, after: ObserveAfter) -> bool {
    &&& request.target == after.target
    &&& request.include_windows == after.include_windows
    &&& request.delivery == ObservationDelivery::Full
}

/// The observation to make before an action, where one is needed.
pub fn baseline_request(after: &Option<ObserveAfter>) -> (request: Option<ObserveRequest>)
    ensures
        match (request, *after) {
            (Some(request), Some(after)) => needs_baseline(after) && is_baseline(request, after),
            (None, Some(after)) => !needs_baseline(after),
            (request, None) => request is None,
        },
{
    match after {
        None => None,
        Some(after) => {
            if after.require_change || after.delivery == AfterDelivery::Delta {
                Some(
                    ObserveRequest {
                        target: after.target.clone(),
                        include_windows: after.include_windows,
                        delivery: ObservationDelivery::Full,
                    },
                )
            } else {
                None
            }
        },
    }
}

/// The observation to make before an action, or why the action is refused.
pub fn action_baseline(stopped: bool, after: &Option<ObserveAfter>) -> (result: Result<
    Option<ObserveRequest>,
    ControllerError,
>)
    ensures
        match result {
            Err(e) => stopped && error::is_fault(e, controller::stop_fault(true)->0),
            Ok(request) => !stopped && match (request, *after) {
                (Some(request), Some(after)) => needs_baseline(after) && is_baseline(
                    request,
                    after,
                ),
                (None, Some(after)) => !needs_baseline(after),
                (request, None) => request is None,
            },
        },
{
    match ensure_mutation_allowed(stopped) {
        Ok(()) => Ok(baseline_request(after)),
        Err(e) => Err(e),
    }
}

/// The wait for a changed picture that has come to rest. A signature tells
/// pictures apart: it is that of the pixels, or where damage is reported the
/// damage so far.
#[derive(Debug, Clone, Copy, PartialEq, Eq, Structural)]
pub struct Settling {
    pub quiet_ms: u64,
    pub deadline: u64,
    pub change_seen: bool,
    pub quiet_since: u64,
    pub last_signature: u64,
}

/// What to do after a look.
#[derive(Debug, Clone, Copy, PartialEq, Eq, Structural)]
pub enum SettleStep {
    /// The wait is over.
    Done { settled: bool },
    /// Sleep for some milliseconds, and look again.
    Sleep { ms: u64 },
}

impl Settling {
    /// The wait after a look.
    pub open spec fn after(self, signature: u64, now: u64) -> Settling {
        if signature != self.last_signature {
            Settling { quiet_since: now, change_seen: true, last_signature: signature, ..self }
        } else {
            self
        }
    }

    /// What to do at a time: the picture has settled once a change was seen,
    /// where one is wanted, and it has been quiet for long enough.
    pub open spec fn step_at(self, now: u64) -> SettleStep {
        if self.change_seen && now - self.quiet_since >= self.quiet_ms {
            SettleStep::Done { settled: true }
        } else if now >= self.deadline {
            SettleStep::Done { settled: false }
        } else if self.deadline - now < POLL_MS {
            SettleStep::Sleep { ms: (self.deadline - now) as u64 }
        } else {
            SettleStep::Sleep { ms: POLL_MS }
        }
    }

    /// Begins to wait at the first look after an action. A picture that is
    /// not the one before the action has changed already.
    pub fn begin(after: &ObserveAfter, baseline: Option<u64>, signature: u64, now: u64) -> (result:
        Result<Settling, ControllerError>)
        ensures
            match result {
                Err(e) => after.quiet_ms > after.timeout_ms && error::final_error(
                    e,
                    ErrorCode::InvalidInput,
                    "observe_after.quiet_ms cannot exceed timeout_ms"@,
                ),
                Ok(settling) => after.quiet_ms <= after.timeout_ms && settling == (Settling {
                    quiet_ms: after.quiet_ms,
                    deadline: wait::later(now, after.timeout_ms),
                    change_seen: !after.require_change || baseline != Some(signature),
                    quiet_since: now,
                    last_signature: signature,
                }),
            },
    {
        if after.quiet_ms > after.timeout_ms {
            return Err(
                ControllerError::new(
                    ErrorCode::InvalidInput,
                    "observe_after.quiet_ms cannot exceed timeout_ms",
                ),
            );
        }
        let differs: bool = match baseline {
            Some(before) => before != signature,
            None => true,
        };
        Ok(
            Settling {
                quiet_ms: after.quiet_ms,
                deadline: deadline_after(now, after.timeout_ms),
                change_seen: !after.require_change || differs,
                quiet_since: now,
                last_signature: signature,
            },
        )
    }

    /// What to do at a time.
    pub fn step(&self, now: u64) -> (step: SettleStep)
        ensures
            step == self.step_at(now),
    {
        if self.change_seen && now >= self.quiet_since && now - self.quiet_since >= self.quiet_ms {
            return SettleStep::Done { settled: true };
        }
        if now >= self.deadline {
            return SettleStep::Done { settled: false };
        }
        if self.deadline - now < POLL_MS {
            SettleStep::Sleep { ms: self.deadline - now }
        } else {
            SettleStep::Sleep { ms: POLL_MS }
        }
    }

    /// Takes in a look.
    pub fn look(&mut self, signature: u64, now: u64)
        ensures
            *final(self) == old(self).after(signature, now),
    {
        if signature != self.last_signature {
            self.quiet_since = now;
            self.change_seen = true;
            self.last_signature = signature;
        }
    }
}

/// How the observation after an action is delivered: as the change since the
/// base frame where that is asked for and there is one.
pub open spec fn after_delivery(after: ObserveAfter, base_frame: Option<u64>) -> ObservationDelivery {
    match (after.delivery, base_frame) {
        (AfterDelivery::Delta, Some(frame_id)) => ObservationDelivery::Delta {
            since_frame_id: frame_id,
        },
        _ => ObservationDelivery::Full,
    }
}

/// The observation that ends an action: the change since the one before the
/// action where that is asked for, and else the whole picture.
pub fn final_request(after: &ObserveAfter, base_frame: Option<u64>) -> (request: ObserveRequest)
    ensures
        request.target == after.target,
        request.include_windows == after.include_windows,
        request.delivery == after_delivery(*after, base_frame),
{
    let delivery = match (after.delivery, base_frame) {
        (AfterDelivery::Delta, Some(since_frame_id)) => ObservationDelivery::Delta {
            since_frame_id,
        },
        _ => ObservationDelivery::Full,
    };
    ObserveRequest {
        target: after.target.clone(),
        include_windows: after.include_windows,
        delivery,
    }
}

/// The outcome of an action that was carried out. One that was not observed
/// counts as settled, and one that did not settle has not failed.
pub fn finish_action(observed: Option<(Observation, bool)>, warnings: Vec<String>) -> (result:
    ActionResult)
    ensures
        result.ok,
        result.warnings == warnings,
        match observed {
            Some((observation, settled)) => result.settled == settled && result.observation
                == Some(observation),
            None => result.settled && result.observation is None,
        },
{
    match observed {
        Some((observation, settled)) => ActionResult {
            ok: true,
            settled,
            observation: Some(observation),
            warnings,
        },
        None => ActionResult { ok: true, settled: true, observation: None, warnings },
    }
}

/// The wait after some looks, each a signature and a time.
pub open spec fn after_looks(settling: Settling, looks: Seq<(u64, u64)>) -> Settling
    decreases looks.len(),
{
    if looks.len() == 0 {
        settling
    } else {
        after_looks(settling, looks.drop_last()).after(looks.last().0, looks.last().1)
    }
}

/// A picture that has settled looked the same in every look of the quiet
/// period, and where a change is required one was seen.
pub proof fn settled_means_changed_and_quiet(
    settling: Settling,
    looks: Seq<(u64, u64)>,
    now: u64,
    at: int,
)
    requires
        0 <= at < looks.len(),
        forall|i: int, j: int| 0 <= i <= j < looks.len() ==> looks[i].1 <= looks[j].1,
        after_looks(settling, looks).step_at(now) == (SettleStep::Done { settled: true }),
        looks[at].1 > now - settling.quiet_ms,
    ensures
        looks[at].0 == after_looks(settling, looks).last_signature,
        settling.change_seen || exists|i: int|
            0 <= i < looks.len() && (#[trigger] looks[i]).0 != settling.last_signature,
{
    lemma_looks(settling, looks);
    lemma_quiet(settling, looks, at);
}

/// What looks leave unchanged, and where a change comes from.
proof fn lemma_looks(settling: Settling, looks: Seq<(u64, u64)>)
    ensures
        after_looks(settling, looks).quiet_ms == settling.quiet_ms,
        after_looks(settling, looks).deadline == settling.deadline,
        after_looks(settling, looks).change_seen ==> settling.change_seen || exists|i: int|
            0 <= i < looks.len() && (#[trigger] looks[i]).0 != settling.last_signature,
        after_looks(settling, looks).last_signature != settling.last_signature ==> exists|i: int|
            0 <= i < looks.len() && (#[trigger] looks[i]).0 != settling.last_signature,
    decreases looks.len(),
{
    if looks.len() > 0 {
        let rest = looks.drop_last();
        lemma_looks(settling, rest);
        let before = after_looks(settling, rest);
        if exists|i: int| 0 <= i < rest.len() && (#[trigger] rest[i]).0 != settling.last_signature {
            let i = choose|i: int|
                0 <= i < rest.len() && (#[trigger] rest[i]).0 != settling.last_signature;
            assert(looks[i].0 != settling.last_signature);
        }
        if looks.last().0 != before.last_signature {
            if before.last_signature == settling.last_signature {
                assert(looks[looks.len() - 1].0 != settling.last_signature);
            }
        }
    }
}

/// Every look after the quiet period began shows the last picture.
proof fn lemma_quiet(settling: Settling, looks: Seq<(u64, u64)>, at: int)
    requires
        0 <= at < looks.len(),
        forall|i: int, j: int| 0 <= i <= j < looks.len() ==> looks[i].1 <= looks[j].1,
        looks[at].1 > after_looks(settling, looks).quiet_since,
    ensures
        looks[at].0 == after_looks(settling, looks).last_signature,
    decreases looks.len(),
{
    let rest = looks.drop_last();
    let before = after_looks(settling, rest);
    let last = looks.len() - 1;
    if at < last {
        assert(rest[at] == looks[at]);
        if looks[last].0 == before.last_signature {
            lemma_quiet(settling, rest, at);
        } else {
            assert(looks[at].1 <= looks[last].1);
        }
    }
}

impl Settling {
    /// The wait ends settled exactly where a change was seen, where one is
    /// wanted, and the picture was quiet for long enough; it ends unsettled
    /// exactly at the deadline; until then it sleeps for at most fifty
    /// milliseconds and not past the deadline.
    pub proof fn settling_ends_quiet_or_late(self, now: u64, step: SettleStep)
        requires
            call_ensures(Settling::step, (&self, now), step),
            self.quiet_since <= now,
        ensures
            step == (SettleStep::Done { settled: true }) <==> self.change_seen && now
                - self.quiet_since >= self.quiet_ms,
            step == (SettleStep::Done { settled: false }) <==> !(self.change_seen && now
                - self.quiet_since >= self.quiet_ms) && now >= self.deadline,
            step matches SettleStep::Sleep { ms } ==> 0 < ms <= 50 && now + ms <= self.deadline && (
            ms == 50 || now + ms == self.deadline),
    {
    }

    /// A look at a new picture starts the quiet period again and is a change; a
    /// look at the same picture changes nothing.
    pub proof fn new_pictures_break_the_quiet(self, signature: u64, now: u64)
        ensures
            self.after(signature, now).quiet_ms == self.quiet_ms,
            self.after(signature, now).deadline == self.deadline,
            self.after(signature, now).last_signature == signature,
            signature == self.last_signature ==> self.after(signature, now) == self,
            signature != self.last_signature ==> self.after(signature, now).change_seen
                && self.after(signature, now).quiet_since == now,
    {
    }

    /// A wait begins with its first look: quiet from then on, for no longer
    /// than asked, and changed already unless a change is wanted and the picture
    /// is still the one before the action.
    pub proof fn settling_begins_at_the_first_look(
        after: ObserveAfter,
        baseline: Option<u64>,
        signature: u64,
        now: u64,
        result: Result<Settling, ControllerError>,
    )
        requires
            call_ensures(Settling::begin, (&after, baseline, signature, now), result),
            now <= u64::MAX - after.timeout_ms,
        ensures
            result is Ok <==> after.quiet_ms <= after.timeout_ms,
            result is Err ==> result->Err_0.code == ErrorCode::InvalidInput,
            result matches Ok(settling) ==> {
                &&& settling.quiet_ms == after.quiet_ms
                &&& settling.deadline == now + after.timeout_ms
                &&& settling.quiet_since == now
                &&& settling.last_signature == signature
                &&& settling.change_seen <==> !(after.require_change && baseline is Some
                    && baseline->0 == signature)
            },
    {
    }
}

/// A picture is looked at before an action exactly where the one after it is
/// compared with it: where a change is wanted or a delta is asked for. It is of
/// the same target, and whole. A latched stop refuses the action first.
pub proof fn baselines_are_taken_where_needed(
    stopped: bool,
    after: Option<ObserveAfter>,
    result: Result<Option<ObserveRequest>, ControllerError>,
)
    requires
        call_ensures(action_baseline, (stopped, &after), result),
    ensures
        result is Err <==> stopped,
        result is Err ==> result->Err_0.code == ErrorCode::EmergencyStop,
        result is Ok ==> {
            &&& result->Ok_0 is Some <==> after is Some && (after->0.require_change
                || after->0.delivery == AfterDelivery::Delta)
            &&& result->Ok_0 is Some ==> {
                let request = result->Ok_0->0;
                &&& request.target == after->0.target
                &&& request.include_windows == after->0.include_windows
                &&& request.delivery == ObservationDelivery::Full
            }
        },
{
}

/// The observation after an action is of the asked target, and a delta since
/// the frame before the action exactly where that is asked for and there is one.
pub proof fn final_observations_are_as_asked(
    after: ObserveAfter,
    base_frame: Option<u64>,
    request: ObserveRequest,
)
    requires
        call_ensures(final_request, (&after, base_frame), request),
    ensures
        request.target == after.target,
        request.include_windows == after.include_windows,
        request.delivery is Delta <==> after.delivery == AfterDelivery::Delta
            && base_frame is Some,
        request.delivery is Delta ==> request.delivery->since_frame_id == base_frame->0,
{
}

/// An action that was carried out has succeeded, whether or not the picture
/// settled; its result says whether it did and holds the observation, if any.
pub proof fn unsettled_actions_have_not_failed(
    observed: Option<(Observation, bool)>,
    warnings: Vec<String>,
    result: ActionResult,
)
    requires
        call_ensures(finish_action, (observed, warnings), result),
    ensures
        result.ok,
        result.warnings@ == warnings@,
        observed is None ==> result.settled && result.observation is None,
        observed is Some ==> result.settled == (observed->0).1 && result.observation == Some(
            (observed->0).0,
        ),
{
}

} // verus!
