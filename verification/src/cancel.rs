//! The single-fire cancellation signal of one batch.

use vstd::prelude::*;
use vstd::string::StringExecFns;
use crate::error::SpindleSpeedUpdaterError;

verus! {

/// Where a cancellation signal stands in its life.
#[derive(Clone, Copy, Debug, PartialEq, Eq, Structural)]
pub enum SignalState {
    /// Nobody has asked the batch to stop.
    Armed,
    /// A stop was requested and the executor has not seen it yet.
    Fired,
    /// The executor has seen the stop request; the signal is spent.
    Consumed,
}

/// The state a signal in state `s` has after `fire`.
pub open spec fn after_fire(s: SignalState) -> SignalState {
    match s {
        SignalState::Armed => SignalState::Fired,
        SignalState::Fired => SignalState::Fired,
        SignalState::Consumed => SignalState::Consumed,
    }
}

/// The state a signal in state `s` has after `observe`.
pub open spec fn after_observe(s: SignalState) -> SignalState {
    match s {
        SignalState::Armed => SignalState::Armed,
        SignalState::Fired => SignalState::Consumed,
        SignalState::Consumed => SignalState::Consumed,
    }
}

/// A stop request that can be raised once and seen once.
///
/// A fresh signal is made for every batch. The value itself is plain data:
/// whoever shares it between the invoking side and the executor guards every
/// access to it.
#[derive(Debug)]
pub struct CancellationSignal {
    state: SignalState,
}

impl CancellationSignal {
    /// The state of the signal.
    pub closed spec fn state(&self) -> SignalState {
        self.state
    }

    /// A signal that has not fired.
    pub fn new() -> (signal: Self)
        ensures
            signal.state() == SignalState::Armed,
    {
        CancellationSignal { state: SignalState::Armed }
    }

    /// Requests the stop. Only the first call on an armed signal has an
    /// effect; firing again, or after the request was seen, changes nothing.
    pub fn fire(&mut self)
        ensures
            final(self).state() == after_fire(old(self).state()),
    {
        match self.state {
            SignalState::Armed => {
                self.state = SignalState::Fired;
            },
            SignalState::Fired => {},
            SignalState::Consumed => {},
        }
    }

    /// The executor's checkpoint: tells whether a stop request is pending and
    /// consumes it, so that one request is reported exactly once.
    pub fn observe(&mut self) -> (fired: bool)
        ensures
            fired == (old(self).state() == SignalState::Fired),
            final(self).state() == after_observe(old(self).state()),
    {
        match self.state {
            SignalState::Fired => {
                self.state = SignalState::Consumed;
                true
            },
            SignalState::Armed => false,
            SignalState::Consumed => false,
        }
    }

    /// Whether a stop was ever requested, without consuming the request.
    pub fn has_fired(&self) -> (fired: bool)
        ensures
            fired == (self.state() != SignalState::Armed),
    {
        match self.state {
            SignalState::Armed => false,
            SignalState::Fired => true,
            SignalState::Consumed => true,
        }
    }
}

/// The user's request to cancel. While a batch is in progress its signal is
/// fired; with no batch in progress there is nothing to cancel, which is
/// reported and leaves the signal as it is.
pub fn cancel_operation(signal: &mut CancellationSignal, processing: bool) -> (res: Result<
    (),
    SpindleSpeedUpdaterError,
>)
    ensures
        processing ==> res is Ok && final(signal).state() == after_fire(old(signal).state()),
        !processing ==> final(signal).state() == old(signal).state(),
        !processing ==> (res matches Err(SpindleSpeedUpdaterError::CancelError(detail)) && detail@
            == "No operation in progress"@),
{
    if processing {
        signal.fire();
        Ok(())
    } else {
        Err(SpindleSpeedUpdaterError::CancelError(String::from_str("No operation in progress")))
    }
}

/// Firing is idempotent: a second `fire` leaves the signal as the first left it.
pub proof fn lemma_fire_idempotent(s: SignalState)
    ensures
        after_fire(after_fire(s)) == after_fire(s),
{
}

/// A stop request is seen at most once: right after an `observe`, another
/// `observe` reports nothing, and a `fire` in between does not revive it once
/// the request was consumed.
pub proof fn lemma_observe_consumes(s: SignalState)
    ensures
        after_observe(s) != SignalState::Fired,
        s != SignalState::Armed ==> after_fire(after_observe(s)) == SignalState::Consumed,
{
}

} // verus!
