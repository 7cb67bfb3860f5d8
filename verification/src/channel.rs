//! The error channel: a slot through which a batch hands its failure to
//! whoever started it, once.

use vstd::prelude::*;
use crate::batch::BatchOutcome;
use crate::error::SpindleSpeedUpdaterError;

verus! {

/// A channel for one message. A batch stops at its first failure, so one
/// slot is enough; once it was filled, nothing more is accepted. The value
/// itself is plain data: whoever shares it between the executor and the
/// invoking side guards every access.
#[derive(Debug)]
pub struct ErrorChannel {
    slot: Option<SpindleSpeedUpdaterError>,
    used: bool,
}

impl ErrorChannel {
    /// The failure that waits to be received, if any.
    pub closed spec fn pending(&self) -> Option<SpindleSpeedUpdaterError> {
        self.slot
    }

    /// Whether a failure was ever sent through the channel.
    pub closed spec fn used(&self) -> bool {
        self.used
    }

    /// A channel through which nothing was sent.
    pub fn new() -> (channel: Self)
        ensures
            channel.pending() is None,
            !channel.used(),
    {
        ErrorChannel { slot: None, used: false }
    }

    /// Sends `error`. The first failure sent is kept until it is received;
    /// any later one is refused and handed back.
    pub fn send(&mut self, error: SpindleSpeedUpdaterError) -> (res: Result<
        (),
        SpindleSpeedUpdaterError,
    >)
        ensures
            final(self).used(),
            !old(self).used() ==> res is Ok && final(self).pending() == Some(error),
            old(self).used() ==> res == Err::<(), SpindleSpeedUpdaterError>(error),
            old(self).used() ==> final(self).pending() == old(self).pending(),
    {
        if self.used {
            Err(error)
        } else {
            self.slot = Some(error);
            self.used = true;
            Ok(())
        }
    }

    /// Sends the failure of a batch that ended with `outcome`. A completed
    /// or cancelled batch has none, and nothing is sent for it. Tells
    /// whether a failure was put into the channel.
    pub fn report(&mut self, outcome: BatchOutcome) -> (sent: bool)
        ensures
            sent == (outcome is Failed && !old(self).used()),
            final(self).used() == (old(self).used() || outcome is Failed),
            final(self).pending() == if sent {
                Some(outcome->Failed_1)
            } else {
                old(self).pending()
            },
    {
        match outcome.into_error() {
            Some(error) => self.send(error).is_ok(),
            None => false,
        }
    }

    /// Takes the failure out of the channel without waiting: the one that
    /// was sent and not yet received, or nothing.
    pub fn try_recv(&mut self) -> (received: Option<SpindleSpeedUpdaterError>)
        ensures
            received == old(self).pending(),
            final(self).pending() is None,
            final(self).used() == old(self).used(),
    {
        self.slot.take()
    }
}

} // verus!
