//! Saturating error counter that drives reconnect-with-backoff and eventual
//! termination of a broker event loop.
use vstd::prelude::*;

verus! {

/// Number of connection errors that may accumulate before the loop gives up.
pub const ERROR_LIMIT: usize = 40;

/// Counts connection-layer errors since the last successful connection.
pub struct ErrorCounter {
    count: usize,
}

impl View for ErrorCounter {
    type V = nat;

    closed spec fn view(&self) -> nat {
        self.count as nat
    }
}

impl ErrorCounter {
    /// A counter with no errors recorded.
    pub fn new() -> (r: Self)
        ensures
            r@ == 0,
    {
        ErrorCounter { count: 0 }
    }

    /// Records one more error; the count saturates at the largest `usize`.
    pub fn inc(&mut self)
        ensures
            final(self)@ == if old(self)@ < usize::MAX { old(self)@ + 1 } else { old(self)@ },
    {
        self.count = self.count.saturating_add(1);
    }

    /// Forgets every recorded error (a connection was acknowledged).
    pub fn reset(&mut self)
        ensures
            final(self)@ == 0,
    {
        self.count = 0;
    }

    /// Whether more errors than the limit have been recorded.
    pub fn is_too_mutch(&self) -> (r: bool)
        ensures
            r == (self@ > ERROR_LIMIT),
    {
        self.count > ERROR_LIMIT
    }
}

/// Seconds to wait after a transient network error.
pub const BACKOFF_SECS: u64 = 3;

/// The kinds of connection error, by how the loop reacts to them.
#[derive(PartialEq, Eq, Structural, Debug, Clone, Copy)]
pub enum ConnErrorKind {
    /// The protocol state went wrong: retry at once.
    State,
    /// A failure worth reporting (timeout on flush, TLS, refused handshake,
    /// requests done): retry at once.
    Reported,
    /// A transient network failure (I/O, network timeout, refused connection):
    /// retry after a pause.
    Transient,
}

/// What an event loop observed on one poll.
#[derive(PartialEq, Eq, Structural, Debug, Clone, Copy)]
pub enum PollEvent {
    /// The broker acknowledged a connection.
    ConnAck,
    /// A message was published to us.
    Publish,
    /// Any other packet, in either direction.
    Other,
    /// The connection failed.
    Error(ConnErrorKind),
}

/// What the event loop does next.
#[derive(PartialEq, Eq, Structural, Debug, Clone, Copy)]
pub enum PollAction {
    /// (Re)subscribe on the fresh connection, then poll again.
    Subscribe,
    /// Handle the published message, then poll again.
    Handle,
    /// Wait this many seconds, then poll again.
    Retry(u64),
    /// Too many errors: end the loop with a fatal error.
    GiveUp,
}

/// How long to wait before polling again after an error of kind `kind`.
pub open spec fn backoff_for(kind: ConnErrorKind) -> u64 {
    match kind {
        ConnErrorKind::Transient => BACKOFF_SECS,
        _ => 0,
    }
}

impl ErrorCounter {
    /// One decision of a broker event loop: an acknowledged connection clears
    /// the count and asks for a subscription; an error is counted and, past the
    /// limit, ends the loop, else the loop retries after the kind's backoff.
    pub fn on_event(&mut self, ev: PollEvent) -> (r: PollAction)
        ensures
            match ev {
                PollEvent::ConnAck => final(self)@ == 0 && r == PollAction::Subscribe,
                PollEvent::Publish => final(self)@ == old(self)@ && r == PollAction::Handle,
                PollEvent::Other => final(self)@ == old(self)@ && r == PollAction::Retry(0),
                PollEvent::Error(kind) => {
                    &&& final(self)@ == if old(self)@ < usize::MAX { old(self)@ + 1 } else { old(self)@ }
                    &&& r == if final(self)@ > ERROR_LIMIT {
                        PollAction::GiveUp
                    } else {
                        PollAction::Retry(backoff_for(kind))
                    }
                },
            },
    {
        match ev {
            PollEvent::ConnAck => {
                self.reset();
                PollAction::Subscribe
            },
            PollEvent::Publish => PollAction::Handle,
            PollEvent::Other => PollAction::Retry(0),
            PollEvent::Error(kind) => {
                self.inc();
                if self.is_too_mutch() {
                    PollAction::GiveUp
                } else {
                    match kind {
                        ConnErrorKind::Transient => PollAction::Retry(BACKOFF_SECS),
                        _ => PollAction::Retry(0),
                    }
                }
            },
        }
    }
}

} // verus!
