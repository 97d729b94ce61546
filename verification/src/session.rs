use vstd::prelude::*;
use crate::framer::FrameError;
use crate::protocol::{encode_event, event_chars};

verus! {

/// Cooperative close signal for one session.
///
/// It starts cleared, is latched true by `cancel`, and nothing ever resets it:
/// the write path samples it before each send and stops once it observes true.
pub struct CancellationFlag {
    cancelled: bool,
}

impl CancellationFlag {
    /// Whether the flag has been latched.
    pub closed spec fn spec_is_set(self) -> bool {
        self.cancelled
    }

    /// A fresh flag for a new session, not yet set.
    pub fn new() -> (r: CancellationFlag)
        ensures
            !r.spec_is_set(),
    {
        CancellationFlag { cancelled: false }
    }

    /// Latch the flag. Once set it stays set: there is no way back.
    pub fn cancel(&mut self)
        ensures
            final(self).spec_is_set(),
    {
        self.cancelled = true;
    }

    /// Sample the flag.
    pub fn is_set(&self) -> (r: bool)
        ensures
            r == self.spec_is_set(),
    {
        self.cancelled
    }
}

/// Lifecycle of one session: `Opening -> Opened -> Closed`, with the direct
/// `Opening -> Closed` edge taken when the open attempt fails.
#[derive(PartialEq, Eq, Structural, Clone, Copy, Debug)]
pub enum SessionState {
    Opening,
    Opened,
    Closed,
}

impl SessionState {
    /// Settle the open attempt. Success moves the session to `Opened` and
    /// announces `[open_port](ok)`; failure ends it at once, with
    /// `[open_port](failed)` as the only event it ever emits.
    pub fn on_open_result(self, ok: bool) -> (r: (SessionState, String))
        requires
            self is Opening,
        ensures
            (ok ==> r.0 is Opened && r.1@ == event_chars("open_port"@, "ok"@)),
            (!ok ==> r.0 is Closed && r.1@ == event_chars("open_port"@, "failed"@)),
    {
        if ok {
            (SessionState::Opened, encode_event("open_port", "ok"))
        } else {
            (SessionState::Closed, encode_event("open_port", "failed"))
        }
    }

    /// Either path finishing first ends the whole session: the one terminal
    /// `[close_port]()` event is emitted and the state is `Closed`.
    pub fn on_path_terminated(self) -> (r: (SessionState, String))
        requires
            self is Opened,
        ensures
            r.0 is Closed,
            r.1@ == event_chars("close_port"@, ""@),
    {
        (SessionState::Closed, encode_event("close_port", ""))
    }
}

/// What the write path does with one wakeup.
#[derive(PartialEq, Eq, Debug)]
pub enum WriteAction {
    /// Send this line over the connection.
    Send(String),
    /// Leave the write loop without sending.
    Stop,
}

/// The decision the write path takes each time it is handed the next queued
/// line (or the end of the queue): it stops when the queue is closed or the
/// cancellation flag was observed set, and otherwise sends the line unchanged.
pub fn write_step(cancelled: bool, next: Option<String>) -> (r: WriteAction)
    ensures
        (r == match next {
            Option::None => WriteAction::Stop,
            Option::Some(line) => if cancelled {
                WriteAction::Stop
            } else {
                WriteAction::Send(line)
            },
        }),
{
    match next {
        None => WriteAction::Stop,
        Some(line) => {
            if cancelled {
                WriteAction::Stop
            } else {
                WriteAction::Send(line)
            }
        },
    }
}

/// What the read path does with one item from the framed stream.
#[derive(PartialEq, Eq, Debug)]
pub enum ReadAction {
    /// Forward this decoded line, unmodified, for display.
    Deliver(String),
    /// The read path is over: the stream ended on its own, or framing hit
    /// bytes that are not valid text, which is fatal to this path.
    Stop,
}

/// The decision the read path takes with the next item the framed connection
/// hands it: the natural end of the stream or a decode failure stops the
/// path (and with it, by the termination race, the whole session); a decoded
/// line is forwarded exactly as it came.
pub fn read_step(next: Option<Result<String, FrameError>>) -> (r: ReadAction)
    ensures
        (r == match next {
            Option::None => ReadAction::Stop,
            Option::Some(item) => match item {
                Result::Ok(line) => ReadAction::Deliver(line),
                Result::Err(_) => ReadAction::Stop,
            },
        }),
{
    match next {
        None => ReadAction::Stop,
        Some(item) => match item {
            Ok(line) => ReadAction::Deliver(line),
            Err(_) => ReadAction::Stop,
        },
    }
}

} // verus!
