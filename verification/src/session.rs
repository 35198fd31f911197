//! One game at a time.
//!
//! What the session decides: whether a launch or a stop applies to the
//! current state, and which events each change reports. Spawning, watching
//! and signalling the process are the caller's part; it reports each of those
//! here and sends the events this hands back to its listener.

use vstd::prelude::*;
use crate::text::owned;

verus! {

/// A change in the running game, as a listener hears of it.
#[derive(Debug, Clone, PartialEq, Eq)]
pub enum Event {
    State { running: bool, pid: Option<u32> },
    Linked { removed: usize, created: usize },
    Spawned { pid: u32 },
    Exited { code: Option<i32> },
    Error { message: String },
}

/// Why a session request failed.
#[derive(Debug, Clone, PartialEq, Eq)]
pub enum SessionError {
    /// The request does not apply to the current state.
    Conflict(String),
    Io(String),
}

impl SessionError {
    /// The message shown for this error.
    pub fn message(&self) -> (m: String)
        ensures
            m@ == match *self {
                SessionError::Conflict(s) => s@,
                SessionError::Io(s) => s@,
            },
    {
        match self {
            SessionError::Conflict(s) => owned(s.as_str()),
            SessionError::Io(s) => owned(s.as_str()),
        }
    }
}

/// What a successful launch did.
#[derive(Debug, Clone, PartialEq, Eq)]
pub struct Launched {
    pub pid: u32,
    pub removed: usize,
    pub created: usize,
}

/// Whether a game is running, and which process it is.
#[derive(Debug, PartialEq, Eq)]
pub struct SessionState {
    pid: Option<u32>,
}

impl SessionState {
    /// The running game's process id, if one is running.
    pub closed spec fn current(&self) -> Option<u32> {
        self.pid
    }

    /// A session with nothing running.
    pub fn new() -> (s: SessionState)
        ensures
            s.current() is None,
    {
        SessionState { pid: None }
    }

    /// Whether a game is running.
    pub fn running(&self) -> (r: bool)
        ensures
            r == self.current() is Some,
    {
        self.pid.is_some()
    }

    /// The running game's process id.
    pub fn pid(&self) -> (r: Option<u32>)
        ensures
            r == self.current(),
    {
        self.pid
    }

    /// Whether a launch may go ahead: it is rejected rather than queued when
    /// something is already running.
    pub fn check_launch(&self) -> (r: Result<(), SessionError>)
        ensures
            self.current() is None <==> r is Ok,
            r matches Err(e) ==> (e matches SessionError::Conflict(m) && m@
                == "a game is already running"@),
    {
        if self.pid.is_some() {
            Err(SessionError::Conflict(owned("a game is already running")))
        } else {
            Ok(())
        }
    }

    /// The game was spawned after its links were made: it is now the running
    /// game, and listeners hear that it spawned and that the state changed.
    pub fn on_spawned(&mut self, pid: u32, removed: usize, created: usize) -> (r: (
        Launched,
        Vec<Event>,
    ))
        ensures
            final(self).current() == Some(pid),
            r.0 == (Launched { pid, removed, created }),
            r.1@ == seq![Event::Spawned { pid }, Event::State { running: true, pid: Some(pid) }],
    {
        self.pid = Some(pid);
        let mut events: Vec<Event> = Vec::new();
        events.push(Event::Spawned { pid });
        events.push(Event::State { running: true, pid: Some(pid) });
        assert(events@ =~= seq![Event::Spawned { pid }, Event::State { running: true, pid: Some(pid) }]);
        (Launched { pid, removed, created }, events)
    }

    /// The game exited, whether asked to or not: nothing is running, and
    /// listeners hear the exit code and the state change.
    pub fn on_exit(&mut self, code: Option<i32>) -> (events: Vec<Event>)
        ensures
            final(self).current() is None,
            events@ == seq![Event::Exited { code }, Event::State { running: false, pid: None }],
    {
        self.pid = None;
        let mut events: Vec<Event> = Vec::new();
        events.push(Event::Exited { code });
        events.push(Event::State { running: false, pid: None });
        assert(events@ =~= seq![Event::Exited { code }, Event::State { running: false, pid: None }]);
        events
    }

    /// Watching the game failed: it is treated as gone, and listeners hear
    /// the error and the state change.
    pub fn on_watch_error(&mut self, message: String) -> (events: Vec<Event>)
        ensures
            final(self).current() is None,
            events@.len() == 2,
            events@[0] matches Event::Error { message: m } && m@ == message@,
            events@[1] == (Event::State { running: false, pid: None }),
    {
        self.pid = None;
        let mut events: Vec<Event> = Vec::new();
        events.push(Event::Error { message });
        events.push(Event::State { running: false, pid: None });
        events
    }

    /// The process a stop request signals: the running game's, and a
    /// conflict rather than a crash when nothing is running.
    pub fn stop_target(&self) -> (r: Result<u32, SessionError>)
        ensures
            match self.current() {
                Some(pid) => r == Ok::<u32, SessionError>(pid),
                None => r matches Err(e) && (e matches SessionError::Conflict(m) && m@
                    == "nothing is running"@),
            },
    {
        match self.pid {
            Some(pid) => Ok(pid),
            None => Err(SessionError::Conflict(owned("nothing is running"))),
        }
    }
}

/// The event that reports the links a launch made.
pub fn linked_event(removed: usize, created: usize) -> (e: Event)
    ensures
        e == (Event::Linked { removed, created }),
{
    Event::Linked { removed, created }
}

} // verus!
