//! Sink lifecycle of the text service.
use vstd::prelude::*;

verus! {

/// Cookie assigned when a sink is advised.
pub type SinkCookie = u32;

/// Tracks the key-event sink of the text service.
#[derive(Debug, Clone, PartialEq, Eq)]
pub struct SinkState {
    key_event: Option<SinkCookie>,
}

impl SinkState {
    /// The key-event sink cookie, if one is advised.
    pub closed spec fn cookie(&self) -> Option<SinkCookie> {
        self.key_event
    }

    /// A state with no sink advised.
    pub fn new() -> (r: SinkState)
        ensures
            r.cookie() is None,
    {
        SinkState { key_event: None }
    }

    /// Records a key-event sink cookie.
    pub fn advise_key_event(&mut self, cookie: SinkCookie)
        ensures
            final(self).cookie() == Some(cookie),
    {
        self.key_event = Some(cookie);
    }

    /// Clears the key-event sink cookie.
    pub fn unadvise_key_event(&mut self)
        ensures
            final(self).cookie() is None,
    {
        self.key_event = None;
    }

    /// Whether key events should currently be handled.
    pub fn key_event_active(&self) -> (r: bool)
        ensures
            r == self.cookie() is Some,
    {
        self.key_event.is_some()
    }

    /// Current key-event cookie, if any.
    pub fn key_event_cookie(&self) -> (r: Option<SinkCookie>)
        ensures
            r == self.cookie(),
    {
        self.key_event
    }
}

impl Default for SinkState {
    fn default() -> (r: SinkState)
        ensures
            r.cookie() is None,
    {
        SinkState::new()
    }
}

} // verus!
