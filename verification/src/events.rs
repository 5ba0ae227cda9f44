//! What the library tells apart in the events of a node.

use vstd::prelude::*;

verus! {

/// The kind of an event that a node receives.
#[derive(Clone, Copy, Debug, PartialEq, Eq, Structural)]
pub enum EventKind {
    Input,
    InputClosed,
    Stop,
    Other,
}

impl EventKind {
    /// Whether a run ends with this event.
    pub open spec fn ends_run(self) -> bool {
        self == EventKind::Stop || self == EventKind::InputClosed
    }

    /// Whether a run ends with this event.
    pub fn is_last(&self) -> (r: bool)
        ensures
            r == self.ends_run(),
            r <==> *self == EventKind::Stop || *self == EventKind::InputClosed,
            !r <==> *self == EventKind::Input || *self == EventKind::Other,
    {
        match self {
            EventKind::Stop | EventKind::InputClosed => true,
            EventKind::Input | EventKind::Other => false,
        }
    }
}

/// A run ends with a stop or a closed input, and with no other event.
pub proof fn runs_end_with_a_stop_or_a_closed_input(kind: EventKind)
    ensures
        kind.ends_run() <==> kind == EventKind::Stop || kind == EventKind::InputClosed,
        !kind.ends_run() <==> kind == EventKind::Input || kind == EventKind::Other,
{
}

/// What the event loop of a node does with an event.
#[derive(Clone, Copy, Debug, PartialEq, Eq, Structural)]
pub enum Reaction {
    /// Process the input.
    Process,
    /// Leave the loop.
    Leave,
    /// Go on to the next event.
    Ignore,
}

/// What the event loop of a node does with an event. Only a stop ends the loop: when one
/// source has closed there may still be inputs of others on their way.
pub fn react(kind: EventKind) -> (r: Reaction)
    ensures
        r == Reaction::Process <==> kind == EventKind::Input,
        r == Reaction::Leave <==> kind == EventKind::Stop,
        r == Reaction::Ignore <==> kind == EventKind::InputClosed || kind == EventKind::Other,
{
    match kind {
        EventKind::Input => Reaction::Process,
        EventKind::Stop => Reaction::Leave,
        EventKind::InputClosed | EventKind::Other => Reaction::Ignore,
    }
}

} // verus!
