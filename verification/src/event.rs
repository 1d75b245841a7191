//! Notice of changes to whoever has asked to be told.

use vstd::prelude::*;
use vstd::string::StringExecFns;

verus! {

/// The kinds of change that are announced.
#[derive(Clone, Copy, Debug, PartialEq, Eq, Structural)]
pub enum OmniverlayEventType {
    /// The state or the layout of extensions has changed.
    UpdateExtensions,
}

/// One announcement.
#[derive(Clone, Copy, Debug, PartialEq, Eq, Structural)]
pub struct OmniverlayEvent {
    pub event_type: OmniverlayEventType,
}

impl OmniverlayEvent {
    /// The event as text.
    pub fn to_string(&self) -> (r: String)
        ensures
            r@ == "OmniverlayEvent { event_type: UpdateExtensions }"@,
    {
        match self.event_type {
            OmniverlayEventType::UpdateExtensions => String::from_str(
                "OmniverlayEvent { event_type: UpdateExtensions }",
            ),
        }
    }
}

/// What became of an announcement.
#[derive(Clone, Copy, Debug, PartialEq, Eq, Structural)]
pub enum Dispatch {
    /// The handler was called with the event.
    Delivered,
    /// The place for a handler is there, but holds none: the event is dropped.
    NoHandler,
    /// No place for a handler was ever set up: the event is dropped.
    NotInitialized,
}

/// Announces an event of kind `event_type`. `slot` is the place where a
/// handler may have been installed, if that place was set up at all. The
/// handler, where there is one, is called once with the event. Without a
/// handler the event is dropped, which is no failure.
pub fn invoke_event<H: Fn(OmniverlayEvent)>(
    slot: Option<&Option<H>>,
    event_type: OmniverlayEventType,
) -> (d: Dispatch)
    requires
        slot matches Some(Some(h)) ==> forall|e: OmniverlayEvent| #[trigger] h.requires((e,)),
    ensures
        match slot {
            Some(Some(h)) => d == Dispatch::Delivered && h.ensures(
                (OmniverlayEvent { event_type: event_type },),
                (),
            ),
            Some(None) => d == Dispatch::NoHandler,
            None => d == Dispatch::NotInitialized,
        },
{
    let event = OmniverlayEvent { event_type };
    match slot {
        Some(handler) => match handler {
            Some(h) => {
                h(event);
                Dispatch::Delivered
            },
            None => Dispatch::NoHandler,
        },
        None => Dispatch::NotInitialized,
    }
}

} // verus!
