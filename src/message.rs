use vstd::prelude::*;

use crate::Entity;
use crate::trade_handler::{Trade, TradeMessage};

verus! {

/// An event published to the host.
#[derive(Clone, Debug, PartialEq, Eq)]
pub enum Message {
    TradeEvent(Trade),
    LogEvent(String),
}

/// A command for the systems of the simulation.
#[derive(Clone, Copy, Debug, PartialEq, Eq, Structural)]
pub enum Action {
    TradeUpdate(TradeMessage),
    Transaction { source: Entity, target: Entity, object: Entity, value: u32 },
}

/// A log event that reads `text`.
pub open spec fn is_log(m: Message, text: Seq<char>) -> bool {
    m is LogEvent && m->LogEvent_0@ == text
}

impl Message {
    /// A copy of the message.
    pub fn duplicate(&self) -> (r: Message)
        ensures
            r == *self,
    {
        match self {
            Message::TradeEvent(t) => Message::TradeEvent(*t),
            Message::LogEvent(s) => Message::LogEvent(s.clone()),
        }
    }
}

} // verus!
