use vstd::prelude::*;

use crate::Entity;
use crate::trade_handler::TradeRequest;

verus! {

/// A cell of the map grid.
#[derive(Clone, Copy, Debug, PartialEq, Eq, Structural)]
pub struct Position {
    pub x: i32,
    pub y: i32,
}

/// Tag of the entity that the host controls.
#[derive(Clone, Copy, Debug, PartialEq, Eq, Structural)]
pub struct Player;

/// A display name.
#[derive(Clone, Debug, PartialEq, Eq)]
pub struct Name {
    pub name: String,
}

/// Where the holder of a turn stands in it.
#[allow(non_camel_case_types)]
#[derive(Clone, Copy, Debug, PartialEq, Eq, Structural)]
pub enum TurnState {
    PENDING,
    ACTIVE,
    DONE,
}

/// The negotiation an entity currently takes part in, if any.
#[derive(Clone, Copy, Debug, PartialEq, Eq, Structural)]
pub struct Tradeable {
    pub request: Option<TradeRequest>,
}

/// Marks the one entity whose turn it is.
#[derive(Clone, Copy, Debug, PartialEq, Eq, Structural)]
pub struct ActiveTurn {
    pub state: TurnState,
}

/// Tag of an entity that occupies its cell.
#[derive(Clone, Copy, Debug, PartialEq, Eq, Structural)]
pub struct TileBlocker;

/// Orders the entities in the turn queue: higher values move first.
#[derive(Clone, Copy, Debug, PartialEq, Eq, Structural)]
pub struct Priority {
    pub value: u8,
}

/// Tag of a container whose contents are up for trade.
#[derive(Clone, Copy, Debug, PartialEq, Eq, Structural)]
pub struct DisplayCabinet;

/// The items an entity holds, in order.
#[derive(Clone, Debug, PartialEq, Eq)]
pub struct Inventory {
    pub contents: Vec<Entity>,
    pub capacity: u8,
}

} // verus!
