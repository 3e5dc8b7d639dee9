use vstd::prelude::*;

pub mod action_queue;
pub mod component;
pub mod geom;
pub mod map;
pub mod message;
pub mod message_queue;
pub mod server;
pub mod trade_handler;
pub mod trade_system;
pub mod tracker;
pub mod transaction_system;
pub mod turn_system;
pub mod world;

verus! {

/// An opaque handle to an entity of the simulation.
#[derive(Clone, Copy, Debug, PartialEq, Eq, Structural)]
pub struct Entity {
    pub id: u64,
}

/// The transport form of an entity handle.
#[derive(Clone, Copy, Debug, PartialEq, Eq, Structural)]
pub struct Serdent(pub u64);

impl From<Entity> for Serdent {
    fn from(entity: Entity) -> (r: Self) {
        Serdent(entity.id)
    }
}

impl vstd::std_specs::convert::FromSpecImpl<Entity> for Serdent {
    open spec fn obeys_from_spec() -> bool {
        true
    }

    open spec fn from_spec(entity: Entity) -> Self {
        Serdent(entity.id)
    }
}

impl From<Serdent> for Entity {
    fn from(s: Serdent) -> (r: Self) {
        Entity { id: s.0 }
    }
}

impl vstd::std_specs::convert::FromSpecImpl<Serdent> for Entity {
    open spec fn obeys_from_spec() -> bool {
        true
    }

    open spec fn from_spec(s: Serdent) -> Self {
        Entity { id: s.0 }
    }
}

/// The transport form of an entity handle, as a number.
pub fn entity_to_u64(entity: Entity) -> (r: u64)
    ensures
        r == entity.id,
{
    let serd = Serdent::from(entity);
    serd.0
}

} // verus!
