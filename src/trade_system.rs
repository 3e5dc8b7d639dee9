use vstd::prelude::*;

use crate::Entity;
use crate::action_queue::ActionQueue;
use crate::component::Tradeable;
use crate::message::{Action, Message};
use crate::message_queue::MessageQueue;
use crate::trade_handler::{
    active_after, finished_after, is_terminal, outcome, Trade, TradeHandler, TradeRequest,
    TradeState,
};
use crate::world::{EntityRecord, World};

verus! {

/// `records` with the negotiation of entity `e` set to `request`, where the
/// entity is tradeable.
pub open spec fn with_request(
    records: Seq<EntityRecord>,
    e: Entity,
    request: Option<TradeRequest>,
) -> Seq<EntityRecord> {
    if e.id < records.len() && records[e.id as int].tradeable is Some {
        records.update(
            e.id as int,
            EntityRecord { tradeable: Some(Tradeable { request }), ..records[e.id as int] },
        )
    } else {
        records
    }
}

/// The records after a trade has ended: neither party takes part in a
/// negotiation any more.
pub open spec fn detach_parties(records: Seq<EntityRecord>, t: Trade) -> Seq<EntityRecord> {
    with_request(with_request(records, t.buyer, None), t.seller, None)
}

/// The transfer that settles a trade at `amount`: the item goes from the
/// seller to the buyer.
pub open spec fn settlement(t: Trade, amount: u32) -> Action {
    Action::Transaction { source: t.seller, target: t.buyer, object: t.target, value: amount }
}

/// The state that the trade system works on: active and finished trades,
/// entity records, published events, and actions staged for the next tick.
pub type TradeWorld = (
    Map<u64, Trade>,
    Map<u64, Trade>,
    Seq<EntityRecord>,
    Seq<Message>,
    Seq<Action>,
);

/// The effect of one action on the trade system's state.
pub open spec fn trade_effect(s: TradeWorld, action: Action) -> TradeWorld {
    let (active, finished, records, events, staged) = s;
    match action {
        Action::TradeUpdate(m) => match outcome(active, m) {
            Some(t) => (
                active_after(active, m),
                finished_after(active, finished, m),
                if is_terminal(t.trade_state) {
                    detach_parties(records, t)
                } else {
                    records
                },
                events.push(Message::TradeEvent(t)),
                match t.trade_state {
                    TradeState::Final(amount) => staged.push(settlement(t, amount)),
                    _ => staged,
                },
            ),
            None => s,
        },
        _ => s,
    }
}

/// The effect of `actions`, in order.
pub open spec fn trade_effects(s: TradeWorld, actions: Seq<Action>) -> TradeWorld
    decreases actions.len(),
{
    if actions.len() == 0 {
        s
    } else {
        trade_effect(trade_effects(s, actions.drop_last()), actions.last())
    }
}

/// Feeds the trade updates of the current tick to the trade handler. Each
/// update that takes effect publishes the trade; a trade that ends frees
/// both parties; one that settles stages the transfer of its item for the
/// next tick.
pub fn trade_system(
    world: &mut World,
    trades: &mut TradeHandler,
    messages: &mut MessageQueue,
    actions: &mut ActionQueue,
)
    requires
        old(trades).wf(),
    ensures
        final(trades).wf(),
        final(trades).next_id() == old(trades).next_id(),
        final(actions).current() == old(actions).current(),
        (
            final(trades).active(),
            final(trades).finished(),
            final(world).records(),
            final(messages).messages(),
            final(actions).staged(),
        ) == trade_effects(
            (
                old(trades).active(),
                old(trades).finished(),
                old(world).records(),
                old(messages).messages(),
                old(actions).staged(),
            ),
            old(actions).current(),
        ),
{
    let list = actions.get_actions();
    let ghost start: TradeWorld = (
        trades.active(),
        trades.finished(),
        world.records(),
        messages.messages(),
        actions.staged(),
    );
    proof {
        assert(list@.subrange(0, 0) =~= Seq::<Action>::empty());
    }
    let mut i: usize = 0;
    while i < list.len()
        invariant
            i <= list@.len(),
            list@ == actions.current(),
            list@ == old(actions).current(),
            trades.wf(),
            trades.next_id() == old(trades).next_id(),
            (
                trades.active(),
                trades.finished(),
                world.records(),
                messages.messages(),
                actions.staged(),
            ) == trade_effects(start, list@.subrange(0, i as int)),
        decreases list@.len() - i,
    {
        let ghost prefix = list@.subrange(0, i as int + 1);
        assert(prefix.drop_last() =~= list@.subrange(0, i as int));
        match list[i] {
            Action::TradeUpdate(m) => {
                if let Some(t) = trades.handle_message(m) {
                    match t.trade_state {
                        TradeState::Final(amount) => {
                            actions.push_future(
                                Action::Transaction {
                                    source: t.seller,
                                    target: t.buyer,
                                    object: t.target,
                                    value: amount,
                                },
                            );
                        },
                        _ => {},
                    }
                    if t.trade_state.is_terminal() {
                        world.set_request(t.buyer, None);
                        world.set_request(t.seller, None);
                    }
                    messages.push(Message::TradeEvent(t));
                }
            },
            _ => {},
        }
        i = i + 1;
    }
    assert(list@.subrange(0, i as int) =~= list@);
}

} // verus!
