use vstd::prelude::*;

use crate::Entity;
use crate::action_queue::ActionQueue;
use crate::message::{is_log, Action, Message};
use crate::message_queue::MessageQueue;
use crate::world::{
    contents_changed, first_index, inventories, same_but_contents, swap_removed, World,
};

verus! {

broadcast use vstd::string::group_string_axioms;

/// The text logged for each transaction.
pub open spec fn transaction_log_text() -> Seq<char> {
    "Committing transaction"@
}

/// The inventories after `object` moves from `source` to `target`. Nothing
/// moves where either has no inventory or `source` does not hold `object`.
pub open spec fn transfer(
    inv: Seq<Option<Seq<Entity>>>,
    source: Entity,
    target: Entity,
    object: Entity,
) -> Seq<Option<Seq<Entity>>> {
    if source.id < inv.len() && target.id < inv.len() && inv[source.id as int] is Some
        && inv[target.id as int] is Some && inv[source.id as int]->0.contains(object) {
        let from = inv[source.id as int]->0;
        let removed = inv.update(
            source.id as int,
            Some(swap_removed(from, first_index(from, object))),
        );
        removed.update(target.id as int, Some(removed[target.id as int]->0.push(object)))
    } else {
        inv
    }
}

/// The inventories after every transaction of `actions`, in order.
pub open spec fn apply_transactions(inv: Seq<Option<Seq<Entity>>>, actions: Seq<Action>) -> Seq<
    Option<Seq<Entity>>,
>
    decreases actions.len(),
{
    if actions.len() == 0 {
        inv
    } else {
        let before = apply_transactions(inv, actions.drop_last());
        match actions.last() {
            Action::Transaction { source, target, object, value: _ } => transfer(
                before,
                source,
                target,
                object,
            ),
            _ => before,
        }
    }
}

/// How many transactions `actions` holds.
pub open spec fn transaction_count(actions: Seq<Action>) -> nat
    decreases actions.len(),
{
    if actions.len() == 0 {
        0
    } else {
        transaction_count(actions.drop_last()) + if actions.last() is Transaction {
            1nat
        } else {
            0nat
        }
    }
}

/// Carries out the transactions of the current tick, in order: each logs
/// an event, then moves its object from the source's inventory to the
/// target's. A transaction whose object the source no longer holds is
/// dropped.
pub fn transaction_system(world: &mut World, messages: &mut MessageQueue, actions: &ActionQueue)
    ensures
        contents_changed(
            old(world).records(),
            final(world).records(),
            apply_transactions(inventories(old(world).records()), actions.current()),
        ),
        final(messages).messages().len() == old(messages).messages().len() + transaction_count(
            actions.current(),
        ),
        final(messages).messages().subrange(0, old(messages).messages().len() as int) == old(
            messages,
        ).messages(),
        forall|i: int|
            old(messages).messages().len() <= i < final(messages).messages().len() ==> is_log(
                #[trigger] final(messages).messages()[i],
                transaction_log_text(),
            ),
{
    let list = actions.get_actions();
    let ghost start = world.records();
    let ghost queued = messages.messages();
    proof {
        assert(inventories(start) =~= apply_transactions(
            inventories(start),
            list@.subrange(0, 0),
        ));
    }
    let mut i: usize = 0;
    while i < list.len()
        invariant
            i <= list@.len(),
            list@ == actions.current(),
            contents_changed(
                start,
                world.records(),
                apply_transactions(inventories(start), list@.subrange(0, i as int)),
            ),
            messages.messages().len() == queued.len() + transaction_count(
                list@.subrange(0, i as int),
            ),
            messages.messages().subrange(0, queued.len() as int) == queued,
            forall|k: int|
                queued.len() <= k < messages.messages().len() ==> is_log(
                    #[trigger] messages.messages()[k],
                    transaction_log_text(),
                ),
        decreases list@.len() - i,
    {
        let ghost prefix = list@.subrange(0, i as int + 1);
        assert(prefix.drop_last() =~= list@.subrange(0, i as int));
        let ghost before_msgs = messages.messages();
        match list[i] {
            Action::Transaction { source, target, object, value: _ } => {
                messages.push(Message::LogEvent("Committing transaction".to_string()));
                assert(messages.messages().subrange(0, queued.len() as int) =~= queued) by {
                    assert(messages.messages().subrange(0, queued.len() as int)
                        =~= before_msgs.subrange(0, queued.len() as int));
                }
                let ghost cur = world.records();
                let ghost inv = inventories(cur);
                if world.has_inventory(target) {
                    if world.swap_remove_item(source, object) {
                        let ghost mid = world.records();
                        let pushed = world.push_item(target, object);
                        assert(pushed);
                        assert(inventories(world.records()) == transfer(
                            inv,
                            source,
                            target,
                            object,
                        ));
                        assert forall|k: int| 0 <= k < start.len() implies same_but_contents(
                            #[trigger] start[k],
                            world.records()[k],
                        ) by {
                            assert(same_but_contents(cur[k], mid[k]));
                            assert(same_but_contents(mid[k], world.records()[k]));
                        }
                    } else {
                        assert(!(inv[source.id as int] is Some && inv[source.id as int]->0.contains(
                            object,
                        )) || source.id >= inv.len());
                    }
                } else {
                    assert(target.id >= inv.len() || inv[target.id as int] is None);
                }
            },
            _ => {},
        }
        i = i + 1;
    }
    assert(list@.subrange(0, i as int) =~= list@);
}

} // verus!
