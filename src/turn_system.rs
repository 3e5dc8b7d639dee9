use vstd::prelude::*;

use crate::Entity;
use crate::component::{ActiveTurn, TurnState};
use crate::world::{
    at_most_one_turn, first_match, has_priority, lemma_first_match_none, lemma_first_match_some,
    lemma_priority_entries_nonempty, priority_entries, EntityRecord, Query, World,
};

verus! {

/// The entities of `entries` whose priority is `key`, in their order.
pub open spec fn with_key(entries: Seq<(u8, Entity)>, key: u8) -> Seq<Entity>
    decreases entries.len(),
{
    if entries.len() == 0 {
        Seq::empty()
    } else if entries.last().0 == key {
        with_key(entries.drop_last(), key).push(entries.last().1)
    } else {
        with_key(entries.drop_last(), key)
    }
}

/// The entities of `entries` whose priority is below `bound`, by ascending
/// priority, equal priorities in their order.
pub open spec fn keys_below(entries: Seq<(u8, Entity)>, bound: nat) -> Seq<Entity>
    decreases bound,
{
    if bound == 0 {
        Seq::empty()
    } else {
        keys_below(entries, (bound - 1) as nat) + with_key(entries, (bound - 1) as u8)
    }
}

/// The stable sort of `entries` by ascending priority.
pub open spec fn by_priority(entries: Seq<(u8, Entity)>) -> Seq<Entity> {
    keys_below(entries, 256)
}

proof fn lemma_keys_below_grows(entries: Seq<(u8, Entity)>, key: u8, bound: nat)
    requires
        key < bound <= 256,
    ensures
        keys_below(entries, bound).len() >= with_key(entries, key).len(),
    decreases bound,
{
    if key < bound - 1 {
        lemma_keys_below_grows(entries, key, (bound - 1) as nat);
    }
}

/// Sorting loses no entity: a non-empty list sorts to a non-empty one.
pub proof fn lemma_by_priority_nonempty(entries: Seq<(u8, Entity)>)
    requires
        entries.len() > 0,
    ensures
        by_priority(entries).len() > 0,
{
    let key = entries.last().0;
    assert(with_key(entries, key).len() > 0);
    lemma_keys_below_grows(entries, key, 256);
}

/// Orders entities for the turn queue: ascending by priority, entities of
/// equal priority in the order given.
pub fn order_by_priority(entries: &Vec<(u8, Entity)>) -> (r: Vec<Entity>)
    ensures
        r@ == by_priority(entries@),
{
    let mut out: Vec<Entity> = Vec::new();
    let mut key: u16 = 0;
    while key < 256
        invariant
            key <= 256,
            out@ == keys_below(entries@, key as nat),
        decreases 256 - key,
    {
        let ghost before = out@;
        let mut i: usize = 0;
        while i < entries.len()
            invariant
                key < 256,
                i <= entries@.len(),
                out@ == before + with_key(entries@.subrange(0, i as int), key as u8),
            decreases entries@.len() - i,
        {
            let ghost prefix = entries@.subrange(0, i as int + 1);
            assert(prefix.drop_last() =~= entries@.subrange(0, i as int));
            if entries[i].0 as u16 == key {
                out.push(entries[i].1);
            }
            i = i + 1;
            assert(out@ =~= before + with_key(entries@.subrange(0, i as int), key as u8));
        }
        assert(entries@.subrange(0, i as int) =~= entries@);
        key = key + 1;
    }
    out
}

/// The entities waiting for a turn; the next one is at the end.
pub struct PendingMoves {
    list: Vec<Entity>,
}

impl PendingMoves {
    pub closed spec fn queue(&self) -> Seq<Entity> {
        self.list@
    }

    pub fn new() -> (r: Self)
        ensures
            r.queue() == Seq::<Entity>::empty(),
    {
        Self { list: vec![] }
    }
}

/// What the scheduler did in one tick.
#[derive(Clone, Copy, Debug, PartialEq, Eq, Structural)]
pub enum TurnOutcome {
    /// The holder of the turn has not finished it.
    Ongoing(Entity),
    /// The turn went to this entity.
    Granted(Entity),
}

/// The queue that the next turn is taken from: the pending one, or where it
/// is empty, every entity with a priority sorted anew.
pub open spec fn turn_queue(records: Seq<EntityRecord>, pending: Seq<Entity>) -> Seq<Entity> {
    if pending.len() == 0 {
        by_priority(priority_entries(records))
    } else {
        pending
    }
}

/// `records` with the active turn of entity `e` set to `turn`.
pub open spec fn with_turn(records: Seq<EntityRecord>, e: Entity, turn: Option<ActiveTurn>) -> Seq<
    EntityRecord,
> {
    if e.id < records.len() {
        records.update(e.id as int, EntityRecord { active_turn: turn, ..records[e.id as int] })
    } else {
        records
    }
}

/// One tick of the scheduler: its outcome, the records after it, and the
/// pending queue after it. Where the queue is empty, some entity must have a
/// priority.
pub open spec fn turn_step(records: Seq<EntityRecord>, pending: Seq<Entity>) -> (
    TurnOutcome,
    Seq<EntityRecord>,
    Seq<Entity>,
) {
    let holder = first_match(records, Query::TurnHolder);
    if holder is Some && records[holder->0.id as int].active_turn->0.state != TurnState::DONE {
        (TurnOutcome::Ongoing(holder->0), records, pending)
    } else {
        let released = if holder is Some {
            with_turn(records, holder->0, None)
        } else {
            records
        };
        let queue = turn_queue(records, pending);
        (
            TurnOutcome::Granted(queue.last()),
            with_turn(released, queue.last(), Some(ActiveTurn { state: TurnState::PENDING })),
            queue.drop_last(),
        )
    }
}

/// The scheduler never leaves two entities holding the turn.
pub proof fn lemma_turn_step_single_holder(records: Seq<EntityRecord>, pending: Seq<Entity>)
    requires
        at_most_one_turn(records),
        records.len() <= u64::MAX,
    ensures
        at_most_one_turn(turn_step(records, pending).1),
{
    let holder = first_match(records, Query::TurnHolder);
    let released = if holder is Some {
        with_turn(records, holder->0, None)
    } else {
        records
    };
    assert forall|i: int| 0 <= i < released.len() implies (#[trigger] released[i]).active_turn
        is None || (holder is Some && records[holder->0.id as int].active_turn->0.state
        != TurnState::DONE) by {
        if holder is None {
            lemma_first_match_none(records, Query::TurnHolder, i);
        } else {
            lemma_first_match_some(records, Query::TurnHolder);
        }
    }
}

proof fn lemma_entries_hold(s: Seq<EntityRecord>, i: int)
    requires
        0 <= i < s.len(),
        s.len() <= u64::MAX,
        s[i].priority is Some,
    ensures
        priority_entries(s).contains((s[i].priority->0.value, Entity { id: i as u64 })),
    decreases s.len(),
{
    let rest = priority_entries(s.drop_last());
    if i == s.len() - 1 {
        assert(priority_entries(s).last() == (s[i].priority->0.value, Entity { id: i as u64 }));
    } else {
        assert(s.drop_last()[i] == s[i]);
        lemma_entries_hold(s.drop_last(), i);
        let k = choose|k: int|
            0 <= k < rest.len() && rest[k] == (s[i].priority->0.value, Entity { id: i as u64 });
        assert(priority_entries(s)[k] == rest[k]);
    }
}

proof fn lemma_with_key_holds(entries: Seq<(u8, Entity)>, j: int)
    requires
        0 <= j < entries.len(),
    ensures
        with_key(entries, entries[j].0).contains(entries[j].1),
    decreases entries.len(),
{
    let key = entries[j].0;
    let rest = with_key(entries.drop_last(), key);
    if j == entries.len() - 1 {
        assert(with_key(entries, key).last() == entries[j].1);
    } else {
        assert(entries.drop_last()[j] == entries[j]);
        lemma_with_key_holds(entries.drop_last(), j);
        let k = choose|k: int| 0 <= k < rest.len() && rest[k] == entries[j].1;
        if entries.last().0 == key {
            assert(with_key(entries, key)[k] == rest[k]);
        }
    }
}

proof fn lemma_keys_below_holds(entries: Seq<(u8, Entity)>, key: u8, bound: nat, e: Entity)
    requires
        key < bound <= 256,
        with_key(entries, key).contains(e),
    ensures
        keys_below(entries, bound).contains(e),
    decreases bound,
{
    let lower = keys_below(entries, (bound - 1) as nat);
    let top = with_key(entries, (bound - 1) as u8);
    if key < bound - 1 {
        lemma_keys_below_holds(entries, key, (bound - 1) as nat, e);
        let k = choose|k: int| 0 <= k < lower.len() && lower[k] == e;
        assert((lower + top)[k] == e);
    } else {
        let k = choose|k: int| 0 <= k < top.len() && top[k] == e;
        assert((lower + top)[lower.len() + k] == e);
    }
}

/// Once the queue has run out and no turn is under way, the queue is
/// rebuilt from every entity that has a priority at that moment, those
/// created since the last rebuild included: the last of the sorted list
/// gets the turn and the rest wait in order.
pub proof fn lemma_rebuild_takes_everyone(records: Seq<EntityRecord>, pending: Seq<Entity>)
    requires
        pending.len() == 0,
        has_priority(records),
        records.len() <= u64::MAX,
        first_match(records, Query::TurnHolder) is None || records[first_match(
            records,
            Query::TurnHolder,
        )->0.id as int].active_turn->0.state == TurnState::DONE,
    ensures
        by_priority(priority_entries(records)).len() > 0,
        turn_step(records, pending).0 == TurnOutcome::Granted(
            by_priority(priority_entries(records)).last(),
        ),
        turn_step(records, pending).2 == by_priority(priority_entries(records)).drop_last(),
        forall|i: int|
            0 <= i < records.len() && (#[trigger] records[i]).priority is Some ==> by_priority(
                priority_entries(records),
            ).contains(Entity { id: i as u64 }),
{
    lemma_priority_entries_nonempty(records);
    lemma_by_priority_nonempty(priority_entries(records));
    assert forall|i: int|
        0 <= i < records.len() && (#[trigger] records[i]).priority is Some implies by_priority(
        priority_entries(records),
    ).contains(Entity { id: i as u64 }) by {
        let entries = priority_entries(records);
        let entry = (records[i].priority->0.value, Entity { id: i as u64 });
        lemma_entries_hold(records, i);
        let j = choose|j: int| 0 <= j < entries.len() && entries[j] == entry;
        lemma_with_key_holds(entries, j);
        lemma_keys_below_holds(entries, entry.0, 256, entry.1);
    }
}

/// Hands out turns. A holder whose turn is `DONE` loses it; then, where no
/// one holds the turn, the next entity of the queue gets it in the
/// `PENDING` state. An empty queue is first refilled with every entity that
/// has a priority, so that the highest priority moves first. The queue must
/// not be empty, or some entity must have a priority: with neither, no
/// entity could ever take a turn.
pub fn turn_system(world: &mut World, pending: &mut PendingMoves) -> (r: TurnOutcome)
    requires
        old(pending).queue().len() > 0 || has_priority(old(world).records()),
    ensures
        turn_queue(old(world).records(), old(pending).queue()).len() > 0,
        (r, final(world).records(), final(pending).queue()) == turn_step(
            old(world).records(),
            old(pending).queue(),
        ),
{
    proof {
        if old(pending).queue().len() == 0 {
            lemma_priority_entries_nonempty(old(world).records());
            lemma_by_priority_nonempty(priority_entries(old(world).records()));
        }
    }
    let holder = world.find_first(Query::TurnHolder);
    if let Some(h) = holder {
        let turn = world.get_active_turn(h);
        if let Some(t) = turn {
            if t.state != TurnState::DONE {
                return TurnOutcome::Ongoing(h);
            }
        }
    }
    if pending.list.len() == 0 {
        let entries = world.priorities();
        pending.list = order_by_priority(&entries);
    }
    if let Some(h) = holder {
        world.set_active_turn(h, None);
    }
    let last = pending.list.len() - 1;
    let next = pending.list[last];
    pending.list.pop();
    world.set_active_turn(next, Some(ActiveTurn { state: TurnState::PENDING }));
    TurnOutcome::Granted(next)
}

} // verus!
