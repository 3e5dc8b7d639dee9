use vstd::prelude::*;

use crate::Entity;
use crate::world::{EntityRecord, World};

verus! {

/// The ids of the entities that have a position, in the order of creation.
pub open spec fn positioned_ids(records: Seq<EntityRecord>) -> Seq<u64>
    decreases records.len(),
{
    if records.len() == 0 {
        Seq::empty()
    } else if records.last().position is Some {
        positioned_ids(records.drop_last()).push((records.len() - 1) as u64)
    } else {
        positioned_ids(records.drop_last())
    }
}

/// The elements of `a` that `b` does not hold, in their order.
pub open spec fn missing_from(a: Seq<u64>, b: Seq<u64>) -> Seq<u64>
    decreases a.len(),
{
    if a.len() == 0 {
        Seq::empty()
    } else if b.contains(a.last()) {
        missing_from(a.drop_last(), b)
    } else {
        missing_from(a.drop_last(), b).push(a.last())
    }
}

/// The entities that appeared and disappeared since the last look.
pub struct TrackerResult {
    pub created: Vec<u64>,
    pub deleted: Vec<u64>,
}

/// Remembers which entities had a position when it last looked.
pub struct EntityTracker {
    prev_entities: Vec<u64>,
}

fn holds_id(v: &Vec<u64>, x: u64) -> (r: bool)
    ensures
        r == v@.contains(x),
{
    let mut i: usize = 0;
    while i < v.len()
        invariant
            i <= v@.len(),
            forall|j: int| 0 <= j < i ==> #[trigger] v@[j] != x,
        decreases v@.len() - i,
    {
        if v[i] == x {
            assert(v@[i as int] == x);
            return true;
        }
        i = i + 1;
    }
    false
}

fn missing(a: &Vec<u64>, b: &Vec<u64>) -> (r: Vec<u64>)
    ensures
        r@ == missing_from(a@, b@),
{
    let mut out: Vec<u64> = Vec::new();
    let mut i: usize = 0;
    while i < a.len()
        invariant
            i <= a@.len(),
            out@ == missing_from(a@.subrange(0, i as int), b@),
        decreases a@.len() - i,
    {
        let ghost prefix = a@.subrange(0, i as int + 1);
        assert(prefix.drop_last() =~= a@.subrange(0, i as int));
        if !holds_id(b, a[i]) {
            out.push(a[i]);
        }
        i = i + 1;
    }
    assert(a@.subrange(0, i as int) =~= a@);
    out
}

impl EntityTracker {
    /// The ids seen at the last look.
    pub closed spec fn seen(&self) -> Seq<u64> {
        self.prev_entities@
    }

    pub fn new() -> (r: Self)
        ensures
            r.seen() == Seq::<u64>::empty(),
    {
        EntityTracker { prev_entities: Vec::new() }
    }

    /// Looks at the entities that have a position: reports those not seen
    /// last time as created and those seen last time but gone now as
    /// deleted, and remembers the current ones.
    pub fn track(&mut self, world: &World) -> (r: TrackerResult)
        ensures
            final(self).seen() == positioned_ids(world.records()),
            r.created@ == missing_from(positioned_ids(world.records()), old(self).seen()),
            r.deleted@ == missing_from(old(self).seen(), positioned_ids(world.records())),
    {
        let mut current: Vec<u64> = Vec::new();
        let n = world.len();
        let mut i: usize = 0;
        while i < n
            invariant
                n == world.records().len(),
                i <= n,
                current@ == positioned_ids(world.records().subrange(0, i as int)),
            decreases n - i,
        {
            let ghost prefix = world.records().subrange(0, i as int + 1);
            assert(prefix.drop_last() =~= world.records().subrange(0, i as int));
            if world.get_position(Entity { id: i as u64 }).is_some() {
                current.push(i as u64);
            }
            i = i + 1;
        }
        assert(world.records().subrange(0, n as int) =~= world.records());
        let created = missing(&current, &self.prev_entities);
        let deleted = missing(&self.prev_entities, &current);
        self.prev_entities = current;
        TrackerResult { created, deleted }
    }
}

} // verus!
