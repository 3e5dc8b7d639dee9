use vstd::prelude::*;

use crate::Entity;
use crate::component::{
    ActiveTurn, DisplayCabinet, Inventory, Name, Player, Position, Priority, TileBlocker,
    Tradeable,
};
use crate::trade_handler::TradeRequest;

verus! {

/// The components of one entity; a tag is attached where its field is
/// `Some`.
#[derive(Clone, Debug, PartialEq, Eq)]
pub struct EntityRecord {
    pub position: Option<Position>,
    pub name: Option<Name>,
    pub inventory: Option<Inventory>,
    pub tradeable: Option<Tradeable>,
    pub active_turn: Option<ActiveTurn>,
    pub priority: Option<Priority>,
    pub player: Option<Player>,
    pub display_cabinet: Option<DisplayCabinet>,
    pub tile_blocker: Option<TileBlocker>,
}

/// The filters that the systems look entities up by.
#[derive(Clone, Copy, Debug, PartialEq, Eq, Structural)]
pub enum Query {
    /// Tagged `Player`, with a position.
    Player,
    /// Tagged `Player`, with an inventory.
    PlayerInventory,
    /// Tagged `DisplayCabinet`, and tradeable.
    CabinetTradeable,
    /// Holding the active turn.
    TurnHolder,
    /// Tagged `Player`, with a position, holding the active turn.
    PlayerOnTurn,
}

pub open spec fn matches(q: Query, r: EntityRecord) -> bool {
    match q {
        Query::Player => r.player is Some && r.position is Some,
        Query::PlayerInventory => r.player is Some && r.inventory is Some,
        Query::CabinetTradeable => r.display_cabinet is Some && r.tradeable is Some,
        Query::TurnHolder => r.active_turn is Some,
        Query::PlayerOnTurn => r.player is Some && r.position is Some && r.active_turn is Some,
    }
}

/// `i` is the first index of `s` whose record `q` matches.
pub open spec fn is_first_match(s: Seq<EntityRecord>, q: Query, i: int) -> bool {
    0 <= i < s.len() && matches(q, s[i]) && forall|j: int| 0 <= j < i ==> !matches(q, #[trigger] s[j])
}

/// The first entity that `q` matches, in the order of creation.
pub open spec fn first_match(s: Seq<EntityRecord>, q: Query) -> Option<Entity> {
    if exists|i: int| is_first_match(s, q, i) {
        Some(Entity { id: (choose|i: int| is_first_match(s, q, i)) as u64 })
    } else {
        None
    }
}

pub proof fn lemma_first_match(s: Seq<EntityRecord>, q: Query, i: int)
    requires
        is_first_match(s, q, i),
    ensures
        first_match(s, q) == Some(Entity { id: i as u64 }),
{
    let k = choose|k: int| is_first_match(s, q, k);
    assert(is_first_match(s, q, k));
    if k < i {
        assert(!matches(q, s[k]));
    } else if i < k {
        assert(!matches(q, s[i]));
    }
}

pub proof fn lemma_no_match(s: Seq<EntityRecord>, q: Query)
    requires
        forall|j: int| 0 <= j < s.len() ==> !matches(q, #[trigger] s[j]),
    ensures
        first_match(s, q) is None,
{
}

/// At most one entity holds the active turn.
pub open spec fn at_most_one_turn(s: Seq<EntityRecord>) -> bool {
    forall|i: int, j: int|
        0 <= i < s.len() && 0 <= j < s.len() && (#[trigger] s[i]).active_turn is Some && (
        #[trigger] s[j]).active_turn is Some ==> i == j
}

/// `b` holds the same entities as `a`, with the same active turns.
pub open spec fn same_turns(a: Seq<EntityRecord>, b: Seq<EntityRecord>) -> bool {
    a.len() == b.len() && forall|i: int| 0 <= i < a.len() ==> (#[trigger] a[i]).active_turn
        == b[i].active_turn
}

pub proof fn lemma_same_turns(a: Seq<EntityRecord>, b: Seq<EntityRecord>)
    requires
        same_turns(a, b),
    ensures
        at_most_one_turn(a) == at_most_one_turn(b),
{
    if at_most_one_turn(a) {
        assert forall|i: int, j: int|
            0 <= i < b.len() && 0 <= j < b.len() && (#[trigger] b[i]).active_turn is Some && (
            #[trigger] b[j]).active_turn is Some implies i == j by {
            assert(a[i].active_turn == b[i].active_turn && a[j].active_turn == b[j].active_turn);
        }
    }
    if at_most_one_turn(b) {
        assert forall|i: int, j: int|
            0 <= i < a.len() && 0 <= j < a.len() && (#[trigger] a[i]).active_turn is Some && (
            #[trigger] a[j]).active_turn is Some implies i == j by {
            assert(a[i].active_turn == b[i].active_turn && a[j].active_turn == b[j].active_turn);
        }
    }
}

/// Setting the turn of the entity that holds it keeps it the only holder.
pub proof fn lemma_retouch_turn(s: Seq<EntityRecord>, i: int, turn: ActiveTurn)
    requires
        at_most_one_turn(s),
        0 <= i < s.len(),
        s[i].active_turn is Some,
    ensures
        at_most_one_turn(s.update(i, EntityRecord { active_turn: Some(turn), ..s[i] })),
{
    let t = s.update(i, EntityRecord { active_turn: Some(turn), ..s[i] });
    assert forall|a: int, b: int|
        0 <= a < t.len() && 0 <= b < t.len() && (#[trigger] t[a]).active_turn is Some && (
        #[trigger] t[b]).active_turn is Some implies a == b by {
        assert(s[a].active_turn is Some && s[b].active_turn is Some);
    }
}

/// The first match is an entity of `s` that `q` matches.
pub proof fn lemma_first_match_some(s: Seq<EntityRecord>, q: Query)
    requires
        first_match(s, q) is Some,
        s.len() <= u64::MAX,
    ensures
        (first_match(s, q)->0.id as int) < s.len(),
        is_first_match(s, q, first_match(s, q)->0.id as int),
{
    let k = choose|k: int| is_first_match(s, q, k);
    assert(is_first_match(s, q, k));
}

/// Where nothing matches `q` first, nothing matches it at all.
pub proof fn lemma_first_match_none(s: Seq<EntityRecord>, q: Query, i: int)
    requires
        first_match(s, q) is None,
        0 <= i < s.len(),
    ensures
        !matches(q, s[i]),
    decreases i,
{
    if matches(q, s[i]) {
        if exists|j: int| 0 <= j < i && matches(q, #[trigger] s[j]) {
            let j = choose|j: int| 0 <= j < i && matches(q, #[trigger] s[j]);
            lemma_first_match_none(s, q, j);
        } else {
            assert(is_first_match(s, q, i));
        }
    }
}

/// The items of an inventory, if there is one.
pub open spec fn contents_of(r: EntityRecord) -> Option<Seq<Entity>> {
    match r.inventory {
        Some(inv) => Some(inv.contents@),
        None => None,
    }
}

/// The inventory contents of every entity, by entity id.
pub open spec fn inventories(s: Seq<EntityRecord>) -> Seq<Option<Seq<Entity>>> {
    Seq::new(s.len(), |i: int| contents_of(s[i]))
}

/// Each entry of the inventory column is the inventory of its record.
pub proof fn lemma_inventories(s: Seq<EntityRecord>)
    ensures
        inventories(s).len() == s.len(),
        forall|i: int| 0 <= i < s.len() ==> #[trigger] inventories(s)[i] == contents_of(s[i]),
{
}

/// `b` is `a` with at most the items of its inventory changed.
pub open spec fn same_but_contents(a: EntityRecord, b: EntityRecord) -> bool {
    &&& a.position == b.position
    &&& a.name == b.name
    &&& a.tradeable == b.tradeable
    &&& a.active_turn == b.active_turn
    &&& a.priority == b.priority
    &&& a.player == b.player
    &&& a.display_cabinet == b.display_cabinet
    &&& a.tile_blocker == b.tile_blocker
    &&& (a.inventory is Some <==> b.inventory is Some)
    &&& (a.inventory is Some ==> a.inventory->0.capacity == b.inventory->0.capacity)
}

/// `b` is `a` with the inventory contents replaced by `contents`, and
/// nothing else changed.
pub open spec fn contents_changed(
    a: Seq<EntityRecord>,
    b: Seq<EntityRecord>,
    contents: Seq<Option<Seq<Entity>>>,
) -> bool {
    &&& a.len() == b.len()
    &&& inventories(b) == contents
    &&& forall|i: int| 0 <= i < a.len() ==> same_but_contents(#[trigger] a[i], b[i])
}

/// The first index of `x` in `s`.
pub open spec fn is_first_index(s: Seq<Entity>, x: Entity, i: int) -> bool {
    0 <= i < s.len() && s[i] == x && forall|j: int| 0 <= j < i ==> #[trigger] s[j] != x
}

pub open spec fn first_index(s: Seq<Entity>, x: Entity) -> int {
    choose|i: int| is_first_index(s, x, i)
}

pub proof fn lemma_first_index(s: Seq<Entity>, x: Entity, i: int)
    requires
        is_first_index(s, x, i),
    ensures
        first_index(s, x) == i,
{
    let k = choose|k: int| is_first_index(s, x, k);
    assert(is_first_index(s, x, k));
    if k < i {
        assert(s[k] != x);
    } else if i < k {
        assert(s[i] != x);
    }
}

/// `s` without its element at `i`, the last element taking its place.
pub open spec fn swap_removed(s: Seq<Entity>, i: int) -> Seq<Entity> {
    s.update(i, s.last()).drop_last()
}

/// The entities with a priority, with their priority values, in the order of
/// creation.
pub open spec fn priority_entries(s: Seq<EntityRecord>) -> Seq<(u8, Entity)>
    decreases s.len(),
{
    if s.len() == 0 {
        Seq::empty()
    } else {
        let rest = priority_entries(s.drop_last());
        match s.last().priority {
            Some(p) => rest.push((p.value, Entity { id: (s.len() - 1) as u64 })),
            None => rest,
        }
    }
}

/// Whether any entity has a priority.
pub open spec fn has_priority(s: Seq<EntityRecord>) -> bool {
    exists|i: int| 0 <= i < s.len() && (#[trigger] s[i]).priority is Some
}

/// `b` holds the same entities as `a`, with the same priorities.
pub open spec fn same_priorities(a: Seq<EntityRecord>, b: Seq<EntityRecord>) -> bool {
    a.len() == b.len() && forall|i: int| 0 <= i < a.len() ==> (#[trigger] a[i]).priority
        == b[i].priority
}

pub proof fn lemma_same_priorities(a: Seq<EntityRecord>, b: Seq<EntityRecord>)
    requires
        same_priorities(a, b),
    ensures
        priority_entries(a) == priority_entries(b),
        has_priority(a) == has_priority(b),
    decreases a.len(),
{
    if a.len() > 0 {
        let (a1, b1) = (a.drop_last(), b.drop_last());
        assert(same_priorities(a1, b1)) by {
            assert forall|i: int| 0 <= i < a1.len() implies (#[trigger] a1[i]).priority
                == b1[i].priority by {
                assert(a1[i] == a[i] && b1[i] == b[i]);
            }
        }
        lemma_same_priorities(a1, b1);
        assert(a.last().priority == b.last().priority);
    }
    if has_priority(a) {
        let i = choose|i: int| 0 <= i < a.len() && (#[trigger] a[i]).priority is Some;
        assert(b[i].priority is Some);
    }
    if has_priority(b) {
        let i = choose|i: int| 0 <= i < b.len() && (#[trigger] b[i]).priority is Some;
        assert(a[i].priority is Some);
    }
}

/// Where some entity has a priority, the list of entries is not empty.
pub proof fn lemma_priority_entries_nonempty(s: Seq<EntityRecord>)
    requires
        has_priority(s),
    ensures
        priority_entries(s).len() > 0,
    decreases s.len(),
{
    if s.last().priority is None {
        let i = choose|i: int| 0 <= i < s.len() && (#[trigger] s[i]).priority is Some;
        assert(s.drop_last()[i] == s[i]);
        lemma_priority_entries_nonempty(s.drop_last());
    }
}

/// The component store: entity `e` is the record at index `e.id`. Entities
/// are never removed.
pub struct World {
    entities: Vec<EntityRecord>,
}

impl World {
    pub closed spec fn records(&self) -> Seq<EntityRecord> {
        self.entities@
    }

    pub open spec fn holds(&self, e: Entity) -> bool {
        e.id < self.records().len()
    }

    pub open spec fn record(&self, e: Entity) -> EntityRecord {
        self.records()[e.id as int]
    }

    pub fn new() -> (r: Self)
        ensures
            r.records() == Seq::<EntityRecord>::empty(),
    {
        World { entities: Vec::new() }
    }

    /// Entity ids fit in a `u64`.
    pub proof fn lemma_ids_fit(&self)
        ensures
            self.records().len() <= u64::MAX,
    {
        assert(self.entities.len() == self.entities@.len());
    }

    pub fn len(&self) -> (r: usize)
        ensures
            r == self.records().len(),
    {
        self.entities.len()
    }

    /// Adds an entity with the given components.
    pub fn spawn(&mut self, record: EntityRecord) -> (r: Entity)
        requires
            old(self).records().len() < usize::MAX,
        ensures
            r.id == old(self).records().len(),
            final(self).records() == old(self).records().push(record),
    {
        let id = self.entities.len() as u64;
        self.entities.push(record);
        Entity { id }
    }

    fn index_of(&self, e: Entity) -> (r: Option<usize>)
        ensures
            r == (if self.holds(e) {
                Some(e.id as usize)
            } else {
                None
            }),
            r is Some ==> r->0 as int == e.id as int && (r->0 as int) < self.records().len(),
    {
        if e.id < self.entities.len() as u64 {
            Some(e.id as usize)
        } else {
            None
        }
    }

    /// The first entity, in the order of creation, that `query` matches.
    pub fn find_first(&self, query: Query) -> (r: Option<Entity>)
        ensures
            r == first_match(self.records(), query),
            r is Some ==> self.holds(r->0) && matches(query, self.record(r->0)),
    {
        let mut i: usize = 0;
        while i < self.entities.len()
            invariant
                i <= self.records().len(),
                forall|j: int| 0 <= j < i ==> !matches(query, #[trigger] self.records()[j]),
            decreases self.records().len() - i,
        {
            let r = &self.entities[i];
            let hit = match query {
                Query::Player => r.player.is_some() && r.position.is_some(),
                Query::PlayerInventory => r.player.is_some() && r.inventory.is_some(),
                Query::CabinetTradeable => r.display_cabinet.is_some() && r.tradeable.is_some(),
                Query::TurnHolder => r.active_turn.is_some(),
                Query::PlayerOnTurn => r.player.is_some() && r.position.is_some()
                    && r.active_turn.is_some(),
            };
            if hit {
                proof {
                    lemma_first_match(self.records(), query, i as int);
                }
                return Some(Entity { id: i as u64 });
            }
            i = i + 1;
        }
        proof {
            lemma_no_match(self.records(), query);
        }
        None
    }

    pub fn get_position(&self, e: Entity) -> (r: Option<Position>)
        ensures
            r == (if self.holds(e) {
                self.record(e).position
            } else {
                None
            }),
    {
        match self.index_of(e) {
            Some(i) => self.entities[i].position,
            None => None,
        }
    }

    pub fn get_active_turn(&self, e: Entity) -> (r: Option<ActiveTurn>)
        ensures
            r == (if self.holds(e) {
                self.record(e).active_turn
            } else {
                None
            }),
    {
        match self.index_of(e) {
            Some(i) => self.entities[i].active_turn,
            None => None,
        }
    }

    pub fn get_tradeable(&self, e: Entity) -> (r: Option<Tradeable>)
        ensures
            r == (if self.holds(e) {
                self.record(e).tradeable
            } else {
                None
            }),
    {
        match self.index_of(e) {
            Some(i) => self.entities[i].tradeable,
            None => None,
        }
    }

    pub fn get_priority(&self, e: Entity) -> (r: Option<Priority>)
        ensures
            r == (if self.holds(e) {
                self.record(e).priority
            } else {
                None
            }),
    {
        match self.index_of(e) {
            Some(i) => self.entities[i].priority,
            None => None,
        }
    }

    /// Whether the entity has an inventory.
    pub fn has_inventory(&self, e: Entity) -> (r: bool)
        ensures
            r == (self.holds(e) && contents_of(self.record(e)) is Some),
    {
        match self.index_of(e) {
            Some(i) => self.entities[i].inventory.is_some(),
            None => false,
        }
    }

    /// Whether the entity carries the `TileBlocker` tag.
    pub fn is_tile_blocker(&self, e: Entity) -> (r: bool)
        ensures
            r == (self.holds(e) && self.record(e).tile_blocker is Some),
    {
        match self.index_of(e) {
            Some(i) => self.entities[i].tile_blocker.is_some(),
            None => false,
        }
    }

    /// Whether the entity carries the `DisplayCabinet` tag.
    pub fn is_display_cabinet(&self, e: Entity) -> (r: bool)
        ensures
            r == (self.holds(e) && self.record(e).display_cabinet is Some),
    {
        match self.index_of(e) {
            Some(i) => self.entities[i].display_cabinet.is_some(),
            None => false,
        }
    }

    /// The entity's name.
    pub fn get_name(&self, e: Entity) -> (r: Option<String>)
        ensures
            r is Some == (self.holds(e) && self.record(e).name is Some),
            r is Some ==> r->0@ == self.record(e).name->0.name@,
    {
        match self.index_of(e) {
            Some(i) => match &self.entities[i].name {
                Some(n) => Some(n.name.clone()),
                None => None,
            },
            None => None,
        }
    }

    /// A copy of the items that the entity holds.
    pub fn get_inventory(&self, e: Entity) -> (r: Option<Vec<Entity>>)
        ensures
            r is Some == (self.holds(e) && contents_of(self.record(e)) is Some),
            r is Some ==> Some(r->0@) == contents_of(self.record(e)),
    {
        match self.index_of(e) {
            Some(i) => match &self.entities[i].inventory {
                Some(inv) => {
                    let mut out: Vec<Entity> = Vec::new();
                    let mut k: usize = 0;
                    while k < inv.contents.len()
                        invariant
                            k <= inv.contents@.len(),
                            out@ == inv.contents@.subrange(0, k as int),
                        decreases inv.contents@.len() - k,
                    {
                        out.push(inv.contents[k]);
                        k = k + 1;
                        assert(out@ =~= inv.contents@.subrange(0, k as int));
                    }
                    assert(out@ =~= inv.contents@);
                    Some(out)
                },
                None => None,
            },
            None => None,
        }
    }

    /// Attaches (`Some`) or detaches (`None`) the active turn.
    pub fn set_active_turn(&mut self, e: Entity, turn: Option<ActiveTurn>)
        ensures
            final(self).records() == (if old(self).holds(e) {
                old(self).records().update(
                    e.id as int,
                    EntityRecord { active_turn: turn, ..old(self).record(e) },
                )
            } else {
                old(self).records()
            }),
    {
        if let Some(i) = self.index_of(e) {
            self.entities[i].active_turn = turn;
        }
    }

    /// Moves the entity, where it has a position.
    pub fn set_position(&mut self, e: Entity, position: Position)
        ensures
            final(self).records() == (if old(self).holds(e) && old(self).record(e).position is Some {
                old(self).records().update(
                    e.id as int,
                    EntityRecord { position: Some(position), ..old(self).record(e) },
                )
            } else {
                old(self).records()
            }),
    {
        if let Some(i) = self.index_of(e) {
            if self.entities[i].position.is_some() {
                self.entities[i].position = Some(position);
            }
        }
    }

    /// Records the negotiation the entity takes part in, where it is
    /// tradeable.
    pub fn set_request(&mut self, e: Entity, request: Option<TradeRequest>)
        ensures
            final(self).records() == (if old(self).holds(e) && old(self).record(e).tradeable is Some {
                old(self).records().update(
                    e.id as int,
                    EntityRecord { tradeable: Some(Tradeable { request }), ..old(self).record(e) },
                )
            } else {
                old(self).records()
            }),
    {
        if let Some(i) = self.index_of(e) {
            if self.entities[i].tradeable.is_some() {
                self.entities[i].tradeable = Some(Tradeable { request });
            }
        }
    }

    /// Appends an item to the entity's inventory; false where it has none.
    pub fn push_item(&mut self, owner: Entity, item: Entity) -> (r: bool)
        ensures
            r == (old(self).holds(owner) && contents_of(old(self).record(owner)) is Some),
            r ==> contents_changed(
                old(self).records(),
                final(self).records(),
                inventories(old(self).records()).update(
                    owner.id as int,
                    Some(contents_of(old(self).record(owner))->0.push(item)),
                ),
            ),
            !r ==> final(self).records() == old(self).records(),
    {
        let ghost before = self.records();
        match self.index_of(owner) {
            Some(i) => match &mut self.entities[i].inventory {
                Some(inv) => {
                    inv.contents.push(item);
                    proof {
                        assert(inventories(self.records()) =~= inventories(before).update(
                            i as int,
                            Some(contents_of(before[i as int])->0.push(item)),
                        ));
                    }
                    true
                },
                None => false,
            },
            None => false,
        }
    }
    /// Takes the last item out of the entity's inventory.
    pub fn pop_item(&mut self, owner: Entity) -> (r: Option<Entity>)
        ensures
            r is Some == (old(self).holds(owner) && contents_of(old(self).record(owner)) is Some
                && contents_of(old(self).record(owner))->0.len() > 0),
            r is Some ==> r->0 == contents_of(old(self).record(owner))->0.last() && contents_changed(
                old(self).records(),
                final(self).records(),
                inventories(old(self).records()).update(
                    owner.id as int,
                    Some(contents_of(old(self).record(owner))->0.drop_last()),
                ),
            ),
            r is None ==> final(self).records() == old(self).records(),
    {
        let ghost before = self.records();
        match self.index_of(owner) {
            Some(i) => match &mut self.entities[i].inventory {
                Some(inv) => {
                    if inv.contents.len() == 0 {
                        return None;
                    }
                    let item = inv.contents.pop();
                    proof {
                        assert(inventories(self.records()) =~= inventories(before).update(
                            i as int,
                            Some(contents_of(before[i as int])->0.drop_last()),
                        ));
                    }
                    item
                },
                None => None,
            },
            None => None,
        }
    }

    /// Removes the first occurrence of `item` from the entity's inventory,
    /// keeping the order of the rest; false where it is not there.
    pub fn remove_item(&mut self, owner: Entity, item: Entity) -> (r: bool)
        ensures
            r == (old(self).holds(owner) && contents_of(old(self).record(owner)) is Some
                && contents_of(old(self).record(owner))->0.contains(item)),
            r ==> contents_changed(
                old(self).records(),
                final(self).records(),
                inventories(old(self).records()).update(
                    owner.id as int,
                    Some(
                        contents_of(old(self).record(owner))->0.remove(
                            first_index(contents_of(old(self).record(owner))->0, item),
                        ),
                    ),
                ),
            ),
            !r ==> final(self).records() == old(self).records(),
    {
        let ghost before = self.records();
        match self.index_of(owner) {
            Some(i) => match &mut self.entities[i].inventory {
                Some(inv) => match position_in(&inv.contents, item) {
                    Some(k) => {
                        inv.contents.remove(k);
                        proof {
                            assert(inventories(self.records()) =~= inventories(before).update(
                                i as int,
                                Some(
                                    contents_of(before[i as int])->0.remove(
                                        first_index(contents_of(before[i as int])->0, item),
                                    ),
                                ),
                            ));
                        }
                        true
                    },
                    None => false,
                },
                None => false,
            },
            None => false,
        }
    }

    /// Removes the first occurrence of `item` from the entity's inventory,
    /// the last item taking its place; false where it is not there.
    pub fn swap_remove_item(&mut self, owner: Entity, item: Entity) -> (r: bool)
        ensures
            r == (old(self).holds(owner) && contents_of(old(self).record(owner)) is Some
                && contents_of(old(self).record(owner))->0.contains(item)),
            r ==> contents_changed(
                old(self).records(),
                final(self).records(),
                inventories(old(self).records()).update(
                    owner.id as int,
                    Some(
                        swap_removed(
                            contents_of(old(self).record(owner))->0,
                            first_index(contents_of(old(self).record(owner))->0, item),
                        ),
                    ),
                ),
            ),
            !r ==> final(self).records() == old(self).records(),
    {
        let ghost before = self.records();
        match self.index_of(owner) {
            Some(i) => match &mut self.entities[i].inventory {
                Some(inv) => match position_in(&inv.contents, item) {
                    Some(k) => {
                        inv.contents.swap_remove(k);
                        proof {
                            assert(inventories(self.records()) =~= inventories(before).update(
                                i as int,
                                Some(
                                    swap_removed(
                                        contents_of(before[i as int])->0,
                                        first_index(contents_of(before[i as int])->0, item),
                                    ),
                                ),
                            ));
                        }
                        true
                    },
                    None => false,
                },
                None => false,
            },
            None => false,
        }
    }

    /// The entities with a priority, with their values, in the order of
    /// creation.
    pub fn priorities(&self) -> (r: Vec<(u8, Entity)>)
        ensures
            r@ == priority_entries(self.records()),
    {
        let mut out: Vec<(u8, Entity)> = Vec::new();
        let mut i: usize = 0;
        while i < self.entities.len()
            invariant
                i <= self.records().len(),
                out@ == priority_entries(self.records().subrange(0, i as int)),
            decreases self.records().len() - i,
        {
            let ghost prefix = self.records().subrange(0, i as int + 1);
            assert(prefix.drop_last() =~= self.records().subrange(0, i as int));
            if let Some(p) = self.entities[i].priority {
                out.push((p.value, Entity { id: i as u64 }));
            }
            i = i + 1;
        }
        assert(self.records().subrange(0, i as int) =~= self.records());
        out
    }
}

/// The index of the first occurrence of `x` in `v`.
pub fn position_in(v: &Vec<Entity>, x: Entity) -> (r: Option<usize>)
    ensures
        r is Some == v@.contains(x),
        r is Some ==> r->0 < v@.len() && r->0 as int == first_index(v@, x)
            && is_first_index(v@, x, r->0 as int),
{
    let mut i: usize = 0;
    while i < v.len()
        invariant
            i <= v@.len(),
            forall|j: int| 0 <= j < i ==> #[trigger] v@[j] != x,
        decreases v@.len() - i,
    {
        if v[i] == x {
            proof {
                lemma_first_index(v@, x, i as int);
            }
            return Some(i);
        }
        i = i + 1;
    }
    None
}

} // verus!
