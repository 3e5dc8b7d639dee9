use vstd::prelude::*;

use crate::Entity;
use crate::action_queue::ActionQueue;
use crate::component::{
    ActiveTurn, DisplayCabinet, Inventory, Name, Player, Position, Priority, TileBlocker,
    Tradeable, TurnState,
};
use crate::map::{cell, clamped, occupant, on_grid, GridMap, TileType};
use crate::message::{is_log, Action, Message};
use crate::message_queue::MessageQueue;
use crate::trade_handler::{Trade, TradeHandler, TradeRequest, TradeState};
use crate::trade_system::{trade_effects, trade_system, with_request, TradeWorld};
use crate::transaction_system::{
    apply_transactions, transaction_count, transaction_log_text, transaction_system,
};
use crate::turn_system::{
    lemma_turn_step_single_holder, turn_step, turn_system, with_turn, PendingMoves,
};
use crate::world::{
    contents_changed, contents_of, first_index, first_match, has_priority, inventories,
    at_most_one_turn, lemma_inventories, lemma_retouch_turn, lemma_same_priorities, lemma_same_turns, same_but_contents, same_priorities, same_turns, EntityRecord, Query, World,
};

verus! {

/// The priority that the player starts with.
pub const PLAYER_PRIORITY: u8 = 1;

/// How many items a fresh inventory can hold.
pub const INVENTORY_CAPACITY: u8 = 10;

/// The life cycle of a server.
#[derive(Clone, Copy, Debug, PartialEq, Eq, Structural)]
pub enum RunState {
    /// The world has not been populated yet.
    Initializing,
    /// The systems run once per tick.
    Running,
}

/// The inventories after the player takes the last item of `container`, or
/// `None` where either has no inventory or the container is empty.
pub open spec fn take_into(inv: Seq<Option<Seq<Entity>>>, player: Entity, container: Entity) -> Option<
    Seq<Option<Seq<Entity>>>,
> {
    if player.id < inv.len() && container.id < inv.len() && inv[player.id as int] is Some
        && inv[container.id as int] is Some && inv[container.id as int]->0.len() > 0 {
        let item = inv[container.id as int]->0.last();
        let popped = inv.update(container.id as int, Some(inv[container.id as int]->0.drop_last()));
        Some(popped.update(player.id as int, Some(popped[player.id as int]->0.push(item))))
    } else {
        None
    }
}

/// The inventories after the player puts `item` into `container`, or
/// `None` where either has no inventory or the player does not hold the
/// item.
pub open spec fn put_into(
    inv: Seq<Option<Seq<Entity>>>,
    player: Entity,
    container: Entity,
    item: Entity,
) -> Option<Seq<Option<Seq<Entity>>>> {
    if player.id < inv.len() && container.id < inv.len() && inv[player.id as int] is Some
        && inv[container.id as int] is Some && inv[player.id as int]->0.contains(item) {
        let held = inv[player.id as int]->0;
        let removed = inv.update(player.id as int, Some(held.remove(first_index(held, item))));
        Some(removed.update(container.id as int, Some(removed[container.id as int]->0.push(item))))
    } else {
        None
    }
}

/// A record with none of the components that the systems act on.
pub open spec fn is_bare(r: EntityRecord) -> bool {
    &&& r.inventory is None
    &&& r.tradeable is None
    &&& r.active_turn is None
    &&& r.priority is None
    &&& r.player is None
    &&& r.display_cabinet is None
    &&& r.tile_blocker is None
}

/// A display cabinet at `at`, holding `contents`.
pub open spec fn is_cabinet(r: EntityRecord, at: Position, contents: Seq<Entity>) -> bool {
    &&& r.position == Some(at)
    &&& r.display_cabinet is Some
    &&& r.tradeable == Some(Tradeable { request: None })
    &&& r.tile_blocker is Some
    &&& contents_of(r) == Some(contents)
    &&& r.active_turn is None
    &&& r.priority is None
    &&& r.player is None
}

/// The starting world: the player at `start` carrying entity 5; three
/// display cabinets to the right of it, the first holding entity 4; and the
/// two items 4 and 5, which stand nowhere.
pub open spec fn is_starting_world(s: Seq<EntityRecord>, start: Position) -> bool {
    &&& s.len() == 6
    &&& s[0].player is Some
    &&& s[0].position == Some(start)
    &&& s[0].priority == Some(Priority { value: PLAYER_PRIORITY })
    &&& s[0].tradeable == Some(Tradeable { request: None })
    &&& s[0].tile_blocker is Some
    &&& contents_of(s[0]) == Some(seq![Entity { id: 5 }])
    &&& s[0].active_turn is None
    &&& s[0].display_cabinet is None
    &&& is_cabinet(s[1], Position { x: (start.x + 1) as i32, y: start.y }, seq![Entity { id: 4 }])
    &&& is_cabinet(s[2], Position { x: (start.x + 1) as i32, y: (start.y + 1) as i32 }, Seq::empty())
    &&& is_cabinet(s[3], Position { x: (start.x + 1) as i32, y: (start.y + 2) as i32 }, Seq::empty())
    &&& is_bare(s[4]) && s[4].position is None && s[4].name is Some
    &&& is_bare(s[5]) && s[5].position is None && s[5].name is Some
}

/// The world, resources and run state of one simulation.
pub struct Server {
    world: World,
    map: GridMap,
    start: Position,
    run_state: RunState,
    pending: PendingMoves,
    messages: MessageQueue,
    actions: ActionQueue,
    trades: TradeHandler,
}

/// One tick of a running server, from `s` to `f` with result `r`, through
/// the world `w1` and message queue `m1` that the transaction system leaves.
pub open spec fn running_tick(
    s: Server,
    w1: Seq<EntityRecord>,
    m1: Seq<Message>,
    f: Server,
    r: Seq<Message>,
) -> bool {
    let current = s.actions().current();
    let queued = s.messages().messages();
    let (outcome, w2, pending) = turn_step(w1, s.pending().queue());
    let (active, finished, w3, published, staged) = trade_effects(
        (s.trades().active(), s.trades().finished(), w2, m1, s.actions().staged()),
        current,
    );
    &&& contents_changed(
        s.world().records(),
        w1,
        apply_transactions(inventories(s.world().records()), current),
    )
    &&& m1.len() == queued.len() + transaction_count(current)
    &&& m1.subrange(0, queued.len() as int) == queued
    &&& forall|i: int|
        queued.len() <= i < m1.len() ==> is_log(#[trigger] m1[i], transaction_log_text())
    &&& f.map().width() == s.map().width()
    &&& f.map().height() == s.map().height()
    &&& f.map().tiles() == s.map().tiles()
    &&& f.map().blocked() == s.map().blocked()
    &&& forall|c: int|
        0 <= c < f.map().contents().len() ==> #[trigger] f.map().contents()[c] == occupant(
            w1,
            s.map().width(),
            s.map().height(),
            c,
        )
    &&& f.pending().queue() == pending
    &&& f.trades().active() == active
    &&& f.trades().finished() == finished
    &&& f.trades().next_id() == s.trades().next_id()
    &&& f.world().records() == w3
    &&& r == published
    &&& f.messages().messages() == Seq::<Message>::empty()
    &&& f.actions().current() == staged
    &&& f.actions().staged() == Seq::<Action>::empty()
    &&& f.run_state() == RunState::Running
    &&& f.start() == s.start()
}

impl Server {
    pub closed spec fn world(&self) -> World {
        self.world
    }

    pub closed spec fn map(&self) -> GridMap {
        self.map
    }

    pub closed spec fn start(&self) -> Position {
        self.start
    }

    pub closed spec fn run_state(&self) -> RunState {
        self.run_state
    }

    pub closed spec fn pending(&self) -> PendingMoves {
        self.pending
    }

    pub closed spec fn messages(&self) -> MessageQueue {
        self.messages
    }

    pub closed spec fn actions(&self) -> ActionQueue {
        self.actions
    }

    pub closed spec fn trades(&self) -> TradeHandler {
        self.trades
    }

    /// The resources are well formed; a server that is not running has an
    /// empty world; a running one has an entity that can take a turn; at most
    /// one entity holds the turn.
    pub open spec fn wf(&self) -> bool {
        &&& self.map().wf()
        &&& self.trades().wf()
        &&& on_grid(
            self.map().width(),
            self.map().height(),
            self.start().x as int,
            self.start().y as int,
        )
        &&& self.run_state() == RunState::Initializing ==> self.world().records().len() == 0
        &&& self.run_state() == RunState::Running ==> has_priority(self.world().records())
        &&& at_most_one_turn(self.world().records())
    }

    /// A server on an 8 by 8 floor, with the player to start at (1, 1).
    pub fn new() -> (r: Self)
        ensures
            r.wf(),
            r.run_state() == RunState::Initializing,
            r.map().width() == 8,
            r.map().height() == 8,
            r.start() == (Position { x: 1, y: 1 }),
            r.world().records() == Seq::<EntityRecord>::empty(),
            r.pending().queue() == Seq::<Entity>::empty(),
            r.messages().messages() == Seq::<Message>::empty(),
            r.actions().current() == Seq::<Action>::empty(),
            r.actions().staged() == Seq::<Action>::empty(),
            r.trades().next_id() == 0,
            r.trades().active() == Map::<u64, Trade>::empty(),
            r.trades().finished() == Map::<u64, Trade>::empty(),
    {
        Self::with_map(GridMap::new(8, 8), Position { x: 1, y: 1 })
    }

    /// A server on `map`, with the player to start at `start`.
    pub fn with_map(map: GridMap, start: Position) -> (r: Self)
        requires
            map.wf(),
            on_grid(map.width(), map.height(), start.x as int, start.y as int),
        ensures
            r.wf(),
            r.run_state() == RunState::Initializing,
            r.map() == map,
            r.start() == start,
            r.world().records() == Seq::<EntityRecord>::empty(),
            r.pending().queue() == Seq::<Entity>::empty(),
            r.messages().messages() == Seq::<Message>::empty(),
            r.actions().current() == Seq::<Action>::empty(),
            r.actions().staged() == Seq::<Action>::empty(),
            r.trades().next_id() == 0,
            r.trades().active() == Map::<u64, Trade>::empty(),
            r.trades().finished() == Map::<u64, Trade>::empty(),
    {
        Server {
            world: World::new(),
            map,
            start,
            run_state: RunState::Initializing,
            pending: PendingMoves::new(),
            messages: MessageQueue::new(),
            actions: ActionQueue::new(),
            trades: TradeHandler::new(),
        }
    }

    /// Populates the empty world: the player, three display cabinets, and
    /// two items, one held by the player and one by the first cabinet.
    fn insert_entities(&mut self)
        requires
            old(self).world().records().len() == 0,
            on_grid(
                old(self).map().width(),
                old(self).map().height(),
                old(self).start().x as int,
                old(self).start().y as int,
            ),
            old(self).map().width() <= 255,
            old(self).map().height() <= 255,
        ensures
            is_starting_world(final(self).world().records(), old(self).start()),
            final(self).map() == old(self).map(),
            final(self).start() == old(self).start(),
            final(self).run_state() == old(self).run_state(),
            final(self).pending() == old(self).pending(),
            final(self).messages() == old(self).messages(),
            final(self).actions() == old(self).actions(),
            final(self).trades() == old(self).trades(),
    {
        let start = self.start;
        let player = self.world.spawn(
            EntityRecord {
                position: Some(start),
                name: Some(Name { name: "player".to_string() }),
                inventory: Some(Inventory { contents: Vec::new(), capacity: INVENTORY_CAPACITY }),
                tradeable: Some(Tradeable { request: None }),
                active_turn: None,
                priority: Some(Priority { value: PLAYER_PRIORITY }),
                player: Some(Player),
                display_cabinet: None,
                tile_blocker: Some(TileBlocker),
            },
        );
        let cabinet = self.world.spawn(cabinet_record(Position { x: (start.x + 1) as i32, y: start.y }));
        self.world.spawn(cabinet_record(Position { x: (start.x + 1) as i32, y: (start.y + 1) as i32 }));
        self.world.spawn(cabinet_record(Position { x: (start.x + 1) as i32, y: (start.y + 2) as i32 }));
        let love = self.world.spawn(item_record("love".to_string()));
        let trinket = self.world.spawn(item_record("trinket".to_string()));
        let ghost spawned = self.world.records();
        proof {
            lemma_inventories(spawned);
        }
        let put_love = self.world.push_item(cabinet, love);
        let ghost filled = self.world.records();
        proof {
            lemma_inventories(filled);
            assert(put_love && same_but_contents(spawned[0], filled[0]));
            assert(inventories(filled)[0] == inventories(spawned)[0]);
        }
        let put_trinket = self.world.push_item(player, trinket);
        proof {
            let s = self.world.records();
            lemma_inventories(s);
            assert(put_trinket);
            assert(same_but_contents(spawned[4], filled[4]) && same_but_contents(filled[4], s[4]));
            assert(same_but_contents(spawned[5], filled[5]) && same_but_contents(filled[5], s[5]));
            assert(seq![Entity { id: 4 }] =~= Seq::<Entity>::empty().push(Entity { id: 4 }));
            assert(seq![Entity { id: 5 }] =~= Seq::<Entity>::empty().push(Entity { id: 5 }));
            assert(inventories(s)[0] == Some(seq![Entity { id: 5 }]));
            assert(inventories(s)[1] == inventories(filled)[1]);
            assert(inventories(filled)[2] == inventories(spawned)[2]);
            assert(inventories(filled)[3] == inventories(spawned)[3]);
            assert(inventories(s)[2] == inventories(filled)[2]);
            assert(inventories(s)[3] == inventories(filled)[3]);
        }
    }

    /// Advances the simulation by one tick and returns the events it
    /// published, oldest first. The first tick populates the world and
    /// returns nothing. Each later tick runs, in this order, the transaction
    /// system, the refresh of the occupant index, the turn scheduler and the
    /// trade system; then the actions staged during the tick become the
    /// current ones, and the event queue is drained.
    pub fn tick(&mut self) -> (r: Vec<Message>)
        requires
            old(self).wf(),
        ensures
            final(self).wf(),
            old(self).run_state() == RunState::Initializing ==> {
                &&& r@ == Seq::<Message>::empty()
                &&& final(self).run_state() == RunState::Running
                &&& is_starting_world(final(self).world().records(), old(self).start())
                &&& final(self).map().width() == old(self).map().width()
                &&& final(self).map().height() == old(self).map().height()
                &&& final(self).map().tiles() == old(self).map().tiles()
                &&& final(self).map().contents() == old(self).map().contents()
                &&& forall|c: int|
                    0 <= c < final(self).map().blocked().len() ==> #[trigger] final(self).map().blocked()[c] == (old(self).map().tiles()[c] == TileType::Wall)
                &&& final(self).pending() == old(self).pending()
                &&& final(self).messages() == old(self).messages()
                &&& final(self).actions() == old(self).actions()
                &&& final(self).trades() == old(self).trades()
                &&& final(self).start() == old(self).start()
            },
            old(self).run_state() == RunState::Running ==> exists|
                w1: Seq<EntityRecord>,
                m1: Seq<Message>,
            | #[trigger] running_tick(*old(self), w1, m1, *final(self), r@),
    {
        match self.run_state {
            RunState::Initializing => {
                self.map.refresh_blocked();
                self.insert_entities();
                self.run_state = RunState::Running;
                proof {
                    let s = self.world.records();
                    assert(s[0].priority is Some);
                    assert(has_priority(s));
                    assert forall|i: int, j: int|
                        0 <= i < s.len() && 0 <= j < s.len() && (#[trigger] s[i]).active_turn is Some
                            && (#[trigger] s[j]).active_turn is Some implies i == j by {
                        assert(s[i].active_turn is None);
                    }
                }
                Vec::new()
            },
            RunState::Running => {
                let ghost s0 = *self;
                transaction_system(&mut self.world, &mut self.messages, &self.actions);
                let ghost w1 = self.world.records();
                let ghost m1 = self.messages.messages();
                proof {
                    assert(same_priorities(s0.world().records(), w1));
                    lemma_same_priorities(s0.world().records(), w1);
                    assert(same_turns(s0.world().records(), w1));
                    lemma_same_turns(s0.world().records(), w1);
                    self.world.lemma_ids_fit();
                    lemma_occupants_unchanged(s0.world().records(), w1, self.map.width(), self.map.height());
                }
                self.map.refresh_index(&self.world);
                turn_system(&mut self.world, &mut self.pending);
                proof {
                    lemma_turn_keeps_priorities(w1, s0.pending().queue());
                    lemma_turn_step_single_holder(w1, s0.pending().queue());
                    let w2 = self.world.records();
                    lemma_same_priorities(w1, w2);
                }
                let ghost w2 = self.world.records();
                trade_system(&mut self.world, &mut self.trades, &mut self.messages, &mut self.actions);
                proof {
                    lemma_trades_keep_priorities(
                        (s0.trades().active(), s0.trades().finished(), w2, m1, s0.actions().staged()),
                        s0.actions().current(),
                    );
                    lemma_same_priorities(w2, self.world.records());
                    lemma_same_turns(w2, self.world.records());
                }
                self.actions.step();
                let messages = self.messages.get_messages();
                self.messages.clear();
                proof {
                    assert(running_tick(s0, w1, m1, *self, messages@));
                }
                messages
            },
        }
    }

    /// The first entity tagged `Player` that has a position.
    pub fn get_player(&self) -> (r: Option<Entity>)
        ensures
            r == first_match(self.world().records(), Query::Player),
    {
        self.world.find_first(Query::Player)
    }

    /// The first tradeable display cabinet.
    pub fn get_tradeable(&self) -> (r: Option<Entity>)
        ensures
            r == first_match(self.world().records(), Query::CabinetTradeable),
    {
        self.world.find_first(Query::CabinetTradeable)
    }

    /// The items of the first entity tagged `Player` that has an inventory.
    pub fn get_player_inventory(&self) -> (r: Option<Vec<Entity>>)
        ensures
            r is Some == (first_match(self.world().records(), Query::PlayerInventory) is Some),
            r is Some ==> Some(r->0@) == contents_of(
                self.world().record(first_match(self.world().records(), Query::PlayerInventory)->0),
            ),
    {
        match self.world.find_first(Query::PlayerInventory) {
            Some(holder) => self.world.get_inventory(holder),
            None => None,
        }
    }

    /// The items that an entity holds.
    pub fn get_inventory(&self, e: Entity) -> (r: Option<Vec<Entity>>)
        ensures
            r is Some == (self.world().holds(e) && contents_of(self.world().record(e)) is Some),
            r is Some ==> Some(r->0@) == contents_of(self.world().record(e)),
    {
        self.world.get_inventory(e)
    }

    /// The component store.
    pub fn world_ref(&self) -> (r: &World)
        ensures
            *r == self.world(),
    {
        &self.world
    }

    /// The map.
    pub fn map_ref(&self) -> (r: &GridMap)
        ensures
            *r == self.map(),
    {
        &self.map
    }

    /// The negotiations.
    pub fn trade_handler(&self) -> (r: &TradeHandler)
        ensures
            *r == self.trades(),
    {
        &self.trades
    }

    /// Whether the world has been populated.
    pub fn is_running(&self) -> (r: bool)
        ensures
            r == (self.run_state() == RunState::Running),
    {
        match self.run_state {
            RunState::Running => true,
            RunState::Initializing => false,
        }
    }

    /// Moves the item `item` from the player's inventory to `container`'s.
    /// False, with nothing changed, where there is no player, either has no
    /// inventory, or the player does not hold the item.
    pub fn try_player_put(&mut self, container: Entity, item: Entity) -> (r: bool)
        requires
            old(self).wf(),
        ensures
            final(self).wf(),
            ({
                let player = first_match(old(self).world().records(), Query::Player);
                let inv = inventories(old(self).world().records());
                &&& r == (player is Some && put_into(inv, player->0, container, item) is Some)
                &&& r ==> contents_changed(
                    old(self).world().records(),
                    final(self).world().records(),
                    put_into(inv, player->0, container, item)->0,
                )
                &&& !r ==> final(self).world().records() == old(self).world().records()
            }),
            final(self).map() == old(self).map(),
            final(self).start() == old(self).start(),
            final(self).run_state() == old(self).run_state(),
            final(self).pending() == old(self).pending(),
            final(self).messages() == old(self).messages(),
            final(self).actions() == old(self).actions(),
            final(self).trades() == old(self).trades(),
    {
        let player = match self.world.find_first(Query::Player) {
            Some(p) => p,
            None => return false,
        };
        if !self.world.has_inventory(container) {
            assert(container.id >= inventories(self.world.records()).len() || inventories(
                self.world.records(),
            )[container.id as int] is None);
            return false;
        }
        let ghost before = self.world.records();
        if !self.world.remove_item(player, item) {
            assert(inventories(before)[player.id as int] is None || !inventories(
                before,
            )[player.id as int]->0.contains(item));
            return false;
        }
        let ghost mid = self.world.records();
        let pushed = self.world.push_item(container, item);
        proof {
            assert(pushed);
            let after = self.world.records();
            assert forall|k: int| 0 <= k < before.len() implies crate::world::same_but_contents(
                #[trigger] before[k],
                after[k],
            ) by {
                assert(crate::world::same_but_contents(before[k], mid[k]));
                assert(crate::world::same_but_contents(mid[k], after[k]));
            }
            assert(same_priorities(before, after));
            lemma_same_priorities(before, after);
            assert(same_turns(before, after));
            lemma_same_turns(before, after);
        }
        true
    }

    /// Moves the last item of `container`'s inventory into the player's.
    /// False, with nothing changed, where there is no player, either has no
    /// inventory, or the container is empty.
    pub fn try_player_take(&mut self, container: Entity) -> (r: bool)
        requires
            old(self).wf(),
        ensures
            final(self).wf(),
            ({
                let player = first_match(old(self).world().records(), Query::Player);
                let inv = inventories(old(self).world().records());
                &&& r == (player is Some && take_into(inv, player->0, container) is Some)
                &&& r ==> contents_changed(
                    old(self).world().records(),
                    final(self).world().records(),
                    take_into(inv, player->0, container)->0,
                )
                &&& !r ==> final(self).world().records() == old(self).world().records()
            }),
            final(self).map() == old(self).map(),
            final(self).start() == old(self).start(),
            final(self).run_state() == old(self).run_state(),
            final(self).pending() == old(self).pending(),
            final(self).messages() == old(self).messages(),
            final(self).actions() == old(self).actions(),
            final(self).trades() == old(self).trades(),
    {
        let player = match self.world.find_first(Query::Player) {
            Some(p) => p,
            None => return false,
        };
        if !self.world.has_inventory(player) {
            assert(inventories(self.world.records())[player.id as int] is None);
            return false;
        }
        let ghost before = self.world.records();
        let item = match self.world.pop_item(container) {
            Some(i) => i,
            None => {
                assert(container.id >= inventories(before).len() || inventories(before)[container.id as int] is None
                    || inventories(before)[container.id as int]->0.len() == 0);
                return false;
            },
        };
        let ghost mid = self.world.records();
        let pushed = self.world.push_item(player, item);
        proof {
            assert(pushed);
            let after = self.world.records();
            assert forall|k: int| 0 <= k < before.len() implies crate::world::same_but_contents(
                #[trigger] before[k],
                after[k],
            ) by {
                assert(crate::world::same_but_contents(before[k], mid[k]));
                assert(crate::world::same_but_contents(mid[k], after[k]));
            }
            assert(same_priorities(before, after));
            lemma_same_priorities(before, after);
            assert(same_turns(before, after));
            lemma_same_turns(before, after);
        }
        true
    }

    /// Moves the player that holds the turn by (dx, dy), clamped to the
    /// map, where the cell reached is neither blocked nor occupied; whether
    /// it moved or not, its turn is then `DONE`. False, with nothing
    /// changed, before the server runs or where no player holds the turn.
    pub fn try_move_player(&mut self, delta_x: i32, delta_y: i32) -> (r: bool)
        requires
            old(self).wf(),
        ensures
            final(self).wf(),
            ({
                let records = old(self).world().records();
                let player = first_match(records, Query::PlayerOnTurn);
                if old(self).run_state() != RunState::Running || player is None {
                    &&& !r
                    &&& final(self).world() == old(self).world()
                } else {
                    let p = player->0;
                    let at = records[p.id as int].position->0;
                    let x = clamped(at.x as int, delta_x as int, old(self).map().width());
                    let y = clamped(at.y as int, delta_y as int, old(self).map().height());
                    let c = cell(old(self).map().width(), x, y);
                    let moved = if r {
                        records.update(
                            p.id as int,
                            EntityRecord {
                                position: Some(Position { x: x as i32, y: y as i32 }),
                                ..records[p.id as int]
                            },
                        )
                    } else {
                        records
                    };
                    &&& r == (old(self).map().contents()[c] is None && !old(self).map().blocked()[c])
                    &&& final(self).world().records() == with_turn(
                        moved,
                        p,
                        Some(ActiveTurn { state: TurnState::DONE }),
                    )
                }
            }),
            final(self).map() == old(self).map(),
            final(self).start() == old(self).start(),
            final(self).run_state() == old(self).run_state(),
            final(self).pending() == old(self).pending(),
            final(self).messages() == old(self).messages(),
            final(self).actions() == old(self).actions(),
            final(self).trades() == old(self).trades(),
    {
        if !self.is_running() {
            return false;
        }
        let player = match self.world.find_first(Query::PlayerOnTurn) {
            Some(p) => p,
            None => return false,
        };
        let ghost before = self.world.records();
        let at = match self.world.get_position(player) {
            Some(p) => p,
            None => return false,
        };
        let (x, y) = self.map.clamp_move(at.x, at.y, delta_x, delta_y);
        let free = self.map.is_free(x, y);
        if free {
            self.world.set_position(player, Position { x: x as i32, y: y as i32 });
        }
        let ghost moved = self.world.records();
        proof {
            assert(same_turns(before, moved));
            lemma_same_turns(before, moved);
        }
        self.world.set_active_turn(player, Some(ActiveTurn { state: TurnState::DONE }));
        proof {
            let after = self.world.records();
            assert(same_priorities(before, after));
            lemma_same_priorities(before, after);
            lemma_retouch_turn(moved, player.id as int, ActiveTurn { state: TurnState::DONE });
        }
        free
    }

    /// Opens a negotiation in which the first tradeable display cabinet
    /// buys the first item of the player's inventory from the player, the
    /// cabinet having spoken last. Both parties record the request, and the
    /// trade is published at once. `None`, with nothing changed, where a
    /// party or the item is missing or no request id is left.
    pub fn try_start_trade(&mut self) -> (r: Option<TradeRequest>)
        requires
            old(self).wf(),
        ensures
            final(self).wf(),
            ({
                let records = old(self).world().records();
                let buyer = first_match(records, Query::CabinetTradeable);
                let seller = first_match(records, Query::Player);
                let holder = first_match(records, Query::PlayerInventory);
                let ok = buyer is Some && seller is Some && holder is Some && contents_of(
                    records[holder->0.id as int],
                )->0.len() > 0 && old(self).trades().next_id() < u64::MAX;
                let request = TradeRequest { id: old(self).trades().next_id() };
                let trade = Trade {
                    request,
                    target: contents_of(records[holder->0.id as int])->0[0],
                    buyer: buyer->0,
                    seller: seller->0,
                    last_response: buyer->0,
                    trade_state: TradeState::Pending,
                };
                if ok {
                    &&& r == Some(request)
                    &&& final(self).trades().next_id() == old(self).trades().next_id() + 1
                    &&& final(self).trades().active() == old(self).trades().active().insert(
                        request.id,
                        trade,
                    )
                    &&& final(self).trades().finished() == old(self).trades().finished()
                    &&& final(self).world().records() == with_request(
                        with_request(records, buyer->0, Some(request)),
                        seller->0,
                        Some(request),
                    )
                    &&& final(self).messages().messages() == old(self).messages().messages().push(
                        Message::TradeEvent(trade),
                    )
                } else {
                    &&& r is None
                    &&& final(self).trades() == old(self).trades()
                    &&& final(self).world() == old(self).world()
                    &&& final(self).messages() == old(self).messages()
                }
            }),
            final(self).map() == old(self).map(),
            final(self).start() == old(self).start(),
            final(self).run_state() == old(self).run_state(),
            final(self).pending() == old(self).pending(),
            final(self).actions() == old(self).actions(),
    {
        let buyer = match self.world.find_first(Query::CabinetTradeable) {
            Some(b) => b,
            None => return None,
        };
        let seller = match self.world.find_first(Query::Player) {
            Some(s) => s,
            None => return None,
        };
        let items = match self.get_player_inventory() {
            Some(items) => items,
            None => return None,
        };
        if items.len() == 0 || !self.trades.can_start() {
            return None;
        }
        let target = items[0];
        let ghost before = self.world.records();
        let request = self.trades.start(target, buyer, seller, buyer);
        self.world.set_request(buyer, Some(request));
        self.world.set_request(seller, Some(request));
        proof {
            let after = self.world.records();
            assert(same_priorities(before, after));
            lemma_same_priorities(before, after);
            assert(same_turns(before, after));
            lemma_same_turns(before, after);
        }
        match self.trades.get_trade(request) {
            Some(trade) => self.messages.push(Message::TradeEvent(trade)),
            None => {},
        }
        Some(request)
    }

    /// Queues an action for the next tick's systems.
    pub fn add_action(&mut self, action: Action)
        requires
            old(self).wf(),
        ensures
            final(self).wf(),
            final(self).actions().current() == old(self).actions().current().push(action),
            final(self).actions().staged() == old(self).actions().staged(),
            final(self).world() == old(self).world(),
            final(self).map() == old(self).map(),
            final(self).start() == old(self).start(),
            final(self).run_state() == old(self).run_state(),
            final(self).pending() == old(self).pending(),
            final(self).messages() == old(self).messages(),
            final(self).trades() == old(self).trades(),
    {
        self.actions.push(action)
    }
}

fn cabinet_record(at: Position) -> (r: EntityRecord)
    ensures
        is_cabinet(r, at, Seq::empty()),
{
    EntityRecord {
        position: Some(at),
        name: Some(Name { name: "display".to_string() }),
        inventory: Some(Inventory { contents: Vec::new(), capacity: INVENTORY_CAPACITY }),
        tradeable: Some(Tradeable { request: None }),
        active_turn: None,
        priority: None,
        player: None,
        display_cabinet: Some(DisplayCabinet),
        tile_blocker: Some(TileBlocker),
    }
}

fn item_record(name: String) -> (r: EntityRecord)
    ensures
        is_bare(r),
        r.position is None,
        r.name is Some,
{
    EntityRecord {
        position: None,
        name: Some(Name { name }),
        inventory: None,
        tradeable: None,
        active_turn: None,
        priority: None,
        player: None,
        display_cabinet: None,
        tile_blocker: None,
    }
}

/// Moving items between inventories leaves every cell's occupant as it was.
proof fn lemma_occupants_unchanged(a: Seq<EntityRecord>, b: Seq<EntityRecord>, width: int, height: int)
    requires
        a.len() == b.len(),
        forall|i: int| 0 <= i < a.len() ==> crate::world::same_but_contents(#[trigger] a[i], b[i]),
    ensures
        forall|c: int| #[trigger] occupant(a, width, height, c) == occupant(b, width, height, c),
    decreases a.len(),
{
    if a.len() > 0 {
        let (a1, b1) = (a.drop_last(), b.drop_last());
        assert forall|i: int| 0 <= i < a1.len() implies crate::world::same_but_contents(
            #[trigger] a1[i],
            b1[i],
        ) by {
            assert(a1[i] == a[i] && b1[i] == b[i]);
        }
        lemma_occupants_unchanged(a1, b1, width, height);
        assert(crate::world::same_but_contents(a.last(), b.last()));
        assert forall|c: int| #[trigger] occupant(a, width, height, c) == occupant(
            b,
            width,
            height,
            c,
        ) by {
            assert(occupant(a1, width, height, c) == occupant(b1, width, height, c));
        }
    }
}

/// The scheduler changes no priority.
proof fn lemma_turn_keeps_priorities(records: Seq<EntityRecord>, pending: Seq<Entity>)
    ensures
        same_priorities(records, turn_step(records, pending).1),
{
}

/// The trade system changes no priority and no turn.
proof fn lemma_trades_keep_priorities(s: TradeWorld, actions: Seq<Action>)
    ensures
        same_priorities(s.2, trade_effects(s, actions).2),
        same_turns(s.2, trade_effects(s, actions).2),
    decreases actions.len(),
{
    if actions.len() > 0 {
        lemma_trades_keep_priorities(s, actions.drop_last());
    }
}

} // verus!
