use shop_core::action_queue::ActionQueue;
use shop_core::component::{
    ActiveTurn, DisplayCabinet, Inventory, Player, Position, Priority, TileBlocker, Tradeable,
    TurnState,
};
use shop_core::map::{GridMap, TileType};
use shop_core::message::{Action, Message};
use shop_core::message_queue::MessageQueue;
use shop_core::trade_handler::{TradeHandler, TradeMessage, TradeState};
use shop_core::trade_system::trade_system;
use shop_core::tracker::EntityTracker;
use shop_core::transaction_system::transaction_system;
use shop_core::turn_system::{order_by_priority, turn_system, PendingMoves, TurnOutcome};
use shop_core::world::{position_in, EntityRecord, Query, World};
use shop_core::Entity;

fn bare() -> EntityRecord {
    EntityRecord {
        position: None,
        name: None,
        inventory: None,
        tradeable: None,
        active_turn: None,
        priority: None,
        player: None,
        display_cabinet: None,
        tile_blocker: None,
    }
}

fn with_priority(value: u8) -> EntityRecord {
    EntityRecord { priority: Some(Priority { value }), ..bare() }
}

fn holder(items: Vec<Entity>) -> EntityRecord {
    EntityRecord {
        inventory: Some(Inventory { contents: items, capacity: 10 }),
        tradeable: Some(Tradeable { request: None }),
        ..bare()
    }
}

fn e(id: u64) -> Entity {
    Entity { id }
}

fn finish_turn(world: &mut World, who: Entity) {
    world.set_active_turn(who, Some(ActiveTurn { state: TurnState::DONE }));
}

#[test]
fn turns_go_by_descending_priority_then_rebuild() {
    let mut world = World::new();
    let a = world.spawn(with_priority(5));
    let b = world.spawn(with_priority(1));
    let c = world.spawn(with_priority(9));
    let mut pending = PendingMoves::new();
    let mut order = Vec::new();
    for _ in 0..3 {
        match turn_system(&mut world, &mut pending) {
            TurnOutcome::Granted(next) => {
                assert_eq!(world.get_active_turn(next), Some(ActiveTurn { state: TurnState::PENDING }));
                order.push(next);
                finish_turn(&mut world, next);
            }
            other => panic!("unexpected {:?}", other),
        }
    }
    assert_eq!(order, vec![c, a, b]);
    let d = world.spawn(with_priority(7));
    let mut again = Vec::new();
    for _ in 0..4 {
        match turn_system(&mut world, &mut pending) {
            TurnOutcome::Granted(next) => {
                again.push(next);
                finish_turn(&mut world, next);
            }
            other => panic!("unexpected {:?}", other),
        }
    }
    assert_eq!(again, vec![c, d, a, b]);
}

#[test]
fn unfinished_turn_is_kept() {
    let mut world = World::new();
    let a = world.spawn(with_priority(2));
    world.spawn(with_priority(4));
    let mut pending = PendingMoves::new();
    let first = turn_system(&mut world, &mut pending);
    assert_eq!(first, TurnOutcome::Granted(e(1)));
    assert_eq!(turn_system(&mut world, &mut pending), TurnOutcome::Ongoing(e(1)));
    world.set_active_turn(e(1), Some(ActiveTurn { state: TurnState::ACTIVE }));
    assert_eq!(turn_system(&mut world, &mut pending), TurnOutcome::Ongoing(e(1)));
    finish_turn(&mut world, e(1));
    assert_eq!(turn_system(&mut world, &mut pending), TurnOutcome::Granted(a));
    assert_eq!(world.get_active_turn(e(1)), None);
    assert_eq!(world.find_first(Query::TurnHolder), Some(a));
}

#[test]
fn equal_priorities_keep_discovery_order() {
    let entries = vec![(3u8, e(0)), (1u8, e(1)), (3u8, e(2)), (0u8, e(3)), (255u8, e(4)), (1u8, e(5))];
    assert_eq!(order_by_priority(&entries), vec![e(3), e(1), e(5), e(0), e(2), e(4)]);
    assert!(order_by_priority(&Vec::new()).is_empty());
}

#[test]
fn priorities_lists_entities_in_creation_order() {
    let mut world = World::new();
    world.spawn(with_priority(5));
    world.spawn(bare());
    world.spawn(with_priority(9));
    assert_eq!(world.priorities(), vec![(5u8, e(0)), (9u8, e(2))]);
}

#[test]
fn transaction_moves_item_one_way_and_logs() {
    let mut world = World::new();
    let seller = world.spawn(holder(vec![e(10), e(11), e(12)]));
    let buyer = world.spawn(holder(vec![e(20)]));
    let mut messages = MessageQueue::new();
    let mut actions = ActionQueue::new();
    actions.push(Action::Transaction { source: seller, target: buyer, object: e(10), value: 3 });
    transaction_system(&mut world, &mut messages, &actions);
    assert_eq!(world.get_inventory(seller), Some(vec![e(12), e(11)]));
    assert_eq!(world.get_inventory(buyer), Some(vec![e(20), e(10)]));
    assert_eq!(messages.get_messages(), vec![Message::LogEvent("Committing transaction".to_string())]);
}

#[test]
fn transaction_of_missing_item_is_dropped() {
    let mut world = World::new();
    let seller = world.spawn(holder(vec![e(11)]));
    let buyer = world.spawn(holder(vec![]));
    let mut messages = MessageQueue::new();
    let mut actions = ActionQueue::new();
    actions.push(Action::Transaction { source: seller, target: buyer, object: e(10), value: 3 });
    actions.push(Action::Transaction { source: buyer, target: seller, object: e(11), value: 3 });
    transaction_system(&mut world, &mut messages, &actions);
    assert_eq!(world.get_inventory(seller), Some(vec![e(11)]));
    assert_eq!(world.get_inventory(buyer), Some(vec![]));
    assert_eq!(messages.get_messages().len(), 2);
}

#[test]
fn transaction_to_entity_without_inventory_moves_nothing() {
    let mut world = World::new();
    let seller = world.spawn(holder(vec![e(11)]));
    let nobody = world.spawn(bare());
    let mut messages = MessageQueue::new();
    let mut actions = ActionQueue::new();
    actions.push(Action::Transaction { source: seller, target: nobody, object: e(11), value: 1 });
    transaction_system(&mut world, &mut messages, &actions);
    assert_eq!(world.get_inventory(seller), Some(vec![e(11)]));
}

#[test]
fn trade_system_settles_and_stages_transfer() {
    let mut world = World::new();
    let seller = world.spawn(holder(vec![e(5)]));
    let buyer = world.spawn(holder(vec![]));
    let mut trades = TradeHandler::new();
    let request = trades.start(e(5), buyer, seller, buyer);
    world.set_request(buyer, Some(request));
    world.set_request(seller, Some(request));
    let mut messages = MessageQueue::new();
    let mut actions = ActionQueue::new();
    let update = |origin, state_change| Action::TradeUpdate(TradeMessage { origin, request, state_change });
    actions.push(update(seller, TradeState::Start));
    actions.push(update(buyer, TradeState::Offer(12)));
    actions.push(update(buyer, TradeState::Offer(13)));
    actions.push(update(seller, TradeState::Accepted));
    trade_system(&mut world, &mut trades, &mut messages, &mut actions);
    let states: Vec<TradeState> = messages
        .get_messages()
        .into_iter()
        .map(|m| match m {
            Message::TradeEvent(t) => t.trade_state,
            Message::LogEvent(_) => panic!("log"),
        })
        .collect();
    assert_eq!(states, vec![TradeState::Start, TradeState::Offer(12), TradeState::Final(12)]);
    assert_eq!(world.get_tradeable(buyer), Some(Tradeable { request: None }));
    assert_eq!(world.get_tradeable(seller), Some(Tradeable { request: None }));
    assert_eq!(world.get_inventory(buyer), Some(vec![]));
    actions.step();
    assert_eq!(
        actions.get_actions(),
        vec![Action::Transaction { source: seller, target: buyer, object: e(5), value: 12 }]
    );
}

#[test]
fn trade_system_rejection_frees_parties_without_transfer() {
    let mut world = World::new();
    let seller = world.spawn(holder(vec![e(5)]));
    let buyer = world.spawn(holder(vec![]));
    let mut trades = TradeHandler::new();
    let request = trades.start(e(5), buyer, seller, buyer);
    world.set_request(buyer, Some(request));
    world.set_request(seller, Some(request));
    let mut messages = MessageQueue::new();
    let mut actions = ActionQueue::new();
    actions.push(Action::TradeUpdate(TradeMessage { origin: buyer, request, state_change: TradeState::Rejected }));
    trade_system(&mut world, &mut trades, &mut messages, &mut actions);
    assert_eq!(world.get_tradeable(seller), Some(Tradeable { request: None }));
    assert_eq!(messages.get_messages().len(), 1);
    actions.step();
    assert!(actions.get_actions().is_empty());
}

#[test]
fn queries_find_the_first_match() {
    let mut world = World::new();
    world.spawn(bare());
    let cab = world.spawn(EntityRecord { display_cabinet: Some(DisplayCabinet), ..holder(vec![]) });
    let p = world.spawn(EntityRecord { player: Some(Player), position: Some(Position { x: 0, y: 0 }), ..bare() });
    world.spawn(EntityRecord { player: Some(Player), position: Some(Position { x: 1, y: 0 }), ..bare() });
    assert_eq!(world.find_first(Query::Player), Some(p));
    assert_eq!(world.find_first(Query::CabinetTradeable), Some(cab));
    assert_eq!(world.find_first(Query::PlayerInventory), None);
    assert_eq!(world.find_first(Query::TurnHolder), None);
    assert!(world.is_display_cabinet(cab));
    assert!(!world.is_display_cabinet(p));
}

#[test]
fn inventory_edits() {
    let mut world = World::new();
    let h = world.spawn(holder(vec![e(1), e(2), e(3), e(2)]));
    assert!(world.remove_item(h, e(2)));
    assert_eq!(world.get_inventory(h), Some(vec![e(1), e(3), e(2)]));
    assert_eq!(world.pop_item(h), Some(e(2)));
    assert!(world.swap_remove_item(h, e(1)));
    assert_eq!(world.get_inventory(h), Some(vec![e(3)]));
    assert!(!world.remove_item(h, e(9)));
    assert!(world.push_item(h, e(9)));
    assert_eq!(world.get_inventory(h), Some(vec![e(3), e(9)]));
    let none = world.spawn(bare());
    assert!(!world.push_item(none, e(1)));
    assert_eq!(world.pop_item(none), None);
    assert_eq!(position_in(&vec![e(4), e(5), e(5)], e(5)), Some(1));
    assert_eq!(position_in(&vec![e(4)], e(5)), None);
}

#[test]
fn occupant_index_and_blocked_flags() {
    let mut world = World::new();
    let wall_blocker = EntityRecord { position: Some(Position { x: 2, y: 1 }), tile_blocker: Some(TileBlocker), ..bare() };
    world.spawn(EntityRecord { position: Some(Position { x: 0, y: 0 }), ..bare() });
    let b = world.spawn(wall_blocker);
    world.spawn(EntityRecord { position: Some(Position { x: 9, y: 9 }), tile_blocker: Some(TileBlocker), ..bare() });
    let mut map = GridMap::new(4, 3);
    map.set_tile(3, 2, TileType::Wall);
    assert_eq!(map.get_tile(3, 2), TileType::Wall);
    assert!(map.is_free(3, 2));
    map.refresh_blocked();
    assert!(!map.is_free(3, 2));
    assert!(map.is_free(2, 1));
    map.refresh_index(&world);
    assert!(!map.is_free(2, 1));
    assert!(map.is_free(0, 0));
    assert_eq!(b, e(1));
}

#[test]
fn clamp_keeps_moves_on_the_map() {
    let map = GridMap::new(8, 5);
    assert_eq!(map.clamp_move(1, 1, 1, 0), (2, 1));
    assert_eq!(map.clamp_move(1, 1, -5, 0), (0, 1));
    assert_eq!(map.clamp_move(6, 3, 10, 10), (7, 4));
    assert_eq!(map.clamp_move(i32::MAX, i32::MIN, i32::MAX, i32::MIN), (7, 0));
    assert_eq!((map.get_width(), map.get_height()), (8, 5));
}

#[test]
fn tracker_reports_created_and_deleted() {
    let mut world = World::new();
    world.spawn(EntityRecord { position: Some(Position { x: 0, y: 0 }), ..bare() });
    world.spawn(bare());
    let mut tracker = EntityTracker::new();
    let first = tracker.track(&world);
    assert_eq!(first.created, vec![0]);
    assert!(first.deleted.is_empty());
    world.spawn(EntityRecord { position: Some(Position { x: 1, y: 0 }), ..bare() });
    let second = tracker.track(&world);
    assert_eq!(second.created, vec![2]);
    assert!(second.deleted.is_empty());
    let empty = World::new();
    let third = tracker.track(&empty);
    assert!(third.created.is_empty());
    assert_eq!(third.deleted, vec![0, 2]);
}
