use shop_core::component::{ActiveTurn, Position, TurnState};
use shop_core::message::{Action, Message};
use shop_core::server::Server;
use shop_core::trade_handler::{Trade, TradeMessage, TradeRequest, TradeState};
use shop_core::{entity_to_u64, Entity, Serdent};

fn trade_of(messages: &[Message]) -> Trade {
    match messages.get(0).unwrap() {
        Message::TradeEvent(t) => *t,
        Message::LogEvent(text) => panic!("unexpected log {}", text),
    }
}

#[test]
fn test_all() {
    let mut server = Server::new();
    for _ in 0..10 {
        server.tick();
    }
    server.try_start_trade();
    let messages = server.tick();
    let request = trade_of(&messages).request;
    server.add_action(Action::TradeUpdate(TradeMessage {
        origin: server.get_player().unwrap(),
        request,
        state_change: TradeState::Start,
    }));
    let messages = server.tick();
    let trade = trade_of(&messages);
    assert_eq!(trade.trade_state, TradeState::Start);
    server.add_action(Action::TradeUpdate(TradeMessage {
        origin: server.get_tradeable().unwrap(),
        request,
        state_change: TradeState::Accepted,
    }));
    let messages = server.tick();
    assert!(messages.is_empty());
    server.add_action(Action::TradeUpdate(TradeMessage {
        origin: server.get_tradeable().unwrap(),
        request,
        state_change: TradeState::Offer(30),
    }));
    let messages = server.tick();
    let trade = trade_of(&messages);
    assert_eq!(trade.trade_state, TradeState::Offer(30));
    server.add_action(Action::TradeUpdate(TradeMessage {
        origin: server.get_player().unwrap(),
        request,
        state_change: TradeState::Accepted,
    }));
    let messages = server.tick();
    let trade = trade_of(&messages);
    assert_eq!(trade.trade_state, TradeState::Final(30));
}

#[test]
fn trade_end_to_end_item_arrives_one_tick_after_settling() {
    let mut server = Server::new();
    for _ in 0..10 {
        assert!(server.tick().is_empty());
    }
    let buyer = server.get_tradeable().unwrap();
    let seller = server.get_player().unwrap();
    let item = server.get_player_inventory().unwrap()[0];
    let request = server.try_start_trade().unwrap();
    assert_eq!(request, TradeRequest { id: 0 });
    let trade = trade_of(&server.tick());
    assert_eq!(trade.trade_state, TradeState::Pending);
    assert_eq!(trade.last_response, buyer);
    assert_eq!((trade.buyer, trade.seller, trade.target), (buyer, seller, item));
    let update = |origin, state_change| Action::TradeUpdate(TradeMessage { origin, request, state_change });
    server.add_action(update(seller, TradeState::Start));
    assert_eq!(trade_of(&server.tick()).trade_state, TradeState::Start);
    server.add_action(update(buyer, TradeState::Accepted));
    assert!(server.tick().is_empty());
    server.add_action(update(buyer, TradeState::Offer(30)));
    assert_eq!(trade_of(&server.tick()).trade_state, TradeState::Offer(30));
    server.add_action(update(seller, TradeState::Accepted));
    let settled = server.tick();
    assert_eq!(settled.len(), 1);
    assert_eq!(trade_of(&settled).trade_state, TradeState::Final(30));
    assert!(!server.get_inventory(buyer).unwrap().contains(&item));
    assert!(server.get_inventory(seller).unwrap().contains(&item));
    let next = server.tick();
    assert_eq!(next, vec![Message::LogEvent("Committing transaction".to_string())]);
    assert!(server.get_inventory(buyer).unwrap().contains(&item));
    assert!(!server.get_inventory(seller).unwrap().contains(&item));
    assert_eq!(server.world_ref().get_tradeable(buyer).unwrap().request, None);
    assert_eq!(server.trade_handler().get_trade(request), None);
    assert_eq!(server.trade_handler().get_finished_trade(request).unwrap().trade_state, TradeState::Final(30));
}

#[test]
fn start_trade_records_request_on_both_parties() {
    let mut server = Server::new();
    assert_eq!(server.try_start_trade(), None);
    server.tick();
    let request = server.try_start_trade().unwrap();
    let buyer = server.get_tradeable().unwrap();
    let seller = server.get_player().unwrap();
    assert_eq!(server.world_ref().get_tradeable(buyer).unwrap().request, Some(request));
    assert_eq!(server.world_ref().get_tradeable(seller).unwrap().request, Some(request));
    assert_eq!(server.try_start_trade(), Some(TradeRequest { id: 1 }));
}

#[test]
fn first_tick_populates_and_returns_nothing() {
    let mut server = Server::new();
    assert!(!server.is_running());
    assert_eq!(server.get_player(), None);
    assert!(server.tick().is_empty());
    assert!(server.is_running());
    let player = server.get_player().unwrap();
    assert_eq!(server.world_ref().get_position(player), Some(Position { x: 1, y: 1 }));
    assert_eq!(server.world_ref().len(), 6);
    assert_eq!(server.get_player_inventory(), Some(vec![Entity { id: 5 }]));
    assert_eq!(server.get_inventory(Entity { id: 1 }), Some(vec![Entity { id: 4 }]));
    assert_eq!(server.world_ref().get_name(Entity { id: 4 }), Some("love".to_string()));
}

#[test]
fn player_gets_the_turn_and_moving_ends_it() {
    let mut server = Server::new();
    assert!(!server.try_move_player(1, 0));
    server.tick();
    server.tick();
    let player = server.get_player().unwrap();
    assert_eq!(server.world_ref().get_active_turn(player), Some(ActiveTurn { state: TurnState::PENDING }));
    assert!(server.try_move_player(0, 1));
    assert_eq!(server.world_ref().get_position(player), Some(Position { x: 1, y: 2 }));
    assert_eq!(server.world_ref().get_active_turn(player), Some(ActiveTurn { state: TurnState::DONE }));
    server.tick();
    assert_eq!(server.world_ref().get_active_turn(player), Some(ActiveTurn { state: TurnState::PENDING }));
}

#[test]
fn move_into_cabinet_fails_but_ends_turn() {
    let mut server = Server::new();
    server.tick();
    server.tick();
    let player = server.get_player().unwrap();
    assert!(!server.try_move_player(1, 0));
    assert_eq!(server.world_ref().get_position(player), Some(Position { x: 1, y: 1 }));
    assert_eq!(server.world_ref().get_active_turn(player), Some(ActiveTurn { state: TurnState::DONE }));
}

#[test]
fn move_is_clamped_to_the_map() {
    let mut server = Server::new();
    server.tick();
    server.tick();
    let player = server.get_player().unwrap();
    assert!(server.try_move_player(-100, -100));
    assert_eq!(server.world_ref().get_position(player), Some(Position { x: 0, y: 0 }));
}

#[test]
fn take_and_put_move_items() {
    let mut server = Server::new();
    server.tick();
    let cabinet = Entity { id: 1 };
    let empty_cabinet = Entity { id: 2 };
    assert!(server.try_player_take(cabinet));
    assert_eq!(server.get_player_inventory(), Some(vec![Entity { id: 5 }, Entity { id: 4 }]));
    assert_eq!(server.get_inventory(cabinet), Some(vec![]));
    assert!(!server.try_player_take(cabinet));
    assert!(server.try_player_put(empty_cabinet, Entity { id: 5 }));
    assert_eq!(server.get_player_inventory(), Some(vec![Entity { id: 4 }]));
    assert_eq!(server.get_inventory(empty_cabinet), Some(vec![Entity { id: 5 }]));
    assert!(!server.try_player_put(empty_cabinet, Entity { id: 5 }));
    assert!(!server.try_player_put(Entity { id: 4 }, Entity { id: 4 }));
    assert!(!server.try_player_take(Entity { id: 99 }));
}

#[test]
fn handles_convert_losslessly() {
    let e = Entity { id: 42 };
    assert_eq!(entity_to_u64(e), 42);
    let s = Serdent::from(e);
    assert_eq!(s, Serdent(42));
    assert_eq!(Entity::from(s), e);
}
