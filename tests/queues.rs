use shop_core::action_queue::ActionQueue;
use shop_core::message::{Action, Message};
use shop_core::message_queue::MessageQueue;
use shop_core::trade_handler::{TradeMessage, TradeRequest, TradeState};
use shop_core::Entity;

fn transfer(value: u32) -> Action {
    Action::Transaction {
        source: Entity { id: 1 },
        target: Entity { id: 2 },
        object: Entity { id: 3 },
        value,
    }
}

#[test]
fn staged_action_is_seen_exactly_in_the_next_tick() {
    let mut q = ActionQueue::new();
    q.push(transfer(1));
    q.push_future(transfer(2));
    assert_eq!(q.get_actions(), vec![transfer(1)]);
    q.step();
    assert_eq!(q.get_actions(), vec![transfer(2)]);
    q.step();
    assert!(q.get_actions().is_empty());
}

#[test]
fn staged_action_repushed_is_seen_again() {
    let mut q = ActionQueue::new();
    q.push_future(transfer(2));
    q.step();
    q.push_future(transfer(2));
    q.step();
    assert_eq!(q.get_actions(), vec![transfer(2)]);
}

#[test]
fn step_drops_unconsumed_current_actions() {
    let mut q = ActionQueue::new();
    let update = Action::TradeUpdate(TradeMessage {
        origin: Entity { id: 1 },
        request: TradeRequest { id: 0 },
        state_change: TradeState::Start,
    });
    q.push(update);
    q.push(transfer(4));
    assert_eq!(q.get_actions(), vec![update, transfer(4)]);
    q.step();
    assert!(q.get_actions().is_empty());
}

#[test]
fn message_queue_keeps_order_and_clears() {
    let mut q = MessageQueue::new();
    q.push(Message::LogEvent("a".to_string()));
    q.push(Message::LogEvent("b".to_string()));
    assert_eq!(
        q.get_messages(),
        vec![Message::LogEvent("a".to_string()), Message::LogEvent("b".to_string())]
    );
    q.clear();
    assert!(q.get_messages().is_empty());
}

#[test]
fn message_duplicate_is_equal() {
    let m = Message::LogEvent("x".to_string());
    assert_eq!(m.duplicate(), m);
}
