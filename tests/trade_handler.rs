use shop_core::trade_handler::{Trade, TradeHandler, TradeMessage, TradeRequest, TradeState};
use shop_core::Entity;

const ITEM: Entity = Entity { id: 10 };
const BUYER: Entity = Entity { id: 1 };
const SELLER: Entity = Entity { id: 2 };
const STRANGER: Entity = Entity { id: 3 };

fn msg(origin: Entity, request: TradeRequest, state_change: TradeState) -> TradeMessage {
    TradeMessage { origin, request, state_change }
}

fn started() -> (TradeHandler, TradeRequest) {
    let mut h = TradeHandler::new();
    let r = h.start(ITEM, BUYER, SELLER, BUYER);
    (h, r)
}

#[test]
fn start_creates_pending_trade_with_origin_as_last_responder() {
    let (h, r) = started();
    assert_eq!(r.id, 0);
    let t = h.get_trade(r).unwrap();
    assert_eq!(
        t,
        Trade {
            request: r,
            target: ITEM,
            buyer: BUYER,
            seller: SELLER,
            last_response: BUYER,
            trade_state: TradeState::Pending
        }
    );
}

#[test]
fn request_ids_increase_and_are_not_reused() {
    let mut h = TradeHandler::new();
    let a = h.start(ITEM, BUYER, SELLER, BUYER);
    let b = h.start(ITEM, BUYER, SELLER, BUYER);
    let c = h.start(ITEM, BUYER, SELLER, SELLER);
    assert_eq!((a.id, b.id, c.id), (0, 1, 2));
}

#[test]
fn start_from_last_responder_is_refused() {
    let (mut h, r) = started();
    assert_eq!(h.handle_message(msg(BUYER, r, TradeState::Start)), None);
    assert_eq!(h.get_trade(r).unwrap().trade_state, TradeState::Pending);
    assert_eq!(h.get_trade(r).unwrap().last_response, BUYER);
}

#[test]
fn start_from_counterpart_opens_trade() {
    let (mut h, r) = started();
    let t = h.handle_message(msg(SELLER, r, TradeState::Start)).unwrap();
    assert_eq!(t.trade_state, TradeState::Start);
    assert_eq!(t.last_response, SELLER);
}

#[test]
fn alternating_offers_follow_the_last_message() {
    let (mut h, r) = started();
    h.handle_message(msg(SELLER, r, TradeState::Start)).unwrap();
    let moves = [
        (BUYER, TradeState::Offer(10)),
        (SELLER, TradeState::CounterOffer(50)),
        (BUYER, TradeState::Offer(20)),
        (SELLER, TradeState::CounterOffer(40)),
        (BUYER, TradeState::Offer(30)),
    ];
    for (origin, state) in moves {
        let t = h.handle_message(msg(origin, r, state)).unwrap();
        assert_eq!(t.trade_state, state);
        assert_eq!(t.last_response, origin);
        assert_eq!(h.get_trade(r).unwrap(), t);
    }
}

#[test]
fn offer_from_seller_and_counter_from_buyer_are_refused() {
    let (mut h, r) = started();
    h.handle_message(msg(SELLER, r, TradeState::Start)).unwrap();
    assert_eq!(h.handle_message(msg(SELLER, r, TradeState::Offer(5))), None);
    assert_eq!(h.handle_message(msg(BUYER, r, TradeState::CounterOffer(5))), None);
    assert_eq!(h.get_trade(r).unwrap().trade_state, TradeState::Start);
}

#[test]
fn same_party_twice_is_refused() {
    let (mut h, r) = started();
    h.handle_message(msg(SELLER, r, TradeState::Start)).unwrap();
    h.handle_message(msg(BUYER, r, TradeState::Offer(5))).unwrap();
    assert_eq!(h.handle_message(msg(BUYER, r, TradeState::Offer(6))), None);
    assert_eq!(h.get_trade(r).unwrap().trade_state, TradeState::Offer(5));
}

#[test]
fn accept_on_offer_settles_and_finishes() {
    let (mut h, r) = started();
    h.handle_message(msg(SELLER, r, TradeState::Start)).unwrap();
    h.handle_message(msg(BUYER, r, TradeState::Offer(30))).unwrap();
    let t = h.handle_message(msg(SELLER, r, TradeState::Accepted)).unwrap();
    assert_eq!(t.trade_state, TradeState::Final(30));
    assert_eq!(t.last_response, SELLER);
    assert_eq!(h.get_trade(r), None);
    assert_eq!(h.get_finished_trade(r), Some(t));
    assert_eq!(h.handle_message(msg(BUYER, r, TradeState::Rejected)), None);
    assert_eq!(h.handle_message(msg(BUYER, r, TradeState::Accepted)), None);
}

#[test]
fn accept_on_counter_offer_settles_at_counter_amount() {
    let (mut h, r) = started();
    h.handle_message(msg(SELLER, r, TradeState::Start)).unwrap();
    h.handle_message(msg(BUYER, r, TradeState::Offer(30))).unwrap();
    h.handle_message(msg(SELLER, r, TradeState::CounterOffer(45))).unwrap();
    let t = h.handle_message(msg(BUYER, r, TradeState::Accepted)).unwrap();
    assert_eq!(t.trade_state, TradeState::Final(45));
}

#[test]
fn accept_by_the_offering_party_is_ignored() {
    let (mut h, r) = started();
    h.handle_message(msg(SELLER, r, TradeState::Start)).unwrap();
    h.handle_message(msg(BUYER, r, TradeState::Offer(30))).unwrap();
    assert_eq!(h.handle_message(msg(BUYER, r, TradeState::Accepted)), None);
    assert_eq!(h.get_trade(r).unwrap().trade_state, TradeState::Offer(30));
}

#[test]
fn accept_without_offer_is_ignored() {
    let (mut h, r) = started();
    h.handle_message(msg(SELLER, r, TradeState::Start)).unwrap();
    assert_eq!(h.handle_message(msg(BUYER, r, TradeState::Accepted)), None);
    assert_eq!(h.get_trade(r).unwrap().trade_state, TradeState::Start);
}

#[test]
fn reject_from_every_open_state_is_terminal() {
    let setups: Vec<Vec<(Entity, TradeState)>> = vec![
        vec![],
        vec![(SELLER, TradeState::Start)],
        vec![(SELLER, TradeState::Start), (BUYER, TradeState::Offer(3))],
        vec![
            (SELLER, TradeState::Start),
            (BUYER, TradeState::Offer(3)),
            (SELLER, TradeState::CounterOffer(4)),
        ],
    ];
    for setup in setups {
        let (mut h, r) = started();
        for (origin, state) in setup {
            h.handle_message(msg(origin, r, state)).unwrap();
        }
        let t = h.handle_message(msg(STRANGER, r, TradeState::Rejected)).unwrap();
        assert_eq!(t.trade_state, TradeState::Rejected);
        assert_eq!(t.last_response, STRANGER);
        assert_eq!(h.get_trade(r), None);
        assert_eq!(h.get_finished_trade(r).unwrap().trade_state, TradeState::Rejected);
        assert_eq!(h.handle_message(msg(SELLER, r, TradeState::Start)), None);
        assert_eq!(h.handle_message(msg(BUYER, r, TradeState::Rejected)), None);
    }
}

#[test]
fn unknown_request_is_inert() {
    let (mut h, _) = started();
    let other = TradeRequest { id: 7 };
    assert_eq!(h.handle_message(msg(SELLER, other, TradeState::Start)), None);
    assert_eq!(h.get_trade(other), None);
}

#[test]
fn pending_and_final_messages_are_ignored() {
    let (mut h, r) = started();
    assert_eq!(h.handle_message(msg(SELLER, r, TradeState::Pending)), None);
    assert_eq!(h.handle_message(msg(SELLER, r, TradeState::Final(9))), None);
    assert_eq!(h.get_trade(r).unwrap().trade_state, TradeState::Pending);
}

#[test]
fn apply_follows_the_table() {
    let t = Trade {
        request: TradeRequest { id: 0 },
        target: ITEM,
        buyer: BUYER,
        seller: SELLER,
        last_response: SELLER,
        trade_state: TradeState::CounterOffer(8),
    };
    let next = t.apply(&msg(BUYER, t.request, TradeState::Offer(6))).unwrap();
    assert_eq!(next.trade_state, TradeState::Offer(6));
    assert_eq!(next.last_response, BUYER);
    assert_eq!(t.apply(&msg(BUYER, t.request, TradeState::Start)), None);
    assert!(TradeState::Final(1).is_terminal());
    assert!(TradeState::Rejected.is_terminal());
    assert!(!TradeState::Offer(1).is_terminal());
}
