use vstd::prelude::*;

use std::collections::HashMap;

use crate::Entity;

verus! {

broadcast use vstd::std_specs::hash::group_hash_axioms;

/// One party's move in a negotiation.
#[derive(Clone, Copy, Debug, PartialEq, Eq, Structural)]
pub struct TradeMessage {
    pub origin: Entity,
    pub request: TradeRequest,
    pub state_change: TradeState,
}

/// The handle of one negotiation.
#[derive(Clone, Copy, Debug, PartialEq, Eq, Hash, Structural)]
pub struct TradeRequest {
    pub id: u64,
}

/// The stages of a negotiation. `Accepted` is only ever a message: it
/// resolves to `Final` in the step that receives it.
#[derive(Clone, Copy, Debug, PartialEq, Eq, Structural)]
pub enum TradeState {
    Pending,
    Start,
    Offer(u32),
    CounterOffer(u32),
    Rejected,
    Accepted,
    Final(u32),
}

/// A negotiation over `target` between a buyer and a seller.
#[derive(Clone, Copy, Debug, PartialEq, Eq, Structural)]
pub struct Trade {
    pub request: TradeRequest,
    pub target: Entity,
    pub buyer: Entity,
    pub seller: Entity,
    pub last_response: Entity,
    pub trade_state: TradeState,
}

/// A state from which the negotiation can still move.
pub open spec fn is_open(s: TradeState) -> bool {
    s is Pending || s is Start || s is Offer || s is CounterOffer
}

/// A state that ends the negotiation.
pub open spec fn is_terminal(s: TradeState) -> bool {
    s is Rejected || s is Final
}

/// The transition table: the state that `change` leads to from `state`,
/// given who sent it, or `None` where the table has no entry.
pub open spec fn next_state(
    state: TradeState,
    change: TradeState,
    is_buyer: bool,
    is_seller: bool,
    alternated: bool,
) -> Option<TradeState> {
    match change {
        TradeState::Start => if state is Pending && alternated {
            Some(TradeState::Start)
        } else {
            None
        },
        TradeState::Offer(v) => if (state is Start || state is CounterOffer) && is_buyer
            && alternated {
            Some(TradeState::Offer(v))
        } else {
            None
        },
        TradeState::CounterOffer(v) => if (state is Start || state is Offer) && is_seller
            && alternated {
            Some(TradeState::CounterOffer(v))
        } else {
            None
        },
        TradeState::Rejected => if is_open(state) {
            Some(TradeState::Rejected)
        } else {
            None
        },
        TradeState::Accepted => match state {
            TradeState::Offer(v) => if alternated {
                Some(TradeState::Final(v))
            } else {
                None
            },
            TradeState::CounterOffer(v) => if alternated {
                Some(TradeState::Final(v))
            } else {
                None
            },
            _ => None,
        },
        _ => None,
    }
}

/// The trade after `m`, or `None` where the message is refused. Every
/// accepted move records its sender as the last to respond.
pub open spec fn next_trade(t: Trade, m: TradeMessage) -> Option<Trade> {
    match next_state(
        t.trade_state,
        m.state_change,
        m.origin == t.buyer,
        m.origin == t.seller,
        m.origin != t.last_response,
    ) {
        Some(s) => Some(Trade { last_response: m.origin, trade_state: s, ..t }),
        None => None,
    }
}

/// What `handle_message` returns on the active set `active`.
pub open spec fn outcome(active: Map<u64, Trade>, m: TradeMessage) -> Option<Trade> {
    if active.contains_key(m.request.id) {
        next_trade(active[m.request.id], m)
    } else {
        None
    }
}

/// The active set after `handle_message`.
pub open spec fn active_after(active: Map<u64, Trade>, m: TradeMessage) -> Map<u64, Trade> {
    match outcome(active, m) {
        Some(t) => if is_terminal(t.trade_state) {
            active.remove(m.request.id)
        } else {
            active.insert(m.request.id, t)
        },
        None => active,
    }
}

/// The finished set after `handle_message`.
pub open spec fn finished_after(
    active: Map<u64, Trade>,
    finished: Map<u64, Trade>,
    m: TradeMessage,
) -> Map<u64, Trade> {
    match outcome(active, m) {
        Some(t) => if is_terminal(t.trade_state) {
            finished.insert(m.request.id, t)
        } else {
            finished
        },
        None => finished,
    }
}

/// Runs messages in order on a trade; `None` as soon as one is refused.
pub open spec fn run_messages(t: Trade, msgs: Seq<TradeMessage>) -> Option<Trade>
    decreases msgs.len(),
{
    if msgs.len() == 0 {
        Some(t)
    } else {
        match run_messages(t, msgs.drop_last()) {
            Some(before) => next_trade(before, msgs.last()),
            None => None,
        }
    }
}

/// An offer sent by the buyer or a counter-offer sent by the seller.
pub open spec fn is_bargaining_move(t: Trade, m: TradeMessage) -> bool {
    ||| (m.state_change is Offer && m.origin == t.buyer)
    ||| (m.state_change is CounterOffer && m.origin == t.seller)
}

/// Offers and counter-offers that the two sides send in turn each take
/// effect: after such a run the trade stands in the state that the last
/// message carried, with its sender as the last to respond.
pub proof fn lemma_alternating_bargain(t: Trade, msgs: Seq<TradeMessage>)
    requires
        t.buyer != t.seller,
        msgs.len() > 0,
        forall|i: int| 0 <= i < msgs.len() ==> is_bargaining_move(t, #[trigger] msgs[i]),
        msgs[0].origin != t.last_response,
        forall|i: int| 1 <= i < msgs.len() ==> #[trigger] msgs[i].origin != msgs[i - 1].origin,
        t.trade_state is Start || (t.trade_state is Offer && msgs[0].state_change is CounterOffer)
            || (t.trade_state is CounterOffer && msgs[0].state_change is Offer),
    ensures
        run_messages(t, msgs) == Some(
            Trade { last_response: msgs.last().origin, trade_state: msgs.last().state_change, ..t },
        ),
    decreases msgs.len(),
{
    let n = msgs.len();
    if n > 1 {
        let prefix = msgs.drop_last();
        assert(prefix.last() == msgs[n - 2]);
        assert forall|i: int| 1 <= i < prefix.len() implies #[trigger] prefix[i].origin != prefix[i
            - 1].origin by {
            assert(prefix[i] == msgs[i] && prefix[i - 1] == msgs[i - 1]);
        }
        assert forall|i: int| 0 <= i < prefix.len() implies is_bargaining_move(
            t,
            #[trigger] prefix[i],
        ) by {
            assert(prefix[i] == msgs[i]);
        }
        lemma_alternating_bargain(t, prefix);
        assert(msgs.last().origin != msgs[n - 2].origin);
        assert(is_bargaining_move(t, msgs[n - 2]));
        assert(is_bargaining_move(t, msgs[n - 1]));
        assert(msgs.last() == msgs[n - 1]);
    } else {
        assert(msgs.drop_last().len() == 0);
        assert(run_messages(t, msgs.drop_last()) == Some(t));
        assert(msgs.last() == msgs[0]);
        assert(is_bargaining_move(t, msgs[0]));
    }
}

/// A run of offers and counter-offers that the two sides send in turn,
/// starting with the party that did not speak last, from a state that
/// admits its first message.
pub open spec fn is_alternating_run(t: Trade, msgs: Seq<TradeMessage>) -> bool {
    &&& t.buyer != t.seller
    &&& forall|i: int| 0 <= i < msgs.len() ==> is_bargaining_move(t, #[trigger] msgs[i])
    &&& forall|i: int| 1 <= i < msgs.len() ==> #[trigger] msgs[i].origin != msgs[i - 1].origin
    &&& msgs.len() > 0 ==> {
        &&& msgs[0].origin != t.last_response
        &&& t.trade_state is Start || (t.trade_state is Offer && msgs[0].state_change is CounterOffer)
            || (t.trade_state is CounterOffer && msgs[0].state_change is Offer)
    }
}

/// The active set after `handle_message` is called on each of `msgs` in
/// order.
pub open spec fn active_after_all(active: Map<u64, Trade>, msgs: Seq<TradeMessage>) -> Map<
    u64,
    Trade,
>
    decreases msgs.len(),
{
    if msgs.len() == 0 {
        active
    } else {
        active_after(active_after_all(active, msgs.drop_last()), msgs.last())
    }
}

proof fn lemma_alternating_prefix(t: Trade, msgs: Seq<TradeMessage>, n: int)
    requires
        is_alternating_run(t, msgs),
        0 <= n <= msgs.len(),
    ensures
        is_alternating_run(t, msgs.take(n)),
{
    let p = msgs.take(n);
    assert forall|i: int| 0 <= i < p.len() implies is_bargaining_move(t, #[trigger] p[i]) by {
        assert(p[i] == msgs[i]);
    }
    assert forall|i: int| 1 <= i < p.len() implies #[trigger] p[i].origin != p[i - 1].origin by {
        assert(p[i] == msgs[i] && p[i - 1] == msgs[i - 1]);
    }
    if n > 0 {
        assert(p[0] == msgs[0]);
    }
}

proof fn lemma_run_stays_active(active: Map<u64, Trade>, msgs: Seq<TradeMessage>, id: u64)
    requires
        active.contains_key(id),
        is_alternating_run(active[id], msgs),
        forall|i: int| 0 <= i < msgs.len() ==> (#[trigger] msgs[i]).request.id == id,
    ensures
        run_messages(active[id], msgs) is Some,
        active_after_all(active, msgs).contains_key(id),
        active_after_all(active, msgs)[id] == (run_messages(active[id], msgs)->0),
    decreases msgs.len(),
{
    let t = active[id];
    if msgs.len() > 0 {
        let prefix = msgs.drop_last();
        assert(prefix =~= msgs.take(msgs.len() - 1));
        lemma_alternating_prefix(t, msgs, msgs.len() - 1);
        assert forall|i: int| 0 <= i < prefix.len() implies (#[trigger] prefix[i]).request.id
            == id by {
            assert(prefix[i] == msgs[i]);
        }
        lemma_run_stays_active(active, prefix, id);
        assert(msgs.last() == msgs[msgs.len() - 1]);
        lemma_alternating_bargain(t, msgs);
    }
}

/// Offers and counter-offers that the two sides send in turn each take
/// effect when handed to the handler one after the other: every call
/// returns the trade in the state of its message, with its sender as the
/// last to respond, and the trade stays active in the state of the last.
pub proof fn lemma_handler_alternating_bargain(h: TradeHandler, msgs: Seq<TradeMessage>)
    requires
        h.wf(),
        msgs.len() > 0,
        h.active().contains_key(msgs[0].request.id),
        forall|i: int| 0 <= i < msgs.len() ==> (#[trigger] msgs[i]).request == msgs[0].request,
        is_alternating_run(h.active()[msgs[0].request.id], msgs),
    ensures
        forall|n: int|
            1 <= n <= msgs.len() ==> #[trigger] outcome(
                active_after_all(h.active(), msgs.take(n - 1)),
                msgs[n - 1],
            ) == Some(
                Trade {
                    last_response: msgs[n - 1].origin,
                    trade_state: msgs[n - 1].state_change,
                    ..h.active()[msgs[0].request.id]
                },
            ),
        active_after_all(h.active(), msgs).contains_key(msgs[0].request.id),
        active_after_all(h.active(), msgs)[msgs[0].request.id] == (Trade {
            last_response: msgs.last().origin,
            trade_state: msgs.last().state_change,
            ..h.active()[msgs[0].request.id]
        }),
{
    let id = msgs[0].request.id;
    let t = h.active()[id];
    assert forall|i: int| 0 <= i < msgs.len() implies (#[trigger] msgs[i]).request.id == id by {
        assert(msgs[i].request == msgs[0].request);
    }
    assert forall|n: int| 1 <= n <= msgs.len() implies #[trigger] outcome(
        active_after_all(h.active(), msgs.take(n - 1)),
        msgs[n - 1],
    ) == Some(
        Trade { last_response: msgs[n - 1].origin, trade_state: msgs[n - 1].state_change, ..t },
    ) by {
        let before = msgs.take(n - 1);
        let upto = msgs.take(n);
        lemma_alternating_prefix(t, msgs, n - 1);
        lemma_alternating_prefix(t, msgs, n);
        assert forall|i: int| 0 <= i < before.len() implies (#[trigger] before[i]).request.id
            == id by {
            assert(before[i] == msgs[i]);
        }
        lemma_run_stays_active(h.active(), before, id);
        lemma_alternating_bargain(t, upto);
        assert(upto.drop_last() =~= before);
        assert(upto.last() == msgs[n - 1]);
        assert(msgs[n - 1].request.id == id);
    }
    lemma_run_stays_active(h.active(), msgs, id);
    lemma_alternating_bargain(t, msgs);
}

/// Only the counterpart can open a negotiation: a `Start` from the party
/// that responded last is refused, and the trade stays `Pending`.
pub proof fn lemma_start_needs_counterpart(h: TradeHandler, m: TradeMessage)
    requires
        h.wf(),
        h.active().contains_key(m.request.id),
        h.active()[m.request.id].trade_state is Pending,
        m.state_change is Start,
        m.origin == h.active()[m.request.id].last_response,
    ensures
        outcome(h.active(), m) is None,
        active_after(h.active(), m) == h.active(),
        finished_after(h.active(), h.finished(), m) == h.finished(),
        active_after(h.active(), m)[m.request.id].trade_state is Pending,
{
}

/// Accepting an offer or a counter-offer, by the party that did not make
/// it, settles the trade at the amount on the table. The trade moves to the
/// finished set, and later messages for the request change nothing.
pub proof fn lemma_accept_settles(h: TradeHandler, m: TradeMessage, amount: u32, later: TradeMessage)
    requires
        h.wf(),
        h.active().contains_key(m.request.id),
        h.active()[m.request.id].trade_state == TradeState::Offer(amount)
            || h.active()[m.request.id].trade_state == TradeState::CounterOffer(amount),
        m.state_change is Accepted,
        m.origin != h.active()[m.request.id].last_response,
        later.request == m.request,
    ensures
        outcome(h.active(), m) == Some(
            Trade {
                last_response: m.origin,
                trade_state: TradeState::Final(amount),
                ..h.active()[m.request.id]
            },
        ),
        !active_after(h.active(), m).contains_key(m.request.id),
        finished_after(h.active(), h.finished(), m) == h.finished().insert(
            m.request.id,
            Trade {
                last_response: m.origin,
                trade_state: TradeState::Final(amount),
                ..h.active()[m.request.id]
            },
        ),
        outcome(active_after(h.active(), m), later) is None,
{
}

/// Any party can reject a running negotiation, whatever its state. The
/// rejection ends it: the trade moves to the finished set, no move leads
/// out of `Rejected`, and later messages for the request change nothing.
pub proof fn lemma_reject_is_terminal(h: TradeHandler, m: TradeMessage, later: TradeMessage)
    requires
        h.wf(),
        h.active().contains_key(m.request.id),
        m.state_change is Rejected,
        later.request == m.request,
    ensures
        outcome(h.active(), m) == Some(
            Trade {
                last_response: m.origin,
                trade_state: TradeState::Rejected,
                ..h.active()[m.request.id]
            },
        ),
        !active_after(h.active(), m).contains_key(m.request.id),
        finished_after(h.active(), h.finished(), m).contains_key(m.request.id),
        next_trade(outcome(h.active(), m)->0, later) is None,
        outcome(active_after(h.active(), m), later) is None,
{
}

impl TradeState {
    pub fn is_terminal(&self) -> (r: bool)
        ensures
            r == is_terminal(*self),
    {
        match self {
            TradeState::Rejected => true,
            TradeState::Final(_) => true,
            _ => false,
        }
    }
}

impl Trade {
    /// Applies one message to this trade by the transition table.
    pub fn apply(&self, message: &TradeMessage) -> (r: Option<Trade>)
        ensures
            r == next_trade(*self, *message),
    {
        let is_seller = message.origin == self.seller;
        let is_buyer = message.origin == self.buyer;
        let alternated = message.origin != self.last_response;
        let next = match message.state_change {
            TradeState::Start => match self.trade_state {
                TradeState::Pending => if alternated {
                    Some(TradeState::Start)
                } else {
                    None
                },
                _ => None,
            },
            TradeState::Offer(v) => match self.trade_state {
                TradeState::Start | TradeState::CounterOffer(_) => if is_buyer && alternated {
                    Some(TradeState::Offer(v))
                } else {
                    None
                },
                _ => None,
            },
            TradeState::CounterOffer(v) => match self.trade_state {
                TradeState::Start | TradeState::Offer(_) => if is_seller && alternated {
                    Some(TradeState::CounterOffer(v))
                } else {
                    None
                },
                _ => None,
            },
            TradeState::Rejected => match self.trade_state {
                TradeState::Pending | TradeState::Start | TradeState::Offer(_)
                | TradeState::CounterOffer(_) => Some(TradeState::Rejected),
                _ => None,
            },
            TradeState::Accepted => match self.trade_state {
                TradeState::Offer(v) | TradeState::CounterOffer(v) => if alternated {
                    Some(TradeState::Final(v))
                } else {
                    None
                },
                _ => None,
            },
            TradeState::Pending | TradeState::Final(_) => None,
        };
        match next {
            Some(s) => Some(
                Trade {
                    request: self.request,
                    target: self.target,
                    buyer: self.buyer,
                    seller: self.seller,
                    last_response: message.origin,
                    trade_state: s,
                },
            ),
            None => None,
        }
    }
}

/// Keeps every negotiation by its request id, in the active set while it
/// runs and in the finished set once it has ended.
pub struct TradeHandler {
    next_id: u64,
    active_requests: HashMap<u64, Trade>,
    finished_requests: HashMap<u64, Trade>,
}

impl TradeHandler {
    pub closed spec fn next_id(&self) -> u64 {
        self.next_id
    }

    pub closed spec fn active(&self) -> Map<u64, Trade> {
        self.active_requests@
    }

    pub closed spec fn finished(&self) -> Map<u64, Trade> {
        self.finished_requests@
    }

    /// Ids are handed out in increasing order; each trade that was created
    /// sits under its own id in exactly one of the two sets; open trades are
    /// active and ended ones finished.
    pub open spec fn wf(&self) -> bool {
        &&& forall|k: u64|
            k < self.next_id() ==> #[trigger] self.active().contains_key(k)
                || self.finished().contains_key(k)
        &&& forall|k: u64| #[trigger]
            self.active().contains_key(k) ==> k < self.next_id() && self.active()[k].request.id
                == k && is_open(self.active()[k].trade_state)
        &&& forall|k: u64| #[trigger]
            self.finished().contains_key(k) ==> k < self.next_id()
                && self.finished()[k].request.id == k && is_terminal(
                self.finished()[k].trade_state,
            ) && !self.active().contains_key(k)
    }

    pub fn new() -> (r: Self)
        ensures
            r.wf(),
            r.next_id() == 0,
            r.active() == Map::<u64, Trade>::empty(),
            r.finished() == Map::<u64, Trade>::empty(),
    {
        TradeHandler {
            next_id: 0,
            active_requests: HashMap::new(),
            finished_requests: HashMap::new(),
        }
    }

    /// Whether another request id can be handed out.
    pub fn can_start(&self) -> (r: bool)
        ensures
            r == (self.next_id() < u64::MAX),
    {
        self.next_id < u64::MAX
    }

    /// Opens a negotiation in the `Pending` state under the next id, with
    /// `origin` as the last to respond.
    pub fn start(&mut self, target: Entity, buyer: Entity, seller: Entity, origin: Entity) -> (r:
        TradeRequest)
        requires
            old(self).wf(),
            old(self).next_id() < u64::MAX,
        ensures
            final(self).wf(),
            r.id == old(self).next_id(),
            final(self).next_id() == old(self).next_id() + 1,
            final(self).active() == old(self).active().insert(
                r.id,
                Trade {
                    request: r,
                    target,
                    buyer,
                    seller,
                    last_response: origin,
                    trade_state: TradeState::Pending,
                },
            ),
            final(self).finished() == old(self).finished(),
    {
        let request = TradeRequest { id: self.increment() };
        let trade = Trade {
            request,
            target,
            buyer,
            seller,
            last_response: origin,
            trade_state: TradeState::Pending,
        };
        self.active_requests.insert(request.id, trade);
        request
    }

    fn increment(&mut self) -> (r: u64)
        requires
            old(self).next_id < u64::MAX,
        ensures
            r == old(self).next_id,
            final(self).next_id == old(self).next_id + 1,
            final(self).active_requests == old(self).active_requests,
            final(self).finished_requests == old(self).finished_requests,
    {
        let id = self.next_id;
        self.next_id = self.next_id + 1;
        id
    }

    /// The trade of an active request.
    pub fn get_trade(&self, request: TradeRequest) -> (r: Option<Trade>)
        ensures
            r == (if self.active().contains_key(request.id) {
                Some(self.active()[request.id])
            } else {
                None
            }),
    {
        match self.active_requests.get(&request.id) {
            Some(t) => Some(*t),
            None => None,
        }
    }

    /// The trade of a request that has ended.
    pub fn get_finished_trade(&self, request: TradeRequest) -> (r: Option<Trade>)
        ensures
            r == (if self.finished().contains_key(request.id) {
                Some(self.finished()[request.id])
            } else {
                None
            }),
    {
        match self.finished_requests.get(&request.id) {
            Some(t) => Some(*t),
            None => None,
        }
    }

    /// Applies a message to its active request. Returns the updated trade,
    /// or `None` where the request is not active or the table refuses the
    /// move; then nothing changes. A trade that ends moves to the finished
    /// set in the same call.
    pub fn handle_message(&mut self, message: TradeMessage) -> (r: Option<Trade>)
        requires
            old(self).wf(),
        ensures
            final(self).wf(),
            r == outcome(old(self).active(), message),
            final(self).active() == active_after(old(self).active(), message),
            final(self).finished() == finished_after(
                old(self).active(),
                old(self).finished(),
                message,
            ),
            final(self).next_id() == old(self).next_id(),
    {
        let id = message.request.id;
        let trade = match self.active_requests.get(&id) {
            Some(t) => *t,
            None => return None,
        };
        match trade.apply(&message) {
            None => None,
            Some(updated) => {
                if updated.trade_state.is_terminal() {
                    self.active_requests.remove(&id);
                    self.finished_requests.insert(id, updated);
                } else {
                    self.active_requests.insert(id, updated);
                }
                Some(updated)
            },
        }
    }
}

} // verus!
