use vstd::prelude::*;

use crate::message::Action;

verus! {

/// Commands for the current tick, and those staged for the next one.
pub struct ActionQueue {
    queue: Vec<Action>,
    future: Vec<Action>,
}

impl ActionQueue {
    /// The actions of the current tick.
    pub closed spec fn current(&self) -> Seq<Action> {
        self.queue@
    }

    /// The actions staged for the next tick.
    pub closed spec fn staged(&self) -> Seq<Action> {
        self.future@
    }

    pub fn new() -> (r: Self)
        ensures
            r.current() == Seq::<Action>::empty(),
            r.staged() == Seq::<Action>::empty(),
    {
        Self { queue: Vec::new(), future: Vec::new() }
    }

    /// A snapshot of the current tick's actions.
    pub fn get_actions(&self) -> (r: Vec<Action>)
        ensures
            r@ == self.current(),
    {
        let mut out: Vec<Action> = Vec::new();
        let mut i: usize = 0;
        while i < self.queue.len()
            invariant
                i <= self.queue@.len(),
                out@ == self.queue@.subrange(0, i as int),
            decreases self.queue@.len() - i,
        {
            out.push(self.queue[i]);
            i = i + 1;
            assert(out@ =~= self.queue@.subrange(0, i as int));
        }
        assert(out@ =~= self.queue@);
        out
    }

    /// Ends the tick: the rest of the current actions are dropped and the
    /// staged ones become current.
    pub fn step(&mut self)
        ensures
            final(self).current() == old(self).staged(),
            final(self).staged() == Seq::<Action>::empty(),
    {
        self.queue.clear();
        let mut current: Vec<Action> = Vec::new();
        std::mem::swap(&mut self.future, &mut current);
        self.queue = current;
    }

    /// Queues an action for the current tick.
    pub fn push(&mut self, action: Action)
        ensures
            final(self).current() == old(self).current().push(action),
            final(self).staged() == old(self).staged(),
    {
        self.queue.push(action)
    }

    /// Stages an action for the next tick.
    pub fn push_future(&mut self, action: Action)
        ensures
            final(self).current() == old(self).current(),
            final(self).staged() == old(self).staged().push(action),
    {
        self.future.push(action)
    }
}

/// An action staged in one tick is not among that tick's actions unless it
/// was already there, is among the next tick's actions, and is gone again
/// from the tick after that unless it is staged anew.
pub proof fn lemma_staged_action_lands_once(
    q0: ActionQueue,
    q1: ActionQueue,
    q2: ActionQueue,
    q3: ActionQueue,
    a: Action,
)
    requires
        q1.current() == q0.current(),
        q1.staged() == q0.staged().push(a),
        q2.current() == q1.staged(),
        q2.staged() == Seq::<Action>::empty(),
        q3.current() == q2.staged(),
    ensures
        q1.current().contains(a) == q0.current().contains(a),
        q2.current().contains(a),
        q2.current().last() == a,
        !q3.current().contains(a),
{
    assert(q2.current()[q2.current().len() - 1] == a);
}

} // verus!
