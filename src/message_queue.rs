use vstd::prelude::*;

use crate::message::Message;

verus! {

/// Events waiting to be handed to the host.
pub struct MessageQueue {
    queue: Vec<Message>,
}

impl MessageQueue {
    /// The queued events, oldest first.
    pub closed spec fn messages(&self) -> Seq<Message> {
        self.queue@
    }

    pub fn new() -> (r: Self)
        ensures
            r.messages() == Seq::<Message>::empty(),
    {
        Self { queue: Vec::new() }
    }

    /// A copy of the queued events.
    pub fn get_messages(&self) -> (r: Vec<Message>)
        ensures
            r@ == self.messages(),
    {
        let mut out: Vec<Message> = Vec::new();
        let mut i: usize = 0;
        while i < self.queue.len()
            invariant
                i <= self.queue@.len(),
                out@ == self.queue@.subrange(0, i as int),
            decreases self.queue@.len() - i,
        {
            out.push(self.queue[i].duplicate());
            i = i + 1;
            assert(out@ =~= self.queue@.subrange(0, i as int));
        }
        assert(out@ =~= self.queue@);
        out
    }

    pub fn clear(&mut self)
        ensures
            final(self).messages() == Seq::<Message>::empty(),
    {
        self.queue.clear()
    }

    pub fn push(&mut self, message: Message)
        ensures
            final(self).messages() == old(self).messages().push(message),
    {
        self.queue.push(message)
    }
}

} // verus!
