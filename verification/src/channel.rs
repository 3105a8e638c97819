//! The outbound command channel: a first-in-first-out queue between the
//! callers that submit interpreter commands and the single writer that owns
//! the child's input pipe.
//!
//! The channel keeps, as ghost history, every line ever sent. Its invariant
//! says the lines still queued are exactly the tail of that history, so what
//! the writer has already taken is exactly the head — delivery happens in
//! send order, whatever thread called `send`.

use vstd::prelude::*;

verus! {

/// The queue of interpreter commands awaiting the writer.
pub struct CommandChannel {
    pending: Vec<String>,
    history: Ghost<Seq<Seq<char>>>,
}

impl CommandChannel {
    /// Every line ever sent, in send order.
    pub closed spec fn sent(&self) -> Seq<Seq<char>> {
        self.history@
    }

    /// The lines not yet taken by the writer, in send order.
    pub closed spec fn queued(&self) -> Seq<Seq<char>> {
        self.pending.deep_view()
    }

    /// The lines the writer has already taken, in send order.
    pub open spec fn delivered(&self) -> Seq<Seq<char>> {
        self.sent().take(self.sent().len() - self.queued().len())
    }

    /// The queued lines are the tail of the send history.
    pub open spec fn wf(&self) -> bool {
        &&& self.queued().len() <= self.sent().len()
        &&& self.sent() == self.delivered() + self.queued()
    }

    pub fn new() -> (r: CommandChannel)
        ensures
            r.wf(),
            r.sent() == Seq::<Seq<char>>::empty(),
            r.queued() == Seq::<Seq<char>>::empty(),
    {
        let r = CommandChannel { pending: Vec::new(), history: Ghost(Seq::empty()) };
        proof {
            assert(r.queued() =~= Seq::<Seq<char>>::empty());
            assert(r.sent() =~= r.delivered() + r.queued());
        }
        r
    }

    /// Enqueues one command line. The writer will later deliver it, after
    /// everything sent before it; `send` itself never performs any write.
    pub fn send(&mut self, line: &str)
        requires
            old(self).wf(),
        ensures
            final(self).wf(),
            final(self).sent() == old(self).sent() + seq![line@],
            final(self).delivered() == old(self).delivered(),
    {
        let ghost prev = self.pending.deep_view();
        self.pending.push(String::from_str(line));
        proof {
            self.history@ = self.history@ + seq![line@];
            assert(self.queued() =~= prev + seq![line@]);
            assert(self.delivered() =~= old(self).delivered());
            assert(self.sent() =~= self.delivered() + self.queued());
        }
    }

    /// Hands the writer the next line to deliver: the oldest queued one,
    /// which is always the line of the send history that directly follows
    /// what was delivered before. Returns `None` when the queue is empty.
    pub fn next_to_write(&mut self) -> (r: Option<String>)
        requires
            old(self).wf(),
        ensures
            final(self).wf(),
            final(self).sent() == old(self).sent(),
            old(self).queued().len() == 0 ==> r is None && *final(self) == *old(self),
            old(self).queued().len() > 0 ==> {
                &&& r matches Some(line)
                &&& line@ == old(self).queued()[0]
                &&& line@ == old(self).sent()[old(self).delivered().len() as int]
                &&& final(self).queued() == old(self).queued().drop_first()
                &&& final(self).delivered() == old(self).delivered() + seq![line@]
            },
    {
        if self.pending.len() == 0 {
            proof {
                assert(self.queued() =~= old(self).queued());
            }
            None
        } else {
            let line = self.pending.remove(0);
            proof {
                assert(self.queued() =~= old(self).queued().drop_first());
                assert(line@ == old(self).queued()[0]);
                assert(old(self).sent()[old(self).delivered().len() as int] == old(
                    self,
                ).queued()[0]);
                assert(self.delivered() =~= old(self).delivered() + seq![line@]);
                assert(self.sent() =~= self.delivered() + self.queued());
            }
            Some(line)
        }
    }
}

/// The first-in-first-out law of the channel: the lines the writer has
/// taken are exactly the first `delivered` lines ever sent, in send order —
/// no queued line ever overtakes an earlier one.
pub proof fn lemma_channel_fifo(ch: &CommandChannel)
    requires
        ch.wf(),
    ensures
        ch.delivered() == ch.sent().take(ch.delivered().len() as int),
        ch.delivered().len() + ch.queued().len() == ch.sent().len(),
        forall|i: int|
            0 <= i < ch.delivered().len() ==> #[trigger] ch.delivered()[i] == ch.sent()[i],
{
    assert(ch.delivered() =~= ch.sent().take(ch.delivered().len() as int));
}

} // verus!
