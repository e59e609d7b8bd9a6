//! The ready queue service: a FIFO of completed reconstructions fed by
//! workers and served one at a time to a consumer through a small
//! request/response protocol.

use vstd::prelude::*;
use crate::stream::monitor::ReconstructedPackets;

verus! {

/// A command from the consumer to the ready queue service.
#[derive(PartialEq, Eq, Structural, Clone, Copy, Debug)]
pub enum Message {
    /// Ask for the next completed reconstruction.
    ReadyConnRequest,
    /// Terminate the service loop.
    StopThread,
}

/// What the service answers to one command.
pub enum CommandOutcome {
    /// The head of the queue, removed and handed over.
    Served(ReconstructedPackets),
    /// The queue was empty; nothing is handed over and nothing changes.
    NoneAvailable,
    /// The service loop is to terminate; the queue is untouched.
    Stopped,
}

/// Serving the front of a queue: the head and the remainder when the queue
/// is non-empty, no element and the queue unchanged when it is empty.
pub open spec fn serve_front(q: Seq<ReconstructedPackets>) -> (Option<ReconstructedPackets>, Seq<
    ReconstructedPackets,
>) {
    if q.len() == 0 {
        (None, q)
    } else {
        (Some(q[0]), q.drop_first())
    }
}

/// The FIFO of completed reconstructions awaiting the consumer.
pub struct ReadyServeThread {
    pub ready_conns: Vec<ReconstructedPackets>,
}

impl ReadyServeThread {
    /// An empty queue.
    pub fn new() -> (r: ReadyServeThread)
        ensures
            r.ready_conns@ == Seq::<ReconstructedPackets>::empty(),
    {
        ReadyServeThread { ready_conns: Vec::new() }
    }

    /// Append one completed reconstruction at the tail.
    pub fn push_conn(&mut self, conn: ReconstructedPackets)
        ensures
            final(self).ready_conns@ == old(self).ready_conns@.push(conn),
    {
        self.ready_conns.push(conn);
    }

    /// Remove and return the head of the queue, or report that none is
    /// available, without blocking.
    pub fn pop_conn(&mut self) -> (r: Option<ReconstructedPackets>)
        ensures
            r == serve_front(old(self).ready_conns@).0,
            final(self).ready_conns@ == serve_front(old(self).ready_conns@).1,
    {
        if !self.ready_conns.is_empty() {
            let head = self.ready_conns.remove(0);
            assert(self.ready_conns@ =~= old(self).ready_conns@.drop_first());
            Some(head)
        } else {
            None
        }
    }

    /// Answer one command: a request is served from the head of the queue
    /// if any reconstruction is ready, and a stop leaves the queue alone.
    pub fn handle_command(&mut self, cmd: Message) -> (r: CommandOutcome)
        ensures
            cmd == Message::StopThread ==> final(self).ready_conns@ == old(self).ready_conns@ && (
            r matches CommandOutcome::Stopped),
            cmd == Message::ReadyConnRequest ==> {
                &&& final(self).ready_conns@ == serve_front(old(self).ready_conns@).1
                &&& match serve_front(old(self).ready_conns@).0 {
                    Some(head) => r matches CommandOutcome::Served(c) && c == head,
                    None => r matches CommandOutcome::NoneAvailable,
                }
            },
    {
        match cmd {
            Message::ReadyConnRequest => match self.pop_conn() {
                Some(conn) => CommandOutcome::Served(conn),
                None => CommandOutcome::NoneAvailable,
            },
            Message::StopThread => CommandOutcome::Stopped,
        }
    }
}

/// Ready-queue FIFO law: completed reconstructions come back out in the
/// order they were pushed. Pushing `r1` then `r2` onto an empty queue, the
/// first two serves hand back `r1` then `r2`, and a third serve on the then
/// empty queue hands back nothing.
pub proof fn lemma_ready_queue_fifo(r1: ReconstructedPackets, r2: ReconstructedPackets)
    ensures
        ({
            let q1 = Seq::<ReconstructedPackets>::empty().push(r1).push(r2);
            let first = serve_front(q1);
            let second = serve_front(first.1);
            let third = serve_front(second.1);
            &&& first.0 == Some(r1)
            &&& second.0 == Some(r2)
            &&& third.0 == None::<ReconstructedPackets>
            &&& third.1.len() == 0
        }),
{
    let q1 = Seq::<ReconstructedPackets>::empty().push(r1).push(r2);
    assert(q1.len() == 2 && q1[0] == r1 && q1[1] == r2);
    let first = serve_front(q1);
    assert(first.1 =~= seq![r2]);
    let second = serve_front(first.1);
    assert(second.1 =~= Seq::<ReconstructedPackets>::empty());
}

} // verus!
