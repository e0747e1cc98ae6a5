//! The result channel: an unbounded, ordered, single-producer queue that
//! decouples the analysis thread from its consumers. Sending never
//! blocks; it fails only once every consumer is gone, and that failure is
//! reported, never swallowed. Messages are received in the order sent.

use vstd::prelude::*;

use crate::workspace::Workspace;

verus! {

/// Why a send can fail: the consuming side was dropped.
pub struct ChannelDisconnected;

/// The channel's state: the queued snapshots in send order, and whether a
/// consumer is still attached.
pub struct ResultChannel {
    pub queue: Vec<Workspace>,
    pub connected: bool,
}

impl ResultChannel {
    /// A fresh, connected, empty channel.
    pub fn new() -> (r: Self)
        ensures
            r.queue@ =~= Seq::<Workspace>::empty(),
            r.connected,
    {
        ResultChannel { queue: Vec::new(), connected: true }
    }

    /// Enqueues one snapshot. Succeeds exactly while a consumer is
    /// attached, and never blocks: the queue only grows, at the back.
    pub fn send(&mut self, ws: Workspace) -> (r: Result<(), ChannelDisconnected>)
        ensures
            r is Ok <==> old(self).connected,
            old(self).connected ==> final(self).queue@ =~= old(self).queue@.push(ws)
                && final(self).connected,
            !old(self).connected ==> *final(self) == *old(self),
    {
        if self.connected {
            self.queue.push(ws);
            Ok(())
        } else {
            Err(ChannelDisconnected)
        }
    }

    /// Dequeues the oldest snapshot, if any: delivery order equals send
    /// order.
    pub fn receive(&mut self) -> (r: Option<Workspace>)
        ensures
            old(self).queue@.len() == 0 ==> r is None && *final(self) == *old(self),
            old(self).queue@.len() > 0 ==> (r matches Some(ws) && ws == old(self).queue@.first()
                && final(self).queue@ =~= old(self).queue@.drop_first() && final(self).connected
                == old(self).connected),
    {
        if self.queue.len() == 0 {
            None
        } else {
            let ws = self.queue.remove(0);
            proof {
                assert(self.queue@ =~= old(self).queue@.drop_first());
            }
            Some(ws)
        }
    }

    /// Marks every consumer as gone; later sends report disconnection.
    pub fn disconnect(&mut self)
        ensures
            !final(self).connected,
            final(self).queue == old(self).queue,
    {
        self.connected = false;
    }

    /// How many snapshots wait to be received.
    pub fn pending(&self) -> (r: usize)
        ensures
            r == self.queue@.len(),
    {
        self.queue.len()
    }
}

} // verus!
