//! Cross-core dispatch of failure records to the management reactor: a
//! bounded message channel that never blocks the I/O path. Messages from one
//! source are delivered in submission order; an insertion into a full
//! channel drops the record and counts the drop.

use vstd::prelude::*;

verus! {

/// One failure record on its way to the management reactor, carrying the
/// timestamp taken at the source.
pub struct ErrorRecordMsg {
    pub nexus_name: String,
    pub device_id: u64,
    pub io_op: u32,
    pub io_error: i32,
    pub io_offset: u64,
    pub io_num_blocks: u64,
    pub timestamp: u64,
}

/// A bounded first-in-first-out channel from one source reactor to the
/// management reactor.
pub struct DispatchQueue {
    msgs: Vec<ErrorRecordMsg>,
    capacity: usize,
    dropped: u64,
}

impl DispatchQueue {
    /// The queued messages, oldest first.
    pub closed spec fn view(self) -> Seq<ErrorRecordMsg> {
        self.msgs@
    }

    /// The fixed bound of the channel.
    pub closed spec fn capacity(self) -> nat {
        self.capacity as nat
    }

    /// How many records were dropped on overflow (saturating).
    pub closed spec fn dropped(self) -> nat {
        self.dropped as nat
    }

    /// Structural invariant: the queue never exceeds its bound.
    pub closed spec fn wf(self) -> bool {
        &&& self.capacity >= 1
        &&& self.msgs@.len() <= self.capacity
    }

    /// An empty channel with the given bound.
    pub fn new(capacity: usize) -> (r: DispatchQueue)
        requires
            capacity >= 1,
        ensures
            r.wf(),
            r.capacity() == capacity,
            r@ == Seq::<ErrorRecordMsg>::empty(),
            r.dropped() == 0,
    {
        DispatchQueue { msgs: Vec::new(), capacity, dropped: 0 }
    }

    /// Non-blocking, fire-and-forget submission: the message is appended
    /// unless the channel is full, in which case it is dropped and the drop
    /// counter advances (saturating).
    pub fn send(&mut self, m: ErrorRecordMsg)
        requires
            old(self).wf(),
        ensures
            final(self).wf(),
            final(self).capacity() == old(self).capacity(),
            if old(self)@.len() < old(self).capacity() {
                final(self)@ == old(self)@.push(m) && final(self).dropped() == old(self).dropped()
            } else {
                final(self)@ == old(self)@ && final(self).dropped() == if old(self).dropped()
                    < u64::MAX {
                    old(self).dropped() + 1
                } else {
                    old(self).dropped()
                }
            },
    {
        if self.msgs.len() < self.capacity {
            self.msgs.push(m);
        } else if self.dropped < u64::MAX {
            self.dropped += 1;
        }
    }

    /// Take the oldest message, if any: delivery follows submission order.
    pub fn recv(&mut self) -> (r: Option<ErrorRecordMsg>)
        requires
            old(self).wf(),
        ensures
            final(self).wf(),
            final(self).capacity() == old(self).capacity(),
            final(self).dropped() == old(self).dropped(),
            match r {
                Some(m) => old(self)@.len() > 0 && m == old(self)@[0] && final(self)@ == old(
                    self,
                )@.drop_first(),
                None => old(self)@.len() == 0 && final(self)@ == old(self)@,
            },
    {
        if self.msgs.len() == 0 {
            None
        } else {
            let m = self.msgs.remove(0);
            proof {
                assert(self.msgs@ =~= old(self).msgs@.drop_first());
            }
            Some(m)
        }
    }
}

} // verus!
