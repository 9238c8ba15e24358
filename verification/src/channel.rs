use vstd::prelude::*;
use crate::fs_tree::Match;
use crate::scan::match_views;

verus! {

/// What one receive attempt observes: an item, an empty-but-open channel (the
/// consumer would suspend and try again), or a closed channel (every producer
/// handle has been released and the buffer is drained).
pub enum RecvOutcome {
    Item(Match),
    WouldBlock,
    Closed,
}

/// What one send attempt does: the item is accepted, or the buffer is at
/// capacity and the item comes back to the producer (which would suspend and
/// retry).
pub enum SendOutcome {
    Accepted,
    Full(Match),
}

/// The state of the bounded multi-producer/single-consumer channel that
/// connects the traversal units to the consumer: the unread items in arrival
/// order, the fixed capacity, and the number of live producer handles. The
/// channel is closed exactly when no producer handle is left; closure is
/// monotonic, as no operation below ever creates a handle out of nothing.
pub struct Channel {
    pub items: Vec<Match>,
    pub capacity: usize,
    pub producers: usize,
}

impl Channel {
    /// The one shared-resource invariant: the channel never holds more unread
    /// items than its fixed capacity.
    pub open spec fn wf(&self) -> bool {
        self.items@.len() <= self.capacity
    }

    /// A channel is closed once every producer handle has been released.
    pub open spec fn is_closed(&self) -> bool {
        self.producers == 0
    }

    /// A fresh channel with one producer handle, as channel creation hands
    /// one sender to its caller.
    pub fn new(capacity: usize) -> (c: Channel)
        requires
            capacity >= 1,
        ensures
            c.wf(),
            c.items@.len() == 0,
            c.capacity == capacity,
            c.producers == 1,
    {
        Channel { items: Vec::new(), capacity, producers: 1 }
    }

    /// Hands a cloned producer handle to a newly spawned traversal unit.
    pub fn clone_handle(&mut self)
        requires
            old(self).producers >= 1,
            old(self).producers < usize::MAX,
        ensures
            final(self).producers == old(self).producers + 1,
            final(self).items == old(self).items,
            final(self).capacity == old(self).capacity,
    {
        self.producers = self.producers + 1;
    }

    /// Releases one producer handle; the last release closes the channel.
    pub fn release_handle(&mut self)
        requires
            old(self).producers >= 1,
        ensures
            final(self).producers == old(self).producers - 1,
            final(self).items == old(self).items,
            final(self).capacity == old(self).capacity,
    {
        self.producers = self.producers - 1;
    }

    /// One send attempt by a producer. The item is queued exactly when the
    /// buffer is below capacity; a full buffer returns the item, so nothing
    /// is ever lost, and the buffer never grows past the capacity.
    pub fn try_send(&mut self, m: Match) -> (r: SendOutcome)
        requires
            old(self).wf(),
            old(self).producers >= 1,
        ensures
            final(self).wf(),
            final(self).capacity == old(self).capacity,
            final(self).producers == old(self).producers,
            match r {
                SendOutcome::Accepted => {
                    &&& old(self).items@.len() < old(self).capacity
                    &&& final(self).items@ == old(self).items@.push(m)
                },
                SendOutcome::Full(back) => {
                    &&& old(self).items@.len() == old(self).capacity
                    &&& final(self).items == old(self).items
                    &&& back == m
                },
            },
    {
        if self.items.len() < self.capacity {
            self.items.push(m);
            SendOutcome::Accepted
        } else {
            SendOutcome::Full(m)
        }
    }

    /// One receive attempt by the consumer: the oldest unread item if there
    /// is one; otherwise whether the channel is merely empty or closed for
    /// good.
    pub fn recv(&mut self) -> (r: RecvOutcome)
        requires
            old(self).wf(),
        ensures
            final(self).wf(),
            final(self).capacity == old(self).capacity,
            final(self).producers == old(self).producers,
            match r {
                RecvOutcome::Item(m) => {
                    &&& old(self).items@.len() > 0
                    &&& m == old(self).items@[0]
                    &&& final(self).items@ == old(self).items@.skip(1)
                },
                RecvOutcome::WouldBlock => {
                    &&& old(self).items@.len() == 0
                    &&& !old(self).is_closed()
                    &&& final(self).items == old(self).items
                },
                RecvOutcome::Closed => {
                    &&& old(self).items@.len() == 0
                    &&& old(self).is_closed()
                    &&& final(self).items == old(self).items
                },
            },
    {
        if self.items.len() > 0 {
            let m = self.items.remove(0);
            proof {
                assert(self.items@ =~= old(self).items@.skip(1));
            }
            RecvOutcome::Item(m)
        } else if self.producers == 0 {
            RecvOutcome::Closed
        } else {
            RecvOutcome::WouldBlock
        }
    }
}

/// A whole producer/consumer run against one bounded channel: the producer
/// offers every pending match in order, yielding to the consumer whenever the
/// channel is full (the capacity is the only backpressure mechanism), and the
/// consumer drains the rest once the producer's handle is released. The
/// consumer receives exactly the pending matches, in order: none lost, none
/// duplicated, and the buffer never exceeds its capacity along the way.
pub fn stream_through(ch: &mut Channel, pending: Vec<Match>) -> (delivered: Vec<Match>)
    requires
        old(ch).wf(),
        old(ch).capacity >= 1,
        old(ch).producers == 1,
        old(ch).items@.len() == 0,
    ensures
        final(ch).wf(),
        final(ch).is_closed(),
        final(ch).items@.len() == 0,
        match_views(delivered@) == match_views(pending@),
{
    let ghost cap = ch.capacity;
    let mut delivered: Vec<Match> = Vec::new();
    let mut pending = pending;
    let ghost pending0 = pending@;
    proof {
        assert(match_views(delivered@) + match_views(ch.items@) + match_views(pending@)
            =~= match_views(pending0));
    }
    while pending.len() > 0
        invariant
            ch.wf(),
            ch.capacity == cap,
            cap >= 1,
            ch.producers == 1,
            match_views(delivered@) + match_views(ch.items@) + match_views(pending@)
                == match_views(pending0),
        decreases 2 * pending@.len() + ch.items@.len(),
    {
        let ghost items_prev = ch.items@;
        let ghost pending_prev = pending@;
        let ghost delivered_prev = delivered@;
        let m = pending.remove(0);
        match ch.try_send(m) {
            SendOutcome::Accepted => {
                proof {
                    assert(pending@ =~= pending_prev.skip(1));
                    assert(match_views(delivered@) + match_views(ch.items@) + match_views(pending@)
                        =~= match_views(pending0)) by {
                        assert(match_views(ch.items@) =~= match_views(items_prev).push(
                            pending_prev[0]@,
                        ));
                        assert(seq![pending_prev[0]@] + match_views(pending@)
                            =~= match_views(pending_prev));
                        assert(match_views(delivered_prev) + match_views(items_prev).push(
                            pending_prev[0]@,
                        ) + match_views(pending@) =~= match_views(delivered_prev) + match_views(
                            items_prev,
                        ) + match_views(pending_prev));
                    }
                }
            },
            SendOutcome::Full(back) => {
                // the channel is at capacity: yield to the consumer, then
                // put the match back at the head of the pending work
                pending.insert(0, back);
                proof {
                    assert(pending@ =~= pending_prev);
                }
                match ch.recv() {
                    RecvOutcome::Item(x) => {
                        delivered.push(x);
                        proof {
                            assert(match_views(delivered@) + match_views(ch.items@) + match_views(
                                pending@,
                            ) =~= match_views(pending0)) by {
                                assert(match_views(delivered@) =~= match_views(
                                    delivered_prev,
                                ).push(items_prev[0]@));
                                assert(seq![items_prev[0]@] + match_views(ch.items@)
                                    =~= match_views(items_prev));
                                assert(match_views(delivered_prev).push(items_prev[0]@)
                                    + match_views(ch.items@) =~= match_views(delivered_prev)
                                    + match_views(items_prev));
                            }
                        }
                    },
                    RecvOutcome::WouldBlock => {
                        proof {
                            assert(false);
                        }
                    },
                    RecvOutcome::Closed => {
                        proof {
                            assert(false);
                        }
                    },
                }
            },
        }
    }
    // all traversal work is done: release the only producer handle, which
    // closes the channel, then drain what is still buffered
    ch.release_handle();
    proof {
        assert(match_views(delivered@) + match_views(ch.items@) =~= match_views(pending0));
    }
    loop
        invariant
            ch.wf(),
            ch.producers == 0,
            match_views(delivered@) + match_views(ch.items@) == match_views(pending0),
        ensures
            ch.wf(),
            ch.producers == 0,
            ch.items@.len() == 0,
            match_views(delivered@) + match_views(ch.items@) == match_views(pending0),
        decreases ch.items@.len(),
    {
        let ghost items_prev = ch.items@;
        let ghost delivered_prev = delivered@;
        match ch.recv() {
            RecvOutcome::Item(x) => {
                delivered.push(x);
                proof {
                    assert(match_views(delivered@) + match_views(ch.items@) =~= match_views(
                        pending0,
                    )) by {
                        assert(match_views(delivered@) =~= match_views(delivered_prev).push(
                            items_prev[0]@,
                        ));
                        assert(seq![items_prev[0]@] + match_views(ch.items@) =~= match_views(
                            items_prev,
                        ));
                        assert(match_views(delivered_prev).push(items_prev[0]@) + match_views(
                            ch.items@,
                        ) =~= match_views(delivered_prev) + match_views(items_prev));
                    }
                }
            },
            RecvOutcome::WouldBlock => {
                proof {
                    assert(false);
                }
            },
            RecvOutcome::Closed => {
                break ;
            },
        }
    }
    proof {
        assert(match_views(delivered@) =~= match_views(pending0));
    }
    delivered
}

} // verus!
