//! The bounded queue of key events between the scanners and the resolver.
//!
//! Events leave in the order in which they arrived. The queue numbers them
//! on arrival. A producer is never made to wait: when the queue is full, the
//! oldest event makes room for the new one.

use vstd::prelude::*;
use crate::config::HalfConfig;
use crate::event::{KeyEvent, LogicalCoordinate};
use crate::split::SplitFrame;

verus! {

/// Why an event was not queued.
#[derive(Clone, Copy, Debug, PartialEq, Eq, Structural)]
pub enum ChannelError {
    /// The local coordinate does not lie on the half it is said to come
    /// from.
    OutOfRange,
    /// Every sequence number has been given out.
    SequenceExhausted,
}

/// The mathematical content of the queue.
pub struct ChannelView {
    /// The queued events, oldest first.
    pub events: Seq<KeyEvent>,
    /// The most events that the queue holds.
    pub capacity: nat,
    /// The number that the next event gets.
    pub next_sequence: u64,
}

impl ChannelView {
    /// A valid queue holds no more than its capacity, and its events carry
    /// increasing numbers, all below the next to be given out.
    pub open spec fn wf(self) -> bool {
        &&& self.capacity >= 1
        &&& self.events.len() <= self.capacity
        &&& forall|i: int, j: int|
            0 <= i < j < self.events.len() ==> (#[trigger] self.events[i]).sequence < (
            #[trigger] self.events[j]).sequence
        &&& forall|i: int|
            0 <= i < self.events.len() ==> (#[trigger] self.events[i]).sequence
                < self.next_sequence
    }

    /// The events after room was made for one more.
    pub open spec fn with_room(self) -> Seq<KeyEvent> {
        if self.events.len() == self.capacity {
            self.events.remove(0)
        } else {
            self.events
        }
    }

    /// The event that a push creates.
    pub open spec fn stamped(self, coordinate: LogicalCoordinate, pressed: bool) -> KeyEvent {
        KeyEvent { coordinate, pressed, sequence: self.next_sequence }
    }

    /// The queue after a push.
    pub open spec fn pushed(self, coordinate: LogicalCoordinate, pressed: bool) -> ChannelView {
        ChannelView {
            events: self.with_room().push(self.stamped(coordinate, pressed)),
            capacity: self.capacity,
            next_sequence: (self.next_sequence + 1) as u64,
        }
    }

    /// The event that a push drops to make room, if it drops one.
    pub open spec fn dropped(self) -> Option<KeyEvent> {
        if self.events.len() == self.capacity {
            Some(self.events[0])
        } else {
            None
        }
    }
}

/// The queue after the frames of one half were delivered in order. A frame
/// whose coordinate does not lie on the half is discarded, and so is one for
/// which no sequence number is left.
pub open spec fn delivered(v: ChannelView, half: HalfConfig, frames: Seq<SplitFrame>) -> ChannelView
    decreases frames.len(),
{
    if frames.len() == 0 {
        v
    } else {
        let before = delivered(v, half, frames.drop_last());
        let f = frames.last();
        if half.holds(f.row, f.col) && before.next_sequence < u64::MAX {
            before.pushed(half.logical(f.row, f.col), f.pressed)
        } else {
            before
        }
    }
}

/// The queue of key events.
#[derive(Debug)]
pub struct EventChannel {
    queue: Vec<KeyEvent>,
    capacity: usize,
    next_sequence: u64,
}

impl EventChannel {
    /// The mathematical content of the queue.
    pub closed spec fn view(&self) -> ChannelView {
        ChannelView {
            events: self.queue@,
            capacity: self.capacity as nat,
            next_sequence: self.next_sequence,
        }
    }

    /// An empty queue of the given capacity, which has to be positive.
    pub fn new(capacity: usize) -> (res: Option<EventChannel>)
        ensures
            res is Some <==> capacity >= 1,
            res is Some ==> res.unwrap()@.wf() && res.unwrap()@ == (ChannelView {
                events: Seq::empty(),
                capacity: capacity as nat,
                next_sequence: 0,
            }),
    {
        if capacity == 0 {
            None
        } else {
            Some(EventChannel { queue: Vec::new(), capacity, next_sequence: 0 })
        }
    }

    /// An empty queue of the given capacity, which has to be positive, whose
    /// first event gets the given number.
    pub fn starting_at(capacity: usize, first_sequence: u64) -> (res: Option<EventChannel>)
        ensures
            res is Some <==> capacity >= 1,
            res is Some ==> res.unwrap()@.wf() && res.unwrap()@ == (ChannelView {
                events: Seq::empty(),
                capacity: capacity as nat,
                next_sequence: first_sequence,
            }),
    {
        if capacity == 0 {
            None
        } else {
            Some(EventChannel { queue: Vec::new(), capacity, next_sequence: first_sequence })
        }
    }

    /// The number that the next event gets.
    pub fn next_sequence(&self) -> (res: u64)
        ensures
            res == self@.next_sequence,
    {
        self.next_sequence
    }

    /// Number of queued events.
    pub fn len(&self) -> (res: usize)
        ensures
            res == self@.events.len(),
    {
        self.queue.len()
    }

    /// Whether no event is queued.
    pub fn is_empty(&self) -> (res: bool)
        ensures
            res == (self@.events.len() == 0),
    {
        self.queue.len() == 0
    }

    /// Whether the next push drops the oldest event.
    pub fn is_full(&self) -> (res: bool)
        ensures
            res == (self@.events.len() >= self@.capacity),
    {
        self.queue.len() >= self.capacity
    }

    /// The most events that the queue holds.
    pub fn capacity(&self) -> (res: usize)
        ensures
            res == self@.capacity,
    {
        self.capacity
    }

    /// Queues a change of the key at the coordinate, numbered after all
    /// events before it. Where the queue is full the oldest event is dropped
    /// and returned.
    pub fn push(&mut self, coordinate: LogicalCoordinate, pressed: bool) -> (res: Result<
        Option<KeyEvent>,
        ChannelError,
    >)
        requires
            old(self)@.wf(),
        ensures
            final(self)@.wf(),
            old(self)@.next_sequence == u64::MAX ==> res == Err::<Option<KeyEvent>, ChannelError>(
                ChannelError::SequenceExhausted,
            ) && final(self)@ == old(self)@,
            old(self)@.next_sequence < u64::MAX ==> res == Ok::<Option<KeyEvent>, ChannelError>(
                old(self)@.dropped(),
            ) && final(self)@ == old(self)@.pushed(coordinate, pressed),
    {
        if self.next_sequence == u64::MAX {
            return Err(ChannelError::SequenceExhausted);
        }
        let dropped = if self.queue.len() >= self.capacity {
            Some(self.queue.remove(0))
        } else {
            None
        };
        self.queue.push(KeyEvent { coordinate, pressed, sequence: self.next_sequence });
        self.next_sequence = self.next_sequence + 1;
        Ok(dropped)
    }

    /// Queues a change of a key of one half, given by its local coordinate.
    pub fn push_from_half(&mut self, half: &HalfConfig, row: u8, col: u8, pressed: bool) -> (res:
        Result<Option<KeyEvent>, ChannelError>)
        requires
            old(self)@.wf(),
            half.wf(),
        ensures
            final(self)@.wf(),
            !half.holds(row, col) ==> res == Err::<Option<KeyEvent>, ChannelError>(
                ChannelError::OutOfRange,
            ) && final(self)@ == old(self)@,
            half.holds(row, col) && old(self)@.next_sequence == u64::MAX ==> res == Err::<
                Option<KeyEvent>,
                ChannelError,
            >(ChannelError::SequenceExhausted) && final(self)@ == old(self)@,
            half.holds(row, col) && old(self)@.next_sequence < u64::MAX ==> res == Ok::<
                Option<KeyEvent>,
                ChannelError,
            >(old(self)@.dropped()) && final(self)@ == old(self)@.pushed(
                half.logical(row, col),
                pressed,
            ),
    {
        match half.to_logical(row, col) {
            None => Err(ChannelError::OutOfRange),
            Some(coordinate) => self.push(coordinate, pressed),
        }
    }

    /// Queues the changes that the frames of one half report, in the order
    /// of the frames.
    pub fn push_frames(&mut self, half: &HalfConfig, frames: &Vec<SplitFrame>)
        requires
            old(self)@.wf(),
            half.wf(),
        ensures
            final(self)@.wf(),
            final(self)@ == delivered(old(self)@, *half, frames@),
    {
        let mut i: usize = 0;
        assert(frames@.take(0) =~= Seq::<SplitFrame>::empty());
        while i < frames.len()
            invariant
                0 <= i <= frames@.len(),
                half.wf(),
                self@.wf(),
                self@ == delivered(old(self)@, *half, frames@.take(i as int)),
            decreases frames@.len() - i,
        {
            proof {
                let next = frames@.take(i + 1);
                assert(next.last() == frames@[i as int]);
                assert(next.drop_last() =~= frames@.take(i as int));
            }
            let f = frames[i];
            let _ = self.push_from_half(half, f.row, f.col, f.pressed);
            i = i + 1;
        }
        assert(frames@.take(i as int) =~= frames@);
    }

    /// Takes the oldest event out of the queue.
    pub fn pop(&mut self) -> (res: Option<KeyEvent>)
        requires
            old(self)@.wf(),
        ensures
            final(self)@.wf(),
            final(self)@.capacity == old(self)@.capacity,
            final(self)@.next_sequence == old(self)@.next_sequence,
            old(self)@.events.len() == 0 ==> res is None && final(self)@ == old(self)@,
            old(self)@.events.len() > 0 ==> res == Some(old(self)@.events[0])
                && final(self)@.events == old(self)@.events.remove(0),
    {
        if self.queue.len() == 0 {
            None
        } else {
            Some(self.queue.remove(0))
        }
    }
}

/// Whatever is pushed and popped, events leave in the order of their numbers:
/// an event that is still queued after a push was numbered before the event
/// that the push added, and kept its place.
pub proof fn lemma_push_keeps_order(v: ChannelView, coordinate: LogicalCoordinate, pressed: bool)
    requires
        v.wf(),
        v.next_sequence < u64::MAX,
    ensures
        v.pushed(coordinate, pressed).wf(),
        v.pushed(coordinate, pressed).events.last() == v.stamped(coordinate, pressed),
        v.pushed(coordinate, pressed).events.drop_last() == v.with_room(),
        forall|i: int|
            0 <= i < v.with_room().len() ==> (#[trigger] v.with_room()[i]).sequence
                < v.next_sequence,
{
    assert(v.pushed(coordinate, pressed).events.drop_last() =~= v.with_room());
}

} // verus!
