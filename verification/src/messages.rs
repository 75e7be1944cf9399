//! Messages that tasks leave behind.

use std::collections::VecDeque;
use vstd::prelude::*;

use crate::time::Timestamp;

pub mod merge;
pub mod selection;

verus! {

/// The severity of a message.
#[derive(Copy, Clone, PartialEq, Eq, Structural, Debug)]
pub enum MessageLevel {
    /// Something worth knowing.
    Info,
    /// A task failed.
    Failure,
    /// A task succeeded.
    Success,
}

/// A message left by a task.
#[derive(PartialEq, Eq, Debug)]
pub struct Message {
    /// When it was left.
    pub time: Timestamp,
    /// Its severity.
    pub level: MessageLevel,
    /// The name of the task that left it.
    pub origin: String,
    /// Its text.
    pub message: String,
}

impl Clone for Message {
    fn clone(&self) -> (res: Message)
        ensures
            res == *self,
    {
        Message {
            time: self.time,
            level: self.level,
            origin: self.origin.clone(),
            message: self.message.clone(),
        }
    }
}

impl Message {
    /// Whether both messages have the same content.
    pub open spec fn same(self, other: Message) -> bool {
        &&& self.time == other.time
        &&& self.level == other.level
        &&& self.origin@ == other.origin@
        &&& self.message@ == other.message@
    }

    /// Whether both messages have the same content.
    pub fn is_same(&self, other: &Message) -> (res: bool)
        ensures
            res == self.same(*other),
    {
        self.time == other.time && self.level == other.level && self.origin == other.origin
            && self.message == other.message
    }
}

/// Whether `messages` has one with the content of `message`.
pub open spec fn retains(messages: Seq<Message>, message: Message) -> bool {
    exists|i: int| 0 <= i < messages.len() && (#[trigger] messages[i]).same(message)
}

/// `messages` after one more arrived, where at most `capacity` are retained: the oldest one gives
/// way if there is no room.
pub open spec fn pushed(messages: Seq<Message>, capacity: usize, message: Message) -> Seq<Message> {
    if capacity == 0 {
        messages
    } else if messages.len() < capacity {
        messages.push(message)
    } else {
        messages.drop_first().push(message)
    }
}

/// The most recent messages, up to a fixed number of them.
#[derive(Debug)]
pub struct MessageRingBuffer {
    buf: VecDeque<Message>,
    capacity: usize,
}

impl View for MessageRingBuffer {
    type V = Seq<Message>;

    /// The retained messages, oldest first.
    closed spec fn view(&self) -> Seq<Message> {
        self.buf@
    }
}

impl MessageRingBuffer {
    /// How many messages are retained at most.
    pub closed spec fn limit(self) -> usize {
        self.capacity
    }

    /// No more messages are retained than the limit allows.
    pub open spec fn wf(self) -> bool {
        self@.len() <= self.limit()
    }

    /// A buffer that retains up to `capacity` messages, and has none yet.
    pub fn with_capacity(capacity: usize) -> (res: MessageRingBuffer)
        ensures
            res.wf(),
            res@ == Seq::<Message>::empty(),
            res.limit() == capacity,
    {
        MessageRingBuffer { buf: VecDeque::new(), capacity }
    }

    /// Retain a message, in place of the oldest one if there is no room.
    pub fn push_overwrite_at(
        &mut self,
        time: Timestamp,
        level: MessageLevel,
        origin: String,
        message: String,
    )
        requires
            old(self).wf(),
        ensures
            final(self).wf(),
            final(self).limit() == old(self).limit(),
            final(self)@ == pushed(
                old(self)@,
                old(self).limit(),
                Message { time, level, origin, message },
            ),
    {
        if self.capacity == 0 {
            return ;
        }
        if self.buf.len() >= self.capacity {
            let _ = self.buf.pop_front();
        }
        self.buf.push_back(Message { time, level, origin, message });
    }

    /// Whether a message with this content is retained.
    pub fn contains(&self, message: &Message) -> (res: bool)
        ensures
            res == retains(self@, *message),
    {
        for i in 0..self.buf.len()
            invariant
                forall|j: int| 0 <= j < i ==> !(#[trigger] self@[j]).same(*message),
        {
            if self.buf[i].is_same(message) {
                assert(self@[i as int].same(*message));
                return true;
            }
        }
        false
    }

    /// Replace the contents of `out` by the retained messages, oldest first.
    pub fn copy_all(&self, out: &mut Vec<Message>)
        ensures
            final(out)@ == self@,
    {
        out.clear();
        for i in 0..self.buf.len()
            invariant
                out@ == self@.take(i as int),
        {
            out.push(self.buf[i].clone());
            assert(self@.take(i + 1) =~= self@.take(i as int).push(self@[i as int]));
        }
        assert(self@.take(self@.len() as int) =~= self@);
    }

    /// How many messages are retained at most.
    pub fn capacity(&self) -> (res: usize)
        ensures
            res == self.limit(),
    {
        self.capacity
    }
}

impl Clone for MessageRingBuffer {
    fn clone(&self) -> (res: MessageRingBuffer)
        ensures
            res@ == self@,
            res.limit() == self.limit(),
    {
        let buf = self.buf.clone();
        assert(buf@ =~= self.buf@);
        MessageRingBuffer { buf, capacity: self.capacity }
    }
}

} // verus!
