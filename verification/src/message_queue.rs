//! Bounded broadcast of session events to any number of subscribers.
//!
//! Every pushed message gets the next sequence number. The queue retains at
//! most `capacity` messages: pushing onto a full queue discards the oldest.
//! A subscriber holds a cursor (the sequence number it has read up to) and
//! polls for everything since it; a cursor that has fallen behind the
//! retention window gets `CursorExpired` and must resynchronize from a full
//! tree read. Polling never blocks: the transport layer decides how to wait
//! between polls.

use vstd::prelude::*;
use crate::rbx_snapshot::{PatchNode, PatchNodeData, patch_view};

verus! {

/// An immutable event record: a batch's patches, its sequence number, and
/// the caller-supplied timestamp.
#[derive(Debug, PartialEq, Eq)]
pub struct Message {
    pub number: u64,
    pub patches: Vec<PatchNode>,
    pub timestamp: u64,
}

/// Ghost mirror of `Message`.
#[verifier::ext_equal]
pub struct MessageData {
    pub number: nat,
    pub patches: Seq<PatchNodeData>,
    pub timestamp: nat,
}

/// The ghost value of a message.
pub open spec fn message_view(m: Message) -> MessageData {
    MessageData {
        number: m.number as nat,
        patches: Seq::new(
            m.patches.len() as nat,
            |i: int|
                if 0 <= i < m.patches.len() {
                    patch_view(m.patches[i as int])
                } else {
                    vstd::pervasive::arbitrary()
                },
        ),
        timestamp: m.timestamp as nat,
    }
}

impl View for Message {
    type V = MessageData;

    open spec fn view(&self) -> MessageData {
        message_view(*self)
    }
}

/// Why a poll failed.
#[derive(Clone, Copy, Debug, PartialEq, Eq, Structural)]
pub enum PollError {
    /// The cursor fell behind the retention window: the subscriber must
    /// resynchronize by reading the full tree state.
    CursorExpired,
    /// The cursor is ahead of everything pushed so far: it did not come from
    /// this queue's present lifetime.
    CursorAhead,
}

/// Bounded pub/sub queue of messages.
pub struct MessageQueue {
    messages: Vec<Message>,
    start: u64,
    capacity: usize,
}

impl MessageQueue {
    /// The retained messages, oldest first.
    pub closed spec fn msgs(&self) -> Seq<MessageData> {
        Seq::new(
            self.messages.len() as nat,
            |i: int|
                if 0 <= i < self.messages.len() {
                    message_view(self.messages[i as int])
                } else {
                    vstd::pervasive::arbitrary()
                },
        )
    }

    /// The sequence number of the oldest retained message.
    pub closed spec fn start_seq(&self) -> nat {
        self.start as nat
    }

    /// The sequence number the next push will get.
    pub open spec fn next_seq(&self) -> nat {
        self.start_seq() + self.msgs().len()
    }

    /// The most messages the queue retains.
    pub closed spec fn cap(&self) -> nat {
        self.capacity as nat
    }

    /// Numbers are consecutive from `start_seq`, there is room to count, and
    /// no more than `capacity` messages are retained.
    pub open spec fn wf(&self) -> bool {
        &&& forall|i: int| 0 <= i < self.msgs().len() ==> self.msgs()[i].number == self.start_seq() + i
        &&& self.next_seq() <= u64::MAX as nat
        &&& self.msgs().len() <= self.cap()
        &&& self.cap() >= 1
    }

    /// An empty queue retaining at most `capacity` messages.
    pub fn new(capacity: usize) -> (q: MessageQueue)
        requires
            capacity >= 1,
        ensures
            q.wf(),
            q.msgs().len() == 0,
            q.start_seq() == 0,
            q.cap() == capacity as nat,
    {
        MessageQueue { messages: Vec::new(), start: 0, capacity }
    }

    /// The sequence number the next push will be given.
    pub fn next_sequence(&self) -> (n: u64)
        requires
            self.wf(),
        ensures
            n as nat == self.next_seq(),
    {
        self.start + (self.messages.len() as u64)
    }

    /// Appends a batch's patches as one message and returns its sequence
    /// number. Never coalesces: each push is its own message, ordered after
    /// every earlier one. Discards the oldest message when full.
    pub fn push(&mut self, patches: Vec<PatchNode>, timestamp: u64) -> (n: u64)
        requires
            old(self).wf(),
            old(self).next_seq() < u64::MAX as nat,
        ensures
            final(self).wf(),
            n as nat == old(self).next_seq(),
            final(self).next_seq() == old(self).next_seq() + 1,
            final(self).msgs().len() == if old(self).msgs().len() < old(self).cap() {
                old(self).msgs().len() + 1
            } else {
                old(self).msgs().len()
            },
            final(self).msgs().last().number == n as nat,
            final(self).msgs().last().timestamp == timestamp as nat,
            final(self).msgs().last().patches.len() == patches.len(),
            forall|j: int|
                0 <= j < patches.len() ==> final(self).msgs().last().patches[j] == patch_view(
                    patches@[j],
                ),
            final(self).cap() == old(self).cap(),
            forall|i: int|
                0 <= i < final(self).msgs().len() - 1 ==> final(self).msgs()[i] == old(
                    self,
                ).msgs()[i + (old(self).msgs().len() - (final(self).msgs().len() - 1))],
    {
        let n = self.start + (self.messages.len() as u64);
        let ghost dropped: int = if old(self).msgs().len() == old(self).cap() {
            1
        } else {
            0
        };
        if self.messages.len() == self.capacity {
            let _ = self.messages.remove(0);
            self.start = self.start + 1;
        }
        let m = Message { number: n, patches, timestamp };
        self.messages.push(m);
        proof {
            let f = self.msgs();
            assert(f.len() == old(self).msgs().len() + 1 - dropped);
            assert forall|i: int| 0 <= i < f.len() - 1 implies f[i] == old(self).msgs()[i
                + dropped] by {
                assert(self.messages@[i] == old(self).messages@[i + dropped]);
            }
            assert(f.last() == message_view(self.messages@.last()));
            assert forall|i: int| 0 <= i < f.len() implies f[i].number == self.start_seq()
                + i by {
                if i < f.len() - 1 {
                    assert(old(self).msgs()[i + dropped].number == old(self).start_seq() + i
                        + dropped);
                }
            }
            assert(f.last().patches =~= Seq::new(
                m.patches.len() as nat,
                |j: int|
                    if 0 <= j < m.patches.len() {
                        patch_view(m.patches[j as int])
                    } else {
                        vstd::pervasive::arbitrary()
                    },
            ));
        }
        n
    }

    /// A fresh subscriber cursor, positioned at the tail: it will see only
    /// messages pushed after this call.
    pub fn subscribe(&self) -> (c: u64)
        requires
            self.wf(),
        ensures
            c as nat == self.next_seq(),
    {
        self.next_sequence()
    }

    /// Everything pushed since `cursor`, oldest first, and the new cursor.
    /// `CursorExpired` exactly when the cursor fell behind the retention
    /// window. An empty slice with the same cursor means nothing new yet:
    /// the caller may poll again later.
    pub fn poll(&self, cursor: u64) -> (r: Result<(Vec<Message>, u64), PollError>)
        requires
            self.wf(),
        ensures
            (cursor as nat) < self.start_seq() <==> r == Result::<(Vec<Message>, u64), PollError>::Err(
                PollError::CursorExpired,
            ),
            (cursor as nat) > self.next_seq() <==> r == Result::<(Vec<Message>, u64), PollError>::Err(
                PollError::CursorAhead,
            ),
            match r {
                Ok(pr) => {
                    &&& pr.1 as nat == self.next_seq()
                    &&& pr.0@.len() == self.next_seq() - cursor as nat
                    &&& forall|j: int|
                        0 <= j < pr.0@.len() ==> pr.0@[j]@ == self.msgs()[cursor as nat
                            - self.start_seq() + j]
                },
                Err(_) => true,
            },
    {
        if cursor < self.start {
            return Err(PollError::CursorExpired);
        }
        let have = self.messages.len();
        let offset = cursor - self.start;
        if offset > have as u64 {
            return Err(PollError::CursorAhead);
        }
        let mut out: Vec<Message> = Vec::new();
        let mut i: usize = offset as usize;
        while i < self.messages.len()
            invariant
                offset as int <= i as int <= self.messages.len(),
                out@.len() == i as int - offset as int,
                forall|j: int|
                    0 <= j < out@.len() ==> out@[j]@ == self.msgs()[offset as int + j],
            decreases self.messages.len() - i,
        {
            out.push(self.duplicate_message(i));
            i = i + 1;
        }
        Ok((out, self.next_sequence()))
    }

    /// An owned copy of the retained message at `i`.
    fn duplicate_message(&self, i: usize) -> (m: Message)
        requires
            i < self.messages@.len(),
        ensures
            m@ == self.msgs()[i as int],
    {
        let src = &self.messages[i];
        let mut patches: Vec<PatchNode> = Vec::new();
        let mut j: usize = 0;
        while j < src.patches.len()
            invariant
                j <= src.patches.len(),
                patches@.len() == j as int,
                forall|k: int| 0 <= k < j as int ==> patch_view(patches@[k]) == patch_view(
                    src.patches@[k],
                ),
            decreases src.patches.len() - j,
        {
            patches.push(src.patches[j].duplicate());
            j = j + 1;
        }
        let m = Message { number: src.number, patches, timestamp: src.timestamp };
        proof {
            assert(m@.patches =~= src@.patches);
            assert(m@ =~= message_view(*src));
        }
        m
    }
}

} // verus!