//! Transient banner messages.  They queue first-in first-out, only the head
//! is visible, and only the head ages; each later message waits its full
//! duration after reaching the head.

use std::collections::VecDeque;

use vstd::prelude::*;

use crate::explosion::max_frame_ms;

verus! {

/// One banner: its text, how long it shows, and how long it has shown.
/// Times are milliseconds.
#[derive(Clone, Debug)]
pub struct Message {
    pub text: String,
    pub duration: u32,
    pub elapsed: u32,
}

pub open spec fn wf_message(m: Message) -> bool {
    &&& m.duration <= 1_000_000
    &&& m.elapsed <= m.duration + max_frame_ms()
}

pub open spec fn wf_messages(q: Seq<Message>) -> bool {
    forall|i: int| 0 <= i < q.len() ==> wf_message(#[trigger] q[i])
}

impl Message {
    /// A fresh banner that will show for `duration` milliseconds.
    pub fn new(text: String, duration: u32) -> (m: Message)
        requires
            duration <= 1_000_000,
        ensures
            m.text == text,
            m.duration == duration,
            m.elapsed == 0,
            wf_message(m),
    {
        Message { text, duration, elapsed: 0 }
    }
}

/// The queue after one frame: the head (and only the head) ages by `dt`,
/// and leaves the queue once its time is up.  An empty queue stays empty.
pub open spec fn spec_messages_step(q: Seq<Message>, dt: int) -> Seq<Message> {
    if q.len() == 0 {
        q
    } else {
        let head = Message { elapsed: (q[0].elapsed + dt) as u32, ..q[0] };
        if head.elapsed >= head.duration {
            q.skip(1)
        } else {
            q.update(0, head)
        }
    }
}

/// Advances the banner queue by one frame.  At most one entry is visible at
/// a time (the head), so this touches nothing behind it.
pub fn update_messages(messages: &mut VecDeque<Message>, dt: u32)
    requires
        wf_messages(old(messages)@),
        dt <= max_frame_ms(),
    ensures
        wf_messages(final(messages)@),
        final(messages)@ == spec_messages_step(old(messages)@, dt as int),
{
    if messages.len() > 0 {
        let mut head = messages.pop_front().unwrap();
        assert(wf_message(head));
        head.elapsed = head.elapsed + dt;
        if head.elapsed >= head.duration {
            proof {
                assert(final(messages)@ =~= spec_messages_step(old(messages)@, dt as int));
            }
        } else {
            messages.push_front(head);
            proof {
                assert(messages@ =~= spec_messages_step(old(messages)@, dt as int));
            }
        }
    }
}

} // verus!
