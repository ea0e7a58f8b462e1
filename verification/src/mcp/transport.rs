//! How notifications reach the construct.
//!
//! They are written out as they come, or they wait in a queue until they are asked
//! for. The queue never holds up whoever puts something in: when it is full, what
//! has waited longest is dropped.

use std::collections::VecDeque;
use vstd::prelude::*;

verus! {

/// How notifications reach the construct.
#[derive(Clone, Copy, Debug, PartialEq, Eq, Structural)]
pub enum TransportMode {
    /// They are written out as they come.
    ClaudeCode,
    /// They wait in a queue.
    Codex,
}

impl Default for TransportMode {
    fn default() -> (r: Self)
        ensures
            r == TransportMode::ClaudeCode,
    {
        TransportMode::ClaudeCode
    }
}

/// A bounded queue of notifications.
pub struct NotificationQueue<T> {
    capacity: usize,
    notifications: VecDeque<T>,
    closed: bool,
    overflow_warning_emitted: bool,
}

/// A [`NotificationQueue`] as a value.
#[verifier::ext_equal]
pub struct QueueState<T> {
    pub capacity: nat,
    pub notifications: Seq<T>,
    pub closed: bool,
    /// Whether it has been said since the last drain that something was dropped.
    pub warned: bool,
}

impl<T> View for NotificationQueue<T> {
    type V = QueueState<T>;

    closed spec fn view(&self) -> QueueState<T> {
        QueueState {
            capacity: self.capacity as nat,
            notifications: self.notifications@,
            closed: self.closed,
            warned: self.overflow_warning_emitted,
        }
    }
}

/// What became of a notification that was put in.
#[derive(Clone, Copy, Debug, PartialEq, Eq, Structural)]
pub struct Pushed {
    /// Whether it was taken.
    pub accepted: bool,
    /// Whether it has to be said that another was dropped for it.
    pub warn: bool,
}

/// What there was to take out.
pub enum QueueDrain<T> {
    /// These, oldest first.
    Notifications(Vec<T>),
    /// Nothing, until the time was up.
    TimedOut,
    /// Nothing, and nothing will come.
    Closed,
}

/// A queue after a notification was put in.
pub open spec fn after_push<T>(q: QueueState<T>, x: T) -> QueueState<T> {
    if q.closed {
        q
    } else if q.notifications.len() == q.capacity {
        QueueState { notifications: q.notifications.skip(1).push(x), warned: true, ..q }
    } else {
        QueueState { notifications: q.notifications.push(x), ..q }
    }
}

/// A queue after everything was taken out.
pub open spec fn after_drain<T>(q: QueueState<T>) -> QueueState<T> {
    if q.notifications.len() > 0 {
        QueueState { notifications: Seq::empty(), warned: false, ..q }
    } else {
        q
    }
}

impl<T> NotificationQueue<T> {
    /// The queue holds no more than it may.
    pub open spec fn wf(&self) -> bool {
        self@.capacity > 0 && self@.notifications.len() <= self@.capacity
    }

    /// An open queue for so many notifications. There has to be room for one.
    pub fn new(capacity: usize) -> (r: Self)
        requires
            capacity > 0,
        ensures
            r.wf(),
            r@ == (QueueState {
                capacity: capacity as nat,
                notifications: Seq::<T>::empty(),
                closed: false,
                warned: false,
            }),
    {
        let r: NotificationQueue<T> = NotificationQueue {
            capacity,
            notifications: VecDeque::new(),
            closed: false,
            overflow_warning_emitted: false,
        };
        assert(r@.notifications =~= Seq::<T>::empty());
        r
    }

    /// Puts a notification in, at once. A closed queue takes none; a full one drops
    /// the oldest, which is worth a word the first time after a drain.
    pub fn push(&mut self, notification: T) -> (r: Pushed)
        requires
            old(self).wf(),
        ensures
            final(self).wf(),
            final(self)@ == after_push(old(self)@, notification),
            r.accepted == !old(self)@.closed,
            r.warn == (!old(self)@.closed && old(self)@.notifications.len() == old(self)@.capacity
                && !old(self)@.warned),
    {
        if self.closed {
            return Pushed { accepted: false, warn: false };
        }
        let mut warn: bool = false;
        if self.notifications.len() == self.capacity {
            let ghost before = self.notifications@;
            let _ = self.notifications.pop_front();
            assert(self.notifications@ =~= before.skip(1));
            warn = !self.overflow_warning_emitted;
            self.overflow_warning_emitted = true;
        }
        self.notifications.push_back(notification);
        Pushed { accepted: true, warn }
    }

    /// Closes the queue. What is in it can still be taken out.
    pub fn close(&mut self)
        requires
            old(self).wf(),
        ensures
            final(self).wf(),
            final(self)@ == (QueueState { closed: true, ..old(self)@ }),
    {
        self.closed = true;
    }

    /// Takes everything out, where there is anything; else says whether the queue is
    /// closed. `None` where waiting is worth it.
    pub fn drain_ready(&mut self) -> (r: Option<QueueDrain<T>>)
        requires
            old(self).wf(),
        ensures
            final(self).wf(),
            final(self)@ == after_drain(old(self)@),
            if old(self)@.notifications.len() > 0 {
                r matches Some(QueueDrain::Notifications(list)) && list@ == old(
                    self,
                )@.notifications
            } else if old(self)@.closed {
                r matches Some(QueueDrain::Closed)
            } else {
                r is None
            },
    {
        if self.notifications.len() > 0 {
            let ghost all = self.notifications@;
            let mut list: Vec<T> = Vec::new();
            while self.notifications.len() > 0
                invariant
                    list@ + self.notifications@ == all,
                    all == old(self)@.notifications,
                    all.len() <= old(self)@.capacity,
                    self.capacity == old(self)@.capacity,
                    self.closed == old(self)@.closed,
                    old(self).wf(),
                decreases self.notifications@.len(),
            {
                let ghost taken = list@;
                let ghost rest = self.notifications@;
                if let Some(x) = self.notifications.pop_front() {
                    list.push(x);
                    assert(list@ + self.notifications@ =~= taken + rest);
                }
            }
            self.overflow_warning_emitted = false;
            assert(self.notifications@ =~= Seq::empty());
            assert(list@ =~= all);
            return Some(QueueDrain::Notifications(list));
        }
        if self.closed {
            return Some(QueueDrain::Closed);
        }
        None
    }

    /// Takes everything out when the time is up: what came at the last moment counts.
    pub fn drain_at_deadline(&mut self) -> (r: QueueDrain<T>)
        requires
            old(self).wf(),
        ensures
            final(self).wf(),
            final(self)@ == after_drain(old(self)@),
            if old(self)@.notifications.len() > 0 {
                r matches QueueDrain::Notifications(list) && list@ == old(self)@.notifications
            } else if old(self)@.closed {
                r is Closed
            } else {
                r is TimedOut
            },
    {
        match self.drain_ready() {
            Some(drain) => drain,
            None => QueueDrain::TimedOut,
        }
    }
}

/// A queue after several notifications were put in, one after the other.
pub open spec fn after_pushes<T>(q: QueueState<T>, xs: Seq<T>) -> QueueState<T>
    decreases xs.len(),
{
    if xs.len() == 0 {
        q
    } else {
        after_push(after_pushes(q, xs.drop_last()), xs.last())
    }
}

/// The last `n` of a sequence, or all of it.
pub open spec fn latest<T>(xs: Seq<T>, n: nat) -> Seq<T> {
    if xs.len() <= n {
        xs
    } else {
        xs.skip(xs.len() - n)
    }
}

/// An open queue keeps the latest notifications, in order, and as many as it may.
pub proof fn law_queue_keeps_the_latest<T>(q: QueueState<T>, xs: Seq<T>)
    requires
        q.capacity > 0,
        q.notifications.len() <= q.capacity,
        !q.closed,
    ensures
        after_pushes(q, xs).notifications == latest(q.notifications + xs, q.capacity),
        after_pushes(q, xs).capacity == q.capacity,
        !after_pushes(q, xs).closed,
    decreases xs.len(),
{
    if xs.len() == 0 {
        assert(q.notifications + xs =~= q.notifications);
    } else {
        law_queue_keeps_the_latest(q, xs.drop_last());
        let before = q.notifications + xs.drop_last();
        let all = q.notifications + xs;
        assert(all =~= before.push(xs.last()));
        assert(after_pushes(q, xs).notifications =~= latest(all, q.capacity));
    }
}

/// A closed queue takes nothing more, and still gives out what it has.
pub proof fn law_closing_loses_nothing<T>(q: QueueState<T>, xs: Seq<T>)
    requires
        q.closed,
    ensures
        after_pushes(q, xs) == q,
    decreases xs.len(),
{
    if xs.len() > 0 {
        law_closing_loses_nothing(q, xs.drop_last());
    }
}

/// What is put into an open queue comes last. Where the queue is full, what has waited
/// longest makes room, and nothing else is dropped; a closed queue takes nothing.
pub proof fn law_the_longest_waiting_makes_room<T>(q: QueueState<T>, x: T)
    requires
        q.capacity > 0,
        q.notifications.len() <= q.capacity,
    ensures
        q.closed ==> after_push(q, x) == q,
        !q.closed ==> after_push(q, x).notifications.last() == x,
        !q.closed && q.notifications.len() < q.capacity ==> after_push(q, x).notifications
            == q.notifications.push(x) && after_push(q, x).warned == q.warned,
        !q.closed && q.notifications.len() == q.capacity ==> after_push(q, x).notifications
            == q.notifications.drop_first().push(x) && after_push(q, x).warned,
        after_push(q, x).notifications.len() <= q.capacity,
        after_push(q, x).capacity == q.capacity,
        after_push(q, x).closed == q.closed,
{
    if !q.closed && q.notifications.len() == q.capacity {
        assert(q.notifications.skip(1) =~= q.notifications.drop_first());
    }
}

/// A queue that was emptied is empty, warns anew, and is as open as it was.
pub proof fn law_emptied_queues_are_empty<T>(q: QueueState<T>)
    ensures
        after_drain(q).notifications.len() == 0,
        q.notifications.len() > 0 ==> !after_drain(q).warned,
        after_drain(q).capacity == q.capacity,
        after_drain(q).closed == q.closed,
{
}

} // verus!
