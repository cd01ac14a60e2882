//! A latest-value broadcast slot: one writer publishes values, any number
//! of subscribers each observe the most recently published value at most
//! once. Nothing is queued: a value that is superseded before a subscriber
//! reads is never delivered to it.

use vstd::prelude::*;

verus! {

/// The single slot: the latest value, and a version counter that
/// subscribers compare against.
#[derive(Debug)]
pub struct Broadcaster<T> {
    pub value: Option<T>,
    pub version: u64,
}

/// A subscriber's handle: the version it has last observed.
#[derive(Debug)]
pub struct Subscriber {
    pub seen: u64,
}

pub open spec fn spec_publish<T>(b: Broadcaster<T>, v: T) -> Broadcaster<T> {
    Broadcaster { value: Some(v), version: (b.version + 1) as u64 }
}

/// What a poll observes: the latest value exactly when the subscriber has
/// not seen it yet.
pub open spec fn spec_poll_value<T>(b: Broadcaster<T>, sub: Subscriber) -> Option<T> {
    if sub.seen < b.version {
        b.value
    } else {
        None
    }
}

impl<T> Broadcaster<T> {
    /// An empty slot: nothing published yet.
    pub fn new() -> (r: Self)
        ensures
            r.value is None,
            r.version == 0,
    {
        Broadcaster { value: None, version: 0 }
    }

    /// Publish a value: it replaces whatever the slot held. A subscriber
    /// that reads from now on observes this value; the replaced value is
    /// never delivered again.
    pub fn publish(&mut self, v: T)
        requires
            old(self).version < u64::MAX,
        ensures
            *final(self) == spec_publish(*old(self), v),
    {
        self.value = Some(v);
        self.version = self.version + 1;
    }

    /// A new subscriber observes only values published after it
    /// subscribed.
    pub fn subscribe(&self) -> (r: Subscriber)
        ensures
            r.seen == self.version,
    {
        Subscriber { seen: self.version }
    }

    /// Observe the latest value, if this subscriber has not seen it yet;
    /// the subscriber's handle advances to the slot's version.
    pub fn poll<'a>(&'a self, sub: &mut Subscriber) -> (r: Option<&'a T>)
        ensures
            final(sub).seen == self.version,
            match r {
                Some(v) => spec_poll_value(*self, *old(sub)) == Some(*v),
                None => spec_poll_value(*self, *old(sub)) is None,
            },
    {
        if sub.seen < self.version {
            sub.seen = self.version;
            match &self.value {
                Some(v) => Some(v),
                None => None,
            }
        } else {
            sub.seen = self.version;
            None
        }
    }
}

/// Latest-value law: publishing `v1` and then `v2` leaves the slot holding
/// `v2`, and a subscriber that has not read since before the first publish
/// observes `v2` — the superseded `v1` is never delivered.
pub proof fn lemma_latest_value_wins<T>(b0: Broadcaster<T>, v1: T, v2: T, sub: Subscriber)
    requires
        b0.version + 2 <= u64::MAX,
        sub.seen <= b0.version + 1,
    ensures
        spec_publish(spec_publish(b0, v1), v2).value == Some(v2),
        spec_poll_value(spec_publish(spec_publish(b0, v1), v2), sub) == Some(v2),
{
}

/// A subscriber never observes the same version twice: after a poll, the
/// slot (unchanged) has nothing further for it.
pub proof fn lemma_no_redelivery<T>(b: Broadcaster<T>)
    ensures
        spec_poll_value(b, Subscriber { seen: b.version }) is None,
{
}

} // verus!
