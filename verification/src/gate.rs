//! Which channels may be written to.

use std::collections::HashMap;
use vstd::prelude::*;

verus! {

/// Whether a channel may be written to: it is configured, it is the channel of a
/// direct message that came in, or it is a thread of a configured channel.
pub open spec fn allows(
    channels: Seq<u64>,
    dm_ids: Seq<u64>,
    thread_parents: Map<u64, u64>,
    channel: u64,
) -> bool {
    ||| channels.contains(channel)
    ||| dm_ids.contains(channel)
    ||| thread_parents.contains_key(channel) && channels.contains(thread_parents[channel])
}

/// Whether `id` is among `list`.
pub fn contains_id(list: &Vec<u64>, id: u64) -> (r: bool)
    ensures
        r == list@.contains(id),
{
    let mut i: usize = 0;
    while i < list.len()
        invariant
            i <= list@.len(),
            forall|k: int| 0 <= k < i ==> list@[k] != id,
        decreases list@.len() - i,
    {
        if list[i] == id {
            return true;
        }
        i = i + 1;
    }
    false
}

/// The outbound gate that every message passes on its way out.
pub struct OutboundGate {
    /// The configured channels.
    pub channels: Vec<u64>,
    /// The channels of direct messages that came in.
    pub dm_ids: Vec<u64>,
    /// The parents of the threads that have been seen.
    pub thread_parents: HashMap<u64, u64>,
}

impl OutboundGate {
    /// Whether a channel may be written to.
    pub open spec fn allowed(&self, channel: u64) -> bool {
        allows(self.channels@, self.dm_ids@, self.thread_parents@, channel)
    }

    /// A gate that knows nothing but the configured channels.
    pub fn configured(channels: Vec<u64>) -> (r: Self)
        ensures
            r.channels == channels,
            r.dm_ids@ == Seq::<u64>::empty(),
            r.thread_parents@ == Map::<u64, u64>::empty(),
            forall|channel: u64| #[trigger] r.allowed(channel) <==> channels@.contains(channel),
    {
        let r: OutboundGate = OutboundGate {
            channels,
            dm_ids: Vec::new(),
            thread_parents: HashMap::new(),
        };
        r
    }

    /// Whether a channel may be written to.
    pub fn check(&self, channel: u64) -> (r: bool)
        ensures
            r == self.allowed(channel),
    {
        if contains_id(&self.channels, channel) || contains_id(&self.dm_ids, channel) {
            return true;
        }
        match self.thread_parents.get(&channel) {
            Some(parent) => contains_id(&self.channels, *parent),
            None => false,
        }
    }

    /// Takes note of a thread and its parent.
    pub fn record_thread_parent(&mut self, thread_id: u64, parent_id: u64)
        ensures
            final(self).channels == old(self).channels,
            final(self).dm_ids == old(self).dm_ids,
            final(self).thread_parents@ == old(self).thread_parents@.insert(
                thread_id,
                parent_id,
            ),
    {
        self.thread_parents.insert(thread_id, parent_id);
    }

    /// Takes note of the channel of a direct message.
    pub fn record_dm_channel(&mut self, channel_id: u64)
        ensures
            final(self).channels == old(self).channels,
            final(self).thread_parents == old(self).thread_parents,
            forall|c: u64|
                final(self).dm_ids@.contains(c) <==> c == channel_id || old(self).dm_ids@.contains(c),
    {
        if !contains_id(&self.dm_ids, channel_id) {
            let ghost had = self.dm_ids@;
            self.dm_ids.push(channel_id);
            proof {
                assert forall|c: u64|
                    self.dm_ids@.contains(c) <==> c == channel_id || had.contains(c) by {
                    if had.contains(c) {
                        let i = choose|i: int| 0 <= i < had.len() && had[i] == c;
                        assert(self.dm_ids@[i] == c);
                    }
                    assert(self.dm_ids@[had.len() as int] == channel_id);
                }
            }
        }
    }
}

/// A thread may be written to once its parent is known and configured.
pub proof fn law_threads_follow_their_parents(
    channels: Seq<u64>,
    dm_ids: Seq<u64>,
    thread_parents: Map<u64, u64>,
    thread_id: u64,
    parent_id: u64,
)
    ensures
        channels.contains(parent_id) ==> allows(
            channels,
            dm_ids,
            thread_parents.insert(thread_id, parent_id),
            thread_id,
        ),
        !channels.contains(parent_id) && !channels.contains(thread_id) && !dm_ids.contains(
            thread_id,
        ) ==> !allows(channels, dm_ids, thread_parents.insert(thread_id, parent_id), thread_id),
{
}

/// A channel may be written to exactly where it is configured, a direct message came in
/// through it, or it is a thread of a configured channel. To take note of a thread or of
/// a direct message takes no channel away.
pub proof fn law_only_known_channels_are_allowed(
    channels: Seq<u64>,
    dm_ids: Seq<u64>,
    thread_parents: Map<u64, u64>,
    channel: u64,
)
    ensures
        channels.contains(channel) ==> allows(channels, dm_ids, thread_parents, channel),
        dm_ids.contains(channel) ==> allows(channels, dm_ids, thread_parents, channel),
        thread_parents.contains_key(channel) && channels.contains(thread_parents[channel])
            ==> allows(channels, dm_ids, thread_parents, channel),
        !channels.contains(channel) && !dm_ids.contains(channel) && !thread_parents.contains_key(
            channel,
        ) ==> !allows(channels, dm_ids, thread_parents, channel),
        !channels.contains(channel) && !dm_ids.contains(channel) && thread_parents.contains_key(
            channel,
        ) && !channels.contains(thread_parents[channel]) ==> !allows(
            channels,
            dm_ids,
            thread_parents,
            channel,
        ),
{
}

/// At first the configured channels may be written to, and no others.
pub proof fn law_configured_channels_are_permitted(
    channels: Vec<u64>,
    r: OutboundGate,
    channel: u64,
)
    requires
        call_ensures(OutboundGate::configured, (channels,), r),
    ensures
        r.allowed(channel) <==> channels@.contains(channel),
{
}

} // verus!
