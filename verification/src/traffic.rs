//! Channels that are meant to stay quiet: who writes there too much in too
//! short a time is asked to go elsewhere, and not asked again too soon.
//!
//! Times are counts of nanoseconds from a start that the caller has chosen.

use crate::text::{
    lead, lemma_lead, lemma_lead_is, read_chars, trim, trim_bounds, unsigned, unsigned_at,
};
use std::collections::HashMap;
use vstd::prelude::*;
use vstd::std_specs::hash::*;

verus! {

broadcast use vstd::std_specs::hash::group_hash_axioms;

/// How long a message counts, and how long a warning holds: five minutes.
pub const WINDOW: u64 = 300_000_000_000;

/// A channel may have this many messages within the window, and no more.
pub const QUIET_MESSAGES: usize = 3;

/// How long `then` lies before `now`; nothing where it does not.
pub open spec fn since(now: u64, then: u64) -> nat {
    if then <= now {
        (now - then) as nat
    } else {
        0
    }
}

/// The times that lie no longer than the window before `now`, in their order.
pub open spec fn recent(times: Seq<u64>, now: u64) -> Seq<u64>
    decreases times.len(),
{
    if times.len() == 0 {
        Seq::empty()
    } else if since(now, times.last()) <= WINDOW {
        recent(times.drop_last(), now).push(times.last())
    } else {
        recent(times.drop_last(), now)
    }
}

/// Whether a warning is due: the channel has more than `QUIET_MESSAGES`
/// messages within the window, and was not warned within the window.
pub open spec fn warning_due(messages: Seq<u64>, last_warned: Option<u64>, now: u64) -> bool {
    messages.len() > QUIET_MESSAGES && match last_warned {
        Some(last) => since(now, last) >= WINDOW,
        None => true,
    }
}

/// What is known of one channel: when its messages of late were written, and
/// when it was last warned.
#[derive(Debug, Clone, PartialEq, Eq)]
pub struct ChannelTraffic {
    pub messages: Vec<u64>,
    pub last_warned: Option<u64>,
}

impl ChannelTraffic {
    /// A channel in which nothing was written yet.
    pub fn new() -> (traffic: ChannelTraffic)
        ensures
            traffic.messages@ == Seq::<u64>::empty(),
            traffic.last_warned is None,
    {
        ChannelTraffic { messages: Vec::new(), last_warned: None }
    }

    /// Takes note of a message written at `now` and says whether the channel
    /// is to be warned. The message is counted, and the messages that lie
    /// longer back than the window are forgotten. A warning that is due
    /// counts as given at `now`.
    pub fn note_message(&mut self, now: u64) -> (warn: bool)
        ensures
            final(self).messages@ == recent(old(self).messages@.push(now), now),
            warn == warning_due(final(self).messages@, old(self).last_warned, now),
            final(self).last_warned == if warn {
                Some(now)
            } else {
                old(self).last_warned
            },
    {
        let mut kept: Vec<u64> = Vec::new();
        let mut i: usize = 0;
        while i < self.messages.len()
            invariant
                i <= self.messages.len(),
                kept@ == recent(self.messages@.take(i as int), now),
            decreases self.messages.len() - i,
        {
            proof {
                assert(self.messages@.take(i + 1).drop_last() =~= self.messages@.take(i as int));
            }
            let then = self.messages[i];
            if then > now || now - then <= WINDOW {
                kept.push(then);
            }
            i += 1;
        }
        proof {
            assert(self.messages@.take(i as int) =~= self.messages@);
            assert(self.messages@.push(now).drop_last() =~= self.messages@);
        }
        kept.push(now);
        self.messages = kept;
        let warn = self.messages.len() > QUIET_MESSAGES && match self.last_warned {
            Some(last) => last <= now && now - last >= WINDOW,
            None => true,
        };
        if warn {
            self.last_warned = Some(now);
        }
        warn
    }
}

/// What is known of every channel that has been written in.
pub struct LowTrafficState {
    pub channels: HashMap<u64, ChannelTraffic>,
}

impl LowTrafficState {
    /// The messages of late that are known of a channel: none, where nothing
    /// is known of it.
    pub open spec fn messages_of(&self, channel: u64) -> Seq<u64> {
        if self.channels@.contains_key(channel) {
            self.channels@[channel].messages@
        } else {
            Seq::empty()
        }
    }

    /// When a channel was last warned, if it ever was.
    pub open spec fn last_warned_of(&self, channel: u64) -> Option<u64> {
        if self.channels@.contains_key(channel) {
            self.channels@[channel].last_warned
        } else {
            None
        }
    }

    /// Nothing is known of any channel.
    pub fn new() -> (state: LowTrafficState)
        ensures
            state.channels@ == Map::<u64, ChannelTraffic>::empty(),
    {
        LowTrafficState { channels: HashMap::new() }
    }

    /// Takes note of a message written in `channel` at `now`, and says
    /// whether the channel is to be warned: see `ChannelTraffic::note_message`.
    /// What is known of the other channels stays as it is.
    pub fn note_message(&mut self, channel: u64, now: u64) -> (warn: bool)
        ensures
            final(self).messages_of(channel) == recent(
                old(self).messages_of(channel).push(now),
                now,
            ),
            warn == warning_due(
                final(self).messages_of(channel),
                old(self).last_warned_of(channel),
                now,
            ),
            final(self).last_warned_of(channel) == if warn {
                Some(now)
            } else {
                old(self).last_warned_of(channel)
            },
            final(self).channels@.dom() == old(self).channels@.dom().insert(channel),
            forall|other: u64|
                other != channel && old(self).channels@.contains_key(other)
                    ==> final(self).channels@[other] == old(self).channels@[other],
    {
        let mut traffic = match self.channels.remove(&channel) {
            Some(traffic) => traffic,
            None => ChannelTraffic::new(),
        };
        let warn = traffic.note_message(now);
        self.channels.insert(channel, traffic);
        assert(self.channels@.dom() =~= old(self).channels@.dom().insert(channel));
        warn
    }
}

/// The channels that a list names. The list is cut at its commas; white
/// space around a piece does not count; a piece that is a number of 64 bits
/// names a channel, and any other piece is passed over.
pub open spec fn channels_in(list: Seq<char>) -> Seq<u64>
    decreases list.len(),
{
    let n = lead(list, |c: char| c == ',') as int;
    let first = match unsigned(trim(list.take(n))) {
        Some(id) => seq![id],
        None => Seq::empty(),
    };
    if n >= list.len() {
        first
    } else {
        proof {
            lemma_lead(list, |c: char| c == ',');
        }
        first + channels_in(list.skip(n + 1))
    }
}

/// Reads the list of the channels that are meant to stay quiet, such as
/// `1, 2 ,3`.
pub fn parse_low_traffic_channels(list: &str) -> (channels: Vec<u64>)
    ensures
        channels@ == channels_in(list@),
{
    let chars = read_chars(list);
    let mut channels: Vec<u64> = Vec::new();
    let mut start: usize = 0;
    proof {
        assert(chars@.skip(0) =~= chars@);
        assert(Seq::<u64>::empty() + channels_in(chars@) =~= channels_in(chars@));
    }
    loop
        invariant
            chars@ == list@,
            start <= chars.len(),
            channels_in(list@) == channels@ + channels_in(chars@.skip(start as int)),
        decreases chars.len() - start,
    {
        let ghost here = chars@.skip(start as int);
        let mut end = start;
        while end < chars.len() && chars[end] != ','
            invariant
                start <= end <= chars.len(),
                forall|k: int| start <= k < end ==> (#[trigger] chars@[k]) != ',',
            decreases chars.len() - end,
        {
            end += 1;
        }
        proof {
            let stop = |c: char| c == ',';
            assert forall|k: int| 0 <= k < end - start implies !stop(#[trigger] here[k]) by {
                assert(here[k] == chars@[start + k]);
            }
            lemma_lead_is(here, stop, end - start);
            assert(here.take(end - start) =~= chars@.subrange(start as int, end as int));
            if end < chars.len() {
                assert(here.skip(end - start + 1) =~= chars@.skip(end + 1));
            }
        }
        let ghost before = channels@;
        let (from, to) = trim_bounds(&chars, start, end);
        match unsigned_at(&chars, from, to) {
            Some(id) => {
                channels.push(id);
            },
            None => {},
        }
        if end == chars.len() {
            proof {
                assert(channels@ =~= before + channels_in(here));
            }
            return channels;
        }
        proof {
            assert(channels@ + channels_in(chars@.skip(end + 1)) =~= before + channels_in(here));
        }
        start = end + 1;
    }
}

/// Whether a message counts towards the traffic of its channel: it was not
/// written by a bot, and the channel is one of those meant to stay quiet.
pub fn counts(author_is_bot: bool, channel: u64, quiet_channels: &Vec<u64>) -> (counted: bool)
    ensures
        counted == (!author_is_bot && quiet_channels@.contains(channel)),
{
    if author_is_bot {
        return false;
    }
    let mut i: usize = 0;
    while i < quiet_channels.len()
        invariant
            !author_is_bot,
            i <= quiet_channels.len(),
            forall|j: int| 0 <= j < i ==> quiet_channels@[j] != channel,
        decreases quiet_channels.len() - i,
    {
        if quiet_channels[i] == channel {
            assert(quiet_channels@[i as int] == channel);
            return true;
        }
        i += 1;
    }
    false
}

} // verus!
