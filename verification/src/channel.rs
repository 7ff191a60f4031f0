//! The load channel: a single-slot, versioned publish/poll cell used to
//! hand a background-parsed project to the interactive loop without
//! blocking it. Publishing replaces the current value (the channel is not
//! a queue); each polling position sees a given version at most once.
//! A generation ticket is drawn when a load begins, and a publish with a
//! stale ticket is dropped, so an abandoned load can never be observed.

use vstd::prelude::*;

use crate::project::{opt_loaded_view, LoadedProject, LoadedView};

verus! {

/// Mathematical model of the cell.
#[verifier::ext_equal]
pub ghost struct ChannelModel {
    pub value: Option<LoadedView>,
    pub version: nat,
    pub generation: nat,
}

/// What a publish with ticket `gen` does: replace the value and advance
/// the version when the ticket is current, nothing otherwise.
pub open spec fn publish_spec(c: ChannelModel, gen: nat, v: Option<LoadedView>) -> ChannelModel {
    if gen == c.generation {
        ChannelModel { value: v, version: c.version + 1, generation: c.generation }
    } else {
        c
    }
}

/// What a poll from position `last_seen` returns, and the position after
/// it: the current value exactly when the version moved since that
/// position last looked.
pub open spec fn poll_spec(last_seen: nat, c: ChannelModel) -> (Option<Option<LoadedView>>, nat) {
    if last_seen != c.version {
        (Some(c.value), c.version)
    } else {
        (None, last_seen)
    }
}

/// The shared current-value slot with its version and generation counters.
pub struct ChannelCell {
    pub value: Option<LoadedProject>,
    pub version: u64,
    pub generation: u64,
}

/// One independent polling position.
pub struct PollCursor {
    pub last_seen: u64,
}

impl ChannelCell {
    pub open spec fn view(&self) -> ChannelModel {
        ChannelModel {
            value: opt_loaded_view(self.value),
            version: self.version as nat,
            generation: self.generation as nat,
        }
    }

    /// A fresh channel holding `initial`, with no version observed yet.
    pub fn create(initial: Option<LoadedProject>) -> (c: ChannelCell)
        ensures
            c@.value == opt_loaded_view(initial),
            c@.version == 0,
            c@.generation == 0,
    {
        ChannelCell { value: initial, version: 0, generation: 0 }
    }

    /// Starts a new load: draws the ticket a worker must present to
    /// publish, and invalidates every ticket drawn before it.
    pub fn begin_load(&mut self) -> (ticket: u64)
        requires
            old(self)@.generation < u64::MAX,
        ensures
            final(self)@.generation == old(self)@.generation + 1,
            final(self)@.value == old(self)@.value,
            final(self)@.version == old(self)@.version,
            ticket as nat == final(self)@.generation,
    {
        self.generation = self.generation + 1;
        self.generation
    }

    /// Publishes `v` under `ticket`: replaces the current value exactly
    /// when the ticket is still the one last drawn.
    pub fn publish(&mut self, ticket: u64, v: Option<LoadedProject>) -> (accepted: bool)
        requires
            old(self)@.version < u64::MAX,
        ensures
            final(self)@ == publish_spec(old(self)@, ticket as nat, opt_loaded_view(v)),
            accepted == (ticket as nat == old(self)@.generation),
    {
        if ticket == self.generation {
            self.value = v;
            self.version = self.version + 1;
            proof {
                assert(self@ =~= publish_spec(old(self)@, ticket as nat, opt_loaded_view(v)));
            }
            true
        } else {
            proof {
                assert(self@ =~= publish_spec(old(self)@, ticket as nat, opt_loaded_view(v)));
            }
            false
        }
    }

    /// The latest value, with no "seen" bookkeeping.
    pub fn current(&self) -> (r: Option<LoadedProject>)
        ensures
            opt_loaded_view(r) == self@.value,
    {
        match &self.value {
            None => None,
            Some(lp) => Some(lp.duplicate()),
        }
    }
}

impl PollCursor {
    pub open spec fn view(&self) -> nat {
        self.last_seen as nat
    }

    /// A polling position that has seen the channel's current version.
    pub fn subscribe(c: &ChannelCell) -> (cur: PollCursor)
        ensures
            cur@ == c@.version,
    {
        PollCursor { last_seen: c.version }
    }

    /// Returns the current value exactly once per version transition this
    /// position observes, and nothing when the version has not moved.
    pub fn poll_if_new(&mut self, c: &ChannelCell) -> (r: Option<Option<LoadedProject>>)
        ensures
            ({
                let (rs, seen) = poll_spec(old(self)@, c@);
                final(self)@ == seen && match r {
                    None => rs == None::<Option<LoadedView>>,
                    Some(v) => rs == Some(opt_loaded_view(v)),
                }
            }),
    {
        if self.last_seen != c.version {
            self.last_seen = c.version;
            Some(c.current())
        } else {
            None
        }
    }
}

/// The cell after each value of `vs` is published in turn under the
/// current generation.
pub open spec fn publish_all_spec(c: ChannelModel, vs: Seq<Option<LoadedView>>) -> ChannelModel
    decreases vs.len(),
{
    if vs.len() == 0 {
        c
    } else {
        publish_spec(publish_all_spec(c, vs.drop_last()), c.generation, vs.last())
    }
}

proof fn lemma_publish_all(c: ChannelModel, vs: Seq<Option<LoadedView>>)
    ensures
        publish_all_spec(c, vs).generation == c.generation,
        publish_all_spec(c, vs).version == c.version + vs.len(),
        vs.len() > 0 ==> publish_all_spec(c, vs).value == vs.last(),
    decreases vs.len(),
{
    if vs.len() > 0 {
        lemma_publish_all(c, vs.drop_last());
    }
}

/// Exactly-once per version: after any number of publishes with no poll
/// between them, a poll from a position that was current before them
/// yields the value published last, and a second immediate poll yields
/// nothing.
pub proof fn lemma_channel_exactly_once(c: ChannelModel, vs: Seq<Option<LoadedView>>, last_seen: nat)
    requires
        vs.len() > 0,
        last_seen == c.version,
    ensures
        ({
            let c2 = publish_all_spec(c, vs);
            let (r1, s1) = poll_spec(last_seen, c2);
            r1 == Some(vs.last()) && s1 == c2.version && poll_spec(s1, c2).0 == None::<
                Option<LoadedView>,
            >
        }),
{
    lemma_publish_all(c, vs);
}

/// Abandonment: once a newer load has drawn a ticket, a publish under an
/// older ticket changes nothing, and a position that has seen the current
/// version keeps seeing nothing.
pub proof fn lemma_stale_publish_dropped(
    c: ChannelModel,
    ticket: nat,
    v: Option<LoadedView>,
    last_seen: nat,
)
    requires
        ticket != c.generation,
        last_seen == c.version,
    ensures
        publish_spec(c, ticket, v) == c,
        poll_spec(last_seen, publish_spec(c, ticket, v)).0 == None::<Option<LoadedView>>,
{
    assert(publish_spec(c, ticket, v) =~= c);
}

} // verus!
