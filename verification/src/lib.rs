//! Live PCM audio streaming with bounded, frame-aligned buffering, and the
//! scheduling decisions of the audio plugin that drives it.
//!
//! [`stream`] holds the buffer shared by a producer, which pushes
//! interleaved PCM samples, and an audio-thread consumer, which writes them
//! out one buffer per channel and fills silence on underflow.
use vstd::prelude::*;

pub mod laws;
pub mod stream;

verus! {

/// Sets for all audio systems.
///
/// These are all inserted into the `Last` schedule, and run in the order in
/// which they are listed here.
#[derive(Debug, PartialEq, Eq, Hash, Clone, Copy, Structural)]
pub enum SeedlingSystems {
    /// Entities without audio nodes acquire them from the audio context.
    Acquire,
    /// Pending connections are made.
    Connect,
    /// Process sample pool operations.
    Pool,
    /// Queue audio engine events.
    Queue,
    /// The audio context is updated and flushed.
    Flush,
    /// The audio stream is polled and unexpected device changes are handled.
    PollStream,
}

impl SeedlingSystems {
    /// Position of the set in the schedule, counting from zero.
    pub open spec fn rank(self) -> nat {
        match self {
            SeedlingSystems::Acquire => 0,
            SeedlingSystems::Connect => 1,
            SeedlingSystems::Pool => 2,
            SeedlingSystems::Queue => 3,
            SeedlingSystems::Flush => 4,
            SeedlingSystems::PollStream => 5,
        }
    }

    /// The set this set is configured to run after, if any.
    pub open spec fn spec_runs_after(self) -> Option<SeedlingSystems> {
        match self {
            SeedlingSystems::Acquire => None,
            SeedlingSystems::Connect => Some(SeedlingSystems::Acquire),
            SeedlingSystems::Pool => Some(SeedlingSystems::Connect),
            SeedlingSystems::Queue => Some(SeedlingSystems::Pool),
            SeedlingSystems::Flush => Some(SeedlingSystems::Queue),
            SeedlingSystems::PollStream => Some(SeedlingSystems::Flush),
        }
    }

    /// The set this set is configured to run after, if any.
    pub fn runs_after(&self) -> (r: Option<SeedlingSystems>)
        ensures
            r == self.spec_runs_after(),
    {
        match self {
            SeedlingSystems::Acquire => None,
            SeedlingSystems::Connect => Some(SeedlingSystems::Acquire),
            SeedlingSystems::Pool => Some(SeedlingSystems::Connect),
            SeedlingSystems::Queue => Some(SeedlingSystems::Pool),
            SeedlingSystems::Flush => Some(SeedlingSystems::Queue),
            SeedlingSystems::PollStream => Some(SeedlingSystems::Flush),
        }
    }
}

/// The core audio plugin: it inserts the audio system sets, ordered as
/// [`SeedlingSystems::runs_after`] says.
#[derive(Debug, Default, Clone, Copy)]
pub struct SeedlingCorePlugin;

/// Whether a system that runs when a resource has changed should run, given
/// whether the resource's change tick says it changed: change ticks are
/// ignored on the first run, when the resource was just inserted. `has_run`
/// is the system's own memory that it has run before.
pub fn resource_changed_without_insert(is_changed: bool, has_run: &mut bool) -> (changed: bool)
    ensures
        changed == (is_changed && *old(has_run)),
        *final(has_run),
{
    let changed = is_changed && *has_run;
    *has_run = true;

    changed
}

} // verus!
