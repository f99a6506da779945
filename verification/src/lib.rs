//! Resolution of logical sound-event names to concrete audio files within a
//! selectable sound theme, together with the duration policy that bounds how
//! long a resolved sound may play.

use vstd::prelude::*;

pub mod cli;
pub mod config;
pub mod duration;
pub mod error;
pub mod mapping;
pub mod sound;
pub mod text;
pub mod theme;

verus! {

/// The base directory under which every sound theme lives.
pub open spec fn spec_sound_root() -> Seq<char> {
    "/usr/share/sounds/"@
}

} // verus!
