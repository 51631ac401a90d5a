//! Orchestra: a small process orchestrator. A central "maestro" keeps the
//! desired symphonies (groups of notes, i.e. processes) and the principals
//! (hosts) that run them; principals report their notes' states in
//! heartbeats; watchers stream changes to subscribers filtered by field
//! selectors; the "auditorium" tracks the symphonies a user cares about.
use vstd::prelude::*;

pub mod keyed;
pub mod text;
pub mod watcher;
pub mod maestro;
pub mod principal;
pub mod auditorium;

verus! {

} // verus!
