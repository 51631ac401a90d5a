//! The auditorium: a user-facing service that keeps the symphonies a user
//! tracks and shows them as the maestro runs them.
pub mod dto;
pub mod tracked_symphonies;

use vstd::prelude::*;
use vstd::string::*;

verus! {

/// The restart policies as the auditorium passes them on to the maestro.
#[derive(Clone, Copy, Debug, PartialEq, Eq, Structural)]
pub enum RestartPolicy {
    Never,
    OnFailure,
    Always,
}

/// A note as the auditorium forwards it to the maestro.
pub struct NoteDto {
    pub name: String,
    pub description: String,
    pub host: String,
    pub command: String,
    pub args: Vec<String>,
    /// Environment variables, as (name, value) pairs; a variable is named
    /// once (`env_names_unique`).
    pub env: Vec<(String, String)>,
    pub restart_policy: RestartPolicy,
}

/// A symphony as the auditorium forwards it to the maestro.
pub struct SymphonyDto {
    pub name: String,
    pub notes: Vec<NoteDto>,
}

/// The maestro's list of symphonies, where new ones are also posted.
pub fn symphonies_url(maestro_url: &str) -> (r: String)
    ensures
        r@ == maestro_url@ + "/api/v1/symphonies"@,
{
    let mut r: String = maestro_url.to_owned();
    r.append("/api/v1/symphonies");
    r
}

/// Where the maestro is asked to stop symphony `name`.
pub fn stop_symphony_url(maestro_url: &str, name: &str) -> (r: String)
    ensures
        r@ == maestro_url@ + "/api/v1/symphonies/"@ + name@ + "/stop"@,
{
    let mut r: String = maestro_url.to_owned();
    r.append("/api/v1/symphonies/");
    r.append(name);
    r.append("/stop");
    r
}

/// The maestro's stream of symphony changes.
pub fn symphonies_watch_url(host: &str) -> (r: String)
    ensures
        r@ == host@ + "/api/v1/symphonies?watch=true"@,
{
    let mut r: String = host.to_owned();
    r.append("/api/v1/symphonies?watch=true");
    r
}

} // verus!
