//! What the auditorium receives from users and from the maestro.
use vstd::prelude::*;
use crate::maestro::models::{Note, RestartPolicy};

verus! {

/// The minimal shape of a symphony as the maestro lists it.
pub struct MaestroSymphony {
    pub name: String,
    pub notes: Vec<Note>,
}

/// A symphony as a user asks for it.
pub struct CreateSymphony {
    pub name: String,
    pub notes: Vec<CreateSymphonyNote>,
}

pub struct CreateSymphonyNote {
    pub name: String,
    pub description: String,
    pub host: String,
    pub command: String,
    pub args: Vec<String>,
    /// Environment variables, as (name, value) pairs; a variable is named
    /// once (`env_names_unique`).
    pub env: Vec<(String, String)>,
    pub restart_policy: RestartPolicy,
}

} // verus!
