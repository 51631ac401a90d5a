//! The principal: the agent on each host that runs the notes the maestro
//! assigns to it and reports their states in heartbeats.
pub mod config;
pub mod note_process;

use vstd::prelude::*;
use crate::text::str_eq;

verus! {

/// The kinds of message that the maestro's note stream sends.
#[derive(Clone, Copy, Debug, PartialEq, Eq, Structural)]
pub enum StreamMessage {
    /// The full list of notes, to start from.
    List,
    Added,
    Modified,
    Deleted,
    /// Any other name; such a message is ignored.
    Unknown,
}

pub open spec fn stream_message_spec(name: Seq<char>) -> StreamMessage {
    if name == "list"@ {
        StreamMessage::List
    } else if name == "added"@ {
        StreamMessage::Added
    } else if name == "modified"@ {
        StreamMessage::Modified
    } else if name == "deleted"@ {
        StreamMessage::Deleted
    } else {
        StreamMessage::Unknown
    }
}

impl StreamMessage {
    /// The kind of a message by its event name.
    pub fn from_event_name(name: &str) -> (r: StreamMessage)
        ensures
            r == stream_message_spec(name@),
    {
        if str_eq(name, "list") {
            StreamMessage::List
        } else if str_eq(name, "added") {
            StreamMessage::Added
        } else if str_eq(name, "modified") {
            StreamMessage::Modified
        } else if str_eq(name, "deleted") {
            StreamMessage::Deleted
        } else {
            StreamMessage::Unknown
        }
    }
}

} // verus!
