use vstd::prelude::*;

verus! {

/// A point in time: whole seconds since the Unix epoch and the nanoseconds
/// past that second.
#[derive(Clone, Copy, Debug, PartialEq, Eq, Structural)]
pub struct Timestamp {
    pub secs: i64,
    pub nanos: u32,
}

impl Timestamp {
    /// The instant as a number of nanoseconds since the epoch.
    pub open spec fn nanos_total(self) -> int {
        self.secs as int * 1_000_000_000 + self.nanos as int
    }
}

/// One document of the note store.
#[derive(Clone, Debug)]
pub struct Note {
    pub key: String,
    pub title: String,
    pub tags: Vec<String>,
    pub content: String,
    pub created_at: Timestamp,
    pub modified_at: Timestamp,
}

/// The state of a task; any state may follow any other.
#[derive(Clone, Copy, Debug, PartialEq, Eq, Structural)]
pub enum TaskStatus {
    Open,
    Prio,
    Done,
}

/// A unit of work attached to a note.
#[derive(Clone, Debug)]
pub struct Task {
    pub id: u64,
    pub note_key: String,
    pub description: String,
    pub status: TaskStatus,
    pub created_at: Timestamp,
}

} // verus!
