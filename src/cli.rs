//! The requests a command line hands the library, as plain values.
use vstd::prelude::*;

verus! {

/// The order in which notes are listed.
#[derive(Clone, Copy, Debug, PartialEq, Eq, Structural, Default)]
pub enum SortBy {
    /// Alphabetical by key.
    #[default]
    Key,
    /// Newest creation first.
    Created,
    /// Most recently modified first.
    Modified,
}

/// The format of an export.
#[derive(Clone, Copy, Debug, PartialEq, Eq, Structural)]
pub enum ExportFormat {
    /// One `<key>.md` file per note, holding its content.
    Markdown,
    /// One JSON file holding every exported note.
    Json,
}

/// Where to import notes from: a directory of `.md` files, or one file
/// with the key to store it under.
#[derive(Clone, Debug)]
pub struct ImportArgs {
    pub dir: Option<String>,
    pub file: Option<String>,
    pub key: Option<String>,
    /// Replace a note that already has the key.
    pub overwrite: bool,
}

/// Where and how to export notes, and the tags an exported note must carry.
#[derive(Clone, Debug)]
pub struct ExportArgs {
    pub path: String,
    pub format: ExportFormat,
    pub tag: Vec<String>,
}

/// The task commands.
#[derive(Clone, Debug)]
pub enum TaskCommands {
    /// Add a task to an existing note.
    Add { note_key: String, description: String },
    /// List every task.
    List,
    /// Mark a task done.
    Done { task_id: u64 },
    /// Give a task priority.
    Prio { task_id: u64 },
    /// Delete a task.
    Delete { task_id: u64 },
    /// Delete every task.
    Reset { force: bool },
}

/// Where the store lives and where exports go by default.
#[derive(Clone, Debug)]
pub struct Config {
    pub db_path: Option<String>,
    pub default_export_dir: Option<String>,
}

impl Config {
    /// The directory of the store: the override from the environment when
    /// there is one, else the configured path. The index lives in its
    /// `search_index` subdirectory.
    pub fn store_dir(&self, env_override: Option<String>) -> (r: Option<String>)
        ensures
            r == match env_override {
                Some(e) => Some(e),
                None => self.db_path,
            },
    {
        match env_override {
            Some(e) => Some(e),
            None => self.db_path.clone(),
        }
    }
}

} // verus!
