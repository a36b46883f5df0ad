//! The command line as the library receives it.

use vstd::prelude::*;

verus! {

/// The parsed command line.
pub struct Opts {
    pub subcmd: Option<SubCommand>,
    /// Separate the tasks `now` prints with commas instead of newlines.
    pub no_newlines: bool,
    /// Show only the tasks with this tag.
    pub tag: Option<String>,
}

/// What the command line asks for.
pub enum SubCommand {
    /// Add a new task in the todo column.
    Add(NewItem),
    /// Move a task into doing.
    Start(Item),
    /// Move a task into done.
    Complete(Item),
    /// Delete a task.
    Delete(Item),
    /// Clear the tasks of the done column.
    ClearDone,
    /// Edit the description of a task.
    Edit(Item),
    /// Show the description of a task.
    View(Item),
    /// Show the tasks in progress.
    Now,
    /// Rebuild the column index.
    Reindex,
    /// Move a task to the top of its column.
    Top(Item),
    /// Add a tag to a task, or show its tags.
    Tag(TagItem),
}

/// A task named on the command line.
pub struct Item {
    pub title: String,
}

/// A task to create, with an optional tag.
pub struct NewItem {
    pub title: String,
    pub tag: Option<String>,
}

/// A task and the tag to give it, if any.
pub struct TagItem {
    pub title: String,
    pub tag: Option<String>,
    /// Accepted on the command line but not acted on: `tag` only adds tags
    /// or shows them.
    pub remove: bool,
}

} // verus!
