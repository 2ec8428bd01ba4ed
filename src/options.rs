use vstd::prelude::*;

use crate::store::{
    after_add, after_complete, after_update, entry_views, ids_unique, matching, model, TaskStore,
};
use crate::task::{Task, TaskView};

verus! {

/// What one invocation of the tracker asks for.
pub enum Command {
    /// List all tasks.
    List,
    /// Add a new task.
    Add { description: String },
    /// Give a task a new description.
    Update { id: i16, description: String },
    /// Delete a task.
    Delete { id: i16 },
    /// Mark a task as completed.
    Complete { id: i16 },
    /// Remove all tasks.
    Clear,
    /// List the tasks whose description holds a pattern.
    Search { pattern: String },
}

/// The parsed command line: the one command to run.
pub struct Options {
    pub command: Command,
}

/// Whether `c` changes the store, so that the store is saved afterwards.
pub open spec fn changes_store(c: Command) -> bool {
    !(c is List || c is Search)
}

/// The store after `c` runs on `m`, at time `now`.
pub open spec fn after_command(m: Map<i64, TaskView>, c: Command, now: i64) -> Map<i64, TaskView> {
    match c {
        Command::List => m,
        Command::Add { description } => after_add(m, description@, now),
        Command::Update { id, description } => after_update(m, id as i64, description@),
        Command::Delete { id } => m.remove(id as i64),
        Command::Complete { id } => after_complete(m, id as i64),
        Command::Clear => Map::empty(),
        Command::Search { .. } => m,
    }
}

/// What is shown after `c` ran and left the store as `m`.
pub open spec fn shown_after(m: Map<i64, TaskView>, c: Command) -> Map<i64, TaskView> {
    match c {
        Command::Search { pattern } => matching(m, pattern@),
        _ => m,
    }
}

impl Command {
    /// Whether running this command changes the store, so that it is saved
    /// afterwards.
    pub fn changes_store(&self) -> (r: bool)
        ensures
            r == changes_store(*self),
    {
        match self {
            Command::List => false,
            Command::Search { .. } => false,
            _ => true,
        }
    }
}

/// Runs one command on the store, with `now` as the creation time of an
/// added task, and returns the entries to show.
pub fn execute(store: &mut TaskStore, command: Command, now: i64) -> (r: Vec<(i64, Task)>)
    requires
        old(store).wf(),
    ensures
        final(store).wf(),
        final(store)@ == after_command(old(store)@, command, now),
        ids_unique(entry_views(r@)),
        model(entry_views(r@)) == shown_after(final(store)@, command),
{
    match command {
        Command::List => {},
        Command::Add { description } => {
            let _ = store.add(description, now);
        },
        Command::Update { id, description } => store.update(id as i64, description),
        Command::Delete { id } => store.delete(id as i64),
        Command::Complete { id } => store.complete(id as i64),
        Command::Clear => store.clear(),
        Command::Search { pattern } => {
            return store.search(&pattern);
        },
    }
    store.list()
}

} // verus!
