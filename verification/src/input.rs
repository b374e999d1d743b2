//! The task definitions that a task file holds.
use vstd::prelude::*;

use crate::strmap::StrMap;

verus! {

/// One task definition: a command with options, a command string (which names
/// another task when it starts with `@`), or a sequence of definitions.
#[derive(Debug, PartialEq)]
pub enum TaskDef {
    TaskObj { command: String, env: Option<Vec<String>> },
    CmdString(String),
    TaskSeq(Vec<TaskDef>),
}

/// The task definitions, by name.
#[derive(Debug)]
pub struct Input {
    pub tasks: StrMap<TaskDef>,
}

impl Input {
    /// The definition named `name`, if any.
    pub open spec fn def_of(self, name: Seq<char>) -> Option<TaskDef> {
        self.tasks.lookup(name)
    }
}

} // verus!
