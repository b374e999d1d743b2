//! The parent of a set of running tasks.
use vstd::prelude::*;

verus! {

/// The parent that running tasks report to.
#[derive(Debug)]
pub struct TaskParent {
    pub id: String,
}

impl TaskParent {
    /// A parent with the fixed id `123456`.
    pub fn new() -> (p: TaskParent)
        ensures
            p.id@ == "123456"@,
    {
        TaskParent { id: "123456".to_owned() }
    }
}

} // verus!
