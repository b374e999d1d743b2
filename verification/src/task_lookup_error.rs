//! The messages shown when a task reference cannot be resolved.
use vstd::prelude::*;

use crate::input::Input;
use crate::task_lookup::{
    law_resolution_path, lookups_view, path_view, resolves, selection, PathItem, PathStep, TaskError,
    TaskLookup,
};
use crate::text::{append_chars, append_joined, append_str, chars_of, decimal, decimal_chars, join, string_of};

verus! {

/// How a path step is shown: a name in backquotes, or its position.
pub open spec fn step_text(s: PathStep) -> Seq<char> {
    match s {
        PathStep::Name(n) => "`"@ + n + "`"@,
        PathStep::Index(i) => "[index: "@ + decimal(i as nat) + "]"@,
    }
}

/// How a path is shown: its steps joined by arrows.
pub open spec fn path_text(p: Seq<PathStep>) -> Seq<char> {
    join(p.map_values(|s: PathStep| step_text(s)), " -> "@)
}

/// The message for a target whose resolution failed along `path`.
pub open spec fn failure_text(target: Seq<char>, path: Seq<PathStep>) -> Seq<char> {
    "\nResolution for `"@ + target
        + "` failed.\n\nThis means that at some point you tried to reference a task name\nthat doesn't exist in your input.\n\nHere's the path I tried to resolve:\n\n    "@
        + path_text(path) + "\n\nThe error occured because task "@ + step_text(path.last())
        + " could not be found\n    "@
}

fn step_chars(item: &PathItem) -> (v: Vec<char>)
    ensures
        v@ == step_text(item@),
{
    let mut v: Vec<char> = Vec::new();
    match item {
        PathItem::String(s) => {
            append_str(&mut v, "`");
            append_str(&mut v, s.as_str());
            append_str(&mut v, "`");
        },
        PathItem::Index(i) => {
            append_str(&mut v, "[index: ");
            let d = decimal_chars(*i);
            append_chars(&mut v, &d);
            append_str(&mut v, "]");
        },
    }
    v
}

impl PathItem {
    /// The text shown for this step.
    pub fn to_display_string(&self) -> (s: String)
        ensures
            s@ == step_text(self@),
    {
        let v = step_chars(self);
        string_of(&v)
    }
}

fn path_chars(path: &Vec<PathItem>) -> (v: Vec<char>)
    ensures
        v@ == path_text(path_view(path@)),
{
    let mut parts: Vec<Vec<char>> = Vec::new();
    for i in 0..path.len()
        invariant
            parts@.len() == i,
            forall|j: int| 0 <= j < i ==> (#[trigger] parts@[j])@ == step_text(path@[j]@),
    {
        parts.push(step_chars(&path[i]));
    }
    let sep = chars_of(" -> ");
    let mut v: Vec<char> = Vec::new();
    append_joined(&mut v, &parts, &sep);
    assert(parts@.map_values(|l: Vec<char>| l@) == path_view(path@).map_values(|s: PathStep| step_text(s)));
    v
}

/// The text of a path: its steps joined by arrows.
pub fn print_path(path: &Vec<PathItem>) -> (s: String)
    ensures
        s@ == path_text(path_view(path@)),
{
    let v = path_chars(path);
    string_of(&v)
}

/// The message for `target`, whose resolution failed along `path`.
pub fn print(target: &String, path: &Vec<PathItem>) -> (s: String)
    requires
        path@.len() > 0,
    ensures
        s@ == failure_text(target@, path_view(path@)),
{
    let mut v: Vec<char> = Vec::new();
    append_str(&mut v, "\nResolution for `");
    append_str(&mut v, target.as_str());
    append_str(
        &mut v,
        "` failed.\n\nThis means that at some point you tried to reference a task name\nthat doesn't exist in your input.\n\nHere's the path I tried to resolve:\n\n    ",
    );
    let p = path_chars(path);
    append_chars(&mut v, &p);
    append_str(&mut v, "\n\nThe error occured because task ");
    let last = step_chars(&path[path.len() - 1]);
    append_chars(&mut v, &last);
    append_str(&mut v, " could not be found\n    ");
    string_of(&v)
}

/// The message for one lookup of a failed selection: empty for a found one.
pub open spec fn lookup_text(l: TaskLookup) -> Seq<char> {
    match l {
        TaskLookup::NotFound { target, path } => failure_text(target@, path_view(path@)),
        TaskLookup::Found { .. } => seq![],
    }
}

/// Whether every failed lookup of `v` has a non-empty path, as `validate` builds them.
pub open spec fn failures_have_paths(v: Seq<TaskLookup>) -> bool {
    forall|i: int| 0 <= i < v.len() ==> (#[trigger] v[i] matches TaskLookup::NotFound { path, .. } ==> path@.len() > 0)
}

/// The lookups `select` hands back can always be shown: every lookup that failed has
/// a path, ending with the task that could not be found.
pub proof fn law_selection_failures_can_be_shown(input: Input, names: Seq<&str>, v: Seq<TaskLookup>)
    requires
        forall|i: int| 0 <= i < names.len() ==> resolves(input, #[trigger] names[i]@, names[i]@, seq![]),
        lookups_view(v) == selection(input, names),
    ensures
        failures_have_paths(v),
{
    assert forall|i: int| 0 <= i < v.len() implies (#[trigger] v[i] matches TaskLookup::NotFound { path, .. } ==> path@.len() > 0) by {
        assert(lookups_view(v).len() == v.len());
        assert(selection(input, names).len() == names.len());
        assert(resolves(input, names[i]@, names[i]@, seq![]));
        law_resolution_path(input, names[i]@, names[i]@, seq![]);
        assert(lookups_view(v)[i] == v[i]@);
        assert(v[i]@ == selection(input, names)[i]);
        if let TaskLookup::NotFound { path, .. } = v[i] {
            assert(path_view(path@).len() == path@.len());
        }
    }
}

impl TaskError {
    /// The text shown for this error: for failed lookups, their messages, one per
    /// lookup, joined by newlines; for an error of the YAML reader, that error's own
    /// text, as its `Display` writes it.
    pub fn to_display_string(&self) -> (s: String)
        requires
            self matches TaskError::Invalid(v) ==> failures_have_paths(v@),
        ensures
            self matches TaskError::Invalid(v) ==> s@ == join(v@.map_values(|l: TaskLookup| lookup_text(l)), "\n"@),
            self matches TaskError::Serde(e) ==> vstd::string::to_string_from_display_ensures::<serde_yaml::Error>(&e, s),
    {
        match self {
            TaskError::Invalid(lookups) => {
                let mut parts: Vec<Vec<char>> = Vec::new();
                for i in 0..lookups.len()
                    invariant
                        failures_have_paths(lookups@),
                        parts@.len() == i,
                        forall|j: int| 0 <= j < i ==> (#[trigger] parts@[j])@ == lookup_text(lookups@[j]),
                {
                    let part = match &lookups[i] {
                        TaskLookup::NotFound { target, path } => {
                            assert(lookups@[i as int] matches TaskLookup::NotFound { .. });
                            let s = print(target, path);
                            chars_of(s.as_str())
                        },
                        TaskLookup::Found { .. } => Vec::new(),
                    };
                    parts.push(part);
                }
                let sep = chars_of("\n");
                let mut v: Vec<char> = Vec::new();
                append_joined(&mut v, &parts, &sep);
                assert(parts@.map_values(|l: Vec<char>| l@) == lookups@.map_values(|l: TaskLookup| lookup_text(l)));
                string_of(&v)
            },
            TaskError::Serde(e) => e.to_string(),
        }
    }
}

} // verus!
