//! Task trees built from the task definitions, and their display.
use vstd::prelude::*;

use crate::archy::{archy, archy_text, lemma_node_views, node_views, ArchyOpts, Node, NodeView};
use crate::ids::{is_task_id, uuid};
use crate::input::{Input, TaskDef};
use crate::paint::{bold, bolded, paint, painted, Paint};
use crate::report::SimpleReport;
use crate::strmap::StrMap;
use crate::task_lookup::{
    law_resolution_independent_of_depth, limit_fits, one_byte, resolution, resolve, resolve_item, resolve_items,
    resolve_seq, resolve_string, resolves, PathStep,
};
use crate::text::{append_chars, append_joined, append_str, chars_of, join, string_of};

verus! {

/// How the items of a group run: one after the other, or all at once.
#[derive(Debug, Clone, Copy, PartialEq, Eq, Structural)]
pub enum RunMode {
    Series,
    Parallel,
}

/// The text shown for a run mode.
pub open spec fn run_mode_text(m: RunMode) -> Seq<char> {
    match m {
        RunMode::Series => painted(Paint::Blue, "<series>"@),
        RunMode::Parallel => painted(Paint::Blue, "<parallel>"@),
    }
}

impl RunMode {
    /// The text shown for this run mode.
    pub fn to_display_string(&self) -> (s: String)
        ensures
            s@ == run_mode_text(*self),
    {
        match self {
            RunMode::Series => paint(Paint::Blue, "<series>"),
            RunMode::Parallel => paint(Paint::Blue, "<parallel>"),
        }
    }
}

/// A task with its command.
#[derive(Debug)]
pub struct TaskItem {
    pub id: String,
    pub cmd: String,
    pub fail: bool,
    pub name: Option<Name>,
}

/// A group of tasks and how they run.
#[derive(Debug)]
pub struct TaskGroup {
    pub id: String,
    pub items: Vec<Task>,
    pub run_mode: RunMode,
    pub fail: bool,
    pub name: Option<Name>,
}

/// A task tree.
#[derive(Debug)]
pub enum Task {
    Item(TaskItem),
    Group(TaskGroup),
}

/// The name shown for a task: the alias it was defined under, a free text, or none.
#[derive(Debug)]
pub enum Name {
    Alias(String),
    String(String),
    Empty,
}

/// The value of a `Name`.
pub enum NameView {
    Alias(Seq<char>),
    Text(Seq<char>),
    Empty,
}

impl View for Name {
    type V = NameView;

    open spec fn view(&self) -> NameView {
        match self {
            Name::Alias(a) => NameView::Alias(a@),
            Name::String(s) => NameView::Text(s@),
            Name::Empty => NameView::Empty,
        }
    }
}

/// The value of an optional name.
pub open spec fn name_opt(n: Option<Name>) -> Option<NameView> {
    match n {
        Some(n) => Some(n@),
        None => None,
    }
}

/// The text shown for a name: an alias is `@` and the alias in bold.
pub open spec fn name_text(n: NameView) -> Seq<char> {
    match n {
        NameView::Alias(a) => "@"@ + bolded(a),
        NameView::Text(s) => s,
        NameView::Empty => seq![],
    }
}

impl Name {
    /// The text shown for this name.
    pub fn to_display_string(&self) -> (s: String)
        ensures
            s@ == name_text(self@),
    {
        match self {
            Name::Alias(alias) => {
                let b = bold(alias.as_str());
                let mut v: Vec<char> = Vec::new();
                append_str(&mut v, "@");
                append_str(&mut v, b.as_str());
                string_of(&v)
            },
            Name::String(s) => s.clone(),
            Name::Empty => String::new(),
        }
    }
}

/// A task tree with its ids left out.
pub enum TaskShape {
    Item { cmd: Seq<char>, fail: bool, name: Option<NameView> },
    Group { items: Seq<TaskShape>, run_mode: RunMode, fail: bool, name: Option<NameView> },
}

/// The shape of a task tree.
pub open spec fn shape(t: Task) -> TaskShape
    decreases t,
{
    match t {
        Task::Item(i) => TaskShape::Item { cmd: i.cmd@, fail: i.fail, name: name_opt(i.name) },
        Task::Group(g) => TaskShape::Group {
            items: shapes(g.items@),
            run_mode: g.run_mode,
            fail: g.fail,
            name: name_opt(g.name),
        },
    }
}

/// The shapes of a list of task trees.
pub open spec fn shapes(ts: Seq<Task>) -> Seq<TaskShape>
    decreases ts,
{
    if ts.len() == 0 {
        seq![]
    } else {
        shapes(ts.subrange(0, ts.len() - 1)).push(shape(ts[ts.len() - 1]))
    }
}

/// Whether every id in a task tree is a task id.
pub open spec fn ids_ok(t: Task) -> bool
    decreases t,
{
    match t {
        Task::Item(i) => is_task_id(i.id@),
        Task::Group(g) => is_task_id(g.id@) && all_ids_ok(g.items@),
    }
}

/// Whether every id in a list of task trees is a task id.
pub open spec fn all_ids_ok(ts: Seq<Task>) -> bool
    decreases ts,
{
    if ts.len() == 0 {
        true
    } else {
        all_ids_ok(ts.subrange(0, ts.len() - 1)) && ids_ok(ts[ts.len() - 1])
    }
}

/// The task built from a command string, within `fuel` nested steps: one that
/// starts with `@` stands for the task named by the rest of it, any other is a task
/// running it. `None` means that the steps ran out, or that building stops on a
/// command string whose first byte cannot be sliced off.
pub open spec fn build_string(input: Input, s: Seq<char>, alias: Option<NameView>, fuel: nat) -> Option<TaskShape>
    decreases fuel, 0nat,
{
    if fuel == 0 || s.len() == 0 || !one_byte(s[0]) {
        None
    } else if s[0] == '@' {
        build_named(input, s.skip(1), (fuel - 1) as nat)
    } else {
        Some(TaskShape::Item { cmd: s, fail: false, name: alias })
    }
}

/// The task built from the definition named `name`, under that name as its alias.
/// `None` also where there is no such definition.
pub open spec fn build_named(input: Input, name: Seq<char>, fuel: nat) -> Option<TaskShape>
    decreases fuel, 0nat,
{
    if fuel == 0 {
        None
    } else {
        match input.def_of(name) {
            None => None,
            Some(def) => {
                let alias = Some(NameView::Alias(name));
                match def {
                    TaskDef::TaskSeq(v) => build_seq(input, v@, alias, RunMode::Series, (fuel - 1) as nat),
                    TaskDef::CmdString(s) => build_string(input, s@, alias, (fuel - 1) as nat),
                    TaskDef::TaskObj { command, .. } => build_string(input, command@, alias, (fuel - 1) as nat),
                }
            },
        }
    }
}

/// The group built from a sequence of definitions: it fails as a whole when an item fails.
pub open spec fn build_seq(
    input: Input,
    items: Seq<TaskDef>,
    alias: Option<NameView>,
    run_mode: RunMode,
    fuel: nat,
) -> Option<TaskShape>
    decreases fuel, 0nat,
{
    if fuel == 0 {
        None
    } else {
        match build_items(input, items, items.len(), (fuel - 1) as nat) {
            Some(shapes) => Some(TaskShape::Group { items: shapes, run_mode, fail: true, name: alias }),
            None => None,
        }
    }
}

/// The tasks built from the first `k` items of a sequence.
pub open spec fn build_items(input: Input, items: Seq<TaskDef>, k: nat, fuel: nat) -> Option<Seq<TaskShape>>
    decreases fuel, k,
{
    if k == 0 || k > items.len() {
        if k == 0 { Some(seq![]) } else { None }
    } else {
        match (build_items(input, items, (k - 1) as nat, fuel), build_item(input, items[k - 1], fuel)) {
            (Some(a), Some(b)) => Some(a.push(b)),
            _ => None,
        }
    }
}

/// The task built from one item of a sequence: a nested sequence runs in parallel.
pub open spec fn build_item(input: Input, def: TaskDef, fuel: nat) -> Option<TaskShape>
    decreases fuel, 0nat,
{
    if fuel == 0 {
        None
    } else {
        match def {
            TaskDef::CmdString(s) => build_string(input, s@, None, (fuel - 1) as nat),
            TaskDef::TaskObj { command, .. } => build_string(input, command@, None, (fuel - 1) as nat),
            TaskDef::TaskSeq(v) => build_seq(input, v@, None, RunMode::Parallel, (fuel - 1) as nat),
        }
    }
}

/// Whether building from a command string comes to an end.
pub open spec fn string_builds(input: Input, s: Seq<char>, alias: Option<NameView>) -> bool {
    exists|fuel: nat| #[trigger] build_string(input, s, alias, fuel) is Some
}

/// The task built from a command string, where `string_builds` holds.
pub open spec fn string_task(input: Input, s: Seq<char>, alias: Option<NameView>) -> TaskShape {
    build_string(input, s, alias, choose|fuel: nat| #[trigger] build_string(input, s, alias, fuel) is Some).unwrap()
}

/// Whether building the task named `name` comes to an end.
pub open spec fn named_builds(input: Input, name: Seq<char>) -> bool {
    exists|fuel: nat| #[trigger] build_named(input, name, fuel) is Some
}

/// The task named `name`, where `named_builds` holds.
pub open spec fn named_task(input: Input, name: Seq<char>) -> TaskShape {
    build_named(input, name, choose|fuel: nat| #[trigger] build_named(input, name, fuel) is Some).unwrap()
}

/// Whether building a group from a sequence comes to an end.
pub open spec fn seq_builds(input: Input, items: Seq<TaskDef>, alias: Option<NameView>, run_mode: RunMode) -> bool {
    exists|fuel: nat| #[trigger] build_seq(input, items, alias, run_mode, fuel) is Some
}

/// The group built from a sequence, where `seq_builds` holds.
pub open spec fn seq_task(input: Input, items: Seq<TaskDef>, alias: Option<NameView>, run_mode: RunMode) -> TaskShape {
    build_seq(input, items, alias, run_mode, choose|fuel: nat| #[trigger] build_seq(input, items, alias, run_mode, fuel) is Some).unwrap()
}

/// The shape of an optional task.
pub open spec fn shape_opt(r: Option<Task>) -> Option<TaskShape> {
    match r {
        Some(t) => Some(shape(t)),
        None => None,
    }
}

fn string_fuel(string: &str, alias: Option<Name>, input: &Input, limit: Option<usize>, Ghost(fuel): Ghost<nat>) -> (r: Option<Task>)
    requires
        limit_fits(limit, fuel, build_string(*input, string@, name_opt(alias), fuel) is Some),
    ensures
        shape_opt(r) == build_string(*input, string@, name_opt(alias), fuel),
        r matches Some(t) ==> ids_ok(t),
    decreases fuel, 0nat,
{
    let next: Option<usize> = match limit {
        Some(d) => {
            if d == 0 {
                return None;
            }
            Some(d - 1)
        },
        None => None,
    };
    let chars = chars_of(string);
    if chars.len() == 0 || chars[0] >= '\u{80}' {
        return None;
    }
    if chars[0] == '@' {
        let mut rest: Vec<char> = Vec::new();
        for i in 1..chars.len()
            invariant
                rest@ == chars@.subrange(1, i as int),
        {
            rest.push(chars[i]);
        }
        assert(rest@ == string@.skip(1));
        let name = string_of(&rest);
        named_fuel(input, name.as_str(), next, Ghost((fuel - 1) as nat))
    } else {
        Some(Task::Item(TaskItem { fail: false, id: uuid(), cmd: string.to_owned(), name: alias }))
    }
}

fn named_fuel(input: &Input, name: &str, limit: Option<usize>, Ghost(fuel): Ghost<nat>) -> (r: Option<Task>)
    requires
        limit_fits(limit, fuel, build_named(*input, name@, fuel) is Some),
    ensures
        shape_opt(r) == build_named(*input, name@, fuel),
        r matches Some(t) ==> ids_ok(t),
    decreases fuel, 0nat,
{
    let next: Option<usize> = match limit {
        Some(d) => {
            if d == 0 {
                return None;
            }
            Some(d - 1)
        },
        None => None,
    };
    match input.tasks.get(name) {
        None => None,
        Some(item) => {
            let alias = Name::Alias(name.to_owned());
            match item {
                TaskDef::TaskSeq(seq) => seq_fuel(seq, Some(alias), RunMode::Series, input, next, Ghost((fuel - 1) as nat)),
                TaskDef::CmdString(s) => string_fuel(s.as_str(), Some(alias), input, next, Ghost((fuel - 1) as nat)),
                TaskDef::TaskObj { command, .. } => string_fuel(command.as_str(), Some(alias), input, next, Ghost((fuel - 1) as nat)),
            }
        },
    }
}

proof fn lemma_shapes(ts: Seq<Task>)
    ensures
        shapes(ts).len() == ts.len(),
        forall|i: int| 0 <= i < ts.len() ==> #[trigger] shapes(ts)[i] == shape(ts[i]),
        all_ids_ok(ts) == forall|i: int| 0 <= i < ts.len() ==> #[trigger] ids_ok(ts[i]),
    decreases ts.len(),
{
    if ts.len() > 0 {
        let init = ts.subrange(0, ts.len() - 1);
        lemma_shapes(init);
        assert forall|i: int| 0 <= i < ts.len() - 1 implies ids_ok(ts[i]) == ids_ok(init[i]) by {
            assert(ts[i] == init[i]);
        }
        if forall|i: int| 0 <= i < ts.len() ==> #[trigger] ids_ok(ts[i]) {
            assert forall|i: int| 0 <= i < init.len() implies #[trigger] ids_ok(init[i]) by {
                assert(ids_ok(ts[i]));
            }
            assert(all_ids_ok(init));
            assert(ids_ok(ts[ts.len() - 1]));
            assert(all_ids_ok(ts));
        }
        if all_ids_ok(ts) {
            assert forall|i: int| 0 <= i < ts.len() implies #[trigger] ids_ok(ts[i]) by {
                if i < ts.len() - 1 {
                    assert(ids_ok(init[i]));
                }
            }
        }
    }
}

proof fn lemma_build_items_some(input: Input, items: Seq<TaskDef>, k: nat, j: nat, fuel: nat)
    requires
        j < k <= items.len(),
        build_items(input, items, k, fuel) is Some,
    ensures
        build_items(input, items, (j + 1) as nat, fuel) is Some,
        build_item(input, items[j as int], fuel) is Some,
        build_items(input, items, (j + 1) as nat, fuel).unwrap() == build_items(input, items, j, fuel).unwrap().push(build_item(input, items[j as int], fuel).unwrap()),
        build_items(input, items, k, fuel).unwrap().len() == k,
    decreases k - j,
{
    if j + 1 < k {
        lemma_build_items_some(input, items, (k - 1) as nat, j, fuel);
    }
    lemma_build_items_len(input, items, k, fuel);
}

proof fn lemma_build_items_len(input: Input, items: Seq<TaskDef>, k: nat, fuel: nat)
    requires
        k <= items.len(),
        build_items(input, items, k, fuel) is Some,
    ensures
        build_items(input, items, k, fuel).unwrap().len() == k,
        forall|j: nat| j <= k ==> (#[trigger] build_items(input, items, j, fuel)) is Some
            && build_items(input, items, k, fuel).unwrap().take(j as int) == build_items(input, items, j, fuel).unwrap(),
    decreases k,
{
    if k > 0 {
        lemma_build_items_len(input, items, (k - 1) as nat, fuel);
        let whole = build_items(input, items, k, fuel).unwrap();
        let init = build_items(input, items, (k - 1) as nat, fuel).unwrap();
        assert(whole == init.push(build_item(input, items[k - 1], fuel).unwrap()));
        assert forall|j: nat| j <= k implies (#[trigger] build_items(input, items, j, fuel)) is Some
            && whole.take(j as int) == build_items(input, items, j, fuel).unwrap() by {
            if j < k {
                assert(whole.take(j as int) == init.take(j as int));
            } else {
                assert(whole.take(j as int) == whole);
            }
        }
    }
}

fn seq_fuel(
    seq: &Vec<TaskDef>,
    alias: Option<Name>,
    run_mode: RunMode,
    input: &Input,
    limit: Option<usize>,
    Ghost(fuel): Ghost<nat>,
) -> (r: Option<Task>)
    requires
        limit_fits(limit, fuel, build_seq(*input, seq@, name_opt(alias), run_mode, fuel) is Some),
    ensures
        shape_opt(r) == build_seq(*input, seq@, name_opt(alias), run_mode, fuel),
        r matches Some(t) ==> ids_ok(t),
    decreases fuel, 0nat,
{
    let next: Option<usize> = match limit {
        Some(d) => {
            if d == 0 {
                return None;
            }
            Some(d - 1)
        },
        None => None,
    };
    let ghost f = (fuel - 1) as nat;
    let ghost len = seq@.len();
    let mut seq_items: Vec<Task> = Vec::new();
    for i in 0..seq.len()
        invariant
            fuel > 0,
            f == fuel - 1,
            len == seq@.len(),
            limit_fits(next, f, build_items(*input, seq@, len, f) is Some),
            build_items(*input, seq@, i as nat, f) is Some,
            build_items(*input, seq@, i as nat, f).unwrap().len() == i,
            seq_items@.len() == i,
            forall|j: int| 0 <= j < i ==> shape(#[trigger] seq_items@[j]) == build_items(*input, seq@, i as nat, f).unwrap()[j],
            forall|j: int| 0 <= j < i ==> ids_ok(#[trigger] seq_items@[j]),
    {
        proof {
            if build_items(*input, seq@, len, f) is Some {
                lemma_build_items_some(*input, seq@, len, i as nat, f);
            }
        }
        match item_fuel(&seq[i], input, next, Ghost(f)) {
            Some(t) => {
                let ghost before = build_items(*input, seq@, i as nat, f).unwrap();
                assert(build_items(*input, seq@, (i + 1) as nat, f) == Some(before.push(shape(t))));
                seq_items.push(t);
            },
            None => {
                proof {
                    if build_items(*input, seq@, len, f) is Some {
                        lemma_build_items_some(*input, seq@, len, i as nat, f);
                    }
                }
                return None;
            },
        }
    }
    proof {
        lemma_shapes(seq_items@);
        assert(shapes(seq_items@) == build_items(*input, seq@, len, f).unwrap());
    }
    Some(Task::Group(TaskGroup { id: uuid(), items: seq_items, run_mode, fail: true, name: alias }))
}

fn item_fuel(def: &TaskDef, input: &Input, limit: Option<usize>, Ghost(fuel): Ghost<nat>) -> (r: Option<Task>)
    requires
        limit_fits(limit, fuel, build_item(*input, *def, fuel) is Some),
    ensures
        shape_opt(r) == build_item(*input, *def, fuel),
        r matches Some(t) ==> ids_ok(t),
    decreases fuel, 0nat,
{
    let next: Option<usize> = match limit {
        Some(d) => {
            if d == 0 {
                return None;
            }
            Some(d - 1)
        },
        None => None,
    };
    match def {
        TaskDef::CmdString(s) => string_fuel(s.as_str(), None, input, next, Ghost((fuel - 1) as nat)),
        TaskDef::TaskObj { command, .. } => string_fuel(command.as_str(), None, input, next, Ghost((fuel - 1) as nat)),
        TaskDef::TaskSeq(seq) => seq_fuel(seq, None, RunMode::Parallel, input, next, Ghost((fuel - 1) as nat)),
    }
}

proof fn lemma_named_mono(input: Input, name: Seq<char>, f: nat, g: nat)
    requires
        f <= g,
        build_named(input, name, f) is Some,
    ensures
        build_named(input, name, g) == build_named(input, name, f),
    decreases f, 0nat,
{
    let alias = Some(NameView::Alias(name));
    match input.def_of(name).unwrap() {
        TaskDef::TaskSeq(v) => lemma_seq_mono(input, v@, alias, RunMode::Series, (f - 1) as nat, (g - 1) as nat),
        TaskDef::CmdString(s) => lemma_string_mono(input, s@, alias, (f - 1) as nat, (g - 1) as nat),
        TaskDef::TaskObj { command, .. } => lemma_string_mono(input, command@, alias, (f - 1) as nat, (g - 1) as nat),
    }
}

proof fn lemma_string_mono(input: Input, s: Seq<char>, alias: Option<NameView>, f: nat, g: nat)
    requires
        f <= g,
        build_string(input, s, alias, f) is Some,
    ensures
        build_string(input, s, alias, g) == build_string(input, s, alias, f),
    decreases f, 0nat,
{
    if s[0] == '@' {
        lemma_named_mono(input, s.skip(1), (f - 1) as nat, (g - 1) as nat);
    }
}

proof fn lemma_seq_mono(input: Input, items: Seq<TaskDef>, alias: Option<NameView>, run_mode: RunMode, f: nat, g: nat)
    requires
        f <= g,
        build_seq(input, items, alias, run_mode, f) is Some,
    ensures
        build_seq(input, items, alias, run_mode, g) == build_seq(input, items, alias, run_mode, f),
    decreases f, 0nat,
{
    lemma_items_mono(input, items, items.len(), (f - 1) as nat, (g - 1) as nat);
}

proof fn lemma_items_mono(input: Input, items: Seq<TaskDef>, k: nat, f: nat, g: nat)
    requires
        f <= g,
        build_items(input, items, k, f) is Some,
    ensures
        build_items(input, items, k, g) == build_items(input, items, k, f),
    decreases f, k,
{
    if k > 0 && k <= items.len() {
        lemma_items_mono(input, items, (k - 1) as nat, f, g);
        lemma_item_mono(input, items[k - 1], f, g);
    }
}

proof fn lemma_item_mono(input: Input, def: TaskDef, f: nat, g: nat)
    requires
        f <= g,
        build_item(input, def, f) is Some,
    ensures
        build_item(input, def, g) == build_item(input, def, f),
    decreases f, 0nat,
{
    match def {
        TaskDef::CmdString(s) => lemma_string_mono(input, s@, None, (f - 1) as nat, (g - 1) as nat),
        TaskDef::TaskObj { command, .. } => lemma_string_mono(input, command@, None, (f - 1) as nat, (g - 1) as nat),
        TaskDef::TaskSeq(v) => lemma_seq_mono(input, v@, None, RunMode::Parallel, (f - 1) as nat, (g - 1) as nat),
    }
}

/// Once building the task named `name` ends within `fuel` steps, `named_task` is that task.
proof fn lemma_named_task(input: Input, name: Seq<char>, fuel: nat)
    requires
        build_named(input, name, fuel) is Some,
    ensures
        named_builds(input, name),
        named_task(input, name) == build_named(input, name, fuel).unwrap(),
{
    let c = choose|f: nat| #[trigger] build_named(input, name, f) is Some;
    assert(build_named(input, name, fuel) is Some);
    if c <= fuel {
        lemma_named_mono(input, name, c, fuel);
    } else {
        lemma_named_mono(input, name, fuel, c);
    }
}

/// Once building from `s` ends within `fuel` steps, `string_task` is that task.
proof fn lemma_string_task(input: Input, s: Seq<char>, alias: Option<NameView>, fuel: nat)
    requires
        build_string(input, s, alias, fuel) is Some,
    ensures
        string_builds(input, s, alias),
        string_task(input, s, alias) == build_string(input, s, alias, fuel).unwrap(),
{
    let c = choose|f: nat| #[trigger] build_string(input, s, alias, f) is Some;
    assert(build_string(input, s, alias, fuel) is Some);
    if c <= fuel {
        lemma_string_mono(input, s, alias, c, fuel);
    } else {
        lemma_string_mono(input, s, alias, fuel, c);
    }
}

/// Once building from `items` ends within `fuel` steps, `seq_task` is that group.
proof fn lemma_seq_task(input: Input, items: Seq<TaskDef>, alias: Option<NameView>, run_mode: RunMode, fuel: nat)
    requires
        build_seq(input, items, alias, run_mode, fuel) is Some,
    ensures
        seq_builds(input, items, alias, run_mode),
        seq_task(input, items, alias, run_mode) == build_seq(input, items, alias, run_mode, fuel).unwrap(),
{
    let c = choose|f: nat| #[trigger] build_seq(input, items, alias, run_mode, f) is Some;
    assert(build_seq(input, items, alias, run_mode, fuel) is Some);
    if c <= fuel {
        lemma_seq_mono(input, items, alias, run_mode, c, fuel);
    } else {
        lemma_seq_mono(input, items, alias, run_mode, fuel, c);
    }
}

proof fn lemma_named_found(input: Input, t: Seq<char>, name: Seq<char>, p: Seq<PathStep>, f: nat)
    requires
        build_named(input, name, f) is Some,
    ensures
        resolve(input, t, name, p, f) is Some,
        resolve(input, t, name, p, f).unwrap().found,
    decreases f, 0nat,
{
    let q = p.push(PathStep::Name(name));
    let alias = Some(NameView::Alias(name));
    match input.def_of(name).unwrap() {
        TaskDef::CmdString(s) => lemma_string_found(input, t, s@, alias, q, (f - 1) as nat),
        TaskDef::TaskObj { .. } => {},
        TaskDef::TaskSeq(v) => lemma_seq_found(input, t, v@, alias, RunMode::Series, q, (f - 1) as nat),
    }
}

proof fn lemma_string_found(input: Input, t: Seq<char>, s: Seq<char>, alias: Option<NameView>, p: Seq<PathStep>, f: nat)
    requires
        build_string(input, s, alias, f) is Some,
    ensures
        resolve_string(input, t, s, p, f) is Some,
        resolve_string(input, t, s, p, f).unwrap().found,
    decreases f, 0nat,
{
    if s[0] == '@' {
        lemma_named_found(input, t, s.skip(1), p, (f - 1) as nat);
    }
}

proof fn lemma_seq_found(
    input: Input,
    t: Seq<char>,
    items: Seq<TaskDef>,
    alias: Option<NameView>,
    run_mode: RunMode,
    p: Seq<PathStep>,
    f: nat,
)
    requires
        build_seq(input, items, alias, run_mode, f) is Some,
    ensures
        resolve_seq(input, t, items, p, f) is Some,
        resolve_seq(input, t, items, p, f).unwrap().found,
    decreases f, 0nat,
{
    lemma_items_found(input, t, items, p, 0, (f - 1) as nat);
}

proof fn lemma_items_found(input: Input, t: Seq<char>, items: Seq<TaskDef>, p: Seq<PathStep>, j: nat, f: nat)
    requires
        build_items(input, items, items.len(), f) is Some,
        j <= items.len(),
    ensures
        resolve_items(input, t, items, p, j, f) is Some,
        resolve_items(input, t, items, p, j, f).unwrap().found,
    decreases f, items.len() - j,
{
    if j < items.len() {
        lemma_build_items_some(input, items, items.len(), j, f);
        lemma_item_found(input, t, items[j as int], p.push(PathStep::Index(j as usize)), f);
        lemma_items_found(input, t, items, p, j + 1, f);
    }
}

proof fn lemma_item_found(input: Input, t: Seq<char>, def: TaskDef, p: Seq<PathStep>, f: nat)
    requires
        build_item(input, def, f) is Some,
    ensures
        resolve_item(input, t, def, p, f) is Some,
        resolve_item(input, t, def, p, f).unwrap().found,
    decreases f, 0nat,
{
    match def {
        TaskDef::CmdString(s) => lemma_string_found(input, t, s@, None, p, (f - 1) as nat),
        TaskDef::TaskObj { .. } => {},
        TaskDef::TaskSeq(v) => lemma_seq_found(input, t, v@, None, RunMode::Parallel, p, (f - 1) as nat),
    }
}

/// Whether the item `def` of a sequence can be built, as `from_seq` builds it: a
/// command string or the command of a task object by `from_string` with no alias, a
/// nested sequence by `from_seq` with no alias, in parallel.
pub open spec fn item_builds(input: Input, def: TaskDef) -> bool {
    match def {
        TaskDef::CmdString(s) => string_builds(input, s@, None),
        TaskDef::TaskObj { command, .. } => string_builds(input, command@, None),
        TaskDef::TaskSeq(v) => seq_builds(input, v@, None, RunMode::Parallel),
    }
}

/// The task `from_seq` builds for the item `def` of a sequence, where `item_builds` holds.
pub open spec fn item_task(input: Input, def: TaskDef) -> TaskShape {
    match def {
        TaskDef::CmdString(s) => string_task(input, s@, None),
        TaskDef::TaskObj { command, .. } => string_task(input, command@, None),
        TaskDef::TaskSeq(v) => seq_task(input, v@, None, RunMode::Parallel),
    }
}

/// Whether the definition `def` of the task `name` can be built under that name as
/// its alias; a sequence runs in series.
pub open spec fn definition_builds(input: Input, def: TaskDef, name: Seq<char>) -> bool {
    let alias = Some(NameView::Alias(name));
    match def {
        TaskDef::TaskSeq(v) => seq_builds(input, v@, alias, RunMode::Series),
        TaskDef::CmdString(s) => string_builds(input, s@, alias),
        TaskDef::TaskObj { command, .. } => string_builds(input, command@, alias),
    }
}

/// The task built from the definition `def` of the task `name`, where
/// `definition_builds` holds.
pub open spec fn definition_task(input: Input, def: TaskDef, name: Seq<char>) -> TaskShape {
    let alias = Some(NameView::Alias(name));
    match def {
        TaskDef::TaskSeq(v) => seq_task(input, v@, alias, RunMode::Series),
        TaskDef::CmdString(s) => string_task(input, s@, alias),
        TaskDef::TaskObj { command, .. } => string_task(input, command@, alias),
    }
}

proof fn lemma_item_task(input: Input, def: TaskDef, fuel: nat)
    requires
        build_item(input, def, fuel) is Some,
    ensures
        item_builds(input, def),
        item_task(input, def) == build_item(input, def, fuel).unwrap(),
{
    match def {
        TaskDef::CmdString(s) => lemma_string_task(input, s@, None, (fuel - 1) as nat),
        TaskDef::TaskObj { command, .. } => lemma_string_task(input, command@, None, (fuel - 1) as nat),
        TaskDef::TaskSeq(v) => lemma_seq_task(input, v@, None, RunMode::Parallel, (fuel - 1) as nat),
    }
}

proof fn lemma_item_fuel(input: Input, def: TaskDef) -> (g: nat)
    requires
        item_builds(input, def),
    ensures
        build_item(input, def, g) is Some,
{
    match def {
        TaskDef::CmdString(s) => {
            let f = choose|f: nat| #[trigger] build_string(input, s@, None, f) is Some;
            f + 1
        },
        TaskDef::TaskObj { command, .. } => {
            let f = choose|f: nat| #[trigger] build_string(input, command@, None, f) is Some;
            f + 1
        },
        TaskDef::TaskSeq(v) => {
            let f = choose|f: nat| #[trigger] build_seq(input, v@, None, RunMode::Parallel, f) is Some;
            f + 1
        },
    }
}

proof fn lemma_items_fuel(input: Input, items: Seq<TaskDef>, k: nat) -> (g: nat)
    requires
        k <= items.len(),
        forall|i: int| 0 <= i < k ==> item_builds(input, #[trigger] items[i]),
    ensures
        build_items(input, items, k, g) is Some,
    decreases k,
{
    if k == 0 {
        0
    } else {
        let g1 = lemma_items_fuel(input, items, (k - 1) as nat);
        assert(item_builds(input, items[k - 1]));
        let g2 = lemma_item_fuel(input, items[k - 1]);
        let g = if g1 <= g2 { g2 } else { g1 };
        lemma_items_mono(input, items, (k - 1) as nat, g1, g);
        lemma_item_mono(input, items[k - 1], g2, g);
        g
    }
}

/// The group `from_seq` builds holds one task per item of the sequence, in order:
/// each the task `from_string` (for a command string or a task object's command) or
/// `from_seq` in parallel (for a nested sequence) builds for it with no alias. The
/// sequence can be built exactly when each of its items can.
pub proof fn law_sequence_items(input: Input, items: Seq<TaskDef>, alias: Option<NameView>, run_mode: RunMode)
    ensures
        seq_builds(input, items, alias, run_mode) <==> forall|i: int| 0 <= i < items.len() ==> item_builds(input, #[trigger] items[i]),
        seq_builds(input, items, alias, run_mode) ==> seq_task(input, items, alias, run_mode) == (TaskShape::Group {
            items: Seq::new(items.len(), |i: int| item_task(input, items[i])),
            run_mode,
            fail: true,
            name: alias,
        }),
{
    if forall|i: int| 0 <= i < items.len() ==> item_builds(input, #[trigger] items[i]) {
        let g = lemma_items_fuel(input, items, items.len());
        assert(build_seq(input, items, alias, run_mode, g + 1) is Some);
    }
    if seq_builds(input, items, alias, run_mode) {
        let f = choose|f: nat| #[trigger] build_seq(input, items, alias, run_mode, f) is Some;
        lemma_seq_task(input, items, alias, run_mode, f);
        let ff = (f - 1) as nat;
        let whole = build_items(input, items, items.len(), ff).unwrap();
        lemma_build_items_len(input, items, items.len(), ff);
        assert forall|i: int| 0 <= i < items.len() implies item_builds(input, #[trigger] items[i])
            && whole[i] == item_task(input, items[i]) by {
            lemma_build_items_some(input, items, items.len(), i as nat, ff);
            lemma_item_task(input, items[i], ff);
            assert(whole.take(i + 1) == build_items(input, items, (i + 1) as nat, ff).unwrap());
            assert(whole[i] == whole.take(i + 1)[i]);
        }
        assert(whole == Seq::new(items.len(), |i: int| item_task(input, items[i])));
    }
}

/// A command string that starts with `@` stands for the task named by the rest of it:
/// it builds exactly when that task does, into that very task, under the name's own
/// alias, whatever alias was asked for. Any other command string that can be sliced
/// builds into a task running it under the alias asked for; an empty one, or one whose
/// first character takes more than one byte, builds into nothing.
pub proof fn law_string_task(input: Input, s: Seq<char>, alias: Option<NameView>)
    ensures
        s.len() == 0 || !one_byte(s[0]) ==> !string_builds(input, s, alias),
        s.len() > 0 && s[0] == '@' ==> (string_builds(input, s, alias) <==> named_builds(input, s.skip(1))),
        s.len() > 0 && s[0] == '@' && named_builds(input, s.skip(1)) ==> string_task(input, s, alias) == named_task(input, s.skip(1)),
        s.len() > 0 && one_byte(s[0]) && s[0] != '@' ==> string_builds(input, s, alias) && string_task(input, s, alias)
            == (TaskShape::Item { cmd: s, fail: false, name: alias }),
{
    if s.len() > 0 && s[0] == '@' {
        assert(one_byte(s[0]));
        if string_builds(input, s, alias) {
            let f = choose|f: nat| #[trigger] build_string(input, s, alias, f) is Some;
            lemma_string_task(input, s, alias, f);
            lemma_named_task(input, s.skip(1), (f - 1) as nat);
        }
        if named_builds(input, s.skip(1)) {
            let g = choose|g: nat| #[trigger] build_named(input, s.skip(1), g) is Some;
            assert(build_string(input, s, alias, g + 1) == build_named(input, s.skip(1), g));
            lemma_string_task(input, s, alias, g + 1);
            lemma_named_task(input, s.skip(1), g);
        }
    } else if s.len() > 0 && one_byte(s[0]) {
        lemma_string_task(input, s, alias, 1);
    }
}

/// The task `get_task_item` builds for `name` is the one its definition builds under
/// `name` as alias (a sequence running in series); it can be built exactly when `name`
/// has a definition that can.
pub proof fn law_named_task_is_its_definition(input: Input, name: Seq<char>)
    ensures
        named_builds(input, name) <==> input.def_of(name) is Some && definition_builds(input, input.def_of(name).unwrap(), name),
        named_builds(input, name) ==> named_task(input, name) == definition_task(input, input.def_of(name).unwrap(), name),
{
    let alias = Some(NameView::Alias(name));
    if input.def_of(name) is Some && definition_builds(input, input.def_of(name).unwrap(), name) {
        let g: nat = match input.def_of(name).unwrap() {
            TaskDef::TaskSeq(v) => choose|f: nat| #[trigger] build_seq(input, v@, alias, RunMode::Series, f) is Some,
            TaskDef::CmdString(s) => choose|f: nat| #[trigger] build_string(input, s@, alias, f) is Some,
            TaskDef::TaskObj { command, .. } => choose|f: nat| #[trigger] build_string(input, command@, alias, f) is Some,
        };
        assert(build_named(input, name, g + 1) is Some);
    }
    if named_builds(input, name) {
        let f = choose|f: nat| #[trigger] build_named(input, name, f) is Some;
        lemma_named_task(input, name, f);
        let ff = (f - 1) as nat;
        match input.def_of(name).unwrap() {
            TaskDef::TaskSeq(v) => lemma_seq_task(input, v@, alias, RunMode::Series, ff),
            TaskDef::CmdString(s) => lemma_string_task(input, s@, alias, ff),
            TaskDef::TaskObj { command, .. } => lemma_string_task(input, command@, alias, ff),
        }
    }
}

/// Every task that can be built from the definitions is found when it is looked up:
/// a name that `get_task_item` accepts is one that `validate` (and so `select`) finds.
pub proof fn law_buildable_names_are_found(input: Input, target: Seq<char>, name: Seq<char>, path: Seq<PathStep>)
    requires
        named_builds(input, name),
    ensures
        resolves(input, target, name, path),
        resolution(input, target, name, path).found,
{
    let f = choose|fuel: nat| #[trigger] build_named(input, name, fuel) is Some;
    lemma_named_found(input, target, name, path, f);
    law_resolution_independent_of_depth(input, target, name, path, f, f);
}

/// The groups that `generate_series` and `generate_par` build for the same names hold
/// the same tasks, in the same order; they differ in run mode, failure and name only.
pub proof fn law_series_and_parallel_share_items(input: Input, names: Seq<&str>, series: Task, parallel: Task)
    requires
        shape(series) == (TaskShape::Group {
            items: named_tasks(input, names),
            run_mode: RunMode::Series,
            fail: true,
            name: Some(NameView::Text("Input: "@ + painted(Paint::Yellow, names_text(names)) + " "@)),
        }),
        shape(parallel) == (TaskShape::Group {
            items: named_tasks(input, names),
            run_mode: RunMode::Parallel,
            fail: false,
            name: Some(NameView::Text("Input: "@ + names_text(names) + " "@)),
        }),
    ensures
        shape(series)->Group_items == shape(parallel)->Group_items,
        shape(series)->Group_items.len() == names.len(),
{
}

/// The status mark of the task `id`: a yellow dash before it reported, a green check
/// mark when it succeeded, a red cross when it failed.
pub open spec fn status_text(reports: StrMap<SimpleReport>, id: Seq<char>) -> Seq<char> {
    match reports.lookup(id) {
        None => painted(Paint::Yellow, "-"@),
        Some(SimpleReport::Success { .. }) => painted(Paint::Green, "\u{2713}"@),
        Some(SimpleReport::Failure { .. }) => painted(Paint::Red, "x"@),
    }
}

/// The line shown for a task: its status, its name if it has one, and its command.
pub open spec fn item_label(item: TaskItem, reports: StrMap<SimpleReport>) -> Seq<char> {
    match item.name {
        Some(n) => status_text(reports, item.id@) + " "@ + name_text(n@) + ":\n"@ + item.cmd@,
        None => status_text(reports, item.id@) + " "@ + item.cmd@,
    }
}

/// The line shown for a group: its status, its name if it has one, and its run mode.
pub open spec fn group_label(group: TaskGroup, reports: StrMap<SimpleReport>) -> Seq<char> {
    match group.name {
        Some(n) => status_text(reports, group.id@) + " "@ + name_text(n@) + " "@ + run_mode_text(group.run_mode),
        None => status_text(reports, group.id@) + " "@ + run_mode_text(group.run_mode),
    }
}

/// The status mark of a task with id `id`, as the reports tell it: a red cross for a
/// failure, a green check mark for a success, a yellow dash when it has not reported.
pub open spec fn mark_for(reports: StrMap<SimpleReport>, id: Seq<char>) -> Seq<char> {
    match reports.lookup(id) {
        Some(SimpleReport::Failure { .. }) => painted(Paint::Red, "x"@),
        Some(SimpleReport::Success { .. }) => painted(Paint::Green, "\u{2713}"@),
        None => painted(Paint::Yellow, "-"@),
    }
}

/// What a task is shown with starts with the status mark the reports give for that
/// task's own id, then a space: a failure report gives the red cross, a success the
/// green check mark, no report the yellow dash. For a task with a command, the mark is
/// followed by its name (if any) and its command, and that is the whole text shown;
/// for a group, by its name (if any) and its run mode, which is the top line of its tree.
pub proof fn law_status_mark_follows_reports(t: Task, reports: StrMap<SimpleReport>)
    ensures
        t matches Task::Item(i) ==> tree_text(t, reports) == mark_for(reports, i.id@) + " "@ + match i.name {
            Some(n) => name_text(n@) + ":\n"@ + i.cmd@,
            None => i.cmd@,
        },
        t matches Task::Group(g) ==> tree_view(t, reports).label == mark_for(reports, g.id@) + " "@ + match g.name {
            Some(n) => name_text(n@) + " "@ + run_mode_text(g.run_mode),
            None => run_mode_text(g.run_mode),
        },
        t matches Task::Group(g) ==> tree_text(t, reports) == archy_text(tree_view(t, reports), seq![], true),
{
}

/// The tree shown for a task.
pub open spec fn tree_view(t: Task, reports: StrMap<SimpleReport>) -> NodeView
    decreases t,
{
    match t {
        Task::Item(i) => NodeView { label: item_label(i, reports), nodes: seq![] },
        Task::Group(g) => NodeView { label: group_label(g, reports), nodes: tree_views(g.items@, reports) },
    }
}

/// The trees shown for a list of tasks.
pub open spec fn tree_views(ts: Seq<Task>, reports: StrMap<SimpleReport>) -> Seq<NodeView>
    decreases ts,
{
    if ts.len() == 0 {
        seq![]
    } else {
        tree_views(ts.subrange(0, ts.len() - 1), reports).push(tree_view(ts[ts.len() - 1], reports))
    }
}

proof fn lemma_tree_views(ts: Seq<Task>, reports: StrMap<SimpleReport>)
    ensures
        tree_views(ts, reports).len() == ts.len(),
        forall|i: int| 0 <= i < ts.len() ==> #[trigger] tree_views(ts, reports)[i] == tree_view(ts[i], reports),
    decreases ts.len(),
{
    if ts.len() > 0 {
        lemma_tree_views(ts.subrange(0, ts.len() - 1), reports);
    }
}

fn status_chars(id: &String, reports: &StrMap<SimpleReport>) -> (v: Vec<char>)
    ensures
        v@ == status_text(*reports, id@),
{
    let s = match reports.get(id.as_str()) {
        None => paint(Paint::Yellow, "-"),
        Some(SimpleReport::Success { .. }) => paint(Paint::Green, "\u{2713}"),
        Some(SimpleReport::Failure { .. }) => paint(Paint::Red, "x"),
    };
    chars_of(s.as_str())
}

/// The line shown for a task with a command.
pub fn item_display(item: &TaskItem, reports: &StrMap<SimpleReport>) -> (s: String)
    ensures
        s@ == item_label(*item, *reports),
{
    let mut v = status_chars(&item.id, reports);
    append_str(&mut v, " ");
    match &item.name {
        Some(name) => {
            let n = name.to_display_string();
            append_str(&mut v, n.as_str());
            append_str(&mut v, ":\n");
        },
        None => {},
    }
    append_str(&mut v, item.cmd.as_str());
    string_of(&v)
}

/// The line shown for a group.
pub fn group_name(group: &TaskGroup, reports: &StrMap<SimpleReport>) -> (s: String)
    ensures
        s@ == group_label(*group, *reports),
{
    let mut v = status_chars(&group.id, reports);
    append_str(&mut v, " ");
    match &group.name {
        Some(name) => {
            let n = name.to_display_string();
            append_str(&mut v, n.as_str());
            append_str(&mut v, " ");
        },
        None => {},
    }
    let m = group.run_mode.to_display_string();
    append_str(&mut v, m.as_str());
    string_of(&v)
}

/// The tree nodes shown for a list of tasks, in order: a task with a command is a leaf
/// labelled with its line, a group is labelled with its line and has the nodes of its
/// own tasks as children.
pub fn to_archy_nodes(group: &Vec<Task>, reports: &StrMap<SimpleReport>) -> (v: Vec<Node>)
    ensures
        node_views(v@) == tree_views(group@, *reports),
    decreases group,
{
    proof {
        lemma_tree_views(group@, *reports);
    }
    let mut v: Vec<Node> = Vec::new();
    for i in 0..group.len()
        invariant
            tree_views(group@, *reports).len() == group@.len(),
            forall|j: int| 0 <= j < group@.len() ==> #[trigger] tree_views(group@, *reports)[j] == tree_view(group@[j], *reports),
            v@.len() == i,
            forall|j: int| 0 <= j < i ==> (#[trigger] v@[j])@ == tree_view(group@[j], *reports),
    {
        let node = match &group[i] {
            Task::Item(item) => {
                let label = item_display(item, reports);
                let n = Node::new(label.as_str(), Vec::new());
                proof {
                    lemma_node_views(n.nodes@);
                }
                n
            },
            Task::Group(g) => {
                let label = group_name(g, reports);
                let children = to_archy_nodes(&g.items, reports);
                Node::new(label.as_str(), children)
            },
        };
        v.push(node);
    }
    proof {
        lemma_node_views(v@);
        assert(node_views(v@) == tree_views(group@, *reports));
    }
    v
}

/// The text shown for a task: for a task with a command, its line; for a group, the
/// tree of its lines, drawn with box-drawing characters.
pub open spec fn tree_text(t: Task, reports: StrMap<SimpleReport>) -> Seq<char> {
    match t {
        Task::Item(i) => item_label(i, reports),
        Task::Group(_) => archy_text(tree_view(t, reports), seq![], true),
    }
}

/// The names joined by commas.
pub open spec fn names_text(names: Seq<&str>) -> Seq<char> {
    join(names.map_values(|n: &str| n@), ", "@)
}

/// The tasks named by `names`, in order.
pub open spec fn named_tasks(input: Input, names: Seq<&str>) -> Seq<TaskShape> {
    Seq::new(names.len(), |i: int| named_task(input, names[i]@))
}

fn named_items(input: &Input, names: &Vec<&str>) -> (v: Vec<Task>)
    requires
        forall|i: int| 0 <= i < names@.len() ==> named_builds(*input, #[trigger] names@[i]@),
    ensures
        shapes(v@) == named_tasks(*input, names@),
        all_ids_ok(v@),
{
    let mut v: Vec<Task> = Vec::new();
    for i in 0..names.len()
        invariant
            forall|i: int| 0 <= i < names@.len() ==> named_builds(*input, #[trigger] names@[i]@),
            v@.len() == i,
            forall|j: int| 0 <= j < i ==> shape(#[trigger] v@[j]) == named_task(*input, names@[j]@),
            forall|j: int| 0 <= j < i ==> ids_ok(#[trigger] v@[j]),
    {
        v.push(Task::get_task_item(input, names[i]));
    }
    proof {
        lemma_shapes(v@);
        assert(shapes(v@) == named_tasks(*input, names@));
    }
    v
}

fn names_chars(names: &Vec<&str>) -> (v: Vec<char>)
    ensures
        v@ == names_text(names@),
{
    let mut parts: Vec<Vec<char>> = Vec::new();
    for i in 0..names.len()
        invariant
            parts@.len() == i,
            forall|j: int| 0 <= j < i ==> (#[trigger] parts@[j])@ == names@[j]@,
    {
        parts.push(chars_of(names[i]));
    }
    let sep = chars_of(", ");
    let mut v: Vec<char> = Vec::new();
    append_joined(&mut v, &parts, &sep);
    assert(parts@.map_values(|l: Vec<char>| l@) == names@.map_values(|n: &str| n@));
    v
}

impl Task {
    /// The text of a task tree, each id shown with the status held for it in `reports`.
    pub fn get_tree(&self, reports: &StrMap<SimpleReport>) -> (s: String)
        ensures
            s@ == tree_text(*self, *reports),
    {
        match self {
            Task::Item(item) => item_display(item, reports),
            Task::Group(group) => {
                let label = group_name(group, reports);
                let children = to_archy_nodes(&group.items, reports);
                let root = Node::new(label.as_str(), children);
                proof {
                    assert(root@ == tree_view(*self, *reports));
                    reveal_strlit("");
                    assert(""@ == Seq::<char>::empty());
                }
                archy(&root, "", &ArchyOpts::new())
            },
        }
    }

    /// The group running the tasks named by `names` one after the other; it fails
    /// when one of them fails, and its name lists the names, in yellow.
    pub fn generate_series(input: &Input, _names: &Vec<&str>) -> (t: Task)
        requires
            forall|i: int| 0 <= i < _names@.len() ==> named_builds(*input, #[trigger] _names@[i]@),
        ensures
            shape(t) == (TaskShape::Group {
                items: named_tasks(*input, _names@),
                run_mode: RunMode::Series,
                fail: true,
                name: Some(NameView::Text("Input: "@ + painted(Paint::Yellow, names_text(_names@)) + " "@)),
            }),
            ids_ok(t),
    {
        let parsed = named_items(input, _names);
        let joined = names_chars(_names);
        let joined_text = string_of(&joined);
        let yellow = paint(Paint::Yellow, joined_text.as_str());
        let mut msg: Vec<char> = Vec::new();
        append_str(&mut msg, "Input: ");
        append_str(&mut msg, yellow.as_str());
        append_str(&mut msg, " ");
        let top_level_msg = string_of(&msg);
        Task::Group(TaskGroup {
            id: uuid(),
            items: parsed,
            run_mode: RunMode::Series,
            fail: true,
            name: Some(Name::String(top_level_msg)),
        })
    }

    /// The group running the tasks named by `names` all at once; it does not fail
    /// as a whole, and its name lists the names.
    pub fn generate_par(input: &Input, _names: &Vec<&str>) -> (t: Task)
        requires
            forall|i: int| 0 <= i < _names@.len() ==> named_builds(*input, #[trigger] _names@[i]@),
        ensures
            shape(t) == (TaskShape::Group {
                items: named_tasks(*input, _names@),
                run_mode: RunMode::Parallel,
                fail: false,
                name: Some(NameView::Text("Input: "@ + names_text(_names@) + " "@)),
            }),
            ids_ok(t),
    {
        let parsed = named_items(input, _names);
        let joined = names_chars(_names);
        let mut msg: Vec<char> = Vec::new();
        append_str(&mut msg, "Input: ");
        append_chars(&mut msg, &joined);
        append_str(&mut msg, " ");
        let top_level_msg = string_of(&msg);
        Task::Group(TaskGroup {
            id: uuid(),
            items: parsed,
            run_mode: RunMode::Parallel,
            fail: false,
            name: Some(Name::String(top_level_msg)),
        })
    }

    /// The task for a command string: a task running it, under `alias` if given, or,
    /// when it starts with `@`, the task named by the rest of it.
    pub fn from_string(string: &str, alias: Option<Name>, input: &Input) -> (t: Task)
        requires
            string_builds(*input, string@, name_opt(alias)),
        ensures
            shape(t) == string_task(*input, string@, name_opt(alias)),
            ids_ok(t),
    {
        let ghost fuel = choose|fuel: nat| #[trigger] build_string(*input, string@, name_opt(alias), fuel) is Some;
        string_fuel(string, alias, input, None, Ghost(fuel)).unwrap()
    }

    /// `from_string`, allowing at most `depth` nested steps: `None` exactly where
    /// building does not end within them.
    pub fn from_string_within(string: &str, alias: Option<Name>, input: &Input, depth: usize) -> (r: Option<Task>)
        ensures
            shape_opt(r) == build_string(*input, string@, name_opt(alias), depth as nat),
            r matches Some(t) ==> string_builds(*input, string@, name_opt(alias))
                && shape(t) == string_task(*input, string@, name_opt(alias)) && ids_ok(t),
    {
        let ghost a = name_opt(alias);
        let r = string_fuel(string, alias, input, Some(depth), Ghost(depth as nat));
        proof {
            if r is Some {
                lemma_string_task(*input, string@, a, depth as nat);
            }
        }
        r
    }

    /// The group for a sequence of definitions, running in `run_mode`.
    pub fn from_seq(seq: Vec<TaskDef>, alias: Option<Name>, run_mode: RunMode, input: &Input) -> (t: Task)
        requires
            seq_builds(*input, seq@, name_opt(alias), run_mode),
        ensures
            shape(t) == seq_task(*input, seq@, name_opt(alias), run_mode),
            ids_ok(t),
    {
        let ghost fuel = choose|fuel: nat| #[trigger] build_seq(*input, seq@, name_opt(alias), run_mode, fuel) is Some;
        seq_fuel(&seq, alias, run_mode, input, None, Ghost(fuel)).unwrap()
    }

    /// `from_seq`, allowing at most `depth` nested steps: `None` exactly where
    /// building does not end within them.
    pub fn from_seq_within(seq: Vec<TaskDef>, alias: Option<Name>, run_mode: RunMode, input: &Input, depth: usize) -> (r: Option<Task>)
        ensures
            shape_opt(r) == build_seq(*input, seq@, name_opt(alias), run_mode, depth as nat),
            r matches Some(t) ==> seq_builds(*input, seq@, name_opt(alias), run_mode)
                && shape(t) == seq_task(*input, seq@, name_opt(alias), run_mode) && ids_ok(t),
    {
        let ghost a = name_opt(alias);
        let r = seq_fuel(&seq, alias, run_mode, input, Some(depth), Ghost(depth as nat));
        proof {
            if r is Some {
                lemma_seq_task(*input, seq@, a, run_mode, depth as nat);
            }
        }
        r
    }

    /// The task defined under `name`, with `name` as its alias.
    pub fn get_task_item(input: &Input, name: &str) -> (t: Task)
        requires
            named_builds(*input, name@),
        ensures
            shape(t) == named_task(*input, name@),
            ids_ok(t),
    {
        let ghost fuel = choose|fuel: nat| #[trigger] build_named(*input, name@, fuel) is Some;
        named_fuel(input, name, None, Ghost(fuel)).unwrap()
    }

    /// `get_task_item`, allowing at most `depth` nested steps: `None` exactly where
    /// there is no task `name` or building it does not end within them.
    pub fn get_task_item_within(input: &Input, name: &str, depth: usize) -> (r: Option<Task>)
        ensures
            shape_opt(r) == build_named(*input, name@, depth as nat),
            r matches Some(t) ==> named_builds(*input, name@) && shape(t) == named_task(*input, name@) && ids_ok(t),
    {
        let r = named_fuel(input, name, Some(depth), Ghost(depth as nat));
        proof {
            if r is Some {
                lemma_named_task(*input, name@, depth as nat);
            }
        }
        r
    }
}

} // verus!
