//! Checking that the tasks a user names, and every task they refer to, exist.
use vstd::prelude::*;

use crate::input::{Input, TaskDef};
use crate::text::{chars_of, string_of};

verus! {

/// The error type of the YAML reader, carried as it is.
#[verifier::external_type_specification]
#[verifier::external_body]
pub struct ExYamlError(serde_yaml::Error);

/// Why a selection of tasks could not be used.
#[derive(Debug)]
pub enum TaskError {
    Invalid(Vec<TaskLookup>),
    Serde(serde_yaml::Error),
}

/// The outcome of resolving one task name: the name asked for and the path
/// followed, up to the first reference that could not be found.
#[derive(Debug)]
pub enum TaskLookup {
    Found { target: String, path: Vec<PathItem> },
    NotFound { target: String, path: Vec<PathItem> },
}

/// One step of a resolution path: a task name, or a position in a sequence.
#[derive(Debug)]
pub enum PathItem {
    String(String),
    Index(usize),
}

/// The value of a `PathItem`.
pub enum PathStep {
    Name(Seq<char>),
    Index(usize),
}

impl View for PathItem {
    type V = PathStep;

    open spec fn view(&self) -> PathStep {
        match self {
            PathItem::String(s) => PathStep::Name(s@),
            PathItem::Index(i) => PathStep::Index(*i),
        }
    }
}

/// The value of a path.
pub open spec fn path_view(p: Seq<PathItem>) -> Seq<PathStep> {
    p.map_values(|i: PathItem| i@)
}

/// The value of a `TaskLookup`.
pub struct LookupView {
    pub found: bool,
    pub target: Seq<char>,
    pub path: Seq<PathStep>,
}

impl View for TaskLookup {
    type V = LookupView;

    open spec fn view(&self) -> LookupView {
        match self {
            TaskLookup::Found { target, path } => LookupView {
                found: true,
                target: target@,
                path: path_view(path@),
            },
            TaskLookup::NotFound { target, path } => LookupView {
                found: false,
                target: target@,
                path: path_view(path@),
            },
        }
    }
}

/// The values of a list of lookups.
pub open spec fn lookups_view(v: Seq<TaskLookup>) -> Seq<LookupView> {
    v.map_values(|l: TaskLookup| l@)
}

/// A successful lookup.
pub open spec fn found(target: Seq<char>, path: Seq<PathStep>) -> LookupView {
    LookupView { found: true, target, path }
}

/// Whether slicing off the first byte of a string with this first character is
/// allowed: only a one-byte character ends on a character boundary there.
pub open spec fn one_byte(c: char) -> bool {
    (c as int) < 0x80
}

/// Resolving the task `name`, reached along `path`, within `fuel` nested steps.
/// `None` means that the steps ran out, or that resolution stops on a command string
/// whose first byte cannot be sliced off (an empty string, or one whose first
/// character takes more than one byte).
pub open spec fn resolve(
    input: Input,
    target: Seq<char>,
    name: Seq<char>,
    path: Seq<PathStep>,
    fuel: nat,
) -> Option<LookupView>
    decreases fuel, 0nat,
{
    if fuel == 0 {
        None
    } else {
        let p = path.push(PathStep::Name(name));
        match input.def_of(name) {
            None => Some(LookupView { found: false, target, path: p }),
            Some(def) => match def {
                TaskDef::CmdString(s) => resolve_string(input, target, s@, p, (fuel - 1) as nat),
                TaskDef::TaskObj { .. } => Some(found(target, p)),
                TaskDef::TaskSeq(v) => resolve_seq(input, target, v@, p, (fuel - 1) as nat),
            },
        }
    }
}

/// Resolving a command string: one that starts with `@` refers to the task named by
/// the rest of it; any other is found.
pub open spec fn resolve_string(
    input: Input,
    target: Seq<char>,
    s: Seq<char>,
    path: Seq<PathStep>,
    fuel: nat,
) -> Option<LookupView>
    decreases fuel, 0nat,
{
    if fuel == 0 || s.len() == 0 || !one_byte(s[0]) {
        None
    } else if s[0] == '@' {
        resolve(input, target, s.skip(1), path, (fuel - 1) as nat)
    } else {
        Some(found(target, path))
    }
}

/// Resolving a sequence of definitions: the first item that is not found, else the
/// sequence itself is found.
pub open spec fn resolve_seq(
    input: Input,
    target: Seq<char>,
    items: Seq<TaskDef>,
    path: Seq<PathStep>,
    fuel: nat,
) -> Option<LookupView>
    decreases fuel, 0nat,
{
    if fuel == 0 {
        None
    } else {
        resolve_items(input, target, items, path, 0, (fuel - 1) as nat)
    }
}

/// Resolving the items of a sequence from position `j` on. Every item is resolved;
/// the outcome is that of the first one not found, else `found` with `path`.
pub open spec fn resolve_items(
    input: Input,
    target: Seq<char>,
    items: Seq<TaskDef>,
    path: Seq<PathStep>,
    j: nat,
    fuel: nat,
) -> Option<LookupView>
    decreases fuel, items.len() - j,
{
    if j >= items.len() {
        Some(found(target, path))
    } else {
        let here = resolve_item(input, target, items[j as int], path.push(PathStep::Index(j as usize)), fuel);
        let rest = resolve_items(input, target, items, path, j + 1, fuel);
        match (here, rest) {
            (Some(a), Some(b)) => Some(if !a.found { a } else { b }),
            _ => None,
        }
    }
}

/// Resolving one item of a sequence, reached along `path`.
pub open spec fn resolve_item(
    input: Input,
    target: Seq<char>,
    item: TaskDef,
    path: Seq<PathStep>,
    fuel: nat,
) -> Option<LookupView>
    decreases fuel, 0nat,
{
    if fuel == 0 {
        None
    } else {
        match item {
            TaskDef::CmdString(s) => resolve_string(input, target, s@, path, (fuel - 1) as nat),
            TaskDef::TaskSeq(v) => resolve_seq(input, target, v@, path, (fuel - 1) as nat),
            TaskDef::TaskObj { .. } => Some(found(target, path)),
        }
    }
}

/// Whether resolving `name` comes to an end: every reference chain it follows is
/// finite and no command string on the way stops it.
pub open spec fn resolves(input: Input, target: Seq<char>, name: Seq<char>, path: Seq<PathStep>) -> bool {
    exists|fuel: nat| #[trigger] resolve(input, target, name, path, fuel) is Some
}

/// The outcome of resolving `name`, where `resolves` holds.
pub open spec fn resolution(input: Input, target: Seq<char>, name: Seq<char>, path: Seq<PathStep>) -> LookupView {
    resolve(input, target, name, path, choose|fuel: nat| #[trigger] resolve(input, target, name, path, fuel) is Some).unwrap()
}

proof fn lemma_resolve_mono(input: Input, t: Seq<char>, name: Seq<char>, p: Seq<PathStep>, f: nat, g: nat)
    requires
        f <= g,
        resolve(input, t, name, p, f) is Some,
    ensures
        resolve(input, t, name, p, g) == resolve(input, t, name, p, f),
    decreases f, 0nat,
{
    let q = p.push(PathStep::Name(name));
    match input.def_of(name) {
        None => {},
        Some(def) => match def {
            TaskDef::CmdString(s) => lemma_string_mono(input, t, s@, q, (f - 1) as nat, (g - 1) as nat),
            TaskDef::TaskObj { .. } => {},
            TaskDef::TaskSeq(v) => lemma_seq_mono(input, t, v@, q, (f - 1) as nat, (g - 1) as nat),
        },
    }
}

proof fn lemma_string_mono(input: Input, t: Seq<char>, s: Seq<char>, p: Seq<PathStep>, f: nat, g: nat)
    requires
        f <= g,
        resolve_string(input, t, s, p, f) is Some,
    ensures
        resolve_string(input, t, s, p, g) == resolve_string(input, t, s, p, f),
    decreases f, 0nat,
{
    if s[0] == '@' {
        lemma_resolve_mono(input, t, s.skip(1), p, (f - 1) as nat, (g - 1) as nat);
    }
}

proof fn lemma_seq_mono(input: Input, t: Seq<char>, items: Seq<TaskDef>, p: Seq<PathStep>, f: nat, g: nat)
    requires
        f <= g,
        resolve_seq(input, t, items, p, f) is Some,
    ensures
        resolve_seq(input, t, items, p, g) == resolve_seq(input, t, items, p, f),
    decreases f, 0nat,
{
    lemma_items_mono(input, t, items, p, 0, (f - 1) as nat, (g - 1) as nat);
}

proof fn lemma_items_mono(input: Input, t: Seq<char>, items: Seq<TaskDef>, p: Seq<PathStep>, j: nat, f: nat, g: nat)
    requires
        f <= g,
        resolve_items(input, t, items, p, j, f) is Some,
    ensures
        resolve_items(input, t, items, p, j, g) == resolve_items(input, t, items, p, j, f),
    decreases f, items.len() - j,
{
    if j < items.len() {
        lemma_item_mono(input, t, items[j as int], p.push(PathStep::Index(j as usize)), f, g);
        lemma_items_mono(input, t, items, p, j + 1, f, g);
    }
}

proof fn lemma_item_mono(input: Input, t: Seq<char>, item: TaskDef, p: Seq<PathStep>, f: nat, g: nat)
    requires
        f <= g,
        resolve_item(input, t, item, p, f) is Some,
    ensures
        resolve_item(input, t, item, p, g) == resolve_item(input, t, item, p, f),
    decreases f, 0nat,
{
    match item {
        TaskDef::CmdString(s) => lemma_string_mono(input, t, s@, p, (f - 1) as nat, (g - 1) as nat),
        TaskDef::TaskSeq(v) => lemma_seq_mono(input, t, v@, p, (f - 1) as nat, (g - 1) as nat),
        TaskDef::TaskObj { .. } => {},
    }
}

/// Whether `l` is on behalf of `target`, its path extends `p`, and, when it was not
/// found, its last step names a task that has no definition.
pub open spec fn lookup_fits(input: Input, target: Seq<char>, p: Seq<PathStep>, l: LookupView) -> bool {
    &&& l.target == target
    &&& p.len() <= l.path.len()
    &&& l.path.subrange(0, p.len() as int) == p
    &&& !l.found ==> l.path.len() > 0 && (l.path.last() matches PathStep::Name(n) && input.def_of(n) is None)
}

proof fn lemma_prefix_trans(p: Seq<PathStep>, q: Seq<PathStep>, r: Seq<PathStep>)
    requires
        p.len() <= q.len() <= r.len(),
        q.subrange(0, p.len() as int) == p,
        r.subrange(0, q.len() as int) == q,
    ensures
        r.subrange(0, p.len() as int) == p,
{
    assert(r.subrange(0, p.len() as int) == r.subrange(0, q.len() as int).subrange(0, p.len() as int));
}

proof fn lemma_resolve_fits(input: Input, t: Seq<char>, name: Seq<char>, p: Seq<PathStep>, f: nat)
    requires
        resolve(input, t, name, p, f) is Some,
    ensures
        lookup_fits(input, t, p.push(PathStep::Name(name)), resolve(input, t, name, p, f).unwrap()),
    decreases f, 0nat,
{
    let q = p.push(PathStep::Name(name));
    assert(q.subrange(0, q.len() as int) == q);
    match input.def_of(name) {
        None => {},
        Some(def) => match def {
            TaskDef::CmdString(s) => lemma_string_fits(input, t, s@, q, (f - 1) as nat),
            TaskDef::TaskObj { .. } => {},
            TaskDef::TaskSeq(v) => lemma_seq_fits(input, t, v@, q, (f - 1) as nat),
        },
    }
}

proof fn lemma_string_fits(input: Input, t: Seq<char>, s: Seq<char>, p: Seq<PathStep>, f: nat)
    requires
        resolve_string(input, t, s, p, f) is Some,
    ensures
        lookup_fits(input, t, p, resolve_string(input, t, s, p, f).unwrap()),
    decreases f, 0nat,
{
    assert(p.subrange(0, p.len() as int) == p);
    if s[0] == '@' {
        let q = p.push(PathStep::Name(s.skip(1)));
        lemma_resolve_fits(input, t, s.skip(1), p, (f - 1) as nat);
        let l = resolve(input, t, s.skip(1), p, (f - 1) as nat).unwrap();
        assert(q.subrange(0, p.len() as int) == p);
        lemma_prefix_trans(p, q, l.path);
    }
}

proof fn lemma_seq_fits(input: Input, t: Seq<char>, items: Seq<TaskDef>, p: Seq<PathStep>, f: nat)
    requires
        resolve_seq(input, t, items, p, f) is Some,
    ensures
        lookup_fits(input, t, p, resolve_seq(input, t, items, p, f).unwrap()),
    decreases f, 0nat,
{
    lemma_items_fits(input, t, items, p, 0, (f - 1) as nat);
}

proof fn lemma_items_fits(input: Input, t: Seq<char>, items: Seq<TaskDef>, p: Seq<PathStep>, j: nat, f: nat)
    requires
        resolve_items(input, t, items, p, j, f) is Some,
    ensures
        lookup_fits(input, t, p, resolve_items(input, t, items, p, j, f).unwrap()),
    decreases f, items.len() - j,
{
    assert(p.subrange(0, p.len() as int) == p);
    if j < items.len() {
        let q = p.push(PathStep::Index(j as usize));
        lemma_item_fits(input, t, items[j as int], q, f);
        lemma_items_fits(input, t, items, p, j + 1, f);
        let a = resolve_item(input, t, items[j as int], q, f).unwrap();
        assert(q.subrange(0, p.len() as int) == p);
        lemma_prefix_trans(p, q, a.path);
    }
}

proof fn lemma_item_fits(input: Input, t: Seq<char>, item: TaskDef, p: Seq<PathStep>, f: nat)
    requires
        resolve_item(input, t, item, p, f) is Some,
    ensures
        lookup_fits(input, t, p, resolve_item(input, t, item, p, f).unwrap()),
    decreases f, 0nat,
{
    assert(p.subrange(0, p.len() as int) == p);
    match item {
        TaskDef::CmdString(s) => lemma_string_fits(input, t, s@, p, (f - 1) as nat),
        TaskDef::TaskSeq(v) => lemma_seq_fits(input, t, v@, p, (f - 1) as nat),
        TaskDef::TaskObj { .. } => {},
    }
}

/// The outcome of a resolution does not depend on how many nested steps it was
/// allowed, once they are enough for it to end.
pub proof fn law_resolution_independent_of_depth(
    input: Input,
    target: Seq<char>,
    name: Seq<char>,
    path: Seq<PathStep>,
    fuel: nat,
    more: nat,
)
    requires
        fuel <= more,
        resolve(input, target, name, path, fuel) is Some,
    ensures
        resolve(input, target, name, path, more) == resolve(input, target, name, path, fuel),
        resolves(input, target, name, path),
        resolution(input, target, name, path) == resolve(input, target, name, path, fuel).unwrap(),
{
    lemma_resolve_mono(input, target, name, path, fuel, more);
    let c = choose|f: nat| #[trigger] resolve(input, target, name, path, f) is Some;
    assert(resolve(input, target, name, path, fuel) is Some);
    if c <= fuel {
        lemma_resolve_mono(input, target, name, path, c, fuel);
    } else {
        lemma_resolve_mono(input, target, name, path, fuel, c);
    }
}

/// Whether the definition `def` reaches, within `depth` steps of sequence nesting and
/// references, an `@` reference to a task that has no definition.
pub open spec fn reaches_missing(input: Input, def: TaskDef, depth: nat) -> bool
    decreases depth, 0nat,
{
    if depth == 0 {
        false
    } else {
        match def {
            TaskDef::CmdString(s) => s@.len() > 0 && s@[0] == '@' && match input.def_of(s@.skip(1)) {
                None => true,
                Some(d) => reaches_missing(input, d, (depth - 1) as nat),
            },
            TaskDef::TaskObj { .. } => false,
            TaskDef::TaskSeq(v) => some_reaches_missing(input, v@, v@.len(), (depth - 1) as nat),
        }
    }
}

/// Whether one of the first `k` items reaches, within `depth` steps, a reference to a
/// task that has no definition.
pub open spec fn some_reaches_missing(input: Input, items: Seq<TaskDef>, k: nat, depth: nat) -> bool
    decreases depth, k,
{
    if k == 0 || k > items.len() {
        false
    } else {
        some_reaches_missing(input, items, (k - 1) as nat, depth) || reaches_missing(input, items[k - 1], depth)
    }
}

proof fn lemma_some_reaches_missing(input: Input, items: Seq<TaskDef>, k: nat, depth: nat) -> (i: int)
    requires
        some_reaches_missing(input, items, k, depth),
    ensures
        0 <= i < k <= items.len(),
        reaches_missing(input, items[i], depth),
    decreases k,
{
    if some_reaches_missing(input, items, (k - 1) as nat, depth) {
        lemma_some_reaches_missing(input, items, (k - 1) as nat, depth)
    } else {
        k - 1
    }
}

proof fn lemma_resolve_is_item(input: Input, t: Seq<char>, name: Seq<char>, p: Seq<PathStep>, f: nat)
    requires
        f > 0,
        input.def_of(name) is Some,
    ensures
        resolve(input, t, name, p, f) == resolve_item(input, t, input.def_of(name).unwrap(), p.push(PathStep::Name(name)), f),
{
}

proof fn lemma_items_first_missing(
    input: Input,
    t: Seq<char>,
    items: Seq<TaskDef>,
    p: Seq<PathStep>,
    j: nat,
    k: nat,
    f: nat,
)
    requires
        j <= k < items.len(),
        resolve_items(input, t, items, p, j, f) is Some,
        resolve_item(input, t, items[k as int], p.push(PathStep::Index(k as usize)), f) is Some,
        !resolve_item(input, t, items[k as int], p.push(PathStep::Index(k as usize)), f).unwrap().found,
    ensures
        !resolve_items(input, t, items, p, j, f).unwrap().found,
    decreases k - j,
{
    if j < k {
        let here = resolve_item(input, t, items[j as int], p.push(PathStep::Index(j as usize)), f);
        if here.unwrap().found {
            lemma_items_first_missing(input, t, items, p, j + 1, k, f);
        }
    }
}

proof fn lemma_item_missing(input: Input, t: Seq<char>, def: TaskDef, p: Seq<PathStep>, f: nat, d: nat)
    requires
        resolve_item(input, t, def, p, f) is Some,
        reaches_missing(input, def, d),
    ensures
        !resolve_item(input, t, def, p, f).unwrap().found,
    decreases d,
{
    match def {
        TaskDef::CmdString(s) => {
            let nm = s@.skip(1);
            let g = (f - 2) as nat;
            assert(resolve_item(input, t, def, p, f) == resolve(input, t, nm, p, g));
            if input.def_of(nm) is Some {
                lemma_resolve_is_item(input, t, nm, p, g);
                lemma_item_missing(input, t, input.def_of(nm).unwrap(), p.push(PathStep::Name(nm)), g, (d - 1) as nat);
            }
        },
        TaskDef::TaskObj { .. } => {},
        TaskDef::TaskSeq(v) => {
            let i = lemma_some_reaches_missing(input, v@, v@.len(), (d - 1) as nat);
            let g = (f - 2) as nat;
            assert(resolve_item(input, t, def, p, f) == resolve_items(input, t, v@, p, 0, g));
            lemma_items_some(input, t, v@, p, 0, i as nat, g);
            lemma_item_missing(input, t, v@[i], p.push(PathStep::Index(i as usize)), g, (d - 1) as nat);
            lemma_items_first_missing(input, t, v@, p, 0, i as nat, g);
        },
    }
}

/// A task is found only if every `@` reference it reaches names a defined task: when
/// the name has no definition, or its definition reaches (through nested sequences, at
/// any depth, and through references) a reference to a task with no definition, the
/// resolution is not found.
pub proof fn law_missing_reference_is_not_found(input: Input, target: Seq<char>, name: Seq<char>, path: Seq<PathStep>, depth: nat)
    requires
        resolves(input, target, name, path),
        input.def_of(name) is None || reaches_missing(input, input.def_of(name).unwrap(), depth),
    ensures
        !resolution(input, target, name, path).found,
{
    let f = choose|f: nat| #[trigger] resolve(input, target, name, path, f) is Some;
    if input.def_of(name) is Some {
        lemma_resolve_is_item(input, target, name, path, f);
        lemma_item_missing(input, target, input.def_of(name).unwrap(), path.push(PathStep::Name(name)), f, depth);
    }
}

/// A sequence is found only if none of its items, at any depth of nesting and through
/// references, reaches a reference to a task with no definition.
pub proof fn law_missing_reference_in_sequence_is_not_found(
    input: Input,
    target: Seq<char>,
    items: Seq<TaskDef>,
    path: Seq<PathStep>,
    i: int,
    depth: nat,
)
    requires
        seq_resolves(input, target, items, path),
        0 <= i < items.len(),
        reaches_missing(input, items[i], depth),
    ensures
        !seq_resolution(input, target, items, path).found,
{
    let f = choose|f: nat| #[trigger] resolve_seq(input, target, items, path, f) is Some;
    let g = (f - 1) as nat;
    lemma_items_some(input, target, items, path, 0, i as nat, g);
    lemma_item_missing(input, target, items[i], path.push(PathStep::Index(i as usize)), g, depth);
    lemma_items_first_missing(input, target, items, path, 0, i as nat, g);
}

/// A resolution is on behalf of its target, its path starts with the path it was
/// reached along and then the name resolved, and when it fails, the last step of its
/// path names a task that has no definition: the task the failure message reports.
pub proof fn law_resolution_path(input: Input, target: Seq<char>, name: Seq<char>, path: Seq<PathStep>)
    requires
        resolves(input, target, name, path),
    ensures
        lookup_fits(input, target, path.push(PathStep::Name(name)), resolution(input, target, name, path)),
{
    let c = choose|f: nat| #[trigger] resolve(input, target, name, path, f) is Some;
    lemma_resolve_fits(input, target, name, path, c);
}

impl PathItem {
    /// A copy of this step.
    pub fn duplicate(&self) -> (r: PathItem)
        ensures
            r@ == self@,
    {
        match self {
            PathItem::String(s) => PathItem::String(s.clone()),
            PathItem::Index(i) => PathItem::Index(*i),
        }
    }
}

/// A copy of a path.
pub fn copy_path(path: &Vec<PathItem>) -> (r: Vec<PathItem>)
    ensures
        path_view(r@) == path_view(path@),
{
    let mut r: Vec<PathItem> = Vec::new();
    for i in 0..path.len()
        invariant
            r@.len() == i,
            forall|j: int| 0 <= j < i ==> #[trigger] r@[j]@ == path@[j]@,
    {
        r.push(path[i].duplicate());
    }
    assert(path_view(r@) == path_view(path@));
    r
}

fn lookup_found(target: &str, path: Vec<PathItem>) -> (r: TaskLookup)
    ensures
        r@ == found(target@, path_view(path@)),
{
    TaskLookup::Found { target: target.to_owned(), path }
}

/// The value of an optional lookup.
pub open spec fn lookup_opt(r: Option<TaskLookup>) -> Option<LookupView> {
    match r {
        Some(l) => Some(l@),
        None => None,
    }
}

/// Whether a step limit fits the nested steps `fuel`: a limit counts them itself, no
/// limit holds only where the steps are known to suffice (`enough`).
pub open spec fn limit_fits(limit: Option<usize>, fuel: nat, enough: bool) -> bool {
    match limit {
        Some(d) => d == fuel,
        None => enough,
    }
}

fn lookup_name(
    input: &Input,
    target: &str,
    name: &str,
    prev_path: Vec<PathItem>,
    limit: Option<usize>,
    Ghost(fuel): Ghost<nat>,
) -> (r: Option<TaskLookup>)
    requires
        limit_fits(limit, fuel, resolve(*input, target@, name@, path_view(prev_path@), fuel) is Some),
    ensures
        lookup_opt(r) == resolve(*input, target@, name@, path_view(prev_path@), fuel),
    decreases fuel, 0nat,
{
    let next: Option<usize> = match limit {
        Some(d) => {
            if d == 0 {
                return None;
            }
            Some(d - 1)
        },
        None => None,
    };
    let mut next_path = prev_path;
    next_path.push(PathItem::String(name.to_owned()));
    assert(path_view(next_path@) == path_view(prev_path@).push(PathStep::Name(name@)));
    match input.tasks.get(name) {
        None => Some(TaskLookup::NotFound { target: target.to_owned(), path: next_path }),
        Some(item) => match item {
            TaskDef::CmdString(s) => lookup_string(input, target, s, next_path, next, Ghost((fuel - 1) as nat)),
            TaskDef::TaskObj { .. } => Some(lookup_found(target, next_path)),
            TaskDef::TaskSeq(seq) => lookup_seq(input, target, seq, next_path, next, Ghost((fuel - 1) as nat)),
        },
    }
}

fn lookup_string(
    input: &Input,
    target: &str,
    string_input: &String,
    path: Vec<PathItem>,
    limit: Option<usize>,
    Ghost(fuel): Ghost<nat>,
) -> (r: Option<TaskLookup>)
    requires
        limit_fits(limit, fuel, resolve_string(*input, target@, string_input@, path_view(path@), fuel) is Some),
    ensures
        lookup_opt(r) == resolve_string(*input, target@, string_input@, path_view(path@), fuel),
    decreases fuel, 0nat,
{
    let next: Option<usize> = match limit {
        Some(d) => {
            if d == 0 {
                return None;
            }
            Some(d - 1)
        },
        None => None,
    };
    let chars = chars_of(string_input.as_str());
    if chars.len() == 0 || chars[0] >= '\u{80}' {
        return None;
    }
    if chars[0] == '@' {
        let mut rest: Vec<char> = Vec::new();
        for i in 1..chars.len()
            invariant
                rest@ == chars@.subrange(1, i as int),
        {
            rest.push(chars[i]);
        }
        assert(rest@ == string_input@.skip(1));
        let name = string_of(&rest);
        lookup_name(input, target, name.as_str(), path, next, Ghost((fuel - 1) as nat))
    } else {
        Some(lookup_found(target, path))
    }
}

fn lookup_seq(
    input: &Input,
    target: &str,
    seq: &Vec<TaskDef>,
    path: Vec<PathItem>,
    limit: Option<usize>,
    Ghost(fuel): Ghost<nat>,
) -> (r: Option<TaskLookup>)
    requires
        limit_fits(limit, fuel, resolve_seq(*input, target@, seq@, path_view(path@), fuel) is Some),
    ensures
        lookup_opt(r) == resolve_seq(*input, target@, seq@, path_view(path@), fuel),
    decreases fuel, 0nat,
{
    let next: Option<usize> = match limit {
        Some(d) => {
            if d == 0 {
                return None;
            }
            Some(d - 1)
        },
        None => None,
    };
    let ghost f = (fuel - 1) as nat;
    let ghost pv = path_view(path@);
    let n = seq.len();
    // The outcome of every item, in order.
    let mut out: Vec<TaskLookup> = Vec::new();
    for index in 0..n
        invariant
            n == seq@.len(),
            fuel > 0,
            f == fuel - 1,
            pv == path_view(path@),
            limit_fits(next, f, resolve_items(*input, target@, seq@, pv, 0, f) is Some),
            resolve_seq(*input, target@, seq@, pv, fuel) == resolve_items(*input, target@, seq@, pv, 0, f),
            out@.len() == index,
            forall|j: int| 0 <= j < index ==> resolve_item(*input, target@, seq@[j], pv.push(PathStep::Index(j as usize)), f) == Some(#[trigger] out@[j]@),
    {
        proof {
            if resolve_items(*input, target@, seq@, pv, 0, f) is Some {
                lemma_items_some(*input, target@, seq@, pv, 0, index as nat, f);
            }
        }
        let mut next_path = copy_path(&path);
        next_path.push(PathItem::Index(index));
        assert(path_view(next_path@) == pv.push(PathStep::Index(index)));
        let r = lookup_item(input, target, &seq[index], next_path, next, Ghost(f));
        match r {
            Some(l) => out.push(l),
            None => {
                proof {
                    if resolve_items(*input, target@, seq@, pv, 0, f) is Some {
                        lemma_items_some(*input, target@, seq@, pv, 0, index as nat, f);
                    }
                }
                return None;
            },
        }
    }
    proof {
        assert forall|k: int| 0 <= k < seq@.len() implies #[trigger] resolve_item(*input, target@, seq@[k], pv.push(PathStep::Index(k as usize)), f) is Some by {
            assert(resolve_item(*input, target@, seq@[k], pv.push(PathStep::Index(k as usize)), f) == Some(out@[k]@));
        }
        lemma_items_all_some(*input, target@, seq@, pv, 0, f);
    }
    // The first item not found, if any.
    let mut k: usize = 0;
    while k < n
        invariant
            n == seq@.len(),
            fuel > 0,
            f == fuel - 1,
            pv == path_view(path@),
            out@.len() == n,
            k <= n,
            forall|j: int| 0 <= j < k ==> (#[trigger] out@[j]@).found,
            resolve_items(*input, target@, seq@, pv, 0, f) == resolve_items(*input, target@, seq@, pv, k as nat, f),
            forall|j: int| 0 <= j < n ==> resolve_item(*input, target@, seq@[j], pv.push(PathStep::Index(j as usize)), f) == Some(#[trigger] out@[j]@),
            resolve_items(*input, target@, seq@, pv, 0, f) is Some,
            resolve_seq(*input, target@, seq@, pv, fuel) == resolve_items(*input, target@, seq@, pv, 0, f),
        decreases n - k,
    {
        if !lookup_is_found(&out[k]) {
            let ghost here = out@[k as int]@;
            proof {
                assert(resolve_item(*input, target@, seq@[k as int], pv.push(PathStep::Index(k as usize)), f) == Some(here));
                lemma_items_some(*input, target@, seq@, pv, k as nat, k as nat, f);
                assert(resolve_items(*input, target@, seq@, pv, k as nat, f) == Some(here));
            }
            let r = out.remove(k);
            assert(r@ == here);
            return Some(r);
        }
        proof {
            assert(resolve_items(*input, target@, seq@, pv, k as nat, f) == resolve_items(*input, target@, seq@, pv, (k + 1) as nat, f));
        }
        k = k + 1;
    }
    Some(lookup_found(target, path))
}

proof fn lemma_items_some(
    input: Input,
    target: Seq<char>,
    items: Seq<TaskDef>,
    path: Seq<PathStep>,
    j: nat,
    k: nat,
    fuel: nat,
)
    requires
        j <= k < items.len(),
        resolve_items(input, target, items, path, j, fuel) is Some,
    ensures
        resolve_item(input, target, items[k as int], path.push(PathStep::Index(k as usize)), fuel) is Some,
    decreases k - j,
{
    if j < k {
        lemma_items_some(input, target, items, path, j + 1, k, fuel);
    }
}

proof fn lemma_items_all_some(input: Input, target: Seq<char>, items: Seq<TaskDef>, path: Seq<PathStep>, j: nat, fuel: nat)
    requires
        j <= items.len(),
        forall|k: int| j <= k < items.len() ==> #[trigger] resolve_item(input, target, items[k], path.push(PathStep::Index(k as usize)), fuel) is Some,
    ensures
        resolve_items(input, target, items, path, j, fuel) is Some,
    decreases items.len() - j,
{
    if j < items.len() {
        assert(resolve_item(input, target, items[j as int], path.push(PathStep::Index(j as usize)), fuel) is Some);
        lemma_items_all_some(input, target, items, path, j + 1, fuel);
    }
}

fn lookup_is_found(l: &TaskLookup) -> (r: bool)
    ensures
        r == l@.found,
{
    match l {
        TaskLookup::Found { .. } => true,
        TaskLookup::NotFound { .. } => false,
    }
}

fn lookup_item(
    input: &Input,
    target: &str,
    item: &TaskDef,
    path: Vec<PathItem>,
    limit: Option<usize>,
    Ghost(fuel): Ghost<nat>,
) -> (r: Option<TaskLookup>)
    requires
        limit_fits(limit, fuel, resolve_item(*input, target@, *item, path_view(path@), fuel) is Some),
    ensures
        lookup_opt(r) == resolve_item(*input, target@, *item, path_view(path@), fuel),
    decreases fuel, 0nat,
{
    let next: Option<usize> = match limit {
        Some(d) => {
            if d == 0 {
                return None;
            }
            Some(d - 1)
        },
        None => None,
    };
    match item {
        TaskDef::CmdString(s) => lookup_string(input, target, s, path, next, Ghost((fuel - 1) as nat)),
        TaskDef::TaskSeq(seq) => lookup_seq(input, target, seq, path, next, Ghost((fuel - 1) as nat)),
        TaskDef::TaskObj { .. } => Some(lookup_found(target, path)),
    }
}

/// Resolves the task `name`, reached along `prev_path`, on behalf of `target`.
pub fn validate(input: &Input, target: &str, name: &str, prev_path: Vec<PathItem>) -> (r: TaskLookup)
    requires
        resolves(*input, target@, name@, path_view(prev_path@)),
    ensures
        r@ == resolution(*input, target@, name@, path_view(prev_path@)),
{
    let ghost fuel = choose|fuel: nat| #[trigger] resolve(*input, target@, name@, path_view(prev_path@), fuel) is Some;
    proof {
        law_resolution_independent_of_depth(*input, target@, name@, path_view(prev_path@), fuel, fuel);
    }
    let r = lookup_name(input, target, name, prev_path, None, Ghost(fuel));
    r.unwrap()
}

/// Resolves the task `name` as `validate` does, allowing at most `depth` nested
/// steps: `None` exactly where resolution does not end within them (which covers a
/// reference cycle, and a command string whose first byte cannot be sliced off).
pub fn validate_within(input: &Input, target: &str, name: &str, prev_path: Vec<PathItem>, depth: usize) -> (r: Option<TaskLookup>)
    ensures
        lookup_opt(r) == resolve(*input, target@, name@, path_view(prev_path@), depth as nat),
        r matches Some(l) ==> resolves(*input, target@, name@, path_view(prev_path@))
            && l@ == resolution(*input, target@, name@, path_view(prev_path@)),
{
    let ghost pv = path_view(prev_path@);
    let r = lookup_name(input, target, name, prev_path, Some(depth), Ghost(depth as nat));
    proof {
        if r is Some {
            law_resolution_independent_of_depth(*input, target@, name@, pv, depth as nat, depth as nat);
        }
    }
    r
}

/// Whether resolving the sequence `items` comes to an end.
pub open spec fn seq_resolves(input: Input, target: Seq<char>, items: Seq<TaskDef>, path: Seq<PathStep>) -> bool {
    exists|fuel: nat| #[trigger] resolve_seq(input, target, items, path, fuel) is Some
}

/// The outcome of resolving the sequence `items`, where `seq_resolves` holds.
pub open spec fn seq_resolution(input: Input, target: Seq<char>, items: Seq<TaskDef>, path: Seq<PathStep>) -> LookupView {
    resolve_seq(input, target, items, path, choose|fuel: nat| #[trigger] resolve_seq(input, target, items, path, fuel) is Some).unwrap()
}

/// Resolves a sequence of definitions reached along `path` on behalf of `target`
/// (defined under `name`): each item is resolved under `path` and its position; the
/// outcome is that of the first item not found, else found with `path` as it is.
pub fn validate_seq(input: &Input, target: &str, _name: &str, seq: &Vec<TaskDef>, path: Vec<PathItem>) -> (r: TaskLookup)
    requires
        seq_resolves(*input, target@, seq@, path_view(path@)),
    ensures
        r@ == seq_resolution(*input, target@, seq@, path_view(path@)),
{
    let ghost fuel = choose|fuel: nat| #[trigger] resolve_seq(*input, target@, seq@, path_view(path@), fuel) is Some;
    let r = lookup_seq(input, target, seq, path, None, Ghost(fuel));
    r.unwrap()
}

/// Whether every lookup was found.
pub open spec fn all_found(v: Seq<LookupView>) -> bool {
    forall|i: int| 0 <= i < v.len() ==> #[trigger] v[i].found
}

/// The outcomes of resolving each of `names` as a target of its own.
pub open spec fn selection(input: Input, names: Seq<&str>) -> Seq<LookupView> {
    Seq::new(names.len(), |i: int| resolution(input, names[i]@, names[i]@, seq![]))
}

/// Resolves each of `names`; `Ok` with every outcome when all were found, else the
/// same outcomes as `TaskError::Invalid`.
pub fn select(input: &Input, names: &Vec<&str>) -> (r: Result<Vec<TaskLookup>, TaskError>)
    requires
        forall|i: int| 0 <= i < names@.len() ==> resolves(*input, #[trigger] names@[i]@, names@[i]@, seq![]),
    ensures
        match r {
            Ok(v) => all_found(selection(*input, names@)) && lookups_view(v@) == selection(*input, names@),
            Err(TaskError::Invalid(v)) => !all_found(selection(*input, names@)) && lookups_view(v@)
                == selection(*input, names@),
            Err(TaskError::Serde(_)) => false,
        },
{
    let mut parsed: Vec<TaskLookup> = Vec::new();
    let mut all_valid = true;
    for i in 0..names.len()
        invariant
            forall|i: int| 0 <= i < names@.len() ==> resolves(*input, #[trigger] names@[i]@, names@[i]@, seq![]),
            parsed@.len() == i,
            forall|j: int| 0 <= j < i ==> (#[trigger] parsed@[j])@ == resolution(*input, names@[j]@, names@[j]@, seq![]),
            all_valid == forall|j: int| 0 <= j < i ==> (#[trigger] parsed@[j])@.found,
    {
        let n = names[i];
        let empty: Vec<PathItem> = Vec::new();
        assert(path_view(empty@) == Seq::<PathStep>::empty());
        let l = validate(input, n, n, empty);
        let ok = lookup_is_found(&l);
        let ghost before = parsed@;
        parsed.push(l);
        proof {
            assert(forall|j: int| 0 <= j < i ==> parsed@[j] == before[j]);
            assert(parsed@[i as int]@.found == ok);
        }
        if !ok {
            all_valid = false;
        }
    }
    assert(lookups_view(parsed@) == selection(*input, names@));
    assert(all_found(selection(*input, names@)) == all_valid) by {
        if !all_valid {
            let j = choose|j: int| 0 <= j < names@.len() && !(#[trigger] parsed@[j])@.found;
            assert(!selection(*input, names@)[j].found);
        }
    }
    if all_valid {
        Ok(parsed)
    } else {
        Err(TaskError::Invalid(parsed))
    }
}

/// Whether each of `names` resolves within `depth` nested steps.
pub open spec fn all_resolve_within(input: Input, names: Seq<&str>, depth: nat) -> bool {
    forall|i: int| 0 <= i < names.len() ==> #[trigger] resolve(input, names[i]@, names[i]@, seq![], depth) is Some
}

/// `select`, allowing each name at most `depth` nested steps: `None` exactly where
/// some name does not resolve within them, else what `select` gives.
pub fn select_within(input: &Input, names: &Vec<&str>, depth: usize) -> (r: Option<Result<Vec<TaskLookup>, TaskError>>)
    ensures
        r is Some <==> all_resolve_within(*input, names@, depth as nat),
        r matches Some(res) ==> match res {
            Ok(v) => all_found(selection(*input, names@)) && lookups_view(v@) == selection(*input, names@),
            Err(TaskError::Invalid(v)) => !all_found(selection(*input, names@)) && lookups_view(v@)
                == selection(*input, names@),
            Err(TaskError::Serde(_)) => false,
        },
{
    for i in 0..names.len()
        invariant
            forall|j: int| 0 <= j < i ==> resolve(*input, #[trigger] names@[j]@, names@[j]@, seq![], depth as nat) is Some,
            forall|j: int| 0 <= j < i ==> resolves(*input, #[trigger] names@[j]@, names@[j]@, seq![]),
    {
        let n = names[i];
        let empty: Vec<PathItem> = Vec::new();
        assert(path_view(empty@) == Seq::<PathStep>::empty());
        match validate_within(input, n, n, empty, depth) {
            Some(_) => {},
            None => {
                assert(!all_resolve_within(*input, names@, depth as nat)) by {
                    assert(resolve(*input, names@[i as int]@, names@[i as int]@, seq![], depth as nat) is None);
                }
                return None;
            },
        }
    }
    Some(select(input, names))
}

} // verus!
