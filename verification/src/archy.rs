//! Rendering of a labelled tree as indented text with box-drawing connectors.
use vstd::prelude::*;

use crate::text::{
    append_chars, append_joined, chars_of, join, lemma_newline_at, lemma_newline_index_props,
    is_ascii_text, lemma_ascii_concat, lemma_join_ascii, lemma_split_lines_ascii,
    lemma_split_lines_no_newline, lines_of, strip_cr, newline_index, no_newline, split_lines, string_of,
};

verus! {

/// A node of the tree to render: a (possibly multi-line) label and its children.
#[derive(Debug)]
pub struct Node {
    pub label: String,
    pub nodes: Vec<Node>,
}

/// The mathematical value of a `Node`.
pub struct NodeView {
    pub label: Seq<char>,
    pub nodes: Seq<NodeView>,
}

/// The value of one node.
pub open spec fn node_view(n: Node) -> NodeView
    decreases n,
{
    NodeView { label: n.label@, nodes: node_views(n.nodes@) }
}

/// The values of a sequence of nodes.
pub open spec fn node_views(ns: Seq<Node>) -> Seq<NodeView>
    decreases ns,
{
    if ns.len() == 0 {
        seq![]
    } else {
        node_views(ns.subrange(0, ns.len() - 1)).push(node_view(ns[ns.len() - 1]))
    }
}

impl View for Node {
    type V = NodeView;

    open spec fn view(&self) -> NodeView {
        node_view(*self)
    }
}

/// `node_views` keeps the length and maps each node to its value.
pub proof fn lemma_node_views(ns: Seq<Node>)
    ensures
        node_views(ns).len() == ns.len(),
        forall|i: int| 0 <= i < ns.len() ==> #[trigger] node_views(ns)[i] == node_view(ns[i]),
    decreases ns.len(),
{
    if ns.len() > 0 {
        lemma_node_views(ns.subrange(0, ns.len() - 1));
    }
}

impl Default for Node {
    fn default() -> (n: Self)
        ensures
            n.label@.len() == 0,
            n.nodes@.len() == 0,
    {
        Node { label: String::new(), nodes: Vec::new() }
    }
}

impl Node {
    /// A node with the given label and children.
    pub fn new(label: &str, nodes: Vec<Node>) -> (n: Node)
        ensures
            n.label@ == label@,
            n.nodes@ == nodes@,
    {
        Node { label: label.to_owned(), nodes }
    }
}

/// Rendering options: box-drawing characters, or plain ASCII in their place.
#[derive(Debug)]
pub struct ArchyOpts {
    pub unicode: bool,
}

impl ArchyOpts {
    /// The default options, which draw with box-drawing characters.
    pub fn new() -> (o: ArchyOpts)
        ensures
            o.unicode,
    {
        ArchyOpts::default()
    }

    /// The same options with `unicode` set to `value`.
    pub fn unicode(self, value: bool) -> (o: ArchyOpts)
        ensures
            o.unicode == value,
    {
        let mut s = self;
        s.unicode = value;
        s
    }
}

impl Default for ArchyOpts {
    fn default() -> (o: Self)
        ensures
            o.unicode,
    {
        ArchyOpts { unicode: true }
    }
}

/// The vertical bar.
pub open spec fn bar() -> char {
    '\u{2502}'
}

/// The corner drawn before the last child.
pub open spec fn corner() -> char {
    '\u{2514}'
}

/// The tee drawn before every child but the last.
pub open spec fn tee() -> char {
    '\u{251C}'
}

/// The horizontal line.
pub open spec fn dash() -> char {
    '\u{2500}'
}

/// The down-tee drawn where a child has children of its own.
pub open spec fn down_tee() -> char {
    '\u{252C}'
}

/// The character drawn for the box-drawing character `c`: `c` itself in unicode
/// mode, else its ASCII stand-in.
pub open spec fn glyph(c: char, unicode: bool) -> char {
    if unicode {
        c
    } else if c == bar() {
        '|'
    } else if c == corner() {
        '`'
    } else if c == tee() {
        '+'
    } else {
        '-'
    }
}

fn glyph_of(c: char, unicode: bool) -> (r: char)
    ensures
        r == glyph(c, unicode),
{
    if unicode {
        c
    } else if c == '\u{2502}' {
        '|'
    } else if c == '\u{2514}' {
        '`'
    } else if c == '\u{251C}' {
        '+'
    } else {
        '-'
    }
}

/// The rendering of `n` with every line indented by `prefix`: the label's lines,
/// then one line group per child, each drawn by `child_text`.
pub open spec fn archy_text(n: NodeView, prefix: Seq<char>, unicode: bool) -> Seq<char>
    decreases n, n.nodes.len() + 1,
{
    let suf = if n.nodes.len() > 0 { glyph(bar(), unicode) } else { ' ' };
    let splitter = seq!['\n'] + prefix + seq![suf, ' '];
    prefix + join(split_lines(n.label), splitter) + seq!['\n'] + children_text(n, prefix, unicode, n.nodes.len())
}

/// The renderings of the first `k` children of `n`, one after the other.
pub open spec fn children_text(n: NodeView, prefix: Seq<char>, unicode: bool, k: nat) -> Seq<char>
    decreases n, k,
{
    if k == 0 {
        seq![]
    } else {
        children_text(n, prefix, unicode, (k - 1) as nat) + child_text(n, prefix, unicode, (k - 1) as nat)
    }
}

/// The rendering of child `i` of `n`: the connector, then the child rendered with
/// a deeper indent, from which the first `prefix.len() + 2` characters are dropped.
pub open spec fn child_text(n: NodeView, prefix: Seq<char>, unicode: bool, i: nat) -> Seq<char>
    decreases n, 0nat,
{
    if i < n.nodes.len() {
        let c = n.nodes[i as int];
        let last = i == n.nodes.len() - 1;
        let more = c.nodes.len() > 0;
        let deeper = prefix + seq![if last { ' ' } else { glyph(bar(), unicode) }, ' '];
        let rendered = archy_text(c, deeper, unicode);
        let skip = prefix.len() + 2;
        prefix + seq![
            if last { glyph(corner(), unicode) } else { glyph(tee(), unicode) },
            glyph(dash(), unicode),
            if more { glyph(down_tee(), unicode) } else { glyph(dash(), unicode) },
            ' ',
        ] + (if skip <= rendered.len() { rendered.skip(skip as int) } else { seq![] })
    } else {
        seq![]
    }
}

/// Whether `s` is made of whole lines, each ending with `'\n'`, that all begin with `p`.
pub open spec fn lines_begin_with(s: Seq<char>, p: Seq<char>) -> bool
    decreases s.len(),
{
    if s.len() == 0 {
        true
    } else {
        let i = newline_index(s);
        &&& i < s.len()
        &&& p.len() <= i
        &&& s.subrange(0, p.len() as int) == p
        &&& lines_begin_with(s.skip((i + 1) as int), p)
    }
}

proof fn lemma_concat_lines(a: Seq<char>, b: Seq<char>, p: Seq<char>)
    requires
        lines_begin_with(a, p),
        lines_begin_with(b, p),
    ensures
        lines_begin_with(a + b, p),
    decreases a.len(),
{
    if a.len() == 0 {
        assert(a + b == b);
    } else {
        let i = newline_index(a);
        lemma_newline_index_props(a);
        lemma_newline_at(a + b, i as int);
        lemma_concat_lines(a.skip((i + 1) as int), b, p);
        assert((a + b).skip((i + 1) as int) == a.skip((i + 1) as int) + b);
        assert((a + b).subrange(0, p.len() as int) == a.subrange(0, p.len() as int));
    }
}

proof fn lemma_one_line(p: Seq<char>, w: Seq<char>)
    requires
        no_newline(p),
        no_newline(w),
    ensures
        lines_begin_with(p + w + seq!['\n'], p),
{
    let s = p + w + seq!['\n'];
    let k = p.len() + w.len();
    assert forall|j: int| 0 <= j < k implies s[j] != '\n' by {
        if j < p.len() {
            assert(s[j] == p[j]);
        } else {
            assert(s[j] == w[j - p.len()]);
        }
    }
    lemma_newline_at(s, k as int);
    assert(s.subrange(0, p.len() as int) == p);
    assert(s.skip((k + 1) as int).len() == 0);
    assert(lines_begin_with(s.skip((k + 1) as int), p));
    assert(newline_index(s) < s.len());
}

proof fn lemma_weaken_lines(s: Seq<char>, q: Seq<char>, p: Seq<char>)
    requires
        lines_begin_with(s, q),
        p.len() <= q.len(),
        q.subrange(0, p.len() as int) == p,
    ensures
        lines_begin_with(s, p),
    decreases s.len(),
{
    if s.len() > 0 {
        let i = newline_index(s);
        lemma_weaken_lines(s.skip((i + 1) as int), q, p);
        assert(s.subrange(0, p.len() as int) == s.subrange(0, q.len() as int).subrange(0, p.len() as int));
    }
}

proof fn lemma_label_lines(p: Seq<char>, lines: Seq<Seq<char>>, z: Seq<char>)
    requires
        no_newline(p),
        no_newline(z),
        forall|i: int| 0 <= i < lines.len() ==> no_newline(#[trigger] lines[i]),
    ensures
        lines_begin_with(p + join(lines, seq!['\n'] + p + z) + seq!['\n'], p),
    decreases lines.len(),
{
    let sep = seq!['\n'] + p + z;
    if lines.len() == 0 {
        lemma_one_line(p, seq![]);
        assert(p + join(lines, sep) + seq!['\n'] == p + Seq::<char>::empty() + seq!['\n']);
    } else if lines.len() == 1 {
        lemma_one_line(p, lines[0]);
    } else {
        let init = lines.drop_last();
        assert forall|i: int| 0 <= i < init.len() implies no_newline(#[trigger] init[i]) by {
            assert(init[i] == lines[i]);
        }
        lemma_label_lines(p, init, z);
        let w = z + lines.last();
        assert(no_newline(w)) by {
            assert(no_newline(lines[lines.len() - 1]));
            assert forall|j: int| 0 <= j < w.len() implies w[j] != '\n' by {
                if j >= z.len() {
                    assert(w[j] == lines.last()[j - z.len()]);
                }
            }
        }
        lemma_one_line(p, w);
        lemma_concat_lines(p + join(init, sep) + seq!['\n'], p + w + seq!['\n'], p);
        assert(p + join(lines, sep) + seq!['\n'] == (p + join(init, sep) + seq!['\n']) + (p + w + seq!['\n']));
    }
}

proof fn lemma_replace_first_prefix(r: Seq<char>, q: Seq<char>, p: Seq<char>, w: Seq<char>)
    requires
        lines_begin_with(r, q),
        r.len() > 0,
        p.len() <= q.len(),
        q.subrange(0, p.len() as int) == p,
        no_newline(p),
        no_newline(w),
    ensures
        lines_begin_with(p + w + r.skip(q.len() as int), p),
{
    let i0 = newline_index(r);
    lemma_newline_index_props(r);
    let s = p + w + r.skip(q.len() as int);
    let k = p.len() + w.len() + (i0 - q.len());
    assert forall|j: int| 0 <= j < k implies s[j] != '\n' by {
        if j < p.len() {
            assert(s[j] == p[j]);
        } else if j < p.len() + w.len() {
            assert(s[j] == w[j - p.len()]);
        } else {
            assert(s[j] == r[j - p.len() - w.len() + q.len()]);
        }
    }
    assert(s[k] == r[i0 as int]);
    lemma_newline_at(s, k);
    assert(s.subrange(0, p.len() as int) == p);
    assert(s.skip(k + 1) == r.skip((i0 + 1) as int));
    lemma_weaken_lines(r.skip((i0 + 1) as int), q, p);
}

proof fn lemma_archy_lines(n: NodeView, p: Seq<char>, unicode: bool)
    requires
        no_newline(p),
    ensures
        lines_begin_with(archy_text(n, p, unicode), p),
        archy_text(n, p, unicode).len() > 0,
    decreases n, n.nodes.len() + 1,
{
    let suf = if n.nodes.len() > 0 { glyph(bar(), unicode) } else { ' ' };
    let z = seq![suf, ' '];
    assert(no_newline(z));
    lemma_split_lines_no_newline(n.label);
    lemma_label_lines(p, split_lines(n.label), z);
    assert(seq!['\n'] + p + seq![suf, ' '] == seq!['\n'] + p + z);
    lemma_children_lines(n, p, unicode, n.nodes.len());
    let head = p + join(split_lines(n.label), seq!['\n'] + p + z) + seq!['\n'];
    lemma_concat_lines(head, children_text(n, p, unicode, n.nodes.len()), p);
    assert(archy_text(n, p, unicode) == head + children_text(n, p, unicode, n.nodes.len()));
}

proof fn lemma_children_lines(n: NodeView, p: Seq<char>, unicode: bool, k: nat)
    requires
        no_newline(p),
    ensures
        lines_begin_with(children_text(n, p, unicode, k), p),
    decreases n, k,
{
    if k > 0 {
        lemma_children_lines(n, p, unicode, (k - 1) as nat);
        lemma_child_lines(n, p, unicode, (k - 1) as nat);
        lemma_concat_lines(children_text(n, p, unicode, (k - 1) as nat), child_text(n, p, unicode, (k - 1) as nat), p);
    }
}

proof fn lemma_child_lines(n: NodeView, p: Seq<char>, unicode: bool, i: nat)
    requires
        no_newline(p),
    ensures
        lines_begin_with(child_text(n, p, unicode, i), p),
    decreases n, 0nat,
{
    if i < n.nodes.len() {
        let c = n.nodes[i as int];
        let last = i == n.nodes.len() - 1;
        let more = c.nodes.len() > 0;
        let x = if last { ' ' } else { glyph(bar(), unicode) };
        let deeper = p + seq![x, ' '];
        assert(no_newline(deeper)) by {
            assert forall|j: int| 0 <= j < deeper.len() implies deeper[j] != '\n' by {
                if j < p.len() {
                    assert(deeper[j] == p[j]);
                }
            }
        }
        lemma_archy_lines(c, deeper, unicode);
        let rendered = archy_text(c, deeper, unicode);
        let w = seq![
            if last { glyph(corner(), unicode) } else { glyph(tee(), unicode) },
            glyph(dash(), unicode),
            if more { glyph(down_tee(), unicode) } else { glyph(dash(), unicode) },
            ' ',
        ];
        assert(no_newline(w));
        assert(deeper.subrange(0, p.len() as int) == p);
        lemma_newline_index_props(rendered);
        lemma_replace_first_prefix(rendered, deeper, p, w);
        assert(child_text(n, p, unicode, i) == p + w + rendered.skip(deeper.len() as int));
    } else {
        assert(child_text(n, p, unicode, i).len() == 0);
    }
}

/// Every line of a rendered tree begins with the prefix it was rendered with, and the
/// rendering is made of whole lines: nothing follows its last line ending.
pub proof fn law_every_line_begins_with_prefix(n: NodeView, prefix: Seq<char>, unicode: bool)
    requires
        no_newline(prefix),
    ensures
        lines_begin_with(archy_text(n, prefix, unicode), prefix),
        archy_text(n, prefix, unicode).len() > 0,
        archy_text(n, prefix, unicode).last() == '\n',
{
    lemma_archy_lines(n, prefix, unicode);
    lemma_lines_end(archy_text(n, prefix, unicode), prefix);
}

/// `s` with `p` put before each of its lines.
pub open spec fn indent(s: Seq<char>, p: Seq<char>) -> Seq<char>
    decreases s.len(),
{
    if s.len() == 0 {
        seq![]
    } else {
        let i = newline_index(s) as int;
        if i < s.len() {
            p + s.subrange(0, i + 1) + indent(s.skip(i + 1), p)
        } else {
            p + s
        }
    }
}

/// Whether `s` is made of whole lines: empty, or ending with a line end.
pub open spec fn whole_lines(s: Seq<char>) -> bool {
    s.len() == 0 || s.last() == '\n'
}

proof fn lemma_indent_concat(a: Seq<char>, b: Seq<char>, p: Seq<char>)
    requires
        whole_lines(a),
    ensures
        indent(a + b, p) == indent(a, p) + indent(b, p),
    decreases a.len(),
{
    if a.len() == 0 {
        assert(a + b == b);
    } else {
        let i = newline_index(a) as int;
        lemma_newline_index_props(a);
        if i >= a.len() {
            assert(a[a.len() - 1] != '\n');
        }
        let ab = a + b;
        assert forall|j: int| 0 <= j < i implies ab[j] != '\n' by {
            assert(ab[j] == a[j]);
        }
        assert(ab[i] == a[i]);
        lemma_newline_at(ab, i);
        let rest = a.skip(i + 1);
        if rest.len() > 0 {
            assert(rest.last() == a.last());
        }
        lemma_indent_concat(rest, b, p);
        assert(ab.subrange(0, i + 1) == a.subrange(0, i + 1));
        assert(ab.skip(i + 1) == rest + b);
        assert(indent(ab, p) == p + a.subrange(0, i + 1) + indent(rest + b, p));
        assert(indent(a, p) == p + a.subrange(0, i + 1) + indent(rest, p));
    }
}

proof fn lemma_indent_line(w: Seq<char>, p: Seq<char>)
    requires
        no_newline(w),
    ensures
        indent(w + seq!['\n'], p) == p + w + seq!['\n'],
{
    let s = w + seq!['\n'];
    assert forall|j: int| 0 <= j < w.len() implies s[j] != '\n' by {
        assert(s[j] == w[j]);
    }
    lemma_newline_at(s, w.len() as int);
    assert(s.subrange(0, w.len() + 1int) == s);
    assert(s.skip(w.len() + 1int).len() == 0);
    assert(indent(s.skip(w.len() + 1int), p) == Seq::<char>::empty());
}

proof fn lemma_no_newline_concat(a: Seq<char>, b: Seq<char>)
    requires
        no_newline(a),
        no_newline(b),
    ensures
        no_newline(a + b),
{
    assert forall|j: int| 0 <= j < (a + b).len() implies (a + b)[j] != '\n' by {
        if j < a.len() {
            assert((a + b)[j] == a[j]);
        } else {
            assert((a + b)[j] == b[j - a.len()]);
        }
    }
}

proof fn lemma_indent_indent(s: Seq<char>, p: Seq<char>, q: Seq<char>)
    requires
        no_newline(q),
    ensures
        indent(indent(s, q), p) == indent(s, p + q),
    decreases s.len(),
{
    if s.len() > 0 {
        let i = newline_index(s) as int;
        lemma_newline_index_props(s);
        let head = s.subrange(0, i);
        assert(no_newline(head));
        lemma_no_newline_concat(q, head);
        if i < s.len() {
            let rest = s.skip(i + 1);
            let line = q + s.subrange(0, i + 1);
            assert(line == (q + head) + seq!['\n']);
            lemma_indent_line(q + head, p);
            lemma_indent_concat(line, indent(rest, q), p);
            lemma_indent_indent(rest, p, q);
            assert(indent(s, q) == line + indent(rest, q));
            assert(indent(s, p + q) == (p + q) + s.subrange(0, i + 1) + indent(rest, p + q));
        } else {
            assert(head == s);
            let t = q + s;
            assert forall|j: int| 0 <= j < t.len() implies t[j] != '\n' by {}
            lemma_newline_at(t, t.len() as int);
            assert(indent(s, q) == t);
        }
    }
}

proof fn lemma_indent_label(lines: Seq<Seq<char>>, z: Seq<char>, p: Seq<char>)
    requires
        no_newline(z),
        forall|i: int| 0 <= i < lines.len() ==> no_newline(#[trigger] lines[i]),
    ensures
        indent(join(lines, seq!['\n'] + z) + seq!['\n'], p) == p + join(lines, seq!['\n'] + p + z) + seq!['\n'],
    decreases lines.len(),
{
    let s1 = seq!['\n'] + z;
    let s2 = seq!['\n'] + p + z;
    if lines.len() == 0 {
        lemma_indent_line(seq![], p);
        assert(join(lines, s1) + seq!['\n'] == Seq::<char>::empty() + seq!['\n']);
        assert(p + join(lines, s2) + seq!['\n'] == p + Seq::<char>::empty() + seq!['\n']);
    } else if lines.len() == 1 {
        assert(no_newline(lines[0]));
        lemma_indent_line(lines[0], p);
    } else {
        let init = lines.drop_last();
        assert forall|i: int| 0 <= i < init.len() implies no_newline(#[trigger] init[i]) by {
            assert(init[i] == lines[i]);
        }
        lemma_indent_label(init, z, p);
        assert(no_newline(lines[lines.len() - 1]));
        lemma_no_newline_concat(z, lines.last());
        lemma_indent_line(z + lines.last(), p);
        let a = join(init, s1) + seq!['\n'];
        let b = z + lines.last() + seq!['\n'];
        assert(join(lines, s1) + seq!['\n'] == a + b);
        lemma_indent_concat(a, b, p);
        assert(p + join(lines, s2) + seq!['\n'] == (p + join(init, s2) + seq!['\n']) + (p + (z + lines.last()) + seq!['\n']));
    }
}

proof fn lemma_archy_indent(n: NodeView, p: Seq<char>, unicode: bool)
    requires
        no_newline(p),
    ensures
        archy_text(n, p, unicode) == indent(archy_text(n, seq![], unicode), p),
    decreases n, n.nodes.len() + 1,
{
    let suf = if n.nodes.len() > 0 { glyph(bar(), unicode) } else { ' ' };
    let z = seq![suf, ' '];
    assert(no_newline(z));
    let e = Seq::<char>::empty();
    lemma_split_lines_no_newline(n.label);
    lemma_indent_label(split_lines(n.label), z, p);
    let head0 = join(split_lines(n.label), seq!['\n'] + z) + seq!['\n'];
    let ch0 = children_text(n, e, unicode, n.nodes.len());
    assert(seq!['\n'] + e + seq![suf, ' '] == seq!['\n'] + z);
    assert(seq!['\n'] + p + seq![suf, ' '] == seq!['\n'] + p + z);
    assert(archy_text(n, e, unicode) == head0 + ch0);
    lemma_indent_concat(head0, ch0, p);
    lemma_children_indent(n, p, unicode, n.nodes.len());
}

proof fn lemma_children_indent(n: NodeView, p: Seq<char>, unicode: bool, k: nat)
    requires
        no_newline(p),
    ensures
        indent(children_text(n, seq![], unicode, k), p) == children_text(n, p, unicode, k),
    decreases n, k,
{
    let e = Seq::<char>::empty();
    if k > 0 {
        let a = children_text(n, e, unicode, (k - 1) as nat);
        lemma_children_lines(n, e, unicode, (k - 1) as nat);
        if a.len() > 0 {
            lemma_lines_end(a, e);
        }
        lemma_indent_concat(a, child_text(n, e, unicode, (k - 1) as nat), p);
        lemma_children_indent(n, p, unicode, (k - 1) as nat);
        lemma_child_indent(n, p, unicode, (k - 1) as nat);
    }
}

proof fn lemma_skip_indent(r: Seq<char>, q: Seq<char>)
    requires
        newline_index(r) < r.len(),
    ensures
        q.len() <= indent(r, q).len(),
        indent(r, q).skip(q.len() as int) == r.subrange(0, newline_index(r) + 1int) + indent(r.skip(newline_index(r) + 1int), q),
{
    let i0 = newline_index(r) as int;
    let t = r.subrange(0, i0 + 1) + indent(r.skip(i0 + 1), q);
    assert(indent(r, q) == q + r.subrange(0, i0 + 1) + indent(r.skip(i0 + 1), q));
    assert(indent(r, q) == q + t);
    assert((q + t).skip(q.len() as int) == t);
}

proof fn lemma_child_tail(w: Seq<char>, r: Seq<char>, xs: Seq<char>, p: Seq<char>)
    requires
        no_newline(w),
        no_newline(xs),
        xs.len() == 2,
        newline_index(r) < r.len(),
    ensures
        2 <= indent(r, xs).len(),
        p.len() + 2 <= indent(r, p + xs).len(),
        indent(w + indent(r, xs).skip(2), p) == p + w + indent(r, p + xs).skip((p.len() + 2) as int),
{
    let i0 = newline_index(r) as int;
    lemma_newline_index_props(r);
    let line0 = r.subrange(0, i0 + 1);
    let rest = r.skip(i0 + 1);
    lemma_skip_indent(r, xs);
    lemma_skip_indent(r, p + xs);
    let head = r.subrange(0, i0);
    assert(no_newline(head));
    lemma_no_newline_concat(w, head);
    assert(w + line0 == (w + head) + seq!['\n']);
    lemma_indent_line(w + head, p);
    lemma_indent_concat(w + line0, indent(rest, xs), p);
    lemma_indent_indent(rest, p, xs);
    assert(w + indent(r, xs).skip(2) == (w + line0) + indent(rest, xs));
}

proof fn lemma_child_indent(n: NodeView, p: Seq<char>, unicode: bool, i: nat)
    requires
        no_newline(p),
    ensures
        indent(child_text(n, seq![], unicode, i), p) == child_text(n, p, unicode, i),
    decreases n, 0nat,
{
    let e = Seq::<char>::empty();
    if i < n.nodes.len() {
        let c = n.nodes[i as int];
        let last = i == n.nodes.len() - 1;
        let more = c.nodes.len() > 0;
        let x = if last { ' ' } else { glyph(bar(), unicode) };
        let xs = seq![x, ' '];
        assert(no_newline(xs));
        lemma_no_newline_concat(p, xs);
        assert(e + xs == xs);
        lemma_archy_indent(c, xs, unicode);
        lemma_archy_indent(c, p + xs, unicode);
        let r = archy_text(c, e, unicode);
        lemma_archy_lines(c, e, unicode);
        let w = seq![
            if last { glyph(corner(), unicode) } else { glyph(tee(), unicode) },
            glyph(dash(), unicode),
            if more { glyph(down_tee(), unicode) } else { glyph(dash(), unicode) },
            ' ',
        ];
        assert(no_newline(w));
        lemma_child_tail(w, r, xs, p);
        assert(child_text(n, e, unicode, i) == e + w + archy_text(c, xs, unicode).skip(2));
        assert(e + w + archy_text(c, xs, unicode).skip(2) == w + archy_text(c, xs, unicode).skip(2));
    } else {
        assert(child_text(n, e, unicode, i) == e);
    }
}

/// How a tree is drawn: the label's lines (each after the first continued under a
/// bar when there are children), then the children in order. Child `i` is drawn with
/// the corner connector exactly when it is the last child, with the tee otherwise,
/// followed by a dash, a down-tee when it has children of its own (else a dash), a
/// space and its first line; its other lines follow, indented by the prefix and then a
/// bar continuing the connector (a space for the last child) and a space.
pub proof fn law_child_connectors(n: NodeView, prefix: Seq<char>, unicode: bool, i: nat)
    requires
        no_newline(prefix),
        i < n.nodes.len(),
    ensures
        archy_text(n, prefix, unicode) == prefix + join(
            split_lines(n.label),
            seq!['\n'] + prefix + seq![if n.nodes.len() > 0 { glyph(bar(), unicode) } else { ' ' }, ' '],
        ) + seq!['\n'] + children_text(n, prefix, unicode, n.nodes.len()),
        children_text(n, prefix, unicode, 0) == Seq::<char>::empty(),
        children_text(n, prefix, unicode, i + 1) == children_text(n, prefix, unicode, i) + child_text(n, prefix, unicode, i),
        ({
            let c = n.nodes[i as int];
            let last = i == n.nodes.len() - 1;
            let r = archy_text(c, seq![], unicode);
            let k = newline_index(r) as int;
            &&& k < r.len()
            &&& child_text(n, prefix, unicode, i) == prefix + seq![
                if last { glyph(corner(), unicode) } else { glyph(tee(), unicode) },
                glyph(dash(), unicode),
                if c.nodes.len() > 0 { glyph(down_tee(), unicode) } else { glyph(dash(), unicode) },
                ' ',
            ] + r.subrange(0, k + 1) + indent(r.skip(k + 1), prefix + seq![if last { ' ' } else { glyph(bar(), unicode) }, ' '])
        }),
{
    let c = n.nodes[i as int];
    let last = i == n.nodes.len() - 1;
    let xs = seq![if last { ' ' } else { glyph(bar(), unicode) }, ' '];
    assert(no_newline(xs));
    lemma_no_newline_concat(prefix, xs);
    lemma_archy_indent(c, prefix + xs, unicode);
    let r = archy_text(c, seq![], unicode);
    lemma_archy_lines(c, seq![], unicode);
    lemma_skip_indent(r, prefix + xs);
    assert(child_text(n, prefix, unicode, i) == prefix + seq![
        if last { glyph(corner(), unicode) } else { glyph(tee(), unicode) },
        glyph(dash(), unicode),
        if c.nodes.len() > 0 { glyph(down_tee(), unicode) } else { glyph(dash(), unicode) },
        ' ',
    ] + archy_text(c, prefix + xs, unicode).skip((prefix.len() + 2) as int));
}

/// Rendering a tree with a prefix puts that prefix before each line of its rendering
/// without one, and changes nothing else.
pub proof fn law_prefix_starts_every_line(n: NodeView, prefix: Seq<char>, unicode: bool)
    requires
        no_newline(prefix),
    ensures
        archy_text(n, prefix, unicode) == indent(archy_text(n, seq![], unicode), prefix),
{
    lemma_archy_indent(n, prefix, unicode);
}

/// Whether the label of every node of a tree is ASCII text.
pub open spec fn tree_ascii(n: NodeView) -> bool
    decreases n, n.nodes.len() + 1,
{
    is_ascii_text(n.label) && nodes_ascii(n, n.nodes.len())
}

/// Whether the first `k` children of `n` have ASCII labels throughout.
pub open spec fn nodes_ascii(n: NodeView, k: nat) -> bool
    decreases n, k,
{
    if k == 0 || k > n.nodes.len() {
        true
    } else {
        nodes_ascii(n, (k - 1) as nat) && tree_ascii(n.nodes[k - 1])
    }
}

proof fn lemma_nodes_ascii(n: NodeView, k: nat, i: nat)
    requires
        nodes_ascii(n, k),
        i < k <= n.nodes.len(),
    ensures
        tree_ascii(n.nodes[i as int]),
    decreases k,
{
    if i + 1 < k {
        lemma_nodes_ascii(n, (k - 1) as nat, i);
    }
}

proof fn lemma_archy_ascii(n: NodeView, p: Seq<char>)
    requires
        is_ascii_text(p),
        tree_ascii(n),
    ensures
        is_ascii_text(archy_text(n, p, false)),
    decreases n, n.nodes.len() + 1,
{
    let suf = if n.nodes.len() > 0 { glyph(bar(), false) } else { ' ' };
    let sep = seq!['\n'] + p + seq![suf, ' '];
    lemma_ascii_concat(seq!['\n'], p);
    lemma_ascii_concat(seq!['\n'] + p, seq![suf, ' ']);
    lemma_split_lines_ascii(n.label);
    lemma_join_ascii(split_lines(n.label), sep);
    lemma_ascii_concat(p, join(split_lines(n.label), sep));
    lemma_ascii_concat(p + join(split_lines(n.label), sep), seq!['\n']);
    lemma_children_ascii(n, p, n.nodes.len());
    lemma_ascii_concat(p + join(split_lines(n.label), sep) + seq!['\n'], children_text(n, p, false, n.nodes.len()));
}

proof fn lemma_children_ascii(n: NodeView, p: Seq<char>, k: nat)
    requires
        is_ascii_text(p),
        tree_ascii(n),
        k <= n.nodes.len(),
    ensures
        is_ascii_text(children_text(n, p, false, k)),
    decreases n, k,
{
    if k > 0 {
        lemma_children_ascii(n, p, (k - 1) as nat);
        lemma_child_ascii(n, p, (k - 1) as nat);
        lemma_ascii_concat(children_text(n, p, false, (k - 1) as nat), child_text(n, p, false, (k - 1) as nat));
    }
}

proof fn lemma_child_ascii(n: NodeView, p: Seq<char>, i: nat)
    requires
        is_ascii_text(p),
        tree_ascii(n),
        i < n.nodes.len(),
    ensures
        is_ascii_text(child_text(n, p, false, i)),
    decreases n, 0nat,
{
    let c = n.nodes[i as int];
    lemma_nodes_ascii(n, n.nodes.len(), i);
    let last = i == n.nodes.len() - 1;
    let more = c.nodes.len() > 0;
    let x = if last { ' ' } else { glyph(bar(), false) };
    let deeper = p + seq![x, ' '];
    lemma_ascii_concat(p, seq![x, ' ']);
    lemma_archy_ascii(c, deeper);
    let rendered = archy_text(c, deeper, false);
    let w = seq![
        if last { glyph(corner(), false) } else { glyph(tee(), false) },
        glyph(dash(), false),
        if more { glyph(down_tee(), false) } else { glyph(dash(), false) },
        ' ',
    ];
    let skip = p.len() + 2;
    let tail = if skip <= rendered.len() { rendered.skip(skip as int) } else { seq![] };
    assert forall|j: int| 0 <= j < tail.len() implies (#[trigger] tail[j] as int) < 128 by {
        assert(tail[j] == rendered[j + skip]);
    }
    lemma_ascii_concat(p, w);
    lemma_ascii_concat(p + w, tail);
    assert(child_text(n, p, false, i) == p + w + tail);
}

/// In ASCII mode (`unicode` off), a tree whose labels and prefix are ASCII text is
/// rendered as ASCII text: no box-drawing character is drawn.
pub proof fn law_ascii_mode_draws_ascii(n: NodeView, prefix: Seq<char>)
    requires
        is_ascii_text(prefix),
        tree_ascii(n),
    ensures
        is_ascii_text(archy_text(n, prefix, false)),
{
    lemma_archy_ascii(n, prefix);
}

/// Whether `c` is one of the box-drawing characters the renderer draws.
pub open spec fn is_box_char(c: char) -> bool {
    c == bar() || c == corner() || c == tee() || c == dash() || c == down_tee()
}

/// The ASCII stand-in of a box-drawing character; any other character stays.
pub open spec fn ascii_of(c: char) -> char {
    if is_box_char(c) {
        glyph(c, false)
    } else {
        c
    }
}

/// `s` with each box-drawing character replaced by its ASCII stand-in.
pub open spec fn to_ascii(s: Seq<char>) -> Seq<char> {
    s.map_values(|c: char| ascii_of(c))
}

/// Whether `s` holds no box-drawing character.
pub open spec fn no_box_chars(s: Seq<char>) -> bool {
    forall|j: int| 0 <= j < s.len() ==> !is_box_char(#[trigger] s[j])
}

/// Whether no label of a tree holds a box-drawing character.
pub open spec fn tree_plain(n: NodeView) -> bool
    decreases n, n.nodes.len() + 1,
{
    no_box_chars(n.label) && nodes_plain(n, n.nodes.len())
}

/// Whether the first `k` children of `n` hold no box-drawing character in any label.
pub open spec fn nodes_plain(n: NodeView, k: nat) -> bool
    decreases n, k,
{
    if k == 0 || k > n.nodes.len() {
        true
    } else {
        nodes_plain(n, (k - 1) as nat) && tree_plain(n.nodes[k - 1])
    }
}

proof fn lemma_nodes_plain(n: NodeView, k: nat, i: nat)
    requires
        nodes_plain(n, k),
        i < k <= n.nodes.len(),
    ensures
        tree_plain(n.nodes[i as int]),
    decreases k,
{
    if i + 1 < k {
        lemma_nodes_plain(n, (k - 1) as nat, i);
    }
}

proof fn lemma_to_ascii_concat(a: Seq<char>, b: Seq<char>)
    ensures
        to_ascii(a + b) == to_ascii(a) + to_ascii(b),
{
    assert(to_ascii(a + b) =~= to_ascii(a) + to_ascii(b));
}

proof fn lemma_to_ascii_plain(s: Seq<char>)
    requires
        no_box_chars(s),
    ensures
        to_ascii(s) == s,
{
    assert(to_ascii(s) =~= s);
}

proof fn lemma_to_ascii_join(lines: Seq<Seq<char>>, sep: Seq<char>)
    requires
        forall|i: int| 0 <= i < lines.len() ==> no_box_chars(#[trigger] lines[i]),
    ensures
        to_ascii(join(lines, sep)) == join(lines, to_ascii(sep)),
    decreases lines.len(),
{
    if lines.len() == 0 {
        assert(to_ascii(seq![]) =~= Seq::<char>::empty());
    } else if lines.len() == 1 {
        assert(no_box_chars(lines[0]));
        lemma_to_ascii_plain(lines[0]);
    } else {
        let init = lines.drop_last();
        assert forall|i: int| 0 <= i < init.len() implies no_box_chars(#[trigger] init[i]) by {
            assert(init[i] == lines[i]);
        }
        lemma_to_ascii_join(init, sep);
        assert(no_box_chars(lines[lines.len() - 1]));
        lemma_to_ascii_plain(lines.last());
        lemma_to_ascii_concat(join(init, sep) + sep, lines.last());
        lemma_to_ascii_concat(join(init, sep), sep);
    }
}

proof fn lemma_split_lines_plain(s: Seq<char>)
    requires
        no_box_chars(s),
    ensures
        forall|i: int| 0 <= i < split_lines(s).len() ==> no_box_chars(#[trigger] split_lines(s)[i]),
    decreases s.len(),
{
    if s.len() > 0 {
        lemma_newline_index_props(s);
        let i = newline_index(s);
        if i < s.len() {
            let rest = s.skip((i + 1) as int);
            assert forall|j: int| 0 <= j < rest.len() implies !is_box_char(#[trigger] rest[j]) by {
                assert(rest[j] == s[j + i + 1]);
            }
            lemma_split_lines_plain(rest);
            let line = strip_cr(s.take(i as int));
            assert forall|j: int| 0 <= j < line.len() implies !is_box_char(#[trigger] line[j]) by {
                assert(line[j] == s[j]);
            }
            assert forall|k: int| 0 <= k < split_lines(s).len() implies no_box_chars(#[trigger] split_lines(s)[k]) by {
                if k > 0 {
                    assert(split_lines(s)[k] == split_lines(rest)[k - 1]);
                } else {
                    assert(split_lines(s)[0] == line);
                }
            }
        } else {
            assert(split_lines(s)[0] == s);
        }
    }
}

proof fn lemma_archy_to_ascii(n: NodeView, p: Seq<char>)
    requires
        tree_plain(n),
    ensures
        archy_text(n, to_ascii(p), false) == to_ascii(archy_text(n, p, true)),
    decreases n, n.nodes.len() + 1,
{
    let q = to_ascii(p);
    let suf_t = if n.nodes.len() > 0 { glyph(bar(), true) } else { ' ' };
    let suf_f = if n.nodes.len() > 0 { glyph(bar(), false) } else { ' ' };
    let sep_t = seq!['\n'] + p + seq![suf_t, ' '];
    let sep_f = seq!['\n'] + q + seq![suf_f, ' '];
    lemma_to_ascii_concat(seq!['\n'] + p, seq![suf_t, ' ']);
    lemma_to_ascii_concat(seq!['\n'], p);
    assert(to_ascii(seq!['\n']) =~= seq!['\n']);
    assert(to_ascii(seq![suf_t, ' ']) =~= seq![suf_f, ' ']);
    assert(to_ascii(sep_t) == sep_f);
    lemma_split_lines_plain(n.label);
    lemma_to_ascii_join(split_lines(n.label), sep_t);
    let lines = split_lines(n.label);
    let ch = children_text(n, p, true, n.nodes.len());
    lemma_to_ascii_concat(p, join(lines, sep_t));
    lemma_to_ascii_concat(p + join(lines, sep_t), seq!['\n']);
    lemma_to_ascii_concat(p + join(lines, sep_t) + seq!['\n'], ch);
    lemma_children_to_ascii(n, p, n.nodes.len());
}

proof fn lemma_children_to_ascii(n: NodeView, p: Seq<char>, k: nat)
    requires
        tree_plain(n),
    ensures
        children_text(n, to_ascii(p), false, k) == to_ascii(children_text(n, p, true, k)),
    decreases n, k,
{
    if k > 0 {
        lemma_children_to_ascii(n, p, (k - 1) as nat);
        lemma_child_to_ascii(n, p, (k - 1) as nat);
        lemma_to_ascii_concat(children_text(n, p, true, (k - 1) as nat), child_text(n, p, true, (k - 1) as nat));
    } else {
        assert(to_ascii(seq![]) =~= Seq::<char>::empty());
    }
}

proof fn lemma_child_to_ascii(n: NodeView, p: Seq<char>, i: nat)
    requires
        tree_plain(n),
    ensures
        child_text(n, to_ascii(p), false, i) == to_ascii(child_text(n, p, true, i)),
    decreases n, 0nat,
{
    let q = to_ascii(p);
    if i < n.nodes.len() {
        let c = n.nodes[i as int];
        lemma_nodes_plain(n, n.nodes.len(), i);
        let last = i == n.nodes.len() - 1;
        let more = c.nodes.len() > 0;
        let xs_t = seq![if last { ' ' } else { glyph(bar(), true) }, ' '];
        let xs_f = seq![if last { ' ' } else { glyph(bar(), false) }, ' '];
        lemma_to_ascii_concat(p, xs_t);
        assert(to_ascii(xs_t) =~= xs_f);
        lemma_archy_to_ascii(c, p + xs_t);
        let rt = archy_text(c, p + xs_t, true);
        let rf = archy_text(c, q + xs_f, false);
        assert(rf == to_ascii(rt));
        let w_t = seq![
            if last { glyph(corner(), true) } else { glyph(tee(), true) },
            glyph(dash(), true),
            if more { glyph(down_tee(), true) } else { glyph(dash(), true) },
            ' ',
        ];
        let w_f = seq![
            if last { glyph(corner(), false) } else { glyph(tee(), false) },
            glyph(dash(), false),
            if more { glyph(down_tee(), false) } else { glyph(dash(), false) },
            ' ',
        ];
        assert(to_ascii(w_t) =~= w_f);
        let skip = p.len() + 2;
        let tail_t = if skip <= rt.len() { rt.skip(skip as int) } else { seq![] };
        let tail_f = if skip <= rf.len() { rf.skip(skip as int) } else { seq![] };
        assert(to_ascii(tail_t) =~= tail_f);
        assert(child_text(n, p, true, i) == p + w_t + tail_t);
        assert(child_text(n, q, false, i) == q + w_f + tail_f);
        lemma_to_ascii_concat(p, w_t);
        lemma_to_ascii_concat(p + w_t, tail_t);
    } else {
        assert(to_ascii(seq![]) =~= Seq::<char>::empty());
    }
}

/// In ASCII mode (`unicode` off) a tree is drawn as it is drawn with box-drawing
/// characters, each of them replaced by its ASCII stand-in, where neither the labels
/// nor the prefix hold a box-drawing character of their own.
pub proof fn law_ascii_mode_replaces_box_chars(n: NodeView, prefix: Seq<char>)
    requires
        tree_plain(n),
        no_box_chars(prefix),
    ensures
        archy_text(n, prefix, false) == to_ascii(archy_text(n, prefix, true)),
{
    lemma_to_ascii_plain(prefix);
    lemma_archy_to_ascii(n, prefix);
}

proof fn lemma_lines_end(s: Seq<char>, p: Seq<char>)
    requires
        lines_begin_with(s, p),
        s.len() > 0,
    ensures
        s.last() == '\n',
    decreases s.len(),
{
    let i = newline_index(s);
    lemma_newline_index_props(s);
    let rest = s.skip((i + 1) as int);
    if rest.len() > 0 {
        lemma_lines_end(rest, p);
        assert(s.last() == rest.last());
    }
}

fn archy_chars(input: &Node, prefix: &Vec<char>, unicode: bool) -> (out: Vec<char>)
    ensures
        out@ == archy_text(input@, prefix@, unicode),
    decreases input, 1nat,
{
    proof {
        lemma_node_views(input.nodes@);
    }
    let ghost nv = input@;
    let label = chars_of(input.label.as_str());
    let lines = lines_of(&label);
    let n = input.nodes.len();
    let suf = if n > 0 { glyph_of('\u{2502}', unicode) } else { ' ' };
    let mut splitter: Vec<char> = Vec::new();
    splitter.push('\n');
    append_chars(&mut splitter, prefix);
    splitter.push(suf);
    splitter.push(' ');
    let mut out: Vec<char> = Vec::new();
    append_chars(&mut out, prefix);
    append_joined(&mut out, &lines, &splitter);
    out.push('\n');
    assert(splitter@ == seq!['\n'] + prefix@ + seq![suf, ' ']);
    let ghost head = out@;
    for ix in 0..n
        invariant
            n == input.nodes@.len(),
            nv == input@,
            nv.nodes.len() == n,
            out@ == head + children_text(nv, prefix@, unicode, ix as nat),
    {
        let line = child_chars(input, ix, prefix, unicode);
        append_chars(&mut out, &line);
    }
    out
}

fn child_chars(input: &Node, ix: usize, prefix: &Vec<char>, unicode: bool) -> (out: Vec<char>)
    requires
        ix < input.nodes@.len(),
    ensures
        out@ == child_text(input@, prefix@, unicode, ix as nat),
    decreases input, 0nat,
{
    proof {
        lemma_node_views(input.nodes@);
    }
    let n = input.nodes.len();
    let child = &input.nodes[ix];
    let last = ix == n - 1;
    let more = child.nodes.len() > 0;
    proof {
        lemma_node_views(child.nodes@);
    }
    let mut deeper: Vec<char> = Vec::new();
    append_chars(&mut deeper, prefix);
    deeper.push(if last { ' ' } else { glyph_of('\u{2502}', unicode) });
    deeper.push(' ');
    let rendered = archy_chars(child, &deeper, unicode);
    let skip = deeper.len();
    let mut out: Vec<char> = Vec::new();
    append_chars(&mut out, prefix);
    out.push(if last { glyph_of('\u{2514}', unicode) } else { glyph_of('\u{251C}', unicode) });
    out.push(glyph_of('\u{2500}', unicode));
    out.push(if more { glyph_of('\u{252C}', unicode) } else { glyph_of('\u{2500}', unicode) });
    out.push(' ');
    let ghost head = out@;
    if skip <= rendered.len() {
        let mut k: usize = skip;
        while k < rendered.len()
            invariant
                skip <= k <= rendered.len(),
                out@ == head + rendered@.subrange(skip as int, k as int),
            decreases rendered.len() - k,
        {
            out.push(rendered[k]);
            k = k + 1;
        }
        assert(rendered@.subrange(skip as int, rendered@.len() as int) == rendered@.skip(skip as int));
    }
    assert(deeper@ == prefix@ + seq![if last { ' ' } else { glyph(bar(), unicode) }, ' ']);
    out
}

/// Renders `input` as a tree, every line starting with `prefix`.
pub fn archy(input: &Node, prefix: &str, opts: &ArchyOpts) -> (s: String)
    ensures
        s@ == archy_text(input@, prefix@, opts.unicode),
{
    let p = chars_of(prefix);
    let out = archy_chars(input, &p, opts.unicode);
    string_of(&out)
}

} // verus!
