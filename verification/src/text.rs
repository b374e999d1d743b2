//! Character-level string helpers shared by the rendering and lookup code.
use vstd::prelude::*;

verus! {

broadcast use vstd::string::group_string_axioms;

/// Appends one character to a `String` (`String::push`).
#[verifier::external_body]
pub(crate) fn push_char(s: &mut String, c: char)
    ensures
        final(s)@ == old(s)@.push(c),
{
    s.push(c);
}

/// The characters of a string slice, in order.
pub fn chars_of(s: &str) -> (v: Vec<char>)
    ensures
        v@ == s@,
{
    let mut v: Vec<char> = Vec::new();
    for c in it: s.chars()
        invariant
            v@ == it.seq().take(it.index() as int),
    {
        v.push(c);
    }
    v
}

/// A `String` holding exactly the given characters.
pub fn string_of(v: &Vec<char>) -> (s: String)
    ensures
        s@ == v@,
{
    let mut s = String::new();
    for i in 0..v.len()
        invariant
            s@ == v@.take(i as int),
    {
        push_char(&mut s, v[i]);
        assert(v@.take(i + 1) == v@.take(i as int).push(v@[i as int]));
    }
    assert(v@.take(v.len() as int) == v@);
    s
}

/// Appends all characters of `src` to `out`.
pub fn append_chars(out: &mut Vec<char>, src: &Vec<char>)
    ensures
        final(out)@ == old(out)@ + src@,
{
    let ghost start = out@;
    for i in 0..src.len()
        invariant
            out@ == start + src@.take(i as int),
    {
        out.push(src[i]);
        assert(src@.take(i + 1) == src@.take(i as int).push(src@[i as int]));
    }
    assert(src@.take(src.len() as int) == src@);
}

/// Appends the characters of a string slice to `out`.
pub fn append_str(out: &mut Vec<char>, s: &str)
    ensures
        final(out)@ == old(out)@ + s@,
{
    let v = chars_of(s);
    append_chars(out, &v);
}

/// The decimal digit for `d`, where `d < 10`.
pub open spec fn digit_char(d: nat) -> char {
    if d == 0 {
        '0'
    } else if d == 1 {
        '1'
    } else if d == 2 {
        '2'
    } else if d == 3 {
        '3'
    } else if d == 4 {
        '4'
    } else if d == 5 {
        '5'
    } else if d == 6 {
        '6'
    } else if d == 7 {
        '7'
    } else if d == 8 {
        '8'
    } else {
        '9'
    }
}

/// The decimal notation of `n`, without leading zeros.
pub open spec fn decimal(n: nat) -> Seq<char>
    decreases n,
{
    if n < 10 {
        seq![digit_char(n)]
    } else {
        decimal(n / 10).push(digit_char(n % 10))
    }
}

fn digit_of(d: usize) -> (c: char)
    requires
        d < 10,
    ensures
        c == digit_char(d as nat),
{
    if d == 0 {
        '0'
    } else if d == 1 {
        '1'
    } else if d == 2 {
        '2'
    } else if d == 3 {
        '3'
    } else if d == 4 {
        '4'
    } else if d == 5 {
        '5'
    } else if d == 6 {
        '6'
    } else if d == 7 {
        '7'
    } else if d == 8 {
        '8'
    } else {
        '9'
    }
}

/// The decimal notation of `n`.
pub fn decimal_chars(n: usize) -> (v: Vec<char>)
    ensures
        v@ == decimal(n as nat),
    decreases n,
{
    if n < 10 {
        let mut v: Vec<char> = Vec::new();
        v.push(digit_of(n));
        v
    } else {
        let mut v = decimal_chars(n / 10);
        v.push(digit_of(n % 10));
        v
    }
}

/// Whether two character sequences are equal.
pub fn chars_equal(a: &Vec<char>, b: &Vec<char>) -> (r: bool)
    ensures
        r == (a@ == b@),
{
    if a.len() != b.len() {
        return false;
    }
    for i in 0..a.len()
        invariant
            a@.len() == b@.len(),
            forall|j: int| 0 <= j < i ==> a@[j] == b@[j],
    {
        if a[i] != b[i] {
            return false;
        }
    }
    assert(a@ == b@);
    true
}

/// Whether two string slices hold the same characters.
pub fn same_text(a: &str, b: &str) -> (r: bool)
    ensures
        r == (a@ == b@),
{
    let va = chars_of(a);
    let vb = chars_of(b);
    chars_equal(&va, &vb)
}

/// Index of the first `'\n'` in `s`, or `s.len()` when there is none.
pub open spec fn newline_index(s: Seq<char>) -> nat
    decreases s.len(),
{
    if s.len() == 0 {
        0
    } else if s[0] == '\n' {
        0
    } else {
        1 + newline_index(s.skip(1))
    }
}

/// A line without its terminating `'\r'`, if it has one.
pub open spec fn strip_cr(line: Seq<char>) -> Seq<char> {
    if line.len() > 0 && line.last() == '\r' {
        line.drop_last()
    } else {
        line
    }
}

/// The lines of a text, as `str::lines` documents them: lines end at `"\n"` or
/// `"\r\n"`, terminators are not part of the lines, and a final terminator is optional.
pub open spec fn split_lines(s: Seq<char>) -> Seq<Seq<char>>
    decreases s.len(),
{
    if s.len() == 0 {
        seq![]
    } else {
        let i = newline_index(s);
        if i >= s.len() {
            seq![s]
        } else {
            seq![strip_cr(s.take(i as int))] + split_lines(s.skip((i + 1) as int))
        }
    }
}

/// The pieces of `list` with `sep` between neighbours.
pub open spec fn join(list: Seq<Seq<char>>, sep: Seq<char>) -> Seq<char>
    decreases list.len(),
{
    if list.len() == 0 {
        seq![]
    } else if list.len() == 1 {
        list[0]
    } else {
        join(list.drop_last(), sep) + sep + list.last()
    }
}

proof fn lemma_newline_index(t: Seq<char>, k: int)
    requires
        0 <= k <= t.len(),
        forall|j: int| 0 <= j < k ==> t[j] != '\n',
        k < t.len() ==> t[k] == '\n',
    ensures
        newline_index(t) == k,
    decreases k,
{
    if k > 0 {
        lemma_newline_index(t.skip(1), k - 1);
    }
}

/// What `newline_index` gives: no `'\n'` before it, and a `'\n'` at it unless it is
/// the length.
pub proof fn lemma_newline_index_props(t: Seq<char>)
    ensures
        newline_index(t) <= t.len(),
        forall|j: int| 0 <= j < newline_index(t) ==> t[j] != '\n',
        newline_index(t) < t.len() ==> t[newline_index(t) as int] == '\n',
    decreases t.len(),
{
    if t.len() > 0 && t[0] != '\n' {
        lemma_newline_index_props(t.skip(1));
        assert forall|j: int| 0 <= j < newline_index(t) implies t[j] != '\n' by {
            if j > 0 {
                assert(t[j] == t.skip(1)[j - 1]);
            }
        }
    }
}

/// The first `'\n'` of `t` is found at `k` when none comes before and one is at `k`.
pub proof fn lemma_newline_at(t: Seq<char>, k: int)
    requires
        0 <= k <= t.len(),
        forall|j: int| 0 <= j < k ==> t[j] != '\n',
        k < t.len() ==> t[k] == '\n',
    ensures
        newline_index(t) == k,
{
    lemma_newline_index(t, k);
}

/// Whether `s` holds no `'\n'`.
pub open spec fn no_newline(s: Seq<char>) -> bool {
    forall|j: int| 0 <= j < s.len() ==> s[j] != '\n'
}

/// No line of `split_lines(s)` holds a `'\n'`.
pub proof fn lemma_split_lines_no_newline(s: Seq<char>)
    ensures
        forall|i: int| 0 <= i < split_lines(s).len() ==> no_newline(#[trigger] split_lines(s)[i]),
    decreases s.len(),
{
    if s.len() > 0 {
        lemma_newline_index_props(s);
        let i = newline_index(s);
        if i < s.len() {
            lemma_split_lines_no_newline(s.skip((i + 1) as int));
            let line = strip_cr(s.take(i as int));
            assert(no_newline(line));
            let rest = split_lines(s.skip((i + 1) as int));
            assert forall|k: int| 0 <= k < split_lines(s).len() implies no_newline(#[trigger] split_lines(s)[k]) by {
                if k > 0 {
                    assert(split_lines(s)[k] == rest[k - 1]);
                }
            }
        }
    }
}

/// Whether every character of `s` is ASCII.
pub open spec fn is_ascii_text(s: Seq<char>) -> bool {
    forall|j: int| 0 <= j < s.len() ==> (#[trigger] s[j] as int) < 128
}

/// Joining ASCII text keeps it ASCII.
pub proof fn lemma_ascii_concat(a: Seq<char>, b: Seq<char>)
    requires
        is_ascii_text(a),
        is_ascii_text(b),
    ensures
        is_ascii_text(a + b),
{
    assert forall|j: int| 0 <= j < (a + b).len() implies ((#[trigger] (a + b)[j]) as int) < 128 by {
        if j < a.len() {
            assert((a + b)[j] == a[j]);
        } else {
            assert((a + b)[j] == b[j - a.len()]);
        }
    }
}

/// The lines of ASCII text are ASCII.
pub proof fn lemma_split_lines_ascii(s: Seq<char>)
    requires
        is_ascii_text(s),
    ensures
        forall|i: int| 0 <= i < split_lines(s).len() ==> is_ascii_text(#[trigger] split_lines(s)[i]),
    decreases s.len(),
{
    if s.len() > 0 {
        lemma_newline_index_props(s);
        let i = newline_index(s);
        if i < s.len() {
            let rest = s.skip((i + 1) as int);
            assert forall|j: int| 0 <= j < rest.len() implies (#[trigger] rest[j] as int) < 128 by {
                assert(rest[j] == s[j + i + 1]);
            }
            lemma_split_lines_ascii(rest);
            let line = strip_cr(s.take(i as int));
            assert forall|j: int| 0 <= j < line.len() implies (#[trigger] line[j] as int) < 128 by {
                assert(line[j] == s[j]);
            }
            assert forall|k: int| 0 <= k < split_lines(s).len() implies is_ascii_text(#[trigger] split_lines(s)[k]) by {
                if k > 0 {
                    assert(split_lines(s)[k] == split_lines(rest)[k - 1]);
                } else {
                    assert(split_lines(s)[0] == line);
                }
            }
        }
    }
}

/// Joining ASCII pieces with an ASCII separator gives ASCII text.
pub proof fn lemma_join_ascii(list: Seq<Seq<char>>, sep: Seq<char>)
    requires
        is_ascii_text(sep),
        forall|i: int| 0 <= i < list.len() ==> is_ascii_text(#[trigger] list[i]),
    ensures
        is_ascii_text(join(list, sep)),
    decreases list.len(),
{
    if list.len() > 1 {
        let init = list.drop_last();
        assert forall|i: int| 0 <= i < init.len() implies is_ascii_text(#[trigger] init[i]) by {
            assert(init[i] == list[i]);
        }
        lemma_join_ascii(init, sep);
        assert(is_ascii_text(list[list.len() - 1]));
        lemma_ascii_concat(join(init, sep), sep);
        lemma_ascii_concat(join(init, sep) + sep, list.last());
    } else if list.len() == 1 {
        assert(is_ascii_text(list[0]));
    }
}

/// The lines of `s`, split as `split_lines` states.
pub fn lines_of(s: &Vec<char>) -> (out: Vec<Vec<char>>)
    ensures
        out@.map_values(|l: Vec<char>| l@) == split_lines(s@),
{
    let mut out: Vec<Vec<char>> = Vec::new();
    let mut cur: Vec<char> = Vec::new();
    let ghost mut start: int = 0;
    let n = s.len();
    assert(s@.skip(0) == s@);
    assert(out@.map_values(|l: Vec<char>| l@) == Seq::<Seq<char>>::empty());
    for i in 0..n
        invariant
            n == s@.len(),
            0 <= start <= i,
            cur@ == s@.subrange(start, i as int),
            forall|j: int| start <= j < i ==> s@[j] != '\n',
            split_lines(s@) == out@.map_values(|l: Vec<char>| l@) + split_lines(s@.skip(start)),
    {
        if s[i] == '\n' {
            let ghost t = s@.skip(start);
            proof {
                lemma_newline_index(t, i - start);
                assert(t.take(i - start) == cur@);
                assert(t.skip(i - start + 1) == s@.skip(i + 1));
            }
            let mut line = cur;
            if line.len() > 0 && line[line.len() - 1] == '\r' {
                line.pop();
            }
            assert(line@ == strip_cr(cur@));
            out.push(line);
            cur = Vec::new();
            proof {
                start = i + 1;
            }
        } else {
            cur.push(s[i]);
        }
    }
    let ghost t = s@.skip(start);
    if cur.len() > 0 {
        proof {
            lemma_newline_index(t, t.len() as int);
            assert(t == cur@);
        }
        out.push(cur);
    } else {
        assert(t.len() == 0);
    }
    out
}

/// Appends the pieces of `list`, separated by `sep`, to `out`.
pub fn append_joined(out: &mut Vec<char>, list: &Vec<Vec<char>>, sep: &Vec<char>)
    ensures
        final(out)@ == old(out)@ + join(list@.map_values(|l: Vec<char>| l@), sep@),
{
    let ghost start = out@;
    let ghost views = list@.map_values(|l: Vec<char>| l@);
    for i in 0..list.len()
        invariant
            views == list@.map_values(|l: Vec<char>| l@),
            out@ == start + join(views.take(i as int), sep@),
    {
        proof {
            assert(views.take(i + 1).drop_last() == views.take(i as int));
            assert(views.take(i + 1).last() == list@[i as int]@);
        }
        if i > 0 {
            append_chars(out, sep);
        } else {
            assert(views.take(1)[0] == list@[0]@);
        }
        append_chars(out, &list[i]);
    }
    assert(views.take(list.len() as int) == views);
}

} // verus!
