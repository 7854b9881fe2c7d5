//! Splitting a comment body into lines and stripping each line's decoration.
use vstd::prelude::*;
use crate::text::{is_space, is_space_char};

verus! {

/// The pieces of `s` between `'\n'` characters; an empty `s` gives one empty line.
pub open spec fn split_lines(s: Seq<char>) -> Seq<Seq<char>>
    decreases s.len(),
{
    if s.len() == 0 {
        seq![Seq::<char>::empty()]
    } else {
        let prev = split_lines(s.drop_last());
        if s.last() == '\n' {
            prev.push(Seq::<char>::empty())
        } else {
            prev.update(prev.len() - 1, prev.last().push(s.last()))
        }
    }
}

/// `s` without its leading whitespace.
pub open spec fn trim_start(s: Seq<char>) -> Seq<char>
    decreases s.len(),
{
    if s.len() > 0 && is_space(s[0]) {
        trim_start(s.drop_first())
    } else {
        s
    }
}

/// `s` without its trailing whitespace.
pub open spec fn trim_end(s: Seq<char>) -> Seq<char>
    decreases s.len(),
{
    if s.len() > 0 && is_space(s.last()) {
        trim_end(s.drop_last())
    } else {
        s
    }
}

/// `s` without whitespace at either end.
pub open spec fn trim(s: Seq<char>) -> Seq<char> {
    trim_end(trim_start(s))
}

/// `s` without its leading run of `c`.
pub open spec fn strip_leading(s: Seq<char>, c: char) -> Seq<char>
    decreases s.len(),
{
    if s.len() > 0 && s[0] == c {
        strip_leading(s.drop_first(), c)
    } else {
        s
    }
}

/// Whether `s` holds a space, a vertical tab and a tab in a row at `i`.
pub open spec fn artifact_at(s: Seq<char>, i: int) -> bool {
    0 <= i && i + 3 <= s.len() && s[i] == ' ' && s[i + 1] == '\x0B' && s[i + 2] == '\t'
}

/// `s` with every space, vertical tab, tab sequence removed, scanning left to right.
pub open spec fn remove_artifacts(s: Seq<char>) -> Seq<char>
    decreases s.len(),
{
    if s.len() == 0 {
        s
    } else if artifact_at(s, 0) {
        remove_artifacts(s.subrange(3, s.len() as int))
    } else {
        seq![s[0]] + remove_artifacts(s.drop_first())
    }
}

pub open spec fn tab_as_space(c: char) -> char {
    if c == '\t' {
        ' '
    } else {
        c
    }
}

/// `s` with each tab replaced by one space.
pub open spec fn tabs_to_spaces(s: Seq<char>) -> Seq<char> {
    s.map_values(|c: char| tab_as_space(c))
}

/// `s` without its leading slashes, where it starts with `//`.
pub open spec fn strip_comment_slashes(s: Seq<char>) -> Seq<char> {
    if s.len() >= 2 && s[0] == '/' && s[1] == '/' {
        strip_leading(s, '/')
    } else {
        s
    }
}

/// One body line with its decoration removed: indentation, leading `*` and `<`
/// markers, tab artifacts, residual `//` markers and surrounding whitespace.
pub open spec fn clean_line(l: Seq<char>) -> Seq<char> {
    let a = strip_leading(strip_leading(trim_start(l), '*'), '<');
    trim(strip_comment_slashes(tabs_to_spaces(remove_artifacts(a))))
}

/// The lines of `body`, each one cleaned.
pub open spec fn body_lines(body: Seq<char>) -> Seq<Seq<char>> {
    split_lines(body).map_values(|l: Seq<char>| clean_line(l))
}

/// The lines of `t[start..end]`.
pub fn split_body(t: &Vec<char>, start: usize, end: usize) -> (r: Vec<Vec<char>>)
    requires
        start <= end <= t.len(),
    ensures
        r@.map_values(|l: Vec<char>| l@) == split_lines(t@.subrange(start as int, end as int)),
{
    let mut lines: Vec<Vec<char>> = Vec::new();
    let mut cur: Vec<char> = Vec::new();
    let mut i: usize = start;
    assert(t@.subrange(start as int, start as int) =~= Seq::<char>::empty());
    assert(lines@.map_values(|l: Vec<char>| l@).push(cur@) =~= seq![Seq::<char>::empty()]);
    while i < end
        invariant
            start <= i <= end <= t.len(),
            lines@.map_values(|l: Vec<char>| l@).push(cur@) == split_lines(
                t@.subrange(start as int, i as int),
            ),
        decreases end - i,
    {
        let ghost prev = lines@.map_values(|l: Vec<char>| l@).push(cur@);
        let ghost sub = t@.subrange(start as int, i as int + 1);
        assert(sub.drop_last() =~= t@.subrange(start as int, i as int));
        if t[i] == '\n' {
            let done = cur;
            lines.push(done);
            cur = Vec::new();
            assert(lines@.map_values(|l: Vec<char>| l@).push(cur@) =~= prev.push(
                Seq::<char>::empty(),
            ));
        } else {
            cur.push(t[i]);
            assert(lines@.map_values(|l: Vec<char>| l@).push(cur@) =~= prev.update(
                prev.len() - 1,
                prev.last().push(t@[i as int]),
            ));
        }
        i = i + 1;
    }
    lines.push(cur);
    assert(lines@.map_values(|l: Vec<char>| l@) =~= split_lines(
        t@.subrange(start as int, end as int),
    ));
    lines
}

/// `s[from..]`.
fn tail_from(s: &Vec<char>, from: usize) -> (r: Vec<char>)
    requires
        from <= s.len(),
    ensures
        r@ == s@.subrange(from as int, s.len() as int),
{
    slice_of(s, from, s.len())
}

/// `s[from..to]`.
pub fn slice_of(s: &Vec<char>, from: usize, to: usize) -> (r: Vec<char>)
    requires
        from <= to <= s.len(),
    ensures
        r@ == s@.subrange(from as int, to as int),
{
    let mut r: Vec<char> = Vec::new();
    let mut i: usize = from;
    while i < to
        invariant
            from <= i <= to <= s.len(),
            r@ == s@.subrange(from as int, i as int),
        decreases to - i,
    {
        r.push(s[i]);
        i = i + 1;
        assert(r@ =~= s@.subrange(from as int, i as int));
    }
    r
}

pub fn trim_start_of(s: &Vec<char>) -> (r: Vec<char>)
    ensures
        r@ == trim_start(s@),
{
    let mut i: usize = 0;
    assert(s@.subrange(0, s.len() as int) =~= s@);
    while i < s.len() && is_space_char(s[i])
        invariant
            i <= s.len(),
            trim_start(s@.subrange(i as int, s.len() as int)) == trim_start(s@),
        decreases s.len() - i,
    {
        assert(s@.subrange(i as int, s.len() as int).drop_first() =~= s@.subrange(
            i as int + 1,
            s.len() as int,
        ));
        i = i + 1;
    }
    tail_from(s, i)
}

pub fn trim_end_of(s: &Vec<char>) -> (r: Vec<char>)
    ensures
        r@ == trim_end(s@),
{
    let mut k: usize = s.len();
    assert(s@.subrange(0, s.len() as int) =~= s@);
    while k > 0 && is_space_char(s[k - 1])
        invariant
            k <= s.len(),
            trim_end(s@.subrange(0, k as int)) == trim_end(s@),
        decreases k,
    {
        assert(s@.subrange(0, k as int).drop_last() =~= s@.subrange(0, k as int - 1));
        k = k - 1;
    }
    slice_of(s, 0, k)
}

pub fn trim_of(s: &Vec<char>) -> (r: Vec<char>)
    ensures
        r@ == trim(s@),
{
    let a = trim_start_of(s);
    trim_end_of(&a)
}

pub fn strip_leading_of(s: &Vec<char>, c: char) -> (r: Vec<char>)
    ensures
        r@ == strip_leading(s@, c),
{
    let mut i: usize = 0;
    assert(s@.subrange(0, s.len() as int) =~= s@);
    while i < s.len() && s[i] == c
        invariant
            i <= s.len(),
            strip_leading(s@.subrange(i as int, s.len() as int), c) == strip_leading(s@, c),
        decreases s.len() - i,
    {
        assert(s@.subrange(i as int, s.len() as int).drop_first() =~= s@.subrange(
            i as int + 1,
            s.len() as int,
        ));
        i = i + 1;
    }
    tail_from(s, i)
}

pub fn remove_artifacts_of(s: &Vec<char>) -> (r: Vec<char>)
    ensures
        r@ == remove_artifacts(s@),
{
    let mut r: Vec<char> = Vec::new();
    let mut i: usize = 0;
    let n = s.len();
    assert(s@.subrange(0, n as int) =~= s@);
    assert(r@ + remove_artifacts(s@) =~= remove_artifacts(s@));
    while i < n
        invariant
            n == s.len(),
            i <= n,
            r@ + remove_artifacts(s@.subrange(i as int, n as int)) == remove_artifacts(s@),
        decreases n - i,
    {
        let ghost rest = s@.subrange(i as int, n as int);
        if n - i >= 3 && s[i] == ' ' && s[i + 1] == '\x0B' && s[i + 2] == '\t' {
            assert(artifact_at(rest, 0));
            assert(rest.subrange(3, rest.len() as int) =~= s@.subrange(i + 3, n as int));
            i = i + 3;
        } else {
            assert(!artifact_at(rest, 0));
            assert(rest.drop_first() =~= s@.subrange(i + 1, n as int));
            r.push(s[i]);
            i = i + 1;
        }
        assert(r@ + remove_artifacts(s@.subrange(i as int, n as int)) =~= remove_artifacts(s@));
    }
    assert(s@.subrange(n as int, n as int) =~= Seq::<char>::empty());
    assert(r@ =~= r@ + remove_artifacts(s@.subrange(n as int, n as int)));
    r
}

pub fn tabs_to_spaces_of(s: &Vec<char>) -> (r: Vec<char>)
    ensures
        r@ == tabs_to_spaces(s@),
{
    let mut r: Vec<char> = Vec::new();
    let mut i: usize = 0;
    while i < s.len()
        invariant
            i <= s.len(),
            r@ == tabs_to_spaces(s@.subrange(0, i as int)),
        decreases s.len() - i,
    {
        if s[i] == '\t' {
            r.push(' ');
        } else {
            r.push(s[i]);
        }
        i = i + 1;
        assert(r@ =~= tabs_to_spaces(s@.subrange(0, i as int)));
    }
    assert(s@.subrange(0, s.len() as int) =~= s@);
    r
}

pub fn strip_comment_slashes_of(s: &Vec<char>) -> (r: Vec<char>)
    ensures
        r@ == strip_comment_slashes(s@),
{
    if s.len() >= 2 && s[0] == '/' && s[1] == '/' {
        strip_leading_of(s, '/')
    } else {
        slice_of(s, 0, s.len())
    }
}

/// Removes the decoration of one body line.
pub fn clean_line_of(l: &Vec<char>) -> (r: Vec<char>)
    ensures
        r@ == clean_line(l@),
{
    let a = trim_start_of(l);
    let b = strip_leading_of(&a, '*');
    let c = strip_leading_of(&b, '<');
    let d = remove_artifacts_of(&c);
    let e = tabs_to_spaces_of(&d);
    let f = strip_comment_slashes_of(&e);
    trim_of(&f)
}

} // verus!
