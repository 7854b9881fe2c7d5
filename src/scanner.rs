//! Finding comment delimiters and the extent of each comment body.
use vstd::prelude::*;
use crate::{Comment, CommentView, TagView};
use crate::assemble::brief_of;
use crate::newline::{normalize_newlines, unify_newlines};
use crate::segment::body_tags;
use crate::text::{chars_of, is_space, is_space_char};

verus! {

/// Whether `*/` starts at `p`.
pub open spec fn closes_at(t: Seq<char>, p: int) -> bool {
    0 <= p && p + 1 < t.len() && t[p] == '*' && t[p + 1] == '/'
}

/// How many characters from `p` on come before the first `*/`, or before the end.
pub open spec fn block_len(t: Seq<char>, p: nat) -> nat
    decreases t.len() - p,
{
    if p >= t.len() || closes_at(t, p as int) {
        0
    } else {
        1 + block_len(t, p + 1)
    }
}

/// The first index at or after `i` that holds a line break or a non-whitespace
/// character, or the length of `t`.
pub open spec fn first_nonblank(t: Seq<char>, i: nat) -> nat
    decreases t.len() - i,
{
    if i < t.len() && t[i as int] != '\n' && is_space(t[i as int]) {
        first_nonblank(t, i + 1)
    } else if i < t.len() {
        i
    } else {
        t.len()
    }
}

/// Whether `t[p]` is a line break and the line after it ends a run of `//`
/// lines: its first non-whitespace character exists and does not start `//`.
pub open spec fn breaks_run(t: Seq<char>, p: nat) -> bool {
    p < t.len() && t[p as int] == '\n' && {
        let j = first_nonblank(t, p + 1);
        j < t.len() && t[j as int] != '\n' && !(t[j as int] == '/' && j + 1 < t.len() && t[j + 1 as int]
            == '/')
    }
}

/// How many characters from `p` on belong to the run of `//` lines.
pub open spec fn run_len(t: Seq<char>, p: nat) -> nat
    decreases t.len() - p,
{
    if p >= t.len() || breaks_run(t, p) {
        0
    } else {
        1 + run_len(t, p + 1)
    }
}

/// The bodies of the comments that a scan of `t` from `i` meets, in order.
pub open spec fn comment_bodies(t: Seq<char>, i: nat) -> Seq<Seq<char>>
    decreases t.len() - i,
{
    if i + 1 >= t.len() {
        Seq::<Seq<char>>::empty()
    } else if t[i as int] == '/' && t[i + 1 as int] == '*' {
        let s = (i + 2) as nat;
        let e = (s + block_len(t, s)) as nat;
        let next = if closes_at(t, e as int) {
            (e + 2) as nat
        } else {
            t.len()
        };
        seq![t.subrange(s as int, e as int)] + comment_bodies(t, next)
    } else if t[i as int] == '/' && t[i + 1 as int] == '/' {
        let s = (i + 2) as nat;
        let e = (s + run_len(t, s)) as nat;
        let next = if e < t.len() {
            (e + 1) as nat
        } else {
            t.len()
        };
        seq![t.subrange(s as int, e as int)] + comment_bodies(t, next)
    } else {
        comment_bodies(t, i + 1)
    }
}

/// The entries that the bodies `bs` commit, in order.
pub open spec fn tags_of_bodies(bs: Seq<Seq<char>>) -> Seq<TagView>
    decreases bs.len(),
{
    if bs.len() == 0 {
        Seq::<TagView>::empty()
    } else {
        tags_of_bodies(bs.drop_last()) + body_tags(bs.last())
    }
}

/// The entries of every comment in `s`, after line endings are normalised.
pub open spec fn parsed_tags(s: Seq<char>) -> Seq<TagView> {
    tags_of_bodies(comment_bodies(unify_newlines(s), 0))
}

/// The record that parsing `s` gives.
pub open spec fn parsed(s: Seq<char>) -> CommentView {
    CommentView { brief: brief_of(parsed_tags(s)), tags: parsed_tags(s) }
}

pub proof fn lemma_block_len_bound(t: Seq<char>, p: nat)
    requires
        p <= t.len(),
    ensures
        p + block_len(t, p) <= t.len(),
    decreases t.len() - p,
{
    if p < t.len() && !closes_at(t, p as int) {
        lemma_block_len_bound(t, p + 1);
    }
}

pub proof fn lemma_run_len_bound(t: Seq<char>, p: nat)
    requires
        p <= t.len(),
    ensures
        p + run_len(t, p) <= t.len(),
    decreases t.len() - p,
{
    if p < t.len() && !breaks_run(t, p) {
        lemma_run_len_bound(t, p + 1);
    }
}

/// Where the body that starts at `s` after `/*` ends.
fn block_end(t: &Vec<char>, s: usize) -> (e: usize)
    requires
        s <= t.len(),
    ensures
        e == s + block_len(t@, s as nat),
        e <= t.len(),
{
    let mut p: usize = s;
    while p < t.len() && !(t[p] == '*' && p + 1 < t.len() && t[p + 1] == '/')
        invariant
            s <= p <= t.len(),
            s + block_len(t@, s as nat) == p + block_len(t@, p as nat),
        decreases t.len() - p,
    {
        p = p + 1;
    }
    p
}

fn first_nonblank_of(t: &Vec<char>, i: usize) -> (j: usize)
    requires
        i <= t.len(),
    ensures
        j == first_nonblank(t@, i as nat),
{
    let mut j: usize = i;
    while j < t.len() && t[j] != '\n' && is_space_char(t[j])
        invariant
            i <= j <= t.len(),
            first_nonblank(t@, j as nat) == first_nonblank(t@, i as nat),
        decreases t.len() - j,
    {
        j = j + 1;
    }
    j
}

fn breaks_run_at(t: &Vec<char>, p: usize) -> (r: bool)
    requires
        p < t.len(),
    ensures
        r == breaks_run(t@, p as nat),
{
    if t[p] != '\n' {
        return false;
    }
    let j = first_nonblank_of(t, p + 1);
    j < t.len() && t[j] != '\n' && !(t[j] == '/' && j + 1 < t.len() && t[j + 1] == '/')
}

/// Where the run of `//` lines whose body starts at `s` ends.
fn run_end(t: &Vec<char>, s: usize) -> (e: usize)
    requires
        s <= t.len(),
    ensures
        e == s + run_len(t@, s as nat),
        e <= t.len(),
{
    let mut p: usize = s;
    while p < t.len() && !breaks_run_at(t, p)
        invariant
            s <= p <= t.len(),
            s + run_len(t@, s as nat) == p + run_len(t@, p as nat),
        decreases t.len() - p,
    {
        p = p + 1;
    }
    p
}

impl Comment {
    /// Takes the body of a `/* ... */` comment that starts at `start`, just after
    /// `/*`, and returns where scanning resumes: after the closing `*/`, or at
    /// the end of `t` where the comment is not closed.
    pub fn parse_multi(&mut self, t: &Vec<char>, start: usize) -> (next: usize)
        requires
            start <= t.len(),
            old(self).brief_consistent(),
        ensures
            final(self).brief_consistent(),
            ({
                let e = start + block_len(t@, start as nat);
                &&& final(self)@.tags == old(self)@.tags + body_tags(t@.subrange(start as int, e))
                &&& next == if closes_at(t@, e) {
                    e + 2
                } else {
                    t@.len() as int
                }
            }),
    {
        let e = block_end(t, start);
        self.parse_lines(t, start, e);
        if t.len() - e > 1 && t[e] == '*' && t[e + 1] == '/' {
            e + 2
        } else {
            t.len()
        }
    }

    /// Takes the body of a run of `//` lines that starts at `start`, just after
    /// the first `//`, and returns where scanning resumes: at the start of the
    /// line that ended the run, or at the end of `t`.
    pub fn parse_single(&mut self, t: &Vec<char>, start: usize) -> (next: usize)
        requires
            start <= t.len(),
            old(self).brief_consistent(),
        ensures
            final(self).brief_consistent(),
            ({
                let e = start + run_len(t@, start as nat);
                &&& final(self)@.tags == old(self)@.tags + body_tags(t@.subrange(start as int, e))
                &&& next == if e < t.len() {
                    e + 1
                } else {
                    t@.len() as int
                }
            }),
    {
        let e = run_end(t, start);
        self.parse_lines(t, start, e);
        if e < t.len() {
            e + 1
        } else {
            t.len()
        }
    }

    /// Parses every documentation comment in the text that `data` converts to
    /// into one record.
    pub fn parse<T: Into<String>>(data: T) -> (c: Comment)
        ensures
            exists|s: String| call_ensures(<T as Into<String>>::into, (data,), s) && c@ == parsed(s@),
    {
        let s: String = data.into();
        Comment::parse_str(s.as_str())
    }

    /// Parses every documentation comment in `text` into one record.
    pub fn parse_str(text: &str) -> (c: Comment)
        ensures
            c@ == parsed(text@),
    {
        let raw = chars_of(text);
        let t = normalize_newlines(&raw);
        let mut c = Comment { brief: String::new(), tags: Vec::new() };
        let ghost mut done: Seq<Seq<char>> = Seq::empty();
        let mut i: usize = 0;
        assert(c@.tags =~= Seq::<TagView>::empty());
        assert(done + comment_bodies(t@, 0) =~= comment_bodies(t@, 0));
        while t.len() - i > 1
            invariant
                i <= t.len(),
                c.brief_consistent(),
                c@.tags == tags_of_bodies(done),
                done + comment_bodies(t@, i as nat) == comment_bodies(t@, 0),
            decreases t.len() - i,
        {
            if t[i] == '/' && t[i + 1] == '*' {
                proof {
                    lemma_block_len_bound(t@, (i + 2) as nat);
                }
                let ghost b = t@.subrange(i + 2, (i + 2 + block_len(t@, (i + 2) as nat)) as int);
                let next = c.parse_multi(&t, i + 2);
                proof {
                    assert(done.push(b).drop_last() =~= done);
                    assert(done.push(b) + comment_bodies(t@, next as nat) =~= done + comment_bodies(
                        t@,
                        i as nat,
                    ));
                    done = done.push(b);
                }
                i = next;
            } else if t[i] == '/' && t[i + 1] == '/' {
                proof {
                    lemma_run_len_bound(t@, (i + 2) as nat);
                }
                let ghost b = t@.subrange(i + 2, (i + 2 + run_len(t@, (i + 2) as nat)) as int);
                let next = c.parse_single(&t, i + 2);
                proof {
                    assert(done.push(b).drop_last() =~= done);
                    assert(done.push(b) + comment_bodies(t@, next as nat) =~= done + comment_bodies(
                        t@,
                        i as nat,
                    ));
                    done = done.push(b);
                }
                i = next;
            } else {
                i = i + 1;
            }
        }
        assert(done =~= comment_bodies(t@, 0));
        c
    }
}

} // verus!
