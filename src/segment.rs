//! Splitting the cleaned lines of a body into `@tag` segments.
use vstd::prelude::*;
use crate::{Comment, TagView};
use crate::assemble::{assemble, views_of};
use crate::lines::{body_lines, clean_line, clean_line_of, slice_of, split_body, split_lines, trim, trim_of};

verus! {

pub open spec fn param_word() -> Seq<char> {
    seq!['p', 'a', 'r', 'a', 'm']
}

pub open spec fn unknown_word() -> Seq<char> {
    seq!['u', 'n', 'k', 'n', 'o', 'w', 'n']
}

/// The index of the first `' '` in `l` at or after `i`, or the length of `l`.
pub open spec fn space_from(l: Seq<char>, i: int) -> int
    decreases l.len() - i,
{
    if i >= l.len() {
        l.len() as int
    } else if l[i] == ' ' {
        i
    } else {
        space_from(l, i + 1)
    }
}

pub proof fn lemma_space_from_bounds(l: Seq<char>, i: int)
    requires
        0 <= i,
    ensures
        i <= l.len() ==> i <= space_from(l, i) <= l.len(),
        space_from(l, i) < l.len() ==> l[space_from(l, i)] == ' ',
    decreases l.len() - i,
{
    if i < l.len() && l[i] != ' ' {
        lemma_space_from_bounds(l, i + 1);
    }
}

/// The index of the first `' '` in `l`, or the length of `l`.
pub open spec fn first_space(l: Seq<char>) -> int {
    space_from(l, 0)
}

pub open spec fn is_tag_line(l: Seq<char>) -> bool {
    l.len() > 0 && l[0] == '@'
}

/// A `@` line with no space, or with a space right after the `@`.
pub open spec fn is_malformed_tag(l: Seq<char>) -> bool {
    is_tag_line(l) && (first_space(l) == l.len() || first_space(l) == 1)
}

/// The tag name and the first content line that a well-formed `@` line opens.
pub open spec fn opened_tag(l: Seq<char>) -> (Seq<char>, Seq<char>) {
    let sp = first_space(l);
    let name = l.subrange(1, sp);
    let rest = trim(l.subrange(sp + 1, l.len() as int));
    if name == param_word() {
        let q = first_space(rest);
        if q < rest.len() {
            (
                param_word() + seq![':'] + rest.subrange(0, q),
                trim(rest.subrange(q + 1, rest.len() as int)),
            )
        } else {
            (param_word() + seq![':'] + unknown_word(), rest)
        }
    } else {
        (name, rest)
    }
}

/// The state of the segmenter: the entries committed so far and the open segment.
pub struct Segments {
    pub done: Seq<TagView>,
    pub tag: Seq<char>,
    pub lines: Seq<Seq<char>>,
}

/// The segmenter's state after one more cleaned line.
pub open spec fn step(st: Segments, l: Seq<char>) -> Segments {
    if is_malformed_tag(l) {
        st
    } else if is_tag_line(l) {
        Segments {
            done: st.done + assemble(st.tag, st.lines),
            tag: opened_tag(l).0,
            lines: seq![opened_tag(l).1],
        }
    } else {
        Segments { lines: st.lines.push(l), ..st }
    }
}

/// The segmenter's state after the first `k` lines of `ls`.
pub open spec fn segments_upto(ls: Seq<Seq<char>>, k: nat) -> Segments
    decreases k,
{
    if k == 0 || k > ls.len() {
        Segments {
            done: Seq::<TagView>::empty(),
            tag: Seq::<char>::empty(),
            lines: Seq::<Seq<char>>::empty(),
        }
    } else {
        step(segments_upto(ls, (k - 1) as nat), ls[k - 1])
    }
}

/// The entries that the cleaned lines `ls` commit, the last segment included.
pub open spec fn segment_tags(ls: Seq<Seq<char>>) -> Seq<TagView> {
    let st = segments_upto(ls, ls.len());
    st.done + assemble(st.tag, st.lines)
}

/// The entries that a comment body commits.
pub open spec fn body_tags(body: Seq<char>) -> Seq<TagView> {
    segment_tags(body_lines(body))
}

fn first_space_of(l: &Vec<char>) -> (r: usize)
    ensures
        r == first_space(l@),
        r <= l.len(),
{
    let mut i: usize = 0;
    while i < l.len() && l[i] != ' '
        invariant
            i <= l.len(),
            space_from(l@, i as int) == first_space(l@),
        decreases l.len() - i,
    {
        i = i + 1;
    }
    i
}

fn word_of(w: &str) -> (r: Vec<char>)
    ensures
        r@ == w@,
{
    crate::text::chars_of(w)
}

fn same_chars(a: &Vec<char>, b: &Vec<char>) -> (r: bool)
    ensures
        r == (a@ == b@),
{
    if a.len() != b.len() {
        return false;
    }
    let mut i: usize = 0;
    while i < a.len()
        invariant
            a.len() == b.len(),
            i <= a.len(),
            forall|j: int| 0 <= j < i ==> a@[j] == b@[j],
        decreases a.len() - i,
    {
        if a[i] != b[i] {
            return false;
        }
        i = i + 1;
    }
    assert(a@ =~= b@);
    true
}

/// The tag name and first content line of a well-formed `@` line.
fn open_tag_of(l: &Vec<char>) -> (r: (Vec<char>, Vec<char>))
    requires
        is_tag_line(l@),
        !is_malformed_tag(l@),
    ensures
        (r.0@, r.1@) == opened_tag(l@),
{
    let sp = first_space_of(l);
    proof {
        lemma_space_from_bounds(l@, 0);
        lemma_space_from_bounds(l@, 1);
    }
    let name = slice_of(l, 1, sp);
    let after = slice_of(l, sp + 1, l.len());
    let rest = trim_of(&after);
    let param = word_of("param");
    proof {
        reveal_strlit("param");
        assert(param@ =~= param_word());
    }
    if same_chars(&name, &param) {
        let q = first_space_of(&rest);
        let mut tag = param;
        tag.push(':');
        if q < rest.len() {
            let word = slice_of(&rest, 0, q);
            crate::text::extend_chars(&mut tag, &word);
            let tail = slice_of(&rest, q + 1, rest.len());
            let first = trim_of(&tail);
            assert(tag@ =~= param_word() + seq![':'] + rest@.subrange(0, q as int));
            (tag, first)
        } else {
            let unknown = word_of("unknown");
            proof {
                reveal_strlit("unknown");
                assert(unknown@ =~= unknown_word());
            }
            crate::text::extend_chars(&mut tag, &unknown);
            assert(tag@ =~= param_word() + seq![':'] + unknown_word());
            (tag, rest)
        }
    } else {
        (name, rest)
    }
}

impl Comment {
    /// Cleans and segments the body `t[start..end]`, committing each segment.
    pub fn parse_lines(&mut self, t: &Vec<char>, start: usize, end: usize)
        requires
            start <= end <= t.len(),
            old(self).brief_consistent(),
        ensures
            final(self).brief_consistent(),
            final(self)@.tags == old(self)@.tags + body_tags(t@.subrange(start as int, end as int)),
    {
        let raw = split_body(t, start, end);
        let ghost body = t@.subrange(start as int, end as int);
        let ghost ls = body_lines(body);
        let ghost before = self@.tags;
        let mut tag: Vec<char> = Vec::new();
        let mut cur: Vec<Vec<char>> = Vec::new();
        let mut k: usize = 0;
        assert(views_of(cur@) =~= Seq::<Seq<char>>::empty());
        assert(before + segments_upto(ls, 0).done =~= before);
        while k < raw.len()
            invariant
                k <= raw.len(),
                raw@.map_values(|l: Vec<char>| l@) == split_lines(body),
                ls == body_lines(body),
                ls.len() == raw.len(),
                self.brief_consistent(),
                self@.tags == before + segments_upto(ls, k as nat).done,
                tag@ == segments_upto(ls, k as nat).tag,
                views_of(cur@) == segments_upto(ls, k as nat).lines,
            decreases raw.len() - k,
        {
            let ghost st = segments_upto(ls, k as nat);
            assert(raw@.map_values(|l: Vec<char>| l@)[k as int] == raw@[k as int]@);
            let line = clean_line_of(&raw[k]);
            assert(line@ == ls[k as int]);
            assert(segments_upto(ls, (k + 1) as nat) == step(st, line@));
            if line.len() > 0 && line[0] == '@' {
                let sp = first_space_of(&line);
                if sp == line.len() || sp == 1 {
                } else {
                    let opened = open_tag_of(&line);
                    let (next_tag, first) = opened;
                    let done_tag = tag;
                    let done_lines = cur;
                    self.push_block(done_tag, done_lines);
                    tag = next_tag;
                    cur = Vec::new();
                    cur.push(first);
                    assert(views_of(cur@) =~= seq![opened_tag(line@).1]);
                    assert(self@.tags =~= before + segments_upto(ls, (k + 1) as nat).done);
                }
            } else {
                cur.push(line);
                assert(views_of(cur@) =~= st.lines.push(ls[k as int]));
            }
            k = k + 1;
        }
        self.push_block(tag, cur);
        assert(self@.tags =~= before + body_tags(body));
    }
}

} // verus!
