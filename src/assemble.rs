//! Committing a finished segment into a [`Comment`].
use vstd::prelude::*;
use crate::{Comment, Tag, TagView};
use crate::text::{append_chars, extend_chars, push_char, string_of};

verus! {

pub open spec fn brief_word() -> Seq<char> {
    seq!['b', 'r', 'i', 'e', 'f']
}

/// Whether text under `tag` belongs to the brief.
pub open spec fn is_brief_tag(tag: Seq<char>) -> bool {
    tag.len() == 0 || tag == brief_word()
}

/// `brief` extended by `text`, with a line break between them when `brief` is not empty.
pub open spec fn append_brief(brief: Seq<char>, text: Seq<char>) -> Seq<char> {
    if brief.len() == 0 {
        text
    } else {
        brief + seq!['\n'] + text
    }
}

/// The brief that the entries `tags` add up to, in order.
pub open spec fn brief_of(tags: Seq<TagView>) -> Seq<char>
    decreases tags.len(),
{
    if tags.len() == 0 {
        Seq::<char>::empty()
    } else {
        let b = brief_of(tags.drop_last());
        if is_brief_tag(tags.last().tag) {
            append_brief(b, tags.last().text)
        } else {
            b
        }
    }
}

/// The lines joined with `'\n'` between each two.
pub open spec fn join_lines(ls: Seq<Seq<char>>) -> Seq<char>
    decreases ls.len(),
{
    if ls.len() == 0 {
        Seq::<char>::empty()
    } else if ls.len() == 1 {
        ls[0]
    } else {
        join_lines(ls.drop_last()) + seq!['\n'] + ls.last()
    }
}

/// `ls` without a trailing empty line and then without a leading one.
pub open spec fn trim_blank_ends(ls: Seq<Seq<char>>) -> Seq<Seq<char>> {
    let a = if ls.len() > 0 && ls.last().len() == 0 {
        ls.drop_last()
    } else {
        ls
    };
    if a.len() > 0 && a[0].len() == 0 {
        a.drop_first()
    } else {
        a
    }
}

/// The entries that a segment under `tag` with `lines` commits: none where no
/// line is left after trimming, else one.
pub open spec fn assemble(tag: Seq<char>, lines: Seq<Seq<char>>) -> Seq<TagView> {
    let kept = trim_blank_ends(lines);
    if kept.len() == 0 {
        Seq::<TagView>::empty()
    } else {
        seq![TagView { tag: tag, text: join_lines(kept) }]
    }
}

pub open spec fn views_of(ls: Seq<Vec<char>>) -> Seq<Seq<char>> {
    ls.map_values(|l: Vec<char>| l@)
}

fn is_brief_name(tag: &Vec<char>) -> (r: bool)
    ensures
        r == is_brief_tag(tag@),
{
    if tag.len() == 0 {
        return true;
    }
    let r = tag.len() == 5 && tag[0] == 'b' && tag[1] == 'r' && tag[2] == 'i' && tag[3] == 'e'
        && tag[4] == 'f';
    proof {
        if r {
            assert(tag@ =~= brief_word());
        } else if tag@ == brief_word() {
            assert(tag@[0] == 'b' && tag@[1] == 'r' && tag@[2] == 'i' && tag@[3] == 'e'
                && tag@[4] == 'f');
        }
    }
    r
}

/// The lines joined with `'\n'`.
fn join_of(ls: &Vec<Vec<char>>) -> (r: Vec<char>)
    ensures
        r@ == join_lines(views_of(ls@)),
{
    let mut r: Vec<char> = Vec::new();
    if ls.len() == 0 {
        return r;
    }
    extend_chars(&mut r, &ls[0]);
    let mut i: usize = 1;
    assert(views_of(ls@).subrange(0, 1).drop_last() =~= Seq::<Seq<char>>::empty());
    while i < ls.len()
        invariant
            1 <= i <= ls.len(),
            r@ == join_lines(views_of(ls@).subrange(0, i as int)),
        decreases ls.len() - i,
    {
        r.push('\n');
        extend_chars(&mut r, &ls[i]);
        i = i + 1;
        assert(views_of(ls@).subrange(0, i as int).drop_last() =~= views_of(ls@).subrange(
            0,
            i - 1,
        ));
        assert(r@ =~= join_lines(views_of(ls@).subrange(0, i as int)));
    }
    assert(views_of(ls@).subrange(0, ls.len() as int) =~= views_of(ls@));
    r
}

impl Comment {
    /// Whether `brief` is what the entries add up to.
    pub open spec fn brief_consistent(&self) -> bool {
        self.brief@ == brief_of(self@.tags)
    }

    /// Commits one finished segment: trims a blank line at each end, joins the
    /// rest, adds it to the brief where the tag is a brief tag, and appends the entry.
    pub fn push_block(&mut self, tag: Vec<char>, lines: Vec<Vec<char>>)
        requires
            old(self).brief_consistent(),
        ensures
            final(self).brief_consistent(),
            final(self)@.tags == old(self)@.tags + assemble(tag@, views_of(lines@)),
    {
        let ghost all = views_of(lines@);
        let mut lines = lines;
        if lines.len() > 0 && lines[lines.len() - 1].len() == 0 {
            lines.pop();
            assert(views_of(lines@) =~= all.drop_last());
        }
        let ghost mid = views_of(lines@);
        if lines.len() > 0 && lines[0].len() == 0 {
            lines.remove(0);
            assert(views_of(lines@) =~= mid.drop_first());
        }
        assert(views_of(lines@) == trim_blank_ends(all));
        if lines.len() == 0 {
            assert(self@.tags + assemble(tag@, all) =~= self@.tags);
            return;
        }
        let text = join_of(&lines);
        let ghost old_brief = self.brief@;
        if is_brief_name(&tag) {
            if !self.brief.as_str().is_empty() {
                push_char(&mut self.brief, '\n');
                assert(old_brief.push('\n') =~= old_brief + seq!['\n']);
            }
            append_chars(&mut self.brief, &text);
            assert(self.brief@ == append_brief(old_brief, text@));
        }
        let ghost before = self@.tags;
        let entry = Tag { tag: string_of(&tag), text: string_of(&text) };
        self.tags.push(entry);
        assert(self@.tags =~= before + assemble(tag@, all));
        assert(self@.tags.drop_last() =~= before);
        assert(self@.tags.last() == TagView { tag: tag@, text: text@ });
    }
}

} // verus!
