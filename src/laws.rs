//! Properties of the whole parse, stated over the spec model and proved.
use vstd::prelude::*;
use crate::TagView;
use crate::assemble::{assemble, brief_of, join_lines, trim_blank_ends};
use crate::lines::{body_lines, trim, trim_end, trim_start};
use crate::text::is_space;
use crate::newline::{lemma_unify_without_cr, unify_newlines};
use crate::scanner::{block_len, closes_at, comment_bodies, parsed, tags_of_bodies};
use crate::segment::{
    body_tags, first_space, is_tag_line, param_word, segment_tags, segments_upto, space_from,
    unknown_word, Segments,
};

verus! {

/// Whether `a` immediately followed by `b` stands at `i` in `s`.
pub open spec fn pair_at(s: Seq<char>, i: int, a: char, b: char) -> bool {
    0 <= i && i + 1 < s.len() && s[i] == a && s[i + 1] == b
}

/// Whether `a` immediately followed by `b` occurs in `s`.
pub open spec fn has_pair(s: Seq<char>, a: char, b: char) -> bool {
    exists|i: int| #[trigger] pair_at(s, i, a, b)
}

/// Whether `s` holds a comment opener, `/*` or `//`.
pub open spec fn has_opener(s: Seq<char>) -> bool {
    has_pair(s, '/', '*') || has_pair(s, '/', '/')
}

proof fn lemma_pair_in_tail(s: Seq<char>, k: int, a: char, b: char)
    requires
        0 <= k <= s.len(),
        !has_pair(s, a, b),
    ensures
        !has_pair(s.subrange(k, s.len() as int), a, b),
{
    let r = s.subrange(k, s.len() as int);
    if has_pair(r, a, b) {
        let j = choose|j: int| pair_at(r, j, a, b);
        assert(pair_at(s, j + k, a, b));
    }
}

/// Normalising line endings creates no pair of characters that are not line breaks.
proof fn lemma_unify_keeps_no_pair(s: Seq<char>, a: char, b: char)
    requires
        a != '\r' && a != '\n' && b != '\r' && b != '\n',
        !has_pair(s, a, b),
    ensures
        !has_pair(unify_newlines(s), a, b),
    decreases s.len(),
{
    if s.len() > 0 {
        let k: int = if s[0] == '\r' && s.len() >= 2 && s[1] == '\n' {
            2
        } else {
            1
        };
        let r = s.subrange(k, s.len() as int);
        assert(s.drop_first() =~= s.subrange(1, s.len() as int));
        lemma_pair_in_tail(s, k, a, b);
        lemma_unify_keeps_no_pair(r, a, b);
        let out = unify_newlines(s);
        assert(out == seq![out[0]] + unify_newlines(r));
        if has_pair(out, a, b) {
            let i = choose|i: int| pair_at(out, i, a, b);
            if i == 0 {
                assert(s[0] == a);
                assert(k == 1);
                assert(r.len() > 0);
                assert(unify_newlines(r)[0] == b);
                assert(r[0] == b);
                assert(pair_at(s, 0, a, b));
            } else {
                assert(pair_at(unify_newlines(r), i - 1, a, b));
            }
        }
    }
}

proof fn lemma_no_opener_no_bodies(t: Seq<char>, i: nat)
    requires
        !has_opener(t),
    ensures
        comment_bodies(t, i) == Seq::<Seq<char>>::empty(),
    decreases t.len() - i,
{
    if i + 1 < t.len() {
        assert(!pair_at(t, i as int, '/', '*'));
        assert(!pair_at(t, i as int, '/', '/'));
        lemma_no_opener_no_bodies(t, i + 1);
    }
}

/// A text with no `/*` and no `//` gives an empty brief and no entries.
pub proof fn law_no_opener_gives_empty_record(s: Seq<char>)
    requires
        !has_opener(s),
    ensures
        parsed(s).brief == Seq::<char>::empty(),
        parsed(s).tags == Seq::<TagView>::empty(),
{
    let t = unify_newlines(s);
    if has_pair(s, '/', '*') {
    } else {
        lemma_unify_keeps_no_pair(s, '/', '*');
    }
    if has_pair(s, '/', '/') {
    } else {
        lemma_unify_keeps_no_pair(s, '/', '/');
    }
    lemma_no_opener_no_bodies(t, 0);
}

/// Normalising a concatenation normalises each part, unless a `'\r'` ending the
/// first part pairs with a `'\n'` starting the second.
pub proof fn lemma_unify_concat(a: Seq<char>, b: Seq<char>)
    requires
        !(a.len() > 0 && a.last() == '\r' && b.len() > 0 && b[0] == '\n'),
    ensures
        unify_newlines(a + b) == unify_newlines(a) + unify_newlines(b),
    decreases a.len(),
{
    if a.len() == 0 {
        assert(a + b =~= b);
        assert(unify_newlines(a) + unify_newlines(b) =~= unify_newlines(b));
    } else if a[0] == '\r' && a.len() >= 2 && a[1] == '\n' {
        let a2 = a.subrange(2, a.len() as int);
        assert((a + b).subrange(2, (a + b).len() as int) =~= a2 + b);
        lemma_unify_concat(a2, b);
        assert(unify_newlines(a + b) =~= unify_newlines(a) + unify_newlines(b));
    } else if a[0] == '\r' && a.len() == 1 {
        assert((a + b).drop_first() =~= b);
        assert(a.drop_first() =~= Seq::<char>::empty());
        assert(unify_newlines(a + b) =~= unify_newlines(a) + unify_newlines(b));
    } else {
        let a1 = a.drop_first();
        assert((a + b).drop_first() =~= a1 + b);
        lemma_unify_concat(a1, b);
        assert(unify_newlines(a + b) =~= unify_newlines(a) + unify_newlines(b));
    }
}

proof fn lemma_block_len_to_close(t: Seq<char>, u: Seq<char>, p: nat)
    requires
        t == seq!['/', '*'] + u + seq!['*', '/'],
        !has_pair(u, '*', '/'),
        2 <= p <= u.len() + 2,
    ensures
        p + block_len(t, p) == u.len() + 2,
    decreases u.len() + 2 - p,
{
    if p < u.len() + 2 {
        if closes_at(t, p as int) {
            if p < u.len() + 1 {
                assert(pair_at(u, p - 2, '*', '/'));
            } else {
                assert(t[p + 1 as int] == '*');
            }
        }
        lemma_block_len_to_close(t, u, p + 1);
    } else {
        assert(closes_at(t, p as int));
    }
}

proof fn lemma_untagged_segments(ls: Seq<Seq<char>>, k: nat)
    requires
        k <= ls.len(),
        forall|i: int| 0 <= i < ls.len() ==> !is_tag_line(#[trigger] ls[i]),
    ensures
        segments_upto(ls, k) == (Segments {
            done: Seq::<TagView>::empty(),
            tag: Seq::<char>::empty(),
            lines: ls.subrange(0, k as int),
        }),
    decreases k,
{
    if k == 0 {
        assert(ls.subrange(0, 0) =~= Seq::<Seq<char>>::empty());
    } else {
        lemma_untagged_segments(ls, (k - 1) as nat);
        assert(!is_tag_line(ls[k - 1]));
        assert(ls.subrange(0, k - 1).push(ls[k - 1]) =~= ls.subrange(0, k as int));
    }
}

/// A closed block comment whose body has content and no `@` line gives one
/// untagged entry that holds every body line, and a brief equal to its text.
pub proof fn law_untagged_block_is_brief(body: Seq<char>)
    requires
        !has_pair(body, '*', '/'),
        forall|i: int|
            0 <= i < body_lines(unify_newlines(body)).len() ==> !is_tag_line(
                #[trigger] body_lines(unify_newlines(body))[i],
            ),
        trim_blank_ends(body_lines(unify_newlines(body))).len() > 0,
    ensures
        ({
            let c = parsed(seq!['/', '*'] + body + seq!['*', '/']);
            &&& c.tags.len() == 1
            &&& c.tags[0].tag == Seq::<char>::empty()
            &&& c.tags[0].text == c.brief
            &&& c.brief == join_lines(trim_blank_ends(body_lines(unify_newlines(body))))
        }),
{
    let open = seq!['/', '*'];
    let close = seq!['*', '/'];
    let s = open + body + close;
    let u = unify_newlines(body);
    lemma_unify_concat(open + body, close);
    lemma_unify_concat(open, body);
    lemma_unify_without_cr(open);
    lemma_unify_without_cr(close);
    let t = open + u + close;
    assert(unify_newlines(s) == t);
    lemma_unify_keeps_no_pair(body, '*', '/');
    lemma_block_len_to_close(t, u, 2);
    assert(closes_at(t, u.len() + 2 as int));
    assert(t.subrange(2, u.len() + 2 as int) =~= u);
    assert(comment_bodies(t, t.len()) == Seq::<Seq<char>>::empty());
    assert(comment_bodies(t, 0) =~= seq![u]);
    assert(seq![u].drop_last() =~= Seq::<Seq<char>>::empty());
    assert(tags_of_bodies(Seq::<Seq<char>>::empty()) == Seq::<TagView>::empty());
    assert(tags_of_bodies(seq![u]) =~= body_tags(u));
    let ls = body_lines(u);
    lemma_untagged_segments(ls, ls.len());
    assert(ls.subrange(0, ls.len() as int) =~= ls);
    let tags = body_tags(u);
    assert(tags =~= assemble(Seq::<char>::empty(), ls));
    assert(tags.drop_last() =~= Seq::<TagView>::empty());
    assert(brief_of(Seq::<TagView>::empty()) == Seq::<char>::empty());
    assert(brief_of(tags) == tags[0].text);
}

pub proof fn lemma_join_concat(a: Seq<Seq<char>>, b: Seq<Seq<char>>)
    requires
        a.len() > 0,
        b.len() > 0,
    ensures
        join_lines(a + b) == join_lines(a) + seq!['\n'] + join_lines(b),
    decreases b.len(),
{
    assert((a + b).drop_last() =~= a + b.drop_last());
    if b.len() == 1 {
        assert(a + b.drop_last() =~= a);
    } else {
        lemma_join_concat(a, b.drop_last());
        assert(join_lines(a + b) =~= join_lines(a) + seq!['\n'] + join_lines(b));
    }
}

/// Of a segment's lines, one blank line at the end and one at the start are
/// dropped, and a blank line between two paragraphs stays in the text.
pub proof fn law_blank_line_trimming(tag: Seq<char>, above: Seq<Seq<char>>, below: Seq<Seq<char>>)
    requires
        above.len() > 0,
        below.len() > 0,
    ensures
        assemble(tag, seq![Seq::<char>::empty()] + above + seq![Seq::<char>::empty()] + below + seq![
            Seq::<char>::empty(),
        ]) == seq![
            TagView { tag: tag, text: join_lines(above) + seq!['\n', '\n'] + join_lines(below) },
        ],
{
    let e = Seq::<char>::empty();
    let ls = seq![e] + above + seq![e] + below + seq![e];
    let mid = above + seq![e] + below;
    assert(ls.drop_last() =~= seq![e] + mid);
    assert((seq![e] + mid).drop_first() =~= mid);
    assert(trim_blank_ends(ls) == mid);
    lemma_join_concat(above + seq![e], below);
    lemma_join_concat(above, seq![e]);
    assert(join_lines(seq![e]) == e);
    assert(join_lines(mid) =~= join_lines(above) + seq!['\n', '\n'] + join_lines(below));
}

/// Whether no character of `s` is whitespace.
pub open spec fn is_word(s: Seq<char>) -> bool {
    forall|i: int| 0 <= i < s.len() ==> !is_space(#[trigger] s[i])
}

proof fn lemma_space_from_at(l: Seq<char>, i: int, k: int)
    requires
        0 <= i <= k <= l.len(),
        forall|j: int| i <= j < k ==> l[j] != ' ',
        k == l.len() || l[k] == ' ',
    ensures
        space_from(l, i) == k,
    decreases k - i,
{
    if i < k {
        lemma_space_from_at(l, i + 1, k);
    }
}

pub open spec fn at_param() -> Seq<char> {
    seq!['@'] + param_word() + seq![' ']
}

proof fn lemma_single_line_tags(l: Seq<char>, tag: Seq<char>, first: Seq<char>)
    requires
        is_tag_line(l),
        first_space(l) != 1 && first_space(l) != l.len(),
        crate::segment::opened_tag(l) == (tag, first),
        first.len() > 0,
    ensures
        segment_tags(seq![l]) == seq![TagView { tag: tag, text: first }],
{
    let ls = seq![l];
    assert(segments_upto(ls, 0).lines == Seq::<Seq<char>>::empty());
    assert(segments_upto(ls, 1) == crate::segment::step(segments_upto(ls, 0), l));
    assert(assemble(Seq::<char>::empty(), Seq::<Seq<char>>::empty()) =~= Seq::<TagView>::empty());
    assert(trim_blank_ends(seq![first]) =~= seq![first]);
    assert(segment_tags(ls) =~= seq![TagView { tag: tag, text: first }]);
}

proof fn lemma_param_prefix(l: Seq<char>, tail: Seq<char>)
    requires
        l == at_param() + tail,
        tail.len() > 0,
        !is_space(tail[0]),
    ensures
        is_tag_line(l),
        first_space(l) == 6,
        l.subrange(1, 6) == param_word(),
        l.subrange(7, l.len() as int) == tail,
{
    assert forall|j: int| 0 <= j < 6 implies l[j] != ' ' by {
        assert(l[j] == at_param()[j]);
    }
    lemma_space_from_at(l, 0, 6);
    assert(l.subrange(1, 6) =~= param_word());
    assert(l.subrange(7, l.len() as int) =~= tail);
}

/// `@param` followed by one word and nothing more opens a `param:unknown`
/// entry whose text is that word.
pub proof fn law_param_without_text(w: Seq<char>)
    requires
        w.len() > 0,
        is_word(w),
    ensures
        segment_tags(seq![at_param() + w]) == seq![
            TagView { tag: param_word() + seq![':'] + unknown_word(), text: w },
        ],
{
    let l = at_param() + w;
    lemma_param_prefix(l, w);
    assert(trim_start(w) == w);
    assert(trim_end(w) == w);
    lemma_space_from_at(w, 0, w.len() as int);
    lemma_single_line_tags(l, param_word() + seq![':'] + unknown_word(), w);
}

proof fn lemma_trim_end_split(d: Seq<char>)
    ensures
        trim_end(d).len() <= d.len(),
        d == trim_end(d) + d.subrange(trim_end(d).len() as int, d.len() as int),
        forall|i: int| trim_end(d).len() <= i < d.len() ==> is_space(#[trigger] d[i]),
        trim_end(d).len() > 0 ==> !is_space(trim_end(d).last()),
    decreases d.len(),
{
    if d.len() > 0 && is_space(d.last()) {
        let p = d.drop_last();
        lemma_trim_end_split(p);
        let te = trim_end(d);
        assert(te == trim_end(p));
        assert forall|i: int| te.len() <= i < d.len() implies is_space(#[trigger] d[i]) by {
            if i < p.len() {
                assert(d[i] == p[i]);
            }
        }
        assert forall|i: int| 0 <= i < te.len() implies d[i] == te[i] by {
            assert(d[i] == p[i]);
            assert(p[i] == (te + p.subrange(te.len() as int, p.len() as int))[i]);
        }
        assert(d =~= te + d.subrange(te.len() as int, d.len() as int));
    } else {
        assert(d =~= trim_end(d) + d.subrange(trim_end(d).len() as int, d.len() as int));
    }
}

proof fn lemma_trim_start_concat(x: Seq<char>, y: Seq<char>, k: int)
    requires
        0 <= k < x.len(),
        !is_space(x[k]),
    ensures
        trim_start(x + y) == trim_start(x) + y,
    decreases x.len(),
{
    if is_space(x[0]) {
        assert((x + y).drop_first() =~= x.drop_first() + y);
        lemma_trim_start_concat(x.drop_first(), y, k - 1);
    } else {
        assert((x + y)[0] == x[0]);
    }
}

proof fn lemma_trim_start_nonspace(x: Seq<char>, k: int)
    requires
        0 <= k < x.len(),
        !is_space(x[k]),
    ensures
        trim_start(x).len() > 0,
        !is_space(trim_start(x)[0]),
    decreases x.len(),
{
    if is_space(x[0]) {
        lemma_trim_start_nonspace(x.drop_first(), k - 1);
    }
}

proof fn lemma_trim_end_spaces(x: Seq<char>, sp: Seq<char>)
    requires
        forall|i: int| 0 <= i < sp.len() ==> is_space(#[trigger] sp[i]),
    ensures
        trim_end(x + sp) == trim_end(x),
    decreases sp.len(),
{
    if sp.len() == 0 {
        assert(x + sp =~= x);
    } else {
        assert((x + sp).drop_last() =~= x + sp.drop_last());
        lemma_trim_end_spaces(x, sp.drop_last());
    }
}

proof fn lemma_trim_end_concat(x: Seq<char>, y: Seq<char>)
    requires
        trim_end(y).len() > 0,
    ensures
        trim_end(x + y) == x + trim_end(y),
    decreases y.len(),
{
    if is_space(y.last()) {
        assert((x + y).drop_last() =~= x + y.drop_last());
        lemma_trim_end_concat(x, y.drop_last());
    } else {
        assert((x + y).last() == y.last());
    }
}

/// Trimming what is already trimmed at the end trims the same.
proof fn lemma_trim_of_trim_end(d: Seq<char>)
    requires
        trim_end(d).len() > 0,
    ensures
        trim(trim_end(d)) == trim(d),
{
    let te = trim_end(d);
    let sp = d.subrange(te.len() as int, d.len() as int);
    lemma_trim_end_split(d);
    assert forall|i: int| 0 <= i < sp.len() implies is_space(#[trigger] sp[i]) by {
        assert(sp[i] == d[i + te.len()]);
    }
    lemma_trim_start_concat(te, sp, te.len() - 1);
    let ts = trim_start(te);
    lemma_trim_end_spaces(ts, sp);
}

/// `@param`, a name and a description open a `param:<name>` entry whose text is
/// the description without surrounding whitespace.
pub proof fn law_param_with_text(name: Seq<char>, desc: Seq<char>, k: int)
    requires
        name.len() > 0,
        is_word(name),
        0 <= k < desc.len(),
        !is_space(desc[k]),
    ensures
        segment_tags(seq![at_param() + name + seq![' '] + desc]) == seq![
            TagView { tag: param_word() + seq![':'] + name, text: trim(desc) },
        ],
{
    let tail = name + seq![' '] + desc;
    let l = at_param() + tail;
    assert(l == at_param() + name + seq![' '] + desc);
    lemma_param_prefix(l, tail);
    lemma_trim_end_split(desc);
    if trim_end(desc).len() == 0 {
        assert(is_space(desc[k]));
    }
    assert(tail[0] == name[0]);
    assert(trim_start(tail) == tail);
    lemma_trim_end_concat(name + seq![' '], desc);
    let rest = name + seq![' '] + trim_end(desc);
    assert(trim(tail) == rest);
    assert forall|j: int| 0 <= j < name.len() implies rest[j] != ' ' by {
        assert(rest[j] == name[j]);
    }
    lemma_space_from_at(rest, 0, name.len() as int);
    assert(rest.subrange(0, name.len() as int) =~= name);
    assert(rest.subrange(name.len() + 1 as int, rest.len() as int) =~= trim_end(desc));
    lemma_trim_of_trim_end(desc);
    lemma_trim_start_nonspace(desc, k);
    let ts = trim_start(desc);
    lemma_trim_end_split(ts);
    if trim_end(ts).len() == 0 {
        assert(is_space(ts[0]));
    }
    lemma_single_line_tags(l, param_word() + seq![':'] + name, trim(desc));
}

} // verus!
