//! Rewriting every line ending to a single `'\n'`.
use vstd::prelude::*;

verus! {

/// `s` with each `"\r\n"` pair, and then each remaining `'\r'`, replaced by `'\n'`.
pub open spec fn unify_newlines(s: Seq<char>) -> Seq<char>
    decreases s.len(),
{
    if s.len() == 0 {
        s
    } else if s[0] == '\r' && s.len() >= 2 && s[1] == '\n' {
        seq!['\n'] + unify_newlines(s.subrange(2, s.len() as int))
    } else if s[0] == '\r' {
        seq!['\n'] + unify_newlines(s.drop_first())
    } else {
        seq![s[0]] + unify_newlines(s.drop_first())
    }
}

pub open spec fn has_no_cr(s: Seq<char>) -> bool {
    forall|i: int| 0 <= i < s.len() ==> s[i] != '\r'
}

pub proof fn lemma_unify_has_no_cr(s: Seq<char>)
    ensures
        has_no_cr(unify_newlines(s)),
    decreases s.len(),
{
    if s.len() > 0 {
        if s[0] == '\r' && s.len() >= 2 && s[1] == '\n' {
            lemma_unify_has_no_cr(s.subrange(2, s.len() as int));
        } else {
            lemma_unify_has_no_cr(s.drop_first());
        }
        let r = unify_newlines(s);
        assert forall|i: int| 0 <= i < r.len() implies r[i] != '\r' by {
            if i > 0 {
                if s[0] == '\r' && s.len() >= 2 && s[1] == '\n' {
                    assert(r[i] == unify_newlines(s.subrange(2, s.len() as int))[i - 1]);
                } else {
                    assert(r[i] == unify_newlines(s.drop_first())[i - 1]);
                }
            }
        }
    }
}

pub proof fn lemma_unify_without_cr(s: Seq<char>)
    requires
        has_no_cr(s),
    ensures
        unify_newlines(s) == s,
    decreases s.len(),
{
    if s.len() > 0 {
        assert(has_no_cr(s.drop_first()));
        lemma_unify_without_cr(s.drop_first());
        assert(unify_newlines(s) =~= s);
    }
}

/// Normalising line endings twice gives what normalising once gives.
pub proof fn lemma_unify_newlines_idempotent(s: Seq<char>)
    ensures
        unify_newlines(unify_newlines(s)) == unify_newlines(s),
{
    lemma_unify_has_no_cr(s);
    lemma_unify_without_cr(unify_newlines(s));
}

/// Replaces `"\r\n"` and then every lone `'\r'` by `'\n'`.
pub fn normalize_newlines(s: &Vec<char>) -> (r: Vec<char>)
    ensures
        r@ == unify_newlines(s@),
{
    let mut r: Vec<char> = Vec::new();
    let mut i: usize = 0;
    assert(s@.subrange(0, s.len() as int) =~= s@);
    assert(r@ + unify_newlines(s@) =~= unify_newlines(s@));
    while i < s.len()
        invariant
            i <= s.len(),
            r@ + unify_newlines(s@.subrange(i as int, s.len() as int)) == unify_newlines(s@),
        decreases s.len() - i,
    {
        let ghost rest = s@.subrange(i as int, s.len() as int);
        if s[i] == '\r' && i + 1 < s.len() && s[i + 1] == '\n' {
            assert(rest.subrange(2, rest.len() as int) =~= s@.subrange(i + 2, s.len() as int));
            r.push('\n');
            i = i + 2;
        } else {
            assert(rest.drop_first() =~= s@.subrange(i + 1, s.len() as int));
            if s[i] == '\r' {
                r.push('\n');
            } else {
                r.push(s[i]);
            }
            i = i + 1;
        }
        assert(r@ + unify_newlines(s@.subrange(i as int, s.len() as int)) =~= unify_newlines(s@));
    }
    assert(s@.subrange(s.len() as int, s.len() as int) =~= Seq::<char>::empty());
    assert(r@ =~= r@ + unify_newlines(s@.subrange(s.len() as int, s.len() as int)));
    r
}

} // verus!
