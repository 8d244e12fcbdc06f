//! A strict order on names: lexicographic by character.
use vstd::prelude::*;
use crate::extract::names;
use crate::decl::strs_view;
use crate::text::chars_of;

verus! {

/// `a` comes before `b`: at the first character where they differ the one of `a`
/// is smaller, or `a` is a proper prefix of `b`.
pub open spec fn lex_lt(a: Seq<char>, b: Seq<char>) -> bool
    decreases a.len(),
{
    if a.len() == 0 {
        b.len() > 0
    } else if b.len() == 0 {
        false
    } else if a[0] != b[0] {
        a[0] < b[0]
    } else {
        lex_lt(a.drop_first(), b.drop_first())
    }
}

/// Each name comes before every later one: sorted, with no name twice.
pub open spec fn sorted_strict(s: Seq<Seq<char>>) -> bool {
    forall|i: int, j: int| 0 <= i < j < s.len() ==> lex_lt(#[trigger] s[i], #[trigger] s[j])
}

pub proof fn lemma_lex_irreflexive(a: Seq<char>)
    ensures
        !lex_lt(a, a),
    decreases a.len(),
{
    if a.len() > 0 {
        lemma_lex_irreflexive(a.drop_first());
    }
}

pub proof fn lemma_lex_total(a: Seq<char>, b: Seq<char>)
    requires
        a != b,
    ensures
        lex_lt(a, b) || lex_lt(b, a),
    decreases a.len(),
{
    if a.len() > 0 && b.len() > 0 && a[0] == b[0] {
        if a.drop_first() == b.drop_first() {
            assert(a =~= seq![a[0]] + a.drop_first());
            assert(b =~= seq![b[0]] + b.drop_first());
        }
        lemma_lex_total(a.drop_first(), b.drop_first());
    } else if a.len() == 0 && b.len() == 0 {
        assert(a =~= b);
}
}

pub proof fn lemma_lex_transitive(a: Seq<char>, b: Seq<char>, c: Seq<char>)
    requires
        lex_lt(a, b),
        lex_lt(b, c),
    ensures
        lex_lt(a, c),
    decreases a.len(),
{
    if a.len() > 0 && b.len() > 0 && c.len() > 0 && a[0] == b[0] && b[0] == c[0] {
        lemma_lex_transitive(a.drop_first(), b.drop_first(), c.drop_first());
    }
}

/// Whether name `a` comes before name `b`.
pub fn name_lt(a: &String, b: &String) -> (r: bool)
    ensures
        r == lex_lt(a@, b@),
{
    let va = chars_of(a.as_str());
    let vb = chars_of(b.as_str());
    let la = va.len();
    let lb = vb.len();
    let mut i: usize = 0;
    assert(va@.subrange(0, la as int) =~= va@);
    assert(vb@.subrange(0, lb as int) =~= vb@);
    while i < la && i < lb && va[i] == vb[i]
        invariant
            i <= la == va@.len(),
            i <= lb == vb@.len(),
            lex_lt(va@, vb@) == lex_lt(va@.subrange(i as int, la as int), vb@.subrange(i as int, lb as int)),
        decreases la - i,
    {
        assert(va@.subrange(i as int, la as int).drop_first() =~= va@.subrange(i + 1, la as int));
        assert(vb@.subrange(i as int, lb as int).drop_first() =~= vb@.subrange(i + 1, lb as int));
        assert(va@.subrange(i as int, la as int)[0] == va@[i as int]);
        assert(vb@.subrange(i as int, lb as int)[0] == vb@[i as int]);
        i = i + 1;
    }
    if i == la {
        i < lb
    } else if i == lb {
        false
    } else {
        assert(va@.subrange(i as int, la as int)[0] == va@[i as int]);
        assert(vb@.subrange(i as int, lb as int)[0] == vb@[i as int]);
        va[i] < vb[i]
    }
}

/// Puts a new name into a sorted list at its place.
pub fn insert_sorted(out: &mut Vec<String>, x: String)
    requires
        sorted_strict(strs_view(old(out)@)),
        !names(old(out)@).contains(x@),
    ensures
        sorted_strict(strs_view(final(out)@)),
        names(final(out)@) == names(old(out)@).insert(x@),
{
    let ghost s = strs_view(out@);
    let ghost xv = x@;
    let n = out.len();
    let mut p: usize = 0;
    while p < n && name_lt(&out[p], &x)
        invariant
            p <= n == out@.len(),
            s == strs_view(out@),
            xv == x@,
            forall|i: int| 0 <= i < p ==> lex_lt(#[trigger] s[i], xv),
        decreases n - p,
    {
        p = p + 1;
    }
    if p < n {
        assert(s[p as int] != xv) by {
            if s[p as int] == xv {
                assert(names(out@).contains(xv)) by {
                    assert(out@[p as int]@ == xv);
                }
            }
        }
        proof {
            lemma_lex_total(s[p as int], xv);
            assert forall|j: int| p <= j < n implies lex_lt(xv, #[trigger] s[j]) by {
                if j > p {
                    lemma_lex_transitive(xv, s[p as int], s[j]);
                }
            }
        }
    }
    let ghost before = out@;
    out.insert(p, x);
    let ghost t = strs_view(out@);
    assert(t =~= s.insert(p as int, xv));
    assert forall|i: int, j: int| 0 <= i < j < t.len() implies lex_lt(#[trigger] t[i], #[trigger] t[j]) by {
        if j < p {
        } else if j == p {
        } else if i < p {
            assert(t[j] == s[j - 1]);
            assert(t[i] == s[i]);
        } else if i == p {
            assert(t[j] == s[j - 1]);
        } else {
            assert(t[j] == s[j - 1]);
            assert(t[i] == s[i - 1]);
        }
    }
    assert(names(out@) =~= names(before).insert(xv)) by {
        assert forall|y: Seq<char>| names(out@).contains(y) implies names(before).insert(xv).contains(y) by {
            let i = choose|i: int| 0 <= i < out@.len() && out@[i]@ == y;
            if i < p {
                assert(out@[i] == before[i]);
            } else if i > p {
                assert(out@[i] == before[i - 1]);
            }
        }
        assert forall|y: Seq<char>| names(before).insert(xv).contains(y) implies names(out@).contains(y) by {
            if y == xv {
                assert(out@[p as int]@ == xv);
            } else {
                let i = choose|i: int| 0 <= i < before.len() && before[i]@ == y;
                if i < p {
                    assert(out@[i] == before[i]);
                } else {
                    assert(out@[i + 1] == before[i]);
                }
            }
        }
    }
}

} // verus!
