//! Properties of extraction that hold for every input.
use vstd::prelude::*;
use crate::decl::{DeclKind, DeclView};
use crate::extract::{decl_step, dep_set, extraction, first_dep, names, scan};
use crate::text::shown;
use crate::text::{
    dedent, dedent_line, dedent_lines, drop_blank_ends, is_blank, is_indent_char, join_lines,
    lead_blank, leading_indent, lines_of, min_indent, scan_lines, trail_blank,
};

verus! {

/// Order is kept: the fragments of the first `n` declarations are the first
/// fragments of the whole file, in the same order.
pub proof fn lemma_order_kept(
    ds: Seq<DeclView>,
    target: Seq<char>,
    deps: Option<Set<Seq<char>>>,
    n: int,
    m: int,
)
    requires
        0 <= n <= m <= ds.len(),
    ensures
        scan(ds, n, target, deps).0.len() <= scan(ds, m, target, deps).0.len(),
        scan(ds, m, target, deps).0.subrange(0, scan(ds, n, target, deps).0.len() as int)
            == scan(ds, n, target, deps).0,
    decreases m - n,
{
    let a = scan(ds, n, target, deps).0;
    if n == m {
        assert(a.subrange(0, a.len() as int) =~= a);
    } else {
        lemma_order_kept(ds, target, deps, n, m - 1);
        let b = scan(ds, m - 1, target, deps).0;
        let c = scan(ds, m, target, deps).0;
        if c.len() > b.len() {
            assert(c =~= b.push(c.last()));
            assert(c.subrange(0, a.len() as int) =~= b.subrange(0, a.len() as int));
        } else {
            assert(c == b);
        }
    }
}

proof fn lemma_first_dep_is(ts: Seq<Seq<char>>, deps: Set<Seq<char>>, k: int)
    requires
        0 <= k < ts.len(),
        deps.contains(ts[k]),
        forall|i: int| 0 <= i < k ==> !deps.contains(#[trigger] ts[i]),
    ensures
        first_dep(ts, Some(deps)) == Some(ts[k]),
    decreases k,
{
    if k > 0 {
        assert(!deps.contains(ts[0]));
        let rest = ts.drop_first();
        assert forall|i: int| 0 <= i < k - 1 implies !deps.contains(#[trigger] rest[i]) by {
            assert(rest[i] == ts[i + 1]);
        }
        assert(rest[k - 1] == ts[k]);
        lemma_first_dep_is(rest, deps, k - 1);
    }
}

/// An `impl` block whose self type holds a requested name is taken in whatever
/// its trait is, and the first requested name of its self type is recorded.
pub proof fn lemma_impl_pulled_by_self_type(
    d: DeclView,
    found: bool,
    target: Seq<char>,
    deps: Set<Seq<char>>,
    k: int,
)
    requires
        d.kind == DeclKind::Impl,
        d.self_ty is Some,
        0 <= k < d.self_ty->0.len(),
        deps.contains(d.self_ty->0[k]),
        forall|i: int| 0 <= i < k ==> !deps.contains(#[trigger] d.self_ty->0[i]),
    ensures
        decl_step(d, found, target, Some(deps)).0 == Some(shown(d.text)),
        decl_step(d, found, target, Some(deps)).2 == set![d.self_ty->0[k]],
{
    lemma_first_dep_is(d.self_ty->0, deps, k);
}

proof fn lemma_indent_le(l: Seq<char>)
    ensures
        leading_indent(l) <= l.len(),
    decreases l.len(),
{
    if l.len() > 0 && is_indent_char(l[0]) {
        lemma_indent_le(l.drop_first());
    }
}

proof fn lemma_indent_prefix(l: Seq<char>, j: int)
    requires
        0 <= j < leading_indent(l),
    ensures
        is_indent_char(l[j]),
    decreases j,
{
    assert(l.len() > 0 && is_indent_char(l[0]));
    lemma_indent_le(l);
    if j > 0 {
        lemma_indent_prefix(l.drop_first(), j - 1);
        assert(l.drop_first()[j - 1] == l[j]);
    }
}

proof fn lemma_min_indent_bounds(ls: Seq<Seq<char>>)
    ensures
        forall|i: int| #![trigger ls[i]] 0 <= i < ls.len() && !is_blank(ls[i]) ==> min_indent(ls) is Some
            && min_indent(ls)->0 <= leading_indent(ls[i]),
        min_indent(ls) is Some ==> exists|i: int| #![trigger ls[i]] 0 <= i < ls.len() && !is_blank(ls[i])
            && leading_indent(ls[i]) == min_indent(ls)->0,
    decreases ls.len(),
{
    if ls.len() > 0 {
        let init = ls.drop_last();
        lemma_min_indent_bounds(init);
        assert forall|i: int| 0 <= i < init.len() implies #[trigger] init[i] == ls[i] by {}
        assert forall|i: int| #![trigger ls[i]] 0 <= i < ls.len() && !is_blank(ls[i]) implies min_indent(ls) is Some
            && min_indent(ls)->0 <= leading_indent(ls[i]) by {
            if i < init.len() {
                assert(init[i] == ls[i]);
            } else {
                assert(ls[i] == ls.last());
            }
        }
        if min_indent(init) is Some && min_indent(ls) is Some && min_indent(ls)->0 == min_indent(init)->0 {
            let i = choose|i: int| #![trigger init[i]] 0 <= i < init.len() && !is_blank(init[i])
                && leading_indent(init[i]) == min_indent(init)->0;
            assert(ls[i] == init[i]);
        }
        if min_indent(ls) is Some && !is_blank(ls.last()) && min_indent(ls)->0 == leading_indent(ls.last()) {
            assert(ls[ls.len() - 1] == ls.last());
        }
    }
}

/// Dedent removes the same number of leading characters from every line: for
/// each line that is not blank, they are spaces or tabs; at least one such line
/// keeps no indentation; with no shared indentation the lines stay as they are.
pub proof fn lemma_dedent_shape(ls: Seq<Seq<char>>)
    ensures
        ({
            let m: nat = match min_indent(ls) {
                Some(m) => m,
                None => 0,
            };
            &&& forall|i: int, j: int| #![trigger ls[i][j]]
                0 <= i < ls.len() && !is_blank(ls[i]) && 0 <= j < m ==> is_indent_char(ls[i][j])
            &&& forall|i: int| #![trigger ls[i]] 0 <= i < ls.len() && !is_blank(ls[i]) ==>
                ls[i].len() > m && dedent_lines(ls, m)[i] == ls[i].subrange(m as int, ls[i].len() as int)
            &&& (min_indent(ls) is Some ==> exists|i: int| #![trigger ls[i]]
                0 <= i < ls.len() && !is_blank(ls[i]) && leading_indent(dedent_lines(ls, m)[i]) == 0)
            &&& (m == 0 ==> dedent_lines(ls, m) == ls)
        }),
{
    let m: nat = match min_indent(ls) {
        Some(m) => m,
        None => 0,
    };
    lemma_min_indent_bounds(ls);
    assert forall|i: int, j: int| #![trigger ls[i][j]]
        0 <= i < ls.len() && !is_blank(ls[i]) && 0 <= j < m implies is_indent_char(ls[i][j]) by {
        lemma_indent_prefix(ls[i], j);
    }
    assert forall|i: int| #![trigger ls[i]] 0 <= i < ls.len() && !is_blank(ls[i]) implies ls[i].len() > m by {
        lemma_indent_len(ls[i]);
    }
    if min_indent(ls) is Some {
        let i = choose|i: int| #![trigger ls[i]] 0 <= i < ls.len() && !is_blank(ls[i])
            && leading_indent(ls[i]) == min_indent(ls)->0;
        lemma_indent_len(ls[i]);
        lemma_indent_stops(ls[i]);
        let t = dedent_lines(ls, m)[i];
        assert(t[0] == ls[i][m as int]);
    }
    if m == 0 {
        assert forall|i: int| 0 <= i < ls.len() implies #[trigger] dedent_lines(ls, m)[i] == ls[i] by {
            assert(dedent_line(ls[i], 0) =~= ls[i]);
        }
        assert(dedent_lines(ls, m) =~= ls);
    }
}

proof fn lemma_indent_len(l: Seq<char>)
    requires
        !is_blank(l),
    ensures
        leading_indent(l) < l.len(),
    decreases l.len(),
{
    if l.len() > 0 && is_indent_char(l[0]) {
        let r = l.drop_first();
        let k = choose|k: int| 0 <= k < l.len() && !crate::text::is_space(#[trigger] l[k]);
        assert(k != 0);
        assert(r[k - 1] == l[k]);
        lemma_indent_len(r);
    }
}

proof fn lemma_indent_stops(l: Seq<char>)
    requires
        leading_indent(l) < l.len(),
    ensures
        !is_indent_char(l[leading_indent(l) as int]),
    decreases l.len(),
{
    if l.len() > 0 && is_indent_char(l[0]) {
        lemma_indent_stops(l.drop_first());
    }
}

proof fn lemma_found_stays(ds: Seq<DeclView>, target: Seq<char>, deps: Option<Set<Seq<char>>>, n: int, m: int)
    requires
        0 <= n <= m <= ds.len(),
        scan(ds, n, target, deps).1,
    ensures
        scan(ds, m, target, deps).1,
    decreases m - n,
{
    if n < m {
        lemma_found_stays(ds, target, deps, n, m - 1);
    }
}

/// With two functions named as the target, the first gives the body: the later
/// one adds no fragment and matches no name.
pub proof fn lemma_first_target_wins(
    ds: Seq<DeclView>,
    target: Seq<char>,
    deps: Option<Set<Seq<char>>>,
    i: int,
    j: int,
)
    requires
        0 <= i < j < ds.len(),
        ds[i].kind == DeclKind::Function,
        ds[i].name == Some(target),
        ds[j].kind == DeclKind::Function,
        ds[j].name == Some(target),
    ensures
        scan(ds, j + 1, target, deps).0 == scan(ds, j, target, deps).0,
        scan(ds, j + 1, target, deps).2 == scan(ds, j, target, deps).2,
        scan(ds, j + 1, target, deps).1,
{
    assert(scan(ds, i + 1, target, deps).1);
    lemma_found_stays(ds, target, deps, i + 1, j);
    assert(scan(ds, j + 1, target, deps).2 =~= scan(ds, j, target, deps).2);
}


/// A line with no line-ending character in it.
pub open spec fn clean(l: Seq<char>) -> bool {
    forall|i: int| 0 <= i < l.len() ==> #[trigger] l[i] != '\n' && l[i] != '\r'
}

pub open spec fn all_clean(ls: Seq<Seq<char>>) -> bool {
    forall|i: int| 0 <= i < ls.len() ==> clean(#[trigger] ls[i])
}

/// Each line followed by `\n`.
pub open spec fn ended_lines(ls: Seq<Seq<char>>) -> Seq<char>
    decreases ls.len(),
{
    if ls.len() == 0 {
        seq![]
    } else {
        ended_lines(ls.drop_last()) + ls.last() + seq!['\n']
    }
}

proof fn lemma_join_push(ls: Seq<Seq<char>>, x: Seq<char>)
    ensures
        join_lines(ls.push(x)) == ended_lines(ls) + x,
    decreases ls.len(),
{
    if ls.len() == 0 {
        assert(ended_lines(ls) + x =~= x);
    } else {
        assert(ls.push(x).drop_last() =~= ls);
        let init = ls.drop_last();
        assert(init.push(ls.last()) =~= ls);
        lemma_join_push(init, ls.last());
        assert(join_lines(ls.push(x)) =~= ended_lines(ls) + x);
    }
}

proof fn lemma_scan_rebuilds(s: Seq<char>, n: int)
    requires
        0 <= n <= s.len(),
        forall|i: int| 0 <= i < s.len() ==> #[trigger] s[i] != '\r',
    ensures
        s.subrange(0, n) == ended_lines(scan_lines(s, n).0) + scan_lines(s, n).1,
        !scan_lines(s, n).1.contains('\n'),
        clean(scan_lines(s, n).1),
        all_clean(scan_lines(s, n).0),
    decreases n,
{
    if n == 0 {
        assert(s.subrange(0, 0) =~= ended_lines(seq![]) + seq![]);
        assert(!Seq::<char>::empty().contains('\n'));
    } else {
        lemma_scan_rebuilds(s, n - 1);
        let (ls, cur) = scan_lines(s, n - 1);
        assert(s.subrange(0, n) =~= s.subrange(0, n - 1).push(s[n - 1]));
        if s[n - 1] == '\n' {
            if cur.len() > 0 {
                assert(cur.last() == cur[cur.len() - 1]);
                assert(s.subrange(0, n - 1)[s.subrange(0, n - 1).len() - 1] == cur.last());
            }
            assert(ls.push(cur).drop_last() =~= ls);
            assert(s.subrange(0, n) =~= ended_lines(ls.push(cur)) + seq![]);
            assert forall|i: int| 0 <= i < ls.push(cur).len() implies clean(#[trigger] ls.push(cur)[i]) by {
                if i < ls.len() {
                    assert(ls.push(cur)[i] == ls[i]);
                }
            }
            assert(!Seq::<char>::empty().contains('\n'));
        } else {
            assert(s.subrange(0, n) =~= ended_lines(ls) + cur.push(s[n - 1]));
            let next = cur.push(s[n - 1]);
            assert forall|i: int| 0 <= i < next.len() implies #[trigger] next[i] != '\n' && next[i] != '\r' by {
                if i < cur.len() {
                    assert(next[i] == cur[i]);
                }
            }
        }
    }
}

proof fn lemma_ended_ends(ls: Seq<Seq<char>>)
    requires
        ls.len() > 0,
    ensures
        ended_lines(ls).len() > 0,
        ended_lines(ls).last() == '\n',
{
}

/// Splitting a text into lines and joining them again gives the text back,
/// where it holds no `\r` and does not end in `\n`.
pub proof fn lemma_lines_round_trip(s: Seq<char>)
    requires
        forall|i: int| 0 <= i < s.len() ==> #[trigger] s[i] != '\r',
        s.len() > 0 ==> s.last() != '\n',
    ensures
        join_lines(lines_of(s)) == s,
{
    lemma_scan_rebuilds(s, s.len() as int);
    assert(s.subrange(0, s.len() as int) =~= s);
    let (ls, cur) = scan_lines(s, s.len() as int);
    if cur.len() == 0 {
        if ls.len() > 0 {
            lemma_ended_ends(ls);
            assert(s =~= ended_lines(ls));
        }
        assert(s =~= ended_lines(ls) + cur);
        assert(join_lines(seq![]) =~= s);
    } else {
        lemma_join_push(ls, cur);
    }
}

proof fn lemma_scan_prefix(a: Seq<char>, b: Seq<char>, j: int)
    requires
        0 <= j <= a.len(),
    ensures
        scan_lines(a + b, j) == scan_lines(a, j),
    decreases j,
{
    if j > 0 {
        lemma_scan_prefix(a, b, j - 1);
        assert((a + b)[j - 1] == a[j - 1]);
    }
}

proof fn lemma_scan_concat(a: Seq<char>, b: Seq<char>, k: int)
    requires
        scan_lines(a, a.len() as int).1.len() == 0,
        0 <= k <= b.len(),
    ensures
        scan_lines(a + b, a.len() + k).0 == scan_lines(a, a.len() as int).0 + scan_lines(b, k).0,
        scan_lines(a + b, a.len() + k).1 == scan_lines(b, k).1,
    decreases k,
{
    if k == 0 {
        lemma_scan_prefix(a, b, a.len() as int);
        assert(scan_lines(a, a.len() as int).0 + scan_lines(b, 0).0 =~= scan_lines(a, a.len() as int).0);
    } else {
        lemma_scan_concat(a, b, k - 1);
        assert((a + b)[a.len() + k - 1] == b[k - 1]);
        let pa = scan_lines(a, a.len() as int).0;
        let pb = scan_lines(b, k - 1);
        if b[k - 1] == '\n' {
            assert((pa + pb.0).push(crate::text::end_line(pb.1)) =~= pa + pb.0.push(crate::text::end_line(pb.1)));
        }
    }
}

proof fn lemma_scan_clean_line(l: Seq<char>, k: int)
    requires
        clean(l),
        0 <= k <= l.len(),
    ensures
        scan_lines(l, k).0 == Seq::<Seq<char>>::empty(),
        scan_lines(l, k).1 == l.subrange(0, k),
    decreases k,
{
    if k == 0 {
        assert(l.subrange(0, 0) =~= Seq::<char>::empty());
    } else {
        lemma_scan_clean_line(l, k - 1);
        assert(l.subrange(0, k) =~= l.subrange(0, k - 1).push(l[k - 1]));
    }
}

proof fn lemma_scan_ended(ls: Seq<Seq<char>>)
    requires
        all_clean(ls),
    ensures
        scan_lines(ended_lines(ls), ended_lines(ls).len() as int).0 == ls,
        scan_lines(ended_lines(ls), ended_lines(ls).len() as int).1.len() == 0,
    decreases ls.len(),
{
    if ls.len() > 0 {
        let init = ls.drop_last();
        let last = ls.last();
        assert(clean(ls[ls.len() - 1]));
        assert forall|i: int| 0 <= i < init.len() implies clean(#[trigger] init[i]) by {
            assert(init[i] == ls[i]);
        }
        lemma_scan_ended(init);
        let a = ended_lines(init);
        let b = last + seq!['\n'];
        assert(ended_lines(ls) == a + b);
        lemma_scan_concat(a, b, b.len() as int);
        lemma_scan_prefix(last, seq!['\n'], last.len() as int);
        lemma_scan_clean_line(last, last.len() as int);
        assert(last.subrange(0, last.len() as int) =~= last);
        assert(b[last.len() as int] == '\n');
        if last.len() > 0 {
            assert(last.last() == last[last.len() - 1]);
        }
        assert(crate::text::end_line(last) == last);
        assert(init + seq![last] =~= ls);
    }
}

/// Joining clean lines and splitting the result again gives the lines back,
/// where the last is not empty.
pub proof fn lemma_join_round_trip(ls: Seq<Seq<char>>)
    requires
        ls.len() > 0,
        all_clean(ls),
        ls.last().len() > 0,
    ensures
        lines_of(join_lines(ls)) == ls,
{
    let init = ls.drop_last();
    let last = ls.last();
    assert(clean(ls[ls.len() - 1]));
    assert forall|i: int| 0 <= i < init.len() implies clean(#[trigger] init[i]) by {
        assert(init[i] == ls[i]);
    }
    assert(init.push(last) =~= ls);
    lemma_join_push(init, last);
    lemma_scan_ended(init);
    lemma_scan_concat(ended_lines(init), last, last.len() as int);
    lemma_scan_clean_line(last, last.len() as int);
    assert(last.subrange(0, last.len() as int) =~= last);
    assert(init + Seq::<Seq<char>>::empty() =~= init);
}

proof fn lemma_lines_clean(s: Seq<char>)
    requires
        forall|i: int| 0 <= i < s.len() ==> #[trigger] s[i] != '\r',
    ensures
        all_clean(lines_of(s)),
{
    lemma_scan_rebuilds(s, s.len() as int);
    let (ls, cur) = scan_lines(s, s.len() as int);
    if cur.len() > 0 {
        assert forall|i: int| 0 <= i < ls.push(cur).len() implies clean(#[trigger] ls.push(cur)[i]) by {
            if i < ls.len() {
                assert(ls.push(cur)[i] == ls[i]);
            }
        }
    }
}


proof fn lemma_blank_ends(ls: Seq<Seq<char>>)
    ensures
        lead_blank(ls) <= ls.len(),
        forall|j: int| 0 <= j < lead_blank(ls) ==> is_blank(#[trigger] ls[j]),
        lead_blank(ls) < ls.len() ==> !is_blank(ls[lead_blank(ls) as int]),
        trail_blank(ls) <= ls.len(),
        forall|j: int| ls.len() - trail_blank(ls) <= j < ls.len() ==> is_blank(#[trigger] ls[j]),
        trail_blank(ls) < ls.len() ==> !is_blank(ls[ls.len() - trail_blank(ls) - 1]),
    decreases ls.len(),
{
    if ls.len() > 0 {
        let rest = ls.drop_first();
        let init = ls.drop_last();
        lemma_blank_ends(rest);
        lemma_blank_ends(init);
        assert forall|j: int| 0 <= j < lead_blank(ls) implies is_blank(#[trigger] ls[j]) by {
            if j > 0 {
                assert(ls[j] == rest[j - 1]);
            }
        }
        if is_blank(ls[0]) && lead_blank(ls) < ls.len() {
            assert(ls[lead_blank(ls) as int] == rest[lead_blank(rest) as int]);
        }
        assert forall|j: int| ls.len() - trail_blank(ls) <= j < ls.len() implies is_blank(#[trigger] ls[j]) by {
            if j < ls.len() - 1 {
                assert(ls[j] == init[j]);
            }
        }
        if is_blank(ls.last()) && trail_blank(ls) < ls.len() {
            assert(ls[ls.len() - trail_blank(ls) - 1] == init[init.len() - trail_blank(init) - 1]);
        }
    }
}

/// Dedent leaves a text as it is where no line is indented in common: with no
/// `\r`, no `\n` at its end, a first and a last line that are not blank, and a
/// line that starts with neither a space nor a tab.
pub proof fn lemma_dedent_unindented(s: Seq<char>)
    requires
        forall|i: int| 0 <= i < s.len() ==> #[trigger] s[i] != '\r',
        s.len() > 0 ==> s.last() != '\n',
        lines_of(s).len() > 0 ==> !is_blank(lines_of(s)[0]) && !is_blank(lines_of(s).last()),
        min_indent(lines_of(s)) is None || min_indent(lines_of(s)) == Some(0nat),
    ensures
        dedent(s) == s,
{
    let l = lines_of(s);
    lemma_dedent_shape(l);
    lemma_lines_round_trip(s);
    assert(dedent_lines(l, 0) == l);
    if l.len() > 0 {
        assert(lead_blank(l) == 0);
        assert(l.subrange(0, l.len() as int) =~= l);
        assert(trail_blank(l) == 0);
    } else {
        assert(l.subrange(0, 0) =~= l);
    }
    assert(drop_blank_ends(l) =~= l);
}

/// Dedenting twice gives what dedenting once gives, for a text with no `\r`.
pub proof fn lemma_dedent_idempotent(s: Seq<char>)
    requires
        forall|i: int| 0 <= i < s.len() ==> #[trigger] s[i] != '\r',
    ensures
        dedent(dedent(s)) == dedent(s),
{
    let l = lines_of(s);
    lemma_lines_clean(s);
    lemma_dedent_shape(l);
    lemma_min_indent_bounds(l);
    let m: nat = match min_indent(l) {
        Some(m) => m,
        None => 0,
    };
    let lp = dedent_lines(l, m);
    assert forall|i: int| 0 <= i < lp.len() implies clean(#[trigger] lp[i]) by {
        assert(clean(l[i]));
        if l[i].len() > m {
            let d = lp[i];
            assert forall|k: int| 0 <= k < d.len() implies #[trigger] d[k] != '\n' && d[k] != '\r' by {
                assert(d[k] == l[i][k + m]);
            }
        }
    }
    lemma_blank_ends(lp);
    let p = lead_blank(lp);
    let mm = lp.subrange(p as int, lp.len() as int);
    lemma_blank_ends(mm);
    let q = mm.len() - trail_blank(mm);
    let k = mm.subrange(0, q);
    assert(k == drop_blank_ends(lp));
    assert forall|i: int| 0 <= i < k.len() implies clean(#[trigger] k[i]) && k[i] == lp[i + p] by {
        assert(k[i] == mm[i]);
        assert(mm[i] == lp[i + p]);
    }
    let t = dedent(s);
    assert(t == join_lines(k));
    if k.len() == 0 {
        assert(t =~= Seq::<char>::empty());
        assert(lines_of(t) =~= Seq::<Seq<char>>::empty());
        assert(drop_blank_ends(seq![]) =~= Seq::<Seq<char>>::empty());
    } else {
        assert(k[0] == lp[p as int]);
        assert(k.last() == mm[mm.len() - trail_blank(mm) - 1]);
        assert(!is_blank(k[0]));
        assert(!is_blank(k.last()));
        assert(k.last().len() > 0);
        lemma_join_round_trip(k);
        lemma_min_indent_bounds(k);
        if min_indent(l) is Some {
            let i = choose|i: int| #![trigger l[i]] 0 <= i < l.len() && !is_blank(l[i])
                && leading_indent(dedent_lines(l, m)[i]) == 0;
            let c = choose|c: int| 0 <= c < l[i].len() && !crate::text::is_space(#[trigger] l[i][c]);
            if c < m {
                assert(is_indent_char(l[i][c]));
            }
            assert(lp[i][c - m] == l[i][c]);
            assert(!is_blank(lp[i]));
            assert(p <= i);
            assert(mm[i - p] == lp[i]);
            assert(i - p < q);
            assert(k[i - p] == lp[i]);
        } else {
            assert(lp == l);
            if min_indent(k) is Some {
                let i = choose|i: int| #![trigger k[i]] 0 <= i < k.len() && !is_blank(k[i])
                    && leading_indent(k[i]) == min_indent(k)->0;
                assert(k[i] == l[i + p]);
            }
        }
        lemma_dedent_shape(k);
        assert(dedent_lines(k, 0) == k);
        lemma_blank_ends(k);
        assert(lead_blank(k) == 0);
        assert(k.subrange(0, k.len() as int) =~= k);
        assert(trail_blank(k) == 0);
        assert(drop_blank_ends(k) =~= k);
    }
}


/// The order and repetition of the requested names do not matter: two
/// requests that name the same set give the same outcome.
pub proof fn lemma_request_order_irrelevant(
    ds: Seq<DeclView>,
    target: Seq<char>,
    d1: Vec<String>,
    d2: Vec<String>,
)
    requires
        names(d1@) == names(d2@),
    ensures
        extraction(ds, target, Some(d1)) == extraction(ds, target, Some(d2)),
{
}

proof fn lemma_scan_same(
    d1: Seq<DeclView>,
    d2: Seq<DeclView>,
    target: Seq<char>,
    deps: Option<Set<Seq<char>>>,
    i: int,
    j: int,
    n: int,
)
    requires
        0 <= i < j < d1.len(),
        d1.len() == d2.len(),
        0 <= n <= d1.len(),
        forall|k: int| 0 <= k < d1.len() && k != j ==> d1[k] == d2[k],
        d1[i].kind == DeclKind::Function,
        d1[i].name == Some(target),
        d1[j].kind == DeclKind::Function,
        d1[j].name == Some(target),
        d2[j].kind == DeclKind::Function,
        d2[j].name == Some(target),
    ensures
        scan(d1, n, target, deps) == scan(d2, n, target, deps),
    decreases n,
{
    if n > 0 {
        lemma_scan_same(d1, d2, target, deps, i, j, n - 1);
        if n - 1 == j {
            assert(scan(d1, i + 1, target, deps).1);
            lemma_found_stays(d1, target, deps, i + 1, j);
            assert(scan(d1, n, target, deps).2 =~= scan(d2, n, target, deps).2);
        }
    }
}

/// A function named as the target that follows an earlier one of that name is
/// never read: files that differ only in it give the same outcome.
pub proof fn lemma_later_target_ignored(
    d1: Seq<DeclView>,
    d2: Seq<DeclView>,
    target: Seq<char>,
    deps: Option<Vec<String>>,
    i: int,
    j: int,
)
    requires
        0 <= i < j < d1.len(),
        d1.len() == d2.len(),
        forall|k: int| 0 <= k < d1.len() && k != j ==> d1[k] == d2[k],
        d1[i].kind == DeclKind::Function,
        d1[i].name == Some(target),
        d1[j].kind == DeclKind::Function,
        d1[j].name == Some(target),
        d2[j].kind == DeclKind::Function,
        d2[j].name == Some(target),
    ensures
        extraction(d1, target, deps) == extraction(d2, target, deps),
{
    lemma_scan_same(d1, d2, target, dep_set(deps), i, j, d1.len() as int);
}

} // verus!
