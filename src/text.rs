//! Character-level text handling: lines, trimming, indentation.
use vstd::prelude::*;

verus! {

/// Whitespace as Unicode's `White_Space` property defines it.
pub open spec fn is_space(c: char) -> bool {
    ('\u{9}' <= c && c <= '\u{d}') || c == ' ' || c == '\u{85}' || c == '\u{a0}'
        || c == '\u{1680}' || ('\u{2000}' <= c && c <= '\u{200a}') || c == '\u{2028}'
        || c == '\u{2029}' || c == '\u{202f}' || c == '\u{205f}' || c == '\u{3000}'
}

pub fn is_whitespace(c: char) -> (r: bool)
    ensures
        r == is_space(c),
{
    ('\u{9}' <= c && c <= '\u{d}') || c == ' ' || c == '\u{85}' || c == '\u{a0}'
        || c == '\u{1680}' || ('\u{2000}' <= c && c <= '\u{200a}') || c == '\u{2028}'
        || c == '\u{2029}' || c == '\u{202f}' || c == '\u{205f}' || c == '\u{3000}'
}

/// A line that holds nothing but whitespace.
pub open spec fn is_blank(s: Seq<char>) -> bool {
    forall|i: int| 0 <= i < s.len() ==> is_space(#[trigger] s[i])
}

pub open spec fn is_indent_char(c: char) -> bool {
    c == ' ' || c == '\t'
}

/// Number of spaces and tabs that open the line.
pub open spec fn leading_indent(s: Seq<char>) -> nat
    decreases s.len(),
{
    if s.len() > 0 && is_indent_char(s[0]) {
        1 + leading_indent(s.drop_first())
    } else {
        0
    }
}

/// The indentation of a line, or nothing for a blank line.
pub open spec fn indent_of(s: Seq<char>) -> Option<nat> {
    if is_blank(s) {
        None
    } else {
        Some(leading_indent(s))
    }
}

/// Which characters a trim removes.
#[derive(Clone, Copy, PartialEq, Eq, Debug)]
pub enum Trim {
    Space,
}

pub open spec fn trims(t: Trim, c: char) -> bool {
    match t {
        Trim::Space => is_space(c),
    }
}

pub fn trims_exec(t: Trim, c: char) -> (r: bool)
    ensures
        r == trims(t, c),
{
    match t {
        Trim::Space => is_whitespace(c),
    }
}

/// `s` without the run of `t` characters at its start.
pub open spec fn strip_front(s: Seq<char>, t: Trim) -> Seq<char>
    decreases s.len(),
{
    if s.len() > 0 && trims(t, s[0]) {
        strip_front(s.drop_first(), t)
    } else {
        s
    }
}

/// `s` without the run of `t` characters at its end.
pub open spec fn strip_back(s: Seq<char>, t: Trim) -> Seq<char>
    decreases s.len(),
{
    if s.len() > 0 && trims(t, s.last()) {
        strip_back(s.drop_last(), t)
    } else {
        s
    }
}

/// `s` without `t` characters at either end.
pub open spec fn strip_both(s: Seq<char>, t: Trim) -> Seq<char> {
    strip_back(strip_front(s, t), t)
}

fn copy_range(v: &Vec<char>, lo: usize, hi: usize) -> (r: Vec<char>)
    requires
        lo <= hi <= v@.len(),
    ensures
        r@ == v@.subrange(lo as int, hi as int),
{
    let mut r: Vec<char> = Vec::new();
    let mut i: usize = lo;
    while i < hi
        invariant
            lo <= i <= hi <= v@.len(),
            r@ == v@.subrange(lo as int, i as int),
        decreases hi - i,
    {
        r.push(v[i]);
        i = i + 1;
        assert(r@ =~= v@.subrange(lo as int, i as int));
    }
    r
}

pub fn strip_front_exec(v: &Vec<char>, t: Trim) -> (r: Vec<char>)
    ensures
        r@ == strip_front(v@, t),
{
    let n = v.len();
    let mut i: usize = 0;
    assert(v@.subrange(0, n as int) =~= v@);
    while i < n && trims_exec(t, v[i])
        invariant
            i <= n == v@.len(),
            strip_front(v@, t) == strip_front(v@.subrange(i as int, n as int), t),
        decreases n - i,
    {
        assert(v@.subrange(i as int, n as int).drop_first() =~= v@.subrange(i + 1, n as int));
        i = i + 1;
    }
    copy_range(v, i, n)
}

pub fn strip_back_exec(v: &Vec<char>, t: Trim) -> (r: Vec<char>)
    ensures
        r@ == strip_back(v@, t),
{
    let mut j: usize = v.len();
    assert(v@.subrange(0, j as int) =~= v@);
    while j > 0 && trims_exec(t, v[j - 1])
        invariant
            j <= v@.len(),
            strip_back(v@, t) == strip_back(v@.subrange(0, j as int), t),
        decreases j,
    {
        assert(v@.subrange(0, j as int).drop_last() =~= v@.subrange(0, j - 1));
        j = j - 1;
    }
    copy_range(v, 0, j)
}

pub fn strip_both_exec(v: &Vec<char>, t: Trim) -> (r: Vec<char>)
    ensures
        r@ == strip_both(v@, t),
{
    let f = strip_front_exec(v, t);
    strip_back_exec(&f, t)
}


/// Relies on `str::chars`: the characters of the text, in order.
#[verifier::external_body]
pub(crate) fn chars_of(s: &str) -> (r: Vec<char>)
    ensures
        r@ == s@,
{
    s.chars().collect()
}

/// Relies on `String`'s `FromIterator<char>`: the text made of these characters.
#[verifier::external_body]
pub(crate) fn string_of(v: &Vec<char>) -> (r: String)
    ensures
        r@ == v@,
{
    v.iter().collect()
}

pub(crate) fn push_all(out: &mut Vec<char>, s: &Vec<char>)
    ensures
        final(out)@ == old(out)@ + s@,
{
    let mut i: usize = 0;
    while i < s.len()
        invariant
            i <= s@.len(),
            out@ == old(out)@ + s@.subrange(0, i as int),
        decreases s@.len() - i,
    {
        out.push(s[i]);
        i = i + 1;
        assert(out@ =~= old(out)@ + s@.subrange(0, i as int));
    }
    assert(s@.subrange(0, i as int) =~= s@);
}

pub open spec fn views(ls: Seq<Vec<char>>) -> Seq<Seq<char>> {
    ls.map_values(|l: Vec<char>| l@)
}

/// A line as it stands before its `\n`: a `\r` just before the `\n` is not part of it.
pub open spec fn end_line(cur: Seq<char>) -> Seq<char> {
    if cur.len() > 0 && cur.last() == '\r' {
        cur.drop_last()
    } else {
        cur
    }
}

/// The finished lines of the first `n` characters, and the line still open.
pub open spec fn scan_lines(s: Seq<char>, n: int) -> (Seq<Seq<char>>, Seq<char>)
    decreases n,
{
    if n <= 0 {
        (seq![], seq![])
    } else {
        let (ls, cur) = scan_lines(s, n - 1);
        if s[n - 1] == '\n' {
            (ls.push(end_line(cur)), seq![])
        } else {
            (ls, cur.push(s[n - 1]))
        }
    }
}

/// The lines of a text, split at `\n` or `\r\n`; a last line ending is optional.
pub open spec fn lines_of(s: Seq<char>) -> Seq<Seq<char>> {
    let (ls, cur) = scan_lines(s, s.len() as int);
    if cur.len() == 0 {
        ls
    } else {
        ls.push(cur)
    }
}

/// The lines joined with `\n` between each two.
pub open spec fn join_lines(ls: Seq<Seq<char>>) -> Seq<char>
    decreases ls.len(),
{
    if ls.len() == 0 {
        seq![]
    } else if ls.len() == 1 {
        ls[0]
    } else {
        join_lines(ls.drop_last()) + seq!['\n'] + ls.last()
    }
}

fn end_line_exec(cur: Vec<char>) -> (r: Vec<char>)
    ensures
        r@ == end_line(cur@),
{
    let mut cur = cur;
    if cur.len() > 0 && cur[cur.len() - 1] == '\r' {
        cur.pop();
    }
    cur
}

pub fn split_lines(v: &Vec<char>) -> (r: Vec<Vec<char>>)
    ensures
        views(r@) == lines_of(v@),
{
    let mut ls: Vec<Vec<char>> = Vec::new();
    let mut cur: Vec<char> = Vec::new();
    let mut i: usize = 0;
    while i < v.len()
        invariant
            i <= v@.len(),
            scan_lines(v@, i as int).0 == views(ls@),
            scan_lines(v@, i as int).1 == cur@,
        decreases v@.len() - i,
    {
        let c = v[i];
        if c == '\n' {
            let line = end_line_exec(cur);
            proof {
                assert(views(ls@.push(line)) =~= views(ls@).push(line@));
            }
            ls.push(line);
            cur = Vec::new();
            proof {
                assert(cur@ =~= seq![]);
            }
        } else {
            cur.push(c);
        }
        i = i + 1;
    }
    if cur.len() > 0 {
        proof {
            assert(views(ls@.push(cur)) =~= views(ls@).push(cur@));
        }
        ls.push(cur);
    }
    ls
}

fn blank_exec(v: &Vec<char>) -> (r: bool)
    ensures
        r == is_blank(v@),
{
    let mut i: usize = 0;
    while i < v.len()
        invariant
            i <= v@.len(),
            forall|k: int| 0 <= k < i ==> is_space(#[trigger] v@[k]),
        decreases v@.len() - i,
    {
        if !is_whitespace(v[i]) {
            return false;
        }
        i = i + 1;
    }
    true
}

fn leading_indent_exec(v: &Vec<char>) -> (r: usize)
    ensures
        r as nat == leading_indent(v@),
        r <= v@.len(),
{
    let n = v.len();
    let mut i: usize = 0;
    assert(v@.subrange(0, n as int) =~= v@);
    while i < n && (v[i] == ' ' || v[i] == '\t')
        invariant
            i <= n == v@.len(),
            leading_indent(v@) == i + leading_indent(v@.subrange(i as int, n as int)),
        decreases n - i,
    {
        assert(v@.subrange(i as int, n as int).drop_first() =~= v@.subrange(i + 1, n as int));
        i = i + 1;
    }
    i
}

pub(crate) fn indent_width(v: &Vec<char>) -> (r: Option<usize>)
    ensures
        r matches Some(w) ==> w <= v@.len(),
        indent_of(v@) == (match r {
            Some(w) => Some(w as nat),
            None => None,
        }),
{
    if blank_exec(v) {
        None
    } else {
        Some(leading_indent_exec(v))
    }
}

/// How far a line is indented; nothing for a blank line.
pub fn indent_size(text: &str) -> (r: Option<usize>)
    ensures
        indent_of(text@) == (match r {
            Some(w) => Some(w as nat),
            None => None,
        }),
{
    let v = chars_of(text);
    indent_width(&v)
}

/// The smallest indentation among the lines that are not blank.
pub open spec fn min_indent(ls: Seq<Seq<char>>) -> Option<nat>
    decreases ls.len(),
{
    if ls.len() == 0 {
        None
    } else {
        let rest = min_indent(ls.drop_last());
        match indent_of(ls.last()) {
            None => rest,
            Some(w) => match rest {
                None => Some(w),
                Some(m) => Some(if w < m { w } else { m }),
            },
        }
    }
}

/// A line with its first `m` characters removed.
pub open spec fn dedent_line(l: Seq<char>, m: nat) -> Seq<char> {
    if l.len() > m {
        l.subrange(m as int, l.len() as int)
    } else {
        seq![]
    }
}

pub open spec fn dedent_lines(ls: Seq<Seq<char>>, m: nat) -> Seq<Seq<char>> {
    ls.map_values(|l: Seq<char>| dedent_line(l, m))
}

/// The text with the indentation its lines share removed, and no blank lines
/// left at either end.
pub open spec fn dedent(s: Seq<char>) -> Seq<char> {
    let ls = lines_of(s);
    let m: nat = match min_indent(ls) {
        Some(m) => m,
        None => 0,
    };
    join_lines(drop_blank_ends(dedent_lines(ls, m)))
}

/// Number of blank lines at the start.
pub open spec fn lead_blank(ls: Seq<Seq<char>>) -> nat
    decreases ls.len(),
{
    if ls.len() > 0 && is_blank(ls[0]) {
        1 + lead_blank(ls.drop_first())
    } else {
        0
    }
}

/// Number of blank lines at the end.
pub open spec fn trail_blank(ls: Seq<Seq<char>>) -> nat
    decreases ls.len(),
{
    if ls.len() > 0 && is_blank(ls.last()) {
        1 + trail_blank(ls.drop_last())
    } else {
        0
    }
}

pub proof fn lemma_lead_blank_le(ls: Seq<Seq<char>>)
    ensures
        lead_blank(ls) <= ls.len(),
    decreases ls.len(),
{
    if ls.len() > 0 && is_blank(ls[0]) {
        lemma_lead_blank_le(ls.drop_first());
    }
}

pub proof fn lemma_trail_blank_le(ls: Seq<Seq<char>>)
    ensures
        trail_blank(ls) <= ls.len(),
    decreases ls.len(),
{
    if ls.len() > 0 && is_blank(ls.last()) {
        lemma_trail_blank_le(ls.drop_last());
    }
}

/// The lines without the blank lines at either end.
pub open spec fn drop_blank_ends(ls: Seq<Seq<char>>) -> Seq<Seq<char>> {
    let f = ls.subrange(lead_blank(ls) as int, ls.len() as int);
    f.subrange(0, f.len() - trail_blank(f))
}

fn min_indent_exec(ls: &Vec<Vec<char>>) -> (r: usize)
    ensures
        r as nat == (match min_indent(views(ls@)) {
            Some(m) => m,
            None => 0,
        }),
{
    let mut m: Option<usize> = None;
    let mut k: usize = 0;
    while k < ls.len()
        invariant
            k <= ls@.len(),
            min_indent(views(ls@).take(k as int)) == (match m {
                Some(w) => Some(w as nat),
                None => None,
            }),
        decreases ls@.len() - k,
    {
        let w = indent_width(&ls[k]);
        assert(views(ls@).take(k + 1).drop_last() =~= views(ls@).take(k as int));
        match w {
            None => {},
            Some(w) => match m {
                None => {
                    m = Some(w);
                },
                Some(x) => {
                    if w < x {
                        m = Some(w);
                    }
                },
            },
        }
        k = k + 1;
    }
    assert(views(ls@).take(k as int) =~= views(ls@));
    match m {
        Some(w) => w,
        None => 0,
    }
}

fn dedent_line_exec(l: &Vec<char>, m: usize) -> (r: Vec<char>)
    ensures
        r@ == dedent_line(l@, m as nat),
{
    if l.len() > m {
        copy_range(l, m, l.len())
    } else {
        Vec::new()
    }
}

fn dedented_lines_exec(ls: &Vec<Vec<char>>, m: usize) -> (r: Vec<Vec<char>>)
    ensures
        views(r@) == dedent_lines(views(ls@), m as nat),
{
    let mut r: Vec<Vec<char>> = Vec::new();
    let mut k: usize = 0;
    while k < ls.len()
        invariant
            k <= ls@.len(),
            views(r@) == dedent_lines(views(ls@), m as nat).take(k as int),
        decreases ls@.len() - k,
    {
        let d = dedent_line_exec(&ls[k], m);
        let ghost before = r@;
        r.push(d);
        assert(views(r@) =~= dedent_lines(views(ls@), m as nat).take(k + 1)) by {
            assert(views(r@) =~= views(before).push(d@));
        }
        k = k + 1;
    }
    assert(dedent_lines(views(ls@), m as nat).take(k as int) =~= dedent_lines(views(ls@), m as nat));
    r
}

fn join_range(ls: &Vec<Vec<char>>, lo: usize, hi: usize) -> (r: Vec<char>)
    requires
        lo <= hi <= ls@.len(),
    ensures
        r@ == join_lines(views(ls@).subrange(lo as int, hi as int)),
{
    let ghost sub = views(ls@).subrange(lo as int, hi as int);
    let mut out: Vec<char> = Vec::new();
    let mut k: usize = lo;
    while k < hi
        invariant
            lo <= k <= hi <= ls@.len(),
            sub == views(ls@).subrange(lo as int, hi as int),
            out@ == join_lines(sub.take(k - lo)),
        decreases hi - k,
    {
        assert(sub.take(k + 1 - lo).drop_last() =~= sub.take(k - lo));
        assert(sub[k - lo] == ls@[k as int]@);
        if k > lo {
            out.push('\n');
        }
        push_all(&mut out, &ls[k]);
        k = k + 1;
        assert(out@ =~= join_lines(sub.take(k - lo)));
    }
    assert(sub.take(k - lo) =~= sub);
    out
}

pub(crate) fn dedent_exec(v: &Vec<char>) -> (r: Vec<char>)
    ensures
        r@ == dedent(v@),
{
    let ls = split_lines(v);
    let m = min_indent_exec(&ls);
    let dl = dedented_lines_exec(&ls, m);
    let ghost dv = views(dl@);
    let n = dl.len();
    let mut lo: usize = 0;
    assert(dv.subrange(0, n as int) =~= dv);
    while lo < n && blank_exec(&dl[lo])
        invariant
            lo <= n == dl@.len(),
            dv == views(dl@),
            lead_blank(dv) == lo + lead_blank(dv.subrange(lo as int, n as int)),
        decreases n - lo,
    {
        assert(dv.subrange(lo as int, n as int).drop_first() =~= dv.subrange(lo + 1, n as int));
        assert(dv.subrange(lo as int, n as int)[0] == dl@[lo as int]@);
        lo = lo + 1;
    }
    if lo < n {
        assert(dv.subrange(lo as int, n as int)[0] == dl@[lo as int]@);
    }
    assert(lead_blank(dv) == lo);
    let ghost f = dv.subrange(lo as int, n as int);
    let mut hi: usize = n;
    assert(f.subrange(0, (hi - lo) as int) =~= f);
    while hi > lo && blank_exec(&dl[hi - 1])
        invariant
            lo <= hi <= n == dl@.len(),
            dv == views(dl@),
            f == dv.subrange(lo as int, n as int),
            trail_blank(f) == (n - hi) + trail_blank(f.subrange(0, hi - lo)),
        decreases hi,
    {
        assert(f.subrange(0, hi - lo).drop_last() =~= f.subrange(0, hi - lo - 1));
        assert(f.subrange(0, hi - lo).last() == dl@[hi - 1]@);
        hi = hi - 1;
    }
    if hi > lo {
        assert(f.subrange(0, hi - lo).last() == dl@[hi - 1]@);
    }
    assert(trail_blank(f) == n - hi);
    assert(drop_blank_ends(dv) =~= dv.subrange(lo as int, hi as int));
    join_range(&dl, lo, hi)
}

/// Removes the indentation that the lines of `text` share, and blank lines at
/// either end.
pub fn remove_indent(text: &str) -> (r: String)
    ensures
        r@ == dedent(text@),
{
    let v = chars_of(text);
    let d = dedent_exec(&v);
    string_of(&d)
}


/// Each line behind a `# ` marker, each ending in `\n`.
pub open spec fn marked_lines(ls: Seq<Seq<char>>) -> Seq<char>
    decreases ls.len(),
{
    if ls.len() == 0 {
        seq![]
    } else {
        marked_lines(ls.drop_last()) + seq!['#', ' '] + ls.last() + seq!['\n']
    }
}

/// A fragment that the documentation compiles but does not show: a lone `#`
/// line, then each line of the text behind a `# ` marker.
pub open spec fn hidden(s: Seq<char>) -> Seq<char> {
    seq!['#', '\n'] + marked_lines(lines_of(s))
}

pub(crate) fn hidden_exec(v: &Vec<char>) -> (r: Vec<char>)
    ensures
        r@ == hidden(v@),
{
    let ls = split_lines(v);
    let ghost lv = views(ls@);
    let mut out: Vec<char> = vec!['#', '\n'];
    let mut k: usize = 0;
    while k < ls.len()
        invariant
            k <= ls@.len(),
            lv == views(ls@),
            out@ == seq!['#', '\n'] + marked_lines(lv.take(k as int)),
        decreases ls@.len() - k,
    {
        assert(lv.take(k + 1).drop_last() =~= lv.take(k as int));
        out.push('#');
        out.push(' ');
        push_all(&mut out, &ls[k]);
        out.push('\n');
        k = k + 1;
        assert(out@ =~= seq!['#', '\n'] + marked_lines(lv.take(k as int)));
    }
    assert(lv.take(k as int) =~= lv);
    out
}

/// Marks a declaration so that the documentation compiles it without showing it.
pub fn hide_in_doc(text: &str) -> (r: String)
    ensures
        r@ == hidden(text@),
{
    let v = chars_of(text);
    let h = hidden_exec(&v);
    string_of(&h)
}

/// A declaration's text as it enters the assembled fragment.
pub open spec fn shown(s: Seq<char>) -> Seq<char> {
    s.push('\n')
}

/// Takes a declaration's text into the fragment as it stands.
pub fn include_always(text: &str) -> (r: String)
    ensures
        r@ == shown(text@),
{
    let mut v = chars_of(text);
    v.push('\n');
    string_of(&v)
}

/// The statements of a block: the text without the whitespace around it, without
/// its opening and closing braces, and dedented.
pub open spec fn block_statements(body: Seq<char>) -> Seq<char> {
    dedent(unbrace(strip_both(body, Trim::Space)))
}

/// A block without its one opening and one closing brace.
pub open spec fn unbrace(s: Seq<char>) -> Seq<char> {
    let a = if s.len() > 0 && s[0] == '{' {
        s.drop_first()
    } else {
        s
    };
    if a.len() > 0 && a.last() == '}' {
        a.drop_last()
    } else {
        a
    }
}

fn unbrace_exec(v: &Vec<char>) -> (r: Vec<char>)
    ensures
        r@ == unbrace(v@),
{
    let n = v.len();
    let lo: usize = if n > 0 && v[0] == '{' { 1 } else { 0 };
    let hi: usize = if n > lo && v[n - 1] == '}' { n - 1 } else { n };
    let r = copy_range(v, lo, hi);
    proof {
        let a = if v@.len() > 0 && v@[0] == '{' { v@.drop_first() } else { v@ };
        assert(a =~= v@.subrange(lo as int, n as int));
        if a.len() > 0 {
            assert(a.last() == v@[n - 1]);
        }
        if a.len() > 0 && a.last() == '}' {
            assert(a.drop_last() =~= r@);
        } else {
            assert(a =~= r@);
        }
    }
    r
}

/// What a target function's body becomes: an `async` block kept whole for an
/// asynchronous function, the dedented statements otherwise.
pub open spec fn body_fragment(is_async: bool, body: Seq<char>) -> Seq<char> {
    if is_async {
        seq!['a', 's', 'y', 'n', 'c', ' '] + body + seq![';', '\n']
    } else {
        block_statements(body).push('\n')
    }
}

pub fn extract_function_body(is_async: bool, body: &Vec<char>) -> (r: Vec<char>)
    ensures
        r@ == body_fragment(is_async, body@),
{
    if is_async {
        let mut out: Vec<char> = vec!['a', 's', 'y', 'n', 'c', ' '];
        push_all(&mut out, body);
        out.push(';');
        out.push('\n');
        out
    } else {
        let t = strip_both_exec(body, Trim::Space);
        let t = unbrace_exec(&t);
        let mut out = dedent_exec(&t);
        out.push('\n');
        out
    }
}

} // verus!
