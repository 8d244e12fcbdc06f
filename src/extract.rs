//! Deciding which declarations go into the fragment, and assembling it.
use vstd::prelude::*;
use crate::decl::{DeclKind, DeclView, Declaration, decls_view, strs_view};
use crate::error::ExtractError;
use crate::order::{insert_sorted, sorted_strict};
use crate::text::{
    body_fragment, chars_of, extract_function_body, hidden, hidden_exec, join_lines, shown,
    string_of,
};

verus! {

/// The set of names a list holds.
pub open spec fn names(ts: Seq<String>) -> Set<Seq<char>> {
    Set::new(|x: Seq<char>| exists|i: int| 0 <= i < ts.len() && ts[i]@ == x)
}

/// The requested names, if the request restricts them at all.
pub open spec fn dep_set(deps: Option<Vec<String>>) -> Option<Set<Seq<char>>> {
    match deps {
        Some(v) => Some(names(v@)),
        None => None,
    }
}

/// A name passes unless a list of names is given that lacks it.
pub open spec fn is_dep(name: Seq<char>, deps: Option<Set<Seq<char>>>) -> bool {
    match deps {
        Some(d) => d.contains(name),
        None => true,
    }
}

/// What a match on `name` records: the name, where a list was given and holds it.
pub open spec fn recorded(name: Seq<char>, deps: Option<Set<Seq<char>>>) -> Set<Seq<char>> {
    match deps {
        Some(d) => if d.contains(name) {
            set![name]
        } else {
            Set::empty()
        },
        None => Set::empty(),
    }
}

/// The first token that passes as a dependency.
pub open spec fn first_dep(ts: Seq<Seq<char>>, deps: Option<Set<Seq<char>>>) -> Option<Seq<char>>
    decreases ts.len(),
{
    if ts.len() == 0 {
        None
    } else if is_dep(ts[0], deps) {
        Some(ts[0])
    } else {
        first_dep(ts.drop_first(), deps)
    }
}

pub open spec fn type_hit(ty: Option<Seq<Seq<char>>>, deps: Option<Set<Seq<char>>>) -> Option<Seq<char>> {
    match ty {
        Some(ts) => first_dep(ts, deps),
        None => None,
    }
}

/// The token that brings an `impl` block in: the first that passes in its self
/// type, else the first that passes in its trait.
pub open spec fn impl_hit(d: DeclView, deps: Option<Set<Seq<char>>>) -> Option<Seq<char>> {
    let a = type_hit(d.self_ty, deps);
    if a is Some {
        a
    } else {
        type_hit(d.trait_ty, deps)
    }
}

/// A declaration taken in when its name passes.
pub open spec fn named_step(d: DeclView, found: bool, deps: Option<Set<Seq<char>>>) -> (Option<Seq<char>>, bool, Set<Seq<char>>) {
    match d.name {
        Some(n) => if is_dep(n, deps) {
            (Some(shown(d.text)), found, recorded(n, deps))
        } else {
            (None, found, Set::empty())
        },
        None => (None, found, Set::empty()),
    }
}

/// What one declaration contributes, given whether the target was found before
/// it: its fragment if it is taken in, whether the target is found after it,
/// and the requested names it matched.
pub open spec fn decl_step(d: DeclView, found: bool, target: Seq<char>, deps: Option<Set<Seq<char>>>) -> (Option<Seq<char>>, bool, Set<Seq<char>>) {
    match d.kind {
        DeclKind::Import => (Some(hidden(d.text)), found, Set::empty()),
        DeclKind::ExternBlock | DeclKind::ExternCrateRef | DeclKind::MacroInvocation => (
            Some(shown(d.text)),
            found,
            Set::empty(),
        ),
        DeclKind::Function => match d.name {
            Some(n) => if n == target {
                if found {
                    (None, true, Set::empty())
                } else {
                    match d.body {
                        Some(b) => (Some(body_fragment(d.is_async, b)), true, Set::empty()),
                        None => (None, true, Set::empty()),
                    }
                }
            } else {
                named_step(d, found, deps)
            },
            None => (None, found, Set::empty()),
        },
        DeclKind::Impl => match impl_hit(d, deps) {
            Some(n) => (Some(shown(d.text)), found, recorded(n, deps)),
            None => (None, found, Set::empty()),
        },
        _ => named_step(d, found, deps),
    }
}

/// The fragments of the first `n` declarations in order, whether the target was
/// among them, and the requested names they matched.
pub open spec fn scan(ds: Seq<DeclView>, n: int, target: Seq<char>, deps: Option<Set<Seq<char>>>) -> (Seq<Seq<char>>, bool, Set<Seq<char>>)
    decreases n,
{
    if n <= 0 {
        (seq![], false, Set::empty())
    } else {
        let prev = scan(ds, n - 1, target, deps);
        let s = decl_step(ds[n - 1], prev.1, target, deps);
        let frags = match s.0 {
            Some(f) => prev.0.push(f),
            None => prev.0,
        };
        (frags, s.1, prev.2.union(s.2))
    }
}

/// How an extraction ends, as views.
pub enum Outcome {
    Text(Seq<char>),
    MissingDeps(Set<Seq<char>>),
    TargetMissing,
}

/// The requested names that matched nothing.
pub open spec fn missing_names(deps: Option<Set<Seq<char>>>, matched: Set<Seq<char>>) -> Set<Seq<char>> {
    match deps {
        Some(d) => d.difference(matched),
        None => Set::empty(),
    }
}

/// The outcome of extracting `target` from the declarations `ds`.
pub open spec fn extraction(ds: Seq<DeclView>, target: Seq<char>, deps: Option<Vec<String>>) -> Outcome {
    let s = scan(ds, ds.len() as int, target, dep_set(deps));
    let miss = missing_names(dep_set(deps), s.2);
    if miss != Set::<Seq<char>>::empty() {
        Outcome::MissingDeps(miss)
    } else if !s.1 {
        Outcome::TargetMissing
    } else {
        Outcome::Text(join_lines(s.0))
    }
}

/// What a result of the engine says, as views.
pub open spec fn outcome_of(r: Result<String, ExtractError>, target: Seq<char>) -> Option<Outcome> {
    match r {
        Ok(s) => Some(Outcome::Text(s@)),
        Err(ExtractError::DependencyNotFound { missing }) => if sorted_strict(strs_view(missing@)) {
            Some(Outcome::MissingDeps(names(missing@)))
        } else {
            None
        },
        Err(ExtractError::FunctionNotFound { name }) => if name@ == target {
            Some(Outcome::TargetMissing)
        } else {
            None
        },
        Err(_) => None,
    }
}

proof fn lemma_no_recorded(n: Seq<char>, deps: Option<Set<Seq<char>>>)
    requires
        !is_dep(n, deps),
    ensures
        recorded(n, deps) == Set::<Seq<char>>::empty(),
{
}

pub(crate) fn contains_name(v: &Vec<String>, name: &String) -> (r: bool)
    ensures
        r == names(v@).contains(name@),
{
    let mut i: usize = 0;
    while i < v.len()
        invariant
            i <= v@.len(),
            forall|k: int| 0 <= k < i ==> v@[k]@ != name@,
        decreases v@.len() - i,
    {
        if v[i] == *name {
            assert(names(v@).contains(name@)) by {
                assert(v@[i as int]@ == name@);
            }
            return true;
        }
        i = i + 1;
    }
    false
}

/// Tells whether `name` passes as a dependency, and records it in `tracker`
/// when a list of names was given and holds it.
pub fn is_dependency(name: &String, deps: &Option<Vec<String>>, tracker: &mut Vec<String>) -> (r: bool)
    ensures
        r == is_dep(name@, dep_set(*deps)),
        names(final(tracker)@) == names(old(tracker)@).union(recorded(name@, dep_set(*deps))),
{
    match deps {
        None => {
            assert(names(tracker@) =~= names(tracker@).union(Set::empty()));
            true
        },
        Some(d) => {
            let is = contains_name(d, name);
            if is {
                let ghost before = tracker@;
                let c = name.clone();
                tracker.push(c);
                assert(names(tracker@) =~= names(before).union(set![name@])) by {
                    assert(tracker@[before.len() as int]@ == name@);
                    assert forall|x: Seq<char>| names(before).contains(x) implies names(tracker@).contains(x) by {
                        let i = choose|i: int| 0 <= i < before.len() && before[i]@ == x;
                        assert(tracker@[i] == before[i]);
                    }
                    assert forall|x: Seq<char>| names(tracker@).contains(x) implies names(before).union(set![name@]).contains(x) by {
                        let i = choose|i: int| 0 <= i < tracker@.len() && tracker@[i]@ == x;
                        if i < before.len() {
                            assert(before[i] == tracker@[i]);
                        }
                    }
                }
            } else {
                assert(names(tracker@) =~= names(tracker@).union(Set::empty()));
            }
            is
        },
    }
}


/// Tells whether some token of a type passes as a dependency; the first that
/// does is recorded.
pub fn is_type_dependency(ty: &Option<Vec<String>>, deps: &Option<Vec<String>>, tracker: &mut Vec<String>) -> (r: bool)
    ensures
        r == (type_hit(crate::decl::tokens_view(*ty), dep_set(*deps)) is Some),
        names(final(tracker)@) == names(old(tracker)@).union(
            match type_hit(crate::decl::tokens_view(*ty), dep_set(*deps)) {
                Some(n) => recorded(n, dep_set(*deps)),
                None => Set::empty(),
            },
        ),
{
    match ty {
        None => {
            assert(names(tracker@) =~= names(tracker@).union(Set::empty()));
            false
        },
        Some(ts) => {
            let ghost tv = strs_view(ts@);
            let ghost ds = dep_set(*deps);
            assert(crate::decl::tokens_view(*ty) == Some(tv));
            let n = ts.len();
            let mut i: usize = 0;
            assert(tv.subrange(0, n as int) =~= tv);
            while i < n
                invariant
                    i <= n == ts@.len(),
                    tv == strs_view(ts@),
                    crate::decl::tokens_view(*ty) == Some(tv),
                    ds == dep_set(*deps),
                    first_dep(tv, ds) == first_dep(tv.subrange(i as int, n as int), ds),
                    names(tracker@) == names(old(tracker)@),
                decreases n - i,
            {
                assert(tv.subrange(i as int, n as int).drop_first() =~= tv.subrange(i + 1, n as int));
                assert(tv.subrange(i as int, n as int)[0] == ts@[i as int]@);
                if is_dependency(&ts[i], deps, tracker) {
                    assert(first_dep(tv, ds) == Some(tv[i as int]));
                    return true;
                }
                assert(names(tracker@) =~= names(old(tracker)@));
                i = i + 1;
            }
            assert(names(tracker@) =~= names(old(tracker)@).union(Set::empty()));
            false
        },
    }
}

fn named_exec(d: &Declaration, deps: &Option<Vec<String>>, tracker: &mut Vec<String>) -> (r: Option<Vec<char>>)
    ensures
        (match r {
            Some(v) => Some(v@),
            None => None,
        }) == named_step(d@, false, dep_set(*deps)).0,
        names(final(tracker)@) == names(old(tracker)@).union(named_step(d@, false, dep_set(*deps)).2),
{
    match &d.name {
        Some(n) => {
            if is_dependency(n, deps, tracker) {
                let mut v = chars_of(d.text.as_str());
                v.push('\n');
                Some(v)
            } else {
                proof {
                    lemma_no_recorded(n@, dep_set(*deps));
                }
                None
            }
        },
        None => {
            assert(names(tracker@) =~= names(tracker@).union(Set::empty()));
            None
        },
    }
}

fn step_exec(
    d: &Declaration,
    found: bool,
    target: &String,
    deps: &Option<Vec<String>>,
    tracker: &mut Vec<String>,
) -> (r: (Option<Vec<char>>, bool))
    ensures
        (match r.0 {
            Some(v) => Some(v@),
            None => None,
        }) == decl_step(d@, found, target@, dep_set(*deps)).0,
        r.1 == decl_step(d@, found, target@, dep_set(*deps)).1,
        names(final(tracker)@) == names(old(tracker)@).union(decl_step(d@, found, target@, dep_set(*deps)).2),
{
    proof {
        assert(names(tracker@) =~= names(tracker@).union(Set::empty()));
    }
    match d.kind {
        DeclKind::Import => {
            let v = chars_of(d.text.as_str());
            (Some(hidden_exec(&v)), found)
        },
        DeclKind::ExternBlock | DeclKind::ExternCrateRef | DeclKind::MacroInvocation => {
            let mut v = chars_of(d.text.as_str());
            v.push('\n');
            (Some(v), found)
        },
        DeclKind::Function => match &d.name {
            Some(n) => {
                if *n == *target {
                    if found {
                        (None, true)
                    } else {
                        match &d.body {
                            Some(b) => {
                                let bv = chars_of(b.as_str());
                                (Some(extract_function_body(d.is_async, &bv)), true)
                            },
                            None => (None, true),
                        }
                    }
                } else {
                    (named_exec(d, deps, tracker), found)
                }
            },
            None => (None, found),
        },
        DeclKind::Impl => {
            let ghost sh = type_hit(d@.self_ty, dep_set(*deps));
            let ghost th = type_hit(d@.trait_ty, dep_set(*deps));
            if is_type_dependency(&d.self_ty, deps, tracker) {
                let mut v = chars_of(d.text.as_str());
                v.push('\n');
                (Some(v), found)
            } else {
                assert(names(tracker@) =~= names(old(tracker)@));
                if is_type_dependency(&d.trait_ty, deps, tracker) {
                    let mut v = chars_of(d.text.as_str());
                    v.push('\n');
                    (Some(v), found)
                } else {
                    (None, found)
                }
            }
        },
        _ => (named_exec(d, deps, tracker), found),
    }
}


proof fn lemma_names_push(ts: Seq<String>, k: int)
    requires
        0 <= k < ts.len(),
    ensures
        names(ts.take(k + 1)) == names(ts.take(k)).insert(ts[k]@),
{
    let a = ts.take(k + 1);
    let b = ts.take(k);
    assert forall|y: Seq<char>| names(a).contains(y) implies names(b).insert(ts[k]@).contains(y) by {
        let i = choose|i: int| 0 <= i < a.len() && a[i]@ == y;
        if i < k {
            assert(b[i] == a[i]);
        }
    }
    assert forall|y: Seq<char>| names(b).insert(ts[k]@).contains(y) implies names(a).contains(y) by {
        if y == ts[k]@ {
            assert(a[k] == ts[k]);
        } else {
            let i = choose|i: int| 0 <= i < b.len() && b[i]@ == y;
            assert(a[i] == b[i]);
        }
    }
    assert(names(a) =~= names(b).insert(ts[k]@));
}

/// The requested names that no declaration matched, sorted, each once.
fn missing_exec(req: &Vec<String>, tracker: &Vec<String>) -> (r: Vec<String>)
    ensures
        sorted_strict(strs_view(r@)),
        names(r@) == names(req@).difference(names(tracker@)),
{
    let mut miss: Vec<String> = Vec::new();
    let mut k: usize = 0;
    assert(names(miss@) =~= names(req@.take(0)).difference(names(tracker@)));
    while k < req.len()
        invariant
            k <= req@.len(),
            sorted_strict(strs_view(miss@)),
            names(miss@) == names(req@.take(k as int)).difference(names(tracker@)),
        decreases req@.len() - k,
    {
        proof {
            lemma_names_push(req@, k as int);
        }
        if !contains_name(tracker, &req[k]) && !contains_name(&miss, &req[k]) {
            let c = req[k].clone();
            insert_sorted(&mut miss, c);
            assert(names(miss@) =~= names(req@.take(k + 1)).difference(names(tracker@)));
        } else {
            assert(names(miss@) =~= names(req@.take(k + 1)).difference(names(tracker@)));
        }
        k = k + 1;
    }
    assert(req@.take(k as int) =~= req@);
    miss
}

fn join_fragments(frags: &Vec<Vec<char>>) -> (r: Vec<char>)
    ensures
        r@ == join_lines(crate::text::views(frags@)),
{
    let ghost fv = crate::text::views(frags@);
    let mut out: Vec<char> = Vec::new();
    let mut k: usize = 0;
    while k < frags.len()
        invariant
            k <= frags@.len(),
            fv == crate::text::views(frags@),
            out@ == join_lines(fv.take(k as int)),
        decreases frags@.len() - k,
    {
        assert(fv.take(k + 1).drop_last() =~= fv.take(k as int));
        if k > 0 {
            out.push('\n');
        }
        crate::text::push_all(&mut out, &frags[k]);
        k = k + 1;
        assert(out@ =~= join_lines(fv.take(k as int)));
    }
    assert(fv.take(k as int) =~= fv);
    out
}

/// Assembles the fragment for `target` from the declarations of a file: the
/// declarations taken in, in file order, then the target's body. Fails when a
/// requested dependency matched nothing, else when the target is missing.
pub fn doc_function_body(decls: &Vec<Declaration>, target: &str, deps: &Option<Vec<String>>) -> (r: Result<String, ExtractError>)
    ensures
        outcome_of(r, target@) == Some(extraction(decls_view(decls@), target@, *deps)),
{
    let ghost dv = decls_view(decls@);
    let ghost ds = dep_set(*deps);
    let target_name = String::from_str(target);
    let mut frags: Vec<Vec<char>> = Vec::new();
    let mut found = false;
    let mut tracker: Vec<String> = Vec::new();
    let mut k: usize = 0;
    assert(names(tracker@) =~= Set::empty());
    while k < decls.len()
        invariant
            k <= decls@.len(),
            dv == decls_view(decls@),
            ds == dep_set(*deps),
            target_name@ == target@,
            crate::text::views(frags@) == scan(dv, k as int, target@, ds).0,
            found == scan(dv, k as int, target@, ds).1,
            names(tracker@) == scan(dv, k as int, target@, ds).2,
        decreases decls@.len() - k,
    {
        let (f, fd) = step_exec(&decls[k], found, &target_name, deps, &mut tracker);
        assert(dv[k as int] == decls@[k as int]@);
        match f {
            Some(v) => {
                let ghost before = frags@;
                frags.push(v);
                assert(crate::text::views(frags@) =~= crate::text::views(before).push(frags@.last()@));
            },
            None => {},
        }
        found = fd;
        k = k + 1;
    }
    let doc = join_fragments(&frags);
    match deps {
        Some(d) => {
            let missing = missing_exec(d, &tracker);
            if missing.len() > 0 {
                assert(names(missing@).contains(missing@[0]@));
                return Err(ExtractError::DependencyNotFound { missing });
            }
            assert(names(missing@) =~= Set::<Seq<char>>::empty());
        },
        None => {},
    }
    if !found {
        return Err(ExtractError::FunctionNotFound { name: target_name });
    }
    Ok(string_of(&doc))
}

} // verus!
