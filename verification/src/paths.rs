//! Lexical path sanitisation.
//!
//! Every path taken from an untrusted archive or recipe is normalised here
//! before it is joined onto a build root: `.` components and repeated
//! separators are collapsed, `..` components are resolved lexically, a
//! leading root is stripped, and any path that would escape the notional
//! root is rejected.

use vstd::prelude::*;
use crate::strutil::{chars_of, string_of};

verus! {

/// The `..` component.
pub open spec fn dotdot() -> Seq<char> {
    seq!['.', '.']
}

/// The `.` component.
pub open spec fn dot() -> Seq<char> {
    seq!['.']
}

/// The components of a path string: maximal runs of characters between
/// `/` separators.  Empty runs (from repeated or trailing separators, or
/// from the empty path) are kept at this stage and filtered during
/// resolution.
pub open spec fn split_path(s: Seq<char>) -> Seq<Seq<char>>
    decreases s.len(),
{
    if s.len() == 0 {
        seq![Seq::<char>::empty()]
    } else if s.last() == '/' {
        split_path(s.drop_last()).push(Seq::<char>::empty())
    } else {
        let r = split_path(s.drop_last());
        r.update(r.len() - 1, r.last().push(s.last()))
    }
}

/// A component is skipped during resolution when it is empty or `.`.
pub open spec fn is_skippable(c: Seq<char>) -> bool {
    c.len() == 0 || c == dot()
}

/// Resolve a component list left to right against a stack: skippable
/// components vanish, `..` pops the stack, anything else is pushed.
/// A `..` on an empty stack escapes the root: for an absolute path it is
/// dropped (the parent of the root is the root), for a relative path the
/// whole path is rejected.
pub open spec fn resolve_components(cs: Seq<Seq<char>>, absolute: bool) -> Option<Seq<Seq<char>>>
    decreases cs.len(),
{
    if cs.len() == 0 {
        Some(Seq::empty())
    } else {
        match resolve_components(cs.drop_last(), absolute) {
            None => None,
            Some(st) => {
                let c = cs.last();
                if is_skippable(c) {
                    Some(st)
                } else if c == dotdot() {
                    if st.len() > 0 {
                        Some(st.drop_last())
                    } else if absolute {
                        Some(st)
                    } else {
                        None
                    }
                } else {
                    Some(st.push(c))
                }
            },
        }
    }
}

/// Join components with single separators.
pub open spec fn join_path(cs: Seq<Seq<char>>) -> Seq<char>
    decreases cs.len(),
{
    if cs.len() == 0 {
        Seq::empty()
    } else if cs.len() == 1 {
        cs[0]
    } else {
        join_path(cs.drop_last()) + seq!['/'] + cs.last()
    }
}

pub open spec fn is_absolute(s: Seq<char>) -> bool {
    s.len() > 0 && s[0] == '/'
}

/// The sanitised component list of a path: `None` when it escapes the
/// root.
pub open spec fn norm_comps(s: Seq<char>) -> Option<Seq<Seq<char>>> {
    resolve_components(split_path(s), is_absolute(s))
}

/// What sanitisation yields: `None` when the path escapes the root,
/// otherwise the normalised relative path.
pub open spec fn sanitize_path_spec(s: Seq<char>) -> Option<Seq<char>> {
    match norm_comps(s) {
        None => None,
        Some(st) => Some(join_path(st)),
    }
}

/// A resolved stack holds only real component names: nonempty, not `.`,
/// not `..`, and free of separators.
pub open spec fn clean_component(c: Seq<char>) -> bool {
    &&& c.len() > 0
    &&& c != dot()
    &&& c != dotdot()
    &&& forall|i: int| 0 <= i < c.len() ==> c[i] != '/'
}

pub open spec fn clean_stack(st: Seq<Seq<char>>) -> bool {
    forall|i: int| 0 <= i < st.len() ==> clean_component(#[trigger] st[i])
}

/// Components produced by splitting never contain a separator.
pub proof fn lemma_split_path_no_sep(s: Seq<char>)
    ensures
        forall|i: int, j: int|
            0 <= i < split_path(s).len() && 0 <= j < split_path(s)[i].len()
                ==> split_path(s)[i][j] != '/',
        split_path(s).len() > 0,
    decreases s.len(),
{
    if s.len() == 0 {
    } else {
        lemma_split_path_no_sep(s.drop_last());
        if s.last() == '/' {
        } else {
            let r = split_path(s.drop_last());
            assert(forall|j: int| 0 <= j < r.last().len() ==> r.last()[j] != '/');
        }
    }
}

/// Resolution only ever yields clean stacks, provided the input
/// components are separator-free.
pub proof fn lemma_resolve_clean(cs: Seq<Seq<char>>, absolute: bool)
    requires
        forall|i: int, j: int|
            0 <= i < cs.len() && 0 <= j < cs[i].len() ==> cs[i][j] != '/',
    ensures
        match resolve_components(cs, absolute) {
            None => true,
            Some(st) => clean_stack(st),
        },
    decreases cs.len(),
{
    if cs.len() == 0 {
    } else {
        assert(forall|i: int, j: int|
            0 <= i < cs.drop_last().len() && 0 <= j < cs.drop_last()[i].len()
                ==> cs.drop_last()[i][j] != '/');
        lemma_resolve_clean(cs.drop_last(), absolute);
        match resolve_components(cs.drop_last(), absolute) {
            None => {},
            Some(st) => {
                let c = cs.last();
                if is_skippable(c) {
                } else if c == dotdot() {
                    if st.len() > 0 {
                        assert(clean_stack(st.drop_last())) by {
                            assert(forall|i: int| 0 <= i < st.drop_last().len()
                                ==> clean_component(#[trigger] st.drop_last()[i]));
                        }
                    }
                } else {
                    assert(cs.len() - 1 < cs.len());
                    assert(forall|j: int| 0 <= j < c.len() ==> c[j] != '/');
                    assert(clean_component(c));
                    assert(clean_stack(st.push(c))) by {
                        assert(forall|i: int| 0 <= i < st.push(c).len()
                            ==> clean_component(#[trigger] st.push(c)[i]));
                    }
                }
            },
        }
    }
}

/// Joining a clean stack never puts a separator first, and splitting the
/// joined path gives the stack back, so the result has no `..` component.
pub proof fn lemma_join_clean(st: Seq<Seq<char>>)
    requires
        clean_stack(st),
    ensures
        st.len() == 0 ==> join_path(st).len() == 0,
        st.len() > 0 ==> join_path(st).len() > 0 && join_path(st)[0] != '/',
        split_path(join_path(st)) == if st.len() == 0 { seq![Seq::<char>::empty()] } else { st },
    decreases st.len(),
{
    if st.len() == 0 {
    } else if st.len() == 1 {
        assert(clean_component(st[0]));
        lemma_split_of_component(st[0], st[0].len() as int);
        assert(st[0].take(st[0].len() as int) =~= st[0]);
        assert(split_path(st[0]) =~= seq![st[0]]);
        assert(split_path(join_path(st)) =~= st);
    } else {
        let pre = st.drop_last();
        assert(clean_stack(pre)) by {
            assert(forall|i: int| 0 <= i < pre.len() ==> clean_component(#[trigger] pre[i]));
        }
        lemma_join_clean(pre);
        assert(clean_component(st.last()));
        lemma_split_of_append(join_path(pre), st.last(), st.last().len() as int);
        assert(st.last().take(st.last().len() as int) =~= st.last());
        assert(join_path(st) =~= join_path(pre) + seq!['/'] + st.last());
        assert(split_path(join_path(st)) =~= split_path(join_path(pre)).push(st.last()));
        assert(split_path(join_path(st)) =~= pre.push(st.last()));
        assert(pre.push(st.last()) =~= st);
        assert(join_path(pre).len() > 0 && join_path(pre)[0] != '/');
        assert(join_path(st)[0] == join_path(pre)[0]);
    }
}

/// Splitting a single separator-free component `c` yields `[c]`.
/// Stated over the first `n` characters for the induction.
proof fn lemma_split_of_component(c: Seq<char>, n: int)
    requires
        0 <= n <= c.len(),
        forall|i: int| 0 <= i < c.len() ==> c[i] != '/',
    ensures
        split_path(c.take(n)) == seq![c.take(n)],
    decreases n,
{
    if n == 0 {
        assert(c.take(0) =~= Seq::<char>::empty());
        assert(split_path(c.take(0)) =~= seq![c.take(0)]);
    } else {
        lemma_split_of_component(c, n - 1);
        let s = c.take(n);
        assert(s.last() == c[n - 1]);
        assert(s.last() != '/');
        assert(s.drop_last() =~= c.take(n - 1));
        let r = split_path(c.take(n - 1));
        assert(r =~= seq![c.take(n - 1)]);
        assert(split_path(s) =~= r.update(0, r[0].push(c[n - 1])));
        assert(c.take(n - 1).push(c[n - 1]) =~= c.take(n));
        assert(split_path(s) =~= seq![c.take(n)]);
    }
}

/// Splitting `p + "/" + c` (with `c` separator-free) appends one
/// component to the split of `p`.  Stated over the first `n` characters
/// of `c` for the induction.
proof fn lemma_split_of_append(p: Seq<char>, c: Seq<char>, n: int)
    requires
        0 <= n <= c.len(),
        forall|i: int| 0 <= i < c.len() ==> c[i] != '/',
    ensures
        split_path(p + seq!['/'] + c.take(n)) == split_path(p).push(c.take(n)),
    decreases n,
{
    if n == 0 {
        let s = p + seq!['/'] + c.take(0);
        assert(s.len() == p.len() + 1);
        assert(s.last() == '/');
        assert(s.drop_last() =~= p);
        assert(split_path(s) =~= split_path(p).push(Seq::<char>::empty()));
        assert(c.take(0) =~= Seq::<char>::empty());
    } else {
        lemma_split_of_append(p, c, n - 1);
        let s = p + seq!['/'] + c.take(n);
        assert(s.last() == c[n - 1]);
        assert(s.last() != '/');
        assert(s.drop_last() =~= p + seq!['/'] + c.take(n - 1));
        let r = split_path(p + seq!['/'] + c.take(n - 1));
        assert(r == split_path(p).push(c.take(n - 1)));
        lemma_split_path_no_sep(p);
        assert(r.len() == split_path(p).len() + 1);
        assert(r.last() == c.take(n - 1));
        assert(split_path(s) =~= r.update(r.len() - 1, r.last().push(c[n - 1])));
        assert(c.take(n - 1).push(c[n - 1]) =~= c.take(n));
        assert(split_path(s) =~= split_path(p).push(c.take(n)));
    }
}

/// Path safety: whatever sanitisation accepts is a relative path with no
/// `..` component, so joining it onto a root cannot escape that root.
pub proof fn lemma_sanitize_path_safe(s: Seq<char>)
    ensures
        match sanitize_path_spec(s) {
            None => true,
            Some(q) => {
                &&& q.len() > 0 ==> q[0] != '/'
                &&& !split_path(q).contains(dotdot())
                &&& !split_path(q).contains(Seq::<char>::empty()) || q.len() == 0
            },
        },
{
    lemma_split_path_no_sep(s);
    lemma_resolve_clean(split_path(s), is_absolute(s));
    match resolve_components(split_path(s), is_absolute(s)) {
        None => {},
        Some(st) => {
            lemma_join_clean(st);
            let q = join_path(st);
            if st.len() == 0 {
                assert(split_path(q) =~= seq![Seq::<char>::empty()]);
                assert(!split_path(q).contains(dotdot()));
            } else {
                assert(split_path(q) == st);
                assert(!st.contains(dotdot())) by {
                    assert(forall|i: int| 0 <= i < st.len() ==> #[trigger] st[i] != dotdot());
                }
                assert(!st.contains(Seq::<char>::empty())) by {
                    assert(forall|i: int|
                        0 <= i < st.len() ==> #[trigger] st[i] != Seq::<char>::empty());
                }
            }
        },
    }
}

/// Normalise a path, or report that it escapes the notional root.
///
/// `.` and empty components collapse, `..` resolves against the
/// components before it, a leading `/` is stripped, and a relative path
/// that still begins with `..` after cleaning is refused.  Sanitising
/// `.` (or the empty path) yields the empty path, so that joining the
/// result onto a root gives the root itself.
pub fn sanitize_path(p: &str) -> (r: Option<String>)
    ensures
        match r {
            Some(q) => sanitize_path_spec(p@) == Some(q@),
            None => sanitize_path_spec(p@) is None,
        },
{
    let cs = chars_of(p);
    let absolute = cs.len() > 0 && cs[0] == '/';

    // Split into components.
    let mut comps: Vec<Vec<char>> = Vec::new();
    let mut cur: Vec<char> = Vec::new();
    let mut i: usize = 0;
    while i < cs.len()
        invariant
            cs@ == p@,
            i <= cs@.len(),
            comps@.map_values(|c: Vec<char>| c@).push(cur@) == split_path(cs@.take(i as int)),
        decreases cs@.len() - i,
    {
        let ghost pre = cs@.take(i as int);
        proof {
            assert(cs@.take(i + 1).drop_last() =~= pre);
            assert(cs@.take(i + 1).last() == cs@[i as int]);
        }
        if cs[i] == '/' {
            comps.push(cur);
            cur = Vec::new();
            proof {
                assert(comps@.map_values(|c: Vec<char>| c@).push(cur@)
                    =~= split_path(cs@.take(i + 1)));
            }
        } else {
            cur.push(cs[i]);
            proof {
                let r = split_path(pre);
                assert(split_path(cs@.take(i + 1))
                    =~= r.update(r.len() - 1, r.last().push(cs@[i as int])));
                assert(comps@.map_values(|c: Vec<char>| c@).push(cur@)
                    =~= split_path(cs@.take(i + 1)));
            }
        }
        i = i + 1;
    }
    comps.push(cur);
    proof {
        assert(cs@.take(cs@.len() as int) =~= cs@);
        assert(comps@.map_values(|c: Vec<char>| c@) == split_path(p@));
    }

    // Resolve the components against a stack.
    let ghost all = comps@.map_values(|c: Vec<char>| c@);
    let mut stack: Vec<Vec<char>> = Vec::new();
    let mut k: usize = 0;
    while k < comps.len()
        invariant
            all == comps@.map_values(|c: Vec<char>| c@),
            all == split_path(p@),
            absolute == is_absolute(p@),
            k <= comps@.len(),
            resolve_components(all.take(k as int), absolute)
                == Some(stack@.map_values(|c: Vec<char>| c@)),
        decreases comps@.len() - k,
    {
        let ghost pre = all.take(k as int);
        proof {
            assert(all.take(k + 1).drop_last() =~= pre);
            assert(all.take(k + 1).last() == all[k as int]);
        }
        let c = &comps[k];
        let skip = c.len() == 0 || (c.len() == 1 && c[0] == '.');
        proof {
            if c.len() == 1 && c@[0] == '.' {
                assert(c@ =~= dot());
            }
            if c@ == dot() {
                assert(c@.len() == 1 && c@[0] == '.');
            }
            assert(skip == is_skippable(c@));
        }
        if skip {
        } else {
            let is_dd = c.len() == 2 && c[0] == '.' && c[1] == '.';
            proof {
                if is_dd {
                    assert(c@ =~= dotdot());
                }
                if c@ == dotdot() {
                    assert(c@.len() == 2 && c@[0] == '.' && c@[1] == '.');
                }
            }
            if is_dd {
                if stack.len() > 0 {
                    stack.pop();
                    proof {
                        assert(stack@.map_values(|cc: Vec<char>| cc@)
                            =~= resolve_components(pre, absolute).unwrap().drop_last());
                    }
                } else if absolute {
                } else {
                    proof {
                        lemma_resolve_extends_none(all, k as int + 1, absolute);
                    }
                    return None;
                }
            } else {
                let copy = clone_chars(c);
                stack.push(copy);
                proof {
                    assert(stack@.map_values(|cc: Vec<char>| cc@)
                        =~= resolve_components(pre, absolute).unwrap().push(c@));
                }
            }
        }
        k = k + 1;
    }
    proof {
        assert(all.take(all.len() as int) =~= all);
    }

    // Join the stack with separators.
    let mut out: Vec<char> = Vec::new();
    let mut m: usize = 0;
    while m < stack.len()
        invariant
            m <= stack@.len(),
            out@ == join_path(stack@.map_values(|c: Vec<char>| c@).take(m as int)),
        decreases stack@.len() - m,
    {
        let ghost stv = stack@.map_values(|c: Vec<char>| c@);
        proof {
            assert(stv.take(m + 1).drop_last() =~= stv.take(m as int));
            assert(stv.take(m + 1).last() == stv[m as int]);
        }
        if m > 0 {
            out.push('/');
        }
        let c = &stack[m];
        let mut j: usize = 0;
        let ghost out0 = out@;
        while j < c.len()
            invariant
                j <= c@.len(),
                out@ == out0 + c@.take(j as int),
            decreases c@.len() - j,
        {
            out.push(c[j]);
            proof {
                assert(out0 + c@.take(j + 1) =~= (out0 + c@.take(j as int)).push(c@[j as int]));
            }
            j = j + 1;
        }
        proof {
            assert(c@.take(c@.len() as int) =~= c@);
            let t = stv.take(m + 1);
            if m == 0 {
                assert(t.len() == 1);
                assert(join_path(t) == t[0]);
                assert(out@ =~= join_path(t));
            } else {
                assert(join_path(t) == join_path(t.drop_last()) + seq!['/'] + t.last());
                assert(out@ =~= join_path(t));
            }
        }
        m = m + 1;
    }
    proof {
        let stv = stack@.map_values(|c: Vec<char>| c@);
        assert(stv.take(stv.len() as int) =~= stv);
    }
    Some(string_of(&out))
}

/// The sanitised components of a path, as strings.
pub fn sanitize_parts(p: &str) -> (r: Option<Vec<String>>)
    ensures
        match r {
            Some(v) => norm_comps(p@) == Some(v.deep_view()) && clean_stack(v.deep_view()),
            None => norm_comps(p@) is None,
        },
{
    let cs = chars_of(p);
    let absolute = cs.len() > 0 && cs[0] == '/';
    let mut comps: Vec<Vec<char>> = Vec::new();
    let mut cur: Vec<char> = Vec::new();
    let mut i: usize = 0;
    while i < cs.len()
        invariant
            cs@ == p@,
            i <= cs@.len(),
            comps@.map_values(|c: Vec<char>| c@).push(cur@) == split_path(cs@.take(i as int)),
        decreases cs@.len() - i,
    {
        let ghost pre = cs@.take(i as int);
        proof {
            assert(cs@.take(i + 1).drop_last() =~= pre);
            assert(cs@.take(i + 1).last() == cs@[i as int]);
        }
        if cs[i] == '/' {
            comps.push(cur);
            cur = Vec::new();
            proof {
                assert(comps@.map_values(|c: Vec<char>| c@).push(cur@)
                    =~= split_path(cs@.take(i + 1)));
            }
        } else {
            cur.push(cs[i]);
            proof {
                let r = split_path(pre);
                assert(split_path(cs@.take(i + 1))
                    =~= r.update(r.len() - 1, r.last().push(cs@[i as int])));
                assert(comps@.map_values(|c: Vec<char>| c@).push(cur@)
                    =~= split_path(cs@.take(i + 1)));
            }
        }
        i = i + 1;
    }
    comps.push(cur);
    proof {
        assert(cs@.take(cs@.len() as int) =~= cs@);
        assert(comps@.map_values(|c: Vec<char>| c@) == split_path(p@));
    }
    let ghost all = comps@.map_values(|c: Vec<char>| c@);
    let mut stack: Vec<String> = Vec::new();
    let mut k: usize = 0;
    while k < comps.len()
        invariant
            all == comps@.map_values(|c: Vec<char>| c@),
            all == split_path(p@),
            absolute == is_absolute(p@),
            k <= comps@.len(),
            resolve_components(all.take(k as int), absolute) == Some(stack.deep_view()),
        decreases comps@.len() - k,
    {
        let ghost pre = all.take(k as int);
        proof {
            assert(all.take(k + 1).drop_last() =~= pre);
            assert(all.take(k + 1).last() == all[k as int]);
        }
        let c = &comps[k];
        let skip = c.len() == 0 || (c.len() == 1 && c[0] == '.');
        proof {
            if c.len() == 1 && c@[0] == '.' {
                assert(c@ =~= dot());
            }
            if c@ == dot() {
                assert(c@.len() == 1 && c@[0] == '.');
            }
            assert(skip == is_skippable(c@));
        }
        if skip {
        } else {
            let is_dd = c.len() == 2 && c[0] == '.' && c[1] == '.';
            proof {
                if is_dd {
                    assert(c@ =~= dotdot());
                }
                if c@ == dotdot() {
                    assert(c@.len() == 2 && c@[0] == '.' && c@[1] == '.');
                }
            }
            if is_dd {
                if stack.len() > 0 {
                    stack.pop();
                    proof {
                        assert(stack.deep_view()
                            =~= resolve_components(pre, absolute).unwrap().drop_last());
                    }
                } else if absolute {
                } else {
                    proof {
                        lemma_resolve_extends_none(all, k as int + 1, absolute);
                    }
                    return None;
                }
            } else {
                let copy = clone_chars(c);
                let ghost before = stack.deep_view();
                stack.push(string_of(&copy));
                proof {
                    assert(stack.deep_view() =~= before.push(c@));
                }
            }
        }
        k = k + 1;
    }
    proof {
        assert(all.take(all.len() as int) =~= all);
        lemma_split_path_no_sep(p@);
        lemma_resolve_clean(split_path(p@), is_absolute(p@));
    }
    Some(stack)
}

/// Once resolution fails on a prefix, it fails on every extension.
proof fn lemma_resolve_extends_none(cs: Seq<Seq<char>>, k: int, absolute: bool)
    requires
        0 <= k <= cs.len(),
        resolve_components(cs.take(k), absolute) is None,
    ensures
        resolve_components(cs, absolute) is None,
    decreases cs.len() - k,
{
    if k == cs.len() {
        assert(cs.take(k) =~= cs);
    } else {
        assert(cs.take(k + 1).drop_last() =~= cs.take(k));
        lemma_resolve_extends_none(cs, k + 1, absolute);
    }
}

/// A copy of a component.
fn clone_chars(c: &Vec<char>) -> (r: Vec<char>)
    ensures
        r@ == c@,
{
    let mut r: Vec<char> = Vec::new();
    let mut i: usize = 0;
    while i < c.len()
        invariant
            i <= c@.len(),
            r@ == c@.take(i as int),
        decreases c@.len() - i,
    {
        r.push(c[i]);
        proof {
            assert(c@.take(i + 1) =~= c@.take(i as int).push(c@[i as int]));
        }
        i = i + 1;
    }
    proof {
        assert(c@.take(c@.len() as int) =~= c@);
    }
    r
}

} // verus!
