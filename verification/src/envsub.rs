//! Environment-variable substitution for build-step lines.
//!
//! `$NAME` and `${NAME}` occurrences that are not preceded by a
//! backslash expand to the variable's value; expansion repeats until the
//! line no longer changes, since a value may itself contain references.
//! A reference to an unknown name is an error.

use vstd::prelude::*;
use crate::envmap::EnvMap;
use crate::strutil::{chars_of, string_of, append_chars, copy_range};

verus! {

/// Names are `[A-Za-z_][A-Za-z0-9_]*`.
pub open spec fn is_var_start(c: char) -> bool {
    ('a' <= c && c <= 'z') || ('A' <= c && c <= 'Z') || c == '_'
}

pub open spec fn is_var_char(c: char) -> bool {
    is_var_start(c) || ('0' <= c && c <= '9')
}

/// The length of the run of name characters starting at `i`.
pub open spec fn var_run_len(s: Seq<char>, i: int) -> int
    decreases s.len() - i when i <= s.len()
{
    if 0 <= i < s.len() && is_var_char(s[i]) {
        1 + var_run_len(s, i + 1)
    } else {
        0
    }
}

/// One substitution pass over `s` from position `i`: each unescaped
/// reference is replaced by its value (which is not rescanned within the
/// pass), everything else is copied.  `None` when a reference names an
/// unknown variable.
pub open spec fn subst_from(s: Seq<char>, env: Map<Seq<char>, Seq<char>>, i: int) -> Option<
    Seq<char>,
>
    decreases s.len() - i when 0 <= i <= s.len() via subst_from_dec
{
    if i < 0 || i >= s.len() {
        Some(Seq::empty())
    } else if s[i] == '\\' && i + 1 < s.len() && s[i + 1] == '$' {
        match subst_from(s, env, i + 2) {
            None => None,
            Some(t) => Some(seq!['\\', '$'] + t),
        }
    } else if s[i] == '$' && i + 1 < s.len() && s[i + 1] == '{' {
        let l = var_run_len(s, i + 2);
        if l > 0 && is_var_start(s[i + 2]) && i + 2 + l < s.len() && s[i + 2 + l] == '}' {
            let name = s.subrange(i + 2, i + 2 + l);
            if env.contains_key(name) {
                match subst_from(s, env, i + 3 + l) {
                    None => None,
                    Some(t) => Some(env[name] + t),
                }
            } else {
                None
            }
        } else {
            match subst_from(s, env, i + 1) {
                None => None,
                Some(t) => Some(seq!['$'] + t),
            }
        }
    } else if s[i] == '$' && i + 1 < s.len() && is_var_start(s[i + 1]) {
        let l = var_run_len(s, i + 1);
        let name = s.subrange(i + 1, i + 1 + l);
        if env.contains_key(name) {
            match subst_from(s, env, i + 1 + l) {
                None => None,
                Some(t) => Some(env[name] + t),
            }
        } else {
            None
        }
    } else {
        match subst_from(s, env, i + 1) {
            None => None,
            Some(t) => Some(seq![s[i]] + t),
        }
    }
}

#[via_fn]
proof fn subst_from_dec(s: Seq<char>, env: Map<Seq<char>, Seq<char>>, i: int) {
    if 0 <= i && i < s.len() {
        lemma_var_run_len_bounds(s, i + 1);
        if i + 2 <= s.len() {
            lemma_var_run_len_bounds(s, i + 2);
        }
    }
}

pub open spec fn subst_pass(s: Seq<char>, env: Map<Seq<char>, Seq<char>>) -> Option<Seq<char>> {
    subst_from(s, env, 0)
}

/// `n` passes, propagating failure.
pub open spec fn subst_iter(s: Seq<char>, env: Map<Seq<char>, Seq<char>>, n: nat) -> Option<
    Seq<char>,
>
    decreases n,
{
    if n == 0 {
        Some(s)
    } else {
        match subst_iter(s, env, (n - 1) as nat) {
            None => None,
            Some(t) => subst_pass(t, env),
        }
    }
}

#[derive(Debug, PartialEq, Eq, Structural, Clone, Copy)]
pub enum SubstError {
    /// A reference named a variable the environment does not hold.
    UnresolvedVariable,
    /// The line still changed after the iteration bound; the references
    /// feed each other without settling.
    NoFixpoint,
}

/// The most passes attempted before giving up on a fixpoint.
pub const SUBST_MAX_PASSES: usize = 64;

/// What substitution yields once the text settles: the bounded iterate.
/// Meaningful when some pass within the bound reaches a fixpoint, in
/// which case iteration saturates there.
pub open spec fn subst_fixpoint(s: Seq<char>, env: Map<Seq<char>, Seq<char>>) -> Option<Seq<char>> {
    subst_iter(s, env, SUBST_MAX_PASSES as nat)
}

/// The whole outcome of substitution: the settled text, or the failure
/// mode.  The text has settled exactly when the last two bounded
/// iterates agree.
pub open spec fn subst_outcome(s: Seq<char>, env: Map<Seq<char>, Seq<char>>) -> Result<
    Seq<char>,
    SubstError,
> {
    let full = subst_fixpoint(s, env);
    if full is None {
        Err(SubstError::UnresolvedVariable)
    } else if subst_iter(s, env, (SUBST_MAX_PASSES - 1) as nat) == full {
        Ok(full.unwrap())
    } else {
        Err(SubstError::NoFixpoint)
    }
}

/// Once a pass maps `t` to itself, every later iterate stays `t`.
proof fn lemma_subst_iter_saturates(
    s: Seq<char>,
    env: Map<Seq<char>, Seq<char>>,
    n: nat,
    m: nat,
    t: Seq<char>,
)
    requires
        n <= m,
        subst_iter(s, env, n) == Some(t),
        subst_pass(t, env) == Some(t),
    ensures
        subst_iter(s, env, m) == Some(t),
    decreases m,
{
    if n < m {
        lemma_subst_iter_saturates(s, env, n, (m - 1) as nat, t);
    }
}

/// Failure also sticks: a failed iterate stays failed.
proof fn lemma_subst_iter_none_sticks(s: Seq<char>, env: Map<Seq<char>, Seq<char>>, n: nat, m: nat)
    requires
        n <= m,
        subst_iter(s, env, n) is None,
    ensures
        subst_iter(s, env, m) is None,
    decreases m,
{
    if n < m {
        lemma_subst_iter_none_sticks(s, env, n, (m - 1) as nat);
    }
}

/// `var_run_len` is never negative and never runs past the string.
pub proof fn lemma_var_run_len_bounds(s: Seq<char>, i: int)
    requires
        0 <= i <= s.len(),
    ensures
        0 <= var_run_len(s, i),
        i + var_run_len(s, i) <= s.len(),
    decreases s.len() - i,
{
    if 0 <= i < s.len() && is_var_char(s[i]) {
        lemma_var_run_len_bounds(s, i + 1);
    }
}

/// The run of name characters, as executable code.
fn var_run_len_exec(s: &Vec<char>, i: usize) -> (r: usize)
    requires
        i <= s@.len(),
    ensures
        r == var_run_len(s@, i as int),
        i + r <= s@.len(),
{
    let mut j: usize = i;
    while j < s.len() && is_var_char_exec(s[j])
        invariant
            i <= j <= s@.len(),
            var_run_len(s@, i as int) == (j - i) + var_run_len(s@, j as int),
        decreases s@.len() - j,
    {
        j = j + 1;
    }
    proof {
        lemma_var_run_len_bounds(s@, i as int);
    }
    j - i
}

fn is_var_start_exec(c: char) -> (r: bool)
    ensures
        r == is_var_start(c),
{
    ('a' <= c && c <= 'z') || ('A' <= c && c <= 'Z') || c == '_'
}

fn is_var_char_exec(c: char) -> (r: bool)
    ensures
        r == is_var_char(c),
{
    is_var_start_exec(c) || ('0' <= c && c <= '9')
}

/// One pass over `cur`, following `subst_pass`.
fn subst_pass_exec(cur: &Vec<char>, env: &EnvMap) -> (r: Result<Vec<char>, SubstError>)
    requires
        env.wf(),
    ensures
        match r {
            Ok(out) => subst_pass(cur@, env@) == Some(out@),
            Err(e) => subst_pass(cur@, env@) is None && e == SubstError::UnresolvedVariable,
        },
{
    let s = cur;
    let n = s.len();
    let mut out: Vec<char> = Vec::new();
    let mut i: usize = 0;
    while i < n
        invariant
            env.wf(),
            s@ == cur@,
            n == s@.len(),
            i <= n,
            subst_from(s@, env@, 0) == match subst_from(s@, env@, i as int) {
                None => None::<Seq<char>>,
                Some(t) => Some(out@ + t),
            },
        decreases n - i,
    {
        let ghost prev_i = i as int;
        let ghost prev_out = out@;
        let c = s[i];
        if c == '\\' && i + 1 < n && s[i + 1] == '$' {
            out.push('\\');
            out.push('$');
            i = i + 2;
            proof {
                if subst_from(s@, env@, i as int) is Some {
                    let t = subst_from(s@, env@, i as int)->Some_0;
                    assert(prev_out + (seq!['\\', '$'] + t) =~= out@ + t);
                }
            }
        } else if c == '$' && i + 1 < n && s[i + 1] == '{' {
            let l = var_run_len_exec(s, i + 2);
            proof {
                lemma_var_run_len_bounds(s@, i + 2);
            }
            let well_formed = l > 0 && is_var_start_exec(s[i + 2]) && i + 2 + l < n
                && s[i + 2 + l] == '}';
            if well_formed {
                let name = copy_range(s, i + 2, i + 2 + l);
                match env.lookup(&name) {
                    Some(v) => {
                        let vc = chars_of(v.as_str());
                        append_chars(&mut out, &vc);
                        i = i + 3 + l;
                        proof {
                            if subst_from(s@, env@, i as int) is Some {
                                let t = subst_from(s@, env@, i as int)->Some_0;
                                assert(prev_out + (env@[name@] + t) =~= out@ + t);
                            }
                        }
                    },
                    None => {
                        proof {
                            assert(name@ == s@.subrange(i + 2, i + 2 + l));
                            assert(subst_from(s@, env@, i as int) is None);
                        }
                        return Err(SubstError::UnresolvedVariable);
                    },
                }
            } else {
                out.push('$');
                i = i + 1;
                proof {
                    if subst_from(s@, env@, i as int) is Some {
                        let t = subst_from(s@, env@, i as int)->Some_0;
                        assert(prev_out + (seq!['$'] + t) =~= out@ + t);
                    }
                }
            }
        } else if c == '$' && i + 1 < n && is_var_start_exec(s[i + 1]) {
            let l = var_run_len_exec(s, i + 1);
            proof {
                lemma_var_run_len_bounds(s@, i + 2);
                assert(l >= 1) by {
                    assert(is_var_char(s@[i + 1]));
                }
            }
            let name = copy_range(s, i + 1, i + 1 + l);
            match env.lookup(&name) {
                Some(v) => {
                    let vc = chars_of(v.as_str());
                    append_chars(&mut out, &vc);
                    i = i + 1 + l;
                    proof {
                        if subst_from(s@, env@, i as int) is Some {
                            let t = subst_from(s@, env@, i as int)->Some_0;
                            assert(prev_out + (env@[name@] + t) =~= out@ + t);
                        }
                    }
                },
                None => {
                    proof {
                        assert(name@ == s@.subrange(i + 1, i + 1 + l));
                        assert(subst_from(s@, env@, i as int) is None);
                    }
                    return Err(SubstError::UnresolvedVariable);
                },
            }
        } else {
            out.push(c);
            i = i + 1;
            proof {
                if subst_from(s@, env@, i as int) is Some {
                    let t = subst_from(s@, env@, i as int)->Some_0;
                    assert(prev_out + (seq![s@[prev_i]] + t) =~= out@ + t);
                }
            }
        }
    }
    proof {
        assert(subst_from(s@, env@, i as int) == Some(Seq::<char>::empty()));
        assert(out@ + Seq::<char>::empty() =~= out@);
    }
    Ok(out)
}

/// Expand every unescaped `$NAME` / `${NAME}` reference in `line`,
/// repeating until the text settles.
pub fn env_substitute(line: &str, env: &EnvMap) -> (r: Result<String, SubstError>)
    requires
        env.wf(),
    ensures
        match r {
            Ok(out) => subst_outcome(line@, env@) == Ok::<Seq<char>, SubstError>(out@)
                && subst_pass(out@, env@) == Some(out@),
            Err(e) => subst_outcome(line@, env@) == Err::<Seq<char>, SubstError>(e),
        },
{
    let mut cur = chars_of(line);
    let mut pass: usize = 0;
    while pass < SUBST_MAX_PASSES
        invariant
            env.wf(),
            pass <= SUBST_MAX_PASSES,
            subst_iter(line@, env@, pass as nat) == Some(cur@),
            pass > 0 ==> subst_iter(line@, env@, pass as nat) != subst_iter(
                line@,
                env@,
                (pass - 1) as nat,
            ),
        decreases SUBST_MAX_PASSES - pass,
    {
        match subst_pass_exec(&cur, env) {
            Ok(next) => {
                let same = crate::strutil::chars_eq(&next, &cur);
                if same {
                    proof {
                        lemma_subst_iter_saturates(
                            line@,
                            env@,
                            pass as nat,
                            (SUBST_MAX_PASSES - 1) as nat,
                            cur@,
                        );
                        lemma_subst_iter_saturates(
                            line@,
                            env@,
                            pass as nat,
                            SUBST_MAX_PASSES as nat,
                            cur@,
                        );
                    }
                    return Ok(string_of(&cur));
                }
                cur = next;
            },
            Err(e) => {
                proof {
                    assert(subst_iter(line@, env@, (pass + 1) as nat) is None);
                    lemma_subst_iter_none_sticks(
                        line@,
                        env@,
                        (pass + 1) as nat,
                        SUBST_MAX_PASSES as nat,
                    );
                }
                return Err(e);
            },
        }
        pass = pass + 1;
    }
    Err(SubstError::NoFixpoint)
}

} // verus!
