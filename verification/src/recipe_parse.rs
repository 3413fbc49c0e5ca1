//! Parsing the canonical recipe text back into the data model.  Each
//! parser is specified by a spec-level parser over the character
//! sequence; the executable code returns exactly what the spec parser
//! denotes, position for position.

use vstd::prelude::*;
use crate::recipe::{
    Source, SourceV, SourceContents, SourceContentsV, RecipeBuildStep, RecipeBuildStepV,
    RecipeBuildSteps, RecipeBuildStepsV, DepSpec, DepSpecV, NamedRecipeVersion,
    NamedRecipeVersionV,
};
use crate::buildplan::{is_digit, dec_value, lemma_dec_prefix};
use crate::strutil::{string_of, copy_range};

verus! {

/// The run of digits starting at `i`.
pub open spec fn digit_run(s: Seq<char>, i: int) -> int
    decreases s.len() - i when i <= s.len()
{
    if 0 <= i < s.len() && is_digit(s[i]) {
        1 + digit_run(s, i + 1)
    } else {
        0
    }
}

pub proof fn lemma_digit_run_bounds(s: Seq<char>, i: int)
    requires
        0 <= i <= s.len(),
    ensures
        0 <= digit_run(s, i),
        i + digit_run(s, i) <= s.len(),
        forall|m: int| i <= m < i + digit_run(s, i) ==> is_digit(#[trigger] s[m]),
    decreases s.len() - i,
{
    if 0 <= i < s.len() && is_digit(s[i]) {
        lemma_digit_run_bounds(s, i + 1);
    }
}

/// A decimal number: at least one digit, value within `usize`.
pub open spec fn p_nat(s: Seq<char>, i: int) -> Option<(int, int)> {
    let l = digit_run(s, i);
    if l == 0 {
        None
    } else {
        let v = dec_value(s.subrange(i, i + l));
        if v > usize::MAX {
            None
        } else {
            Some((v, i + l))
        }
    }
}

/// One expected character.
pub open spec fn p_lit(s: Seq<char>, i: int, c: char) -> Option<int> {
    if 0 <= i < s.len() && s[i] == c {
        Some(i + 1)
    } else {
        None
    }
}

/// A length-prefixed string: `<len>:<chars>`.
pub open spec fn p_str(s: Seq<char>, i: int) -> Option<(Seq<char>, int)> {
    match p_nat(s, i) {
        None => None,
        Some((n, j)) => match p_lit(s, j, ':') {
            None => None,
            Some(k) => if k + n <= s.len() {
                Some((s.subrange(k, k + n), k + n))
            } else {
                None
            },
        },
    }
}

pub open spec fn p_bool(s: Seq<char>, i: int) -> Option<(bool, int)> {
    if 0 <= i < s.len() && s[i] == 't' {
        Some((true, i + 1))
    } else if 0 <= i < s.len() && s[i] == 'f' {
        Some((false, i + 1))
    } else {
        None
    }
}

/// Decimal digits, as executable code.
fn parse_nat(s: &Vec<char>, i: usize) -> (r: Option<(usize, usize)>)
    requires
        i <= s@.len(),
    ensures
        match r {
            Some((v, end)) => p_nat(s@, i as int) == Some((v as int, end as int)) && i <= end
                <= s@.len(),
            None => p_nat(s@, i as int) is None,
        },
{
    proof {
        lemma_digit_run_bounds(s@, i as int);
    }
    let n0 = s.len();
    let mut l: usize = 0;
    while i + l < n0 && '0' <= s[i + l] && s[i + l] <= '9'
        invariant
            n0 == s@.len(),
            i + l <= n0,
            digit_run(s@, i as int) == l + digit_run(s@, i + l),
        decreases n0 - i - l,
    {
        l = l + 1;
    }
    if l == 0 {
        return None;
    }
    let ghost run = s@.subrange(i as int, i + l);
    proof {
        lemma_digit_run_bounds(s@, i as int);
        assert(forall|m: int| 0 <= m < run.len() ==> is_digit(#[trigger] run[m]));
    }
    let mut acc: u128 = 0;
    let mut j: usize = 0;
    while j < l
        invariant
            n0 == s@.len(),
            i + l <= n0,
            digit_run(s@, i as int) == l,
            run == s@.subrange(i as int, i + l),
            forall|m: int| 0 <= m < run.len() ==> is_digit(#[trigger] run[m]),
            run.len() == l,
            j <= l,
            acc <= usize::MAX,
            acc as int == dec_value(run.take(j as int)),
        decreases l - j,
    {
        proof {
            assert(run.take(j + 1).drop_last() =~= run.take(j as int));
            assert(run.take(j + 1).last() == run[j as int]);
            assert(run[j as int] == s@[i + j]);
            assert(is_digit(run[j as int]));
        }
        let c = s[i + j];
        let d: u128 = (c as u32 - 48) as u128;
        acc = acc * 10 + d;
        if acc > usize::MAX as u128 {
            proof {
                lemma_dec_prefix(run, j + 1);
            }
            return None;
        }
        j = j + 1;
    }
    proof {
        assert(run.take(l as int) =~= run);
    }
    Some((acc as usize, i + l))
}

/// A length-prefixed string, as executable code.
fn parse_str(s: &Vec<char>, i: usize) -> (r: Option<(String, usize)>)
    requires
        i <= s@.len(),
    ensures
        match r {
            Some((v, end)) => p_str(s@, i as int) == Some((v@, end as int)) && i <= end
                <= s@.len(),
            None => p_str(s@, i as int) is None,
        },
{
    let (n, j) = match parse_nat(s, i) {
        Some(x) => x,
        None => {
            return None;
        },
    };
    if j < s.len() && s[j] == ':' {
        let k = j + 1;
        if n <= s.len() - k {
            let v = copy_range(s, k, k + n);
            Some((string_of(&v), k + n))
        } else {
            None
        }
    } else {
        None
    }
}

fn parse_bool(s: &Vec<char>, i: usize) -> (r: Option<(bool, usize)>)
    requires
        i <= s@.len(),
    ensures
        match r {
            Some((v, end)) => p_bool(s@, i as int) == Some((v, end as int)) && i <= end
                <= s@.len(),
            None => p_bool(s@, i as int) is None,
        },
{
    if i < s.len() && s[i] == 't' {
        Some((true, i + 1))
    } else if i < s.len() && s[i] == 'f' {
        Some((false, i + 1))
    } else {
        None
    }
}

/// `N`, or `S` followed by a string.
pub open spec fn p_opt_str(s: Seq<char>, i: int) -> Option<(Option<Seq<char>>, int)> {
    if 0 <= i < s.len() && s[i] == 'N' {
        Some((None, i + 1))
    } else if 0 <= i < s.len() && s[i] == 'S' {
        match p_str(s, i + 1) {
            None => None,
            Some((v, e)) => Some((Some(v), e)),
        }
    } else {
        None
    }
}

fn parse_opt_str(s: &Vec<char>, i: usize) -> (r: Option<(Option<String>, usize)>)
    requires
        i <= s@.len(),
    ensures
        match r {
            Some((v, end)) => p_opt_str(s@, i as int) == Some((v.deep_view(), end as int)) && i
                <= end <= s@.len(),
            None => p_opt_str(s@, i as int) is None,
        },
{
    if i < s.len() && s[i] == 'N' {
        Some((None, i + 1))
    } else if i < s.len() && s[i] == 'S' {
        match parse_str(s, i + 1) {
            None => None,
            Some((v, e)) => Some((Some(v), e)),
        }
    } else {
        None
    }
}

/// `n` consecutive strings.
pub open spec fn p_str_items(s: Seq<char>, i: int, n: int) -> Option<(Seq<Seq<char>>, int)>
    decreases n,
{
    if n <= 0 {
        Some((Seq::empty(), i))
    } else {
        match p_str(s, i) {
            None => None,
            Some((v, j)) => match p_str_items(s, j, n - 1) {
                None => None,
                Some((vs, e)) => Some((seq![v] + vs, e)),
            },
        }
    }
}

/// `<count>;<items>`.
pub open spec fn p_str_list(s: Seq<char>, i: int) -> Option<(Seq<Seq<char>>, int)> {
    match p_nat(s, i) {
        None => None,
        Some((n, j)) => match p_lit(s, j, ';') {
            None => None,
            Some(k) => p_str_items(s, k, n),
        },
    }
}

fn parse_str_items(s: &Vec<char>, i: usize, n: usize) -> (r: Option<(Vec<String>, usize)>)
    requires
        i <= s@.len(),
    ensures
        match r {
            Some((v, end)) => p_str_items(s@, i as int, n as int) == Some(
                (v.deep_view(), end as int),
            ) && i <= end <= s@.len(),
            None => p_str_items(s@, i as int, n as int) is None,
        },
{
    let mut out: Vec<String> = Vec::new();
    let mut k: usize = 0;
    let mut pos: usize = i;
    proof {
        if p_str_items(s@, i as int, n as int) is Some {
            let t = p_str_items(s@, i as int, n as int)->Some_0;
            assert(out.deep_view() + t.0 =~= t.0);
        }
    }
    while k < n
        invariant
            i <= pos <= s@.len(),
            k <= n,
            p_str_items(s@, i as int, n as int) == match p_str_items(
                s@,
                pos as int,
                n - k,
            ) {
                None => None::<(Seq<Seq<char>>, int)>,
                Some((vs, e)) => Some((out.deep_view() + vs, e)),
            },
        decreases n - k,
    {
        match parse_str(s, pos) {
            None => {
                return None;
            },
            Some((v, e)) => {
                let ghost ob = out.deep_view();
                out.push(v);
                proof {
                    assert(out.deep_view() =~= ob.push(out@.last()@));
                    if p_str_items(s@, e as int, n - k - 1) is Some {
                        let t = p_str_items(s@, e as int, n - k - 1)->Some_0;
                        assert(ob + (seq![out@.last()@] + t.0) =~= out.deep_view() + t.0);
                    }
                }
                pos = e;
            },
        }
        k = k + 1;
    }
    proof {
        assert(out.deep_view() + Seq::<Seq<char>>::empty() =~= out.deep_view());
    }
    Some((out, pos))
}

pub fn parse_str_list(s: &Vec<char>, i: usize) -> (r: Option<(Vec<String>, usize)>)
    requires
        i <= s@.len(),
    ensures
        match r {
            Some((v, end)) => p_str_list(s@, i as int) == Some((v.deep_view(), end as int)) && i
                <= end <= s@.len(),
            None => p_str_list(s@, i as int) is None,
        },
{
    let (n, j) = match parse_nat(s, i) {
        Some(x) => x,
        None => {
            return None;
        },
    };
    if j < s.len() && s[j] == ';' {
        parse_str_items(s, j + 1, n)
    } else {
        None
    }
}

/// `N`, or `S` followed by a string list.
pub open spec fn p_opt_str_list(s: Seq<char>, i: int) -> Option<(Option<Seq<Seq<char>>>, int)> {
    if 0 <= i < s.len() && s[i] == 'N' {
        Some((None, i + 1))
    } else if 0 <= i < s.len() && s[i] == 'S' {
        match p_str_list(s, i + 1) {
            None => None,
            Some((v, e)) => Some((Some(v), e)),
        }
    } else {
        None
    }
}

fn parse_opt_str_list(s: &Vec<char>, i: usize) -> (r: Option<(Option<Vec<String>>, usize)>)
    requires
        i <= s@.len(),
    ensures
        match r {
            Some((v, end)) => p_opt_str_list(s@, i as int) == Some(
                (v.deep_view(), end as int),
            ) && i <= end <= s@.len(),
            None => p_opt_str_list(s@, i as int) is None,
        },
{
    if i < s.len() && s[i] == 'N' {
        Some((None, i + 1))
    } else if i < s.len() && s[i] == 'S' {
        match parse_str_list(s, i + 1) {
            None => None,
            Some((v, e)) => Some((Some(v), e)),
        }
    } else {
        None
    }
}

pub open spec fn p_source(s: Seq<char>, i: int) -> Option<(SourceV, int)> {
    match p_opt_str(s, i) {
        None => None,
        Some((extract, a)) => match p_opt_str(s, a) {
            None => None,
            Some((noextract, b)) => match p_opt_str_list(s, b) {
                None => None,
                Some((copy, c)) => match p_opt_str(s, c) {
                    None => None,
                    Some((chmod, d)) => Some((SourceV { extract, noextract, copy, chmod }, d)),
                },
            },
        },
    }
}

fn parse_source(s: &Vec<char>, i: usize) -> (r: Option<(Source, usize)>)
    requires
        i <= s@.len(),
    ensures
        match r {
            Some((v, end)) => p_source(s@, i as int) == Some((v.deep_view(), end as int)) && i
                <= end <= s@.len(),
            None => p_source(s@, i as int) is None,
        },
{
    let (extract, a) = match parse_opt_str(s, i) {
        Some(x) => x,
        None => {
            return None;
        },
    };
    let (noextract, b) = match parse_opt_str(s, a) {
        Some(x) => x,
        None => {
            return None;
        },
    };
    let (copy, c) = match parse_opt_str_list(s, b) {
        Some(x) => x,
        None => {
            return None;
        },
    };
    let (chmod, d) = match parse_opt_str(s, c) {
        Some(x) => x,
        None => {
            return None;
        },
    };
    Some((Source { extract, noextract, copy, chmod }, d))
}

pub open spec fn p_source_contents(s: Seq<char>, i: int) -> Option<(SourceContentsV, int)> {
    match p_str(s, i) {
        None => None,
        Some((url, a)) => match p_str(s, a) {
            None => None,
            Some((sha, b)) => Some((SourceContentsV { url, sha }, b)),
        },
    }
}

/// Parse a serialised source-contents record.
pub fn parse_source_contents(s: &Vec<char>, i: usize) -> (r: Option<(SourceContents, usize)>)
    requires
        i <= s@.len(),
    ensures
        match r {
            Some((v, end)) => p_source_contents(s@, i as int) == Some(
                (v.deep_view(), end as int),
            ) && i <= end <= s@.len(),
            None => p_source_contents(s@, i as int) is None,
        },
{
    let (url, a) = match parse_str(s, i) {
        Some(x) => x,
        None => {
            return None;
        },
    };
    let (sha, b) = match parse_str(s, a) {
        Some(x) => x,
        None => {
            return None;
        },
    };
    Some((SourceContents { url, sha }, b))
}

pub open spec fn p_dep_spec(s: Seq<char>, i: int) -> Option<(DepSpecV, int)> {
    match p_str(s, i) {
        None => None,
        Some((name, a)) => match p_str(s, a) {
            None => None,
            Some((version, b)) => match p_opt_str(s, b) {
                None => None,
                Some((from, c)) => match p_opt_str(s, c) {
                    None => None,
                    Some((to, d)) => Some((DepSpecV { name, version, from, to }, d)),
                },
            },
        },
    }
}

fn parse_dep_spec(s: &Vec<char>, i: usize) -> (r: Option<(DepSpec, usize)>)
    requires
        i <= s@.len(),
    ensures
        match r {
            Some((v, end)) => p_dep_spec(s@, i as int) == Some((v.deep_view(), end as int)) && i
                <= end <= s@.len(),
            None => p_dep_spec(s@, i as int) is None,
        },
{
    let (name, a) = match parse_str(s, i) {
        Some(x) => x,
        None => {
            return None;
        },
    };
    let (version, b) = match parse_str(s, a) {
        Some(x) => x,
        None => {
            return None;
        },
    };
    let (from, c) = match parse_opt_str(s, b) {
        Some(x) => x,
        None => {
            return None;
        },
    };
    let (to, d) = match parse_opt_str(s, c) {
        Some(x) => x,
        None => {
            return None;
        },
    };
    Some((DepSpec { name, version, from, to }, d))
}

pub open spec fn p_step(s: Seq<char>, i: int) -> Option<(RecipeBuildStepV, int)> {
    if 0 <= i < s.len() && s[i] == 's' {
        match p_str(s, i + 1) {
            None => None,
            Some((c, e)) => Some((RecipeBuildStepV::Simple(c), e)),
        }
    } else if 0 <= i < s.len() && s[i] == 'c' {
        match p_str(s, i + 1) {
            None => None,
            Some((c, a)) => match p_bool(s, a) {
                None => None,
                Some((serial, b)) => match p_bool(s, b) {
                    None => None,
                    Some((bash, e)) => Some(
                        (RecipeBuildStepV::Complex { cmd: c, serial, bash }, e),
                    ),
                },
            },
        }
    } else {
        None
    }
}

fn parse_step(s: &Vec<char>, i: usize) -> (r: Option<(RecipeBuildStep, usize)>)
    requires
        i <= s@.len(),
    ensures
        match r {
            Some((v, end)) => p_step(s@, i as int) == Some((v.deep_view(), end as int)) && i
                <= end <= s@.len(),
            None => p_step(s@, i as int) is None,
        },
{
    if i < s.len() && s[i] == 's' {
        match parse_str(s, i + 1) {
            None => None,
            Some((c, e)) => Some((RecipeBuildStep::Simple(c), e)),
        }
    } else if i < s.len() && s[i] == 'c' {
        let (c, a) = match parse_str(s, i + 1) {
            Some(x) => x,
            None => {
                return None;
            },
        };
        let (serial, b) = match parse_bool(s, a) {
            Some(x) => x,
            None => {
                return None;
            },
        };
        let (bash, e) = match parse_bool(s, b) {
            Some(x) => x,
            None => {
                return None;
            },
        };
        Some((RecipeBuildStep::Complex { cmd: c, serial, bash }, e))
    } else {
        None
    }
}

pub open spec fn p_step_items(s: Seq<char>, i: int, n: int) -> Option<(Seq<RecipeBuildStepV>, int)>
    decreases n,
{
    if n <= 0 {
        Some((Seq::empty(), i))
    } else {
        match p_step(s, i) {
            None => None,
            Some((v, j)) => match p_step_items(s, j, n - 1) {
                None => None,
                Some((vs, e)) => Some((seq![v] + vs, e)),
            },
        }
    }
}

pub open spec fn p_step_list(s: Seq<char>, i: int) -> Option<(Seq<RecipeBuildStepV>, int)> {
    match p_nat(s, i) {
        None => None,
        Some((n, j)) => match p_lit(s, j, ';') {
            None => None,
            Some(k) => p_step_items(s, k, n),
        },
    }
}

fn parse_step_list(s: &Vec<char>, i: usize) -> (r: Option<(Vec<RecipeBuildStep>, usize)>)
    requires
        i <= s@.len(),
    ensures
        match r {
            Some((v, end)) => p_step_list(s@, i as int) == Some((v.deep_view(), end as int)) && i
                <= end <= s@.len(),
            None => p_step_list(s@, i as int) is None,
        },
{
    let (n, j) = match parse_nat(s, i) {
        Some(x) => x,
        None => {
            return None;
        },
    };
    if !(j < s.len() && s[j] == ';') {
        return None;
    }
    let mut out: Vec<RecipeBuildStep> = Vec::new();
    let mut k: usize = 0;
    let mut pos: usize = j + 1;
    proof {
        if p_step_items(s@, j + 1, n as int) is Some {
            let t = p_step_items(s@, j + 1, n as int)->Some_0;
            assert(out.deep_view() + t.0 =~= t.0);
        }
    }
    while k < n
        invariant
            i <= pos <= s@.len(),
            k <= n,
            p_step_list(s@, i as int) == p_step_items(s@, j + 1, n as int),
            p_step_items(s@, j + 1, n as int) == match p_step_items(s@, pos as int, n - k) {
                None => None::<(Seq<RecipeBuildStepV>, int)>,
                Some((vs, e)) => Some((out.deep_view() + vs, e)),
            },
        decreases n - k,
    {
        match parse_step(s, pos) {
            None => {
                return None;
            },
            Some((v, e)) => {
                let ghost ob = out.deep_view();
                let ghost vv = v.deep_view();
                out.push(v);
                proof {
                    assert(out.deep_view() =~= ob.push(vv));
                    if p_step_items(s@, e as int, n - k - 1) is Some {
                        let t = p_step_items(s@, e as int, n - k - 1)->Some_0;
                        assert(ob + (seq![vv] + t.0) =~= out.deep_view() + t.0);
                    }
                }
                pos = e;
            },
        }
        k = k + 1;
    }
    proof {
        assert(out.deep_view() + Seq::<RecipeBuildStepV>::empty() =~= out.deep_view());
    }
    Some((out, pos))
}

/// `N`, or `S` followed by a step list.
pub open spec fn p_phase(s: Seq<char>, i: int) -> Option<(Option<Seq<RecipeBuildStepV>>, int)> {
    if 0 <= i < s.len() && s[i] == 'N' {
        Some((None, i + 1))
    } else if 0 <= i < s.len() && s[i] == 'S' {
        match p_step_list(s, i + 1) {
            None => None,
            Some((v, e)) => Some((Some(v), e)),
        }
    } else {
        None
    }
}

fn parse_phase(s: &Vec<char>, i: usize) -> (r: Option<(Option<Vec<RecipeBuildStep>>, usize)>)
    requires
        i <= s@.len(),
    ensures
        match r {
            Some((v, end)) => p_phase(s@, i as int) == Some((v.deep_view(), end as int)) && i
                <= end <= s@.len(),
            None => p_phase(s@, i as int) is None,
        },
{
    if i < s.len() && s[i] == 'N' {
        Some((None, i + 1))
    } else if i < s.len() && s[i] == 'S' {
        match parse_step_list(s, i + 1) {
            None => None,
            Some((v, e)) => Some((Some(v), e)),
        }
    } else {
        None
    }
}

pub open spec fn p_build(s: Seq<char>, i: int) -> Option<(RecipeBuildStepsV, int)> {
    if 0 <= i < s.len() && s[i] == 'S' {
        match p_step_list(s, i + 1) {
            None => None,
            Some((v, e)) => Some((RecipeBuildStepsV::Single { single: v }, e)),
        }
    } else if 0 <= i < s.len() && s[i] == 'P' {
        match p_phase(s, i + 1) {
            None => None,
            Some((unpack, a)) => match p_str(s, a) {
                None => None,
                Some((unpack_dirname, b)) => match p_str(s, b) {
                    None => None,
                    Some((patch_dir, c)) => match p_opt_str(s, c) {
                        None => None,
                        Some((package_dir, d)) => match p_phase(s, d) {
                            None => None,
                            Some((prepare, e)) => match p_phase(s, e) {
                                None => None,
                                Some((configure, f)) => match p_phase(s, f) {
                                    None => None,
                                    Some((compile, g)) => match p_phase(s, g) {
                                        None => None,
                                        Some((install, h)) => match p_phase(s, h) {
                                            None => None,
                                            Some((postprocess, e2)) => Some(
                                                (
                                                    RecipeBuildStepsV::Piecewise {
                                                        unpack,
                                                        unpack_dirname,
                                                        patch_dir,
                                                        package_dir,
                                                        prepare,
                                                        configure,
                                                        compile,
                                                        install,
                                                        postprocess,
                                                    },
                                                    e2,
                                                ),
                                            ),
                                        },
                                    },
                                },
                            },
                        },
                    },
                },
            },
        }
    } else {
        None
    }
}

fn parse_build(s: &Vec<char>, i: usize) -> (r: Option<(RecipeBuildSteps, usize)>)
    requires
        i <= s@.len(),
    ensures
        match r {
            Some((v, end)) => p_build(s@, i as int) == Some((v.deep_view(), end as int)) && i
                <= end <= s@.len(),
            None => p_build(s@, i as int) is None,
        },
{
    if i < s.len() && s[i] == 'S' {
        match parse_step_list(s, i + 1) {
            None => None,
            Some((v, e)) => Some((RecipeBuildSteps::Single { single: v }, e)),
        }
    } else if i < s.len() && s[i] == 'P' {
        let (unpack, a) = match parse_phase(s, i + 1) {
            Some(x) => x,
            None => {
                return None;
            },
        };
        let (unpack_dirname, b) = match parse_str(s, a) {
            Some(x) => x,
            None => {
                return None;
            },
        };
        let (patch_dir, c) = match parse_str(s, b) {
            Some(x) => x,
            None => {
                return None;
            },
        };
        let (package_dir, d) = match parse_opt_str(s, c) {
            Some(x) => x,
            None => {
                return None;
            },
        };
        let (prepare, e) = match parse_phase(s, d) {
            Some(x) => x,
            None => {
                return None;
            },
        };
        let (configure, f) = match parse_phase(s, e) {
            Some(x) => x,
            None => {
                return None;
            },
        };
        let (compile, g) = match parse_phase(s, f) {
            Some(x) => x,
            None => {
                return None;
            },
        };
        let (install, h) = match parse_phase(s, g) {
            Some(x) => x,
            None => {
                return None;
            },
        };
        let (postprocess, e2) = match parse_phase(s, h) {
            Some(x) => x,
            None => {
                return None;
            },
        };
        Some(
            (
                RecipeBuildSteps::Piecewise {
                    unpack,
                    unpack_dirname,
                    patch_dir,
                    package_dir,
                    prepare,
                    configure,
                    compile,
                    install,
                    postprocess,
                },
                e2,
            ),
        )
    } else {
        None
    }
}

pub open spec fn p_named_source(s: Seq<char>, i: int) -> Option<((Seq<char>, SourceV), int)> {
    match p_str(s, i) {
        None => None,
        Some((name, a)) => match p_source(s, a) {
            None => None,
            Some((src, b)) => Some(((name, src), b)),
        },
    }
}

pub open spec fn p_ns_items(s: Seq<char>, i: int, n: int) -> Option<
    (Seq<(Seq<char>, SourceV)>, int),
>
    decreases n,
{
    if n <= 0 {
        Some((Seq::empty(), i))
    } else {
        match p_named_source(s, i) {
            None => None,
            Some((v, j)) => match p_ns_items(s, j, n - 1) {
                None => None,
                Some((vs, e)) => Some((seq![v] + vs, e)),
            },
        }
    }
}

pub open spec fn p_ns_list(s: Seq<char>, i: int) -> Option<(Seq<(Seq<char>, SourceV)>, int)> {
    match p_nat(s, i) {
        None => None,
        Some((n, j)) => match p_lit(s, j, ';') {
            None => None,
            Some(k) => p_ns_items(s, k, n),
        },
    }
}

fn parse_ns_list(s: &Vec<char>, i: usize) -> (r: Option<(Vec<(String, Source)>, usize)>)
    requires
        i <= s@.len(),
    ensures
        match r {
            Some((v, end)) => p_ns_list(s@, i as int) == Some((v.deep_view(), end as int)) && i
                <= end <= s@.len(),
            None => p_ns_list(s@, i as int) is None,
        },
{
    let (n, j) = match parse_nat(s, i) {
        Some(x) => x,
        None => {
            return None;
        },
    };
    if !(j < s.len() && s[j] == ';') {
        return None;
    }
    let mut out: Vec<(String, Source)> = Vec::new();
    let mut k: usize = 0;
    let mut pos: usize = j + 1;
    proof {
        if p_ns_items(s@, j + 1, n as int) is Some {
            let t = p_ns_items(s@, j + 1, n as int)->Some_0;
            assert(out.deep_view() + t.0 =~= t.0);
        }
    }
    while k < n
        invariant
            i <= pos <= s@.len(),
            k <= n,
            p_ns_list(s@, i as int) == p_ns_items(s@, j + 1, n as int),
            p_ns_items(s@, j + 1, n as int) == match p_ns_items(s@, pos as int, n - k) {
                None => None::<(Seq<(Seq<char>, SourceV)>, int)>,
                Some((vs, e)) => Some((out.deep_view() + vs, e)),
            },
        decreases n - k,
    {
        let (name, a) = match parse_str(s, pos) {
            Some(x) => x,
            None => {
                return None;
            },
        };
        let (src, e) = match parse_source(s, a) {
            Some(x) => x,
            None => {
                return None;
            },
        };
        let ghost ob = out.deep_view();
        let ghost vv = (name@, src.deep_view());
        out.push((name, src));
        proof {
            assert(out.deep_view() =~= ob.push(vv));
            if p_ns_items(s@, e as int, n - k - 1) is Some {
                let t = p_ns_items(s@, e as int, n - k - 1)->Some_0;
                assert(ob + (seq![vv] + t.0) =~= out.deep_view() + t.0);
            }
        }
        pos = e;
        k = k + 1;
    }
    proof {
        assert(out.deep_view() + Seq::<(Seq<char>, SourceV)>::empty() =~= out.deep_view());
    }
    Some((out, pos))
}

pub open spec fn p_dep_items(s: Seq<char>, i: int, n: int) -> Option<(Seq<DepSpecV>, int)>
    decreases n,
{
    if n <= 0 {
        Some((Seq::empty(), i))
    } else {
        match p_dep_spec(s, i) {
            None => None,
            Some((v, j)) => match p_dep_items(s, j, n - 1) {
                None => None,
                Some((vs, e)) => Some((seq![v] + vs, e)),
            },
        }
    }
}

pub open spec fn p_dep_list(s: Seq<char>, i: int) -> Option<(Seq<DepSpecV>, int)> {
    match p_nat(s, i) {
        None => None,
        Some((n, j)) => match p_lit(s, j, ';') {
            None => None,
            Some(k) => p_dep_items(s, k, n),
        },
    }
}

fn parse_dep_list(s: &Vec<char>, i: usize) -> (r: Option<(Vec<DepSpec>, usize)>)
    requires
        i <= s@.len(),
    ensures
        match r {
            Some((v, end)) => p_dep_list(s@, i as int) == Some((v.deep_view(), end as int)) && i
                <= end <= s@.len(),
            None => p_dep_list(s@, i as int) is None,
        },
{
    let (n, j) = match parse_nat(s, i) {
        Some(x) => x,
        None => {
            return None;
        },
    };
    if !(j < s.len() && s[j] == ';') {
        return None;
    }
    let mut out: Vec<DepSpec> = Vec::new();
    let mut k: usize = 0;
    let mut pos: usize = j + 1;
    proof {
        if p_dep_items(s@, j + 1, n as int) is Some {
            let t = p_dep_items(s@, j + 1, n as int)->Some_0;
            assert(out.deep_view() + t.0 =~= t.0);
        }
    }
    while k < n
        invariant
            i <= pos <= s@.len(),
            k <= n,
            p_dep_list(s@, i as int) == p_dep_items(s@, j + 1, n as int),
            p_dep_items(s@, j + 1, n as int) == match p_dep_items(s@, pos as int, n - k) {
                None => None::<(Seq<DepSpecV>, int)>,
                Some((vs, e)) => Some((out.deep_view() + vs, e)),
            },
        decreases n - k,
    {
        match parse_dep_spec(s, pos) {
            None => {
                return None;
            },
            Some((v, e)) => {
                let ghost ob = out.deep_view();
                let ghost vv = v.deep_view();
                out.push(v);
                proof {
                    assert(out.deep_view() =~= ob.push(vv));
                    if p_dep_items(s@, e as int, n - k - 1) is Some {
                        let t = p_dep_items(s@, e as int, n - k - 1)->Some_0;
                        assert(ob + (seq![vv] + t.0) =~= out.deep_view() + t.0);
                    }
                }
                pos = e;
            },
        }
        k = k + 1;
    }
    proof {
        assert(out.deep_view() + Seq::<DepSpecV>::empty() =~= out.deep_view());
    }
    Some((out, pos))
}

/// A whole recipe: `R`, name, version, optional sources, optional
/// shell, optional dependencies, optional mkdirs, the build, the
/// artefacts.
pub open spec fn p_recipe(s: Seq<char>, i: int) -> Option<(NamedRecipeVersionV, int)> {
    match p_lit(s, i, 'R') {
        None => None,
        Some(a0) => match p_str(s, a0) {
            None => None,
            Some((name, a)) => match p_str(s, a) {
                None => None,
                Some((version, b)) => match p_opt_ns_list(s, b) {
                    None => None,
                    Some((source, c)) => match p_opt_dep(s, c) {
                        None => None,
                        Some((shell, d)) => match p_opt_dep_list(s, d) {
                            None => None,
                            Some((deps, e)) => match p_opt_str_list(s, e) {
                                None => None,
                                Some((mkdirs, f)) => match p_build(s, f) {
                                    None => None,
                                    Some((build, g)) => match p_str_list(s, g) {
                                        None => None,
                                        Some((artefacts, h)) => Some(
                                            (
                                                NamedRecipeVersionV {
                                                    name,
                                                    version,
                                                    source,
                                                    shell,
                                                    deps,
                                                    mkdirs,
                                                    build,
                                                    artefacts,
                                                },
                                                h,
                                            ),
                                        ),
                                    },
                                },
                            },
                        },
                    },
                },
            },
        },
    }
}

pub open spec fn p_opt_ns_list(s: Seq<char>, i: int) -> Option<
    (Option<Seq<(Seq<char>, SourceV)>>, int),
> {
    if 0 <= i < s.len() && s[i] == 'N' {
        Some((None, i + 1))
    } else if 0 <= i < s.len() && s[i] == 'S' {
        match p_ns_list(s, i + 1) {
            None => None,
            Some((v, e)) => Some((Some(v), e)),
        }
    } else {
        None
    }
}

pub open spec fn p_opt_dep(s: Seq<char>, i: int) -> Option<(Option<DepSpecV>, int)> {
    if 0 <= i < s.len() && s[i] == 'N' {
        Some((None, i + 1))
    } else if 0 <= i < s.len() && s[i] == 'S' {
        match p_dep_spec(s, i + 1) {
            None => None,
            Some((v, e)) => Some((Some(v), e)),
        }
    } else {
        None
    }
}

pub open spec fn p_opt_dep_list(s: Seq<char>, i: int) -> Option<(Option<Seq<DepSpecV>>, int)> {
    if 0 <= i < s.len() && s[i] == 'N' {
        Some((None, i + 1))
    } else if 0 <= i < s.len() && s[i] == 'S' {
        match p_dep_list(s, i + 1) {
            None => None,
            Some((v, e)) => Some((Some(v), e)),
        }
    } else {
        None
    }
}

/// Parse the canonical text of a recipe.
pub fn parse_recipe(s: &Vec<char>, i: usize) -> (r: Option<(NamedRecipeVersion, usize)>)
    requires
        i <= s@.len(),
    ensures
        match r {
            Some((v, end)) => p_recipe(s@, i as int) == Some((v.deep_view(), end as int)) && i
                <= end <= s@.len(),
            None => p_recipe(s@, i as int) is None,
        },
{
    if !(i < s.len() && s[i] == 'R') {
        return None;
    }
    let (name, a) = match parse_str(s, i + 1) {
        Some(x) => x,
        None => {
            return None;
        },
    };
    let (version, b) = match parse_str(s, a) {
        Some(x) => x,
        None => {
            return None;
        },
    };
    let (source, c): (Option<Vec<(String, Source)>>, usize) = if b < s.len() && s[b] == 'N' {
        (None, b + 1)
    } else if b < s.len() && s[b] == 'S' {
        match parse_ns_list(s, b + 1) {
            Some((v, e)) => (Some(v), e),
            None => {
                return None;
            },
        }
    } else {
        return None;
    };
    let (shell, d): (Option<DepSpec>, usize) = if c < s.len() && s[c] == 'N' {
        (None, c + 1)
    } else if c < s.len() && s[c] == 'S' {
        match parse_dep_spec(s, c + 1) {
            Some((v, e)) => (Some(v), e),
            None => {
                return None;
            },
        }
    } else {
        return None;
    };
    let (deps, e): (Option<Vec<DepSpec>>, usize) = if d < s.len() && s[d] == 'N' {
        (None, d + 1)
    } else if d < s.len() && s[d] == 'S' {
        match parse_dep_list(s, d + 1) {
            Some((v, en)) => (Some(v), en),
            None => {
                return None;
            },
        }
    } else {
        return None;
    };
    let (mkdirs, f) = match parse_opt_str_list(s, e) {
        Some(x) => x,
        None => {
            return None;
        },
    };
    let (build, g) = match parse_build(s, f) {
        Some(x) => x,
        None => {
            return None;
        },
    };
    let (artefacts, h) = match parse_str_list(s, g) {
        Some(x) => x,
        None => {
            return None;
        },
    };
    Some(
        (
            NamedRecipeVersion { name, version, source, shell, deps, mkdirs, build, artefacts },
            h,
        ),
    )
}

} // verus!
