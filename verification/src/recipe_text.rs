//! The canonical text form of a resolved recipe.
//!
//! One format serves both ends of the wire and the recipe-identity hash:
//! every field is length-prefixed, so the encoding is unambiguous and a
//! parser can walk it without lookahead.  Strings are written as
//! `<decimal length>:<characters>`, options as `N` or `S<item>`, lists
//! as `<decimal count>;<items>`, booleans as `t` or `f`.

use vstd::prelude::*;
use crate::recipe::{
    Source, SourceV, SourceContents, SourceContentsV, RecipeBuildStep, RecipeBuildStepV,
    RecipeBuildSteps, RecipeBuildStepsV, DepSpec, DepSpecV, NamedRecipeVersion,
    NamedRecipeVersionV,
};
use crate::strutil::append_chars;

verus! {

pub open spec fn digit_char(n: int) -> char {
    seq!['0', '1', '2', '3', '4', '5', '6', '7', '8', '9'][n]
}

/// Decimal digits of `n`, most significant first.
pub open spec fn enc_nat(n: nat) -> Seq<char>
    decreases n,
{
    if n < 10 {
        seq![digit_char(n as int)]
    } else {
        enc_nat(n / 10).push(digit_char((n % 10) as int))
    }
}

pub open spec fn enc_str(s: Seq<char>) -> Seq<char> {
    enc_nat(s.len()) + seq![':'] + s
}

pub open spec fn enc_bool(b: bool) -> Seq<char> {
    if b {
        seq!['t']
    } else {
        seq!['f']
    }
}

pub open spec fn enc_opt<A>(x: Option<A>, f: spec_fn(A) -> Seq<char>) -> Seq<char> {
    match x {
        None => seq!['N'],
        Some(v) => seq!['S'] + f(v),
    }
}

/// Concatenation of the encodings of the items of `s`.
pub open spec fn enc_items<A>(s: Seq<A>, f: spec_fn(A) -> Seq<char>) -> Seq<char>
    decreases s.len(),
{
    if s.len() == 0 {
        Seq::empty()
    } else {
        enc_items(s.drop_last(), f) + f(s.last())
    }
}

pub open spec fn enc_list<A>(s: Seq<A>, f: spec_fn(A) -> Seq<char>) -> Seq<char> {
    enc_nat(s.len()) + seq![';'] + enc_items(s, f)
}

pub open spec fn enc_source(v: SourceV) -> Seq<char> {
    enc_opt(v.extract, |s: Seq<char>| enc_str(s)) + enc_opt(v.noextract, |s: Seq<char>| enc_str(s))
        + enc_opt(v.copy, |l: Seq<Seq<char>>| enc_list(l, |s: Seq<char>| enc_str(s))) + enc_opt(
        v.chmod,
        |s: Seq<char>| enc_str(s),
    )
}

pub open spec fn enc_source_contents(v: SourceContentsV) -> Seq<char> {
    enc_str(v.url) + enc_str(v.sha)
}

pub open spec fn enc_dep_spec(v: DepSpecV) -> Seq<char> {
    enc_str(v.name) + enc_str(v.version) + enc_opt(v.from, |s: Seq<char>| enc_str(s)) + enc_opt(
        v.to,
        |s: Seq<char>| enc_str(s),
    )
}

pub open spec fn enc_step(v: RecipeBuildStepV) -> Seq<char> {
    match v {
        RecipeBuildStepV::Simple(s) => seq!['s'] + enc_str(s),
        RecipeBuildStepV::Complex { cmd, serial, bash } => seq!['c'] + enc_str(cmd) + enc_bool(
            serial,
        ) + enc_bool(bash),
    }
}

pub open spec fn enc_phase(x: Option<Seq<RecipeBuildStepV>>) -> Seq<char> {
    enc_opt(x, |l: Seq<RecipeBuildStepV>| enc_list(l, |v: RecipeBuildStepV| enc_step(v)))
}

pub open spec fn enc_build(v: RecipeBuildStepsV) -> Seq<char> {
    match v {
        RecipeBuildStepsV::Single { single } => seq!['S'] + enc_list(
            single,
            |s: RecipeBuildStepV| enc_step(s),
        ),
        RecipeBuildStepsV::Piecewise {
            unpack,
            unpack_dirname,
            patch_dir,
            package_dir,
            prepare,
            configure,
            compile,
            install,
            postprocess,
        } => seq!['P'] + enc_phase(unpack) + enc_str(unpack_dirname) + enc_str(patch_dir) + enc_opt(
            package_dir,
            |s: Seq<char>| enc_str(s),
        ) + enc_phase(prepare) + enc_phase(configure) + enc_phase(compile) + enc_phase(install)
            + enc_phase(postprocess),
    }
}

pub open spec fn enc_named_source(v: (Seq<char>, SourceV)) -> Seq<char> {
    enc_str(v.0) + enc_source(v.1)
}

/// The canonical text of a resolved recipe.
pub open spec fn enc_recipe(v: NamedRecipeVersionV) -> Seq<char> {
    seq!['R'] + enc_str(v.name) + enc_str(v.version) + enc_opt(
        v.source,
        |l: Seq<(Seq<char>, SourceV)>| enc_list(l, |p: (Seq<char>, SourceV)| enc_named_source(p)),
    ) + enc_opt(v.shell, |d: DepSpecV| enc_dep_spec(d)) + enc_opt(
        v.deps,
        |l: Seq<DepSpecV>| enc_list(l, |d: DepSpecV| enc_dep_spec(d)),
    ) + enc_opt(v.mkdirs, |l: Seq<Seq<char>>| enc_list(l, |s: Seq<char>| enc_str(s))) + enc_build(
        v.build,
    ) + enc_list(v.artefacts, |s: Seq<char>| enc_str(s))
}

fn emit_digit(n: usize) -> (r: char)
    requires
        n < 10,
    ensures
        r == digit_char(n as int),
{
    match n {
        0 => '0',
        1 => '1',
        2 => '2',
        3 => '3',
        4 => '4',
        5 => '5',
        6 => '6',
        7 => '7',
        8 => '8',
        _ => '9',
    }
}

fn emit_nat(out: &mut Vec<char>, n: usize)
    ensures
        final(out)@ == old(out)@ + enc_nat(n as nat),
    decreases n,
{
    if n < 10 {
        out.push(emit_digit(n));
        proof {
            assert(old(out)@ + enc_nat(n as nat) =~= old(out)@.push(digit_char(n as int)));
        }
    } else {
        emit_nat(out, n / 10);
        out.push(emit_digit(n % 10));
        proof {
            assert(old(out)@ + enc_nat(n as nat) =~= (old(out)@ + enc_nat((n / 10) as nat)).push(
                digit_char((n % 10) as int),
            ));
        }
    }
}

fn emit_str(out: &mut Vec<char>, s: &str)
    ensures
        final(out)@ == old(out)@ + enc_str(s@),
{
    let cs = crate::strutil::chars_of(s);
    emit_nat(out, cs.len());
    out.push(':');
    append_chars(out, &cs);
    proof {
        assert(old(out)@ + enc_str(s@) =~= ((old(out)@ + enc_nat(s@.len())).push(':')) + s@);
    }
}

fn emit_bool(out: &mut Vec<char>, b: bool)
    ensures
        final(out)@ == old(out)@ + enc_bool(b),
{
    if b {
        out.push('t');
        proof {
            assert(old(out)@ + enc_bool(b) =~= old(out)@.push('t'));
        }
    } else {
        out.push('f');
        proof {
            assert(old(out)@ + enc_bool(b) =~= old(out)@.push('f'));
        }
    }
}

fn emit_opt_str(out: &mut Vec<char>, x: &Option<String>)
    ensures
        final(out)@ == old(out)@ + enc_opt(x.deep_view(), |s: Seq<char>| enc_str(s)),
{
    match x {
        None => {
            out.push('N');
            proof {
                assert(old(out)@ + enc_opt(x.deep_view(), |s: Seq<char>| enc_str(s))
                    =~= old(out)@.push('N'));
            }
        },
        Some(s) => {
            out.push('S');
            emit_str(out, s.as_str());
            proof {
                assert(old(out)@ + enc_opt(x.deep_view(), |s: Seq<char>| enc_str(s))
                    =~= old(out)@.push('S') + enc_str(s@));
            }
        },
    }
}

pub fn emit_str_list(out: &mut Vec<char>, l: &Vec<String>)
    ensures
        final(out)@ == old(out)@ + enc_list(l.deep_view(), |s: Seq<char>| enc_str(s)),
{
    emit_nat(out, l.len());
    out.push(';');
    let ghost f = |s: Seq<char>| enc_str(s);
    let ghost head = old(out)@ + enc_nat(l.deep_view().len()) + seq![';'];
    proof {
        assert(out@ =~= head + enc_items(l.deep_view().take(0), f)) by {
            assert(enc_items(l.deep_view().take(0), f) =~= Seq::<char>::empty());
            assert(head =~= (old(out)@ + enc_nat(l.deep_view().len())).push(';'));
        }
    }
    let mut i: usize = 0;
    while i < l.len()
        invariant
            i <= l@.len(),
            l.deep_view().len() == l@.len(),
            f == (|s: Seq<char>| enc_str(s)),
            out@ == head + enc_items(l.deep_view().take(i as int), f),
        decreases l@.len() - i,
    {
        emit_str(out, l[i].as_str());
        proof {
            assert(l.deep_view().take(i + 1).drop_last() =~= l.deep_view().take(i as int));
            assert(l.deep_view().take(i + 1).last() == l.deep_view()[i as int]);
            assert(l.deep_view()[i as int] == l@[i as int]@);
            assert(f(l.deep_view()[i as int]) == enc_str(l@[i as int]@));
            assert(enc_items(l.deep_view().take(i + 1), f) == enc_items(
                l.deep_view().take(i as int),
                f,
            ) + f(l.deep_view()[i as int]));
            assert(out@ =~= head + enc_items(l.deep_view().take(i + 1), f));
        }
        i = i + 1;
    }
    proof {
        assert(l.deep_view().take(l.deep_view().len() as int) =~= l.deep_view());
        assert(out@ =~= old(out)@ + enc_list(l.deep_view(), f));
    }
}

fn emit_opt_str_list(out: &mut Vec<char>, x: &Option<Vec<String>>)
    ensures
        final(out)@ == old(out)@ + enc_opt(
            x.deep_view(),
            |l: Seq<Seq<char>>| enc_list(l, |s: Seq<char>| enc_str(s)),
        ),
{
    let ghost f = |l: Seq<Seq<char>>| enc_list(l, |s: Seq<char>| enc_str(s));
    match x {
        None => {
            out.push('N');
            proof {
                assert(old(out)@ + enc_opt(x.deep_view(), f) =~= old(out)@.push('N'));
            }
        },
        Some(l) => {
            out.push('S');
            emit_str_list(out, l);
            proof {
                assert(old(out)@ + enc_opt(x.deep_view(), f)
                    =~= old(out)@.push('S') + f(l.deep_view()));
            }
        },
    }
}

fn emit_source(out: &mut Vec<char>, v: &Source)
    ensures
        final(out)@ == old(out)@ + enc_source(v.deep_view()),
{
    let ghost o0 = out@;
    emit_opt_str(out, &v.extract);
    emit_opt_str(out, &v.noextract);
    emit_opt_str_list(out, &v.copy);
    emit_opt_str(out, &v.chmod);
    proof {
        assert(out@ =~= o0 + enc_source(v.deep_view()));
    }
}

fn emit_source_contents_inner(out: &mut Vec<char>, v: &SourceContents)
    ensures
        final(out)@ == old(out)@ + enc_source_contents(v.deep_view()),
{
    let ghost o0 = out@;
    emit_str(out, v.url.as_str());
    emit_str(out, v.sha.as_str());
    proof {
        assert(out@ =~= o0 + enc_source_contents(v.deep_view()));
    }
}

/// The canonical text of a source-contents record, as a string.
pub fn emit_source_contents(v: &SourceContents) -> (r: String)
    ensures
        r@ == enc_source_contents(v.deep_view()),
{
    let mut out: Vec<char> = Vec::new();
    emit_source_contents_inner(&mut out, v);
    proof {
        assert(out@ =~= enc_source_contents(v.deep_view()));
    }
    crate::strutil::string_of(&out)
}

fn emit_dep_spec(out: &mut Vec<char>, v: &DepSpec)
    ensures
        final(out)@ == old(out)@ + enc_dep_spec(v.deep_view()),
{
    let ghost o0 = out@;
    emit_str(out, v.name.as_str());
    emit_str(out, v.version.as_str());
    emit_opt_str(out, &v.from);
    emit_opt_str(out, &v.to);
    proof {
        assert(out@ =~= o0 + enc_dep_spec(v.deep_view()));
    }
}

fn emit_step(out: &mut Vec<char>, v: &RecipeBuildStep)
    ensures
        final(out)@ == old(out)@ + enc_step(v.deep_view()),
{
    match v {
        RecipeBuildStep::Simple(s) => {
            out.push('s');
            emit_str(out, s.as_str());
            proof {
                assert(old(out)@ + enc_step(v.deep_view())
                    =~= old(out)@.push('s') + enc_str(s@));
            }
        },
        RecipeBuildStep::Complex { cmd, serial, bash } => {
            out.push('c');
            emit_str(out, cmd.as_str());
            emit_bool(out, *serial);
            emit_bool(out, *bash);
            proof {
                assert(old(out)@ + enc_step(v.deep_view())
                    =~= ((old(out)@.push('c') + enc_str(cmd@)) + enc_bool(*serial)) + enc_bool(
                    *bash,
                ));
            }
        },
    }
}

fn emit_step_list(out: &mut Vec<char>, l: &Vec<RecipeBuildStep>)
    ensures
        final(out)@ == old(out)@ + enc_list(l.deep_view(), |s: RecipeBuildStepV| enc_step(s)),
{
    emit_nat(out, l.len());
    out.push(';');
    let ghost f = |s: RecipeBuildStepV| enc_step(s);
    let ghost head = old(out)@ + enc_nat(l.deep_view().len()) + seq![';'];
    proof {
        assert(out@ =~= head + enc_items(l.deep_view().take(0), f)) by {
            assert(enc_items(l.deep_view().take(0), f) =~= Seq::<char>::empty());
            assert(head =~= (old(out)@ + enc_nat(l.deep_view().len())).push(';'));
        }
    }
    let mut i: usize = 0;
    while i < l.len()
        invariant
            i <= l@.len(),
            l.deep_view().len() == l@.len(),
            f == (|s: RecipeBuildStepV| enc_step(s)),
            out@ == head + enc_items(l.deep_view().take(i as int), f),
        decreases l@.len() - i,
    {
        emit_step(out, &l[i]);
        proof {
            assert(l.deep_view().take(i + 1).drop_last() =~= l.deep_view().take(i as int));
            assert(l.deep_view().take(i + 1).last() == l.deep_view()[i as int]);
            assert(l.deep_view()[i as int] == l@[i as int].deep_view());
            assert(f(l.deep_view()[i as int]) == enc_step(l@[i as int].deep_view()));
            assert(enc_items(l.deep_view().take(i + 1), f) == enc_items(
                l.deep_view().take(i as int),
                f,
            ) + f(l.deep_view()[i as int]));
            assert(out@ =~= head + enc_items(l.deep_view().take(i + 1), f));
        }
        i = i + 1;
    }
    proof {
        assert(l.deep_view().take(l.deep_view().len() as int) =~= l.deep_view());
        assert(out@ =~= old(out)@ + enc_list(l.deep_view(), f));
    }
}

fn emit_phase(out: &mut Vec<char>, x: &Option<Vec<RecipeBuildStep>>)
    ensures
        final(out)@ == old(out)@ + enc_phase(x.deep_view()),
{
    match x {
        None => {
            out.push('N');
            proof {
                assert(old(out)@ + enc_phase(x.deep_view()) =~= old(out)@.push('N'));
            }
        },
        Some(l) => {
            out.push('S');
            emit_step_list(out, l);
            proof {
                assert(old(out)@ + enc_phase(x.deep_view())
                    =~= old(out)@.push('S') + enc_list(
                    l.deep_view(),
                    |s: RecipeBuildStepV| enc_step(s),
                ));
            }
        },
    }
}

#[verifier::rlimit(100)]
#[verifier::spinoff_prover]
fn emit_build(out: &mut Vec<char>, v: &RecipeBuildSteps)
    ensures
        final(out)@ == old(out)@ + enc_build(v.deep_view()),
{
    match v {
        RecipeBuildSteps::Single { single } => {
            out.push('S');
            emit_step_list(out, single);
            proof {
                assert(old(out)@ + enc_build(v.deep_view())
                    =~= old(out)@.push('S') + enc_list(
                    single.deep_view(),
                    |s: RecipeBuildStepV| enc_step(s),
                ));
            }
        },
        RecipeBuildSteps::Piecewise {
            unpack,
            unpack_dirname,
            patch_dir,
            package_dir,
            prepare,
            configure,
            compile,
            install,
            postprocess,
        } => {
            let ghost o0 = out@;
            out.push('P');
            emit_phase(out, unpack);
            emit_str(out, unpack_dirname.as_str());
            emit_str(out, patch_dir.as_str());
            emit_opt_str(out, package_dir);
            emit_phase(out, prepare);
            emit_phase(out, configure);
            emit_phase(out, compile);
            emit_phase(out, install);
            emit_phase(out, postprocess);
            proof {
                assert(out@ =~= o0 + enc_build(v.deep_view()));
            }
        },
    }
}

fn emit_named_source_list(out: &mut Vec<char>, l: &Vec<(String, Source)>)
    ensures
        final(out)@ == old(out)@ + enc_list(
            l.deep_view(),
            |p: (Seq<char>, SourceV)| enc_named_source(p),
        ),
{
    emit_nat(out, l.len());
    out.push(';');
    let ghost f = |p: (Seq<char>, SourceV)| enc_named_source(p);
    let ghost head = old(out)@ + enc_nat(l.deep_view().len()) + seq![';'];
    proof {
        assert(out@ =~= head + enc_items(l.deep_view().take(0), f)) by {
            assert(enc_items(l.deep_view().take(0), f) =~= Seq::<char>::empty());
            assert(head =~= (old(out)@ + enc_nat(l.deep_view().len())).push(';'));
        }
    }
    let mut i: usize = 0;
    while i < l.len()
        invariant
            i <= l@.len(),
            l.deep_view().len() == l@.len(),
            f == (|p: (Seq<char>, SourceV)| enc_named_source(p)),
            out@ == head + enc_items(l.deep_view().take(i as int), f),
        decreases l@.len() - i,
    {
        let ghost o1 = out@;
        emit_str(out, l[i].0.as_str());
        emit_source(out, &l[i].1);
        proof {
            assert(l.deep_view().take(i + 1).drop_last() =~= l.deep_view().take(i as int));
            assert(l.deep_view().take(i + 1).last() == l.deep_view()[i as int]);
            assert(l.deep_view()[i as int] == (l@[i as int].0@, l@[i as int].1.deep_view()));
            assert(out@ =~= o1 + enc_named_source(l.deep_view()[i as int]));
            assert(f(l.deep_view()[i as int]) == enc_named_source(l.deep_view()[i as int]));
            assert(enc_items(l.deep_view().take(i + 1), f) == enc_items(
                l.deep_view().take(i as int),
                f,
            ) + f(l.deep_view()[i as int]));
            assert(out@ =~= head + enc_items(l.deep_view().take(i + 1), f));
        }
        i = i + 1;
    }
    proof {
        assert(l.deep_view().take(l.deep_view().len() as int) =~= l.deep_view());
        assert(out@ =~= old(out)@ + enc_list(l.deep_view(), f));
    }
}

/// The canonical text of a resolved recipe, as a string.
#[verifier::rlimit(100)]
#[verifier::spinoff_prover]
pub fn emit_recipe(v: &NamedRecipeVersion) -> (r: String)
    ensures
        r@ == enc_recipe(v.deep_view()),
{
    let mut out: Vec<char> = Vec::new();
    out.push('R');
    emit_str(&mut out, v.name.as_str());
    emit_str(&mut out, v.version.as_str());
    match &v.source {
        None => {
            out.push('N');
        },
        Some(l) => {
            out.push('S');
            emit_named_source_list(&mut out, l);
        },
    }
    match &v.shell {
        None => {
            out.push('N');
        },
        Some(d) => {
            out.push('S');
            emit_dep_spec(&mut out, d);
        },
    }
    match &v.deps {
        None => {
            out.push('N');
        },
        Some(l) => {
            out.push('S');
            emit_nat(&mut out, l.len());
            out.push(';');
            let ghost f = |d: DepSpecV| enc_dep_spec(d);
            let ghost head = out@;
            proof {
                assert(enc_items(l.deep_view().take(0), f) =~= Seq::<char>::empty());
                assert(out@ =~= head + enc_items(l.deep_view().take(0), f));
            }
            let mut i: usize = 0;
            while i < l.len()
                invariant
                    i <= l@.len(),
                    l.deep_view().len() == l@.len(),
                    f == (|d: DepSpecV| enc_dep_spec(d)),
                    out@ == head + enc_items(l.deep_view().take(i as int), f),
                decreases l@.len() - i,
            {
                emit_dep_spec(&mut out, &l[i]);
                proof {
                    assert(l.deep_view().take(i + 1).drop_last() =~= l.deep_view().take(i as int));
                    assert(l.deep_view().take(i + 1).last() == l.deep_view()[i as int]);
                    assert(l.deep_view()[i as int] == l@[i as int].deep_view());
                    assert(f(l.deep_view()[i as int]) == enc_dep_spec(l@[i as int].deep_view()));
                    assert(enc_items(l.deep_view().take(i + 1), f) == enc_items(
                        l.deep_view().take(i as int),
                        f,
                    ) + f(l.deep_view()[i as int]));
                    assert(out@ =~= head + enc_items(l.deep_view().take(i + 1), f));
                }
                i = i + 1;
            }
            proof {
                assert(l.deep_view().take(l.deep_view().len() as int) =~= l.deep_view());
            }
        },
    }
    emit_opt_str_list(&mut out, &v.mkdirs);
    emit_build(&mut out, &v.build);
    emit_str_list(&mut out, &v.artefacts);
    proof {
        assert(out@ =~= enc_recipe(v.deep_view()));
    }
    crate::strutil::string_of(&out)
}

} // verus!
