//! What the worker decides about a build step before anything runs: an
//! assignment updates the environment, `cd` moves the working
//! directory, everything else becomes a command vector for the chroot
//! helper.  The decision is a function of the step text, the
//! environment and the working directory alone.

use vstd::prelude::*;
use crate::envmap::EnvMap;
use crate::envsub::{env_substitute, subst_outcome, SubstError};
use crate::paths::sanitize_path_spec;
use crate::recipe::{RecipeBuildStep, RecipeBuildStepV, RecipeBuildSteps, RecipeBuildStepsV,
    NamedRecipeVersion};
use crate::strutil::{chars_of, string_of, copy_range, find_char, first_index_from, str_eq,
    split_char, split_char_exec, append_chars};

verus! {

/// What `shlex::split` returns for a line; a function of the text
/// alone.
pub uninterp spec fn shell_split_of(s: Seq<char>) -> Option<Seq<Seq<char>>>;

/// Relies on `shlex::split`: POSIX-style shell word splitting, `None`
/// on erroneous input such as an unclosed quote.
#[verifier::external_body]
fn shell_split(s: &str) -> (r: Option<Vec<String>>)
    ensures
        r.deep_view() == shell_split_of(s@),
{
    shlex::split(s)
}

/// What executing one step means, beyond any environment update the
/// planner already applied.
#[derive(Debug)]
pub enum StepAction {
    /// The step was `KEY=VALUE`: the environment now holds the binding
    /// and no process runs.
    DidAssign,
    /// The step was `cd <dir>`: the working directory becomes this
    /// root-relative path.
    ChangeDir(String),
    /// Dispatch this command vector through the chroot helper; when
    /// `serial`, all outstanding children must be joined first and this
    /// one awaited inline.
    Run { argv: Vec<String>, serial: bool },
}

pub ghost enum StepPlanV {
    Assign { key: Seq<char>, value: Seq<char> },
    ChangeDir(Seq<char>),
    Run { argv: Seq<Seq<char>>, serial: bool },
}

#[derive(Debug, PartialEq, Eq, Structural, Clone, Copy)]
pub enum StepError {
    /// A `$NAME` reference could not be resolved, or never settled.
    Subst(SubstError),
    /// The substituted line is not shell-splittable.
    SplitFailed,
    /// The substituted line split into no words.
    EmptyCommand,
    /// `cd` without a target.
    CdMissingArg,
    /// The `cd` target escapes the build root.
    CdEscapes,
    /// `alias` is not implemented.
    AliasUnimplemented,
}

/// `PathBuf::join` on path strings: an absolute right side replaces the
/// left entirely.
pub open spec fn join_path_str(cur: Seq<char>, arg: Seq<char>) -> Seq<char> {
    if arg.len() > 0 && arg[0] == '/' {
        arg
    } else if cur.len() == 0 {
        arg
    } else if cur.last() == '/' {
        cur + arg
    } else {
        cur + seq!['/'] + arg
    }
}

/// The whole decision, as a function of the step text, the flags, the
/// environment and the working directory.
pub open spec fn do_step_spec(
    cmd: Seq<char>,
    serial: bool,
    bash: bool,
    m: Map<Seq<char>, Seq<char>>,
    cur: Seq<char>,
) -> Result<StepPlanV, StepError> {
    let sp = first_index_from(cmd, ' ', 0);
    let eq = first_index_from(cmd, '=', 0);
    if eq < sp && !bash {
        match subst_outcome(cmd.skip(eq + 1), m) {
            Err(e) => Err(StepError::Subst(e)),
            Ok(v) => Ok(StepPlanV::Assign { key: cmd.take(eq), value: v }),
        }
    } else if bash {
        Ok(StepPlanV::Run { argv: seq!["bash"@, "-c"@, cmd], serial })
    } else {
        match subst_outcome(cmd, m) {
            Err(e) => Err(StepError::Subst(e)),
            Ok(line) => match shell_split_of(line) {
                None => Err(StepError::SplitFailed),
                Some(argv) => if argv.len() == 0 {
                    Err(StepError::EmptyCommand)
                } else if argv[0] == "cd"@ {
                    if argv.len() < 2 {
                        Err(StepError::CdMissingArg)
                    } else {
                        match sanitize_path_spec(join_path_str(cur, argv[1])) {
                            None => Err(StepError::CdEscapes),
                            Some(nd) => Ok(StepPlanV::ChangeDir(nd)),
                        }
                    }
                } else if argv[0] == "alias"@ {
                    Err(StepError::AliasUnimplemented)
                } else {
                    Ok(StepPlanV::Run { argv, serial })
                },
            },
        }
    }
}

/// Join the working directory with a `cd` target as `PathBuf::join`
/// would.
fn join_dir(cur: &str, arg: &str) -> (r: String)
    ensures
        r@ == join_path_str(cur@, arg@),
{
    let ac = chars_of(arg);
    if ac.len() > 0 && ac[0] == '/' {
        return string_of(&ac);
    }
    let cc = chars_of(cur);
    if cc.len() == 0 {
        return string_of(&ac);
    }
    let mut out = cc;
    if out[out.len() - 1] != '/' {
        out.push('/');
    }
    crate::strutil::append_chars(&mut out, &ac);
    proof {
        if cur@.last() == '/' {
            assert(out@ =~= cur@ + arg@);
        } else {
            assert(out@ =~= cur@ + seq!['/'] + arg@);
        }
    }
    string_of(&out)
}

/// Interpret one build step.  An assignment is applied to `env` here;
/// every other outcome leaves `env` unchanged and tells the caller what
/// to do.
pub fn do_step(step: &RecipeBuildStep, env: &mut EnvMap, cur_dir: &str) -> (r: Result<
    StepAction,
    StepError,
>)
    requires
        old(env).wf(),
    ensures
        final(env).wf(),
        ({
            let spec_r = do_step_spec(
                step.cmd_view(),
                step.serial_view(),
                step.bash_view(),
                old(env)@,
                cur_dir@,
            );
            match r {
                Ok(StepAction::DidAssign) => spec_r matches Ok(StepPlanV::Assign { key, value })
                    && final(env)@ == old(env)@.insert(key, value),
                Ok(StepAction::ChangeDir(nd)) => spec_r == Ok::<StepPlanV, StepError>(
                    StepPlanV::ChangeDir(nd@),
                ) && final(env)@ == old(env)@,
                Ok(StepAction::Run { argv, serial }) => spec_r matches Ok(StepPlanV::Run {
                    argv: sargv,
                    serial: sserial,
                }) && argv.deep_view() == sargv && serial == sserial && final(env)@ == old(env)@,
                Err(e) => spec_r == Err::<StepPlanV, StepError>(e) && final(env)@ == old(env)@,
            }
        }),
{
    let cmd: &String = match step {
        RecipeBuildStep::Simple(s) => s,
        RecipeBuildStep::Complex { cmd, .. } => cmd,
    };
    let serial: bool = match step {
        RecipeBuildStep::Simple(_) => true,
        RecipeBuildStep::Complex { serial, .. } => *serial,
    };
    let bash: bool = match step {
        RecipeBuildStep::Simple(_) => false,
        RecipeBuildStep::Complex { bash, .. } => *bash,
    };
    let cs = chars_of(cmd.as_str());
    let sp = find_char(&cs, ' ');
    let eq = find_char(&cs, '=');
    if eq < sp && !bash {
        let k = copy_range(&cs, 0, eq);
        let v = copy_range(&cs, eq + 1, cs.len());
        let vs = string_of(&v);
        proof {
            assert(vs@ =~= step.cmd_view().skip(eq + 1));
            assert(k@ =~= step.cmd_view().take(eq as int));
        }
        match env_substitute(vs.as_str(), env) {
            Ok(value) => {
                env.insert(string_of(&k), value);
                Ok(StepAction::DidAssign)
            },
            Err(e) => Err(StepError::Subst(e)),
        }
    } else if bash {
        let argv: Vec<String> = vec!["bash".to_owned(), "-c".to_owned(), cmd.clone()];
        proof {
            assert(argv.deep_view() =~= seq!["bash"@, "-c"@, step.cmd_view()]);
        }
        Ok(StepAction::Run { argv, serial })
    } else {
        match env_substitute(cmd.as_str(), env) {
            Err(e) => Err(StepError::Subst(e)),
            Ok(line) => match shell_split(line.as_str()) {
                None => Err(StepError::SplitFailed),
                Some(argv) => {
                    if argv.len() == 0 {
                        proof {
                            assert(argv.deep_view().len() == 0);
                        }
                        Err(StepError::EmptyCommand)
                    } else {
                        proof {
                            assert(argv.deep_view()[0] == argv@[0]@);
                            assert(argv.deep_view().len() == argv@.len());
                        }
                        if str_eq(argv[0].as_str(), "cd") {
                            if argv.len() < 2 {
                                Err(StepError::CdMissingArg)
                            } else {
                                proof {
                                    assert(argv.deep_view()[1] == argv@[1]@);
                                }
                                let joined = join_dir(cur_dir, argv[1].as_str());
                                match crate::paths::sanitize_path(joined.as_str()) {
                                    Some(nd) => Ok(StepAction::ChangeDir(nd)),
                                    None => Err(StepError::CdEscapes),
                                }
                            }
                        } else if str_eq(argv[0].as_str(), "alias") {
                            Err(StepError::AliasUnimplemented)
                        } else {
                            Ok(StepAction::Run { argv, serial })
                        }
                    }
                },
            },
        }
    }
}

/// One planned act of the build engine.  `Step` entries run through
/// [`do_step`]; the others adjust the working directory or environment,
/// or create the staging directory, and involve no command.
#[derive(Debug)]
pub enum BuildAction {
    /// The working directory becomes this path.
    SetDir(String),
    /// Bind an environment variable to a literal value.
    SetEnv { key: String, value: String },
    /// Create the directory the `DESTDIR` variable names, under the
    /// build root.
    EnsureDestDir,
    /// The working directory becomes the value of this variable.
    SetDirFromEnv { key: String },
    /// Run one build step.
    Step(RecipeBuildStep),
}

pub ghost enum BuildActionV {
    SetDir(Seq<char>),
    SetEnv { key: Seq<char>, value: Seq<char> },
    EnsureDestDir,
    SetDirFromEnv { key: Seq<char> },
    Step(RecipeBuildStepV),
}

impl DeepView for BuildAction {
    type V = BuildActionV;

    open spec fn deep_view(&self) -> BuildActionV {
        match self {
            BuildAction::SetDir(s) => BuildActionV::SetDir(s@),
            BuildAction::SetEnv { key, value } => BuildActionV::SetEnv {
                key: key@,
                value: value@,
            },
            BuildAction::EnsureDestDir => BuildActionV::EnsureDestDir,
            BuildAction::SetDirFromEnv { key } => BuildActionV::SetDirFromEnv { key: key@ },
            BuildAction::Step(s) => BuildActionV::Step(s.deep_view()),
        }
    }
}

#[derive(Debug, PartialEq, Eq, Structural, Clone, Copy)]
pub enum ExpandError {
    /// The version carries a pass suffix whose number is zero or does
    /// not fit 32 bits.
    BadPassNumber,
}

#[derive(Debug, PartialEq, Eq, Structural, Clone, Copy)]
pub enum PhaseKind {
    Unpack,
    Prepare,
    Configure,
    Compile,
    Install,
    Postprocess,
}

/// The helper invocation a phase falls back to, and which a literal
/// `default` step stands for.
pub open spec fn default_cmd(k: PhaseKind) -> Seq<char> {
    match k {
        PhaseKind::Unpack => "bash -exc '. /steps/helpers.sh; default_src_unpack'"@,
        PhaseKind::Prepare => "bash -exc '. /steps/helpers.sh; default_src_prepare'"@,
        PhaseKind::Configure => "bash -exc '. /steps/helpers.sh; default_src_configure'"@,
        PhaseKind::Compile => "bash -exc '. /steps/helpers.sh; default_src_compile'"@,
        PhaseKind::Install => "bash -exc '. /steps/helpers.sh; default_src_install'"@,
        PhaseKind::Postprocess => "bash -exc '. /steps/helpers.sh; default_src_postprocess'"@,
    }
}

fn default_cmd_exec(k: PhaseKind) -> (r: String)
    ensures
        r@ == default_cmd(k),
{
    match k {
        PhaseKind::Unpack => "bash -exc '. /steps/helpers.sh; default_src_unpack'".to_owned(),
        PhaseKind::Prepare => "bash -exc '. /steps/helpers.sh; default_src_prepare'".to_owned(),
        PhaseKind::Configure => "bash -exc '. /steps/helpers.sh; default_src_configure'".to_owned(),
        PhaseKind::Compile => "bash -exc '. /steps/helpers.sh; default_src_compile'".to_owned(),
        PhaseKind::Install => "bash -exc '. /steps/helpers.sh; default_src_install'".to_owned(),
        PhaseKind::Postprocess => "bash -exc '. /steps/helpers.sh; default_src_postprocess'"
            .to_owned(),
    }
}

/// A literal `default` step stands for the phase's helper invocation;
/// its flags are kept.
pub open spec fn subst_default(s: RecipeBuildStepV, dflt: Seq<char>) -> RecipeBuildStepV {
    match s {
        RecipeBuildStepV::Simple(c) => if c == "default"@ {
            RecipeBuildStepV::Simple(dflt)
        } else {
            RecipeBuildStepV::Simple(c)
        },
        RecipeBuildStepV::Complex { cmd, serial, bash } => if cmd == "default"@ {
            RecipeBuildStepV::Complex { cmd: dflt, serial, bash }
        } else {
            RecipeBuildStepV::Complex { cmd, serial, bash }
        },
    }
}

/// A phase's actions: its declared steps with `default` substituted, or
/// the single helper invocation when the phase is omitted.
pub open spec fn expand_phase(steps: Option<Seq<RecipeBuildStepV>>, k: PhaseKind) -> Seq<
    BuildActionV,
> {
    match steps {
        Some(l) => l.map_values(
            |s: RecipeBuildStepV| BuildActionV::Step(subst_default(s, default_cmd(k))),
        ),
        None => seq![BuildActionV::Step(RecipeBuildStepV::Simple(default_cmd(k)))],
    }
}

fn push_phase(out: &mut Vec<BuildAction>, steps: &Option<Vec<RecipeBuildStep>>, k: PhaseKind)
    ensures
        final(out).deep_view() == old(out).deep_view() + expand_phase(steps.deep_view(), k),
{
    match steps {
        None => {
            let dflt = default_cmd_exec(k);
            out.push(BuildAction::Step(RecipeBuildStep::Simple(dflt)));
            proof {
                assert(out.deep_view() =~= old(out).deep_view() + expand_phase(
                    steps.deep_view(),
                    k,
                ));
            }
        },
        Some(l) => {
            let ghost lv = l.deep_view();
            let ghost f = |s: RecipeBuildStepV| BuildActionV::Step(
                subst_default(s, default_cmd(k)),
            );
            let mut i: usize = 0;
            proof {
                assert(out.deep_view() =~= old(out).deep_view() + lv.take(0).map_values(f));
            }
            while i < l.len()
                invariant
                    lv == l.deep_view(),
                    lv.len() == l@.len(),
                    i <= l@.len(),
                    f == (|s: RecipeBuildStepV| BuildActionV::Step(
                        subst_default(s, default_cmd(k)),
                    )),
                    out.deep_view() == old(out).deep_view() + lv.take(i as int).map_values(f),
                decreases l@.len() - i,
            {
                proof {
                    assert(lv[i as int] == l@[i as int].deep_view());
                }
                let step = &l[i];
                let replaced: RecipeBuildStep = match step {
                    RecipeBuildStep::Simple(c) => {
                        if str_eq(c.as_str(), "default") {
                            RecipeBuildStep::Simple(default_cmd_exec(k))
                        } else {
                            RecipeBuildStep::Simple(c.clone())
                        }
                    },
                    RecipeBuildStep::Complex { cmd, serial, bash } => {
                        if str_eq(cmd.as_str(), "default") {
                            RecipeBuildStep::Complex {
                                cmd: default_cmd_exec(k),
                                serial: *serial,
                                bash: *bash,
                            }
                        } else {
                            RecipeBuildStep::Complex {
                                cmd: cmd.clone(),
                                serial: *serial,
                                bash: *bash,
                            }
                        }
                    },
                };
                proof {
                    assert(replaced.deep_view() == subst_default(lv[i as int], default_cmd(k)));
                }
                let ghost od = out.deep_view();
                out.push(BuildAction::Step(replaced));
                proof {
                    assert(out.deep_view() =~= od.push(f(lv[i as int])));
                    assert(lv.take(i + 1).drop_last() =~= lv.take(i as int));
                    assert(lv.take(i + 1).last() == lv[i as int]);
                    assert(lv.take(i + 1).map_values(f) =~= lv.take(i as int).map_values(f).push(
                        f(lv[i as int]),
                    ));
                    assert(out.deep_view() =~= old(out).deep_view() + lv.take(i + 1).map_values(
                        f,
                    ));
                }
                i = i + 1;
            }
            proof {
                assert(lv.take(lv.len() as int) =~= lv);
            }
        },
    }
}

pub open spec fn is_digit(c: char) -> bool {
    '0' <= c && c <= '9'
}

/// The decimal value of a digit string.
pub open spec fn dec_value(s: Seq<char>) -> int
    decreases s.len(),
{
    if s.len() == 0 {
        0
    } else {
        dec_value(s.drop_last()) * 10 + (s.last() as u32 - 48)
    }
}

pub open spec fn pass_marker() -> Seq<char> {
    seq!['-', 'p', 'a', 's', 's']
}

/// The version splits as `<base>-pass<digits>` at position `k`.
pub open spec fn pass_split_at(v: Seq<char>, k: int) -> bool {
    &&& 0 <= k
    &&& k + 5 < v.len()
    &&& v.subrange(k, k + 5) == pass_marker()
    &&& forall|j: int| k + 5 <= j < v.len() ==> is_digit(#[trigger] v[j])
}

pub open spec fn has_pass_suffix(v: Seq<char>) -> bool {
    exists|k: int| pass_split_at(v, k)
}

pub open spec fn pass_split_idx(v: Seq<char>) -> int {
    choose|k: int| pass_split_at(v, k)
}

/// The split position is unique: past it everything is a digit, and a
/// second marker would have to start with `-` there.
pub proof fn lemma_pass_split_unique(v: Seq<char>, k1: int, k2: int)
    requires
        pass_split_at(v, k1),
        pass_split_at(v, k2),
    ensures
        k1 == k2,
    decreases (if k1 < k2 { 0int } else { 1int }),
{
    if k1 < k2 {
        if k2 >= k1 + 5 {
            assert(is_digit(v[k2]));
            assert(v.subrange(k2, k2 + 5)[0] == v[k2]);
            assert(v[k2] == '-');
        } else {
            assert(v.subrange(k2, k2 + 5)[0] == v[k2]);
            assert(v[k2] == '-');
            assert(v.subrange(k1, k1 + 5)[k2 - k1] == v[k2]);
        }
    } else if k2 < k1 {
        lemma_pass_split_unique(v, k2, k1);
    }
}

/// The field after the last `/` of a slug.
pub open spec fn last_segment(s: Seq<char>) -> Seq<char> {
    split_char(s, '/').last()
}

/// The package working name and revision derived from name, version and
/// the optional `package_dir` override: `<last name segment>-<version
/// base>` and `pass - 1`, or revision `0` without a pass suffix.
pub open spec fn pkg_and_revision(
    name: Seq<char>,
    version: Seq<char>,
    package_dir: Option<Seq<char>>,
) -> (Seq<char>, int) {
    let base = if has_pass_suffix(version) {
        last_segment(name) + seq!['-'] + version.take(pass_split_idx(version))
    } else {
        last_segment(name) + seq!['-'] + version
    };
    let rev = if has_pass_suffix(version) {
        dec_value(version.skip(pass_split_idx(version) + 5)) - 1
    } else {
        0
    };
    let pkg = match package_dir {
        Some(p) => p,
        None => base,
    };
    (pkg, rev)
}

/// The per-package directory under `/steps`.
pub open spec fn steps_dir(pkg: Seq<char>) -> Seq<char> {
    join_path_str("/steps/"@, pkg)
}

/// The actions a piecewise build runs, in order: working-name and
/// directory bindings, `mkdir build`, the six phases (each defaulting
/// to its helper), the staging directory, and the terminal packaging
/// and checksum steps.
pub open spec fn expand_piecewise_spec(
    name: Seq<char>,
    version: Seq<char>,
    unpack: Option<Seq<RecipeBuildStepV>>,
    unpack_dirname: Seq<char>,
    patch_dir: Seq<char>,
    package_dir: Option<Seq<char>>,
    prepare: Option<Seq<RecipeBuildStepV>>,
    configure: Option<Seq<RecipeBuildStepV>>,
    compile: Option<Seq<RecipeBuildStepV>>,
    install: Option<Seq<RecipeBuildStepV>>,
    postprocess: Option<Seq<RecipeBuildStepV>>,
) -> Seq<BuildActionV> {
    let pr = pkg_and_revision(name, version, package_dir);
    let pkg = pr.0;
    let rev = pr.1;
    let base = steps_dir(pkg);
    let build_dir = join_path_str(base, "build"@);
    let head = seq![
        BuildActionV::SetEnv { key: "pkg"@, value: pkg },
        BuildActionV::SetDir(base),
        BuildActionV::SetEnv { key: "base_dir"@, value: base },
        BuildActionV::SetEnv { key: "patch_dir"@, value: join_path_str(base, patch_dir) },
        BuildActionV::SetEnv { key: "mk_dir"@, value: join_path_str(base, "mk"@) },
        BuildActionV::SetEnv { key: "files_dir"@, value: join_path_str(base, "files"@) },
        BuildActionV::SetEnv {
            key: "revision"@,
            value: crate::recipe_text::enc_nat(rev as nat),
        },
        BuildActionV::Step(RecipeBuildStepV::Simple("mkdir build"@)),
        BuildActionV::SetDir(build_dir),
    ];
    let unpack_extra: Seq<BuildActionV> = match unpack {
        None => seq![
            BuildActionV::SetEnv { key: "dirname"@, value: unpack_dirname },
            BuildActionV::SetDir(join_path_str(build_dir, unpack_dirname)),
        ],
        Some(_) => Seq::empty(),
    };
    let tail = seq![BuildActionV::EnsureDestDir] + expand_phase(install, PhaseKind::Install)
        + expand_phase(postprocess, PhaseKind::Postprocess) + seq![
        BuildActionV::SetDirFromEnv { key: "DESTDIR"@ },
        BuildActionV::Step(
            RecipeBuildStepV::Simple("bash -exc '. /steps/helpers.sh; src_pkg'"@),
        ),
        BuildActionV::SetDir("/external/repo"@),
        BuildActionV::Step(
            RecipeBuildStepV::Simple(
                "bash -exc '. /steps/helpers.sh; src_checksum ${pkg} ${revision}'"@,
            ),
        ),
    ];
    head + expand_phase(unpack, PhaseKind::Unpack) + unpack_extra + expand_phase(
        prepare,
        PhaseKind::Prepare,
    ) + expand_phase(configure, PhaseKind::Configure) + expand_phase(compile, PhaseKind::Compile)
        + tail
}

/// The actions of any build: a flat list runs as it stands.
pub open spec fn expand_build_spec(v: crate::recipe::NamedRecipeVersionV) -> Seq<BuildActionV> {
    match v.build {
        RecipeBuildStepsV::Single { single } => single.map_values(
            |s: RecipeBuildStepV| BuildActionV::Step(s),
        ),
        RecipeBuildStepsV::Piecewise {
            unpack,
            unpack_dirname,
            patch_dir,
            package_dir,
            prepare,
            configure,
            compile,
            install,
            postprocess,
        } => expand_piecewise_spec(
            v.name,
            v.version,
            unpack,
            unpack_dirname,
            patch_dir,
            package_dir,
            prepare,
            configure,
            compile,
            install,
            postprocess,
        ),
    }
}

/// A piecewise build demands a usable pass number: at least one, and
/// within 32 bits.
pub open spec fn expand_ok(v: crate::recipe::NamedRecipeVersionV) -> bool {
    match v.build {
        RecipeBuildStepsV::Single { .. } => true,
        RecipeBuildStepsV::Piecewise { .. } => has_pass_suffix(v.version) ==> {
            let d = dec_value(v.version.skip(pass_split_idx(v.version) + 5));
            1 <= d <= u32::MAX
        },
    }
}

/// Find the pass-suffix split of a version, if it has one.
fn find_pass_split(vc: &Vec<char>) -> (r: Option<usize>)
    ensures
        match r {
            Some(k) => pass_split_at(vc@, k as int),
            None => !has_pass_suffix(vc@),
        },
{
    let n = vc.len();
    if n < 6 {
        proof {
            assert forall|k: int| !pass_split_at(vc@, k) by {}
        }
        return None;
    }
    let mut k: usize = 0;
    while k < n - 5
        invariant
            n == vc@.len(),
            6 <= n <= usize::MAX,
            k <= n - 5,
            forall|j: int| 0 <= j < k ==> !pass_split_at(vc@, j),
        decreases n - k,
    {
        let marker = vc[k] == '-' && vc[k + 1] == 'p' && vc[k + 2] == 'a' && vc[k + 3] == 's'
            && vc[k + 4] == 's';
        if marker {
            let mut all_digits = true;
            let mut j: usize = k + 5;
            while j < n
                invariant
                    n == vc@.len(),
                    k + 5 <= j <= n,
                    all_digits == (forall|m: int| k + 5 <= m < j ==> is_digit(#[trigger] vc@[m])),
                decreases n - j,
            {
                if !('0' <= vc[j] && vc[j] <= '9') {
                    all_digits = false;
                }
                j = j + 1;
            }
            if all_digits {
                proof {
                    assert(vc@.subrange(k as int, k + 5) =~= pass_marker());
                }
                return Some(k);
            }
            proof {
                assert(!pass_split_at(vc@, k as int));
            }
        } else {
            proof {
                if pass_split_at(vc@, k as int) {
                    assert(vc@.subrange(k as int, k + 5)[0] == vc@[k as int]);
                    assert(vc@.subrange(k as int, k + 5)[1] == vc@[k + 1]);
                    assert(vc@.subrange(k as int, k + 5)[2] == vc@[k + 2]);
                    assert(vc@.subrange(k as int, k + 5)[3] == vc@[k + 3]);
                    assert(vc@.subrange(k as int, k + 5)[4] == vc@[k + 4]);
                }
            }
        }
        k = k + 1;
    }
    proof {
        assert forall|j: int| !pass_split_at(vc@, j) by {
            if 0 <= j < n - 5 {
            } else {
            }
        }
    }
    None
}

/// A digit string's value never shrinks as digits are appended.
pub proof fn lemma_dec_prefix(s: Seq<char>, j: int)
    requires
        0 <= j <= s.len(),
        forall|m: int| 0 <= m < s.len() ==> is_digit(#[trigger] s[m]),
    ensures
        0 <= dec_value(s.take(j)) <= dec_value(s),
    decreases s.len() - j,
{
    if j == s.len() {
        assert(s.take(j) =~= s);
        lemma_dec_nonneg(s);
    } else {
        lemma_dec_prefix(s, j + 1);
        assert(s.take(j + 1).drop_last() =~= s.take(j));
        assert(s.take(j + 1).last() == s[j]);
        lemma_dec_nonneg(s.take(j));
        assert(is_digit(s[j]));
        assert(dec_value(s.take(j + 1)) == dec_value(s.take(j)) * 10 + (s[j] as u32 - 48));
        assert(dec_value(s.take(j)) * 10 >= dec_value(s.take(j))) by (nonlinear_arith)
            requires
                dec_value(s.take(j)) >= 0,
        ;
    }
}

pub proof fn lemma_dec_nonneg(s: Seq<char>)
    requires
        forall|m: int| 0 <= m < s.len() ==> is_digit(#[trigger] s[m]),
    ensures
        dec_value(s) >= 0,
    decreases s.len(),
{
    if s.len() > 0 {
        assert(forall|m: int|
            0 <= m < s.drop_last().len() ==> is_digit(#[trigger] s.drop_last()[m]));
        lemma_dec_nonneg(s.drop_last());
        assert(is_digit(s.last()));
        assert(dec_value(s.drop_last()) * 10 >= 0) by (nonlinear_arith)
            requires
                dec_value(s.drop_last()) >= 0,
        ;
    }
}

/// Parse the digits after the split as a 32-bit pass number.
fn parse_pass(vc: &Vec<char>, from: usize) -> (r: Option<u32>)
    requires
        from < vc@.len(),
        forall|m: int| from <= m < vc@.len() ==> is_digit(#[trigger] vc@[m]),
    ensures
        match r {
            Some(p) => p as int == dec_value(vc@.skip(from as int)),
            None => dec_value(vc@.skip(from as int)) > u32::MAX,
        },
{
    let ghost t = vc@.skip(from as int);
    proof {
        assert(forall|m: int| 0 <= m < t.len() ==> is_digit(#[trigger] t[m]));
    }
    let n = vc.len();
    let mut acc: u64 = 0;
    let mut j: usize = from;
    while j < n
        invariant
            n == vc@.len(),
            t == vc@.skip(from as int),
            forall|m: int| 0 <= m < t.len() ==> is_digit(#[trigger] t[m]),
            from <= j <= n,
            acc <= u32::MAX,
            acc as int == dec_value(t.take(j - from)),
        decreases n - j,
    {
        proof {
            assert(t.take(j - from + 1).drop_last() =~= t.take(j - from));
            assert(t.take(j - from + 1).last() == t[j - from]);
            assert(t[j - from] == vc@[j as int]);
            assert(is_digit(t[j - from]));
        }
        let c = vc[j];
        let d: u64 = (c as u32 - 48) as u64;
        acc = acc * 10 + d;
        if acc > 0xFFFFFFFFu64 {
            proof {
                lemma_dec_prefix(t, j - from + 1);
            }
            return None;
        }
        j = j + 1;
    }
    proof {
        assert(t.take(n - from) =~= t);
    }
    Some(acc as u32)
}

/// The actions of a build, or the error a bad pass suffix forces.
#[verifier::rlimit(100)]
#[verifier::spinoff_prover]
pub fn expand_build(recipe: &NamedRecipeVersion) -> (r: Result<Vec<BuildAction>, ExpandError>)
    ensures
        match r {
            Ok(v) => expand_ok(recipe.deep_view()) && v.deep_view() == expand_build_spec(
                recipe.deep_view(),
            ),
            Err(e) => e == ExpandError::BadPassNumber && !expand_ok(recipe.deep_view()),
        },
{
    match &recipe.build {
        RecipeBuildSteps::Single { single } => {
            let ghost lv = single.deep_view();
            let ghost f = |s: RecipeBuildStepV| BuildActionV::Step(s);
            let mut out: Vec<BuildAction> = Vec::new();
            proof {
                assert(out.deep_view() =~= lv.take(0).map_values(f));
            }
            let mut i: usize = 0;
            while i < single.len()
                invariant
                    lv == single.deep_view(),
                    lv.len() == single@.len(),
                    i <= single@.len(),
                    f == (|s: RecipeBuildStepV| BuildActionV::Step(s)),
                    out.deep_view() == lv.take(i as int).map_values(f),
                decreases single@.len() - i,
            {
                proof {
                    assert(lv[i as int] == single@[i as int].deep_view());
                }
                let step: RecipeBuildStep = match &single[i] {
                    RecipeBuildStep::Simple(s) => RecipeBuildStep::Simple(s.clone()),
                    RecipeBuildStep::Complex { cmd, serial, bash } => RecipeBuildStep::Complex {
                        cmd: cmd.clone(),
                        serial: *serial,
                        bash: *bash,
                    },
                };
                proof {
                    assert(step.deep_view() == lv[i as int]);
                }
                let ghost od = out.deep_view();
                out.push(BuildAction::Step(step));
                proof {
                    assert(out.deep_view() =~= od.push(f(lv[i as int])));
                    assert(lv.take(i + 1).drop_last() =~= lv.take(i as int));
                    assert(lv.take(i + 1).last() == lv[i as int]);
                    assert(lv.take(i + 1).map_values(f) =~= lv.take(i as int).map_values(f).push(
                        f(lv[i as int]),
                    ));
                }
                i = i + 1;
            }
            proof {
                assert(lv.take(lv.len() as int) =~= lv);
                assert(out.deep_view() =~= expand_build_spec(recipe.deep_view()));
            }
            Ok(out)
        },
        RecipeBuildSteps::Piecewise {
            unpack,
            unpack_dirname,
            patch_dir,
            package_dir,
            prepare,
            configure,
            compile,
            install,
            postprocess,
        } => {
            let vc = chars_of(recipe.version.as_str());
            let vn = vc.len();
            // Derive the working name and revision from the pass suffix.
            let (base_version, rev): (Vec<char>, u32) = match find_pass_split(&vc) {
                Some(k) => {
                    proof {
                        assert(k + 5 < vn);
                    }
                    match parse_pass(&vc, k + 5) {
                        Some(p) => {
                            if p == 0 {
                                proof {
                                    lemma_pass_split_unique(
                                        recipe.version@,
                                        k as int,
                                        pass_split_idx(recipe.version@),
                                    );
                                }
                                return Err(ExpandError::BadPassNumber);
                            }
                            proof {
                                lemma_pass_split_unique(
                                    recipe.version@,
                                    k as int,
                                    pass_split_idx(recipe.version@),
                                );
                            }
                            (copy_range(&vc, 0, k), p - 1)
                        },
                        None => {
                            proof {
                                lemma_pass_split_unique(
                                    recipe.version@,
                                    k as int,
                                    pass_split_idx(recipe.version@),
                                );
                            }
                            return Err(ExpandError::BadPassNumber);
                        },
                    }
                },
                None => (copy_range(&vc, 0, vc.len()), 0),
            };
            proof {
                assert(vc@.subrange(0, vc@.len() as int) =~= vc@);
            }
            // pkg = <last segment of the name>-<base version>, unless
            // package_dir overrides it.
            let nc = chars_of(recipe.name.as_str());
            let segs = split_char_exec(&nc, '/');
            let ghost segsv = segs@.map_values(|c: Vec<char>| c@);
            let mut pkg_chars = {
                let lastseg = &segs[segs.len() - 1];
                proof {
                    assert(segsv[segsv.len() - 1] == last_segment(recipe.name@));
                }
                let mut p = copy_range(lastseg, 0, lastseg.len());
                proof {
                    assert(p@ =~= last_segment(recipe.name@));
                }
                p.push('-');
                append_chars(&mut p, &base_version);
                proof {
                    assert(p@ =~= last_segment(recipe.name@) + seq!['-'] + base_version@);
                }
                p
            };
            let pkg: String = match package_dir {
                Some(pd) => pd.clone(),
                None => string_of(&pkg_chars),
            };
            proof {
                let pr = pkg_and_revision(
                    recipe.name@,
                    recipe.version@,
                    package_dir.deep_view(),
                );
                assert(pkg@ == pr.0);
                assert(rev as int == pr.1);
            }
            let base = join_dir("/steps/", pkg.as_str());
            let build_dir = join_dir(base.as_str(), "build");
            let mut out: Vec<BuildAction> = Vec::new();
            out.push(BuildAction::SetEnv { key: "pkg".to_owned(), value: pkg.clone() });
            out.push(BuildAction::SetDir(base.clone()));
            out.push(BuildAction::SetEnv { key: "base_dir".to_owned(), value: base.clone() });
            out.push(
                BuildAction::SetEnv {
                    key: "patch_dir".to_owned(),
                    value: join_dir(base.as_str(), patch_dir.as_str()),
                },
            );
            out.push(
                BuildAction::SetEnv {
                    key: "mk_dir".to_owned(),
                    value: join_dir(base.as_str(), "mk"),
                },
            );
            out.push(
                BuildAction::SetEnv {
                    key: "files_dir".to_owned(),
                    value: join_dir(base.as_str(), "files"),
                },
            );
            out.push(
                BuildAction::SetEnv {
                    key: "revision".to_owned(),
                    value: render_nat(rev),
                },
            );
            out.push(BuildAction::Step(RecipeBuildStep::Simple("mkdir build".to_owned())));
            out.push(BuildAction::SetDir(build_dir.clone()));
            let ghost head = out.deep_view();
            let ghost pkgv = pkg@;
            let ghost basev = base@;
            let ghost bdv = build_dir@;
            proof {
                assert(head =~= seq![
                    BuildActionV::SetEnv { key: "pkg"@, value: pkgv },
                    BuildActionV::SetDir(basev),
                    BuildActionV::SetEnv { key: "base_dir"@, value: basev },
                    BuildActionV::SetEnv {
                        key: "patch_dir"@,
                        value: join_path_str(basev, patch_dir@),
                    },
                    BuildActionV::SetEnv { key: "mk_dir"@, value: join_path_str(basev, "mk"@) },
                    BuildActionV::SetEnv {
                        key: "files_dir"@,
                        value: join_path_str(basev, "files"@),
                    },
                    BuildActionV::SetEnv {
                        key: "revision"@,
                        value: crate::recipe_text::enc_nat(rev as nat),
                    },
                    BuildActionV::Step(RecipeBuildStepV::Simple("mkdir build"@)),
                    BuildActionV::SetDir(bdv),
                ]);
            }
            push_phase(&mut out, unpack, PhaseKind::Unpack);
            let ghost pu = crate::buildplan::expand_phase(unpack.deep_view(), PhaseKind::Unpack);
            match unpack {
                None => {
                    out.push(
                        BuildAction::SetEnv {
                            key: "dirname".to_owned(),
                            value: unpack_dirname.clone(),
                        },
                    );
                    out.push(
                        BuildAction::SetDir(
                            join_dir(build_dir.as_str(), unpack_dirname.as_str()),
                        ),
                    );
                    proof {
                        assert(out.deep_view() =~= head + pu + seq![
                            BuildActionV::SetEnv { key: "dirname"@, value: unpack_dirname@ },
                            BuildActionV::SetDir(join_path_str(bdv, unpack_dirname@)),
                        ]);
                    }
                },
                Some(_) => {
                    proof {
                        assert(out.deep_view() =~= head + pu + Seq::<BuildActionV>::empty());
                    }
                },
            }
            let ghost ue: Seq<BuildActionV> = match unpack.deep_view() {
                None => seq![
                    BuildActionV::SetEnv { key: "dirname"@, value: unpack_dirname@ },
                    BuildActionV::SetDir(join_path_str(bdv, unpack_dirname@)),
                ],
                Some(_) => Seq::empty(),
            };
            proof {
                assert(out.deep_view() == head + pu + ue);
            }
            push_phase(&mut out, prepare, PhaseKind::Prepare);
            let ghost pp = expand_phase(prepare.deep_view(), PhaseKind::Prepare);
            push_phase(&mut out, configure, PhaseKind::Configure);
            let ghost pc = expand_phase(configure.deep_view(), PhaseKind::Configure);
            push_phase(&mut out, compile, PhaseKind::Compile);
            let ghost pm = expand_phase(compile.deep_view(), PhaseKind::Compile);
            proof {
                assert(out.deep_view() == head + pu + ue + pp + pc + pm);
            }
            out.push(BuildAction::EnsureDestDir);
            let ghost g6 = out.deep_view();
            proof {
                assert(g6 =~= (head + pu + ue + pp + pc + pm) + seq![BuildActionV::EnsureDestDir]);
            }
            push_phase(&mut out, install, PhaseKind::Install);
            let ghost pi = expand_phase(install.deep_view(), PhaseKind::Install);
            push_phase(&mut out, postprocess, PhaseKind::Postprocess);
            let ghost po = expand_phase(postprocess.deep_view(), PhaseKind::Postprocess);
            let ghost g8 = out.deep_view();
            out.push(BuildAction::SetDirFromEnv { key: "DESTDIR".to_owned() });
            out.push(
                BuildAction::Step(
                    RecipeBuildStep::Simple(
                        "bash -exc '. /steps/helpers.sh; src_pkg'".to_owned(),
                    ),
                ),
            );
            out.push(BuildAction::SetDir("/external/repo".to_owned()));
            out.push(
                BuildAction::Step(
                    RecipeBuildStep::Simple(
                        "bash -exc '. /steps/helpers.sh; src_checksum ${pkg} ${revision}'"
                            .to_owned(),
                    ),
                ),
            );
            proof {
                let last4 = seq![
                    BuildActionV::SetDirFromEnv { key: "DESTDIR"@ },
                    BuildActionV::Step(
                        RecipeBuildStepV::Simple("bash -exc '. /steps/helpers.sh; src_pkg'"@),
                    ),
                    BuildActionV::SetDir("/external/repo"@),
                    BuildActionV::Step(
                        RecipeBuildStepV::Simple(
                            "bash -exc '. /steps/helpers.sh; src_checksum ${pkg} ${revision}'"@,
                        ),
                    ),
                ];
                assert(out.deep_view() =~= g8 + last4);
                assert(g8 == g6 + pi + po);
                let tail = seq![BuildActionV::EnsureDestDir] + pi + po + last4;
                assert(out.deep_view() =~= (head + pu + ue + pp + pc + pm) + tail);
                assert(out.deep_view() =~= expand_build_spec(recipe.deep_view()));
            }
            Ok(out)
        },
    }
}

/// Decimal text of a 32-bit number.
fn render_nat(n: u32) -> (r: String)
    ensures
        r@ == crate::recipe_text::enc_nat(n as nat),
{
    let mut out: Vec<char> = Vec::new();
    render_nat_rec(&mut out, n);
    proof {
        assert(out@ =~= crate::recipe_text::enc_nat(n as nat));
    }
    string_of(&out)
}

fn render_nat_rec(out: &mut Vec<char>, n: u32)
    ensures
        final(out)@ == old(out)@ + crate::recipe_text::enc_nat(n as nat),
    decreases n,
{
    if n < 10 {
        let c: char = match n {
            0 => '0',
            1 => '1',
            2 => '2',
            3 => '3',
            4 => '4',
            5 => '5',
            6 => '6',
            7 => '7',
            8 => '8',
            _ => '9',
        };
        out.push(c);
        proof {
            assert(old(out)@ + crate::recipe_text::enc_nat(n as nat) =~= old(out)@.push(
                crate::recipe_text::digit_char(n as int),
            ));
        }
    } else {
        render_nat_rec(out, n / 10);
        let c: char = match n % 10 {
            0 => '0',
            1 => '1',
            2 => '2',
            3 => '3',
            4 => '4',
            5 => '5',
            6 => '6',
            7 => '7',
            8 => '8',
            _ => '9',
        };
        out.push(c);
        proof {
            assert(old(out)@ + crate::recipe_text::enc_nat(n as nat) =~= (old(out)@
                + crate::recipe_text::enc_nat((n / 10) as nat)).push(
                crate::recipe_text::digit_char((n % 10) as int),
            ));
        }
    }
}

} // verus!
