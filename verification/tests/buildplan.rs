use bootstrapper::buildplan::{do_step, expand_build, BuildAction, StepAction, StepError};
use bootstrapper::envmap::EnvMap;
use bootstrapper::envsub::SubstError;
use bootstrapper::recipe::{NamedRecipeVersion, RecipeBuildStep, RecipeBuildSteps};

fn single(name: &str, version: &str, steps: Vec<&str>, artefacts: Vec<&str>) -> NamedRecipeVersion {
    NamedRecipeVersion {
        name: name.to_owned(),
        version: version.to_owned(),
        source: None,
        shell: None,
        deps: None,
        mkdirs: None,
        build: RecipeBuildSteps::Single {
            single: steps.into_iter().map(|s| RecipeBuildStep::Simple(s.to_owned())).collect(),
        },
        artefacts: artefacts.into_iter().map(|s| s.to_owned()).collect(),
    }
}

#[test]
fn trivial_recipe_runs_its_one_step() {
    // `echo:1.0` with a single `touch /out` step and artefact `out`.
    let r = single("echo", "1.0", vec!["touch /out"], vec!["out"]);
    let plan = expand_build(&r).unwrap();
    assert_eq!(plan.len(), 1);
    let mut env = EnvMap::new();
    match &plan[0] {
        BuildAction::Step(step) => match do_step(step, &mut env, "/").unwrap() {
            StepAction::Run { argv, serial } => {
                assert_eq!(argv, vec!["touch".to_owned(), "/out".to_owned()]);
                assert!(serial);
            },
            _ => panic!("expected a command"),
        },
        _ => panic!("expected a step"),
    }
}

#[test]
fn assignment_updates_environment_then_expands() {
    // `FOO=bar` runs no process; the next step sees the binding.
    let mut env = EnvMap::new();
    let assign = RecipeBuildStep::Simple("FOO=bar".to_owned());
    assert!(matches!(do_step(&assign, &mut env, "/").unwrap(), StepAction::DidAssign));
    assert_eq!(env.get("FOO").unwrap(), "bar");
    let echo = RecipeBuildStep::Simple("echo $FOO".to_owned());
    match do_step(&echo, &mut env, "/").unwrap() {
        StepAction::Run { argv, .. } => {
            assert_eq!(argv, vec!["echo".to_owned(), "bar".to_owned()]);
        },
        _ => panic!("expected a command"),
    }
}

#[test]
fn cd_moves_the_working_directory() {
    let mut env = EnvMap::new();
    let step = RecipeBuildStep::Simple("cd build".to_owned());
    match do_step(&step, &mut env, "/steps/pkg").unwrap() {
        StepAction::ChangeDir(nd) => assert_eq!(nd, "steps/pkg/build"),
        _ => panic!("expected a directory change"),
    }
}

#[test]
fn cd_cannot_escape_the_root() {
    let mut env = EnvMap::new();
    let step = RecipeBuildStep::Simple("cd ../../..".to_owned());
    assert_eq!(do_step(&step, &mut env, "x").unwrap_err(), StepError::CdEscapes);
}

#[test]
fn bash_steps_skip_escaping() {
    let mut env = EnvMap::new();
    let step = RecipeBuildStep::Complex {
        cmd: "echo $UNSET > f".to_owned(),
        serial: false,
        bash: true,
    };
    match do_step(&step, &mut env, "/").unwrap() {
        StepAction::Run { argv, serial } => {
            assert_eq!(
                argv,
                vec!["bash".to_owned(), "-c".to_owned(), "echo $UNSET > f".to_owned()]
            );
            assert!(!serial);
        },
        _ => panic!("expected a command"),
    }
}

#[test]
fn unresolved_reference_is_an_error() {
    let mut env = EnvMap::new();
    let step = RecipeBuildStep::Simple("echo $MISSING".to_owned());
    assert_eq!(
        do_step(&step, &mut env, "/").unwrap_err(),
        StepError::Subst(SubstError::UnresolvedVariable)
    );
}

fn find_env<'a>(plan: &'a [BuildAction], key: &str) -> &'a str {
    for a in plan {
        if let BuildAction::SetEnv { key: k, value } = a {
            if k == key {
                return value;
            }
        }
    }
    panic!("no binding for {}", key);
}

#[test]
fn pass_suffix_yields_working_name_and_revision() {
    // `gcc:13.0-pass2`: `$pkg` is `gcc-13.0` and `$revision` is `1`.
    let r = NamedRecipeVersion {
        name: "core/gcc".to_owned(),
        version: "13.0-pass2".to_owned(),
        source: None,
        shell: None,
        deps: None,
        mkdirs: None,
        build: RecipeBuildSteps::Piecewise {
            unpack: None,
            unpack_dirname: "gcc".to_owned(),
            patch_dir: "patches".to_owned(),
            package_dir: None,
            prepare: None,
            configure: None,
            compile: None,
            install: None,
            postprocess: None,
        },
        artefacts: vec!["gcc.tar.bz2".to_owned()],
    };
    let plan = expand_build(&r).unwrap();
    assert_eq!(find_env(&plan, "pkg"), "gcc-13.0");
    assert_eq!(find_env(&plan, "revision"), "1");
    assert_eq!(find_env(&plan, "base_dir"), "/steps/gcc-13.0");
    assert_eq!(find_env(&plan, "patch_dir"), "/steps/gcc-13.0/patches");
    // Every omitted phase resolves to its helper invocation.
    for phase in ["unpack", "prepare", "configure", "compile", "install", "postprocess"] {
        let wanted = format!("bash -exc '. /steps/helpers.sh; default_src_{}'", phase);
        assert!(
            plan.iter().any(|a| matches!(
                a,
                BuildAction::Step(RecipeBuildStep::Simple(s)) if *s == wanted
            )),
            "missing default for {}",
            phase
        );
    }
}

#[test]
fn default_token_substitutes_per_step() {
    let r = NamedRecipeVersion {
        name: "pkgx".to_owned(),
        version: "1".to_owned(),
        source: None,
        shell: None,
        deps: None,
        mkdirs: None,
        build: RecipeBuildSteps::Piecewise {
            unpack: Some(vec![
                RecipeBuildStep::Simple("default".to_owned()),
                RecipeBuildStep::Simple("ls".to_owned()),
            ]),
            unpack_dirname: "d".to_owned(),
            patch_dir: "p".to_owned(),
            package_dir: None,
            prepare: None,
            configure: None,
            compile: None,
            install: None,
            postprocess: None,
        },
        artefacts: vec![],
    };
    let plan = expand_build(&r).unwrap();
    let steps: Vec<&str> = plan
        .iter()
        .filter_map(|a| match a {
            BuildAction::Step(RecipeBuildStep::Simple(s)) => Some(s.as_str()),
            _ => None,
        })
        .collect();
    assert!(steps.contains(&"bash -exc '. /steps/helpers.sh; default_src_unpack'"));
    assert!(steps.contains(&"ls"));
}

#[test]
fn version_without_pass_suffix_is_revision_zero() {
    let r = NamedRecipeVersion {
        name: "m4".to_owned(),
        version: "1.4".to_owned(),
        source: None,
        shell: None,
        deps: None,
        mkdirs: None,
        build: RecipeBuildSteps::Piecewise {
            unpack: None,
            unpack_dirname: "m4".to_owned(),
            patch_dir: "p".to_owned(),
            package_dir: None,
            prepare: None,
            configure: None,
            compile: None,
            install: None,
            postprocess: None,
        },
        artefacts: vec![],
    };
    let plan = expand_build(&r).unwrap();
    assert_eq!(find_env(&plan, "pkg"), "m4-1.4");
    assert_eq!(find_env(&plan, "revision"), "0");
}

#[test]
fn unsplittable_line_is_an_error() {
    let mut env = EnvMap::new();
    let step = RecipeBuildStep::Simple("echo 'unclosed".to_owned());
    assert_eq!(do_step(&step, &mut env, "/").unwrap_err(), StepError::SplitFailed);
}

#[test]
fn empty_line_is_an_error() {
    let mut env = EnvMap::new();
    let step = RecipeBuildStep::Simple("".to_owned());
    assert_eq!(do_step(&step, &mut env, "/").unwrap_err(), StepError::EmptyCommand);
}

#[test]
fn cd_without_target_is_an_error() {
    let mut env = EnvMap::new();
    let step = RecipeBuildStep::Simple("cd".to_owned());
    assert_eq!(do_step(&step, &mut env, "/").unwrap_err(), StepError::CdMissingArg);
}

#[test]
fn alias_is_not_implemented() {
    let mut env = EnvMap::new();
    let step = RecipeBuildStep::Simple("alias ll=ls".to_owned());
    assert_eq!(do_step(&step, &mut env, "/").unwrap_err(), StepError::AliasUnimplemented);
}

#[test]
fn zero_pass_number_is_refused() {
    let r = NamedRecipeVersion {
        name: "x".to_owned(),
        version: "1-pass0".to_owned(),
        source: None,
        shell: None,
        deps: None,
        mkdirs: None,
        build: RecipeBuildSteps::Piecewise {
            unpack: None,
            unpack_dirname: "d".to_owned(),
            patch_dir: "p".to_owned(),
            package_dir: None,
            prepare: None,
            configure: None,
            compile: None,
            install: None,
            postprocess: None,
        },
        artefacts: vec![],
    };
    assert_eq!(
        expand_build(&r).unwrap_err(),
        bootstrapper::buildplan::ExpandError::BadPassNumber
    );
}
