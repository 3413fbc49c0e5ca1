use bootstrapper::recipe::{
    NamedRecipeVersion, RecipeBuildStep, RecipeBuildSteps, Source, SourceContents, DepSpec,
};
use bootstrapper::recipe_text::{emit_recipe, emit_source_contents};
use bootstrapper::recipe_parse::{parse_recipe, parse_source_contents};

fn single_recipe() -> NamedRecipeVersion {
    NamedRecipeVersion {
        name: "echo".to_owned(),
        version: "1.0".to_owned(),
        source: Some(vec![(
            "tarball".to_owned(),
            Source {
                extract: Some("src".to_owned()),
                noextract: None,
                copy: Some(vec!["a".to_owned(), "b".to_owned()]),
                chmod: None,
            },
        )]),
        shell: None,
        deps: Some(vec![DepSpec {
            name: "dep".to_owned(),
            version: "2".to_owned(),
            from: Some("f".to_owned()),
            to: None,
        }]),
        mkdirs: Some(vec!["tmp".to_owned()]),
        build: RecipeBuildSteps::Single {
            single: vec![
                RecipeBuildStep::Simple("touch /out".to_owned()),
                RecipeBuildStep::Complex {
                    cmd: "make -j2".to_owned(),
                    serial: false,
                    bash: true,
                },
            ],
        },
        artefacts: vec!["out".to_owned()],
    }
}

fn piecewise_recipe() -> NamedRecipeVersion {
    NamedRecipeVersion {
        name: "core/gcc".to_owned(),
        version: "13.0-pass2".to_owned(),
        source: None,
        shell: None,
        deps: None,
        mkdirs: None,
        build: RecipeBuildSteps::Piecewise {
            unpack: None,
            unpack_dirname: "gcc".to_owned(),
            patch_dir: "patches".to_owned(),
            package_dir: None,
            prepare: Some(vec![RecipeBuildStep::Simple("default".to_owned())]),
            configure: None,
            compile: None,
            install: None,
            postprocess: None,
        },
        artefacts: vec!["gcc.tar.bz2".to_owned()],
    }
}

fn chars(s: &str) -> Vec<char> {
    s.chars().collect()
}

#[test]
fn recipe_text_round_trip_single() {
    let r = single_recipe();
    let text = emit_recipe(&r);
    let cs = chars(&text);
    let (parsed, used) = parse_recipe(&cs, 0).expect("parses");
    assert_eq!(used, cs.len());
    assert_eq!(emit_recipe(&parsed), text);
}

#[test]
fn recipe_text_round_trip_piecewise() {
    let r = piecewise_recipe();
    let text = emit_recipe(&r);
    let cs = chars(&text);
    let (parsed, used) = parse_recipe(&cs, 0).expect("parses");
    assert_eq!(used, cs.len());
    assert_eq!(emit_recipe(&parsed), text);
}

#[test]
fn source_contents_text_exact() {
    let sc = SourceContents { url: "u".to_owned(), sha: "s".to_owned() };
    assert_eq!(emit_source_contents(&sc), "1:u1:s");
}

#[test]
fn source_contents_round_trip() {
    let sc = SourceContents {
        url: "https://host/archive.zip".to_owned(),
        sha: "00ff".to_owned(),
    };
    let text = emit_source_contents(&sc);
    let cs = chars(&text);
    let (parsed, used) = parse_source_contents(&cs, 0).expect("parses");
    assert_eq!(used, cs.len());
    assert_eq!(parsed.url, sc.url);
    assert_eq!(parsed.sha, sc.sha);
}

#[test]
fn recipe_parse_rejects_garbage() {
    let cs = chars("Q3:abc");
    assert!(parse_recipe(&cs, 0).is_none());
}

#[test]
fn dep_spec_parse_fields() {
    let d = DepSpec::parse("name:1.2:from:to").expect("parses");
    assert_eq!(d.name, "name");
    assert_eq!(d.version, "1.2");
    assert_eq!(d.from.as_deref(), Some("from"));
    assert_eq!(d.to.as_deref(), Some("to"));
    assert!(DepSpec::parse("loner").is_none());
}

#[test]
fn load_by_name_splits_at_first_colon() {
    let rv = bootstrapper::recipe::RecipeVersion {
        licenses: None,
        source: None,
        shell: None,
        deps: Some(vec!["b:1".to_owned()]),
        mkdirs: None,
        build: RecipeBuildSteps::Single { single: vec![] },
        artefacts: vec![],
    };
    let n = NamedRecipeVersion::load_by_name("a:1", rv).expect("resolves");
    assert_eq!(n.name, "a");
    assert_eq!(n.version, "1");
    let deps = n.deps.expect("deps kept");
    assert_eq!(deps[0].name, "b");
    assert_eq!(deps[0].version, "1");
}
