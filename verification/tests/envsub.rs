use bootstrapper::envmap::EnvMap;
use bootstrapper::envsub::{env_substitute, SubstError};

fn env_ab() -> EnvMap {
    let mut env = EnvMap::new();
    env.insert("A".to_owned(), "b$B".to_owned());
    env.insert("B".to_owned(), "c".to_owned());
    env
}

#[test]
fn substitution_reaches_fixpoint() {
    let env = env_ab();
    assert_eq!(env_substitute("x$A y", &env).unwrap(), "xbc y");
}

#[test]
fn backslash_leaves_reference_literal() {
    let env = env_ab();
    assert_eq!(env_substitute("\\$A", &env).unwrap(), "\\$A");
}

#[test]
fn unknown_name_fails() {
    let env = env_ab();
    assert_eq!(
        env_substitute("$NOPE", &env).unwrap_err(),
        SubstError::UnresolvedVariable
    );
}

#[test]
fn braced_reference_expands() {
    let env = env_ab();
    assert_eq!(env_substitute("${B}d", &env).unwrap(), "cd");
}

#[test]
fn malformed_brace_passes_through() {
    let env = env_ab();
    assert_eq!(env_substitute("${1x}", &env).unwrap(), "${1x}");
}

#[test]
fn plain_text_unchanged() {
    let env = EnvMap::new();
    assert_eq!(env_substitute("nothing here", &env).unwrap(), "nothing here");
}

#[test]
fn mutually_referring_values_never_settle() {
    let mut env = EnvMap::new();
    env.insert("A".to_owned(), "$B".to_owned());
    env.insert("B".to_owned(), "$A".to_owned());
    assert_eq!(env_substitute("$A", &env).unwrap_err(), SubstError::NoFixpoint);
}
