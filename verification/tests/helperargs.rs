use bootstrapper::envmap::EnvMap;
use bootstrapper::helperargs::{encode_helper_args, decode_helper_args};

#[test]
fn helper_args_round_trip() {
    let mut env = EnvMap::new();
    env.insert("DESTDIR".to_owned(), "/dest".to_owned());
    let argv = vec!["make".to_owned(), "install".to_owned()];
    let args = encode_helper_args("/tmp/root", "/steps/pkg/build", &argv, &env);
    assert_eq!(args.len(), 4);
    let (root, cwd, argv2, env2) = decode_helper_args(&args).expect("decodes");
    assert_eq!(root, "/tmp/root");
    assert_eq!(cwd, "/steps/pkg/build");
    assert_eq!(argv2, argv);
    assert_eq!(env2.get("DESTDIR").unwrap(), "/dest");
}

#[test]
fn helper_args_are_base64_blobs() {
    let env = EnvMap::new();
    let args = encode_helper_args("r", "w", &vec![], &env);
    for a in &args {
        assert!(a.chars().all(|c| c.is_ascii_alphanumeric() || c == '-' || c == '_' || c == '='));
    }
}

#[test]
fn garbage_helper_args_are_refused() {
    let bad = vec![
        "!!!".to_owned(),
        "!!!".to_owned(),
        "!!!".to_owned(),
        "!!!".to_owned(),
    ];
    assert!(decode_helper_args(&bad).is_none());
}
