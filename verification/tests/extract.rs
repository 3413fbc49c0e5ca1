use bootstrapper::extract::{
    source_extract_filter, ArchiveEntry, ArchiveIndex, EntryKind, ExtractAction, ExtractError,
};

fn entry(path: &str, kind: EntryKind, mode: Option<u32>) -> ArchiveEntry {
    ArchiveEntry { path: path.to_owned(), kind, mode }
}

#[test]
fn malicious_zip_entry_is_rejected() {
    // A zip with entry `../../etc/passwd` aborts with a path-safety
    // failure before anything lands outside the build root.
    let index = ArchiveIndex {
        entries: vec![entry("../../etc/passwd", EntryKind::File, None)],
    };
    assert_eq!(
        index.filter_extract("", "", &None, true).unwrap_err(),
        ExtractError::PathEscapes
    );
}

#[test]
fn empty_archive_is_an_error() {
    let index = ArchiveIndex { entries: vec![] };
    assert_eq!(
        index.filter_extract("", "", &None, true).unwrap_err(),
        ExtractError::EmptyArchive
    );
}

#[test]
fn clean_root_strips_the_common_prefix() {
    let index = ArchiveIndex {
        entries: vec![
            entry("pkg-1.0/", EntryKind::Dir, None),
            entry("pkg-1.0/src/main.c", EntryKind::File, Some(0o644)),
        ],
    };
    let plan = index.filter_extract("", "", &None, true).unwrap();
    match &plan[0] {
        ExtractAction::MakeDir { target } => assert_eq!(target, ""),
        other => panic!("unexpected action {:?}", action_name(other)),
    }
    match &plan[1] {
        ExtractAction::WriteFile { entry: e, target } => {
            assert_eq!(*e, 1);
            assert_eq!(target, "src/main.c");
        },
        other => panic!("unexpected action {:?}", action_name(other)),
    }
    // Modes come after every write, so directories stay writable.
    match &plan[2] {
        ExtractAction::SetMode { target, mode } => {
            assert_eq!(target, "src/main.c");
            assert_eq!(*mode, 0o644);
        },
        other => panic!("unexpected action {:?}", action_name(other)),
    }
}

fn action_name(a: &ExtractAction) -> &'static str {
    match a {
        ExtractAction::MakeDir { .. } => "MakeDir",
        ExtractAction::WriteFile { .. } => "WriteFile",
        ExtractAction::MakeSymlink { .. } => "MakeSymlink",
        ExtractAction::SetMode { .. } => "SetMode",
    }
}

#[test]
fn absolute_symlink_is_fatal() {
    let index = ArchiveIndex {
        entries: vec![entry(
            "pkg/link",
            EntryKind::Symlink { target: "/etc/passwd".to_owned() },
            None,
        )],
    };
    assert_eq!(
        index.filter_extract("", "", &None, false).unwrap_err(),
        ExtractError::AbsoluteSymlink
    );
}

#[test]
fn relative_symlink_is_kept() {
    let index = ArchiveIndex {
        entries: vec![entry(
            "pkg/link",
            EntryKind::Symlink { target: "../other".to_owned() },
            None,
        )],
    };
    let plan = index.filter_extract("", "", &None, false).unwrap();
    match &plan[0] {
        ExtractAction::MakeSymlink { target, link, .. } => {
            assert_eq!(target, "pkg/link");
            assert_eq!(link, "../other");
        },
        other => panic!("unexpected action {:?}", action_name(other)),
    }
}

#[test]
fn filter_rewrites_from_to() {
    let r = source_extract_filter("lib/a.so", &None, "lib", "usr/lib", &None, false).unwrap();
    assert_eq!(r.unwrap(), "usr/lib/a.so");
}

#[test]
fn filter_keeps_only_listed_paths() {
    let keep = Some(vec!["src".to_owned()]);
    let kept = source_extract_filter("src/x.c", &None, "", "", &keep, false).unwrap();
    assert_eq!(kept.unwrap(), "src/x.c");
    let dropped = source_extract_filter("doc/x.txt", &None, "", "", &keep, false).unwrap();
    assert!(dropped.is_none());
}

#[test]
fn filter_rejects_escaping_entry() {
    assert_eq!(
        source_extract_filter("a/../../b", &None, "", "", &None, false).unwrap_err(),
        ExtractError::PathEscapes
    );
}

#[test]
fn filter_demands_the_from_prefix() {
    assert_eq!(
        source_extract_filter("other/x", &None, "lib", "", &None, false).unwrap_err(),
        ExtractError::FromMismatch
    );
}

#[test]
fn escaping_keep_list_entry_is_an_error() {
    let keep = Some(vec!["../x".to_owned()]);
    assert_eq!(
        source_extract_filter("a", &None, "", "", &keep, false).unwrap_err(),
        ExtractError::BadInclude
    );
}

#[test]
fn escaping_rewrites_are_errors() {
    assert_eq!(
        source_extract_filter("a", &None, "..", "", &None, false).unwrap_err(),
        ExtractError::BadFrom
    );
    assert_eq!(
        source_extract_filter("a", &None, "", "..", &None, false).unwrap_err(),
        ExtractError::BadTo
    );
}

#[test]
fn missing_common_prefix_is_an_error() {
    let prefix = Some("pre".to_owned());
    assert_eq!(
        source_extract_filter("other/x", &prefix, "", "", &None, true).unwrap_err(),
        ExtractError::PrefixMismatch
    );
}
