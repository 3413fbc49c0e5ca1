use bootstrapper::cache::{
    content_hash, get_recipe_hash, get_depd_hash, get_equiv_hash, store_dep, source_data_matches,
    EquivStore, CacheError,
};
use bootstrapper::envmap::EnvMap;
use bootstrapper::recipe::{DepSpec, NamedRecipeVersion, RecipeBuildStep, RecipeBuildSteps};

fn trivial(name: &str, version: &str, deps: Vec<(&str, &str)>) -> NamedRecipeVersion {
    NamedRecipeVersion {
        name: name.to_owned(),
        version: version.to_owned(),
        source: None,
        shell: None,
        deps: if deps.is_empty() {
            None
        } else {
            Some(
                deps.into_iter()
                    .map(|(n, v)| DepSpec {
                        name: n.to_owned(),
                        version: v.to_owned(),
                        from: None,
                        to: None,
                    })
                    .collect(),
            )
        },
        mkdirs: None,
        build: RecipeBuildSteps::Single {
            single: vec![RecipeBuildStep::Simple("touch /out".to_owned())],
        },
        artefacts: vec!["out".to_owned()],
    }
}

#[test]
fn content_hash_matches_the_crate_digest() {
    // The library's hex digest must be the digest of the bytes, not of
    // anything derived from them.
    let data = b"hello".to_vec();
    assert_eq!(
        content_hash(&data),
        "2cf24dba5fb0a30e26e83b2ac5b9e29e1b161e5c1fa7425e73043362938b9824"
    );
}

#[test]
fn recipe_hash_is_a_function_of_the_recipe_alone() {
    // Two recipes built independently but equal field for field hash
    // alike; a differing field changes the hash.
    let a = trivial("echo", "1.0", vec![]);
    let b = trivial("echo", "1.0", vec![]);
    assert_eq!(get_recipe_hash(&a), get_recipe_hash(&b));
    let c = trivial("echo", "1.1", vec![]);
    assert_ne!(get_recipe_hash(&a), get_recipe_hash(&c));
}

#[test]
fn depd_hash_needs_every_dep_equivalence() {
    let r = trivial("a", "1", vec![("b", "1")]);
    let known = EnvMap::new();
    assert!(get_depd_hash(&r, &known).is_none());
    let mut known = EnvMap::new();
    known.insert("b:1".to_owned(), "f".repeat(64));
    let h = get_depd_hash(&r, &known).expect("defined once b:1 is known");
    assert_eq!(h.len(), 64);
}

#[test]
fn store_round_trips_equivalence_hashes() {
    // After a successful build the stored equivalence hash is the
    // SHA-256 of the tar bytes, and the store returns it for the same
    // dep-closure hash.
    let dir = tempfile::tempdir().unwrap();
    let path = dir.path().join("equiv.sled");
    let store = EquivStore::open(path.to_str().unwrap()).unwrap();
    let r = trivial("echo", "1.0", vec![]);
    let known = EnvMap::new();
    let tar = vec![1u8, 2, 3, 4];
    let equiv = store_dep(&r, &known, &store, &tar).unwrap();
    assert_eq!(equiv, content_hash(&tar));
    let found = get_equiv_hash(&r, &known, &store).expect("cache hit on second run");
    assert_eq!(found, equiv);
}

#[test]
fn missing_dep_equivalence_blocks_storing() {
    let dir = tempfile::tempdir().unwrap();
    let path = dir.path().join("equiv.sled");
    let store = EquivStore::open(path.to_str().unwrap()).unwrap();
    let r = trivial("a", "1", vec![("b", "1")]);
    let known = EnvMap::new();
    assert_eq!(
        store_dep(&r, &known, &store, &vec![0u8]).unwrap_err(),
        CacheError::MissingDepEquiv
    );
}

#[test]
fn second_run_serves_everything_from_cache() {
    // First run: build and record both nodes of a two-node chain.
    // Second run, with fresh in-memory state: every node resolves to a
    // stored equivalence hash before any build would be dispatched.
    let dir = tempfile::tempdir().unwrap();
    let path = dir.path().join("equiv.sled");
    let store = EquivStore::open(path.to_str().unwrap()).unwrap();
    let b = trivial("b", "1", vec![]);
    let a = trivial("a", "1", vec![("b", "1")]);

    let mut known = EnvMap::new();
    let tar_b = vec![1u8];
    let equiv_b = store_dep(&b, &known, &store, &tar_b).unwrap();
    known.insert("b:1".to_owned(), equiv_b.clone());
    let tar_a = vec![2u8];
    let equiv_a = store_dep(&a, &known, &store, &tar_a).unwrap();

    let mut known2 = EnvMap::new();
    let hit_b = get_equiv_hash(&b, &known2, &store).expect("b cached");
    assert_eq!(hit_b, equiv_b);
    known2.insert("b:1".to_owned(), hit_b);
    let hit_a = get_equiv_hash(&a, &known2, &store).expect("a cached");
    assert_eq!(hit_a, equiv_a);
}

#[test]
fn fetched_source_digests_are_checked() {
    let data = b"hello".to_vec();
    assert!(source_data_matches(
        &data,
        "2cf24dba5fb0a30e26e83b2ac5b9e29e1b161e5c1fa7425e73043362938b9824"
    ));
    assert!(!source_data_matches(&data, &"0".repeat(64)));
}

#[test]
fn unusable_store_path_is_reported() {
    // A plain file where the store directory should go cannot be
    // opened as a store.
    let file = tempfile::NamedTempFile::new().unwrap();
    match EquivStore::open(file.path().to_str().unwrap()) {
        Err(e) => assert_eq!(e, CacheError::StoreUnavailable),
        Ok(_) => panic!("opened a plain file as a store"),
    }
}
