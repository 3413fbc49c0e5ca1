use bootstrapper::sched::DepTree;

fn id(n: &str, v: &str) -> (String, String) {
    (n.to_owned(), v.to_owned())
}

#[test]
fn empty_tree_has_no_ready_node() {
    // An empty recipe corpus: the coordinator sees nothing ready and
    // immediately terminates the worker round.
    let tree = DepTree::new();
    assert!(tree.next_ready().is_none());
}

#[test]
fn chain_builds_leaf_first() {
    let mut tree = DepTree::new();
    tree.add_node(id("a", "1"), vec![id("b", "1")]);
    tree.add_node(id("b", "1"), vec![]);
    let first = tree.next_ready().expect("b is ready");
    assert_eq!(first, id("b", "1"));
    tree.finish_dep(&first);
    let second = tree.next_ready().expect("a becomes ready");
    assert_eq!(second, id("a", "1"));
    tree.finish_dep(&second);
    assert!(tree.next_ready().is_none());
    assert_eq!(tree.len(), 0);
}

#[test]
fn drain_finishes_every_node_once() {
    let mut tree = DepTree::new();
    tree.add_node(id("a", "1"), vec![id("b", "1"), id("c", "1")]);
    tree.add_node(id("b", "1"), vec![id("c", "1")]);
    tree.add_node(id("c", "1"), vec![]);
    let done = tree.drain_ready();
    assert_eq!(tree.len(), 0);
    assert_eq!(done, vec![id("c", "1"), id("b", "1"), id("a", "1")]);
}

#[test]
fn cycle_is_left_as_remaining() {
    let mut tree = DepTree::new();
    tree.add_node(id("a", "1"), vec![id("b", "1")]);
    tree.add_node(id("b", "1"), vec![id("a", "1")]);
    tree.add_node(id("free", "1"), vec![]);
    let done = tree.drain_ready();
    assert_eq!(done, vec![id("free", "1")]);
    // The cycle stays behind, to be reported as remaining packages.
    assert_eq!(tree.len(), 2);
}

#[test]
fn ready_to_build_lists_all_ready_nodes() {
    let mut tree = DepTree::new();
    tree.add_node(id("a", "1"), vec![id("b", "1")]);
    tree.add_node(id("b", "1"), vec![]);
    tree.add_node(id("c", "1"), vec![]);
    assert_eq!(tree.ready_to_build(), vec![id("b", "1"), id("c", "1")]);
}

#[test]
fn finishing_strikes_prerequisites() {
    let mut tree = DepTree::new();
    tree.add_node(id("top", "1"), vec![id("x", "1"), id("y", "1")]);
    tree.add_node(id("x", "1"), vec![]);
    tree.add_node(id("y", "1"), vec![]);
    tree.finish_dep(&id("x", "1"));
    tree.finish_dep(&id("y", "1"));
    assert_eq!(tree.next_ready().expect("top ready"), id("top", "1"));
}

#[test]
fn dep_path_shards_by_hash_prefix() {
    let h = "aabbccdd";
    assert_eq!(
        bootstrapper::sched::dep_path(h),
        "build-cache/build/aa/bb/aabbccdd"
    );
}

#[test]
fn source_path_shards_by_hash_prefix() {
    let h = "0123abcd";
    assert_eq!(
        bootstrapper::source::source_path(h),
        "build-cache/source/01/23/0123abcd"
    );
}
