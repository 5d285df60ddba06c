use std::cell::Cell;
use steit::cached_size::CachedSize;
use steit::node::Tree;
use steit::runtime::Runtime;

#[test]
fn cached_size_memoizes_one_computation() {
    let calls = Cell::new(0u32);
    let mut cached = CachedSize::unset();
    assert!(!cached.is_set());

    let first = cached.get_or_set_from(|| {
        calls.set(calls.get() + 1);
        7
    });
    assert_eq!(first, 7);
    assert!(cached.is_set());
    assert_eq!(calls.get(), 1);

    // A second call returns the memo without computing again.
    let second = cached.get_or_set_from(|| {
        calls.set(calls.get() + 1);
        9
    });
    assert_eq!(second, 7);
    assert_eq!(calls.get(), 1);

    // After a clear the computation runs once more.
    cached.clear();
    assert!(!cached.is_set());
    let third = cached.get_or_set_from(|| {
        calls.set(calls.get() + 1);
        9
    });
    assert_eq!(third, 9);
    assert_eq!(calls.get(), 2);
}

#[test]
fn cached_size_set_overrides() {
    let mut cached = CachedSize::unset();
    cached.set(11);
    assert!(cached.is_set());
    assert_eq!(cached.get(), Some(11));
    assert_eq!(cached.get_or_set_from(|| 99), 11);
}

#[test]
fn runtime_cache_memoizes_per_node() {
    let calls = Cell::new(0u32);
    let mut tree = Tree::new();
    let runtime = Runtime::new(&mut tree).nested(&mut tree, 3);

    let first = runtime.get_or_set_cached_size_from(&mut tree, || {
        calls.set(calls.get() + 1);
        21
    });
    let second = runtime.get_or_set_cached_size_from(&mut tree, || {
        calls.set(calls.get() + 1);
        33
    });
    assert_eq!(first, 21);
    assert_eq!(second, 21);
    assert_eq!(calls.get(), 1);

    runtime.clear_cached_size(&mut tree);
    let third = runtime.get_or_set_cached_size_from(&mut tree, || {
        calls.set(calls.get() + 1);
        33
    });
    assert_eq!(third, 33);
    assert_eq!(calls.get(), 2);
}

#[test]
fn clearing_invalidates_ancestors_but_not_descendants() {
    // Nesting root -> a -> b with every cache set.
    let mut tree = Tree::new();
    let root = Runtime::new(&mut tree);
    let a = root.nested(&mut tree, 1);
    let b = a.nested(&mut tree, 2);
    tree.set_cached_size(root.node_index(), 10);
    tree.set_cached_size(a.node_index(), 20);
    tree.set_cached_size(b.node_index(), 30);

    // Clearing a clears a and the root but leaves b set.
    a.clear_cached_size(&mut tree);
    assert!(!tree.is_cached_size_set(a.node_index()));
    assert!(!tree.is_cached_size_set(root.node_index()));
    assert!(tree.is_cached_size_set(b.node_index()));

    // Clearing b clears b, a, and the root.
    tree.set_cached_size(root.node_index(), 10);
    tree.set_cached_size(a.node_index(), 20);
    b.clear_cached_size(&mut tree);
    assert!(!tree.is_cached_size_set(b.node_index()));
    assert!(!tree.is_cached_size_set(a.node_index()));
    assert!(!tree.is_cached_size_set(root.node_index()));
}

#[test]
fn clearing_leaves_siblings_alone() {
    let mut tree = Tree::new();
    let root = Runtime::new(&mut tree);
    let left = root.nested(&mut tree, 1);
    let right = root.nested(&mut tree, 2);
    tree.set_cached_size(left.node_index(), 5);
    tree.set_cached_size(right.node_index(), 6);

    left.clear_cached_size(&mut tree);
    assert!(!tree.is_cached_size_set(left.node_index()));
    assert!(tree.is_cached_size_set(right.node_index()));
}
