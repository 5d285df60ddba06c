use steit::node::Tree;
use steit::path::Path;
use steit::reader::Reader;
use steit::runtime::Runtime;
use steit::ser::Serialize;

#[test]
fn serialization() {
    let mut tree = Tree::new();
    let runtime = Runtime::new(&mut tree).nested(&mut tree, 10).nested(&mut tree, 20);
    let mut bytes = Vec::new();

    runtime.serialize(&mut bytes).unwrap();

    let mut reader = Reader::new(bytes);
    let path = Path::deserialize(&mut reader).unwrap();

    assert_eq!(path.tags(), &vec![10, 20]);
}

#[test]
fn clear_cached_size_branch() {
    // 2 level deep `Runtime`
    let mut tree = Tree::new();
    let runtime = Runtime::new(&mut tree).nested(&mut tree, 2);
    let parent = runtime.parent(&tree);

    // Set cached sizes of both `Runtime` nodes
    tree.set_cached_size(runtime.node_index(), 7);
    tree.set_cached_size(parent.node_index(), 6);

    parent.clear_cached_size(&mut tree);

    // Cached size of the leaf `Runtime` is still set.
    assert!(tree.is_cached_size_set(runtime.node_index()));
    // Cached size of the root `Runtime` has been cleared.
    assert!(!tree.is_cached_size_set(parent.node_index()));

    runtime.clear_cached_size(&mut tree);

    // Now cached size of the leaf runtime has also been cleared.
    assert!(!tree.is_cached_size_set(runtime.node_index()));
    assert!(!tree.is_cached_size_set(parent.node_index()));
}

#[test]
fn parent_returns_handle_one_level_up() {
    let mut tree = Tree::new();
    let leaf = Runtime::new(&mut tree).nested(&mut tree, 4).nested(&mut tree, 9);
    let mid = leaf.parent(&tree);

    let mut leaf_bytes = Vec::new();
    leaf.serialize(&mut leaf_bytes).unwrap();
    let mut mid_bytes = Vec::new();
    mid.serialize(&mut mid_bytes).unwrap();

    assert_eq!(leaf_bytes, vec![4, 9]);
    assert_eq!(mid_bytes, vec![4]);
}

#[test]
fn runtime_size_matches_written_bytes() {
    let mut tree = Tree::new();
    let runtime = Runtime::new(&mut tree).nested(&mut tree, 300).nested(&mut tree, 1);
    let mut bytes = Vec::new();
    runtime.serialize(&mut bytes).unwrap();
    assert_eq!(runtime.compute_size() as usize, bytes.len());
    assert_eq!(bytes, vec![0xAC, 0x02, 0x01]);
}

#[test]
fn runtimes_compare_equal() {
    let mut tree = Tree::new();
    let a = Runtime::new(&mut tree);
    let b = a.nested(&mut tree, 1);
    assert!(a == b);
}
