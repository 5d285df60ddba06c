use steit::log::{EntryKind, Logger};
use steit::node::Tree;
use steit::runtime::Runtime;

#[test]
fn log_update_records_path_kind_and_payload() {
    let mut tree = Tree::new();
    let mut logger = Logger::new();
    let runtime = Runtime::new(&mut tree).nested(&mut tree, 10);

    runtime.log_update(&mut logger, 20, &300u64).unwrap();

    let entries = logger.into_entries();
    assert_eq!(entries.len(), 1);
    assert_eq!(entries[0].path(), &vec![10, 20]);
    assert_eq!(entries[0].kind(), EntryKind::Update);
    assert_eq!(entries[0].payload(), &Some(vec![0xAC, 0x02]));
}

#[test]
fn log_update_in_place_addresses_the_node_itself() {
    let mut tree = Tree::new();
    let mut logger = Logger::new();
    let runtime = Runtime::new(&mut tree).nested(&mut tree, 10);

    runtime.log_update_in_place(&mut logger, &7u64).unwrap();

    let entries = logger.into_entries();
    assert_eq!(entries[0].path(), &vec![10]);
    assert_eq!(entries[0].kind(), EntryKind::Update);
    assert_eq!(entries[0].payload(), &Some(vec![7]));
}

#[test]
fn log_add_and_remove_record_their_kinds() {
    let mut tree = Tree::new();
    let mut logger = Logger::new();
    let runtime = Runtime::new(&mut tree).nested(&mut tree, 1);

    runtime.log_add(&mut logger, &true).unwrap();
    runtime.log_remove::<u64>(&mut logger, 9).unwrap();

    let entries = logger.into_entries();
    assert_eq!(entries.len(), 2);
    assert_eq!(entries[0].kind(), EntryKind::Add);
    assert_eq!(entries[0].path(), &vec![1]);
    assert_eq!(entries[0].payload(), &Some(vec![1]));
    assert_eq!(entries[1].kind(), EntryKind::Remove);
    assert_eq!(entries[1].path(), &vec![1, 9]);
    assert_eq!(entries[1].payload(), &None);
}

#[test]
fn entries_keep_strict_call_order() {
    let mut tree = Tree::new();
    let mut logger = Logger::new();
    let runtime = Runtime::new(&mut tree);

    runtime.log_update(&mut logger, 1, &11u64).unwrap();
    runtime.log_update(&mut logger, 2, &22u64).unwrap();
    runtime.log_update(&mut logger, 3, &33u64).unwrap();

    let entries = logger.into_entries();
    assert_eq!(entries.len(), 3);
    assert_eq!(entries[0].path(), &vec![1]);
    assert_eq!(entries[1].path(), &vec![2]);
    assert_eq!(entries[2].path(), &vec![3]);
}

#[test]
fn entry_wire_record_is_path_kind_payload() {
    let mut tree = Tree::new();
    let mut logger = Logger::new();
    let runtime = Runtime::new(&mut tree).nested(&mut tree, 10);
    runtime.log_update(&mut logger, 20, &300u64).unwrap();
    runtime.log_remove::<u64>(&mut logger, 20).unwrap();

    let entries = logger.into_entries();
    let mut bytes = Vec::new();
    entries[0].write_to(&mut bytes).unwrap();
    assert_eq!(bytes, vec![10, 20, 0, 0xAC, 0x02]);

    let mut bytes = Vec::new();
    entries[1].write_to(&mut bytes).unwrap();
    assert_eq!(bytes, vec![10, 20, 2]);
}
