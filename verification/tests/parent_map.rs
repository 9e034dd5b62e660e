use kosame::parent_map::{Id, Node, NodeKind, ParentMapBuilder};

fn ids(count: usize) -> Vec<Id> {
    let mut counter = 0;
    (0..count).map(|_| Id::new(&mut counter)).collect()
}

#[test]
fn identities_count_up() {
    let mut counter = 5;
    let first = Id::new(&mut counter);
    let second = Id::new(&mut counter);
    assert_eq!(first.raw(), 5);
    assert_eq!(second.raw(), 6);
    assert_eq!(counter, 7);
    assert_ne!(first, second);
}

#[test]
fn identities_start_again_behind_the_last() {
    let mut counter = u32::MAX;
    assert_eq!(Id::new(&mut counter).raw(), u32::MAX);
    assert_eq!(counter, 0);
    assert_eq!(Id::new(&mut counter).raw(), 0);
}

#[test]
fn node_knows_its_identity_and_kind() {
    let id = ids(3);
    assert_eq!(*Node::Command(id[0]).id(), id[0]);
    assert_eq!(*Node::FromItem(id[1]).id(), id[1]);
    assert_eq!(*Node::WithItem(id[2]).id(), id[2]);
    assert_eq!(Node::Command(id[0]).kind(), NodeKind::Command);
    assert_eq!(Node::FromItem(id[1]).kind(), NodeKind::FromItem);
    assert_eq!(Node::WithItem(id[2]).kind(), NodeKind::WithItem);
}

#[test]
fn walk_records_parents() {
    let id = ids(4);
    let root = Node::Command(id[0]);
    let from = Node::FromItem(id[1]);
    let inner = Node::Command(id[2]);
    let with = Node::WithItem(id[3]);
    let mut builder = ParentMapBuilder::new();
    builder.visit_parent_node(root);
    builder.visit_parent_node(from);
    assert_eq!(builder.depth(), 2);
    assert!(builder.has_parent(&from));
    assert!(!builder.has_parent(&inner));
    builder.visit_parent_node(inner);
    builder.end_parent_node();
    builder.end_parent_node();
    builder.visit_parent_node(with);
    builder.end_parent_node();
    builder.end_parent_node();
    builder.end_parent_node();
    assert_eq!(builder.depth(), 0);
    let map = builder.build();

    assert_eq!(map.parent(&root), None);
    assert_eq!(map.parent(&from), Some(&root));
    assert_eq!(map.parent(&inner), Some(&from));
    assert_eq!(map.parent(&with), Some(&root));

    assert_eq!(map.seek_parent(&inner, NodeKind::Command), Some(&root));
    assert_eq!(map.seek_parent(&inner, NodeKind::FromItem), Some(&from));
    assert_eq!(map.seek_parent(&inner, NodeKind::WithItem), None);
    assert_eq!(map.seek_parent(&from, NodeKind::FromItem), None);
    assert_eq!(map.seek_parent(&root, NodeKind::Command), None);
    assert_eq!(map.seek_parent(&with, NodeKind::Command), Some(&root));
}

#[test]
fn empty_map_has_no_parents() {
    let id = ids(1);
    let map = ParentMapBuilder::new().build();
    assert_eq!(map.parent(&Node::Command(id[0])), None);
    assert_eq!(map.seek_parent(&Node::Command(id[0]), NodeKind::Command), None);
}

#[test]
fn search_ends_where_parents_run_in_a_circle() {
    let id = ids(2);
    let first = Node::FromItem(id[0]);
    let second = Node::FromItem(id[1]);
    let mut builder = ParentMapBuilder::new();
    builder.visit_parent_node(first);
    builder.visit_parent_node(second);
    builder.visit_parent_node(first);
    let map = builder.build();
    assert_eq!(map.parent(&first), Some(&second));
    assert_eq!(map.parent(&second), Some(&first));
    assert_eq!(map.seek_parent(&first, NodeKind::Command), None);
    assert_eq!(map.seek_parent(&first, NodeKind::FromItem), Some(&second));
}
