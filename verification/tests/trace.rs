use asynckit::trace::{keys_of, Node, NodeKey, NodePrinter, PathPart};

fn sample() -> Node {
    let mut root = Node::new();
    let frames = vec![PathPart::Frames(vec![2, 1])];
    root.insert(&frames);
    root.insert(&frames);
    root.insert(&vec![PathPart::Annotation("a".to_string())]);
    root
}

#[test]
fn keys_read_from_the_root() {
    let keys = keys_of(&vec![PathPart::Annotation("x".to_string()), PathPart::Frames(vec![5, 6, 7])]);
    assert_eq!(keys.len(), 4);
    assert!(matches!(&keys[0], NodeKey::Annotation(s) if s == "● x"));
    assert!(matches!(keys[1], NodeKey::Address(7)));
    assert!(matches!(keys[2], NodeKey::Address(6)));
    assert!(matches!(keys[3], NodeKey::Address(5)));
}

#[test]
fn inserts_count_at_the_end_of_the_way() {
    let root = sample();
    assert_eq!(root.children.len(), 2);
    assert!(matches!(root.children[0].0, NodeKey::Address(1)));
    let a = &root.children[0].1;
    assert_eq!(a.count, 0);
    assert!(matches!(a.children[0].0, NodeKey::Address(2)));
    assert_eq!(a.children[0].1.count, 2);
    assert_eq!(root.children[1].1.count, 1);
}

#[test]
fn sizes_count_the_nodes_below() {
    let mut root = sample();
    root.compute_recursive_size();
    assert_eq!(root.recursive_size, 3);
    assert_eq!(root.children[0].1.recursive_size, 1);
    assert_eq!(root.children[1].1.recursive_size, 0);
}

#[test]
fn prints_largest_subtree_first() {
    let mut root = sample();
    root.compute_recursive_size();
    let table = vec![(1usize, vec!["one".to_string()]), (2usize, vec!["two".to_string(), "two-inline".to_string()])];
    let mut printer = NodePrinter::new(String::new());
    printer.print(&root, &table);
    assert_eq!(
        printer.into_output(),
        "    2 pending\n    two-inline\n    two\n┏━━ one\n┃   \n┃   1 pending\n┣━━ ● a\n┃   \n"
    );
}

#[test]
fn ties_go_by_key() {
    let mut root = Node::new();
    root.insert(&vec![PathPart::Annotation("b".to_string())]);
    root.insert(&vec![PathPart::Annotation("a".to_string())]);
    root.insert(&vec![PathPart::Frames(vec![9])]);
    root.compute_recursive_size();
    let mut printer = NodePrinter::new(String::new());
    printer.print(&root, &vec![]);
    assert_eq!(
        printer.into_output(),
        "    1 pending\n┃   1 pending\n┣━━ ● a\n┃   \n┃   1 pending\n┣━━ ● b\n┃   \n"
    );
}
