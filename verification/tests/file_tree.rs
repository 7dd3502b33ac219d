use transfer::FileTree;

#[test]
fn empty_tree_has_no_file() {
    let tree = FileTree::new();
    assert!(tree.file_names().is_empty());
    assert!(tree.get_file("a.txt").is_none());
}

#[test]
fn insert_then_get() {
    let mut tree = FileTree::new();
    tree.insert("a.txt".to_string(), b"alpha".to_vec());
    tree.insert("b.bin".to_string(), vec![0, 1, 2]);
    assert_eq!(tree.get_file("a.txt"), Some(&b"alpha".to_vec()));
    assert_eq!(tree.get_file("b.bin"), Some(&vec![0u8, 1, 2]));
    assert_eq!(tree.get_file("c"), None);
    assert_eq!(tree.get_file_bytes(b"a.txt"), Some(&b"alpha".to_vec()));
    assert_eq!(tree.file_names(), vec!["a.txt".to_string(), "b.bin".to_string()]);
}

#[test]
fn insert_same_name_replaces_in_place() {
    let mut tree = FileTree::new();
    tree.insert("a".to_string(), b"1".to_vec());
    tree.insert("b".to_string(), b"2".to_vec());
    tree.insert("a".to_string(), b"3".to_vec());
    assert_eq!(tree.file_names(), vec!["a".to_string(), "b".to_string()]);
    assert_eq!(tree.get_file("a"), Some(&b"3".to_vec()));
    assert_eq!(tree.get_file("b"), Some(&b"2".to_vec()));
}

#[test]
fn names_are_compared_exactly() {
    let mut tree = FileTree::new();
    tree.insert("Read Me.txt".to_string(), b"x".to_vec());
    tree.insert("é.txt".to_string(), b"y".to_vec());
    assert!(tree.get_file("read me.txt").is_none());
    assert_eq!(tree.get_file("é.txt"), Some(&b"y".to_vec()));
}

#[test]
fn reading_a_file_leaves_nothing_to_read() {
    let mut tree = FileTree::new();
    tree.insert("a".to_string(), b"abc".to_vec());
    tree.insert("b".to_string(), b"xyz".to_vec());
    assert_eq!(tree.read_file("a"), Some(b"abc".to_vec()));
    assert_eq!(tree.read_file("a"), Some(Vec::new()));
    assert_eq!(tree.get_file("b"), Some(&b"xyz".to_vec()));
    assert_eq!(tree.read_file("nope"), None);
    assert_eq!(tree.file_names(), vec!["a".to_string(), "b".to_string()]);
    tree.insert("a".to_string(), b"new".to_vec());
    assert_eq!(tree.read_file_bytes(b"a"), Some(b"new".to_vec()));
}
