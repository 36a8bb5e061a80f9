use resty::prefix_tree::Tree;

#[test]
fn should_find_exact_match() {
    let mut tree = Tree::new();

    tree.insert("abc".as_bytes(), 5);

    assert_eq!(tree.find("ab".as_bytes()), None);
    assert_eq!(tree.find("abc".as_bytes()), Some((3, &5)));
    assert_eq!(tree.find("abcd".as_bytes()), Some((3, &5)));
}

#[test]
fn should_merge_two_trees() {
    let mut tree1 = Tree::new();
    tree1.insert("abc".as_bytes(), 4);
    tree1.insert("axy".as_bytes(), 9);
    tree1.insert("z".as_bytes(), 6);
    let mut tree2 = Tree::new();
    tree2.insert("b".as_bytes(), 5);
    tree2.insert("abc".as_bytes(), 7);
    tree2.insert("xyz".as_bytes(), 10);

    tree1.merge("a".as_bytes(), tree2);

    assert_eq!(tree1.find("ab".as_bytes()), Some((2, &5)));
    assert_eq!(tree1.find("abc".as_bytes()), Some((3, &4)));
    assert_eq!(tree1.find("abcd".as_bytes()), Some((3, &4)));
    assert_eq!(tree1.find("aabcd".as_bytes()), Some((4, &7)));
    assert_eq!(tree1.find("axy".as_bytes()), Some((3, &9)));
    assert_eq!(tree1.find("axyz".as_bytes()), Some((4, &10)));
    assert_eq!(tree1.find("axyzx".as_bytes()), Some((4, &10)));
    assert_eq!(tree1.find("z".as_bytes()), Some((1, &6)));
}

#[test]
fn should_print_the_tree() {
    let mut tree1 = Tree::new();
    tree1.insert("abc".as_bytes(), 4);
    tree1.insert("axy".as_bytes(), 9);
    tree1.insert("z".as_bytes(), 6);
    let mut tree2 = Tree::new();
    tree2.insert("b".as_bytes(), 5);
    tree2.insert("abc".as_bytes(), 7);
    tree2.insert("xyz".as_bytes(), 10);

    tree1.merge("a".as_bytes(), tree2);

    let mut rendered = String::from("Tree:\n");
    for (prefix, item) in tree1.iter() {
        rendered += &format!("{} -> {:?}\n", std::str::from_utf8(&prefix).unwrap(), item);
    }
    assert_eq!(
        rendered,
        r#"Tree:
aabc -> 7
ab -> 5
abc -> 4
axy -> 9
axyz -> 10
z -> 6
"#
    );
}

#[test]
fn insert_returns_previous_value() {
    let mut tree = Tree::new();
    assert_eq!(tree.insert("k".as_bytes(), 1), None);
    assert_eq!(tree.insert("k".as_bytes(), 2), Some(1));
    assert_eq!(tree.find("k".as_bytes()), Some((1, &2)));
}

#[test]
fn insert_then_remove_restores_previous_lookups() {
    let mut tree = Tree::new();
    tree.insert("ab".as_bytes(), 1);
    assert_eq!(tree.find("abc".as_bytes()), Some((2, &1)));

    assert_eq!(tree.insert("abc".as_bytes(), 2), None);
    assert_eq!(tree.find("abc".as_bytes()), Some((3, &2)));
    assert_eq!(tree.remove("abc".as_bytes()), Some(2));

    assert_eq!(tree.find("abc".as_bytes()), Some((2, &1)));
    assert_eq!(tree.find("ab".as_bytes()), Some((2, &1)));
}

#[test]
fn remove_missing_key_returns_none() {
    let mut tree: Tree<u32> = Tree::new();
    tree.insert("abc".as_bytes(), 7);
    assert_eq!(tree.remove("ab".as_bytes()), None);
    assert_eq!(tree.remove("abcd".as_bytes()), None);
    assert_eq!(tree.remove("x".as_bytes()), None);
    assert_eq!(tree.find("abc".as_bytes()), Some((3, &7)));
}

#[test]
fn iter_yields_keys_in_lexicographic_byte_order() {
    let mut tree = Tree::new();
    tree.insert("b".as_bytes(), 1);
    tree.insert("a".as_bytes(), 2);
    tree.insert("ab".as_bytes(), 3);
    tree.insert(&[0u8], 4);
    tree.insert(&[255u8], 5);
    tree.insert("aa".as_bytes(), 6);

    let keys: Vec<Vec<u8>> = tree.iter().into_iter().map(|(k, _)| k).collect();
    assert_eq!(
        keys,
        vec![
            vec![0u8],
            b"a".to_vec(),
            b"aa".to_vec(),
            b"ab".to_vec(),
            b"b".to_vec(),
            vec![255u8],
        ]
    );
}

#[test]
fn zero_byte_is_a_legal_key_byte() {
    let mut tree = Tree::new();
    tree.insert(&[0u8, 0u8], 9);
    assert_eq!(tree.find(&[0u8, 0u8, 1u8]), Some((2, &9)));
    assert_eq!(tree.remove(&[0u8, 0u8]), Some(9));
    assert_eq!(tree.find(&[0u8, 0u8]), None);
}

#[test]
fn merge_with_empty_prefix_merges_roots_second_wins() {
    let mut tree1 = Tree::new();
    tree1.insert("a".as_bytes(), 1);
    tree1.insert("b".as_bytes(), 2);
    let mut tree2 = Tree::new();
    tree2.insert("b".as_bytes(), 20);
    tree2.insert("c".as_bytes(), 30);

    tree1.merge("".as_bytes(), tree2);

    assert_eq!(tree1.find("a".as_bytes()), Some((1, &1)));
    assert_eq!(tree1.find("b".as_bytes()), Some((1, &20)));
    assert_eq!(tree1.find("c".as_bytes()), Some((1, &30)));
}

#[test]
fn merge_equals_prefixed_inserts() {
    // The same entries, once via merge and once via plain inserts of the
    // prefixed keys, give the same lookups.
    let mut merged = Tree::new();
    merged.insert("pa".as_bytes(), 1);
    let mut child = Tree::new();
    child.insert("x".as_bytes(), 10);
    child.insert("yz".as_bytes(), 11);
    merged.merge("p".as_bytes(), child);

    let mut manual = Tree::new();
    manual.insert("pa".as_bytes(), 1);
    manual.insert("px".as_bytes(), 10);
    manual.insert("pyz".as_bytes(), 11);

    for key in ["p", "pa", "px", "py", "pyz", "pyzq", "q"] {
        assert_eq!(manual.find(key.as_bytes()), merged.find(key.as_bytes()));
    }
}
