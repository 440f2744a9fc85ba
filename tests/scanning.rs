use file_mover::scan::{name_le, select_candidates, DirEntry, CONFIG_FILE_NAME};

fn file(name: &str) -> DirEntry {
    DirEntry { name: Some(name.to_string()), is_file: true }
}

fn dir(name: &str) -> DirEntry {
    DirEntry { name: Some(name.to_string()), is_file: false }
}

#[test]
fn candidates_are_sorted_files_without_the_rule_file() {
    let entries = vec![
        file("note.txt"),
        dir("photos"),
        file(CONFIG_FILE_NAME),
        DirEntry { name: None, is_file: true },
        file("IMG_001.jpg"),
        file("b.txt"),
    ];
    assert_eq!(select_candidates(&entries), vec!["IMG_001.jpg", "b.txt", "note.txt"]);
}

#[test]
fn rescan_gives_the_same_order() {
    let first = vec![file("c"), file("a"), file("b"), dir("d")];
    let second = vec![dir("d"), file("b"), file("c"), file("a")];
    assert_eq!(select_candidates(&first), select_candidates(&second));
    assert_eq!(select_candidates(&first), vec!["a", "b", "c"]);
}

#[test]
fn empty_listing_has_no_candidates() {
    assert!(select_candidates(&vec![]).is_empty());
    assert!(select_candidates(&vec![file(".mover.json"), dir("x")]).is_empty());
}

#[test]
fn order_follows_bytes() {
    let entries = vec![file("é.txt"), file("z.txt"), file("Z.txt"), file("a"), file("ab"), file("")];
    assert_eq!(select_candidates(&entries), vec!["", "Z.txt", "a", "ab", "z.txt", "é.txt"]);
    let mut by_std: Vec<String> = vec!["é.txt", "z.txt", "Z.txt", "a", "ab"].into_iter().map(String::from).collect();
    by_std.sort();
    assert_eq!(select_candidates(&entries)[1..].to_vec(), by_std);
}

#[test]
fn name_order() {
    assert!(name_le("a", "b"));
    assert!(!name_le("b", "a"));
    assert!(name_le("a", "a"));
    assert!(name_le("a", "ab"));
    assert!(!name_le("ab", "a"));
    assert!(name_le("", ""));
    assert!(name_le("Z", "a"));
}

#[test]
fn duplicate_names_are_kept() {
    let entries = vec![file("x"), file("x"), file("a")];
    assert_eq!(select_candidates(&entries), vec!["a", "x", "x"]);
}
