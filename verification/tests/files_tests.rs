use license_gen::files::{write_license, FileStore};

#[test]
fn write_to_fresh_path_creates_file() {
    let mut store = FileStore::new();
    let path = "LICENSE".to_string();
    let content = "MIT License\n".to_string();
    write_license(&mut store, &path, &content, &path);
    assert!(store.exists_at(&path));
    assert_eq!(store.contents_of(&path), Some(&content));
}

#[test]
fn confirming_default_path_overwrites() {
    let mut store = FileStore::new();
    let path = "LICENSE".to_string();
    let old = "old text".to_string();
    let new = "new text".to_string();
    write_license(&mut store, &path, &old, &path);
    // The user confirms the same default path: the file is replaced.
    write_license(&mut store, &path, &new, &path);
    assert_eq!(store.contents_of(&path), Some(&new));
}

#[test]
fn choosing_another_path_leaves_original_untouched() {
    let mut store = FileStore::new();
    let path = "LICENSE".to_string();
    let other = "LICENSE-2".to_string();
    let old = "old text".to_string();
    let new = "new text".to_string();
    write_license(&mut store, &path, &old, &path);
    // The user supplies a different path at the prompt.
    write_license(&mut store, &path, &new, &other);
    assert_eq!(store.contents_of(&path), Some(&old));
    assert_eq!(store.contents_of(&other), Some(&new));
}

#[test]
fn empty_store_has_no_files() {
    let store = FileStore::new();
    assert!(!store.exists_at(&"LICENSE".to_string()));
    assert_eq!(store.contents_of(&"LICENSE".to_string()), None);
}

#[test]
fn writes_to_distinct_paths_are_independent() {
    let mut store = FileStore::new();
    let a = "a.txt".to_string();
    let b = "b.txt".to_string();
    let ca = "aaa".to_string();
    let cb = "bbb".to_string();
    write_license(&mut store, &a, &ca, &a);
    write_license(&mut store, &b, &cb, &b);
    assert_eq!(store.contents_of(&a), Some(&ca));
    assert_eq!(store.contents_of(&b), Some(&cb));
}
