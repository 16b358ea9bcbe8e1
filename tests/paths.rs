use sbackup::paths::{file_name, join, parent};

#[test]
fn file_name_is_the_last_component() {
    assert_eq!(file_name("/home/u/notes.txt"), Some("notes.txt".to_string()));
    assert_eq!(file_name("notes.txt"), Some("notes.txt".to_string()));
    assert_eq!(file_name("/a/\u{e9}t\u{e9}"), Some("\u{e9}t\u{e9}".to_string()));
    assert_eq!(file_name("/a/b/"), None);
    assert_eq!(file_name("/a/.."), None);
    assert_eq!(file_name("/a/."), None);
    assert_eq!(file_name(""), None);
    assert_eq!(file_name("/"), None);
    assert_eq!(file_name("/a/.x"), Some(".x".to_string()));
}

#[test]
fn parent_is_what_stands_before() {
    assert_eq!(parent("/home/u/notes.txt"), "/home/u");
    assert_eq!(parent("/notes.txt"), "/");
    assert_eq!(parent("notes.txt"), "");
}

#[test]
fn join_puts_one_separator() {
    assert_eq!(join("/home/u", "x"), "/home/u/x");
    assert_eq!(join("/home/u/", "x"), "/home/u/x");
    assert_eq!(join("/", "x"), "/x");
    assert_eq!(join("", "x"), "x");
}

#[test]
fn parent_and_name_give_the_path_back() {
    for p in ["/home/u/notes.txt", "/x", "rel/y", "z"] {
        let n = file_name(p).unwrap();
        assert_eq!(join(&parent(p), &n), p);
    }
}
