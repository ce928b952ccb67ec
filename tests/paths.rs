use yrice::paths::{child_path, join_path, parent_of};

#[test]
fn join_adds_one_separator() {
    assert_eq!(join_path("/dots", "shell"), "/dots/shell");
    assert_eq!(join_path("/dots/", "shell"), "/dots/shell");
    assert_eq!(join_path("", "shell"), "shell");
}

#[test]
fn join_with_absolute_replaces() {
    assert_eq!(join_path("/dots", "/etc/x"), "/etc/x");
}

#[test]
fn child_always_adds_separator() {
    assert_eq!(child_path("/home/u/.config", "shell"), "/home/u/.config/shell");
    assert_eq!(child_path("a/", "b"), "a//b");
}

#[test]
fn parent_is_text_before_last_slash() {
    assert_eq!(parent_of("a/b/c"), "a/b");
    assert_eq!(parent_of("/x"), "");
    assert_eq!(parent_of("a"), "");
    assert_eq!(parent_of("a/b/"), "a/b");
    assert_eq!(parent_of(""), "");
}
