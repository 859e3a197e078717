use passcrypto::names::{
    child_path, contains_str, display_title, entry_title, find_str, is_entry_name, parent_of,
    path_is_under, strip_components,
};

#[test]
fn find_and_contains() {
    assert_eq!(find_str("abc.psx.ps", ".ps"), Some(3));
    assert_eq!(find_str("abc", ".ps"), None);
    assert_eq!(find_str("abc", ""), Some(0));
    assert_eq!(find_str("", "a"), None);
    assert!(contains_str("a/../b", ".."));
    assert!(!contains_str("a/./b", ".."));
}

#[test]
fn entry_names_hold_ps() {
    assert!(is_entry_name("mail.ps"));
    assert!(is_entry_name("a.psb"));
    assert!(!is_entry_name("mail"));
    assert!(!is_entry_name("ps"));
    assert!(!is_entry_name(""));
}

#[test]
fn entry_title_and_back() {
    assert_eq!(entry_title("mail"), "mail.ps");
    assert_eq!(display_title("mail.ps"), "mail");
    assert_eq!(display_title(&entry_title("bank account")), "bank account");
    assert_eq!(display_title("a.ps.b.ps"), "a");
    assert_eq!(display_title("plain"), "plain");
    assert_eq!(display_title(""), "");
    assert_eq!(entry_title("x."), "x..ps");
    assert_eq!(display_title(&entry_title("x.")), "x.");
    assert_eq!(display_title(&entry_title("x.p")), "x.p");
}

#[test]
fn paths_join_and_strip() {
    assert_eq!(child_path("", "work"), "/work");
    assert_eq!(child_path("/work", "mail.ps"), "/work/mail.ps");
    assert_eq!(parent_of("/work/mail.ps"), "/work");
    assert_eq!(parent_of("/work"), "");
    assert_eq!(parent_of("work"), "");
    assert_eq!(parent_of(""), "");
    assert_eq!(strip_components("/a/b/c", 2), "/a");
    assert_eq!(strip_components("/a/b/c", 0), "/a/b/c");
    assert_eq!(strip_components("/a", 5), "");
    assert_eq!(parent_of(&child_path("/a/b", "c")), "/a/b");
}

#[test]
fn under_a_folder() {
    assert!(path_is_under("/a", "/a"));
    assert!(path_is_under("/a/b", "/a"));
    assert!(!path_is_under("/ab", "/a"));
    assert!(!path_is_under("/", "/a"));
    assert!(path_is_under("/x", ""));
}
