use std::path::PathBuf;

use tm_backup::sshuri::{SSHUri, UriError};

#[test]
fn parse_uri() {
    let result = SSHUri::from("user@host:/path/");

    let uri = result.expect("a destination");
    assert_eq!(uri.original(), "user@host:/path/");
    assert_eq!(uri.user(), Some("user"));
    assert_eq!(uri.uri(), "host:/path/".to_string());
    assert_eq!(uri.host(), "host");
    assert_eq!(uri.path(), "/path");
    assert_eq!(PathBuf::from(uri.path()), PathBuf::from("/path"));
}

#[test]
fn join() {
    let uri = SSHUri::from("user@host:/path/").unwrap();
    let result = uri.join(&["child1", "child2"]);

    assert_eq!(result.original(), "user@host:/path/");
    assert_eq!(result.user(), Some("user"));
    assert_eq!(result.uri(), "host:/path/".to_string());
    assert_eq!(result.host(), "host");
    assert_eq!(result.path(), "/path/child1/child2");
    assert_eq!(PathBuf::from(result.path()), PathBuf::from("/path/child1/child2"));
}

#[test]
fn parse_without_user() {
    let uri = SSHUri::from("host:/path").unwrap();
    assert_eq!(uri.original(), "host:/path");
    assert_eq!(uri.user(), None);
    assert_eq!(uri.host(), "host");
    assert_eq!(uri.path(), "/path");
    assert_eq!(uri.uri(), "host:/path".to_string());
}

#[test]
fn parse_without_delimiter_fails() {
    assert_eq!(SSHUri::from("nodelimiter").err(), Some(UriError::InvalidUri));
    assert_eq!(SSHUri::from("").err(), Some(UriError::InvalidUri));
    assert_eq!(SSHUri::from("user@host").err(), Some(UriError::InvalidUri));
    assert_eq!(SSHUri::from("user@").err(), Some(UriError::InvalidUri));
}

#[test]
fn delimiter_before_user_mark_does_not_count() {
    // The only `:` stands before the first `@`, so it belongs to the user name.
    assert_eq!(SSHUri::from("host:/path@x").err(), Some(UriError::InvalidUri));

    let uri = SSHUri::from("a:b@host:/p").unwrap();
    assert_eq!(uri.user(), Some("a:b"));
    assert_eq!(uri.host(), "host");
    assert_eq!(uri.path(), "/p");
}

#[test]
fn parse_splits_at_first_marks() {
    let uri = SSHUri::from("u@h@x:a:b").unwrap();
    assert_eq!(uri.user(), Some("u"));
    assert_eq!(uri.host(), "h@x");
    assert_eq!(uri.path(), "a:b");
    assert_eq!(uri.uri(), "h@x:a:b".to_string());
}

#[test]
fn parse_accepts_empty_user() {
    let uri = SSHUri::from("@host:path").unwrap();
    assert_eq!(uri.user(), Some(""));
    assert_eq!(uri.host(), "host");
    assert_eq!(uri.path(), "path");
}

#[test]
fn parse_accepts_empty_host() {
    let uri = SSHUri::from(":path").unwrap();
    assert_eq!(uri.user(), None);
    assert_eq!(uri.host(), "");
    assert_eq!(uri.path(), "path");
}

#[test]
fn parse_keeps_original_text() {
    for text in ["user@host:/path/", "host:", ":", "@:", "u@h:/a//b///", "h:/"] {
        let uri = SSHUri::from(text).unwrap();
        assert_eq!(uri.original(), text);
    }
}

#[test]
fn parse_drops_trailing_separators() {
    assert_eq!(SSHUri::from("h:/a/b/").unwrap().path(), "/a/b");
    assert_eq!(SSHUri::from("h:/a/b///").unwrap().path(), "/a/b");
    assert_eq!(SSHUri::from("h:a/").unwrap().path(), "a");
    assert_eq!(SSHUri::from("h:/a//b").unwrap().path(), "/a//b");
}

#[test]
fn parse_keeps_root_and_empty_path() {
    assert_eq!(SSHUri::from("h:/").unwrap().path(), "/");
    assert_eq!(SSHUri::from("h:///").unwrap().path(), "/");
    assert_eq!(SSHUri::from("h:").unwrap().path(), "");
}

#[test]
fn parse_counts_characters_not_bytes() {
    let uri = SSHUri::from("jos\u{e9}@h\u{f6}st:/d\u{e9}p\u{f4}t/\u{1F600}/").unwrap();
    assert_eq!(uri.user(), Some("jos\u{e9}"));
    assert_eq!(uri.host(), "h\u{f6}st");
    assert_eq!(uri.path(), "/d\u{e9}p\u{f4}t/\u{1F600}");
    assert_eq!(uri.uri(), "h\u{f6}st:/d\u{e9}p\u{f4}t/\u{1F600}/".to_string());
    assert_eq!(uri.join(&["\u{e9}t\u{e9}"]).path(), "/d\u{e9}p\u{f4}t/\u{1F600}/\u{e9}t\u{e9}");
}

#[test]
fn join_nothing_is_identity() {
    for text in ["user@host:/path/", "host:", "h:/", "@h:a/b"] {
        let uri = SSHUri::from(text).unwrap();
        let same = uri.join(&[]);
        assert_eq!(same, uri);
        assert_eq!(same.path(), uri.path());
    }
}

#[test]
fn join_twice_is_join_of_both() {
    let uri = SSHUri::from("user@host:/path/").unwrap();
    let stepwise = uri.join(&["a", "b"]).join(&["c"]);
    let at_once = uri.join(&["a", "b", "c"]);
    assert_eq!(stepwise, at_once);
    assert_eq!(stepwise.path(), "/path/a/b/c");

    let stepwise = uri.join(&[]).join(&["x", "y"]).join(&[]);
    assert_eq!(stepwise, uri.join(&["x", "y"]));
}

#[test]
fn join_below_root_and_empty_path() {
    assert_eq!(SSHUri::from("h:/").unwrap().join(&["a", "b"]).path(), "/a/b");
    assert_eq!(SSHUri::from("h:").unwrap().join(&["a", "b"]).path(), "a/b");
}

#[test]
fn join_appends_segments_as_given() {
    let uri = SSHUri::from("h:/base").unwrap();
    assert_eq!(uri.join(&["a/"]).path(), "/base/a/");
    assert_eq!(uri.join(&["a/", "b"]).path(), "/base/a/b");
    assert_eq!(uri.join(&[".."]).path(), "/base/..");
    assert_eq!(uri.join(&["/etc"]).path(), "/base//etc");
    assert_eq!(uri.join(&[""]).path(), "/base/");
    assert_eq!(uri.join(&["x:y@z"]).path(), "/base/x:y@z");
}

#[test]
fn join_leaves_base_unchanged() {
    let uri = SSHUri::from("user@host:/path/").unwrap();
    let child = uri.join(&["child"]);
    assert_eq!(uri.path(), "/path");
    assert_eq!(child.path(), "/path/child");
    assert_eq!(child.original(), uri.original());
    assert_eq!(child.user(), uri.user());
    assert_eq!(child.host(), uri.host());
    assert_eq!(child.uri(), uri.uri());
}

#[test]
fn equality_compares_all_parts() {
    let a = SSHUri::from("user@host:/path").unwrap();
    assert_eq!(a, SSHUri::from("user@host:/path").unwrap());
    assert_eq!(a, a.clone());

    // Same user, host and path; another original text.
    let b = SSHUri::from("user@host:/path/").unwrap();
    assert_eq!(a.path(), b.path());
    assert_ne!(a, b);

    // Same original text, user and host; another path.
    assert_ne!(a, a.join(&["x"]));

    assert_ne!(a, SSHUri::from("other@host:/path").unwrap());
    assert_ne!(a, SSHUri::from("user@other:/path").unwrap());
    assert_ne!(a, SSHUri::from("host:/path").unwrap());
    assert_ne!(SSHUri::from("@h:p").unwrap(), SSHUri::from("h:p").unwrap());
}

#[test]
fn trailing_separator_gives_same_children() {
    let plain = SSHUri::from("user@host:/path").unwrap();
    let slashed = SSHUri::from("user@host:/path/").unwrap();
    assert_eq!(plain.join(&["a", "b"]).path(), slashed.join(&["a", "b"]).path());
}
