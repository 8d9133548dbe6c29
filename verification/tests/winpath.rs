use clispeak::winpath::{path_with, path_without};

#[test]
fn adds_when_absent() {
    assert_eq!(
        path_with(r"C:\Windows;C:\Windows\System32", r"C:\Users\p\AppData\Local\clispeak"),
        Some(r"C:\Windows;C:\Windows\System32;C:\Users\p\AppData\Local\clispeak".into())
    );
}

#[test]
fn adding_twice_changes_nothing() {
    let dir = r"C:\Tools\clispeak";
    let once = path_with(r"C:\Windows", dir).unwrap();
    assert_eq!(path_with(&once, dir), None);
}

#[test]
fn case_and_trailing_slash_are_the_same_directory() {
    assert_eq!(path_with(r"C:\Windows;c:\tools\clispeak\", r"C:\Tools\clispeak"), None);
    assert_eq!(
        path_without(r"C:\Windows;c:\tools\clispeak\", r"C:\Tools\clispeak"),
        Some(r"C:\Windows".to_string())
    );
}

#[test]
fn quoted_entries_are_the_same_directory() {
    assert_eq!(path_with(r#"C:\Windows;"C:\Tools\clispeak""#, r"C:\Tools\clispeak"), None);
}

#[test]
fn a_trailing_separator_does_not_become_an_empty_entry() {
    assert_eq!(
        path_with(r"C:\Windows;", r"C:\Tools\clispeak"),
        Some(r"C:\Windows;C:\Tools\clispeak".into())
    );
}

#[test]
fn an_empty_path_becomes_just_the_entry() {
    assert_eq!(path_with("", r"C:\Tools\clispeak"), Some(r"C:\Tools\clispeak".into()));
}

#[test]
fn removing_what_is_not_there_changes_nothing() {
    assert_eq!(path_without(r"C:\Windows", r"C:\Tools\clispeak"), None);
}

#[test]
fn removing_preserves_everything_else_exactly() {
    assert_eq!(
        path_without(r"C:\Windows;;C:\Tools\clispeak;%JAVA_HOME%\bin", r"C:\Tools\clispeak"),
        Some(r"C:\Windows;;%JAVA_HOME%\bin".to_string())
    );
}

#[test]
fn unexpanded_variables_are_left_alone() {
    let path = r"%USERPROFILE%\bin;C:\Windows";
    let out = path_with(path, r"C:\Tools\clispeak").unwrap();
    assert!(out.starts_with(r"%USERPROFILE%\bin;"), "{out}");
}

#[test]
fn removing_what_was_added_gives_the_path_back() {
    let before = r"C:\Windows;C:\Windows\System32";
    let dir = r"C:\Tools\clispeak";
    let after = path_with(before, dir).unwrap();
    assert_eq!(path_without(&after, dir), Some(before.to_string()));
    assert_eq!(path_without(dir, dir), Some(String::new()));
}
