use clispeak::shell_path::{path_needle, supplies, with_path_line};

#[test]
fn the_line_written_is_found_again_so_it_is_written_once() {
    let needle = path_needle("/Users/ana", "/Users/ana/.local/bin");
    assert_eq!(needle, "/.local/bin");
    let written = with_path_line("", &needle);
    assert!(
        written.contains(r#"export PATH="$HOME/.local/bin:$PATH""#),
        "{written}"
    );
    assert!(supplies(&written, &needle), "a second pass must find the first line");
}

#[test]
fn a_line_written_by_hand_counts() {
    assert!(supplies(
        "export PATH=\"$HOME/.local/bin:$PATH\"\n",
        "/.local/bin"
    ));
    assert!(!supplies("export EDITOR=vim\n", "/.local/bin"));
    assert!(!supplies("", "/.local/bin"));
    assert!(supplies("anything", ""));
}

#[test]
fn a_profile_keeps_its_contents_and_its_last_line() {
    let written = with_path_line("export EDITOR=vim", "/.local/bin");
    assert!(written.starts_with("export EDITOR=vim\n"), "{written}");
    assert!(written.contains("$HOME/.local/bin"), "{written}");
    let ended = with_path_line("export EDITOR=vim\n", "/.local/bin");
    assert!(ended.starts_with("export EDITOR=vim\n\n# Added by clispeak"), "{ended}");
}

#[test]
fn a_directory_outside_home_is_named_as_it_is() {
    assert_eq!(path_needle("/Users/ana/", "/Users/ana/.local/bin"), "/.local/bin");
    assert_eq!(path_needle("/Users/an", "/Users/ana/.local/bin"), "/Users/ana/.local/bin");
    assert_eq!(path_needle("/Users/ana", "/opt/bin"), "/opt/bin");
    assert_eq!(path_needle("/Users/ana", "/Users/ana"), "/");
    assert_eq!(path_needle("/Users/ana", "/Users/ana//bin"), "/bin");
}
