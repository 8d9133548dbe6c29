use std::path::Path;

use clispeak::skill::{
    entry_is_ours, expand_home, expand_home_in, hook_command, hook_present, removal, state_of, State,
};

#[test]
fn a_quoted_home_path_expands_instead_of_making_a_directory_called_tilde() {
    let home = directories::BaseDirs::new().expect("a home directory");
    let expanded = expand_home("~/.agents/skills/clispeak/SKILL.md");

    assert_eq!(
        Path::new(&expanded),
        home.home_dir().join(".agents/skills/clispeak/SKILL.md")
    );
    assert!(
        !Path::new(&expanded).starts_with("~"),
        "a leading tilde must not survive into a path that gets created"
    );
    // Bare `~` is the home directory itself.
    assert_eq!(Path::new(&expand_home("~")), home.home_dir());
    // Anything else is left exactly as given.
    assert_eq!(Path::new(&expand_home("/tmp/x")), Path::new("/tmp/x"));
    assert_eq!(
        Path::new(&expand_home("relative/x")),
        Path::new("relative/x")
    );
    // A tilde that is not the first component is a real directory name.
    assert_eq!(Path::new(&expand_home("/tmp/~/x")), Path::new("/tmp/~/x"));
}

#[test]
fn a_tilde_is_only_a_home_when_it_is_a_whole_first_component() {
    let home = Some("/home/ana");
    assert_eq!(expand_home_in("~", home), "/home/ana");
    assert_eq!(expand_home_in("~/", home), "/home/ana");
    assert_eq!(expand_home_in("~/x/y", home), "/home/ana/x/y");
    assert_eq!(expand_home_in("~//x", home), "/home/ana/x");
    assert_eq!(expand_home_in("~/x", Some("/")), "/x");
    assert_eq!(expand_home_in("~ana/x", home), "~ana/x");
    assert_eq!(expand_home_in("x/~", home), "x/~");
    assert_eq!(expand_home_in("", home), "");
}

#[test]
fn with_no_home_the_path_is_left_to_fail_loudly() {
    assert_eq!(expand_home_in("~/x", None), "~/x");
    assert_eq!(expand_home_in("~", None), "~");
}

#[test]
fn an_installed_copy_is_compared_by_content() {
    let skill = "---\nname: clispeak\n---\nthis is the skill";
    assert_eq!(state_of(None, skill), State::Absent);
    assert_eq!(state_of(Some(skill), skill), State::Current);
    assert_eq!(state_of(Some("something else"), skill), State::Stale);
    assert_eq!(State::Absent.word(), "absent");
    assert_eq!(State::Current.word(), "current");
    assert_eq!(State::Stale.word(), "stale");
}

fn entry(commands: &[Option<&str>]) -> Vec<Option<String>> {
    commands.iter().map(|c| c.map(String::from)).collect()
}

#[test]
fn the_hook_is_recognised_by_what_it_runs() {
    assert_eq!(hook_command(), "clispeak prefs --brief");
    assert!(entry_is_ours(&entry(&[None, Some("clispeak prefs --brief")])));
    assert!(!entry_is_ours(&entry(&[Some("clispeak prefs"), None])));
    assert!(!entry_is_ours(&entry(&[])));
    let settings = vec![entry(&[Some("other-tool --go")]), entry(&[Some("clispeak prefs --brief")])];
    assert!(hook_present(&settings));
    assert!(!hook_present(&vec![entry(&[Some("other-tool --go")])]));
}

#[test]
fn taking_the_hook_out_leaves_everything_else_and_tidies_up() {
    let settings = vec![
        entry(&[Some("other-tool --go")]),
        entry(&[Some("clispeak prefs --brief")]),
        entry(&[None]),
    ];
    let r = removal(&settings, 0);
    assert_eq!(r.keep, vec![0, 2]);
    assert!(r.removed);
    assert!(!r.drop_list && !r.drop_hooks);

    let only_ours = vec![entry(&[Some("clispeak prefs --brief")])];
    let r = removal(&only_ours, 0);
    assert!(r.keep.is_empty() && r.removed && r.drop_list && r.drop_hooks);
    let r = removal(&only_ours, 2);
    assert!(r.drop_list && !r.drop_hooks, "other kinds of hook keep the table");

    let r = removal(&vec![entry(&[Some("other-tool --go")])], 0);
    assert!(!r.removed, "nothing of ours, nothing to write");
}
