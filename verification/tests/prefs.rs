use clispeak::prefs::{self, age, allows, brief, render, Agreement, Field, Kind, List, Output, Rule};

const NOW: u64 = 1_750_000_000;

fn rule(text: &str) -> Rule {
    Rule {
        rule: text.into(),
        by: "Antigravity".into(),
        at: NOW,
    }
}

fn named(name: &str, output: Output) -> Agreement {
    Agreement {
        address_me_as: Some(name.into()),
        output: Some(output),
        ..Agreement::default()
    }
}

#[test]
fn nothing_recorded_enforces_nothing() {
    let empty = Agreement::default();
    assert!(!empty.configured());
    assert!(allows(&empty, "anything at all").is_ok());
}

#[test]
fn terminal_refuses_and_says_it_is_theirs_to_change() {
    let a = named("Patrick", Output::Terminal);
    let refusal = allows(&a, "Patrick, this is Antigravity. Hello.").expect_err("refused");
    assert!(matches!(refusal.kind, Kind::Silenced));
    assert!(
        refusal.instead.is_none(),
        "there is no rewrite for this — the message is fine and the \
         channel is closed"
    );
    assert!(
        refusal.message.contains("do not route around it"),
        "an agent that reroutes to another device defeats the point: {}",
        refusal.message
    );
}

#[test]
fn a_message_that_does_not_name_them_is_refused_with_a_rewrite() {
    let a = named("Patrick", Output::Brief);
    let refusal = allows(&a, "The deploy finished.").expect_err("refused");
    assert!(matches!(refusal.kind, Kind::NeedsOpener));
    let instead = refusal.instead.expect("a rewrite");
    assert!(
        instead.starts_with("Patrick,"),
        "the rewrite has to satisfy the rule it is offered for: {instead}"
    );
    assert!(
        instead.ends_with("The deploy finished."),
        "and has to keep what was being said: {instead}"
    );
}

#[test]
fn a_message_that_names_them_passes() {
    let a = named("Patrick", Output::Brief);
    assert!(allows(&a, "Patrick, this is Antigravity. Done.").is_ok());
    assert!(allows(&a, "patrick, this is Antigravity. Done.").is_ok(), "case");
    assert!(allows(&a, "  Patrick: done.").is_ok(), "leading space");
}

#[test]
fn a_longer_name_starting_the_same_way_is_not_the_name() {
    let a = named("Patrick", Output::Brief);
    assert!(allows(&a, "Patrickson said the build broke.").is_err());
}

#[test]
fn speech_mode_drops_the_opener() {
    let a = named("Patrick", Output::Speech);
    assert!(allows(&a, "The deploy finished.").is_ok());
}

#[test]
fn with_no_name_recorded_there_is_nothing_to_check() {
    let a = Agreement {
        output: Some(Output::Brief),
        ..Agreement::default()
    };
    assert!(allows(&a, "The deploy finished.").is_ok());
}

#[test]
fn never_speak_is_not_enforced_and_that_is_deliberate() {
    let mut a = named("Patrick", Output::Brief);
    a.never_speak = vec![rule("credentials")];
    assert!(allows(&a, "Patrick, the credentials test passed.").is_ok());
}

#[test]
fn the_brief_line_is_empty_until_something_is_recorded() {
    assert!(brief(&Agreement::default()).is_empty());
    assert!(!brief(&named("Patrick", Output::Brief)).is_empty());
}

#[test]
fn an_unknown_output_mode_lists_the_real_ones() {
    let e = Output::parse("loud").expect_err("not a mode");
    for mode in ["terminal", "brief", "full", "speech"] {
        assert!(e.contains(mode), "{mode} missing from: {e}");
    }
}

#[test]
fn ages_are_said_the_way_a_person_would() {
    assert_eq!(age(0, NOW), "unknown");
    assert_eq!(age(NOW, NOW), "today");
    assert_eq!(age(NOW - 86_400, NOW), "yesterday");
    assert_eq!(age(NOW - 3 * 86_400, NOW), "3 days ago");
    // Rounded, not truncated: twenty-three hours ago is yesterday to
    // everyone except a clock.
    assert_eq!(age(NOW - 82_800, NOW), "yesterday");
}

#[test]
fn longer_ages_are_weeks_then_months() {
    assert_eq!(age(NOW - 17 * 86_400, NOW), "2 weeks ago");
    assert_eq!(age(NOW - 18 * 86_400, NOW), "3 weeks ago");
    assert_eq!(age(NOW - 75 * 86_400, NOW), "3 months ago");
    assert_eq!(age(NOW - 74 * 86_400, NOW), "2 months ago");
    // Half a day rounds up.
    assert_eq!(age(NOW - 43_200, NOW), "yesterday");
    assert_eq!(age(NOW - 43_199, NOW), "today");
    // A clock behind the record counts as no time.
    assert_eq!(age(NOW + 5, NOW), "today");
}

#[test]
fn a_mode_is_read_in_any_case_and_spacing() {
    assert_eq!(Output::parse("  Speech "), Ok(Output::Speech));
    assert_eq!(Output::parse("TERMINAL"), Ok(Output::Terminal));
    assert_eq!(
        Output::parse(" Loud "),
        Err("'loud' is not an output mode. Use terminal (write only), brief (write it all, say a summary), full (say the same text), or speech (say everything, keep the terminal quiet)".to_string())
    );
    assert_eq!(Output::Brief.as_str(), "brief");
    assert!(Output::Brief.spoken_length().is_some());
    assert!(Output::Full.spoken_length().is_none());
}

#[test]
fn adding_trims_refuses_blanks_and_refuses_a_repeat_in_any_case() {
    let mut a = Agreement::default();
    assert_eq!(
        prefs::add(&mut a, List::SpeakWhen, "   ", "Antigravity", NOW),
        Err("a rule needs some words in it".to_string())
    );
    prefs::add(&mut a, List::SpeakWhen, "  builds finish ", "Antigravity", NOW).expect("added");
    assert_eq!(a.speak_when, vec![rule("builds finish")]);
    assert_eq!(
        prefs::add(&mut a, List::SpeakWhen, "BUILDS FINISH", "Zed", NOW),
        Err("speak-when already says that".to_string())
    );
    // The other list is a different list.
    prefs::add(&mut a, List::NeverSpeak, "builds finish", "Zed", NOW).expect("added");
    assert_eq!(a.never_speak.len(), 1);
    assert!(a.configured());
}

#[test]
fn removing_is_one_based_and_names_what_is_there() {
    let mut a = Agreement::default();
    a.speak_when = vec![rule("one"), rule("two")];
    assert_eq!(
        prefs::remove(&mut a, List::SpeakWhen, 0),
        Err("speak-when has 2 rule(s); there is no 0".to_string())
    );
    assert_eq!(
        prefs::remove(&mut a, List::SpeakWhen, 3),
        Err("speak-when has 2 rule(s); there is no 3".to_string())
    );
    prefs::remove(&mut a, List::SpeakWhen, 1).expect("removed");
    assert_eq!(a.speak_when, vec![rule("two")]);
}

#[test]
fn setting_a_name_trims_it_and_setting_a_mode_parses_it() {
    let mut a = Agreement::default();
    assert_eq!(
        prefs::set(&mut a, Field::AddressMeAs, "  "),
        Err("a name needs some letters in it".to_string())
    );
    prefs::set(&mut a, Field::AddressMeAs, " Sam ").expect("set");
    assert_eq!(a.address_me_as.as_deref(), Some("Sam"));
    assert!(prefs::set(&mut a, Field::Output, "whisper").is_err());
    assert_eq!(a.output, None);
    prefs::set(&mut a, Field::Output, "full").expect("set");
    assert_eq!(a.output(), Output::Full);
}

#[test]
fn the_read_back_numbers_rules_and_says_who_and_when() {
    let mut a = named("Patrick", Output::Brief);
    a.speak_when = vec![
        rule("builds finish"),
        Rule {
            rule: "tests fail".into(),
            by: String::new(),
            at: NOW - 2 * 86_400,
        },
    ];
    let text = render(&a, NOW);
    assert_eq!(
        text,
        "Call them: Patrick\n\
         Output: brief — write the detail, speak a short summary of it\n\
         Spoken length: about forty words — a listener cannot skim, scroll back or re-read, so say the point and leave the detail in the terminal\n\
         \n\
         Speak when\n\
         \x20 1. builds finish   (Antigravity, today)\n\
         \x20 2. tests fail   (unknown, 2 days ago)\n"
    );
    assert!(render(&Agreement::default(), NOW).starts_with("Nothing recorded yet"));
}

#[test]
fn the_brief_line_joins_every_clause() {
    let mut a = named("Patrick", Output::Full);
    a.speak_when = vec![rule("builds finish"), rule("tests fail")];
    a.never_speak = vec![rule("names")];
    assert_eq!(
        brief(&a),
        "clispeak agreement — output full, call them Patrick, speak when builds finish; tests fail, never speak names. Full text: clispeak prefs"
    );
}
