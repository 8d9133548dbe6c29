use clispeak::node::{
    control_row_here, in_target_order, peer_row, speak_row_here, tally_piece, MAX_MESSAGE_CHARS,
    also_answers_to, both, check_invite, control_outcome, device_names, join_request_refusal,
    join_space, may_act, name_objection, next_space_label, pick_device, pick_space_label, push_target, queue_answer, refusal_detail,
    resolve, sender_name, short_id, space_for, space_labels, too_long, Target, peer_step, PeerStep,
};
use clispeak::node::{startup_refusal, wait_outcome, Listening};
use clispeak::proto::{Control, Member, PeerMessage, Priority, Response, Status};
use clispeak::spaces::{Roster, Spaces};
use clispeak::ticket::Ticket;

#[test]
fn a_device_name_that_would_break_a_selector_is_refused() {
    for bad in ["a,b", "work/desk", "all", "ALL", "here", "Here", "  "] {
        assert!(
            name_objection(bad).is_some(),
            "{bad:?} must not be usable as a device name"
        );
    }
}

#[test]
fn ordinary_device_names_are_accepted() {
    for good in [
        "desk",
        "Björn's iPad",
        "kitchen speaker",
        "here-ish",
        "all-in-one",
    ] {
        assert_eq!(name_objection(good), None, "{good:?} is a fine name");
    }
}

#[test]
fn a_name_objection_says_which_rule() {
    assert_eq!(name_objection(" ").as_deref(), Some("a device name cannot be empty"));
    assert_eq!(
        name_objection("a\u{7}b").as_deref(),
        Some("a device name cannot contain control characters")
    );
    assert_eq!(
        name_objection("Here").as_deref(),
        Some("'Here' already means something to --to; pick another name")
    );
}

#[test]
fn this_device_collapses_however_it_was_named() {
    let mut targets = Vec::new();
    push_target(Target::Here { shadowed: vec![] }, &mut targets);
    push_target(
        Target::Here {
            shadowed: vec!["peer-a".into()],
        },
        &mut targets,
    );
    assert_eq!(targets.len(), 1, "this device speaks once");
}

#[test]
fn collapsing_keeps_what_either_element_shadowed() {
    for order in [false, true] {
        let mut targets = Vec::new();
        let (first, second) = if order {
            (vec![], vec!["peer-a".to_string()])
        } else {
            (vec!["peer-a".to_string()], vec![])
        };
        push_target(Target::Here { shadowed: first }, &mut targets);
        push_target(Target::Here { shadowed: second }, &mut targets);
        assert_eq!(
            targets,
            vec![Target::Here {
                shadowed: vec!["peer-a".to_string()]
            }],
            "a clash seen by either element has to reach the report"
        );
    }
}

#[test]
fn the_same_shadowed_device_is_not_listed_twice() {
    let mut targets = Vec::new();
    for _ in 0..2 {
        push_target(
            Target::Here {
                shadowed: vec!["peer-a".into()],
            },
            &mut targets,
        );
    }
    assert_eq!(
        targets,
        vec![Target::Here {
            shadowed: vec!["peer-a".to_string()]
        }]
    );
}

#[test]
fn the_same_peer_named_twice_is_one_target() {
    let mut targets = Vec::new();
    let peer = || Target::Peer {
        name: "laptop".into(),
        id: "abc".into(),
        space: "s".into(),
    };
    push_target(peer(), &mut targets);
    push_target(peer(), &mut targets);
    assert_eq!(targets.len(), 1);
}

#[test]
fn a_clean_send_says_nothing_extra() {
    assert_eq!(also_answers_to(&vec![]), None);
}

#[test]
fn a_shadowed_device_is_named_and_counted() {
    let note = also_answers_to(&vec!["0123456789abcdef0123456789".to_string()])
        .expect("a shadowed device is worth saying");
    assert!(note.contains("1 other device"), "{note}");
    assert!(note.contains("answers"), "singular verb: {note}");
    assert!(note.contains("0123456789abcdef"), "names it: {note}");
    assert!(
        !note.contains("0123456789abcdef0"),
        "truncated to 16 like the device list: {note}"
    );
}

#[test]
fn two_shadowed_devices_are_counted() {
    let note = also_answers_to(&vec!["aaaa".to_string(), "bbbb".to_string()])
        .expect("two shadowed devices are worth saying");
    assert!(note.contains("2 other devices"), "{note}");
    assert!(note.contains("aaaa") && note.contains("bbbb"), "{note}");
    assert_eq!(
        note,
        "this device's own name was used; 2 other devices also answer to it and were not sent to: aaaa, bbbb"
    );
}

fn pairs(list: &[(&str, &str)]) -> Vec<(String, String)> {
    list.iter().map(|(n, i)| (n.to_string(), i.to_string())).collect()
}

#[test]
fn revoke_refuses_a_name_that_means_two_devices() {
    let members = || {
        pairs(&[
            ("Phone", "aaaa1111aaaa1111aaaa"),
            ("Phone", "bbbb2222bbbb2222bbbb"),
            ("Laptop", "cccc3333cccc3333cccc"),
        ])
    };

    let e = pick_device(&members(), "Phone").expect_err("should refuse");
    assert!(e.contains("more than one"), "{e}");
    assert!(
        e.contains("aaaa1111aaaa1111") && e.contains("bbbb2222bbbb2222"),
        "it must name both candidates: {e}"
    );
    assert_eq!(e.lines().count(), 4, "an id per line, then the fix: {e}");

    assert_eq!(
        pick_device(&members(), "Laptop").expect("unambiguous"),
        "cccc3333cccc3333cccc"
    );
    assert_eq!(
        pick_device(&members(), "bbbb2222bbbb2222").expect("by short id"),
        "bbbb2222bbbb2222bbbb"
    );
    assert_eq!(
        pick_device(&members(), "aaaa1111aaaa1111aaaa").expect("by whole id"),
        "aaaa1111aaaa1111aaaa"
    );
    let e = pick_device(&pairs(&[("A", "ff11"), ("B", "ff22")]), "ff").expect_err("ambiguous prefix");
    assert!(e.contains("prefix"), "{e}");
    assert_eq!(e, "'ff' is a prefix of 2 device ids here. Give more of it.");

    assert_eq!(
        pick_device(&members(), "nobody"),
        Err("no device named 'nobody' in this space".to_string())
    );
}

#[test]
fn short_ids_count_characters() {
    assert_eq!(short_id("ééééééééééééééééé"), "éééééééééééééééé");
    assert_eq!(short_id("abc"), "abc");
}

#[test]
fn a_refusal_says_why_and_notes_are_both_kept() {
    assert_eq!(refusal_detail(&Status::Muted).as_deref(), Some("device is muted"));
    assert_eq!(refusal_detail(&Status::Spoken), None);
    assert_eq!(both(Some("a".into()), Some("b".into())).as_deref(), Some("a; b"));
    assert_eq!(both(None, Some("b".into())).as_deref(), Some("b"));
    assert_eq!(both(None, None), None);
}

#[test]
fn a_control_reports_what_it_did() {
    assert_eq!(
        control_outcome(&Control::Stop { msg_id: None }, 3),
        (Status::Cancelled, Some("3 messages".to_string()))
    );
    assert_eq!(
        control_outcome(&Control::Stop { msg_id: None }, 0),
        (Status::Dropped, Some("nothing was playing or waiting".to_string()))
    );
    assert_eq!(
        control_outcome(&Control::Stop { msg_id: Some("m".into()) }, 0),
        (Status::Dropped, Some("no such message here".to_string()))
    );
    assert_eq!(control_outcome(&Control::Skip, 1), (Status::Cancelled, None));
    assert_eq!(
        control_outcome(&Control::Pause, 0),
        (Status::Queued, Some("held; nothing was playing".to_string()))
    );
    assert_eq!(control_outcome(&Control::Resume, 1), (Status::Speaking, None));
}

// ------------------------------------------------------------ joining

fn invite(token: &str, expires_at: u64, space: Option<&str>) -> Ticket {
    Ticket {
        endpoint_id: "host".into(),
        token: token.into(),
        expires_at,
        space: space.map(str::to_string),
        label: None,
    }
}

#[test]
fn a_wrong_token_is_refused_and_leaves_the_invite_usable() {
    let mut pending = Some(invite("right", 1_000, None));
    assert_eq!(
        check_invite(&mut pending, 900, "wrong"),
        Err("that invite is not valid".to_string())
    );
    assert!(pending.is_some(), "the invite is still open");
    assert_eq!(check_invite(&mut pending, 900, "right"), Ok(None));
}

#[test]
fn a_used_invite_cannot_be_used_again() {
    let mut pending = Some(invite("t", 1_000, Some("space-a")));
    assert_eq!(check_invite(&mut pending, 900, "t"), Ok(Some("space-a".to_string())));
    assert!(pending.is_none());
    let again = check_invite(&mut pending, 900, "t").expect_err("used");
    assert!(again.starts_with("the inviting device has no invite open"), "{again}");
}

#[test]
fn an_expired_invite_is_refused_and_thrown_away() {
    let mut pending = Some(invite("t", 1_000, None));
    assert_eq!(
        check_invite(&mut pending, 1_001, "t"),
        Err("that invite has expired; show a new one on the inviting device".to_string())
    );
    assert!(pending.is_none());
}

// ------------------------------------------------------------ resolving

fn member(key: &str, name: &str) -> Member {
    Member {
        endpoint_id: key.into(),
        name: name.into(),
        invited_by: key.into(),
        signature: Vec::new(),
        joined_at: 1,
        renamed_at: 1,
    }
}

fn roster(founder: &str, members: &[(&str, &str)]) -> Roster {
    Roster {
        founder: founder.into(),
        founded_at: 1,
        members: members.iter().map(|(k, n)| member(k, n)).collect(),
        revoked: Vec::new(),
    }
}

/// This device is `Laptop`; `main` holds it and `Phone`, `work` holds it and
/// `Desk`. `main` is the default.
fn two_spaces() -> Spaces {
    let mut spaces = Spaces::default();
    spaces.insert(roster("lap", &[("lap", "Laptop"), ("pho", "Phone")]), "main");
    spaces.insert(roster("dsk", &[("dsk", "Desk"), ("lap", "Laptop")]), "work");
    spaces
}

fn names(targets: &[Target]) -> Vec<String> {
    let mut v: Vec<String> = targets
        .iter()
        .map(|t| match t {
            Target::Here { .. } => "Laptop".to_string(),
            Target::Peer { name, .. } => name.clone(),
        })
        .collect();
    v.sort();
    v
}

fn resolved(spaces: &Spaces, selector: &str) -> Result<Vec<String>, String> {
    resolve(spaces, "lap", "Laptop", selector).map(|t| names(&t))
}

#[test]
fn all_is_one_space_and_never_every_space() {
    let spaces = two_spaces();
    assert_eq!(resolved(&spaces, "all"), Ok(vec!["Laptop".into(), "Phone".into()]));
    assert_eq!(resolved(&spaces, "work/all"), Ok(vec!["Desk".into(), "Laptop".into()]));
}

#[test]
fn duplicates_collapse() {
    let spaces = two_spaces();
    let got = resolve(&spaces, "lap", "Laptop", "all,Phone,here,Phone").expect("ok");
    assert_eq!(got.len(), 2, "{got:?}");
}

#[test]
fn a_name_unique_outside_the_default_space_still_resolves() {
    let spaces = two_spaces();
    assert_eq!(resolved(&spaces, "Desk"), Ok(vec!["Desk".into()]));
    assert_eq!(resolved(&spaces, " work / Desk "), Ok(vec!["Desk".into()]));
}

#[test]
fn an_unknown_name_lists_the_known_ones() {
    let spaces = two_spaces();
    let err = resolved(&spaces, "Pixel").expect_err("should refuse");
    assert_eq!(
        err,
        "no device named 'Pixel' in this space. Known: Laptop, main/Laptop, main/Phone, work/Desk, work/Laptop"
    );
    assert!(resolved(&spaces, "Phone,Pixel").is_err());
}

#[test]
fn an_unknown_space_lists_the_known_ones() {
    let spaces = two_spaces();
    let err = resolved(&spaces, "home/Desk").expect_err("should refuse");
    assert_eq!(err, "no space called 'home'. Known: main, work");
    assert_eq!(space_labels(&spaces), "main, work");
}

#[test]
fn two_devices_with_one_name_in_one_space_are_not_told_to_qualify() {
    let mut spaces = Spaces::default();
    spaces.insert(
        roster("lap", &[("lap", "Laptop"), ("aaaa", "Twin"), ("bbbb", "Twin")]),
        "main",
    );
    let err = resolved(&spaces, "Twin").expect_err("ambiguous");
    assert!(err.contains("same space"), "{err}");
    assert!(!err.contains('/'), "{err}");
    assert!(err.contains("rename"), "{err}");
}

#[test]
fn one_name_in_two_spaces_asks_to_be_qualified() {
    let mut spaces = Spaces::default();
    spaces.insert(roster("lap", &[("lap", "Laptop"), ("pho", "Phone")]), "main");
    spaces.insert(roster("wtv", &[("wtv", "TV"), ("lap", "Laptop")]), "work");
    spaces.insert(roster("htv", &[("htv", "TV"), ("lap", "Laptop")]), "home");
    let err = resolved(&spaces, "TV").expect_err("ambiguous");
    assert_eq!(
        err,
        "'TV' exists in 2 spaces (home, work). Qualify it: home/TV  or  work/TV"
    );
    assert_eq!(resolved(&spaces, "work/TV"), Ok(vec!["TV".into()]));
}

#[test]
fn the_default_space_wins_a_shared_name_without_an_error() {
    let mut spaces = Spaces::default();
    let home = spaces.insert(roster("lap", &[("lap", "Laptop"), ("htv", "TV")]), "home");
    spaces.insert(roster("wtv", &[("wtv", "TV"), ("lap", "Laptop")]), "work");
    spaces.set_default(&home).expect("default");
    let got = resolve(&spaces, "lap", "Laptop", "TV").expect("resolves");
    assert!(matches!(&got[..], [Target::Peer { id, .. }] if id == "htv"), "{got:?}");
}

#[test]
fn our_own_name_wins_but_the_peers_it_beat_are_reported() {
    let mut spaces = Spaces::default();
    spaces.insert(roster("lap", &[("lap", "Laptop"), ("other", "Laptop")]), "main");
    let got = resolve(&spaces, "lap", "Laptop", "Laptop").expect("resolves");
    assert_eq!(got, vec![Target::Here { shadowed: vec!["other".to_string()] }]);
    let got = resolve(&spaces, "lap", "Laptop", "here").expect("resolves");
    assert_eq!(got, vec![Target::Here { shadowed: vec![] }]);
}

#[test]
fn a_selector_of_nothing_names_no_devices() {
    let spaces = two_spaces();
    assert_eq!(resolved(&spaces, " , "), Err("' , ' names no devices".to_string()));
    assert_eq!(device_names(&Spaces::default(), "Me"), "Me");
}

#[test]
fn an_invite_for_a_space_that_is_gone_admits_nobody() {
    let spaces = two_spaces();
    let work = spaces.by_label("work").expect("work");
    assert_eq!(join_space(&spaces, Some(work.clone())), Ok(work));
    assert_eq!(
        join_space(&spaces, Some("gone".into())),
        Err("the space that invite was for is no longer on this device. Show a new invite there".to_string())
    );
    assert_eq!(join_space(&spaces, None), Ok(spaces.default_id().to_string()));
}

#[test]
fn a_stranger_cannot_make_this_device_speak() {
    let spaces = two_spaces();
    let main = spaces.by_label("main").expect("main");
    let work = spaces.by_label("work").expect("work");
    // A member of `main` may act there and nowhere else.
    assert!(may_act(&spaces, &Some(main.clone()), "pho"));
    assert!(!may_act(&spaces, &Some(work.clone()), "pho"));
    assert!(!may_act(&spaces, &Some(main.clone()), "stranger"));
    assert!(!may_act(&spaces, &None, "pho"));
    // A message names its space, or is placed where the peer is known.
    assert_eq!(space_for(&spaces, Some(work.clone()), "dsk"), Some(work.clone()));
    assert_eq!(space_for(&spaces, Some("gone".into()), "dsk"), None);
    assert_eq!(space_for(&spaces, None, "dsk"), Some(work));
    assert_eq!(space_for(&spaces, None, "pho"), Some(main));
    assert_eq!(space_for(&spaces, None, "stranger"), None);
}

#[test]
fn a_join_naming_another_device_is_refused() {
    assert_eq!(join_request_refusal("me", "me"), None);
    assert_eq!(
        join_request_refusal("someone-else", "me").as_deref(),
        Some("the join request names a different device than the one that sent it")
    );
}

#[test]
fn a_sender_is_named_by_its_label() {
    let spaces = two_spaces();
    assert_eq!(sender_name(&spaces, "dsk").as_deref(), Some("Desk"));
    assert_eq!(sender_name(&spaces, "stranger"), None);
}

#[test]
fn a_refusal_from_the_queue_is_the_final_word() {
    assert_eq!(
        queue_answer(Response::Accepted { msg_id: "m".into() }),
        (Status::Queued, None, false)
    );
    assert_eq!(
        queue_answer(Response::Finished { status: Status::Muted }),
        (Status::Muted, Some("device is muted".to_string()), true)
    );
    assert_eq!(
        queue_answer(Response::error("no engine".into())),
        (Status::NoEngine, Some("no engine".to_string()), true)
    );
    assert_eq!(queue_answer(Response::Done), (Status::Dropped, None, true));
    assert_eq!(too_long(), "message longer than 100000 characters; send it in parts");
}

#[test]
fn a_joined_space_keeps_the_name_it_arrived_with() {
    let spaces = Spaces::default();
    assert_eq!(pick_space_label(&spaces, None, &[None, Some("work"), None]), "work");
}

#[test]
fn the_joiner_gets_the_last_word_on_the_name() {
    let spaces = Spaces::default();
    assert_eq!(
        pick_space_label(&spaces, None, &[Some("theirs"), Some("ours"), None]),
        "theirs"
    );
}

#[test]
fn a_name_already_taken_is_skipped() {
    let mut spaces = Spaces::default();
    spaces.insert(roster("me", &[("me", "me")]), "work");
    assert_eq!(pick_space_label(&spaces, None, &[Some("work"), None, None]), "space-2");
}

#[test]
fn nothing_to_go_on_falls_back_to_the_counter() {
    let spaces = Spaces::default();
    assert_eq!(pick_space_label(&spaces, None, &[None, None, None]), "space-2");
}

#[test]
fn a_space_rejoining_under_its_own_name_keeps_it() {
    let mut spaces = Spaces::default();
    let id = spaces.insert(roster("me", &[("me", "me")]), "work");
    assert_eq!(
        pick_space_label(&spaces, Some(id.as_str()), &[Some("work"), None, None]),
        "work",
        "its own name is not taken from itself"
    );
    assert_eq!(
        pick_space_label(&spaces, None, &[Some("work"), None, None]),
        "space-2",
        "and it is still taken from anybody else"
    );
}

#[test]
fn a_name_that_would_break_a_selector_is_not_taken() {
    let spaces = Spaces::default();
    assert_eq!(pick_space_label(&spaces, None, &[Some("a/b"), None, None]), "space-2");
    assert_eq!(pick_space_label(&spaces, None, &[Some("a,b"), None, None]), "space-2");
    assert_eq!(pick_space_label(&spaces, None, &[Some("   "), None, None]), "space-2");
}

#[test]
fn the_counter_skips_every_name_already_used() {
    let mut spaces = Spaces::default();
    spaces.insert(roster("a", &[("a", "a")]), "space-2");
    spaces.insert(roster("b", &[("b", "b")]), "space-3");
    spaces.insert(roster("c", &[("c", "c")]), "space-5");
    assert_eq!(next_space_label(&spaces), "space-4");
    assert_eq!(pick_space_label(&spaces, None, &[Some("  den "), None]), "den");
}

#[test]
fn a_stream_past_the_bound_is_refused_and_the_count_saturates() {
    let mut seen = 0usize;
    let block = "a".repeat(10_000);
    let mut accepted = 0;
    for _ in 0..100 {
        if !tally_piece(&mut seen, &block) {
            break;
        }
        accepted += 1;
    }
    assert_eq!(accepted, 10, "exactly the bound is still within it");
    assert!(seen > MAX_MESSAGE_CHARS);

    let mut seen = usize::MAX - 1;
    assert!(!tally_piece(&mut seen, "abc"));
    assert_eq!(seen, usize::MAX, "saturating, not wrapping back into range");

    let mut seen = 0;
    assert!(tally_piece(&mut seen, "Tea is ready."));
    assert_eq!(seen, 13);
}

fn answer(device: &str, status: Status) -> clispeak::proto::TargetResult {
    clispeak::proto::TargetResult {
        device: device.into(),
        endpoint_id: format!("id-{device}"),
        status,
        took_ms: None,
        detail: None,
    }
}

#[test]
fn answers_come_back_in_target_order_whatever_order_they_finish() {
    let done = vec![
        (2, answer("c", Status::Spoken)),
        (0, answer("a", Status::Muted)),
        (1, answer("b", Status::Queued)),
    ];
    let rows = in_target_order(&done);
    let names: Vec<&str> = rows.iter().map(|r| r.device.as_str()).collect();
    assert_eq!(names, vec!["a", "b", "c"]);
    assert_eq!(rows[0].status, Status::Muted);

    // A missing answer (a task that failed) shrinks nothing else, and two
    // answers under one number keep the order they arrived in.
    let done = vec![
        (5, answer("late", Status::Spoken)),
        (1, answer("first", Status::Spoken)),
        (1, answer("second", Status::Spoken)),
    ];
    let names: Vec<String> = in_target_order(&done).into_iter().map(|r| r.device).collect();
    assert_eq!(names, vec!["first", "second", "late"]);
    assert!(in_target_order(&Vec::new()).is_empty());
}

#[test]
fn report_rows_carry_every_note() {
    let shadowed = vec!["0123456789abcdef0123".to_string()];
    let r = control_row_here(
        "Laptop",
        "me",
        (Status::Cancelled, Some("2 messages".into())),
        &shadowed,
    );
    assert_eq!(r.device, "Laptop");
    assert_eq!(r.endpoint_id, "me");
    let detail = r.detail.expect("both notes");
    assert!(detail.ends_with("; 2 messages"), "{detail}");
    assert!(detail.contains("0123456789abcdef"), "{detail}");

    let r = speak_row_here("Laptop", "me", (Status::Muted, None, Some("device is muted".into())), &shadowed);
    assert_eq!(r.detail.as_deref(), Some("device is muted"), "a refusal is not overwritten");
    let r = speak_row_here("Laptop", "me", (Status::Spoken, Some(40), None), &Vec::new());
    assert_eq!(r.took_ms, Some(40));
    assert!(r.detail.is_none());

    let r = peer_row("Desk".into(), "dsk".into(), Err("connecting to peer: no answer in 90s".into()), Some(3));
    assert_eq!(r.status, Status::Unreachable);
    assert!(r.took_ms.is_none());
    assert_eq!(r.detail.as_deref(), Some("connecting to peer: no answer in 90s"));
    let r = peer_row("Desk".into(), "dsk".into(), Ok((Status::Spoken, None)), Some(3));
    assert_eq!((r.status, r.took_ms), (Status::Spoken, Some(3)));
}

#[test]
fn a_message_id_is_the_low_half_of_the_clock_in_hex() {
    assert_eq!(clispeak::node::msg_id_at(0), "m_0");
    assert_eq!(clispeak::node::msg_id_at(0x1234_abcd), "m_1234abcd");
    assert_eq!(clispeak::node::msg_id_at(0xffff_0000_0000_00ff), "m_ff");
    let nanos: u128 = 1_700_000_000_123_456_789;
    assert_eq!(
        clispeak::node::msg_id_at(nanos),
        format!("m_{:x}", nanos as u64 & 0xffff_ffff)
    );
}

#[test]
fn a_peer_is_sent_the_opening_each_chunk_in_order_and_the_end() {
    let chunks = vec!["First sentence.".to_string(), "Second.".to_string()];
    let stream = clispeak::node::speak_stream("m_1", Priority::High, true, None, "lap:1", Some(30), &chunks);
    assert_eq!(stream.len(), 4);
    match &stream[0] {
        PeerMessage::SpeakBegin {
            msg_id,
            priority,
            wait,
            voice,
            space,
            timeout_secs,
        } => {
            assert_eq!(msg_id, "m_1");
            assert_eq!(*priority, Priority::High);
            assert!(*wait);
            assert!(voice.is_none());
            assert_eq!(space.as_deref(), Some("lap:1"));
            assert_eq!(*timeout_secs, Some(30));
        }
        other => panic!("not an opening: {other:?}"),
    }
    for (k, text) in chunks.iter().enumerate() {
        match &stream[k + 1] {
            PeerMessage::Chunk { seq, text: t } => {
                assert_eq!(*seq as usize, k);
                assert_eq!(t, text);
            }
            other => panic!("not a chunk: {other:?}"),
        }
    }
    assert!(matches!(stream[3], PeerMessage::SpeakEnd));
}

fn join_request(endpoint_id: &str, token: &str) -> PeerMessage {
    PeerMessage::JoinRequest {
        endpoint_id: endpoint_id.into(),
        display_name: "New phone".into(),
        token: token.into(),
    }
}

fn speak_begin(space: Option<String>) -> PeerMessage {
    PeerMessage::SpeakBegin {
        msg_id: "m1".into(),
        priority: Priority::Normal,
        wait: true,
        voice: None,
        space,
        timeout_secs: None,
    }
}

#[test]
fn a_join_request_naming_a_third_device_admits_nobody_and_keeps_the_invite() {
    let spaces = two_spaces();
    let mut pending = Some(invite("t", 1_000, None));
    match peer_step(&spaces, &mut pending, "sender", join_request("someone-else", "t"), 900) {
        PeerStep::Reply(PeerMessage::JoinRefused { reason }) => assert_eq!(
            reason,
            "the join request names a different device than the one that sent it"
        ),
        _ => panic!("must be refused"),
    }
    assert!(pending.is_some(), "the invite stays open");
}

#[test]
fn a_join_with_the_right_token_is_admitted_once() {
    let spaces = two_spaces();
    let mut pending = Some(invite("t", 1_000, None));
    match peer_step(&spaces, &mut pending, "joiner", join_request("joiner", "t"), 900) {
        PeerStep::Admit { space, endpoint_id, name } => {
            assert_eq!(space, spaces.default_id());
            assert_eq!(endpoint_id, "joiner");
            assert_eq!(name, "New phone");
        }
        _ => panic!("must be admitted"),
    }
    assert!(pending.is_none(), "the invite is used up");
    match peer_step(&spaces, &mut pending, "joiner", join_request("joiner", "t"), 900) {
        PeerStep::Reply(PeerMessage::JoinRefused { reason }) => assert!(reason.contains("no invite open")),
        _ => panic!("a used invite admits nobody"),
    }
}

#[test]
fn a_wrong_token_is_refused_and_the_invite_stays_open() {
    let spaces = two_spaces();
    let mut pending = Some(invite("t", 1_000, None));
    match peer_step(&spaces, &mut pending, "joiner", join_request("joiner", "x"), 900) {
        PeerStep::Reply(PeerMessage::JoinRefused { reason }) => assert_eq!(reason, "that invite is not valid"),
        _ => panic!("must be refused"),
    }
    assert!(pending.is_some());
}

#[test]
fn speech_from_outside_the_space_is_rejected_and_not_heard() {
    let spaces = two_spaces();
    let main = spaces.by_label("main").expect("main");
    let work = spaces.by_label("work").expect("work");
    let mut pending = None;
    match peer_step(&spaces, &mut pending, "stranger", speak_begin(None), 0) {
        PeerStep::Reply(PeerMessage::Report { status, detail }) => {
            assert_eq!(status, Status::Rejected);
            assert_eq!(detail.as_deref(), Some("this device is not in that space"));
        }
        _ => panic!("a stranger is refused"),
    }
    assert!(matches!(
        peer_step(&spaces, &mut pending, "pho", speak_begin(Some(work)), 0),
        PeerStep::Reply(PeerMessage::Report { status: Status::Rejected, .. })
    ));
    match peer_step(&spaces, &mut pending, "pho", speak_begin(Some(main.clone())), 0) {
        PeerStep::Listen { space, msg_id, from, .. } => {
            assert_eq!(space, main);
            assert_eq!(msg_id, "m1");
            assert!(from.is_some());
        }
        _ => panic!("a member may speak in its own space"),
    }
}

#[test]
fn a_roster_sync_from_a_non_member_is_refused() {
    let spaces = two_spaces();
    let mut pending = None;
    let sync = PeerMessage::RosterSync { members: vec![], revoked: vec![], space: None };
    match peer_step(&spaces, &mut pending, "stranger", sync, 0) {
        PeerStep::Reply(PeerMessage::JoinRefused { reason }) => assert_eq!(reason, "not a member of this space"),
        _ => panic!("must be refused"),
    }
    let sync = PeerMessage::RosterSync { members: vec![], revoked: vec![], space: None };
    assert!(matches!(peer_step(&spaces, &mut pending, "pho", sync, 0), PeerStep::Merge { .. }));
}

#[test]
fn a_control_from_a_stranger_is_rejected() {
    let spaces = two_spaces();
    let mut pending = None;
    let stop = PeerMessage::Control { control: Control::Skip };
    match peer_step(&spaces, &mut pending, "stranger", stop, 0) {
        PeerStep::Reply(PeerMessage::Report { status, detail }) => {
            assert_eq!(status, Status::Rejected);
            assert_eq!(detail, None);
        }
        _ => panic!("must be refused"),
    }
    let skip = PeerMessage::Control { control: Control::Skip };
    assert!(matches!(peer_step(&spaces, &mut pending, "pho", skip, 0), PeerStep::Apply(Control::Skip)));
    let hello = PeerMessage::Hello { proto_version: 1, endpoint_id: "pho".into(), display_name: "Phone".into() };
    assert!(matches!(peer_step(&spaces, &mut pending, "pho", hello, 0), PeerStep::Ignore));
    assert!(matches!(peer_step(&spaces, &mut pending, "pho", PeerMessage::SpeakEnd, 0), PeerStep::Unexpected));
}

#[test]
fn an_arriving_message_is_recorded_whole_and_queued() {
    let chunks = vec!["Tea is ready.".to_string(), "Come down.".to_string()];
    let e = clispeak::node::arrival_entry("m9".into(), &chunks, None, "Laptop", 77, Priority::High, Some("s".into()));
    assert_eq!(e.msg_id, "m9");
    assert_eq!(e.text, "Tea is ready. Come down.");
    assert_eq!(e.from, "Laptop");
    assert_eq!(e.at, 77);
    assert_eq!(e.status, Status::Queued);
    assert_eq!(e.priority, Priority::High);
    assert_eq!(e.space.as_deref(), Some("s"));
    let e = clispeak::node::arrival_entry("m".into(), &chunks, Some("Desk".into()), "Laptop", 0, Priority::Normal, None);
    assert_eq!(e.from, "Desk");
}

#[test]
fn a_wait_that_runs_out_says_the_message_is_still_being_spoken() {
    assert_eq!(
        wait_outcome(None, 5),
        (Status::Speaking, None, Some("still speaking; --timeout to wait longer".to_string()))
    );
    assert_eq!(
        wait_outcome(Some((Status::Spoken, None)), 1200),
        (Status::Spoken, Some(1200), None)
    );
}

#[test]
fn a_socket_held_by_a_stranger_is_told_apart_from_another_node() {
    assert_eq!(startup_refusal(&Listening::Nothing, "clispeak.sock"), None);
    assert_eq!(
        startup_refusal(&Listening::Node, "clispeak.sock").as_deref(),
        Some("another clispeak node is already running on clispeak.sock. Only one can hold this device's identity at a time — quit the other one")
    );
    let stranger = startup_refusal(&Listening::Stranger("bad proof".into()), "clispeak.sock").unwrap();
    assert!(stranger.starts_with(&format!("something else on this machine holds the socket named {:?}, and it is not", "clispeak.sock")));
    assert!(stranger.contains(": bad proof. The socket name is unprotected"));
}

#[test]
fn a_run_of_pushes_keeps_each_device_once_in_first_place() {
    let peer = |n: &str| Target::Peer { name: n.into(), id: format!("{n}-id"), space: "s".into() };
    let mut targets = Vec::new();
    push_target(peer("a"), &mut targets);
    push_target(Target::Here { shadowed: vec![] }, &mut targets);
    push_target(peer("a"), &mut targets);
    push_target(peer("b"), &mut targets);
    push_target(Target::Here { shadowed: vec!["x".into()] }, &mut targets);
    assert_eq!(
        targets,
        vec![peer("a"), Target::Here { shadowed: vec!["x".into()] }, peer("b")]
    );
}
