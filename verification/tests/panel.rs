use clispeak::history::{Entry, History};
use clispeak::panel::{
    describe, done_reply, invite_reply, joined_reply, left_reply, now_playing_of, preview_reply,
    renamed_reply, speak_reply, spoken_or_why, status_of, Expect, NodeStatus, PolicyView, Startup,
};
use clispeak::proto::{Priority, Response, SpacePolicy, Status, TargetResult};

fn row(status: Status, detail: Option<&str>) -> TargetResult {
    TargetResult {
        device: "d".into(),
        endpoint_id: "x".into(),
        status,
        took_ms: None,
        detail: detail.map(String::from),
    }
}

#[test]
fn a_policy_that_could_not_be_read_is_an_error_not_a_blank_one() {
    let refused = Response::error("policy.json is not valid JSON".into());
    match PolicyView::try_from(refused) {
        Err(why) => assert_eq!(why, "policy.json is not valid JSON"),
        Ok(_) => panic!("a policy that could not be read must not convert"),
    }
}

#[test]
fn an_unexpected_reply_is_also_an_error() {
    assert!(PolicyView::try_from(Response::Done).is_err());
}

#[test]
fn a_real_policy_still_converts() {
    let ok = Response::Policy {
        muted: true,
        quiet_from: Some("22:00".into()),
        quiet_to: Some("07:00".into()),
        high_breaks_through: true,
        spaces: Vec::new(),
    };
    let Ok(view) = PolicyView::try_from(ok) else {
        panic!("a real policy converts")
    };
    assert!(view.muted);
    assert_eq!(view.from.as_deref(), Some("22:00"));
}

#[test]
fn a_queued_message_is_success() {
    let report = vec![TargetResult {
        device: "Phone".into(),
        endpoint_id: "97514a80e9425dd3".into(),
        status: Status::Queued,
        took_ms: None,
        detail: None,
    }];
    assert!(spoken_or_why(&report).is_ok());
}

#[test]
fn a_muted_device_says_why() {
    let report = vec![TargetResult {
        device: "Phone".into(),
        endpoint_id: "x".into(),
        status: Status::Muted,
        took_ms: None,
        detail: None,
    }];
    assert_eq!(spoken_or_why(&report).unwrap_err(), "this device is muted");
}

#[test]
fn an_engine_failure_keeps_its_reason() {
    let report = vec![TargetResult {
        device: "Laptop".into(),
        endpoint_id: "x".into(),
        status: Status::NoEngine,
        took_ms: None,
        detail: Some("Piper is not installed in any of: /app/share/clispeak".into()),
    }];
    assert!(spoken_or_why(&report)
        .unwrap_err()
        .contains("/app/share/clispeak"));
}

#[test]
fn one_device_speaking_is_not_a_failure() {
    assert!(spoken_or_why(&vec![row(Status::Muted, None), row(Status::Spoken, None)]).is_ok());
}

#[test]
fn the_three_states_are_distinguishable() {
    let starting = status_of(&Startup::Starting);
    assert!(starting.starting, "a node coming up says so");
    assert!(starting.failed.is_none());

    let failed = status_of(&Startup::Failed("the keychain is locked".into()));
    assert!(!failed.starting, "a failure is not a transient state");
    assert_eq!(failed.failed.as_deref(), Some("the keychain is locked"));
}

#[test]
fn the_reason_is_carried_not_summarised() {
    let why = "another clispeak node is already running on this machine";
    let status = status_of(&Startup::Failed(why.into()));
    assert_eq!(status.failed.as_deref(), Some(why));
    assert_eq!(
        status.engine, "unavailable",
        "a node that does not exist has no engine, and 'unknown' would \
         read as a device that might still speak"
    );
}

#[test]
fn a_running_node_shows_what_its_status_says() {
    let running = Startup::Running {
        name: "desk".into(),
        device_id: "from-the-node".into(),
        status: Response::Status {
            device_id: "from-the-reply".into(),
            key_store: "file".into(),
            engine: "espeak".into(),
            fallback: false,
            queued: 0,
            muted: false,
            quiet: None,
            engine_reason: Some("no voices".into()),
        },
    };
    let shown = status_of(&running);
    assert_eq!(shown.name, "desk");
    assert_eq!(shown.device_id, "from-the-reply");
    assert_eq!(shown.engine, "espeak");
    assert!(!shown.fallback);
    assert_eq!(shown.reason.as_deref(), Some("no voices"));
    assert!(!shown.starting && shown.failed.is_none());

    let odd = Startup::Running {
        name: "desk".into(),
        device_id: "from-the-node".into(),
        status: Response::Done,
    };
    let shown = status_of(&odd);
    assert_eq!(shown.device_id, "from-the-node");
    assert_eq!(shown.engine, "unknown");
    assert!(shown.fallback);
}

#[test]
fn a_blank_header_assumes_nothing() {
    let n = NodeStatus::default();
    assert_eq!(n.engine, "unknown");
    assert!(n.fallback && !n.starting);
    assert!(n.name.is_empty() && n.device_id.is_empty());
    assert!(n.reason.is_none() && n.failed.is_none());
}

#[test]
fn an_unexpected_reply_is_shown_as_it_came() {
    assert_eq!(describe(Response::Done), "unexpected response: Done");
    assert_eq!(
        describe(Response::error("no such space".into())),
        "no such space"
    );
    assert_eq!(
        PolicyView::try_from(Response::Done).err().as_deref(),
        Some("unexpected reply asking for the policy: Done")
    );
}

#[test]
fn every_refusal_is_listed_with_its_reason() {
    let report = vec![
        row(Status::Muted, None),
        row(Status::QuietHours, Some("ignored")),
        row(Status::NoEngine, None),
        row(Status::Unreachable, Some("timed out")),
        row(Status::Rejected, None),
    ];
    assert_eq!(
        spoken_or_why(&report).unwrap_err(),
        "this device is muted; quiet hours are on; no working speech engine; \
         Unreachable: timed out; Rejected"
    );
    assert_eq!(spoken_or_why(&Vec::new()).unwrap_err(), "nothing was spoken");
    assert_eq!(
        spoken_or_why(&vec![row(Status::NoEngine, Some(""))]).unwrap_err(),
        "nothing was spoken"
    );
}

#[test]
fn a_status_is_named_as_debug_writes_it() {
    for s in [
        Status::Queued,
        Status::Speaking,
        Status::Spoken,
        Status::Muted,
        Status::QuietHours,
        Status::NoEngine,
        Status::Unreachable,
        Status::Rejected,
        Status::Cancelled,
        Status::Dropped,
    ] {
        assert_eq!(s.name(), format!("{s:?}"));
    }
}

#[test]
fn sending_is_read_per_device() {
    let report = Response::Report {
        msg_id: "m".into(),
        targets: vec![row(Status::Muted, None)],
    };
    assert_eq!(speak_reply(report).unwrap_err(), "this device is muted");
    assert!(speak_reply(Response::Accepted { msg_id: "m".into() }).is_ok());
    assert!(speak_reply(Response::Finished { status: Status::Spoken }).is_ok());
    assert_eq!(
        speak_reply(Response::Done).unwrap_err(),
        "unexpected response: Done"
    );
}

#[test]
fn each_request_takes_only_its_own_reply_as_success() {
    assert!(done_reply(Response::Done, Expect::Done).is_ok());
    assert!(done_reply(Response::Spaces { spaces: Vec::new() }, Expect::Spaces).is_ok());
    assert!(done_reply(Response::Accepted { msg_id: "m".into() }, Expect::Accepted).is_ok());
    assert_eq!(
        done_reply(Response::Done, Expect::Spaces).unwrap_err(),
        "unexpected response: Done"
    );
    assert_eq!(
        done_reply(Response::error("gone".into()), Expect::Done).unwrap_err(),
        "gone"
    );
    assert_eq!(
        renamed_reply(Response::Renamed { name: "desk".into() }).unwrap(),
        "desk"
    );
    let joined = joined_reply(Response::Joined {
        members: 3,
        space: "work-2".into(),
    })
    .unwrap();
    assert_eq!((joined.members, joined.space.as_str()), (3, "work-2"));
}

#[test]
fn leaving_is_said_in_one_sentence() {
    let left = |unreached, refounded| {
        left_reply(Response::Left {
            space: "work".into(),
            unreached,
            refounded,
        })
        .unwrap()
    };
    assert_eq!(left(0, false), "left work");
    assert_eq!(
        left(2, true),
        "left work — it was the only one, so an empty space took its place; \
         2 device(s) not reached yet"
    );
    assert_eq!(left(1, false), "left work; 1 device(s) not reached yet");
}

#[test]
fn a_preview_shows_a_short_key_and_an_invite_a_picture() {
    let p = preview_reply(Response::Preview {
        label: Some("home".into()),
        expires_in: 60,
        endpoint_id: "0123456789abcdef0123456789abcdef".into(),
    })
    .unwrap();
    assert_eq!(p.from, "0123456789abcdef");
    assert_eq!(p.label.as_deref(), Some("home"));
    assert_eq!(p.expires_in, 60);

    let i = invite_reply(Response::Invite {
        url: "clispeak://join/ABC".into(),
        expires_in: 300,
    })
    .unwrap();
    assert_eq!(i.url, "clispeak://join/ABC");
    assert!(i.qr.starts_with("<?xml") || i.qr.contains("<svg"));

    let huge = "x".repeat(5000);
    let i = invite_reply(Response::Invite {
        url: huge,
        expires_in: 300,
    })
    .unwrap();
    assert!(i.qr.is_empty(), "an undrawable invite is still an invite");
}

fn entry(id: &str, text: &str, from: &str) -> Entry {
    Entry {
        msg_id: id.into(),
        text: text.into(),
        from: from.into(),
        at: 0,
        status: Status::Speaking,
        priority: Priority::Normal,
        space: None,
    }
}

#[test]
fn the_controls_show_the_newest_message_with_the_speaking_id() {
    let history = History::from_entries(vec![
        entry("m1", "old", "phone"),
        entry("m2", "other", "desk"),
        entry("m1", "new", "laptop"),
    ]);
    let queue = Response::Queue {
        speaking: Some("m1".into()),
        pending: vec!["m3".into(), "m4".into()],
        paused: true,
    };
    let n = now_playing_of(queue, &history);
    assert_eq!(n.msg_id.as_deref(), Some("m1"));
    assert_eq!(n.text.as_deref(), Some("new"));
    assert_eq!(n.from.as_deref(), Some("laptop"));
    assert!(n.paused);
    assert_eq!(n.waiting, 2);

    let n = now_playing_of(Response::Done, &history);
    assert!(n.msg_id.is_none() && n.text.is_none() && !n.paused && n.waiting == 0);
}

#[test]
fn a_space_policy_carries_across() {
    let view = PolicyView::try_from(Response::Policy {
        muted: false,
        quiet_from: None,
        quiet_to: None,
        high_breaks_through: false,
        spaces: vec![SpacePolicy {
            label: "work".into(),
            muted: true,
            quiet_from: Some("18:00".into()),
            quiet_to: Some("09:00".into()),
            high_breaks_through: true,
        }],
    })
    .unwrap();
    assert_eq!(view.spaces.len(), 1);
    let s = &view.spaces[0];
    assert_eq!(s.label, "work");
    assert!(s.muted && s.high_breaks_through);
    assert_eq!(s.from.as_deref(), Some("18:00"));
    assert_eq!(s.to.as_deref(), Some("09:00"));
}
