use clispeak::proto::{DeviceInfo, HistoryEntry, Priority, Response, SpacePolicy, SpaceRow, Status, TargetResult};
use clispeak::shown::reply_text;

fn same_as_debug(r: Response) {
    assert_eq!(reply_text(&r), format!("{:?}", r));
}

#[test]
fn a_reply_is_written_as_debug_writes_it() {
    same_as_debug(Response::Done);
    same_as_debug(Response::Accepted { msg_id: "m1".into() });
    same_as_debug(Response::Finished { status: Status::QuietHours });
    same_as_debug(Response::Invite { url: "clispeak://x".into(), expires_in: 600 });
    same_as_debug(Response::Joined { members: 3, space: "work".into() });
    same_as_debug(Response::Preview { label: None, expires_in: 0, endpoint_id: "abc".into() });
    same_as_debug(Response::Preview { label: Some("home".into()), expires_in: 12, endpoint_id: "abc".into() });
    same_as_debug(Response::Renamed { name: "Desk".into() });
    same_as_debug(Response::Left { space: "work".into(), unreached: 2, refounded: true });
    same_as_debug(Response::Rotated { space: "s".into(), devices: vec![] });
    same_as_debug(Response::Targets { devices: vec!["a".into(), "b".into()] });
    same_as_debug(Response::Queue { speaking: Some("m".into()), pending: vec!["n".into()], paused: false });
    same_as_debug(Response::Error { message: "no".into(), kind: Some("no-target".into()) });
}

#[test]
fn nested_rows_are_written_as_debug_writes_them() {
    same_as_debug(Response::Report {
        msg_id: "m".into(),
        targets: vec![
            TargetResult {
                device: "Desk".into(),
                endpoint_id: "e".into(),
                status: Status::Spoken,
                took_ms: Some(12),
                detail: None,
            },
            TargetResult {
                device: "Phone".into(),
                endpoint_id: "f".into(),
                status: Status::Unreachable,
                took_ms: None,
                detail: Some("timed out".into()),
            },
        ],
    });
    same_as_debug(Response::History {
        entries: vec![HistoryEntry {
            msg_id: "m".into(),
            text: "hi".into(),
            from: "Desk".into(),
            at: 5,
            status: Status::Muted,
            priority: Priority::High,
            unheard: true,
        }],
    });
    same_as_debug(Response::Spaces {
        spaces: vec![SpaceRow { label: "main".into(), devices: 2, is_default: true, founded_here: false }],
    });
    same_as_debug(Response::Devices {
        devices: vec![DeviceInfo {
            name: "Desk".into(),
            endpoint_id: "e".into(),
            is_self: false,
            last_seen_secs: Some(40),
            space: None,
        }],
    });
    same_as_debug(Response::Policy {
        muted: false,
        quiet_from: Some("22:00".into()),
        quiet_to: None,
        high_breaks_through: true,
        spaces: vec![SpacePolicy {
            label: "work".into(),
            muted: true,
            quiet_from: None,
            quiet_to: None,
            high_breaks_through: false,
        }],
    });
    same_as_debug(Response::Status {
        device_id: "id".into(),
        key_store: "file".into(),
        engine: "espeak".into(),
        fallback: false,
        queued: 0,
        muted: false,
        quiet: None,
        engine_reason: Some("missing".into()),
    });
}

#[test]
fn quotes_backslashes_and_controls_are_escaped_as_debug_escapes_them() {
    same_as_debug(Response::Renamed { name: "say \"hi\" \\ now\n\t\r\u{0}\u{1b}[31m\u{202e}x\u{7f}".into() });
    same_as_debug(Response::Renamed { name: "Björn's iPad ✓".into() });
}
