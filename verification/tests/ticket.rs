use clispeak::ticket::{invite_payload, plain_duration, url_of, utc, Ticket, TTL_SECS};

fn at(expires_at: u64) -> Ticket {
    Ticket {
        endpoint_id: "e".into(),
        token: "t".into(),
        expires_at,
        space: None,
        label: None,
    }
}

#[test]
fn an_expired_invite_says_what_this_device_thinks_the_time_is() {
    let msg = at(1_000_000).expiry_objection(1_000_000 + 7200);
    assert!(msg.contains("2 hours ago"), "{msg}");
    assert!(msg.contains("believes it is now"), "{msg}");
    assert!(msg.contains("UTC"), "{msg}");
    assert!(!msg.contains("ask for a new one"), "{msg}");
}

#[test]
fn more_life_than_can_be_minted_proves_the_reader_is_behind() {
    let msg = at(1_000_000 + TTL_SECS + 3600)
        .clock_is_behind(1_000_000)
        .expect("provably behind");
    assert!(msg.contains("1 hour"), "{msg}");
    assert!(msg.contains("clock"), "{msg}");
}

#[test]
fn a_ticket_with_exactly_its_full_life_is_not_an_accusation() {
    assert_eq!(at(1_000_000 + TTL_SECS).clock_is_behind(1_000_000), None);
}

#[test]
fn a_healthy_invite_provokes_no_message() {
    assert_eq!(at(1_000_000 + 120).clock_is_behind(1_000_000), None);
}

#[test]
fn durations_are_said_the_way_a_person_would() {
    assert_eq!(plain_duration(1), "1 second");
    assert_eq!(plain_duration(45), "45 seconds");
    assert_eq!(plain_duration(300), "5 minutes");
    assert_eq!(plain_duration(3600), "1 hour");
    assert_eq!(plain_duration(7200), "2 hours");
    assert_eq!(plain_duration(172_801), "2 days");
}

#[test]
fn a_time_is_rendered_as_utc() {
    assert_eq!(utc(1_000_000_000), "2001-09-09 01:46 UTC");
}

#[test]
fn a_ticket_is_accepted_inside_its_life_and_refused_outside_it() {
    assert!(at(1_000_300).accept_at(1_000_000).is_ok());
    assert!(at(1_000_300).accept_at(1_000_300).is_ok());
    let late = at(1_000_300).accept_at(1_000_301).expect_err("expired");
    assert!(late.starts_with("that invite expired 1 second ago"), "{late}");
    let early = at(1_000_000 + TTL_SECS + 60).accept_at(1_000_000).expect_err("behind");
    assert_eq!(
        early,
        "this device's clock is at least 60 seconds behind the device that made this invite, so the invite cannot be checked. An invite is only ever valid for 5 minutes, and this one claims 6 minutes. Fix the clock here; the invite is fine."
    );
    assert_eq!(at(1_000_300).remaining(1_000_000), 300);
    assert_eq!(at(1_000_300).remaining(2_000_000), 0);
}

#[test]
fn a_minted_ticket_lives_for_its_full_lifetime_with_a_fresh_token() {
    let a = Ticket::mint("me".into(), Some("sp".into()), None, 1_000_000);
    let b = Ticket::mint("me".into(), None, None, 1_000_000);
    assert_eq!(a.expires_at, 1_000_000 + TTL_SECS);
    assert_eq!(a.endpoint_id, "me");
    assert_eq!(a.space.as_deref(), Some("sp"));
    // Sixteen bytes in unpadded base32 is twenty-six characters.
    assert_eq!(a.token.len(), 26);
    assert_ne!(a.token, b.token);
}

#[test]
fn a_pasted_invite_is_read_with_or_without_its_prefix_in_either_case() {
    let url = url_of(b"hello");
    assert_eq!(url, "clispeak://join/NBSWY3DP");
    assert_eq!(invite_payload(&url).expect("reads"), b"hello".to_vec());
    assert_eq!(invite_payload("  nbswy3dp \n").expect("reads"), b"hello".to_vec());
    assert_eq!(
        invite_payload("   "),
        Err("paste an invite first, then try again".to_string())
    );
    assert_eq!(
        invite_payload("clispeak://join/not base32!"),
        Err("that does not look like a clispeak invite".to_string())
    );
}

#[test]
fn an_invite_draws_as_a_scalable_picture() {
    let svg = clispeak::ticket::qr_svg("clispeak://join/NBSWY3DP").expect("drawn");
    assert!(svg.contains("<svg"), "{svg}");
    assert!(svg.contains("#000000"));
    let huge = "x".repeat(10_000);
    assert_eq!(
        clispeak::ticket::qr_svg(&huge),
        Err("that invite is too long to encode as a QR code".to_string())
    );
}

#[test]
fn a_minted_token_is_twenty_six_base32_characters() {
    let t = Ticket::mint("me".into(), None, None, 1_000);
    assert_eq!(t.token.len(), 26);
    assert!(t.token.chars().all(|c| c.is_ascii_uppercase() || ('2'..='7').contains(&c)));
}
