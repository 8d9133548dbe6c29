use clispeak::proto::{Member, Response, Status};

#[test]
fn the_signed_payload_is_a_fixed_shape_that_past_signatures_depend_on() {
    let payload = String::from_utf8(Member::signed_payload("aaaa", "bbbb", 1_700_000_000))
        .expect("the payload is ascii");
    assert_eq!(
        payload, "clispeak-join-v1:aaaa:bbbb:1700000000",
        "the signed payload changed shape. Every membership record on \
         every paired device was signed over the old one and none of them \
         will verify against this. Read `Member::signed_payload`'s doc \
         comment before touching this expectation"
    );
}

#[test]
fn a_name_is_not_part_of_what_is_signed() {
    let payload = Member::signed_payload("aaaa", "bbbb", 1);
    let text = String::from_utf8(payload).expect("ascii");
    assert!(!text.contains("Phone"), "nothing about a label is in here");
    assert_eq!(text.split(':').count(), 4, "separator, two ids, a time");
}

#[test]
fn a_no_target_error_carries_its_kind() {
    match Response::no_target("nobody".to_string()) {
        Response::Error { message, kind } => {
            assert_eq!(message, "nobody");
            assert_eq!(kind.as_deref(), Some("no-target"));
        }
        other => panic!("not an error: {other:?}"),
    }
    assert!(matches!(Response::error("x".into()), Response::Error { kind: None, .. }));
    assert_eq!(Status::QuietHours.name(), "QuietHours");
}
