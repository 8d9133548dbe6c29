use clispeak::ipc::{caller_may_drive, client_proof, frame_fits, node_is_ours, node_proof, path_shaped, MAX_FRAME};

#[test]
fn a_plain_name_is_not_path_shaped() {
    assert!(!path_shaped("clispeak.sock"));
    assert!(!path_shaped("clispeak-test-2.sock"));
}

#[test]
fn a_unix_path_is_path_shaped() {
    assert!(path_shaped("/tmp/vc-d.sock"));
    assert!(path_shaped("run/clispeak.sock"));
}

#[test]
fn a_windows_path_is_path_shaped() {
    assert!(path_shaped(r"C:\\temp\\clispeak.sock"));
}

#[test]
fn the_default_name_passes_its_own_check() {
    assert!(!path_shaped("clispeak.sock"));
}

#[test]
fn the_same_token_proves_both_ends_and_another_does_not() {
    let token = [7u8; 32];
    let other = [8u8; 32];
    let client_nonce = [1u8; 32];
    let node_nonce = [2u8; 32];
    assert!(node_is_ours(&token, &client_nonce, node_proof(&token, &client_nonce)));
    assert!(caller_may_drive(&token, &node_nonce, client_proof(&token, &node_nonce)));
    assert!(!node_is_ours(&token, &client_nonce, node_proof(&other, &client_nonce)));
    assert!(!caller_may_drive(&token, &node_nonce, client_proof(&other, &node_nonce)));
    // The two directions are labelled, so one cannot stand in for the other.
    assert_ne!(node_proof(&token, &client_nonce), client_proof(&token, &client_nonce));
    // And the proof is blake3's keyed hash of the label and the nonce.
    let mut input = b"clispeak-ipc-node".to_vec();
    input.extend_from_slice(&client_nonce);
    assert_eq!(&node_proof(&token, &client_nonce), blake3::keyed_hash(&token, &input).as_bytes());
}

#[test]
fn an_absurd_frame_is_refused() {
    assert!(frame_fits(MAX_FRAME));
    assert!(!frame_fits(MAX_FRAME + 1));
}

#[test]
fn a_frame_carries_its_length_in_front_most_significant_first() {
    let f = clispeak::ipc::frame(&vec![7, 8, 9]).unwrap();
    assert_eq!(f, vec![0, 0, 0, 3, 7, 8, 9]);
    let big = vec![1u8; 70_000];
    let f = clispeak::ipc::frame(&big).unwrap();
    assert_eq!(&f[..4], &70_000u32.to_be_bytes());
    assert_eq!(f.len(), 70_004);
}

#[test]
fn a_header_reads_back_the_length_it_was_written_for() {
    for n in [0usize, 1, 255, 256, 65_535, 65_536, 1_000_000] {
        let f = clispeak::ipc::frame(&vec![0u8; n]).unwrap();
        let header = [f[0], f[1], f[2], f[3]];
        assert_eq!(clispeak::ipc::frame_length(header).unwrap() as usize, n);
        assert_eq!(clispeak::transport::message_length(header).unwrap() as usize, n);
    }
}

#[test]
fn an_absurd_length_is_refused_before_anything_is_allocated() {
    let at_limit = (8u32 * 1024 * 1024).to_be_bytes();
    assert_eq!(clispeak::ipc::frame_length(at_limit).unwrap(), 8 * 1024 * 1024);
    let past = (8u32 * 1024 * 1024 + 1).to_be_bytes();
    assert_eq!(
        clispeak::ipc::frame_length(past).unwrap_err(),
        "frame of 8388609 bytes exceeds the 8388608 byte limit"
    );
    assert_eq!(
        clispeak::transport::message_length([255, 255, 255, 255]).unwrap_err(),
        "message of 4294967295 bytes exceeds the 8388608 byte limit"
    );
    let m = clispeak::transport::message_frame(&vec![1, 2]).unwrap();
    assert_eq!(m, vec![0, 0, 0, 2, 1, 2]);
}

#[test]
fn a_probe_says_what_it_is() {
    assert_eq!(
        clispeak::ipc::Probe.message(),
        "a connection closed before identifying itself"
    );
}
