use clispeak::{ipc, mirror, transport};

#[test]
fn the_peer_connect_bound_agrees() {
    assert_eq!(
        mirror::PEER_CONNECT,
        transport::PEER_CONNECT,
        "if the node's bound moves, this one moves with it — being shorter \
         than the node's is the bug"
    );
}

#[test]
fn the_default_socket_name_is_a_name_not_a_path() {
    assert!(!ipc::path_shaped(mirror::SOCKET_NAME));
    assert_eq!(transport::no_answer(), "connecting to peer: no answer in 90s");
}
