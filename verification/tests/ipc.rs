use shotr_core::ipc::{pipe_name, socket_path_in, Request};

#[test]
fn prefers_the_runtime_dir() {
    assert_eq!(
        socket_path_in(Some("/run/user/1000"), 1000),
        "/run/user/1000/shotr.sock"
    );
}

#[test]
fn falls_back_to_a_uid_namespaced_tmp_path() {
    assert_eq!(socket_path_in(None, 1000), "/tmp/shotr-1000.sock");
    // An empty variable is as good as unset.
    assert_eq!(socket_path_in(Some(""), 42), "/tmp/shotr-42.sock");
}

#[test]
fn different_users_never_share_a_fallback_socket() {
    assert_ne!(socket_path_in(None, 1000), socket_path_in(None, 1001));
}

#[test]
fn requests_round_trip_through_the_wire_format() {
    for req in [Request::Show, Request::Capture, Request::ReloadHotkeys] {
        assert_eq!(Request::parse(req.wire()), Some(req));
    }
    assert_eq!(Request::parse("capture\n"), Some(Request::Capture));
    assert_eq!(Request::parse("nonsense"), None);
}

#[test]
fn different_users_never_share_a_pipe() {
    assert_ne!(pipe_name(Some("ann")), pipe_name(Some("bob")));
    // An empty variable is as good as unset, as on the unix side.
    assert_eq!(pipe_name(Some("")), pipe_name(None));
}

#[test]
fn a_runtime_dir_with_a_trailing_slash_is_not_doubled() {
    assert_eq!(socket_path_in(Some("/run/user/7/"), 7), "/run/user/7/shotr.sock");
    assert_eq!(pipe_name(Some("ann")), r"\\.\pipe\shotr-ann");
    assert_eq!(pipe_name(None), r"\\.\pipe\shotr");
}
