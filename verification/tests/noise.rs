use wasabi::logging::noise::{
    event_enabled, is_peer_disconnect, is_warp_server_target, log_connection_errors,
    record_message,
};

#[test]
fn warps_server_target_is_recognized() {
    assert!(is_warp_server_target("warp::server"));
    assert!(is_warp_server_target("warp::server::run"));
    assert!(!is_warp_server_target("warp::servers"));
    assert!(!is_warp_server_target("warp::filters::body"));
}

#[test]
fn peer_disconnects_are_recognized() {
    for message in [
        "server connection error: hyper::Error(IncompleteMessage)",
        "server connection error: hyper::Error(Io, Os { code: 104, kind: ConnectionReset, message: \"Connection reset by peer\" })",
        "server connection error: hyper::Error(BodyWrite, Os { code: 32, kind: BrokenPipe, message: \"Broken pipe\" })",
        "server connection error: hyper::Error(Io, Kind(UnexpectedEof))",
    ] {
        assert!(is_peer_disconnect(message), "should be noise: {message}");
    }
}

#[test]
fn server_side_errors_are_kept() {
    for message in [
        "accept error: Os { code: 24, kind: Uncategorized, message: \"Too many open files\" }",
        "server connection error: hyper::Error(Parse(Version))",
        "server connection error: hyper::Error(User(Service))",
    ] {
        assert!(!is_peer_disconnect(message), "should be kept: {message}");
    }
}

#[test]
fn the_filter_only_drops_peer_disconnects() {
    let events = [
        (
            "warp::server::run",
            "server connection error: hyper::Error(IncompleteMessage)",
        ),
        (
            "warp::server::run",
            "accept error: Os { code: 24, kind: Uncategorized }",
        ),
        (
            "my_app::handler",
            "server connection error: hyper::Error(IncompleteMessage)",
        ),
    ];
    let collected: Vec<String> = events
        .iter()
        .filter(|(target, message)| event_enabled(false, target, true, message))
        .map(|(_, message)| message.to_string())
        .collect();

    assert_eq!(
        collected,
        vec![
            "accept error: Os { code: 24, kind: Uncategorized }".to_string(),
            "server connection error: hyper::Error(IncompleteMessage)".to_string(),
        ]
    );
}

#[test]
fn other_markers_levels_and_settings() {
    assert!(is_peer_disconnect("ConnectionAborted"));
    assert!(is_peer_disconnect("x NotConnected"));
    assert!(!is_peer_disconnect("incompletemessage"));
    assert!(event_enabled(false, "warp::server", false, "BrokenPipe"));
    assert!(!event_enabled(false, "warp::server", true, "BrokenPipe"));
    assert!(event_enabled(true, "warp::server", true, "BrokenPipe"));
}

#[test]
fn the_setting_is_read_from_its_text() {
    for value in ["1", "true", " TRUE ", "yes", "On\n"] {
        assert!(log_connection_errors(Some(value)), "{value:?}");
    }
    for value in ["", "0", "false", "no", "off", "2", "truee", "t rue"] {
        assert!(!log_connection_errors(Some(value)), "{value:?}");
    }
    assert!(!log_connection_errors(None));
}

#[test]
fn the_first_message_is_recorded() {
    let mut message = String::new();
    record_message(&mut message, "status", "7".to_string());
    record_message(&mut message, "message", "first".to_string());
    record_message(&mut message, "message", "second".to_string());
    assert_eq!(message, "first");
}
