use bilibili_tui::api::live_client::{
    ConnectionAction, ConnectionEvent, LiveConnection, RECONNECT_PAUSE_MS,
};

fn hosts() -> Vec<String> {
    vec![
        "wss://a.test/sub".to_string(),
        "wss://b.test/sub".to_string(),
    ]
}

#[test]
fn no_hosts_means_no_connection() {
    assert!(LiveConnection::start(Vec::new()).is_none());
}

#[test]
fn starts_with_the_first_host_and_is_not_yet_connected() {
    let (conn, action) = LiveConnection::start(hosts()).unwrap();
    assert_eq!(action, ConnectionAction::Connect(0));
    assert_eq!(conn.url(0), "wss://a.test/sub");
    assert_eq!(conn.url(1), "wss://b.test/sub");
    assert!(!conn.is_connected());
}

#[test]
fn accepted_authentication_connects() {
    let (mut conn, _) = LiveConnection::start(hosts()).unwrap();
    assert_eq!(conn.step(ConnectionEvent::AuthReply(0)), ConnectionAction::Continue);
    assert!(conn.is_connected());
    assert_eq!(conn.take_error(), None);
}

#[test]
fn failures_move_to_the_next_host_then_pause() {
    let (mut conn, _) = LiveConnection::start(hosts()).unwrap();
    assert_eq!(
        conn.step(ConnectionEvent::Failed("timeout".to_string())),
        ConnectionAction::Connect(1)
    );
    assert_eq!(
        conn.take_error().as_deref(),
        Some("live connection failed for wss://a.test/sub: timeout")
    );
    assert_eq!(conn.take_error(), None);
    assert_eq!(
        conn.step(ConnectionEvent::Closed),
        ConnectionAction::Pause(RECONNECT_PAUSE_MS)
    );
    assert_eq!(RECONNECT_PAUSE_MS, 2000);
    assert!(!conn.is_connected());
    assert_eq!(
        conn.take_error().as_deref(),
        Some("live connection closed: wss://b.test/sub")
    );
    assert_eq!(conn.step(ConnectionEvent::PauseOver), ConnectionAction::Connect(0));
}

#[test]
fn refused_authentication_is_reported_with_its_code() {
    let (mut conn, _) = LiveConnection::start(hosts()).unwrap();
    assert_eq!(conn.step(ConnectionEvent::AuthReply(-101)), ConnectionAction::Connect(1));
    assert!(!conn.is_connected());
    assert_eq!(
        conn.take_error().as_deref(),
        Some("live connection failed for wss://a.test/sub: live authentication failed: -101")
    );
}

#[test]
fn connection_recovers_after_an_error() {
    let (mut conn, _) = LiveConnection::start(hosts()).unwrap();
    conn.step(ConnectionEvent::Closed);
    assert!(!conn.is_connected());
    assert!(conn.take_error().is_some());
    conn.step(ConnectionEvent::AuthReply(0));
    assert!(conn.is_connected());
    assert_eq!(conn.step(ConnectionEvent::Shutdown), ConnectionAction::Stop);
}
