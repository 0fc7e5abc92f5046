//! Tests of MCP sessions: initialization, capabilities, resource
//! subscriptions, log level and per-session state.
use fastmcp_server::session::{
    ClientCapabilities, ClientInfo, ElicitationCapability, LogLevel, LoggingCapability, ResourceUpdatedNotification,
    RootsCapability, SamplingCapability, ServerCapabilities, ServerInfo, Session, TasksCapability, ToolsCapability,
};

/// Delivers the notification the session asks for, if any, into `sent`;
/// returns whether one was sent.
fn deliver(session: &Session, uri: &str, sent: &mut Vec<ResourceUpdatedNotification>) -> bool {
    match session.notify_resource_updated(uri) {
        Some(n) => {
            sent.push(n);
            true
        }
        None => false,
    }
}

/// Stores `value` as JSON under `key` in the session state.
fn set_state<T: serde::Serialize + ?Sized>(session: &mut Session, key: &str, value: &T) {
    session.state_mut().set(key.to_string(), serde_json::to_string(value).unwrap());
}

/// Reads the JSON under `key` in the session state as a `T`.
fn get_state<T: serde::de::DeserializeOwned>(session: &Session, key: &str) -> Option<T> {
    session.state().get(key).map(|j| serde_json::from_str(j).unwrap())
}

fn make_server_info() -> ServerInfo {
    ServerInfo {
        name: "test".to_string(),
        version: "1.0".to_string(),
    }
}

fn make_client_info() -> ClientInfo {
    ClientInfo {
        name: "test-client".to_string(),
        version: "1.0".to_string(),
    }
}

fn make_session() -> Session {
    Session::new(make_server_info(), ServerCapabilities::default())
}

// ── New session initial state ────────────────────────────────────

#[test]
fn new_session_is_not_initialized() {
    let session = make_session();
    assert!(!session.is_initialized());
}

#[test]
fn new_session_has_no_client_info() {
    let session = make_session();
    assert!(session.client_info().is_none());
}

#[test]
fn new_session_has_no_client_capabilities() {
    let session = make_session();
    assert!(session.client_capabilities().is_none());
}

#[test]
fn new_session_has_no_protocol_version() {
    let session = make_session();
    assert!(session.protocol_version().is_none());
}

#[test]
fn new_session_has_no_log_level() {
    let session = make_session();
    assert!(session.log_level().is_none());
}

#[test]
fn new_session_returns_server_info() {
    let session = make_session();
    assert_eq!(session.server_info().name, "test");
    assert_eq!(session.server_info().version, "1.0");
}

#[test]
fn new_session_returns_server_capabilities() {
    let caps = ServerCapabilities::default();
    let session = Session::new(make_server_info(), caps);
    // default caps should be accessible
    let _ = session.server_capabilities();
}

// ── Initialization lifecycle ─────────────────────────────────────

#[test]
fn initialize_sets_initialized_flag() {
    let mut session = make_session();
    session.initialize(
        make_client_info(),
        ClientCapabilities::default(),
        "2024-11-05".to_string(),
    );
    assert!(session.is_initialized());
}

#[test]
fn initialize_stores_client_info() {
    let mut session = make_session();
    session.initialize(
        make_client_info(),
        ClientCapabilities::default(),
        "2024-11-05".to_string(),
    );
    let info = session.client_info().expect("client_info set");
    assert_eq!(info.name, "test-client");
    assert_eq!(info.version, "1.0");
}

#[test]
fn initialize_stores_client_capabilities() {
    let mut session = make_session();
    let caps = ClientCapabilities {
        sampling: Some(SamplingCapability {}),
        elicitation: None,
        roots: None,
    };
    session.initialize(make_client_info(), caps, "2024-11-05".to_string());
    let stored = session.client_capabilities().expect("caps set");
    assert!(stored.sampling.is_some());
}

#[test]
fn initialize_stores_protocol_version() {
    let mut session = make_session();
    session.initialize(
        make_client_info(),
        ClientCapabilities::default(),
        "2025-03-26".to_string(),
    );
    assert_eq!(session.protocol_version(), Some("2025-03-26"));
}

// ── Resource subscriptions ───────────────────────────────────────

#[test]
fn subscribe_and_check_resource() {
    let mut session = make_session();
    assert!(!session.is_resource_subscribed("file:///a.txt"));
    session.subscribe_resource("file:///a.txt".to_string());
    assert!(session.is_resource_subscribed("file:///a.txt"));
}

#[test]
fn unsubscribe_resource_removes_it() {
    let mut session = make_session();
    session.subscribe_resource("file:///a.txt".to_string());
    session.unsubscribe_resource("file:///a.txt");
    assert!(!session.is_resource_subscribed("file:///a.txt"));
}

#[test]
fn unsubscribe_nonexistent_resource_is_noop() {
    let mut session = make_session();
    // should not panic
    session.unsubscribe_resource("file:///does-not-exist");
    assert!(!session.is_resource_subscribed("file:///does-not-exist"));
}

#[test]
fn multiple_subscriptions_are_independent() {
    let mut session = make_session();
    session.subscribe_resource("a://1".to_string());
    session.subscribe_resource("b://2".to_string());
    assert!(session.is_resource_subscribed("a://1"));
    assert!(session.is_resource_subscribed("b://2"));
    session.unsubscribe_resource("a://1");
    assert!(!session.is_resource_subscribed("a://1"));
    assert!(session.is_resource_subscribed("b://2"));
}

#[test]
fn duplicate_subscribe_is_idempotent() {
    let mut session = make_session();
    session.subscribe_resource("r://x".to_string());
    session.subscribe_resource("r://x".to_string());
    assert!(session.is_resource_subscribed("r://x"));
    session.unsubscribe_resource("r://x");
    assert!(!session.is_resource_subscribed("r://x"));
}

// ── Log level ────────────────────────────────────────────────────

#[test]
fn set_log_level_and_read_back() {
    let mut session = make_session();
    session.set_log_level(LogLevel::Warning);
    assert_eq!(session.log_level(), Some(LogLevel::Warning));
}

#[test]
fn set_log_level_overwrites_previous() {
    let mut session = make_session();
    session.set_log_level(LogLevel::Debug);
    session.set_log_level(LogLevel::Error);
    assert_eq!(session.log_level(), Some(LogLevel::Error));
}

// ── Session state ────────────────────────────────────────────────

#[test]
fn state_is_accessible() {
    let session = make_session();
    // fresh state should have no stored values
    let val: Option<String> = get_state(&session, "key");
    assert!(val.is_none());
}

// ── notify_resource_updated ──────────────────────────────────────

#[test]
fn notify_resource_updated_returns_false_when_not_subscribed() {
    let session = make_session();
    let mut sent: Vec<ResourceUpdatedNotification> = Vec::new();
    assert!(!deliver(&session, "file:///a.txt", &mut sent));
}

#[test]
fn notify_resource_updated_sends_when_subscribed() {
    let mut session = make_session();
    session.subscribe_resource("file:///a.txt".to_string());

    let mut sent: Vec<ResourceUpdatedNotification> = Vec::new();

    let result = deliver(&session, "file:///a.txt", &mut sent);
    assert!(result);

    let messages = &sent;
    assert_eq!(messages.len(), 1);
    assert_eq!(messages[0].method, "notifications/resources/updated");
}

#[test]
fn notify_resource_updated_includes_uri_in_params() {
    let mut session = make_session();
    session.subscribe_resource("test://res".to_string());

    let mut sent: Vec<ResourceUpdatedNotification> = Vec::new();

    deliver(&session, "test://res", &mut sent);

    let messages = &sent;
    assert_eq!(messages[0].uri, "test://res");
}

#[test]
fn notify_resource_updated_does_not_fire_for_other_uri() {
    let mut session = make_session();
    session.subscribe_resource("file:///a.txt".to_string());

    let mut sent: Vec<ResourceUpdatedNotification> = Vec::new();

    let result = deliver(&session, "file:///b.txt", &mut sent);
    assert!(!result);
    assert!(sent.is_empty());
}

// ── Debug impl ───────────────────────────────────────────────────

#[test]
fn session_debug_format_includes_fields() {
    let session = make_session();
    let debug = format!("{:?}", session);
    assert!(debug.contains("Session"));
    assert!(debug.contains("initialized: false"));
}

// ── Existing capability tests ────────────────────────────────────

#[test]
fn test_session_supports_sampling() {
    let mut session = Session::new(
        ServerInfo {
            name: "test".to_string(),
            version: "1.0".to_string(),
        },
        ServerCapabilities::default(),
    );

    // Before initialization, no capabilities
    assert!(!session.supports_sampling());

    // Initialize with sampling capability
    session.initialize(
        ClientInfo {
            name: "test-client".to_string(),
            version: "1.0".to_string(),
        },
        ClientCapabilities {
            sampling: Some(SamplingCapability {}),
            elicitation: None,
            roots: None,
        },
        "2024-11-05".to_string(),
    );

    assert!(session.supports_sampling());
    assert!(!session.supports_elicitation());
    assert!(!session.supports_roots());
}

#[test]
fn test_session_supports_elicitation() {
    let mut session = Session::new(
        ServerInfo {
            name: "test".to_string(),
            version: "1.0".to_string(),
        },
        ServerCapabilities::default(),
    );

    session.initialize(
        ClientInfo {
            name: "test-client".to_string(),
            version: "1.0".to_string(),
        },
        ClientCapabilities {
            sampling: None,
            elicitation: Some(ElicitationCapability::form()),
            roots: None,
        },
        "2024-11-05".to_string(),
    );

    assert!(!session.supports_sampling());
    assert!(session.supports_elicitation());
    assert!(!session.supports_roots());
}

#[test]
fn test_session_supports_roots() {
    let mut session = Session::new(
        ServerInfo {
            name: "test".to_string(),
            version: "1.0".to_string(),
        },
        ServerCapabilities::default(),
    );

    session.initialize(
        ClientInfo {
            name: "test-client".to_string(),
            version: "1.0".to_string(),
        },
        ClientCapabilities {
            sampling: None,
            elicitation: None,
            roots: Some(RootsCapability { list_changed: true }),
        },
        "2024-11-05".to_string(),
    );

    assert!(!session.supports_sampling());
    assert!(!session.supports_elicitation());
    assert!(session.supports_roots());
}

#[test]
fn test_session_supports_all_capabilities() {
    let mut session = Session::new(
        ServerInfo {
            name: "test".to_string(),
            version: "1.0".to_string(),
        },
        ServerCapabilities::default(),
    );

    session.initialize(
        ClientInfo {
            name: "test-client".to_string(),
            version: "1.0".to_string(),
        },
        ClientCapabilities {
            sampling: Some(SamplingCapability {}),
            elicitation: Some(ElicitationCapability::both()),
            roots: Some(RootsCapability {
                list_changed: false,
            }),
        },
        "2024-11-05".to_string(),
    );

    assert!(session.supports_sampling());
    assert!(session.supports_elicitation());
    assert!(session.supports_roots());
}

#[test]
fn test_session_no_capabilities() {
    let mut session = Session::new(
        ServerInfo {
            name: "test".to_string(),
            version: "1.0".to_string(),
        },
        ServerCapabilities::default(),
    );

    session.initialize(
        ClientInfo {
            name: "test-client".to_string(),
            version: "1.0".to_string(),
        },
        ClientCapabilities::default(),
        "2024-11-05".to_string(),
    );

    assert!(!session.supports_sampling());
    assert!(!session.supports_elicitation());
    assert!(!session.supports_roots());
}

// ── Re-initialization ───────────────────────────────────────────

#[test]
fn reinitialize_overwrites_client_info() {
    let mut session = make_session();
    session.initialize(
        make_client_info(),
        ClientCapabilities::default(),
        "2024-11-05".to_string(),
    );
    session.initialize(
        ClientInfo {
            name: "new-client".to_string(),
            version: "2.0".to_string(),
        },
        ClientCapabilities {
            sampling: Some(SamplingCapability {}),
            elicitation: None,
            roots: None,
        },
        "2025-03-26".to_string(),
    );
    assert!(session.is_initialized());
    let info = session.client_info().unwrap();
    assert_eq!(info.name, "new-client");
    assert_eq!(info.version, "2.0");
    assert_eq!(session.protocol_version(), Some("2025-03-26"));
    assert!(session.supports_sampling());
}

// ── State persistence through lifecycle ──────────────────────────

#[test]
fn state_persists_after_initialization() {
    let mut session = make_session();
    set_state(&mut session, "key", "before_init");
    session.initialize(
        make_client_info(),
        ClientCapabilities::default(),
        "2024-11-05".to_string(),
    );
    let val: Option<String> = get_state(&session, "key");
    assert_eq!(val.as_deref(), Some("before_init"));
}

// ── Notification after unsubscribe ───────────────────────────────

#[test]
fn notify_resource_updated_after_unsubscribe_returns_false() {
    let mut session = make_session();
    session.subscribe_resource("r://x".to_string());

    let mut sent: Vec<ResourceUpdatedNotification> = Vec::new();

    // First notification should fire
    assert!(deliver(&session, "r://x", &mut sent));
    assert_eq!(sent.len(), 1);

    // Unsubscribe and try again
    session.unsubscribe_resource("r://x");
    assert!(!deliver(&session, "r://x", &mut sent));
    // No new notifications sent
    assert_eq!(sent.len(), 1);
}

// ── Subscribe → unsubscribe → re-subscribe ─────────────────────

#[test]
fn resubscribe_after_unsubscribe_works() {
    let mut session = make_session();
    session.subscribe_resource("r://x".to_string());
    session.unsubscribe_resource("r://x");
    assert!(!session.is_resource_subscribed("r://x"));
    session.subscribe_resource("r://x".to_string());
    assert!(session.is_resource_subscribed("r://x"));
}

// ── Debug format after initialization ───────────────────────────

#[test]
fn session_debug_after_init_shows_initialized_true() {
    let mut session = make_session();
    session.initialize(
        make_client_info(),
        ClientCapabilities::default(),
        "2024-11-05".to_string(),
    );
    let debug = format!("{:?}", session);
    assert!(debug.contains("initialized: true"));
}

// ── Non-default server capabilities ─────────────────────────────

#[test]
fn session_with_custom_server_capabilities() {
    let caps = ServerCapabilities {
        tools: Some(ToolsCapability { list_changed: true }),
        logging: Some(LoggingCapability {}),
        tasks: Some(TasksCapability {
            list_changed: false,
        }),
        ..ServerCapabilities::default()
    };
    let session = Session::new(make_server_info(), caps);
    assert!(session.server_capabilities().tools.is_some());
    assert!(session.server_capabilities().logging.is_some());
    assert!(session.server_capabilities().tasks.is_some());
}

// ── Log level with all variants ─────────────────────────────────

#[test]
fn set_log_level_all_variants() {
    let mut session = make_session();
    for level in [
        LogLevel::Debug,
        LogLevel::Info,
        LogLevel::Warning,
        LogLevel::Error,
    ] {
        session.set_log_level(level);
        assert_eq!(session.log_level(), Some(level));
    }
}

// ── Persistence across re-initialization ────────────────────────

#[test]
fn log_level_persists_across_reinitialization() {
    let mut session = make_session();
    session.set_log_level(LogLevel::Warning);
    session.initialize(
        make_client_info(),
        ClientCapabilities::default(),
        "2024-11-05".to_string(),
    );
    assert_eq!(session.log_level(), Some(LogLevel::Warning));
    // Re-initialize with different client info
    session.initialize(
        ClientInfo {
            name: "other".to_string(),
            version: "2.0".to_string(),
        },
        ClientCapabilities::default(),
        "2025-03-26".to_string(),
    );
    assert_eq!(session.log_level(), Some(LogLevel::Warning));
}

#[test]
fn resource_subscriptions_persist_across_reinitialization() {
    let mut session = make_session();
    session.subscribe_resource("file:///keep.txt".to_string());
    session.initialize(
        make_client_info(),
        ClientCapabilities::default(),
        "2024-11-05".to_string(),
    );
    assert!(session.is_resource_subscribed("file:///keep.txt"));
}

#[test]
fn state_set_after_init_persists_through_reinit() {
    let mut session = make_session();
    session.initialize(
        make_client_info(),
        ClientCapabilities::default(),
        "2024-11-05".to_string(),
    );
    set_state(&mut session, "counter", &42);
    // Re-initialize
    session.initialize(
        ClientInfo {
            name: "new".to_string(),
            version: "3.0".to_string(),
        },
        ClientCapabilities::default(),
        "2025-03-26".to_string(),
    );
    let val: Option<i32> = get_state(&session, "counter");
    assert_eq!(val, Some(42));
}

#[test]
fn notify_resource_updated_fires_independently_per_subscription() {
    let mut session = make_session();
    session.subscribe_resource("a://1".to_string());
    session.subscribe_resource("b://2".to_string());

    let mut sent: Vec<ResourceUpdatedNotification> = Vec::new();

    // Notify first URI
    assert!(deliver(&session, "a://1", &mut sent));
    assert_eq!(sent.len(), 1);
    let uri = sent[0].uri.clone();
    assert_eq!(uri, "a://1");

    // Notify second URI
    assert!(deliver(&session, "b://2", &mut sent));
    assert_eq!(sent.len(), 2);
    let uri2 = sent[1].uri.clone();
    assert_eq!(uri2, "b://2");
}

#[test]
fn supports_elicitation_and_roots_false_before_init() {
    let session = make_session();
    assert!(!session.supports_elicitation());
    assert!(!session.supports_roots());
}


#[test]
fn state_set_and_remove() {
    let mut session = make_session();
    set_state(&mut session, "k", "v");
    assert_eq!(session.state().get("k").map(String::as_str), Some("\"v\""));
    session.state_mut().remove("k");
    assert!(session.state().get("k").is_none());
}

#[test]
fn elicitation_capability_modes() {
    let form = ElicitationCapability::form();
    assert!(form.form && !form.url);
    let both = ElicitationCapability::both();
    assert!(both.form && both.url);
}
