use mindurka_bot::config::UrlParts;
use mindurka_bot::surreal::{
    ConnectAction, ConnectEvent, ConnectFailure, ConnectPhase, MindustryProfile, NeededProfiles,
    ProfileType, Profiles, SurrealConnector,
};

fn url(host: Option<&str>, port: Option<u16>, password: Option<&str>, path: Option<Vec<&str>>) -> UrlParts {
    UrlParts {
        serialization: "ws://root:pw@localhost:4102/ns/db".to_string(),
        host: host.map(|s| s.to_string()),
        port,
        username: "root".to_string(),
        password: password.map(|s| s.to_string()),
        path_segments: path.map(|v| v.into_iter().map(|s| s.to_string()).collect()),
    }
}

fn full_url() -> UrlParts {
    url(Some("localhost"), Some(4102), Some("pw"), Some(vec!["mindurka", "main"]))
}

#[test]
fn profile_type_values() {
    assert_eq!(ProfileType::Mindustry.value(), "mindustry");
    assert_eq!(ProfileType::Discord.value(), "discord");
    assert_eq!(ProfileType::Telegram.value(), "telegram");
}

#[test]
fn needed_profiles_default_to_none() {
    let n = NeededProfiles::default();
    assert!(!n.mindustry && !n.discord && !n.telegram);
    let p = Profiles { mindustry: Some(MindustryProfile {}) };
    assert!(p.mindustry.is_some());
}

#[test]
fn healthy_database_signs_in_then_selects_namespace() {
    let (mut c, first) = SurrealConnector::new(full_url());
    assert!(matches!(first, ConnectAction::CheckHealth));
    match c.step(ConnectEvent::Healthy) {
        ConnectAction::SignIn { username, password } => {
            assert_eq!(username, "root");
            assert_eq!(password, "pw");
        }
        _ => panic!("expected sign-in"),
    }
    match c.step(ConnectEvent::SignedIn) {
        ConnectAction::UseNamespace { namespace, database } => {
            assert_eq!(namespace, "mindurka");
            assert_eq!(database, "main");
        }
        _ => panic!("expected namespace selection"),
    }
    assert!(matches!(c.step(ConnectEvent::NamespaceSelected), ConnectAction::Done));
    assert_eq!(c.current_phase(), ConnectPhase::Finished);
    assert!(matches!(c.step(ConnectEvent::Healthy), ConnectAction::Ignore));
}

#[test]
fn unhealthy_database_is_connected_with_retries() {
    let (mut c, _) = SurrealConnector::new(full_url());
    match c.step(ConnectEvent::Unhealthy) {
        ConnectAction::Connect { address } => assert_eq!(address, "localhost:4102"),
        _ => panic!("expected a connection attempt"),
    }
    assert!(matches!(c.step(ConnectEvent::ConnectFailed), ConnectAction::Wait { seconds: 5 }));
    assert!(matches!(c.step(ConnectEvent::WaitOver), ConnectAction::CheckHealth));
    assert!(matches!(c.step(ConnectEvent::Unhealthy), ConnectAction::Connect { .. }));
    assert!(matches!(c.step(ConnectEvent::ConnectSucceeded), ConnectAction::CheckHealth));
    assert_eq!(c.current_phase(), ConnectPhase::Checking);
}

#[test]
fn unexpected_events_change_nothing() {
    let (mut c, _) = SurrealConnector::new(full_url());
    assert!(matches!(c.step(ConnectEvent::WaitOver), ConnectAction::Ignore));
    assert_eq!(c.current_phase(), ConnectPhase::Checking);
}

#[test]
fn missing_url_parts_stop_the_procedure() {
    let (mut c, _) = SurrealConnector::new(url(None, Some(1), Some("pw"), Some(vec!["a", "b"])));
    assert!(matches!(c.step(ConnectEvent::Unhealthy), ConnectAction::Fail { reason: ConnectFailure::MissingHost }));
    assert_eq!(c.current_phase(), ConnectPhase::Failed);
    let (mut c, _) = SurrealConnector::new(url(Some("h"), None, Some("pw"), Some(vec!["a", "b"])));
    assert!(matches!(c.step(ConnectEvent::Unhealthy), ConnectAction::Fail { reason: ConnectFailure::MissingPort }));
    let (mut c, _) = SurrealConnector::new(url(Some("h"), Some(1), None, Some(vec!["a", "b"])));
    assert!(matches!(c.step(ConnectEvent::Healthy), ConnectAction::Fail { reason: ConnectFailure::MissingPassword }));
    let (mut c, _) = SurrealConnector::new(url(Some("h"), Some(1), Some("p"), None));
    c.step(ConnectEvent::Healthy);
    assert!(matches!(c.step(ConnectEvent::SignedIn), ConnectAction::Fail { reason: ConnectFailure::MissingPath }));
    let (mut c, _) = SurrealConnector::new(url(Some("h"), Some(1), Some("p"), Some(vec!["only"])));
    c.step(ConnectEvent::Healthy);
    assert!(matches!(c.step(ConnectEvent::SignedIn), ConnectAction::Fail { reason: ConnectFailure::PathTooShort }));
}
