use mindurka_bot::bridge::{
    forward_discord_message, webhook_message, DiscordData, DiscordMessage, WebhookCache,
    WebhookSource,
};
use mindurka_bot::discord_config::{RouteEntry, Routes};
use mindurka_bot::events::ServerMessage;

fn routes() -> Routes {
    let mut r = Routes::new();
    r.insert("survival".to_string(), RouteEntry { webhook_url: "https://hooks/survival".to_string(), channel_id: 100 });
    r.insert("pvp".to_string(), RouteEntry { webhook_url: "https://hooks/pvp".to_string(), channel_id: 200 });
    r
}

fn discord_message(channel_id: u64, bot: bool, nick: Option<Option<&str>>) -> DiscordMessage {
    DiscordMessage {
        channel_id,
        author_id: 9876543210,
        author_is_bot: bot,
        author_name: "alice".to_string(),
        member_nick: nick.map(|n| n.map(|s| s.to_string())),
        author_avatar_url: Some("https://cdn/avatar.png".to_string()),
        shared_user_id: Some("u-42".to_string()),
        content: "hello `world`".to_string(),
    }
}

fn server_message(message: &str, username: Option<&str>, avatar: Option<&str>) -> ServerMessage {
    ServerMessage {
        message: message.to_string(),
        service: "survival".to_string(),
        user: None,
        username: username.map(|s| s.to_string()),
        avatar_url: avatar.map(|s| s.to_string()),
    }
}

#[test]
fn forwards_messages_of_routed_channels() {
    let q = forward_discord_message(&routes(), discord_message(200, false, Some(Some("Al")))).unwrap();
    assert_eq!(q.service, "pvp");
    assert_eq!(q.data.message, "hello `world`");
    assert_eq!(q.data.service, "9876543210@discord");
    assert_eq!(q.data.user.as_deref(), Some("u-42"));
    assert_eq!(q.data.username.as_deref(), Some("Al"));
    assert_eq!(q.data.avatar_url.as_deref(), Some("https://cdn/avatar.png"));
}

#[test]
fn username_of_members_and_non_members() {
    let q = forward_discord_message(&routes(), discord_message(100, false, Some(None))).unwrap();
    assert_eq!(q.service, "survival");
    assert_eq!(q.data.username, None);
    let q = forward_discord_message(&routes(), discord_message(100, false, None)).unwrap();
    assert_eq!(q.data.username.as_deref(), Some("alice"));
}

#[test]
fn bots_and_unrouted_channels_are_not_forwarded() {
    assert!(forward_discord_message(&routes(), discord_message(100, true, None)).is_none());
    assert!(forward_discord_message(&routes(), discord_message(300, false, None)).is_none());
    assert!(forward_discord_message(&Routes::new(), discord_message(100, false, None)).is_none());
}

#[test]
fn author_zero_gets_service_zero() {
    let mut m = discord_message(100, false, None);
    m.author_id = 0;
    let q = forward_discord_message(&routes(), m).unwrap();
    assert_eq!(q.data.service, "0@discord");
}

#[test]
fn webhook_post_is_one_code_span() {
    let w = webhook_message(&server_message("a `b` ``c", Some("bob"), Some("https://a")));
    assert_eq!(w.content, "`a b c`");
    assert_eq!(w.username, "bob");
    assert_eq!(w.avatar_url, "https://a");
    let w = webhook_message(&server_message("", None, None));
    assert_eq!(w.content, "``");
    assert_eq!(w.username, "no name");
    assert_eq!(w.avatar_url, "");
}

#[test]
fn unrouted_sender_gets_no_delivery() {
    let cache = WebhookCache::new();
    let m = server_message("hi", None, None);
    assert!(cache.plan_delivery(&routes(), &Some("attack".to_string()), &m).is_none());
    assert!(cache.plan_delivery(&routes(), &None, &m).is_none());
}

#[test]
fn first_delivery_fetches_the_webhook() {
    let mut cache = WebhookCache::new();
    let m = server_message("hi", Some("bob"), None);
    let d = cache.plan_delivery(&routes(), &Some("pvp".to_string()), &m).unwrap();
    assert_eq!(d.message.content, "`hi`");
    match d.source {
        WebhookSource::Fetch { url, store_under, keep_existing } => {
            assert_eq!(url, "https://hooks/pvp");
            assert_eq!(store_under, "pvp");
            assert!(!keep_existing);
            cache.record(&store_under);
        }
        WebhookSource::Cached { .. } => panic!("nothing is cached yet"),
    }
    assert!(cache.contains("pvp"));
    assert!(!cache.contains("https://hooks/pvp"));
    // the webhook is kept under the service name but looked up by URL
    let d = cache.plan_delivery(&routes(), &Some("pvp".to_string()), &m).unwrap();
    match d.source {
        WebhookSource::Fetch { keep_existing, .. } => assert!(keep_existing),
        WebhookSource::Cached { .. } => panic!("looked up by URL"),
    }
}

#[test]
fn cached_webhook_is_used() {
    let mut cache = WebhookCache::new();
    cache.record("https://hooks/survival");
    cache.record("https://hooks/survival");
    let d = cache
        .plan_delivery(&routes(), &Some("survival".to_string()), &server_message("x", None, None))
        .unwrap();
    match d.source {
        WebhookSource::Cached { key } => assert_eq!(key, "https://hooks/survival"),
        WebhookSource::Fetch { .. } => panic!("the webhook is cached"),
    }
}

#[test]
fn discord_data_is_empty() {
    let _ = DiscordData {};
}

#[test]
fn unknown_shared_user_travels_as_none() {
    let mut m = discord_message(100, false, None);
    m.shared_user_id = None;
    let q = forward_discord_message(&routes(), m).unwrap();
    assert_eq!(q.data.user, None);
}
