use mindurka_bot::decimal::{parse_decimal, DecimalValue};
use mindurka_bot::discord_config::{
    PunishmentType, PunishmentTypeError, RouteEntry, Routes, RuleEntry, Rules,
};

fn route(url: &str, channel_id: u64) -> RouteEntry {
    RouteEntry { webhook_url: url.to_string(), channel_id }
}

fn rule(p: PunishmentType, secs: u64) -> RuleEntry {
    RuleEntry { punishment_type: p, duration: std::time::Duration::from_secs(secs).into() }
}

#[test]
fn punishment_names() {
    assert_eq!(PunishmentType::Ban.to_string(), "ban");
    assert_eq!(PunishmentType::Kick.to_string(), "kick");
    assert_eq!(PunishmentType::Mute.to_string(), "mute");
}

#[test]
fn punishment_name_round_trip() {
    for p in [PunishmentType::Ban, PunishmentType::Kick, PunishmentType::Mute] {
        assert_eq!(PunishmentType::from_str(&p.to_string()), Ok(p));
    }
}

#[test]
fn punishment_ignores_surrounding_whitespace() {
    assert_eq!(PunishmentType::from_str("  mute\t\n"), Ok(PunishmentType::Mute));
    assert_eq!(PunishmentType::from_str("\u{3000}kick\u{a0}"), Ok(PunishmentType::Kick));
    assert_eq!(PunishmentType::from_str("ban"), Ok(PunishmentType::Ban));
}

#[test]
fn wrong_punishment_names_are_refused() {
    assert_eq!(PunishmentType::from_str("Ban"), Err(PunishmentTypeError::WrongPunishmentType));
    assert_eq!(PunishmentType::from_str("b an"), Err(PunishmentTypeError::WrongPunishmentType));
    assert_eq!(PunishmentType::from_str(""), Err(PunishmentTypeError::WrongPunishmentType));
    assert_eq!(PunishmentTypeError::WrongPunishmentType.message(), "Wrong punshiment type");
}

#[test]
fn route_default_is_empty() {
    let r = RouteEntry::default();
    assert_eq!(r.webhook_url, "");
    assert_eq!(r.channel_id, 0);
}

#[test]
fn routes_get_after_insert() {
    let mut routes = Routes::new();
    assert_eq!(routes.len(), 0);
    routes.insert("survival".to_string(), route("https://hook/1", 11));
    routes.insert("pvp".to_string(), route("https://hook/2", 22));
    assert_eq!(routes.len(), 2);
    assert_eq!(routes.get("survival").unwrap().channel_id, 11);
    assert_eq!(routes.get("pvp").unwrap().webhook_url, "https://hook/2");
    assert!(routes.get("attack").is_none());
    routes.insert("survival".to_string(), route("https://hook/3", 33));
    assert_eq!(routes.len(), 2);
    assert_eq!(routes.get("survival").unwrap().channel_id, 33);
    let (name, entry) = routes.entry_at(1);
    assert_eq!(name, "pvp");
    assert_eq!(entry.channel_id, 22);
}

#[test]
fn routes_find_by_channel() {
    let mut routes = Routes::new();
    routes.insert("survival".to_string(), route("u1", 11));
    routes.insert("pvp".to_string(), route("u2", 22));
    let (name, entry) = routes.find_by_channel(22).unwrap();
    assert_eq!(name, "pvp");
    assert_eq!(entry.webhook_url, "u2");
    assert!(routes.find_by_channel(33).is_none());
}

#[test]
fn rules_are_found_by_number() {
    let mut rules = Rules::new();
    rules.insert(parse_decimal("4.1").unwrap(), rule(PunishmentType::Ban, 3600));
    rules.insert(parse_decimal("2").unwrap(), rule(PunishmentType::Mute, 60));
    assert_eq!(rules.len(), 2);
    let found = rules.get(&parse_decimal("4.10").unwrap()).unwrap();
    assert_eq!(found.punishment_type, PunishmentType::Ban);
    assert_eq!(*found.duration, std::time::Duration::from_secs(3600));
    assert_eq!(rules.get(&parse_decimal("2.000").unwrap()).unwrap().punishment_type, PunishmentType::Mute);
    assert!(rules.get(&parse_decimal("4.01").unwrap()).is_none());
    rules.insert(parse_decimal("2.0").unwrap(), rule(PunishmentType::Kick, 0));
    assert_eq!(rules.len(), 2);
    assert_eq!(rules.get(&parse_decimal("2").unwrap()).unwrap().punishment_type, PunishmentType::Kick);
    let (number, _) = rules.entry_at(0);
    assert_eq!(number, DecimalValue { negative: false, magnitude: 41, scale: 1 });
}

#[test]
fn negative_zero_finds_rule_zero() {
    let mut rules = Rules::new();
    rules.insert(parse_decimal("0").unwrap(), rule(PunishmentType::Kick, 1));
    assert_eq!(rules.get(&parse_decimal("-0.00").unwrap()).unwrap().punishment_type, PunishmentType::Kick);
    assert!(rules.get(&parse_decimal("0.01").unwrap()).is_none());
}
