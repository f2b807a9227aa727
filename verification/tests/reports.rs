use mindurka_bot::decimal::parse_decimal;
use mindurka_bot::discord_config::{PunishmentType, ReportsConfig, RuleEntry, Rules};
use mindurka_bot::report_parser::multi_parser;
use mindurka_bot::reports::{report_embed, report_rule, report_thread_tags};

fn config() -> ReportsConfig {
    let mut rules = Rules::new();
    rules.insert(
        parse_decimal("4.1").unwrap(),
        RuleEntry { punishment_type: PunishmentType::Ban, duration: std::time::Duration::from_secs(86400).into() },
    );
    ReportsConfig { forum_id: 500, awaiting_tag_id: 7, resolved_tag_id: 8, denied_tag_id: 9, rules }
}

#[test]
fn report_threads_get_the_awaiting_tag() {
    let tags = report_thread_tags(true, Some(500), &vec![1, 2], &config()).unwrap();
    assert_eq!(tags, vec![1, 2, 7]);
    let tags = report_thread_tags(true, Some(500), &vec![], &config()).unwrap();
    assert_eq!(tags, vec![7]);
}

#[test]
fn other_threads_are_left_alone() {
    assert!(report_thread_tags(false, Some(500), &vec![1], &config()).is_none());
    assert!(report_thread_tags(true, Some(501), &vec![1], &config()).is_none());
    assert!(report_thread_tags(true, None, &vec![1], &config()).is_none());
}

#[test]
fn report_names_a_configured_rule() {
    let cfg = config();
    let parsed = multi_parser("1) p\n2) 4.10\n3) r\n");
    let rule = report_rule(&parsed, &cfg).unwrap();
    assert_eq!(rule.punishment_type, PunishmentType::Ban);
    let parsed = multi_parser("1) p\n2) 5\n3) r\n");
    assert!(report_rule(&parsed, &cfg).is_none());
    let parsed = multi_parser("no report");
    assert!(report_rule(&parsed, &cfg).is_none());
}

#[test]
fn embed_of_a_full_report() {
    let parsed = multi_parser("1) Player\n2) 4.10\n3) griefing\n");
    let e = report_embed(parsed, Some("<t:1700000000:f>".to_string()));
    assert_eq!(e.title, "Report");
    let fields: Vec<(&str, &str, bool)> =
        e.fields.iter().map(|f| (f.name.as_str(), f.value.as_str(), f.inline)).collect();
    assert_eq!(
        fields,
        vec![
            ("Player:", "Player", false),
            ("Violated rule:", "4.10", false),
            ("Ban until:", "<t:1700000000:f>", false),
            ("Reason:", "griefing", false),
        ]
    );
}

#[test]
fn embed_of_an_unreadable_report() {
    let e = report_embed(multi_parser("please ban him"), None);
    assert_eq!(e.fields.len(), 4);
    for f in &e.fields {
        assert_eq!(f.value, "Could not get from report");
        assert!(!f.inline);
    }
}
