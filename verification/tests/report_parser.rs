use mindurka_bot::decimal::DecimalValue;
use mindurka_bot::report_parser::{multi_parser, structured_parser, ParsedReport};

use nom::character::complete::{char, digit1, line_ending, not_line_ending, space0};
use nom::sequence::delimited;
use nom::{IResult, Parser};

fn dec(negative: bool, magnitude: u128, scale: u32) -> DecimalValue {
    DecimalValue { negative, magnitude, scale }
}

/// The report parser written with nom combinators, for comparison.
fn nom_line(input: &str) -> IResult<&str, &str> {
    let prefix = (digit1, char(')'), space0);
    delimited(prefix, not_line_ending, line_ending).parse(input)
}

fn nom_report(input: &str) -> Option<(String, Option<rust_decimal::Decimal>, String)> {
    (nom_line, nom_line, nom_line)
        .parse(input)
        .ok()
        .map(|(_, (id, rule, reason))| (id.to_string(), rule.parse().ok(), reason.to_string()))
}

fn assert_same_as_nom(input: &str) {
    let ours = multi_parser(input);
    match nom_report(input) {
        Some((id, rule, reason)) => {
            assert_eq!(ours.id.as_deref(), Some(id.as_str()), "input {:?}", input);
            assert_eq!(ours.reason.as_deref(), Some(reason.as_str()), "input {:?}", input);
            match (ours.rule, rule) {
                (Some(d), Some(r)) => {
                    assert_eq!(d.negative, r.is_sign_negative(), "input {:?}", input);
                    assert_eq!(d.magnitude, r.mantissa().unsigned_abs(), "input {:?}", input);
                    assert_eq!(d.scale, r.scale(), "input {:?}", input);
                }
                (None, None) => {}
                (a, b) => panic!("rule differs on {:?}: {:?} vs {:?}", input, a, b),
            }
        }
        None => {
            assert!(ours.id.is_none() && ours.rule.is_none() && ours.reason.is_none(), "input {:?}", input);
        }
    }
}

#[test]
fn parses_three_numbered_lines() {
    let r = multi_parser("1) Player123\n2) 4.1\n3) griefing the core\n");
    assert_eq!(r.id.as_deref(), Some("Player123"));
    assert_eq!(r.rule, Some(dec(false, 41, 1)));
    assert_eq!(r.reason.as_deref(), Some("griefing the core"));
}

#[test]
fn ignores_text_after_the_third_line() {
    let r = multi_parser("1) a\n2) 2\n3) b\nmore text\n4) d\n");
    assert_eq!(r.id.as_deref(), Some("a"));
    assert_eq!(r.rule, Some(dec(false, 2, 0)));
    assert_eq!(r.reason.as_deref(), Some("b"));
}

#[test]
fn third_line_needs_a_line_break() {
    let r = multi_parser("1) a\n2) 2\n3) b");
    assert!(r.id.is_none() && r.rule.is_none() && r.reason.is_none());
}

#[test]
fn accepts_crlf_line_breaks() {
    let r = multi_parser("1) a\r\n2) 3.50\r\n3) c\r\n");
    assert_eq!(r.id.as_deref(), Some("a"));
    assert_eq!(r.rule, Some(dec(false, 350, 2)));
    assert_eq!(r.reason.as_deref(), Some("c"));
}

#[test]
fn lone_carriage_return_refuses_the_report() {
    let r = multi_parser("1) a\rb\n2) 3\n3) c\n");
    assert!(r.id.is_none() && r.rule.is_none() && r.reason.is_none());
}

#[test]
fn skips_spaces_and_tabs_after_the_parenthesis() {
    let r = multi_parser("12)  \t name \n7)\t1\n99) why not\n");
    assert_eq!(r.id.as_deref(), Some("name "));
    assert_eq!(r.rule, Some(dec(false, 1, 0)));
    assert_eq!(r.reason.as_deref(), Some("why not"));
}

#[test]
fn rule_that_is_not_a_number_is_unknown() {
    let r = multi_parser("1) a\n2) rule four\n3) b\n");
    assert_eq!(r.id.as_deref(), Some("a"));
    assert_eq!(r.rule, None);
    assert_eq!(r.reason.as_deref(), Some("b"));
}

#[test]
fn empty_texts_are_known_but_empty() {
    let r = multi_parser("1)\n2)\n3)\n");
    assert_eq!(r.id.as_deref(), Some(""));
    assert_eq!(r.rule, None);
    assert_eq!(r.reason.as_deref(), Some(""));
}

#[test]
fn missing_number_refuses_the_report() {
    let r = multi_parser(") a\n2) 1\n3) b\n");
    assert!(r.id.is_none() && r.rule.is_none() && r.reason.is_none());
    let r = multi_parser("1. a\n2) 1\n3) b\n");
    assert!(r.id.is_none());
}

#[test]
fn free_text_is_no_report() {
    let r = multi_parser("he broke the rules, ban him please");
    assert!(r.id.is_none() && r.rule.is_none() && r.reason.is_none());
    let r = multi_parser("");
    assert!(r.id.is_none());
}

#[test]
fn negative_and_unicode_fields() {
    let r = multi_parser("1) Игрок\n2) -0\n3) гриф 💥\n");
    assert_eq!(r.id.as_deref(), Some("Игрок"));
    assert_eq!(r.reason.as_deref(), Some("гриф 💥"));
    let rule = r.rule.unwrap();
    assert_eq!(rule.magnitude, 0);
    assert_eq!(rule.normalize(), dec(false, 0, 0));
}

#[test]
fn default_report_knows_nothing() {
    let r = ParsedReport::default();
    assert!(r.id.is_none() && r.rule.is_none() && r.reason.is_none());
}

#[test]
fn agrees_with_nom_on_many_inputs() {
    let inputs = [
        "1) a\n2) 1\n3) b\n",
        "1) a\n2) 1\n3) b",
        "1) a\n\n2) 1\n3) b\n",
        "1)a\n2)1.0\n3)b\n",
        "0001) x y z \n2) 1e3\n3) \t\n",
        "1) a\r\n2) 2\r\n3) c\r\n",
        "1) a\r2) 2\n3) c\n",
        "1) a\n2) 2\r\n3) c\r",
        "1) a\n2) 79228162514264337593543950336\n3) c\n",
        "1) a\n2) 0.0000000000000000000000000001\n3) c\n",
        "1) a\n2) 1_000\n3) c\n",
        "1) a\n2)  -12.340 \n3) c\n",
        "١) a\n2) 1\n3) c\n",
        "1)\u{a0}a\n2) 1\n3) c\n",
        "",
        "\n",
        "1)\n",
        "1) a\n2) b\n",
        "x1) a\n2) b\n3) c\n",
    ];
    for input in inputs {
        assert_same_as_nom(input);
    }
}

#[test]
fn written_report_reads_back() {
    for (id, rule, reason) in [("Player", "4.1", "griefing"), ("", "", ""), ("a b", "x", "ü")] {
        let text = format!("1) {}\n2) {}\n3) {}\n", id, rule, reason);
        let r = multi_parser(&text);
        assert_eq!(r.id.as_deref(), Some(id));
        assert_eq!(r.reason.as_deref(), Some(reason));
        assert_eq!(r.rule, mindurka_bot::decimal::parse_decimal(rule));
    }
}

#[test]
fn structured_parser_ignores_appended_text() {
    let base = "1) a\n2) 4.1\n3) b\n";
    let r = structured_parser(base).unwrap();
    for tail in ["", "x", "\r", "4) d\n", "\n\n1) z\n"] {
        let s = structured_parser(&format!("{}{}", base, tail)).unwrap();
        assert_eq!(s.id, r.id);
        assert_eq!(s.rule, r.rule);
        assert_eq!(s.reason, r.reason);
    }
    assert!(structured_parser("1) a\n2) 4.1\n").is_none());
}
