//! The handling of new threads in the reports forum: which threads are
//! reports, the tags a new report gets, the rule it names and the summary
//! embed built from it.
use vstd::prelude::*;
use crate::decimal::{canonical, decimal_display};
use crate::discord_config::{ReportsConfig, RuleEntry};
use crate::report_parser::ParsedReport;

verus! {

/// Whether a new thread is a report: a public thread of the reports forum.
pub open spec fn is_report_thread(is_public_thread: bool, parent_id: Option<u64>, forum_id: u64) -> bool {
    is_public_thread && parent_id == Some(forum_id)
}

/// The tags for a new thread of the forum: `None` where the thread is not a
/// report; else the thread's tags with the "awaiting" tag added at the end.
///
/// Discord ids are never zero; a configured forum id (checked for public
/// threads) and awaiting tag id (checked for reports) must not be zero either.
pub fn report_thread_tags(
    is_public_thread: bool,
    parent_id: Option<u64>,
    applied_tags: &Vec<u64>,
    reports: &ReportsConfig,
) -> (r: Option<Vec<u64>>)
    requires
        is_public_thread ==> reports.forum_id != 0,
        is_report_thread(is_public_thread, parent_id, reports.forum_id) ==> reports.awaiting_tag_id
            != 0,
    ensures
        r is Some <==> is_report_thread(is_public_thread, parent_id, reports.forum_id),
        r matches Some(tags) ==> tags@ == applied_tags@.push(reports.awaiting_tag_id),
{
    if !is_public_thread {
        return None;
    }
    if parent_id != Some(reports.forum_id) {
        return None;
    }
    let mut tags = applied_tags.clone();
    tags.push(reports.awaiting_tag_id);
    Some(tags)
}

/// The rule that a report names, where its rule number is one of the rules.
pub fn report_rule<'a>(parsed: &ParsedReport, reports: &'a ReportsConfig) -> (r: Option<&'a RuleEntry>)
    ensures
        match parsed.rule {
            None => r is None,
            Some(n) => match r {
                Some(e) => reports.rules@.contains_key(canonical(n)) && reports.rules@[canonical(n)]
                    == *e,
                None => !reports.rules@.contains_key(canonical(n)),
            },
        },
{
    match &parsed.rule {
        Some(rule) => reports.rules.get(rule),
        None => None,
    }
}

/// One field of an embed.
pub struct EmbedField {
    pub name: String,
    pub value: String,
    pub inline: bool,
}

/// The summary of a report.
pub struct ReportEmbed {
    pub title: String,
    pub fields: Vec<EmbedField>,
}

/// The text shown where a field could not be read from the report.
pub open spec fn unknown_text() -> Seq<char> {
    "Could not get from report"@
}

/// A field's value, or the text for an unknown field.
pub open spec fn or_unknown(v: Option<Seq<char>>) -> Seq<char> {
    match v {
        Some(t) => t,
        None => unknown_text(),
    }
}

fn text_or_unknown(v: Option<String>) -> (r: String)
    ensures
        r@ == or_unknown(v.deep_view()),
{
    match v {
        Some(t) => t,
        None => "Could not get from report".to_owned(),
    }
}

fn field(name: &str, value: String) -> (r: EmbedField)
    ensures
        r.name@ == name@,
        r.value@ == value@,
        !r.inline,
{
    EmbedField { name: name.to_owned(), value, inline: false }
}

/// The summary embed of a report: the player, the violated rule, until when
/// the punishment lasts (`ban_until`, where known) and the reason.
pub fn report_embed(parsed: ParsedReport, ban_until: Option<String>) -> (r: ReportEmbed)
    ensures
        r.title@ == "Report"@,
        r.fields@.len() == 4,
        r.fields@[0].name@ == "Player:"@,
        r.fields@[0].value@ == or_unknown(parsed.id.deep_view()),
        r.fields@[1].name@ == "Violated rule:"@,
        r.fields@[1].value@ == or_unknown(
            match parsed.rule {
                Some(n) => Some(decimal_display(n)),
                None => None,
            },
        ),
        r.fields@[2].name@ == "Ban until:"@,
        r.fields@[2].value@ == or_unknown(ban_until.deep_view()),
        r.fields@[3].name@ == "Reason:"@,
        r.fields@[3].value@ == or_unknown(parsed.reason.deep_view()),
        forall|i: int| 0 <= i < 4 ==> !(#[trigger] r.fields@[i]).inline,
{
    let rule_text = match &parsed.rule {
        Some(n) => Some(n.to_text()),
        None => None,
    };
    let mut fields: Vec<EmbedField> = Vec::new();
    fields.push(field("Player:", text_or_unknown(parsed.id)));
    fields.push(field("Violated rule:", text_or_unknown(rule_text)));
    fields.push(field("Ban until:", text_or_unknown(ban_until)));
    fields.push(field("Reason:", text_or_unknown(parsed.reason)));
    ReportEmbed { title: "Report".to_owned(), fields }
}

} // verus!
