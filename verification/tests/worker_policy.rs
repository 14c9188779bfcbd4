use wineventlog::config::default_batch_size;
use wineventlog::privilege::join_args;
use wineventlog::record::FieldTexts;
use wineventlog::resolve::plan_run;
use wineventlog::worker::{
    DrainStep, SubscribeDecision, SubscribeOutcome, after_batch, continue_after_write,
    decide_subscribe, finish_event, finish_event_rendered, prepare_event, render_event,
};
use wineventlog::xml::parse_to_json;

fn no_texts() -> FieldTexts {
    FieldTexts { keywords: None, level: None, task: None, opcode: None }
}

fn level_text(s: &str) -> FieldTexts {
    FieldTexts { keywords: None, level: Some(s.to_string()), task: None, opcode: None }
}

#[test]
fn unsupported_channel_is_skipped_quietly() {
    let d = decide_subscribe(&SubscribeOutcome::Unsupported);
    assert_eq!(d, SubscribeDecision::SkipChannel);
    assert_ne!(d, SubscribeDecision::Escalate);
    assert_ne!(d, SubscribeDecision::ReportError);
}

#[test]
fn subscription_outcomes_map_to_their_decisions() {
    assert_eq!(decide_subscribe(&SubscribeOutcome::Granted), SubscribeDecision::Drain);
    assert_eq!(decide_subscribe(&SubscribeOutcome::AccessDenied), SubscribeDecision::Escalate);
    assert_eq!(decide_subscribe(&SubscribeOutcome::Failed), SubscribeDecision::ReportError);
}

#[test]
fn empty_batch_ends_the_drain_round() {
    assert_eq!(after_batch(0), DrainStep::ResetAndWait);
    assert_eq!(after_batch(1), DrainStep::Process);
    assert_eq!(after_batch(10), DrainStep::Process);
}

#[test]
fn failed_write_stops_the_worker() {
    assert!(!continue_after_write(false));
    assert!(continue_after_write(true));
}

#[test]
fn two_events_in_order_with_formatted_levels() {
    let live = vec!["App".to_string()];
    let pats = vec!["App".to_string()];
    let channels = plan_run(&pats, &live).expect("the channel resolves");
    assert_eq!(channels, vec!["App".to_string()]);
    assert_eq!(decide_subscribe(&SubscribeOutcome::Granted), SubscribeDecision::Drain);

    let xml1 = r#"<Event><System><Provider Name="X"/><Level>4</Level></System></Event>"#;
    let xml2 = r#"<Event><System><Provider Name="X"/><Level>2</Level></System></Event>"#;
    let mut lines: Vec<String> = Vec::new();
    for (xml, text) in [(xml1, "Information"), (xml2, "Warning")] {
        if let Some(line) = render_event(xml, &level_text(text), None) {
            lines.push(line);
        }
    }
    assert_eq!(lines.len(), 2);
    assert_eq!(lines[0], r#"{"Provider":{"@Name":"X"},"Level":"Information"}"#);
    assert_eq!(lines[1], r#"{"Provider":{"@Name":"X"},"Level":"Warning"}"#);
    assert!(lines[0].contains(r#""Level":"Information""#));
    assert!(lines[1].contains(r#""Level":"Warning""#));
}

#[test]
fn enrichment_leaves_other_fields_untouched() {
    let xml = r#"<Event><System><Other>keep me</Other><Level>4</Level></System></Event>"#;
    let line = render_event(xml, &level_text("Information"), None).unwrap();
    assert_eq!(line, r#"{"Other":"keep me","Level":"Information"}"#);
}

#[test]
fn absent_field_gets_no_enrichment() {
    let xml = r#"<Event><System><Other>x</Other></System></Event>"#;
    let line = render_event(xml, &level_text("Information"), None).unwrap();
    assert_eq!(line, r#"{"Other":"x"}"#);
}

#[test]
fn offered_text_without_field_changes_nothing() {
    let xml = r#"<Event><System><Level>4</Level></System></Event>"#;
    let all = FieldTexts {
        keywords: Some("K".to_string()),
        level: Some("Information".to_string()),
        task: Some("T".to_string()),
        opcode: Some("O".to_string()),
    };
    let line = render_event(xml, &all, None).unwrap();
    assert_eq!(line, r#"{"Level":"Information"}"#);
}

#[test]
fn message_is_appended_when_offered() {
    let xml = r#"<Event><System><Level>4</Level></System></Event>"#;
    let line = render_event(xml, &no_texts(), Some("it happened".to_string())).unwrap();
    assert_eq!(line, r#"{"Level":"4","Message":"it happened"}"#);
}

#[test]
fn existing_message_field_is_replaced_in_place() {
    let xml = r#"<Event><System><Message>old</Message><Level>4</Level></System></Event>"#;
    let line = render_event(xml, &no_texts(), Some("new".to_string())).unwrap();
    assert_eq!(line, r#"{"Message":"new","Level":"4"}"#);
}

#[test]
fn prepared_event_reads_wants_and_provider() {
    let xml = r#"<Event><System><Provider Name="X"/><Level>4</Level><Task>1</Task></System></Event>"#;
    let p = prepare_event(xml).unwrap();
    assert!(p.wants_level);
    assert!(p.wants_task);
    assert!(!p.wants_keywords);
    assert!(!p.wants_opcode);
    assert_eq!(p.provider, Some("X".to_string()));
    let line = finish_event(p.record, &level_text("Information"), None);
    assert_eq!(line, r#"{"Provider":{"@Name":"X"},"Level":"Information","Task":"1"}"#);
}

#[test]
fn malformed_event_is_dropped_not_fatal() {
    assert!(render_event("<broken", &no_texts(), None).is_none());
    assert!(parse_to_json("<broken").is_none());
}

#[test]
fn default_batch_size_is_ten() {
    assert_eq!(default_batch_size(), 10);
}

#[test]
fn relaunch_arguments_quote_spaces() {
    let args = vec!["--config".to_string(), "my file.yaml".to_string()];
    assert_eq!(join_args(&args), "--config \"my file.yaml\"");
    let none: Vec<String> = vec![];
    assert_eq!(join_args(&none), "");
    let with_empty = vec!["".to_string(), "x".to_string()];
    assert_eq!(join_args(&with_empty), "x");
}

#[test]
fn rendered_variant_agrees_with_the_compact_line() {
    let xml = r#"<Event><System><Provider Name="X"/><Level>4</Level></System></Event>"#;
    let p1 = prepare_event(xml).unwrap();
    let p2 = prepare_event(xml).unwrap();
    let compact = finish_event(p1.record, &level_text("Information"), None);
    let rendered = finish_event_rendered(p2.record, &level_text("Information"), None, false);
    assert_eq!(compact, rendered);
    let p3 = prepare_event(xml).unwrap();
    let pretty = finish_event_rendered(p3.record, &level_text("Information"), None, true);
    assert_eq!(
        pretty,
        "{\n  \"Provider\": {\n    \"@Name\": \"X\"\n  },\n  \"Level\": \"Information\"\n}"
    );
}
