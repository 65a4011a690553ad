use skillhub::summarizer::{
    first_sentence, format_conversation, heuristic_summary, parse_summary_response,
    prepare_summary_request, resolve_summary, strip_code_fences, ChatMessage,
};

fn msg(role: &str, content: &str) -> ChatMessage {
    ChatMessage { role: role.to_string(), content: content.to_string() }
}

#[test]
fn parses_json_summary_payload() {
    let raw = "{\"summary\":\"User prefers Rust and asked for concise replies.\",\"importance\":\"high\"}";
    let parsed = parse_summary_response(raw).expect("parse");
    let summary = parsed.expect("summary");
    assert!(summary.content.contains("Rust"));
    assert!(summary.importance > 80);
}

#[test]
fn accepts_fenced_json_payload() {
    let raw = "```json\n{\"summary\":\"Team decided to keep sqlite vectors.\",\"importance\":\"medium\"}\n```";
    let parsed = parse_summary_response(raw).expect("parse");
    let summary = parsed.expect("summary");
    assert!(summary.content.contains("sqlite"));
}

#[test]
fn returns_none_for_empty_summary() {
    let raw = "{\"summary\":\"\",\"importance\":\"low\"}";
    let parsed = parse_summary_response(raw).expect("parse");
    assert!(parsed.is_none());
}

#[test]
fn heuristic_generates_summary() {
    let messages = vec![
        msg("user", "Please remind me that we deploy every Friday afternoon."),
        msg("assistant", "Understood, I will keep that deployment cadence in mind."),
        msg("user", "Also prefer Rust tooling over Python scripts where possible."),
    ];
    let summary = heuristic_summary(&messages).expect("summary");
    assert!(summary.content.contains("User context"));
}

#[test]
fn invalid_json_reports_parse_error() {
    let err = parse_summary_response("{not json").unwrap_err();
    assert!(err.starts_with("invalid summary response: "));
}

#[test]
fn plain_text_reply_takes_first_line() {
    let parsed = parse_summary_response("A plain answer.\nSecond line.").expect("parse");
    let summary = parsed.expect("summary");
    assert_eq!(summary.content, "A plain answer.");
    assert_eq!(summary.source, "llm-summary-text");
    assert_eq!(summary.importance, 60);
}

#[test]
fn fences_strip_json_tags() {
    assert_eq!(strip_code_fences("```json\n{\"a\":1}\n```"), "{\"a\":1}");
    assert_eq!(strip_code_fences("  plain  "), "plain");
    assert_eq!(strip_code_fences("```never closed"), "```never closed");
}

#[test]
fn transcripts_label_roles() {
    let messages = vec![msg("user", " hello "), msg("assistant", "hi"), msg("user", "  ")];
    assert_eq!(format_conversation(&messages), "USER: hello\nASSISTANT: hi");
}

#[test]
fn short_conversations_skip_the_model() {
    let messages = vec![msg("user", "hi")];
    assert!(prepare_summary_request(&messages, "PROMPT").is_none());
    assert!(prepare_summary_request(&vec![], "PROMPT").is_none());
    let long = vec![msg(
        "user",
        "Please remember that our deploy window is every Friday afternoon at four, and that we always page the on-call first.",
    )];
    let request = prepare_summary_request(&long, "PROMPT").expect("request");
    assert!(request.starts_with("PROMPT\n\n<conversation>\n"));
    assert!(request.ends_with("\n</conversation>"));
}

#[test]
fn sentences_cut_at_terminators() {
    assert_eq!(first_sentence("One. Two. Three.", 100), "One.");
    assert_eq!(first_sentence("No terminator here", 10), "No termina");
    assert_eq!(first_sentence("Line one\nline two", 100), "Line one");
}

#[test]
fn resolver_falls_back_to_heuristic() {
    let messages = vec![
        msg("user", "Please remind me that we deploy every Friday afternoon."),
        msg("assistant", "Understood, I will keep that deployment cadence in mind."),
    ];
    let from_model = resolve_summary(
        &messages,
        &Some("{\"summary\":\"Deploys happen Fridays.\",\"importance\":\"high\"}".to_string()),
    )
    .expect("summary");
    assert_eq!(from_model.source, "llm-summary");
    let fallback = resolve_summary(&messages, &Some("{broken".to_string())).expect("summary");
    assert_eq!(fallback.source, "heuristic-summary");
    let no_reply = resolve_summary(&messages, &None).expect("summary");
    assert_eq!(no_reply.source, "heuristic-summary");
}
