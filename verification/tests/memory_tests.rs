use skillhub::memory::{
    allowed_memory_path, collect_memory_file_sources, is_daily_memory_file,
    memory_path_error, read_memory_slice, remember_response, search_memory_lines, truncate,
    MemoryStore,
};

#[test]
fn store_layout_lives_under_workspace() {
    let store = MemoryStore::new("/tmp/ws".to_string());
    assert_eq!(store.memory_dir(), "/tmp/ws/memory");
    assert_eq!(store.memory_file, "/tmp/ws/memory/MEMORY.md");
    assert_eq!(store.daily_file("2025-01-01"), "/tmp/ws/memory/2025-01-01.md");
    let today = store.get_today_file();
    assert!(today.starts_with("/tmp/ws/memory/"));
    assert!(today.ends_with(".md"));
    // The clock-dependent part still has to render as a daily file name.
    let file_name = today.rsplit('/').next().expect("file name");
    assert!(is_daily_memory_file(file_name));
}

#[test]
fn sequential_appends_keep_all_facts() {
    let store = MemoryStore::new("/tmp/ws".to_string());
    let mut content = String::new();
    for i in 0..20 {
        let facts = vec![format!("fact-{i}")];
        content = store
            .append_extracted_facts(&content, &facts, "2025-01-01")
            .expect("facts to add");
    }
    for i in 0..20 {
        assert!(content.contains(&format!("fact-{i}")));
    }
    assert!(content.contains("## Extracted Notes"));
}

#[test]
fn append_remembered_fact_creates_and_appends_section() {
    let store = MemoryStore::new("/tmp/ws".to_string());
    let first = store
        .append_remembered_fact("", "User prefers concise responses", "2025-01-01")
        .expect("adds");
    let second = store
        .append_remembered_fact(&first, "User uses Rust", "2025-01-02")
        .expect("adds");
    assert!(second.contains("## Remembered Facts"));
    assert!(second.contains("User prefers concise responses"));
    assert!(second.contains("User uses Rust"));
    assert!(store.append_remembered_fact(&second, "   ", "2025-01-02").is_none());
}

#[test]
fn append_respects_following_sections() {
    let store = MemoryStore::new("/tmp/ws".to_string());
    let existing = "intro\n\n## Remembered Facts\n- [d] old\n\n## Other\nkeep me\n";
    let updated = store
        .append_remembered_fact(existing, "new fact", "2025-02-02")
        .expect("adds");
    assert!(updated.contains("- [d] old\n\n- [2025-02-02] new fact"));
    assert!(updated.contains("## Other\nkeep me"));
}

#[test]
fn truncate_cuts_at_paragraph_breaks() {
    let content = "First paragraph.\n\nSecond paragraph that runs long and gets cut somewhere.";
    let out = truncate(content, 40);
    assert_eq!(out, "First paragraph.\n\n\n... (truncated)");
    let untouched = truncate("short", 100);
    assert_eq!(untouched, "short");
}

#[test]
fn memory_context_budgets_both_files() {
    let store = MemoryStore::new("/tmp/ws".to_string());
    let out = store.get_memory_context("long term notes", "today notes", 2000);
    assert!(out.starts_with("## Long-term Memory\nlong term notes"));
    assert!(out.contains("## Today's Notes\ntoday notes"));
    let only_today = store.get_memory_context("", "today notes", 2000);
    assert_eq!(only_today, "## Today's Notes\ntoday notes");
    assert_eq!(store.get_memory_context("", "", 2000), "");
}

#[test]
fn daily_file_names_are_strict() {
    assert!(is_daily_memory_file("2025-01-31.md"));
    assert!(!is_daily_memory_file("2025-1-31.md"));
    assert!(!is_daily_memory_file("2025_01_31.md"));
    assert!(!is_daily_memory_file("2025-01-31.txt"));
    assert!(allowed_memory_path("MEMORY.md"));
    assert!(!allowed_memory_path("notes.md"));
    assert!(memory_path_error("x").contains("path must be MEMORY.md or YYYY-MM-DD.md"));
}

#[test]
fn collected_sources_put_newest_daily_files_first() {
    let listing = vec![
        ("2025-01-01.md".to_string(), "older\n".to_string()),
        ("notes.txt".to_string(), "skip me".to_string()),
        ("2025-02-01.md".to_string(), "newer\n".to_string()),
        ("2025-03-01.md".to_string(), "   ".to_string()),
    ];
    let sources = collect_memory_file_sources("General notes\n", &listing);
    assert_eq!(sources.len(), 3);
    assert_eq!(sources[0].0, "memory/MEMORY.md");
    assert_eq!(sources[1].0, "memory/2025-02-01.md");
    assert_eq!(sources[2].0, "memory/2025-01-01.md");
}

#[test]
fn memory_search_simple_scans_historical_daily_files() {
    let listing = vec![(
        "2025-01-01.md".to_string(),
        "Project decision: use rust-analyzer cache\n".to_string(),
    )];
    let sources = collect_memory_file_sources("General notes\n", &listing);
    let results = search_memory_lines(&sources, "rust-analyzer", 5);
    assert!(results.iter().any(|r| r.path == "memory/2025-01-01.md"));
    assert_eq!(results[0].snippet, "Project decision: use rust-analyzer cache");
    // The comparison folds case on both sides.
    let upper = search_memory_lines(&sources, "RUST-ANALYZER", 5);
    assert_eq!(upper.len(), 1);
}

#[test]
fn memory_slice_selects_requested_lines() {
    let content = "one\ntwo\nthree\nfour";
    assert_eq!(read_memory_slice(content, Some(2), Some(2)), "two\nthree");
    assert_eq!(read_memory_slice(content, None, None), content);
    assert_eq!(read_memory_slice(content, Some(10), Some(2)), "");
}

#[test]
fn remember_reply_quotes_the_fact() {
    assert_eq!(remember_response("use tabs"), "Remembered: use tabs");
}
