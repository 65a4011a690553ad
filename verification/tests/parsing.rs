use skillhub::discover::{
    discover_skills, filter_discovered_skills, normalize_filters, DiscoveredSkill, EntryKind,
    FsEntry,
};
use skillhub::errors::SkillError;
use skillhub::install::{
    is_safe_relative_path, pick_unique_install_name, zip_entry_safe_path,
};
use skillhub::sanitize::sanitize_name;
use skillhub::source::{is_local_path, parse_owner_repo_source, parse_source};

#[test]
fn sanitize_name_normalizes_and_trims() {
    assert_eq!(sanitize_name("  Hello World!  "), "hello-world");
    assert_eq!(sanitize_name("../My_Skill"), "my_skill");
    assert_eq!(sanitize_name("..."), "unnamed-skill");
}

#[test]
fn mod_sanitize_name_normalizes_and_trims() {
    assert_eq!(sanitize_name("  Hello World!  "), "hello-world");
    assert_eq!(sanitize_name("../My_Skill"), "my_skill");
    assert_eq!(sanitize_name("..."), "unnamed-skill");
}

#[test]
fn parse_source_supports_owner_repo_with_filter() {
    let parsed = parse_source("vercel-labs/agent-skills@web-design").expect("should parse");
    assert_eq!(
        parsed.git_url.as_deref(),
        Some("https://github.com/vercel-labs/agent-skills.git")
    );
    assert_eq!(parsed.skill_filter.as_deref(), Some("web-design"));
    assert!(parsed.subpath.is_none());
}

#[test]
fn mod_parse_source_supports_owner_repo_with_filter() {
    let parsed = parse_source("vercel-labs/agent-skills@web-design").expect("should parse");
    assert_eq!(
        parsed.git_url.as_deref(),
        Some("https://github.com/vercel-labs/agent-skills.git")
    );
    assert_eq!(parsed.skill_filter.as_deref(), Some("web-design"));
    assert!(parsed.subpath.is_none());
}

#[test]
fn filters_blank_after_prefix_strip_are_dropped() {
    // An entry left blank by the prefix strip vanishes entirely, so a
    // filter list of such entries keeps every skill.
    assert_eq!(normalize_filters(&vec!["x@".to_string()]), Vec::<String>::new());
    assert_eq!(normalize_filters(&vec!["owner/repo@  ".to_string()]), Vec::<String>::new());
    let skills = vec![DiscoveredSkill {
        dir: vec!["root".to_string(), "web".to_string()],
        name: None,
    }];
    let kept = filter_discovered_skills(skills, &vec!["x@".to_string()]);
    assert_eq!(kept.len(), 1);
}

#[test]
fn normalize_filters_extracts_at_suffix() {
    let filters = vec![
        "owner/repo@My Skill".to_string(),
        "Frontend".to_string(),
        " ".to_string(),
    ];
    let normalized = normalize_filters(&filters);
    assert_eq!(normalized, vec!["my skill", "frontend"]);
}

#[test]
fn mod_normalize_filters_extracts_at_suffix() {
    let filters = vec![
        "owner/repo@My Skill".to_string(),
        "Frontend".to_string(),
        " ".to_string(),
    ];
    let normalized = normalize_filters(&filters);
    assert_eq!(normalized, vec!["my skill", "frontend"]);
}

#[test]
fn parse_source_rejects_empty_input() {
    match parse_source("   ") {
        Err(SkillError::Validation(m)) => assert_eq!(m, "source cannot be empty"),
        _ => panic!("expected a validation error"),
    }
}

#[test]
fn parse_source_prefers_local_paths() {
    let parsed = parse_source("./skills/demo").expect("should parse");
    assert_eq!(parsed.local_path.as_deref(), Some("./skills/demo"));
    assert!(parsed.git_url.is_none());
    assert!(is_local_path("/abs/path"));
    assert!(is_local_path(".."));
    assert!(!is_local_path("owner/repo"));
}

#[test]
fn parse_source_reads_github_tree_urls() {
    let parsed =
        parse_source("https://github.com/acme/tools.git/").expect("should parse");
    assert_eq!(parsed.git_url.as_deref(), Some("https://github.com/acme/tools.git"));
    let with_ref =
        parse_source("https://github.com/acme/tools/tree/main/skills/web").expect("parse");
    assert_eq!(with_ref.git_url.as_deref(), Some("https://github.com/acme/tools.git"));
    assert_eq!(with_ref.ref_name.as_deref(), Some("main"));
    assert_eq!(with_ref.subpath.as_deref(), Some("skills/web"));
}

#[test]
fn parse_source_falls_back_to_raw_git_urls() {
    let parsed = parse_source("git@example.com:acme/tools.git").expect("should parse");
    assert_eq!(parsed.git_url.as_deref(), Some("git@example.com:acme/tools.git"));
    assert!(parsed.local_path.is_none());
}

#[test]
fn owner_repo_rejects_domain_like_owners() {
    let parsed = parse_owner_repo_source("example.com/repo").expect("never errs");
    assert!(parsed.is_none());
    let dotted = parse_owner_repo_source(".hidden/repo").expect("never errs");
    assert!(dotted.is_none());
}

#[test]
fn owner_repo_collects_subpaths() {
    let parsed = parse_source("acme/tools/skills/web").expect("should parse");
    assert_eq!(parsed.git_url.as_deref(), Some("https://github.com/acme/tools.git"));
    assert_eq!(parsed.subpath.as_deref(), Some("skills/web"));
    assert!(parsed.skill_filter.is_none());
}

fn file_entry(path: &[&str], content: &str) -> FsEntry {
    FsEntry {
        path: path.iter().map(|s| s.to_string()).collect(),
        kind: EntryKind::File,
        content: content.to_string(),
    }
}

fn dir_entry(path: &[&str]) -> FsEntry {
    FsEntry {
        path: path.iter().map(|s| s.to_string()).collect(),
        kind: EntryKind::Dir,
        content: String::new(),
    }
}

const DEMO_MANIFEST: &str = "---\nname: Demo Skill\ndescription: Example\n---\nBody\n";

#[test]
fn discovery_finds_nested_skills_once() {
    let entries = vec![
        dir_entry(&["a"]),
        file_entry(&["a", "SKILL.md"], DEMO_MANIFEST),
        file_entry(&["a", "SKILL.md"], DEMO_MANIFEST),
        dir_entry(&["node_modules"]),
        file_entry(&["node_modules", "x", "SKILL.md"], DEMO_MANIFEST),
        file_entry(&["b", "notes.txt"], ""),
    ];
    let found = discover_skills("root", &entries);
    assert_eq!(found.len(), 1);
    assert_eq!(found[0].dir, vec!["root".to_string(), "a".to_string()]);
    assert_eq!(found[0].name.as_deref(), Some("Demo Skill"));
}

#[test]
fn discovery_is_idempotent() {
    let entries = vec![
        file_entry(&["SKILL.md"], DEMO_MANIFEST),
        dir_entry(&["a"]),
        file_entry(&["a", "SKILL.md"], DEMO_MANIFEST),
    ];
    let first = discover_skills("root", &entries);
    let second = discover_skills("root", &entries);
    assert_eq!(first.len(), second.len());
    for (x, y) in first.iter().zip(second.iter()) {
        assert_eq!(x.dir, y.dir);
        assert_eq!(x.name, y.name);
    }
    assert_eq!(first.len(), 2);
    assert_eq!(first[0].dir, vec!["root".to_string()]);
}

#[test]
fn filters_match_directory_or_declared_name() {
    let skills = vec![
        DiscoveredSkill {
            dir: vec!["root".to_string(), "web-design".to_string()],
            name: Some("Web Design".to_string()),
        },
        DiscoveredSkill {
            dir: vec!["root".to_string(), "other".to_string()],
            name: None,
        },
    ];
    let kept = filter_discovered_skills(skills, &vec!["owner/repo@WEB DESIGN".to_string()]);
    assert_eq!(kept.len(), 1);
    assert_eq!(kept[0].dir[1], "web-design");

    let all = filter_discovered_skills(
        vec![DiscoveredSkill { dir: vec!["r".to_string()], name: None }],
        &vec!["*".to_string()],
    );
    assert_eq!(all.len(), 1);
}

#[test]
fn unique_names_get_numbered_suffixes() {
    let mut used: Vec<String> = Vec::new();
    assert_eq!(pick_unique_install_name("demo", &mut used), "demo");
    assert_eq!(pick_unique_install_name("demo", &mut used), "demo-2");
    assert_eq!(pick_unique_install_name("demo", &mut used), "demo-3");
    assert_eq!(pick_unique_install_name("other", &mut used), "other");
}

#[test]
fn safe_relative_paths_reject_traversal() {
    assert!(is_safe_relative_path("a/b/c.txt"));
    assert!(is_safe_relative_path("a/./c.txt"));
    assert!(!is_safe_relative_path("../escape"));
    assert!(!is_safe_relative_path("a/../../b"));
    assert!(!is_safe_relative_path("/rooted"));
}

#[test]
fn zip_guard_contains_entries() {
    assert_eq!(
        zip_entry_safe_path("dir/file.txt"),
        Some(vec!["dir".to_string(), "file.txt".to_string()])
    );
    assert_eq!(
        zip_entry_safe_path("wrap\\inner\\x"),
        Some(vec!["wrap".to_string(), "inner".to_string(), "x".to_string()])
    );
    assert_eq!(zip_entry_safe_path("a/../b"), Some(vec!["b".to_string()]));
    assert_eq!(zip_entry_safe_path("../evil"), None);
    assert_eq!(zip_entry_safe_path("a/../../evil"), None);
    assert_eq!(zip_entry_safe_path("C:/windows"), None);
}

#[test]
fn parse_frontmatter_reads_name() {
    let markdown = "---\nname: Demo Skill\ndescription: Example\n---\nBody\n";
    let parsed = skillhub::discover::parse_frontmatter(markdown).expect("frontmatter should parse");
    assert_eq!(parsed.name.as_deref(), Some("Demo Skill"));
}

#[test]
fn mod_parse_frontmatter_reads_name() {
    let markdown = "---\nname: Demo Skill\ndescription: Example\n---\nBody\n";
    let parsed = skillhub::discover::parse_frontmatter(markdown).expect("frontmatter should parse");
    assert_eq!(parsed.name.as_deref(), Some("Demo Skill"));
}
