use skillhub::activate::{render_activated_skill, ActivateSkillTool};
use skillhub::frontmatter::split_frontmatter;
use skillhub::manager::{
    missing_deps, normalize_platform, parse_skill_md, platform_allowed, HostEnv, SkillDirEntry,
    SkillManager, SkillRoot,
};

fn expect_err(r: Result<(SkillMetadata, String), String>) -> String {
    match r {
        Err(e) => e,
        Ok(_) => panic!("expected an error"),
    }
}

use skillhub::manager::SkillMetadata;

fn env(platform: &str, exes: &[&str]) -> HostEnv {
    HostEnv {
        platform: platform.to_string(),
        exes: exes.iter().map(|s| s.to_string()).collect(),
    }
}

fn entry(dir_name: &str, skill_md: &str) -> SkillDirEntry {
    SkillDirEntry { dir_name: dir_name.to_string(), skill_md: Some(skill_md.to_string()) }
}

fn manager(roots: &[(&str, &str)]) -> SkillManager {
    SkillManager {
        roots: roots
            .iter()
            .map(|(p, s)| SkillRoot { path: p.to_string(), source: s.to_string() })
            .collect(),
    }
}

#[test]
fn split_frontmatter_returns_yaml_and_trimmed_body() {
    let content = "---\nname: demo\ndescription: d\n---\nBody line\nmore\n";
    let (yaml, body) = split_frontmatter(content).expect("should split");
    assert_eq!(yaml, "name: demo\ndescription: d\n");
    assert_eq!(body, "Body line\nmore");
    assert!(split_frontmatter("no frontmatter here").is_none());
    assert!(split_frontmatter("---\nnever closed\n").is_none());
}

#[test]
fn parse_skill_md_reads_all_fields() {
    let content = "---\nname: demo\ndescription: A demo\nplatforms:\n  - Linux\n  - macOS\ndeps:\n  - git\ncompatibility:\n  os:\n    - linux\n  deps:\n    - curl\nsource: registry\nversion: 1.2.0\nupdated_at: yesterday\n---\nInstructions here.\n";
    let (meta, body) = parse_skill_md(content, "/roots/demo", "workspace").expect("parses");
    assert_eq!(meta.name, "demo");
    assert_eq!(meta.description, "A demo");
    assert_eq!(meta.platforms, vec!["darwin".to_string(), "linux".to_string()]);
    assert_eq!(meta.deps, vec!["curl".to_string(), "git".to_string()]);
    assert_eq!(meta.source, "registry");
    assert_eq!(meta.version.as_deref(), Some("1.2.0"));
    assert_eq!(meta.updated_at.as_deref(), Some("yesterday"));
    assert_eq!(body, "Instructions here.");
}

#[test]
fn parse_skill_md_falls_back_to_directory_name() {
    let content = "---\ndescription: unnamed\n---\nBody\n";
    let (meta, _) = parse_skill_md(content, "/roots/weather", "workspace").expect("parses");
    assert_eq!(meta.name, "weather");
    assert_eq!(meta.source, "workspace");
}

#[test]
fn normalize_platform_folds_mac_names() {
    assert_eq!(normalize_platform(" macOS "), "darwin");
    assert_eq!(normalize_platform("OSX"), "darwin");
    assert_eq!(normalize_platform("Linux"), "linux");
}

#[test]
fn platform_gate_accepts_wildcards() {
    assert!(platform_allowed(&vec![], "linux"));
    assert!(platform_allowed(&vec!["all".to_string()], "windows"));
    assert!(platform_allowed(&vec!["*".to_string()], "darwin"));
    assert!(platform_allowed(&vec!["macos".to_string()], "darwin"));
    assert!(!platform_allowed(&vec!["windows".to_string()], "linux"));
}

#[test]
fn probe_candidates_respect_declared_extensions() {
    let cands = skillhub::manager::command_probe_candidates("tool", ".COM; .EXE ;;.BAT");
    assert_eq!(cands, vec!["tool", "tool.com", "tool.exe", "tool.bat"]);
    // A command already carrying a listed extension is probed as given.
    let plain = skillhub::manager::command_probe_candidates("Tool.EXE", ".COM;.EXE");
    assert_eq!(plain, vec!["Tool.EXE"]);
}

#[test]
fn missing_deps_reports_unresolved_names() {
    let host = env("linux", &["git"]);
    let missing = missing_deps(&vec!["git".to_string(), "jq".to_string(), " ".to_string()], &host);
    assert_eq!(missing, vec!["jq".to_string()]);
}

#[test]
fn discovers_workspace_skills() {
    let m = manager(&[("workspace/skills", "workspace")]);
    let listings = vec![vec![entry(
        "weather",
        "---\nname: weather\ndescription: Check weather\n---\nUse this skill to check weather.\n",
    )]];
    let host = env("linux", &[]);
    let skills = m.discover_skills(&listings, &host);
    assert_eq!(skills.len(), 1);
    assert_eq!(skills[0].name, "weather");
    assert_eq!(skills[0].dir_path, "workspace/skills/weather");
}

#[test]
fn precedence_uses_later_roots() {
    let m = manager(&[("personal", "agents-personal"), ("workspace", "workspace")]);
    let listings = vec![
        vec![entry("demo", "---\nname: demo\ndescription: Personal version\n---\nPersonal body\n")],
        vec![entry("demo", "---\nname: demo\ndescription: Workspace version\n---\nWorkspace body\n")],
    ];
    let host = env("linux", &[]);
    let (meta, body) = m.load_skill_checked("demo", &listings, &host).expect("loads");
    assert_eq!(meta.description, "Workspace version");
    assert!(body.contains("Workspace body"));
    let catalog = m.discover_skills(&listings, &host);
    assert_eq!(catalog.len(), 1);
    assert_eq!(catalog[0].description, "Workspace version");
}

#[test]
fn rejects_missing_dependencies() {
    let m = manager(&[("root", "workspace")]);
    let listings = vec![vec![entry(
        "needs-tool",
        "---\nname: needs-tool\ndescription: Needs deps\ndeps:\n  - totally-not-a-real-binary-12345\n---\nRequires a dependency.\n",
    )]];
    let host = env("linux", &[]);
    let err = expect_err(m.load_skill_checked("needs-tool", &listings, &host));
    assert!(err.contains("missing required dependencies"));
    // The gated catalog keeps the skill out entirely.
    assert_eq!(m.discover_skills(&listings, &host).len(), 0);
    // The not-found message lists nothing when the catalog is empty.
    let err2 = expect_err(m.load_skill_checked("absent", &listings, &host));
    assert!(err2.contains("No skills are currently available"));
}

#[test]
fn install_then_discover_round_trip() {
    // A manifest installed under a root comes back out of the catalog with
    // its name, and activation serves the content after the frontmatter.
    let source_manifest = "---\nname: demo\ndescription: Demo skill\n---\nUse this skill for demo tasks.\n";
    let m = manager(&[("skills", "workspace")]);
    let listings = vec![vec![entry("demo", source_manifest)]];
    let host = env("linux", &[]);
    let catalog = m.discover_skills(&listings, &host);
    assert_eq!(catalog.len(), 1);
    assert_eq!(catalog[0].name, "demo");
    let (_, body) = m.load_skill_checked("demo", &listings, &host).expect("loads");
    assert_eq!(body, "Use this skill for demo tasks.");
}

#[test]
fn platform_gate_prefers_lower_root_in_catalog_only() {
    // A later root whose entry fails a gate never enters the catalog, so
    // the earlier passing entry survives there; activation still resolves
    // to the later root and reports its gate failure.
    let m = manager(&[("personal", "agents-personal"), ("workspace", "workspace")]);
    let listings = vec![
        vec![entry("demo", "---\nname: demo\ndescription: Works anywhere\n---\nBody A\n")],
        vec![entry(
            "demo",
            "---\nname: demo\ndescription: Needs tool\ndeps:\n  - no-such-tool-xyz\n---\nBody B\n",
        )],
    ];
    let host = env("linux", &[]);
    let catalog = m.discover_skills(&listings, &host);
    assert_eq!(catalog.len(), 1);
    assert_eq!(catalog[0].description, "Works anywhere");
    let err = expect_err(m.load_skill_checked("demo", &listings, &host));
    assert!(err.contains("missing required dependencies"));
    assert!(err.contains("no-such-tool-xyz"));
}

#[test]
fn three_roots_follow_the_two_mode_asymmetry() {
    // The lowest root passes, the middle root's entry fails its dependency
    // gate, the highest root does not define the name at all: the catalog
    // keeps the passing entry, while activation resolves to the middle
    // root's entry and reports its missing dependency.
    let m = manager(&[("low", "agents-personal"), ("mid", "agents-project"), ("high", "workspace")]);
    let listings = vec![
        vec![entry("demo", "---
name: demo
description: Low version
---
Low body
")],
        vec![entry(
            "demo",
            "---
name: demo
description: Mid version
deps:
  - no-such-tool-abc
---
Mid body
",
        )],
        vec![entry("other", "---
name: other
description: Unrelated
---
Other body
")],
    ];
    let host = env("linux", &[]);
    let catalog = m.discover_skills(&listings, &host);
    let demo: Vec<_> = catalog.iter().filter(|s| s.name == "demo").collect();
    assert_eq!(demo.len(), 1);
    assert_eq!(demo[0].description, "Low version");
    assert_eq!(demo[0].source, "agents-personal");
    let err = expect_err(m.load_skill_checked("demo", &listings, &host));
    assert!(err.contains("missing required dependencies"));
    assert!(err.contains("no-such-tool-abc"));
}

#[test]
fn build_skills_catalog_wraps_entries() {
    let m = manager(&[("skills", "workspace")]);
    let listings = vec![vec![
        entry("a", "---\nname: alpha\ndescription: First\n---\nA\n"),
        entry("b", "---\nname: beta\ndescription: Second\n---\nB\n"),
    ]];
    let host = env("linux", &[]);
    let catalog = m.build_skills_catalog(&listings, &host);
    assert_eq!(
        catalog,
        "<available_skills>\n- alpha: First\n- beta: Second\n</available_skills>"
    );
    let empty = m.build_skills_catalog(&vec![vec![]], &host);
    assert_eq!(empty, "");
}

#[test]
fn from_workspace_dir_orders_roots() {
    let m = SkillManager::from_workspace_dir("/ws", Some("/home/me"));
    assert_eq!(m.roots.len(), 3);
    assert_eq!(m.roots[0].path, "/home/me/.agents/skills");
    assert_eq!(m.roots[0].source, "agents-personal");
    assert_eq!(m.roots[1].path, "/ws/.agents/skills");
    assert_eq!(m.roots[2].source, "workspace");
    let without_home = SkillManager::from_workspace_dir("/ws", None);
    assert_eq!(without_home.roots.len(), 2);
}

#[test]
fn activate_skill_returns_instructions() {
    let m = manager(&[("skills", "workspace")]);
    let tool = ActivateSkillTool::new(m);
    let listings = vec![vec![entry(
        "demo",
        "---\nname: demo\ndescription: Demo skill\n---\nUse this skill for demo tasks.\n",
    )]];
    let host = env("linux", &[]);
    let out = tool.activate(&listings, &host, "demo").expect("activates");
    assert!(out.contains("# Skill: demo"));
    assert!(out.contains("Demo skill"));
    assert!(out.contains("Use this skill for demo tasks."));

    let err = tool.activate(&listings, &host, "  ").unwrap_err();
    assert_eq!(err, "Missing required field: skill_name");
    let not_found = tool.activate(&listings, &host, "nope").expect("text");
    assert!(not_found.starts_with("Error: Skill 'nope' not found."));
    assert!(not_found.contains("Available skills: demo"));
}

#[test]
fn render_lists_platforms_and_deps() {
    let content = "---\nname: demo\ndescription: D\nplatforms:\n  - linux\ndeps:\n  - git\n---\nBody\n";
    let (meta, body) = parse_skill_md(content, "/r/demo", "workspace").expect("parses");
    let text = render_activated_skill(&meta, &body);
    assert!(text.contains("Platforms: linux\n"));
    assert!(text.contains("Dependencies: git\n"));
    assert!(text.contains("\n## Instructions\n\nBody"));
}
