use oc_diagdoc::commands::dashboard::{DashKey, DashboardApp, FilterMode, Issue, Severity};
use oc_diagdoc::commands::verify::{VerificationPhase, VerificationResult};
use oc_diagdoc::commands::watch::{WatchCommand, WatchConfig, WatchEvent, WatchEventType};
use oc_diagdoc::files::ScanOptions;
use oc_diagdoc::links::{extract_links, extract_unique_targets, validate_links, LinkType};
use oc_diagdoc::loader::{quick_stats, QuickStats};
use oc_diagdoc::release::{BumpType, ReleaseChecklist, SemVersion, VersionBumper, VersionInfo};

#[test]
fn test_release_checklist() {
    let mut checklist = ReleaseChecklist::new();
    assert!(!checklist.is_complete());
    for i in 0..5 {
        checklist.check(i);
    }
    assert!(checklist.is_complete());
}

#[test]
fn test_version_info_new() {
    let info = VersionInfo::new("3.0.1").unwrap();
    assert_eq!(info.version.major, 3);
}

#[test]
fn test_version_display() {
    let info = VersionInfo::new("1.2.3").unwrap().with_git_hash("abc1234567890");
    assert!(info.display_string().contains("abc1234"));
    assert_eq!(info.display_string(), "1.2.3 (abc1234)");
}

#[test]
fn test_version_bumper() {
    let v = SemVersion::new(1, 2, 3);
    let bumped = VersionBumper::bump(&v, BumpType::Minor);
    assert_eq!((bumped.major, bumped.minor, bumped.patch), (1, 3, 0));
    let major = VersionBumper::bump(&v, BumpType::Major);
    assert_eq!(major.to_text(), "2.0.0");
}

#[test]
fn release_prerelease_and_errors() {
    let info = VersionInfo::new("1.0.0-beta.2+build5").unwrap();
    assert!(info.is_prerelease());
    assert_eq!(info.version.to_text(), "1.0.0-beta.2+build5");
    assert!(VersionInfo::new("uno").is_err());
}

#[test]
fn loader_quick_stats() {
    let files = vec![
        Some("---\nid: 1\n---\nuno dos".to_string()),
        Some("ñandú".to_string()),
        None,
    ];
    let s = quick_stats(&files);
    assert_eq!(s.file_count, 3);
    assert_eq!(s.total_words, 7);
    assert_eq!(s.total_bytes, 21 + 7);
    assert_eq!(s.with_frontmatter, 1);
    assert_eq!(s.avg_words_per_file(), 2);
    assert_eq!(QuickStats::default().avg_words_per_file(), 0);
}

#[test]
fn files_scan_options() {
    let o = ScanOptions::new().with_max_depth(2).with_hidden(false).with_excludes(vec!["tmp".to_string()]);
    assert_eq!(o.max_depth, 2);
    assert!(o.accepts(&Some("a.md".to_string()), &Some("md".to_string()), "docs/a.md"));
    assert!(!o.accepts(&Some(".a.md".to_string()), &Some("md".to_string()), "docs/.a.md"));
    assert!(!o.accepts(&Some("a.md".to_string()), &Some("md".to_string()), "tmp/a.md"));
    assert!(!o.accepts(&Some("a.txt".to_string()), &Some("txt".to_string()), "a.txt"));
    assert!(ScanOptions::new().with_hidden(true).accepts(&Some(".a.md".to_string()), &Some("md".to_string()), ".a.md"));
}

#[test]
fn links_extract_in_order() {
    let content = "Ver [[documento]] y [[otro|alias]] ![[img.png]] [web](https://x.org) [loc](a.md) ![alt](p.png)";
    let links = extract_links(content);
    let kinds: Vec<LinkType> = links.iter().map(|l| l.link_type).collect();
    assert_eq!(kinds, vec![LinkType::ObsidianInternal, LinkType::ObsidianInternal, LinkType::ObsidianEmbed,
        LinkType::External, LinkType::Markdown, LinkType::MarkdownEmbed]);
    assert_eq!(links[0].target, "documento");
    assert_eq!(links[1].text, Some("alias".to_string()));
    assert_eq!(links[0].position, 4);
    assert_eq!(links[0].normalized_target(), "documento.md");
    assert!(links[3].is_external());
    assert!(links[2].is_embed());
    let targets = extract_unique_targets("[[a]] [[a#x]] [[b.txt]] [w](http://q)");
    assert_eq!(targets, vec!["a.md".to_string(), "b.txt".to_string()]);
}

#[test]
fn links_validate() {
    let links = extract_links("[[a]] [[b]] [[c]]");
    let known = vec!["a.md".to_string()];
    let broken = validate_links(&links, "src.md", &vec![None, Some(true), None], &known);
    assert_eq!(broken.len(), 1);
    assert_eq!(broken[0].link.target, "c");
    assert_eq!(broken[0].reason, "Target 'c.md' not found");
    assert_eq!(broken[0].source_file, "src.md");
}

#[test]
fn test_watch_config_default() {
    let config = WatchConfig::default();
    assert_eq!(config.debounce_ms, 500);
    assert!(config.patterns.contains(&"*.md".to_string()));
}

#[test]
fn test_debounce_duration() {
    let config = WatchConfig { debounce_ms: 1000, ..Default::default() };
    assert_eq!(config.debounce_duration(), std::time::Duration::from_millis(1000));
}

#[test]
fn test_watch_event_type() {
    let event = WatchEvent { path: "test.md".to_string(), event_type: WatchEventType::Modified, timestamp: "2024-01-30".to_string() };
    assert_eq!(event.event_type, WatchEventType::Modified);
}

#[test]
fn test_watch_command_config() {
    let cmd = WatchCommand { path: None, exec_cmd: None, debounce: 1000, quiet: false, verify: true, hooks: None, max_iterations: 5 };
    assert_eq!(cmd.config().debounce_ms, 1000);
    assert!(cmd.verify);
    assert_eq!(cmd.max_iterations, 5);
    assert_eq!(cmd.rounds(), 5);
}

#[test]
fn watch_poll_rounds() {
    let cmd = WatchCommand { path: None, exec_cmd: None, debounce: 10, quiet: true, verify: false, hooks: None, max_iterations: 0 };
    assert_eq!(cmd.rounds(), 1);
    let mut known = vec![("a.md".to_string(), 1u64)];
    let ev = cmd.poll(&mut known, &vec![("a.md".to_string(), 2), ("b.md".to_string(), 5), ("a.md".to_string(), 2)]);
    assert_eq!(ev, vec![("a.md".to_string(), WatchEventType::Modified), ("b.md".to_string(), WatchEventType::Created)]);
    assert_eq!(known, vec![("a.md".to_string(), 2), ("b.md".to_string(), 5)]);
    assert_eq!(WatchCommand::hook_commands("# c\n  lint $FILE \n\n", "x.md"), vec!["lint x.md".to_string()]);
    assert_eq!(WatchCommand::exec_command("echo $FILE", "y.md"), "echo y.md");
}

#[test]
fn dashboard_issues_and_keys() {
    let mut p = VerificationPhase::new(3, "ids", "d");
    p.add_error("dup");
    p.add_warning("w1");
    let issues = Issue::from_phase(&p);
    assert_eq!(issues.len(), 2);
    assert_eq!(issues[0].id, "E03");
    assert_eq!(issues[1].id, "W03");
    assert!(issues[1].fixable);
    let mut r = VerificationResult::new();
    r.add_phase(p);
    let mut app = DashboardApp::new(&r);
    assert_eq!(app.selected, Some(0));
    app.apply_key(DashKey::Down);
    assert_eq!(app.selected, Some(1));
    app.apply_key(DashKey::Down);
    assert_eq!(app.selected, Some(0));
    app.apply_key(DashKey::Up);
    assert_eq!(app.selected, Some(1));
    app.apply_key(DashKey::ShowErrors);
    assert_eq!(app.filter, FilterMode::Errors);
    assert_eq!(app.filtered_count(), 1);
    app.apply_key(DashKey::Quit);
    assert!(app.should_quit);
    assert_eq!(Severity::Error.icon(), "❌");
    assert!(Severity::Error > Severity::Warning);
    assert_eq!(FilterMode::from_name("fixable"), FilterMode::Fixable);
    assert_eq!(FilterMode::from_name("x"), FilterMode::All);
}
