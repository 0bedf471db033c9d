use dsh_launcher::skill::frontmatter::WriteError;
use dsh_launcher::skill::import::{
    batch_import, batch_item, batch_report, batch_targets, check_repo_url, plan_one, plan_report, precheck_frontmatter, FileChange, FileDiff,
    ImportError, ImportItem, ImportReport, SkillImportPlan, SourceFile,
};
use dsh_launcher::skill::manage::{
    backup_dir_name, changed_report, is_bundle_file, now_secs, rollback_message, trash_entry_name, trashed_report,
    unchanged_report, verify_written,
};
use dsh_launcher::skill::scan::{
    count_in_state, entry_layout, frontmatter_state, is_valid_skill_name, mark_overrides, parse_entry,
    read_string_field, sort_skills, split_lines, EntryLayout, SkillEntry, SkillError, SkillRoot, SkillState,
};
use dsh_launcher::skill::source::{SourceRecord, SourceRegistry, SCHEMA_VERSION};
use dsh_launcher::skill::update::{check_sources, is_write, summarize_plan};

#[test]
fn skill_name_validation_matches_official() {
    for ok in ["a", "research", "tauri-app-autostart", "gpui-kit", "x1", "a-1-b"] {
        assert!(is_valid_skill_name(ok), "{ok}");
    }
    for bad in ["", "Research", "my_skill", "my.skill", "-lead", "trail-", "a--b", "a b", "技能"] {
        assert!(!is_valid_skill_name(bad), "{bad}");
    }
}

#[test]
fn split_lines_strips_crlf() {
    let lines = split_lines("---\r\nname: x\r\n---\r\n");
    assert_eq!(lines, vec!["---", "name: x", "---"]);
}

#[test]
fn reads_plain_and_quoted_scalars() {
    let text = "---\nname: research\ndescription: \"a: b\"\n---\n";
    assert_eq!(read_string_field(text, "name").unwrap(), "research");
    assert_eq!(read_string_field(text, "description").unwrap(), "a: b");
}

#[test]
fn reads_block_scalar() {
    let text = "---\nname: gpui-bench\ndescription: >-\n  Line one.\n  Line two.\n---\n";
    assert_eq!(read_string_field(text, "description").unwrap(), "Line one. Line two.");
}

#[test]
fn reads_plain_multiline_scalar() {
    let text = "---\nname: x\ndescription:\n  First.\n  Second.\n---\n";
    assert_eq!(read_string_field(text, "description").unwrap(), "First. Second.");
}

#[test]
fn nested_key_is_not_top_level_field() {
    let text = "---\nname: rust-skills\nmetadata:\n  name: nested\n---\n";
    assert_eq!(read_string_field(text, "name").unwrap(), "rust-skills");
}

#[test]
fn field_reading_stops_at_closing_line() {
    let text = "---\nname: x\n---\ndescription: late\n";
    assert_eq!(read_string_field(text, "description"), None);
    assert_eq!(read_string_field("---\ndescription: >\n---\n", "description"), None);
    assert_eq!(split_lines(""), vec![""]);
}

#[test]
fn frontmatter_state_labels() {
    assert_eq!(frontmatter_state("---\nname: x\n---\n"), "unset");
    assert_eq!(frontmatter_state("---\ndisable-model-invocation: true\n---\n"), "disabled");
    assert_eq!(frontmatter_state("no"), "unreadable");
}

fn root() -> SkillRoot {
    SkillRoot { path: "/r".to_string(), source: "user-agents", rank: 500, skip_system: false }
}

#[test]
fn parse_entry_states_and_reasons() {
    let e = parse_entry(None, "/r/a/SKILL.md".into(), "a".into(), true, &root(), false);
    assert_eq!(e.state, SkillState::Unreadable);
    assert_eq!(e.reason.as_deref(), Some("无法读取 SKILL.md"));
    assert_eq!(e.name, "a");
    let e = parse_entry(Some("---\ndescription: d\n---\n"), "/r/b.md".into(), "b".into(), false, &root(), false);
    assert_eq!(e.reason.as_deref(), Some("frontmatter 缺少必填字段 name"));
    assert_eq!(e.name, "b");
    let e = parse_entry(Some("---\nname: n\n---\n"), "/r/b.md".into(), "b".into(), false, &root(), false);
    assert_eq!(e.reason.as_deref(), Some("frontmatter 缺少必填字段 description"));
    let e = parse_entry(
        Some("---\nname: n\ndescription: d\ndisable-model-invocation: true\n---\n"),
        "/r/n/SKILL.md".into(),
        "dir".into(),
        true,
        &root(),
        true,
    );
    assert_eq!(e.state, SkillState::Disabled);
    assert_eq!(e.name, "n");
    assert_eq!(e.description, "d");
    assert_eq!(e.rank, 500);
    assert_eq!(e.source, "user-agents");
    assert!(e.is_symlink);
    assert!(!SkillState::Conflict.writable());
    assert!(SkillState::Disabled.writable());
}

fn entry(name: &str, rank: u32) -> SkillEntry {
    parse_entry(Some(&format!("---\nname: {name}\ndescription: d\n---\n")), format!("/{rank}/{name}"), name.into(), true, &root(), false)
        .clone_with_rank(rank)
}

trait WithRank {
    fn clone_with_rank(self, rank: u32) -> SkillEntry;
}

impl WithRank for SkillEntry {
    fn clone_with_rank(mut self, rank: u32) -> SkillEntry {
        self.rank = rank;
        self
    }
}

#[test]
fn higher_rank_wins_same_name() {
    let marked = mark_overrides(vec![entry("a", 500), entry("b", 500), entry("a", 400)]);
    assert_eq!(marked[0].overridden_by, None);
    assert_eq!(marked[1].overridden_by, None);
    assert_eq!(marked[2].overridden_by.as_deref(), Some("a"));
    assert_eq!(count_in_state(&marked, SkillState::Enabled), 3);
    assert_eq!(count_in_state(&marked, SkillState::Disabled), 0);
}

#[test]
fn skill_error_messages() {
    assert_eq!(SkillError::NotManaged("x".into()).message(), "技能已变化，请刷新：x");
    assert_eq!(SkillError::Unchanged.message(), "无需变更");
    assert_eq!(SkillError::Frontmatter(WriteError::DuplicateKey).message(), WriteError::DuplicateKey.message());
    assert_eq!(SkillError::Io("disk".into()).message(), "disk");
}

fn record(url: &str, skills: &[&str]) -> SourceRecord {
    SourceRecord {
        name: None,
        url: url.to_string(),
        commit: Some("abc123".to_string()),
        imported_at: "1700000000".to_string(),
        checked_at: None,
        last_update_count: 0,
        skills: skills.iter().map(|s| s.to_string()).collect(),
    }
}

#[test]
fn upsert_replaces_by_url_instead_of_appending() {
    let mut reg = SourceRegistry::default();
    reg.upsert(record("https://x/y", &["a"]));
    reg.upsert(record("https://x/y", &["a", "b"]));
    assert_eq!(reg.sources.len(), 1);
    assert_eq!(reg.sources[0].skills.len(), 2);
}

#[test]
fn finds_source_by_skill_name() {
    let mut reg = SourceRegistry::default();
    reg.upsert(record("https://x/y", &["alpha", "beta"]));
    assert_eq!(reg.source_of_skill("beta").map(|s| s.url.as_str()), Some("https://x/y"));
    assert!(reg.source_of_skill("gamma").is_none());
}

#[test]
fn registry_find_display_name_and_loading() {
    let mut reg = SourceRegistry::default();
    reg.upsert(record("https://a", &["x"]));
    reg.upsert(record("https://b", &["y"]));
    assert_eq!(reg.find("https://b").unwrap().skills, vec!["y"]);
    assert!(reg.find("https://c").is_none());
    let mut r = record("https://a", &[]);
    assert_eq!(r.display_name(), "https://a");
    r.name = Some("  ".into());
    assert_eq!(r.display_name(), "https://a");
    r.name = Some("Label".into());
    assert_eq!(r.display_name(), "Label");
    let loaded = SourceRegistry::loaded(None);
    assert_eq!(loaded.schema_version, SCHEMA_VERSION);
    assert!(loaded.sources.is_empty());
    let zero = SourceRegistry { schema_version: 0, sources: vec![record("https://a", &[])] };
    let loaded = SourceRegistry::loaded(Some(zero));
    assert_eq!(loaded.schema_version, SCHEMA_VERSION);
    assert_eq!(loaded.sources.len(), 1);
}

#[test]
fn empty_registry_check_gives_guidance() {
    let report = check_sources(&Vec::new(), Vec::new()).unwrap();
    assert_eq!(report.source_count, 0);
    assert_eq!(report.actionable_total, 0);
    assert!(report.message.contains("尚无已登记来源"), "{}", report.message);
}

#[test]
fn unreachable_source_is_recorded_without_stopping_the_check() {
    let mut registry = SourceRegistry::default();
    registry.upsert(SourceRecord {
        name: None,
        url: "https://example.invalid/definitely/not/a/repo".to_string(),
        commit: Some("deadbeef".to_string()),
        imported_at: "0".to_string(),
        checked_at: None,
        last_update_count: 0,
        skills: vec!["x".to_string()],
    });
    let outcomes = vec![Err(ImportError::CloneFailed("unreachable".to_string()))];
    let report = check_sources(&registry.sources, outcomes).unwrap();
    assert_eq!(report.source_count, 1);
    assert_eq!(report.sources.len(), 1);
    assert!(report.sources[0].error.is_some(), "{:?}", report.sources[0].error);
    assert_eq!(report.actionable_total, 0);
    assert!(report.message.contains("检查失败"), "{}", report.message);
}

#[test]
fn source_name_field_and_display_fallback() {
    let with_name = SourceRecord {
        name: Some("我的仓库".to_string()),
        url: "https://x/y".to_string(),
        commit: None,
        imported_at: "1".to_string(),
        checked_at: None,
        last_update_count: 0,
        skills: vec![],
    };
    assert_eq!(with_name.display_name(), "我的仓库");
    let no_name = SourceRecord { name: None, url: "https://x/y".to_string(), ..with_name.clone() };
    assert_eq!(no_name.display_name(), "https://x/y");
}

#[test]
fn write_judgement_only_added_and_updated() {
    for (change, expected) in [
        (FileChange::Added, true),
        (FileChange::Updated, true),
        (FileChange::Same, false),
        (FileChange::LocalOnly, false),
        (FileChange::Removed, false),
    ] {
        let diff = FileDiff { path: "x".to_string(), change };
        assert_eq!(is_write(&diff), expected, "{change:?}");
    }
}

#[test]
fn timestamp_is_digits() {
    let ts = now_secs();
    assert!(ts.chars().all(|c| c.is_ascii_digit()), "ts={ts}");
}

#[test]
fn toggle_reports_and_names() {
    let r = unchanged_report("grill-me", true);
    assert!(!r.changed);
    assert_eq!(r.message, "grill-me 已是「启用」状态，无需变更");
    let r = changed_report("grill-me", false, "/b/SKILL.md".into());
    assert_eq!(r.message, "grill-me 已停用（dsh 热重载生效，无需重启）");
    assert_eq!(r.backup.as_deref(), Some("/b/SKILL.md"));
    assert_eq!(backup_dir_name("a.b/c-d_e"), "a_b_c-d_e");
    assert_eq!(trash_entry_name("x", "17"), "x-17");
}

#[test]
fn verify_written_checks_fields_and_state() {
    assert!(verify_written("---\nname: a\ndescription: b\ndisable-model-invocation: true\n---\n", true).is_ok());
    assert!(verify_written("---\nname: a\ndescription: b\n---\n", false).is_ok());
    assert_eq!(
        verify_written("---\nname: a\ndescription: b\n---\n", true).unwrap_err(),
        "复验失败：写入后 disable-model-invocation 取值不符合预期（当前 Unset）"
    );
    assert_eq!(verify_written("---\ndescription: b\n---\n", true).unwrap_err(), "复验失败：写入后 frontmatter 的 name 丢失");
}

#[test]
fn repo_url_precheck() {
    assert!(matches!(check_repo_url("not a url at all"), Err(ImportError::CloneFailed(_))));
    assert!(matches!(check_repo_url("   "), Err(ImportError::CloneFailed(ref d)) if d == "URL 为空"));
    assert_eq!(check_repo_url(" https://github.com/x/y ").unwrap(), "https://github.com/x/y");
    assert!(check_repo_url("C:\\repos\\x").is_ok());
    assert_eq!(ImportError::NoSkills("r".into()).message(), "该仓库中没有找到任何技能：r");
}

#[test]
fn plan_one_diffs_and_skips() {
    let src = vec![
        SourceFile { path: "b.md".into(), target_exists: true, same_content: false },
        SourceFile { path: "SKILL.md".into(), target_exists: true, same_content: true },
        SourceFile { path: "a.md".into(), target_exists: false, same_content: false },
    ];
    let target = vec!["SKILL.md".to_string(), "b.md".to_string(), "local.txt".to_string()];
    let p = plan_one("dir".into(), "skills/x".into(), Some(("alpha".into(), "d".into())), "/t/alpha".into(), &src, &target);
    assert_eq!((p.added, p.updated, p.same, p.local_only), (1, 1, 1, 1));
    assert!(p.actionable);
    assert_eq!(
        p.files.iter().map(|d| (d.path.as_str(), d.change)).collect::<Vec<_>>(),
        vec![
            ("SKILL.md", FileChange::Same),
            ("a.md", FileChange::Added),
            ("b.md", FileChange::Updated),
            ("local.txt", FileChange::LocalOnly)
        ]
    );
    assert_eq!(summarize_plan(&p), "新增 1 / 覆盖 1 / 相同 1 / 保留本地 1");
    let skipped = plan_one("Bad_Name".into(), "x".into(), Some(("Bad_Name".into(), "d".into())), "/t".into(), &src, &target);
    assert!(skipped.skip_reason.is_some());
    assert!(!skipped.actionable);
    let none = plan_one("nodesc".into(), "x".into(), None, "/t".into(), &src, &target);
    assert_eq!(none.name, "nodesc");
    assert!(none.skip_reason.is_some());
    let report = plan_report("/repo", "https://x", None, vec![p, skipped, none]).unwrap();
    assert!(!report.applied);
    assert_eq!(report.message, "共发现 1 个技能（跳过 2 个）；1 个需要写入");
    assert!(matches!(plan_report("/repo", "https://x", None, vec![]), Err(ImportError::NoSkills(_))));
}

#[test]
fn batch_items_and_report() {
    let skipped = ImportItem { name: "n".into(), url: "  ".into() };
    assert!(skipped.target().is_none());
    let r1 = batch_item(&skipped, None);
    assert!(!r1.ok);
    assert_eq!(r1.message, "URL 为空，已跳过");
    let item = ImportItem { name: " ".into(), url: " https://x ".into() };
    let (url, name) = item.target().unwrap();
    assert_eq!(url, "https://x");
    assert_eq!(name, None);
    let r2 = batch_item(&item, Some(Err(ImportError::CloneFailed("boom".into()))));
    assert_eq!(r2.name, "https://x");
    assert_eq!(r2.message, "克隆仓库失败：boom");
    let report = batch_report(vec![r1, r2], false);
    assert_eq!((report.ok_count, report.failed_count), (0, 2));
    assert_eq!(report.message, "批量预览完成：成功 0 个，失败 2 个");
}

#[test]
fn precheck_uses_frontmatter_rules() {
    assert!(precheck_frontmatter("---\nname: x\n---\n").is_ok());
    assert_eq!(precheck_frontmatter("nope"), Err(WriteError::NoFrontmatter));
}

#[test]
fn listing_order_is_rank_then_lowercased_name_then_path() {
    let mut same_name = entry("Beta", 400);
    same_name.path = "/400/a-first".to_string();
    let sorted = sort_skills(vec![
        entry("zeta", 400),
        entry("Beta", 400),
        entry("alpha", 500),
        same_name,
        entry("beta-two", 500),
        entry("Alpha", 400),
    ]);
    let got: Vec<(u32, &str, &str)> = sorted.iter().map(|e| (e.rank, e.name.as_str(), e.path.as_str())).collect();
    assert_eq!(
        got,
        vec![
            (500, "alpha", "/500/alpha"),
            (500, "beta-two", "/500/beta-two"),
            (400, "Alpha", "/400/Alpha"),
            (400, "Beta", "/400/Beta"),
            (400, "Beta", "/400/a-first"),
            (400, "zeta", "/400/zeta"),
        ]
    );
    let marked = mark_overrides(sort_skills(vec![entry("a", 400), entry("a", 500)]));
    assert_eq!(marked[0].rank, 500);
    assert_eq!(marked[0].overridden_by, None);
    assert_eq!(marked[1].overridden_by.as_deref(), Some("a"));
}

#[test]
fn root_entries_layout() {
    assert_eq!(entry_layout(".trash", false, true, false), EntryLayout::Skip);
    assert_eq!(entry_layout(".system", true, true, false), EntryLayout::Skip);
    assert_eq!(entry_layout(".system", false, true, false), EntryLayout::Bundle);
    assert_eq!(entry_layout("research", true, true, false), EntryLayout::Bundle);
    assert_eq!(entry_layout("notes.md", true, false, true), EntryLayout::Flat);
    assert_eq!(entry_layout("notes.txt", true, false, true), EntryLayout::Skip);
    assert_eq!(entry_layout("md", true, false, true), EntryLayout::Skip);
}

#[test]
fn write_failure_and_trash_messages() {
    assert_eq!(rollback_message("复验失败", None, "/b/SKILL.md"), "复验失败（已回滚到原内容）");
    assert_eq!(
        rollback_message("复验失败", Some("磁盘已满"), "/b/SKILL.md"),
        "复验失败；且回滚失败：磁盘已满（备份在 /b/SKILL.md）"
    );
    let r = trashed_report("research", "/r/.trash/research-17");
    assert_eq!(r.trashed_to, "/r/.trash/research-17");
    assert_eq!(r.message, "research 已移入回收站（可恢复）：/r/.trash/research-17");
    assert!(is_bundle_file("SKILL.md"));
    assert!(is_bundle_file("skill.MD"));
    assert!(!is_bundle_file("SKILL.mdx"));
    assert!(!is_bundle_file("notes.md"));
}

#[test]
fn batch_import_reports_every_entry_in_order() {
    let items = vec![
        ImportItem { name: "仓库甲".to_string(), url: "not a url".to_string() },
        ImportItem { name: "".to_string(), url: "  ".to_string() },
        ImportItem { name: "".to_string(), url: " https://x/y ".to_string() },
    ];
    let outcomes = vec![
        Some(Err(ImportError::CloneFailed("bad".to_string()))),
        None,
        Some(Err(ImportError::GitMissing("no git".to_string()))),
    ];
    let r = batch_import(&items, outcomes, false);
    assert_eq!(r.items.len(), 3);
    assert_eq!((r.ok_count, r.failed_count), (0, 3));
    assert!(!r.applied);
    assert_eq!(r.items[1].message, "URL 为空，已跳过");
    assert_eq!(r.items[2].url, "https://x/y");
    assert_eq!(r.items[0].name, "仓库甲");
}

#[test]
fn batch_targets_skip_blank_urls() {
    let items = vec![
        ImportItem { name: "仓库甲".to_string(), url: "not a url".to_string() },
        ImportItem { name: "".to_string(), url: "".to_string() },
        ImportItem { name: " ".to_string(), url: " https://x/y ".to_string() },
    ];
    let t = batch_targets(&items);
    assert_eq!(t.len(), 3);
    assert_eq!(t[0], Some(("not a url".to_string(), Some("仓库甲".to_string()))));
    assert_eq!(t[1], None);
    assert_eq!(t[2], Some(("https://x/y".to_string(), None)));
}

fn plan(name: &str, actionable: bool, local_only: usize) -> SkillImportPlan {
    SkillImportPlan {
        name: name.to_string(),
        repo_path: format!("skills/{name}"),
        target_path: format!("/t/{name}"),
        actionable,
        added: if actionable { 1 } else { 0 },
        updated: 0,
        same: 0,
        local_only,
        removed_upstream: 0,
        files: vec![],
        skip_reason: None,
    }
}

#[test]
fn registry_check_reports_every_source() {
    let record = |url: &str| SourceRecord {
        name: None,
        url: url.to_string(),
        commit: None,
        imported_at: "0".to_string(),
        checked_at: None,
        last_update_count: 0,
        skills: vec![],
    };
    let records = vec![record("https://a/x"), record("https://b/y")];
    let outcomes = vec![
        Ok(ImportReport {
            url: "https://a/x".to_string(),
            commit: Some("c1".to_string()),
            plans: vec![plan("one", true, 2), plan("two", false, 1), plan("three", true, 0)],
            applied: false,
            message: String::new(),
        }),
        Err(ImportError::CloneFailed("down".to_string())),
    ];
    let report = check_sources(&records, outcomes).unwrap();
    assert_eq!(report.source_count, 2);
    assert_eq!(report.sources.len(), 2);
    assert_eq!(report.sources[0].url, "https://a/x");
    assert_eq!(report.sources[0].actionable_count, 2);
    assert_eq!(report.sources[0].local_only_count, 3);
    assert!(report.sources[0].error.is_none());
    assert_eq!(report.sources[1].url, "https://b/y");
    assert_eq!(report.sources[1].actionable_count, 0);
    assert!(report.sources[1].error.is_some());
    assert_eq!(report.actionable_total, 2);
}

#[test]
fn registry_check_refuses_an_overflowing_count() {
    let record = SourceRecord {
        name: None,
        url: "https://a/x".to_string(),
        commit: None,
        imported_at: "0".to_string(),
        checked_at: None,
        last_update_count: 0,
        skills: vec![],
    };
    let outcomes = vec![Ok(ImportReport {
        url: "https://a/x".to_string(),
        commit: None,
        plans: vec![plan("one", false, usize::MAX), plan("two", false, 1)],
        applied: false,
        message: String::new(),
    })];
    assert_eq!(check_sources(&vec![record], outcomes).unwrap_err(), "本地独有文件计数溢出");
}
