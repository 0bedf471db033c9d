use dsh_launcher::plugin::state::PluginErrorKind;
use dsh_launcher::skill::sharing::{
    counts_as_skill, file_migration, file_migration_action, kept_copy_name, link_step, merge_action,
    merge_target_name, migrate_report, parked_name, view_status, FileMigration, LinkStep, ResourceState,
    ShareResource, ViewProbe,
};

#[test]
fn view_status_classifies_each_probe() {
    let absent = view_status(ShareResource::AgentsMd, "/h/.dsh/AGENTS.md", "/a/agent/AGENTS.md", &ViewProbe::Absent);
    assert_eq!(absent.state, ResourceState::Missing);
    assert_eq!(absent.detail, "/h/.dsh/AGENTS.md 不存在");
    assert_eq!(absent.resource, "agents-md");

    let linked = ViewProbe::Link { target: "/a/agent/skills".to_string(), to_canonical: true, target_exists: true };
    let s = view_status(ShareResource::Skills, "/h/.dsh/skills", "/a/agent/skills", &linked);
    assert_eq!(s.state, ResourceState::Linked);
    assert_eq!(s.detail, "已链接到 /a/agent/skills");

    let broken = ViewProbe::Link { target: "/elsewhere".to_string(), to_canonical: false, target_exists: true };
    let s = view_status(ShareResource::Skills, "/h/.dsh/skills", "/a/agent/skills", &broken);
    assert_eq!(s.state, ResourceState::Broken);
    assert_eq!(s.detail, "链接指向 /elsewhere，期望 /a/agent/skills");

    let s = view_status(ShareResource::ContextMd, "/h/.dsh/CONTEXT.md", "/a/agent/CONTEXT.md", &ViewProbe::Real);
    assert_eq!(s.state, ResourceState::Conflict);
    assert_eq!(s.detail, "/h/.dsh/CONTEXT.md 是真实文件/目录（迁移向导可合并，绝不自动删除）");
    assert_eq!(s.view, "/h/.dsh/CONTEXT.md");
    assert_eq!(s.canonical, "/a/agent/CONTEXT.md");
}

#[test]
fn link_step_never_replaces_user_content() {
    let mut status = view_status(ShareResource::Skills, "/v", "/c", &ViewProbe::Real);
    let err = link_step(&status).unwrap_err();
    assert_eq!(err.kind, PluginErrorKind::CapabilityMissing);
    assert_eq!(err.message, "/v 是真实文件/目录，不能直接替换；请先执行 skill migrate 合并到共享真源");
    status.state = ResourceState::Missing;
    assert!(matches!(link_step(&status), Ok(LinkStep::Create)));
    status.state = ResourceState::Broken;
    assert!(matches!(link_step(&status), Ok(LinkStep::Replace)));
    status.state = ResourceState::Linked;
    assert!(matches!(link_step(&status), Ok(LinkStep::Keep)));
    status.state = ResourceState::Config;
    assert!(matches!(link_step(&status), Ok(LinkStep::Keep)));
}

#[test]
fn skill_entries_are_bundles_or_markdown_files() {
    assert!(counts_as_skill(true, true, None));
    assert!(!counts_as_skill(true, false, None));
    assert!(counts_as_skill(false, false, Some("md")));
    assert!(!counts_as_skill(false, false, Some("txt")));
    assert!(!counts_as_skill(false, false, None));
}

#[test]
fn merge_keeps_both_entries_on_name_clash() {
    assert_eq!(merge_target_name("foo", false), "foo");
    assert_eq!(merge_target_name("foo", true), "foo.from-dsh-home");
    assert_eq!(kept_copy_name(ShareResource::AgentsMd), "AGENTS.md.from-dsh-home");
    assert_eq!(parked_name("skills", "1700000000"), "skills.migrated-1700000000");
}

#[test]
fn file_migration_compares_trimmed_texts() {
    assert_eq!(file_migration(None, "x"), FileMigration::Move);
    assert_eq!(file_migration(Some("  hello\n"), "hello"), FileMigration::Keep);
    assert_eq!(file_migration(Some("hello"), "world"), FileMigration::KeepBoth);
    assert_eq!(file_migration(Some(""), "\n"), FileMigration::Keep);
}

#[test]
fn migration_report_lines() {
    let a = file_migration_action(ShareResource::AgentsMd, FileMigration::Move, false, "/a/AGENTS.md");
    assert_eq!((a.resource.as_str(), a.action.as_str(), a.detail.as_str()), ("agents-md", "moved", "移动到 /a/AGENTS.md"));
    let a = file_migration_action(ShareResource::AgentsMd, FileMigration::Keep, true, "/a/AGENTS.md");
    assert_eq!((a.action.as_str(), a.detail.as_str()), ("plan", "两边内容一致，原文件改名保留并建立链接"));
    let a = file_migration_action(ShareResource::ContextMd, FileMigration::KeepBoth, false, "/a/CONTEXT.md");
    assert_eq!(a.action, "kept-both");
    assert_eq!(a.detail, "内容不同，保留副本 CONTEXT.md.from-dsh-home，原文件改名保留");
    let m = merge_action(ShareResource::Skills, 3, 12, true);
    assert_eq!(m.action, "plan");
    assert_eq!(m.detail, "合并 3 个新条目、12 个同名冲突（保留为 .from-dsh-home）；原目录改名保留（预演，未落盘）");
    let m = merge_action(ShareResource::Skills, 0, 1, false);
    assert_eq!(m.action, "merged");
    assert_eq!(m.detail, "合并 0 个新条目、1 个同名冲突（保留为 .from-dsh-home）；原目录改名保留");
    let r = migrate_report(true, Vec::new());
    assert!(r.dry_run);
    assert_eq!(r.actions.len(), 1);
    assert_eq!((r.actions[0].resource.as_str(), r.actions[0].action.as_str()), ("all", "noop"));
    assert_eq!(r.actions[0].detail, "没有需要迁移的冲突资源");
    let r = migrate_report(false, vec![m.clone()]);
    assert_eq!(r.actions.len(), 1);
    assert_eq!(r.actions[0].detail, m.detail);
}

#[test]
fn state_words_are_lower_case_names() {
    assert_eq!(ResourceState::Missing.word(), "missing");
    assert_eq!(ResourceState::Linked.word(), "linked");
    assert_eq!(ResourceState::Config.word(), "config");
    assert_eq!(ResourceState::Conflict.word(), "conflict");
    assert_eq!(ResourceState::Broken.word(), "broken");
}

#[test]
fn linking_from_each_probe_keeps_user_content() {
    let step = |probe: ViewProbe| link_step(&view_status(ShareResource::AgentsMd, "/v", "/c", &probe));
    assert!(step(ViewProbe::Real).is_err());
    assert!(matches!(step(ViewProbe::Absent), Ok(LinkStep::Create)));
    assert!(matches!(step(ViewProbe::Link { target: "/x".to_string(), to_canonical: false, target_exists: true }), Ok(LinkStep::Replace)));
    assert!(matches!(step(ViewProbe::Link { target: "/c".to_string(), to_canonical: true, target_exists: true }), Ok(LinkStep::Keep)));
}

#[test]
fn broken_link_is_detected_as_broken() {
    // `<dshHome>/AGENTS.md` links to `<agentsHome>/AGENTS.md`, which does not exist
    let view = "/t/dsh-home/AGENTS.md";
    let canonical = "/t/agents-home/AGENTS.md";
    let dangling = ViewProbe::Link { target: canonical.to_string(), to_canonical: true, target_exists: false };
    let status = view_status(ShareResource::AgentsMd, view, canonical, &dangling);
    assert_eq!(status.state, ResourceState::Broken, "{}", status.detail);
    assert!(status.detail.contains("断链"), "{}", status.detail);
    assert_eq!(status.detail, "链接目标不存在（断链）：/t/agents-home/AGENTS.md");
    assert!(matches!(link_step(&status), Ok(LinkStep::Replace)));
}
