use dsh_launcher::cli::{flag_value, has_flag, is_cli_invocation, positional};
use dsh_launcher::dshhome::{
    dsh_home_agents_md, dsh_home_skills_dir, shared_agent_dir, agents_skills_dir, expand_home, home_patch_path, profile_dir, profile_patch_path, profiles_dir, resolve_agents_home,
    resolve_dsh_home, validate_profile_name,
};
use dsh_launcher::plugin::state::PluginErrorKind;
use dsh_launcher::plugin::sync::{lookup_for, pinned_commit, plan_all, plan_for, short, Origin, PluginRecord, PluginSource, RemoteLookup, SpecKind};
use dsh_launcher::profile::{dump_failure, first_listed_path, resolve_entry_from, timestamp, DshEntry};
use dsh_launcher::skill::sharing::{
    canonical_path, view_path, active_mode, effective_mode, select_resources, shared_config_body, yaml_quote, ResourceState, ResourceStatus,
    ShareResource,
};
use dsh_launcher::tokentracker::{listing_shows_pid, looks_like_tracker, parse_pid, after_exit, after_probe, dashboard_url, pick_port, start_allowed, start_decision, start_port, status_after_start, StartAction, TokentrackerStatus};
use std::path::Path;

fn args(list: &[&str]) -> Vec<String> {
    list.iter().map(|item| item.to_string()).collect()
}

#[test]
fn test_is_cli_invocation() {
    assert!(is_cli_invocation(&args(&["plugin", "list"])));
    assert!(is_cli_invocation(&args(&["skill", "status"])));
    assert!(is_cli_invocation(&args(&["--help"])));
    assert!(!is_cli_invocation(&args(&["--web-gui"])));
    assert!(!is_cli_invocation(&[]));
}

#[test]
fn test_flag_helpers() {
    let list = args(&["install", "pkg", "--origin", "upstream", "--json"]);
    assert_eq!(positional(&list, 1).as_deref(), Some("pkg"));
    assert_eq!(flag_value(&list, "--origin").as_deref(), Some("upstream"));
    assert!(has_flag(&list, "--json"));
    assert_eq!(flag_value(&list, "--package"), None);
}

#[test]
fn test_positional_skips_option_values() {
    let list = args(&["sync", "--package", "dshmarket"]);
    assert_eq!(positional(&list, 0).as_deref(), Some("sync"));
    assert_eq!(positional(&list, 1), None);
}

#[test]
fn flag_value_at_the_end_is_none() {
    let list = args(&["x", "--mode"]);
    assert_eq!(flag_value(&list, "--mode"), None);
    assert_eq!(positional(&list, 0).as_deref(), Some("x"));
}

#[test]
fn test_validate_profile_name() {
    assert!(validate_profile_name("web").is_ok());
    assert!(validate_profile_name("tui-custom").is_ok());
    for bad in ["", ".", "..", "node_modules", "a/b", "a\\b"] {
        assert!(validate_profile_name(bad).is_err(), "{bad}");
    }
    assert_eq!(validate_profile_name("a/b").unwrap_err(), "非法 profile 名: \"a/b\"");
}

#[test]
fn test_resolve_dsh_home_precedence() {
    let user = "C:\\Users\\tester";
    let u = Path::new(user);
    assert_eq!(Path::new(&resolve_dsh_home(None, user)), u.join(".dsh"));
    assert_eq!(Path::new(&resolve_dsh_home(Some("   "), user)), u.join(".dsh"));
    assert_eq!(Path::new(&resolve_dsh_home(Some("D:\\data\\dsh"), user)), Path::new("D:\\data\\dsh"));
    assert_eq!(Path::new(&resolve_dsh_home(Some("~/.dsh-alt"), user)), u.join(".dsh-alt"));
    assert_eq!(Path::new(&resolve_dsh_home(Some("~"), user)), u);
}

#[test]
fn test_resolve_agents_home() {
    let user = "C:\\Users\\tester";
    let u = Path::new(user);
    assert_eq!(Path::new(&resolve_agents_home(None, user)), u.join(".agents"));
    assert_eq!(Path::new(&resolve_agents_home(Some("~/.agents2"), user)), u.join(".agents2"));
}

#[test]
fn expand_home_leaves_plain_paths() {
    assert_eq!(expand_home("plain", "C:\\Users\\tester"), "plain");
}

#[test]
fn anchor_paths_follow_official_roots() {
    let dsh_home = "/home/tester/.dsh";
    let agents_home = "/home/tester/.agents";
    assert_eq!(Path::new(&agents_skills_dir(agents_home)), Path::new(agents_home).join("skills"));
    assert_eq!(Path::new(&dsh_home_skills_dir(dsh_home)), Path::new(dsh_home).join("skills"));
    assert_eq!(Path::new(&dsh_home_agents_md(dsh_home)), Path::new(dsh_home).join("AGENTS.md"));
    assert_eq!(shared_agent_dir(agents_home), agents_home);
    let root = shared_agent_dir(agents_home);
    assert_eq!(Path::new(&canonical_path(&root, ShareResource::Skills)), Path::new(agents_home).join("skills"));
    assert_eq!(Path::new(&canonical_path(&root, ShareResource::AgentsMd)), Path::new(agents_home).join("AGENTS.md"));
    assert_eq!(Path::new(&canonical_path(&root, ShareResource::ContextMd)), Path::new(agents_home).join("CONTEXT.md"));
    assert_eq!(Path::new(&view_path(dsh_home, ShareResource::Skills)), Path::new(dsh_home).join("skills"));
}

#[test]
fn profile_paths() {
    let home = "/h/.dsh";
    assert_eq!(Path::new(&profiles_dir(home)), Path::new(home).join("profiles"));
    assert_eq!(Path::new(&profile_dir(home, "web").unwrap()), Path::new(home).join("profiles").join("web"));
    assert_eq!(
        Path::new(&profile_patch_path(home, "web").unwrap()),
        Path::new(home).join("profiles").join("web").join("cordis.patch.yml")
    );
    assert!(profile_dir(home, "..").is_err());
    assert_eq!(Path::new(&home_patch_path(home)), Path::new(home).join("cordis.patch.yml"));
    assert_eq!(Path::new(&agents_skills_dir("/h/.agents")), Path::new("/h/.agents").join("skills"));
    let e = dsh_launcher::profile::profile_dir(home, "").unwrap_err();
    assert_eq!(e.kind, PluginErrorKind::Internal);
}

#[test]
fn test_short_commit() {
    assert_eq!(short("0123456789abcdef"), "0123456789");
    assert_eq!(short("abc"), "abc");
}

#[test]
fn test_plan_skips_in_house_and_unknown() {
    let mut record = PluginRecord::new("my-local-plugin");
    record.origin = Origin::InHouse;
    record.source = Some(PluginSource { kind: SpecKind::Path, spec: "link:../p".to_string(), repo: None, reference: None, commit: None });
    assert!(lookup_for(&record).is_none());
    let item = plan_for(&record, Some("1.0.0".to_string()), None);
    assert!(!item.actionable);
    assert!(item.reason.contains("不自动同步"), "{}", item.reason);
    assert_eq!(item.reason, "my-local-plugin：跳过（InHouse 插件不自动同步）");
    assert_eq!(item.kind, SpecKind::Path);
    let unknown = PluginRecord::new("weird");
    let item = plan_for(&unknown, None, None);
    assert!(!item.actionable);
    assert!(item.reason.contains("不自动同步"));
}

#[test]
fn test_plan_missing_source_is_skipped() {
    let mut record = PluginRecord::new("p");
    record.origin = Origin::Upstream;
    let item = plan_for(&record, None, None);
    assert!(!item.actionable);
    assert!(item.reason.contains("缺少来源信息"));
}

#[test]
fn plan_npm_and_git_outcomes() {
    let mut npm = PluginRecord::new("dshmarket");
    npm.origin = Origin::Upstream;
    npm.source = Some(PluginSource { kind: SpecKind::Npm, spec: "dshmarket".into(), repo: None, reference: None, commit: None });
    assert!(matches!(lookup_for(&npm), Some(RemoteLookup::NpmLatest(ref p)) if p == "dshmarket"));
    let item = plan_for(&npm, Some("1.0.0".into()), Some(Ok(Some("1.2.0".into()))));
    assert!(item.actionable);
    assert_eq!(item.reason, "dshmarket：1.0.0 → 1.2.0");
    assert_eq!(item.new_spec.as_deref(), Some("dshmarket@1.2.0"));
    let same = plan_for(&npm, Some("1.2.0".into()), Some(Ok(Some("1.2.0".into()))));
    assert!(!same.actionable);
    assert_eq!(same.reason, "dshmarket：已是最新（1.2.0）");
    let failed = plan_for(&npm, None, Some(Err("offline".into())));
    assert_eq!(failed.reason, "dshmarket：查询失败（offline）");

    let mut git = PluginRecord::new("p");
    git.origin = Origin::Upstream;
    git.source = Some(PluginSource {
        kind: SpecKind::Git,
        spec: "https://g/x#0123456789abcdef".into(),
        repo: Some("https://g/x".into()),
        reference: Some("main".into()),
        commit: None,
    });
    let item = plan_for(&git, None, Some(Ok(Some("fedcba9876543210".into()))));
    assert_eq!(item.current.as_deref(), Some("0123456789abcdef"));
    assert_eq!(item.reason, "p：0123456789abcdef → fedcba9876");
    assert_eq!(item.new_spec.as_deref(), Some("https://g/x#fedcba9876543210"));
    assert_eq!(pinned_commit("a#"), None);
    assert_eq!(pinned_commit("no-hash"), None);
}

#[test]
fn test_resource_keys() {
    assert_eq!(ShareResource::from_key("skills"), Some(ShareResource::Skills));
    assert_eq!(ShareResource::from_key("agents-md"), Some(ShareResource::AgentsMd));
    assert_eq!(ShareResource::from_key("context-md"), Some(ShareResource::ContextMd));
    assert_eq!(ShareResource::from_key("nope"), None);
    assert!(ShareResource::Skills.is_dir());
    assert!(!ShareResource::AgentsMd.is_dir());
}

#[test]
fn test_shared_config_body_contains_targets() {
    let body = shared_config_body("C:\\Users\\u\\.agents");
    assert!(body.contains("- id: skill-filesystem"));
    assert!(body.contains("agentsHome:"));
    assert!(body.contains("- id: agent-instructions"));
    assert!(body.contains("dshHome:"));
    assert!(body.contains("maxBytes: 65536"));
}

#[test]
fn test_yaml_quote_escapes_single_quote() {
    assert_eq!(yaml_quote("a'b"), "'a''b'");
}

fn status(state: ResourceState) -> ResourceStatus {
    ResourceStatus { resource: "skills".into(), canonical: "c".into(), view: "v".into(), state, detail: String::new() }
}

#[test]
fn sharing_modes() {
    let all = vec![status(ResourceState::Linked), status(ResourceState::Linked), status(ResourceState::Linked)];
    assert_eq!(active_mode(&all, None), "link");
    let some = vec![status(ResourceState::Linked), status(ResourceState::Missing), status(ResourceState::Missing)];
    assert_eq!(active_mode(&some, Some("x")), "mixed");
    let none = vec![status(ResourceState::Missing), status(ResourceState::Missing), status(ResourceState::Missing)];
    assert_eq!(active_mode(&none, Some("  ")), "none");
    assert_eq!(active_mode(&none, Some("body")), "config");
    assert_eq!(effective_mode("auto", false).unwrap(), "config");
    assert_eq!(effective_mode("link", false).unwrap(), "link");
    let e = effective_mode("magic", true).unwrap_err();
    assert_eq!(e.message, "未知共享模式 \"magic\"（可选 auto/link/config）");
    assert_eq!(select_resources(None).unwrap().len(), 3);
    assert_eq!(select_resources(Some("nope")).unwrap_err().kind, PluginErrorKind::NotFound);
}

#[test]
fn tokentracker_decisions() {
    assert!(start_allowed(TokentrackerStatus::Stopped).is_ok());
    assert!(start_allowed(TokentrackerStatus::Running).is_err());
    assert_eq!(pick_port(&vec![true, true, false]).unwrap(), 7682);
    assert_eq!(pick_port(&vec![true; 25]).unwrap_err(), "7680~7699 端口均被占用，请释放后重试");
    assert_eq!(dashboard_url(7680), "http://127.0.0.1:7680");
    assert_eq!(dashboard_url(0), "");
    assert_eq!(after_exit(TokentrackerStatus::Running), TokentrackerStatus::Error);
    assert_eq!(after_exit(TokentrackerStatus::Stopping), TokentrackerStatus::Stopping);
    assert_eq!(after_probe(TokentrackerStatus::Starting, true), TokentrackerStatus::Running);
    assert_eq!(after_probe(TokentrackerStatus::Starting, false), TokentrackerStatus::Error);
    assert!(timestamp().chars().all(|c| c.is_ascii_digit()));
}

#[test]
fn process_listing_helpers() {
    assert_eq!(parse_pid("  1234\r\n"), Some(1234));
    assert_eq!(parse_pid("+5"), Some(5));
    assert_eq!(parse_pid(""), None);
    assert_eq!(parse_pid("12a"), None);
    assert_eq!(parse_pid("4294967295"), Some(4294967295));
    assert_eq!(parse_pid("4294967296"), None);
    let listing = "\r\nnode.exe                     1234 Console                    1     50,000 K\r\n";
    assert!(listing_shows_pid(listing, 1234));
    assert!(!listing_shows_pid(listing, 123));
    assert!(!listing_shows_pid("INFO: No tasks are running which match the specified criteria.", 1234));
    assert!(looks_like_tracker("node c:\\npm\\node_modules\\tokentracker-cli\\bin\\tracker.js serve"));
    assert!(!looks_like_tracker("node server.js"));
}

#[test]
fn dsh_entry_resolution() {
    let broken = resolve_entry_from(true, Some("/d".to_string()), Some("/n".to_string()), true).unwrap_err();
    assert_eq!(broken.kind, PluginErrorKind::DshNotInstalled);
    assert_eq!(broken.message, "dsh 安装目录缺失（GitHub shim 指向的目录已不存在或为空），请重新安装 dsh");
    assert_eq!(
        resolve_entry_from(false, Some("/d".to_string()), Some("/n/node.exe".to_string()), false).unwrap(),
        DshEntry::SourceDir { dir: "/d".to_string(), node: "/n/node.exe".to_string() }
    );
    let no_node = resolve_entry_from(false, Some("/d".to_string()), None, true).unwrap_err();
    assert_eq!(no_node.message, "未找到 node.exe，无法调用 dsh（请先安装 Node 工具链）");
    assert_eq!(resolve_entry_from(false, None, None, true).unwrap(), DshEntry::Path);
    let missing = resolve_entry_from(false, None, None, false).unwrap_err();
    assert_eq!(missing.kind, PluginErrorKind::DshNotInstalled);
    assert_eq!(missing.message, "未找到 dsh（PATH 无 dsh 且无 GitHub 安装目录），请先在版本管理中安装 dsh");
}

#[test]
fn dump_failure_and_where_output() {
    let e = dump_failure(Some(3), "  boom \n");
    assert_eq!(e.kind, PluginErrorKind::Internal);
    assert_eq!(e.message, "dsh --dump-config 失败（退出码 3）：boom");
    assert_eq!(dump_failure(None, "").message, "dsh --dump-config 失败（退出码 -1）：");
    assert_eq!(first_listed_path("\r\n  C:\\node\\node.exe \r\nD:\\x\\node.exe\r\n").as_deref(), Some("C:\\node\\node.exe"));
    assert_eq!(first_listed_path(" \n\n"), None);
}

#[test]
fn github_clone_dir_shape() {
    let dir = dsh_launcher::dshhome::github_clone_dir("/l");
    let path = Path::new(&dir);
    assert!(path.starts_with("/l"));
    assert_eq!(path.file_name().map(|n| n.to_string_lossy().to_string()), Some("deepseek-harness".to_string()));
    assert_eq!(path.parent().and_then(|p| p.file_name()).map(|n| n.to_string_lossy().to_string()), Some("github-dsh".to_string()));
    assert_eq!(path, Path::new("/l").join("dsh-launcher").join("github-dsh").join("deepseek-harness"));
}

#[test]
fn expand_home_joins_every_rest() {
    assert_eq!(Path::new(&expand_home("~/", "/h")), Path::new("/h").join(""));
    assert_eq!(expand_home("~/", "/h"), "/h/");
    assert_eq!(expand_home("~//etc/x", "/h"), "/etc/x");
    assert_eq!(expand_home("~/a:b", "/h"), "/h/a:b");
    assert_eq!(expand_home("~", "/h"), "/h");
    assert_eq!(expand_home("~user", "/h"), "~user");
}

#[test]
fn plan_all_plans_each_record_in_order() {
    let mut npm = PluginRecord::new("dshmarket");
    npm.origin = Origin::Upstream;
    npm.source = Some(PluginSource { kind: SpecKind::Npm, spec: "dshmarket".into(), repo: None, reference: None, commit: None });
    let local = PluginRecord::new("weird");
    let items = plan_all(
        &vec![npm.clone(), local.clone()],
        vec![Some("1.0.0".into()), None],
        vec![Some(Ok(Some("1.2.0".into()))), None],
    );
    assert_eq!(items.len(), 2);
    let one = plan_for(&npm, Some("1.0.0".into()), Some(Ok(Some("1.2.0".into()))));
    assert_eq!((items[0].package.as_str(), items[0].actionable, items[0].reason.as_str()), (one.package.as_str(), one.actionable, one.reason.as_str()));
    assert!(items[0].actionable);
    assert_eq!(items[1].package, "weird");
    assert!(!items[1].actionable);
}

#[test]
fn prerequisite_from_first_resolvable_candidate() {
    assert_eq!(dsh_launcher::mcp::prereq::first_resolvable(&vec![false, true, true]), Some(1));
    assert_eq!(dsh_launcher::mcp::prereq::first_resolvable(&vec![false, false]), None);
    assert_eq!(dsh_launcher::mcp::prereq::prereq_state(Some(true)), dsh_launcher::mcp::prereq::PrereqState::Installed);
    assert_eq!(dsh_launcher::mcp::prereq::prereq_state(Some(false)), dsh_launcher::mcp::prereq::PrereqState::Missing);
    assert_eq!(dsh_launcher::mcp::prereq::prereq_state(None), dsh_launcher::mcp::prereq::PrereqState::Missing);
}

#[test]
fn identity_refusals() {
    let f = dsh_launcher::skill::manage::identity_error;
    assert_eq!(f(false, "/x/SKILL.md", true, Some("a"), "a").as_deref(), Some("路径不存在或不是文件：/x/SKILL.md"));
    assert_eq!(f(true, "/x", false, None, "a").as_deref(), Some("该路径不在受管的用户级技能根内"));
    assert_eq!(f(true, "/x", true, None, "a").as_deref(), Some("无法解析该技能的 frontmatter name"));
    assert_eq!(f(true, "/x", true, Some("b"), "a").as_deref(), Some("磁盘上的技能名已变为 \"b\"（面板显示 \"a\"）"));
    assert_eq!(f(true, "/x", true, Some("a"), "a"), None);
}

#[test]
fn tokentracker_start_adopts_or_steps_up() {
    let free = vec![false; 20];
    let mut taken = vec![false; 20];
    taken[0] = true;
    // A tracker already on 7680 is adopted; no second process is started.
    let adopt = start_decision(TokentrackerStatus::Stopped, &taken, Some((42, true))).unwrap();
    assert_eq!(adopt, StartAction::Adopt { pid: 42 });
    assert_eq!(start_port(adopt), 7680);
    assert_eq!(status_after_start(adopt), TokentrackerStatus::Running);
    // Something else on 7680: step up to the next free port.
    let spawn = start_decision(TokentrackerStatus::Error, &taken, Some((42, false))).unwrap();
    assert_eq!(spawn, StartAction::Spawn { port: 7681 });
    assert_eq!(start_port(spawn), 7681);
    assert_eq!(status_after_start(spawn), TokentrackerStatus::Starting);
    assert_eq!(start_decision(TokentrackerStatus::Stopped, &taken, None).unwrap(), StartAction::Spawn { port: 7681 });
    // 7680 free: spawn there, whoever is reported.
    assert_eq!(start_decision(TokentrackerStatus::Stopped, &free, Some((7, true))).unwrap(), StartAction::Spawn { port: 7680 });
    assert_eq!(
        start_decision(TokentrackerStatus::Stopped, &vec![true; 20], Some((7, false))).unwrap_err(),
        "7680~7699 端口均被占用，请释放后重试"
    );
    assert_eq!(start_decision(TokentrackerStatus::Starting, &free, None).unwrap_err(), "TokenTracker 正在运行或切换中");
}
