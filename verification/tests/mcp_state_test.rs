use dsh_launcher::mcp::entry::{McpBlock, McpDeclare, McpDirective, McpTransport};
use dsh_launcher::mcp::prereq::{resolve_candidates, PrereqState, PrereqView, REQUIRED_PACKAGE};
use dsh_launcher::mcp::state::{
    conflict, derive_marks, derive_origin, derive_state, effective_disabled, same_directive, validate_add_target,
    validate_transition, McpAction, McpMark, McpOrigin, McpState, McpTransportView,
};
use dsh_launcher::mcp::validate::{
    is_validation_error, validate_new_declaration, validate_server_name, validate_transport_required,
    validate_unique_server_name,
};
use dsh_launcher::plugin::dump::{DisabledValue, McpRow};
use dsh_launcher::plugin::state::PluginErrorKind;

fn row_with(disabled: Option<DisabledValue>) -> McpRow {
    McpRow {
        row_id: "mcp-a".into(),
        section_owner: "C:\\Users\\u\\.dsh\\cordis.patch.yml".into(),
        disabled,
        config_raw: "  serverName: a\n  transport: stdio\n  command: a".into(),
    }
}

fn mcp_row(row_id: &str, server_name: &str, owner: &str) -> McpRow {
    McpRow {
        row_id: row_id.into(),
        section_owner: owner.into(),
        disabled: None,
        config_raw: format!("  serverName: {server_name}\n  transport: stdio\n  command: x"),
    }
}

#[test]
fn test_derive_state_three_states() {
    assert_eq!(derive_state(None), McpState::Missing);
    assert_eq!(derive_state(Some(&row_with(None))), McpState::Enabled);
    assert_eq!(derive_state(Some(&row_with(Some(DisabledValue::Bool(false))))), McpState::Enabled);
    assert_eq!(
        derive_state(Some(&row_with(Some(DisabledValue::Expression("!!js process.platform === 'win32'".into()))))),
        McpState::Enabled
    );
    assert_eq!(derive_state(Some(&row_with(Some(DisabledValue::Bool(true))))), McpState::Disabled);
    assert_eq!(McpState::Missing.as_str(), "missing");
}

#[test]
fn test_effective_disabled_view() {
    assert_eq!(effective_disabled(None), None);
    assert_eq!(effective_disabled(Some(&row_with(None))), None);
    assert_eq!(effective_disabled(Some(&row_with(Some(DisabledValue::Bool(true))))), Some(true));
    assert_eq!(effective_disabled(Some(&row_with(Some(DisabledValue::Expression("!!js x".into()))))), None);
}

#[test]
fn test_derive_origin() {
    let block = McpBlock {
        declares: vec![McpDeclare {
            row_id: "mcp-a".into(),
            server_name: Some("a".into()),
            transport: Some(McpTransport::Stdio),
            config_raw: "  serverName: a".into(),
        }],
        directives: vec![McpDirective { row_id: "mcp-a".into(), disabled: true }],
    };
    assert_eq!(derive_origin(&block, "mcp-a"), McpOrigin::Managed);
    assert_eq!(derive_origin(&block, "user-row"), McpOrigin::External);
    let only_directive = McpBlock { declares: vec![], directives: vec![McpDirective { row_id: "mcp-a".into(), disabled: true }] };
    assert_eq!(derive_origin(&only_directive, "mcp-a"), McpOrigin::External);
}

#[test]
fn test_derive_marks() {
    let mut row = row_with(Some(DisabledValue::Expression("!!js x".into())));
    row.config_raw = "  serverName: a\n  transport: stdio\n  command: a\n  failOnStartupError: true".into();
    let marks = derive_marks(&row, true);
    assert!(marks.contains(&McpMark::Expression));
    assert!(marks.contains(&McpMark::Conflict));
    assert!(marks.contains(&McpMark::Dangerous));
    assert!(derive_marks(&row_with(None), false).is_empty());
}

#[test]
fn test_validate_transition_rules() {
    let err = validate_transition("a", None, McpAction::Disable).unwrap_err();
    assert_eq!(err.kind, PluginErrorKind::NotFound);
    assert_eq!(err.kind.exit_code(), 3);
    let expr = row_with(Some(DisabledValue::Expression("!!js x".into())));
    let err = validate_transition("a", Some(&expr), McpAction::Enable).unwrap_err();
    assert_eq!(err.kind, PluginErrorKind::IllegalTransition);
    assert_eq!(err.kind.exit_code(), 2);
    assert!(validate_transition("a", Some(&row_with(None)), McpAction::Enable).is_ok());
    assert!(validate_transition("a", Some(&row_with(Some(DisabledValue::Bool(true)))), McpAction::Enable).is_ok());
}

#[test]
fn test_validate_add_target_reports_conflict_layer() {
    assert!(validate_add_target("a", None).is_ok());
    let existing = row_with(None);
    let err = validate_add_target("a", Some(&existing)).unwrap_err();
    assert_eq!(err.kind, PluginErrorKind::IllegalTransition);
    assert!(err.message.contains("mcp-a"), "{}", err.message);
    assert!(err.message.contains("C:\\Users\\u\\.dsh\\cordis.patch.yml"), "{}", err.message);
}

#[test]
fn test_same_directive_idempotency_judgement() {
    let block = McpBlock { declares: vec![], directives: vec![McpDirective { row_id: "mcp-a".into(), disabled: true }] };
    assert!(same_directive(&block, "mcp-a", true));
    assert!(!same_directive(&block, "mcp-a", false));
    assert!(!same_directive(&block, "mcp-b", true));
}

#[test]
fn transition_messages_are_exact() {
    let err = validate_transition("gh", None, McpAction::Enable).unwrap_err();
    assert_eq!(err.message, "MCP server gh 不存在（合成树中没有该 serverName 的行），无法 enable");
    assert_eq!(McpAction::Disable.as_str(), "disable");
    assert!(McpAction::Disable.desired_disabled());
    assert!(!McpAction::Enable.desired_disabled());
    assert_eq!(McpTransportView::from(McpTransport::StreamableHttp), McpTransportView::StreamableHttp);
    let e = conflict("broken".to_string());
    assert_eq!(e.kind, PluginErrorKind::ManagedBlockConflict);
    assert_eq!(e.kind.exit_code(), 7);
}

#[test]
fn test_server_name_length_boundaries() {
    assert!(validate_server_name("a").is_ok());
    let len32 = "a".repeat(32);
    assert!(validate_server_name(&len32).is_ok());
    let len33 = "a".repeat(33);
    let err = validate_server_name(&len33).unwrap_err();
    assert_eq!(err.kind, PluginErrorKind::IllegalTransition);
    assert!(err.message.contains("超长"));
    assert!(validate_server_name("").unwrap_err().message.contains("不能为空"));
}

#[test]
fn test_server_name_character_set() {
    for good in ["github", "my_server-2", "A1", "-", "_"] {
        assert!(validate_server_name(good).is_ok(), "{good}");
    }
    for bad in ["a b", "a.b", "a/b", "mcp:github", "a\tb", "服务", "a\nb", "github!"] {
        let err = validate_server_name(bad).unwrap_err();
        assert_eq!(err.kind, PluginErrorKind::IllegalTransition, "{bad}");
        assert!(err.message.contains("非法字符"), "{bad}: {}", err.message);
    }
}

#[test]
fn server_name_messages_quote_the_name() {
    let err = validate_server_name("a\tb").unwrap_err();
    assert_eq!(err.message, "serverName \"a\\tb\" 含非法字符（官方要求 ^[A-Za-z0-9_-]{1,32}$）");
    let err = validate_server_name(&"b".repeat(40)).unwrap_err();
    assert_eq!(err.message, format!("serverName \"{}\" 超长（40 字符 > 官方上限 32）", "b".repeat(40)));
}

#[test]
fn test_unique_server_name_with_layer_in_message() {
    let tree = vec![
        mcp_row("mcp-github", "github", "C:\\Users\\u\\.dsh\\cordis.patch.yml"),
        mcp_row("user-row", "shadcn", "C:\\Users\\u\\.dsh\\profiles\\web\\cordis.patch.yml"),
    ];
    assert!(validate_unique_server_name("playwright", &tree, None).is_ok());
    let err = validate_unique_server_name("github", &tree, None).unwrap_err();
    assert_eq!(err.kind, PluginErrorKind::IllegalTransition);
    assert!(err.message.contains("mcp-github"));
    assert!(err.message.contains("C:\\Users\\u\\.dsh\\cordis.patch.yml"));
    assert!(validate_unique_server_name("github", &tree, Some("mcp-github")).is_ok());
}

#[test]
fn test_unique_detects_multiple_conflicts() {
    let tree = vec![mcp_row("mcp-a", "dup", "bundle-a"), mcp_row("mcp-b", "dup", "bundle-b")];
    let err = validate_unique_server_name("dup", &tree, None).unwrap_err();
    assert!(err.message.contains("bundle-a"));
    assert!(err.message.contains("bundle-b"));
    assert_eq!(
        err.message,
        "serverName dup 在合成树中重复：行 mcp-a（来源层 bundle-a）、行 mcp-b（来源层 bundle-b）。官方按注册作用域强制唯一，加载期后出现的实例会失败；请先处理重复声明"
    );
}

#[test]
fn test_transport_required_fields() {
    let err = validate_transport_required(McpTransport::Stdio, None, Some("https://x")).unwrap_err();
    assert!(err.message.contains("command"));
    let err = validate_transport_required(McpTransport::Stdio, Some("   "), None).unwrap_err();
    assert!(err.message.contains("command"));
    assert!(validate_transport_required(McpTransport::Stdio, Some("shadcn"), None).is_ok());
    let err = validate_transport_required(McpTransport::StreamableHttp, Some("shadcn"), None).unwrap_err();
    assert!(err.message.contains("url"));
    assert!(validate_transport_required(McpTransport::StreamableHttp, None, Some("https://x")).is_ok());
}

#[test]
fn test_validate_new_declaration_combines_official_rules() {
    let tree = vec![mcp_row("mcp-github", "github", "home")];
    assert!(validate_new_declaration("playwright", McpTransport::Stdio, Some("playwright-mcp"), None, &tree).is_ok());
    assert!(validate_new_declaration("bad name", McpTransport::Stdio, Some("x"), None, &tree).is_err());
    assert!(validate_new_declaration("playwright", McpTransport::Stdio, None, None, &tree).is_err());
    let err = validate_new_declaration("github", McpTransport::Stdio, Some("x"), None, &tree).unwrap_err();
    assert!(err.message.contains("重复"));
}

#[test]
fn test_expression_row_does_not_break_uniqueness() {
    let mut row = mcp_row("mcp-a", "a", "home");
    row.disabled = Some(DisabledValue::Expression("!!js x".into()));
    let tree = vec![row];
    assert!(validate_unique_server_name("a", &tree, None).is_err());
    assert!(is_validation_error(&validate_unique_server_name("a", &tree, None).unwrap_err()));
}

#[test]
fn test_resolve_candidates_order() {
    let candidates = resolve_candidates("/home/u/.dsh/profiles", "web");
    assert_eq!(candidates.len(), 2);
    assert!(
        candidates[0].ends_with("profiles\\node_modules\\@deepseek-ai\\dsh-mcp-client")
            || candidates[0].ends_with("profiles/node_modules/@deepseek-ai/dsh-mcp-client")
    );
    assert!(candidates[1].contains("web"));
}

#[test]
fn prereq_view_names_the_package() {
    let v = PrereqView::from_state(&PrereqState::Missing);
    assert!(!v.installed);
    assert_eq!(v.package, REQUIRED_PACKAGE);
    assert!(PrereqView::from_state(&PrereqState::Installed).installed);
}
