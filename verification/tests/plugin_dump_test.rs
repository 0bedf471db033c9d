use dsh_launcher::mcp::entry::McpTransport;
use dsh_launcher::plugin::dump::{args_render, index_by_id, mcp_rows, parse_dump, rows_of_owner, DisabledValue};

const FIXTURE: &str = r#"# == @deepseek-ai/dsh-base
- id: timer
  name: '@deepseek-ai/cordis-plugin-timer'
- id: hmr
  name: '@deepseek-ai/cordis-plugin-hmr'
  disabled: true
  config:
    root:
      - .
- id: bash-sandbox
  name: '@deepseek-ai/dsh-bash-sandbox'
  disabled: !!js process.platform === 'win32'
  config:
    timeoutMs: 60000
# == @deepseek-ai/dsh-base, patched by @michengai/dsh-archive-manager
- id: session-projection-cache
  name: '@deepseek-ai/dsh-session-projection-cache'
  config:
    writeEveryEvents: 200
  disabled: true
# == dsh-find-plugin
- id: find-dsh-plugin
  name: dsh-find-plugin
# == @linxin666/dsh-client-ui-task-board
- id: ui-task-board
  name: '@linxin666/dsh-client-ui-task-board'
"#;

#[test]
fn test_parse_real_fixture() {
    let sections = parse_dump(FIXTURE).expect("fixture must parse");
    assert_eq!(sections.len(), 4);
    assert_eq!(sections[0].owner, "@deepseek-ai/dsh-base");
    assert!(sections[0].patched_by.is_empty());
    assert_eq!(sections[1].patched_by, vec!["@michengai/dsh-archive-manager"]);
    assert_eq!(sections[3].owner, "@linxin666/dsh-client-ui-task-board");

    let base = &sections[0].rows;
    assert_eq!(base.len(), 3);
    assert_eq!(base[0].id, "timer");
    assert_eq!(base[0].name.as_deref(), Some("@deepseek-ai/cordis-plugin-timer"));
    assert_eq!(base[0].disabled, None);
    assert_eq!(base[0].effective_enabled(), Some(true));
    assert_eq!(base[1].disabled, Some(DisabledValue::Bool(true)));
    assert_eq!(base[1].effective_enabled(), Some(false));
    assert!(base[2].is_expression_controlled());
    assert_eq!(base[2].effective_enabled(), None);
}

#[test]
fn test_index_and_owner_rows() {
    let sections = parse_dump(FIXTURE).unwrap();
    let index = index_by_id(&sections);
    assert_eq!(index.get("timer").unwrap().0, "@deepseek-ai/dsh-base");
    assert_eq!(index.get("session-projection-cache").unwrap().0, "@deepseek-ai/dsh-base");
    assert_eq!(rows_of_owner(&sections, "@linxin666/dsh-client-ui-task-board"), vec!["ui-task-board"]);
}

#[test]
fn test_unknown_top_level_line_fails_loud() {
    let text = "# == x\n- id: a\n  name: b\nsurprise: 1\n";
    let err = parse_dump(text).unwrap_err();
    assert!(err.contains("未知的顶层语法"), "{err}");
}

#[test]
fn test_row_without_section_fails_loud() {
    let err = parse_dump("- id: a\n").unwrap_err();
    assert!(err.contains("没有任何"), "{err}");
}

#[test]
fn test_empty_dump_is_ok() {
    assert!(parse_dump("").unwrap().is_empty());
    assert!(parse_dump("\n\n").unwrap().is_empty());
}

const MCP_SECTION: &str = "# == @deepseek-ai/dsh-base\n- id: timer\n  name: '@deepseek-ai/cordis-plugin-timer'\n# == C:\\Users\\Administrator\\.dsh\\cordis.patch.yml\n- id: mcp-github\n  name: '@deepseek-ai/dsh-mcp-client'\n  config:\n    serverName: github\n    transport: streamable-http\n    url: https://api.githubcopilot.com/mcp/\n    headers:\n      Authorization: !!js >-\n        (() => { try { const t = gh(); if (t) return `Bearer ${t}` } catch {} return '' })()\n    toolCallTimeoutMs: 60000\n    failOnStartupError: false\n- id: mcp-shadcn\n  name: '@deepseek-ai/dsh-mcp-client'\n  config:\n    serverName: shadcn\n    transport: stdio\n    command: shadcn\n    args:\n      - mcp\n    cwd: !!js process.cwd()\n- id: mcp-playwright\n  name: '@deepseek-ai/dsh-mcp-client'\n  disabled: !!js process.platform === 'win32'\n  config:\n    serverName: playwright\n    transport: stdio\n    command: playwright-mcp\n    args: []\n    failOnStartupError: true\n";

#[test]
fn test_mcp_rows_extracts_only_official_mcp_rows() {
    let rows = mcp_rows(MCP_SECTION);
    assert_eq!(
        rows.iter().map(|row| row.row_id.as_str()).collect::<Vec<_>>(),
        vec!["mcp-github", "mcp-shadcn", "mcp-playwright"]
    );
    for row in &rows {
        assert_eq!(row.section_owner, "C:\\Users\\Administrator\\.dsh\\cordis.patch.yml");
    }
}

#[test]
fn test_mcp_rows_config_raw_is_normalized_and_verbatim() {
    let rows = mcp_rows(MCP_SECTION);
    let github = &rows[0];
    assert_eq!(
        github.config_raw,
        "  serverName: github\n  transport: streamable-http\n  url: https://api.githubcopilot.com/mcp/\n  headers:\n    Authorization: !!js >-\n      (() => { try { const t = gh(); if (t) return `Bearer ${t}` } catch {} return '' })()\n  toolCallTimeoutMs: 60000\n  failOnStartupError: false"
    );
    assert_eq!(github.server_name().as_deref(), Some("github"));
    assert_eq!(github.transport(), Some(McpTransport::StreamableHttp));
    assert!(!github.fail_on_startup_error_is_literal_true());
    assert_eq!(github.summary(), "https://api.githubcopilot.com/mcp/");
}

#[test]
fn test_mcp_rows_summary_for_stdio_and_block_args() {
    let rows = mcp_rows(MCP_SECTION);
    let shadcn = &rows[1];
    assert_eq!(shadcn.summary(), "shadcn mcp");
    let playwright = &rows[2];
    assert_eq!(playwright.summary(), "playwright-mcp");
}

#[test]
fn test_mcp_rows_dangerous_and_expression_flags() {
    let rows = mcp_rows(MCP_SECTION);
    assert!(rows[2].fail_on_startup_error_is_literal_true());
    assert!(rows[2].is_expression_controlled());
    assert_eq!(rows[2].disabled, Some(DisabledValue::Expression("!!js process.platform === 'win32'".to_string())));
    assert_eq!(rows[0].disabled, None);
    assert!(!rows[0].is_expression_controlled());
}

#[test]
fn test_mcp_rows_dangerous_flag_not_set_for_expression_form() {
    let text = "# == home\n- id: mcp-x\n  name: '@deepseek-ai/dsh-mcp-client'\n  config:\n    serverName: x\n    transport: stdio\n    command: x\n    failOnStartupError: !!js process.env.YES === '1'\n";
    let rows = mcp_rows(text);
    assert_eq!(rows.len(), 1);
    assert!(!rows[0].fail_on_startup_error_is_literal_true());
}

#[test]
fn test_mcp_rows_empty_when_no_mcp() {
    assert!(mcp_rows("").is_empty());
    assert!(mcp_rows(FIXTURE).is_empty());
}

#[test]
fn later_segment_wins_in_index() {
    let text = "# == a\n- id: x\n# == b\n- id: x\n  disabled: false\n";
    let sections = parse_dump(text).unwrap();
    let index = index_by_id(&sections);
    let (owner, row) = index.get("x").unwrap();
    assert_eq!(owner, "b");
    assert_eq!(row.disabled, Some(DisabledValue::Bool(false)));
    assert!(index.get("y").is_none());
}

#[test]
fn attribute_errors_name_the_line() {
    let err = parse_dump("# == a\n  name: x\n").unwrap_err();
    assert_eq!(err, "dump 第 2 行出现行属性但没有对应的顶层行：  name: x");
    let err = parse_dump("# == a\n- id: x\n  justtext\n").unwrap_err();
    assert_eq!(err, "dump 第 3 行不是 `key: value` 形态：  justtext");
}

#[test]
fn long_lines_are_truncated_in_errors() {
    let long = "z".repeat(130);
    let err = parse_dump(&format!("# == a\n{long}\n")).unwrap_err();
    assert!(err.ends_with(&format!("{}…", "z".repeat(120))), "{err}");
}

#[test]
fn args_render_reads_both_sequence_forms() {
    assert_eq!(args_render("  command: x\n  args: ['a', \"b\", , c]"), Some(vec!["a".to_string(), "b".to_string(), "c".to_string()]));
    assert_eq!(args_render("  args:\n    - one\n    - 'two'\n  cwd: x"), Some(vec!["one".to_string(), "two".to_string()]));
    assert_eq!(args_render("  command: x"), None);
    assert_eq!(args_render("  args: []"), Some(vec![]));
}

const PIPELINE_DUMP: &str = r#"# == @deepseek-ai/dsh-base
- id: timer
  name: '@deepseek-ai/cordis-plugin-timer'
- id: hmr
  name: '@deepseek-ai/cordis-plugin-hmr'
  disabled: true
  config:
    root:
      - .
- id: bash-sandbox
  name: '@deepseek-ai/dsh-bash-sandbox'
  disabled: !!js process.platform === 'win32'
# == dsh-cost-meter
- id: cost-meter
  name: dsh-cost-meter
# == dshmarket
- id: dsh-market
  name: dshmarket
  disabled: true
# == @linxin666/dsh-client-ui-skill-explorer
- id: ui-skill-explorer
  name: '@linxin666/dsh-client-ui-skill-explorer'
"#;

#[test]
fn dump_expression_disabled_is_readonly() {
    let sections = parse_dump(PIPELINE_DUMP).unwrap();
    let index = index_by_id(&sections);
    let row = &index.get("bash-sandbox").unwrap().1;
    match &row.disabled {
        Some(DisabledValue::Expression(expr)) => assert!(expr.contains("process.platform")),
        other => panic!("expected an expression, got {other:?}"),
    }
    assert!(row.is_expression_controlled());
    assert_eq!(row.effective_enabled(), None);
    assert_eq!(rows_of_owner(&sections, "dshmarket"), vec!["dsh-market"]);
}
