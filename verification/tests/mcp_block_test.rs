use dsh_launcher::mcp::block::{
    block_of_body, body_to_write, config_scalar, eol_of, mark_begin, mark_end, normalize_config_raw, parse, render,
    unquote,
};
use dsh_launcher::mcp::entry::{default_row_id, McpBlock, McpDeclare, McpDirective, McpTransport};

fn declare(server: &str, config_raw: &str) -> McpDeclare {
    McpDeclare {
        row_id: default_row_id(server),
        server_name: Some(server.to_string()),
        transport: config_scalar(config_raw, "transport").and_then(|value| McpTransport::parse(&value)),
        config_raw: config_raw.to_string(),
    }
}

const GITHUB_CONFIG: &str = "  serverName: github\n  transport: streamable-http\n  url: https://api.githubcopilot.com/mcp/\n  headers:\n    # 官方建议：密钥不落盘 YAML\n    Authorization: !!js >-\n      (() => { try { const t = process.getBuiltinModule('node:child_process').execSync('gh auth token').toString().trim(); if (t) return `Bearer ${t}` } catch {} return `Bearer ''` })()\n  toolCallTimeoutMs: 60000\n  failOnStartupError: false";

const SHADCN_CONFIG: &str = "  serverName: shadcn\n  transport: stdio\n  command: shadcn\n  args: [mcp]\n  cwd: !!js process.cwd()";

#[test]
fn test_normalize_config_raw_shifts_indent_and_stays_stable() {
    let shifted = "    serverName: a\n    headers:\n      # 注释\n      Authorization: !!js >-\n        expr()\n    timeout: 1";
    let expected = "  serverName: a\n  headers:\n    # 注释\n    Authorization: !!js >-\n      expr()\n  timeout: 1";
    assert_eq!(normalize_config_raw(shifted), expected);
    let normalized = normalize_config_raw(shifted);
    assert_eq!(normalize_config_raw(&normalized), normalized);
    assert_eq!(normalize_config_raw(SHADCN_CONFIG), SHADCN_CONFIG);
    assert_eq!(normalize_config_raw(GITHUB_CONFIG), GITHUB_CONFIG);
    assert_eq!(normalize_config_raw("serverName: a"), "  serverName: a");
    assert_eq!(normalize_config_raw("\n\n  a: 1\n\n"), "  a: 1");
    assert_eq!(normalize_config_raw("   \n\n"), "");
}

#[test]
fn test_render_parse_roundtrip_is_byte_stable() {
    let block = McpBlock {
        declares: vec![declare("shadcn", SHADCN_CONFIG), declare("github", GITHUB_CONFIG)],
        directives: vec![
            McpDirective { row_id: "mcp-github".into(), disabled: false },
            McpDirective { row_id: "mcp-shadcn".into(), disabled: true },
        ],
    };
    let rendered = render(&block, "\n").unwrap();
    let reparsed = parse(&rendered).unwrap();
    assert_eq!(render(&reparsed, "\n").unwrap(), rendered);
    assert!(rendered.find("mcp-github").unwrap() < rendered.find("mcp-shadcn").unwrap(), "{rendered}");
    let dir_start = rendered.find("- id: mcp-github\n  disabled").unwrap();
    let dir_shadcn = rendered.find("- id: mcp-shadcn\n  disabled").unwrap();
    assert!(dir_start < dir_shadcn);
    assert!(rendered.contains("Authorization: !!js >-"), "{rendered}");
    assert!(rendered.contains("# 官方建议：密钥不落盘 YAML"));
    assert!(rendered.contains("cwd: !!js process.cwd()"));
}

#[test]
fn test_config_subtree_moved_verbatim() {
    let block = McpBlock { declares: vec![declare("github", GITHUB_CONFIG)], directives: vec![] };
    let rendered = render(&block, "\n").unwrap();
    let reparsed = parse(&rendered).unwrap();
    assert_eq!(reparsed.declares[0].config_raw, GITHUB_CONFIG);
    assert_eq!(reparsed.declares[0].server_name.as_deref(), Some("github"));
    assert_eq!(reparsed.declares[0].transport, Some(McpTransport::StreamableHttp));
    assert!(rendered.starts_with("- insert:\n"), "{rendered}");
}

#[test]
fn test_directive_only_block_has_no_insert_segment() {
    let block = McpBlock {
        declares: vec![],
        directives: vec![McpDirective { row_id: "mcp-github".into(), disabled: true }],
    };
    let rendered = render(&block, "\n").unwrap();
    assert_eq!(rendered, "- id: mcp-github\n  disabled: true\n");
    assert!(!rendered.contains("insert"));
    assert_eq!(parse(&rendered).unwrap(), block);
}

#[test]
fn test_parse_rejects_invariant_violations() {
    let err = parse("config:\n  x: 1\n").unwrap_err();
    assert!(err.contains("非法行"), "{err}");
    let two_inserts = "- insert:\n    - id: mcp-a\n      name: '@deepseek-ai/dsh-mcp-client'\n      config:\n        serverName: a\n- insert:\n";
    let err = parse(two_inserts).unwrap_err();
    assert!(err.contains("第二个声明段"), "{err}");
    let no_disabled = "- id: mcp-a\n";
    let err = parse(no_disabled).unwrap_err();
    assert!(err.contains("缺少 disabled"), "{err}");
    let bad_disabled = "- id: mcp-a\n  disabled: !!js true\n";
    let err = parse(bad_disabled).unwrap_err();
    assert!(err.contains("非法"), "{err}");
    let wrong_name = "- insert:\n    - id: mcp-a\n      name: other-package\n      config:\n        serverName: a\n";
    let err = parse(wrong_name).unwrap_err();
    assert!(err.contains("不是官方 MCP 插件"), "{err}");
    let inline_config = "- insert:\n    - id: mcp-a\n      name: '@deepseek-ai/dsh-mcp-client'\n      config: { serverName: a }\n";
    let err = parse(inline_config).unwrap_err();
    assert!(err.contains("子树形态"), "{err}");
}

#[test]
fn test_render_rejects_unsafe_row_id() {
    let block = McpBlock {
        declares: vec![McpDeclare {
            row_id: "mcp-a\n- id: evil".into(),
            server_name: Some("a".into()),
            transport: Some(McpTransport::Stdio),
            config_raw: "    serverName: a\n    transport: stdio\n    command: a".into(),
        }],
        directives: vec![],
    };
    let err = render(&block, "\n").unwrap_err();
    assert!(err.contains("非法行 id"), "{err}");
}

#[test]
fn test_render_rejects_empty_config_raw() {
    let block = McpBlock {
        declares: vec![McpDeclare {
            row_id: "mcp-a".into(),
            server_name: Some("a".into()),
            transport: Some(McpTransport::Stdio),
            config_raw: "   ".into(),
        }],
        directives: vec![],
    };
    assert!(render(&block, "\n").unwrap_err().contains("config 子树为空"));
}

#[test]
fn test_config_scalar_is_read_only_view() {
    assert_eq!(config_scalar(GITHUB_CONFIG, "toolCallTimeoutMs").as_deref(), Some("60000"));
    assert_eq!(config_scalar(GITHUB_CONFIG, "failOnStartupError").as_deref(), Some("false"));
    assert_eq!(config_scalar(GITHUB_CONFIG, "Authorization"), None);
    assert_eq!(config_scalar("    serverName: github  # 名字", "serverName").as_deref(), Some("github"));
    assert_eq!(config_scalar("    serverName:\n", "serverName"), None);
}

#[test]
fn markers_are_versioned_and_paired() {
    assert_eq!(mark_begin(), "# >>> dsh-launcher mcp v1 — 由启动器维护，请勿手工编辑 >>>");
    assert_eq!(mark_end(), "# <<< dsh-launcher mcp v1 — 由启动器维护，请勿手工编辑 <<<");
}

#[test]
fn unquote_strips_one_pair_of_quotes() {
    assert_eq!(unquote("  '@a/b'  "), "@a/b");
    assert_eq!(unquote("\"x\""), "x");
    assert_eq!(unquote("'x\""), "'x\"");
    assert_eq!(unquote("'"), "'");
}

#[test]
fn render_uses_crlf_when_asked() {
    let block = McpBlock {
        declares: vec![],
        directives: vec![McpDirective { row_id: "mcp-a".into(), disabled: false }],
    };
    assert_eq!(render(&block, "\r\n").unwrap(), "- id: mcp-a\r\n  disabled: false\r\n");
}

#[test]
fn file_block_helpers() {
    let empty = block_of_body("  \n\n").unwrap();
    assert!(empty.is_empty());
    let block = McpBlock {
        declares: vec![declare("shadcn", SHADCN_CONFIG)],
        directives: vec![McpDirective { row_id: "mcp-shadcn".into(), disabled: true }],
    };
    let body = render(&block, "\n").unwrap();
    let back = block_of_body(&body).unwrap();
    assert_eq!(render(&back, "\n").unwrap(), body);
    assert_eq!(block_of_body(&body).is_ok(), parse(&body).is_ok());
    assert_eq!(eol_of(Some("a\r\nb")), "\r\n");
    assert_eq!(eol_of(Some("a\nb\r")), "\n");
    assert_eq!(eol_of(None), "\n");
    assert_eq!(body_to_write(&McpBlock { declares: vec![], directives: vec![] }, "\n"), Ok(None));
    assert_eq!(body_to_write(&block, "\r\n"), Ok(Some(render(&block, "\r\n").unwrap())));
}

#[test]
fn round_trip_limits() {
    // A line ending `\r\r\r\n` keeps a carriage return through one pass, not two.
    let c = "  a: 1\r\r\r\n  b: 2";
    assert_eq!(normalize_config_raw(c), "  a: 1\r\n  b: 2");
    assert_eq!(normalize_config_raw(&normalize_config_raw(c)), "  a: 1\n  b: 2");
    // A blank line ending that way becomes empty at once.
    let blank_cr = "  a: 1\n\r\r\r\n  b: 2";
    assert_eq!(normalize_config_raw(blank_cr), "  a: 1\n\n  b: 2");
    assert_eq!(normalize_config_raw(&normalize_config_raw(blank_cr)), normalize_config_raw(blank_cr));
    // Trailing spaces of a config line are written, and dropped when read back,
    // though the config is in normal form.
    let cfg = "  serverName: a\n  command: x  ";
    assert_eq!(normalize_config_raw(cfg), cfg);
    let trailing = McpBlock { declares: vec![declare("a", "  serverName: a\n  command: x  ")], directives: vec![] };
    let text = render(&trailing, "\n").unwrap();
    assert_ne!(render(&parse(&text).unwrap(), "\n").unwrap(), text);
    // A blank line inside a config is not written, and the text reads back to itself.
    let blank = McpBlock { declares: vec![declare("a", "  serverName: a\n\n  command: x")], directives: vec![] };
    let text = render(&blank, "\n").unwrap();
    assert!(!text.contains("\n\n"));
    assert_eq!(render(&parse(&text).unwrap(), "\n").unwrap(), text);
    // A transport field that disagrees with the config does not matter.
    let mut odd = declare("a", "  serverName: a\n  transport: stdio\n  command: x");
    odd.transport = McpTransport::parse("streamable-http");
    let block = McpBlock { declares: vec![odd], directives: vec![] };
    let text = render(&block, "\n").unwrap();
    assert_eq!(render(&parse(&text).unwrap(), "\n").unwrap(), text);
}
