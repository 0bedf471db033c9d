use dsh_launcher::mcp::entry::{
    default_row_id, validate_declare, validate_directive, McpBlock, McpDeclare, McpDirective,
    McpTransport,
};
use dsh_launcher::plugin::managed::validate_row_id;

#[test]
fn test_default_row_id_matches_official_example_shape() {
    assert_eq!(default_row_id("github"), "mcp-github");
    assert_eq!(default_row_id("my_server-2"), "mcp-my_server-2");
    assert!(validate_row_id(&default_row_id("a")).is_ok());
}

#[test]
fn test_transport_parse_roundtrip() {
    for transport in [McpTransport::Stdio, McpTransport::StreamableHttp] {
        assert_eq!(McpTransport::parse(transport.as_str()), Some(transport));
    }
    assert_eq!(McpTransport::parse("sse"), None);
    assert_eq!(McpTransport::parse(""), None);
    assert_eq!(McpTransport::parse("Stdio"), None);
}

#[test]
fn test_block_lookups() {
    let block = McpBlock {
        declares: vec![
            McpDeclare {
                row_id: "mcp-github".into(),
                server_name: Some("github".into()),
                transport: Some(McpTransport::StreamableHttp),
                config_raw: "serverName: github".into(),
            },
            McpDeclare {
                row_id: "mcp-odd".into(),
                server_name: None,
                transport: None,
                config_raw: "x: 1".into(),
            },
        ],
        directives: vec![McpDirective {
            row_id: "mcp-github".into(),
            disabled: true,
        }],
    };
    assert_eq!(
        block.declare_by_server_name("github").unwrap().row_id,
        "mcp-github"
    );
    assert!(block.declare_by_server_name("missing").is_none());
    assert!(block.declare_by_server_name("").is_none());
    assert_eq!(block.declare_by_row_id("mcp-odd").unwrap().row_id, "mcp-odd");
    assert_eq!(
        block.directive_by_row_id("mcp-github").unwrap().disabled,
        true
    );
    assert!(block.directive_by_row_id("nope").is_none());
    assert!(!block.is_empty());
    assert!(McpBlock::default().is_empty());
}

#[test]
fn test_validate_declare_requires_safe_row_id_and_config() {
    let good = McpDeclare {
        row_id: "mcp-a".into(),
        server_name: Some("a".into()),
        transport: Some(McpTransport::Stdio),
        config_raw: "serverName: a".into(),
    };
    assert!(validate_declare(&good).is_ok());

    let bad_id = McpDeclare {
        row_id: "bad id".into(),
        ..good.clone()
    };
    assert!(validate_declare(&bad_id).unwrap_err().contains("非法行 id"));

    let unsafe_id = McpDeclare {
        row_id: "a'b".into(),
        ..good.clone()
    };
    assert!(validate_declare(&unsafe_id).unwrap_err().contains("不安全字符"));

    let empty_config = McpDeclare {
        config_raw: "   ".into(),
        ..good
    };
    assert!(validate_declare(&empty_config)
        .unwrap_err()
        .contains("config 子树为空"));
}

#[test]
fn test_validate_directive_rejects_unsafe_row_id() {
    assert!(validate_directive(&McpDirective {
        row_id: "mcp-a".into(),
        disabled: false
    })
    .is_ok());
    assert!(validate_directive(&McpDirective {
        row_id: "a\nb".into(),
        disabled: false
    })
    .is_err());
}

#[test]
fn row_id_rules_separate_malformed_and_unsafe() {
    assert!(validate_row_id("mcp-a").is_ok());
    assert!(validate_row_id("").unwrap_err().contains("非法行 id"));
    assert!(validate_row_id("a b").unwrap_err().contains("非法行 id"));
    assert!(validate_row_id("a'b").unwrap_err().contains("不安全字符"));
}
