use dsh_launcher::skill::frontmatter::{disable_state, set_disable_model_invocation, DisableState, Toggle, WriteError};

fn crlf(fm: &str) -> String {
    format!("---\r\n{fm}---\r\n\r\nBody line.\r\n")
}

#[test]
fn no_frontmatter_is_refused() {
    assert_eq!(set_disable_model_invocation("# just a doc\n", true), Err(WriteError::NoFrontmatter));
    assert_eq!(disable_state("# just a doc\n"), DisableState::Unreadable);
}

#[test]
fn unterminated_is_refused() {
    let text = "---\nname: x\ndescription: y\n";
    assert_eq!(set_disable_model_invocation(text, true), Err(WriteError::Unterminated));
    assert_eq!(disable_state(text), DisableState::Unreadable);
}

#[test]
fn duplicate_key_is_refused() {
    let text = "---\nname: x\nname: y\n---\n\nB\n";
    assert_eq!(
        set_disable_model_invocation(text, true),
        Ok(Toggle::Rewritten("---\nname: x\nname: y\ndisable-model-invocation: true\n---\n\nB\n".to_string()))
    );
    let dup = "---\nname: x\ndisable-model-invocation: true\ndisable-model-invocation: false\n---\n\nB\n";
    assert_eq!(set_disable_model_invocation(dup, true), Err(WriteError::DuplicateKey));
    assert_eq!(disable_state(dup), DisableState::Conflict);
}

#[test]
fn non_plain_boolean_is_refused() {
    for bad in ["yes", "no", "on", "off", "1", "0", "\"true\"", "True", ""] {
        let text = format!("---\nname: x\ndescription: y\ndisable-model-invocation: {bad}\n---\n\nB\n");
        assert_eq!(set_disable_model_invocation(&text, true), Err(WriteError::NonPlainBoolean), "{bad:?}");
        assert_eq!(disable_state(&text), DisableState::Conflict, "{bad:?}");
    }
}

#[test]
fn enable_without_key_writes_nothing() {
    let text = crlf("name: x\r\ndescription: y\r\n");
    assert_eq!(disable_state(&text), DisableState::Unset);
    assert_eq!(set_disable_model_invocation(&text, false), Ok(Toggle::Unchanged));
}

#[test]
fn disable_without_key_inserts_before_closing_keeping_crlf() {
    let text = crlf("name: x\r\ndescription: y\r\n");
    let Ok(Toggle::Rewritten(out)) = set_disable_model_invocation(&text, true) else {
        panic!("expected a rewrite");
    };
    assert_eq!(out, "---\r\nname: x\r\ndescription: y\r\ndisable-model-invocation: true\r\n---\r\n\r\nBody line.\r\n");
    assert_eq!(disable_state(&out), DisableState::Disabled);
    assert_eq!(out.matches("\r\n").count(), text.matches("\r\n").count() + 1);
    assert!(!out.contains("\n\n") || !out.replace("\r\n", "").contains('\n'));
}

#[test]
fn disable_when_true_is_idempotent() {
    let text = crlf("name: x\r\n disable-me: keep\r\ndisable-model-invocation: true\r\n");
    assert_eq!(disable_state(&text), DisableState::Disabled);
    assert_eq!(set_disable_model_invocation(&text, true), Ok(Toggle::Unchanged));
}

#[test]
fn enable_deletes_true_key_and_restores_original_bytes() {
    let original = crlf("name: x\r\ndescription: y\r\n");
    let Ok(Toggle::Rewritten(disabled)) = set_disable_model_invocation(&original, true) else {
        panic!("expected a rewrite");
    };
    let Ok(Toggle::Rewritten(reenabled)) = set_disable_model_invocation(&disabled, false) else {
        panic!("expected a rewrite");
    };
    assert_eq!(reenabled, original);
}

#[test]
fn deleting_key_keeps_following_blank_line() {
    let text = "---\r\nname: x\r\ndescription: y\r\ndisable-model-invocation: true\r\n\r\nmetadata:\r\n  a: b\r\n---\r\n\r\nBody.\r\n";
    let Ok(Toggle::Rewritten(out)) = set_disable_model_invocation(text, false) else {
        panic!("expected a rewrite");
    };
    assert_eq!(out, "---\r\nname: x\r\ndescription: y\r\n\r\nmetadata:\r\n  a: b\r\n---\r\n\r\nBody.\r\n");
}

#[test]
fn deleting_key_on_last_line_without_ending() {
    let text = "---\r\nname: x\r\ndescription: y\r\ndisable-model-invocation: true\r\n---";
    let Ok(Toggle::Rewritten(out)) = set_disable_model_invocation(text, false) else {
        panic!("expected a rewrite");
    };
    assert_eq!(out, "---\r\nname: x\r\ndescription: y\r\n---");
}

#[test]
fn explicit_false_to_disabled_is_in_place_replacement() {
    let text = crlf("name: x\r\ndescription: y\r\ndisable-model-invocation: false\r\n");
    assert_eq!(disable_state(&text), DisableState::Enabled);
    let Ok(Toggle::Rewritten(out)) = set_disable_model_invocation(&text, true) else {
        panic!("expected a rewrite");
    };
    assert_eq!(out, "---\r\nname: x\r\ndescription: y\r\ndisable-model-invocation: true\r\n---\r\n\r\nBody line.\r\n");
}

#[test]
fn in_place_replacement_keeps_key_order_and_bytes() {
    let text = crlf("name: x\r\ndescription: y\r\ndisable-model-invocation: false\r\nlicense: MIT\r\n");
    let Ok(Toggle::Rewritten(out)) = set_disable_model_invocation(&text, true) else {
        panic!("expected a rewrite");
    };
    assert_eq!(
        out,
        "---\r\nname: x\r\ndescription: y\r\ndisable-model-invocation: true\r\nlicense: MIT\r\n---\r\n\r\nBody line.\r\n"
    );
}

#[test]
fn enable_with_explicit_false_is_noop() {
    let text = crlf("name: x\r\ndescription: y\r\ndisable-model-invocation: false\r\n");
    assert_eq!(disable_state(&text), DisableState::Enabled);
    assert_eq!(set_disable_model_invocation(&text, false), Ok(Toggle::Unchanged));
}

#[test]
fn insert_after_block_scalar_keeps_scalar() {
    let text = "---\r\nname: gpui-bench\r\ndescription: >-\r\n  Line one.\r\n  Line two.\r\n---\r\n\r\nBody.\r\n";
    let Ok(Toggle::Rewritten(out)) = set_disable_model_invocation(text, true) else {
        panic!("expected a rewrite");
    };
    assert_eq!(
        out,
        "---\r\nname: gpui-bench\r\ndescription: >-\r\n  Line one.\r\n  Line two.\r\ndisable-model-invocation: true\r\n---\r\n\r\nBody.\r\n"
    );
    assert_eq!(out.matches("Line two.").count(), 1);
}

#[test]
fn insert_after_plain_multiline_scalar_keeps_scalar() {
    let text = "---\r\nname: vercel-composition-patterns\r\ndescription:\r\n  First.\r\n  Second.\r\n---\r\n\r\nBody.\r\n";
    let Ok(Toggle::Rewritten(out)) = set_disable_model_invocation(text, true) else {
        panic!("expected a rewrite");
    };
    assert_eq!(
        out,
        "---\r\nname: vercel-composition-patterns\r\ndescription:\r\n  First.\r\n  Second.\r\ndisable-model-invocation: true\r\n---\r\n\r\nBody.\r\n"
    );
}

#[test]
fn nested_mapping_key_is_not_top_level() {
    let text = "---\r\nname: rust-skills\r\ndescription: >\r\n  Big.\r\nmetadata:\r\n  author: x\r\n  disable-model-invocation: false\r\n---\r\n\r\nBody.\r\n";
    assert_eq!(disable_state(text), DisableState::Unset);
    let Ok(Toggle::Rewritten(out)) = set_disable_model_invocation(text, true) else {
        panic!("expected a rewrite");
    };
    assert!(out.contains("  disable-model-invocation: false\r\n"));
    assert!(out.contains("disable-model-invocation: true\r\n---\r\n"));
}

#[test]
fn file_without_final_newline_keeps_its_tail() {
    let text = "---\r\nname: web-artifacts-builder\r\ndescription: y\r\n---\r\n\r\nBody ends here.";
    let Ok(Toggle::Rewritten(out)) = set_disable_model_invocation(text, true) else {
        panic!("expected a rewrite");
    };
    assert!(out.ends_with("Body ends here."));
    assert!(!out.ends_with("\r\n"));
}

#[test]
fn lf_file_keeps_lf() {
    let text = "---\nname: x\ndescription: y\n---\n\nBody.\n";
    let Ok(Toggle::Rewritten(out)) = set_disable_model_invocation(text, true) else {
        panic!("expected a rewrite");
    };
    assert_eq!(out, "---\nname: x\ndescription: y\ndisable-model-invocation: true\n---\n\nBody.\n");
    assert!(!out.contains('\r'));
}

#[test]
fn non_ascii_and_inline_comments_untouched() {
    let text = "---\r\nname: shadcn\r\ndescription: Manages components — adding stuff\r\nlicense: MIT # keep me\r\n---\r\n\r\nBody.\r\n";
    let Ok(Toggle::Rewritten(out)) = set_disable_model_invocation(text, true) else {
        panic!("expected a rewrite");
    };
    assert!(out.contains("Manages components — adding stuff"));
    assert!(out.contains("license: MIT # keep me"));
}

#[test]
fn first_line_with_extra_chars_is_not_frontmatter() {
    assert_eq!(set_disable_model_invocation(" ---\nname: x\n---\n", true), Err(WriteError::NoFrontmatter));
    assert_eq!(set_disable_model_invocation("----\nname: x\n----\n", true), Err(WriteError::NoFrontmatter));
}

#[test]
fn crlf_and_lf_mixed_each_kept() {
    let text = "---\nname: x\r\ndescription: y\n---\n\nBody.\n";
    let Ok(Toggle::Rewritten(out)) = set_disable_model_invocation(text, true) else {
        panic!("expected a rewrite");
    };
    assert_eq!(out, "---\nname: x\r\ndescription: y\ndisable-model-invocation: true\n---\n\nBody.\n");
}

#[test]
fn disable_then_enable_restores_lf_text_with_body() {
    let original = "---\nname: a\ndescription: b\nmetadata:\n  k: v\n---\nBody\n";
    assert_eq!(disable_state(original), DisableState::Unset);
    let Ok(Toggle::Rewritten(disabled)) = set_disable_model_invocation(original, true) else {
        panic!("expected a rewrite");
    };
    assert_eq!(disable_state(&disabled), DisableState::Disabled);
    assert_eq!(set_disable_model_invocation(&disabled, true), Ok(Toggle::Unchanged));
    assert_eq!(set_disable_model_invocation(&disabled, false), Ok(Toggle::Rewritten(original.to_string())));
}

#[test]
fn write_error_messages() {
    assert_eq!(WriteError::Unterminated.message(), "frontmatter 未闭合（找不到结束的 ---）");
    assert_eq!(WriteError::NoFrontmatter.message(), "文件缺少 YAML frontmatter（首行不是 ---）");
}

#[test]
fn insert_before_closing_line_without_ending_copies_lf() {
    let text = "---\nx: 1\n---";
    assert_eq!(
        set_disable_model_invocation(text, true),
        Ok(Toggle::Rewritten("---\nx: 1\ndisable-model-invocation: true\n---".to_string()))
    );
}

#[test]
fn setting_the_same_state_twice_writes_once() {
    let text = crlf("name: x\r\ndisable-model-invocation: false\r\n");
    let Ok(Toggle::Rewritten(disabled)) = set_disable_model_invocation(&text, true) else {
        panic!("expected a rewrite");
    };
    assert_eq!(disable_state(&disabled), DisableState::Disabled);
    assert_eq!(set_disable_model_invocation(&disabled, true), Ok(Toggle::Unchanged));
    let with_true = "---\nname: x\ndisable-model-invocation: true\n---\nB\n";
    let Ok(Toggle::Rewritten(enabled)) = set_disable_model_invocation(with_true, false) else {
        panic!("expected a rewrite");
    };
    assert_eq!(disable_state(&enabled), DisableState::Unset);
    assert_eq!(set_disable_model_invocation(&enabled, false), Ok(Toggle::Unchanged));
}
