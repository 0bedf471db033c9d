use dsh_launcher::json::JsonValue;
use dsh_launcher::plugin::state::PluginErrorKind;
use dsh_launcher::plugin::sync::{ls_remote_commit, npm_version_from, npm_view_version};
use dsh_launcher::profile::{
    declares_bundle_patch, manifest_from_json, manifest_from_text, parse_package_manifest, version_of,
};
use dsh_launcher::skill::import::{clone_failure, head_commit, repo_entry, ImportError, RepoEntry};

fn s(x: &str) -> JsonValue {
    JsonValue::Str(x.to_string())
}

fn obj(members: Vec<(&str, JsonValue)>) -> JsonValue {
    JsonValue::Object(members.into_iter().map(|(k, v)| (k.to_string(), v)).collect())
}

#[test]
fn manifest_reads_string_dependencies_bundles_and_patch_reload() {
    let v = obj(vec![
        ("dependencies", obj(vec![("a", s("^1.0.0")), ("b", JsonValue::Number("2".to_string())), ("c", s("git+https://x"))])),
        (
            "dsh",
            obj(vec![(
                "profile",
                obj(vec![
                    ("bundles", JsonValue::Array(vec![s("one"), JsonValue::Null, s("two")])),
                    ("patchReload", s("restart")),
                ]),
            )]),
        ),
    ]);
    let m = manifest_from_json(&v);
    assert_eq!(
        m.dependencies,
        vec![("a".to_string(), "^1.0.0".to_string()), ("c".to_string(), "git+https://x".to_string())]
    );
    assert_eq!(m.bundles, vec!["one", "two"]);
    assert_eq!(m.patch_reload.as_deref(), Some("restart"));

    let empty = manifest_from_json(&obj(vec![("dsh", s("not an object"))]));
    assert!(empty.dependencies.is_empty() && empty.bundles.is_empty() && empty.patch_reload.is_none());
}

#[test]
fn manifest_from_text_parses_json() {
    let text = r#"{"name":"p","dependencies":{"zeta":"1","alpha":"2","n":3},"dsh":{"profile":{"bundles":["b"],"patchReload":7}}}"#;
    let m = manifest_from_text(text, "/p/package.json").unwrap();
    assert_eq!(m.dependencies, vec![("alpha".to_string(), "2".to_string()), ("zeta".to_string(), "1".to_string())]);
    assert_eq!(m.bundles, vec!["b"]);
    assert_eq!(m.patch_reload, None);
    let err = manifest_from_text("{not json", "/p/package.json").unwrap_err();
    assert_eq!(err.kind, PluginErrorKind::Internal);
    assert!(err.message.starts_with("解析 /p/package.json 失败: "), "{}", err.message);
    assert!(err.message.len() > "解析 /p/package.json 失败: ".len());
}

#[test]
fn package_manifest_version_and_bundle_patch() {
    let v = parse_package_manifest(r#"{"version":"1.2.3","dsh":{"bundle":{"patch":"x.yml"}}}"#).unwrap();
    assert_eq!(version_of(&v).as_deref(), Some("1.2.3"));
    assert!(declares_bundle_patch(&v));
    let w = parse_package_manifest(r#"{"version":3,"dsh":{"bundle":{}}}"#).unwrap();
    assert_eq!(version_of(&w), None);
    assert!(!declares_bundle_patch(&w));
    assert!(parse_package_manifest("").is_none());
    let nul = parse_package_manifest(r#"{"dsh":{"bundle":{"patch":null}}}"#).unwrap();
    assert!(declares_bundle_patch(&nul));
}

#[test]
fn npm_view_output() {
    assert_eq!(npm_view_version("  \n"), Ok(None));
    assert_eq!(npm_view_version("\"4.5.6\"\n"), Ok(Some("4.5.6".to_string())));
    assert_eq!(npm_view_version("[\"1\",\"2\"]"), Ok(None));
    let err = npm_view_version("4.5.6.7").unwrap_err();
    assert!(err.starts_with("解析 npm view 输出失败: "), "{err}");
    assert_eq!(npm_version_from(Ok(s("9.9.9"))), Ok(Some("9.9.9".to_string())));
    assert_eq!(npm_version_from(Ok(JsonValue::Null)), Ok(None));
    assert_eq!(npm_version_from(Err("bad".to_string())), Err("解析 npm view 输出失败: bad".to_string()));
}

#[test]
fn git_answers() {
    assert_eq!(ls_remote_commit("abc123\tHEAD\ndef\trefs/heads/main\n").as_deref(), Some("abc123"));
    assert_eq!(ls_remote_commit("   \n"), None);
    assert_eq!(ls_remote_commit(""), None);
    assert_eq!(head_commit("  0f1e2d\n").as_deref(), Some("0f1e2d"));
    assert_eq!(head_commit("\n"), None);
}

#[test]
fn clone_failure_keeps_last_lines_last_first() {
    let stderr = "l1\nl2\nl3\nl4\nl5\nl6\nl7\nl8\n";
    match clone_failure(stderr, Some(128)) {
        ImportError::CloneFailed(d) => assert_eq!(d, "l8\nl7\nl6\nl5\nl4\nl3"),
        other => panic!("{other:?}"),
    }
    match clone_failure(" \n\n", Some(-2)) {
        ImportError::CloneFailed(d) => assert_eq!(d, "git clone 退出码 Some(-2)"),
        other => panic!("{other:?}"),
    }
    match clone_failure("", None) {
        ImportError::CloneFailed(d) => assert_eq!(d, "git clone 退出码 None"),
        other => panic!("{other:?}"),
    }
    match clone_failure("fatal: repository not found\r\n", Some(128)) {
        ImportError::CloneFailed(d) => assert_eq!(d, "fatal: repository not found"),
        other => panic!("{other:?}"),
    }
}

#[test]
fn test_manifest_parsing() {
    let text = r#"{
              "name": "dsh-profile-web",
              "dependencies": { "dshmarket": "^1.45.0", "dsh-cost-meter": "^1.7.13" },
              "dsh": { "profile": { "bundles": ["@deepseek-ai/dsh-base", "dshmarket"], "patchReload": "live" } }
            }"#;
    let manifest = manifest_from_text(text, "package.json").unwrap();
    assert_eq!(manifest.dependencies.len(), 2);
    assert_eq!(
        manifest.dependencies.iter().find(|(name, _)| name == "dshmarket").map(|(_, spec)| spec.as_str()),
        Some("^1.45.0")
    );
    assert_eq!(manifest.bundles, vec!["@deepseek-ai/dsh-base", "dshmarket"]);
    assert_eq!(manifest.patch_reload.as_deref(), Some("live"));
}

#[test]
fn repository_walk_rules() {
    let cases = [
        (".git", true, false, RepoEntry::Skip),
        ("node_modules", true, true, RepoEntry::Skip),
        ("README.md", false, false, RepoEntry::Skip),
        ("engineering", true, false, RepoEntry::Descend),
        ("research", true, true, RepoEntry::Skill),
    ];
    for (name, is_dir, has_skill, want) in cases {
        assert_eq!(repo_entry(name, is_dir, has_skill), want, "{name}");
    }
}
