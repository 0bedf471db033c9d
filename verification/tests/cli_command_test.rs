use dsh_launcher::cli::{
    parse_command, parse_plugin_command, parse_skill_command, CliCommand, PluginCommand, SkillCommand,
};
use dsh_launcher::plugin::sync::Origin;

fn args(words: &[&str]) -> Vec<String> {
    words.iter().map(|w| w.to_string()).collect()
}

#[test]
fn help_and_version_win_anywhere() {
    assert_eq!(parse_command(&args(&["skill", "status", "-h"])), Ok(CliCommand::Help));
    assert_eq!(parse_command(&args(&["plugin", "--version"])), Ok(CliCommand::Version));
    assert_eq!(parse_command(&args(&["--version", "--help"])), Ok(CliCommand::Help));
    assert_eq!(parse_command(&[]), Ok(CliCommand::Help));
}

#[test]
fn unknown_subcommand_is_refused_with_help() {
    let err = parse_command(&args(&["launch"])).unwrap_err();
    assert_eq!(err.message, "未知子命令: launch\n");
    assert!(err.show_help);
}

#[test]
fn plugin_commands() {
    assert_eq!(
        parse_command(&args(&["plugin", "list", "--json"])),
        Ok(CliCommand::Plugin { command: PluginCommand::List, json: true })
    );
    assert_eq!(
        parse_plugin_command(&args(&["install", "--origin", "in-house", "pkg@1"])),
        Ok(PluginCommand::Install { spec: "pkg@1".to_string(), origin: Some(Origin::InHouse) })
    );
    assert_eq!(
        parse_plugin_command(&args(&["install", "pkg", "--origin", ""])),
        Ok(PluginCommand::Install { spec: "pkg".to_string(), origin: None })
    );
    assert_eq!(parse_plugin_command(&args(&["install", "pkg", "--origin", "vendor"])), Err("未知来源: vendor".to_string()));
    assert_eq!(
        parse_plugin_command(&args(&["install", "--origin", "upstream"])),
        Err("用法: dsh-launcher plugin install <spec> [--origin ...]".to_string())
    );
    assert_eq!(
        parse_plugin_command(&args(&["disable", "@scope/p"])),
        Ok(PluginCommand::SetState { package: "@scope/p".to_string(), enabled: false })
    );
    assert_eq!(parse_plugin_command(&args(&["enable"])), Err("用法: dsh-launcher plugin enable <package>".to_string()));
    assert_eq!(
        parse_plugin_command(&args(&["uninstall"])),
        Err("用法: dsh-launcher plugin uninstall <package>".to_string())
    );
    assert_eq!(
        parse_plugin_command(&args(&["sync", "--check", "--package", "p"])),
        Ok(PluginCommand::Sync { apply: false, only: Some("p".to_string()) })
    );
    assert_eq!(parse_plugin_command(&args(&["sync"])), Ok(PluginCommand::Sync { apply: true, only: None }));
    assert_eq!(parse_plugin_command(&args(&["repair"])), Ok(PluginCommand::Repair { only: None }));
    assert_eq!(parse_plugin_command(&args(&["frobnicate"])), Err("未知 plugin 动作: frobnicate".to_string()));
    let err = parse_command(&args(&["plugin"])).unwrap_err();
    assert_eq!(err.message, "plugin 需要动作：list|install|enable|disable|uninstall|sync|repair");
    assert!(!err.show_help);
}

#[test]
fn skill_commands() {
    assert_eq!(
        parse_command(&args(&["skill", "apply"])),
        Ok(CliCommand::Skill { command: SkillCommand::Apply { mode: "auto".to_string(), resource: None }, json: false })
    );
    assert_eq!(
        parse_skill_command(&args(&["apply", "--mode", "link", "--resource", "agents-md"])),
        Ok(SkillCommand::Apply { mode: "link".to_string(), resource: Some("agents-md".to_string()) })
    );
    assert_eq!(parse_skill_command(&args(&["migrate", "--dry-run"])), Ok(SkillCommand::Migrate { dry_run: true }));
    assert_eq!(
        parse_command(&args(&["skill", "status", "--json"])),
        Ok(CliCommand::Skill { command: SkillCommand::Status, json: true })
    );
    assert_eq!(parse_skill_command(&args(&[])), Err("skill 需要动作：status|apply|migrate".to_string()));
    assert_eq!(parse_skill_command(&args(&["--json"])), Err("未知 skill 动作: --json".to_string()));
}
