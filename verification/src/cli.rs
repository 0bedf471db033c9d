//! Argument helpers of the command-line mode (`dsh-launcher plugin ...` /
//! `dsh-launcher skill ...`), which shares its core with the GUI.
use crate::plugin::sync::Origin;
use crate::text::{chars_string, eq_str, eq_vec, opt_view, push_str, starts_with, starts_with_str, str_chars};
use vstd::prelude::*;

verus! {

pub open spec fn args_view(args: Seq<String>) -> Seq<Seq<char>> {
    args.map_values(|a: String| a@)
}

pub open spec fn is_cli_word(a: Seq<char>) -> bool {
    a == "plugin"@ || a == "skill"@ || a == "--help"@ || a == "-h"@ || a == "--version"@ || a == "-V"@
}

/// Whether the process runs in CLI mode: its first argument is a known
/// subcommand, or a help / version flag.
pub fn is_cli_invocation(args: &[String]) -> (b: bool)
    ensures
        b == (args@.len() > 0 && is_cli_word(args@[0]@)),
{
    if args.len() == 0 {
        return false;
    }
    let a = str_chars(args[0].as_str());
    eq_str(&a, "plugin") || eq_str(&a, "skill") || eq_str(&a, "--help") || eq_str(&a, "-h") || eq_str(
        &a,
        "--version",
    ) || eq_str(&a, "-V")
}

/// Whether `flag` is among the arguments.
pub fn has_flag(args: &[String], flag: &str) -> (b: bool)
    ensures
        b == args_view(args@).contains(flag@),
{
    let f = str_chars(flag);
    let ghost av = args_view(args@);
    let mut i: usize = 0;
    while i < args.len()
        invariant
            i <= args.len(),
            av == args_view(args@),
            f@ == flag@,
            forall|k: int| 0 <= k < i ==> av[k] != flag@,
        decreases args.len() - i,
    {
        assert(av[i as int] == args@[i as int]@);
        if eq_vec(&str_chars(args[i].as_str()), &f) {
            return true;
        }
        i = i + 1;
    }
    false
}

/// First index of `flag` among the arguments.
pub open spec fn first_index(av: Seq<Seq<char>>, flag: Seq<char>, i: int) -> Option<int>
    decreases av.len() - i,
{
    if i < 0 || i >= av.len() {
        None
    } else if av[i] == flag {
        Some(i)
    } else {
        first_index(av, flag, i + 1)
    }
}

/// The argument after the first `flag`, when there is one.
pub fn flag_value(args: &[String], flag: &str) -> (r: Option<String>)
    ensures
        crate::text::opt_view(r) == flag_arg(args_view(args@), flag@),
{
    let f = str_chars(flag);
    let ghost av = args_view(args@);
    let mut i: usize = 0;
    while i < args.len()
        invariant
            i <= args.len(),
            av == args_view(args@),
            f@ == flag@,
            first_index(av, flag@, 0) == first_index(av, flag@, i as int),
        decreases args.len() - i,
    {
        assert(av[i as int] == args@[i as int]@);
        if eq_vec(&str_chars(args[i].as_str()), &f) {
            if i + 1 < args.len() {
                assert(av[i + 1] == args@[i + 1]@);
                return Some(args[i + 1].clone());
            }
            return None;
        }
        i = i + 1;
    }
    None
}

/// The options that take a value.
pub open spec fn takes_value(a: Seq<char>) -> bool {
    a == "--origin"@ || a == "--package"@ || a == "--mode"@ || a == "--resource"@
}

/// The positional arguments from `i` on: options (`--...`) are left out, and
/// so is the value after an option that takes one.
pub open spec fn positionals(av: Seq<Seq<char>>, i: int) -> Seq<Seq<char>>
    decreases av.len() + 1 - i,
{
    if i < 0 || i >= av.len() {
        Seq::empty()
    } else if starts_with(av[i], "--"@) {
        if takes_value(av[i]) {
            positionals(av, i + 2)
        } else {
            positionals(av, i + 1)
        }
    } else {
        seq![av[i]] + positionals(av, i + 1)
    }
}

/// The `n`-th positional argument.
pub fn positional(args: &[String], n: usize) -> (r: Option<String>)
    ensures
        crate::text::opt_view(r) == nth_positional(args_view(args@), n as int),
{
    let ghost av = args_view(args@);
    let mut values: Vec<String> = Vec::new();
    let mut i: usize = 0;
    while i < args.len()
        invariant
            i <= args.len(),
            av == args_view(args@),
            positionals(av, 0) == args_view(values@) + positionals(av, i as int),
        decreases args.len() - i,
    {
        assert(av[i as int] == args@[i as int]@);
        let a = str_chars(args[i].as_str());
        if starts_with_str(&a, "--") {
            if eq_str(&a, "--origin") || eq_str(&a, "--package") || eq_str(&a, "--mode") || eq_str(&a, "--resource") {
                if i + 1 < args.len() {
                    i = i + 2;
                } else {
                    assert(positionals(av, i + 2) =~= positionals(av, args.len() as int));
                    i = args.len();
                }
            } else {
                i = i + 1;
            }
        } else {
            let ghost prev = values@;
            values.push(args[i].clone());
            assert(args_view(values@) =~= args_view(prev).push(av[i as int]));
            assert(args_view(values@) + positionals(av, i + 1) =~= args_view(prev) + (seq![av[i as int]] + positionals(av, i + 1)));
            i = i + 1;
        }
    }
    assert(args_view(values@) + positionals(av, i as int) =~= args_view(values@));
    if n < values.len() {
        assert(args_view(values@)[n as int] == values@[n as int]@);
        Some(values[n].clone())
    } else {
        None
    }
}

// ------------------------------------------------------------------ commands

/// The argument after the first `flag` (`flag_value`).
pub open spec fn flag_arg(av: Seq<Seq<char>>, flag: Seq<char>) -> Option<Seq<char>> {
    match first_index(av, flag, 0) {
        Some(k) => if k + 1 < av.len() {
            Some(av[k + 1])
        } else {
            None
        },
        None => None,
    }
}

/// The `n`-th positional argument (`positional`).
pub open spec fn nth_positional(av: Seq<Seq<char>>, n: int) -> Option<Seq<char>> {
    if 0 <= n < positionals(av, 0).len() {
        Some(positionals(av, 0)[n])
    } else {
        None
    }
}

/// A `plugin` command.
#[derive(Debug, Clone, PartialEq, Eq)]
pub enum PluginCommand {
    List,
    Install { spec: String, origin: Option<Origin> },
    SetState { package: String, enabled: bool },
    Uninstall { package: String },
    Sync { apply: bool, only: Option<String> },
    Repair { only: Option<String> },
}

pub enum SpecPluginCommand {
    List,
    Install { spec: Seq<char>, origin: Option<Origin> },
    SetState { package: Seq<char>, enabled: bool },
    Uninstall { package: Seq<char> },
    Sync { apply: bool, only: Option<Seq<char>> },
    Repair { only: Option<Seq<char>> },
}

impl View for PluginCommand {
    type V = SpecPluginCommand;

    open spec fn view(&self) -> SpecPluginCommand {
        match self {
            PluginCommand::List => SpecPluginCommand::List,
            PluginCommand::Install { spec, origin } => SpecPluginCommand::Install { spec: spec@, origin: *origin },
            PluginCommand::SetState { package, enabled } => SpecPluginCommand::SetState {
                package: package@,
                enabled: *enabled,
            },
            PluginCommand::Uninstall { package } => SpecPluginCommand::Uninstall { package: package@ },
            PluginCommand::Sync { apply, only } => SpecPluginCommand::Sync { apply: *apply, only: opt_view(*only) },
            PluginCommand::Repair { only } => SpecPluginCommand::Repair { only: opt_view(*only) },
        }
    }
}

/// `--origin`: absent or empty is none; `upstream`, `in-house`, `unknown`; anything else is refused.
pub open spec fn spec_origin_arg(v: Option<Seq<char>>) -> Result<Option<Origin>, Seq<char>> {
    match v {
        None => Ok(None),
        Some(o) => if o.len() == 0 {
            Ok(None)
        } else if o == "upstream"@ {
            Ok(Some(Origin::Upstream))
        } else if o == "in-house"@ {
            Ok(Some(Origin::InHouse))
        } else if o == "unknown"@ {
            Ok(Some(Origin::Unknown))
        } else {
            Err("未知来源: "@ + o)
        },
    }
}

/// A `plugin` command from the arguments after `plugin`, or the usage message.
pub open spec fn spec_plugin_command(av: Seq<Seq<char>>) -> Result<SpecPluginCommand, Seq<char>> {
    if av.len() == 0 {
        Err("plugin 需要动作：list|install|enable|disable|uninstall|sync|repair"@)
    } else {
        let a = av[0];
        if a == "list"@ {
            Ok(SpecPluginCommand::List)
        } else if a == "install"@ {
            match nth_positional(av, 1) {
                None => Err("用法: dsh-launcher plugin install <spec> [--origin ...]"@),
                Some(spec) => match spec_origin_arg(flag_arg(av, "--origin"@)) {
                    Ok(origin) => Ok(SpecPluginCommand::Install { spec, origin }),
                    Err(m) => Err(m),
                },
            }
        } else if a == "enable"@ || a == "disable"@ {
            match nth_positional(av, 1) {
                None => Err("用法: dsh-launcher plugin "@ + a + " <package>"@),
                Some(package) => Ok(SpecPluginCommand::SetState { package, enabled: a == "enable"@ }),
            }
        } else if a == "uninstall"@ {
            match nth_positional(av, 1) {
                None => Err("用法: dsh-launcher plugin uninstall <package>"@),
                Some(package) => Ok(SpecPluginCommand::Uninstall { package }),
            }
        } else if a == "sync"@ {
            Ok(SpecPluginCommand::Sync { apply: !av.contains("--check"@), only: flag_arg(av, "--package"@) })
        } else if a == "repair"@ {
            Ok(SpecPluginCommand::Repair { only: flag_arg(av, "--package"@) })
        } else {
            Err("未知 plugin 动作: "@ + a)
        }
    }
}

fn prefixed(prefix: &str, value: &str) -> (m: String)
    ensures
        m@ == prefix@ + value@,
{
    let mut v = str_chars(prefix);
    push_str(&mut v, value);
    chars_string(v.as_slice())
}

fn message(prefix: &str, value: &str, suffix: &str) -> (m: String)
    ensures
        m@ == prefix@ + value@ + suffix@,
{
    let mut v = str_chars(prefix);
    push_str(&mut v, value);
    push_str(&mut v, suffix);
    chars_string(v.as_slice())
}

fn origin_arg(v: Option<String>) -> (r: Result<Option<Origin>, String>)
    ensures
        match spec_origin_arg(opt_view(v)) {
            Ok(o) => r == Ok::<Option<Origin>, String>(o),
            Err(m) => r matches Err(x) && x@ == m,
        },
{
    match v {
        None => Ok(None),
        Some(o) => {
            let c = str_chars(o.as_str());
            if c.len() == 0 {
                Ok(None)
            } else if eq_str(&c, "upstream") {
                Ok(Some(Origin::Upstream))
            } else if eq_str(&c, "in-house") {
                Ok(Some(Origin::InHouse))
            } else if eq_str(&c, "unknown") {
                Ok(Some(Origin::Unknown))
            } else {
                Err(prefixed("未知来源: ", o.as_str()))
            }
        },
    }
}

/// Reads a `plugin` command from the arguments after `plugin`; a missing action,
/// a missing operand, an unknown origin or action gives the usage message.
pub fn parse_plugin_command(args: &[String]) -> (r: Result<PluginCommand, String>)
    ensures
        match spec_plugin_command(args_view(args@)) {
            Ok(c) => r matches Ok(x) && x@ == c,
            Err(m) => r matches Err(x) && x@ == m,
        },
{
    let ghost av = args_view(args@);
    proof {
        reveal_strlit("list");
        reveal_strlit("install");
        reveal_strlit("enable");
        reveal_strlit("disable");
        reveal_strlit("uninstall");
        reveal_strlit("sync");
        reveal_strlit("repair");
    }
    if args.len() == 0 {
        return Err("plugin 需要动作：list|install|enable|disable|uninstall|sync|repair".to_owned());
    }
    assert(av[0] == args@[0]@);
    let a = str_chars(args[0].as_str());
    if eq_str(&a, "list") {
        Ok(PluginCommand::List)
    } else if eq_str(&a, "install") {
        match positional(args, 1) {
            None => Err("用法: dsh-launcher plugin install <spec> [--origin ...]".to_owned()),
            Some(spec) => match origin_arg(flag_value(args, "--origin")) {
                Ok(origin) => Ok(PluginCommand::Install { spec, origin }),
                Err(m) => Err(m),
            },
        }
    } else if eq_str(&a, "enable") || eq_str(&a, "disable") {
        match positional(args, 1) {
            None => Err(message("用法: dsh-launcher plugin ", args[0].as_str(), " <package>")),
            Some(package) => Ok(PluginCommand::SetState { package, enabled: eq_str(&a, "enable") }),
        }
    } else if eq_str(&a, "uninstall") {
        match positional(args, 1) {
            None => Err("用法: dsh-launcher plugin uninstall <package>".to_owned()),
            Some(package) => Ok(PluginCommand::Uninstall { package }),
        }
    } else if eq_str(&a, "sync") {
        Ok(PluginCommand::Sync { apply: !has_flag(args, "--check"), only: flag_value(args, "--package") })
    } else if eq_str(&a, "repair") {
        Ok(PluginCommand::Repair { only: flag_value(args, "--package") })
    } else {
        Err(prefixed("未知 plugin 动作: ", args[0].as_str()))
    }
}

/// A `skill` command.
#[derive(Debug, Clone, PartialEq, Eq)]
pub enum SkillCommand {
    Status,
    Apply { mode: String, resource: Option<String> },
    Migrate { dry_run: bool },
}

pub enum SpecSkillCommand {
    Status,
    Apply { mode: Seq<char>, resource: Option<Seq<char>> },
    Migrate { dry_run: bool },
}

impl View for SkillCommand {
    type V = SpecSkillCommand;

    open spec fn view(&self) -> SpecSkillCommand {
        match self {
            SkillCommand::Status => SpecSkillCommand::Status,
            SkillCommand::Apply { mode, resource } => SpecSkillCommand::Apply {
                mode: mode@,
                resource: opt_view(*resource),
            },
            SkillCommand::Migrate { dry_run } => SpecSkillCommand::Migrate { dry_run: *dry_run },
        }
    }
}

/// A `skill` command from the arguments after `skill`, or the usage message:
/// `apply` takes `--mode` (default `auto`) and `--resource`, `migrate` `--dry-run`.
pub open spec fn spec_skill_command(av: Seq<Seq<char>>) -> Result<SpecSkillCommand, Seq<char>> {
    if av.len() == 0 {
        Err("skill 需要动作：status|apply|migrate"@)
    } else if av[0] == "status"@ {
        Ok(SpecSkillCommand::Status)
    } else if av[0] == "apply"@ {
        Ok(
            SpecSkillCommand::Apply {
                mode: match flag_arg(av, "--mode"@) {
                    Some(m) => m,
                    None => "auto"@,
                },
                resource: flag_arg(av, "--resource"@),
            },
        )
    } else if av[0] == "migrate"@ {
        Ok(SpecSkillCommand::Migrate { dry_run: av.contains("--dry-run"@) })
    } else {
        Err("未知 skill 动作: "@ + av[0])
    }
}

/// Reads a `skill` command from the arguments after `skill`.
pub fn parse_skill_command(args: &[String]) -> (r: Result<SkillCommand, String>)
    ensures
        match spec_skill_command(args_view(args@)) {
            Ok(c) => r matches Ok(x) && x@ == c,
            Err(m) => r matches Err(x) && x@ == m,
        },
{
    let ghost av = args_view(args@);
    proof {
        reveal_strlit("status");
        reveal_strlit("apply");
        reveal_strlit("migrate");
    }
    if args.len() == 0 {
        return Err("skill 需要动作：status|apply|migrate".to_owned());
    }
    assert(av[0] == args@[0]@);
    let a = str_chars(args[0].as_str());
    if eq_str(&a, "status") {
        Ok(SkillCommand::Status)
    } else if eq_str(&a, "apply") {
        let mode = match flag_value(args, "--mode") {
            Some(m) => m,
            None => "auto".to_owned(),
        };
        Ok(SkillCommand::Apply { mode, resource: flag_value(args, "--resource") })
    } else if eq_str(&a, "migrate") {
        Ok(SkillCommand::Migrate { dry_run: has_flag(args, "--dry-run") })
    } else {
        Err(prefixed("未知 skill 动作: ", args[0].as_str()))
    }
}

/// What the command line asks for.
#[derive(Debug, Clone, PartialEq, Eq)]
pub enum CliCommand {
    Help,
    Version,
    Plugin { command: PluginCommand, json: bool },
    Skill { command: SkillCommand, json: bool },
}

/// A refused command line (exit code 2); `show_help` adds the help text.
#[derive(Debug, Clone, PartialEq, Eq)]
pub struct UsageError {
    pub message: String,
    pub show_help: bool,
}

/// The arguments after the first.
pub fn rest_args(args: &[String]) -> (r: Vec<String>)
    requires
        args@.len() > 0,
    ensures
        args_view(r@) == args_view(args@).drop_first(),
{
    let mut r: Vec<String> = Vec::new();
    let mut i: usize = 1;
    while i < args.len()
        invariant
            1 <= i <= args.len(),
            args_view(r@) == args_view(args@).subrange(1, i as int),
        decreases args.len() - i,
    {
        let ghost before = r@;
        r.push(args[i].clone());
        assert(args_view(r@) =~= args_view(before).push(args@[i as int]@));
        assert(args_view(args@).subrange(1, i + 1) =~= args_view(args@).subrange(1, i as int).push(
            args@[i as int]@,
        ));
        i = i + 1;
    }
    assert(args_view(args@).subrange(1, args.len() as int) =~= args_view(args@).drop_first());
    r
}

pub open spec fn wants_help(av: Seq<Seq<char>>) -> bool {
    av.contains("--help"@) || av.contains("-h"@)
}

pub open spec fn wants_version(av: Seq<Seq<char>>) -> bool {
    av.contains("--version"@) || av.contains("-V"@)
}

/// Reads the command line: `--help`/`-h` anywhere, then `--version`/`-V`
/// anywhere; no argument is help; then `plugin ...` or `skill ...` (with
/// `--json` among the rest); any other first word is refused with the help.
pub fn parse_command(args: &[String]) -> (r: Result<CliCommand, UsageError>)
    ensures
        wants_help(args_view(args@)) ==> r == Ok::<CliCommand, UsageError>(CliCommand::Help),
        !wants_help(args_view(args@)) && wants_version(args_view(args@)) ==> r == Ok::<CliCommand, UsageError>(
            CliCommand::Version,
        ),
        !wants_help(args_view(args@)) && !wants_version(args_view(args@)) ==> {
            let av = args_view(args@);
            if av.len() == 0 {
                r == Ok::<CliCommand, UsageError>(CliCommand::Help)
            } else if av[0] == "plugin"@ {
                match spec_plugin_command(av.drop_first()) {
                    Ok(c) => r matches Ok(CliCommand::Plugin { command, json }) && command@ == c
                        && json == av.drop_first().contains("--json"@),
                    Err(m) => r matches Err(e) && e.message@ == m && !e.show_help,
                }
            } else if av[0] == "skill"@ {
                match spec_skill_command(av.drop_first()) {
                    Ok(c) => r matches Ok(CliCommand::Skill { command, json }) && command@ == c
                        && json == av.drop_first().contains("--json"@),
                    Err(m) => r matches Err(e) && e.message@ == m && !e.show_help,
                }
            } else {
                r matches Err(e) && e.message@ == "未知子命令: "@ + av[0] + "\n"@ && e.show_help
            }
        },
{
    let ghost av = args_view(args@);
    if has_flag(args, "--help") || has_flag(args, "-h") {
        return Ok(CliCommand::Help);
    }
    if has_flag(args, "--version") || has_flag(args, "-V") {
        return Ok(CliCommand::Version);
    }
    if args.len() == 0 {
        return Ok(CliCommand::Help);
    }
    assert(av[0] == args@[0]@);
    let group = str_chars(args[0].as_str());
    let rest = rest_args(args);
    if eq_str(&group, "plugin") {
        let json = has_flag(rest.as_slice(), "--json");
        match parse_plugin_command(rest.as_slice()) {
            Ok(command) => Ok(CliCommand::Plugin { command, json }),
            Err(message) => Err(UsageError { message, show_help: false }),
        }
    } else if eq_str(&group, "skill") {
        let json = has_flag(rest.as_slice(), "--json");
        match parse_skill_command(rest.as_slice()) {
            Ok(command) => Ok(CliCommand::Skill { command, json }),
            Err(message) => Err(UsageError { message, show_help: false }),
        }
    } else {
        Err(UsageError { message: message("未知子命令: ", args[0].as_str(), "\n"), show_help: true })
    }
}

/// `skill migrate` always reads as a migration, and it is a dry run exactly when
/// `--dry-run` is one of its arguments (wherever it stands); without it the
/// migration is carried out.
pub proof fn law_migrate_dry_run_flag(av: Seq<Seq<char>>)
    requires
        av.len() > 0,
        av[0] == "migrate"@,
    ensures
        spec_skill_command(av) is Ok,
        spec_skill_command(av) matches Ok(c) && c is Migrate,
        spec_skill_command(av) matches Ok(SpecSkillCommand::Migrate { dry_run }) && (dry_run <==> exists|k: int|
            0 <= k < av.len() && av[k] == "--dry-run"@),
{
    reveal_strlit("migrate");
    reveal_strlit("status");
    reveal_strlit("apply");
    assert("migrate"@.len() == 7 && "status"@.len() == 6 && "apply"@.len() == 5);
    assert(av[0] != "status"@ && av[0] != "apply"@);
    assert(av.contains("--dry-run"@) <==> exists|k: int| 0 <= k < av.len() && av[k] == "--dry-run"@);
}

proof fn lemma_first_index(av: Seq<Seq<char>>, flag: Seq<char>, i: int)
    requires
        0 <= i,
    ensures
        first_index(av, flag, i) matches Some(k) ==> i <= k < av.len() && av[k] == flag && forall|j: int|
            i <= j < k ==> av[j] != flag,
        first_index(av, flag, i) is None ==> forall|j: int| i <= j < av.len() ==> av[j] != flag,
    decreases av.len() - i,
{
    if i < av.len() && av[i] != flag {
        lemma_first_index(av, flag, i + 1);
    }
}

/// `skill apply` reads its mode from the argument right after the first `--mode`,
/// and is `auto` when no `--mode` is given.
pub proof fn law_apply_mode(av: Seq<Seq<char>>)
    requires
        av.len() > 0,
        av[0] == "apply"@,
    ensures
        spec_skill_command(av) matches Ok(c) && c is Apply,
        (forall|k: int| 0 <= k < av.len() ==> av[k] != "--mode"@) ==> (spec_skill_command(av) matches Ok(
            SpecSkillCommand::Apply { mode, .. },
        ) && mode == "auto"@),
        forall|k: int|
            0 <= k && k + 1 < av.len() && av[k] == "--mode"@ && (forall|j: int| 0 <= j < k ==> av[j] != "--mode"@)
                ==> (spec_skill_command(av) matches Ok(SpecSkillCommand::Apply { mode, .. }) && mode == #[trigger] av[k
                + 1]),
{
    reveal_strlit("status");
    reveal_strlit("apply");
    assert("status"@.len() == 6 && "apply"@.len() == 5);
    assert(av[0] != "status"@);
    lemma_first_index(av, "--mode"@, 0);
    assert forall|k: int|
        0 <= k && k + 1 < av.len() && av[k] == "--mode"@ && (forall|j: int| 0 <= j < k ==> av[j] != "--mode"@)
            implies (spec_skill_command(av) matches Ok(SpecSkillCommand::Apply { mode, .. }) && mode == #[trigger] av[k
            + 1]) by {
        match first_index(av, "--mode"@, 0) {
            Some(f) => {
                assert(!(f < k));
                assert(!(k < f));
            },
            None => {
                assert(av[k] != "--mode"@);
            },
        }
    }
}

} // verus!
