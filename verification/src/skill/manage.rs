//! Decisions of skill write operations: the reports of a toggle, the check
//! made after writing, and the names used for backups and the trash.
use crate::skill::frontmatter::{disable_state, spec_disable_state, DisableState};
use crate::skill::scan::{resolve_managed_field, spec_read_field};
use crate::text::{chars_string, decimal, decimal_vec, push_all, push_str, str_chars};
use vstd::prelude::*;

verus! {

/// The result of an enable / disable.
#[derive(Debug, Clone)]
pub struct ToggleReport {
    /// Whether anything was written (false: the state held already)
    pub changed: bool,
    pub message: String,
    /// The backup file (none when nothing was written)
    pub backup: Option<String>,
}

/// The result of a delete.
#[derive(Debug, Clone)]
pub struct DeleteReport {
    /// Where the skill was moved in the trash
    pub trashed_to: String,
    pub message: String,
}

pub open spec fn word(enabled: bool) -> Seq<char> {
    if enabled {
        "启用"@
    } else {
        "停用"@
    }
}

fn word_str(enabled: bool) -> (s: &'static str)
    ensures
        s@ == word(enabled),
{
    if enabled {
        "启用"
    } else {
        "停用"
    }
}

/// The report when the requested state held already (nothing written, no backup).
pub fn unchanged_report(declared_name: &str, enabled: bool) -> (r: ToggleReport)
    ensures
        !r.changed,
        r.backup is None,
        r.message@ == declared_name@ + " 已是「"@ + word(enabled) + "」状态，无需变更"@,
{
    let mut m = str_chars(declared_name);
    push_str(&mut m, " 已是「");
    push_str(&mut m, word_str(enabled));
    push_str(&mut m, "」状态，无需变更");
    ToggleReport { changed: false, message: chars_string(m.as_slice()), backup: None }
}

/// The report after a successful write, with its backup file.
pub fn changed_report(declared_name: &str, enabled: bool, backup: String) -> (r: ToggleReport)
    ensures
        r.changed,
        r.backup matches Some(b) && b@ == backup@,
        r.message@ == declared_name@ + " 已"@ + word(enabled) + "（dsh 热重载生效，无需重启）"@,
{
    let mut m = str_chars(declared_name);
    push_str(&mut m, " 已");
    push_str(&mut m, word_str(enabled));
    push_str(&mut m, "（dsh 热重载生效，无需重启）");
    ToggleReport { changed: true, message: chars_string(m.as_slice()), backup: Some(backup) }
}

pub open spec fn spec_rollback_message(error: Seq<char>, rollback_error: Option<Seq<char>>, backup: Seq<char>) -> Seq<char> {
    match rollback_error {
        Some(rb) => error + "；且回滚失败："@ + rb + "（备份在 "@ + backup + "）"@,
        None => error + "（已回滚到原内容）"@,
    }
}

/// The error of a write whose check failed: the original text was put back,
/// or putting it back failed too and the backup is named.
pub fn rollback_message(error: &str, rollback_error: Option<&str>, backup: &str) -> (m: String)
    ensures
        m@ == spec_rollback_message(error@, crate::skill::scan::opt_str_view(rollback_error), backup@),
{
    let mut m = str_chars(error);
    match rollback_error {
        Some(rb) => {
            push_str(&mut m, "；且回滚失败：");
            push_str(&mut m, rb);
            push_str(&mut m, "（备份在 ");
            push_str(&mut m, backup);
            push_str(&mut m, "）");
        },
        None => {
            push_str(&mut m, "（已回滚到原内容）");
        },
    }
    chars_string(m.as_slice())
}

/// ASCII case folding of one character.
pub open spec fn ascii_lower(c: char) -> char {
    if 'A' <= c && c <= 'Z' {
        ((c as u32) + 32) as char
    } else {
        c
    }
}

/// `eq_ignore_ascii_case` on character sequences.
pub open spec fn eq_ignore_ascii_case(a: Seq<char>, b: Seq<char>) -> bool {
    a.len() == b.len() && forall|i: int| 0 <= i < a.len() ==> ascii_lower(#[trigger] a[i]) == ascii_lower(b[i])
}

fn lower_char(c: char) -> (r: char)
    ensures
        r == ascii_lower(c),
{
    if 'A' <= c && c <= 'Z' {
        let b: u8 = c as u8;
        assert(b == c as u32);
        (b + 32) as char
    } else {
        c
    }
}

/// Whether a skill file is the `SKILL.md` of a bundle (any ASCII case): then the
/// skill is its directory, else the file itself.
pub fn is_bundle_file(file_name: &str) -> (b: bool)
    ensures
        b == eq_ignore_ascii_case(file_name@, "SKILL.md"@),
{
    let a = str_chars(file_name);
    let b = str_chars("SKILL.md");
    if a.len() != b.len() {
        return false;
    }
    let mut i: usize = 0;
    while i < a.len()
        invariant
            i <= a.len(),
            a.len() == b.len(),
            a@ == file_name@,
            b@ == "SKILL.md"@,
            forall|k: int| 0 <= k < i ==> ascii_lower(#[trigger] a@[k]) == ascii_lower(b@[k]),
        decreases a.len() - i,
    {
        if lower_char(a[i]) != lower_char(b[i]) {
            return false;
        }
        i = i + 1;
    }
    true
}

/// The report of a skill moved to the trash.
pub fn trashed_report(declared_name: &str, target: &str) -> (r: DeleteReport)
    ensures
        r.trashed_to@ == target@,
        r.message@ == declared_name@ + " 已移入回收站（可恢复）："@ + target@,
{
    let mut m = str_chars(declared_name);
    push_str(&mut m, " 已移入回收站（可恢复）：");
    push_str(&mut m, target);
    DeleteReport { trashed_to: target.to_owned(), message: chars_string(m.as_slice()) }
}

pub open spec fn state_debug(s: DisableState) -> Seq<char> {
    match s {
        DisableState::Unset => "Unset"@,
        DisableState::Enabled => "Enabled"@,
        DisableState::Disabled => "Disabled"@,
        DisableState::Conflict => "Conflict"@,
        DisableState::Unreadable => "Unreadable"@,
    }
}

fn state_debug_str(s: DisableState) -> (r: &'static str)
    ensures
        r@ == state_debug(s),
{
    match s {
        DisableState::Unset => "Unset",
        DisableState::Enabled => "Enabled",
        DisableState::Disabled => "Disabled",
        DisableState::Conflict => "Conflict",
        DisableState::Unreadable => "Unreadable",
    }
}

/// The check of a file after writing: `name` and `description` still read, and
/// the key holds the expected value (`true` when disabled; absent or `false` when enabled).
pub open spec fn spec_verify_written(text: Seq<char>, expect_disabled: bool) -> Result<(), Seq<char>> {
    if spec_read_field(text, "name"@) is None {
        Err("复验失败：写入后 frontmatter 的 name 丢失"@)
    } else if spec_read_field(text, "description"@) is None {
        Err("复验失败：写入后 frontmatter 的 description 丢失"@)
    } else {
        let st = spec_disable_state(text);
        let ok = if expect_disabled {
            st == DisableState::Disabled
        } else {
            st == DisableState::Enabled || st == DisableState::Unset
        };
        if ok {
            Ok(())
        } else {
            Err("复验失败：写入后 disable-model-invocation 取值不符合预期（当前 "@ + state_debug(st) + "）"@)
        }
    }
}

/// Checks the text read back after a write (a failure asks for a rollback).
pub fn verify_written(text: &str, expect_disabled: bool) -> (r: Result<(), String>)
    ensures
        match spec_verify_written(text@, expect_disabled) {
            Ok(()) => r is Ok,
            Err(m) => r matches Err(e) && e@ == m,
        },
{
    if resolve_managed_field(text, "name").is_none() {
        return Err("复验失败：写入后 frontmatter 的 name 丢失".to_owned());
    }
    if resolve_managed_field(text, "description").is_none() {
        return Err("复验失败：写入后 frontmatter 的 description 丢失".to_owned());
    }
    let st = disable_state(text);
    let ok = if expect_disabled {
        st == DisableState::Disabled
    } else {
        st == DisableState::Enabled || st == DisableState::Unset
    };
    if ok {
        Ok(())
    } else {
        let mut m = str_chars("复验失败：写入后 disable-model-invocation 取值不符合预期（当前 ");
        push_str(&mut m, state_debug_str(st));
        push_str(&mut m, "）");
        Err(chars_string(m.as_slice()))
    }
}

pub open spec fn safe_char(c: char) -> char {
    if ('a' <= c && c <= 'z') || ('A' <= c && c <= 'Z') || ('0' <= c && c <= '9') || c == '-' || c == '_' {
        c
    } else {
        '_'
    }
}

/// A skill name made safe for a directory name: characters other than ASCII
/// letters, digits, `-` and `_` become `_`.
pub fn backup_dir_name(name: &str) -> (r: String)
    ensures
        r@ == name@.map_values(|c: char| safe_char(c)),
{
    let v = str_chars(name);
    let mut out: Vec<char> = Vec::new();
    let mut i: usize = 0;
    while i < v.len()
        invariant
            i <= v.len(),
            out@ == v@.subrange(0, i as int).map_values(|c: char| safe_char(c)),
        decreases v.len() - i,
    {
        let c = v[i];
        let d = if ('a' <= c && c <= 'z') || ('A' <= c && c <= 'Z') || ('0' <= c && c <= '9') || c == '-' || c
            == '_' {
            c
        } else {
            '_'
        };
        out.push(d);
        i = i + 1;
        assert(out@ =~= v@.subrange(0, i as int).map_values(|c: char| safe_char(c)));
    }
    assert(v@.subrange(0, v.len() as int) =~= v@);
    chars_string(out.as_slice())
}

/// The trash entry of a deleted skill: `<name>-<timestamp>`.
pub fn trash_entry_name(declared_name: &str, timestamp: &str) -> (r: String)
    ensures
        r@ == declared_name@ + "-"@ + timestamp@,
{
    let mut m = str_chars(declared_name);
    push_str(&mut m, "-");
    push_str(&mut m, timestamp);
    chars_string(m.as_slice())
}

/// The current time in Unix seconds, as decimal digits.
pub fn now_secs() -> (s: String)
    ensures
        s@.len() > 0,
        forall|i: int| 0 <= i < s@.len() ==> crate::profile::is_digit(#[trigger] s@[i]),
{
    crate::profile::timestamp()
}

/// Why a write is refused before it reads the skill: the path is no file, lies
/// in no managed root, has no readable `name`, or its `name` changed on disk
/// since the panel showed it. `None`: the skill is still the one shown.
pub fn identity_error(is_file: bool, path: &str, in_root: bool, actual: Option<&str>, declared_name: &str) -> (e:
    Option<String>)
    ensures
        !is_file ==> (e matches Some(m) && m@ == "路径不存在或不是文件："@ + path@),
        is_file && !in_root ==> (e matches Some(m) && m@ == "该路径不在受管的用户级技能根内"@),
        is_file && in_root && actual is None ==> (e matches Some(m) && m@ == "无法解析该技能的 frontmatter name"@),
        is_file && in_root && actual is Some ==> match actual {
            Some(a) => if a@ == declared_name@ {
                e is None
            } else {
                e matches Some(m) && m@ == "磁盘上的技能名已变为 \""@ + a@ + "\"（面板显示 \""@ + declared_name@
                    + "\"）"@
            },
            None => true,
        },
{
    if !is_file {
        let mut m = str_chars("路径不存在或不是文件：");
        push_str(&mut m, path);
        return Some(chars_string(m.as_slice()));
    }
    if !in_root {
        return Some("该路径不在受管的用户级技能根内".to_owned());
    }
    match actual {
        None => Some("无法解析该技能的 frontmatter name".to_owned()),
        Some(a) => if crate::text::eq_vec(&str_chars(a), &str_chars(declared_name)) {
            None
        } else {
            let mut m = str_chars("磁盘上的技能名已变为 \"");
            push_str(&mut m, a);
            push_str(&mut m, "\"（面板显示 \"");
            push_str(&mut m, declared_name);
            push_str(&mut m, "\"）");
            Some(chars_string(m.as_slice()))
        },
    }
}

} // verus!
