//! Profile-side types and small helpers: the manifest slice the plugin manager
//! reads, the resolved dsh entry, timestamps and the profile directory.
use crate::plugin::state::{PluginError, PluginErrorKind};
use crate::json::{
    collect_string_members, collect_strings, json_member, json_parse, member, opt_as_string, opt_member,
    opt_member_ref, opt_str, pairs_view, parse_json, string_items, string_members, strings_view, JsonValue,
};
use crate::text::{
    chars_string, decimal, decimal_vec, int_text, int_vec, lines, lines_view, opt_view, push_all, push_str, split_lines,
    str_chars, trim, trim_vec,
};
use vstd::prelude::*;

verus! {

/// The part of a profile manifest that plugin management reads.
#[derive(Debug, Clone, Default)]
pub struct ProfileManifest {
    /// `dependencies` with a string spec, as (package name, spec), in key order
    pub dependencies: Vec<(String, String)>,
    /// `dsh.profile.bundles`
    pub bundles: Vec<String>,
    /// `dsh.profile.patchReload`
    pub patch_reload: Option<String>,
}

/// How dsh is started.
#[derive(Debug, Clone, PartialEq, Eq)]
pub enum DshEntry {
    /// The GitHub channel: a source directory started with node
    SourceDir { dir: String, node: String },
    /// `dsh` on the `PATH`
    Path,
}

/// Seconds since the Unix epoch, from `SystemTime::now().duration_since(UNIX_EPOCH)`;
/// 0 when the clock is before the epoch. Nothing is stated of the value: it is the time.
#[verifier::external_body]
fn unix_seconds() -> u64 {
    std::time::SystemTime::now().duration_since(std::time::UNIX_EPOCH).map(|d| d.as_secs()).unwrap_or(0)
}

pub open spec fn is_digit(c: char) -> bool {
    '0' <= c && c <= '9'
}

proof fn lemma_decimal_digits(n: nat)
    ensures
        decimal(n).len() > 0,
        forall|i: int| 0 <= i < decimal(n).len() ==> is_digit(#[trigger] decimal(n)[i]),
    decreases n,
{
    if n >= 10 {
        lemma_decimal_digits(n / 10);
    }
}

/// A timestamp (Unix seconds in decimal) for backup directory names.
pub fn timestamp() -> (s: String)
    ensures
        s@.len() > 0,
        forall|i: int| 0 <= i < s@.len() ==> is_digit(#[trigger] s@[i]),
        exists|n: nat| s@ == decimal(n),
{
    let secs = unix_seconds();
    let n: usize = if secs > usize::MAX as u64 {
        usize::MAX
    } else {
        secs as usize
    };
    proof {
        lemma_decimal_digits(n as nat);
    }
    chars_string(decimal_vec(n).as_slice())
}

/// A profile's directory (`$DSH_HOME/profiles/<name>`); a name dsh refuses is an `Internal` error.
pub fn profile_dir(dsh_home: &str, profile: &str) -> (r: Result<String, PluginError>)
    ensures
        r is Ok <==> !crate::dshhome::bad_profile_name(profile@),
        r matches Ok(p) ==> crate::dshhome::is_profile_dir(p@, dsh_home@, profile@),
        r matches Err(e) ==> e.kind == PluginErrorKind::Internal && e.message@
            == crate::dshhome::profile_name_message(profile@),
{
    match crate::dshhome::profile_dir(dsh_home, profile) {
        Ok(p) => Ok(p),
        Err(m) => Err(PluginError::internal(m)),
    }
}

// ------------------------------------------------------------------ manifests

pub open spec fn spec_dependencies(v: JsonValue) -> Seq<(Seq<char>, Seq<char>)> {
    match json_member(v, "dependencies"@) {
        Some(JsonValue::Object(ms)) => string_members(ms@),
        _ => Seq::empty(),
    }
}

/// The member `key` of `dsh.profile`.
pub open spec fn profile_field(v: JsonValue, key: Seq<char>) -> Option<JsonValue> {
    opt_member(opt_member(json_member(v, "dsh"@), "profile"@), key)
}

pub open spec fn spec_bundles(v: JsonValue) -> Seq<Seq<char>> {
    match profile_field(v, "bundles"@) {
        Some(JsonValue::Array(xs)) => string_items(xs@),
        _ => Seq::empty(),
    }
}

/// What plugin management reads of a parsed profile manifest: the string-valued
/// `dependencies`, the string items of `dsh.profile.bundles`, and
/// `dsh.profile.patchReload` when it is a string; anything missing is empty.
pub fn manifest_from_json(v: &JsonValue) -> (m: ProfileManifest)
    ensures
        pairs_view(m.dependencies@) == spec_dependencies(*v),
        strings_view(m.bundles@) == spec_bundles(*v),
        opt_view(m.patch_reload) == opt_str(profile_field(*v, "patchReload"@)),
{
    let dependencies = match member(v, "dependencies") {
        Some(JsonValue::Object(ms)) => collect_string_members(ms),
        _ => Vec::new(),
    };
    let profile = opt_member_ref(member(v, "dsh"), "profile");
    let bundles = match opt_member_ref(profile, "bundles") {
        Some(JsonValue::Array(xs)) => collect_strings(xs),
        _ => Vec::new(),
    };
    let patch_reload = opt_as_string(opt_member_ref(profile, "patchReload"));
    proof {
        assert(strings_view(Seq::<String>::empty()) =~= Seq::<Seq<char>>::empty());
        assert(pairs_view(Seq::<(String, String)>::empty()) =~= Seq::<(Seq<char>, Seq<char>)>::empty());
    }
    ProfileManifest { dependencies, bundles, patch_reload }
}

pub open spec fn parse_failure_message(path: Seq<char>, e: Seq<char>) -> Seq<char> {
    "解析 "@ + path + " 失败: "@ + e
}

/// A profile manifest from the text of its `package.json` (`path` names the file
/// in the error): `Internal` when the text is not JSON.
pub fn manifest_from_text(text: &str, path: &str) -> (r: Result<ProfileManifest, PluginError>)
    ensures
        match json_parse(text@) {
            Ok(v) => r matches Ok(m) && pairs_view(m.dependencies@) == spec_dependencies(v)
                && strings_view(m.bundles@) == spec_bundles(v)
                && opt_view(m.patch_reload) == opt_str(profile_field(v, "patchReload"@)),
            Err(e) => r matches Err(x) && x.kind == PluginErrorKind::Internal && x.message@ == parse_failure_message(path@, e),
        },
{
    match parse_json(text) {
        Ok(v) => Ok(manifest_from_json(&v)),
        Err(e) => {
            let mut m = str_chars("解析 ");
            push_str(&mut m, path);
            push_str(&mut m, " 失败: ");
            push_str(&mut m, e.as_str());
            Err(PluginError::internal(chars_string(m.as_slice())))
        },
    }
}

/// The `version` string of a parsed package manifest.
pub fn version_of(v: &JsonValue) -> (r: Option<String>)
    ensures
        opt_view(r) == opt_str(json_member(*v, "version"@)),
{
    opt_as_string(member(v, "version"))
}

/// Whether a parsed package manifest declares `dsh.bundle.patch`.
pub fn declares_bundle_patch(v: &JsonValue) -> (b: bool)
    ensures
        b == (opt_member(opt_member(json_member(*v, "dsh"@), "bundle"@), "patch"@) is Some),
{
    opt_member_ref(opt_member_ref(member(v, "dsh"), "bundle"), "patch").is_some()
}

/// A package manifest parsed from its text; `None` when the text is not JSON.
pub fn parse_package_manifest(text: &str) -> (r: Option<JsonValue>)
    ensures
        match json_parse(text@) {
            Ok(v) => r == Some(v),
            Err(_) => r is None,
        },
{
    match parse_json(text) {
        Ok(v) => Some(v),
        Err(_) => None,
    }
}

// ------------------------------------------------------------------ the dsh entry

/// How dsh is started, from what was found: a GitHub shim whose directory is
/// gone refuses; a GitHub install directory needs `node`; else `dsh` on the
/// `PATH`; else dsh is not installed.
pub fn resolve_entry_from(shim_broken: bool, install_dir: Option<String>, node: Option<String>, dsh_found: bool) -> (r:
    Result<DshEntry, PluginError>)
    ensures
        shim_broken ==> (r matches Err(e) && e.kind == PluginErrorKind::DshNotInstalled && e.message@
            == "dsh 安装目录缺失（GitHub shim 指向的目录已不存在或为空），请重新安装 dsh"@),
        !shim_broken && install_dir is Some ==> match node {
            Some(n) => r matches Ok(DshEntry::SourceDir { dir, node: m }) && dir@ == install_dir->0@ && m@ == n@,
            None => r matches Err(e) && e.kind == PluginErrorKind::DshNotInstalled && e.message@
                == "未找到 node.exe，无法调用 dsh（请先安装 Node 工具链）"@,
        },
        !shim_broken && install_dir is None && dsh_found ==> r matches Ok(DshEntry::Path),
        !shim_broken && install_dir is None && !dsh_found ==> (r matches Err(e) && e.kind
            == PluginErrorKind::DshNotInstalled && e.message@
            == "未找到 dsh（PATH 无 dsh 且无 GitHub 安装目录），请先在版本管理中安装 dsh"@),
{
    if shim_broken {
        return Err(
            PluginError::new(
                PluginErrorKind::DshNotInstalled,
                "dsh 安装目录缺失（GitHub shim 指向的目录已不存在或为空），请重新安装 dsh".to_owned(),
            ),
        );
    }
    match install_dir {
        Some(dir) => match node {
            Some(node) => Ok(DshEntry::SourceDir { dir, node }),
            None => Err(
                PluginError::new(
                    PluginErrorKind::DshNotInstalled,
                    "未找到 node.exe，无法调用 dsh（请先安装 Node 工具链）".to_owned(),
                ),
            ),
        },
        None => if dsh_found {
            Ok(DshEntry::Path)
        } else {
            Err(
                PluginError::new(
                    PluginErrorKind::DshNotInstalled,
                    "未找到 dsh（PATH 无 dsh 且无 GitHub 安装目录），请先在版本管理中安装 dsh".to_owned(),
                ),
            )
        },
    }
}

pub open spec fn dump_failure_message(code: Option<i32>, stderr: Seq<char>) -> Seq<char> {
    "dsh --dump-config 失败（退出码 "@ + int_text(
        match code {
            Some(c) => c as int,
            None => -1,
        },
    ) + "）："@ + trim(stderr)
}

/// The error of a failed `dsh --dump-config`: its exit code (-1 when killed) and trimmed error output.
pub fn dump_failure(code: Option<i32>, stderr: &str) -> (e: PluginError)
    ensures
        e.kind == PluginErrorKind::Internal,
        e.message@ == dump_failure_message(code, stderr@),
{
    let c: i32 = match code {
        Some(c) => c,
        None => -1,
    };
    let mut m = str_chars("dsh --dump-config 失败（退出码 ");
    let d = int_vec(c);
    push_all(&mut m, &d);
    push_str(&mut m, "）：");
    let t = trim_vec(&str_chars(stderr));
    push_all(&mut m, &t);
    PluginError::internal(chars_string(m.as_slice()))
}

/// The first line of `ls`, from `i` on, that is not blank, trimmed.
pub open spec fn first_nonblank_from(ls: Seq<Seq<char>>, i: int) -> Option<Seq<char>>
    decreases ls.len() - i,
{
    if i < 0 || i >= ls.len() {
        None
    } else if trim(ls[i]).len() > 0 {
        Some(trim(ls[i]))
    } else {
        first_nonblank_from(ls, i + 1)
    }
}

/// The first path `where node` prints: its first non-blank line, trimmed.
pub fn first_listed_path(stdout: &str) -> (r: Option<String>)
    ensures
        opt_view(r) == first_nonblank_from(lines(stdout@), 0),
{
    let ls = split_lines(&str_chars(stdout));
    let mut i: usize = 0;
    while i < ls.len()
        invariant
            i <= ls.len(),
            lines_view(ls@) == lines(stdout@),
            first_nonblank_from(lines(stdout@), 0) == first_nonblank_from(lines(stdout@), i as int),
        decreases ls.len() - i,
    {
        assert(lines_view(ls@)[i as int] == ls@[i as int]@);
        let t = trim_vec(&ls[i]);
        if t.len() > 0 {
            return Some(chars_string(t.as_slice()));
        }
        i = i + 1;
    }
    None
}

} // verus!
