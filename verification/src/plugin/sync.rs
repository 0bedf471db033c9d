//! Upstream plugin sync planning. Only packages of upstream origin enter the
//! plan; in-house and unknown ones are skipped. An npm source is compared with
//! the registry's latest version, a git source with the remote reference's
//! commit (and pinned to it). The remote lookups are the caller's part: a plan
//! item is decided from their outcome.
use crate::json::{json_parse, opt_str, parse_json, JsonValue};
use crate::text::{
    chars_string, copy_range, first_token, first_token_vec, lines, opt_vec_string, opt_vec_view, opt_view, push_all,
    push_str, split_lines, str_chars, trim, trim_vec,
};
use vstd::prelude::*;

verus! {

/// Where a plugin comes from.
#[derive(Debug, Clone, Copy, PartialEq, Eq, Structural)]
pub enum Origin {
    Upstream,
    InHouse,
    Unknown,
}

/// The kind of an install spec.
#[derive(Debug, Clone, Copy, PartialEq, Eq, Structural)]
pub enum SpecKind {
    Npm,
    Git,
    Path,
    Unknown,
}

/// How a plugin was installed.
#[derive(Debug, Clone)]
pub struct PluginSource {
    pub kind: SpecKind,
    /// The install spec as written to the profile
    pub spec: String,
    /// Git repository address
    pub repo: Option<String>,
    /// Git reference (branch / tag)
    pub reference: Option<String>,
    /// Commit the spec is pinned to
    pub commit: Option<String>,
}

/// A plugin of the launcher's registry.
#[derive(Debug, Clone)]
pub struct PluginRecord {
    pub package: String,
    pub origin: Origin,
    pub source: Option<PluginSource>,
}

impl PluginRecord {
    /// A record of unknown origin without source information.
    pub fn new(package: &str) -> (r: PluginRecord)
        ensures
            r.package@ == package@,
            r.origin == Origin::Unknown,
            r.source is None,
    {
        PluginRecord { package: package.to_owned(), origin: Origin::Unknown, source: None }
    }
}

/// One item of a sync plan.
#[derive(Debug, Clone)]
pub struct SyncPlanItem {
    pub package: String,
    pub origin: Origin,
    pub kind: SpecKind,
    /// Current version / commit
    pub current: Option<String>,
    /// Target version / commit
    pub target: Option<String>,
    /// The new spec to write (`None`: nothing to change)
    pub new_spec: Option<String>,
    pub actionable: bool,
    /// Why it is skipped, or what changes
    pub reason: String,
}

/// The first ten characters.
pub open spec fn spec_short(v: Seq<char>) -> Seq<char> {
    if v.len() <= 10 {
        v
    } else {
        v.subrange(0, 10)
    }
}

/// The first ten characters (an abbreviated commit).
pub fn short(value: &str) -> (s: String)
    ensures
        s@ == spec_short(value@),
{
    let v = str_chars(value);
    if v.len() <= 10 {
        value.to_owned()
    } else {
        chars_string(copy_range(&v, 0, 10).as_slice())
    }
}

/// The commit a git spec is pinned to: the text after its last `#`, when there is any.
pub open spec fn spec_pinned_commit(spec: Seq<char>) -> Option<Seq<char>> {
    match last_hash(spec, spec.len() as int) {
        Some(k) => if k + 1 < spec.len() {
            Some(spec.subrange(k + 1, spec.len() as int))
        } else {
            None
        },
        None => None,
    }
}

/// Index of the last `#` before `j`.
pub open spec fn last_hash(s: Seq<char>, j: int) -> Option<int>
    decreases j,
{
    if j <= 0 || j > s.len() {
        None
    } else if s[j - 1] == '#' {
        Some(j - 1)
    } else {
        last_hash(s, j - 1)
    }
}

pub fn pinned_commit(spec: &str) -> (r: Option<String>)
    ensures
        crate::text::opt_view(r) == spec_pinned_commit(spec@),
{
    let v = str_chars(spec);
    let mut j: usize = v.len();
    while j > 0
        invariant
            j <= v.len(),
            v@ == spec@,
            last_hash(v@, v@.len() as int) == last_hash(v@, j as int),
        decreases j,
    {
        if v[j - 1] == '#' {
            if j < v.len() {
                return Some(chars_string(copy_range(&v, j, v.len()).as_slice()));
            }
            return None;
        }
        j = j - 1;
    }
    None
}

/// The remote lookup a record needs before its plan item can be decided.
#[derive(Debug, Clone)]
pub enum RemoteLookup {
    /// The latest version of an npm package
    NpmLatest(String),
    /// The commit of a git reference (`None`: `HEAD`)
    GitTarget(String, Option<String>),
}

/// Which lookup the plan of `record` needs: none unless it is of upstream origin
/// with an npm source, or a git source with a repository.
pub fn lookup_for(record: &PluginRecord) -> (l: Option<RemoteLookup>)
    ensures
        record.origin != Origin::Upstream ==> l is None,
        record.origin == Origin::Upstream ==> match record.source {
            None => l is None,
            Some(src) => match src.kind {
                SpecKind::Npm => l matches Some(RemoteLookup::NpmLatest(p)) && p@ == record.package@,
                SpecKind::Git => match src.repo {
                    None => l is None,
                    Some(repo) => l matches Some(RemoteLookup::GitTarget(r, rf)) && r@ == repo@
                        && crate::text::opt_view(rf) == crate::text::opt_view(src.reference),
                },
                _ => l is None,
            },
        },
{
    match record.origin {
        Origin::Upstream => {},
        _ => {
            return None;
        },
    }
    match &record.source {
        None => None,
        Some(src) => match src.kind {
            SpecKind::Npm => Some(RemoteLookup::NpmLatest(record.package.clone())),
            SpecKind::Git => match &src.repo {
                None => None,
                Some(repo) => Some(
                    RemoteLookup::GitTarget(
                        repo.clone(),
                        match &src.reference {
                            Some(r) => Some(r.clone()),
                            None => None,
                        },
                    ),
                ),
            },
            _ => None,
        },
    }
}

pub open spec fn origin_debug(o: Origin) -> Seq<char> {
    match o {
        Origin::Upstream => "Upstream"@,
        Origin::InHouse => "InHouse"@,
        Origin::Unknown => "Unknown"@,
    }
}

fn origin_debug_str(o: Origin) -> (s: &'static str)
    ensures
        s@ == origin_debug(o),
{
    match o {
        Origin::Upstream => "Upstream",
        Origin::InHouse => "InHouse",
        Origin::Unknown => "Unknown",
    }
}

pub open spec fn opt_or_unknown(o: Option<Seq<char>>) -> Seq<char> {
    match o {
        Some(v) => v,
        None => "未知"@,
    }
}

/// The plan decision for one record, as the item's (actionable, reason, target,
/// new spec, current) given the installed version, the spec's pinned commit and
/// the outcome of the record's remote lookup (`None` when none was made).
pub open spec fn spec_plan(
    package: Seq<char>,
    origin: Origin,
    source: Option<PluginSource>,
    installed: Option<Seq<char>>,
    pinned: Option<Seq<char>>,
    remote: Option<Result<Option<Seq<char>>, Seq<char>>>,
) -> (bool, Seq<char>, Option<Seq<char>>, Option<Seq<char>>, Option<Seq<char>>) {
    if origin != Origin::Upstream {
        (false, package + "：跳过（"@ + origin_debug(origin) + " 插件不自动同步）"@, None, None, installed)
    } else {
        match source {
            None => (false, package + "：跳过（注册表缺少来源信息）"@, None, None, installed),
            Some(src) => match src.kind {
                SpecKind::Npm => match remote {
                    Some(Ok(Some(latest))) => {
                        let actionable = installed != Some(latest);
                        (
                            actionable,
                            if actionable {
                                package + "："@ + opt_or_unknown(installed) + " → "@ + latest
                            } else {
                                package + "：已是最新（"@ + latest + "）"@
                            },
                            Some(latest),
                            Some(package + "@"@ + latest),
                            installed,
                        )
                    },
                    Some(Ok(None)) => (false, package + "：registry 无版本信息"@, None, None, installed),
                    Some(Err(e)) => (false, package + "：查询失败（"@ + e + "）"@, None, None, installed),
                    None => (false, package + "：registry 无版本信息"@, None, None, installed),
                },
                SpecKind::Git => {
                    let recorded = crate::text::opt_view(src.commit);
                    match src.repo {
                        None => (false, package + "：跳过（缺少 git 仓库地址）"@, None, None, recorded),
                        Some(repo) => match remote {
                            Some(Ok(Some(target))) => {
                                let current = if recorded is Some {
                                    recorded
                                } else {
                                    pinned
                                };
                                let actionable = current != Some(target);
                                (
                                    actionable,
                                    if actionable {
                                        package + "："@ + opt_or_unknown(current) + " → "@ + spec_short(target)
                                    } else {
                                        package + "：已是最新（"@ + spec_short(target) + "）"@
                                    },
                                    Some(target),
                                    Some(repo@ + "#"@ + target),
                                    current,
                                )
                            },
                            Some(Err(e)) => (false, package + "：查询失败（"@ + e + "）"@, None, None, recorded),
                            _ => (false, package + "：远端无该引用"@, None, None, recorded),
                        },
                    }
                },
                _ => (false, package + "：跳过（非 npm/git 源）"@, None, None, installed),
            },
        }
    }
}

pub open spec fn remote_view(r: Option<Result<Option<String>, String>>) -> Option<Result<Option<Seq<char>>, Seq<char>>> {
    match r {
        None => None,
        Some(Ok(v)) => Some(Ok(crate::text::opt_view(v))),
        Some(Err(e)) => Some(Err(e@)),
    }
}

fn clone_opt(o: &Option<String>) -> (r: Option<String>)
    ensures
        crate::text::opt_view(r) == crate::text::opt_view(*o),
{
    match o {
        Some(s) => Some(s.clone()),
        None => None,
    }
}

fn join2(a: &String, b: &str) -> (s: String)
    ensures
        s@ == a@ + b@,
{
    let mut v = str_chars(a.as_str());
    push_str(&mut v, b);
    chars_string(v.as_slice())
}

fn join3(a: &String, mid: &str, b: &str) -> (s: String)
    ensures
        s@ == a@ + mid@ + b@,
{
    let mut v = str_chars(a.as_str());
    push_str(&mut v, mid);
    push_str(&mut v, b);
    chars_string(v.as_slice())
}

/// `item` is the plan of `record` for the installed version and the remote lookup's outcome.
pub open spec fn planned_as(
    item: SyncPlanItem,
    record: PluginRecord,
    installed: Option<Seq<char>>,
    remote: Option<Result<Option<Seq<char>>, Seq<char>>>,
) -> bool {
    let d = spec_plan(
        record.package@,
        record.origin,
        record.source,
        installed,
        match record.source {
            Some(s) => spec_pinned_commit(s.spec@),
            None => None,
        },
        remote,
    );
    &&& item.package@ == record.package@
    &&& item.origin == record.origin
    &&& item.kind == (match record.source {
        Some(s) => s.kind,
        None => SpecKind::Unknown,
    })
    &&& item.actionable == d.0
    &&& item.reason@ == d.1
    &&& crate::text::opt_view(item.target) == d.2
    &&& crate::text::opt_view(item.new_spec) == d.3
    &&& crate::text::opt_view(item.current) == d.4
}

/// The plan item of one record, given the installed version and the outcome of
/// the remote lookup that `lookup_for` asked for (`None` when it asked none).
pub fn plan_for(
    record: &PluginRecord,
    installed_version: Option<String>,
    remote: Option<Result<Option<String>, String>>,
) -> (item: SyncPlanItem)
    ensures
        planned_as(item, *record, crate::text::opt_view(installed_version), remote_view(remote)),
{
    let package = record.package.clone();
    let kind = match &record.source {
        Some(s) => s.kind,
        None => SpecKind::Unknown,
    };
    match record.origin {
        Origin::Upstream => {},
        other => {
            let mut m = str_chars(package.as_str());
            push_str(&mut m, "：跳过（");
            push_str(&mut m, origin_debug_str(other));
            push_str(&mut m, " 插件不自动同步）");
            return SyncPlanItem {
                package,
                origin: record.origin,
                kind,
                current: installed_version,
                target: None,
                new_spec: None,
                actionable: false,
                reason: chars_string(m.as_slice()),
            };
        },
    }
    let src = match &record.source {
        None => {
            return SyncPlanItem {
                reason: join2(&package, "：跳过（注册表缺少来源信息）"),
                package,
                origin: record.origin,
                kind,
                current: installed_version,
                target: None,
                new_spec: None,
                actionable: false,
            };
        },
        Some(s) => s,
    };
    match src.kind {
        SpecKind::Npm => match remote {
            Some(Ok(Some(latest))) => {
                let actionable = match &installed_version {
                    Some(v) => !crate::text::eq_vec(&str_chars(v.as_str()), &str_chars(latest.as_str())),
                    None => true,
                };
                let reason = if actionable {
                    let mut m = str_chars(package.as_str());
                    push_str(&mut m, "：");
                    match &installed_version {
                        Some(v) => push_str(&mut m, v.as_str()),
                        None => push_str(&mut m, "未知"),
                    }
                    push_str(&mut m, " → ");
                    push_str(&mut m, latest.as_str());
                    chars_string(m.as_slice())
                } else {
                    let mut m = str_chars(package.as_str());
                    push_str(&mut m, "：已是最新（");
                    push_str(&mut m, latest.as_str());
                    push_str(&mut m, "）");
                    chars_string(m.as_slice())
                };
                let new_spec = join3(&package, "@", latest.as_str());
                SyncPlanItem {
                    package,
                    origin: record.origin,
                    kind,
                    current: installed_version,
                    target: Some(latest),
                    new_spec: Some(new_spec),
                    actionable,
                    reason,
                }
            },
            Some(Err(e)) => {
                let mut m = str_chars(package.as_str());
                push_str(&mut m, "：查询失败（");
                push_str(&mut m, e.as_str());
                push_str(&mut m, "）");
                SyncPlanItem {
                    package,
                    origin: record.origin,
                    kind,
                    current: installed_version,
                    target: None,
                    new_spec: None,
                    actionable: false,
                    reason: chars_string(m.as_slice()),
                }
            },
            _ => SyncPlanItem {
                reason: join2(&package, "：registry 无版本信息"),
                package,
                origin: record.origin,
                kind,
                current: installed_version,
                target: None,
                new_spec: None,
                actionable: false,
            },
        },
        SpecKind::Git => {
            let recorded = clone_opt(&src.commit);
            let repo = match &src.repo {
                None => {
                    return SyncPlanItem {
                        reason: join2(&package, "：跳过（缺少 git 仓库地址）"),
                        package,
                        origin: record.origin,
                        kind,
                        current: recorded,
                        target: None,
                        new_spec: None,
                        actionable: false,
                    };
                },
                Some(r) => r,
            };
            match remote {
                Some(Ok(Some(target))) => {
                    let current = match recorded {
                        Some(c) => Some(c),
                        None => pinned_commit(src.spec.as_str()),
                    };
                    let actionable = match &current {
                        Some(c) => !crate::text::eq_vec(&str_chars(c.as_str()), &str_chars(target.as_str())),
                        None => true,
                    };
                    let st = short(target.as_str());
                    let reason = if actionable {
                        let mut m = str_chars(package.as_str());
                        push_str(&mut m, "：");
                        match &current {
                            Some(c) => push_str(&mut m, c.as_str()),
                            None => push_str(&mut m, "未知"),
                        }
                        push_str(&mut m, " → ");
                        push_str(&mut m, st.as_str());
                        chars_string(m.as_slice())
                    } else {
                        let mut m = str_chars(package.as_str());
                        push_str(&mut m, "：已是最新（");
                        push_str(&mut m, st.as_str());
                        push_str(&mut m, "）");
                        chars_string(m.as_slice())
                    };
                    let new_spec = join3(repo, "#", target.as_str());
                    SyncPlanItem {
                        package,
                        origin: record.origin,
                        kind,
                        current,
                        target: Some(target),
                        new_spec: Some(new_spec),
                        actionable,
                        reason,
                    }
                },
                Some(Err(e)) => {
                    let mut m = str_chars(package.as_str());
                    push_str(&mut m, "：查询失败（");
                    push_str(&mut m, e.as_str());
                    push_str(&mut m, "）");
                    SyncPlanItem {
                        package,
                        origin: record.origin,
                        kind,
                        current: recorded,
                        target: None,
                        new_spec: None,
                        actionable: false,
                        reason: chars_string(m.as_slice()),
                    }
                },
                _ => SyncPlanItem {
                    reason: join2(&package, "：远端无该引用"),
                    package,
                    origin: record.origin,
                    kind,
                    current: recorded,
                    target: None,
                    new_spec: None,
                    actionable: false,
                },
            }
        },
        _ => SyncPlanItem {
            reason: join2(&package, "：跳过（非 npm/git 源）"),
            package,
            origin: record.origin,
            kind,
            current: installed_version,
            target: None,
            new_spec: None,
            actionable: false,
        },
    }
}

// ------------------------------------------------------------------ remote answers

pub open spec fn npm_parse_message(e: Seq<char>) -> Seq<char> {
    "解析 npm view 输出失败: "@ + e
}

/// The latest version from the parsed output of `npm view <package> version --json`:
/// the JSON string, `None` for any other value; a parse failure is an error.
pub fn npm_version_from(parsed: Result<JsonValue, String>) -> (r: Result<Option<String>, String>)
    ensures
        match parsed {
            Ok(v) => r matches Ok(o) && opt_view(o) == opt_str(Some(v)),
            Err(e) => r matches Err(m) && m@ == npm_parse_message(e@),
        },
{
    match parsed {
        Ok(JsonValue::Str(s)) => Ok(Some(s)),
        Ok(_) => Ok(None),
        Err(e) => {
            let mut m = str_chars("解析 npm view 输出失败: ");
            push_str(&mut m, e.as_str());
            Err(chars_string(m.as_slice()))
        },
    }
}

/// The latest version from the output of `npm view <package> version --json`:
/// `None` when the trimmed output is empty, else as `npm_version_from` reads it.
pub fn npm_view_version(stdout: &str) -> (r: Result<Option<String>, String>)
    ensures
        trim(stdout@).len() == 0 ==> (r matches Ok(o) && o is None),
        trim(stdout@).len() > 0 ==> match json_parse(trim(stdout@)) {
            Ok(v) => r matches Ok(o) && opt_view(o) == opt_str(Some(v)),
            Err(e) => r matches Err(m) && m@ == npm_parse_message(e),
        },
{
    let t = trim_vec(&str_chars(stdout));
    if t.len() == 0 {
        return Ok(None);
    }
    let text = chars_string(t.as_slice());
    npm_version_from(parse_json(text.as_str()))
}

/// The commit `git ls-remote` prints: the first token of its first line.
pub fn ls_remote_commit(stdout: &str) -> (r: Option<String>)
    ensures
        opt_view(r) == (if lines(stdout@).len() > 0 {
            first_token(lines(stdout@)[0])
        } else {
            None
        }),
{
    let ls = split_lines(&str_chars(stdout));
    if ls.len() == 0 {
        return None;
    }
    assert(crate::text::lines_view(ls@)[0] == ls@[0]@);
    let t = first_token_vec(&ls[0]);
    opt_vec_string(t)
}

/// The sync plan of every record, in order: item `i` is the plan of
/// `records[i]` for `versions[i]` and `remotes[i]`.
pub fn plan_all(
    records: &Vec<PluginRecord>,
    versions: Vec<Option<String>>,
    remotes: Vec<Option<Result<Option<String>, String>>>,
) -> (items: Vec<SyncPlanItem>)
    requires
        versions.len() == records.len(),
        remotes.len() == records.len(),
    ensures
        items.len() == records.len(),
        forall|i: int|
            0 <= i < records.len() ==> planned_as(
                #[trigger] items@[i],
                records@[i],
                crate::text::opt_view(versions@[i]),
                remote_view(remotes@[i]),
            ),
{
    let ghost vs = versions@;
    let ghost rs = remotes@;
    let mut versions = versions;
    let mut remotes = remotes;
    let mut items: Vec<SyncPlanItem> = Vec::new();
    let mut i: usize = 0;
    while i < records.len()
        invariant
            i <= records.len(),
            vs.len() == records.len(),
            rs.len() == records.len(),
            items.len() == i,
            versions@ == vs.subrange(i as int, vs.len() as int),
            remotes@ == rs.subrange(i as int, rs.len() as int),
            forall|k: int|
                0 <= k < i ==> planned_as(
                    #[trigger] items@[k],
                    records@[k],
                    crate::text::opt_view(vs[k]),
                    remote_view(rs[k]),
                ),
        decreases records.len() - i,
    {
        let v = versions.remove(0);
        let r = remotes.remove(0);
        assert(v == vs[i as int] && r == rs[i as int]);
        let item = plan_for(&records[i], v, r);
        items.push(item);
        assert(versions@ =~= vs.subrange(i + 1, vs.len() as int));
        assert(remotes@ =~= rs.subrange(i + 1, rs.len() as int));
        i = i + 1;
    }
    items
}

/// A plan item is actionable exactly when it has a target and the version or
/// commit it reports as current differs from that whole target (so an item
/// already at its target is never planned again); for a git source the current
/// commit is the recorded one, else the one its spec is pinned to.
pub proof fn law_actionable_iff_behind_target(
    item: SyncPlanItem,
    record: PluginRecord,
    installed: Option<Seq<char>>,
    remote: Option<Result<Option<Seq<char>>, Seq<char>>>,
)
    requires
        planned_as(item, record, installed, remote),
    ensures
        item.actionable <==> (item.target is Some && crate::text::opt_view(item.current) != crate::text::opt_view(
            item.target,
        )),
        (record.origin == Origin::Upstream && (record.source matches Some(src) && src.kind == SpecKind::Git
            && src.repo is Some) && item.target is Some) ==> crate::text::opt_view(item.current) == (
        if record.source.unwrap().commit is Some {
            crate::text::opt_view(record.source.unwrap().commit)
        } else {
            spec_pinned_commit(record.source.unwrap().spec@)
        }),
{
}

} // verus!
