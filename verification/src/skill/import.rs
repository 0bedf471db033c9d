//! Import planning: which repository files a skill import adds, overwrites or
//! leaves alone (local-only files are always kept), the report of a planning
//! run, and the bookkeeping of batch imports. Cloning, listing and copying
//! files is the caller's part.
use crate::skill::frontmatter::{set_disable_model_invocation, spec_set, WriteError};
use crate::skill::scan::{is_valid_skill_name, spec_valid_skill_name};
use crate::skill::source::SourceRecord;
use crate::text::{
    chars_string, copy_range, decimal, decimal_vec, eq_vec, int_text, int_vec, join, join_lines, lines, lines_view, lt_vec, opt_view,
    push_all, push_str, seq_lt, split_lines, starts_with, starts_with_str, str_chars, trim, trim_vec,
};
use vstd::prelude::*;

verus! {

/// What a planned import does to one file.
#[derive(Debug, Clone, Copy, PartialEq, Eq, Structural)]
pub enum FileChange {
    /// Not present locally: added
    Added,
    /// Present on both sides with different content: overwritten
    Updated,
    /// Same content: nothing to do
    Same,
    /// Present only locally: kept, never deleted
    LocalOnly,
    /// Reserved: a file the repository no longer provides
    Removed,
}

/// One file of a plan.
#[derive(Debug, Clone)]
pub struct FileDiff {
    /// Path relative to the skill directory (`/`-separated)
    pub path: String,
    pub change: FileChange,
}

pub struct SpecFileDiff {
    pub path: Seq<char>,
    pub change: FileChange,
}

impl View for FileDiff {
    type V = SpecFileDiff;

    open spec fn view(&self) -> SpecFileDiff {
        SpecFileDiff { path: self.path@, change: self.change }
    }
}

pub open spec fn diffs_view(v: Seq<FileDiff>) -> Seq<SpecFileDiff> {
    v.map_values(|d: FileDiff| d@)
}

/// The plan for one skill.
#[derive(Debug, Clone)]
pub struct SkillImportPlan {
    /// Frontmatter `name` (also the target directory name)
    pub name: String,
    /// Source path inside the repository
    pub repo_path: String,
    /// Target directory
    pub target_path: String,
    /// Whether anything is written (some file added or updated)
    pub actionable: bool,
    pub added: usize,
    pub updated: usize,
    pub same: usize,
    /// Files only the local copy has (kept)
    pub local_only: usize,
    pub removed_upstream: usize,
    /// Per-file detail, sorted by path
    pub files: Vec<FileDiff>,
    /// Why the skill is skipped
    pub skip_reason: Option<String>,
}

/// The result of planning (and possibly applying) an import.
#[derive(Debug, Clone)]
pub struct ImportReport {
    /// Source URL as typed
    pub url: String,
    /// Commit that was cloned
    pub commit: Option<String>,
    pub plans: Vec<SkillImportPlan>,
    /// Whether anything was written (a check never writes)
    pub applied: bool,
    pub message: String,
}

/// Why an import failed.
#[derive(Debug)]
pub enum ImportError {
    GitMissing(String),
    CloneFailed(String),
    NoSkills(String),
    TargetUnavailable(String),
    Io(String),
}

pub open spec fn import_error_message(e: &ImportError) -> Seq<char> {
    match e {
        ImportError::GitMissing(d) => "未找到 git："@ + d@,
        ImportError::CloneFailed(d) => "克隆仓库失败："@ + d@,
        ImportError::NoSkills(d) => "该仓库中没有找到任何技能："@ + d@,
        ImportError::TargetUnavailable(d) => "目标技能根不可用："@ + d@,
        ImportError::Io(d) => d@,
    }
}

fn prefixed(prefix: &str, detail: &String) -> (s: String)
    ensures
        s@ == prefix@ + detail@,
{
    let mut v = str_chars(prefix);
    push_str(&mut v, detail.as_str());
    chars_string(v.as_slice())
}

impl ImportError {
    /// The user-facing explanation.
    pub fn message(&self) -> (m: String)
        ensures
            m@ == import_error_message(self),
    {
        match self {
            ImportError::GitMissing(d) => prefixed("未找到 git：", d),
            ImportError::CloneFailed(d) => prefixed("克隆仓库失败：", d),
            ImportError::NoSkills(d) => prefixed("该仓库中没有找到任何技能：", d),
            ImportError::TargetUnavailable(d) => prefixed("目标技能根不可用：", d),
            ImportError::Io(d) => d.clone(),
        }
    }
}

/// Imports go to the rank-500 root `<agentsHome>/skills`.
pub fn target_root(agents_home: &str) -> (p: String)
    ensures
        crate::dshhome::plain_base(agents_home@) ==> crate::dshhome::is_join(p@, agents_home@, "skills"@),
{
    crate::dshhome::agents_skills_dir(agents_home)
}

/// Whether a skill text is safe for later toggling (its frontmatter can take the key).
pub fn precheck_frontmatter(text: &str) -> (r: Result<(), WriteError>)
    ensures
        r is Ok <==> spec_set(text@, true) is Ok,
        r matches Err(e) ==> spec_set(text@, true) == Err::<crate::skill::frontmatter::SpecToggle, WriteError>(e),
{
    match set_disable_model_invocation(text, true) {
        Ok(_) => Ok(()),
        Err(e) => Err(e),
    }
}

// ------------------------------------------------------------------ repository URLs

/// A repository address: `http(s)://`, `git@`, `ssh://`, `git://`, `file://`,
/// an absolute path, a UNC path or a drive path.
pub open spec fn looks_like_repo(url: Seq<char>) -> bool {
    starts_with(url, "http://"@) || starts_with(url, "https://"@) || starts_with(url, "git@"@) || starts_with(
        url,
        "ssh://"@,
    ) || starts_with(url, "git://"@) || starts_with(url, "file://"@) || starts_with(url, "/"@) || starts_with(
        url,
        "\\\\"@,
    ) || (url.len() > 2 && url[1] == ':')
}

pub open spec fn repo_url_error(url: Seq<char>) -> Option<Seq<char>> {
    let u = trim(url);
    if u.len() == 0 {
        Some("URL 为空"@)
    } else if !looks_like_repo(u) {
        Some("「"@ + u + "」不像仓库地址（需 http(s)://、git@、ssh:// 或本地路径）"@)
    } else {
        None
    }
}

/// The check made before cloning: the trimmed URL, or `CloneFailed` when it is
/// empty or does not look like a repository address.
pub fn check_repo_url(url: &str) -> (r: Result<String, ImportError>)
    ensures
        r is Ok <==> repo_url_error(url@) is None,
        r matches Ok(u) ==> u@ == trim(url@),
        r matches Err(e) ==> e matches ImportError::CloneFailed(d) && repo_url_error(url@) == Some(d@),
{
    let u = trim_vec(&str_chars(url));
    if u.len() == 0 {
        return Err(ImportError::CloneFailed("URL 为空".to_owned()));
    }
    let ok = starts_with_str(&u, "http://") || starts_with_str(&u, "https://") || starts_with_str(&u, "git@")
        || starts_with_str(&u, "ssh://") || starts_with_str(&u, "git://") || starts_with_str(&u, "file://")
        || starts_with_str(&u, "/") || starts_with_str(&u, "\\\\") || (u.len() > 2 && u[1] == ':');
    if !ok {
        let mut m = str_chars("「");
        push_all(&mut m, &u);
        push_str(&mut m, "」不像仓库地址（需 http(s)://、git@、ssh:// 或本地路径）");
        return Err(ImportError::CloneFailed(chars_string(m.as_slice())));
    }
    Ok(chars_string(u.as_slice()))
}

// ------------------------------------------------------------------ walking a repository

/// What the search for skills does with an entry of a repository directory.
#[derive(Debug, Clone, Copy, PartialEq, Eq, Structural)]
pub enum RepoEntry {
    /// Not looked at: a file, `.git` or `node_modules`
    Skip,
    /// A skill directory (it holds `SKILL.md`); not searched further
    Skill,
    /// A directory searched in turn (skills may sit in nested category directories)
    Descend,
}

pub open spec fn spec_repo_entry(name: Seq<char>, is_dir: bool, has_skill_file: bool) -> RepoEntry {
    if name == ".git"@ || name == "node_modules"@ || !is_dir {
        RepoEntry::Skip
    } else if has_skill_file {
        RepoEntry::Skill
    } else {
        RepoEntry::Descend
    }
}

/// How the search for skills treats a repository entry.
pub fn repo_entry(name: &str, is_dir: bool, has_skill_file: bool) -> (e: RepoEntry)
    ensures
        e == spec_repo_entry(name@, is_dir, has_skill_file),
{
    let v = str_chars(name);
    if crate::text::eq_str(&v, ".git") || crate::text::eq_str(&v, "node_modules") || !is_dir {
        RepoEntry::Skip
    } else if has_skill_file {
        RepoEntry::Skill
    } else {
        RepoEntry::Descend
    }
}

// ------------------------------------------------------------------ git answers

/// `{:?}` of an exit code: `Some(<n>)` or `None`.
pub open spec fn code_debug(code: Option<i32>) -> Seq<char> {
    match code {
        Some(n) => "Some("@ + int_text(n as int) + ")"@,
        None => "None"@,
    }
}

/// The last `k` lines, last first (`lines().rev().take(k)`).
pub open spec fn last_lines(ls: Seq<Seq<char>>, k: nat) -> Seq<Seq<char>> {
    Seq::new(
        if ls.len() < k {
            ls.len()
        } else {
            k
        },
        |i: int| ls[ls.len() - 1 - i],
    )
}

/// The detail of a failed clone: the last six lines of git's error output, last
/// first, joined by line breaks; when that is blank, the exit code.
pub open spec fn clone_failure_detail(stderr: Seq<char>, code: Option<i32>) -> Seq<char> {
    let tail = join(last_lines(lines(stderr), 6), "\n"@);
    if trim(tail).len() == 0 {
        "git clone 退出码 "@ + code_debug(code)
    } else {
        tail
    }
}

fn code_text(code: Option<i32>) -> (r: Vec<char>)
    ensures
        r@ == code_debug(code),
{
    match code {
        Some(n) => {
            let mut r = str_chars("Some(");
            let d = int_vec(n);
            push_all(&mut r, &d);
            push_str(&mut r, ")");
            r
        },
        None => str_chars("None"),
    }
}

/// The error of a failed `git clone`, from its error output and exit code.
pub fn clone_failure(stderr: &str, code: Option<i32>) -> (e: ImportError)
    ensures
        e matches ImportError::CloneFailed(d) && d@ == clone_failure_detail(stderr@, code),
{
    let ls = split_lines(&str_chars(stderr));
    let ghost all = lines(stderr@);
    let k: usize = if ls.len() < 6 {
        ls.len()
    } else {
        6
    };
    let mut picked: Vec<Vec<char>> = Vec::new();
    let mut i: usize = 0;
    while i < k
        invariant
            i <= k <= ls.len(),
            k == (if ls.len() < 6 { ls.len() } else { 6 }),
            lines_view(ls@) == all,
            lines_view(picked@) == last_lines(all, 6).subrange(0, i as int),
        decreases k - i,
    {
        let j = ls.len() - 1 - i;
        let line = copy_range(&ls[j], 0, ls[j].len());
        assert(lines_view(ls@)[j as int] == ls@[j as int]@);
        assert(all.len() == ls.len());
        assert(last_lines(all, 6).len() == k);
        assert(last_lines(all, 6)[i as int] == all[j as int]);
        assert(line@ == all[j as int]);
        let ghost before = picked@;
        picked.push(line);
        assert(lines_view(picked@) =~= lines_view(before).push(line@));
        assert(lines_view(picked@) =~= last_lines(all, 6).subrange(0, i + 1));
        i = i + 1;
    }
    assert(last_lines(all, 6).subrange(0, k as int) =~= last_lines(all, 6));
    let tail = join_lines(&picked, &str_chars("\n"));
    if trim_vec(&tail).len() == 0 {
        let mut d = str_chars("git clone 退出码 ");
        let c = code_text(code);
        push_all(&mut d, &c);
        ImportError::CloneFailed(chars_string(d.as_slice()))
    } else {
        ImportError::CloneFailed(chars_string(tail.as_slice()))
    }
}

/// The commit `git rev-parse HEAD` printed: its trimmed output, `None` when blank.
pub fn head_commit(stdout: &str) -> (r: Option<String>)
    ensures
        trim(stdout@).len() == 0 ==> r is None,
        trim(stdout@).len() > 0 ==> (r matches Some(c) && c@ == trim(stdout@)),
{
    let t = trim_vec(&str_chars(stdout));
    if t.len() == 0 {
        None
    } else {
        Some(chars_string(t.as_slice()))
    }
}

// ------------------------------------------------------------------ planning one skill

/// A file of the repository's skill directory, with what the target holds for it.
#[derive(Debug, Clone)]
pub struct SourceFile {
    /// Path relative to the skill directory (`/`-separated)
    pub path: String,
    /// Whether the target directory has this file
    pub target_exists: bool,
    /// Whether the two copies are byte-for-byte equal
    pub same_content: bool,
}

pub open spec fn source_change(f: SourceFile) -> FileChange {
    if !f.target_exists {
        FileChange::Added
    } else if f.same_content {
        FileChange::Same
    } else {
        FileChange::Updated
    }
}

/// The diffs of the repository files, in their order.
pub open spec fn source_diffs(fs: Seq<SourceFile>) -> Seq<SpecFileDiff> {
    fs.map_values(|f: SourceFile| SpecFileDiff { path: f.path@, change: source_change(f) })
}

pub open spec fn count_change(fs: Seq<SourceFile>, c: FileChange) -> nat
    decreases fs.len(),
{
    if fs.len() == 0 {
        0
    } else {
        count_change(fs.drop_last(), c) + (if source_change(fs.last()) == c {
            1nat
        } else {
            0nat
        })
    }
}

/// The target files the repository does not provide, in their order.
pub open spec fn local_only_files(target: Seq<Seq<char>>, src: Seq<Seq<char>>) -> Seq<Seq<char>>
    decreases target.len(),
{
    if target.len() == 0 {
        Seq::empty()
    } else {
        local_only_files(target.drop_last(), src) + (if src.contains(target.last()) {
            Seq::empty()
        } else {
            seq![target.last()]
        })
    }
}

/// Where `x` goes in a list sorted by path: before the first strictly greater path.
pub open spec fn insert_pos(s: Seq<SpecFileDiff>, x: SpecFileDiff, j: int) -> int
    decreases s.len() - j,
{
    if j < 0 || j >= s.len() {
        s.len() as int
    } else if seq_lt(x.path, s[j].path) {
        j
    } else {
        insert_pos(s, x, j + 1)
    }
}

/// Stable sort by path (insertion of each diff, in order).
pub open spec fn sort_by_path(s: Seq<SpecFileDiff>) -> Seq<SpecFileDiff>
    decreases s.len(),
{
    if s.len() == 0 {
        Seq::empty()
    } else {
        let prev = sort_by_path(s.drop_last());
        prev.insert(insert_pos(prev, s.last(), 0), s.last())
    }
}

proof fn lemma_insert_pos_bounds(s: Seq<SpecFileDiff>, x: SpecFileDiff, j: int)
    requires
        0 <= j <= s.len(),
    ensures
        j <= insert_pos(s, x, j) <= s.len(),
    decreases s.len() - j,
{
    if j < s.len() && !seq_lt(x.path, s[j].path) {
        lemma_insert_pos_bounds(s, x, j + 1);
    }
}

pub open spec fn strings_seq(v: Seq<String>) -> Seq<Seq<char>> {
    v.map_values(|s: String| s@)
}

pub open spec fn source_paths(fs: Seq<SourceFile>) -> Seq<Seq<char>> {
    fs.map_values(|f: SourceFile| f.path@)
}

pub open spec fn local_only_diffs(ps: Seq<Seq<char>>) -> Seq<SpecFileDiff> {
    ps.map_values(|p: Seq<char>| SpecFileDiff { path: p, change: FileChange::LocalOnly })
}

/// The detail of a planned skill: repository files, then target-only files, sorted by path.
pub open spec fn plan_files(src: Seq<SourceFile>, target: Seq<Seq<char>>) -> Seq<SpecFileDiff> {
    sort_by_path(source_diffs(src) + local_only_diffs(local_only_files(target, source_paths(src))))
}

fn clone_diff(d: &FileDiff) -> (c: FileDiff)
    ensures
        c@ == d@,
{
    FileDiff { path: d.path.clone(), change: d.change }
}

fn sort_diffs(ds: &Vec<FileDiff>) -> (r: Vec<FileDiff>)
    ensures
        diffs_view(r@) == sort_by_path(diffs_view(ds@)),
{
    let ghost dv = diffs_view(ds@);
    let mut r: Vec<FileDiff> = Vec::new();
    let mut i: usize = 0;
    while i < ds.len()
        invariant
            i <= ds.len(),
            dv == diffs_view(ds@),
            diffs_view(r@) == sort_by_path(dv.subrange(0, i as int)),
        decreases ds.len() - i,
    {
        let ghost sub = dv.subrange(0, i + 1);
        assert(sub.drop_last() =~= dv.subrange(0, i as int));
        assert(sub.last() == ds@[i as int]@);
        let x = clone_diff(&ds[i]);
        let xp = str_chars(x.path.as_str());
        let ghost rv = diffs_view(r@);
        let mut j: usize = 0;
        while j < r.len() && !lt_vec(&xp, &str_chars(r[j].path.as_str()))
            invariant
                j <= r.len(),
                rv == diffs_view(r@),
                xp@ == x@.path,
                insert_pos(rv, x@, 0) == insert_pos(rv, x@, j as int),
            decreases r.len() - j,
        {
            assert(rv[j as int] == r@[j as int]@);
            j = j + 1;
        }
        proof {
            if j < r.len() {
                assert(rv[j as int] == r@[j as int]@);
            }
        }
        r.insert(j, x);
        assert(diffs_view(r@) =~= rv.insert(j as int, x@));
        i = i + 1;
    }
    assert(dv.subrange(0, ds.len() as int) =~= dv);
    r
}

/// Paths that the repository provides.
fn contains_path(src: &Vec<SourceFile>, p: &Vec<char>) -> (b: bool)
    ensures
        b == source_paths(src@).contains(p@),
{
    let mut i: usize = 0;
    while i < src.len()
        invariant
            i <= src.len(),
            forall|q: int| 0 <= q < i ==> source_paths(src@)[q] != p@,
        decreases src.len() - i,
    {
        if eq_vec(&str_chars(src[i].path.as_str()), p) {
            assert(source_paths(src@)[i as int] == p@);
            return true;
        }
        i = i + 1;
    }
    false
}

pub open spec fn skip_reason_identity() -> Seq<char> {
    "缺少可解析的 frontmatter name/description（官方会丢弃该技能）"@
}

pub open spec fn skip_reason_name() -> Seq<char> {
    "技能名不符合官方规则 ^[a-z0-9]+(?:-[a-z0-9]+)*$（仅小写字母、数字、连字符）"@
}

/// Plans one skill of a cloned repository.
///
/// Without a readable `name` / `description` (`identity` is `None`) the skill is
/// skipped under its directory name; a name outside `^[a-z0-9]+(?:-[a-z0-9]+)*$`
/// is skipped too. Otherwise each repository file is added (no target copy),
/// the same, or updated; each target file the repository lacks is kept as
/// local-only. The plan is actionable when something is added or updated.
pub fn plan_one(
    dir_name: String,
    repo_path: String,
    identity: Option<(String, String)>,
    target_path: String,
    src_files: &Vec<SourceFile>,
    target_files: &Vec<String>,
) -> (p: SkillImportPlan)
    ensures
        p.repo_path@ == repo_path@,
        match identity {
            None => p.name@ == dir_name@ && opt_view(p.skip_reason) == Some(skip_reason_identity()) && !p.actionable
                && p.files@.len() == 0 && p.target_path@.len() == 0,
            Some(id) => if !spec_valid_skill_name(id.0@) {
                p.name@ == id.0@ && opt_view(p.skip_reason) == Some(skip_reason_name()) && !p.actionable
                    && p.files@.len() == 0 && p.target_path@.len() == 0
            } else {
                &&& p.name@ == id.0@
                &&& p.skip_reason is None
                &&& p.target_path@ == target_path@
                &&& p.added == count_change(src_files@, FileChange::Added)
                &&& p.updated == count_change(src_files@, FileChange::Updated)
                &&& p.same == count_change(src_files@, FileChange::Same)
                &&& p.local_only == local_only_files(strings_seq(target_files@), source_paths(src_files@)).len()
                &&& p.actionable == (p.added > 0 || p.updated > 0)
                &&& p.removed_upstream == 0
                &&& diffs_view(p.files@) == plan_files(src_files@, strings_seq(target_files@))
            },
        },
{
    let (name, _description) = match identity {
        None => {
            return SkillImportPlan {
                name: dir_name,
                repo_path,
                target_path: String::new(),
                actionable: false,
                added: 0,
                updated: 0,
                same: 0,
                local_only: 0,
                removed_upstream: 0,
                files: Vec::new(),
                skip_reason: Some("缺少可解析的 frontmatter name/description（官方会丢弃该技能）".to_owned()),
            };
        },
        Some(id) => id,
    };
    if !is_valid_skill_name(name.as_str()) {
        return SkillImportPlan {
            name,
            repo_path,
            target_path: String::new(),
            actionable: false,
            added: 0,
            updated: 0,
            same: 0,
            local_only: 0,
            removed_upstream: 0,
            files: Vec::new(),
            skip_reason: Some(
                "技能名不符合官方规则 ^[a-z0-9]+(?:-[a-z0-9]+)*$（仅小写字母、数字、连字符）".to_owned(),
            ),
        };
    }
    let mut diffs: Vec<FileDiff> = Vec::new();
    let mut added: usize = 0;
    let mut updated: usize = 0;
    let mut same: usize = 0;
    let mut i: usize = 0;
    while i < src_files.len()
        invariant
            i <= src_files.len(),
            diffs_view(diffs@) == source_diffs(src_files@.subrange(0, i as int)),
            added == count_change(src_files@.subrange(0, i as int), FileChange::Added),
            updated == count_change(src_files@.subrange(0, i as int), FileChange::Updated),
            same == count_change(src_files@.subrange(0, i as int), FileChange::Same),
            added + updated + same == i,
        decreases src_files.len() - i,
    {
        let f = &src_files[i];
        let ghost sub = src_files@.subrange(0, i + 1);
        assert(sub.drop_last() =~= src_files@.subrange(0, i as int));
        assert(sub.last() == *f);
        let change = if !f.target_exists {
            added = added + 1;
            FileChange::Added
        } else if f.same_content {
            same = same + 1;
            FileChange::Same
        } else {
            updated = updated + 1;
            FileChange::Updated
        };
        let ghost prev = diffs@;
        assert(change == source_change(*f));
        diffs.push(FileDiff { path: f.path.clone(), change });
        assert(source_diffs(sub) =~= source_diffs(sub.drop_last()).push(
            SpecFileDiff { path: f.path@, change: source_change(*f) },
        ));
        assert(diffs_view(diffs@) =~= diffs_view(prev).push(SpecFileDiff { path: f.path@, change }));
        assert(diffs_view(diffs@) =~= source_diffs(src_files@.subrange(0, i + 1)));
        i = i + 1;
    }
    assert(src_files@.subrange(0, src_files.len() as int) =~= src_files@);
    let ghost base = diffs_view(diffs@);
    let ghost tv = strings_seq(target_files@);
    let ghost sp = source_paths(src_files@);
    let mut local_only: usize = 0;
    let mut k: usize = 0;
    while k < target_files.len()
        invariant
            k <= target_files.len(),
            tv == strings_seq(target_files@),
            sp == source_paths(src_files@),
            diffs_view(diffs@) == base + local_only_diffs(local_only_files(tv.subrange(0, k as int), sp)),
            local_only == local_only_files(tv.subrange(0, k as int), sp).len(),
            local_only <= k,
        decreases target_files.len() - k,
    {
        let ghost sub = tv.subrange(0, k + 1);
        assert(sub.drop_last() =~= tv.subrange(0, k as int));
        assert(sub.last() == target_files@[k as int]@);
        let rel = str_chars(target_files[k].as_str());
        let ghost prev = diffs@;
        let ghost lo = local_only_files(tv.subrange(0, k as int), sp);
        if !contains_path(src_files, &rel) {
            local_only = local_only + 1;
            diffs.push(FileDiff { path: target_files[k].clone(), change: FileChange::LocalOnly });
            assert(local_only_files(sub, sp) =~= lo.push(rel@));
            assert(local_only_diffs(lo.push(rel@)) =~= local_only_diffs(lo).push(
                SpecFileDiff { path: rel@, change: FileChange::LocalOnly },
            ));
            assert(diffs_view(diffs@) =~= diffs_view(prev).push(SpecFileDiff { path: rel@, change: FileChange::LocalOnly }));
        } else {
            assert(local_only_files(sub, sp) =~= lo);
        }
        assert(diffs_view(diffs@) =~= base + local_only_diffs(local_only_files(tv.subrange(0, k + 1), sp)));
        k = k + 1;
    }
    assert(tv.subrange(0, target_files.len() as int) =~= tv);
    let files = sort_diffs(&diffs);
    SkillImportPlan {
        name,
        repo_path,
        target_path,
        actionable: added > 0 || updated > 0,
        added,
        updated,
        same,
        local_only,
        removed_upstream: 0,
        files,
        skip_reason: None,
    }
}

// ------------------------------------------------------------------ reports

pub open spec fn count_importable(ps: Seq<SkillImportPlan>) -> nat
    decreases ps.len(),
{
    if ps.len() == 0 {
        0
    } else {
        count_importable(ps.drop_last()) + (if ps.last().skip_reason is None {
            1nat
        } else {
            0nat
        })
    }
}

pub open spec fn count_actionable(ps: Seq<SkillImportPlan>) -> nat
    decreases ps.len(),
{
    if ps.len() == 0 {
        0
    } else {
        count_actionable(ps.drop_last()) + (if ps.last().actionable {
            1nat
        } else {
            0nat
        })
    }
}

/// (importable, actionable) counts of a list of plans.
pub fn plan_counts(plans: &Vec<SkillImportPlan>) -> (r: (usize, usize))
    ensures
        r.0 == count_importable(plans@),
        r.1 == count_actionable(plans@),
        r.0 <= plans.len(),
{
    let mut importable: usize = 0;
    let mut actionable: usize = 0;
    let mut i: usize = 0;
    while i < plans.len()
        invariant
            i <= plans.len(),
            importable == count_importable(plans@.subrange(0, i as int)),
            actionable == count_actionable(plans@.subrange(0, i as int)),
            importable <= i,
            actionable <= i,
        decreases plans.len() - i,
    {
        assert(plans@.subrange(0, i + 1).drop_last() =~= plans@.subrange(0, i as int));
        if plans[i].skip_reason.is_none() {
            importable = importable + 1;
        }
        if plans[i].actionable {
            actionable = actionable + 1;
        }
        i = i + 1;
    }
    assert(plans@.subrange(0, plans.len() as int) =~= plans@);
    (importable, actionable)
}

pub open spec fn no_skills_detail(repo: Seq<char>) -> Seq<char> {
    "在 "@ + repo + " 下未找到任何含 SKILL.md 的目录。注意官方只发现扫描根顶层的 <名称>/SKILL.md，故仓库需含此类结构"@
}

pub open spec fn plan_message(importable: nat, skipped: nat, to_write: nat) -> Seq<char> {
    "共发现 "@ + decimal(importable) + " 个技能（跳过 "@ + decimal(skipped) + " 个）；"@ + decimal(to_write)
        + " 个需要写入"@
}

/// The report of a planning run over the skill directories of a clone (`repo`
/// names the clone in messages): `NoSkills` when the repository holds none;
/// a planning run never writes (`applied` is false).
pub fn plan_report(repo: &str, url: &str, commit: Option<String>, plans: Vec<SkillImportPlan>) -> (r: Result<
    ImportReport,
    ImportError,
>)
    ensures
        r is Err <==> plans.len() == 0,
        r matches Err(e) ==> e matches ImportError::NoSkills(d) && d@ == no_skills_detail(repo@),
        r matches Ok(rep) ==> {
            &&& rep.url@ == url@
            &&& opt_view(rep.commit) == opt_view(commit)
            &&& rep.plans@ == plans@
            &&& !rep.applied
            &&& rep.message@ == plan_message(
                count_importable(plans@),
                (plans.len() - count_importable(plans@)) as nat,
                count_actionable(plans@),
            )
        },
{
    if plans.len() == 0 {
        let mut m = str_chars("在 ");
        push_str(&mut m, repo);
        push_str(&mut m, " 下未找到任何含 SKILL.md 的目录。注意官方只发现扫描根顶层的 <名称>/SKILL.md，故仓库需含此类结构");
        return Err(ImportError::NoSkills(chars_string(m.as_slice())));
    }
    let (importable, to_write) = plan_counts(&plans);
    let skipped = plans.len() - importable;
    let mut m = str_chars("共发现 ");
    push_all(&mut m, &decimal_vec(importable));
    push_str(&mut m, " 个技能（跳过 ");
    push_all(&mut m, &decimal_vec(skipped));
    push_str(&mut m, " 个）；");
    push_all(&mut m, &decimal_vec(to_write));
    push_str(&mut m, " 个需要写入");
    Ok(ImportReport { url: url.to_owned(), commit, plans, applied: false, message: chars_string(m.as_slice()) })
}

/// The closing message of an applied import.
pub open spec fn applied_message(written: nat) -> Seq<char> {
    "导入完成，共写入 "@ + decimal(written) + " 个文件"@
}

pub fn apply_message(written: usize) -> (m: String)
    ensures
        m@ == applied_message(written as nat),
{
    let mut v = str_chars("导入完成，共写入 ");
    push_all(&mut v, &decimal_vec(written));
    push_str(&mut v, " 个文件");
    chars_string(v.as_slice())
}

pub open spec fn kept_names(ps: Seq<SkillImportPlan>) -> Seq<Seq<char>>
    decreases ps.len(),
{
    if ps.len() == 0 {
        Seq::empty()
    } else {
        kept_names(ps.drop_last()) + (if ps.last().skip_reason is None {
            seq![ps.last().name@]
        } else {
            Seq::empty()
        })
    }
}

pub open spec fn opt_label(name: Option<&str>) -> Option<Seq<char>> {
    match name {
        Some(n) => if trim(n@).len() > 0 {
            Some(trim(n@))
        } else {
            None
        },
        None => None,
    }
}

/// The source record an applied import registers: none without a commit;
/// otherwise the URL, the commit, the trimmed label (dropped when blank), the
/// import time and the names of the skills that were not skipped.
pub fn imported_record(report: &ImportReport, name: Option<&str>, now: String) -> (r: Option<SourceRecord>)
    ensures
        r is None <==> report.commit is None,
        r matches Some(rec) ==> {
            &&& rec@.name == opt_label(name)
            &&& rec@.url == report.url@
            &&& rec@.commit == opt_view(report.commit)
            &&& rec@.imported_at == now@
            &&& rec@.checked_at is None
            &&& rec@.last_update_count == 0
            &&& rec@.skills == kept_names(report.plans@)
        },
{
    let commit = match &report.commit {
        None => {
            return None;
        },
        Some(c) => c.clone(),
    };
    let mut skills: Vec<String> = Vec::new();
    let mut i: usize = 0;
    while i < report.plans.len()
        invariant
            i <= report.plans.len(),
            skills@.map_values(|s: String| s@) == kept_names(report.plans@.subrange(0, i as int)),
        decreases report.plans.len() - i,
    {
        assert(report.plans@.subrange(0, i + 1).drop_last() =~= report.plans@.subrange(0, i as int));
        if report.plans[i].skip_reason.is_none() {
            let ghost prev = skills@;
            skills.push(report.plans[i].name.clone());
            assert(skills@.map_values(|s: String| s@) =~= prev.map_values(|s: String| s@).push(
                report.plans@[i as int].name@,
            ));
        }
        i = i + 1;
    }
    assert(report.plans@.subrange(0, report.plans.len() as int) =~= report.plans@);
    let label = match name {
        Some(n) => {
            let t = trim_vec(&str_chars(n));
            if t.len() > 0 {
                Some(chars_string(t.as_slice()))
            } else {
                None
            }
        },
        None => None,
    };
    Some(
        SourceRecord {
            name: label,
            url: report.url.clone(),
            commit: Some(commit),
            imported_at: now,
            checked_at: None,
            last_update_count: 0,
            skills,
        },
    )
}

// ------------------------------------------------------------------ batches

/// One entry of a batch import: a repository label and URL.
#[derive(Debug, Clone)]
pub struct ImportItem {
    pub name: String,
    pub url: String,
}

/// The outcome of one batch entry.
#[derive(Debug, Clone)]
pub struct BatchItemResult {
    pub name: String,
    pub url: String,
    pub ok: bool,
    pub message: String,
    pub plans: Vec<SkillImportPlan>,
    pub commit: Option<String>,
}

/// The outcome of a batch import.
#[derive(Debug, Clone)]
pub struct BatchImportReport {
    /// Per-entry outcomes, in input order
    pub items: Vec<BatchItemResult>,
    pub applied: bool,
    pub ok_count: usize,
    pub failed_count: usize,
    pub message: String,
}

impl ImportItem {
    /// What to import for this entry: the trimmed URL and the label (absent when
    /// blank); `None` when the URL is empty, so the entry is skipped.
    pub fn target(&self) -> (r: Option<(String, Option<String>)>)
        ensures
            r is None <==> trim(self.url@).len() == 0,
            r matches Some(p) ==> p.0@ == trim(self.url@) && opt_view(p.1) == (if trim(self.name@).len() == 0 {
                None::<Seq<char>>
            } else {
                Some(self.name@)
            }),
    {
        let u = trim_vec(&str_chars(self.url.as_str()));
        if u.len() == 0 {
            return None;
        }
        let label = if trim_vec(&str_chars(self.name.as_str())).len() == 0 {
            None
        } else {
            Some(self.name.clone())
        };
        Some((chars_string(u.as_slice()), label))
    }
}

/// The result of one batch entry: `outcome` is `None` when the entry was
/// skipped for an empty URL, else what importing it gave.
pub fn batch_item(item: &ImportItem, outcome: Option<Result<ImportReport, ImportError>>) -> (r: BatchItemResult)
    ensures
        match outcome {
            None => r.name@ == item.name@ && r.url@ == item.url@ && !r.ok && r.message@ == "URL 为空，已跳过"@
                && r.plans@.len() == 0 && r.commit is None,
            Some(res) => {
                &&& r.url@ == trim(item.url@)
                &&& r.name@ == (if trim(item.name@).len() == 0 {
                    trim(item.url@)
                } else {
                    item.name@
                })
                &&& r.ok == res is Ok
                &&& match res {
                    Ok(rep) => r.message@ == rep.message@ && r.plans@ == rep.plans@ && opt_view(r.commit) == opt_view(
                        rep.commit,
                    ),
                    Err(e) => r.message@ == import_error_message(&e) && r.plans@.len() == 0 && r.commit is None,
                }
            },
        },
{
    let res = match outcome {
        None => {
            return BatchItemResult {
                name: item.name.clone(),
                url: item.url.clone(),
                ok: false,
                message: "URL 为空，已跳过".to_owned(),
                plans: Vec::new(),
                commit: None,
            };
        },
        Some(res) => res,
    };
    let u = chars_string(trim_vec(&str_chars(item.url.as_str())).as_slice());
    let name = if trim_vec(&str_chars(item.name.as_str())).len() == 0 {
        u.clone()
    } else {
        item.name.clone()
    };
    match res {
        Ok(report) => BatchItemResult {
            name,
            url: u,
            ok: true,
            message: report.message,
            plans: report.plans,
            commit: report.commit,
        },
        Err(error) => BatchItemResult {
            name,
            url: u,
            ok: false,
            message: error.message(),
            plans: Vec::new(),
            commit: None,
        },
    }
}

pub open spec fn count_ok(v: Seq<BatchItemResult>) -> nat
    decreases v.len(),
{
    if v.len() == 0 {
        0
    } else {
        count_ok(v.drop_last()) + (if v.last().ok {
            1nat
        } else {
            0nat
        })
    }
}

pub open spec fn batch_message(apply: bool, ok: nat, failed: nat) -> Seq<char> {
    (if apply {
        "批量导入完成：成功 "@
    } else {
        "批量预览完成：成功 "@
    }) + decimal(ok) + " 个，失败 "@ + decimal(failed) + " 个"@
}

/// The batch report: entry outcomes in input order, how many succeeded and failed.
pub fn batch_report(items: Vec<BatchItemResult>, apply: bool) -> (r: BatchImportReport)
    ensures
        r.items@ == items@,
        r.applied == apply,
        r.ok_count == count_ok(items@),
        r.ok_count + r.failed_count == items.len(),
        r.message@ == batch_message(apply, r.ok_count as nat, r.failed_count as nat),
{
    let mut ok: usize = 0;
    let mut i: usize = 0;
    while i < items.len()
        invariant
            i <= items.len(),
            ok == count_ok(items@.subrange(0, i as int)),
            ok <= i,
        decreases items.len() - i,
    {
        assert(items@.subrange(0, i + 1).drop_last() =~= items@.subrange(0, i as int));
        if items[i].ok {
            ok = ok + 1;
        }
        i = i + 1;
    }
    assert(items@.subrange(0, items.len() as int) =~= items@);
    let failed = items.len() - ok;
    let mut m = if apply {
        str_chars("批量导入完成：成功 ")
    } else {
        str_chars("批量预览完成：成功 ")
    };
    push_all(&mut m, &decimal_vec(ok));
    push_str(&mut m, " 个，失败 ");
    push_all(&mut m, &decimal_vec(failed));
    push_str(&mut m, " 个");
    BatchImportReport { items, applied: apply, ok_count: ok, failed_count: failed, message: chars_string(m.as_slice()) }
}

/// What a batch imports, entry by entry: the repository and label of each entry
/// (`ImportItem::target`), and nothing for an entry with a blank URL, so that no
/// repository is cloned for it. `batch_import` takes one outcome per entry of this
/// plan.
pub fn batch_targets(items: &Vec<ImportItem>) -> (r: Vec<Option<(String, Option<String>)>>)
    ensures
        r.len() == items.len(),
        forall|i: int|
            0 <= i < items.len() ==> ((#[trigger] r@[i]) is None <==> trim(items@[i].url@).len() == 0),
        forall|i: int|
            0 <= i < items.len() ==> (#[trigger] r@[i] matches Some(p) ==> p.0@ == trim(items@[i].url@)
                && opt_view(p.1) == (if trim(items@[i].name@).len() == 0 {
                None::<Seq<char>>
            } else {
                Some(items@[i].name@)
            })),
{
    let mut r: Vec<Option<(String, Option<String>)>> = Vec::new();
    let mut i: usize = 0;
    while i < items.len()
        invariant
            i <= items.len(),
            r.len() == i,
            forall|k: int|
                0 <= k < i ==> ((#[trigger] r@[k]) is None <==> trim(items@[k].url@).len() == 0),
            forall|k: int|
                0 <= k < i ==> (#[trigger] r@[k] matches Some(p) ==> p.0@ == trim(items@[k].url@)
                    && opt_view(p.1) == (if trim(items@[k].name@).len() == 0 {
                    None::<Seq<char>>
                } else {
                    Some(items@[k].name@)
                })),
        decreases items.len() - i,
    {
        let t = items[i].target();
        r.push(t);
        i = i + 1;
    }
    r
}

/// The outcome a batch entry takes: none for a blank URL (the entry is skipped and
/// nothing was tried), else what importing it gave.
pub open spec fn entry_ok(item: ImportItem, outcome: Option<Result<ImportReport, ImportError>>) -> bool {
    trim(item.url@).len() > 0 && (outcome matches Some(Ok(_)))
}

/// A batch import from what importing each entry gave (`outcomes[i]` for
/// `items[i]`; it is not read for an entry with a blank URL, which is skipped):
/// every entry is reported, in order, and one failure never stops the others.
pub fn batch_import(items: &Vec<ImportItem>, outcomes: Vec<Option<Result<ImportReport, ImportError>>>, apply: bool) -> (r:
    BatchImportReport)
    requires
        outcomes.len() == items.len(),
    ensures
        r.items.len() == items.len(),
        r.applied == apply,
        r.ok_count + r.failed_count == items.len(),
        forall|i: int|
            0 <= i < items.len() ==> (#[trigger] r.items@[i]).ok == entry_ok(items@[i], outcomes@[i]),
        forall|i: int|
            0 <= i < items.len() && trim(items@[i].url@).len() == 0 ==> (#[trigger] r.items@[i]).message@
                == "URL 为空，已跳过"@,
        forall|i: int|
            0 <= i < items.len() && trim(items@[i].url@).len() > 0 && outcomes@[i] is Some ==> (#[trigger] r.items@[i]).url@ == trim(
                items@[i].url@,
            ),
{
    let ghost outs = outcomes@;
    let mut rest = outcomes;
    let mut results: Vec<BatchItemResult> = Vec::new();
    let mut i: usize = 0;
    while i < items.len()
        invariant
            i <= items.len(),
            outs.len() == items.len(),
            results.len() == i,
            rest@ == outs.subrange(i as int, outs.len() as int),
            forall|k: int| 0 <= k < i ==> (#[trigger] results@[k]).ok == entry_ok(items@[k], outs[k]),
            forall|k: int|
                0 <= k < i && trim(items@[k].url@).len() == 0 ==> (#[trigger] results@[k]).message@
                    == "URL 为空，已跳过"@,
            forall|k: int|
                0 <= k < i && trim(items@[k].url@).len() > 0 && outs[k] is Some ==> (#[trigger] results@[k]).url@ == trim(
                    items@[k].url@,
                ),
        decreases items.len() - i,
    {
        let outcome = rest.remove(0);
        assert(outcome == outs[i as int]);
        let blank = items[i].target().is_none();
        let taken = if blank {
            None
        } else {
            outcome
        };
        let item_result = batch_item(&items[i], taken);
        results.push(item_result);
        assert(rest@ =~= outs.subrange(i + 1, outs.len() as int));
        i = i + 1;
    }
    batch_report(results, apply)
}

/// Every address that starts (once trimmed) with `http://`, `https://`, `git@`
/// (an SSH address such as `git@github.com:org/skills.git`), `ssh://`, `git://`,
/// `file://` or `/` passes the check before cloning, and is cloned as trimmed.
pub proof fn law_repo_schemes_accepted(url: Seq<char>, prefix: Seq<char>)
    requires
        prefix == "http://"@ || prefix == "https://"@ || prefix == "git@"@ || prefix == "ssh://"@ || prefix
            == "git://"@ || prefix == "file://"@ || prefix == "/"@,
        starts_with(trim(url), prefix),
    ensures
        repo_url_error(url) is None,
{
    reveal_strlit("http://");
    reveal_strlit("https://");
    reveal_strlit("git@");
    reveal_strlit("ssh://");
    reveal_strlit("git://");
    reveal_strlit("file://");
    reveal_strlit("/");
    assert(prefix.len() > 0);
    assert(trim(url).len() > 0);
}

/// Local repositories pass the check too: a UNC path (`\\server\share`) or a
/// drive path (`C:\repos\x`), once trimmed.
pub proof fn law_local_repo_paths_accepted(url: Seq<char>)
    requires
        starts_with(trim(url), "\\\\"@) || (trim(url).len() > 2 && trim(url)[1] == ':'),
    ensures
        repo_url_error(url) is None,
{
    reveal_strlit("\\\\");
    assert("\\\\"@.len() == 2);
}

} // verus!
