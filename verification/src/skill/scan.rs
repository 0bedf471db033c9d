//! Skill scanning rules: the managed user-level roots, tolerant reading of
//! frontmatter string fields, skill-name validation, the per-skill state and
//! the "same name, higher rank wins" marking.
use crate::skill::frontmatter::{disable_state, spec_disable_state, write_error_message, DisableState, WriteError};
use crate::text::{
    chars_string, copy_range, ends_with, ends_with_vec, eq_str, eq_vec, find_char, is_whitespace, is_ws, join, join_lines, lemma_seq_lt_order,
    lines_view, lowercase, lt_vec, opt_view, push_all, push_str, seq_lt, split_char, split_char_vec, str_chars,
    str_lowercase, strip_cr, strip_cr_vec, trim, trim_vec,
};
use vstd::prelude::*;

verus! {

/// Official rank of `<dshHome>/skills`.
pub const RANK_USER_DSH: u32 = 400;
/// Official rank of `<agentsHome>/skills`.
pub const RANK_USER_AGENTS: u32 = 500;
/// The trash directory name (never taken for a skill).
pub const TRASH_DIR: &'static str = ".trash";
/// The bundled-skills directory of `<dshHome>/skills` (never scanned there).
pub const SYSTEM_DIR: &'static str = ".system";

/// The state of a skill as the UI shows it.
#[derive(Debug, Clone, Copy, PartialEq, Eq, Structural)]
pub enum SkillState {
    /// No key (or `false`): model invocation allowed
    Enabled,
    /// `disable-model-invocation: true`
    Disabled,
    /// The key is repeated or not a bare boolean: read-only
    Conflict,
    /// No frontmatter, no closing line, no `name` / `description`, or unreadable: read-only
    Unreadable,
}

impl SkillState {
    /// Whether the skill may be toggled.
    pub fn writable(self) -> (b: bool)
        ensures
            b == (self == SkillState::Enabled || self == SkillState::Disabled),
    {
        match self {
            SkillState::Enabled | SkillState::Disabled => true,
            _ => false,
        }
    }
}

/// A managed skill root.
#[derive(Debug, Clone)]
pub struct SkillRoot {
    /// The root directory
    pub path: String,
    /// `user-dsh` / `user-agents`
    pub source: &'static str,
    /// Official rank
    pub rank: u32,
    /// Whether `.system` is skipped (rank 400)
    pub skip_system: bool,
}

/// The two managed user-level roots: `<dshHome>/skills` (rank 400, `.system`
/// skipped) and `<agentsHome>/skills` (rank 500).
pub fn managed_roots(dsh_home: &str, agents_home: &str) -> (roots: Vec<SkillRoot>)
    ensures
        roots.len() == 2,
        crate::dshhome::plain_base(dsh_home@) ==> crate::dshhome::is_join(roots@[0].path@, dsh_home@, "skills"@),
        roots@[0].source@ == "user-dsh"@,
        roots@[0].rank == RANK_USER_DSH,
        roots@[0].skip_system,
        crate::dshhome::plain_base(agents_home@) ==> crate::dshhome::is_join(roots@[1].path@, agents_home@, "skills"@),
        roots@[1].source@ == "user-agents"@,
        roots@[1].rank == RANK_USER_AGENTS,
        !roots@[1].skip_system,
{
    let mut roots: Vec<SkillRoot> = Vec::new();
    roots.push(
        SkillRoot {
            path: crate::dshhome::dsh_home_skills_dir(dsh_home),
            source: "user-dsh",
            rank: RANK_USER_DSH,
            skip_system: true,
        },
    );
    roots.push(
        SkillRoot {
            path: crate::dshhome::agents_skills_dir(agents_home),
            source: "user-agents",
            rank: RANK_USER_AGENTS,
            skip_system: false,
        },
    );
    roots
}

/// One skill as the UI lists it.
#[derive(Debug, Clone)]
pub struct SkillEntry {
    /// Path of the skill file: the identity key
    pub path: String,
    /// Frontmatter `name` (the directory / file name when it cannot be read)
    pub name: String,
    /// Frontmatter `description`
    pub description: String,
    /// Frontmatter `whenToUse`
    pub when_to_use: Option<String>,
    pub state: SkillState,
    /// Root identifier
    pub source: String,
    /// Official rank
    pub rank: u32,
    /// `<name>/SKILL.md` (true) or `<name>.md`
    pub bundled: bool,
    /// Why the skill is not usable
    pub reason: Option<String>,
    /// The name of the higher-rank skill that overrides this one
    pub overridden_by: Option<String>,
    /// Whether the skill directory is a symbolic link
    pub is_symlink: bool,
    /// Whether its root exists
    pub root_exists: bool,
}

/// Why a skill operation failed.
#[derive(Debug)]
pub enum SkillError {
    /// The path is not a managed skill (any more)
    NotManaged(String),
    /// Nothing to write
    Unchanged,
    /// The frontmatter is ambiguous
    Frontmatter(WriteError),
    /// Another I/O or internal failure
    Io(String),
}

pub open spec fn skill_error_message(e: &SkillError) -> Seq<char> {
    match e {
        SkillError::NotManaged(d) => "技能已变化，请刷新："@ + d@,
        SkillError::Unchanged => "无需变更"@,
        SkillError::Frontmatter(w) => write_error_message(*w),
        SkillError::Io(d) => d@,
    }
}

impl SkillError {
    /// The user-facing explanation.
    pub fn message(&self) -> (m: String)
        ensures
            m@ == skill_error_message(self),
    {
        match self {
            SkillError::NotManaged(detail) => {
                let mut v = str_chars("技能已变化，请刷新：");
                push_str(&mut v, detail.as_str());
                chars_string(v.as_slice())
            },
            SkillError::Unchanged => "无需变更".to_owned(),
            SkillError::Frontmatter(e) => e.message().to_owned(),
            SkillError::Io(detail) => detail.clone(),
        }
    }
}

// ------------------------------------------------------------------ fields

/// Lines split at `\n`, one trailing `\r` dropped from each, without the empty
/// piece a final `\n` leaves.
pub open spec fn scan_lines(t: Seq<char>) -> Seq<Seq<char>> {
    let parts = split_char(t, '\n');
    let stripped = Seq::new(parts.len(), |i: int| strip_cr(parts[i]));
    if t.len() > 0 && t.last() == '\n' {
        stripped.drop_last()
    } else {
        stripped
    }
}

/// The column-0 `key:` of a line and the raw rest after the colon.
pub open spec fn top_level_key(line: Seq<char>) -> Option<(Seq<char>, Seq<char>)> {
    if line.len() > 0 && (line[0] == ' ' || line[0] == '\t') {
        None
    } else {
        match find_char(line, ':') {
            None => None,
            Some(c) => {
                let key = line.subrange(0, c);
                if key.len() == 0 || exists|j: int| 0 <= j < key.len() && is_ws(#[trigger] key[j]) {
                    None
                } else {
                    Some((key, line.subrange(c + 1, line.len() as int)))
                }
            },
        }
    }
}

/// One pair of matching single or double quotes removed.
pub open spec fn strip_quotes(v: Seq<char>) -> Seq<char> {
    if v.len() >= 2 && ((v[0] == '"' && v.last() == '"') || (v[0] == '\'' && v.last() == '\'')) {
        v.subrange(1, v.len() - 1)
    } else {
        v
    }
}

/// The indented continuation lines of a block or multi-line scalar, trimmed
/// (empty lines skipped), up to the first column-0 line or the closing `---`.
pub open spec fn block_lines(ls: Seq<Seq<char>>, j: int) -> Seq<Seq<char>>
    decreases ls.len() - j,
{
    if j < 0 || j >= ls.len() || ls[j] == "---"@ {
        Seq::empty()
    } else if ls[j].len() == 0 {
        block_lines(ls, j + 1)
    } else if ls[j][0] == ' ' || ls[j][0] == '\t' {
        seq![trim(ls[j])] + block_lines(ls, j + 1)
    } else {
        Seq::empty()
    }
}

/// The value of a top-level string field, from frontmatter line `i` on.
pub open spec fn field_from(ls: Seq<Seq<char>>, key: Seq<char>, i: int) -> Option<Seq<char>>
    decreases ls.len() - i,
{
    if i < 0 || i >= ls.len() || ls[i] == "---"@ {
        None
    } else {
        match top_level_key(ls[i]) {
            Some(kv) => if kv.0 == key {
                let v = trim(kv.1);
                if v.len() == 0 || v[0] == '>' || v[0] == '|' {
                    let joined = join(block_lines(ls, i + 1), " "@);
                    if joined.len() == 0 {
                        None
                    } else {
                        Some(joined)
                    }
                } else {
                    Some(strip_quotes(v))
                }
            } else {
                field_from(ls, key, i + 1)
            },
            None => field_from(ls, key, i + 1),
        }
    }
}

/// A top-level string field of the frontmatter (tolerant reading): a plain or
/// quoted scalar, or a block / multi-line scalar joined with spaces.
pub open spec fn spec_read_field(text: Seq<char>, key: Seq<char>) -> Option<Seq<char>> {
    field_from(scan_lines(text), key, 1)
}

fn scan_lines_vec(t: &Vec<char>) -> (out: Vec<Vec<char>>)
    ensures
        lines_view(out@) == scan_lines(t@),
{
    let parts = split_char_vec(t, '\n');
    let ghost pv = lines_view(parts@);
    let mut out: Vec<Vec<char>> = Vec::new();
    let mut i: usize = 0;
    while i < parts.len()
        invariant
            i <= parts.len(),
            pv == lines_view(parts@),
            pv == split_char(t@, '\n'),
            lines_view(out@) == Seq::new(i as nat, |k: int| strip_cr(pv[k])),
        decreases parts.len() - i,
    {
        let cp = copy_range(&parts[i], 0, parts[i].len());
        assert(cp@ =~= parts@[i as int]@);
        let l = strip_cr_vec(cp);
        assert(pv[i as int] == parts@[i as int]@);
        let ghost prev = out@;
        out.push(l);
        proof {
            crate::text::lemma_lines_view_push(prev, l);
        }
        i = i + 1;
        assert(lines_view(out@) =~= Seq::new(i as nat, |k: int| strip_cr(pv[k])));
    }
    proof {
        crate::text::lemma_split_from_nonempty(t@, '\n', 0, 0);
    }
    if t.len() > 0 && t[t.len() - 1] == '\n' {
        let ghost prev = out@;
        out.pop();
        assert(lines_view(out@) =~= lines_view(prev).drop_last());
    }
    assert(lines_view(out@) =~= scan_lines(t@));
    out
}

fn top_level_key_vec(line: &Vec<char>) -> (r: Option<(Vec<char>, Vec<char>)>)
    ensures
        match top_level_key(line@) {
            Some(kv) => r matches Some(p) && p.0@ == kv.0 && p.1@ == kv.1,
            None => r is None,
        },
{
    if line.len() > 0 && (line[0] == ' ' || line[0] == '\t') {
        return None;
    }
    match crate::text::split_once_vec(line, ':') {
        None => None,
        Some((key, rest)) => {
            if key.len() == 0 || crate::skill::frontmatter::has_ws(&key) {
                None
            } else {
                Some((key, rest))
            }
        },
    }
}

fn strip_quotes_vec(v: &Vec<char>) -> (r: Vec<char>)
    ensures
        r@ == strip_quotes(v@),
{
    let n = v.len();
    if n >= 2 && ((v[0] == '"' && v[n - 1] == '"') || (v[0] == '\'' && v[n - 1] == '\'')) {
        copy_range(v, 1, n - 1)
    } else {
        copy_range(v, 0, n)
    }
}

fn block_lines_vec(ls: &Vec<Vec<char>>, start: usize) -> (r: Vec<Vec<char>>)
    requires
        start <= ls.len(),
    ensures
        lines_view(r@) == block_lines(lines_view(ls@), start as int),
{
    let ghost lv = lines_view(ls@);
    let mut r: Vec<Vec<char>> = Vec::new();
    let mut j: usize = start;
    while j < ls.len()
        invariant
            start <= j <= ls.len(),
            lv == lines_view(ls@),
            block_lines(lv, start as int) == lines_view(r@) + block_lines(lv, j as int),
        decreases ls.len() - j,
    {
        assert(lv[j as int] == ls@[j as int]@);
        let next = &ls[j];
        if eq_str(next, "---") {
            assert(lines_view(r@) + block_lines(lv, j as int) =~= lines_view(r@));
            return r;
        }
        if next.len() == 0 {
            j = j + 1;
        } else if next[0] == ' ' || next[0] == '\t' {
            let t = trim_vec(next);
            let ghost prev = r@;
            r.push(t);
            proof {
                crate::text::lemma_lines_view_push(prev, t);
            }
            assert(lines_view(r@) + block_lines(lv, j + 1) =~= lines_view(prev) + block_lines(lv, j as int));
            j = j + 1;
        } else {
            assert(lines_view(r@) + block_lines(lv, j as int) =~= lines_view(r@));
            return r;
        }
    }
    assert(lines_view(r@) + block_lines(lv, j as int) =~= lines_view(r@));
    r
}

fn read_field_vec(text: &Vec<char>, key: &Vec<char>) -> (r: Option<Vec<char>>)
    ensures
        crate::text::opt_vec_view(r) == spec_read_field(text@, key@),
{
    let ls = scan_lines_vec(text);
    let ghost lv = lines_view(ls@);
    let mut i: usize = 1;
    if ls.len() == 0 {
        return None;
    }
    while i < ls.len()
        invariant
            1 <= i <= ls.len(),
            lv == lines_view(ls@),
            lv == scan_lines(text@),
            spec_read_field(text@, key@) == field_from(lv, key@, i as int),
        decreases ls.len() - i,
    {
        assert(lv[i as int] == ls@[i as int]@);
        let line = &ls[i];
        if eq_str(line, "---") {
            return None;
        }
        match top_level_key_vec(line) {
            Some((k, raw)) => {
                if eq_vec(&k, key) {
                    let value = trim_vec(&raw);
                    if value.len() == 0 || value[0] == '>' || value[0] == '|' {
                        let collected = block_lines_vec(&ls, i + 1);
                        let joined = join_lines(&collected, &str_chars(" "));
                        if joined.len() == 0 {
                            return None;
                        }
                        return Some(joined);
                    }
                    return Some(strip_quotes_vec(&value));
                }
            },
            None => {},
        }
        i = i + 1;
    }
    None
}

/// Lines of a skill text (`\n`-separated, one trailing `\r` dropped per line,
/// no empty piece after a final `\n`).
pub fn split_lines(text: &str) -> (v: Vec<String>)
    ensures
        v@.map_values(|s: String| s@) == scan_lines(text@),
{
    let ls = scan_lines_vec(&str_chars(text));
    let mut out: Vec<String> = Vec::new();
    let mut i: usize = 0;
    while i < ls.len()
        invariant
            i <= ls.len(),
            out@.map_values(|s: String| s@) == lines_view(ls@).subrange(0, i as int),
        decreases ls.len() - i,
    {
        let ghost prev = out@;
        let one = chars_string(ls[i].as_slice());
        assert(lines_view(ls@)[i as int] == ls@[i as int]@);
        out.push(one);
        assert(out@.map_values(|s: String| s@) =~= prev.map_values(|s: String| s@).push(one@));
        assert(lines_view(ls@).subrange(0, i + 1) =~= lines_view(ls@).subrange(0, i as int).push(one@));
        i = i + 1;
    }
    assert(lines_view(ls@).subrange(0, ls.len() as int) =~= lines_view(ls@));
    out
}

/// A top-level string field of the frontmatter (tolerant reading).
pub fn read_string_field(text: &str, key: &str) -> (r: Option<String>)
    ensures
        opt_view(r) == spec_read_field(text@, key@),
{
    crate::text::opt_vec_string(read_field_vec(&str_chars(text), &str_chars(key)))
}

/// Reads a top-level string field of the frontmatter (tolerant; used to check
/// that `name` / `description` are still present).
pub fn resolve_managed_field(text: &str, key: &str) -> (r: Option<String>)
    ensures
        opt_view(r) == spec_read_field(text@, key@),
{
    crate::text::opt_vec_string(read_field_vec(&str_chars(text), &str_chars(key)))
}

pub open spec fn state_label(s: DisableState) -> Seq<char> {
    match s {
        DisableState::Unset => "unset"@,
        DisableState::Enabled => "enabled"@,
        DisableState::Disabled => "disabled"@,
        DisableState::Conflict => "conflict"@,
        DisableState::Unreadable => "unreadable"@,
    }
}

/// The frontmatter state as a short stable label.
pub fn frontmatter_state(text: &str) -> (s: &'static str)
    ensures
        s@ == state_label(spec_disable_state(text@)),
{
    match disable_state(text) {
        DisableState::Unset => "unset",
        DisableState::Enabled => "enabled",
        DisableState::Disabled => "disabled",
        DisableState::Conflict => "conflict",
        DisableState::Unreadable => "unreadable",
    }
}

// ------------------------------------------------------------------ names

pub open spec fn is_name_char(c: char) -> bool {
    ('a' <= c && c <= 'z') || ('0' <= c && c <= '9')
}

/// `^[a-z0-9]+(?:-[a-z0-9]+)*$`: lower-case letters and digits in groups joined by single dashes.
pub open spec fn spec_valid_skill_name(name: Seq<char>) -> bool {
    &&& name.len() > 0
    &&& forall|i: int| 0 <= i < name.len() ==> is_name_char(#[trigger] name[i]) || name[i] == '-'
    &&& name[0] != '-'
    &&& name.last() != '-'
    &&& forall|i: int| 0 <= i < name.len() - 1 ==> !(#[trigger] name[i] == '-' && name[i + 1] == '-')
}

/// Whether a skill name passes the official `isSkillName` (no length limit).
pub fn is_valid_skill_name(name: &str) -> (b: bool)
    ensures
        b == spec_valid_skill_name(name@),
{
    let v = str_chars(name);
    if v.len() == 0 {
        return false;
    }
    let mut prev_dash = true;
    let mut i: usize = 0;
    while i < v.len()
        invariant
            i <= v.len(),
            v@ == name@,
            v.len() > 0,
            forall|k: int| 0 <= k < i ==> is_name_char(#[trigger] v@[k]) || v@[k] == '-',
            i > 0 ==> v@[0] != '-',
            forall|k: int| 0 <= k < i - 1 ==> !(#[trigger] v@[k] == '-' && v@[k + 1] == '-'),
            prev_dash == (i == 0 || v@[i - 1] == '-'),
        decreases v.len() - i,
    {
        let c = v[i];
        if ('a' <= c && c <= 'z') || ('0' <= c && c <= '9') {
            prev_dash = false;
        } else if c == '-' {
            if prev_dash {
                assert(!spec_valid_skill_name(name@)) by {
                    if i > 0 {
                        assert(v@[i - 1] == '-' && v@[i as int] == '-');
                    }
                }
                return false;
            }
            prev_dash = true;
        } else {
            assert(!(is_name_char(v@[i as int]) || v@[i as int] == '-'));
            return false;
        }
        i = i + 1;
    }
    !prev_dash
}

// ------------------------------------------------------------------ entries

/// The state and reason of a skill read from its text (`None`: the file could not be read).
pub open spec fn spec_entry_state(text: Option<Seq<char>>) -> (SkillState, Option<Seq<char>>) {
    match text {
        None => (SkillState::Unreadable, Some("无法读取 SKILL.md"@)),
        Some(t) => if spec_read_field(t, "name"@) is None {
            (SkillState::Unreadable, Some("frontmatter 缺少必填字段 name"@))
        } else if spec_read_field(t, "description"@) is None {
            (SkillState::Unreadable, Some("frontmatter 缺少必填字段 description"@))
        } else {
            match spec_disable_state(t) {
                DisableState::Unset | DisableState::Enabled => (SkillState::Enabled, None),
                DisableState::Disabled => (SkillState::Disabled, None),
                DisableState::Conflict => (
                    SkillState::Conflict,
                    Some("disable-model-invocation 重复或值非规范 true/false"@),
                ),
                DisableState::Unreadable => (SkillState::Unreadable, Some("frontmatter 缺失或未闭合"@)),
            }
        },
    }
}

pub open spec fn opt_str_view(o: Option<&str>) -> Option<Seq<char>> {
    match o {
        Some(s) => Some(s@),
        None => None,
    }
}

/// One skill entry from its file text (`None` when the file could not be read):
/// `name` falls back to `display_name`, the state and reason follow the frontmatter.
pub fn parse_entry(
    text: Option<&str>,
    path: String,
    display_name: String,
    bundled: bool,
    root: &SkillRoot,
    is_symlink: bool,
) -> (e: SkillEntry)
    ensures
        e.path@ == path@,
        e.state == spec_entry_state(opt_str_view(text)).0,
        opt_view(e.reason) == spec_entry_state(opt_str_view(text)).1,
        e.name@ == (match text {
            Some(t) => match spec_read_field(t@, "name"@) {
                Some(n) => n,
                None => display_name@,
            },
            None => display_name@,
        }),
        e.description@ == (match text {
            Some(t) => match spec_read_field(t@, "description"@) {
                Some(d) => d,
                None => Seq::empty(),
            },
            None => Seq::empty(),
        }),
        opt_view(e.when_to_use) == (match text {
            Some(t) => spec_read_field(t@, "whenToUse"@),
            None => None,
        }),
        e.source@ == root.source@,
        e.rank == root.rank,
        e.bundled == bundled,
        e.overridden_by is None,
        e.is_symlink == is_symlink,
        e.root_exists,
{
    let t = match text {
        None => {
            return SkillEntry {
                path,
                name: display_name,
                description: String::new(),
                when_to_use: None,
                state: SkillState::Unreadable,
                source: root.source.to_owned(),
                rank: root.rank,
                bundled,
                reason: Some("无法读取 SKILL.md".to_owned()),
                overridden_by: None,
                is_symlink,
                root_exists: true,
            };
        },
        Some(t) => t,
    };
    let name = resolve_managed_field(t, "name");
    let description = resolve_managed_field(t, "description");
    let when_to_use = resolve_managed_field(t, "whenToUse");
    let (state, reason): (SkillState, Option<String>) = match (&name, &description) {
        (Some(_), Some(_)) => match disable_state(t) {
            DisableState::Unset | DisableState::Enabled => (SkillState::Enabled, None),
            DisableState::Disabled => (SkillState::Disabled, None),
            DisableState::Conflict => (
                SkillState::Conflict,
                Some("disable-model-invocation 重复或值非规范 true/false".to_owned()),
            ),
            DisableState::Unreadable => (SkillState::Unreadable, Some("frontmatter 缺失或未闭合".to_owned())),
        },
        (None, _) => (SkillState::Unreadable, Some("frontmatter 缺少必填字段 name".to_owned())),
        (_, None) => (SkillState::Unreadable, Some("frontmatter 缺少必填字段 description".to_owned())),
    };
    let name = match name {
        Some(n) => n,
        None => display_name,
    };
    let description = match description {
        Some(d) => d,
        None => String::new(),
    };
    SkillEntry {
        path,
        name,
        description,
        when_to_use,
        state,
        source: root.source.to_owned(),
        rank: root.rank,
        bundled,
        reason,
        overridden_by: None,
        is_symlink,
        root_exists: true,
    }
}

/// The state of each root as the list shows it.
#[derive(Debug, Clone)]
pub struct RootStatus {
    pub path: String,
    pub source: String,
    pub rank: u32,
    pub exists: bool,
    pub skill_count: usize,
}

/// The result of a scan.
#[derive(Debug, Clone)]
pub struct SkillList {
    /// Every managed skill (overridden ones too), rank descending then name
    pub skills: Vec<SkillEntry>,
    pub roots: Vec<RootStatus>,
    pub disabled_count: usize,
    pub conflict_count: usize,
    pub unreadable_count: usize,
    pub trash_count: usize,
    pub backup_root: String,
}

/// How an entry of a skill root is read.
#[derive(Debug, Clone, Copy, PartialEq, Eq, Structural)]
pub enum EntryLayout {
    /// Not a skill
    Skip,
    /// A directory (or a link to one): a skill when it holds `SKILL.md`
    Bundle,
    /// A flat `<name>.md` file
    Flat,
}

pub open spec fn spec_entry_layout(name: Seq<char>, skip_system: bool, dir_like: bool, is_file: bool) -> EntryLayout {
    if name == ".trash"@ || (skip_system && name == ".system"@) {
        EntryLayout::Skip
    } else if dir_like {
        EntryLayout::Bundle
    } else if is_file && ends_with(name, ".md"@) {
        EntryLayout::Flat
    } else {
        EntryLayout::Skip
    }
}

/// The layout of an entry of a root: the trash, and `.system` where the root
/// skips it, are never skills; a directory or link is a bundle; a file ending in
/// `.md` is a flat skill; anything else is skipped.
pub fn entry_layout(name: &str, skip_system: bool, dir_like: bool, is_file: bool) -> (l: EntryLayout)
    ensures
        l == spec_entry_layout(name@, skip_system, dir_like, is_file),
{
    let v = str_chars(name);
    if eq_str(&v, TRASH_DIR) || (skip_system && eq_str(&v, SYSTEM_DIR)) {
        EntryLayout::Skip
    } else if dir_like {
        EntryLayout::Bundle
    } else if is_file && ends_with_vec(&v, &str_chars(".md")) {
        EntryLayout::Flat
    } else {
        EntryLayout::Skip
    }
}

// ------------------------------------------------------------------ listing order

/// The listing order: higher rank first, then the lower-cased name, then the path.
pub open spec fn entry_before(a: SkillEntry, b: SkillEntry) -> bool {
    let la = str_lowercase(a.name@);
    let lb = str_lowercase(b.name@);
    a.rank > b.rank || (a.rank == b.rank && (seq_lt(la, lb) || (la == lb && seq_lt(a.path@, b.path@))))
}

/// Where `x` goes in a listing: before the first entry it comes before.
pub open spec fn entry_insert_pos(s: Seq<SkillEntry>, x: SkillEntry, j: int) -> int
    decreases s.len() - j,
{
    if j < 0 || j >= s.len() {
        s.len() as int
    } else if entry_before(x, s[j]) {
        j
    } else {
        entry_insert_pos(s, x, j + 1)
    }
}

/// Stable sort into the listing order (insertion of each entry, in turn).
pub open spec fn sort_entries(s: Seq<SkillEntry>) -> Seq<SkillEntry>
    decreases s.len(),
{
    if s.len() == 0 {
        Seq::empty()
    } else {
        let prev = sort_entries(s.drop_last());
        prev.insert(entry_insert_pos(prev, s.last(), 0), s.last())
    }
}

proof fn lemma_entry_insert_pos(s: Seq<SkillEntry>, x: SkillEntry, j: int)
    requires
        0 <= j <= s.len(),
    ensures
        j <= entry_insert_pos(s, x, j) <= s.len(),
        forall|q: int| j <= q < entry_insert_pos(s, x, j) ==> !entry_before(x, #[trigger] s[q]),
        entry_insert_pos(s, x, j) < s.len() ==> entry_before(x, s[entry_insert_pos(s, x, j)]),
    decreases s.len() - j,
{
    if j < s.len() && !entry_before(x, s[j]) {
        lemma_entry_insert_pos(s, x, j + 1);
    }
}

proof fn lemma_entry_before_order(a: SkillEntry, b: SkillEntry, c: SkillEntry)
    ensures
        !entry_before(a, a),
        entry_before(a, b) ==> !entry_before(b, a),
        entry_before(a, b) && entry_before(b, c) ==> entry_before(a, c),
{
    let (la, lb, lc) = (str_lowercase(a.name@), str_lowercase(b.name@), str_lowercase(c.name@));
    lemma_seq_lt_order(la, lb, lc);
    lemma_seq_lt_order(a.path@, b.path@, c.path@);
}

/// What the listing order promises: every entry is kept (the same multiset),
/// and no entry comes before one listed ahead of it: ranks descend, and within
/// a rank lower-cased names ascend, then paths.
pub proof fn law_listing_order(s: Seq<SkillEntry>)
    ensures
        sort_entries(s).to_multiset() == s.to_multiset(),
        forall|i: int, j: int|
            0 <= i < j < sort_entries(s).len() ==> !entry_before(
                #[trigger] sort_entries(s)[j],
                #[trigger] sort_entries(s)[i],
            ),
    decreases s.len(),
{
    broadcast use vstd::seq_lib::group_to_multiset_ensures;

    if s.len() == 0 {
        assert(s =~= Seq::<SkillEntry>::empty());
    } else {
        let prev = sort_entries(s.drop_last());
        let x = s.last();
        law_listing_order(s.drop_last());
        lemma_entry_insert_pos(prev, x, 0);
        let p = entry_insert_pos(prev, x, 0);
        let t = prev.insert(p, x);
        assert(t == sort_entries(s));
        assert(t.remove(p) =~= prev);
        assert(t[p] == x);
        assert(t.to_multiset() =~= prev.to_multiset().insert(x)) by {
            assert(t.remove(p).to_multiset() == t.to_multiset().remove(t[p]));
            assert(t.contains(x));
        }
        assert(s.drop_last().push(x) =~= s);
        assert forall|i: int, j: int| 0 <= i < j < t.len() implies !entry_before(#[trigger] t[j], #[trigger] t[i]) by {
            if j < p {
                assert(t[i] == prev[i] && t[j] == prev[j]);
            } else if j == p {
                assert(t[i] == prev[i]);
            } else if i == p {
                assert(t[j] == prev[j - 1]);
                if j - 1 == p {
                    lemma_entry_before_order(x, prev[p], x);
                } else {
                    assert(!entry_before(prev[j - 1], prev[p]));
                    lemma_entry_before_order(prev[j - 1], x, prev[p]);
                    lemma_entry_before_order(x, prev[p], prev[j - 1]);
                }
            } else if i < p {
                assert(t[i] == prev[i] && t[j] == prev[j - 1]);
            } else {
                assert(t[i] == prev[i - 1] && t[j] == prev[j - 1]);
            }
        }
    }
}

/// Same name, higher rank wins: in the listing, the first entry of a name (the
/// one `mark_overrides` leaves unmarked) has the highest rank among the entries
/// of that name.
pub proof fn law_first_of_name_has_highest_rank(s: Seq<SkillEntry>)
    ensures
        forall|k: int, j: int|
            0 <= k < sort_entries(s).len() && 0 <= j < sort_entries(s).len() && !earlier_same_name(
                entry_names(sort_entries(s)),
                k,
            ) && (#[trigger] sort_entries(s)[j]).name@ == (#[trigger] sort_entries(s)[k]).name@ ==> sort_entries(
                s,
            )[j].rank <= sort_entries(s)[k].rank,
{
    let t = sort_entries(s);
    law_listing_order(s);
    assert forall|k: int, j: int|
        0 <= k < t.len() && 0 <= j < t.len() && !earlier_same_name(entry_names(t), k) && (#[trigger] t[j]).name@
            == (#[trigger] t[k]).name@ implies t[j].rank <= t[k].rank by {
        if j < k {
            assert(entry_names(t)[j] == entry_names(t)[k]);
        } else if j > k {
            assert(!entry_before(t[j], t[k]));
        }
    }
}

fn entry_before_exec(a: &SkillEntry, la: &Vec<char>, b: &SkillEntry, lb: &Vec<char>) -> (r: bool)
    requires
        la@ == str_lowercase(a.name@),
        lb@ == str_lowercase(b.name@),
    ensures
        r == entry_before(*a, *b),
{
    if a.rank != b.rank {
        return a.rank > b.rank;
    }
    if lt_vec(la, lb) {
        return true;
    }
    if !eq_vec(la, lb) {
        return false;
    }
    lt_vec(&str_chars(a.path.as_str()), &str_chars(b.path.as_str()))
}

/// Sorts skills into the listing order (stable): higher rank first, then the
/// lower-cased name, then the path.
pub fn sort_skills(skills: Vec<SkillEntry>) -> (out: Vec<SkillEntry>)
    ensures
        out@ == sort_entries(skills@),
{
    let ghost orig = skills@;
    let n = skills.len();
    let mut rest = skills;
    let mut out: Vec<SkillEntry> = Vec::new();
    let mut lows: Vec<Vec<char>> = Vec::new();
    assert(orig.subrange(0, 0) =~= Seq::<SkillEntry>::empty());
    while rest.len() > 0
        invariant
            out.len() + rest.len() == n,
            n == orig.len(),
            rest@ == orig.subrange(out.len() as int, n as int),
            out@ == sort_entries(orig.subrange(0, out.len() as int)),
            lows.len() == out.len(),
            forall|k: int| 0 <= k < out.len() ==> (#[trigger] lows@[k])@ == str_lowercase(out@[k].name@),
        decreases rest.len(),
    {
        let ghost i = out.len() as int;
        let ghost prev = out@;
        let e = rest.remove(0);
        assert(e == orig[i]);
        let le = str_chars(lowercase(e.name.as_str()).as_str());
        let mut p: usize = 0;
        while p < out.len() && !entry_before_exec(&e, &le, &out[p], &lows[p])
            invariant
                p <= out.len(),
                out@ == prev,
                lows.len() == out.len(),
                forall|k: int| 0 <= k < out.len() ==> (#[trigger] lows@[k])@ == str_lowercase(out@[k].name@),
                le@ == str_lowercase(e.name@),
                entry_insert_pos(prev, e, 0) == entry_insert_pos(prev, e, p as int),
            decreases out.len() - p,
        {
            p = p + 1;
        }
        proof {
            lemma_entry_insert_pos(prev, e, 0);
        }
        assert(p == entry_insert_pos(prev, e, 0));
        let ghost sub = orig.subrange(0, i + 1);
        assert(sub.drop_last() =~= orig.subrange(0, i));
        assert(sub.last() == e);
        let ghost lows_prev = lows@;
        out.insert(p, e);
        lows.insert(p, le);
        assert forall|k: int| 0 <= k < out.len() implies (#[trigger] lows@[k])@ == str_lowercase(out@[k].name@) by {
            if k < p {
                assert(lows@[k] == lows_prev[k]);
            } else if k > p {
                assert(lows@[k] == lows_prev[k - 1]);
            }
        }
        assert(rest@ =~= orig.subrange(i + 1, n as int));
    }
    assert(orig.subrange(0, n as int) =~= orig);
    out
}

pub open spec fn entry_names(v: Seq<SkillEntry>) -> Seq<Seq<char>> {
    v.map_values(|e: SkillEntry| e.name@)
}

/// Some entry before `k` carries the name of entry `k`.
pub open spec fn earlier_same_name(names: Seq<Seq<char>>, k: int) -> bool {
    exists|j: int| 0 <= j < k && names[j] == names[k]
}

/// Marks overridden skills in a list sorted by rank (highest first): the first
/// entry of each name wins, every later entry of that name gets `overridden_by`.
pub fn mark_overrides(skills: Vec<SkillEntry>) -> (out: Vec<SkillEntry>)
    ensures
        out.len() == skills.len(),
        forall|k: int|
            0 <= k < out.len() ==> {
                &&& (#[trigger] out@[k]).name == skills@[k].name
                &&& out@[k].path == skills@[k].path
                &&& out@[k].state == skills@[k].state
                &&& out@[k].rank == skills@[k].rank
                &&& opt_view(out@[k].overridden_by) == (if earlier_same_name(entry_names(skills@), k) {
                    Some(skills@[k].name@)
                } else {
                    opt_view(skills@[k].overridden_by)
                })
            },
{
    let ghost orig = skills@;
    let ghost names = entry_names(skills@);
    let n = skills.len();
    let mut rest = skills;
    let mut out: Vec<SkillEntry> = Vec::new();
    let mut seen: Vec<Vec<char>> = Vec::new();
    while rest.len() > 0
        invariant
            out.len() + rest.len() == n,
            n == orig.len(),
            names == entry_names(orig),
            rest@ == orig.subrange(out.len() as int, n as int),
            lines_view(seen@) == names.subrange(0, out.len() as int),
            forall|k: int|
                0 <= k < out.len() ==> {
                    &&& (#[trigger] out@[k]).name == orig[k].name
                    &&& out@[k].path == orig[k].path
                    &&& out@[k].state == orig[k].state
                    &&& out@[k].rank == orig[k].rank
                    &&& opt_view(out@[k].overridden_by) == (if earlier_same_name(names, k) {
                        Some(orig[k].name@)
                    } else {
                        opt_view(orig[k].overridden_by)
                    })
                },
        decreases rest.len(),
    {
        let ghost i = out.len() as int;
        assert(names.len() == n);
        let mut e = rest.remove(0);
        assert(e == orig[i]);
        let name = str_chars(e.name.as_str());
        assert(names[i] == name@);
        assert(lines_view(seen@).len() == seen@.len());
        assert(seen.len() == i);
        let mut found = false;
        let mut j: usize = 0;
        while j < seen.len()
            invariant
                j <= seen.len(),
                lines_view(seen@) == names.subrange(0, i),
                seen.len() == i,
                0 <= i < names.len(),
                names[i] == name@,
                found ==> earlier_same_name(names, i),
                !found ==> forall|q: int| 0 <= q < j ==> names[q] != names[i],
            decreases seen.len() - j,
        {
            assert(lines_view(seen@)[j as int] == seen@[j as int]@);
            assert(names.subrange(0, i)[j as int] == names[j as int]);
            if eq_vec(&seen[j], &name) {
                assert(names[j as int] == names[i]);
                found = true;
            }
            j = j + 1;
        }
        if found {
            e.overridden_by = Some(e.name.clone());
        } else {
            assert(!earlier_same_name(names, i));
        }
        let ghost prev_seen = seen@;
        seen.push(name);
        proof {
            crate::text::lemma_lines_view_push(prev_seen, name);
        }
        assert(lines_view(seen@) =~= names.subrange(0, i + 1));
        out.push(e);
    }
    out
}

pub open spec fn count_state(v: Seq<SkillEntry>, st: SkillState) -> nat
    decreases v.len(),
{
    if v.len() == 0 {
        0
    } else {
        count_state(v.drop_last(), st) + (if v.last().state == st {
            1nat
        } else {
            0nat
        })
    }
}

/// How many skills are in state `st`.
pub fn count_in_state(skills: &Vec<SkillEntry>, st: SkillState) -> (n: usize)
    ensures
        n == count_state(skills@, st),
{
    let mut n: usize = 0;
    let mut i: usize = 0;
    while i < skills.len()
        invariant
            i <= skills.len(),
            n == count_state(skills@.subrange(0, i as int), st),
            n <= i,
        decreases skills.len() - i,
    {
        assert(skills@.subrange(0, i + 1).drop_last() =~= skills@.subrange(0, i as int));
        if skills[i].state == st {
            n = n + 1;
        }
        i = i + 1;
    }
    assert(skills@.subrange(0, skills.len() as int) =~= skills@);
    n
}

/// A frontmatter line `key: 'text'` or `key: "text"` gives the field `key` the
/// text between the quotes, whatever that text is: one pair of matching single or
/// double quotes is never part of the value.
pub proof fn law_quoted_field_reads_inner(ls: Seq<Seq<char>>, key: Seq<char>, i: int, q: char, inner: Seq<char>)
    requires
        0 <= i < ls.len(),
        q == '\'' || q == '"',
        key.len() > 0,
        forall|j: int| 0 <= j < key.len() ==> !is_ws(#[trigger] key[j]) && key[j] != ':',
        ls[i] == key + seq![':', ' ', q] + inner + seq![q],
    ensures
        field_from(ls, key, i) == Some(inner),
{
    let line = ls[i];
    let n = key.len() as int;
    assert(line[0] == key[0]);
    assert((' ' as u32) == 32);
    assert(('\t' as u32) == 9);
    assert(line[0] != ' ' && line[0] != '\t');
    reveal_strlit("---");
    assert(line.len() != 3);
    assert(line != "---"@);
    let colon = seq![':'];
    crate::text::lemma_find_from_props(line, colon, 0);
    assert(line.subrange(n, n + 1) =~= colon);
    assert(crate::text::occurs_at(line, colon, n));
    assert forall|m: int| 0 <= m < n implies !crate::text::occurs_at(line, colon, m) by {
        assert(line.subrange(m, m + 1)[0] == key[m]);
    }
    assert(find_char(line, ':') == Some(n));
    assert(line.subrange(0, n) =~= key);
    let rest = line.subrange(n + 1, line.len() as int);
    let t = seq![q] + inner + seq![q];
    assert(rest =~= seq![' '] + t);
    assert(top_level_key(line) == Some((key, rest)));
    assert(('\'' as u32) == 39);
    assert(('"' as u32) == 34);
    assert(!is_ws(q));
    assert(crate::text::ws_end_from(rest, 1) == 1);
    assert(crate::text::ws_end_from(rest, 0) == 1);
    assert(crate::text::trim_start(rest) =~= t);
    assert(t.last() == q);
    assert(crate::text::ws_start_back(t, t.len() as int) == t.len());
    assert(crate::text::trim_end(t) =~= t);
    assert(trim(rest) == t);
    assert(t[0] == q);
    assert(strip_quotes(t) =~= inner);
}

/// Read from a text: a first frontmatter line `key: 'text'` (or with double
/// quotes) makes `read_string_field(text, key)` the text between the quotes.
pub proof fn law_quoted_first_field(text: Seq<char>, key: Seq<char>, q: char, inner: Seq<char>)
    requires
        scan_lines(text).len() > 1,
        q == '\'' || q == '"',
        key.len() > 0,
        forall|j: int| 0 <= j < key.len() ==> !is_ws(#[trigger] key[j]) && key[j] != ':',
        scan_lines(text)[1] == key + seq![':', ' ', q] + inner + seq![q],
    ensures
        spec_read_field(text, key) == Some(inner),
{
    law_quoted_field_reads_inner(scan_lines(text), key, 1, q, inner);
}

} // verus!
