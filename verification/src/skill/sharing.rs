//! Sharing skills and instructions between `~/.dsh` and the agents home.
//!
//! Two modes: links from `~/.dsh/{skills,AGENTS.md,CONTEXT.md}` to the shared
//! source ("link"), or the `shared` managed block of `$DSH_HOME/cordis.patch.yml`
//! pointing dsh at the shared source ("config"). User content is never deleted:
//! a real file or directory where a link belongs is a conflict. This module
//! holds the decisions; probing and changing the file system is the caller's part.
use crate::dshhome::is_join;
use crate::plugin::dump::{index_map, DumpIndex};
pub use crate::plugin::managed::yaml_quote;
use crate::plugin::managed::yaml_quoted;
use crate::plugin::state::{PluginError, PluginErrorKind};
use crate::text::{
    chars_string, debug_quoted, decimal, decimal_vec, eq_str, eq_vec, push_str, str_chars, str_debug, trim, trim_vec,
};
use vstd::prelude::*;

verus! {

/// A shared resource.
#[derive(Debug, Clone, Copy, PartialEq, Eq, Structural)]
pub enum ShareResource {
    /// `<root>/skills`
    Skills,
    /// `<root>/AGENTS.md`
    AgentsMd,
    /// `<root>/CONTEXT.md`
    ContextMd,
}

pub open spec fn resource_key(r: ShareResource) -> Seq<char> {
    match r {
        ShareResource::Skills => "skills"@,
        ShareResource::AgentsMd => "agents-md"@,
        ShareResource::ContextMd => "context-md"@,
    }
}

pub open spec fn resource_file_name(r: ShareResource) -> Seq<char> {
    match r {
        ShareResource::Skills => "skills"@,
        ShareResource::AgentsMd => "AGENTS.md"@,
        ShareResource::ContextMd => "CONTEXT.md"@,
    }
}

pub open spec fn spec_from_key(key: Seq<char>) -> Option<ShareResource> {
    if key == "skills"@ {
        Some(ShareResource::Skills)
    } else if key == "agents-md"@ {
        Some(ShareResource::AgentsMd)
    } else if key == "context-md"@ {
        Some(ShareResource::ContextMd)
    } else {
        None
    }
}

impl ShareResource {
    /// The key the CLI and IPC use.
    pub fn key(&self) -> (s: &'static str)
        ensures
            s@ == resource_key(*self),
    {
        match self {
            ShareResource::Skills => "skills",
            ShareResource::AgentsMd => "agents-md",
            ShareResource::ContextMd => "context-md",
        }
    }

    /// The directory or file name.
    pub fn file_name(&self) -> (s: &'static str)
        ensures
            s@ == resource_file_name(*self),
    {
        match self {
            ShareResource::Skills => "skills",
            ShareResource::AgentsMd => "AGENTS.md",
            ShareResource::ContextMd => "CONTEXT.md",
        }
    }

    /// Whether the resource is a directory.
    pub fn is_dir(&self) -> (b: bool)
        ensures
            b == (*self == ShareResource::Skills),
    {
        match self {
            ShareResource::Skills => true,
            _ => false,
        }
    }

    /// The resource with a key.
    pub fn from_key(key: &str) -> (r: Option<ShareResource>)
        ensures
            r == spec_from_key(key@),
    {
        let k = str_chars(key);
        if eq_str(&k, "skills") {
            Some(ShareResource::Skills)
        } else if eq_str(&k, "agents-md") {
            Some(ShareResource::AgentsMd)
        } else if eq_str(&k, "context-md") {
            Some(ShareResource::ContextMd)
        } else {
            None
        }
    }
}

/// Every resource, in the order skills, AGENTS.md, CONTEXT.md.
pub fn all_resources() -> (v: Vec<ShareResource>)
    ensures
        v@ == seq![ShareResource::Skills, ShareResource::AgentsMd, ShareResource::ContextMd],
{
    let mut v: Vec<ShareResource> = Vec::new();
    v.push(ShareResource::Skills);
    v.push(ShareResource::AgentsMd);
    v.push(ShareResource::ContextMd);
    assert(v@ =~= seq![ShareResource::Skills, ShareResource::AgentsMd, ShareResource::ContextMd]);
    v
}

/// A resource's key gives the resource back.
pub proof fn law_resource_key_roundtrip(r: ShareResource)
    ensures
        spec_from_key(resource_key(r)) == Some(r),
{
    reveal_strlit("skills");
    reveal_strlit("agents-md");
    reveal_strlit("context-md");
    assert("skills"@.len() != "agents-md"@.len());
    assert("skills"@.len() != "context-md"@.len());
    assert("agents-md"@[0] != "context-md"@[0]);
}

/// The state of a resource on the `~/.dsh` side.
#[derive(Debug, Clone, Copy, PartialEq, Eq, Structural)]
pub enum ResourceState {
    /// Absent
    Missing,
    /// Linked to the shared source
    Linked,
    /// Provided through the home patch configuration
    Config,
    /// A real file or directory (to be migrated, never deleted)
    Conflict,
    /// A link elsewhere, or a broken one
    Broken,
}

pub open spec fn state_word(s: ResourceState) -> Seq<char> {
    match s {
        ResourceState::Missing => "missing"@,
        ResourceState::Linked => "linked"@,
        ResourceState::Config => "config"@,
        ResourceState::Conflict => "conflict"@,
        ResourceState::Broken => "broken"@,
    }
}

impl ResourceState {
    /// The state's name in lower case, as the text output prints it.
    pub fn word(&self) -> (w: &'static str)
        ensures
            w@ == state_word(*self),
    {
        match self {
            ResourceState::Missing => "missing",
            ResourceState::Linked => "linked",
            ResourceState::Config => "config",
            ResourceState::Conflict => "conflict",
            ResourceState::Broken => "broken",
        }
    }
}

/// The state of one resource.
#[derive(Debug, Clone)]
pub struct ResourceStatus {
    pub resource: String,
    pub canonical: String,
    pub view: String,
    pub state: ResourceState,
    pub detail: String,
}

/// The whole sharing state.
#[derive(Debug, Clone)]
pub struct SkillStatus {
    pub canonical_root: String,
    pub dsh_home: String,
    pub agents_home: String,
    pub link_capable: bool,
    /// `link` / `config` / `mixed` / `none`
    pub active_mode: String,
    /// `auto` / `link` / `config`
    pub preferred_mode: String,
    pub resources: Vec<ResourceStatus>,
    pub skill_count: usize,
}

/// The result of applying a mode.
#[derive(Debug, Clone)]
pub struct SkillApplyReport {
    pub mode: String,
    pub changed: bool,
    pub message: String,
    pub resources: Vec<ResourceStatus>,
}

/// One migration step.
#[derive(Debug, Clone)]
pub struct MigrateAction {
    pub resource: String,
    pub action: String,
    pub detail: String,
}

/// The migration report.
#[derive(Debug, Clone)]
pub struct MigrateReport {
    pub dry_run: bool,
    pub actions: Vec<MigrateAction>,
}

/// The user's sharing preferences.
#[derive(Debug, Clone)]
pub struct SkillSettings {
    pub schema_version: u32,
    /// `auto` / `link` / `config`
    pub preferred_mode: Option<String>,
    pub last_applied: Option<String>,
}

impl Default for SkillSettings {
    fn default() -> (s: SkillSettings)
        ensures
            s.schema_version == 1,
            s.preferred_mode is None,
            s.last_applied is None,
    {
        SkillSettings { schema_version: 1, preferred_mode: None, last_applied: None }
    }
}

/// The `~/.dsh` side of a resource.
pub fn view_path(dsh_home: &str, resource: ShareResource) -> (p: String)
    ensures
        crate::dshhome::plain_base(dsh_home@) ==> is_join(p@, dsh_home@, resource_file_name(resource)),
{
    proof {
        reveal_strlit("skills");
        reveal_strlit("AGENTS.md");
        reveal_strlit("CONTEXT.md");
    }
    crate::dshhome::path_join(dsh_home, resource.file_name())
}

/// The shared source of a resource, under the agents home.
pub fn canonical_path(agents_home: &str, resource: ShareResource) -> (p: String)
    ensures
        crate::dshhome::plain_base(agents_home@) ==> is_join(p@, agents_home@, resource_file_name(resource)),
{
    proof {
        reveal_strlit("skills");
        reveal_strlit("AGENTS.md");
        reveal_strlit("CONTEXT.md");
    }
    crate::dshhome::path_join(agents_home, resource.file_name())
}

/// The body of the `shared` block: both rows pointed at the shared source.
pub open spec fn spec_shared_config_body(canonical: Seq<char>) -> Seq<char> {
    "- id: skill-filesystem\n  config:\n    agentsHome: "@ + yaml_quoted(canonical)
        + "\n- id: agent-instructions\n  config:\n    dshHome: "@ + yaml_quoted(canonical) + "\n    maxBytes: 65536\n"@
}

/// The body of the `shared` managed block for a shared source directory.
pub fn shared_config_body(canonical: &str) -> (b: String)
    ensures
        b@ == spec_shared_config_body(canonical@),
{
    let q = yaml_quote(canonical);
    let mut v = str_chars("- id: skill-filesystem\n  config:\n    agentsHome: ");
    push_str(&mut v, q.as_str());
    push_str(&mut v, "\n- id: agent-instructions\n  config:\n    dshHome: ");
    push_str(&mut v, q.as_str());
    push_str(&mut v, "\n    maxBytes: 65536\n");
    chars_string(v.as_slice())
}

pub open spec fn count_linked(v: Seq<ResourceStatus>) -> nat
    decreases v.len(),
{
    if v.len() == 0 {
        0
    } else {
        count_linked(v.drop_last()) + (if v.last().state == ResourceState::Linked {
            1nat
        } else {
            0nat
        })
    }
}

/// The mode in effect: all linked is `link`; some linked plus a non-blank
/// `shared` block is `mixed`; the block alone is `config`; some links alone
/// `link`; otherwise `none`.
pub open spec fn spec_active_mode(linked: nat, total: nat, block: bool) -> Seq<char> {
    if linked == total {
        "link"@
    } else if linked > 0 && block {
        "mixed"@
    } else if block {
        "config"@
    } else if linked > 0 {
        "link"@
    } else {
        "none"@
    }
}

pub open spec fn block_present(shared_body: Option<&str>) -> bool {
    match shared_body {
        Some(b) => trim(b@).len() > 0,
        None => false,
    }
}

/// The active mode from the state of every resource and the `shared` block body.
pub fn active_mode(resources: &Vec<ResourceStatus>, shared_body: Option<&str>) -> (m: String)
    ensures
        m@ == spec_active_mode(count_linked(resources@), resources.len() as nat, block_present(shared_body)),
{
    let mut linked: usize = 0;
    let mut i: usize = 0;
    while i < resources.len()
        invariant
            i <= resources.len(),
            linked == count_linked(resources@.subrange(0, i as int)),
            linked <= i,
        decreases resources.len() - i,
    {
        assert(resources@.subrange(0, i + 1).drop_last() =~= resources@.subrange(0, i as int));
        if resources[i].state == ResourceState::Linked {
            linked = linked + 1;
        }
        i = i + 1;
    }
    assert(resources@.subrange(0, resources.len() as int) =~= resources@);
    let block = match shared_body {
        Some(b) => trim_vec(&str_chars(b)).len() > 0,
        None => false,
    };
    let s = if linked == resources.len() {
        "link"
    } else if linked > 0 && block {
        "mixed"
    } else if block {
        "config"
    } else if linked > 0 {
        "link"
    } else {
        "none"
    };
    s.to_owned()
}

pub open spec fn unknown_resource_message(key: Seq<char>) -> Seq<char> {
    "未知的共享资源: "@ + key + "（可选 skills/agents-md/context-md）"@
}

/// The resources an `apply` works on: the one named by `resource`, or all of them.
/// An unknown key is `NotFound`.
pub fn select_resources(resource: Option<&str>) -> (r: Result<Vec<ShareResource>, PluginError>)
    ensures
        match resource {
            None => r matches Ok(v) && v@ == seq![ShareResource::Skills, ShareResource::AgentsMd, ShareResource::ContextMd],
            Some(k) => match spec_from_key(k@) {
                Some(x) => r matches Ok(v) && v@ == seq![x],
                None => r matches Err(e) && e.kind == PluginErrorKind::NotFound && e.message@ == unknown_resource_message(k@),
            },
        },
{
    match resource {
        None => Ok(all_resources()),
        Some(key) => match ShareResource::from_key(key) {
            Some(x) => {
                let mut v: Vec<ShareResource> = Vec::new();
                v.push(x);
                assert(v@ =~= seq![x]);
                Ok(v)
            },
            None => {
                let mut m = str_chars("未知的共享资源: ");
                push_str(&mut m, key);
                push_str(&mut m, "（可选 skills/agents-md/context-md）");
                Err(PluginError::not_found(chars_string(m.as_slice())))
            },
        },
    }
}

/// The mode `apply` uses: `auto` is `link` when links can be made, else `config`;
/// `link` and `config` stand; anything else is an `IllegalTransition`.
pub open spec fn spec_effective_mode(mode: Seq<char>, link_capable: bool) -> Result<Seq<char>, Seq<char>> {
    if mode == "auto"@ {
        Ok(if link_capable {
            "link"@
        } else {
            "config"@
        })
    } else if mode == "link"@ || mode == "config"@ {
        Ok(mode)
    } else {
        Err("未知共享模式 "@ + str_debug(mode) + "（可选 auto/link/config）"@)
    }
}

pub fn effective_mode(mode: &str, link_capable: bool) -> (r: Result<String, PluginError>)
    ensures
        match spec_effective_mode(mode@, link_capable) {
            Ok(m) => r matches Ok(s) && s@ == m,
            Err(msg) => r matches Err(e) && e.kind == PluginErrorKind::IllegalTransition && e.message@ == msg,
        },
{
    let m = str_chars(mode);
    if eq_str(&m, "auto") {
        if link_capable {
            Ok("link".to_owned())
        } else {
            Ok("config".to_owned())
        }
    } else if eq_str(&m, "link") || eq_str(&m, "config") {
        Ok(mode.to_owned())
    } else {
        let mut e = str_chars("未知共享模式 ");
        push_str(&mut e, debug_quoted(mode).as_str());
        push_str(&mut e, "（可选 auto/link/config）");
        Err(PluginError::illegal(chars_string(e.as_slice())))
    }
}

/// The error for a real file or directory where a link belongs.
pub fn conflict_error(view: &str) -> (e: PluginError)
    ensures
        e.kind == PluginErrorKind::CapabilityMissing,
        e.message@ == view@ + " 是真实文件/目录，不能直接替换；请先执行 skill migrate 合并到共享真源"@,
{
    let mut m = str_chars(view);
    push_str(&mut m, " 是真实文件/目录，不能直接替换；请先执行 skill migrate 合并到共享真源");
    PluginError::new(PluginErrorKind::CapabilityMissing, chars_string(m.as_slice()))
}

/// In config mode a resource missing on the `~/.dsh` side is provided by the `shared` block.
pub fn config_status(status: ResourceStatus) -> (s: ResourceStatus)
    ensures
        status.state == ResourceState::Missing ==> s.state == ResourceState::Config
            && s.detail@ == "由 $DSH_HOME/cordis.patch.yml 的 shared 区块提供（无链接）"@,
        status.state != ResourceState::Missing ==> s.state == status.state && s.detail@ == status.detail@,
        s.resource@ == status.resource@,
        s.view@ == status.view@,
        s.canonical@ == status.canonical@,
{
    let mut s = status;
    if s.state == ResourceState::Missing {
        s.state = ResourceState::Config;
        s.detail = "由 $DSH_HOME/cordis.patch.yml 的 shared 区块提供（无链接）".to_owned();
    }
    s
}

/// The closing message of `apply`.
pub fn apply_message(changed: bool, effective: &str) -> (m: String)
    ensures
        m@ == (if changed {
            "共享模式已应用（"@
        } else {
            "共享模式无需变更（"@
        }) + effective@ + "）"@,
{
    let mut v = if changed {
        str_chars("共享模式已应用（")
    } else {
        str_chars("共享模式无需变更（")
    };
    push_str(&mut v, effective);
    push_str(&mut v, "）");
    chars_string(v.as_slice())
}

/// The rows config mode needs, among those the dump index lacks.
pub open spec fn spec_missing_rows(m: Map<Seq<char>, (Seq<char>, crate::plugin::dump::SpecDumpRow)>) -> Seq<Seq<char>> {
    (if m.contains_key("skill-filesystem"@) {
        Seq::empty()
    } else {
        seq!["skill-filesystem"@]
    }) + (if m.contains_key("agent-instructions"@) {
        Seq::empty()
    } else {
        seq!["agent-instructions"@]
    })
}

/// Which of `skill-filesystem` and `agent-instructions` the composed tree lacks
/// (config mode needs both).
pub fn missing_target_rows(index: &DumpIndex) -> (v: Vec<&'static str>)
    ensures
        v@.map_values(|s: &'static str| s@) == spec_missing_rows(index.spec_map()),
{
    let mut v: Vec<&'static str> = Vec::new();
    if index.get("skill-filesystem").is_none() {
        v.push("skill-filesystem");
    }
    if index.get("agent-instructions").is_none() {
        v.push("agent-instructions");
    }
    assert(v@.map_values(|s: &'static str| s@) =~= spec_missing_rows(index.spec_map()));
    v
}

// ------------------------------------------------------------------ probing a view

/// What probing the `~/.dsh` side of a resource found.
#[derive(Debug, Clone)]
pub enum ViewProbe {
    /// Nothing there
    Absent,
    /// A link: where it points (resolved against the view's directory), whether
    /// that is the shared source, and whether anything is there
    Link { target: String, to_canonical: bool, target_exists: bool },
    /// A real file or directory
    Real,
}

pub open spec fn spec_view_state(probe: ViewProbe) -> ResourceState {
    match probe {
        ViewProbe::Absent => ResourceState::Missing,
        ViewProbe::Link { to_canonical, target_exists, .. } => if to_canonical && target_exists {
            ResourceState::Linked
        } else {
            ResourceState::Broken
        },
        ViewProbe::Real => ResourceState::Conflict,
    }
}

pub open spec fn spec_view_detail(view: Seq<char>, canonical: Seq<char>, probe: ViewProbe) -> Seq<char> {
    match probe {
        ViewProbe::Absent => view + " 不存在"@,
        ViewProbe::Link { target, to_canonical, target_exists } => if !target_exists {
            "链接目标不存在（断链）："@ + target@
        } else if to_canonical {
            "已链接到 "@ + canonical
        } else {
            "链接指向 "@ + target@ + "，期望 "@ + canonical
        },
        ViewProbe::Real => view + " 是真实文件/目录（迁移向导可合并，绝不自动删除）"@,
    }
}

/// The status of a resource from what its view is: absent is `Missing`, a link
/// to the shared source `Linked`, a link elsewhere or to nothing (a dangling
/// link) `Broken`, and a real file or directory a `Conflict`.
pub fn view_status(resource: ShareResource, view: &str, canonical: &str, probe: &ViewProbe) -> (s: ResourceStatus)
    ensures
        s.resource@ == resource_key(resource),
        s.canonical@ == canonical@,
        s.view@ == view@,
        s.state == spec_view_state(*probe),
        s.detail@ == spec_view_detail(view@, canonical@, *probe),
{
    let (state, detail) = match probe {
        ViewProbe::Absent => {
            let mut d = str_chars(view);
            push_str(&mut d, " 不存在");
            (ResourceState::Missing, d)
        },
        ViewProbe::Link { target, to_canonical, target_exists } => {
            if !*target_exists {
                let mut d = str_chars("链接目标不存在（断链）：");
                push_str(&mut d, target.as_str());
                (ResourceState::Broken, d)
            } else if *to_canonical {
                let mut d = str_chars("已链接到 ");
                push_str(&mut d, canonical);
                (ResourceState::Linked, d)
            } else {
                let mut d = str_chars("链接指向 ");
                push_str(&mut d, target.as_str());
                push_str(&mut d, "，期望 ");
                push_str(&mut d, canonical);
                (ResourceState::Broken, d)
            }
        },
        ViewProbe::Real => {
            let mut d = str_chars(view);
            push_str(&mut d, " 是真实文件/目录（迁移向导可合并，绝不自动删除）");
            (ResourceState::Conflict, d)
        },
    };
    ResourceStatus {
        resource: resource.key().to_owned(),
        canonical: canonical.to_owned(),
        view: view.to_owned(),
        state,
        detail: chars_string(detail.as_slice()),
    }
}

/// Whether an entry of the shared `skills` directory is a skill: a directory
/// holding `SKILL.md`, or a file with the extension `md`.
pub fn counts_as_skill(is_dir: bool, has_skill_file: bool, extension: Option<&str>) -> (b: bool)
    ensures
        b == (if is_dir {
            has_skill_file
        } else {
            extension matches Some(e) && e@ == "md"@
        }),
{
    if is_dir {
        has_skill_file
    } else {
        match extension {
            Some(e) => eq_str(&str_chars(e), "md"),
            None => false,
        }
    }
}

// ------------------------------------------------------------------ linking

/// What linking a resource takes, by its current state.
#[derive(Debug, Clone, Copy, PartialEq, Eq, Structural)]
pub enum LinkStep {
    /// Linked already, or provided by configuration: nothing to do
    Keep,
    /// Make the link
    Create,
    /// Remove the wrong link, then make the right one
    Replace,
}

/// The step that links a resource in a state; `None`: refused.
pub open spec fn spec_link_step(state: ResourceState) -> Option<LinkStep> {
    match state {
        ResourceState::Linked | ResourceState::Config => Some(LinkStep::Keep),
        ResourceState::Missing => Some(LinkStep::Create),
        ResourceState::Broken => Some(LinkStep::Replace),
        ResourceState::Conflict => None,
    }
}

/// The step that links a resource: a linked or configured one is kept, a missing
/// one gets a link, a broken one is replaced, and a real file or directory is
/// refused, since user content is never replaced.
pub fn link_step(status: &ResourceStatus) -> (r: Result<LinkStep, PluginError>)
    ensures
        match spec_link_step(status.state) {
            Some(step) => r == Ok::<LinkStep, PluginError>(step),
            None => r matches Err(e) && e.kind == PluginErrorKind::CapabilityMissing
                && e.message@ == status.view@ + " 是真实文件/目录，不能直接替换；请先执行 skill migrate 合并到共享真源"@,
        },
{
    match status.state {
        ResourceState::Linked | ResourceState::Config => Ok(LinkStep::Keep),
        ResourceState::Missing => Ok(LinkStep::Create),
        ResourceState::Broken => Ok(LinkStep::Replace),
        ResourceState::Conflict => Err(conflict_error(status.view.as_str())),
    }
}

/// Linking never touches user content: whatever the view is, a real file or
/// directory is refused, only a link (one pointing elsewhere or to nothing) is
/// ever removed, a new link is made only where nothing is, and a live link to
/// the shared source is kept.
pub proof fn law_linking_keeps_user_content(probe: ViewProbe)
    ensures
        probe is Real ==> spec_link_step(spec_view_state(probe)) is None,
        spec_link_step(spec_view_state(probe)) == Some(LinkStep::Replace) ==> (probe matches ViewProbe::Link {
            to_canonical,
            target_exists,
            ..
        } && !(to_canonical && target_exists)),
        spec_link_step(spec_view_state(probe)) == Some(LinkStep::Create) ==> probe is Absent,
        (probe matches ViewProbe::Link { to_canonical, target_exists, .. } && to_canonical && target_exists)
            ==> spec_link_step(
            spec_view_state(probe),
        ) == Some(LinkStep::Keep),
{
}

// ------------------------------------------------------------------ migration

pub open spec fn from_dsh_home(name: Seq<char>) -> Seq<char> {
    name + ".from-dsh-home"@
}

/// Where an entry of the `~/.dsh` skills directory goes in the shared source:
/// its own name, or `<name>.from-dsh-home` when that name is taken (both kept).
pub fn merge_target_name(name: &str, taken: bool) -> (t: String)
    ensures
        t@ == (if taken {
            from_dsh_home(name@)
        } else {
            name@
        }),
{
    if taken {
        let mut v = str_chars(name);
        push_str(&mut v, ".from-dsh-home");
        chars_string(v.as_slice())
    } else {
        name.to_owned()
    }
}

/// The name of the copy kept when both sides of a file resource differ.
pub fn kept_copy_name(resource: ShareResource) -> (t: String)
    ensures
        t@ == from_dsh_home(resource_file_name(resource)),
{
    let mut v = str_chars(resource.file_name());
    push_str(&mut v, ".from-dsh-home");
    chars_string(v.as_slice())
}

/// The name a view is kept under once migrated: `<name>.migrated-<ts>`.
pub fn parked_name(name: &str, ts: &str) -> (t: String)
    ensures
        t@ == name@ + ".migrated-"@ + ts@,
{
    let mut v = str_chars(name);
    push_str(&mut v, ".migrated-");
    push_str(&mut v, ts);
    chars_string(v.as_slice())
}

/// What migrating a file resource does.
#[derive(Debug, Clone, Copy, PartialEq, Eq, Structural)]
pub enum FileMigration {
    /// The shared source is missing: move the view there
    Move,
    /// Both sides hold the same text: keep the view under another name
    Keep,
    /// The texts differ: keep a copy of the view beside the shared source as well
    KeepBoth,
}

pub open spec fn spec_file_migration(canonical_text: Option<Seq<char>>, view_text: Seq<char>) -> FileMigration {
    match canonical_text {
        None => FileMigration::Move,
        Some(c) => if trim(c) == trim(view_text) {
            FileMigration::Keep
        } else {
            FileMigration::KeepBoth
        },
    }
}

/// The migration of a file resource, from the text of the shared source (`None`
/// when it does not exist) and that of the view; texts are compared trimmed.
pub fn file_migration(canonical_text: Option<&str>, view_text: &str) -> (m: FileMigration)
    ensures
        m == spec_file_migration(crate::skill::scan::opt_str_view(canonical_text), view_text@),
{
    match canonical_text {
        None => FileMigration::Move,
        Some(c) => {
            let a = trim_vec(&str_chars(c));
            let b = trim_vec(&str_chars(view_text));
            if eq_vec(&a, &b) {
                FileMigration::Keep
            } else {
                FileMigration::KeepBoth
            }
        },
    }
}

pub open spec fn spec_file_action(m: FileMigration, dry_run: bool) -> Seq<char> {
    if dry_run {
        "plan"@
    } else {
        match m {
            FileMigration::Move => "moved"@,
            FileMigration::Keep => "kept"@,
            FileMigration::KeepBoth => "kept-both"@,
        }
    }
}

pub open spec fn spec_file_detail(resource: ShareResource, m: FileMigration, canonical: Seq<char>) -> Seq<char> {
    match m {
        FileMigration::Move => "移动到 "@ + canonical,
        FileMigration::Keep => "两边内容一致，原文件改名保留并建立链接"@,
        FileMigration::KeepBoth => "内容不同，保留副本 "@ + from_dsh_home(resource_file_name(resource)) + "，原文件改名保留"@,
    }
}

/// The report line of a file resource's migration (`plan` on a dry run).
pub fn file_migration_action(resource: ShareResource, m: FileMigration, dry_run: bool, canonical: &str) -> (a: MigrateAction)
    ensures
        a.resource@ == resource_key(resource),
        a.action@ == spec_file_action(m, dry_run),
        a.detail@ == spec_file_detail(resource, m, canonical@),
{
    let action = if dry_run {
        "plan"
    } else {
        match m {
            FileMigration::Move => "moved",
            FileMigration::Keep => "kept",
            FileMigration::KeepBoth => "kept-both",
        }
    };
    let detail = match m {
        FileMigration::Move => {
            let mut v = str_chars("移动到 ");
            push_str(&mut v, canonical);
            chars_string(v.as_slice())
        },
        FileMigration::Keep => "两边内容一致，原文件改名保留并建立链接".to_owned(),
        FileMigration::KeepBoth => {
            let mut v = str_chars("内容不同，保留副本 ");
            push_str(&mut v, resource.file_name());
            push_str(&mut v, ".from-dsh-home");
            push_str(&mut v, "，原文件改名保留");
            chars_string(v.as_slice())
        },
    };
    MigrateAction { resource: resource.key().to_owned(), action: action.to_owned(), detail }
}

pub open spec fn spec_merge_detail(copied: nat, renamed: nat, dry_run: bool) -> Seq<char> {
    "合并 "@ + decimal(copied) + " 个新条目、"@ + decimal(renamed) + " 个同名冲突（保留为 .from-dsh-home）；原目录改名保留"@
        + (if dry_run {
        "（预演，未落盘）"@
    } else {
        Seq::empty()
    })
}

/// The report line of a directory resource merged into the shared source:
/// `copied` new entries and `renamed` ones whose name was taken.
pub fn merge_action(resource: ShareResource, copied: usize, renamed: usize, dry_run: bool) -> (a: MigrateAction)
    ensures
        a.resource@ == resource_key(resource),
        a.action@ == (if dry_run {
            "plan"@
        } else {
            "merged"@
        }),
        a.detail@ == spec_merge_detail(copied as nat, renamed as nat, dry_run),
{
    let mut v = str_chars("合并 ");
    let c = decimal_vec(copied);
    crate::text::push_all(&mut v, &c);
    push_str(&mut v, " 个新条目、");
    let r = decimal_vec(renamed);
    crate::text::push_all(&mut v, &r);
    push_str(&mut v, " 个同名冲突（保留为 .from-dsh-home）；原目录改名保留");
    if dry_run {
        push_str(&mut v, "（预演，未落盘）");
    }
    let action = if dry_run {
        "plan"
    } else {
        "merged"
    };
    MigrateAction { resource: resource.key().to_owned(), action: action.to_owned(), detail: chars_string(v.as_slice()) }
}

/// The migration report: the actions taken, or one `noop` line when no resource
/// was in conflict.
pub fn migrate_report(dry_run: bool, actions: Vec<MigrateAction>) -> (r: MigrateReport)
    ensures
        r.dry_run == dry_run,
        actions.len() > 0 ==> r.actions@ == actions@,
        actions.len() == 0 ==> r.actions.len() == 1 && r.actions@[0].resource@ == "all"@
            && r.actions@[0].action@ == "noop"@ && r.actions@[0].detail@ == "没有需要迁移的冲突资源"@,
{
    let mut actions = actions;
    if actions.len() == 0 {
        actions.push(
            MigrateAction {
                resource: "all".to_owned(),
                action: "noop".to_owned(),
                detail: "没有需要迁移的冲突资源".to_owned(),
            },
        );
    }
    MigrateReport { dry_run, actions }
}

/// `auto` takes the best mode the platform allows: it behaves as asking for `link`
/// when links can be made and as asking for `config` when they cannot; every mode
/// that is accepted is `link` or `config`.
pub proof fn law_auto_prefers_link(mode: Seq<char>, link_capable: bool)
    ensures
        spec_effective_mode("auto"@, link_capable) == spec_effective_mode(
            if link_capable {
                "link"@
            } else {
                "config"@
            },
            link_capable,
        ),
        link_capable ==> spec_effective_mode("auto"@, link_capable) == Ok::<Seq<char>, Seq<char>>("link"@),
        spec_effective_mode(mode, link_capable) matches Ok(m) ==> (m == "link"@ || m == "config"@),
{
    reveal_strlit("auto");
    reveal_strlit("link");
    reveal_strlit("config");
    assert("auto"@.len() == 4 && "link"@.len() == 4 && "config"@.len() == 6);
    assert("auto"@[0] != "link"@[0]);
    assert("auto"@ != "link"@ && "auto"@ != "config"@);
}

} // verus!
