//! The MCP prerequisite: whether `@deepseek-ai/dsh-mcp-client` resolves from the
//! profiles tree. The candidates are computed here; probing the file system is
//! the caller's part.
use crate::dshhome::{is_join, lemma_join_stays_plain, path_join, plain_base, relative_part};
use vstd::prelude::*;

verus! {

/// The prerequisite package.
pub const REQUIRED_PACKAGE: &'static str = "@deepseek-ai/dsh-mcp-client";

/// Outcome of the prerequisite probe.
#[derive(Debug, Clone, PartialEq, Eq, Structural)]
pub enum PrereqState {
    /// Resolvable (the directory exists and is a package)
    Installed,
    /// No candidate resolved
    Missing,
}

/// `<base>/node_modules/<package>`
pub open spec fn is_package_path(p: Seq<char>, base: Seq<char>) -> bool {
    exists|nm: Seq<char>| is_join(nm, base, "node_modules"@) && is_join(p, nm, REQUIRED_PACKAGE@)
}

fn package_under(base: &str) -> (p: String)
    ensures
        plain_base(base@) ==> is_package_path(p@, base@),
{
    proof {
        reveal_strlit("node_modules");
        reveal_strlit("@deepseek-ai/dsh-mcp-client");
    }
    let nm = path_join(base, "node_modules");
    let p = path_join(nm.as_str(), REQUIRED_PACKAGE);
    proof {
        if plain_base(base@) {
            lemma_join_stays_plain(nm@, base@, "node_modules"@);
            assert(relative_part(REQUIRED_PACKAGE@));
            assert(is_join(nm@, base@, "node_modules"@) && is_join(p@, nm@, REQUIRED_PACKAGE@));
        }
    }
    p
}

/// The resolution chain, tried in this order:
/// 1. `<profiles>/node_modules/<pkg>` (the link the dsh install writes);
/// 2. `<profiles>/<profile>/node_modules/<pkg>` (a profile-local dependency).
pub fn resolve_candidates(profiles_dir: &str, profile: &str) -> (c: Vec<String>)
    ensures
        c.len() == 2,
        plain_base(profiles_dir@) ==> is_package_path(c@[0]@, profiles_dir@),
        plain_base(profiles_dir@) && relative_part(profile@) ==> exists|dir: Seq<char>|
            is_join(dir, profiles_dir@, profile@) && is_package_path(c@[1]@, dir),
{
    let first = package_under(profiles_dir);
    let dir = path_join(profiles_dir, profile);
    let second = package_under(dir.as_str());
    let mut c: Vec<String> = Vec::new();
    c.push(first);
    c.push(second);
    proof {
        if plain_base(profiles_dir@) && relative_part(profile@) {
            lemma_join_stays_plain(dir@, profiles_dir@, profile@);
            assert(is_join(dir@, profiles_dir@, profile@) && is_package_path(c@[1]@, dir@));
        }
    }
    c
}

/// The prerequisite as the CLI / IPC show it.
#[derive(Debug, Clone)]
pub struct PrereqView {
    pub installed: bool,
    pub package: String,
}

impl PrereqView {
    pub fn from_state(state: &PrereqState) -> (v: PrereqView)
        ensures
            v.installed == (*state == PrereqState::Installed),
            v.package@ == REQUIRED_PACKAGE@,
    {
        PrereqView {
            installed: match state {
                PrereqState::Installed => true,
                PrereqState::Missing => false,
            },
            package: REQUIRED_PACKAGE.to_owned(),
        }
    }
}

/// The first candidate that resolves.
pub fn first_resolvable(resolvable: &Vec<bool>) -> (r: Option<usize>)
    ensures
        match r {
            Some(i) => i < resolvable.len() && resolvable@[i as int] && forall|k: int| 0 <= k < i ==> !resolvable@[k],
            None => forall|k: int| 0 <= k < resolvable.len() ==> !resolvable@[k],
        },
{
    let mut i: usize = 0;
    while i < resolvable.len()
        invariant
            i <= resolvable.len(),
            forall|k: int| 0 <= k < i ==> !resolvable@[k],
        decreases resolvable.len() - i,
    {
        if resolvable[i] {
            return Some(i);
        }
        i = i + 1;
    }
    None
}

/// The prerequisite from the first candidate that resolves (`None`: none does)
/// and whether it holds a `package.json`: a directory without one is no package
/// dsh can load, so it counts as missing.
pub fn prereq_state(first_has_manifest: Option<bool>) -> (s: PrereqState)
    ensures
        s == (if first_has_manifest == Some(true) {
            PrereqState::Installed
        } else {
            PrereqState::Missing
        }),
{
    match first_has_manifest {
        Some(true) => PrereqState::Installed,
        _ => PrereqState::Missing,
    }
}

} // verus!
