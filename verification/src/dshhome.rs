//! `DSH_HOME` / profiles / agents-home path resolution.
//!
//! A non-blank configured home wins (with `~`, `~/`, `~\` expanded against the
//! user directory); otherwise the home is `<user>/.dsh` (or `<user>/.agents`).
//! The functions take the directories they build on, so that reading the
//! process environment stays with the caller.
use crate::text::{chars_string, debug_quoted, starts_with, str_chars, str_debug, trim, trim_vec};
use vstd::prelude::*;

verus! {

/// Environment variable that overrides the harness home.
pub const DSH_HOME_ENV: &'static str = "DSH_HOME";
/// Environment variable that overrides the shared agent root.
pub const DSH_AGENTS_HOME_ENV: &'static str = "DSH_AGENTS_HOME";
/// Profile directory name under the harness home.
pub const PROFILES_DIR: &'static str = "profiles";
/// The one profile the launcher manages.
pub const MANAGED_PROFILE: &'static str = "web";
/// File name of a profile's user patch layer.
pub const PROFILE_PATCH_FILENAME: &'static str = "cordis.patch.yml";
/// File name of the home-level user patch layer.
pub const HOME_PATCH_FILENAME: &'static str = "cordis.patch.yml";
/// Skills directory name (both official skill roots use it).
pub const SKILLS_DIR: &'static str = "skills";
/// User-global instructions file name.
pub const AGENTS_MD_FILENAME: &'static str = "AGENTS.md";
/// Glossary file name (read by agents and skills, not by dsh).
pub const CONTEXT_MD_FILENAME: &'static str = "CONTEXT.md";

pub open spec fn is_sep(c: char) -> bool {
    c == '/' || c == '\\'
}

/// A relative path: non-empty, not starting with a separator, without a drive colon.
pub open spec fn relative_part(p: Seq<char>) -> bool {
    p.len() > 0 && !is_sep(p[0]) && !p.contains(':')
}

/// `r` is `part` adjoined to `base`: `part` alone when `base` is empty, otherwise
/// `base` and `part` with a separator between them unless `base` already ends with one.
pub open spec fn is_join(r: Seq<char>, base: Seq<char>, part: Seq<char>) -> bool {
    if base.len() == 0 {
        r == part
    } else {
        (is_sep(base.last()) && r == base + part) || exists|c: char| is_sep(c) && r == base.push(c) + part
    }
}

/// A base that `Path::join` extends as text on every platform: it does not end in
/// `:` (after a bare drive such as `C:` Windows adds no separator) and does not
/// start with `\` (under a verbatim `\\?\` prefix Windows rebuilds the path from
/// its components, dropping `.` and `..`).
pub open spec fn plain_base(b: Seq<char>) -> bool {
    !(b.len() > 0 && b.last() == ':') && !(b.len() > 0 && b[0] == '\\')
}

pub open spec fn starts_with_sep(p: Seq<char>) -> bool {
    p.len() > 0 && is_sep(p[0])
}

/// A base that starts with a drive, `X:`.
pub open spec fn drive_prefixed(b: Seq<char>) -> bool {
    b.len() >= 2 && b[1] == ':'
}

/// A base that starts with two separators: on Windows a server prefix such as
/// `//server/share`, which a rooted part keeps in front of it.
pub open spec fn server_prefixed(b: Seq<char>) -> bool {
    b.len() >= 2 && is_sep(b[0]) && is_sep(b[1])
}

/// What `Path::join(base, part)` gives, as text, for a plain base on Unix and on
/// Windows alike:
/// - a part that does not start with a separator and holds no `:` (the empty
///   part too) is adjoined (`is_join`);
/// - one that does not start with a separator but holds a `:` is adjoined, or
///   replaces the base (a Windows drive path such as `D:x`);
/// - one that starts with `/` replaces the base, keeping on Windows the base's drive;
/// - one that starts with `\` does the same, or is adjoined (on Unix `\` is no separator);
/// - for a part that starts with a separator and a base that starts with two,
///   nothing is said.
pub open spec fn joined(r: Seq<char>, base: Seq<char>, part: Seq<char>) -> bool {
    &&& (!starts_with_sep(part) && !part.contains(':')) ==> is_join(r, base, part)
    &&& !starts_with_sep(part) ==> (is_join(r, base, part) || r == part)
    &&& (part.len() > 0 && part[0] == '/' && !server_prefixed(base)) ==> (r == part || (drive_prefixed(base)
        && r == base.subrange(0, 2) + part))
    &&& (part.len() > 0 && part[0] == '\\' && !server_prefixed(base)) ==> (r == part || (drive_prefixed(
        base) && r == base.subrange(0, 2) + part) || is_join(r, base, part))
}

/// `Path::join` (the result as text), for a plain base, as `joined` states it.
/// Which separator is put between the two depends on the platform and is not
/// stated; for a base ending in `:` or starting with `\` nothing is stated, nor
/// for a rooted part on a base that starts with two separators.
#[verifier::external_body]
pub(crate) fn path_join(base: &str, part: &str) -> (r: String)
    ensures
        plain_base(base@) ==> joined(r@, base@, part@),
{
    std::path::Path::new(base).join(part).to_string_lossy().into_owned()
}

/// A relative part that is adjoined without a drive colon.
pub proof fn lemma_relative_joined(r: Seq<char>, base: Seq<char>, part: Seq<char>)
    requires
        relative_part(part),
        joined(r, base, part),
    ensures
        is_join(r, base, part),
{
}

/// Adjoining a relative part (not ending in `:`) to a plain base gives a plain base.
pub proof fn lemma_join_stays_plain(r: Seq<char>, base: Seq<char>, part: Seq<char>)
    requires
        plain_base(base),
        relative_part(part),
        is_join(r, base, part),
    ensures
        plain_base(r),
        r.len() > 0,
{
    assert(part.contains(part.last()) ==> part.last() != ':');
    assert(part.contains(part[part.len() - 1]));
    if base.len() == 0 {
        assert(r == part);
    } else if is_sep(base.last()) && r == base + part {
        assert(r.last() == part.last());
        assert(r[0] == base[0]);
    } else {
        let c = choose|c: char| is_sep(c) && r == base.push(c) + part;
        assert(r.last() == part.last());
        assert(r[0] == base[0]);
    }
}

pub open spec fn tilde_rest(raw: Seq<char>) -> Option<Seq<char>> {
    if starts_with(raw, "~/"@) || starts_with(raw, "~\\"@) {
        Some(raw.subrange(2, raw.len() as int))
    } else {
        None
    }
}

/// Expands a `~`, `~/` or `~\` prefix against `home`. A bare `~` is `home`; a
/// prefixed path is the rest joined onto `home` (as `Path::join` does: an empty
/// rest leaves `home` with a trailing separator, an absolute one replaces it);
/// any other text is kept as it is.
pub fn expand_home(raw: &str, home: &str) -> (r: String)
    ensures
        raw@ == "~"@ ==> r@ == home@,
        raw@ != "~"@ ==> match tilde_rest(raw@) {
            None => r@ == raw@,
            Some(rest) => plain_base(home@) ==> joined(r@, home@, rest),
        },
{
    let v = str_chars(raw);
    if crate::text::eq_str(&v, "~") {
        return home.to_owned();
    }
    if crate::text::starts_with_str(&v, "~/") || crate::text::starts_with_str(&v, "~\\") {
        proof {
            reveal_strlit("~/");
            reveal_strlit("~\\");
        }
        let rest = crate::text::copy_range(&v, 2, v.len());
        let rest_s = chars_string(rest.as_slice());
        return path_join(home, rest_s.as_str());
    }
    raw.to_owned()
}

/// The configured value when it is present and not blank.
pub open spec fn configured_value(configured: Option<&str>) -> Option<Seq<char>> {
    match configured {
        Some(v) => if trim(v@).len() > 0 {
            Some(trim(v@))
        } else {
            None
        },
        None => None,
    }
}

fn configured_exec(configured: Option<&str>) -> (r: Option<String>)
    ensures
        crate::text::opt_view(r) == configured_value(configured),
{
    match configured {
        Some(v) => {
            let t = trim_vec(&str_chars(v));
            if t.len() > 0 {
                Some(chars_string(t.as_slice()))
            } else {
                None
            }
        },
        None => None,
    }
}

/// What `resolve_dsh_home` / `resolve_agents_home` return for a configured value or the default name.
pub open spec fn is_resolved_home(r: Seq<char>, configured: Option<&str>, user: Seq<char>, default_name: Seq<char>) -> bool {
    match configured_value(configured) {
        None => plain_base(user) ==> is_join(r, user, default_name),
        Some(v) => (v == "~"@ ==> r == user) && (v != "~"@ ==> match tilde_rest(v) {
            None => r == v,
            Some(rest) => plain_base(user) ==> joined(r, user, rest),
        }),
    }
}

/// The harness home: a non-blank configured value (with `~` expanded), else `<user>/.dsh`.
pub fn resolve_dsh_home(configured: Option<&str>, user: &str) -> (r: String)
    ensures
        is_resolved_home(r@, configured, user@, ".dsh"@),
{
    match configured_exec(configured) {
        Some(v) => expand_home(v.as_str(), user),
        None => {
            proof {
                reveal_strlit(".dsh");
            }
            path_join(user, ".dsh")
        },
    }
}

/// The shared agent root: a non-blank configured value (with `~` expanded), else `<user>/.agents`.
pub fn resolve_agents_home(configured: Option<&str>, user: &str) -> (r: String)
    ensures
        is_resolved_home(r@, configured, user@, ".agents"@),
{
    match configured_exec(configured) {
        Some(v) => expand_home(v.as_str(), user),
        None => {
            proof {
                reveal_strlit(".agents");
            }
            path_join(user, ".agents")
        },
    }
}

/// The root of shared resources is the agents home itself.
pub fn shared_agent_dir(agents_home: &str) -> (r: String)
    ensures
        r@ == agents_home@,
{
    agents_home.to_owned()
}

/// The official skills root of rank 500: `<agentsHome>/skills`.
pub fn agents_skills_dir(agents_home: &str) -> (r: String)
    ensures
        plain_base(agents_home@) ==> is_join(r@, agents_home@, SKILLS_DIR@),
{
    proof {
        reveal_strlit("skills");
    }
    path_join(agents_home, SKILLS_DIR)
}

/// The dsh-home skills root of rank 400: `<dshHome>/skills`.
pub fn dsh_home_skills_dir(dsh_home: &str) -> (r: String)
    ensures
        plain_base(dsh_home@) ==> is_join(r@, dsh_home@, SKILLS_DIR@),
{
    proof {
        reveal_strlit("skills");
    }
    path_join(dsh_home, SKILLS_DIR)
}

/// The user-global instructions file: `<dshHome>/AGENTS.md`.
pub fn dsh_home_agents_md(dsh_home: &str) -> (r: String)
    ensures
        plain_base(dsh_home@) ==> is_join(r@, dsh_home@, AGENTS_MD_FILENAME@),
{
    proof {
        reveal_strlit("AGENTS.md");
    }
    path_join(dsh_home, AGENTS_MD_FILENAME)
}

/// The instructions file on the shared side: `<agentsHome>/AGENTS.md`.
pub fn agents_home_agents_md(agents_home: &str) -> (r: String)
    ensures
        plain_base(agents_home@) ==> is_join(r@, agents_home@, AGENTS_MD_FILENAME@),
{
    proof {
        reveal_strlit("AGENTS.md");
    }
    path_join(agents_home, AGENTS_MD_FILENAME)
}

/// `<dshHome>/profiles`
pub fn profiles_dir(dsh_home: &str) -> (r: String)
    ensures
        plain_base(dsh_home@) ==> is_join(r@, dsh_home@, PROFILES_DIR@),
{
    proof {
        reveal_strlit("profiles");
    }
    path_join(dsh_home, PROFILES_DIR)
}

/// The profile names dsh refuses: empty, `.`, `..`, `node_modules`, or holding a separator.
pub open spec fn bad_profile_name(name: Seq<char>) -> bool {
    name.len() == 0 || name == "."@ || name == ".."@ || name == "node_modules"@ || name.contains('/')
        || name.contains('\\')
}

pub open spec fn profile_name_message(name: Seq<char>) -> Seq<char> {
    "非法 profile 名: "@ + str_debug(name)
}

/// Checks a profile name with the rules dsh applies when it resolves a profile directory.
pub fn validate_profile_name(name: &str) -> (r: Result<(), String>)
    ensures
        r is Ok <==> !bad_profile_name(name@),
        r matches Err(m) ==> m@ == profile_name_message(name@),
{
    let v = str_chars(name);
    if v.len() == 0 || crate::text::eq_str(&v, ".") || crate::text::eq_str(&v, "..") || crate::text::eq_str(
        &v,
        "node_modules",
    ) || crate::text::contains_char_vec(&v, '/') || crate::text::contains_char_vec(&v, '\\') {
        let mut m = str_chars("非法 profile 名: ");
        crate::text::push_str(&mut m, debug_quoted(name).as_str());
        return Err(chars_string(m.as_slice()));
    }
    Ok(())
}

/// `p` is `<dshHome>/profiles/<name>` (stated for a plain home and a name without a drive colon).
pub open spec fn is_profile_dir(p: Seq<char>, dsh_home: Seq<char>, name: Seq<char>) -> bool {
    plain_base(dsh_home) && !name.contains(':') ==> exists|profiles: Seq<char>|
        is_join(profiles, dsh_home, PROFILES_DIR@) && is_join(p, profiles, name)
}

/// A profile's directory (it need not exist).
pub fn profile_dir(dsh_home: &str, name: &str) -> (r: Result<String, String>)
    ensures
        r is Ok <==> !bad_profile_name(name@),
        r matches Err(m) ==> m@ == profile_name_message(name@),
        r matches Ok(p) ==> is_profile_dir(p@, dsh_home@, name@),
{
    match validate_profile_name(name) {
        Ok(()) => {},
        Err(m) => {
            return Err(m);
        },
    }
    let profiles = profiles_dir(dsh_home);
    let path = path_join(profiles.as_str(), name);
    proof {
        if plain_base(dsh_home@) && !name@.contains(':') {
            reveal_strlit("profiles");
            assert(name@.contains(name@[0]));
            lemma_join_stays_plain(profiles@, dsh_home@, PROFILES_DIR@);
            assert(is_join(path@, profiles@, name@));
        }
    }
    Ok(path)
}

/// A profile's `cordis.patch.yml`.
pub fn profile_patch_path(dsh_home: &str, name: &str) -> (r: Result<String, String>)
    ensures
        r is Ok <==> !bad_profile_name(name@),
        r matches Err(m) ==> m@ == profile_name_message(name@),
        r matches Ok(p) ==> exists|dir: Seq<char>|
            is_profile_dir(dir, dsh_home@, name@) && (plain_base(dsh_home@) && !name@.contains(':') ==> is_join(
                p@,
                dir,
                PROFILE_PATCH_FILENAME@,
            )),
{
    let dir = match profile_dir(dsh_home, name) {
        Ok(d) => d,
        Err(m) => {
            return Err(m);
        },
    };
    proof {
        reveal_strlit("cordis.patch.yml");
    }
    let path = path_join(dir.as_str(), PROFILE_PATCH_FILENAME);
    proof {
        if plain_base(dsh_home@) && !name@.contains(':') {
            reveal_strlit("profiles");
            assert(name@.contains(name@[0]));
            let profiles = choose|profiles: Seq<char>|
                is_join(profiles, dsh_home@, PROFILES_DIR@) && is_join(dir@, profiles, name@);
            lemma_join_stays_plain(profiles, dsh_home@, PROFILES_DIR@);
            lemma_join_stays_plain(dir@, profiles, name@);
            assert(is_join(path@, dir@, PROFILE_PATCH_FILENAME@));
        }
    }
    Ok(path)
}

/// The home-level `$DSH_HOME/cordis.patch.yml`.
pub fn home_patch_path(dsh_home: &str) -> (r: String)
    ensures
        plain_base(dsh_home@) ==> is_join(r@, dsh_home@, HOME_PATCH_FILENAME@),
{
    proof {
        reveal_strlit("cordis.patch.yml");
    }
    path_join(dsh_home, HOME_PATCH_FILENAME)
}

/// The GitHub channel's clone directory:
/// `<LOCALAPPDATA>/dsh-launcher/github-dsh/deepseek-harness`.
pub fn github_clone_dir(local_app_data: &str) -> (r: String)
    ensures
        plain_base(local_app_data@) ==> exists|a: Seq<char>, b: Seq<char>|
            is_join(a, local_app_data@, "dsh-launcher"@) && is_join(b, a, "github-dsh"@) && is_join(
                r@,
                b,
                "deepseek-harness"@,
            ),
{
    proof {
        reveal_strlit("dsh-launcher");
        reveal_strlit("github-dsh");
        reveal_strlit("deepseek-harness");
        assert(!"dsh-launcher"@.contains(':')) by {
            assert forall|i: int| 0 <= i < "dsh-launcher"@.len() implies "dsh-launcher"@[i] != ':' by {}
        }
        assert(!"github-dsh"@.contains(':')) by {
            assert forall|i: int| 0 <= i < "github-dsh"@.len() implies "github-dsh"@[i] != ':' by {}
        }
        assert(!"deepseek-harness"@.contains(':')) by {
            assert forall|i: int| 0 <= i < "deepseek-harness"@.len() implies "deepseek-harness"@[i] != ':' by {}
        }
    }
    let a = path_join(local_app_data, "dsh-launcher");
    let b = path_join(a.as_str(), "github-dsh");
    let r = path_join(b.as_str(), "deepseek-harness");
    proof {
        if plain_base(local_app_data@) {
            lemma_join_stays_plain(a@, local_app_data@, "dsh-launcher"@);
            lemma_join_stays_plain(b@, a@, "github-dsh"@);
        }
    }
    r
}

} // verus!
