//! The skill source registry: which skills came from which repository URL at
//! which commit. URLs are unique in the registry; reading and writing the file
//! is the caller's part, and a missing or broken file counts as an empty registry.
use crate::text::{chars_string, eq_vec, opt_view, str_chars, trim, trim_vec};
use vstd::prelude::*;

verus! {

/// Registry schema version.
pub const SCHEMA_VERSION: u32 = 1;

/// The repository an imported skill belongs to.
#[derive(Debug, Clone, PartialEq, Eq)]
pub struct SourceRecord {
    /// Repository label (a friendly name; empty falls back to the URL)
    pub name: Option<String>,
    /// Repository URL as the user typed it
    pub url: String,
    /// Commit resolved at import time
    pub commit: Option<String>,
    /// Import time (Unix seconds, as text)
    pub imported_at: String,
    /// Last "check for updates" time (Unix seconds, as text)
    pub checked_at: Option<String>,
    /// Number of updates found by the last check (recorded only)
    pub last_update_count: usize,
    /// Names of the skills this source imported
    pub skills: Vec<String>,
}

pub struct SpecSourceRecord {
    pub name: Option<Seq<char>>,
    pub url: Seq<char>,
    pub commit: Option<Seq<char>>,
    pub imported_at: Seq<char>,
    pub checked_at: Option<Seq<char>>,
    pub last_update_count: usize,
    pub skills: Seq<Seq<char>>,
}

impl View for SourceRecord {
    type V = SpecSourceRecord;

    open spec fn view(&self) -> SpecSourceRecord {
        SpecSourceRecord {
            name: opt_view(self.name),
            url: self.url@,
            commit: opt_view(self.commit),
            imported_at: self.imported_at@,
            checked_at: opt_view(self.checked_at),
            last_update_count: self.last_update_count,
            skills: self.skills@.map_values(|s: String| s@),
        }
    }
}

/// The label when it is present and not blank, else the URL.
pub open spec fn spec_display_name(r: SpecSourceRecord) -> Seq<char> {
    match r.name {
        Some(n) => if trim(n).len() > 0 {
            n
        } else {
            r.url
        },
        None => r.url,
    }
}

impl SourceRecord {
    /// Display name: the label, or the URL when the label is missing or blank.
    pub fn display_name(&self) -> (s: &str)
        ensures
            s@ == spec_display_name(self@),
    {
        match &self.name {
            Some(n) => {
                if trim_vec(&str_chars(n.as_str())).len() > 0 {
                    n.as_str()
                } else {
                    self.url.as_str()
                }
            },
            None => self.url.as_str(),
        }
    }
}

/// The registry.
#[derive(Debug, Clone)]
pub struct SourceRegistry {
    pub schema_version: u32,
    pub sources: Vec<SourceRecord>,
}

pub open spec fn records_view(v: Seq<SourceRecord>) -> Seq<SpecSourceRecord> {
    v.map_values(|r: SourceRecord| r@)
}

impl Default for SourceRegistry {
    fn default() -> (r: SourceRegistry)
        ensures
            r.schema_version == SCHEMA_VERSION,
            r.sources@.len() == 0,
    {
        SourceRegistry { schema_version: SCHEMA_VERSION, sources: Vec::new() }
    }
}

/// Index of the first record with `url`.
pub open spec fn find_index(rs: Seq<SpecSourceRecord>, url: Seq<char>, i: int) -> Option<int>
    decreases rs.len() - i,
{
    if i < 0 || i >= rs.len() {
        None
    } else if rs[i].url == url {
        Some(i)
    } else {
        find_index(rs, url, i + 1)
    }
}

/// The registry after inserting `r`, or replacing the first record with its URL.
pub open spec fn spec_upsert(rs: Seq<SpecSourceRecord>, r: SpecSourceRecord) -> Seq<SpecSourceRecord> {
    match find_index(rs, r.url, 0) {
        Some(k) => rs.update(k, r),
        None => rs.push(r),
    }
}

/// Index of the first record that lists skill `name`.
pub open spec fn skill_index(rs: Seq<SpecSourceRecord>, name: Seq<char>, i: int) -> Option<int>
    decreases rs.len() - i,
{
    if i < 0 || i >= rs.len() {
        None
    } else if rs[i].skills.contains(name) {
        Some(i)
    } else {
        skill_index(rs, name, i + 1)
    }
}

pub open spec fn urls_unique(rs: Seq<SpecSourceRecord>) -> bool {
    forall|i: int, j: int| 0 <= i < j < rs.len() ==> rs[i].url != rs[j].url
}

pub proof fn lemma_find_index_props(rs: Seq<SpecSourceRecord>, url: Seq<char>, i: int)
    requires
        0 <= i,
    ensures
        find_index(rs, url, i) matches Some(k) ==> i <= k < rs.len() && rs[k].url == url && forall|m: int|
            i <= m < k ==> rs[m].url != url,
        find_index(rs, url, i) is None ==> forall|m: int| i <= m < rs.len() ==> rs[m].url != url,
    decreases rs.len() - i,
{
    if i < rs.len() && rs[i].url != url {
        lemma_find_index_props(rs, url, i + 1);
    }
}

/// After an upsert the registry finds the record by its URL, keeps one record per URL,
/// and grows by one record exactly when the URL was new.
pub proof fn law_upsert_then_find(rs: Seq<SpecSourceRecord>, r: SpecSourceRecord)
    requires
        urls_unique(rs),
    ensures
        ({
            let after = spec_upsert(rs, r);
            &&& find_index(after, r.url, 0) matches Some(k) && after[k] == r
            &&& urls_unique(after)
            &&& after.len() == rs.len() + (if find_index(rs, r.url, 0) is Some {
                0int
            } else {
                1int
            })
            &&& forall|m: int| 0 <= m < rs.len() && rs[m].url != r.url ==> #[trigger] after[m] == rs[m]
        }),
{
    lemma_find_index_props(rs, r.url, 0);
    let after = spec_upsert(rs, r);
    lemma_find_index_props(after, r.url, 0);
    match find_index(rs, r.url, 0) {
        Some(k) => {
            assert(after[k] == r);
            assert forall|m: int| 0 <= m < k implies after[m].url != r.url by {
                assert(after[m] == rs[m]);
            }
        },
        None => {
            let n = rs.len() as int;
            assert(after[n] == r);
            assert forall|m: int| 0 <= m < n implies after[m].url != r.url by {
                assert(after[m] == rs[m]);
            }
        },
    }
}

fn clone_opt(o: &Option<String>) -> (r: Option<String>)
    ensures
        opt_view(r) == opt_view(*o),
{
    match o {
        Some(s) => Some(s.clone()),
        None => None,
    }
}

impl SourceRegistry {
    pub open spec fn spec_records(&self) -> Seq<SpecSourceRecord> {
        records_view(self.sources@)
    }

    /// The record with `url`.
    pub fn find(&self, url: &str) -> (r: Option<&SourceRecord>)
        ensures
            match find_index(self.spec_records(), url@, 0) {
                Some(k) => r matches Some(x) && x@ == self.spec_records()[k],
                None => r is None,
            },
    {
        let key = str_chars(url);
        let ghost rv = self.spec_records();
        let mut i: usize = 0;
        while i < self.sources.len()
            invariant
                i <= self.sources.len(),
                rv == self.spec_records(),
                key@ == url@,
                find_index(rv, url@, 0) == find_index(rv, url@, i as int),
            decreases self.sources.len() - i,
        {
            assert(rv[i as int] == self.sources@[i as int]@);
            if eq_vec(&str_chars(self.sources[i].url.as_str()), &key) {
                return Some(&self.sources[i]);
            }
            i = i + 1;
        }
        None
    }

    /// Inserts `record`, or replaces the record with the same URL (URLs stay unique).
    pub fn upsert(&mut self, record: SourceRecord)
        ensures
            final(self).spec_records() == spec_upsert(old(self).spec_records(), record@),
            final(self).schema_version == old(self).schema_version,
    {
        let ghost rv = self.spec_records();
        let key = str_chars(record.url.as_str());
        let mut i: usize = 0;
        while i < self.sources.len()
            invariant
                i <= self.sources.len(),
                rv == self.spec_records(),
                rv == old(self).spec_records(),
                self.schema_version == old(self).schema_version,
                key@ == record.url@,
                find_index(rv, record@.url, 0) == find_index(rv, record@.url, i as int),
            decreases self.sources.len() - i,
        {
            assert(rv[i as int] == self.sources@[i as int]@);
            if eq_vec(&str_chars(self.sources[i].url.as_str()), &key) {
                self.sources.set(i, record);
                assert(self.spec_records() =~= rv.update(i as int, record@));
                return;
            }
            i = i + 1;
        }
        self.sources.push(record);
        assert(self.spec_records() =~= rv.push(record@));
    }

    /// The source a skill name came from (for the UI's source badge).
    pub fn source_of_skill(&self, skill_name: &str) -> (r: Option<&SourceRecord>)
        ensures
            match skill_index(self.spec_records(), skill_name@, 0) {
                Some(k) => r matches Some(x) && x@ == self.spec_records()[k],
                None => r is None,
            },
    {
        let key = str_chars(skill_name);
        let ghost rv = self.spec_records();
        let mut i: usize = 0;
        while i < self.sources.len()
            invariant
                i <= self.sources.len(),
                rv == self.spec_records(),
                key@ == skill_name@,
                skill_index(rv, skill_name@, 0) == skill_index(rv, skill_name@, i as int),
            decreases self.sources.len() - i,
        {
            let rec = &self.sources[i];
            assert(rv[i as int] == rec@);
            let mut j: usize = 0;
            let mut hit = false;
            while j < rec.skills.len()
                invariant
                    j <= rec.skills.len(),
                    key@ == skill_name@,
                    hit ==> rec@.skills.contains(skill_name@),
                    !hit ==> forall|q: int| 0 <= q < j ==> rec@.skills[q] != skill_name@,
                decreases rec.skills.len() - j,
            {
                assert(rec@.skills[j as int] == rec.skills@[j as int]@);
                if eq_vec(&str_chars(rec.skills[j].as_str()), &key) {
                    hit = true;
                }
                j = j + 1;
            }
            if hit {
                return Some(rec);
            }
            i = i + 1;
        }
        None
    }

    /// The registry as loaded: a file that could not be read or parsed counts as
    /// empty, and a schema version of 0 is raised to the current one.
    pub fn loaded(parsed: Option<SourceRegistry>) -> (r: SourceRegistry)
        ensures
            match parsed {
                None => r.schema_version == SCHEMA_VERSION && r.spec_records().len() == 0,
                Some(p) => r.spec_records() == p.spec_records() && r.schema_version == (if p.schema_version == 0 {
                    SCHEMA_VERSION
                } else {
                    p.schema_version
                }),
            },
    {
        match parsed {
            None => {
                let r = SourceRegistry::default();
                assert(r.spec_records() =~= Seq::<SpecSourceRecord>::empty());
                r
            },
            Some(mut p) => {
                if p.schema_version == 0 {
                    p.schema_version = SCHEMA_VERSION;
                }
                p
            },
        }
    }
}

} // verus!
