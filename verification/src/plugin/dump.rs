//! Line-level reading of the `dsh --profile <name> --dump-config` output.
//!
//! Each source segment opens with a `# == <bundle>` (or `# == <bundle>, patched
//! by <overlay>`) comment, followed by that layer's top-level rows `- id: ...`
//! and their two-space row attributes. Only the segment owner, the row id and
//! the row `disabled` are read; config subtrees are skipped. A column-0 line of
//! unknown shape makes the whole parse fail.
pub use crate::mcp::block::MCP_CLIENT_PACKAGE;
use crate::mcp::block::{
    config_scalar_vec, content_base, content_base_vec, lemma_subtree_end_bounds, normalize_vec,
    raw_lines, raw_lines_vec, spec_config_scalar, spec_normalize, spec_unquote, subtree_end,
    subtree_raw, take_config_subtree, unquote_vec,
};
use crate::mcp::entry::{spec_transport_parse, transport_parse_vec, McpTransport};
use crate::text::{
    chars_string, copy_range, decimal, decimal_vec, eq_str, find, find_char, find_str,
    lemma_find_from_props, lines_view, occurs_at, opt_view, push_all, push_str, split_char,
    split_char_vec, split_once_vec, starts_with, starts_with_str, str_chars, trim, trim_start,
    trim_start_vec, trim_vec,
};
use vstd::prelude::*;

verus! {

// ------------------------------------------------------------------ data

/// A row-level `disabled` value.
#[derive(Debug, Clone, PartialEq, Eq)]
pub enum DisabledValue {
    /// A literal `true` / `false`
    Bool(bool),
    /// A `!!js` expression (platform dependent; the launcher never overrides it)
    Expression(String),
}

pub enum SpecDisabled {
    Bool(bool),
    Expression(Seq<char>),
}

impl View for DisabledValue {
    type V = SpecDisabled;

    open spec fn view(&self) -> SpecDisabled {
        match self {
            DisabledValue::Bool(b) => SpecDisabled::Bool(*b),
            DisabledValue::Expression(e) => SpecDisabled::Expression(e@),
        }
    }
}

pub open spec fn opt_disabled_view(o: Option<DisabledValue>) -> Option<SpecDisabled> {
    match o {
        Some(d) => Some(d@),
        None => None,
    }
}

/// One top-level row of the configuration.
#[derive(Debug, Clone, PartialEq, Eq)]
pub struct DumpRow {
    pub id: String,
    pub name: Option<String>,
    pub disabled: Option<DisabledValue>,
}

pub struct SpecDumpRow {
    pub id: Seq<char>,
    pub name: Option<Seq<char>>,
    pub disabled: Option<SpecDisabled>,
}

impl View for DumpRow {
    type V = SpecDumpRow;

    open spec fn view(&self) -> SpecDumpRow {
        SpecDumpRow { id: self.id@, name: opt_view(self.name), disabled: opt_disabled_view(self.disabled) }
    }
}

/// Whether a `disabled` value is a `!!js` expression.
pub open spec fn is_expression(d: Option<SpecDisabled>) -> bool {
    d matches Some(SpecDisabled::Expression(_))
}

/// Effective enablement: no field means enabled, an expression means unknown.
pub open spec fn spec_effective_enabled(d: Option<SpecDisabled>) -> Option<bool> {
    match d {
        None => Some(true),
        Some(SpecDisabled::Bool(v)) => Some(!v),
        Some(SpecDisabled::Expression(_)) => None,
    }
}

impl DumpRow {
    /// Whether `disabled` is controlled by an expression (the launcher refuses to override it).
    pub fn is_expression_controlled(&self) -> (b: bool)
        ensures
            b == is_expression(self@.disabled),
    {
        match &self.disabled {
            Some(DisabledValue::Expression(_)) => true,
            _ => false,
        }
    }

    /// Effective enablement: no `disabled` field means enabled; an expression is unknown (`None`).
    pub fn effective_enabled(&self) -> (r: Option<bool>)
        ensures
            r == spec_effective_enabled(self@.disabled),
    {
        match &self.disabled {
            None => Some(true),
            Some(DisabledValue::Bool(v)) => Some(!*v),
            Some(DisabledValue::Expression(_)) => None,
        }
    }
}

/// One source segment (a bundle layer, or a user patch layer).
#[derive(Debug, Clone, PartialEq, Eq)]
pub struct DumpSection {
    /// First part of the segment label (bundle package name; a file path for a patch layer)
    pub owner: String,
    /// The `patched by` list
    pub patched_by: Vec<String>,
    pub rows: Vec<DumpRow>,
}

pub struct SpecDumpSection {
    pub owner: Seq<char>,
    pub patched_by: Seq<Seq<char>>,
    pub rows: Seq<SpecDumpRow>,
}

pub open spec fn strings_view(v: Seq<String>) -> Seq<Seq<char>> {
    v.map_values(|s: String| s@)
}

pub open spec fn rows_view(v: Seq<DumpRow>) -> Seq<SpecDumpRow> {
    v.map_values(|r: DumpRow| r@)
}

impl View for DumpSection {
    type V = SpecDumpSection;

    open spec fn view(&self) -> SpecDumpSection {
        SpecDumpSection {
            owner: self.owner@,
            patched_by: strings_view(self.patched_by@),
            rows: rows_view(self.rows@),
        }
    }
}

pub open spec fn sections_view(v: Seq<DumpSection>) -> Seq<SpecDumpSection> {
    v.map_values(|s: DumpSection| s@)
}

// ------------------------------------------------------------------ small pieces

/// The non-empty trimmed items of a comma list.
pub open spec fn header_items(parts: Seq<Seq<char>>) -> Seq<Seq<char>>
    decreases parts.len(),
{
    if parts.len() == 0 {
        Seq::empty()
    } else {
        let prev = header_items(parts.drop_last());
        let t = trim(parts.last());
        if t.len() == 0 {
            prev
        } else {
            prev.push(t)
        }
    }
}

pub open spec fn patched_by_sep() -> Seq<char> {
    ", patched by "@
}

/// A segment label split into its owner and its `patched by` list.
pub open spec fn spec_split_header(h: Seq<char>) -> (Seq<char>, Seq<Seq<char>>) {
    match find(h, patched_by_sep()) {
        None => (trim(h), Seq::empty()),
        Some(k) => (
            trim(h.subrange(0, k)),
            header_items(split_char(h.subrange(k + patched_by_sep().len(), h.len() as int), ',')),
        ),
    }
}

fn header_items_vec(parts: &Vec<Vec<char>>) -> (r: Vec<String>)
    ensures
        strings_view(r@) == header_items(lines_view(parts@)),
{
    let mut r: Vec<String> = Vec::new();
    let mut i: usize = 0;
    while i < parts.len()
        invariant
            i <= parts.len(),
            strings_view(r@) == header_items(lines_view(parts@).subrange(0, i as int)),
        decreases parts.len() - i,
    {
        let ghost sub = lines_view(parts@).subrange(0, i + 1);
        assert(sub.drop_last() =~= lines_view(parts@).subrange(0, i as int));
        assert(sub.last() == parts@[i as int]@);
        let t = trim_vec(&parts[i]);
        if t.len() > 0 {
            let ghost prev = r@;
            r.push(chars_string(t.as_slice()));
            assert(strings_view(r@) =~= strings_view(prev).push(t@));
        }
        i = i + 1;
    }
    assert(lines_view(parts@).subrange(0, parts.len() as int) =~= lines_view(parts@));
    r
}

fn split_header(h: &Vec<char>) -> (r: (String, Vec<String>))
    ensures
        r.0@ == spec_split_header(h@).0,
        strings_view(r.1@) == spec_split_header(h@).1,
{
    proof {
        reveal_strlit(", patched by ");
    }
    match find_str(h, ", patched by ") {
        None => {
            let t = trim_vec(h);
            (chars_string(t.as_slice()), Vec::new())
        },
        Some(k) => {
            proof {
                lemma_find_from_props(h@, patched_by_sep(), 0);
                assert(occurs_at(h@, patched_by_sep(), k as int));
            }
            assert(patched_by_sep().len() == 13);
            let hn: usize = h.len();
            assert(k + 13 <= hn);
            let owner = trim_vec(&copy_range(h, 0, k));
            let k2: usize = k + 13;
            let rest = copy_range(h, k2, hn);
            let parts = split_char_vec(&rest, ',');
            (chars_string(owner.as_slice()), header_items_vec(&parts))
        },
    }
}

/// A `disabled` value: `true` / `false` are literals, anything else an expression.
pub open spec fn spec_parse_disabled(v: Seq<char>) -> SpecDisabled {
    if v == "true"@ {
        SpecDisabled::Bool(true)
    } else if v == "false"@ {
        SpecDisabled::Bool(false)
    } else {
        SpecDisabled::Expression(v)
    }
}

fn parse_disabled(v: &Vec<char>) -> (r: DisabledValue)
    ensures
        r@ == spec_parse_disabled(v@),
{
    if eq_str(v, "true") {
        DisabledValue::Bool(true)
    } else if eq_str(v, "false") {
        DisabledValue::Bool(false)
    } else {
        DisabledValue::Expression(chars_string(v.as_slice()))
    }
}

/// A line shortened to 120 characters (with an ellipsis) for error messages.
pub open spec fn spec_truncate(line: Seq<char>) -> Seq<char> {
    if line.len() <= 120 {
        line
    } else {
        line.subrange(0, 120).push('…')
    }
}

fn truncate_vec(line: &Vec<char>) -> (r: Vec<char>)
    ensures
        r@ == spec_truncate(line@),
{
    if line.len() <= 120 {
        copy_range(line, 0, line.len())
    } else {
        let mut r = copy_range(line, 0, 120);
        r.push('…');
        r
    }
}

// ------------------------------------------------------------------ parse_dump

pub open spec fn msg_unknown_top(n: nat, t: Seq<char>) -> Seq<char> {
    "dump 第 "@ + decimal(n) + " 行为未知的顶层语法（期望 `- id: ...`）："@ + spec_truncate(t)
}

pub open spec fn msg_no_section(n: nat) -> Seq<char> {
    "dump 第 "@ + decimal(n) + " 行出现顶层行但此前没有任何 `# == ` 来源段"@
}

pub open spec fn msg_attr_without_row(n: nat, t: Seq<char>) -> Seq<char> {
    "dump 第 "@ + decimal(n) + " 行出现行属性但没有对应的顶层行："@ + spec_truncate(t)
}

pub open spec fn msg_not_key_value(n: nat, t: Seq<char>) -> Seq<char> {
    "dump 第 "@ + decimal(n) + " 行不是 `key: value` 形态："@ + spec_truncate(t)
}

fn line_msg(n: usize, mid: &str, tail: &Vec<char>) -> (m: Vec<char>)
    ensures
        m@ == "dump 第 "@ + decimal(n as nat) + mid@ + tail@,
{
    let mut m: Vec<char> = Vec::new();
    push_str(&mut m, "dump 第 ");
    let d = decimal_vec(n);
    push_all(&mut m, &d);
    push_str(&mut m, mid);
    push_all(&mut m, tail);
    m
}

pub open spec fn with_last_row(secs: Seq<SpecDumpSection>, r: SpecDumpRow) -> Seq<SpecDumpSection> {
    let s = secs.last();
    secs.update(
        secs.len() - 1,
        SpecDumpSection { owner: s.owner, patched_by: s.patched_by, rows: s.rows.update(s.rows.len() - 1, r) },
    )
}

pub open spec fn with_new_row(secs: Seq<SpecDumpSection>, r: SpecDumpRow) -> Seq<SpecDumpSection> {
    let s = secs.last();
    secs.update(
        secs.len() - 1,
        SpecDumpSection { owner: s.owner, patched_by: s.patched_by, rows: s.rows.push(r) },
    )
}

pub open spec fn last_row(secs: Seq<SpecDumpSection>) -> SpecDumpRow {
    secs.last().rows.last()
}

/// One line of the dump applied to the parse state (sections so far, whether a row is open).
pub open spec fn dump_step(secs: Seq<SpecDumpSection>, has_row: bool, n: nat, t: Seq<char>) -> Result<
    (Seq<SpecDumpSection>, bool),
    Seq<char>,
> {
    if trim(t).len() == 0 {
        Ok((secs, has_row))
    } else if starts_with(t, "# == "@) {
        let (owner, patched_by) = spec_split_header(t.subrange(5, t.len() as int));
        Ok((secs.push(SpecDumpSection { owner, patched_by, rows: Seq::empty() }), false))
    } else if starts_with(t, "#"@) {
        Ok((secs, has_row))
    } else if !starts_with(t, " "@) {
        if !starts_with(t, "- id: "@) {
            Err(msg_unknown_top(n, t))
        } else if secs.len() == 0 {
            Err(msg_no_section(n))
        } else {
            let row = SpecDumpRow { id: spec_unquote(t.subrange(6, t.len() as int)), name: None, disabled: None };
            Ok((with_new_row(secs, row), true))
        }
    } else if starts_with(t, "  "@) && !starts_with(t, "   "@) {
        if !has_row {
            Err(msg_attr_without_row(n, t))
        } else {
            let ts = trim_start(t);
            match find_char(ts, ':') {
                None => Err(msg_not_key_value(n, t)),
                Some(k) => {
                    let key = ts.subrange(0, k);
                    let value = trim(ts.subrange(k + 1, ts.len() as int));
                    let r = last_row(secs);
                    if key == "name"@ {
                        Ok((with_last_row(secs, SpecDumpRow { id: r.id, name: Some(spec_unquote(value)), disabled: r.disabled }), true))
                    } else if key == "disabled"@ {
                        Ok((with_last_row(secs, SpecDumpRow { id: r.id, name: r.name, disabled: Some(spec_parse_disabled(value)) }), true))
                    } else {
                        Ok((secs, true))
                    }
                },
            }
        }
    } else {
        Ok((secs, has_row))
    }
}

/// The dump lines from `i` on, applied in order; the first failing line decides the error.
pub open spec fn dump_fold(ls: Seq<Seq<char>>, i: int, secs: Seq<SpecDumpSection>, has_row: bool) -> Result<
    Seq<SpecDumpSection>,
    Seq<char>,
>
    decreases ls.len() - i,
{
    if i < 0 || i >= ls.len() {
        Ok(secs)
    } else {
        match dump_step(secs, has_row, (i + 1) as nat, ls[i]) {
            Err(e) => Err(e),
            Ok((s2, h2)) => dump_fold(ls, i + 1, s2, h2),
        }
    }
}

pub open spec fn spec_parse_dump(text: Seq<char>) -> Result<Seq<SpecDumpSection>, Seq<char>> {
    dump_fold(raw_lines(text), 0, Seq::empty(), false)
}

pub open spec fn open_row_ok(secs: Seq<SpecDumpSection>, has_row: bool) -> bool {
    has_row ==> secs.len() > 0 && secs.last().rows.len() > 0
}

proof fn lemma_step_keeps_open_row(secs: Seq<SpecDumpSection>, has_row: bool, n: nat, t: Seq<char>)
    requires
        open_row_ok(secs, has_row),
    ensures
        dump_step(secs, has_row, n, t) matches Ok((s2, h2)) ==> open_row_ok(s2, h2),
{
}

fn dump_step_exec(secs: Vec<DumpSection>, has_row: bool, n: usize, t: &Vec<char>) -> (r: Result<
    (Vec<DumpSection>, bool),
    Vec<char>,
>)
    requires
        open_row_ok(sections_view(secs@), has_row),
    ensures
        match dump_step(sections_view(secs@), has_row, n as nat, t@) {
            Ok((s2, h2)) => r matches Ok(p) && sections_view(p.0@) == s2 && p.1 == h2,
            Err(e) => r matches Err(m) && m@ == e,
        },
{
    let ghost sv = sections_view(secs@);
    let mut secs = secs;
    let tt = trim_vec(t);
    if tt.len() == 0 {
        return Ok((secs, has_row));
    }
    if starts_with_str(t, "# == ") {
        proof {
            reveal_strlit("# == ");
        }
        let h = copy_range(t, 5, t.len());
        let (owner, patched_by) = split_header(&h);
        let sec = DumpSection { owner, patched_by, rows: Vec::new() };
        secs.push(sec);
        assert(sections_view(secs@) =~= sv.push(sec@));
        assert(sec@.rows =~= Seq::<SpecDumpRow>::empty());
        return Ok((secs, false));
    }
    if starts_with_str(t, "#") {
        return Ok((secs, has_row));
    }
    if !starts_with_str(t, " ") {
        if !starts_with_str(t, "- id: ") {
            let tr = truncate_vec(t);
            return Err(line_msg(n, " 行为未知的顶层语法（期望 `- id: ...`）：", &tr));
        }
        if secs.len() == 0 {
            let empty: Vec<char> = Vec::new();
            let m = line_msg(n, " 行出现顶层行但此前没有任何 `# == ` 来源段", &empty);
            assert(m@ =~= msg_no_section(n as nat));
            return Err(m);
        }
        proof {
            reveal_strlit("- id: ");
        }
        let idv = unquote_vec(&copy_range(t, 6, t.len()));
        let row = DumpRow { id: chars_string(idv.as_slice()), name: None, disabled: None };
        let mut sec = secs.pop().unwrap();
        assert(sections_view(secs@) =~= sv.drop_last());
        let ghost before_rows = sec.rows@;
        sec.rows.push(row);
        assert(rows_view(sec.rows@) =~= rows_view(before_rows).push(row@));
        secs.push(sec);
        assert(sections_view(secs@) =~= with_new_row(sv, row@));
        return Ok((secs, true));
    }
    if starts_with_str(t, "  ") && !starts_with_str(t, "   ") {
        if !has_row {
            let tr = truncate_vec(t);
            return Err(line_msg(n, " 行出现行属性但没有对应的顶层行：", &tr));
        }
        let ts = trim_start_vec(t);
        match split_once_vec(&ts, ':') {
            None => {
                let tr = truncate_vec(t);
                return Err(line_msg(n, " 行不是 `key: value` 形态：", &tr));
            },
            Some((key, rest)) => {
                let value = trim_vec(&rest);
                let is_name = eq_str(&key, "name");
                let is_disabled = eq_str(&key, "disabled");
                if !is_name && !is_disabled {
                    return Ok((secs, true));
                }
                let ghost sec0 = secs@.last();
                let mut sec = secs.pop().unwrap();
                assert(sections_view(secs@) =~= sv.drop_last());
                let mut row = sec.rows.pop().unwrap();
                let ghost before_rows = sec.rows@;
                assert(rows_view(sec0.rows@) =~= rows_view(before_rows).push(row@));
                if is_name {
                    let u = unquote_vec(&value);
                    row.name = Some(chars_string(u.as_slice()));
                } else {
                    row.disabled = Some(parse_disabled(&value));
                }
                sec.rows.push(row);
                assert(rows_view(sec.rows@) =~= rows_view(before_rows).push(row@));
                assert(rows_view(sec.rows@) =~= sv.last().rows.update(sv.last().rows.len() - 1, row@));
                secs.push(sec);
                assert(sections_view(secs@) =~= with_last_row(sv, row@));
                return Ok((secs, true));
            },
        }
    }
    Ok((secs, has_row))
}

/// Parses the dump text. An error means the format contract is broken; callers
/// fall back to a read-only display.
pub fn parse_dump(text: &str) -> (r: Result<Vec<DumpSection>, String>)
    ensures
        r is Ok <==> spec_parse_dump(text@) is Ok,
        r matches Ok(v) ==> spec_parse_dump(text@) == Ok::<Seq<SpecDumpSection>, Seq<char>>(sections_view(v@)),
        r matches Err(m) ==> spec_parse_dump(text@) == Err::<Seq<SpecDumpSection>, Seq<char>>(m@),
{
    let chars = str_chars(text);
    let ls = raw_lines_vec(&chars);
    let ghost lv = lines_view(ls@);
    let mut secs: Vec<DumpSection> = Vec::new();
    let mut has_row = false;
    let mut i: usize = 0;
    assert(sections_view(secs@) =~= Seq::<SpecDumpSection>::empty());
    while i < ls.len()
        invariant
            i <= ls.len(),
            lv == lines_view(ls@),
            lv == raw_lines(text@),
            open_row_ok(sections_view(secs@), has_row),
            spec_parse_dump(text@) == dump_fold(lv, i as int, sections_view(secs@), has_row),
        decreases ls.len() - i,
    {
        assert(lv[i as int] == ls@[i as int]@);
        proof {
            lemma_step_keeps_open_row(sections_view(secs@), has_row, (i + 1) as nat, lv[i as int]);
        }
        match dump_step_exec(secs, has_row, i + 1, &ls[i]) {
            Err(m) => {
                return Err(chars_string(m.as_slice()));
            },
            Ok((s2, h2)) => {
                secs = s2;
                has_row = h2;
            },
        }
        i = i + 1;
    }
    Ok(secs)
}

// ------------------------------------------------------------------ index and owners

/// Every row with the owner of its segment, in dump order.
pub open spec fn owned_rows(secs: Seq<SpecDumpSection>) -> Seq<(Seq<char>, SpecDumpRow)>
    decreases secs.len(),
{
    if secs.len() == 0 {
        Seq::empty()
    } else {
        let s = secs.last();
        owned_rows(secs.drop_last()) + owner_pairs(s.owner, s.rows)
    }
}

pub open spec fn owner_pairs(owner: Seq<char>, rows: Seq<SpecDumpRow>) -> Seq<(Seq<char>, SpecDumpRow)> {
    rows.map_values(|r: SpecDumpRow| (owner, r))
}

pub open spec fn row_ids(rows: Seq<SpecDumpRow>) -> Seq<Seq<char>> {
    rows.map_values(|r: SpecDumpRow| r.id)
}

pub open spec fn pairs_view(v: Seq<(String, DumpRow)>) -> Seq<(Seq<char>, SpecDumpRow)> {
    v.map_values(|p: (String, DumpRow)| pair_view(p))
}

/// Row id to (owner, row); a later occurrence of an id replaces an earlier one.
pub open spec fn index_map(pairs: Seq<(Seq<char>, SpecDumpRow)>) -> Map<Seq<char>, (Seq<char>, SpecDumpRow)>
    decreases pairs.len(),
{
    if pairs.len() == 0 {
        Map::empty()
    } else {
        index_map(pairs.drop_last()).insert(pairs.last().1.id, pairs.last())
    }
}

/// Row id index over the parsed sections.
pub struct DumpIndex {
    entries: Vec<(String, DumpRow)>,
}

pub open spec fn pair_view(p: (String, DumpRow)) -> (Seq<char>, SpecDumpRow) {
    (p.0@, p.1@)
}

impl DumpIndex {
    pub closed spec fn pairs(&self) -> Seq<(Seq<char>, SpecDumpRow)> {
        pairs_view(self.entries@)
    }

    /// What the index maps each row id to.
    pub open spec fn spec_map(&self) -> Map<Seq<char>, (Seq<char>, SpecDumpRow)> {
        index_map(self.pairs())
    }

    /// The owner and row recorded for `id`.
    pub fn get(&self, id: &str) -> (r: Option<&(String, DumpRow)>)
        ensures
            r is None <==> !self.spec_map().contains_key(id@),
            r matches Some(p) ==> self.spec_map()[id@] == pair_view(*p),
    {
        let key = str_chars(id);
        let ghost pv = self.pairs();
        let mut j: usize = self.entries.len();
        while j > 0
            invariant
                j <= self.entries.len(),
                pv == self.pairs(),
                pv.len() == self.entries.len(),
                forall|m: int| j <= m < pv.len() ==> pv[m].1.id != key@,
                key@ == id@,
            decreases j,
        {
            let e = &self.entries[j - 1];
            assert(pv[j - 1] == pair_view(*e));
            let ids = str_chars(e.1.id.as_str());
            if crate::text::eq_vec(&ids, &key) {
                proof {
                    lemma_index_map_suffix(pv, key@, j as int);
                    let t = pv.take(j as int);
                    assert(t.drop_last() =~= pv.take(j - 1));
                    assert(t.last() == pv[j - 1]);
                    assert(pv[j - 1].1.id == key@);
                    assert(index_map(t) == index_map(t.drop_last()).insert(key@, pv[j - 1]));
                    assert(index_map(t).contains_key(key@));
                    assert(index_map(pv).contains_key(key@));
                    assert(self.spec_map() == index_map(pv));
                    assert(key@ == id@);
                }
                return Some(e);
            }
            j = j - 1;
        }
        proof {
            lemma_index_map_suffix(pv, key@, 0);
            assert(pv.take(0) =~= Seq::<(Seq<char>, SpecDumpRow)>::empty());
        }
        None
    }
}

/// With no occurrence of `id` after position `j`, the index agrees with the index of the first `j` rows.
proof fn lemma_index_map_suffix(pairs: Seq<(Seq<char>, SpecDumpRow)>, id: Seq<char>, j: int)
    requires
        0 <= j <= pairs.len(),
        forall|m: int| j <= m < pairs.len() ==> pairs[m].1.id != id,
    ensures
        index_map(pairs).contains_key(id) == index_map(pairs.take(j)).contains_key(id),
        index_map(pairs).contains_key(id) ==> index_map(pairs)[id] == index_map(pairs.take(j))[id],
    decreases pairs.len(),
{
    if j == pairs.len() {
        assert(pairs.take(j) =~= pairs);
    } else {
        let d = pairs.drop_last();
        assert(d.take(j) =~= pairs.take(j));
        lemma_index_map_suffix(d, id, j);
    }
}

fn clone_disabled(d: &Option<DisabledValue>) -> (r: Option<DisabledValue>)
    ensures
        opt_disabled_view(r) == opt_disabled_view(*d),
{
    match d {
        None => None,
        Some(DisabledValue::Bool(b)) => Some(DisabledValue::Bool(*b)),
        Some(DisabledValue::Expression(e)) => Some(DisabledValue::Expression(e.clone())),
    }
}

fn clone_row(r: &DumpRow) -> (c: DumpRow)
    ensures
        c@ == r@,
{
    let name = match &r.name {
        None => None,
        Some(n) => Some(n.clone()),
    };
    DumpRow { id: r.id.clone(), name, disabled: clone_disabled(&r.disabled) }
}

/// Row id to the owner of the segment that holds it (when an id occurs in several
/// segments the last one wins, as the loader's id override does).
pub fn index_by_id(sections: &[DumpSection]) -> (idx: DumpIndex)
    ensures
        idx.spec_map() == index_map(owned_rows(sections_view(sections@))),
{
    let mut entries: Vec<(String, DumpRow)> = Vec::new();
    let ghost sv = sections_view(sections@);
    let mut i: usize = 0;
    while i < sections.len()
        invariant
            i <= sections.len(),
            sv == sections_view(sections@),
            pairs_view(entries@) == owned_rows(sv.take(i as int)),
        decreases sections.len() - i,
    {
        let sec = &sections[i];
        assert(sv[i as int] == sec@);
        assert(sv.take(i + 1).drop_last() =~= sv.take(i as int));
        let ghost base = pairs_view(entries@);
        let ghost srows = sec@.rows;
        let ghost sowner = sec@.owner;
        let mut k: usize = 0;
        while k < sec.rows.len()
            invariant
                k <= sec.rows.len(),
                srows == rows_view(sec.rows@),
                sowner == sec.owner@,
                pairs_view(entries@) == base + owner_pairs(sowner, srows.take(k as int)),
            decreases sec.rows.len() - k,
        {
            let ghost prev = entries@;
            let row = clone_row(&sec.rows[k]);
            assert(srows[k as int] == sec.rows@[k as int]@);
            let o = sec.owner.clone();
            entries.push((o, row));
            assert(pairs_view(entries@) =~= pairs_view(prev).push((sowner, srows[k as int])));
            assert(owner_pairs(sowner, srows.take(k + 1)) =~= owner_pairs(sowner, srows.take(k as int)).push((sowner, srows[k as int])));
            k = k + 1;
        }
        assert(srows.take(sec.rows.len() as int) =~= srows);
        i = i + 1;
    }
    assert(sv.take(sections.len() as int) =~= sv);
    DumpIndex { entries }
}

/// Row ids contributed by the segments of `owner`, in order.
pub open spec fn owner_row_ids(secs: Seq<SpecDumpSection>, owner: Seq<char>) -> Seq<Seq<char>>
    decreases secs.len(),
{
    if secs.len() == 0 {
        Seq::empty()
    } else {
        let s = secs.last();
        owner_row_ids(secs.drop_last(), owner) + (if s.owner == owner {
            row_ids(s.rows)
        } else {
            Seq::empty()
        })
    }
}

/// All row ids that the segments of `owner` contribute.
pub fn rows_of_owner(sections: &[DumpSection], owner: &str) -> (ids: Vec<String>)
    ensures
        strings_view(ids@) == owner_row_ids(sections_view(sections@), owner@),
{
    let mut ids: Vec<String> = Vec::new();
    let ghost sv = sections_view(sections@);
    let mut i: usize = 0;
    while i < sections.len()
        invariant
            i <= sections.len(),
            sv == sections_view(sections@),
            strings_view(ids@) == owner_row_ids(sv.take(i as int), owner@),
        decreases sections.len() - i,
    {
        let sec = &sections[i];
        assert(sv[i as int] == sec@);
        assert(sv.take(i + 1).drop_last() =~= sv.take(i as int));
        let same = crate::text::eq_vec(&str_chars(sec.owner.as_str()), &str_chars(owner));
        if same {
            let ghost base = strings_view(ids@);
            let ghost srows = sec@.rows;
            let mut k: usize = 0;
            while k < sec.rows.len()
                invariant
                    k <= sec.rows.len(),
                    srows == rows_view(sec.rows@),
                    strings_view(ids@) == base + row_ids(srows.take(k as int)),
                decreases sec.rows.len() - k,
            {
                assert(srows[k as int] == sec.rows@[k as int]@);
                let ghost prev = ids@;
                ids.push(sec.rows[k].id.clone());
                assert(strings_view(ids@) =~= strings_view(prev).push(srows[k as int].id));
                assert(row_ids(srows.take(k + 1)) =~= row_ids(srows.take(k as int)).push(srows[k as int].id));
                k = k + 1;
            }
            assert(srows.take(sec.rows.len() as int) =~= srows);
        } else {
            assert(owner_row_ids(sv.take(i + 1), owner@) =~= owner_row_ids(sv.take(i as int), owner@));
        }
        i = i + 1;
    }
    assert(sv.take(sections.len() as int) =~= sv);
    ids
}

// ------------------------------------------------------------------ MCP rows

/// One MCP server row of the composed tree.
#[derive(Debug, Clone, PartialEq, Eq)]
pub struct McpRow {
    /// Row id
    pub row_id: String,
    /// Label of the dump segment the row sits in: the layer that declares it
    pub section_owner: String,
    /// Effective `disabled` (`None`: no such field, enabled by default)
    pub disabled: Option<DisabledValue>,
    /// Raw `config` subtree, normalised to a two-space first level, without the `config:` line
    pub config_raw: String,
}

pub struct SpecMcpRow {
    pub row_id: Seq<char>,
    pub section_owner: Seq<char>,
    pub disabled: Option<SpecDisabled>,
    pub config_raw: Seq<char>,
}

impl View for McpRow {
    type V = SpecMcpRow;

    open spec fn view(&self) -> SpecMcpRow {
        SpecMcpRow {
            row_id: self.row_id@,
            section_owner: self.section_owner@,
            disabled: opt_disabled_view(self.disabled),
            config_raw: self.config_raw@,
        }
    }
}

pub open spec fn raw_transport(raw: Seq<char>) -> Option<McpTransport> {
    match spec_config_scalar(raw, "transport"@) {
        Some(v) => spec_transport_parse(v),
        None => None,
    }
}

pub open spec fn dash() -> Seq<char> {
    "-"@
}

/// Read-only summary: `url` for streamable-http, `command` and its args for stdio.
pub open spec fn spec_summary(raw: Seq<char>) -> Seq<char> {
    match raw_transport(raw) {
        Some(McpTransport::StreamableHttp) => match spec_config_scalar(raw, "url"@) {
            Some(u) => u,
            None => dash(),
        },
        Some(McpTransport::Stdio) => {
            let command = match spec_config_scalar(raw, "command"@) {
                Some(c) => c,
                None => dash(),
            };
            match spec_args_render(raw) {
                Some(args) => if args.len() > 0 {
                    command + " "@ + crate::text::join(args, " "@)
                } else {
                    command
                },
                None => command,
            }
        },
        None => dash(),
    }
}

fn scalar_of(raw: &Vec<char>, key: &str) -> (r: Option<Vec<char>>)
    ensures
        crate::text::opt_vec_view(r) == spec_config_scalar(raw@, key@),
{
    config_scalar_vec(raw, &str_chars(key))
}

fn scalar_or_dash(raw: &Vec<char>, key: &str) -> (r: Vec<char>)
    ensures
        r@ == (match spec_config_scalar(raw@, key@) {
            Some(v) => v,
            None => dash(),
        }),
{
    match scalar_of(raw, key) {
        Some(v) => v,
        None => str_chars("-"),
    }
}

fn raw_transport_vec(raw: &Vec<char>) -> (r: Option<McpTransport>)
    ensures
        r == raw_transport(raw@),
{
    match scalar_of(raw, "transport") {
        Some(v) => transport_parse_vec(&v),
        None => None,
    }
}

impl McpRow {
    /// `config.serverName` (read-only view)
    pub fn server_name(&self) -> (r: Option<String>)
        ensures
            opt_view(r) == spec_config_scalar(self.config_raw@, "serverName"@),
    {
        crate::mcp::block::config_scalar(self.config_raw.as_str(), "serverName")
    }

    /// `config.transport` (read-only view)
    pub fn transport(&self) -> (r: Option<McpTransport>)
        ensures
            r == raw_transport(self.config_raw@),
    {
        raw_transport_vec(&str_chars(self.config_raw.as_str()))
    }

    /// Whether `config.failOnStartupError` is the literal `true` (it can abort the harness start).
    pub fn fail_on_startup_error_is_literal_true(&self) -> (b: bool)
        ensures
            b == (spec_config_scalar(self.config_raw@, "failOnStartupError"@) == Some("true"@)),
    {
        match scalar_of(&str_chars(self.config_raw.as_str()), "failOnStartupError") {
            Some(v) => eq_str(&v, "true"),
            None => false,
        }
    }

    /// Read-only summary: stdio gives `command` and its args, streamable-http its `url`.
    pub fn summary(&self) -> (s: String)
        ensures
            s@ == spec_summary(self.config_raw@),
    {
        let raw = str_chars(self.config_raw.as_str());
        let r = match raw_transport_vec(&raw) {
            Some(McpTransport::StreamableHttp) => scalar_or_dash(&raw, "url"),
            Some(McpTransport::Stdio) => {
                let command = scalar_or_dash(&raw, "command");
                match args_render_vec(&raw) {
                    Some(args) => {
                        if args.len() > 0 {
                            let mut out = command;
                            out.push(' ');
                            let sep = str_chars(" ");
                            let joined = crate::text::join_lines(&args, &sep);
                            push_all(&mut out, &joined);
                            proof {
                                reveal_strlit(" ");
                            }
                            out
                        } else {
                            command
                        }
                    },
                    None => command,
                }
            },
            None => str_chars("-"),
        };
        chars_string(r.as_slice())
    }

    /// Whether `disabled` is a `!!js` expression (the launcher refuses to override it).
    pub fn is_expression_controlled(&self) -> (b: bool)
        ensures
            b == is_expression(self@.disabled),
    {
        match &self.disabled {
            Some(DisabledValue::Expression(_)) => true,
            _ => false,
        }
    }
}

// ------------------------------------------------------------------ args

pub open spec fn is_quote(c: char) -> bool {
    c == '\'' || c == '"'
}

pub open spec fn quote_end_from(s: Seq<char>, i: int) -> int
    decreases s.len() - i,
{
    if 0 <= i < s.len() && is_quote(s[i]) {
        quote_end_from(s, i + 1)
    } else {
        i
    }
}

pub open spec fn quote_start_back(s: Seq<char>, a: int, j: int) -> int
    decreases j,
{
    if 0 <= a < j && j <= s.len() && is_quote(s[j - 1]) {
        quote_start_back(s, a, j - 1)
    } else {
        j
    }
}

/// `s` without its leading and trailing quote characters.
pub open spec fn trim_quotes(s: Seq<char>) -> Seq<char> {
    let a = quote_end_from(s, 0);
    s.subrange(a, quote_start_back(s, a, s.len() as int))
}

proof fn lemma_quote_bounds(s: Seq<char>, i: int, a: int, j: int)
    requires
        0 <= i <= s.len(),
        0 <= a <= j <= s.len(),
    ensures
        i <= quote_end_from(s, i) <= s.len(),
        a <= quote_start_back(s, a, j) <= j,
    decreases s.len() - i + j,
{
    if i < s.len() && is_quote(s[i]) {
        lemma_quote_bounds(s, i + 1, a, j);
    } else if a < j && is_quote(s[j - 1]) {
        lemma_quote_bounds(s, i, a, j - 1);
    }
}

fn trim_quotes_vec(s: &Vec<char>) -> (r: Vec<char>)
    ensures
        r@ == trim_quotes(s@),
{
    let mut a: usize = 0;
    while a < s.len() && (s[a] == '\'' || s[a] == '"')
        invariant
            a <= s.len(),
            quote_end_from(s@, 0) == quote_end_from(s@, a as int),
        decreases s.len() - a,
    {
        a = a + 1;
    }
    let mut b: usize = s.len();
    while a < b && (s[b - 1] == '\'' || s[b - 1] == '"')
        invariant
            a <= b <= s.len(),
            a == quote_end_from(s@, 0),
            quote_start_back(s@, a as int, s@.len() as int) == quote_start_back(s@, a as int, b as int),
        decreases b,
    {
        b = b - 1;
    }
    copy_range(s, a, b)
}

/// Items of a flow sequence list, trimmed, unquoted, empty ones dropped.
pub open spec fn flow_items(parts: Seq<Seq<char>>) -> Seq<Seq<char>>
    decreases parts.len(),
{
    if parts.len() == 0 {
        Seq::empty()
    } else {
        let prev = flow_items(parts.drop_last());
        let t = trim_quotes(trim(parts.last()));
        if t.len() == 0 {
            prev
        } else {
            prev.push(t)
        }
    }
}

/// The inside of `[...]`, or the text itself when it is not bracketed.
pub open spec fn unbracket(inline: Seq<char>) -> Seq<char> {
    if inline.len() >= 2 && inline[0] == '[' && inline.last() == ']' {
        inline.subrange(1, inline.len() - 1)
    } else {
        inline
    }
}

/// The `- item` lines that follow an `args:` key, deeper than `base`.
pub open spec fn block_items(ls: Seq<Seq<char>>, base: int, j: int) -> Seq<Seq<char>>
    decreases ls.len() - j,
{
    if j < 0 || j >= ls.len() || crate::text::indent(ls[j]) <= base {
        Seq::empty()
    } else {
        let t = trim_start(ls[j]);
        let here = if starts_with(t, "- "@) {
            seq![trim_quotes(trim(t.subrange(2, t.len() as int)))]
        } else {
            Seq::empty()
        };
        here + block_items(ls, base, j + 1)
    }
}

/// The first `args:` key at the base indentation, from line `i` on.
pub open spec fn args_from(ls: Seq<Seq<char>>, base: int, i: int) -> Option<Seq<Seq<char>>>
    decreases ls.len() - i,
{
    if i < 0 || i >= ls.len() {
        None
    } else {
        let t = trim_start(ls[i]);
        if crate::text::indent(ls[i]) != base || !starts_with(t, "args:"@) {
            args_from(ls, base, i + 1)
        } else {
            let inline = trim(t.subrange(5, t.len() as int));
            if inline.len() > 0 {
                Some(flow_items(split_char(unbracket(inline), ',')))
            } else {
                Some(block_items(ls, base, i + 1))
            }
        }
    }
}

/// Read-only view of `args` (a flow sequence `[a, b]` or a block sequence of `- a` lines).
pub open spec fn spec_args_render(raw: Seq<char>) -> Option<Seq<Seq<char>>> {
    let ls = raw_lines(raw);
    args_from(ls, content_base(ls), 0)
}

fn flow_items_vec(parts: &Vec<Vec<char>>) -> (r: Vec<Vec<char>>)
    ensures
        lines_view(r@) == flow_items(lines_view(parts@)),
{
    let mut r: Vec<Vec<char>> = Vec::new();
    let mut i: usize = 0;
    while i < parts.len()
        invariant
            i <= parts.len(),
            lines_view(r@) == flow_items(lines_view(parts@).subrange(0, i as int)),
        decreases parts.len() - i,
    {
        let ghost sub = lines_view(parts@).subrange(0, i + 1);
        assert(sub.drop_last() =~= lines_view(parts@).subrange(0, i as int));
        assert(sub.last() == parts@[i as int]@);
        let t = trim_quotes_vec(&trim_vec(&parts[i]));
        if t.len() > 0 {
            let ghost prev = r@;
            r.push(t);
            proof {
                crate::text::lemma_lines_view_push(prev, t);
            }
        }
        i = i + 1;
    }
    assert(lines_view(parts@).subrange(0, parts.len() as int) =~= lines_view(parts@));
    r
}

fn block_items_vec(ls: &Vec<Vec<char>>, base: usize, start: usize) -> (r: Vec<Vec<char>>)
    requires
        start <= ls.len(),
    ensures
        lines_view(r@) == block_items(lines_view(ls@), base as int, start as int),
{
    let ghost lv = lines_view(ls@);
    let mut r: Vec<Vec<char>> = Vec::new();
    let mut j: usize = start;
    while j < ls.len()
        invariant
            start <= j <= ls.len(),
            lv == lines_view(ls@),
            block_items(lv, base as int, start as int) == lines_view(r@) + block_items(lv, base as int, j as int),
        decreases ls.len() - j,
    {
        assert(lv[j as int] == ls@[j as int]@);
        if crate::text::indent_of(&ls[j]) <= base {
            assert(lines_view(r@) + block_items(lv, base as int, j as int) =~= lines_view(r@));
            return r;
        }
        let t = trim_start_vec(&ls[j]);
        if starts_with_str(&t, "- ") {
            proof {
                reveal_strlit("- ");
            }
            let item = trim_quotes_vec(&trim_vec(&copy_range(&t, 2, t.len())));
            let ghost prev = r@;
            r.push(item);
            proof {
                crate::text::lemma_lines_view_push(prev, item);
            }
            assert(lines_view(r@) + block_items(lv, base as int, j + 1) =~= lines_view(prev) + block_items(lv, base as int, j as int));
        } else {
            assert(lines_view(r@) + block_items(lv, base as int, j + 1) =~= lines_view(r@) + block_items(lv, base as int, j as int));
        }
        j = j + 1;
    }
    assert(lines_view(r@) + block_items(lv, base as int, j as int) =~= lines_view(r@));
    r
}

fn args_render_vec(raw: &Vec<char>) -> (r: Option<Vec<Vec<char>>>)
    ensures
        match spec_args_render(raw@) {
            Some(items) => r matches Some(v) && lines_view(v@) == items,
            None => r is None,
        },
{
    let ls = raw_lines_vec(raw);
    let ghost lv = lines_view(ls@);
    let base = content_base_vec(&ls, 0, ls.len());
    assert(lv.subrange(0, ls.len() as int) =~= lv);
    let mut i: usize = 0;
    while i < ls.len()
        invariant
            i <= ls.len(),
            lv == lines_view(ls@),
            lv == raw_lines(raw@),
            base == content_base(lv),
            spec_args_render(raw@) == args_from(lv, base as int, i as int),
        decreases ls.len() - i,
    {
        assert(lv[i as int] == ls@[i as int]@);
        let t = trim_start_vec(&ls[i]);
        if crate::text::indent_of(&ls[i]) == base && starts_with_str(&t, "args:") {
            proof {
                reveal_strlit("args:");
            }
            let inline = trim_vec(&copy_range(&t, 5, t.len()));
            if inline.len() > 0 {
                let n = inline.len();
                let inner = if n >= 2 && inline[0] == '[' && inline[n - 1] == ']' {
                    copy_range(&inline, 1, n - 1)
                } else {
                    copy_range(&inline, 0, n)
                };
                assert(inner@ =~= unbracket(inline@));
                let parts = split_char_vec(&inner, ',');
                return Some(flow_items_vec(&parts));
            }
            return Some(block_items_vec(&ls, base, i + 1));
        }
        i = i + 1;
    }
    None
}

/// Read-only view of `args` (supports the two official YAML sequence forms).
pub fn args_render(config_raw: &str) -> (r: Option<Vec<String>>)
    ensures
        match spec_args_render(config_raw@) {
            Some(items) => r matches Some(v) && strings_view(v@) == items,
            None => r is None,
        },
{
    match args_render_vec(&str_chars(config_raw)) {
        None => None,
        Some(items) => {
            let mut out: Vec<String> = Vec::new();
            let mut i: usize = 0;
            while i < items.len()
                invariant
                    i <= items.len(),
                    strings_view(out@) == lines_view(items@).subrange(0, i as int),
                decreases items.len() - i,
            {
                let ghost prev = out@;
                assert(lines_view(items@)[i as int] == items@[i as int]@);
                let one = chars_string(items[i].as_slice());
                assert(one@ == items@[i as int]@);
                out.push(one);
                assert(strings_view(out@) =~= strings_view(prev).push(one@));
                assert(strings_view(out@) =~= lines_view(items@).subrange(0, i + 1));
                i = i + 1;
            }
            assert(lines_view(items@).subrange(0, items.len() as int) =~= lines_view(items@));
            Some(out)
        },
    }
}

// ------------------------------------------------------------------ mcp_rows

pub open spec fn mcp_rows_view(v: Seq<McpRow>) -> Seq<SpecMcpRow> {
    v.map_values(|r: McpRow| r@)
}

pub open spec fn mrows_view(v: Seq<(McpRow, bool)>) -> Seq<(SpecMcpRow, bool)> {
    v.map_values(|p: (McpRow, bool)| (p.0@, p.1))
}

pub open spec fn mark_last_mcp(rows: Seq<(SpecMcpRow, bool)>) -> Seq<(SpecMcpRow, bool)> {
    rows.update(rows.len() - 1, (rows.last().0, true))
}

pub open spec fn set_last_disabled(rows: Seq<(SpecMcpRow, bool)>, d: SpecDisabled) -> Seq<(SpecMcpRow, bool)> {
    let r = rows.last().0;
    rows.update(
        rows.len() - 1,
        (SpecMcpRow { row_id: r.row_id, section_owner: r.section_owner, disabled: Some(d), config_raw: r.config_raw }, rows.last().1),
    )
}

pub open spec fn set_last_config(rows: Seq<(SpecMcpRow, bool)>, c: Seq<char>) -> Seq<(SpecMcpRow, bool)> {
    let r = rows.last().0;
    rows.update(
        rows.len() - 1,
        (SpecMcpRow { row_id: r.row_id, section_owner: r.section_owner, disabled: r.disabled, config_raw: c }, rows.last().1),
    )
}

/// The rows confirmed to be official MCP client rows, in order.
pub open spec fn kept_mcp(rows: Seq<(SpecMcpRow, bool)>) -> Seq<SpecMcpRow>
    decreases rows.len(),
{
    if rows.len() == 0 {
        Seq::empty()
    } else {
        kept_mcp(rows.drop_last()) + (if rows.last().1 {
            seq![rows.last().0]
        } else {
            Seq::empty()
        })
    }
}

/// The scan of the dump lines from `i` on: the current segment label, the rows so
/// far with their "official MCP row" flag, and whether a row is open.
pub open spec fn mcp_fold(ls: Seq<Seq<char>>, i: int, owner: Seq<char>, rows: Seq<(SpecMcpRow, bool)>, has_cur: bool) -> Seq<SpecMcpRow>
    decreases ls.len() - i,
{
    if i < 0 || i >= ls.len() {
        kept_mcp(rows)
    } else {
        let line = ls[i];
        if trim(line).len() == 0 {
            mcp_fold(ls, i + 1, owner, rows, has_cur)
        } else if starts_with(line, "# == "@) {
            mcp_fold(ls, i + 1, spec_split_header(line.subrange(5, line.len() as int)).0, rows, false)
        } else if starts_with(line, "#"@) {
            mcp_fold(ls, i + 1, owner, rows, has_cur)
        } else if !starts_with(line, " "@) {
            if starts_with(line, "- id: "@) {
                let row = SpecMcpRow {
                    row_id: spec_unquote(line.subrange(6, line.len() as int)),
                    section_owner: owner,
                    disabled: None,
                    config_raw: Seq::empty(),
                };
                mcp_fold(ls, i + 1, owner, rows.push((row, false)), true)
            } else {
                mcp_fold(ls, i + 1, owner, rows, has_cur)
            }
        } else if starts_with(line, "  "@) && !starts_with(line, "   "@) {
            let t = trim_start(line);
            match find_char(t, ':') {
                None => mcp_fold(ls, i + 1, owner, rows, has_cur),
                Some(k) => {
                    let key = trim(t.subrange(0, k));
                    let value = trim(t.subrange(k + 1, t.len() as int));
                    if key == "name"@ && has_cur {
                        if spec_unquote(value) == MCP_CLIENT_PACKAGE@ {
                            mcp_fold(ls, i + 1, owner, mark_last_mcp(rows), has_cur)
                        } else {
                            mcp_fold(ls, i + 1, owner, rows, has_cur)
                        }
                    } else if key == "disabled"@ && has_cur {
                        mcp_fold(ls, i + 1, owner, set_last_disabled(rows, spec_parse_disabled(value)), has_cur)
                    } else if key == "config"@ && has_cur {
                        let e = subtree_end(ls, crate::text::indent(line), i + 1);
                        proof {
                            lemma_subtree_end_bounds(ls, crate::text::indent(line), i + 1);
                        }
                        mcp_fold(ls, e, owner, set_last_config(rows, spec_normalize(subtree_raw(ls, i, e))), has_cur)
                    } else {
                        mcp_fold(ls, i + 1, owner, rows, has_cur)
                    }
                },
            }
        } else {
            mcp_fold(ls, i + 1, owner, rows, has_cur)
        }
    }
}

pub open spec fn spec_mcp_rows(text: Seq<char>) -> Seq<SpecMcpRow> {
    mcp_fold(raw_lines(text), 0, Seq::empty(), Seq::empty(), false)
}

fn clone_mcp_row(r: &McpRow) -> (c: McpRow)
    ensures
        c@ == r@,
{
    McpRow {
        row_id: r.row_id.clone(),
        section_owner: r.section_owner.clone(),
        disabled: clone_disabled(&r.disabled),
        config_raw: r.config_raw.clone(),
    }
}

/// Takes the last row (with its flag) out of `rows`.
fn pop_last(rows: &mut Vec<(McpRow, bool)>) -> (p: (McpRow, bool))
    requires
        old(rows).len() > 0,
    ensures
        final(rows)@ == old(rows)@.drop_last(),
        p == old(rows)@.last(),
{
    rows.pop().unwrap()
}

/// Every official MCP client row of the composed tree, over all source layers,
/// in segment order.
pub fn mcp_rows(text: &str) -> (out: Vec<McpRow>)
    ensures
        mcp_rows_view(out@) == spec_mcp_rows(text@),
{
    let chars = str_chars(text);
    let ls = raw_lines_vec(&chars);
    let ghost lv = lines_view(ls@);
    let mut rows: Vec<(McpRow, bool)> = Vec::new();
    let mut owner: Vec<char> = Vec::new();
    let mut has_cur = false;
    let mut index: usize = 0;
    assert(mrows_view(rows@) =~= Seq::<(SpecMcpRow, bool)>::empty());
    while index < ls.len()
        invariant
            index <= ls.len(),
            lv == lines_view(ls@),
            lv == raw_lines(text@),
            has_cur ==> rows.len() > 0,
            spec_mcp_rows(text@) == mcp_fold(lv, index as int, owner@, mrows_view(rows@), has_cur),
        decreases ls.len() - index,
    {
        assert(lv[index as int] == ls@[index as int]@);
        let ghost rv = mrows_view(rows@);
        let line = &ls[index];
        if trim_vec(line).len() == 0 {
            index = index + 1;
        } else if starts_with_str(line, "# == ") {
            proof {
                reveal_strlit("# == ");
            }
            let (o, _patched) = split_header(&copy_range(line, 5, line.len()));
            owner = str_chars(o.as_str());
            has_cur = false;
            index = index + 1;
        } else if starts_with_str(line, "#") {
            index = index + 1;
        } else if !starts_with_str(line, " ") {
            if starts_with_str(line, "- id: ") {
                proof {
                    reveal_strlit("- id: ");
                }
                let idv = unquote_vec(&copy_range(line, 6, line.len()));
                let row = McpRow {
                    row_id: chars_string(idv.as_slice()),
                    section_owner: chars_string(owner.as_slice()),
                    disabled: None,
                    config_raw: String::new(),
                };
                rows.push((row, false));
                assert(row@.config_raw =~= Seq::<char>::empty());
                assert(mrows_view(rows@) =~= rv.push((row@, false)));
                has_cur = true;
            }
            index = index + 1;
        } else if starts_with_str(line, "  ") && !starts_with_str(line, "   ") {
            let t = trim_start_vec(line);
            let mut next: usize = index + 1;
            match split_once_vec(&t, ':') {
                None => {},
                Some((key0, rest)) => {
                    let key = trim_vec(&key0);
                    let value = trim_vec(&rest);
                    if has_cur && eq_str(&key, "name") {
                        let u = unquote_vec(&value);
                        if eq_str(&u, MCP_CLIENT_PACKAGE) {
                            let (r, _f) = pop_last(&mut rows);
                            rows.push((r, true));
                            assert(mrows_view(rows@) =~= mark_last_mcp(rv));
                        }
                    } else if has_cur && eq_str(&key, "disabled") {
                        let (mut r, f) = pop_last(&mut rows);
                        r.disabled = Some(parse_disabled(&value));
                        rows.push((r, f));
                        assert(mrows_view(rows@) =~= set_last_disabled(rv, spec_parse_disabled(value@)));
                    } else if has_cur && eq_str(&key, "config") {
                        let (raw, e) = take_config_subtree(&ls, index);
                        let norm = normalize_vec(&raw);
                        let (mut r, f) = pop_last(&mut rows);
                        r.config_raw = chars_string(norm.as_slice());
                        rows.push((r, f));
                        assert(mrows_view(rows@) =~= set_last_config(rv, spec_normalize(raw@)));
                        next = e;
                    }
                },
            }
            index = next;
        } else {
            index = index + 1;
        }
    }
    let ghost rv = mrows_view(rows@);
    let mut out: Vec<McpRow> = Vec::new();
    let mut j: usize = 0;
    while j < rows.len()
        invariant
            j <= rows.len(),
            rv == mrows_view(rows@),
            mcp_rows_view(out@) == kept_mcp(rv.take(j as int)),
        decreases rows.len() - j,
    {
        assert(rv.take(j + 1).drop_last() =~= rv.take(j as int));
        assert(rv[j as int] == (rows@[j as int].0@, rows@[j as int].1));
        if rows[j].1 {
            let ghost prev = out@;
            let c = clone_mcp_row(&rows[j].0);
            out.push(c);
            assert(mcp_rows_view(out@) =~= mcp_rows_view(prev).push(c@));
        } else {
            assert(kept_mcp(rv.take(j + 1)) =~= kept_mcp(rv.take(j as int)));
        }
        j = j + 1;
    }
    assert(rv.take(rows.len() as int) =~= rv);
    out
}

} // verus!
