//! Line-level surgery on the frontmatter of a `SKILL.md`.
//!
//! The frontmatter opens with a first line equal to `---` (a trailing `\r`
//! removed) and closes at the next line equal to `---`. Only the line of the
//! `disable-model-invocation` key is ever touched: it is inserted at column 0
//! before the closing `---`, replaced in place, or deleted with its own line
//! ending; every other character of the text is kept. Anything ambiguous (no
//! frontmatter, no closing line, a repeated key, a value that is not a bare
//! boolean) is refused, and a request for the state the file already has is
//! answered with `Unchanged`.
use crate::text::{
    chars_string, copy_range, find, find_char, find_str, is_whitespace, is_ws, push_all, push_str,
    str_chars, trim, trim_vec,
};
use vstd::prelude::*;

verus! {

/// The canonical key (kebab-case; the camelCase spelling makes dsh drop the skill).
pub const KEY_DISABLE_MODEL_INVOCATION: &'static str = "disable-model-invocation";

/// Why a rewrite was refused.
#[derive(Debug, Clone, Copy, PartialEq, Eq, Structural)]
pub enum WriteError {
    /// The first line is not `---`
    NoFrontmatter,
    /// No closing `---`
    Unterminated,
    /// The key occurs more than once
    DuplicateKey,
    /// The value is not a bare `true` / `false`
    NonPlainBoolean,
}

pub open spec fn write_error_message(e: WriteError) -> Seq<char> {
    match e {
        WriteError::NoFrontmatter => "文件缺少 YAML frontmatter（首行不是 ---）"@,
        WriteError::Unterminated => "frontmatter 未闭合（找不到结束的 ---）"@,
        WriteError::DuplicateKey => "frontmatter 中 disable-model-invocation 出现多次，无法确定修改哪一处"@,
        WriteError::NonPlainBoolean => "disable-model-invocation 的值不是裸 true/false，不猜测其含义"@,
    }
}

impl WriteError {
    /// The user-facing reason.
    pub fn message(self) -> (m: &'static str)
        ensures
            m@ == write_error_message(self),
    {
        match self {
            WriteError::NoFrontmatter => "文件缺少 YAML frontmatter（首行不是 ---）",
            WriteError::Unterminated => "frontmatter 未闭合（找不到结束的 ---）",
            WriteError::DuplicateKey => "frontmatter 中 disable-model-invocation 出现多次，无法确定修改哪一处",
            WriteError::NonPlainBoolean => "disable-model-invocation 的值不是裸 true/false，不猜测其含义",
        }
    }
}

/// The state read from the frontmatter.
#[derive(Debug, Clone, Copy, PartialEq, Eq, Structural)]
pub enum DisableState {
    /// No key: model invocation allowed by default
    Unset,
    /// The key is `false`
    Enabled,
    /// The key is `true`
    Disabled,
    /// The key is repeated or not a bare boolean: read-only
    Conflict,
    /// No frontmatter or no closing line: read-only
    Unreadable,
}

/// The outcome of a rewrite.
#[derive(Debug, Clone, PartialEq, Eq)]
pub enum Toggle {
    /// The requested state holds already: nothing to write
    Unchanged,
    /// The new full text
    Rewritten(String),
}

pub enum SpecToggle {
    Unchanged,
    Rewritten(Seq<char>),
}

impl View for Toggle {
    type V = SpecToggle;

    open spec fn view(&self) -> SpecToggle {
        match self {
            Toggle::Unchanged => SpecToggle::Unchanged,
            Toggle::Rewritten(s) => SpecToggle::Rewritten(s@),
        }
    }
}

// ------------------------------------------------------------------ lines

/// Line ranges `(start, end)` of `s[start..]`, scanning from `i`: a line ends at
/// `\n`, and a `\r` right before the `\n` is left out of the line.
pub open spec fn ranges_from(s: Seq<char>, start: int, i: int) -> Seq<(int, int)>
    decreases s.len() - i,
{
    if i < 0 || i >= s.len() {
        if start < s.len() {
            seq![(start, s.len() as int)]
        } else {
            Seq::empty()
        }
    } else if s[i] == '\n' {
        let end = if i > start && s[i - 1] == '\r' {
            i - 1
        } else {
            i
        };
        seq![(start, end)] + ranges_from(s, i + 1, i + 1)
    } else {
        ranges_from(s, start, i + 1)
    }
}

/// The line ranges of the text (an empty text has one empty line).
pub open spec fn line_ranges(s: Seq<char>) -> Seq<(int, int)> {
    if s.len() == 0 {
        seq![(0, 0)]
    } else {
        ranges_from(s, 0, 0)
    }
}

pub open spec fn line_at(s: Seq<char>, rs: Seq<(int, int)>, k: int) -> Seq<char> {
    s.subrange(rs[k].0, rs[k].1)
}

/// The range of a line is followed by its line ending and the next line.
pub open spec fn terminated(s: Seq<char>, a: (int, int), next_start: int) -> bool {
    ||| (a.1 < s.len() && s[a.1] == '\n' && next_start == a.1 + 1)
    ||| (a.1 + 1 < s.len() && s[a.1] == '\r' && s[a.1 + 1] == '\n' && next_start == a.1 + 2)
}

/// Shape of a list of line ranges starting at `st`.
pub open spec fn well_ranged(s: Seq<char>, r: Seq<(int, int)>, st: int) -> bool {
    &&& forall|k: int| 0 <= k < r.len() ==> st <= (#[trigger] r[k]).0 <= r[k].1 <= s.len()
    &&& forall|k: int| 0 <= k < r.len() - 1 ==> terminated(s, #[trigger] r[k], r[k + 1].0)
    &&& r.len() > 0 ==> r[0].0 == st
}

pub proof fn lemma_ranges_from_shape(s: Seq<char>, start: int, i: int)
    requires
        0 <= start <= i <= s.len(),
        forall|j: int| start <= j < i ==> s[j] != '\n',
    ensures
        well_ranged(s, ranges_from(s, start, i), start),
    decreases s.len() - i,
{
    let r = ranges_from(s, start, i);
    if i >= s.len() {
    } else if s[i] == '\n' {
        let end = if i > start && s[i - 1] == '\r' {
            i - 1
        } else {
            i
        };
        lemma_ranges_from_shape(s, i + 1, i + 1);
        let rest = ranges_from(s, i + 1, i + 1);
        assert(r == seq![(start, end)] + rest);
        assert forall|k: int| 0 <= k < r.len() - 1 implies terminated(s, #[trigger] r[k], r[k + 1].0) by {
            if k == 0 {
                assert(r[0] == (start, end));
                assert(r[1] == rest[0]);
                if end == i - 1 {
                    assert(s[end] == '\r' && s[end + 1] == '\n');
                }
            } else {
                assert(r[k] == rest[k - 1]);
                assert(r[k + 1] == rest[k]);
            }
        }
        assert forall|k: int| 0 <= k < r.len() implies start <= (#[trigger] r[k]).0 <= r[k].1 <= s.len() by {
            if k > 0 {
                assert(r[k] == rest[k - 1]);
            }
        }
    } else {
        lemma_ranges_from_shape(s, start, i + 1);
    }
}

pub proof fn lemma_line_ranges_shape(s: Seq<char>)
    ensures
        well_ranged(s, line_ranges(s), 0),
        line_ranges(s).len() > 0,
{
    if s.len() > 0 {
        lemma_ranges_from_shape(s, 0, 0);
        lemma_ranges_from_nonempty(s, 0, 0);
    }
}

proof fn lemma_ranges_from_nonempty(s: Seq<char>, start: int, i: int)
    requires
        0 <= start <= i <= s.len(),
        start < s.len(),
    ensures
        ranges_from(s, start, i).len() > 0,
    decreases s.len() - i,
{
    if i < s.len() && s[i] != '\n' {
        lemma_ranges_from_nonempty(s, start, i + 1);
    }
}

pub open spec fn ranges_view(v: Seq<(usize, usize)>) -> Seq<(int, int)> {
    v.map_values(|p: (usize, usize)| (p.0 as int, p.1 as int))
}

fn line_ranges_vec(s: &Vec<char>) -> (r: Vec<(usize, usize)>)
    ensures
        ranges_view(r@) == line_ranges(s@),
        well_ranged(s@, line_ranges(s@), 0),
        r.len() > 0,
{
    proof {
        lemma_line_ranges_shape(s@);
    }
    let mut r: Vec<(usize, usize)> = Vec::new();
    if s.len() == 0 {
        r.push((0, 0));
        assert(ranges_view(r@) =~= seq![(0int, 0int)]);
        return r;
    }
    let mut start: usize = 0;
    let mut i: usize = 0;
    while i < s.len()
        invariant
            start <= i <= s.len(),
            s.len() > 0,
            ranges_from(s@, 0, 0) == ranges_view(r@) + ranges_from(s@, start as int, i as int),
        decreases s.len() - i,
    {
        if s[i] == '\n' {
            let end = if i > start && s[i - 1] == '\r' {
                i - 1
            } else {
                i
            };
            let ghost before = ranges_view(r@);
            r.push((start, end));
            assert(ranges_view(r@) =~= before.push((start as int, end as int)));
            assert(ranges_from(s@, start as int, i as int) == seq![(start as int, end as int)] + ranges_from(
                s@,
                i + 1,
                i + 1,
            ));
            assert(ranges_view(r@) + ranges_from(s@, i + 1, i + 1) =~= before + ranges_from(s@, start as int, i as int));
            i = i + 1;
            start = i;
        } else {
            i = i + 1;
        }
    }
    if start < s.len() {
        let ghost before = ranges_view(r@);
        r.push((start, s.len()));
        assert(ranges_view(r@) =~= before.push((start as int, s.len() as int)));
    }
    assert(ranges_view(r@) =~= ranges_from(s@, 0, 0));
    r
}

// ------------------------------------------------------------------ frontmatter

pub open spec fn dashes() -> Seq<char> {
    "---"@
}

/// First line at or after `k` equal to `---`.
pub open spec fn first_dash_line(s: Seq<char>, rs: Seq<(int, int)>, k: int) -> Option<int>
    decreases rs.len() - k,
{
    if k < 0 || k >= rs.len() {
        None
    } else if line_at(s, rs, k) == dashes() {
        Some(k)
    } else {
        first_dash_line(s, rs, k + 1)
    }
}

/// The index of the closing `---` line, or why there is none.
pub open spec fn locate(s: Seq<char>) -> Result<int, WriteError> {
    let rs = line_ranges(s);
    if line_at(s, rs, 0) != dashes() {
        Err(WriteError::NoFrontmatter)
    } else {
        match first_dash_line(s, rs, 1) {
            None => Err(WriteError::Unterminated),
            Some(c) => Ok(c),
        }
    }
}

/// The column-0 `key:` of a line and its trimmed value. An indented line, a
/// line without `:`, an empty key or a key holding whitespace gives `None`.
pub open spec fn top_kv(line: Seq<char>) -> Option<(Seq<char>, Seq<char>)> {
    if line.len() > 0 && (line[0] == ' ' || line[0] == '\t') {
        None
    } else {
        match find_char(line, ':') {
            None => None,
            Some(c) => {
                let key = line.subrange(0, c);
                if key.len() == 0 || exists|j: int| 0 <= j < key.len() && is_ws(#[trigger] key[j]) {
                    None
                } else {
                    Some((key, trim(line.subrange(c + 1, line.len() as int))))
                }
            },
        }
    }
}

pub open spec fn is_key_line(line: Seq<char>) -> bool {
    top_kv(line) matches Some(kv) && kv.0 == KEY_DISABLE_MODEL_INVOCATION@
}

/// The indices in `1..k` of the lines that hold the key.
pub open spec fn hits_upto(s: Seq<char>, rs: Seq<(int, int)>, k: int) -> Seq<int>
    decreases k,
{
    if k <= 1 {
        Seq::empty()
    } else {
        hits_upto(s, rs, k - 1) + (if is_key_line(line_at(s, rs, k - 1)) {
            seq![k - 1]
        } else {
            Seq::empty()
        })
    }
}

/// A bare boolean: exactly `true` or `false`.
pub open spec fn bare_bool(v: Seq<char>) -> Option<bool> {
    if v == "true"@ {
        Some(true)
    } else if v == "false"@ {
        Some(false)
    } else {
        None
    }
}

pub open spec fn key_bool(line: Seq<char>) -> Option<bool> {
    match top_kv(line) {
        Some(kv) => bare_bool(kv.1),
        None => None,
    }
}

/// The state as read from the text (tolerant: listing never fails).
pub open spec fn spec_disable_state(s: Seq<char>) -> DisableState {
    match locate(s) {
        Err(_) => DisableState::Unreadable,
        Ok(c) => {
            let rs = line_ranges(s);
            let h = hits_upto(s, rs, c);
            if h.len() == 0 {
                DisableState::Unset
            } else if h.len() == 1 {
                match key_bool(line_at(s, rs, h[0])) {
                    Some(true) => DisableState::Disabled,
                    Some(false) => DisableState::Enabled,
                    None => DisableState::Conflict,
                }
            } else {
                DisableState::Conflict
            }
        },
    }
}

/// Length of the line ending after position `end` (0 when there is none).
pub open spec fn ending_len(s: Seq<char>, end: int) -> int {
    if 0 <= end && end + 1 < s.len() && s[end] == '\r' && s[end + 1] == '\n' {
        2
    } else if 0 <= end < s.len() && s[end] == '\n' {
        1
    } else {
        0
    }
}

pub open spec fn crlf() -> Seq<char> {
    seq!['\r', '\n']
}

/// The line ending a new line copies: that of the line at `end`, else the
/// file's first kind of ending, else CRLF.
pub open spec fn line_ending(s: Seq<char>, end: int) -> Seq<char> {
    if 0 <= end < s.len() && s[end] == '\r' {
        crlf()
    } else if 0 <= end < s.len() && s[end] == '\n' {
        seq!['\n']
    } else if find(s, crlf()) is Some {
        crlf()
    } else if s.contains('\n') {
        seq!['\n']
    } else {
        crlf()
    }
}

pub open spec fn key_true() -> Seq<char> {
    KEY_DISABLE_MODEL_INVOCATION@ + ": true"@
}

/// The rewrite that sets `disable-model-invocation` to `disable`.
pub open spec fn spec_set(s: Seq<char>, disable: bool) -> Result<SpecToggle, WriteError> {
    match locate(s) {
        Err(e) => Err(e),
        Ok(c) => {
            let rs = line_ranges(s);
            let h = hits_upto(s, rs, c);
            if h.len() > 1 {
                Err(WriteError::DuplicateKey)
            } else if h.len() == 1 {
                let idx = h[0];
                match key_bool(line_at(s, rs, idx)) {
                    None => Err(WriteError::NonPlainBoolean),
                    Some(cur) => if cur == disable {
                        Ok(SpecToggle::Unchanged)
                    } else if disable {
                        let e = line_ending(s, rs[idx].1);
                        Ok(
                            SpecToggle::Rewritten(
                                s.subrange(0, rs[idx].0) + key_true() + e + s.subrange(
                                    rs[idx].1 + e.len(),
                                    s.len() as int,
                                ),
                            ),
                        )
                    } else {
                        Ok(
                            SpecToggle::Rewritten(
                                s.subrange(0, rs[idx].0) + s.subrange(
                                    rs[idx].1 + ending_len(s, rs[idx].1),
                                    s.len() as int,
                                ),
                            ),
                        )
                    },
                }
            } else if !disable {
                Ok(SpecToggle::Unchanged)
            } else {
                let cs = rs[c].0;
                Ok(
                    SpecToggle::Rewritten(
                        s.subrange(0, cs) + key_true() + line_ending(s, rs[c].1) + s.subrange(cs, s.len() as int),
                    ),
                )
            }
        },
    }
}

// ------------------------------------------------------------------ executable

fn line_of(s: &Vec<char>, rs: &Vec<(usize, usize)>, k: usize) -> (l: Vec<char>)
    requires
        k < rs.len(),
        ranges_view(rs@) == line_ranges(s@),
        well_ranged(s@, line_ranges(s@), 0),
    ensures
        l@ == line_at(s@, line_ranges(s@), k as int),
{
    let ghost rv = ranges_view(rs@);
    assert(rv[k as int] == (rs@[k as int].0 as int, rs@[k as int].1 as int));
    assert(0 <= rv[k as int].0 <= rv[k as int].1 <= s@.len());
    copy_range(s, rs[k].0, rs[k].1)
}

fn locate_exec(s: &Vec<char>, rs: &Vec<(usize, usize)>) -> (r: Result<usize, WriteError>)
    requires
        ranges_view(rs@) == line_ranges(s@),
        well_ranged(s@, line_ranges(s@), 0),
        rs.len() > 0,
    ensures
        match locate(s@) {
            Ok(c) => r matches Ok(k) && k == c && 1 <= c < rs.len(),
            Err(e) => r matches Err(f) && f == e,
        },
{
    let ghost lr = line_ranges(s@);
    if !crate::text::eq_str(&line_of(s, rs, 0), "---") {
        return Err(WriteError::NoFrontmatter);
    }
    let mut k: usize = 1;
    while k < rs.len()
        invariant
            1 <= k <= rs.len(),
            lr == line_ranges(s@),
            ranges_view(rs@) == lr,
            well_ranged(s@, lr, 0),
            line_at(s@, lr, 0) == dashes(),
            first_dash_line(s@, lr, 1) == first_dash_line(s@, lr, k as int),
        decreases rs.len() - k,
    {
        if crate::text::eq_str(&line_of(s, rs, k), "---") {
            return Ok(k);
        }
        k = k + 1;
    }
    Err(WriteError::Unterminated)
}

pub(crate) fn has_ws(key: &Vec<char>) -> (b: bool)
    ensures
        b == exists|j: int| 0 <= j < key@.len() && is_ws(#[trigger] key@[j]),
{
    let mut j: usize = 0;
    while j < key.len()
        invariant
            j <= key.len(),
            forall|q: int| 0 <= q < j ==> !is_ws(#[trigger] key@[q]),
        decreases key.len() - j,
    {
        if is_whitespace(key[j]) {
            return true;
        }
        j = j + 1;
    }
    false
}

fn top_kv_exec(line: &Vec<char>) -> (r: Option<(Vec<char>, Vec<char>)>)
    ensures
        match top_kv(line@) {
            Some(kv) => r matches Some(p) && p.0@ == kv.0 && p.1@ == kv.1,
            None => r is None,
        },
{
    if line.len() > 0 && (line[0] == ' ' || line[0] == '\t') {
        return None;
    }
    match crate::text::split_once_vec(line, ':') {
        None => None,
        Some((key, rest)) => {
            if key.len() == 0 || has_ws(&key) {
                None
            } else {
                Some((key, trim_vec(&rest)))
            }
        },
    }
}

fn is_key_line_exec(line: &Vec<char>) -> (b: bool)
    ensures
        b == is_key_line(line@),
{
    match top_kv_exec(line) {
        Some((k, _)) => crate::text::eq_str(&k, KEY_DISABLE_MODEL_INVOCATION),
        None => false,
    }
}

fn key_bool_exec(line: &Vec<char>) -> (r: Option<bool>)
    ensures
        r == key_bool(line@),
{
    match top_kv_exec(line) {
        Some((_, v)) => {
            if crate::text::eq_str(&v, "true") {
                Some(true)
            } else if crate::text::eq_str(&v, "false") {
                Some(false)
            } else {
                None
            }
        },
        None => None,
    }
}

fn hits_exec(s: &Vec<char>, rs: &Vec<(usize, usize)>, closing: usize) -> (h: Vec<usize>)
    requires
        1 <= closing < rs.len(),
        ranges_view(rs@) == line_ranges(s@),
        well_ranged(s@, line_ranges(s@), 0),
    ensures
        h@.map_values(|x: usize| x as int) == hits_upto(s@, line_ranges(s@), closing as int),
        forall|q: int| 0 <= q < h@.len() ==> 1 <= #[trigger] h@[q] < closing,
{
    let ghost lr = line_ranges(s@);
    let mut h: Vec<usize> = Vec::new();
    let mut k: usize = 1;
    while k < closing
        invariant
            1 <= k <= closing < rs.len(),
            lr == line_ranges(s@),
            ranges_view(rs@) == lr,
            well_ranged(s@, lr, 0),
            h@.map_values(|x: usize| x as int) == hits_upto(s@, lr, k as int),
            forall|q: int| 0 <= q < h@.len() ==> 1 <= #[trigger] h@[q] < k,
        decreases closing - k,
    {
        if is_key_line_exec(&line_of(s, rs, k)) {
            let ghost prev = h@;
            h.push(k);
            assert(h@.map_values(|x: usize| x as int) =~= prev.map_values(|x: usize| x as int).push(k as int));
        }
        k = k + 1;
    }
    h
}

/// Reads the state (tolerant: a broken skill is reported, never an error).
pub fn disable_state(text: &str) -> (st: DisableState)
    ensures
        st == spec_disable_state(text@),
{
    let s = str_chars(text);
    let rs = line_ranges_vec(&s);
    let closing = match locate_exec(&s, &rs) {
        Ok(c) => c,
        Err(_) => {
            return DisableState::Unreadable;
        },
    };
    let h = hits_exec(&s, &rs, closing);
    let ghost hv = h@.map_values(|x: usize| x as int);
    if h.len() == 0 {
        DisableState::Unset
    } else if h.len() == 1 {
        assert(hv[0] == h@[0] as int);
        match key_bool_exec(&line_of(&s, &rs, h[0])) {
            Some(true) => DisableState::Disabled,
            Some(false) => DisableState::Enabled,
            None => DisableState::Conflict,
        }
    } else {
        DisableState::Conflict
    }
}

fn line_ending_exec(s: &Vec<char>, end: usize) -> (e: Vec<char>)
    ensures
        e@ == line_ending(s@, end as int),
{
    let mut nl: Vec<char> = Vec::new();
    nl.push('\n');
    let mut rn: Vec<char> = Vec::new();
    rn.push('\r');
    rn.push('\n');
    assert(nl@ =~= seq!['\n']);
    assert(rn@ =~= crlf());
    if end < s.len() && s[end] == '\r' {
        rn
    } else if end < s.len() && s[end] == '\n' {
        nl
    } else if crate::text::find_vec(s, &rn).is_some() {
        rn
    } else if crate::text::contains_char_vec(s, '\n') {
        nl
    } else {
        rn
    }
}

fn ending_len_exec(s: &Vec<char>, end: usize) -> (n: usize)
    ensures
        n == ending_len(s@, end as int),
{
    if end < s.len() && end + 1 < s.len() && s[end] == '\r' && s[end + 1] == '\n' {
        2
    } else if end < s.len() && s[end] == '\n' {
        1
    } else {
        0
    }
}

/// Sets `disable-model-invocation` to `disable`, touching only that line.
///
/// To disable: a missing key is inserted before the closing `---`; `true` is
/// `Unchanged`; `false` is replaced in place. To enable: a missing key or
/// `false` is `Unchanged`; `true` is deleted with its own line ending.
pub fn set_disable_model_invocation(text: &str, disable: bool) -> (r: Result<Toggle, WriteError>)
    ensures
        match spec_set(text@, disable) {
            Ok(t) => r matches Ok(u) && u@ == t,
            Err(e) => r matches Err(f) && f == e,
        },
{
    let s = str_chars(text);
    let rs = line_ranges_vec(&s);
    let ghost lr = line_ranges(s@);
    let closing = match locate_exec(&s, &rs) {
        Ok(c) => c,
        Err(e) => {
            return Err(e);
        },
    };
    let h = hits_exec(&s, &rs, closing);
    let ghost hv = h@.map_values(|x: usize| x as int);
    if h.len() > 1 {
        return Err(WriteError::DuplicateKey);
    }
    let n = s.len();
    if h.len() == 1 {
        let idx = h[0];
        assert(hv[0] == idx as int);
        let ghost rv = ranges_view(rs@);
        assert(rv[idx as int] == (rs@[idx as int].0 as int, rs@[idx as int].1 as int));
        assert(rv[idx as int + 1] == (rs@[idx as int + 1].0 as int, rs@[idx as int + 1].1 as int));
        assert(terminated(s@, lr[idx as int], lr[idx as int + 1].0));
        let cur = match key_bool_exec(&line_of(&s, &rs, idx)) {
            None => {
                return Err(WriteError::NonPlainBoolean);
            },
            Some(b) => b,
        };
        if cur == disable {
            return Ok(Toggle::Unchanged);
        }
        let (start, end) = rs[idx];
        if disable {
            let e = line_ending_exec(&s, end);
            let mut out = copy_range(&s, 0, start);
            push_str(&mut out, KEY_DISABLE_MODEL_INVOCATION);
            push_str(&mut out, ": true");
            push_all(&mut out, &e);
            let tail = copy_range(&s, end + e.len(), n);
            push_all(&mut out, &tail);
            assert(out@ =~= s@.subrange(0, start as int) + key_true() + e@ + tail@);
            return Ok(Toggle::Rewritten(chars_string(out.as_slice())));
        }
        let skip = ending_len_exec(&s, end);
        let mut out = copy_range(&s, 0, start);
        let tail = copy_range(&s, end + skip, n);
        push_all(&mut out, &tail);
        return Ok(Toggle::Rewritten(chars_string(out.as_slice())));
    }
    if !disable {
        return Ok(Toggle::Unchanged);
    }
    let ghost rv = ranges_view(rs@);
    assert(rv[closing as int] == (rs@[closing as int].0 as int, rs@[closing as int].1 as int));
    let (cs, ce) = rs[closing];
    let e = line_ending_exec(&s, ce);
    let mut out = copy_range(&s, 0, cs);
    push_str(&mut out, KEY_DISABLE_MODEL_INVOCATION);
    push_str(&mut out, ": true");
    push_all(&mut out, &e);
    let tail = copy_range(&s, cs, n);
    push_all(&mut out, &tail);
    assert(out@ =~= s@.subrange(0, cs as int) + key_true() + e@ + tail@);
    Ok(Toggle::Rewritten(chars_string(out.as_slice())))
}

// ------------------------------------------------------------------ reversibility

pub open spec fn shift(r: Seq<(int, int)>, d: int) -> Seq<(int, int)> {
    r.map_values(|x: (int, int)| (x.0 + d, x.1 + d))
}

proof fn lemma_rf_starts_below_len(s: Seq<char>, start: int, i: int)
    requires
        0 <= start <= i <= s.len(),
    ensures
        forall|k: int| 0 <= k < ranges_from(s, start, i).len() ==> (#[trigger] ranges_from(s, start, i)[k]).0 < s.len(),
    decreases s.len() - i,
{
    if i < s.len() {
        if s[i] == '\n' {
            lemma_rf_starts_below_len(s, i + 1, i + 1);
            let r = ranges_from(s, start, i);
            let rest = ranges_from(s, i + 1, i + 1);
            let end = if i > start && s[i - 1] == '\r' {
                i - 1
            } else {
                i
            };
            assert(r == seq![(start, end)] + rest);
            assert forall|k: int| 0 <= k < r.len() implies (#[trigger] r[k]).0 < s.len() by {
                if k > 0 {
                    assert(r[k] == rest[k - 1]);
                }
            }
        } else {
            lemma_rf_starts_below_len(s, start, i + 1);
            assert(ranges_from(s, start, i) == ranges_from(s, start, i + 1));
        }
    }
}

/// Line ranges of `p + b` past `p` are those of `b`, moved by `p.len()`.
proof fn lemma_rf_shift(p: Seq<char>, b: Seq<char>, st: int, i: int)
    requires
        0 <= st <= i <= b.len(),
    ensures
        ranges_from(p + b, p.len() + st, p.len() + i) == shift(ranges_from(b, st, i), p.len() as int),
    decreases b.len() - i,
{
    let s = p + b;
    let d = p.len() as int;
    if i >= b.len() {
        assert(ranges_from(s, d + st, d + i) =~= shift(ranges_from(b, st, i), d));
    } else {
        assert(s[d + i] == b[i]);
        if b[i] == '\n' {
            if i > st {
                assert(s[d + i - 1] == b[i - 1]);
            }
            lemma_rf_shift(p, b, i + 1, i + 1);
            let end = if i > st && b[i - 1] == '\r' {
                i - 1
            } else {
                i
            };
            assert(ranges_from(b, st, i) == seq![(st, end)] + ranges_from(b, i + 1, i + 1));
            assert(ranges_from(s, d + st, d + i) == seq![(d + st, d + end)] + ranges_from(s, d + i + 1, d + i + 1));
            assert(shift(seq![(st, end)] + ranges_from(b, i + 1, i + 1), d) =~= seq![(d + st, d + end)] + shift(
                ranges_from(b, i + 1, i + 1),
                d,
            ));
        } else {
            lemma_rf_shift(p, b, st, i + 1);
        }
    }
}

/// Line ranges of `a + b` when `a` ends with a line feed: those of `a`, then those after `a`.
proof fn lemma_rf_prefix(a: Seq<char>, b: Seq<char>, st: int, i: int)
    requires
        a.len() > 0,
        a.last() == '\n',
        0 <= st <= i <= a.len(),
        i < a.len() || st == a.len(),
    ensures
        ranges_from(a + b, st, i) == ranges_from(a, st, i) + ranges_from(a + b, a.len() as int, a.len() as int),
    decreases a.len() - i,
{
    let s = a + b;
    let n = a.len() as int;
    if i == n {
        assert(ranges_from(a, st, i) =~= Seq::<(int, int)>::empty());
        assert(ranges_from(a, st, i) + ranges_from(s, n, n) =~= ranges_from(s, n, n));
    } else {
        assert(s[i] == a[i]);
        if a[i] == '\n' {
            if i > st {
                assert(s[i - 1] == a[i - 1]);
            }
            lemma_rf_prefix(a, b, i + 1, i + 1);
            let end = if i > st && a[i - 1] == '\r' {
                i - 1
            } else {
                i
            };
            let x = ranges_from(s, n, n);
            assert(ranges_from(s, st, i) == seq![(st, end)] + ranges_from(s, i + 1, i + 1));
            assert(ranges_from(a, st, i) == seq![(st, end)] + ranges_from(a, i + 1, i + 1));
            assert(seq![(st, end)] + (ranges_from(a, i + 1, i + 1) + x) =~= (seq![(st, end)] + ranges_from(
                a,
                i + 1,
                i + 1,
            )) + x);
        } else {
            assert(i + 1 < n);
            lemma_rf_prefix(a, b, st, i + 1);
        }
    }
}

proof fn lemma_ranges_concat(a: Seq<char>, b: Seq<char>)
    requires
        a.len() > 0,
        a.last() == '\n',
    ensures
        ranges_from(a + b, 0, 0) == ranges_from(a, 0, 0) + shift(ranges_from(b, 0, 0), a.len() as int),
{
    lemma_rf_prefix(a, b, 0, 0);
    lemma_rf_shift(a, b, 0, 0);
    assert(a.len() + 0 == a.len());
}

/// Scanning over characters that are not line feeds changes nothing.
proof fn lemma_rf_skip(s: Seq<char>, st: int, i: int, m: int)
    requires
        0 <= st <= i <= m <= s.len(),
        forall|j: int| i <= j < m ==> s[j] != '\n',
    ensures
        ranges_from(s, st, i) == ranges_from(s, st, m),
    decreases m - i,
{
    if i < m {
        lemma_rf_skip(s, st, i + 1, m);
    }
}

proof fn lemma_first_dash_props(s: Seq<char>, rs: Seq<(int, int)>, k: int)
    requires
        0 <= k,
    ensures
        first_dash_line(s, rs, k) matches Some(c) ==> k <= c < rs.len() && line_at(s, rs, c) == dashes() && forall|
            m: int,
        | k <= m < c ==> line_at(s, rs, m) != dashes(),
        first_dash_line(s, rs, k) is None ==> forall|m: int| k <= m < rs.len() ==> line_at(s, rs, m) != dashes(),
    decreases rs.len() - k,
{
    if k < rs.len() && line_at(s, rs, k) != dashes() {
        lemma_first_dash_props(s, rs, k + 1);
    }
}

proof fn lemma_first_dash_at(s: Seq<char>, rs: Seq<(int, int)>, k: int, c: int)
    requires
        1 <= k <= c < rs.len(),
        line_at(s, rs, c) == dashes(),
        forall|m: int| k <= m < c ==> line_at(s, rs, m) != dashes(),
    ensures
        first_dash_line(s, rs, k) == Some(c),
    decreases c - k,
{
    if k < c {
        lemma_first_dash_at(s, rs, k + 1, c);
    }
}

proof fn lemma_hits_same(s: Seq<char>, rs: Seq<(int, int)>, t: Seq<char>, rt: Seq<(int, int)>, k: int)
    requires
        forall|m: int| 1 <= m < k ==> line_at(s, rs, m) == line_at(t, rt, m),
    ensures
        hits_upto(s, rs, k) == hits_upto(t, rt, k),
    decreases k,
{
    if k > 1 {
        lemma_hits_same(s, rs, t, rt, k - 1);
    }
}

proof fn lemma_key_true_line()
    ensures
        top_kv(key_true()) == Some((KEY_DISABLE_MODEL_INVOCATION@, "true"@)),
        key_bool(key_true()) == Some(true),
        is_key_line(key_true()),
        key_true() != dashes(),
        key_true().len() == 30,
        forall|j: int| 0 <= j < 30 ==> key_true()[j] != '\n' && key_true()[j] != '\r',
{
    reveal_strlit("disable-model-invocation");
    reveal_strlit(": true");
    reveal_strlit("true");
    reveal_strlit("---");
    let k = key_true();
    assert(k.len() == 30);
    assert(forall|j: int| 0 <= j < 30 ==> k[j] != '\n' && k[j] != '\r');
    assert(forall|j: int| 0 <= j < 24 ==> k[j] != ':' && !is_ws(#[trigger] k[j]));
    assert(k[24] == ':');
    crate::text::lemma_find_from_props(k, seq![':'], 0);
    assert(crate::text::occurs_at(k, seq![':'], 24)) by {
        assert(k.subrange(24, 25) =~= seq![':']);
    }
    assert forall|m: int| 0 <= m < 24 implies !crate::text::occurs_at(k, seq![':'], m) by {
        if crate::text::occurs_at(k, seq![':'], m) {
            assert(k.subrange(m, m + 1)[0] == k[m]);
        }
    }
    assert(find_char(k, ':') == Some(24int));
    let key = k.subrange(0, 24);
    assert(key =~= KEY_DISABLE_MODEL_INVOCATION@);
    let rest = k.subrange(25, 30);
    assert(rest[0] == ' ' && is_ws(rest[0]));
    assert(!is_ws(rest[1]));
    assert(crate::text::ws_end_from(rest, 1) == 1);
    assert(crate::text::ws_end_from(rest, 0) == 1);
    let ts = crate::text::trim_start(rest);
    assert(ts =~= "true"@);
    assert(!is_ws(ts[3]));
    assert(crate::text::ws_start_back(ts, 4) == 4);
    assert(trim(rest) =~= "true"@);
    assert(k[0] == 'd');
}

/// The line ranges of `key_true()` followed by a line ending.
proof fn lemma_inserted_line_ranges(e: Seq<char>)
    requires
        e == crlf() || e == seq!['\n'],
    ensures
        ranges_from(key_true() + e, 0, 0) == seq![(0int, 30int)],
{
    lemma_key_true_line();
    let ke = key_true() + e;
    let p = ke.len() - 1;
    assert(ke[p] == '\n');
    assert forall|j: int| 0 <= j < p implies ke[j] != '\n' by {
        if j < 30 {
            assert(ke[j] == key_true()[j]);
        }
    }
    lemma_rf_skip(ke, 0, 0, p);
    if e == crlf() {
        assert(ke[p - 1] == '\r');
    } else {
        assert(ke[p - 1] == key_true()[29]);
    }
    assert(ranges_from(ke, p + 1, p + 1) =~= Seq::<(int, int)>::empty());
    assert(ranges_from(ke, 0, p) =~= seq![(0int, 30int)]);
}

/// The facts of an unset frontmatter, cut at the start of its closing line.
#[verifier::rlimit(50)]
proof fn lemma_unset_split(s: Seq<char>)
    requires
        spec_disable_state(s) == DisableState::Unset,
    ensures
        locate(s) is Ok,
        ({
            let rs = line_ranges(s);
            let c = locate(s)->Ok_0;
            let cs = rs[c].0;
            let a = s.subrange(0, cs);
            let cc = s.subrange(cs, s.len() as int);
            &&& s.len() > 0
            &&& 1 <= c < rs.len()
            &&& 1 <= cs <= s.len()
            &&& a.last() == '\n'
            &&& rs == ranges_from(s, 0, 0)
            &&& rs == ranges_from(a, 0, 0) + shift(ranges_from(cc, 0, 0), cs)
            &&& ranges_from(a, 0, 0).len() == c
            &&& well_ranged(a, ranges_from(a, 0, 0), 0)
            &&& well_ranged(cc, ranges_from(cc, 0, 0), 0)
            &&& line_at(s, rs, 0) == dashes()
            &&& line_at(s, rs, c) == dashes()
            &&& forall|m: int| 1 <= m < c ==> line_at(s, rs, m) != dashes()
            &&& hits_upto(s, rs, c).len() == 0
            &&& (line_ending(s, rs[c].1) == crlf() || line_ending(s, rs[c].1) == seq!['\n'])
        }),
{
    reveal_strlit("---");
    let rs = line_ranges(s);
    let c = locate(s)->Ok_0;
    assert(s.len() > 0) by {
        if s.len() == 0 {
            assert(line_at(s, rs, 0).len() == 0);
        }
    }
    lemma_line_ranges_shape(s);
    lemma_first_dash_props(s, rs, 1);
    let cs = rs[c].0;
    assert(terminated(s, rs[c - 1], rs[c].0));
    let n = s.len() as int;
    let a = s.subrange(0, cs);
    let cc = s.subrange(cs, n);
    assert(s =~= a + cc);
    lemma_ranges_concat(a, cc);
    let ra = ranges_from(a, 0, 0);
    let rc = ranges_from(cc, 0, 0);
    assert(0 <= rs[c].0 <= rs[c].1 <= s.len());
    assert(line_at(s, rs, c) == dashes());
    assert(dashes().len() == 3);
    assert(rs[c].1 - rs[c].0 == 3);
    lemma_ranges_from_shape(a, 0, 0);
    lemma_rf_starts_below_len(a, 0, 0);
    lemma_ranges_from_shape(cc, 0, 0);
    lemma_ranges_from_nonempty(cc, 0, 0);
    assert(ra.len() == c) by {
        if c < ra.len() {
            assert(rs[c] == ra[c]);
        } else if c > ra.len() {
            let j = c - ra.len();
            assert(rs[c] == (rc[j].0 + cs, rc[j].1 + cs));
            assert(terminated(cc, rc[j - 1], rc[j].0));
        }
    }
}

/// The line ranges after inserting the key line (with ending `e`) between `a` and `cc`.
proof fn lemma_inserted_ranges(a: Seq<char>, e: Seq<char>, cc: Seq<char>)
    requires
        a.len() > 0,
        a.last() == '\n',
        e == crlf() || e == seq!['\n'],
    ensures
        ranges_from(a + (key_true() + e + cc), 0, 0) == ranges_from(a, 0, 0) + seq![(a.len() as int, a.len() as int + 30)]
            + shift(ranges_from(cc, 0, 0), a.len() as int + 30 + e.len()),
{
    let ke = key_true() + e;
    lemma_key_true_line();
    lemma_inserted_line_ranges(e);
    assert(ke.last() == '\n');
    lemma_ranges_concat(ke, cc);
    lemma_ranges_concat(a, ke + cc);
    let rc = ranges_from(cc, 0, 0);
    let d = a.len() as int;
    let kl = ke.len() as int;
    assert(shift(seq![(0int, 30int)] + shift(rc, kl), d) =~= seq![(d, d + 30)] + shift(rc, d + 30 + e.len() as int));
}

/// Disabling a skill whose frontmatter has no `disable-model-invocation` key and
/// enabling it again gives back the original text, character for character; in
/// between, the skill reads as disabled.
pub proof fn law_disable_then_enable_restores(s: Seq<char>)
    requires
        spec_disable_state(s) == DisableState::Unset,
    ensures
        spec_set(s, true) matches Ok(SpecToggle::Rewritten(t)) && spec_disable_state(t) == DisableState::Disabled
            && spec_set(t, false) == Ok::<SpecToggle, WriteError>(SpecToggle::Rewritten(s)),
{
    lemma_unset_split(s);
    lemma_key_true_line();
    let rs = line_ranges(s);
    let c = locate(s)->Ok_0;
    let cs = rs[c].0;
    let n = s.len() as int;
    let a = s.subrange(0, cs);
    let cc = s.subrange(cs, n);
    let ra = ranges_from(a, 0, 0);
    let rc = ranges_from(cc, 0, 0);
    let e = line_ending(s, rs[c].1);
    let k = key_true();
    let t = a + (k + e + cc);
    assert(spec_set(s, true) == Ok::<SpecToggle, WriteError>(SpecToggle::Rewritten(t))) by {
        assert(s.subrange(0, cs) + k + e + s.subrange(cs, n) =~= t);
    }
    lemma_inserted_ranges(a, e, cc);
    let rt = line_ranges(t);
    let kl = 30 + e.len() as int;
    assert(rt == ra + seq![(cs, cs + 30)] + shift(rc, cs + kl));
    assert(rt.len() == c + 1 + rc.len());
    lemma_lines_after_insert(s, t, a, e, cc, c);
    lemma_first_dash_at(t, rt, 1, c + 1);
    assert(locate(t) == Ok::<int, WriteError>(c + 1));
    lemma_hits_same(s, rs, t, rt, c);
    assert(hits_upto(t, rt, c + 1) =~= seq![c]);
    assert(spec_disable_state(t) == DisableState::Disabled);
    assert(ending_len(t, cs + 30) == e.len()) by {
        assert(t[cs + 30] == e[0]);
        if e == crlf() {
            assert(t[cs + 31] == e[1]);
        }
    }
    assert(t.subrange(0, cs) + t.subrange(cs + 30 + e.len(), t.len() as int) =~= s);
}

/// Line by line, the text after the insertion: the lines before the closing
/// line, then the key line, then the old lines from the closing line on.
proof fn lemma_lines_after_insert(s: Seq<char>, t: Seq<char>, a: Seq<char>, e: Seq<char>, cc: Seq<char>, c: int)
    requires
        spec_disable_state(s) == DisableState::Unset,
        c == locate(s)->Ok_0,
        a == s.subrange(0, line_ranges(s)[c].0),
        cc == s.subrange(line_ranges(s)[c].0, s.len() as int),
        e == crlf() || e == seq!['\n'],
        t == a + (key_true() + e + cc),
    ensures
        line_ranges(t).len() == c + 1 + ranges_from(cc, 0, 0).len(),
        line_ranges(t)[c] == (a.len() as int, a.len() as int + 30),
        line_at(t, line_ranges(t), c) == key_true(),
        line_at(t, line_ranges(t), 0) == dashes(),
        line_at(t, line_ranges(t), c + 1) == dashes(),
        forall|m: int| 0 <= m < c ==> line_at(t, line_ranges(t), m) == line_at(s, line_ranges(s), m),
        forall|m: int| 1 <= m < c + 1 ==> line_at(t, line_ranges(t), m) != dashes(),
{
    lemma_unset_split(s);
    lemma_key_true_line();
    reveal_strlit("---");
    let rs = line_ranges(s);
    let cs = rs[c].0;
    let ra = ranges_from(a, 0, 0);
    let rc = ranges_from(cc, 0, 0);
    lemma_inserted_ranges(a, e, cc);
    let rt = line_ranges(t);
    let kl = 30 + e.len() as int;
    assert(t.len() > 0);
    assert(rt == ra + seq![(cs, cs + 30)] + shift(rc, cs + kl));
    assert forall|m: int| 0 <= m < c implies line_at(t, rt, m) == line_at(s, rs, m) by {
        assert(rt[m] == ra[m]);
        assert(rs[m] == ra[m]);
        assert(0 <= ra[m].0 <= ra[m].1 <= a.len());
        assert(t.subrange(ra[m].0, ra[m].1) =~= s.subrange(ra[m].0, ra[m].1));
    }
    assert(rt[c] == (cs, cs + 30));
    assert(line_at(t, rt, c) =~= key_true());
    assert(rt[c + 1] == (rc[0].0 + cs + kl, rc[0].1 + cs + kl));
    assert(rs[c] == (rc[0].0 + cs, rc[0].1 + cs));
    assert(t.subrange(rc[0].0 + cs + kl, rc[0].1 + cs + kl) =~= s.subrange(rc[0].0 + cs, rc[0].1 + cs));
    assert forall|m: int| 1 <= m < c + 1 implies line_at(t, rt, m) != dashes() by {
        if m < c {
            assert(line_at(t, rt, m) == line_at(s, rs, m));
        }
    }
}

// ------------------------------------------------------------------ setting twice

/// No line range holds a line feed, and a range ended by a lone line feed does
/// not end with a carriage return.
pub open spec fn ranges_plain(s: Seq<char>, r: Seq<(int, int)>) -> bool {
    &&& forall|k: int, j: int|
        #![trigger r[k], s[j]]
        0 <= k < r.len() && r[k].0 <= j < r[k].1 ==> s[j] != '\n'
    &&& forall|k: int|
        0 <= k < r.len() && (#[trigger] r[k]).1 < s.len() && s[r[k].1] == '\n' && r[k].0 < r[k].1 ==> s[r[k].1
            - 1] != '\r'
}

proof fn lemma_rf_lines_plain(s: Seq<char>, start: int, i: int)
    requires
        0 <= start <= i <= s.len(),
        forall|j: int| start <= j < i ==> s[j] != '\n',
    ensures
        ranges_plain(s, ranges_from(s, start, i)),
    decreases s.len() - i,
{
    let r = ranges_from(s, start, i);
    if i >= s.len() {
        if start < s.len() {
            assert(r == seq![(start, s.len() as int)]);
            assert forall|k: int, j: int| #![trigger r[k], s[j]] 0 <= k < r.len() && r[k].0 <= j < r[k].1 implies s[j] != '\n' by {
                assert(r[k] == (start, s.len() as int));
            }
        } else {
            assert(r.len() == 0);
        }
    } else if s[i] == '\n' {
        let end = if i > start && s[i - 1] == '\r' {
            i - 1
        } else {
            i
        };
        lemma_rf_lines_plain(s, i + 1, i + 1);
        let rest = ranges_from(s, i + 1, i + 1);
        assert(r == seq![(start, end)] + rest);
        assert forall|k: int, j: int| #![trigger r[k], s[j]] 0 <= k < r.len() && r[k].0 <= j < r[k].1 implies s[j] != '\n' by {
            if k > 0 {
                assert(r[k] == rest[k - 1]);
            }
        }
        assert forall|k: int|
            0 <= k < r.len() && (#[trigger] r[k]).1 < s.len() && s[r[k].1] == '\n' && r[k].0 < r[k].1 implies s[r[k].1
            - 1] != '\r' by {
            if k > 0 {
                assert(r[k] == rest[k - 1]);
            } else if end == i - 1 {
                assert(s[end] == '\r');
            }
        }
    } else {
        lemma_rf_lines_plain(s, start, i + 1);
        assert(r == ranges_from(s, start, i + 1));
    }
}

proof fn lemma_starts_increase(s: Seq<char>, rs: Seq<(int, int)>, j: int, m: int)
    requires
        well_ranged(s, rs, 0),
        0 <= j < m < rs.len(),
    ensures
        rs[j].0 < rs[m].0,
    decreases m - j,
{
    assert(terminated(s, rs[m - 1], rs[m].0));
    assert(rs[m - 1].0 <= rs[m - 1].1);
    if j < m - 1 {
        lemma_starts_increase(s, rs, j, m - 1);
    }
}

/// One line followed by its line ending has a single range.
proof fn lemma_line_and_end(l: Seq<char>, e: Seq<char>)
    requires
        forall|j: int| 0 <= j < l.len() ==> l[j] != '\n',
        e == crlf() || e == seq!['\n'],
        e == seq!['\n'] ==> (l.len() == 0 || l.last() != '\r'),
    ensures
        ranges_from(l + e, 0, 0) == seq![(0int, l.len() as int)],
        (l + e).len() > 0,
        (l + e).last() == '\n',
{
    let le = l + e;
    let p = le.len() - 1;
    assert(le[p] == '\n');
    assert forall|j: int| 0 <= j < p implies le[j] != '\n' by {
        if j < l.len() {
            assert(le[j] == l[j]);
        } else {
            assert(le[j] == e[0]);
        }
    }
    lemma_rf_skip(le, 0, 0, p);
    if e == crlf() {
        assert(le[p - 1] == '\r');
    } else if l.len() > 0 {
        assert(le[p - 1] == l.last());
    }
    assert(ranges_from(le, p + 1, p + 1) =~= Seq::<(int, int)>::empty());
    assert(ranges_from(le, 0, p) =~= seq![(0int, l.len() as int)]);
}

/// Where line `k` (not the first, not the last) of a text starts and ends, and
/// the line ending after it.
proof fn lemma_line_bounds(s: Seq<char>, k: int)
    requires
        s.len() > 0,
        1 <= k,
        k + 1 < line_ranges(s).len(),
    ensures
        line_ranges(s) == ranges_from(s, 0, 0),
        well_ranged(s, line_ranges(s), 0),
        1 <= line_ranges(s)[k].0 <= line_ranges(s)[k].1,
        line_ranges(s)[k].1 + line_ending(s, line_ranges(s)[k].1).len() <= s.len(),
        line_ending(s, line_ranges(s)[k].1) == crlf() || line_ending(s, line_ranges(s)[k].1) == seq!['\n'],
        ending_len(s, line_ranges(s)[k].1) == line_ending(s, line_ranges(s)[k].1).len(),
        s[line_ranges(s)[k].0 - 1] == '\n',
        s.subrange(line_ranges(s)[k].1, line_ranges(s)[k].1 + line_ending(s, line_ranges(s)[k].1).len())
            == line_ending(s, line_ranges(s)[k].1),
{
    let rs = line_ranges(s);
    lemma_line_ranges_shape(s);
    assert(terminated(s, rs[k - 1], rs[k].0));
    assert(terminated(s, rs[k], rs[k + 1].0));
    let en = rs[k].1;
    let e = line_ending(s, en);
    assert(s.subrange(en, en + e.len()) =~= e);
}

/// Line `k` of a text holds no line feed and, when a lone line feed ends it,
/// does not end with a carriage return.
proof fn lemma_line_plain(s: Seq<char>, k: int)
    requires
        s.len() > 0,
        0 <= k < line_ranges(s).len(),
        line_ranges(s)[k].1 < s.len(),
    ensures
        forall|j: int| 0 <= j < line_at(s, line_ranges(s), k).len() ==> line_at(s, line_ranges(s), k)[j] != '\n',
        s[line_ranges(s)[k].1] == '\n' ==> (line_at(s, line_ranges(s), k).len() == 0 || line_at(
            s,
            line_ranges(s),
            k,
        ).last() != '\r'),
{
    let rs = line_ranges(s);
    lemma_line_ranges_shape(s);
    lemma_rf_lines_plain(s, 0, 0);
    assert(ranges_plain(s, rs));
    let l = line_at(s, rs, k);
    assert forall|j: int| 0 <= j < l.len() implies l[j] != '\n' by {
        assert(l[j] == s[rs[k].0 + j]);
    }
    if l.len() > 0 {
        assert(l.last() == s[rs[k].1 - 1]);
    }
}

/// A text cut around its line `k` (not the first, not the last): what comes
/// before, the line, its ending and the rest, with the line ranges of each part.
proof fn lemma_cut_at_line(s: Seq<char>, k: int)
    requires
        s.len() > 0,
        1 <= k,
        k + 1 < line_ranges(s).len(),
    ensures
        ({
            let rs = line_ranges(s);
            let st = rs[k].0;
            let en = rs[k].1;
            let e = line_ending(s, en);
            let a = s.subrange(0, st);
            let l = s.subrange(st, en);
            let rest = s.subrange(en + e.len(), s.len() as int);
            &&& 1 <= st <= en
            &&& en + e.len() <= s.len()
            &&& (e == crlf() || e == seq!['\n'])
            &&& ending_len(s, en) == e.len()
            &&& a.len() > 0 && a.last() == '\n'
            &&& s == a + (l + e + rest)
            &&& forall|j: int| 0 <= j < l.len() ==> l[j] != '\n'
            &&& (e == seq!['\n'] ==> (l.len() == 0 || l.last() != '\r'))
            &&& rs == ranges_from(a, 0, 0) + seq![(st, en)] + shift(ranges_from(rest, 0, 0), en + e.len())
            &&& ranges_from(a, 0, 0).len() == k
            &&& well_ranged(a, ranges_from(a, 0, 0), 0)
            &&& well_ranged(rest, ranges_from(rest, 0, 0), 0)
        }),
{
    let rs = line_ranges(s);
    lemma_line_bounds(s, k);
    let st = rs[k].0;
    let en = rs[k].1;
    let e = line_ending(s, en);
    lemma_line_plain(s, k);
    let a = s.subrange(0, st);
    let l = s.subrange(st, en);
    let rest = s.subrange(en + e.len(), s.len() as int);
    assert(l == line_at(s, rs, k));
    if e == seq!['\n'] {
        assert(s[en] == '\n');
    }
    assert(s =~= a + (l + e + rest));
    lemma_ranges_pieces(a, l, e, rest);
    let ra = ranges_from(a, 0, 0);
    assert(rs == ra + seq![(st, en)] + shift(ranges_from(rest, 0, 0), en + e.len()));
    assert(ra.len() == k) by {
        if k < ra.len() {
            assert(rs[k] == ra[k]);
        } else if k > ra.len() {
            assert(rs[ra.len() as int] == (st, en));
            lemma_starts_increase(s, rs, ra.len() as int, k);
        }
    }
}

/// The line ranges of a text cut as `a` (ending with a line feed), a line `l`
/// with its ending `e`, and `rest`.
proof fn lemma_ranges_pieces(a: Seq<char>, l: Seq<char>, e: Seq<char>, rest: Seq<char>)
    requires
        a.len() > 0,
        a.last() == '\n',
        forall|j: int| 0 <= j < l.len() ==> l[j] != '\n',
        e == crlf() || e == seq!['\n'],
        e == seq!['\n'] ==> (l.len() == 0 || l.last() != '\r'),
    ensures
        ranges_from(a + (l + e + rest), 0, 0) == ranges_from(a, 0, 0) + seq![
            (a.len() as int, (a.len() + l.len()) as int),
        ] + shift(ranges_from(rest, 0, 0), (a.len() + l.len() + e.len()) as int),
        well_ranged(a, ranges_from(a, 0, 0), 0),
        well_ranged(rest, ranges_from(rest, 0, 0), 0),
        forall|m: int| 0 <= m < ranges_from(a, 0, 0).len() ==> (#[trigger] ranges_from(a, 0, 0)[m]).0 < a.len(),
{
    let st = a.len() as int;
    let en = st + l.len();
    lemma_ranges_concat(a, l + e + rest);
    lemma_line_and_end(l, e);
    lemma_ranges_concat(l + e, rest);
    let rr = ranges_from(rest, 0, 0);
    assert(shift(seq![(0int, l.len() as int)] + shift(rr, (l.len() + e.len()) as int), st) =~= seq![(st, en)]
        + shift(rr, en + e.len()));
    lemma_ranges_from_shape(a, 0, 0);
    lemma_rf_starts_below_len(a, 0, 0);
    lemma_ranges_from_shape(rest, 0, 0);
}

/// A single hit: the key is on line `idx` and on no other line before `k`.
proof fn lemma_single_hit(s: Seq<char>, rs: Seq<(int, int)>, k: int, idx: int)
    requires
        hits_upto(s, rs, k) == seq![idx],
    ensures
        1 <= idx < k,
        is_key_line(line_at(s, rs, idx)),
        forall|m: int| 1 <= m < k && m != idx ==> !is_key_line(#[trigger] line_at(s, rs, m)),
    decreases k,
{
    if k <= 1 {
        assert(hits_upto(s, rs, k).len() == 0);
    } else if is_key_line(line_at(s, rs, k - 1)) {
        assert(hits_upto(s, rs, k) == hits_upto(s, rs, k - 1) + seq![k - 1]);
        assert(hits_upto(s, rs, k - 1).len() == 0);
        assert((hits_upto(s, rs, k - 1) + seq![k - 1])[0] == k - 1);
        assert(seq![idx][0] == idx);
        assert(idx == k - 1);
        lemma_no_hits(s, rs, k - 1);
    } else {
        assert(hits_upto(s, rs, k) =~= hits_upto(s, rs, k - 1));
        lemma_single_hit(s, rs, k - 1, idx);
    }
}

proof fn lemma_no_hits(s: Seq<char>, rs: Seq<(int, int)>, k: int)
    requires
        hits_upto(s, rs, k).len() == 0,
    ensures
        forall|m: int| 1 <= m < k ==> !is_key_line(#[trigger] line_at(s, rs, m)),
    decreases k,
{
    if k > 1 {
        assert(hits_upto(s, rs, k - 1).len() == 0);
        lemma_no_hits(s, rs, k - 1);
    }
}

proof fn lemma_hits_none(s: Seq<char>, rs: Seq<(int, int)>, k: int)
    requires
        forall|m: int| 1 <= m < k ==> !is_key_line(#[trigger] line_at(s, rs, m)),
    ensures
        hits_upto(s, rs, k).len() == 0,
    decreases k,
{
    if k > 1 {
        lemma_hits_none(s, rs, k - 1);
        assert(!is_key_line(line_at(s, rs, k - 1)));
    }
}

proof fn lemma_hits_keys_same(s: Seq<char>, rs: Seq<(int, int)>, t: Seq<char>, rt: Seq<(int, int)>, k: int)
    requires
        forall|m: int| 1 <= m < k ==> is_key_line(#[trigger] line_at(s, rs, m)) == is_key_line(line_at(t, rt, m)),
    ensures
        hits_upto(s, rs, k) == hits_upto(t, rt, k),
    decreases k,
{
    if k > 1 {
        lemma_hits_keys_same(s, rs, t, rt, k - 1);
        assert(is_key_line(line_at(s, rs, k - 1)) == is_key_line(line_at(t, rt, k - 1)));
    }
}

proof fn lemma_key_true_len()
    ensures
        key_true().len() == 30,
{
    reveal_strlit("disable-model-invocation");
    reveal_strlit(": true");
}

/// A range inside the common part `p` reads the same in `p + x` and `p + y`.
proof fn lemma_same_in_prefix(p: Seq<char>, x: Seq<char>, y: Seq<char>, r: (int, int))
    requires
        0 <= r.0 <= r.1 <= p.len(),
    ensures
        (p + x).subrange(r.0, r.1) == (p + y).subrange(r.0, r.1),
{
    assert((p + x).subrange(r.0, r.1) =~= p.subrange(r.0, r.1));
    assert((p + y).subrange(r.0, r.1) =~= p.subrange(r.0, r.1));
}

/// A range inside the common tail `q`, moved past `x` or past `y`, reads the same.
proof fn lemma_same_in_suffix(x: Seq<char>, y: Seq<char>, q: Seq<char>, r: (int, int))
    requires
        0 <= r.0 <= r.1 <= q.len(),
    ensures
        (x + q).subrange(r.0 + x.len(), r.1 + x.len()) == (y + q).subrange(r.0 + y.len(), r.1 + y.len()),
{
    assert((x + q).subrange(r.0 + x.len(), r.1 + x.len()) =~= q.subrange(r.0, r.1));
    assert((y + q).subrange(r.0 + y.len(), r.1 + y.len()) =~= q.subrange(r.0, r.1));
}

/// After the key line is replaced in place by `disable-model-invocation: true`,
/// every line but that one is the same as before.
proof fn lemma_replaced_lines(s: Seq<char>, idx: int, t: Seq<char>)
    requires
        s.len() > 0,
        1 <= idx,
        idx + 1 < line_ranges(s).len(),
        t == s.subrange(0, line_ranges(s)[idx].0) + key_true() + line_ending(s, line_ranges(s)[idx].1)
            + s.subrange(
            line_ranges(s)[idx].1 + line_ending(s, line_ranges(s)[idx].1).len(),
            s.len() as int,
        ),
    ensures
        line_ranges(t).len() == line_ranges(s).len(),
        line_at(t, line_ranges(t), idx) == key_true(),
        forall|m: int|
            0 <= m < line_ranges(s).len() && m != idx ==> #[trigger] line_at(t, line_ranges(t), m) == line_at(
                s,
                line_ranges(s),
                m,
            ),
{
    let rs = line_ranges(s);
    lemma_cut_at_line(s, idx);
    let st = rs[idx].0;
    let en = rs[idx].1;
    let e = line_ending(s, en);
    let a = s.subrange(0, st);
    let l = s.subrange(st, en);
    let rest = s.subrange(en + e.len(), s.len() as int);
    lemma_key_true_len();
    let kx = key_true() + e;
    let lx = l + e;
    assert(t =~= a + (kx + rest));
    assert(s =~= a + (lx + rest));
    lemma_inserted_ranges(a, e, rest);
    assert(a + (key_true() + e + rest) =~= t);
    let ra = ranges_from(a, 0, 0);
    let rr = ranges_from(rest, 0, 0);
    let rt = line_ranges(t);
    assert(rt == ra + seq![(st, st + 30)] + shift(rr, st + 30 + e.len()));
    assert(line_at(t, rt, idx) =~= key_true()) by {
        assert(rt[idx] == (st, st + 30));
    }
    assert forall|m: int| 0 <= m < rs.len() && m != idx implies #[trigger] line_at(t, rt, m) == line_at(s, rs, m) by {
        if m < idx {
            assert(rt[m] == ra[m] && rs[m] == ra[m]);
            lemma_same_in_prefix(a, kx + rest, lx + rest, ra[m]);
        } else {
            let j = m - idx - 1;
            assert(rt[m] == (rr[j].0 + st + 30 + e.len(), rr[j].1 + st + 30 + e.len()));
            assert(rs[m] == (rr[j].0 + en + e.len(), rr[j].1 + en + e.len()));
            lemma_same_in_suffix(a + kx, a + lx, rest, rr[j]);
            assert(t =~= (a + kx) + rest);
            assert(s =~= (a + lx) + rest);
        }
    }
}

/// After the key line and its ending are removed, the lines before it are the
/// same and each later line moves up by one.
proof fn lemma_removed_lines(s: Seq<char>, idx: int, t: Seq<char>)
    requires
        s.len() > 0,
        1 <= idx,
        idx + 1 < line_ranges(s).len(),
        t == s.subrange(0, line_ranges(s)[idx].0) + s.subrange(
            line_ranges(s)[idx].1 + ending_len(s, line_ranges(s)[idx].1),
            s.len() as int,
        ),
    ensures
        line_ranges(t).len() + 1 == line_ranges(s).len(),
        forall|m: int| 0 <= m < idx ==> #[trigger] line_at(t, line_ranges(t), m) == line_at(s, line_ranges(s), m),
        forall|m: int|
            idx <= m < line_ranges(t).len() ==> #[trigger] line_at(t, line_ranges(t), m) == line_at(
                s,
                line_ranges(s),
                m + 1,
            ),
{
    let rs = line_ranges(s);
    lemma_cut_at_line(s, idx);
    let st = rs[idx].0;
    let en = rs[idx].1;
    let e = line_ending(s, en);
    let a = s.subrange(0, st);
    let l = s.subrange(st, en);
    let rest = s.subrange(en + e.len(), s.len() as int);
    let lx = l + e;
    assert(s =~= a + (lx + rest));
    assert(t =~= a + rest);
    lemma_ranges_concat(a, rest);
    let ra = ranges_from(a, 0, 0);
    let rr = ranges_from(rest, 0, 0);
    let rt = line_ranges(t);
    assert(t.len() > 0);
    assert(rt == ra + shift(rr, st));
    assert forall|m: int| 0 <= m < idx implies #[trigger] line_at(t, rt, m) == line_at(s, rs, m) by {
        assert(rt[m] == ra[m] && rs[m] == ra[m]);
        lemma_same_in_prefix(a, rest, lx + rest, ra[m]);
    }
    assert forall|m: int| idx <= m < rt.len() implies #[trigger] line_at(t, rt, m) == line_at(s, rs, m + 1) by {
        let j = m - idx;
        assert(rt[m] == (rr[j].0 + st, rr[j].1 + st));
        assert(rs[m + 1] == (rr[j].0 + en + e.len(), rr[j].1 + en + e.len()));
        lemma_same_in_suffix(a, a + lx, rest, rr[j]);
        assert(s =~= (a + lx) + rest);
    }
}

/// What a located frontmatter tells about its lines.
proof fn lemma_located(s: Seq<char>)
    requires
        locate(s) is Ok,
    ensures
        s.len() > 0,
        1 <= locate(s)->Ok_0 < line_ranges(s).len(),
        line_at(s, line_ranges(s), 0) == dashes(),
        line_at(s, line_ranges(s), locate(s)->Ok_0) == dashes(),
        forall|m: int| 1 <= m < locate(s)->Ok_0 ==> #[trigger] line_at(s, line_ranges(s), m) != dashes(),
{
    reveal_strlit("---");
    let rs = line_ranges(s);
    lemma_first_dash_props(s, rs, 1);
    if s.len() == 0 {
        assert(rs == seq![(0int, 0int)]);
        assert(line_at(s, rs, 0).len() == 0);
    }
}

/// Setting the state twice is setting it once: after a rewrite the text reads as
/// requested (disabled, or without the key) and the same request changes nothing more.
pub proof fn law_set_is_idempotent(s: Seq<char>, disable: bool)
    requires
        spec_set(s, disable) matches Ok(SpecToggle::Rewritten(_)),
    ensures
        spec_set(s, disable) matches Ok(SpecToggle::Rewritten(t)) && spec_disable_state(t) == (if disable {
            DisableState::Disabled
        } else {
            DisableState::Unset
        }) && spec_set(t, disable) == Ok::<SpecToggle, WriteError>(SpecToggle::Unchanged),
{
    let c = locate(s)->Ok_0;
    let rs = line_ranges(s);
    let h = hits_upto(s, rs, c);
    lemma_located(s);
    lemma_key_true_line();
    if h.len() == 0 {
        law_disable_then_enable_restores(s);
    } else {
        let idx = h[0];
        assert(h =~= seq![idx]);
        lemma_single_hit(s, rs, c, idx);
        let st = rs[idx].0;
        let en = rs[idx].1;
        if disable {
            let e = line_ending(s, en);
            let t = s.subrange(0, st) + key_true() + e + s.subrange(en + e.len(), s.len() as int);
            lemma_replaced_lines(s, idx, t);
            let rt = line_ranges(t);
            assert(line_at(t, rt, 0) == line_at(s, rs, 0));
            assert(line_at(t, rt, c) == line_at(s, rs, c));
            assert forall|m: int| 1 <= m < c implies #[trigger] line_at(t, rt, m) != dashes() by {
                if m != idx {
                    assert(line_at(t, rt, m) == line_at(s, rs, m));
                }
            }
            lemma_first_dash_at(t, rt, 1, c);
            assert(locate(t) == Ok::<int, WriteError>(c));
            assert forall|m: int| 1 <= m < c implies is_key_line(#[trigger] line_at(s, rs, m)) == is_key_line(
                line_at(t, rt, m),
            ) by {
                if m != idx {
                    assert(line_at(t, rt, m) == line_at(s, rs, m));
                }
            }
            lemma_hits_keys_same(s, rs, t, rt, c);
            assert(hits_upto(t, rt, c) == seq![idx]);
        } else {
            let t = s.subrange(0, st) + s.subrange(en + ending_len(s, en), s.len() as int);
            lemma_removed_lines(s, idx, t);
            let rt = line_ranges(t);
            assert(line_at(t, rt, 0) == line_at(s, rs, 0));
            assert(line_at(t, rt, c - 1) == line_at(s, rs, c));
            assert forall|m: int| 1 <= m < c - 1 implies #[trigger] line_at(t, rt, m) != dashes() by {
                if m < idx {
                    assert(line_at(t, rt, m) == line_at(s, rs, m));
                } else {
                    assert(line_at(t, rt, m) == line_at(s, rs, m + 1));
                }
            }
            lemma_first_dash_at(t, rt, 1, c - 1);
            assert(locate(t) == Ok::<int, WriteError>(c - 1));
            assert forall|m: int| 1 <= m < c - 1 implies !is_key_line(#[trigger] line_at(t, rt, m)) by {
                if m < idx {
                    assert(line_at(t, rt, m) == line_at(s, rs, m));
                } else {
                    assert(line_at(t, rt, m) == line_at(s, rs, m + 1));
                }
            }
            lemma_hits_none(t, rt, c - 1);
        }
    }
}

} // verus!
