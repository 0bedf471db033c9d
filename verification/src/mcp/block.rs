//! The managed MCP block: an `insert:` declaration segment followed by
//! `- id:` / `disabled:` directives, read and written line by line.
//!
//! The `config` subtree of a declaration is carried as raw text: only its
//! indentation is normalised, so `!!js` tags, inline comments and quoting
//! survive every round trip byte for byte.
use crate::mcp::entry::{
    declare_error, declare_error_vec, declares_view, directives_view, spec_transport_parse,
    transport_parse_vec, McpBlock, McpDeclare, McpDirective, McpTransport, SpecMcpBlock,
    SpecMcpDeclare, SpecMcpDirective,
};
use crate::plugin::managed::{row_id_error, row_id_error_vec, yaml_quote_vec, yaml_quoted};
use crate::text::{
    lt_vec, seq_lt,
    chars_string, copy_range, decimal, decimal_vec, eq_str, find, find_str, indent, indent_of,
    join, join_lines, lines, lines_view, opt_vec_string, opt_vec_view, push_all, push_str,
    split_lines, starts_with, starts_with_str, starts_with_vec, str_chars, strip_cr, strip_cr_vec,
    trim, trim_end, trim_end_vec, trim_start, trim_start_vec, trim_vec,
};
use vstd::prelude::*;

verus! {

/// Begin-marker prefix of the MCP block.
pub const MCP_BEGIN_PREFIX: &'static str = "# >>> dsh-launcher mcp ";

/// End-marker prefix of the MCP block.
pub const MCP_END_PREFIX: &'static str = "# <<< dsh-launcher mcp ";

/// Current block version.
pub const MCP_MARK_VERSION: &'static str = "v1";

/// Package name every declaration's `name:` must carry.
pub const MCP_CLIENT_PACKAGE: &'static str = "@deepseek-ai/dsh-mcp-client";

/// First-level indentation of a normalised `config_raw`.
pub const CONFIG_RAW_BASE_INDENT: usize = 2;

/// Marker suffix of the MCP block family.
pub open spec fn mark_tail() -> Seq<char> {
    "— 由启动器维护，请勿手工编辑"@
}

pub open spec fn spec_mark_begin() -> Seq<char> {
    MCP_BEGIN_PREFIX@ + MCP_MARK_VERSION@ + " "@ + mark_tail() + " >>>"@
}

pub open spec fn spec_mark_end() -> Seq<char> {
    MCP_END_PREFIX@ + MCP_MARK_VERSION@ + " "@ + mark_tail() + " <<<"@
}

/// Full begin-marker line of the MCP block.
pub fn mark_begin() -> (s: String)
    ensures
        s@ == spec_mark_begin(),
{
    let mut v = str_chars(MCP_BEGIN_PREFIX);
    push_str(&mut v, MCP_MARK_VERSION);
    push_str(&mut v, " ");
    push_str(&mut v, "— 由启动器维护，请勿手工编辑");
    push_str(&mut v, " >>>");
    chars_string(v.as_slice())
}

/// Full end-marker line of the MCP block.
pub fn mark_end() -> (s: String)
    ensures
        s@ == spec_mark_end(),
{
    let mut v = str_chars(MCP_END_PREFIX);
    push_str(&mut v, MCP_MARK_VERSION);
    push_str(&mut v, " ");
    push_str(&mut v, "— 由启动器维护，请勿手工编辑");
    push_str(&mut v, " <<<");
    chars_string(v.as_slice())
}

// ------------------------------------------------------------------ line helpers

pub open spec fn is_blank_or_comment(t: Seq<char>) -> bool {
    t.len() == 0 || t[0] == '#'
}

pub fn is_blank_or_comment_vec(t: &Vec<char>) -> (b: bool)
    ensures
        b == is_blank_or_comment(t@),
{
    t.len() == 0 || t[0] == '#'
}

/// Text before the first ` # ` (an inline comment).
pub open spec fn strip_inline_comment(line: Seq<char>) -> Seq<char> {
    match find(line, " # "@) {
        Some(p) => line.subrange(0, p),
        None => line,
    }
}

pub fn strip_inline_comment_vec(line: &Vec<char>) -> (r: Vec<char>)
    ensures
        r@ == strip_inline_comment(line@),
{
    match find_str(line, " # ") {
        Some(p) => {
            proof {
                crate::text::lemma_find_from_props(line@, " # "@, 0);
            }
            copy_range(line, 0, p)
        },
        None => copy_range(line, 0, line.len()),
    }
}

/// Trimmed value without one pair of enclosing single or double quotes.
pub open spec fn spec_unquote(value: Seq<char>) -> Seq<char> {
    let t = trim(value);
    if t.len() >= 2 && ((t[0] == '\'' && t.last() == '\'') || (t[0] == '"' && t.last() == '"')) {
        t.subrange(1, t.len() - 1)
    } else {
        t
    }
}

pub fn unquote_vec(value: &Vec<char>) -> (r: Vec<char>)
    ensures
        r@ == spec_unquote(value@),
{
    let t = trim_vec(value);
    let n = t.len();
    if n >= 2 && ((t[0] == '\'' && t[n - 1] == '\'') || (t[0] == '"' && t[n - 1] == '"')) {
        copy_range(&t, 1, n - 1)
    } else {
        t
    }
}

/// Removes YAML single/double quotes around a value (after trimming).
pub fn unquote(value: &str) -> (r: String)
    ensures
        r@ == spec_unquote(value@),
{
    let v = str_chars(value);
    let r = unquote_vec(&v);
    chars_string(r.as_slice())
}

/// `line.lines()` with a trailing `\r` removed from each line.
pub open spec fn raw_lines(s: Seq<char>) -> Seq<Seq<char>> {
    Seq::new(lines(s).len(), |i: int| strip_cr(lines(s)[i]))
}

pub fn raw_lines_vec(s: &Vec<char>) -> (out: Vec<Vec<char>>)
    ensures
        lines_view(out@) == raw_lines(s@),
{
    let ls = split_lines(s);
    let mut out: Vec<Vec<char>> = Vec::new();
    let mut i: usize = 0;
    while i < ls.len()
        invariant
            i <= ls.len(),
            lines_view(ls@) == lines(s@),
            lines_view(out@) == raw_lines(s@).subrange(0, i as int),
        decreases ls.len() - i,
    {
        let l = copy_range(&ls[i], 0, ls[i].len());
        assert(l@ =~= ls@[i as int]@);
        assert(lines_view(ls@)[i as int] == ls@[i as int]@);
        let l = strip_cr_vec(l);
        let ghost prev = out@;
        out.push(l);
        proof {
            crate::text::lemma_lines_view_push(prev, l);
        }
        i = i + 1;
        assert(lines_view(out@) =~= raw_lines(s@).subrange(0, i as int));
    }
    assert(raw_lines(s@).subrange(0, ls.len() as int) =~= raw_lines(s@));
    out
}

// ------------------------------------------------------------------ config_raw normalisation

pub open spec fn is_blank_line(l: Seq<char>) -> bool {
    trim(l).len() == 0
}

/// First index at or after `i` of a non-blank line.
pub open spec fn first_kept(ls: Seq<Seq<char>>, i: int) -> int
    decreases ls.len() - i,
{
    if 0 <= i < ls.len() && is_blank_line(ls[i]) {
        first_kept(ls, i + 1)
    } else {
        i
    }
}

/// End (exclusive) after dropping trailing blank lines of `ls[a..j]`.
pub open spec fn last_kept(ls: Seq<Seq<char>>, a: int, j: int) -> int
    decreases j,
{
    if a < j && 0 < j <= ls.len() && is_blank_line(ls[j - 1]) {
        last_kept(ls, a, j - 1)
    } else {
        j
    }
}

/// Smallest indentation of the lines that are neither blank nor comments.
pub open spec fn min_content_indent(ls: Seq<Seq<char>>) -> Option<int>
    decreases ls.len(),
{
    if ls.len() == 0 {
        None
    } else {
        let rest = min_content_indent(ls.drop_last());
        let l = ls.last();
        if is_blank_or_comment(trim_start(l)) {
            rest
        } else {
            match rest {
                None => Some(indent(l)),
                Some(m) => Some(if indent(l) < m { indent(l) } else { m }),
            }
        }
    }
}

/// One line moved to the base indentation.
pub open spec fn shift_line(line: Seq<char>, base: int) -> Seq<char> {
    if is_blank_line(line) {
        Seq::empty()
    } else {
        seq![' ', ' '] + (if line.len() > base { line.subrange(base, line.len() as int) } else { Seq::empty() })
    }
}

pub open spec fn kept_lines(raw: Seq<char>) -> Seq<Seq<char>> {
    let ls = raw_lines(raw);
    let a = first_kept(ls, 0);
    ls.subrange(a, last_kept(ls, a, ls.len() as int))
}

pub open spec fn content_base(kept: Seq<Seq<char>>) -> int {
    match min_content_indent(kept) {
        Some(m) => m,
        None => 0,
    }
}

pub open spec fn spec_normalize(raw: Seq<char>) -> Seq<char> {
    let kept = kept_lines(raw);
    let base = content_base(kept);
    join(Seq::new(kept.len(), |i: int| shift_line(kept[i], base)), seq!['\n'])
}

proof fn lemma_first_kept_bounds(ls: Seq<Seq<char>>, i: int)
    requires
        0 <= i <= ls.len(),
    ensures
        i <= first_kept(ls, i) <= ls.len(),
    decreases ls.len() - i,
{
    if i < ls.len() && is_blank_line(ls[i]) {
        lemma_first_kept_bounds(ls, i + 1);
    }
}

proof fn lemma_last_kept_bounds(ls: Seq<Seq<char>>, a: int, j: int)
    requires
        0 <= a <= j <= ls.len(),
    ensures
        a <= last_kept(ls, a, j) <= j,
    decreases j,
{
    if a < j && 0 < j && is_blank_line(ls[j - 1]) {
        lemma_last_kept_bounds(ls, a, j - 1);
    }
}

fn is_blank_line_vec(l: &Vec<char>) -> (b: bool)
    ensures
        b == is_blank_line(l@),
{
    let t = trim_vec(l);
    t.len() == 0
}

fn shift_line_vec(line: &Vec<char>, base: usize) -> (r: Vec<char>)
    ensures
        r@ == shift_line(line@, base as int),
{
    if is_blank_line_vec(line) {
        return Vec::new();
    }
    let mut r: Vec<char> = Vec::new();
    r.push(' ');
    r.push(' ');
    if line.len() > base {
        let body = copy_range(line, base, line.len());
        push_all(&mut r, &body);
    }
    assert(r@ =~= shift_line(line@, base as int));
    r
}

/// Smallest content indentation of `ls[a..b]`.
pub(crate) fn content_base_vec(ls: &Vec<Vec<char>>, a: usize, b: usize) -> (base: usize)
    requires
        a <= b <= ls.len(),
    ensures
        base == content_base(lines_view(ls@).subrange(a as int, b as int)),
{
    let mut acc: Option<usize> = None;
    let mut i: usize = a;
    while i < b
        invariant
            a <= i <= b <= ls.len(),
            match acc {
                Some(m) => min_content_indent(lines_view(ls@).subrange(a as int, i as int)) == Some(
                    m as int,
                ),
                None => min_content_indent(lines_view(ls@).subrange(a as int, i as int)) is None,
            },
        decreases b - i,
    {
        let ghost sub = lines_view(ls@).subrange(a as int, i + 1);
        assert(sub.drop_last() =~= lines_view(ls@).subrange(a as int, i as int));
        assert(sub.last() == ls@[i as int]@);
        let t = trim_start_vec(&ls[i]);
        if !is_blank_or_comment_vec(&t) {
            let k = indent_of(&ls[i]);
            acc = match acc {
                None => Some(k),
                Some(m) => Some(if k < m { k } else { m }),
            };
        }
        i = i + 1;
    }
    match acc {
        Some(m) => m,
        None => 0,
    }
}

pub fn normalize_vec(raw: &Vec<char>) -> (r: Vec<char>)
    ensures
        r@ == spec_normalize(raw@),
{
    let ls = raw_lines_vec(raw);
    let ghost lv = lines_view(ls@);
    let mut a: usize = 0;
    while a < ls.len() && is_blank_line_vec(&ls[a])
        invariant
            a <= ls.len(),
            lines_view(ls@) == lv,
            first_kept(lv, 0) == first_kept(lv, a as int),
        decreases ls.len() - a,
    {
        a = a + 1;
    }
    let mut b: usize = ls.len();
    while a < b && is_blank_line_vec(&ls[b - 1])
        invariant
            a <= b <= ls.len(),
            lines_view(ls@) == lv,
            last_kept(lv, a as int, ls.len() as int) == last_kept(lv, a as int, b as int),
        decreases b,
    {
        b = b - 1;
    }
    let ghost kept = lv.subrange(a as int, b as int);
    assert(kept == kept_lines(raw@));
    let base = content_base_vec(&ls, a, b);
    let mut shifted: Vec<Vec<char>> = Vec::new();
    let mut i: usize = a;
    while i < b
        invariant
            a <= i <= b <= ls.len(),
            lines_view(ls@) == lv,
            kept == lv.subrange(a as int, b as int),
            base == content_base(kept),
            lines_view(shifted@) == Seq::new((i - a) as nat, |k: int| shift_line(kept[k], base as int)),
        decreases b - i,
    {
        let s = shift_line_vec(&ls[i], base);
        assert(kept[(i - a) as int] == ls@[i as int]@);
        let ghost prev = shifted@;
        shifted.push(s);
        proof {
            crate::text::lemma_lines_view_push(prev, s);
        }
        i = i + 1;
        assert(lines_view(shifted@) =~= Seq::new((i - a) as nat, |k: int| shift_line(kept[k], base as int)));
    }
    let mut nl: Vec<char> = Vec::new();
    nl.push('\n');
    assert(nl@ =~= seq!['\n']);
    let r = join_lines(&shifted, &nl);
    assert(lines_view(shifted@) =~= Seq::new(kept.len(), |k: int| shift_line(kept[k], base as int)));
    r
}

/// Moves the `config` subtree to the base indentation (first-level fields at two
/// spaces); relative indentation, comments and scalars are kept as they are.
pub fn normalize_config_raw(raw: &str) -> (r: String)
    ensures
        r@ == spec_normalize(raw@),
{
    let v = str_chars(raw);
    let n = normalize_vec(&v);
    chars_string(n.as_slice())
}

// ------------------------------------------------------------------ config subtree

/// End (exclusive) of the lines that belong to a `config:` key with indentation `key_indent`.
pub open spec fn subtree_end(ls: Seq<Seq<char>>, key_indent: int, e: int) -> int
    decreases ls.len() - e,
{
    if e < 0 || e >= ls.len() {
        e
    } else {
        let t = trim_start(ls[e]);
        if starts_with(t, "# == "@) {
            e
        } else if is_blank_or_comment(t) || indent(ls[e]) > key_indent {
            subtree_end(ls, key_indent, e + 1)
        } else {
            e
        }
    }
}

pub proof fn lemma_subtree_end_bounds(ls: Seq<Seq<char>>, key_indent: int, e: int)
    requires
        0 <= e <= ls.len(),
    ensures
        e <= subtree_end(ls, key_indent, e) <= ls.len(),
    decreases ls.len() - e,
{
    if e < ls.len() {
        let t = trim_start(ls[e]);
        if !starts_with(t, "# == "@) && (is_blank_or_comment(t) || indent(ls[e]) > key_indent) {
            lemma_subtree_end_bounds(ls, key_indent, e + 1);
        }
    }
}

fn subtree_end_vec(ls: &Vec<Vec<char>>, key_indent: usize, start: usize) -> (e: usize)
    requires
        start <= ls.len(),
    ensures
        e == subtree_end(lines_view(ls@), key_indent as int, start as int),
        start <= e <= ls.len(),
{
    let ghost lv = lines_view(ls@);
    let mut e: usize = start;
    while e < ls.len()
        invariant
            start <= e <= ls.len(),
            lv == lines_view(ls@),
            subtree_end(lv, key_indent as int, start as int) == subtree_end(lv, key_indent as int, e as int),
        decreases ls.len() - e,
    {
        assert(lv[e as int] == ls@[e as int]@);
        let t = trim_start_vec(&ls[e]);
        if starts_with_str(&t, "# == ") {
            return e;
        }
        if is_blank_or_comment_vec(&t) || indent_of(&ls[e]) > key_indent {
            e = e + 1;
        } else {
            return e;
        }
    }
    e
}

/// Raw text of the subtree lines `ls[k+1..end]`.
pub open spec fn subtree_raw(ls: Seq<Seq<char>>, k: int, end: int) -> Seq<char> {
    trim_end(join(Seq::new((end - (k + 1)) as nat, |i: int| strip_cr(ls[k + 1 + i])), seq!['\n']))
}

/// The subtree of the `config:` key at line `key_index`: its raw text and the
/// index of the first line after it.
pub fn take_config_subtree(ls: &Vec<Vec<char>>, key_index: usize) -> (r: (Vec<char>, usize))
    requires
        key_index < ls.len(),
    ensures
        r.1 == subtree_end(lines_view(ls@), indent(ls@[key_index as int]@), key_index + 1),
        r.0@ == subtree_raw(lines_view(ls@), key_index as int, r.1 as int),
        key_index < r.1 <= ls.len(),
{
    let ghost lv = lines_view(ls@);
    let key_indent = indent_of(&ls[key_index]);
    assert(lv[key_index as int] == ls@[key_index as int]@);
    let end = subtree_end_vec(ls, key_indent, key_index + 1);
    let mut pieces: Vec<Vec<char>> = Vec::new();
    let mut i: usize = key_index + 1;
    while i < end
        invariant
            key_index < i <= end <= ls.len(),
            lv == lines_view(ls@),
            lines_view(pieces@) == Seq::new((i - (key_index + 1)) as nat, |j: int| strip_cr(lv[key_index + 1 + j])),
        decreases end - i,
    {
        let l = copy_range(&ls[i], 0, ls[i].len());
        assert(lv[i as int] == ls@[i as int]@);
        let l = strip_cr_vec(l);
        let ghost prev = pieces@;
        pieces.push(l);
        proof {
            crate::text::lemma_lines_view_push(prev, l);
        }
        let ghost j = i - (key_index + 1);
        assert(key_index + 1 + j == i);
        assert(l@ == strip_cr(lv[key_index + 1 + j]));
        i = i + 1;
        assert(lines_view(pieces@) =~= Seq::new((i - (key_index + 1)) as nat, |j: int| strip_cr(lv[key_index + 1 + j])));
    }
    let mut nl: Vec<char> = Vec::new();
    nl.push('\n');
    assert(nl@ =~= seq!['\n']);
    let joined = join_lines(&pieces, &nl);
    let raw = trim_end_vec(&joined);
    (raw, end)
}

// ------------------------------------------------------------------ config scalars

/// Index of the first line at or after `i` that is neither blank nor a comment.
pub open spec fn first_content(ls: Seq<Seq<char>>, i: int) -> int
    decreases ls.len() - i,
{
    if 0 <= i < ls.len() && is_blank_or_comment(trim_start(ls[i])) {
        first_content(ls, i + 1)
    } else {
        i
    }
}

pub fn first_content_vec(ls: &Vec<Vec<char>>, start: usize) -> (f: usize)
    requires
        start <= ls.len(),
    ensures
        f == first_content(lines_view(ls@), start as int),
        start <= f <= ls.len(),
{
    let ghost lv = lines_view(ls@);
    let mut f: usize = start;
    while f < ls.len()
        invariant
            start <= f <= ls.len(),
            lv == lines_view(ls@),
            first_content(lv, start as int) == first_content(lv, f as int),
        decreases ls.len() - f,
    {
        assert(lv[f as int] == ls@[f as int]@);
        if !is_blank_or_comment_vec(&trim_start_vec(&ls[f])) {
            return f;
        }
        f = f + 1;
    }
    f
}

pub open spec fn scalar_from(ls: Seq<Seq<char>>, base: int, needle: Seq<char>, i: int) -> Option<Seq<char>>
    decreases ls.len() - i,
{
    if i < 0 || i >= ls.len() {
        None
    } else {
        let line = ls[i];
        let t = trim_start(line);
        if is_blank_or_comment(t) || indent(line) != base || !starts_with(t, needle) {
            scalar_from(ls, base, needle, i + 1)
        } else {
            let v = trim(strip_inline_comment(t.subrange(needle.len() as int, t.len() as int)));
            if v.len() == 0 {
                None
            } else {
                Some(spec_unquote(v))
            }
        }
    }
}

/// A top-level scalar of a `config` subtree: the first line at the subtree's
/// first-level indentation that starts with `key:`, its value without inline
/// comment and quotes; `None` when there is no such line or its value is empty.
pub open spec fn spec_config_scalar(raw: Seq<char>, key: Seq<char>) -> Option<Seq<char>> {
    let ls = raw_lines(raw);
    let first = first_content(ls, 0);
    if first >= ls.len() {
        None
    } else {
        scalar_from(ls, indent(ls[first]), key.push(':'), 0)
    }
}

pub fn config_scalar_vec(raw: &Vec<char>, key: &Vec<char>) -> (r: Option<Vec<char>>)
    ensures
        opt_vec_view(r) == spec_config_scalar(raw@, key@),
{
    let ls = raw_lines_vec(raw);
    let ghost lv = lines_view(ls@);
    let f = first_content_vec(&ls, 0);
    assert(f < ls.len() ==> lv[f as int] == ls@[f as int]@);
    if f >= ls.len() {
        return None;
    }
    let base = indent_of(&ls[f]);
    let mut needle = copy_range(key, 0, key.len());
    needle.push(':');
    assert(needle@ =~= key@.push(':'));
    let mut i: usize = 0;
    while i < ls.len()
        invariant
            i <= ls.len(),
            lv == lines_view(ls@),
            needle@ == key@.push(':'),
            base == indent(lv[f as int]),
            f < ls.len(),
            first_content(lv, 0) == f,
            spec_config_scalar(raw@, key@) == scalar_from(lv, base as int, needle@, i as int),
        decreases ls.len() - i,
    {
        assert(lv[i as int] == ls@[i as int]@);
        let t = trim_start_vec(&ls[i]);
        if !is_blank_or_comment_vec(&t) && indent_of(&ls[i]) == base && starts_with_vec(&t, &needle) {
            let rest = copy_range(&t, needle.len(), t.len());
            let c = strip_inline_comment_vec(&rest);
            let v = trim_vec(&c);
            if v.len() == 0 {
                return None;
            }
            return Some(unquote_vec(&v));
        }
        i = i + 1;
    }
    None
}

/// Reads a top-level scalar of a `config` subtree (read-only view, no YAML decoding).
pub fn config_scalar(config_raw: &str, key: &str) -> (r: Option<String>)
    ensures
        crate::text::opt_view(r) == spec_config_scalar(config_raw@, key@),
{
    let raw = str_chars(config_raw);
    let k = str_chars(key);
    opt_vec_string(config_scalar_vec(&raw, &k))
}


// ------------------------------------------------------------------ parse

/// A declaration as the block states it: the row id, the raw config, and the
/// read-only views taken from the config.
pub open spec fn make_declare(row_id: Seq<char>, config: Seq<char>) -> SpecMcpDeclare {
    SpecMcpDeclare {
        row_id: row_id,
        server_name: spec_config_scalar(config, "serverName"@),
        transport: match spec_config_scalar(config, "transport"@) {
            Some(v) => spec_transport_parse(v),
            None => None,
        },
        config_raw: config,
    }
}

/// Value after a key literal of length `n`, without inline comment and quotes.
pub open spec fn key_value(t: Seq<char>, n: int) -> Seq<char> {
    spec_unquote(strip_inline_comment(t.subrange(n, t.len() as int)))
}

pub open spec fn msg_bad_indent(row_id: Seq<char>, t: Seq<char>) -> Seq<char> {
    "mcp 区块声明 "@ + row_id + " 出现非法缩进行（键必须缩进 6 列）："@ + trim_end(t)
}

pub open spec fn msg_not_official(row_id: Seq<char>, name: Seq<char>) -> Seq<char> {
    "mcp 区块声明 "@ + row_id + " 的 name 不是官方 MCP 插件（"@ + name + "）"@
}

pub open spec fn msg_inline_config(line_no: nat) -> Seq<char> {
    "mcp 区块第 "@ + decimal(line_no) + " 行的 config 不是子树形态（不允许 `config: {...}`）"@
}

pub open spec fn msg_dup_config(row_id: Seq<char>) -> Seq<char> {
    "mcp 区块声明 "@ + row_id + " 出现重复的 config 子树"@
}

pub open spec fn msg_unknown_key(row_id: Seq<char>, t: Seq<char>) -> Seq<char> {
    "mcp 区块声明 "@ + row_id + " 出现未知键："@ + trim_end(t)
}

pub open spec fn msg_second_insert() -> Seq<char> {
    "mcp 区块出现第二个声明段（不变量 #1：区块只由两段构成，声明段必须在前）"@
}

pub open spec fn msg_illegal_line(t: Seq<char>) -> Seq<char> {
    "mcp 区块出现非法行（只允许 `- insert:`、4 空格缩进的声明条目、`- id:` 定向条目）："@ + trim_end(t)
}

pub open spec fn msg_not_col0(t: Seq<char>) -> Seq<char> {
    "mcp 区块的定向条目必须列 0 起始："@ + trim_end(t)
}

pub open spec fn msg_unknown_attr(row_id: Seq<char>, t: Seq<char>) -> Seq<char> {
    "mcp 区块定向条目 "@ + row_id + " 出现未知属性："@ + trim_end(t)
}

pub open spec fn msg_bad_disabled(row_id: Seq<char>, v: Seq<char>) -> Seq<char> {
    "mcp 区块定向条目 "@ + row_id + " 的 disabled 非法（只允许 true/false）：\""@ + v + "\""@
}

pub open spec fn msg_dup_disabled(row_id: Seq<char>) -> Seq<char> {
    "mcp 区块定向条目 "@ + row_id + " 出现重复的 disabled"@
}

pub open spec fn msg_missing_disabled(row_id: Seq<char>) -> Seq<char> {
    "mcp 区块定向条目 "@ + row_id + " 缺少 disabled"@
}

/// The declaration segment, read from line `i`; `cur` is the declaration being
/// read (its row id and config so far). Yields the first line after the
/// segment and the declarations, or the message of the first violation.
pub open spec fn decl_sm(
    ls: Seq<Seq<char>>,
    i: int,
    acc: Seq<SpecMcpDeclare>,
    cur: Option<(Seq<char>, Seq<char>)>,
) -> Result<(int, Seq<SpecMcpDeclare>), Seq<char>>
    decreases ls.len() - i, (if cur is Some { 1int } else { 0int }),
{
    if i < 0 {
        Err(Seq::empty())
    } else {
        match cur {
            None => {
                if i >= ls.len() {
                    Ok((i, acc))
                } else {
                    let line = strip_cr(ls[i]);
                    let t = trim_start(line);
                    if is_blank_or_comment(t) {
                        decl_sm(ls, i + 1, acc, None)
                    } else if indent(line) != 4 || !starts_with(t, "- id: "@) {
                        Ok((i, acc))
                    } else {
                        let row_id = key_value(t, ("- id: "@).len() as int);
                        match row_id_error(row_id) {
                            Some(e) => Err(e),
                            None => decl_sm(ls, i + 1, acc, Some((row_id, Seq::empty()))),
                        }
                    }
                }
            },
            Some(c) => {
                let row_id = c.0;
                let config = c.1;
                if i >= ls.len() {
                    decl_sm(ls, i, acc.push(make_declare(row_id, config)), None)
                } else {
                    let line = strip_cr(ls[i]);
                    let t = trim_start(line);
                    if is_blank_or_comment(t) {
                        decl_sm(ls, i + 1, acc, cur)
                    } else if indent(line) <= 4 {
                        decl_sm(ls, i, acc.push(make_declare(row_id, config)), None)
                    } else if indent(line) != 6 {
                        Err(msg_bad_indent(row_id, t))
                    } else if starts_with(t, "name:"@) {
                        let name = key_value(t, ("name:"@).len() as int);
                        if name != MCP_CLIENT_PACKAGE@ {
                            Err(msg_not_official(row_id, name))
                        } else {
                            decl_sm(ls, i + 1, acc, cur)
                        }
                    } else if starts_with(t, "config:"@) {
                        let rest = t.subrange(("config:"@).len() as int, t.len() as int);
                        if trim(rest).len() != 0 {
                            Err(msg_inline_config((i + 1) as nat))
                        } else {
                            let next = subtree_end(ls, indent(ls[i]), i + 1);
                            if config.len() != 0 {
                                Err(msg_dup_config(row_id))
                            } else {
                                proof {
                                    lemma_subtree_end_bounds(ls, indent(ls[i]), i + 1);
                                }
                                decl_sm(
                                    ls,
                                    next,
                                    acc,
                                    Some((row_id, spec_normalize(subtree_raw(ls, i, next)))),
                                )
                            }
                        }
                    } else {
                        Err(msg_unknown_key(row_id, t))
                    }
                }
            },
        }
    }
}

/// The directive segment, read from line `i`; `cur` is the directive being read
/// (its row id and the `disabled` value seen so far).
pub open spec fn dir_sm(
    ls: Seq<Seq<char>>,
    i: int,
    acc: Seq<SpecMcpDirective>,
    cur: Option<(Seq<char>, Option<bool>)>,
) -> Result<Seq<SpecMcpDirective>, Seq<char>>
    decreases ls.len() - i, (if cur is Some { 1int } else { 0int }),
{
    if i < 0 {
        Err(Seq::empty())
    } else {
        match cur {
            None => {
                if i >= ls.len() {
                    Ok(acc)
                } else {
                    let line = strip_cr(ls[i]);
                    let t = trim_start(line);
                    if is_blank_or_comment(t) {
                        dir_sm(ls, i + 1, acc, None)
                    } else if starts_with(t, "- insert:"@) {
                        Err(msg_second_insert())
                    } else if !starts_with(t, "- id: "@) {
                        Err(msg_illegal_line(t))
                    } else if indent(line) != 0 {
                        Err(msg_not_col0(t))
                    } else {
                        let row_id = key_value(t, ("- id: "@).len() as int);
                        match row_id_error(row_id) {
                            Some(e) => Err(e),
                            None => dir_sm(ls, i + 1, acc, Some((row_id, None))),
                        }
                    }
                }
            },
            Some(c) => {
                let row_id = c.0;
                let seen = c.1;
                if i < ls.len() && is_blank_or_comment(trim_start(strip_cr(ls[i]))) {
                    dir_sm(ls, i + 1, acc, cur)
                } else if i >= ls.len() || indent(strip_cr(ls[i])) != 2 {
                    match seen {
                        None => Err(msg_missing_disabled(row_id)),
                        Some(d) => dir_sm(
                            ls,
                            i,
                            acc.push(SpecMcpDirective { row_id: row_id, disabled: d }),
                            None,
                        ),
                    }
                } else {
                    let t = trim_start(strip_cr(ls[i]));
                    if !starts_with(t, "disabled:"@) {
                        Err(msg_unknown_attr(row_id, t))
                    } else {
                        let v = key_value(t, ("disabled:"@).len() as int);
                        if v != "true"@ && v != "false"@ {
                            Err(msg_bad_disabled(row_id, v))
                        } else if seen is Some {
                            Err(msg_dup_disabled(row_id))
                        } else {
                            dir_sm(ls, i + 1, acc, Some((row_id, Some(v == "true"@))))
                        }
                    }
                }
            },
        }
    }
}

/// First index at or after `i` of a line whose trimmed text is neither blank nor a comment.
pub open spec fn skip_blank(ls: Seq<Seq<char>>, i: int) -> int
    decreases ls.len() - i,
{
    if 0 <= i < ls.len() && is_blank_or_comment(trim(ls[i])) {
        skip_blank(ls, i + 1)
    } else {
        i
    }
}

/// The block body grammar: an optional `- insert:` segment of declarations at
/// four spaces (each with `name:` = the official package and a `config:`
/// subtree), then directives `- id:` at column 0 each followed by exactly one
/// `  disabled: true|false`. Anything else is rejected with its message.
pub open spec fn spec_parse(body: Seq<char>) -> Result<SpecMcpBlock, Seq<char>> {
    let ls = lines(body);
    let i0 = skip_blank(ls, 0);
    if i0 < ls.len() && indent(ls[i0]) == 0 && starts_with(trim_start(ls[i0]), "- insert:"@) {
        match decl_sm(ls, i0 + 1, Seq::empty(), None) {
            Err(e) => Err(e),
            Ok(p) => match dir_sm(ls, p.0, Seq::empty(), None) {
                Err(e) => Err(e),
                Ok(ds) => Ok(SpecMcpBlock { declares: p.1, directives: ds }),
            },
        }
    } else {
        match dir_sm(ls, i0, Seq::empty(), None) {
            Err(e) => Err(e),
            Ok(ds) => Ok(SpecMcpBlock { declares: Seq::empty(), directives: ds }),
        }
    }
}

fn key_value_vec(t: &Vec<char>, lit: &str) -> (r: Vec<char>)
    requires
        starts_with(t@, lit@),
    ensures
        r@ == key_value(t@, lit@.len() as int),
{
    let p = str_chars(lit);
    let rest = copy_range(t, p.len(), t.len());
    let c = strip_inline_comment_vec(&rest);
    unquote_vec(&c)
}

fn make_declare_exec(row_id: Vec<char>, config: Vec<char>) -> (d: McpDeclare)
    ensures
        d@ == make_declare(row_id@, config@),
{
    let sn = str_chars("serverName");
    let tk = str_chars("transport");
    let server_name = config_scalar_vec(&config, &sn);
    let transport = match config_scalar_vec(&config, &tk) {
        Some(v) => transport_parse_vec(&v),
        None => None,
    };
    McpDeclare {
        row_id: chars_string(row_id.as_slice()),
        server_name: opt_vec_string(server_name),
        transport,
        config_raw: chars_string(config.as_slice()),
    }
}

pub open spec fn cur_decl_view(c: Option<(Vec<char>, Vec<char>)>) -> Option<(Seq<char>, Seq<char>)> {
    match c {
        Some(p) => Some((p.0@, p.1@)),
        None => None,
    }
}

proof fn lemma_declares_view_push(v: Seq<McpDeclare>, d: McpDeclare)
    ensures
        declares_view(v.push(d)) == declares_view(v).push(d@),
{
    assert(declares_view(v.push(d)) =~= declares_view(v).push(d@));
}

proof fn lemma_directives_view_push(v: Seq<McpDirective>, d: McpDirective)
    ensures
        directives_view(v.push(d)) == directives_view(v).push(d@),
{
    assert(directives_view(v.push(d)) =~= directives_view(v).push(d@));
}

fn msg_with_row(prefix: &str, row_id: &Vec<char>, suffix: &str) -> (m: Vec<char>)
    ensures
        m@ == prefix@ + row_id@ + suffix@,
{
    let mut m = str_chars(prefix);
    push_all(&mut m, row_id);
    push_str(&mut m, suffix);
    m
}

fn msg_with_tail(prefix: &str, row_id: &Vec<char>, middle: &str, t: &Vec<char>) -> (m: Vec<char>)
    ensures
        m@ == prefix@ + row_id@ + middle@ + trim_end(t@),
{
    let mut m = str_chars(prefix);
    push_all(&mut m, row_id);
    push_str(&mut m, middle);
    let te = trim_end_vec(t);
    push_all(&mut m, &te);
    m
}

/// Reads the declaration segment starting at line `start`.
fn parse_declares(all: &Vec<Vec<char>>, start: usize) -> (r: Result<(usize, Vec<McpDeclare>), Vec<char>>)
    requires
        start <= all.len(),
    ensures
        r matches Ok(p) ==> decl_sm(lines_view(all@), start as int, Seq::empty(), None) == Ok::<
            (int, Seq<SpecMcpDeclare>),
            Seq<char>,
        >((p.0 as int, declares_view(p.1@))),
        r matches Ok(p) ==> p.0 <= all.len(),
        r matches Err(m) ==> decl_sm(lines_view(all@), start as int, Seq::empty(), None) == Err::<
            (int, Seq<SpecMcpDeclare>),
            Seq<char>,
        >(m@),
{
    let ghost ls = lines_view(all@);
    let mut index: usize = start;
    let mut acc: Vec<McpDeclare> = Vec::new();
    let mut cur: Option<(Vec<char>, Vec<char>)> = None;
    assert(declares_view(acc@) =~= Seq::<SpecMcpDeclare>::empty());
    loop
        invariant
            index <= all.len(),
            ls == lines_view(all@),
            decl_sm(ls, start as int, Seq::empty(), None) == decl_sm(
                ls,
                index as int,
                declares_view(acc@),
                cur_decl_view(cur),
            ),
        decreases all.len() - index, (if cur is Some { 1int } else { 0int }),
    {
        let c = cur;
        match c {
            None => {
                if index >= all.len() {
                    return Ok((index, acc));
                }
                assert(ls[index as int] == all@[index as int]@);
                let line = strip_cr_vec(copy_range(&all[index], 0, all[index].len()));
                assert(line@ == strip_cr(ls[index as int]));
                let t = trim_start_vec(&line);
                if is_blank_or_comment_vec(&t) {
                    index = index + 1;
                    cur = None;
                } else if indent_of(&line) != 4 || !starts_with_str(&t, "- id: ") {
                    return Ok((index, acc));
                } else {
                    let row_id = key_value_vec(&t, "- id: ");
                    match row_id_error_vec(&row_id) {
                        Some(e) => {
                            return Err(e);
                        },
                        None => {},
                    }
                    index = index + 1;
                    cur = Some((row_id, Vec::new()));
                    assert(cur_decl_view(cur) =~= Some((row_id@, Seq::<char>::empty())));
                }
            },
            Some(pair) => {
                let (row_id, config) = pair;
                if index >= all.len() {
                    let d = make_declare_exec(row_id, config);
                    let ghost prev = acc@;
                    acc.push(d);
                    proof {
                        lemma_declares_view_push(prev, d);
                    }
                    cur = None;
                } else {
                    assert(ls[index as int] == all@[index as int]@);
                    let line = strip_cr_vec(copy_range(&all[index], 0, all[index].len()));
                    assert(line@ == strip_cr(ls[index as int]));
                    let t = trim_start_vec(&line);
                    let k = indent_of(&line);
                    if is_blank_or_comment_vec(&t) {
                        index = index + 1;
                        cur = Some((row_id, config));
                    } else if k <= 4 {
                        let d = make_declare_exec(row_id, config);
                        let ghost prev = acc@;
                        acc.push(d);
                        proof {
                            lemma_declares_view_push(prev, d);
                        }
                        cur = None;
                    } else if k != 6 {
                        return Err(
                            msg_with_tail(
                                "mcp 区块声明 ",
                                &row_id,
                                " 出现非法缩进行（键必须缩进 6 列）：",
                                &t,
                            ),
                        );
                    } else if starts_with_str(&t, "name:") {
                        let name = key_value_vec(&t, "name:");
                        if !eq_str(&name, MCP_CLIENT_PACKAGE) {
                            let mut m = msg_with_row("mcp 区块声明 ", &row_id, " 的 name 不是官方 MCP 插件（");
                            push_all(&mut m, &name);
                            push_str(&mut m, "）");
                            return Err(m);
                        }
                        index = index + 1;
                        cur = Some((row_id, config));
                    } else if starts_with_str(&t, "config:") {
                        let p = str_chars("config:");
                        let rest = copy_range(&t, p.len(), t.len());
                        let rt = trim_vec(&rest);
                        if rt.len() != 0 {
                            let mut m = str_chars("mcp 区块第 ");
                            let num = decimal_vec(index + 1);
                            push_all(&mut m, &num);
                            push_str(&mut m, " 行的 config 不是子树形态（不允许 `config: {...}`）");
                            return Err(m);
                        }
                        let (raw, next) = take_config_subtree(all, index);
                        if config.len() != 0 {
                            return Err(msg_with_row("mcp 区块声明 ", &row_id, " 出现重复的 config 子树"));
                        }
                        let normalized = normalize_vec(&raw);
                        index = next;
                        cur = Some((row_id, normalized));
                    } else {
                        return Err(msg_with_tail("mcp 区块声明 ", &row_id, " 出现未知键：", &t));
                    }
                }
            },
        }
    }
}


pub open spec fn cur_dir_view(c: Option<(Vec<char>, Option<bool>)>) -> Option<(Seq<char>, Option<bool>)> {
    match c {
        Some(p) => Some((p.0@, p.1)),
        None => None,
    }
}

/// Reads the directive segment starting at line `start`.
fn parse_directives(all: &Vec<Vec<char>>, start: usize) -> (r: Result<Vec<McpDirective>, Vec<char>>)
    requires
        start <= all.len(),
    ensures
        r matches Ok(ds) ==> dir_sm(lines_view(all@), start as int, Seq::empty(), None) == Ok::<
            Seq<SpecMcpDirective>,
            Seq<char>,
        >(directives_view(ds@)),
        r matches Err(m) ==> dir_sm(lines_view(all@), start as int, Seq::empty(), None) == Err::<
            Seq<SpecMcpDirective>,
            Seq<char>,
        >(m@),
{
    let ghost ls = lines_view(all@);
    let mut index: usize = start;
    let mut acc: Vec<McpDirective> = Vec::new();
    let mut cur: Option<(Vec<char>, Option<bool>)> = None;
    assert(directives_view(acc@) =~= Seq::<SpecMcpDirective>::empty());
    loop
        invariant
            index <= all.len(),
            ls == lines_view(all@),
            dir_sm(ls, start as int, Seq::empty(), None) == dir_sm(
                ls,
                index as int,
                directives_view(acc@),
                cur_dir_view(cur),
            ),
        decreases all.len() - index, (if cur is Some { 1int } else { 0int }),
    {
        let c = cur;
        match c {
            None => {
                if index >= all.len() {
                    return Ok(acc);
                }
                assert(ls[index as int] == all@[index as int]@);
                let line = strip_cr_vec(copy_range(&all[index], 0, all[index].len()));
                assert(line@ == strip_cr(ls[index as int]));
                let t = trim_start_vec(&line);
                if is_blank_or_comment_vec(&t) {
                    index = index + 1;
                    cur = None;
                } else if starts_with_str(&t, "- insert:") {
                    return Err(str_chars("mcp 区块出现第二个声明段（不变量 #1：区块只由两段构成，声明段必须在前）"));
                } else if !starts_with_str(&t, "- id: ") {
                    let mut m = str_chars("mcp 区块出现非法行（只允许 `- insert:`、4 空格缩进的声明条目、`- id:` 定向条目）：");
                    let te = trim_end_vec(&t);
                    push_all(&mut m, &te);
                    return Err(m);
                } else if indent_of(&line) != 0 {
                    let mut m = str_chars("mcp 区块的定向条目必须列 0 起始：");
                    let te = trim_end_vec(&t);
                    push_all(&mut m, &te);
                    return Err(m);
                } else {
                    let row_id = key_value_vec(&t, "- id: ");
                    match row_id_error_vec(&row_id) {
                        Some(e) => {
                            return Err(e);
                        },
                        None => {},
                    }
                    index = index + 1;
                    cur = Some((row_id, None));
                }
            },
            Some(pair) => {
                let (row_id, seen) = pair;
                let mut blank = false;
                let mut attr = false;
                if index < all.len() {
                    assert(ls[index as int] == all@[index as int]@);
                    let line = strip_cr_vec(copy_range(&all[index], 0, all[index].len()));
                    assert(line@ == strip_cr(ls[index as int]));
                    let t = trim_start_vec(&line);
                    blank = is_blank_or_comment_vec(&t);
                    attr = !blank && indent_of(&line) == 2;
                }
                if blank {
                    index = index + 1;
                    cur = Some((row_id, seen));
                } else if !attr {
                    match seen {
                        None => {
                            return Err(msg_with_row("mcp 区块定向条目 ", &row_id, " 缺少 disabled"));
                        },
                        Some(d) => {
                            let dir = McpDirective { row_id: chars_string(row_id.as_slice()), disabled: d };
                            let ghost prev = acc@;
                            acc.push(dir);
                            proof {
                                lemma_directives_view_push(prev, dir);
                            }
                            cur = None;
                        },
                    }
                } else {
                    let line = strip_cr_vec(copy_range(&all[index], 0, all[index].len()));
                    let t = trim_start_vec(&line);
                    if !starts_with_str(&t, "disabled:") {
                        return Err(msg_with_tail("mcp 区块定向条目 ", &row_id, " 出现未知属性：", &t));
                    }
                    let v = key_value_vec(&t, "disabled:");
                    let is_true = eq_str(&v, "true");
                    let is_false = eq_str(&v, "false");
                    if !is_true && !is_false {
                        let mut m = msg_with_row("mcp 区块定向条目 ", &row_id, " 的 disabled 非法（只允许 true/false）：\"");
                        push_all(&mut m, &v);
                        push_str(&mut m, "\"");
                        return Err(m);
                    }
                    if seen.is_some() {
                        return Err(msg_with_row("mcp 区块定向条目 ", &row_id, " 出现重复的 disabled"));
                    }
                    index = index + 1;
                    cur = Some((row_id, Some(is_true)));
                }
            },
        }
    }
}

fn skip_blank_vec(all: &Vec<Vec<char>>) -> (i: usize)
    ensures
        i == skip_blank(lines_view(all@), 0),
        i <= all.len(),
{
    let ghost ls = lines_view(all@);
    let mut i: usize = 0;
    while i < all.len()
        invariant
            i <= all.len(),
            ls == lines_view(all@),
            skip_blank(ls, 0) == skip_blank(ls, i as int),
        decreases all.len() - i,
    {
        assert(ls[i as int] == all@[i as int]@);
        let t = trim_vec(&all[i]);
        if !is_blank_or_comment_vec(&t) {
            return i;
        }
        i = i + 1;
    }
    i
}

/// Parses a managed MCP block body (the text between the markers).
pub fn parse(body: &str) -> (r: Result<McpBlock, String>)
    ensures
        r matches Ok(b) ==> spec_parse(body@) == Ok::<SpecMcpBlock, Seq<char>>(b@),
        r matches Err(m) ==> spec_parse(body@) == Err::<SpecMcpBlock, Seq<char>>(m@),
{
    let text = str_chars(body);
    let all = split_lines(&text);
    let ghost ls = lines_view(all@);
    let mut index = skip_blank_vec(&all);
    let mut declares: Vec<McpDeclare> = Vec::new();
    let mut insert = false;
    if index < all.len() {
        assert(ls[index as int] == all@[index as int]@);
        insert = indent_of(&all[index]) == 0 && starts_with_str(&trim_start_vec(&all[index]), "- insert:");
    }
    if insert {
        match parse_declares(&all, index + 1) {
            Err(m) => {
                return Err(chars_string(m.as_slice()));
            },
            Ok(p) => {
                index = p.0;
                declares = p.1;
            },
        }
    }
    assert(!insert ==> declares_view(declares@) =~= Seq::<SpecMcpDeclare>::empty());
    match parse_directives(&all, index) {
        Err(m) => Err(chars_string(m.as_slice())),
        Ok(directives) => Ok(McpBlock { declares, directives }),
    }
}


// ------------------------------------------------------------------ render

pub open spec fn opt_lt(a: Option<Seq<char>>, b: Option<Seq<char>>) -> bool {
    match (a, b) {
        (None, Some(_)) => true,
        (Some(x), Some(y)) => seq_lt(x, y),
        _ => false,
    }
}

/// Order of declarations: by `(serverName, rowId)`, a missing `serverName` first.
pub open spec fn declare_lt(a: SpecMcpDeclare, b: SpecMcpDeclare) -> bool {
    opt_lt(a.server_name, b.server_name) || (a.server_name == b.server_name && seq_lt(
        a.row_id,
        b.row_id,
    ))
}

/// Stable insertion of `x` into `s`: after every element not greater than it.
pub open spec fn insert_declare(s: Seq<SpecMcpDeclare>, x: SpecMcpDeclare) -> Seq<SpecMcpDeclare>
    decreases s.len(),
{
    if s.len() == 0 {
        seq![x]
    } else if !declare_lt(x, s.last()) {
        s.push(x)
    } else {
        insert_declare(s.drop_last(), x).push(s.last())
    }
}

pub open spec fn insert_declare_pos(s: Seq<SpecMcpDeclare>, x: SpecMcpDeclare) -> int
    decreases s.len(),
{
    if s.len() == 0 {
        0
    } else if !declare_lt(x, s.last()) {
        s.len() as int
    } else {
        insert_declare_pos(s.drop_last(), x)
    }
}

/// Stable sort of declarations.
pub open spec fn sort_declares(s: Seq<SpecMcpDeclare>) -> Seq<SpecMcpDeclare>
    decreases s.len(),
{
    if s.len() == 0 {
        Seq::empty()
    } else {
        insert_declare(sort_declares(s.drop_last()), s.last())
    }
}

proof fn lemma_insert_declare_pos(s: Seq<SpecMcpDeclare>, x: SpecMcpDeclare)
    ensures
        0 <= insert_declare_pos(s, x) <= s.len(),
        insert_declare(s, x) == s.insert(insert_declare_pos(s, x), x),
    decreases s.len(),
{
    if s.len() == 0 {
        assert(seq![x] =~= s.insert(0, x));
    } else if !declare_lt(x, s.last()) {
        assert(s.push(x) =~= s.insert(s.len() as int, x));
    } else {
        lemma_insert_declare_pos(s.drop_last(), x);
        let p = insert_declare_pos(s.drop_last(), x);
        assert(s.drop_last().insert(p, x).push(s.last()) =~= s.insert(p, x));
    }
}

pub open spec fn directive_lt(a: SpecMcpDirective, b: SpecMcpDirective) -> bool {
    seq_lt(a.row_id, b.row_id)
}

pub open spec fn insert_directive(s: Seq<SpecMcpDirective>, x: SpecMcpDirective) -> Seq<SpecMcpDirective>
    decreases s.len(),
{
    if s.len() == 0 {
        seq![x]
    } else if !directive_lt(x, s.last()) {
        s.push(x)
    } else {
        insert_directive(s.drop_last(), x).push(s.last())
    }
}

pub open spec fn insert_directive_pos(s: Seq<SpecMcpDirective>, x: SpecMcpDirective) -> int
    decreases s.len(),
{
    if s.len() == 0 {
        0
    } else if !directive_lt(x, s.last()) {
        s.len() as int
    } else {
        insert_directive_pos(s.drop_last(), x)
    }
}

/// Stable sort of directives by row id.
pub open spec fn sort_directives(s: Seq<SpecMcpDirective>) -> Seq<SpecMcpDirective>
    decreases s.len(),
{
    if s.len() == 0 {
        Seq::empty()
    } else {
        insert_directive(sort_directives(s.drop_last()), s.last())
    }
}

proof fn lemma_insert_directive_pos(s: Seq<SpecMcpDirective>, x: SpecMcpDirective)
    ensures
        0 <= insert_directive_pos(s, x) <= s.len(),
        insert_directive(s, x) == s.insert(insert_directive_pos(s, x), x),
    decreases s.len(),
{
    if s.len() == 0 {
        assert(seq![x] =~= s.insert(0, x));
    } else if !directive_lt(x, s.last()) {
        assert(s.push(x) =~= s.insert(s.len() as int, x));
    } else {
        lemma_insert_directive_pos(s.drop_last(), x);
        let p = insert_directive_pos(s.drop_last(), x);
        assert(s.drop_last().insert(p, x).push(s.last()) =~= s.insert(p, x));
    }
}

/// Drops every directive whose row id equals that of the directive before it.
pub open spec fn dedup_directives(s: Seq<SpecMcpDirective>) -> Seq<SpecMcpDirective>
    decreases s.len(),
{
    if s.len() <= 1 {
        s
    } else if s.last().row_id == s[s.len() - 2].row_id {
        dedup_directives(s.drop_last())
    } else {
        dedup_directives(s.drop_last()).push(s.last())
    }
}

/// The first rejection among declarations, in order.
pub open spec fn first_declare_error(ds: Seq<SpecMcpDeclare>) -> Option<Seq<char>>
    decreases ds.len(),
{
    if ds.len() == 0 {
        None
    } else {
        match first_declare_error(ds.drop_last()) {
            Some(e) => Some(e),
            None => declare_error(ds.last().row_id, ds.last().config_raw),
        }
    }
}

/// The first rejection among directives, in order.
pub open spec fn first_directive_error(ds: Seq<SpecMcpDirective>) -> Option<Seq<char>>
    decreases ds.len(),
{
    if ds.len() == 0 {
        None
    } else {
        match first_directive_error(ds.drop_last()) {
            Some(e) => Some(e),
            None => row_id_error(ds.last().row_id),
        }
    }
}

/// Config lines of a declaration, each at six spaces; blank lines dropped.
pub open spec fn render_config(ls: Seq<Seq<char>>, eol: Seq<char>) -> Seq<char>
    decreases ls.len(),
{
    if ls.len() == 0 {
        Seq::empty()
    } else {
        render_config(ls.drop_last(), eol) + (if is_blank_line(ls.last()) {
            Seq::empty()
        } else {
            "      "@ + ls.last() + eol
        })
    }
}

pub open spec fn render_declare(d: SpecMcpDeclare, eol: Seq<char>) -> Seq<char> {
    "    - id: "@ + d.row_id + eol + "      name: "@ + yaml_quoted(MCP_CLIENT_PACKAGE@) + eol
        + "      config:"@ + eol + render_config(raw_lines(d.config_raw), eol)
}

pub open spec fn render_declares(ds: Seq<SpecMcpDeclare>, eol: Seq<char>) -> Seq<char>
    decreases ds.len(),
{
    if ds.len() == 0 {
        Seq::empty()
    } else {
        render_declares(ds.drop_last(), eol) + render_declare(ds.last(), eol)
    }
}

pub open spec fn render_directive(d: SpecMcpDirective, eol: Seq<char>) -> Seq<char> {
    "- id: "@ + d.row_id + eol + "  disabled: "@ + (if d.disabled { "true"@ } else { "false"@ }) + eol
}

pub open spec fn render_directives(ds: Seq<SpecMcpDirective>, eol: Seq<char>) -> Seq<char>
    decreases ds.len(),
{
    if ds.len() == 0 {
        Seq::empty()
    } else {
        render_directives(ds.drop_last(), eol) + render_directive(ds.last(), eol)
    }
}

/// The rendered block body: declarations sorted by `(serverName, rowId)` under
/// `- insert:`, then directives sorted by row id with repeated row ids dropped;
/// the first declaration or directive that may not be written is reported instead.
pub open spec fn spec_render(b: SpecMcpBlock, eol: Seq<char>) -> Result<Seq<char>, Seq<char>> {
    let ds = sort_declares(b.declares);
    let dirs = dedup_directives(sort_directives(b.directives));
    match first_declare_error(ds) {
        Some(e) => Err(e),
        None => match first_directive_error(dirs) {
            Some(e) => Err(e),
            None => Ok(
                (if ds.len() > 0 {
                    "- insert:"@ + eol + render_declares(ds, eol)
                } else {
                    Seq::empty()
                }) + render_directives(dirs, eol),
            ),
        },
    }
}

fn clone_declare(d: &McpDeclare) -> (r: McpDeclare)
    ensures
        r@ == d@,
{
    McpDeclare {
        row_id: d.row_id.clone(),
        server_name: match &d.server_name {
            Some(s) => Some(s.clone()),
            None => None,
        },
        transport: d.transport,
        config_raw: d.config_raw.clone(),
    }
}

fn opt_string_lt(a: &Option<String>, b: &Option<String>) -> (r: bool)
    ensures
        r == opt_lt(crate::text::opt_view(*a), crate::text::opt_view(*b)),
{
    match (a, b) {
        (None, Some(_)) => true,
        (Some(x), Some(y)) => lt_vec(&str_chars(x.as_str()), &str_chars(y.as_str())),
        _ => false,
    }
}

fn opt_string_eq(a: &Option<String>, b: &Option<String>) -> (r: bool)
    ensures
        r == (crate::text::opt_view(*a) == crate::text::opt_view(*b)),
{
    match (a, b) {
        (None, None) => true,
        (Some(x), Some(y)) => crate::text::eq_vec(&str_chars(x.as_str()), &str_chars(y.as_str())),
        _ => false,
    }
}

fn declare_lt_exec(a: &McpDeclare, b: &McpDeclare) -> (r: bool)
    ensures
        r == declare_lt(a@, b@),
{
    opt_string_lt(&a.server_name, &b.server_name) || (opt_string_eq(&a.server_name, &b.server_name)
        && lt_vec(&str_chars(a.row_id.as_str()), &str_chars(b.row_id.as_str())))
}

fn sort_declares_exec(ds: &Vec<McpDeclare>) -> (r: Vec<McpDeclare>)
    ensures
        declares_view(r@) == sort_declares(declares_view(ds@)),
{
    let ghost dv = declares_view(ds@);
    let mut sorted: Vec<McpDeclare> = Vec::new();
    let mut i: usize = 0;
    assert(dv.subrange(0, 0) =~= Seq::<SpecMcpDeclare>::empty());
    assert(declares_view(sorted@) =~= Seq::<SpecMcpDeclare>::empty());
    while i < ds.len()
        invariant
            i <= ds.len(),
            dv == declares_view(ds@),
            declares_view(sorted@) == sort_declares(dv.subrange(0, i as int)),
        decreases ds.len() - i,
    {
        let x = clone_declare(&ds[i]);
        let ghost sv = declares_view(sorted@);
        let mut p: usize = sorted.len();
        assert(sv.subrange(0, sv.len() as int) =~= sv);
        while p > 0 && declare_lt_exec(&x, &sorted[p - 1])
            invariant
                p <= sorted.len(),
                sv == declares_view(sorted@),
                insert_declare_pos(sv, x@) == insert_declare_pos(sv.subrange(0, p as int), x@),
            decreases p,
        {
            let ghost sub = sv.subrange(0, p as int);
            assert(sub.drop_last() =~= sv.subrange(0, p - 1));
            assert(sub.last() == sorted@[p - 1]@);
            p = p - 1;
        }
        proof {
            let sub = sv.subrange(0, p as int);
            if p > 0 {
                assert(sub.last() == sorted@[p - 1]@);
            }
            assert(sv.subrange(0, sv.len() as int) =~= sv);
            lemma_insert_declare_pos(sv, x@);
            lemma_insert_declare_pos(sub, x@);
        }
        let ghost prev = sorted@;
        sorted.insert(p, x);
        assert(declares_view(sorted@) =~= declares_view(prev).insert(p as int, x@));
        assert(dv.subrange(0, i + 1).drop_last() =~= dv.subrange(0, i as int));
        assert(dv.subrange(0, i + 1).last() == ds@[i as int]@);
        i = i + 1;
    }
    assert(dv.subrange(0, ds.len() as int) =~= dv);
    sorted
}


fn clone_directive(d: &McpDirective) -> (r: McpDirective)
    ensures
        r@ == d@,
{
    McpDirective { row_id: d.row_id.clone(), disabled: d.disabled }
}

fn sort_directives_exec(ds: &Vec<McpDirective>) -> (r: Vec<McpDirective>)
    ensures
        directives_view(r@) == sort_directives(directives_view(ds@)),
{
    let ghost dv = directives_view(ds@);
    let mut sorted: Vec<McpDirective> = Vec::new();
    let mut i: usize = 0;
    assert(dv.subrange(0, 0) =~= Seq::<SpecMcpDirective>::empty());
    assert(directives_view(sorted@) =~= Seq::<SpecMcpDirective>::empty());
    while i < ds.len()
        invariant
            i <= ds.len(),
            dv == directives_view(ds@),
            directives_view(sorted@) == sort_directives(dv.subrange(0, i as int)),
        decreases ds.len() - i,
    {
        let x = clone_directive(&ds[i]);
        let xid = str_chars(x.row_id.as_str());
        let ghost sv = directives_view(sorted@);
        let mut p: usize = sorted.len();
        assert(sv.subrange(0, sv.len() as int) =~= sv);
        while p > 0 && lt_vec(&xid, &str_chars(sorted[p - 1].row_id.as_str()))
            invariant
                p <= sorted.len(),
                sv == directives_view(sorted@),
                xid@ == x@.row_id,
                insert_directive_pos(sv, x@) == insert_directive_pos(sv.subrange(0, p as int), x@),
            decreases p,
        {
            let ghost sub = sv.subrange(0, p as int);
            assert(sub.drop_last() =~= sv.subrange(0, p - 1));
            assert(sub.last() == sorted@[p - 1]@);
            p = p - 1;
        }
        proof {
            let sub = sv.subrange(0, p as int);
            if p > 0 {
                assert(sub.last() == sorted@[p - 1]@);
            }
            lemma_insert_directive_pos(sv, x@);
            lemma_insert_directive_pos(sub, x@);
        }
        let ghost prev = sorted@;
        sorted.insert(p, x);
        assert(directives_view(sorted@) =~= directives_view(prev).insert(p as int, x@));
        assert(dv.subrange(0, i + 1).drop_last() =~= dv.subrange(0, i as int));
        assert(dv.subrange(0, i + 1).last() == ds@[i as int]@);
        i = i + 1;
    }
    assert(dv.subrange(0, ds.len() as int) =~= dv);
    sorted
}

fn dedup_directives_exec(ds: Vec<McpDirective>) -> (r: Vec<McpDirective>)
    ensures
        directives_view(r@) == dedup_directives(directives_view(ds@)),
{
    let ghost dv = directives_view(ds@);
    let mut out: Vec<McpDirective> = Vec::new();
    let mut i: usize = 0;
    assert(directives_view(out@) =~= dedup_directives(dv.subrange(0, 0)));
    while i < ds.len()
        invariant
            i <= ds.len(),
            dv == directives_view(ds@),
            directives_view(out@) == dedup_directives(dv.subrange(0, i as int)),
        decreases ds.len() - i,
    {
        let ghost sub = dv.subrange(0, i + 1);
        assert(sub.drop_last() =~= dv.subrange(0, i as int));
        assert(sub.last() == ds@[i as int]@);
        let keep = if i == 0 {
            true
        } else {
            assert(sub[sub.len() - 2] == ds@[i - 1]@);
            !crate::text::eq_vec(&str_chars(ds[i].row_id.as_str()), &str_chars(ds[i - 1].row_id.as_str()))
        };
        if keep {
            let d = clone_directive(&ds[i]);
            let ghost prev = out@;
            out.push(d);
            proof {
                lemma_directives_view_push(prev, d);
            }
        }
        proof {
            if i == 0 {
                assert(sub =~= seq![ds@[0]@]);
                assert(dedup_directives(dv.subrange(0, 0)) =~= Seq::<SpecMcpDirective>::empty());
            }
        }
        i = i + 1;
    }
    assert(dv.subrange(0, ds.len() as int) =~= dv);
    out
}

fn render_config_exec(out: &mut Vec<char>, raw: &Vec<char>, eol: &Vec<char>)
    ensures
        final(out)@ == old(out)@ + render_config(raw_lines(raw@), eol@),
{
    let ls = raw_lines_vec(raw);
    let ghost lv = lines_view(ls@);
    let ghost start = out@;
    let mut i: usize = 0;
    while i < ls.len()
        invariant
            i <= ls.len(),
            lv == lines_view(ls@),
            lv == raw_lines(raw@),
            out@ == start + render_config(lv.subrange(0, i as int), eol@),
        decreases ls.len() - i,
    {
        let ghost sub = lv.subrange(0, i + 1);
        assert(sub.drop_last() =~= lv.subrange(0, i as int));
        assert(sub.last() == ls@[i as int]@);
        if !is_blank_line_vec(&ls[i]) {
            push_str(out, "      ");
            push_all(out, &ls[i]);
            push_all(out, eol);
        }
        i = i + 1;
        assert(out@ =~= start + render_config(lv.subrange(0, i as int), eol@));
    }
    assert(lv.subrange(0, ls.len() as int) =~= lv);
}

/// Renders a managed MCP block body (without markers), or the first entry that
/// may not be written.
pub fn render(block: &McpBlock, eol: &str) -> (r: Result<String, String>)
    ensures
        r matches Ok(s) ==> spec_render(block@, eol@) == Ok::<Seq<char>, Seq<char>>(s@),
        r matches Err(m) ==> spec_render(block@, eol@) == Err::<Seq<char>, Seq<char>>(m@),
{
    let e = str_chars(eol);
    let declares = sort_declares_exec(&block.declares);
    let ghost dsv = declares_view(declares@);
    let mut i: usize = 0;
    while i < declares.len()
        invariant
            i <= declares.len(),
            dsv == declares_view(declares@),
            dsv == sort_declares(block@.declares),
            first_declare_error(dsv.subrange(0, i as int)) is None,
        decreases declares.len() - i,
    {
        let ghost sub = dsv.subrange(0, i + 1);
        assert(sub.drop_last() =~= dsv.subrange(0, i as int));
        assert(sub.last() == declares@[i as int]@);
        let id = str_chars(declares[i].row_id.as_str());
        let raw = str_chars(declares[i].config_raw.as_str());
        match declare_error_vec(&id, &raw) {
            Some(m) => {
                proof {
                    assert(first_declare_error(sub) == Some(m@));
                    lemma_first_declare_error_prefix(dsv, (i + 1) as int);
                }
                return Err(chars_string(m.as_slice()));
            },
            None => {},
        }
        i = i + 1;
    }
    assert(dsv.subrange(0, declares.len() as int) =~= dsv);
    let sorted_dirs = sort_directives_exec(&block.directives);
    let directives = dedup_directives_exec(sorted_dirs);
    let ghost drv = directives_view(directives@);
    let mut j: usize = 0;
    while j < directives.len()
        invariant
            j <= directives.len(),
            drv == directives_view(directives@),
            drv == dedup_directives(sort_directives(block@.directives)),
            dsv == sort_declares(block@.declares),
            first_directive_error(drv.subrange(0, j as int)) is None,
            first_declare_error(dsv) is None,
        decreases directives.len() - j,
    {
        let ghost sub = drv.subrange(0, j + 1);
        assert(sub.drop_last() =~= drv.subrange(0, j as int));
        assert(sub.last() == directives@[j as int]@);
        let id = str_chars(directives[j].row_id.as_str());
        match row_id_error_vec(&id) {
            Some(m) => {
                proof {
                    assert(first_directive_error(sub) == Some(m@));
                    lemma_first_directive_error_prefix(drv, (j + 1) as int);
                }
                return Err(chars_string(m.as_slice()));
            },
            None => {},
        }
        j = j + 1;
    }
    assert(drv.subrange(0, directives.len() as int) =~= drv);
    let mut out: Vec<char> = Vec::new();
    if declares.len() > 0 {
        push_str(&mut out, "- insert:");
        push_all(&mut out, &e);
        let pkg = yaml_quote_vec(&str_chars(MCP_CLIENT_PACKAGE));
        let mut k: usize = 0;
        let ghost start = out@;
        while k < declares.len()
            invariant
                k <= declares.len(),
                dsv == declares_view(declares@),
                pkg@ == yaml_quoted(MCP_CLIENT_PACKAGE@),
                e@ == eol@,
                out@ == start + render_declares(dsv.subrange(0, k as int), e@),
            decreases declares.len() - k,
        {
            let ghost sub = dsv.subrange(0, k + 1);
            assert(sub.drop_last() =~= dsv.subrange(0, k as int));
            assert(sub.last() == declares@[k as int]@);
            let ghost before = out@;
            push_str(&mut out, "    - id: ");
            push_str(&mut out, declares[k].row_id.as_str());
            push_all(&mut out, &e);
            push_str(&mut out, "      name: ");
            push_all(&mut out, &pkg);
            push_all(&mut out, &e);
            push_str(&mut out, "      config:");
            push_all(&mut out, &e);
            let raw = str_chars(declares[k].config_raw.as_str());
            render_config_exec(&mut out, &raw, &e);
            assert(out@ =~= before + render_declare(declares@[k as int]@, e@));
            k = k + 1;
            assert(out@ =~= start + render_declares(dsv.subrange(0, k as int), e@));
        }
        assert(dsv.subrange(0, declares.len() as int) =~= dsv);
    }
    let ghost head = out@;
    let mut k: usize = 0;
    while k < directives.len()
        invariant
            k <= directives.len(),
            drv == directives_view(directives@),
            e@ == eol@,
            out@ == head + render_directives(drv.subrange(0, k as int), e@),
        decreases directives.len() - k,
    {
        let ghost sub = drv.subrange(0, k + 1);
        assert(sub.drop_last() =~= drv.subrange(0, k as int));
        assert(sub.last() == directives@[k as int]@);
        let ghost before = out@;
        push_str(&mut out, "- id: ");
        push_str(&mut out, directives[k].row_id.as_str());
        push_all(&mut out, &e);
        push_str(&mut out, "  disabled: ");
        if directives[k].disabled {
            push_str(&mut out, "true");
        } else {
            push_str(&mut out, "false");
        }
        push_all(&mut out, &e);
        assert(out@ =~= before + render_directive(directives@[k as int]@, e@));
        k = k + 1;
        assert(out@ =~= head + render_directives(drv.subrange(0, k as int), e@));
    }
    assert(drv.subrange(0, directives.len() as int) =~= drv);
    Ok(chars_string(out.as_slice()))
}

proof fn lemma_first_declare_error_prefix(ds: Seq<SpecMcpDeclare>, k: int)
    requires
        0 <= k <= ds.len(),
        first_declare_error(ds.subrange(0, k)) is Some,
    ensures
        first_declare_error(ds) == first_declare_error(ds.subrange(0, k)),
    decreases ds.len() - k,
{
    if k < ds.len() {
        assert(ds.subrange(0, k + 1).drop_last() =~= ds.subrange(0, k));
        lemma_first_declare_error_prefix(ds, k + 1);
    } else {
        assert(ds.subrange(0, k) =~= ds);
    }
}

proof fn lemma_first_directive_error_prefix(ds: Seq<SpecMcpDirective>, k: int)
    requires
        0 <= k <= ds.len(),
        first_directive_error(ds.subrange(0, k)) is Some,
    ensures
        first_directive_error(ds) == first_directive_error(ds.subrange(0, k)),
    decreases ds.len() - k,
{
    if k < ds.len() {
        assert(ds.subrange(0, k + 1).drop_last() =~= ds.subrange(0, k));
        lemma_first_directive_error_prefix(ds, k + 1);
    } else {
        assert(ds.subrange(0, k) =~= ds);
    }
}

// ------------------------------------------------------------------ reading and writing a file's block

/// The block a managed-block body holds: a blank body is the empty block, any
/// other is parsed.
pub fn block_of_body(body: &str) -> (r: Result<McpBlock, String>)
    ensures
        trim(body@).len() == 0 ==> (r matches Ok(b) && b@.declares.len() == 0 && b@.directives.len() == 0),
        trim(body@).len() > 0 ==> (r matches Ok(b) ==> spec_parse(body@) == Ok::<SpecMcpBlock, Seq<char>>(b@)),
        trim(body@).len() > 0 ==> (r matches Err(m) ==> spec_parse(body@) == Err::<SpecMcpBlock, Seq<char>>(m@)),
{
    if trim_vec(&str_chars(body)).len() == 0 {
        let b = McpBlock { declares: Vec::new(), directives: Vec::new() };
        return Ok(b);
    }
    parse(body)
}

/// The line ending a file's text uses: CRLF when it holds one, else LF (also
/// for a file that does not exist).
pub fn eol_of(content: Option<&str>) -> (e: &'static str)
    ensures
        e@ == (match content {
            Some(c) => if find(c@, "\r\n"@) is Some {
                "\r\n"@
            } else {
                "\n"@
            },
            None => "\n"@,
        }),
{
    match content {
        Some(c) => if find_str(&str_chars(c), "\r\n").is_some() {
            "\r\n"
        } else {
            "\n"
        },
        None => "\n",
    }
}

/// The body to write for a block: none for an empty block (the block is
/// removed, or never created), else its rendering.
pub fn body_to_write(block: &McpBlock, eol: &str) -> (r: Result<Option<String>, String>)
    ensures
        (block@.declares.len() == 0 && block@.directives.len() == 0) ==> (r matches Ok(o) && o is None),
        !(block@.declares.len() == 0 && block@.directives.len() == 0) ==> match spec_render(block@, eol@) {
            Ok(t) => r matches Ok(o) && o matches Some(x) && x@ == t,
            Err(m) => r matches Err(x) && x@ == m,
        },
{
    if block.is_empty() {
        Ok(None)
    } else {
        match render(block, eol) {
            Ok(t) => Ok(Some(t)),
            Err(m) => Err(m),
        }
    }
}

} // verus!
