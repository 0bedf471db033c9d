//! Rendering the managed MCP block, parsing the text back and rendering again
//! gives the same bytes.
use crate::mcp::block::{
    content_base, decl_sm, declare_lt, dedup_directives, dir_sm, directive_lt, first_declare_error,
    first_directive_error, first_kept, insert_declare, insert_directive, is_blank_line, kept_lines,
    first_content, is_blank_or_comment, key_value, last_kept, make_declare, min_content_indent, raw_lines,
    render_config, scalar_from,
    render_declare, render_declares, render_directive, render_directives, shift_line, skip_blank,
    sort_declares, sort_directives, spec_config_scalar, spec_normalize, spec_parse, spec_render, spec_unquote,
    strip_inline_comment, subtree_end, subtree_raw, MCP_CLIENT_PACKAGE,
};
use crate::mcp::entry::{declare_error, SpecMcpBlock, SpecMcpDeclare, SpecMcpDirective};
use crate::mcp::normal_form::{
    all_no_newline, lemma_blank_iff, lemma_indent_unique, lemma_lines_cons, lemma_lines_from_no_newline,
    lemma_lines_join, lemma_min_shift, lemma_ws_end_unique, no_cr_end, no_newline, shifted_ok,
};
use crate::plugin::managed::{
    is_row_id_char, row_id_error, row_id_malformed, row_id_unsafe, yaml_escape, yaml_quoted,
};
use crate::text::{
    find, indent, is_ws, join, lemma_find_from_props, lemma_indent_bounds, lemma_ws_end_bounds,
    lemma_ws_start_bounds, lines, occurs_at, seq_lt, starts_with, strip_cr, trim, trim_end,
    trim_start, ws_end_from, ws_start_back,
};
use vstd::prelude::*;

verus! {

// ------------------------------------------------------------------ text made of lines

/// Lines, each followed by a line feed.
pub open spec fn text_of(ls: Seq<Seq<char>>) -> Seq<char>
    decreases ls.len(),
{
    if ls.len() == 0 {
        Seq::empty()
    } else {
        text_of(ls.drop_last()) + ls.last() + seq!['\n']
    }
}

/// Every line is free of line feeds and does not end in a carriage return.
pub open spec fn plain_lines(ls: Seq<Seq<char>>) -> bool {
    forall|i: int| 0 <= i < ls.len() ==> no_newline(#[trigger] ls[i]) && no_cr_end(ls[i])
}

proof fn lemma_text_of_concat(a: Seq<Seq<char>>, b: Seq<Seq<char>>)
    ensures
        text_of(a + b) == text_of(a) + text_of(b),
    decreases b.len(),
{
    if b.len() == 0 {
        assert(a + b =~= a);
        assert(text_of(a) + text_of(b) =~= text_of(a));
    } else {
        lemma_text_of_concat(a, b.drop_last());
        assert((a + b).drop_last() =~= a + b.drop_last());
        assert((a + b).last() == b.last());
        assert(text_of(a + b) =~= text_of(a) + text_of(b));
    }
}

proof fn lemma_text_of_single(x: Seq<char>)
    ensures
        text_of(seq![x]) == x + seq!['\n'],
{
    assert(seq![x].drop_last() =~= Seq::<Seq<char>>::empty());
    assert(text_of(Seq::<Seq<char>>::empty()) == Seq::<char>::empty());
    assert(seq![x].last() == x);
    assert(text_of(seq![x]) == text_of(seq![x].drop_last()) + x + seq!['\n']);
    assert(text_of(seq![x]) =~= x + seq!['\n']);
}

proof fn lemma_lines_text(ls: Seq<Seq<char>>)
    requires
        plain_lines(ls),
    ensures
        lines(text_of(ls)) == ls,
    decreases ls.len(),
{
    if ls.len() == 0 {
        assert(lines(text_of(ls)) =~= ls);
    } else {
        let rest = ls.skip(1);
        assert(seq![ls[0]] + rest =~= ls);
        lemma_text_of_concat(seq![ls[0]], rest);
        lemma_text_of_single(ls[0]);
        assert(no_newline(ls[0]) && no_cr_end(ls[0]));
        lemma_lines_cons(ls[0], text_of(rest));
        assert forall|i: int| 0 <= i < rest.len() implies no_newline(#[trigger] rest[i]) && no_cr_end(
            rest[i],
        ) by {
            assert(rest[i] == ls[i + 1]);
        }
        lemma_lines_text(rest);
        assert(strip_cr(ls[0]) == ls[0]);
        assert(text_of(ls) == ls[0] + seq!['\n'] + text_of(rest));
    }
}

// ------------------------------------------------------------------ the lines a render writes

pub open spec fn dir_lines(d: SpecMcpDirective) -> Seq<Seq<char>> {
    seq![
        "- id: "@ + d.row_id,
        "  disabled: "@ + (if d.disabled {
            "true"@
        } else {
            "false"@
        }),
    ]
}

pub open spec fn dirs_lines(ds: Seq<SpecMcpDirective>) -> Seq<Seq<char>>
    decreases ds.len(),
{
    if ds.len() == 0 {
        Seq::empty()
    } else {
        dirs_lines(ds.drop_last()) + dir_lines(ds.last())
    }
}

pub open spec fn config_render_lines(ls: Seq<Seq<char>>) -> Seq<Seq<char>> {
    Seq::new(ls.len(), |j: int| "      "@ + ls[j])
}

pub open spec fn decl_head(d: SpecMcpDeclare) -> Seq<Seq<char>> {
    seq!["    - id: "@ + d.row_id, "      name: "@ + yaml_quoted(MCP_CLIENT_PACKAGE@), "      config:"@]
}

pub open spec fn decl_lines(d: SpecMcpDeclare) -> Seq<Seq<char>> {
    decl_head(d) + config_render_lines(raw_lines(d.config_raw))
}

pub open spec fn decls_lines(ds: Seq<SpecMcpDeclare>) -> Seq<Seq<char>>
    decreases ds.len(),
{
    if ds.len() == 0 {
        Seq::empty()
    } else {
        decls_lines(ds.drop_last()) + decl_lines(ds.last())
    }
}

pub open spec fn all_nonblank(ls: Seq<Seq<char>>) -> bool {
    forall|i: int| 0 <= i < ls.len() ==> !is_blank_line(#[trigger] ls[i])
}

proof fn lemma_render_directive(d: SpecMcpDirective)
    ensures
        render_directive(d, seq!['\n']) == text_of(dir_lines(d)),
{
    let l = dir_lines(d);
    assert(l.drop_last() =~= seq![l[0]]);
    lemma_text_of_single(l[0]);
    assert(render_directive(d, seq!['\n']) =~= text_of(l));
}

proof fn lemma_render_directives(ds: Seq<SpecMcpDirective>)
    ensures
        render_directives(ds, seq!['\n']) == text_of(dirs_lines(ds)),
    decreases ds.len(),
{
    if ds.len() > 0 {
        lemma_render_directives(ds.drop_last());
        lemma_render_directive(ds.last());
        lemma_text_of_concat(dirs_lines(ds.drop_last()), dir_lines(ds.last()));
    }
}

proof fn lemma_render_config(ls: Seq<Seq<char>>)
    requires
        all_nonblank(ls),
    ensures
        render_config(ls, seq!['\n']) == text_of(config_render_lines(ls)),
    decreases ls.len(),
{
    if ls.len() > 0 {
        let dl = ls.drop_last();
        assert forall|i: int| 0 <= i < dl.len() implies !is_blank_line(#[trigger] dl[i]) by {
            assert(dl[i] == ls[i]);
        }
        lemma_render_config(dl);
        assert(!is_blank_line(ls.last()));
        let c = config_render_lines(ls);
        assert(c.drop_last() =~= config_render_lines(dl));
        assert(c.last() == "      "@ + ls.last());
        assert(render_config(ls, seq!['\n']) =~= text_of(c));
    }
}

proof fn lemma_render_declare(d: SpecMcpDeclare)
    requires
        all_nonblank(raw_lines(d.config_raw)),
    ensures
        render_declare(d, seq!['\n']) == text_of(decl_lines(d)),
{
    let h = decl_head(d);
    let c = config_render_lines(raw_lines(d.config_raw));
    lemma_render_config(raw_lines(d.config_raw));
    lemma_text_of_concat(h, c);
    assert(h.drop_last() =~= seq![h[0], h[1]]);
    assert(seq![h[0], h[1]].drop_last() =~= seq![h[0]]);
    lemma_text_of_single(h[0]);
    assert(text_of(seq![h[0], h[1]]) == text_of(seq![h[0]]) + h[1] + seq!['\n']);
    assert(text_of(h) == text_of(seq![h[0], h[1]]) + h[2] + seq!['\n']);
    assert(text_of(h) =~= h[0] + seq!['\n'] + h[1] + seq!['\n'] + h[2] + seq!['\n']);
    assert(render_declare(d, seq!['\n']) =~= text_of(decl_lines(d)));
}

// ------------------------------------------------------------------ stored declarations

/// A line of a stored `config`: not blank, at least two spaces deep, not ending in
/// a carriage return, and not reading like a dump section header (`# == `).
pub open spec fn stored_line(l: Seq<char>) -> bool {
    &&& !is_blank_line(l)
    &&& indent(l) >= 2
    &&& no_cr_end(l)
    &&& !starts_with(trim_start(l), "# == "@)
}

/// A `config` subtree as the block stores it: stored lines joined by line feeds,
/// the shallowest content line at exactly two spaces, no trailing whitespace.
pub open spec fn stored_config(c: Seq<char>) -> bool {
    let ls = lines(c);
    &&& ls.len() > 0
    &&& c == join(ls, seq!['\n'])
    &&& forall|i: int| 0 <= i < ls.len() ==> stored_line(#[trigger] ls[i])
    &&& min_content_indent(ls) == Some(2int)
    &&& trim_end(c) == c
}

/// A declaration as the block keeps it: its views read from its own stored config.
pub open spec fn stored_declare(d: SpecMcpDeclare) -> bool {
    &&& d == make_declare(d.row_id, d.config_raw)
    &&& stored_config(d.config_raw)
}

pub open spec fn all_stored(ds: Seq<SpecMcpDeclare>) -> bool {
    forall|k: int| 0 <= k < ds.len() ==> stored_declare(#[trigger] ds[k])
}

proof fn lemma_stored_lines(c: Seq<char>)
    requires
        stored_config(c),
    ensures
        raw_lines(c) == lines(c),
        all_nonblank(lines(c)),
        plain_lines(lines(c)),
{
    lemma_lines_from_no_newline(c, 0, 0);
    let ls = lines(c);
    assert forall|i: int| 0 <= i < ls.len() implies strip_cr(#[trigger] ls[i]) == ls[i] by {
        assert(stored_line(ls[i]));
    }
    assert(raw_lines(c) =~= ls);
    assert forall|i: int| 0 <= i < ls.len() implies !is_blank_line(#[trigger] ls[i]) by {
        assert(stored_line(ls[i]));
    }
    assert forall|i: int| 0 <= i < ls.len() implies no_newline(#[trigger] ls[i]) && no_cr_end(ls[i]) by {
        assert(stored_line(ls[i]));
    }
}

proof fn lemma_insert_declare_keeps(s: Seq<SpecMcpDeclare>, x: SpecMcpDeclare)
    requires
        all_stored(s),
        stored_declare(x),
    ensures
        all_stored(insert_declare(s, x)),
        insert_declare(s, x).len() == s.len() + 1,
    decreases s.len(),
{
    if s.len() > 0 {
        let dl = s.drop_last();
        assert forall|k: int| 0 <= k < dl.len() implies stored_declare(#[trigger] dl[k]) by {
            assert(dl[k] == s[k]);
        }
        lemma_insert_declare_keeps(dl, x);
        assert(stored_declare(s[s.len() - 1]));
        let r = insert_declare(s, x);
        assert forall|k: int| 0 <= k < r.len() implies stored_declare(#[trigger] r[k]) by {
            if k < r.len() - 1 {
            }
        }
    }
}

proof fn lemma_sort_declares_keeps(s: Seq<SpecMcpDeclare>)
    requires
        all_stored(s),
    ensures
        all_stored(sort_declares(s)),
        sort_declares(s).len() == s.len(),
    decreases s.len(),
{
    if s.len() > 0 {
        let dl = s.drop_last();
        assert forall|k: int| 0 <= k < dl.len() implies stored_declare(#[trigger] dl[k]) by {
            assert(dl[k] == s[k]);
        }
        lemma_sort_declares_keeps(dl);
        assert(stored_declare(s[s.len() - 1]));
        lemma_insert_declare_keeps(sort_declares(dl), s.last());
    }
}

proof fn lemma_render_declares(ds: Seq<SpecMcpDeclare>)
    requires
        all_stored(ds),
    ensures
        render_declares(ds, seq!['\n']) == text_of(decls_lines(ds)),
    decreases ds.len(),
{
    if ds.len() > 0 {
        let dl = ds.drop_last();
        assert forall|k: int| 0 <= k < dl.len() implies stored_declare(#[trigger] dl[k]) by {
            assert(dl[k] == ds[k]);
        }
        lemma_render_declares(dl);
        assert(stored_declare(ds[ds.len() - 1]));
        lemma_stored_lines(ds.last().config_raw);
        lemma_render_declare(ds.last());
        lemma_text_of_concat(decls_lines(dl), decl_lines(ds.last()));
    }
}

/// The lines of a rendered block with sorted declarations `ds` and directives `dirs`.
pub open spec fn block_lines(ds: Seq<SpecMcpDeclare>, dirs: Seq<SpecMcpDirective>) -> Seq<Seq<char>> {
    (if ds.len() > 0 {
        seq!["- insert:"@] + decls_lines(ds)
    } else {
        Seq::empty()
    }) + dirs_lines(dirs)
}

pub open spec fn rendered_declares(b: SpecMcpBlock) -> Seq<SpecMcpDeclare> {
    sort_declares(b.declares)
}

pub open spec fn rendered_directives(b: SpecMcpBlock) -> Seq<SpecMcpDirective> {
    dedup_directives(sort_directives(b.directives))
}

proof fn lemma_render_text(b: SpecMcpBlock)
    requires
        spec_render(b, seq!['\n']) is Ok,
        all_stored(b.declares),
    ensures
        spec_render(b, seq!['\n']) == Ok::<Seq<char>, Seq<char>>(
            text_of(block_lines(rendered_declares(b), rendered_directives(b))),
        ),
        all_stored(rendered_declares(b)),
        first_declare_error(rendered_declares(b)) is None,
        first_directive_error(rendered_directives(b)) is None,
{
    let ds = rendered_declares(b);
    let dirs = rendered_directives(b);
    lemma_sort_declares_keeps(b.declares);
    lemma_render_declares(ds);
    lemma_render_directives(dirs);
    let head: Seq<Seq<char>> = if ds.len() > 0 {
        seq!["- insert:"@] + decls_lines(ds)
    } else {
        Seq::empty()
    };
    lemma_text_of_concat(head, dirs_lines(dirs));
    if ds.len() > 0 {
        lemma_text_of_concat(seq!["- insert:"@], decls_lines(ds));
        lemma_text_of_single("- insert:"@);
        assert(text_of(head) =~= "- insert:"@ + seq!['\n'] + render_declares(ds, seq!['\n']));
    } else {
        assert(text_of(head) =~= Seq::<char>::empty());
    }
}

// ------------------------------------------------------------------ characters of the rendered lines

/// A row id that may be written: not empty, every character in the safe set.
pub open spec fn safe_id(r: Seq<char>) -> bool {
    r.len() > 0 && forall|i: int| 0 <= i < r.len() ==> is_row_id_char(#[trigger] r[i])
}

proof fn lemma_row_id_ok(r: Seq<char>)
    requires
        row_id_error(r) is None,
    ensures
        safe_id(r),
{
    assert(!row_id_malformed(r));
    assert(!row_id_unsafe(r));
    assert forall|i: int| 0 <= i < r.len() implies is_row_id_char(#[trigger] r[i]) by {
        if !is_row_id_char(r[i]) {
            assert(row_id_unsafe(r));
        }
    }
}

proof fn lemma_id_char(c: char)
    requires
        is_row_id_char(c),
    ensures
        c != '\n',
        c != '\r',
        c != '#',
        c != '\'',
        c != '"',
        c != ' ',
        !is_ws(c),
{
}

proof fn lemma_pkg_safe()
    ensures
        safe_id(MCP_CLIENT_PACKAGE@),
        yaml_quoted(MCP_CLIENT_PACKAGE@) == seq!['\''] + MCP_CLIENT_PACKAGE@ + seq!['\''],
{
    reveal_strlit("@deepseek-ai/dsh-mcp-client");
    let p = MCP_CLIENT_PACKAGE@;
    assert(p.len() == 27);
    assert forall|i: int| 0 <= i < p.len() implies is_row_id_char(#[trigger] p[i]) by {
        assert(p[i] == "@deepseek-ai/dsh-mcp-client"@[i]);
    }
    assert forall|i: int| 0 <= i < p.len() implies p[i] != '\'' by {
        lemma_id_char(p[i]);
    }
    lemma_escape_plain(p);
}

proof fn lemma_escape_plain(s: Seq<char>)
    requires
        forall|i: int| 0 <= i < s.len() ==> s[i] != '\'',
    ensures
        yaml_escape(s) == s,
    decreases s.len(),
{
    if s.len() > 0 {
        let dl = s.drop_last();
        assert forall|i: int| 0 <= i < dl.len() implies dl[i] != '\'' by {
            assert(dl[i] == s[i]);
        }
        lemma_escape_plain(dl);
        assert(s[s.len() - 1] != '\'');
        assert(dl.push(s.last()) =~= s);
    }
}

proof fn lemma_plain_concat(a: Seq<Seq<char>>, b: Seq<Seq<char>>)
    requires
        plain_lines(a),
        plain_lines(b),
    ensures
        plain_lines(a + b),
{
    assert forall|i: int| 0 <= i < (a + b).len() implies no_newline(#[trigger] (a + b)[i]) && no_cr_end(
        (a + b)[i],
    ) by {
        if i < a.len() {
            assert((a + b)[i] == a[i]);
        } else {
            assert((a + b)[i] == b[i - a.len()]);
        }
    }
}

/// A literal prefix followed by a safe id is a plain line.
proof fn lemma_prefixed_plain(p: Seq<char>, r: Seq<char>)
    requires
        no_newline(p),
        no_newline(r),
        no_cr_end(r),
        r.len() > 0,
    ensures
        no_newline(p + r),
        no_cr_end(p + r),
{
    assert forall|k: int| 0 <= k < (p + r).len() implies (p + r)[k] != '\n' by {
        if k < p.len() {
            assert((p + r)[k] == p[k]);
        } else {
            assert((p + r)[k] == r[k - p.len()]);
        }
    }
    assert((p + r).last() == r.last());
}

proof fn lemma_safe_id_plain(r: Seq<char>)
    requires
        safe_id(r),
    ensures
        no_newline(r),
        no_cr_end(r),
{
    assert forall|k: int| 0 <= k < r.len() implies r[k] != '\n' by {
        lemma_id_char(r[k]);
    }
    lemma_id_char(r[r.len() - 1]);
}

proof fn lemma_dir_lines_plain(d: SpecMcpDirective)
    requires
        safe_id(d.row_id),
    ensures
        plain_lines(dir_lines(d)),
{
    reveal_strlit("- id: ");
    reveal_strlit("  disabled: ");
    reveal_strlit("true");
    reveal_strlit("false");
    lemma_safe_id_plain(d.row_id);
    lemma_prefixed_plain("- id: "@, d.row_id);
    let v: Seq<char> = if d.disabled {
        "true"@
    } else {
        "false"@
    };
    assert(v.len() > 0);
    assert(no_newline(v) && no_cr_end(v));
    lemma_prefixed_plain("  disabled: "@, v);
    let l = dir_lines(d);
    assert(l[0] == "- id: "@ + d.row_id);
    assert(l[1] == "  disabled: "@ + v);
}

pub open spec fn all_safe_dirs(ds: Seq<SpecMcpDirective>) -> bool {
    forall|k: int| 0 <= k < ds.len() ==> safe_id(#[trigger] ds[k].row_id)
}

proof fn lemma_dirs_lines_plain(ds: Seq<SpecMcpDirective>)
    requires
        all_safe_dirs(ds),
    ensures
        plain_lines(dirs_lines(ds)),
    decreases ds.len(),
{
    if ds.len() > 0 {
        let dl = ds.drop_last();
        assert forall|k: int| 0 <= k < dl.len() implies safe_id(#[trigger] dl[k].row_id) by {
            assert(dl[k] == ds[k]);
        }
        lemma_dirs_lines_plain(dl);
        assert(safe_id(ds[ds.len() - 1].row_id));
        lemma_dir_lines_plain(ds.last());
        lemma_plain_concat(dirs_lines(dl), dir_lines(ds.last()));
    }
}

proof fn lemma_decl_lines_plain(d: SpecMcpDeclare)
    requires
        safe_id(d.row_id),
        stored_config(d.config_raw),
    ensures
        plain_lines(decl_lines(d)),
{
    reveal_strlit("    - id: ");
    reveal_strlit("      name: ");
    reveal_strlit("      config:");
    reveal_strlit("      ");
    lemma_safe_id_plain(d.row_id);
    lemma_prefixed_plain("    - id: "@, d.row_id);
    lemma_pkg_safe();
    let q = yaml_quoted(MCP_CLIENT_PACKAGE@);
    lemma_safe_id_plain(MCP_CLIENT_PACKAGE@);
    assert(no_newline(q)) by {
        assert forall|k: int| 0 <= k < q.len() implies q[k] != '\n' by {
            if 0 < k < q.len() - 1 {
                assert(q[k] == MCP_CLIENT_PACKAGE@[k - 1]);
            }
        }
    }
    assert(q.last() == '\'');
    lemma_prefixed_plain("      name: "@, q);
    let h = decl_head(d);
    let c3: Seq<char> = "      config:"@;
    assert(no_newline(c3) && no_cr_end(c3));
    assert(plain_lines(h)) by {
        assert(h[0] == "    - id: "@ + d.row_id);
        assert(h[1] == "      name: "@ + q);
        assert(h[2] == c3);
    }
    lemma_stored_lines(d.config_raw);
    let ls = raw_lines(d.config_raw);
    let c = config_render_lines(ls);
    assert forall|j: int| 0 <= j < c.len() implies no_newline(#[trigger] c[j]) && no_cr_end(c[j]) by {
        assert(ls[j] == lines(d.config_raw)[j]);
        assert(!is_blank_line(ls[j]));
        if ls[j].len() == 0 {
            assert(trim_start(ls[j]).len() == 0);
        }
        lemma_prefixed_plain("      "@, ls[j]);
    }
    lemma_plain_concat(h, c);
}

// ------------------------------------------------------------------ reading one rendered line

/// `s` opens with `k` spaces followed by a non-whitespace character (or ends there).
pub open spec fn lead(s: Seq<char>, k: int) -> bool {
    &&& 0 <= k <= s.len()
    &&& forall|i: int| 0 <= i < k ==> #[trigger] s[i] == ' '
    &&& k < s.len() ==> !is_ws(s[k])
}

proof fn lemma_lead(s: Seq<char>, k: int)
    requires
        lead(s, k),
    ensures
        ws_end_from(s, 0) == k,
        indent(s) == k,
        trim_start(s) == s.subrange(k, s.len() as int),
{
    assert(is_ws(' '));
    assert forall|i: int| 0 <= i < k implies is_ws(#[trigger] s[i]) by {
        assert(s[i] == ' ');
    }
    lemma_ws_end_unique(s, k);
    lemma_indent_unique(s, k);
}

/// A sequence with non-whitespace ends is its own trim.
proof fn lemma_trim_tight(s: Seq<char>)
    requires
        s.len() > 0,
        !is_ws(s[0]),
        !is_ws(s.last()),
    ensures
        trim(s) == s,
        trim_start(s) == s,
{
    assert(ws_end_from(s, 0) == 0);
    assert(trim_start(s) =~= s);
    assert(ws_start_back(s, s.len() as int) == s.len());
    assert(trim_end(s) =~= s);
}

proof fn lemma_find_none(s: Seq<char>)
    requires
        forall|k: int| 0 <= k < s.len() ==> s[k] != '#',
    ensures
        find(s, " # "@) is None,
{
    reveal_strlit(" # ");
    lemma_find_from_props(s, " # "@, 0);
    if let Some(k) = find(s, " # "@) {
        assert(occurs_at(s, " # "@, k));
        assert(s.subrange(k, k + 3)[1] == " # "@[1]);
        assert(s[k + 1] == '#');
    }
}

proof fn lemma_id_value(t: Seq<char>, n: int, r: Seq<char>)
    requires
        0 <= n <= t.len(),
        t.subrange(n, t.len() as int) == r,
        safe_id(r),
    ensures
        key_value(t, n) == r,
{
    assert forall|k: int| 0 <= k < r.len() implies r[k] != '#' by {
        lemma_id_char(r[k]);
    }
    lemma_find_none(r);
    assert(strip_inline_comment(r) == r);
    lemma_id_char(r[0]);
    lemma_id_char(r[r.len() - 1]);
    lemma_trim_tight(r);
}

/// `key: 'quoted'` or `key: word`: the value after a single space, trimmed and unquoted.
proof fn lemma_spaced_value(t: Seq<char>, n: int, v: Seq<char>)
    requires
        0 <= n <= t.len(),
        t.subrange(n, t.len() as int) == seq![' '] + v,
        v.len() >= 2,
        !is_ws(v[0]),
        !is_ws(v.last()),
        forall|k: int| 0 <= k < v.len() ==> v[k] != '#',
    ensures
        key_value(t, n) == spec_unquote(v),
{
    let sv = seq![' '] + v;
    assert forall|k: int| 0 <= k < sv.len() implies sv[k] != '#' by {
        if k > 0 {
            assert(sv[k] == v[k - 1]);
        }
    }
    lemma_find_none(sv);
    assert(strip_inline_comment(sv) == sv);
    assert(lead(sv, 1));
    lemma_lead(sv, 1);
    assert(trim_start(sv) =~= v);
    lemma_trim_tight(v);
    assert(trim(sv) == v);
    assert(spec_unquote(sv) == spec_unquote(v));
}

// ------------------------------------------------------------------ the config subtree read back

proof fn lemma_prefix6(l: Seq<char>)
    requires
        !is_blank_line(l),
        indent(l) >= 2,
    ensures
        trim_start("      "@ + l) == trim_start(l),
        indent("      "@ + l) == indent(l) + 6,
        !is_blank_line("      "@ + l),
        ("      "@ + l).len() > 8,
        shift_line("      "@ + l, 2) == "      "@ + l,
        shift_line("      "@ + l, 8) == l,
{
    reveal_strlit("      ");
    let s = "      "@ + l;
    lemma_blank_iff(l);
    lemma_ws_end_bounds(l, 0);
    lemma_indent_bounds(l, 0);
    let e = ws_end_from(l, 0);
    let i0 = indent(l);
    assert(is_ws(' '));
    if e < i0 {
        assert(l[e] == ' ');
    }
    assert forall|k: int| 0 <= k < 6 + e implies is_ws(#[trigger] s[k]) by {
        if k >= 6 {
            assert(s[k] == l[k - 6]);
        }
    }
    assert(s[6 + e] == l[e]);
    lemma_ws_end_unique(s, 6 + e);
    assert(trim_start(s) =~= trim_start(l));
    assert forall|k: int| 0 <= k < 6 + i0 implies #[trigger] s[k] == ' ' by {
        if k >= 6 {
            assert(s[k] == l[k - 6]);
        }
    }
    if 6 + i0 < s.len() {
        assert(s[6 + i0] == l[i0]);
    }
    lemma_indent_unique(s, 6 + i0);
    lemma_blank_iff(s);
    assert(seq![' ', ' '] + s.subrange(2, s.len() as int) =~= s);
    assert(l[0] == ' ' && l[1] == ' ');
    assert(seq![' ', ' '] + s.subrange(8, s.len() as int) =~= l);
}

proof fn lemma_join_last(parts: Seq<Seq<char>>, sep: Seq<char>)
    requires
        parts.len() > 0,
        parts.last().len() > 0,
    ensures
        join(parts, sep).len() > 0,
        join(parts, sep).last() == parts.last().last(),
{
}

proof fn lemma_trim_end_tail(s: Seq<char>)
    requires
        s.len() > 0,
        trim_end(s) == s,
    ensures
        !is_ws(s.last()),
{
    if is_ws(s.last()) {
        lemma_ws_start_bounds(s, s.len() - 1);
        assert(ws_start_back(s, s.len() as int) == ws_start_back(s, s.len() - 1));
        assert(trim_end(s).len() < s.len());
    }
}

/// Reading back the rendered config lines of a stored config gives the config.
proof fn lemma_subtree_norm(c: Seq<char>)
    requires
        stored_config(c),
    ensures
        spec_normalize(trim_end(join(config_render_lines(lines(c)), seq!['\n']))) == c,
{
    reveal_strlit("      ");
    let nl = seq!['\n'];
    let l = lines(c);
    let r = config_render_lines(l);
    lemma_stored_lines(c);
    assert forall|i: int| 0 <= i < l.len() implies shifted_ok(l[i], #[trigger] r[i], -4) by {
        assert(stored_line(l[i]));
        assert(no_newline(l[i]) && no_cr_end(l[i]));
        lemma_prefix6(l[i]);
        lemma_blank_iff(l[i]);
        if l[i].len() == 0 {
            assert(trim_start(l[i]).len() == 0);
        }
        lemma_prefixed_plain("      "@, l[i]);
        assert(r[i] == "      "@ + l[i]);
    }
    lemma_min_shift(l, r, -4, l.len() as int);
    assert(l.subrange(0, l.len() as int) =~= l);
    assert(r.subrange(0, r.len() as int) =~= r);
    assert(min_content_indent(r) == Some(8int));
    let j = join(r, nl);
    assert(stored_line(l[l.len() - 1]));
    assert(shifted_ok(l[l.len() - 1], r[r.len() - 1], -4));
    assert(r.last().len() > 0);
    lemma_join_last(r, nl);
    lemma_join_last(l, nl);
    assert(l.last().len() > 0) by {
        lemma_blank_iff(l.last());
    }
    lemma_trim_end_tail(c);
    assert(r.last().last() == l.last().last());
    assert(!is_ws(j.last()));
    assert(ws_start_back(j, j.len() as int) == j.len());
    assert(trim_end(j) =~= j);
    assert forall|i: int| 0 <= i < r.len() implies no_newline(#[trigger] r[i]) by {
        assert(shifted_ok(l[i], r[i], -4));
    }
    assert forall|i: int| 0 <= i < r.len() implies strip_cr(#[trigger] r[i]) == r[i] by {
        assert(shifted_ok(l[i], r[i], -4));
    }
    lemma_lines_join(r);
    assert(raw_lines(j) =~= r);
    assert(!is_blank_line(r[0])) by {
        assert(shifted_ok(l[0], r[0], -4));
        assert(stored_line(l[0]));
    }
    assert(first_kept(r, 0) == 0);
    assert(last_kept(r, 0, r.len() as int) == r.len());
    assert(kept_lines(j) =~= r);
    assert(content_base(r) == 8);
    let m = Seq::new(r.len(), |i: int| shift_line(r[i], 8));
    assert forall|i: int| 0 <= i < r.len() implies #[trigger] m[i] == l[i] by {
        assert(stored_line(l[i]));
        lemma_prefix6(l[i]);
    }
    assert(m =~= l);
}

// ------------------------------------------------------------------ the declaration segment read back

proof fn lemma_subtree_run(ls: Seq<Seq<char>>, key: int, e: int, end: int)
    requires
        0 <= e <= end <= ls.len(),
        forall|k: int|
            e <= k < end ==> (!starts_with(trim_start(#[trigger] ls[k]), "# == "@) && indent(ls[k]) > key),
        end < ls.len() ==> (trim_start(ls[end]).len() > 0 && trim_start(ls[end])[0] == '-' && indent(
            ls[end],
        ) <= key),
    ensures
        subtree_end(ls, key, e) == end,
    decreases end - e,
{
    reveal_strlit("# == ");
    if e < end {
        assert(!starts_with(trim_start(ls[e]), "# == "@) && indent(ls[e]) > key);
        lemma_subtree_run(ls, key, e + 1, end);
    } else if end < ls.len() {
        let t = trim_start(ls[end]);
        if starts_with(t, "# == "@) {
            assert(t.subrange(0, 5)[0] == t[0]);
        }
    }
}

/// The line at `e` ends the declaration before it: the end of the lines, or a
/// `- ...` line at most four spaces deep.
pub open spec fn next_ok(ls: Seq<Seq<char>>, e: int) -> bool {
    e >= ls.len() || (e >= 0 && trim_start(ls[e]).len() > 0 && trim_start(ls[e])[0] == '-' && indent(
        ls[e],
    ) <= 4 && no_cr_end(ls[e]))
}

proof fn lemma_decl_step(
    ls: Seq<Seq<char>>,
    p: int,
    d: SpecMcpDeclare,
    acc: Seq<SpecMcpDeclare>,
)
    requires
        stored_declare(d),
        declare_error(d.row_id, d.config_raw) is None,
        0 <= p,
        p + decl_lines(d).len() <= ls.len(),
        ls.subrange(p, p + decl_lines(d).len()) == decl_lines(d),
        next_ok(ls, p + decl_lines(d).len()),
    ensures
        decl_sm(ls, p, acc, None) == decl_sm(ls, p + decl_lines(d).len(), acc.push(d), None),
{
    reveal_strlit("    - id: ");
    reveal_strlit("- id: ");
    reveal_strlit("      name: ");
    reveal_strlit("name:");
    reveal_strlit("name: ");
    reveal_strlit("      config:");
    reveal_strlit("config:");
    reveal_strlit("      ");
    let r = d.row_id;
    let c = d.config_raw;
    let dl = decl_lines(d);
    let n = dl.len() as int;
    assert(row_id_error(r) is None);
    lemma_row_id_ok(r);
    lemma_stored_lines(c);
    let cl = lines(c);
    let rl = config_render_lines(cl);
    assert(dl =~= decl_head(d) + rl);
    lemma_decl_lines_plain(d);
    assert forall|k: int| 0 <= k < n implies #[trigger] ls[p + k] == dl[k] by {
        assert(ls.subrange(p, p + n)[k] == ls[p + k]);
    }
    // the `- id:` line
    let l0 = "    - id: "@ + r;
    assert(ls[p] == dl[0] && dl[0] == l0);
    assert(no_cr_end(dl[0]));
    assert(strip_cr(l0) == l0);
    lemma_id_char(r[0]);
    assert(lead(l0, 4)) by {
        assert(l0[4] == '-');
    }
    lemma_lead(l0, 4);
    let t0 = "- id: "@ + r;
    assert(trim_start(l0) =~= t0);
    assert(t0[0] == '-');
    assert(t0.subrange(0, 6) =~= "- id: "@);
    assert(t0.subrange(6, t0.len() as int) =~= r);
    lemma_id_value(t0, 6, r);
    assert(decl_sm(ls, p, acc, None) == decl_sm(ls, p + 1, acc, Some((r, Seq::<char>::empty()))));
    // the `name:` line
    lemma_pkg_safe();
    let pk = MCP_CLIENT_PACKAGE@;
    let q = yaml_quoted(pk);
    let l1 = "      name: "@ + q;
    assert(ls[p + 1] == dl[1] && dl[1] == l1);
    assert(no_cr_end(dl[1]));
    assert(strip_cr(l1) == l1);
    assert(lead(l1, 6)) by {
        assert(l1[6] == 'n');
    }
    lemma_lead(l1, 6);
    let t1 = "name: "@ + q;
    assert(trim_start(l1) =~= t1);
    assert(t1[0] == 'n');
    assert(t1.subrange(0, 5) =~= "name:"@);
    assert(t1.subrange(5, t1.len() as int) =~= seq![' '] + q);
    assert(q[0] == '\'');
    assert(q.last() == '\'');
    assert forall|k: int| 0 <= k < q.len() implies q[k] != '#' by {
        if 0 < k < q.len() - 1 {
            assert(q[k] == pk[k - 1]);
            lemma_id_char(pk[k - 1]);
        }
    }
    lemma_spaced_value(t1, 5, q);
    lemma_trim_tight(q);
    assert(spec_unquote(q) =~= pk);
    assert(decl_sm(ls, p + 1, acc, Some((r, Seq::<char>::empty()))) == decl_sm(
        ls,
        p + 2,
        acc,
        Some((r, Seq::<char>::empty())),
    ));
    // the `config:` line and its subtree
    let l2: Seq<char> = "      config:"@;
    assert(ls[p + 2] == dl[2] && dl[2] == l2);
    assert(strip_cr(l2) == l2);
    assert(lead(l2, 6)) by {
        assert(l2[6] == 'c');
    }
    lemma_lead(l2, 6);
    let t2 = trim_start(l2);
    assert(t2 =~= "config:"@);
    assert(!starts_with(t2, "name:"@)) by {
        if starts_with(t2, "name:"@) {
            assert(t2.subrange(0, 5)[0] == t2[0]);
        }
    }
    assert(t2.subrange(0, 7) =~= "config:"@);
    assert(starts_with(t2, "config:"@));
    let rest = t2.subrange(7, t2.len() as int);
    assert(rest.len() == 0);
    assert(trim(rest).len() == 0);
    assert forall|k: int| p + 3 <= k < p + n implies (!starts_with(trim_start(#[trigger] ls[k]), "# == "@)
        && indent(ls[k]) > 6) by {
        let j = k - p - 3;
        assert(ls[k] == dl[k - p]);
        assert(dl[k - p] == rl[j]);
        assert(stored_line(cl[j]));
        lemma_prefix6(cl[j]);
    }
    if p + n < ls.len() {
        assert(next_ok(ls, p + n));
    }
    lemma_subtree_run(ls, 6, p + 3, p + n);
    assert(subtree_end(ls, indent(ls[p + 2]), p + 3) == p + n);
    let pieces = Seq::new((p + n - (p + 2 + 1)) as nat, |i: int| strip_cr(ls[p + 2 + 1 + i]));
    assert forall|i: int| 0 <= i < pieces.len() implies #[trigger] pieces[i] == rl[i] by {
        assert(ls[p + 3 + i] == dl[3 + i]);
        assert(dl[3 + i] == rl[i]);
        assert(no_cr_end(dl[3 + i]));
    }
    assert(pieces =~= rl);
    assert(subtree_raw(ls, p + 2, p + n) == trim_end(join(rl, seq!['\n'])));
    lemma_subtree_norm(c);
    assert(decl_sm(ls, p + 2, acc, Some((r, Seq::<char>::empty()))) == decl_sm(
        ls,
        p + n,
        acc,
        Some((r, c)),
    ));
    // the line after the subtree closes the declaration
    if p + n < ls.len() {
        assert(strip_cr(ls[p + n]) == ls[p + n]);
    }
    assert(decl_sm(ls, p + n, acc, Some((r, c))) == decl_sm(ls, p + n, acc.push(make_declare(r, c)), None));
}

// ------------------------------------------------------------------ the directive segment read back

/// The line at `e` ends the directive before it: the end of the lines, or a
/// `- ...` line at column 0.
pub open spec fn dir_next_ok(ls: Seq<Seq<char>>, e: int) -> bool {
    e >= ls.len() || (e >= 0 && ls[e].len() > 0 && ls[e][0] == '-' && no_cr_end(ls[e]))
}

proof fn lemma_dir_step(
    ls: Seq<Seq<char>>,
    p: int,
    d: SpecMcpDirective,
    acc: Seq<SpecMcpDirective>,
)
    requires
        row_id_error(d.row_id) is None,
        0 <= p,
        p + 2 <= ls.len(),
        ls.subrange(p, p + 2) == dir_lines(d),
        dir_next_ok(ls, p + 2),
    ensures
        dir_sm(ls, p, acc, None) == dir_sm(ls, p + 2, acc.push(d), None),
{
    reveal_strlit("- id: ");
    reveal_strlit("- insert:");
    reveal_strlit("  disabled: ");
    reveal_strlit("disabled:");
    reveal_strlit("disabled: ");
    reveal_strlit("true");
    reveal_strlit("false");
    let r = d.row_id;
    lemma_row_id_ok(r);
    lemma_dir_lines_plain(d);
    let dl = dir_lines(d);
    assert(ls[p] == dl[0]) by {
        assert(ls.subrange(p, p + 2)[0] == ls[p]);
    }
    assert(ls[p + 1] == dl[1]) by {
        assert(ls.subrange(p, p + 2)[1] == ls[p + 1]);
    }
    // the `- id:` line
    let l0 = "- id: "@ + r;
    assert(strip_cr(l0) == l0);
    assert(l0[0] == '-');
    assert(lead(l0, 0));
    lemma_lead(l0, 0);
    assert(trim_start(l0) =~= l0);
    assert(!starts_with(l0, "- insert:"@)) by {
        if starts_with(l0, "- insert:"@) {
            assert(l0.subrange(0, 9)[3] == l0[3]);
        }
    }
    assert(l0.subrange(0, 6) =~= "- id: "@);
    assert(l0.subrange(6, l0.len() as int) =~= r);
    lemma_id_value(l0, 6, r);
    assert(dir_sm(ls, p, acc, None) == dir_sm(ls, p + 1, acc, Some((r, None::<bool>))));
    // the `disabled:` line
    let v: Seq<char> = if d.disabled {
        "true"@
    } else {
        "false"@
    };
    let l1 = "  disabled: "@ + v;
    assert(l1 == dl[1]);
    assert(strip_cr(l1) == l1);
    assert(lead(l1, 2)) by {
        assert(l1[2] == 'd');
    }
    lemma_lead(l1, 2);
    let t = "disabled: "@ + v;
    assert(trim_start(l1) =~= t);
    assert(t[0] == 'd');
    assert(t.subrange(0, 9) =~= "disabled:"@);
    assert(t.subrange(9, t.len() as int) =~= seq![' '] + v);
    lemma_spaced_value(t, 9, v);
    lemma_trim_tight(v);
    assert(spec_unquote(v) == v);
    assert(("true"@ == "false"@) == false) by {
        assert("true"@.len() != "false"@.len());
    }
    assert(dir_sm(ls, p + 1, acc, Some((r, None::<bool>))) == dir_sm(ls, p + 2, acc, Some((r, Some(d.disabled)))));
    // the line after closes the directive
    if p + 2 < ls.len() {
        assert(strip_cr(ls[p + 2]) == ls[p + 2]);
        assert(lead(ls[p + 2], 0));
        lemma_lead(ls[p + 2], 0);
    }
    assert(dir_sm(ls, p + 2, acc, Some((r, Some(d.disabled)))) == dir_sm(
        ls,
        p + 2,
        acc.push(SpecMcpDirective { row_id: r, disabled: d.disabled }),
        None,
    ));
}

// ------------------------------------------------------------------ whole segments read back

/// Declarations a render may write: stored, with a safe row id and a config.
pub open spec fn decls_ok(ds: Seq<SpecMcpDeclare>) -> bool {
    forall|k: int|
        0 <= k < ds.len() ==> stored_declare(#[trigger] ds[k]) && declare_error(
            ds[k].row_id,
            ds[k].config_raw,
        ) is None
}

pub open spec fn dirs_ok(ds: Seq<SpecMcpDirective>) -> bool {
    forall|k: int| 0 <= k < ds.len() ==> row_id_error(#[trigger] ds[k].row_id) is None
}

proof fn lemma_decls_concat(a: Seq<SpecMcpDeclare>, b: Seq<SpecMcpDeclare>)
    ensures
        decls_lines(a + b) == decls_lines(a) + decls_lines(b),
    decreases b.len(),
{
    if b.len() == 0 {
        assert(a + b =~= a);
        assert(decls_lines(a) + decls_lines(b) =~= decls_lines(a));
    } else {
        lemma_decls_concat(a, b.drop_last());
        assert((a + b).drop_last() =~= a + b.drop_last());
        assert((a + b).last() == b.last());
        assert(decls_lines(a + b) =~= decls_lines(a) + decls_lines(b));
    }
}

proof fn lemma_dirs_concat(a: Seq<SpecMcpDirective>, b: Seq<SpecMcpDirective>)
    ensures
        dirs_lines(a + b) == dirs_lines(a) + dirs_lines(b),
    decreases b.len(),
{
    if b.len() == 0 {
        assert(a + b =~= a);
        assert(dirs_lines(a) + dirs_lines(b) =~= dirs_lines(a));
    } else {
        lemma_dirs_concat(a, b.drop_last());
        assert((a + b).drop_last() =~= a + b.drop_last());
        assert((a + b).last() == b.last());
        assert(dirs_lines(a + b) =~= dirs_lines(a) + dirs_lines(b));
    }
}

proof fn lemma_decls_first(ds: Seq<SpecMcpDeclare>)
    requires
        ds.len() > 0,
    ensures
        decls_lines(ds) == decl_lines(ds[0]) + decls_lines(ds.skip(1)),
{
    assert(seq![ds[0]] + ds.skip(1) =~= ds);
    lemma_decls_concat(seq![ds[0]], ds.skip(1));
    assert(seq![ds[0]].drop_last() =~= Seq::<SpecMcpDeclare>::empty());
    assert(decls_lines(Seq::<SpecMcpDeclare>::empty()) == Seq::<Seq<char>>::empty());
    assert(seq![ds[0]].last() == ds[0]);
    assert(decls_lines(seq![ds[0]]) == decls_lines(seq![ds[0]].drop_last()) + decl_lines(ds[0]));
    assert(decls_lines(seq![ds[0]]) =~= decl_lines(ds[0]));
}

proof fn lemma_dirs_first(ds: Seq<SpecMcpDirective>)
    requires
        ds.len() > 0,
    ensures
        dirs_lines(ds) == dir_lines(ds[0]) + dirs_lines(ds.skip(1)),
        dirs_lines(ds).len() == 2 * ds.len(),
    decreases ds.len(),
{
    assert(seq![ds[0]] + ds.skip(1) =~= ds);
    lemma_dirs_concat(seq![ds[0]], ds.skip(1));
    assert(seq![ds[0]].drop_last() =~= Seq::<SpecMcpDirective>::empty());
    assert(dirs_lines(Seq::<SpecMcpDirective>::empty()) == Seq::<Seq<char>>::empty());
    assert(seq![ds[0]].last() == ds[0]);
    assert(dirs_lines(seq![ds[0]]) == dirs_lines(seq![ds[0]].drop_last()) + dir_lines(ds[0]));
    assert(dirs_lines(seq![ds[0]]) =~= dir_lines(ds[0]));
    if ds.len() > 1 {
        lemma_dirs_first(ds.skip(1));
    }
}

/// The first line of a declaration opens like a `- id:` line at four spaces.
proof fn lemma_decl_opens(d: SpecMcpDeclare)
    requires
        row_id_error(d.row_id) is None,
    ensures
        decl_lines(d).len() >= 3,
        trim_start(decl_lines(d)[0]).len() > 0,
        trim_start(decl_lines(d)[0])[0] == '-',
        indent(decl_lines(d)[0]) == 4,
        no_cr_end(decl_lines(d)[0]),
{
    reveal_strlit("    - id: ");
    lemma_row_id_ok(d.row_id);
    lemma_safe_id_plain(d.row_id);
    let l0 = "    - id: "@ + d.row_id;
    assert(decl_lines(d)[0] == l0);
    lemma_id_char(d.row_id[0]);
    assert(lead(l0, 4)) by {
        assert(l0[4] == '-');
    }
    lemma_lead(l0, 4);
    assert(l0.last() == d.row_id.last());
}

/// The first line of a directive is a `- id:` line at column 0.
proof fn lemma_dir_opens(d: SpecMcpDirective)
    requires
        row_id_error(d.row_id) is None,
    ensures
        dir_lines(d)[0].len() > 0,
        dir_lines(d)[0][0] == '-',
        no_cr_end(dir_lines(d)[0]),
        trim_start(dir_lines(d)[0]) == dir_lines(d)[0],
        indent(dir_lines(d)[0]) == 0,
        !is_ws(dir_lines(d)[0].last()),
{
    reveal_strlit("- id: ");
    lemma_row_id_ok(d.row_id);
    lemma_safe_id_plain(d.row_id);
    let l0 = "- id: "@ + d.row_id;
    assert(l0[0] == '-');
    assert(lead(l0, 0));
    lemma_lead(l0, 0);
    assert(trim_start(l0) =~= l0);
    assert(l0.last() == d.row_id.last());
    lemma_id_char(d.row_id.last());
}

proof fn lemma_decls_run(ls: Seq<Seq<char>>, p: int, ds: Seq<SpecMcpDeclare>, acc: Seq<SpecMcpDeclare>)
    requires
        decls_ok(ds),
        0 <= p,
        p + decls_lines(ds).len() <= ls.len(),
        ls.subrange(p, p + decls_lines(ds).len()) == decls_lines(ds),
        next_ok(ls, p + decls_lines(ds).len()),
    ensures
        decl_sm(ls, p, acc, None) == decl_sm(ls, p + decls_lines(ds).len(), acc + ds, None),
    decreases ds.len(),
{
    if ds.len() == 0 {
        assert(acc + ds =~= acc);
    } else {
        let x = ds[0];
        let rest = ds.skip(1);
        lemma_decls_first(ds);
        let n0 = decl_lines(x).len() as int;
        let all = decls_lines(ds);
        assert(ls.subrange(p, p + n0) =~= decl_lines(x)) by {
            assert forall|k: int| 0 <= k < n0 implies ls.subrange(p, p + n0)[k] == decl_lines(x)[k] by {
                assert(ls.subrange(p, p + all.len())[k] == ls[p + k]);
                assert(all[k] == decl_lines(x)[k]);
            }
        }
        assert(stored_declare(ds[0]));
        assert forall|k: int| 0 <= k < rest.len() implies stored_declare(#[trigger] rest[k])
            && declare_error(rest[k].row_id, rest[k].config_raw) is None by {
            assert(rest[k] == ds[k + 1]);
        }
        assert(ls.subrange(p + n0, p + n0 + decls_lines(rest).len()) =~= decls_lines(rest)) by {
            assert forall|k: int| 0 <= k < decls_lines(rest).len() implies ls.subrange(
                p + n0,
                p + n0 + decls_lines(rest).len(),
            )[k] == decls_lines(rest)[k] by {
                assert(ls.subrange(p, p + all.len())[n0 + k] == ls[p + n0 + k]);
                assert(all[n0 + k] == decls_lines(rest)[k]);
            }
        }
        if rest.len() > 0 {
            lemma_decls_first(rest);
            assert(row_id_error(rest[0].row_id) is None);
            lemma_decl_opens(rest[0]);
            assert(ls[p + n0] == decls_lines(rest)[0]) by {
                assert(ls.subrange(p, p + all.len())[n0] == ls[p + n0]);
                assert(all[n0] == decls_lines(rest)[0]);
            }
        }
        lemma_decl_step(ls, p, x, acc);
        lemma_decls_run(ls, p + n0, rest, acc.push(x));
        assert(acc.push(x) + rest =~= acc + ds);
    }
}

proof fn lemma_dirs_run(ls: Seq<Seq<char>>, p: int, ds: Seq<SpecMcpDirective>, acc: Seq<SpecMcpDirective>)
    requires
        dirs_ok(ds),
        0 <= p,
        p + dirs_lines(ds).len() == ls.len(),
        ls.subrange(p, ls.len() as int) == dirs_lines(ds),
    ensures
        dir_sm(ls, p, acc, None) == Ok::<Seq<SpecMcpDirective>, Seq<char>>(acc + ds),
    decreases ds.len(),
{
    if ds.len() == 0 {
        assert(acc + ds =~= acc);
    } else {
        let x = ds[0];
        let rest = ds.skip(1);
        lemma_dirs_first(ds);
        let all = dirs_lines(ds);
        assert(ls.subrange(p, p + 2) =~= dir_lines(x)) by {
            assert forall|k: int| 0 <= k < 2 implies ls.subrange(p, p + 2)[k] == dir_lines(x)[k] by {
                assert(ls.subrange(p, ls.len() as int)[k] == ls[p + k]);
                assert(all[k] == dir_lines(x)[k]);
            }
        }
        assert forall|k: int| 0 <= k < rest.len() implies row_id_error(#[trigger] rest[k].row_id) is None by {
            assert(rest[k] == ds[k + 1]);
        }
        assert(ls.subrange(p + 2, ls.len() as int) =~= dirs_lines(rest)) by {
            assert forall|k: int| 0 <= k < dirs_lines(rest).len() implies ls.subrange(
                p + 2,
                ls.len() as int,
            )[k] == dirs_lines(rest)[k] by {
                assert(ls.subrange(p, ls.len() as int)[2 + k] == ls[p + 2 + k]);
                assert(all[2 + k] == dirs_lines(rest)[k]);
            }
        }
        if rest.len() > 0 {
            lemma_dirs_first(rest);
            assert(row_id_error(rest[0].row_id) is None);
            lemma_dir_opens(rest[0]);
            assert(ls[p + 2] == dirs_lines(rest)[0]) by {
                assert(ls.subrange(p, ls.len() as int)[2] == ls[p + 2]);
                assert(all[2] == dirs_lines(rest)[0]);
            }
        }
        assert(row_id_error(ds[0].row_id) is None);
        lemma_dir_step(ls, p, x, acc);
        lemma_dirs_run(ls, p + 2, rest, acc.push(x));
        assert(acc.push(x) + rest =~= acc + ds);
    }
}

// ------------------------------------------------------------------ the whole text read back

proof fn lemma_decls_plain(ds: Seq<SpecMcpDeclare>)
    requires
        decls_ok(ds),
    ensures
        plain_lines(decls_lines(ds)),
    decreases ds.len(),
{
    if ds.len() > 0 {
        let dl = ds.drop_last();
        assert forall|k: int| 0 <= k < dl.len() implies stored_declare(#[trigger] dl[k]) && declare_error(
            dl[k].row_id,
            dl[k].config_raw,
        ) is None by {
            assert(dl[k] == ds[k]);
        }
        lemma_decls_plain(dl);
        let x = ds[ds.len() - 1];
        assert(stored_declare(x) && declare_error(x.row_id, x.config_raw) is None);
        lemma_row_id_ok(x.row_id);
        lemma_decl_lines_plain(x);
        lemma_plain_concat(decls_lines(dl), decl_lines(ds.last()));
    }
}

proof fn lemma_parse_rendered(ds: Seq<SpecMcpDeclare>, dirs: Seq<SpecMcpDirective>)
    requires
        decls_ok(ds),
        dirs_ok(dirs),
    ensures
        spec_parse(text_of(block_lines(ds, dirs))) == Ok::<SpecMcpBlock, Seq<char>>(
            SpecMcpBlock { declares: ds, directives: dirs },
        ),
{
    reveal_strlit("- insert:");
    let tl = block_lines(ds, dirs);
    let dl = dirs_lines(dirs);
    assert forall|k: int| 0 <= k < dirs.len() implies safe_id(#[trigger] dirs[k].row_id) by {
        lemma_row_id_ok(dirs[k].row_id);
    }
    lemma_dirs_lines_plain(dirs);
    if dirs.len() > 0 {
        lemma_dirs_first(dirs);
        lemma_dir_opens(dirs[0]);
    }
    let ins: Seq<char> = "- insert:"@;
    assert(no_newline(ins) && no_cr_end(ins));
    assert(plain_lines(seq![ins]));
    if ds.len() > 0 {
        let dd = decls_lines(ds);
        lemma_decls_plain(ds);
        lemma_plain_concat(seq![ins], dd);
        lemma_plain_concat(seq![ins] + dd, dl);
        assert(tl == seq![ins] + dd + dl);
        lemma_lines_text(tl);
        assert(lines(text_of(tl)) == tl);
        assert(tl[0] == ins);
        assert(ins[0] == '-' && ins.last() == ':');
        lemma_trim_tight(ins);
        assert(skip_blank(tl, 0) == 0);
        assert(lead(ins, 0));
        lemma_lead(ins, 0);
        assert(ins.subrange(0, 9) =~= ins);
        assert(starts_with(trim_start(tl[0]), "- insert:"@));
        let e: int = 1 + dd.len() as int;
        assert(tl.subrange(1, e) =~= dd);
        if dirs.len() > 0 {
            assert(tl[e] == dl[0]);
        }
        assert(next_ok(tl, e));
        lemma_decls_run(tl, 1, ds, Seq::empty());
        assert(Seq::<SpecMcpDeclare>::empty() + ds =~= ds);
        if e < tl.len() {
            assert(strip_cr(tl[e]) == tl[e]);
        }
        assert(decl_sm(tl, e, ds, None) == Ok::<(int, Seq<SpecMcpDeclare>), Seq<char>>((e, ds)));
        assert(tl.subrange(e, tl.len() as int) =~= dl);
        lemma_dirs_run(tl, e, dirs, Seq::empty());
        assert(Seq::<SpecMcpDirective>::empty() + dirs =~= dirs);
    } else {
        assert(tl =~= dl);
        lemma_lines_text(tl);
        if dirs.len() > 0 {
            let l0 = dl[0];
            lemma_trim_tight(l0);
            assert(skip_blank(tl, 0) == 0);
            assert(!starts_with(trim_start(tl[0]), "- insert:"@)) by {
                reveal_strlit("- id: ");
                assert(l0 == "- id: "@ + dirs[0].row_id);
                if starts_with(l0, "- insert:"@) {
                    assert(l0.subrange(0, 9)[3] == l0[3]);
                }
            }
        }
        assert(tl.subrange(0, tl.len() as int) =~= dl);
        lemma_dirs_run(tl, 0, dirs, Seq::empty());
        assert(Seq::<SpecMcpDirective>::empty() + dirs =~= dirs);
        assert(ds =~= Seq::<SpecMcpDeclare>::empty());
    }
}

// ------------------------------------------------------------------ sorting a sorted block

proof fn lemma_seq_lt_asym(a: Seq<char>, b: Seq<char>)
    ensures
        !(seq_lt(a, b) && seq_lt(b, a)),
        !seq_lt(a, a),
    decreases a.len(),
{
    if a.len() > 0 {
        lemma_seq_lt_asym(a.drop_first(), a.drop_first());
        if b.len() > 0 && a[0] == b[0] {
            lemma_seq_lt_asym(a.drop_first(), b.drop_first());
        }
    }
}

proof fn lemma_declare_lt_asym(a: SpecMcpDeclare, b: SpecMcpDeclare)
    ensures
        !(declare_lt(a, b) && declare_lt(b, a)),
{
    lemma_seq_lt_asym(a.row_id, b.row_id);
    match (a.server_name, b.server_name) {
        (Some(x), Some(y)) => {
            lemma_seq_lt_asym(x, y);
        },
        _ => {},
    }
    if let Some(x) = a.server_name {
        lemma_seq_lt_asym(x, x);
    }
}

/// No declaration is ordered before the one in front of it.
pub open spec fn decls_sorted(s: Seq<SpecMcpDeclare>) -> bool {
    forall|i: int| 0 < i < s.len() ==> !declare_lt(#[trigger] s[i], s[i - 1])
}

pub open spec fn dirs_sorted(s: Seq<SpecMcpDirective>) -> bool {
    forall|i: int| 0 < i < s.len() ==> !directive_lt(#[trigger] s[i], s[i - 1])
}

/// No two neighbouring directives share a row id.
pub open spec fn dirs_distinct(s: Seq<SpecMcpDirective>) -> bool {
    forall|i: int| 0 < i < s.len() ==> (#[trigger] s[i]).row_id != s[i - 1].row_id
}

proof fn lemma_insert_declare_sorted(s: Seq<SpecMcpDeclare>, x: SpecMcpDeclare)
    requires
        decls_sorted(s),
    ensures
        decls_sorted(insert_declare(s, x)),
        insert_declare(s, x).len() == s.len() + 1,
        insert_declare(s, x).last() == x || (s.len() > 0 && insert_declare(s, x).last() == s.last()),
    decreases s.len(),
{
    if s.len() > 0 {
        let dl = s.drop_last();
        if !declare_lt(x, s.last()) {
            let r = s.push(x);
            assert forall|i: int| 0 < i < r.len() implies !declare_lt(#[trigger] r[i], r[i - 1]) by {
                if i < s.len() {
                    assert(r[i] == s[i] && r[i - 1] == s[i - 1]);
                }
            }
        } else {
            assert forall|i: int| 0 < i < dl.len() implies !declare_lt(#[trigger] dl[i], dl[i - 1]) by {
                assert(dl[i] == s[i] && dl[i - 1] == s[i - 1]);
            }
            lemma_insert_declare_sorted(dl, x);
            let m = insert_declare(dl, x);
            let r = m.push(s.last());
            lemma_declare_lt_asym(x, s.last());
            if dl.len() > 0 {
                assert(!declare_lt(s[s.len() - 1], s[s.len() - 2]));
            }
            assert forall|i: int| 0 < i < r.len() implies !declare_lt(#[trigger] r[i], r[i - 1]) by {
                if i < m.len() {
                    assert(r[i] == m[i] && r[i - 1] == m[i - 1]);
                } else {
                    assert(r[i - 1] == m.last());
                }
            }
        }
    }
}

proof fn lemma_sort_declares_sorted(s: Seq<SpecMcpDeclare>)
    ensures
        decls_sorted(sort_declares(s)),
    decreases s.len(),
{
    if s.len() > 0 {
        lemma_sort_declares_sorted(s.drop_last());
        lemma_insert_declare_sorted(sort_declares(s.drop_last()), s.last());
    }
}

proof fn lemma_sorted_declares_fixed(s: Seq<SpecMcpDeclare>)
    requires
        decls_sorted(s),
    ensures
        sort_declares(s) == s,
    decreases s.len(),
{
    if s.len() > 0 {
        let dl = s.drop_last();
        assert forall|i: int| 0 < i < dl.len() implies !declare_lt(#[trigger] dl[i], dl[i - 1]) by {
            assert(dl[i] == s[i] && dl[i - 1] == s[i - 1]);
        }
        lemma_sorted_declares_fixed(dl);
        if dl.len() > 0 {
            assert(!declare_lt(s[s.len() - 1], s[s.len() - 2]));
            assert(dl.push(s.last()) =~= s);
        } else {
            assert(seq![s.last()] =~= s);
        }
    }
}

proof fn lemma_insert_directive_sorted(s: Seq<SpecMcpDirective>, x: SpecMcpDirective)
    requires
        dirs_sorted(s),
    ensures
        dirs_sorted(insert_directive(s, x)),
        insert_directive(s, x).len() == s.len() + 1,
        insert_directive(s, x).last() == x || (s.len() > 0 && insert_directive(s, x).last() == s.last()),
    decreases s.len(),
{
    if s.len() > 0 {
        let dl = s.drop_last();
        if !directive_lt(x, s.last()) {
            let r = s.push(x);
            assert forall|i: int| 0 < i < r.len() implies !directive_lt(#[trigger] r[i], r[i - 1]) by {
                if i < s.len() {
                    assert(r[i] == s[i] && r[i - 1] == s[i - 1]);
                }
            }
        } else {
            assert forall|i: int| 0 < i < dl.len() implies !directive_lt(#[trigger] dl[i], dl[i - 1]) by {
                assert(dl[i] == s[i] && dl[i - 1] == s[i - 1]);
            }
            lemma_insert_directive_sorted(dl, x);
            let m = insert_directive(dl, x);
            let r = m.push(s.last());
            lemma_seq_lt_asym(x.row_id, s.last().row_id);
            if dl.len() > 0 {
                assert(!directive_lt(s[s.len() - 1], s[s.len() - 2]));
            }
            assert forall|i: int| 0 < i < r.len() implies !directive_lt(#[trigger] r[i], r[i - 1]) by {
                if i < m.len() {
                    assert(r[i] == m[i] && r[i - 1] == m[i - 1]);
                } else {
                    assert(r[i - 1] == m.last());
                }
            }
        }
    }
}

proof fn lemma_sort_directives_sorted(s: Seq<SpecMcpDirective>)
    ensures
        dirs_sorted(sort_directives(s)),
    decreases s.len(),
{
    if s.len() > 0 {
        lemma_sort_directives_sorted(s.drop_last());
        lemma_insert_directive_sorted(sort_directives(s.drop_last()), s.last());
    }
}

proof fn lemma_sorted_directives_fixed(s: Seq<SpecMcpDirective>)
    requires
        dirs_sorted(s),
    ensures
        sort_directives(s) == s,
    decreases s.len(),
{
    if s.len() > 0 {
        let dl = s.drop_last();
        assert forall|i: int| 0 < i < dl.len() implies !directive_lt(#[trigger] dl[i], dl[i - 1]) by {
            assert(dl[i] == s[i] && dl[i - 1] == s[i - 1]);
        }
        lemma_sorted_directives_fixed(dl);
        if dl.len() > 0 {
            assert(!directive_lt(s[s.len() - 1], s[s.len() - 2]));
            assert(dl.push(s.last()) =~= s);
        } else {
            assert(seq![s.last()] =~= s);
        }
    }
}

proof fn lemma_dedup_props(s: Seq<SpecMcpDirective>)
    requires
        dirs_sorted(s),
    ensures
        dirs_sorted(dedup_directives(s)),
        dirs_distinct(dedup_directives(s)),
        s.len() > 0 ==> dedup_directives(s).len() > 0 && dedup_directives(s).last().row_id
            == s.last().row_id,
    decreases s.len(),
{
    if s.len() > 1 {
        let dl = s.drop_last();
        assert forall|i: int| 0 < i < dl.len() implies !directive_lt(#[trigger] dl[i], dl[i - 1]) by {
            assert(dl[i] == s[i] && dl[i - 1] == s[i - 1]);
        }
        lemma_dedup_props(dl);
        if s.last().row_id != s[s.len() - 2].row_id {
            let m = dedup_directives(dl);
            let r = m.push(s.last());
            assert(!directive_lt(s[s.len() - 1], s[s.len() - 2]));
            assert forall|i: int| 0 < i < r.len() implies !directive_lt(#[trigger] r[i], r[i - 1])
                && r[i].row_id != r[i - 1].row_id by {
                if i < m.len() {
                    assert(r[i] == m[i] && r[i - 1] == m[i - 1]);
                } else {
                    assert(r[i - 1] == m.last());
                }
            }
        }
    }
}

proof fn lemma_distinct_dedup_fixed(s: Seq<SpecMcpDirective>)
    requires
        dirs_distinct(s),
    ensures
        dedup_directives(s) == s,
    decreases s.len(),
{
    if s.len() > 1 {
        let dl = s.drop_last();
        assert forall|i: int| 0 < i < dl.len() implies (#[trigger] dl[i]).row_id != dl[i - 1].row_id by {
            assert(dl[i] == s[i] && dl[i - 1] == s[i - 1]);
        }
        lemma_distinct_dedup_fixed(dl);
        assert(s[s.len() - 1].row_id != s[s.len() - 2].row_id);
        assert(dl.push(s.last()) =~= s);
    }
}

proof fn lemma_declare_errors_none(ds: Seq<SpecMcpDeclare>)
    requires
        first_declare_error(ds) is None,
    ensures
        forall|k: int| 0 <= k < ds.len() ==> declare_error(#[trigger] ds[k].row_id, ds[k].config_raw) is None,
    decreases ds.len(),
{
    if ds.len() > 0 {
        lemma_declare_errors_none(ds.drop_last());
        assert forall|k: int| 0 <= k < ds.len() implies declare_error(#[trigger] ds[k].row_id, ds[k].config_raw)
            is None by {
            if k < ds.len() - 1 {
                assert(ds[k] == ds.drop_last()[k]);
            }
        }
    }
}

proof fn lemma_directive_errors_none(ds: Seq<SpecMcpDirective>)
    requires
        first_directive_error(ds) is None,
    ensures
        dirs_ok(ds),
    decreases ds.len(),
{
    if ds.len() > 0 {
        lemma_directive_errors_none(ds.drop_last());
        assert forall|k: int| 0 <= k < ds.len() implies row_id_error(#[trigger] ds[k].row_id) is None by {
            if k < ds.len() - 1 {
                assert(ds[k] == ds.drop_last()[k]);
            }
        }
    }
}

// ------------------------------------------------------------------ the law

/// The round trip for blocks whose declarations are stored ones.
proof fn lemma_render_parse_render_stored(b: SpecMcpBlock)
    requires
        spec_render(b, seq!['\n']) is Ok,
        all_stored(b.declares),
    ensures
        match spec_render(b, seq!['\n']) {
            Ok(text) => {
                &&& spec_parse(text) == Ok::<SpecMcpBlock, Seq<char>>(
                    SpecMcpBlock { declares: rendered_declares(b), directives: rendered_directives(b) },
                )
                &&& spec_render(
                    SpecMcpBlock { declares: rendered_declares(b), directives: rendered_directives(b) },
                    seq!['\n'],
                ) == Ok::<Seq<char>, Seq<char>>(text)
            },
            Err(_) => false,
        },
{
    let ds = rendered_declares(b);
    let dirs = rendered_directives(b);
    lemma_render_text(b);
    lemma_declare_errors_none(ds);
    assert forall|k: int| 0 <= k < ds.len() implies stored_declare(#[trigger] ds[k]) && declare_error(
        ds[k].row_id,
        ds[k].config_raw,
    ) is None by {
        assert(declare_error(ds[k].row_id, ds[k].config_raw) is None);
    }
    lemma_directive_errors_none(dirs);
    lemma_parse_rendered(ds, dirs);
    lemma_sort_declares_sorted(b.declares);
    lemma_sorted_declares_fixed(ds);
    lemma_sort_directives_sorted(b.directives);
    lemma_dedup_props(sort_directives(b.directives));
    lemma_sorted_directives_fixed(dirs);
    lemma_distinct_dedup_fixed(dirs);
    let b2 = SpecMcpBlock { declares: ds, directives: dirs };
    assert(sort_declares(b2.declares) == ds);
    assert(dedup_directives(sort_directives(b2.directives)) == dirs);
}

// ------------------------------------------------------------------ blank lines

/// The non-blank lines of `ls`, in order.
pub open spec fn nonblank(ls: Seq<Seq<char>>) -> Seq<Seq<char>>
    decreases ls.len(),
{
    if ls.len() == 0 {
        Seq::empty()
    } else {
        nonblank(ls.drop_last()) + (if is_blank_line(ls.last()) {
            Seq::<Seq<char>>::empty()
        } else {
            seq![ls.last()]
        })
    }
}

/// A config with its blank lines dropped.
pub open spec fn compact(c: Seq<char>) -> Seq<char> {
    join(nonblank(lines(c)), seq!['\n'])
}

/// A `config` subtree in the stored form that may hold blank lines: its non-blank
/// lines are stored ones, the shallowest content line is at two spaces, the last
/// line is not blank, and the text ends in no whitespace.
pub open spec fn spaced_config(c: Seq<char>) -> bool {
    let ls = lines(c);
    &&& ls.len() > 0
    &&& c == join(ls, seq!['\n'])
    &&& forall|i: int| 0 <= i < ls.len() ==> (!is_blank_line(#[trigger] ls[i]) ==> stored_line(ls[i]))
    &&& !is_blank_line(ls.last())
    &&& min_content_indent(ls) == Some(2int)
    &&& trim_end(c) == c
}

proof fn lemma_push_shape(s: Seq<Seq<char>>, x: Seq<char>)
    ensures
        s.push(x).drop_last() == s,
        s.push(x).last() == x,
{
    assert(s.push(x).drop_last() =~= s);
}

proof fn lemma_all_ws_blank(l: Seq<char>)
    requires
        forall|k: int| 0 <= k < l.len() ==> is_ws(#[trigger] l[k]),
    ensures
        is_blank_line(l),
{
    lemma_ws_end_bounds(l, 0);
    if ws_end_from(l, 0) < l.len() {
        assert(is_ws(l[ws_end_from(l, 0)]));
    }
    lemma_blank_iff(l);
}

proof fn lemma_blank_all_ws(l: Seq<char>)
    requires
        is_blank_line(l),
    ensures
        forall|k: int| 0 <= k < l.len() ==> is_ws(#[trigger] l[k]),
{
    lemma_blank_iff(l);
    lemma_ws_end_bounds(l, 0);
}

proof fn lemma_blank_strip_cr(l: Seq<char>)
    requires
        is_blank_line(l),
    ensures
        is_blank_line(strip_cr(l)),
{
    lemma_blank_all_ws(l);
    let m = strip_cr(l);
    assert forall|k: int| 0 <= k < m.len() implies is_ws(#[trigger] m[k]) by {
        assert(m[k] == l[k]);
    }
    lemma_all_ws_blank(m);
}

proof fn lemma_blank_skipped(l: Seq<char>)
    requires
        is_blank_line(l),
    ensures
        is_blank_or_comment(trim_start(l)),
{
    lemma_blank_iff(l);
}

/// A text whose last character is not whitespace ends its own trim and keeps a
/// non-empty trim.
proof fn lemma_last_not_ws(s: Seq<char>)
    requires
        s.len() > 0,
        !is_ws(s.last()),
    ensures
        trim_end(s) == s,
        trim(s).len() > 0,
{
    assert(ws_start_back(s, s.len() as int) == s.len());
    assert(s.subrange(0, s.len() as int) =~= s);
    lemma_ws_end_bounds(s, 0);
    let e = ws_end_from(s, 0);
    if e == s.len() {
        assert(is_ws(s[s.len() - 1]));
    }
    let t = trim_start(s);
    assert(t.last() == s.last());
    assert(ws_start_back(t, t.len() as int) == t.len());
}

proof fn lemma_trim_end_not_ws(s: Seq<char>)
    requires
        s.len() > 0,
        trim_end(s) == s,
    ensures
        !is_ws(s.last()),
{
    lemma_ws_start_bounds(s, s.len() as int);
    if is_ws(s.last()) {
        assert(ws_start_back(s, s.len() as int) == ws_start_back(s, s.len() - 1));
        assert(trim_end(s).len() < s.len());
    }
}

proof fn lemma_render_nonblank(ls: Seq<Seq<char>>, eol: Seq<char>)
    ensures
        render_config(ls, eol) == render_config(nonblank(ls), eol),
    decreases ls.len(),
{
    if ls.len() > 0 {
        lemma_render_nonblank(ls.drop_last(), eol);
        let nb = nonblank(ls.drop_last());
        if !is_blank_line(ls.last()) {
            lemma_push_shape(nb, ls.last());
            assert(nonblank(ls) =~= nb.push(ls.last()));
        } else {
            assert(nonblank(ls) =~= nb);
        }
    }
}

proof fn lemma_min_indent_nonblank(ls: Seq<Seq<char>>)
    ensures
        min_content_indent(ls) == min_content_indent(nonblank(ls)),
    decreases ls.len(),
{
    if ls.len() > 0 {
        lemma_min_indent_nonblank(ls.drop_last());
        let nb = nonblank(ls.drop_last());
        if !is_blank_line(ls.last()) {
            lemma_push_shape(nb, ls.last());
            assert(nonblank(ls) =~= nb.push(ls.last()));
        } else {
            lemma_blank_skipped(ls.last());
            assert(nonblank(ls) =~= nb);
        }
    }
}

/// Every line of `nonblank(ls)` is a non-blank line of `ls`.
proof fn lemma_nonblank_from(ls: Seq<Seq<char>>)
    ensures
        forall|j: int| 0 <= j < nonblank(ls).len() ==> exists|i: int| 0 <= i < ls.len() && ls[i] == #[trigger] nonblank(ls)[j],
        forall|j: int| 0 <= j < nonblank(ls).len() ==> !is_blank_line(#[trigger] nonblank(ls)[j]),
    decreases ls.len(),
{
    if ls.len() > 0 {
        lemma_nonblank_from(ls.drop_last());
        let nb = nonblank(ls.drop_last());
        if !is_blank_line(ls.last()) {
            assert(nonblank(ls) =~= nb.push(ls.last()));
            assert forall|j: int| 0 <= j < nonblank(ls).len() implies exists|i: int| 0 <= i < ls.len() && ls[i] == #[trigger] nonblank(ls)[j] by {
                if j < nb.len() {
                    let i = choose|i: int| 0 <= i < ls.drop_last().len() && ls.drop_last()[i] == nb[j];
                    assert(ls[i] == nonblank(ls)[j]);
                } else {
                    assert(ls[ls.len() - 1] == nonblank(ls)[j]);
                }
            }
        } else {
            assert(nonblank(ls) =~= nb);
            assert forall|j: int| 0 <= j < nonblank(ls).len() implies exists|i: int| 0 <= i < ls.len() && ls[i] == #[trigger] nonblank(ls)[j] by {
                let i = choose|i: int| 0 <= i < ls.drop_last().len() && ls.drop_last()[i] == nb[j];
                assert(ls[i] == nonblank(ls)[j]);
            }
        }
    }
}

proof fn lemma_nonblank_last(ls: Seq<Seq<char>>)
    requires
        ls.len() > 0,
        !is_blank_line(ls.last()),
    ensures
        nonblank(ls).len() > 0,
        nonblank(ls).last() == ls.last(),
{
    assert(nonblank(ls) =~= nonblank(ls.drop_last()).push(ls.last()));
}

/// Whether `scalar_from` finds a line for `needle` at `base` from `i` on.
pub open spec fn scalar_hit(ls: Seq<Seq<char>>, base: int, needle: Seq<char>, i: int) -> bool
    decreases ls.len() - i,
{
    if i < 0 || i >= ls.len() {
        false
    } else {
        let t = trim_start(ls[i]);
        if is_blank_or_comment(t) || indent(ls[i]) != base || !starts_with(t, needle) {
            scalar_hit(ls, base, needle, i + 1)
        } else {
            true
        }
    }
}

proof fn lemma_first_content_push(ls: Seq<Seq<char>>, x: Seq<char>, i: int)
    requires
        0 <= i <= ls.len(),
    ensures
        i <= first_content(ls, i) <= ls.len(),
        first_content(ls.push(x), i) == (if first_content(ls, i) < ls.len() {
            first_content(ls, i)
        } else if is_blank_or_comment(trim_start(x)) {
            ls.len() + 1int
        } else {
            ls.len() as int
        }),
    decreases ls.len() - i,
{
    let t = ls.push(x);
    if i < ls.len() {
        assert(t[i] == ls[i]);
        if is_blank_or_comment(trim_start(ls[i])) {
            lemma_first_content_push(ls, x, i + 1);
        }
    } else {
        assert(t[i] == x);
        if is_blank_or_comment(trim_start(x)) {
            assert(first_content(t, i + 1) == i + 1);
        }
    }
}

proof fn lemma_first_content_nonblank(ls: Seq<Seq<char>>)
    ensures
        (first_content(ls, 0) < ls.len()) == (first_content(nonblank(ls), 0) < nonblank(ls).len()),
        first_content(ls, 0) < ls.len() ==> ls[first_content(ls, 0)] == nonblank(ls)[first_content(
            nonblank(ls),
            0,
        )],
    decreases ls.len(),
{
    if ls.len() > 0 {
        let s = ls.drop_last();
        let x = ls.last();
        assert(ls == s.push(x));
        lemma_first_content_nonblank(s);
        let nb = nonblank(s);
        lemma_first_content_push(s, x, 0);
        lemma_first_content_push(nb, x, 0);
        if !is_blank_line(x) {
            assert(nonblank(ls) =~= nb.push(x));
            if first_content(s, 0) < s.len() {
                assert(ls[first_content(s, 0)] == s[first_content(s, 0)]);
                assert(nb.push(x)[first_content(nb, 0)] == nb[first_content(nb, 0)]);
            }
        } else {
            assert(nonblank(ls) =~= nb);
            lemma_blank_skipped(x);
            if first_content(s, 0) < s.len() {
                assert(ls[first_content(s, 0)] == s[first_content(s, 0)]);
            }
        }
    }
}

proof fn lemma_scalar_push(ls: Seq<Seq<char>>, x: Seq<char>, base: int, needle: Seq<char>, i: int)
    requires
        0 <= i <= ls.len(),
    ensures
        scalar_from(ls.push(x), base, needle, i) == (if scalar_hit(ls, base, needle, i) {
            scalar_from(ls, base, needle, i)
        } else {
            scalar_from(seq![x], base, needle, 0)
        }),
        scalar_hit(ls.push(x), base, needle, i) == (scalar_hit(ls, base, needle, i) || scalar_hit(
            seq![x],
            base,
            needle,
            0,
        )),
    decreases ls.len() - i,
{
    let t = ls.push(x);
    if i < ls.len() {
        assert(t[i] == ls[i]);
        let tt = trim_start(ls[i]);
        if is_blank_or_comment(tt) || indent(ls[i]) != base || !starts_with(tt, needle) {
            lemma_scalar_push(ls, x, base, needle, i + 1);
        }
    } else {
        assert(t[i] == x);
        assert(seq![x][0] == x);
        assert(scalar_from(t, base, needle, i + 1) == None::<Seq<char>>);
        assert(scalar_from(seq![x], base, needle, 1) == None::<Seq<char>>);
        assert(!scalar_hit(t, base, needle, i + 1));
        assert(!scalar_hit(seq![x], base, needle, 1));
    }
}

proof fn lemma_no_hit_none(ls: Seq<Seq<char>>, base: int, needle: Seq<char>, i: int)
    requires
        !scalar_hit(ls, base, needle, i),
    ensures
        scalar_from(ls, base, needle, i) is None,
    decreases ls.len() - i,
{
    if 0 <= i < ls.len() {
        lemma_no_hit_none(ls, base, needle, i + 1);
    }
}

proof fn lemma_scalar_nonblank(ls: Seq<Seq<char>>, base: int, needle: Seq<char>)
    ensures
        scalar_from(ls, base, needle, 0) == scalar_from(nonblank(ls), base, needle, 0),
        scalar_hit(ls, base, needle, 0) == scalar_hit(nonblank(ls), base, needle, 0),
    decreases ls.len(),
{
    if ls.len() > 0 {
        let s = ls.drop_last();
        let x = ls.last();
        assert(ls == s.push(x));
        lemma_scalar_nonblank(s, base, needle);
        let nb = nonblank(s);
        lemma_scalar_push(s, x, base, needle, 0);
        if !is_blank_line(x) {
            assert(nonblank(ls) =~= nb.push(x));
            lemma_scalar_push(nb, x, base, needle, 0);
        } else {
            assert(nonblank(ls) =~= nb);
            lemma_blank_skipped(x);
            assert(seq![x][0] == x);
            assert(!scalar_hit(seq![x], base, needle, 1));
            assert(!scalar_hit(seq![x], base, needle, 0));
            if !scalar_hit(s, base, needle, 0) {
                lemma_no_hit_none(s, base, needle, 0);
            }
            lemma_no_hit_none(seq![x], base, needle, 0);
        }
    }
}

proof fn lemma_nonblank_same(a: Seq<Seq<char>>, b: Seq<Seq<char>>)
    requires
        a.len() == b.len(),
        forall|i: int| 0 <= i < b.len() ==> (is_blank_line(#[trigger] b[i]) ==> is_blank_line(a[i])),
        forall|i: int| 0 <= i < b.len() ==> (!is_blank_line(#[trigger] b[i]) ==> a[i] == b[i]),
    ensures
        nonblank(a) == nonblank(b),
    decreases b.len(),
{
    if b.len() > 0 {
        let a2 = a.drop_last();
        let b2 = b.drop_last();
        assert forall|i: int| 0 <= i < b2.len() implies (is_blank_line(#[trigger] b2[i]) ==> is_blank_line(a2[i])) by {
            assert(b2[i] == b[i] && a2[i] == a[i]);
        }
        assert forall|i: int| 0 <= i < b2.len() implies (!is_blank_line(#[trigger] b2[i]) ==> a2[i] == b2[i]) by {
            assert(b2[i] == b[i] && a2[i] == a[i]);
        }
        lemma_nonblank_same(a2, b2);
        assert(a.last() == a[a.len() - 1] && b.last() == b[b.len() - 1]);
        if !is_blank_line(b.last()) {
            assert(a.last() == b.last());
        }
    }
}

/// Dropping the blank lines of a spaced config gives a stored config with the
/// same scalars, the same rendering and the same rejection.
proof fn lemma_compact(c: Seq<char>, row_id: Seq<char>, key: Seq<char>, eol: Seq<char>)
    requires
        spaced_config(c),
    ensures
        stored_config(compact(c)),
        spec_config_scalar(compact(c), key) == spec_config_scalar(c, key),
        render_config(raw_lines(compact(c)), eol) == render_config(raw_lines(c), eol),
        declare_error(row_id, compact(c)) == declare_error(row_id, c),
{
    let ls = lines(c);
    let nb = nonblank(ls);
    lemma_lines_from_no_newline(c, 0, 0);
    lemma_nonblank_from(ls);
    assert forall|j: int| 0 <= j < nb.len() implies stored_line(#[trigger] nb[j]) && no_newline(nb[j]) && strip_cr(
        nb[j],
    ) == nb[j] by {
        let i = choose|i: int| 0 <= i < ls.len() && ls[i] == nb[j];
        assert(!is_blank_line(ls[i]));
        assert(stored_line(ls[i]));
        assert(no_newline(ls[i]));
    }
    lemma_nonblank_last(ls);
    assert(ls.last().len() > 0) by {
        if ls.last().len() == 0 {
            lemma_all_ws_blank(ls.last());
        }
    }
    lemma_lines_join(nb);
    let cc = compact(c);
    assert(lines(cc) == nb);
    assert(raw_lines(cc) =~= nb);
    lemma_min_indent_nonblank(ls);
    lemma_join_last(nb, seq!['\n']);
    lemma_join_last(ls, seq!['\n']);
    lemma_trim_end_not_ws(c);
    lemma_last_not_ws(cc);
    lemma_last_not_ws(c);
    assert(stored_config(cc));
    let r = raw_lines(c);
    assert forall|i: int| 0 <= i < ls.len() implies (is_blank_line(#[trigger] ls[i]) ==> is_blank_line(r[i])) by {
        if is_blank_line(ls[i]) {
            lemma_blank_strip_cr(ls[i]);
        }
    }
    assert forall|i: int| 0 <= i < ls.len() implies (!is_blank_line(#[trigger] ls[i]) ==> r[i] == ls[i]) by {
        if !is_blank_line(ls[i]) {
            assert(stored_line(ls[i]));
        }
    }
    lemma_nonblank_same(r, ls);
    lemma_render_nonblank(r, eol);
    lemma_first_content_nonblank(r);
    let f = first_content(r, 0);
    if f < r.len() {
        lemma_scalar_nonblank(r, indent(r[f]), key.push(':'));
    }
}

// ------------------------------------------------------------------ any transport field

/// A declaration as the block reads it back: its config without blank lines, and
/// the views that config gives (its `transport` field re-read).
pub open spec fn restore(d: SpecMcpDeclare) -> SpecMcpDeclare {
    make_declare(d.row_id, compact(d.config_raw))
}

pub open spec fn restore_all(ds: Seq<SpecMcpDeclare>) -> Seq<SpecMcpDeclare> {
    ds.map_values(|d: SpecMcpDeclare| restore(d))
}

/// The declaration's `serverName` is the one its config gives.
pub open spec fn name_read(d: SpecMcpDeclare) -> bool {
    d.server_name == spec_config_scalar(d.config_raw, "serverName"@)
}

/// A declaration with a spaced config and the `serverName` that config gives; its
/// `transport` field may be anything.
pub open spec fn decl_readable(d: SpecMcpDeclare) -> bool {
    spaced_config(d.config_raw) && name_read(d)
}

pub open spec fn decls_readable(ds: Seq<SpecMcpDeclare>) -> bool {
    forall|k: int| 0 <= k < ds.len() ==> decl_readable(#[trigger] ds[k])
}

proof fn lemma_restore_all_shape(ds: Seq<SpecMcpDeclare>)
    requires
        ds.len() > 0,
    ensures
        restore_all(ds).drop_last() == restore_all(ds.drop_last()),
        restore_all(ds).last() == restore(ds.last()),
{
    assert(restore_all(ds).drop_last() =~= restore_all(ds.drop_last()));
}

proof fn lemma_restore_one(d: SpecMcpDeclare, eol: Seq<char>)
    requires
        decl_readable(d),
    ensures
        restore(d).row_id == d.row_id,
        restore(d).server_name == d.server_name,
        declare_error(restore(d).row_id, restore(d).config_raw) == declare_error(d.row_id, d.config_raw),
        render_declare(restore(d), eol) == render_declare(d, eol),
        stored_declare(restore(d)),
{
    lemma_compact(d.config_raw, d.row_id, "serverName"@, eol);
}

proof fn lemma_decls_readable_drop_last(ds: Seq<SpecMcpDeclare>)
    requires
        ds.len() > 0,
        decls_readable(ds),
    ensures
        decls_readable(ds.drop_last()),
        decl_readable(ds.last()),
{
    assert forall|k: int| 0 <= k < ds.drop_last().len() implies decl_readable(#[trigger] ds.drop_last()[k]) by {
        assert(ds.drop_last()[k] == ds[k]);
    }
    assert(decl_readable(ds[ds.len() - 1]));
}

proof fn lemma_insert_restore(s: Seq<SpecMcpDeclare>, x: SpecMcpDeclare)
    requires
        decls_readable(s),
        decl_readable(x),
    ensures
        insert_declare(restore_all(s), restore(x)) == restore_all(insert_declare(s, x)),
        decls_readable(insert_declare(s, x)),
    decreases s.len(),
{
    if s.len() == 0 {
        assert(restore_all(s) =~= Seq::<SpecMcpDeclare>::empty());
        assert(restore_all(seq![x]) =~= seq![restore(x)]);
        assert(decl_readable(seq![x][0]));
    } else {
        lemma_restore_all_shape(s);
        lemma_decls_readable_drop_last(s);
        lemma_restore_one(x, seq!['\n']);
        lemma_restore_one(s.last(), seq!['\n']);
        assert(declare_lt(restore(x), restore(s.last())) == declare_lt(x, s.last()));
        if !declare_lt(x, s.last()) {
            assert(restore_all(s.push(x)) =~= restore_all(s).push(restore(x)));
            assert forall|k: int| 0 <= k < s.push(x).len() implies decl_readable(#[trigger] s.push(x)[k]) by {
                if k < s.len() {
                    assert(s.push(x)[k] == s[k]);
                }
            }
        } else {
            lemma_insert_restore(s.drop_last(), x);
            let t = insert_declare(s.drop_last(), x);
            assert(restore_all(t.push(s.last())) =~= restore_all(t).push(restore(s.last())));
            assert forall|k: int| 0 <= k < t.push(s.last()).len() implies decl_readable(#[trigger] t.push(s.last())[k]) by {
                if k < t.len() {
                    assert(t.push(s.last())[k] == t[k]);
                }
            }
        }
    }
}

proof fn lemma_sort_restore(s: Seq<SpecMcpDeclare>)
    requires
        decls_readable(s),
    ensures
        sort_declares(restore_all(s)) == restore_all(sort_declares(s)),
        decls_readable(sort_declares(s)),
    decreases s.len(),
{
    if s.len() == 0 {
        assert(restore_all(s) =~= Seq::<SpecMcpDeclare>::empty());
        assert(restore_all(Seq::<SpecMcpDeclare>::empty()) =~= Seq::<SpecMcpDeclare>::empty());
    } else {
        lemma_restore_all_shape(s);
        lemma_decls_readable_drop_last(s);
        lemma_sort_restore(s.drop_last());
        lemma_insert_restore(sort_declares(s.drop_last()), s.last());
    }
}

proof fn lemma_errors_restore(s: Seq<SpecMcpDeclare>)
    requires
        decls_readable(s),
    ensures
        first_declare_error(restore_all(s)) == first_declare_error(s),
    decreases s.len(),
{
    if s.len() > 0 {
        lemma_restore_all_shape(s);
        lemma_decls_readable_drop_last(s);
        lemma_errors_restore(s.drop_last());
        lemma_restore_one(s.last(), seq!['\n']);
    }
}

proof fn lemma_render_restore(s: Seq<SpecMcpDeclare>, eol: Seq<char>)
    requires
        decls_readable(s),
    ensures
        render_declares(restore_all(s), eol) == render_declares(s, eol),
    decreases s.len(),
{
    if s.len() > 0 {
        lemma_restore_all_shape(s);
        lemma_decls_readable_drop_last(s);
        lemma_render_restore(s.drop_last(), eol);
        lemma_restore_one(s.last(), eol);
    }
}

/// Writing a block and reading the text back gives the block as it was written
/// (declarations sorted by `(serverName, rowId)`, each with its config's blank
/// lines dropped and the views that config gives; directives sorted by row id
/// with repeated row ids dropped), and writing that again gives the same bytes.
/// This holds for every block that renders and whose declarations carry the
/// `serverName` their config gives and a config whose non-blank lines are at
/// least two spaces deep, with the shallowest content line at two, no carriage
/// return before a line end and no `# == ` line, and which ends in a non-blank
/// line without trailing whitespace. The `transport` field may be anything.
pub proof fn law_render_parse_render(b: SpecMcpBlock)
    requires
        spec_render(b, seq!['\n']) is Ok,
        decls_readable(b.declares),
    ensures
        match spec_render(b, seq!['\n']) {
            Ok(text) => {
                &&& spec_parse(text) == Ok::<SpecMcpBlock, Seq<char>>(
                    SpecMcpBlock {
                        declares: sort_declares(restore_all(b.declares)),
                        directives: rendered_directives(b),
                    },
                )
                &&& spec_render(
                    SpecMcpBlock {
                        declares: sort_declares(restore_all(b.declares)),
                        directives: rendered_directives(b),
                    },
                    seq!['\n'],
                ) == Ok::<Seq<char>, Seq<char>>(text)
            },
            Err(_) => false,
        },
{
    let rb = SpecMcpBlock { declares: restore_all(b.declares), directives: b.directives };
    lemma_sort_restore(b.declares);
    lemma_errors_restore(sort_declares(b.declares));
    lemma_render_restore(sort_declares(b.declares), seq!['\n']);
    assert(restore_all(sort_declares(b.declares)).len() == sort_declares(b.declares).len());
    assert(spec_render(rb, seq!['\n']) == spec_render(b, seq!['\n']));
    assert forall|k: int| 0 <= k < rb.declares.len() implies stored_declare(#[trigger] rb.declares[k]) by {
        assert(rb.declares[k] == restore(b.declares[k]));
        assert(decl_readable(b.declares[k]));
        lemma_restore_one(b.declares[k], seq!['\n']);
    }
    lemma_render_parse_render_stored(rb);
}

} // verus!
