//! Normalising a `config` subtree is stable: normalising its normal form gives
//! the normal form back, byte for byte, on the configs described below.
use crate::mcp::block::{
    content_base, first_kept, is_blank_line, is_blank_or_comment, kept_lines, last_kept,
    min_content_indent, raw_lines, shift_line, spec_normalize,
};
use crate::text::{
    indent, indent_from, is_ws, join, lemma_indent_bounds, lemma_ws_end_bounds,
    lemma_ws_start_bounds, lines, lines_from, strip_cr, trim, trim_start, ws_end_from,
    ws_start_back,
};
use vstd::prelude::*;

verus! {

pub open spec fn no_newline(l: Seq<char>) -> bool {
    forall|k: int| 0 <= k < l.len() ==> l[k] != '\n'
}

pub open spec fn all_no_newline(ls: Seq<Seq<char>>) -> bool {
    forall|j: int| 0 <= j < ls.len() ==> no_newline(#[trigger] ls[j])
}

/// The line does not end in a carriage return.
pub open spec fn no_cr_end(l: Seq<char>) -> bool {
    !(l.len() > 0 && l.last() == '\r')
}

/// The configs whose normal form is stable: among the lines kept by normalisation
/// there is a content line (neither blank nor a comment), no non-blank line ends in
/// a carriage return, and no non-blank line is indented less than the shallowest
/// content line.
pub open spec fn normalizes_stably(raw: Seq<char>) -> bool {
    let kept = kept_lines(raw);
    let base = content_base(kept);
    &&& min_content_indent(kept) is Some
    &&& forall|i: int| 0 <= i < kept.len() ==> (!is_blank_line(#[trigger] kept[i]) ==> no_cr_end(kept[i]))
    &&& forall|i: int|
        0 <= i < kept.len() ==> (!is_blank_line(#[trigger] kept[i]) ==> indent(kept[i]) >= base)
}

// ------------------------------------------------------------------ lines of a join

pub(crate) proof fn lemma_strip_cr_no_newline(l: Seq<char>)
    requires
        no_newline(l),
    ensures
        no_newline(strip_cr(l)),
{
    if l.len() > 0 && l.last() == '\r' {
        assert forall|k: int| 0 <= k < strip_cr(l).len() implies strip_cr(l)[k] != '\n' by {
            assert(strip_cr(l)[k] == l[k]);
        }
    }
}

pub(crate) proof fn lemma_lines_from_no_newline(s: Seq<char>, start: int, i: int)
    requires
        0 <= start <= i <= s.len(),
        forall|k: int| start <= k < i ==> s[k] != '\n',
    ensures
        all_no_newline(lines_from(s, start, i)),
    decreases s.len() - i,
{
    if i >= s.len() {
        if start < s.len() {
            let piece = s.subrange(start, s.len() as int);
            assert(no_newline(piece)) by {
                assert forall|k: int| 0 <= k < piece.len() implies piece[k] != '\n' by {
                    assert(piece[k] == s[start + k]);
                }
            }
            assert forall|j: int| 0 <= j < lines_from(s, start, i).len() implies no_newline(
                #[trigger] lines_from(s, start, i)[j],
            ) by {
                assert(lines_from(s, start, i)[j] == piece);
            }
        }
    } else if s[i] == '\n' {
        let piece = s.subrange(start, i);
        assert(no_newline(piece)) by {
            assert forall|k: int| 0 <= k < piece.len() implies piece[k] != '\n' by {
                assert(piece[k] == s[start + k]);
            }
        }
        lemma_strip_cr_no_newline(piece);
        lemma_lines_from_no_newline(s, i + 1, i + 1);
        let rest = lines_from(s, i + 1, i + 1);
        assert forall|j: int| 0 <= j < lines_from(s, start, i).len() implies no_newline(
            #[trigger] lines_from(s, start, i)[j],
        ) by {
            if j > 0 {
                assert(lines_from(s, start, i)[j] == rest[j - 1]);
            }
        }
    } else {
        lemma_lines_from_no_newline(s, start, i + 1);
    }
}

proof fn lemma_lines_from_shift(p: Seq<char>, r: Seq<char>, start: int, i: int)
    requires
        p.len() <= start <= i <= p.len() + r.len(),
    ensures
        lines_from(p + r, start, i) == lines_from(r, start - p.len(), i - p.len()),
    decreases p.len() + r.len() - i,
{
    let s = p + r;
    if i >= s.len() {
        if start < s.len() {
            assert(s.subrange(start, s.len() as int) =~= r.subrange(start - p.len(), r.len() as int));
        }
    } else {
        assert(s[i] == r[i - p.len()]);
        if s[i] == '\n' {
            assert(s.subrange(start, i) =~= r.subrange(start - p.len(), i - p.len()));
            lemma_lines_from_shift(p, r, i + 1, i + 1);
        } else {
            lemma_lines_from_shift(p, r, start, i + 1);
        }
    }
}

proof fn lemma_lines_first(a: Seq<char>, rest: Seq<char>, i: int)
    requires
        0 <= i <= a.len(),
        no_newline(a),
    ensures
        lines_from(a + seq!['\n'] + rest, 0, i) == seq![strip_cr(a)] + lines_from(
            a + seq!['\n'] + rest,
            a.len() + 1int,
            a.len() + 1int,
        ),
    decreases a.len() - i,
{
    let s = a + seq!['\n'] + rest;
    if i < a.len() {
        assert(s[i] == a[i]);
        lemma_lines_first(a, rest, i + 1);
    } else {
        assert(s[i] == '\n');
        assert(s.subrange(0, i) =~= a);
    }
}

pub(crate) proof fn lemma_lines_cons(a: Seq<char>, rest: Seq<char>)
    requires
        no_newline(a),
    ensures
        lines(a + seq!['\n'] + rest) == seq![strip_cr(a)] + lines(rest),
{
    lemma_lines_first(a, rest, 0);
    let p = a + seq!['\n'];
    lemma_lines_from_shift(p, rest, p.len() as int, p.len() as int);
}

pub(crate) proof fn lemma_lines_single(a: Seq<char>, i: int)
    requires
        no_newline(a),
        a.len() > 0,
        0 <= i <= a.len(),
    ensures
        lines_from(a, 0, i) == seq![a],
    decreases a.len() - i,
{
    if i < a.len() {
        lemma_lines_single(a, i + 1);
    } else {
        assert(a.subrange(0, a.len() as int) =~= a);
    }
}

pub(crate) proof fn lemma_join_front(parts: Seq<Seq<char>>, sep: Seq<char>)
    requires
        parts.len() >= 2,
    ensures
        join(parts, sep) == parts[0] + sep + join(parts.skip(1), sep),
    decreases parts.len(),
{
    let rest = parts.skip(1);
    if parts.len() == 2 {
        assert(parts.drop_last().len() == 1);
        assert(parts.drop_last()[0] == parts[0]);
        assert(rest.len() == 1);
        assert(rest[0] == parts[1]);
        assert(join(parts.drop_last(), sep) == parts[0]);
        assert(join(rest, sep) == parts[1]);
        assert(join(parts, sep) == join(parts.drop_last(), sep) + sep + parts.last());
        assert(parts.last() == parts[1]);
    } else {
        let dl = parts.drop_last();
        lemma_join_front(dl, sep);
        assert(rest.drop_last() =~= dl.skip(1));
        assert(rest.last() == parts.last());
        assert(dl[0] == parts[0]);
        assert(join(parts, sep) == join(dl, sep) + sep + parts.last());
        assert(join(rest, sep) == join(rest.drop_last(), sep) + sep + rest.last());
        assert(join(parts, sep) =~= parts[0] + sep + join(rest, sep));
    }
}

pub(crate) proof fn lemma_lines_join(parts: Seq<Seq<char>>)
    requires
        parts.len() >= 1,
        all_no_newline(parts),
        forall|i: int| 0 <= i < parts.len() ==> strip_cr(#[trigger] parts[i]) == parts[i],
        parts.last().len() > 0,
    ensures
        lines(join(parts, seq!['\n'])) == parts,
    decreases parts.len(),
{
    if parts.len() == 1 {
        assert(no_newline(parts[0]));
        lemma_lines_single(parts[0], 0);
        assert(seq![parts[0]] =~= parts);
    } else {
        let nl = seq!['\n'];
        let rest = parts.skip(1);
        lemma_join_front(parts, nl);
        assert(no_newline(parts[0]));
        lemma_lines_cons(parts[0], join(rest, nl));
        assert forall|j: int| 0 <= j < rest.len() implies no_newline(#[trigger] rest[j]) by {
            assert(rest[j] == parts[j + 1]);
        }
        assert forall|j: int| 0 <= j < rest.len() implies strip_cr(#[trigger] rest[j]) == rest[j] by {
            assert(rest[j] == parts[j + 1]);
        }
        assert(rest.last() == parts.last());
        lemma_lines_join(rest);
        assert(strip_cr(parts[0]) == parts[0]);
        assert(seq![parts[0]] + rest =~= parts);
    }
}

// ------------------------------------------------------------------ kept lines

pub(crate) proof fn lemma_first_kept(ls: Seq<Seq<char>>, i: int)
    requires
        0 <= i <= ls.len(),
    ensures
        i <= first_kept(ls, i) <= ls.len(),
        first_kept(ls, i) < ls.len() ==> !is_blank_line(ls[first_kept(ls, i)]),
    decreases ls.len() - i,
{
    if i < ls.len() && is_blank_line(ls[i]) {
        lemma_first_kept(ls, i + 1);
    }
}

pub(crate) proof fn lemma_last_kept(ls: Seq<Seq<char>>, a: int, j: int)
    requires
        0 <= a <= j <= ls.len(),
    ensures
        a <= last_kept(ls, a, j) <= j,
        a < last_kept(ls, a, j) ==> !is_blank_line(ls[last_kept(ls, a, j) - 1]),
    decreases j,
{
    if a < j && 0 < j && is_blank_line(ls[j - 1]) {
        lemma_last_kept(ls, a, j - 1);
    }
}

pub(crate) proof fn lemma_min_nonneg(ls: Seq<Seq<char>>)
    ensures
        min_content_indent(ls) matches Some(x) ==> x >= 0,
    decreases ls.len(),
{
    if ls.len() > 0 {
        lemma_min_nonneg(ls.drop_last());
        lemma_indent_bounds(ls.last(), 0);
    }
}

// ------------------------------------------------------------------ one shifted line

pub(crate) proof fn lemma_ws_end_unique(s: Seq<char>, e: int)
    requires
        0 <= e <= s.len(),
        forall|k: int| 0 <= k < e ==> is_ws(#[trigger] s[k]),
        e < s.len() ==> !is_ws(s[e]),
    ensures
        ws_end_from(s, 0) == e,
{
    lemma_ws_end_bounds(s, 0);
    let w = ws_end_from(s, 0);
    if w < e {
        assert(is_ws(s[w]));
    }
    if e < w {
        assert(is_ws(s[e]));
    }
}

pub(crate) proof fn lemma_indent_unique(s: Seq<char>, e: int)
    requires
        0 <= e <= s.len(),
        forall|k: int| 0 <= k < e ==> #[trigger] s[k] == ' ',
        e < s.len() ==> s[e] != ' ',
    ensures
        indent(s) == e,
{
    lemma_indent_bounds(s, 0);
    let w = indent_from(s, 0);
    if w < e {
        assert(s[w] == ' ');
    }
    if e < w {
        assert(s[e] == ' ');
    }
}

pub(crate) proof fn lemma_blank_iff(l: Seq<char>)
    ensures
        is_blank_line(l) <==> trim_start(l).len() == 0,
{
    lemma_ws_end_bounds(l, 0);
    let t = trim_start(l);
    lemma_ws_start_bounds(t, t.len() as int);
    assert(trim(l).len() == ws_start_back(t, t.len() as int));
    if t.len() > 0 {
        assert(t[0] == l[ws_end_from(l, 0)]);
        if ws_start_back(t, t.len() as int) == 0 {
            assert(is_ws(t[0]));
        }
    }
}

/// What normalising does to one line, and that normalising again keeps it.
pub open spec fn shifted_ok(l: Seq<char>, s: Seq<char>, base: int) -> bool {
    &&& is_blank_line(s) == is_blank_line(l)
    &&& is_blank_line(l) ==> s.len() == 0
    &&& !is_blank_line(l) ==> s.len() > 2
    &&& is_blank_or_comment(trim_start(s)) == is_blank_or_comment(trim_start(l))
    &&& !is_blank_or_comment(trim_start(l)) ==> indent(s) == indent(l) - base + 2
    &&& no_newline(s)
    &&& strip_cr(s) == s
    &&& shift_line(s, 2) == s
}

pub(crate) proof fn lemma_shift_facts(l: Seq<char>, base: int)
    requires
        base >= 0,
        no_newline(l),
        !is_blank_line(l) ==> no_cr_end(l),
        !is_blank_line(l) ==> indent(l) >= base,
    ensures
        shifted_ok(l, shift_line(l, base), base),
{
    let s = shift_line(l, base);
    lemma_blank_iff(l);
    if is_blank_line(l) {
        assert(s.len() == 0);
        lemma_blank_iff(s);
        assert(trim_start(s).len() == 0);
    } else {
        lemma_indent_bounds(l, 0);
        lemma_ws_end_bounds(l, 0);
        let i0 = indent(l);
        let e = ws_end_from(l, 0);
        assert((' ' as u32) == 32);
        assert(is_ws(' '));
        if e < i0 {
            assert(l[e] == ' ');
        }
        assert(e >= i0);
        assert(e < l.len());
        let t = l.subrange(base, l.len() as int);
        assert(s == seq![' ', ' '] + t);
        assert(s.len() == l.len() - base + 2);
        assert forall|k: int| 0 <= k < e - base + 2 implies is_ws(#[trigger] s[k]) by {
            if k >= 2 {
                assert(s[k] == l[k - 2 + base]);
            }
        }
        assert(s[e - base + 2] == l[e]);
        lemma_ws_end_unique(s, e - base + 2);
        assert(trim_start(s) =~= trim_start(l));
        lemma_blank_iff(s);
        assert forall|k: int| 0 <= k < i0 - base + 2 implies #[trigger] s[k] == ' ' by {
            if k >= 2 {
                assert(s[k] == l[k - 2 + base]);
            }
        }
        if i0 - base + 2 < s.len() {
            assert(s[i0 - base + 2] == l[i0]);
        }
        lemma_indent_unique(s, i0 - base + 2);
        assert forall|k: int| 0 <= k < s.len() implies s[k] != '\n' by {
            if k >= 2 {
                assert(s[k] == l[k - 2 + base]);
            }
        }
        assert(s.last() == l.last());
        assert(s.subrange(2, s.len() as int) =~= t);
        assert(seq![' ', ' '] + s.subrange(2, s.len() as int) =~= s);
    }
}

// ------------------------------------------------------------------ content indentation

pub(crate) proof fn lemma_min_shift(kept: Seq<Seq<char>>, m: Seq<Seq<char>>, base: int, n: int)
    requires
        kept.len() == m.len(),
        0 <= n <= kept.len(),
        forall|i: int| 0 <= i < kept.len() ==> shifted_ok(kept[i], #[trigger] m[i], base),
    ensures
        match min_content_indent(kept.subrange(0, n)) {
            None => min_content_indent(m.subrange(0, n)) is None,
            Some(x) => min_content_indent(m.subrange(0, n)) == Some(x - base + 2),
        },
    decreases n,
{
    if n > 0 {
        lemma_min_shift(kept, m, base, n - 1);
        assert(kept.subrange(0, n).drop_last() =~= kept.subrange(0, n - 1));
        assert(m.subrange(0, n).drop_last() =~= m.subrange(0, n - 1));
        assert(kept.subrange(0, n).last() == kept[n - 1]);
        assert(m.subrange(0, n).last() == m[n - 1]);
        assert(shifted_ok(kept[n - 1], m[n - 1], base));
    }
}

// ------------------------------------------------------------------ the law

/// Normalising the normal form of a `config` subtree gives it back unchanged, for
/// every config whose kept lines hold a content line, whose non-blank kept lines
/// end in no carriage return once the line ending's own is removed (a content line
/// ending `\r\r\r\n` keeps one, and the second pass drops it; a blank one becomes
/// empty either way), and which indents no non-blank line less than the shallowest
/// content line.
pub proof fn law_normalize_idempotent(raw: Seq<char>)
    requires
        normalizes_stably(raw),
    ensures
        spec_normalize(spec_normalize(raw)) == spec_normalize(raw),
{
    let ls = raw_lines(raw);
    let a = first_kept(ls, 0);
    lemma_first_kept(ls, 0);
    let b = last_kept(ls, a, ls.len() as int);
    lemma_last_kept(ls, a, ls.len() as int);
    let kept = kept_lines(raw);
    assert(kept == ls.subrange(a, b));
    let base = content_base(kept);
    assert(kept.len() > 0);
    lemma_min_nonneg(kept);
    assert(base >= 0);
    assert(kept[0] == ls[a]);
    assert(kept[kept.len() - 1] == ls[b - 1]);
    lemma_lines_from_no_newline(raw, 0, 0);
    assert forall|i: int| 0 <= i < kept.len() implies no_newline(#[trigger] kept[i]) by {
        assert(kept[i] == ls[a + i]);
        assert(ls[a + i] == strip_cr(lines(raw)[a + i]));
        assert(no_newline(lines(raw)[a + i]));
        lemma_strip_cr_no_newline(lines(raw)[a + i]);
    }
    let m = Seq::new(kept.len(), |i: int| shift_line(kept[i], base));
    assert forall|i: int| 0 <= i < kept.len() implies shifted_ok(kept[i], #[trigger] m[i], base) by {
        assert(no_newline(kept[i]));
        assert(!is_blank_line(kept[i]) ==> no_cr_end(kept[i]));
        lemma_shift_facts(kept[i], base);
    }
    lemma_min_shift(kept, m, base, kept.len() as int);
    assert(kept.subrange(0, kept.len() as int) =~= kept);
    assert(m.subrange(0, m.len() as int) =~= m);
    assert(min_content_indent(m) == Some(2int));
    let nl = seq!['\n'];
    let out = join(m, nl);
    assert(spec_normalize(raw) == out);
    assert(shifted_ok(kept[0], m[0], base));
    assert(shifted_ok(kept[kept.len() - 1], m[m.len() - 1], base));
    assert forall|j: int| 0 <= j < m.len() implies no_newline(#[trigger] m[j]) by {
        assert(shifted_ok(kept[j], m[j], base));
    }
    assert forall|j: int| 0 <= j < m.len() implies strip_cr(#[trigger] m[j]) == m[j] by {
        assert(shifted_ok(kept[j], m[j], base));
    }
    lemma_lines_join(m);
    let ls2 = raw_lines(out);
    assert(ls2 =~= m);
    assert(first_kept(m, 0) == 0);
    assert(last_kept(m, 0, m.len() as int) == m.len());
    assert(kept_lines(out) =~= m);
    assert(content_base(m) == 2);
    let m2 = Seq::new(m.len(), |i: int| shift_line(m[i], 2));
    assert forall|j: int| 0 <= j < m.len() implies #[trigger] m2[j] == m[j] by {
        assert(shifted_ok(kept[j], m[j], base));
    }
    assert(m2 =~= m);
}

} // verus!
