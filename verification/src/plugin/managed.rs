//! Row ids and YAML quoting for launcher-managed blocks in `cordis.patch.yml`.
use crate::text::{chars_string, is_whitespace, is_ws, push_all, push_str, str_chars};
use vstd::prelude::*;

verus! {

pub open spec fn is_control(c: char) -> bool {
    (c as u32) < 0x20 || (c as u32) == 0x7F
}

/// Characters a row id may hold without quoting in YAML.
pub open spec fn is_row_id_char(c: char) -> bool {
    let u = c as u32;
    ||| 0x30 <= u <= 0x39
    ||| 0x41 <= u <= 0x5A
    ||| 0x61 <= u <= 0x7A
    ||| c == '-'
    ||| c == '_'
    ||| c == '.'
    ||| c == '@'
    ||| c == '/'
}

/// Empty, or holds whitespace or a control character (would break the block's lines).
pub open spec fn row_id_malformed(id: Seq<char>) -> bool {
    id.len() == 0 || exists|i: int| 0 <= i < id.len() && (is_ws(#[trigger] id[i]) || is_control(id[i]))
}

/// Holds a character outside the safe set.
pub open spec fn row_id_unsafe(id: Seq<char>) -> bool {
    exists|i: int| 0 <= i < id.len() && !is_row_id_char(#[trigger] id[i])
}

/// The rejection message for a row id, or `None` when the id is safe to write.
pub open spec fn row_id_error(id: Seq<char>) -> Option<Seq<char>> {
    if row_id_malformed(id) {
        Some("非法行 id：\""@ + id + "\""@)
    } else if row_id_unsafe(id) {
        Some("行 id \""@ + id + "\" 含不安全字符（只允许字母、数字与 - _ . @ /）"@)
    } else {
        None
    }
}

fn is_row_id_char_exec(c: char) -> (b: bool)
    ensures
        b == is_row_id_char(c),
{
    let u = c as u32;
    (0x30 <= u && u <= 0x39) || (0x41 <= u && u <= 0x5A) || (0x61 <= u && u <= 0x7A) || c == '-'
        || c == '_' || c == '.' || c == '@' || c == '/'
}

pub fn row_id_error_vec(id: &Vec<char>) -> (r: Option<Vec<char>>)
    ensures
        r matches Some(m) ==> row_id_error(id@) == Some(m@),
        r is None ==> row_id_error(id@) is None,
{
    let mut malformed = id.len() == 0;
    let mut unsafe_char = false;
    let mut i: usize = 0;
    while i < id.len()
        invariant
            i <= id.len(),
            malformed == (id@.len() == 0 || exists|k: int|
                0 <= k < i && (is_ws(#[trigger] id@[k]) || is_control(id@[k]))),
            unsafe_char == exists|k: int| 0 <= k < i && !is_row_id_char(#[trigger] id@[k]),
        decreases id.len() - i,
    {
        let c = id[i];
        let u = c as u32;
        if is_whitespace(c) || u < 0x20 || u == 0x7F {
            malformed = true;
        }
        if !is_row_id_char_exec(c) {
            unsafe_char = true;
        }
        i = i + 1;
    }
    if malformed {
        let mut m = str_chars("非法行 id：\"");
        push_all(&mut m, id);
        push_str(&mut m, "\"");
        Some(m)
    } else if unsafe_char {
        let mut m = str_chars("行 id \"");
        push_all(&mut m, id);
        push_str(&mut m, "\" 含不安全字符（只允许字母、数字与 - _ . @ /）");
        Some(m)
    } else {
        None
    }
}

/// Checks that a row id can be written into a managed block.
pub fn validate_row_id(row_id: &str) -> (r: Result<(), String>)
    ensures
        r is Ok <==> row_id_error(row_id@) is None,
        r matches Err(m) ==> row_id_error(row_id@) == Some(m@),
{
    let id = str_chars(row_id);
    match row_id_error_vec(&id) {
        None => Ok(()),
        Some(m) => Err(chars_string(m.as_slice())),
    }
}

/// Single-quote escaping of a YAML scalar body (`'` doubled).
pub open spec fn yaml_escape(s: Seq<char>) -> Seq<char>
    decreases s.len(),
{
    if s.len() == 0 {
        Seq::empty()
    } else if s.last() == '\'' {
        yaml_escape(s.drop_last()) + seq!['\'', '\'']
    } else {
        yaml_escape(s.drop_last()).push(s.last())
    }
}

/// A YAML single-quoted scalar.
pub open spec fn yaml_quoted(s: Seq<char>) -> Seq<char> {
    seq!['\''] + yaml_escape(s) + seq!['\'']
}

pub fn yaml_quote_vec(value: &Vec<char>) -> (r: Vec<char>)
    ensures
        r@ == yaml_quoted(value@),
{
    let mut out: Vec<char> = Vec::new();
    out.push('\'');
    let mut i: usize = 0;
    while i < value.len()
        invariant
            i <= value.len(),
            out@ == seq!['\''] + yaml_escape(value@.subrange(0, i as int)),
        decreases value.len() - i,
    {
        let ghost pre = value@.subrange(0, i as int);
        assert(value@.subrange(0, i + 1).drop_last() =~= pre);
        if value[i] == '\'' {
            out.push('\'');
            out.push('\'');
        } else {
            out.push(value[i]);
        }
        i = i + 1;
        assert(out@ =~= seq!['\''] + yaml_escape(value@.subrange(0, i as int)));
    }
    assert(value@.subrange(0, value@.len() as int) =~= value@);
    out.push('\'');
    assert(out@ =~= yaml_quoted(value@));
    out
}

/// Quotes a value as a YAML single-quoted scalar.
pub fn yaml_quote(value: &str) -> (r: String)
    ensures
        r@ == yaml_quoted(value@),
{
    let v = str_chars(value);
    let q = yaml_quote_vec(&v);
    chars_string(q.as_slice())
}

} // verus!
