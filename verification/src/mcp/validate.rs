//! MCP validation: the two rules the MCP client enforces (`serverName` shape and
//! uniqueness over the composed tree) plus the transport's required fields.
use crate::mcp::block::{config_scalar_vec, spec_config_scalar};
use crate::mcp::entry::{spec_default_row_id, McpTransport};
use crate::plugin::managed::{is_control, is_row_id_char, row_id_error};
use crate::plugin::dump::{mcp_rows_view, McpRow, SpecMcpRow};
use crate::plugin::state::{PluginError, PluginErrorKind};
use crate::text::{
    chars_string, debug_quoted, decimal, decimal_vec, eq_vec, join, join_lines, lines_view,
    is_ws, push_all, push_str, str_chars, str_debug, trim, trim_vec,
};
use vstd::prelude::*;

verus! {

/// Longest `serverName` (the `{1,32}` of the official pattern).
pub const SERVER_NAME_MAX_LEN: usize = 32;

/// A character of `[A-Za-z0-9_-]`.
pub open spec fn is_server_name_char(c: char) -> bool {
    ('a' <= c && c <= 'z') || ('A' <= c && c <= 'Z') || ('0' <= c && c <= '9') || c == '_' || c == '-'
}

/// `^[A-Za-z0-9_-]{1,32}$`
pub open spec fn matches_server_name_pattern(s: Seq<char>) -> bool {
    1 <= s.len() <= 32 && forall|i: int| 0 <= i < s.len() ==> is_server_name_char(#[trigger] s[i])
}

/// The rejection message for a `serverName`, or `None` when it is accepted.
pub open spec fn server_name_error(s: Seq<char>) -> Option<Seq<char>> {
    if s.len() == 0 {
        Some("serverName 不能为空"@)
    } else if s.len() > 32 {
        Some("serverName "@ + str_debug(s) + " 超长（"@ + decimal(s.len()) + " 字符 > 官方上限 "@ + decimal(32)
            + "）"@)
    } else if exists|i: int| 0 <= i < s.len() && !is_server_name_char(#[trigger] s[i]) {
        Some("serverName "@ + str_debug(s) + " 含非法字符（官方要求 ^[A-Za-z0-9_-]{1,32}$）"@)
    } else {
        None
    }
}

/// A `serverName` is accepted exactly when it matches `^[A-Za-z0-9_-]{1,32}$`.
pub proof fn law_server_name_pattern(s: Seq<char>)
    ensures
        server_name_error(s) is None <==> matches_server_name_pattern(s),
{
}

/// The row id derived from an accepted `serverName` (`mcp-<serverName>`) is a row id the
/// managed block accepts.
pub proof fn law_default_row_id_is_safe(s: Seq<char>)
    requires
        server_name_error(s) is None,
    ensures
        row_id_error(spec_default_row_id(s)) is None,
{
    reveal_strlit("mcp-");
    let id = spec_default_row_id(s);
    assert forall|i: int| 0 <= i < id.len() implies is_server_name_char(#[trigger] id[i]) by {
        if i >= 4 {
            assert(id[i] == s[i - 4]);
        }
    }
    assert forall|i: int| 0 <= i < id.len() implies is_row_id_char(#[trigger] id[i]) && !is_ws(id[i]) && !is_control(
        id[i],
    ) by {
        assert(is_server_name_char(id[i]));
    }
}

fn is_server_name_char_exec(c: char) -> (b: bool)
    ensures
        b == is_server_name_char(c),
{
    ('a' <= c && c <= 'z') || ('A' <= c && c <= 'Z') || ('0' <= c && c <= '9') || c == '_' || c == '-'
}

/// Checks `serverName` against `^[A-Za-z0-9_-]{1,32}$`.
pub fn validate_server_name(server_name: &str) -> (r: Result<(), PluginError>)
    ensures
        r is Ok <==> server_name_error(server_name@) is None,
        r matches Err(e) ==> e.kind == PluginErrorKind::IllegalTransition && server_name_error(server_name@)
            == Some(e.message@),
{
    let s = str_chars(server_name);
    if s.len() == 0 {
        return Err(PluginError::illegal("serverName 不能为空".to_owned()));
    }
    let length = s.len();
    if length > SERVER_NAME_MAX_LEN {
        let mut m = str_chars("serverName ");
        push_str(&mut m, debug_quoted(server_name).as_str());
        push_str(&mut m, " 超长（");
        push_all(&mut m, &decimal_vec(length));
        push_str(&mut m, " 字符 > 官方上限 ");
        push_all(&mut m, &decimal_vec(SERVER_NAME_MAX_LEN));
        push_str(&mut m, "）");
        return Err(PluginError::illegal(chars_string(m.as_slice())));
    }
    let mut i: usize = 0;
    while i < s.len()
        invariant
            i <= s.len(),
            s@ == server_name@,
            1 <= s@.len() <= 32,
            forall|k: int| 0 <= k < i ==> is_server_name_char(#[trigger] s@[k]),
        decreases s.len() - i,
    {
        if !is_server_name_char_exec(s[i]) {
            assert(!is_server_name_char(server_name@[i as int]));
            let mut m = str_chars("serverName ");
            push_str(&mut m, debug_quoted(server_name).as_str());
            push_str(&mut m, " 含非法字符（官方要求 ^[A-Za-z0-9_-]{1,32}$）");
            return Err(PluginError::illegal(chars_string(m.as_slice())));
        }
        i = i + 1;
    }
    Ok(())
}

pub open spec fn opt_str_view(o: Option<&str>) -> Option<Seq<char>> {
    match o {
        Some(s) => Some(s@),
        None => None,
    }
}

/// A row of the tree that clashes with `server_name` (the row `self_id` excluded).
pub open spec fn is_conflict(r: SpecMcpRow, server_name: Seq<char>, self_id: Option<Seq<char>>) -> bool {
    Some(r.row_id) != self_id && spec_config_scalar(r.config_raw, "serverName"@) == Some(server_name)
}

pub open spec fn conflict_item(r: SpecMcpRow) -> Seq<char> {
    "行 "@ + r.row_id + "（来源层 "@ + r.section_owner + "）"@
}

/// One description per clashing row, in tree order.
pub open spec fn conflict_items(rows: Seq<SpecMcpRow>, server_name: Seq<char>, self_id: Option<Seq<char>>) -> Seq<Seq<char>>
    decreases rows.len(),
{
    if rows.len() == 0 {
        Seq::empty()
    } else {
        conflict_items(rows.drop_last(), server_name, self_id) + (if is_conflict(rows.last(), server_name, self_id) {
            seq![conflict_item(rows.last())]
        } else {
            Seq::empty()
        })
    }
}

pub open spec fn duplicate_message(server_name: Seq<char>, items: Seq<Seq<char>>) -> Seq<char> {
    "serverName "@ + server_name + " 在合成树中重复："@ + join(items, "、"@)
        + "。官方按注册作用域强制唯一，加载期后出现的实例会失败；请先处理重复声明"@
}

/// `serverName` uniqueness over the composed tree, the row `self_row_id` excluded.
/// A clash is an `IllegalTransition` whose message names every clashing row and its layer.
pub fn validate_unique_server_name(server_name: &str, rows: &[McpRow], self_row_id: Option<&str>) -> (r: Result<
    (),
    PluginError,
>)
    ensures
        r is Ok <==> conflict_items(mcp_rows_view(rows@), server_name@, opt_str_view(self_row_id)).len() == 0,
        r matches Err(e) ==> e.kind == PluginErrorKind::IllegalTransition && e.message@ == duplicate_message(
            server_name@,
            conflict_items(mcp_rows_view(rows@), server_name@, opt_str_view(self_row_id)),
        ),
{
    let ghost rv = mcp_rows_view(rows@);
    let ghost sid = opt_str_view(self_row_id);
    let sn = str_chars(server_name);
    let key = str_chars("serverName");
    let self_chars: Option<Vec<char>> = match self_row_id {
        Some(x) => Some(str_chars(x)),
        None => None,
    };
    let mut items: Vec<Vec<char>> = Vec::new();
    let mut i: usize = 0;
    while i < rows.len()
        invariant
            i <= rows.len(),
            rv == mcp_rows_view(rows@),
            sn@ == server_name@,
            key@ == "serverName"@,
            sid == opt_str_view(self_row_id),
            match self_chars {
                Some(v) => sid == Some(v@),
                None => sid is None,
            },
            lines_view(items@) == conflict_items(rv.take(i as int), server_name@, sid),
        decreases rows.len() - i,
    {
        let row = &rows[i];
        assert(rv[i as int] == row@);
        assert(rv.take(i + 1).drop_last() =~= rv.take(i as int));
        let id = str_chars(row.row_id.as_str());
        let not_self = match &self_chars {
            Some(v) => !eq_vec(&id, v),
            None => true,
        };
        let same_name = match config_scalar_vec(&str_chars(row.config_raw.as_str()), &key) {
            Some(v) => eq_vec(&v, &sn),
            None => false,
        };
        if not_self && same_name {
            let mut item = str_chars("行 ");
            push_all(&mut item, &id);
            push_str(&mut item, "（来源层 ");
            push_str(&mut item, row.section_owner.as_str());
            push_str(&mut item, "）");
            let ghost prev = items@;
            items.push(item);
            proof {
                crate::text::lemma_lines_view_push(prev, item);
            }
        } else {
            assert(conflict_items(rv.take(i + 1), server_name@, sid) =~= conflict_items(rv.take(i as int), server_name@, sid));
        }
        i = i + 1;
    }
    assert(rv.take(rows.len() as int) =~= rv);
    if items.len() == 0 {
        return Ok(());
    }
    let mut m = str_chars("serverName ");
    push_all(&mut m, &sn);
    push_str(&mut m, " 在合成树中重复：");
    push_all(&mut m, &join_lines(&items, &str_chars("、")));
    push_str(&mut m, "。官方按注册作用域强制唯一，加载期后出现的实例会失败；请先处理重复声明");
    Err(PluginError::illegal(chars_string(m.as_slice())))
}

/// Empty after trimming, or absent.
pub open spec fn missing(v: Option<&str>) -> bool {
    match v {
        Some(s) => trim(s@).len() == 0,
        None => true,
    }
}

pub open spec fn transport_required_error(transport: McpTransport, command: Option<&str>, url: Option<&str>) -> Option<
    Seq<char>,
> {
    match transport {
        McpTransport::Stdio => if missing(command) {
            Some("transport 为 stdio 时必须提供 command（官方必填字段）"@)
        } else {
            None
        },
        McpTransport::StreamableHttp => if missing(url) {
            Some("transport 为 streamable-http 时必须提供 url（官方必填字段）"@)
        } else {
            None
        },
    }
}

fn missing_exec(v: Option<&str>) -> (b: bool)
    ensures
        b == missing(v),
{
    match v {
        Some(s) => trim_vec(&str_chars(s)).len() == 0,
        None => true,
    }
}

/// Required fields of a transport: `command` for stdio, `url` for streamable-http.
pub fn validate_transport_required(transport: McpTransport, command: Option<&str>, url: Option<&str>) -> (r: Result<
    (),
    PluginError,
>)
    ensures
        r is Ok <==> transport_required_error(transport, command, url) is None,
        r matches Err(e) ==> e.kind == PluginErrorKind::IllegalTransition && transport_required_error(
            transport,
            command,
            url,
        ) == Some(e.message@),
{
    match transport {
        McpTransport::Stdio => {
            if missing_exec(command) {
                return Err(PluginError::illegal("transport 为 stdio 时必须提供 command（官方必填字段）".to_owned()));
            }
        },
        McpTransport::StreamableHttp => {
            if missing_exec(url) {
                return Err(
                    PluginError::illegal("transport 为 streamable-http 时必须提供 url（官方必填字段）".to_owned()),
                );
            }
        },
    }
    Ok(())
}

/// The checks before `add`: name shape, transport fields, then uniqueness over the whole tree.
pub open spec fn new_declaration_error(
    server_name: Seq<char>,
    transport: McpTransport,
    command: Option<&str>,
    url: Option<&str>,
    tree: Seq<SpecMcpRow>,
) -> Option<Seq<char>> {
    if server_name_error(server_name) is Some {
        server_name_error(server_name)
    } else if transport_required_error(transport, command, url) is Some {
        transport_required_error(transport, command, url)
    } else if conflict_items(tree, server_name, None).len() > 0 {
        Some(duplicate_message(server_name, conflict_items(tree, server_name, None)))
    } else {
        None
    }
}

/// The checks before `add`: the two official rules plus the transport's required fields.
pub fn validate_new_declaration(
    server_name: &str,
    transport: McpTransport,
    command: Option<&str>,
    url: Option<&str>,
    tree: &[McpRow],
) -> (r: Result<(), PluginError>)
    ensures
        r is Ok <==> new_declaration_error(server_name@, transport, command, url, mcp_rows_view(tree@)) is None,
        r matches Err(e) ==> e.kind == PluginErrorKind::IllegalTransition && new_declaration_error(
            server_name@,
            transport,
            command,
            url,
            mcp_rows_view(tree@),
        ) == Some(e.message@),
{
    validate_server_name(server_name)?;
    validate_transport_required(transport, command, url)?;
    validate_unique_server_name(server_name, tree, None)
}

/// Whether an error is one of the validation rejections.
pub fn is_validation_error(error: &PluginError) -> (b: bool)
    ensures
        b == (error.kind == PluginErrorKind::IllegalTransition),
{
    match error.kind {
        PluginErrorKind::IllegalTransition => true,
        _ => false,
    }
}

} // verus!
