//! MCP entries: the text-carrying model of the managed MCP block.
//!
//! A declaration keeps its `config` subtree as raw text (`config_raw`); the
//! `serverName` / `transport` fields are read-only views parsed from it.
use crate::plugin::managed::{row_id_error, row_id_error_vec};
use crate::text::{chars_string, copy_range, eq_str, opt_view, push_all, push_str, str_chars, trim, trim_vec};
use vstd::prelude::*;

verus! {

/// One declaration of the `- insert:` segment.
#[derive(Debug, Clone, PartialEq, Eq)]
pub struct McpDeclare {
    /// Row id (`mcp-<serverName>` for rows the launcher declares)
    pub row_id: String,
    /// `config.serverName` (read-only view)
    pub server_name: Option<String>,
    /// `config.transport` (read-only view)
    pub transport: Option<McpTransport>,
    /// Raw text of the `config` subtree
    pub config_raw: String,
}

pub struct SpecMcpDeclare {
    pub row_id: Seq<char>,
    pub server_name: Option<Seq<char>>,
    pub transport: Option<McpTransport>,
    pub config_raw: Seq<char>,
}

impl View for McpDeclare {
    type V = SpecMcpDeclare;

    open spec fn view(&self) -> SpecMcpDeclare {
        SpecMcpDeclare {
            row_id: self.row_id@,
            server_name: opt_view(self.server_name),
            transport: self.transport,
            config_raw: self.config_raw@,
        }
    }
}

/// The two legal `transport` values.
#[derive(Debug, Clone, Copy, PartialEq, Eq, Structural)]
pub enum McpTransport {
    Stdio,
    StreamableHttp,
}

pub open spec fn transport_literal(t: McpTransport) -> Seq<char> {
    match t {
        McpTransport::Stdio => "stdio"@,
        McpTransport::StreamableHttp => "streamable-http"@,
    }
}

pub open spec fn spec_transport_parse(value: Seq<char>) -> Option<McpTransport> {
    if value == "stdio"@ {
        Some(McpTransport::Stdio)
    } else if value == "streamable-http"@ {
        Some(McpTransport::StreamableHttp)
    } else {
        None
    }
}

pub fn transport_parse_vec(value: &Vec<char>) -> (r: Option<McpTransport>)
    ensures
        r == spec_transport_parse(value@),
{
    if eq_str(value, "stdio") {
        Some(McpTransport::Stdio)
    } else if eq_str(value, "streamable-http") {
        Some(McpTransport::StreamableHttp)
    } else {
        None
    }
}

impl McpTransport {
    /// The field literal.
    pub fn as_str(&self) -> (s: &'static str)
        ensures
            s@ == transport_literal(*self),
    {
        match self {
            McpTransport::Stdio => "stdio",
            McpTransport::StreamableHttp => "streamable-http",
        }
    }

    /// Parses the field literal.
    pub fn parse(value: &str) -> (r: Option<McpTransport>)
        ensures
            r == spec_transport_parse(value@),
    {
        let v = str_chars(value);
        transport_parse_vec(&v)
    }
}

/// Parsing a transport's literal gives the transport back.
pub proof fn law_transport_parse_roundtrip(t: McpTransport)
    ensures
        spec_transport_parse(transport_literal(t)) == Some(t),
{
    reveal_strlit("stdio");
    reveal_strlit("streamable-http");
    assert("stdio"@.len() != "streamable-http"@.len());
}

/// One directive of the directive segment: `- id:` + `disabled:`.
#[derive(Debug, Clone, PartialEq, Eq)]
pub struct McpDirective {
    /// Target row id
    pub row_id: String,
    /// Desired `disabled` value
    pub disabled: bool,
}

pub struct SpecMcpDirective {
    pub row_id: Seq<char>,
    pub disabled: bool,
}

impl View for McpDirective {
    type V = SpecMcpDirective;

    open spec fn view(&self) -> SpecMcpDirective {
        SpecMcpDirective { row_id: self.row_id@, disabled: self.disabled }
    }
}

/// The managed MCP block: declarations + directives.
#[derive(Debug, Clone, PartialEq, Eq)]
pub struct McpBlock {
    pub declares: Vec<McpDeclare>,
    pub directives: Vec<McpDirective>,
}

pub struct SpecMcpBlock {
    pub declares: Seq<SpecMcpDeclare>,
    pub directives: Seq<SpecMcpDirective>,
}

pub open spec fn declares_view(v: Seq<McpDeclare>) -> Seq<SpecMcpDeclare> {
    Seq::new(v.len(), |i: int| v[i]@)
}

pub open spec fn directives_view(v: Seq<McpDirective>) -> Seq<SpecMcpDirective> {
    Seq::new(v.len(), |i: int| v[i]@)
}

impl View for McpBlock {
    type V = SpecMcpBlock;

    open spec fn view(&self) -> SpecMcpBlock {
        SpecMcpBlock {
            declares: declares_view(self.declares@),
            directives: directives_view(self.directives@),
        }
    }
}

impl Default for McpBlock {
    fn default() -> (b: McpBlock)
        ensures
            b@.declares.len() == 0,
            b@.directives.len() == 0,
    {
        McpBlock { declares: Vec::new(), directives: Vec::new() }
    }
}

/// First index in `ds` whose declaration has `serverName == name`.
pub open spec fn first_by_server_name(ds: Seq<SpecMcpDeclare>, name: Seq<char>, i: int) -> Option<int>
    decreases ds.len() - i,
{
    if i < 0 || i >= ds.len() {
        None
    } else if ds[i].server_name == Some(name) {
        Some(i)
    } else {
        first_by_server_name(ds, name, i + 1)
    }
}

/// First index in `ds` whose declaration has row id `id`.
pub open spec fn first_declare_by_row_id(ds: Seq<SpecMcpDeclare>, id: Seq<char>, i: int) -> Option<int>
    decreases ds.len() - i,
{
    if i < 0 || i >= ds.len() {
        None
    } else if ds[i].row_id == id {
        Some(i)
    } else {
        first_declare_by_row_id(ds, id, i + 1)
    }
}

/// First index in `ds` whose directive has row id `id`.
pub open spec fn first_directive_by_row_id(ds: Seq<SpecMcpDirective>, id: Seq<char>, i: int) -> Option<int>
    decreases ds.len() - i,
{
    if i < 0 || i >= ds.len() {
        None
    } else if ds[i].row_id == id {
        Some(i)
    } else {
        first_directive_by_row_id(ds, id, i + 1)
    }
}

pub fn opt_string_eq_str(o: &Option<String>, lit: &Vec<char>) -> (r: bool)
    ensures
        r == (opt_view(*o) == Some(lit@)),
{
    match o {
        Some(s) => {
            let v = str_chars(s.as_str());
            crate::text::eq_vec(&v, lit)
        },
        None => false,
    }
}

impl McpBlock {
    /// The block has neither declarations nor directives.
    pub fn is_empty(&self) -> (r: bool)
        ensures
            r == (self@.declares.len() == 0 && self@.directives.len() == 0),
    {
        self.declares.len() == 0 && self.directives.len() == 0
    }

    /// The first declaration whose `serverName` is `server_name`.
    pub fn declare_by_server_name(&self, server_name: &str) -> (r: Option<&McpDeclare>)
        ensures
            r is Some ==> first_by_server_name(self@.declares, server_name@, 0) is Some && r->0@ == self@.declares[first_by_server_name(self@.declares, server_name@, 0)->0],
            r is None ==> first_by_server_name(self@.declares, server_name@, 0) is None,
    {
        let name = str_chars(server_name);
        let mut i: usize = 0;
        while i < self.declares.len()
            invariant
                i <= self.declares.len(),
                name@ == server_name@,
                first_by_server_name(self@.declares, name@, 0) == first_by_server_name(
                    self@.declares,
                    name@,
                    i as int,
                ),
            decreases self.declares.len() - i,
        {
            if opt_string_eq_str(&self.declares[i].server_name, &name) {
                assert(self@.declares[i as int] == self.declares@[i as int]@);
                assert(first_by_server_name(self@.declares, name@, i as int) == Some(i as int));
                return Some(&self.declares[i]);
            }
            i = i + 1;
        }
        None
    }

    /// The first declaration with row id `row_id`.
    pub fn declare_by_row_id(&self, row_id: &str) -> (r: Option<&McpDeclare>)
        ensures
            r is Some ==> first_declare_by_row_id(self@.declares, row_id@, 0) is Some && r->0@ == self@.declares[first_declare_by_row_id(self@.declares, row_id@, 0)->0],
            r is None ==> first_declare_by_row_id(self@.declares, row_id@, 0) is None,
    {
        let id = str_chars(row_id);
        let mut i: usize = 0;
        while i < self.declares.len()
            invariant
                i <= self.declares.len(),
                id@ == row_id@,
                first_declare_by_row_id(self@.declares, id@, 0) == first_declare_by_row_id(
                    self@.declares,
                    id@,
                    i as int,
                ),
            decreases self.declares.len() - i,
        {
            let v = str_chars(self.declares[i].row_id.as_str());
            if crate::text::eq_vec(&v, &id) {
                assert(self@.declares[i as int] == self.declares@[i as int]@);
                return Some(&self.declares[i]);
            }
            i = i + 1;
        }
        None
    }

    /// The first directive with row id `row_id`.
    pub fn directive_by_row_id(&self, row_id: &str) -> (r: Option<&McpDirective>)
        ensures
            r is Some ==> first_directive_by_row_id(self@.directives, row_id@, 0) is Some && r->0@ == self@.directives[first_directive_by_row_id(self@.directives, row_id@, 0)->0],
            r is None ==> first_directive_by_row_id(self@.directives, row_id@, 0) is None,
    {
        let id = str_chars(row_id);
        let mut i: usize = 0;
        while i < self.directives.len()
            invariant
                i <= self.directives.len(),
                id@ == row_id@,
                first_directive_by_row_id(self@.directives, id@, 0) == first_directive_by_row_id(
                    self@.directives,
                    id@,
                    i as int,
                ),
            decreases self.directives.len() - i,
        {
            let v = str_chars(self.directives[i].row_id.as_str());
            if crate::text::eq_vec(&v, &id) {
                assert(self@.directives[i as int] == self.directives@[i as int]@);
                return Some(&self.directives[i]);
            }
            i = i + 1;
        }
        None
    }
}

pub open spec fn spec_default_row_id(server_name: Seq<char>) -> Seq<char> {
    "mcp-"@ + server_name
}

/// Row id of a launcher declaration: `mcp-<serverName>`.
pub fn default_row_id(server_name: &str) -> (r: String)
    ensures
        r@ == spec_default_row_id(server_name@),
{
    let mut v = str_chars("mcp-");
    push_str(&mut v, server_name);
    chars_string(v.as_slice())
}

pub open spec fn declare_error(row_id: Seq<char>, config_raw: Seq<char>) -> Option<Seq<char>> {
    if row_id_error(row_id) is Some {
        row_id_error(row_id)
    } else if trim(config_raw).len() == 0 {
        Some("声明 "@ + row_id + " 的 config 子树为空（官方要求 config 必填）"@)
    } else {
        None
    }
}

pub fn declare_error_vec(row_id: &Vec<char>, config_raw: &Vec<char>) -> (r: Option<Vec<char>>)
    ensures
        r matches Some(m) ==> declare_error(row_id@, config_raw@) == Some(m@),
        r is None ==> declare_error(row_id@, config_raw@) is None,
{
    match row_id_error_vec(row_id) {
        Some(m) => return Some(m),
        None => {},
    }
    let t = trim_vec(config_raw);
    if t.len() == 0 {
        let mut m = str_chars("声明 ");
        push_all(&mut m, row_id);
        push_str(&mut m, " 的 config 子树为空（官方要求 config 必填）");
        return Some(m);
    }
    None
}

/// A declaration is safe to write: its row id passes the row-id rules and its
/// `config` subtree is not blank.
pub fn validate_declare(declare: &McpDeclare) -> (r: Result<(), String>)
    ensures
        r is Ok <==> declare_error(declare@.row_id, declare@.config_raw) is None,
        r matches Err(m) ==> declare_error(declare@.row_id, declare@.config_raw) == Some(m@),
{
    let id = str_chars(declare.row_id.as_str());
    let raw = str_chars(declare.config_raw.as_str());
    match declare_error_vec(&id, &raw) {
        None => Ok(()),
        Some(m) => Err(chars_string(m.as_slice())),
    }
}

/// A directive is safe to write: its row id passes the row-id rules.
pub fn validate_directive(directive: &McpDirective) -> (r: Result<(), String>)
    ensures
        r is Ok <==> row_id_error(directive@.row_id) is None,
        r matches Err(m) ==> row_id_error(directive@.row_id) == Some(m@),
{
    crate::plugin::managed::validate_row_id(directive.row_id.as_str())
}

} // verus!
