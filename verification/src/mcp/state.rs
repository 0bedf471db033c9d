//! The MCP state machine: three states, the origin of a declaration, read-only
//! row marks, and which enable / disable / add requests are refused.
use crate::mcp::block::spec_config_scalar;
use crate::mcp::entry::{first_declare_by_row_id, first_directive_by_row_id, McpBlock, McpTransport};
use crate::plugin::dump::{is_expression, opt_disabled_view, DisabledValue, McpRow, SpecDisabled, SpecMcpRow};
use crate::plugin::state::{PluginError, PluginErrorKind};
use crate::text::{chars_string, push_str, str_chars};
use vstd::prelude::*;

verus! {

/// The three states of an MCP server.
#[derive(Debug, Clone, Copy, PartialEq, Eq, Structural)]
pub enum McpState {
    /// The composed tree has no row with this `serverName`
    Missing,
    /// Present, effective `disabled` is not `true`
    Enabled,
    /// Present, effective `disabled` is `true`
    Disabled,
}

pub open spec fn state_literal(s: McpState) -> Seq<char> {
    match s {
        McpState::Missing => "missing"@,
        McpState::Enabled => "enabled"@,
        McpState::Disabled => "disabled"@,
    }
}

impl McpState {
    pub fn as_str(&self) -> (s: &'static str)
        ensures
            s@ == state_literal(*self),
    {
        match self {
            McpState::Missing => "missing",
            McpState::Enabled => "enabled",
            McpState::Disabled => "disabled",
        }
    }
}

/// Where a declaration comes from.
#[derive(Debug, Clone, Copy, PartialEq, Eq, Structural)]
pub enum McpOrigin {
    /// Declared inside the managed MCP block (`remove` really deletes it)
    Managed,
    /// Declared by a bundle, a profile patch, the user part of the home file or `--patch`
    External,
}

/// Read-only row marks.
#[derive(Debug, Clone, Copy, PartialEq, Eq, Structural)]
pub enum McpMark {
    /// `disabled` is a `!!js` expression: the launcher refuses to override it
    Expression,
    /// The `serverName` is declared by another row of the tree too
    Conflict,
    /// `failOnStartupError: true`: a failed first connection aborts the harness start
    Dangerous,
}

/// The transport as shown to the CLI / UI.
#[derive(Debug, Clone, Copy, PartialEq, Eq, Structural)]
pub enum McpTransportView {
    Stdio,
    StreamableHttp,
}

pub open spec fn transport_view(t: McpTransport) -> McpTransportView {
    match t {
        McpTransport::Stdio => McpTransportView::Stdio,
        McpTransport::StreamableHttp => McpTransportView::StreamableHttp,
    }
}

impl From<McpTransport> for McpTransportView {
    fn from(value: McpTransport) -> (r: McpTransportView) {
        match value {
            McpTransport::Stdio => McpTransportView::Stdio,
            McpTransport::StreamableHttp => McpTransportView::StreamableHttp,
        }
    }
}

impl vstd::std_specs::convert::FromSpecImpl<McpTransport> for McpTransportView {
    open spec fn obeys_from_spec() -> bool {
        true
    }

    open spec fn from_spec(value: McpTransport) -> McpTransportView {
        transport_view(value)
    }
}

/// The view of one MCP server (the one shape the CLI, IPC and UI share).
#[derive(Debug, Clone)]
pub struct McpServerView {
    /// The model-facing identity (the management key)
    pub server_name: String,
    /// Row id (`mcp-<serverName>` when the launcher declares it)
    pub row_id: String,
    pub transport: Option<McpTransportView>,
    pub state: McpState,
    pub origin: McpOrigin,
    /// Source layer: the dump segment label
    pub layer: String,
    /// Read-only summary
    pub summary: String,
    /// Effective `disabled`; `None` for a `!!js` expression
    pub disabled: Option<bool>,
    pub marks: Vec<McpMark>,
}

pub open spec fn opt_row_view(row: Option<&McpRow>) -> Option<SpecMcpRow> {
    match row {
        Some(r) => Some(r@),
        None => None,
    }
}

/// The three states from the facts of the composed tree: no row is `missing`,
/// a literal `disabled: true` is `disabled`, anything else (no field, `false`,
/// an expression whose value is unknown) is `enabled`.
pub open spec fn spec_derive_state(row: Option<SpecMcpRow>) -> McpState {
    match row {
        None => McpState::Missing,
        Some(r) => if r.disabled == Some(SpecDisabled::Bool(true)) {
            McpState::Disabled
        } else {
            McpState::Enabled
        },
    }
}

pub fn derive_state(row: Option<&McpRow>) -> (s: McpState)
    ensures
        s == spec_derive_state(opt_row_view(row)),
{
    match row {
        None => McpState::Missing,
        Some(r) => match &r.disabled {
            Some(DisabledValue::Bool(true)) => McpState::Disabled,
            _ => McpState::Enabled,
        },
    }
}

/// Effective `disabled` (an expression, or no row, gives `None`).
pub open spec fn spec_effective_disabled(row: Option<SpecMcpRow>) -> Option<bool> {
    match row {
        Some(r) => match r.disabled {
            Some(SpecDisabled::Bool(v)) => Some(v),
            _ => None,
        },
        None => None,
    }
}

pub fn effective_disabled(row: Option<&McpRow>) -> (d: Option<bool>)
    ensures
        d == spec_effective_disabled(opt_row_view(row)),
{
    match row {
        Some(r) => match &r.disabled {
            Some(DisabledValue::Bool(v)) => Some(*v),
            _ => None,
        },
        None => None,
    }
}

/// `managed` exactly when the row id is declared in the managed block's declaration segment.
pub fn derive_origin(block: &McpBlock, row_id: &str) -> (o: McpOrigin)
    ensures
        o == (if first_declare_by_row_id(block@.declares, row_id@, 0) is Some {
            McpOrigin::Managed
        } else {
            McpOrigin::External
        }),
{
    if block.declare_by_row_id(row_id).is_some() {
        McpOrigin::Managed
    } else {
        McpOrigin::External
    }
}

pub open spec fn is_dangerous(row: SpecMcpRow) -> bool {
    spec_config_scalar(row.config_raw, "failOnStartupError"@) == Some("true"@)
}

/// The marks of a row, in the order expression, conflict, dangerous.
pub open spec fn spec_marks(row: SpecMcpRow, duplicate: bool) -> Seq<McpMark> {
    (if is_expression(row.disabled) {
        seq![McpMark::Expression]
    } else {
        Seq::empty()
    }) + (if duplicate {
        seq![McpMark::Conflict]
    } else {
        Seq::empty()
    }) + (if is_dangerous(row) {
        seq![McpMark::Dangerous]
    } else {
        Seq::empty()
    })
}

/// Read-only row marks (shown only; they do not enter the state machine).
pub fn derive_marks(row: &McpRow, duplicate_of_server_name: bool) -> (marks: Vec<McpMark>)
    ensures
        marks@ == spec_marks(row@, duplicate_of_server_name),
{
    let mut marks: Vec<McpMark> = Vec::new();
    if row.is_expression_controlled() {
        marks.push(McpMark::Expression);
    }
    if duplicate_of_server_name {
        marks.push(McpMark::Conflict);
    }
    if row.fail_on_startup_error_is_literal_true() {
        marks.push(McpMark::Dangerous);
    }
    assert(marks@ =~= spec_marks(row@, duplicate_of_server_name));
    marks
}

/// An enable / disable request.
#[derive(Debug, Clone, Copy, PartialEq, Eq, Structural)]
pub enum McpAction {
    Enable,
    Disable,
}

pub open spec fn action_literal(a: McpAction) -> Seq<char> {
    match a {
        McpAction::Enable => "enable"@,
        McpAction::Disable => "disable"@,
    }
}

impl McpAction {
    /// The `disabled` value the action asks for.
    pub fn desired_disabled(&self) -> (b: bool)
        ensures
            b == (*self == McpAction::Disable),
    {
        match self {
            McpAction::Disable => true,
            McpAction::Enable => false,
        }
    }

    pub fn as_str(&self) -> (s: &'static str)
        ensures
            s@ == action_literal(*self),
    {
        match self {
            McpAction::Enable => "enable",
            McpAction::Disable => "disable",
        }
    }
}

/// Why an enable / disable is refused: no row is `NotFound`, an expression-controlled
/// row is an `IllegalTransition`. A request for the state the row already has is not refused.
pub open spec fn transition_error(server_name: Seq<char>, row: Option<SpecMcpRow>, action: McpAction) -> Option<
    (PluginErrorKind, Seq<char>),
> {
    match row {
        None => Some(
            (
                PluginErrorKind::NotFound,
                "MCP server "@ + server_name + " 不存在（合成树中没有该 serverName 的行），无法 "@ + action_literal(
                    action,
                ),
            ),
        ),
        Some(r) => if is_expression(r.disabled) {
            Some(
                (
                    PluginErrorKind::IllegalTransition,
                    "MCP server "@ + server_name + "（行 "@ + r.row_id + "）的 disabled 由 !!js 表达式控制，启动器拒绝覆盖"@,
                ),
            )
        } else {
            None
        },
    }
}

pub fn validate_transition(server_name: &str, row: Option<&McpRow>, action: McpAction) -> (r: Result<(), PluginError>)
    ensures
        r is Ok <==> transition_error(server_name@, opt_row_view(row), action) is None,
        r matches Err(e) ==> transition_error(server_name@, opt_row_view(row), action) == Some((e.kind, e.message@)),
{
    match row {
        None => {
            let mut m = str_chars("MCP server ");
            push_str(&mut m, server_name);
            push_str(&mut m, " 不存在（合成树中没有该 serverName 的行），无法 ");
            push_str(&mut m, action.as_str());
            Err(PluginError::not_found(chars_string(m.as_slice())))
        },
        Some(r) => {
            if r.is_expression_controlled() {
                let mut m = str_chars("MCP server ");
                push_str(&mut m, server_name);
                push_str(&mut m, "（行 ");
                push_str(&mut m, r.row_id.as_str());
                push_str(&mut m, "）的 disabled 由 !!js 表达式控制，启动器拒绝覆盖");
                Err(PluginError::illegal(chars_string(m.as_slice())))
            } else {
                Ok(())
            }
        },
    }
}

pub open spec fn add_target_error(server_name: Seq<char>, existing: Option<SpecMcpRow>) -> Option<Seq<char>> {
    match existing {
        Some(r) => Some(
            "MCP server "@ + server_name + " 已存在（行 "@ + r.row_id + "，来源层 "@ + r.section_owner
                + "），不能重复添加"@,
        ),
        None => None,
    }
}

/// `add` is refused (`IllegalTransition`) when the tree already has a row with the
/// `serverName`; the message names that row and its layer.
pub fn validate_add_target(server_name: &str, existing: Option<&McpRow>) -> (r: Result<(), PluginError>)
    ensures
        r is Ok <==> existing is None,
        r matches Err(e) ==> e.kind == PluginErrorKind::IllegalTransition && add_target_error(
            server_name@,
            opt_row_view(existing),
        ) == Some(e.message@),
{
    match existing {
        Some(row) => {
            let mut m = str_chars("MCP server ");
            push_str(&mut m, server_name);
            push_str(&mut m, " 已存在（行 ");
            push_str(&mut m, row.row_id.as_str());
            push_str(&mut m, "，来源层 ");
            push_str(&mut m, row.section_owner.as_str());
            push_str(&mut m, "），不能重复添加");
            Err(PluginError::illegal(chars_string(m.as_slice())))
        },
        None => Ok(()),
    }
}

/// Whether the block already directs `row_id` to `desired_disabled` (the request is then a no-op).
pub open spec fn spec_same_directive(block: crate::mcp::entry::SpecMcpBlock, row_id: Seq<char>, desired: bool) -> bool {
    match first_directive_by_row_id(block.directives, row_id, 0) {
        Some(k) => block.directives[k].disabled == desired,
        None => false,
    }
}

pub fn same_directive(block: &McpBlock, row_id: &str, desired_disabled: bool) -> (b: bool)
    ensures
        b == spec_same_directive(block@, row_id@, desired_disabled),
{
    match block.directive_by_row_id(row_id) {
        Some(d) => d.disabled == desired_disabled,
        None => false,
    }
}

/// A `ManagedBlockConflict` error.
pub fn conflict(message: String) -> (e: PluginError)
    ensures
        e.kind == PluginErrorKind::ManagedBlockConflict,
        e.message@ == message@,
{
    PluginError::new(PluginErrorKind::ManagedBlockConflict, message)
}

} // verus!
