//! Error kinds shared by the plugin, MCP and skill-sharing services, with their exit codes.
use vstd::prelude::*;

verus! {

/// Error classes; each maps to one process exit code.
#[derive(Debug, Clone, Copy, PartialEq, Eq, Structural)]
pub enum PluginErrorKind {
    /// Unexpected failure (exit code 1)
    Internal,
    /// The requested transition is not allowed (exit code 2)
    IllegalTransition,
    /// The target does not exist (exit code 3)
    NotFound,
    /// Another operation is running (exit code 4)
    Busy,
    /// Post-write verification failed (exit code 5)
    ValidationFailed,
    /// A required capability is missing (exit code 6)
    CapabilityMissing,
    /// The managed block is broken or conflicting (exit code 7)
    ManagedBlockConflict,
    /// dsh is not installed (exit code 8)
    DshNotInstalled,
}

pub open spec fn spec_exit_code(kind: PluginErrorKind) -> i32 {
    match kind {
        PluginErrorKind::Internal => 1,
        PluginErrorKind::IllegalTransition => 2,
        PluginErrorKind::NotFound => 3,
        PluginErrorKind::Busy => 4,
        PluginErrorKind::ValidationFailed => 5,
        PluginErrorKind::CapabilityMissing => 6,
        PluginErrorKind::ManagedBlockConflict => 7,
        PluginErrorKind::DshNotInstalled => 8,
    }
}

impl PluginErrorKind {
    pub fn exit_code(&self) -> (code: i32)
        ensures
            code == spec_exit_code(*self),
    {
        match self {
            PluginErrorKind::Internal => 1,
            PluginErrorKind::IllegalTransition => 2,
            PluginErrorKind::NotFound => 3,
            PluginErrorKind::Busy => 4,
            PluginErrorKind::ValidationFailed => 5,
            PluginErrorKind::CapabilityMissing => 6,
            PluginErrorKind::ManagedBlockConflict => 7,
            PluginErrorKind::DshNotInstalled => 8,
        }
    }
}

/// An error with its class and a user-facing message.
#[derive(Debug, Clone)]
pub struct PluginError {
    pub kind: PluginErrorKind,
    pub message: String,
}

impl PluginError {
    pub fn new(kind: PluginErrorKind, message: String) -> (e: PluginError)
        ensures
            e.kind == kind,
            e.message@ == message@,
    {
        PluginError { kind, message }
    }

    pub fn illegal(message: String) -> (e: PluginError)
        ensures
            e.kind == PluginErrorKind::IllegalTransition,
            e.message@ == message@,
    {
        PluginError { kind: PluginErrorKind::IllegalTransition, message }
    }

    pub fn not_found(message: String) -> (e: PluginError)
        ensures
            e.kind == PluginErrorKind::NotFound,
            e.message@ == message@,
    {
        PluginError { kind: PluginErrorKind::NotFound, message }
    }

    pub fn internal(message: String) -> (e: PluginError)
        ensures
            e.kind == PluginErrorKind::Internal,
            e.message@ == message@,
    {
        PluginError { kind: PluginErrorKind::Internal, message }
    }
}

} // verus!
