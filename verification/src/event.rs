//! Events that the agent connection delivers to the application model, as
//! plain values.
use futures::channel::oneshot::Sender;
use vstd::prelude::*;

use crate::text::decimal;

verus! {

/// The user's answer to a permission request.
#[derive(Debug, Clone, Copy, PartialEq, Eq)]
pub enum PermissionResponse {
    /// The option at this index was chosen.
    Selected(usize),
    /// The request was dismissed.
    Cancelled,
}

/// Execution status of a tool call.
#[derive(Debug, Clone, Copy, PartialEq, Eq)]
pub enum ToolCallStatus {
    Pending,
    InProgress,
    Completed,
    Failed,
}

/// The kind of a permission option.
#[derive(Debug, Clone, Copy, PartialEq, Eq)]
pub enum PermissionOptionKind {
    AllowOnce,
    AllowAlways,
    RejectOnce,
    RejectAlways,
}

/// One choice offered by a permission request.
pub struct PermissionOption {
    /// Label shown to the user.
    pub name: String,
    /// What kind of choice this is.
    pub kind: PermissionOptionKind,
}

/// A standard content block of a tool call.
pub enum ContentBlock {
    /// Text.
    Text(String),
    /// Image, audio or resource content, which carries no text to show.
    Other,
}

/// A file modification reported by a tool call.
pub struct Diff {
    /// Path of the file, as displayed.
    pub path: String,
    /// Previous content, absent for a new file.
    pub old_text: Option<String>,
    /// New content.
    pub new_text: String,
}

/// Content produced by a tool call.
pub enum ToolCallContent {
    Content(ContentBlock),
    Diff(Diff),
    /// An embedded terminal, by its identifier.
    Terminal(String),
}

/// A file location touched by a tool call.
pub struct ToolCallLocation {
    /// Path of the file, as displayed.
    pub path: String,
    /// Optional 1-based line number.
    pub line: Option<u32>,
}

/// A tool invocation as first reported.
pub struct ToolCall {
    pub tool_call_id: String,
    pub title: String,
    pub status: ToolCallStatus,
    pub content: Vec<ToolCallContent>,
    pub locations: Vec<ToolCallLocation>,
}

/// Fields of a tool call that an update replaces; absent fields stay as they were.
pub struct ToolCallUpdateFields {
    pub status: Option<ToolCallStatus>,
    pub title: Option<String>,
    pub content: Option<Vec<ToolCallContent>>,
}

/// A change to an earlier tool call.
pub struct ToolCallUpdate {
    pub tool_call_id: String,
    pub fields: ToolCallUpdateFields,
}

/// An event from the agent connection.
pub enum Event {
    /// A chunk of the agent's reply.
    AgentText(String),
    /// A chunk of the agent's reasoning.
    AgentThought(String),
    /// A tool call began.
    ToolCallStarted(ToolCall),
    /// A tool call changed.
    ToolCallUpdated(ToolCallUpdate),
    /// The agent asks for permission; the answer goes back through `respond`.
    PermissionRequest {
        tool_call: ToolCallUpdate,
        options: Vec<PermissionOption>,
        respond: Sender<PermissionResponse>,
    },
    /// A session with the agent began.
    SessionStarted { agent_name: Option<String>, session_id: String },
    /// The connection reported an error.
    Error(String),
}

/// The name by which a status is shown (its variant name).
pub open spec fn status_label(s: ToolCallStatus) -> Seq<char> {
    match s {
        ToolCallStatus::Pending => "Pending"@,
        ToolCallStatus::InProgress => "InProgress"@,
        ToolCallStatus::Completed => "Completed"@,
        ToolCallStatus::Failed => "Failed"@,
    }
}

/// The name by which a status is shown.
pub fn status_text(s: ToolCallStatus) -> (r: String)
    ensures
        r@ == status_label(s),
{
    match s {
        ToolCallStatus::Pending => String::from_str("Pending"),
        ToolCallStatus::InProgress => String::from_str("InProgress"),
        ToolCallStatus::Completed => String::from_str("Completed"),
        ToolCallStatus::Failed => String::from_str("Failed"),
    }
}

/// The name by which an option kind is shown (its variant name).
pub open spec fn option_kind_label(k: PermissionOptionKind) -> Seq<char> {
    match k {
        PermissionOptionKind::AllowOnce => "AllowOnce"@,
        PermissionOptionKind::AllowAlways => "AllowAlways"@,
        PermissionOptionKind::RejectOnce => "RejectOnce"@,
        PermissionOptionKind::RejectAlways => "RejectAlways"@,
    }
}

/// The name by which an option kind is shown.
pub fn option_kind_text(k: PermissionOptionKind) -> (r: String)
    ensures
        r@ == option_kind_label(k),
{
    match k {
        PermissionOptionKind::AllowOnce => String::from_str("AllowOnce"),
        PermissionOptionKind::AllowAlways => String::from_str("AllowAlways"),
        PermissionOptionKind::RejectOnce => String::from_str("RejectOnce"),
        PermissionOptionKind::RejectAlways => String::from_str("RejectAlways"),
    }
}

/// A location as shown: the path, then `:` and the line number when there is one.
pub open spec fn location_label(l: ToolCallLocation) -> Seq<char> {
    match l.line {
        Some(n) => l.path@ + ":"@ + decimal(n as nat),
        None => l.path@,
    }
}

/// The text carried by the content items, concatenated in order.
pub open spec fn content_text(items: Seq<ToolCallContent>) -> Seq<char>
    decreases items.len(),
{
    if items.len() == 0 {
        Seq::<char>::empty()
    } else {
        content_text(items.drop_last()) + match items.last() {
            ToolCallContent::Content(ContentBlock::Text(t)) => t@,
            _ => Seq::<char>::empty(),
        }
    }
}

/// The text output of the content items: `None` when they carry no text.
pub open spec fn text_output(items: Seq<ToolCallContent>) -> Option<Seq<char>> {
    if content_text(items).len() == 0 {
        None
    } else {
        Some(content_text(items))
    }
}

} // verus!
