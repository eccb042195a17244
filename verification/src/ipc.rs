//! The JSON-RPC surface by name: the methods that the terminal answers and
//! the errors that it reports.

use vstd::prelude::*;
use vstd::string::*;
use crate::text::str_eq;

verus! {

/// The error member of a JSON-RPC response.
#[derive(Debug, Clone, PartialEq, Eq)]
pub struct JsonRpcError {
    pub code: i64,
    pub message: String,
}

pub const PARSE_ERROR: i64 = -32700;

pub const INVALID_REQUEST: i64 = -32600;

pub const METHOD_NOT_FOUND: i64 = -32601;

pub const INVALID_PARAMS: i64 = -32602;

pub const INTERNAL_ERROR: i64 = -32603;

/// What a request can ask for.
#[derive(Debug, Clone, Copy, PartialEq, Eq, Structural)]
pub enum RpcMethod {
    Ping,
    Capabilities,
    Identify,
    WorkspaceList,
    WorkspaceNew,
    WorkspaceClose,
    WorkspaceSelect,
    PaneList,
    TerminalSend,
    PaneReadScreen,
    NotificationSend,
    NotificationList,
    NotificationClear,
}

/// The method that a name stands for. Each method has its dotted name and an
/// older alias; reading the screen and capturing a pane are one method.
pub open spec fn method_named(name: Seq<char>) -> Option<RpcMethod> {
    if name == "ping"@ || name == "system.ping"@ {
        Some(RpcMethod::Ping)
    } else if name == "capabilities"@ || name == "system.capabilities"@ {
        Some(RpcMethod::Capabilities)
    } else if name == "identify"@ || name == "system.identify"@ {
        Some(RpcMethod::Identify)
    } else if name == "workspace.list"@ || name == "list-workspaces"@ {
        Some(RpcMethod::WorkspaceList)
    } else if name == "workspace.new"@ || name == "new-workspace"@ {
        Some(RpcMethod::WorkspaceNew)
    } else if name == "workspace.close"@ || name == "close-workspace"@ {
        Some(RpcMethod::WorkspaceClose)
    } else if name == "workspace.select"@ || name == "select-workspace"@ {
        Some(RpcMethod::WorkspaceSelect)
    } else if name == "pane.list"@ || name == "list-panes"@ {
        Some(RpcMethod::PaneList)
    } else if name == "terminal.send"@ || name == "send"@ {
        Some(RpcMethod::TerminalSend)
    } else if name == "pane.read_screen"@ || name == "read-screen"@ || name == "pane.capture"@
        || name == "capture-pane"@ {
        Some(RpcMethod::PaneReadScreen)
    } else if name == "notification.send"@ || name == "notify"@ {
        Some(RpcMethod::NotificationSend)
    } else if name == "notification.list"@ || name == "list-notifications"@ {
        Some(RpcMethod::NotificationList)
    } else if name == "notification.clear"@ || name == "clear-notifications"@ {
        Some(RpcMethod::NotificationClear)
    } else {
        None
    }
}

/// Finds the method of a request by its name.
pub fn parse_method(name: &str) -> (m: Option<RpcMethod>)
    ensures
        m == method_named(name@),
{
    if str_eq(name, "ping") || str_eq(name, "system.ping") {
        Some(RpcMethod::Ping)
    } else if str_eq(name, "capabilities") || str_eq(name, "system.capabilities") {
        Some(RpcMethod::Capabilities)
    } else if str_eq(name, "identify") || str_eq(name, "system.identify") {
        Some(RpcMethod::Identify)
    } else if str_eq(name, "workspace.list") || str_eq(name, "list-workspaces") {
        Some(RpcMethod::WorkspaceList)
    } else if str_eq(name, "workspace.new") || str_eq(name, "new-workspace") {
        Some(RpcMethod::WorkspaceNew)
    } else if str_eq(name, "workspace.close") || str_eq(name, "close-workspace") {
        Some(RpcMethod::WorkspaceClose)
    } else if str_eq(name, "workspace.select") || str_eq(name, "select-workspace") {
        Some(RpcMethod::WorkspaceSelect)
    } else if str_eq(name, "pane.list") || str_eq(name, "list-panes") {
        Some(RpcMethod::PaneList)
    } else if str_eq(name, "terminal.send") || str_eq(name, "send") {
        Some(RpcMethod::TerminalSend)
    } else if str_eq(name, "pane.read_screen") || str_eq(name, "read-screen") || str_eq(
        name,
        "pane.capture",
    ) || str_eq(name, "capture-pane") {
        Some(RpcMethod::PaneReadScreen)
    } else if str_eq(name, "notification.send") || str_eq(name, "notify") {
        Some(RpcMethod::NotificationSend)
    } else if str_eq(name, "notification.list") || str_eq(name, "list-notifications") {
        Some(RpcMethod::NotificationList)
    } else if str_eq(name, "notification.clear") || str_eq(name, "clear-notifications") {
        Some(RpcMethod::NotificationClear)
    } else {
        None
    }
}

impl JsonRpcError {
    /// The request was no JSON.
    pub fn parse_error() -> (e: Self)
        ensures
            e.code == PARSE_ERROR,
            e.message@ == "Parse error"@,
    {
        JsonRpcError { code: PARSE_ERROR, message: String::from_str("Parse error") }
    }

    /// The request was no JSON-RPC 2.0 request.
    pub fn invalid_request() -> (e: Self)
        ensures
            e.code == INVALID_REQUEST,
            e.message@ == "Invalid Request"@,
    {
        JsonRpcError { code: INVALID_REQUEST, message: String::from_str("Invalid Request") }
    }

    /// The request names a method that is none.
    pub fn method_not_found(method: &str) -> (e: Self)
        ensures
            e.code == METHOD_NOT_FOUND,
            e.message@ == "Method not found: "@ + method@,
    {
        let mut message = String::from_str("Method not found: ");
        message.append(method);
        JsonRpcError { code: METHOD_NOT_FOUND, message }
    }

    /// The parameters do not fit the method.
    pub fn invalid_params(message: &str) -> (e: Self)
        ensures
            e.code == INVALID_PARAMS,
            e.message@ == message@,
    {
        JsonRpcError { code: INVALID_PARAMS, message: String::from_str(message) }
    }

    /// The terminal failed to carry out the request.
    pub fn internal_error(message: &str) -> (e: Self)
        ensures
            e.code == INTERNAL_ERROR,
            e.message@ == message@,
    {
        JsonRpcError { code: INTERNAL_ERROR, message: String::from_str(message) }
    }
}

/// The error for a request that cannot be dispatched, if it is one: a
/// request of another version than 2.0 is invalid, a name that stands for no
/// method is not found.
pub fn dispatch_error(version: &str, method: &str) -> (e: Option<JsonRpcError>)
    ensures
        version@ != "2.0"@ ==> e is Some && e->Some_0.code == INVALID_REQUEST && e->Some_0.message@
            == "Invalid Request"@,
        version@ == "2.0"@ && method_named(method@) is None ==> e is Some && e->Some_0.code
            == METHOD_NOT_FOUND && e->Some_0.message@ == "Method not found: "@ + method@,
        version@ == "2.0"@ && method_named(method@) is Some ==> e is None,
{
    if !str_eq(version, "2.0") {
        return Some(JsonRpcError::invalid_request());
    }
    match parse_method(method) {
        Some(_) => None,
        None => Some(JsonRpcError::method_not_found(method)),
    }
}

} // verus!
