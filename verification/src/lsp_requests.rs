//! Which handler a language-server request goes to, by its method name,
//! and the answer to a method the server does not handle.
use vstd::prelude::*;

use crate::text::text_eq;

verus! {

/// The requests the stylesheet language server answers.
#[derive(Debug, Clone, Copy, PartialEq, Eq, Structural)]
pub enum LspRequestKind {
    Shutdown,
    Hover,
    Completion,
    DocumentSymbol,
    Definition,
    References,
    Rename,
    CodeAction,
    WorkspaceSymbol,
}

/// The protocol's method name of each request.
pub open spec fn request_method(kind: LspRequestKind) -> Seq<char> {
    match kind {
        LspRequestKind::Shutdown => "shutdown"@,
        LspRequestKind::Hover => "textDocument/hover"@,
        LspRequestKind::Completion => "textDocument/completion"@,
        LspRequestKind::DocumentSymbol => "textDocument/documentSymbol"@,
        LspRequestKind::Definition => "textDocument/definition"@,
        LspRequestKind::References => "textDocument/references"@,
        LspRequestKind::Rename => "textDocument/rename"@,
        LspRequestKind::CodeAction => "textDocument/codeAction"@,
        LspRequestKind::WorkspaceSymbol => "workspace/symbol"@,
    }
}

/// The request a method name asks for, if the server handles it.
pub fn request_kind(method: &str) -> (r: Option<LspRequestKind>)
    ensures
        match r {
            Some(k) => request_method(k) == method@,
            None => forall|k: LspRequestKind| request_method(k) != method@,
        },
{
    if text_eq(method, "shutdown") {
        Some(LspRequestKind::Shutdown)
    } else if text_eq(method, "textDocument/hover") {
        Some(LspRequestKind::Hover)
    } else if text_eq(method, "textDocument/completion") {
        Some(LspRequestKind::Completion)
    } else if text_eq(method, "textDocument/documentSymbol") {
        Some(LspRequestKind::DocumentSymbol)
    } else if text_eq(method, "textDocument/definition") {
        Some(LspRequestKind::Definition)
    } else if text_eq(method, "textDocument/references") {
        Some(LspRequestKind::References)
    } else if text_eq(method, "textDocument/rename") {
        Some(LspRequestKind::Rename)
    } else if text_eq(method, "textDocument/codeAction") {
        Some(LspRequestKind::CodeAction)
    } else if text_eq(method, "workspace/symbol") {
        Some(LspRequestKind::WorkspaceSymbol)
    } else {
        None
    }
}

/// The protocol's error code for a method the server does not know.
pub open spec fn method_not_found_code() -> i32 {
    -32601i32
}

/// The error answer to an unknown method: the method-not-found code and
/// a message naming the method.
pub fn unsupported_request_error(method: &str) -> (r: (i32, String))
    ensures
        r.0 == method_not_found_code(),
        r.1@ == "unsupported request: "@ + method@,
{
    let mut message = "unsupported request: ".to_owned();
    message.append(method);
    (-32601i32, message)
}

} // verus!
