use hypreact::lsp_requests::{request_kind, unsupported_request_error, LspRequestKind};

#[test]
fn known_methods_route_to_their_handlers() {
    assert_eq!(request_kind("textDocument/hover"), Some(LspRequestKind::Hover));
    assert_eq!(request_kind("shutdown"), Some(LspRequestKind::Shutdown));
    assert_eq!(request_kind("textDocument/codeAction"), Some(LspRequestKind::CodeAction));
    assert_eq!(request_kind("workspace/symbol"), Some(LspRequestKind::WorkspaceSymbol));
}

#[test]
fn unknown_methods_are_not_found() {
    assert_eq!(request_kind("textDocument/formatting"), None);
    let (code, message) = unsupported_request_error("textDocument/formatting");
    assert_eq!(code, -32601);
    assert_eq!(message, "unsupported request: textDocument/formatting");
}
