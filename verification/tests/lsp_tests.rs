use sashiki::lsp::{
    body_length, classify_message, content_hash, content_length_header, document_sync, next_request_id,
    parse_header_line, reply_to_server_request, request_error, should_retry_definition, DocumentSync,
    HeaderProgress, Incoming, LspRequestError, LspServerSpec, OpenedDocs, PendingRequests, ServerReply,
    MAX_MESSAGE_SIZE,
};

#[test]
fn content_modified_code() {
    let e = LspRequestError { code: -32801, message: "busy".to_string() };
    assert!(e.is_content_modified());
    let e = LspRequestError { code: -32601, message: "nope".to_string() };
    assert!(!e.is_content_modified());
}

#[test]
fn request_error_defaults() {
    let e = request_error(None, None);
    assert_eq!(e.code, 0);
    assert_eq!(e.message, "unknown error");
    let e = request_error(Some(-32801), Some("content modified"));
    assert!(e.is_content_modified());
    assert_eq!(e.message, "content modified");
}

#[test]
fn definition_retries_only_modified_content() {
    assert!(should_retry_definition(0, true));
    assert!(should_retry_definition(4, true));
    assert!(!should_retry_definition(5, true));
    assert!(!should_retry_definition(0, false));
}

#[test]
fn request_ids_stop_at_overflow() {
    assert_eq!(next_request_id(1), Some(2));
    assert_eq!(next_request_id(u64::MAX), None);
}

#[test]
fn replies_to_server_requests() {
    assert_eq!(reply_to_server_request("workspace/configuration"), ServerReply::EmptyConfiguration);
    assert_eq!(reply_to_server_request("client/registerCapability"), ServerReply::NullResult);
    assert_eq!(reply_to_server_request("window/workDoneProgress/create"), ServerReply::NullResult);
    assert_eq!(reply_to_server_request("workspace/applyEdit"), ServerReply::MethodNotFound);
}

#[test]
fn classifies_messages() {
    assert_eq!(classify_message(true, true, Some(3)), Incoming::ServerRequest);
    assert_eq!(classify_message(true, false, None), Incoming::ServerNotification);
    assert_eq!(classify_message(false, true, Some(7)), Incoming::Response(7));
    assert_eq!(classify_message(false, true, None), Incoming::Unroutable);
}

#[test]
fn header_lines() {
    assert_eq!(content_length_header(42), "Content-Length: 42\r\n\r\n");
    assert_eq!(parse_header_line(None, "Content-Length: 42\r\n"), Ok(HeaderProgress::More(Some(42))));
    assert_eq!(parse_header_line(None, "content-length:7\n"), Ok(HeaderProgress::More(Some(7))));
    assert_eq!(
        parse_header_line(Some(3), "Content-Type: application/vscode-jsonrpc\r\n"),
        Ok(HeaderProgress::More(Some(3)))
    );
    assert_eq!(parse_header_line(Some(3), "garbage\r\n"), Ok(HeaderProgress::More(Some(3))));
    assert_eq!(parse_header_line(Some(3), "\r\n"), Ok(HeaderProgress::Done));
    assert_eq!(parse_header_line(Some(3), "\n"), Ok(HeaderProgress::Done));
    assert_eq!(
        parse_header_line(None, "Content-Length: abc\r\n"),
        Err("invalid Content-Length header value: abc".to_string())
    );
}

#[test]
fn body_lengths() {
    assert_eq!(body_length(Some(10)), Ok(10));
    assert_eq!(body_length(None), Err("missing Content-Length header".to_string()));
    assert_eq!(body_length(Some(MAX_MESSAGE_SIZE)), Ok(MAX_MESSAGE_SIZE));
    assert_eq!(
        body_length(Some(MAX_MESSAGE_SIZE + 1)),
        Err("LSP message body too large: 16777217 bytes (max 16777216)".to_string())
    );
}

#[test]
fn header_round_trip() {
    let h = content_length_header(1234);
    let (first, rest) = h.split_at(h.find('\n').unwrap() + 1);
    let p = parse_header_line(None, first).unwrap();
    assert_eq!(p, HeaderProgress::More(Some(1234)));
    assert_eq!(parse_header_line(Some(1234), rest), Ok(HeaderProgress::Done));
    assert_eq!(body_length(Some(1234)), Ok(1234));
}

#[test]
fn document_sync_decisions() {
    let h = content_hash("fn main() {}");
    assert_eq!(h, content_hash("fn main() {}"));
    assert_eq!(document_sync(None, h), DocumentSync::Open);
    assert_eq!(document_sync(Some(h), h), DocumentSync::Unchanged);
    assert_eq!(document_sync(Some(h), content_hash("fn main() { }")), DocumentSync::Reopen);
}

#[test]
fn language_id_falls_back() {
    let spec = LspServerSpec { server_id: "ts", command: "tsserver", args: &["--stdio"], language_id: None };
    assert_eq!(spec.language_id_for("typescript"), "typescript");
    let spec = LspServerSpec { language_id: Some("typescriptreact"), ..spec };
    assert_eq!(spec.language_id_for("typescript"), "typescriptreact");
}

fn workspace(root: &str, server: &str) -> sashiki::lsp::WorkspaceId {
    sashiki::lsp::WorkspaceId { root: root.to_string(), server_id: server.to_string() }
}

#[test]
fn opened_documents_are_tracked_per_server() {
    let mut docs = OpenedDocs::new();
    let ra = workspace("/w", "rust-analyzer");
    let other = workspace("/w", "pyright");
    assert_eq!(docs.get(&ra, "file:///w/a.rs"), None);
    assert_eq!(document_sync(docs.get(&ra, "file:///w/a.rs"), 7), DocumentSync::Open);
    docs.insert(ra.clone(), "file:///w/a.rs".to_string(), 7);
    assert_eq!(docs.get(&ra, "file:///w/a.rs"), Some(7));
    assert_eq!(docs.get(&other, "file:///w/a.rs"), None);
    assert_eq!(document_sync(docs.get(&ra, "file:///w/a.rs"), 7), DocumentSync::Unchanged);
    assert_eq!(document_sync(docs.get(&ra, "file:///w/a.rs"), 8), DocumentSync::Reopen);
    docs.insert(ra.clone(), "file:///w/a.rs".to_string(), 8);
    docs.insert(other.clone(), "file:///w/a.rs".to_string(), 1);
    assert_eq!(docs.get(&ra, "file:///w/a.rs"), Some(8));
    docs.remove(&ra, "file:///w/a.rs");
    assert_eq!(docs.get(&ra, "file:///w/a.rs"), None);
    assert_eq!(docs.get(&other, "file:///w/a.rs"), Some(1));
    docs.clear();
    assert_eq!(docs.get(&other, "file:///w/a.rs"), None);
}

#[test]
fn responses_reach_their_request_once() {
    let mut pending: PendingRequests<&str> = PendingRequests::new();
    pending.register(1, "definition");
    pending.register(2, "hover");
    assert_eq!(pending.take(3), None);
    assert_eq!(pending.take(2), Some("hover"));
    assert_eq!(pending.take(2), None);
    assert_eq!(pending.take(1), Some("definition"));
    pending.register(4, "x");
    pending.clear();
    assert_eq!(pending.take(4), None);
}
