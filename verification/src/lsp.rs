//! The language-server protocol's framing and the client's decisions about
//! what it receives: header lines, body sizes, replies to the server's own
//! requests, error responses, and retries of definition requests.

use vstd::prelude::*;
use crate::text::{
    chars_of, decimal, parse_usize, parse_usize_spec, push_chars, string_from_chars, trim, trim_chars,
    usize_to_chars, is_digit, digits_value, parse_digits_spec, digit_char, is_ws, trim_start, trim_end,
};

verus! {

/// The largest message body accepted (16 MiB).
pub const MAX_MESSAGE_SIZE: usize = 16777216;

/// JSON-RPC error code of a request whose content changed (the server is
/// still indexing).
pub const CONTENT_MODIFIED: i64 = -32801;

/// JSON-RPC error code of an unknown method.
pub const METHOD_NOT_FOUND: i64 = -32601;

/// How many times a definition request is retried after `ContentModified`.
pub const MAX_DEFINITION_RETRIES: u32 = 5;

/// An error response of the server: its code and message.
#[derive(Debug, Clone)]
pub struct LspRequestError {
    pub code: i64,
    pub message: String,
}

impl LspRequestError {
    /// Whether the server reported that the content was modified.
    pub fn is_content_modified(&self) -> (r: bool)
        ensures
            r == (self.code == CONTENT_MODIFIED),
    {
        self.code == CONTENT_MODIFIED
    }
}

/// The error of an error response, from its `code` and `message` fields when
/// present: code 0 and "unknown error" stand in for missing ones.
pub fn request_error(code: Option<i64>, message: Option<&str>) -> (e: LspRequestError)
    ensures
        e.code == match code {
            Some(c) => c,
            None => 0,
        },
        e.message@ == match message {
            Some(m) => m@,
            None => "unknown error"@,
        },
{
    let code = match code {
        Some(c) => c,
        None => 0,
    };
    let message = match message {
        Some(m) => m.to_owned(),
        None => "unknown error".to_owned(),
    };
    LspRequestError { code, message }
}

/// Whether a definition request that failed on attempt `attempt` (counting
/// from 0) is tried again: only when the server reported modified content,
/// and at most `MAX_DEFINITION_RETRIES` times.
pub fn should_retry_definition(attempt: u32, content_modified: bool) -> (r: bool)
    ensures
        r == (content_modified && attempt < MAX_DEFINITION_RETRIES),
{
    content_modified && attempt < MAX_DEFINITION_RETRIES
}

/// The id of the request after `id`, unless it would overflow.
pub fn next_request_id(id: u64) -> (r: Option<u64>)
    ensures
        id < u64::MAX ==> r == Some((id + 1) as u64),
        id == u64::MAX ==> r is None,
{
    id.checked_add(1)
}

/// How the client answers a request the server sends it.
#[derive(Debug, Clone, Copy, PartialEq, Eq, Structural)]
pub enum ServerReply {
    /// `[{}]`: an empty configuration for each item asked for.
    EmptyConfiguration,
    /// `null`: accepted.
    NullResult,
    /// A "Method not found" error (`METHOD_NOT_FOUND`).
    MethodNotFound,
}

/// The reply to a server request for `method`.
pub open spec fn reply_for(method: Seq<char>) -> ServerReply {
    if method == "workspace/configuration"@ {
        ServerReply::EmptyConfiguration
    } else if method == "window/workDoneProgress/create"@ || method == "client/registerCapability"@ {
        ServerReply::NullResult
    } else {
        ServerReply::MethodNotFound
    }
}

/// The reply to a server request for `method`.
pub fn reply_to_server_request(method: &str) -> (r: ServerReply)
    ensures
        r == reply_for(method@),
{
    let m = chars_of(method);
    if crate::text::chars_eq(&m, &chars_of("workspace/configuration")) {
        ServerReply::EmptyConfiguration
    } else if crate::text::chars_eq(&m, &chars_of("window/workDoneProgress/create"))
        || crate::text::chars_eq(&m, &chars_of("client/registerCapability")) {
        ServerReply::NullResult
    } else {
        ServerReply::MethodNotFound
    }
}

/// What an incoming message is.
#[derive(Debug, Clone, Copy, PartialEq, Eq, Structural)]
pub enum Incoming {
    /// A request of the server: it gets a reply.
    ServerRequest,
    /// A notification of the server: it is dropped.
    ServerNotification,
    /// The response to the client's request with this id.
    Response(u64),
    /// Anything else: dropped.
    Unroutable,
}

/// Classifies a message by whether it names a method, whether it has an id,
/// and that id when it is an unsigned integer.
pub fn classify_message(has_method: bool, has_id: bool, id: Option<u64>) -> (r: Incoming)
    ensures
        has_method && has_id ==> r == Incoming::ServerRequest,
        has_method && !has_id ==> r == Incoming::ServerNotification,
        !has_method ==> r == match id {
            Some(n) => Incoming::Response(n),
            None => Incoming::Unroutable,
        },
{
    if has_method {
        if has_id {
            Incoming::ServerRequest
        } else {
            Incoming::ServerNotification
        }
    } else {
        match id {
            Some(n) => Incoming::Response(n),
            None => Incoming::Unroutable,
        }
    }
}

/// A language server instance: the worktree it serves and which server.
#[derive(Debug, Clone, PartialEq, Eq, Hash)]
pub struct WorkspaceId {
    pub root: String,
    pub server_id: String,
}

/// How to start the language server of a language.
#[derive(Debug, Clone, Copy)]
pub struct LspServerSpec {
    pub server_id: &'static str,
    pub command: &'static str,
    pub args: &'static [&'static str],
    /// The `languageId` sent when a document is opened; the language's own
    /// id when `None`.
    pub language_id: Option<&'static str>,
}

impl LspServerSpec {
    /// The `languageId` to send for a document of the language `config_id`.
    pub fn language_id_for(&self, config_id: &'static str) -> (id: &'static str)
        ensures
            id@ == match self.language_id {
                Some(l) => l@,
                None => config_id@,
            },
    {
        match self.language_id {
            Some(l) => l,
            None => config_id,
        }
    }
}

/// The hash of a document's text under the standard library's default
/// hasher (fixed keys, so the same text hashes the same in every run of a
/// build).
pub uninterp spec fn default_hash(text: Seq<char>) -> u64;

/// Hashes `text` with `std::hash::DefaultHasher`.
#[verifier::external_body]
fn default_hasher_hash(text: &str) -> (h: u64)
    ensures
        h == default_hash(text@),
{
    let mut hasher = std::hash::DefaultHasher::new();
    std::hash::Hash::hash(text, &mut hasher);
    std::hash::Hasher::finish(&hasher)
}

/// The hash that tells whether an opened document changed.
pub fn content_hash(text: &str) -> (h: u64)
    ensures
        h == default_hash(text@),
{
    default_hasher_hash(text)
}

/// What keeping a document in step with the server takes.
#[derive(Debug, Clone, Copy, PartialEq, Eq, Structural)]
pub enum DocumentSync {
    /// The server has this content already: nothing is sent.
    Unchanged,
    /// The server has older content: close the document, then open it again.
    Reopen,
    /// The server does not have the document: open it.
    Open,
}

/// What to send for a document whose last sent content hashed to
/// `existing` (none if it was never opened) and whose content now hashes to
/// `new_hash`.
pub open spec fn sync_of(existing: Option<u64>, new_hash: u64) -> DocumentSync {
    match existing {
        Some(h) => if h == new_hash { DocumentSync::Unchanged } else { DocumentSync::Reopen },
        None => DocumentSync::Open,
    }
}

/// What to send for a document whose last sent content hashed to
/// `existing` (none if it was never opened) and whose content now hashes to
/// `new_hash`.
pub fn document_sync(existing: Option<u64>, new_hash: u64) -> (r: DocumentSync)
    ensures
        r == sync_of(existing, new_hash),
{
    match existing {
        Some(h) => {
            if h == new_hash {
                DocumentSync::Unchanged
            } else {
                DocumentSync::Reopen
            }
        },
        None => DocumentSync::Open,
    }
}

/// Which document on which server: the workspace root, the server's id and
/// the document's URL.
pub type DocKey = (Seq<char>, Seq<char>, Seq<char>);

/// The key of a tracked document.
pub open spec fn doc_key(e: (WorkspaceId, String, u64)) -> DocKey {
    (e.0.root@, e.0.server_id@, e.1@)
}

/// The hashes the entries record, a later entry for a document replacing
/// an earlier one.
pub open spec fn entries_map(s: Seq<(WorkspaceId, String, u64)>) -> Map<DocKey, u64>
    decreases s.len(),
{
    if s.len() == 0 {
        Map::empty()
    } else {
        entries_map(s.drop_last()).insert(doc_key(s.last()), s.last().2)
    }
}

/// The documents opened on each server, with the hash of the content last
/// sent for each.
pub struct OpenedDocs {
    entries: Vec<(WorkspaceId, String, u64)>,
}

impl View for OpenedDocs {
    type V = Map<DocKey, u64>;

    closed spec fn view(&self) -> Map<DocKey, u64> {
        entries_map(self.entries@)
    }
}

/// Whether two strings have the same characters.
fn same_text(a: &str, b: &str) -> (r: bool)
    ensures
        r == (a@ == b@),
{
    crate::text::chars_eq(&chars_of(a), &chars_of(b))
}

/// Whether an entry is for the document `k`.
fn entry_is(e: &(WorkspaceId, String, u64), id: &WorkspaceId, uri: &str) -> (r: bool)
    ensures
        r == (doc_key(*e) == (id.root@, id.server_id@, uri@)),
{
    same_text(e.0.root.as_str(), id.root.as_str()) && same_text(e.0.server_id.as_str(), id.server_id.as_str())
        && same_text(e.1.as_str(), uri)
}

/// The entries without those for `k`.
pub open spec fn without_key(s: Seq<(WorkspaceId, String, u64)>, k: DocKey) -> Seq<(WorkspaceId, String, u64)>
    decreases s.len(),
{
    if s.len() == 0 {
        s
    } else if doc_key(s.last()) == k {
        without_key(s.drop_last(), k)
    } else {
        without_key(s.drop_last(), k).push(s.last())
    }
}

/// Dropping the entries for `k` drops `k` from the map.
proof fn lemma_without_key(s: Seq<(WorkspaceId, String, u64)>, k: DocKey)
    ensures
        entries_map(without_key(s, k)) == entries_map(s).remove(k),
    decreases s.len(),
{
    if s.len() == 0 {
        assert(entries_map(s).remove(k) =~= Map::empty());
    } else {
        lemma_without_key(s.drop_last(), k);
        let w = without_key(s.drop_last(), k);
        if doc_key(s.last()) == k {
            assert(entries_map(s).remove(k) =~= entries_map(s.drop_last()).remove(k));
        } else {
            assert(w.push(s.last()).drop_last() =~= w);
            assert(entries_map(s).remove(k) =~= entries_map(s.drop_last()).remove(k).insert(doc_key(s.last()), s.last().2));
        }
    }
}

/// The last entry for `k` gives its hash; without one, `k` is not tracked.
proof fn lemma_last_entry(s: Seq<(WorkspaceId, String, u64)>, k: DocKey, n: int)
    requires
        0 <= n <= s.len(),
        forall|j: int| n <= j < s.len() ==> doc_key(#[trigger] s[j]) != k,
    ensures
        n > 0 && doc_key(s[n - 1]) == k ==> entries_map(s).contains_key(k) && entries_map(s)[k] == s[n - 1].2,
        entries_map(s).contains_key(k) == entries_map(s.take(n)).contains_key(k),
        entries_map(s).contains_key(k) ==> entries_map(s)[k] == entries_map(s.take(n))[k],
    decreases s.len() - n,
{
    if n < s.len() {
        let t = s.drop_last();
        assert forall|j: int| n <= j < t.len() implies doc_key(#[trigger] t[j]) != k by {
            assert(t[j] == s[j]);
        }
        lemma_last_entry(t, k, n);
        assert(t.take(n) =~= s.take(n));
        if n > 0 {
            assert(t[n - 1] == s[n - 1]);
        }
        assert(doc_key(s[s.len() - 1]) != k);
    } else {
        assert(s.take(n) =~= s);
        if n > 0 && doc_key(s[n - 1]) == k {
            assert(s.last() == s[n - 1]);
        }
    }
}

/// The hash recorded for `k`, if any.
pub open spec fn recorded(m: Map<DocKey, u64>, k: DocKey) -> Option<u64> {
    if m.contains_key(k) { Some(m[k]) } else { None }
}

/// Once the hash of a document's content is recorded, syncing the same
/// content again sends nothing, while other content reopens the document;
/// a forgotten document is opened afresh.
pub proof fn lemma_sync_after_record(m: Map<DocKey, u64>, k: DocKey, h: u64, other: u64)
    requires
        other != h,
    ensures
        sync_of(recorded(m.insert(k, h), k), h) == DocumentSync::Unchanged,
        sync_of(recorded(m.insert(k, h), k), other) == DocumentSync::Reopen,
        sync_of(recorded(m.remove(k), k), h) == DocumentSync::Open,
{
}

impl OpenedDocs {
    /// No document is tracked.
    pub fn new() -> (r: Self)
        ensures
            r@ == Map::<DocKey, u64>::empty(),
    {
        OpenedDocs { entries: Vec::new() }
    }

    /// The hash of the content last sent for a document, if it is open.
    pub fn get(&self, id: &WorkspaceId, uri: &str) -> (r: Option<u64>)
        ensures
            r == recorded(self@, (id.root@, id.server_id@, uri@)),
    {
        let ghost k = (id.root@, id.server_id@, uri@);
        let ghost s = self.entries@;
        let mut n = self.entries.len();
        while n > 0
            invariant
                n <= s.len(),
                s == self.entries@,
                k == (id.root@, id.server_id@, uri@),
                forall|j: int| n <= j < s.len() ==> doc_key(#[trigger] s[j]) != k,
            decreases n,
        {
            if entry_is(&self.entries[n - 1], id, uri) {
                proof {
                    lemma_last_entry(s, k, n as int);
                }
                return Some(self.entries[n - 1].2);
            }
            n -= 1;
        }
        proof {
            lemma_last_entry(s, k, 0);
            assert(s.take(0) =~= Seq::<(WorkspaceId, String, u64)>::empty());
        }
        None
    }

    /// Forgets a document.
    pub fn remove(&mut self, id: &WorkspaceId, uri: &str)
        ensures
            final(self)@ == old(self)@.remove((id.root@, id.server_id@, uri@)),
    {
        let ghost k = (id.root@, id.server_id@, uri@);
        let ghost s = self.entries@;
        let mut i: usize = 0;
        let ghost mut j: int = 0;
        assert(s.take(0) =~= Seq::<(WorkspaceId, String, u64)>::empty());
        assert(without_key(s.take(0), k) + s.skip(0) =~= s);
        while i < self.entries.len()
            invariant
                0 <= j <= s.len(),
                k == (id.root@, id.server_id@, uri@),
                self.entries@ == without_key(s.take(j), k) + s.skip(j),
                i == without_key(s.take(j), k).len(),
            decreases s.len() - j,
        {
            let ghost w = without_key(s.take(j), k);
            assert(s.take(j + 1).drop_last() =~= s.take(j));
            assert(s.take(j + 1).last() == s[j]);
            assert(self.entries@[i as int] == s[j]);
            if entry_is(&self.entries[i], id, uri) {
                self.entries.remove(i);
                proof {
                    j = j + 1;
                }
                assert(self.entries@ =~= without_key(s.take(j), k) + s.skip(j));
            } else {
                i += 1;
                proof {
                    j = j + 1;
                }
                assert(self.entries@ =~= without_key(s.take(j), k) + s.skip(j));
            }
        }
        assert(j == s.len()) by {
            if j < s.len() {
                assert(self.entries@.len() > i);
            }
        }
        assert(s.take(j) =~= s);
        assert(self.entries@ =~= without_key(s, k));
        proof {
            lemma_without_key(s, k);
        }
    }

    /// Records the hash of the content sent for a document.
    pub fn insert(&mut self, id: WorkspaceId, uri: String, hash: u64)
        ensures
            final(self)@ == old(self)@.insert((id.root@, id.server_id@, uri@), hash),
    {
        self.remove(&id, uri.as_str());
        let ghost before = self.entries@;
        self.entries.push((id, uri, hash));
        assert(self.entries@.drop_last() =~= before);
        assert(self@ =~= old(self)@.remove((id.root@, id.server_id@, uri@)).insert((id.root@, id.server_id@, uri@), hash));
    }

    /// Forgets every document.
    pub fn clear(&mut self)
        ensures
            final(self)@ == Map::<DocKey, u64>::empty(),
    {
        self.entries = Vec::new();
    }
}

/// The requests sent and not yet answered, by id, each with what waits for
/// its response.
pub struct PendingRequests<T> {
    waiting: std::collections::HashMap<u64, T>,
}

impl<T> View for PendingRequests<T> {
    type V = Map<u64, T>;

    closed spec fn view(&self) -> Map<u64, T> {
        self.waiting@
    }
}

impl<T> PendingRequests<T> {
    /// No request is waiting.
    pub fn new() -> (r: Self)
        ensures
            r@ == Map::<u64, T>::empty(),
    {
        PendingRequests { waiting: std::collections::HashMap::new() }
    }

    /// Records that request `id` waits for its response.
    pub fn register(&mut self, id: u64, waiter: T)
        ensures
            final(self)@ == old(self)@.insert(id, waiter),
    {
        broadcast use vstd::std_specs::hash::group_hash_axioms;
        self.waiting.insert(id, waiter);
    }

    /// Takes what waits for the response with id `id`, if a request with
    /// that id is waiting; it waits no longer.
    pub fn take(&mut self, id: u64) -> (r: Option<T>)
        ensures
            final(self)@ == old(self)@.remove(id),
            r == (if old(self)@.contains_key(id) { Some(old(self)@[id]) } else { None }),
    {
        broadcast use vstd::std_specs::hash::group_hash_axioms;
        self.waiting.remove(&id)
    }

    /// Forgets every waiting request.
    pub fn clear(&mut self)
        ensures
            final(self)@ == Map::<u64, T>::empty(),
    {
        self.waiting.clear();
    }
}

/// A response is handed to the request that sent its id, and only once:
/// taking the same id again finds nothing, and other requests still wait.
pub proof fn lemma_response_delivered_once<T>(m: Map<u64, T>, id: u64, waiter: T, other: u64)
    requires
        other != id,
    ensures
        m.insert(id, waiter).contains_key(id) && m.insert(id, waiter)[id] == waiter,
        !m.insert(id, waiter).remove(id).contains_key(id),
        m.insert(id, waiter).remove(id).contains_key(other) == m.contains_key(other),
{
}

/// The `file:` URL of an absolute path, as `url` builds it on this platform.
pub uninterp spec fn file_url(path: Seq<char>) -> Option<Seq<char>>;

/// `Url::from_file_path`: the `file:` URL of an absolute path. Which paths
/// count as absolute depends on the platform (`/` on Unix, a drive or UNC
/// prefix on Windows), so no clause says which paths have none.
#[verifier::external_body]
fn url_from_file_path(path: &str) -> (r: Option<String>)
    ensures
        opt_string_view(r) == file_url(path@),
{
    url::Url::from_file_path(path).ok().map(|u| u.to_string())
}

/// The local path a URL names, as `url` parses and decodes it.
pub uninterp spec fn url_file_path(uri: Seq<char>) -> Option<Seq<char>>;

/// `Url::parse(uri)` then `to_file_path()`: the local path a `file:` URL
/// names, when it parses and names one.
#[verifier::external_body]
fn file_path_from_url(uri: &str) -> (r: Option<String>)
    ensures
        opt_string_view(r) == url_file_path(uri@),
{
    let u = url::Url::parse(uri).ok()?;
    u.to_file_path().ok().map(|p| p.to_string_lossy().into_owned())
}

/// The view of an optional string.
pub open spec fn opt_string_view(o: Option<String>) -> Option<Seq<char>> {
    match o {
        Some(s) => Some(s@),
        None => None,
    }
}

/// The URL a document is known by to the server.
pub fn document_url(path: &str) -> (r: Option<String>)
    ensures
        opt_string_view(r) == file_url(path@),
{
    url_from_file_path(path)
}

/// A place in a document: its URL and (zero-based) line.
#[derive(Debug, Clone)]
pub struct Location {
    pub uri: String,
    pub line: u32,
}

/// A link to a definition: the target's URL and the (zero-based) line of
/// the part to select.
#[derive(Debug, Clone)]
pub struct LocationLink {
    pub target_uri: String,
    pub target_selection_line: u32,
}

/// A server's answer to a definition request.
#[derive(Debug, Clone)]
pub enum DefinitionResponse {
    Scalar(Location),
    Array(Vec<Location>),
    Link(Vec<LocationLink>),
}

/// The location a definition answer points to: the single one, or the first.
pub open spec fn first_location(r: DefinitionResponse) -> Option<(Seq<char>, u32)> {
    match r {
        DefinitionResponse::Scalar(l) => Some((l.uri@, l.line)),
        DefinitionResponse::Array(v) => if v@.len() > 0 { Some((v@[0].uri@, v@[0].line)) } else { None },
        DefinitionResponse::Link(v) => if v@.len() > 0 {
            Some((v@[0].target_uri@, v@[0].target_selection_line))
        } else {
            None
        },
    }
}

/// The location a definition answer points to.
pub fn definition_location(response: &DefinitionResponse) -> (r: Option<(String, u32)>)
    ensures
        match first_location(*response) {
            Some((u, l)) => r is Some && (r->0).0@ == u && (r->0).1 == l,
            None => r is None,
        },
{
    match response {
        DefinitionResponse::Scalar(l) => Some((l.uri.clone(), l.line)),
        DefinitionResponse::Array(v) => if v.len() > 0 { Some((v[0].uri.clone(), v[0].line)) } else { None },
        DefinitionResponse::Link(v) => if v.len() > 0 {
            Some((v[0].target_uri.clone(), v[0].target_selection_line))
        } else {
            None
        },
    }
}

/// Where to open a definition: the file at the URL, relative to the active
/// worktree when it lies in it, and the (one-based) line.
pub open spec fn definition_target_of(uri: Seq<char>, line: u32, worktree: Option<Seq<char>>) -> Option<(Seq<char>, nat)> {
    match url_file_path(uri) {
        None => None,
        Some(p) => Some((
            match worktree {
                Some(w) => match crate::path::strip_prefix_of(p, w) {
                    Some(rel) => rel,
                    None => p,
                },
                None => p,
            },
            (line + 1) as nat,
        )),
    }
}

/// Where to open a definition.
pub fn definition_target(uri: &str, line: u32, worktree: Option<&str>) -> (r: Option<(String, usize)>)
    requires
        line + 1 <= usize::MAX,
    ensures
        match definition_target_of(uri@, line, match worktree { Some(w) => Some(w@), None => None }) {
            Some((p, l)) => r is Some && (r->0).0@ == p && (r->0).1 == l,
            None => r is None,
        },
{
    let path = match file_path_from_url(uri) {
        Some(p) => p,
        None => {
            return None;
        },
    };
    let target_line = (line as usize) + 1;
    let rel = match worktree {
        Some(w) => match crate::path::strip_prefix(&chars_of(path.as_str()), &chars_of(w)) {
            Some(r) => string_from_chars(&r),
            None => path,
        },
        None => path,
    };
    Some((rel, target_line))
}

// ---------------------------------------------------------------------------
// Framing
// ---------------------------------------------------------------------------

/// The header written before a body of `len` bytes.
pub open spec fn header_text(len: nat) -> Seq<char> {
    "Content-Length: "@ + decimal(len) + "\r\n\r\n"@
}

/// The header written before a body of `len` bytes.
pub fn content_length_header(len: usize) -> (h: String)
    ensures
        h@ == header_text(len as nat),
{
    let mut v = chars_of("Content-Length: ");
    push_chars(&mut v, &usize_to_chars(len));
    push_chars(&mut v, &chars_of("\r\n\r\n"));
    string_from_chars(&v)
}

/// The code of a character's ASCII lower case.
pub open spec fn ascii_lower(c: char) -> int {
    if 'A' <= c && c <= 'Z' {
        (c as u32) + 32
    } else {
        c as u32 as int
    }
}

/// `str::eq_ignore_ascii_case`.
pub open spec fn eq_ignore_ascii_case(a: Seq<char>, b: Seq<char>) -> bool {
    a.len() == b.len() && forall|i: int| 0 <= i < a.len() ==> ascii_lower(#[trigger] a[i]) == ascii_lower(b[i])
}

/// The first position of `c` in `s`.
pub open spec fn first_pos(s: Seq<char>, c: char) -> Option<int>
    decreases s.len(),
{
    if s.len() == 0 {
        None
    } else {
        match first_pos(s.drop_last(), c) {
            Some(k) => Some(k),
            None => if s.last() == c { Some(s.len() - 1) } else { None },
        }
    }
}

/// Where the header block stands after a line.
#[derive(Debug, Clone, Copy, PartialEq, Eq, Structural)]
pub enum HeaderProgress {
    /// The blank line: the body follows.
    Done,
    /// More header lines follow; the body length read so far.
    More(Option<usize>),
}

/// The effect of one header line (as read, line break included) on the body
/// length read so far: a blank line ends the headers; a `Content-Length`
/// field (its name in any case, name and value trimmed) sets the length, or
/// is an error when its value is not a number; other lines change nothing.
pub open spec fn header_step(len: Option<usize>, line: Seq<char>) -> Result<HeaderProgress, Seq<char>> {
    if line == "\r\n"@ || line == "\n"@ {
        Ok(HeaderProgress::Done)
    } else {
        match first_pos(line, ':') {
            None => Ok(HeaderProgress::More(len)),
            Some(k) => {
                let name = trim(line.take(k));
                let value = trim(line.skip(k + 1));
                if eq_ignore_ascii_case(name, "Content-Length"@) {
                    match parse_usize_spec(value) {
                        Some(v) => Ok(HeaderProgress::More(Some(v))),
                        None => Err("invalid Content-Length header value: "@ + value),
                    }
                } else {
                    Ok(HeaderProgress::More(len))
                }
            },
        }
    }
}

/// The position of the first `c` is one of `c`.
pub proof fn lemma_first_pos(s: Seq<char>, c: char)
    ensures
        first_pos(s, c) matches Some(k) ==> 0 <= k < s.len() && s[k] == c
            && forall|j: int| 0 <= j < k ==> #[trigger] s[j] != c,
        first_pos(s, c) is None ==> forall|j: int| 0 <= j < s.len() ==> #[trigger] s[j] != c,
    decreases s.len(),
{
    if s.len() > 0 {
        lemma_first_pos(s.drop_last(), c);
        assert forall|j: int| 0 <= j < s.len() - 1 implies s.drop_last()[j] == s[j] by {}
    }
}

/// The position of the first `c` in `s`.
fn find_char(s: &[char], c: char) -> (r: Option<usize>)
    ensures
        match first_pos(s@, c) {
            Some(k) => r is Some && r->0 == k,
            None => r is None,
        },
        r matches Some(k) ==> k < s@.len(),
{
    proof {
        lemma_first_pos(s@, c);
    }
    let mut i: usize = 0;
    while i < s.len()
        invariant
            i <= s@.len(),
            first_pos(s@.take(i as int), c) is None,
        decreases s@.len() - i,
    {
        assert(s@.take(i + 1).drop_last() =~= s@.take(i as int));
        if s[i] == c {
            proof {
                lemma_first_pos_prefix(s@, i as int + 1, c);
            }
            return Some(i);
        }
        i += 1;
    }
    assert(s@.take(i as int) =~= s@);
    None
}

/// The first position found in a prefix is the first in the whole.
proof fn lemma_first_pos_prefix(s: Seq<char>, n: int, c: char)
    requires
        0 <= n <= s.len(),
        first_pos(s.take(n), c) is Some,
    ensures
        first_pos(s, c) == first_pos(s.take(n), c),
    decreases s.len() - n,
{
    if n < s.len() {
        assert(s.take(n + 1).drop_last() =~= s.take(n));
        lemma_first_pos_prefix(s, n + 1, c);
    } else {
        assert(s.take(n) =~= s);
    }
}

/// Whether two character sequences are equal ignoring ASCII case.
pub fn chars_eq_ignore_ascii_case(a: &[char], b: &[char]) -> (r: bool)
    ensures
        r == eq_ignore_ascii_case(a@, b@),
{
    if a.len() != b.len() {
        return false;
    }
    let mut i: usize = 0;
    while i < a.len()
        invariant
            a@.len() == b@.len(),
            i <= a@.len(),
            forall|j: int| 0 <= j < i ==> ascii_lower(#[trigger] a@[j]) == ascii_lower(b@[j]),
        decreases a@.len() - i,
    {
        let x = a[i];
        let y = b[i];
        let lx: u32 = if 'A' <= x && x <= 'Z' { (x as u32) + 32 } else { x as u32 };
        let ly: u32 = if 'A' <= y && y <= 'Z' { (y as u32) + 32 } else { y as u32 };
        if lx != ly {
            return false;
        }
        i += 1;
    }
    true
}

/// The effect of one header line on the body length read so far.
pub fn parse_header_line(content_length: Option<usize>, line: &str) -> (r: Result<HeaderProgress, String>)
    ensures
        match header_step(content_length, line@) {
            Ok(p) => r == Ok::<HeaderProgress, String>(p),
            Err(m) => r is Err && r->Err_0@ == m,
        },
{
    let l = chars_of(line);
    let n = l.len();
    if crate::text::chars_eq(&l, &chars_of("\r\n")) || crate::text::chars_eq(&l, &chars_of("\n")) {
        return Ok(HeaderProgress::Done);
    }
    match find_char(&l, ':') {
        None => Ok(HeaderProgress::More(content_length)),
        Some(k) => {
            let name = trim_chars(&crate::text::slice_chars(&l, 0, k));
            let value = trim_chars(&crate::text::slice_chars(&l, k + 1, n));
            assert(l@.subrange(0, k as int) =~= l@.take(k as int));
            assert(l@.subrange(k + 1, l@.len() as int) =~= l@.skip(k + 1));
            assert(first_pos(line@, ':') == Some(k as int));
            assert(name@ == trim(line@.take(k as int)));
            assert(value@ == trim(line@.skip(k + 1)));
            if chars_eq_ignore_ascii_case(&name, &chars_of("Content-Length")) {
                match parse_usize(&value) {
                    Some(v) => {
                        assert(header_step(content_length, line@) == Ok::<HeaderProgress, Seq<char>>(HeaderProgress::More(Some(v))));
                        Ok(HeaderProgress::More(Some(v)))
                    },
                    None => {
                        let mut m = chars_of("invalid Content-Length header value: ");
                        push_chars(&mut m, &value);
                        Err(string_from_chars(&m))
                    },
                }
            } else {
                assert(header_step(content_length, line@) == Ok::<HeaderProgress, Seq<char>>(HeaderProgress::More(content_length)));
                Ok(HeaderProgress::More(content_length))
            }
        },
    }
}

/// The body length once the headers are read: missing, or above
/// `MAX_MESSAGE_SIZE`, is an error.
pub open spec fn body_length_of(len: Option<usize>) -> Result<usize, Seq<char>> {
    match len {
        None => Err("missing Content-Length header"@),
        Some(n) => if n > MAX_MESSAGE_SIZE {
            Err("LSP message body too large: "@ + decimal(n as nat) + " bytes (max 16777216)"@)
        } else {
            Ok(n)
        },
    }
}

/// The body length once the headers are read.
pub fn body_length(content_length: Option<usize>) -> (r: Result<usize, String>)
    ensures
        match body_length_of(content_length) {
            Ok(n) => r == Ok::<usize, String>(n),
            Err(m) => r is Err && r->Err_0@ == m,
        },
{
    match content_length {
        None => Err("missing Content-Length header".to_owned()),
        Some(n) => {
            if n > MAX_MESSAGE_SIZE {
                let mut m = chars_of("LSP message body too large: ");
                push_chars(&mut m, &usize_to_chars(n));
                push_chars(&mut m, &chars_of(" bytes (max 16777216)"));
                Err(string_from_chars(&m))
            } else {
                Ok(n)
            }
        },
    }
}

/// Whitespace around a text with no whitespace at its ends is trimmed off.
pub proof fn lemma_trim_wrapped(a: Seq<char>, b: Seq<char>, c: Seq<char>)
    requires
        forall|i: int| 0 <= i < a.len() ==> is_ws(#[trigger] a[i]),
        forall|i: int| 0 <= i < c.len() ==> is_ws(#[trigger] c[i]),
        b.len() > 0,
        !is_ws(b[0]),
        !is_ws(b.last()),
    ensures
        trim(a + b + c) == b,
    decreases a.len() + c.len(),
{
    if a.len() > 0 {
        assert((a + b + c).drop_first() =~= a.drop_first() + b + c);
        assert(is_ws((a + b + c)[0]));
        assert forall|i: int| 0 <= i < a.drop_first().len() implies is_ws(#[trigger] a.drop_first()[i]) by {
            assert(a.drop_first()[i] == a[i + 1]);
        }
        lemma_trim_wrapped(a.drop_first(), b, c);
        assert(trim_start(a + b + c) == trim_start(a.drop_first() + b + c));
    } else if c.len() > 0 {
        assert(a + b + c =~= b + c);
        assert((b + c).drop_last() =~= b + c.drop_last());
        assert(trim_start(b + c) == b + c);
        assert(is_ws((b + c).last()));
        assert forall|i: int| 0 <= i < c.drop_last().len() implies is_ws(#[trigger] c.drop_last()[i]) by {
            assert(c.drop_last()[i] == c[i]);
        }
        lemma_trim_wrapped(a, b, c.drop_last());
        assert(a + b + c.drop_last() =~= b + c.drop_last());
        assert(trim_start(b + c.drop_last()) == b + c.drop_last());
    } else {
        assert(a + b + c =~= b);
    }
}

/// The decimal form of a number is all digits, starts with a digit, and
/// has that number as its value.
pub proof fn lemma_decimal_digits(n: nat)
    ensures
        decimal(n).len() > 0,
        forall|i: int| 0 <= i < decimal(n).len() ==> is_digit(#[trigger] decimal(n)[i]),
        digits_value(decimal(n)) == n,
    decreases n,
{
    if n >= 10 {
        lemma_decimal_digits(n / 10);
        let d = decimal(n);
        assert(d.drop_last() == decimal(n / 10));
        assert forall|i: int| 0 <= i < d.len() implies is_digit(#[trigger] d[i]) by {
            if i < d.len() - 1 {
                assert(d[i] == decimal(n / 10)[i]);
            }
        }
        assert((n / 10) * 10 + n % 10 == n) by (nonlinear_arith);
        assert(d.last() == digit_char(n % 10));
        assert((digit_char(n % 10) as u32) == ('0' as u32) + n % 10);
        assert(digits_value(d) == digits_value(decimal(n / 10)) * 10 + n % 10);
        assert(digits_value(d) == n);
    } else {
        assert((digit_char(n) as u32) == ('0' as u32) + n);
        assert(decimal(n).drop_last() =~= Seq::<char>::empty());
        assert(digits_value(Seq::<char>::empty()) == 0);
        assert(digits_value(decimal(n)) == digits_value(decimal(n).drop_last()) * 10 + n);
    }
}

/// A number's decimal form parses back to it.
pub proof fn lemma_parse_decimal(n: usize)
    ensures
        parse_usize_spec(decimal(n as nat)) == Some(n),
{
    lemma_decimal_digits(n as nat);
    assert(is_digit(decimal(n as nat)[0]));
}

/// The header written before a body is read back as that body's length:
/// its first line sets the length, its second ends the headers, and the
/// length is accepted when it is within `MAX_MESSAGE_SIZE`.
pub proof fn lemma_header_round_trip(n: usize)
    ensures
        header_text(n as nat) == ("Content-Length: "@ + decimal(n as nat) + "\r\n"@) + "\r\n"@,
        header_step(None, "Content-Length: "@ + decimal(n as nat) + "\r\n"@)
            == Ok::<HeaderProgress, Seq<char>>(HeaderProgress::More(Some(n))),
        header_step(Some(n), "\r\n"@) == Ok::<HeaderProgress, Seq<char>>(HeaderProgress::Done),
        n <= MAX_MESSAGE_SIZE ==> body_length_of(Some(n)) == Ok::<usize, Seq<char>>(n),
{
    reveal_strlit("Content-Length: ");
    reveal_strlit("Content-Length");
    reveal_strlit("\r\n");
    reveal_strlit("\r\n\r\n");
    reveal_strlit("\n");
    let d = decimal(n as nat);
    lemma_decimal_digits(n as nat);
    let line = "Content-Length: "@ + d + "\r\n"@;
    assert(header_text(n as nat) =~= line + "\r\n"@);
    assert(line.len() > 2);
    assert(line != "\r\n"@);
    assert(line != "\n"@);
    lemma_first_pos(line, ':');
    assert(line[14] == ':');
    assert forall|j: int| 0 <= j < 14 implies #[trigger] line[j] != ':' by {
        assert(line[j] == "Content-Length: "@[j]);
    }
    assert(first_pos(line, ':') == Some(14int));
    assert(line.take(14) =~= "Content-Length"@);
    assert(trim(line.take(14)) == "Content-Length"@) by {
        assert(!is_ws(line.take(14)[0]));
        assert(!is_ws(line.take(14).last()));
        lemma_trim_wrapped(Seq::empty(), line.take(14), Seq::empty());
        assert(Seq::<char>::empty() + line.take(14) + Seq::<char>::empty() =~= line.take(14));
    }
    assert(line.skip(15) =~= seq![' '] + d + "\r\n"@);
    assert(trim(line.skip(15)) == d) by {
        assert(is_digit(d[0]));
        assert(is_digit(d.last()));
        lemma_trim_wrapped(seq![' '], d, "\r\n"@);
    }
    lemma_parse_decimal(n);
}

} // verus!
