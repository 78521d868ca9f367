//! JSON-RPC 2.0 protocol types and the routing of requests to methods.
//!
//! Requests and responses are newline-delimited JSON-RPC 2.0 messages; the
//! request identifiers, parameters and results are JSON values carried through
//! unchanged.
use vstd::prelude::*;
use serde_json::Value;
use crate::text::{concat2, concat3, owned, str_eq};

verus! {

/// A JSON value (`serde_json::Value`).
#[verifier::external_type_specification]
#[verifier::external_body]
pub struct ExJsonValue(Value);

/// A JSON-RPC 2.0 request.
#[derive(Debug)]
pub struct JsonRpcRequest {
    /// JSON-RPC version (must be "2.0").
    pub jsonrpc: String,
    /// Method name to invoke.
    pub method: String,
    /// Request identifier (used to correlate responses).
    pub id: Value,
    /// Optional parameters (object or array).
    pub params: Option<Value>,
}

/// A JSON-RPC 2.0 response.
#[derive(Debug)]
pub struct JsonRpcResponse {
    pub jsonrpc: String,
    pub id: Option<Value>,
    pub result: Option<Value>,
    pub error: Option<JsonRpcError>,
}

/// A JSON-RPC 2.0 error object.
#[derive(Debug)]
pub struct JsonRpcError {
    pub code: i64,
    pub message: String,
    pub data: Option<Value>,
}

/// The message of a parameter that is missing or of the wrong type.
pub open spec fn missing_param_message(name: Seq<char>) -> Seq<char> {
    "Missing or invalid parameter: "@ + name
}

/// The string under `name` in the JSON value `params`: `Some` where `params` is an
/// object whose member `name` is a string.
pub uninterp spec fn json_str_field(params: Value, name: Seq<char>) -> Option<Seq<char>>;

/// The integer under `name` in the JSON value `params`: `Some` where `params` is an
/// object whose member `name` is a number that fits an `i64`.
pub uninterp spec fn json_i64_field(params: Value, name: Seq<char>) -> Option<i64>;

/// `serde_json::Value::get` with a string index followed by `Value::as_str`: the
/// string under `name` when `params` is an object holding one there; it depends on
/// the value and the name alone.
#[verifier::external_body]
fn json_field_str(params: &Value, name: &str) -> (r: Option<String>)
    ensures
        match r {
            Some(s) => json_str_field(*params, name@) == Some(s@),
            None => json_str_field(*params, name@) is None,
        },
{
    params.get(name).and_then(|v| v.as_str()).map(|s| s.to_string())
}

/// `serde_json::Value::get` with a string index followed by `Value::as_i64`: the
/// integer under `name` when `params` is an object holding one that fits an `i64`;
/// it depends on the value and the name alone.
#[verifier::external_body]
fn json_field_i64(params: &Value, name: &str) -> (r: Option<i64>)
    ensures
        r == json_i64_field(*params, name@),
{
    params.get(name).and_then(|v| v.as_i64())
}

/// The outcome of a string parameter lookup: the value found, or the error naming the parameter.
pub fn str_param_result(name: &str, found: Option<String>) -> (r: Result<String, String>)
    ensures
        found is Some ==> r == Ok::<String, String>(found->0),
        found is None ==> (r matches Err(msg) && msg@ == missing_param_message(name@)),
{
    match found {
        Some(v) => Ok(v),
        None => Err(concat2("Missing or invalid parameter: ", name)),
    }
}

/// The outcome of an integer parameter lookup: the value found, or the error naming the parameter.
pub fn i64_param_result(name: &str, found: Option<i64>) -> (r: Result<i64, String>)
    ensures
        found is Some ==> r == Ok::<i64, String>(found->0),
        found is None ==> (r matches Err(msg) && msg@ == missing_param_message(name@)),
{
    match found {
        Some(v) => Ok(v),
        None => Err(concat2("Missing or invalid parameter: ", name)),
    }
}

impl JsonRpcRequest {
    /// Extract a string parameter by name; an error naming it when the request
    /// has no parameters or no string under that name.
    pub fn param_str(&self, name: &str) -> (r: Result<String, String>)
        ensures
            match self.params {
                Some(p) => match json_str_field(p, name@) {
                    Some(v) => r matches Ok(s) && s@ == v,
                    None => r matches Err(msg) && msg@ == missing_param_message(name@),
                },
                None => r matches Err(msg) && msg@ == missing_param_message(name@),
            },
    {
        let found = match &self.params {
            Some(p) => json_field_str(p, name),
            None => None,
        };
        str_param_result(name, found)
    }

    /// Extract an i64 parameter by name; an error naming it when the request has
    /// no parameters or no integer under that name.
    pub fn param_i64(&self, name: &str) -> (r: Result<i64, String>)
        ensures
            match self.params {
                Some(p) => match json_i64_field(p, name@) {
                    Some(v) => r == Ok::<i64, String>(v),
                    None => r matches Err(msg) && msg@ == missing_param_message(name@),
                },
                None => r matches Err(msg) && msg@ == missing_param_message(name@),
            },
    {
        let found = match &self.params {
            Some(p) => json_field_i64(p, name),
            None => None,
        };
        i64_param_result(name, found)
    }

    /// An optional i64 parameter: the integer under `name`, if there is one.
    pub fn optional_i64(&self, name: &str) -> (r: Option<i64>)
        ensures
            r == match self.params {
                Some(p) => json_i64_field(p, name@),
                None => None,
            },
    {
        match &self.params {
            Some(p) => json_field_i64(p, name),
            None => None,
        }
    }
}

impl JsonRpcResponse {
    /// A successful response carrying `result`.
    pub fn success(id: Option<Value>, result: Value) -> (r: Self)
        ensures
            r.jsonrpc@ == "2.0"@,
            r.id == id,
            r.result == Some(result),
            r.error is None,
    {
        JsonRpcResponse { jsonrpc: owned("2.0"), id, result: Some(result), error: None }
    }

    /// An error response carrying `error`.
    pub fn error(id: Option<Value>, error: JsonRpcError) -> (r: Self)
        ensures
            r.jsonrpc@ == "2.0"@,
            r.id == id,
            r.result is None,
            r.error == Some(error),
    {
        JsonRpcResponse { jsonrpc: owned("2.0"), id, result: None, error: Some(error) }
    }
}

impl JsonRpcError {
    /// -32700: Parse error
    pub fn parse_error() -> (e: Self)
        ensures
            e.code == -32700,
            e.message@ == "Parse error"@,
            e.data is None,
    {
        JsonRpcError { code: -32700, message: owned("Parse error"), data: None }
    }

    /// -32600: Invalid request
    pub fn invalid_request() -> (e: Self)
        ensures
            e.code == -32600,
            e.message@ == "Invalid request"@,
            e.data is None,
    {
        JsonRpcError { code: -32600, message: owned("Invalid request"), data: None }
    }

    /// -32601: Method not found
    pub fn method_not_found() -> (e: Self)
        ensures
            e.code == -32601,
            e.message@ == "Method not found"@,
            e.data is None,
    {
        JsonRpcError { code: -32601, message: owned("Method not found"), data: None }
    }

    /// -32603: Internal error
    pub fn internal_error() -> (e: Self)
        ensures
            e.code == -32603,
            e.message@ == "Internal error"@,
            e.data is None,
    {
        JsonRpcError { code: -32603, message: owned("Internal error"), data: None }
    }

    /// The same error with another message.
    pub fn with_message(self, message: String) -> (e: Self)
        ensures
            e.code == self.code,
            e.message == message,
            e.data == self.data,
    {
        JsonRpcError { code: self.code, message, data: self.data }
    }

    /// The same error with data attached.
    pub fn with_data(self, data: Value) -> (e: Self)
        ensures
            e.code == self.code,
            e.message == self.message,
            e.data == Some(data),
    {
        JsonRpcError { code: self.code, message: self.message, data: Some(data) }
    }
}

// ─── Routing ───────────────────────────────────────────────────────

/// The methods the engine serves.
#[derive(Debug, Clone, Copy, PartialEq, Eq, Structural)]
pub enum Method {
    /// `system.ping`
    SystemPing,
    /// `system.status`
    SystemStatus,
    /// `manga.list`
    MangaList,
    /// `manga.get`
    MangaGet,
    /// `manga.create`
    MangaCreate,
    /// `manga.update`
    MangaUpdate,
    /// `manga.delete`
    MangaDelete,
    /// `volume.list`
    VolumeList,
    /// `volume.create`
    VolumeCreate,
    /// `chapter.list`
    ChapterList,
    /// `chapter.create`
    ChapterCreate,
    /// `page.list`
    PageList,
    /// `bookmark.list`
    BookmarkList,
    /// `bookmark.create`
    BookmarkCreate,
    /// `bookmark.delete`
    BookmarkDelete,
    /// `progress.get`
    ProgressGet,
    /// `progress.set`
    ProgressSet,
    /// `category.list`
    CategoryList,
    /// `category.create`
    CategoryCreate,
    /// `category.assign`
    CategoryAssign,
    /// `category.unassign`
    CategoryUnassign,
    /// `archive.extract`
    ArchiveExtract,
    /// `panel.detect`
    PanelDetect,
    /// `search.query`
    SearchQuery,
    /// `cache.clear`
    CacheClear,
}

/// The method a request names, if the engine serves it.
pub open spec fn method_named(name: Seq<char>) -> Option<Method> {
    if name == "system.ping"@ {
        Some(Method::SystemPing)
    } else if name == "system.status"@ {
        Some(Method::SystemStatus)
    } else if name == "manga.list"@ {
        Some(Method::MangaList)
    } else if name == "manga.get"@ {
        Some(Method::MangaGet)
    } else if name == "manga.create"@ {
        Some(Method::MangaCreate)
    } else if name == "manga.update"@ {
        Some(Method::MangaUpdate)
    } else if name == "manga.delete"@ {
        Some(Method::MangaDelete)
    } else if name == "volume.list"@ {
        Some(Method::VolumeList)
    } else if name == "volume.create"@ {
        Some(Method::VolumeCreate)
    } else if name == "chapter.list"@ {
        Some(Method::ChapterList)
    } else if name == "chapter.create"@ {
        Some(Method::ChapterCreate)
    } else if name == "page.list"@ {
        Some(Method::PageList)
    } else if name == "bookmark.list"@ {
        Some(Method::BookmarkList)
    } else if name == "bookmark.create"@ {
        Some(Method::BookmarkCreate)
    } else if name == "bookmark.delete"@ {
        Some(Method::BookmarkDelete)
    } else if name == "progress.get"@ {
        Some(Method::ProgressGet)
    } else if name == "progress.set"@ {
        Some(Method::ProgressSet)
    } else if name == "category.list"@ {
        Some(Method::CategoryList)
    } else if name == "category.create"@ {
        Some(Method::CategoryCreate)
    } else if name == "category.assign"@ {
        Some(Method::CategoryAssign)
    } else if name == "category.unassign"@ {
        Some(Method::CategoryUnassign)
    } else if name == "archive.extract"@ {
        Some(Method::ArchiveExtract)
    } else if name == "panel.detect"@ {
        Some(Method::PanelDetect)
    } else if name == "search.query"@ {
        Some(Method::SearchQuery)
    } else if name == "cache.clear"@ {
        Some(Method::CacheClear)
    } else {
        None
    }
}

/// The name a method is served under.
pub open spec fn method_name(m: Method) -> Seq<char> {
    match m {
        Method::SystemPing => "system.ping"@,
        Method::SystemStatus => "system.status"@,
        Method::MangaList => "manga.list"@,
        Method::MangaGet => "manga.get"@,
        Method::MangaCreate => "manga.create"@,
        Method::MangaUpdate => "manga.update"@,
        Method::MangaDelete => "manga.delete"@,
        Method::VolumeList => "volume.list"@,
        Method::VolumeCreate => "volume.create"@,
        Method::ChapterList => "chapter.list"@,
        Method::ChapterCreate => "chapter.create"@,
        Method::PageList => "page.list"@,
        Method::BookmarkList => "bookmark.list"@,
        Method::BookmarkCreate => "bookmark.create"@,
        Method::BookmarkDelete => "bookmark.delete"@,
        Method::ProgressGet => "progress.get"@,
        Method::ProgressSet => "progress.set"@,
        Method::CategoryList => "category.list"@,
        Method::CategoryCreate => "category.create"@,
        Method::CategoryAssign => "category.assign"@,
        Method::CategoryUnassign => "category.unassign"@,
        Method::ArchiveExtract => "archive.extract"@,
        Method::PanelDetect => "panel.detect"@,
        Method::SearchQuery => "search.query"@,
        Method::CacheClear => "cache.clear"@,
    }
}

/// Each method is served under its own name: a request naming a method is routed
/// to that method.
/// The name `system.ping` is routed to its method.
proof fn lemma_method_named_0()
    ensures
        method_named("system.ping"@) == Some(Method::SystemPing),
{
    reveal_strlit("system.ping");
}

/// The name `system.status` is routed to its method.
proof fn lemma_method_named_1()
    ensures
        method_named("system.status"@) == Some(Method::SystemStatus),
{
    reveal_strlit("system.status");
    reveal_strlit("system.ping");
    assert("system.status"@.len() != "system.ping"@.len());
}

/// The name `manga.list` is routed to its method.
proof fn lemma_method_named_2()
    ensures
        method_named("manga.list"@) == Some(Method::MangaList),
{
    reveal_strlit("manga.list");
    reveal_strlit("system.ping");
    assert("manga.list"@.len() != "system.ping"@.len());
    reveal_strlit("system.status");
    assert("manga.list"@.len() != "system.status"@.len());
}

/// The name `manga.get` is routed to its method.
proof fn lemma_method_named_3()
    ensures
        method_named("manga.get"@) == Some(Method::MangaGet),
{
    reveal_strlit("manga.get");
    reveal_strlit("system.ping");
    assert("manga.get"@.len() != "system.ping"@.len());
    reveal_strlit("system.status");
    assert("manga.get"@.len() != "system.status"@.len());
    reveal_strlit("manga.list");
    assert("manga.get"@.len() != "manga.list"@.len());
}

/// The name `manga.create` is routed to its method.
proof fn lemma_method_named_4()
    ensures
        method_named("manga.create"@) == Some(Method::MangaCreate),
{
    reveal_strlit("manga.create");
    reveal_strlit("system.ping");
    assert("manga.create"@.len() != "system.ping"@.len());
    reveal_strlit("system.status");
    assert("manga.create"@.len() != "system.status"@.len());
    reveal_strlit("manga.list");
    assert("manga.create"@.len() != "manga.list"@.len());
    reveal_strlit("manga.get");
    assert("manga.create"@.len() != "manga.get"@.len());
}

/// The name `manga.update` is routed to its method.
proof fn lemma_method_named_5()
    ensures
        method_named("manga.update"@) == Some(Method::MangaUpdate),
{
    reveal_strlit("manga.update");
    reveal_strlit("system.ping");
    assert("manga.update"@.len() != "system.ping"@.len());
    reveal_strlit("system.status");
    assert("manga.update"@.len() != "system.status"@.len());
    reveal_strlit("manga.list");
    assert("manga.update"@.len() != "manga.list"@.len());
    reveal_strlit("manga.get");
    assert("manga.update"@.len() != "manga.get"@.len());
    reveal_strlit("manga.create");
    assert("manga.update"@[6] != "manga.create"@[6]);
}

/// The name `manga.delete` is routed to its method.
proof fn lemma_method_named_6()
    ensures
        method_named("manga.delete"@) == Some(Method::MangaDelete),
{
    reveal_strlit("manga.delete");
    reveal_strlit("system.ping");
    assert("manga.delete"@.len() != "system.ping"@.len());
    reveal_strlit("system.status");
    assert("manga.delete"@.len() != "system.status"@.len());
    reveal_strlit("manga.list");
    assert("manga.delete"@.len() != "manga.list"@.len());
    reveal_strlit("manga.get");
    assert("manga.delete"@.len() != "manga.get"@.len());
    reveal_strlit("manga.create");
    assert("manga.delete"@[6] != "manga.create"@[6]);
    reveal_strlit("manga.update");
    assert("manga.delete"@[6] != "manga.update"@[6]);
}

/// The name `volume.list` is routed to its method.
proof fn lemma_method_named_7()
    ensures
        method_named("volume.list"@) == Some(Method::VolumeList),
{
    reveal_strlit("volume.list");
    reveal_strlit("system.ping");
    assert("volume.list"@[0] != "system.ping"@[0]);
    reveal_strlit("system.status");
    assert("volume.list"@.len() != "system.status"@.len());
    reveal_strlit("manga.list");
    assert("volume.list"@.len() != "manga.list"@.len());
    reveal_strlit("manga.get");
    assert("volume.list"@.len() != "manga.get"@.len());
    reveal_strlit("manga.create");
    assert("volume.list"@.len() != "manga.create"@.len());
    reveal_strlit("manga.update");
    assert("volume.list"@.len() != "manga.update"@.len());
    reveal_strlit("manga.delete");
    assert("volume.list"@.len() != "manga.delete"@.len());
}

/// The name `volume.create` is routed to its method.
proof fn lemma_method_named_8()
    ensures
        method_named("volume.create"@) == Some(Method::VolumeCreate),
{
    reveal_strlit("volume.create");
    reveal_strlit("system.ping");
    assert("volume.create"@.len() != "system.ping"@.len());
    reveal_strlit("system.status");
    assert("volume.create"@[0] != "system.status"@[0]);
    reveal_strlit("manga.list");
    assert("volume.create"@.len() != "manga.list"@.len());
    reveal_strlit("manga.get");
    assert("volume.create"@.len() != "manga.get"@.len());
    reveal_strlit("manga.create");
    assert("volume.create"@.len() != "manga.create"@.len());
    reveal_strlit("manga.update");
    assert("volume.create"@.len() != "manga.update"@.len());
    reveal_strlit("manga.delete");
    assert("volume.create"@.len() != "manga.delete"@.len());
    reveal_strlit("volume.list");
    assert("volume.create"@.len() != "volume.list"@.len());
}

/// The name `chapter.list` is routed to its method.
proof fn lemma_method_named_9()
    ensures
        method_named("chapter.list"@) == Some(Method::ChapterList),
{
    reveal_strlit("chapter.list");
    reveal_strlit("system.ping");
    assert("chapter.list"@.len() != "system.ping"@.len());
    reveal_strlit("system.status");
    assert("chapter.list"@.len() != "system.status"@.len());
    reveal_strlit("manga.list");
    assert("chapter.list"@.len() != "manga.list"@.len());
    reveal_strlit("manga.get");
    assert("chapter.list"@.len() != "manga.get"@.len());
    reveal_strlit("manga.create");
    assert("chapter.list"@[0] != "manga.create"@[0]);
    reveal_strlit("manga.update");
    assert("chapter.list"@[0] != "manga.update"@[0]);
    reveal_strlit("manga.delete");
    assert("chapter.list"@[0] != "manga.delete"@[0]);
    reveal_strlit("volume.list");
    assert("chapter.list"@.len() != "volume.list"@.len());
    reveal_strlit("volume.create");
    assert("chapter.list"@.len() != "volume.create"@.len());
}

/// The name `chapter.create` is routed to its method.
proof fn lemma_method_named_10()
    ensures
        method_named("chapter.create"@) == Some(Method::ChapterCreate),
{
    reveal_strlit("chapter.create");
    reveal_strlit("system.ping");
    assert("chapter.create"@.len() != "system.ping"@.len());
    reveal_strlit("system.status");
    assert("chapter.create"@.len() != "system.status"@.len());
    reveal_strlit("manga.list");
    assert("chapter.create"@.len() != "manga.list"@.len());
    reveal_strlit("manga.get");
    assert("chapter.create"@.len() != "manga.get"@.len());
    reveal_strlit("manga.create");
    assert("chapter.create"@.len() != "manga.create"@.len());
    reveal_strlit("manga.update");
    assert("chapter.create"@.len() != "manga.update"@.len());
    reveal_strlit("manga.delete");
    assert("chapter.create"@.len() != "manga.delete"@.len());
    reveal_strlit("volume.list");
    assert("chapter.create"@.len() != "volume.list"@.len());
    reveal_strlit("volume.create");
    assert("chapter.create"@.len() != "volume.create"@.len());
    reveal_strlit("chapter.list");
    assert("chapter.create"@.len() != "chapter.list"@.len());
}

/// The name `page.list` is routed to its method.
proof fn lemma_method_named_11()
    ensures
        method_named("page.list"@) == Some(Method::PageList),
{
    reveal_strlit("page.list");
    reveal_strlit("system.ping");
    assert("page.list"@.len() != "system.ping"@.len());
    reveal_strlit("system.status");
    assert("page.list"@.len() != "system.status"@.len());
    reveal_strlit("manga.list");
    assert("page.list"@.len() != "manga.list"@.len());
    reveal_strlit("manga.get");
    assert("page.list"@[0] != "manga.get"@[0]);
    reveal_strlit("manga.create");
    assert("page.list"@.len() != "manga.create"@.len());
    reveal_strlit("manga.update");
    assert("page.list"@.len() != "manga.update"@.len());
    reveal_strlit("manga.delete");
    assert("page.list"@.len() != "manga.delete"@.len());
    reveal_strlit("volume.list");
    assert("page.list"@.len() != "volume.list"@.len());
    reveal_strlit("volume.create");
    assert("page.list"@.len() != "volume.create"@.len());
    reveal_strlit("chapter.list");
    assert("page.list"@.len() != "chapter.list"@.len());
    reveal_strlit("chapter.create");
    assert("page.list"@.len() != "chapter.create"@.len());
}

/// The name `bookmark.list` is routed to its method.
proof fn lemma_method_named_12()
    ensures
        method_named("bookmark.list"@) == Some(Method::BookmarkList),
{
    reveal_strlit("bookmark.list");
    reveal_strlit("system.ping");
    assert("bookmark.list"@.len() != "system.ping"@.len());
    reveal_strlit("system.status");
    assert("bookmark.list"@[0] != "system.status"@[0]);
    reveal_strlit("manga.list");
    assert("bookmark.list"@.len() != "manga.list"@.len());
    reveal_strlit("manga.get");
    assert("bookmark.list"@.len() != "manga.get"@.len());
    reveal_strlit("manga.create");
    assert("bookmark.list"@.len() != "manga.create"@.len());
    reveal_strlit("manga.update");
    assert("bookmark.list"@.len() != "manga.update"@.len());
    reveal_strlit("manga.delete");
    assert("bookmark.list"@.len() != "manga.delete"@.len());
    reveal_strlit("volume.list");
    assert("bookmark.list"@.len() != "volume.list"@.len());
    reveal_strlit("volume.create");
    assert("bookmark.list"@[0] != "volume.create"@[0]);
    reveal_strlit("chapter.list");
    assert("bookmark.list"@.len() != "chapter.list"@.len());
    reveal_strlit("chapter.create");
    assert("bookmark.list"@.len() != "chapter.create"@.len());
    reveal_strlit("page.list");
    assert("bookmark.list"@.len() != "page.list"@.len());
}

/// The name `bookmark.create` is routed to its method.
proof fn lemma_method_named_13()
    ensures
        method_named("bookmark.create"@) == Some(Method::BookmarkCreate),
{
    reveal_strlit("bookmark.create");
    reveal_strlit("system.ping");
    assert("bookmark.create"@.len() != "system.ping"@.len());
    reveal_strlit("system.status");
    assert("bookmark.create"@.len() != "system.status"@.len());
    reveal_strlit("manga.list");
    assert("bookmark.create"@.len() != "manga.list"@.len());
    reveal_strlit("manga.get");
    assert("bookmark.create"@.len() != "manga.get"@.len());
    reveal_strlit("manga.create");
    assert("bookmark.create"@.len() != "manga.create"@.len());
    reveal_strlit("manga.update");
    assert("bookmark.create"@.len() != "manga.update"@.len());
    reveal_strlit("manga.delete");
    assert("bookmark.create"@.len() != "manga.delete"@.len());
    reveal_strlit("volume.list");
    assert("bookmark.create"@.len() != "volume.list"@.len());
    reveal_strlit("volume.create");
    assert("bookmark.create"@.len() != "volume.create"@.len());
    reveal_strlit("chapter.list");
    assert("bookmark.create"@.len() != "chapter.list"@.len());
    reveal_strlit("chapter.create");
    assert("bookmark.create"@.len() != "chapter.create"@.len());
    reveal_strlit("page.list");
    assert("bookmark.create"@.len() != "page.list"@.len());
    reveal_strlit("bookmark.list");
    assert("bookmark.create"@.len() != "bookmark.list"@.len());
}

/// The name `bookmark.delete` is routed to its method.
proof fn lemma_method_named_14()
    ensures
        method_named("bookmark.delete"@) == Some(Method::BookmarkDelete),
{
    reveal_strlit("bookmark.delete");
    reveal_strlit("system.ping");
    assert("bookmark.delete"@.len() != "system.ping"@.len());
    reveal_strlit("system.status");
    assert("bookmark.delete"@.len() != "system.status"@.len());
    reveal_strlit("manga.list");
    assert("bookmark.delete"@.len() != "manga.list"@.len());
    reveal_strlit("manga.get");
    assert("bookmark.delete"@.len() != "manga.get"@.len());
    reveal_strlit("manga.create");
    assert("bookmark.delete"@.len() != "manga.create"@.len());
    reveal_strlit("manga.update");
    assert("bookmark.delete"@.len() != "manga.update"@.len());
    reveal_strlit("manga.delete");
    assert("bookmark.delete"@.len() != "manga.delete"@.len());
    reveal_strlit("volume.list");
    assert("bookmark.delete"@.len() != "volume.list"@.len());
    reveal_strlit("volume.create");
    assert("bookmark.delete"@.len() != "volume.create"@.len());
    reveal_strlit("chapter.list");
    assert("bookmark.delete"@.len() != "chapter.list"@.len());
    reveal_strlit("chapter.create");
    assert("bookmark.delete"@.len() != "chapter.create"@.len());
    reveal_strlit("page.list");
    assert("bookmark.delete"@.len() != "page.list"@.len());
    reveal_strlit("bookmark.list");
    assert("bookmark.delete"@.len() != "bookmark.list"@.len());
    reveal_strlit("bookmark.create");
    assert("bookmark.delete"@[9] != "bookmark.create"@[9]);
}

/// The name `progress.get` is routed to its method.
proof fn lemma_method_named_15()
    ensures
        method_named("progress.get"@) == Some(Method::ProgressGet),
{
    reveal_strlit("progress.get");
    reveal_strlit("system.ping");
    assert("progress.get"@.len() != "system.ping"@.len());
    reveal_strlit("system.status");
    assert("progress.get"@.len() != "system.status"@.len());
    reveal_strlit("manga.list");
    assert("progress.get"@.len() != "manga.list"@.len());
    reveal_strlit("manga.get");
    assert("progress.get"@.len() != "manga.get"@.len());
    reveal_strlit("manga.create");
    assert("progress.get"@[0] != "manga.create"@[0]);
    reveal_strlit("manga.update");
    assert("progress.get"@[0] != "manga.update"@[0]);
    reveal_strlit("manga.delete");
    assert("progress.get"@[0] != "manga.delete"@[0]);
    reveal_strlit("volume.list");
    assert("progress.get"@.len() != "volume.list"@.len());
    reveal_strlit("volume.create");
    assert("progress.get"@.len() != "volume.create"@.len());
    reveal_strlit("chapter.list");
    assert("progress.get"@[0] != "chapter.list"@[0]);
    reveal_strlit("chapter.create");
    assert("progress.get"@.len() != "chapter.create"@.len());
    reveal_strlit("page.list");
    assert("progress.get"@.len() != "page.list"@.len());
    reveal_strlit("bookmark.list");
    assert("progress.get"@.len() != "bookmark.list"@.len());
    reveal_strlit("bookmark.create");
    assert("progress.get"@.len() != "bookmark.create"@.len());
    reveal_strlit("bookmark.delete");
    assert("progress.get"@.len() != "bookmark.delete"@.len());
}

/// The name `progress.set` is routed to its method.
proof fn lemma_method_named_16()
    ensures
        method_named("progress.set"@) == Some(Method::ProgressSet),
{
    reveal_strlit("progress.set");
    reveal_strlit("system.ping");
    assert("progress.set"@.len() != "system.ping"@.len());
    reveal_strlit("system.status");
    assert("progress.set"@.len() != "system.status"@.len());
    reveal_strlit("manga.list");
    assert("progress.set"@.len() != "manga.list"@.len());
    reveal_strlit("manga.get");
    assert("progress.set"@.len() != "manga.get"@.len());
    reveal_strlit("manga.create");
    assert("progress.set"@[0] != "manga.create"@[0]);
    reveal_strlit("manga.update");
    assert("progress.set"@[0] != "manga.update"@[0]);
    reveal_strlit("manga.delete");
    assert("progress.set"@[0] != "manga.delete"@[0]);
    reveal_strlit("volume.list");
    assert("progress.set"@.len() != "volume.list"@.len());
    reveal_strlit("volume.create");
    assert("progress.set"@.len() != "volume.create"@.len());
    reveal_strlit("chapter.list");
    assert("progress.set"@[0] != "chapter.list"@[0]);
    reveal_strlit("chapter.create");
    assert("progress.set"@.len() != "chapter.create"@.len());
    reveal_strlit("page.list");
    assert("progress.set"@.len() != "page.list"@.len());
    reveal_strlit("bookmark.list");
    assert("progress.set"@.len() != "bookmark.list"@.len());
    reveal_strlit("bookmark.create");
    assert("progress.set"@.len() != "bookmark.create"@.len());
    reveal_strlit("bookmark.delete");
    assert("progress.set"@.len() != "bookmark.delete"@.len());
    reveal_strlit("progress.get");
    assert("progress.set"@[9] != "progress.get"@[9]);
}

/// The name `category.list` is routed to its method.
proof fn lemma_method_named_17()
    ensures
        method_named("category.list"@) == Some(Method::CategoryList),
{
    reveal_strlit("category.list");
    reveal_strlit("system.ping");
    assert("category.list"@.len() != "system.ping"@.len());
    reveal_strlit("system.status");
    assert("category.list"@[0] != "system.status"@[0]);
    reveal_strlit("manga.list");
    assert("category.list"@.len() != "manga.list"@.len());
    reveal_strlit("manga.get");
    assert("category.list"@.len() != "manga.get"@.len());
    reveal_strlit("manga.create");
    assert("category.list"@.len() != "manga.create"@.len());
    reveal_strlit("manga.update");
    assert("category.list"@.len() != "manga.update"@.len());
    reveal_strlit("manga.delete");
    assert("category.list"@.len() != "manga.delete"@.len());
    reveal_strlit("volume.list");
    assert("category.list"@.len() != "volume.list"@.len());
    reveal_strlit("volume.create");
    assert("category.list"@[0] != "volume.create"@[0]);
    reveal_strlit("chapter.list");
    assert("category.list"@.len() != "chapter.list"@.len());
    reveal_strlit("chapter.create");
    assert("category.list"@.len() != "chapter.create"@.len());
    reveal_strlit("page.list");
    assert("category.list"@.len() != "page.list"@.len());
    reveal_strlit("bookmark.list");
    assert("category.list"@[0] != "bookmark.list"@[0]);
    reveal_strlit("bookmark.create");
    assert("category.list"@.len() != "bookmark.create"@.len());
    reveal_strlit("bookmark.delete");
    assert("category.list"@.len() != "bookmark.delete"@.len());
    reveal_strlit("progress.get");
    assert("category.list"@.len() != "progress.get"@.len());
    reveal_strlit("progress.set");
    assert("category.list"@.len() != "progress.set"@.len());
}

/// The name `category.create` is routed to its method.
proof fn lemma_method_named_18()
    ensures
        method_named("category.create"@) == Some(Method::CategoryCreate),
{
    reveal_strlit("category.create");
    reveal_strlit("system.ping");
    assert("category.create"@.len() != "system.ping"@.len());
    reveal_strlit("system.status");
    assert("category.create"@.len() != "system.status"@.len());
    reveal_strlit("manga.list");
    assert("category.create"@.len() != "manga.list"@.len());
    reveal_strlit("manga.get");
    assert("category.create"@.len() != "manga.get"@.len());
    reveal_strlit("manga.create");
    assert("category.create"@.len() != "manga.create"@.len());
    reveal_strlit("manga.update");
    assert("category.create"@.len() != "manga.update"@.len());
    reveal_strlit("manga.delete");
    assert("category.create"@.len() != "manga.delete"@.len());
    reveal_strlit("volume.list");
    assert("category.create"@.len() != "volume.list"@.len());
    reveal_strlit("volume.create");
    assert("category.create"@.len() != "volume.create"@.len());
    reveal_strlit("chapter.list");
    assert("category.create"@.len() != "chapter.list"@.len());
    reveal_strlit("chapter.create");
    assert("category.create"@.len() != "chapter.create"@.len());
    reveal_strlit("page.list");
    assert("category.create"@.len() != "page.list"@.len());
    reveal_strlit("bookmark.list");
    assert("category.create"@.len() != "bookmark.list"@.len());
    reveal_strlit("bookmark.create");
    assert("category.create"@[0] != "bookmark.create"@[0]);
    reveal_strlit("bookmark.delete");
    assert("category.create"@[0] != "bookmark.delete"@[0]);
    reveal_strlit("progress.get");
    assert("category.create"@.len() != "progress.get"@.len());
    reveal_strlit("progress.set");
    assert("category.create"@.len() != "progress.set"@.len());
    reveal_strlit("category.list");
    assert("category.create"@.len() != "category.list"@.len());
}

/// The name `category.assign` is routed to its method.
proof fn lemma_method_named_19()
    ensures
        method_named("category.assign"@) == Some(Method::CategoryAssign),
{
    reveal_strlit("category.assign");
    reveal_strlit("system.ping");
    assert("category.assign"@.len() != "system.ping"@.len());
    reveal_strlit("system.status");
    assert("category.assign"@.len() != "system.status"@.len());
    reveal_strlit("manga.list");
    assert("category.assign"@.len() != "manga.list"@.len());
    reveal_strlit("manga.get");
    assert("category.assign"@.len() != "manga.get"@.len());
    reveal_strlit("manga.create");
    assert("category.assign"@.len() != "manga.create"@.len());
    reveal_strlit("manga.update");
    assert("category.assign"@.len() != "manga.update"@.len());
    reveal_strlit("manga.delete");
    assert("category.assign"@.len() != "manga.delete"@.len());
    reveal_strlit("volume.list");
    assert("category.assign"@.len() != "volume.list"@.len());
    reveal_strlit("volume.create");
    assert("category.assign"@.len() != "volume.create"@.len());
    reveal_strlit("chapter.list");
    assert("category.assign"@.len() != "chapter.list"@.len());
    reveal_strlit("chapter.create");
    assert("category.assign"@.len() != "chapter.create"@.len());
    reveal_strlit("page.list");
    assert("category.assign"@.len() != "page.list"@.len());
    reveal_strlit("bookmark.list");
    assert("category.assign"@.len() != "bookmark.list"@.len());
    reveal_strlit("bookmark.create");
    assert("category.assign"@[0] != "bookmark.create"@[0]);
    reveal_strlit("bookmark.delete");
    assert("category.assign"@[0] != "bookmark.delete"@[0]);
    reveal_strlit("progress.get");
    assert("category.assign"@.len() != "progress.get"@.len());
    reveal_strlit("progress.set");
    assert("category.assign"@.len() != "progress.set"@.len());
    reveal_strlit("category.list");
    assert("category.assign"@.len() != "category.list"@.len());
    reveal_strlit("category.create");
    assert("category.assign"@[9] != "category.create"@[9]);
}

/// The name `category.unassign` is routed to its method.
proof fn lemma_method_named_20()
    ensures
        method_named("category.unassign"@) == Some(Method::CategoryUnassign),
{
    reveal_strlit("category.unassign");
    reveal_strlit("system.ping");
    assert("category.unassign"@.len() != "system.ping"@.len());
    reveal_strlit("system.status");
    assert("category.unassign"@.len() != "system.status"@.len());
    reveal_strlit("manga.list");
    assert("category.unassign"@.len() != "manga.list"@.len());
    reveal_strlit("manga.get");
    assert("category.unassign"@.len() != "manga.get"@.len());
    reveal_strlit("manga.create");
    assert("category.unassign"@.len() != "manga.create"@.len());
    reveal_strlit("manga.update");
    assert("category.unassign"@.len() != "manga.update"@.len());
    reveal_strlit("manga.delete");
    assert("category.unassign"@.len() != "manga.delete"@.len());
    reveal_strlit("volume.list");
    assert("category.unassign"@.len() != "volume.list"@.len());
    reveal_strlit("volume.create");
    assert("category.unassign"@.len() != "volume.create"@.len());
    reveal_strlit("chapter.list");
    assert("category.unassign"@.len() != "chapter.list"@.len());
    reveal_strlit("chapter.create");
    assert("category.unassign"@.len() != "chapter.create"@.len());
    reveal_strlit("page.list");
    assert("category.unassign"@.len() != "page.list"@.len());
    reveal_strlit("bookmark.list");
    assert("category.unassign"@.len() != "bookmark.list"@.len());
    reveal_strlit("bookmark.create");
    assert("category.unassign"@.len() != "bookmark.create"@.len());
    reveal_strlit("bookmark.delete");
    assert("category.unassign"@.len() != "bookmark.delete"@.len());
    reveal_strlit("progress.get");
    assert("category.unassign"@.len() != "progress.get"@.len());
    reveal_strlit("progress.set");
    assert("category.unassign"@.len() != "progress.set"@.len());
    reveal_strlit("category.list");
    assert("category.unassign"@.len() != "category.list"@.len());
    reveal_strlit("category.create");
    assert("category.unassign"@.len() != "category.create"@.len());
    reveal_strlit("category.assign");
    assert("category.unassign"@.len() != "category.assign"@.len());
}

/// The name `archive.extract` is routed to its method.
proof fn lemma_method_named_21()
    ensures
        method_named("archive.extract"@) == Some(Method::ArchiveExtract),
{
    reveal_strlit("archive.extract");
    reveal_strlit("system.ping");
    assert("archive.extract"@.len() != "system.ping"@.len());
    reveal_strlit("system.status");
    assert("archive.extract"@.len() != "system.status"@.len());
    reveal_strlit("manga.list");
    assert("archive.extract"@.len() != "manga.list"@.len());
    reveal_strlit("manga.get");
    assert("archive.extract"@.len() != "manga.get"@.len());
    reveal_strlit("manga.create");
    assert("archive.extract"@.len() != "manga.create"@.len());
    reveal_strlit("manga.update");
    assert("archive.extract"@.len() != "manga.update"@.len());
    reveal_strlit("manga.delete");
    assert("archive.extract"@.len() != "manga.delete"@.len());
    reveal_strlit("volume.list");
    assert("archive.extract"@.len() != "volume.list"@.len());
    reveal_strlit("volume.create");
    assert("archive.extract"@.len() != "volume.create"@.len());
    reveal_strlit("chapter.list");
    assert("archive.extract"@.len() != "chapter.list"@.len());
    reveal_strlit("chapter.create");
    assert("archive.extract"@.len() != "chapter.create"@.len());
    reveal_strlit("page.list");
    assert("archive.extract"@.len() != "page.list"@.len());
    reveal_strlit("bookmark.list");
    assert("archive.extract"@.len() != "bookmark.list"@.len());
    reveal_strlit("bookmark.create");
    assert("archive.extract"@[0] != "bookmark.create"@[0]);
    reveal_strlit("bookmark.delete");
    assert("archive.extract"@[0] != "bookmark.delete"@[0]);
    reveal_strlit("progress.get");
    assert("archive.extract"@.len() != "progress.get"@.len());
    reveal_strlit("progress.set");
    assert("archive.extract"@.len() != "progress.set"@.len());
    reveal_strlit("category.list");
    assert("archive.extract"@.len() != "category.list"@.len());
    reveal_strlit("category.create");
    assert("archive.extract"@[0] != "category.create"@[0]);
    reveal_strlit("category.assign");
    assert("archive.extract"@[0] != "category.assign"@[0]);
    reveal_strlit("category.unassign");
    assert("archive.extract"@.len() != "category.unassign"@.len());
}

/// The name `panel.detect` is routed to its method.
proof fn lemma_method_named_22()
    ensures
        method_named("panel.detect"@) == Some(Method::PanelDetect),
{
    reveal_strlit("panel.detect");
    reveal_strlit("system.ping");
    assert("panel.detect"@.len() != "system.ping"@.len());
    reveal_strlit("system.status");
    assert("panel.detect"@.len() != "system.status"@.len());
    reveal_strlit("manga.list");
    assert("panel.detect"@.len() != "manga.list"@.len());
    reveal_strlit("manga.get");
    assert("panel.detect"@.len() != "manga.get"@.len());
    reveal_strlit("manga.create");
    assert("panel.detect"@[0] != "manga.create"@[0]);
    reveal_strlit("manga.update");
    assert("panel.detect"@[0] != "manga.update"@[0]);
    reveal_strlit("manga.delete");
    assert("panel.detect"@[0] != "manga.delete"@[0]);
    reveal_strlit("volume.list");
    assert("panel.detect"@.len() != "volume.list"@.len());
    reveal_strlit("volume.create");
    assert("panel.detect"@.len() != "volume.create"@.len());
    reveal_strlit("chapter.list");
    assert("panel.detect"@[0] != "chapter.list"@[0]);
    reveal_strlit("chapter.create");
    assert("panel.detect"@.len() != "chapter.create"@.len());
    reveal_strlit("page.list");
    assert("panel.detect"@.len() != "page.list"@.len());
    reveal_strlit("bookmark.list");
    assert("panel.detect"@.len() != "bookmark.list"@.len());
    reveal_strlit("bookmark.create");
    assert("panel.detect"@.len() != "bookmark.create"@.len());
    reveal_strlit("bookmark.delete");
    assert("panel.detect"@.len() != "bookmark.delete"@.len());
    reveal_strlit("progress.get");
    assert("panel.detect"@[1] != "progress.get"@[1]);
    reveal_strlit("progress.set");
    assert("panel.detect"@[1] != "progress.set"@[1]);
    reveal_strlit("category.list");
    assert("panel.detect"@.len() != "category.list"@.len());
    reveal_strlit("category.create");
    assert("panel.detect"@.len() != "category.create"@.len());
    reveal_strlit("category.assign");
    assert("panel.detect"@.len() != "category.assign"@.len());
    reveal_strlit("category.unassign");
    assert("panel.detect"@.len() != "category.unassign"@.len());
    reveal_strlit("archive.extract");
    assert("panel.detect"@.len() != "archive.extract"@.len());
}

/// The name `search.query` is routed to its method.
proof fn lemma_method_named_23()
    ensures
        method_named("search.query"@) == Some(Method::SearchQuery),
{
    reveal_strlit("search.query");
    reveal_strlit("system.ping");
    assert("search.query"@.len() != "system.ping"@.len());
    reveal_strlit("system.status");
    assert("search.query"@.len() != "system.status"@.len());
    reveal_strlit("manga.list");
    assert("search.query"@.len() != "manga.list"@.len());
    reveal_strlit("manga.get");
    assert("search.query"@.len() != "manga.get"@.len());
    reveal_strlit("manga.create");
    assert("search.query"@[0] != "manga.create"@[0]);
    reveal_strlit("manga.update");
    assert("search.query"@[0] != "manga.update"@[0]);
    reveal_strlit("manga.delete");
    assert("search.query"@[0] != "manga.delete"@[0]);
    reveal_strlit("volume.list");
    assert("search.query"@.len() != "volume.list"@.len());
    reveal_strlit("volume.create");
    assert("search.query"@.len() != "volume.create"@.len());
    reveal_strlit("chapter.list");
    assert("search.query"@[0] != "chapter.list"@[0]);
    reveal_strlit("chapter.create");
    assert("search.query"@.len() != "chapter.create"@.len());
    reveal_strlit("page.list");
    assert("search.query"@.len() != "page.list"@.len());
    reveal_strlit("bookmark.list");
    assert("search.query"@.len() != "bookmark.list"@.len());
    reveal_strlit("bookmark.create");
    assert("search.query"@.len() != "bookmark.create"@.len());
    reveal_strlit("bookmark.delete");
    assert("search.query"@.len() != "bookmark.delete"@.len());
    reveal_strlit("progress.get");
    assert("search.query"@[0] != "progress.get"@[0]);
    reveal_strlit("progress.set");
    assert("search.query"@[0] != "progress.set"@[0]);
    reveal_strlit("category.list");
    assert("search.query"@.len() != "category.list"@.len());
    reveal_strlit("category.create");
    assert("search.query"@.len() != "category.create"@.len());
    reveal_strlit("category.assign");
    assert("search.query"@.len() != "category.assign"@.len());
    reveal_strlit("category.unassign");
    assert("search.query"@.len() != "category.unassign"@.len());
    reveal_strlit("archive.extract");
    assert("search.query"@.len() != "archive.extract"@.len());
    reveal_strlit("panel.detect");
    assert("search.query"@[0] != "panel.detect"@[0]);
}

/// The name `cache.clear` is routed to its method.
proof fn lemma_method_named_24()
    ensures
        method_named("cache.clear"@) == Some(Method::CacheClear),
{
    reveal_strlit("cache.clear");
    reveal_strlit("system.ping");
    assert("cache.clear"@[0] != "system.ping"@[0]);
    reveal_strlit("system.status");
    assert("cache.clear"@.len() != "system.status"@.len());
    reveal_strlit("manga.list");
    assert("cache.clear"@.len() != "manga.list"@.len());
    reveal_strlit("manga.get");
    assert("cache.clear"@.len() != "manga.get"@.len());
    reveal_strlit("manga.create");
    assert("cache.clear"@.len() != "manga.create"@.len());
    reveal_strlit("manga.update");
    assert("cache.clear"@.len() != "manga.update"@.len());
    reveal_strlit("manga.delete");
    assert("cache.clear"@.len() != "manga.delete"@.len());
    reveal_strlit("volume.list");
    assert("cache.clear"@[0] != "volume.list"@[0]);
    reveal_strlit("volume.create");
    assert("cache.clear"@.len() != "volume.create"@.len());
    reveal_strlit("chapter.list");
    assert("cache.clear"@.len() != "chapter.list"@.len());
    reveal_strlit("chapter.create");
    assert("cache.clear"@.len() != "chapter.create"@.len());
    reveal_strlit("page.list");
    assert("cache.clear"@.len() != "page.list"@.len());
    reveal_strlit("bookmark.list");
    assert("cache.clear"@.len() != "bookmark.list"@.len());
    reveal_strlit("bookmark.create");
    assert("cache.clear"@.len() != "bookmark.create"@.len());
    reveal_strlit("bookmark.delete");
    assert("cache.clear"@.len() != "bookmark.delete"@.len());
    reveal_strlit("progress.get");
    assert("cache.clear"@.len() != "progress.get"@.len());
    reveal_strlit("progress.set");
    assert("cache.clear"@.len() != "progress.set"@.len());
    reveal_strlit("category.list");
    assert("cache.clear"@.len() != "category.list"@.len());
    reveal_strlit("category.create");
    assert("cache.clear"@.len() != "category.create"@.len());
    reveal_strlit("category.assign");
    assert("cache.clear"@.len() != "category.assign"@.len());
    reveal_strlit("category.unassign");
    assert("cache.clear"@.len() != "category.unassign"@.len());
    reveal_strlit("archive.extract");
    assert("cache.clear"@.len() != "archive.extract"@.len());
    reveal_strlit("panel.detect");
    assert("cache.clear"@.len() != "panel.detect"@.len());
    reveal_strlit("search.query");
    assert("cache.clear"@.len() != "search.query"@.len());
}

pub proof fn law_method_name_round_trip(m: Method)
    ensures
        method_named(method_name(m)) == Some(m),
{
    match m {
        Method::SystemPing => {
            lemma_method_named_0();
        },
        Method::SystemStatus => {
            lemma_method_named_1();
        },
        Method::MangaList => {
            lemma_method_named_2();
        },
        Method::MangaGet => {
            lemma_method_named_3();
        },
        Method::MangaCreate => {
            lemma_method_named_4();
        },
        Method::MangaUpdate => {
            lemma_method_named_5();
        },
        Method::MangaDelete => {
            lemma_method_named_6();
        },
        Method::VolumeList => {
            lemma_method_named_7();
        },
        Method::VolumeCreate => {
            lemma_method_named_8();
        },
        Method::ChapterList => {
            lemma_method_named_9();
        },
        Method::ChapterCreate => {
            lemma_method_named_10();
        },
        Method::PageList => {
            lemma_method_named_11();
        },
        Method::BookmarkList => {
            lemma_method_named_12();
        },
        Method::BookmarkCreate => {
            lemma_method_named_13();
        },
        Method::BookmarkDelete => {
            lemma_method_named_14();
        },
        Method::ProgressGet => {
            lemma_method_named_15();
        },
        Method::ProgressSet => {
            lemma_method_named_16();
        },
        Method::CategoryList => {
            lemma_method_named_17();
        },
        Method::CategoryCreate => {
            lemma_method_named_18();
        },
        Method::CategoryAssign => {
            lemma_method_named_19();
        },
        Method::CategoryUnassign => {
            lemma_method_named_20();
        },
        Method::ArchiveExtract => {
            lemma_method_named_21();
        },
        Method::PanelDetect => {
            lemma_method_named_22();
        },
        Method::SearchQuery => {
            lemma_method_named_23();
        },
        Method::CacheClear => {
            lemma_method_named_24();
        },
    }
}

/// Parsing is faithful: a name routed to a method is that method's name, so no two
/// names are routed to the same method.
pub proof fn law_routed_name_is_the_method_name(name: Seq<char>, m: Method)
    requires
        method_named(name) == Some(m),
    ensures
        name == method_name(m),
{
}

/// Distinct served names are routed to distinct methods.
pub proof fn law_routing_is_injective(a: Seq<char>, b: Seq<char>)
    requires
        method_named(a) is Some,
        method_named(a) == method_named(b),
    ensures
        a == b,
{
    law_routed_name_is_the_method_name(a, method_named(a)->0);
    law_routed_name_is_the_method_name(b, method_named(a)->0);
}

impl Method {
    /// The method a request names, if the engine serves it.
    pub fn parse(method: &str) -> (r: Option<Method>)
        ensures
            r == method_named(method@),
    {
        if str_eq(method, "system.ping") {
            Some(Method::SystemPing)
        } else if str_eq(method, "system.status") {
            Some(Method::SystemStatus)
        } else if str_eq(method, "manga.list") {
            Some(Method::MangaList)
        } else if str_eq(method, "manga.get") {
            Some(Method::MangaGet)
        } else if str_eq(method, "manga.create") {
            Some(Method::MangaCreate)
        } else if str_eq(method, "manga.update") {
            Some(Method::MangaUpdate)
        } else if str_eq(method, "manga.delete") {
            Some(Method::MangaDelete)
        } else if str_eq(method, "volume.list") {
            Some(Method::VolumeList)
        } else if str_eq(method, "volume.create") {
            Some(Method::VolumeCreate)
        } else if str_eq(method, "chapter.list") {
            Some(Method::ChapterList)
        } else if str_eq(method, "chapter.create") {
            Some(Method::ChapterCreate)
        } else if str_eq(method, "page.list") {
            Some(Method::PageList)
        } else if str_eq(method, "bookmark.list") {
            Some(Method::BookmarkList)
        } else if str_eq(method, "bookmark.create") {
            Some(Method::BookmarkCreate)
        } else if str_eq(method, "bookmark.delete") {
            Some(Method::BookmarkDelete)
        } else if str_eq(method, "progress.get") {
            Some(Method::ProgressGet)
        } else if str_eq(method, "progress.set") {
            Some(Method::ProgressSet)
        } else if str_eq(method, "category.list") {
            Some(Method::CategoryList)
        } else if str_eq(method, "category.create") {
            Some(Method::CategoryCreate)
        } else if str_eq(method, "category.assign") {
            Some(Method::CategoryAssign)
        } else if str_eq(method, "category.unassign") {
            Some(Method::CategoryUnassign)
        } else if str_eq(method, "archive.extract") {
            Some(Method::ArchiveExtract)
        } else if str_eq(method, "panel.detect") {
            Some(Method::PanelDetect)
        } else if str_eq(method, "search.query") {
            Some(Method::SearchQuery)
        } else if str_eq(method, "cache.clear") {
            Some(Method::CacheClear)
        } else {
            None
        }
    }
}

/// The message of a method the engine does not serve.
pub open spec fn not_found_message(method: Seq<char>) -> Seq<char> {
    "Method '"@ + method + "' not found"@
}

/// The response to a request for a method the engine does not serve: error
/// -32601 naming the method, under the request's id.
pub fn method_not_found_response(id: Value, method: &str) -> (r: JsonRpcResponse)
    ensures
        r.jsonrpc@ == "2.0"@,
        r.id == Some(id),
        r.result is None,
        r.error matches Some(e) && e.code == -32601 && e.message@ == not_found_message(method@) && e.data is None,
{
    let err = JsonRpcError::method_not_found().with_message(concat3("Method '", method, "' not found"));
    JsonRpcResponse::error(Some(id), err)
}

/// The response to a request that a handler answered: the result under the
/// request's id, or error -32603 with the handler's message.
pub fn handler_response(id: Value, outcome: Result<Value, String>) -> (r: JsonRpcResponse)
    ensures
        r.jsonrpc@ == "2.0"@,
        r.id == Some(id),
        match outcome {
            Ok(v) => r.result == Some(v) && r.error is None,
            Err(msg) => r.result is None && (r.error matches Some(e) && e.code == -32603 && e.message == msg && e.data is None),
        },
{
    match outcome {
        Ok(value) => JsonRpcResponse::success(Some(id), value),
        Err(message) => JsonRpcResponse::error(Some(id), JsonRpcError::internal_error().with_message(message)),
    }
}

/// The response to a line that is not a JSON-RPC request: error -32700 with the
/// parser's message, without an id.
pub fn parse_error_response(detail: &str) -> (r: JsonRpcResponse)
    ensures
        r.jsonrpc@ == "2.0"@,
        r.id is None,
        r.result is None,
        r.error matches Some(e) && e.code == -32700 && e.message@ == "Parse error: "@ + detail@ && e.data is None,
{
    let err = JsonRpcError::parse_error().with_message(concat2("Parse error: ", detail));
    JsonRpcResponse::error(None, err)
}

} // verus!
