//! The requests of the editor whose answers the proxy rewrites.

use crate::json::{Json, JsonView};
use crate::json;
use crate::lsp_proxy::completions;
use crate::text;
use vstd::prelude::*;

verus! {

/// How the answer to a request is rewritten.
#[derive(Clone, Copy, Debug, PartialEq, Eq, Structural)]
pub enum RewriteKind {
    /// Its locations come to name source files.
    Locations,
    /// Its texts come to name source files.
    Documentation,
    /// Its completion items are made what the editor can use.
    Completion,
}

/// A request whose answer is to be rewritten.
#[derive(Debug, PartialEq)]
pub struct TrackedRequest {
    pub token: u64,
    pub method: String,
    pub rewrite: RewriteKind,
    /// What is to be resolved, for a request to resolve a completion item.
    pub original_params: Option<Json>,
}

/// What a `TrackedRequest` holds.
pub struct RequestView {
    pub token: u64,
    pub method: Seq<char>,
    pub rewrite: RewriteKind,
    pub original_params: Option<JsonView>,
}

/// What `value` holds, where there is one.
pub open spec fn optional(value: Option<Json>) -> Option<JsonView> {
    match value {
        Some(value) => Some(value@),
        None => None,
    }
}

impl View for TrackedRequest {
    type V = RequestView;

    open spec fn view(&self) -> RequestView {
        RequestView {
            token: self.token,
            method: self.method@,
            rewrite: self.rewrite,
            original_params: optional(self.original_params),
        }
    }
}

impl Clone for TrackedRequest {
    fn clone(&self) -> (r: Self)
        ensures
            r@ == self@,
    {
        TrackedRequest {
            token: self.token,
            method: self.method.clone(),
            rewrite: self.rewrite,
            original_params: match &self.original_params {
                Some(params) => Some(params.clone()),
                None => None,
            },
        }
    }
}

impl TrackedRequest {
    pub fn new(
        token: u64,
        method: &str,
        rewrite: RewriteKind,
        original_params: Option<Json>,
    ) -> (r: Self)
        ensures
            r@ == (RequestView {
                token,
                method: method@,
                rewrite,
                original_params: optional(original_params),
            }),
    {
        TrackedRequest { token, method: method.to_owned(), rewrite, original_params }
    }
}

/// How the answer to a request `method` is rewritten, where it is.
pub open spec fn rewrite_kind(method: Seq<char>) -> Option<RewriteKind> {
    if method == "textDocument/completion"@ {
        Some(RewriteKind::Completion)
    } else if method == "textDocument/definition"@ || method == "textDocument/declaration"@ || method
        == "textDocument/typeDefinition"@ || method == "textDocument/implementation"@ || method
        == "textDocument/references"@ || method == "textDocument/prepareCallHierarchy"@ || method
        == "callHierarchy/incomingCalls"@ || method == "callHierarchy/outgoingCalls"@ || method
        == "textDocument/prepareTypeHierarchy"@ || method == "typeHierarchy/supertypes"@ || method
        == "typeHierarchy/subtypes"@ || method == "workspace/symbol"@ {
        Some(RewriteKind::Locations)
    } else if method == "textDocument/hover"@ || method == "textDocument/signatureHelp"@ || method
        == "completionItem/resolve"@ {
        Some(RewriteKind::Documentation)
    } else {
        None
    }
}

fn kind_of(method: &str) -> (r: Option<RewriteKind>)
    ensures
        r == rewrite_kind(method@),
{
    if text::same_text(method, "textDocument/completion") {
        Some(RewriteKind::Completion)
    } else if text::same_text(method, "textDocument/definition") || text::same_text(
        method,
        "textDocument/declaration",
    ) || text::same_text(method, "textDocument/typeDefinition") || text::same_text(
        method,
        "textDocument/implementation",
    ) || text::same_text(method, "textDocument/references") || text::same_text(
        method,
        "textDocument/prepareCallHierarchy",
    ) || text::same_text(method, "callHierarchy/incomingCalls") || text::same_text(
        method,
        "callHierarchy/outgoingCalls",
    ) || text::same_text(method, "textDocument/prepareTypeHierarchy") || text::same_text(
        method,
        "typeHierarchy/supertypes",
    ) || text::same_text(method, "typeHierarchy/subtypes") || text::same_text(
        method,
        "workspace/symbol",
    ) {
        Some(RewriteKind::Locations)
    } else if text::same_text(method, "textDocument/hover") || text::same_text(
        method,
        "textDocument/signatureHelp",
    ) || text::same_text(method, "completionItem/resolve") {
        Some(RewriteKind::Documentation)
    } else {
        None
    }
}

/// The id of the request `message`, and what is noted of it under `token`, where its answer is to
/// be rewritten.
pub open spec fn tracked_for(message: JsonView, token: u64) -> Option<(JsonView, RequestView)> {
    match (completions::text_at(message, "method"@), message.get("id"@)) {
        (Some(method), Some(id)) => match rewrite_kind(method) {
            Some(rewrite) => Some(
                (
                    id,
                    RequestView {
                        token,
                        method,
                        rewrite,
                        original_params: if method == "completionItem/resolve"@ {
                            match message.get("params"@) {
                                Some(JsonView::Object(members)) => Some(
                                    JsonView::Object(members),
                                ),
                                _ => None,
                            }
                        } else {
                            None
                        },
                    },
                ),
            ),
            None => None,
        },
        _ => None,
    }
}

/// The id of the request `message`, and what is noted of it under `token`, where its answer is to
/// be rewritten.
pub fn tracked_request_for(message: &Json, token: u64) -> (r: Option<(Json, TrackedRequest)>)
    ensures
        (match r {
            Some((id, request)) => tracked_for(message@, token) == Some((id@, request@)),
            None => tracked_for(message@, token) is None,
        }),
{
    let method = match message.get("method") {
        Some(Json::Str(method)) => method,
        _ => return None,
    };
    let id = match message.get("id") {
        Some(id) => id.clone(),
        None => return None,
    };
    let rewrite = match kind_of(method.as_str()) {
        Some(rewrite) => rewrite,
        None => return None,
    };
    let original_params = if text::same_text(method.as_str(), "completionItem/resolve") {
        match message.get("params") {
            Some(params) => match params {
                Json::Object(_) => Some(params.clone()),
                _ => None,
            },
            None => None,
        }
    } else {
        None
    };
    Some((id, TrackedRequest::new(token, method.as_str(), rewrite, original_params)))
}

/// The answer that takes the place of `message`, the answer to `request`: the item as it was,
/// where the language server failed to resolve it.
pub open spec fn resolve_fallback(message: JsonView, request: RequestView) -> Option<JsonView> {
    if request.method == "completionItem/resolve"@ && (match message.get2("error"@, "code"@) {
        Some(code) => code.as_i64() == Some(-32603i64),
        None => false,
    }) {
        match (request.original_params, message.get("id"@)) {
            (Some(item), Some(id)) => Some(
                JsonView::empty_object().set("jsonrpc"@, JsonView::Str("2.0"@)).set("id"@, id).set(
                    "result"@,
                    item,
                ),
            ),
            _ => None,
        }
    } else {
        None
    }
}

/// The answer that takes the place of `message`, the answer to `request`: the item as it was,
/// where the language server failed to resolve it.
pub fn completion_resolve_fallback(message: &Json, request: &TrackedRequest) -> (r: Option<Json>)
    ensures
        optional(r) == resolve_fallback(message@, request@),
{
    if !text::same_text(request.method.as_str(), "completionItem/resolve") {
        return None;
    }
    let failed = match message.get2("error", "code") {
        Some(code) => match code.as_i64() {
            Some(code) => code == -32603,
            None => false,
        },
        None => false,
    };
    if !failed {
        return None;
    }
    match (&request.original_params, message.get("id")) {
        (Some(item), Some(id)) => Some(
            Json::empty_object().setting("jsonrpc", Json::string("2.0")).setting(
                "id",
                id.clone(),
            ).setting("result", item.clone()),
        ),
        _ => None,
    }
}

/// How long an answer to `method` may be held back to be rewritten, in milliseconds.
pub open spec fn timeout_for(method: Seq<char>) -> u64 {
    if method == "textDocument/hover"@ || method == "textDocument/signatureHelp"@ || method
        == "completionItem/resolve"@ {
        500
    } else if method == "workspace/symbol"@ {
        1000
    } else {
        2000
    }
}

/// How long an answer to `method` may be held back to be rewritten, in milliseconds.
pub fn rewrite_timeout(method: &str) -> (r: u64)
    ensures
        r == timeout_for(method@),
{
    if text::same_text(method, "textDocument/hover") || text::same_text(
        method,
        "textDocument/signatureHelp",
    ) || text::same_text(method, "completionItem/resolve") {
        500
    } else if text::same_text(method, "workspace/symbol") {
        1000
    } else {
        2000
    }
}

/// The answer to a request that was called off.
pub open spec fn canceled_answer(id: JsonView) -> JsonView {
    JsonView::empty_object().set("jsonrpc"@, JsonView::Str("2.0"@)).set("id"@, id).set(
        "error"@,
        JsonView::empty_object().set("code"@, JsonView::Int(-32800)).set(
            "message"@,
            JsonView::Str("Request cancelled."@),
        ),
    )
}

/// The answer to a request that was called off.
pub fn request_canceled(id: &Json) -> (r: Json)
    ensures
        r@ == canceled_answer(id@),
{
    broadcast use json::group_json_views;

    let error = Json::empty_object().setting("code", Json::Int(-32800)).setting(
        "message",
        Json::string("Request cancelled."),
    );
    Json::empty_object().setting("jsonrpc", Json::string("2.0")).setting("id", id.clone()).setting(
        "error",
        error,
    )
}

/// The notification by which the request `id` is called off.
pub open spec fn cancellation(id: JsonView) -> JsonView {
    JsonView::empty_object().set("jsonrpc"@, JsonView::Str("2.0"@)).set(
        "method"@,
        JsonView::Str("$/cancelRequest"@),
    ).set("params"@, JsonView::empty_object().set("id"@, id))
}

/// The notification by which the request `id` is called off.
pub fn cancel_request(id: &Json) -> (r: Json)
    ensures
        r@ == cancellation(id@),
{
    Json::empty_object().setting("jsonrpc", Json::string("2.0")).setting(
        "method",
        Json::string("$/cancelRequest"),
    ).setting("params", Json::empty_object().setting("id", id.clone()))
}

/// The request by which the source of the class `uri` is asked for.
pub open spec fn source_request(id: JsonView, uri: Seq<char>) -> JsonView {
    JsonView::empty_object().set("jsonrpc"@, JsonView::Str("2.0"@)).set("id"@, id).set(
        "method"@,
        JsonView::Str("java/classFileContents"@),
    ).set("params"@, JsonView::empty_object().set("uri"@, JsonView::Str(uri)))
}

/// The request by which the source of the class `uri` is asked for.
pub fn class_source_request(id: &Json, uri: &str) -> (r: Json)
    ensures
        r@ == source_request(id@, uri@),
{
    Json::empty_object().setting("jsonrpc", Json::string("2.0")).setting("id", id.clone()).setting(
        "method",
        Json::string("java/classFileContents"),
    ).setting("params", Json::empty_object().setting("uri", Json::string(uri)))
}

/// The class source that the answer `response` holds: a text that is not empty.
pub open spec fn source_in(response: JsonView) -> Option<Seq<char>> {
    match completions::text_at(response, "result"@) {
        Some(content) => if content.len() > 0 {
            Some(content)
        } else {
            None
        },
        None => None,
    }
}

/// The class source that the answer `response` holds: a text that is not empty.
pub fn class_source_in(response: &Json) -> (r: Option<String>)
    ensures
        text::optional(r) == source_in(response@),
{
    match response.get("result") {
        Some(Json::Str(content)) => if content.as_str().is_empty() {
            None
        } else {
            Some(content.clone())
        },
        _ => None,
    }
}

/// Whether to say at `now` that a completion item was not resolved, which is not said again within
/// a minute. Notes that it is said.
pub fn should_log_completion_fallback(last: &mut Option<u64>, now: u64) -> (r: bool)
    ensures
        r == !(*old(last) matches Some(previous) && now - previous < 60000),
        *final(last) == if r {
            Some(now)
        } else {
            *old(last)
        },
{
    if let Some(previous) = *last {
        if now < previous || now - previous < 60000 {
            return false;
        }
    }
    *last = Some(now);
    true
}

/// The requests that are answered with locations.
pub open spec fn location_methods() -> Seq<Seq<char>> {
    seq![
        "textDocument/definition"@,
        "textDocument/declaration"@,
        "textDocument/typeDefinition"@,
        "textDocument/implementation"@,
        "textDocument/references"@,
        "textDocument/prepareCallHierarchy"@,
        "callHierarchy/incomingCalls"@,
        "callHierarchy/outgoingCalls"@,
        "textDocument/prepareTypeHierarchy"@,
        "typeHierarchy/supertypes"@,
        "typeHierarchy/subtypes"@,
        "workspace/symbol"@,
    ]
}

/// The requests that are answered with documentation.
pub open spec fn documentation_methods() -> Seq<Seq<char>> {
    seq!["textDocument/hover"@, "textDocument/signatureHelp"@, "completionItem/resolve"@]
}

/// No request is answered with both locations and documentation, and none of either is a request for
/// completion items.
proof fn lemma_methods_differ(method: Seq<char>)
    ensures
        location_methods().contains(method) ==> !documentation_methods().contains(method) && method
            != "textDocument/completion"@,
        documentation_methods().contains(method) ==> method != "textDocument/completion"@,
{
    reveal_strlit("textDocument/completion");
    reveal_strlit("textDocument/definition");
    reveal_strlit("textDocument/declaration");
    reveal_strlit("textDocument/typeDefinition");
    reveal_strlit("textDocument/implementation");
    reveal_strlit("textDocument/references");
    reveal_strlit("textDocument/prepareCallHierarchy");
    reveal_strlit("callHierarchy/incomingCalls");
    reveal_strlit("callHierarchy/outgoingCalls");
    reveal_strlit("textDocument/prepareTypeHierarchy");
    reveal_strlit("typeHierarchy/supertypes");
    reveal_strlit("typeHierarchy/subtypes");
    reveal_strlit("workspace/symbol");
    reveal_strlit("textDocument/hover");
    reveal_strlit("textDocument/signatureHelp");
    reveal_strlit("completionItem/resolve");
    let resolve = "completionItem/resolve"@;
    let hover = "textDocument/hover"@;
    let help = "textDocument/signatureHelp"@;
    let completion = "textDocument/completion"@;
    assert(hover.len() == 18 && help.len() == 26 && resolve.len() == 22 && completion.len() == 23);
    assert(completion[13] == 'c' && hover[13] == 'h' && help[13] == 's' && resolve[0] == 'c'
        && resolve[1] == 'o');
    assert forall|i: int|
        0 <= i < location_methods().len() implies #[trigger] location_methods()[i] != completion
        && location_methods()[i] != hover && location_methods()[i] != help && location_methods()[i]
        != resolve by {
        let m = location_methods()[i];
        if i == 0 {
            assert(m[13] == 'd');
        } else if i == 1 {
            assert(m[13] == 'd');
        } else if i == 2 {
            assert(m[13] == 't');
        } else if i == 3 {
            assert(m[13] == 'i');
        } else if i == 4 {
            assert(m[13] == 'r');
        } else if i == 5 {
            assert(m[13] == 'p');
        } else if i == 6 {
            assert(m[0] == 'c' && m[1] == 'a');
        } else if i == 7 {
            assert(m[0] == 'c' && m[1] == 'a');
        } else if i == 8 {
            assert(m[13] == 'p');
        } else if i == 9 {
            assert(m[4] == 'H' && completion[4] == 'D' && hover[4] == 'D' && help[4] == 'D'
                && resolve[0] != m[0]);
        } else if i == 10 {
            assert(m[4] == 'H' && completion[4] == 'D' && hover[4] == 'D' && help[4] == 'D'
                && resolve[0] != m[0]);
        } else {
            assert(m[0] == 'w');
        }
    }
    let others = documentation_methods();
    assert(others[0] == hover && others[1] == help && others[2] == resolve);
}

/// Answers with locations, with documentation and with completion items are rewritten each in their
/// way, and no others.
pub proof fn lemma_rewrite_kinds(method: Seq<char>)
    ensures
        rewrite_kind(method) == Some(RewriteKind::Locations) <==> location_methods().contains(
            method,
        ),
        rewrite_kind(method) == Some(RewriteKind::Documentation)
            <==> documentation_methods().contains(method),
        rewrite_kind(method) == Some(RewriteKind::Completion) <==> method
            == "textDocument/completion"@,
{
    lemma_methods_differ(method);
    let locations = location_methods();
    let documentation = documentation_methods();
    assert(locations[0] == "textDocument/definition"@);
    assert(locations[1] == "textDocument/declaration"@);
    assert(locations[2] == "textDocument/typeDefinition"@);
    assert(locations[3] == "textDocument/implementation"@);
    assert(locations[4] == "textDocument/references"@);
    assert(locations[5] == "textDocument/prepareCallHierarchy"@);
    assert(locations[6] == "callHierarchy/incomingCalls"@);
    assert(locations[7] == "callHierarchy/outgoingCalls"@);
    assert(locations[8] == "textDocument/prepareTypeHierarchy"@);
    assert(locations[9] == "typeHierarchy/supertypes"@);
    assert(locations[10] == "typeHierarchy/subtypes"@);
    assert(locations[11] == "workspace/symbol"@);
    assert(documentation[0] == "textDocument/hover"@);
    assert(documentation[1] == "textDocument/signatureHelp"@);
    assert(documentation[2] == "completionItem/resolve"@);
}

/// What is noted of a request is its id, its method, how its answer is rewritten and, for a request to
/// resolve a completion item, that item. A message without an id, or without a method whose answers are
/// rewritten, is not noted.
pub proof fn lemma_request_noted(message: JsonView, token: u64)
    ensures
        (match tracked_for(message, token) {
            Some((id, request)) => {
                &&& message.get("id"@) == Some(id)
                &&& message.get("method"@) == Some(JsonView::Str(request.method))
                &&& request.token == token
                &&& rewrite_kind(request.method) == Some(request.rewrite)
                &&& request.original_params is Some ==> request.original_params == message.get(
                    "params"@,
                )
                &&& request.original_params is Some <==> request.method
                    == "completionItem/resolve"@ && message.get("params"@) matches Some(
                    JsonView::Object(_),
                )
            },
            None => message.get("id"@) matches Some(_) ==> (message.get("method"@) matches Some(
                JsonView::Str(method),
            ) ==> !location_methods().contains(method) && !documentation_methods().contains(method)
                && method != "textDocument/completion"@),
        }),
{
    if let Some(JsonView::Str(method)) = message.get("method"@) {
        lemma_rewrite_kinds(method);
    }
}

/// The members of an object that was made by setting three of them, one after the other.
proof fn lemma_three_members(
    a: Seq<char>,
    first: JsonView,
    b: Seq<char>,
    second: JsonView,
    c: Seq<char>,
    third: JsonView,
)
    requires
        a != b && b != c && a != c,
    ensures
        ({
            let object = JsonView::empty_object().set(a, first).set(b, second).set(c, third);
            &&& object is Object
            &&& object.get(a) == Some(first)
            &&& object.get(b) == Some(second)
            &&& object.get(c) == Some(third)
            &&& forall|key: Seq<char>|
                key != a && key != b && key != c ==> #[trigger] object.get(key) is None
        }),
{
    let none = JsonView::empty_object();
    let once = none.set(a, first);
    let twice = once.set(b, second);
    let object = twice.set(c, third);
    json::lemma_get_after_set(none, a, first, a);
    json::lemma_get_after_set(once, b, second, a);
    json::lemma_get_after_set(twice, c, third, a);
    json::lemma_get_after_set(twice, c, third, b);
    assert forall|key: Seq<char>|
        key != a && key != b && key != c implies #[trigger] object.get(key) is None by {
        json::lemma_get_after_set(none, a, first, key);
        json::lemma_get_after_set(once, b, second, key);
        json::lemma_get_after_set(twice, c, third, key);
    }
}

/// Where the language server fails to resolve a completion item with an internal error (-32603), the
/// editor gets the item as it was in an answer to the same request. No other answer is replaced.
pub proof fn lemma_failed_resolution(message: JsonView, request: RequestView)
    ensures
        (match resolve_fallback(message, request) {
            Some(answer) => {
                &&& request.method == "completionItem/resolve"@
                &&& message.get2("error"@, "code"@) == Some(JsonView::Int(-32603))
                &&& message.get("id"@) is Some
                &&& answer.get("id"@) == message.get("id"@)
                &&& answer.get("result"@) == request.original_params
                &&& request.original_params is Some
                &&& answer.get("error"@) is None
                &&& answer.get("jsonrpc"@) == Some(JsonView::Str("2.0"@))
            },
            None => {
                ||| request.method != "completionItem/resolve"@
                ||| message.get2("error"@, "code"@) != Some(JsonView::Int(-32603))
                ||| message.get("id"@) is None
                ||| request.original_params is None
            },
        }),
{
    reveal_strlit("jsonrpc");
    reveal_strlit("id");
    reveal_strlit("result");
    reveal_strlit("error");
    assert("jsonrpc"@.len() == 7 && "id"@.len() == 2 && "result"@.len() == 6 && "error"@.len()
        == 5);
    if let (Some(item), Some(id)) = (request.original_params, message.get("id"@)) {
        lemma_three_members("jsonrpc"@, JsonView::Str("2.0"@), "id"@, id, "result"@, item);
    }
}

/// A request that was called off is answered with an error, which says so by its code (-32800).
pub proof fn lemma_canceled_answer(id: JsonView)
    ensures
        canceled_answer(id).get("id"@) == Some(id),
        canceled_answer(id).get("jsonrpc"@) == Some(JsonView::Str("2.0"@)),
        canceled_answer(id).get2("error"@, "code"@) == Some(JsonView::Int(-32800)),
        canceled_answer(id).get("result"@) is None,
        canceled_answer(id).get("method"@) is None,
{
    reveal_strlit("jsonrpc");
    reveal_strlit("id");
    reveal_strlit("result");
    reveal_strlit("error");
    reveal_strlit("method");
    reveal_strlit("code");
    reveal_strlit("message");
    assert("jsonrpc"@.len() == 7 && "id"@.len() == 2 && "result"@.len() == 6 && "error"@.len() == 5
        && "method"@.len() == 6 && "code"@.len() == 4 && "message"@.len() == 7);
    let none = JsonView::empty_object();
    let code = none.set("code"@, JsonView::Int(-32800));
    let error = code.set("message"@, JsonView::Str("Request cancelled."@));
    json::lemma_get_after_set(none, "code"@, JsonView::Int(-32800), "code"@);
    json::lemma_get_after_set(
        code,
        "message"@,
        JsonView::Str("Request cancelled."@),
        "code"@,
    );
    lemma_three_members("jsonrpc"@, JsonView::Str("2.0"@), "id"@, id, "error"@, error);
}

/// The language server is told which request is called off by a notification, which has no id of its
/// own.
pub proof fn lemma_cancellation(id: JsonView)
    ensures
        cancellation(id).get("method"@) == Some(JsonView::Str("$/cancelRequest"@)),
        cancellation(id).get2("params"@, "id"@) == Some(id),
        cancellation(id).get("jsonrpc"@) == Some(JsonView::Str("2.0"@)),
        cancellation(id).get("id"@) is None,
{
    reveal_strlit("jsonrpc");
    reveal_strlit("id");
    reveal_strlit("method");
    reveal_strlit("params");
    assert("jsonrpc"@.len() == 7 && "id"@.len() == 2 && "method"@.len() == 6);
    assert("method"@[0] == 'm' && "params"@[0] == 'p');
    let none = JsonView::empty_object();
    json::lemma_get_after_set(none, "id"@, id, "id"@);
    lemma_three_members(
        "jsonrpc"@,
        JsonView::Str("2.0"@),
        "method"@,
        JsonView::Str("$/cancelRequest"@),
        "params"@,
        none.set("id"@, id),
    );
}

/// The source of a class is asked for by its URI, in a request with the id that is given.
pub proof fn lemma_source_request(id: JsonView, uri: Seq<char>)
    ensures
        source_request(id, uri).get("id"@) == Some(id),
        source_request(id, uri).get("method"@) == Some(JsonView::Str("java/classFileContents"@)),
        source_request(id, uri).get2("params"@, "uri"@) == Some(JsonView::Str(uri)),
        source_request(id, uri).get("jsonrpc"@) == Some(JsonView::Str("2.0"@)),
{
    reveal_strlit("jsonrpc");
    reveal_strlit("id");
    reveal_strlit("method");
    reveal_strlit("params");
    assert("jsonrpc"@.len() == 7 && "id"@.len() == 2 && "method"@.len() == 6);
    assert("method"@[0] == 'm' && "params"@[0] == 'p');
    let none = JsonView::empty_object();
    let method = JsonView::Str("java/classFileContents"@);
    let params = none.set("uri"@, JsonView::Str(uri));
    json::lemma_get_after_set(none, "uri"@, JsonView::Str(uri), "uri"@);
    lemma_three_members("jsonrpc"@, JsonView::Str("2.0"@), "id"@, id, "method"@, method);
    let start = none.set("jsonrpc"@, JsonView::Str("2.0"@)).set("id"@, id).set("method"@, method);
    json::lemma_get_after_set(start, "params"@, params, "id"@);
    json::lemma_get_after_set(start, "params"@, params, "method"@);
    json::lemma_get_after_set(start, "params"@, params, "jsonrpc"@);
}

/// The source of a class is the result of the answer, where that is a text and not empty; an error is
/// none.
pub proof fn lemma_source_in(response: JsonView, source: Seq<char>)
    ensures
        source_in(response) == Some(source) <==> source.len() > 0 && response.get("result"@)
            == Some(JsonView::Str(source)),
{
}

/// An answer may be held back half a second where it shows documentation, a second where it lists
/// symbols of the workspace, and two seconds otherwise.
pub proof fn lemma_timeouts(method: Seq<char>)
    ensures
        documentation_methods().contains(method) ==> timeout_for(method) == 500,
        method == "workspace/symbol"@ ==> timeout_for(method) == 1000,
        !documentation_methods().contains(method) && method != "workspace/symbol"@ ==> timeout_for(
            method,
        ) == 2000,
{
    let others = documentation_methods();
    assert(others[0] == "textDocument/hover"@ && others[1] == "textDocument/signatureHelp"@
        && others[2] == "completionItem/resolve"@);
    assert(location_methods()[11] == "workspace/symbol"@);
    lemma_methods_differ(method);
    if method == "workspace/symbol"@ {
        assert(location_methods().contains(method));
        assert(!others.contains(method));
        assert(others[0] != method && others[1] != method && others[2] != method);
    }
}

} // verus!
