//! The connection to the Gradle task server: requests and answers as JSON-RPC messages, which carry
//! encoded protobuf messages in base64.

use crate::codec;
use crate::json::{Json, JsonView};
use crate::json;
use crate::lsp;
use crate::lsp_proxy::completions;
use crate::lsp_proxy::requests;
use crate::table::{Held, Table};
use crate::table;
use crate::text;
use vstd::prelude::*;
use vstd::string::*;

verus! {

/// Why a request failed.
#[derive(Debug)]
pub struct RpcError {
    pub code: Option<i64>,
    pub message: String,
    pub data: Option<Json>,
    /// The connection failed, not the request.
    pub connection: bool,
}

/// What an `RpcError` holds.
pub struct RpcErrorView {
    pub code: Option<i64>,
    pub message: Seq<char>,
    pub data: Option<JsonView>,
    pub connection: bool,
}

impl View for RpcError {
    type V = RpcErrorView;

    open spec fn view(&self) -> RpcErrorView {
        RpcErrorView {
            code: self.code,
            message: self.message@,
            data: requests::optional(self.data),
            connection: self.connection,
        }
    }
}

/// The connection failed, and `message` says how.
pub open spec fn connection_error(message: Seq<char>) -> RpcErrorView {
    RpcErrorView { code: None, message, data: None, connection: true }
}

impl RpcError {
    /// The connection failed, and `message` says how.
    pub fn connection(message: String) -> (r: Self)
        ensures
            r@ == connection_error(message@),
    {
        RpcError { code: None, message, data: None, connection: true }
    }

    /// Whether the connection failed, not the request.
    pub fn is_connection(&self) -> (r: bool)
        ensures
            r == self@.connection,
    {
        self.connection
    }
}

/// What the member `error` of an answer says.
pub open spec fn error_of(error: JsonView) -> RpcErrorView {
    RpcErrorView {
        code: match error.get("code"@) {
            Some(code) => code.as_i64(),
            None => None,
        },
        message: match completions::text_at(error, "message"@) {
            Some(message) => message,
            None => "Gradle JSON-RPC request failed"@,
        },
        data: error.get("data"@),
        connection: false,
    }
}

/// What the member `error` of an answer says.
pub fn parse_rpc_error(error: &Json) -> (r: RpcError)
    ensures
        r@ == error_of(error@),
{
    RpcError {
        code: match error.get("code") {
            Some(code) => code.as_i64(),
            None => None,
        },
        message: match error.get("message") {
            Some(Json::Str(message)) => message.clone(),
            _ => "Gradle JSON-RPC request failed".to_owned(),
        },
        data: match error.get("data") {
            Some(data) => Some(data.clone()),
            None => None,
        },
        connection: false,
    }
}

/// `n` in decimal, with a sign where it is negative.
pub open spec fn signed_decimal(n: i64) -> Seq<char> {
    if n < 0 {
        seq!['-'] + text::decimal((-n) as nat)
    } else {
        text::decimal(n as nat)
    }
}

fn signed_text(n: i64) -> (r: String)
    ensures
        r@ == signed_decimal(n),
{
    let mut r: Vec<char> = Vec::new();
    if n < 0 {
        r.push('-');
        let size: u64 = if n == i64::MIN {
            9223372036854775808
        } else {
            (-n) as u64
        };
        text::push_all(&mut r, &text::decimal_chars(size));
    } else {
        text::push_all(&mut r, &text::decimal_chars(n as u64));
        assert(r@ =~= signed_decimal(n));
    }
    text::string_of(&r)
}

/// The error as it is shown: its message, followed by its code and its data where it has them.
pub open spec fn error_text(error: RpcErrorView) -> Seq<char> {
    match error.code {
        Some(code) => {
            let head = error.message + " ("@ + signed_decimal(code) + ")"@;
            match error.data {
                Some(data) => head + ": "@ + json::json_text(data),
                None => head,
            }
        },
        None => error.message,
    }
}

/// The error as it is shown: its message, followed by its code and its data where it has them.
pub fn rpc_error_message(error: &RpcError) -> (r: String)
    ensures
        r@ == error_text(error@),
{
    let mut r = error.message.clone();
    if let Some(code) = error.code {
        r.append(" (");
        r.append(signed_text(code).as_str());
        r.append(")");
        if let Some(data) = &error.data {
            r.append(": ");
            r.append(data.to_text().as_str());
        }
    }
    r
}

/// The connection to the task server: the requests that are not answered yet, each with whoever
/// waits for its answer, and the streams of replies, each with whoever takes them.
pub struct GradleJsonRpcClient<P, T> {
    pub pending: Table<u64, Held<P>>,
    pub streams: Table<u64, Held<T>>,
    pub next_request_id: u64,
    pub next_stream_id: u64,
    pub closed: bool,
}

/// What an `GradleJsonRpcClient` holds.
#[verifier::ext_equal]
pub struct ClientView<P, T> {
    pub pending: Map<u64, P>,
    pub streams: Map<u64, T>,
    pub next_request_id: u64,
    pub next_stream_id: u64,
    pub closed: bool,
}

impl<P, T> View for GradleJsonRpcClient<P, T> {
    type V = ClientView<P, T>;

    open spec fn view(&self) -> ClientView<P, T> {
        ClientView {
            pending: self.pending@,
            streams: self.streams@,
            next_request_id: self.next_request_id,
            next_stream_id: self.next_stream_id,
            closed: self.closed,
        }
    }
}

/// The request `method` with the id `id`, which carries `request` and names the stream for its
/// replies.
pub open spec fn request_message(
    id: u64,
    method: Seq<char>,
    request: Seq<u8>,
    stream_id: Option<u64>,
) -> JsonView {
    JsonView::empty_object().set("jsonrpc"@, JsonView::Str("2.0"@)).set(
        "id"@,
        JsonView::Int(id as int),
    ).set("method"@, JsonView::Str(method)).set(
        "params"@,
        JsonView::empty_object().set(
            "request"@,
            JsonView::Str(codec::base64_text(request)),
        ).set(
            "streamId"@,
            match stream_id {
                Some(stream_id) => JsonView::Int(stream_id as int),
                None => JsonView::Null,
            },
        ),
    )
}

/// What to do with a message of the task server.
pub enum ReadStep<P> {
    /// Nothing.
    Skip,
    /// Close the connection, for this reason.
    Close(String),
    /// Hand the parameters of a reply on to the stream that they name.
    Stream(Json),
    /// Hand the answer on to whoever waits for it.
    Answer(P, Result<Json, RpcError>),
}

/// What a `ReadStep` holds.
pub enum ReadStepView<P> {
    Skip,
    Close(Seq<char>),
    Stream(JsonView),
    Answer(P, Result<JsonView, RpcErrorView>),
}

/// What an answer holds.
pub open spec fn answer_view(answer: Result<Json, RpcError>) -> Result<JsonView, RpcErrorView> {
    match answer {
        Ok(result) => Ok(result@),
        Err(error) => Err(error@),
    }
}

impl<P> View for ReadStep<P> {
    type V = ReadStepView<P>;

    open spec fn view(&self) -> ReadStepView<P> {
        match self {
            ReadStep::Skip => ReadStepView::Skip,
            ReadStep::Close(reason) => ReadStepView::Close(reason@),
            ReadStep::Stream(params) => ReadStepView::Stream(params@),
            ReadStep::Answer(sender, answer) => ReadStepView::Answer(
                *sender,
                answer_view(*answer),
            ),
        }
    }
}

impl<P, T> ClientView<P, T> {
    /// What to do with the answer `message`.
    pub open spec fn answer_step(self, message: JsonView) -> ReadStepView<P> {
        let result = message.get("result"@);
        let error = message.get("error"@);
        if result is Some == error is Some {
            ReadStepView::Close(
                "Invalid Gradle JSON-RPC response: expected exactly one of result or error"@,
            )
        } else {
            match completions::number_at(message, "id"@) {
                Some(id) => if self.pending.contains_key(id) {
                    ReadStepView::Answer(
                        self.pending[id],
                        match error {
                            Some(error) => Err(error_of(error)),
                            None => Ok(result->Some_0),
                        },
                    )
                } else {
                    ReadStepView::Close(
                        "Invalid Gradle JSON-RPC response: unknown id "@ + text::decimal(id as nat),
                    )
                },
                None => ReadStepView::Close(
                    "Invalid Gradle JSON-RPC response: missing numeric id"@,
                ),
            }
        }
    }

    /// What to do with the message `raw`.
    pub open spec fn read_step(self, raw: Seq<u8>) -> ReadStepView<P> {
        match lsp::message_of(raw) {
            Some(message) => if completions::text_at(message, "method"@) == Some(
                "gradle/getBuild/reply"@,
            ) {
                match message.get("params"@) {
                    Some(params) => ReadStepView::Stream(params),
                    None => ReadStepView::Close("Gradle getBuild reply is missing params"@),
                }
            } else if message.get("method"@) is Some {
                ReadStepView::Skip
            } else {
                self.answer_step(message)
            },
            None => ReadStepView::Close("Invalid JSON on Gradle JSON-RPC connection"@),
        }
    }

    /// The message `raw` is read: the request that it answers is not waited for any more.
    pub open spec fn read(self, raw: Seq<u8>) -> ClientView<P, T> {
        if self.read_step(raw) is Answer {
            ClientView {
                pending: self.pending.remove(
                    completions::number_at(lsp::message_of(raw)->Some_0, "id"@)->Some_0,
                ),
                ..self
            }
        } else {
            self
        }
    }
}

fn id_text(id: u64) -> (r: String)
    ensures
        r@ == text::decimal(id as nat),
{
    text::string_of(&text::decimal_chars(id))
}

impl<P, T> GradleJsonRpcClient<P, T> {
    /// No id occurs twice.
    pub open spec fn well_formed(self) -> bool {
        self.pending.well_formed() && self.streams.well_formed()
    }

    /// A connection on which nothing has been sent.
    pub fn new() -> (r: Self)
        ensures
            r.well_formed(),
            r@ == (ClientView::<P, T> {
                pending: Map::empty(),
                streams: Map::empty(),
                next_request_id: 1,
                next_stream_id: 1,
                closed: false,
            }),
    {
        GradleJsonRpcClient {
            pending: Table::new(),
            streams: Table::new(),
            next_request_id: 1,
            next_stream_id: 1,
            closed: false,
        }
    }

    /// Whether the connection is closed.
    pub fn is_closed(&self) -> (r: bool)
        ensures
            r == self@.closed,
    {
        self.closed
    }

    /// Notes that `receiver` takes the replies of a new stream, and hands out its id. To be done
    /// before the request is sent, so that no reply can come first.
    pub fn register_get_build_stream(&mut self, receiver: T) -> (r: u64)
        requires
            old(self).well_formed(),
        ensures
            final(self).well_formed(),
            r == old(self)@.next_stream_id,
            final(self)@ == (ClientView {
                streams: old(self)@.streams.insert(r, receiver),
                next_stream_id: old(self)@.next_stream_id.wrapping_add(1),
                ..old(self)@
            }),
    {
        let ghost before = self@;
        let id = self.next_stream_id;
        self.next_stream_id = self.next_stream_id.wrapping_add(1);
        self.streams.insert(id, Held { value: receiver });
        id
    }

    /// Notes that nobody takes the replies of the stream `stream_id` any more.
    pub fn remove_get_build_stream(&mut self, stream_id: u64)
        requires
            old(self).well_formed(),
        ensures
            final(self).well_formed(),
            final(self)@ == (ClientView {
                streams: old(self)@.streams.remove(stream_id),
                ..old(self)@
            }),
    {
        self.streams.remove(&stream_id);
    }

    /// Notes that `sender` waits for the answer to the request `method` that carries `request`, and
    /// hands out the message to send. A closed connection takes no request.
    pub fn begin_request(
        &mut self,
        method: &str,
        request: &[u8],
        stream_id: Option<u64>,
        sender: P,
    ) -> (r: Result<String, RpcError>)
        requires
            old(self).well_formed(),
        ensures
            final(self).well_formed(),
            ({
                let id = old(self)@.next_request_id;
                let counted = ClientView { next_request_id: id.wrapping_add(1), ..old(self)@ };
                match r {
                    Ok(message) => !old(self)@.closed && message@ == lsp::framed(
                        json::json_text(request_message(id, method@, request@, stream_id)),
                    ) && final(self)@ == (ClientView {
                        pending: old(self)@.pending.insert(id, sender),
                        ..counted
                    }),
                    Err(error) => old(self)@.closed && error@ == connection_error(
                        "Gradle JSON-RPC connection is closed"@,
                    ) && final(self)@ == counted,
                }
            }),
    {
        let id = self.next_request_id;
        self.next_request_id = self.next_request_id.wrapping_add(1);
        let stream = match stream_id {
            Some(stream_id) => Json::Int(stream_id as i128),
            None => Json::Null,
        };
        let params = Json::empty_object().setting(
            "request",
            Json::Str(codec::base64_of(request)),
        ).setting("streamId", stream);
        let message = Json::empty_object().setting("jsonrpc", Json::string("2.0")).setting(
            "id",
            Json::Int(id as i128),
        ).setting("method", Json::string(method)).setting("params", params);
        let framed = lsp::encode_lsp(&message);
        if self.closed {
            return Err(
                RpcError::connection("Gradle JSON-RPC connection is closed".to_owned()),
            );
        }
        self.pending.insert(id, Held { value: sender });
        Ok(framed)
    }

    /// Says what to do with the message `raw` of the task server. Whatever is no reply and no
    /// answer to a request that is waited for closes the connection.
    pub fn read_message(&mut self, raw: &[u8]) -> (r: ReadStep<P>)
        requires
            old(self).well_formed(),
        ensures
            final(self).well_formed(),
            r@ == old(self)@.read_step(raw@),
            final(self)@ == old(self)@.read(raw@),
    {
        let message = match lsp::parse_lsp_content(raw) {
            Some(message) => message,
            None => {
                return ReadStep::Close("Invalid JSON on Gradle JSON-RPC connection".to_owned());
            },
        };
        let method = message.get("method");
        if let Some(Json::Str(method)) = method {
            if text::same_text(method.as_str(), "gradle/getBuild/reply") {
                return match message.get("params") {
                    Some(params) => ReadStep::Stream(params.clone()),
                    None => ReadStep::Close("Gradle getBuild reply is missing params".to_owned()),
                };
            }
        }
        if method.is_some() {
            return ReadStep::Skip;
        }
        let result = message.get("result");
        let error = message.get("error");
        if result.is_some() == error.is_some() {
            return ReadStep::Close(
                "Invalid Gradle JSON-RPC response: expected exactly one of result or error".to_owned(),
            );
        }
        let id = match message.get("id") {
            Some(id) => id.as_u64(),
            None => None,
        };
        let id = match id {
            Some(id) => id,
            None => {
                return ReadStep::Close(
                    "Invalid Gradle JSON-RPC response: missing numeric id".to_owned(),
                );
            },
        };
        let sender = match self.pending.remove(&id) {
            Some(sender) => sender,
            None => {
                let mut reason = "Invalid Gradle JSON-RPC response: unknown id ".to_owned();
                reason.append(id_text(id).as_str());
                assert(self@ =~= old(self)@);
                return ReadStep::Close(reason);
            },
        };
        match (error, result) {
            (Some(error), _) => ReadStep::Answer(sender.value, Err(parse_rpc_error(error))),
            (None, Some(result)) => ReadStep::Answer(sender.value, Ok(result.clone())),
            (None, None) => ReadStep::Skip,
        }
    }

    /// Whoever takes the replies of the stream that a reply names, and the reply itself, given what
    /// was read from the parameters of the message that carries it.
    pub fn dispatch_get_build_reply(&self, payload: Result<(u64, String), String>) -> (r: Result<
        (Option<&T>, Vec<u8>),
        String,
    >)
        requires
            self.well_formed(),
        ensures
            (match r {
                Ok((receiver, bytes)) => payload matches Ok((stream_id, encoded)) && encoded@
                    == codec::base64_text(bytes@) && (forall|other: Seq<u8>|
                    encoded@ == #[trigger] codec::base64_text(other) ==> other == bytes@) && (
                match receiver {
                    Some(receiver) => self@.streams.contains_key(stream_id)
                        && self@.streams[stream_id] == *receiver,
                    None => !self@.streams.contains_key(stream_id),
                }),
                Err(reason) => match payload {
                    Ok((_, encoded)) => (forall|bytes: Seq<u8>|
                        encoded@ != #[trigger] codec::base64_text(bytes)) && reason@
                        == "Invalid base64 Gradle getBuild reply: "@ + codec::base64_complaint(
                        encoded@,
                    ),
                    Err(error) => reason@ == "Invalid Gradle getBuild reply: "@ + error@,
                },
            }),
    {
        let (stream_id, encoded) = match payload {
            Ok(payload) => payload,
            Err(error) => {
                let mut reason = "Invalid Gradle getBuild reply: ".to_owned();
                reason.append(error.as_str());
                return Err(reason);
            },
        };
        let bytes = match codec::bytes_of_base64(encoded.as_str()) {
            Ok(bytes) => bytes,
            Err(error) => {
                let mut reason = "Invalid base64 Gradle getBuild reply: ".to_owned();
                reason.append(error.as_str());
                return Err(reason);
            },
        };
        proof {
            lemma_one_decoding(bytes@);
        }
        let receiver = match self.streams.get(&stream_id) {
            Some(receiver) => Some(&receiver.value),
            None => None,
        };
        Ok((receiver, bytes))
    }

    /// Closes the connection, and hands out all who wait for an answer. Done once: a closed
    /// connection stays as it is.
    pub fn close(&mut self) -> (r: Option<Vec<P>>)
        requires
            old(self).well_formed(),
        ensures
            final(self).well_formed(),
            (match r {
                Some(senders) => !old(self)@.closed && final(self)@ == (ClientView {
                    pending: Map::empty(),
                    streams: Map::empty(),
                    closed: true,
                    ..old(self)@
                }) && senders@.len() == old(self).pending.entries@.len() && forall|i: int|
                    0 <= i < senders@.len() ==> #[trigger] senders@[i]
                        == old(self).pending.entries@[i].1.value,
                None => old(self)@.closed && final(self)@ == old(self)@,
            }),
    {
        let ghost before = *self;
        if self.closed {
            return None;
        }
        self.closed = true;
        let mut pending: Table<u64, Held<P>> = Table::new();
        std::mem::swap(&mut pending, &mut self.pending);
        self.streams = Table::new();
        let mut senders: Vec<P> = Vec::new();
        let ghost entries = pending.entries@;
        let ghost mut taken: int = 0;
        while pending.entries.len() > 0
            invariant
                0 <= taken <= entries.len(),
                pending.entries@ == entries.take(entries.len() - taken),
                senders@.len() == taken,
                forall|i: int|
                    0 <= i < taken ==> #[trigger] senders@[i] == entries[entries.len() - taken
                        + i].1.value,
            decreases pending.entries@.len(),
        {
            let ghost earlier = senders@;
            match pending.entries.pop() {
                Some((_, sender)) => {
                    senders.insert(0, sender.value);
                    proof {
                        taken = taken + 1;
                        assert(pending.entries@ =~= entries.take(entries.len() - taken));
                        assert forall|i: int| 0 <= i < taken implies #[trigger] senders@[i]
                            == entries[entries.len() - taken + i].1.value by {
                            if i > 0 {
                                assert(senders@[i] == earlier[i - 1]);
                            }
                        }
                    }
                },
                None => {},
            }
        }
        assert(taken == entries.len());
        Some(senders)
    }
}

/// A base64 text is the form of no other bytes.
proof fn lemma_one_decoding(bytes: Seq<u8>)
    ensures
        forall|other: Seq<u8>|
            codec::base64_text(bytes) == #[trigger] codec::base64_text(other) ==> other == bytes,
{
    assert forall|other: Seq<u8>|
        codec::base64_text(bytes) == #[trigger] codec::base64_text(other) implies other == bytes by {
        codec::lemma_base64_injective(bytes, other);
    }
}

/// The reply that the answer `result` carries, given what was read from it: none where it carries
/// none. What is no base64 text closes the connection.
pub fn decode_reply(result: &Json, response: Result<Option<String>, String>) -> (r: Result<
    Option<Vec<u8>>,
    String,
>)
    ensures
        (match r {
            Ok(None) => result@ is Null || response matches Ok(None),
            Ok(Some(bytes)) => !(result@ is Null) && (response matches Ok(Some(encoded)) && encoded@
                == codec::base64_text(bytes@) && forall|other: Seq<u8>|
                encoded@ == #[trigger] codec::base64_text(other) ==> other == bytes@),
            Err(reason) => !(result@ is Null) && match response {
                Ok(Some(encoded)) => (forall|bytes: Seq<u8>|
                    encoded@ != #[trigger] codec::base64_text(bytes)) && reason@
                    == "Invalid base64 Gradle protobuf response: "@ + codec::base64_complaint(
                    encoded@,
                ),
                Ok(None) => false,
                Err(error) => reason@ == "Invalid Gradle JSON-RPC response: "@ + error@,
            },
        }),
{
    if let Json::Null = result {
        return Ok(None);
    }
    match response {
        Ok(Some(encoded)) => match codec::bytes_of_base64(encoded.as_str()) {
            Ok(bytes) => {
                proof {
                    lemma_one_decoding(bytes@);
                }
                Ok(Some(bytes))
            },
            Err(error) => {
                let mut reason = "Invalid base64 Gradle protobuf response: ".to_owned();
                reason.append(error.as_str());
                Err(reason)
            },
        },
        Ok(None) => Ok(None),
        Err(error) => {
            let mut reason = "Invalid Gradle JSON-RPC response: ".to_owned();
            reason.append(error.as_str());
            Err(reason)
        },
    }
}

/// An answer goes to whoever made the request, with its result or its error, and leaves all other
/// requests as they were; a second answer to it closes the connection.
pub proof fn lemma_answered_once<P, T>(
    client: ClientView<P, T>,
    raw: Seq<u8>,
    message: JsonView,
    id: u64,
    sender: P,
)
    requires
        lsp::message_of(raw) == Some(message),
        message.get("method"@) is None,
        completions::number_at(message, "id"@) == Some(id),
        message.get("result"@) is Some != message.get("error"@) is Some,
    ensures
        ({
            let begun = ClientView { pending: client.pending.insert(id, sender), ..client };
            &&& begun.read_step(raw) == ReadStepView::Answer(
                sender,
                match message.get("error"@) {
                    Some(error) => Err(error_of(error)),
                    None => Ok(message.get("result"@)->Some_0),
                },
            )
            &&& begun.read(raw).pending == client.pending.remove(id)
            &&& begun.read(raw).read_step(raw) is Close
        }),
{
    let begun = ClientView { pending: client.pending.insert(id, sender), ..client };
    assert(begun.read(raw).pending =~= client.pending.remove(id));
}

/// A request carries its id, its method, what is asked for in base64, and the stream for its replies,
/// where there is one.
pub proof fn lemma_request_message(
    id: u64,
    method: Seq<char>,
    request: Seq<u8>,
    stream_id: Option<u64>,
)
    ensures
        ({
            let message = request_message(id, method, request, stream_id);
            &&& message.get("jsonrpc"@) == Some(JsonView::Str("2.0"@))
            &&& message.get("id"@) == Some(JsonView::Int(id as int))
            &&& message.get("method"@) == Some(JsonView::Str(method))
            &&& message.get2("params"@, "request"@) == Some(
                JsonView::Str(codec::base64_text(request)),
            )
            &&& message.get2("params"@, "streamId"@) == Some(
                match stream_id {
                    Some(stream) => JsonView::Int(stream as int),
                    None => JsonView::Null,
                },
            )
        }),
{
    reveal_strlit("jsonrpc");
    reveal_strlit("id");
    reveal_strlit("method");
    reveal_strlit("params");
    reveal_strlit("request");
    reveal_strlit("streamId");
    assert("jsonrpc"@.len() == 7 && "id"@.len() == 2 && "method"@.len() == 6);
    assert("method"@[0] == 'm' && "params"@[0] == 'p');
    assert("request"@.len() == 7 && "streamId"@.len() == 8);
    let none = JsonView::empty_object();
    let version = JsonView::Str("2.0"@);
    let number = JsonView::Int(id as int);
    let name = JsonView::Str(method);
    let encoded = JsonView::Str(codec::base64_text(request));
    let stream = match stream_id {
        Some(stream) => JsonView::Int(stream as int),
        None => JsonView::Null,
    };
    let carried = none.set("request"@, encoded);
    let params = carried.set("streamId"@, stream);
    json::lemma_get_after_set(none, "request"@, encoded, "request"@);
    json::lemma_get_after_set(carried, "streamId"@, stream, "request"@);
    let once = none.set("jsonrpc"@, version);
    let twice = once.set("id"@, number);
    let thrice = twice.set("method"@, name);
    json::lemma_get_after_set(none, "jsonrpc"@, version, "jsonrpc"@);
    json::lemma_get_after_set(once, "id"@, number, "jsonrpc"@);
    json::lemma_get_after_set(twice, "method"@, name, "jsonrpc"@);
    json::lemma_get_after_set(thrice, "params"@, params, "jsonrpc"@);
    json::lemma_get_after_set(twice, "method"@, name, "id"@);
    json::lemma_get_after_set(thrice, "params"@, params, "id"@);
    json::lemma_get_after_set(thrice, "params"@, params, "method"@);
}

/// What the task server sends besides answers: a reply of a stream is handed on with its parameters, any
/// other notification or request is passed over, and what is no message, or an answer to no request that
/// is waited for, or one that is neither a result nor an error or both, closes the connection. None of
/// them answers a request.
pub proof fn lemma_messages_besides_answers<P, T>(client: ClientView<P, T>, raw: Seq<u8>)
    ensures
        lsp::message_of(raw) is None ==> client.read_step(raw) is Close,
        lsp::message_of(raw) matches Some(message) ==> {
            let reply = message.get("method"@) == Some(JsonView::Str("gradle/getBuild/reply"@));
            &&& reply ==> match message.get("params"@) {
                Some(params) => client.read_step(raw) == ReadStepView::<P>::Stream(params),
                None => client.read_step(raw) is Close,
            }
            &&& message.get("method"@) is Some && !reply ==> client.read_step(raw) is Skip
            &&& message.get("method"@) is None && (message.get("result"@) is Some == message.get(
                "error"@,
            ) is Some) ==> client.read_step(raw) is Close
            &&& message.get("method"@) is None && !(message.get("id"@) matches Some(
                JsonView::Int(n),
            ) && 0 <= n <= u64::MAX && client.pending.contains_key(n as u64)) ==> client.read_step(
                raw,
            ) is Close
        },
        !(client.read_step(raw) is Answer) ==> client.read(raw) == client,
{
}

/// The error of an answer is what it says: its message, its code where that is a number, and its data.
pub proof fn lemma_errors_read(error: JsonView)
    ensures
        error.get("message"@) matches Some(JsonView::Str(message)) ==> error_of(error).message
            == message,
        error.get("code"@) matches Some(JsonView::Int(n)) ==> (i64::MIN <= n <= i64::MAX
            ==> error_of(error).code == Some(n as i64)),
        error.get("code"@) is None ==> error_of(error).code is None,
        error_of(error).data == error.get("data"@),
        !error_of(error).connection,
{
}

/// An error is shown with its message first; with its code in parentheses, where it has one; and then
/// with its data, where it has any. What went wrong with the connection has neither.
pub proof fn lemma_errors_shown(error: RpcErrorView, message: Seq<char>)
    ensures
        error.message.is_prefix_of(error_text(error)),
        error.code is None ==> error_text(error) == error.message,
        error.code matches Some(code) ==> {
            let size = text::decimal(
                if code < 0 {
                    (-code) as nat
                } else {
                    code as nat
                },
            );
            let number = if code < 0 {
                seq!['-'] + size
            } else {
                size
            };
            let head = error.message + seq![' ', '('] + number + seq![')'];
            &&& error.data is None ==> error_text(error) == head
            &&& error.data matches Some(data) ==> error_text(error) == head + seq![':', ' ']
                + json::json_text(data)
        },
        connection_error(message).connection && error_text(connection_error(message)) == message,
{
    reveal_strlit(" (");
    reveal_strlit(")");
    reveal_strlit(": ");
    assert(" ("@ =~= seq![' ', '('] && ")"@ =~= seq![')'] && ": "@ =~= seq![':', ' ']);
    assert(error_text(error).take(error.message.len() as int) =~= error.message);
}

/// Why a connection is closed says what was wrong with the message.
pub proof fn lemma_reasons_to_close<P, T>(client: ClientView<P, T>, raw: Seq<u8>)
    ensures
        lsp::message_of(raw) is None ==> client.read_step(raw) == ReadStepView::<P>::Close(
            "Invalid JSON on Gradle JSON-RPC connection"@,
        ),
        lsp::message_of(raw) matches Some(message) ==> {
            let answer = message.get("method"@) is None;
            let whole = message.get("result"@) is Some != message.get("error"@) is Some;
            &&& message.get("method"@) == Some(JsonView::Str("gradle/getBuild/reply"@))
                && message.get("params"@) is None ==> client.read_step(raw) == ReadStepView::<
                P,
            >::Close("Gradle getBuild reply is missing params"@)
            &&& answer && !whole ==> client.read_step(raw) == ReadStepView::<P>::Close(
                "Invalid Gradle JSON-RPC response: expected exactly one of result or error"@,
            )
            &&& answer && whole && message.get("id"@) is None ==> client.read_step(raw)
                == ReadStepView::<P>::Close("Invalid Gradle JSON-RPC response: missing numeric id"@)
            &&& answer && whole ==> (message.get("id"@) matches Some(JsonView::Int(n)) ==> (0 <= n
                <= u64::MAX && !client.pending.contains_key(n as u64) ==> client.read_step(raw)
                == ReadStepView::<P>::Close(
                "Invalid Gradle JSON-RPC response: unknown id "@ + text::decimal(n as nat),
            )))
        },
{
}

} // verus!
