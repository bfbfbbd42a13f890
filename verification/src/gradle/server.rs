//! What is asked of the Gradle task server, and what becomes of its replies.

use crate::environment;
use crate::gradle::model::GradleProject;
use crate::gradle::rpc::RpcError;
use crate::gradle::rpc;
use crate::path;
use crate::text;
use vstd::prelude::*;
use vstd::string::*;

verus! {

broadcast use text::lemma_texts_push;

/// The text that `bytes` hold, with replacement characters where they hold none.
pub uninterp spec fn lossy_text(bytes: Seq<u8>) -> Seq<char>;

/// `String::from_utf8_lossy`: the text that `bytes` hold, where they are UTF-8, and otherwise the
/// same with replacement characters in place of what is not, under the name `lossy_text`.
#[verifier::external_body]
fn text_of_bytes(bytes: &[u8]) -> (r: String)
    ensures
        r@ == lossy_text(bytes@),
        vstd::utf8::valid_utf8(bytes@) ==> r@ == vstd::utf8::decode_utf8(bytes@),
{
    String::from_utf8_lossy(bytes).into_owned()
}

/// How Gradle is run.
#[derive(Debug, Default)]
pub struct DistributionConfig {
    pub gradle_user_home: String,
    pub gradle_home: String,
    pub version: String,
    pub jvm_arguments: String,
    pub java_home: String,
    pub wrapper_enabled: bool,
}

impl Clone for DistributionConfig {
    fn clone(&self) -> (r: Self)
        ensures
            r == *self,
    {
        DistributionConfig {
            gradle_user_home: self.gradle_user_home.clone(),
            gradle_home: self.gradle_home.clone(),
            version: self.version.clone(),
            jvm_arguments: self.jvm_arguments.clone(),
            java_home: self.java_home.clone(),
            wrapper_enabled: self.wrapper_enabled,
        }
    }
}

/// How Gradle is run, as the task server is told.
#[derive(Debug)]
pub struct GradleConfig {
    pub gradle_home: String,
    pub user_home: String,
    pub jvm_arguments: String,
    pub wrapper_enabled: bool,
    pub version: String,
    pub java_extension_version: String,
    pub java_home: String,
}

/// `a` and `b` are the same letter, in either case.
pub open spec fn same_letter(a: char, b: char) -> bool {
    a == b || ('A' <= a <= 'Z' && b as u32 == a as u32 + 32) || ('A' <= b <= 'Z' && a as u32
        == b as u32 + 32)
}

/// `a` and `b` are the same text but for the case of their letters.
pub open spec fn same_but_case(a: Seq<char>, b: Seq<char>) -> bool {
    a.len() == b.len() && forall|i: int| 0 <= i < a.len() ==> same_letter(#[trigger] a[i], b[i])
}

/// Whether `a` and `b` are the same text but for the case of their letters.
pub fn equal_but_case(a: &str, b: &str) -> (r: bool)
    ensures
        r == same_but_case(a@, b@),
{
    let left = text::chars_of(a);
    let right = text::chars_of(b);
    if left.len() != right.len() {
        return false;
    }
    let mut i: usize = 0;
    while i < left.len()
        invariant
            i <= left@.len() == right@.len(),
            left@ == a@,
            right@ == b@,
            forall|j: int| 0 <= j < i ==> same_letter(#[trigger] left@[j], right@[j]),
        decreases left@.len() - i,
    {
        let x = left[i];
        let y = right[i];
        let same = x == y || ('A' <= x && x <= 'Z' && y as u32 == x as u32 + 32) || ('A' <= y && y
            <= 'Z' && x as u32 == y as u32 + 32);
        if !same {
            assert(!same_letter(a@[i as int], b@[i as int]));
            return false;
        }
        i += 1;
    }
    true
}

impl DistributionConfig {
    /// What the environment says of how Gradle is run.
    pub fn from_env(environment: &Vec<(String, String)>) -> (r: Self)
        ensures
            ({
                let all = environment::variables(environment@);
                &&& r.gradle_user_home@ == environment::value_or_empty(
                    all,
                    "GRADLE_SYNC_USER_HOME"@,
                )
                &&& r.gradle_home@ == environment::value_or_empty(all, "GRADLE_SYNC_GRADLE_HOME"@)
                &&& r.version@ == environment::value_or_empty(all, "GRADLE_SYNC_VERSION"@)
                &&& r.jvm_arguments@ == environment::value_or_empty(all, "GRADLE_SYNC_JVM_ARGS"@)
                &&& r.java_home@ == environment::value_or_empty(all, "GRADLE_SYNC_JAVA_HOME"@)
                &&& r.wrapper_enabled == match environment::value_of(
                    all,
                    "GRADLE_SYNC_WRAPPER_ENABLED"@,
                ) {
                    Some(value) => !same_but_case(value, "false"@),
                    None => true,
                }
            }),
    {
        let wrapper_enabled = match environment::variable(
            environment,
            "GRADLE_SYNC_WRAPPER_ENABLED",
        ) {
            Some(value) => !equal_but_case(value.as_str(), "false"),
            None => true,
        };
        DistributionConfig {
            gradle_user_home: environment::variable_or_empty(environment, "GRADLE_SYNC_USER_HOME"),
            gradle_home: environment::variable_or_empty(environment, "GRADLE_SYNC_GRADLE_HOME"),
            version: environment::variable_or_empty(environment, "GRADLE_SYNC_VERSION"),
            jvm_arguments: environment::variable_or_empty(environment, "GRADLE_SYNC_JVM_ARGS"),
            java_home: environment::variable_or_empty(environment, "GRADLE_SYNC_JAVA_HOME"),
            wrapper_enabled,
        }
    }

    /// What the task server is told of how Gradle is run.
    pub fn to_gradle_config(&self) -> (r: GradleConfig)
        ensures
            r.gradle_home@ == self.gradle_home@,
            r.user_home@ == self.gradle_user_home@,
            r.jvm_arguments@ == self.jvm_arguments@,
            r.wrapper_enabled == self.wrapper_enabled,
            r.version@ == self.version@,
            r.java_extension_version@ == "3.18.0"@,
            r.java_home@ == self.java_home@,
    {
        GradleConfig {
            gradle_home: self.gradle_home.clone(),
            user_home: self.gradle_user_home.clone(),
            jvm_arguments: self.jvm_arguments.clone(),
            wrapper_enabled: self.wrapper_enabled,
            version: self.version.clone(),
            java_extension_version: "3.18.0".to_owned(),
            java_home: self.java_home.clone(),
        }
    }
}

/// A reply to a request for the build model.
pub enum BuildReply {
    /// The build model, where the server could make it.
    Model(Option<GradleProject>),
    /// Gradle and Java do not go together.
    CompatibilityError(String),
    /// What the build wrote, on its error stream or not.
    Output { stderr: bool, bytes: Vec<u8> },
    /// The build was called off.
    Cancelled,
    /// Anything else.
    Other,
}

/// What has come of a build so far.
#[derive(Debug, Default)]
pub struct ReplyState {
    pub model: Option<GradleProject>,
    pub stderr: String,
    pub compatibility_error: Option<String>,
    pub cancelled: bool,
}

/// What a `ReplyState` holds.
pub struct ReplyView {
    pub model: Option<GradleProject>,
    pub stderr: Seq<char>,
    pub compatibility_error: Option<Seq<char>>,
    pub cancelled: bool,
}

impl View for ReplyState {
    type V = ReplyView;

    open spec fn view(&self) -> ReplyView {
        ReplyView {
            model: self.model,
            stderr: self.stderr@,
            compatibility_error: text::optional(self.compatibility_error),
            cancelled: self.cancelled,
        }
    }
}

/// What a build wrote as `bytes`: the text that they hold, or, where they hold none, the same with
/// replacement characters.
pub open spec fn output_text(bytes: Seq<u8>) -> Seq<char> {
    if vstd::utf8::valid_utf8(bytes) {
        vstd::utf8::decode_utf8(bytes)
    } else {
        lossy_text(bytes)
    }
}

impl ReplyView {
    /// `reply` has come.
    pub open spec fn applied(self, reply: BuildReply) -> ReplyView {
        match reply {
            BuildReply::Model(model) => ReplyView { model, ..self },
            BuildReply::CompatibilityError(error) => ReplyView {
                compatibility_error: Some(error@),
                ..self
            },
            BuildReply::Output { stderr, bytes } => if stderr {
                ReplyView { stderr: self.stderr + output_text(bytes@), ..self }
            } else {
                self
            },
            BuildReply::Cancelled => ReplyView { cancelled: true, ..self },
            BuildReply::Other => self,
        }
    }
}

impl ReplyState {
    /// Nothing has come yet.
    pub fn new() -> (r: Self)
        ensures
            r@ == (ReplyView {
                model: None,
                stderr: Seq::empty(),
                compatibility_error: None,
                cancelled: false,
            }),
    {
        ReplyState { model: None, stderr: String::new(), compatibility_error: None, cancelled: false }
    }

    /// Takes note of a reply, or of why it could not be read.
    pub fn apply_payload(&mut self, payload: Result<BuildReply, String>) -> (r: Result<(), String>)
        ensures
            (match (payload, r) {
                (Ok(reply), Ok(())) => final(self)@ == old(self)@.applied(reply),
                (Err(error), Err(reason)) => final(self)@ == old(self)@ && reason@ == error@,
                _ => false,
            }),
            payload matches Ok(BuildReply::Output { stderr, bytes }) ==> (stderr
                && vstd::utf8::valid_utf8(bytes@) ==> final(self)@.stderr == old(self)@.stderr
                + vstd::utf8::decode_utf8(bytes@)),
    {
        let reply = match payload {
            Ok(reply) => reply,
            Err(error) => return Err(error),
        };
        match reply {
            BuildReply::Model(model) => {
                self.model = model;
            },
            BuildReply::CompatibilityError(error) => {
                self.compatibility_error = Some(error);
            },
            BuildReply::Output { stderr, bytes } => {
                if stderr {
                    self.stderr.append(text_of_bytes(&bytes).as_str());
                }
            },
            BuildReply::Cancelled => {
                self.cancelled = true;
            },
            BuildReply::Other => {},
        }
        Ok(())
    }
}

/// Those of the first `n` of `lines` that hold more than white space, without white space at their
/// ends.
pub open spec fn full_lines(lines: Seq<Seq<char>>, n: int) -> Seq<Seq<char>>
    decreases n,
{
    if n <= 0 || n > lines.len() {
        Seq::empty()
    } else {
        let line = text::trim_end(lines[n - 1]);
        if line.len() > 0 {
            full_lines(lines, n - 1).push(line)
        } else {
            full_lines(lines, n - 1)
        }
    }
}

/// The lines of `stderr` that say something.
pub open spec fn causes(stderr: Seq<char>) -> Seq<Seq<char>> {
    let lines = text::split(text::trim(stderr), '\n');
    full_lines(lines, lines.len() as int)
}

/// The lines of `stderr` that say something.
pub fn stderr_causes(stderr: &str) -> (r: Vec<String>)
    ensures
        text::texts(r@) == causes(stderr@),
{
    let chars = text::chars_of(stderr);
    let lines = text::split_text(text::trimmed(&chars), '\n');
    let ghost all = text::char_texts(lines@);
    let mut r: Vec<String> = Vec::new();
    let mut i: usize = 0;
    assert(text::texts(r@) =~= Seq::empty());
    while i < lines.len()
        invariant
            i <= lines@.len(),
            all == text::char_texts(lines@),
            text::texts(r@) == full_lines(all, i as int),
        decreases lines@.len() - i,
    {
        let line = text::without_trailing_space(&lines[i]);
        if line.len() > 0 {
            r.push(text::string_of(line));
        }
        i += 1;
    }
    r
}

/// What came of a request for the build model.
pub enum BuildOutcome {
    Model(GradleProject),
    Cancelled,
    TransportError(String),
    Error { error: String, causes: Vec<String> },
}

/// What a `BuildOutcome` holds.
pub enum OutcomeView {
    Model(GradleProject),
    Cancelled,
    TransportError(Seq<char>),
    Error { error: Seq<char>, causes: Seq<Seq<char>> },
}

impl View for BuildOutcome {
    type V = OutcomeView;

    open spec fn view(&self) -> OutcomeView {
        match self {
            BuildOutcome::Model(model) => OutcomeView::Model(*model),
            BuildOutcome::Cancelled => OutcomeView::Cancelled,
            BuildOutcome::TransportError(error) => OutcomeView::TransportError(error@),
            BuildOutcome::Error { error, causes } => OutcomeView::Error {
                error: error@,
                causes: text::texts(causes@),
            },
        }
    }
}

/// How the answer to a request for the build model ended it: with a last reply, without one, or
/// with an error.
pub type Terminal = Result<Option<Result<BuildReply, String>>, RpcError>;

/// What has happened to a request for the build model.
pub enum BuildEvent {
    /// A reply has come on the stream.
    Payload(Result<BuildReply, String>),
    /// There is no further reply on the stream.
    StreamEnd,
    /// The answer has come.
    Answer(Terminal),
}

/// What to do next for a request for the build model.
#[derive(Clone, Copy, Debug, PartialEq, Eq, Structural)]
pub enum BuildAction {
    /// Wait for a reply or the answer.
    Receive,
    /// Wait for the answer.
    AwaitAnswer,
    /// Take the replies that are there.
    Drain,
    /// Ask for the outcome.
    Finish,
}

/// How far a request for the build model has come.
pub struct BuildCall {
    pub state: ReplyState,
    pub action: BuildAction,
    pub answer: Option<Terminal>,
    pub protocol_error: Option<String>,
}

/// What a `BuildCall` holds.
pub struct BuildView {
    pub state: ReplyView,
    pub action: BuildAction,
    pub answer: Option<Terminal>,
    pub protocol_error: Option<Seq<char>>,
}

impl View for BuildCall {
    type V = BuildView;

    open spec fn view(&self) -> BuildView {
        BuildView {
            state: self.state@,
            action: self.action,
            answer: self.answer,
            protocol_error: text::optional(self.protocol_error),
        }
    }
}

/// Why the connection is closed when a reply cannot be read.
pub open spec fn unreadable(error: Seq<char>) -> Seq<char> {
    "Invalid Gradle getBuild protobuf reply: "@ + error
}

impl BuildView {
    /// A reply has come, or what could not be read as one, which ends the request.
    pub open spec fn received(self, payload: Result<BuildReply, String>) -> BuildView {
        match payload {
            Ok(reply) => BuildView { state: self.state.applied(reply), ..self },
            Err(error) => BuildView {
                action: BuildAction::Finish,
                protocol_error: Some(unreadable(error@)),
                ..self
            },
        }
    }

    /// `event` has happened.
    pub open spec fn stepped(self, event: BuildEvent) -> BuildView {
        match event {
            BuildEvent::Payload(payload) => if self.action == BuildAction::Finish {
                self
            } else {
                self.received(payload)
            },
            BuildEvent::StreamEnd => match self.action {
                BuildAction::Receive => BuildView { action: BuildAction::AwaitAnswer, ..self },
                BuildAction::Drain => {
                    let last = match self.answer {
                        Some(Ok(Some(payload))) => self.received(payload),
                        _ => self,
                    };
                    BuildView { action: BuildAction::Finish, ..last }
                },
                _ => self,
            },
            BuildEvent::Answer(answer) => match self.action {
                BuildAction::Receive => BuildView {
                    action: BuildAction::Drain,
                    answer: Some(answer),
                    ..self
                },
                BuildAction::AwaitAnswer => BuildView {
                    action: BuildAction::Drain,
                    answer: Some(answer),
                    ..self
                },
                _ => self,
            },
        }
    }

    /// What came of the request: a reply that could not be read or a failed connection is an error
    /// of the transport, and a word that Gradle and Java do not go together comes before any other
    /// error.
    pub open spec fn outcome(self) -> OutcomeView {
        match self.protocol_error {
            Some(error) => OutcomeView::TransportError(error),
            None => match (self.answer, self.state.compatibility_error) {
                (Some(Err(_)), Some(error)) => OutcomeView::Error {
                    error,
                    causes: causes(self.state.stderr),
                },
                (Some(Err(error)), None) => if error@.connection {
                    OutcomeView::TransportError(rpc::error_text(error@))
                } else {
                    OutcomeView::Error {
                        error: rpc::error_text(error@),
                        causes: causes(self.state.stderr),
                    }
                },
                (_, compatibility_error) => if self.state.cancelled {
                    OutcomeView::Cancelled
                } else {
                    match (compatibility_error, self.state.model) {
                        (Some(error), _) => OutcomeView::Error {
                            error,
                            causes: causes(self.state.stderr),
                        },
                        (None, Some(model)) => OutcomeView::Model(model),
                        (None, None) => OutcomeView::Error {
                            error: "gradle-server returned no build model"@,
                            causes: causes(self.state.stderr),
                        },
                    }
                },
            },
        }
    }
}

impl BuildCall {
    /// A request for the build model that was just made.
    pub fn new() -> (r: Self)
        ensures
            r@ == (BuildView {
                state: ReplyView {
                    model: None,
                    stderr: Seq::empty(),
                    compatibility_error: None,
                    cancelled: false,
                },
                action: BuildAction::Receive,
                answer: None,
                protocol_error: None,
            }),
    {
        BuildCall {
            state: ReplyState::new(),
            action: BuildAction::Receive,
            answer: None,
            protocol_error: None,
        }
    }

    fn receive(&mut self, payload: Result<BuildReply, String>)
        ensures
            final(self)@ == old(self)@.received(payload),
    {
        if let Err(error) = self.state.apply_payload(payload) {
            let mut reason = "Invalid Gradle getBuild protobuf reply: ".to_owned();
            reason.append(error.as_str());
            self.protocol_error = Some(reason);
            self.action = BuildAction::Finish;
        }
    }

    /// Takes note of what has happened, and says what to do next.
    pub fn step(&mut self, event: BuildEvent) -> (r: BuildAction)
        ensures
            ({
                let after = old(self)@.stepped(event);
                &&& final(self)@.state == after.state
                &&& final(self)@.action == after.action
                &&& final(self)@.protocol_error == after.protocol_error
                &&& r == after.action
                &&& r != BuildAction::Finish ==> final(self)@.answer == after.answer
                &&& final(self)@.outcome() == after.outcome()
            }),
    {
        match event {
            BuildEvent::Payload(payload) => match self.action {
                BuildAction::Finish => {},
                _ => self.receive(payload),
            },
            BuildEvent::StreamEnd => match self.action {
                BuildAction::Receive => {
                    self.action = BuildAction::AwaitAnswer;
                },
                BuildAction::Drain => {
                    let answer = self.answer.take();
                    match answer {
                        Some(Ok(Some(payload))) => {
                            self.receive(payload);
                            self.answer = Some(Ok(None));
                        },
                        other => {
                            self.answer = other;
                        },
                    }
                    self.action = BuildAction::Finish;
                },
                _ => {},
            },
            BuildEvent::Answer(answer) => match self.action {
                BuildAction::Receive => {
                    self.answer = Some(answer);
                    self.action = BuildAction::Drain;
                },
                BuildAction::AwaitAnswer => {
                    self.answer = Some(answer);
                    self.action = BuildAction::Drain;
                },
                _ => {},
            },
        }
        self.action
    }

    /// What came of the request, and why the connection is to be closed where it is.
    pub fn finish(self) -> (r: (BuildOutcome, Option<String>))
        ensures
            r.0@ == self@.outcome(),
            text::optional(r.1) == self@.protocol_error,
    {
        if let Some(error) = self.protocol_error {
            return (BuildOutcome::TransportError(error.clone()), Some(error));
        }
        if let Some(Err(error)) = self.answer {
            if let Some(incompatible) = self.state.compatibility_error {
                let causes = stderr_causes(self.state.stderr.as_str());
                return (BuildOutcome::Error { error: incompatible, causes }, None);
            }
            let message = rpc::rpc_error_message(&error);
            if error.is_connection() {
                return (BuildOutcome::TransportError(message), None);
            }
            let causes = stderr_causes(self.state.stderr.as_str());
            return (BuildOutcome::Error { error: message, causes }, None);
        }
        if self.state.cancelled {
            return (BuildOutcome::Cancelled, None);
        }
        if let Some(error) = self.state.compatibility_error {
            let causes = stderr_causes(self.state.stderr.as_str());
            return (BuildOutcome::Error { error, causes }, None);
        }
        match self.state.model {
            Some(model) => (BuildOutcome::Model(model), None),
            None => (
                BuildOutcome::Error {
                    error: "gradle-server returned no build model".to_owned(),
                    causes: stderr_causes(self.state.stderr.as_str()),
                },
                None,
            ),
        }
    }
}

/// What a build writes to its error stream is kept as it is, piece after piece, where it is UTF-8,
/// however far the request for the build model has come before its end.
pub proof fn lemma_error_output_kept(call: BuildView, bytes: Vec<u8>)
    requires
        call.action != BuildAction::Finish,
        vstd::utf8::valid_utf8(bytes@),
    ensures
        call.stepped(BuildEvent::Payload(Ok(BuildReply::Output { stderr: true, bytes }))) == (
        BuildView {
            state: ReplyView {
                stderr: call.state.stderr + vstd::utf8::decode_utf8(bytes@),
                ..call.state
            },
            ..call
        }),
{
}

/// A word that Gradle and Java do not go together comes before the error with which the request
/// ended.
pub proof fn lemma_compatibility_first(call: BuildView, error: Seq<char>, failure: RpcError)
    requires
        call.protocol_error is None,
        call.state.compatibility_error == Some(error),
        call.answer == Some(Err::<Option<Result<BuildReply, String>>, RpcError>(failure)),
    ensures
        call.outcome() == (OutcomeView::Error { error, causes: causes(call.state.stderr) }),
{
}

/// A build that was called off is not taken for one without a model.
pub proof fn lemma_cancelled_is_no_error(call: BuildView)
    requires
        call.protocol_error is None,
        !(call.answer matches Some(Err(_))),
    ensures
        call.outcome() is Cancelled == call.state.cancelled,
{
}

/// How many times a build is asked to be called off.
pub const CANCEL_ATTEMPTS: u32 = 20;

/// How long to wait between two attempts to call a build off, in milliseconds.
pub const CANCEL_DELAY: u64 = 25;

/// What to do after an attempt to call a build off.
pub enum CancelStep {
    Stop,
    /// Close the connection, for this reason.
    Close(String),
    /// Wait, then try again.
    Retry,
}

/// What to do after the attempt number `attempt`, counted from zero, to call a build off, given the
/// reply to it, where there was one: whether a build was running, or why the reply could not be
/// read. A build that does not run yet may still begin.
pub fn cancel_step(attempt: u32, reply: Option<Result<bool, String>>) -> (r: CancelStep)
    ensures
        (match r {
            CancelStep::Stop => reply is None || reply matches Some(Ok(true)) || (reply
                matches Some(Ok(false)) && attempt + 1 >= CANCEL_ATTEMPTS),
            CancelStep::Close(reason) => reply matches Some(Err(error)) && reason@
                == "Invalid Gradle cancelBuild protobuf response: "@ + error@,
            CancelStep::Retry => reply matches Some(Ok(false)) && attempt + 1 < CANCEL_ATTEMPTS,
        }),
{
    match reply {
        None => CancelStep::Stop,
        Some(Err(error)) => {
            let mut reason = "Invalid Gradle cancelBuild protobuf response: ".to_owned();
            reason.append(error.as_str());
            CancelStep::Close(reason)
        },
        Some(Ok(running)) => if running || attempt >= CANCEL_ATTEMPTS - 1 {
            CancelStep::Stop
        } else {
            CancelStep::Retry
        },
    }
}

/// The connection to the task server that is in use, with its generation.
pub struct Connections<C> {
    pub current: Option<(u64, C)>,
    pub next_generation: u64,
}

impl<C> Connections<C> {
    /// No connection yet.
    pub fn new() -> (r: Self)
        ensures
            r.current is None,
            r.next_generation == 1,
    {
        Connections { current: None, next_generation: 1 }
    }

    /// Puts `client` in use, and hands out its generation and the connection before it, which is
    /// to be closed.
    pub fn publish(&mut self, client: C) -> (r: (u64, Option<C>))
        ensures
            r.0 == old(self).next_generation,
            final(self).current == Some((r.0, client)),
            final(self).next_generation == old(self).next_generation.wrapping_add(1),
            r.1 == match old(self).current {
                Some((_, previous)) => Some(previous),
                None => None,
            },
    {
        let generation = self.next_generation;
        self.next_generation = self.next_generation.wrapping_add(1);
        let previous = self.current.take();
        self.current = Some((generation, client));
        let previous = match previous {
            Some((_, previous)) => Some(previous),
            None => None,
        };
        (generation, previous)
    }

    /// Notes that the connection of the generation `generation` is closed, and says whether that
    /// was the one in use.
    pub fn retire(&mut self, generation: u64) -> (r: bool)
        ensures
            r == (old(self).current matches Some((current, _)) && current == generation),
            final(self).current == if r {
                None
            } else {
                old(self).current
            },
            final(self).next_generation == old(self).next_generation,
    {
        let same = match &self.current {
            Some((current, _)) => *current == generation,
            None => false,
        };
        if same {
            self.current = None;
        }
        same
    }
}

/// `n` in hexadecimal, without leading zeros.
pub open spec fn hexadecimal(n: nat) -> Seq<char>
    decreases n,
{
    if n < 16 {
        seq![crate::codec::hex_digit(n as int)]
    } else {
        hexadecimal(n / 16).push(crate::codec::hex_digit((n % 16) as int))
    }
}

fn hexadecimal_chars(n: u128) -> (r: Vec<char>)
    ensures
        r@ == hexadecimal(n as nat),
    decreases n,
{
    let last = (n % 16) as u8;
    let digit = if last < 10 {
        (48 + last) as char
    } else {
        (87 + last) as char
    };
    if n < 16 {
        let mut r: Vec<char> = Vec::new();
        r.push(digit);
        assert(r@ =~= hexadecimal(n as nat));
        r
    } else {
        let mut r = hexadecimal_chars(n / 16);
        r.push(digit);
        r
    }
}

/// The name of the directory for the sockets of the process `process`.
pub open spec fn socket_name(process: u32, nonce: u128) -> Seq<char> {
    "gradle-ls-"@ + text::decimal(process as nat) + "-"@ + hexadecimal(nonce as nat)
}

/// How long the path of a socket may be, in bytes.
pub open spec fn socket_path_limit(macos: bool) -> nat {
    if macos {
        103
    } else {
        107
    }
}

/// The directory for sockets: in `temporary`, or in `/tmp` where the path of a socket there would
/// be too long.
pub open spec fn socket_directory_in(
    temporary: Seq<char>,
    process: u32,
    nonce: u128,
    macos: bool,
) -> Seq<char> {
    let near = path::joined(temporary, socket_name(process, nonce));
    if vstd::utf8::encode_utf8(path::joined(near, "task.sock"@)).len() > socket_path_limit(macos) {
        path::joined("/tmp"@, socket_name(process, nonce))
    } else {
        near
    }
}

/// The directory for the sockets of the process `process`: in `temporary`, or in `/tmp` where the
/// path of a socket there would be too long.
pub fn socket_directory(temporary: &str, process: u32, nonce: u128, macos: bool) -> (r: String)
    ensures
        r@ == socket_directory_in(temporary@, process, nonce, macos),
{
    let mut name = "gradle-ls-".to_owned();
    name.append(text::string_of(&text::decimal_chars(process as u64)).as_str());
    name.append("-");
    name.append(text::string_of(&hexadecimal_chars(nonce)).as_str());
    let near = path::join_path(temporary, name.as_str());
    let socket = path::join_path(near.as_str(), "task.sock");
    let limit: usize = if macos {
        103
    } else {
        107
    };
    if socket.as_str().as_bytes().len() > limit {
        path::join_path("/tmp", name.as_str())
    } else {
        near
    }
}

/// The name of the pipe for `kind` of the process `process`, on Windows.
pub fn windows_pipe_name(kind: &str, process: u32, nonce: u128) -> (r: String)
    ensures
        r@ == "\\\\.\\pipe\\"@ + socket_name(process, nonce) + "-"@ + kind@,
{
    let mut name = "\\\\.\\pipe\\".to_owned();
    let mut own = "gradle-ls-".to_owned();
    own.append(text::string_of(&text::decimal_chars(process as u64)).as_str());
    own.append("-");
    own.append(text::string_of(&hexadecimal_chars(nonce)).as_str());
    name.append(own.as_str());
    name.append("-");
    name.append(kind);
    name
}

/// What the bridge is started with.
#[derive(Debug)]
pub struct Arguments {
    pub java: String,
    pub classpath: String,
}

/// Why the bridge cannot be started with what it was given.
#[derive(Clone, Copy, Debug, PartialEq, Eq, Structural)]
pub enum ArgumentError {
    /// It is not what is expected.
    Usage,
    /// The class path is missing.
    MissingClasspath,
}

/// The first of `arguments` that is `wanted`, or their number.
pub open spec fn first_index(arguments: Seq<Seq<char>>, wanted: Seq<char>) -> int
    decreases arguments.len(),
{
    if arguments.len() == 0 || arguments[0] == wanted {
        0
    } else {
        1 + first_index(arguments.drop_first(), wanted)
    }
}

/// What the bridge is started with: a Java program, and the class path behind `-cp`.
pub fn parse_args(arguments: &Vec<String>) -> (r: Result<Arguments, ArgumentError>)
    ensures
        ({
            let all = text::texts(arguments@);
            let at = first_index(all, "-cp"@);
            match r {
                Ok(parsed) => at + 1 < all.len() && parsed.java@ == all[0] && parsed.classpath@
                    == all[at + 1],
                Err(ArgumentError::Usage) => at == all.len(),
                Err(ArgumentError::MissingClasspath) => at + 1 == all.len(),
            }
        }),
{
    let ghost all = text::texts(arguments@);
    let mut i: usize = 0;
    assert(all.skip(0) =~= all);
    while i < arguments.len()
        invariant
            i <= arguments@.len(),
            all == text::texts(arguments@),
            first_index(all, "-cp"@) == i + first_index(all.skip(i as int), "-cp"@),
        decreases arguments@.len() - i,
    {
        let ghost rest = all.skip(i as int);
        assert(rest[0] == all[i as int]);
        if text::same_text(arguments[i].as_str(), "-cp") {
            if i + 1 < arguments.len() {
                return Ok(
                    Arguments {
                        java: arguments[0].clone(),
                        classpath: arguments[i + 1].clone(),
                    },
                );
            }
            return Err(ArgumentError::MissingClasspath);
        }
        assert(rest.drop_first() =~= all.skip(i + 1));
        i += 1;
    }
    Err(ArgumentError::Usage)
}

/// The arguments with which the Gradle server is started, given the pipes on which it is to
/// connect and the process that started it.
pub fn server_arguments(
    classpath: &str,
    task_pipe: &str,
    language_pipe: &str,
    process: u32,
) -> (r: Vec<String>)
    ensures
        text::texts(r@) == seq![
            "-Dfile.encoding=UTF-8"@,
            "-cp"@,
            classpath@,
            "com.github.badsyntax.gradle.GradleServer"@,
            "--pipe="@ + task_pipe@,
            "--parentPid="@ + text::decimal(process as nat),
            "--startBuildServer=false"@,
            "--languageServerPipePath="@ + language_pipe@,
        ],
{
    let mut pipe = "--pipe=".to_owned();
    pipe.append(task_pipe);
    let mut parent = "--parentPid=".to_owned();
    parent.append(text::string_of(&text::decimal_chars(process as u64)).as_str());
    let mut language = "--languageServerPipePath=".to_owned();
    language.append(language_pipe);
    let mut r: Vec<String> = Vec::new();
    r.push("-Dfile.encoding=UTF-8".to_owned());
    r.push("-cp".to_owned());
    r.push(classpath.to_owned());
    r.push("com.github.badsyntax.gradle.GradleServer".to_owned());
    r.push(pipe);
    r.push(parent);
    r.push("--startBuildServer=false".to_owned());
    r.push(language);
    assert(text::texts(r@) =~= seq![
        "-Dfile.encoding=UTF-8"@,
        "-cp"@,
        classpath@,
        "com.github.badsyntax.gradle.GradleServer"@,
        "--pipe="@ + task_pipe@,
        "--parentPid="@ + text::decimal(process as nat),
        "--startBuildServer=false"@,
        "--languageServerPipePath="@ + language_pipe@,
    ]);
    r
}

/// A request for the build model that nothing went wrong with brings the model that came last, whether
/// the replies or the answer came to an end first, and whether the model came in a reply or with the
/// answer.
pub proof fn lemma_model_brought(call: BuildView, model: GradleProject)
    requires
        call.action == BuildAction::Receive,
        call.protocol_error is None,
        !call.state.cancelled,
        call.state.compatibility_error is None,
    ensures
        ({
            let reply = BuildEvent::Payload(Ok(BuildReply::Model(Some(model))));
            let bare = BuildEvent::Answer(Ok(None));
            let full = BuildEvent::Answer(Ok(Some(Ok(BuildReply::Model(Some(model))))));
            let end = BuildEvent::StreamEnd;
            let early = call.stepped(reply).stepped(end).stepped(bare).stepped(end);
            let late = call.stepped(bare).stepped(reply).stepped(end);
            let with_answer = call.stepped(full).stepped(end);
            &&& early.action == BuildAction::Finish && early.outcome() == OutcomeView::Model(model)
            &&& late.action == BuildAction::Finish && late.outcome() == OutcomeView::Model(model)
            &&& with_answer.action == BuildAction::Finish && with_answer.outcome()
                == OutcomeView::Model(model)
        }),
{
}

/// What ends a request for the build model: it goes on until the answer has come and all replies are
/// taken, or until a reply cannot be read; then nothing changes any more.
pub proof fn lemma_build_call_ends(call: BuildView, event: BuildEvent, error: String)
    ensures
        call.action == BuildAction::Finish ==> call.stepped(event) == call,
        call.action == BuildAction::Receive ==> call.stepped(BuildEvent::StreamEnd).action
            == BuildAction::AwaitAnswer,
        (call.action == BuildAction::Receive || call.action == BuildAction::AwaitAnswer) && event
            is Answer ==> call.stepped(event).action == BuildAction::Drain && call.stepped(
            event,
        ).answer == Some(event->Answer_0),
        call.action == BuildAction::Drain ==> call.stepped(BuildEvent::StreamEnd).action
            == BuildAction::Finish,
        call.action != BuildAction::Finish ==> {
            let broken = call.stepped(BuildEvent::Payload(Err(error)));
            &&& broken.action == BuildAction::Finish
            &&& broken.outcome() == OutcomeView::TransportError(
                "Invalid Gradle getBuild protobuf reply: "@ + error@,
            )
        },
{
}

/// What comes of a request for the build model whose replies could be read. A failed connection is an
/// error of the transport, unless Gradle and Java do not go together; a request that failed or a build
/// without a model is an error, with what the build wrote on its error stream; and a build that was
/// called off is that.
pub proof fn lemma_build_outcomes(call: BuildView)
    requires
        call.protocol_error is None,
    ensures
        call.answer matches Some(Err(failure)) ==> (call.state.compatibility_error is None ==> {
            &&& failure@.connection ==> call.outcome() == OutcomeView::TransportError(
                rpc::error_text(failure@),
            )
            &&& !failure@.connection ==> call.outcome() == (OutcomeView::Error {
                error: rpc::error_text(failure@),
                causes: causes(call.state.stderr),
            })
        }),
        !(call.answer matches Some(Err(_))) && !call.state.cancelled
            && call.state.compatibility_error is None && call.state.model is None ==> (
        call.outcome() matches OutcomeView::Error { error: shown, causes: lines } && shown
            == "gradle-server returned no build model"@ && lines == causes(call.state.stderr)),
        !(call.answer matches Some(Err(_))) && !call.state.cancelled ==> (
        call.state.compatibility_error matches Some(incompatible) ==> (
        call.outcome() matches OutcomeView::Error { error: shown, causes: lines } && shown
            == incompatible && lines == causes(call.state.stderr))),
        call.outcome() matches OutcomeView::Model(model) ==> call.state.model == Some(model),
{
}

/// What is noted of a reply is what it says, and nothing else changes by it: a model takes the place of
/// the one before, what the build writes to its other stream is not kept, and a build that was called
/// off stays so.
pub proof fn lemma_replies_noted(state: ReplyView, reply: BuildReply)
    ensures
        ({
            let after = state.applied(reply);
            &&& reply matches BuildReply::Model(model) ==> after.model == model
            &&& !(reply is Model) ==> after.model == state.model
            &&& reply matches BuildReply::CompatibilityError(error)
                ==> after.compatibility_error == Some(error@)
            &&& !(reply is CompatibilityError) ==> after.compatibility_error
                == state.compatibility_error
            &&& !(reply matches BuildReply::Output { stderr, .. } && stderr) ==> after.stderr
                == state.stderr
            &&& after.cancelled == (state.cancelled || reply is Cancelled)
        }),
{
}

/// The lines that say what went wrong are those of the error stream that are not blank, in their order,
/// without the white space at their ends and around them all.
pub proof fn lemma_causes(stderr: Seq<char>, i: int)
    ensures
        ({
            let lines = text::split(text::trim(stderr), '\n');
            let shown = causes(stderr);
            &&& shown.len() <= lines.len()
            &&& 0 <= i < shown.len() ==> shown[i].len() > 0 && !text::is_whitespace(shown[i].last())
            &&& 0 <= i < lines.len() && !text::is_blank(lines[i]) ==> shown.contains(
                text::trim_end(lines[i]),
            )
            &&& (forall|j: int| 0 <= j < lines.len() ==> !text::is_blank(#[trigger] lines[j]))
                ==> shown == lines.map_values(|line: Seq<char>| text::trim_end(line))
        }),
{
    let lines = text::split(text::trim(stderr), '\n');
    lemma_full_lines(lines, lines.len() as int, i);
    let each = lines.map_values(|line: Seq<char>| text::trim_end(line));
    assert(each.take(lines.len() as int) =~= each);
}

proof fn lemma_full_lines(lines: Seq<Seq<char>>, n: int, i: int)
    requires
        0 <= n <= lines.len(),
    ensures
        ({
            let shown = full_lines(lines, n);
            &&& shown.len() <= n
            &&& 0 <= i < shown.len() ==> shown[i].len() > 0 && !text::is_whitespace(shown[i].last())
            &&& 0 <= i < n && !text::is_blank(lines[i]) ==> shown.contains(
                text::trim_end(lines[i]),
            )
            &&& (forall|j: int| 0 <= j < n ==> !text::is_blank(#[trigger] lines[j])) ==> shown
                == lines.map_values(|line: Seq<char>| text::trim_end(line)).take(n)
        }),
    decreases n,
{
    let each = lines.map_values(|line: Seq<char>| text::trim_end(line));
    if n > 0 {
        lemma_full_lines(lines, n - 1, i);
        let earlier = full_lines(lines, n - 1);
        let shown = full_lines(lines, n);
        let line = text::trim_end(lines[n - 1]);
        text::lemma_trimmed_end(lines[n - 1]);
        if 0 <= i < n - 1 && !text::is_blank(lines[i]) {
            let kept = text::trim_end(lines[i]);
            let k = choose|k: int| 0 <= k < earlier.len() && earlier[k] == kept;
            assert(shown[k] == kept);
        }
        if i == n - 1 && !text::is_blank(lines[i]) {
            assert(shown[shown.len() - 1] == line);
        }
        if forall|j: int| 0 <= j < n ==> !text::is_blank(#[trigger] lines[j]) {
            assert(!text::is_blank(lines[n - 1]));
            assert(each.take(n) =~= each.take(n - 1).push(each[n - 1]));
        }
    } else {
        assert(each.take(0) =~= Seq::empty());
    }
}

/// The directory for sockets is in the directory for temporary files, unless the path of a socket in it
/// would be too long (103 bytes on a Mac, 107 elsewhere), where it is in `/tmp`.
pub proof fn lemma_socket_directory(temporary: Seq<char>, process: u32, nonce: u128, macos: bool)
    ensures
        ({
            let name = socket_name(process, nonce);
            let near = path::joined(temporary, name);
            let length = vstd::utf8::encode_utf8(path::joined(near, "task.sock"@)).len();
            let chosen = socket_directory_in(temporary, process, nonce, macos);
            &&& macos && length <= 103 || !macos && length <= 107 ==> chosen == near
            &&& macos && length > 103 || !macos && length > 107 ==> chosen == path::joined(
                "/tmp"@,
                name,
            )
        }),
{
}

/// The place of an argument is that of its first occurrence, or behind them all where it does not occur.
pub proof fn lemma_first_index(arguments: Seq<Seq<char>>, wanted: Seq<char>)
    ensures
        0 <= first_index(arguments, wanted) <= arguments.len(),
        first_index(arguments, wanted) < arguments.len() ==> arguments[first_index(
            arguments,
            wanted,
        )] == wanted,
        forall|i: int| 0 <= i < first_index(arguments, wanted) ==> #[trigger] arguments[i] != wanted,
    decreases arguments.len(),
{
    if arguments.len() > 0 && arguments[0] != wanted {
        let rest = arguments.drop_first();
        lemma_first_index(rest, wanted);
        assert forall|i: int| 0 <= i < first_index(arguments, wanted) implies #[trigger] arguments[i]
            != wanted by {
            if i > 0 {
                assert(arguments[i] == rest[i - 1]);
            }
        }
    }
}

/// The number that the hexadecimal digits `s` stand for.
pub open spec fn hexadecimal_value(s: Seq<char>) -> int
    decreases s.len(),
{
    if s.len() == 0 {
        0
    } else {
        16 * hexadecimal_value(s.drop_last()) + if s.last() <= '9' {
            s.last() as u32 - 48
        } else {
            s.last() as u32 - 87
        }
    }
}

/// A number comes back from its hexadecimal form, so that the directories for sockets of one process
/// differ where their numbers do.
pub proof fn lemma_hexadecimal_value(n: nat)
    ensures
        hexadecimal_value(hexadecimal(n)) == n,
    decreases n,
{
    let last = (n % 16) as u32;
    let code: u32 = if last < 10 {
        (48 + last) as u32
    } else {
        (87 + last) as u32
    };
    assert((code as char) as u32 == code);
    assert(crate::codec::hex_digit((n % 16) as int) == code as char);
    let shown = hexadecimal(n);
    assert(shown.last() == code as char);
    if n >= 16 {
        lemma_hexadecimal_value(n / 16);
        assert(shown.drop_last() =~= hexadecimal(n / 16));
    } else {
        assert(shown.drop_last() =~= Seq::empty());
        assert(hexadecimal_value(shown.drop_last()) == 0);
    }
}

/// Texts are the same but for case in one direction where they are in the other, a text is the same as
/// itself, and a capital letter is the same as the small one and no other.
pub proof fn lemma_same_but_case(a: Seq<char>, b: Seq<char>, capital: char, small: char)
    ensures
        same_but_case(a, a),
        same_but_case(a, b) ==> same_but_case(b, a),
        'A' <= capital <= 'Z' && small as u32 == capital as u32 + 32 ==> same_but_case(
            seq![capital],
            seq![small],
        ),
        'A' <= capital <= 'Z' && small != capital && small as u32 != capital as u32 + 32
            ==> !same_but_case(seq![capital], seq![small]),
{
    if same_but_case(a, b) {
        assert forall|i: int| 0 <= i < b.len() implies same_letter(#[trigger] b[i], a[i]) by {
            assert(same_letter(a[i], b[i]));
        }
    }
    if same_but_case(seq![capital], seq![small]) {
        assert(same_letter(seq![capital][0], seq![small][0]));
    }
}

/// The directory for sockets is named after the process, and two directories of one process have
/// different names where their numbers differ.
pub proof fn lemma_socket_names(process: u32, nonce: u128, other: u128)
    ensures
        text::starts_with(
            socket_name(process, nonce),
            "gradle-ls-"@ + text::decimal(process as nat) + "-"@,
        ),
        socket_name(process, nonce) == socket_name(process, other) ==> nonce == other,
{
    let start = "gradle-ls-"@ + text::decimal(process as nat) + "-"@;
    let name = socket_name(process, nonce);
    assert(name.subrange(0, start.len() as int) =~= start);
    lemma_hexadecimal_value(nonce as nat);
    lemma_hexadecimal_value(other as nat);
    let n = start.len() as int;
    assert(name.skip(n) =~= hexadecimal(nonce as nat));
    assert(socket_name(process, other).skip(n) =~= hexadecimal(other as nat));
}

} // verus!
