//! Where each message between the editor and the language server goes.

use crate::json::{Json, JsonView};
use crate::json;
use crate::lsp;
use crate::lsp_proxy::completions;
use crate::lsp_proxy::decompile::{
    Completion,
    CompletionView,
    DecompileCoordinator,
    DecompileView,
    JobView,
    Priority,
    RewriteJob,
};
use crate::lsp_proxy::decompile;
use crate::lsp_proxy::output::{Output, OutputView};
use crate::lsp_proxy::pending::{PendingResponses, PendingView, Routed};
use crate::lsp_proxy::requests::{RequestView, RewriteKind, TrackedRequest};
use crate::lsp_proxy::requests;
use crate::lsp_proxy::sources::RewriteMode;
use crate::table::{Key, Table};
use crate::table;
use crate::text;
use vstd::prelude::*;

verus! {

/// The requests whose answers are not wanted any more.
pub struct SuppressedResponses {
    pub ids: Table<Json, ()>,
}

impl View for SuppressedResponses {
    type V = Set<JsonView>;

    open spec fn view(&self) -> Set<JsonView> {
        self.ids@.dom()
    }
}

impl SuppressedResponses {
    /// No id occurs twice.
    pub open spec fn well_formed(self) -> bool {
        self.ids.well_formed()
    }

    /// Without requests.
    pub fn new() -> (r: Self)
        ensures
            r.well_formed(),
            r@ == Set::<JsonView>::empty(),
    {
        let r = SuppressedResponses { ids: Table::new() };
        assert(r@ =~= Set::empty());
        r
    }

    /// Notes that the answer to the request `id` is not wanted any more.
    pub fn insert(&mut self, id: Json)
        requires
            old(self).well_formed(),
        ensures
            final(self).well_formed(),
            final(self)@ == old(self)@.insert(id@.unsigned_zeros()),
    {
        let ghost before = self@;
        self.ids.insert(id, ());
        assert(self@ =~= before.insert(id@.unsigned_zeros()));
    }

    /// Whether the answer to the request `id` is not wanted any more.
    pub fn contains(&self, id: &Json) -> (r: bool)
        requires
            self.well_formed(),
        ensures
            r == self@.contains(id@.unsigned_zeros()),
    {
        self.ids.has(id)
    }

    /// Forgets the request `id`, and says whether its answer was not wanted any more.
    pub fn take(&mut self, id: &Json) -> (r: bool)
        requires
            old(self).well_formed(),
        ensures
            final(self).well_formed(),
            final(self)@ == old(self)@.remove(id@.unsigned_zeros()),
            r == old(self)@.contains(id@.unsigned_zeros()),
    {
        let ghost before = self@;
        let r = self.ids.remove(id).is_some();
        assert(self@ =~= before.remove(id@.unsigned_zeros()));
        r
    }
}

/// Where a message of the editor goes: on to the language server, or no further.
#[derive(Clone, Copy, Debug, PartialEq, Eq, Structural)]
pub enum InputRoute {
    Forward,
    Consumed,
}

/// What goes to the editor for a message of the language server: the message as it came, another
/// in its place, or nothing.
#[derive(Debug, PartialEq)]
pub enum OutputRoute {
    Raw(Vec<u8>),
    Value(Json),
    Consumed,
}

/// What an `OutputRoute` holds.
pub enum RouteView {
    Raw(Seq<u8>),
    Value(JsonView),
    Consumed,
}

impl View for OutputRoute {
    type V = RouteView;

    open spec fn view(&self) -> RouteView {
        match self {
            OutputRoute::Raw(raw) => RouteView::Raw(raw@),
            OutputRoute::Value(value) => RouteView::Value(value@),
            OutputRoute::Consumed => RouteView::Consumed,
        }
    }
}

/// What the proxy keeps of the requests that are under way.
pub struct Router<S> {
    /// The requests whose answers are to be rewritten once they come.
    pub watched: Table<Json, TrackedRequest>,
    /// The requests whose answers are being rewritten.
    pub active: Table<Json, u64>,
    pub suppressed: SuppressedResponses,
    /// The search for workspace symbols that was made last.
    pub latest_workspace: Option<u64>,
    /// The token of the next request.
    pub jobs: u64,
    pub decompile: DecompileCoordinator,
    pub pending: PendingResponses<S>,
    pub output: Output,
    /// What the proxy itself has to tell the language server.
    pub to_server: Vec<Json>,
}

/// What a `Router` holds.
#[verifier::ext_equal]
pub struct RouterView<S> {
    pub watched: Map<JsonView, RequestView>,
    pub active: Map<JsonView, u64>,
    pub suppressed: Set<JsonView>,
    pub latest_workspace: Option<u64>,
    pub jobs: u64,
    pub decompile: DecompileView,
    pub pending: PendingView<S>,
    pub output: OutputView,
    pub to_server: Seq<JsonView>,
}

impl<S> View for Router<S> {
    type V = RouterView<S>;

    open spec fn view(&self) -> RouterView<S> {
        RouterView {
            watched: self.watched@,
            active: self.active@,
            suppressed: self.suppressed@,
            latest_workspace: self.latest_workspace,
            jobs: self.jobs,
            decompile: self.decompile@,
            pending: self.pending@,
            output: self.output@,
            to_server: json::items_view(self.to_server@),
        }
    }
}

/// The bytes of the message with the content `value`.
pub open spec fn frame(value: JsonView) -> Seq<u8> {
    vstd::utf8::encode_utf8(lsp::framed(json::json_text(value)))
}

/// The request of `requests` that has the token `token`.
pub open spec fn tracked_with(requests: Map<JsonView, RequestView>, token: u64) -> Option<
    JsonView,
> {
    if exists|id: JsonView| #[trigger]
        requests.contains_key(id) && requests[id].token == token {
        Some(choose|id: JsonView| #[trigger]
            requests.contains_key(id) && requests[id].token == token)
    } else {
        None
    }
}

/// The request of `active` that has the token `token`.
pub open spec fn active_with(active: Map<JsonView, u64>, token: u64) -> Option<JsonView> {
    if exists|id: JsonView| #[trigger] active.contains_key(id) && active[id] == token {
        Some(choose|id: JsonView| #[trigger] active.contains_key(id) && active[id] == token)
    } else {
        None
    }
}

impl<S> RouterView<S> {
    /// What every operation keeps: no request is both waited for and rewritten, and each token
    /// belongs to one request and was given before.
    pub open spec fn sound(self) -> bool {
        &&& forall|id: JsonView| #[trigger]
            self.watched.contains_key(id) ==> !self.active.contains_key(id)
                && self.watched[id].token < self.jobs
        &&& forall|id: JsonView| #[trigger]
            self.active.contains_key(id) ==> self.active[id] < self.jobs
        &&& forall|a: JsonView, b: JsonView| #[trigger]
            self.watched.contains_key(a) && #[trigger] self.watched.contains_key(b)
                && self.watched[a].token == self.watched[b].token ==> a == b
        &&& forall|a: JsonView, b: JsonView| #[trigger]
            self.active.contains_key(a) && #[trigger] self.active.contains_key(b)
                && self.active[a] == self.active[b] ==> a == b
        &&& forall|a: JsonView, b: JsonView| #[trigger]
            self.watched.contains_key(a) && #[trigger] self.active.contains_key(b)
                ==> self.watched[a].token != self.active[b]
    }

    /// The search `token` is not the last any more.
    pub open spec fn workspace_cleared(self, token: u64) -> RouterView<S> {
        RouterView {
            latest_workspace: if self.latest_workspace == Some(token) {
                None
            } else {
                self.latest_workspace
            },
            ..self
        }
    }

    /// The editor calls the request `id` off, and where that is already answered in part, it is
    /// told that the request is called off.
    pub open spec fn request_dropped(self, id: JsonView) -> RouterView<S> {
        let key = id.unsigned_zeros();
        let state = RouterView {
            watched: self.watched.remove(key),
            active: self.active.remove(key),
            ..self
        };
        let state = if self.watched.contains_key(key) {
            state.workspace_cleared(self.watched[key].token)
        } else {
            state
        };
        if self.active.contains_key(key) {
            let token = self.active[key];
            let state = state.workspace_cleared(token);
            RouterView {
                decompile: self.decompile.canceled(token),
                output: self.output.sent(frame(requests::canceled_answer(id))),
                ..state
            }
        } else {
            state
        }
    }

    /// The editor calls a request off with `message`.
    pub open spec fn cancellation_routed(self, message: JsonView) -> (RouterView<S>, InputRoute) {
        match message.get2("params"@, "id"@) {
            Some(id) => (
                self.request_dropped(id),
                if self.active.contains_key(id.unsigned_zeros()) || self.suppressed.contains(
                    id.unsigned_zeros(),
                ) {
                    InputRoute::Consumed
                } else {
                    InputRoute::Forward
                },
            ),
            None => (self, InputRoute::Forward),
        }
    }

    /// The request with the token `token` is given up: its answer is not wanted any more.
    pub open spec fn retired(self, token: u64) -> RouterView<S> {
        RouterView {
            watched: match tracked_with(self.watched, token) {
                Some(id) => self.watched.remove(id),
                None => self.watched,
            },
            active: match active_with(self.active, token) {
                Some(id) => self.active.remove(id),
                None => self.active,
            },
            ..self
        }
    }

    /// A search for workspace symbols is made under `token`, and the one before it given up: the
    /// language server is told so, or the rewriting of its answer is called off. What the
    /// language server is told is `told`.
    pub open spec fn workspace_superseded(self, token: u64, told: Seq<JsonView>) -> RouterView<S> {
        match self.latest_workspace {
            Some(previous) => {
                let state = self.retired(previous);
                RouterView {
                    latest_workspace: Some(token),
                    suppressed: match tracked_with(self.watched, previous) {
                        Some(id) => self.suppressed.insert(id),
                        None => self.suppressed,
                    },
                    to_server: self.to_server + told,
                    decompile: if active_with(self.active, previous) is Some {
                        self.decompile.canceled(previous)
                    } else {
                        self.decompile
                    },
                    ..state
                }
            },
            None => RouterView { latest_workspace: Some(token), ..self },
        }
    }

    /// What the language server is told when the search for workspace symbols that was made last
    /// is given up: to call it off, where it has not answered.
    pub open spec fn may_be_told(self, told: Seq<JsonView>) -> bool {
        match self.latest_workspace {
            Some(previous) => match tracked_with(self.watched, previous) {
                Some(id) => told.len() == 1 && exists|original: JsonView|
                    original.unsigned_zeros() == id && told[0] == #[trigger] requests::cancellation(
                        original,
                    ),
                None => told.len() == 0,
            },
            None => told.len() == 0,
        }
    }

    /// `request`, whose id is `id`, is noted.
    pub open spec fn request_noted(self, id: JsonView, request: RequestView) -> RouterView<S> {
        let key = id.unsigned_zeros();
        let state = RouterView {
            watched: self.watched.insert(key, request),
            active: self.active.remove(key),
            decompile: if self.active.contains_key(key) {
                self.decompile.canceled(self.active[key])
            } else {
                self.decompile
            },
            ..self
        };
        if self.watched.contains_key(key) {
            state.workspace_cleared(self.watched[key].token)
        } else {
            state
        }
    }

    /// The editor makes the request `message`. What the language server is told is `told`.
    pub open spec fn request_made(self, message: JsonView, told: Seq<JsonView>) -> RouterView<S> {
        let state = RouterView { jobs: (self.jobs + 1) as u64, ..self };
        match requests::tracked_for(message, self.jobs) {
            Some((id, request)) => if request.method == "workspace/symbol"@ {
                state.workspace_superseded(self.jobs, told).request_noted(id, request)
            } else {
                state.request_noted(id, request)
            },
            None => state,
        }
    }

    /// `message` is a search for workspace symbols.
    pub open spec fn searches(self, message: JsonView) -> bool {
        requests::tracked_for(message, self.jobs) matches Some((_, request)) && request.method
            == "workspace/symbol"@
    }

    /// The jobs that are called off where the editor calls a request off with `message`, each as the
    /// state in which that leaves the coordinator.
    pub open spec fn cancellation_rounds(self, message: JsonView) -> Seq<DecompileView> {
        match message.get2("params"@, "id"@) {
            Some(id) => self.noting_rounds(id),
            None => Seq::empty(),
        }
    }

    /// The job that is called off where a search for workspace symbols takes the place of the one
    /// before it.
    pub open spec fn superseding_rounds(self) -> Seq<DecompileView> {
        match self.latest_workspace {
            Some(previous) => if active_with(self.active, previous) is Some {
                seq![self.decompile.canceled(previous)]
            } else {
                Seq::empty()
            },
            None => Seq::empty(),
        }
    }

    /// The job that is called off where the request `id` is called off or made anew.
    pub open spec fn noting_rounds(self, id: JsonView) -> Seq<DecompileView> {
        if self.active.contains_key(id.unsigned_zeros()) {
            seq![self.decompile.canceled(self.active[id.unsigned_zeros()])]
        } else {
            Seq::empty()
        }
    }

    /// The jobs that are called off where the editor makes the request `message`, one after the
    /// other.
    pub open spec fn request_rounds(self, message: JsonView) -> Seq<DecompileView> {
        match requests::tracked_for(message, self.jobs) {
            Some((id, request)) => if request.method == "workspace/symbol"@ {
                self.superseding_rounds() + self.workspace_superseded(
                    self.jobs,
                    Seq::empty(),
                ).noting_rounds(id)
            } else {
                self.noting_rounds(id)
            },
            None => Seq::empty(),
        }
    }

    /// The request `id` is not waited for any more, where it has the token `token`.
    pub open spec fn untracked(self, id: JsonView, token: u64) -> RouterView<S> {
        let key = id.unsigned_zeros();
        if self.watched.contains_key(key) && self.watched[key].token == token {
            RouterView { watched: self.watched.remove(key), ..self }
        } else {
            self
        }
    }

    /// The request `id` with the token `token` is answered, and its answer is being rewritten.
    pub open spec fn activated(self, id: JsonView, token: u64) -> RouterView<S> {
        let key = id.unsigned_zeros();
        RouterView {
            watched: self.watched.remove(key),
            active: self.active.insert(key, token),
            ..self
        }
    }

    /// The rewriting of the answer `message` is done: the editor gets it, unless the request was
    /// called off or made anew.
    pub open spec fn rewritten(
        self,
        token: u64,
        completion: CompletionView,
        message: JsonView,
    ) -> RouterView<S> {
        let key = completion.id.unsigned_zeros();
        let answer = if completion.sanitize {
            completions::sanitized_message(message)
        } else {
            message
        };
        let owned = self.active.contains_key(key) && self.active[key] == token;
        let state = RouterView {
            active: self.active.remove(key),
            decompile: DecompileView {
                canceled_jobs: self.decompile.canceled_jobs.remove(token),
                ..self.decompile
            },
            output: if owned {
                self.output.sent(frame(answer))
            } else {
                self.output
            },
            ..self
        };
        if completion.workspace {
            state.workspace_cleared(token)
        } else {
            state
        }
    }

    /// The job `token` is done at `now`, and its answer is now `message`: the editor gets it, unless
    /// the job was called off.
    pub open spec fn job_settled(
        self,
        token: u64,
        priority: Priority,
        completion: CompletionView,
        message: JsonView,
        now: u64,
    ) -> RouterView<S> {
        let state = RouterView {
            decompile: self.decompile.job_finished(token, priority, now),
            ..self
        };
        if self.decompile.canceled_jobs.contains(token) {
            state
        } else {
            state.rewritten(token, completion, message)
        }
    }

    /// The source of the class `uri` is asked for by the request `id`, whose answer `sender` waits
    /// for.
    pub open spec fn source_asked_for(self, id: Seq<char>, sender: S) -> RouterView<S> {
        RouterView { pending: self.pending.registered(JsonView::Str(id), sender), ..self }
    }

    /// How the answer `message` to `request` is to be rewritten.
    pub open spec fn job_for(
        self,
        message: JsonView,
        id: JsonView,
        request: RequestView,
        now: u64,
    ) -> JobView {
        let workspace = request.method == "workspace/symbol"@;
        JobView {
            token: request.token,
            message,
            mode: if request.rewrite == RewriteKind::Locations {
                RewriteMode::Locations
            } else {
                RewriteMode::Strings
            },
            priority: if workspace {
                Priority::Bulk
            } else {
                Priority::Interactive
            },
            deadline: decompile::time_after(now, requests::timeout_for(request.method)),
            completion: CompletionView {
                id,
                sanitize: request.method == "completionItem/resolve"@,
                workspace,
            },
        }
    }

    /// The answer `message` to `request` is to be rewritten. It goes to the editor as it is where
    /// too many answers are being rewritten.
    pub open spec fn rewrite_queued(
        self,
        message: JsonView,
        id: JsonView,
        request: RequestView,
        now: u64,
    ) -> RouterView<S> {
        let state = self.activated(id, request.token);
        if self.decompile.canceled_jobs.contains(request.token) {
            RouterView {
                active: state.active.remove(id.unsigned_zeros()),
                decompile: DecompileView {
                    canceled_jobs: self.decompile.canceled_jobs.remove(request.token),
                    ..self.decompile
                },
                ..state
            }.workspace_cleared(request.token)
        } else {
            let job = self.job_for(message, id, request, now);
            if self.decompile.full() {
                state.rewritten(request.token, job.completion, message)
            } else {
                RouterView { decompile: self.decompile.submitted(job), ..state }
            }
        }
    }

    /// The answer `message` to the request `id`, which is `request`, has come as `raw`.
    pub open spec fn tracked_routed(
        self,
        raw: Seq<u8>,
        message: JsonView,
        id: JsonView,
        request: RequestView,
        now: u64,
    ) -> (RouterView<S>, RouteView) {
        match requests::resolve_fallback(message, request) {
            Some(fallback) => (self.untracked(id, request.token), RouteView::Value(fallback)),
            None => if message.get("error"@) is Some {
                (
                    self.untracked(id, request.token).workspace_cleared(request.token),
                    RouteView::Raw(raw),
                )
            } else if request.rewrite == RewriteKind::Completion {
                (
                    self.untracked(id, request.token),
                    RouteView::Value(completions::processed_message(message)),
                )
            } else {
                (self.rewrite_queued(message, id, request, now), RouteView::Consumed)
            },
        }
    }

    /// The message `raw` of the language server, which holds `message`, has come.
    pub open spec fn answer_routed(self, raw: Seq<u8>, message: JsonView, now: u64) -> (
        RouterView<S>,
        RouteView,
    ) {
        let state = RouterView { pending: self.pending.routed(message), ..self };
        if !(self.pending.route(message) is Passed) {
            (state, RouteView::Consumed)
        } else {
            match message.get("id"@) {
                Some(id) => {
                    let key = id.unsigned_zeros();
                    let state = RouterView { suppressed: self.suppressed.remove(key), ..state };
                    if self.suppressed.contains(key) {
                        (state, RouteView::Consumed)
                    } else if message.get("method"@) is Some || !self.watched.contains_key(key) {
                        (state, RouteView::Raw(raw))
                    } else {
                        state.tracked_routed(raw, message, id, self.watched[key], now)
                    }
                },
                None => (state, RouteView::Raw(raw)),
            }
        }
    }

    /// The message `raw` of the language server has come.
    pub open spec fn server_routed(self, raw: Seq<u8>, now: u64) -> (RouterView<S>, RouteView) {
        if !lsp::has_bytes(raw, lsp::id_key()) {
            (self, RouteView::Raw(raw))
        } else {
            match lsp::message_of(raw) {
                Some(message) => self.answer_routed(raw, message, now),
                None => (self, RouteView::Raw(raw)),
            }
        }
    }

    /// The message `raw` of the language server is an answer that another takes the place of,
    /// because it says that a completion item could not be resolved.
    pub open spec fn falls_back(self, raw: Seq<u8>) -> bool {
        &&& lsp::has_bytes(raw, lsp::id_key())
        &&& lsp::message_of(raw) matches Some(message)
        &&& self.pending.route(message) is Passed
        &&& message.get("method"@) is None
        &&& message.get("id"@) matches Some(id)
        &&& !self.suppressed.contains(id.unsigned_zeros())
        &&& self.watched.contains_key(id.unsigned_zeros())
        &&& requests::resolve_fallback(message, self.watched[id.unsigned_zeros()]) is Some
    }

    /// Whoever the message `raw` of the language server goes to, of those who made a request for
    /// the proxy.
    pub open spec fn delivery(self, raw: Seq<u8>) -> Option<(S, JsonView)> {
        if !lsp::has_bytes(raw, lsp::id_key()) {
            None
        } else {
            match lsp::message_of(raw) {
                Some(message) => match self.pending.route(message) {
                    Routed::Delivered(sender) => Some((sender, message)),
                    _ => None,
                },
                None => None,
            }
        }
    }
}

/// `ids` are the requests for class sources that nothing waits for any more in `state`: these and no
/// others, and one for each class source.
pub open spec fn names_orphans(ids: Seq<Seq<char>>, state: DecompileView) -> bool {
    &&& ids.len() == state.orphans().len()
    &&& forall|id: Seq<char>| #[trigger] ids.contains(id) <==> state.orphaned_id(id)
}

/// `ids` are the requests to call off after some jobs were called off, one after the other: for each
/// job those that nothing waited for any more, where `rounds` are the states in which it left the
/// coordinator. Where no job was called off there are none.
pub open spec fn called_off(ids: Seq<Seq<char>>, rounds: Seq<DecompileView>) -> bool
    decreases rounds.len(),
{
    if rounds.len() == 0 {
        ids.len() == 0
    } else {
        let earlier = ids.len() - rounds.last().orphans().len();
        &&& 0 <= earlier
        &&& called_off(ids.take(earlier), rounds.drop_last())
        &&& names_orphans(ids.skip(earlier), rounds.last())
    }
}

/// Where one job is called off, the requests are its own.
proof fn lemma_first_called_off(ids: Seq<Seq<char>>, state: DecompileView)
    requires
        names_orphans(ids, state),
    ensures
        called_off(ids, seq![state]),
{
    let none = Seq::<DecompileView>::empty();
    lemma_called_off(Seq::empty(), ids, none, state);
    assert(Seq::<Seq<char>>::empty() + ids =~= ids);
    assert(none.push(state) =~= seq![state]);
}

/// The requests of one more job come last.
proof fn lemma_called_off(
    ids: Seq<Seq<char>>,
    more: Seq<Seq<char>>,
    rounds: Seq<DecompileView>,
    next: DecompileView,
)
    requires
        called_off(ids, rounds),
        names_orphans(more, next),
    ensures
        called_off(ids + more, rounds.push(next)),
{
    assert((ids + more).take(ids.len() as int) =~= ids);
    assert((ids + more).skip(ids.len() as int) =~= more);
    assert(rounds.push(next).drop_last() =~= rounds);
}

/// A message of the language server, and where it goes.
pub struct ServerRouting<S> {
    pub route: OutputRoute,
    /// Whoever it goes to, of those who made a request for the proxy, and what it holds.
    pub delivery: Option<(S, Json)>,
    /// It is an answer in place of one that failed.
    pub fallback: bool,
}

impl<S> Router<S> {
    /// No id occurs twice, and what every operation keeps holds.
    pub open spec fn well_formed(self) -> bool {
        &&& self.watched.well_formed()
        &&& self.active.well_formed()
        &&& self.suppressed.well_formed()
        &&& self.decompile.well_formed()
        &&& self.pending.well_formed()
        &&& self@.sound()
    }

    /// A router without requests, whose own requests get ids that begin with `owned_id_prefix`.
    pub fn new(owned_id_prefix: String) -> (r: Self)
        ensures
            r.well_formed(),
            r@.watched == Map::<JsonView, RequestView>::empty(),
            r@.active == Map::<JsonView, u64>::empty(),
            r@.suppressed == Set::<JsonView>::empty(),
            r@.latest_workspace is None,
            r@.jobs == 1,
            r@.decompile == DecompileView::fresh(owned_id_prefix@, 1),
            r@.pending == (PendingView::<S> { pending: Map::empty(), owned: Set::empty() }),
            r@.output == (OutputView { queue: Seq::empty(), closed: false, failed: false }),
            r@.to_server.len() == 0,
    {
        Router {
            watched: Table::new(),
            active: Table::new(),
            suppressed: SuppressedResponses::new(),
            latest_workspace: None,
            jobs: 1,
            decompile: DecompileCoordinator::new(owned_id_prefix),
            pending: PendingResponses::new(),
            output: Output::start(),
            to_server: Vec::new(),
        }
    }

    fn clear_latest_workspace(&mut self, token: u64)
        ensures
            final(self)@ == old(self)@.workspace_cleared(token),
            final(self).watched == old(self).watched,
            final(self).active == old(self).active,
            final(self).suppressed == old(self).suppressed,
            final(self).decompile == old(self).decompile,
            final(self).pending == old(self).pending,
    {
        if let Some(latest) = self.latest_workspace {
            if latest == token {
                self.latest_workspace = None;
            }
        }
    }

    /// Takes the request `id` out of those that are waited for and those that are being
    /// answered.
    pub fn take_request_for_cancellation(&mut self, id: &Json) -> (r: (
        Option<TrackedRequest>,
        Option<u64>,
    ))
        requires
            old(self).well_formed(),
        ensures
            final(self).well_formed(),
            final(self)@ == (RouterView {
                watched: old(self)@.watched.remove(id@.unsigned_zeros()),
                active: old(self)@.active.remove(id@.unsigned_zeros()),
                ..old(self)@
            }),
            (match r.0 {
                Some(request) => old(self)@.watched.contains_key(id@.unsigned_zeros())
                    && old(self)@.watched[id@.unsigned_zeros()] == request@,
                None => !old(self)@.watched.contains_key(id@.unsigned_zeros()),
            }),
            (match r.1 {
                Some(token) => old(self)@.active.contains_key(id@.unsigned_zeros())
                    && old(self)@.active[id@.unsigned_zeros()] == token,
                None => !old(self)@.active.contains_key(id@.unsigned_zeros()),
            }),
    {
        let request = self.watched.remove(id);
        let token = self.active.remove(id);
        (request, token)
    }

    fn route_zed_cancellation(&mut self, message: &Json) -> (r: (InputRoute, Vec<String>))
        requires
            old(self).well_formed(),
        ensures
            final(self).well_formed(),
            old(self)@.cancellation_routed(message@) == (final(self)@, r.0),
            called_off(text::texts(r.1@), old(self)@.cancellation_rounds(message@)),
    {
        let ghost before = self@;
        let id = match message.get2("params", "id") {
            Some(id) => id,
            None => return (InputRoute::Forward, Vec::new()),
        };
        let suppressed = self.suppressed.contains(id);
        let (request, token) = self.take_request_for_cancellation(id);
        if let Some(request) = request {
            self.clear_latest_workspace(request.token);
        }
        let mut fetches: Vec<String> = Vec::new();
        let local = token.is_some();
        if let Some(token) = token {
            self.clear_latest_workspace(token);
            fetches = self.decompile.cancel(token);
            proof {
                lemma_first_called_off(text::texts(fetches@), self.decompile@);
            }
            self.output.send_value(&requests::request_canceled(id));
        }
        assert(self@ =~= before.request_dropped(id@));
        if local || suppressed {
            (InputRoute::Consumed, fetches)
        } else {
            (InputRoute::Forward, fetches)
        }
    }

    /// Takes the request with the token `token` out of those that are waited for, and hands out its
    /// id, and out of those that are being answered, and says whether it was there.
    pub fn retire_request_token(&mut self, token: u64) -> (r: (Option<Json>, bool))
        requires
            old(self).well_formed(),
        ensures
            final(self).well_formed(),
            final(self)@ == old(self)@.retired(token),
            (match r.0 {
                Some(id) => tracked_with(old(self)@.watched, token) == Some(id@.unsigned_zeros()),
                None => tracked_with(old(self)@.watched, token) is None,
            }),
            r.1 == active_with(old(self)@.active, token) is Some,
    {
        let ghost before = self@;
        let mut tracked_id: Option<Json> = None;
        let mut i: usize = 0;
        let mut at: Option<usize> = None;
        while i < self.watched.entries.len() && at.is_none()
            invariant
                i <= self.watched.entries@.len(),
                at matches Some(found) ==> found < self.watched.entries@.len()
                    && self.watched.entries@[found as int].1@.token == token,
                at is None ==> forall|j: int|
                    0 <= j < i ==> (#[trigger] self.watched.entries@[j]).1@.token != token,
            decreases self.watched.entries@.len() - i,
        {
            if self.watched.entries[i].1.token == token {
                at = Some(i);
            }
            i += 1;
        }
        proof {
            table::lemma_mapping(self.watched.entries@);
        }
        match at {
            Some(found) => {
                let (id, _) = self.watched.remove_at(found);
                assert(tracked_with(before.watched, token) == Some(id@.unsigned_zeros()));
                tracked_id = Some(id);
            },
            None => {
                assert(tracked_with(before.watched, token) is None) by {
                    if exists|id: JsonView| #[trigger]
                        before.watched.contains_key(id) && before.watched[id].token == token {
                        let id = choose|id: JsonView| #[trigger]
                            before.watched.contains_key(id) && before.watched[id].token == token;
                        let j = choose|j: int|
                            0 <= j < self.watched.entries@.len() && (
                            #[trigger] self.watched.entries@[j]).0.identity() == id;
                        assert(self.watched.entries@[j].1@.token != token);
                    }
                }
            },
        }
        let mut k: usize = 0;
        let mut active_at: Option<usize> = None;
        while k < self.active.entries.len() && active_at.is_none()
            invariant
                k <= self.active.entries@.len(),
                active_at matches Some(found) ==> found < self.active.entries@.len()
                    && self.active.entries@[found as int].1 == token,
                active_at is None ==> forall|j: int|
                    0 <= j < k ==> (#[trigger] self.active.entries@[j]).1 != token,
            decreases self.active.entries@.len() - k,
        {
            if self.active.entries[k].1 == token {
                active_at = Some(k);
            }
            k += 1;
        }
        proof {
            table::lemma_mapping(self.active.entries@);
        }
        let active = match active_at {
            Some(found) => {
                let (id, _) = self.active.remove_at(found);
                assert(active_with(before.active, token) == Some(id@.unsigned_zeros()));
                true
            },
            None => {
                assert(active_with(before.active, token) is None) by {
                    if exists|id: JsonView| #[trigger]
                        before.active.contains_key(id) && before.active[id] == token {
                        let id = choose|id: JsonView| #[trigger]
                            before.active.contains_key(id) && before.active[id] == token;
                        let j = choose|j: int|
                            0 <= j < self.active.entries@.len() && (
                            #[trigger] self.active.entries@[j]).0.identity() == id;
                        assert(self.active.entries@[j].1 != token);
                    }
                }
                false
            },
        };
        assert(self@ =~= before.retired(token));
        (tracked_id, active)
    }

    fn supersede_workspace_job(&mut self, token: u64) -> (r: (Vec<String>, Ghost<Seq<JsonView>>))
        requires
            old(self).well_formed(),
        ensures
            final(self).well_formed(),
            old(self)@.may_be_told(r.1@),
            final(self)@ == old(self)@.workspace_superseded(token, r.1@),
            called_off(text::texts(r.0@), old(self)@.superseding_rounds()),
    {
        broadcast use json::group_json_views;

        let ghost before = self@;
        let previous = self.latest_workspace;
        self.latest_workspace = Some(token);
        let previous = match previous {
            Some(previous) => previous,
            None => {
                let ghost none: Seq<JsonView> = Seq::empty();
                return (Vec::new(), Ghost(none));
            },
        };
        let (retired, active) = self.retire_request_token(previous);
        let ghost mut told: Seq<JsonView> = Seq::empty();
        if let Some(id) = retired {
            let message = requests::cancel_request(&id);
            proof {
                told = seq![message@];
                assert(told[0] == requests::cancellation(id@));
            }
            let ghost earlier = self.to_server@;
            self.to_server.push(message);
            assert(json::items_view(self.to_server@) =~= json::items_view(earlier) + told);
            self.suppressed.insert(id);
        } else {
            assert(before.to_server + told =~= before.to_server);
        }
        let mut fetches: Vec<String> = Vec::new();
        if active {
            fetches = self.decompile.cancel(previous);
            proof {
                lemma_first_called_off(text::texts(fetches@), self.decompile@);
            }
        }
        assert(self@ =~= before.workspace_superseded(token, told));
        (fetches, Ghost(told))
    }

    fn track_zed_request(&mut self, message: &Json) -> (r: (Vec<String>, Ghost<Seq<JsonView>>))
        requires
            old(self).well_formed(),
            old(self)@.jobs < u64::MAX,
        ensures
            final(self).well_formed(),
            if old(self)@.searches(message@) {
                old(self)@.may_be_told(r.1@)
            } else {
                r.1@.len() == 0
            },
            final(self)@ == old(self)@.request_made(message@, r.1@),
            called_off(text::texts(r.0@), old(self)@.request_rounds(message@)),
    {
        let ghost before = self@;
        let token = self.jobs;
        self.jobs = self.jobs + 1;
        let ghost mut told: Seq<JsonView> = Seq::empty();
        let mut fetches: Vec<String> = Vec::new();
        let (id, request) = match requests::tracked_request_for(message, token) {
            Some(found) => found,
            None => return (fetches, Ghost(told)),
        };
        let ghost counted = self@;
        if text::same_text(request.method.as_str(), "workspace/symbol") {
            let (superseded, Ghost(said)) = self.supersede_workspace_job(token);
            fetches = superseded;
            proof {
                told = said;
            }
        }
        let ghost middle = self@;
        let ghost view = request@;
        let ghost rounds = if view.method == "workspace/symbol"@ {
            before.superseding_rounds()
        } else {
            Seq::empty()
        };
        assert(before.request_rounds(message@) =~= rounds + middle.noting_rounds(id@));
        let previous = self.watched.insert(id.clone(), request);
        let active_token = self.active.remove(&id);
        if let Some(previous) = previous {
            self.clear_latest_workspace(previous.token);
        }
        if let Some(active_token) = active_token {
            let mut more = self.decompile.cancel(active_token);
            proof {
                let earlier = text::texts(fetches@);
                let later = text::texts(more@);
                lemma_called_off(earlier, later, rounds, self.decompile@);
                assert(text::texts(fetches@ + more@) =~= earlier + later);
                assert(before.request_rounds(message@) =~= rounds.push(self.decompile@));
            }
            fetches.append(&mut more);
        } else {
            assert(before.request_rounds(message@) =~= rounds);
        }
        assert(self@ =~= middle.request_noted(id@, view));
        (fetches, Ghost(told))
    }
}

/// The bytes of the method by which a request is called off.
pub open spec fn cancel_method() -> Seq<u8> {
    vstd::utf8::encode_utf8("$/cancelRequest"@)
}

impl<S> RouterView<S> {
    /// The message `raw` of the editor calls a request off.
    pub open spec fn calls_off(self, raw: Seq<u8>) -> bool {
        (lsp::has_bytes(raw, lsp::id_key()) || lsp::has_bytes(raw, cancel_method())) && (
        lsp::message_of(raw) matches Some(message) && completions::text_at(message, "method"@)
            == Some("$/cancelRequest"@))
    }

    /// The message `raw` of the editor can be a request.
    pub open spec fn asks(self, raw: Seq<u8>) -> bool {
        lsp::has_bytes(raw, lsp::id_key()) && lsp::message_of(raw) is Some && !self.calls_off(raw)
    }

    /// The message `raw` of the editor has come. What the language server is told is `told`.
    pub open spec fn editor_routed(self, raw: Seq<u8>, told: Seq<JsonView>) -> (
        RouterView<S>,
        InputRoute,
    ) {
        if self.calls_off(raw) {
            self.cancellation_routed(lsp::message_of(raw)->Some_0)
        } else if self.asks(raw) {
            (self.request_made(lsp::message_of(raw)->Some_0, told), InputRoute::Forward)
        } else {
            (self, InputRoute::Forward)
        }
    }

    /// The jobs that are called off by the message `raw` of the editor, one after the other.
    pub open spec fn editor_rounds(self, raw: Seq<u8>) -> Seq<DecompileView> {
        if self.calls_off(raw) {
            self.cancellation_rounds(lsp::message_of(raw)->Some_0)
        } else if self.asks(raw) {
            self.request_rounds(lsp::message_of(raw)->Some_0)
        } else {
            Seq::empty()
        }
    }

    /// What the language server can be told when the message `raw` of the editor has come.
    pub open spec fn may_be_told_for(self, raw: Seq<u8>, told: Seq<JsonView>) -> bool {
        if self.asks(raw) && self.searches(lsp::message_of(raw)->Some_0) {
            self.may_be_told(told)
        } else {
            told.len() == 0
        }
    }
}

impl<S> Router<S> {
    /// Says where the message `raw` of the editor goes, and notes the request that it makes or
    /// calls off the one that it names. Hands out the requests for class sources to call off: those
    /// that nothing waits for any more, once for each job that was called off.
    pub fn route_zed_message(&mut self, raw: &[u8]) -> (r: (InputRoute, Vec<String>))
        requires
            old(self).well_formed(),
            old(self)@.jobs < u64::MAX,
        ensures
            final(self).well_formed(),
            exists|told: Seq<JsonView>| #[trigger]
                old(self)@.may_be_told_for(raw@, told) && old(self)@.editor_routed(raw@, told) == (
                    final(self)@,
                    r.0,
                ),
            called_off(text::texts(r.1@), old(self)@.editor_rounds(raw@)),
    {
        let ghost before = self@;
        let ghost nothing: Seq<JsonView> = Seq::empty();
        let has_id = lsp::raw_has_id(raw);
        if !has_id && !lsp::contains_subslice(raw, "$/cancelRequest".as_bytes()) {
            assert(before.may_be_told_for(raw@, nothing));
            return (InputRoute::Forward, Vec::new());
        }
        let message = match lsp::parse_lsp_content(raw) {
            Some(message) => message,
            None => {
                assert(before.may_be_told_for(raw@, nothing));
                return (InputRoute::Forward, Vec::new());
            },
        };
        let cancels = match message.get("method") {
            Some(Json::Str(method)) => text::same_text(method.as_str(), "$/cancelRequest"),
            _ => false,
        };
        if cancels {
            assert(before.may_be_told_for(raw@, nothing));
            return self.route_zed_cancellation(&message);
        }
        if has_id {
            let (fetches, Ghost(told)) = self.track_zed_request(&message);
            assert(before.may_be_told_for(raw@, told));
            return (InputRoute::Forward, fetches);
        }
        assert(before.may_be_told_for(raw@, nothing));
        (InputRoute::Forward, Vec::new())
    }

    /// Calls off the request `request_id` for a class source.
    pub fn cancel_fetch(&mut self, request_id: &str)
        requires
            old(self).well_formed(),
        ensures
            final(self).well_formed(),
            final(self)@ == (RouterView {
                pending: old(self)@.pending.abandoned(JsonView::Str(request_id@)),
                to_server: old(self)@.to_server.push(
                    requests::cancellation(JsonView::Str(request_id@)),
                ),
                ..old(self)@
            }),
    {
        broadcast use json::group_json_views;

        let ghost before = *self;
        let id = Json::string(request_id);
        self.pending.remove(&id);
        self.to_server.push(requests::cancel_request(&id));
        assert(self@.to_server =~= before@.to_server.push(requests::cancellation(id@)));
    }

    /// Hands out what the proxy itself has to tell the language server.
    pub fn take_server_messages(&mut self) -> (r: Vec<Json>)
        requires
            old(self).well_formed(),
        ensures
            final(self).well_formed(),
            json::items_view(r@) == old(self)@.to_server,
            final(self)@ == (RouterView { to_server: Seq::empty(), ..old(self)@ }),
    {
        let ghost before = self@;
        let mut r: Vec<Json> = Vec::new();
        std::mem::swap(&mut r, &mut self.to_server);
        assert(json::items_view(self.to_server@) =~= Seq::empty());
        assert(self@ =~= (RouterView { to_server: Seq::empty(), ..before }));
        r
    }

    /// Takes the request `id` out of those that are waited for, where it has the token `token`.
    pub fn remove_tracked_request(&mut self, id: &Json, token: u64)
        requires
            old(self).well_formed(),
        ensures
            final(self).well_formed(),
            final(self)@ == old(self)@.untracked(id@, token),
    {
        let ghost before = self@;
        let same = match self.watched.get(id) {
            Some(request) => request.token == token,
            None => false,
        };
        if same {
            self.watched.remove(id);
        }
        assert(self@ =~= before.untracked(id@, token));
    }

    /// Moves the request `id` from those that are waited for to those that are being answered,
    /// where it has the token `token`, and says whether it has.
    pub fn activate_rewrite(&mut self, id: &Json, token: u64) -> (r: bool)
        requires
            old(self).well_formed(),
        ensures
            final(self).well_formed(),
            r == (old(self)@.watched.contains_key(id@.unsigned_zeros())
                && old(self)@.watched[id@.unsigned_zeros()].token == token),
            final(self)@ == if r {
                old(self)@.activated(id@, token)
            } else {
                old(self)@
            },
    {
        let ghost before = self@;
        let same = match self.watched.get(id) {
            Some(request) => request.token == token,
            None => false,
        };
        if !same {
            return false;
        }
        self.watched.remove(id);
        self.active.insert(id.clone(), token);
        assert(self@ =~= before.activated(id@, token));
        true
    }

    /// Hands the answer `message`, whose rewriting is done, over to the editor, unless the request
    /// was called off or made anew.
    pub fn complete_rewrite(&mut self, token: u64, completion: Completion, message: Json)
        requires
            old(self).well_formed(),
        ensures
            final(self).well_formed(),
            final(self)@ == old(self)@.rewritten(token, completion@, message@),
    {
        let ghost before = self@;
        let ghost whole = message@;
        let mut message = message;
        if completion.sanitize {
            completions::sanitize_resolved_completion(&mut message);
        }
        let owned = match self.active.remove(&completion.id) {
            Some(active) => active == token,
            None => false,
        };
        self.decompile.consume_cancellation(token);
        if owned {
            self.output.send_value(&message);
        }
        if completion.workspace {
            self.clear_latest_workspace(token);
        }
        assert(self@ =~= before.rewritten(token, completion@, whole));
    }

    /// Notes that the job `token` is done, whose answer is now `message`, and hands that over to the
    /// editor, unless the job was called off.
    pub fn settle_job(
        &mut self,
        token: u64,
        priority: Priority,
        completion: Completion,
        message: Json,
        now: u64,
    )
        requires
            old(self).well_formed(),
        ensures
            final(self).well_formed(),
            final(self)@ == old(self)@.job_settled(token, priority, completion@, message@, now),
    {
        let ghost before = self@;
        let canceled = self.decompile.is_canceled(token);
        self.decompile.finish_job(token, priority, now);
        assert(self@ =~= (RouterView {
            decompile: before.decompile.job_finished(token, priority, now),
            ..before
        }));
        if !canceled {
            self.complete_rewrite(token, completion, message);
        }
    }

    /// Notes that `sender` waits for the source of the class `uri`, and hands out the request for
    /// it, which has the id `request_id`.
    pub fn begin_fetch(&mut self, uri: &str, request_id: &str, sender: S) -> (r: Json)
        requires
            old(self).well_formed(),
        ensures
            final(self).well_formed(),
            final(self)@ == old(self)@.source_asked_for(request_id@, sender),
            r@ == requests::source_request(JsonView::Str(request_id@), uri@),
    {
        let id = Json::string(request_id);
        let request = requests::class_source_request(&id, uri);
        self.pending.register(id, sender);
        request
    }

    fn queue_rewrite_response(
        &mut self,
        raw: Vec<u8>,
        message: Json,
        id: Json,
        request: TrackedRequest,
        now: u64,
    ) -> (r: OutputRoute)
        requires
            old(self).well_formed(),
            old(self)@.watched.contains_key(id@.unsigned_zeros()),
            old(self)@.watched[id@.unsigned_zeros()] == request@,
            !(request.rewrite is Completion),
        ensures
            final(self).well_formed(),
            r@ == RouteView::Consumed,
            final(self)@ == old(self)@.rewrite_queued(message@, id@, request@, now),
    {
        let ghost before = self@;
        let ghost view = request@;
        let mode = match request.rewrite {
            RewriteKind::Locations => RewriteMode::Locations,
            _ => RewriteMode::Strings,
        };
        let workspace = text::same_text(request.method.as_str(), "workspace/symbol");
        let sanitize = text::same_text(request.method.as_str(), "completionItem/resolve");
        let priority = if workspace {
            Priority::Bulk
        } else {
            Priority::Interactive
        };
        let deadline = now.saturating_add(requests::rewrite_timeout(request.method.as_str()));
        if !self.activate_rewrite(&id, request.token) {
            return OutputRoute::Raw(raw);
        }
        let token = request.token;
        if self.decompile.is_canceled(token) {
            self.active.remove(&id);
            self.decompile.consume_cancellation(token);
            self.clear_latest_workspace(token);
            assert(self@ =~= before.rewrite_queued(message@, id@, view, now));
            return OutputRoute::Consumed;
        }
        let job = RewriteJob {
            token,
            message,
            mode,
            priority,
            deadline,
            completion: Completion { id, sanitize, workspace },
        };
        assert(job@ == before.job_for(message@, id@, view, now));
        if let Err(job) = self.decompile.submit(job) {
            self.complete_rewrite(job.token, job.completion, job.message);
        }
        assert(self@ =~= before.rewrite_queued(message@, id@, view, now));
        OutputRoute::Consumed
    }

    fn route_tracked_response(
        &mut self,
        raw: Vec<u8>,
        message: Json,
        id: Json,
        request: TrackedRequest,
        now: u64,
    ) -> (r: (OutputRoute, bool))
        requires
            old(self).well_formed(),
            old(self)@.watched.contains_key(id@.unsigned_zeros()),
            old(self)@.watched[id@.unsigned_zeros()] == request@,
        ensures
            final(self).well_formed(),
            old(self)@.tracked_routed(raw@, message@, id@, request@, now) == (final(self)@, r.0@),
            r.1 == requests::resolve_fallback(message@, request@) is Some,
    {
        if let Some(fallback) = requests::completion_resolve_fallback(&message, &request) {
            self.remove_tracked_request(&id, request.token);
            return (OutputRoute::Value(fallback), true);
        }
        if message.get("error").is_some() {
            self.remove_tracked_request(&id, request.token);
            self.clear_latest_workspace(request.token);
            return (OutputRoute::Raw(raw), false);
        }
        if let RewriteKind::Completion = request.rewrite {
            self.remove_tracked_request(&id, request.token);
            let mut message = message;
            completions::process_completions(&mut message);
            return (OutputRoute::Value(message), false);
        }
        (self.queue_rewrite_response(raw, message, id, request, now), false)
    }

    /// Says what goes to the editor for the message `raw` of the language server, and to whoever
    /// made a request for the proxy. An answer that is to be rewritten is held back for that.
    pub fn route_jdtls_message(&mut self, raw: Vec<u8>, now: u64) -> (r: ServerRouting<S>)
        requires
            old(self).well_formed(),
        ensures
            final(self).well_formed(),
            old(self)@.server_routed(raw@, now) == (final(self)@, r.route@),
            r.route@ matches RouteView::Raw(passed) ==> passed == raw@,
            !lsp::has_bytes(raw@, lsp::id_key()) || lsp::message_of(raw@) is None ==> final(self)@
                == old(self)@ && r.route@ == RouteView::Raw(raw@),
            (match r.delivery {
                Some((sender, message)) => old(self)@.delivery(raw@) == Some((sender, message@)),
                None => old(self)@.delivery(raw@) is None,
            }),
            r.fallback == old(self)@.falls_back(raw@),
    {
        let ghost before = self@;
        if !lsp::raw_has_id(&raw) {
            return ServerRouting { route: OutputRoute::Raw(raw), delivery: None, fallback: false };
        }
        let message = match lsp::parse_lsp_content(&raw) {
            Some(message) => message,
            None => {
                return ServerRouting {
                    route: OutputRoute::Raw(raw),
                    delivery: None,
                    fallback: false,
                };
            },
        };
        match self.pending.route(&message) {
            Routed::Delivered(sender) => {
                assert(self@ =~= before.answer_routed(raw@, message@, now).0);
                return ServerRouting {
                    route: OutputRoute::Consumed,
                    delivery: Some((sender, message)),
                    fallback: false,
                };
            },
            Routed::Swallowed => {
                assert(self@ =~= before.answer_routed(raw@, message@, now).0);
                return ServerRouting {
                    route: OutputRoute::Consumed,
                    delivery: None,
                    fallback: false,
                };
            },
            Routed::Passed => {},
        }
        let id = match message.get("id") {
            Some(id) => id.clone(),
            None => {
                assert(self@ =~= before.answer_routed(raw@, message@, now).0);
                return ServerRouting {
                    route: OutputRoute::Raw(raw),
                    delivery: None,
                    fallback: false,
                };
            },
        };
        if self.suppressed.take(&id) {
            assert(self@ =~= before.answer_routed(raw@, message@, now).0);
            return ServerRouting { route: OutputRoute::Consumed, delivery: None, fallback: false };
        }
        let request = if message.get("method").is_some() {
            None
        } else {
            match self.watched.get(&id) {
                Some(request) => Some(request.clone()),
                None => None,
            }
        };
        let ghost noted = RouterView {
            pending: before.pending.routed(message@),
            suppressed: before.suppressed.remove(id@.unsigned_zeros()),
            ..before
        };
        assert(self@ =~= noted);
        match request {
            Some(request) => {
                let (route, fallback) = self.route_tracked_response(
                    raw,
                    message,
                    id,
                    request,
                    now,
                );
                ServerRouting { route, delivery: None, fallback }
            },
            None => {
                ServerRouting { route: OutputRoute::Raw(raw), delivery: None, fallback: false }
            },
        }
    }
}

/// A request that is called off while its answer is being rewritten is answered once: the editor is
/// told that it is called off, and does not get the answer as well.
pub proof fn lemma_canceled_request_answered_once<S>(
    state: RouterView<S>,
    id: JsonView,
    completion: CompletionView,
    message: JsonView,
)
    requires
        state.active.contains_key(id.unsigned_zeros()),
        completion.id.unsigned_zeros() == id.unsigned_zeros(),
    ensures
        ({
            let token = state.active[id.unsigned_zeros()];
            let dropped = state.request_dropped(id);
            &&& dropped.output == state.output.sent(frame(requests::canceled_answer(id)))
            &&& dropped.rewritten(token, completion, message).output == dropped.output
            &&& dropped.decompile == state.decompile.canceled(token)
        }),
{
}

/// The answer of a job that was called off does not reach the editor.
pub proof fn lemma_canceled_job_is_silent<S>(
    state: RouterView<S>,
    token: u64,
    priority: Priority,
    completion: CompletionView,
    message: JsonView,
    now: u64,
)
    requires
        state.decompile.canceled_jobs.contains(token),
    ensures
        state.job_settled(token, priority, completion, message, now).output == state.output,
        !state.job_settled(
            token,
            priority,
            completion,
            message,
            now,
        ).decompile.canceled_jobs.contains(token),
{
}

/// The answer to a search for workspace symbols that a later one has taken the place of does not
/// reach the editor; a second message with the same id does.
pub proof fn lemma_superseded_answer_dropped<S>(
    state: RouterView<S>,
    token: u64,
    told: Seq<JsonView>,
    previous: u64,
    raw: Seq<u8>,
    message: JsonView,
    now: u64,
)
    requires
        state.latest_workspace == Some(previous),
        tracked_with(state.watched, previous) is Some,
        message.get("id"@) matches Some(id) && Some(id.unsigned_zeros()) == tracked_with(
            state.watched,
            previous,
        ),
        state.pending.route(message) is Passed,
    ensures
        ({
            let superseded = state.workspace_superseded(token, told);
            let answered = superseded.answer_routed(raw, message, now);
            &&& answered.1 is Consumed
            &&& answered.0.output == state.output
            &&& answered.0.pending.route(message) is Passed ==> answered.0.answer_routed(
                raw,
                message,
                now,
            ).1 == RouteView::Raw(raw)
        }),
{
    let id = tracked_with(state.watched, previous)->Some_0;
    let superseded = state.workspace_superseded(token, told);
    assert(!superseded.watched.contains_key(id));
    let answered = superseded.answer_routed(raw, message, now).0;
    assert(!answered.watched.contains_key(id));
    assert(!answered.suppressed.contains(id));
}

/// The message of the language server concerns nothing that the proxy keeps: it answers no request
/// of the proxy's, none that is to be dropped and none that is to be rewritten.
pub open spec fn unconcerned<S>(state: RouterView<S>, message: JsonView) -> bool {
    &&& state.pending.route(message) is Passed
    &&& message.get("id"@) matches Some(id) ==> !state.suppressed.contains(id.unsigned_zeros())
        && !state.watched.contains_key(id.unsigned_zeros())
}

/// A message of the language server that the proxy has no concern with reaches the editor byte for
/// byte, as one does that is no message at all or carries no id, and nothing changes by it. What
/// reaches the editor as raw bytes is always what came. A message of the editor's that neither calls a request off nor
/// makes one that concerns the proxy is passed on, and nothing changes by it either.
pub proof fn lemma_unhandled_messages_preserved<S>(
    state: RouterView<S>,
    raw: Seq<u8>,
    told: Seq<JsonView>,
    now: u64,
)
    ensures
        state.server_routed(raw, now).1 matches RouteView::Raw(passed) ==> passed == raw,
        !lsp::has_bytes(raw, lsp::id_key()) ==> state.server_routed(raw, now) == (
            state,
            RouteView::Raw(raw),
        ),
        (lsp::message_of(raw) matches Some(message) ==> unconcerned(state, message))
            ==> state.server_routed(raw, now) == (state, RouteView::Raw(raw)),
        lsp::message_of(raw) is None || !state.calls_off(raw) && !state.asks(raw)
            ==> state.editor_routed(raw, told) == (state, InputRoute::Forward),
{
    if let Some(message) = lsp::message_of(raw) {
        if unconcerned(state, message) {
            let pending = state.pending.routed(message);
            assert(pending.pending =~= state.pending.pending);
            assert(pending.owned =~= state.pending.owned);
            if let Some(id) = message.get("id"@) {
                assert(state.suppressed.remove(id.unsigned_zeros()) =~= state.suppressed);
            }
        }
    }
}

/// An answer that cannot be taken up to be rewritten is not lost: the editor gets it at once,
/// as it is but for the placeholders in a completion item.
pub proof fn lemma_answer_survives_saturation<S>(
    state: RouterView<S>,
    message: JsonView,
    id: JsonView,
    request: RequestView,
    now: u64,
)
    requires
        state.decompile.full(),
        !state.decompile.canceled_jobs.contains(request.token),
    ensures
        state.rewrite_queued(message, id, request, now).output == state.output.sent(
            frame(
                if request.method == "completionItem/resolve"@ {
                    completions::sanitized_message(message)
                } else {
                    message
                },
            ),
        ),
        state.rewrite_queued(message, id, request, now).decompile.interactive_jobs
            == state.decompile.interactive_jobs,
        state.rewrite_queued(message, id, request, now).decompile.bulk_jobs
            == state.decompile.bulk_jobs,
{
}

/// An answer that is taken up to be rewritten waits for that, and its request is no longer waited
/// for.
pub proof fn lemma_answer_taken_up<S>(
    state: RouterView<S>,
    message: JsonView,
    id: JsonView,
    request: RequestView,
    now: u64,
)
    requires
        !state.decompile.full(),
        !state.decompile.canceled_jobs.contains(request.token),
    ensures
        ({
            let after = state.rewrite_queued(message, id, request, now);
            &&& after.decompile.queued(request.token)
            &&& !after.watched.contains_key(id.unsigned_zeros())
            &&& after.active.contains_key(id.unsigned_zeros())
            &&& after.active[id.unsigned_zeros()] == request.token
            &&& after.output == state.output
        }),
{
    let job = state.job_for(message, id, request, now);
    let after = state.rewrite_queued(message, id, request, now);
    if job.priority == Priority::Interactive {
        assert(after.decompile.interactive_jobs[state.decompile.interactive_jobs.len() as int]
            == job);
    } else {
        let n = after.decompile.bulk_jobs.len() - 1;
        assert(after.decompile.bulk_jobs[n] == job);
    }
}

/// The message `raw` of the language server answers the request `id` of the editor: it carries that id
/// and no method, and answers no request of the proxy's own. What it holds is `message`.
pub open spec fn answers<S>(
    state: RouterView<S>,
    raw: Seq<u8>,
    message: JsonView,
    id: JsonView,
) -> bool {
    &&& lsp::has_bytes(raw, seq![34u8, 105u8, 100u8, 34u8])
    &&& lsp::message_of(raw) == Some(message)
    &&& message.get("id"@) == Some(id)
    &&& message.get("method"@) is None
    &&& !state.pending.pending.contains_key(id.unsigned_zeros())
    &&& !state.pending.owned.contains(id.unsigned_zeros())
}

/// An answer of the language server to a request of the editor that is still wanted is not lost: it
/// goes to the editor as it came or with another in its place, or is handed over for the editor, or
/// waits to be rewritten, unless that was called off.
pub proof fn lemma_no_answer_lost<S>(
    state: RouterView<S>,
    raw: Seq<u8>,
    message: JsonView,
    id: JsonView,
    now: u64,
)
    requires
        answers(state, raw, message, id),
        !state.suppressed.contains(id.unsigned_zeros()),
    ensures
        ({
            let key = id.unsigned_zeros();
            let (after, route) = state.server_routed(raw, now);
            ||| route == RouteView::Raw(raw)
            ||| route is Value
            ||| exists|answer: JsonView|
                after.output == #[trigger] state.output.sent(frame(answer)) && answer.get("id"@)
                    == Some(id)
            ||| state.watched.contains_key(key) && after.decompile.queued(
                state.watched[key].token,
            )
            ||| state.watched.contains_key(key) && state.decompile.canceled_jobs.contains(
                state.watched[key].token,
            )
        }),
{
    let key = id.unsigned_zeros();
    assert(lsp::id_key() =~= seq![34u8, 105u8, 100u8, 34u8]);
    if state.watched.contains_key(key) {
        let request = state.watched[key];
        let noted = RouterView {
            pending: state.pending.routed(message),
            suppressed: state.suppressed.remove(key),
            ..state
        };
        if requests::resolve_fallback(message, request) is None && message.get("error"@) is None
            && request.rewrite != RewriteKind::Completion {
            if !state.decompile.canceled_jobs.contains(request.token) {
                if state.decompile.full() {
                    lemma_answer_survives_saturation(noted, message, id, request, now);
                    completions::lemma_resolved_item_cleaned(message, "id"@);
                    reveal_strlit("id");
                    reveal_strlit("result");
                    assert("id"@.len() != "result"@.len());
                } else {
                    lemma_answer_taken_up(noted, message, id, request, now);
                }
            }
        }
    }
}

/// An answer with an error goes to the editor as it came, and its request is not waited for any more,
/// unless it says that a completion item could not be resolved, and the item takes its place.
pub proof fn lemma_errors_reach_editor<S>(
    state: RouterView<S>,
    raw: Seq<u8>,
    message: JsonView,
    id: JsonView,
    now: u64,
)
    requires
        answers(state, raw, message, id),
        !state.suppressed.contains(id.unsigned_zeros()),
        message.get("error"@) is Some,
    ensures
        ({
            let key = id.unsigned_zeros();
            let (after, route) = state.server_routed(raw, now);
            let replaced = state.watched.contains_key(key) && state.watched[key].method
                == "completionItem/resolve"@ && message.get2("error"@, "code"@) == Some(
                JsonView::Int(-32603),
            ) && state.watched[key].original_params is Some;
            &&& !replaced ==> route == RouteView::Raw(raw)
            &&& replaced ==> (route matches RouteView::Value(answer) && answer.get("id"@) == Some(id)
                && answer.get("result"@) == state.watched[key].original_params)
            &&& !after.watched.contains_key(key)
            &&& after.output == state.output
            &&& after.decompile == state.decompile
        }),
{
    let key = id.unsigned_zeros();
    assert(lsp::id_key() =~= seq![34u8, 105u8, 100u8, 34u8]);
    if state.watched.contains_key(key) {
        requests::lemma_failed_resolution(message, state.watched[key]);
    }
}

/// An answer without an error to a request that is waited for is treated as what was noted of the
/// request says: completion items go to the editor, made usable; any other waits to be rewritten, in
/// its locations or in its texts, and searches of the workspace wait behind the others.
pub proof fn lemma_results_rewritten<S>(
    state: RouterView<S>,
    raw: Seq<u8>,
    message: JsonView,
    id: JsonView,
    now: u64,
)
    requires
        answers(state, raw, message, id),
        !state.suppressed.contains(id.unsigned_zeros()),
        message.get("error"@) is None,
        state.watched.contains_key(id.unsigned_zeros()),
    ensures
        ({
            let key = id.unsigned_zeros();
            let request = state.watched[key];
            let (after, route) = state.server_routed(raw, now);
            &&& !after.watched.contains_key(key)
            &&& request.rewrite == RewriteKind::Completion ==> route == RouteView::Value(
                completions::processed_message(message),
            ) && after.output == state.output
            &&& request.rewrite != RewriteKind::Completion && !state.decompile.full()
                && !state.decompile.canceled_jobs.contains(request.token) ==> {
                let bulk = request.method == "workspace/symbol"@;
                let jobs = if bulk {
                    after.decompile.bulk_jobs
                } else {
                    after.decompile.interactive_jobs
                };
                &&& route is Consumed
                &&& after.output == state.output
                &&& after.active.contains_key(key) && after.active[key] == request.token
                &&& jobs.len() > 0
                &&& jobs.last().token == request.token
                &&& jobs.last().message == message
                &&& jobs.last().completion.id == id
                &&& jobs.last().completion.workspace == bulk
                &&& jobs.last().completion.sanitize == (request.method
                    == "completionItem/resolve"@)
                &&& jobs.last().mode == RewriteMode::Locations <==> request.rewrite
                    == RewriteKind::Locations
                &&& jobs.last().priority == Priority::Bulk <==> bulk
                &&& now <= jobs.last().deadline
                &&& now + 2000 <= u64::MAX ==> jobs.last().deadline == now
                    + requests::timeout_for(request.method)
            }
        }),
{
    let key = id.unsigned_zeros();
    let request = state.watched[key];
    assert(lsp::id_key() =~= seq![34u8, 105u8, 100u8, 34u8]);
    requests::lemma_failed_resolution(message, request);
    requests::lemma_timeouts(request.method);
    assert(requests::resolve_fallback(message, request) is None);
}

/// What the language server asks of the editor, and what answers no request that is waited for, goes to
/// the editor as it came, and nothing else happens.
pub proof fn lemma_other_messages_pass<S>(
    state: RouterView<S>,
    raw: Seq<u8>,
    message: JsonView,
    id: JsonView,
    now: u64,
)
    requires
        lsp::message_of(raw) == Some(message),
        message.get("id"@) == Some(id),
        message.get("method"@) is Some || answers(state, raw, message, id)
            && !state.watched.contains_key(id.unsigned_zeros()),
        !state.suppressed.contains(id.unsigned_zeros()),
    ensures
        state.server_routed(raw, now) == (state, RouteView::Raw(raw)),
{
    let pending = state.pending.routed(message);
    assert(pending.pending =~= state.pending.pending);
    assert(pending.owned =~= state.pending.owned);
    assert(state.suppressed.remove(id.unsigned_zeros()) =~= state.suppressed);
}

/// An answer to a request of the proxy's own never reaches the editor: it goes to whoever waits for it,
/// once, or nowhere.
pub proof fn lemma_own_answers_kept<S>(
    state: RouterView<S>,
    raw: Seq<u8>,
    message: JsonView,
    id: JsonView,
    now: u64,
)
    requires
        lsp::has_bytes(raw, seq![34u8, 105u8, 100u8, 34u8]),
        lsp::message_of(raw) == Some(message),
        message.get("id"@) == Some(id),
        message.get("method"@) is None,
        state.pending.pending.contains_key(id.unsigned_zeros()) || state.pending.owned.contains(
            id.unsigned_zeros(),
        ),
    ensures
        ({
            let key = id.unsigned_zeros();
            let (after, route) = state.server_routed(raw, now);
            &&& route is Consumed
            &&& after.output == state.output
            &&& after.watched == state.watched
            &&& state.delivery(raw) == if state.pending.pending.contains_key(key) {
                Some((state.pending.pending[key], message))
            } else {
                None
            }
            &&& !after.pending.pending.contains_key(key)
            &&& !after.pending.owned.contains(key)
        }),
{
    assert(lsp::id_key() =~= seq![34u8, 105u8, 100u8, 34u8]);
}

/// The message `raw` of the editor is the request `method` with the id `id`.
pub open spec fn requests_with(
    raw: Seq<u8>,
    message: JsonView,
    method: Seq<char>,
    id: JsonView,
) -> bool {
    &&& lsp::has_bytes(raw, seq![34u8, 105u8, 100u8, 34u8])
    &&& lsp::message_of(raw) == Some(message)
    &&& message.get("method"@) == Some(JsonView::Str(method))
    &&& message.get("id"@) == Some(id)
}

/// A request of the editor is passed on to the language server, whatever it asks for. Where its answer
/// is to be rewritten, it is waited for from then on, and noted with how; where not, nothing is noted
/// of it.
pub proof fn lemma_requests_passed_on<S>(
    state: RouterView<S>,
    raw: Seq<u8>,
    told: Seq<JsonView>,
    message: JsonView,
    method: Seq<char>,
    id: JsonView,
)
    requires
        requests_with(raw, message, method, id),
        method != "$/cancelRequest"@,
        state.jobs < u64::MAX,
    ensures
        ({
            let key = id.unsigned_zeros();
            let (after, route) = state.editor_routed(raw, told);
            let locations = requests::location_methods().contains(method);
            let documentation = requests::documentation_methods().contains(method);
            let completion = method == "textDocument/completion"@;
            &&& route == InputRoute::Forward
            &&& after.jobs == state.jobs + 1
            &&& after.output == state.output
            &&& locations || documentation || completion ==> {
                &&& after.watched.contains_key(key)
                &&& after.watched[key].method == method
                &&& after.watched[key].token == state.jobs
                &&& after.watched[key].rewrite == if completion {
                    RewriteKind::Completion
                } else if locations {
                    RewriteKind::Locations
                } else {
                    RewriteKind::Documentation
                }
                &&& !after.active.contains_key(key)
                &&& method == "workspace/symbol"@ && state.sound() ==> after.latest_workspace
                    == Some(state.jobs)
            }
            &&& !locations && !documentation && !completion ==> after == (RouterView {
                jobs: (state.jobs + 1) as u64,
                ..state
            })
        }),
{
    assert(lsp::id_key() =~= seq![34u8, 105u8, 100u8, 34u8]);
    requests::lemma_rewrite_kinds(method);
    requests::lemma_request_noted(message, state.jobs);
    assert(!state.calls_off(raw));
}

/// A request and its answer: what the editor asked for decides what becomes of the answer. An error
/// comes to the editor as it is; locations and documentation wait to be rewritten, each in its way, and
/// completion items come at once.
pub proof fn lemma_request_and_answer<S>(
    state: RouterView<S>,
    asked: Seq<u8>,
    told: Seq<JsonView>,
    request: JsonView,
    method: Seq<char>,
    id: JsonView,
    raw: Seq<u8>,
    message: JsonView,
    now: u64,
)
    requires
        requests_with(asked, request, method, id),
        requests::location_methods().contains(method) || requests::documentation_methods().contains(
            method,
        ) || method == "textDocument/completion"@,
        method != "$/cancelRequest"@,
        method != "completionItem/resolve"@,
        state.jobs < u64::MAX,
        answers(state, raw, message, id),
        ({
            let waiting = state.editor_routed(asked, told).0;
            &&& !waiting.suppressed.contains(id.unsigned_zeros())
            &&& !waiting.decompile.full()
            &&& !waiting.decompile.canceled_jobs.contains(state.jobs)
        }),
    ensures
        ({
            let waiting = state.editor_routed(asked, told).0;
            let (after, route) = waiting.server_routed(raw, now);
            &&& message.get("error"@) is Some ==> route == RouteView::Raw(raw)
            &&& message.get("error"@) is None && method == "textDocument/completion"@ ==> route
                == RouteView::Value(completions::processed_message(message))
            &&& message.get("error"@) is None && method == "workspace/symbol"@ ==> {
                &&& after.decompile.bulk_jobs.len() > 0
                &&& after.decompile.bulk_jobs.last().message == message
                &&& after.decompile.bulk_jobs.last().mode == RewriteMode::Locations
            }
            &&& message.get("error"@) is None && method != "workspace/symbol"@
                && requests::location_methods().contains(method) ==> {
                &&& after.decompile.interactive_jobs.len() > 0
                &&& after.decompile.interactive_jobs.last().message == message
                &&& after.decompile.interactive_jobs.last().mode == RewriteMode::Locations
            }
            &&& message.get("error"@) is None && requests::documentation_methods().contains(method)
                ==> {
                &&& after.decompile.interactive_jobs.len() > 0
                &&& after.decompile.interactive_jobs.last().message == message
                &&& after.decompile.interactive_jobs.last().mode == RewriteMode::Strings
            }
        }),
{
    let waiting = state.editor_routed(asked, told).0;
    lemma_requests_passed_on(state, asked, told, request, method, id);
    requests::lemma_rewrite_kinds(method);
    requests::lemma_rewrite_kinds("workspace/symbol"@);
    assert(requests::location_methods()[11] == "workspace/symbol"@);
    assert(waiting.pending == state.pending);
    assert(answers(waiting, raw, message, id));
    if message.get("error"@) is Some {
        lemma_errors_reach_editor(waiting, raw, message, id, now);
    } else {
        lemma_results_rewritten(waiting, raw, message, id, now);
    }
}

/// Where the editor calls a request off, that request is neither waited for nor being rewritten any
/// more. Where its answer was being rewritten, the language server has nothing to call off, and the
/// editor gets one answer that says that it is called off; where its answer is not wanted, nobody hears
/// of it; and otherwise the language server is told. Other requests stay.
pub proof fn lemma_cancellations<S>(
    state: RouterView<S>,
    raw: Seq<u8>,
    told: Seq<JsonView>,
    message: JsonView,
    id: JsonView,
    other: JsonView,
)
    requires
        lsp::has_bytes(raw, seq![34u8, 105u8, 100u8, 34u8]) || lsp::has_bytes(
            raw,
            vstd::utf8::encode_utf8("$/cancelRequest"@),
        ),
        lsp::message_of(raw) == Some(message),
        message.get("method"@) == Some(JsonView::Str("$/cancelRequest"@)),
        message.get2("params"@, "id"@) == Some(id),
        other != id.unsigned_zeros(),
    ensures
        ({
            let key = id.unsigned_zeros();
            let (after, route) = state.editor_routed(raw, told);
            &&& !after.watched.contains_key(key) && !after.active.contains_key(key)
            &&& after.watched.contains_key(other) == state.watched.contains_key(other)
            &&& state.watched.contains_key(other) ==> after.watched[other] == state.watched[other]
            &&& after.active.contains_key(other) == state.active.contains_key(other)
            &&& state.active.contains_key(other) ==> after.active[other] == state.active[other]
            &&& state.active.contains_key(key) ==> {
                &&& route == InputRoute::Consumed
                &&& after.decompile == state.decompile.canceled(state.active[key])
                &&& exists|answer: JsonView|
                    after.output == #[trigger] state.output.sent(frame(answer)) && answer.get(
                        "id"@,
                    ) == Some(id) && answer.get2("error"@, "code"@) == Some(JsonView::Int(-32800))
            }
            &&& !state.active.contains_key(key) ==> after.output == state.output && after.decompile
                == state.decompile
            &&& !state.active.contains_key(key) && state.suppressed.contains(key) ==> route
                == InputRoute::Consumed
            &&& !state.active.contains_key(key) && !state.suppressed.contains(key) ==> route
                == InputRoute::Forward
        }),
{
    assert(lsp::id_key() =~= seq![34u8, 105u8, 100u8, 34u8]);
    requests::lemma_canceled_answer(id);
    assert(state.calls_off(raw));
    let answer = requests::canceled_answer(id);
    assert(state.active.contains_key(id.unsigned_zeros()) ==> state.editor_routed(
        raw,
        told,
    ).0.output == state.output.sent(frame(answer)));
}

/// An answer that was rewritten goes to the editor, once: unless its request was called off, is no
/// longer being answered, or was made anew.
pub proof fn lemma_rewritten_answer_sent<S>(
    state: RouterView<S>,
    token: u64,
    priority: Priority,
    completion: CompletionView,
    message: JsonView,
    now: u64,
)
    ensures
        ({
            let key = completion.id.unsigned_zeros();
            let wanted = !state.decompile.canceled_jobs.contains(token) && state.active.contains_key(
                key,
            ) && state.active[key] == token;
            let after = state.job_settled(token, priority, completion, message, now);
            &&& wanted && !completion.sanitize ==> after.output == state.output.sent(
                frame(message),
            )
            &&& wanted && completion.sanitize ==> after.output == state.output.sent(
                frame(completions::sanitized_message(message)),
            )
            &&& wanted ==> !after.active.contains_key(key)
            &&& !wanted ==> after.output == state.output
            &&& !after.decompile.canceled_jobs.contains(token)
            &&& after.job_settled(token, priority, completion, message, now).output
                == after.output || !wanted
        }),
{
}

/// A search for workspace symbols takes the place of the one before it: the language server is told to
/// call that off where it has not answered, and its answer is then dropped; where its answer was being
/// rewritten, that is called off. What is told is no more than that.
pub proof fn lemma_search_superseded<S>(
    state: RouterView<S>,
    token: u64,
    told: Seq<JsonView>,
    id: JsonView,
    previous: u64,
)
    requires
        state.sound(),
        state.latest_workspace == Some(previous),
        state.may_be_told(told),
    ensures
        ({
            let after = state.workspace_superseded(token, told);
            &&& after.latest_workspace == Some(token)
            &&& after.output == state.output
            &&& after.to_server == state.to_server + told
            &&& state.watched.contains_key(id) && state.watched[id].token == previous ==> {
                &&& !after.watched.contains_key(id)
                &&& after.suppressed.contains(id)
                &&& told.len() == 1
                &&& told[0].get("method"@) == Some(JsonView::Str("$/cancelRequest"@))
                &&& told[0].get2("params"@, "id"@) matches Some(named) && named.unsigned_zeros()
                    == id
            }
            &&& state.active.contains_key(id) && state.active[id] == previous ==> {
                &&& !after.active.contains_key(id)
                &&& after.decompile == state.decompile.canceled(previous)
            }
            &&& state.watched.contains_key(id) && state.watched[id].token != previous ==> {
                &&& after.watched.contains_key(id)
                &&& after.watched[id] == state.watched[id]
            }
        }),
{
    if state.watched.contains_key(id) && state.watched[id].token == previous {
        assert(tracked_with(state.watched, previous) == Some(id));
        let original = choose|original: JsonView|
            original.unsigned_zeros() == id && told[0] == #[trigger] requests::cancellation(
                original,
            );
        requests::lemma_cancellation(original);
    }
    if state.active.contains_key(id) && state.active[id] == previous {
        assert(active_with(state.active, previous) == Some(id));
    }
}

/// Where the editor calls off a request whose answer is being rewritten, the requests for class sources
/// to call off are those that nothing waits for any more, and where it calls off another, there are none.
pub proof fn lemma_fetches_called_off<S>(
    state: RouterView<S>,
    raw: Seq<u8>,
    message: JsonView,
    id: JsonView,
    ids: Seq<Seq<char>>,
)
    requires
        lsp::has_bytes(raw, seq![34u8, 105u8, 100u8, 34u8]),
        lsp::message_of(raw) == Some(message),
        message.get("method"@) == Some(JsonView::Str("$/cancelRequest"@)),
        message.get2("params"@, "id"@) == Some(id),
        called_off(ids, state.editor_rounds(raw)),
    ensures
        state.active.contains_key(id.unsigned_zeros()) ==> forall|fetch: Seq<char>| #[trigger]
            ids.contains(fetch) <==> state.decompile.canceled(
                state.active[id.unsigned_zeros()],
            ).orphaned_id(fetch),
        !state.active.contains_key(id.unsigned_zeros()) ==> ids.len() == 0,
{
    assert(lsp::id_key() =~= seq![34u8, 105u8, 100u8, 34u8]);
    assert(state.calls_off(raw));
    let key = id.unsigned_zeros();
    if state.active.contains_key(key) {
        let round = state.decompile.canceled(state.active[key]);
        let rounds = seq![round];
        assert(state.editor_rounds(raw) =~= rounds);
        assert(rounds.drop_last() =~= Seq::empty());
        let earlier = ids.len() - round.orphans().len();
        assert(called_off(ids.take(earlier), Seq::<DecompileView>::empty()));
        assert(ids.skip(earlier) =~= ids);
    }
}

/// A notification that calls off no request that it names is passed on, and nothing happens.
pub proof fn lemma_nameless_cancellation<S>(
    state: RouterView<S>,
    raw: Seq<u8>,
    told: Seq<JsonView>,
    message: JsonView,
)
    requires
        lsp::message_of(raw) == Some(message),
        message.get("method"@) == Some(JsonView::Str("$/cancelRequest"@)),
        message.get2("params"@, "id"@) is None,
        lsp::has_bytes(raw, vstd::utf8::encode_utf8("$/cancelRequest"@)),
    ensures
        state.editor_routed(raw, told) == (state, InputRoute::Forward),
{
    assert(state.calls_off(raw));
}

/// A request that takes the id of one whose answer is being rewritten calls that rewriting off, and one
/// that takes the id of the last search for workspace symbols puts an end to that. Otherwise neither
/// happens.
pub proof fn lemma_id_taken_again<S>(
    state: RouterView<S>,
    raw: Seq<u8>,
    told: Seq<JsonView>,
    message: JsonView,
    method: Seq<char>,
    id: JsonView,
)
    requires
        requests_with(raw, message, method, id),
        requests::location_methods().contains(method) || requests::documentation_methods().contains(
            method,
        ) || method == "textDocument/completion"@,
        method != "$/cancelRequest"@,
        method != "workspace/symbol"@,
        state.jobs < u64::MAX,
    ensures
        ({
            let key = id.unsigned_zeros();
            let after = state.editor_routed(raw, told).0;
            &&& after.decompile == if state.active.contains_key(key) {
                state.decompile.canceled(state.active[key])
            } else {
                state.decompile
            }
            &&& after.latest_workspace == if state.watched.contains_key(key)
                && state.latest_workspace == Some(state.watched[key].token) {
                None
            } else {
                state.latest_workspace
            }
            &&& after.suppressed == state.suppressed
            &&& after.to_server == state.to_server
            &&& after.pending == state.pending
        }),
{
    assert(lsp::id_key() =~= seq![34u8, 105u8, 100u8, 34u8]);
    requests::lemma_rewrite_kinds(method);
    requests::lemma_request_noted(message, state.jobs);
    assert(!state.calls_off(raw));
}

/// The last search for workspace symbols is over once it is answered, with an error or with what was
/// rewritten, or called off; the end of any other request leaves it as it is.
pub proof fn lemma_search_over<S>(
    state: RouterView<S>,
    token: u64,
    priority: Priority,
    completion: CompletionView,
    message: JsonView,
    raw: Seq<u8>,
    id: JsonView,
    now: u64,
)
    ensures
        ({
            let after = state.job_settled(token, priority, completion, message, now);
            let over = completion.workspace && !state.decompile.canceled_jobs.contains(token)
                && state.latest_workspace == Some(token);
            after.latest_workspace == if over {
                None
            } else {
                state.latest_workspace
            }
        }),
        answers(state, raw, message, id) && !state.suppressed.contains(id.unsigned_zeros())
            && message.get("error"@) is Some && state.watched.contains_key(id.unsigned_zeros())
            && state.watched[id.unsigned_zeros()].method == "workspace/symbol"@ ==> {
            let after = state.server_routed(raw, now).0;
            after.latest_workspace == if state.latest_workspace == Some(
                state.watched[id.unsigned_zeros()].token,
            ) {
                None
            } else {
                state.latest_workspace
            }
        },
        ({
            let key = id.unsigned_zeros();
            let after = state.request_dropped(id);
            let named = state.watched.contains_key(key) && state.latest_workspace == Some(
                state.watched[key].token,
            ) || state.active.contains_key(key) && state.latest_workspace == Some(
                state.active[key],
            );
            after.latest_workspace == if named {
                None
            } else {
                state.latest_workspace
            }
        }),
{
    assert(lsp::id_key() =~= seq![34u8, 105u8, 100u8, 34u8]);
    reveal_strlit("workspace/symbol");
    reveal_strlit("completionItem/resolve");
    assert("workspace/symbol"@.len() != "completionItem/resolve"@.len());
    if state.watched.contains_key(id.unsigned_zeros()) {
        requests::lemma_failed_resolution(message, state.watched[id.unsigned_zeros()]);
    }
}

} // verus!
