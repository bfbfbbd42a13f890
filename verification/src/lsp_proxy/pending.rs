//! The requests that the proxy makes of the language server on its own account.

use crate::json::{Json, JsonView};
use crate::table::{Held, Table};
use vstd::prelude::*;

verus! {

/// The requests of the proxy: those that someone waits for, and all that are not answered yet.
pub struct PendingResponses<S> {
    pub pending: Table<Json, Held<S>>,
    pub owned: Table<Json, ()>,
}

/// What a `PendingResponses` holds.
#[verifier::ext_equal]
pub struct PendingView<S> {
    pub pending: Map<JsonView, S>,
    pub owned: Set<JsonView>,
}

impl<S> View for PendingResponses<S> {
    type V = PendingView<S>;

    open spec fn view(&self) -> PendingView<S> {
        PendingView { pending: self.pending@, owned: self.owned@.dom() }
    }
}

/// What becomes of a message from the language server.
pub enum Routed<S> {
    /// It is none of the proxy's answers.
    Passed,
    /// It answers a request of the proxy that nobody waits for any more.
    Swallowed,
    /// It answers a request of the proxy, and goes to whoever waits for it.
    Delivered(S),
}

/// The request that `message` answers, where it is an answer.
pub open spec fn answered_id(message: JsonView) -> Option<JsonView> {
    if message.get("method"@) is Some {
        None
    } else {
        message.get("id"@)
    }
}

impl<S> PendingView<S> {
    /// A request with the id `id` is made, and `sender` waits for its answer.
    pub open spec fn registered(self, id: JsonView, sender: S) -> PendingView<S> {
        PendingView {
            pending: self.pending.insert(id.unsigned_zeros(), sender),
            owned: self.owned.insert(id.unsigned_zeros()),
        }
    }

    /// Nobody waits for the answer to the request `id` any more.
    pub open spec fn abandoned(self, id: JsonView) -> PendingView<S> {
        PendingView { pending: self.pending.remove(id.unsigned_zeros()), owned: self.owned }
    }

    /// `message` has come.
    pub open spec fn routed(self, message: JsonView) -> PendingView<S> {
        match answered_id(message) {
            Some(id) => PendingView {
                pending: self.pending.remove(id.unsigned_zeros()),
                owned: self.owned.remove(id.unsigned_zeros()),
            },
            None => self,
        }
    }

    /// What becomes of `message`.
    pub open spec fn route(self, message: JsonView) -> Routed<S> {
        match answered_id(message) {
            Some(id) => if self.pending.contains_key(id.unsigned_zeros()) {
                Routed::Delivered(self.pending[id.unsigned_zeros()])
            } else if self.owned.contains(id.unsigned_zeros()) {
                Routed::Swallowed
            } else {
                Routed::Passed
            },
            None => Routed::Passed,
        }
    }
}

impl<S> PendingResponses<S> {
    /// No id occurs twice.
    pub open spec fn well_formed(self) -> bool {
        self.pending.well_formed() && self.owned.well_formed()
    }

    /// Without requests.
    pub fn new() -> (r: Self)
        ensures
            r.well_formed(),
            r@ == (PendingView::<S> { pending: Map::empty(), owned: Set::empty() }),
    {
        let r = PendingResponses { pending: Table::new(), owned: Table::new() };
        assert(r@.owned =~= Set::empty());
        r
    }

    /// Notes that a request with the id `id` is made, and that `sender` waits for its answer.
    pub fn register(&mut self, id: Json, sender: S)
        requires
            old(self).well_formed(),
        ensures
            final(self).well_formed(),
            final(self)@ == old(self)@.registered(id@, sender),
    {
        let ghost before = self@;
        self.owned.insert(id.clone(), ());
        self.pending.insert(id, Held { value: sender });
        assert(self@ =~= before.registered(id@, sender));
    }

    /// Notes that nobody waits for the answer to the request `id` any more. The answer stays the
    /// proxy's.
    pub fn remove(&mut self, id: &Json)
        requires
            old(self).well_formed(),
        ensures
            final(self).well_formed(),
            final(self)@ == old(self)@.abandoned(id@),
    {
        self.pending.remove(id);
    }

    /// Says whether `message` answers a request of the proxy, and must not be forwarded to the
    /// editor, and who waits for it. It answers the request once.
    pub fn route(&mut self, message: &Json) -> (r: Routed<S>)
        requires
            old(self).well_formed(),
        ensures
            final(self).well_formed(),
            final(self)@ == old(self)@.routed(message@),
            r == old(self)@.route(message@),
    {
        let ghost before = self@;
        if message.get("method").is_some() {
            return Routed::Passed;
        }
        match message.get("id") {
            Some(id) => {
                let receiver = self.pending.remove(id);
                let owned = self.owned.remove(id).is_some();
                assert(self@ =~= before.routed(message@));
                match receiver {
                    Some(receiver) => Routed::Delivered(receiver.value),
                    None => if owned {
                        Routed::Swallowed
                    } else {
                        Routed::Passed
                    },
                }
            },
            None => Routed::Passed,
        }
    }

    /// Forgets all requests.
    pub fn clear(&mut self)
        ensures
            final(self).well_formed(),
            final(self)@ == (PendingView::<S> { pending: Map::empty(), owned: Set::empty() }),
    {
        self.pending = Table::new();
        self.owned = Table::new();
        assert(self@.owned =~= Set::empty());
    }
}

/// An answer to a request of the proxy goes to whoever made it, once; a second is passed on.
pub proof fn lemma_answered_once<S>(state: PendingView<S>, id: JsonView, sender: S, answer: JsonView)
    requires
        answered_id(answer) matches Some(answered) && answered.unsigned_zeros()
            == id.unsigned_zeros(),
    ensures
        state.registered(id, sender).route(answer) == Routed::Delivered(sender),
        state.registered(id, sender).routed(answer).route(answer) is Passed,
{
}

/// An answer that comes after nobody waits for it any more is swallowed, once.
pub proof fn lemma_late_answer_swallowed<S>(
    state: PendingView<S>,
    id: JsonView,
    sender: S,
    answer: JsonView,
)
    requires
        answered_id(answer) matches Some(answered) && answered.unsigned_zeros()
            == id.unsigned_zeros(),
    ensures
        state.registered(id, sender).abandoned(id).route(answer) is Swallowed,
        state.registered(id, sender).abandoned(id).routed(answer).route(answer) is Passed,
{
}

/// Whatever happens to other requests, an answer stays the proxy's until it comes.
pub proof fn lemma_owned_until_answered<S>(
    state: PendingView<S>,
    id: JsonView,
    other: JsonView,
    sender: S,
    message: JsonView,
)
    requires
        state.owned.contains(id.unsigned_zeros()),
        answered_id(message) matches Some(answered) ==> answered.unsigned_zeros()
            != id.unsigned_zeros(),
    ensures
        state.registered(other, sender).owned.contains(id.unsigned_zeros()),
        state.abandoned(other).owned.contains(id.unsigned_zeros()),
        state.routed(message).owned.contains(id.unsigned_zeros()),
{
}

/// A message with a method is a request or a notification of the server's and passes, even where its id
/// is that of a request of the proxy; so does a message without an id.
pub proof fn lemma_requests_pass<S>(state: PendingView<S>, message: JsonView)
    requires
        message.get("method"@) is Some || message.get("id"@) is None,
    ensures
        state.route(message) is Passed,
        state.routed(message) == state,
{
}

/// An answer to a request that the proxy did not make passes.
pub proof fn lemma_foreign_answers_pass<S>(state: PendingView<S>, message: JsonView, id: JsonView)
    requires
        message.get("id"@) == Some(id),
        !state.pending.contains_key(id.unsigned_zeros()),
        !state.owned.contains(id.unsigned_zeros()),
    ensures
        state.route(message) is Passed,
        state.routed(message).pending =~= state.pending,
        state.routed(message).owned =~= state.owned,
{
}

} // verus!
