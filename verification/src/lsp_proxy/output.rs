//! What goes to the editor.

use crate::json::Json;
use crate::json;
use crate::lsp;
use std::collections::VecDeque;
use vstd::prelude::*;
use vstd::slice::*;

verus! {

/// The messages that wait to be written to the editor.
pub struct Output {
    pub queue: VecDeque<Vec<u8>>,
    /// Nothing is written any more.
    pub closed: bool,
    /// A message was lost.
    pub failed: bool,
}

/// What an `Output` holds.
#[verifier::ext_equal]
pub struct OutputView {
    pub queue: Seq<Seq<u8>>,
    pub closed: bool,
    pub failed: bool,
}

/// The bytes of the messages.
pub open spec fn messages(queue: Seq<Vec<u8>>) -> Seq<Seq<u8>> {
    queue.map_values(|message: Vec<u8>| message@)
}

impl View for Output {
    type V = OutputView;

    open spec fn view(&self) -> OutputView {
        OutputView { queue: messages(self.queue@), closed: self.closed, failed: self.failed }
    }
}

impl OutputView {
    /// `raw` is handed over to be written.
    pub open spec fn sent(self, raw: Seq<u8>) -> OutputView {
        if self.closed {
            OutputView { failed: true, ..self }
        } else {
            OutputView { queue: self.queue.push(raw), ..self }
        }
    }

    /// The first message is taken to be written.
    pub open spec fn taken(self) -> OutputView {
        if self.queue.len() > 0 {
            OutputView { queue: self.queue.drop_first(), ..self }
        } else {
            self
        }
    }

    /// What `n` writers in turn take.
    pub open spec fn written(self, n: nat) -> Seq<Seq<u8>>
        decreases n,
    {
        if n == 0 || self.queue.len() == 0 {
            Seq::empty()
        } else {
            seq![self.queue[0]] + self.taken().written((n - 1) as nat)
        }
    }

    /// `all` are handed over one after the other.
    pub open spec fn sent_all(self, all: Seq<Seq<u8>>) -> OutputView
        decreases all.len(),
    {
        if all.len() == 0 {
            self
        } else {
            self.sent_all(all.drop_last()).sent(all.last())
        }
    }
}

impl Output {
    /// Without messages.
    pub fn start() -> (r: Self)
        ensures
            r@ == (OutputView { queue: Seq::empty(), closed: false, failed: false }),
    {
        let r = Output { queue: VecDeque::new(), closed: false, failed: false };
        assert(r@.queue =~= Seq::empty());
        r
    }

    /// Hands `raw` over to be written, and says whether it will be.
    pub fn send_raw(&mut self, raw: Vec<u8>) -> (r: bool)
        ensures
            final(self)@ == old(self)@.sent(raw@),
            r == !old(self)@.closed,
    {
        let ghost before = self@;
        if self.closed {
            self.failed = true;
            assert(self@ =~= before.sent(raw@));
            return false;
        }
        self.queue.push_back(raw);
        assert(self@ =~= before.sent(raw@));
        true
    }

    /// Hands the message with the content `value` over to be written, and says whether it will
    /// be.
    pub fn send_value(&mut self, value: &Json) -> (r: bool)
        ensures
            final(self)@ == old(self)@.sent(
                vstd::utf8::encode_utf8(lsp::framed(json::json_text(value@))),
            ),
            r == !old(self)@.closed,
    {
        let message = lsp::encode_lsp(value);
        self.send_raw(slice_to_vec(message.as_str().as_bytes()))
    }

    /// Whether a message was lost.
    pub fn failed(&self) -> (r: bool)
        ensures
            r == self@.failed,
    {
        self.failed
    }

    /// Takes the first message, which is to be written.
    pub fn take_message(&mut self) -> (r: Option<Vec<u8>>)
        ensures
            final(self)@ == old(self)@.taken(),
            (match r {
                Some(message) => old(self)@.queue.len() > 0 && message@ == old(self)@.queue[0],
                None => old(self)@.queue.len() == 0,
            }),
    {
        let ghost before = self@;
        let ghost queue = self.queue@;
        let r = self.queue.pop_front();
        assert(queue.len() > 0 ==> messages(queue)[0] == queue[0]@);
        assert(self@ =~= before.taken());
        r
    }

    /// Notes that a message could not be written, after which none is.
    pub fn fail(&mut self)
        ensures
            final(self)@ == (OutputView { queue: Seq::empty(), closed: true, failed: true }),
    {
        self.queue.clear();
        self.closed = true;
        self.failed = true;
        assert(self@.queue =~= Seq::empty());
    }

    /// Sees to it that no more messages are taken on.
    pub fn shutdown(&mut self)
        ensures
            final(self)@ == (OutputView { closed: true, ..old(self)@ }),
    {
        self.closed = true;
    }
}

/// Messages are written whole and in the order in which they were handed over.
pub proof fn lemma_written_in_order(output: OutputView, all: Seq<Seq<u8>>)
    requires
        !output.closed,
    ensures
        !output.sent_all(all).closed,
        output.sent_all(all).queue == output.queue + all,
        output.sent_all(all).written((output.queue.len() + all.len()) as nat) == output.queue + all,
    decreases all.len(),
{
    lemma_sent_all(output, all);
    lemma_written(output.sent_all(all));
}

proof fn lemma_sent_all(output: OutputView, all: Seq<Seq<u8>>)
    requires
        !output.closed,
    ensures
        !output.sent_all(all).closed,
        output.sent_all(all).queue == output.queue + all,
    decreases all.len(),
{
    if all.len() > 0 {
        lemma_sent_all(output, all.drop_last());
        assert(output.queue + all =~= (output.queue + all.drop_last()).push(all.last()));
    } else {
        assert(output.queue + all =~= output.queue);
    }
}

proof fn lemma_written(output: OutputView)
    ensures
        output.written(output.queue.len()) == output.queue,
    decreases output.queue.len(),
{
    if output.queue.len() > 0 {
        lemma_written(output.taken());
        assert(seq![output.queue[0]] + output.queue.drop_first() =~= output.queue);
    }
}

/// A message that is handed over after nothing is written any more is lost, and that is noted; before that
/// none is.
pub proof fn lemma_lost_messages(output: OutputView, raw: Seq<u8>)
    ensures
        output.closed ==> output.sent(raw).failed && output.sent(raw).queue == output.queue,
        !output.closed ==> output.sent(raw).failed == output.failed && output.sent(raw).queue.last()
            == raw,
        output.sent(raw).closed == output.closed,
{
}

} // verus!
