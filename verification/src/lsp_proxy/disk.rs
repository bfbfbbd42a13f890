//! What the directory of kept class sources holds while several writers, in one process or in more,
//! write the source of the same class to it.

use crate::lsp_proxy::cache;
use vstd::prelude::*;

verus! {

/// How far a writer has come.
pub enum WriterPhase {
    /// It has decided to write.
    Decided,
    /// It has made its temporary file, and written this many bytes to it.
    Writing(nat),
    /// It has given its file the name under which the source is kept, or has given up.
    Done,
}

/// A writer that was told to write `content` to `temporary` first.
pub struct WriterView {
    pub temporary: Seq<char>,
    pub content: Seq<u8>,
    pub phase: WriterPhase,
}

/// What happens to a file. The number is that of the writer.
pub enum DiskEvent {
    /// The temporary file is made, unless there is one.
    Make(int),
    /// This many bytes more are written, or the rest.
    Write(int, nat),
    /// The temporary file, written in full, gets the name under which the source is kept, in the
    /// place of what had it.
    Rename(int),
    /// The temporary file is removed.
    GiveUp(int),
}

/// The files, and who writes to them.
pub struct DiskView {
    pub files: Map<Seq<char>, Seq<u8>>,
    pub writers: Seq<WriterView>,
}

impl DiskView {
    /// The writer `i` is at `phase`.
    pub open spec fn at(self, i: int, phase: WriterPhase) -> Seq<WriterView> {
        self.writers.update(i, WriterView { phase, ..self.writers[i] })
    }

    /// `event` has happened, where the source is kept under the name `target`.
    pub open spec fn happened(self, target: Seq<char>, event: DiskEvent) -> DiskView {
        match event {
            DiskEvent::Make(i) => if 0 <= i < self.writers.len() && self.writers[i].phase is Decided
                && !self.files.contains_key(self.writers[i].temporary) {
                DiskView {
                    files: self.files.insert(self.writers[i].temporary, Seq::empty()),
                    writers: self.at(i, WriterPhase::Writing(0)),
                }
            } else {
                self
            },
            DiskEvent::Write(i, n) => if 0 <= i < self.writers.len() {
                match self.writers[i].phase {
                    WriterPhase::Writing(written) => {
                        let content = self.writers[i].content;
                        let more = if written + n <= content.len() {
                            (written + n) as nat
                        } else {
                            content.len()
                        };
                        DiskView {
                            files: self.files.insert(
                                self.writers[i].temporary,
                                content.take(more as int),
                            ),
                            writers: self.at(i, WriterPhase::Writing(more)),
                        }
                    },
                    _ => self,
                }
            } else {
                self
            },
            DiskEvent::Rename(i) => if 0 <= i < self.writers.len() && self.writers[i].phase
                == WriterPhase::Writing(self.writers[i].content.len()) {
                let temporary = self.writers[i].temporary;
                DiskView {
                    files: self.files.remove(temporary).insert(target, self.files[temporary]),
                    writers: self.at(i, WriterPhase::Done),
                }
            } else {
                self
            },
            DiskEvent::GiveUp(i) => if 0 <= i < self.writers.len()
                && self.writers[i].phase is Writing {
                DiskView {
                    files: self.files.remove(self.writers[i].temporary),
                    writers: self.at(i, WriterPhase::Done),
                }
            } else {
                self
            },
        }
    }

    /// The first `n` of `events` have happened.
    pub open spec fn all_happened(self, target: Seq<char>, events: Seq<DiskEvent>, n: int) -> DiskView
        decreases n,
    {
        if n <= 0 || n > events.len() {
            self
        } else {
            self.all_happened(target, events, n - 1).happened(target, events[n - 1])
        }
    }

    /// Each writer has a temporary file of its own, which is not `target`.
    pub open spec fn apart(self, target: Seq<char>) -> bool {
        &&& forall|i: int|
            0 <= i < self.writers.len() ==> (#[trigger] self.writers[i]).temporary != target
        &&& forall|i: int, j: int|
            0 <= i < j < self.writers.len() ==> (#[trigger] self.writers[i]).temporary != (
            #[trigger] self.writers[j]).temporary
    }

    /// The temporary file of each writer holds what it has written.
    pub open spec fn kept_up(self) -> bool {
        forall|i: int|
            0 <= i < self.writers.len() ==> match (#[trigger] self.writers[i]).phase {
                WriterPhase::Writing(written) => written <= self.writers[i].content.len()
                    && self.files.contains_key(self.writers[i].temporary)
                    && self.files[self.writers[i].temporary] == self.writers[i].content.take(
                    written as int,
                ),
                _ => true,
            }
    }

    /// `bytes` are all that some writer was told to write.
    pub open spec fn written_whole(self, bytes: Seq<u8>) -> bool {
        exists|i: int| 0 <= i < self.writers.len() && (#[trigger] self.writers[i]).content == bytes
    }

    /// What is kept under the name `target` is what was there before (`before`), or all that some
    /// writer was told to write.
    pub open spec fn whole(self, target: Seq<char>, before: Option<Seq<u8>>) -> bool {
        if self.files.contains_key(target) {
            before == Some(self.files[target]) || self.written_whole(self.files[target])
        } else {
            before is None
        }
    }
}

proof fn lemma_happened(
    disk: DiskView,
    target: Seq<char>,
    before: Option<Seq<u8>>,
    event: DiskEvent,
)
    requires
        disk.apart(target),
        disk.kept_up(),
        disk.whole(target, before),
    ensures
        disk.happened(target, event).apart(target),
        disk.happened(target, event).kept_up(),
        disk.happened(target, event).whole(target, before),
        disk.happened(target, event).writers.len() == disk.writers.len(),
        forall|i: int|
            0 <= i < disk.writers.len() ==> (#[trigger] disk.happened(
                target,
                event,
            ).writers[i]).content == disk.writers[i].content,
{
    let after = disk.happened(target, event);
    assert forall|i: int| 0 <= i < disk.writers.len() implies (
    #[trigger] after.writers[i]).temporary == disk.writers[i].temporary && after.writers[i].content
        == disk.writers[i].content by {}
    assert(after.apart(target)) by {
        assert forall|i: int, j: int| 0 <= i < j < after.writers.len() implies (
        #[trigger] after.writers[i]).temporary != (#[trigger] after.writers[j]).temporary by {
            assert(disk.writers[i].temporary != disk.writers[j].temporary);
        }
    }
    assert forall|i: int| 0 <= i < after.writers.len() implies match (
    #[trigger] after.writers[i]).phase {
        WriterPhase::Writing(written) => written <= after.writers[i].content.len()
            && after.files.contains_key(after.writers[i].temporary)
            && after.files[after.writers[i].temporary] == after.writers[i].content.take(
            written as int,
        ),
        _ => true,
    } by {
        assert(disk.writers[i].temporary != target);
        let at = match event {
            DiskEvent::Make(at) => at,
            DiskEvent::Write(at, _) => at,
            DiskEvent::Rename(at) => at,
            DiskEvent::GiveUp(at) => at,
        };
        if 0 <= at < disk.writers.len() && at != i {
            if i < at {
                assert(disk.writers[i].temporary != disk.writers[at].temporary);
            } else {
                assert(disk.writers[at].temporary != disk.writers[i].temporary);
            }
        }
    }
    if let DiskEvent::Rename(at) = event {
        if 0 <= at < disk.writers.len() && disk.writers[at].phase == WriterPhase::Writing(
            disk.writers[at].content.len(),
        ) {
            let content = disk.writers[at].content;
            assert(content.take(content.len() as int) =~= content);
            assert(after.files[target] == content);
            assert(after.writers[at].content == content);
            assert(after.written_whole(content));
        }
    }
    if disk.files.contains_key(target) && disk.written_whole(disk.files[target]) {
        let i = choose|i: int|
            0 <= i < disk.writers.len() && (#[trigger] disk.writers[i]).content
                == disk.files[target];
        assert(after.writers[i].content == disk.files[target]);
    }
}

proof fn lemma_all_happened(
    disk: DiskView,
    target: Seq<char>,
    before: Option<Seq<u8>>,
    events: Seq<DiskEvent>,
    n: int,
)
    requires
        disk.apart(target),
        disk.kept_up(),
        disk.whole(target, before),
    ensures
        ({
            let after = disk.all_happened(target, events, n);
            &&& after.apart(target)
            &&& after.kept_up()
            &&& after.whole(target, before)
            &&& after.writers.len() == disk.writers.len()
            &&& forall|i: int|
                0 <= i < disk.writers.len() ==> (#[trigger] after.writers[i]).content
                    == disk.writers[i].content
        }),
    decreases n,
{
    if 0 < n <= events.len() {
        lemma_all_happened(disk, target, before, events, n - 1);
        let earlier = disk.all_happened(target, events, n - 1);
        let after = disk.all_happened(target, events, n);
        lemma_happened(earlier, target, before, events[n - 1]);
        assert forall|i: int| 0 <= i < disk.writers.len() implies (
        #[trigger] after.writers[i]).content == disk.writers[i].content by {
            assert(earlier.writers[i].content == disk.writers[i].content);
        }
    }
}

/// Whatever the order in which writers of the source for `uri` get on, and wherever they are
/// stopped, the file under which it is kept never holds a part of a source or a mixture of two: it
/// holds what it held before, or all that one of them was told to write. The writers are told apart
/// by their process and their number in it.
pub proof fn lemma_kept_files_are_whole(
    directory: Seq<char>,
    uri: Seq<char>,
    disk: DiskView,
    names: Seq<(u32, u64)>,
    events: Seq<DiskEvent>,
    windows: bool,
)
    requires
        names.no_duplicates(),
        names.len() == disk.writers.len(),
        forall|i: int|
            0 <= i < disk.writers.len() ==> (#[trigger] disk.writers[i]).phase is Decided
                && disk.writers[i].temporary == cache::temporary_file(
                directory,
                uri,
                names[i].0,
                names[i].1,
                windows,
            ),
    ensures
        ({
            let target = cache::cache_file(directory, uri, windows);
            let after = disk.all_happened(target, events, events.len() as int);
            if after.files.contains_key(target) {
                ||| disk.files.contains_key(target) && after.files[target] == disk.files[target]
                ||| disk.written_whole(after.files[target])
            } else {
                !disk.files.contains_key(target)
            }
        }),
{
    let target = cache::cache_file(directory, uri, windows);
    let before = if disk.files.contains_key(target) {
        Some(disk.files[target])
    } else {
        None
    };
    assert forall|i: int| 0 <= i < disk.writers.len() implies (
    #[trigger] disk.writers[i]).temporary != target by {
        cache::lemma_temporary_files_differ(
            directory,
            uri,
            names[i].0,
            names[i].1,
            0,
            0,
            windows,
        );
    }
    assert forall|i: int, j: int| 0 <= i < j < disk.writers.len() implies (
    #[trigger] disk.writers[i]).temporary != (#[trigger] disk.writers[j]).temporary by {
        assert(names[i] != names[j]);
        cache::lemma_temporary_files_differ(
            directory,
            uri,
            names[i].0,
            names[i].1,
            names[j].0,
            names[j].1,
            windows,
        );
    }
    lemma_all_happened(disk, target, before, events, events.len() as int);
    let after = disk.all_happened(target, events, events.len() as int);
    if after.files.contains_key(target) && after.written_whole(after.files[target]) {
        let i = choose|i: int|
            0 <= i < after.writers.len() && (#[trigger] after.writers[i]).content
                == after.files[target];
        assert(disk.writers[i].content == after.files[target]);
    }
}

} // verus!
