//! The work of rewriting answers that name classes without a source file: the answers that wait
//! for it, and the class sources that are fetched for them, each once for all that wait for it.

use crate::json::{Json, JsonView};
use crate::lsp_proxy::cache;
use crate::lsp_proxy::sources::RewriteMode;
use crate::table::{Key, Table};
use crate::table;
use crate::text;
use std::collections::{HashSet, VecDeque};
use vstd::prelude::*;
use vstd::std_specs::hash::*;
use vstd::string::*;

verus! {

broadcast use vstd::std_specs::hash::group_hash_axioms;

/// How many answers can wait at a time.
pub const MAX_QUEUED_JOBS: usize = 64;

/// How many workers rewrite answers.
pub const JOB_WORKERS: usize = 2;

/// How many workers fetch class sources.
pub const FETCH_WORKERS: usize = 2;

/// How long a fetch may take, in milliseconds.
pub const FETCH_TIMEOUT: u64 = 5000;

/// How long a failed fetch is not tried again, in milliseconds.
pub const NEGATIVE_CACHE_TTL: u64 = 2000;

/// The time `wait` after `now`, or the last time that can be told, where that comes first.
pub open spec fn time_after(now: u64, wait: u64) -> u64 {
    if now + wait <= u64::MAX {
        (now + wait) as u64
    } else {
        u64::MAX
    }
}

/// Whether someone waits for the work, or it is one of many pieces.
#[derive(Clone, Copy, Debug, PartialEq, Eq, Structural)]
pub enum Priority {
    Interactive,
    Bulk,
}

/// What becomes of an answer once it is rewritten.
pub struct Completion {
    /// The request that it answers.
    pub id: Json,
    /// It is a resolved completion item, which is to be cleaned.
    pub sanitize: bool,
    /// It answers a search for workspace symbols.
    pub workspace: bool,
}

/// What a `Completion` holds.
pub struct CompletionView {
    pub id: JsonView,
    pub sanitize: bool,
    pub workspace: bool,
}

impl View for Completion {
    type V = CompletionView;

    open spec fn view(&self) -> CompletionView {
        CompletionView { id: self.id@, sanitize: self.sanitize, workspace: self.workspace }
    }
}

/// An answer that is to be rewritten.
pub struct RewriteJob {
    pub token: u64,
    pub message: Json,
    pub mode: RewriteMode,
    pub priority: Priority,
    /// When to stop waiting, in milliseconds.
    pub deadline: u64,
    pub completion: Completion,
}

/// What a `RewriteJob` holds.
pub struct JobView {
    pub token: u64,
    pub message: JsonView,
    pub mode: RewriteMode,
    pub priority: Priority,
    pub deadline: u64,
    pub completion: CompletionView,
}

impl View for RewriteJob {
    type V = JobView;

    open spec fn view(&self) -> JobView {
        JobView {
            token: self.token,
            message: self.message@,
            mode: self.mode,
            priority: self.priority,
            deadline: self.deadline,
            completion: self.completion@,
        }
    }
}

/// How far the fetch of a class source has come.
pub enum UriStatus {
    Queued(Priority),
    /// Asked for, by the request with this id.
    InFlight(String),
    /// There, under this file URI.
    Ready(String),
    /// Failed, and not to be tried again before this time.
    Failed(u64),
}

/// What a `UriStatus` holds.
pub enum StatusView {
    Queued(Priority),
    InFlight(Seq<char>),
    Ready(Seq<char>),
    Failed(u64),
}

impl View for UriStatus {
    type V = StatusView;

    open spec fn view(&self) -> StatusView {
        match self {
            UriStatus::Queued(priority) => StatusView::Queued(*priority),
            UriStatus::InFlight(id) => StatusView::InFlight(id@),
            UriStatus::Ready(uri) => StatusView::Ready(uri@),
            UriStatus::Failed(until) => StatusView::Failed(*until),
        }
    }
}

/// A class source that is wanted, and the answers that wait for it.
pub struct UriEntry {
    pub status: UriStatus,
    pub waiters: HashSet<u64>,
}

/// What a `UriEntry` holds.
#[verifier::ext_equal]
pub struct UriView {
    pub status: StatusView,
    pub waiters: Set<u64>,
}

impl View for UriEntry {
    type V = UriView;

    open spec fn view(&self) -> UriView {
        UriView { status: self.status@, waiters: self.waiters@ }
    }
}

impl UriView {
    /// Without `token` among those that wait.
    pub open spec fn without(self, token: u64) -> UriView {
        UriView { status: self.status, waiters: self.waiters.remove(token) }
    }

    /// There is still a reason to keep it at `now`.
    pub open spec fn kept(self, now: u64) -> bool {
        ||| !self.waiters.is_empty()
        ||| self.status is InFlight
        ||| self.status matches StatusView::Failed(until) && until > now
    }

    /// It is asked for, and nothing waits for it any more.
    pub open spec fn orphaned(self) -> bool {
        self.waiters.is_empty() && self.status is InFlight
    }

    /// It waits to be fetched with this priority, and something waits for it.
    pub open spec fn wanted(self, priority: Priority) -> bool {
        !self.waiters.is_empty() && self.status == StatusView::Queued(priority)
    }
}

/// The answers that wait to be rewritten, and the class sources that are fetched for them.
pub struct DecompileCoordinator {
    pub uris: Table<String, UriEntry>,
    pub interactive_uris: VecDeque<String>,
    pub bulk_uris: VecDeque<String>,
    pub interactive_jobs: VecDeque<RewriteJob>,
    pub bulk_jobs: VecDeque<RewriteJob>,
    pub canceled_jobs: HashSet<u64>,
    pub latest_bulk_job: Option<u64>,
    pub bulk_jobs_active: usize,
    pub bulk_fetches: usize,
    pub shutdown: bool,
    pub owned_id_prefix: String,
    pub request_counter: u64,
    pub max_bulk_jobs: usize,
}

/// What a `DecompileCoordinator` holds.
#[verifier::ext_equal]
pub struct DecompileView {
    pub uris: Map<Seq<char>, UriView>,
    pub interactive_uris: Seq<Seq<char>>,
    pub bulk_uris: Seq<Seq<char>>,
    pub interactive_jobs: Seq<JobView>,
    pub bulk_jobs: Seq<JobView>,
    pub canceled_jobs: Set<u64>,
    pub latest_bulk_job: Option<u64>,
    pub bulk_jobs_active: int,
    pub bulk_fetches: int,
    pub shutdown: bool,
    pub owned_id_prefix: Seq<char>,
    pub request_counter: u64,
    pub max_bulk_jobs: int,
}

/// What the jobs hold.
pub open spec fn job_views(jobs: Seq<RewriteJob>) -> Seq<JobView> {
    jobs.map_values(|job: RewriteJob| job@)
}

impl View for DecompileCoordinator {
    type V = DecompileView;

    open spec fn view(&self) -> DecompileView {
        DecompileView {
            uris: self.uris@,
            interactive_uris: text::texts(self.interactive_uris@),
            bulk_uris: text::texts(self.bulk_uris@),
            interactive_jobs: job_views(self.interactive_jobs@),
            bulk_jobs: job_views(self.bulk_jobs@),
            canceled_jobs: self.canceled_jobs@,
            latest_bulk_job: self.latest_bulk_job,
            bulk_jobs_active: self.bulk_jobs_active as int,
            bulk_fetches: self.bulk_fetches as int,
            shutdown: self.shutdown,
            owned_id_prefix: self.owned_id_prefix@,
            request_counter: self.request_counter,
            max_bulk_jobs: self.max_bulk_jobs as int,
        }
    }
}

/// `uris` without `token` among those that wait.
pub open spec fn without_waiter(uris: Map<Seq<char>, UriView>, token: u64) -> Map<
    Seq<char>,
    UriView,
> {
    uris.map_values(|entry: UriView| entry.without(token))
}

/// Those of `uris` that there is still a reason to keep at `now`.
pub open spec fn pruned(uris: Map<Seq<char>, UriView>, now: u64) -> Map<Seq<char>, UriView> {
    Map::new(
        |uri: Seq<char>| uris.contains_key(uri) && uris[uri].kept(now),
        |uri: Seq<char>| uris[uri],
    )
}

/// `jobs` without those of `token`.
pub open spec fn without_job(jobs: Seq<JobView>, token: u64) -> Seq<JobView> {
    jobs.filter(|job: JobView| job.token != token)
}

impl DecompileView {
    /// Without work.
    pub open spec fn fresh(owned_id_prefix: Seq<char>, max_bulk_jobs: int) -> DecompileView {
        DecompileView {
            uris: Map::empty(),
            interactive_uris: Seq::empty(),
            bulk_uris: Seq::empty(),
            interactive_jobs: Seq::empty(),
            bulk_jobs: Seq::empty(),
            canceled_jobs: Set::empty(),
            latest_bulk_job: None,
            bulk_jobs_active: 0,
            bulk_fetches: 0,
            shutdown: false,
            owned_id_prefix,
            request_counter: 1,
            max_bulk_jobs,
        }
    }

    /// What every operation keeps: no more than `MAX_QUEUED_JOBS` answers wait, no more than one
    /// class source is fetched for bulk work, no more bulk answers are rewritten than there may
    /// be, and each class source that something waits for is in its queue.
    pub open spec fn sound(self) -> bool {
        &&& self.interactive_jobs.len() + self.bulk_jobs.len() <= MAX_QUEUED_JOBS
        &&& 0 <= self.bulk_fetches <= 1
        &&& 0 <= self.bulk_jobs_active <= self.max_bulk_jobs
        &&& 1 <= self.max_bulk_jobs
        &&& forall|uri: Seq<char>| #[trigger]
            self.uris.contains_key(uri) && self.uris[uri].wanted(Priority::Interactive)
                ==> self.interactive_uris.contains(uri)
        &&& forall|uri: Seq<char>| #[trigger]
            self.uris.contains_key(uri) && self.uris[uri].wanted(Priority::Bulk)
                ==> self.bulk_uris.contains(uri)
    }

    /// A job with the token `token` waits to be rewritten.
    pub open spec fn queued(self, token: u64) -> bool {
        ||| exists|i: int|
            0 <= i < self.interactive_jobs.len() && (#[trigger] self.interactive_jobs[i]).token
                == token
        ||| exists|i: int|
            0 <= i < self.bulk_jobs.len() && (#[trigger] self.bulk_jobs[i]).token == token
    }

    /// `token` is called off: its jobs wait no more, and nothing is fetched for it. It is noted
    /// as called off where none of its jobs waited, so that one that is under way is dropped.
    pub open spec fn canceled(self, token: u64) -> DecompileView {
        DecompileView {
            interactive_jobs: without_job(self.interactive_jobs, token),
            bulk_jobs: without_job(self.bulk_jobs, token),
            uris: without_waiter(self.uris, token),
            canceled_jobs: if self.queued(token) {
                self.canceled_jobs.remove(token)
            } else {
                self.canceled_jobs.insert(token)
            },
            ..self
        }
    }

    /// No job can be taken up.
    pub open spec fn full(self) -> bool {
        self.shutdown || self.interactive_jobs.len() + self.bulk_jobs.len() >= MAX_QUEUED_JOBS
    }

    /// `job` is taken up. A bulk job calls off the one before it.
    pub open spec fn submitted(self, job: JobView) -> DecompileView {
        if job.priority == Priority::Interactive {
            DecompileView { interactive_jobs: self.interactive_jobs.push(job), ..self }
        } else {
            let others = match self.latest_bulk_job {
                Some(previous) => self.canceled(previous),
                None => self,
            };
            DecompileView {
                bulk_jobs: others.bulk_jobs.push(job),
                latest_bulk_job: Some(job.token),
                ..others
            }
        }
    }

    /// Nothing more is done.
    pub open spec fn stopped(self) -> DecompileView {
        DecompileView {
            shutdown: true,
            interactive_jobs: Seq::empty(),
            bulk_jobs: Seq::empty(),
            ..self
        }
    }

    /// The next job is handed out: the first interactive one, or else the first of the others
    /// where another may be under way.
    pub open spec fn job_taken(self) -> (DecompileView, Option<JobView>) {
        if self.interactive_jobs.len() > 0 {
            (
                DecompileView { interactive_jobs: self.interactive_jobs.drop_first(), ..self },
                Some(self.interactive_jobs[0]),
            )
        } else if self.bulk_jobs_active < self.max_bulk_jobs && self.bulk_jobs.len() > 0 {
            (
                DecompileView {
                    bulk_jobs: self.bulk_jobs.drop_first(),
                    bulk_jobs_active: self.bulk_jobs_active + 1,
                    ..self
                },
                Some(self.bulk_jobs[0]),
            )
        } else {
            (self, None)
        }
    }

    /// The job `token` is done at `now`.
    pub open spec fn job_finished(self, token: u64, priority: Priority, now: u64) -> DecompileView {
        DecompileView {
            bulk_jobs_active: if priority == Priority::Bulk && self.bulk_jobs_active > 0 {
                self.bulk_jobs_active - 1
            } else {
                self.bulk_jobs_active
            },
            canceled_jobs: self.canceled_jobs.remove(token),
            latest_bulk_job: if self.latest_bulk_job == Some(token) {
                None
            } else {
                self.latest_bulk_job
            },
            uris: pruned(without_waiter(self.uris, token), now),
            ..self
        }
    }

    /// `uri` goes to the end of its queue.
    pub open spec fn uri_queued(self, uri: Seq<char>, priority: Priority) -> DecompileView {
        match priority {
            Priority::Interactive => DecompileView {
                interactive_uris: self.interactive_uris.push(uri),
                ..self
            },
            Priority::Bulk => DecompileView { bulk_uris: self.bulk_uris.push(uri), ..self },
        }
    }

    /// What `uri` is at once `token` waits for it with `priority`, and whether it then goes to
    /// the queue: where it is new, where it failed long enough ago, and where it was to be
    /// fetched for bulk work alone.
    pub open spec fn joined_entry(
        self,
        uri: Seq<char>,
        token: u64,
        priority: Priority,
        now: u64,
    ) -> (UriView, bool) {
        if self.uris.contains_key(uri) {
            let entry = self.uris[uri];
            let waiters = entry.waiters.insert(token);
            let again = match entry.status {
                StatusView::Failed(until) => until <= now,
                StatusView::Queued(queued) => queued == Priority::Bulk && priority
                    == Priority::Interactive,
                _ => false,
            };
            if again {
                (UriView { status: StatusView::Queued(priority), waiters }, true)
            } else {
                (UriView { status: entry.status, waiters }, false)
            }
        } else {
            (
                UriView {
                    status: StatusView::Queued(priority),
                    waiters: Set::<u64>::empty().insert(token),
                },
                true,
            )
        }
    }

    /// `token` waits for `uri`.
    pub open spec fn joined(
        self,
        uri: Seq<char>,
        token: u64,
        priority: Priority,
        now: u64,
    ) -> DecompileView {
        let (entry, again) = self.joined_entry(uri, token, priority, now);
        let with_entry = DecompileView { uris: self.uris.insert(uri, entry), ..self };
        if again {
            with_entry.uri_queued(uri, priority)
        } else {
            with_entry
        }
    }

    /// `token` waits for the first `n` of `uris`.
    pub open spec fn joined_all(
        self,
        uris: Seq<Seq<char>>,
        n: int,
        token: u64,
        priority: Priority,
        now: u64,
    ) -> DecompileView
        decreases n,
    {
        if n <= 0 || n > uris.len() {
            self
        } else {
            self.joined_all(uris, n - 1, token, priority, now).joined(
                uris[n - 1],
                token,
                priority,
                now,
            )
        }
    }

    /// The job `token` begins to wait for `uris`, unless it is called off.
    pub open spec fn resolution_begun(
        self,
        uris: Seq<Seq<char>>,
        token: u64,
        priority: Priority,
        now: u64,
    ) -> DecompileView {
        let rest = DecompileView { uris: pruned(self.uris, now), ..self };
        if self.canceled_jobs.contains(token) {
            rest
        } else {
            rest.joined_all(uris, uris.len() as int, token, priority, now)
        }
    }

    /// `uri` may still come.
    pub open spec fn underway(self, uri: Seq<char>) -> bool {
        self.uris.contains_key(uri) && (self.uris[uri].status is Queued
            || self.uris[uri].status is InFlight)
    }

    /// `uri` is asked for by the request `id`.
    pub open spec fn asks_for(self, uri: Seq<char>, id: Seq<char>) -> bool {
        self.uris.contains_key(uri) && self.uris[uri].status == StatusView::InFlight(id)
    }

    /// `replacements`, with the file URIs of those of the first `n` of `uris` that are there.
    pub open spec fn ready(
        self,
        replacements: Map<Seq<char>, Seq<char>>,
        uris: Seq<Seq<char>>,
        n: int,
    ) -> Map<Seq<char>, Seq<char>>
        decreases n,
    {
        if n <= 0 || n > uris.len() {
            replacements
        } else {
            let earlier = self.ready(replacements, uris, n - 1);
            let uri = uris[n - 1];
            if self.uris.contains_key(uri) {
                match self.uris[uri].status {
                    StatusView::Ready(file_uri) => earlier.insert(uri, file_uri),
                    _ => earlier,
                }
            } else {
                earlier
            }
        }
    }

    /// `token` waits no more for `uris`.
    pub open spec fn left(self, uris: Seq<Seq<char>>, token: u64) -> DecompileView {
        DecompileView {
            uris: self.uris.map_entries(
                |uri: Seq<char>, entry: UriView|
                    if uris.contains(uri) {
                        entry.without(token)
                    } else {
                        entry
                    },
            ),
            ..self
        }
    }

    /// The URIs that are asked for though nothing waits for them any more.
    pub open spec fn orphans(self) -> Set<Seq<char>> {
        Set::new(|uri: Seq<char>| self.uris.contains_key(uri) && self.uris[uri].orphaned())
    }

    /// `id` is the request by which an orphan is asked for.
    pub open spec fn orphaned_id(self, id: Seq<char>) -> bool {
        exists|uri: Seq<char>| #[trigger]
            self.orphans().contains(uri) && self.uris[uri].status == StatusView::InFlight(id)
    }

    /// The first URI in `queue` that is still to be fetched with `priority`.
    pub open spec fn first_wanted(self, queue: Seq<Seq<char>>, priority: Priority) -> int
        decreases queue.len(),
    {
        if queue.len() == 0 || (self.uris.contains_key(queue[0]) && self.uris[queue[0]].wanted(
            priority,
        )) {
            0
        } else {
            1 + self.first_wanted(queue.drop_first(), priority)
        }
    }

    /// What is left of `queue` once its first wanted URI is taken.
    pub open spec fn queue_after(self, queue: Seq<Seq<char>>, priority: Priority) -> Seq<
        Seq<char>,
    > {
        let at = self.first_wanted(queue, priority);
        if at < queue.len() {
            queue.skip(at + 1)
        } else {
            Seq::empty()
        }
    }

    /// The next class source to fetch, and what is left of the queues.
    pub open spec fn uri_popped(self) -> (DecompileView, Option<(Seq<char>, Priority)>) {
        let at = self.first_wanted(self.interactive_uris, Priority::Interactive);
        let rest = DecompileView {
            interactive_uris: self.queue_after(self.interactive_uris, Priority::Interactive),
            ..self
        };
        if at < self.interactive_uris.len() {
            (rest, Some((self.interactive_uris[at], Priority::Interactive)))
        } else if self.bulk_fetches == 0 {
            let bulk_at = self.first_wanted(self.bulk_uris, Priority::Bulk);
            let rest = DecompileView {
                bulk_uris: self.queue_after(self.bulk_uris, Priority::Bulk),
                ..rest
            };
            if bulk_at < self.bulk_uris.len() {
                (rest, Some((self.bulk_uris[bulk_at], Priority::Bulk)))
            } else {
                (rest, None)
            }
        } else {
            (rest, None)
        }
    }

    /// The id of the next request.
    pub open spec fn next_request_id(self) -> Seq<char> {
        self.owned_id_prefix + "decompile-"@ + text::decimal(self.request_counter as nat)
    }

    /// The next class source is asked for.
    pub open spec fn fetch_begun(self) -> DecompileView {
        let (rest, work) = self.uri_popped();
        match work {
            Some((uri, priority)) => DecompileView {
                request_counter: self.request_counter.wrapping_add(1),
                bulk_fetches: if priority == Priority::Bulk {
                    self.bulk_fetches + 1
                } else {
                    self.bulk_fetches
                },
                uris: self.uris.insert(
                    uri,
                    UriView {
                        status: StatusView::InFlight(self.next_request_id()),
                        waiters: self.uris[uri].waiters,
                    },
                ),
                ..rest
            },
            None => rest,
        }
    }

    /// The request `id` for `uri` came to an end at `now`, with a file URI or without.
    pub open spec fn fetch_finished(
        self,
        uri: Seq<char>,
        priority: Priority,
        id: Seq<char>,
        resolved: Option<Seq<char>>,
        now: u64,
    ) -> DecompileView {
        let current = self.uris.contains_key(uri) && self.uris[uri].status
            == StatusView::InFlight(id);
        let status = if current {
            match resolved {
                Some(file_uri) => StatusView::Ready(file_uri),
                None => StatusView::Failed(time_after(now, NEGATIVE_CACHE_TTL)),
            }
        } else {
            self.uris[uri].status
        };
        let entry = UriView { status, waiters: self.uris[uri].waiters };
        DecompileView {
            bulk_fetches: if priority == Priority::Bulk && self.bulk_fetches > 0 {
                self.bulk_fetches - 1
            } else {
                self.bulk_fetches
            },
            uris: if !self.uris.contains_key(uri) {
                self.uris
            } else if status is Ready && entry.waiters.is_empty() {
                self.uris.remove(uri)
            } else {
                self.uris.insert(uri, entry)
            },
            ..self
        }
    }
}

proof fn lemma_filter_push(jobs: Seq<JobView>, job: JobView, token: u64)
    ensures
        without_job(jobs.push(job), token) == if job.token != token {
            without_job(jobs, token).push(job)
        } else {
            without_job(jobs, token)
        },
{
    reveal(Seq::filter);
    assert(jobs.push(job).drop_last() =~= jobs);
}

proof fn lemma_without_job(jobs: Seq<JobView>, token: u64)
    ensures
        without_job(jobs, token).len() <= jobs.len(),
        without_job(jobs, token).len() == jobs.len() <==> forall|i: int|
            0 <= i < jobs.len() ==> (#[trigger] jobs[i]).token != token,
        forall|i: int|
            0 <= i < without_job(jobs, token).len() ==> (#[trigger] without_job(
                jobs,
                token,
            )[i]).token != token,
    decreases jobs.len(),
{
    reveal(Seq::filter);
    if jobs.len() > 0 {
        let rest = jobs.drop_last();
        lemma_without_job(rest, token);
        lemma_filter_push(rest, jobs.last(), token);
        assert(rest.push(jobs.last()) =~= jobs);
        if forall|i: int| 0 <= i < jobs.len() ==> (#[trigger] jobs[i]).token != token {
            assert forall|i: int| 0 <= i < rest.len() implies (#[trigger] rest[i]).token
                != token by {
                assert(rest[i] == jobs[i]);
            }
        }
        if without_job(jobs, token).len() == jobs.len() {
            assert forall|i: int| 0 <= i < jobs.len() implies (#[trigger] jobs[i]).token
                != token by {
                if i < rest.len() {
                    assert(rest[i] == jobs[i]);
                }
            }
        }
    }
}

/// Takes the jobs of `token` out of `jobs`, and says whether there were any.
fn drop_jobs(jobs: &mut VecDeque<RewriteJob>, token: u64) -> (r: bool)
    ensures
        job_views(final(jobs)@) == without_job(job_views(old(jobs)@), token),
        r == exists|i: int|
            0 <= i < old(jobs)@.len() && (#[trigger] job_views(old(jobs)@)[i]).token == token,
{
    let ghost all = job_views(jobs@);
    let n: usize = jobs.len();
    let mut kept: VecDeque<RewriteJob> = VecDeque::new();
    let mut i: usize = 0;
    let mut found = false;
    proof {
        reveal(Seq::filter);
        assert(all.take(0) =~= Seq::empty());
        assert(job_views(kept@) =~= Seq::empty());
        assert(all.skip(0) =~= all);
    }
    while i < n
        invariant
            i <= n == all.len(),
            job_views(jobs@) == all.skip(i as int),
            job_views(kept@) == without_job(all.take(i as int), token),
            found == exists|j: int| 0 <= j < i && (#[trigger] all[j]).token == token,
        decreases n - i,
    {
        let ghost before = jobs@;
        let ghost kept_before = kept@;
        assert(job_views(before)[0] == all[i as int]);
        match jobs.pop_front() {
            Some(job) => {
                proof {
                    assert(job@ == all[i as int]);
                    assert(all.take(i + 1) =~= all.take(i as int).push(job@));
                    lemma_filter_push(all.take(i as int), job@, token);
                    assert(job_views(jobs@) =~= job_views(before).skip(1));
                    assert(all.skip(i as int).skip(1) =~= all.skip(i + 1));
                }
                if job.token != token {
                    kept.push_back(job);
                    assert(job_views(kept@) =~= job_views(kept_before).push(job@));
                } else {
                    found = true;
                }
            },
            None => {},
        }
        i += 1;
    }
    assert(all.take(n as int) =~= all);
    *jobs = kept;
    found
}

/// Takes `token` from those that wait for `uris`.
fn drop_waiter(uris: &mut Table<String, UriEntry>, token: u64)
    requires
        old(uris).well_formed(),
    ensures
        final(uris).well_formed(),
        final(uris)@ == without_waiter(old(uris)@, token),
{
    let ghost before = uris.entries@;
    let n: usize = uris.entries.len();
    let mut i: usize = 0;
    while i < n
        invariant
            i <= n == before.len() == uris.entries@.len(),
            forall|j: int| 0 <= j < n ==> (#[trigger] uris.entries@[j]).0 == before[j].0,
            forall|j: int|
                0 <= j < i ==> (#[trigger] uris.entries@[j]).1@ == before[j].1@.without(token),
            forall|j: int| i <= j < n ==> uris.entries@[j] == before[j],
        decreases n - i,
    {
        uris.entries[i].1.waiters.remove(&token);
        assert(uris.entries@[i as int].1@ =~= before[i as int].1@.without(token));
        i += 1;
    }
    proof {
        table::lemma_mapping_map(
            before,
            uris.entries@,
            |entry: UriView| entry.without(token),
        );
    }
}

/// Takes out those of `uris` that there is no reason to keep at `now`.
fn prune(uris: &mut Table<String, UriEntry>, now: u64)
    requires
        old(uris).well_formed(),
    ensures
        final(uris).well_formed(),
        final(uris)@ == pruned(old(uris)@, now),
{
    let ghost before = uris@;
    let mut i: usize = 0;
    while i < uris.entries.len()
        invariant
            i <= uris.entries@.len(),
            uris.well_formed(),
            forall|uri: Seq<char>| #[trigger]
                uris@.contains_key(uri) ==> before.contains_key(uri) && uris@[uri] == before[uri],
            forall|uri: Seq<char>| #[trigger]
                before.contains_key(uri) && before[uri].kept(now) ==> uris@.contains_key(uri),
            forall|j: int| 0 <= j < i ==> (#[trigger] uris.entries@[j]).1@.kept(now),
        decreases uris.entries@.len() - i,
    {
        proof {
            table::lemma_mapping(uris.entries@);
        }
        let entry = &uris.entries[i].1;
        let kept = !entry.waiters.is_empty() || match &entry.status {
            UriStatus::InFlight(_) => true,
            UriStatus::Failed(until) => *until > now,
            _ => false,
        };
        if kept {
            i += 1;
        } else {
            uris.remove_at(i);
        }
    }
    proof {
        table::lemma_mapping(uris.entries@);
        assert(uris@ =~= pruned(before, now)) by {
            assert forall|uri: Seq<char>| #[trigger] uris@.contains_key(uri) implies before[uri].kept(
                now,
            ) by {
                let j = choose|j: int|
                    0 <= j < uris.entries@.len() && (#[trigger] uris.entries@[j]).0.identity()
                        == uri;
                assert(uris.entries@[j].1@.kept(now));
            }
        }
    }
}

/// Calling a job off keeps what every operation keeps.
proof fn lemma_canceled_sound(state: DecompileView, token: u64)
    requires
        state.sound(),
    ensures
        state.canceled(token).sound(),
{
    lemma_without_job(state.interactive_jobs, token);
    lemma_without_job(state.bulk_jobs, token);
    let after = state.canceled(token);
    assert forall|uri: Seq<char>, priority: Priority|
        after.uris.contains_key(uri) && (#[trigger] after.uris[uri].wanted(
            priority,
        )) implies state.uris.contains_key(uri) && state.uris[uri].wanted(priority) by {
        lemma_fewer_waiters(state.uris[uri], token);
    }
}

proof fn lemma_fewer_waiters(entry: UriView, token: u64)
    ensures
        !entry.without(token).waiters.is_empty() ==> !entry.waiters.is_empty(),
{
    if !entry.without(token).waiters.is_empty() {
        let other = entry.without(token).waiters.choose();
        assert(entry.waiters.contains(other));
    }
}

proof fn lemma_finished_sound(state: DecompileView, token: u64, priority: Priority, now: u64)
    requires
        state.sound(),
    ensures
        state.job_finished(token, priority, now).sound(),
{
    let after = state.job_finished(token, priority, now);
    assert forall|uri: Seq<char>, priority: Priority|
        after.uris.contains_key(uri) && (#[trigger] after.uris[uri].wanted(
            priority,
        )) implies state.uris.contains_key(uri) && state.uris[uri].wanted(priority) by {
        lemma_fewer_waiters(state.uris[uri], token);
    }
}

proof fn lemma_left_sound(state: DecompileView, uris: Seq<Seq<char>>, token: u64)
    requires
        state.sound(),
    ensures
        state.left(uris, token).sound(),
{
    let after = state.left(uris, token);
    assert forall|uri: Seq<char>, priority: Priority|
        after.uris.contains_key(uri) && (#[trigger] after.uris[uri].wanted(
            priority,
        )) implies state.uris.contains_key(uri) && state.uris[uri].wanted(priority) by {
        lemma_fewer_waiters(state.uris[uri], token);
    }
}

/// No class source is wanted by nothing.
pub open spec fn all_kept(state: DecompileView, now: u64) -> bool {
    forall|uri: Seq<char>| #[trigger]
        state.uris.contains_key(uri) ==> state.uris[uri].kept(now)
}

proof fn lemma_joined_sound(
    state: DecompileView,
    uri: Seq<char>,
    token: u64,
    priority: Priority,
    now: u64,
)
    requires
        state.sound(),
        all_kept(state, now),
    ensures
        state.joined(uri, token, priority, now).sound(),
        all_kept(state.joined(uri, token, priority, now), now),
{
    let after = state.joined(uri, token, priority, now);
    let (entry, again) = state.joined_entry(uri, token, priority, now);
    assert(entry.waiters.contains(token));
    assert forall|other: Seq<char>| state.interactive_uris.contains(other) implies (
    #[trigger] after.interactive_uris.contains(other)) by {
        let i = choose|i: int|
            0 <= i < state.interactive_uris.len() && state.interactive_uris[i] == other;
        assert(after.interactive_uris[i] == other);
    }
    assert forall|other: Seq<char>| state.bulk_uris.contains(other) implies (
    #[trigger] after.bulk_uris.contains(other)) by {
        let i = choose|i: int| 0 <= i < state.bulk_uris.len() && state.bulk_uris[i] == other;
        assert(after.bulk_uris[i] == other);
    }
    if again {
        match priority {
            Priority::Interactive => {
                assert(after.interactive_uris[state.interactive_uris.len() as int] == uri);
            },
            Priority::Bulk => {
                assert(after.bulk_uris[state.bulk_uris.len() as int] == uri);
            },
        }
    }
    assert forall|other: Seq<char>| #[trigger]
        after.uris.contains_key(other) && after.uris[other].wanted(
            Priority::Interactive,
        ) implies after.interactive_uris.contains(other) by {
        if other != uri {
            assert(state.uris.contains_key(other));
        } else if !again {
            assert(state.uris[uri].kept(now));
            assert(state.uris[uri].wanted(Priority::Interactive));
        }
    }
    assert forall|other: Seq<char>| #[trigger]
        after.uris.contains_key(other) && after.uris[other].wanted(
            Priority::Bulk,
        ) implies after.bulk_uris.contains(other) by {
        if other != uri {
            assert(state.uris.contains_key(other));
        } else if !again {
            assert(state.uris[uri].kept(now));
            assert(state.uris[uri].wanted(Priority::Bulk));
        }
    }
    assert forall|other: Seq<char>| #[trigger] after.uris.contains_key(other) implies after.uris[other].kept(
        now,
    ) by {
        if other != uri {
            assert(state.uris.contains_key(other));
        }
    }
}

proof fn lemma_pruned_sound(state: DecompileView, now: u64)
    requires
        state.sound(),
    ensures
        (DecompileView { uris: pruned(state.uris, now), ..state }).sound(),
        all_kept(DecompileView { uris: pruned(state.uris, now), ..state }, now),
{
    let after = DecompileView { uris: pruned(state.uris, now), ..state };
    assert forall|uri: Seq<char>| #[trigger] after.uris.contains_key(uri) implies state.uris.contains_key(
        uri,
    ) && state.uris[uri] == after.uris[uri] by {}
}

proof fn lemma_first_wanted(state: DecompileView, queue: Seq<Seq<char>>, priority: Priority)
    ensures
        0 <= state.first_wanted(queue, priority) <= queue.len(),
        state.first_wanted(queue, priority) < queue.len() ==> state.uris.contains_key(
            queue[state.first_wanted(queue, priority)],
        ) && state.uris[queue[state.first_wanted(queue, priority)]].wanted(priority),
        forall|i: int|
            0 <= i < state.first_wanted(queue, priority) ==> !(state.uris.contains_key(
                #[trigger] queue[i],
            ) && state.uris[queue[i]].wanted(priority)),
    decreases queue.len(),
{
    if queue.len() > 0 && !(state.uris.contains_key(queue[0]) && state.uris[queue[0]].wanted(
        priority,
    )) {
        lemma_first_wanted(state, queue.drop_first(), priority);
        assert forall|i: int| 0 <= i < state.first_wanted(queue, priority) implies !(
        state.uris.contains_key(#[trigger] queue[i]) && state.uris[queue[i]].wanted(
            priority,
        )) by {
            if i > 0 {
                assert(queue.drop_first()[i - 1] == queue[i]);
            }
        }
    }
}

/// A URI that is still wanted stays in the queue, unless it is the one that is taken.
proof fn lemma_queue_after(
    state: DecompileView,
    queue: Seq<Seq<char>>,
    priority: Priority,
    uri: Seq<char>,
)
    requires
        queue.contains(uri),
        state.uris.contains_key(uri),
        state.uris[uri].wanted(priority),
        ({
            let at = state.first_wanted(queue, priority);
            at < queue.len() ==> queue[at] != uri
        }),
    ensures
        state.queue_after(queue, priority).contains(uri),
{
    lemma_first_wanted(state, queue, priority);
    let at = state.first_wanted(queue, priority);
    let i = choose|i: int| 0 <= i < queue.len() && queue[i] == uri;
    assert(i >= at);
    assert(queue.skip(at + 1)[i - at - 1] == uri);
}

proof fn lemma_fetch_begun_sound(state: DecompileView)
    requires
        state.sound(),
    ensures
        state.fetch_begun().sound(),
        (match state.uri_popped().1 {
            Some((uri, priority)) => state.uris.contains_key(uri) && state.uris[uri].wanted(
                priority,
            ),
            None => true,
        }),
{
    let after = state.fetch_begun();
    lemma_first_wanted(state, state.interactive_uris, Priority::Interactive);
    lemma_first_wanted(state, state.bulk_uris, Priority::Bulk);
    assert forall|uri: Seq<char>| #[trigger]
        after.uris.contains_key(uri) && after.uris[uri].wanted(
            Priority::Interactive,
        ) implies after.interactive_uris.contains(uri) by {
        assert(state.uris.contains_key(uri) && state.uris[uri].wanted(Priority::Interactive));
        lemma_queue_after(state, state.interactive_uris, Priority::Interactive, uri);
    }
    assert forall|uri: Seq<char>| #[trigger]
        after.uris.contains_key(uri) && after.uris[uri].wanted(
            Priority::Bulk,
        ) implies after.bulk_uris.contains(uri) by {
        assert(state.uris.contains_key(uri) && state.uris[uri].wanted(Priority::Bulk));
        if after.bulk_uris != state.bulk_uris {
            lemma_queue_after(state, state.bulk_uris, Priority::Bulk, uri);
        }
    }
}

proof fn lemma_fetch_finished_sound(
    state: DecompileView,
    uri: Seq<char>,
    priority: Priority,
    id: Seq<char>,
    resolved: Option<Seq<char>>,
    now: u64,
)
    requires
        state.sound(),
    ensures
        state.fetch_finished(uri, priority, id, resolved, now).sound(),
{
    let after = state.fetch_finished(uri, priority, id, resolved, now);
    assert forall|other: Seq<char>, wanted_for: Priority|
        after.uris.contains_key(other) && (#[trigger] after.uris[other].wanted(
            wanted_for,
        )) implies state.uris.contains_key(other) && state.uris[other].wanted(wanted_for) by {}
}

/// What a worker that rewrites answers is to do.
pub enum JobStep {
    Stop,
    Run(RewriteJob),
    Wait,
}

/// What a worker that fetches class sources is to do.
pub enum FetchStep {
    Stop,
    /// Fetch the source of the class `uri` by a request with the id `request_id`.
    Fetch { uri: String, priority: Priority, request_id: String },
    Wait,
}

impl DecompileCoordinator {
    /// No URI has two entries, and what every operation keeps holds.
    pub open spec fn well_formed(self) -> bool {
        self.uris.well_formed() && self@.sound()
    }

    /// A coordinator without work, whose requests get ids that begin with `owned_id_prefix`.
    pub fn new(owned_id_prefix: String) -> (r: Self)
        ensures
            r.well_formed(),
            r@ == DecompileView::fresh(owned_id_prefix@, 1),
    {
        Self::with_workers(owned_id_prefix, JOB_WORKERS)
    }

    /// A coordinator without work for `job_workers` workers, of which all but one, and at least
    /// one, may rewrite bulk answers.
    pub fn with_workers(owned_id_prefix: String, job_workers: usize) -> (r: Self)
        ensures
            r.well_formed(),
            r@ == DecompileView::fresh(
                owned_id_prefix@,
                if job_workers > 1 {
                    job_workers - 1
                } else {
                    1
                },
            ),
    {
        let r = DecompileCoordinator {
            uris: Table::new(),
            interactive_uris: VecDeque::new(),
            bulk_uris: VecDeque::new(),
            interactive_jobs: VecDeque::new(),
            bulk_jobs: VecDeque::new(),
            canceled_jobs: HashSet::new(),
            latest_bulk_job: None,
            bulk_jobs_active: 0,
            bulk_fetches: 0,
            shutdown: false,
            owned_id_prefix,
            request_counter: 1,
            max_bulk_jobs: if job_workers > 1 {
                job_workers - 1
            } else {
                1
            },
        };
        assert(r@.interactive_uris =~= Seq::empty());
        assert(r@.bulk_uris =~= Seq::empty());
        assert(r@.interactive_jobs =~= Seq::empty());
        assert(r@.bulk_jobs =~= Seq::empty());
        r
    }

    fn cancel_job(&mut self, token: u64)
        requires
            old(self).well_formed(),
        ensures
            final(self).well_formed(),
            final(self)@ == old(self)@.canceled(token),
    {
        let ghost before = self@;
        self.canceled_jobs.insert(token);
        let interactive = drop_jobs(&mut self.interactive_jobs, token);
        let bulk = drop_jobs(&mut self.bulk_jobs, token);
        drop_waiter(&mut self.uris, token);
        if interactive || bulk {
            self.canceled_jobs.remove(&token);
            assert(self@.canceled_jobs =~= before.canceled_jobs.remove(token));
        }
        proof {
            assert(before.queued(token) == (interactive || bulk));
            assert(self@ =~= before.canceled(token));
            lemma_canceled_sound(before, token);
        }
    }

    /// Takes `job` up, which calls off the bulk job before it where it is one itself. Hands it
    /// back as it came where too many wait already or nothing more is done.
    pub fn submit(&mut self, job: RewriteJob) -> (r: Result<(), RewriteJob>)
        requires
            old(self).well_formed(),
        ensures
            final(self).well_formed(),
            (match r {
                Ok(()) => !old(self)@.full() && final(self)@ == old(self)@.submitted(job@),
                Err(back) => old(self)@.full() && back == job && final(self)@ == old(self)@,
            }),
    {
        let ghost before = self@;
        if self.shutdown || self.interactive_jobs.len() + self.bulk_jobs.len() >= MAX_QUEUED_JOBS {
            return Err(job);
        }
        let ghost view = job@;
        match job.priority {
            Priority::Bulk => {
                let previous = self.latest_bulk_job;
                self.latest_bulk_job = Some(job.token);
                let ghost renamed = DecompileView { latest_bulk_job: Some(job.token), ..before };
                assert(self@ =~= renamed);
                if let Some(previous) = previous {
                    self.cancel_job(previous);
                    proof {
                        lemma_without_job(before.interactive_jobs, previous);
                        lemma_without_job(before.bulk_jobs, previous);
                        assert(renamed.queued(previous) == before.queued(previous));
                    }
                }
                let ghost jobs = self.bulk_jobs@;
                self.bulk_jobs.push_back(job);
                assert(job_views(self.bulk_jobs@) =~= job_views(jobs).push(view));
                assert(self@ =~= before.submitted(view));
            },
            Priority::Interactive => {
                let ghost jobs = self.interactive_jobs@;
                self.interactive_jobs.push_back(job);
                assert(job_views(self.interactive_jobs@) =~= job_views(jobs).push(view));
                assert(self@ =~= before.submitted(view));
            },
        }
        Ok(())
    }

    /// The ids of the requests for class sources that nothing waits for any more.
    pub fn orphaned_request_ids(&self) -> (r: Vec<String>)
        requires
            self.well_formed(),
        ensures
            forall|id: Seq<char>| #[trigger]
                text::texts(r@).contains(id) <==> self@.orphaned_id(id),
            r@.len() == self@.orphans().len(),
    {
        let mut r: Vec<String> = Vec::new();
        let mut i: usize = 0;
        let ghost mut at: Seq<int> = Seq::empty();
        while i < self.uris.entries.len()
            invariant
                i <= self.uris.entries@.len(),
                at.len() == r@.len(),
                at.no_duplicates(),
                forall|k: int|
                    0 <= k < at.len() ==> 0 <= #[trigger] at[k] < i
                        && self.uris.entries@[at[k]].1@.orphaned()
                        && self.uris.entries@[at[k]].1@.status == StatusView::InFlight(r@[k]@),
                forall|j: int|
                    0 <= j < i && (#[trigger] self.uris.entries@[j]).1@.orphaned() ==> at.contains(
                        j,
                    ),
            decreases self.uris.entries@.len() - i,
        {
            let entry = &self.uris.entries[i].1;
            if entry.waiters.is_empty() {
                if let UriStatus::InFlight(id) = &entry.status {
                    let ghost earlier = at;
                    r.push(id.clone());
                    proof {
                        at = at.push(i as int);
                        assert(at[earlier.len() as int] == i);
                        assert forall|j: int| #[trigger] earlier.contains(j) implies at.contains(
                            j,
                        ) by {
                            let k = choose|k: int| 0 <= k < earlier.len() && earlier[k] == j;
                            assert(at[k] == j);
                        }
                    }
                }
            }
            i += 1;
        }
        proof {
            self.lemma_orphans(r@, at);
        }
        r
    }

    proof fn lemma_orphans(&self, ids: Seq<String>, at: Seq<int>)
        requires
            self.well_formed(),
            at.len() == ids.len(),
            at.no_duplicates(),
            forall|k: int|
                0 <= k < at.len() ==> 0 <= #[trigger] at[k] < self.uris.entries@.len()
                    && self.uris.entries@[at[k]].1@.orphaned()
                    && self.uris.entries@[at[k]].1@.status == StatusView::InFlight(ids[k]@),
            forall|j: int|
                0 <= j < self.uris.entries@.len() && (
                #[trigger] self.uris.entries@[j]).1@.orphaned() ==> at.contains(j),
        ensures
            forall|id: Seq<char>| #[trigger]
                text::texts(ids).contains(id) <==> self@.orphaned_id(id),
            ids.len() == self@.orphans().len(),
    {
        let entries = self.uris.entries@;
        table::lemma_mapping(entries);
        let uris = Seq::new(at.len(), |k: int| entries[at[k]].0@);
        assert(uris.no_duplicates()) by {
            assert forall|a: int, b: int|
                0 <= a < uris.len() && 0 <= b < uris.len() && a != b implies uris[a]
                != uris[b] by {
                assert(at[a] != at[b]);
                assert(table::identities(entries)[at[a]] != table::identities(entries)[at[b]]);
            }
        }
        uris.unique_seq_to_set();
        assert forall|uri: Seq<char>| self@.orphans().contains(uri) implies (
        #[trigger] uris.contains(uri)) by {
            assert(self.uris@.contains_key(uri));
            let j = choose|j: int|
                0 <= j < entries.len() && (#[trigger] entries[j]).0.identity() == uri;
            assert(entries[j].1@.orphaned());
            let k = choose|k: int| 0 <= k < at.len() && at[k] == j;
            assert(uris[k] == uri);
        }
        assert forall|k: int| 0 <= k < at.len() implies self@.orphans().contains(
            #[trigger] uris[k],
        ) && self@.uris[uris[k]] == entries[at[k]].1@ by {
            assert(entries[at[k]].0.identity() == uris[k]);
        }
        assert(uris.to_set() =~= self@.orphans());
        assert forall|id: Seq<char>| #[trigger]
            text::texts(ids).contains(id) <==> self@.orphaned_id(id) by {
            if text::texts(ids).contains(id) {
                let k = choose|k: int| 0 <= k < ids.len() && text::texts(ids)[k] == id;
                assert(at[k] == at[k]);
                assert(self@.orphans().contains(uris[k]));
            }
            if self@.orphaned_id(id) {
                let uri = choose|uri: Seq<char>| #[trigger]
                    self@.orphans().contains(uri) && self@.uris[uri].status
                        == StatusView::InFlight(id);
                assert(uris.contains(uri));
                let k = choose|k: int| 0 <= k < uris.len() && uris[k] == uri;
                assert(at[k] == at[k]);
                assert(text::texts(ids)[k] == id);
            }
        }
    }

    /// Calls off what is done for `token`. Hands out the ids of the requests that are to be
    /// called off because nothing waits for them any more.
    pub fn cancel(&mut self, token: u64) -> (r: Vec<String>)
        requires
            old(self).well_formed(),
        ensures
            final(self).well_formed(),
            final(self)@ == old(self)@.canceled(token),
            forall|id: Seq<char>| #[trigger]
                text::texts(r@).contains(id) <==> final(self)@.orphaned_id(id),
            r@.len() == final(self)@.orphans().len(),
    {
        self.cancel_job(token);
        self.orphaned_request_ids()
    }

    /// Forgets that `token` is called off, and says whether it was.
    pub fn consume_cancellation(&mut self, token: u64) -> (r: bool)
        requires
            old(self).well_formed(),
        ensures
            final(self).well_formed(),
            r == old(self)@.canceled_jobs.contains(token),
            final(self)@ == (DecompileView {
                canceled_jobs: old(self)@.canceled_jobs.remove(token),
                ..old(self)@
            }),
    {
        let ghost before = self@;
        let r = self.canceled_jobs.remove(&token);
        assert(self@.canceled_jobs =~= before.canceled_jobs.remove(token));
        r
    }

    /// Whether `token` is called off.
    pub fn is_canceled(&self, token: u64) -> (r: bool)
        ensures
            r == self@.canceled_jobs.contains(token),
    {
        self.canceled_jobs.contains(&token)
    }

    /// Sees to it that nothing more is done.
    pub fn shutdown(&mut self)
        requires
            old(self).well_formed(),
        ensures
            final(self).well_formed(),
            final(self)@ == old(self)@.stopped(),
    {
        let ghost before = self@;
        self.shutdown = true;
        self.interactive_jobs.clear();
        self.bulk_jobs.clear();
        assert(self@ =~= before.stopped());
    }

    /// Hands out the next answer to rewrite.
    pub fn take_job(&mut self) -> (r: JobStep)
        requires
            old(self).well_formed(),
        ensures
            final(self).well_formed(),
            (match r {
                JobStep::Stop => old(self)@.shutdown && final(self)@ == old(self)@,
                JobStep::Run(job) => !old(self)@.shutdown && old(self)@.job_taken() == (
                    final(self)@,
                    Some(job@),
                ),
                JobStep::Wait => !old(self)@.shutdown && old(self)@.job_taken() == (
                    final(self)@,
                    None::<JobView>,
                ),
            }),
    {
        let ghost before = self@;
        if self.shutdown {
            return JobStep::Stop;
        }
        let ghost interactive = self.interactive_jobs@;
        if let Some(job) = self.interactive_jobs.pop_front() {
            assert(job_views(interactive)[0] == job@);
            assert(job_views(self.interactive_jobs@) =~= job_views(interactive).drop_first());
            assert(self@ =~= before.job_taken().0);
            return JobStep::Run(job);
        }
        if self.bulk_jobs_active < self.max_bulk_jobs {
            let ghost bulk = self.bulk_jobs@;
            if let Some(job) = self.bulk_jobs.pop_front() {
                self.bulk_jobs_active += 1;
                assert(job_views(bulk)[0] == job@);
                assert(job_views(self.bulk_jobs@) =~= job_views(bulk).drop_first());
                assert(self@ =~= before.job_taken().0);
                return JobStep::Run(job);
            }
        }
        assert(self@ =~= before);
        JobStep::Wait
    }

    /// Notes that the job `token` is done.
    pub fn finish_job(&mut self, token: u64, priority: Priority, now: u64)
        requires
            old(self).well_formed(),
        ensures
            final(self).well_formed(),
            final(self)@ == old(self)@.job_finished(token, priority, now),
    {
        let ghost before = self@;
        match priority {
            Priority::Bulk => {
                if self.bulk_jobs_active > 0 {
                    self.bulk_jobs_active -= 1;
                }
            },
            Priority::Interactive => {},
        }
        self.canceled_jobs.remove(&token);
        if let Some(latest) = self.latest_bulk_job {
            if latest == token {
                self.latest_bulk_job = None;
            }
        }
        drop_waiter(&mut self.uris, token);
        prune(&mut self.uris, now);
        proof {
            assert(self@.canceled_jobs =~= before.canceled_jobs.remove(token));
            assert(self@ =~= before.job_finished(token, priority, now));
            lemma_finished_sound(before, token, priority, now);
        }
    }
}

/// The texts of what is left of a queue once its first is taken.
proof fn lemma_texts_tail(strings: Seq<String>)
    requires
        strings.len() > 0,
    ensures
        text::texts(strings.subrange(1, strings.len() as int)) == text::texts(strings).drop_first(),
{
    assert(text::texts(strings.subrange(1, strings.len() as int)) =~= text::texts(
        strings,
    ).drop_first());
}

/// Takes the first URI that is still to be fetched with `priority` out of `queue`, together with
/// all before it.
fn pop_wanted(
    uris: &Table<String, UriEntry>,
    queue: &mut VecDeque<String>,
    priority: Priority,
    Ghost(state): Ghost<DecompileView>,
) -> (r: Option<String>)
    requires
        uris.well_formed(),
        state.uris == uris@,
    ensures
        text::texts(final(queue)@) == state.queue_after(text::texts(old(queue)@), priority),
        ({
            let queue = text::texts(old(queue)@);
            let at = state.first_wanted(queue, priority);
            match r {
                Some(uri) => at < queue.len() && uri@ == queue[at],
                None => at == queue.len(),
            }
        }),
{
    let ghost whole = text::texts(queue@);
    let ghost mut dropped: int = 0;
    assert(whole.skip(0) =~= whole);
    while queue.len() > 0
        invariant
            uris.well_formed(),
            state.uris == uris@,
            whole == text::texts(old(queue)@),
            0 <= dropped <= whole.len(),
            text::texts(queue@) == whole.skip(dropped),
            state.first_wanted(whole, priority) == dropped + state.first_wanted(
                whole.skip(dropped),
                priority,
            ),
        ensures
            text::texts(queue@) == whole.skip(dropped),
            state.first_wanted(whole, priority) == dropped + state.first_wanted(
                whole.skip(dropped),
                priority,
            ),
            0 <= dropped <= whole.len(),
            queue@.len() == 0,
        decreases queue@.len(),
    {
        let ghost before = queue@;
        let ghost rest = whole.skip(dropped);
        match queue.pop_front() {
            Some(uri) => {
                proof {
                    lemma_texts_tail(before);
                    assert(text::texts(before)[0] == uri@);
                    assert(rest[0] == whole[dropped]);
                    assert(rest.drop_first() =~= whole.skip(dropped + 1));
                }
                let wanted = match uris.get(&uri) {
                    Some(entry) => !entry.waiters.is_empty() && match entry.status {
                        UriStatus::Queued(current) => current == priority,
                        _ => false,
                    },
                    None => false,
                };
                if wanted {
                    assert(state.first_wanted(rest, priority) == 0);
                    return Some(uri);
                }
                proof {
                    dropped = dropped + 1;
                }
            },
            None => {},
        }
    }
    assert(whole.skip(dropped).len() == 0);
    assert(text::texts(queue@) =~= Seq::empty());
    None
}

impl DecompileCoordinator {
    fn queue_uri(&mut self, uri: String, priority: Priority)
        ensures
            final(self)@ == old(self)@.uri_queued(uri@, priority),
            final(self).uris == old(self).uris,
    {
        let ghost before = *self;
        match priority {
            Priority::Interactive => {
                self.interactive_uris.push_back(uri);
                assert(text::texts(self.interactive_uris@) =~= text::texts(
                    before.interactive_uris@,
                ).push(uri@));
            },
            Priority::Bulk => {
                self.bulk_uris.push_back(uri);
                assert(text::texts(self.bulk_uris@) =~= text::texts(before.bulk_uris@).push(uri@));
            },
        }
        assert(self@ =~= before@.uri_queued(uri@, priority));
    }

    fn join_uri(&mut self, uri: &String, token: u64, priority: Priority, now: u64)
        requires
            old(self).uris.well_formed(),
        ensures
            final(self).uris.well_formed(),
            final(self)@ == old(self)@.joined(uri@, token, priority, now),
    {
        let ghost before = *self;
        let ghost entries = self.uris.entries@;
        let again = match self.uris.position(uri) {
            Some(i) => {
                self.uris.entries[i].1.waiters.insert(token);
                let again = match &self.uris.entries[i].1.status {
                    UriStatus::Failed(until) => *until <= now,
                    UriStatus::Queued(queued) => match (queued, priority) {
                        (Priority::Bulk, Priority::Interactive) => true,
                        _ => false,
                    },
                    _ => false,
                };
                if again {
                    self.uris.entries[i].1.status = UriStatus::Queued(priority);
                }
                proof {
                    let entry = self.uris.entries@[i as int].1;
                    assert(self.uris.entries@ =~= entries.update(
                        i as int,
                        (entries[i as int].0, entry),
                    ));
                    table::lemma_set_entry(entries, i as int, entry);
                    assert(entry@ =~= before@.joined_entry(uri@, token, priority, now).0);
                }
                again
            },
            None => {
                let mut waiters: HashSet<u64> = HashSet::new();
                waiters.insert(token);
                let entry = UriEntry { status: UriStatus::Queued(priority), waiters };
                assert(entry@ =~= before@.joined_entry(uri@, token, priority, now).0);
                self.uris.insert(uri.clone(), entry);
                true
            },
        };
        assert(self@ =~= (DecompileView {
            uris: before@.uris.insert(
                uri@,
                before@.joined_entry(uri@, token, priority, now).0,
            ),
            ..before@
        }));
        if again {
            self.queue_uri(uri.clone(), priority);
        }
    }

    /// Notes that the job `token` waits for the class sources `uris`, and puts those that are to
    /// be fetched into the queue. Does no such thing for a job that is called off.
    pub fn begin_resolution(
        &mut self,
        token: u64,
        uris: &Vec<String>,
        priority: Priority,
        now: u64,
    ) -> (r: bool)
        requires
            old(self).well_formed(),
        ensures
            final(self).well_formed(),
            final(self)@ == old(self)@.resolution_begun(text::texts(uris@), token, priority, now),
            r == !old(self)@.canceled_jobs.contains(token),
    {
        let ghost before = self@;
        prune(&mut self.uris, now);
        proof {
            lemma_pruned_sound(before, now);
        }
        let ghost rest = DecompileView { uris: pruned(before.uris, now), ..before };
        assert(self@ =~= rest);
        if self.canceled_jobs.contains(&token) {
            return false;
        }
        let mut i: usize = 0;
        while i < uris.len()
            invariant
                i <= uris@.len(),
                self.well_formed(),
                all_kept(self@, now),
                self@ == rest.joined_all(text::texts(uris@), i as int, token, priority, now),
            decreases uris@.len() - i,
        {
            proof {
                lemma_joined_sound(self@, uris@[i as int]@, token, priority, now);
            }
            self.join_uri(&uris[i], token, priority, now);
            i += 1;
        }
        true
    }

    /// Adds to `replacements` the file URIs of those of `uris` that are there by now. Hands out
    /// how long the job `token` can still wait for the rest: not at all where none of them can
    /// come any more, where it is called off, or where `deadline` has passed.
    pub fn collect_ready(
        &self,
        token: u64,
        uris: &Vec<String>,
        deadline: u64,
        now: u64,
        replacements: &mut Table<String, String>,
    ) -> (r: Option<u64>)
        requires
            self.well_formed(),
            old(replacements).well_formed(),
        ensures
            final(replacements).well_formed(),
            final(replacements)@ == self@.ready(
                old(replacements)@,
                text::texts(uris@),
                uris@.len() as int,
            ),
            ({
                let waiting = exists|i: int|
                    0 <= i < uris@.len() && self@.underway(#[trigger] text::texts(uris@)[i]);
                match r {
                    Some(remaining) => waiting && !self@.canceled_jobs.contains(token) && now
                        < deadline && remaining == deadline - now,
                    None => !waiting || self@.canceled_jobs.contains(token) || now >= deadline,
                }
            }),
    {
        let ghost known = replacements@;
        let mut waiting = false;
        let mut i: usize = 0;
        while i < uris.len()
            invariant
                i <= uris@.len(),
                self.well_formed(),
                replacements.well_formed(),
                replacements@ == self@.ready(known, text::texts(uris@), i as int),
                waiting == exists|j: int|
                    0 <= j < i && self@.underway(#[trigger] text::texts(uris@)[j]),
            decreases uris@.len() - i,
        {
            assert(text::texts(uris@)[i as int] == uris@[i as int]@);
            match self.uris.get(&uris[i]) {
                Some(entry) => match &entry.status {
                    UriStatus::Ready(file_uri) => {
                        replacements.insert(uris[i].clone(), file_uri.clone());
                    },
                    UriStatus::Queued(_) => {
                        waiting = true;
                        assert(self@.underway(text::texts(uris@)[i as int]));
                    },
                    UriStatus::InFlight(_) => {
                        waiting = true;
                        assert(self@.underway(text::texts(uris@)[i as int]));
                    },
                    UriStatus::Failed(_) => {},
                },
                None => {},
            }
            i += 1;
        }
        if !waiting || self.canceled_jobs.contains(&token) || now >= deadline {
            None
        } else {
            Some(deadline - now)
        }
    }

    /// Notes that the job `token` waits no more for the class sources `uris`. Hands out the ids of
    /// the requests that are to be called off because nothing waits for them any more.
    pub fn end_resolution(&mut self, token: u64, uris: &Vec<String>) -> (r: Vec<String>)
        requires
            old(self).well_formed(),
        ensures
            final(self).well_formed(),
            final(self)@ == old(self)@.left(text::texts(uris@), token),
            forall|id: Seq<char>| #[trigger]
                text::texts(r@).contains(id) <==> final(self)@.orphaned_id(id),
            r@.len() == final(self)@.orphans().len(),
    {
        let ghost before = *self;
        let ghost all = text::texts(uris@);
        let mut i: usize = 0;
        assert(self@ =~= before@.left(all.take(0), token));
        while i < uris.len()
            invariant
                i <= uris@.len(),
                all == text::texts(uris@),
                self.uris.well_formed(),
                self@ == before@.left(all.take(i as int), token),
            decreases uris@.len() - i,
        {
            let ghost current = *self;
            let ghost entries = self.uris.entries@;
            let ghost uri = all[i as int];
            proof {
                let part = all.take(i as int);
                let longer = all.take(i + 1);
                assert(longer =~= part.push(uri));
                assert forall|other: Seq<char>| (#[trigger] longer.contains(other)) == (
                part.contains(other) || other == uri) by {
                    if part.contains(other) {
                        let k = choose|k: int| 0 <= k < part.len() && part[k] == other;
                        assert(longer[k] == other);
                    }
                    assert(longer[i as int] == uri);
                    if longer.contains(other) && other != uri {
                        let k = choose|k: int| 0 <= k < longer.len() && longer[k] == other;
                        assert(part[k] == other);
                    }
                }
            }
            match self.uris.position(&uris[i]) {
                Some(at) => {
                    self.uris.entries[at].1.waiters.remove(&token);
                    proof {
                        let entry = self.uris.entries@[at as int].1;
                        assert(self.uris.entries@ =~= entries.update(
                            at as int,
                            (entries[at as int].0, entry),
                        ));
                        table::lemma_set_entry(entries, at as int, entry);
                        assert(entry@ =~= current@.uris[uri].without(token));
                        assert(before@.uris[uri].without(token).without(token)
                            =~= before@.uris[uri].without(token));
                        assert(self@.uris =~= before@.left(all.take(i + 1), token).uris);
                    }
                },
                None => {
                    assert(self@.uris =~= before@.left(all.take(i + 1), token).uris);
                },
            }
            assert(self@ =~= before@.left(all.take(i + 1), token));
            i += 1;
        }
        proof {
            assert(all.take(i as int) =~= all);
            lemma_left_sound(before@, all, token);
        }
        self.orphaned_request_ids()
    }

    /// Hands out the next class source to fetch: the first that someone waits for, or else the
    /// first of the others where none of these is under way.
    pub fn take_uri_work(&mut self) -> (r: FetchStep)
        requires
            old(self).well_formed(),
        ensures
            final(self).well_formed(),
            (match r {
                FetchStep::Stop => old(self)@.shutdown && final(self)@ == old(self)@,
                FetchStep::Fetch { uri, priority, request_id } => !old(self)@.shutdown
                    && final(self)@ == old(self)@.fetch_begun() && old(self)@.uri_popped().1
                    == Some((uri@, priority)) && request_id@ == old(self)@.next_request_id(),
                FetchStep::Wait => !old(self)@.shutdown && final(self)@ == old(self)@.fetch_begun()
                    && old(self)@.uri_popped().1 is None,
            }),
    {
        let ghost before = self@;
        if self.shutdown {
            return FetchStep::Stop;
        }
        proof {
            lemma_fetch_begun_sound(before);
        }
        let mut candidate = match pop_wanted(
            &self.uris,
            &mut self.interactive_uris,
            Priority::Interactive,
            Ghost(before),
        ) {
            Some(uri) => Some((uri, Priority::Interactive)),
            None => None,
        };
        if candidate.is_none() && self.bulk_fetches == 0 {
            candidate = match pop_wanted(
                &self.uris,
                &mut self.bulk_uris,
                Priority::Bulk,
                Ghost(before),
            ) {
                Some(uri) => Some((uri, Priority::Bulk)),
                None => None,
            };
        }
        match candidate {
            Some((uri, priority)) => {
                let mut request_id = String::new();
                request_id.append(self.owned_id_prefix.as_str());
                request_id.append("decompile-");
                let digits = text::decimal_chars(self.request_counter);
                request_id.append(text::string_of(&digits).as_str());
                self.request_counter = self.request_counter.wrapping_add(1);
                if let Priority::Bulk = priority {
                    self.bulk_fetches += 1;
                }
                let ghost entries = self.uris.entries@;
                if let Some(i) = self.uris.position(&uri) {
                    self.uris.entries[i].1.status = UriStatus::InFlight(request_id.clone());
                    proof {
                        let entry = self.uris.entries@[i as int].1;
                        assert(self.uris.entries@ =~= entries.update(
                            i as int,
                            (entries[i as int].0, entry),
                        ));
                        table::lemma_set_entry(entries, i as int, entry);
                    }
                }
                assert(self@ =~= before.fetch_begun());
                FetchStep::Fetch { uri, priority, request_id }
            },
            None => {
                assert(self@ =~= before.fetch_begun());
                FetchStep::Wait
            },
        }
    }

    /// Notes that the request `request_id` for the class source `uri` came to an end, with the
    /// file URI of the source or without.
    pub fn finish_fetch(
        &mut self,
        uri: &String,
        priority: Priority,
        request_id: &str,
        resolved: Option<String>,
        now: u64,
    )
        requires
            old(self).well_formed(),
        ensures
            final(self).well_formed(),
            final(self)@ == old(self)@.fetch_finished(
                uri@,
                priority,
                request_id@,
                text::optional(resolved),
                now,
            ),
    {
        let ghost before = self@;
        let ghost outcome = text::optional(resolved);
        if let Priority::Bulk = priority {
            if self.bulk_fetches > 0 {
                self.bulk_fetches -= 1;
            }
        }
        proof {
            lemma_fetch_finished_sound(before, uri@, priority, request_id@, outcome, now);
        }
        let ghost entries = self.uris.entries@;
        if let Some(i) = self.uris.position(uri) {
            let current = match &self.uris.entries[i].1.status {
                UriStatus::InFlight(id) => text::same_text(id.as_str(), request_id),
                _ => false,
            };
            if current {
                self.uris.entries[i].1.status = match resolved {
                    Some(file_uri) => UriStatus::Ready(file_uri),
                    None => UriStatus::Failed(now.saturating_add(NEGATIVE_CACHE_TTL)),
                };
            }
            proof {
                let entry = self.uris.entries@[i as int].1;
                assert(self.uris.entries@ =~= entries.update(
                    i as int,
                    (entries[i as int].0, entry),
                ));
                table::lemma_set_entry(entries, i as int, entry);
            }
            let ready = match &self.uris.entries[i].1.status {
                UriStatus::Ready(_) => true,
                _ => false,
            };
            if ready && self.uris.entries[i].1.waiters.is_empty() {
                self.uris.remove_at(i);
                assert(before.uris.insert(uri@, before.uris[uri@]).remove(uri@)
                    =~= before.uris.remove(uri@));
            }
        }
        assert(self@ =~= before.fetch_finished(uri@, priority, request_id@, outcome, now));
    }
}

/// Once a job is called off, none of its answers waits, nothing is fetched for it, and it is noted
/// as called off unless one of its answers waited.
pub proof fn lemma_canceled_is_gone(state: DecompileView, token: u64)
    ensures
        !state.canceled(token).queued(token),
        forall|uri: Seq<char>| #[trigger]
            state.canceled(token).uris.contains_key(uri) ==> !state.canceled(
                token,
            ).uris[uri].waiters.contains(token),
        state.canceled(token).canceled_jobs.contains(token) == !state.queued(token),
{
    lemma_without_job(state.interactive_jobs, token);
    lemma_without_job(state.bulk_jobs, token);
}

/// Calling one job off does not call off a fetch that another waits for.
pub proof fn lemma_shared_fetch_survives(
    state: DecompileView,
    token: u64,
    other: u64,
    uri: Seq<char>,
)
    requires
        state.uris.contains_key(uri),
        state.uris[uri].waiters.contains(other),
        other != token,
    ensures
        state.canceled(token).uris.contains_key(uri),
        state.canceled(token).uris[uri].waiters.contains(other),
        state.canceled(token).uris[uri].status == state.uris[uri].status,
        !state.canceled(token).orphans().contains(uri),
{
    assert(state.canceled(token).uris[uri].waiters.contains(other));
}

/// Calling a job off calls off exactly those fetches that are under way and that nothing else waits
/// for: `id` is among the requests to call off just where a class source is asked for by it, and the
/// job was the last to wait for that.
pub proof fn lemma_cancellation_exact(state: DecompileView, token: u64, id: Seq<char>)
    ensures
        state.canceled(token).orphaned_id(id) <==> exists|uri: Seq<char>| #[trigger]
            state.uris.contains_key(uri) && state.uris[uri].status == StatusView::InFlight(id)
                && state.uris[uri].waiters.remove(token).is_empty(),
{
    let after = state.canceled(token);
    if after.orphaned_id(id) {
        let uri = choose|uri: Seq<char>| #[trigger]
            after.orphans().contains(uri) && after.uris[uri].status == StatusView::InFlight(id);
        assert(state.uris.contains_key(uri));
    }
    if exists|uri: Seq<char>| #[trigger]
        state.uris.contains_key(uri) && state.uris[uri].status == StatusView::InFlight(id)
            && state.uris[uri].waiters.remove(token).is_empty() {
        let uri = choose|uri: Seq<char>| #[trigger]
            state.uris.contains_key(uri) && state.uris[uri].status == StatusView::InFlight(id)
                && state.uris[uri].waiters.remove(token).is_empty();
        assert(after.orphans().contains(uri));
    }
}

/// Where two jobs wait for a class source that is asked for, and the first is called off while it is
/// under way, the first ends its wait without a replacement, the fetch goes on for the second, and
/// once it succeeds the second has the one replacement. The fetch is not called off, neither when
/// the first is nor when it ends its wait.
pub proof fn lemma_shared_fetch_goes_on(
    state: DecompileView,
    first: u64,
    second: u64,
    uri: Seq<char>,
    id: Seq<char>,
    priority: Priority,
    file_uri: Seq<char>,
    now: u64,
)
    requires
        state.asks_for(uri, id),
        state.uris[uri].waiters.contains(second),
        first != second,
        !state.queued(first),
    ensures
        ({
            let wanted = seq![uri];
            let nothing = Map::<Seq<char>, Seq<char>>::empty();
            let canceled = state.canceled(first);
            let left = canceled.left(wanted, first);
            let done = left.fetch_finished(uri, priority, id, Some(file_uri), now);
            &&& canceled.canceled_jobs.contains(first)
            &&& canceled.ready(nothing, wanted, 1) == nothing
            &&& canceled.asks_for(uri, id) && left.asks_for(uri, id)
            &&& !canceled.orphans().contains(uri) && !left.orphans().contains(uri)
            &&& canceled.canceled_jobs.contains(second) == state.canceled_jobs.contains(second)
            &&& done.ready(nothing, wanted, 1) == nothing.insert(uri, file_uri)
            &&& !done.underway(uri)
        }),
{
    let wanted = seq![uri];
    let nothing = Map::<Seq<char>, Seq<char>>::empty();
    let canceled = state.canceled(first);
    let left = canceled.left(wanted, first);
    let done = left.fetch_finished(uri, priority, id, Some(file_uri), now);
    assert(canceled.uris[uri].waiters.contains(second));
    assert(left.uris[uri].waiters.contains(second));
    assert(wanted[0] == uri);
    assert(canceled.ready(nothing, wanted, 0) == nothing);
    assert(done.ready(nothing, wanted, 0) == nothing);
    assert(done.uris[uri].waiters.contains(second));
}

impl DecompileView {
    /// Each class source that is there is kept in its own file in `directory`, and known by the URI
    /// of that.
    pub open spec fn kept_in(self, directory: Seq<char>, windows: bool) -> bool {
        forall|uri: Seq<char>| #[trigger]
            self.uris.contains_key(uri) ==> (self.uris[uri].status matches StatusView::Ready(
                file_uri,
            ) ==> file_uri == cache::kept_uri(directory, uri, windows))
    }
}

proof fn lemma_kept_through_joins(
    state: DecompileView,
    directory: Seq<char>,
    windows: bool,
    uris: Seq<Seq<char>>,
    n: int,
    token: u64,
    priority: Priority,
    now: u64,
)
    requires
        state.kept_in(directory, windows),
    ensures
        state.joined_all(uris, n, token, priority, now).kept_in(directory, windows),
    decreases n,
{
    if 0 < n <= uris.len() {
        lemma_kept_through_joins(state, directory, windows, uris, n - 1, token, priority, now);
    }
}

/// Every operation keeps it that a class source that is there is known by the URI of its own file,
/// where a fetch hands in that URI or none. It holds at the start.
pub proof fn lemma_sources_known_by_their_files(
    state: DecompileView,
    directory: Seq<char>,
    windows: bool,
    job: JobView,
    token: u64,
    priority: Priority,
    uris: Seq<Seq<char>>,
    uri: Seq<char>,
    id: Seq<char>,
    resolved: Option<Seq<char>>,
    now: u64,
    prefix: Seq<char>,
)
    requires
        state.kept_in(directory, windows),
        resolved matches Some(file_uri) ==> file_uri == cache::kept_uri(directory, uri, windows),
    ensures
        DecompileView::fresh(prefix, 1).kept_in(directory, windows),
        state.submitted(job).kept_in(directory, windows),
        state.canceled(token).kept_in(directory, windows),
        state.stopped().kept_in(directory, windows),
        state.job_taken().0.kept_in(directory, windows),
        state.job_finished(token, priority, now).kept_in(directory, windows),
        state.resolution_begun(uris, token, priority, now).kept_in(directory, windows),
        state.left(uris, token).kept_in(directory, windows),
        state.fetch_begun().kept_in(directory, windows),
        state.fetch_finished(uri, priority, id, resolved, now).kept_in(directory, windows),
{
    let rest = DecompileView { uris: pruned(state.uris, now), ..state };
    lemma_kept_through_joins(
        rest,
        directory,
        windows,
        uris,
        uris.len() as int,
        token,
        priority,
        now,
    );
    match state.latest_bulk_job {
        Some(previous) => {
            assert(state.canceled(previous).kept_in(directory, windows));
        },
        None => {},
    }
}

/// Where class sources are known by the URIs of their own files, those are what takes their place.
pub proof fn lemma_replaced_by_their_files(
    state: DecompileView,
    directory: Seq<char>,
    windows: bool,
    replacements: Map<Seq<char>, Seq<char>>,
    uris: Seq<Seq<char>>,
    n: int,
)
    requires
        state.kept_in(directory, windows),
        forall|uri: Seq<char>| #[trigger]
            replacements.contains_key(uri) ==> replacements[uri] == cache::kept_uri(
                directory,
                uri,
                windows,
            ),
    ensures
        forall|uri: Seq<char>| #[trigger]
            state.ready(replacements, uris, n).contains_key(uri) ==> state.ready(
                replacements,
                uris,
                n,
            )[uri] == cache::kept_uri(directory, uri, windows),
    decreases n,
{
    if 0 < n <= uris.len() {
        lemma_replaced_by_their_files(state, directory, windows, replacements, uris, n - 1);
        let earlier = state.ready(replacements, uris, n - 1);
        let all = state.ready(replacements, uris, n);
        assert forall|uri: Seq<char>| #[trigger] all.contains_key(uri) implies all[uri]
            == cache::kept_uri(directory, uri, windows) by {
            if state.uris.contains_key(uris[n - 1]) && state.uris[uris[n - 1]].status is Ready
                && uri == uris[n - 1] {
                assert(state.uris.contains_key(uri));
            } else {
                assert(earlier.contains_key(uri));
            }
        }
    }
}

/// A job that waits for a class source that another waits for already, with the same priority,
/// has nothing fetched anew.
pub proof fn lemma_waiters_share_fetch(
    state: DecompileView,
    uri: Seq<char>,
    first: u64,
    second: u64,
    priority: Priority,
    now: u64,
)
    ensures
        ({
            let once = state.joined(uri, first, priority, now);
            let twice = once.joined(uri, second, priority, now);
            &&& twice.interactive_uris == once.interactive_uris
            &&& twice.bulk_uris == once.bulk_uris
            &&& twice.uris[uri].status == once.uris[uri].status
            &&& twice.uris[uri].waiters == once.uris[uri].waiters.insert(second)
        }),
{
}

/// What is fetched next was not asked for before, and is asked for from then on.
pub proof fn lemma_fetch_is_new(state: DecompileView)
    requires
        state.sound(),
    ensures
        (match state.uri_popped().1 {
            Some((uri, priority)) => state.uris.contains_key(uri) && state.uris[uri].status
                == StatusView::Queued(priority) && !state.uris[uri].waiters.is_empty()
                && state.fetch_begun().uris[uri].status == StatusView::InFlight(
                state.next_request_id(),
            ),
            None => true,
        }),
{
    lemma_fetch_begun_sound(state);
}

proof fn lemma_in_flight_through_joins(
    state: DecompileView,
    uri: Seq<char>,
    uris: Seq<Seq<char>>,
    n: int,
    token: u64,
    priority: Priority,
    now: u64,
)
    requires
        state.uris.contains_key(uri),
        state.uris[uri].status is InFlight || (state.uris[uri].status matches StatusView::Failed(
            until,
        ) && until > now),
    ensures
        state.joined_all(uris, n, token, priority, now).uris.contains_key(uri),
        state.joined_all(uris, n, token, priority, now).uris[uri].status == state.uris[uri].status,
    decreases n,
{
    if 0 < n <= uris.len() {
        lemma_in_flight_through_joins(state, uri, uris, n - 1, token, priority, now);
    }
}

/// While a class source is asked for, whatever else happens leaves it asked for by the same
/// request: only the end of that request changes it. So it is never asked for twice at a time.
pub proof fn lemma_in_flight_stays(
    state: DecompileView,
    uri: Seq<char>,
    id: Seq<char>,
    job: JobView,
    token: u64,
    priority: Priority,
    uris: Seq<Seq<char>>,
    other: Seq<char>,
    other_id: Seq<char>,
    resolved: Option<Seq<char>>,
    now: u64,
)
    requires
        state.sound(),
        state.asks_for(uri, id),
        other != uri || other_id != id,
    ensures
        state.submitted(job).asks_for(uri, id),
        state.canceled(token).asks_for(uri, id),
        state.stopped().asks_for(uri, id),
        state.job_taken().0.asks_for(uri, id),
        state.job_finished(token, priority, now).asks_for(uri, id),
        state.resolution_begun(uris, token, priority, now).asks_for(uri, id),
        state.left(uris, token).asks_for(uri, id),
        state.fetch_begun().asks_for(uri, id),
        state.fetch_finished(other, priority, other_id, resolved, now).asks_for(uri, id),
        (match state.uri_popped().1 {
            Some((next, _)) => next != uri,
            None => true,
        }),
{
    lemma_fetch_begun_sound(state);
    let rest = DecompileView { uris: pruned(state.uris, now), ..state };
    lemma_in_flight_through_joins(rest, uri, uris, uris.len() as int, token, priority, now);
}

/// A class source that could not be fetched is not fetched again for `NEGATIVE_CACHE_TTL`: a job
/// that asks for it in that time neither has it fetched nor waits for it.
pub proof fn lemma_failure_is_remembered(
    state: DecompileView,
    uri: Seq<char>,
    priority: Priority,
    id: Seq<char>,
    now: u64,
    uris: Seq<Seq<char>>,
    token: u64,
    asked_with: Priority,
    asked_at: u64,
)
    requires
        state.asks_for(uri, id),
        asked_at < time_after(now, NEGATIVE_CACHE_TTL),
    ensures
        ({
            let failed = state.fetch_finished(uri, priority, id, None, now);
            let asked = failed.resolution_begun(uris, token, asked_with, asked_at);
            &&& asked.uris.contains_key(uri)
            &&& asked.uris[uri].status == StatusView::Failed(time_after(now, NEGATIVE_CACHE_TTL))
            &&& !asked.underway(uri)
        }),
{
    let failed = state.fetch_finished(uri, priority, id, None, now);
    let rest = DecompileView { uris: pruned(failed.uris, asked_at), ..failed };
    lemma_in_flight_through_joins(
        rest,
        uri,
        uris,
        uris.len() as int,
        token,
        asked_with,
        asked_at,
    );
}

/// A bulk job takes the place of the bulk job before it, which waits no more.
pub proof fn lemma_bulk_supersedes(state: DecompileView, job: JobView, previous: u64)
    requires
        job.priority == Priority::Bulk,
        state.latest_bulk_job == Some(previous),
        previous != job.token,
    ensures
        !state.submitted(job).queued(previous),
        state.submitted(job).latest_bulk_job == Some(job.token),
        state.submitted(job).canceled_jobs.contains(previous) == !state.queued(previous),
{
    lemma_canceled_is_gone(state, previous);
    let others = state.canceled(previous);
    let after = state.submitted(job);
    assert(after.interactive_jobs == others.interactive_jobs);
    assert forall|i: int| 0 <= i < after.bulk_jobs.len() implies (
    #[trigger] after.bulk_jobs[i]).token != previous by {
        if i < others.bulk_jobs.len() {
            assert(after.bulk_jobs[i] == others.bulk_jobs[i]);
        }
    }
}

/// An answer that is taken up comes after those of its kind that wait already, and before nothing: where
/// none waits before it, it is the next to be rewritten. Answers that someone waits for go before bulk
/// work, and each that waits is handed out or goes on waiting.
pub proof fn lemma_jobs_handed_out_in_order(state: DecompileView, job: JobView, token: u64)
    ensures
        job.priority == Priority::Interactive && state.interactive_jobs.len() == 0
            ==> state.submitted(job).job_taken().1 == Some(job),
        job.priority == Priority::Interactive && state.interactive_jobs.len() > 0
            ==> state.submitted(job).job_taken().1 == state.job_taken().1,
        job.priority == Priority::Bulk && state.interactive_jobs.len() == 0
            && state.bulk_jobs.len() == 0 && state.bulk_jobs_active < state.max_bulk_jobs
            ==> state.submitted(job).job_taken().1 == Some(job),
        state.interactive_jobs.len() > 0 ==> state.job_taken().1 == Some(state.interactive_jobs[0])
            && state.job_taken().0.bulk_jobs == state.bulk_jobs,
        state.interactive_jobs.len() == 0 && state.bulk_jobs_active >= state.max_bulk_jobs
            ==> state.job_taken().1 is None,
        state.submitted(job).queued(job.token),
        state.queued(token) ==> state.job_taken().0.queued(token) || (
        state.job_taken().1 matches Some(taken) && taken.token == token),
{
    let after = state.submitted(job);
    if job.priority == Priority::Interactive {
        let n = state.interactive_jobs.len() as int;
        assert(after.interactive_jobs[n] == job);
        assert(state.interactive_jobs.len() > 0 ==> after.interactive_jobs[0]
            == state.interactive_jobs[0]);
    } else {
        let others = match state.latest_bulk_job {
            Some(previous) => state.canceled(previous),
            None => state,
        };
        let n = others.bulk_jobs.len() as int;
        assert(after.bulk_jobs[n] == job);
        if let Some(previous) = state.latest_bulk_job {
            lemma_without_job(state.interactive_jobs, previous);
            lemma_without_job(state.bulk_jobs, previous);
        }
        if state.interactive_jobs.len() == 0 && state.bulk_jobs.len() == 0
            && state.bulk_jobs_active < state.max_bulk_jobs {
            assert(after.interactive_jobs.len() == 0);
            assert(after.bulk_jobs.len() == 1);
        }
    }
    if state.queued(token) {
        let rest = state.job_taken().0;
        if exists|i: int|
            0 <= i < state.interactive_jobs.len() && (#[trigger] state.interactive_jobs[i]).token
                == token {
            let i = choose|i: int|
                0 <= i < state.interactive_jobs.len() && (
                #[trigger] state.interactive_jobs[i]).token == token;
            if i > 0 {
                assert(rest.interactive_jobs[i - 1] == state.interactive_jobs[i]);
            }
        } else {
            let i = choose|i: int|
                0 <= i < state.bulk_jobs.len() && (#[trigger] state.bulk_jobs[i]).token == token;
            if rest.bulk_jobs == state.bulk_jobs {
                assert(rest.bulk_jobs[i].token == token);
            } else if i > 0 {
                assert(rest.bulk_jobs[i - 1] == state.bulk_jobs[i]);
            }
        }
    }
}

/// No more than 64 answers wait: one more is not taken up, and neither is one after all is stopped.
pub proof fn lemma_room_for_jobs(state: DecompileView, job: JobView)
    ensures
        state.full() <==> state.shutdown || state.interactive_jobs.len() + state.bulk_jobs.len()
            >= 64,
        state.stopped().full(),
        !state.stopped().queued(job.token),
{
}

/// A class source that something waits for is fetched: as long as there is one that someone waits for,
/// one of those is next, and where there is none but for bulk work, one of those is next, unless one is
/// being fetched for that already. Where nothing waits for a source that is to be fetched, none is.
pub proof fn lemma_wanted_sources_fetched(state: DecompileView, uri: Seq<char>)
    requires
        state.sound(),
    ensures
        state.uris.contains_key(uri) && state.uris[uri].status == StatusView::Queued(
            Priority::Interactive,
        ) && !state.uris[uri].waiters.is_empty() ==> (state.uri_popped().1 matches Some((_, priority))
            && priority == Priority::Interactive),
        state.uris.contains_key(uri) && state.uris[uri].status == StatusView::Queued(Priority::Bulk)
            && !state.uris[uri].waiters.is_empty() && state.bulk_fetches == 0
            ==> state.uri_popped().1 is Some,
        state.bulk_fetches > 0 ==> !(state.uri_popped().1 matches Some((_, Priority::Bulk))),
        (match state.uri_popped().1 {
            Some((next, priority)) => {
                &&& state.uris.contains_key(next)
                &&& state.uris[next].status == StatusView::Queued(priority)
                &&& !state.uris[next].waiters.is_empty()
            },
            None => true,
        }),
{
    lemma_first_wanted(state, state.interactive_uris, Priority::Interactive);
    lemma_first_wanted(state, state.bulk_uris, Priority::Bulk);
    if state.uris.contains_key(uri) && state.uris[uri].wanted(Priority::Interactive) {
        let i = choose|i: int|
            0 <= i < state.interactive_uris.len() && state.interactive_uris[i] == uri;
        assert(state.interactive_uris[i] == uri);
    }
    if state.uris.contains_key(uri) && state.uris[uri].wanted(Priority::Bulk) {
        let i = choose|i: int| 0 <= i < state.bulk_uris.len() && state.bulk_uris[i] == uri;
        assert(state.bulk_uris[i] == uri);
    }
}

/// A job that wants a class source waits for it. The source is then to be fetched where it is new,
/// where an earlier fetch failed long enough ago, and sooner than before where it was to be fetched for
/// bulk work alone; where it is being fetched or is there, that stays. Other sources stay as they are.
pub proof fn lemma_sources_waited_for(
    state: DecompileView,
    uri: Seq<char>,
    token: u64,
    priority: Priority,
    now: u64,
    other: Seq<char>,
)
    requires
        other != uri,
    ensures
        ({
            let after = state.joined(uri, token, priority, now);
            &&& after.uris.contains_key(uri)
            &&& after.uris[uri].waiters.contains(token)
            &&& !state.uris.contains_key(uri) ==> after.uris[uri].status == StatusView::Queued(
                priority,
            )
            &&& state.uris.contains_key(uri) ==> forall|waiter: u64|
                waiter != token ==> state.uris[uri].waiters.contains(waiter)
                    == #[trigger] after.uris[uri].waiters.contains(waiter)
            &&& state.uris.contains_key(uri) ==> match state.uris[uri].status {
                StatusView::Failed(until) => after.uris[uri].status == if until <= now {
                    StatusView::Queued(priority)
                } else {
                    StatusView::Failed(until)
                },
                StatusView::Queued(queued) => after.uris[uri].status == StatusView::Queued(
                    if queued == Priority::Interactive || priority == Priority::Interactive {
                        Priority::Interactive
                    } else {
                        Priority::Bulk
                    },
                ),
                status => after.uris[uri].status == status,
            }
            &&& after.uris.contains_key(other) == state.uris.contains_key(other)
            &&& state.uris.contains_key(other) ==> after.uris[other] == state.uris[other]
        }),
{
}

/// The end of a fetch: where it brought a file, all that wait for the class source have the URI of that
/// in its place; where it failed, it is not tried again for two seconds, and nobody waits for it to
/// come. A fetch for bulk work makes room for another. What another request asks for stays.
pub proof fn lemma_fetch_brings_source(
    state: DecompileView,
    uri: Seq<char>,
    priority: Priority,
    id: Seq<char>,
    file_uri: Seq<char>,
    replacements: Map<Seq<char>, Seq<char>>,
    wanted: Seq<Seq<char>>,
    now: u64,
)
    requires
        state.asks_for(uri, id),
        !state.uris[uri].waiters.is_empty(),
        wanted.contains(uri),
        now + 2000 <= u64::MAX,
    ensures
        ({
            let found = state.fetch_finished(uri, priority, id, Some(file_uri), now);
            let failed = state.fetch_finished(uri, priority, id, None, now);
            let ready = found.ready(replacements, wanted, wanted.len() as int);
            &&& ready.contains_key(uri) && ready[uri] == file_uri
            &&& !found.underway(uri) && !failed.underway(uri)
            &&& failed.uris[uri].status == StatusView::Failed((now + 2000) as u64)
            &&& priority == Priority::Bulk && state.bulk_fetches > 0 ==> found.bulk_fetches
                == state.bulk_fetches - 1 && failed.bulk_fetches == state.bulk_fetches - 1
            &&& priority == Priority::Interactive ==> found.bulk_fetches == state.bulk_fetches
        }),
{
    let found = state.fetch_finished(uri, priority, id, Some(file_uri), now);
    lemma_ready(found, replacements, wanted, wanted.len() as int);
}

/// The replacements that a job has are those that it had before, and the file URIs of the class sources
/// that it wants and that are there.
pub proof fn lemma_ready(
    state: DecompileView,
    replacements: Map<Seq<char>, Seq<char>>,
    wanted: Seq<Seq<char>>,
    n: int,
)
    requires
        0 <= n <= wanted.len(),
    ensures
        forall|uri: Seq<char>|
            #![trigger state.ready(replacements, wanted, n).contains_key(uri)]
            #![trigger state.ready(replacements, wanted, n)[uri]]
            {
                let ready = state.ready(replacements, wanted, n);
                if wanted.take(n).contains(uri) && state.uris.contains_key(uri)
                    && state.uris[uri].status is Ready {
                    ready.contains_key(uri) && state.uris[uri].status == StatusView::Ready(
                        ready[uri],
                    )
                } else {
                    ready.contains_key(uri) == replacements.contains_key(uri) && (
                    replacements.contains_key(uri) ==> ready[uri] == replacements[uri])
                }
            },
        wanted.take(wanted.len() as int) == wanted,
    decreases n,
{
    assert(wanted.take(wanted.len() as int) =~= wanted);
    if n > 0 {
        lemma_ready(state, replacements, wanted, n - 1);
        let earlier = state.ready(replacements, wanted, n - 1);
        assert forall|uri: Seq<char>|
            wanted.take(n).contains(uri) == (uri == wanted[n - 1] || #[trigger] wanted.take(
                n - 1,
            ).contains(uri)) by {
            if wanted.take(n).contains(uri) {
                let i = choose|i: int| 0 <= i < n && wanted.take(n)[i] == uri;
                if i < n - 1 {
                    assert(wanted.take(n - 1)[i] == uri);
                }
            }
            if wanted.take(n - 1).contains(uri) {
                let earlier = wanted.take(n - 1);
                let i = choose|i: int| 0 <= i < earlier.len() && earlier[i] == uri;
                assert(wanted.take(n)[i] == uri);
            }
            assert(wanted.take(n)[n - 1] == wanted[n - 1]);
        }
        assert forall|uri: Seq<char>|
            #![trigger state.ready(replacements, wanted, n).contains_key(uri)]
            #![trigger state.ready(replacements, wanted, n)[uri]]
            {
                let ready = state.ready(replacements, wanted, n);
                if wanted.take(n).contains(uri) && state.uris.contains_key(uri)
                    && state.uris[uri].status is Ready {
                    ready.contains_key(uri) && state.uris[uri].status == StatusView::Ready(
                        ready[uri],
                    )
                } else {
                    ready.contains_key(uri) == replacements.contains_key(uri) && (
                    replacements.contains_key(uri) ==> ready[uri] == replacements[uri])
                }
            } by {
            assert(wanted.take(n).contains(uri) == (uri == wanted[n - 1] || wanted.take(
                n - 1,
            ).contains(uri)));
            let before = earlier.contains_key(uri);
        }
    } else {
        assert(wanted.take(0) =~= Seq::empty());
    }
}

/// A job that is done waits for nothing and is no longer noted as called off, bulk work makes room for
/// more, and what others wait for or what is being fetched is not forgotten.
pub proof fn lemma_job_done(
    state: DecompileView,
    token: u64,
    priority: Priority,
    now: u64,
    uri: Seq<char>,
    other: u64,
)
    requires
        other != token,
    ensures
        ({
            let after = state.job_finished(token, priority, now);
            &&& !after.canceled_jobs.contains(token)
            &&& after.canceled_jobs.contains(other) == state.canceled_jobs.contains(other)
            &&& after.uris.contains_key(uri) ==> !after.uris[uri].waiters.contains(token)
            &&& priority == Priority::Bulk && state.bulk_jobs_active > 0 ==> after.bulk_jobs_active
                == state.bulk_jobs_active - 1
            &&& priority == Priority::Interactive ==> after.bulk_jobs_active
                == state.bulk_jobs_active
            &&& after.interactive_jobs == state.interactive_jobs
            &&& after.bulk_jobs == state.bulk_jobs
            &&& state.uris.contains_key(uri) && (state.uris[uri].waiters.contains(other)
                || state.uris[uri].status is InFlight) ==> {
                &&& after.uris.contains_key(uri)
                &&& after.uris[uri].status == state.uris[uri].status
                &&& after.uris[uri].waiters.contains(other)
                    == state.uris[uri].waiters.contains(other)
            }
        }),
{
    if state.uris.contains_key(uri) && state.uris[uri].waiters.contains(other) {
        assert(without_waiter(state.uris, token)[uri].waiters.contains(other));
    }
}

/// The request for a class source has an id that begins with what the proxy's own ids begin with, and
/// the requests of one proxy have different ids until their counter comes round.
pub proof fn lemma_request_ids_differ(state: DecompileView, later: DecompileView)
    requires
        state.owned_id_prefix == later.owned_id_prefix,
        state.next_request_id() == later.next_request_id(),
    ensures
        state.request_counter == later.request_counter,
        state.owned_id_prefix.is_prefix_of(state.next_request_id()),
{
    let start = state.owned_id_prefix + "decompile-"@;
    let a = text::decimal(state.request_counter as nat);
    let b = text::decimal(later.request_counter as nat);
    assert((start + a).skip(start.len() as int) =~= a);
    assert((start + b).skip(start.len() as int) =~= b);
    text::lemma_decimal_injective(state.request_counter as nat, later.request_counter as nat);
}

/// Nothing is kept of a class source that nobody waits for, that is not being fetched, and that is not
/// noted to have failed: neither once a job is done nor when another begins to wait, nor where a fetch
/// brings it.
pub proof fn lemma_unwanted_sources_forgotten(
    state: DecompileView,
    uri: Seq<char>,
    token: u64,
    priority: Priority,
    id: Seq<char>,
    file_uri: Seq<char>,
    now: u64,
)
    requires
        state.uris.contains_key(uri),
    ensures
        ({
            let entry = state.uris[uri];
            let remembered = entry.status is InFlight || (entry.status matches StatusView::Failed(
                until,
            ) && until > now);
            &&& !remembered && entry.waiters.remove(token).is_empty() ==> !state.job_finished(
                token,
                priority,
                now,
            ).uris.contains_key(uri)
            &&& !remembered && entry.waiters.is_empty() ==> !state.resolution_begun(
                Seq::empty(),
                token,
                priority,
                now,
            ).uris.contains_key(uri)
            &&& remembered ==> state.job_finished(token, priority, now).uris.contains_key(uri)
            &&& state.asks_for(uri, id) && entry.waiters.is_empty() ==> !state.fetch_finished(
                uri,
                priority,
                id,
                Some(file_uri),
                now,
            ).uris.contains_key(uri)
        }),
{
}

/// A job that begins to wait for class sources waits for each of them, unless it was called off; then it
/// waits for none that it did not wait for before. One that ends its wait for some waits for none of them
/// any more, and others wait as before.
pub proof fn lemma_waits(
    state: DecompileView,
    uris: Seq<Seq<char>>,
    uri: Seq<char>,
    token: u64,
    other: u64,
    priority: Priority,
    now: u64,
)
    requires
        other != token,
    ensures
        ({
            let begun = state.resolution_begun(uris, token, priority, now);
            let left = state.left(uris, token);
            &&& !state.canceled_jobs.contains(token) && uris.contains(uri) ==> begun.uris.contains_key(
                uri,
            ) && begun.uris[uri].waiters.contains(token)
            &&& state.canceled_jobs.contains(token) && begun.uris.contains_key(uri)
                ==> state.uris.contains_key(uri) && begun.uris[uri] == state.uris[uri]
            &&& begun.interactive_jobs == state.interactive_jobs && begun.bulk_jobs
                == state.bulk_jobs
            &&& left.uris.contains_key(uri) == state.uris.contains_key(uri)
            &&& state.uris.contains_key(uri) ==> {
                &&& left.uris[uri].status == state.uris[uri].status
                &&& left.uris[uri].waiters.contains(other) == state.uris[uri].waiters.contains(
                    other,
                )
                &&& uris.contains(uri) ==> !left.uris[uri].waiters.contains(token)
                &&& !uris.contains(uri) ==> left.uris[uri] == state.uris[uri]
            }
        }),
{
    let rest = DecompileView { uris: pruned(state.uris, now), ..state };
    lemma_joined_all(rest, uris, uris.len() as int, uri, token, priority, now);
    assert(uris.take(uris.len() as int) =~= uris);
}

proof fn lemma_joined_all(
    state: DecompileView,
    uris: Seq<Seq<char>>,
    n: int,
    uri: Seq<char>,
    token: u64,
    priority: Priority,
    now: u64,
)
    requires
        0 <= n <= uris.len(),
    ensures
        ({
            let after = state.joined_all(uris, n, token, priority, now);
            &&& uris.take(n).contains(uri) ==> after.uris.contains_key(uri)
                && after.uris[uri].waiters.contains(token)
            &&& after.interactive_jobs == state.interactive_jobs && after.bulk_jobs
                == state.bulk_jobs
        }),
    decreases n,
{
    if n > 0 {
        lemma_joined_all(state, uris, n - 1, uri, token, priority, now);
        if uris.take(n).contains(uri) && uri != uris[n - 1] {
            let i = choose|i: int| 0 <= i < uris.take(n).len() && uris.take(n)[i] == uri;
            assert(uris.take(n - 1)[i] == uri);
            assert(uris.take(n - 1).contains(uri));
        }
    }
}

/// Class sources are fetched in the order in which they came to be wanted: one that is to be fetched goes
/// to the end of its queue, and one that need not be goes to none.
pub proof fn lemma_sources_queued_in_order(
    state: DecompileView,
    uri: Seq<char>,
    token: u64,
    priority: Priority,
    now: u64,
)
    ensures
        ({
            let after = state.joined(uri, token, priority, now);
            let due = if state.uris.contains_key(uri) {
                match state.uris[uri].status {
                    StatusView::Failed(until) => until <= now,
                    StatusView::Queued(queued) => queued == Priority::Bulk && priority
                        == Priority::Interactive,
                    _ => false,
                }
            } else {
                true
            };
            &&& after.interactive_uris == if due && priority == Priority::Interactive {
                state.interactive_uris.push(uri)
            } else {
                state.interactive_uris
            }
            &&& after.bulk_uris == if due && priority == Priority::Bulk {
                state.bulk_uris.push(uri)
            } else {
                state.bulk_uris
            }
        }),
{
}

/// A bulk job that is done is not called off by the next one.
pub proof fn lemma_done_job_stays_done(
    state: DecompileView,
    token: u64,
    priority: Priority,
    now: u64,
    job: JobView,
)
    ensures
        state.job_finished(token, priority, now).latest_bulk_job != Some(token),
        !state.job_finished(token, priority, now).submitted(job).canceled_jobs.contains(token),
        state.latest_bulk_job != Some(token) ==> state.job_finished(
            token,
            priority,
            now,
        ).latest_bulk_job == state.latest_bulk_job,
{
}

/// The next request for a class source has another id than the one before it.
pub proof fn lemma_next_request_differs(state: DecompileView)
    requires
        state.uri_popped().1 is Some,
    ensures
        state.fetch_begun().next_request_id() != state.next_request_id(),
        state.fetch_begun().owned_id_prefix == state.owned_id_prefix,
{
    let after = state.fetch_begun();
    if after.next_request_id() == state.next_request_id() {
        lemma_request_ids_differ(state, after);
    }
}

/// An answer that is handed out waits no longer, and those behind it keep their order; bulk work that is
/// handed out counts as under way.
pub proof fn lemma_job_handed_out_once(state: DecompileView, job: JobView)
    requires
        state.job_taken().1 == Some(job),
    ensures
        ({
            let after = state.job_taken().0;
            ||| {
                &&& state.interactive_jobs == seq![job] + after.interactive_jobs
                &&& state.bulk_jobs == after.bulk_jobs
                &&& state.bulk_jobs_active == after.bulk_jobs_active
            }
            ||| {
                &&& state.interactive_jobs.len() == 0 && after.interactive_jobs.len() == 0
                &&& state.bulk_jobs == seq![job] + after.bulk_jobs
                &&& state.bulk_jobs_active + 1 == after.bulk_jobs_active
            }
        }),
{
    let after = state.job_taken().0;
    if state.interactive_jobs.len() > 0 {
        assert(state.interactive_jobs =~= seq![job] + after.interactive_jobs);
    } else {
        assert(state.bulk_jobs =~= seq![job] + after.bulk_jobs);
    }
}

} // verus!
