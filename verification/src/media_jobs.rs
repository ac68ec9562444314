//! The transfer jobs of the media service: each media object being downloaded to, or
//! uploaded from, its requester, with the number of attempts that failed so far. A failed
//! attempt is retried; a successful one ends the job.
use vstd::prelude::*;
use crate::ids::{first_index, lemma_first_index};

verus! {

/// A media object of an application.
#[derive(Debug)]
pub struct AppMediaObjectId {
    pub app_id: String,
    pub media_id: String,
}

impl View for AppMediaObjectId {
    type V = (Seq<char>, Seq<char>);

    open spec fn view(&self) -> (Seq<char>, Seq<char>) {
        (self.app_id@, self.media_id@)
    }
}

impl AppMediaObjectId {
    pub fn new(app_id: String, media_id: String) -> (r: Self)
        ensures
            r@ == (app_id@, media_id@),
    {
        AppMediaObjectId { app_id, media_id }
    }

    /// Whether both name the same media object.
    pub fn same_as(&self, other: &AppMediaObjectId) -> (r: bool)
        ensures
            r == (self@ == other@),
    {
        self.app_id == other.app_id && self.media_id == other.media_id
    }

    /// The object's path relative to the media root: its application's directory, then the
    /// media id.
    pub fn relative_path(&self) -> (r: String)
        ensures
            r@ == relative_path_of(self@),
    {
        let mut r = self.app_id.clone();
        r.append("/");
        proof {
            reveal_strlit("/");
        }
        r.append(self.media_id.as_str());
        r
    }
}

/// The path of object `id` relative to the media root.
pub open spec fn relative_path_of(id: (Seq<char>, Seq<char>)) -> Seq<char> {
    id.0 + seq!['/'] + id.1
}

/// The direction of a transfer.
#[derive(Clone, Copy, PartialEq, Eq, Structural, Debug)]
pub enum TransferKind {
    Download,
    Upload,
}

/// The state a transfer's record takes.
#[derive(Clone, Copy, PartialEq, Eq, Structural, Debug)]
pub enum RecordedState {
    /// The transfer is complete.
    Completed,
    /// The transfer is again under way, with no progress yet, after `retry` failed attempts.
    InProgress { retry: usize },
}

/// What to write in an object's media record when an attempt finished: the state of the
/// transfer, and the object's path when it is to be set (`None` leaves the path as it is).
#[derive(Debug)]
pub struct RecordUpdate {
    pub state: RecordedState,
    pub path: Option<String>,
}

/// The record update for a finished attempt of a transfer of object `id`: a completed
/// transfer is recorded as completed, and a completed upload also records the object's
/// path relative to the media root; a failed attempt records the transfer as under way
/// again, with no progress and the number of attempts that failed before it.
pub fn record_update(kind: TransferKind, id: &AppMediaObjectId, update: TransferUpdate) -> (r: RecordUpdate)
    ensures
        r.state == match update {
            TransferUpdate::Completed => RecordedState::Completed,
            TransferUpdate::Retrying { retry } => RecordedState::InProgress { retry },
        },
        kind == TransferKind::Upload && update == TransferUpdate::Completed ==> (r.path matches Some(p) && p@
            == relative_path_of(id@)),
        !(kind == TransferKind::Upload && update == TransferUpdate::Completed) ==> r.path is None,
{
    match update {
        TransferUpdate::Completed => {
            let path = match kind {
                TransferKind::Upload => Some(id.relative_path()),
                TransferKind::Download => None,
            };
            RecordUpdate { state: RecordedState::Completed, path }
        },
        TransferUpdate::Retrying { retry } => RecordUpdate { state: RecordedState::InProgress { retry }, path: None },
    }
}

/// A transfer under way: the object, what the transfer was asked to do, and how many of its
/// attempts failed.
#[derive(Debug)]
pub struct TransferJob<S> {
    pub id: AppMediaObjectId,
    pub spec: S,
    pub retry: usize,
}

/// What a finished attempt asks to record about the object.
#[derive(Clone, Copy, PartialEq, Eq, Structural, Debug)]
pub enum TransferUpdate {
    /// The transfer is complete.
    Completed,
    /// The attempt failed; the object is again in transfer, with `retry` failed attempts
    /// before this one, and a new attempt is to be started.
    Retrying { retry: usize },
}

/// The transfers of one direction.
#[derive(Debug)]
pub struct TransferJobs<S> {
    pub jobs: Vec<TransferJob<S>>,
}

/// Index of the job of object `id`, or -1.
pub open spec fn job_index<S>(jobs: Seq<TransferJob<S>>, id: (Seq<char>, Seq<char>)) -> int {
    first_index(jobs, |j: TransferJob<S>| j.id@ == id)
}

impl<S> TransferJobs<S> {
    pub fn new() -> (r: Self)
        ensures
            r.jobs@.len() == 0,
    {
        TransferJobs { jobs: Vec::new() }
    }

    fn find(&self, id: &AppMediaObjectId) -> (r: usize)
        ensures
            r <= self.jobs@.len(),
            r == self.jobs@.len() <==> job_index(self.jobs@, id@) < 0,
            r < self.jobs@.len() ==> job_index(self.jobs@, id@) == r,
    {
        let ghost p = |j: TransferJob<S>| j.id@ == id@;
        let n = self.jobs.len();
        let mut i: usize = 0;
        while i < n && !self.jobs[i].id.same_as(id)
            invariant
                n == self.jobs@.len(),
                i <= n,
                p == (|j: TransferJob<S>| j.id@ == id@),
                forall|k: int| 0 <= k < i ==> !p(#[trigger] self.jobs@[k]),
            decreases n - i,
        {
            i = i + 1;
        }
        proof {
            lemma_first_index(self.jobs@, p, i as int);
        }
        i
    }

    /// Starts a transfer of object `id`, with no failed attempt; a transfer of the same
    /// object already under way is replaced.
    pub fn add(&mut self, id: AppMediaObjectId, spec: S)
        ensures
            ({
                let i = job_index(old(self).jobs@, id@);
                let job = TransferJob { id, spec, retry: 0 };
                final(self).jobs@ == if i >= 0 {
                    old(self).jobs@.update(i, job)
                } else {
                    old(self).jobs@.push(job)
                }
            }),
    {
        let i = self.find(&id);
        let job = TransferJob { id, spec, retry: 0 };
        if i < self.jobs.len() {
            self.jobs.set(i, job);
        } else {
            self.jobs.push(job);
        }
    }

    /// Records that an attempt of the transfer of `id` finished, successfully or not: the job
    /// leaves the list and is handed back with what to record about the object. A success
    /// completes the transfer; a failure asks to record one more failed attempt, after which
    /// the caller puts the job back with `requeue` (when recording fails, the job stays out).
    /// Nothing happens for an object with no transfer under way.
    pub fn finished(&mut self, id: &AppMediaObjectId, success: bool) -> (r: Option<(TransferUpdate, TransferJob<S>)>)
        ensures
            ({
                let i = job_index(old(self).jobs@, id@);
                if i < 0 {
                    &&& r is None
                    &&& final(self).jobs@ == old(self).jobs@
                } else {
                    let job = old(self).jobs@[i];
                    &&& final(self).jobs@ == old(self).jobs@.remove(i)
                    &&& r == Some((
                        if success {
                            TransferUpdate::Completed
                        } else {
                            TransferUpdate::Retrying { retry: job.retry }
                        },
                        job,
                    ))
                }
            }),
    {
        let i = self.find(id);
        if i == self.jobs.len() {
            return None;
        }
        let job = self.jobs.remove(i);
        let update = if success {
            TransferUpdate::Completed
        } else {
            TransferUpdate::Retrying { retry: job.retry }
        };
        Some((update, job))
    }

    /// Puts a job whose attempt failed back in the list, counting one more failed attempt, so
    /// that a new attempt is started; a job of the same object already in the list is
    /// replaced.
    pub fn requeue(&mut self, job: TransferJob<S>)
        requires
            job.retry < usize::MAX,
        ensures
            ({
                let i = job_index(old(self).jobs@, job.id@);
                let again = TransferJob { id: job.id, spec: job.spec, retry: (job.retry + 1) as usize };
                final(self).jobs@ == if i >= 0 {
                    old(self).jobs@.update(i, again)
                } else {
                    old(self).jobs@.push(again)
                }
            }),
    {
        let i = self.find(&job.id);
        let TransferJob { id, spec, retry } = job;
        let again = TransferJob { id, spec, retry: retry + 1 };
        if i < self.jobs.len() {
            self.jobs.set(i, again);
        } else {
            self.jobs.push(again);
        }
    }
}

/// Where the media service keeps its records.
#[derive(Debug)]
pub struct DbConfig {
    pub database_url: String,
}

impl DbConfig {
    /// The database used when none is configured: an in-memory SQLite database.
    pub fn default_database_url() -> (r: String)
        ensures
            r@ == "sqlite::memory:"@,
    {
        String::from_str("sqlite::memory:")
    }
}

} // verus!
