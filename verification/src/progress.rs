//! How far the revisions got between two events of a pipeline: which reached the first, which
//! reached the second, and which of those in between have failed jobs.
use vstd::prelude::*;
use crate::text::str_eq;

verus! {

/// A revision that reached an event, and when (seconds since the epoch).
#[derive(Debug)]
pub struct RevisionProgress {
    pub revision: String,
    pub reached_at: u64,
}

/// A job run after the first event, as the job history lists it.
#[derive(Debug)]
pub struct JobRecord {
    pub job_id: String,
    pub is_success: bool,
    pub started_at: u64,
    pub finished_at: u64,
}

/// A job that did not succeed.
#[derive(Debug)]
pub struct FailedJob {
    pub job_id: String,
    pub started_at: u64,
    pub finished_at: u64,
}

/// A revision with the jobs that failed on it.
#[derive(Debug)]
pub struct FailedRevision {
    pub revision: String,
    pub failed_jobs: Vec<FailedJob>,
}

/// The progress of the revisions from one event to another.
#[derive(Debug)]
pub struct TargetRevisionProgress {
    pub started_revisions: Vec<RevisionProgress>,
    pub finished_revisions: Vec<RevisionProgress>,
    pub failed_revisions: Vec<FailedRevision>,
}

impl RevisionProgress {
    pub open spec fn view(self) -> (Seq<char>, u64) {
        (self.revision@, self.reached_at)
    }
}

impl JobRecord {
    pub open spec fn view(self) -> (Seq<char>, bool, u64, u64) {
        (self.job_id@, self.is_success, self.started_at, self.finished_at)
    }
}

impl FailedJob {
    pub open spec fn view(self) -> (Seq<char>, u64, u64) {
        (self.job_id@, self.started_at, self.finished_at)
    }
}

pub open spec fn progress_view(s: Seq<RevisionProgress>) -> Seq<(Seq<char>, u64)> {
    Seq::new(s.len(), |i: int| s[i].view())
}

pub open spec fn jobs_view(s: Seq<JobRecord>) -> Seq<(Seq<char>, bool, u64, u64)> {
    Seq::new(s.len(), |i: int| s[i].view())
}

pub open spec fn failed_view(s: Seq<FailedJob>) -> Seq<(Seq<char>, u64, u64)> {
    Seq::new(s.len(), |i: int| s[i].view())
}

impl FailedRevision {
    pub open spec fn view(self) -> (Seq<char>, Seq<(Seq<char>, u64, u64)>) {
        (self.revision@, failed_view(self.failed_jobs@))
    }
}

pub open spec fn failed_revisions_view(s: Seq<FailedRevision>) -> Seq<(Seq<char>, Seq<(Seq<char>, u64, u64)>)> {
    Seq::new(s.len(), |i: int| s[i].view())
}

/// The entries of `started` that are not in `finished` (same revision, reached at the same time),
/// as positions in `started`, in order.
pub open spec fn unfinished_positions(started: Seq<(Seq<char>, u64)>, finished: Seq<(Seq<char>, u64)>) -> Seq<usize>
    decreases started.len(),
{
    if started.len() == 0 {
        Seq::empty()
    } else {
        let before = unfinished_positions(started.drop_last(), finished);
        if finished.contains(started.last()) {
            before
        } else {
            before.push((started.len() - 1) as usize)
        }
    }
}

/// The jobs that did not succeed, in order, without their outcome.
pub open spec fn failures(jobs: Seq<(Seq<char>, bool, u64, u64)>) -> Seq<(Seq<char>, u64, u64)>
    decreases jobs.len(),
{
    if jobs.len() == 0 {
        Seq::empty()
    } else {
        let before = failures(jobs.drop_last());
        let j = jobs.last();
        if j.1 {
            before
        } else {
            before.push((j.0, j.2, j.3))
        }
    }
}

/// For each unfinished revision in turn (its id in `ids`, its jobs in `jobs`), the revision with
/// its failed jobs, when it has any.
pub open spec fn failed_revisions(ids: Seq<Seq<char>>, jobs: Seq<Seq<(Seq<char>, bool, u64, u64)>>) -> Seq<
    (Seq<char>, Seq<(Seq<char>, u64, u64)>),
>
    decreases ids.len(),
{
    if ids.len() == 0 || jobs.len() == 0 {
        Seq::empty()
    } else {
        let before = failed_revisions(ids.drop_last(), jobs.drop_last());
        let f = failures(jobs.last());
        if f.len() > 0 {
            before.push((ids.last(), f))
        } else {
            before
        }
    }
}

fn same_progress(a: &RevisionProgress, b: &RevisionProgress) -> (r: bool)
    ensures
        r == (a.view() == b.view()),
{
    a.reached_at == b.reached_at && str_eq(a.revision.as_str(), b.revision.as_str())
}

fn copy_progress(p: &RevisionProgress) -> (r: RevisionProgress)
    ensures
        r.view() == p.view(),
{
    RevisionProgress { revision: p.revision.clone(), reached_at: p.reached_at }
}

/// The positions of the revisions that reached the first event but not the second, which are
/// the ones whose jobs are looked at. A revision counts as finished when `finished` lists it with
/// the same time.
pub fn unfinished(started: &Vec<RevisionProgress>, finished: &Vec<RevisionProgress>) -> (r: Vec<usize>)
    ensures
        r@ == unfinished_positions(progress_view(started@), progress_view(finished@)),
{
    let ghost fv = progress_view(finished@);
    let mut out: Vec<usize> = Vec::new();
    let mut i: usize = 0;
    while i < started.len()
        invariant
            i <= started.len(),
            fv == progress_view(finished@),
            out@ == unfinished_positions(progress_view(started@).take(i as int), fv),
        decreases started.len() - i,
    {
        let ghost sv = progress_view(started@).take(i + 1);
        proof {
            assert(sv.drop_last() =~= progress_view(started@).take(i as int));
            assert(sv.last() == started@[i as int].view());
        }
        let mut found = false;
        let mut k: usize = 0;
        while k < finished.len()
            invariant
                k <= finished.len(),
                i < started.len(),
                fv == progress_view(finished@),
                found == exists|j: int| 0 <= j < k && fv[j] == started@[i as int].view(),
            decreases finished.len() - k,
        {
            proof {
                assert(fv[k as int] == finished@[k as int].view());
            }
            if same_progress(&finished[k], &started[i]) {
                found = true;
            }
            proof {
                if !found {
                    assert forall|j: int| 0 <= j < k + 1 implies fv[j] != started@[i as int].view() by {
                        if j < k {
                            assert(!(0 <= j < k && fv[j] == started@[i as int].view()));
                        }
                    }
                }
            }
            k = k + 1;
        }
        proof {
            if found {
                let j = choose|j: int| 0 <= j < k && fv[j] == started@[i as int].view();
                assert(fv.contains(started@[i as int].view()));
            } else {
                assert(!fv.contains(started@[i as int].view()));
            }
        }
        if !found {
            out.push(i);
        }
        i = i + 1;
    }
    proof {
        assert(progress_view(started@).take(i as int) =~= progress_view(started@));
    }
    out
}

/// The jobs that did not succeed.
pub fn failed_jobs(jobs: &Vec<JobRecord>) -> (r: Vec<FailedJob>)
    ensures
        failed_view(r@) == failures(jobs_view(jobs@)),
{
    let mut out: Vec<FailedJob> = Vec::new();
    let mut i: usize = 0;
    while i < jobs.len()
        invariant
            i <= jobs.len(),
            failed_view(out@) == failures(jobs_view(jobs@).take(i as int)),
        decreases jobs.len() - i,
    {
        let j = &jobs[i];
        proof {
            assert(jobs_view(jobs@).take(i + 1).drop_last() =~= jobs_view(jobs@).take(i as int));
            assert(jobs_view(jobs@).take(i + 1).last() == j.view());
        }
        if !j.is_success {
            let ghost before = failed_view(out@);
            out.push(FailedJob { job_id: j.job_id.clone(), started_at: j.started_at, finished_at: j.finished_at });
            proof {
                assert(failed_view(out@) =~= before.push((j.job_id@, j.started_at, j.finished_at)));
            }
        }
        i = i + 1;
    }
    proof {
        assert(jobs_view(jobs@).take(i as int) =~= jobs_view(jobs@));
    }
    out
}

/// The progress between two events: the revisions that reached each, and, for the revisions that
/// reached the first but not the second (their positions in `started` given by [`unfinished`]),
/// those with failed jobs among the jobs run after the first event (`jobs`, one list per such
/// revision, in the same order).
pub fn revision_progress(
    started: &Vec<RevisionProgress>,
    finished: &Vec<RevisionProgress>,
    jobs: &Vec<Vec<JobRecord>>,
) -> (r: TargetRevisionProgress)
    requires
        jobs@.len() == unfinished_positions(progress_view(started@), progress_view(finished@)).len(),
    ensures
        progress_view(r.started_revisions@) == progress_view(started@),
        progress_view(r.finished_revisions@) == progress_view(finished@),
        failed_revisions_view(r.failed_revisions@) == failed_revisions(
            Seq::new(
                jobs@.len(),
                |i: int| started@[unfinished_positions(progress_view(started@), progress_view(finished@))[i] as int].revision@,
            ),
            Seq::new(jobs@.len(), |i: int| jobs_view(jobs@[i]@)),
        ),
{
    let positions = unfinished(started, finished);
    proof {
        lemma_positions_bounded(progress_view(started@), progress_view(finished@));
    }
    let ghost ids = Seq::new(jobs@.len(), |i: int| started@[positions@[i] as int].revision@);
    let ghost jv = Seq::new(jobs@.len(), |i: int| jobs_view(jobs@[i]@));
    let mut failed: Vec<FailedRevision> = Vec::new();
    let mut i: usize = 0;
    while i < jobs.len()
        invariant
            i <= jobs.len(),
            positions@.len() == jobs@.len(),
            forall|k: int| 0 <= k < positions@.len() ==> #[trigger] positions@[k] < started@.len(),
            ids == Seq::new(jobs@.len(), |k: int| started@[positions@[k] as int].revision@),
            jv == Seq::new(jobs@.len(), |k: int| jobs_view(jobs@[k]@)),
            failed_revisions_view(failed@) == failed_revisions(ids.take(i as int), jv.take(i as int)),
        decreases jobs.len() - i,
    {
        let f = failed_jobs(&jobs[i]);
        proof {
            assert(ids.take(i + 1).drop_last() =~= ids.take(i as int));
            assert(jv.take(i + 1).drop_last() =~= jv.take(i as int));
            assert(jv.take(i + 1).last() == jobs_view(jobs@[i as int]@));
            assert(ids.take(i + 1).last() == started@[positions@[i as int] as int].revision@);
        }
        if f.len() > 0 {
            let ghost before = failed_revisions_view(failed@);
            let p = positions[i];
            let rev = started[p].revision.clone();
            let entry = FailedRevision { revision: rev, failed_jobs: f };
            failed.push(entry);
            proof {
                assert(failed_revisions_view(failed@) =~= before.push(entry.view()));
            }
        }
        i = i + 1;
    }
    proof {
        assert(ids.take(i as int) =~= ids);
        assert(jv.take(i as int) =~= jv);
    }
    let mut started_out: Vec<RevisionProgress> = Vec::new();
    let mut k: usize = 0;
    while k < started.len()
        invariant
            k <= started.len(),
            progress_view(started_out@) == progress_view(started@).take(k as int),
        decreases started.len() - k,
    {
        let ghost before = progress_view(started_out@);
        let c = copy_progress(&started[k]);
        started_out.push(c);
        proof {
            assert(progress_view(started_out@) =~= before.push(c.view()));
            assert(progress_view(started@).take(k + 1) =~= progress_view(started@).take(k as int).push(started@[k as int].view()));
        }
        k = k + 1;
    }
    let mut finished_out: Vec<RevisionProgress> = Vec::new();
    let mut k: usize = 0;
    while k < finished.len()
        invariant
            k <= finished.len(),
            progress_view(finished_out@) == progress_view(finished@).take(k as int),
        decreases finished.len() - k,
    {
        let ghost before = progress_view(finished_out@);
        let c = copy_progress(&finished[k]);
        finished_out.push(c);
        proof {
            assert(progress_view(finished_out@) =~= before.push(c.view()));
            assert(progress_view(finished@).take(k + 1) =~= progress_view(finished@).take(k as int).push(finished@[k as int].view()));
        }
        k = k + 1;
    }
    proof {
        assert(progress_view(started@).take(started@.len() as int) =~= progress_view(started@));
        assert(progress_view(finished@).take(finished@.len() as int) =~= progress_view(finished@));
    }
    TargetRevisionProgress { started_revisions: started_out, finished_revisions: finished_out, failed_revisions: failed }
}

proof fn lemma_positions_bounded(started: Seq<(Seq<char>, u64)>, finished: Seq<(Seq<char>, u64)>)
    ensures
        forall|k: int|
            0 <= k < unfinished_positions(started, finished).len() ==> #[trigger] unfinished_positions(started, finished)[k]
                < started.len(),
        unfinished_positions(started, finished).len() <= started.len(),
    decreases started.len(),
{
    if started.len() > 0 {
        lemma_positions_bounded(started.drop_last(), finished);
        let before = unfinished_positions(started.drop_last(), finished);
        let u = unfinished_positions(started, finished);
        assert forall|k: int| 0 <= k < u.len() implies #[trigger] u[k] < started.len() by {
            if k < before.len() {
                assert(u[k] == before[k]);
            }
        }
    }
}

} // verus!
