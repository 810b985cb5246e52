use types_of_ants::progress::{failed_jobs, revision_progress, unfinished, JobRecord, RevisionProgress};

fn rp(id: &str, at: u64) -> RevisionProgress {
    RevisionProgress { revision: id.to_string(), reached_at: at }
}

fn job(id: &str, ok: bool, start: u64, end: u64) -> JobRecord {
    JobRecord { job_id: id.to_string(), is_success: ok, started_at: start, finished_at: end }
}

#[test]
fn unfinished_compares_revision_and_time() {
    let started = vec![rp("r1", 10), rp("r2", 20), rp("r3", 30)];
    let finished = vec![rp("r1", 10), rp("r2", 25)];
    assert_eq!(unfinished(&started, &finished), vec![1, 2]);
    assert_eq!(unfinished(&started, &vec![]), vec![0, 1, 2]);
    assert_eq!(unfinished(&vec![], &finished), Vec::<usize>::new());
}

#[test]
fn failed_jobs_keep_only_failures_in_order() {
    let f = failed_jobs(&vec![job("a", true, 1, 2), job("b", false, 3, 4), job("c", false, 5, 6)]);
    let ids: Vec<&str> = f.iter().map(|j| j.job_id.as_str()).collect();
    assert_eq!(ids, vec!["b", "c"]);
    assert_eq!((f[0].started_at, f[0].finished_at), (3, 4));
}

#[test]
fn progress_lists_revisions_with_failed_jobs() {
    let started = vec![rp("r1", 10), rp("r2", 20), rp("r3", 30)];
    let finished = vec![rp("r1", 10)];
    let positions = unfinished(&started, &finished);
    assert_eq!(positions, vec![1, 2]);
    let jobs = vec![vec![job("j1", true, 1, 2)], vec![job("j2", false, 3, 4), job("j3", true, 5, 6)]];
    let p = revision_progress(&started, &finished, &jobs);
    assert_eq!(p.started_revisions.len(), 3);
    assert_eq!(p.finished_revisions.len(), 1);
    assert_eq!(p.finished_revisions[0].revision, "r1");
    assert_eq!(p.failed_revisions.len(), 1);
    assert_eq!(p.failed_revisions[0].revision, "r3");
    assert_eq!(p.failed_revisions[0].failed_jobs.len(), 1);
    assert_eq!(p.failed_revisions[0].failed_jobs[0].job_id, "j2");
}
