//! Running the jobs of the stage-based pipeline and retrying failed work.
use vstd::prelude::*;
use crate::arch::HostArchitecture;
use crate::errors::AntZookeeperError;
use crate::pipeline_engine::engine::{EngineError, PipelineEngine};
use crate::pipeline_engine::model::EngineView;
use crate::project_view::{decimal, push_decimal, status_name, status_str};
use crate::text::{push_text, str_eq};

verus! {

/// How a job ended: `Pending` when it waits on something outside and must be checked again
/// later, `Finished` when the pipeline can move on.
pub enum JobCompletion<T> {
    Pending,
    Finished(T),
}

/// The answer to a pipeline iteration.
pub struct IteratePipelineResponse {}

/// A request to retry a job of the stage-based pipeline, or a node of the engine.
pub struct RetryRequest {
    pub job_id: Option<String>,
    pub node_id: Option<String>,
}

/// An artifact registration completes once its architecture is no longer missing from the
/// revision.
pub fn artifact_registered(missing: &Vec<HostArchitecture>, arch: HostArchitecture) -> (r: JobCompletion<()>)
    ensures
        missing@.contains(arch) ==> r is Pending,
        !missing@.contains(arch) ==> r is Finished,
{
    let mut i: usize = 0;
    while i < missing.len()
        invariant
            i <= missing.len(),
            forall|k: int| 0 <= k < i ==> missing@[k] != arch,
        decreases missing.len() - i,
    {
        if missing[i] == arch {
            assert(missing@[i as int] == arch);
            return JobCompletion::Pending;
        }
        i = i + 1;
    }
    JobCompletion::Finished(())
}

/// A build stage finishes once its revision is activated (all architectures built on one
/// version); any other stage finishes at once.
pub fn stage_finished(stage_type: &str, revision_activated: bool) -> (r: JobCompletion<()>)
    ensures
        stage_type@ == "build"@ && !revision_activated ==> r is Pending,
        !(stage_type@ == "build"@ && !revision_activated) ==> r is Finished,
{
    if str_eq(stage_type, "build") && !revision_activated {
        JobCompletion::Pending
    } else {
        JobCompletion::Finished(())
    }
}

/// How running a job went.
pub enum JobRun {
    /// The event has no work to perform.
    NothingToPerform,
    /// The work ran and reported back.
    Completed(JobCompletion<()>),
    /// The work returned an error.
    Failed,
    /// The worker task itself failed.
    Crashed,
}

/// Whether a job succeeded, once it is over: `None` while it is pending (its start is undone
/// so that it runs again), `Some(true)` when it finished or had nothing to do, `Some(false)`
/// when it failed.
pub fn job_success(run: &JobRun) -> (r: Option<bool>)
    ensures
        match run {
            JobRun::NothingToPerform => r == Some(true),
            JobRun::Completed(JobCompletion::Pending) => r is None,
            JobRun::Completed(JobCompletion::Finished(_)) => r == Some(true),
            JobRun::Failed | JobRun::Crashed => r == Some(false),
        },
{
    match run {
        JobRun::NothingToPerform => Some(true),
        JobRun::Completed(JobCompletion::Pending) => None,
        JobRun::Completed(JobCompletion::Finished(_)) => Some(true),
        JobRun::Failed => Some(false),
        JobRun::Crashed => Some(false),
    }
}

/// A job of the stage-based pipeline: the event of a revision it performs.
pub struct DeploymentJob {
    pub job_id: String,
    pub revision: String,
    pub event_document: String,
}

/// What becomes of a job once it ran.
pub enum JobUpdate {
    /// Record the job as over, successful or not.
    Complete { job_id: String, revision: String, event_document: String, is_success: bool },
    /// Undo the job's start so that it runs again later.
    Unstart { job_id: String },
}

/// The update for a job that ran: over when its success is known, restarted later otherwise.
pub fn job_update(job: &DeploymentJob, success: Option<bool>) -> (r: JobUpdate)
    ensures
        match success {
            Some(ok) => r matches JobUpdate::Complete { job_id, revision, event_document, is_success } && job_id@
                == job.job_id@ && revision@ == job.revision@ && event_document@ == job.event_document@ && is_success == ok,
            None => r matches JobUpdate::Unstart { job_id } && job_id@ == job.job_id@,
        },
{
    match success {
        Some(ok) => JobUpdate::Complete {
            job_id: job.job_id.clone(),
            revision: job.revision.clone(),
            event_document: job.event_document.clone(),
            is_success: ok,
        },
        None => JobUpdate::Unstart { job_id: job.job_id.clone() },
    }
}

/// What a retry by job id does, given the job's `(is_success, is_retryable)` if it exists.
pub enum RetryStep {
    /// The job is already marked retryable: answer with its last update.
    AlreadyRetryable,
    /// Mark the job retryable.
    MarkRetryable,
}

/// Decides a retry by job id: an unknown job is not found, a successful job cannot be retried,
/// a retryable one is left as it is, any other is marked retryable.
pub fn retry_job_step(job_id: &str, job: Option<(bool, bool)>) -> (r: Result<RetryStep, AntZookeeperError>)
    ensures
        match job {
            None => r matches Err(AntZookeeperError::ResourceNotFound(m)) && m@ == job_id@,
            Some((true, _)) => r matches Err(AntZookeeperError::ValidationError(m)) && m@ == "Job "@ + job_id@
                + " has already been completed and cannot be retried."@,
            Some((false, true)) => r matches Ok(RetryStep::AlreadyRetryable),
            Some((false, false)) => r matches Ok(RetryStep::MarkRetryable),
        },
{
    match job {
        None => Err(AntZookeeperError::ResourceNotFound(job_id.to_string())),
        Some((is_success, is_retryable)) => {
            if is_success {
                let mut m = String::new();
                push_text(&mut m, "Job ");
                push_text(&mut m, job_id);
                push_text(&mut m, " has already been completed and cannot be retried.");
                Err(AntZookeeperError::ValidationError(m))
            } else if is_retryable {
                Ok(RetryStep::AlreadyRetryable)
            } else {
                Ok(RetryStep::MarkRetryable)
            }
        },
    }
}

/// The request names neither a job nor a node.
pub fn missing_retry_target() -> (r: AntZookeeperError)
    ensures
        r matches AntZookeeperError::ValidationError(m) && m@ == "either jobId or nodeId is required"@,
{
    AntZookeeperError::validation_msg("either jobId or nodeId is required")
}

/// Retries node `node_id` of the engine; a refusal becomes a validation error naming the node
/// (and its state, when it cannot be retried).
pub fn retry_node(engine: &mut PipelineEngine, node_id: usize) -> (r: Result<(), AntZookeeperError>)
    requires
        old(engine).wf(),
    ensures
        final(engine).wf(),
        node_id >= old(engine)@.nodes.len() ==> final(engine)@ == old(engine)@ && (r matches Err(
            AntZookeeperError::ValidationError(m),
        ) && m@ == "node "@ + decimal(node_id as nat) + " not found"@),
        node_id < old(engine)@.nodes.len() ==> match EngineView::retry_target(old(engine)@.node_states[node_id as int]) {
            Some(to) => r is Ok && final(engine)@ == old(engine)@.retried(node_id as int, to),
            None => final(engine)@ == old(engine)@ && (r matches Err(AntZookeeperError::ValidationError(m)) && m@ == "node "@
                + decimal(node_id as nat) + " is in state '"@ + status_name(old(engine)@.node_states[node_id as int])
                + "', cannot retry"@),
        },
{
    match engine.retry(node_id) {
        Ok(()) => Ok(()),
        Err(e) => {
            let mut m = String::new();
            push_text(&mut m, "node ");
            push_decimal(&mut m, node_id);
            match e {
                EngineError::CannotRetry(s) => {
                    push_text(&mut m, " is in state '");
                    push_text(&mut m, status_str(s));
                    push_text(&mut m, "', cannot retry");
                },
                _ => {
                    push_text(&mut m, " not found");
                },
            }
            Err(AntZookeeperError::ValidationError(m))
        },
    }
}

} // verus!
