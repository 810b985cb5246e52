//! Properties the engine's operations keep, stated over the model that their contracts use.
use vstd::prelude::*;
use crate::pipeline_engine::model::{
    EngineView, JobStatus, NodeEvent, NodeInfoView, NodeStatus, PipelineInfoView, PipelineStatus, TransitionReason, done_forward,
    fifo_terminal, not_started, lemma_true_indices_bounds, lemma_true_indices_contains, log_for, set_where, true_indices,
};

verus! {

/// An all-false selection lists nothing.
proof fn lemma_true_indices_none(sel: Seq<bool>)
    requires
        sel.len() <= usize::MAX,
        forall|i: int| 0 <= i < sel.len() ==> !sel[i],
    ensures
        true_indices(sel) == Seq::<usize>::empty(),
{
    lemma_true_indices_bounds(sel);
    if true_indices(sel).len() > 0 {
        assert(sel[true_indices(sel)[0] as int]);
    }
    assert(true_indices(sel) =~= Seq::<usize>::empty());
}

/// Cancelling a pipeline frees every resource it held: afterwards none of its nodes blocks a
/// node of a newer revision.
pub proof fn law_cancel_releases_resources(v: EngineView, p: int)
    requires
        v.wf(),
        0 <= p < v.pipelines.len(),
    ensures
        forall|j: int|
            0 <= j < v.nodes.len() && v.nodes[j].pipeline == p ==> fifo_terminal(#[trigger] v.cancelled(p).node_states[j]),
        forall|j: int, i: int|
            0 <= j < v.nodes.len() && 0 <= i < v.nodes.len() && v.nodes[j].pipeline == p ==> !#[trigger] v.cancelled(p).blocks(j, i),
{
    let w = v.cancelled(p);
    assert forall|j: int| 0 <= j < v.nodes.len() && v.nodes[j].pipeline == p implies fifo_terminal(#[trigger] w.node_states[j]) by {
        if v.node_states[j] != NodeStatus::Finished {
            assert(v.cancel_selects(p, j));
        }
    }
    assert forall|j: int, i: int|
        0 <= j < v.nodes.len() && 0 <= i < v.nodes.len() && v.nodes[j].pipeline == p implies !#[trigger] w.blocks(j, i) by {
        assert(fifo_terminal(w.node_states[j]));
    }
}

/// A tick dispatches a node forward only when it is executable, every predecessor is finished or
/// cancelled, and no node of an older revision still holds the resource it mutates.
pub proof fn law_tick_claims_respect_order(v: EngineView, now: u64, stale_error: Seq<char>)
    requires
        v.wf(),
        v.nodes.len() <= usize::MAX,
    ensures
        ({
            let w = v.tick_prepared(now, stale_error);
            forall|k: int| 0 <= k < w.tick_claims().0.len() ==> {
                let i = #[trigger] w.tick_claims().0[k] as int;
                &&& w.node_states[i] == NodeStatus::Executable
                &&& w.preds_done(i)
                &&& forall|j: int| 0 <= j < w.nodes.len() ==> !w.blocks(j, i)
            }
        }),
{
    let w = v.tick_prepared(now, stale_error);
    let sel = Seq::new(w.nodes.len(), |i: int| w.is_runnable(i));
    lemma_true_indices_bounds(sel);
    assert forall|k: int| 0 <= k < w.tick_claims().0.len() implies {
        let i = #[trigger] w.tick_claims().0[k] as int;
        &&& w.node_states[i] == NodeStatus::Executable
        &&& w.preds_done(i)
        &&& forall|j: int| 0 <= j < w.nodes.len() ==> !w.blocks(j, i)
    } by {
        let i = w.tick_claims().0[k] as int;
        assert(sel[i]);
        assert(w.is_runnable(i));
        assert forall|j: int| 0 <= j < w.nodes.len() implies !w.blocks(j, i) by {
            if w.blocks(j, i) {
                assert(w.fifo_blocked(i));
            }
        }
    }
}

/// A tick rolls a node back only after every successor inside the unwind scope has been rolled
/// back or cancelled: unwinding runs in reverse order.
pub proof fn law_tick_unwinds_in_reverse(v: EngineView, now: u64, stale_error: Seq<char>)
    requires
        v.wf(),
        v.nodes.len() <= usize::MAX,
    ensures
        ({
            let w = v.tick_prepared(now, stale_error);
            forall|k: int, e: int|
                0 <= k < w.tick_claims().1.len() && 0 <= e < w.edges.len() && w.edges[e].0 == #[trigger] w.tick_claims().1[k]
                    && w.unwind_scope()[#[trigger] w.edges[e].1 as int] ==> {
                    let s = w.node_states[w.edges[e].1 as int];
                    s == NodeStatus::Unwound || s == NodeStatus::Cancelled
                }
        }),
{
    let w = v.tick_prepared(now, stale_error);
    let sel = w.unwind_eligible_flags();
    lemma_true_indices_bounds(sel);
    assert forall|k: int, e: int|
        0 <= k < w.tick_claims().1.len() && 0 <= e < w.edges.len() && w.edges[e].0 == #[trigger] w.tick_claims().1[k]
            && w.unwind_scope()[#[trigger] w.edges[e].1 as int] implies {
            let s = w.node_states[w.edges[e].1 as int];
            s == NodeStatus::Unwound || s == NodeStatus::Cancelled
        } by {
        let i = w.tick_claims().1[k] as int;
        assert(sel[i]);
        assert(w.unwind_eligible(i));
    }
}

/// Retrying after a failure: a job of an active pipeline that fails leaves its node failed, and
/// retrying that node makes it executable again.
pub proof fn law_fail_then_retry(v: EngineView, j: int, error: Seq<char>)
    requires
        v.wf(),
        0 <= j < v.job_nodes.len(),
        v.pipeline_states[v.pipeline_of(v.job_nodes[j] as int)] == PipelineStatus::Active,
    ensures
        ({
            let i = v.job_nodes[j] as int;
            let w = v.failed(j, error);
            &&& w.node_states[i] == NodeStatus::Failed
            &&& EngineView::retry_target(w.node_states[i]) == Some(NodeStatus::Executable)
            &&& w.retried(i, NodeStatus::Executable).node_states[i] == NodeStatus::Executable
        }),
{
}

/// A success moves forward only the successors that are now ready: each node it makes
/// executable has every predecessor finished or cancelled.
pub proof fn law_succeed_promotes_only_ready(v: EngineView, j: int)
    requires
        v.wf(),
        v.nodes.len() <= usize::MAX,
        0 <= j < v.job_nodes.len(),
    ensures
        forall|k: int|
            0 <= k < v.nodes.len() && k != v.job_nodes[j] && v.node_states[k] != NodeStatus::Executable
                && #[trigger] v.succeeded(j).node_states[k] == NodeStatus::Executable ==> v.succeeded(j).preds_done(k),
{
    let i = v.job_nodes[j] as int;
    let p = v.pipeline_of(i);
    let unwinding = v.pipeline_states[p] == PipelineStatus::Unwinding;
    let target = if unwinding { NodeStatus::Unwound } else { NodeStatus::Finished };
    let s1 = EngineView {
        job_states: v.job_states.update(j, JobStatus::Succeeded),
        node_states: v.node_states.update(i, target),
        events: v.events.push(NodeEvent { node_id: i as usize, to_state: target, reason: TransitionReason::Succeed(j as usize) }),
        ..v
    };
    let sel = Seq::new(s1.nodes.len(), |k: int| s1.promote_after_selects(i, k));
    let s2 = s1.move_nodes(sel, NodeStatus::Executable, TransitionReason::Promote);
    let w = v.succeeded(j);
    assert(w.node_states == s2.node_states || unwinding);
    assert forall|k: int|
        0 <= k < v.nodes.len() && k != i && v.node_states[k] != NodeStatus::Executable
            && #[trigger] w.node_states[k] == NodeStatus::Executable implies w.preds_done(k) by {
        if unwinding {
            assert(w.node_states[k] == v.node_states[k]);
        } else {
            assert(w.node_states[k] == s2.node_states[k]);
            assert(sel[k]);
            assert(s1.preds_done(k));
            assert forall|e: int| 0 <= e < w.edges.len() && #[trigger] w.edges[e].1 == k implies done_forward(
                w.node_states[w.edges[e].0 as int],
            ) by {
                let a = w.edges[e].0 as int;
                assert(done_forward(s1.node_states[a]));
                assert(!sel[a]);
                assert(s2.node_states[a] == s1.node_states[a]);
            }
        }
    }
}

/// A success finishes a pipeline only once every node of the pipeline is finished or cancelled.
pub proof fn law_pipeline_finishes_when_all_done(v: EngineView, j: int)
    requires
        v.wf(),
        0 <= j < v.job_nodes.len(),
        v.pipeline_states[v.pipeline_of(v.job_nodes[j] as int)] != PipelineStatus::Finished,
    ensures
        ({
            let p = v.pipeline_of(v.job_nodes[j] as int);
            v.succeeded(j).pipeline_states[p] == PipelineStatus::Finished ==> v.succeeded(j).pipeline_all_done(p)
        }),
{
}

/// Sealing is idempotent: sealing a pipeline a second time changes nothing and logs nothing.
pub proof fn law_seal_idempotent(v: EngineView, p: int)
    requires
        v.wf(),
        v.nodes.len() <= usize::MAX,
    ensures
        v.sealed(p).sealed(p) == v.sealed(p),
{
    let w = v.sealed(p);
    let sel = Seq::new(w.nodes.len(), |i: int| w.seal_selects(p, i));
    let sel0 = Seq::new(v.nodes.len(), |i: int| v.seal_selects(p, i));
    assert forall|i: int| 0 <= i < sel.len() implies !sel[i] by {
        assert(w.node_states[i] == (if sel0[i] { NodeStatus::Executable } else { v.node_states[i] }));
        assert(w.seal_selects(p, i) == sel[i]);
        if w.nodes[i].pipeline == p && w.is_root(i) {
            assert(w.edges == v.edges);
            assert(v.is_root(i));
            if sel0[i] {
                assert(w.node_states[i] == NodeStatus::Executable);
            } else {
                assert(w.node_states[i] == v.node_states[i]);
            }
        }
    }
    lemma_true_indices_none(sel);
    assert(set_where(w.node_states, sel, NodeStatus::Executable) =~= w.node_states);
    assert(log_for(sel, NodeStatus::Executable, TransitionReason::Seal) =~= Seq::<NodeEvent>::empty());
    assert(w.events + Seq::<NodeEvent>::empty() =~= w.events);
}

/// A job that has just sent a heartbeat is not stale at that moment, so a tick at the same time
/// does not release its node.
pub proof fn law_heartbeat_keeps_job(v: EngineView, j: int, now: u64)
    requires
        v.wf(),
        0 <= j < v.job_nodes.len(),
    ensures
        !(EngineView { heartbeats: v.heartbeats.update(j, now), ..v }).job_stale(j, now),
{
}

// ----- every node in progress has a running job -----

/// Job `j` is running for node `i`.
pub open spec fn running_job_of(v: EngineView, i: int, j: int) -> bool {
    &&& 0 <= j < v.job_nodes.len()
    &&& v.job_nodes[j] == i
    &&& v.job_states[j] == JobStatus::Running
}

/// Node `i` has a running job.
pub open spec fn has_running_job(v: EngineView, i: int) -> bool {
    exists|j: int| #[trigger] running_job_of(v, i, j)
}

/// Every node in progress has a running job.
pub open spec fn in_progress_has_job(v: EngineView) -> bool {
    forall|i: int| 0 <= i < v.nodes.len() && #[trigger] v.node_states[i] == NodeStatus::InProgress ==> has_running_job(v, i)
}

/// Moving nodes anywhere but into progress keeps every node in progress with its running job.
proof fn lemma_move_keeps_jobs(v: EngineView, sel: Seq<bool>, to: NodeStatus, reason: TransitionReason)
    requires
        v.node_states.len() == v.nodes.len(),
        sel.len() == v.nodes.len(),
        in_progress_has_job(v),
        to != NodeStatus::InProgress,
    ensures
        in_progress_has_job(v.move_nodes(sel, to, reason)),
{
    let w = v.move_nodes(sel, to, reason);
    assert forall|i: int| 0 <= i < w.nodes.len() && #[trigger] w.node_states[i] == NodeStatus::InProgress implies has_running_job(w, i) by {
        assert(!sel[i]);
        assert(v.node_states[i] == NodeStatus::InProgress);
        let j = choose|j: int| #[trigger] running_job_of(v, i, j);
        assert(running_job_of(w, i, j));
    }
}

/// Only the node states, pipeline states and the log differ between `v` and `w`, and every node
/// in progress in `w` already was in `v`.
proof fn lemma_same_jobs(v: EngineView, w: EngineView)
    requires
        in_progress_has_job(v),
        w.nodes.len() == v.nodes.len(),
        w.job_nodes == v.job_nodes,
        w.job_states == v.job_states,
        forall|i: int| 0 <= i < w.nodes.len() && #[trigger] w.node_states[i] == NodeStatus::InProgress ==> v.node_states[i]
            == NodeStatus::InProgress,
    ensures
        in_progress_has_job(w),
{
    assert forall|i: int| 0 <= i < w.nodes.len() && #[trigger] w.node_states[i] == NodeStatus::InProgress implies has_running_job(w, i) by {
        assert(v.node_states[i] == NodeStatus::InProgress);
        let j = choose|j: int| #[trigger] running_job_of(v, i, j);
        assert(running_job_of(w, i, j));
    }
}

proof fn lemma_released_keeps_jobs(v: EngineView, now: u64, err: Seq<char>)
    requires
        v.wf(),
        in_progress_has_job(v),
    ensures
        in_progress_has_job(v.released(now, err)),
{
    let sel = Seq::new(v.nodes.len(), |i: int| v.release_selects(i, now));
    let stale = Seq::new(v.job_nodes.len(), |j: int| v.job_stale(j, now));
    let w = v.released(now, err);
    assert forall|i: int| 0 <= i < w.nodes.len() && #[trigger] w.node_states[i] == NodeStatus::InProgress implies has_running_job(w, i) by {
        assert(!sel[i]);
        assert(v.node_states[i] == NodeStatus::InProgress);
        let j = choose|j: int| #[trigger] running_job_of(v, i, j);
        if v.job_stale(j, now) {
            assert(v.release_selects(i, now));
        }
        assert(!stale[j]);
        assert(running_job_of(w, i, j));
    }
}

proof fn lemma_finish_keeps_jobs(v: EngineView, j: int, js: JobStatus, ns: NodeStatus, w: EngineView)
    requires
        v.wf(),
        in_progress_has_job(v),
        0 <= j < v.job_nodes.len(),
        ns != NodeStatus::InProgress,
        w.nodes.len() == v.nodes.len(),
        w.job_nodes == v.job_nodes,
        w.job_states == v.job_states.update(j, js),
        forall|i: int| 0 <= i < w.nodes.len() && #[trigger] w.node_states[i] == NodeStatus::InProgress ==> i != v.job_nodes[j]
            && v.node_states[i] == NodeStatus::InProgress,
    ensures
        in_progress_has_job(w),
{
    assert forall|i: int| 0 <= i < w.nodes.len() && #[trigger] w.node_states[i] == NodeStatus::InProgress implies has_running_job(w, i) by {
        assert(v.node_states[i] == NodeStatus::InProgress);
        let k = choose|k: int| #[trigger] running_job_of(v, i, k);
        assert(k != j);
        assert(running_job_of(w, i, k));
    }
}

proof fn lemma_claims_keep_jobs(v: EngineView, now: u64)
    requires
        v.node_states.len() == v.nodes.len(),
        v.job_states.len() == v.job_nodes.len(),
        v.nodes.len() <= usize::MAX,
        in_progress_has_job(v),
    ensures
        ({
            let (f, u) = v.tick_claims();
            let w = v.move_nodes(Seq::new(v.nodes.len(), |i: int| v.is_runnable(i)), NodeStatus::InProgress, TransitionReason::Claim)
                .move_nodes(v.unwind_eligible_flags(), NodeStatus::InProgress, TransitionReason::ClaimUnwind);
            in_progress_has_job(w.with_jobs(f + u, now))
        }),
{
    let run = Seq::new(v.nodes.len(), |i: int| v.is_runnable(i));
    let unw = v.unwind_eligible_flags();
    let (f, u) = v.tick_claims();
    let w = v.move_nodes(run, NodeStatus::InProgress, TransitionReason::Claim).move_nodes(unw, NodeStatus::InProgress, TransitionReason::ClaimUnwind);
    let x = w.with_jobs(f + u, now);
    let n0 = v.job_nodes.len();
    assert forall|i: int| 0 <= i < x.nodes.len() && #[trigger] x.node_states[i] == NodeStatus::InProgress implies has_running_job(x, i) by {
        if run[i] {
            lemma_true_indices_contains(run, i);
            let k = choose|k: int| 0 <= k < f.len() && f[k] == i as usize;
            assert(x.job_nodes[n0 + k] == (f + u)[k]);
            assert(running_job_of(x, i, n0 + k));
        } else if unw[i] {
            lemma_true_indices_contains(unw, i);
            let k = choose|k: int| 0 <= k < u.len() && u[k] == i as usize;
            assert(x.job_nodes[n0 + f.len() + k] == (f + u)[f.len() + k]);
            assert(running_job_of(x, i, n0 + f.len() + k));
        } else {
            assert(v.node_states[i] == NodeStatus::InProgress);
            let j = choose|j: int| #[trigger] running_job_of(v, i, j);
            assert(x.job_nodes[j] == v.job_nodes[j]);
            assert(x.job_states[j] == v.job_states[j]);
            assert(running_job_of(x, i, j));
        }
    }
}

/// A node in progress always has a running job: adding a node or an edge, sealing, ticking,
/// cancelling, retrying, a heartbeat, and a running job's success or failure each keep it so.
pub proof fn law_in_progress_has_running_job(
    v: EngineView,
    p: int,
    i: int,
    j: int,
    info: NodeInfoView,
    edge: (usize, usize),
    now: u64,
    err: Seq<char>,
)
    requires
        v.wf(),
        v.nodes.len() < usize::MAX,
        in_progress_has_job(v),
    ensures
        in_progress_has_job(EngineView { nodes: v.nodes.push(info), node_states: v.node_states.push(NodeStatus::Pending), ..v }),
        in_progress_has_job(EngineView { edges: v.edges.push(edge), ..v }),
        in_progress_has_job(EngineView { heartbeats: v.heartbeats.update(j, now), ..v }),
        in_progress_has_job(v.sealed(p)),
        in_progress_has_job(v.ticked(now, err)),
        0 <= p < v.pipelines.len() ==> in_progress_has_job(v.cancelled(p)),
        0 <= i < v.nodes.len() && EngineView::retry_target(v.node_states[i]) is Some ==> in_progress_has_job(
            v.retried(i, EngineView::retry_target(v.node_states[i])->0),
        ),
        0 <= j < v.job_nodes.len() && v.job_states[j] == JobStatus::Running ==> in_progress_has_job(v.succeeded(j))
            && in_progress_has_job(v.failed(j, err)),
{
    // adding a node
    let added = EngineView { nodes: v.nodes.push(info), node_states: v.node_states.push(NodeStatus::Pending), ..v };
    assert forall|k: int| 0 <= k < added.nodes.len() && #[trigger] added.node_states[k] == NodeStatus::InProgress implies has_running_job(
        added,
        k,
    ) by {
        assert(k < v.nodes.len());
        assert(v.node_states[k] == NodeStatus::InProgress);
        let jj = choose|jj: int| #[trigger] running_job_of(v, k, jj);
        assert(running_job_of(added, k, jj));
    }
    lemma_same_jobs(v, EngineView { edges: v.edges.push(edge), ..v });
    lemma_same_jobs(v, EngineView { heartbeats: v.heartbeats.update(j, now), ..v });
    // sealing
    lemma_move_keeps_jobs(v, Seq::new(v.nodes.len(), |k: int| v.seal_selects(p, k)), NodeStatus::Executable, TransitionReason::Seal);
    // ticking
    lemma_released_keeps_jobs(v, now, err);
    let v1 = v.released(now, err);
    let s1 = Seq::new(v1.nodes.len(), |k: int| v1.promote_selects(k));
    lemma_move_keeps_jobs(v1, s1, NodeStatus::Executable, TransitionReason::Promote);
    let v2 = v1.promoted();
    let s2 = Seq::new(v2.nodes.len(), |k: int| v2.scope_cancel_selects(k));
    lemma_move_keeps_jobs(v2, s2, NodeStatus::Cancelled, TransitionReason::UnwindScopeCancel);
    let v3 = v2.unwind_triggered();
    lemma_same_jobs(v2.move_nodes(s2, NodeStatus::Cancelled, TransitionReason::UnwindScopeCancel), v3);
    let v4 = v3.unwinding_completed();
    lemma_same_jobs(v3, v4);
    assert(v4 == v.tick_prepared(now, err));
    lemma_claims_keep_jobs(v4, now);
    // cancelling
    if 0 <= p < v.pipelines.len() {
        let sc = Seq::new(v.nodes.len(), |k: int| v.cancel_selects(p, k));
        lemma_move_keeps_jobs(v, sc, NodeStatus::Cancelled, TransitionReason::Cancel);
        lemma_same_jobs(v.move_nodes(sc, NodeStatus::Cancelled, TransitionReason::Cancel), v.cancelled(p));
    }
    // retrying
    if 0 <= i < v.nodes.len() && EngineView::retry_target(v.node_states[i]) is Some {
        let w = v.retried(i, EngineView::retry_target(v.node_states[i])->0);
        lemma_same_jobs(v, w);
    }
    // a running job's outcome
    if 0 <= j < v.job_nodes.len() && v.job_states[j] == JobStatus::Running {
        let n = v.job_nodes[j] as int;
        let q = v.pipeline_of(n);
        let unwinding = v.pipeline_states[q] == PipelineStatus::Unwinding;
        let target = if unwinding { NodeStatus::Unwound } else { NodeStatus::Finished };
        let t1 = EngineView {
            job_states: v.job_states.update(j, JobStatus::Succeeded),
            node_states: v.node_states.update(n, target),
            events: v.events.push(NodeEvent { node_id: n as usize, to_state: target, reason: TransitionReason::Succeed(j as usize) }),
            ..v
        };
        lemma_finish_keeps_jobs(v, j, JobStatus::Succeeded, target, t1);
        if !unwinding {
            let sp = Seq::new(t1.nodes.len(), |k: int| t1.promote_after_selects(n, k));
            lemma_move_keeps_jobs(t1, sp, NodeStatus::Executable, TransitionReason::Promote);
            let t2 = t1.move_nodes(sp, NodeStatus::Executable, TransitionReason::Promote);
            lemma_same_jobs(t2, v.succeeded(j));
        }
        lemma_finish_keeps_jobs(
            v,
            j,
            JobStatus::Failed,
            if unwinding { NodeStatus::UnwindFailed } else { NodeStatus::Failed },
            v.failed(j, err),
        );
    }
}

// ----- a finished pipeline stays done -----

/// Every node of a finished pipeline is finished or cancelled.
pub open spec fn finished_pipelines_done(v: EngineView) -> bool {
    forall|i: int|
        0 <= i < v.nodes.len() && #[trigger] v.pipeline_states[v.pipeline_of(i)] == PipelineStatus::Finished ==> done_forward(
            v.node_states[i],
        )
}

/// Moving nodes that lie outside finished pipelines keeps every finished pipeline done.
proof fn lemma_move_keeps_done(v: EngineView, sel: Seq<bool>, to: NodeStatus, reason: TransitionReason)
    requires
        v.node_states.len() == v.nodes.len(),
        sel.len() == v.nodes.len(),
        finished_pipelines_done(v),
        forall|i: int| 0 <= i < sel.len() && #[trigger] sel[i] ==> v.pipeline_states[v.pipeline_of(i)] != PipelineStatus::Finished,
    ensures
        finished_pipelines_done(v.move_nodes(sel, to, reason)),
{
    let w = v.move_nodes(sel, to, reason);
    assert forall|i: int|
        0 <= i < w.nodes.len() && #[trigger] w.pipeline_states[w.pipeline_of(i)] == PipelineStatus::Finished implies done_forward(
        w.node_states[i],
    ) by {
        assert(!sel[i]);
        assert(v.pipeline_states[v.pipeline_of(i)] == PipelineStatus::Finished);
    }
}

/// Two states with the same nodes, node states and pipeline states.
proof fn lemma_same_states_done(a: EngineView, b: EngineView)
    requires
        finished_pipelines_done(a),
        b.nodes == a.nodes,
        b.node_states == a.node_states,
        b.pipeline_states == a.pipeline_states,
    ensures
        finished_pipelines_done(b),
{
    assert forall|i: int|
        0 <= i < b.nodes.len() && #[trigger] b.pipeline_states[b.pipeline_of(i)] == PipelineStatus::Finished implies done_forward(
        b.node_states[i],
    ) by {
        assert(a.pipeline_states[a.pipeline_of(i)] == PipelineStatus::Finished);
    }
}

/// A node in the unwind scope belongs to an unwinding pipeline.
proof fn lemma_unwind_scope_unwinding(v: EngineView, k: nat, i: int)
    requires
        forall|e: int| 0 <= e < v.edges.len() ==> (#[trigger] v.edges[e]).1 < v.nodes.len(),
        0 <= i < v.nodes.len(),
        v.unwind_scope_k(k)[i],
    ensures
        v.pipeline_states[v.pipeline_of(i)] == PipelineStatus::Unwinding,
    decreases k,
{
    if k == 0 {
        assert(v.unwind_base()[i]);
    } else {
        let prev = v.unwind_scope_k((k - 1) as nat);
        if prev[i] {
            lemma_unwind_scope_unwinding(v, (k - 1) as nat, i);
        } else {
            assert(v.unwind_adds(prev, i));
            let e = choose|e: int|
                0 <= e < v.edges.len() && #[trigger] v.edges[e].0 == i && prev[v.edges[e].1 as int] && !v.nodes[i].boundary
                    && v.nodes[i].pipeline == v.nodes[v.edges[e].1 as int].pipeline && !v.superseded(i);
            let t = v.edges[e].1 as int;
            lemma_unwind_scope_unwinding(v, (k - 1) as nat, t);
        }
    }
}

/// Pipeline states change only from active to unwinding or from unwinding to unwound, and
/// nodes of finished pipelines keep their states: every finished pipeline stays done.
proof fn lemma_pipelines_move_on(v: EngineView, w: EngineView)
    requires
        finished_pipelines_done(v),
        w.nodes == v.nodes,
        w.node_states == v.node_states,
        w.pipeline_states.len() == v.pipeline_states.len(),
        forall|p: int|
            0 <= p < w.pipeline_states.len() && #[trigger] w.pipeline_states[p] == PipelineStatus::Finished ==> v.pipeline_states[p]
                == PipelineStatus::Finished,
        forall|i: int| 0 <= i < v.nodes.len() ==> 0 <= #[trigger] v.pipeline_of(i) < v.pipeline_states.len(),
    ensures
        finished_pipelines_done(w),
{
    assert forall|i: int|
        0 <= i < w.nodes.len() && #[trigger] w.pipeline_states[w.pipeline_of(i)] == PipelineStatus::Finished implies done_forward(
        w.node_states[i],
    ) by {
        assert(0 <= v.pipeline_of(i) < v.pipeline_states.len());
        assert(v.pipeline_states[v.pipeline_of(i)] == PipelineStatus::Finished);
    }
}

/// A finished pipeline stays done: every node of a finished pipeline is finished or cancelled,
/// and adding a node to a pipeline that is not finished, adding an edge, sealing, ticking,
/// cancelling, retrying, a heartbeat, and the success or failure of a job whose node is in
/// progress each keep it so.
pub proof fn law_finished_pipeline_stays_done(
    v: EngineView,
    p: int,
    i: int,
    j: int,
    info: NodeInfoView,
    edge: (usize, usize),
    now: u64,
    err: Seq<char>,
)
    requires
        v.wf(),
        v.nodes.len() < usize::MAX,
        finished_pipelines_done(v),
    ensures
        0 <= info.pipeline < v.pipelines.len() && v.pipeline_states[info.pipeline as int] != PipelineStatus::Finished
            ==> finished_pipelines_done(
            EngineView { nodes: v.nodes.push(info), node_states: v.node_states.push(NodeStatus::Pending), ..v },
        ),
        finished_pipelines_done(EngineView { edges: v.edges.push(edge), ..v }),
        finished_pipelines_done(EngineView { heartbeats: v.heartbeats.update(j, now), ..v }),
        finished_pipelines_done(v.sealed(p)),
        finished_pipelines_done(v.ticked(now, err)),
        0 <= p < v.pipelines.len() ==> finished_pipelines_done(v.cancelled(p)),
        0 <= i < v.nodes.len() && EngineView::retry_target(v.node_states[i]) is Some ==> finished_pipelines_done(
            v.retried(i, EngineView::retry_target(v.node_states[i])->0),
        ),
        0 <= j < v.job_nodes.len() && v.job_states[j] == JobStatus::Running && v.completable(j) ==> finished_pipelines_done(
            v.succeeded(j),
        ) && finished_pipelines_done(v.failed(j, err)),
{
    // adding a node
    let added = EngineView { nodes: v.nodes.push(info), node_states: v.node_states.push(NodeStatus::Pending), ..v };
    if 0 <= info.pipeline < v.pipelines.len() && v.pipeline_states[info.pipeline as int] != PipelineStatus::Finished {
        assert forall|k: int|
            0 <= k < added.nodes.len() && #[trigger] added.pipeline_states[added.pipeline_of(k)] == PipelineStatus::Finished implies done_forward(
            added.node_states[k],
        ) by {
            if k < v.nodes.len() {
                assert(added.nodes[k] == v.nodes[k]);
                assert(v.pipeline_states[v.pipeline_of(k)] == PipelineStatus::Finished);
            } else {
                assert(added.nodes[k] == info);
            }
        }
    }
    // sealing
    let ss = Seq::new(v.nodes.len(), |k: int| v.seal_selects(p, k));
    lemma_move_keeps_done(v, ss, NodeStatus::Executable, TransitionReason::Seal);
    // ticking
    let v1 = v.released(now, err);
    let rs = Seq::new(v.nodes.len(), |k: int| v.release_selects(k, now));
    lemma_move_keeps_done(v, rs, NodeStatus::Executable, TransitionReason::ReleaseStale);
    lemma_same_states_done(v.move_nodes(rs, NodeStatus::Executable, TransitionReason::ReleaseStale), v1);
    crate::pipeline_engine::engine::lemma_release_wf(v, now, err);
    let ps = Seq::new(v1.nodes.len(), |k: int| v1.promote_selects(k));
    lemma_move_keeps_done(v1, ps, NodeStatus::Executable, TransitionReason::Promote);
    let v2 = v1.promoted();
    let cs = Seq::new(v2.nodes.len(), |k: int| v2.scope_cancel_selects(k));
    lemma_move_keeps_done(v2, cs, NodeStatus::Cancelled, TransitionReason::UnwindScopeCancel);
    let m2 = v2.move_nodes(cs, NodeStatus::Cancelled, TransitionReason::UnwindScopeCancel);
    let v3 = v2.unwind_triggered();
    assert(forall|k: int| 0 <= k < v.nodes.len() ==> 0 <= #[trigger] v.pipeline_of(k) < v.pipeline_states.len());
    lemma_pipelines_move_on(m2, v3);
    let v4 = v3.unwinding_completed();
    lemma_pipelines_move_on(v3, v4);
    assert(v4 == v.tick_prepared(now, err));
    let run = Seq::new(v4.nodes.len(), |k: int| v4.is_runnable(k));
    let unw = v4.unwind_eligible_flags();
    lemma_move_keeps_done(v4, run, NodeStatus::InProgress, TransitionReason::Claim);
    let w1 = v4.move_nodes(run, NodeStatus::InProgress, TransitionReason::Claim);
    assert(v4.edges == v.edges && v4.nodes == v.nodes);
    assert forall|k: int| 0 <= k < unw.len() && #[trigger] unw[k] implies w1.pipeline_states[w1.pipeline_of(k)]
        != PipelineStatus::Finished by {
        assert(v4.unwind_eligible(k));
        lemma_unwind_scope_unwinding(v4, v4.nodes.len(), k);
    }
    lemma_move_keeps_done(w1, unw, NodeStatus::InProgress, TransitionReason::ClaimUnwind);
    let w2 = w1.move_nodes(unw, NodeStatus::InProgress, TransitionReason::ClaimUnwind);
    let (f, u) = v4.tick_claims();
    let x = w2.with_jobs(f + u, now);
    assert(x == v.ticked(now, err));
    assert forall|k: int|
        0 <= k < x.nodes.len() && #[trigger] x.pipeline_states[x.pipeline_of(k)] == PipelineStatus::Finished implies done_forward(
        x.node_states[k],
    ) by {
        assert(w2.pipeline_states[w2.pipeline_of(k)] == PipelineStatus::Finished);
    }
    // cancelling
    if 0 <= p < v.pipelines.len() {
        let c = v.cancelled(p);
        assert forall|k: int|
            0 <= k < c.nodes.len() && #[trigger] c.pipeline_states[c.pipeline_of(k)] == PipelineStatus::Finished implies done_forward(
            c.node_states[k],
        ) by {
            assert(c.pipeline_of(k) != p);
            assert(!v.cancel_selects(p, k));
            assert(v.pipeline_states[v.pipeline_of(k)] == PipelineStatus::Finished);
        }
    }
    // retrying
    if 0 <= i < v.nodes.len() && EngineView::retry_target(v.node_states[i]) is Some {
        let r = v.retried(i, EngineView::retry_target(v.node_states[i])->0);
        assert(!done_forward(v.node_states[i]));
        assert(v.pipeline_states[v.pipeline_of(i)] != PipelineStatus::Finished);
        assert forall|k: int|
            0 <= k < r.nodes.len() && #[trigger] r.pipeline_states[r.pipeline_of(k)] == PipelineStatus::Finished implies done_forward(
            r.node_states[k],
        ) by {
            assert(v.pipeline_states[v.pipeline_of(k)] == PipelineStatus::Finished);
            assert(k != i);
        }
    }
    // a job's outcome
    if 0 <= j < v.job_nodes.len() && v.job_states[j] == JobStatus::Running && v.completable(j) {
        let n = v.job_nodes[j] as int;
        let q = v.pipeline_of(n);
        assert(v.node_states[n] == NodeStatus::InProgress);
        assert(v.pipeline_states[q] != PipelineStatus::Finished);
        let unwinding = v.pipeline_states[q] == PipelineStatus::Unwinding;
        let target = if unwinding { NodeStatus::Unwound } else { NodeStatus::Finished };
        let t1 = EngineView {
            job_states: v.job_states.update(j, JobStatus::Succeeded),
            node_states: v.node_states.update(n, target),
            events: v.events.push(NodeEvent { node_id: n as usize, to_state: target, reason: TransitionReason::Succeed(j as usize) }),
            ..v
        };
        assert forall|k: int|
            0 <= k < t1.nodes.len() && #[trigger] t1.pipeline_states[t1.pipeline_of(k)] == PipelineStatus::Finished implies done_forward(
            t1.node_states[k],
        ) by {
            assert(v.pipeline_states[v.pipeline_of(k)] == PipelineStatus::Finished);
            assert(k != n);
        }
        let sp = Seq::new(t1.nodes.len(), |k: int| t1.promote_after_selects(n, k));
        assert forall|k: int| 0 <= k < sp.len() && #[trigger] sp[k] implies t1.pipeline_states[t1.pipeline_of(k)]
            != PipelineStatus::Finished by {
            assert(t1.node_states[k] == NodeStatus::Pending);
        }
        lemma_move_keeps_done(t1, sp, NodeStatus::Executable, TransitionReason::Promote);
        let t2 = t1.move_nodes(sp, NodeStatus::Executable, TransitionReason::Promote);
        let sc = v.succeeded(j);
        if !unwinding {
            assert forall|k: int|
                0 <= k < sc.nodes.len() && #[trigger] sc.pipeline_states[sc.pipeline_of(k)] == PipelineStatus::Finished implies done_forward(
                sc.node_states[k],
            ) by {
                if sc.pipeline_of(k) == q && t2.pipeline_all_done(q) {
                    assert(t2.nodes[k].pipeline == q);
                } else {
                    assert(t2.pipeline_states[t2.pipeline_of(k)] == PipelineStatus::Finished);
                }
            }
        }
        let fl = v.failed(j, err);
        assert forall|k: int|
            0 <= k < fl.nodes.len() && #[trigger] fl.pipeline_states[fl.pipeline_of(k)] == PipelineStatus::Finished implies done_forward(
            fl.node_states[k],
        ) by {
            assert(v.pipeline_states[v.pipeline_of(k)] == PipelineStatus::Finished);
            assert(k != n);
        }
    }
    // adding an edge, a heartbeat
    lemma_same_states_done(v, EngineView { edges: v.edges.push(edge), ..v });
    lemma_same_states_done(v, EngineView { heartbeats: v.heartbeats.update(j, now), ..v });
}

// ----- what an unwind restores, and which nodes it rolls back -----

/// Node `m` finished work, in an older revision than `i`, on the resource that `i` mutates.
pub open spec fn restores_from(v: EngineView, i: int, m: int) -> bool {
    &&& 0 <= m < v.nodes.len()
    &&& v.same_key(m, i)
    &&& v.node_states[m] == NodeStatus::Finished
    &&& v.revision_of(m) < v.revision_of(i)
}

proof fn lemma_restore_below(v: EngineView, i: int, k: nat)
    requires
        k <= v.nodes.len(),
        forall|m: int| 0 <= m < v.nodes.len() ==> 0 <= #[trigger] v.revision_of(m) <= usize::MAX,
    ensures
        v.restore_below(i, k) is None <==> !exists|m: int| 0 <= m < k && #[trigger] restores_from(v, i, m),
        v.restore_below(i, k) matches Some(r) ==> (exists|m: int| 0 <= m < k && #[trigger] restores_from(v, i, m) && r
            == v.revision_of(m)) && forall|m: int| 0 <= m < k && #[trigger] restores_from(v, i, m) ==> v.revision_of(m) <= r,
    decreases k,
{
    if k > 0 {
        let k1 = (k - 1) as nat;
        lemma_restore_below(v, i, k1);
        let m0 = k - 1;
        assert forall|m: int| 0 <= m < k && #[trigger] restores_from(v, i, m) implies m < k1 || m == m0 by {}
        if restores_from(v, i, m0) {
            assert(0 <= v.revision_of(m0) <= usize::MAX);
        }
    }
}

/// An unwind restores the newest older revision that finished work on the node's resource:
/// `None` exactly when no node of an older revision finished work on it (always so for a node
/// that mutates no resource), and otherwise the revision of such a node, newer than every
/// other.
pub proof fn law_restore_revision_is_newest_older(v: EngineView, i: int)
    requires
        v.wf(),
        0 <= i < v.nodes.len(),
    ensures
        v.restore_revision(i) is None <==> !exists|m: int| #[trigger] restores_from(v, i, m),
        v.nodes[i].key is None ==> v.restore_revision(i) is None,
        v.restore_revision(i) matches Some(r) ==> (exists|m: int| #[trigger] restores_from(v, i, m) && r == v.revision_of(m))
            && forall|m: int| #[trigger] restores_from(v, i, m) ==> v.revision_of(m) <= r,
{
    assert forall|m: int| 0 <= m < v.nodes.len() implies 0 <= #[trigger] v.revision_of(m) <= usize::MAX by {
        assert(v.nodes[m].pipeline < v.pipelines.len());
    }
    lemma_restore_below(v, i, v.nodes.len());
}

proof fn lemma_unwind_scope_bounds(v: EngineView, k: nat, i: int)
    requires
        forall|e: int| 0 <= e < v.edges.len() ==> (#[trigger] v.edges[e]).1 < v.nodes.len(),
        0 <= i < v.nodes.len(),
        v.unwind_scope_k(k)[i],
    ensures
        v.unwind_base()[i] || (!v.nodes[i].boundary && !v.superseded(i)),
    decreases k,
{
    if k > 0 {
        let prev = v.unwind_scope_k((k - 1) as nat);
        if prev[i] {
            lemma_unwind_scope_bounds(v, (k - 1) as nat, i);
        } else {
            assert(v.unwind_adds(prev, i));
        }
    } else {
        assert(v.unwind_base()[i]);
    }
}

/// Unwinding stays where it belongs: every node a tick dispatches to unwind belongs to an
/// unwinding pipeline and is either where that pipeline's unwinding starts (it did work and no
/// successor did) or a predecessor that is no unwind boundary and that no newer revision has
/// superseded by finishing work on its resource.
pub proof fn law_unwind_claims_stay_in_scope(v: EngineView, now: u64, stale_error: Seq<char>)
    requires
        v.wf(),
        v.nodes.len() <= usize::MAX,
    ensures
        ({
            let w = v.tick_prepared(now, stale_error);
            forall|k: int|
                0 <= k < w.tick_claims().1.len() ==> {
                    let i = #[trigger] w.tick_claims().1[k] as int;
                    &&& w.pipeline_states[w.pipeline_of(i)] == PipelineStatus::Unwinding
                    &&& w.unwind_frontier(i) || (!w.nodes[i].boundary && !w.superseded(i))
                }
        }),
{
    let w = v.tick_prepared(now, stale_error);
    let sel = w.unwind_eligible_flags();
    assert(w.edges == v.edges && w.nodes == v.nodes);
    lemma_true_indices_bounds(sel);
    assert forall|k: int| 0 <= k < w.tick_claims().1.len() implies {
        let i = #[trigger] w.tick_claims().1[k] as int;
        &&& w.pipeline_states[w.pipeline_of(i)] == PipelineStatus::Unwinding
        &&& w.unwind_frontier(i) || (!w.nodes[i].boundary && !w.superseded(i))
    } by {
        let i = w.tick_claims().1[k] as int;
        assert(sel[i]);
        assert(w.unwind_eligible(i));
        lemma_unwind_scope_unwinding(w, w.nodes.len(), i);
        lemma_unwind_scope_bounds(w, w.nodes.len(), i);
    }
}

// ----- nodes of active pipelines wait for their predecessors -----

/// The node was let run forward: executable, in progress, finished or failed.
pub open spec fn forward_started(s: NodeStatus) -> bool {
    s == NodeStatus::Executable || s == NodeStatus::InProgress || s == NodeStatus::Finished || s == NodeStatus::Failed
}

/// The node was rolled back, or its rollback failed.
pub open spec fn rolled_back(s: NodeStatus) -> bool {
    s == NodeStatus::Unwound || s == NodeStatus::UnwindFailed
}

/// In an active pipeline, every node that was let run forward has all its predecessors
/// finished or cancelled, and no node was rolled back.
pub open spec fn active_nodes_ready(v: EngineView) -> bool {
    forall|i: int|
        0 <= i < v.nodes.len() && #[trigger] v.pipeline_states[v.pipeline_of(i)] == PipelineStatus::Active ==> {
            &&& forward_started(v.node_states[i]) ==> v.preds_done(i)
            &&& !rolled_back(v.node_states[i])
        }
}

/// Node states line up with nodes, every node names a pipeline, and every edge joins two
/// nodes of one pipeline.
spec fn shaped(v: EngineView) -> bool {
    &&& v.node_states.len() == v.nodes.len()
    &&& forall|i: int| 0 <= i < v.nodes.len() ==> #[trigger] v.nodes[i].pipeline < v.pipeline_states.len()
    &&& forall|e: int| 0 <= e < v.edges.len() ==> {
        let (a, b) = #[trigger] v.edges[e];
        &&& a < v.nodes.len()
        &&& b < v.nodes.len()
        &&& v.nodes[a as int].pipeline == v.nodes[b as int].pipeline
    }
}

/// A step that keeps nodes and edges, makes no pipeline active, and, in the pipelines active
/// afterwards, takes no node out of finished or cancelled, lets a node run forward only when it
/// did before or its predecessors were done, and rolls back nothing.
proof fn lemma_step_keeps_ready(v: EngineView, w: EngineView)
    requires
        shaped(v),
        active_nodes_ready(v),
        w.nodes == v.nodes,
        w.edges == v.edges,
        w.node_states.len() == v.node_states.len(),
        w.pipeline_states.len() == v.pipeline_states.len(),
        forall|p: int|
            0 <= p < w.pipeline_states.len() && #[trigger] w.pipeline_states[p] == PipelineStatus::Active ==> v.pipeline_states[p]
                == PipelineStatus::Active,
        forall|i: int|
            0 <= i < v.nodes.len() && #[trigger] w.pipeline_states[w.pipeline_of(i)] == PipelineStatus::Active ==> {
                &&& done_forward(v.node_states[i]) ==> done_forward(w.node_states[i])
                &&& forward_started(w.node_states[i]) ==> forward_started(v.node_states[i]) || v.preds_done(i)
                &&& rolled_back(w.node_states[i]) ==> rolled_back(v.node_states[i])
            },
    ensures
        shaped(w),
        active_nodes_ready(w),
{
    assert forall|i: int|
        0 <= i < w.nodes.len() && #[trigger] w.pipeline_states[w.pipeline_of(i)] == PipelineStatus::Active implies {
        &&& forward_started(w.node_states[i]) ==> w.preds_done(i)
        &&& !rolled_back(w.node_states[i])
    } by {
        assert(w.nodes[i].pipeline < w.pipeline_states.len());
        assert(v.pipeline_states[v.pipeline_of(i)] == PipelineStatus::Active);
        if forward_started(w.node_states[i]) {
            assert(v.preds_done(i));
            assert forall|e: int| 0 <= e < w.edges.len() && #[trigger] w.edges[e].1 == i implies done_forward(
                w.node_states[w.edges[e].0 as int],
            ) by {
                let a = w.edges[e].0 as int;
                assert(v.edges[e] == w.edges[e]);
                assert(w.pipeline_of(a) == w.pipeline_of(i));
                assert(w.pipeline_states[w.pipeline_of(a)] == PipelineStatus::Active);
                assert(done_forward(v.node_states[a]));
            }
        }
    }
}

/// Moving the selected nodes keeps the rule when, in active pipelines, it moves only nodes that
/// are not finished or cancelled, lets a node run forward only when it did before or its
/// predecessors are done, and rolls back nothing.
proof fn lemma_move_keeps_ready(v: EngineView, sel: Seq<bool>, to: NodeStatus, reason: TransitionReason)
    requires
        shaped(v),
        active_nodes_ready(v),
        sel.len() == v.nodes.len(),
        !rolled_back(to),
        forall|i: int|
            0 <= i < sel.len() && #[trigger] sel[i] && v.pipeline_states[v.pipeline_of(i)] == PipelineStatus::Active ==> {
                &&& !done_forward(v.node_states[i])
                &&& forward_started(to) ==> forward_started(v.node_states[i]) || v.preds_done(i)
            },
    ensures
        shaped(v.move_nodes(sel, to, reason)),
        active_nodes_ready(v.move_nodes(sel, to, reason)),
{
    let w = v.move_nodes(sel, to, reason);
    assert forall|i: int|
        0 <= i < v.nodes.len() && #[trigger] w.pipeline_states[w.pipeline_of(i)] == PipelineStatus::Active implies {
        &&& done_forward(v.node_states[i]) ==> done_forward(w.node_states[i])
        &&& forward_started(w.node_states[i]) ==> forward_started(v.node_states[i]) || v.preds_done(i)
        &&& rolled_back(w.node_states[i]) ==> rolled_back(v.node_states[i])
    } by {
        if sel[i] {
            assert(w.node_states[i] == to);
        } else {
            assert(w.node_states[i] == v.node_states[i]);
        }
    }
    lemma_step_keeps_ready(v, w);
}

/// A well-formed engine has the shape the rule needs.
proof fn lemma_shaped(v: EngineView)
    requires
        v.wf(),
    ensures
        shaped(v),
{
    assert(shaped(v)) by {
        assert forall|e: int| 0 <= e < v.edges.len() implies {
            let (a, b) = #[trigger] v.edges[e];
            &&& a < v.nodes.len()
            &&& b < v.nodes.len()
            &&& v.nodes[a as int].pipeline == v.nodes[b as int].pipeline
        } by {
            let (a, b) = v.edges[e];
        }
    }
}

/// Releasing stale jobs and promoting ready nodes keep nodes of active pipelines waiting for
/// their predecessors.
proof fn lemma_prepare_keeps_ready(v: EngineView, now: u64, err: Seq<char>)
    requires
        v.wf(),
        v.nodes.len() < usize::MAX,
        active_nodes_ready(v),
    ensures
        shaped(v.released(now, err).promoted()),
        active_nodes_ready(v.released(now, err).promoted()),
{
    lemma_shaped(v);
    let v1 = v.released(now, err);
    let rs = Seq::new(v.nodes.len(), |k: int| v.release_selects(k, now));
    assert forall|k: int|
        0 <= k < v.nodes.len() && #[trigger] v1.pipeline_states[v1.pipeline_of(k)] == PipelineStatus::Active implies {
        &&& done_forward(v.node_states[k]) ==> done_forward(v1.node_states[k])
        &&& forward_started(v1.node_states[k]) ==> forward_started(v.node_states[k]) || v.preds_done(k)
        &&& rolled_back(v1.node_states[k]) ==> rolled_back(v.node_states[k])
    } by {
        if rs[k] {
            assert(v.node_states[k] == NodeStatus::InProgress);
        }
    }
    lemma_step_keeps_ready(v, v1);
    let ps = Seq::new(v1.nodes.len(), |k: int| v1.promote_selects(k));
    lemma_move_keeps_ready(v1, ps, NodeStatus::Executable, TransitionReason::Promote);
}

/// Ticking keeps nodes of active pipelines waiting for their predecessors.
proof fn lemma_tick_keeps_ready(v: EngineView, now: u64, err: Seq<char>)
    requires
        v.wf(),
        v.nodes.len() < usize::MAX,
        active_nodes_ready(v),
    ensures
        active_nodes_ready(v.ticked(now, err)),
{
    lemma_shaped(v);
    lemma_prepare_keeps_ready(v, now, err);
    let v2 = v.released(now, err).promoted();
    let v3 = v2.unwind_triggered();
    assert forall|k: int|
        0 <= k < v2.nodes.len() && #[trigger] v3.pipeline_states[v3.pipeline_of(k)] == PipelineStatus::Active implies {
        &&& done_forward(v2.node_states[k]) ==> done_forward(v3.node_states[k])
        &&& forward_started(v3.node_states[k]) ==> forward_started(v2.node_states[k]) || v2.preds_done(k)
        &&& rolled_back(v3.node_states[k]) ==> rolled_back(v2.node_states[k])
    } by {
        assert(v2.nodes[k].pipeline < v2.pipeline_states.len());
        assert(!v2.triggers_unwind(v2.pipeline_of(k)));
        assert(!v2.scope_cancel_selects(k));
    }
    lemma_step_keeps_ready(v2, v3);
    let v4 = v3.unwinding_completed();
    lemma_step_keeps_ready(v3, v4);
    assert(v4 == v.tick_prepared(now, err));
    let run = Seq::new(v4.nodes.len(), |k: int| v4.is_runnable(k));
    lemma_move_keeps_ready(v4, run, NodeStatus::InProgress, TransitionReason::Claim);
    let w1 = v4.move_nodes(run, NodeStatus::InProgress, TransitionReason::Claim);
    let unw = v4.unwind_eligible_flags();
    assert(v4.edges == v.edges && v4.nodes == v.nodes);
    assert forall|k: int|
        0 <= k < unw.len() && #[trigger] unw[k] && w1.pipeline_states[w1.pipeline_of(k)] == PipelineStatus::Active implies {
        &&& !done_forward(w1.node_states[k])
        &&& forward_started(NodeStatus::InProgress) ==> forward_started(w1.node_states[k]) || w1.preds_done(k)
    } by {
        assert(v4.unwind_eligible(k));
        lemma_unwind_scope_unwinding(v4, v4.nodes.len(), k);
    }
    lemma_move_keeps_ready(w1, unw, NodeStatus::InProgress, TransitionReason::ClaimUnwind);
    let w2 = w1.move_nodes(unw, NodeStatus::InProgress, TransitionReason::ClaimUnwind);
    let (f, u) = v4.tick_claims();
    let x = w2.with_jobs(f + u, now);
    assert(x == v.ticked(now, err));
    lemma_step_keeps_ready(w2, x);
}

/// The success or failure of a job whose node is in progress keeps nodes of active pipelines
/// waiting for their predecessors.
proof fn lemma_job_keeps_ready(v: EngineView, j: int, err: Seq<char>)
    requires
        v.wf(),
        active_nodes_ready(v),
        0 <= j < v.job_nodes.len(),
        v.job_states[j] == JobStatus::Running,
        v.completable(j),
    ensures
        active_nodes_ready(v.succeeded(j)),
        active_nodes_ready(v.failed(j, err)),
{
    lemma_shaped(v);
    let n = v.job_nodes[j] as int;
    let q = v.pipeline_of(n);
    assert(v.node_states[n] == NodeStatus::InProgress);
    assert(v.nodes[n].pipeline < v.pipeline_states.len());
    let unwinding = v.pipeline_states[q] == PipelineStatus::Unwinding;
    let target = if unwinding { NodeStatus::Unwound } else { NodeStatus::Finished };
    let t1 = EngineView {
        job_states: v.job_states.update(j, JobStatus::Succeeded),
        node_states: v.node_states.update(n, target),
        events: v.events.push(NodeEvent { node_id: n as usize, to_state: target, reason: TransitionReason::Succeed(j as usize) }),
        ..v
    };
    lemma_step_keeps_ready(v, t1);
    let sp = Seq::new(t1.nodes.len(), |k: int| t1.promote_after_selects(n, k));
    lemma_move_keeps_ready(t1, sp, NodeStatus::Executable, TransitionReason::Promote);
    let t2 = t1.move_nodes(sp, NodeStatus::Executable, TransitionReason::Promote);
    if !unwinding {
        let t3 = EngineView { pipeline_states: t2.pipeline_states.update(q, PipelineStatus::Finished), ..t2 };
        lemma_step_keeps_ready(t2, t3);
    }
    lemma_step_keeps_ready(v, v.failed(j, err));
}

/// Adding a node, or an edge whose source is done or whose target has not been let run, keeps
/// nodes of active pipelines waiting for their predecessors.
proof fn lemma_growth_keeps_ready(v: EngineView, info: NodeInfoView, edge: (usize, usize))
    requires
        v.wf(),
        active_nodes_ready(v),
    ensures
        0 <= info.pipeline < v.pipelines.len() ==> active_nodes_ready(
            EngineView { nodes: v.nodes.push(info), node_states: v.node_states.push(NodeStatus::Pending), ..v },
        ),
        edge.0 < v.nodes.len() && edge.1 < v.nodes.len() && v.nodes[edge.0 as int].pipeline == v.nodes[edge.1 as int].pipeline
            && (v.pipeline_states[v.pipeline_of(edge.1 as int)] == PipelineStatus::Active && forward_started(
            v.node_states[edge.1 as int],
        ) ==> done_forward(v.node_states[edge.0 as int])) ==> active_nodes_ready(EngineView { edges: v.edges.push(edge), ..v }),
{
    lemma_shaped(v);
    // adding a node
    if 0 <= info.pipeline < v.pipelines.len() {
        let added = EngineView { nodes: v.nodes.push(info), node_states: v.node_states.push(NodeStatus::Pending), ..v };
        assert forall|k: int|
            0 <= k < added.nodes.len() && #[trigger] added.pipeline_states[added.pipeline_of(k)] == PipelineStatus::Active implies {
            &&& forward_started(added.node_states[k]) ==> added.preds_done(k)
            &&& !rolled_back(added.node_states[k])
        } by {
            if k < v.nodes.len() {
                assert(added.nodes[k] == v.nodes[k]);
                assert(v.pipeline_states[v.pipeline_of(k)] == PipelineStatus::Active);
                if forward_started(added.node_states[k]) {
                    assert(v.preds_done(k));
                    assert forall|e: int| 0 <= e < added.edges.len() && #[trigger] added.edges[e].1 == k implies done_forward(
                        added.node_states[added.edges[e].0 as int],
                    ) by {
                        assert(v.edges[e].0 < v.nodes.len());
                    }
                }
            }
        }
    }
    // adding an edge
    if edge.0 < v.nodes.len() && edge.1 < v.nodes.len() && v.nodes[edge.0 as int].pipeline == v.nodes[edge.1 as int].pipeline
        && (v.pipeline_states[v.pipeline_of(edge.1 as int)] == PipelineStatus::Active && forward_started(
        v.node_states[edge.1 as int],
    ) ==> done_forward(v.node_states[edge.0 as int])) {
        let ed = EngineView { edges: v.edges.push(edge), ..v };
        assert forall|k: int|
            0 <= k < ed.nodes.len() && #[trigger] ed.pipeline_states[ed.pipeline_of(k)] == PipelineStatus::Active implies {
            &&& forward_started(ed.node_states[k]) ==> ed.preds_done(k)
            &&& !rolled_back(ed.node_states[k])
        } by {
            if forward_started(ed.node_states[k]) {
                assert(v.pipeline_states[v.pipeline_of(k)] == PipelineStatus::Active);
                assert(v.preds_done(k));
                assert forall|e: int| 0 <= e < ed.edges.len() && #[trigger] ed.edges[e].1 == k implies done_forward(
                    ed.node_states[ed.edges[e].0 as int],
                ) by {
                    if e < v.edges.len() {
                        assert(ed.edges[e] == v.edges[e]);
                    }
                }
            }
        }
    }
}

/// An engine without nodes, as a new engine is, keeps nodes of active and unwinding pipelines
/// waiting for their predecessors.
pub proof fn law_empty_engine_ready(v: EngineView)
    requires
        v.wf(),
        v.nodes.len() == 0,
    ensures
        active_nodes_ready(v),
        unwinding_nodes_ready(v),
{
    if v.edges.len() > 0 {
        assert(v.edges[0].0 < v.nodes.len());
    }
}

/// Nodes of active pipelines wait for their predecessors: in an active pipeline, no node is
/// executable, in progress, finished or failed unless every predecessor is finished or
/// cancelled, and no node is rolled back. Creating a revision or a pipeline, adding a node,
/// adding an edge whose source is done or whose target has not been let run, sealing, ticking,
/// cancelling, retrying, a heartbeat, and the success or failure of a job whose node is in
/// progress each keep this so.
pub proof fn law_active_nodes_wait_for_predecessors(
    v: EngineView,
    p: int,
    i: int,
    j: int,
    project: Seq<char>,
    pipeline: PipelineInfoView,
    info: NodeInfoView,
    edge: (usize, usize),
    now: u64,
    err: Seq<char>,
)
    requires
        v.wf(),
        v.nodes.len() < usize::MAX,
        active_nodes_ready(v),
    ensures
        active_nodes_ready(EngineView { revisions: v.revisions.push(project), ..v }),
        active_nodes_ready(
            EngineView {
                pipelines: v.pipelines.push(pipeline),
                pipeline_states: v.pipeline_states.push(PipelineStatus::Active),
                ..v
            },
        ),
        0 <= info.pipeline < v.pipelines.len() ==> active_nodes_ready(
            EngineView { nodes: v.nodes.push(info), node_states: v.node_states.push(NodeStatus::Pending), ..v },
        ),
        edge.0 < v.nodes.len() && edge.1 < v.nodes.len() && v.nodes[edge.0 as int].pipeline == v.nodes[edge.1 as int].pipeline
            && (v.pipeline_states[v.pipeline_of(edge.1 as int)] == PipelineStatus::Active && forward_started(
            v.node_states[edge.1 as int],
        ) ==> done_forward(v.node_states[edge.0 as int])) ==> active_nodes_ready(EngineView { edges: v.edges.push(edge), ..v }),
        active_nodes_ready(EngineView { heartbeats: v.heartbeats.update(j, now), ..v }),
        active_nodes_ready(v.sealed(p)),
        active_nodes_ready(v.ticked(now, err)),
        0 <= p < v.pipelines.len() ==> active_nodes_ready(v.cancelled(p)),
        0 <= i < v.nodes.len() && EngineView::retry_target(v.node_states[i]) is Some ==> active_nodes_ready(
            v.retried(i, EngineView::retry_target(v.node_states[i])->0),
        ),
        0 <= j < v.job_nodes.len() && v.job_states[j] == JobStatus::Running && v.completable(j) ==> active_nodes_ready(
            v.succeeded(j),
        ) && active_nodes_ready(v.failed(j, err)),
{
    lemma_shaped(v);
    // creating a revision or a pipeline
    lemma_step_keeps_ready(v, EngineView { revisions: v.revisions.push(project), ..v });
    let cp = EngineView {
        pipelines: v.pipelines.push(pipeline),
        pipeline_states: v.pipeline_states.push(PipelineStatus::Active),
        ..v
    };
    assert forall|k: int| 0 <= k < cp.nodes.len() && #[trigger] cp.pipeline_states[cp.pipeline_of(k)] == PipelineStatus::Active implies {
        &&& forward_started(cp.node_states[k]) ==> cp.preds_done(k)
        &&& !rolled_back(cp.node_states[k])
    } by {
        assert(v.nodes[k].pipeline < v.pipeline_states.len());
        assert(v.pipeline_states[v.pipeline_of(k)] == PipelineStatus::Active);
    }
    // a heartbeat
    lemma_step_keeps_ready(v, EngineView { heartbeats: v.heartbeats.update(j, now), ..v });
    // sealing
    let ss = Seq::new(v.nodes.len(), |k: int| v.seal_selects(p, k));
    assert forall|k: int| 0 <= k < ss.len() && #[trigger] ss[k] && v.pipeline_states[v.pipeline_of(k)] == PipelineStatus::Active implies {
        &&& !done_forward(v.node_states[k])
        &&& forward_started(NodeStatus::Executable) ==> forward_started(v.node_states[k]) || v.preds_done(k)
    } by {
        assert(v.is_root(k));
    }
    lemma_move_keeps_ready(v, ss, NodeStatus::Executable, TransitionReason::Seal);
    // cancelling
    if 0 <= p < v.pipelines.len() {
        let c = v.cancelled(p);
        assert forall|k: int|
            0 <= k < v.nodes.len() && #[trigger] c.pipeline_states[c.pipeline_of(k)] == PipelineStatus::Active implies {
            &&& done_forward(v.node_states[k]) ==> done_forward(c.node_states[k])
            &&& forward_started(c.node_states[k]) ==> forward_started(v.node_states[k]) || v.preds_done(k)
            &&& rolled_back(c.node_states[k]) ==> rolled_back(v.node_states[k])
        } by {
            assert(c.pipeline_of(k) != p);
            assert(!v.cancel_selects(p, k));
        }
        lemma_step_keeps_ready(v, c);
    }
    // retrying
    if 0 <= i < v.nodes.len() && EngineView::retry_target(v.node_states[i]) is Some {
        let r = v.retried(i, EngineView::retry_target(v.node_states[i])->0);
        assert(v.nodes[i].pipeline < v.pipeline_states.len());
        assert forall|k: int|
            0 <= k < v.nodes.len() && #[trigger] r.pipeline_states[r.pipeline_of(k)] == PipelineStatus::Active implies {
            &&& done_forward(v.node_states[k]) ==> done_forward(r.node_states[k])
            &&& forward_started(r.node_states[k]) ==> forward_started(v.node_states[k]) || v.preds_done(k)
            &&& rolled_back(r.node_states[k]) ==> rolled_back(v.node_states[k])
        } by {
            assert(v.pipeline_states[v.pipeline_of(k)] == PipelineStatus::Active);
        }
        lemma_step_keeps_ready(v, r);
    }
    lemma_tick_keeps_ready(v, now, err);
    lemma_growth_keeps_ready(v, info, edge);
    if 0 <= j < v.job_nodes.len() && v.job_states[j] == JobStatus::Running && v.completable(j) {
        lemma_job_keeps_ready(v, j, err);
    }
}

// ----- layers -----

/// The `k`-th layer listed from layer `k0` on is layer `k0 + k`.
proof fn lemma_layers_from_index(v: EngineView, p: int, k0: nat, fuel: nat, k: int)
    requires
        0 <= k < v.layers_from(p, k0, fuel).len(),
    ensures
        v.layers_from(p, k0, fuel)[k] == true_indices(v.layer_flags(p, (k0 + k) as nat)),
    decreases fuel,
{
    if k > 0 {
        lemma_layers_from_index(v, p, k0 + 1, (fuel - 1) as nat, k - 1);
    }
}

/// Every node placed in the first `k + 1` layers of `p` belongs to `p` and lies in one of them.
proof fn lemma_placed_layer(v: EngineView, p: int, k: nat, j: int) -> (m: nat)
    requires
        0 <= j < v.nodes.len(),
        v.placed_upto(p, k)[j],
    ensures
        m <= k,
        v.layer_flags(p, m)[j],
        v.nodes[j].pipeline == p,
    decreases k,
{
    if k == 0 {
        0
    } else if v.placed_upto(p, (k - 1) as nat)[j] {
        lemma_placed_layer(v, p, (k - 1) as nat, j)
    } else {
        k
    }
}

/// Nodes are layered by longest path: every node listed in layer `k` of pipeline `p` belongs to
/// `p`; in layer 0 it has no predecessor, and in a later layer every predecessor is listed in an
/// earlier layer and some predecessor is listed in layer `k - 1`.
pub proof fn law_layers_follow_longest_paths(v: EngineView, p: int, k: int, x: usize)
    requires
        v.wf(),
        v.nodes.len() < usize::MAX,
        0 <= k < v.layers(p).len(),
        v.layers(p)[k].contains(x),
    ensures
        x < v.nodes.len() && v.nodes[x as int].pipeline == p,
        k == 0 ==> v.is_root(x as int),
        k > 0 ==> forall|e: int|
            0 <= e < v.edges.len() && #[trigger] v.edges[e].1 == x ==> exists|m: int|
                0 <= m < k && #[trigger] v.layers(p)[m].contains(v.edges[e].0),
        k > 0 ==> exists|e: int|
            0 <= e < v.edges.len() && #[trigger] v.edges[e].1 == x && v.layers(p)[k - 1].contains(v.edges[e].0),
{
    let fuel = (v.nodes.len() + 1) as nat;
    lemma_layers_from_index(v, p, 0, fuel, k);
    let flags = v.layer_flags(p, k as nat);
    assert(flags.len() == v.nodes.len());
    lemma_true_indices_bounds(flags);
    let pos = choose|q: int| 0 <= q < v.layers(p)[k].len() && v.layers(p)[k][q] == x;
    assert(x < v.nodes.len() && flags[x as int]);
    assert(v.placed_upto(p, k as nat)[x as int]);
    lemma_placed_layer(v, p, k as nat, x as int);
    if k > 0 {
        let below = v.placed_upto(p, (k - 1) as nat);
        assert(!below[x as int]);
        assert(v.preds_in(x as int, below));
        assert forall|e: int| 0 <= e < v.edges.len() && #[trigger] v.edges[e].1 == x implies exists|m: int|
            0 <= m < k && #[trigger] v.layers(p)[m].contains(v.edges[e].0) by {
            let a = v.edges[e].0 as int;
            assert(a < v.nodes.len());
            assert(below[a]);
            let m = lemma_placed_layer(v, p, (k - 1) as nat, a);
            lemma_layers_from_index(v, p, 0, fuel, m as int);
            lemma_true_indices_contains(v.layer_flags(p, m), a);
            assert(v.layers(p)[m as int].contains(v.edges[e].0));
        }
        let e = if k == 1 {
            assert(!v.is_root(x as int));
            choose|e: int| 0 <= e < v.edges.len() && v.edges[e].1 == x
        } else {
            assert(!v.preds_in(x as int, v.placed_upto(p, (k - 2) as nat)));
            choose|e: int|
                0 <= e < v.edges.len() && v.edges[e].1 == x && !v.placed_upto(p, (k - 2) as nat)[v.edges[e].0 as int]
        };
        let a = v.edges[e].0 as int;
        assert(a < v.nodes.len());
        assert(below[a]);
        assert(v.layer_flags(p, (k - 1) as nat)[a]);
        lemma_layers_from_index(v, p, 0, fuel, k - 1);
        lemma_true_indices_contains(v.layer_flags(p, (k - 1) as nat), a);
        assert(v.layers(p)[k - 1].contains(v.edges[e].0));
    }
}

// ----- the backward scope of a pipeline, and how it settles -----

/// The number of positions of `s` that hold `true`.
spec fn count_true(s: Seq<bool>) -> nat
    decreases s.len(),
{
    if s.len() == 0 {
        0
    } else {
        count_true(s.drop_last()) + if s.last() { 1nat } else { 0nat }
    }
}

proof fn lemma_count_bound(s: Seq<bool>)
    ensures
        count_true(s) <= s.len(),
        count_true(s) == s.len() ==> forall|i: int| 0 <= i < s.len() ==> s[i],
    decreases s.len(),
{
    if s.len() > 0 {
        lemma_count_bound(s.drop_last());
        if count_true(s) == s.len() {
            assert forall|i: int| 0 <= i < s.len() implies s[i] by {
                if i < s.len() - 1 {
                    assert(s.drop_last()[i] == s[i]);
                }
            }
        }
    }
}

/// A set that contains another and one more position has more positions.
proof fn lemma_count_grows(s: Seq<bool>, t: Seq<bool>)
    requires
        s.len() == t.len(),
        forall|i: int| 0 <= i < s.len() && #[trigger] s[i] ==> t[i],
    ensures
        count_true(s) <= count_true(t),
        (exists|i: int| 0 <= i < s.len() && #[trigger] t[i] && !s[i]) ==> count_true(s) < count_true(t),
    decreases s.len(),
{
    if s.len() > 0 {
        let n = s.len() - 1;
        assert forall|i: int| 0 <= i < n && #[trigger] s.drop_last()[i] implies t.drop_last()[i] by {
            assert(s[i]);
        }
        lemma_count_grows(s.drop_last(), t.drop_last());
        if exists|i: int| 0 <= i < s.len() && #[trigger] t[i] && !s[i] {
            let i = choose|i: int| 0 <= i < s.len() && #[trigger] t[i] && !s[i];
            if i < n {
                assert(t.drop_last()[i] && !s.drop_last()[i]);
            }
        }
    }
}

proof fn lemma_back_scope_len(v: EngineView, p: int, k: nat)
    ensures
        v.back_scope(p, k).len() == v.nodes.len(),
    decreases k,
{
    if k > 0 {
        lemma_back_scope_len(v, p, (k - 1) as nat);
    }
}

/// A node in the backward scope after `a` rounds stays in it after more rounds.
proof fn lemma_back_scope_mono(v: EngineView, p: int, a: nat, b: nat, j: int)
    requires
        a <= b,
        0 <= j < v.nodes.len(),
        v.back_scope(p, a)[j],
    ensures
        v.back_scope(p, b)[j],
    decreases b,
{
    if b > a {
        lemma_back_scope_mono(v, p, a, (b - 1) as nat, j);
    }
}

/// Once a round adds nothing, no later round does.
proof fn lemma_back_scope_fixed(v: EngineView, p: int, m: nat, d: nat)
    requires
        v.back_scope(p, m + 1) == v.back_scope(p, m),
    ensures
        v.back_scope(p, m + d) == v.back_scope(p, m),
    decreases d,
{
    if d > 0 {
        lemma_back_scope_fixed(v, p, m, (d - 1) as nat);
        let prev = v.back_scope(p, (m + d - 1) as nat);
        assert(prev == v.back_scope(p, m));
        assert(v.back_scope(p, m + d) =~= v.back_scope(p, m + 1));
    }
}

/// When each of the first `m` rounds adds a node, the scope holds at least `m` nodes.
proof fn lemma_back_scope_counts(v: EngineView, p: int, m: nat)
    requires
        forall|a: nat| a < m ==> #[trigger] v.back_scope(p, a + 1) != v.back_scope(p, a),
    ensures
        count_true(v.back_scope(p, m)) >= m,
    decreases m,
{
    if m > 0 {
        let a = (m - 1) as nat;
        lemma_back_scope_counts(v, p, a);
        lemma_back_scope_len(v, p, a);
        lemma_back_scope_len(v, p, m);
        let s = v.back_scope(p, a);
        let t = v.back_scope(p, m);
        assert(v.back_scope(p, a + 1) != v.back_scope(p, a));
        assert forall|i: int| 0 <= i < s.len() && #[trigger] s[i] implies t[i] by {
            lemma_back_scope_mono(v, p, a, m, i);
        }
        if forall|i: int| 0 <= i < s.len() ==> #[trigger] t[i] == s[i] {
            assert(t =~= s);
        }
        let i = choose|i: int| 0 <= i < s.len() && #[trigger] t[i] != s[i];
        assert(t[i] && !s[i]);
        lemma_count_grows(s, t);
    }
}

/// The backward scope settles within as many rounds as there are nodes: a node in it after
/// any number of rounds is in it after that many.
proof fn lemma_back_scope_stable(v: EngineView, p: int, k: nat, j: int)
    requires
        0 <= j < v.nodes.len(),
        v.back_scope(p, k)[j],
    ensures
        v.back_scope(p, v.nodes.len())[j],
{
    let n = v.nodes.len();
    if k <= n {
        lemma_back_scope_mono(v, p, k, n, j);
    } else if !v.back_scope(p, n)[j] {
        lemma_back_scope_len(v, p, n);
        lemma_count_bound(v.back_scope(p, n));
        if forall|a: nat| a < n ==> #[trigger] v.back_scope(p, a + 1) != v.back_scope(p, a) {
            lemma_back_scope_counts(v, p, n);
        }
        let m = choose|a: nat| a < n && #[trigger] v.back_scope(p, a + 1) == v.back_scope(p, a);
        lemma_back_scope_fixed(v, p, m, (k - m) as nat);
        lemma_back_scope_fixed(v, p, m, (n - m) as nat);
    }
}

proof fn lemma_cascade_mono(v: EngineView, p: int, a: nat, b: nat, j: int)
    requires
        a <= b,
        0 <= j < v.nodes.len(),
        v.cascade(p, a)[j],
    ensures
        v.cascade(p, b)[j],
    decreases b,
{
    if b > a {
        lemma_cascade_mono(v, p, a, (b - 1) as nat, j);
    }
}

/// A node of an unwinding pipeline in its unwind scope is in the pipeline's backward scope.
proof fn lemma_unwind_in_back(v: EngineView, k: nat, j: int)
    requires
        shaped(v),
        0 <= j < v.nodes.len(),
        v.unwind_scope_k(k)[j],
    ensures
        v.back_scope(v.pipeline_of(j), k)[j],
    decreases k,
{
    let p = v.pipeline_of(j);
    if k > 0 {
        let prev = v.unwind_scope_k((k - 1) as nat);
        lemma_back_scope_len(v, p, (k - 1) as nat);
        if prev[j] {
            lemma_unwind_in_back(v, (k - 1) as nat, j);
        } else {
            assert(v.unwind_adds(prev, j));
            let e = choose|e: int|
                0 <= e < v.edges.len() && #[trigger] v.edges[e].0 == j && prev[v.edges[e].1 as int] && !v.nodes[j].boundary
                    && v.nodes[j].pipeline == v.nodes[v.edges[e].1 as int].pipeline && !v.superseded(j);
            let t = v.edges[e].1 as int;
            assert(t < v.nodes.len());
            lemma_unwind_in_back(v, (k - 1) as nat, t);
            assert(v.back_adds(p, v.back_scope(p, (k - 1) as nat), j));
        }
    }
}

/// Two states that agree on the nodes and edges of pipeline `p` and on which of its nodes
/// have started have the same backward scope for `p` (the second may hold more nodes, and
/// more edges outside `p`).
proof fn lemma_back_scope_same(v: EngineView, w: EngineView, p: int, k: nat)
    requires
        shaped(v),
        v.nodes.len() <= w.nodes.len(),
        w.node_states.len() == w.nodes.len(),
        forall|i: int| 0 <= i < v.nodes.len() ==> #[trigger] w.nodes[i] == v.nodes[i],
        v.edges.len() <= w.edges.len(),
        forall|e: int| 0 <= e < v.edges.len() ==> #[trigger] w.edges[e] == v.edges[e],
        forall|e: int|
            #![trigger w.edges[e]]
            v.edges.len() <= e < w.edges.len() ==> w.edges[e].0 < w.nodes.len() && w.nodes[w.edges[e].0 as int].pipeline != p,
        forall|i: int|
            0 <= i < v.nodes.len() && #[trigger] v.nodes[i].pipeline == p ==> not_started(w.node_states[i]) == not_started(
                v.node_states[i],
            ),
    ensures
        forall|j: int| 0 <= j < v.nodes.len() ==> #[trigger] w.back_scope(p, k)[j] == v.back_scope(p, k)[j],
    decreases k,
{
    lemma_back_scope_len(v, p, k);
    lemma_back_scope_len(w, p, k);
    if k == 0 {
        assert forall|j: int| 0 <= j < v.nodes.len() implies #[trigger] w.back_scope(p, k)[j] == v.back_scope(p, k)[j] by {
            assert(w.nodes[j] == v.nodes[j]);
            if v.nodes[j].pipeline == p {
                if w.has_started_succ(j) {
                    let e = choose|e: int|
                        0 <= e < w.edges.len() && #[trigger] w.edges[e].0 == j && w.nodes[w.edges[e].1 as int].pipeline
                            == w.nodes[j].pipeline && !not_started(w.node_states[w.edges[e].1 as int]);
                    assert(e < v.edges.len());
                    assert(w.edges[e] == v.edges[e]);
                    let t = v.edges[e].1 as int;
                    assert(t < v.nodes.len());
                    assert(w.nodes[t] == v.nodes[t]);
                    assert(v.has_started_succ(j));
                }
                if v.has_started_succ(j) {
                    let e = choose|e: int|
                        0 <= e < v.edges.len() && #[trigger] v.edges[e].0 == j && v.nodes[v.edges[e].1 as int].pipeline
                            == v.nodes[j].pipeline && !not_started(v.node_states[v.edges[e].1 as int]);
                    assert(w.edges[e] == v.edges[e]);
                    let t = v.edges[e].1 as int;
                    assert(t < v.nodes.len());
                    assert(w.nodes[t] == v.nodes[t]);
                    assert(w.has_started_succ(j));
                }
            }
        }
    } else {
        let km = (k - 1) as nat;
        lemma_back_scope_same(v, w, p, km);
        lemma_back_scope_len(v, p, km);
        lemma_back_scope_len(w, p, km);
        let ws = w.back_scope(p, km);
        let vs = v.back_scope(p, km);
        assert forall|j: int| 0 <= j < v.nodes.len() implies #[trigger] w.back_scope(p, k)[j] == v.back_scope(p, k)[j] by {
            assert(w.nodes[j] == v.nodes[j]);
            if w.back_adds(p, ws, j) {
                let e = choose|e: int|
                    0 <= e < w.edges.len() && #[trigger] w.edges[e].0 == j && ws[w.edges[e].1 as int] && !w.nodes[j].boundary
                        && w.nodes[j].pipeline == p;
                assert(e < v.edges.len());
                assert(w.edges[e] == v.edges[e]);
                assert(v.edges[e].1 < v.nodes.len());
                assert(v.back_adds(p, vs, j));
            }
            if v.back_adds(p, vs, j) {
                let e = choose|e: int|
                    0 <= e < v.edges.len() && #[trigger] v.edges[e].0 == j && vs[v.edges[e].1 as int] && !v.nodes[j].boundary
                        && v.nodes[j].pipeline == p;
                assert(w.edges[e] == v.edges[e]);
                assert(v.edges[e].1 < v.nodes.len());
                assert(w.back_adds(p, ws, j));
            }
        }
    }
}

// ----- nodes of unwinding pipelines wait for their predecessors -----

/// The node has not started: pending or executable.
pub open spec fn waiting(s: NodeStatus) -> bool {
    s == NodeStatus::Pending || s == NodeStatus::Executable
}

/// In an unwinding pipeline, no predecessor of a waiting node lies in the pipeline's backward
/// scope (after any number of rounds), so unwinding never takes it back; and every predecessor
/// of an executable node is finished or cancelled.
pub open spec fn unwinding_nodes_ready(v: EngineView) -> bool {
    forall|e: int|
        #![trigger v.edges[e]]
        0 <= e < v.edges.len() && v.pipeline_states[v.pipeline_of(v.edges[e].1 as int)] == PipelineStatus::Unwinding ==> {
            &&& waiting(v.node_states[v.edges[e].1 as int]) ==> forall|k: nat|
                !#[trigger] v.back_scope(v.pipeline_of(v.edges[e].1 as int), k)[v.edges[e].0 as int]
            &&& v.node_states[v.edges[e].1 as int] == NodeStatus::Executable ==> done_forward(
                v.node_states[v.edges[e].0 as int],
            )
        }
}

/// A step that keeps nodes and edges, makes no pipeline unwinding, and, in the pipelines
/// unwinding afterwards, starts or stops no node, lets a node wait only if it waited, makes a
/// node executable only if it was or its predecessors were done, and takes no predecessor of
/// an executable node out of finished or cancelled.
proof fn lemma_step_keeps_unwinding(v: EngineView, w: EngineView)
    requires
        shaped(v),
        unwinding_nodes_ready(v),
        w.nodes == v.nodes,
        w.edges == v.edges,
        w.node_states.len() == v.node_states.len(),
        w.pipeline_states.len() >= v.pipeline_states.len(),
        forall|p: int|
            0 <= p < w.pipeline_states.len() && #[trigger] w.pipeline_states[p] == PipelineStatus::Unwinding ==> v.pipeline_states[p]
                == PipelineStatus::Unwinding,
        forall|i: int|
            0 <= i < v.nodes.len() && #[trigger] w.pipeline_states[w.pipeline_of(i)] == PipelineStatus::Unwinding ==> {
                &&& not_started(w.node_states[i]) == not_started(v.node_states[i])
                &&& waiting(w.node_states[i]) ==> waiting(v.node_states[i])
                &&& w.node_states[i] == NodeStatus::Executable ==> v.node_states[i] == NodeStatus::Executable || v.preds_done(i)
            },
        forall|e: int|
            #![trigger w.edges[e]]
            0 <= e < w.edges.len() && w.pipeline_states[w.pipeline_of(w.edges[e].1 as int)] == PipelineStatus::Unwinding
                && w.node_states[w.edges[e].1 as int] == NodeStatus::Executable && done_forward(v.node_states[w.edges[e].0 as int])
                ==> done_forward(w.node_states[w.edges[e].0 as int]),
    ensures
        shaped(w),
        unwinding_nodes_ready(w),
{
    assert(shaped(w)) by {
        assert forall|i: int| 0 <= i < w.nodes.len() implies #[trigger] w.nodes[i].pipeline < w.pipeline_states.len() by {
            assert(v.nodes[i].pipeline < v.pipeline_states.len());
        }
        assert forall|e: int| 0 <= e < w.edges.len() implies {
            let (a, b) = #[trigger] w.edges[e];
            &&& a < w.nodes.len()
            &&& b < w.nodes.len()
            &&& w.nodes[a as int].pipeline == w.nodes[b as int].pipeline
        } by {
            assert(v.edges[e] == w.edges[e]);
        }
    }
    assert forall|e: int|
        #![trigger w.edges[e]]
        0 <= e < w.edges.len() && w.pipeline_states[w.pipeline_of(w.edges[e].1 as int)] == PipelineStatus::Unwinding implies {
        &&& waiting(w.node_states[w.edges[e].1 as int]) ==> forall|k: nat|
            !#[trigger] w.back_scope(w.pipeline_of(w.edges[e].1 as int), k)[w.edges[e].0 as int]
        &&& w.node_states[w.edges[e].1 as int] == NodeStatus::Executable ==> done_forward(w.node_states[w.edges[e].0 as int])
    } by {
        assert(v.edges[e] == w.edges[e]);
        let q = w.edges[e].0 as int;
        let t = w.edges[e].1 as int;
        let p = w.pipeline_of(t);
        assert(v.nodes[t].pipeline < v.pipeline_states.len());
        assert(v.pipeline_states[p] == PipelineStatus::Unwinding);
        assert forall|i: int| 0 <= i < v.nodes.len() && #[trigger] v.nodes[i].pipeline == p implies not_started(
            w.node_states[i],
        ) == not_started(v.node_states[i]) by {
            assert(w.pipeline_states[w.pipeline_of(i)] == PipelineStatus::Unwinding);
        }
        if waiting(w.node_states[t]) {
            assert forall|k: nat| !#[trigger] w.back_scope(p, k)[q] by {
                lemma_back_scope_same(v, w, p, k);
                assert(!v.back_scope(v.pipeline_of(t), k)[q]);
            }
        }
        if w.node_states[t] == NodeStatus::Executable {
            if v.node_states[t] != NodeStatus::Executable {
                assert(v.preds_done(t));
            }
            assert(done_forward(v.node_states[q]));
        }
    }
}

/// Moving selected nodes keeps nodes of unwinding pipelines waiting when the selection leaves
/// unwinding pipelines alone.
proof fn lemma_move_outside_unwinding(v: EngineView, sel: Seq<bool>, to: NodeStatus, reason: TransitionReason)
    requires
        shaped(v),
        unwinding_nodes_ready(v),
        sel.len() == v.nodes.len(),
        forall|i: int| 0 <= i < sel.len() && #[trigger] sel[i] ==> v.pipeline_states[v.pipeline_of(i)] != PipelineStatus::Unwinding,
    ensures
        unwinding_nodes_ready(v.move_nodes(sel, to, reason)),
{
    let w = v.move_nodes(sel, to, reason);
    assert forall|e: int|
        #![trigger w.edges[e]]
        0 <= e < w.edges.len() && w.pipeline_states[w.pipeline_of(w.edges[e].1 as int)] == PipelineStatus::Unwinding
            && w.node_states[w.edges[e].1 as int] == NodeStatus::Executable && done_forward(v.node_states[w.edges[e].0 as int])
            implies done_forward(w.node_states[w.edges[e].0 as int]) by {
        let q = w.edges[e].0 as int;
        assert(v.edges[e] == w.edges[e]);
        assert(!sel[q]);
    }
    lemma_step_keeps_unwinding(v, w);
}

/// Starting to unwind cancels the waiting nodes of the cancel scope; the waiting nodes left
/// have no predecessor in the backward scope, and the executable ones kept their finished or
/// cancelled predecessors.
proof fn lemma_trigger_keeps_unwinding(v: EngineView)
    requires
        shaped(v),
        v.pipelines.len() == v.pipeline_states.len(),
        active_nodes_ready(v),
        unwinding_nodes_ready(v),
    ensures
        unwinding_nodes_ready(v.unwind_triggered()),
{
    let w = v.unwind_triggered();
    let n = v.nodes.len();
    let cs = Seq::new(n, |i: int| v.scope_cancel_selects(i));
    assert forall|e: int|
        #![trigger w.edges[e]]
        0 <= e < w.edges.len() && w.pipeline_states[w.pipeline_of(w.edges[e].1 as int)] == PipelineStatus::Unwinding implies {
        &&& waiting(w.node_states[w.edges[e].1 as int]) ==> forall|k: nat|
            !#[trigger] w.back_scope(w.pipeline_of(w.edges[e].1 as int), k)[w.edges[e].0 as int]
        &&& w.node_states[w.edges[e].1 as int] == NodeStatus::Executable ==> done_forward(w.node_states[w.edges[e].0 as int])
    } by {
        assert(v.edges[e] == w.edges[e]);
        let q = w.edges[e].0 as int;
        let t = w.edges[e].1 as int;
        let p = w.pipeline_of(t);
        assert(q < n && t < n);
        assert(v.nodes[t].pipeline < v.pipeline_states.len());
        if v.triggers_unwind(p) {
            // every node keeps whether it started: only waiting nodes are cancelled
            assert forall|i: int| 0 <= i < n && #[trigger] v.nodes[i].pipeline == p implies not_started(w.node_states[i])
                == not_started(v.node_states[i]) by {
                if cs[i] {
                    assert(waiting(v.node_states[i]));
                }
            }
            if waiting(w.node_states[t]) {
                assert(!cs[t]);
                assert(waiting(v.node_states[t]));
                assert(!v.cancel_scope(p)[t]);
                assert forall|k: nat| !#[trigger] w.back_scope(p, k)[q] by {
                    lemma_back_scope_same(v, w, p, k);
                    if v.back_scope(p, k)[q] {
                        lemma_back_scope_stable(v, p, k, q);
                        assert(v.cascade(p, 0)[q]);
                        assert(v.fwd_adds(p, v.cascade(p, 0), t));
                        assert(v.cascade(p, 1)[t]);
                        lemma_cascade_mono(v, p, 1, n, t);
                    }
                }
            }
            if w.node_states[t] == NodeStatus::Executable {
                assert(!cs[t]);
                assert(v.pipeline_states[v.pipeline_of(t)] == PipelineStatus::Active);
                assert(forward_started(v.node_states[t]));
                assert(v.preds_done(t));
                assert(done_forward(v.node_states[q]));
            }
        } else {
            assert(v.pipeline_states[p] == PipelineStatus::Unwinding);
            assert forall|i: int| 0 <= i < n && #[trigger] v.nodes[i].pipeline == p implies w.node_states[i]
                == v.node_states[i] by {
                assert(!cs[i]);
            }
            if waiting(w.node_states[t]) {
                assert forall|k: nat| !#[trigger] w.back_scope(p, k)[q] by {
                    lemma_back_scope_same(v, w, p, k);
                    assert(!v.back_scope(v.pipeline_of(t), k)[q]);
                }
            }
        }
    }
}

/// Ticking keeps nodes of unwinding pipelines waiting for their predecessors, when no job of a
/// node of an unwinding pipeline has gone stale.
proof fn lemma_tick_keeps_unwinding(v: EngineView, now: u64, err: Seq<char>)
    requires
        v.wf(),
        v.nodes.len() < usize::MAX,
        active_nodes_ready(v),
        unwinding_nodes_ready(v),
        forall|i: int| 0 <= i < v.nodes.len() && #[trigger] v.release_selects(i, now) ==> v.pipeline_states[v.pipeline_of(i)]
            != PipelineStatus::Unwinding,
    ensures
        unwinding_nodes_ready(v.ticked(now, err)),
{
    lemma_shaped(v);
    let n = v.nodes.len();
    // releasing stale jobs, which leaves unwinding pipelines alone
    let v1 = v.released(now, err);
    let rs = Seq::new(n, |k: int| v.release_selects(k, now));
    assert forall|i: int|
        0 <= i < v.nodes.len() && #[trigger] v1.pipeline_states[v1.pipeline_of(i)] == PipelineStatus::Unwinding implies {
        &&& not_started(v1.node_states[i]) == not_started(v.node_states[i])
        &&& waiting(v1.node_states[i]) ==> waiting(v.node_states[i])
        &&& v1.node_states[i] == NodeStatus::Executable ==> v.node_states[i] == NodeStatus::Executable || v.preds_done(i)
    } by {
        assert(!rs[i]);
    }
    assert forall|e: int|
        #![trigger v1.edges[e]]
        0 <= e < v1.edges.len() && v1.pipeline_states[v1.pipeline_of(v1.edges[e].1 as int)] == PipelineStatus::Unwinding
            && v1.node_states[v1.edges[e].1 as int] == NodeStatus::Executable && done_forward(v.node_states[v1.edges[e].0 as int])
            implies done_forward(v1.node_states[v1.edges[e].0 as int]) by {
        let q = v1.edges[e].0 as int;
        assert(v.edges[e] == v1.edges[e]);
        assert(v.nodes[q].pipeline == v.nodes[v.edges[e].1 as int].pipeline);
        assert(!rs[q]);
    }
    lemma_step_keeps_unwinding(v, v1);
    // promoting ready nodes
    lemma_prepare_keeps_ready(v, now, err);
    crate::pipeline_engine::engine::lemma_release_wf(v, now, err);
    lemma_shaped(v1);
    let ps = Seq::new(n, |k: int| v1.promote_selects(k));
    let v2 = v1.promoted();
    assert forall|i: int|
        0 <= i < v.nodes.len() && #[trigger] v2.pipeline_states[v2.pipeline_of(i)] == PipelineStatus::Unwinding implies {
        &&& not_started(v2.node_states[i]) == not_started(v1.node_states[i])
        &&& waiting(v2.node_states[i]) ==> waiting(v1.node_states[i])
        &&& v2.node_states[i] == NodeStatus::Executable ==> v1.node_states[i] == NodeStatus::Executable || v1.preds_done(i)
    } by {
        if ps[i] {
            assert(v1.promote_selects(i));
        }
    }
    assert forall|e: int|
        #![trigger v2.edges[e]]
        0 <= e < v2.edges.len() && v2.pipeline_states[v2.pipeline_of(v2.edges[e].1 as int)] == PipelineStatus::Unwinding
            && v2.node_states[v2.edges[e].1 as int] == NodeStatus::Executable && done_forward(v1.node_states[v2.edges[e].0 as int])
            implies done_forward(v2.node_states[v2.edges[e].0 as int]) by {
        let q = v2.edges[e].0 as int;
        assert(v1.edges[e] == v2.edges[e]);
        assert(q < n);
        if ps[q] {
            assert(v1.node_states[q] == NodeStatus::Pending);
        }
    }
    lemma_step_keeps_unwinding(v1, v2);
    // starting to unwind, and completing unwinding
    assert(v2.pipelines == v.pipelines && v2.pipeline_states == v.pipeline_states);
    lemma_trigger_keeps_unwinding(v2);
    let v3 = v2.unwind_triggered();
    let v4 = v3.unwinding_completed();
    assert(v3.nodes == v.nodes && v3.edges == v.edges);
    assert(shaped(v3)) by {
        assert forall|i: int| 0 <= i < v3.nodes.len() implies #[trigger] v3.nodes[i].pipeline < v3.pipeline_states.len() by {
            assert(v.nodes[i].pipeline < v.pipeline_states.len());
        }
        assert forall|e: int| 0 <= e < v3.edges.len() implies {
            let (a, b) = #[trigger] v3.edges[e];
            &&& a < v3.nodes.len()
            &&& b < v3.nodes.len()
            &&& v3.nodes[a as int].pipeline == v3.nodes[b as int].pipeline
        } by {
            assert(v.edges[e] == v3.edges[e]);
        }
    }
    lemma_step_keeps_unwinding(v3, v4);
    assert(v4 == v.tick_prepared(now, err));
    lemma_step_keeps_ready(v3, v4);
    // claims: forward claims lie in active pipelines
    let run = Seq::new(n, |k: int| v4.is_runnable(k));
    assert forall|i: int| 0 <= i < run.len() && #[trigger] run[i] implies v4.pipeline_states[v4.pipeline_of(i)]
        != PipelineStatus::Unwinding by {
        assert(v4.is_runnable(i));
    }
    lemma_move_outside_unwinding(v4, run, NodeStatus::InProgress, TransitionReason::Claim);
    let w1 = v4.move_nodes(run, NodeStatus::InProgress, TransitionReason::Claim);
    // unwind claims take only nodes in the backward scope, which no executable node depends on
    let unw = v4.unwind_eligible_flags();
    let w2 = w1.move_nodes(unw, NodeStatus::InProgress, TransitionReason::ClaimUnwind);
    assert forall|i: int|
        0 <= i < v.nodes.len() && #[trigger] w2.pipeline_states[w2.pipeline_of(i)] == PipelineStatus::Unwinding implies {
        &&& not_started(w2.node_states[i]) == not_started(w1.node_states[i])
        &&& waiting(w2.node_states[i]) ==> waiting(w1.node_states[i])
        &&& w2.node_states[i] == NodeStatus::Executable ==> w1.node_states[i] == NodeStatus::Executable || w1.preds_done(i)
    } by {
        if unw[i] {
            assert(v4.unwind_eligible(i));
            assert(!run[i]);
        }
    }
    assert forall|e: int|
        #![trigger w2.edges[e]]
        0 <= e < w2.edges.len() && w2.pipeline_states[w2.pipeline_of(w2.edges[e].1 as int)] == PipelineStatus::Unwinding
            && w2.node_states[w2.edges[e].1 as int] == NodeStatus::Executable && done_forward(w1.node_states[w2.edges[e].0 as int])
            implies done_forward(w2.node_states[w2.edges[e].0 as int]) by {
        let q = w2.edges[e].0 as int;
        let t = w2.edges[e].1 as int;
        assert(v4.edges[e] == w2.edges[e]);
        assert(q < n && t < n);
        if unw[q] {
            assert(v4.unwind_eligible(q));
            lemma_unwind_in_back(v4, n, q);
            assert(!unw[t]);
            assert(!run[t]);
            assert(v4.node_states[t] == NodeStatus::Executable);
            assert(v4.pipeline_of(q) == v4.pipeline_of(t));
            assert(!v4.back_scope(v4.pipeline_of(t), n)[q]);
        }
    }
    lemma_step_keeps_unwinding(w1, w2);
    let (f, u) = v4.tick_claims();
    let x = w2.with_jobs(f + u, now);
    assert(x == v.ticked(now, err));
    lemma_step_keeps_unwinding(w2, x);
}

/// Adding a node, or an edge outside unwinding pipelines, keeps nodes of unwinding pipelines
/// waiting for their predecessors.
proof fn lemma_growth_keeps_unwinding(v: EngineView, info: NodeInfoView, edge: (usize, usize))
    requires
        v.wf(),
        unwinding_nodes_ready(v),
    ensures
        0 <= info.pipeline < v.pipelines.len() ==> unwinding_nodes_ready(
            EngineView { nodes: v.nodes.push(info), node_states: v.node_states.push(NodeStatus::Pending), ..v },
        ),
        edge.0 < v.nodes.len() && edge.1 < v.nodes.len() && v.nodes[edge.0 as int].pipeline == v.nodes[edge.1 as int].pipeline
            && v.pipeline_states[v.pipeline_of(edge.1 as int)] != PipelineStatus::Unwinding ==> unwinding_nodes_ready(
            EngineView { edges: v.edges.push(edge), ..v },
        ),
{
    lemma_shaped(v);
    if 0 <= info.pipeline < v.pipelines.len() {
        let w = EngineView { nodes: v.nodes.push(info), node_states: v.node_states.push(NodeStatus::Pending), ..v };
        assert forall|e: int|
            #![trigger w.edges[e]]
            0 <= e < w.edges.len() && w.pipeline_states[w.pipeline_of(w.edges[e].1 as int)] == PipelineStatus::Unwinding implies {
            &&& waiting(w.node_states[w.edges[e].1 as int]) ==> forall|k: nat|
                !#[trigger] w.back_scope(w.pipeline_of(w.edges[e].1 as int), k)[w.edges[e].0 as int]
            &&& w.node_states[w.edges[e].1 as int] == NodeStatus::Executable ==> done_forward(w.node_states[w.edges[e].0 as int])
        } by {
            assert(v.edges[e] == w.edges[e]);
            let q = w.edges[e].0 as int;
            let t = w.edges[e].1 as int;
            assert(q < v.nodes.len() && t < v.nodes.len());
            assert(w.nodes[t] == v.nodes[t]);
            let p = w.pipeline_of(t);
            if waiting(w.node_states[t]) {
                assert forall|k: nat| !#[trigger] w.back_scope(p, k)[q] by {
                    lemma_back_scope_same(v, w, p, k);
                    assert(!v.back_scope(v.pipeline_of(t), k)[q]);
                }
            }
        }
    }
    if edge.0 < v.nodes.len() && edge.1 < v.nodes.len() && v.nodes[edge.0 as int].pipeline == v.nodes[edge.1 as int].pipeline
        && v.pipeline_states[v.pipeline_of(edge.1 as int)] != PipelineStatus::Unwinding {
        let w = EngineView { edges: v.edges.push(edge), ..v };
        assert forall|e: int|
            #![trigger w.edges[e]]
            0 <= e < w.edges.len() && w.pipeline_states[w.pipeline_of(w.edges[e].1 as int)] == PipelineStatus::Unwinding implies {
            &&& waiting(w.node_states[w.edges[e].1 as int]) ==> forall|k: nat|
                !#[trigger] w.back_scope(w.pipeline_of(w.edges[e].1 as int), k)[w.edges[e].0 as int]
            &&& w.node_states[w.edges[e].1 as int] == NodeStatus::Executable ==> done_forward(w.node_states[w.edges[e].0 as int])
        } by {
            assert(e < v.edges.len());
            assert(v.edges[e] == w.edges[e]);
            let q = w.edges[e].0 as int;
            let t = w.edges[e].1 as int;
            let p = w.pipeline_of(t);
            if waiting(w.node_states[t]) {
                assert forall|k: nat| !#[trigger] w.back_scope(p, k)[q] by {
                    assert(w.edges[v.edges.len() as int] == edge);
                    lemma_back_scope_same(v, w, p, k);
                    assert(!v.back_scope(v.pipeline_of(t), k)[q]);
                }
            }
        }
    }
}

/// Creating a revision or a pipeline, sealing, cancelling, retrying a node other than a failed
/// node of an unwinding pipeline, a heartbeat, and the outcome of a job whose node is in
/// progress keep nodes of unwinding pipelines waiting for their predecessors.
proof fn lemma_changes_keep_unwinding(
    v: EngineView,
    p: int,
    i: int,
    j: int,
    project: Seq<char>,
    pipeline: PipelineInfoView,
    now: u64,
    err: Seq<char>,
)
    requires
        v.wf(),
        v.nodes.len() < usize::MAX,
        unwinding_nodes_ready(v),
    ensures
        unwinding_nodes_ready(EngineView { revisions: v.revisions.push(project), ..v }),
        unwinding_nodes_ready(
            EngineView {
                pipelines: v.pipelines.push(pipeline),
                pipeline_states: v.pipeline_states.push(PipelineStatus::Active),
                ..v
            },
        ),
        unwinding_nodes_ready(EngineView { heartbeats: v.heartbeats.update(j, now), ..v }),
        unwinding_nodes_ready(v.sealed(p)),
        0 <= p < v.pipelines.len() ==> unwinding_nodes_ready(v.cancelled(p)),
        0 <= i < v.nodes.len() && EngineView::retry_target(v.node_states[i]) is Some && !(v.node_states[i]
            == NodeStatus::Failed && v.pipeline_states[v.pipeline_of(i)] == PipelineStatus::Unwinding) ==> unwinding_nodes_ready(
            v.retried(i, EngineView::retry_target(v.node_states[i])->0),
        ),
        0 <= j < v.job_nodes.len() && v.job_states[j] == JobStatus::Running && v.completable(j) ==> unwinding_nodes_ready(
            v.succeeded(j),
        ) && unwinding_nodes_ready(v.failed(j, err)),
{
    lemma_shaped(v);
    lemma_step_keeps_unwinding(v, EngineView { revisions: v.revisions.push(project), ..v });
    let cp = EngineView {
        pipelines: v.pipelines.push(pipeline),
        pipeline_states: v.pipeline_states.push(PipelineStatus::Active),
        ..v
    };
    assert forall|k: int|
        0 <= k < v.nodes.len() && #[trigger] cp.pipeline_states[cp.pipeline_of(k)] == PipelineStatus::Unwinding implies {
        &&& not_started(cp.node_states[k]) == not_started(v.node_states[k])
        &&& waiting(cp.node_states[k]) ==> waiting(v.node_states[k])
        &&& cp.node_states[k] == NodeStatus::Executable ==> v.node_states[k] == NodeStatus::Executable || v.preds_done(k)
    } by {
    }
    lemma_step_keeps_unwinding(v, cp);
    lemma_step_keeps_unwinding(v, EngineView { heartbeats: v.heartbeats.update(j, now), ..v });
    // sealing
    let ss = Seq::new(v.nodes.len(), |k: int| v.seal_selects(p, k));
    let sv = v.sealed(p);
    assert forall|k: int|
        0 <= k < v.nodes.len() && #[trigger] sv.pipeline_states[sv.pipeline_of(k)] == PipelineStatus::Unwinding implies {
        &&& not_started(sv.node_states[k]) == not_started(v.node_states[k])
        &&& waiting(sv.node_states[k]) ==> waiting(v.node_states[k])
        &&& sv.node_states[k] == NodeStatus::Executable ==> v.node_states[k] == NodeStatus::Executable || v.preds_done(k)
    } by {
        if ss[k] {
            assert(v.is_root(k));
        }
    }
    assert forall|e: int|
        #![trigger sv.edges[e]]
        0 <= e < sv.edges.len() && sv.pipeline_states[sv.pipeline_of(sv.edges[e].1 as int)] == PipelineStatus::Unwinding
            && sv.node_states[sv.edges[e].1 as int] == NodeStatus::Executable && done_forward(v.node_states[sv.edges[e].0 as int])
            implies done_forward(sv.node_states[sv.edges[e].0 as int]) by {
        let q = sv.edges[e].0 as int;
        assert(v.edges[e] == sv.edges[e]);
        assert(q < v.nodes.len());
        if ss[q] {
            assert(v.node_states[q] == NodeStatus::Pending);
        }
    }
    lemma_step_keeps_unwinding(v, sv);
    // cancelling
    if 0 <= p < v.pipelines.len() {
        let c = v.cancelled(p);
        assert forall|k: int|
            0 <= k < v.nodes.len() && #[trigger] c.pipeline_states[c.pipeline_of(k)] == PipelineStatus::Unwinding implies {
            &&& not_started(c.node_states[k]) == not_started(v.node_states[k])
            &&& waiting(c.node_states[k]) ==> waiting(v.node_states[k])
            &&& c.node_states[k] == NodeStatus::Executable ==> v.node_states[k] == NodeStatus::Executable || v.preds_done(k)
        } by {
            assert(c.pipeline_of(k) != p);
            assert(!v.cancel_selects(p, k));
        }
        assert forall|e: int|
            #![trigger c.edges[e]]
            0 <= e < c.edges.len() && c.pipeline_states[c.pipeline_of(c.edges[e].1 as int)] == PipelineStatus::Unwinding
                && c.node_states[c.edges[e].1 as int] == NodeStatus::Executable && done_forward(v.node_states[c.edges[e].0 as int])
                implies done_forward(c.node_states[c.edges[e].0 as int]) by {
            let q = c.edges[e].0 as int;
            let t = c.edges[e].1 as int;
            assert(v.edges[e] == c.edges[e]);
            assert(c.pipeline_of(t) != p);
            assert(!v.cancel_selects(p, q));
        }
        lemma_step_keeps_unwinding(v, c);
    }
    // retrying
    if 0 <= i < v.nodes.len() && EngineView::retry_target(v.node_states[i]) is Some && !(v.node_states[i]
        == NodeStatus::Failed && v.pipeline_states[v.pipeline_of(i)] == PipelineStatus::Unwinding) {
        let r = v.retried(i, EngineView::retry_target(v.node_states[i])->0);
        assert(v.nodes[i].pipeline < v.pipeline_states.len());
        lemma_step_keeps_unwinding(v, r);
    }
    // a job's outcome
    if 0 <= j < v.job_nodes.len() && v.job_states[j] == JobStatus::Running && v.completable(j) {
        let n = v.job_nodes[j] as int;
        let q = v.pipeline_of(n);
        assert(v.node_states[n] == NodeStatus::InProgress);
        assert(v.nodes[n].pipeline < v.pipeline_states.len());
        let unwinding = v.pipeline_states[q] == PipelineStatus::Unwinding;
        let target = if unwinding { NodeStatus::Unwound } else { NodeStatus::Finished };
        let t1 = EngineView {
            job_states: v.job_states.update(j, JobStatus::Succeeded),
            node_states: v.node_states.update(n, target),
            events: v.events.push(NodeEvent { node_id: n as usize, to_state: target, reason: TransitionReason::Succeed(j as usize) }),
            ..v
        };
        lemma_step_keeps_unwinding(v, t1);
        if !unwinding {
            let sp = Seq::new(t1.nodes.len(), |k: int| t1.promote_after_selects(n, k));
            assert forall|k: int| 0 <= k < sp.len() && #[trigger] sp[k] implies t1.pipeline_states[t1.pipeline_of(k)]
                != PipelineStatus::Unwinding by {
                assert(t1.promote_after_selects(n, k));
                assert(t1.successor_of(n, k));
                let e = choose|e: int| 0 <= e < t1.edges.len() && #[trigger] t1.edges[e] == (n as usize, k as usize);
                assert(v.edges[e] == t1.edges[e]);
                assert(v.edges[e].0 == n && v.edges[e].1 == k);
                assert(v.nodes[n].pipeline == v.nodes[k].pipeline);
            }
            lemma_move_outside_unwinding(t1, sp, NodeStatus::Executable, TransitionReason::Promote);
            let t2 = t1.move_nodes(sp, NodeStatus::Executable, TransitionReason::Promote);
            let t3 = EngineView { pipeline_states: t2.pipeline_states.update(q, PipelineStatus::Finished), ..t2 };
            assert(t2.nodes == v.nodes && t2.edges == v.edges);
            lemma_step_keeps_unwinding(t2, t3);
        }
        lemma_step_keeps_unwinding(v, v.failed(j, err));
    }
}

/// Nodes of unwinding pipelines wait for their predecessors too: in an unwinding pipeline, every
/// predecessor of an executable node is finished or cancelled, and no predecessor of a pending or
/// executable node lies in the scope unwinding takes back. Creating a revision or a pipeline,
/// adding a node, adding an edge outside unwinding pipelines, sealing, ticking while no job of a
/// node of an unwinding pipeline has gone stale, cancelling, retrying a node other than a failed
/// node of an unwinding pipeline, a heartbeat, and the success or failure of a job whose node is
/// in progress each keep this so.
pub proof fn law_unwinding_nodes_wait_for_predecessors(
    v: EngineView,
    p: int,
    i: int,
    j: int,
    project: Seq<char>,
    pipeline: PipelineInfoView,
    info: NodeInfoView,
    edge: (usize, usize),
    now: u64,
    err: Seq<char>,
)
    requires
        v.wf(),
        v.nodes.len() < usize::MAX,
        active_nodes_ready(v),
        unwinding_nodes_ready(v),
    ensures
        unwinding_nodes_ready(EngineView { revisions: v.revisions.push(project), ..v }),
        unwinding_nodes_ready(
            EngineView {
                pipelines: v.pipelines.push(pipeline),
                pipeline_states: v.pipeline_states.push(PipelineStatus::Active),
                ..v
            },
        ),
        0 <= info.pipeline < v.pipelines.len() ==> unwinding_nodes_ready(
            EngineView { nodes: v.nodes.push(info), node_states: v.node_states.push(NodeStatus::Pending), ..v },
        ),
        edge.0 < v.nodes.len() && edge.1 < v.nodes.len() && v.nodes[edge.0 as int].pipeline == v.nodes[edge.1 as int].pipeline
            && v.pipeline_states[v.pipeline_of(edge.1 as int)] != PipelineStatus::Unwinding ==> unwinding_nodes_ready(
            EngineView { edges: v.edges.push(edge), ..v },
        ),
        unwinding_nodes_ready(EngineView { heartbeats: v.heartbeats.update(j, now), ..v }),
        unwinding_nodes_ready(v.sealed(p)),
        (forall|k: int| 0 <= k < v.nodes.len() && #[trigger] v.release_selects(k, now) ==> v.pipeline_states[v.pipeline_of(k)]
            != PipelineStatus::Unwinding) ==> unwinding_nodes_ready(v.ticked(now, err)),
        0 <= p < v.pipelines.len() ==> unwinding_nodes_ready(v.cancelled(p)),
        0 <= i < v.nodes.len() && EngineView::retry_target(v.node_states[i]) is Some && !(v.node_states[i]
            == NodeStatus::Failed && v.pipeline_states[v.pipeline_of(i)] == PipelineStatus::Unwinding) ==> unwinding_nodes_ready(
            v.retried(i, EngineView::retry_target(v.node_states[i])->0),
        ),
        0 <= j < v.job_nodes.len() && v.job_states[j] == JobStatus::Running && v.completable(j) ==> unwinding_nodes_ready(
            v.succeeded(j),
        ) && unwinding_nodes_ready(v.failed(j, err)),
{
    lemma_growth_keeps_unwinding(v, info, edge);
    lemma_changes_keep_unwinding(v, p, i, j, project, pipeline, now, err);
    if forall|k: int| 0 <= k < v.nodes.len() && #[trigger] v.release_selects(k, now) ==> v.pipeline_states[v.pipeline_of(k)]
        != PipelineStatus::Unwinding {
        lemma_tick_keeps_unwinding(v, now, err);
    }
}

/// In a pipeline that is active or unwinding, an executable node has every predecessor
/// finished or cancelled.
pub proof fn law_executable_nodes_have_done_predecessors(v: EngineView, i: int)
    requires
        v.wf(),
        active_nodes_ready(v),
        unwinding_nodes_ready(v),
        0 <= i < v.nodes.len(),
        v.node_states[i] == NodeStatus::Executable,
        v.pipeline_states[v.pipeline_of(i)] == PipelineStatus::Active || v.pipeline_states[v.pipeline_of(i)]
            == PipelineStatus::Unwinding,
    ensures
        v.preds_done(i),
{
    if v.pipeline_states[v.pipeline_of(i)] == PipelineStatus::Unwinding {
        assert forall|e: int| 0 <= e < v.edges.len() && #[trigger] v.edges[e].1 == i implies done_forward(
            v.node_states[v.edges[e].0 as int],
        ) by {
            assert(v.pipeline_states[v.pipeline_of(v.edges[e].1 as int)] == PipelineStatus::Unwinding);
        }
    } else {
        assert(v.pipeline_states[v.pipeline_of(i)] == PipelineStatus::Active);
        assert(forward_started(v.node_states[i]));
    }
}

// ----- every node of an acyclic pipeline is in one layer -----

/// Pipeline `p` has no cycle, as witnessed by `rank`: every node of `p` has a rank below the
/// number of nodes, and every edge of `p` leads to a node of higher rank.
pub open spec fn ranked(v: EngineView, p: int, rank: spec_fn(int) -> nat) -> bool {
    &&& forall|i: int| 0 <= i < v.nodes.len() && v.nodes[i].pipeline == p ==> #[trigger] rank(i) < v.nodes.len()
    &&& forall|e: int|
        #![trigger v.edges[e]]
        0 <= e < v.edges.len() && v.nodes[v.edges[e].1 as int].pipeline == p ==> rank(v.edges[e].0 as int) < rank(
            v.edges[e].1 as int,
        )
}

proof fn lemma_placed_mono(v: EngineView, p: int, a: nat, b: nat, j: int)
    requires
        a <= b,
        0 <= j < v.nodes.len(),
        v.placed_upto(p, a)[j],
    ensures
        v.placed_upto(p, b)[j],
    decreases b,
{
    if b > a {
        lemma_placed_mono(v, p, a, (b - 1) as nat, j);
    }
}

/// A node of `p` is placed within as many rounds as its rank.
proof fn lemma_placed_by_rank(v: EngineView, p: int, rank: spec_fn(int) -> nat, i: int)
    requires
        shaped(v),
        ranked(v, p, rank),
        0 <= i < v.nodes.len(),
        v.nodes[i].pipeline == p,
    ensures
        v.placed_upto(p, rank(i))[i],
    decreases rank(i),
{
    let r = rank(i);
    if r == 0 {
        assert forall|e: int| 0 <= e < v.edges.len() implies #[trigger] v.edges[e].1 != i by {
            if v.edges[e].1 == i {
                assert(rank(v.edges[e].0 as int) < rank(v.edges[e].1 as int));
            }
        }
    } else {
        let below = v.placed_upto(p, (r - 1) as nat);
        assert forall|e: int| 0 <= e < v.edges.len() && #[trigger] v.edges[e].1 == i implies below[v.edges[e].0 as int] by {
            let a = v.edges[e].0 as int;
            assert(a < v.nodes.len());
            assert(v.nodes[a].pipeline == p);
            assert(rank(a) < r);
            lemma_placed_by_rank(v, p, rank, a);
            lemma_placed_mono(v, p, rank(a), (r - 1) as nat, a);
        }
        if !below[i] {
            assert(v.preds_in(i, below));
        }
    }
}

/// A node in layer `k > 0` has a predecessor in layer `k - 1`.
proof fn lemma_pred_in_previous_layer(v: EngineView, p: int, k: nat, x: int) -> (a: int)
    requires
        shaped(v),
        k > 0,
        0 <= x < v.nodes.len(),
        v.layer_flags(p, k)[x],
    ensures
        0 <= a < v.nodes.len(),
        v.layer_flags(p, (k - 1) as nat)[a],
{
    let below = v.placed_upto(p, (k - 1) as nat);
    assert(v.nodes[x].pipeline == p) by {
        lemma_placed_layer(v, p, k, x);
    }
    let e = if k == 1 {
        assert(!v.is_root(x));
        choose|e: int| 0 <= e < v.edges.len() && v.edges[e].1 == x
    } else {
        assert(!v.preds_in(x, v.placed_upto(p, (k - 2) as nat)));
        choose|e: int| 0 <= e < v.edges.len() && v.edges[e].1 == x && !v.placed_upto(p, (k - 2) as nat)[v.edges[e].0 as int]
    };
    let a = v.edges[e].0 as int;
    assert(a < v.nodes.len());
    assert(v.preds_in(x, below));
    assert(below[a]);
    a
}

/// Every layer up to a non-empty one is non-empty.
proof fn lemma_layers_nonempty(v: EngineView, p: int, k: nat, x: int, c: nat)
    requires
        shaped(v),
        v.nodes.len() < usize::MAX,
        0 <= x < v.nodes.len(),
        v.layer_flags(p, k)[x],
        c <= k,
    ensures
        true_indices(v.layer_flags(p, c)).len() > 0,
    decreases k,
{
    if c == k {
        lemma_true_indices_contains(v.layer_flags(p, k), x);
    } else {
        let a = lemma_pred_in_previous_layer(v, p, k, x);
        lemma_layers_nonempty(v, p, (k - 1) as nat, a, c);
    }
}

/// The layers listed from `k0` on reach past `d` more layers when those are non-empty and the
/// fuel allows it.
proof fn lemma_layers_from_len(v: EngineView, p: int, k0: nat, fuel: nat, d: nat)
    requires
        forall|c: nat| c <= d ==> true_indices(#[trigger] v.layer_flags(p, k0 + c)).len() > 0,
        fuel > d,
    ensures
        v.layers_from(p, k0, fuel).len() > d,
    decreases d,
{
    assert(true_indices(v.layer_flags(p, k0 + 0)).len() > 0);
    if d > 0 {
        assert forall|c: nat| c <= (d - 1) as nat implies true_indices(#[trigger] v.layer_flags(p, (k0 + 1) + c)).len() > 0 by {
            assert(true_indices(v.layer_flags(p, k0 + (c + 1))).len() > 0);
            assert(k0 + (c + 1) == (k0 + 1) + c);
        }
        lemma_layers_from_len(v, p, k0 + 1, (fuel - 1) as nat, (d - 1) as nat);
    }
}

/// A listed node is in that layer.
proof fn lemma_listed_in_layer(v: EngineView, p: int, k: int, x: usize)
    requires
        v.nodes.len() < usize::MAX,
        0 <= k < v.layers(p).len(),
        v.layers(p)[k].contains(x),
    ensures
        x < v.nodes.len(),
        v.layer_flags(p, k as nat)[x as int],
{
    lemma_layers_from_index(v, p, 0, (v.nodes.len() + 1) as nat, k);
    let flags = v.layer_flags(p, k as nat);
    assert(flags.len() == v.nodes.len());
    lemma_true_indices_bounds(flags);
    let pos = choose|q: int| 0 <= q < v.layers(p)[k].len() && v.layers(p)[k][q] == x;
    assert(true_indices(flags)[pos] == x);
}

/// In a pipeline without cycles every node of the pipeline is listed in exactly one layer.
pub proof fn law_layers_hold_every_node_once(v: EngineView, p: int, rank: spec_fn(int) -> nat, i: int)
    requires
        v.wf(),
        v.nodes.len() < usize::MAX,
        ranked(v, p, rank),
        0 <= i < v.nodes.len(),
        v.nodes[i].pipeline == p,
    ensures
        exists|k: int| 0 <= k < v.layers(p).len() && #[trigger] v.layers(p)[k].contains(i as usize),
        forall|k1: int, k2: int|
            0 <= k1 < v.layers(p).len() && 0 <= k2 < v.layers(p).len() && #[trigger] v.layers(p)[k1].contains(i as usize)
                && #[trigger] v.layers(p)[k2].contains(i as usize) ==> k1 == k2,
{
    lemma_shaped(v);
    let n = v.nodes.len();
    lemma_placed_by_rank(v, p, rank, i);
    let m = lemma_placed_layer(v, p, rank(i), i);
    assert(m < n);
    assert forall|c: nat| c <= m implies true_indices(#[trigger] v.layer_flags(p, 0 + c)).len() > 0 by {
        lemma_layers_nonempty(v, p, m, i, c);
    }
    lemma_layers_from_len(v, p, 0, (n + 1) as nat, m);
    lemma_layers_from_index(v, p, 0, (n + 1) as nat, m as int);
    lemma_true_indices_contains(v.layer_flags(p, m), i);
    assert(v.layers(p)[m as int].contains(i as usize));
    assert forall|k1: int, k2: int|
        0 <= k1 < v.layers(p).len() && 0 <= k2 < v.layers(p).len() && #[trigger] v.layers(p)[k1].contains(i as usize)
            && #[trigger] v.layers(p)[k2].contains(i as usize) implies k1 == k2 by {
        lemma_listed_in_layer(v, p, k1, i as usize);
        lemma_listed_in_layer(v, p, k2, i as usize);
        if k1 < k2 {
            lemma_placed_layer(v, p, k1 as nat, i);
            lemma_placed_mono(v, p, k1 as nat, (k2 - 1) as nat, i);
        } else if k2 < k1 {
            lemma_placed_layer(v, p, k2 as nat, i);
            lemma_placed_mono(v, p, k2 as nat, (k1 - 1) as nat, i);
        }
    }
}

// ----- cancelling, and which pipelines a project shows -----

/// Each entry logged for a selection names a selected node, with the given state and reason.
proof fn lemma_log_for_selected(sel: Seq<bool>, to: NodeStatus, reason: TransitionReason)
    requires
        sel.len() <= usize::MAX,
    ensures
        forall|k: int|
            0 <= k < log_for(sel, to, reason).len() ==> {
                let e = #[trigger] log_for(sel, to, reason)[k];
                &&& e.node_id < sel.len()
                &&& sel[e.node_id as int]
                &&& e.to_state == to
                &&& e.reason == reason
            },
{
    lemma_true_indices_bounds(sel);
}

/// Cancelling pipeline `p` cancels every node of `p` that has not finished, keeps every
/// finished node finished, leaves the nodes of other pipelines and the other pipelines as they
/// were, marks `p` cancelled, and logs one cancellation for each node it cancelled.
pub proof fn law_cancel_spares_finished_nodes(v: EngineView, p: int)
    requires
        v.wf(),
        v.nodes.len() <= usize::MAX,
        0 <= p < v.pipelines.len(),
    ensures
        ({
            let c = v.cancelled(p);
            &&& c.nodes == v.nodes
            &&& c.edges == v.edges
            &&& c.node_states.len() == v.node_states.len()
            &&& forall|i: int|
                0 <= i < v.nodes.len() && v.node_states[i] == NodeStatus::Finished ==> #[trigger] c.node_states[i]
                    == NodeStatus::Finished
            &&& forall|i: int|
                0 <= i < v.nodes.len() && v.nodes[i].pipeline == p && v.node_states[i] != NodeStatus::Finished
                    ==> #[trigger] c.node_states[i] == NodeStatus::Cancelled
            &&& forall|i: int| 0 <= i < v.nodes.len() && v.nodes[i].pipeline != p ==> #[trigger] c.node_states[i] == v.node_states[i]
            &&& c.pipeline_states.len() == v.pipeline_states.len()
            &&& c.pipeline_states[p] == PipelineStatus::Cancelled
            &&& forall|q: int| 0 <= q < v.pipelines.len() && q != p ==> #[trigger] c.pipeline_states[q] == v.pipeline_states[q]
            &&& c.events.len() >= v.events.len()
            &&& forall|k: int| 0 <= k < v.events.len() ==> #[trigger] c.events[k] == v.events[k]
            &&& forall|k: int|
                v.events.len() <= k < c.events.len() ==> {
                    let e = #[trigger] c.events[k];
                    &&& e.to_state == NodeStatus::Cancelled
                    &&& e.reason == TransitionReason::Cancel
                    &&& e.node_id < v.nodes.len()
                    &&& v.nodes[e.node_id as int].pipeline == p
                    &&& v.node_states[e.node_id as int] != NodeStatus::Finished
                }
        }),
{
    let c = v.cancelled(p);
    let sel = Seq::new(v.nodes.len(), |i: int| v.cancel_selects(p, i));
    let log = log_for(sel, NodeStatus::Cancelled, TransitionReason::Cancel);
    assert(c.events == v.events + log);
    lemma_log_for_selected(sel, NodeStatus::Cancelled, TransitionReason::Cancel);
    assert forall|k: int| v.events.len() <= k < c.events.len() implies {
        let e = #[trigger] c.events[k];
        &&& e.to_state == NodeStatus::Cancelled
        &&& e.reason == TransitionReason::Cancel
        &&& e.node_id < v.nodes.len()
        &&& v.nodes[e.node_id as int].pipeline == p
        &&& v.node_states[e.node_id as int] != NodeStatus::Finished
    } by {
        let e = log[k - v.events.len()];
        assert(c.events[k] == e);
        assert(sel[e.node_id as int]);
    }
}

/// A project shows exactly its pipelines that are active or unwinding, in increasing order: a
/// pipeline is listed if and only if it belongs to the project and is active or unwinding.
pub proof fn law_active_pipelines_are_active_or_unwinding(v: EngineView, project: Seq<char>)
    requires
        v.pipelines.len() <= usize::MAX,
    ensures
        forall|p: int|
            0 <= p < v.pipelines.len() ==> (#[trigger] v.active_pipeline_ids(project).contains(p as usize) <==> (
            v.pipelines[p].project == project && (v.pipeline_states[p] == PipelineStatus::Active || v.pipeline_states[p]
                == PipelineStatus::Unwinding))),
        forall|k: int|
            0 <= k < v.active_pipeline_ids(project).len() ==> #[trigger] v.active_pipeline_ids(project)[k] < v.pipelines.len(),
        forall|k1: int, k2: int|
            0 <= k1 < k2 < v.active_pipeline_ids(project).len() ==> #[trigger] v.active_pipeline_ids(project)[k1]
                < #[trigger] v.active_pipeline_ids(project)[k2],
{
    let sel = Seq::new(
        v.pipelines.len(),
        |q: int| v.pipelines[q].project == project && EngineView::in_flight(v.pipeline_states[q]),
    );
    lemma_true_indices_bounds(sel);
    assert forall|p: int| 0 <= p < v.pipelines.len() implies (#[trigger] v.active_pipeline_ids(project).contains(p as usize)
        <==> (v.pipelines[p].project == project && (v.pipeline_states[p] == PipelineStatus::Active || v.pipeline_states[p]
        == PipelineStatus::Unwinding))) by {
        lemma_true_indices_contains(sel, p);
    }
}

} // verus!
