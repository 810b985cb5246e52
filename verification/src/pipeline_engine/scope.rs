//! Which nodes an unwinding pipeline rolls back, and which it leaves alone.
//!
//! Each scope is the least set that holds a starting set of nodes and is closed under one rule
//! for adding neighbours. It is computed in rounds, one round per node of the engine: a round
//! that adds nothing leaves the set unchanged, so the rounds reach the least closed set.
use vstd::prelude::*;
use super::model::{true_indices, EngineView, NodeStatus, PipelineStatus, TransitionReason, JobStatus, not_started};

verus! {

impl EngineView {
    /// Some successor of `i`, in its pipeline, has done work.
    pub open spec fn has_started_succ(self, i: int) -> bool {
        exists|e: int|
            0 <= e < self.edges.len() && #[trigger] self.edges[e].0 == i && self.nodes[self.edges[e].1 as int].pipeline
                == self.nodes[i].pipeline && !not_started(self.node_states[self.edges[e].1 as int])
    }

    /// `i` did work and none of its successors did: where unwinding starts.
    pub open spec fn unwind_frontier(self, i: int) -> bool {
        !not_started(self.node_states[i]) && !self.has_started_succ(i)
    }

    // ----- the nodes cancelled when pipeline `p` starts unwinding -----
    pub open spec fn back_base(self, p: int) -> Seq<bool> {
        Seq::new(self.nodes.len(), |i: int| self.nodes[i].pipeline == p && self.unwind_frontier(i))
    }

    /// `j` is a predecessor, in `p` and not an unwind boundary, of a node in `set`.
    pub open spec fn back_adds(self, p: int, set: Seq<bool>, j: int) -> bool {
        exists|e: int|
            0 <= e < self.edges.len() && #[trigger] self.edges[e].0 == j && set[self.edges[e].1 as int]
                && !self.nodes[j].boundary && self.nodes[j].pipeline == p
    }

    pub open spec fn back_scope(self, p: int, k: nat) -> Seq<bool>
        decreases k,
    {
        if k == 0 {
            self.back_base(p)
        } else {
            let prev = self.back_scope(p, (k - 1) as nat);
            Seq::new(self.nodes.len(), |i: int| prev[i] || self.back_adds(p, prev, i))
        }
    }

    /// `j` is a successor, in `p`, of a node in `set`.
    pub open spec fn fwd_adds(self, p: int, set: Seq<bool>, j: int) -> bool {
        exists|e: int|
            0 <= e < self.edges.len() && #[trigger] self.edges[e].1 == j && set[self.edges[e].0 as int]
                && self.nodes[j].pipeline == p
    }

    pub open spec fn cascade(self, p: int, k: nat) -> Seq<bool>
        decreases k,
    {
        if k == 0 {
            self.back_scope(p, self.nodes.len())
        } else {
            let prev = self.cascade(p, (k - 1) as nat);
            Seq::new(self.nodes.len(), |i: int| prev[i] || self.fwd_adds(p, prev, i))
        }
    }

    /// The backward scope from the frontier of `p` (through non-boundary predecessors), then
    /// everything downstream of it.
    pub open spec fn cancel_scope(self, p: int) -> Seq<bool> {
        self.cascade(p, self.nodes.len())
    }

    // ----- the nodes an unwinding pipeline rolls back -----
    /// A newer revision already finished work on the resource that `j` mutates.
    pub open spec fn superseded(self, j: int) -> bool {
        exists|m: int|
            0 <= m < self.nodes.len() && #[trigger] self.same_key(m, j) && self.node_states[m] == NodeStatus::Finished
                && self.revision_of(m) > self.revision_of(j)
    }

    pub open spec fn unwind_base(self) -> Seq<bool> {
        Seq::new(
            self.nodes.len(),
            |i: int| self.pipeline_states[self.pipeline_of(i)] == PipelineStatus::Unwinding && self.unwind_frontier(i),
        )
    }

    /// `j` is a predecessor of a node in `set`, in the same pipeline, not an unwind boundary,
    /// and not superseded by a newer revision.
    pub open spec fn unwind_adds(self, set: Seq<bool>, j: int) -> bool {
        exists|e: int|
            0 <= e < self.edges.len() && #[trigger] self.edges[e].0 == j && set[self.edges[e].1 as int]
                && !self.nodes[j].boundary && self.nodes[j].pipeline == self.nodes[self.edges[e].1 as int].pipeline
                && !self.superseded(j)
    }

    pub open spec fn unwind_scope_k(self, k: nat) -> Seq<bool>
        decreases k,
    {
        if k == 0 {
            self.unwind_base()
        } else {
            let prev = self.unwind_scope_k((k - 1) as nat);
            Seq::new(self.nodes.len(), |i: int| prev[i] || self.unwind_adds(prev, i))
        }
    }

    pub open spec fn unwind_scope(self) -> Seq<bool> {
        self.unwind_scope_k(self.nodes.len())
    }

    /// Ready to be unwound: in scope, finished or failed, and every successor in scope already
    /// unwound or cancelled.
    pub open spec fn unwind_eligible(self, i: int) -> bool {
        &&& self.unwind_scope()[i]
        &&& self.node_states[i] == NodeStatus::Finished || self.node_states[i] == NodeStatus::Failed
        &&& !exists|e: int|
            0 <= e < self.edges.len() && #[trigger] self.edges[e].0 == i && self.unwind_scope()[self.edges[e].1 as int]
                && !(self.node_states[self.edges[e].1 as int] == NodeStatus::Unwound
                || self.node_states[self.edges[e].1 as int] == NodeStatus::Cancelled)
    }

    pub open spec fn unwind_eligible_flags(self) -> Seq<bool> {
        Seq::new(self.nodes.len(), |i: int| self.unwind_eligible(i))
    }

    /// The newest older revision that finished work on the resource of `i`, looking at nodes
    /// below `k`.
    pub open spec fn restore_below(self, i: int, k: nat) -> Option<usize>
        decreases k,
    {
        if k == 0 {
            None
        } else {
            let prev = self.restore_below(i, (k - 1) as nat);
            let m = k - 1;
            if self.same_key(m, i) && self.node_states[m] == NodeStatus::Finished && self.revision_of(m) < self.revision_of(i) {
                match prev {
                    None => Some(self.revision_of(m) as usize),
                    Some(r) => if self.revision_of(m) > r { Some(self.revision_of(m) as usize) } else { Some(r) },
                }
            } else {
                prev
            }
        }
    }

    /// The revision an unwind of `i` restores: the newest older revision that finished work on
    /// its resource, or `None` when there is none (or `i` mutates no resource).
    pub open spec fn restore_revision(self, i: int) -> Option<usize> {
        self.restore_below(i, self.nodes.len())
    }
}

impl EngineView {
    /// `p` is active and one of its nodes that unwinds on failure has failed.
    pub open spec fn triggers_unwind(self, p: int) -> bool {
        &&& self.pipeline_states[p] == PipelineStatus::Active
        &&& exists|i: int|
            0 <= i < self.nodes.len() && #[trigger] self.nodes[i].pipeline == p && self.node_states[i] == NodeStatus::Failed
                && self.nodes[i].unwind_on_failure
    }

    pub open spec fn scope_cancel_selects(self, i: int) -> bool {
        &&& self.triggers_unwind(self.pipeline_of(i))
        &&& self.cancel_scope(self.pipeline_of(i))[i]
        &&& self.node_states[i] == NodeStatus::Pending || self.node_states[i] == NodeStatus::Executable
    }

    /// Every pipeline that triggers an unwind starts unwinding, and the pending and executable
    /// nodes of its cancel scope are cancelled.
    pub open spec fn unwind_triggered(self) -> EngineView {
        let moved = self.move_nodes(
            Seq::new(self.nodes.len(), |i: int| self.scope_cancel_selects(i)),
            NodeStatus::Cancelled,
            TransitionReason::UnwindScopeCancel,
        );
        EngineView {
            pipeline_states: Seq::new(
                self.pipelines.len(),
                |p: int| if self.triggers_unwind(p) { PipelineStatus::Unwinding } else { self.pipeline_states[p] },
            ),
            ..moved
        }
    }

    pub open spec fn has_in_progress(self, p: int) -> bool {
        exists|i: int| 0 <= i < self.nodes.len() && #[trigger] self.nodes[i].pipeline == p && self.node_states[i] == NodeStatus::InProgress
    }

    pub open spec fn any_unwind_eligible(self) -> bool {
        exists|i: int| 0 <= i < self.nodes.len() && #[trigger] self.unwind_eligible(i)
    }

    /// When nothing is left to unwind anywhere, every unwinding pipeline with no node in
    /// progress is unwound.
    pub open spec fn unwinding_completed(self) -> EngineView {
        if self.any_unwind_eligible() {
            self
        } else {
            EngineView {
                pipeline_states: Seq::new(
                    self.pipelines.len(),
                    |p: int|
                        if self.pipeline_states[p] == PipelineStatus::Unwinding && !self.has_in_progress(p) {
                            PipelineStatus::Unwound
                        } else {
                            self.pipeline_states[p]
                        },
                ),
                ..self
            }
        }
    }

    /// New running jobs, one per node of `ids`, last heard from at `now`.
    pub open spec fn with_jobs(self, ids: Seq<usize>, now: u64) -> EngineView {
        EngineView {
            job_nodes: self.job_nodes + ids,
            job_states: self.job_states + Seq::new(ids.len(), |k: int| JobStatus::Running),
            job_errors: self.job_errors + Seq::new(ids.len(), |k: int| None::<Seq<char>>),
            heartbeats: self.heartbeats + Seq::new(ids.len(), |k: int| now),
            ..self
        }
    }

    /// The state in which a tick claims work: stale jobs released, pending nodes promoted,
    /// unwinds triggered and finished unwinds completed.
    pub open spec fn tick_prepared(self, now: u64, stale_error: Seq<char>) -> EngineView {
        self.released(now, stale_error).promoted().unwind_triggered().unwinding_completed()
    }

    /// The nodes a tick dispatches forward, then those it dispatches to unwind.
    pub open spec fn tick_claims(self) -> (Seq<usize>, Seq<usize>) {
        (self.runnable_ids(), true_indices(self.unwind_eligible_flags()))
    }

    /// The state after a tick at `now`: in the prepared state, the runnable nodes and the
    /// nodes ready to unwind are all claimed (in progress), each with a new running job.
    pub open spec fn ticked(self, now: u64, stale_error: Seq<char>) -> EngineView {
        let v = self.tick_prepared(now, stale_error);
        let (f, u) = v.tick_claims();
        let w = v.move_nodes(Seq::new(v.nodes.len(), |i: int| v.is_runnable(i)), NodeStatus::InProgress, TransitionReason::Claim)
            .move_nodes(v.unwind_eligible_flags(), NodeStatus::InProgress, TransitionReason::ClaimUnwind);
        w.with_jobs(f + u, now)
    }
}

} // verus!
