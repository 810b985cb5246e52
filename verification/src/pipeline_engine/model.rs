//! The mathematical model of the engine's state and the rules each operation follows.
use vstd::prelude::*;

verus! {

/// The lifecycle state of a node.
#[derive(Debug, Clone, Copy, PartialEq, Eq, Structural)]
pub enum NodeStatus {
    Pending,
    Executable,
    InProgress,
    Finished,
    Failed,
    Cancelled,
    Unwound,
    UnwindFailed,
}

/// The lifecycle state of a pipeline.
#[derive(Debug, Clone, Copy, PartialEq, Eq, Structural)]
pub enum PipelineStatus {
    Active,
    Unwinding,
    Finished,
    Unwound,
    Cancelled,
}

/// The state of one attempt at running a node.
#[derive(Debug, Clone, Copy, PartialEq, Eq, Structural)]
pub enum JobStatus {
    Running,
    Succeeded,
    Failed,
}

/// Why a node changed state, as recorded in the event log.
#[derive(Debug, Clone, Copy, PartialEq, Eq, Structural)]
pub enum TransitionReason {
    Seal,
    Promote,
    Claim,
    ClaimUnwind,
    /// The job with this id succeeded.
    Succeed(usize),
    /// The job with this id failed.
    Fail(usize),
    Retry,
    Cancel,
    ReleaseStale,
    UnwindScopeCancel,
}

/// One entry of the node event log.
#[derive(Debug, Clone, Copy, PartialEq, Eq, Structural)]
pub struct NodeEvent {
    pub node_id: usize,
    pub to_state: NodeStatus,
    pub reason: TransitionReason,
}

/// What the engine keeps of a node besides its state.
pub struct NodeInfoView {
    pub pipeline: usize,
    pub event: Seq<char>,
    pub key: Option<Seq<char>>,
    pub boundary: bool,
    pub unwind_on_failure: bool,
}

/// What the engine keeps of a pipeline besides its state.
pub struct PipelineInfoView {
    pub project: Seq<char>,
    pub revision: usize,
}

/// The whole engine as mathematical sequences; every id is an index into them.
///
/// Revisions are numbered in creation order, so a smaller revision id is an older revision.
pub struct EngineView {
    pub revisions: Seq<Seq<char>>,
    pub pipelines: Seq<PipelineInfoView>,
    pub pipeline_states: Seq<PipelineStatus>,
    pub nodes: Seq<NodeInfoView>,
    pub node_states: Seq<NodeStatus>,
    pub edges: Seq<(usize, usize)>,
    pub job_nodes: Seq<usize>,
    pub job_states: Seq<JobStatus>,
    pub job_errors: Seq<Option<Seq<char>>>,
    pub heartbeats: Seq<u64>,
    pub events: Seq<NodeEvent>,
}

/// The positions of `sel` that hold `true`, in increasing order.
pub open spec fn true_indices(sel: Seq<bool>) -> Seq<usize>
    decreases sel.len(),
{
    if sel.len() == 0 {
        Seq::empty()
    } else {
        let prev = true_indices(sel.drop_last());
        if sel.last() {
            prev.push((sel.len() - 1) as usize)
        } else {
            prev
        }
    }
}

pub proof fn lemma_true_indices_push(sel: Seq<bool>, b: bool)
    ensures
        true_indices(sel.push(b)) == (if b { true_indices(sel).push(sel.len() as usize) } else { true_indices(sel) }),
{
    assert(sel.push(b).drop_last() =~= sel);
}

pub proof fn lemma_true_indices_bounds(sel: Seq<bool>)
    requires
        sel.len() <= usize::MAX,
    ensures
        forall|k: int| 0 <= k < true_indices(sel).len() ==> #[trigger] true_indices(sel)[k] < sel.len()
            && sel[true_indices(sel)[k] as int],
        forall|k1: int, k2: int| 0 <= k1 < k2 < true_indices(sel).len() ==> #[trigger] true_indices(sel)[k1] < #[trigger] true_indices(sel)[k2],
        true_indices(sel).len() <= sel.len(),
    decreases sel.len(),
{
    if sel.len() > 0 {
        lemma_true_indices_bounds(sel.drop_last());
    }
}

/// `i` is listed exactly when `sel[i]` holds.
pub proof fn lemma_true_indices_contains(sel: Seq<bool>, i: int)
    requires
        0 <= i < sel.len(),
        sel.len() <= usize::MAX,
    ensures
        true_indices(sel).contains(i as usize) == sel[i],
    decreases sel.len(),
{
    let n = sel.len();
    let prev = true_indices(sel.drop_last());
    lemma_true_indices_bounds(sel);
    lemma_true_indices_bounds(sel.drop_last());
    if i < n - 1 {
        lemma_true_indices_contains(sel.drop_last(), i);
        if sel.last() {
            if prev.contains(i as usize) {
                let k = choose|k: int| 0 <= k < prev.len() && prev[k] == i as usize;
                assert(prev.push((n - 1) as usize)[k] == i as usize);
            }
            if true_indices(sel).contains(i as usize) {
                let k = choose|k: int| 0 <= k < true_indices(sel).len() && true_indices(sel)[k] == i as usize;
                if k < prev.len() {
                    assert(prev[k] == i as usize);
                }
            }
        }
    } else {
        if sel.last() {
            assert(true_indices(sel)[prev.len() as int] == i as usize);
        } else {
            if true_indices(sel).contains(i as usize) {
                let k = choose|k: int| 0 <= k < prev.len() && prev[k] == i as usize;
            }
        }
    }
}

/// The log entries written when the selected nodes move to `to`.
pub open spec fn log_for(sel: Seq<bool>, to: NodeStatus, reason: TransitionReason) -> Seq<NodeEvent> {
    true_indices(sel).map_values(|i: usize| NodeEvent { node_id: i, to_state: to, reason })
}

/// `states` with every selected position set to `to`.
pub open spec fn set_where<T>(states: Seq<T>, sel: Seq<bool>, to: T) -> Seq<T> {
    Seq::new(states.len(), |i: int| if sel[i] { to } else { states[i] })
}

/// A predecessor in this state lets its successors run forward.
pub open spec fn done_forward(s: NodeStatus) -> bool {
    s == NodeStatus::Finished || s == NodeStatus::Cancelled
}

/// A node in this state no longer holds its resource for newer revisions.
pub open spec fn fifo_terminal(s: NodeStatus) -> bool {
    s == NodeStatus::Finished || s == NodeStatus::Cancelled || s == NodeStatus::Unwound || s
        == NodeStatus::UnwindFailed
}

/// A node in this state has not done any work.
pub open spec fn not_started(s: NodeStatus) -> bool {
    s == NodeStatus::Pending || s == NodeStatus::Executable || s == NodeStatus::Cancelled
}

impl EngineView {
    pub open spec fn pipeline_of(self, i: int) -> int {
        self.nodes[i].pipeline as int
    }

    pub open spec fn revision_of(self, i: int) -> int {
        self.pipelines[self.pipeline_of(i)].revision as int
    }

    /// The structural rules every state of the engine keeps.
    pub open spec fn wf(self) -> bool {
        &&& self.pipelines.len() == self.pipeline_states.len()
        &&& self.nodes.len() == self.node_states.len()
        &&& self.job_nodes.len() == self.job_states.len()
        &&& self.job_nodes.len() == self.job_errors.len()
        &&& self.job_nodes.len() == self.heartbeats.len()
        &&& forall|p: int| 0 <= p < self.pipelines.len() ==> #[trigger] self.pipelines[p].revision < self.revisions.len()
        &&& forall|i: int| 0 <= i < self.nodes.len() ==> #[trigger] self.nodes[i].pipeline < self.pipelines.len()
        &&& forall|e: int| 0 <= e < self.edges.len() ==> {
            let (a, b) = #[trigger] self.edges[e];
            &&& a < self.nodes.len()
            &&& b < self.nodes.len()
            &&& self.nodes[a as int].pipeline == self.nodes[b as int].pipeline
        }
        &&& forall|j: int| 0 <= j < self.job_nodes.len() ==> #[trigger] self.job_nodes[j] < self.nodes.len()
        &&& self.jobs_consistent()
        &&& forall|k: int| 0 <= k < self.events.len() ==> #[trigger] self.events[k].node_id < self.nodes.len()
    }

    /// A running job always belongs to a node in progress (or one cancelled under it), and no
    /// node has two running jobs.
    pub open spec fn jobs_consistent(self) -> bool {
        &&& forall|j: int|
            0 <= j < self.job_nodes.len() && self.job_states[j] == JobStatus::Running ==> {
                let s = #[trigger] self.node_states[self.job_nodes[j] as int];
                s == NodeStatus::InProgress || s == NodeStatus::Cancelled
            }
        &&& forall|j1: int, j2: int|
            0 <= j1 < self.job_nodes.len() && 0 <= j2 < self.job_nodes.len() && j1 != j2
                && #[trigger] self.job_states[j1] == JobStatus::Running && #[trigger] self.job_states[j2]
                == JobStatus::Running ==> self.job_nodes[j1] != self.job_nodes[j2]
    }

    /// Every edge into `i` comes from a finished or cancelled node.
    pub open spec fn preds_done(self, i: int) -> bool {
        forall|e: int|
            0 <= e < self.edges.len() && #[trigger] self.edges[e].1 == i ==> done_forward(
                self.node_states[self.edges[e].0 as int],
            )
    }

    /// No edge leads into `i`.
    pub open spec fn is_root(self, i: int) -> bool {
        forall|e: int| 0 <= e < self.edges.len() ==> #[trigger] self.edges[e].1 != i
    }

    /// Both nodes mutate a resource, and it is the same resource.
    pub open spec fn same_key(self, i: int, j: int) -> bool {
        &&& self.nodes[i].key is Some
        &&& self.nodes[j].key is Some
        &&& self.nodes[i].key->0 == self.nodes[j].key->0
    }

    /// Node `j`, of an older revision, still holds the resource that `i` mutates.
    pub open spec fn blocks(self, j: int, i: int) -> bool {
        &&& self.same_key(j, i)
        &&& self.revision_of(j) < self.revision_of(i)
        &&& !fifo_terminal(self.node_states[j])
    }

    pub open spec fn fifo_blocked(self, i: int) -> bool {
        exists|j: int| 0 <= j < self.nodes.len() && #[trigger] self.blocks(j, i)
    }

    /// Ready to be dispatched forward: executable, in an active pipeline, every predecessor
    /// done, and no older revision holding its resource.
    pub open spec fn is_runnable(self, i: int) -> bool {
        &&& self.node_states[i] == NodeStatus::Executable
        &&& self.pipeline_states[self.pipeline_of(i)] == PipelineStatus::Active
        &&& self.preds_done(i)
        &&& !self.fifo_blocked(i)
    }

    pub open spec fn runnable_ids(self) -> Seq<usize> {
        true_indices(Seq::new(self.nodes.len(), |i: int| self.is_runnable(i)))
    }

    /// Moves the selected nodes to `to` and logs each move with `reason`.
    pub open spec fn move_nodes(self, sel: Seq<bool>, to: NodeStatus, reason: TransitionReason) -> EngineView {
        EngineView {
            node_states: set_where(self.node_states, sel, to),
            events: self.events + log_for(sel, to, reason),
            ..self
        }
    }

    // ----- seal -----
    pub open spec fn seal_selects(self, p: int, i: int) -> bool {
        &&& self.nodes[i].pipeline == p
        &&& self.node_states[i] == NodeStatus::Pending
        &&& self.is_root(i)
    }

    /// Roots of pipeline `p` that are pending become executable.
    pub open spec fn sealed(self, p: int) -> EngineView {
        self.move_nodes(Seq::new(self.nodes.len(), |i: int| self.seal_selects(p, i)), NodeStatus::Executable, TransitionReason::Seal)
    }

    // ----- stale heartbeats -----
    pub open spec fn job_stale(self, j: int, now: u64) -> bool {
        self.job_states[j] == JobStatus::Running && self.heartbeats[j] + 60 < now
    }

    pub open spec fn release_selects(self, i: int, now: u64) -> bool {
        &&& self.node_states[i] == NodeStatus::InProgress
        &&& exists|j: int| 0 <= j < self.job_nodes.len() && self.job_nodes[j] == i && #[trigger] self.job_stale(j, now)
    }

    /// In-progress nodes whose running job missed its heartbeat for over 60 seconds become
    /// executable again; every such job fails with the error "stale heartbeat".
    pub open spec fn released(self, now: u64, stale_error: Seq<char>) -> EngineView {
        let moved = self.move_nodes(Seq::new(self.nodes.len(), |i: int| self.release_selects(i, now)), NodeStatus::Executable, TransitionReason::ReleaseStale);
        EngineView {
            job_states: set_where(self.job_states, Seq::new(self.job_nodes.len(), |j: int| self.job_stale(j, now)), JobStatus::Failed),
            job_errors: set_where(self.job_errors, Seq::new(self.job_nodes.len(), |j: int| self.job_stale(j, now)), Some(stale_error)),
            ..moved
        }
    }

    // ----- promotion -----
    pub open spec fn promote_selects(self, i: int) -> bool {
        self.node_states[i] == NodeStatus::Pending && self.preds_done(i)
    }

    /// Pending nodes whose predecessors are all finished or cancelled become executable.
    pub open spec fn promoted(self) -> EngineView {
        self.move_nodes(Seq::new(self.nodes.len(), |i: int| self.promote_selects(i)), NodeStatus::Executable, TransitionReason::Promote)
    }

    // ----- cancel -----
    pub open spec fn cancel_selects(self, p: int, i: int) -> bool {
        self.nodes[i].pipeline == p && self.node_states[i] != NodeStatus::Finished
    }

    /// Every node of `p` that is not finished becomes cancelled, and so does `p`.
    pub open spec fn cancelled(self, p: int) -> EngineView {
        let moved = self.move_nodes(Seq::new(self.nodes.len(), |i: int| self.cancel_selects(p, i)), NodeStatus::Cancelled, TransitionReason::Cancel);
        EngineView {
            pipeline_states: self.pipeline_states.update(p, PipelineStatus::Cancelled),
            ..moved
        }
    }

    // ----- retry -----
    /// Retrying node `i`: a failed node becomes executable again and an unwind-failed node
    /// becomes finished (so that unwinding picks it up again); other states cannot be retried.
    pub open spec fn retry_target(s: NodeStatus) -> Option<NodeStatus> {
        match s {
            NodeStatus::Failed => Some(NodeStatus::Executable),
            NodeStatus::UnwindFailed => Some(NodeStatus::Finished),
            _ => None,
        }
    }

    pub open spec fn retried(self, i: int, to: NodeStatus) -> EngineView {
        EngineView {
            node_states: self.node_states.update(i, to),
            events: self.events.push(NodeEvent { node_id: i as usize, to_state: to, reason: TransitionReason::Retry }),
            ..self
        }
    }

    // ----- reading -----
    pub open spec fn pipeline_node_ids(self, p: int) -> Seq<usize> {
        true_indices(Seq::new(self.nodes.len(), |i: int| self.nodes[i].pipeline == p))
    }

    pub open spec fn pipeline_edge_ids(self, p: int) -> Seq<usize> {
        true_indices(Seq::new(self.edges.len(), |e: int| self.nodes[self.edges[e].0 as int].pipeline == p))
    }

    pub open spec fn pipeline_event_ids(self, p: int) -> Seq<usize> {
        true_indices(Seq::new(self.events.len(), |k: int| self.nodes[self.events[k].node_id as int].pipeline == p))
    }

    pub open spec fn in_flight(s: PipelineStatus) -> bool {
        s == PipelineStatus::Active || s == PipelineStatus::Unwinding
    }

    pub open spec fn active_pipeline_ids(self, project: Seq<char>) -> Seq<usize> {
        true_indices(Seq::new(
            self.pipelines.len(),
            |p: int| self.pipelines[p].project == project && Self::in_flight(self.pipeline_states[p]),
        ))
    }

    pub open spec fn finished_of(self, project: Seq<char>, p: int) -> bool {
        &&& 0 <= p < self.pipelines.len()
        &&& self.pipelines[p].project == project
        &&& self.pipeline_states[p] == PipelineStatus::Finished
    }

    /// The latest job of node `i` at or below index `k`, if any.
    pub open spec fn latest_job_below(self, i: int, k: nat) -> Option<usize>
        decreases k,
    {
        if k == 0 {
            None
        } else if self.job_nodes[k - 1] == i {
            Some((k - 1) as usize)
        } else {
            self.latest_job_below(i, (k - 1) as nat)
        }
    }

    pub open spec fn latest_job(self, i: int) -> Option<usize> {
        self.latest_job_below(i, self.job_nodes.len())
    }

    /// The latest job of node `i` below index `k` that recorded an error, if any.
    pub open spec fn latest_error_job_below(self, i: int, k: nat) -> Option<usize>
        decreases k,
    {
        if k == 0 {
            None
        } else if self.job_nodes[k - 1] == i && self.job_errors[k - 1] is Some {
            Some((k - 1) as usize)
        } else {
            self.latest_error_job_below(i, (k - 1) as nat)
        }
    }

    pub open spec fn latest_error_job(self, i: int) -> Option<usize> {
        self.latest_error_job_below(i, self.job_nodes.len())
    }

    // ----- job completion -----
    /// The job may be completed: a running job's node is in progress.
    pub open spec fn completable(self, j: int) -> bool {
        &&& 0 <= j < self.job_nodes.len()
        &&& self.job_states[j] == JobStatus::Running ==> self.node_states[self.job_nodes[j] as int]
            == NodeStatus::InProgress
    }

    pub open spec fn successor_of(self, i: int, k: int) -> bool {
        exists|e: int| 0 <= e < self.edges.len() && #[trigger] self.edges[e] == (i as usize, k as usize)
    }

    pub open spec fn promote_after_selects(self, i: int, k: int) -> bool {
        &&& self.node_states[k] == NodeStatus::Pending
        &&& self.successor_of(i, k)
        &&& self.preds_done(k)
    }

    pub open spec fn pipeline_all_done(self, p: int) -> bool {
        forall|k: int| 0 <= k < self.nodes.len() && #[trigger] self.nodes[k].pipeline == p ==> done_forward(
            self.node_states[k],
        )
    }

    /// Job `j` of node `i` succeeded: the node finishes (or is unwound, when its pipeline is
    /// unwinding); moving forward, the successors whose predecessors are now all done become
    /// executable, and the pipeline finishes once all its nodes are finished or cancelled.
    pub open spec fn succeeded(self, j: int) -> EngineView {
        let i = self.job_nodes[j] as int;
        let p = self.pipeline_of(i);
        let unwinding = self.pipeline_states[p] == PipelineStatus::Unwinding;
        let target = if unwinding { NodeStatus::Unwound } else { NodeStatus::Finished };
        let s1 = EngineView {
            job_states: self.job_states.update(j, JobStatus::Succeeded),
            node_states: self.node_states.update(i, target),
            events: self.events.push(NodeEvent { node_id: i as usize, to_state: target, reason: TransitionReason::Succeed(j as usize) }),
            ..self
        };
        if unwinding {
            s1
        } else {
            let s2 = s1.move_nodes(Seq::new(s1.nodes.len(), |k: int| s1.promote_after_selects(i, k)), NodeStatus::Executable, TransitionReason::Promote);
            if s2.pipeline_all_done(p) {
                EngineView { pipeline_states: s2.pipeline_states.update(p, PipelineStatus::Finished), ..s2 }
            } else {
                s2
            }
        }
    }

    /// Job `j` failed with `error`: its node fails (or its unwinding fails, when its pipeline
    /// is unwinding).
    pub open spec fn failed(self, j: int, error: Seq<char>) -> EngineView {
        let i = self.job_nodes[j] as int;
        let p = self.pipeline_of(i);
        let target = if self.pipeline_states[p] == PipelineStatus::Unwinding {
            NodeStatus::UnwindFailed
        } else {
            NodeStatus::Failed
        };
        EngineView {
            job_states: self.job_states.update(j, JobStatus::Failed),
            job_errors: self.job_errors.update(j, Some(error)),
            node_states: self.node_states.update(i, target),
            events: self.events.push(NodeEvent { node_id: i as usize, to_state: target, reason: TransitionReason::Fail(j as usize) }),
            ..self
        }
    }
}

/// Moving nodes keeps the engine well formed, as long as no node with a running job is moved
/// out of the states a running job allows.
pub proof fn lemma_move_wf(v: EngineView, sel: Seq<bool>, to: NodeStatus, reason: TransitionReason)
    requires
        v.wf(),
        sel.len() == v.nodes.len(),
        v.nodes.len() <= usize::MAX,
        to == NodeStatus::InProgress || to == NodeStatus::Cancelled || forall|i: int|
            0 <= i < sel.len() && #[trigger] sel[i] ==> v.node_states[i] != NodeStatus::InProgress
                && v.node_states[i] != NodeStatus::Cancelled,
    ensures
        v.move_nodes(sel, to, reason).wf(),
{
    let w = v.move_nodes(sel, to, reason);
    lemma_true_indices_bounds(sel);
    let log = log_for(sel, to, reason);
    assert forall|k: int| 0 <= k < w.events.len() implies #[trigger] w.events[k].node_id < w.nodes.len() by {
        if k >= v.events.len() {
            assert(w.events[k] == log[k - v.events.len()]);
        }
    }
    assert forall|j: int| 0 <= j < w.job_nodes.len() && w.job_states[j] == JobStatus::Running implies {
        let s = #[trigger] w.node_states[w.job_nodes[j] as int];
        s == NodeStatus::InProgress || s == NodeStatus::Cancelled
    } by {
        let k = v.job_nodes[j] as int;
        assert(v.node_states[k] == NodeStatus::InProgress || v.node_states[k] == NodeStatus::Cancelled);
    }
}

impl EngineView {
    // ----- layers -----
    /// All edges into `i` come from nodes in `set`.
    pub open spec fn preds_in(self, i: int, set: Seq<bool>) -> bool {
        forall|e: int| 0 <= e < self.edges.len() && #[trigger] self.edges[e].1 == i ==> set[self.edges[e].0 as int]
    }

    /// The nodes of `p` placed in the first `k + 1` layers: layer 0 holds the nodes with no
    /// incoming edge, and each later layer the nodes whose predecessors are all placed.
    pub open spec fn placed_upto(self, p: int, k: nat) -> Seq<bool>
        decreases k,
    {
        if k == 0 {
            Seq::new(self.nodes.len(), |i: int| self.nodes[i].pipeline == p && self.is_root(i))
        } else {
            let prev = self.placed_upto(p, (k - 1) as nat);
            Seq::new(self.nodes.len(), |i: int| prev[i] || (self.nodes[i].pipeline == p && self.preds_in(i, prev)))
        }
    }

    /// The nodes in layer `k`: placed in the first `k + 1` layers but not in the first `k`.
    pub open spec fn layer_flags(self, p: int, k: nat) -> Seq<bool> {
        if k == 0 {
            self.placed_upto(p, 0)
        } else {
            Seq::new(self.nodes.len(), |i: int| self.placed_upto(p, k)[i] && !self.placed_upto(p, (k - 1) as nat)[i])
        }
    }

    /// The layers from `k` on, up to the first empty one (looking at no more than `fuel`).
    pub open spec fn layers_from(self, p: int, k: nat, fuel: nat) -> Seq<Seq<usize>>
        decreases fuel,
    {
        if fuel == 0 || true_indices(self.layer_flags(p, k)).len() == 0 {
            Seq::empty()
        } else {
            seq![true_indices(self.layer_flags(p, k))] + self.layers_from(p, k + 1, (fuel - 1) as nat)
        }
    }

    /// The nodes of `p` by topological layer: layer 0 holds the roots, layer `k` the nodes whose
    /// longest path from a root has `k` edges. Nodes on a cycle are in no layer.
    pub open spec fn layers(self, p: int) -> Seq<Seq<usize>> {
        self.layers_from(p, 0, self.nodes.len() + 1)
    }

    // ----- blocking -----
    pub open spec fn pending_pred_flags(self, i: int) -> Seq<bool> {
        Seq::new(
            self.edges.len(),
            |e: int| self.edges[e].1 == i && !done_forward(self.node_states[self.edges[e].0 as int]),
        )
    }

    pub open spec fn pending_pred_edges(self, i: int) -> Seq<usize> {
        true_indices(self.pending_pred_flags(i))
    }

    pub open spec fn edge_sources(self, es: Seq<usize>) -> Seq<usize> {
        es.map_values(|e: usize| self.edges[e as int].0)
    }

    /// `j` is the first node that blocks `i` on its resource.
    pub open spec fn first_blocker(self, j: int, i: int) -> bool {
        &&& 0 <= j < self.nodes.len()
        &&& self.blocks(j, i)
        &&& forall|k: int| 0 <= k < j ==> !#[trigger] self.blocks(k, i)
    }
}

} // verus!
