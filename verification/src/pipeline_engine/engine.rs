//! The engine's state and its operations.
use vstd::prelude::*;
use super::model::{
    EngineView, NodeInfoView, PipelineInfoView, NodeStatus, PipelineStatus, JobStatus,
    TransitionReason, NodeEvent, true_indices, log_for, set_where, done_forward, fifo_terminal,
    not_started, lemma_true_indices_push, lemma_move_wf, lemma_true_indices_bounds, lemma_true_indices_contains,
};
use super::node::{NodeOptions, NodeSpec};
use super::laws::{active_nodes_ready, forward_started};

verus! {

pub open spec fn opt_text(o: Option<String>) -> Option<Seq<char>> {
    match o {
        Some(s) => Some(s@),
        None => None,
    }
}

pub struct PipelineRec {
    pub(crate) project_id: String,
    pub(crate) revision: usize,
}

impl PipelineRec {
    pub closed spec fn view(self) -> PipelineInfoView {
        PipelineInfoView { project: self.project_id@, revision: self.revision }
    }
}

pub struct NodeRec {
    pub(crate) pipeline: usize,
    pub(crate) event: String,
    pub(crate) key: Option<String>,
    pub(crate) boundary: bool,
    pub(crate) unwind_on_failure: bool,
}

impl NodeRec {
    pub closed spec fn view(self) -> NodeInfoView {
        NodeInfoView {
            pipeline: self.pipeline,
            event: self.event@,
            key: opt_text(self.key),
            boundary: self.boundary,
            unwind_on_failure: self.unwind_on_failure,
        }
    }
}

/// The deployment DAG engine. Every id it hands out is an index: revisions, pipelines, nodes,
/// edges and jobs are numbered in creation order.
pub struct PipelineEngine {
    pub(crate) revisions: Vec<String>,
    pub(crate) pipelines: Vec<PipelineRec>,
    pub(crate) pipeline_states: Vec<PipelineStatus>,
    pub(crate) nodes: Vec<NodeRec>,
    pub(crate) node_states: Vec<NodeStatus>,
    pub(crate) edges: Vec<(usize, usize)>,
    pub(crate) job_nodes: Vec<usize>,
    pub(crate) job_states: Vec<JobStatus>,
    pub(crate) job_errors: Vec<Option<String>>,
    pub(crate) heartbeats: Vec<u64>,
    pub(crate) events: Vec<NodeEvent>,
}

impl View for PipelineEngine {
    type V = EngineView;

    closed spec fn view(&self) -> EngineView {
        EngineView {
            revisions: self.revisions@.map_values(|s: String| s@),
            pipelines: self.pipelines@.map_values(|r: PipelineRec| r.view()),
            pipeline_states: self.pipeline_states@,
            nodes: self.nodes@.map_values(|r: NodeRec| r.view()),
            node_states: self.node_states@,
            edges: self.edges@,
            job_nodes: self.job_nodes@,
            job_states: self.job_states@,
            job_errors: self.job_errors@.map_values(|e: Option<String>| opt_text(e)),
            heartbeats: self.heartbeats@,
            events: self.events@,
        }
    }
}

impl PipelineEngine {
    /// The engine keeps its records in vectors, so their counts fit in `usize`.
    pub proof fn lemma_sizes(&self)
        ensures
            self@.revisions.len() <= usize::MAX,
            self@.pipelines.len() <= usize::MAX,
            self@.nodes.len() <= usize::MAX,
            self@.edges.len() <= usize::MAX,
            self@.job_nodes.len() <= usize::MAX,
            self@.events.len() <= usize::MAX,
    {
        assert(self.revisions.len() == self.revisions@.len());
        assert(self.pipelines.len() == self.pipelines@.len());
        assert(self.nodes.len() == self.nodes@.len());
        assert(self.edges.len() == self.edges@.len());
        assert(self.job_nodes.len() == self.job_nodes@.len());
        assert(self.events.len() == self.events@.len());
    }
}

/// Why the engine refused a request.
#[derive(Debug, Clone, Copy, PartialEq, Eq)]
pub enum EngineError {
    UnknownRevision,
    UnknownPipeline,
    UnknownNode,
    /// An edge must join two nodes of one pipeline.
    CrossPipelineEdge,
    /// Only failed and unwind-failed nodes can be retried; this is the node's state.
    CannotRetry(NodeStatus),
}

/// A node as the engine reports it.
#[derive(Debug)]
pub struct Node {
    pub node_id: usize,
    pub revision_id: usize,
    pub event: String,
    pub state: NodeStatus,
    pub resource_key: Option<String>,
}

pub struct NodeView {
    pub node_id: usize,
    pub revision_id: usize,
    pub event: Seq<char>,
    pub state: NodeStatus,
    pub resource_key: Option<Seq<char>>,
}

impl Node {
    pub open spec fn view(self) -> NodeView {
        NodeView {
            node_id: self.node_id,
            revision_id: self.revision_id,
            event: self.event@,
            state: self.state,
            resource_key: opt_text(self.resource_key),
        }
    }
}

impl EngineView {
    /// How the engine reports node `i`.
    pub open spec fn node_report(self, i: int) -> NodeView {
        NodeView {
            node_id: i as usize,
            revision_id: self.revision_of(i) as usize,
            event: self.nodes[i].event,
            state: self.node_states[i],
            resource_key: self.nodes[i].key,
        }
    }

    pub open spec fn edge_report(self, e: usize) -> Edge {
        Edge { edge_id: e, from_node_id: self.edges[e as int].0, to_node_id: self.edges[e as int].1 }
    }

    pub open spec fn edge_reports(self, ids: Seq<usize>) -> Seq<Edge> {
        ids.map_values(|e: usize| self.edge_report(e))
    }

    /// The nodes of `p` whose jobs recorded an error.
    pub open spec fn error_node_ids(self, p: int) -> Seq<usize> {
        true_indices(Seq::new(self.nodes.len(), |k: int| self.nodes[k].pipeline == p && self.latest_error_job(k) is Some))
    }

    pub open spec fn error_report(self, ids: Seq<usize>) -> Seq<(usize, Seq<char>)> {
        ids.map_values(|i: usize| (i, self.job_errors[self.latest_error_job(i as int)->0 as int]->0))
    }

    pub open spec fn reports(self, ids: Seq<usize>) -> Seq<NodeView> {
        ids.map_values(|i: usize| self.node_report(i as int))
    }
}

pub open spec fn node_views(v: Seq<Node>) -> Seq<NodeView> {
    v.map_values(|n: Node| n.view())
}

/// A pipeline as the engine reports it.
#[derive(Debug)]
pub struct Pipeline {
    pub pipeline_id: usize,
    pub project_id: String,
    pub revision_id: usize,
    pub state: PipelineStatus,
}

/// A directed edge: `from_node_id` must complete before `to_node_id` can run.
#[derive(Debug, Clone, Copy, PartialEq, Eq)]
pub struct Edge {
    pub edge_id: usize,
    pub from_node_id: usize,
    pub to_node_id: usize,
}

pub fn clone_text(s: &String) -> (r: String)
    ensures
        r@ == s@,
{
    s.clone()
}

pub fn clone_opt_text(s: &Option<String>) -> (r: Option<String>)
    ensures
        opt_text(r) == opt_text(*s),
{
    match s {
        Some(t) => Some(t.clone()),
        None => None,
    }
}

impl PipelineEngine {
    pub open spec fn wf(&self) -> bool {
        self@.wf()
    }

    /// An empty engine.
    pub fn new() -> (r: PipelineEngine)
        ensures
            r.wf(),
            r@.revisions.len() == 0,
            r@.pipelines.len() == 0,
            r@.nodes.len() == 0,
            r@.edges.len() == 0,
            r@.job_nodes.len() == 0,
            r@.events.len() == 0,
    {
        let r = PipelineEngine {
            revisions: Vec::new(),
            pipelines: Vec::new(),
            pipeline_states: Vec::new(),
            nodes: Vec::new(),
            node_states: Vec::new(),
            edges: Vec::new(),
            job_nodes: Vec::new(),
            job_states: Vec::new(),
            job_errors: Vec::new(),
            heartbeats: Vec::new(),
            events: Vec::new(),
        };
        r
    }
}

impl PipelineEngine {
    /// Registers a new revision of `project_id`; it is newer than every revision before it.
    pub fn create_revision(&mut self, project_id: &str) -> (r: usize)
        requires
            old(self).wf(),
        ensures
            final(self).wf(),
            r == old(self)@.revisions.len(),
            final(self)@ == (EngineView { revisions: old(self)@.revisions.push(project_id@), ..old(self)@ }),
    {
        let r = self.revisions.len();
        self.revisions.push(project_id.to_string());
        proof {
            assert(self@.revisions =~= old(self)@.revisions.push(project_id@));
            assert(self@ =~= (EngineView { revisions: old(self)@.revisions.push(project_id@), ..old(self)@ }));
        }
        r
    }

    /// Creates an active pipeline with no nodes for `project_id` at `revision_id`.
    pub fn create_pipeline(&mut self, project_id: &str, revision_id: usize) -> (r: Result<usize, EngineError>)
        requires
            old(self).wf(),
        ensures
            final(self).wf(),
            revision_id >= old(self)@.revisions.len() ==> r == Err::<usize, EngineError>(EngineError::UnknownRevision)
                && final(self)@ == old(self)@,
            revision_id < old(self)@.revisions.len() ==> r == Ok::<usize, EngineError>(old(self)@.pipelines.len() as usize)
                && final(self)@ == (EngineView {
                    pipelines: old(self)@.pipelines.push(PipelineInfoView { project: project_id@, revision: revision_id }),
                    pipeline_states: old(self)@.pipeline_states.push(PipelineStatus::Active),
                    ..old(self)@
                }),
    {
        if revision_id >= self.revisions.len() {
            return Err(EngineError::UnknownRevision);
        }
        let r = self.pipelines.len();
        let rec = PipelineRec { project_id: project_id.to_string(), revision: revision_id };
        self.pipelines.push(rec);
        self.pipeline_states.push(PipelineStatus::Active);
        proof {
            assert(self@.pipelines =~= old(self)@.pipelines.push(PipelineInfoView { project: project_id@, revision: revision_id }));
        }
        Ok(r)
    }

    /// Adds a pending node to pipeline `pipeline_id`. It is not dispatched until the pipeline is
    /// sealed and all its predecessors are done.
    pub fn add_node(&mut self, pipeline_id: usize, node: NodeSpec) -> (r: Result<usize, EngineError>)
        requires
            old(self).wf(),
        ensures
            final(self).wf(),
            pipeline_id >= old(self)@.pipelines.len() ==> r == Err::<usize, EngineError>(EngineError::UnknownPipeline)
                && final(self)@ == old(self)@,
            pipeline_id < old(self)@.pipelines.len() ==> r == Ok::<usize, EngineError>(old(self)@.nodes.len() as usize)
                && final(self)@ == (EngineView {
                    nodes: old(self)@.nodes.push(NodeInfoView {
                        pipeline: pipeline_id,
                        event: node.event@,
                        key: opt_text(node.mutates),
                        boundary: node.options.is_unwind_boundary,
                        unwind_on_failure: node.options.unwind_on_failure,
                    }),
                    node_states: old(self)@.node_states.push(NodeStatus::Pending),
                    ..old(self)@
                }),
    {
        if pipeline_id >= self.pipelines.len() {
            return Err(EngineError::UnknownPipeline);
        }
        let r = self.nodes.len();
        let ghost info = NodeInfoView {
            pipeline: pipeline_id,
            event: node.event@,
            key: opt_text(node.mutates),
            boundary: node.options.is_unwind_boundary,
            unwind_on_failure: node.options.unwind_on_failure,
        };
        let rec = NodeRec {
            pipeline: pipeline_id,
            event: node.event,
            key: node.mutates,
            boundary: node.options.is_unwind_boundary,
            unwind_on_failure: node.options.unwind_on_failure,
        };
        self.nodes.push(rec);
        self.node_states.push(NodeStatus::Pending);
        proof {
            assert(self@.nodes =~= old(self)@.nodes.push(info));
            assert(self@.node_states =~= old(self)@.node_states.push(NodeStatus::Pending));
            let v = self@;
            assert forall|e: int| 0 <= e < v.edges.len() implies {
                let (a, b) = #[trigger] v.edges[e];
                &&& a < v.nodes.len()
                &&& b < v.nodes.len()
                &&& v.nodes[a as int].pipeline == v.nodes[b as int].pipeline
            } by {
                let (a, b) = old(self)@.edges[e];
                assert(v.nodes[a as int] == old(self)@.nodes[a as int]);
                assert(v.nodes[b as int] == old(self)@.nodes[b as int]);
            }
        }
        Ok(r)
    }

    /// Adds the edge `from_node_id -> to_node_id`: `from` must be done before `to` can run.
    /// Both nodes must exist and belong to the same pipeline.
    pub fn add_edge(&mut self, from_node_id: usize, to_node_id: usize) -> (r: Result<usize, EngineError>)
        requires
            old(self).wf(),
        ensures
            final(self).wf(),
            !(from_node_id < old(self)@.nodes.len() && to_node_id < old(self)@.nodes.len()) ==>
                r == Err::<usize, EngineError>(EngineError::UnknownNode) && final(self)@ == old(self)@,
            from_node_id < old(self)@.nodes.len() && to_node_id < old(self)@.nodes.len()
                && old(self)@.nodes[from_node_id as int].pipeline != old(self)@.nodes[to_node_id as int].pipeline ==>
                r == Err::<usize, EngineError>(EngineError::CrossPipelineEdge) && final(self)@ == old(self)@,
            from_node_id < old(self)@.nodes.len() && to_node_id < old(self)@.nodes.len()
                && old(self)@.nodes[from_node_id as int].pipeline == old(self)@.nodes[to_node_id as int].pipeline ==>
                r == Ok::<usize, EngineError>(old(self)@.edges.len() as usize)
                && final(self)@ == (EngineView { edges: old(self)@.edges.push((from_node_id, to_node_id)), ..old(self)@ }),
    {
        if from_node_id >= self.nodes.len() || to_node_id >= self.nodes.len() {
            return Err(EngineError::UnknownNode);
        }
        if self.nodes[from_node_id].pipeline != self.nodes[to_node_id].pipeline {
            return Err(EngineError::CrossPipelineEdge);
        }
        let r = self.edges.len();
        self.edges.push((from_node_id, to_node_id));
        proof {
            assert(self@ =~= (EngineView { edges: old(self)@.edges.push((from_node_id, to_node_id)), ..old(self)@ }));
        }
        Ok(r)
    }
}


pub fn is_done_forward(s: NodeStatus) -> (r: bool)
    ensures
        r == done_forward(s),
{
    match s {
        NodeStatus::Finished | NodeStatus::Cancelled => true,
        _ => false,
    }
}

pub fn is_fifo_terminal(s: NodeStatus) -> (r: bool)
    ensures
        r == fifo_terminal(s),
{
    match s {
        NodeStatus::Finished | NodeStatus::Cancelled | NodeStatus::Unwound | NodeStatus::UnwindFailed => true,
        _ => false,
    }
}

pub fn is_not_started(s: NodeStatus) -> (r: bool)
    ensures
        r == not_started(s),
{
    match s {
        NodeStatus::Pending | NodeStatus::Executable | NodeStatus::Cancelled => true,
        _ => false,
    }
}

/// The positions of `flags` that hold `true`.
pub fn collect_true(flags: &Vec<bool>) -> (r: Vec<usize>)
    ensures
        r@ == true_indices(flags@),
{
    let mut r: Vec<usize> = Vec::new();
    let mut i: usize = 0;
    while i < flags.len()
        invariant
            i <= flags.len(),
            r@ == true_indices(flags@.take(i as int)),
        decreases flags.len() - i,
    {
        proof {
            assert(flags@.take(i + 1) =~= flags@.take(i as int).push(flags@[i as int]));
            lemma_true_indices_push(flags@.take(i as int), flags@[i as int]);
        }
        if flags[i] {
            r.push(i);
        }
        i = i + 1;
    }
    assert(flags@.take(flags.len() as int) =~= flags@);
    r
}

impl PipelineEngine {
    /// Every edge into `i` comes from a finished or cancelled node.
    fn preds_done_exec(&self, i: usize) -> (r: bool)
        requires
            self.wf(),
        ensures
            r == self@.preds_done(i as int),
    {
        let mut e: usize = 0;
        while e < self.edges.len()
            invariant
                self.wf(),
                e <= self.edges.len(),
                forall|e2: int|
                    0 <= e2 < e && #[trigger] self@.edges[e2].1 == i ==> done_forward(
                        self@.node_states[self@.edges[e2].0 as int],
                    ),
            decreases self.edges.len() - e,
        {
            let (a, b) = self.edges[e];
            if b == i && !is_done_forward(self.node_states[a]) {
                return false;
            }
            e = e + 1;
        }
        true
    }

    /// No edge leads into `i`.
    fn is_root_exec(&self, i: usize) -> (r: bool)
        requires
            self.wf(),
        ensures
            r == self@.is_root(i as int),
    {
        let mut e: usize = 0;
        while e < self.edges.len()
            invariant
                self.wf(),
                e <= self.edges.len(),
                forall|e2: int| 0 <= e2 < e ==> #[trigger] self@.edges[e2].1 != i,
            decreases self.edges.len() - e,
        {
            if self.edges[e].1 == i {
                return false;
            }
            e = e + 1;
        }
        true
    }

    fn same_key_exec(&self, i: usize, j: usize) -> (r: bool)
        requires
            self.wf(),
            i < self@.nodes.len(),
            j < self@.nodes.len(),
        ensures
            r == self@.same_key(i as int, j as int),
    {
        match (&self.nodes[i].key, &self.nodes[j].key) {
            (Some(a), Some(b)) => *a == *b,
            _ => false,
        }
    }

    fn revision_of_exec(&self, i: usize) -> (r: usize)
        requires
            self.wf(),
            i < self@.nodes.len(),
        ensures
            r == self@.revision_of(i as int),
    {
        proof {
            assert(self@.nodes[i as int].pipeline < self@.pipelines.len());
        }
        self.pipelines[self.nodes[i].pipeline].revision
    }

    /// Some node of an older revision still holds the resource that `i` mutates.
    fn fifo_blocked_exec(&self, i: usize) -> (r: bool)
        requires
            self.wf(),
            i < self@.nodes.len(),
        ensures
            r == self@.fifo_blocked(i as int),
    {
        let mut j: usize = 0;
        while j < self.nodes.len()
            invariant
                self.wf(),
                i < self@.nodes.len(),
                j <= self.nodes.len(),
                forall|k: int| 0 <= k < j ==> !#[trigger] self@.blocks(k, i as int),
            decreases self.nodes.len() - j,
        {
            if self.same_key_exec(j, i) && self.revision_of_exec(j) < self.revision_of_exec(i)
                && !is_fifo_terminal(self.node_states[j]) {
                assert(self@.blocks(j as int, i as int));
                return true;
            }
            j = j + 1;
        }
        false
    }

    fn is_runnable_exec(&self, i: usize) -> (r: bool)
        requires
            self.wf(),
            i < self@.nodes.len(),
        ensures
            r == self@.is_runnable(i as int),
    {
        proof {
            assert(self@.nodes[i as int].pipeline < self@.pipelines.len());
        }
        self.node_states[i] == NodeStatus::Executable
            && self.pipeline_states[self.nodes[i].pipeline] == PipelineStatus::Active
            && self.preds_done_exec(i) && !self.fifo_blocked_exec(i)
    }

    /// How the engine reports node `i`.
    fn report(&self, i: usize) -> (r: Node)
        requires
            self.wf(),
            i < self@.nodes.len(),
        ensures
            r.view() == self@.node_report(i as int),
    {
        Node {
            node_id: i,
            revision_id: self.revision_of_exec(i),
            event: clone_text(&self.nodes[i].event),
            state: self.node_states[i],
            resource_key: clone_opt_text(&self.nodes[i].key),
        }
    }

    fn reports(&self, ids: &Vec<usize>) -> (r: Vec<Node>)
        requires
            self.wf(),
            forall|k: int| 0 <= k < ids@.len() ==> #[trigger] ids@[k] < self@.nodes.len(),
        ensures
            node_views(r@) == self@.reports(ids@),
    {
        let mut r: Vec<Node> = Vec::new();
        let mut k: usize = 0;
        while k < ids.len()
            invariant
                self.wf(),
                forall|k2: int| 0 <= k2 < ids@.len() ==> #[trigger] ids@[k2] < self@.nodes.len(),
                k <= ids.len(),
                r@.len() == k,
                node_views(r@) == self@.reports(ids@.take(k as int)),
            decreases ids.len() - k,
        {
            let n = self.report(ids[k]);
            let ghost nv = n.view();
            let ghost prev = r@;
            r.push(n);
            proof {
                assert(ids@.take(k + 1) =~= ids@.take(k as int).push(ids@[k as int]));
                assert(r@[k as int].view() == nv);
                assert forall|m: int| 0 <= m < k implies #[trigger] node_views(r@)[m] == self@.reports(ids@.take(k + 1))[m] by {
                    assert(r@[m] == prev[m]);
                    assert(node_views(prev)[m] == self@.reports(ids@.take(k as int))[m]);
                }
                assert(node_views(r@)[k as int] == self@.node_report(ids@[k as int] as int));
                assert(node_views(r@) =~= self@.reports(ids@.take(k + 1)));
            }
            k = k + 1;
        }
        assert(ids@.take(ids.len() as int) =~= ids@);
        r
    }

    /// Moves every flagged node to `to`, logging each move with `reason`.
    fn apply_moves(&mut self, flags: &Vec<bool>, to: NodeStatus, reason: TransitionReason)
        requires
            old(self)@.nodes.len() == old(self)@.node_states.len(),
            flags@.len() == old(self)@.nodes.len(),
        ensures
            final(self)@ == old(self)@.move_nodes(flags@, to, reason),
    {
        let n = self.node_states.len();
        let mut i: usize = 0;
        proof {
            assert(flags@.take(0) =~= Seq::<bool>::empty());
            assert(log_for(flags@.take(0), to, reason) =~= Seq::<NodeEvent>::empty());
            assert(self@.events =~= old(self)@.events + log_for(flags@.take(0), to, reason));
            assert(self@.node_states =~= Seq::new(n as nat, |k: int| if k < 0 && flags@[k] { to } else { old(self)@.node_states[k] }));
        }
        while i < n
            invariant
                n == self.node_states.len(),
                n == old(self)@.nodes.len(),
                flags@.len() == n,
                i <= n,
                self@ == (EngineView {
                    node_states: Seq::new(n as nat, |k: int| if k < i && flags@[k] { to } else { old(self)@.node_states[k] }),
                    events: old(self)@.events + log_for(flags@.take(i as int), to, reason),
                    ..old(self)@
                }),
            decreases n - i,
        {
            let ghost before = self@;
            proof {
                assert(flags@.take(i + 1) =~= flags@.take(i as int).push(flags@[i as int]));
                lemma_true_indices_push(flags@.take(i as int), flags@[i as int]);
            }
            if flags[i] {
                self.node_states.set(i, to);
                self.events.push(NodeEvent { node_id: i, to_state: to, reason });
                proof {
                    let ev = NodeEvent { node_id: i, to_state: to, reason };
                    let f = |x: usize| NodeEvent { node_id: x, to_state: to, reason };
                    assert(true_indices(flags@.take(i as int)).push(i).map_values(f)
                        =~= true_indices(flags@.take(i as int)).map_values(f).push(ev));
                    assert(self@.events =~= old(self)@.events + log_for(flags@.take(i + 1), to, reason));
                }
            } else {
                proof {
                    assert(self@.events =~= old(self)@.events + log_for(flags@.take(i + 1), to, reason));
                }
            }
            proof {
                assert(self@.node_states =~= Seq::new(n as nat, |k: int| if k < i + 1 && flags@[k] { to } else { old(self)@.node_states[k] }));
            }
            i = i + 1;
        }
        proof {
            assert(flags@.take(n as int) =~= flags@);
            assert(self@.node_states =~= set_where(old(self)@.node_states, flags@, to));
        }
    }
}

impl PipelineEngine {
    /// Finalizes the DAG of `pipeline_id`: its pending nodes with no incoming edge become
    /// executable. Call it once, after all nodes and edges are added.
    pub fn seal(&mut self, pipeline_id: usize)
        requires
            old(self).wf(),
        ensures
            final(self).wf(),
            final(self)@ == old(self)@.sealed(pipeline_id as int),
    {
        let n = self.nodes.len();
        let mut flags: Vec<bool> = Vec::new();
        let mut i: usize = 0;
        while i < n
            invariant
                self.wf(),
                n == self@.nodes.len(),
                i <= n,
                flags@.len() == i,
                forall|k: int| 0 <= k < i ==> #[trigger] flags@[k] == self@.seal_selects(pipeline_id as int, k),
            decreases n - i,
        {
            let b = self.nodes[i].pipeline == pipeline_id && self.node_states[i] == NodeStatus::Pending
                && self.is_root_exec(i);
            flags.push(b);
            i = i + 1;
        }
        proof {
            assert(flags@ =~= Seq::new(n as nat, |k: int| self@.seal_selects(pipeline_id as int, k)));
            lemma_move_wf(self@, flags@, NodeStatus::Executable, TransitionReason::Seal);
        }
        self.apply_moves(&flags, NodeStatus::Executable, TransitionReason::Seal);
    }

    /// The nodes that can be dispatched forward now (executable, in an active pipeline, every
    /// predecessor done, no older revision holding their resource), in creation order.
    /// Claims nothing.
    pub fn runnable(&self) -> (r: Vec<Node>)
        requires
            self.wf(),
        ensures
            node_views(r@) == self@.reports(self@.runnable_ids()),
    {
        let ids = self.runnable_id_list();
        self.reports(&ids)
    }

    fn runnable_flags(&self) -> (r: Vec<bool>)
        requires
            self.wf(),
        ensures
            r@ == Seq::new(self@.nodes.len(), |k: int| self@.is_runnable(k)),
    {
        let n = self.nodes.len();
        let mut flags: Vec<bool> = Vec::new();
        let mut i: usize = 0;
        while i < n
            invariant
                self.wf(),
                n == self@.nodes.len(),
                i <= n,
                flags@.len() == i,
                forall|k: int| 0 <= k < i ==> #[trigger] flags@[k] == self@.is_runnable(k),
            decreases n - i,
        {
            let b = self.is_runnable_exec(i);
            flags.push(b);
            i = i + 1;
        }
        proof {
            assert(flags@ =~= Seq::new(n as nat, |k: int| self@.is_runnable(k)));
        }
        flags
    }

    fn runnable_id_list(&self) -> (r: Vec<usize>)
        requires
            self.wf(),
        ensures
            r@ == self@.runnable_ids(),
            forall|k: int| 0 <= k < r@.len() ==> #[trigger] r@[k] < self@.nodes.len(),
    {
        let flags = self.runnable_flags();
        let _n = flags.len();
        proof {
            lemma_true_indices_bounds(flags@);
        }
        collect_true(&flags)
    }

    /// The nodes of `pipeline_id`, in creation order.
    pub fn nodes(&self, pipeline_id: usize) -> (r: Vec<Node>)
        requires
            self.wf(),
        ensures
            node_views(r@) == self@.reports(self@.pipeline_node_ids(pipeline_id as int)),
    {
        let n = self.nodes.len();
        let mut flags: Vec<bool> = Vec::new();
        let mut i: usize = 0;
        while i < n
            invariant
                self.wf(),
                n == self@.nodes.len(),
                i <= n,
                flags@.len() == i,
                forall|k: int| 0 <= k < i ==> #[trigger] flags@[k] == (self@.nodes[k].pipeline == pipeline_id),
            decreases n - i,
        {
            flags.push(self.nodes[i].pipeline == pipeline_id);
            i = i + 1;
        }
        proof {
            assert(flags@ =~= Seq::new(n as nat, |k: int| self@.nodes[k].pipeline == pipeline_id as int));
            lemma_true_indices_bounds(flags@);
        }
        let ids = collect_true(&flags);
        self.reports(&ids)
    }

    /// The edges of `pipeline_id`, in creation order.
    pub fn edges(&self, pipeline_id: usize) -> (r: Vec<Edge>)
        requires
            self.wf(),
        ensures
            r@ == self@.edge_reports(self@.pipeline_edge_ids(pipeline_id as int)),
    {
        let m = self.edges.len();
        let mut r: Vec<Edge> = Vec::new();
        let mut e: usize = 0;
        let ghost sel = Seq::new(m as nat, |k: int| self@.nodes[self@.edges[k].0 as int].pipeline == pipeline_id as int);
        while e < m
            invariant
                self.wf(),
                m == self@.edges.len(),
                sel.len() == m,
                forall|k: int| 0 <= k < m ==> #[trigger] sel[k] == (self@.nodes[self@.edges[k].0 as int].pipeline == pipeline_id as int),
                e <= m,
                r@ == self@.edge_reports(true_indices(sel.take(e as int))),
            decreases m - e,
        {
            proof {
                assert(sel.take(e + 1) =~= sel.take(e as int).push(sel[e as int]));
                lemma_true_indices_push(sel.take(e as int), sel[e as int]);
            }
            let (a, b) = self.edges[e];
            proof {
                assert(self@.nodes[a as int].pipeline < self@.pipelines.len());
            }
            if self.nodes[a].pipeline == pipeline_id {
                r.push(Edge { edge_id: e, from_node_id: a, to_node_id: b });
                proof {
                    assert(self@.edges[e as int] == (a, b));
                    assert(self@.edge_report(e) == Edge { edge_id: e, from_node_id: a, to_node_id: b });
                    assert(self@.edge_reports(true_indices(sel.take(e as int)).push(e))
                        =~= self@.edge_reports(true_indices(sel.take(e as int))).push(self@.edge_report(e)));
                }
            }
            e = e + 1;
        }
        proof {
            assert(sel.take(m as int) =~= sel);
            assert(sel =~= Seq::new(self@.edges.len(), |k: int| self@.nodes[self@.edges[k].0 as int].pipeline == pipeline_id as int));
        }
        r
    }
}

/// A job the engine created for a dispatched node; the worker that ran the dispatch reports
/// through it.
#[derive(Debug, Clone, Copy, PartialEq, Eq)]
pub struct JobHandle {
    job_id: usize,
    node_id: usize,
}

impl JobHandle {
    pub closed spec fn job(self) -> usize {
        self.job_id
    }

    pub closed spec fn node(self) -> usize {
        self.node_id
    }

    pub fn job_id(&self) -> (r: usize)
        ensures
            r == self.job(),
    {
        self.job_id
    }

    pub fn node_id(&self) -> (r: usize)
        ensures
            r == self.node(),
    {
        self.node_id
    }

    /// The handle names a job of `engine` and that job's node.
    pub open spec fn valid_for(self, engine: EngineView) -> bool {
        &&& self.job() < engine.job_nodes.len()
        &&& engine.job_nodes[self.job() as int] == self.node()
    }

    /// Whether this job may be completed now: a running job's node must still be in progress
    /// (it is not when its pipeline was cancelled meanwhile).
    pub fn can_complete(&self, engine: &PipelineEngine) -> (r: bool)
        requires
            engine.wf(),
            self.valid_for(engine@),
        ensures
            r == engine@.completable(self.job() as int),
    {
        engine.job_states[self.job_id] != JobStatus::Running
            || engine.node_states[self.node_id] == NodeStatus::InProgress
    }

    /// Records that the job's work succeeded. A job that is no longer running is ignored.
    /// Otherwise its node finishes (or is unwound, in an unwinding pipeline); moving forward,
    /// the successors whose predecessors are all done become executable, and the pipeline
    /// finishes once every node is finished or cancelled.
    pub fn succeed(&self, engine: &mut PipelineEngine)
        requires
            old(engine).wf(),
            self.valid_for(old(engine)@),
            old(engine)@.completable(self.job() as int),
        ensures
            final(engine).wf(),
            old(engine)@.job_states[self.job() as int] != JobStatus::Running ==> final(engine)@ == old(engine)@,
            old(engine)@.job_states[self.job() as int] == JobStatus::Running ==> final(engine)@
                == old(engine)@.succeeded(self.job() as int),
    {
        let j = self.job_id;
        if engine.job_states[j] != JobStatus::Running {
            return;
        }
        let i = self.node_id;
        proof {
            assert(old(engine)@.nodes[i as int].pipeline < old(engine)@.pipelines.len());
        }
        let p = engine.nodes[i].pipeline;
        let unwinding = engine.pipeline_states[p] == PipelineStatus::Unwinding;
        let target = if unwinding { NodeStatus::Unwound } else { NodeStatus::Finished };
        engine.job_states.set(j, JobStatus::Succeeded);
        engine.node_states.set(i, target);
        engine.events.push(NodeEvent { node_id: i, to_state: target, reason: TransitionReason::Succeed(j) });
        let ghost s1 = EngineView {
            job_states: old(engine)@.job_states.update(j as int, JobStatus::Succeeded),
            node_states: old(engine)@.node_states.update(i as int, target),
            events: old(engine)@.events.push(NodeEvent { node_id: i, to_state: target, reason: TransitionReason::Succeed(j) }),
            ..old(engine)@
        };
        proof {
            assert(engine@ =~= s1);
            lemma_finish_job_wf(old(engine)@, j as int, JobStatus::Succeeded, target);
        }
        if unwinding {
            return;
        }
        let n = engine.nodes.len();
        let mut flags: Vec<bool> = Vec::new();
        let mut k: usize = 0;
        while k < n
            invariant
                engine.wf(),
                engine@ == s1,
                n == engine@.nodes.len(),
                i < n,
                k <= n,
                flags@.len() == k,
                forall|k2: int| 0 <= k2 < k ==> #[trigger] flags@[k2] == s1.promote_after_selects(i as int, k2),
            decreases n - k,
        {
            let b = engine.node_states[k] == NodeStatus::Pending && engine.successor_exec(i, k)
                && engine.preds_done_exec(k);
            flags.push(b);
            k = k + 1;
        }
        proof {
            assert(flags@ =~= Seq::new(n as nat, |k2: int| s1.promote_after_selects(i as int, k2)));
            lemma_move_wf(s1, flags@, NodeStatus::Executable, TransitionReason::Promote);
        }
        engine.apply_moves(&flags, NodeStatus::Executable, TransitionReason::Promote);
        if engine.pipeline_all_done_exec(p) {
            engine.pipeline_states.set(p, PipelineStatus::Finished);
        }
    }

    /// Records that the job's work failed with `error`. A job that is no longer running is
    /// ignored. Otherwise its node fails (or its unwinding fails, in an unwinding pipeline).
    pub fn fail(&self, engine: &mut PipelineEngine, error: &str)
        requires
            old(engine).wf(),
            self.valid_for(old(engine)@),
            old(engine)@.completable(self.job() as int),
        ensures
            final(engine).wf(),
            old(engine)@.job_states[self.job() as int] != JobStatus::Running ==> final(engine)@ == old(engine)@,
            old(engine)@.job_states[self.job() as int] == JobStatus::Running ==> final(engine)@
                == old(engine)@.failed(self.job() as int, error@),
    {
        let j = self.job_id;
        if engine.job_states[j] != JobStatus::Running {
            return;
        }
        let i = self.node_id;
        proof {
            assert(old(engine)@.nodes[i as int].pipeline < old(engine)@.pipelines.len());
        }
        let p = engine.nodes[i].pipeline;
        let target = if engine.pipeline_states[p] == PipelineStatus::Unwinding {
            NodeStatus::UnwindFailed
        } else {
            NodeStatus::Failed
        };
        engine.job_states.set(j, JobStatus::Failed);
        engine.job_errors.set(j, Some(error.to_string()));
        engine.node_states.set(i, target);
        engine.events.push(NodeEvent { node_id: i, to_state: target, reason: TransitionReason::Fail(j) });
        proof {
            lemma_finish_job_wf(old(engine)@, j as int, JobStatus::Failed, target);
            assert(engine@.job_errors =~= old(engine)@.job_errors.update(j as int, Some(error@)));
            assert(engine@ =~= old(engine)@.failed(j as int, error@));
        }
    }

    /// Records that the job's worker is still alive at time `now` (in seconds).
    pub fn heartbeat(&self, engine: &mut PipelineEngine, now: u64)
        requires
            old(engine).wf(),
        ensures
            final(engine).wf(),
            self.job() < old(engine)@.job_nodes.len() ==> final(engine)@ == (EngineView {
                heartbeats: old(engine)@.heartbeats.update(self.job() as int, now),
                ..old(engine)@
            }),
            self.job() >= old(engine)@.job_nodes.len() ==> final(engine)@ == old(engine)@,
    {
        if self.job_id < engine.heartbeats.len() {
            engine.heartbeats.set(self.job_id, now);
        }
    }
}

/// A job stopping and its node moving to a state keeps the engine well formed.
pub proof fn lemma_finish_job_wf(v: EngineView, j: int, js: JobStatus, ns: NodeStatus)
    requires
        v.wf(),
        0 <= j < v.job_nodes.len(),
        v.job_states[j] == JobStatus::Running,
        js != JobStatus::Running,
    ensures
        ({
            let i = v.job_nodes[j] as int;
            EngineView {
                job_states: v.job_states.update(j, js),
                node_states: v.node_states.update(i, ns),
                events: v.events.push(NodeEvent { node_id: i as usize, to_state: ns, reason: TransitionReason::Succeed(j as usize) }),
                ..v
            }.wf() && EngineView {
                job_states: v.job_states.update(j, js),
                node_states: v.node_states.update(i, ns),
                events: v.events.push(NodeEvent { node_id: i as usize, to_state: ns, reason: TransitionReason::Fail(j as usize) }),
                ..v
            }.wf() && EngineView {
                job_states: v.job_states.update(j, js),
                job_errors: v.job_errors.update(j, Some(Seq::<char>::empty())),
                node_states: v.node_states.update(i, ns),
                events: v.events.push(NodeEvent { node_id: i as usize, to_state: ns, reason: TransitionReason::Fail(j as usize) }),
                ..v
            }.wf()
        }),
{
    let i = v.job_nodes[j] as int;
    assert forall|j2: int| 0 <= j2 < v.job_nodes.len() && j2 != j && v.job_states[j2] == JobStatus::Running implies v.job_nodes[j2] != i by {
    }
}

impl PipelineEngine {
    fn successor_exec(&self, i: usize, k: usize) -> (r: bool)
        requires
            self.wf(),
        ensures
            r == self@.successor_of(i as int, k as int),
    {
        let mut e: usize = 0;
        while e < self.edges.len()
            invariant
                self.wf(),
                e <= self.edges.len(),
                forall|e2: int| 0 <= e2 < e ==> #[trigger] self@.edges[e2] != (i, k),
            decreases self.edges.len() - e,
        {
            let (a, b) = self.edges[e];
            if a == i && b == k {
                assert(self@.edges[e as int] == (i, k));
                return true;
            }
            e = e + 1;
        }
        false
    }

    fn pipeline_all_done_exec(&self, p: usize) -> (r: bool)
        requires
            self@.nodes.len() == self@.node_states.len(),
        ensures
            r == self@.pipeline_all_done(p as int),
    {
        let mut k: usize = 0;
        while k < self.nodes.len()
            invariant
                self@.nodes.len() == self@.node_states.len(),
                k <= self.nodes.len(),
                forall|k2: int| 0 <= k2 < k && #[trigger] self@.nodes[k2].pipeline == p ==> done_forward(self@.node_states[k2]),
            decreases self.nodes.len() - k,
        {
            if self.nodes[k].pipeline == p && !is_done_forward(self.node_states[k]) {
                assert(self@.nodes[k as int].pipeline == p);
                return false;
            }
            k = k + 1;
        }
        true
    }
}

/// A pipeline as the engine reports it.
pub struct PipelineReport {
    pub pipeline_id: usize,
    pub project_id: Seq<char>,
    pub revision_id: usize,
    pub state: PipelineStatus,
}

impl Pipeline {
    pub open spec fn view(self) -> PipelineReport {
        PipelineReport {
            pipeline_id: self.pipeline_id,
            project_id: self.project_id@,
            revision_id: self.revision_id,
            state: self.state,
        }
    }
}

pub open spec fn pipeline_views(v: Seq<Pipeline>) -> Seq<PipelineReport> {
    v.map_values(|p: Pipeline| p.view())
}

/// One attempt at running a node.
#[derive(Debug)]
pub struct Job {
    pub job_id: usize,
    pub node_id: usize,
    pub state: JobStatus,
    pub error: Option<String>,
}

impl EngineView {
    pub open spec fn pipeline_report(self, p: int) -> PipelineReport {
        PipelineReport {
            pipeline_id: p as usize,
            project_id: self.pipelines[p].project,
            revision_id: self.pipelines[p].revision,
            state: self.pipeline_states[p],
        }
    }
}

impl PipelineEngine {
    /// Permanently abandons `pipeline_id`: every node that is not finished becomes cancelled,
    /// and so does the pipeline. Cancelled nodes no longer hold their resources, so newer
    /// revisions are unblocked.
    pub fn cancel(&mut self, pipeline_id: usize) -> (r: Result<(), EngineError>)
        requires
            old(self).wf(),
        ensures
            final(self).wf(),
            pipeline_id >= old(self)@.pipelines.len() ==> r == Err::<(), EngineError>(EngineError::UnknownPipeline)
                && final(self)@ == old(self)@,
            pipeline_id < old(self)@.pipelines.len() ==> r == Ok::<(), EngineError>(())
                && final(self)@ == old(self)@.cancelled(pipeline_id as int),
    {
        if pipeline_id >= self.pipelines.len() {
            return Err(EngineError::UnknownPipeline);
        }
        let n = self.nodes.len();
        let mut flags: Vec<bool> = Vec::new();
        let mut i: usize = 0;
        while i < n
            invariant
                self.wf(),
                n == self@.nodes.len(),
                i <= n,
                flags@.len() == i,
                forall|k: int| 0 <= k < i ==> #[trigger] flags@[k] == self@.cancel_selects(pipeline_id as int, k),
            decreases n - i,
        {
            flags.push(self.nodes[i].pipeline == pipeline_id && self.node_states[i] != NodeStatus::Finished);
            i = i + 1;
        }
        proof {
            assert(flags@ =~= Seq::new(n as nat, |k: int| self@.cancel_selects(pipeline_id as int, k)));
            lemma_move_wf(self@, flags@, NodeStatus::Cancelled, TransitionReason::Cancel);
        }
        self.apply_moves(&flags, NodeStatus::Cancelled, TransitionReason::Cancel);
        self.pipeline_states.set(pipeline_id, PipelineStatus::Cancelled);
        Ok(())
    }

    /// Re-attempts a node that reached a terminal failure: `failed` becomes `executable` (the
    /// next tick dispatches it forward again) and `unwind_failed` becomes `finished` (unwinding
    /// picks it up again). Any other state is refused.
    pub fn retry(&mut self, node_id: usize) -> (r: Result<(), EngineError>)
        requires
            old(self).wf(),
        ensures
            final(self).wf(),
            node_id >= old(self)@.nodes.len() ==> r == Err::<(), EngineError>(EngineError::UnknownNode)
                && final(self)@ == old(self)@,
            node_id < old(self)@.nodes.len() ==> match EngineView::retry_target(old(self)@.node_states[node_id as int]) {
                Some(to) => r == Ok::<(), EngineError>(()) && final(self)@ == old(self)@.retried(node_id as int, to),
                None => r == Err::<(), EngineError>(EngineError::CannotRetry(old(self)@.node_states[node_id as int]))
                    && final(self)@ == old(self)@,
            },
    {
        if node_id >= self.nodes.len() {
            return Err(EngineError::UnknownNode);
        }
        let to = match self.node_states[node_id] {
            NodeStatus::Failed => NodeStatus::Executable,
            NodeStatus::UnwindFailed => NodeStatus::Finished,
            other => {
                return Err(EngineError::CannotRetry(other));
            },
        };
        self.node_states.set(node_id, to);
        self.events.push(NodeEvent { node_id, to_state: to, reason: TransitionReason::Retry });
        proof {
            assert(self@ =~= old(self)@.retried(node_id as int, to));
        }
        Ok(())
    }

    fn pipeline_report_exec(&self, p: usize) -> (r: Pipeline)
        requires
            self.wf(),
            p < self@.pipelines.len(),
        ensures
            r.view() == self@.pipeline_report(p as int),
    {
        Pipeline {
            pipeline_id: p,
            project_id: clone_text(&self.pipelines[p].project_id),
            revision_id: self.pipelines[p].revision,
            state: self.pipeline_states[p],
        }
    }

    /// The pipelines of `project_id` that are active or unwinding, in creation order.
    pub fn active_pipelines(&self, project_id: &str) -> (r: Vec<Pipeline>)
        requires
            self.wf(),
        ensures
            pipeline_views(r@) == self@.active_pipeline_ids(project_id@).map_values(|p: usize| self@.pipeline_report(p as int)),
    {
        let m = self.pipelines.len();
        let mut r: Vec<Pipeline> = Vec::new();
        let mut p: usize = 0;
        let ghost sel = Seq::new(m as nat, |k: int| self@.pipelines[k].project == project_id@ && EngineView::in_flight(self@.pipeline_states[k]));
        let project = project_id.to_string();
        while p < m
            invariant
                self.wf(),
                m == self@.pipelines.len(),
                project@ == project_id@,
                sel.len() == m,
                forall|k: int| 0 <= k < m ==> #[trigger] sel[k] == (self@.pipelines[k].project == project_id@ && EngineView::in_flight(self@.pipeline_states[k])),
                p <= m,
                pipeline_views(r@) == true_indices(sel.take(p as int)).map_values(|q: usize| self@.pipeline_report(q as int)),
            decreases m - p,
        {
            proof {
                assert(sel.take(p + 1) =~= sel.take(p as int).push(sel[p as int]));
                lemma_true_indices_push(sel.take(p as int), sel[p as int]);
            }
            let st = self.pipeline_states[p];
            if self.pipelines[p].project_id == project && (st == PipelineStatus::Active || st == PipelineStatus::Unwinding) {
                let rep = self.pipeline_report_exec(p);
                let ghost prev = r@;
                r.push(rep);
                proof {
                    let f = |q: usize| self@.pipeline_report(q as int);
                    assert(true_indices(sel.take(p as int)).push(p).map_values(f)
                        =~= true_indices(sel.take(p as int)).map_values(f).push(f(p)));
                    assert(pipeline_views(r@) =~= pipeline_views(prev).push(rep.view()));
                }
            }
            p = p + 1;
        }
        proof {
            assert(sel.take(m as int) =~= sel);
        }
        r
    }

    /// The finished pipeline of `project_id` with the newest revision, if any.
    pub fn latest_finished_pipeline(&self, project_id: &str) -> (r: Option<Pipeline>)
        requires
            self.wf(),
        ensures
            r is None <==> !exists|p: int| #[trigger] self@.finished_of(project_id@, p),
            r matches Some(pl) ==> self@.finished_of(project_id@, pl.pipeline_id as int)
                && pl.view() == self@.pipeline_report(pl.pipeline_id as int)
                && forall|q: int| #[trigger] self@.finished_of(project_id@, q)
                    ==> self@.pipelines[q].revision <= pl.revision_id,
    {
        let project = project_id.to_string();
        let mut best: Option<usize> = None;
        let mut p: usize = 0;
        while p < self.pipelines.len()
            invariant
                self.wf(),
                project@ == project_id@,
                p <= self.pipelines.len(),
                best is None <==> !exists|q: int| 0 <= q < p && #[trigger] self@.finished_of(project_id@, q),
                best matches Some(b) ==> b < p && self@.finished_of(project_id@, b as int)
                    && forall|q: int| 0 <= q < p && #[trigger] self@.finished_of(project_id@, q)
                        ==> self@.pipelines[q].revision <= self@.pipelines[b as int].revision,
            decreases self.pipelines.len() - p,
        {
            if self.pipelines[p].project_id == project && self.pipeline_states[p] == PipelineStatus::Finished {
                assert(self@.finished_of(project_id@, p as int));
                match best {
                    None => {
                        best = Some(p);
                    },
                    Some(b) => {
                        if self.pipelines[p].revision > self.pipelines[b].revision {
                            best = Some(p);
                        }
                    },
                }
            }
            p = p + 1;
        }
        match best {
            None => None,
            Some(b) => Some(self.pipeline_report_exec(b)),
        }
    }

    /// The most recent job of `node_id`, if it was ever dispatched.
    pub fn node_job(&self, node_id: usize) -> (r: Option<Job>)
        requires
            self.wf(),
        ensures
            match (r, self@.latest_job(node_id as int)) {
                (None, None) => true,
                (Some(job), Some(j)) => job.job_id == j && job.node_id == node_id
                    && job.state == self@.job_states[j as int] && opt_text(job.error) == self@.job_errors[j as int],
                _ => false,
            },
    {
        let mut k = self.job_nodes.len();
        while k > 0
            invariant
                self.wf(),
                k <= self.job_nodes.len(),
                self@.latest_job(node_id as int) == self@.latest_job_below(node_id as int, k as nat),
            decreases k,
        {
            if self.job_nodes[k - 1] == node_id {
                let j = k - 1;
                return Some(Job {
                    job_id: j,
                    node_id,
                    state: self.job_states[j],
                    error: clone_opt_text(&self.job_errors[j]),
                });
            }
            k = k - 1;
        }
        None
    }
}

impl PipelineEngine {
    pub(crate) fn same_key_pub(&self, i: usize, j: usize) -> (r: bool)
        requires
            self.wf(),
            i < self@.nodes.len(),
            j < self@.nodes.len(),
        ensures
            r == self@.same_key(i as int, j as int),
    {
        self.same_key_exec(i, j)
    }

    pub(crate) fn revision_of_pub(&self, i: usize) -> (r: usize)
        requires
            self.wf(),
            i < self@.nodes.len(),
        ensures
            r == self@.revision_of(i as int),
    {
        self.revision_of_exec(i)
    }
}

pub fn copy_flags(v: &Vec<bool>) -> (r: Vec<bool>)
    ensures
        r@ == v@,
{
    let mut r: Vec<bool> = Vec::new();
    let mut i: usize = 0;
    while i < v.len()
        invariant
            i <= v.len(),
            r@ == v@.take(i as int),
        decreases v.len() - i,
    {
        r.push(v[i]);
        proof {
            assert(v@.take(i + 1) =~= v@.take(i as int).push(v@[i as int]));
        }
        i = i + 1;
    }
    assert(v@.take(v.len() as int) =~= v@);
    r
}

impl PipelineEngine {
    fn has_started_succ_exec(&self, i: usize) -> (r: bool)
        requires
            self.wf(),
            i < self@.nodes.len(),
        ensures
            r == self@.has_started_succ(i as int),
    {
        let mut e: usize = 0;
        while e < self.edges.len()
            invariant
                self.wf(),
                i < self@.nodes.len(),
                e <= self.edges.len(),
                forall|e2: int|
                    0 <= e2 < e && #[trigger] self@.edges[e2].0 == i ==> !(self@.nodes[self@.edges[e2].1 as int].pipeline
                        == self@.nodes[i as int].pipeline && !not_started(self@.node_states[self@.edges[e2].1 as int])),
            decreases self.edges.len() - e,
        {
            let (a, b) = self.edges[e];
            proof {
                assert(self@.edges[e as int] == (a, b));
            }
            if a == i && self.nodes[b].pipeline == self.nodes[i].pipeline && !is_not_started(self.node_states[b]) {
                return true;
            }
            e = e + 1;
        }
        false
    }

    fn unwind_frontier_exec(&self, i: usize) -> (r: bool)
        requires
            self.wf(),
            i < self@.nodes.len(),
        ensures
            r == self@.unwind_frontier(i as int),
    {
        !is_not_started(self.node_states[i]) && !self.has_started_succ_exec(i)
    }

    fn back_step(&self, p: usize, prev: &Vec<bool>) -> (r: Vec<bool>)
        requires
            self.wf(),
            prev@.len() == self@.nodes.len(),
        ensures
            r@ == Seq::new(self@.nodes.len(), |i: int| prev@[i] || self@.back_adds(p as int, prev@, i)),
    {
        let mut next = copy_flags(prev);
        let mut e: usize = 0;
        while e < self.edges.len()
            invariant
                self.wf(),
                prev@.len() == self@.nodes.len(),
                next@.len() == self@.nodes.len(),
                e <= self.edges.len(),
                forall|i: int| 0 <= i < next@.len() ==> #[trigger] next@[i] == (prev@[i] || exists|e2: int|
                    0 <= e2 < e && #[trigger] self@.edges[e2].0 == i && prev@[self@.edges[e2].1 as int]
                        && !self@.nodes[i].boundary && self@.nodes[i].pipeline == p),
            decreases self.edges.len() - e,
        {
            let (a, b) = self.edges[e];
            proof {
                assert(self@.edges[e as int] == (a, b));
            }
            if prev[b] && !self.nodes[a].boundary && self.nodes[a].pipeline == p {
                next.set(a, true);
            }
            e = e + 1;
        }
        proof {
            assert(next@ =~= Seq::new(self@.nodes.len(), |i: int| prev@[i] || self@.back_adds(p as int, prev@, i)));
        }
        next
    }

    fn fwd_step(&self, p: usize, prev: &Vec<bool>) -> (r: Vec<bool>)
        requires
            self.wf(),
            prev@.len() == self@.nodes.len(),
        ensures
            r@ == Seq::new(self@.nodes.len(), |i: int| prev@[i] || self@.fwd_adds(p as int, prev@, i)),
    {
        let mut next = copy_flags(prev);
        let mut e: usize = 0;
        while e < self.edges.len()
            invariant
                self.wf(),
                prev@.len() == self@.nodes.len(),
                next@.len() == self@.nodes.len(),
                e <= self.edges.len(),
                forall|i: int| 0 <= i < next@.len() ==> #[trigger] next@[i] == (prev@[i] || exists|e2: int|
                    0 <= e2 < e && #[trigger] self@.edges[e2].1 == i && prev@[self@.edges[e2].0 as int]
                        && self@.nodes[i].pipeline == p),
            decreases self.edges.len() - e,
        {
            let (a, b) = self.edges[e];
            proof {
                assert(self@.edges[e as int] == (a, b));
            }
            if prev[a] && self.nodes[b].pipeline == p {
                next.set(b, true);
            }
            e = e + 1;
        }
        proof {
            assert(next@ =~= Seq::new(self@.nodes.len(), |i: int| prev@[i] || self@.fwd_adds(p as int, prev@, i)));
        }
        next
    }

    /// The nodes of `p` cancelled when `p` starts unwinding (see [`EngineView::cancel_scope`]).
    pub fn cancel_scope_exec(&self, p: usize) -> (r: Vec<bool>)
        requires
            self.wf(),
        ensures
            r@ == self@.cancel_scope(p as int),
    {
        let n = self.nodes.len();
        let mut cur: Vec<bool> = Vec::new();
        let mut i: usize = 0;
        while i < n
            invariant
                self.wf(),
                n == self@.nodes.len(),
                i <= n,
                cur@.len() == i,
                forall|k: int| 0 <= k < i ==> #[trigger] cur@[k] == (self@.nodes[k].pipeline == p && self@.unwind_frontier(k)),
            decreases n - i,
        {
            let b = self.nodes[i].pipeline == p && self.unwind_frontier_exec(i);
            cur.push(b);
            i = i + 1;
        }
        assert(cur@ =~= self@.back_scope(p as int, 0));
        let mut k: usize = 0;
        while k < n
            invariant
                self.wf(),
                n == self@.nodes.len(),
                k <= n,
                cur@ == self@.back_scope(p as int, k as nat),
            decreases n - k,
        {
            cur = self.back_step(p, &cur);
            proof {
                assert(cur@ =~= self@.back_scope(p as int, (k + 1) as nat));
            }
            k = k + 1;
        }
        assert(cur@ == self@.cascade(p as int, 0));
        let mut k: usize = 0;
        while k < n
            invariant
                self.wf(),
                n == self@.nodes.len(),
                k <= n,
                cur@ == self@.cascade(p as int, k as nat),
            decreases n - k,
        {
            cur = self.fwd_step(p, &cur);
            proof {
                assert(cur@ =~= self@.cascade(p as int, (k + 1) as nat));
            }
            k = k + 1;
        }
        cur
    }

    fn superseded_exec(&self, j: usize) -> (r: bool)
        requires
            self.wf(),
            j < self@.nodes.len(),
        ensures
            r == self@.superseded(j as int),
    {
        let mut m: usize = 0;
        while m < self.nodes.len()
            invariant
                self.wf(),
                j < self@.nodes.len(),
                m <= self.nodes.len(),
                forall|m2: int| 0 <= m2 < m ==> !(#[trigger] self@.same_key(m2, j as int) && self@.node_states[m2] == NodeStatus::Finished
                    && self@.revision_of(m2) > self@.revision_of(j as int)),
            decreases self.nodes.len() - m,
        {
            if self.same_key_pub(m, j) && self.node_states[m] == NodeStatus::Finished
                && self.revision_of_pub(m) > self.revision_of_pub(j) {
                return true;
            }
            m = m + 1;
        }
        false
    }

    fn unwind_step(&self, prev: &Vec<bool>, sup: &Vec<bool>) -> (r: Vec<bool>)
        requires
            self.wf(),
            prev@.len() == self@.nodes.len(),
            sup@.len() == self@.nodes.len(),
            forall|k: int| 0 <= k < sup@.len() ==> #[trigger] sup@[k] == self@.superseded(k),
        ensures
            r@ == Seq::new(self@.nodes.len(), |i: int| prev@[i] || self@.unwind_adds(prev@, i)),
    {
        let mut next = copy_flags(prev);
        let mut e: usize = 0;
        while e < self.edges.len()
            invariant
                self.wf(),
                prev@.len() == self@.nodes.len(),
                sup@.len() == self@.nodes.len(),
                forall|k: int| 0 <= k < sup@.len() ==> #[trigger] sup@[k] == self@.superseded(k),
                next@.len() == self@.nodes.len(),
                e <= self.edges.len(),
                forall|i: int| 0 <= i < next@.len() ==> #[trigger] next@[i] == (prev@[i] || exists|e2: int|
                    0 <= e2 < e && #[trigger] self@.edges[e2].0 == i && prev@[self@.edges[e2].1 as int]
                        && !self@.nodes[i].boundary && self@.nodes[i].pipeline == self@.nodes[self@.edges[e2].1 as int].pipeline
                        && !self@.superseded(i)),
            decreases self.edges.len() - e,
        {
            let (a, b) = self.edges[e];
            proof {
                assert(self@.edges[e as int] == (a, b));
            }
            if prev[b] && !self.nodes[a].boundary && self.nodes[a].pipeline == self.nodes[b].pipeline && !sup[a] {
                next.set(a, true);
            }
            e = e + 1;
        }
        proof {
            assert(next@ =~= Seq::new(self@.nodes.len(), |i: int| prev@[i] || self@.unwind_adds(prev@, i)));
        }
        next
    }

    /// The unwind scope of all unwinding pipelines (see [`EngineView::unwind_scope`]).
    pub fn unwind_scope_exec(&self) -> (r: Vec<bool>)
        requires
            self.wf(),
        ensures
            r@ == self@.unwind_scope(),
    {
        let n = self.nodes.len();
        let mut cur: Vec<bool> = Vec::new();
        let mut sup: Vec<bool> = Vec::new();
        let mut i: usize = 0;
        while i < n
            invariant
                self.wf(),
                n == self@.nodes.len(),
                i <= n,
                cur@.len() == i,
                sup@.len() == i,
                forall|k: int| 0 <= k < i ==> #[trigger] cur@[k] == (self@.pipeline_states[self@.pipeline_of(k)]
                    == PipelineStatus::Unwinding && self@.unwind_frontier(k)),
                forall|k: int| 0 <= k < i ==> #[trigger] sup@[k] == self@.superseded(k),
            decreases n - i,
        {
            proof {
                assert(self@.nodes[i as int].pipeline < self@.pipelines.len());
            }
            let b = self.pipeline_states[self.nodes[i].pipeline] == PipelineStatus::Unwinding && self.unwind_frontier_exec(i);
            cur.push(b);
            let s = self.superseded_exec(i);
            sup.push(s);
            i = i + 1;
        }
        assert(cur@ =~= self@.unwind_scope_k(0));
        let mut k: usize = 0;
        while k < n
            invariant
                self.wf(),
                n == self@.nodes.len(),
                k <= n,
                sup@.len() == n,
                forall|k2: int| 0 <= k2 < sup@.len() ==> #[trigger] sup@[k2] == self@.superseded(k2),
                cur@ == self@.unwind_scope_k(k as nat),
            decreases n - k,
        {
            cur = self.unwind_step(&cur, &sup);
            proof {
                assert(cur@ =~= self@.unwind_scope_k((k + 1) as nat));
            }
            k = k + 1;
        }
        cur
    }

    /// Which nodes are ready to be unwound now.
    pub fn unwind_eligible_exec(&self) -> (r: Vec<bool>)
        requires
            self.wf(),
        ensures
            r@ == self@.unwind_eligible_flags(),
    {
        let scope = self.unwind_scope_exec();
        let n = self.nodes.len();
        let mut r: Vec<bool> = Vec::new();
        let mut i: usize = 0;
        while i < n
            invariant
                self.wf(),
                n == self@.nodes.len(),
                scope@ == self@.unwind_scope(),
                i <= n,
                r@.len() == i,
                forall|k: int| 0 <= k < i ==> #[trigger] r@[k] == self@.unwind_eligible(k),
            decreases n - i,
        {
            let st = self.node_states[i];
            let ok = scope[i] && (st == NodeStatus::Finished || st == NodeStatus::Failed)
                && !self.succ_pending_unwind(i, &scope);
            r.push(ok);
            i = i + 1;
        }
        assert(r@ =~= self@.unwind_eligible_flags());
        r
    }

    /// Some successor of `i` in `scope` is neither unwound nor cancelled.
    fn succ_pending_unwind(&self, i: usize, scope: &Vec<bool>) -> (r: bool)
        requires
            self.wf(),
            scope@.len() == self@.nodes.len(),
        ensures
            r == exists|e: int|
                0 <= e < self@.edges.len() && #[trigger] self@.edges[e].0 == i && scope@[self@.edges[e].1 as int]
                    && !(self@.node_states[self@.edges[e].1 as int] == NodeStatus::Unwound
                    || self@.node_states[self@.edges[e].1 as int] == NodeStatus::Cancelled),
    {
        let mut e: usize = 0;
        while e < self.edges.len()
            invariant
                self.wf(),
                scope@.len() == self@.nodes.len(),
                e <= self.edges.len(),
                forall|e2: int|
                    0 <= e2 < e && #[trigger] self@.edges[e2].0 == i ==> !(scope@[self@.edges[e2].1 as int]
                        && !(self@.node_states[self@.edges[e2].1 as int] == NodeStatus::Unwound
                        || self@.node_states[self@.edges[e2].1 as int] == NodeStatus::Cancelled)),
            decreases self.edges.len() - e,
        {
            let (a, b) = self.edges[e];
            proof {
                assert(self@.edges[e as int] == (a, b));
            }
            let sb = self.node_states[b];
            if a == i && scope[b] && !(sb == NodeStatus::Unwound || sb == NodeStatus::Cancelled) {
                return true;
            }
            e = e + 1;
        }
        false
    }

    /// The revision an unwind of `i` restores (see [`EngineView::restore_revision`]).
    pub fn restore_revision_exec(&self, i: usize) -> (r: Option<usize>)
        requires
            self.wf(),
            i < self@.nodes.len(),
        ensures
            r == self@.restore_revision(i as int),
    {
        let mut best: Option<usize> = None;
        let mut m: usize = 0;
        while m < self.nodes.len()
            invariant
                self.wf(),
                i < self@.nodes.len(),
                m <= self.nodes.len(),
                best == self@.restore_below(i as int, m as nat),
            decreases self.nodes.len() - m,
        {
            if self.same_key_pub(m, i) && self.node_states[m] == NodeStatus::Finished
                && self.revision_of_pub(m) < self.revision_of_pub(i) {
                let rm = self.revision_of_pub(m);
                best = match best {
                    None => Some(rm),
                    Some(b) => if rm > b { Some(rm) } else { Some(b) },
                };
            }
            m = m + 1;
        }
        best
    }
}

impl PipelineEngine {
    fn job_stale_exec(&self, j: usize, now: u64) -> (r: bool)
        requires
            self.wf(),
            j < self@.job_nodes.len(),
        ensures
            r == self@.job_stale(j as int, now),
    {
        self.job_states[j] == JobStatus::Running && (self.heartbeats[j] as u128) + 60 < (now as u128)
    }

    /// Nodes whose running job missed its heartbeat for over 60 seconds go back to executable;
    /// those jobs fail with "stale heartbeat".
    fn release_stale(&mut self, now: u64)
        requires
            old(self).wf(),
        ensures
            final(self).wf(),
            final(self)@ == old(self)@.released(now, "stale heartbeat"@),
    {
        let n = self.nodes.len();
        let m = self.job_nodes.len();
        let mut stale: Vec<bool> = Vec::new();
        let mut j: usize = 0;
        while j < m
            invariant
                self.wf(),
                m == self@.job_nodes.len(),
                j <= m,
                stale@.len() == j,
                forall|k: int| 0 <= k < j ==> #[trigger] stale@[k] == self@.job_stale(k, now),
            decreases m - j,
        {
            stale.push(self.job_stale_exec(j, now));
            j = j + 1;
        }
        let mut flags: Vec<bool> = Vec::new();
        let mut i: usize = 0;
        while i < n
            invariant
                self.wf(),
                n == self@.nodes.len(),
                m == self@.job_nodes.len(),
                stale@.len() == m,
                forall|k: int| 0 <= k < m ==> #[trigger] stale@[k] == self@.job_stale(k, now),
                i <= n,
                flags@.len() == i,
                forall|k: int| 0 <= k < i ==> #[trigger] flags@[k] == self@.release_selects(k, now),
            decreases n - i,
        {
            let mut found = false;
            if self.node_states[i] == NodeStatus::InProgress {
                let mut j: usize = 0;
                while j < m
                    invariant
                        self.wf(),
                        m == self@.job_nodes.len(),
                        stale@.len() == m,
                        forall|k: int| 0 <= k < m ==> #[trigger] stale@[k] == self@.job_stale(k, now),
                        j <= m,
                        found == exists|k: int| 0 <= k < j && self@.job_nodes[k] == i && #[trigger] self@.job_stale(k, now),
                    decreases m - j,
                {
                    if self.job_nodes[j] == i && stale[j] {
                        found = true;
                    }
                    j = j + 1;
                }
            }
            flags.push(found);
            i = i + 1;
        }
        let ghost v0 = self@;
        proof {
            assert(flags@ =~= Seq::new(n as nat, |k: int| v0.release_selects(k, now)));
        }
        self.apply_moves(&flags, NodeStatus::Executable, TransitionReason::ReleaseStale);
        let ghost v1 = self@;
        let mut j: usize = 0;
        proof {
            assert(self@.job_states =~= Seq::new(m as nat, |k: int| if k < 0 && stale@[k] { JobStatus::Failed } else { v1.job_states[k] }));
            assert(self@.job_errors =~= Seq::new(m as nat, |k: int| if k < 0 && stale@[k] { Some("stale heartbeat"@) } else { v1.job_errors[k] }));
        }
        while j < m
            invariant
                m == self@.job_nodes.len(),
                m == self.job_errors@.len(),
                stale@.len() == m,
                forall|k: int| 0 <= k < m ==> #[trigger] stale@[k] == v0.job_stale(k, now),
                j <= m,
                self@ == (EngineView {
                    job_states: Seq::new(m as nat, |k: int| if k < j && stale@[k] { JobStatus::Failed } else { v1.job_states[k] }),
                    job_errors: Seq::new(m as nat, |k: int| if k < j && stale@[k] { Some("stale heartbeat"@) } else { v1.job_errors[k] }),
                    ..v1
                }),
            decreases m - j,
        {
            let ghost before = self@;
            if stale[j] {
                self.job_states.set(j, JobStatus::Failed);
                let e = "stale heartbeat".to_string();
                assert(e@ == "stale heartbeat"@);
                self.job_errors.set(j, Some(e));
                assert(self@.job_errors[j as int] == Some("stale heartbeat"@));
            }
            proof {
                assert forall|k: int| 0 <= k < m && k != j implies #[trigger] self@.job_errors[k] == before.job_errors[k] by {}
                assert(self@.job_states =~= Seq::new(m as nat, |k: int| if k < j + 1 && stale@[k] { JobStatus::Failed } else { v1.job_states[k] }));
                assert(self@.job_errors =~= Seq::new(m as nat, |k: int| if k < j + 1 && stale@[k] { Some("stale heartbeat"@) } else { v1.job_errors[k] }));
            }
            j = j + 1;
        }
        proof {
            assert(self@.job_states =~= set_where(v0.job_states, Seq::new(m as nat, |k: int| v0.job_stale(k, now)), JobStatus::Failed));
            assert(self@.job_errors =~= set_where(v0.job_errors, Seq::new(m as nat, |k: int| v0.job_stale(k, now)), Some("stale heartbeat"@)));
            assert(self@ =~= v0.released(now, "stale heartbeat"@));
            lemma_release_wf(v0, now, "stale heartbeat"@);
        }
    }

    /// Pending nodes whose predecessors are all finished or cancelled become executable.
    fn promote_unblocked(&mut self)
        requires
            old(self).wf(),
        ensures
            final(self).wf(),
            final(self)@ == old(self)@.promoted(),
    {
        let n = self.nodes.len();
        let mut flags: Vec<bool> = Vec::new();
        let mut i: usize = 0;
        while i < n
            invariant
                self.wf(),
                n == self@.nodes.len(),
                i <= n,
                flags@.len() == i,
                forall|k: int| 0 <= k < i ==> #[trigger] flags@[k] == self@.promote_selects(k),
            decreases n - i,
        {
            flags.push(self.node_states[i] == NodeStatus::Pending && self.preds_done_exec(i));
            i = i + 1;
        }
        proof {
            assert(flags@ =~= Seq::new(n as nat, |k: int| self@.promote_selects(k)));
            lemma_move_wf(self@, flags@, NodeStatus::Executable, TransitionReason::Promote);
        }
        self.apply_moves(&flags, NodeStatus::Executable, TransitionReason::Promote);
    }
}

/// Releasing stale jobs keeps the engine well formed.
pub proof fn lemma_release_wf(v: EngineView, now: u64, err: Seq<char>)
    requires
        v.wf(),
        v.nodes.len() <= usize::MAX,
    ensures
        v.released(now, err).wf(),
{
    let sel = Seq::new(v.nodes.len(), |i: int| v.release_selects(i, now));
    let w = v.released(now, err);
    lemma_true_indices_bounds(sel);
    let log = log_for(sel, NodeStatus::Executable, TransitionReason::ReleaseStale);
    assert forall|k: int| 0 <= k < w.events.len() implies #[trigger] w.events[k].node_id < w.nodes.len() by {
        if k >= v.events.len() {
            assert(w.events[k] == log[k - v.events.len()]);
        }
    }
    assert forall|j: int| 0 <= j < w.job_nodes.len() && w.job_states[j] == JobStatus::Running implies {
        let s = #[trigger] w.node_states[w.job_nodes[j] as int];
        s == NodeStatus::InProgress || s == NodeStatus::Cancelled
    } by {
        let i = v.job_nodes[j] as int;
        assert(!v.job_stale(j, now));
        if sel[i] {
            let j0 = choose|j0: int| 0 <= j0 < v.job_nodes.len() && v.job_nodes[j0] == i && #[trigger] v.job_stale(j0, now);
            assert(j0 != j);
            assert(v.job_states[j0] == JobStatus::Running);
        }
    }
    assert forall|j1: int, j2: int|
        0 <= j1 < w.job_nodes.len() && 0 <= j2 < w.job_nodes.len() && j1 != j2
            && #[trigger] w.job_states[j1] == JobStatus::Running && #[trigger] w.job_states[j2]
            == JobStatus::Running implies w.job_nodes[j1] != w.job_nodes[j2] by {
        assert(v.job_states[j1] == JobStatus::Running);
        assert(v.job_states[j2] == JobStatus::Running);
    }
}

impl PipelineEngine {
    fn triggers_unwind_exec(&self, p: usize) -> (r: bool)
        requires
            self.wf(),
            p < self@.pipelines.len(),
        ensures
            r == self@.triggers_unwind(p as int),
    {
        if self.pipeline_states[p] != PipelineStatus::Active {
            return false;
        }
        let mut i: usize = 0;
        while i < self.nodes.len()
            invariant
                self.wf(),
                p < self@.pipelines.len(),
                self@.pipeline_states[p as int] == PipelineStatus::Active,
                i <= self.nodes.len(),
                forall|k: int| 0 <= k < i && #[trigger] self@.nodes[k].pipeline == p ==> !(self@.node_states[k]
                    == NodeStatus::Failed && self@.nodes[k].unwind_on_failure),
            decreases self.nodes.len() - i,
        {
            if self.nodes[i].pipeline == p && self.node_states[i] == NodeStatus::Failed && self.nodes[i].unwind_on_failure {
                assert(self@.nodes[i as int].pipeline == p && self@.node_states[i as int] == NodeStatus::Failed
                    && self@.nodes[i as int].unwind_on_failure);
                return true;
            }
            i = i + 1;
        }
        false
    }

    /// Pipelines with a failed node that unwinds on failure start unwinding; the pending and
    /// executable nodes of their cancel scopes are cancelled.
    fn trigger_unwind(&mut self)
        requires
            old(self).wf(),
        ensures
            final(self).wf(),
            final(self)@ == old(self)@.unwind_triggered(),
    {
        let n = self.nodes.len();
        let np = self.pipelines.len();
        let mut trig: Vec<bool> = Vec::new();
        let mut p: usize = 0;
        while p < np
            invariant
                self.wf(),
                np == self@.pipelines.len(),
                p <= np,
                trig@.len() == p,
                forall|q: int| 0 <= q < p ==> #[trigger] trig@[q] == self@.triggers_unwind(q),
            decreases np - p,
        {
            trig.push(self.triggers_unwind_exec(p));
            p = p + 1;
        }
        let mut flags: Vec<bool> = Vec::new();
        let mut i: usize = 0;
        while i < n
            invariant
                n == self@.nodes.len(),
                i <= n,
                flags@.len() == i,
                forall|k: int| 0 <= k < i ==> !#[trigger] flags@[k],
            decreases n - i,
        {
            flags.push(false);
            i = i + 1;
        }
        let mut p: usize = 0;
        while p < np
            invariant
                self.wf(),
                np == self@.pipelines.len(),
                n == self@.nodes.len(),
                trig@.len() == np,
                forall|q: int| 0 <= q < np ==> #[trigger] trig@[q] == self@.triggers_unwind(q),
                p <= np,
                flags@.len() == n,
                forall|k: int| 0 <= k < n ==> #[trigger] flags@[k] == (self@.pipeline_of(k) < p && self@.scope_cancel_selects(k)),
            decreases np - p,
        {
            if trig[p] {
                let sc = self.cancel_scope_exec(p);
                let mut i: usize = 0;
                while i < n
                    invariant
                        self.wf(),
                        np == self@.pipelines.len(),
                        n == self@.nodes.len(),
                        p < np,
                        trig@.len() == np,
                        trig@[p as int] == self@.triggers_unwind(p as int),
                        trig@[p as int],
                        sc@ == self@.cancel_scope(p as int),
                        i <= n,
                        flags@.len() == n,
                        forall|k: int| 0 <= k < n ==> #[trigger] flags@[k] == (
                            (self@.pipeline_of(k) < p && self@.scope_cancel_selects(k))
                            || (self@.pipeline_of(k) == p && k < i && self@.scope_cancel_selects(k))),
                    decreases n - i,
                {
                    let st = self.node_states[i];
                    if self.nodes[i].pipeline == p && sc[i] && (st == NodeStatus::Pending || st == NodeStatus::Executable) {
                        flags.set(i, true);
                    }
                    i = i + 1;
                }
            }
            p = p + 1;
        }
        let ghost v0 = self@;
        proof {
            assert forall|k: int| 0 <= k < n implies #[trigger] flags@[k] == v0.scope_cancel_selects(k) by {
                assert(v0.nodes[k].pipeline < np);
            }
            assert(flags@ =~= Seq::new(n as nat, |k: int| v0.scope_cancel_selects(k)));
            lemma_move_wf(v0, flags@, NodeStatus::Cancelled, TransitionReason::UnwindScopeCancel);
        }
        self.apply_moves(&flags, NodeStatus::Cancelled, TransitionReason::UnwindScopeCancel);
        let ghost v1 = self@;
        let mut p: usize = 0;
        proof {
            assert(self@.pipeline_states =~= Seq::new(np as nat, |q: int| if q < 0 && trig@[q] { PipelineStatus::Unwinding } else { v1.pipeline_states[q] }));
        }
        while p < np
            invariant
                np == self@.pipelines.len(),
                np == self.pipeline_states@.len(),
                trig@.len() == np,
                forall|q: int| 0 <= q < np ==> #[trigger] trig@[q] == v0.triggers_unwind(q),
                p <= np,
                self@ == (EngineView {
                    pipeline_states: Seq::new(np as nat, |q: int| if q < p && trig@[q] { PipelineStatus::Unwinding } else { v1.pipeline_states[q] }),
                    ..v1
                }),
            decreases np - p,
        {
            if trig[p] {
                self.pipeline_states.set(p, PipelineStatus::Unwinding);
            }
            proof {
                assert(self@.pipeline_states =~= Seq::new(np as nat, |q: int| if q < p + 1 && trig@[q] { PipelineStatus::Unwinding } else { v1.pipeline_states[q] }));
            }
            p = p + 1;
        }
        proof {
            assert(self@.pipeline_states =~= Seq::new(np as nat, |q: int| if v0.triggers_unwind(q) { PipelineStatus::Unwinding } else { v0.pipeline_states[q] }));
            assert(self@ =~= v0.unwind_triggered());
        }
    }

    fn has_in_progress_exec(&self, p: usize) -> (r: bool)
        requires
            self.wf(),
        ensures
            r == self@.has_in_progress(p as int),
    {
        let mut i: usize = 0;
        while i < self.nodes.len()
            invariant
                self.wf(),
                i <= self.nodes.len(),
                forall|k: int| 0 <= k < i && #[trigger] self@.nodes[k].pipeline == p ==> self@.node_states[k] != NodeStatus::InProgress,
            decreases self.nodes.len() - i,
        {
            if self.nodes[i].pipeline == p && self.node_states[i] == NodeStatus::InProgress {
                assert(self@.nodes[i as int].pipeline == p);
                return true;
            }
            i = i + 1;
        }
        false
    }

    /// When nothing is left to unwind anywhere, unwinding pipelines with no node in progress
    /// are unwound.
    fn complete_unwinding(&mut self)
        requires
            old(self).wf(),
        ensures
            final(self).wf(),
            final(self)@ == old(self)@.unwinding_completed(),
    {
        let elig = self.unwind_eligible_exec();
        let mut i: usize = 0;
        while i < elig.len()
            invariant
                self.wf(),
                elig@ == self@.unwind_eligible_flags(),
                i <= elig.len(),
                forall|k: int| 0 <= k < i ==> !#[trigger] self@.unwind_eligible(k),
            decreases elig.len() - i,
        {
            if elig[i] {
                assert(self@.unwind_eligible(i as int));
                return;
            }
            i = i + 1;
        }
        let np = self.pipelines.len();
        let mut done: Vec<bool> = Vec::new();
        let mut p: usize = 0;
        while p < np
            invariant
                self.wf(),
                np == self@.pipelines.len(),
                p <= np,
                done@.len() == p,
                forall|q: int| 0 <= q < p ==> #[trigger] done@[q] == (self@.pipeline_states[q] == PipelineStatus::Unwinding
                    && !self@.has_in_progress(q)),
            decreases np - p,
        {
            let b = self.pipeline_states[p] == PipelineStatus::Unwinding && !self.has_in_progress_exec(p);
            done.push(b);
            p = p + 1;
        }
        let ghost v0 = self@;
        let mut p: usize = 0;
        proof {
            assert(self@.pipeline_states =~= Seq::new(np as nat, |q: int| if q < 0 && done@[q] { PipelineStatus::Unwound } else { v0.pipeline_states[q] }));
        }
        while p < np
            invariant
                np == self@.pipelines.len(),
                np == self.pipeline_states@.len(),
                done@.len() == np,
                p <= np,
                self@ == (EngineView {
                    pipeline_states: Seq::new(np as nat, |q: int| if q < p && done@[q] { PipelineStatus::Unwound } else { v0.pipeline_states[q] }),
                    ..v0
                }),
            decreases np - p,
        {
            if done[p] {
                self.pipeline_states.set(p, PipelineStatus::Unwound);
            }
            proof {
                assert(self@.pipeline_states =~= Seq::new(np as nat, |q: int| if q < p + 1 && done@[q] { PipelineStatus::Unwound } else { v0.pipeline_states[q] }));
            }
            p = p + 1;
        }
        proof {
            assert(self@.pipeline_states =~= Seq::new(np as nat, |q: int|
                if v0.pipeline_states[q] == PipelineStatus::Unwinding && !v0.has_in_progress(q) {
                    PipelineStatus::Unwound
                } else {
                    v0.pipeline_states[q]
                }));
            assert(self@ =~= v0.unwinding_completed());
        }
    }
}

/// Whether a dispatch applies a revision or rolls one back.
#[derive(Debug, Clone, Copy, PartialEq, Eq, Structural)]
pub enum DispatchDirection {
    /// Apply this revision's desired state to the resource.
    Deploy,
    /// Reverse a previous deployment: restore the resource to `restore_revision_id`, or tear
    /// down what this revision created when it is `None`.
    Unwind { restore_revision_id: Option<usize> },
}

/// The work handed to a worker: which direction, which revision, which node.
#[derive(Debug)]
pub struct Dispatch {
    pub direction: DispatchDirection,
    pub revision_id: usize,
    pub node: Node,
}

/// A dispatched node with the job through which its worker reports back.
#[derive(Debug)]
pub struct ClaimedJob {
    pub dispatch: Dispatch,
    pub handle: JobHandle,
}

/// `r` lists the jobs created for `ids` (forward dispatches first, `nf` of them), numbered
/// from `first_job`, each describing its node as it stands in `v`.
pub open spec fn dispatches_match(v: EngineView, ids: Seq<usize>, nf: int, first_job: int, r: Seq<ClaimedJob>) -> bool {
    &&& r.len() == ids.len()
    &&& forall|k: int| 0 <= k < r.len() ==> {
        let c = #[trigger] r[k];
        &&& c.handle.job() == first_job + k
        &&& c.handle.node() == ids[k]
        &&& c.dispatch.node.view() == v.node_report(ids[k] as int)
        &&& c.dispatch.revision_id == v.revision_of(ids[k] as int)
        &&& c.dispatch.direction == (if k < nf {
            DispatchDirection::Deploy
        } else {
            DispatchDirection::Unwind { restore_revision_id: v.restore_revision(ids[k] as int) }
        })
    }
}

/// Claiming the runnable and unwind-eligible nodes and giving each a running job keeps the
/// engine well formed.
pub proof fn lemma_claims_wf(v: EngineView, now: u64)
    requires
        v.wf(),
        v.nodes.len() <= usize::MAX,
    ensures
        ({
            let (f, u) = v.tick_claims();
            let fs = Seq::new(v.nodes.len(), |i: int| v.is_runnable(i));
            let w1 = v.move_nodes(fs, NodeStatus::InProgress, TransitionReason::Claim);
            let w = w1.move_nodes(v.unwind_eligible_flags(), NodeStatus::InProgress, TransitionReason::ClaimUnwind);
            &&& w1.wf()
            &&& w.wf()
            &&& w.with_jobs(f + u, now).wf()
            &&& forall|k: int| 0 <= k < (f + u).len() ==> #[trigger] (f + u)[k] < v.nodes.len()
        }),
{
    let (f, u) = v.tick_claims();
    let fs = Seq::new(v.nodes.len(), |i: int| v.is_runnable(i));
    let us = v.unwind_eligible_flags();
    assert(f == true_indices(fs));
    let w1 = v.move_nodes(fs, NodeStatus::InProgress, TransitionReason::Claim);
    lemma_move_wf(v, fs, NodeStatus::InProgress, TransitionReason::Claim);
    lemma_move_wf(w1, us, NodeStatus::InProgress, TransitionReason::ClaimUnwind);
    let w = w1.move_nodes(us, NodeStatus::InProgress, TransitionReason::ClaimUnwind);
    lemma_true_indices_bounds(fs);
    lemma_true_indices_bounds(us);
    let ids = f + u;
    let x = w.with_jobs(ids, now);
    let m = v.job_nodes.len();
    assert forall|k: int| 0 <= k < ids.len() implies #[trigger] ids[k] < v.nodes.len()
        && w.node_states[ids[k] as int] == NodeStatus::InProgress
        && (v.node_states[ids[k] as int] != NodeStatus::InProgress && v.node_states[ids[k] as int] != NodeStatus::Cancelled) by {
        if k < f.len() {
            assert(ids[k] == f[k]);
        } else {
            assert(ids[k] == u[k - f.len()]);
        }
    }
    assert forall|j: int| 0 <= j < x.job_nodes.len() implies #[trigger] x.job_nodes[j] < x.nodes.len() by {
        if j >= m {
            assert(x.job_nodes[j] == ids[j - m]);
        }
    }
    assert forall|j: int| 0 <= j < x.job_nodes.len() && x.job_states[j] == JobStatus::Running implies {
        let s = #[trigger] x.node_states[x.job_nodes[j] as int];
        s == NodeStatus::InProgress || s == NodeStatus::Cancelled
    } by {
        if j >= m {
            assert(x.job_nodes[j] == ids[j - m]);
        } else {
            assert(w.job_states[j] == JobStatus::Running);
        }
    }
    assert forall|j1: int, j2: int|
        0 <= j1 < x.job_nodes.len() && 0 <= j2 < x.job_nodes.len() && j1 != j2
            && #[trigger] x.job_states[j1] == JobStatus::Running && #[trigger] x.job_states[j2]
            == JobStatus::Running implies x.job_nodes[j1] != x.job_nodes[j2] by {
        if j1 < m && j2 < m {
            assert(w.job_states[j1] == JobStatus::Running);
            assert(w.job_states[j2] == JobStatus::Running);
        } else if j1 < m {
            let b = ids[j2 - m];
            assert(x.job_nodes[j2] == b);
            assert(v.job_states[j1] == JobStatus::Running);
        } else if j2 < m {
            let a = ids[j1 - m];
            assert(x.job_nodes[j1] == a);
            assert(v.job_states[j2] == JobStatus::Running);
        } else {
            let k1 = j1 - m;
            let k2 = j2 - m;
            assert(x.job_nodes[j1] == ids[k1]);
            assert(x.job_nodes[j2] == ids[k2]);
            if k1 < f.len() && k2 < f.len() {
                assert(ids[k1] == f[k1] && ids[k2] == f[k2]);
                if k1 < k2 { assert(f[k1] < f[k2]); } else { assert(f[k2] < f[k1]); }
            } else if k1 >= f.len() && k2 >= f.len() {
                assert(ids[k1] == u[k1 - f.len()] && ids[k2] == u[k2 - f.len()]);
                if k1 < k2 { assert(u[k1 - f.len()] < u[k2 - f.len()]); } else { assert(u[k2 - f.len()] < u[k1 - f.len()]); }
            } else if k1 < f.len() {
                assert(ids[k1] == f[k1] && ids[k2] == u[k2 - f.len()]);
                assert(fs[f[k1] as int]);
                assert(us[u[k2 - f.len()] as int]);
            } else {
                assert(ids[k2] == f[k2] && ids[k1] == u[k1 - f.len()]);
                assert(fs[f[k2] as int]);
                assert(us[u[k1 - f.len()] as int]);
            }
        }
    }
}

impl PipelineEngine {
    /// One round of work, at time `now` (in seconds):
    /// 1. nodes whose worker stopped sending heartbeats for over 60 seconds become executable
    ///    again (their jobs fail);
    /// 2. pending nodes whose predecessors are all done become executable;
    /// 3. pipelines with a failed node that unwinds on failure start unwinding, cancelling the
    ///    unreached nodes of their scope;
    /// 4. when nothing is left to unwind, unwinding pipelines with no work in progress are
    ///    unwound;
    /// 5. the runnable nodes (dispatched forward) and the nodes ready to unwind are claimed,
    ///    each with a new running job.
    ///
    /// Returns the claimed work, forward dispatches first. Each worker reports through the
    /// job's handle: success makes the node finished (forward) or unwound (unwind), failure
    /// makes it failed or unwind-failed.
    pub fn tick(&mut self, now: u64) -> (r: Vec<ClaimedJob>)
        requires
            old(self).wf(),
        ensures
            final(self).wf(),
            final(self)@ == old(self)@.ticked(now, "stale heartbeat"@),
            ({
                let (f, u) = old(self)@.tick_prepared(now, "stale heartbeat"@).tick_claims();
                dispatches_match(final(self)@, f + u, f.len() as int, old(self)@.job_nodes.len() as int, r@)
            }),
    {
        self.release_stale(now);
        self.promote_unblocked();
        self.trigger_unwind();
        self.complete_unwinding();
        let ghost v = self@;
        let _n = self.nodes.len();
        let fflags = self.runnable_flags();
        let uflags = self.unwind_eligible_exec();
        let f = collect_true(&fflags);
        let u = collect_true(&uflags);
        proof {
            lemma_claims_wf(v, now);
        }
        self.apply_moves(&fflags, NodeStatus::InProgress, TransitionReason::Claim);
        self.apply_moves(&uflags, NodeStatus::InProgress, TransitionReason::ClaimUnwind);
        let ghost w = self@;
        let mut ids: Vec<usize> = Vec::new();
        let mut k: usize = 0;
        while k < f.len()
            invariant
                k <= f.len(),
                ids@ == f@.take(k as int),
            decreases f.len() - k,
        {
            ids.push(f[k]);
            proof {
                assert(f@.take(k + 1) =~= f@.take(k as int).push(f@[k as int]));
            }
            k = k + 1;
        }
        let mut k: usize = 0;
        while k < u.len()
            invariant
                k <= u.len(),
                ids@ == f@ + u@.take(k as int),
            decreases u.len() - k,
        {
            proof {
                assert(f@.take(f@.len() as int) =~= f@);
            }
            ids.push(u[k]);
            proof {
                assert(f@ + u@.take(k + 1) =~= (f@ + u@.take(k as int)).push(u@[k as int]));
            }
            k = k + 1;
        }
        proof {
            assert(f@.take(f@.len() as int) =~= f@);
            assert(u@.take(u@.len() as int) =~= u@);
            assert(ids@ =~= f@ + u@);
        }
        let first = self.job_nodes.len();
        let mut k: usize = 0;
        while k < ids.len()
            invariant
                k <= ids.len(),
                first == w.job_nodes.len(),
                self@ == (EngineView {
                    job_nodes: w.job_nodes + ids@.take(k as int),
                    job_states: w.job_states + Seq::new(k as nat, |x: int| JobStatus::Running),
                    job_errors: w.job_errors + Seq::new(k as nat, |x: int| None::<Seq<char>>),
                    heartbeats: w.heartbeats + Seq::new(k as nat, |x: int| now),
                    ..w
                }),
            decreases ids.len() - k,
        {
            proof {
                assert(ids@.take(0) =~= Seq::<usize>::empty());
            }
            let ghost before = self@;
            self.job_nodes.push(ids[k]);
            self.job_states.push(JobStatus::Running);
            self.job_errors.push(None);
            self.heartbeats.push(now);
            proof {
                assert(self@.job_errors[before.job_errors.len() as int] == None::<Seq<char>>);
                assert forall|x: int| 0 <= x < before.job_errors.len() implies #[trigger] self@.job_errors[x] == before.job_errors[x] by {}
                assert(self@.job_nodes =~= w.job_nodes + ids@.take(k + 1));
                assert(self@.job_states =~= w.job_states + Seq::new((k + 1) as nat, |x: int| JobStatus::Running));
                assert(self@.job_errors =~= w.job_errors + Seq::new((k + 1) as nat, |x: int| None::<Seq<char>>));
                assert(self@.heartbeats =~= w.heartbeats + Seq::new((k + 1) as nat, |x: int| now));
            }
            k = k + 1;
        }
        proof {
            assert(ids@.take(ids@.len() as int) =~= ids@);
            assert(self@ =~= w.with_jobs(ids@, now));
        }
        let nf = f.len();
        let total = self.job_nodes.len();
        assert(total == first + ids@.len());
        let mut r: Vec<ClaimedJob> = Vec::new();
        let mut k: usize = 0;
        while k < ids.len()
            invariant
                self.wf(),
                k <= ids.len(),
                nf <= ids.len(),
                forall|x: int| 0 <= x < ids@.len() ==> #[trigger] ids@[x] < self@.nodes.len(),
                first + ids@.len() == self@.job_nodes.len(),
                first + ids@.len() <= usize::MAX,
                r@.len() == k,
                forall|x: int| 0 <= x < k ==> {
                    let c = #[trigger] r@[x];
                    &&& c.handle.job() == first + x
                    &&& c.handle.node() == ids@[x]
                    &&& c.dispatch.node.view() == self@.node_report(ids@[x] as int)
                    &&& c.dispatch.revision_id == self@.revision_of(ids@[x] as int)
                    &&& c.dispatch.direction == (if x < nf {
                        DispatchDirection::Deploy
                    } else {
                        DispatchDirection::Unwind { restore_revision_id: self@.restore_revision(ids@[x] as int) }
                    })
                },
            decreases ids.len() - k,
        {
            let i = ids[k];
            let node = self.report(i);
            let direction = if k < nf {
                DispatchDirection::Deploy
            } else {
                DispatchDirection::Unwind { restore_revision_id: self.restore_revision_exec(i) }
            };
            let c = ClaimedJob {
                dispatch: Dispatch { direction, revision_id: self.revision_of_exec(i), node },
                handle: JobHandle { job_id: first + k, node_id: i },
            };
            r.push(c);
            k = k + 1;
        }
        r
    }
}

/// Why a node is not running.
#[derive(Debug)]
pub enum BlockReason {
    /// The node is not executable (e.g. pending, failed, in progress); the listed
    /// predecessors are the ones neither finished nor cancelled.
    NotExecutable { state: NodeStatus, pending_predecessors: Vec<Node> },
    /// The node is executable but an older revision has unfinished work on the same resource.
    ResourceContention { blocking_node: Node, blocking_revision: usize, blocking_pipeline: usize },
}

impl PipelineEngine {
    /// Why `node_id` is not running, or `None` when it is executable and no older revision
    /// holds its resource.
    pub fn why_blocked(&self, node_id: usize) -> (r: Result<Option<BlockReason>, EngineError>)
        requires
            self.wf(),
        ensures
            node_id >= self@.nodes.len() ==> r matches Err(EngineError::UnknownNode),
            node_id < self@.nodes.len() && self@.node_states[node_id as int] != NodeStatus::Executable ==> match r {
                Ok(Some(BlockReason::NotExecutable { state, pending_predecessors })) =>
                    state == self@.node_states[node_id as int]
                    && node_views(pending_predecessors@) == self@.reports(self@.edge_sources(self@.pending_pred_edges(node_id as int))),
                _ => false,
            },
            node_id < self@.nodes.len() && self@.node_states[node_id as int] == NodeStatus::Executable ==> match r {
                Ok(None) => !self@.fifo_blocked(node_id as int),
                Ok(Some(BlockReason::ResourceContention { blocking_node, blocking_revision, blocking_pipeline })) =>
                    self@.first_blocker(blocking_node.node_id as int, node_id as int)
                    && blocking_node.view() == self@.node_report(blocking_node.node_id as int)
                    && blocking_revision == self@.revision_of(blocking_node.node_id as int)
                    && blocking_pipeline == self@.pipeline_of(blocking_node.node_id as int),
                _ => false,
            },
            node_id < self@.nodes.len() && self@.pipeline_states[self@.pipeline_of(node_id as int)] == PipelineStatus::Active
                && active_nodes_ready(self@) ==> ((r matches Ok(None)) <==> self@.is_runnable(node_id as int)),
    {
        if node_id >= self.nodes.len() {
            return Err(EngineError::UnknownNode);
        }
        let state = self.node_states[node_id];
        if state != NodeStatus::Executable {
            let m = self.edges.len();
            let mut flags: Vec<bool> = Vec::new();
            let mut e: usize = 0;
            while e < m
                invariant
                    self.wf(),
                    m == self@.edges.len(),
                    e <= m,
                    flags@.len() == e,
                    forall|k: int| 0 <= k < e ==> #[trigger] flags@[k] == (self@.edges[k].1 == node_id
                        && !done_forward(self@.node_states[self@.edges[k].0 as int])),
                decreases m - e,
            {
                let (a, b) = self.edges[e];
                proof {
                    assert(self@.edges[e as int] == (a, b));
                }
                flags.push(b == node_id && !is_done_forward(self.node_states[a]));
                e = e + 1;
            }
            proof {
                assert(flags@ =~= self@.pending_pred_flags(node_id as int));
                lemma_true_indices_bounds(flags@);
            }
            let es = collect_true(&flags);
            let mut srcs: Vec<usize> = Vec::new();
            let mut k: usize = 0;
            while k < es.len()
                invariant
                    self.wf(),
                    es@ == self@.pending_pred_edges(node_id as int),
                    forall|x: int| 0 <= x < es@.len() ==> #[trigger] es@[x] < self@.edges.len(),
                    k <= es.len(),
                    srcs@ == self@.edge_sources(es@.take(k as int)),
                    forall|x: int| 0 <= x < srcs@.len() ==> #[trigger] srcs@[x] < self@.nodes.len(),
                decreases es.len() - k,
            {
                let (a, _b) = self.edges[es[k]];
                srcs.push(a);
                proof {
                    assert(es@.take(k + 1) =~= es@.take(k as int).push(es@[k as int]));
                    assert(srcs@ =~= self@.edge_sources(es@.take(k + 1)));
                }
                k = k + 1;
            }
            proof {
                assert(es@.take(es@.len() as int) =~= es@);
            }
            let preds = self.reports(&srcs);
            return Ok(Some(BlockReason::NotExecutable { state, pending_predecessors: preds }));
        }
        let mut j: usize = 0;
        while j < self.nodes.len()
            invariant
                self.wf(),
                node_id < self@.nodes.len(),
                self@.node_states[node_id as int] == NodeStatus::Executable,
                j <= self.nodes.len(),
                forall|k: int| 0 <= k < j ==> !#[trigger] self@.blocks(k, node_id as int),
            decreases self.nodes.len() - j,
        {
            if self.same_key_exec(j, node_id) && self.revision_of_exec(j) < self.revision_of_exec(node_id)
                && !is_fifo_terminal(self.node_states[j]) {
                assert(self@.blocks(j as int, node_id as int));
                proof {
                    assert(self@.nodes[j as int].pipeline < self@.pipelines.len());
                }
                let blocking_node = self.report(j);
                return Ok(Some(BlockReason::ResourceContention {
                    blocking_node,
                    blocking_revision: self.revision_of_exec(j),
                    blocking_pipeline: self.nodes[j].pipeline,
                }));
            }
            j = j + 1;
        }
        proof {
            if self@.pipeline_states[self@.pipeline_of(node_id as int)] == PipelineStatus::Active && active_nodes_ready(self@) {
                assert(forward_started(self@.node_states[node_id as int]));
            }
        }
        Ok(None)
    }

    fn latest_error_exec(&self, i: usize) -> (r: Option<usize>)
        requires
            self.wf(),
        ensures
            r == self@.latest_error_job(i as int),
            r matches Some(j) ==> j < self@.job_nodes.len() && self@.job_errors[j as int] is Some,
    {
        let mut k = self.job_nodes.len();
        while k > 0
            invariant
                self.wf(),
                k <= self.job_nodes.len(),
                self@.latest_error_job(i as int) == self@.latest_error_job_below(i as int, k as nat),
            decreases k,
        {
            if self.job_nodes[k - 1] == i && self.job_errors[k - 1].is_some() {
                return Some(k - 1);
            }
            k = k - 1;
        }
        None
    }

    /// The event log of the nodes of `pipeline_id`, oldest first.
    pub fn node_events(&self, pipeline_id: usize) -> (r: Vec<NodeEvent>)
        requires
            self.wf(),
        ensures
            r@ == self@.pipeline_event_ids(pipeline_id as int).map_values(|k: usize| self@.events[k as int]),
    {
        let m = self.events.len();
        let mut flags: Vec<bool> = Vec::new();
        let mut k: usize = 0;
        while k < m
            invariant
                self.wf(),
                m == self@.events.len(),
                k <= m,
                flags@.len() == k,
                forall|x: int| 0 <= x < k ==> #[trigger] flags@[x] == (self@.nodes[self@.events[x].node_id as int].pipeline == pipeline_id),
            decreases m - k,
        {
            let ev = self.events[k];
            proof {
                assert(self@.events[k as int].node_id < self@.nodes.len());
            }
            flags.push(self.nodes[ev.node_id].pipeline == pipeline_id);
            k = k + 1;
        }
        proof {
            assert(flags@ =~= Seq::new(m as nat, |x: int| self@.nodes[self@.events[x].node_id as int].pipeline == pipeline_id as int));
            lemma_true_indices_bounds(flags@);
        }
        let ids = collect_true(&flags);
        let mut r: Vec<NodeEvent> = Vec::new();
        let mut k: usize = 0;
        while k < ids.len()
            invariant
                self.wf(),
                m == self@.events.len(),
                forall|x: int| 0 <= x < ids@.len() ==> #[trigger] ids@[x] < m,
                k <= ids.len(),
                r@ == ids@.take(k as int).map_values(|x: usize| self@.events[x as int]),
            decreases ids.len() - k,
        {
            r.push(self.events[ids[k]]);
            proof {
                assert(ids@.take(k + 1) =~= ids@.take(k as int).push(ids@[k as int]));
                assert(r@ =~= ids@.take(k + 1).map_values(|x: usize| self@.events[x as int]));
            }
            k = k + 1;
        }
        proof {
            assert(ids@.take(ids@.len() as int) =~= ids@);
        }
        r
    }

    /// For each node of `pipeline_id` (in creation order) whose jobs recorded an error, the
    /// error of its latest such job.
    pub fn node_errors(&self, pipeline_id: usize) -> (r: Vec<(usize, String)>)
        requires
            self.wf(),
        ensures
            r@.map_values(|x: (usize, String)| (x.0, x.1@)) == self@.error_report(self@.error_node_ids(pipeline_id as int)),
    {
        let n = self.nodes.len();
        let mut r: Vec<(usize, String)> = Vec::new();
        let mut i: usize = 0;
        let ghost sel = Seq::new(n as nat, |k: int| self@.nodes[k].pipeline == pipeline_id as int && self@.latest_error_job(k) is Some);
        while i < n
            invariant
                self.wf(),
                n == self@.nodes.len(),
                sel == Seq::new(n as nat, |k: int| self@.nodes[k].pipeline == pipeline_id as int && self@.latest_error_job(k) is Some),
                i <= n,
                r@.map_values(|x: (usize, String)| (x.0, x.1@)) == self@.error_report(true_indices(sel.take(i as int))),
            decreases n - i,
        {
            proof {
                assert(sel.take(i + 1) =~= sel.take(i as int).push(sel[i as int]));
                lemma_true_indices_push(sel.take(i as int), sel[i as int]);
            }
            if self.nodes[i].pipeline == pipeline_id {
                match self.latest_error_exec(i) {
                    Some(j) => {
                        match &self.job_errors[j] {
                            Some(err) => {
                                let ghost prev = r@;
                                r.push((i, clone_text(err)));
                                proof {
                                    assert(r@.map_values(|x: (usize, String)| (x.0, x.1@)) =~= prev.map_values(|x: (usize, String)| (x.0, x.1@)).push((i, err@)));
                                    assert(self@.error_report(true_indices(sel.take(i as int)).push(i)) =~= self@.error_report(true_indices(sel.take(i as int))).push((i, err@)));
                                }
                            },
                            None => {},
                        }
                    },
                    None => {},
                }
            }
            i = i + 1;
        }
        proof {
            assert(sel.take(n as int) =~= sel);
        }
        r
    }
}

impl PipelineEngine {
    fn preds_in_exec(&self, i: usize, set: &Vec<bool>) -> (r: bool)
        requires
            self.wf(),
            set@.len() == self@.nodes.len(),
        ensures
            r == self@.preds_in(i as int, set@),
    {
        let mut e: usize = 0;
        while e < self.edges.len()
            invariant
                self.wf(),
                set@.len() == self@.nodes.len(),
                e <= self.edges.len(),
                forall|e2: int| 0 <= e2 < e && #[trigger] self@.edges[e2].1 == i ==> set@[self@.edges[e2].0 as int],
            decreases self.edges.len() - e,
        {
            let (a, b) = self.edges[e];
            proof {
                assert(self@.edges[e as int] == (a, b));
            }
            if b == i && !set[a] {
                return false;
            }
            e = e + 1;
        }
        true
    }

    /// The nodes of `pipeline_id` by topological layer: layer 0 holds the roots, layer `k` the
    /// nodes whose longest path from a root has `k` edges. Within a layer, creation order.
    pub fn nodes_layered(&self, pipeline_id: usize) -> (r: Vec<Vec<Node>>)
        requires
            self.wf(),
        ensures
            r@.len() == self@.layers(pipeline_id as int).len(),
            forall|k: int| 0 <= k < r@.len() ==> node_views(#[trigger] r@[k]@) == self@.reports(self@.layers(pipeline_id as int)[k]),
    {
        let ghost p = pipeline_id as int;
        let n = self.nodes.len();
        let mut placed: Vec<bool> = Vec::new();
        let mut i: usize = 0;
        while i < n
            invariant
                self.wf(),
                n == self@.nodes.len(),
                i <= n,
                placed@.len() == i,
                forall|k: int| 0 <= k < i ==> #[trigger] placed@[k] == (self@.nodes[k].pipeline == pipeline_id && self@.is_root(k)),
            decreases n - i,
        {
            let b = self.nodes[i].pipeline == pipeline_id && self.is_root_exec(i);
            placed.push(b);
            i = i + 1;
        }
        assert(placed@ =~= self@.placed_upto(p, 0));
        let mut layer = copy_flags(&placed);
        let mut result: Vec<Vec<Node>> = Vec::new();
        let ghost mut k: nat = 0;
        let mut fuel: u128 = n as u128 + 1;
        while fuel > 0
            invariant
                self.wf(),
                n == self@.nodes.len(),
                k + fuel == n + 1,
                p == pipeline_id as int,
                placed@ == self@.placed_upto(p, k),
                layer@ == self@.layer_flags(p, k),
                self@.layers(p) == Seq::new(result@.len(), |x: int| self@.layers(p)[x]) + self@.layers_from(p, k, fuel as nat),
                result@.len() == k,
                forall|x: int| 0 <= x < result@.len() ==> node_views(#[trigger] result@[x]@) == self@.reports(self@.layers(p)[x]),
            ensures
                self@.layers(p) =~= Seq::new(result@.len(), |x: int| self@.layers(p)[x]),
                forall|x: int| 0 <= x < result@.len() ==> node_views(#[trigger] result@[x]@) == self@.reports(self@.layers(p)[x]),
            decreases fuel,
        {
            let _len = layer.len();
            proof {
                lemma_true_indices_bounds(layer@);
            }
            let ids = collect_true(&layer);
            if ids.len() == 0 {
                proof {
                    assert(self@.layers_from(p, k, fuel as nat) =~= Seq::<Seq<usize>>::empty());
                }
                break;
            }
            let nodes = self.reports(&ids);
            proof {
                assert(self@.layers_from(p, k, fuel as nat) =~= seq![ids@] + self@.layers_from(p, k + 1, (fuel - 1) as nat));
                assert(self@.layers(p)[k as int] == ids@);
            }
            result.push(nodes);
            let mut next: Vec<bool> = Vec::new();
            let mut i: usize = 0;
            while i < n
                invariant
                    self.wf(),
                    n == self@.nodes.len(),
                    placed@.len() == n,
                    i <= n,
                    next@.len() == i,
                    forall|x: int| 0 <= x < i ==> #[trigger] next@[x] == (placed@[x] || (self@.nodes[x].pipeline == pipeline_id && self@.preds_in(x, placed@))),
                decreases n - i,
            {
                let b = placed[i] || (self.nodes[i].pipeline == pipeline_id && self.preds_in_exec(i, &placed));
                next.push(b);
                i = i + 1;
            }
            let mut new_layer: Vec<bool> = Vec::new();
            let mut i: usize = 0;
            while i < n
                invariant
                    n == self@.nodes.len(),
                    placed@.len() == n,
                    next@.len() == n,
                    i <= n,
                    new_layer@.len() == i,
                    forall|x: int| 0 <= x < i ==> #[trigger] new_layer@[x] == (next@[x] && !placed@[x]),
                decreases n - i,
            {
                new_layer.push(next[i] && !placed[i]);
                i = i + 1;
            }
            proof {
                let prev = self@.placed_upto(p, k);
                assert(prev == placed@);
                assert(self@.placed_upto(p, k + 1) == Seq::new(self@.nodes.len(), |x: int| prev[x] || (self@.nodes[x].pipeline == p && self@.preds_in(x, prev))));
                assert(next@ =~= self@.placed_upto(p, k + 1));
                assert(new_layer@ =~= self@.layer_flags(p, k + 1));
                assert(self@.layers(p) =~= Seq::new(result@.len(), |x: int| self@.layers(p)[x]) + self@.layers_from(p, k + 1, (fuel - 1) as nat));
            }
            placed = next;
            layer = new_layer;
            proof {
                k = k + 1;
            }
            fuel = fuel - 1;
        }
        result
    }
}

} // verus!
