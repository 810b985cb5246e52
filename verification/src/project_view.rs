//! How the engine's nodes and their history are shown on a project's deployment page.
use vstd::prelude::*;
use crate::pipeline_engine::engine::{node_views, opt_text, pipeline_views, Node, NodeView, Pipeline, PipelineEngine};
use crate::pipeline_engine::engine::PipelineReport;
use crate::pipeline_engine::model::{EngineView, NodeEvent, NodeStatus, PipelineStatus, TransitionReason};
use crate::text::push_text;

verus! {

/// The state of a node as the page shows it; a failed node carries its latest error.
#[derive(Debug)]
pub enum NodeState {
    Pending,
    Executable,
    InProgress,
    Finished,
    Failed { error: Option<String> },
    Cancelled,
    Unwound,
    UnwindFailed { error: Option<String> },
}

/// The name a node state is stored and shown under.
pub open spec fn status_name(s: NodeStatus) -> Seq<char> {
    match s {
        NodeStatus::Pending => "pending"@,
        NodeStatus::Executable => "executable"@,
        NodeStatus::InProgress => "in_progress"@,
        NodeStatus::Finished => "finished"@,
        NodeStatus::Failed => "failed"@,
        NodeStatus::Cancelled => "cancelled"@,
        NodeStatus::Unwound => "unwound"@,
        NodeStatus::UnwindFailed => "unwind_failed"@,
    }
}

/// The name of a node state.
pub fn status_str(s: NodeStatus) -> (r: &'static str)
    ensures
        r@ == status_name(s),
{
    match s {
        NodeStatus::Pending => "pending",
        NodeStatus::Executable => "executable",
        NodeStatus::InProgress => "in_progress",
        NodeStatus::Finished => "finished",
        NodeStatus::Failed => "failed",
        NodeStatus::Cancelled => "cancelled",
        NodeStatus::Unwound => "unwound",
        NodeStatus::UnwindFailed => "unwind_failed",
    }
}

/// The name a pipeline state is stored and shown under.
pub open spec fn pipeline_status_name(s: PipelineStatus) -> Seq<char> {
    match s {
        PipelineStatus::Active => "active"@,
        PipelineStatus::Unwinding => "unwinding"@,
        PipelineStatus::Finished => "finished"@,
        PipelineStatus::Unwound => "unwound"@,
        PipelineStatus::Cancelled => "cancelled"@,
    }
}

/// The name of a pipeline state.
pub fn pipeline_status_str(s: PipelineStatus) -> (r: &'static str)
    ensures
        r@ == pipeline_status_name(s),
{
    match s {
        PipelineStatus::Active => "active",
        PipelineStatus::Unwinding => "unwinding",
        PipelineStatus::Finished => "finished",
        PipelineStatus::Unwound => "unwound",
        PipelineStatus::Cancelled => "cancelled",
    }
}

/// The text of a number in decimal.
pub open spec fn decimal(n: nat) -> Seq<char>
    decreases n,
{
    if n < 10 {
        seq![digit_char(n)]
    } else {
        decimal(n / 10) + seq![digit_char(n % 10)]
    }
}

pub open spec fn digit_char(d: nat) -> char {
    "0123456789"@[d as int]
}

/// Appends `n` in decimal.
pub fn push_decimal(buf: &mut String, n: usize)
    ensures
        final(buf)@ == old(buf)@ + decimal(n as nat),
    decreases n,
{
    let digits = "0123456789";
    proof {
        reveal_strlit("0123456789");
    }
    if n >= 10 {
        push_decimal(buf, n / 10);
    }
    let d: usize = n % 10;
    push_text(buf, digits.substring_char(d, d + 1));
    proof {
        assert(digits@.subrange(d as int, d + 1) =~= seq![digit_char(d as nat)]);
    }
}

/// Why a node moved, as the history shows it; a job's outcome names the job.
pub open spec fn reason_text(r: TransitionReason) -> Seq<char> {
    match r {
        TransitionReason::Seal => "seal"@,
        TransitionReason::Promote => "promote"@,
        TransitionReason::Claim => "claim"@,
        TransitionReason::ClaimUnwind => "claim_unwind"@,
        TransitionReason::Succeed(j) => "succeed job="@ + decimal(j as nat),
        TransitionReason::Fail(j) => "fail job="@ + decimal(j as nat),
        TransitionReason::Retry => "retry"@,
        TransitionReason::Cancel => "cancel"@,
        TransitionReason::ReleaseStale => "release_stale"@,
        TransitionReason::UnwindScopeCancel => "unwind_scope_cancel"@,
    }
}

/// The text of a transition reason.
pub fn reason_string(r: TransitionReason) -> (s: String)
    ensures
        s@ == reason_text(r),
{
    let mut s = String::new();
    match r {
        TransitionReason::Seal => push_text(&mut s, "seal"),
        TransitionReason::Promote => push_text(&mut s, "promote"),
        TransitionReason::Claim => push_text(&mut s, "claim"),
        TransitionReason::ClaimUnwind => push_text(&mut s, "claim_unwind"),
        TransitionReason::Succeed(j) => {
            push_text(&mut s, "succeed job=");
            push_decimal(&mut s, j);
        },
        TransitionReason::Fail(j) => {
            push_text(&mut s, "fail job=");
            push_decimal(&mut s, j);
        },
        TransitionReason::Retry => push_text(&mut s, "retry"),
        TransitionReason::Cancel => push_text(&mut s, "cancel"),
        TransitionReason::ReleaseStale => push_text(&mut s, "release_stale"),
        TransitionReason::UnwindScopeCancel => push_text(&mut s, "unwind_scope_cancel"),
    }
    s
}

/// The shown state of a node in state `s`, whose latest error is `error`; only failed nodes
/// show the error.
pub open spec fn shown_state(s: NodeStatus, error: Option<String>, r: NodeState) -> bool {
    match s {
        NodeStatus::Pending => r is Pending,
        NodeStatus::Executable => r is Executable,
        NodeStatus::InProgress => r is InProgress,
        NodeStatus::Finished => r is Finished,
        NodeStatus::Failed => r == NodeState::Failed { error },
        NodeStatus::Cancelled => r is Cancelled,
        NodeStatus::Unwound => r is Unwound,
        NodeStatus::UnwindFailed => r == NodeState::UnwindFailed { error },
    }
}

/// The state a node is shown in.
pub fn node_state(s: NodeStatus, error: Option<String>) -> (r: NodeState)
    ensures
        shown_state(s, error, r),
{
    match s {
        NodeStatus::Pending => NodeState::Pending,
        NodeStatus::Executable => NodeState::Executable,
        NodeStatus::InProgress => NodeState::InProgress,
        NodeStatus::Finished => NodeState::Finished,
        NodeStatus::Failed => NodeState::Failed { error },
        NodeStatus::Cancelled => NodeState::Cancelled,
        NodeStatus::Unwound => NodeState::Unwound,
        NodeStatus::UnwindFailed => NodeState::UnwindFailed { error },
    }
}

// ----- a pipeline as the page shows it -----

/// A transition of one node: the state it moved to and why.
#[derive(Debug)]
pub struct ProjectDeploymentNodeEvent {
    pub to_state: String,
    pub reason: String,
}

/// A transition in the pipeline's timeline.
#[derive(Debug)]
pub struct ProjectDeploymentTimelineEntry {
    pub node_id: usize,
    pub to_state: String,
    pub reason: String,
}

/// A node with its state and its own transitions.
#[derive(Debug)]
pub struct ProjectDeploymentNode {
    pub node_id: usize,
    /// The node's event as JSON text, or `None` (JSON `null`) when it is not JSON. The page sends
    /// the JSON value that the text parses to.
    pub event: Option<String>,
    pub state: NodeState,
    pub resource_key: Option<String>,
    pub events: Vec<ProjectDeploymentNodeEvent>,
}

/// A pipeline with its nodes by topological layer and every transition of its nodes in order.
#[derive(Debug)]
pub struct ProjectDeploymentPipeline {
    pub pipeline_id: usize,
    pub revision_id: usize,
    pub state: PipelineStatus,
    pub layers: Vec<Vec<ProjectDeploymentNode>>,
    pub timeline: Vec<ProjectDeploymentTimelineEntry>,
}

impl ProjectDeploymentNodeEvent {
    pub open spec fn view(self) -> (Seq<char>, Seq<char>) {
        (self.to_state@, self.reason@)
    }
}

impl ProjectDeploymentTimelineEntry {
    pub open spec fn view(self) -> (usize, Seq<char>, Seq<char>) {
        (self.node_id, self.to_state@, self.reason@)
    }
}

pub open spec fn history_view(s: Seq<ProjectDeploymentNodeEvent>) -> Seq<(Seq<char>, Seq<char>)> {
    s.map_values(|e: ProjectDeploymentNodeEvent| e.view())
}

pub open spec fn timeline_view(s: Seq<ProjectDeploymentTimelineEntry>) -> Seq<(usize, Seq<char>, Seq<char>)> {
    s.map_values(|e: ProjectDeploymentTimelineEntry| e.view())
}

/// A logged transition as the timeline shows it.
pub open spec fn timeline_line(e: NodeEvent) -> (usize, Seq<char>, Seq<char>) {
    (e.node_id, status_name(e.to_state), reason_text(e.reason))
}

/// The transitions of `node` among `events`, in order.
pub open spec fn node_history(events: Seq<NodeEvent>, node: usize) -> Seq<(Seq<char>, Seq<char>)>
    decreases events.len(),
{
    if events.len() == 0 {
        Seq::empty()
    } else {
        let before = node_history(events.drop_last(), node);
        let e = events.last();
        if e.node_id == node {
            before.push((status_name(e.to_state), reason_text(e.reason)))
        } else {
            before
        }
    }
}

/// The error recorded for `node`: the last entry for it in `errors`.
pub open spec fn error_of(errors: Seq<(usize, Seq<char>)>, node: usize) -> Option<Seq<char>>
    decreases errors.len(),
{
    if errors.len() == 0 {
        None
    } else if errors.last().0 == node {
        Some(errors.last().1)
    } else {
        error_of(errors.drop_last(), node)
    }
}

pub open spec fn errors_view(errors: Seq<(usize, String)>) -> Seq<(usize, Seq<char>)> {
    errors.map_values(|x: (usize, String)| (x.0, x.1@))
}

/// The shown state of a node in state `s` whose latest error is `error`.
pub open spec fn state_shown(s: NodeStatus, error: Option<Seq<char>>, r: NodeState) -> bool {
    match s {
        NodeStatus::Failed => (r matches NodeState::Failed { error: e } && opt_text(e) == error),
        NodeStatus::UnwindFailed => (r matches NodeState::UnwindFailed { error: e } && opt_text(e) == error),
        NodeStatus::Pending => r is Pending,
        NodeStatus::Executable => r is Executable,
        NodeStatus::InProgress => r is InProgress,
        NodeStatus::Finished => r is Finished,
        NodeStatus::Cancelled => r is Cancelled,
        NodeStatus::Unwound => r is Unwound,
    }
}

/// Node `n` as the page shows it, given the pipeline's transitions and recorded errors.
pub open spec fn node_shown(n: NodeView, events: Seq<NodeEvent>, errors: Seq<(usize, Seq<char>)>, r: ProjectDeploymentNode) -> bool {
    &&& r.node_id == n.node_id
    &&& opt_text(r.event) == shown_event(n.event, parses_as_json(n.event))
    &&& state_shown(n.state, error_of(errors, n.node_id), r.state)
    &&& opt_text(r.resource_key) == n.resource_key
    &&& history_view(r.events@) == node_history(events, n.node_id)
}

/// The transitions of `node`, in order.
fn history_for(events: &Vec<NodeEvent>, node: usize) -> (r: Vec<ProjectDeploymentNodeEvent>)
    ensures
        history_view(r@) == node_history(events@, node),
{
    let mut out: Vec<ProjectDeploymentNodeEvent> = Vec::new();
    let mut k: usize = 0;
    while k < events.len()
        invariant
            k <= events.len(),
            history_view(out@) == node_history(events@.take(k as int), node),
        decreases events.len() - k,
    {
        let e = events[k];
        proof {
            assert(events@.take(k + 1).drop_last() =~= events@.take(k as int));
            assert(events@.take(k + 1).last() == e);
        }
        if e.node_id == node {
            let ghost before = history_view(out@);
            let entry = ProjectDeploymentNodeEvent { to_state: status_str(e.to_state).to_string(), reason: reason_string(e.reason) };
            out.push(entry);
            proof {
                assert(history_view(out@) =~= before.push(entry.view()));
            }
        }
        k = k + 1;
    }
    proof {
        assert(events@.take(k as int) =~= events@);
    }
    out
}

/// The error recorded for `node`, if any.
fn error_for(errors: &Vec<(usize, String)>, node: usize) -> (r: Option<String>)
    ensures
        opt_text(r) == error_of(errors_view(errors@), node),
{
    let ghost ev = errors_view(errors@);
    let mut k: usize = errors.len();
    assert(ev.take(k as int) =~= ev);
    while k > 0
        invariant
            k <= errors.len(),
            ev == errors_view(errors@),
            error_of(ev, node) == error_of(ev.take(k as int), node),
        decreases k,
    {
        proof {
            assert(ev.take(k as int).drop_last() =~= ev.take(k - 1));
            assert(ev.take(k as int).last() == (errors@[k - 1].0, errors@[k - 1].1@));
        }
        if errors[k - 1].0 == node {
            return Some(errors[k - 1].1.clone());
        }
        k = k - 1;
    }
    assert(ev.take(0) =~= Seq::<(usize, Seq<char>)>::empty());
    None
}

/// Whether `text` is one JSON document, as `serde_json` reads one.
pub uninterp spec fn parses_as_json(text: Seq<char>) -> bool;

/// Calls `serde_json::from_str::<serde_json::Value>` and tells whether it succeeded. The contract
/// only names the answer: which texts serde_json accepts is its grammar, not restated here.
#[verifier::external_body]
fn is_json(text: &str) -> (r: bool)
    ensures
        r == parses_as_json(text@),
{
    serde_json::from_str::<serde_json::Value>(text).is_ok()
}

/// The event the page shows: the text when it is JSON, otherwise nothing (JSON `null`).
pub open spec fn shown_event(text: Seq<char>, is_json: bool) -> Option<Seq<char>> {
    if is_json {
        Some(text)
    } else {
        None
    }
}

/// The event the page shows, given whether the event's text is JSON.
pub fn show_event(event: &String, is_json: bool) -> (r: Option<String>)
    ensures
        opt_text(r) == shown_event(event@, is_json),
{
    if is_json {
        Some(event.clone())
    } else {
        None
    }
}

/// A node as the page shows it: its event when that is JSON, and its state, which carries
/// `error` when it failed.
pub fn node_to_view(node: &Node, error: Option<String>, events: Vec<ProjectDeploymentNodeEvent>) -> (r: ProjectDeploymentNode)
    ensures
        r.node_id == node.node_id,
        opt_text(r.event) == shown_event(node.event@, parses_as_json(node.event@)),
        state_shown(node.state, opt_text(error), r.state),
        opt_text(r.resource_key) == opt_text(node.resource_key),
        history_view(r.events@) == history_view(events@),
{
    let key = match &node.resource_key {
        Some(k) => Some(k.clone()),
        None => None,
    };
    ProjectDeploymentNode {
        node_id: node.node_id,
        event: show_event(&node.event, is_json(node.event.as_str())),
        state: node_state(node.state, error),
        resource_key: key,
        events,
    }
}

/// A pipeline as the page shows it, from its nodes by layer, the transitions of its nodes in
/// order, and the errors recorded for them.
pub fn pipeline_view(p: &Pipeline, layers: &Vec<Vec<Node>>, events: &Vec<NodeEvent>, errors: &Vec<(usize, String)>) -> (r: ProjectDeploymentPipeline)
    ensures
        r.pipeline_id == p.pipeline_id,
        r.revision_id == p.revision_id,
        r.state == p.state,
        timeline_view(r.timeline@) == events@.map_values(|e: NodeEvent| timeline_line(e)),
        r.layers@.len() == layers@.len(),
        forall|k: int| 0 <= k < layers@.len() ==> (#[trigger] r.layers@[k])@.len() == layers@[k]@.len(),
        forall|k: int, i: int|
            0 <= k < layers@.len() && 0 <= i < layers@[k]@.len() ==> node_shown(
                #[trigger] layers@[k]@[i].view(),
                events@,
                errors_view(errors@),
                #[trigger] r.layers@[k]@[i],
            ),
{
    let mut timeline: Vec<ProjectDeploymentTimelineEntry> = Vec::new();
    let mut j: usize = 0;
    while j < events.len()
        invariant
            j <= events.len(),
            timeline_view(timeline@) == events@.take(j as int).map_values(|e: NodeEvent| timeline_line(e)),
        decreases events.len() - j,
    {
        let e = events[j];
        let ghost before = timeline_view(timeline@);
        let entry = ProjectDeploymentTimelineEntry {
            node_id: e.node_id,
            to_state: status_str(e.to_state).to_string(),
            reason: reason_string(e.reason),
        };
        timeline.push(entry);
        proof {
            assert(timeline_view(timeline@) =~= before.push(entry.view()));
            assert(events@.take(j + 1).map_values(|e: NodeEvent| timeline_line(e)) =~= events@.take(j as int).map_values(
                |e: NodeEvent| timeline_line(e),
            ).push(timeline_line(e)));
        }
        j = j + 1;
    }
    proof {
        assert(events@.take(j as int) =~= events@);
    }
    let mut shown: Vec<Vec<ProjectDeploymentNode>> = Vec::new();
    let mut k: usize = 0;
    while k < layers.len()
        invariant
            k <= layers.len(),
            shown@.len() == k,
            forall|x: int| 0 <= x < k ==> (#[trigger] shown@[x])@.len() == layers@[x]@.len(),
            forall|x: int, i: int|
                0 <= x < k && 0 <= i < layers@[x]@.len() ==> node_shown(
                    #[trigger] layers@[x]@[i].view(),
                    events@,
                    errors_view(errors@),
                    #[trigger] shown@[x]@[i],
                ),
        decreases layers.len() - k,
    {
        let layer = &layers[k];
        let mut row: Vec<ProjectDeploymentNode> = Vec::new();
        let mut i: usize = 0;
        while i < layer.len()
            invariant
                i <= layer.len(),
                k < layers@.len(),
                layer@ == layers@[k as int]@,
                row@.len() == i,
                forall|y: int| 0 <= y < i ==> node_shown(#[trigger] layer@[y].view(), events@, errors_view(errors@), row@[y]),
            decreases layer.len() - i,
        {
            let node = &layer[i];
            let history = history_for(events, node.node_id);
            let error = error_for(errors, node.node_id);
            let v = node_to_view(node, error, history);
            row.push(v);
            i = i + 1;
        }
        shown.push(row);
        k = k + 1;
    }
    ProjectDeploymentPipeline {
        pipeline_id: p.pipeline_id,
        revision_id: p.revision_id,
        state: p.state,
        layers: shown,
        timeline,
    }
}

/// Pipeline `p` of engine state `v` as the page shows it: its nodes by layer, each with its
/// state, latest error and transitions, and the pipeline's whole timeline.
pub open spec fn pipeline_shown(v: EngineView, p: PipelineReport, r: ProjectDeploymentPipeline) -> bool {
    let pid = p.pipeline_id as int;
    &&& r.pipeline_id == p.pipeline_id
    &&& r.revision_id == p.revision_id
    &&& r.state == p.state
    &&& timeline_view(r.timeline@) == v.pipeline_event_ids(pid).map_values(|k: usize| timeline_line(v.events[k as int]))
    &&& r.layers@.len() == v.layers(pid).len()
    &&& forall|k: int| 0 <= k < r.layers@.len() ==> (#[trigger] r.layers@[k])@.len() == v.layers(pid)[k].len()
    &&& forall|k: int, i: int|
        0 <= k < r.layers@.len() && 0 <= i < v.layers(pid)[k].len() ==> node_shown(
            v.node_report(v.layers(pid)[k][i] as int),
            v.pipeline_event_ids(pid).map_values(|x: usize| v.events[x as int]),
            v.error_report(v.error_node_ids(pid)),
            #[trigger] r.layers@[k]@[i],
        )
}

/// Pipeline `p` as the page shows it.
pub fn pipeline_to_view(engine: &PipelineEngine, p: &Pipeline) -> (r: ProjectDeploymentPipeline)
    requires
        engine.wf(),
    ensures
        pipeline_shown(engine@, p.view(), r),
{
    let layers = engine.nodes_layered(p.pipeline_id);
    let events = engine.node_events(p.pipeline_id);
    let errors = engine.node_errors(p.pipeline_id);
    let r = pipeline_view(p, &layers, &events, &errors);
    proof {
        let ids = engine@.pipeline_event_ids(p.pipeline_id as int);
        assert(errors_view(errors@) =~= engine@.error_report(engine@.error_node_ids(p.pipeline_id as int)));
        assert(events@ =~= ids.map_values(|x: usize| engine@.events[x as int]));
        assert(events@.map_values(|e: NodeEvent| timeline_line(e)) =~= ids.map_values(
            |k: usize| timeline_line(engine@.events[k as int]),
        ));
        assert forall|k: int| 0 <= k < r.layers@.len() implies (#[trigger] r.layers@[k])@.len() == engine@.layers(
            p.pipeline_id as int,
        )[k].len() by {
            assert(node_views(layers@[k]@).len() == layers@[k]@.len());
        }
        assert forall|k: int, i: int|
            0 <= k < r.layers@.len() && 0 <= i < engine@.layers(p.pipeline_id as int)[k].len() implies node_shown(
                engine@.node_report(engine@.layers(p.pipeline_id as int)[k][i] as int),
                engine@.pipeline_event_ids(p.pipeline_id as int).map_values(|x: usize| engine@.events[x as int]),
                engine@.error_report(engine@.error_node_ids(p.pipeline_id as int)),
                #[trigger] r.layers@[k]@[i],
            ) by {
            let lk = layers@[k]@;
            assert(node_views(lk) == engine@.reports(engine@.layers(p.pipeline_id as int)[k]));
            assert(node_views(lk).len() == lk.len());
            assert(node_views(lk)[i] == lk[i].view());
            assert(engine@.reports(engine@.layers(p.pipeline_id as int)[k])[i] == engine@.node_report(
                engine@.layers(p.pipeline_id as int)[k][i] as int,
            ));
            assert(node_shown(lk[i].view(), events@, errors_view(errors@), r.layers@[k]@[i]));
        }
    }
    r
}

/// An artifact of the build in progress.
#[derive(Debug)]
pub struct ProjectDeploymentArtifact {
    pub architecture: String,
    pub build_version: String,
    pub size_bytes: i64,
    pub fingerprint: String,
    /// Seconds since the epoch.
    pub registered_at: u64,
}

/// The revision being built: its artifacts so far and the architectures still missing.
#[derive(Debug)]
pub struct ProjectDeploymentRevision {
    pub revision_id: String,
    /// Seconds since the epoch.
    pub created_at: u64,
    pub artifacts: Vec<ProjectDeploymentArtifact>,
    pub missing_architectures: Vec<String>,
}

/// A project's deployment page: the build in progress, the pipelines still moving, and the
/// latest finished one.
#[derive(Debug)]
pub struct ProjectDeploymentView {
    pub build: Option<ProjectDeploymentRevision>,
    pub active_pipelines: Vec<ProjectDeploymentPipeline>,
    pub latest_finished_pipeline: Option<ProjectDeploymentPipeline>,
}

/// The deployment page of `project_id`, with `build` as the build in progress: every active or
/// unwinding pipeline of the project in creation order, and the finished one with the newest
/// revision.
pub fn project_deployments(engine: &PipelineEngine, project_id: &str, build: Option<ProjectDeploymentRevision>) -> (r: ProjectDeploymentView)
    requires
        engine.wf(),
    ensures
        r.build == build,
        r.active_pipelines@.len() == engine@.active_pipeline_ids(project_id@).len(),
        forall|i: int|
            0 <= i < r.active_pipelines@.len() ==> pipeline_shown(
                engine@,
                engine@.pipeline_report(engine@.active_pipeline_ids(project_id@)[i] as int),
                #[trigger] r.active_pipelines@[i],
            ),
        r.latest_finished_pipeline is None <==> !exists|p: int| #[trigger] engine@.finished_of(project_id@, p),
        r.latest_finished_pipeline matches Some(v) ==> engine@.finished_of(project_id@, v.pipeline_id as int) && pipeline_shown(
            engine@,
            engine@.pipeline_report(v.pipeline_id as int),
            v,
        ) && forall|q: int| #[trigger] engine@.finished_of(project_id@, q) ==> engine@.pipelines[q].revision <= v.revision_id,
{
    let pipelines = engine.active_pipelines(project_id);
    let ghost ids = engine@.active_pipeline_ids(project_id@);
    let mut active: Vec<ProjectDeploymentPipeline> = Vec::new();
    let mut i: usize = 0;
    while i < pipelines.len()
        invariant
            engine.wf(),
            i <= pipelines.len(),
            active@.len() == i,
            pipeline_views(pipelines@) == ids.map_values(|p: usize| engine@.pipeline_report(p as int)),
            forall|k: int| 0 <= k < i ==> pipeline_shown(engine@, engine@.pipeline_report(ids[k] as int), #[trigger] active@[k]),
        decreases pipelines.len() - i,
    {
        let v = pipeline_to_view(engine, &pipelines[i]);
        proof {
            assert(pipeline_views(pipelines@)[i as int] == pipelines@[i as int].view());
            assert(pipeline_views(pipelines@).len() == pipelines@.len());
            assert(ids.map_values(|p: usize| engine@.pipeline_report(p as int))[i as int] == engine@.pipeline_report(
                ids[i as int] as int,
            ));
        }
        let ghost before = active@;
        active.push(v);
        proof {
            assert forall|k: int| 0 <= k < i + 1 implies pipeline_shown(engine@, engine@.pipeline_report(ids[k] as int), #[trigger] active@[k]) by {
                if k < i {
                    assert(active@[k] == before[k]);
                }
            }
        }
        i = i + 1;
    }
    proof {
        assert(pipeline_views(pipelines@).len() == pipelines@.len());
    }
    let latest = match engine.latest_finished_pipeline(project_id) {
        None => None,
        Some(p) => Some(pipeline_to_view(engine, &p)),
    };
    ProjectDeploymentView { build, active_pipelines: active, latest_finished_pipeline: latest }
}

} // verus!
