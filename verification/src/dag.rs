//! Builds the deployment DAG of one revision of a project: configuration steps for each
//! environment, then the hosts in waves of growing size, beta before prod behind a gate.
use vstd::prelude::*;
use crate::arch::{ServiceEnv, env_name};
use crate::deployment_event::{
    DeploymentEvent, alert_configuration_json, database_migration_json, deploys_host, environment_gate_json, host_step_json,
    lemma_step_kinds, log_rule_configuration_json, route_update_json,
};
use crate::pipeline_engine::engine::{EngineError, PipelineEngine};
use crate::pipeline_engine::model::{EngineView, NodeInfoView, NodeStatus, PipelineInfoView, PipelineStatus};
use crate::pipeline_engine::node::{NodeOptions, NodeSpec};
use crate::resource_key::{DeploymentResource, Identifier, ResourceView, render_resource, valid_identifier};
use crate::text::str_eq;

verus! {

/// What the DAG of a project deploys.
pub struct ProjectConfig {
    pub project_id: String,
    pub has_database: bool,
    pub has_routes: bool,
    pub has_alerts: bool,
    pub has_log_rules: bool,
    pub beta_hosts: Vec<String>,
    pub prod_hosts: Vec<String>,
}

/// The text of each string.
pub open spec fn texts(s: Seq<String>) -> Seq<Seq<char>> {
    Seq::new(s.len(), |i: int| s[i]@)
}

// ----- waves -----

/// Where wave `k` starts: waves hold 1, 2, then 4 hosts each.
pub open spec fn wave_start(k: nat) -> nat {
    if k == 0 {
        0
    } else if k == 1 {
        1
    } else if k == 2 {
        3
    } else {
        (7 + 4 * (k - 3)) as nat
    }
}

/// How many hosts wave `k` holds when enough are left.
pub open spec fn wave_size(k: nat) -> nat {
    if k == 0 {
        1
    } else if k == 1 {
        2
    } else {
        4
    }
}

/// Where wave `k` ends among `n` items.
pub open spec fn wave_end(k: nat, n: nat) -> int {
    if wave_start(k) + wave_size(k) <= n {
        (wave_start(k) + wave_size(k)) as int
    } else {
        n as int
    }
}

proof fn lemma_wave_next(k: nat)
    ensures
        wave_start(k + 1) == wave_start(k) + wave_size(k),
{
}

/// The number of waves `n` items need, counting from wave `k`.
pub open spec fn waves_from(k: nat, n: nat) -> nat
    decreases n - k,
{
    if wave_start(k) >= n {
        k
    } else {
        waves_from(k + 1, n)
    }
}

/// Every wave before the count starts inside the items.
proof fn lemma_waves_from(j: nat, n: nat)
    ensures
        waves_from(j, n) >= j,
        forall|k: nat| j <= k < waves_from(j, n) ==> #[trigger] wave_start(k) < n,
    decreases n - j,
{
    if wave_start(j) < n {
        lemma_waves_from(j + 1, n);
        assert forall|k: nat| j <= k < waves_from(j, n) implies #[trigger] wave_start(k) < n by {
            if k > j {
                assert(j + 1 <= k);
            }
        }
    }
}

/// The waves of `s`: wave `k` holds the items from `wave_start(k)` on, `wave_size(k)` of them or
/// all that are left, and there are as many waves as it takes to cover `s`.
pub open spec fn layout<T>(s: Seq<T>) -> Seq<Seq<T>> {
    Seq::new(
        waves_from(0, s.len()),
        |k: int| s.subrange(wave_start(k as nat) as int, wave_end(k as nat, s.len())),
    )
}

/// The count of waves stops at the first wave that would start past the items.
proof fn lemma_waves_stop(j: nat, n: nat)
    ensures
        wave_start(waves_from(j, n)) >= n,
    decreases n - j,
{
    if wave_start(j) < n {
        lemma_waves_stop(j + 1, n);
    }
}

/// Where the first `j` waves of `n` items end.
spec fn waves_reach(j: nat, n: nat) -> int {
    if j == 0 {
        0
    } else {
        wave_end((j - 1) as nat, n)
    }
}

proof fn lemma_layout_prefix<T>(s: Seq<T>, j: nat)
    requires
        j <= waves_from(0, s.len()),
    ensures
        0 <= waves_reach(j, s.len()) <= s.len(),
        layout(s).take(j as int).flatten() == s.subrange(0, waves_reach(j, s.len())),
    decreases j,
{
    let n = s.len();
    lemma_waves_from(0, n);
    if j == 0 {
        assert(layout(s).take(0) =~= Seq::<Seq<T>>::empty());
        assert(s.subrange(0, 0) =~= Seq::<T>::empty());
    } else {
        let k = (j - 1) as nat;
        lemma_layout_prefix(s, k);
        lemma_wave_next(k);
        if k > 0 {
            lemma_wave_next((k - 1) as nat);
        }
        assert(wave_start(k) < n);
        assert(waves_reach(k, n) == wave_start(k));
        let w = layout(s);
        assert(w.take(j as int) =~= w.take(k as int).push(w[k as int]));
        w.take(k as int).lemma_flatten_push(w[k as int]);
        assert(s.subrange(0, waves_reach(j, n)) =~= s.subrange(0, waves_reach(k, n)) + s.subrange(
            wave_start(k) as int,
            wave_end(k, n),
        ));
    }
}

/// The waves hand out the hosts in order, each once, and none is empty: joined together they
/// give back the list they were made from.
pub proof fn law_waves_cover<T>(s: Seq<T>)
    ensures
        layout(s).flatten() == s,
        forall|k: int| 0 <= k < layout(s).len() ==> #[trigger] layout(s)[k].len() > 0,
{
    let n = s.len();
    let cnt = waves_from(0, n);
    lemma_waves_from(0, n);
    lemma_waves_stop(0, n);
    lemma_layout_prefix(s, cnt);
    assert(layout(s).take(cnt as int) =~= layout(s));
    if cnt > 0 {
        lemma_wave_next((cnt - 1) as nat);
        assert(waves_reach(cnt, n) == n);
    } else {
        assert(n == 0);
    }
    assert(s.subrange(0, n as int) =~= s);
    assert forall|k: int| 0 <= k < layout(s).len() implies #[trigger] layout(s)[k].len() > 0 by {
        assert(wave_start(k as nat) < n);
    }
}

/// Splits `ids` into waves of 1, 2, then 4: the first host alone, then two, then four at a time.
pub fn wave_layout(ids: &Vec<String>) -> (r: Vec<Vec<String>>)
    ensures
        Seq::new(r@.len(), |k: int| texts(r@[k]@)) == layout(texts(ids@)),
{
    let n = ids.len();
    let mut waves: Vec<Vec<String>> = Vec::new();
    let mut cursor: usize = 0;
    let mut k: usize = 0;
    while cursor < n
        invariant
            n == ids@.len(),
            cursor <= n,
            k == waves@.len(),
            k <= cursor,
            cursor == n || cursor == wave_start(k as nat),
            cursor == n ==> wave_start(k as nat) >= n,
            waves_from(k as nat, n as nat) == waves_from(0, n as nat),
            forall|x: int| 0 <= x < k ==> {
                &&& wave_start(x as nat) < n
                &&& #[trigger] texts(waves@[x]@) == texts(ids@).subrange(
                    wave_start(x as nat) as int,
                    wave_end(x as nat, n as nat),
                )
            },
        decreases n - cursor,
    {
        let size: usize = if k == 0 {
            1
        } else if k == 1 {
            2
        } else {
            4
        };
        let end: usize = if size <= n - cursor { cursor + size } else { n };
        let mut wave: Vec<String> = Vec::new();
        let mut i: usize = cursor;
        while i < end
            invariant
                cursor <= i <= end <= n,
                n == ids@.len(),
                wave@.len() == i - cursor,
                forall|y: int| 0 <= y < wave@.len() ==> #[trigger] wave@[y]@ == ids@[cursor + y]@,
            decreases end - i,
        {
            wave.push(ids[i].clone());
            i = i + 1;
        }
        proof {
            lemma_wave_next(k as nat);
            assert(texts(wave@) =~= texts(ids@).subrange(cursor as int, end as int));
        }
        waves.push(wave);
        proof {
            assert forall|x: int| 0 <= x < k + 1 implies {
                &&& wave_start(x as nat) < n
                &&& #[trigger] texts(waves@[x]@) == texts(ids@).subrange(
                    wave_start(x as nat) as int,
                    wave_end(x as nat, n as nat),
                )
            } by {
            }
        }
        cursor = end;
        k = k + 1;
    }
    let ghost r = Seq::new(waves@.len(), |x: int| texts(waves@[x]@));
    assert(waves_from(k as nat, n as nat) == k);
    assert forall|x: int| 0 <= x < r.len() implies #[trigger] r[x] == layout(texts(ids@))[x] by {
        assert(texts(waves@[x]@) == r[x]);
    }
    assert(r =~= layout(texts(ids@)));
    waves
}


// ----- the DAG as a sequence of engine states -----

/// A [`ProjectConfig`] with its text taken as character sequences.
pub struct ConfigView {
    pub project: Seq<char>,
    pub has_database: bool,
    pub has_routes: bool,
    pub has_alerts: bool,
    pub has_log_rules: bool,
    pub beta: Seq<Seq<char>>,
    pub prod: Seq<Seq<char>>,
}

impl ProjectConfig {
    pub open spec fn view(&self) -> ConfigView {
        ConfigView {
            project: self.project_id@,
            has_database: self.has_database,
            has_routes: self.has_routes,
            has_alerts: self.has_alerts,
            has_log_rules: self.has_log_rules,
            beta: texts(self.beta_hosts@),
            prod: texts(self.prod_hosts@),
        }
    }
}

/// Every name is a valid identifier.
pub open spec fn all_valid(hosts: Seq<Seq<char>>) -> bool {
    forall|i: int| 0 <= i < hosts.len() ==> valid_identifier(#[trigger] hosts[i])
}

/// Every host and the project are valid identifiers, as the resource keys need.
pub open spec fn config_valid(c: ConfigView) -> bool {
    &&& valid_identifier(c.project)
    &&& all_valid(c.beta)
    &&& all_valid(c.prod)
}

/// The options of a step that never unwinds its pipeline.
pub open spec fn options_without_unwind() -> NodeOptions {
    NodeOptions { is_unwind_boundary: false, unwind_on_failure: false }
}

/// The node of pipeline `p` that the engine records for a step.
pub open spec fn node_info(p: usize, event: Seq<char>, key: ResourceView, options: NodeOptions) -> NodeInfoView {
    NodeInfoView {
        pipeline: p,
        event,
        key: Some(render_resource(key)),
        boundary: options.is_unwind_boundary,
        unwind_on_failure: options.unwind_on_failure,
    }
}

/// `v` with a new pending node.
pub open spec fn plus_node(v: EngineView, info: NodeInfoView) -> EngineView {
    EngineView { nodes: v.nodes.push(info), node_states: v.node_states.push(NodeStatus::Pending), ..v }
}

/// `v` with an edge from each of `tips`, in order, to `to`.
pub open spec fn link(v: EngineView, tips: Seq<usize>, to: usize) -> EngineView
    decreases tips.len(),
{
    if tips.len() == 0 {
        v
    } else {
        let w = link(v, tips.drop_last(), to);
        EngineView { edges: w.edges.push((tips.last(), to)), ..w }
    }
}

/// Linking only adds edges.
pub proof fn lemma_link_keeps(v: EngineView, tips: Seq<usize>, to: usize)
    ensures
        link(v, tips, to) == (EngineView { edges: link(v, tips, to).edges, ..v }),
        link(v, tips, to).edges.len() == v.edges.len() + tips.len(),
    decreases tips.len(),
{
    if tips.len() > 0 {
        lemma_link_keeps(v, tips.drop_last(), to);
    }
}

/// A new node after all of `tips`; it becomes the only tip.
pub open spec fn chain(v: EngineView, tips: Seq<usize>, info: NodeInfoView) -> (EngineView, Seq<usize>) {
    let n = v.nodes.len() as usize;
    (link(plus_node(v, info), tips, n), seq![n])
}

/// One log-rule node per host, each after all of `tips`; together they become the tips.
pub open spec fn log_rule_nodes(v: EngineView, p: usize, svc: Seq<char>, tips: Seq<usize>, hosts: Seq<Seq<char>>) -> (EngineView, Seq<usize>)
    decreases hosts.len(),
{
    if hosts.len() == 0 {
        (v, Seq::empty())
    } else {
        let (w, ids) = log_rule_nodes(v, p, svc, tips, hosts.drop_last());
        let h = hosts.last();
        let n = w.nodes.len() as usize;
        let info = node_info(
            p,
            log_rule_configuration_json(h, svc),
            ResourceView::LogRules { host_id: h, service_id: svc },
            options_without_unwind(),
        );
        (link(plus_node(w, info), tips, n), ids.push(n))
    }
}

/// The three steps on one host: replicate the artifact, deploy it, verify the deployment; the
/// replication comes after all of `tips`. Returns the verification node.
pub open spec fn host_triplet(
    v: EngineView,
    p: usize,
    svc: Seq<char>,
    env: Seq<char>,
    unwind: bool,
    tips: Seq<usize>,
    h: Seq<char>,
) -> (EngineView, usize) {
    let r = v.nodes.len() as usize;
    let key = ResourceView::HostService { host_id: h, service_id: svc };
    let options = NodeOptions { is_unwind_boundary: false, unwind_on_failure: unwind };
    let v3 = plus_node(
        plus_node(
            plus_node(v, node_info(p, host_step_json("artifact_replication"@, h, svc, env), key, options_without_unwind())),
            node_info(p, host_step_json("host_deployment"@, h, svc, env), key, options),
        ),
        node_info(p, host_step_json("deployment_verification"@, h, svc, env), key, options),
    );
    let v4 = link(v3, tips, r);
    (EngineView { edges: v4.edges.push((r, (r + 1) as usize)).push(((r + 1) as usize, (r + 2) as usize)), ..v4 }, (r + 2) as usize)
}

/// The hosts of one wave, each after all of `tips`; their verification nodes become the tips.
pub open spec fn wave_nodes(
    v: EngineView,
    p: usize,
    svc: Seq<char>,
    env: Seq<char>,
    unwind: bool,
    tips: Seq<usize>,
    hosts: Seq<Seq<char>>,
) -> (EngineView, Seq<usize>)
    decreases hosts.len(),
{
    if hosts.len() == 0 {
        (v, Seq::empty())
    } else {
        let (w, ids) = wave_nodes(v, p, svc, env, unwind, tips, hosts.drop_last());
        let (w2, last) = host_triplet(w, p, svc, env, unwind, tips, hosts.last());
        (w2, ids.push(last))
    }
}

/// The waves one after the other, each after the tips the previous one left.
pub open spec fn waves_nodes(
    v: EngineView,
    p: usize,
    svc: Seq<char>,
    env: Seq<char>,
    unwind: bool,
    tips: Seq<usize>,
    ws: Seq<Seq<Seq<char>>>,
) -> (EngineView, Seq<usize>)
    decreases ws.len(),
{
    if ws.len() == 0 {
        (v, tips)
    } else {
        let (w, t) = waves_nodes(v, p, svc, env, unwind, tips, ws.drop_last());
        wave_nodes(w, p, svc, env, unwind, t, ws.last())
    }
}

/// The host agent deploys to all its hosts at once and never unwinds; other projects deploy in
/// waves of growing size and unwind on a failed deployment.
pub open spec fn is_host_agent(project: Seq<char>) -> bool {
    project == "ant-host-agent"@
}

/// The DAG of one environment after `prev`: route update, alert configuration, one log-rule
/// node per host, database migration (each only when the project has it, each after the
/// previous), then the hosts. Returns the state and the last nodes.
pub open spec fn env_nodes(v: EngineView, p: usize, c: ConfigView, env: Seq<char>, hosts: Seq<Seq<char>>, prev: Seq<usize>) -> (EngineView, Seq<usize>) {
    let svc = c.project;
    let s1 = if c.has_routes {
        chain(v, prev, node_info(p, route_update_json(env), ResourceView::GatewayRouting { environment: env }, options_without_unwind()))
    } else {
        (v, prev)
    };
    let s2 = if c.has_alerts {
        chain(s1.0, s1.1, node_info(p, alert_configuration_json(svc, env), ResourceView::AlertRules { service_id: svc }, options_without_unwind()))
    } else {
        s1
    };
    let s3 = if c.has_log_rules {
        log_rule_nodes(s2.0, p, svc, s2.1, hosts)
    } else {
        s2
    };
    let s4 = if c.has_database {
        chain(
            s3.0,
            s3.1,
            node_info(
                p,
                database_migration_json(svc, env),
                ResourceView::DatabaseMigration { host: hosts[0], service_id: svc, environment: env },
                options_without_unwind(),
            ),
        )
    } else {
        s3
    };
    if is_host_agent(svc) {
        waves_nodes(s4.0, p, svc, env, false, s4.1, seq![hosts])
    } else {
        waves_nodes(s4.0, p, svc, env, true, s4.1, layout(hosts))
    }
}

/// The whole DAG for revision `rev`, in pipeline `p` (the next pipeline id). Beta comes first
/// when it has hosts. When prod has hosts, a gate follows the last nodes of beta (if beta added
/// any) and the other environment follows it.
pub open spec fn dag_of(v: EngineView, rev: usize, c: ConfigView) -> EngineView {
    let p = v.pipelines.len() as usize;
    let v0 = EngineView {
        pipelines: v.pipelines.push(PipelineInfoView { project: c.project, revision: rev }),
        pipeline_states: v.pipeline_states.push(PipelineStatus::Active),
        ..v
    };
    let beta = if c.beta.len() > 0 {
        env_nodes(v0, p, c, "beta"@, c.beta, Seq::empty())
    } else {
        (v0, Seq::empty())
    };
    let built = if c.prod.len() > 0 {
        let before_prod = if beta.1.len() == 0 {
            (beta.0, Seq::<usize>::empty())
        } else {
            chain(
                beta.0,
                beta.1,
                NodeInfoView {
                    pipeline: p,
                    event: environment_gate_json("beta"@, "prod"@),
                    key: None,
                    boundary: true,
                    unwind_on_failure: false,
                },
            )
        };
        env_nodes(before_prod.0, p, c, "prod"@, c.prod, before_prod.1).0
    } else {
        beta.0
    };
    built.sealed(p as int)
}

// ----- building -----

/// Every tip is a node of pipeline `p`.
pub open spec fn tips_ok(v: EngineView, p: usize, tips: Seq<usize>) -> bool {
    forall|k: int| 0 <= k < tips.len() ==> #[trigger] tips[k] < v.nodes.len() && v.nodes[tips[k] as int].pipeline == p
}

/// The engine `v` is ready to take nodes of pipeline `p`.
pub open spec fn building(v: EngineView, p: usize) -> bool {
    v.wf() && p < v.pipelines.len()
}

/// The identifier `s`, which must be valid.
fn id(s: &str) -> (r: Identifier)
    requires
        valid_identifier(s@),
    ensures
        r.view() == s@,
{
    Identifier::new(s).unwrap()
}

/// The options of a step that never unwinds its pipeline.
fn no_unwind_options() -> (r: NodeOptions)
    ensures
        r == options_without_unwind(),
{
    NodeOptions { is_unwind_boundary: false, unwind_on_failure: false }
}

/// Copies each string.
fn copy_all(v: &Vec<String>) -> (r: Vec<String>)
    ensures
        texts(r@) == texts(v@),
{
    let mut out: Vec<String> = Vec::new();
    let mut i: usize = 0;
    while i < v.len()
        invariant
            i <= v.len(),
            out@.len() == i,
            forall|k: int| 0 <= k < i ==> #[trigger] out@[k]@ == v@[k]@,
        decreases v.len() - i,
    {
        out.push(v[i].clone());
        i = i + 1;
    }
    assert(texts(out@) =~= texts(v@));
    out
}

/// Adds the node for `event`, mutating `key`, to pipeline `p`.
fn add_step(engine: &mut PipelineEngine, p: usize, event: DeploymentEvent, key: DeploymentResource, options: NodeOptions) -> (id: usize)
    requires
        building(old(engine)@, p),
    ensures
        building(final(engine)@, p),
        id == old(engine)@.nodes.len(),
        final(engine)@ == plus_node(old(engine)@, node_info(p, event.json(), key.view(), options)),
{
    proof {
        engine.lemma_sizes();
    }
    let spec = NodeSpec { event: event.to_json(), mutates: Some(key.to_string()), options };
    let ghost info = node_info(p, event.json(), key.view(), options);
    let r = engine.add_node(p, spec);
    proof {
        assert(engine@.nodes == old(engine)@.nodes.push(info));
    }
    r.unwrap()
}

/// Adds an edge from each of `tips`, in order, to `to`.
fn link_tips(engine: &mut PipelineEngine, p: usize, tips: &Vec<usize>, to: usize)
    requires
        building(old(engine)@, p),
        to < old(engine)@.nodes.len(),
        old(engine)@.nodes[to as int].pipeline == p,
        tips_ok(old(engine)@, p, tips@),
    ensures
        building(final(engine)@, p),
        final(engine)@ == link(old(engine)@, tips@, to),
{
    let mut i: usize = 0;
    while i < tips.len()
        invariant
            building(engine@, p),
            i <= tips.len(),
            engine@ == link(old(engine)@, tips@.take(i as int), to),
            engine@.nodes == old(engine)@.nodes,
            to < old(engine)@.nodes.len(),
            old(engine)@.nodes[to as int].pipeline == p,
            tips_ok(old(engine)@, p, tips@),
        decreases tips.len() - i,
    {
        let from = tips[i];
        let r = engine.add_edge(from, to);
        proof {
            assert(tips@.take(i + 1).drop_last() =~= tips@.take(i as int));
            assert(tips@.take(i + 1).last() == from);
        }
        i = i + 1;
    }
    assert(tips@.take(tips@.len() as int) =~= tips@);
}

/// Adds a node after all of `tips` and returns it as the only tip.
fn chain_step(
    engine: &mut PipelineEngine,
    p: usize,
    tips: &Vec<usize>,
    event: DeploymentEvent,
    key: DeploymentResource,
    options: NodeOptions,
) -> (r: Vec<usize>)
    requires
        building(old(engine)@, p),
        tips_ok(old(engine)@, p, tips@),
    ensures
        building(final(engine)@, p),
        (final(engine)@, r@) == chain(old(engine)@, tips@, node_info(p, event.json(), key.view(), options)),
        tips_ok(final(engine)@, p, r@),
        extends(old(engine)@, final(engine)@),
{
    let ghost info = node_info(p, event.json(), key.view(), options);
    let n = add_step(engine, p, event, key, options);
    let ghost mid = engine@;
    link_tips(engine, p, tips, n);
    proof {
        lemma_link_keeps(mid, tips@, n);
    }
    let mut r: Vec<usize> = Vec::new();
    r.push(n);
    proof {
        assert(r@ =~= seq![n]);
        assert(engine@.nodes == old(engine)@.nodes.push(info));
        assert(engine@.nodes[n as int].pipeline == p);
    }
    r
}


/// Nodes added to an engine keep the tips valid.
proof fn lemma_tips_grow(v1: EngineView, v2: EngineView, p: usize, tips: Seq<usize>)
    requires
        tips_ok(v1, p, tips),
        v1.nodes.len() <= v2.nodes.len(),
        forall|i: int| 0 <= i < v1.nodes.len() ==> v2.nodes[i] == v1.nodes[i],
    ensures
        tips_ok(v2, p, tips),
{
    assert forall|k: int| 0 <= k < tips.len() implies #[trigger] tips[k] < v2.nodes.len() && v2.nodes[tips[k] as int].pipeline == p by {
        assert(v2.nodes[tips[k] as int] == v1.nodes[tips[k] as int]);
    }
}

/// `v2` only added nodes to `v1`.
pub open spec fn extends(v1: EngineView, v2: EngineView) -> bool {
    &&& v1.nodes.len() <= v2.nodes.len()
    &&& forall|i: int| 0 <= i < v1.nodes.len() ==> v2.nodes[i] == v1.nodes[i]
}

fn host_key(h: &str, svc: &str) -> (r: DeploymentResource)
    requires
        valid_identifier(h@),
        valid_identifier(svc@),
    ensures
        r.view() == (ResourceView::HostService { host_id: h@, service_id: svc@ }),
{
    DeploymentResource::HostService { host_id: id(h), service_id: id(svc) }
}

/// Adds one log-rule node per host, each after all of `tips`.
fn add_log_rules(engine: &mut PipelineEngine, p: usize, svc: &str, tips: &Vec<usize>, hosts: &Vec<String>) -> (r: Vec<usize>)
    requires
        building(old(engine)@, p),
        tips_ok(old(engine)@, p, tips@),
        valid_identifier(svc@),
        all_valid(texts(hosts@)),
    ensures
        building(final(engine)@, p),
        (final(engine)@, r@) == log_rule_nodes(old(engine)@, p, svc@, tips@, texts(hosts@)),
        tips_ok(final(engine)@, p, r@),
        extends(old(engine)@, final(engine)@),
{
    let mut ids: Vec<usize> = Vec::new();
    let mut i: usize = 0;
    while i < hosts.len()
        invariant
            building(engine@, p),
            i <= hosts.len(),
            tips_ok(engine@, p, tips@),
            tips_ok(engine@, p, ids@),
            valid_identifier(svc@),
            all_valid(texts(hosts@)),
            (engine@, ids@) == log_rule_nodes(old(engine)@, p, svc@, tips@, texts(hosts@).take(i as int)),
            extends(old(engine)@, engine@),
        decreases hosts.len() - i,
    {
        let h = hosts[i].as_str();
        assert(valid_identifier(texts(hosts@)[i as int]));
        let ghost before = engine@;
        let event = DeploymentEvent::LogRuleConfiguration { host_id: h.to_string(), service_id: svc.to_string() };
        let key = DeploymentResource::LogRules { host_id: id(h), service_id: id(svc) };
        let ghost info = node_info(p, event.json(), key.view(), options_without_unwind());
        let n = add_step(engine, p, event, key, no_unwind_options());
        proof {
            lemma_tips_grow(before, engine@, p, tips@);
            lemma_tips_grow(before, engine@, p, ids@);
        }
        let ghost mid = engine@;
        link_tips(engine, p, tips, n);
        ids.push(n);
        proof {
            lemma_link_keeps(mid, tips@, n);
            assert(texts(hosts@).take(i + 1).drop_last() =~= texts(hosts@).take(i as int));
            assert(texts(hosts@).take(i + 1).last() == h@);
            assert(info == node_info(
                p,
                log_rule_configuration_json(h@, svc@),
                ResourceView::LogRules { host_id: h@, service_id: svc@ },
                options_without_unwind(),
            ));
            assert(tips_ok(engine@, p, ids@)) by {
                lemma_tips_grow(before, engine@, p, ids@.drop_last());
                assert(ids@.drop_last() =~= ids@.take(ids@.len() - 1));
                assert forall|k: int| 0 <= k < ids@.len() implies #[trigger] ids@[k] < engine@.nodes.len()
                    && engine@.nodes[ids@[k] as int].pipeline == p by {
                    if k < ids@.len() - 1 {
                        assert(ids@[k] == ids@.drop_last()[k]);
                    }
                }
            }
        }
        i = i + 1;
    }
    assert(texts(hosts@).take(hosts@.len() as int) =~= texts(hosts@));
    ids
}


/// Adds the replicate, deploy and verify steps of host `h`, after all of `tips`.
fn add_host_triplet(
    engine: &mut PipelineEngine,
    p: usize,
    svc: &str,
    env: &str,
    unwind: bool,
    tips: &Vec<usize>,
    h: &str,
) -> (last: usize)
    requires
        building(old(engine)@, p),
        tips_ok(old(engine)@, p, tips@),
        valid_identifier(svc@),
        valid_identifier(h@),
    ensures
        building(final(engine)@, p),
        (final(engine)@, last) == host_triplet(old(engine)@, p, svc@, env@, unwind, tips@, h@),
        tips_ok(final(engine)@, p, seq![last]),
        extends(old(engine)@, final(engine)@),
{
    let ghost v0 = engine@;
    let options = NodeOptions { is_unwind_boundary: false, unwind_on_failure: unwind };
    let r = add_step(
        engine,
        p,
        DeploymentEvent::ArtifactReplication { host_id: h.to_string(), service_id: svc.to_string(), environment: env.to_string() },
        host_key(h, svc),
        no_unwind_options(),
    );
    let d = add_step(
        engine,
        p,
        DeploymentEvent::HostDeployment { host_id: h.to_string(), service_id: svc.to_string(), environment: env.to_string() },
        host_key(h, svc),
        options,
    );
    let v = add_step(
        engine,
        p,
        DeploymentEvent::DeploymentVerification { host_id: h.to_string(), service_id: svc.to_string(), environment: env.to_string() },
        host_key(h, svc),
        options,
    );
    proof {
        lemma_tips_grow(v0, engine@, p, tips@);
    }
    let ghost v3 = engine@;
    link_tips(engine, p, tips, r);
    proof {
        lemma_link_keeps(v3, tips@, r);
    }
    let _ = engine.add_edge(r, d);
    let _ = engine.add_edge(d, v);
    v
}

/// Adds the hosts of one wave, each after all of `tips`; returns their verification nodes.
fn add_wave(
    engine: &mut PipelineEngine,
    p: usize,
    svc: &str,
    env: &str,
    unwind: bool,
    tips: &Vec<usize>,
    hosts: &Vec<String>,
) -> (r: Vec<usize>)
    requires
        building(old(engine)@, p),
        tips_ok(old(engine)@, p, tips@),
        valid_identifier(svc@),
        all_valid(texts(hosts@)),
    ensures
        building(final(engine)@, p),
        (final(engine)@, r@) == wave_nodes(old(engine)@, p, svc@, env@, unwind, tips@, texts(hosts@)),
        tips_ok(final(engine)@, p, r@),
        extends(old(engine)@, final(engine)@),
{
    let mut ids: Vec<usize> = Vec::new();
    let mut i: usize = 0;
    while i < hosts.len()
        invariant
            building(engine@, p),
            i <= hosts.len(),
            tips_ok(engine@, p, tips@),
            tips_ok(engine@, p, ids@),
            valid_identifier(svc@),
            all_valid(texts(hosts@)),
            (engine@, ids@) == wave_nodes(old(engine)@, p, svc@, env@, unwind, tips@, texts(hosts@).take(i as int)),
            extends(old(engine)@, engine@),
        decreases hosts.len() - i,
    {
        let h = hosts[i].as_str();
        assert(valid_identifier(texts(hosts@)[i as int]));
        let ghost before = engine@;
        let last = add_host_triplet(engine, p, svc, env, unwind, tips, h);
        proof {
            lemma_tips_grow(before, engine@, p, tips@);
            lemma_tips_grow(before, engine@, p, ids@);
        }
        ids.push(last);
        proof {
            assert(texts(hosts@).take(i + 1).drop_last() =~= texts(hosts@).take(i as int));
            assert(texts(hosts@).take(i + 1).last() == h@);
            assert forall|k: int| 0 <= k < ids@.len() implies #[trigger] ids@[k] < engine@.nodes.len()
                && engine@.nodes[ids@[k] as int].pipeline == p by {
                if k < ids@.len() - 1 {
                    assert(ids@[k] == ids@.drop_last()[k]);
                } else {
                    assert(seq![last][0] == last);
                }
            }
        }
        i = i + 1;
    }
    assert(texts(hosts@).take(hosts@.len() as int) =~= texts(hosts@));
    ids
}

/// Adds the waves one after the other, each after the nodes the previous one left.
fn add_waves(
    engine: &mut PipelineEngine,
    p: usize,
    svc: &str,
    env: &str,
    unwind: bool,
    tips: Vec<usize>,
    waves: &Vec<Vec<String>>,
) -> (r: Vec<usize>)
    requires
        building(old(engine)@, p),
        tips_ok(old(engine)@, p, tips@),
        valid_identifier(svc@),
        forall|k: int| 0 <= k < waves@.len() ==> all_valid(#[trigger] texts(waves@[k]@)),
    ensures
        building(final(engine)@, p),
        (final(engine)@, r@) == waves_nodes(
            old(engine)@,
            p,
            svc@,
            env@,
            unwind,
            tips@,
            Seq::new(waves@.len(), |k: int| texts(waves@[k]@)),
        ),
        tips_ok(final(engine)@, p, r@),
        extends(old(engine)@, final(engine)@),
{
    let ghost ws = Seq::new(waves@.len(), |k: int| texts(waves@[k]@));
    let mut t = tips;
    let mut i: usize = 0;
    while i < waves.len()
        invariant
            building(engine@, p),
            i <= waves.len(),
            tips_ok(engine@, p, t@),
            valid_identifier(svc@),
            forall|k: int| 0 <= k < waves@.len() ==> all_valid(#[trigger] texts(waves@[k]@)),
            ws == Seq::new(waves@.len(), |k: int| texts(waves@[k]@)),
            (engine@, t@) == waves_nodes(old(engine)@, p, svc@, env@, unwind, tips@, ws.take(i as int)),
            extends(old(engine)@, engine@),
        decreases waves.len() - i,
    {
        assert(all_valid(texts(waves@[i as int]@)));
        let next = add_wave(engine, p, svc, env, unwind, &t, &waves[i]);
        proof {
            assert(ws.take(i + 1).drop_last() =~= ws.take(i as int));
            assert(ws.take(i + 1).last() == texts(waves@[i as int]@));
        }
        t = next;
        i = i + 1;
    }
    assert(ws.take(waves@.len() as int) =~= ws);
    t
}

/// Environment names are valid identifiers.
proof fn lemma_env_name_valid(e: ServiceEnv)
    ensures
        valid_identifier(env_name(e)),
{
    reveal_strlit("dev");
    reveal_strlit("beta");
    reveal_strlit("prod");
}

/// Adds the DAG of one environment after `previous`; returns its last nodes.
fn build_env_dag(
    engine: &mut PipelineEngine,
    p: usize,
    config: &ProjectConfig,
    environment: ServiceEnv,
    hosts: &Vec<String>,
    previous: Vec<usize>,
) -> (r: Vec<usize>)
    requires
        building(old(engine)@, p),
        tips_ok(old(engine)@, p, previous@),
        valid_identifier(config.project_id@),
        all_valid(texts(hosts@)),
        hosts@.len() > 0,
    ensures
        building(final(engine)@, p),
        (final(engine)@, r@) == env_nodes(old(engine)@, p, config.view(), env_name(environment), texts(hosts@), previous@),
        tips_ok(final(engine)@, p, r@),
        extends(old(engine)@, final(engine)@),
{
    let ghost c = config.view();
    let ghost env = env_name(environment);
    proof {
        lemma_env_name_valid(environment);
    }
    let ghost v0 = engine@;
    let svc = config.project_id.as_str();
    let env_str = environment.as_str();
    let mut tip = previous;
    if config.has_routes {
        tip = chain_step(
            engine,
            p,
            &tip,
            DeploymentEvent::RouteUpdate { environment: env_str.to_string() },
            DeploymentResource::GatewayRouting { environment: id(env_str) },
            no_unwind_options(),
        );
    }
    let ghost s1 = (engine@, tip@);
    assert(s1 == (if c.has_routes {
        chain(v0, previous@, node_info(p, route_update_json(env), ResourceView::GatewayRouting { environment: env }, options_without_unwind()))
    } else {
        (v0, previous@)
    }));
    if config.has_alerts {
        tip = chain_step(
            engine,
            p,
            &tip,
            DeploymentEvent::AlertConfiguration { service_id: svc.to_string(), environment: env_str.to_string() },
            DeploymentResource::AlertRules { service_id: id(svc) },
            no_unwind_options(),
        );
    }
    let ghost s2 = (engine@, tip@);
    if config.has_log_rules {
        tip = add_log_rules(engine, p, svc, &tip, hosts);
    }
    let ghost s3 = (engine@, tip@);
    if config.has_database {
        assert(valid_identifier(texts(hosts@)[0]));
        tip = chain_step(
            engine,
            p,
            &tip,
            DeploymentEvent::DatabaseMigration { service_id: svc.to_string(), environment: env_str.to_string() },
            DeploymentResource::DatabaseMigration { host: id(hosts[0].as_str()), service_id: id(svc), environment: id(env_str) },
            no_unwind_options(),
        );
    }
    let ghost s4 = (engine@, tip@);
    let agent = str_eq(svc, "ant-host-agent");
    let r = if agent {
        let mut single: Vec<Vec<String>> = Vec::new();
        single.push(copy_all(hosts));
        assert(Seq::new(single@.len(), |k: int| texts(single@[k]@)) =~= seq![texts(hosts@)]);
        add_waves(engine, p, svc, env_str, false, tip, &single)
    } else {
        let waves = wave_layout(hosts);
        assert forall|k: int| 0 <= k < waves@.len() implies all_valid(#[trigger] texts(waves@[k]@)) by {
            let w = Seq::new(waves@.len(), |x: int| texts(waves@[x]@));
            assert(w[k] == layout(texts(hosts@))[k]);
            assert(w[k] == texts(waves@[k]@));
            let st = wave_start(k as nat) as int;
            let en = wave_end(k as nat, texts(hosts@).len());
            assert(w.len() == layout(texts(hosts@)).len());
            lemma_waves_from(0, texts(hosts@).len());
            assert(wave_start(k as nat) < texts(hosts@).len());
            assert(layout(texts(hosts@))[k] == texts(hosts@).subrange(st, en));
            assert(texts(waves@[k]@) == texts(hosts@).subrange(st, en));
            assert forall|i: int| 0 <= i < texts(waves@[k]@).len() implies valid_identifier(#[trigger] texts(waves@[k]@)[i]) by {
                assert(texts(waves@[k]@)[i] == texts(hosts@)[st + i]);
            }
        }
        add_waves(engine, p, svc, env_str, true, tip, &waves)
    };
    proof {
        reveal_strlit("ant-host-agent");
    }
    r
}


/// Builds and seals the DAG of revision `revision_id` of the configured project, in a new
/// pipeline; returns the pipeline's id, or `UnknownRevision` (changing nothing) when there is
/// no such revision.
pub fn build_dag(engine: &mut PipelineEngine, revision_id: usize, config: &ProjectConfig) -> (r: Result<usize, EngineError>)
    requires
        old(engine).wf(),
        config_valid(config.view()),
    ensures
        final(engine).wf(),
        revision_id >= old(engine)@.revisions.len() ==> r == Err::<usize, EngineError>(EngineError::UnknownRevision)
            && final(engine)@ == old(engine)@,
        revision_id < old(engine)@.revisions.len() ==> r == Ok::<usize, EngineError>(old(engine)@.pipelines.len() as usize)
            && final(engine)@ == dag_of(old(engine)@, revision_id, config.view()),
{
    proof {
        engine.lemma_sizes();
    }
    let ghost c = config.view();
    let ghost v = engine@;
    let p = match engine.create_pipeline(config.project_id.as_str(), revision_id) {
        Ok(p) => p,
        Err(e) => return Err(e),
    };
    let ghost v0 = engine@;
    let mut beta_tips: Vec<usize> = Vec::new();
    if config.beta_hosts.len() > 0 {
        beta_tips = build_env_dag(engine, p, config, ServiceEnv::Beta, &config.beta_hosts, Vec::new());
    }
    let ghost beta = (engine@, beta_tips@);
    assert(beta == (if c.beta.len() > 0 {
        env_nodes(v0, p, c, "beta"@, c.beta, Seq::empty())
    } else {
        (v0, Seq::<usize>::empty())
    }));
    if config.prod_hosts.len() > 0 {
        let prev = if beta_tips.len() == 0 {
            Vec::new()
        } else {
            proof {
                engine.lemma_sizes();
            }
            let spec = NodeSpec {
                event: DeploymentEvent::EnvironmentGate { from: "beta".to_string(), to: "prod".to_string() }.to_json(),
                mutates: None,
                options: NodeOptions { is_unwind_boundary: true, unwind_on_failure: false },
            };
            let ghost before = engine@;
            let gate = engine.add_node(p, spec).unwrap();
            proof {
                lemma_tips_grow(before, engine@, p, beta_tips@);
            }
            let ghost mid = engine@;
            link_tips(engine, p, &beta_tips, gate);
            proof {
                lemma_link_keeps(mid, beta_tips@, gate);
            }
            let mut g: Vec<usize> = Vec::new();
            g.push(gate);
            proof {
                assert(g@ =~= seq![gate]);
            }
            g
        };
        let _ = build_env_dag(engine, p, config, ServiceEnv::Prod, &config.prod_hosts, prev);
    }
    engine.seal(p);
    Ok(p)
}

// ----- the DAG only goes forward -----

/// `w` grew from `v`: it keeps `v`'s nodes and edges, and each edge it adds goes from a node to
/// a later one and ends at a node that `v` did not have.
pub open spec fn grows_forward(v: EngineView, w: EngineView) -> bool {
    &&& v.nodes.len() <= w.nodes.len()
    &&& v.edges.len() <= w.edges.len()
    &&& forall|i: int| 0 <= i < v.nodes.len() ==> #[trigger] w.nodes[i] == v.nodes[i]
    &&& forall|e: int| 0 <= e < v.edges.len() ==> #[trigger] w.edges[e] == v.edges[e]
    &&& forall|e: int|
        v.edges.len() <= e < w.edges.len() ==> (#[trigger] w.edges[e]).0 < w.edges[e].1 && v.nodes.len() <= w.edges[e].1
            && w.edges[e].1 < w.nodes.len()
}

/// Every id of `ids` is below `n`.
pub open spec fn below(ids: Seq<usize>, n: int) -> bool {
    forall|k: int| 0 <= k < ids.len() ==> #[trigger] ids[k] < n
}

proof fn lemma_grows_trans(a: EngineView, b: EngineView, c: EngineView)
    requires
        grows_forward(a, b),
        grows_forward(b, c),
    ensures
        grows_forward(a, c),
{
    assert forall|e: int| a.edges.len() <= e < c.edges.len() implies (#[trigger] c.edges[e]).0 < c.edges[e].1 && a.nodes.len()
        <= c.edges[e].1 && c.edges[e].1 < c.nodes.len() by {
        if e < b.edges.len() {
            assert(c.edges[e] == b.edges[e]);
        }
    }
    assert forall|i: int| 0 <= i < a.nodes.len() implies #[trigger] c.nodes[i] == a.nodes[i] by {
        assert(c.nodes[i] == b.nodes[i]);
    }
    assert forall|e: int| 0 <= e < a.edges.len() implies #[trigger] c.edges[e] == a.edges[e] by {
        assert(c.edges[e] == b.edges[e]);
    }
}

proof fn lemma_plus_node(v: EngineView, info: NodeInfoView)
    ensures
        grows_forward(v, plus_node(v, info)),
        plus_node(v, info).nodes.len() == v.nodes.len() + 1,
{
}

proof fn lemma_link_forward(base: EngineView, v: EngineView, tips: Seq<usize>, to: usize)
    requires
        grows_forward(base, v),
        base.nodes.len() <= to < v.nodes.len(),
        below(tips, to as int),
    ensures
        grows_forward(base, link(v, tips, to)),
        link(v, tips, to).nodes == v.nodes,
    decreases tips.len(),
{
    lemma_link_keeps(v, tips, to);
    if tips.len() > 0 {
        lemma_link_forward(base, v, tips.drop_last(), to);
        let w = link(v, tips.drop_last(), to);
        let x = link(v, tips, to);
        assert(x.edges == w.edges.push((tips.last(), to)));
        assert(tips.last() == tips[tips.len() - 1]);
        assert forall|e: int| base.edges.len() <= e < x.edges.len() implies (#[trigger] x.edges[e]).0 < x.edges[e].1
            && base.nodes.len() <= x.edges[e].1 && x.edges[e].1 < x.nodes.len() by {
            if e < w.edges.len() {
                assert(x.edges[e] == w.edges[e]);
            }
        }
        assert forall|e: int| 0 <= e < base.edges.len() implies #[trigger] x.edges[e] == base.edges[e] by {
            assert(x.edges[e] == w.edges[e]);
        }
    }
}

proof fn lemma_chain_forward(v: EngineView, tips: Seq<usize>, info: NodeInfoView)
    requires
        below(tips, v.nodes.len() as int),
    ensures
        chain(v, tips, info).0.nodes.len() == v.nodes.len() + 1,
        below(chain(v, tips, info).1, chain(v, tips, info).0.nodes.len() as int),
        chain(v, tips, info).0.nodes.len() <= usize::MAX ==> grows_forward(v, chain(v, tips, info).0),
{
    let n = v.nodes.len() as usize;
    let v1 = plus_node(v, info);
    lemma_link_keeps(v1, tips, n);
    assert(chain(v, tips, info).1[0] == n);
    if v1.nodes.len() <= usize::MAX {
        lemma_plus_node(v, info);
        lemma_link_forward(v, v1, tips, n);
    }
}

proof fn lemma_log_rules_forward(v: EngineView, p: usize, svc: Seq<char>, tips: Seq<usize>, hosts: Seq<Seq<char>>)
    requires
        below(tips, v.nodes.len() as int),
    ensures
        log_rule_nodes(v, p, svc, tips, hosts).0.nodes.len() >= v.nodes.len(),
        below(log_rule_nodes(v, p, svc, tips, hosts).1, log_rule_nodes(v, p, svc, tips, hosts).0.nodes.len() as int),
        log_rule_nodes(v, p, svc, tips, hosts).0.nodes.len() <= usize::MAX ==> grows_forward(
            v,
            log_rule_nodes(v, p, svc, tips, hosts).0,
        ),
    decreases hosts.len(),
{
    if hosts.len() == 0 {
        assert(grows_forward(v, v));
    } else {
        lemma_log_rules_forward(v, p, svc, tips, hosts.drop_last());
        let (w, ids) = log_rule_nodes(v, p, svc, tips, hosts.drop_last());
        let h = hosts.last();
        let n = w.nodes.len() as usize;
        let info = node_info(
            p,
            log_rule_configuration_json(h, svc),
            ResourceView::LogRules { host_id: h, service_id: svc },
            options_without_unwind(),
        );
        let w1 = plus_node(w, info);
        lemma_link_keeps(w1, tips, n);
        let (x, xs) = log_rule_nodes(v, p, svc, tips, hosts);
        assert(x == link(w1, tips, n));
        assert(xs == ids.push(n));
        assert forall|k: int| 0 <= k < xs.len() implies #[trigger] xs[k] < x.nodes.len() by {
            if k < ids.len() {
                assert(xs[k] == ids[k]);
            }
        }
        if x.nodes.len() <= usize::MAX {
            lemma_plus_node(w, info);
            assert(below(tips, n as int));
            lemma_link_forward(w, w1, tips, n);
            lemma_grows_trans(v, w, x);
        }
    }
}

proof fn lemma_triplet_forward(
    v: EngineView,
    p: usize,
    svc: Seq<char>,
    env: Seq<char>,
    unwind: bool,
    tips: Seq<usize>,
    h: Seq<char>,
)
    requires
        below(tips, v.nodes.len() as int),
    ensures
        host_triplet(v, p, svc, env, unwind, tips, h).0.nodes.len() == v.nodes.len() + 3,
        host_triplet(v, p, svc, env, unwind, tips, h).1 < host_triplet(v, p, svc, env, unwind, tips, h).0.nodes.len(),
        host_triplet(v, p, svc, env, unwind, tips, h).0.nodes.len() <= usize::MAX ==> grows_forward(
            v,
            host_triplet(v, p, svc, env, unwind, tips, h).0,
        ),
{
    let r = v.nodes.len() as usize;
    let key = ResourceView::HostService { host_id: h, service_id: svc };
    let options = NodeOptions { is_unwind_boundary: false, unwind_on_failure: unwind };
    let i1 = node_info(p, host_step_json("artifact_replication"@, h, svc, env), key, options_without_unwind());
    let i2 = node_info(p, host_step_json("host_deployment"@, h, svc, env), key, options);
    let i3 = node_info(p, host_step_json("deployment_verification"@, h, svc, env), key, options);
    let v1 = plus_node(v, i1);
    let v2 = plus_node(v1, i2);
    let v3 = plus_node(v2, i3);
    lemma_link_keeps(v3, tips, r);
    let v4 = link(v3, tips, r);
    let x = host_triplet(v, p, svc, env, unwind, tips, h);
    assert(x.0 == (EngineView { edges: v4.edges.push((r, (r + 1) as usize)).push(((r + 1) as usize, (r + 2) as usize)), ..v4 }));
    if x.0.nodes.len() <= usize::MAX {
        lemma_plus_node(v, i1);
        lemma_plus_node(v1, i2);
        lemma_plus_node(v2, i3);
        lemma_grows_trans(v, v1, v2);
        lemma_grows_trans(v, v2, v3);
        lemma_link_forward(v, v3, tips, r);
        let y = x.0;
        assert forall|e: int| v.edges.len() <= e < y.edges.len() implies (#[trigger] y.edges[e]).0 < y.edges[e].1
            && v.nodes.len() <= y.edges[e].1 && y.edges[e].1 < y.nodes.len() by {
            if e < v4.edges.len() {
                assert(y.edges[e] == v4.edges[e]);
            }
        }
        assert forall|e: int| 0 <= e < v.edges.len() implies #[trigger] y.edges[e] == v.edges[e] by {
            assert(y.edges[e] == v4.edges[e]);
        }
    }
}

proof fn lemma_wave_forward(
    v: EngineView,
    p: usize,
    svc: Seq<char>,
    env: Seq<char>,
    unwind: bool,
    tips: Seq<usize>,
    hosts: Seq<Seq<char>>,
)
    requires
        below(tips, v.nodes.len() as int),
    ensures
        wave_nodes(v, p, svc, env, unwind, tips, hosts).0.nodes.len() >= v.nodes.len(),
        below(wave_nodes(v, p, svc, env, unwind, tips, hosts).1, wave_nodes(v, p, svc, env, unwind, tips, hosts).0.nodes.len() as int),
        wave_nodes(v, p, svc, env, unwind, tips, hosts).0.nodes.len() <= usize::MAX ==> grows_forward(
            v,
            wave_nodes(v, p, svc, env, unwind, tips, hosts).0,
        ),
    decreases hosts.len(),
{
    if hosts.len() == 0 {
        assert(grows_forward(v, v));
    } else {
        lemma_wave_forward(v, p, svc, env, unwind, tips, hosts.drop_last());
        let (w, ids) = wave_nodes(v, p, svc, env, unwind, tips, hosts.drop_last());
        assert(below(tips, w.nodes.len() as int));
        lemma_triplet_forward(w, p, svc, env, unwind, tips, hosts.last());
        let (w2, last) = host_triplet(w, p, svc, env, unwind, tips, hosts.last());
        let (x, xs) = wave_nodes(v, p, svc, env, unwind, tips, hosts);
        assert(x == w2 && xs == ids.push(last));
        assert forall|k: int| 0 <= k < xs.len() implies #[trigger] xs[k] < x.nodes.len() by {
            if k < ids.len() {
                assert(xs[k] == ids[k]);
            }
        }
        if x.nodes.len() <= usize::MAX {
            lemma_grows_trans(v, w, x);
        }
    }
}

proof fn lemma_waves_forward(
    v: EngineView,
    p: usize,
    svc: Seq<char>,
    env: Seq<char>,
    unwind: bool,
    tips: Seq<usize>,
    ws: Seq<Seq<Seq<char>>>,
)
    requires
        below(tips, v.nodes.len() as int),
    ensures
        waves_nodes(v, p, svc, env, unwind, tips, ws).0.nodes.len() >= v.nodes.len(),
        below(waves_nodes(v, p, svc, env, unwind, tips, ws).1, waves_nodes(v, p, svc, env, unwind, tips, ws).0.nodes.len() as int),
        waves_nodes(v, p, svc, env, unwind, tips, ws).0.nodes.len() <= usize::MAX ==> grows_forward(
            v,
            waves_nodes(v, p, svc, env, unwind, tips, ws).0,
        ),
    decreases ws.len(),
{
    if ws.len() == 0 {
        assert(grows_forward(v, v));
    } else {
        lemma_waves_forward(v, p, svc, env, unwind, tips, ws.drop_last());
        let (w, t) = waves_nodes(v, p, svc, env, unwind, tips, ws.drop_last());
        lemma_wave_forward(w, p, svc, env, unwind, t, ws.last());
        let x = waves_nodes(v, p, svc, env, unwind, tips, ws);
        if x.0.nodes.len() <= usize::MAX {
            lemma_grows_trans(v, w, x.0);
        }
    }
}

proof fn lemma_env_forward(v: EngineView, p: usize, c: ConfigView, env: Seq<char>, hosts: Seq<Seq<char>>, prev: Seq<usize>)
    requires
        below(prev, v.nodes.len() as int),
    ensures
        env_nodes(v, p, c, env, hosts, prev).0.nodes.len() >= v.nodes.len(),
        below(env_nodes(v, p, c, env, hosts, prev).1, env_nodes(v, p, c, env, hosts, prev).0.nodes.len() as int),
        env_nodes(v, p, c, env, hosts, prev).0.nodes.len() <= usize::MAX ==> grows_forward(v, env_nodes(v, p, c, env, hosts, prev).0),
{
    let svc = c.project;
    assert(grows_forward(v, v));
    let i1 = node_info(p, route_update_json(env), ResourceView::GatewayRouting { environment: env }, options_without_unwind());
    let s1 = if c.has_routes {
        chain(v, prev, i1)
    } else {
        (v, prev)
    };
    if c.has_routes {
        lemma_chain_forward(v, prev, i1);
    }
    let i2 = node_info(p, alert_configuration_json(svc, env), ResourceView::AlertRules { service_id: svc }, options_without_unwind());
    let s2 = if c.has_alerts {
        chain(s1.0, s1.1, i2)
    } else {
        s1
    };
    if c.has_alerts {
        lemma_chain_forward(s1.0, s1.1, i2);
    } else {
        assert(grows_forward(s1.0, s1.0));
    }
    let s3 = if c.has_log_rules {
        log_rule_nodes(s2.0, p, svc, s2.1, hosts)
    } else {
        s2
    };
    if c.has_log_rules {
        lemma_log_rules_forward(s2.0, p, svc, s2.1, hosts);
    } else {
        assert(grows_forward(s2.0, s2.0));
    }
    let i4 = node_info(
        p,
        database_migration_json(svc, env),
        ResourceView::DatabaseMigration { host: hosts[0], service_id: svc, environment: env },
        options_without_unwind(),
    );
    let s4 = if c.has_database {
        chain(s3.0, s3.1, i4)
    } else {
        s3
    };
    if c.has_database {
        lemma_chain_forward(s3.0, s3.1, i4);
    } else {
        assert(grows_forward(s3.0, s3.0));
    }
    let ws = if is_host_agent(svc) {
        seq![hosts]
    } else {
        layout(hosts)
    };
    let unwind = !is_host_agent(svc);
    lemma_waves_forward(s4.0, p, svc, env, unwind, s4.1, ws);
    let x = env_nodes(v, p, c, env, hosts, prev);
    assert(x == waves_nodes(s4.0, p, svc, env, unwind, s4.1, ws));
    if x.0.nodes.len() <= usize::MAX {
        lemma_grows_trans(v, s1.0, s2.0);
        lemma_grows_trans(v, s2.0, s3.0);
        lemma_grows_trans(v, s3.0, s4.0);
        lemma_grows_trans(v, s4.0, x.0);
    }
}

/// The pipeline built for a revision is acyclic: every edge it adds goes from a node to a later
/// node, and ends at one of the nodes it adds; nodes and edges already there are kept.
pub proof fn law_dag_goes_forward(v: EngineView, rev: usize, c: ConfigView)
    requires
        dag_of(v, rev, c).nodes.len() <= usize::MAX,
    ensures
        grows_forward(v, dag_of(v, rev, c)),
{
    let p = v.pipelines.len() as usize;
    let v0 = EngineView {
        pipelines: v.pipelines.push(PipelineInfoView { project: c.project, revision: rev }),
        pipeline_states: v.pipeline_states.push(PipelineStatus::Active),
        ..v
    };
    assert(grows_forward(v, v0));
    let beta = if c.beta.len() > 0 {
        env_nodes(v0, p, c, "beta"@, c.beta, Seq::empty())
    } else {
        (v0, Seq::empty())
    };
    if c.beta.len() > 0 {
        lemma_env_forward(v0, p, c, "beta"@, c.beta, Seq::empty());
    } else {
        assert(grows_forward(v0, v0));
    }
    let gate = NodeInfoView {
        pipeline: p,
        event: environment_gate_json("beta"@, "prod"@),
        key: None,
        boundary: true,
        unwind_on_failure: false,
    };
    let before_prod = if beta.1.len() == 0 {
        (beta.0, Seq::<usize>::empty())
    } else {
        chain(beta.0, beta.1, gate)
    };
    if beta.1.len() == 0 {
        assert(grows_forward(beta.0, beta.0));
    } else {
        lemma_chain_forward(beta.0, beta.1, gate);
    }
    let built = if c.prod.len() > 0 {
        env_nodes(before_prod.0, p, c, "prod"@, c.prod, before_prod.1).0
    } else {
        beta.0
    };
    if c.prod.len() > 0 {
        lemma_env_forward(before_prod.0, p, c, "prod"@, c.prod, before_prod.1);
    }
    let d = dag_of(v, rev, c);
    assert(d.nodes == built.nodes && d.edges == built.edges);
    if c.prod.len() > 0 {
        lemma_grows_trans(v, v0, beta.0);
        lemma_grows_trans(v, beta.0, before_prod.0);
        lemma_grows_trans(v, before_prod.0, built);
    } else {
        lemma_grows_trans(v, v0, beta.0);
    }
}

// ----- which nodes unwind their pipeline on failure -----

/// How a node of a project's DAG reacts to failure, by the kind of step it records: host
/// deployments and deployment verifications unwind their pipeline, unless the project is
/// `ant-host-agent`; no other step does.
pub open spec fn unwinds_by_kind(info: NodeInfoView, project: Seq<char>) -> bool {
    info.unwind_on_failure == (deploys_host(info.event) && project != "ant-host-agent"@)
}

/// `w` keeps the nodes of `v` and every node it adds follows the rule above.
spec fn adds_by_kind(v: EngineView, w: EngineView, project: Seq<char>) -> bool {
    &&& v.nodes.len() <= w.nodes.len()
    &&& forall|i: int| 0 <= i < v.nodes.len() ==> #[trigger] w.nodes[i] == v.nodes[i]
    &&& forall|i: int| v.nodes.len() <= i < w.nodes.len() ==> unwinds_by_kind(#[trigger] w.nodes[i], project)
}

proof fn lemma_adds_trans(a: EngineView, b: EngineView, c: EngineView, project: Seq<char>)
    requires
        adds_by_kind(a, b, project),
        adds_by_kind(b, c, project),
    ensures
        adds_by_kind(a, c, project),
{
    assert forall|i: int| 0 <= i < a.nodes.len() implies #[trigger] c.nodes[i] == a.nodes[i] by {
        assert(c.nodes[i] == b.nodes[i]);
    }
    assert forall|i: int| a.nodes.len() <= i < c.nodes.len() implies unwinds_by_kind(#[trigger] c.nodes[i], project) by {
        if i < b.nodes.len() {
            assert(c.nodes[i] == b.nodes[i]);
        }
    }
}

proof fn lemma_adds_plus(v: EngineView, info: NodeInfoView, project: Seq<char>)
    requires
        unwinds_by_kind(info, project),
    ensures
        adds_by_kind(v, plus_node(v, info), project),
{
}

/// Linking after a step keeps what the step added.
proof fn lemma_adds_link(v0: EngineView, v: EngineView, tips: Seq<usize>, to: usize, project: Seq<char>)
    requires
        adds_by_kind(v0, v, project),
    ensures
        adds_by_kind(v0, link(v, tips, to), project),
{
    lemma_link_keeps(v, tips, to);
}

proof fn lemma_adds_chain(v: EngineView, tips: Seq<usize>, info: NodeInfoView, project: Seq<char>)
    requires
        unwinds_by_kind(info, project),
    ensures
        adds_by_kind(v, chain(v, tips, info).0, project),
{
    lemma_adds_plus(v, info, project);
    lemma_adds_link(v, plus_node(v, info), tips, v.nodes.len() as usize, project);
}

proof fn lemma_adds_log_rules(v: EngineView, p: usize, svc: Seq<char>, tips: Seq<usize>, hosts: Seq<Seq<char>>, project: Seq<char>)
    ensures
        adds_by_kind(v, log_rule_nodes(v, p, svc, tips, hosts).0, project),
    decreases hosts.len(),
{
    if hosts.len() == 0 {
    } else {
        lemma_adds_log_rules(v, p, svc, tips, hosts.drop_last(), project);
        let (w, ids) = log_rule_nodes(v, p, svc, tips, hosts.drop_last());
        let h = hosts.last();
        let n = w.nodes.len() as usize;
        let info = node_info(
            p,
            log_rule_configuration_json(h, svc),
            ResourceView::LogRules { host_id: h, service_id: svc },
            options_without_unwind(),
        );
        lemma_step_kinds(h, svc, svc, svc, svc);
        lemma_adds_plus(w, info, project);
        lemma_adds_link(w, plus_node(w, info), tips, n, project);
        lemma_adds_trans(v, w, link(plus_node(w, info), tips, n), project);
    }
}

proof fn lemma_adds_triplet(
    v: EngineView,
    p: usize,
    svc: Seq<char>,
    env: Seq<char>,
    unwind: bool,
    tips: Seq<usize>,
    h: Seq<char>,
    project: Seq<char>,
)
    requires
        unwind == (project != "ant-host-agent"@),
    ensures
        adds_by_kind(v, host_triplet(v, p, svc, env, unwind, tips, h).0, project),
{
    let r = v.nodes.len() as usize;
    let key = ResourceView::HostService { host_id: h, service_id: svc };
    let options = NodeOptions { is_unwind_boundary: false, unwind_on_failure: unwind };
    let i1 = node_info(p, host_step_json("artifact_replication"@, h, svc, env), key, options_without_unwind());
    let i2 = node_info(p, host_step_json("host_deployment"@, h, svc, env), key, options);
    let i3 = node_info(p, host_step_json("deployment_verification"@, h, svc, env), key, options);
    lemma_step_kinds(h, svc, env, env, env);
    let v1 = plus_node(v, i1);
    let v2 = plus_node(v1, i2);
    let v3 = plus_node(v2, i3);
    lemma_adds_plus(v, i1, project);
    lemma_adds_plus(v1, i2, project);
    lemma_adds_plus(v2, i3, project);
    lemma_adds_trans(v, v1, v2, project);
    lemma_adds_trans(v, v2, v3, project);
    lemma_adds_link(v, v3, tips, r, project);
    let v4 = link(v3, tips, r);
    let x = host_triplet(v, p, svc, env, unwind, tips, h);
    assert(x.0.nodes == v4.nodes);
}

proof fn lemma_adds_wave(
    v: EngineView,
    p: usize,
    svc: Seq<char>,
    env: Seq<char>,
    unwind: bool,
    tips: Seq<usize>,
    hosts: Seq<Seq<char>>,
    project: Seq<char>,
)
    requires
        unwind == (project != "ant-host-agent"@),
    ensures
        adds_by_kind(v, wave_nodes(v, p, svc, env, unwind, tips, hosts).0, project),
    decreases hosts.len(),
{
    if hosts.len() > 0 {
        lemma_adds_wave(v, p, svc, env, unwind, tips, hosts.drop_last(), project);
        let (w, ids) = wave_nodes(v, p, svc, env, unwind, tips, hosts.drop_last());
        lemma_adds_triplet(w, p, svc, env, unwind, tips, hosts.last(), project);
        lemma_adds_trans(v, w, host_triplet(w, p, svc, env, unwind, tips, hosts.last()).0, project);
    }
}

proof fn lemma_adds_waves(
    v: EngineView,
    p: usize,
    svc: Seq<char>,
    env: Seq<char>,
    unwind: bool,
    tips: Seq<usize>,
    ws: Seq<Seq<Seq<char>>>,
    project: Seq<char>,
)
    requires
        unwind == (project != "ant-host-agent"@),
    ensures
        adds_by_kind(v, waves_nodes(v, p, svc, env, unwind, tips, ws).0, project),
    decreases ws.len(),
{
    if ws.len() > 0 {
        lemma_adds_waves(v, p, svc, env, unwind, tips, ws.drop_last(), project);
        let (w, t) = waves_nodes(v, p, svc, env, unwind, tips, ws.drop_last());
        lemma_adds_wave(w, p, svc, env, unwind, t, ws.last(), project);
        lemma_adds_trans(v, w, wave_nodes(w, p, svc, env, unwind, t, ws.last()).0, project);
    }
}

proof fn lemma_adds_env(v: EngineView, p: usize, c: ConfigView, env: Seq<char>, hosts: Seq<Seq<char>>, prev: Seq<usize>)
    ensures
        adds_by_kind(v, env_nodes(v, p, c, env, hosts, prev).0, c.project),
{
    let svc = c.project;
    lemma_step_kinds(svc, svc, env, env, env);
    let s1 = if c.has_routes {
        chain(v, prev, node_info(p, route_update_json(env), ResourceView::GatewayRouting { environment: env }, options_without_unwind()))
    } else {
        (v, prev)
    };
    if c.has_routes {
        lemma_adds_chain(v, prev, node_info(p, route_update_json(env), ResourceView::GatewayRouting { environment: env }, options_without_unwind()), svc);
    }
    let s2 = if c.has_alerts {
        chain(s1.0, s1.1, node_info(p, alert_configuration_json(svc, env), ResourceView::AlertRules { service_id: svc }, options_without_unwind()))
    } else {
        s1
    };
    if c.has_alerts {
        lemma_adds_chain(s1.0, s1.1, node_info(p, alert_configuration_json(svc, env), ResourceView::AlertRules { service_id: svc }, options_without_unwind()), svc);
    }
    lemma_adds_trans(v, s1.0, s2.0, svc);
    let s3 = if c.has_log_rules {
        log_rule_nodes(s2.0, p, svc, s2.1, hosts)
    } else {
        s2
    };
    if c.has_log_rules {
        lemma_adds_log_rules(s2.0, p, svc, s2.1, hosts, svc);
    }
    lemma_adds_trans(v, s2.0, s3.0, svc);
    let info = node_info(
        p,
        database_migration_json(svc, env),
        ResourceView::DatabaseMigration { host: hosts[0], service_id: svc, environment: env },
        options_without_unwind(),
    );
    let s4 = if c.has_database {
        chain(s3.0, s3.1, info)
    } else {
        s3
    };
    if c.has_database {
        lemma_adds_chain(s3.0, s3.1, info, svc);
    }
    lemma_adds_trans(v, s3.0, s4.0, svc);
    if is_host_agent(svc) {
        lemma_adds_waves(s4.0, p, svc, env, false, s4.1, seq![hosts], svc);
        lemma_adds_trans(v, s4.0, waves_nodes(s4.0, p, svc, env, false, s4.1, seq![hosts]).0, svc);
    } else {
        lemma_adds_waves(s4.0, p, svc, env, true, s4.1, layout(hosts), svc);
        lemma_adds_trans(v, s4.0, waves_nodes(s4.0, p, svc, env, true, s4.1, layout(hosts)).0, svc);
    }
}

/// A project's DAG keeps the nodes the engine had, and each node it adds unwinds its pipeline on
/// failure exactly when it records a host deployment or a deployment verification and the
/// project is not `ant-host-agent`.
pub proof fn law_dag_unwinds_by_kind(v: EngineView, rev: usize, c: ConfigView)
    ensures
        v.nodes.len() <= dag_of(v, rev, c).nodes.len(),
        forall|i: int| 0 <= i < v.nodes.len() ==> #[trigger] dag_of(v, rev, c).nodes[i] == v.nodes[i],
        forall|i: int|
            v.nodes.len() <= i < dag_of(v, rev, c).nodes.len() ==> (#[trigger] dag_of(v, rev, c).nodes[i]).unwind_on_failure == (
            deploys_host(dag_of(v, rev, c).nodes[i].event) && c.project != "ant-host-agent"@),
{
    let p = v.pipelines.len() as usize;
    let project = c.project;
    let v0 = EngineView {
        pipelines: v.pipelines.push(PipelineInfoView { project: c.project, revision: rev }),
        pipeline_states: v.pipeline_states.push(PipelineStatus::Active),
        ..v
    };
    let beta = if c.beta.len() > 0 {
        env_nodes(v0, p, c, "beta"@, c.beta, Seq::empty())
    } else {
        (v0, Seq::empty())
    };
    if c.beta.len() > 0 {
        lemma_adds_env(v0, p, c, "beta"@, c.beta, Seq::empty());
    }
    let gate = NodeInfoView {
        pipeline: p,
        event: environment_gate_json("beta"@, "prod"@),
        key: None,
        boundary: true,
        unwind_on_failure: false,
    };
    lemma_step_kinds(project, project, project, "beta"@, "prod"@);
    let built = if c.prod.len() > 0 {
        let before_prod = if beta.1.len() == 0 {
            (beta.0, Seq::<usize>::empty())
        } else {
            chain(beta.0, beta.1, gate)
        };
        if beta.1.len() > 0 {
            lemma_adds_chain(beta.0, beta.1, gate, project);
        }
        lemma_adds_trans(v0, beta.0, before_prod.0, project);
        lemma_adds_env(before_prod.0, p, c, "prod"@, c.prod, before_prod.1);
        lemma_adds_trans(v0, before_prod.0, env_nodes(before_prod.0, p, c, "prod"@, c.prod, before_prod.1).0, project);
        env_nodes(before_prod.0, p, c, "prod"@, c.prod, before_prod.1).0
    } else {
        beta.0
    };
    assert(adds_by_kind(v0, built, project));
    let x = dag_of(v, rev, c);
    assert(x == built.sealed(p as int));
    assert(x.nodes == built.nodes);
    assert forall|i: int| v.nodes.len() <= i < x.nodes.len() implies (#[trigger] x.nodes[i]).unwind_on_failure == (
        deploys_host(x.nodes[i].event) && c.project != "ant-host-agent"@) by {
        assert(unwinds_by_kind(built.nodes[i], project));
    }
}

} // verus!
