use types_of_ants::pipeline_engine::engine::{BlockReason, Dispatch, DispatchDirection, EngineError, PipelineEngine};
use types_of_ants::pipeline_engine::model::{JobStatus, NodeStatus, PipelineStatus};
use types_of_ants::pipeline_engine::node::{NodeOptions, NodeSpec};
use types_of_ants::project_view::status_str;
use types_of_ants::resource_key::{DeploymentResource, Identifier};

fn id(s: &str) -> Identifier {
    Identifier::new(s).unwrap()
}

fn host_replicated(host_id: &str, service_id: &str) -> NodeSpec {
    let resource = DeploymentResource::HostService { host_id: id(host_id), service_id: id(service_id) };
    NodeSpec {
        event: format!(r#"{{"host_id":"{host_id}","service_id":"{service_id}","type":"host-replicated"}}"#),
        mutates: Some(resource.to_string()),
        options: NodeOptions::default(),
    }
}

fn host_deployed(host_id: &str, service_id: &str) -> NodeSpec {
    let resource = DeploymentResource::HostService { host_id: id(host_id), service_id: id(service_id) };
    NodeSpec {
        event: format!(r#"{{"host_id":"{host_id}","service_id":"{service_id}","type":"host-deployed"}}"#),
        mutates: Some(resource.to_string()),
        options: NodeOptions::default(),
    }
}

fn synthetic(name: &str) -> NodeSpec {
    NodeSpec { event: format!(r#"{{"type":"{name}"}}"#), mutates: None, options: NodeOptions::default() }
}

fn keyed(name: &str, key: &str, options: NodeOptions) -> NodeSpec {
    NodeSpec { event: format!(r#"{{"type":"{name}"}}"#), mutates: Some(key.to_string()), options }
}

struct Fixture {
    engine: PipelineEngine,
    now: u64,
}

impl Fixture {
    fn new() -> Self {
        Fixture { engine: PipelineEngine::new(), now: 1000 }
    }

    /// Ticks and lets every dispatched job succeed.
    fn tick_all_done(&mut self) -> Vec<Dispatch> {
        self.now += 1;
        let claimed = self.engine.tick(self.now);
        let mut out = vec![];
        for c in claimed {
            if c.handle.can_complete(&self.engine) {
                c.handle.succeed(&mut self.engine);
            }
            out.push(c.dispatch);
        }
        out
    }

    /// Ticks and lets every dispatched job fail.
    fn tick_all_fail(&mut self) {
        self.now += 1;
        let claimed = self.engine.tick(self.now);
        for c in claimed {
            if c.handle.can_complete(&self.engine) {
                c.handle.fail(&mut self.engine, "test failure");
            }
        }
    }

    fn assert_states(&self, pipeline_id: usize, expected: &[(&str, &str)]) {
        let nodes = self.engine.nodes(pipeline_id);
        assert_eq!(nodes.len(), expected.len(), "Node count mismatch");
        for (node, (event_substr, state)) in nodes.iter().zip(expected.iter()) {
            assert!(node.event.contains(event_substr), "Expected event containing '{}', got '{}'", event_substr, node.event);
            assert_eq!(status_str(node.state), *state, "Node '{}' state", event_substr);
        }
    }

    fn assert_unwind_dispatch(d: &Dispatch, event_substr: &str, restore: Option<usize>) {
        assert!(d.node.event.contains(event_substr), "expected event containing '{}', got '{}'", event_substr, d.node.event);
        match d.direction {
            DispatchDirection::Unwind { restore_revision_id } => assert_eq!(restore_revision_id, restore),
            DispatchDirection::Deploy => panic!("expected Unwind dispatch for '{}', got Deploy", event_substr),
        }
    }
}

#[test]
fn pipeline_engine_single_node_becomes_runnable() {
    let mut f = Fixture::new();
    let rev = f.engine.create_revision("web");
    let p = f.engine.create_pipeline("web", rev).unwrap();
    f.engine.add_node(p, synthetic("start")).unwrap();
    f.engine.seal(p);
    f.assert_states(p, &[("start", "executable")]);
}

#[test]
fn pipeline_engine_successor_promoted_after_tick() {
    let mut f = Fixture::new();
    let rev = f.engine.create_revision("web");
    let p = f.engine.create_pipeline("web", rev).unwrap();
    let a = f.engine.add_node(p, host_replicated("w1", "web")).unwrap();
    let b = f.engine.add_node(p, host_deployed("w1", "web")).unwrap();
    f.engine.add_edge(a, b).unwrap();
    f.assert_states(p, &[("host-replicated", "pending"), ("host-deployed", "pending")]);
    f.engine.seal(p);
    f.assert_states(p, &[("host-replicated", "executable"), ("host-deployed", "pending")]);
    f.tick_all_done();
    f.assert_states(p, &[("host-replicated", "finished"), ("host-deployed", "executable")]);
    f.tick_all_done();
    f.assert_states(p, &[("host-replicated", "finished"), ("host-deployed", "finished")]);
}

#[test]
fn pipeline_engine_fifo_blocks_newer_revision() {
    let mut f = Fixture::new();
    let rev1 = f.engine.create_revision("web");
    let rev2 = f.engine.create_revision("web");
    let p1 = f.engine.create_pipeline("web", rev1).unwrap();
    f.engine.add_node(p1, host_replicated("w1", "web")).unwrap();
    let p2 = f.engine.create_pipeline("web", rev2).unwrap();
    f.engine.add_node(p2, host_replicated("w1", "web")).unwrap();
    f.assert_states(p1, &[("host-replicated", "pending")]);
    f.assert_states(p2, &[("host-replicated", "pending")]);
    f.engine.seal(p1);
    f.engine.seal(p2);
    f.assert_states(p1, &[("host-replicated", "executable")]);
    f.assert_states(p2, &[("host-replicated", "executable")]);
    let runnable = f.engine.runnable();
    assert_eq!(runnable.len(), 1);
    assert!(runnable[0].event.contains("w1"));
    f.tick_all_done();
    f.assert_states(p1, &[("host-replicated", "finished")]);
    let runnable = f.engine.runnable();
    assert_eq!(runnable.len(), 1);
    f.tick_all_done();
    f.assert_states(p2, &[("host-replicated", "finished")]);
}

#[test]
fn pipeline_engine_independent_resources_run_in_parallel() {
    let mut f = Fixture::new();
    let rev1 = f.engine.create_revision("web");
    let rev2 = f.engine.create_revision("gateway");
    let p1 = f.engine.create_pipeline("web", rev1).unwrap();
    f.engine.add_node(p1, host_replicated("w1", "web")).unwrap();
    f.engine.seal(p1);
    let p2 = f.engine.create_pipeline("gateway", rev2).unwrap();
    f.engine.add_node(p2, host_replicated("w2", "gateway")).unwrap();
    f.engine.seal(p2);
    assert_eq!(f.engine.runnable().len(), 2);
    f.tick_all_done();
    f.assert_states(p1, &[("host-replicated", "finished")]);
    f.assert_states(p2, &[("host-replicated", "finished")]);
}

#[test]
fn pipeline_engine_cancel_unblocks_newer_revision() {
    let mut f = Fixture::new();
    let rev1 = f.engine.create_revision("web");
    let rev2 = f.engine.create_revision("web");
    let p1 = f.engine.create_pipeline("web", rev1).unwrap();
    f.engine.add_node(p1, host_replicated("w1", "web")).unwrap();
    f.engine.seal(p1);
    let p2 = f.engine.create_pipeline("web", rev2).unwrap();
    f.engine.add_node(p2, host_replicated("w1", "web")).unwrap();
    f.engine.seal(p2);
    f.engine.cancel(p1).unwrap();
    f.assert_states(p1, &[("host-replicated", "cancelled")]);
    f.assert_states(p2, &[("host-replicated", "executable")]);
    assert_eq!(f.engine.runnable().len(), 1);
}

#[test]
fn pipeline_engine_fan_out() {
    let mut f = Fixture::new();
    let rev = f.engine.create_revision("web");
    let p = f.engine.create_pipeline("web", rev).unwrap();
    let root = f.engine.add_node(p, synthetic("start")).unwrap();
    let a = f.engine.add_node(p, host_replicated("w1", "web")).unwrap();
    let b = f.engine.add_node(p, host_replicated("w2", "web")).unwrap();
    f.engine.add_edge(root, a).unwrap();
    f.engine.add_edge(root, b).unwrap();
    f.assert_states(p, &[("start", "pending"), ("w1", "pending"), ("w2", "pending")]);
    f.engine.seal(p);
    f.assert_states(p, &[("start", "executable"), ("w1", "pending"), ("w2", "pending")]);
    f.tick_all_done();
    f.assert_states(p, &[("start", "finished"), ("w1", "executable"), ("w2", "executable")]);
    f.tick_all_done();
    f.assert_states(p, &[("start", "finished"), ("w1", "finished"), ("w2", "finished")]);
}

#[test]
fn pipeline_engine_fan_in_waits_for_all_predecessors() {
    let mut f = Fixture::new();
    let rev = f.engine.create_revision("web");
    let p = f.engine.create_pipeline("web", rev).unwrap();
    let a = f.engine.add_node(p, host_replicated("w1", "web")).unwrap();
    let b = f.engine.add_node(p, host_deployed("w1", "web")).unwrap();
    let c = f.engine.add_node(p, host_replicated("w2", "web")).unwrap();
    let join = f.engine.add_node(p, synthetic("all-done")).unwrap();
    f.engine.add_edge(a, b).unwrap();
    f.engine.add_edge(b, join).unwrap();
    f.engine.add_edge(c, join).unwrap();
    f.engine.seal(p);
    let w1 = "w1\",\"service_id\":\"web";
    f.assert_states(p, &[(w1, "executable"), ("host-deployed", "pending"), ("w2", "executable"), ("all-done", "pending")]);
    f.tick_all_done();
    f.assert_states(p, &[(w1, "finished"), ("host-deployed", "executable"), ("w2", "finished"), ("all-done", "pending")]);
    f.tick_all_done();
    f.assert_states(p, &[(w1, "finished"), ("host-deployed", "finished"), ("w2", "finished"), ("all-done", "executable")]);
    f.tick_all_done();
    f.assert_states(p, &[(w1, "finished"), ("host-deployed", "finished"), ("w2", "finished"), ("all-done", "finished")]);
}

#[test]
fn pipeline_engine_failed_node_does_not_retry_automatically() {
    let mut f = Fixture::new();
    let rev = f.engine.create_revision("web");
    let p = f.engine.create_pipeline("web", rev).unwrap();
    f.engine
        .add_node(
            p,
            NodeSpec {
                event: r#"{"host_id":"w1","service_id":"web","type":"host-replicated"}"#.to_string(),
                mutates: Some("host_service:w1:web".to_string()),
                options: NodeOptions { unwind_on_failure: false, is_unwind_boundary: false },
            },
        )
        .unwrap();
    f.engine.seal(p);
    f.assert_states(p, &[("host-replicated", "executable")]);
    f.tick_all_fail();
    f.assert_states(p, &[("host-replicated", "failed")]);
    f.tick_all_done();
    f.assert_states(p, &[("host-replicated", "failed")]);
    assert_eq!(f.engine.runnable().len(), 0);
}

#[test]
fn pipeline_engine_manual_retry_makes_node_executable() {
    let mut f = Fixture::new();
    let rev = f.engine.create_revision("web");
    let p = f.engine.create_pipeline("web", rev).unwrap();
    let n = f.engine.add_node(p, host_replicated("w1", "web")).unwrap();
    f.engine.seal(p);
    f.tick_all_fail();
    f.assert_states(p, &[("host-replicated", "failed")]);
    f.engine.retry(n).unwrap();
    f.assert_states(p, &[("host-replicated", "executable")]);
    f.tick_all_done();
    f.assert_states(p, &[("host-replicated", "finished")]);
}

#[test]
fn pipeline_engine_stale_heartbeat_auto_retries() {
    let mut f = Fixture::new();
    let rev = f.engine.create_revision("web");
    let p = f.engine.create_pipeline("web", rev).unwrap();
    f.engine.add_node(p, host_replicated("w1", "web")).unwrap();
    f.engine.seal(p);
    f.assert_states(p, &[("host-replicated", "executable")]);
    // A worker claims the node and then disappears without reporting.
    let claimed = f.engine.tick(f.now);
    assert_eq!(claimed.len(), 1);
    f.assert_states(p, &[("host-replicated", "in_progress")]);
    // Two minutes later the heartbeat is stale: the node is released and dispatched again.
    f.now += 120;
    f.tick_all_done();
    f.assert_states(p, &[("host-replicated", "finished")]);
}

#[test]
fn pipeline_engine_why_blocked_consistent_with_runnable() {
    let mut f = Fixture::new();
    let rev1 = f.engine.create_revision("web");
    let rev2 = f.engine.create_revision("web");
    let p1 = f.engine.create_pipeline("web", rev1).unwrap();
    let a = f.engine.add_node(p1, host_replicated("w1", "web")).unwrap();
    let b = f.engine.add_node(p1, host_deployed("w1", "web")).unwrap();
    f.engine.add_edge(a, b).unwrap();
    f.engine.seal(p1);
    let p2 = f.engine.create_pipeline("web", rev2).unwrap();
    let c = f.engine.add_node(p2, host_replicated("w1", "web")).unwrap();
    f.engine.seal(p2);

    let runnable_ids: Vec<usize> = f.engine.runnable().iter().map(|n| n.node_id).collect();
    assert!(runnable_ids.contains(&a));
    assert!(f.engine.why_blocked(a).unwrap().is_none());

    assert!(!runnable_ids.contains(&b));
    match f.engine.why_blocked(b).unwrap().unwrap() {
        BlockReason::NotExecutable { state, pending_predecessors } => {
            assert_eq!(status_str(state), "pending");
            assert_eq!(pending_predecessors.len(), 1);
            assert_eq!(pending_predecessors[0].node_id, a);
        }
        other => panic!("Expected NotExecutable, got: {other:?}"),
    }

    assert!(!runnable_ids.contains(&c));
    assert!(matches!(f.engine.why_blocked(c).unwrap().unwrap(), BlockReason::ResourceContention { .. }));
}

#[test]
fn pipeline_engine_failed_node_blocks_newer_revision_until_cancel() {
    let mut f = Fixture::new();
    let rev1 = f.engine.create_revision("web");
    let rev2 = f.engine.create_revision("web");
    let p1 = f.engine.create_pipeline("web", rev1).unwrap();
    f.engine.add_node(p1, host_replicated("w1", "web")).unwrap();
    let p2 = f.engine.create_pipeline("web", rev2).unwrap();
    f.engine.add_node(p2, host_replicated("w1", "web")).unwrap();
    f.engine.seal(p1);
    f.engine.seal(p2);
    f.tick_all_fail();
    f.assert_states(p1, &[("host-replicated", "failed")]);
    f.assert_states(p2, &[("host-replicated", "executable")]);
    assert_eq!(f.engine.runnable().len(), 0);
    f.engine.cancel(p1).unwrap();
    f.assert_states(p1, &[("host-replicated", "cancelled")]);
    assert_eq!(f.engine.runnable().len(), 1);
    f.tick_all_done();
    f.assert_states(p2, &[("host-replicated", "finished")]);
}

#[test]
fn pipeline_engine_edges_returns_dag_structure() {
    let mut f = Fixture::new();
    let rev = f.engine.create_revision("web");
    let p = f.engine.create_pipeline("web", rev).unwrap();
    let a = f.engine.add_node(p, synthetic("start")).unwrap();
    let b = f.engine.add_node(p, host_replicated("w1", "web")).unwrap();
    let c = f.engine.add_node(p, host_replicated("w2", "web")).unwrap();
    let d = f.engine.add_node(p, synthetic("end")).unwrap();
    f.engine.add_edge(a, b).unwrap();
    f.engine.add_edge(a, c).unwrap();
    f.engine.add_edge(b, d).unwrap();
    f.engine.add_edge(c, d).unwrap();
    f.engine.seal(p);
    let edges = f.engine.edges(p);
    assert_eq!(edges.len(), 4);
    let pairs: Vec<(usize, usize)> = edges.iter().map(|e| (e.from_node_id, e.to_node_id)).collect();
    assert!(pairs.contains(&(a, b)));
    assert!(pairs.contains(&(a, c)));
    assert!(pairs.contains(&(b, d)));
    assert!(pairs.contains(&(c, d)));
}

#[test]
fn pipeline_engine_nodes_layered_returns_topological_columns() {
    let mut f = Fixture::new();
    let rev = f.engine.create_revision("ant-on-the-web");
    let p = f.engine.create_pipeline("ant-on-the-web", rev).unwrap();
    let start = f.engine.add_node(p, synthetic("start")).unwrap();
    let m1 = f.engine.add_node(p, host_replicated("w1", "web")).unwrap();
    let m2 = f.engine.add_node(p, host_replicated("w2", "web")).unwrap();
    let end = f.engine.add_node(p, synthetic("end")).unwrap();
    f.engine.add_edge(start, m1).unwrap();
    f.engine.add_edge(start, m2).unwrap();
    f.engine.add_edge(m1, end).unwrap();
    f.engine.add_edge(m2, end).unwrap();
    f.engine.seal(p);
    let layers = f.engine.nodes_layered(p);
    assert_eq!(layers.len(), 3);
    assert_eq!(layers[0].len(), 1);
    assert!(layers[0][0].event.contains("start"));
    assert_eq!(layers[1].len(), 2);
    let layer1: Vec<&str> = layers[1].iter().map(|n| n.event.as_str()).collect();
    assert!(layer1.iter().any(|e| e.contains("w1")));
    assert!(layer1.iter().any(|e| e.contains("w2")));
    assert_eq!(layers[2].len(), 1);
    assert!(layers[2][0].event.contains("end"));
}

#[test]
fn pipeline_engine_nodes_layered_sequential_chain() {
    let mut f = Fixture::new();
    let rev = f.engine.create_revision("ant-on-the-web");
    let p = f.engine.create_pipeline("ant-on-the-web", rev).unwrap();
    let a = f.engine.add_node(p, synthetic("a")).unwrap();
    let b = f.engine.add_node(p, synthetic("b")).unwrap();
    let c = f.engine.add_node(p, synthetic("c")).unwrap();
    let d = f.engine.add_node(p, synthetic("d")).unwrap();
    f.engine.add_edge(a, b).unwrap();
    f.engine.add_edge(b, c).unwrap();
    f.engine.add_edge(c, d).unwrap();
    f.engine.seal(p);
    let layers = f.engine.nodes_layered(p);
    assert_eq!(layers.len(), 4);
    for (k, name) in ["\"a\"", "\"b\"", "\"c\"", "\"d\""].iter().enumerate() {
        assert_eq!(layers[k].len(), 1);
        assert!(layers[k][0].event.contains(name));
    }
}

#[test]
fn pipeline_engine_active_pipelines_returns_in_progress() {
    let mut f = Fixture::new();
    let rev1 = f.engine.create_revision("web");
    let rev2 = f.engine.create_revision("web");
    let p1 = f.engine.create_pipeline("web", rev1).unwrap();
    f.engine.add_node(p1, synthetic("start")).unwrap();
    f.engine.seal(p1);
    let p2 = f.engine.create_pipeline("web", rev2).unwrap();
    f.engine.add_node(p2, synthetic("start")).unwrap();
    f.engine.seal(p2);
    assert_eq!(f.engine.active_pipelines("web").len(), 2);
    f.tick_all_done();
    assert_eq!(f.engine.active_pipelines("web").len(), 0);
}

#[test]
fn pipeline_engine_latest_finished_pipeline() {
    let mut f = Fixture::new();
    let rev1 = f.engine.create_revision("web");
    let rev2 = f.engine.create_revision("web");
    let p1 = f.engine.create_pipeline("web", rev1).unwrap();
    f.engine.add_node(p1, host_replicated("w1", "web")).unwrap();
    f.engine.seal(p1);
    let p2 = f.engine.create_pipeline("web", rev2).unwrap();
    f.engine.add_node(p2, host_replicated("w1", "web")).unwrap();
    f.engine.seal(p2);
    assert!(f.engine.latest_finished_pipeline("web").is_none());
    f.tick_all_done();
    assert_eq!(f.engine.latest_finished_pipeline("web").unwrap().pipeline_id, p1);
    f.tick_all_done();
    assert_eq!(f.engine.latest_finished_pipeline("web").unwrap().pipeline_id, p2);
}

#[test]
fn pipeline_engine_node_job_returns_latest_job() {
    let mut f = Fixture::new();
    let rev = f.engine.create_revision("web");
    let p = f.engine.create_pipeline("web", rev).unwrap();
    let n = f.engine.add_node(p, host_replicated("w1", "web")).unwrap();
    f.engine.seal(p);
    assert!(f.engine.node_job(n).is_none());
    f.tick_all_fail();
    let job = f.engine.node_job(n).unwrap();
    assert_eq!(job.node_id, n);
    assert_eq!(job.state, JobStatus::Failed);
    f.engine.retry(n).unwrap();
    f.tick_all_done();
    assert_eq!(f.engine.node_job(n).unwrap().state, JobStatus::Succeeded);
}

fn chain_of_three(f: &mut Fixture, rev: usize, last_options: NodeOptions) -> usize {
    let p = f.engine.create_pipeline("web", rev).unwrap();
    let m1 = f.engine.add_node(p, keyed("m1", "r1", NodeOptions::default())).unwrap();
    let m2 = f.engine.add_node(p, keyed("m2", "r2", NodeOptions::default())).unwrap();
    let m3 = f.engine.add_node(p, keyed("m3", "r3", last_options)).unwrap();
    f.engine.add_edge(m1, m2).unwrap();
    f.engine.add_edge(m2, m3).unwrap();
    f.engine.seal(p);
    p
}

#[test]
fn unwind_linear_no_prior_revision() {
    let mut f = Fixture::new();
    let rev1 = f.engine.create_revision("web");
    let p = chain_of_three(&mut f, rev1, NodeOptions { unwind_on_failure: true, is_unwind_boundary: false });
    f.assert_states(p, &[("m1", "executable"), ("m2", "pending"), ("m3", "pending")]);
    f.tick_all_done();
    f.assert_states(p, &[("m1", "finished"), ("m2", "executable"), ("m3", "pending")]);
    f.tick_all_done();
    f.assert_states(p, &[("m1", "finished"), ("m2", "finished"), ("m3", "executable")]);
    f.tick_all_fail();
    f.assert_states(p, &[("m1", "finished"), ("m2", "finished"), ("m3", "failed")]);

    let d = f.tick_all_done();
    assert_eq!(d.len(), 1);
    Fixture::assert_unwind_dispatch(&d[0], "m3", None);
    f.assert_states(p, &[("m1", "finished"), ("m2", "finished"), ("m3", "unwound")]);

    let d = f.tick_all_done();
    assert_eq!(d.len(), 1);
    Fixture::assert_unwind_dispatch(&d[0], "m2", None);
    f.assert_states(p, &[("m1", "finished"), ("m2", "unwound"), ("m3", "unwound")]);

    let d = f.tick_all_done();
    assert_eq!(d.len(), 1);
    Fixture::assert_unwind_dispatch(&d[0], "m1", None);
    f.assert_states(p, &[("m1", "unwound"), ("m2", "unwound"), ("m3", "unwound")]);

    f.tick_all_done();
    assert_eq!(f.engine.active_pipelines("web").len(), 0);
    assert!(f.engine.latest_finished_pipeline("web").is_none());
}

#[test]
fn unwind_linear_restores_to_prior_revision() {
    let mut f = Fixture::new();
    let rev1 = f.engine.create_revision("web");
    let rev2 = f.engine.create_revision("web");
    let p1 = chain_of_three(&mut f, rev1, NodeOptions::default());
    f.tick_all_done();
    f.tick_all_done();
    f.tick_all_done();
    f.assert_states(p1, &[("m1", "finished"), ("m2", "finished"), ("m3", "finished")]);

    let p2 = chain_of_three(&mut f, rev2, NodeOptions { unwind_on_failure: true, is_unwind_boundary: false });
    f.tick_all_done();
    f.assert_states(p2, &[("m1", "finished"), ("m2", "executable"), ("m3", "pending")]);
    f.tick_all_done();
    f.assert_states(p2, &[("m1", "finished"), ("m2", "finished"), ("m3", "executable")]);
    f.tick_all_fail();
    f.assert_states(p2, &[("m1", "finished"), ("m2", "finished"), ("m3", "failed")]);

    let d = f.tick_all_done();
    assert_eq!(d.len(), 1);
    Fixture::assert_unwind_dispatch(&d[0], "m3", Some(rev1));
    assert_eq!(d[0].revision_id, rev2);
    let d = f.tick_all_done();
    assert_eq!(d.len(), 1);
    Fixture::assert_unwind_dispatch(&d[0], "m2", Some(rev1));
    let d = f.tick_all_done();
    assert_eq!(d.len(), 1);
    Fixture::assert_unwind_dispatch(&d[0], "m1", Some(rev1));
    f.assert_states(p2, &[("m1", "unwound"), ("m2", "unwound"), ("m3", "unwound")]);
    f.assert_states(p1, &[("m1", "finished"), ("m2", "finished"), ("m3", "finished")]);

    f.tick_all_done();
    assert_eq!(f.engine.latest_finished_pipeline("web").unwrap().pipeline_id, p1);
    assert_eq!(f.engine.active_pipelines("web").len(), 0);
}

#[test]
fn unwind_stops_at_gate_node() {
    let mut f = Fixture::new();
    let rev1 = f.engine.create_revision("web");
    let rev2 = f.engine.create_revision("web");
    let gate = NodeOptions { is_unwind_boundary: true, unwind_on_failure: true };
    let mut build = |f: &mut Fixture, rev: usize, fail_unwinds: bool| -> usize {
        let p = f.engine.create_pipeline("web", rev).unwrap();
        let m1 = f.engine.add_node(p, keyed("m1", "r1", NodeOptions::default())).unwrap();
        let m2 = f.engine.add_node(p, keyed("m2", "r2", NodeOptions::default())).unwrap();
        let g = f.engine.add_node(p, NodeSpec { event: r#"{"type":"gate"}"#.to_string(), mutates: None, options: gate }).unwrap();
        let m3 = f.engine.add_node(p, keyed("m3", "r3", NodeOptions::default())).unwrap();
        let m4 = f.engine.add_node(
            p,
            keyed("m4", "r4", NodeOptions { unwind_on_failure: fail_unwinds, is_unwind_boundary: false }),
        ).unwrap();
        f.engine.add_edge(m1, m2).unwrap();
        f.engine.add_edge(m2, g).unwrap();
        f.engine.add_edge(g, m3).unwrap();
        f.engine.add_edge(m3, m4).unwrap();
        f.engine.seal(p);
        p
    };
    let p1 = build(&mut f, rev1, true);
    for _ in 0..5 {
        f.tick_all_done();
    }
    f.assert_states(p1, &[("m1", "finished"), ("m2", "finished"), ("gate", "finished"), ("m3", "finished"), ("m4", "finished")]);

    let p2 = build(&mut f, rev2, true);
    for _ in 0..4 {
        f.tick_all_done();
    }
    f.assert_states(p2, &[("m1", "finished"), ("m2", "finished"), ("gate", "finished"), ("m3", "finished"), ("m4", "executable")]);
    f.tick_all_fail();
    f.assert_states(p2, &[("m1", "finished"), ("m2", "finished"), ("gate", "finished"), ("m3", "finished"), ("m4", "failed")]);

    let d = f.tick_all_done();
    assert_eq!(d.len(), 1);
    Fixture::assert_unwind_dispatch(&d[0], "m4", Some(rev1));
    let d = f.tick_all_done();
    assert_eq!(d.len(), 1);
    Fixture::assert_unwind_dispatch(&d[0], "m3", Some(rev1));
    f.assert_states(p2, &[("m1", "finished"), ("m2", "finished"), ("gate", "finished"), ("m3", "unwound"), ("m4", "unwound")]);

    // Nothing before the boundary is rolled back; the pipeline is done unwinding.
    let d = f.tick_all_done();
    assert_eq!(d.len(), 0);
    assert_eq!(f.engine.active_pipelines("web").len(), 0);
}

#[test]
fn pipeline_engine_records_events_and_errors() {
    let mut f = Fixture::new();
    let rev = f.engine.create_revision("web");
    let p = f.engine.create_pipeline("web", rev).unwrap();
    let n = f.engine.add_node(p, keyed("solo", "r1", NodeOptions { unwind_on_failure: false, is_unwind_boundary: false })).unwrap();
    f.engine.seal(p);
    f.tick_all_fail();
    let events = f.engine.node_events(p);
    let states: Vec<NodeStatus> = events.iter().map(|e| e.to_state).collect();
    assert_eq!(states, vec![NodeStatus::Executable, NodeStatus::InProgress, NodeStatus::Failed]);
    assert!(events.iter().all(|e| e.node_id == n));
    let errors = f.engine.node_errors(p);
    assert_eq!(errors, vec![(n, "test failure".to_string())]);
}

#[test]
fn pipeline_engine_unknown_ids_are_refused() {
    let mut f = Fixture::new();
    assert!(f.engine.create_pipeline("web", 0).is_err());
    let rev = f.engine.create_revision("web");
    let p = f.engine.create_pipeline("web", rev).unwrap();
    assert!(f.engine.add_node(p + 1, synthetic("x")).is_err());
    assert!(f.engine.add_edge(0, 1).is_err());
    assert!(f.engine.retry(7).is_err());
    assert!(f.engine.cancel(p + 1).is_err());
    let n = f.engine.add_node(p, synthetic("x")).unwrap();
    // A node that is not failed cannot be retried.
    assert!(f.engine.retry(n).is_err());
    assert_eq!(f.engine.active_pipelines("web")[0].state, PipelineStatus::Active);
}

#[test]
fn every_node_in_progress_has_a_running_job() {
    let mut engine = PipelineEngine::new();
    let mut now = 1000;
    let check = |engine: &PipelineEngine, p: usize| {
        for node in engine.nodes(p) {
            if node.state == NodeStatus::InProgress {
                let job = engine.node_job(node.node_id).expect("an in-progress node has a job");
                assert_eq!(job.state, JobStatus::Running);
            }
        }
    };
    let rev = engine.create_revision("web");
    let p = engine.create_pipeline("web", rev).unwrap();
    let a = engine.add_node(p, host_replicated("w1", "web")).unwrap();
    let b = engine.add_node(p, host_deployed("w1", "web")).unwrap();
    let c = engine.add_node(p, synthetic("side")).unwrap();
    engine.add_edge(a, b).unwrap();
    engine.seal(p);
    check(&engine, p);
    now += 1;
    let claimed = engine.tick(now);
    assert_eq!(claimed.len(), 2);
    check(&engine, p);
    // The heartbeat of one job goes stale; the next tick releases and re-dispatches its node.
    for cl in &claimed {
        if cl.dispatch.node.node_id == c {
            cl.handle.heartbeat(&mut engine, now);
        }
    }
    now += 120;
    let again = engine.tick(now);
    check(&engine, p);
    for cl in again {
        if cl.handle.can_complete(&engine) {
            cl.handle.succeed(&mut engine);
        }
        check(&engine, p);
    }
    let _ = b;
}

#[test]
fn a_finished_pipeline_stays_done() {
    let mut engine = PipelineEngine::new();
    let mut now = 1000;
    let rev1 = engine.create_revision("web");
    let p1 = engine.create_pipeline("web", rev1).unwrap();
    let a = engine.add_node(p1, host_replicated("w1", "web")).unwrap();
    let b = engine.add_node(p1, host_deployed("w1", "web")).unwrap();
    engine.add_edge(a, b).unwrap();
    engine.seal(p1);
    for _ in 0..3 {
        now += 1;
        for c in engine.tick(now) {
            if c.handle.can_complete(&engine) {
                c.handle.succeed(&mut engine);
            }
        }
    }
    let finished = engine.latest_finished_pipeline("web").expect("the pipeline finished");
    assert_eq!(finished.pipeline_id, p1);
    let rev2 = engine.create_revision("web");
    let p2 = engine.create_pipeline("web", rev2).unwrap();
    engine.add_node(p2, host_replicated("w1", "web")).unwrap();
    engine.seal(p2);
    for _ in 0..2 {
        now += 100;
        for c in engine.tick(now) {
            if c.handle.can_complete(&engine) {
                c.handle.fail(&mut engine, "boom");
            }
        }
    }
    engine.cancel(p2).unwrap();
    now += 1;
    let _ = engine.tick(now);
    assert_eq!(engine.latest_finished_pipeline("web").unwrap().state, PipelineStatus::Finished);
    for n in engine.nodes(p1) {
        assert!(n.state == NodeStatus::Finished || n.state == NodeStatus::Cancelled);
    }
}

#[test]
fn sealing_twice_changes_nothing() {
    let mut engine = PipelineEngine::new();
    let rev = engine.create_revision("web");
    let p = engine.create_pipeline("web", rev).unwrap();
    let a = engine.add_node(p, synthetic("a")).unwrap();
    let b = engine.add_node(p, synthetic("b")).unwrap();
    engine.add_edge(a, b).unwrap();
    engine.seal(p);
    let events = engine.node_events(p).len();
    let states: Vec<NodeStatus> = engine.nodes(p).iter().map(|n| n.state).collect();
    engine.seal(p);
    assert_eq!(engine.node_events(p).len(), events);
    let again: Vec<NodeStatus> = engine.nodes(p).iter().map(|n| n.state).collect();
    assert_eq!(states, again);
}

#[test]
fn a_recent_heartbeat_keeps_the_job() {
    let mut engine = PipelineEngine::new();
    let rev = engine.create_revision("web");
    let p = engine.create_pipeline("web", rev).unwrap();
    let a = engine.add_node(p, synthetic("a")).unwrap();
    let b = engine.add_node(p, synthetic("b")).unwrap();
    engine.seal(p);
    let claimed = engine.tick(1000);
    assert_eq!(claimed.len(), 2);
    for c in &claimed {
        if c.dispatch.node.node_id == a {
            c.handle.heartbeat(&mut engine, 1050);
        }
    }
    let again = engine.tick(1100);
    let redispatched: Vec<usize> = again.iter().map(|c| c.dispatch.node.node_id).collect();
    assert_eq!(redispatched, vec![b]);
    let states: Vec<NodeStatus> = engine.nodes(p).iter().map(|n| n.state).collect();
    assert_eq!(states, vec![NodeStatus::InProgress, NodeStatus::InProgress]);
}

#[test]
fn pipeline_engine_refuses_edges_between_pipelines() {
    let mut f = Fixture::new();
    let rev1 = f.engine.create_revision("web");
    let rev2 = f.engine.create_revision("web");
    let p1 = f.engine.create_pipeline("web", rev1).unwrap();
    let p2 = f.engine.create_pipeline("web", rev2).unwrap();
    let a = f.engine.add_node(p1, synthetic("a")).unwrap();
    let b = f.engine.add_node(p2, synthetic("b")).unwrap();
    assert_eq!(f.engine.add_edge(a, b), Err(EngineError::CrossPipelineEdge));
    assert!(f.engine.edges(p1).is_empty());
    assert!(f.engine.edges(p2).is_empty());
    assert_eq!(f.engine.add_edge(a, 999), Err(EngineError::UnknownNode));
}

#[test]
fn pipeline_engine_unblocked_nodes_are_the_runnable_ones() {
    let mut f = Fixture::new();
    let rev1 = f.engine.create_revision("web");
    let rev2 = f.engine.create_revision("web");
    let p1 = f.engine.create_pipeline("web", rev1).unwrap();
    let a = f.engine.add_node(p1, host_replicated("w1", "web")).unwrap();
    let b = f.engine.add_node(p1, host_deployed("w1", "web")).unwrap();
    f.engine.add_edge(a, b).unwrap();
    let p2 = f.engine.create_pipeline("web", rev2).unwrap();
    let c = f.engine.add_node(p2, host_replicated("w1", "web")).unwrap();
    let d = f.engine.add_node(p2, synthetic("other")).unwrap();
    f.engine.seal(p1);
    f.engine.seal(p2);
    let check = |engine: &PipelineEngine| {
        let runnable: Vec<usize> = engine.runnable().iter().map(|n| n.node_id).collect();
        for id in [a, b, c, d] {
            let unblocked = engine.why_blocked(id).unwrap().is_none();
            assert_eq!(unblocked, runnable.contains(&id), "node {id}");
        }
        runnable
    };
    assert_eq!(check(&f.engine), vec![a, d]);
    f.tick_all_done();
    assert_eq!(check(&f.engine), vec![b]);
    f.tick_all_done();
    assert_eq!(check(&f.engine), vec![c]);
}

#[test]
fn pipeline_engine_nodes_layered_by_longest_path() {
    let mut f = Fixture::new();
    let rev = f.engine.create_revision("web");
    let p = f.engine.create_pipeline("web", rev).unwrap();
    let a = f.engine.add_node(p, synthetic("a")).unwrap();
    let b = f.engine.add_node(p, synthetic("b")).unwrap();
    let c = f.engine.add_node(p, synthetic("c")).unwrap();
    f.engine.add_edge(a, b).unwrap();
    f.engine.add_edge(b, c).unwrap();
    f.engine.add_edge(a, c).unwrap();
    let layers: Vec<Vec<usize>> =
        f.engine.nodes_layered(p).iter().map(|l| l.iter().map(|n| n.node_id).collect()).collect();
    assert_eq!(layers, vec![vec![a], vec![b], vec![c]]);
}

#[test]
fn pipeline_engine_stale_job_while_unwinding_leaves_node_after_unwound_predecessor() {
    let mut f = Fixture::new();
    let rev = f.engine.create_revision("web");
    let p = f.engine.create_pipeline("web", rev).unwrap();
    let a = f.engine.add_node(p, synthetic("a")).unwrap();
    let b = f.engine.add_node(p, synthetic("b")).unwrap();
    let c = f.engine
        .add_node(p, NodeSpec {
            event: r#"{"type":"c"}"#.to_string(),
            mutates: None,
            options: NodeOptions { is_unwind_boundary: false, unwind_on_failure: true },
        })
        .unwrap();
    f.engine.add_edge(a, b).unwrap();
    f.engine.add_edge(a, c).unwrap();
    f.engine.seal(p);
    for claim in f.engine.tick(1001) {
        claim.handle.succeed(&mut f.engine);
    }
    for claim in f.engine.tick(1002) {
        if claim.handle.node_id() == c {
            claim.handle.fail(&mut f.engine, "boom");
        }
    }
    for claim in f.engine.tick(1003) {
        claim.handle.succeed(&mut f.engine);
    }
    f.assert_states(p, &[("\"a\"", "finished"), ("\"b\"", "in_progress"), ("\"c\"", "unwound")]);
    for claim in f.engine.tick(1100) {
        claim.handle.succeed(&mut f.engine);
    }
    f.assert_states(p, &[("\"a\"", "unwound"), ("\"b\"", "executable"), ("\"c\"", "unwound")]);
}
