use types_of_ants::pipeline_engine::engine::PipelineEngine;
use types_of_ants::pipeline_engine::model::PipelineStatus;
use types_of_ants::pipeline_engine::node::{NodeOptions, NodeSpec};
use types_of_ants::project_view::{pipeline_status_str, pipeline_to_view, project_deployments, show_event, NodeState, ProjectDeploymentRevision};

fn spec(event: &str, mutates: Option<&str>) -> NodeSpec {
    NodeSpec {
        event: event.to_string(),
        mutates: mutates.map(|m| m.to_string()),
        options: NodeOptions { is_unwind_boundary: false, unwind_on_failure: false },
    }
}

#[test]
fn pipeline_view_shows_layers_states_and_history() {
    let mut engine = PipelineEngine::new();
    let rev = engine.create_revision("web");
    let p = engine.create_pipeline("web", rev).unwrap();
    let a = engine.add_node(p, spec("{\"type\":\"a\"}", Some("host_service:w1:web"))).unwrap();
    let b = engine.add_node(p, spec("{\"type\":\"b\"}", None)).unwrap();
    engine.add_edge(a, b).unwrap();
    engine.seal(p);
    let claimed = engine.tick(10);
    assert_eq!(claimed.len(), 1);
    for c in claimed {
        c.handle.fail(&mut engine, "boom");
    }
    let pipeline = engine.active_pipelines("web").pop().unwrap();
    let view = pipeline_to_view(&engine, &pipeline);
    assert_eq!(view.pipeline_id, p);
    assert_eq!(view.layers.len(), 2);
    assert_eq!(view.layers[0].len(), 1);
    let first = &view.layers[0][0];
    assert_eq!(first.node_id, a);
    assert_eq!(first.resource_key.as_deref(), Some("host_service:w1:web"));
    match &first.state {
        NodeState::Failed { error } => assert_eq!(error.as_deref(), Some("boom")),
        other => panic!("unexpected {other:?}"),
    }
    let history: Vec<(&str, &str)> = first.events.iter().map(|e| (e.to_state.as_str(), e.reason.as_str())).collect();
    assert_eq!(history, vec![("executable", "seal"), ("in_progress", "claim"), ("failed", "fail job=0")]);
    assert!(matches!(view.layers[1][0].state, NodeState::Pending));
    assert!(view.layers[1][0].events.is_empty());
    assert_eq!(view.timeline.len(), 3);
    assert!(view.timeline.iter().all(|t| t.node_id == a));
}

#[test]
fn project_page_lists_active_and_latest_finished_pipelines() {
    let mut engine = PipelineEngine::new();
    let mut now = 0;
    let mut pipelines = vec![];
    for _ in 0..2 {
        let rev = engine.create_revision("web");
        let p = engine.create_pipeline("web", rev).unwrap();
        engine.add_node(p, spec("{\"type\":\"only\"}", None)).unwrap();
        engine.seal(p);
        pipelines.push(p);
    }
    now += 1;
    for c in engine.tick(now) {
        if c.handle.can_complete(&engine) {
            c.handle.succeed(&mut engine);
        }
    }
    let rev = engine.create_revision("web");
    let open = engine.create_pipeline("web", rev).unwrap();
    engine.add_node(open, spec("{\"type\":\"only\"}", None)).unwrap();
    let build = ProjectDeploymentRevision {
        revision_id: "r9".to_string(),
        created_at: 5,
        artifacts: vec![],
        missing_architectures: vec!["x86_64".to_string()],
    };
    let page = project_deployments(&engine, "web", Some(build));
    assert_eq!(page.build.as_ref().unwrap().revision_id, "r9");
    assert_eq!(page.active_pipelines.len(), 1);
    assert_eq!(page.active_pipelines[0].pipeline_id, open);
    let latest = page.latest_finished_pipeline.unwrap();
    assert_eq!(latest.pipeline_id, pipelines[1]);
    assert_eq!(latest.state, PipelineStatus::Finished);
    let none = project_deployments(&engine, "gateway", None);
    assert!(none.build.is_none() && none.active_pipelines.is_empty() && none.latest_finished_pipeline.is_none());
}

#[test]
fn node_events_that_are_not_json_show_as_null() {
    let mut engine = PipelineEngine::new();
    let rev = engine.create_revision("web");
    let p = engine.create_pipeline("web", rev).unwrap();
    engine.add_node(p, spec("{\"type\":\"a\"}", None)).unwrap();
    engine.add_node(p, spec("not json at all", None)).unwrap();
    engine.seal(p);
    let pipeline = engine.active_pipelines("web").pop().unwrap();
    let view = pipeline_to_view(&engine, &pipeline);
    let events: Vec<Option<&str>> = view.layers[0].iter().map(|n| n.event.as_deref()).collect();
    assert_eq!(events, vec![Some("{\"type\":\"a\"}"), None]);
    assert_eq!(show_event(&"[1, 2]".to_string(), true).as_deref(), Some("[1, 2]"));
    assert_eq!(show_event(&"[1, 2".to_string(), false), None);
}

#[test]
fn pipeline_states_have_their_stored_names() {
    assert_eq!(pipeline_status_str(PipelineStatus::Active), "active");
    assert_eq!(pipeline_status_str(PipelineStatus::Unwinding), "unwinding");
    assert_eq!(pipeline_status_str(PipelineStatus::Finished), "finished");
    assert_eq!(pipeline_status_str(PipelineStatus::Unwound), "unwound");
    assert_eq!(pipeline_status_str(PipelineStatus::Cancelled), "cancelled");
}
