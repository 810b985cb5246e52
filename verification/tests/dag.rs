use types_of_ants::dag::{build_dag, wave_layout, ProjectConfig};
use types_of_ants::deployment_event::DeploymentEvent;
use types_of_ants::pipeline_engine::engine::{Edge, Node, PipelineEngine};
use types_of_ants::project_view::status_str;

fn strings(v: &[&str]) -> Vec<String> {
    v.iter().map(|s| s.to_string()).collect()
}

fn config(project: &str, db: bool, routes: bool, alerts: bool, logs: bool, beta: &[&str], prod: &[&str]) -> ProjectConfig {
    ProjectConfig {
        project_id: project.to_string(),
        has_database: db,
        has_routes: routes,
        has_alerts: alerts,
        has_log_rules: logs,
        beta_hosts: strings(beta),
        prod_hosts: strings(prod),
    }
}

fn find<'a>(nodes: &'a [Node], parts: &[&str]) -> &'a Node {
    nodes.iter().find(|n| parts.iter().all(|p| n.event.contains(p))).unwrap()
}

fn has_edge(edges: &[Edge], from: &Node, to: &Node) -> bool {
    edges.iter().any(|e| e.from_node_id == from.node_id && e.to_node_id == to.node_id)
}

#[test]
fn dag_simple_binary_beta_and_prod() {
    let mut engine = PipelineEngine::new();
    let rev = engine.create_revision("ant-on-the-web");
    let c = config("ant-on-the-web", false, false, false, false, &["w2"], &["w1", "w3", "w4"]);
    let p = build_dag(&mut engine, rev, &c).unwrap();
    let nodes = engine.nodes(p);
    let edges = engine.edges(p);
    // Beta: 1 host x 3 nodes; gate; prod: 3 hosts in waves [1, 2] x 3 nodes.
    assert_eq!(nodes.len(), 13);
    let host_steps = |on_w2: bool| {
        nodes
            .iter()
            .filter(|n| {
                (n.event.contains("artifact_replication") || n.event.contains("host_deployment") || n.event.contains("deployment_verification"))
                    && n.event.contains("\"w2\"") == on_w2
            })
            .count()
    };
    assert_eq!(host_steps(true), 3);
    assert_eq!(host_steps(false), 9);
    assert!(edges.len() > 0);
    let beta_verify = find(&nodes, &["deployment_verification", "w2"]);
    let gate = find(&nodes, &["environment_gate"]);
    let prod_first = find(&nodes, &["artifact_replication", "w1"]);
    assert!(has_edge(&edges, beta_verify, gate));
    assert!(has_edge(&edges, gate, prod_first));
}

#[test]
fn dag_with_database_migration() {
    let mut engine = PipelineEngine::new();
    let rev = engine.create_revision("ant-data-farm");
    let c = config("ant-data-farm", true, false, false, false, &["w2"], &["w1"]);
    let p = build_dag(&mut engine, rev, &c).unwrap();
    let nodes = engine.nodes(p);
    let edges = engine.edges(p);
    assert_eq!(nodes.iter().filter(|n| n.event.contains("database_migration")).count(), 2);
    let beta_migration = find(&nodes, &["database_migration", "beta"]);
    let beta_replicate = find(&nodes, &["artifact_replication", "w2"]);
    assert!(has_edge(&edges, beta_migration, beta_replicate));
}

#[test]
fn dag_with_all_config_and_database() {
    let mut engine = PipelineEngine::new();
    let rev = engine.create_revision("ant-on-the-web");
    let c = config("ant-on-the-web", true, true, true, true, &["w2"], &["w1"]);
    let p = build_dag(&mut engine, rev, &c).unwrap();
    let nodes = engine.nodes(p);
    let edges = engine.edges(p);
    assert_eq!(nodes.len(), 15);
    let beta_route = find(&nodes, &["route_update", "beta"]);
    let alerts = find(&nodes, &["alert_configuration"]);
    assert!(has_edge(&edges, beta_route, alerts));
}

#[test]
fn dag_prod_only_no_beta() {
    let mut engine = PipelineEngine::new();
    let rev = engine.create_revision("ant-gateway");
    let c = config("ant-gateway", false, true, false, false, &[], &["w1"]);
    let p = build_dag(&mut engine, rev, &c).unwrap();
    let nodes = engine.nodes(p);
    assert_eq!(nodes.len(), 4);
    let route = find(&nodes, &["route_update"]);
    assert_eq!(status_str(route.state), "executable");
}

#[test]
fn dag_for_unknown_revision_is_refused() {
    let mut engine = PipelineEngine::new();
    let c = config("ant-gateway", false, true, false, false, &[], &["w1"]);
    assert!(build_dag(&mut engine, 3, &c).is_err());
    assert!(engine.active_pipelines("ant-gateway").is_empty());
}

#[test]
fn dag_host_agent_deploys_all_hosts_at_once() {
    let mut engine = PipelineEngine::new();
    let rev = engine.create_revision("ant-host-agent");
    let c = config("ant-host-agent", false, false, false, false, &[], &["w1", "w2", "w3", "w4"]);
    let p = build_dag(&mut engine, rev, &c).unwrap();
    let nodes = engine.nodes(p);
    assert_eq!(nodes.len(), 12);
    // All four replication steps are roots: no waves.
    let roots = nodes.iter().filter(|n| status_str(n.state) == "executable").count();
    assert_eq!(roots, 4);
}

#[test]
fn dag_node_records_are_the_json_of_their_events() {
    let mut engine = PipelineEngine::new();
    let rev = engine.create_revision("svc");
    let c = config("svc", false, true, false, false, &[], &["h1"]);
    let p = build_dag(&mut engine, rev, &c).unwrap();
    let nodes = engine.nodes(p);
    assert_eq!(nodes[0].event, r#"{"type":"route_update","environment":"prod"}"#);
    assert_eq!(nodes[0].resource_key.as_deref(), Some("gateway_routing:prod"));
    assert_eq!(nodes[1].event, r#"{"type":"artifact_replication","host_id":"h1","service_id":"svc","environment":"prod"}"#);
    assert_eq!(nodes[1].resource_key.as_deref(), Some("host_service:h1:svc"));
    let parsed: DeploymentEvent = match nodes[2].event.as_str() {
        r#"{"type":"host_deployment","host_id":"h1","service_id":"svc","environment":"prod"}"# => DeploymentEvent::HostDeployment {
            host_id: "h1".to_string(),
            service_id: "svc".to_string(),
            environment: "prod".to_string(),
        },
        other => panic!("unexpected record {other}"),
    };
    assert_eq!(parsed.to_json(), nodes[2].event);
}

#[test]
fn wave_layout_sizes_are_one_two_then_four() {
    let ids: Vec<String> = (1..=12).map(|i| format!("h{i}")).collect();
    let waves = wave_layout(&ids);
    let sizes: Vec<usize> = waves.iter().map(|w| w.len()).collect();
    assert_eq!(sizes, vec![1, 2, 4, 4, 1]);
    assert_eq!(waves.concat(), ids);
    assert!(wave_layout(&vec![]).is_empty());
    assert_eq!(wave_layout(&strings(&["a", "b", "c"])), vec![strings(&["a"]), strings(&["b", "c"])]);
}

#[test]
fn dag_edges_only_go_forward() {
    let mut engine = PipelineEngine::new();
    let rev = engine.create_revision("ant-data-farm");
    let c = config("ant-data-farm", true, true, true, true, &["b1", "b2"], &["p1", "p2", "p3", "p4"]);
    let p = build_dag(&mut engine, rev, &c).unwrap();
    let edges = engine.edges(p);
    assert!(edges.len() > 0);
    for e in &edges {
        assert!(e.from_node_id < e.to_node_id, "edge {} -> {}", e.from_node_id, e.to_node_id);
    }
    let rev2 = engine.create_revision("ant-data-farm");
    let first_new = engine.nodes(p).len();
    let p2 = build_dag(&mut engine, rev2, &c).unwrap();
    for e in &engine.edges(p2) {
        assert!(e.from_node_id < e.to_node_id);
        assert!(e.to_node_id >= first_new);
    }
}

#[test]
fn waves_hand_out_every_host_once_in_order() {
    for n in 0..20 {
        let hosts: Vec<String> = (0..n).map(|i| format!("h{i}")).collect();
        let waves = wave_layout(&hosts);
        assert!(waves.iter().all(|w| !w.is_empty()));
        let joined: Vec<String> = waves.into_iter().flatten().collect();
        assert_eq!(joined, hosts);
    }
}
