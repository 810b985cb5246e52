use types_of_ants::deployment_event::{dispatch_action, DeploymentEvent, DispatchAction};
use types_of_ants::pipeline_engine::engine::DispatchDirection;

fn s(x: &str) -> String {
    x.to_string()
}

fn host_step(kind: &str) -> DeploymentEvent {
    match kind {
        "replicate" => DeploymentEvent::ArtifactReplication { host_id: s("h1"), service_id: s("web"), environment: s("beta") },
        "deploy" => DeploymentEvent::HostDeployment { host_id: s("h1"), service_id: s("web"), environment: s("beta") },
        _ => DeploymentEvent::DeploymentVerification { host_id: s("h1"), service_id: s("web"), environment: s("beta") },
    }
}

#[test]
fn replication_runs_forward_only() {
    match dispatch_action(&host_step("replicate"), DispatchDirection::Deploy, 7) {
        DispatchAction::Replicate { revision_id, service_id, environment, host_id } => {
            assert_eq!((revision_id, service_id.as_str(), environment.as_str(), host_id.as_str()), (7, "web", "beta", "h1"));
        },
        _ => panic!("expected a replication"),
    }
    let back = dispatch_action(&host_step("replicate"), DispatchDirection::Unwind { restore_revision_id: Some(3) }, 7);
    assert!(matches!(back, DispatchAction::Nothing));
}

#[test]
fn deployment_goes_forward_or_restores() {
    match dispatch_action(&host_step("deploy"), DispatchDirection::Deploy, 7) {
        DispatchAction::Deploy { revision_id, host_id, .. } => assert_eq!((revision_id, host_id.as_str()), (7, "h1")),
        _ => panic!("expected a deployment"),
    }
    match dispatch_action(&host_step("deploy"), DispatchDirection::Unwind { restore_revision_id: Some(3) }, 7) {
        DispatchAction::Deploy { revision_id, .. } => assert_eq!(revision_id, 3),
        _ => panic!("expected a restore"),
    }
    let nothing = dispatch_action(&host_step("deploy"), DispatchDirection::Unwind { restore_revision_id: None }, 7);
    assert!(matches!(nothing, DispatchAction::Nothing));
}

#[test]
fn other_steps_pass_through() {
    let steps = vec![
        host_step("verify"),
        DeploymentEvent::RouteUpdate { environment: s("prod") },
        DeploymentEvent::AlertConfiguration { service_id: s("web"), environment: s("prod") },
        DeploymentEvent::LogRuleConfiguration { host_id: s("h1"), service_id: s("web") },
        DeploymentEvent::DatabaseMigration { service_id: s("web"), environment: s("prod") },
        DeploymentEvent::EnvironmentGate { from: s("beta"), to: s("prod") },
    ];
    for e in &steps {
        assert!(matches!(dispatch_action(e, DispatchDirection::Deploy, 1), DispatchAction::Nothing));
    }
}
