use types_of_ants::arch::HostArchitecture;
use types_of_ants::events::{
    deployment_event_eq, event_eq, is_doable, transition, AfterSearch, DeploymentEvent, Event, LookupResult, PipelineError,
    TransitionLookup,
};

fn s(x: &str) -> String {
    x.to_string()
}

fn next(e: Event, found: LookupResult) -> Vec<String> {
    let t = transition(&DeploymentEvent(s("rev1"), e), &found).ok().unwrap();
    t.next.iter().map(|d| format!("{}:{:?}", d.0, d.1)).collect()
}

#[test]
fn pipeline_start_starts_initial_stages() {
    let got = next(Event::PipelineStarted { pipeline_id: s("p") }, LookupResult::StageIds(vec![s("s1"), s("s2")]));
    assert_eq!(got, vec![
        "rev1:StageStarted { stage_id: \"s1\" }".to_string(),
        "rev1:StageStarted { stage_id: \"s2\" }".to_string(),
    ]);
}

#[test]
fn build_stage_waits_for_each_architecture() {
    let got = next(
        Event::StageStarted { stage_id: s("b") },
        LookupResult::Stage {
            stage_type: s("build"),
            architectures: vec![HostArchitecture::X86_64, HostArchitecture::ArmV7],
            host_group_ids: vec![],
        },
    );
    assert_eq!(got.len(), 2);
    assert!(got[1].contains("ArmV7"));
}

#[test]
fn deploy_stage_starts_its_host_groups() {
    let got = next(
        Event::StageStarted { stage_id: s("d") },
        LookupResult::Stage { stage_type: s("deploy"), architectures: vec![], host_group_ids: vec![s("hg1")] },
    );
    assert_eq!(got, vec!["rev1:HostGroupStarted { host_group_id: \"hg1\" }".to_string()]);
}

#[test]
fn unknown_stage_type_is_an_error() {
    let r = transition(
        &DeploymentEvent(s("rev1"), Event::StageStarted { stage_id: s("x") }),
        &LookupResult::Stage { stage_type: s("weird"), architectures: vec![], host_group_ids: vec![] },
    );
    match r {
        Err(PipelineError::DatabaseError(m)) => assert_eq!(m, "Unknown stage type: weird"),
        _ => panic!("expected an error"),
    }
    let missing = transition(&DeploymentEvent(s("rev1"), Event::StageStarted { stage_id: s("x") }), &LookupResult::Missing);
    assert!(missing.is_err());
}

#[test]
fn host_steps_follow_each_other() {
    let h = |e: Event| next(e, LookupResult::Nothing);
    assert_eq!(h(Event::HostStarted { host_group_id: s("g"), host: s("w1") }), vec![
        "rev1:HostArtifactReplicated { host_group_id: \"g\", host: \"w1\" }".to_string()
    ]);
    assert_eq!(h(Event::HostArtifactReplicated { host_group_id: s("g"), host: s("w1") }), vec![
        "rev1:HostArtifactDeployed { host_group_id: \"g\", host: \"w1\" }".to_string()
    ]);
    assert_eq!(h(Event::HostArtifactDeployed { host_group_id: s("g"), host: s("w1") }), vec![
        "rev1:HostFinished { host_group_id: \"g\", host: \"w1\" }".to_string()
    ]);
    assert_eq!(h(Event::HostFinished { host_group_id: s("g"), host: s("w1") }), vec![
        "rev1:HostGroupFinished { host_group_id: \"g\" }".to_string()
    ]);
    assert_eq!(h(Event::ArtifactRegistered { stage_id: s("b"), arch: HostArchitecture::Aarch64 }), vec![
        "rev1:StageFinished { stage_id: \"b\" }".to_string()
    ]);
    assert!(h(Event::PipelineFinished { pipeline_id: s("p") }).is_empty());
}

#[test]
fn stage_finish_starts_next_stages_or_finishes_pipeline() {
    assert_eq!(
        next(Event::StageFinished { stage_id: s("a") }, LookupResult::Successors { pipeline_id: s("p"), next_stage_ids: vec![] }),
        vec!["rev1:PipelineFinished { pipeline_id: \"p\" }".to_string()]
    );
    assert_eq!(
        next(Event::StageFinished { stage_id: s("a") }, LookupResult::Successors { pipeline_id: s("p"), next_stage_ids: vec![s("b")] }),
        vec!["rev1:StageStarted { stage_id: \"b\" }".to_string()]
    );
    assert_eq!(
        next(Event::HostGroupFinished { host_group_id: s("g") }, LookupResult::StageId(s("st"))),
        vec!["rev1:StageFinished { stage_id: \"st\" }".to_string()]
    );
    assert_eq!(
        next(Event::HostGroupStarted { host_group_id: s("g") }, LookupResult::Hosts(vec![s("w1"), s("w2")])).len(),
        2
    );
}

#[test]
fn lookups_name_what_each_event_needs() {
    let l = TransitionLookup::for_event(&DeploymentEvent(s("r"), Event::StageFinished { stage_id: s("a") }));
    assert!(matches!(l, TransitionLookup::StageSuccessors { ref stage_id } if stage_id == "a"));
    let l = TransitionLookup::for_event(&DeploymentEvent(s("r"), Event::HostStarted { host_group_id: s("g"), host: s("h") }));
    assert!(matches!(l, TransitionLookup::Nothing));
    let e = DeploymentEvent(s("r1"), Event::HostFinished { host_group_id: s("g"), host: s("h") });
    let other = e.for_other_revision(s("r2"));
    assert_eq!(other.0, "r2");
    assert_eq!(format!("{:?}", other.1), format!("{:?}", e.1));
}

fn stage(rev: &str, id: &str) -> DeploymentEvent {
    DeploymentEvent(s(rev), Event::StageStarted { stage_id: s(id) })
}

#[test]
fn after_search_expands_breadth_first_and_keeps_each_event_once() {
    let mut search = AfterSearch::start(&stage("r", "a"));
    let first = search.next_to_expand().unwrap();
    assert!(deployment_event_eq(&first, &stage("r", "a")));
    // a -> b, c, a (a is the start and is not found again)
    search.absorb(vec![stage("r", "b"), stage("r", "c"), stage("r", "a")]);
    let second = search.next_to_expand().unwrap();
    assert!(deployment_event_eq(&second, &stage("r", "b")));
    // b -> c, d (c was found already)
    search.absorb(vec![stage("r", "c"), stage("r", "d"), stage("r", "d")]);
    let third = search.next_to_expand().unwrap();
    assert!(deployment_event_eq(&third, &stage("r", "c")));
    search.absorb(vec![]);
    let fourth = search.next_to_expand().unwrap();
    assert!(deployment_event_eq(&fourth, &stage("r", "d")));
    search.absorb(vec![stage("other", "d")]);
    let fifth = search.next_to_expand().unwrap();
    assert!(deployment_event_eq(&fifth, &stage("other", "d")));
    assert!(search.next_to_expand().is_none());
    let found: Vec<String> = search.finish().iter().map(|e| format!("{}:{:?}", e.0, e.1)).collect();
    assert_eq!(found, vec![
        "r:StageStarted { stage_id: \"b\" }".to_string(),
        "r:StageStarted { stage_id: \"c\" }".to_string(),
        "r:StageStarted { stage_id: \"d\" }".to_string(),
        "other:StageStarted { stage_id: \"d\" }".to_string(),
    ]);
}

#[test]
fn event_equality_compares_every_field() {
    assert!(event_eq(&Event::HostStarted { host_group_id: s("g"), host: s("h") }, &Event::HostStarted {
        host_group_id: s("g"),
        host: s("h"),
    }));
    assert!(!event_eq(&Event::HostStarted { host_group_id: s("g"), host: s("h") }, &Event::HostFinished {
        host_group_id: s("g"),
        host: s("h"),
    }));
    assert!(!event_eq(&Event::HostStarted { host_group_id: s("g"), host: s("h") }, &Event::HostStarted {
        host_group_id: s("g"),
        host: s("i"),
    }));
    assert!(!deployment_event_eq(&stage("r1", "a"), &stage("r2", "a")));
}

#[test]
fn doable_only_without_completed_successors_or_frontier_ancestors() {
    let e = stage("r", "x");
    assert!(is_doable(&vec![false, false], &vec![vec![stage("r", "y")]], &e));
    assert!(!is_doable(&vec![false, true], &vec![], &e));
    assert!(!is_doable(&vec![], &vec![vec![stage("r", "y")], vec![stage("r", "x")]], &e));
    assert!(is_doable(&vec![], &vec![], &e));
}

#[test]
fn missing_rows_are_reported_like_the_event() {
    let err = |e: Event| match transition(&DeploymentEvent(s("r1"), e), &LookupResult::Missing) {
        Err(PipelineError::DatabaseError(m)) => m,
        _ => panic!("expected an error"),
    };
    assert_eq!(err(Event::StageStarted { stage_id: s("s1") }), "stage should exist if event target");
    assert_eq!(
        err(Event::HostGroupStarted { host_group_id: s("hg1") }),
        format!("Deployment{{revision: r1, event: {:?}}}", Event::HostGroupStarted { host_group_id: s("hg1") })
    );
    assert_eq!(
        err(Event::HostGroupFinished { host_group_id: s("a\"b\\c\td") }),
        format!("Deployment{{revision: r1, event: {:?}}}", Event::HostGroupFinished { host_group_id: s("a\"b\\c\td") })
    );
    assert_eq!(
        err(Event::StageFinished { stage_id: s("s9") }),
        "Deployment{revision: r1, event: StageFinished { stage_id: \"s9\" }}"
    );
}
