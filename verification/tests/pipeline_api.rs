use types_of_ants::arch::HostArchitecture;
use types_of_ants::errors::AntZookeeperError;
use types_of_ants::pipeline_def::{plan_pipeline, validate_put_pipeline, HostGroupSummary, PutPipelineRequest, PutPipelineStage};
use types_of_ants::pipeline_view::{
    active_revisions, arrange_stages, copy_stage, describe_stage, pipeline_phases, progress_key, require_pipeline, PipelineHost,
    PipelineHostGroup, PipelineStageType, Revision,
};

fn s(x: &str) -> String {
    x.to_string()
}

fn stage(name: &str, groups: &[&str]) -> PutPipelineStage {
    PutPipelineStage { name: s(name), host_group_ids: groups.iter().map(|g| s(g)).collect() }
}

fn group(id: &str, project: &str, hosts: usize) -> HostGroupSummary {
    HostGroupSummary { id: s(id), project: s(project), host_count: hosts }
}

fn message(r: Result<(), AntZookeeperError>) -> String {
    match r {
        Err(AntZookeeperError::ValidationError(m)) => m,
        other => panic!("expected a validation error, got {other:?}"),
    }
}

#[test]
fn put_pipeline_validation() {
    let groups = vec![group("hg-beta", "web", 1), group("hg-empty", "web", 0)];
    let ok = PutPipelineRequest { name: s("p"), stages: vec![vec![stage("beta", &["hg-beta"])]] };
    assert!(validate_put_pipeline(&ok, &groups).is_ok());

    let empty = PutPipelineRequest { name: s("p"), stages: vec![vec![stage("beta", &[])]] };
    assert_eq!(message(validate_put_pipeline(&empty, &groups)), "Stage must include at least one host group: beta");

    let many: Vec<&str> = vec!["hg-beta"; 11];
    let too_many = PutPipelineRequest { name: s("p"), stages: vec![vec![stage("big", &many)]] };
    assert_eq!(message(validate_put_pipeline(&too_many, &groups)), "Stage has too many host groups: big");

    let unknown = PutPipelineRequest { name: s("p"), stages: vec![vec![stage("beta", &["hg-beta"])], vec![stage("prod", &["nope"])]] };
    assert_eq!(message(validate_put_pipeline(&unknown, &groups)), "No such host group: nope");

    let no_hosts = PutPipelineRequest { name: s("p"), stages: vec![vec![stage("beta", &["hg-empty", "nope"])]] };
    assert_eq!(
        message(validate_put_pipeline(&no_hosts, &groups)),
        "Host group hg-empty cannot be added to a pipeline because it has no hosts."
    );
}

#[test]
fn put_pipeline_layout() {
    let groups = vec![group("hg-beta", "web", 1), group("hg-prod", "web", 2), group("hg-gw", "gateway", 1)];
    let req = PutPipelineRequest {
        name: s("p"),
        stages: vec![vec![stage("beta", &["hg-beta"])], vec![stage("prod", &["hg-prod"]), stage("gw", &["hg-gw"])]],
    };
    let plan = plan_pipeline(&req, &groups);
    let names: Vec<&str> = plan.iter().map(|p| p.name.as_str()).collect();
    assert_eq!(names, vec!["build:web", "build:gateway", "beta", "prod", "gw"]);
    assert_eq!(plan[0].build_project.as_deref(), Some("web"));
    assert!(plan[0].after.is_empty());
    assert_eq!(plan[2].after, vec![0, 1]);
    assert_eq!(plan[3].after, vec![2]);
    assert_eq!(plan[4].after, vec![2]);
    assert_eq!(plan[4].host_group_ids, vec![s("hg-gw")]);
    assert_eq!(plan[3].build_project, None);
}

#[test]
fn pipeline_phases_follow_stage_order() {
    let edges = vec![(s("a"), s("b")), (s("a"), s("c")), (s("b"), s("c")), (s("c"), s("d"))];
    let phases = pipeline_phases(&vec![s("a")], &edges);
    assert_eq!(phases, vec![vec![s("a")], vec![s("b"), s("c")], vec![s("c"), s("d")], vec![s("d")]]);
    assert_eq!(pipeline_phases(&vec![s("x")], &vec![]), vec![vec![s("x")]]);
}

#[test]
fn shown_revisions_are_unfinished_plus_latest_finished() {
    let rev = |id: &str, seq: i32| Revision { id: s(id), seq, version: s("v") };
    let started = vec![rev("r1", 1), rev("r2", 2), rev("r3", 3)];
    let not_ended = vec![s("r2"), s("r3")];
    let finished = vec![rev("r0", 0), rev("r1", 1)];
    assert_eq!(active_revisions(&started, &not_ended, &finished), vec![s("r2"), s("r3"), s("r1")]);
    assert_eq!(active_revisions(&started, &not_ended, &vec![]), vec![s("r2"), s("r3")]);
}

#[test]
fn stages_are_described_by_type() {
    let build = describe_stage(s("1"), s("build:web"), "build", Some(s("web")), vec![]).ok().unwrap();
    match build.stage_type {
        PipelineStageType::Build(b) => assert_eq!(b.project, "web"),
        _ => panic!("expected a build stage"),
    }
    let hg = PipelineHostGroup {
        host_group_id: s("hg"),
        name: s("beta"),
        environment: s("beta"),
        hosts: vec![PipelineHost { host_id: s("w1"), name: s("w1"), arch: HostArchitecture::X86_64 }],
    };
    let deploy = describe_stage(s("2"), s("beta"), "deploy", None, vec![hg]).ok().unwrap();
    assert_eq!(deploy.stage_name, "beta");
    let d = deploy.deploy_stage();
    assert_eq!(d.host_groups[0].hosts[0].name, "w1");
    match describe_stage(s("3"), s("x"), "other", None, vec![]) {
        Err(AntZookeeperError::InternalServerError { id }) => assert_eq!(id, "Unknown stage format: other"),
        _ => panic!("expected an internal error"),
    }
}

#[test]
fn stages_are_laid_out_by_phase() {
    let hg = PipelineHostGroup {
        host_group_id: s("hg1"),
        name: s("beta"),
        environment: s("beta"),
        hosts: vec![PipelineHost { host_id: s("h1"), name: s("h1"), arch: HostArchitecture::Aarch64 }],
    };
    let stages = vec![
        describe_stage(s("1"), s("build:web"), "build", Some(s("web")), vec![]).ok().unwrap(),
        describe_stage(s("2"), s("beta"), "deploy", None, vec![hg]).ok().unwrap(),
        describe_stage(s("1"), s("duplicate"), "build", Some(s("other")), vec![]).ok().unwrap(),
    ];
    let phases = vec![vec![s("1")], vec![s("2"), s("1")]];
    let laid = arrange_stages(&phases, &stages);
    assert_eq!(laid.len(), 2);
    assert_eq!(laid[0].len(), 1);
    assert_eq!(laid[0][0].stage_name, "build:web");
    assert_eq!(laid[1][0].stage_id, "2");
    match &laid[1][0].stage_type {
        PipelineStageType::Deploy(d) => {
            assert_eq!(d.host_groups.len(), 1);
            assert_eq!(d.host_groups[0].hosts[0].host_id, "h1");
        },
        _ => panic!("expected a deploy stage"),
    }
    assert_eq!(laid[1][1].stage_name, "build:web");
    let copy = copy_stage(&stages[1]);
    assert_eq!(copy.stage_name, "beta");
}

#[test]
fn host_progress_is_keyed_by_group_and_host() {
    assert_eq!(progress_key("hg-1", "ant-host"), "hg-1#ant-host");
}

#[test]
fn unknown_pipeline_name_is_refused() {
    match require_pipeline(None, "web-pipeline") {
        Err(e) => {
            assert_eq!(e.status_code(), 400);
            assert_eq!(message(Err(e)), "No such pipeline: web-pipeline");
        }
        Ok(id) => panic!("expected an error, got {id}"),
    }
    assert_eq!(require_pipeline(Some(s("pl-1")), "web-pipeline").unwrap(), "pl-1");
}
