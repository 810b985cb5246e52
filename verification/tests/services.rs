use types_of_ants::service_api::{artifact_write, check_revision_open, require_project, ArtifactWrite};
use types_of_ants::arch::HostArchitecture;
use types_of_ants::artifacts::{artifact_path, make_failure_reply, make_output, ArtifactBuildError, MakeFailure, MakeInput};
use types_of_ants::deployment_api::{
    artifact_registered, job_success, job_update, missing_retry_target, retry_job_step, retry_node, stage_finished,
    DeploymentJob, JobCompletion, JobRun, JobUpdate, RetryStep,
};
use types_of_ants::errors::AntZookeeperError;
use types_of_ants::pipeline_engine::engine::PipelineEngine;
use types_of_ants::pipeline_engine::node::{NodeOptions, NodeSpec};
use types_of_ants::printing::{check_secret_id, secret_lines, wrapped_lines, AntPrintingPressError, SecretEncoding};
use types_of_ants::project_view::{node_state, reason_string, status_str, NodeState};
use types_of_ants::pipeline_engine::model::{NodeStatus, TransitionReason};
use types_of_ants::service_api::{
    check_add_host, check_archive, find_identical_record, register_service_reply, reusable_revision, should_activate, version_registered, AntZookeeperClientConfig,
    ArchiveEntry, CreateHostGroupRequest, ManifestCheck, ProjectEnvironmentVariable, ProvisionCertificateRequest,
    PutProjectEnvironmentRequest, TxtRecord,
};
use types_of_ants::tweets::{choose_random_ant, scheduled_by_comment, scheduled_tweet_due, scheduled_tweet_text};

fn s(x: &str) -> String {
    x.to_string()
}

fn validation(e: AntZookeeperError) -> String {
    match e {
        AntZookeeperError::ValidationError(m) => m,
        other => panic!("expected a validation error, got {other:?}"),
    }
}

#[test]
fn validation_msg_and_status() {
    let e = AntZookeeperError::validation_msg("bad request");
    assert_eq!(e.status_code(), 400);
    assert_eq!(validation(e), "bad request");
    assert_eq!(AntZookeeperError::internal("ANT-ERR-001").status_code(), 500);
    assert_eq!(AntZookeeperError::ResourceNotFound(s("x")).status_code(), 400);
}

#[test]
fn host_group_creation_checks() {
    let req = CreateHostGroupRequest { name: s("g"), project: s("web"), environment: s("beta") };
    assert!(req.check(false, true).is_ok());
    assert_eq!(validation(req.check(true, true).err().unwrap()), "Host group with that name already exists.");
    assert_eq!(validation(req.check(false, false).err().unwrap()), "No such project: web");
    let staging = CreateHostGroupRequest { name: s("g"), project: s("web"), environment: s("staging") };
    assert_eq!(validation(staging.check(false, true).err().unwrap()), "Environment must be 'dev', 'beta', or 'prod'.");
}

#[test]
fn service_registration_and_environment() {
    assert_eq!(register_service_reply(true, "web"), (400, s("Project web already exists")));
    assert_eq!(register_service_reply(false, "web"), (200, s("Project registered.")));
    let req = PutProjectEnvironmentRequest {
        project: s("web"),
        environment: s("prod"),
        variables: vec![
            ProjectEnvironmentVariable { key: s("A"), value: s("1") },
            ProjectEnvironmentVariable { key: s("B"), value: s("two words") },
        ],
    };
    assert_eq!(req.env_file_text(), "A=\"1\"\nB=\"two words\"\n");
    assert_eq!(reusable_revision(Some((s("r1"), false))), Some(s("r1")));
    assert_eq!(reusable_revision(Some((s("r1"), true))), None);
    assert_eq!(reusable_revision(None), None);
}

#[test]
fn certificates_and_dns() {
    assert_eq!(ProvisionCertificateRequest { domains: vec![] }.refusal(), Some((400, s("No domains requested."))));
    assert_eq!(ProvisionCertificateRequest { domains: vec![s("a.org")] }.refusal(), None);
    let records = vec![TxtRecord { id: s("1"), content: s("x") }, TxtRecord { id: s("2"), content: s("y") }];
    assert_eq!(find_identical_record(&records, "y"), Some(1));
    assert_eq!(find_identical_record(&records, "z"), None);
    let c = AntZookeeperClientConfig { tls: true, endpoint: s("zoo:8080") };
    assert_eq!(c.url("/pipeline/pipeline"), "https://zoo:8080/pipeline/pipeline");
    let plain = AntZookeeperClientConfig { tls: false, endpoint: s("zoo") };
    assert_eq!(plain.url("/x"), "http://zoo/x");
}

#[test]
fn artifact_archives_are_checked_in_order() {
    let entry = |name: &str| ArchiveEntry { file_name: s(name), manifest: None };
    let manifest = |parsed: bool, missing: Option<(&str, &str)>| ArchiveEntry {
        file_name: s("anthill.json"),
        manifest: Some(ManifestCheck { parsed, missing_secret: missing.map(|(a, b)| (s(a), s(b))) }),
    };
    assert!(check_archive(&vec![entry("bin"), manifest(true, None)]).is_ok());
    assert_eq!(
        validation(check_archive(&vec![entry("bin")]).err().unwrap()),
        "Project configuration file 'anthill.json' must be included in deployment tarball."
    );
    assert_eq!(
        validation(check_archive(&vec![manifest(true, None), entry(".env")]).err().unwrap()),
        "Deployment tarball cannot contain any files named '.env'."
    );
    assert_eq!(
        validation(check_archive(&vec![manifest(false, None)]).err().unwrap()),
        "Project configuration file 'anthill.json' was malformed."
    );
    assert_eq!(
        validation(check_archive(&vec![manifest(true, Some(("db_pw", "beta")))]).err().unwrap()),
        "Secret 'db_pw' is not present in 'beta'."
    );
    assert!(should_activate(&vec![s("v1"), s("v1")], 0));
    assert!(!should_activate(&vec![s("v1"), s("v2")], 0));
    assert!(!should_activate(&vec![s("v1")], 1));
    assert!(!should_activate(&vec![], 0));
}

#[test]
fn jobs_and_retries() {
    assert!(matches!(artifact_registered(&vec![HostArchitecture::ArmV7], HostArchitecture::ArmV7), JobCompletion::Pending));
    assert!(matches!(artifact_registered(&vec![HostArchitecture::ArmV7], HostArchitecture::X86_64), JobCompletion::Finished(())));
    assert!(matches!(stage_finished("build", false), JobCompletion::Pending));
    assert!(matches!(stage_finished("build", true), JobCompletion::Finished(())));
    assert!(matches!(stage_finished("deploy", false), JobCompletion::Finished(())));
    assert_eq!(job_success(&JobRun::Completed(JobCompletion::Pending)), None);
    assert_eq!(job_success(&JobRun::Completed(JobCompletion::Finished(()))), Some(true));
    assert_eq!(job_success(&JobRun::NothingToPerform), Some(true));
    assert_eq!(job_success(&JobRun::Failed), Some(false));
    assert_eq!(job_success(&JobRun::Crashed), Some(false));
    let job = DeploymentJob { job_id: s("j"), revision: s("r"), event_document: s("{}") };
    assert!(matches!(job_update(&job, None), JobUpdate::Unstart { ref job_id } if job_id == "j"));
    assert!(matches!(job_update(&job, Some(false)), JobUpdate::Complete { is_success: false, .. }));

    assert!(matches!(retry_job_step("j", None), Err(AntZookeeperError::ResourceNotFound(ref m)) if m == "j"));
    assert_eq!(
        validation(retry_job_step("j", Some((true, false))).err().unwrap()),
        "Job j has already been completed and cannot be retried."
    );
    assert!(matches!(retry_job_step("j", Some((false, true))), Ok(RetryStep::AlreadyRetryable)));
    assert!(matches!(retry_job_step("j", Some((false, false))), Ok(RetryStep::MarkRetryable)));
    assert_eq!(validation(missing_retry_target()), "either jobId or nodeId is required");

    let mut engine = PipelineEngine::new();
    let rev = engine.create_revision("web");
    let p = engine.create_pipeline("web", rev).unwrap();
    let n = engine.add_node(p, NodeSpec { event: s("{}"), mutates: None, options: NodeOptions::default() }).unwrap();
    assert_eq!(validation(retry_node(&mut engine, 12).err().unwrap()), "node 12 not found");
    assert_eq!(validation(retry_node(&mut engine, n).err().unwrap()), "node 0 is in state 'pending', cannot retry");
}

#[test]
fn node_states_and_reasons_as_shown() {
    assert!(matches!(node_state(NodeStatus::Failed, Some(s("boom"))), NodeState::Failed { error: Some(ref e) } if e == "boom"));
    assert!(matches!(node_state(NodeStatus::UnwindFailed, None), NodeState::UnwindFailed { error: None }));
    assert!(matches!(node_state(NodeStatus::InProgress, Some(s("x"))), NodeState::InProgress));
    assert_eq!(status_str(NodeStatus::UnwindFailed), "unwind_failed");
    assert_eq!(reason_string(TransitionReason::Succeed(42)), "succeed job=42");
    assert_eq!(reason_string(TransitionReason::Fail(0)), "fail job=0");
    assert_eq!(reason_string(TransitionReason::UnwindScopeCancel), "unwind_scope_cancel");
}

#[test]
fn printing_press() {
    assert!(check_secret_id("twenty-six-characters-long").is_ok());
    match check_secret_id("twenty-seven-characters-lon") {
        Err(AntPrintingPressError::ValidationMessage(m)) => {
            assert_eq!(m, "Secret [twenty-seven-characters-lon] is too long, must be < 26 chars")
        }
        _ => panic!("expected a refusal"),
    }
    // Length counts bytes: 13 two-byte characters fill the line, 14 do not.
    assert!(check_secret_id(&"é".repeat(13)).is_ok());
    assert!(check_secret_id(&"é".repeat(14)).is_err());
    let lines = secret_lines("id1", SecretEncoding::Base64, "c2VjcmV0");
    assert_eq!(lines, vec![
        "=".repeat(32),
        s("++ typesofants.org secret ++"),
        s("id:   id1"),
        s("type: base64"),
        s("c2VjcmV0"),
        "=".repeat(32),
    ]);
    assert_eq!(wrapped_lines("hi"), vec!["=".repeat(32), s("hi"), "=".repeat(32)]);
    assert_eq!(SecretEncoding::default(), SecretEncoding::String);
    assert_eq!(SecretEncoding::from_str("base64"), Some(SecretEncoding::Base64));
    assert_eq!(SecretEncoding::from_str("hex"), None);
    let internal = AntPrintingPressError::InternalServerError { id: s("?") };
    assert_eq!(internal.status_code(), 500);
    assert!(matches!(internal.reply(), AntPrintingPressError::InternalServerError { ref id } if id == "ANT-ERR-125"));
}

#[test]
fn tweets() {
    assert!(scheduled_tweet_due(0));
    assert!(scheduled_tweet_due(-23));
    assert!(!scheduled_tweet_due(24));
    assert!(!scheduled_tweet_due(-24));
    for _ in 0..20 {
        let i = choose_random_ant(&vec![true, false, true, false]);
        assert!(i == 1 || i == 3);
    }
    assert_eq!(choose_random_ant(&vec![true, true, false]), 2);
    assert_eq!(scheduled_tweet_text(Some("hi:\n"), &vec![s("ant one"), s("ant two")], None), "hi:\nant one\nant two\n");
    assert_eq!(scheduled_by_comment("kaspar"), "tweet scheduled by: kaspar");
}

#[test]
fn building_artifacts() {
    assert_eq!(artifact_path("abc123"), "./repos/abc123");
    assert_eq!(make_failure_reply(MakeFailure::InvalidVersion, "zz"), (400, s("Invalid version 'zz'")));
    assert_eq!(make_failure_reply(MakeFailure::NotACommit, "zz"), (400, s("Version must be commit hash.")));
    assert_eq!(make_failure_reply(MakeFailure::BuildFailed, "zz").0, 500);
    let out = make_output(&MakeInput { project_id: s("web"), project_version: s("abc") });
    assert_eq!((out.project_id.as_str(), out.project_version.as_str()), ("web", "abc"));
    assert_eq!(ArtifactBuildError::Checkout.as_str(), "Checkout");
}

#[test]
fn artifact_upload_needs_project_header() {
    match require_project(None) {
        Err(AntZookeeperError::ValidationError(m)) => assert_eq!(m, "The X-Ant-Project header must be specified."),
        other => panic!("unexpected {other:?}"),
    }
    assert_eq!(require_project(Some("web".to_string())).ok(), Some("web".to_string()));
}

#[test]
fn artifact_upload_needs_open_revision() {
    match check_revision_open(None) {
        Err(AntZookeeperError::ResourceNotFound(m)) => assert_eq!(m, "No such revision."),
        other => panic!("unexpected {other:?}"),
    }
    match check_revision_open(Some(true)) {
        Err(AntZookeeperError::ValidationError(m)) => {
            assert_eq!(m, "Revision has already been activated and is immutable, so cannot be updated.")
        },
        other => panic!("unexpected {other:?}"),
    }
    assert!(check_revision_open(Some(false)).is_ok());
}

#[test]
fn artifact_write_replaces_old_file_only_when_it_differs() {
    assert!(matches!(artifact_write(None, "web.tar.gz"), ArtifactWrite::Register));
    match artifact_write(Some(("a1".to_string(), "old.tar.gz".to_string())), "web.tar.gz") {
        ArtifactWrite::Update { id, remove } => {
            assert_eq!(id, "a1");
            assert_eq!(remove.as_deref(), Some("old.tar.gz"));
        },
        other => panic!("unexpected {other:?}"),
    }
    match artifact_write(Some(("a1".to_string(), "web.tar.gz".to_string())), "web.tar.gz") {
        ArtifactWrite::Update { remove, .. } => assert!(remove.is_none()),
        other => panic!("unexpected {other:?}"),
    }
}

#[test]
fn failed_deployments_are_answered_with_500() {
    let cases = [
        (types_of_ants::artifacts::DeployProjectError::Build(ArtifactBuildError::Checkout), "Building artifact failed!"),
        (types_of_ants::artifacts::DeployProjectError::Connect, "Failed to connect to dataplane host"),
        (types_of_ants::artifacts::DeployProjectError::Kill, "Failed to launch new process on dataplane host"),
        (types_of_ants::artifacts::DeployProjectError::Launch, "Failed to launch new process on dataplane host"),
    ];
    for (e, msg) in cases {
        assert_eq!(e.reply(), (500, msg));
    }
}

#[test]
fn adding_a_host_to_a_host_group() {
    let e = check_add_host(false, true, false).unwrap_err();
    assert_eq!(e.status_code(), 400);
    assert_eq!(validation(e), "No such host group.");
    assert_eq!(validation(check_add_host(true, false, false).unwrap_err()), "No such host.");
    let e = check_add_host(true, true, true).unwrap_err();
    assert_eq!(e.status_code(), 400);
    assert_eq!(validation(e), "Host already in host group.");
    assert!(check_add_host(true, true, false).is_ok());
}

#[test]
fn registered_artifact_is_answered_with_200() {
    assert_eq!(version_registered(), (200, "Version registered"));
}
