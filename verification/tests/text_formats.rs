use types_of_ants::arch::{HostArchitecture, ServiceEnv};
use types_of_ants::deployment_event::DeploymentEvent;
use types_of_ants::headers::{XAntArchitectureHeader, XAntProjectHeader, XAntVersionHeader};
use types_of_ants::json::json_string;
use types_of_ants::units::{
    acme_domain, artifact_file_name, artifact_persist_dir, binary_systemd_unit, docker_systemd_unit, env_file_line,
    envs_persist_dir, global_envs_file_name, join_path, persist_dir, project_envs_file_name, secret_file_name,
    secret_file_path, service_file_name, services_file_name, services_persist_dir,
};

#[test]
fn json_strings_match_serde_json() {
    let samples = [
        "",
        "plain",
        "quote \" and backslash \\",
        "new\nline\ttab\rreturn",
        "\u{8}\u{c}\u{0}\u{1f}\u{7f}",
        "unicode: äntś 🐜",
        "mixed \u{1}\"\\/",
    ];
    for s in samples {
        assert_eq!(json_string(s), serde_json::to_string(s).unwrap(), "for {s:?}");
    }
}

#[test]
fn deployment_event_json_parses_back_with_serde_json() {
    let e = DeploymentEvent::ArtifactReplication {
        host_id: "w\"1".to_string(),
        service_id: "svc".to_string(),
        environment: "beta".to_string(),
    };
    let text = e.to_json();
    assert_eq!(text, r#"{"type":"artifact_replication","host_id":"w\"1","service_id":"svc","environment":"beta"}"#);
    let v: serde_json::Value = serde_json::from_str(&text).unwrap();
    assert_eq!(v["type"], "artifact_replication");
    assert_eq!(v["host_id"], "w\"1");
    let gate = DeploymentEvent::EnvironmentGate { from: "beta".to_string(), to: "prod".to_string() };
    assert_eq!(gate.to_json(), r#"{"type":"environment_gate","from":"beta","to":"prod"}"#);
    let logs = DeploymentEvent::LogRuleConfiguration { host_id: "h".to_string(), service_id: "s".to_string() };
    assert_eq!(logs.to_json(), r#"{"type":"log_rule_configuration","host_id":"h","service_id":"s"}"#);
}

#[test]
fn binary_unit_text() {
    let unit = binary_systemd_unit("ant-gateway", "The gateway", "/opt/ant-gateway");
    assert_eq!(
        unit,
        "[Unit]
Description=The gateway

[Service]
Type=simple
EnvironmentFile=/opt/ant-gateway/.env
Environment=TYPESOFANTS_SECRET_DIR=/opt/ant-gateway/secrets
ExecStart=/opt/ant-gateway/ant-gateway
WorkingDirectory=/opt/ant-gateway
Restart=always

[Install]
WantedBy=multi-user.target
"
    );
}

#[test]
fn docker_unit_text() {
    let unit = docker_systemd_unit("ant-on-the-web", "The website", "/srv/web");
    assert_eq!(
        unit,
        "[Unit]
Description=The website

[Service]
Type=simple
ExecStart=/snap/bin/docker-compose --project-directory=/srv/web up --no-build --force-recreate ant-on-the-web
ExecStop=/snap/bin/docker-compose --project-directory=/srv/web stop ant-on-the-web
EnvironmentFile=/srv/web/.env
WorkingDirectory=/srv/web
Restart=always

[Install]
WantedBy=multi-user.target
"
    );
}

#[test]
fn file_names() {
    assert_eq!(artifact_file_name("web", Some(HostArchitecture::Aarch64), "v1"), "web.aarch64.v1.bld");
    assert_eq!(artifact_file_name("web", None, "v1"), "web.noarch.v1.bld");
    assert_eq!(services_file_name("web", Some(HostArchitecture::X86_64), "v2"), "web.x86_64.v2.bld.deployable");
    assert_eq!(project_envs_file_name("web", "prod"), "web.prod.build.cfg");
    assert_eq!(global_envs_file_name("beta"), "beta.build.cfg");
    assert_eq!(secret_file_name("db_password"), "db_password.secret");
    assert_eq!(env_file_line("KEY", "va lue"), "KEY=\"va lue\"\n");
    assert_eq!(acme_domain("typesofants.org"), "_acme-challenge.typesofants.org");
}

#[test]
fn architectures_and_environments() {
    assert_eq!(HostArchitecture::from_str("x86"), Some(HostArchitecture::X86_64));
    assert_eq!(HostArchitecture::from_str("raspbian"), Some(HostArchitecture::ArmV7));
    assert_eq!(HostArchitecture::from_str("aarch64"), Some(HostArchitecture::Aarch64));
    assert_eq!(HostArchitecture::from_str("AARCH64"), None);
    for a in [HostArchitecture::X86_64, HostArchitecture::Aarch64, HostArchitecture::ArmV7] {
        assert_eq!(HostArchitecture::from_str(a.as_str()), Some(a));
    }
    assert_eq!(ServiceEnv::Beta.to_string(), "beta");
    assert_eq!(ServiceEnv::Prod.as_str(), "prod");
}

#[test]
fn headers_decode_and_encode() {
    assert!(XAntProjectHeader::decode(None).is_err());
    assert!(XAntProjectHeader::decode(Some("bad\u{1}value")).is_err());
    let p = XAntProjectHeader::decode(Some("ant-gateway")).ok().unwrap();
    assert_eq!(p.encode(), "ant-gateway");
    assert_eq!(XAntVersionHeader::decode(Some("v1.2\t3")).ok().unwrap().0, "v1.2\t3");
    assert_eq!(XAntProjectHeader::name(), "x-ant-project");
    assert_eq!(XAntVersionHeader::name(), "x-ant-version");
    assert_eq!(XAntArchitectureHeader::name(), "x-ant-architecture");

    assert_eq!(XAntArchitectureHeader::decode(None).ok().unwrap().0, None);
    assert_eq!(XAntArchitectureHeader::decode(Some("AArch64")).ok().unwrap().0, Some(HostArchitecture::Aarch64));
    assert_eq!(XAntArchitectureHeader::decode(Some("X86")).ok().unwrap().0, Some(HostArchitecture::X86_64));
    assert!(XAntArchitectureHeader::decode(Some("sparc")).is_err());
    assert_eq!(XAntArchitectureHeader(Some(HostArchitecture::ArmV7)).encode(), Some("armv7"));
    assert_eq!(XAntArchitectureHeader(None).encode(), None);
}

#[test]
fn paths_join_like_std_paths() {
    for (base, part) in [("/data", "envs"), ("/data/", "envs"), ("", "envs"), ("/data", "/abs"), ("rel", ""), ("/", "x")] {
        let expected = std::path::Path::new(base).join(part);
        assert_eq!(join_path(base, part), expected.to_str().unwrap(), "{base:?} + {part:?}");
    }
    assert_eq!(artifact_persist_dir("/root"), "/root/artifacts-db");
    assert_eq!(envs_persist_dir("/root/"), "/root/envs");
    assert_eq!(services_persist_dir("/root"), "/root/services-db");
    assert_eq!(persist_dir("/root"), "/root/services-db");
    assert_eq!(secret_file_path("/root", "beta", "db-password"), "/root/secrets-db/beta/db-password.secret");
    assert_eq!(service_file_name("ant-gateway", "v7"), "ant-gateway.v7.bld");
}

#[test]
fn default_error_ids_are_empty() {
    assert_eq!(types_of_ants::errors::default_error_id(), "");
    assert_eq!(types_of_ants::printing::default_error_id(), "");
}
