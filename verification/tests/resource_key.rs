use std::collections::HashSet;

use types_of_ants::resource_key::{DeploymentResource, Identifier, IdentifierError, ResourceParseError};

fn id(s: &str) -> Identifier {
    Identifier::new(s).unwrap()
}

fn all_variants() -> Vec<DeploymentResource> {
    vec![
        DeploymentResource::HostService {
            host_id: id("antworker001"),
            service_id: id("ant-on-the-web"),
        },
        DeploymentResource::DatabaseMigration {
            host: id("antworker001"),
            service_id: id("ant-data-farm"),
            environment: id("prod"),
        },
        DeploymentResource::GatewayRouting {
            environment: id("prod"),
        },
        DeploymentResource::AlertRules {
            service_id: id("ant-on-the-web"),
        },
        DeploymentResource::LogRules {
            host_id: id("antworker002"),
            service_id: id("ant-on-the-web"),
        },
    ]
}

#[test]
fn identifier_rejects_empty() {
    assert!(Identifier::new("").is_err());
}

#[test]
fn identifier_rejects_colon() {
    assert!(Identifier::new("bad:value").is_err());
}

#[test]
fn identifier_accepts_valid() {
    assert!(Identifier::new("ant-on-the-web").is_ok());
    assert!(Identifier::new("antworker002").is_ok());
    assert!(Identifier::new("prod").is_ok());
}

#[test]
fn roundtrip_all_variants() {
    let keys = all_variants();

    for key in &keys {
        let s = key.to_string();
        let parsed: DeploymentResource = DeploymentResource::from_str(&s).unwrap();
        assert!(parsed.eq(key), "Roundtrip failed for: {s}");
    }

    let unique: HashSet<_> = keys.iter().map(std::mem::discriminant).collect();
    assert_eq!(unique.len(), 5);
}

#[test]
fn all_variants_produce_unique_strings() {
    let keys = all_variants();

    let strings: Vec<String> = keys.iter().map(|k| k.to_string()).collect();
    let unique: HashSet<&String> = strings.iter().collect();
    assert_eq!(strings.len(), unique.len(), "Duplicate keys found: {:?}", strings);
}

#[test]
fn same_variant_different_fields_unique() {
    let keys = vec![
        DeploymentResource::HostService {
            host_id: id("antworker001"),
            service_id: id("ant-on-the-web"),
        },
        DeploymentResource::HostService {
            host_id: id("antworker002"),
            service_id: id("ant-on-the-web"),
        },
        DeploymentResource::HostService {
            host_id: id("antworker001"),
            service_id: id("ant-gateway"),
        },
    ];

    let strings: Vec<String> = keys.iter().map(|k| k.to_string()).collect();
    let unique: HashSet<&String> = strings.iter().collect();
    assert_eq!(strings.len(), unique.len(), "Duplicate keys found: {:?}", strings);
}

#[test]
fn from_str_rejects_unknown_variant() {
    assert!(DeploymentResource::from_str("unknown:foo:bar").is_err());
}

#[test]
fn from_str_rejects_missing_fields() {
    assert!(DeploymentResource::from_str("host_service:only-one-field").is_err());
    assert!(DeploymentResource::from_str("database_migration:only-one").is_err());
    assert!(DeploymentResource::from_str("log_rules:only-one").is_err());
}

#[test]
fn from_str_rejects_empty_fields() {
    assert!(DeploymentResource::from_str("host_service::ant-on-the-web").is_err());
    assert!(DeploymentResource::from_str("alert_rules:").is_err());
}

#[test]
fn rendered_keys_have_the_documented_text() {
    let strings: Vec<String> = all_variants().iter().map(|k| k.to_string()).collect();
    assert_eq!(
        strings,
        vec![
            "host_service:antworker001:ant-on-the-web",
            "database_migration:ant-data-farm:antworker001:prod",
            "gateway_routing:prod",
            "alert_rules:ant-on-the-web",
            "log_rules:antworker002:ant-on-the-web",
        ]
    );
}

#[test]
fn parse_errors_name_what_is_wrong() {
    assert_eq!(DeploymentResource::from_str("no-prefix").err(), Some(ResourceParseError::MissingTypePrefix));
    assert_eq!(DeploymentResource::from_str("unknown:foo").err(), Some(ResourceParseError::UnknownVariant));
    assert_eq!(DeploymentResource::from_str("host_service:only").err(), Some(ResourceParseError::MissingFields));
    assert_eq!(
        DeploymentResource::from_str("alert_rules:").err(),
        Some(ResourceParseError::InvalidIdentifier(IdentifierError::Empty))
    );
    assert_eq!(Identifier::new("a:b").err(), Some(IdentifierError::ContainsColon));
}

#[test]
fn identifier_keeps_its_text() {
    let i = id("ant-gateway");
    assert_eq!(i.as_str(), "ant-gateway");
    assert_eq!(Identifier::from_str("w1").unwrap().to_string(), "w1");
    assert!(i.eq(&i.clone()));
    assert!(!i.eq(&id("ant-gateway2")));
}

#[test]
fn parsed_keys_render_to_the_parsed_text() {
    let texts = [
        "host_service:antworker001:ant-on-the-web",
        "database_migration:ant-data-farm:antworker002:prod",
        "gateway_routing:beta",
        "alert_rules:ant-gateway",
        "log_rules:antworker001:ant-gateway",
    ];
    for text in texts {
        let key = DeploymentResource::from_str(text).unwrap();
        assert_eq!(key.to_string(), text);
    }
    assert!(DeploymentResource::from_str("host_service:a:b:c").is_err());
}
