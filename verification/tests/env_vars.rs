use types_of_ants::env_vars::{env_line, missing_service_message, source_env_variables, template_value, underscore_dashes, variable_prefix, EnvVars};

fn pairs(v: &[(&str, &str)]) -> Vec<(String, String)> {
    v.iter().map(|(a, b)| (a.to_string(), b.to_string())).collect()
}

fn get<'a>(vars: &'a EnvVars, name: &str) -> Option<&'a str> {
    vars.entries().iter().find(|(k, _)| k == name).map(|(_, v)| v.as_str())
}

#[test]
fn insert_replaces_existing_value() {
    let mut v = EnvVars::new();
    v.insert("A".to_string(), "1".to_string());
    v.insert("B".to_string(), "2".to_string());
    v.insert("A".to_string(), "3".to_string());
    assert_eq!(v.entries().len(), 2);
    assert_eq!(get(&v, "A"), Some("3"));
    assert_eq!(get(&v, "B"), Some("2"));
}

#[test]
fn prefix_upper_cases_and_replaces_dashes() {
    assert_eq!(variable_prefix("ant-host-agent"), "ANT_HOST_AGENT");
    assert_eq!(variable_prefix("web"), "WEB");
}

#[test]
fn service_environment_layers_settings() {
    let sourced = pairs(&[("DB_HOST", "db"), ("VERSION", "old"), ("PORT", "1")]);
    let additional = pairs(&[("DB_HOST", "other-db")]);
    let v = source_env_variables(&sourced, "ant-host-agent", "v3", Some(3232), Some(9000), &additional);
    assert_eq!(get(&v, "PERSIST_DIR"), Some("/home/ant/persist/ant-host-agent"));
    assert_eq!(get(&v, "SECRETS_DIR"), Some("./secrets"));
    assert_eq!(get(&v, "VERSION"), Some("v3"));
    assert_eq!(get(&v, "PORT"), Some("3232"));
    assert_eq!(get(&v, "ANT_HOST_AGENT_PORT"), Some("3232"));
    assert_eq!(get(&v, "METRICS_PORT"), Some("9000"));
    assert_eq!(get(&v, "ANT_HOST_AGENT_METRICS_PORT"), Some("9000"));
    assert_eq!(get(&v, "DB_HOST"), Some("other-db"));
    assert_eq!(v.entries().len(), 8);
}

#[test]
fn service_environment_without_ports() {
    let v = source_env_variables(&vec![], "web", "v1", None, None, &vec![]);
    assert_eq!(get(&v, "PORT"), None);
    assert_eq!(get(&v, "METRICS_PORT"), None);
    assert_eq!(v.entries().len(), 3);
}

#[test]
fn env_lines_are_name_equals_value() {
    assert_eq!(env_line("TYPESOFANTS_ENV", "beta"), "TYPESOFANTS_ENV=beta\n");
    assert_eq!(env_line("PERSIST_DIR", "/home/ant/persist/ant-host-agent"), "PERSIST_DIR=/home/ant/persist/ant-host-agent\n");
    assert_eq!(env_line("A", "say \"hi\""), "A=say \"hi\"\n");
}

#[test]
fn template_values_lose_surrounding_quotes() {
    assert_eq!(template_value("\"abc\""), "abc");
    assert_eq!(template_value("\"\"x\"y\"\""), "x\"y");
    assert_eq!(template_value("plain"), "plain");
    assert_eq!(template_value("\"\"\""), "");
}

#[test]
fn missing_service_message_text() {
    assert_eq!(
        missing_service_message("h1", "web"),
        "cannot deploy to a [h1] that doesn't have service [web] defined in services.json!"
    );
}

#[test]
fn dashes_become_underscores() {
    assert_eq!(underscore_dashes("ANT-ON-THE-WEB"), "ANT_ON_THE_WEB");
    assert_eq!(underscore_dashes("-x-"), "_x_");
    assert_eq!(underscore_dashes(""), "");
}
