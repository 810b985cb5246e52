//! The work a node of a deployment DAG stands for, its JSON record, and what a worker does
//! when the node is dispatched.
use vstd::prelude::*;
use crate::json::{escape, escape_char, json_str, push_json_str};
use crate::pipeline_engine::engine::DispatchDirection;
use crate::text::push_text;

verus! {

/// One step of deploying a service.
#[derive(Debug)]
pub enum DeploymentEvent {
    ArtifactReplication { host_id: String, service_id: String, environment: String },
    HostDeployment { host_id: String, service_id: String, environment: String },
    DeploymentVerification { host_id: String, service_id: String, environment: String },
    RouteUpdate { environment: String },
    AlertConfiguration { service_id: String, environment: String },
    LogRuleConfiguration { host_id: String, service_id: String },
    DatabaseMigration { service_id: String, environment: String },
    EnvironmentGate { from: String, to: String },
}

/// `,"name":value` with `value` as a JSON string.
pub open spec fn json_field(name: Seq<char>, value: Seq<char>) -> Seq<char> {
    ","@ + json_str(name) + ":"@ + json_str(value)
}

/// The opening of a record tagged with `tag`: `{"type":"tag"`.
pub open spec fn json_open(tag: Seq<char>) -> Seq<char> {
    "{"@ + json_str("type"@) + ":"@ + json_str(tag)
}

/// The record of a step on one host of a service in an environment.
pub open spec fn host_step_json(tag: Seq<char>, host_id: Seq<char>, service_id: Seq<char>, environment: Seq<char>) -> Seq<char> {
    json_open(tag) + json_field("host_id"@, host_id) + json_field("service_id"@, service_id) + json_field(
        "environment"@,
        environment,
    ) + "}"@
}

pub open spec fn route_update_json(environment: Seq<char>) -> Seq<char> {
    json_open("route_update"@) + json_field("environment"@, environment) + "}"@
}

pub open spec fn alert_configuration_json(service_id: Seq<char>, environment: Seq<char>) -> Seq<char> {
    json_open("alert_configuration"@) + json_field("service_id"@, service_id) + json_field("environment"@, environment) + "}"@
}

pub open spec fn log_rule_configuration_json(host_id: Seq<char>, service_id: Seq<char>) -> Seq<char> {
    json_open("log_rule_configuration"@) + json_field("host_id"@, host_id) + json_field("service_id"@, service_id) + "}"@
}

pub open spec fn database_migration_json(service_id: Seq<char>, environment: Seq<char>) -> Seq<char> {
    json_open("database_migration"@) + json_field("service_id"@, service_id) + json_field("environment"@, environment) + "}"@
}

pub open spec fn environment_gate_json(from: Seq<char>, to: Seq<char>) -> Seq<char> {
    json_open("environment_gate"@) + json_field("from"@, from) + json_field("to"@, to) + "}"@
}

impl DeploymentEvent {
    /// The compact JSON record of the event: an object whose `type` names the variant in snake
    /// case, followed by the variant's fields in declaration order.
    pub open spec fn json(self) -> Seq<char> {
        match self {
            DeploymentEvent::ArtifactReplication { host_id, service_id, environment } => host_step_json(
                "artifact_replication"@,
                host_id@,
                service_id@,
                environment@,
            ),
            DeploymentEvent::HostDeployment { host_id, service_id, environment } => host_step_json(
                "host_deployment"@,
                host_id@,
                service_id@,
                environment@,
            ),
            DeploymentEvent::DeploymentVerification { host_id, service_id, environment } => host_step_json(
                "deployment_verification"@,
                host_id@,
                service_id@,
                environment@,
            ),
            DeploymentEvent::RouteUpdate { environment } => route_update_json(environment@),
            DeploymentEvent::AlertConfiguration { service_id, environment } => alert_configuration_json(service_id@, environment@),
            DeploymentEvent::LogRuleConfiguration { host_id, service_id } => log_rule_configuration_json(host_id@, service_id@),
            DeploymentEvent::DatabaseMigration { service_id, environment } => database_migration_json(service_id@, environment@),
            DeploymentEvent::EnvironmentGate { from, to } => environment_gate_json(from@, to@),
        }
    }

    fn push_field(buf: &mut String, name: &str, value: &str)
        ensures
            final(buf)@ == old(buf)@ + json_field(name@, value@),
    {
        let ghost start = buf@;
        push_text(buf, ",");
        push_json_str(buf, name);
        push_text(buf, ":");
        push_json_str(buf, value);
        assert(buf@ =~= start + json_field(name@, value@));
    }

    /// The compact JSON record of the event.
    pub fn to_json(&self) -> (r: String)
        ensures
            r@ == self.json(),
    {
        let mut buf = String::new();
        push_text(&mut buf, "{");
        push_json_str(&mut buf, "type");
        push_text(&mut buf, ":");
        match self {
            DeploymentEvent::ArtifactReplication { host_id, service_id, environment } => {
                push_json_str(&mut buf, "artifact_replication");
                Self::push_field(&mut buf, "host_id", host_id.as_str());
                Self::push_field(&mut buf, "service_id", service_id.as_str());
                Self::push_field(&mut buf, "environment", environment.as_str());
            },
            DeploymentEvent::HostDeployment { host_id, service_id, environment } => {
                push_json_str(&mut buf, "host_deployment");
                Self::push_field(&mut buf, "host_id", host_id.as_str());
                Self::push_field(&mut buf, "service_id", service_id.as_str());
                Self::push_field(&mut buf, "environment", environment.as_str());
            },
            DeploymentEvent::DeploymentVerification { host_id, service_id, environment } => {
                push_json_str(&mut buf, "deployment_verification");
                Self::push_field(&mut buf, "host_id", host_id.as_str());
                Self::push_field(&mut buf, "service_id", service_id.as_str());
                Self::push_field(&mut buf, "environment", environment.as_str());
            },
            DeploymentEvent::RouteUpdate { environment } => {
                push_json_str(&mut buf, "route_update");
                Self::push_field(&mut buf, "environment", environment.as_str());
            },
            DeploymentEvent::AlertConfiguration { service_id, environment } => {
                push_json_str(&mut buf, "alert_configuration");
                Self::push_field(&mut buf, "service_id", service_id.as_str());
                Self::push_field(&mut buf, "environment", environment.as_str());
            },
            DeploymentEvent::LogRuleConfiguration { host_id, service_id } => {
                push_json_str(&mut buf, "log_rule_configuration");
                Self::push_field(&mut buf, "host_id", host_id.as_str());
                Self::push_field(&mut buf, "service_id", service_id.as_str());
            },
            DeploymentEvent::DatabaseMigration { service_id, environment } => {
                push_json_str(&mut buf, "database_migration");
                Self::push_field(&mut buf, "service_id", service_id.as_str());
                Self::push_field(&mut buf, "environment", environment.as_str());
            },
            DeploymentEvent::EnvironmentGate { from, to } => {
                push_json_str(&mut buf, "environment_gate");
                Self::push_field(&mut buf, "from", from.as_str());
                Self::push_field(&mut buf, "to", to.as_str());
            },
        }
        push_text(&mut buf, "}");
        assert(buf@ =~= self.json());
        buf
    }
}

/// What a worker does for a dispatched node.
#[derive(Debug)]
pub enum DispatchAction {
    /// Copy the service's artifact of `revision_id` to the host.
    Replicate { revision_id: usize, service_id: String, environment: String, host_id: String },
    /// Deploy the service's artifact of `revision_id` on the host.
    Deploy { revision_id: usize, service_id: String, host_id: String },
    /// Nothing to do: the step is a pass-through, not implemented yet, or has nothing to undo.
    Nothing,
}

/// The action for a dispatch of `event` in `direction` for revision `revision_id`: replication
/// runs forward only (artifacts are immutable); a host deployment deploys the revision going
/// forward, and going back restores the revision it names (or does nothing when there is none);
/// every other step does nothing.
pub open spec fn action_for(event: DeploymentEvent, direction: DispatchDirection, revision_id: usize, action: DispatchAction) -> bool {
    match event {
        DeploymentEvent::ArtifactReplication { host_id, service_id, environment } => match direction {
            DispatchDirection::Deploy => action matches DispatchAction::Replicate { revision_id: r, service_id: s, environment: e, host_id: h }
                && r == revision_id && s@ == service_id@ && e@ == environment@ && h@ == host_id@,
            DispatchDirection::Unwind { .. } => action is Nothing,
        },
        DeploymentEvent::HostDeployment { host_id, service_id, .. } => match direction {
            DispatchDirection::Deploy => action matches DispatchAction::Deploy { revision_id: r, service_id: s, host_id: h }
                && r == revision_id && s@ == service_id@ && h@ == host_id@,
            DispatchDirection::Unwind { restore_revision_id: Some(back) } => action matches DispatchAction::Deploy {
                revision_id: r,
                service_id: s,
                host_id: h,
            } && r == back && s@ == service_id@ && h@ == host_id@,
            DispatchDirection::Unwind { restore_revision_id: None } => action is Nothing,
        },
        _ => action is Nothing,
    }
}

/// Decides what a worker does for a dispatched node.
pub fn dispatch_action(event: &DeploymentEvent, direction: DispatchDirection, revision_id: usize) -> (r: DispatchAction)
    ensures
        action_for(*event, direction, revision_id, r),
{
    match event {
        DeploymentEvent::ArtifactReplication { host_id, service_id, environment } => match direction {
            DispatchDirection::Deploy => DispatchAction::Replicate {
                revision_id,
                service_id: service_id.clone(),
                environment: environment.clone(),
                host_id: host_id.clone(),
            },
            DispatchDirection::Unwind { .. } => DispatchAction::Nothing,
        },
        DeploymentEvent::HostDeployment { host_id, service_id, .. } => match direction {
            DispatchDirection::Deploy => DispatchAction::Deploy {
                revision_id,
                service_id: service_id.clone(),
                host_id: host_id.clone(),
            },
            DispatchDirection::Unwind { restore_revision_id } => match restore_revision_id {
                Some(back) => DispatchAction::Deploy {
                    revision_id: back,
                    service_id: service_id.clone(),
                    host_id: host_id.clone(),
                },
                None => DispatchAction::Nothing,
            },
        },
        _ => DispatchAction::Nothing,
    }
}

// ----- which kind of step a record is -----

/// No character of `s` needs escaping inside a JSON string.
pub open spec fn plain(s: Seq<char>) -> bool {
    forall|i: int| 0 <= i < s.len() ==> #[trigger] s[i] != '"' && s[i] != '\\' && (s[i] as u32) >= 0x20
}

/// A record's `type` is `tag`: its text opens with `{"type":"tag"`.
pub open spec fn event_kind(event: Seq<char>, tag: Seq<char>) -> bool {
    &&& json_open(tag).len() <= event.len()
    &&& event.subrange(0, json_open(tag).len() as int) == json_open(tag)
}

proof fn lemma_escape_plain(s: Seq<char>)
    requires
        plain(s),
    ensures
        escape(s) == s,
    decreases s.len(),
{
    if s.len() > 0 {
        let d = s.drop_last();
        assert forall|i: int| 0 <= i < d.len() implies #[trigger] d[i] != '"' && d[i] != '\\' && (d[i] as u32) >= 0x20 by {
            assert(d[i] == s[i]);
        }
        lemma_escape_plain(d);
        let c = s.last();
        assert(s[s.len() - 1] == c);
        assert(escape_char(c) == seq![c]);
        assert(s =~= d + seq![c]);
    }
}

/// The opening of a record with a plain tag: `{"type":"`, the tag, and a quote.
proof fn lemma_open_plain(tag: Seq<char>)
    requires
        plain(tag),
    ensures
        json_open(tag) == seq!['{', '"', 't', 'y', 'p', 'e', '"', ':', '"'] + tag + seq!['"'],
{
    reveal_strlit("{");
    reveal_strlit("type");
    reveal_strlit(":");
    let ty = seq!['t', 'y', 'p', 'e'];
    assert("type"@ =~= ty);
    assert forall|i: int| 0 <= i < ty.len() implies #[trigger] ty[i] != '"' && ty[i] != '\\' && (ty[i] as u32) >= 0x20 by {
    }
    lemma_escape_plain(ty);
    lemma_escape_plain(tag);
    assert(json_open(tag) =~= seq!['{', '"', 't', 'y', 'p', 'e', '"', ':', '"'] + tag + seq!['"']);
}

/// A record whose text starts with the opening for `tag` is of that kind.
proof fn lemma_kind_of(tag: Seq<char>, rest: Seq<char>)
    ensures
        event_kind(json_open(tag) + rest, tag),
{
    assert((json_open(tag) + rest).subrange(0, json_open(tag).len() as int) =~= json_open(tag));
}

/// A record of one kind is not of a kind whose plain tag differs at some position.
proof fn lemma_kind_excludes(event: Seq<char>, t1: Seq<char>, t2: Seq<char>, k: int)
    requires
        event_kind(event, t1),
        plain(t1),
        plain(t2),
        0 <= k < t1.len(),
        k < t2.len(),
        t1[k] != t2[k],
    ensures
        !event_kind(event, t2),
{
    lemma_open_plain(t1);
    lemma_open_plain(t2);
    assert(event.subrange(0, json_open(t1).len() as int)[9 + k] == event[9 + k]);
    assert(json_open(t1)[9 + k] == t1[k]);
    if event_kind(event, t2) {
        assert(event.subrange(0, json_open(t2).len() as int)[9 + k] == event[9 + k]);
        assert(json_open(t2)[9 + k] == t2[k]);
    }
}

/// Lower-case letters and underscores need no escaping.
proof fn lemma_plain_word(s: Seq<char>)
    requires
        forall|i: int| 0 <= i < s.len() ==> ('a' <= #[trigger] s[i] && s[i] <= 'z') || s[i] == '_',
    ensures
        plain(s),
{
}

/// The step tags are plain, and they differ in their first two letters.
proof fn lemma_step_tags()
    ensures
        plain("artifact_replication"@),
        plain("host_deployment"@),
        plain("deployment_verification"@),
        plain("route_update"@),
        plain("alert_configuration"@),
        plain("log_rule_configuration"@),
        plain("database_migration"@),
        plain("environment_gate"@),
        "artifact_replication"@.len() > 1 && "artifact_replication"@[0] == 'a',
        "host_deployment"@.len() > 1 && "host_deployment"@[0] == 'h',
        "deployment_verification"@.len() > 1 && "deployment_verification"@[0] == 'd' && "deployment_verification"@[1] == 'e',
        "route_update"@.len() > 1 && "route_update"@[0] == 'r',
        "alert_configuration"@.len() > 1 && "alert_configuration"@[0] == 'a',
        "log_rule_configuration"@.len() > 1 && "log_rule_configuration"@[0] == 'l',
        "database_migration"@.len() > 1 && "database_migration"@[0] == 'd' && "database_migration"@[1] == 'a',
        "environment_gate"@.len() > 1 && "environment_gate"@[0] == 'e',
{
    reveal_strlit("artifact_replication");
    reveal_strlit("host_deployment");
    reveal_strlit("deployment_verification");
    reveal_strlit("route_update");
    reveal_strlit("alert_configuration");
    reveal_strlit("log_rule_configuration");
    reveal_strlit("database_migration");
    reveal_strlit("environment_gate");
    lemma_plain_word("artifact_replication"@);
    lemma_plain_word("host_deployment"@);
    lemma_plain_word("deployment_verification"@);
    lemma_plain_word("route_update"@);
    lemma_plain_word("alert_configuration"@);
    lemma_plain_word("log_rule_configuration"@);
    lemma_plain_word("database_migration"@);
    lemma_plain_word("environment_gate"@);
}

/// The record is a host deployment or a deployment verification.
pub open spec fn deploys_host(event: Seq<char>) -> bool {
    event_kind(event, "host_deployment"@) || event_kind(event, "deployment_verification"@)
}

/// A record of a kind whose plain tag starts neither with `h` nor with `de` deploys no host.
proof fn lemma_not_deploys(event: Seq<char>, tag: Seq<char>)
    requires
        event_kind(event, tag),
        plain(tag),
        tag.len() > 1,
        tag[0] != 'h',
        tag[0] != 'd' || tag[1] != 'e',
    ensures
        !deploys_host(event),
{
    lemma_step_tags();
    lemma_kind_excludes(event, tag, "host_deployment"@, 0);
    if tag[0] != 'd' {
        lemma_kind_excludes(event, tag, "deployment_verification"@, 0);
    } else {
        lemma_kind_excludes(event, tag, "deployment_verification"@, 1);
    }
}

/// The records of host deployments and deployment verifications are of those kinds, and the
/// records of every other step are of neither.
pub proof fn lemma_step_kinds(h: Seq<char>, svc: Seq<char>, env: Seq<char>, from: Seq<char>, to: Seq<char>)
    ensures
        deploys_host(host_step_json("host_deployment"@, h, svc, env)),
        deploys_host(host_step_json("deployment_verification"@, h, svc, env)),
        !deploys_host(host_step_json("artifact_replication"@, h, svc, env)),
        !deploys_host(route_update_json(env)),
        !deploys_host(alert_configuration_json(svc, env)),
        !deploys_host(log_rule_configuration_json(h, svc)),
        !deploys_host(database_migration_json(svc, env)),
        !deploys_host(environment_gate_json(from, to)),
{
    lemma_step_tags();
    assert(deploys_host(host_step_json("host_deployment"@, h, svc, env))) by {
        let tag = "host_deployment"@;
        let e = host_step_json(tag, h, svc, env);
        assert(e.subrange(0, json_open(tag).len() as int) =~= json_open(tag));
    }
    assert(deploys_host(host_step_json("deployment_verification"@, h, svc, env))) by {
        let tag = "deployment_verification"@;
        let e = host_step_json(tag, h, svc, env);
        assert(e.subrange(0, json_open(tag).len() as int) =~= json_open(tag));
    }
    assert(!deploys_host(host_step_json("artifact_replication"@, h, svc, env))) by {
        let tag = "artifact_replication"@;
        let e = host_step_json(tag, h, svc, env);
        assert(e.subrange(0, json_open(tag).len() as int) =~= json_open(tag));
        lemma_not_deploys(e, tag);
    }
    assert(!deploys_host(route_update_json(env))) by {
        let tag = "route_update"@;
        let e = route_update_json(env);
        assert(e.subrange(0, json_open(tag).len() as int) =~= json_open(tag));
        lemma_not_deploys(e, tag);
    }
    assert(!deploys_host(alert_configuration_json(svc, env))) by {
        let tag = "alert_configuration"@;
        let e = alert_configuration_json(svc, env);
        assert(e.subrange(0, json_open(tag).len() as int) =~= json_open(tag));
        lemma_not_deploys(e, tag);
    }
    assert(!deploys_host(log_rule_configuration_json(h, svc))) by {
        let tag = "log_rule_configuration"@;
        let e = log_rule_configuration_json(h, svc);
        assert(e.subrange(0, json_open(tag).len() as int) =~= json_open(tag));
        lemma_not_deploys(e, tag);
    }
    assert(!deploys_host(database_migration_json(svc, env))) by {
        let tag = "database_migration"@;
        let e = database_migration_json(svc, env);
        assert(e.subrange(0, json_open(tag).len() as int) =~= json_open(tag));
        lemma_not_deploys(e, tag);
    }
    assert(!deploys_host(environment_gate_json(from, to))) by {
        let tag = "environment_gate"@;
        let e = environment_gate_json(from, to);
        assert(e.subrange(0, json_open(tag).len() as int) =~= json_open(tag));
        lemma_not_deploys(e, tag);
    }
}

} // verus!
