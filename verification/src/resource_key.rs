//! Keys naming the external resources a deployment step mutates.
//!
//! A key is rendered as `variant:field:field...`; every field is an [`Identifier`], so a key
//! renders to a string that parses back to the same key.
use vstd::prelude::*;
use vstd::string::*;
use crate::text::{colon_free, has_colon, split_once, split_once_exec, push_text, lemma_split_concat, lemma_split_rejoin};

verus! {

/// What makes a string a valid identifier: it is not empty and holds no colon.
pub open spec fn valid_identifier(s: Seq<char>) -> bool {
    s.len() > 0 && colon_free(s)
}

/// Why a string was refused as an [`Identifier`].
#[derive(Debug, Clone, Copy, PartialEq, Eq)]
pub enum IdentifierError {
    /// The string was empty.
    Empty,
    /// The string held a `:`, the key separator.
    ContainsColon,
}

/// The outcome of checking `s` as an identifier.
pub open spec fn identifier_check(s: Seq<char>) -> Result<(), IdentifierError> {
    if s.len() == 0 {
        Err(IdentifierError::Empty)
    } else if !colon_free(s) {
        Err(IdentifierError::ContainsColon)
    } else {
        Ok(())
    }
}

/// A non-empty name without colons: a host, a service or an environment.
#[derive(Debug)]
pub struct Identifier(String);

impl Identifier {
    #[verifier::type_invariant]
    spec fn inv(self) -> bool {
        valid_identifier(self.0@)
    }

    pub closed spec fn view(self) -> Seq<char> {
        self.0@
    }

    /// Accepts `value` when it is not empty and holds no colon.
    pub fn new(value: &str) -> (r: Result<Identifier, IdentifierError>)
        ensures
            match (r, identifier_check(value@)) {
                (Ok(id), Ok(())) => id.view() == value@,
                (Err(e), Err(f)) => e == f,
                _ => false,
            },
    {
        if value.unicode_len() == 0 {
            return Err(IdentifierError::Empty);
        }
        if has_colon(value) {
            return Err(IdentifierError::ContainsColon);
        }
        Ok(Identifier(value.to_string()))
    }

    /// Same as [`Identifier::new`].
    pub fn from_str(s: &str) -> (r: Result<Identifier, IdentifierError>)
        ensures
            match (r, identifier_check(s@)) {
                (Ok(id), Ok(())) => id.view() == s@,
                (Err(e), Err(f)) => e == f,
                _ => false,
            },
    {
        Self::new(s)
    }

    pub fn as_str(&self) -> (r: &str)
        ensures
            r@ == self.view(),
    {
        self.0.as_str()
    }

    /// The identifier's text.
    pub fn to_string(&self) -> (r: String)
        ensures
            r@ == self.view(),
    {
        self.0.clone()
    }

    pub fn clone(&self) -> (r: Identifier)
        ensures
            r.view() == self.view(),
    {
        proof {
            use_type_invariant(self);
        }
        Identifier(self.0.clone())
    }

    pub fn eq(&self, other: &Identifier) -> (r: bool)
        ensures
            r == (self.view() == other.view()),
    {
        self.0 == other.0
    }
}

/// A resource that deployment steps mutate; steps on the same resource run oldest revision first.
#[derive(Debug)]
pub enum DeploymentResource {
    /// The running service on a specific host.
    HostService { host_id: Identifier, service_id: Identifier },
    /// Database schema migration for a service in an environment.
    DatabaseMigration { host: Identifier, service_id: Identifier, environment: Identifier },
    /// nginx routing config on the gateway for an environment.
    GatewayRouting { environment: Identifier },
    /// Prometheus alert rules for a service.
    AlertRules { service_id: Identifier },
    /// Promtail log pipeline rules for a service on a specific host.
    LogRules { host_id: Identifier, service_id: Identifier },
}

/// A [`DeploymentResource`] with its identifiers taken as text.
pub enum ResourceView {
    HostService { host_id: Seq<char>, service_id: Seq<char> },
    DatabaseMigration { host: Seq<char>, service_id: Seq<char>, environment: Seq<char> },
    GatewayRouting { environment: Seq<char> },
    AlertRules { service_id: Seq<char> },
    LogRules { host_id: Seq<char>, service_id: Seq<char> },
}

impl DeploymentResource {
    pub open spec fn view(self) -> ResourceView {
        match self {
            DeploymentResource::HostService { host_id, service_id } => ResourceView::HostService {
                host_id: host_id.view(),
                service_id: service_id.view(),
            },
            DeploymentResource::DatabaseMigration { host, service_id, environment } =>
                ResourceView::DatabaseMigration {
                host: host.view(),
                service_id: service_id.view(),
                environment: environment.view(),
            },
            DeploymentResource::GatewayRouting { environment } => ResourceView::GatewayRouting {
                environment: environment.view(),
            },
            DeploymentResource::AlertRules { service_id } => ResourceView::AlertRules {
                service_id: service_id.view(),
            },
            DeploymentResource::LogRules { host_id, service_id } => ResourceView::LogRules {
                host_id: host_id.view(),
                service_id: service_id.view(),
            },
        }
    }
}

/// Every identifier of the key is valid.
pub open spec fn resource_valid(r: ResourceView) -> bool {
    match r {
        ResourceView::HostService { host_id, service_id } => valid_identifier(host_id)
            && valid_identifier(service_id),
        ResourceView::DatabaseMigration { host, service_id, environment } => valid_identifier(
            host,
        ) && valid_identifier(service_id) && valid_identifier(environment),
        ResourceView::GatewayRouting { environment } => valid_identifier(environment),
        ResourceView::AlertRules { service_id } => valid_identifier(service_id),
        ResourceView::LogRules { host_id, service_id } => valid_identifier(host_id)
            && valid_identifier(service_id),
    }
}

pub open spec fn colon() -> Seq<char> {
    seq![':']
}

pub open spec fn host_service_tag() -> Seq<char> {
    seq!['h', 'o', 's', 't', '_', 's', 'e', 'r', 'v', 'i', 'c', 'e']
}

pub open spec fn database_migration_tag() -> Seq<char> {
    seq![
        'd', 'a', 't', 'a', 'b', 'a', 's', 'e', '_', 'm', 'i', 'g', 'r', 'a', 't', 'i', 'o', 'n',
    ]
}

pub open spec fn gateway_routing_tag() -> Seq<char> {
    seq!['g', 'a', 't', 'e', 'w', 'a', 'y', '_', 'r', 'o', 'u', 't', 'i', 'n', 'g']
}

pub open spec fn alert_rules_tag() -> Seq<char> {
    seq!['a', 'l', 'e', 'r', 't', '_', 'r', 'u', 'l', 'e', 's']
}

pub open spec fn log_rules_tag() -> Seq<char> {
    seq!['l', 'o', 'g', '_', 'r', 'u', 'l', 'e', 's']
}

/// The text of a key: `host_service:{host_id}:{service_id}`,
/// `database_migration:{service_id}:{host}:{environment}`, `gateway_routing:{environment}`,
/// `alert_rules:{service_id}` or `log_rules:{host_id}:{service_id}`.
pub open spec fn render_resource(r: ResourceView) -> Seq<char> {
    match r {
        ResourceView::HostService { host_id, service_id } => host_service_tag() + colon()
            + host_id + colon() + service_id,
        ResourceView::DatabaseMigration { host, service_id, environment } =>
            database_migration_tag() + colon() + service_id + colon() + host + colon()
            + environment,
        ResourceView::GatewayRouting { environment } => gateway_routing_tag() + colon()
            + environment,
        ResourceView::AlertRules { service_id } => alert_rules_tag() + colon() + service_id,
        ResourceView::LogRules { host_id, service_id } => log_rules_tag() + colon() + host_id
            + colon() + service_id,
    }
}

/// Why a string was refused as a [`DeploymentResource`].
#[derive(Debug, Clone, Copy, PartialEq, Eq)]
pub enum ResourceParseError {
    /// No `:` separates a variant name from its fields.
    MissingTypePrefix,
    /// The variant needs more `:`-separated fields than the string holds.
    MissingFields,
    /// The text before the first `:` names no variant.
    UnknownVariant,
    /// A field is not a valid identifier.
    InvalidIdentifier(IdentifierError),
}

pub open spec fn field(s: Seq<char>) -> Result<Seq<char>, ResourceParseError> {
    match identifier_check(s) {
        Ok(()) => Ok(s),
        Err(e) => Err(ResourceParseError::InvalidIdentifier(e)),
    }
}

/// `rest` split at its first colon into two identifiers.
pub open spec fn two_fields(rest: Seq<char>) -> Result<(Seq<char>, Seq<char>), ResourceParseError> {
    match split_once(rest) {
        None => Err(ResourceParseError::MissingFields),
        Some((a, b)) => match field(a) {
            Err(e) => Err(e),
            Ok(a) => match field(b) {
                Err(e) => Err(e),
                Ok(b) => Ok((a, b)),
            },
        },
    }
}

/// `rest` split at its first two colons into three identifiers.
pub open spec fn three_fields(rest: Seq<char>) -> Result<
    (Seq<char>, Seq<char>, Seq<char>),
    ResourceParseError,
> {
    match split_once(rest) {
        None => Err(ResourceParseError::MissingFields),
        Some((a, tail)) => match split_once(tail) {
            None => Err(ResourceParseError::MissingFields),
            Some((b, c)) => match field(a) {
                Err(e) => Err(e),
                Ok(a) => match field(b) {
                    Err(e) => Err(e),
                    Ok(b) => match field(c) {
                        Err(e) => Err(e),
                        Ok(c) => Ok((a, b, c)),
                    },
                },
            },
        },
    }
}

/// What parsing `s` gives: the variant name is the text before the first colon.
pub open spec fn parse_resource(s: Seq<char>) -> Result<ResourceView, ResourceParseError> {
    match split_once(s) {
        None => Err(ResourceParseError::MissingTypePrefix),
        Some((variant, rest)) => if variant == host_service_tag() {
            match two_fields(rest) {
                Err(e) => Err(e),
                Ok((h, sv)) => Ok(ResourceView::HostService { host_id: h, service_id: sv }),
            }
        } else if variant == database_migration_tag() {
            match three_fields(rest) {
                Err(e) => Err(e),
                Ok((sv, h, env)) => Ok(
                    ResourceView::DatabaseMigration { host: h, service_id: sv, environment: env },
                ),
            }
        } else if variant == gateway_routing_tag() {
            match field(rest) {
                Err(e) => Err(e),
                Ok(env) => Ok(ResourceView::GatewayRouting { environment: env }),
            }
        } else if variant == alert_rules_tag() {
            match field(rest) {
                Err(e) => Err(e),
                Ok(sv) => Ok(ResourceView::AlertRules { service_id: sv }),
            }
        } else if variant == log_rules_tag() {
            match two_fields(rest) {
                Err(e) => Err(e),
                Ok((h, sv)) => Ok(ResourceView::LogRules { host_id: h, service_id: sv }),
            }
        } else {
            Err(ResourceParseError::UnknownVariant)
        },
    }
}


/// Whether `text` is exactly the literal `lit`.
fn text_is(text: &String, lit: &str) -> (r: bool)
    ensures
        r == (text@ == lit@),
{
    *text == lit.to_string()
}

fn parse_field(s: &String) -> (r: Result<Identifier, ResourceParseError>)
    ensures
        match (r, field(s@)) {
            (Ok(id), Ok(v)) => id.view() == v,
            (Err(e), Err(f)) => e == f,
            _ => false,
        },
{
    match Identifier::new(s.as_str()) {
        Ok(id) => Ok(id),
        Err(e) => Err(ResourceParseError::InvalidIdentifier(e)),
    }
}

fn parse_two_fields(rest: &String) -> (r: Result<(Identifier, Identifier), ResourceParseError>)
    ensures
        match (r, two_fields(rest@)) {
            (Ok((a, b)), Ok((x, y))) => a.view() == x && b.view() == y,
            (Err(e), Err(f)) => e == f,
            _ => false,
        },
{
    match split_once_exec(rest.as_str()) {
        None => Err(ResourceParseError::MissingFields),
        Some((a, b)) => {
            let a = parse_field(&a)?;
            let b = parse_field(&b)?;
            Ok((a, b))
        },
    }
}

fn parse_three_fields(rest: &String) -> (r: Result<
    (Identifier, Identifier, Identifier),
    ResourceParseError,
>)
    ensures
        match (r, three_fields(rest@)) {
            (Ok((a, b, c)), Ok((x, y, z))) => a.view() == x && b.view() == y && c.view() == z,
            (Err(e), Err(f)) => e == f,
            _ => false,
        },
{
    match split_once_exec(rest.as_str()) {
        None => Err(ResourceParseError::MissingFields),
        Some((a, tail)) => match split_once_exec(tail.as_str()) {
            None => Err(ResourceParseError::MissingFields),
            Some((b, c)) => {
                let a = parse_field(&a)?;
                let b = parse_field(&b)?;
                let c = parse_field(&c)?;
                Ok((a, b, c))
            },
        },
    }
}

proof fn lemma_tags()
    ensures
        "host_service"@ == host_service_tag(),
        "database_migration"@ == database_migration_tag(),
        "gateway_routing"@ == gateway_routing_tag(),
        "alert_rules"@ == alert_rules_tag(),
        "log_rules"@ == log_rules_tag(),
        ":"@ == colon(),
{
    reveal_strlit("host_service");
    reveal_strlit("database_migration");
    reveal_strlit("gateway_routing");
    reveal_strlit("alert_rules");
    reveal_strlit("log_rules");
    reveal_strlit(":");
    assert("host_service"@ =~= host_service_tag());
    assert("database_migration"@ =~= database_migration_tag());
    assert("gateway_routing"@ =~= gateway_routing_tag());
    assert("alert_rules"@ =~= alert_rules_tag());
    assert("log_rules"@ =~= log_rules_tag());
    assert(":"@ =~= colon());
}

impl DeploymentResource {
    /// The key's text, as [`render_resource`] describes it.
    pub fn to_string(&self) -> (r: String)
        ensures
            r@ == render_resource(self.view()),
    {
        proof {
            lemma_tags();
        }
        let mut buf = String::new();
        match self {
            DeploymentResource::HostService { host_id, service_id } => {
                push_text(&mut buf, "host_service");
                push_text(&mut buf, ":");
                push_text(&mut buf, host_id.as_str());
                push_text(&mut buf, ":");
                push_text(&mut buf, service_id.as_str());
            },
            DeploymentResource::DatabaseMigration { host, service_id, environment } => {
                push_text(&mut buf, "database_migration");
                push_text(&mut buf, ":");
                push_text(&mut buf, service_id.as_str());
                push_text(&mut buf, ":");
                push_text(&mut buf, host.as_str());
                push_text(&mut buf, ":");
                push_text(&mut buf, environment.as_str());
            },
            DeploymentResource::GatewayRouting { environment } => {
                push_text(&mut buf, "gateway_routing");
                push_text(&mut buf, ":");
                push_text(&mut buf, environment.as_str());
            },
            DeploymentResource::AlertRules { service_id } => {
                push_text(&mut buf, "alert_rules");
                push_text(&mut buf, ":");
                push_text(&mut buf, service_id.as_str());
            },
            DeploymentResource::LogRules { host_id, service_id } => {
                push_text(&mut buf, "log_rules");
                push_text(&mut buf, ":");
                push_text(&mut buf, host_id.as_str());
                push_text(&mut buf, ":");
                push_text(&mut buf, service_id.as_str());
            },
        }
        buf
    }

    /// Parses the text of a key, as [`parse_resource`] describes it.
    pub fn from_str(s: &str) -> (r: Result<DeploymentResource, ResourceParseError>)
        ensures
            match (r, parse_resource(s@)) {
                (Ok(k), Ok(v)) => k.view() == v,
                (Err(e), Err(f)) => e == f,
                _ => false,
            },
    {
        proof {
            lemma_tags();
        }
        match split_once_exec(s) {
            None => Err(ResourceParseError::MissingTypePrefix),
            Some((variant, rest)) => {
                if text_is(&variant, "host_service") {
                    let (h, sv) = parse_two_fields(&rest)?;
                    Ok(DeploymentResource::HostService { host_id: h, service_id: sv })
                } else if text_is(&variant, "database_migration") {
                    let (sv, h, env) = parse_three_fields(&rest)?;
                    Ok(DeploymentResource::DatabaseMigration { host: h, service_id: sv, environment: env })
                } else if text_is(&variant, "gateway_routing") {
                    let env = parse_field(&rest)?;
                    Ok(DeploymentResource::GatewayRouting { environment: env })
                } else if text_is(&variant, "alert_rules") {
                    let sv = parse_field(&rest)?;
                    Ok(DeploymentResource::AlertRules { service_id: sv })
                } else if text_is(&variant, "log_rules") {
                    let (h, sv) = parse_two_fields(&rest)?;
                    Ok(DeploymentResource::LogRules { host_id: h, service_id: sv })
                } else {
                    Err(ResourceParseError::UnknownVariant)
                }
            },
        }
    }

    pub fn clone(&self) -> (r: DeploymentResource)
        ensures
            r.view() == self.view(),
    {
        match self {
            DeploymentResource::HostService { host_id, service_id } =>
                DeploymentResource::HostService {
                host_id: host_id.clone(),
                service_id: service_id.clone(),
            },
            DeploymentResource::DatabaseMigration { host, service_id, environment } =>
                DeploymentResource::DatabaseMigration {
                host: host.clone(),
                service_id: service_id.clone(),
                environment: environment.clone(),
            },
            DeploymentResource::GatewayRouting { environment } =>
                DeploymentResource::GatewayRouting { environment: environment.clone() },
            DeploymentResource::AlertRules { service_id } => DeploymentResource::AlertRules {
                service_id: service_id.clone(),
            },
            DeploymentResource::LogRules { host_id, service_id } => DeploymentResource::LogRules {
                host_id: host_id.clone(),
                service_id: service_id.clone(),
            },
        }
    }

    /// Whether two keys name the same resource.
    pub fn eq(&self, other: &DeploymentResource) -> (r: bool)
        ensures
            r == (self.view() == other.view()),
    {
        match (self, other) {
            (
                DeploymentResource::HostService { host_id: a, service_id: b },
                DeploymentResource::HostService { host_id: c, service_id: d },
            ) => a.eq(c) && b.eq(d),
            (
                DeploymentResource::DatabaseMigration { host: a, service_id: b, environment: e },
                DeploymentResource::DatabaseMigration { host: c, service_id: d, environment: f },
            ) => a.eq(c) && b.eq(d) && e.eq(f),
            (
                DeploymentResource::GatewayRouting { environment: a },
                DeploymentResource::GatewayRouting { environment: b },
            ) => a.eq(b),
            (
                DeploymentResource::AlertRules { service_id: a },
                DeploymentResource::AlertRules { service_id: b },
            ) => a.eq(b),
            (
                DeploymentResource::LogRules { host_id: a, service_id: b },
                DeploymentResource::LogRules { host_id: c, service_id: d },
            ) => a.eq(c) && b.eq(d),
            _ => false,
        }
    }
}

proof fn lemma_two_fields(a: Seq<char>, b: Seq<char>)
    requires
        valid_identifier(a),
        valid_identifier(b),
    ensures
        two_fields(a + colon() + b) == Ok::<(Seq<char>, Seq<char>), ResourceParseError>((a, b)),
{
    lemma_split_concat(a, b);
}

/// A key's text parses back to the same key.
pub proof fn lemma_parse_render(r: ResourceView)
    requires
        resource_valid(r),
    ensures
        parse_resource(render_resource(r)) == Ok::<ResourceView, ResourceParseError>(r),
{
    assert(colon_free(host_service_tag()));
    assert(colon_free(database_migration_tag()));
    assert(colon_free(gateway_routing_tag()));
    assert(colon_free(alert_rules_tag()));
    assert(colon_free(log_rules_tag()));
    match r {
        ResourceView::HostService { host_id, service_id } => {
            let rest = host_id + colon() + service_id;
            assert(render_resource(r) =~= host_service_tag() + colon() + rest);
            lemma_split_concat(host_service_tag(), rest);
            lemma_two_fields(host_id, service_id);
        },
        ResourceView::DatabaseMigration { host, service_id, environment } => {
            let tail = host + colon() + environment;
            let rest = service_id + colon() + tail;
            assert(render_resource(r) =~= database_migration_tag() + colon() + rest);
            lemma_split_concat(database_migration_tag(), rest);
            lemma_split_concat(service_id, tail);
            lemma_split_concat(host, environment);
        },
        ResourceView::GatewayRouting { environment } => {
            lemma_split_concat(gateway_routing_tag(), environment);
        },
        ResourceView::AlertRules { service_id } => {
            lemma_split_concat(alert_rules_tag(), service_id);
        },
        ResourceView::LogRules { host_id, service_id } => {
            let rest = host_id + colon() + service_id;
            assert(render_resource(r) =~= log_rules_tag() + colon() + rest);
            lemma_split_concat(log_rules_tag(), rest);
            lemma_two_fields(host_id, service_id);
        },
    }
}

/// Two valid keys with the same text are the same key.
pub proof fn lemma_render_injective(r1: ResourceView, r2: ResourceView)
    requires
        resource_valid(r1),
        resource_valid(r2),
        render_resource(r1) == render_resource(r2),
    ensures
        r1 == r2,
{
    lemma_parse_render(r1);
    lemma_parse_render(r2);
}

/// Parsing accepts only the text of a key: a string that parses is exactly the text of the
/// key it parses to, and that key is valid.
pub proof fn lemma_parse_canonical(s: Seq<char>)
    requires
        parse_resource(s) is Ok,
    ensures
        resource_valid(parse_resource(s)->Ok_0),
        render_resource(parse_resource(s)->Ok_0) == s,
{
    lemma_split_rejoin(s);
    let (variant, rest) = split_once(s)->0;
    assert(s == variant + colon() + rest);
    if variant == database_migration_tag() {
        lemma_split_rejoin(rest);
        lemma_split_rejoin((split_once(rest)->0).1);
        assert(render_resource(parse_resource(s)->Ok_0) =~= s);
    } else if variant == host_service_tag() || variant == log_rules_tag() {
        lemma_split_rejoin(rest);
        assert(render_resource(parse_resource(s)->Ok_0) =~= s);
    } else {
        assert(render_resource(parse_resource(s)->Ok_0) =~= s);
    }
}

} // verus!
