//! The requests the zookeeper service takes about services, revisions, artifacts, host groups
//! and certificates, and the decisions it makes on them.
use vstd::prelude::*;
use crate::errors::AntZookeeperError;
use crate::text::{push_text, str_eq};
use crate::units::env_file_line;

verus! {

/// A request to deploy a version of a project.
pub struct DeployServiceRequest {
    pub project: String,
    pub version: String,
}

/// A request to register a version of a service.
pub struct CreateServiceVersionRequest {
    pub project: String,
    pub version: String,
}

/// How a project runs on its hosts.
pub enum ProjectKind {
    Docker,
    /// A binary, named after the project unless overridden.
    Binary { binary_name_override: Option<String> },
}

/// A request to register a project.
pub struct RegisterServiceRequest {
    pub project: String,
    pub kind: ProjectKind,
    pub is_owned: bool,
}

/// The reply to a registration: a project that already exists is refused (400), otherwise it
/// is registered (200).
pub fn register_service_reply(already_registered: bool, project: &str) -> (r: (u16, String))
    ensures
        already_registered ==> r.0 == 400 && r.1@ == "Project "@ + project@ + " already exists"@,
        !already_registered ==> r.0 == 200 && r.1@ == "Project registered."@,
{
    let mut m = String::new();
    if already_registered {
        push_text(&mut m, "Project ");
        push_text(&mut m, project);
        push_text(&mut m, " already exists");
        (400, m)
    } else {
        push_text(&mut m, "Project registered.");
        (200, m)
    }
}

/// One variable of a project's environment.
pub struct ProjectEnvironmentVariable {
    pub key: String,
    pub value: String,
}

/// The variables of a project in one environment.
pub struct PutProjectEnvironmentRequest {
    pub project: String,
    pub environment: String,
    pub variables: Vec<ProjectEnvironmentVariable>,
}

/// The environment file's text: one `key="value"` line per variable, in order.
pub open spec fn env_text(vars: Seq<ProjectEnvironmentVariable>) -> Seq<char>
    decreases vars.len(),
{
    if vars.len() == 0 {
        Seq::empty()
    } else {
        env_text(vars.drop_last()) + vars.last().key@ + "=\""@ + vars.last().value@ + "\"\n"@
    }
}

impl PutProjectEnvironmentRequest {
    /// The text of the environment file for the request's variables.
    pub fn env_file_text(&self) -> (r: String)
        ensures
            r@ == env_text(self.variables@),
    {
        let mut s = String::new();
        let mut i: usize = 0;
        while i < self.variables.len()
            invariant
                i <= self.variables.len(),
                s@ == env_text(self.variables@.take(i as int)),
            decreases self.variables.len() - i,
        {
            let v = &self.variables[i];
            let line = env_file_line(v.key.as_str(), v.value.as_str());
            push_text(&mut s, line.as_str());
            proof {
                assert(self.variables@.take(i + 1).drop_last() =~= self.variables@.take(i as int));
            }
            i = i + 1;
        }
        proof {
            assert(self.variables@.take(i as int) =~= self.variables@);
        }
        s
    }
}

/// A request for the revision to build a project under.
pub struct UpsertRevisionRequest {
    pub project: String,
}

/// The revision to build under.
pub struct UpsertRevisionResponse {
    pub revision: String,
}

/// The revision an upsert answers with, given the project's latest revision and whether it was
/// activated: a latest revision not yet activated is reused; otherwise (none, or activated) a
/// new one must be created, which `None` asks for.
pub fn reusable_revision(latest: Option<(String, bool)>) -> (r: Option<String>)
    ensures
        match latest {
            Some((id, false)) => r matches Some(x) && x@ == id@,
            _ => r is None,
        },
{
    match latest {
        Some((id, activated)) => if activated {
            None
        } else {
            Some(id)
        },
        None => None,
    }
}

/// A request to provision a certificate for some domains.
pub struct ProvisionCertificateRequest {
    pub domains: Vec<String>,
}

impl ProvisionCertificateRequest {
    /// A request for no domain is refused (400, "No domains requested.").
    pub fn refusal(&self) -> (r: Option<(u16, String)>)
        ensures
            self.domains@.len() == 0 ==> (r matches Some((c, m)) && c == 400 && m@ == "No domains requested."@),
            self.domains@.len() > 0 ==> r is None,
    {
        if self.domains.len() == 0 {
            let mut m = String::new();
            push_text(&mut m, "No domains requested.");
            Some((400, m))
        } else {
            None
        }
    }
}

/// A DNS TXT record.
#[derive(Debug)]
pub struct TxtRecord {
    pub id: String,
    pub content: String,
}

/// The first record with the given content, if any: putting a record that is already there
/// returns it instead of adding a copy.
pub fn find_identical_record(records: &Vec<TxtRecord>, content: &str) -> (r: Option<usize>)
    ensures
        match r {
            Some(i) => i < records@.len() && records@[i as int].content@ == content@ && forall|k: int|
                0 <= k < i ==> #[trigger] records@[k].content@ != content@,
            None => forall|k: int| 0 <= k < records@.len() ==> #[trigger] records@[k].content@ != content@,
        },
{
    let mut i: usize = 0;
    while i < records.len()
        invariant
            i <= records.len(),
            forall|k: int| 0 <= k < i ==> #[trigger] records@[k].content@ != content@,
        decreases records.len() - i,
    {
        if str_eq(records[i].content.as_str(), content) {
            return Some(i);
        }
        i = i + 1;
    }
    None
}

/// Why a DNS service could not do what was asked.
#[derive(Debug)]
pub struct DnsError(pub String);

/// A DNS service that holds the TXT records of the ACME challenges. Each call is one exchange
/// with the service, which may fail.
pub trait Dns {
    /// Adds a TXT record for `domain` with content `val` and returns it. Adding a record whose
    /// content is already there for that domain returns the record that is there.
    fn put_txt_record(&mut self, domain: &str, val: String) -> Result<TxtRecord, DnsError>;

    /// Deletes the record with identifier `record_id`.
    fn delete_txt_record(&mut self, record_id: &str) -> Result<(), DnsError>;

    /// The TXT records of `domain`.
    fn list_txt_records(&self, domain: &str) -> Result<Vec<TxtRecord>, DnsError>;
}

// ----- host groups -----

/// A request for a pipeline by name.
pub struct GetPipelineRequest {
    pub name: String,
}

/// A request for a host group by name.
pub struct GetHostGroupRequest {
    pub name: String,
}

/// A request to create a host group of a project in an environment.
pub struct CreateHostGroupRequest {
    pub name: String,
    pub project: String,
    pub environment: String,
}

/// The created host group.
pub struct CreateHostGroupResponse {
    pub name: String,
    pub id: String,
}

/// A request to add a host to a host group.
pub struct AddHostToHostGroupRequest {
    pub host_group_id: String,
    pub host_id: String,
}

/// Whether the host was in the group already.
pub struct AddHostToHostGroupResponse {
    pub host_already_in_host_group: bool,
}

/// Whether a host can be added to a host group, checked in order: the group must exist, the
/// host must exist, and the host must not be in the group already. `Ok` means the host is added.
pub fn check_add_host(group_exists: bool, host_exists: bool, already_in_group: bool) -> (r: Result<(), AntZookeeperError>)
    ensures
        !group_exists ==> (r matches Err(AntZookeeperError::ValidationError(m)) && m@ == "No such host group."@),
        group_exists && !host_exists ==> (r matches Err(AntZookeeperError::ValidationError(m)) && m@ == "No such host."@),
        group_exists && host_exists && already_in_group ==> (r matches Err(AntZookeeperError::ValidationError(m)) && m@
            == "Host already in host group."@),
        group_exists && host_exists && !already_in_group ==> r is Ok,
{
    if !group_exists {
        Err(AntZookeeperError::validation_msg("No such host group."))
    } else if !host_exists {
        Err(AntZookeeperError::validation_msg("No such host."))
    } else if already_in_group {
        Err(AntZookeeperError::validation_msg("Host already in host group."))
    } else {
        Ok(())
    }
}

/// A request to remove a host from a host group.
pub struct RemoveHostFromHostGroupRequest {
    pub host_group_id: String,
    pub host_id: String,
}

/// Whether the host was in the group.
pub struct RemoveHostFromHostGroupResponse {
    pub host_was_present: bool,
}

/// The environments a host group can be in.
pub open spec fn known_environment(e: Seq<char>) -> bool {
    e == "dev"@ || e == "beta"@ || e == "prod"@
}

impl CreateHostGroupRequest {
    /// Checks the request against what the database knows: the name must be free, the project
    /// must exist, and the environment must be `dev`, `beta` or `prod`, checked in that order.
    pub fn check(&self, name_taken: bool, project_exists: bool) -> (r: Result<(), AntZookeeperError>)
        ensures
            name_taken ==> (r matches Err(AntZookeeperError::ValidationError(m)) && m@
                == "Host group with that name already exists."@),
            !name_taken && !project_exists ==> (r matches Err(AntZookeeperError::ValidationError(m)) && m@
                == "No such project: "@ + self.project@),
            !name_taken && project_exists && !known_environment(self.environment@) ==> (r matches Err(
                AntZookeeperError::ValidationError(m),
            ) && m@ == "Environment must be 'dev', 'beta', or 'prod'."@),
            !name_taken && project_exists && known_environment(self.environment@) ==> r is Ok,
    {
        if name_taken {
            return Err(AntZookeeperError::validation_msg("Host group with that name already exists."));
        }
        if !project_exists {
            let mut m = String::new();
            push_text(&mut m, "No such project: ");
            push_text(&mut m, self.project.as_str());
            return Err(AntZookeeperError::ValidationError(m));
        }
        let e = self.environment.as_str();
        if str_eq(e, "dev") || str_eq(e, "beta") || str_eq(e, "prod") {
            Ok(())
        } else {
            Err(AntZookeeperError::validation_msg("Environment must be 'dev', 'beta', or 'prod'."))
        }
    }
}

// ----- clients -----

/// Where a client reaches the zookeeper.
pub struct AntZookeeperClientConfig {
    pub tls: bool,
    pub endpoint: String,
}

impl AntZookeeperClientConfig {
    /// The URL of `path`: `http://` or, with TLS, `https://`, then the endpoint and the path.
    pub fn url(&self, path: &str) -> (r: String)
        ensures
            r@ == (if self.tls { "https://"@ } else { "http://"@ }) + self.endpoint@ + path@,
    {
        let mut s = String::new();
        if self.tls {
            push_text(&mut s, "https://");
        } else {
            push_text(&mut s, "http://");
        }
        push_text(&mut s, self.endpoint.as_str());
        push_text(&mut s, path);
        s
    }
}

/// An error a client call ended with.
pub struct AntZookeeperClientError<E> {
    pub error: E,
}

// ----- artifacts -----

/// The project an artifact is uploaded for: the `X-Ant-Project` header, which must be there.
pub fn require_project(project: Option<String>) -> (r: Result<String, AntZookeeperError>)
    ensures
        match project {
            Some(p) => r matches Ok(x) && x@ == p@,
            None => r matches Err(AntZookeeperError::ValidationError(m)) && m@
                == "The X-Ant-Project header must be specified."@,
        },
{
    match project {
        Some(p) => Ok(p),
        None => Err(AntZookeeperError::validation_msg("The X-Ant-Project header must be specified.")),
    }
}

/// Whether an artifact may be registered under a revision, given whether the revision exists
/// and, if so, whether it was activated: an activated revision is immutable.
pub fn check_revision_open(activated: Option<bool>) -> (r: Result<(), AntZookeeperError>)
    ensures
        match activated {
            None => r matches Err(AntZookeeperError::ResourceNotFound(m)) && m@ == "No such revision."@,
            Some(true) => r matches Err(AntZookeeperError::ValidationError(m)) && m@
                == "Revision has already been activated and is immutable, so cannot be updated."@,
            Some(false) => r is Ok,
        },
{
    match activated {
        None => Err(AntZookeeperError::ResourceNotFound("No such revision.".to_string())),
        Some(true) => Err(
            AntZookeeperError::validation_msg("Revision has already been activated and is immutable, so cannot be updated."),
        ),
        Some(false) => Ok(()),
    }
}

/// How an uploaded artifact is recorded.
#[derive(Debug)]
pub enum ArtifactWrite {
    /// No artifact of the revision, project and architecture yet: register a new one.
    Register,
    /// Update artifact `id`; `remove` names the file it had, when that is not the new file.
    Update { id: String, remove: Option<String> },
}

/// How an uploaded artifact stored at `path` is recorded, given the artifact already registered
/// for its revision, project and architecture, if any, as its id and file.
pub fn artifact_write(existing: Option<(String, String)>, path: &str) -> (r: ArtifactWrite)
    ensures
        match existing {
            None => r is Register,
            Some((id, old)) => r matches ArtifactWrite::Update { id: i, remove } && i@ == id@ && (if old@ == path@ {
                remove is None
            } else {
                remove matches Some(x) && x@ == old@
            }),
        },
{
    match existing {
        None => ArtifactWrite::Register,
        Some((id, old)) => {
            let remove = if str_eq(old.as_str(), path) {
                None
            } else {
                Some(old)
            };
            ArtifactWrite::Update { id, remove }
        },
    }
}

/// The answer to an artifact upload once every check passed and the artifact is recorded:
/// status 200 with `Version registered`.
pub fn version_registered() -> (r: (u16, &'static str))
    ensures
        r.0 == 200,
        r.1@ == "Version registered"@,
{
    (200, "Version registered")
}

/// What the service learnt about one file of an uploaded artifact.
pub struct ArchiveEntry {
    pub file_name: String,
    /// For the `anthill.json` manifest: whether it parsed, and the first secret it names that
    /// is missing, with the environment it is missing from.
    pub manifest: Option<ManifestCheck>,
}

/// What checking the manifest found.
pub struct ManifestCheck {
    pub parsed: bool,
    pub missing_secret: Option<(String, String)>,
}

/// The refusal of the first entry that is refused: an `.env` file, a malformed manifest, or a
/// manifest naming a missing secret.
pub open spec fn entry_refusal(e: ArchiveEntry) -> Option<Seq<char>> {
    if e.file_name@ == ".env"@ {
        Some("Deployment tarball cannot contain any files named '.env'."@)
    } else if e.file_name@ == "anthill.json"@ {
        match e.manifest {
            None => None,
            Some(m) => if !m.parsed {
                Some("Project configuration file 'anthill.json' was malformed."@)
            } else {
                match m.missing_secret {
                    Some((s, env)) => Some("Secret '"@ + s@ + "' is not present in '"@ + env@ + "'."@),
                    None => None,
                }
            },
        }
    } else {
        None
    }
}

/// The refusal of the files after a manifest was found: the first refused entry, if any.
pub open spec fn later_refusal(entries: Seq<ArchiveEntry>) -> Option<Seq<char>>
    decreases entries.len(),
{
    if entries.len() == 0 {
        None
    } else {
        match entry_refusal(entries[0]) {
            Some(m) => Some(m),
            None => later_refusal(entries.drop_first()),
        }
    }
}

/// The refusal of an artifact's files, entry by entry: the first refused entry, or, when no
/// entry was refused and none is the manifest, a demand for the manifest.
pub open spec fn files_refusal(entries: Seq<ArchiveEntry>) -> Option<Seq<char>> {
    match later_refusal(entries) {
        Some(m) => Some(m),
        None => if exists|k: int| 0 <= k < entries.len() && #[trigger] entries[k].file_name@ == "anthill.json"@ {
            None
        } else {
            Some("Project configuration file 'anthill.json' must be included in deployment tarball."@)
        },
    }
}

/// Checks the files of an uploaded artifact, in archive order.
pub fn check_archive(entries: &Vec<ArchiveEntry>) -> (r: Result<(), AntZookeeperError>)
    ensures
        match (r, files_refusal(entries@)) {
            (Ok(()), None) => true,
            (Err(AntZookeeperError::ValidationError(m)), Some(x)) => m@ == x,
            _ => false,
        },
{
    let mut found = false;
    let mut i: usize = 0;
    assert(entries@.skip(0) =~= entries@);
    while i < entries.len()
        invariant
            i <= entries.len(),
            later_refusal(entries@) == later_refusal(entries@.skip(i as int)),
            found == exists|k: int| 0 <= k < i && #[trigger] entries@[k].file_name@ == "anthill.json"@,
        decreases entries.len() - i,
    {
        let e = &entries[i];
        let ghost rest = entries@.skip(i as int);
        assert(rest[0] == entries@[i as int]);
        assert(rest.drop_first() =~= entries@.skip(i + 1));
        let name = e.file_name.as_str();
        if str_eq(name, ".env") {
            return Err(AntZookeeperError::validation_msg("Deployment tarball cannot contain any files named '.env'."));
        }
        if str_eq(name, "anthill.json") {
            found = true;
            match &e.manifest {
                None => {},
                Some(m) => {
                    if !m.parsed {
                        return Err(AntZookeeperError::validation_msg("Project configuration file 'anthill.json' was malformed."));
                    }
                    match &m.missing_secret {
                        Some((s, env)) => {
                            let mut msg = String::new();
                            push_text(&mut msg, "Secret '");
                            push_text(&mut msg, s.as_str());
                            push_text(&mut msg, "' is not present in '");
                            push_text(&mut msg, env.as_str());
                            push_text(&mut msg, "'.");
                            return Err(AntZookeeperError::ValidationError(msg));
                        },
                        None => {},
                    }
                },
            }
        }
        i = i + 1;
    }
    assert(entries@.skip(i as int).len() == 0);
    if !found {
        return Err(
            AntZookeeperError::validation_msg("Project configuration file 'anthill.json' must be included in deployment tarball."),
        );
    }
    Ok(())
}

/// A revision activates once all its artifacts are of one version and no architecture is
/// missing.
pub fn should_activate(versions: &Vec<String>, missing_architectures: usize) -> (r: bool)
    ensures
        r == (versions@.len() > 0 && (forall|k: int| 0 <= k < versions@.len() ==> #[trigger] versions@[k]@ == versions@[0]@)
            && missing_architectures == 0),
{
    if versions.len() == 0 {
        return false;
    }
    let first = versions[0].as_str();
    let mut i: usize = 1;
    while i < versions.len()
        invariant
            1 <= i <= versions.len(),
            first@ == versions@[0]@,
            forall|k: int| 0 <= k < i ==> #[trigger] versions@[k]@ == versions@[0]@,
        decreases versions.len() - i,
    {
        if !str_eq(versions[i].as_str(), first) {
            return false;
        }
        i = i + 1;
    }
    missing_architectures == 0
}

} // verus!
