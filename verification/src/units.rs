//! Text the zookeeper writes for the hosts it deploys to: systemd unit files and the names of
//! the files it keeps artifacts, environments and secrets in.
use vstd::prelude::*;
use crate::arch::{HostArchitecture, arch_name};
use crate::text::push_text;

verus! {

/// The unit file that runs a service's binary from `dir`.
pub open spec fn binary_unit(project: Seq<char>, description: Seq<char>, dir: Seq<char>) -> Seq<char> {
    "[Unit]\nDescription="@ + description
        + "\n\n[Service]\nType=simple\nEnvironmentFile="@ + dir
        + "/.env\nEnvironment=TYPESOFANTS_SECRET_DIR="@ + dir
        + "/secrets\nExecStart="@ + dir + "/"@ + project
        + "\nWorkingDirectory="@ + dir
        + "\nRestart=always\n\n[Install]\nWantedBy=multi-user.target\n"@
}

/// The unit file that runs a service with docker-compose from `dir`.
pub open spec fn docker_unit(project: Seq<char>, description: Seq<char>, dir: Seq<char>) -> Seq<char> {
    "[Unit]\nDescription="@ + description
        + "\n\n[Service]\nType=simple\nExecStart=/snap/bin/docker-compose --project-directory="@ + dir
        + " up --no-build --force-recreate "@ + project
        + "\nExecStop=/snap/bin/docker-compose --project-directory="@ + dir
        + " stop "@ + project
        + "\nEnvironmentFile="@ + dir
        + "/.env\nWorkingDirectory="@ + dir
        + "\nRestart=always\n\n[Install]\nWantedBy=multi-user.target\n"@
}

/// The systemd unit for a service installed as a binary in `install_dir`.
pub fn binary_systemd_unit(project: &str, project_description: &str, install_dir: &str) -> (r: String)
    ensures
        r@ == binary_unit(project@, project_description@, install_dir@),
{
    let mut s = String::new();
    push_text(&mut s, "[Unit]\nDescription=");
    push_text(&mut s, project_description);
    push_text(&mut s, "\n\n[Service]\nType=simple\nEnvironmentFile=");
    push_text(&mut s, install_dir);
    push_text(&mut s, "/.env\nEnvironment=TYPESOFANTS_SECRET_DIR=");
    push_text(&mut s, install_dir);
    push_text(&mut s, "/secrets\nExecStart=");
    push_text(&mut s, install_dir);
    push_text(&mut s, "/");
    push_text(&mut s, project);
    push_text(&mut s, "\nWorkingDirectory=");
    push_text(&mut s, install_dir);
    push_text(&mut s, "\nRestart=always\n\n[Install]\nWantedBy=multi-user.target\n");
    s
}

/// The systemd unit for a service run by docker-compose from `install_dir`.
pub fn docker_systemd_unit(project: &str, project_description: &str, install_dir: &str) -> (r: String)
    ensures
        r@ == docker_unit(project@, project_description@, install_dir@),
{
    let mut s = String::new();
    push_text(&mut s, "[Unit]\nDescription=");
    push_text(&mut s, project_description);
    push_text(&mut s, "\n\n[Service]\nType=simple\nExecStart=/snap/bin/docker-compose --project-directory=");
    push_text(&mut s, install_dir);
    push_text(&mut s, " up --no-build --force-recreate ");
    push_text(&mut s, project);
    push_text(&mut s, "\nExecStop=/snap/bin/docker-compose --project-directory=");
    push_text(&mut s, install_dir);
    push_text(&mut s, " stop ");
    push_text(&mut s, project);
    push_text(&mut s, "\nEnvironmentFile=");
    push_text(&mut s, install_dir);
    push_text(&mut s, "/.env\nWorkingDirectory=");
    push_text(&mut s, install_dir);
    push_text(&mut s, "\nRestart=always\n\n[Install]\nWantedBy=multi-user.target\n");
    s
}

/// The architecture part of an artifact's file name: its name, or `noarch`.
pub open spec fn arch_part(arch: Option<HostArchitecture>) -> Seq<char> {
    match arch {
        Some(a) => arch_name(a),
        None => "noarch"@,
    }
}

/// `project.arch.version.bld`.
pub open spec fn artifact_name(project: Seq<char>, arch: Option<HostArchitecture>, version: Seq<char>) -> Seq<char> {
    project + "."@ + arch_part(arch) + "."@ + version + ".bld"@
}

/// The file an artifact is stored in.
pub fn artifact_file_name(project: &str, arch: Option<HostArchitecture>, version: &str) -> (r: String)
    ensures
        r@ == artifact_name(project@, arch, version@),
{
    let mut s = project.to_string();
    push_text(&mut s, ".");
    match arch {
        Some(a) => push_text(&mut s, a.as_str()),
        None => push_text(&mut s, "noarch"),
    }
    push_text(&mut s, ".");
    push_text(&mut s, version);
    push_text(&mut s, ".bld");
    s
}

/// The file the deployable form of an artifact is stored in: the artifact's name and `.deployable`.
pub fn services_file_name(project: &str, arch: Option<HostArchitecture>, version: &str) -> (r: String)
    ensures
        r@ == artifact_name(project@, arch, version@) + ".deployable"@,
{
    let mut s = artifact_file_name(project, arch, version);
    push_text(&mut s, ".deployable");
    s
}

/// `project.environment.build.cfg`: the variables set for one project in one environment.
pub fn project_envs_file_name(project: &str, environment: &str) -> (r: String)
    ensures
        r@ == project@ + "."@ + environment@ + ".build.cfg"@,
{
    let mut s = project.to_string();
    push_text(&mut s, ".");
    push_text(&mut s, environment);
    push_text(&mut s, ".build.cfg");
    s
}

/// `environment.build.cfg`: the variables set for every project in one environment.
pub fn global_envs_file_name(environment: &str) -> (r: String)
    ensures
        r@ == environment@ + ".build.cfg"@,
{
    let mut s = environment.to_string();
    push_text(&mut s, ".build.cfg");
    s
}

/// `name.secret`: the file a secret is stored in.
pub fn secret_file_name(secret_name: &str) -> (r: String)
    ensures
        r@ == secret_name@ + ".secret"@,
{
    let mut s = secret_name.to_string();
    push_text(&mut s, ".secret");
    s
}

// ----- paths under the data directory -----

/// `part` joined onto the path `base`, as a Unix path: an absolute `part` replaces `base`;
/// otherwise a `/` separates them unless `base` is empty or already ends with one.
pub open spec fn path_join(base: Seq<char>, part: Seq<char>) -> Seq<char> {
    if part.len() > 0 && part[0] == '/' {
        part
    } else if base.len() == 0 || base.last() == '/' {
        base + part
    } else {
        base + "/"@ + part
    }
}

/// Joins `part` onto the path `base`.
pub fn join_path(base: &str, part: &str) -> (r: String)
    ensures
        r@ == path_join(base@, part@),
{
    proof {
        reveal_strlit("/");
    }
    let pn = part.unicode_len();
    let absolute = pn > 0 && part.get_char(0) == '/';
    if absolute {
        return part.to_string();
    }
    assert(!(part@.len() > 0 && part@[0] == '/'));
    let n = base.unicode_len();
    let mut s = base.to_string();
    let needs_separator = n > 0 && base.get_char(n - 1) != '/';
    if !needs_separator {
        assert(base@.len() == 0 || base@.last() == '/');
        push_text(&mut s, part);
    } else {
        assert(!(base@.len() == 0 || base@.last() == '/'));
        push_text(&mut s, "/");
        push_text(&mut s, part);
    }
    s
}

/// Where artifacts are kept under the data directory `root_dir`.
pub fn artifact_persist_dir(root_dir: &str) -> (r: String)
    ensures
        r@ == path_join(root_dir@, "artifacts-db"@),
{
    join_path(root_dir, "artifacts-db")
}

/// Where environment files are kept under the data directory `root_dir`.
pub fn envs_persist_dir(root_dir: &str) -> (r: String)
    ensures
        r@ == path_join(root_dir@, "envs"@),
{
    join_path(root_dir, "envs")
}

/// Where deployable services are kept under the data directory `root_dir`.
pub fn services_persist_dir(root_dir: &str) -> (r: String)
    ensures
        r@ == path_join(root_dir@, "services-db"@),
{
    join_path(root_dir, "services-db")
}

/// Where service versions are kept under the data directory `root_dir`.
pub fn persist_dir(root_dir: &str) -> (r: String)
    ensures
        r@ == path_join(root_dir@, "services-db"@),
{
    join_path(root_dir, "services-db")
}

/// The file a secret of an environment is stored in, under the data directory `root_dir`.
pub fn secret_file_path(root_dir: &str, environment: &str, secret_name: &str) -> (r: String)
    ensures
        r@ == path_join(path_join(path_join(root_dir@, "secrets-db"@), environment@), secret_name@ + ".secret"@),
{
    let dir = join_path(root_dir, "secrets-db");
    let env_dir = join_path(dir.as_str(), environment);
    let name = secret_file_name(secret_name);
    join_path(env_dir.as_str(), name.as_str())
}

/// `project.version.bld`: the file a service version is stored in.
pub fn service_file_name(project: &str, version: &str) -> (r: String)
    ensures
        r@ == project@ + "."@ + version@ + ".bld"@,
{
    let mut s = project.to_string();
    push_text(&mut s, ".");
    push_text(&mut s, version);
    push_text(&mut s, ".bld");
    s
}

/// One line of an environment file: `key="value"`.
pub fn env_file_line(key: &str, value: &str) -> (r: String)
    ensures
        r@ == key@ + "=\""@ + value@ + "\"\n"@,
{
    let mut s = key.to_string();
    push_text(&mut s, "=\"");
    push_text(&mut s, value);
    push_text(&mut s, "\"\n");
    s
}

/// The TXT record name LetsEncrypt looks up to validate a domain.
pub fn acme_domain(owned_domain: &str) -> (r: String)
    ensures
        r@ == "_acme-challenge."@ + owned_domain@,
{
    let mut s = String::new();
    push_text(&mut s, "_acme-challenge.");
    push_text(&mut s, owned_domain);
    s
}

} // verus!
