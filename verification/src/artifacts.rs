//! Building artifacts of the project from a version of its repository.
use vstd::prelude::*;
use crate::text::push_text;

verus! {

/// Why an artifact could not be produced.
#[derive(Debug, Clone, Copy, PartialEq, Eq, Structural)]
pub enum ArtifactBuildError {
    FileLoad,
    Checkout,
    Build,
}

impl ArtifactBuildError {
    /// The error's name.
    pub fn as_str(&self) -> (r: &'static str)
        ensures
            *self == ArtifactBuildError::FileLoad ==> r@ == "FileLoad"@,
            *self == ArtifactBuildError::Checkout ==> r@ == "Checkout"@,
            *self == ArtifactBuildError::Build ==> r@ == "Build"@,
    {
        match self {
            ArtifactBuildError::FileLoad => "FileLoad",
            ArtifactBuildError::Checkout => "Checkout",
            ArtifactBuildError::Build => "Build",
        }
    }
}

/// A request to build a project at a version (a commit).
#[derive(Debug)]
pub struct MakeInput {
    pub project_id: String,
    pub project_version: String,
}

/// The project and version that were built.
#[derive(Debug)]
pub struct MakeOutput {
    pub project_id: String,
    pub project_version: String,
}

/// Where the repository is checked out for a version: `./repos/<version>`.
pub fn artifact_path(project_version: &str) -> (r: String)
    ensures
        r@ == "./repos/"@ + project_version@,
{
    let mut s = String::new();
    push_text(&mut s, "./repos/");
    push_text(&mut s, project_version);
    s
}

/// A step of a build that failed.
#[derive(Debug, Clone, Copy, PartialEq, Eq, Structural)]
pub enum MakeFailure {
    /// The version names no revision of the repository.
    InvalidVersion,
    /// The version names a branch or tag, not a commit.
    NotACommit,
    /// The build tooling could not run.
    BuildFailed,
    /// The archive file could not be created.
    CreateArchive,
    /// The build output could not be added to the archive.
    AppendBuildDir,
    /// The archive could not be written out.
    WriteArchive,
}

/// The answer to a failed build: the version's problems are the caller's (400), the rest are
/// the service's (500).
pub fn make_failure_reply(f: MakeFailure, project_version: &str) -> (r: (u16, String))
    ensures
        f == MakeFailure::InvalidVersion ==> r.0 == 400 && r.1@ == "Invalid version '"@ + project_version@ + "'"@,
        f == MakeFailure::NotACommit ==> r.0 == 400 && r.1@ == "Version must be commit hash."@,
        f == MakeFailure::BuildFailed ==> r.0 == 500 && r.1@ == "Build failure"@,
        f == MakeFailure::CreateArchive ==> r.0 == 500 && r.1@ == "Failed to create tarfile"@,
        f == MakeFailure::AppendBuildDir ==> r.0 == 500 && r.1@ == "Failed to append build dir to tar file"@,
        f == MakeFailure::WriteArchive ==> r.0 == 500 && r.1@ == "Failed to write tarfile"@,
{
    let mut m = String::new();
    match f {
        MakeFailure::InvalidVersion => {
            push_text(&mut m, "Invalid version '");
            push_text(&mut m, project_version);
            push_text(&mut m, "'");
            (400, m)
        },
        MakeFailure::NotACommit => {
            push_text(&mut m, "Version must be commit hash.");
            (400, m)
        },
        MakeFailure::BuildFailed => {
            push_text(&mut m, "Build failure");
            (500, m)
        },
        MakeFailure::CreateArchive => {
            push_text(&mut m, "Failed to create tarfile");
            (500, m)
        },
        MakeFailure::AppendBuildDir => {
            push_text(&mut m, "Failed to append build dir to tar file");
            (500, m)
        },
        MakeFailure::WriteArchive => {
            push_text(&mut m, "Failed to write tarfile");
            (500, m)
        },
    }
}

/// The answer to a successful build: the project and version that were asked for.
pub fn make_output(input: &MakeInput) -> (r: MakeOutput)
    ensures
        r.project_id@ == input.project_id@,
        r.project_version@ == input.project_version@,
{
    MakeOutput { project_id: input.project_id.clone(), project_version: input.project_version.clone() }
}

/// Why deploying a built project to a host failed. The host agent's own status of a failed
/// stop or launch is not carried.
#[derive(Debug, Clone, Copy, PartialEq, Eq, Structural)]
pub enum DeployProjectError {
    /// The artifact could not be built.
    Build(ArtifactBuildError),
    /// The host could not be reached.
    Connect,
    /// The running process could not be stopped.
    Kill,
    /// The new process could not be launched.
    Launch,
}

impl DeployProjectError {
    /// The status and message a failed deployment is answered with; every failure is the
    /// service's own (500).
    pub fn reply(&self) -> (r: (u16, &'static str))
        ensures
            r.0 == 500,
            self is Build ==> r.1@ == "Building artifact failed!"@,
            self is Connect ==> r.1@ == "Failed to connect to dataplane host"@,
            (self is Kill || self is Launch) ==> r.1@ == "Failed to launch new process on dataplane host"@,
    {
        match self {
            DeployProjectError::Build(_) => (500, "Building artifact failed!"),
            DeployProjectError::Connect => (500, "Failed to connect to dataplane host"),
            DeployProjectError::Kill | DeployProjectError::Launch => (500, "Failed to launch new process on dataplane host"),
        }
    }
}

} // verus!
