//! Host CPU architectures and the environments a service is deployed to.
use vstd::prelude::*;
use crate::text::str_eq;

verus! {

/// The CPU architecture of a host, and so of the artifact built for it.
#[derive(Debug, Clone, Copy, PartialEq, Eq, Structural, Hash)]
pub enum HostArchitecture {
    X86_64,
    Aarch64,
    ArmV7,
}

/// The canonical name of an architecture.
pub open spec fn arch_name(a: HostArchitecture) -> Seq<char> {
    match a {
        HostArchitecture::X86_64 => "x86_64"@,
        HostArchitecture::Aarch64 => "aarch64"@,
        HostArchitecture::ArmV7 => "armv7"@,
    }
}

/// The architecture a name stands for: its canonical name, or the alias a build host sends
/// (`x86` for x86_64, `arm64` for aarch64, `raspbian` for armv7).
pub open spec fn parse_arch(s: Seq<char>) -> Option<HostArchitecture> {
    if s == "x86_64"@ || s == "x86"@ {
        Some(HostArchitecture::X86_64)
    } else if s == "aarch64"@ || s == "arm64"@ {
        Some(HostArchitecture::Aarch64)
    } else if s == "armv7"@ || s == "raspbian"@ {
        Some(HostArchitecture::ArmV7)
    } else {
        None
    }
}

impl HostArchitecture {
    /// The canonical name.
    pub fn as_str(&self) -> (r: &'static str)
        ensures
            r@ == arch_name(*self),
    {
        match self {
            HostArchitecture::X86_64 => "x86_64",
            HostArchitecture::Aarch64 => "aarch64",
            HostArchitecture::ArmV7 => "armv7",
        }
    }

    /// The architecture named by `s`, if any; names are matched exactly, case included.
    pub fn from_str(s: &str) -> (r: Option<HostArchitecture>)
        ensures
            r == parse_arch(s@),
    {
        if str_eq(s, "x86_64") || str_eq(s, "x86") {
            Some(HostArchitecture::X86_64)
        } else if str_eq(s, "aarch64") || str_eq(s, "arm64") {
            Some(HostArchitecture::Aarch64)
        } else if str_eq(s, "armv7") || str_eq(s, "raspbian") {
            Some(HostArchitecture::ArmV7)
        } else {
            None
        }
    }
}

/// Every name maps back to its architecture.
pub proof fn lemma_parse_arch_name(a: HostArchitecture)
    ensures
        parse_arch(arch_name(a)) == Some(a),
{
    reveal_strlit("x86_64");
    reveal_strlit("x86");
    reveal_strlit("aarch64");
    reveal_strlit("arm64");
    reveal_strlit("armv7");
    reveal_strlit("raspbian");
    match a {
        HostArchitecture::X86_64 => {},
        HostArchitecture::Aarch64 => {
            assert("aarch64"@ != "x86_64"@ && "aarch64"@ != "x86"@) by {
                assert("aarch64"@[0] != "x86_64"@[0]);
                assert("aarch64"@[0] != "x86"@[0]);
            }
        },
        HostArchitecture::ArmV7 => {
            assert("armv7"@[0] != "x86_64"@[0]);
            assert("armv7"@[0] != "x86"@[0]);
            assert("armv7"@.len() != "aarch64"@.len());
            assert("armv7"@[1] != "arm64"@[1] || "armv7"@[3] != "arm64"@[3]);
        },
    }
}

/// The environments a service runs in.
#[derive(Debug, Clone, Copy, PartialEq, Eq, Structural, Hash)]
pub enum ServiceEnv {
    Dev,
    Beta,
    Prod,
}

/// The name of an environment.
pub open spec fn env_name(e: ServiceEnv) -> Seq<char> {
    match e {
        ServiceEnv::Dev => "dev"@,
        ServiceEnv::Beta => "beta"@,
        ServiceEnv::Prod => "prod"@,
    }
}

impl ServiceEnv {
    /// The environment's name.
    pub fn as_str(&self) -> (r: &'static str)
        ensures
            r@ == env_name(*self),
    {
        match self {
            ServiceEnv::Dev => "dev",
            ServiceEnv::Beta => "beta",
            ServiceEnv::Prod => "prod",
        }
    }

    /// The environment's name, owned.
    pub fn to_string(&self) -> (r: String)
        ensures
            r@ == env_name(*self),
    {
        self.as_str().to_string()
    }
}

} // verus!
