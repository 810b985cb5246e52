//! The custom headers a build host sends along with an artifact.
use vstd::prelude::*;
use crate::arch::{HostArchitecture, parse_arch, arch_name};
use crate::text::{header_char, is_header_text};

verus! {

/// A header value was missing or could not be read.
#[derive(Debug, Clone, Copy, PartialEq, Eq)]
pub struct InvalidHeader;

/// A header value can be read as text when every character is a tab or visible ASCII.
pub open spec fn readable(s: Seq<char>) -> bool {
    forall|i: int| 0 <= i < s.len() ==> header_char(#[trigger] s[i])
}

/// The ASCII lower-case form of a character: `A` to `Z` become `a` to `z`; every other
/// character stays as it is.
pub open spec fn ascii_lower(c: char) -> char {
    if 'A' <= c && c <= 'Z' {
        ((c as u32) + 32) as char
    } else {
        c
    }
}

/// The text with its ASCII letters lower-cased. On readable header text, which holds ASCII
/// only, this is what `str::to_lowercase` gives.
pub open spec fn ascii_lowercase(s: Seq<char>) -> Seq<char> {
    s.map_values(|c: char| ascii_lower(c))
}

fn lower_char(c: char) -> (r: char)
    ensures
        r == ascii_lower(c),
{
    if 'A' <= c && c <= 'Z' {
        (((c as u32) + 32) as u8) as char
    } else {
        c
    }
}

/// Whether `v`, lower-cased, is exactly `name`.
fn lower_eq(v: &str, name: &str) -> (r: bool)
    ensures
        r == (ascii_lowercase(v@) == name@),
{
    let n = v.unicode_len();
    if n != name.unicode_len() {
        proof {
            if ascii_lowercase(v@) == name@ {
                assert(ascii_lowercase(v@).len() == v@.len());
            }
        }
        return false;
    }
    let mut i: usize = 0;
    while i < n
        invariant
            n == v@.len(),
            n == name@.len(),
            i <= n,
            forall|j: int| 0 <= j < i ==> ascii_lower(#[trigger] v@[j]) == name@[j],
        decreases n - i,
    {
        if lower_char(v.get_char(i)) != name.get_char(i) {
            proof {
                assert(ascii_lowercase(v@)[i as int] != name@[i as int]);
            }
            return false;
        }
        i = i + 1;
    }
    assert(ascii_lowercase(v@) =~= name@);
    true
}

/// The architecture that `v` names once lower-cased, by its canonical name or an alias.
fn parse_arch_lowered(v: &str) -> (r: Option<HostArchitecture>)
    ensures
        r == parse_arch(ascii_lowercase(v@)),
{
    if lower_eq(v, "x86_64") || lower_eq(v, "x86") {
        Some(HostArchitecture::X86_64)
    } else if lower_eq(v, "aarch64") || lower_eq(v, "arm64") {
        Some(HostArchitecture::Aarch64)
    } else if lower_eq(v, "armv7") || lower_eq(v, "raspbian") {
        Some(HostArchitecture::ArmV7)
    } else {
        None
    }
}

/// The `x-ant-project` header: the project an artifact belongs to.
pub struct XAntProjectHeader(pub String);

/// The `x-ant-version` header: the build version of an artifact.
pub struct XAntVersionHeader(pub String);

/// The `x-ant-architecture` header: the architecture an artifact was built for, if any.
pub struct XAntArchitectureHeader(pub Option<HostArchitecture>);

/// Reads the first value of a required text header.
fn decode_text(first: Option<&str>) -> (r: Result<String, InvalidHeader>)
    ensures
        match first {
            None => r is Err,
            Some(v) => match r {
                Ok(s) => readable(v@) && s@ == v@,
                Err(_) => !readable(v@),
            },
        },
{
    match first {
        None => Err(InvalidHeader),
        Some(v) => {
            if is_header_text(v) {
                Ok(v.to_string())
            } else {
                Err(InvalidHeader)
            }
        },
    }
}

impl XAntProjectHeader {
    /// The header's name.
    pub fn name() -> (r: &'static str)
        ensures
            r@ == "x-ant-project"@,
    {
        "x-ant-project"
    }

    /// Reads the header from its first value: missing or unreadable text is refused.
    pub fn decode(first: Option<&str>) -> (r: Result<XAntProjectHeader, InvalidHeader>)
        ensures
            match first {
                None => r is Err,
                Some(v) => match r {
                    Ok(h) => readable(v@) && h.0@ == v@,
                    Err(_) => !readable(v@),
                },
            },
    {
        match decode_text(first) {
            Ok(s) => Ok(XAntProjectHeader(s)),
            Err(e) => Err(e),
        }
    }

    /// The value the header is sent with.
    pub fn encode(&self) -> (r: &str)
        ensures
            r@ == self.0@,
    {
        self.0.as_str()
    }
}

impl XAntVersionHeader {
    /// The header's name.
    pub fn name() -> (r: &'static str)
        ensures
            r@ == "x-ant-version"@,
    {
        "x-ant-version"
    }

    /// Reads the header from its first value: missing or unreadable text is refused.
    pub fn decode(first: Option<&str>) -> (r: Result<XAntVersionHeader, InvalidHeader>)
        ensures
            match first {
                None => r is Err,
                Some(v) => match r {
                    Ok(h) => readable(v@) && h.0@ == v@,
                    Err(_) => !readable(v@),
                },
            },
    {
        match decode_text(first) {
            Ok(s) => Ok(XAntVersionHeader(s)),
            Err(e) => Err(e),
        }
    }

    /// The value the header is sent with.
    pub fn encode(&self) -> (r: &str)
        ensures
            r@ == self.0@,
    {
        self.0.as_str()
    }
}

/// The architecture a present header value names once lower-cased.
pub open spec fn decoded_arch(v: Seq<char>) -> Option<HostArchitecture> {
    if readable(v) {
        parse_arch(ascii_lowercase(v))
    } else {
        None
    }
}

impl XAntArchitectureHeader {
    /// The header's name.
    pub fn name() -> (r: &'static str)
        ensures
            r@ == "x-ant-architecture"@,
    {
        "x-ant-architecture"
    }

    /// Reads the header: a missing header means no architecture; a present one must name an
    /// architecture once lower-cased.
    pub fn decode(first: Option<&str>) -> (r: Result<XAntArchitectureHeader, InvalidHeader>)
        ensures
            match first {
                None => r matches Ok(h) && h.0 is None,
                Some(v) => match (r, decoded_arch(v@)) {
                    (Ok(h), Some(a)) => h.0 == Some(a),
                    (Err(_), None) => true,
                    _ => false,
                },
            },
    {
        match first {
            None => Ok(XAntArchitectureHeader(None)),
            Some(v) => {
                if !is_header_text(v) {
                    return Err(InvalidHeader);
                }
                match parse_arch_lowered(v) {
                    Some(a) => Ok(XAntArchitectureHeader(Some(a))),
                    None => Err(InvalidHeader),
                }
            },
        }
    }

    /// The value the header is sent with: the architecture's name, or nothing.
    pub fn encode(&self) -> (r: Option<&'static str>)
        ensures
            match self.0 {
                None => r is None,
                Some(a) => r matches Some(s) && s@ == arch_name(a),
            },
    {
        match &self.0 {
            None => None,
            Some(a) => Some(a.as_str()),
        }
    }
}

} // verus!
