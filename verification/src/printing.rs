//! The receipt printer: what a printed secret or message looks like, and which requests are
//! refused.
use vstd::prelude::*;
use crate::project_view::{decimal, push_decimal};
use crate::text::{push_text, str_eq};

verus! {

/// Characters per printed line.
pub const LINE_WIDTH: usize = 32;

/// How a secret's content is encoded.
#[derive(Debug, Clone, Copy, PartialEq, Eq, Structural)]
pub enum SecretEncoding {
    String,
    Base64,
}

pub open spec fn encoding_name(e: SecretEncoding) -> Seq<char> {
    match e {
        SecretEncoding::String => "string"@,
        SecretEncoding::Base64 => "base64"@,
    }
}

impl SecretEncoding {
    /// Plain text, unless the request says otherwise.
    pub fn default() -> (r: SecretEncoding)
        ensures
            r == SecretEncoding::String,
    {
        SecretEncoding::String
    }

    /// The encoding's name.
    pub fn as_str(&self) -> (r: &'static str)
        ensures
            r@ == encoding_name(*self),
    {
        match self {
            SecretEncoding::String => "string",
            SecretEncoding::Base64 => "base64",
        }
    }

    /// The encoding named `s`, if any.
    pub fn from_str(s: &str) -> (r: Option<SecretEncoding>)
        ensures
            s@ == "string"@ ==> r == Some(SecretEncoding::String),
            s@ == "base64"@ ==> r == Some(SecretEncoding::Base64),
            s@ != "string"@ && s@ != "base64"@ ==> r is None,
    {
        proof {
            reveal_strlit("string");
            reveal_strlit("base64");
            assert("string"@[0] != "base64"@[0]);
        }
        if str_eq(s, "string") {
            Some(SecretEncoding::String)
        } else if str_eq(s, "base64") {
            Some(SecretEncoding::Base64)
        } else {
            None
        }
    }
}

/// The id a printer error is read back with when its JSON form does not carry one.
pub fn default_error_id() -> (r: &'static str)
    ensures
        r@ == ""@,
{
    proof {
        reveal_strlit("");
    }
    ""
}

/// Why the printer refused a request.
#[derive(Debug)]
pub enum AntPrintingPressError {
    /// A fault on the printer's side; `id` names where it happened.
    InternalServerError { id: String },
    ValidationMessage(String),
}

impl AntPrintingPressError {
    /// 500 for an internal error, 400 for a refused request.
    pub fn status_code(&self) -> (r: u16)
        ensures
            self is InternalServerError ==> r == 500,
            self is ValidationMessage ==> r == 400,
    {
        match self {
            AntPrintingPressError::InternalServerError { .. } => 500,
            AntPrintingPressError::ValidationMessage(_) => 400,
        }
    }

    /// The error as the client sees it: an internal error is reported under the id
    /// `ANT-ERR-125`, whatever happened; a refusal keeps its message.
    pub fn reply(&self) -> (r: AntPrintingPressError)
        ensures
            self is InternalServerError ==> (r matches AntPrintingPressError::InternalServerError { id } && id@
                == "ANT-ERR-125"@),
            self matches AntPrintingPressError::ValidationMessage(m) ==> (r matches AntPrintingPressError::ValidationMessage(
                n,
            ) && n@ == m@),
    {
        match self {
            AntPrintingPressError::InternalServerError { .. } => AntPrintingPressError::InternalServerError {
                id: "ANT-ERR-125".to_string(),
            },
            AntPrintingPressError::ValidationMessage(m) => AntPrintingPressError::ValidationMessage(m.clone()),
        }
    }
}

/// The number of bytes a character takes in UTF-8.
pub open spec fn utf8_width(c: char) -> nat {
    if (c as u32) < 0x80 {
        1
    } else if (c as u32) < 0x800 {
        2
    } else if (c as u32) < 0x10000 {
        3
    } else {
        4
    }
}

/// The number of bytes a text takes in UTF-8.
pub open spec fn utf8_len(s: Seq<char>) -> nat
    decreases s.len(),
{
    if s.len() == 0 {
        0
    } else {
        utf8_len(s.drop_last()) + utf8_width(s.last())
    }
}

/// Whether `s` takes at most `max` bytes in UTF-8.
fn utf8_fits(s: &str, max: usize) -> (r: bool)
    ensures
        r == (utf8_len(s@) <= max),
{
    let n = s.unicode_len();
    let mut total: usize = 0;
    let mut i: usize = 0;
    while i < n
        invariant
            n == s@.len(),
            i <= n,
            total == utf8_len(s@.take(i as int)),
            total <= max,
        decreases n - i,
    {
        let c = s.get_char(i);
        let w: usize = if (c as u32) < 0x80 {
            1
        } else if (c as u32) < 0x800 {
            2
        } else if (c as u32) < 0x10000 {
            3
        } else {
            4
        };
        proof {
            assert(s@.take(i + 1).drop_last() =~= s@.take(i as int));
            assert(s@.take(i + 1).last() == c);
        }
        if w > max - total {
            proof {
                lemma_utf8_len_prefix(s@, i + 1);
            }
            return false;
        }
        total = total + w;
        i = i + 1;
    }
    proof {
        assert(s@.take(n as int) =~= s@);
    }
    true
}

/// A text is at least as long in UTF-8 as any of its prefixes.
proof fn lemma_utf8_len_prefix(s: Seq<char>, k: int)
    requires
        0 <= k <= s.len(),
    ensures
        utf8_len(s.take(k)) <= utf8_len(s),
    decreases s.len() - k,
{
    if k < s.len() {
        lemma_utf8_len_prefix(s, k + 1);
        assert(s.take(k + 1).drop_last() =~= s.take(k));
    } else {
        assert(s.take(k) =~= s);
    }
}

/// The widest secret id that fits on its printed line: the line width less `"id:   "`.
pub open spec fn max_id_len() -> nat {
    26
}

/// Refuses a secret whose id is too long to print: more than 26 bytes.
pub fn check_secret_id(id: &str) -> (r: Result<(), AntPrintingPressError>)
    ensures
        utf8_len(id@) <= max_id_len() ==> r is Ok,
        utf8_len(id@) > max_id_len() ==> (r matches Err(AntPrintingPressError::ValidationMessage(m)) && m@ == "Secret ["@
            + id@ + "] is too long, must be < "@ + decimal(max_id_len()) + " chars"@),
{
    let max_len: usize = LINE_WIDTH - 6;
    if utf8_fits(id, max_len) {
        Ok(())
    } else {
        let mut m = String::new();
        push_text(&mut m, "Secret [");
        push_text(&mut m, id);
        push_text(&mut m, "] is too long, must be < ");
        push_decimal(&mut m, max_len);
        push_text(&mut m, " chars");
        Err(AntPrintingPressError::ValidationMessage(m))
    }
}

/// A full-width rule of `=`.
pub open spec fn rule() -> Seq<char> {
    Seq::new(32, |i: int| '=')
}

fn rule_line() -> (r: String)
    ensures
        r@ == rule(),
{
    let mut s = String::new();
    let mut i: usize = 0;
    proof {
        reveal_strlit("=");
    }
    while i < LINE_WIDTH
        invariant
            i <= LINE_WIDTH,
            s@ == Seq::new(i as nat, |k: int| '='),
        decreases LINE_WIDTH - i,
    {
        push_text(&mut s, "=");
        proof {
            reveal_strlit("=");
            assert(s@ =~= Seq::new((i + 1) as nat, |k: int| '='));
        }
        i = i + 1;
    }
    s
}

/// The lines a secret is printed as: a rule, the heading, the id, the encoding, the content and
/// a closing rule.
pub fn secret_lines(id: &str, encoding: SecretEncoding, content: &str) -> (r: Vec<String>)
    ensures
        r@.len() == 6,
        r@[0]@ == rule(),
        r@[1]@ == "++ typesofants.org secret ++"@,
        r@[2]@ == "id:   "@ + id@,
        r@[3]@ == "type: "@ + encoding_name(encoding),
        r@[4]@ == content@,
        r@[5]@ == rule(),
{
    let mut lines: Vec<String> = Vec::new();
    lines.push(rule_line());
    lines.push("++ typesofants.org secret ++".to_string());
    let mut idl = String::new();
    push_text(&mut idl, "id:   ");
    push_text(&mut idl, id);
    lines.push(idl);
    let mut tl = String::new();
    push_text(&mut tl, "type: ");
    push_text(&mut tl, encoding.as_str());
    lines.push(tl);
    lines.push(content.to_string());
    lines.push(rule_line());
    lines
}

/// The lines a message is printed as: the message between two rules.
pub fn wrapped_lines(body: &str) -> (r: Vec<String>)
    ensures
        r@.len() == 3,
        r@[0]@ == rule(),
        r@[1]@ == body@,
        r@[2]@ == rule(),
{
    let mut lines: Vec<String> = Vec::new();
    lines.push(rule_line());
    lines.push(body.to_string());
    lines.push(rule_line());
    lines
}

} // verus!
