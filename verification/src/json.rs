//! Compact JSON text for strings, as the deployment records store them.
use vstd::prelude::*;
use crate::text::push_text;

verus! {

/// The lower-case hexadecimal digits.
pub open spec fn hex_digits() -> Seq<char> {
    "0123456789abcdef"@
}

/// How one character is written inside a JSON string: quote and backslash are escaped, the
/// control characters below U+0020 use their short escapes where JSON has one and `\u00XX`
/// otherwise, and every other character is written as it is.
pub open spec fn escape_char(c: char) -> Seq<char> {
    if c == '"' {
        seq!['\\', '"']
    } else if c == '\\' {
        seq!['\\', '\\']
    } else if c == '\n' {
        seq!['\\', 'n']
    } else if c == '\r' {
        seq!['\\', 'r']
    } else if c == '\t' {
        seq!['\\', 't']
    } else if c == '\u{8}' {
        seq!['\\', 'b']
    } else if c == '\u{c}' {
        seq!['\\', 'f']
    } else if (c as u32) < 0x20 {
        seq!['\\', 'u', '0', '0', hex_digits()[(c as u32 / 16) as int], hex_digits()[(c as u32 % 16) as int]]
    } else {
        seq![c]
    }
}

/// The escaped characters of `s`, in order.
pub open spec fn escape(s: Seq<char>) -> Seq<char>
    decreases s.len(),
{
    if s.len() == 0 {
        Seq::empty()
    } else {
        escape(s.drop_last()) + escape_char(s.last())
    }
}

/// `s` as a JSON string literal.
pub open spec fn json_str(s: Seq<char>) -> Seq<char> {
    seq!['"'] + escape(s) + seq!['"']
}

/// Appends the escaped form of `c`, the character at `i` of `s`.
fn push_escaped_char(buf: &mut String, s: &str, i: usize)
    requires
        i < s@.len(),
    ensures
        final(buf)@ == old(buf)@ + escape_char(s@[i as int]),
{
    let _len = s.unicode_len();
    let c = s.get_char(i);
    proof {
        reveal_strlit("\\\"");
        reveal_strlit("\\\\");
        reveal_strlit("\\n");
        reveal_strlit("\\r");
        reveal_strlit("\\t");
        reveal_strlit("\\b");
        reveal_strlit("\\f");
        reveal_strlit("\\u00");
        reveal_strlit("0123456789abcdef");
    }
    if c == '"' {
        push_text(buf, "\\\"");
    } else if c == '\\' {
        push_text(buf, "\\\\");
    } else if c == '\n' {
        push_text(buf, "\\n");
    } else if c == '\r' {
        push_text(buf, "\\r");
    } else if c == '\t' {
        push_text(buf, "\\t");
    } else if c == '\u{8}' {
        push_text(buf, "\\b");
    } else if c == '\u{c}' {
        push_text(buf, "\\f");
    } else if (c as u32) < 0x20 {
        let code: u32 = c as u32;
        let digits = "0123456789abcdef";
        let hi: usize = (code / 16) as usize;
        let lo: usize = (code % 16) as usize;
        push_text(buf, "\\u00");
        push_text(buf, digits.substring_char(hi, hi + 1));
        push_text(buf, digits.substring_char(lo, lo + 1));
        proof {
            assert(digits@.subrange(hi as int, hi + 1) =~= seq![hex_digits()[hi as int]]);
            assert(digits@.subrange(lo as int, lo + 1) =~= seq![hex_digits()[lo as int]]);
            assert("\\u00"@ =~= seq!['\\', 'u', '0', '0']);
        }
    } else {
        push_text(buf, s.substring_char(i, i + 1));
        assert(s@.subrange(i as int, i + 1) =~= seq![c]);
    }
    proof {
        assert("\\\""@ =~= seq!['\\', '"']);
        assert("\\\\"@ =~= seq!['\\', '\\']);
        assert("\\n"@ =~= seq!['\\', 'n']);
        assert("\\r"@ =~= seq!['\\', 'r']);
        assert("\\t"@ =~= seq!['\\', 't']);
        assert("\\b"@ =~= seq!['\\', 'b']);
        assert("\\f"@ =~= seq!['\\', 'f']);
    }
}

/// Appends `s` as a JSON string literal.
pub fn push_json_str(buf: &mut String, s: &str)
    ensures
        final(buf)@ == old(buf)@ + json_str(s@),
{
    let ghost start = buf@;
    proof {
        reveal_strlit("\"");
    }
    push_text(buf, "\"");
    let n = s.unicode_len();
    let mut i: usize = 0;
    while i < n
        invariant
            n == s@.len(),
            i <= n,
            buf@ == start + seq!['"'] + escape(s@.take(i as int)),
        decreases n - i,
    {
        push_escaped_char(buf, s, i);
        proof {
            assert(s@.take(i + 1).drop_last() =~= s@.take(i as int));
            assert(s@.take(i + 1).last() == s@[i as int]);
        }
        i = i + 1;
    }
    assert(s@.take(n as int) =~= s@);
    push_text(buf, "\"");
    assert(buf@ =~= start + json_str(s@));
}

/// `s` as a JSON string literal.
pub fn json_string(s: &str) -> (r: String)
    ensures
        r@ == json_str(s@),
{
    let mut buf = String::new();
    push_json_str(&mut buf, s);
    assert(buf@ =~= json_str(s@));
    buf
}

} // verus!
