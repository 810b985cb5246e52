//! Character-level helpers shared by the parsers and renderers.
use vstd::prelude::*;
use vstd::string::*;

verus! {

/// No character of `s` is a colon.
pub open spec fn colon_free(s: Seq<char>) -> bool {
    forall|i: int| 0 <= i < s.len() ==> s[i] != ':'
}

/// `i` is the position of the first colon of `s`.
pub open spec fn is_first_colon(s: Seq<char>, i: int) -> bool {
    &&& 0 <= i < s.len()
    &&& s[i] == ':'
    &&& colon_free(s.take(i))
}

/// Splits `s` at its first colon, as `str::splitn(2, ':')` does; `None` when there is no colon.
pub open spec fn split_once(s: Seq<char>) -> Option<(Seq<char>, Seq<char>)> {
    if colon_free(s) {
        None
    } else {
        let i = choose|i: int| is_first_colon(s, i);
        Some((s.take(i), s.skip(i + 1)))
    }
}

pub proof fn lemma_first_colon_exists(s: Seq<char>)
    requires
        !colon_free(s),
    ensures
        exists|i: int| is_first_colon(s, i),
    decreases s.len(),
{
    let j = choose|j: int| 0 <= j < s.len() && s[j] == ':';
    if colon_free(s.take(j)) {
        assert(is_first_colon(s, j));
    } else {
        let t = s.take(j);
        lemma_first_colon_exists(t);
        let k = choose|k: int| is_first_colon(t, k);
        assert(t.take(k) =~= s.take(k));
        assert(is_first_colon(s, k));
    }
}

pub proof fn lemma_split_at_first_colon(s: Seq<char>, i: int)
    requires
        is_first_colon(s, i),
    ensures
        split_once(s) == Some((s.take(i), s.skip(i + 1))),
{
    assert(!colon_free(s));
    let j = choose|j: int| is_first_colon(s, j);
    if j < i {
        assert(s.take(i)[j] == ':');
    } else if j > i {
        assert(s.take(j)[i] == ':');
    }
}

/// Splitting `a + ":" + b` where `a` has no colon gives back `a` and `b`.
pub proof fn lemma_split_concat(a: Seq<char>, b: Seq<char>)
    requires
        colon_free(a),
    ensures
        split_once(a + seq![':'] + b) == Some((a, b)),
{
    let s = a + seq![':'] + b;
    let i = a.len() as int;
    assert(s.take(i) =~= a);
    assert(s.skip(i + 1) =~= b);
    assert(is_first_colon(s, i));
    lemma_split_at_first_colon(s, i);
}

/// Splitting at the first colon loses nothing: the two parts, joined by a colon, give back `s`.
pub proof fn lemma_split_rejoin(s: Seq<char>)
    requires
        split_once(s) is Some,
    ensures
        ({
            let (a, b) = split_once(s)->0;
            s == a + seq![':'] + b
        }),
{
    lemma_first_colon_exists(s);
    let i = choose|i: int| is_first_colon(s, i);
    assert(s =~= s.take(i) + seq![':'] + s.skip(i + 1));
}

/// Finds the first colon of `s`, if any, and returns the text before and after it.
pub fn split_once_exec(s: &str) -> (r: Option<(String, String)>)
    ensures
        match (r, split_once(s@)) {
            (Some((a, b)), Some((x, y))) => a@ == x && b@ == y,
            (None, None) => true,
            _ => false,
        },
{
    let n = s.unicode_len();
    let mut i: usize = 0;
    while i < n
        invariant
            n == s@.len(),
            i <= n,
            colon_free(s@.take(i as int)),
        decreases n - i,
    {
        let c = s.get_char(i);
        if c == ':' {
            proof {
                lemma_split_at_first_colon(s@, i as int);
            }
            let a = s.substring_char(0, i);
            let b = s.substring_char(i + 1, n);
            assert(s@.subrange(0, i as int) =~= s@.take(i as int));
            assert(s@.subrange(i + 1, n as int) =~= s@.skip(i + 1));
            return Some((a.to_string(), b.to_string()));
        }
        assert(s@.take(i + 1) =~= s@.take(i as int).push(c));
        i = i + 1;
    }
    assert(s@.take(n as int) =~= s@);
    None
}

/// Whether `s` holds a colon.
pub fn has_colon(s: &str) -> (r: bool)
    ensures
        r == !colon_free(s@),
{
    let n = s.unicode_len();
    let mut i: usize = 0;
    while i < n
        invariant
            n == s@.len(),
            i <= n,
            forall|j: int| 0 <= j < i ==> s@[j] != ':',
        decreases n - i,
    {
        if s.get_char(i) == ':' {
            return true;
        }
        i = i + 1;
    }
    false
}

/// Whether `a` and `b` hold the same characters.
pub fn str_eq(a: &str, b: &str) -> (r: bool)
    ensures
        r == (a@ == b@),
{
    let n = a.unicode_len();
    if n != b.unicode_len() {
        return false;
    }
    let mut i: usize = 0;
    while i < n
        invariant
            n == a@.len(),
            n == b@.len(),
            i <= n,
            forall|j: int| 0 <= j < i ==> a@[j] == b@[j],
        decreases n - i,
    {
        if a.get_char(i) != b.get_char(i) {
            return false;
        }
        i = i + 1;
    }
    assert(a@ =~= b@);
    true
}

/// A character an HTTP header value may carry as text: a tab or a visible ASCII character.
pub open spec fn header_char(c: char) -> bool {
    c == '\t' || (' ' <= c && c <= '~')
}

/// Whether every character of `s` may stand in an HTTP header value.
pub fn is_header_text(s: &str) -> (r: bool)
    ensures
        r == (forall|i: int| 0 <= i < s@.len() ==> header_char(#[trigger] s@[i])),
{
    let n = s.unicode_len();
    let mut i: usize = 0;
    while i < n
        invariant
            n == s@.len(),
            i <= n,
            forall|j: int| 0 <= j < i ==> header_char(#[trigger] s@[j]),
        decreases n - i,
    {
        let c = s.get_char(i);
        if !(c == '\t' || (' ' <= c && c <= '~')) {
            return false;
        }
        i = i + 1;
    }
    true
}

/// Appends `s` to `buf`.
pub fn push_text(buf: &mut String, s: &str)
    ensures
        final(buf)@ == old(buf)@ + s@,
{
    buf.append(s);
}

} // verus!
