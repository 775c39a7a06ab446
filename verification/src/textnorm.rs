//! Whitespace normalisation shared by the validated document types.
//!
//! Every validated wrapper in this crate trims its input before storing it.
//! The specification side models trimming as a pair of recursive functions
//! over character sequences; `trim_str` is the executable counterpart.

use vstd::prelude::*;
use vstd::string::StrSliceExecFns;

verus! {

/// The Unicode `White_Space` code points, exactly the characters that
/// `char::is_whitespace` recognises.
pub open spec fn is_ws_char(c: char) -> bool {
    c == ' ' || c == '\t' || c == '\n' || c == '\r' || c == '\u{b}' || c == '\u{c}'
        || c == '\u{85}' || c == '\u{a0}' || c == '\u{1680}'
        || (0x2000 <= c as u32 && c as u32 <= 0x200a)
        || c == '\u{2028}' || c == '\u{2029}' || c == '\u{202f}' || c == '\u{205f}'
        || c == '\u{3000}'
}

/// Executable whitespace test agreeing with `is_ws_char`.
pub fn is_ws(c: char) -> (r: bool)
    ensures
        r == is_ws_char(c),
{
    let u = c as u32;
    u == 0x20 || u == 0x09 || u == 0x0a || u == 0x0d || u == 0x0b || u == 0x0c
        || u == 0x85 || u == 0xa0 || u == 0x1680
        || (0x2000 <= u && u <= 0x200a)
        || u == 0x2028 || u == 0x2029 || u == 0x202f || u == 0x205f || u == 0x3000
}

/// The sequence with leading whitespace removed.
pub open spec fn trim_front(s: Seq<char>) -> Seq<char>
    decreases s.len(),
{
    if s.len() == 0 {
        s
    } else if is_ws_char(s[0]) {
        trim_front(s.subrange(1, s.len() as int))
    } else {
        s
    }
}

/// The sequence with trailing whitespace removed.
pub open spec fn trim_back(s: Seq<char>) -> Seq<char>
    decreases s.len(),
{
    if s.len() == 0 {
        s
    } else if is_ws_char(s[s.len() - 1]) {
        trim_back(s.subrange(0, s.len() - 1))
    } else {
        s
    }
}

/// The sequence with both leading and trailing whitespace removed; this is
/// what `str::trim` computes.
pub open spec fn trimmed(s: Seq<char>) -> Seq<char> {
    trim_back(trim_front(s))
}

/// `trim_front` keeps exactly the suffix that starts at the first
/// non-whitespace character.
proof fn lemma_trim_front_range(s: Seq<char>, i: int)
    requires
        0 <= i <= s.len(),
        forall|k: int| 0 <= k < i ==> is_ws_char(s[k]),
        i < s.len() ==> !is_ws_char(s[i]),
    ensures
        trim_front(s) =~= s.subrange(i, s.len() as int),
    decreases i,
{
    if i == 0 {
        if s.len() == 0 {
        } else {
            assert(trim_front(s) == s);
            assert(s.subrange(0, s.len() as int) =~= s);
        }
    } else {
        assert(is_ws_char(s[0]));
        let t = s.subrange(1, s.len() as int);
        lemma_trim_front_range(t, i - 1);
        assert(t.subrange(i - 1, t.len() as int) =~= s.subrange(i, s.len() as int));
    }
}

/// `trim_back` keeps exactly the prefix that ends at the last non-whitespace
/// character.
proof fn lemma_trim_back_range(s: Seq<char>, j: int)
    requires
        0 <= j <= s.len(),
        forall|k: int| j <= k < s.len() ==> is_ws_char(s[k]),
        j > 0 ==> !is_ws_char(s[j - 1]),
    ensures
        trim_back(s) =~= s.subrange(0, j),
    decreases s.len() - j,
{
    if j == s.len() {
        if s.len() == 0 {
        } else {
            assert(trim_back(s) == s);
            assert(s.subrange(0, s.len() as int) =~= s);
        }
    } else {
        assert(is_ws_char(s[s.len() - 1]));
        let t = s.subrange(0, s.len() - 1);
        lemma_trim_back_range(t, j);
    }
}

/// When `trim_front` keeps anything, its first character is not whitespace.
proof fn lemma_trim_front_first(s: Seq<char>)
    ensures
        trim_front(s).len() > 0 ==> !is_ws_char(trim_front(s)[0]),
    decreases s.len(),
{
    if s.len() > 0 && is_ws_char(s[0]) {
        lemma_trim_front_first(s.subrange(1, s.len() as int));
    }
}

/// When `trim_back` keeps anything, its last character is not whitespace.
proof fn lemma_trim_back_last(s: Seq<char>)
    ensures
        trim_back(s).len() > 0 ==> !is_ws_char(trim_back(s)[trim_back(s).len() - 1]),
    decreases s.len(),
{
    if s.len() > 0 && is_ws_char(s[s.len() - 1]) {
        lemma_trim_back_last(s.subrange(0, s.len() - 1));
    }
}

/// `trim_back` only drops characters from the end: the result is a prefix.
proof fn lemma_trim_back_prefix(s: Seq<char>)
    ensures
        trim_back(s).len() <= s.len(),
        trim_back(s) =~= s.subrange(0, trim_back(s).len() as int),
    decreases s.len(),
{
    if s.len() > 0 && is_ws_char(s[s.len() - 1]) {
        let t = s.subrange(0, s.len() - 1);
        lemma_trim_back_prefix(t);
        assert(t.subrange(0, trim_back(t).len() as int) =~= s.subrange(
            0,
            trim_back(t).len() as int,
        ));
    }
}

/// A non-empty trimmed sequence starts and ends with non-whitespace.
pub proof fn lemma_trimmed_edges(s: Seq<char>)
    ensures
        trimmed(s).len() > 0 ==> !is_ws_char(trimmed(s)[0]) && !is_ws_char(
            trimmed(s)[trimmed(s).len() - 1],
        ),
{
    let f = trim_front(s);
    lemma_trim_front_first(s);
    lemma_trim_back_last(f);
    lemma_trim_back_prefix(f);
}

/// Reports whether any character of `s` is whitespace.
pub fn contains_ws(s: &str) -> (r: bool)
    ensures
        r == exists|i: int| 0 <= i < s@.len() && is_ws_char(#[trigger] s@[i]),
{
    let n = s.unicode_len();
    let mut i: usize = 0;
    while i < n
        invariant
            i <= n,
            n == s@.len(),
            forall|k: int| 0 <= k < i ==> !is_ws_char(#[trigger] s@[k]),
        decreases n - i,
    {
        if is_ws(s.get_char(i)) {
            return true;
        }
        i = i + 1;
    }
    false
}

/// Returns `s` with leading and trailing whitespace removed, as an owned
/// string.
pub fn trim_str(s: &str) -> (r: String)
    ensures
        r@ == trimmed(s@),
{
    let n = s.unicode_len();
    let mut i: usize = 0;
    while i < n && is_ws(s.get_char(i))
        invariant
            0 <= i <= n,
            n == s@.len(),
            forall|k: int| 0 <= k < i ==> is_ws_char(s@[k]),
        decreases n - i,
    {
        i = i + 1;
    }
    if i == n {
        proof {
            lemma_trim_front_range(s@, n as int);
            assert(trim_front(s@) =~= Seq::<char>::empty());
            assert(trimmed(s@) =~= Seq::<char>::empty());
        }
        return String::new();
    }
    let mut j: usize = n;
    while j > i && is_ws(s.get_char(j - 1))
        invariant
            i < j <= n,
            n == s@.len(),
            !is_ws_char(s@[i as int]),
            forall|k: int| j <= k < n ==> is_ws_char(s@[k]),
        decreases j,
    {
        j = j - 1;
    }
    let t = s.substring_char(i, j);
    let r = t.to_owned();
    proof {
        lemma_trim_front_range(s@, i as int);
        let sub = s@.subrange(i as int, n as int);
        lemma_trim_back_range(sub, j - i as int);
        assert(sub.subrange(0, j - i as int) =~= s@.subrange(i as int, j as int));
    }
    r
}

} // verus!
