//! Small text helpers the rest of the library is built on.
use vstd::prelude::*;

verus! {

/// Do the two texts hold the same characters?
pub fn str_eq(a: &str, b: &str) -> (r: bool)
    ensures
        r == (a@ == b@),
{
    let n = a.unicode_len();
    if n != b.unicode_len() {
        return false;
    }
    let mut i: usize = 0;
    while i < n
        invariant
            n == a@.len(),
            n == b@.len(),
            i <= n,
            forall|j: int| 0 <= j < i ==> a@[j] == b@[j],
        decreases n - i,
    {
        if a.get_char(i) != b.get_char(i) {
            return false;
        }
        i = i + 1;
    }
    proof {
        assert(a@ =~= b@);
    }
    true
}

/// Does `s` start with `p`?
pub fn starts_with(s: &str, p: &str) -> (r: bool)
    ensures
        r == (p@.len() <= s@.len() && s@.subrange(0, p@.len() as int) == p@),
{
    let n = p.unicode_len();
    if n > s.unicode_len() {
        return false;
    }
    let mut i: usize = 0;
    while i < n
        invariant
            n == p@.len(),
            n <= s@.len(),
            i <= n,
            forall|j: int| 0 <= j < i ==> s@[j] == p@[j],
        decreases n - i,
    {
        if s.get_char(i) != p.get_char(i) {
            proof {
                assert(s@.subrange(0, n as int)[i as int] != p@[i as int]);
            }
            return false;
        }
        i = i + 1;
    }
    proof {
        assert(s@.subrange(0, n as int) =~= p@);
    }
    true
}


/// The characters Rust's `trim` removes: Unicode White_Space.
pub open spec fn is_ws(c: char) -> bool {
    c == '\t' || c == '\n' || c == '\x0B' || c == '\x0C' || c == '\r' || c == ' ' || c == '\u{85}'
        || c == '\u{A0}' || c == '\u{1680}' || ('\u{2000}' <= c && c <= '\u{200A}') || c == '\u{2028}'
        || c == '\u{2029}' || c == '\u{202F}' || c == '\u{205F}' || c == '\u{3000}'
}

pub(crate) fn char_is_ws(c: char) -> (b: bool)
    ensures
        b == is_ws(c),
{
    c == '\t' || c == '\n' || c == '\x0B' || c == '\x0C' || c == '\r' || c == ' ' || c == '\u{85}'
        || c == '\u{A0}' || c == '\u{1680}' || ('\u{2000}' <= c && c <= '\u{200A}') || c == '\u{2028}'
        || c == '\u{2029}' || c == '\u{202F}' || c == '\u{205F}' || c == '\u{3000}'
}

/// Where the text starts once leading whitespace is left out.
pub open spec fn trim_start_at(s: Seq<char>) -> int
    decreases s.len(),
{
    if s.len() == 0 || !is_ws(s[0]) {
        0
    } else {
        1 + trim_start_at(s.subrange(1, s.len() as int))
    }
}

/// Where the text ends once trailing whitespace is left out.
pub open spec fn trim_end_at(s: Seq<char>) -> int
    decreases s.len(),
{
    if s.len() == 0 || !is_ws(s.last()) {
        s.len() as int
    } else {
        trim_end_at(s.drop_last())
    }
}

/// The text without leading and trailing whitespace (what `str::trim` gives).
pub open spec fn spec_trim(s: Seq<char>) -> Seq<char> {
    let e = trim_end_at(s);
    let t = s.subrange(0, e);
    t.subrange(trim_start_at(t), e)
}

proof fn lemma_trim_start_bounds(s: Seq<char>)
    ensures
        0 <= trim_start_at(s) <= s.len(),
        forall|i: int| 0 <= i < trim_start_at(s) ==> is_ws(#[trigger] s[i]),
        trim_start_at(s) < s.len() ==> !is_ws(s[trim_start_at(s)]),
    decreases s.len(),
{
    if s.len() > 0 && is_ws(s[0]) {
        let r = s.subrange(1, s.len() as int);
        lemma_trim_start_bounds(r);
        assert forall|i: int| 0 <= i < trim_start_at(s) implies is_ws(#[trigger] s[i]) by {
            if i > 0 {
                assert(s[i] == r[i - 1]);
            }
        }
    }
}

proof fn lemma_trim_end_bounds(s: Seq<char>)
    ensures
        0 <= trim_end_at(s) <= s.len(),
        forall|i: int| trim_end_at(s) <= i < s.len() ==> is_ws(#[trigger] s[i]),
        trim_end_at(s) > 0 ==> !is_ws(s[trim_end_at(s) - 1]),
    decreases s.len(),
{
    if s.len() > 0 && is_ws(s.last()) {
        let r = s.drop_last();
        lemma_trim_end_bounds(r);
        assert forall|i: int| trim_end_at(s) <= i < s.len() implies is_ws(#[trigger] s[i]) by {
            if i < s.len() - 1 {
                assert(s[i] == r[i]);
            }
        }
    }
}

/// The start of the trimmed text, found from the front.
proof fn lemma_trim_start_unique(s: Seq<char>, k: int)
    requires
        0 <= k <= s.len(),
        forall|i: int| 0 <= i < k ==> is_ws(#[trigger] s[i]),
        k < s.len() ==> !is_ws(s[k]),
    ensures
        trim_start_at(s) == k,
    decreases s.len(),
{
    if s.len() > 0 && is_ws(s[0]) {
        let r = s.subrange(1, s.len() as int);
        assert forall|i: int| 0 <= i < k - 1 implies is_ws(#[trigger] r[i]) by {
            assert(r[i] == s[i + 1]);
        }
        if k < s.len() {
            assert(r[k - 1] == s[k]);
        }
        lemma_trim_start_unique(r, k - 1);
    }
}

/// The end of the trimmed text, found from the back.
proof fn lemma_trim_end_unique(s: Seq<char>, k: int)
    requires
        0 <= k <= s.len(),
        forall|i: int| k <= i < s.len() ==> is_ws(#[trigger] s[i]),
        k > 0 ==> !is_ws(s[k - 1]),
    ensures
        trim_end_at(s) == k,
    decreases s.len(),
{
    if s.len() > 0 && is_ws(s.last()) {
        let r = s.drop_last();
        assert forall|i: int| k <= i < r.len() implies is_ws(#[trigger] r[i]) by {
            assert(r[i] == s[i]);
        }
        if k > 0 {
            assert(r[k - 1] == s[k - 1]);
        }
        lemma_trim_end_unique(r, k);
    }
}

/// The text without leading and trailing whitespace.
pub fn trim(s: &str) -> (r: String)
    ensures
        r@ == spec_trim(s@),
{
    let n = s.unicode_len();
    let mut e = n;
    while e > 0 && char_is_ws(s.get_char(e - 1))
        invariant
            n == s@.len(),
            e <= n,
            forall|i: int| e <= i < n ==> is_ws(#[trigger] s@[i]),
        decreases e,
    {
        e = e - 1;
    }
    let mut b: usize = 0;
    while b < e && char_is_ws(s.get_char(b))
        invariant
            n == s@.len(),
            e <= n,
            b <= e,
            forall|i: int| 0 <= i < b ==> is_ws(#[trigger] s@[i]),
        decreases e - b,
    {
        b = b + 1;
    }
    proof {
        lemma_trim_end_unique(s@, e as int);
        let t = s@.subrange(0, e as int);
        assert forall|i: int| 0 <= i < b implies is_ws(#[trigger] t[i]) by {
            assert(t[i] == s@[i]);
        }
        if b < e {
            assert(t[b as int] == s@[b as int]);
        }
        lemma_trim_start_unique(t, b as int);
        assert(t.subrange(b as int, e as int) =~= s@.subrange(b as int, e as int));
    }
    String::from_str(s.substring_char(b, e))
}

/// Appends one character (String::push).
#[verifier::external_body]
pub(crate) fn push_char(s: &mut String, c: char)
    ensures
        final(s)@ == old(s)@.push(c),
{
    s.push(c);
}

} // verus!
