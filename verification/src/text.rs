//! Character-level text helpers: whitespace classification, conversion
//! between strings and character vectors, string comparison, and the two
//! end-trimming operations the renderer needs.

use vstd::prelude::*;
use vstd::string::StrSliceExecFns;

verus! {

/// A whitespace character, as the normalizer and trimming rules count them:
/// the ASCII whitespace set.
pub open spec fn is_ws_char(c: char) -> bool {
    c == ' ' || c == '\t' || c == '\r' || c == '\n' || c == '\u{b}' || c == '\u{c}'
}

/// Every character of `s` is whitespace.
pub open spec fn all_ws(s: Seq<char>) -> bool {
    forall|i: int| 0 <= i < s.len() ==> is_ws_char(s[i])
}

/// A character stripped from both ends of a text node rendered outside of a
/// `pre` element: line breaks and the section-sign anchor marker.
pub open spec fn is_text_trim_char(c: char) -> bool {
    c == '\n' || c == '\r' || c == '\u{a7}'
}

/// `s` with its leading whitespace characters removed.
pub open spec fn trim_ws_start(s: Seq<char>) -> Seq<char>
    decreases s.len(),
{
    if s.len() > 0 && is_ws_char(s[0]) {
        trim_ws_start(s.drop_first())
    } else {
        s
    }
}

/// `s` with its trailing whitespace characters removed.
pub open spec fn trim_ws_end(s: Seq<char>) -> Seq<char>
    decreases s.len(),
{
    if s.len() > 0 && is_ws_char(s.last()) {
        trim_ws_end(s.drop_last())
    } else {
        s
    }
}

/// `s` with its leading text-trim characters removed.
pub open spec fn trim_text_start(s: Seq<char>) -> Seq<char>
    decreases s.len(),
{
    if s.len() > 0 && is_text_trim_char(s[0]) {
        trim_text_start(s.drop_first())
    } else {
        s
    }
}

/// `s` with its trailing text-trim characters removed.
pub open spec fn trim_text_end(s: Seq<char>) -> Seq<char>
    decreases s.len(),
{
    if s.len() > 0 && is_text_trim_char(s.last()) {
        trim_text_end(s.drop_last())
    } else {
        s
    }
}

/// If the first `a` characters of `s` are whitespace and the character at `a`
/// (if any) is not, then trimming leading whitespace yields `s` from `a` on.
pub proof fn lemma_trim_ws_start_idx(s: Seq<char>, a: int)
    requires
        0 <= a <= s.len(),
        forall|k: int| 0 <= k < a ==> is_ws_char(s[k]),
        a < s.len() ==> !is_ws_char(s[a]),
    ensures
        trim_ws_start(s) == s.skip(a),
    decreases a,
{
    if a == 0 {
        assert(s.skip(0) =~= s);
    } else {
        lemma_trim_ws_start_idx(s.drop_first(), a - 1);
        assert(s.drop_first().skip(a - 1) =~= s.skip(a));
    }
}

/// If the characters of `s` from `b` on are whitespace and the character just
/// before `b` (if any) is not, then trimming trailing whitespace yields the
/// first `b` characters of `s`.
pub proof fn lemma_trim_ws_end_idx(s: Seq<char>, b: int)
    requires
        0 <= b <= s.len(),
        forall|k: int| b <= k < s.len() ==> is_ws_char(s[k]),
        b > 0 ==> !is_ws_char(s[b - 1]),
    ensures
        trim_ws_end(s) == s.take(b),
    decreases s.len(),
{
    if b == s.len() {
        if s.len() > 0 && is_ws_char(s.last()) {
        } else {
            assert(s.take(b) =~= s);
        }
    } else {
        lemma_trim_ws_end_idx(s.drop_last(), b);
        assert(s.drop_last().take(b) =~= s.take(b));
    }
}

/// The counterpart of `lemma_trim_ws_start_idx` for the text-trim set.
pub proof fn lemma_trim_text_start_idx(s: Seq<char>, a: int)
    requires
        0 <= a <= s.len(),
        forall|k: int| 0 <= k < a ==> is_text_trim_char(s[k]),
        a < s.len() ==> !is_text_trim_char(s[a]),
    ensures
        trim_text_start(s) == s.skip(a),
    decreases a,
{
    if a == 0 {
        assert(s.skip(0) =~= s);
    } else {
        lemma_trim_text_start_idx(s.drop_first(), a - 1);
        assert(s.drop_first().skip(a - 1) =~= s.skip(a));
    }
}

/// The counterpart of `lemma_trim_ws_end_idx` for the text-trim set.
pub proof fn lemma_trim_text_end_idx(s: Seq<char>, b: int)
    requires
        0 <= b <= s.len(),
        forall|k: int| b <= k < s.len() ==> is_text_trim_char(s[k]),
        b > 0 ==> !is_text_trim_char(s[b - 1]),
    ensures
        trim_text_end(s) == s.take(b),
    decreases s.len(),
{
    if b == s.len() {
        if s.len() > 0 && is_text_trim_char(s.last()) {
        } else {
            assert(s.take(b) =~= s);
        }
    } else {
        lemma_trim_text_end_idx(s.drop_last(), b);
        assert(s.drop_last().take(b) =~= s.take(b));
    }
}

/// Whether `c` is a whitespace character.
pub fn ws_char(c: char) -> (r: bool)
    ensures
        r == is_ws_char(c),
{
    c == ' ' || c == '\t' || c == '\r' || c == '\n' || c == '\u{b}' || c == '\u{c}'
}

/// Whether `c` is stripped from the ends of a text node rendered outside of
/// `pre`.
pub fn text_trim_char(c: char) -> (r: bool)
    ensures
        r == is_text_trim_char(c),
{
    c == '\n' || c == '\r' || c == '\u{a7}'
}

/// The characters of `s`, in order, as a vector.
pub fn str_to_chars(s: &str) -> (r: Vec<char>)
    ensures
        r@ == s@,
{
    let n = s.unicode_len();
    let mut r: Vec<char> = Vec::new();
    let mut i: usize = 0;
    while i < n
        invariant
            n == s@.len(),
            i <= n,
            r@ == s@.take(i as int),
        decreases n - i,
    {
        r.push(s.get_char(i));
        i = i + 1;
        proof {
            assert(r@ =~= s@.take(i as int));
        }
    }
    proof {
        assert(s@.take(n as int) =~= s@);
    }
    r
}

/// Relies on `String`'s `FromIterator<char>` (through `Iterator::collect`):
/// the resulting string holds exactly the given characters, in order.
#[verifier::external_body]
pub fn chars_to_string(v: &Vec<char>) -> (r: String)
    ensures
        r@ == v@,
{
    v.iter().collect()
}

/// Whether two string slices hold the same characters.
pub fn str_eq(a: &str, b: &str) -> (r: bool)
    ensures
        r == (a@ == b@),
{
    let na = a.unicode_len();
    let nb = b.unicode_len();
    if na != nb {
        return false;
    }
    let mut i: usize = 0;
    while i < na
        invariant
            na == a@.len(),
            na == b@.len(),
            i <= na,
            forall|k: int| 0 <= k < i ==> a@[k] == b@[k],
        decreases na - i,
    {
        if a.get_char(i) != b.get_char(i) {
            return false;
        }
        i = i + 1;
    }
    proof {
        assert(a@ =~= b@);
    }
    true
}

/// `s` with line breaks and section signs stripped from both ends: how a text
/// node outside of a `pre` element is rendered.
pub fn trim_text(s: &str) -> (r: &str)
    ensures
        r@ == trim_text_end(trim_text_start(s@)),
{
    let n = s.unicode_len();
    let mut a: usize = 0;
    while a < n && text_trim_char(s.get_char(a))
        invariant
            n == s@.len(),
            a <= n,
            forall|k: int| 0 <= k < a ==> is_text_trim_char(s@[k]),
        decreases n - a,
    {
        a = a + 1;
    }
    let mut b: usize = n;
    while b > a && text_trim_char(s.get_char(b - 1))
        invariant
            n == s@.len(),
            a <= b <= n,
            forall|k: int| b <= k < n ==> is_text_trim_char(s@[k]),
        decreases b,
    {
        b = b - 1;
    }
    proof {
        lemma_trim_text_start_idx(s@, a as int);
        lemma_trim_text_end_idx(s@.skip(a as int), b - a);
        assert(s@.skip(a as int).take(b - a) =~= s@.subrange(a as int, b as int));
    }
    s.substring_char(a, b)
}

/// Whitespace trimmed from the start of a line.
pub fn trim_line_start(l: &Vec<char>) -> (r: Vec<char>)
    ensures
        r@ == trim_ws_start(l@),
{
    let n = l.len();
    let mut a: usize = 0;
    while a < n && ws_char(l[a])
        invariant
            n == l@.len(),
            a <= n,
            forall|k: int| 0 <= k < a ==> is_ws_char(l@[k]),
        decreases n - a,
    {
        a = a + 1;
    }
    let mut r: Vec<char> = Vec::new();
    let mut j: usize = a;
    while j < n
        invariant
            n == l@.len(),
            a <= j <= n,
            r@ == l@.subrange(a as int, j as int),
        decreases n - j,
    {
        r.push(l[j]);
        j = j + 1;
        proof {
            assert(l@.subrange(a as int, j as int) =~= l@.subrange(a as int, j - 1).push(
                l@[j - 1],
            ));
        }
    }
    proof {
        lemma_trim_ws_start_idx(l@, a as int);
    }
    r
}

/// Whitespace trimmed from the end of a line.
pub fn trim_line_end(l: &Vec<char>) -> (r: Vec<char>)
    ensures
        r@ == trim_ws_end(l@),
{
    let n = l.len();
    let mut b: usize = n;
    while b > 0 && ws_char(l[b - 1])
        invariant
            n == l@.len(),
            b <= n,
            forall|k: int| b <= k < n ==> is_ws_char(l@[k]),
        decreases b,
    {
        b = b - 1;
    }
    let mut r: Vec<char> = Vec::new();
    let mut j: usize = 0;
    while j < b
        invariant
            n == l@.len(),
            j <= b <= n,
            r@ == l@.subrange(0, j as int),
        decreases b - j,
    {
        r.push(l[j]);
        j = j + 1;
        proof {
            assert(l@.subrange(0, j as int) =~= l@.subrange(0, j - 1).push(l@[j - 1]));
        }
    }
    proof {
        lemma_trim_ws_end_idx(l@, b as int);
    }
    r
}

/// Whether the characters of `v` spell exactly the string `s`.
pub fn vec_eq_str(v: &Vec<char>, s: &str) -> (r: bool)
    ensures
        r == (v@ == s@),
{
    let n = s.unicode_len();
    if v.len() != n {
        return false;
    }
    let mut i: usize = 0;
    while i < n
        invariant
            n == s@.len(),
            n == v@.len(),
            i <= n,
            forall|k: int| 0 <= k < i ==> v@[k] == s@[k],
        decreases n - i,
    {
        if v[i] != s.get_char(i) {
            return false;
        }
        i = i + 1;
    }
    proof {
        assert(v@ =~= s@);
    }
    true
}

} // verus!
