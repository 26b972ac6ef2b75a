//! Character-level helpers: moving between `&str`, `Vec<char>` and `String`,
//! and whitespace trimming.

use vstd::prelude::*;
use vstd::string::StrSliceExecFns;

verus! {

/// The characters of `s` from character index `from` onward, as a vector.
pub fn str_suffix_chars(s: &str, from: usize) -> (r: Vec<char>)
    requires
        from <= s@.len(),
    ensures
        r@ == s@.skip(from as int),
{
    let n = s.unicode_len();
    let mut r: Vec<char> = Vec::new();
    let mut j: usize = from;
    assert(r@ =~= s@.subrange(from as int, from as int));
    while j < n
        invariant
            from <= j <= n,
            n == s@.len(),
            r@ == s@.subrange(from as int, j as int),
        decreases n - j,
    {
        r.push(s.get_char(j));
        assert(r@ =~= s@.subrange(from as int, j + 1));
        j = j + 1;
    }
    assert(r@ =~= s@.skip(from as int));
    r
}

/// Relies on std's `FromIterator` impl for `String` over `char`:
/// collecting an iterator of characters yields the string of exactly
/// those characters, in order.
#[verifier::external_body]
pub(crate) fn chars_to_string(v: &Vec<char>) -> (r: String)
    ensures
        r@ == v@,
{
    v.iter().collect()
}

/// The characters that `char::is_whitespace` recognises, i.e. those with the
/// Unicode `White_Space` property, as its documentation lists them.
pub open spec fn is_trim_whitespace(c: char) -> bool {
    ||| c == '\u{0009}'
    ||| c == '\u{000A}'
    ||| c == '\u{000B}'
    ||| c == '\u{000C}'
    ||| c == '\u{000D}'
    ||| c == '\u{0020}'
    ||| c == '\u{0085}'
    ||| c == '\u{00A0}'
    ||| c == '\u{1680}'
    ||| ('\u{2000}' <= c && c <= '\u{200A}')
    ||| c == '\u{2028}'
    ||| c == '\u{2029}'
    ||| c == '\u{202F}'
    ||| c == '\u{205F}'
    ||| c == '\u{3000}'
}

fn is_trim_whitespace_exec(c: char) -> (b: bool)
    ensures
        b == is_trim_whitespace(c),
{
    c == '\u{0009}' || c == '\u{000A}' || c == '\u{000B}' || c == '\u{000C}' || c == '\u{000D}'
        || c == '\u{0020}' || c == '\u{0085}' || c == '\u{00A0}' || c == '\u{1680}' || ('\u{2000}'
        <= c && c <= '\u{200A}') || c == '\u{2028}' || c == '\u{2029}' || c == '\u{202F}' || c
        == '\u{205F}' || c == '\u{3000}'
}

/// How many leading characters of `s`, from `i` onward, are whitespace.
pub open spec fn leading_ws(s: Seq<char>, i: int) -> int
    decreases s.len() - i,
{
    if i < 0 || i >= s.len() {
        0
    } else if is_trim_whitespace(s[i]) {
        1 + leading_ws(s, i + 1)
    } else {
        0
    }
}

/// How many characters of `s` before index `j` are whitespace, counted from
/// the right.
pub open spec fn trailing_ws(s: Seq<char>, j: int) -> int
    decreases j,
{
    if j <= 0 || j > s.len() {
        0
    } else if is_trim_whitespace(s[j - 1]) {
        1 + trailing_ws(s, j - 1)
    } else {
        0
    }
}

/// `s` with leading and trailing whitespace removed: what `str::trim`
/// documents itself to return.
pub open spec fn trim_spec(s: Seq<char>) -> Seq<char> {
    let a = leading_ws(s, 0);
    if a == s.len() {
        Seq::empty()
    } else {
        s.subrange(a, s.len() - trailing_ws(s, s.len() as int))
    }
}

proof fn lemma_leading_ws_shift(s: Seq<char>, i: int)
    requires
        0 <= i <= s.len(),
        forall|k: int| 0 <= k < i ==> is_trim_whitespace(#[trigger] s[k]),
    ensures
        leading_ws(s, 0) == i + leading_ws(s, i),
    decreases i,
{
    if i > 0 {
        lemma_leading_ws_shift(s, i - 1);
        assert(leading_ws(s, i - 1) == 1 + leading_ws(s, i));
    }
}

proof fn lemma_leading_ws_bounds(s: Seq<char>, i: int)
    requires
        0 <= i <= s.len(),
    ensures
        0 <= leading_ws(s, i),
        i + leading_ws(s, i) <= s.len(),
        forall|k: int| i <= k < i + leading_ws(s, i) ==> is_trim_whitespace(#[trigger] s[k]),
    decreases s.len() - i,
{
    if i < s.len() && is_trim_whitespace(s[i]) {
        lemma_leading_ws_bounds(s, i + 1);
    }
}

proof fn lemma_trailing_ws_shift(s: Seq<char>, j: int)
    requires
        0 <= j <= s.len(),
        forall|k: int| j <= k < s.len() ==> is_trim_whitespace(#[trigger] s[k]),
    ensures
        trailing_ws(s, s.len() as int) == (s.len() - j) + trailing_ws(s, j),
    decreases s.len() - j,
{
    if j < s.len() {
        lemma_trailing_ws_shift(s, j + 1);
    }
}

/// `s` without its leading and trailing whitespace, as `str::trim` returns it.
pub fn trim_str(s: &str) -> (r: String)
    ensures
        r@ == trim_spec(s@),
{
    let chars = str_suffix_chars(s, 0);
    assert(chars@ =~= s@);
    let n = chars.len();
    let mut a: usize = 0;
    while a < n && is_trim_whitespace_exec(chars[a])
        invariant
            0 <= a <= n,
            n == chars.len(),
            chars@ == s@,
            forall|k: int| 0 <= k < a ==> is_trim_whitespace(#[trigger] s@[k]),
        decreases n - a,
    {
        a = a + 1;
    }
    proof {
        lemma_leading_ws_shift(s@, a as int);
        assert(leading_ws(s@, a as int) == 0);
        assert(leading_ws(s@, 0) == a as int);
    }
    if a == n {
        let empty: Vec<char> = Vec::new();
        let r = chars_to_string(&empty);
        assert(r@ =~= trim_spec(s@));
        r
    } else {
        assert(!is_trim_whitespace(s@[a as int]));
        let mut b: usize = n;
        while b > a && is_trim_whitespace_exec(chars[b - 1])
            invariant
                a <= b <= n,
                n == chars.len(),
                chars@ == s@,
                forall|k: int| b <= k < n ==> is_trim_whitespace(#[trigger] s@[k]),
            decreases b,
        {
            b = b - 1;
        }
        // The scan from the right stopped at a non-whitespace character:
        // either at b == a, which the leading scan already saw was not
        // whitespace, or at one found directly.
        proof {
            assert(b > a);
            assert(!is_trim_whitespace(s@[b - 1]));
            lemma_trailing_ws_shift(s@, b as int);
            assert(trailing_ws(s@, b as int) == 0);
            assert(trailing_ws(s@, s@.len() as int) == s@.len() - b);
        }
        let mut out: Vec<char> = Vec::new();
        let mut j: usize = a;
        while j < b
            invariant
                a <= j <= b <= n,
                n == chars.len(),
                chars@ == s@,
                out@ == s@.subrange(a as int, j as int),
            decreases b - j,
        {
            out.push(chars[j]);
            assert(out@ =~= s@.subrange(a as int, j + 1));
            j = j + 1;
        }
        let r = chars_to_string(&out);
        assert(r@ =~= trim_spec(s@));
        r
    }
}

} // verus!
