//! The raw-string delimiter decoder: counts the literal's run of hash
//! characters, then copies everything verbatim up to a closing quote
//! followed by an equally long run, performing no escape processing at all.

use vstd::prelude::*;
use crate::text::{chars_to_string, str_suffix_chars};

verus! {

/// Length of the run of hash characters starting at `i`.
pub open spec fn hash_run(s: Seq<char>, i: int) -> int
    decreases s.len() - i,
{
    if i < 0 || i >= s.len() {
        0
    } else if s[i] == '#' {
        1 + hash_run(s, i + 1)
    } else {
        0
    }
}

pub proof fn lemma_hash_run_bounds(s: Seq<char>, i: int)
    requires
        0 <= i <= s.len(),
    ensures
        0 <= hash_run(s, i),
        i + hash_run(s, i) <= s.len(),
    decreases s.len() - i,
{
    if i < s.len() && s[i] == '#' {
        lemma_hash_run_bounds(s, i + 1);
    }
}

/// A run of hashes known character by character fixes `hash_run` across it.
proof fn lemma_hash_run_shift(s: Seq<char>, a: int, j: int)
    requires
        0 <= a <= j <= s.len(),
        forall|k: int| a <= k < j ==> #[trigger] s[k] == '#',
    ensures
        hash_run(s, a) == (j - a) + hash_run(s, j),
    decreases j - a,
{
    if a < j {
        lemma_hash_run_shift(s, a + 1, j);
    }
}

/// The scan of a raw-string body from position `i`, the delimiter being a
/// run of `n_hashes` hash characters. A quote followed by a full run closes
/// the literal; a quote followed by a shorter run and more input is copied
/// literally, run included; a quote whose shorter run meets the end of the
/// input also stops the scan, that tail discarded. `None` marks the one
/// shape the caller must keep out: input exhausted with no quote pending.
pub open spec fn raw_scan(s: Seq<char>, n_hashes: int, i: int) -> Option<Seq<char>>
    decreases s.len() - i,
    when 0 <= i
{
    if i >= s.len() {
        None
    } else if s[i] == '"' {
        let k = hash_run(s, i + 1);
        if k >= n_hashes {
            Some(seq![])
        } else if i + 1 + k >= s.len() {
            Some(seq![])
        } else {
            proof {
                lemma_hash_run_bounds(s, i + 1);
            }
            match raw_scan(s, n_hashes, i + 1 + k) {
                Some(t) => Some(seq!['"'] + Seq::new(k as nat, |q: int| '#') + t),
                None => None,
            }
        }
    } else {
        match raw_scan(s, n_hashes, i + 1) {
            Some(t) => Some(seq![s[i]] + t),
            None => None,
        }
    }
}

/// The decode of a raw-string literal body: the text after the `r` prefix.
/// `None` marks the shapes the caller must keep out: a prefix that is not a
/// hash run followed by an opening quote, or a body that `raw_scan` refuses.
pub open spec fn raw_decode(s: Seq<char>) -> Option<Seq<char>> {
    let nh = hash_run(s, 0);
    if nh < s.len() && s[nh] == '"' {
        raw_scan(s, nh, nh + 1)
    } else {
        None
    }
}

proof fn lemma_raw_verbatim_from(s: Seq<char>, nh: int, content: Seq<char>, j: int)
    requires
        0 <= nh,
        0 <= j <= content.len(),
        s.len() == 2 * nh + 2 + content.len(),
        s[nh] == '"',
        s[nh + 1 + content.len()] == '"',
        forall|k: int| 0 <= k < content.len() ==> s[nh + 1 + k] == #[trigger] content[k],
        forall|k: int| nh + 2 + content.len() <= k < s.len() ==> #[trigger] s[k] == '#',
        forall|k: int| 0 <= k < content.len() ==> #[trigger] content[k] != '"',
    ensures
        raw_scan(s, nh, nh + 1 + j) == Some(content.skip(j)),
    decreases content.len() - j,
{
    if j == content.len() {
        lemma_hash_run_shift(s, nh + 2 + content.len(), s.len() as int);
        assert(hash_run(s, nh + 2 + content.len()) == nh);
        assert(content.skip(j) =~= Seq::<char>::empty());
    } else {
        lemma_raw_verbatim_from(s, nh, content, j + 1);
        assert(s[nh + 1 + j] == content[j]);
        assert(seq![content[j]] + content.skip(j + 1) =~= content.skip(j));
    }
}

/// Law: a raw string performs no processing whatsoever. A literal body made
/// of a hash-run delimiter, an opening quote, content free of quote
/// characters, a closing quote and the matching hash run decodes to exactly
/// that content, whatever it holds — backslashes included.
pub proof fn lemma_raw_verbatim(s: Seq<char>, nh: int, content: Seq<char>)
    requires
        0 <= nh,
        s.len() == 2 * nh + 2 + content.len(),
        forall|k: int| 0 <= k < nh ==> #[trigger] s[k] == '#',
        s[nh] == '"',
        s[nh + 1 + content.len()] == '"',
        forall|k: int| 0 <= k < content.len() ==> s[nh + 1 + k] == #[trigger] content[k],
        forall|k: int| nh + 2 + content.len() <= k < s.len() ==> #[trigger] s[k] == '#',
        forall|k: int| 0 <= k < content.len() ==> #[trigger] content[k] != '"',
    ensures
        raw_decode(s) == Some(content),
{
    lemma_hash_run_shift(s, 0, nh);
    assert(hash_run(s, 0) == nh);
    lemma_raw_verbatim_from(s, nh, content, 0);
    assert(content.skip(0) =~= content);
}

/// Decodes a raw-string literal from its full raw text, whose first
/// character is the `r` prefix marker: the text between the delimiters,
/// copied verbatim. Raw strings have no diagnostics path: the shapes on
/// which the scanner has no defined answer are ruled out by contract.
pub fn parse_raw_str_literal(input: &str) -> (r: String)
    requires
        input@.len() >= 1,
        input@[0] == 'r',
        raw_decode(input@.skip(1)) is Some,
    ensures
        raw_decode(input@.skip(1)) matches Some(t) ==> r@ == t,
{
    let chars = str_suffix_chars(input, 1);
    let ghost body = input@.skip(1);
    let n = chars.len();
    let mut hp: usize = 0;
    while hp < n && chars[hp] == '#'
        invariant
            chars@ == body,
            n == chars.len(),
            body.len() == n,
            hp <= n,
            forall|k: int| 0 <= k < hp ==> #[trigger] body[k] == '#',
        decreases n - hp,
    {
        hp = hp + 1;
    }
    proof {
        lemma_hash_run_shift(body, 0, hp as int);
        assert(hash_run(body, hp as int) == 0);
        assert(hash_run(body, 0) == hp as int);
        assert(hp < n && body[hp as int] == '"');
        assert(raw_scan(body, hp as int, hp as int + 1) is Some);
    }
    let ghost full = raw_scan(body, hp as int, hp as int + 1)->0;
    let mut text: Vec<char> = Vec::new();
    let mut i: usize = hp + 1;
    let mut done: bool = false;
    proof {
        assert(Seq::<char>::empty() + full =~= full);
    }
    while !done
        invariant
            chars@ == body,
            n == chars.len(),
            body.len() == n,
            i <= n,
            !done ==> raw_scan(body, hp as int, i as int) is Some && full == text@ + raw_scan(
                body,
                hp as int,
                i as int,
            )->0,
            done ==> full == text@,
        decreases n - i + (if done {
            0int
        } else {
            1int
        }),
    {
        proof {
            assert(i < n);
        }
        let ghost rest0 = raw_scan(body, hp as int, i as int)->0;
        let c = chars[i];
        if c == '"' {
            let mut k: usize = 0;
            while k < hp && i + 1 + k < n && chars[i + 1 + k] == '#'
                invariant
                    chars@ == body,
                    n == chars.len(),
                    body.len() == n,
                    k <= hp,
                    i < n,
                    i + 1 + k <= n,
                    forall|m: int| i + 1 <= m < i + 1 + k ==> #[trigger] body[m] == '#',
                decreases hp - k,
            {
                k = k + 1;
            }
            proof {
                lemma_hash_run_shift(body, i as int + 1, i as int + 1 + k as int);
                lemma_hash_run_bounds(body, i as int + 1 + k as int);
            }
            let ghost kk = hash_run(body, i as int + 1);
            if k == hp {
                // A full run of hashes: the closing delimiter.
                done = true;
                proof {
                    assert(kk >= hp);
                    assert(rest0 =~= Seq::<char>::empty());
                    assert(full =~= text@);
                }
            } else if i + 1 + k == n {
                // The input ended inside a short hash run: stop with what
                // has been gathered, the pending quote and hashes dropped.
                done = true;
                proof {
                    assert(hash_run(body, i as int + 1 + k as int) == 0);
                    assert(kk == k < hp);
                    assert(rest0 =~= Seq::<char>::empty());
                    assert(full =~= text@);
                }
            } else {
                // A short run with more input after it: the quote and the
                // run are ordinary text.
                proof {
                    assert(body[i as int + 1 + k as int] != '#');
                    assert(hash_run(body, i as int + 1 + k as int) == 0);
                    assert(kk == k < hp);
                }
                let ghost restn = raw_scan(body, hp as int, i as int + 1 + k as int)->0;
                let ghost t0 = text@;
                text.push('"');
                proof {
                    assert(text@ =~= t0 + seq!['"'] + Seq::new(0 as nat, |q: int| '#'));
                }
                let mut m: usize = 0;
                while m < k
                    invariant
                        m <= k,
                        text@ == t0 + seq!['"'] + Seq::new(m as nat, |q: int| '#'),
                    decreases k - m,
                {
                    text.push('#');
                    proof {
                        assert(text@ =~= t0 + seq!['"'] + Seq::new((m + 1) as nat, |q: int| '#'));
                    }
                    m = m + 1;
                }
                i = i + 1 + k;
                proof {
                    assert(rest0 == (seq!['"'] + Seq::new(k as nat, |q: int| '#')) + restn);
                    assert(full =~= text@ + restn) by {
                        assert(full == t0 + rest0);
                        assert(text@ =~= t0 + (seq!['"'] + Seq::new(k as nat, |q: int| '#')));
                        assert(t0 + ((seq!['"'] + Seq::new(k as nat, |q: int| '#')) + restn) =~= (
                        t0 + (seq!['"'] + Seq::new(k as nat, |q: int| '#'))) + restn);
                    }
                }
            }
        } else {
            let ghost restn = raw_scan(body, hp as int, i as int + 1)->0;
            let ghost t0 = text@;
            text.push(c);
            i = i + 1;
            proof {
                assert(t0 + (seq![c] + restn) =~= (t0 + seq![c]) + restn);
                assert(full =~= text@ + restn);
            }
        }
    }
    chars_to_string(&text)
}

} // verus!
