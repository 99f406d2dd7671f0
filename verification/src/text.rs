//! Character classes and elementary scanning helpers shared by the
//! stylesheet transformations.

use vstd::prelude::*;

verus! {

/// An ASCII decimal digit.
pub open spec fn is_ascii_digit(c: char) -> bool {
    48 <= c as u32 <= 57
}

/// An ASCII letter or decimal digit.
pub open spec fn is_alnum(c: char) -> bool {
    is_ascii_digit(c) || (65 <= c as u32 <= 90) || (97 <= c as u32 <= 122)
}

/// Whitespace as it appears between selector tokens.
pub open spec fn is_space(c: char) -> bool {
    c == ' ' || c == '\t' || c == '\n' || c == '\r'
}

/// A character that may begin a bare selector token.
pub open spec fn is_token_start(c: char) -> bool {
    c == '-' || c == '_' || c == '.' || c == '#' || c == '~'
        || (65 <= c as u32 <= 90) || (97 <= c as u32 <= 122)
}

/// A character that may continue a bare selector token.
pub open spec fn is_token_char(c: char) -> bool {
    c == '-' || c == '_' || is_alnum(c)
}

/// Length of the maximal leading run of alphanumeric characters.
pub open spec fn alnum_run(s: Seq<char>) -> nat
    decreases s.len(),
{
    if s.len() > 0 && is_alnum(s[0]) {
        (1 + alnum_run(s.skip(1))) as nat
    } else {
        0
    }
}

/// Length of the maximal leading run of whitespace characters.
pub open spec fn space_run(s: Seq<char>) -> nat
    decreases s.len(),
{
    if s.len() > 0 && is_space(s[0]) {
        (1 + space_run(s.skip(1))) as nat
    } else {
        0
    }
}

/// Length of the maximal leading run of token characters.
pub open spec fn token_run(s: Seq<char>) -> nat
    decreases s.len(),
{
    if s.len() > 0 && is_token_char(s[0]) {
        (1 + token_run(s.skip(1))) as nat
    } else {
        0
    }
}

pub proof fn lemma_alnum_run_le(s: Seq<char>)
    ensures
        alnum_run(s) <= s.len(),
    decreases s.len(),
{
    if s.len() > 0 && is_alnum(s[0]) {
        lemma_alnum_run_le(s.skip(1));
    }
}

pub proof fn lemma_space_run_le(s: Seq<char>)
    ensures
        space_run(s) <= s.len(),
    decreases s.len(),
{
    if s.len() > 0 && is_space(s[0]) {
        lemma_space_run_le(s.skip(1));
    }
}

pub proof fn lemma_token_run_le(s: Seq<char>)
    ensures
        token_run(s) <= s.len(),
    decreases s.len(),
{
    if s.len() > 0 && is_token_char(s[0]) {
        lemma_token_run_le(s.skip(1));
    }
}

/// A run length is exactly `n` when the first `n` characters satisfy the
/// class and the run cannot be extended.
pub proof fn lemma_alnum_run_is(s: Seq<char>, n: nat)
    requires
        n <= s.len(),
        forall|k: int| 0 <= k < n ==> is_alnum(#[trigger] s[k]),
        n == s.len() || !is_alnum(s[n as int]),
    ensures
        alnum_run(s) == n,
    decreases n,
{
    if n == 0 {
    } else {
        assert(is_alnum(s[0]));
        assert forall|k: int| 0 <= k < n - 1 implies is_alnum(#[trigger] s.skip(1)[k]) by {
            assert(s.skip(1)[k] == s[k + 1]);
        }
        lemma_alnum_run_is(s.skip(1), (n - 1) as nat);
    }
}

pub proof fn lemma_space_run_is(s: Seq<char>, n: nat)
    requires
        n <= s.len(),
        forall|k: int| 0 <= k < n ==> is_space(#[trigger] s[k]),
        n == s.len() || !is_space(s[n as int]),
    ensures
        space_run(s) == n,
    decreases n,
{
    if n == 0 {
    } else {
        assert(is_space(s[0]));
        assert forall|k: int| 0 <= k < n - 1 implies is_space(#[trigger] s.skip(1)[k]) by {
            assert(s.skip(1)[k] == s[k + 1]);
        }
        lemma_space_run_is(s.skip(1), (n - 1) as nat);
    }
}

pub proof fn lemma_token_run_is(s: Seq<char>, n: nat)
    requires
        n <= s.len(),
        forall|k: int| 0 <= k < n ==> is_token_char(#[trigger] s[k]),
        n == s.len() || !is_token_char(s[n as int]),
    ensures
        token_run(s) == n,
    decreases n,
{
    if n == 0 {
    } else {
        assert(is_token_char(s[0]));
        assert forall|k: int| 0 <= k < n - 1 implies is_token_char(#[trigger] s.skip(1)[k]) by {
            assert(s.skip(1)[k] == s[k + 1]);
        }
        lemma_token_run_is(s.skip(1), (n - 1) as nat);
    }
}

pub fn alnum(c: char) -> (b: bool)
    ensures
        b == is_alnum(c),
{
    let n = c as u32;
    (48 <= n && n <= 57) || (65 <= n && n <= 90) || (97 <= n && n <= 122)
}

pub fn space(c: char) -> (b: bool)
    ensures
        b == is_space(c),
{
    c == ' ' || c == '\t' || c == '\n' || c == '\r'
}

pub fn token_start(c: char) -> (b: bool)
    ensures
        b == is_token_start(c),
{
    let n = c as u32;
    c == '-' || c == '_' || c == '.' || c == '#' || c == '~'
        || (65 <= n && n <= 90) || (97 <= n && n <= 122)
}

pub fn token_char(c: char) -> (b: bool)
    ensures
        b == is_token_char(c),
{
    c == '-' || c == '_' || alnum(c)
}

/// Collects the characters of a string slice into a vector.
pub fn str_to_chars(s: &str) -> (v: Vec<char>)
    ensures
        v@ == s@,
{
    let n = s.unicode_len();
    let mut v: Vec<char> = Vec::new();
    let mut i: usize = 0;
    while i < n
        invariant
            i <= n,
            n == s@.len(),
            v@ == s@.take(i as int),
        decreases n - i,
    {
        let c = s.get_char(i);
        v.push(c);
        i = i + 1;
        proof {
            assert(v@ =~= s@.take(i as int));
        }
    }
    proof {
        assert(s@.take(n as int) =~= s@);
    }
    v
}

/// Relies on `String: FromIterator<char>`: collecting characters yields the
/// string whose characters are exactly those characters, in order.
#[verifier::external_body]
pub fn chars_to_string(v: &Vec<char>) -> (r: String)
    ensures
        r@ == v@,
{
    v.iter().collect()
}

/// Appends every character of `tail` to `out`.
pub fn append_chars(out: &mut Vec<char>, tail: &Vec<char>)
    ensures
        final(out)@ == old(out)@ + tail@,
{
    let mut k: usize = 0;
    while k < tail.len()
        invariant
            k <= tail@.len(),
            out@ == old(out)@ + tail@.take(k as int),
        decreases tail@.len() - k,
    {
        out.push(tail[k]);
        k = k + 1;
        proof {
            assert(old(out)@ + tail@.take(k as int) =~= (old(out)@ + tail@.take(
                k - 1 as int,
            )).push(tail@[k - 1]));
        }
    }
    proof {
        assert(old(out)@ + tail@.take(tail@.len() as int) =~= old(out)@ + tail@);
    }
}

} // verus!
