//! Unique class-name generation.
//!
//! A generated class name has the form `styled-<token>`, where the token is
//! the decimal rendering of a counter value. The counter is owned by a
//! [`NameGenerator`], a single process-wide state object created at start-up
//! and only ever incremented, so successive names are pairwise distinct.
//!
//! For callers that prefer a call-site-salted token, [`generate_callsite_hash`]
//! derives a 64-bit hash from a call-site identifier and a counter value.

use vstd::prelude::*;

use crate::text::{chars_to_string, str_to_chars};

verus! {

/// The decimal digit character for a value below ten.
pub open spec fn digit_char(d: nat) -> char {
    if d == 0 {
        '0'
    } else if d == 1 {
        '1'
    } else if d == 2 {
        '2'
    } else if d == 3 {
        '3'
    } else if d == 4 {
        '4'
    } else if d == 5 {
        '5'
    } else if d == 6 {
        '6'
    } else if d == 7 {
        '7'
    } else if d == 8 {
        '8'
    } else {
        '9'
    }
}

/// The decimal rendering of `n`, without leading zeros.
pub open spec fn spec_decimal(n: nat) -> Seq<char>
    decreases n,
{
    if n < 10 {
        seq![digit_char(n)]
    } else {
        spec_decimal(n / 10) + seq![digit_char(n % 10)]
    }
}

/// The class name generated from a counter token.
pub open spec fn class_name_spec(token: u64) -> Seq<char> {
    "styled-"@ + spec_decimal(token as nat)
}

proof fn lemma_decimal_len(n: nat)
    ensures
        spec_decimal(n).len() >= 1,
        n >= 10 ==> spec_decimal(n).len() >= 2,
    decreases n,
{
    if n >= 10 {
        lemma_decimal_len(n / 10);
    }
}

/// Decimal renderings are injective: distinct values render distinctly.
pub proof fn lemma_decimal_injective(a: nat, b: nat)
    requires
        spec_decimal(a) == spec_decimal(b),
    ensures
        a == b,
    decreases a,
{
    lemma_decimal_len(a);
    lemma_decimal_len(b);
    if a < 10 && b < 10 {
        assert(spec_decimal(a)[0] == digit_char(a));
        assert(spec_decimal(b)[0] == digit_char(b));
    } else if a < 10 {
        assert(spec_decimal(a).len() == 1);
        assert(spec_decimal(b).len() >= 2);
    } else if b < 10 {
        assert(spec_decimal(a).len() >= 2);
        assert(spec_decimal(b).len() == 1);
    } else {
        let la = spec_decimal(a).len();
        assert(spec_decimal(a).last() == digit_char(a % 10));
        assert(spec_decimal(b).last() == digit_char(b % 10));
        assert(a % 10 == b % 10);
        assert(spec_decimal(a).drop_last() =~= spec_decimal(a / 10));
        assert(spec_decimal(b).drop_last() =~= spec_decimal(b / 10));
        lemma_decimal_injective(a / 10, b / 10);
        assert(a == 10 * (a / 10) + a % 10);
        assert(b == 10 * (b / 10) + b % 10);
    }
}

/// Generated class names are pairwise distinct: names built from distinct
/// counter tokens differ.
pub proof fn lemma_class_names_distinct(t1: u64, t2: u64)
    requires
        t1 != t2,
    ensures
        class_name_spec(t1) != class_name_spec(t2),
{
    reveal_strlit("styled-");
    if class_name_spec(t1) == class_name_spec(t2) {
        let p = "styled-"@.len() as int;
        assert(class_name_spec(t1).skip(p) =~= spec_decimal(t1 as nat));
        assert(class_name_spec(t2).skip(p) =~= spec_decimal(t2 as nat));
        lemma_decimal_injective(t1 as nat, t2 as nat);
    }
}

fn digit_of(d: u64) -> (c: char)
    requires
        d < 10,
    ensures
        c == digit_char(d as nat),
{
    if d == 0 {
        '0'
    } else if d == 1 {
        '1'
    } else if d == 2 {
        '2'
    } else if d == 3 {
        '3'
    } else if d == 4 {
        '4'
    } else if d == 5 {
        '5'
    } else if d == 6 {
        '6'
    } else if d == 7 {
        '7'
    } else if d == 8 {
        '8'
    } else {
        '9'
    }
}

fn decimal_chars(n: u64) -> (v: Vec<char>)
    ensures
        v@ == spec_decimal(n as nat),
    decreases n,
{
    if n < 10 {
        let mut v: Vec<char> = Vec::new();
        v.push(digit_of(n));
        proof {
            assert(v@ =~= seq![digit_char(n as nat)]);
        }
        v
    } else {
        let mut v = decimal_chars(n / 10);
        v.push(digit_of(n % 10));
        proof {
            assert(v@ =~= spec_decimal((n / 10) as nat) + seq![digit_char((n % 10) as nat)]);
            assert((n / 10) as nat == (n as nat) / 10);
            assert((n % 10) as nat == (n as nat) % 10);
        }
        v
    }
}

/// The unique-name generator: one process-wide counter, created at start-up,
/// incremented on every generated name and never reset, so that no two
/// generated names collide.
pub struct NameGenerator {
    pub counter: u64,
}

impl NameGenerator {
    /// A fresh generator whose counter starts at zero.
    pub fn new() -> (g: NameGenerator)
        ensures
            g.counter == 0,
    {
        NameGenerator { counter: 0 }
    }

    /// Generates the next class name, `styled-<counter>`, and advances the
    /// counter so the name is never produced again.
    pub fn generate_class_name(&mut self) -> (r: String)
        requires
            old(self).counter < u64::MAX,
        ensures
            final(self).counter == old(self).counter + 1,
            r@ == class_name_spec(old(self).counter),
    {
        let token = self.counter;
        self.counter = token + 1;
        let mut v = str_to_chars("styled-");
        let digits = decimal_chars(token);
        let mut k: usize = 0;
        while k < digits.len()
            invariant
                k <= digits@.len(),
                v@ == "styled-"@ + digits@.take(k as int),
            decreases digits@.len() - k,
        {
            v.push(digits[k]);
            k = k + 1;
            proof {
                assert("styled-"@ + digits@.take(k as int) =~= ("styled-"@ + digits@.take(
                    k - 1 as int,
                )).push(digits@[k - 1]));
            }
        }
        proof {
            assert("styled-"@ + digits@.take(digits@.len() as int) =~= "styled-"@ + digits@);
        }
        chars_to_string(&v)
    }
}

/// One step of the 64-bit hash: mix a value into the accumulator.
pub open spec fn hash_step(h: u64, x: u64) -> u64 {
    vstd::wrapping::u64_specs::wrapping_mul(h ^ x, 0x100000001b3)
}

/// The hash accumulator after mixing in every character of `s`.
pub open spec fn hash_chars(h: u64, s: Seq<char>) -> u64
    decreases s.len(),
{
    if s.len() == 0 {
        h
    } else {
        hash_chars(hash_step(h, (s[0] as u32) as u64), s.skip(1))
    }
}

/// The call-site hash: a 64-bit hash over the call-site identifier (source
/// file and line) and a counter value.
pub open spec fn callsite_hash_spec(file: Seq<char>, line: u32, counter: u64) -> u64 {
    hash_step(hash_step(hash_chars(0xcbf29ce484222325, file), line as u64), counter)
}

/// Derives a 64-bit token from a call-site identifier and a counter value.
/// The token is a deterministic function of the three arguments.
pub fn generate_callsite_hash(file: &str, line: u32, counter: u64) -> (r: u64)
    ensures
        r == callsite_hash_spec(file@, line, counter),
{
    let chars = str_to_chars(file);
    let mut h: u64 = 0xcbf29ce484222325;
    let mut i: usize = 0;
    proof {
        assert(chars@.skip(0) =~= chars@);
    }
    while i < chars.len()
        invariant
            i <= chars@.len(),
            hash_chars(0xcbf29ce484222325, chars@) == hash_chars(h, chars@.skip(i as int)),
        decreases chars@.len() - i,
    {
        let ghost rest = chars@.skip(i as int);
        let ghost h0 = h;
        let c = chars[i];
        h = (h ^ ((c as u32) as u64)).wrapping_mul(0x100000001b3);
        i = i + 1;
        proof {
            assert(rest[0] == chars@[i - 1]);
            assert(rest.skip(1) =~= chars@.skip(i as int));
            assert(h == hash_step(h0, (rest[0] as u32) as u64));
            assert(hash_chars(h0, rest) == hash_chars(h, rest.skip(1)));
        }
    }
    proof {
        assert(chars@.skip(0) =~= chars@);
        assert(chars@.skip(chars@.len() as int) =~= Seq::<char>::empty());
    }
    let h2 = (h ^ (line as u64)).wrapping_mul(0x100000001b3);
    (h2 ^ counter).wrapping_mul(0x100000001b3)
}

} // verus!
