//! The selector rewriter: the textual transformations applied to the
//! stylesheet text that the styling engine produced.
//!
//! Three transformations, applied in this order:
//! 1. every placeholder class token (a fixed prefix followed by a maximal run
//!    of alphanumeric characters) is replaced by the real class name;
//! 2. a single space is inserted wherever a pixel unit is immediately
//!    followed by a hyphen (`<digit>px-`), a known defect of the engine;
//! 3. a run of scoping-class selectors followed by a bare selector token is
//!    swapped so the token comes first, immediately concatenated with the
//!    scoping classes.

use vstd::prelude::*;

use crate::text::{
    alnum, alnum_run, append_chars, chars_to_string, is_alnum, is_ascii_digit, is_space,
    is_token_char, is_token_start, lemma_alnum_run_is, lemma_alnum_run_le, lemma_space_run_is,
    lemma_space_run_le, lemma_token_run_is, lemma_token_run_le, space, space_run, str_to_chars,
    token_char, token_run, token_start,
};

verus! {

// ------------------------------------------------------------------
// Placeholder substitution
// ------------------------------------------------------------------

/// Length of the placeholder token at the front of `s`: the prefix followed
/// by a maximal, non-empty run of alphanumeric characters; `0` when no
/// placeholder starts here.
pub open spec fn placeholder_match_len(s: Seq<char>, prefix: Seq<char>) -> nat {
    if prefix.is_prefix_of(s) {
        let run = alnum_run(s.skip(prefix.len() as int));
        if run > 0 {
            (prefix.len() + run) as nat
        } else {
            0
        }
    } else {
        0
    }
}

pub proof fn lemma_placeholder_match_len_le(s: Seq<char>, prefix: Seq<char>)
    ensures
        placeholder_match_len(s, prefix) <= s.len(),
{
    if prefix.is_prefix_of(s) {
        lemma_alnum_run_le(s.skip(prefix.len() as int));
    }
}

/// The substituted text: scanning left to right, each placeholder token is
/// replaced by `name` and every other character is kept.
pub open spec fn spec_substitute(s: Seq<char>, prefix: Seq<char>, name: Seq<char>) -> Seq<char>
    decreases s.len(),
    when prefix.len() >= 1
    via spec_substitute_decreases
{
    if s.len() == 0 {
        Seq::empty()
    } else {
        let m = placeholder_match_len(s, prefix);
        if m > 0 {
            name + spec_substitute(s.skip(m as int), prefix, name)
        } else {
            seq![s[0]] + spec_substitute(s.skip(1), prefix, name)
        }
    }
}

#[via_fn]
proof fn spec_substitute_decreases(s: Seq<char>, prefix: Seq<char>, name: Seq<char>) {
    lemma_placeholder_match_len_le(s, prefix);
}

/// Some placeholder token starts somewhere in `s`.
pub open spec fn contains_placeholder(s: Seq<char>, prefix: Seq<char>) -> bool {
    exists|i: int| 0 <= i <= s.len() && placeholder_match_len(#[trigger] s.skip(i), prefix) > 0
}

/// Length of the placeholder match starting at offset `i` of `text`,
/// computed executably.
fn match_placeholder_at(text: &Vec<char>, i: usize, prefix: &Vec<char>) -> (m: usize)
    requires
        i <= text@.len(),
        prefix@.len() >= 1,
    ensures
        m == placeholder_match_len(text@.skip(i as int), prefix@),
        i + m <= text@.len(),
{
    proof {
        lemma_placeholder_match_len_le(text@.skip(i as int), prefix@);
    }
    if text.len() - i < prefix.len() {
        proof {
            assert(!prefix@.is_prefix_of(text@.skip(i as int)));
        }
        return 0;
    }
    let mut j: usize = 0;
    while j < prefix.len()
        invariant
            j <= prefix@.len(),
            i + prefix@.len() <= text@.len(),
            text@.len() <= usize::MAX,
            forall|k: int| 0 <= k < j ==> text@[i + k] == prefix@[k],
        decreases prefix@.len() - j,
    {
        if text[i + j] != prefix[j] {
            proof {
                assert(text@.skip(i as int)[j as int] == text@[i + j]);
                assert(!prefix@.is_prefix_of(text@.skip(i as int)));
            }
            return 0;
        }
        j = j + 1;
    }
    proof {
        assert forall|k: int| 0 <= k < prefix@.len() implies #[trigger] text@.skip(i as int)[k]
            == prefix@[k] by {
            assert(text@.skip(i as int)[k] == text@[i + k]);
        }
        assert(text@.skip(i as int).subrange(0, prefix@.len() as int) =~= prefix@);
        assert(prefix@.is_prefix_of(text@.skip(i as int)));
    }
    let base = i + prefix.len();
    let mut r: usize = 0;
    while base + r < text.len() && alnum(text[base + r])
        invariant
            base == i + prefix@.len(),
            base + r <= text@.len(),
            text@.len() <= usize::MAX,
            forall|k: int| 0 <= k < r ==> is_alnum(#[trigger] text@[base + k]),
        decreases text@.len() - base - r,
    {
        r = r + 1;
    }
    proof {
        let rest = text@.skip(base as int);
        assert forall|k: int| 0 <= k < r implies is_alnum(#[trigger] rest[k]) by {
            assert(rest[k] == text@[base + k]);
        }
        if base + r < text@.len() {
            assert(rest[r as int] == text@[base + r]);
        }
        lemma_alnum_run_is(rest, r as nat);
        assert(text@.skip(i as int).skip(prefix@.len() as int) =~= rest);
    }
    if r == 0 {
        0
    } else {
        prefix.len() + r
    }
}

/// Replaces every placeholder token in `text` by `name`.
fn substitute_vec(text: &Vec<char>, prefix: &Vec<char>, name: &Vec<char>) -> (out: Vec<char>)
    requires
        prefix@.len() >= 1,
    ensures
        out@ == spec_substitute(text@, prefix@, name@),
{
    let mut out: Vec<char> = Vec::new();
    let mut i: usize = 0;
    proof {
        assert(text@.skip(0) =~= text@);
        assert(Seq::<char>::empty() + spec_substitute(text@, prefix@, name@) =~= spec_substitute(
            text@,
            prefix@,
            name@,
        ));
    }
    while i < text.len()
        invariant
            prefix@.len() >= 1,
            i <= text@.len(),
            spec_substitute(text@, prefix@, name@) == out@ + spec_substitute(
                text@.skip(i as int),
                prefix@,
                name@,
            ),
        decreases text@.len() - i,
    {
        let ghost rest = text@.skip(i as int);
        let ghost out0 = out@;
        let m = match_placeholder_at(text, i, prefix);
        if m > 0 {
            append_chars(&mut out, name);
            i = i + m;
            proof {
                assert(rest.skip(m as int) =~= text@.skip(i as int));
                assert(spec_substitute(rest, prefix@, name@) == name@ + spec_substitute(
                    text@.skip(i as int),
                    prefix@,
                    name@,
                ));
                assert(out0 + (name@ + spec_substitute(text@.skip(i as int), prefix@, name@))
                    =~= (out0 + name@) + spec_substitute(text@.skip(i as int), prefix@, name@));
            }
        } else {
            out.push(text[i]);
            i = i + 1;
            proof {
                assert(rest[0] == text@[i - 1]);
                assert(rest.skip(1) =~= text@.skip(i as int));
                assert(spec_substitute(rest, prefix@, name@) == seq![rest[0]] + spec_substitute(
                    text@.skip(i as int),
                    prefix@,
                    name@,
                ));
                assert(out0 + (seq![rest[0]] + spec_substitute(text@.skip(i as int), prefix@,
                    name@)) =~= out0.push(rest[0]) + spec_substitute(
                    text@.skip(i as int),
                    prefix@,
                    name@,
                ));
            }
        }
    }
    proof {
        assert(text@.skip(text@.len() as int) =~= Seq::<char>::empty());
        assert(out@ + Seq::<char>::empty() =~= out@);
    }
    out
}

/// Replaces every occurrence of the placeholder pattern — `placeholder_prefix`
/// followed by a maximal, non-empty run of alphanumeric characters — in `text`
/// by `class_name`. Text without the pattern is returned unchanged.
pub fn substitute_placeholder(text: &str, placeholder_prefix: &str, class_name: &str) -> (r:
    String)
    requires
        placeholder_prefix@.len() >= 1,
    ensures
        r@ == spec_substitute(text@, placeholder_prefix@, class_name@),
{
    let t = str_to_chars(text);
    let p = str_to_chars(placeholder_prefix);
    let n = str_to_chars(class_name);
    let out = substitute_vec(&t, &p, &n);
    chars_to_string(&out)
}

/// Text in which no placeholder token starts anywhere is left untouched by
/// the substitution.
pub proof fn lemma_substitute_no_placeholder(s: Seq<char>, prefix: Seq<char>, name: Seq<char>)
    requires
        prefix.len() >= 1,
        !contains_placeholder(s, prefix),
    ensures
        spec_substitute(s, prefix, name) == s,
    decreases s.len(),
{
    if s.len() == 0 {
        assert(spec_substitute(s, prefix, name) =~= s);
    } else {
        assert(placeholder_match_len(s.skip(0), prefix) == 0) by {
            assert(s.skip(0) =~= s);
            if placeholder_match_len(s, prefix) > 0 {
                assert(placeholder_match_len(s.skip(0), prefix) > 0);
            }
        }
        assert(placeholder_match_len(s, prefix) == 0) by {
            assert(s.skip(0) =~= s);
        }
        assert(!contains_placeholder(s.skip(1), prefix)) by {
            if contains_placeholder(s.skip(1), prefix) {
                let i = choose|i: int|
                    0 <= i <= s.skip(1).len() && placeholder_match_len(
                        #[trigger] s.skip(1).skip(i),
                        prefix,
                    ) > 0;
                assert(s.skip(1).skip(i) =~= s.skip(i + 1));
                assert(placeholder_match_len(s.skip(i + 1), prefix) > 0);
            }
        }
        lemma_substitute_no_placeholder(s.skip(1), prefix, name);
        assert(seq![s[0]] + s.skip(1) =~= s);
    }
}

/// The first placeholder token of the text is replaced: when no token starts
/// before position `i` and one of length `m` starts at `i`, the substituted
/// text keeps the first `i` characters, emits `name`, and continues with the
/// substitution of what follows the token.
#[verifier::rlimit(50)]
pub proof fn lemma_substitute_first_match(
    s: Seq<char>,
    prefix: Seq<char>,
    name: Seq<char>,
    i: int,
)
    requires
        prefix.len() >= 1,
        0 <= i <= s.len(),
        forall|j: int| 0 <= j < i ==> placeholder_match_len(#[trigger] s.skip(j), prefix) == 0,
        placeholder_match_len(s.skip(i), prefix) > 0,
    ensures
        spec_substitute(s, prefix, name) == s.take(i) + name + spec_substitute(
            s.skip(i + placeholder_match_len(s.skip(i), prefix)),
            prefix,
            name,
        ),
    decreases i,
{
    let m = placeholder_match_len(s.skip(i), prefix) as int;
    lemma_placeholder_match_len_le(s.skip(i), prefix);
    if i == 0 {
        assert(s.skip(0) =~= s);
        assert(placeholder_match_len(s, prefix) == m);
        assert(s.take(0) =~= Seq::<char>::empty());
        assert(s.take(0) + name =~= name);
    } else {
        assert(placeholder_match_len(s.skip(0), prefix) == 0);
        assert(s.skip(0) =~= s);
        assert(placeholder_match_len(s, prefix) == 0);
        assert(s.len() > 0);
        let t = s.skip(1);
        assert forall|j: int| 0 <= j < i - 1 implies placeholder_match_len(
            #[trigger] t.skip(j),
            prefix,
        ) == 0 by {
            assert(t.skip(j) =~= s.skip(j + 1));
        }
        assert(t.skip(i - 1) =~= s.skip(i));
        lemma_substitute_first_match(t, prefix, name, i - 1);
        assert(t.skip(i - 1 + m) =~= s.skip(i + m));
        assert(seq![s[0]] + (t.take(i - 1) + name + spec_substitute(s.skip(i + m), prefix, name))
            =~= s.take(i) + name + spec_substitute(s.skip(i + m), prefix, name));
    }
}

// ------------------------------------------------------------------
// Pixel-unit defect fix
// ------------------------------------------------------------------

/// The engine's pixel defect starts at the front of `s`: a digit, then `px`,
/// then a hyphen with no intervening separator.
pub open spec fn px_defect_front(s: Seq<char>) -> bool {
    s.len() >= 4 && is_ascii_digit(s[0]) && s[1] == 'p' && s[2] == 'x' && s[3] == '-'
}

/// The repaired text: a single space is inserted between `px` and the hyphen
/// at every occurrence of the defect pattern.
pub open spec fn spec_fix_px(s: Seq<char>) -> Seq<char>
    decreases s.len(),
{
    if s.len() == 0 {
        Seq::empty()
    } else if px_defect_front(s) {
        seq![s[0], 'p', 'x', ' '] + spec_fix_px(s.skip(3))
    } else {
        seq![s[0]] + spec_fix_px(s.skip(1))
    }
}

/// The defect pattern occurs somewhere in `s`.
pub open spec fn contains_px_defect(s: Seq<char>) -> bool {
    exists|i: int| 0 <= i <= s.len() && px_defect_front(#[trigger] s.skip(i))
}

fn fix_px_vec(text: &Vec<char>) -> (out: Vec<char>)
    ensures
        out@ == spec_fix_px(text@),
{
    let mut out: Vec<char> = Vec::new();
    let mut i: usize = 0;
    proof {
        assert(text@.skip(0) =~= text@);
        assert(Seq::<char>::empty() + spec_fix_px(text@) =~= spec_fix_px(text@));
    }
    while i < text.len()
        invariant
            i <= text@.len(),
            spec_fix_px(text@) == out@ + spec_fix_px(text@.skip(i as int)),
        decreases text@.len() - i,
    {
        let ghost rest = text@.skip(i as int);
        let ghost out0 = out@;
        let defect = text.len() - i >= 4 && {
            let d = text[i] as u32;
            48 <= d && d <= 57 && text[i + 1] == 'p' && text[i + 2] == 'x' && text[i + 3] == '-'
        };
        proof {
            assert(rest.len() == text@.len() - i);
            if rest.len() >= 4 {
                assert(rest[0] == text@[i as int]);
                assert(rest[1] == text@[i + 1]);
                assert(rest[2] == text@[i + 2]);
                assert(rest[3] == text@[i + 3]);
            }
            assert(defect == px_defect_front(rest));
        }
        if defect {
            out.push(text[i]);
            out.push('p');
            out.push('x');
            out.push(' ');
            i = i + 3;
            proof {
                assert(rest.skip(3) =~= text@.skip(i as int));
                assert(out@ =~= out0 + seq![rest[0], 'p', 'x', ' ']);
                assert(out0 + (seq![rest[0], 'p', 'x', ' '] + spec_fix_px(text@.skip(i as int)))
                    =~= out@ + spec_fix_px(text@.skip(i as int)));
            }
        } else {
            out.push(text[i]);
            i = i + 1;
            proof {
                assert(rest[0] == text@[i - 1]);
                assert(rest.skip(1) =~= text@.skip(i as int));
                assert(out0 + (seq![rest[0]] + spec_fix_px(text@.skip(i as int))) =~= out@
                    + spec_fix_px(text@.skip(i as int)));
            }
        }
    }
    proof {
        assert(text@.skip(text@.len() as int) =~= Seq::<char>::empty());
        assert(out@ + Seq::<char>::empty() =~= out@);
    }
    out
}

/// Inserts a single space between a pixel unit and an immediately following
/// hyphen (`<digit>px-` becomes `<digit>px -`), at every occurrence. Text
/// without the defect pattern is returned unchanged.
pub fn fix_px_units(text: &str) -> (r: String)
    ensures
        r@ == spec_fix_px(text@),
{
    let t = str_to_chars(text);
    let out = fix_px_vec(&t);
    chars_to_string(&out)
}

// ------------------------------------------------------------------
// Scoping-selector swap
// ------------------------------------------------------------------

/// A scoping-class selector segment: a dot followed by the class name.
pub open spec fn seg_of(class: Seq<char>) -> Seq<char> {
    seq!['.'] + class
}

/// `n` copies of `seg`, concatenated.
pub open spec fn repeat_seg(seg: Seq<char>, n: nat) -> Seq<char>
    decreases n,
{
    if n == 0 {
        Seq::empty()
    } else {
        repeat_seg(seg, (n - 1) as nat) + seg
    }
}

/// Count and total length of the leading groups of whitespace followed by a
/// further `seg`, as they continue a run of scoping-class segments.
pub open spec fn seg_run_extra(s: Seq<char>, seg: Seq<char>) -> (nat, nat)
    decreases s.len(),
    via seg_run_extra_decreases
{
    let w = space_run(s);
    if w >= 1 && seg.is_prefix_of(s.skip(w as int)) {
        let rest = seg_run_extra(s.skip((w + seg.len()) as int), seg);
        ((1 + rest.0) as nat, (w + seg.len() + rest.1) as nat)
    } else {
        (0, 0)
    }
}

#[via_fn]
proof fn seg_run_extra_decreases(s: Seq<char>, seg: Seq<char>) {
    lemma_space_run_le(s);
}

pub proof fn lemma_seg_run_extra_le(s: Seq<char>, seg: Seq<char>)
    ensures
        seg_run_extra(s, seg).0 <= seg_run_extra(s, seg).1,
        seg_run_extra(s, seg).1 <= s.len(),
    decreases s.len(),
{
    let w = space_run(s);
    lemma_space_run_le(s);
    if w >= 1 && seg.is_prefix_of(s.skip(w as int)) {
        lemma_seg_run_extra_le(s.skip((w + seg.len()) as int), seg);
    }
}

/// The swap pattern at the front of `s`: a run of one or more scoping-class
/// segments separated by whitespace, then whitespace, then a bare selector
/// token. The result is the consumed length together with the replacement:
/// the token immediately followed by the segments, with no spaces.
pub open spec fn swap_match_at(s: Seq<char>, class: Seq<char>) -> Option<(nat, Seq<char>)> {
    let seg = seg_of(class);
    if seg.is_prefix_of(s) {
        let extra = seg_run_extra(s.skip(seg.len() as int), seg);
        let count = (1 + extra.0) as nat;
        let runlen = (seg.len() + extra.1) as nat;
        let after = s.skip(runlen as int);
        let w = space_run(after);
        if w >= 1 && w < after.len() && is_token_start(after[w as int]) {
            let toklen = (1 + token_run(after.skip((w + 1) as int))) as nat;
            Some(
                (
                    (runlen + w + toklen) as nat,
                    after.subrange(w as int, (w + toklen) as int) + repeat_seg(seg, count),
                ),
            )
        } else {
            None
        }
    } else {
        None
    }
}

pub proof fn lemma_swap_match_le(s: Seq<char>, class: Seq<char>)
    ensures
        match swap_match_at(s, class) {
            Some(m) => 1 <= m.0 <= s.len(),
            None => true,
        },
{
    let seg = seg_of(class);
    if seg.is_prefix_of(s) {
        lemma_seg_run_extra_le(s.skip(seg.len() as int), seg);
        let extra = seg_run_extra(s.skip(seg.len() as int), seg);
        let runlen = (seg.len() + extra.1) as nat;
        let after = s.skip(runlen as int);
        let w = space_run(after);
        lemma_space_run_le(after);
        if w >= 1 && w < after.len() && is_token_start(after[w as int]) {
            lemma_token_run_le(after.skip((w + 1) as int));
        }
    }
}

/// The swapped text: scanning left to right, each occurrence of the swap
/// pattern is replaced and every other character is kept.
pub open spec fn spec_swap(s: Seq<char>, class: Seq<char>) -> Seq<char>
    decreases s.len(),
    via spec_swap_decreases
{
    if s.len() == 0 {
        Seq::empty()
    } else {
        match swap_match_at(s, class) {
            Some(m) => m.1 + spec_swap(s.skip(m.0 as int), class),
            None => seq![s[0]] + spec_swap(s.skip(1), class),
        }
    }
}

#[via_fn]
proof fn spec_swap_decreases(s: Seq<char>, class: Seq<char>) {
    lemma_swap_match_le(s, class);
}

/// Length of the maximal whitespace run starting at offset `i` of `text`.
fn space_run_at(text: &Vec<char>, i: usize) -> (w: usize)
    requires
        i <= text@.len(),
    ensures
        w == space_run(text@.skip(i as int)),
        i + w <= text@.len(),
{
    let mut k: usize = i;
    while k < text.len() && space(text[k])
        invariant
            i <= k <= text@.len(),
            forall|m: int| i <= m < k ==> is_space(#[trigger] text@[m]),
        decreases text@.len() - k,
    {
        k = k + 1;
    }
    proof {
        let rest = text@.skip(i as int);
        assert forall|m: int| 0 <= m < k - i implies is_space(#[trigger] rest[m]) by {
            assert(rest[m] == text@[i + m]);
        }
        if k < text@.len() {
            assert(rest[k - i] == text@[k as int]);
        }
        lemma_space_run_is(rest, (k - i) as nat);
    }
    k - i
}

/// Length of the maximal token-character run starting at offset `i` of `text`.
fn token_run_at(text: &Vec<char>, i: usize) -> (w: usize)
    requires
        i <= text@.len(),
    ensures
        w == token_run(text@.skip(i as int)),
        i + w <= text@.len(),
{
    let mut k: usize = i;
    while k < text.len() && token_char(text[k])
        invariant
            i <= k <= text@.len(),
            forall|m: int| i <= m < k ==> is_token_char(#[trigger] text@[m]),
        decreases text@.len() - k,
    {
        k = k + 1;
    }
    proof {
        let rest = text@.skip(i as int);
        assert forall|m: int| 0 <= m < k - i implies is_token_char(#[trigger] rest[m]) by {
            assert(rest[m] == text@[i + m]);
        }
        if k < text@.len() {
            assert(rest[k - i] == text@[k as int]);
        }
        lemma_token_run_is(rest, (k - i) as nat);
    }
    k - i
}

/// Whether a scoping-class segment starts at offset `i` of `text`.
#[verifier::loop_isolation(false)]
fn seg_matches_at(text: &Vec<char>, i: usize, class: &Vec<char>) -> (b: bool)
    requires
        i <= text@.len(),
    ensures
        b == seg_of(class@).is_prefix_of(text@.skip(i as int)),
{
    let ghost rest = text@.skip(i as int);
    let ghost seg = seg_of(class@);
    if text.len() - i < 1 || text[i] != '.' {
        proof {
            if seg.is_prefix_of(rest) {
                assert(rest[0] == seg[0]);
                assert(seg[0] == '.');
                assert(rest[0] == text@[i as int]);
            }
        }
        return false;
    }
    if text.len() - i - 1 < class.len() {
        proof {
            assert(seg.len() == 1 + class@.len());
            assert(rest.len() == text@.len() - i);
            assert(!seg.is_prefix_of(rest));
        }
        return false;
    }
    let mut j: usize = 0;
    while j < class.len()
        invariant
            j <= class@.len(),
            i + 1 + class@.len() <= text@.len(),
            text@.len() <= usize::MAX,
            forall|k: int| 0 <= k < j ==> text@[i + 1 + k] == class@[k],
        decreases class@.len() - j,
    {
        if text[i + 1 + j] != class[j] {
            proof {
                assert(seg[j + 1] == class@[j as int]);
                assert(rest[j + 1] == text@[i + 1 + j]);
                assert(!seg.is_prefix_of(rest));
            }
            return false;
        }
        j = j + 1;
    }
    proof {
        assert forall|k: int| 0 <= k < seg.len() implies #[trigger] rest[k] == seg[k] by {
            if k == 0 {
                assert(rest[0] == text@[i as int]);
            } else {
                assert(seg[k] == class@[k - 1]);
                assert(rest[k] == text@[i + k]);
                assert(text@[i + 1 + (k - 1)] == class@[k - 1]);
            }
        }
        assert(rest.subrange(0, seg.len() as int) =~= seg);
        assert(seg.is_prefix_of(rest));
    }
    true
}

/// Count and total length of the whitespace-plus-segment groups starting at
/// offset `i` of `text`.
fn seg_run_extra_at(text: &Vec<char>, i: usize, class: &Vec<char>) -> (r: (usize, usize))
    requires
        i <= text@.len(),
    ensures
        ({
            let sp = seg_run_extra(text@.skip(i as int), seg_of(class@));
            r.0 == sp.0 && r.1 == sp.1 && i + r.1 <= text@.len() && r.0 <= r.1
        }),
    decreases text@.len() - i,
{
    let ghost rest = text@.skip(i as int);
    let ghost seg = seg_of(class@);
    proof {
        lemma_seg_run_extra_le(rest, seg);
    }
    let n = text.len();
    let w = space_run_at(text, i);
    proof {
        assert(space_run(rest) == w);
    }
    if w >= 1 && seg_matches_at(text, i + w, class) {
        proof {
            assert(rest.skip(w as int) =~= text@.skip((i + w) as int));
            assert(seg.is_prefix_of(rest.skip(w as int)));
            assert(seg.len() <= text@.len() - i - w);
        }
        let step = w + 1 + class.len();
        let rec = seg_run_extra_at(text, i + step, class);
        proof {
            assert(rest.skip((w + seg.len()) as int) =~= text@.skip((i + step) as int));
        }
        (1 + rec.0, step + rec.1)
    } else {
        proof {
            if seg.is_prefix_of(rest.skip(w as int)) && w >= 1 {
                assert(rest.skip(w as int) =~= text@.skip((i + w) as int));
            }
        }
        (0, 0)
    }
}

/// The swap pattern at offset `i` of `text`: consumed length, segment count,
/// and the absolute position and length of the bare token.
fn swap_match_at_exec(text: &Vec<char>, i: usize, class: &Vec<char>) -> (r: Option<
    (usize, usize, usize, usize),
>)
    requires
        i <= text@.len(),
    ensures
        ({
            let sp = swap_match_at(text@.skip(i as int), class@);
            match r {
                Some(q) => sp matches Some(m) && m.0 == q.0 && 1 <= q.0 && i + q.0 <= text@.len()
                    && q.2 + q.3 <= text@.len() && m.1 == text@.subrange(
                    q.2 as int,
                    (q.2 + q.3) as int,
                ) + repeat_seg(seg_of(class@), q.1 as nat),
                None => sp is None,
            }
        }),
{
    let ghost rest = text@.skip(i as int);
    let ghost seg = seg_of(class@);
    let n = text.len();
    if !seg_matches_at(text, i, class) {
        return None;
    }
    proof {
        assert(seg.len() <= rest.len());
        assert(1 + class@.len() <= n - i);
    }
    let seglen = 1 + class.len();
    let extra = seg_run_extra_at(text, i + seglen, class);
    proof {
        assert(rest.skip(seg.len() as int) =~= text@.skip((i + seglen) as int));
    }
    let count = 1 + extra.0;
    let runpos = i + seglen + extra.1;
    let ghost after = rest.skip((seglen + extra.1) as int);
    proof {
        assert(after =~= text@.skip(runpos as int));
    }
    let w = space_run_at(text, runpos);
    if w >= 1 && runpos + w < text.len() && token_start(text[runpos + w]) {
        proof {
            assert(after[w as int] == text@[(runpos + w) as int]);
        }
        let tok_start = runpos + w;
        let trun = token_run_at(text, tok_start + 1);
        proof {
            assert(after.skip((w + 1) as int) =~= text@.skip((tok_start + 1) as int));
        }
        let toklen = 1 + trun;
        let consumed = tok_start + toklen - i;
        proof {
            let m = swap_match_at(rest, class@).unwrap();
            assert(m.0 == (seglen + extra.1) + w + toklen);
            assert(consumed == m.0);
            assert(after.subrange(w as int, (w + toklen) as int) =~= text@.subrange(
                tok_start as int,
                (tok_start + toklen) as int,
            ));
        }
        Some((consumed, count, tok_start, toklen))
    } else {
        proof {
            if w < after.len() {
                assert(after[w as int] == text@[(runpos + w) as int]);
            }
            assert(swap_match_at(rest, class@) is None);
        }
        None
    }
}

/// Applies the swap to every occurrence of the pattern in `text`.
#[verifier::loop_isolation(false)]
#[verifier::rlimit(100)]
fn swap_vec(text: &Vec<char>, class: &Vec<char>) -> (out: Vec<char>)
    ensures
        out@ == spec_swap(text@, class@),
{
    let ghost seg = seg_of(class@);
    let mut out: Vec<char> = Vec::new();
    let mut i: usize = 0;
    proof {
        assert(text@.skip(0) =~= text@);
        assert(Seq::<char>::empty() + spec_swap(text@, class@) =~= spec_swap(text@, class@));
    }
    while i < text.len()
        invariant
            i <= text@.len(),
            spec_swap(text@, class@) == out@ + spec_swap(text@.skip(i as int), class@),
        decreases text@.len() - i,
    {
        let ghost rest = text@.skip(i as int);
        let ghost out0 = out@;
        match swap_match_at_exec(text, i, class) {
            Some((consumed, count, tok_start, toklen)) => {
                let ghost m = swap_match_at(rest, class@).unwrap();
                let tok_end = tok_start + toklen;
                let mut k = tok_start;
                while k < tok_end
                    invariant
                        tok_start <= k <= tok_end,
                        tok_end <= text@.len(),
                        out@ == out0 + text@.subrange(tok_start as int, k as int),
                    decreases tok_end - k,
                {
                    out.push(text[k]);
                    k = k + 1;
                    proof {
                        assert(out0 + text@.subrange(tok_start as int, k as int) =~= (out0
                            + text@.subrange(tok_start as int, k - 1 as int)).push(
                            text@[k - 1],
                        ));
                    }
                }
                let ghost out1 = out@;
                let mut c: usize = 0;
                proof {
                    assert(out1 + repeat_seg(seg, 0) =~= out1);
                }
                while c < count
                    invariant
                        c <= count,
                        out@ == out1 + repeat_seg(seg, c as nat),
                    decreases count - c,
                {
                    out.push('.');
                    append_chars(&mut out, class);
                    c = c + 1;
                    proof {
                        assert((out1 + repeat_seg(seg, (c - 1) as nat)).push('.') + class@ =~= out1
                            + (repeat_seg(seg, (c - 1) as nat) + seg));
                    }
                }
                i = i + consumed;
                proof {
                    assert(out@ =~= out0 + m.1);
                    assert(rest.skip(m.0 as int) =~= text@.skip(i as int));
                    assert(spec_swap(rest, class@) == m.1 + spec_swap(
                        text@.skip(i as int),
                        class@,
                    ));
                    assert(out0 + (m.1 + spec_swap(text@.skip(i as int), class@)) =~= (out0 + m.1)
                        + spec_swap(text@.skip(i as int), class@));
                }
            },
            None => {
                out.push(text[i]);
                i = i + 1;
                proof {
                    assert(rest[0] == text@[i - 1]);
                    assert(rest.skip(1) =~= text@.skip(i as int));
                    assert(spec_swap(rest, class@) == seq![rest[0]] + spec_swap(
                        text@.skip(i as int),
                        class@,
                    ));
                    assert(out0 + (seq![rest[0]] + spec_swap(text@.skip(i as int), class@))
                        =~= out0.push(rest[0]) + spec_swap(text@.skip(i as int), class@));
                }
            },
        }
    }
    proof {
        assert(text@.skip(text@.len() as int) =~= Seq::<char>::empty());
        assert(out@ + Seq::<char>::empty() =~= out@);
    }
    out
}

/// Rewrites selectors of the form `<scoping-class run> <bare token>` so the
/// bare token comes first, immediately concatenated with the scoping classes:
/// `.c .c button` becomes `button.c.c`. Text without the pattern is returned
/// unchanged.
pub fn swap_scoped_selectors(text: &str, class_name: &str) -> (r: String)
    ensures
        r@ == spec_swap(text@, class_name@),
{
    let t = str_to_chars(text);
    let c = str_to_chars(class_name);
    let out = swap_vec(&t, &c);
    chars_to_string(&out)
}

// ------------------------------------------------------------------
// The composed rewrite
// ------------------------------------------------------------------

/// The full rewrite: placeholder substitution, then the pixel-unit fix, then
/// the scoping-selector swap, the pixel fix running before the swap so the
/// two patterns cannot overlap.
pub open spec fn spec_rewrite(s: Seq<char>, prefix: Seq<char>, class: Seq<char>) -> Seq<char> {
    spec_swap(spec_fix_px(spec_substitute(s, prefix, class)), class)
}

/// Applies the three transformations of the selector rewriter in order.
pub fn rewrite_style(text: &str, placeholder_prefix: &str, class_name: &str) -> (r: String)
    requires
        placeholder_prefix@.len() >= 1,
    ensures
        r@ == spec_rewrite(text@, placeholder_prefix@, class_name@),
{
    let t = str_to_chars(text);
    let p = str_to_chars(placeholder_prefix);
    let c = str_to_chars(class_name);
    let substituted = substitute_vec(&t, &p, &c);
    let fixed = fix_px_vec(&substituted);
    let swapped = swap_vec(&fixed, &c);
    chars_to_string(&swapped)
}

/// Text in which the defect pattern occurs nowhere is left untouched by the
/// pixel fix.
pub proof fn lemma_fix_px_no_defect(s: Seq<char>)
    requires
        !contains_px_defect(s),
    ensures
        spec_fix_px(s) == s,
    decreases s.len(),
{
    if s.len() == 0 {
        assert(spec_fix_px(s) =~= s);
    } else {
        assert(!px_defect_front(s)) by {
            assert(s.skip(0) =~= s);
            if px_defect_front(s) {
                assert(px_defect_front(s.skip(0)));
            }
        }
        assert(!contains_px_defect(s.skip(1))) by {
            if contains_px_defect(s.skip(1)) {
                let i = choose|i: int|
                    0 <= i <= s.skip(1).len() && px_defect_front(#[trigger] s.skip(1).skip(i));
                assert(s.skip(1).skip(i) =~= s.skip(i + 1));
                assert(px_defect_front(s.skip(i + 1)));
            }
        }
        lemma_fix_px_no_defect(s.skip(1));
        assert(seq![s[0]] + s.skip(1) =~= s);
    }
}

/// The swap pattern occurs somewhere in `s`.
pub open spec fn contains_swap_pattern(s: Seq<char>, class: Seq<char>) -> bool {
    exists|i: int|
        0 <= i <= s.len() && swap_match_at(#[trigger] s.skip(i), class) is Some
}

/// Text in which the swap pattern occurs nowhere is left untouched by the
/// scoping-selector swap.
pub proof fn lemma_swap_no_match(s: Seq<char>, class: Seq<char>)
    requires
        !contains_swap_pattern(s, class),
    ensures
        spec_swap(s, class) == s,
    decreases s.len(),
{
    if s.len() == 0 {
        assert(spec_swap(s, class) =~= s);
    } else {
        assert(swap_match_at(s, class) is None) by {
            assert(s.skip(0) =~= s);
            if swap_match_at(s, class) is Some {
                assert(swap_match_at(s.skip(0), class) is Some);
            }
        }
        assert(!contains_swap_pattern(s.skip(1), class)) by {
            if contains_swap_pattern(s.skip(1), class) {
                let i = choose|i: int|
                    0 <= i <= s.skip(1).len() && swap_match_at(
                        #[trigger] s.skip(1).skip(i),
                        class,
                    ) is Some;
                assert(s.skip(1).skip(i) =~= s.skip(i + 1));
                assert(swap_match_at(s.skip(i + 1), class) is Some);
            }
        }
        lemma_swap_no_match(s.skip(1), class);
        assert(seq![s[0]] + s.skip(1) =~= s);
    }
}

/// When the substituted text contains neither the pixel-defect pattern nor
/// the swap pattern, the whole rewrite changes the text by the placeholder
/// substitution alone.
pub proof fn lemma_rewrite_substitution_only(t: Seq<char>, prefix: Seq<char>, class: Seq<char>)
    requires
        prefix.len() >= 1,
        !contains_px_defect(spec_substitute(t, prefix, class)),
        !contains_swap_pattern(spec_substitute(t, prefix, class), class),
    ensures
        spec_rewrite(t, prefix, class) == spec_substitute(t, prefix, class),
{
    lemma_fix_px_no_defect(spec_substitute(t, prefix, class));
    lemma_swap_no_match(spec_substitute(t, prefix, class), class);
}

} // verus!
