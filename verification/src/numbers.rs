use vstd::prelude::*;

use crate::text::chars_of;

verus! {

// A number of the language is held as decimal text. Where the outside world
// wants an integer (a port, a count of milliseconds), the whole part of that
// text is taken, and held at the largest value the integer can have.

pub open spec fn is_digit(c: char) -> bool {
    '0' <= c && c <= '9'
}

/// The number of digits that `s` starts with, counting from `i`.
pub open spec fn digits_from(s: Seq<char>, i: int) -> int
    decreases s.len() - i,
{
    if 0 <= i < s.len() && is_digit(s[i]) {
        digits_from(s, i + 1)
    } else {
        i
    }
}

/// The value of a run of decimal digits.
pub open spec fn digits_value(d: Seq<char>) -> nat
    decreases d.len(),
{
    if d.len() == 0 {
        0
    } else {
        digits_value(d.drop_last()) * 10 + (d.last() as nat - '0' as nat) as nat
    }
}

/// The whole part of a number's text: the value of the digits before the
/// dot.
pub open spec fn whole_value(s: Seq<char>) -> nat {
    digits_value(s.take(digits_from(s, 0)))
}

pub open spec fn min_nat(a: nat, b: nat) -> nat {
    if a <= b {
        a
    } else {
        b
    }
}

/// Whether the text holds a digit other than `0`: for a number of the
/// language, whether it is above zero.
pub open spec fn above_zero(s: Seq<char>) -> bool {
    exists|i: int| 0 <= i < s.len() && '1' <= #[trigger] s[i] && s[i] <= '9'
}

proof fn lemma_digits_from_bounds(s: Seq<char>, i: int)
    requires
        0 <= i <= s.len(),
    ensures
        i <= digits_from(s, i) <= s.len(),
        forall|j: int| i <= j < digits_from(s, i) ==> is_digit(#[trigger] s[j]),
        digits_from(s, i) < s.len() ==> !is_digit(s[digits_from(s, i)]),
    decreases s.len() - i,
{
    if i < s.len() && is_digit(s[i]) {
        lemma_digits_from_bounds(s, i + 1);
    }
}

/// The whole part of the number `text`, held at `cap` where it is larger.
pub fn saturating_whole(text: &String, cap: u64) -> (r: u64)
    ensures
        r == min_nat(whole_value(text@), cap as nat),
{
    let chars = chars_of(text.as_str());
    let ghost s = text@;
    proof {
        lemma_digits_from_bounds(s, 0);
    }
    let mut acc: u64 = 0;
    let mut i: usize = 0;
    assert(s.take(0) =~= Seq::<char>::empty());
    while i < chars.len() && '0' <= chars[i] && chars[i] <= '9'
        invariant
            chars@ == s,
            i <= s.len(),
            digits_from(s, 0) == digits_from(s, i as int),
            acc == min_nat(digits_value(s.take(i as int)), cap as nat),
        decreases chars.len() - i,
    {
        let d: u64 = (chars[i] as u32 - '0' as u32) as u64;
        let next: u128 = acc as u128 * 10 + d as u128;
        proof {
            assert(s.take(i + 1).drop_last() =~= s.take(i as int));
            assert(s.take(i + 1).last() == s[i as int]);
        }
        acc = if next > cap as u128 {
            cap
        } else {
            next as u64
        };
        i = i + 1;
    }
    proof {
        lemma_digits_from_bounds(s, i as int);
    }
    acc
}

/// The port a number names: its whole part, at most 65535.
pub fn port_number(text: &String) -> (r: u16)
    ensures
        r == min_nat(whole_value(text@), 65535),
{
    saturating_whole(text, 65535) as u16
}

/// The milliseconds a number counts: its whole part, at most `u64::MAX`.
pub fn millis(text: &String) -> (r: u64)
    ensures
        r == min_nat(whole_value(text@), u64::MAX as nat),
{
    saturating_whole(text, u64::MAX)
}

/// Whether the number `text` is above zero.
pub fn is_above_zero(text: &String) -> (r: bool)
    ensures
        r == above_zero(text@),
{
    let chars = chars_of(text.as_str());
    let mut i: usize = 0;
    while i < chars.len()
        invariant
            chars@ == text@,
            i <= chars@.len(),
            forall|j: int| 0 <= j < i ==> !('1' <= #[trigger] chars@[j] && chars@[j] <= '9'),
        decreases chars.len() - i,
    {
        if '1' <= chars[i] && chars[i] <= '9' {
            return true;
        }
        i = i + 1;
    }
    false
}

} // verus!
