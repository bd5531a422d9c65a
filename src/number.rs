//! Decimal numbers written in ASCII digits.
use vstd::prelude::*;
use vstd::arithmetic::div_mod::{lemma_add_mod_noop, lemma_mul_mod_noop_left};

verus! {

/// Whether a byte is an ASCII decimal digit.
pub open spec fn is_digit(b: u8) -> bool {
    0x30 <= b <= 0x39
}

/// Length of the run of digits that starts a byte sequence.
pub open spec fn digit_run(s: Seq<u8>) -> nat
    decreases s.len(),
{
    if s.len() == 0 || !is_digit(s[0]) {
        0
    } else {
        1 + digit_run(s.drop_first())
    }
}

/// Decimal value of a sequence of digits, most significant first.
pub open spec fn decimal(s: Seq<u8>) -> nat
    decreases s.len(),
{
    if s.len() == 0 {
        0
    } else {
        decimal(s.drop_last()) * 10 + (s.last() - 0x30) as nat
    }
}

/// The number that the leading digits of `s` spell, reduced to 32 bits.
pub open spec fn atoi_spec(s: Seq<u8>) -> u32 {
    (decimal(s.take(digit_run(s) as int)) % 0x1_0000_0000) as u32
}

proof fn lemma_digit_run(s: Seq<u8>)
    ensures
        digit_run(s) <= s.len(),
        forall|j: int| 0 <= j < digit_run(s) ==> is_digit(#[trigger] s[j]),
        digit_run(s) < s.len() ==> !is_digit(s[digit_run(s) as int]),
    decreases s.len(),
{
    if s.len() > 0 && is_digit(s[0]) {
        lemma_digit_run(s.drop_first());
        assert forall|j: int| 0 <= j < digit_run(s) implies is_digit(#[trigger] s[j]) by {
            if j > 0 {
                assert(s[j] == s.drop_first()[j - 1]);
            }
        }
    }
}

proof fn lemma_decimal_step(s: Seq<u8>, i: int)
    requires
        0 <= i < s.len(),
    ensures
        decimal(s.take(i + 1)) == decimal(s.take(i)) * 10 + (s[i] - 0x30) as nat,
{
    assert(s.take(i + 1).drop_last() =~= s.take(i));
}

proof fn lemma_wrap_step(a: nat, d: nat)
    ensures
        ((a % 0x1_0000_0000) * 10 + d) % 0x1_0000_0000 == (a * 10 + d) % 0x1_0000_0000,
{
    let m: int = 0x1_0000_0000;
    let ai: int = a as int;
    lemma_mul_mod_noop_left(ai, 10, m);
    lemma_add_mod_noop((ai % m) * 10, d as int, m);
    lemma_add_mod_noop(ai * 10, d as int, m);
}

/// Reads the decimal number that the leading ASCII digits of `barray` spell.
/// Reading stops at the first byte that is not a digit; a number too large
/// for 32 bits wraps around.
pub fn atoi(barray: &[u8]) -> (r: u32)
    ensures
        r == atoi_spec(barray@),
{
    let ghost s = barray@;
    proof {
        lemma_digit_run(s);
    }
    let mut value: u32 = 0;
    let mut i: usize = 0;
    while i < barray.len() && 0x30 <= barray[i] && barray[i] <= 0x39
        invariant
            s == barray@,
            i <= digit_run(s),
            digit_run(s) <= s.len(),
            forall|j: int| 0 <= j < digit_run(s) ==> is_digit(#[trigger] s[j]),
            digit_run(s) < s.len() ==> !is_digit(s[digit_run(s) as int]),
            value == decimal(s.take(i as int)) % 0x1_0000_0000,
        decreases barray.len() - i,
    {
        let d: u64 = (barray[i] - 0x30) as u64;
        let t: u64 = (value as u64) * 10 + d;
        proof {
            lemma_decimal_step(s, i as int);
            lemma_wrap_step(decimal(s.take(i as int)), d as nat);
        }
        value = (t % 0x1_0000_0000) as u32;
        i = i + 1;
    }
    proof {
        if i < digit_run(s) {
            assert(is_digit(s[i as int]));
        }
    }
    value
}

} // verus!
