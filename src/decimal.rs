//! Unsigned decimal numerals, as the record format writes its integer fields.

use vstd::prelude::*;

verus! {

/// Whether `c` is one of the ASCII digits `0` to `9`.
pub open spec fn is_digit(c: char) -> bool {
    48 <= c as u32 <= 57
}

/// The value of an ASCII digit.
pub open spec fn digit_value(c: char) -> nat {
    (c as u32 - 48) as nat
}

/// The ASCII digit for `d < 10`.
pub open spec fn digit_char(d: nat) -> char {
    ((48 + d) as u8) as char
}

/// Whether every character of `s` is an ASCII digit.
pub open spec fn all_digits(s: Seq<char>) -> bool {
    forall|i: int| 0 <= i < s.len() ==> is_digit(#[trigger] s[i])
}

/// The value of a string of digits, most significant first.
pub open spec fn value_of(s: Seq<char>) -> nat
    decreases s.len(),
{
    if s.len() == 0 {
        0
    } else {
        value_of(s.drop_last()) * 10 + digit_value(s.last())
    }
}

/// The shortest decimal numeral of `n`: no leading zero but for zero itself.
pub open spec fn decimal(n: nat) -> Seq<char>
    decreases n,
{
    if n < 10 {
        seq![digit_char(n)]
    } else {
        decimal(n / 10).push(digit_char(n % 10))
    }
}

/// Whether `s` is a numeral whose value is at most `max`. Leading zeros are
/// accepted; signs, spaces and the empty string are not.
pub open spec fn numeral_within(s: Seq<char>, max: nat) -> bool {
    s.len() > 0 && all_digits(s) && value_of(s) <= max
}

proof fn lemma_digit_round_trip(d: nat)
    requires
        d < 10,
    ensures
        is_digit(digit_char(d)),
        digit_value(digit_char(d)) == d,
{
    let b = (48 + d) as u8;
    assert(b as char as u32 == b as u32);
}

/// A decimal numeral reads back as the number it was written from.
pub proof fn lemma_decimal_reads_back(n: nat)
    ensures
        decimal(n).len() > 0,
        all_digits(decimal(n)),
        value_of(decimal(n)) == n,
    decreases n,
{
    lemma_digit_round_trip(n % 10);
    if n >= 10 {
        lemma_decimal_reads_back(n / 10);
        let s = decimal(n);
        assert(s.drop_last() == decimal(n / 10));
        assert(s.last() == digit_char(n % 10));
        assert((n / 10) * 10 + n % 10 == n) by (nonlinear_arith);
        assert(value_of(s) == value_of(decimal(n / 10)) * 10 + n % 10);
        assert forall|i: int| 0 <= i < s.len() implies is_digit(#[trigger] s[i]) by {
            if i < s.len() - 1 {
                assert(s[i] == decimal(n / 10)[i]);
            }
        }
    } else {
        assert(decimal(n).drop_last() =~= Seq::<char>::empty());
        assert(value_of(Seq::<char>::empty()) == 0);
    }
}

fn push_decimal(n: u32, out: &mut String)
    ensures
        final(out)@ == old(out)@ + decimal(n as nat),
    decreases n,
{
    if n >= 10 {
        push_decimal(n / 10, out);
    }
    let d: u8 = (n % 10) as u8;
    out.push((48u8 + d) as char);
    assert(final(out)@ =~= old(out)@ + decimal(n as nat));
}

/// Writes `n` as its decimal numeral.
pub fn format_u32(n: u32) -> (r: String)
    ensures
        r@ == decimal(n as nat),
{
    let mut out = String::new();
    push_decimal(n, &mut out);
    assert(out@ =~= decimal(n as nat));
    out
}

/// Reads a decimal numeral whose value is at most `max`.
pub fn parse_bounded(s: &str, max: u32) -> (r: Option<u32>)
    ensures
        match r {
            Some(v) => numeral_within(s@, max as nat) && v == value_of(s@),
            None => !numeral_within(s@, max as nat),
        },
{
    let mut acc: u64 = 0;
    let mut over = false;
    let mut digits = true;
    assert(s@.take(0) =~= seq![]);
    for c in it: s.chars()
        invariant
            it.seq() == s@,
            max <= u32::MAX,
            digits <==> all_digits(s@.take(it.index() as int)),
            digits && !over ==> acc == value_of(s@.take(it.index() as int)) && acc <= max,
            digits && over ==> value_of(s@.take(it.index() as int)) > max,
    {
        let ghost i = it.index() as int;
        let ghost t = s@.take(i + 1);
        assert(t.drop_last() =~= s@.take(i));
        let code = c as u32;
        if 48 <= code && code <= 57 {
            if digits && !over {
                acc = acc * 10 + (code - 48) as u64;
                if acc > max as u64 {
                    over = true;
                }
            }
        } else {
            digits = false;
        }
        proof {
            if digits {
                assert forall|j: int| 0 <= j < t.len() implies is_digit(#[trigger] t[j]) by {
                    if j < i {
                        assert(t[j] == s@.take(i)[j]);
                    }
                }
            } else {
                assert(!is_digit(t[i]) || !all_digits(s@.take(i)));
                if all_digits(s@.take(i)) {
                    assert(!is_digit(t[i]));
                } else {
                    let j = choose|j: int| 0 <= j < i && !is_digit(#[trigger] s@.take(i)[j]);
                    assert(t[j] == s@.take(i)[j]);
                }
            }
        }
    }
    assert(s@.take(s@.len() as int) =~= s@);
    if digits && !over && !s.is_empty() {
        Some(acc as u32)
    } else {
        None
    }
}

} // verus!
