//! Whole numbers in decimal notation.

use vstd::prelude::*;

verus! {

/// The digit for `d`.
pub open spec fn digit(d: nat) -> char {
    (d + 48) as char
}

/// `n` in decimal digits, without leading zeros.
pub open spec fn digits(n: nat) -> Seq<char>
    decreases n,
{
    if n < 10 {
        seq![digit(n)]
    } else {
        digits(n / 10).push(digit(n % 10))
    }
}

/// `n` in decimal notation.
pub open spec fn decimal(n: int) -> Seq<char> {
    if n < 0 {
        seq!['-'] + digits((-n) as nat)
    } else {
        digits(n as nat)
    }
}

fn push_digits(out: &mut String, n: u64)
    ensures
        final(out)@ == old(out)@ + digits(n as nat),
    decreases n,
{
    if n >= 10 {
        push_digits(out, n / 10);
    }
    let d: u8 = (n % 10) as u8;
    let ghost before = out@;
    out.push((48 + d) as char);
    assert(out@ =~= before.push(digit((n % 10) as nat)));
    assert(out@ =~= old(out)@ + digits(n as nat));
}

/// Appends `n` in decimal notation to `out`.
pub fn push_decimal(out: &mut String, n: i64)
    ensures
        final(out)@ == old(out)@ + decimal(n as int),
{
    if n < 0 {
        out.push('-');
        push_digits(out, (-(n as i128)) as u64);
        assert(out@ =~= old(out)@ + decimal(n as int));
    } else {
        push_digits(out, n as u64);
    }
}

/// `n` in decimal notation.
pub fn to_decimal(n: i64) -> (out: String)
    ensures
        out@ == decimal(n as int),
{
    let mut out = String::new();
    push_decimal(&mut out, n);
    assert(out@ =~= decimal(n as int));
    out
}

proof fn lemma_digits(n: nat)
    ensures
        digits(n).len() > 0,
        forall|i: int| 0 <= i < digits(n).len() ==> '0' <= #[trigger] digits(n)[i] <= '9',
    decreases n,
{
    if n >= 10 {
        lemma_digits(n / 10);
    }
}

proof fn lemma_digits_injective(a: nat, b: nat)
    requires
        digits(a) == digits(b),
    ensures
        a == b,
    decreases a,
{
    lemma_digits(a / 10);
    lemma_digits(b / 10);
    assert(digits(a).last() == digit(a % 10));
    assert(digits(b).last() == digit(b % 10));
    assert(a % 10 == b % 10);
    if a >= 10 {
        assert(digits(a).drop_last() =~= digits(a / 10));
        assert(b >= 10);
        assert(digits(b).drop_last() =~= digits(b / 10));
        lemma_digits_injective(a / 10, b / 10);
    } else {
        assert(digits(a).len() == 1);
        assert(b < 10);
    }
}

/// Different numbers are written differently.
pub proof fn law_decimal_is_injective(a: int, b: int)
    requires
        decimal(a) == decimal(b),
    ensures
        a == b,
{
    lemma_decimal_chars(a);
    lemma_decimal_chars(b);
    if a < 0 {
        assert(decimal(a)[0] == '-');
        assert(b < 0);
        assert(decimal(a).skip(1) =~= digits((-a) as nat));
        assert(decimal(b).skip(1) =~= digits((-b) as nat));
        lemma_digits_injective((-a) as nat, (-b) as nat);
    } else {
        assert(decimal(a)[0] != '-');
        assert(b >= 0);
        lemma_digits_injective(a as nat, b as nat);
    }
}

/// A number is written with digits and, where it is negative, a leading minus sign.
pub proof fn lemma_decimal_chars(n: int)
    ensures
        decimal(n).len() > 0,
        n >= 0 ==> '0' <= decimal(n)[0] <= '9',
        n < 0 ==> decimal(n)[0] == '-',
        forall|i: int|
            0 <= i < decimal(n).len() ==> #[trigger] decimal(n)[i] == '-' || '0' <= decimal(n)[i]
                <= '9',
{
    if n < 0 {
        lemma_digits((-n) as nat);
        assert forall|i: int| 0 <= i < decimal(n).len() implies #[trigger] decimal(n)[i] == '-'
            || '0' <= decimal(n)[i] <= '9' by {
            if i > 0 {
                assert(decimal(n)[i] == digits((-n) as nat)[i - 1]);
            }
        }
    } else {
        lemma_digits(n as nat);
    }
}

/// The number that the digits of `s` make up.
pub open spec fn value_of(s: Seq<char>) -> int
    decreases s.len(),
{
    if s.len() == 0 {
        0
    } else {
        10 * value_of(s.drop_last()) + (s.last() as int - '0' as int)
    }
}

/// What is written of a number is read back as the number: behind the minus sign
/// of a negative one stand digits, with no zero in front of others.
pub proof fn law_decimal_is_read_back(n: int)
    ensures
        n >= 0 ==> value_of(decimal(n)) == n,
        n < 0 ==> decimal(n)[0] == '-' && value_of(decimal(n).skip(1)) == -n,
        n >= 0 && decimal(n).len() > 1 ==> decimal(n)[0] != '0',
        n < 0 ==> decimal(n)[1] != '0',
        forall|i: int|
            0 <= i < decimal(n).len() ==> '0' <= #[trigger] decimal(n)[i] <= '9' || (i == 0 && n
                < 0),
{
    let m = if n < 0 {
        (-n) as nat
    } else {
        n as nat
    };
    lemma_digits(m);
    lemma_digits_are_read_back(m);
    if n < 0 {
        assert(decimal(n).skip(1) =~= digits(m));
        assert(decimal(n)[1] == digits(m)[0]);
        assert forall|i: int| 0 < i < decimal(n).len() implies '0' <= #[trigger] decimal(n)[i]
            <= '9' by {
            assert(decimal(n)[i] == digits(m)[i - 1]);
        }
    }
}

proof fn lemma_digits_are_read_back(n: nat)
    ensures
        value_of(digits(n)) == n,
        n > 0 ==> digits(n)[0] != '0',
        digits(n).len() > 1 ==> n > 0,
    decreases n,
{
    reveal_with_fuel(value_of, 2);
    lemma_digits(n);
    if n >= 10 {
        lemma_digits(n / 10);
        lemma_digits_are_read_back(n / 10);
        assert(digits(n).drop_last() =~= digits(n / 10));
    } else {
        assert(digits(n).drop_last() =~= Seq::empty());
    }
}

} // verus!
