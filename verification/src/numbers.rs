//! Whole numbers written out and read back.

use vstd::prelude::*;

use crate::text::to_chars;

verus! {

/// The larger of the two.
pub open spec fn at_least(n: int, least: int) -> int {
    if n < least {
        least
    } else {
        n
    }
}

/// The smaller of the two.
pub open spec fn at_most(n: int, most: int) -> int {
    if n > most {
        most
    } else {
        n
    }
}

/// The decimal digit with the value `d`.
pub open spec fn digit(d: nat) -> char {
    (48 + d) as char
}

/// `n` in decimal, without leading zeros.
pub open spec fn decimal(n: nat) -> Seq<char>
    decreases n,
{
    if n < 10 {
        seq![digit(n)]
    } else {
        decimal(n / 10).push(digit(n % 10))
    }
}

/// `n` in decimal, without leading zeros.
pub fn decimal_text(n: u128) -> (r: String)
    ensures
        r@ == decimal(n as nat),
    decreases n,
{
    if n < 10 {
        let mut out = String::new();
        out.push((48 + n as u8) as char);
        assert(out@ =~= seq![digit(n as nat)]);
        out
    } else {
        let mut out = decimal_text(n / 10);
        out.push((48 + (n % 10) as u8) as char);
        out
    }
}

/// The value of `c` as a digit in the base `radix`; letters count from ten, in either case.
pub open spec fn digit_value(c: char, radix: nat) -> Option<nat> {
    let v: int = if '0' <= c && c <= '9' {
        c as int - 48
    } else if 'a' <= c && c <= 'z' {
        c as int - 87
    } else if 'A' <= c && c <= 'Z' {
        c as int - 55
    } else {
        radix as int
    };
    if v < radix {
        Some(v as nat)
    } else {
        None
    }
}

/// The value of a run of digits in the base `radix`, where every character is one.
pub open spec fn numeral(s: Seq<char>, radix: nat) -> Option<nat>
    decreases s.len(),
{
    if s.len() == 0 {
        Some(0)
    } else {
        match (numeral(s.drop_last(), radix), digit_value(s.last(), radix)) {
            (Some(v), Some(d)) => Some(v * radix + d),
            _ => None,
        }
    }
}

/// The number that a text names: an optional plus sign, then one digit or more,
/// with a value of at most `max`.
pub open spec fn number_in(s: Seq<char>, radix: nat, max: nat) -> Option<nat> {
    let digits = if s.len() > 0 && s[0] == '+' {
        s.skip(1)
    } else {
        s
    };
    if digits.len() == 0 {
        None
    } else {
        match numeral(digits, radix) {
            Some(v) => if v <= max {
                Some(v)
            } else {
                None
            },
            None => None,
        }
    }
}

proof fn lemma_numeral_prefix(s: Seq<char>, radix: nat, i: int)
    requires
        0 <= i <= s.len(),
        radix >= 1,
        numeral(s, radix) is Some,
    ensures
        numeral(s.take(i), radix) is Some,
        numeral(s.take(i), radix)->0 <= numeral(s, radix)->0,
    decreases s.len(),
{
    if i == s.len() {
        assert(s.take(i) =~= s);
    } else {
        lemma_numeral_prefix(s.drop_last(), radix, i);
        assert(s.drop_last().take(i) =~= s.take(i));
        let v = numeral(s.drop_last(), radix)->0;
        assert(v <= v * radix) by (nonlinear_arith)
            requires
                radix >= 1,
        ;
    }
}

fn value_of_digit(c: char, radix: u32) -> (r: Option<u128>)
    ensures
        match r {
            Some(v) => digit_value(c, radix as nat) == Some(v as nat),
            None => digit_value(c, radix as nat) is None,
        },
{
    let v: u32 = if '0' <= c && c <= '9' {
        c as u32 - 48
    } else if 'a' <= c && c <= 'z' {
        c as u32 - 87
    } else if 'A' <= c && c <= 'Z' {
        c as u32 - 55
    } else {
        radix
    };
    if v < radix {
        Some(v as u128)
    } else {
        None
    }
}

/// The number that a text names: an optional plus sign, then one digit or more,
/// with a value of at most `max`.
pub fn parse_number(s: &str, radix: u32, max: u128) -> (r: Option<u128>)
    requires
        radix >= 1,
    ensures
        match r {
            Some(v) => number_in(s@, radix as nat, max as nat) == Some(v as nat),
            None => number_in(s@, radix as nat, max as nat) is None,
        },
{
    let sc = to_chars(s);
    let first: usize = if sc.len() > 0 && sc[0] == '+' {
        1
    } else {
        0
    };
    if sc.len() == first {
        return None;
    }
    let ghost digits = s@.skip(first as int);
    assert(first == 0 ==> digits =~= s@);
    let mut value: u128 = 0;
    assert(digits.take(0) =~= Seq::<char>::empty());
    for i in first..sc.len()
        invariant
            sc@ == s@,
            first <= 1,
            first <= s@.len(),
            radix >= 1,
            digits == s@.skip(first as int),
            numeral(digits.take(i - first), radix as nat) == Some(value as nat),
            value <= max,
            number_in(s@, radix as nat, max as nat) == (match numeral(digits, radix as nat) {
                Some(v) => if v <= max {
                    Some(v)
                } else {
                    None
                },
                None => None::<nat>,
            }),
    {
        let ghost next = digits.take(i + 1 - first);
        proof {
            assert(next.drop_last() =~= digits.take(i - first));
            assert(next.last() == sc@[i as int]);
            if numeral(digits, radix as nat) is Some {
                lemma_numeral_prefix(digits, radix as nat, i + 1 - first);
            }
        }
        match value_of_digit(sc[i], radix) {
            Some(d) => {
                match value.checked_mul(radix as u128) {
                    Some(m) => {
                        match m.checked_add(d) {
                            Some(v) => {
                                if v > max {
                                    return None;
                                }
                                value = v;
                            },
                            None => {
                                return None;
                            },
                        }
                    },
                    None => {
                        return None;
                    },
                }
            },
            None => {
                return None;
            },
        }
    }
    assert(digits.take(digits.len() as int) =~= digits);
    Some(value)
}

/// A number written in decimal is read back as itself.
pub proof fn decimal_reads_back(n: nat, max: nat)
    requires
        n <= max,
    ensures
        number_in(decimal(n), 10, max) == Some(n),
{
    lemma_decimal_numeral(n);
}

proof fn lemma_decimal_numeral(n: nat)
    ensures
        numeral(decimal(n), 10) == Some(n),
        decimal(n).len() > 0,
        decimal(n)[0] != '+',
    decreases n,
{
    reveal_with_fuel(numeral, 2);
    if n < 10 {
        assert(decimal(n).drop_last() =~= Seq::<char>::empty());
    } else {
        lemma_decimal_numeral(n / 10);
        assert(decimal(n).drop_last() =~= decimal(n / 10));
    }
}

/// A number written in decimal is made of digits alone.
pub proof fn decimal_is_digits(n: nat)
    ensures
        decimal(n).len() > 0,
        forall|k: int| 0 <= k < decimal(n).len() ==> '0' <= #[trigger] decimal(n)[k] <= '9',
    decreases n,
{
    if n >= 10 {
        decimal_is_digits(n / 10);
        assert forall|k: int| 0 <= k < decimal(n).len() implies '0' <= #[trigger] decimal(n)[k]
            <= '9' by {
            if k < decimal(n).len() - 1 {
                assert(decimal(n)[k] == decimal(n / 10)[k]);
            }
        }
    }
}

} // verus!
