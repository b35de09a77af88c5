//! Numbers in decimal notation: writing them and reading them.

use crate::text::{lemma_leading_run_is, lemma_leading_run_props, leading_run};
use vstd::prelude::*;

verus! {

/// Whether `c` is one of the digits `0` to `9`.
pub open spec fn is_digit(c: char) -> bool {
    0x30 <= c as u32 <= 0x39
}

/// The test for digits, as a value.
pub open spec fn digit() -> spec_fn(char) -> bool {
    |c: char| is_digit(c)
}

/// The number that the digit `c` stands for.
pub open spec fn digit_value(c: char) -> nat {
    (c as u32 - 0x30) as nat
}

/// The digit that stands for `d`, a number below ten.
pub open spec fn digit_char(d: nat) -> char {
    (0x30 + d) as char
}

/// The number that a text of digits stands for.
pub open spec fn digits_value(s: Seq<char>) -> nat
    decreases s.len(),
{
    if s.len() == 0 {
        0
    } else {
        digits_value(s.drop_last()) * 10 + digit_value(s.last())
    }
}

/// Whether `s` holds nothing but digits.
pub open spec fn all_digits(s: Seq<char>) -> bool {
    forall|i: int| 0 <= i < s.len() ==> is_digit(#[trigger] s[i])
}

/// The decimal notation of `n`, without leading zeros.
pub open spec fn decimal(n: nat) -> Seq<char>
    decreases n,
{
    if n < 10 {
        seq![digit_char(n)]
    } else {
        decimal(n / 10).push(digit_char(n % 10))
    }
}

/// The whole milliseconds that a measurement in decimal notation names.
/// The text is one or more digits, which may be followed by a point and
/// any number of digits; what follows the point is dropped. Any other
/// text names nothing, and neither does a number too large for `u128`.
pub open spec fn parse_millis(token: Seq<char>) -> Option<u128> {
    let w = leading_run(token, digit()) as int;
    let whole = token.take(w);
    let rest = token.skip(w);
    if w == 0 {
        None
    } else if rest.len() > 0 && !(rest[0] == '.' && all_digits(rest.skip(1))) {
        None
    } else if digits_value(whole) > u128::MAX {
        None
    } else {
        Some(digits_value(whole) as u128)
    }
}

/// A text of digits stands for at least as much as any of its beginnings.
pub proof fn lemma_digits_value_monotone(s: Seq<char>, k: int)
    requires
        0 <= k <= s.len(),
    ensures
        digits_value(s.take(k)) <= digits_value(s),
    decreases s.len(),
{
    if k == s.len() {
        assert(s.take(k) =~= s);
    } else {
        lemma_digits_value_monotone(s.drop_last(), k);
        assert(s.drop_last().take(k) =~= s.take(k));
    }
}

/// The decimal notation of a number holds digits only and stands for
/// that number.
pub proof fn lemma_decimal_digits(n: nat)
    ensures
        decimal(n).len() > 0,
        all_digits(decimal(n)),
        digits_value(decimal(n)) == n,
    decreases n,
{
    let s = decimal(n);
    if n < 10 {
        reveal_with_fuel(digits_value, 2);
        assert(s.drop_last() =~= Seq::<char>::empty());
    } else {
        lemma_decimal_digits(n / 10);
        assert(s.drop_last() =~= decimal(n / 10));
        assert(s.last() == digit_char(n % 10));
        assert forall|i: int| 0 <= i < s.len() implies is_digit(#[trigger] s[i]) by {
            if i < s.len() - 1 {
                assert(s[i] == decimal(n / 10)[i]);
            }
        }
    }
}

/// Reading what was written gives the number back.
pub proof fn lemma_parse_decimal(n: u128)
    ensures
        parse_millis(decimal(n as nat)) == Some(n),
{
    let s = decimal(n as nat);
    lemma_decimal_digits(n as nat);
    assert forall|k: int| 0 <= k < s.len() implies (digit())(#[trigger] s[k]) by {}
    lemma_leading_run_is(s, digit(), s.len() as int);
    assert(s.take(s.len() as int) =~= s);
}

/// The number that `c` stands for, if `c` is a digit.
pub fn digit_of(c: char) -> (r: Option<u8>)
    ensures
        r is Some <==> is_digit(c),
        r matches Some(d) ==> d == digit_value(c) && d < 10,
{
    let u: u32 = c as u32;
    if 0x30 <= u && u <= 0x39 {
        Some((u - 0x30) as u8)
    } else {
        None
    }
}

/// The text of one digit.
pub fn digit_text(d: u8) -> (r: &'static str)
    requires
        d < 10,
    ensures
        r@ == seq![digit_char(d as nat)],
{
    proof {
        reveal_strlit("0");
        reveal_strlit("1");
        reveal_strlit("2");
        reveal_strlit("3");
        reveal_strlit("4");
        reveal_strlit("5");
        reveal_strlit("6");
        reveal_strlit("7");
        reveal_strlit("8");
        reveal_strlit("9");
    }
    let r = match d {
        0 => "0",
        1 => "1",
        2 => "2",
        3 => "3",
        4 => "4",
        5 => "5",
        6 => "6",
        7 => "7",
        8 => "8",
        _ => "9",
    };
    assert(r@ =~= seq![digit_char(d as nat)]);
    r
}

/// Writes `n` in decimal notation.
pub fn decimal_string(n: u128) -> (r: String)
    ensures
        r@ == decimal(n as nat),
    decreases n,
{
    if n < 10 {
        digit_text(n as u8).to_owned()
    } else {
        let mut r = decimal_string(n / 10);
        r.append(digit_text((n % 10) as u8));
        assert(r@ =~= decimal((n / 10) as nat).push(digit_char((n % 10) as nat)));
        r
    }
}

/// Reads the measurement that stands in `v` from `from` up to `to`.
pub fn parse_millis_in(v: &Vec<char>, from: usize, to: usize) -> (r: Option<u128>)
    requires
        from <= to <= v.len(),
    ensures
        r == parse_millis(v@.subrange(from as int, to as int)),
{
    let ghost token = v@.subrange(from as int, to as int);
    let mut acc: u128 = 0;
    let mut i: usize = from;
    proof {
        assert(token.take(0) =~= Seq::<char>::empty());
    }
    loop
        invariant
            from <= i <= to <= v.len(),
            token == v@.subrange(from as int, to as int),
            forall|k: int| 0 <= k < i - from ==> is_digit(#[trigger] token[k]),
            acc == digits_value(token.take(i - from)),
        ensures
            from <= i <= to,
            forall|k: int| 0 <= k < i - from ==> is_digit(#[trigger] token[k]),
            i == to || !is_digit(token[i - from]),
            acc == digits_value(token.take(i - from)),
        decreases to - i,
    {
        if i >= to {
            break ;
        }
        proof {
            assert(token[i - from] == v@[i as int]);
        }
        let d = match digit_of(v[i]) {
            Some(d) => d,
            None => { break ; },
        };
        proof {
            assert(token.take(i - from + 1).drop_last() =~= token.take(i - from));
            assert(token.take(i - from + 1).last() == token[i - from]);
        }
        if acc > (u128::MAX - d as u128) / 10 {
            proof {
                lemma_leading_run_props(token, digit());
                let w = leading_run(token, digit()) as int;
                if w <= i - from {
                    assert((digit())(token[w]));
                }
                assert(token.take(w).take(i - from + 1) =~= token.take(i - from + 1));
                lemma_digits_value_monotone(token.take(w), i - from + 1);
            }
            return None;
        }
        acc = acc * 10 + d as u128;
        i += 1;
    }
    proof {
        assert forall|k: int| 0 <= k < i - from implies (digit())(#[trigger] token[k]) by {}
        lemma_leading_run_is(token, digit(), i - from);
    }
    if i == from {
        return None;
    }
    if i < to {
        proof {
            assert(token.skip(i - from)[0] == v@[i as int]);
        }
        if v[i] != '.' {
            return None;
        }
        let ghost tail = token.skip(i - from).skip(1);
        let mut j: usize = i + 1;
        while j < to
            invariant
                i < j <= to <= v.len(),
                from <= i,
                token == v@.subrange(from as int, to as int),
                tail == token.skip(i - from).skip(1),
                leading_run(token, digit()) == i - from,
                i > from,
                token.skip(i - from)[0] == '.',
                forall|k: int| 0 <= k < j - i - 1 ==> is_digit(#[trigger] tail[k]),
            decreases to - j,
        {
            proof {
                assert(tail[j - i - 1] == v@[j as int]);
            }
            if digit_of(v[j]).is_none() {
                proof {
                    assert(!is_digit(tail[j - i - 1]));
                }
                return None;
            }
            j += 1;
        }
    }
    Some(acc)
}

} // verus!
