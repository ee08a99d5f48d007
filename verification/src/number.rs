//! Decimal numbers as text, written and read back.

use vstd::prelude::*;
use crate::text::chars_of;

verus! {

/// A decimal digit.
pub open spec fn digit(c: char) -> bool {
    '0' <= c <= '9'
}

/// The number that a digit stands for.
pub open spec fn digit_value(c: char) -> nat {
    if digit(c) {
        (c as int - '0' as int) as nat
    } else {
        0
    }
}

/// The digit that stands for a number below ten.
pub open spec fn digit_char(d: nat) -> char {
    ('0' as int + d) as char
}

/// The number that a row of digits stands for.
pub open spec fn value_of(s: Seq<char>) -> nat
    decreases s.len(),
{
    if s.len() == 0 {
        0
    } else {
        value_of(s.drop_last()) * 10 + digit_value(s.last())
    }
}

/// Every character is a digit.
pub open spec fn all_digits(s: Seq<char>) -> bool {
    forall|i: int| 0 <= i < s.len() ==> digit(#[trigger] s[i])
}

/// The digits of a number written after an optional plus sign.
pub open spec fn unsigned_body(s: Seq<char>) -> Seq<char> {
    if s.len() > 0 && s[0] == '+' {
        s.skip(1)
    } else {
        s
    }
}

/// The number that a text stands for, if it is one and is at most `max`: an
/// optional plus sign, then one or more digits.
pub open spec fn unsigned(s: Seq<char>, max: nat) -> Option<nat> {
    let body = unsigned_body(s);
    if body.len() > 0 && all_digits(body) && value_of(body) <= max {
        Some(value_of(body))
    } else {
        None
    }
}

/// The decimal text of a number.
pub open spec fn decimal(n: nat) -> Seq<char>
    decreases n,
{
    if n < 10 {
        seq![digit_char(n)]
    } else {
        decimal(n / 10).push(digit_char(n % 10))
    }
}

/// The decimal text of an integer, with a minus sign where it is negative.
pub open spec fn decimal_int(n: int) -> Seq<char> {
    if n < 0 {
        seq!['-'] + decimal((-n) as nat)
    } else {
        decimal(n as nat)
    }
}

/// The number of a prefix is at most that of the whole.
pub proof fn lemma_value_prefix(s: Seq<char>, i: int)
    requires
        0 <= i <= s.len(),
    ensures
        value_of(s.take(i)) <= value_of(s),
    decreases s.len(),
{
    if i == s.len() {
        assert(s.take(i) =~= s);
    } else {
        lemma_value_prefix(s.drop_last(), i);
        assert(s.drop_last().take(i) =~= s.take(i));
    }
}

/// The decimal text of a number is one or more digits, and stands for it.
pub proof fn lemma_decimal(n: nat)
    ensures
        decimal(n).len() > 0,
        all_digits(decimal(n)),
        value_of(decimal(n)) == n,
    decreases n,
{
    let s = decimal(n);
    if n < 10 {
        assert(s.drop_last() =~= Seq::empty());
        assert(value_of(s.drop_last()) == 0);
        assert(digit(digit_char(n)) && digit_value(digit_char(n)) == n);
    } else {
        lemma_decimal(n / 10);
        assert(s.drop_last() =~= decimal(n / 10));
        assert(digit(digit_char(n % 10)) && digit_value(digit_char(n % 10)) == n % 10);
    }
}

/// Reading the decimal text of a number gives the number back.
pub proof fn law_decimal_reads_back(n: nat, max: nat)
    requires
        n <= max,
    ensures
        unsigned(decimal(n), max) == Some(n),
{
    lemma_decimal(n);
    assert(digit(decimal(n)[0]));
}

/// A number is written in decimal digits, the last one for what is over ten times
/// the rest, and without a digit `0` before it.
pub proof fn law_decimal_digits(n: nat)
    ensures
        n < 10 ==> decimal(n) == seq!["0123456789"@[n as int]],
        n >= 10 ==> decimal(n) == decimal(n / 10).push("0123456789"@[(n % 10) as int]),
        n > 0 ==> decimal(n)[0] != '0',
        decimal_int(n as int) == decimal(n),
        n > 0 ==> decimal_int(-(n as int)) == seq!['-'] + decimal(n),
    decreases n,
{
    reveal_strlit("0123456789");
    if n >= 10 {
        law_decimal_digits(n / 10);
        lemma_decimal(n / 10);
        assert(decimal(n)[0] == decimal(n / 10)[0]);
    }
    assert(n >= 10 ==> decimal(n) =~= decimal(n / 10).push("0123456789"@[(n % 10) as int]));
    assert(n < 10 ==> decimal(n) =~= seq!["0123456789"@[n as int]]);
}

/// What reads as a number is one or more digits, after a plus sign or not; a text
/// with anything else in it does not read as one, nor does one above the limit.
/// The number grows tenfold with each digit.
pub proof fn law_unsigned(s: Seq<char>, c: char, max: nat)
    ensures
        unsigned(Seq::<char>::empty(), max) is None,
        unsigned(s, max) matches Some(n) ==> n <= max,
        unsigned(s, max) is Some ==> forall|i: int|
            0 <= i < s.len() ==> '0' <= #[trigger] s[i] <= '9' || (i == 0 && s[i] == '+'),
        '0' <= c <= '9' ==> unsigned(seq![c], max) == (if c as int - '0' as int <= max {
            Some((c as int - '0' as int) as nat)
        } else {
            None
        }),
        unsigned(s, max) matches Some(n) ==> ('0' <= c <= '9' ==> unsigned(s.push(c), max) == (if 10
            * n + (c as int - '0' as int) <= max {
            Some((10 * n + (c as int - '0' as int)) as nat)
        } else {
            None
        })),
        (!('0' <= c <= '9')) && s.len() > 0 ==> unsigned(s.push(c), max) is None,
{
    let body = unsigned_body(s);
    let more = unsigned_body(s.push(c));
    if s.len() > 0 {
        assert(more =~= body.push(c));
        assert(more.drop_last() =~= body);
        if '0' <= c <= '9' && all_digits(body) {
            assert forall|i: int| 0 <= i < more.len() implies digit(#[trigger] more[i]) by {
                if i < body.len() {
                    assert(more[i] == body[i]);
                }
            }
        }
        if !('0' <= c <= '9') {
            assert(!digit(more[more.len() - 1]));
        }
    }
    if unsigned(s, max) is Some {
        assert forall|i: int| 0 <= i < s.len() implies '0' <= #[trigger] s[i] <= '9' || (i == 0
            && s[i] == '+') by {
            if s[0] == '+' {
                if i > 0 {
                    assert(body[i - 1] == s[i]);
                    assert(digit(body[i - 1]));
                }
            } else {
                assert(digit(body[i]));
            }
        }
    }
    let one = seq![c];
    if '0' <= c <= '9' {
        assert(unsigned_body(one) =~= one);
        assert(one.drop_last() =~= Seq::<char>::empty());
        assert(all_digits(one));
        assert(value_of(one) == (c as int - '0' as int)) by {
            reveal_with_fuel(value_of, 2);
        }
    }
}

/// Two numbers with the same decimal text are the same.
pub proof fn law_decimal_injective(m: nat, n: nat)
    requires
        decimal(m) == decimal(n),
    ensures
        m == n,
{
    lemma_decimal(m);
    lemma_decimal(n);
}

/// The decimal text of a number.
pub fn decimal_text(n: u128) -> (r: String)
    ensures
        r@ == decimal(n as nat),
{
    let mut back: Vec<char> = Vec::new();
    let mut m: u128 = n;
    while m >= 10
        invariant
            decimal(n as nat) == decimal(m as nat) + back@.reverse(),
        decreases m,
    {
        let d: u8 = (m % 10) as u8;
        let ghost b0 = back@;
        let c: char = (48 + d) as char;
        back.push(c);
        assert(back@.reverse() =~= seq![c] + b0.reverse());
        assert(decimal(m as nat) =~= decimal((m / 10) as nat).push(c));
        assert(decimal((m / 10) as nat).push(c) + b0.reverse() =~= decimal((m / 10) as nat) + (
        seq![c] + b0.reverse()));
        m = m / 10;
    }
    let d: u8 = m as u8;
    let ghost b0 = back@;
    let c: char = (48 + d) as char;
    back.push(c);
    assert(back@.reverse() =~= seq![c] + b0.reverse());
    let mut r = String::new();
    let mut i: usize = back.len();
    assert(back@.skip(i as int).reverse() =~= r@);
    while i > 0
        invariant
            i <= back@.len(),
            r@ == back@.skip(i as int).reverse(),
        decreases i,
    {
        i = i - 1;
        let ghost r0 = r@;
        r.push(back[i]);
        assert(r@ =~= back@.skip(i as int).reverse());
    }
    assert(back@.skip(0) =~= back@);
    r
}

/// The decimal text of an integer.
pub fn decimal_int_text(n: i32) -> (r: String)
    ensures
        r@ == decimal_int(n as int),
{
    if n < 0 {
        let m: i64 = -(n as i64);
        let mut r = String::new();
        r.push('-');
        let t = decimal_text(m as u128);
        r.append(t.as_str());
        r
    } else {
        decimal_text(n as u128)
    }
}

/// The number that a text stands for, if it is one and is at most `max`.
pub fn parse_unsigned(s: &str, max: u128) -> (r: Option<u128>)
    ensures
        r is Some <==> unsigned(s@, max as nat) is Some,
        r matches Some(n) ==> unsigned(s@, max as nat) == Some(n as nat),
{
    let x = chars_of(s);
    let start: usize = if x.len() > 0 && x[0] == '+' {
        1
    } else {
        0
    };
    let ghost body = unsigned_body(s@);
    assert(body =~= s@.skip(start as int));
    if start == x.len() {
        return None;
    }
    let mut n: u128 = 0;
    let mut i: usize = start;
    while i < x.len()
        invariant
            start <= i <= x@.len(),
            x@ == s@,
            body == s@.skip(start as int),
            body == unsigned_body(s@),
            forall|j: int| 0 <= j < i - start ==> digit(#[trigger] body[j]),
            n == value_of(body.take(i - start)),
            n <= max,
        decreases x@.len() - i,
    {
        let c = x[i];
        assert(c == body[i - start]);
        if !('0' <= c && c <= '9') {
            return None;
        }
        let d: u128 = (c as u32 - '0' as u32) as u128;
        proof {
            assert(body.take(i - start + 1).drop_last() =~= body.take(i - start));
            assert(value_of(body.take(i - start + 1)) == n * 10 + d);
            lemma_value_prefix(body, i - start + 1);
        }
        if n > max / 10 {
            assert(n * 10 > max - d);
            return None;
        }
        let m: u128 = n * 10;
        if d > max || m > max - d {
            return None;
        }
        n = m + d;
        i = i + 1;
    }
    assert(body.take(x@.len() - start) =~= body);
    Some(n)
}

/// The number below 2^32 that a text stands for.
pub fn parse_u32(s: &str) -> (r: Option<u32>)
    ensures
        r is Some <==> unsigned(s@, u32::MAX as nat) is Some,
        r matches Some(n) ==> unsigned(s@, u32::MAX as nat) == Some(n as nat),
{
    match parse_unsigned(s, u32::MAX as u128) {
        Some(n) => Some(n as u32),
        None => None,
    }
}

} // verus!
