//! Decimal text of integers, as std formats and parses it.
use vstd::prelude::*;

verus! {

/// The ASCII digit for `d`, which lies in `0..10`.
pub open spec fn digit_char(d: int) -> char {
    ((d + 48) as u32) as char
}

pub open spec fn is_digit(c: char) -> bool {
    48 <= (c as u32) && (c as u32) <= 57
}

pub open spec fn digit_value(c: char) -> int {
    (c as u32) as int - 48
}

/// Decimal digits of `n`, most significant first, without leading zeros.
pub open spec fn nat_text(n: nat) -> Seq<char>
    decreases n,
{
    if n < 10 {
        seq![digit_char(n as int)]
    } else {
        nat_text(n / 10).push(digit_char((n % 10) as int))
    }
}

/// Decimal text of `n`, with a leading `-` when it is negative.
pub open spec fn int_text(n: int) -> Seq<char> {
    if n < 0 {
        seq!['-'] + nat_text((-n) as nat)
    } else {
        nat_text(n as nat)
    }
}

pub open spec fn all_digits(t: Seq<char>) -> bool {
    forall|i: int| 0 <= i < t.len() ==> is_digit(#[trigger] t[i])
}

/// The value of a run of decimal digits.
pub open spec fn digits_value(t: Seq<char>) -> nat
    decreases t.len(),
{
    if t.len() == 0 {
        0
    } else {
        (digits_value(t.drop_last()) * 10 + digit_value(t.last())) as nat
    }
}

/// What a string means as an unsigned decimal: an optional `+`, then one or
/// more digits.
pub open spec fn unsigned_value(t: Seq<char>) -> Option<int> {
    let d = if t.len() > 0 && t[0] == '+' { t.drop_first() } else { t };
    if d.len() > 0 && all_digits(d) {
        Some(digits_value(d) as int)
    } else {
        None
    }
}

/// What a string means as a signed decimal: an optional `+` or `-`, then one
/// or more digits.
pub open spec fn signed_value(t: Seq<char>) -> Option<int> {
    if t.len() > 0 && t[0] == '-' {
        let d = t.drop_first();
        if d.len() > 0 && all_digits(d) {
            Some(-(digits_value(d) as int))
        } else {
            None
        }
    } else {
        unsigned_value(t)
    }
}

/// Relies on `<u64 as Display>` (through `ToString`): decimal digits, no sign,
/// no leading zeros.
#[verifier::external_body]
pub(crate) fn u64_text(v: u64) -> (r: String)
    ensures
        r@ == nat_text(v as nat),
{
    v.to_string()
}

/// Relies on `<usize as Display>` (through `ToString`): decimal digits, no
/// sign, no leading zeros.
#[verifier::external_body]
pub(crate) fn usize_text(v: usize) -> (r: String)
    ensures
        r@ == nat_text(v as nat),
{
    v.to_string()
}

/// Relies on `<i64 as Display>` (through `ToString`): decimal digits, with a
/// `-` before a negative value.
#[verifier::external_body]
pub(crate) fn i64_text(v: i64) -> (r: String)
    ensures
        r@ == int_text(v as int),
{
    v.to_string()
}

/// Relies on `<u64 as FromStr>::from_str`: an optional `+` and ASCII digits,
/// nothing else, with the value in range.
#[verifier::external_body]
pub(crate) fn parse_u64(t: &str) -> (r: Option<u64>)
    ensures
        r is Some <==> (unsigned_value(t@) is Some && unsigned_value(t@).unwrap() <= u64::MAX),
        r is Some ==> r.unwrap() as int == unsigned_value(t@).unwrap(),
{
    t.parse::<u64>().ok()
}

/// Relies on `<i64 as FromStr>::from_str`: an optional `+` or `-` and ASCII
/// digits, nothing else, with the value in range.
#[verifier::external_body]
pub(crate) fn parse_i64(t: &str) -> (r: Option<i64>)
    ensures
        r is Some <==> (signed_value(t@) is Some && i64::MIN <= signed_value(t@).unwrap()
            <= i64::MAX),
        r is Some ==> r.unwrap() as int == signed_value(t@).unwrap(),
{
    t.parse::<i64>().ok()
}

pub proof fn lemma_digit_char(d: int)
    requires
        0 <= d < 10,
    ensures
        is_digit(digit_char(d)),
        digit_value(digit_char(d)) == d,
{
}

pub proof fn lemma_nat_text(n: nat)
    ensures
        nat_text(n).len() > 0,
        all_digits(nat_text(n)),
        digits_value(nat_text(n)) == n,
        nat_text(n)[0] != '-' && nat_text(n)[0] != '+',
    decreases n,
{
    if n < 10 {
        lemma_digit_char(n as int);
        assert(nat_text(n).drop_last() =~= Seq::<char>::empty());
        assert(digits_value(Seq::<char>::empty()) == 0);
        assert(digits_value(nat_text(n)) == n);
    } else {
        lemma_nat_text(n / 10);
        lemma_digit_char((n % 10) as int);
        let t = nat_text(n);
        assert(t.drop_last() == nat_text(n / 10));
        assert(t.last() == digit_char((n % 10) as int));
        assert(digits_value(t) == (n / 10) * 10 + n % 10);
        assert forall|i: int| 0 <= i < t.len() implies is_digit(#[trigger] t[i]) by {
            if i < t.len() - 1 {
                assert(t[i] == nat_text(n / 10)[i]);
            }
        }
    }
}

/// Reading the decimal text of an integer gives back that integer.
pub proof fn lemma_int_text_round_trip(n: int)
    ensures
        signed_value(int_text(n)) == Some(n),
        n >= 0 ==> unsigned_value(int_text(n)) == Some(n),
{
    if n < 0 {
        lemma_nat_text((-n) as nat);
        assert((seq!['-'] + nat_text((-n) as nat)).drop_first() == nat_text((-n) as nat));
    } else {
        lemma_nat_text(n as nat);
    }
}

} // verus!
