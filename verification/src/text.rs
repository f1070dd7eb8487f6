//! Decimal text of integers, and small string helpers.
use vstd::prelude::*;

verus! {

/// The character of a decimal digit `d` (0 to 9).
pub open spec fn digit_char(d: int) -> char {
    (d + 48) as char
}

/// The decimal digits of a natural number, with no leading zeros.
pub open spec fn nat_digits(n: nat) -> Seq<char>
    decreases n,
{
    if n < 10 {
        seq![digit_char(n as int)]
    } else {
        nat_digits(n / 10).push(digit_char((n % 10) as int))
    }
}

/// The decimal text of an integer: a `-` before a negative one, then its digits.
pub open spec fn decimal(n: int) -> Seq<char> {
    if n < 0 {
        seq!['-'] + nat_digits((-n) as nat)
    } else {
        nat_digits(n as nat)
    }
}

/// Whether every character of `s` is an ASCII decimal digit.
pub open spec fn all_digits(s: Seq<char>) -> bool {
    forall|i: int| 0 <= i < s.len() ==> '0' <= #[trigger] s[i] <= '9'
}

/// The value of a string of decimal digits.
pub open spec fn digits_value(s: Seq<char>) -> int
    decreases s.len(),
{
    if s.len() == 0 {
        0
    } else {
        digits_value(s.drop_last()) * 10 + (s.last() as int - 48)
    }
}

/// The decimal digits of a number are digits, and there is at least one.
pub proof fn lemma_nat_digits_shape(n: nat)
    ensures
        nat_digits(n).len() >= 1,
        n >= 10 ==> nat_digits(n).len() >= 2,
        all_digits(nat_digits(n)),
    decreases n,
{
    if n >= 10 {
        lemma_nat_digits_shape(n / 10);
        let d = nat_digits(n / 10);
        assert forall|i: int| 0 <= i < nat_digits(n).len() implies '0' <= #[trigger] nat_digits(
            n,
        )[i] <= '9' by {
            if i < d.len() {
                assert(nat_digits(n)[i] == d[i]);
            }
        }
    }
}

/// Different natural numbers have different decimal digits.
pub proof fn lemma_nat_digits_injective(a: nat, b: nat)
    requires
        nat_digits(a) == nat_digits(b),
    ensures
        a == b,
    decreases a,
{
    lemma_nat_digits_shape(a);
    lemma_nat_digits_shape(b);
    if a >= 10 && b >= 10 {
        let da = nat_digits(a / 10);
        let db = nat_digits(b / 10);
        assert(da =~= nat_digits(a).drop_last());
        assert(db =~= nat_digits(b).drop_last());
        lemma_nat_digits_injective(a / 10, b / 10);
        assert(nat_digits(a).last() == digit_char((a % 10) as int));
        assert(nat_digits(b).last() == digit_char((b % 10) as int));
        assert((a % 10) as int == (b % 10) as int);
    } else if a < 10 && b < 10 {
        assert(nat_digits(a)[0] == digit_char(a as int));
        assert(nat_digits(b)[0] == digit_char(b as int));
    }
}

/// Different integers have different decimal text.
pub proof fn lemma_decimal_injective(a: int, b: int)
    requires
        decimal(a) == decimal(b),
    ensures
        a == b,
{
    if a < 0 && b < 0 {
        assert(nat_digits((-a) as nat) =~= decimal(a).drop_first());
        assert(nat_digits((-b) as nat) =~= decimal(b).drop_first());
        lemma_nat_digits_injective((-a) as nat, (-b) as nat);
    } else if a >= 0 && b >= 0 {
        lemma_nat_digits_injective(a as nat, b as nat);
    } else if a < 0 {
        lemma_nat_digits_shape(b as nat);
        assert(decimal(a)[0] == '-');
        assert('0' <= decimal(b)[0] <= '9');
    } else {
        lemma_nat_digits_shape(a as nat);
        assert(decimal(b)[0] == '-');
        assert('0' <= decimal(a)[0] <= '9');
    }
}

/// What `str::parse::<i64>` reads from `s`: an optional `+` or `-`, then one
/// or more decimal digits, whose value must fit in an `i64`.
pub open spec fn spec_parse_i64(s: Seq<char>) -> Option<i64> {
    let signed = s.len() > 0 && (s[0] == '-' || s[0] == '+');
    let digits = if signed {
        s.drop_first()
    } else {
        s
    };
    let value = if s.len() > 0 && s[0] == '-' {
        -digits_value(digits)
    } else {
        digits_value(digits)
    };
    if digits.len() == 0 || !all_digits(digits) {
        None
    } else if i64::MIN <= value <= i64::MAX {
        Some(value as i64)
    } else {
        None
    }
}

/// Writes `n` in decimal, through `i64`'s `Display` (`ToString::to_string`).
/// Trusted: std documents that an integer displays as its decimal digits,
/// with a leading `-` when it is negative and no leading zeros.
#[verifier::external_body]
pub fn i64_text(n: i64) -> (s: String)
    ensures
        s@ == decimal(n as int),
{
    n.to_string()
}

/// Reads an `i64` with `str::parse::<i64>`.
/// Trusted: std documents that the text must be an optional `+` or `-` sign
/// followed by decimal digits only, and that a value out of range is an error.
#[verifier::external_body]
pub fn parse_i64(s: &str) -> (r: Option<i64>)
    ensures
        r == spec_parse_i64(s@),
{
    s.parse::<i64>().ok()
}

/// Whether `a` holds the same text as `b`.
pub fn text_is(a: &str, b: &str) -> (r: bool)
    ensures
        r == (a@ == b@),
{
    let left = a.to_owned();
    let right = b.to_owned();
    left.eq(&right)
}

/// `a` followed by `b`, as a new string.
pub fn join2(a: &str, b: &str) -> (r: String)
    ensures
        r@ == a@ + b@,
{
    let mut r = a.to_owned();
    r.append(b);
    r
}

/// `a`, `b` and `c` one after another, as a new string.
pub fn join3(a: &str, b: &str, c: &str) -> (r: String)
    ensures
        r@ == a@ + b@ + c@,
{
    let mut r = a.to_owned();
    r.append(b);
    r.append(c);
    r
}

} // verus!
