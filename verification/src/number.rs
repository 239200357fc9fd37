//! Numbers: decimal text, and double-precision values held as their bit patterns.

use crate::text::chars_of;
use vstd::prelude::*;

verus! {

/// The character of a decimal digit.
pub open spec fn digit_char(d: nat) -> char {
    (('0' as u32) + d) as char
}

/// Whether `c` is a decimal digit.
pub open spec fn is_digit(c: char) -> bool {
    '0' <= c && c <= '9'
}

/// The decimal digits of `n`, without leading zeros.
pub open spec fn digits(n: nat) -> Seq<char>
    decreases n,
{
    if n < 10 {
        seq![digit_char(n)]
    } else {
        digits(n / 10).push(digit_char(n % 10))
    }
}

/// The decimal text of an integer: its digits, after a minus sign where it is negative.
pub open spec fn integer_text(n: int) -> Seq<char> {
    if n < 0 {
        seq!['-'] + digits((-n) as nat)
    } else {
        digits(n as nat)
    }
}

/// The number that a run of decimal digits stands for.
pub open spec fn digits_value(s: Seq<char>) -> nat
    decreases s.len(),
{
    if s.len() == 0 {
        0
    } else {
        digits_value(s.drop_last()) * 10 + ((s.last() as u32) - ('0' as u32)) as nat
    }
}

/// Whether `s` is a run of decimal digits that does not start with a needless zero.
pub open spec fn plain_digits(s: Seq<char>) -> bool {
    &&& s.len() > 0
    &&& forall|i: int| 0 <= i < s.len() ==> is_digit(#[trigger] s[i])
    &&& s.len() > 1 ==> s[0] != '0'
}

proof fn lemma_digits_are_plain(n: nat)
    ensures
        plain_digits(digits(n)),
        digits_value(digits(n)) == n,
        n > 0 ==> digits(n)[0] != '0',
    decreases n,
{
    reveal_with_fuel(digits_value, 2);
    if n >= 10 {
        lemma_digits_are_plain(n / 10);
        assert(digits(n).drop_last() =~= digits(n / 10));
    } else {
        assert(digits(n).drop_last() =~= Seq::<char>::empty());
    }
}

proof fn lemma_plain_digits_value(s: Seq<char>)
    requires
        plain_digits(s),
    ensures
        digits(digits_value(s)) == s,
        s[0] != '0' ==> digits_value(s) > 0,
    decreases s.len(),
{
    reveal_with_fuel(digits_value, 2);
    if s.len() == 1 {
        assert(s.drop_last() =~= Seq::<char>::empty());
        assert(s =~= seq![s[0]]);
    } else {
        let front = s.drop_last();
        assert(plain_digits(front));
        lemma_plain_digits_value(front);
        assert(s =~= front.push(s.last()));
    }
}

proof fn lemma_digits_value_grows(s: Seq<char>, k: int)
    requires
        0 <= k <= s.len(),
        forall|i: int| 0 <= i < s.len() ==> is_digit(#[trigger] s[i]),
    ensures
        digits_value(s.take(k)) <= digits_value(s),
    decreases s.len() - k,
{
    if k == s.len() {
        assert(s.take(k) =~= s);
    } else {
        lemma_digits_value_grows(s, k + 1);
        assert(s.take(k + 1).drop_last() =~= s.take(k));
    }
}

/// The integer in the range of `i64` whose decimal text is `s`, where there is one.
pub open spec fn integer_with_text(s: Seq<char>) -> Option<i64> {
    if exists|n: i64| #[trigger] integer_text(n as int) == s {
        Some(choose|n: i64| #[trigger] integer_text(n as int) == s)
    } else {
        None
    }
}

/// No two integers have the same decimal text.
pub proof fn law_decimal_text_is_unique(a: int, b: int)
    requires
        integer_text(a) == integer_text(b),
    ensures
        a == b,
{
    let x = if a < 0 {
        -a
    } else {
        a
    } as nat;
    let y = if b < 0 {
        -b
    } else {
        b
    } as nat;
    lemma_digits_are_plain(x);
    lemma_digits_are_plain(y);
    let s = integer_text(a);
    if a < 0 && b < 0 {
        assert(s.skip(1) =~= digits(x));
        assert(s.skip(1) =~= digits(y));
    } else if a < 0 {
        assert(s[0] == '-' && is_digit(s[0]));
    } else if b < 0 {
        assert(s[0] == '-' && is_digit(s[0]));
    }
}

/// The decimal text of `n`.
pub fn decimal_text(n: u64) -> (r: String)
    ensures
        r@ == digits(n as nat),
    decreases n,
{
    let last: u8 = (n % 10) as u8;
    let c: char = (48 + last) as char;
    if n < 10 {
        let mut r = String::new();
        r.push(c);
        assert(r@ =~= digits(n as nat));
        r
    } else {
        let mut r = decimal_text(n / 10);
        r.push(c);
        r
    }
}

/// The integer whose decimal text is `s`, where there is one in the range of `i64`.
pub fn canonical_integer(s: &str) -> (r: Option<i64>)
    ensures
        r == integer_with_text(s@),
{
    let r = parse_canonical(s);
    proof {
        if let Some(n) = r {
            let m = choose|m: i64| #[trigger] integer_text(m as int) == s@;
            law_decimal_text_is_unique(n as int, m as int);
        }
    }
    r
}

fn parse_canonical(s: &str) -> (r: Option<i64>)
    ensures
        r matches Some(n) ==> integer_text(n as int) == s@,
        r is None ==> forall|n: i64| #[trigger] integer_text(n as int) != s@,
{
    let chars = chars_of(s);
    let negative: bool = chars.len() > 0 && chars[0] == '-';
    let start: usize = if negative { 1 } else { 0 };
    let ghost body = s@.skip(start as int);
    proof {
        assert forall|n: i64| #[trigger] integer_text(n as int) == s@ implies plain_digits(body)
            && (n < 0 <==> negative) && digits_value(body) == (if n < 0 { -(n as int) } else { n as int })
            && (negative ==> body[0] != '0') by {
            if n < 0 {
                lemma_digits_are_plain((-(n as int)) as nat);
                assert(body =~= digits((-(n as int)) as nat));
            } else {
                lemma_digits_are_plain(n as nat);
                assert(s@[0] == digits(n as nat)[0]);
                assert(body =~= s@);
            }
        }
    }
    if chars.len() == start {
        return None;
    }
    if chars[start] == '0' && (negative || chars.len() > start + 1) {
        assert(body[0] == '0');
        return None;
    }
    let mut value: u64 = 0;
    let mut i: usize = start;
    while i < chars.len()
        invariant
            start <= i <= chars.len(),
            chars@ == s@,
            body == s@.skip(start as int),
            value <= 0x8000_0000_0000_0000,
            value == digits_value(body.take(i - start)),
            forall|j: int| 0 <= j < i - start ==> is_digit(#[trigger] body[j]),
            forall|n: i64| #[trigger] integer_text(n as int) == s@ ==> plain_digits(body) && digits_value(
                body,
            ) == (if n < 0 {
                -(n as int)
            } else {
                n as int
            }),
        decreases chars.len() - i,
    {
        let c = chars[i];
        if !('0' <= c && c <= '9') {
            assert(body[i - start] == c);
            return None;
        }
        assert(body[i - start] == c);
        assert(body.take(i - start + 1).drop_last() =~= body.take(i - start));
        let d: u64 = (c as u32 - '0' as u32) as u64;
        if value > 0x0ccc_cccc_cccc_cccc || value * 10 + d > 0x8000_0000_0000_0000 {
            proof {
                assert(digits_value(body.take(i - start + 1)) > 0x8000_0000_0000_0000);
                if plain_digits(body) {
                    lemma_digits_value_grows(body, i - start + 1);
                }
            }
            return None;
        }
        value = value * 10 + d;
        i += 1;
    }
    assert(body.take(i - start) =~= body);
    assert(plain_digits(body)) by {
        assert(body[0] == chars[start as int]);
    }
    proof {
        lemma_plain_digits_value(body);
    }
    if negative {
        assert(s@ =~= seq!['-'] + body);
        assert(value > 0);
        if value == 0x8000_0000_0000_0000 {
            Some(i64::MIN)
        } else {
            Some(-(value as i64))
        }
    } else {
        assert(s@ =~= body);
        if value == 0x8000_0000_0000_0000 {
            None
        } else {
            Some(value as i64)
        }
    }
}

/// The end of the run of digits at `i`.
pub open spec fn digits_end(s: Seq<char>, i: int) -> int
    decreases s.len() - i,
{
    if 0 <= i < s.len() && is_digit(s[i]) {
        digits_end(s, i + 1)
    } else {
        i
    }
}

/// A run of digits ends inside the text.
pub proof fn lemma_digits_end(s: Seq<char>, i: int)
    requires
        0 <= i <= s.len(),
    ensures
        i <= digits_end(s, i) <= s.len(),
    decreases s.len() - i,
{
    if i < s.len() && is_digit(s[i]) {
        lemma_digits_end(s, i + 1);
    }
}

/// Where the run of digits at `from` ends.
pub fn scan_digits(chars: &Vec<char>, from: usize) -> (end: usize)
    requires
        from <= chars.len(),
    ensures
        end == digits_end(chars@, from as int),
        from <= end <= chars.len(),
{
    let mut i: usize = from;
    while i < chars.len() && '0' <= chars[i] && chars[i] <= '9'
        invariant
            from <= i <= chars.len(),
            digits_end(chars@, from as int) == digits_end(chars@, i as int),
        decreases chars.len() - i,
    {
        i += 1;
    }
    i
}

/// Whether a text is a number as JSON writes it: without a plus sign or leading zeros, and with
/// digits on both sides of a point and behind an exponent marker.
pub open spec fn is_decimal_text(s: Seq<char>) -> bool {
    let start = if s.len() > 0 && s[0] == '-' {
        1int
    } else {
        0
    };
    let whole = digits_end(s, start);
    let fraction = if whole < s.len() && s[whole] == '.' {
        digits_end(s, whole + 1)
    } else {
        whole
    };
    let marked = fraction < s.len() && (s[fraction] == 'e' || s[fraction] == 'E');
    let exponent = if marked && fraction + 1 < s.len() && (s[fraction + 1] == '+' || s[fraction + 1]
        == '-') {
        fraction + 2
    } else {
        fraction + 1
    };
    &&& whole > start
    &&& whole == start + 1 || s[start] != '0'
    &&& fraction == whole || fraction > whole + 1
    &&& if marked {
        digits_end(s, exponent) > exponent && digits_end(s, exponent) == s.len()
    } else {
        fraction == s.len()
    }
}

/// Whether a text is a number as JSON writes it.
pub fn has_decimal_text(s: &str) -> (r: bool)
    ensures
        r == is_decimal_text(s@),
{
    let chars = chars_of(s);
    let start: usize = if chars.len() > 0 && chars[0] == '-' {
        1
    } else {
        0
    };
    let whole: usize = scan_digits(&chars, start);
    if whole == start || (whole > start + 1 && chars[start] == '0') {
        return false;
    }
    let mut fraction: usize = whole;
    if whole < chars.len() && chars[whole] == '.' {
        fraction = scan_digits(&chars, whole + 1);
        if fraction == whole + 1 {
            return false;
        }
    }
    if fraction < chars.len() && (chars[fraction] == 'e' || chars[fraction] == 'E') {
        let mut exponent: usize = fraction + 1;
        if exponent < chars.len() && (chars[exponent] == '+' || chars[exponent] == '-') {
            exponent += 1;
        }
        let end: usize = scan_digits(&chars, exponent);
        end > exponent && end == chars.len()
    } else {
        fraction == chars.len()
    }
}

/// The bit pattern of positive infinity.
pub const INFINITY_BITS: u64 = 0x7ff0_0000_0000_0000;

/// The bit that marks a negative double.
pub const SIGN_BIT: u64 = 0x8000_0000_0000_0000;

/// The size of a double, as the bit pattern without the sign.
pub open spec fn magnitude(bits: u64) -> int {
    if bits < SIGN_BIT {
        bits as int
    } else {
        bits - SIGN_BIT
    }
}

/// Whether the bit pattern stands for no number at all.
pub open spec fn is_nan(bits: u64) -> bool {
    magnitude(bits) > INFINITY_BITS
}

/// Whether the bit pattern stands for a finite double.
pub open spec fn is_finite(bits: u64) -> bool {
    magnitude(bits) < INFINITY_BITS
}

/// An integer that orders doubles as their values do; both zeros share one key.
pub open spec fn order_key(bits: u64) -> int {
    if bits < SIGN_BIT {
        magnitude(bits)
    } else {
        -magnitude(bits)
    }
}

/// Whether the double `x` is less than the double `y`.
pub open spec fn double_less(x: u64, y: u64) -> bool {
    !is_nan(x) && !is_nan(y) && order_key(x) < order_key(y)
}

/// Whether two doubles are the same value.
pub open spec fn double_same(x: u64, y: u64) -> bool {
    !is_nan(x) && !is_nan(y) && order_key(x) == order_key(y)
}

/// The bit pattern of the double nearest to what a decimal text stands for, where the text is a
/// number and that double is finite.
pub uninterp spec fn nearest_double(text: Seq<char>) -> Option<u64>;

/// The bit pattern of the double nearest to an integer, where JSON numbers can hold the integer.
pub uninterp spec fn integer_double(n: int) -> Option<u64>;

/// The text that the `Debug` format prints for the double nearest to what a decimal text stands
/// for, where the text is a number and that double is finite.
pub uninterp spec fn nearest_double_debug(text: Seq<char>) -> Option<Seq<char>>;

/// `str::parse` into a double, kept where `serde_json::Number::from_f64` takes it: it takes the
/// finite ones and only those. Which double a text gives depends on the text alone and is called
/// `nearest_double`.
#[verifier::external_body]
pub(crate) fn parse_double(text: &str) -> (bits: Option<u64>)
    ensures
        bits == nearest_double(text@),
        bits matches Some(b) ==> is_finite(b),
{
    serde_json::Number::from_f64(text.parse().ok()?)?.as_f64().map(|d| d.to_bits())
}

/// The `Debug` format of a double that `str::parse` gives, kept where `serde_json::Number::from_f64`
/// takes it. The printed text depends on the parsed text alone and is called
/// `nearest_double_debug`; it is there exactly where the double is finite.
#[verifier::external_body]
pub(crate) fn parse_double_debug(text: &str) -> (r: Option<String>)
    ensures
        crate::text::optional_text(r) == nearest_double_debug(text@),
        r is Some <==> nearest_double(text@) is Some,
{
    serde_json::Number::from_f64(text.parse().ok()?)?.as_f64().map(|d| format!("{:?}", d))
}

/// `serde_json::Number::as_f64` of an integer. It is defined from the least `i64` to the greatest
/// `u64`; the double depends on the integer alone and is called `integer_double`.
#[verifier::external_body]
pub(crate) fn double_of_integer(n: i128) -> (bits: Option<u64>)
    ensures
        bits == integer_double(n as int),
        i64::MIN <= n <= u64::MAX ==> bits is Some,
        bits matches Some(b) ==> is_finite(b),
{
    serde_json::Number::from_i128(n)?.as_f64().map(|d| d.to_bits())
}

fn double_magnitude(bits: u64) -> (r: u64)
    ensures
        r == magnitude(bits),
{
    if bits < SIGN_BIT {
        bits
    } else {
        bits - SIGN_BIT
    }
}

/// Whether the double `x` is less than the double `y`.
pub fn double_is_less(x: u64, y: u64) -> (r: bool)
    ensures
        r == double_less(x, y),
{
    let a: u64 = double_magnitude(x);
    let b: u64 = double_magnitude(y);
    if a > INFINITY_BITS || b > INFINITY_BITS {
        false
    } else if x < SIGN_BIT {
        y < SIGN_BIT && a < b
    } else if y < SIGN_BIT {
        a > 0 || b > 0
    } else {
        a > b
    }
}

/// Whether two doubles are the same value.
pub fn double_is_same(x: u64, y: u64) -> (r: bool)
    ensures
        r == double_same(x, y),
{
    let a: u64 = double_magnitude(x);
    let b: u64 = double_magnitude(y);
    a <= INFINITY_BITS && b <= INFINITY_BITS && a == b && (a == 0 || (x < SIGN_BIT) == (y
        < SIGN_BIT))
}

} // verus!
