//! Numbers as text: decimal and hexadecimal digits, parsing, and token
//! counts in thousands.

use vstd::prelude::*;
use vstd::string::*;

use crate::text;

verus! {

/// The character of a decimal digit.
pub open spec fn digit_char(d: nat) -> char {
    (48 + d) as char
}

/// The decimal digits of `n`.
pub open spec fn decimal_spec(n: nat) -> Seq<char>
    decreases n,
{
    if n < 10 {
        seq![digit_char(n)]
    } else {
        decimal_spec(n / 10).push(digit_char(n % 10))
    }
}

/// The decimal digits of `n`.
pub fn decimal(n: u64) -> (out: String)
    ensures
        out@ == decimal_spec(n as nat),
    decreases n,
{
    let d: u8 = (n % 10) as u8;
    let c = (48 + d) as char;
    assert(c == digit_char((n % 10) as nat));
    if n < 10 {
        let mut out = String::new();
        out.push(c);
        assert(out@ =~= seq![digit_char(n as nat)]);
        out
    } else {
        let mut out = decimal(n / 10);
        out.push(c);
        out
    }
}

/// The decimal digits of a length.
pub fn decimal_len(n: usize) -> (out: String)
    ensures
        out@ == decimal_spec(n as nat),
{
    decimal(n as u64)
}

/// A signed number: a minus sign where it is negative, then the digits.
pub open spec fn signed_spec(n: int) -> Seq<char> {
    if n < 0 {
        seq!['-'] + decimal_spec((-n) as nat)
    } else {
        decimal_spec(n as nat)
    }
}

/// A signed number as text.
pub fn signed(n: i32) -> (out: String)
    ensures
        out@ == signed_spec(n as int),
{
    let wide: i64 = n as i64;
    if wide < 0 {
        let mut out = String::new();
        out.push('-');
        let digits = decimal((0 - wide) as u64);
        out.append(digits.as_str());
        assert(out@ =~= seq!['-'] + digits@);
        out
    } else {
        decimal(wide as u64)
    }
}

/// The character of a lower-case hexadecimal digit.
pub open spec fn hex_char(d: nat) -> char {
    if d < 10 {
        (48 + d) as char
    } else {
        (87 + d) as char
    }
}

/// Four lower-case hexadecimal digits.
pub open spec fn hex4_spec(n: nat) -> Seq<char> {
    seq![hex_char(n / 4096 % 16), hex_char(n / 256 % 16), hex_char(n / 16 % 16), hex_char(n % 16)]
}

fn hex_digit(d: u32) -> (c: char)
    requires
        d < 16,
    ensures
        c == hex_char(d as nat),
{
    if d < 10 {
        (48 + d as u8) as char
    } else {
        (87 + d as u8) as char
    }
}

/// Four lower-case hexadecimal digits of a 16-bit value.
pub fn hex4(n: u32) -> (out: String)
    requires
        n < 65536,
    ensures
        out@ == hex4_spec(n as nat),
{
    let mut out = String::new();
    out.push(hex_digit(n / 4096 % 16));
    out.push(hex_digit(n / 256 % 16));
    out.push(hex_digit(n / 16 % 16));
    out.push(hex_digit(n % 16));
    assert(out@ =~= hex4_spec(n as nat));
    out
}

/// Whether every character is a decimal digit.
pub open spec fn all_digits(s: Seq<char>) -> bool {
    forall|i: int| 0 <= i < s.len() ==> '0' <= #[trigger] s[i] <= '9'
}

/// The number that a row of decimal digits stands for.
pub open spec fn digits_value(s: Seq<char>) -> nat
    decreases s.len(),
{
    if s.len() == 0 {
        0
    } else {
        digits_value(s.drop_last()) * 10 + (s.last() as nat - 48) as nat
    }
}

/// The digits of an unsigned number's text: a leading plus sign is allowed.
pub open spec fn unsigned_digits(s: Seq<char>) -> Seq<char> {
    if s.len() > 0 && s[0] == '+' {
        s.skip(1)
    } else {
        s
    }
}

/// The number written in `s`, where it is one and does not exceed `limit`.
pub open spec fn parse_spec(s: Seq<char>, limit: nat) -> Option<nat> {
    let d = unsigned_digits(s);
    if d.len() > 0 && all_digits(d) && digits_value(d) <= limit {
        Some(digits_value(d))
    } else {
        None
    }
}

/// The digits of a number stand for that number.
pub proof fn lemma_decimal_reads_back(n: nat)
    ensures
        decimal_spec(n).len() > 0,
        all_digits(decimal_spec(n)),
        digits_value(decimal_spec(n)) == n,
    decreases n,
{
    let d = n % 10;
    assert('0' <= digit_char(d) <= '9' && digit_char(d) as nat - 48 == d);
    if n < 10 {
        assert(decimal_spec(n).drop_last() =~= seq![]);
        assert(digits_value(decimal_spec(n).drop_last()) == 0);
    } else {
        lemma_decimal_reads_back(n / 10);
        assert(decimal_spec(n).drop_last() =~= decimal_spec(n / 10));
    }
}

/// Hexadecimal digits are small letters and digits.
pub proof fn lemma_hex_is_plain(n: nat)
    ensures
        forall|i: int|
            0 <= i < hex4_spec(n).len() ==> '0' <= #[trigger] hex4_spec(n)[i] <= '9' || 'a'
                <= hex4_spec(n)[i] <= 'f',
{
    assert forall|d: nat| d < 16 implies '0' <= #[trigger] hex_char(d) <= '9' || 'a' <= hex_char(d)
        <= 'f' by {}
}

proof fn lemma_digits_value_grows(s: Seq<char>, i: int)
    requires
        0 <= i <= s.len(),
    ensures
        digits_value(s.take(i)) <= digits_value(s),
    decreases s.len() - i,
{
    if i == s.len() {
        assert(s.take(i) =~= s);
    } else {
        assert(s.take(i + 1).drop_last() =~= s.take(i));
        lemma_digits_value_grows(s, i + 1);
    }
}

/// The number written in `s`, where it is one and does not exceed `limit`.
pub fn parse(s: &str, limit: u64) -> (r: Option<u64>)
    ensures
        match r {
            Some(n) => parse_spec(s@, limit as nat) == Some(n as nat),
            None => parse_spec(s@, limit as nat) is None,
        },
{
    let v = text::chars(s);
    let start: usize = if v.len() > 0 && v[0] == '+' {
        1
    } else {
        0
    };
    let ghost d = v@.skip(start as int);
    assert(start == 0 ==> d =~= v@);
    if v.len() == start {
        return None;
    }
    let mut value: u64 = 0;
    let mut i: usize = start;
    while i < v.len()
        invariant
            start <= i <= v@.len(),
            d == v@.skip(start as int),
            value <= limit,
            value == digits_value(d.take(i - start)),
            forall|j: int| 0 <= j < i - start ==> '0' <= #[trigger] d[j] <= '9',
            d == unsigned_digits(s@),
        decreases v@.len() - i,
    {
        let c = v[i];
        assert(d[i - start] == c);
        if c < '0' || c > '9' {
            assert(!all_digits(d));
            return None;
        }
        let digit: u64 = (c as u32 - 48) as u64;
        assert(d.take(i - start + 1).drop_last() =~= d.take(i - start));
        assert(digits_value(d.take(i - start + 1)) == value * 10 + digit);
        proof {
            lemma_digits_value_grows(d, i - start + 1);
        }
        if digit > limit || value > (limit - digit) / 10 {
            return None;
        }
        value = value * 10 + digit;
        i = i + 1;
    }
    assert(d.take(v@.len() - start) =~= d);
    Some(value)
}

// ---------------------------------------------------------------------------
// Thousands with one decimal
// ---------------------------------------------------------------------------

/// `num / den` rounded to a whole number, a tie going to the even one.
pub open spec fn round_half_even(num: nat, den: nat) -> nat {
    let q = num / den;
    let r = num % den;
    if 2 * r < den || (2 * r == den && q % 2 == 0) {
        q
    } else {
        q + 1
    }
}

/// `n` and `up` doubled until `n / den` fills a 53-bit significand.
pub open spec fn grown(n: nat, den: nat, up: nat) -> (nat, nat)
    decreases
            if n < den * 0x10_0000_0000_0000 {
                den * 0x10_0000_0000_0000 - n
            } else {
                0
            },
{
    if n == 0 || n >= den * 0x10_0000_0000_0000 {
        (n, up)
    } else {
        grown(2 * n, den, 2 * up)
    }
}

/// `den` and `down` doubled until `n / den` fits a 53-bit significand.
pub open spec fn shrunk(n: nat, den: nat, down: nat) -> (nat, nat)
    decreases n - den,
{
    if den == 0 || n < den * 0x20_0000_0000_0000 {
        (den, down)
    } else {
        shrunk(n, 2 * den, 2 * down)
    }
}

/// The double-precision number nearest to `num / den`, as significand,
/// doublings and halvings: its value is `m * down / up`.
pub open spec fn nearest_double(num: nat, den: nat) -> (nat, nat, nat) {
    let (n, up) = grown(num, den, 1);
    let (d, down) = shrunk(n, den, 1);
    (round_half_even(n, d), down, up)
}

/// The double-precision number nearest to a whole number.
pub open spec fn whole_double(n: nat) -> nat {
    let (d, down) = shrunk(n, 1, 1);
    round_half_even(n, d) * down
}

/// A count in thousands, as a whole number of tenths: the count and the
/// quotient are rounded to double precision, then the quotient to one
/// decimal.
pub open spec fn tenths_of_thousand(count: nat) -> nat {
    let (m, down, up) = nearest_double(whole_double(count), 1000);
    round_half_even(10 * (m * down), up)
}

fn rounded(num: u128, den: u128) -> (r: u128)
    requires
        den > 0,
        num < 0x8000_0000_0000_0000_0000_0000,
    ensures
        r == round_half_even(num as nat, den as nat),
        r <= num / den + 1,
{
    let q: u128 = num / den;
    let rest: u128 = num % den;
    let below: u128 = den - rest;
    assert(q < 0x8000_0000_0000_0000_0000_0000) by {
        assert(num / den <= num) by (nonlinear_arith)
            requires
                den > 0,
        ;
    }
    if rest < below || (rest == below && q % 2 == 0) {
        q
    } else {
        q + 1
    }
}

fn shrink(n: u128, den: u128) -> (r: (u128, u128))
    requires
        0 < den <= 1000,
        n <= 0x2_0000_0000_0000_0000,
    ensures
        shrunk(n as nat, den as nat, 1) == (r.0 as nat, r.1 as nat),
        r.0 > 0,
        r.1 > 0,
        r.1 <= 8192,
        n < r.0 * 0x20_0000_0000_0000,
{
    let mut d: u128 = den;
    let mut down: u128 = 1;
    while n >= d * 0x20_0000_0000_0000
        invariant
            0 < d <= 8192,
            0 < down <= d,
            n <= 0x2_0000_0000_0000_0000,
            shrunk(n as nat, den as nat, 1) == shrunk(n as nat, d as nat, down as nat),
        decreases n + 1 - d,
    {
        d = 2 * d;
        down = 2 * down;
    }
    (d, down)
}

fn grow(num: u128) -> (r: (u128, u128))
    requires
        0 < num <= 0x2_0000_0000_0000_0000,
    ensures
        grown(num as nat, 1000, 1) == (r.0 as nat, r.1 as nat),
        r.0 <= 0x2_0000_0000_0000_0000,
        r.1 > 0,
        r.0 >= 1000 * 0x10_0000_0000_0000,
{
    let mut n: u128 = num;
    let mut up: u128 = 1;
    while n < 1000 * 0x10_0000_0000_0000
        invariant
            0 < n <= 0x2_0000_0000_0000_0000,
            0 < up <= n,
            grown(num as nat, 1000, 1) == grown(n as nat, 1000, up as nat),
        decreases
                if n < 1000 * 0x10_0000_0000_0000 {
                    1000 * 0x10_0000_0000_0000 - n
                } else {
                    0
                },
    {
        n = 2 * n;
        up = 2 * up;
    }
    (n, up)
}

proof fn lemma_quotient_bound(n: int, d: int)
    requires
        d > 0,
        0 <= n < d * 0x20_0000_0000_0000,
    ensures
        n / d < 0x20_0000_0000_0000,
{
    assert(n / d < 0x20_0000_0000_0000) by (nonlinear_arith)
        requires
            d > 0,
            0 <= n < d * 0x20_0000_0000_0000,
    ;
}

proof fn lemma_product_bound(m: int, down: int)
    requires
        0 <= m <= 0x20_0000_0000_0000,
        0 <= down <= 8192,
    ensures
        0 <= m * down <= 0x20_0000_0000_0000 * 8192,
{
    assert(0 <= m * down <= 0x20_0000_0000_0000 * 8192) by (nonlinear_arith)
        requires
            0 <= m <= 0x20_0000_0000_0000,
            0 <= down <= 8192,
    ;
}

proof fn lemma_double_of_u64(n: int, d: int, down: int, m: int)
    requires
        0 < down == d,
        0 <= n <= u64::MAX,
        0 <= m <= n / d + 1,
        d <= 8192,
    ensures
        m * down <= 0x2_0000_0000_0000_0000,
{
    assert(m * down <= n + d) by (nonlinear_arith)
        requires
            0 < down == d,
            0 <= m <= n / d + 1,
            0 <= n,
    ;
}

proof fn lemma_shrunk_from_one(n: nat, d: nat)
    requires
        d > 0,
    ensures
        shrunk(n, d, d).0 == shrunk(n, d, d).1,
    decreases n - d,
{
    if n >= d * 0x20_0000_0000_0000 {
        lemma_shrunk_from_one(n, 2 * d);
    }
}

proof fn lemma_round_positive(n: nat, d: nat)
    requires
        n >= d > 0,
    ensures
        round_half_even(n, d) >= 1,
{
    assert(n / d >= 1) by (nonlinear_arith)
        requires
            n >= d > 0,
    ;
}

proof fn lemma_shrunk_at_most(n: nat, d: nat, down: nat)
    requires
        0 < d <= n,
    ensures
        0 < shrunk(n, d, down).0 <= n,
    decreases n - d,
{
    if n >= d * 0x20_0000_0000_0000 {
        lemma_shrunk_at_most(n, 2 * d, 2 * down);
    }
}

/// A count in thousands, as a whole number of tenths.
fn thousand_tenths(count: u64) -> (r: u128)
    requires
        count > 0,
    ensures
        r == tenths_of_thousand(count as nat),
{
    let (d, down) = shrink(count as u128, 1);
    let m = rounded(count as u128, d);
    proof {
        lemma_shrunk_from_one(count as nat, 1);
        lemma_double_of_u64(count as int, d as int, down as int, m as int);
        lemma_shrunk_at_most(count as nat, 1, 1);
        lemma_round_positive(count as nat, d as nat);
        assert(m * down >= 1) by (nonlinear_arith)
            requires
                m >= 1,
                down >= 1,
        ;
    }
    let whole: u128 = m * down;
    assert(whole == whole_double(count as nat));
    let (n, up) = grow(whole);
    let (d2, down2) = shrink(n, 1000);
    let m2 = rounded(n, d2);
    proof {
        lemma_quotient_bound(n as int, d2 as int);
        lemma_product_bound(m2 as int, down2 as int);
    }
    let scaled: u128 = 10 * (m2 * down2);
    rounded(scaled, up)
}

fn decimal_wide(n: u128) -> (out: String)
    ensures
        out@ == decimal_spec(n as nat),
    decreases n,
{
    let d: u8 = (n % 10) as u8;
    let c = (48 + d) as char;
    assert(c == digit_char((n % 10) as nat));
    if n < 10 {
        let mut out = String::new();
        out.push(c);
        assert(out@ =~= seq![digit_char(n as nat)]);
        out
    } else {
        let mut out = decimal_wide(n / 10);
        out.push(c);
        out
    }
}

/// A count in thousands with one decimal.
pub open spec fn thousands_spec(count: nat) -> Seq<char> {
    let tenths = tenths_of_thousand(count);
    decimal_spec(tenths / 10) + seq!['.', digit_char(tenths % 10)]
}

/// A count in thousands with one decimal.
pub fn thousands(count: u64) -> (out: String)
    requires
        count > 0,
    ensures
        out@ == thousands_spec(count as nat),
{
    let tenths = thousand_tenths(count);
    let mut out = decimal_wide(tenths / 10);
    out.push('.');
    let last = decimal_wide(tenths % 10);
    let ghost whole = decimal_spec((tenths / 10) as nat);
    out.append(last.as_str());
    assert(last@ =~= seq![digit_char((tenths % 10) as nat)]);
    assert(out@ =~= whole + seq!['.', digit_char((tenths % 10) as nat)]);
    out
}


} // verus!
