//! Decimal text of integers, read and written the way std's `FromStr` and
//! `Display` for the integer types do it.

use vstd::prelude::*;

verus! {

/// Why a text is not a decimal integer of the wanted type. The kinds, and
/// the messages of [`ParseIntError::message`], are those of std's
/// `ParseIntError`.
#[derive(Debug, Clone, Copy, PartialEq, Eq, Structural)]
pub enum ParseIntError {
    Empty,
    InvalidDigit,
    PosOverflow,
    NegOverflow,
}

pub open spec fn is_digit(c: char) -> bool {
    48 <= c as int && c as int <= 57
}

pub open spec fn digit_value(c: char) -> int {
    c as int - 48
}

pub open spec fn digit_char(d: int) -> char {
    (d + 48) as char
}

/// Reads the first `n` characters of `body` as digits, the most significant
/// first. A character that is no digit ends the reading with `InvalidDigit`;
/// a value that leaves `min..=max` ends it with an overflow.
pub open spec fn scan_digits(body: Seq<char>, n: nat, negative: bool, min: int, max: int) -> Result<
    int,
    ParseIntError,
>
    decreases n,
{
    if n == 0 {
        Ok(0)
    } else {
        match scan_digits(body, (n - 1) as nat, negative, min, max) {
            Err(e) => Err(e),
            Ok(v) => {
                let c = body[n - 1];
                if !is_digit(c) {
                    Err(ParseIntError::InvalidDigit)
                } else {
                    let w = if negative {
                        v * 10 - digit_value(c)
                    } else {
                        v * 10 + digit_value(c)
                    };
                    if w > max {
                        Err(ParseIntError::PosOverflow)
                    } else if w < min {
                        Err(ParseIntError::NegOverflow)
                    } else {
                        Ok(w)
                    }
                }
            },
        }
    }
}

/// Whether the text starts with a minus sign that the type takes.
pub open spec fn is_negative(s: Seq<char>, min: int) -> bool {
    s.len() > 0 && s[0] == '-' && min < 0
}

/// The digits of the text: what follows a leading sign that the type takes.
pub open spec fn digits_part(s: Seq<char>, min: int) -> Seq<char> {
    if s.len() > 0 && (s[0] == '+' || is_negative(s, min)) {
        s.drop_first()
    } else {
        s
    }
}

/// What std's `from_str` gives for an integer type whose values are
/// `min..=max`: an optional `+` (or `-` where `min` is negative), then
/// decimal digits, nothing else, and a value in range.
pub open spec fn spec_parse_int(s: Seq<char>, min: int, max: int) -> Result<int, ParseIntError> {
    if s.len() == 0 {
        Err(ParseIntError::Empty)
    } else if s.len() == 1 && (s[0] == '+' || s[0] == '-') {
        Err(ParseIntError::InvalidDigit)
    } else {
        scan_digits(
            digits_part(s, min),
            digits_part(s, min).len(),
            is_negative(s, min),
            min,
            max,
        )
    }
}

pub open spec fn spec_parse_u64(s: Seq<char>) -> Result<int, ParseIntError> {
    spec_parse_int(s, 0, u64::MAX as int)
}

pub open spec fn spec_parse_usize(s: Seq<char>) -> Result<int, ParseIntError> {
    spec_parse_int(s, 0, usize::MAX as int)
}

pub open spec fn spec_parse_isize(s: Seq<char>) -> Result<int, ParseIntError> {
    spec_parse_int(s, isize::MIN as int, isize::MAX as int)
}

/// The decimal digits of `n`, with no leading zero.
pub open spec fn spec_decimal(n: nat) -> Seq<char>
    decreases n,
{
    if n < 10 {
        seq![digit_char(n as int)]
    } else {
        spec_decimal(n / 10).push(digit_char((n % 10) as int))
    }
}

/// The decimal text of `i`: a minus sign for a negative number, then the
/// digits of its magnitude.
pub open spec fn spec_signed_decimal(i: int) -> Seq<char> {
    if i < 0 {
        seq!['-'] + spec_decimal((-i) as nat)
    } else {
        spec_decimal(i as nat)
    }
}

impl ParseIntError {
    pub open spec fn spec_message(self) -> Seq<char> {
        match self {
            ParseIntError::Empty => "cannot parse integer from empty string"@,
            ParseIntError::InvalidDigit => "invalid digit found in string"@,
            ParseIntError::PosOverflow => "number too large to fit in target type"@,
            ParseIntError::NegOverflow => "number too small to fit in target type"@,
        }
    }

    /// The text that std's `ParseIntError` displays for this kind.
    pub fn message(&self) -> (s: String)
        ensures
            s@ == self.spec_message(),
    {
        match self {
            ParseIntError::Empty => String::from_str("cannot parse integer from empty string"),
            ParseIntError::InvalidDigit => String::from_str("invalid digit found in string"),
            ParseIntError::PosOverflow => String::from_str("number too large to fit in target type"),
            ParseIntError::NegOverflow => String::from_str("number too small to fit in target type"),
        }
    }
}

/// Every character of a decimal text is a digit, and there is at least one.
pub proof fn lemma_decimal_is_digits(n: nat)
    ensures
        spec_decimal(n).len() >= 1,
        forall|k: int| 0 <= k < spec_decimal(n).len() ==> is_digit(#[trigger] spec_decimal(n)[k]),
    decreases n,
{
    if n >= 10 {
        lemma_decimal_is_digits(n / 10);
        let d = spec_decimal(n / 10);
        assert forall|k: int| 0 <= k < spec_decimal(n).len() implies is_digit(
            #[trigger] spec_decimal(n)[k],
        ) by {
            if k < d.len() {
                assert(spec_decimal(n)[k] == d[k]);
            }
        }
    }
}

/// The reading of the first `k` characters looks at those characters only.
proof fn lemma_scan_prefix(
    a: Seq<char>,
    b: Seq<char>,
    k: nat,
    negative: bool,
    min: int,
    max: int,
)
    requires
        k <= a.len(),
        k <= b.len(),
        forall|j: int| 0 <= j < k ==> a[j] == b[j],
    ensures
        scan_digits(a, k, negative, min, max) == scan_digits(b, k, negative, min, max),
    decreases k,
{
    if k > 0 {
        lemma_scan_prefix(a, b, (k - 1) as nat, negative, min, max);
    }
}

/// Reading the digits of `n` gives back `n`, or `-n` when read as the
/// magnitude of a negative number, whenever that value is in range.
proof fn lemma_scan_decimal(n: nat, negative: bool, min: int, max: int)
    requires
        min <= 0 <= max,
        negative ==> min <= -n,
        !negative ==> n <= max,
    ensures
        scan_digits(spec_decimal(n), spec_decimal(n).len(), negative, min, max) == Ok::<
            int,
            ParseIntError,
        >(if negative { -n } else { n as int }),
    decreases n,
{
    let d = spec_decimal(n);
    if n < 10 {
        assert(d.len() == 1);
        assert(digit_value(d[0]) == n);
        assert(scan_digits(d, 0, negative, min, max) == Ok::<int, ParseIntError>(0));
    } else {
        let q = n / 10;
        let prev = spec_decimal(q);
        lemma_scan_decimal(q, negative, min, max);
        lemma_scan_prefix(d, prev, prev.len(), negative, min, max);
        assert(d.len() == prev.len() + 1);
        assert(d[d.len() - 1] == digit_char((n % 10) as int));
        assert(digit_value(digit_char((n % 10) as int)) == n % 10);
        assert(q * 10 + n % 10 == n);
    }
}

/// Distinct numbers have distinct decimal texts.
pub proof fn lemma_decimal_injective(a: nat, b: nat)
    ensures
        spec_decimal(a) == spec_decimal(b) ==> a == b,
{
    lemma_scan_decimal(a, false, 0, (a + b) as int);
    lemma_scan_decimal(b, false, 0, (a + b) as int);
}

/// Reading back the text that [`format_u64`] writes gives the number.
pub proof fn lemma_parse_format_u64(n: u64)
    ensures
        spec_parse_u64(spec_decimal(n as nat)) == Ok::<int, ParseIntError>(n as int),
{
    lemma_decimal_is_digits(n as nat);
    let d = spec_decimal(n as nat);
    assert(is_digit(d[0]));
    assert(digits_part(d, 0) == d);
    lemma_scan_decimal(n as nat, false, 0, u64::MAX as int);
}

/// Reading back the text that [`format_usize`] writes gives the number.
pub proof fn lemma_parse_format_usize(n: usize)
    ensures
        spec_parse_usize(spec_decimal(n as nat)) == Ok::<int, ParseIntError>(n as int),
{
    lemma_decimal_is_digits(n as nat);
    let d = spec_decimal(n as nat);
    assert(is_digit(d[0]));
    assert(digits_part(d, 0) == d);
    lemma_scan_decimal(n as nat, false, 0, usize::MAX as int);
}

/// Reading back the text that [`format_isize`] writes gives the number.
pub proof fn lemma_parse_format_isize(i: isize)
    ensures
        spec_parse_isize(spec_signed_decimal(i as int)) == Ok::<int, ParseIntError>(i as int),
{
    let min = isize::MIN as int;
    let max = isize::MAX as int;
    let s = spec_signed_decimal(i as int);
    if i < 0 {
        let m = (-(i as int)) as nat;
        lemma_decimal_is_digits(m);
        let d = spec_decimal(m);
        assert(s[0] == '-');
        assert(s.len() >= 2);
        assert(is_negative(s, min));
        assert(digits_part(s, min) =~= d);
        lemma_scan_decimal(m, true, min, max);
    } else {
        lemma_decimal_is_digits(i as nat);
        assert(is_digit(s[0]));
        assert(digits_part(s, min) == s);
        lemma_scan_decimal(i as nat, false, min, max);
    }
}

/// Reading a decimal text whose value leaves the range stops with the
/// overflow on that side.
proof fn lemma_scan_decimal_out_of_range(n: nat, negative: bool, min: int, max: int)
    requires
        min <= 0 <= max,
        negative ==> -n < min,
        !negative ==> n > max,
    ensures
        scan_digits(spec_decimal(n), spec_decimal(n).len(), negative, min, max) == Err::<
            int,
            ParseIntError,
        >(if negative { ParseIntError::NegOverflow } else { ParseIntError::PosOverflow }),
    decreases n,
{
    let d = spec_decimal(n);
    lemma_decimal_is_digits(n);
    if n < 10 {
        assert(d.len() == 1);
        assert(digit_value(d[0]) == n);
        assert(scan_digits(d, 0, negative, min, max) == Ok::<int, ParseIntError>(0));
    } else {
        let q = n / 10;
        let prev = spec_decimal(q);
        lemma_scan_prefix(d, prev, prev.len(), negative, min, max);
        assert(d.len() == prev.len() + 1);
        assert(d[d.len() - 1] == digit_char((n % 10) as int));
        assert(digit_value(digit_char((n % 10) as int)) == n % 10);
        assert(q * 10 + n % 10 == n);
        if (negative && -q < min) || (!negative && q > max) {
            lemma_scan_decimal_out_of_range(q, negative, min, max);
        } else {
            lemma_scan_decimal(q, negative, min, max);
        }
    }
}

/// A successful reading has read digits only.
proof fn lemma_scan_ok_digits(body: Seq<char>, n: nat, negative: bool, min: int, max: int)
    requires
        n <= body.len(),
        scan_digits(body, n, negative, min, max) is Ok,
    ensures
        forall|k: int| 0 <= k < n ==> is_digit(#[trigger] body[k]),
    decreases n,
{
    if n > 0 {
        lemma_scan_ok_digits(body, (n - 1) as nat, negative, min, max);
    }
}

/// A text is an integer only if it is made of digits, after one leading
/// `+` (or `-` for a signed type), with at least one digit; the empty text
/// and a lone sign are refused.
pub proof fn law_parse_reads_digits_only(s: Seq<char>, min: int, max: int)
    requires
        min <= 0 <= max,
    ensures
        spec_parse_int(s, min, max) is Ok ==> {
            &&& s.len() >= 1
            &&& forall|k: int| 1 <= k < s.len() ==> is_digit(#[trigger] s[k])
            &&& (is_digit(s[0]) || s[0] == '+' || (s[0] == '-' && min < 0))
            &&& !is_digit(s[0]) ==> s.len() >= 2
        },
        s.len() == 0 ==> spec_parse_int(s, min, max) == Err::<int, ParseIntError>(
            ParseIntError::Empty,
        ),
        s =~= seq!['+'] || s =~= seq!['-'] ==> spec_parse_int(s, min, max) == Err::<
            int,
            ParseIntError,
        >(ParseIntError::InvalidDigit),
{
    if spec_parse_int(s, min, max) is Ok {
        let body = digits_part(s, min);
        lemma_scan_ok_digits(body, body.len(), is_negative(s, min), min, max);
        if s[0] == '+' || is_negative(s, min) {
            assert forall|k: int| 1 <= k < s.len() implies is_digit(#[trigger] s[k]) by {
                assert(s[k] == body[k - 1]);
            }
        } else {
            assert forall|k: int| 1 <= k < s.len() implies is_digit(#[trigger] s[k]) by {
                assert(s[k] == body[k]);
            }
            assert(is_digit(body[0]));
        }
    }
}

/// A decimal text, with or without a leading `+`, reads as its value when
/// the value is in range, and as the overflow past the top otherwise; with
/// a leading `-` (where the type takes one) it reads as the opposite value,
/// or the overflow past the bottom.
pub proof fn law_parse_reads_decimal_values(n: nat, min: int, max: int)
    requires
        min <= 0 <= max,
    ensures
        spec_parse_int(spec_decimal(n), min, max) == if n <= max {
            Ok::<int, ParseIntError>(n as int)
        } else {
            Err(ParseIntError::PosOverflow)
        },
        spec_parse_int(seq!['+'] + spec_decimal(n), min, max) == if n <= max {
            Ok::<int, ParseIntError>(n as int)
        } else {
            Err(ParseIntError::PosOverflow)
        },
        min < 0 ==> spec_parse_int(seq!['-'] + spec_decimal(n), min, max) == if min <= -n {
            Ok::<int, ParseIntError>(-n)
        } else {
            Err(ParseIntError::NegOverflow)
        },
        min == 0 ==> spec_parse_int(seq!['-'] + spec_decimal(n), min, max) == Err::<
            int,
            ParseIntError,
        >(ParseIntError::InvalidDigit),
{
    let d = spec_decimal(n);
    lemma_decimal_is_digits(n);
    assert(is_digit(d[0]));
    assert(digits_part(d, min) == d);
    if n <= max {
        lemma_scan_decimal(n, false, min, max);
    } else {
        lemma_scan_decimal_out_of_range(n, false, min, max);
    }
    let p = seq!['+'] + d;
    assert(p.len() >= 2);
    assert(digits_part(p, min) =~= d);
    let m = seq!['-'] + d;
    assert(m.len() >= 2);
    if min < 0 {
        assert(digits_part(m, min) =~= d);
        if min <= -n {
            lemma_scan_decimal(n, true, min, max);
        } else {
            lemma_scan_decimal_out_of_range(n, true, min, max);
        }
    } else {
        assert(digits_part(m, min) == m);
        assert(!is_digit(m[0]));
        assert(scan_digits(m, 1, false, min, max) == Err::<int, ParseIntError>(
            ParseIntError::InvalidDigit,
        )) by {
            assert(scan_digits(m, 0, false, min, max) == Ok::<int, ParseIntError>(0));
        }
        lemma_scan_error_sticks(m, 1, m.len(), false, min, max);
    }
}

/// The three integer types read with their own ranges.
pub proof fn law_parse_ranges(s: Seq<char>)
    ensures
        spec_parse_u64(s) == spec_parse_int(s, 0, u64::MAX as int),
        spec_parse_usize(s) == spec_parse_int(s, 0, usize::MAX as int),
        spec_parse_isize(s) == spec_parse_int(s, isize::MIN as int, isize::MAX as int),
{
}

/// The decimal text of a number has no leading zero, except 0 itself,
/// written `0`; a signed text starts with `-` exactly for a negative number.
pub proof fn law_decimal_has_no_leading_zero(n: nat, i: int)
    ensures
        spec_decimal(0) == seq!['0'],
        n >= 1 ==> spec_decimal(n)[0] != '0',
        (spec_signed_decimal(i)[0] == '-') <==> i < 0,
    decreases n,
{
    lemma_decimal_is_digits(if i < 0 { (-i) as nat } else { i as nat });
    if n >= 10 {
        law_decimal_has_no_leading_zero(n / 10, i);
        lemma_decimal_is_digits(n / 10);
        assert(spec_decimal(n)[0] == spec_decimal(n / 10)[0]);
    }
    if i >= 0 {
        assert(is_digit(spec_decimal(i as nat)[0]));
    }
}

/// Reads `s` as an integer in `min..=max`, with std's rules and errors.
fn parse_decimal(s: &str, min: i128, max: i128) -> (r: Result<i128, ParseIntError>)
    requires
        i64::MIN <= min <= 0 <= max <= u64::MAX,
    ensures
        match r {
            Ok(v) => spec_parse_int(s@, min as int, max as int) == Ok::<int, ParseIntError>(
                v as int,
            ),
            Err(e) => spec_parse_int(s@, min as int, max as int) == Err::<int, ParseIntError>(e),
        },
{
    let len = s.unicode_len();
    if len == 0 {
        return Err(ParseIntError::Empty);
    }
    let first = s.get_char(0);
    if len == 1 && (first == '+' || first == '-') {
        return Err(ParseIntError::InvalidDigit);
    }
    let negative = first == '-' && min < 0;
    let start: usize = if first == '+' || negative {
        1
    } else {
        0
    };
    let ghost body = digits_part(s@, min as int);
    assert(body =~= s@.subrange(start as int, len as int));
    let mut acc: i128 = 0;
    let mut i: usize = start;
    while i < len
        invariant
            start <= i <= len,
            len == s@.len(),
            body == s@.subrange(start as int, len as int),
            negative == is_negative(s@, min as int),
            spec_parse_int(s@, min as int, max as int) == scan_digits(
                body,
                body.len(),
                negative,
                min as int,
                max as int,
            ),
            i64::MIN <= min <= 0 <= max <= u64::MAX,
            min <= acc <= max,
            scan_digits(body, (i - start) as nat, negative, min as int, max as int) == Ok::<
                int,
                ParseIntError,
            >(acc as int),
        decreases len - i,
    {
        let c = s.get_char(i);
        let ghost k = (i - start) as nat;
        assert(body[k as int] == c);
        assert(scan_digits(body, k + 1, negative, min as int, max as int) == {
            let prev = scan_digits(body, k, negative, min as int, max as int);
            match prev {
                Err(e) => Err(e),
                Ok(v) => {
                    if !is_digit(c) {
                        Err(ParseIntError::InvalidDigit)
                    } else {
                        let w = if negative {
                            v * 10 - digit_value(c)
                        } else {
                            v * 10 + digit_value(c)
                        };
                        if w > max {
                            Err(ParseIntError::PosOverflow)
                        } else if w < min {
                            Err(ParseIntError::NegOverflow)
                        } else {
                            Ok(w)
                        }
                    }
                },
            }
        });
        let code = c as u32;
        if code < 48 || code > 57 {
            proof {
                lemma_scan_error_sticks(body, k + 1, body.len(), negative, min as int, max as int);
            }
            return Err(ParseIntError::InvalidDigit);
        }
        let d = (code - 48) as i128;
        let w = if negative {
            acc * 10 - d
        } else {
            acc * 10 + d
        };
        if w > max {
            proof {
                lemma_scan_error_sticks(body, k + 1, body.len(), negative, min as int, max as int);
            }
            return Err(ParseIntError::PosOverflow);
        }
        if w < min {
            proof {
                lemma_scan_error_sticks(body, k + 1, body.len(), negative, min as int, max as int);
            }
            return Err(ParseIntError::NegOverflow);
        }
        acc = w;
        i = i + 1;
    }
    Ok(acc)
}

/// Once the reading has failed, reading further characters gives the same
/// error.
proof fn lemma_scan_error_sticks(
    body: Seq<char>,
    n: nat,
    m: nat,
    negative: bool,
    min: int,
    max: int,
)
    requires
        n <= m,
        scan_digits(body, n, negative, min, max) is Err,
    ensures
        scan_digits(body, m, negative, min, max) == scan_digits(body, n, negative, min, max),
    decreases m - n,
{
    if n < m {
        lemma_scan_error_sticks(body, n, (m - 1) as nat, negative, min, max);
    }
}

/// Reads `s` as a `u64`, as `s.parse::<u64>()` does.
pub fn parse_u64(s: &str) -> (r: Result<u64, ParseIntError>)
    ensures
        match r {
            Ok(v) => spec_parse_u64(s@) == Ok::<int, ParseIntError>(v as int),
            Err(e) => spec_parse_u64(s@) == Err::<int, ParseIntError>(e),
        },
{
    match parse_decimal(s, 0, u64::MAX as i128) {
        Ok(v) => Ok(v as u64),
        Err(e) => Err(e),
    }
}

/// Reads `s` as a `usize`, as `s.parse::<usize>()` does.
pub fn parse_usize(s: &str) -> (r: Result<usize, ParseIntError>)
    ensures
        match r {
            Ok(v) => spec_parse_usize(s@) == Ok::<int, ParseIntError>(v as int),
            Err(e) => spec_parse_usize(s@) == Err::<int, ParseIntError>(e),
        },
{
    match parse_decimal(s, 0, usize::MAX as i128) {
        Ok(v) => Ok(v as usize),
        Err(e) => Err(e),
    }
}

/// Reads `s` as an `isize`, as `s.parse::<isize>()` does.
pub fn parse_isize(s: &str) -> (r: Result<isize, ParseIntError>)
    ensures
        match r {
            Ok(v) => spec_parse_isize(s@) == Ok::<int, ParseIntError>(v as int),
            Err(e) => spec_parse_isize(s@) == Err::<int, ParseIntError>(e),
        },
{
    match parse_decimal(s, isize::MIN as i128, isize::MAX as i128) {
        Ok(v) => Ok(v as isize),
        Err(e) => Err(e),
    }
}

/// Appends one character: `String::push`.
#[verifier::external_body]
fn push_char(s: &mut String, c: char)
    ensures
        final(s)@ == old(s)@.push(c),
{
    s.push(c);
}

fn digit_to_char(d: u64) -> (c: char)
    requires
        d < 10,
    ensures
        c == digit_char(d as int),
{
    ((d as u8) + 48u8) as char
}

fn append_decimal(s: &mut String, n: u64)
    ensures
        final(s)@ == old(s)@ + spec_decimal(n as nat),
    decreases n,
{
    if n >= 10 {
        append_decimal(s, n / 10);
    }
    push_char(s, digit_to_char(n % 10));
    proof {
        if n >= 10 {
            assert(spec_decimal(n as nat) == spec_decimal((n / 10) as nat).push(
                digit_char((n % 10) as int),
            ));
            assert(final(s)@ =~= old(s)@ + spec_decimal(n as nat));
        } else {
            assert(final(s)@ =~= old(s)@ + spec_decimal(n as nat));
        }
    }
}

/// The decimal text of `n`, as `n.to_string()` gives it.
pub fn format_u64(n: u64) -> (s: String)
    ensures
        s@ == spec_decimal(n as nat),
{
    let mut s = String::new();
    append_decimal(&mut s, n);
    assert(s@ =~= spec_decimal(n as nat));
    s
}

/// The decimal text of `n`, as `n.to_string()` gives it.
pub fn format_usize(n: usize) -> (s: String)
    ensures
        s@ == spec_decimal(n as nat),
{
    format_u64(n as u64)
}

/// The decimal text of `i`, as `i.to_string()` gives it.
pub fn format_isize(i: isize) -> (s: String)
    ensures
        s@ == spec_signed_decimal(i as int),
{
    if i < 0 {
        let mut s = String::from_str("-");
        proof {
            reveal_strlit("-");
        }
        let magnitude = (0i128 - (i as i128)) as u64;
        append_decimal(&mut s, magnitude);
        s
    } else {
        format_u64(i as u64)
    }
}

} // verus!
