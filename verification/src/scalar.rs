//! Scalar codecs: canonical UUID text, absolute URLs, RFC 3339 timestamps,
//! and the compact human-readable time-span grammar.

use vstd::prelude::*;

use crate::json::dec_digits;
use crate::json::digits_end;
use crate::json::digits_val;
use crate::json::is_digit;
use crate::json::lemma_dec_digits_chars;
use crate::json::lemma_dec_digits_len;
use crate::json::lemma_digits_end_of_run;
use crate::json::lemma_digits_run;
use crate::json::lemma_digits_val_bound;
use crate::json::lemma_digits_val_of_print;
use crate::json::pow10;
use crate::str_ok;

verus! {

// ---------------------------------------------------------------------------
// UUID: the canonical 8-4-4-4-12 hyphenated hexadecimal form.
// ---------------------------------------------------------------------------
/// A hexadecimal digit, either case.
pub open spec fn is_hex(c: char) -> bool {
    is_digit(c) || (97 <= (c as u32) <= 102) || (65 <= (c as u32) <= 70)
}

/// The canonical hyphenated UUID form: 36 characters, hyphens at positions
/// 8, 13, 18 and 23, hexadecimal digits everywhere else.
pub open spec fn uuid_ok(s: Seq<char>) -> bool {
    s.len() == 36 && forall|i: int|
        0 <= i < 36 ==> if i == 8 || i == 13 || i == 18 || i == 23 {
            #[trigger] s[i] == '-'
        } else {
            is_hex(s[i])
        }
}

fn is_hex_x(c: char) -> (r: bool)
    ensures
        r == is_hex(c),
{
    let u = c as u32;
    (48 <= u && u <= 57) || (97 <= u && u <= 102) || (65 <= u && u <= 70)
}

/// Checks the canonical UUID form.
pub fn check_uuid(s: &Vec<char>) -> (r: bool)
    ensures
        r == uuid_ok(s@),
{
    if s.len() != 36 {
        return false;
    }
    let mut i: usize = 0;
    while i < 36
        invariant
            i <= 36,
            s.len() == 36,
            forall|p: int|
                0 <= p < i ==> if p == 8 || p == 13 || p == 18 || p == 23 {
                    #[trigger] s@[p] == '-'
                } else {
                    is_hex(s@[p])
                },
        decreases 36 - i,
    {
        let c = s[i];
        if i == 8 || i == 13 || i == 18 || i == 23 {
            if c != '-' {
                return false;
            }
        } else {
            if !is_hex_x(c) {
                return false;
            }
        }
        i = i + 1;
    }
    true
}

// ---------------------------------------------------------------------------
// Time spans: `"234ms"`, `"2h"`, `"1h30m"`; the model is a nanosecond count.
// ---------------------------------------------------------------------------
/// The unit suffix starting at `j`, as its nanosecond factor and the
/// position after it: `ns`, `us`, `ms`, `s`, `m`, `h` or `d`.
pub open spec fn unit_at(s: Seq<char>, j: int) -> Option<(int, int)> {
    if 0 <= j < s.len() {
        let c = s[j];
        if c == 'n' {
            if j + 2 <= s.len() && s[j + 1] == 's' {
                Some((1, j + 2))
            } else {
                None
            }
        } else if c == 'u' {
            if j + 2 <= s.len() && s[j + 1] == 's' {
                Some((1000, j + 2))
            } else {
                None
            }
        } else if c == 'm' {
            if j + 1 < s.len() && s[j + 1] == 's' {
                Some((1000000, j + 2))
            } else {
                Some((60000000000, j + 1))
            }
        } else if c == 's' {
            Some((1000000000, j + 1))
        } else if c == 'h' {
            Some((3600000000000, j + 1))
        } else if c == 'd' {
            Some((86400000000000, j + 1))
        } else {
            None
        }
    } else {
        None
    }
}

/// Parses the span text from `i` on: one or more magnitude-unit segments,
/// summed, as long as every step stays within a 64-bit count.
pub open spec fn parse_span_from(s: Seq<char>, i: int) -> Option<int>
    decreases s.len() - i,
{
    if !(0 <= i < s.len() && is_digit(s[i])) {
        None
    } else {
        let j = digits_end(s, i);
        if j - i > 20 {
            None
        } else {
            let v = digits_val(s, i, j);
            if v > u64::MAX {
                None
            } else {
                match unit_at(s, j) {
                    None => None,
                    Some((f, k)) => if v * f > u64::MAX {
                        None
                    } else {
                        if k >= s.len() {
                            Some(v * f)
                        } else {
                            if k <= i {
                                None
                            } else {
                                match parse_span_from(s, k) {
                                    None => None,
                                    Some(r) => if v * f + r > u64::MAX {
                                        None
                                    } else {
                                        Some(v * f + r)
                                    },
                                }
                            }
                        }
                    },
                }
            }
        }
    }
}

/// The nanosecond count a span text denotes, if any.
pub open spec fn parse_span(s: Seq<char>) -> Option<int> {
    parse_span_from(s, 0)
}

/// The characters of a unit suffix.
pub open spec fn unit_chars(f: int) -> Seq<char> {
    if f == 1 {
        seq!['n', 's']
    } else if f == 1000 {
        seq!['u', 's']
    } else if f == 1000000 {
        seq!['m', 's']
    } else if f == 1000000000 {
        seq!['s']
    } else if f == 60000000000 {
        seq!['m']
    } else if f == 3600000000000 {
        seq!['h']
    } else {
        seq!['d']
    }
}

/// The coarsest unit that renders `n` exactly.
pub open spec fn span_unit(n: int) -> int {
    if n % 86400000000000 == 0 {
        86400000000000
    } else if n % 3600000000000 == 0 {
        3600000000000
    } else if n % 60000000000 == 0 {
        60000000000
    } else if n % 1000000000 == 0 {
        1000000000
    } else if n % 1000000 == 0 {
        1000000
    } else if n % 1000 == 0 {
        1000
    } else {
        1
    }
}

/// The span text of a nanosecond count: the magnitude in the coarsest unit
/// that is exact, then that unit's suffix.
pub open spec fn format_span(n: int) -> Seq<char> {
    dec_digits((n / span_unit(n)) as nat) + unit_chars(span_unit(n))
}

/// Formats a span; the result parses back to the same count.
pub fn format_span_x(n: u64) -> (out: Vec<char>)
    ensures
        out@ == format_span(n as int),
        str_ok(out@),
{
    let f: u64 = if n % 86400000000000 == 0 {
        86400000000000
    } else if n % 3600000000000 == 0 {
        3600000000000
    } else if n % 60000000000 == 0 {
        60000000000
    } else if n % 1000000000 == 0 {
        1000000000
    } else if n % 1000000 == 0 {
        1000000
    } else if n % 1000 == 0 {
        1000
    } else {
        1
    };
    let mut out: Vec<char> = Vec::new();
    crate::json::push_digits(n / f, &mut out);
    if f == 1 {
        out.push('n');
        out.push('s');
    } else if f == 1000 {
        out.push('u');
        out.push('s');
    } else if f == 1000000 {
        out.push('m');
        out.push('s');
    } else if f == 1000000000 {
        out.push('s');
    } else if f == 60000000000 {
        out.push('m');
    } else if f == 3600000000000 {
        out.push('h');
    } else {
        out.push('d');
    }
    proof {
        assert(out@ =~= format_span(n as int));
        lemma_dec_digits_chars((n / f) as nat);
        assert forall|i: int| 0 <= i < out@.len() implies crate::char_ok(#[trigger] out@[i]) by {
            if i < dec_digits((n / f) as nat).len() {
                assert(is_digit(out@[i]));
            }
        }
    }
    out
}

/// Digit-run values grow with the run.
proof fn lemma_digits_val_mono(s: Seq<char>, i: int, p: int, j: int)
    requires
        0 <= i <= p <= j <= digits_end(s, i),
    ensures
        digits_val(s, i, p) <= digits_val(s, i, j),
    decreases j - p,
{
    if p < j {
        lemma_digits_val_mono(s, i, p, j - 1);
        lemma_digits_val_bound(s, i, j - 1);
        lemma_digits_run(s, i, j - 1);
    }
}

/// Parses a span text, returning the nanosecond count it denotes.
pub fn parse_span_x(s: &Vec<char>) -> (r: Option<u64>)
    ensures
        match r {
            Some(n) => parse_span(s@) == Some(n as int),
            None => parse_span(s@) is None,
        },
{
    parse_span_from_x(s, 0)
}

fn parse_span_from_x(s: &Vec<char>, i: usize) -> (r: Option<u64>)
    requires
        i <= s.len(),
    ensures
        match r {
            Some(n) => parse_span_from(s@, i as int) == Some(n as int),
            None => parse_span_from(s@, i as int) is None,
        },
    decreases s.len() - i,
{
    if !(i < s.len() && is_digit_s(s[i])) {
        return None;
    }
    let j = crate::json::digits_end_x(s, i);
    proof {
        crate::json::lemma_digits_end_ge(s@, i + 1);
    }
    if j - i > 20 {
        return None;
    }
    let mut acc: u64 = 0;
    let mut p = i;
    while p < j
        invariant
            i <= p <= j <= s.len(),
            j == digits_end(s@, i as int),
            j - i <= 20,
            acc == digits_val(s@, i as int, p as int),
        decreases j - p,
    {
        proof {
            lemma_digits_run(s@, i as int, p as int);
            lemma_digits_val_bound(s@, i as int, p as int);
        }
        let d = (s[p] as u32) as u64 - 48;
        if acc > (u64::MAX - d) / 10 {
            proof {
                assert(digits_val(s@, i as int, p + 1) == acc * 10 + d);
                lemma_digits_val_mono(s@, i as int, p + 1, j as int);
            }
            return None;
        }
        acc = acc * 10 + d;
        p = p + 1;
    }
    let v = acc;
    if !(j < s.len()) {
        return None;
    }
    let c = s[j];
    let (f, k): (u64, usize) = if c == 'n' {
        if j + 1 < s.len() && s[j + 1] == 's' {
            (1, j + 2)
        } else {
            return None;
        }
    } else if c == 'u' {
        if j + 1 < s.len() && s[j + 1] == 's' {
            (1000, j + 2)
        } else {
            return None;
        }
    } else if c == 'm' {
        if j + 1 < s.len() && s[j + 1] == 's' {
            (1000000, j + 2)
        } else {
            (60000000000, j + 1)
        }
    } else if c == 's' {
        (1000000000, j + 1)
    } else if c == 'h' {
        (3600000000000, j + 1)
    } else if c == 'd' {
        (86400000000000, j + 1)
    } else {
        return None;
    };
    if v > u64::MAX / f {
        proof {
            vstd::arithmetic::div_mod::lemma_fundamental_div_mod(u64::MAX as int, f as int);
            vstd::arithmetic::mul::lemma_mul_inequality(
                u64::MAX as int / f as int + 1,
                v as int,
                f as int,
            );
        }
        return None;
    }
    proof {
        vstd::arithmetic::div_mod::lemma_fundamental_div_mod(u64::MAX as int, f as int);
        vstd::arithmetic::mul::lemma_mul_inequality(v as int, u64::MAX as int / f as int, f as int);
    }
    let part = v * f;
    if k >= s.len() {
        return Some(part);
    }
    match parse_span_from_x(s, k) {
        None => None,
        Some(r) => {
            if part > u64::MAX - r {
                None
            } else {
                Some(part + r)
            }
        },
    }
}

fn is_digit_s(c: char) -> (r: bool)
    ensures
        r == is_digit(c),
{
    let u = c as u32;
    48 <= u && u <= 57
}

/// Formatting a span and reading it back yields the same count: the
/// printed magnitude is exact in its unit, and the unit suffix maps back
/// to the same factor.
pub proof fn lemma_parse_of_format_span(n: int)
    requires
        0 <= n <= u64::MAX,
    ensures
        parse_span(format_span(n)) == Some(n),
{
    let f = span_unit(n);
    let q = n / f;
    vstd::arithmetic::div_mod::lemma_fundamental_div_mod(n, f);
    assert(q * f == n);
    let dd = dec_digits(q as nat);
    let u = unit_chars(f);
    let s = format_span(n);
    let dl = dd.len() as int;
    lemma_dec_digits_chars(q as nat);
    assert(forall|x: int| 0 <= x < dl ==> #[trigger] s[x] == dd[x]);
    assert(s[dl] == u[0]);
    assert forall|p: int| 0 <= p < dl implies is_digit(#[trigger] s[p]) by {
        assert(s[p] == dd[p]);
    }
    assert(!is_digit(u[0]));
    lemma_digits_end_of_run(s, 0, dl);
    assert(pow10(20nat) == 100000000000000000000) by {
        reveal_with_fuel(pow10, 21);
    }
    lemma_dec_digits_len(q as nat, 20);
    assert(s.subrange(0, dl) =~= dd);
    lemma_digits_val_of_print(s, 0, q as nat);
    assert(digits_val(s, 0, dl) == q);
    if u.len() == 2 {
        assert(s[dl + 1] == u[1]);
        assert(s.len() == dl + 2);
    } else {
        assert(s.len() == dl + 1);
    }
    assert(unit_at(s, dl) == Some((f, dl + u.len() as int)));
}

// ---------------------------------------------------------------------------
// URLs and timestamps: validated through outside parsers.
// ---------------------------------------------------------------------------
/// Whether a text is a well-formed absolute URL.
pub uninterp spec fn url_ok(s: Seq<char>) -> bool;

/// Relies on `url::Url::parse`, which parses absolute URLs and rejects
/// relative or malformed input; the outcome depends on the text alone.
#[verifier::external_body]
pub fn check_url(s: &str) -> (r: bool)
    ensures
        r == url_ok(s@),
{
    url::Url::parse(s).is_ok()
}

/// Whether a text is an RFC 3339 instant with an explicit offset or `Z`.
pub uninterp spec fn rfc3339_ok(s: Seq<char>) -> bool;

/// Relies on `chrono::DateTime::parse_from_rfc3339`, which accepts exactly
/// the RFC 3339 date-time form with an explicit offset; the outcome depends
/// on the text alone.
#[verifier::external_body]
pub fn check_rfc3339(s: &str) -> (r: bool)
    ensures
        r == rfc3339_ok(s@),
{
    chrono::DateTime::parse_from_rfc3339(s).is_ok()
}

} // verus!
