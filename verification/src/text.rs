//! Decimal text for integers, and trimming of formatted fractions.

use vstd::prelude::*;
use vstd::string::{StrSliceExecFns, StringExecFns};

verus! {

/// The ASCII digit for `d` in `0..=9`.
pub open spec fn digit_char(d: int) -> char {
    (0x30 + d) as char
}

/// The decimal digits of `n`, most significant first, with no leading zero
/// (`"0"` for zero).
pub open spec fn digits(n: nat) -> Seq<char>
    decreases n,
{
    if n < 10 {
        seq![digit_char(n as int)]
    } else {
        digits(n / 10).push(digit_char((n % 10) as int))
    }
}

/// The decimal text of `v`: a `-` sign for negative values, then the digits
/// of its magnitude.
pub open spec fn decimal_chars(v: int) -> Seq<char> {
    if v < 0 {
        seq!['-'] + digits((-v) as nat)
    } else {
        digits(v as nat)
    }
}

/// Appends `t` to `s`.
pub fn push_str(s: &mut String, t: &str)
    ensures
        final(s)@ == old(s)@ + t@,
{
    s.append(t);
}

/// The one-character text of the digit `d`.
fn digit_str(d: u32) -> (r: &'static str)
    requires
        d < 10,
    ensures
        r@ == seq![digit_char(d as int)],
{
    match d {
        0 => {
            proof {
                reveal_strlit("0");
            }
            "0"
        },
        1 => {
            proof {
                reveal_strlit("1");
            }
            "1"
        },
        2 => {
            proof {
                reveal_strlit("2");
            }
            "2"
        },
        3 => {
            proof {
                reveal_strlit("3");
            }
            "3"
        },
        4 => {
            proof {
                reveal_strlit("4");
            }
            "4"
        },
        5 => {
            proof {
                reveal_strlit("5");
            }
            "5"
        },
        6 => {
            proof {
                reveal_strlit("6");
            }
            "6"
        },
        7 => {
            proof {
                reveal_strlit("7");
            }
            "7"
        },
        8 => {
            proof {
                reveal_strlit("8");
            }
            "8"
        },
        _ => {
            proof {
                reveal_strlit("9");
            }
            "9"
        },
    }
}

/// Appends the decimal digits of `n` to `s`.
fn push_digits(s: &mut String, n: u32)
    ensures
        final(s)@ == old(s)@ + digits(n as nat),
    decreases n,
{
    if n >= 10 {
        push_digits(s, n / 10);
    }
    push_str(s, digit_str(n % 10));
    proof {
        if n >= 10 {
            assert(old(s)@ + digits(n as nat) == old(s)@ + digits((n / 10) as nat) + seq![
                digit_char((n % 10) as int),
            ]);
        }
    }
}

/// Appends the decimal text of `v` to `s`: a `-` for negative values, then
/// the digits of the magnitude (`i32::MIN` included).
pub fn push_decimal(s: &mut String, v: i32)
    ensures
        final(s)@ == old(s)@ + decimal_chars(v as int),
{
    if v < 0 {
        proof {
            reveal_strlit("-");
        }
        push_str(s, "-");
        let magnitude = (0i64 - v as i64) as u32;
        push_digits(s, magnitude);
        assert(old(s)@ + decimal_chars(v as int) == old(s)@ + seq!['-'] + digits(
            magnitude as nat,
        ));
    } else {
        push_digits(s, v as u32);
    }
}

/// `s` with every trailing `c` removed.
pub open spec fn trim_trailing(s: Seq<char>, c: char) -> Seq<char>
    decreases s.len(),
{
    if s.len() > 0 && s.last() == c {
        trim_trailing(s.drop_last(), c)
    } else {
        s
    }
}

/// A formatted number with its trailing fractional zeros dropped, and the
/// point too if nothing follows it; text without a point is left alone.
pub open spec fn trimmed_fraction(s: Seq<char>) -> Seq<char> {
    if s.contains('.') {
        trim_trailing(trim_trailing(s, '0'), '.')
    } else {
        s
    }
}

/// The length of `s` once every trailing `c` within its first `end`
/// characters is dropped.
fn trimmed_end(s: &str, c: char, end: usize) -> (r: usize)
    requires
        end <= s@.len(),
    ensures
        r <= end,
        s@.subrange(0, r as int) == trim_trailing(s@.subrange(0, end as int), c),
{
    let mut e = end;
    while e > 0 && s.get_char(e - 1) == c
        invariant
            e <= end <= s@.len(),
            trim_trailing(s@.subrange(0, end as int), c) == trim_trailing(
                s@.subrange(0, e as int),
                c,
            ),
        decreases e,
    {
        assert(s@.subrange(0, e as int).drop_last() == s@.subrange(0, e - 1));
        e = e - 1;
    }
    e
}

/// Drops trailing fractional zeros, and the point if nothing follows it.
/// Text without a point is returned unchanged.
pub fn trim_fraction(s: &str) -> (r: &str)
    ensures
        r@ == trimmed_fraction(s@),
{
    let n = s.unicode_len();
    let mut has_point = false;
    let mut i: usize = 0;
    while i < n
        invariant
            n == s@.len(),
            i <= n,
            has_point <==> exists|j: int| 0 <= j < i && s@[j] == '.',
        decreases n - i,
    {
        if s.get_char(i) == '.' {
            has_point = true;
        }
        i = i + 1;
    }
    assert(has_point <==> s@.contains('.'));
    if !has_point {
        return s;
    }
    assert(s@.subrange(0, n as int) == s@);
    let e0 = trimmed_end(s, '0', n);
    let e1 = trimmed_end(s, '.', e0);
    s.substring_char(0, e1)
}

/// Whether `c` is an ASCII decimal digit.
pub open spec fn is_digit(c: char) -> bool {
    '0' <= c <= '9'
}

/// The value of a run of decimal digits, most significant first.
pub open spec fn digits_value(s: Seq<char>) -> int
    decreases s.len(),
{
    if s.len() == 0 {
        0
    } else {
        digits_value(s.drop_last()) * 10 + (s.last() as int - '0' as int)
    }
}

/// Whether `s` is a non-empty run of decimal digits.
pub open spec fn is_digit_run(s: Seq<char>) -> bool {
    s.len() > 0 && forall|i: int| 0 <= i < s.len() ==> is_digit(#[trigger] s[i])
}

/// The `i32` that `s` reads as: an optional `-` or `+`, then one or more
/// decimal digits, with a value in the `i32` range; `None` otherwise.
pub open spec fn parse_i32(s: Seq<char>) -> Option<int> {
    let negative = s.len() > 0 && s[0] == '-';
    let signed = s.len() > 0 && (s[0] == '-' || s[0] == '+');
    let body = if signed {
        s.skip(1)
    } else {
        s
    };
    let v = if negative {
        -digits_value(body)
    } else {
        digits_value(body)
    };
    if is_digit_run(body) && i32::MIN <= v <= i32::MAX {
        Some(v)
    } else {
        None
    }
}

/// Whether `i` is the index of the first `e` in `s`.
pub open spec fn is_first_e(s: Seq<char>, i: int) -> bool {
    &&& 0 <= i < s.len()
    &&& s[i] == 'e'
    &&& forall|j: int| 0 <= j < i ==> #[trigger] s[j] != 'e'
}

/// The text before the first `e` of `sci`, and the signed decimal exponent
/// after it; `None` if there is no `e` or the exponent does not read as an
/// `i32`.
pub open spec fn sci_parts(sci: Seq<char>) -> Option<(Seq<char>, int)> {
    if exists|i: int| 0 <= i < sci.len() && sci[i] == 'e' {
        let i = choose|i: int| is_first_e(sci, i);
        match parse_i32(sci.skip(i + 1)) {
            Some(e) => Some((sci.take(i), e)),
            None => None,
        }
    } else {
        None
    }
}

/// The exponent's decimal digits, at least two (a single digit gets a
/// leading zero).
pub open spec fn exponent_chars(e: nat) -> Seq<char> {
    if e < 10 {
        seq!['0', digit_char(e as int)]
    } else {
        digits(e)
    }
}

/// The notation `%g` picks for a value, given the value in scientific
/// notation with six significant digits.
pub enum GNotation {
    /// Fixed notation with this many decimals, trailing zeros to be dropped.
    Fixed(usize),
    /// The finished scientific text: the mantissa with trailing zeros
    /// dropped, `e`, the sign and at least two exponent digits.
    Scientific(String),
}

/// The first `e` is unique.
proof fn lemma_first_e_unique(s: Seq<char>, i: int, k: int)
    requires
        is_first_e(s, i),
        is_first_e(s, k),
    ensures
        i == k,
{
    if i < k {
        assert(s[i] != 'e');
    } else if k < i {
        assert(s[k] != 'e');
    }
}

/// A digit run's value is at least that of any of its prefixes.
proof fn lemma_digits_value_grows(s: Seq<char>, n: int)
    requires
        0 <= n <= s.len(),
        forall|i: int| 0 <= i < s.len() ==> is_digit(#[trigger] s[i]),
    ensures
        digits_value(s) >= digits_value(s.take(n)) >= 0,
    decreases s.len(),
{
    if s.len() > 0 {
        assert(forall|i: int|
            0 <= i < s.drop_last().len() ==> #[trigger] s.drop_last()[i] == s[i]);
        if n == s.len() {
            assert(s.take(n) == s);
            lemma_digits_value_grows(s.drop_last(), 0);
        } else {
            lemma_digits_value_grows(s.drop_last(), n);
            assert(s.drop_last().take(n) == s.take(n));
        }
        assert(s.last() == s[s.len() - 1]);
    } else {
        assert(s.take(n) == s);
    }
}

/// Reads `t` as an `i32` the way `parse_i32` says.
fn parse_exponent(t: &str) -> (r: Option<i32>)
    ensures
        r matches Some(v) ==> parse_i32(t@) == Some(v as int),
        r is None <==> parse_i32(t@) is None,
{
    let n = t.unicode_len();
    let mut start: usize = 0;
    let mut negative = false;
    if n > 0 {
        let c = t.get_char(0);
        if c == '-' {
            negative = true;
            start = 1;
        } else if c == '+' {
            start = 1;
        }
    }
    let ghost body = t@.skip(start as int);
    proof {
        assert(negative == (t@.len() > 0 && t@[0] == '-'));
        assert((start == 1) == (t@.len() > 0 && (t@[0] == '-' || t@[0] == '+')));
        assert(start == 0 ==> body == t@);
    }
    if start >= n {
        return None;
    }
    let mut magnitude: i64 = 0;
    let mut i: usize = start;
    while i < n
        invariant
            start <= i <= n,
            n == t@.len(),
            body == t@.skip(start as int),
            start <= 1,
            negative == (t@.len() > 0 && t@[0] == '-'),
            (start == 1) == (t@.len() > 0 && (t@[0] == '-' || t@[0] == '+')),
            start == 0 ==> body == t@,
            0 <= magnitude <= 0x8000_0000,
            forall|j: int| 0 <= j < i - start ==> is_digit(#[trigger] body[j]),
            magnitude == digits_value(body.take(i - start)),
        decreases n - i,
    {
        let c = t.get_char(i);
        if !('0' <= c && c <= '9') {
            proof {
                assert(!is_digit(body[i - start]));
            }
            return None;
        }
        let d = (c as u32 - '0' as u32) as i64;
        proof {
            assert(body.take(i - start + 1).drop_last() == body.take(i - start));
            assert(body.take(i - start + 1).last() == c);
        }
        magnitude = magnitude * 10 + d;
        i = i + 1;
        if magnitude > 0x8000_0000 {
            proof {
                if is_digit_run(body) {
                    lemma_digits_value_grows(body, i - start);
                }
            }
            return None;
        }
    }
    assert(body.take(n - start) == body);
    if negative {
        Some((0 - magnitude) as i32)
    } else if magnitude > 0x7fff_ffff {
        None
    } else {
        Some(magnitude as i32)
    }
}

/// Appends the exponent digits of `e`, at least two.
fn push_exponent(s: &mut String, e: u32)
    ensures
        final(s)@ == old(s)@ + exponent_chars(e as nat),
{
    if e < 10 {
        proof {
            reveal_strlit("0");
        }
        push_str(s, "0");
        push_str(s, digit_str(e));
        assert(final(s)@ == old(s)@ + seq!['0', digit_char(e as int)]);
    } else {
        push_digits(s, e);
    }
}

/// The notation `%g` uses for a value whose scientific form, with six
/// significant digits, is `sci` (mantissa, `e`, signed exponent).
///
/// An exponent in `-4..6` gives fixed notation with `5 - exponent`
/// decimals; any other gives the scientific text: the mantissa without
/// trailing fractional zeros, `e`, the exponent's sign and at least two
/// digits of its magnitude. `None` if `sci` has no `e` or its exponent does
/// not read as an `i32`.
pub fn g_notation(sci: &str) -> (r: Option<GNotation>)
    ensures
        sci_parts(sci@) is None <==> r is None,
        match sci_parts(sci@) {
            None => true,
            Some((m, e)) => if -4 <= e < 6 {
                r == Some(GNotation::Fixed((5 - e) as usize))
            } else {
                r matches Some(GNotation::Scientific(t)) && t@ == trimmed_fraction(m) + seq!['e']
                    + (if e < 0 {
                    seq!['-']
                } else {
                    seq!['+']
                }) + exponent_chars(
                    (if e < 0 {
                        -e
                    } else {
                        e
                    }) as nat,
                )
            },
        },
{
    let n = sci.unicode_len();
    let mut i: usize = 0;
    let mut found = false;
    while i < n && !found
        invariant
            n == sci@.len(),
            i <= n,
            found ==> i < n && sci@[i as int] == 'e',
            forall|j: int| 0 <= j < i ==> #[trigger] sci@[j] != 'e',
        decreases n - i + (if found {
            0int
        } else {
            1int
        }),
    {
        if sci.get_char(i) == 'e' {
            found = true;
        } else {
            i = i + 1;
        }
    }
    if i >= n {
        assert(!exists|k: int| 0 <= k < sci@.len() && sci@[k] == 'e');
        return None;
    }
    proof {
        let k = choose|k: int| is_first_e(sci@, k);
        assert(is_first_e(sci@, i as int));
        lemma_first_e_unique(sci@, i as int, k);
    }
    let mantissa = sci.substring_char(0, i);
    let exponent_text = sci.substring_char(i + 1, n);
    assert(exponent_text@ == sci@.skip(i + 1));
    assert(mantissa@ == sci@.take(i as int));
    let e = match parse_exponent(exponent_text) {
        Some(e) => e,
        None => {
            return None;
        },
    };
    if -4 <= e && e < 6 {
        return Some(GNotation::Fixed((5 - e) as usize));
    }
    proof {
        reveal_strlit("e");
        reveal_strlit("-");
        reveal_strlit("+");
    }
    let mut t = String::new();
    push_str(&mut t, trim_fraction(mantissa));
    push_str(&mut t, "e");
    let magnitude: u32 = if e < 0 {
        push_str(&mut t, "-");
        (0i64 - e as i64) as u32
    } else {
        push_str(&mut t, "+");
        e as u32
    };
    push_exponent(&mut t, magnitude);
    Some(GNotation::Scientific(t))
}

} // verus!
