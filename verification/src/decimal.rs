//! Verified parsing of decimal literals (`-12.50`, `4`, `0.8`) into exact
//! rationals. The grammar is an optional minus sign, one or more digits, and
//! an optional fractional part introduced by a dot. The denominator of the
//! result is the power of ten given by the number of fractional digits.

use vstd::prelude::*;

use crate::rational::Rational;

verus! {

/// Largest number of fractional digits whose power-of-ten denominator still
/// fits an `i64`.
pub const MAX_FRAC_DIGITS: usize = 18;

/// Whether `c` is a decimal digit.
pub open spec fn is_digit(c: char) -> bool {
    48 <= c as u32 <= 57
}

/// The numeric value of a digit character.
pub open spec fn digit_val(c: char) -> int {
    c as u32 - 48
}

/// Whether every character of `s` is a decimal digit.
pub open spec fn all_digits(s: Seq<char>) -> bool {
    forall|i: int| 0 <= i < s.len() ==> is_digit(s[i])
}

/// The number denoted by a sequence of digits, most significant first.
pub open spec fn digits_val(s: Seq<char>) -> int
    decreases s.len(),
{
    if s.len() == 0 {
        0
    } else {
        digits_val(s.drop_last()) * 10 + digit_val(s.last())
    }
}

/// Ten to the `n`.
pub open spec fn pow10(n: nat) -> int
    decreases n,
{
    if n == 0 {
        1
    } else {
        10 * pow10((n - 1) as nat)
    }
}

/// Whether `i` is the position of the dot in an unsigned decimal with a
/// fractional part: digits before it, digits after it, at least one of each.
pub open spec fn frac_split(t: Seq<char>, i: int) -> bool {
    &&& 1 <= i < t.len() - 1
    &&& t[i] == '.'
    &&& all_digits(t.take(i))
    &&& all_digits(t.skip(i + 1))
}

/// Whether `t` is an unsigned decimal literal.
pub open spec fn unsigned_valid(t: Seq<char>) -> bool {
    (t.len() > 0 && all_digits(t)) || (exists|i: int| frac_split(t, i))
}

/// The digits of `t` with the dot (if any) removed: the numerator of the
/// unsigned decimal `t` denotes.
pub open spec fn unsigned_num(t: Seq<char>) -> int {
    if all_digits(t) {
        digits_val(t)
    } else {
        let i = choose|i: int| frac_split(t, i);
        digits_val(t.take(i) + t.skip(i + 1))
    }
}

/// The number of fractional digits of the unsigned decimal `t`.
pub open spec fn unsigned_frac_len(t: Seq<char>) -> int {
    if all_digits(t) {
        0
    } else {
        let i = choose|i: int| frac_split(t, i);
        t.len() - 1 - i
    }
}

/// The character sequence of `s` with a leading minus sign removed.
pub open spec fn unsigned_part(s: Seq<char>) -> Seq<char> {
    if s.len() > 0 && s[0] == '-' {
        s.drop_first()
    } else {
        s
    }
}

/// Whether `s` is a decimal literal.
pub open spec fn dec_valid(s: Seq<char>) -> bool {
    unsigned_valid(unsigned_part(s))
}

/// The numerator `s` denotes: its digits with dot and sign removed, negated
/// if the sign was there.
pub open spec fn dec_num(s: Seq<char>) -> int {
    if s.len() > 0 && s[0] == '-' {
        -unsigned_num(unsigned_part(s))
    } else {
        unsigned_num(s)
    }
}

/// The denominator `s` denotes: ten to the number of fractional digits.
pub open spec fn dec_den(s: Seq<char>) -> int {
    pow10(unsigned_frac_len(unsigned_part(s)) as nat)
}

/// Whether the exact value of the literal `s` fits the machine
/// representation of `Rational`.
pub open spec fn dec_fits(s: Seq<char>) -> bool {
    &&& -(i64::MAX as int) <= dec_num(s) <= i64::MAX as int
    &&& unsigned_frac_len(unsigned_part(s)) <= MAX_FRAC_DIGITS
}

/// In a decimal with a fractional part, every character but the dot is a
/// digit; in particular the dot position is unique.
proof fn lemma_frac_split_chars(t: Seq<char>, i: int, k: int)
    requires
        frac_split(t, i),
        0 <= k < t.len(),
        k != i,
    ensures
        is_digit(t[k]),
        t[k] != '.',
{
    if k < i {
        assert(t.take(i)[k] == t[k]);
    } else {
        assert(t.skip(i + 1)[k - i - 1] == t[k]);
    }
    assert(is_digit(t[k]));
    assert(('.' as u32) == 46);
}

/// The dot position of a decimal with a fractional part is unique, so the
/// chosen split is the one the parser found.
proof fn lemma_frac_split_unique(t: Seq<char>, i: int, j: int)
    requires
        frac_split(t, i),
        frac_split(t, j),
    ensures
        i == j,
{
    if i != j {
        lemma_frac_split_chars(t, i, j);
    }
}

/// A sequence of digits denotes a nonnegative number.
proof fn lemma_digits_val_nonneg(s: Seq<char>)
    requires
        all_digits(s),
    ensures
        digits_val(s) >= 0,
    decreases s.len(),
{
    if s.len() > 0 {
        lemma_digits_val_nonneg(s.drop_last());
        assert(digits_val(s.drop_last()) * 10 >= 0) by (nonlinear_arith)
            requires
                digits_val(s.drop_last()) >= 0,
        ;
    }
}

/// A prefix of a digit sequence denotes no more than the whole sequence.
proof fn lemma_digits_val_prefix(s: Seq<char>, m: int)
    requires
        all_digits(s),
        0 <= m <= s.len(),
    ensures
        digits_val(s.take(m)) <= digits_val(s),
    decreases s.len(),
{
    if m == s.len() {
        assert(s.take(m) =~= s);
    } else {
        assert(s.drop_last().take(m) =~= s.take(m));
        lemma_digits_val_prefix(s.drop_last(), m);
        lemma_digits_val_nonneg(s.drop_last());
        assert(digits_val(s.drop_last()) * 10 >= digits_val(s.drop_last())) by (nonlinear_arith)
            requires
                digits_val(s.drop_last()) >= 0,
        ;
    }
}

/// `pow10` grows with its argument and stays positive.
proof fn lemma_pow10_monotonic(a: nat, b: nat)
    requires
        a <= b,
    ensures
        0 < pow10(a) <= pow10(b),
    decreases b,
{
    if b == 0 {
    } else if a == b {
        lemma_pow10_monotonic((a - 1) as nat, (b - 1) as nat);
    } else {
        lemma_pow10_monotonic(a, (b - 1) as nat);
    }
}

/// The largest denominator the parser accepts, as a number.
proof fn lemma_pow10_max_frac()
    ensures
        pow10(MAX_FRAC_DIGITS as nat) == 1_000_000_000_000_000_000,
{
    reveal_with_fuel(pow10, 19);
}

/// Parses `s` as a decimal literal into an exact rational. Returns `None`
/// exactly when `s` is not a decimal literal or its value does not fit.
#[verifier::loop_isolation(false)]
pub fn parse_decimal(s: &str) -> (r: Option<Rational>)
    ensures
        r is Some <==> dec_valid(s@) && dec_fits(s@),
        r matches Some(q) ==> q.num == dec_num(s@) && q.den == dec_den(s@) && q.wf(),
{
    let s_len = s.unicode_len();
    let (neg, t) = if s_len > 0 && s.get_char(0) == '-' {
        (true, s.substring_char(1, s_len))
    } else {
        (false, s)
    };
    proof {
        assert(t@ =~= unsigned_part(s@));
    }
    let t_len = t.unicode_len();
    if t_len == 0 {
        return None;
    }
    let mut mantissa: i64 = 0;
    let mut dot: Option<usize> = None;
    let mut j: usize = 0;
    while j < t_len
        invariant
            t_len == t@.len(),
            0 <= j <= t_len,
            match dot {
                Some(d) => {
                    &&& 1 <= d < j
                    &&& t@[d as int] == '.'
                    &&& all_digits(t@.take(d as int))
                    &&& all_digits(t@.subrange(d + 1, j as int))
                    &&& mantissa == digits_val(
                        t@.take(d as int) + t@.subrange(d + 1, j as int),
                    )
                },
                None => {
                    &&& all_digits(t@.take(j as int))
                    &&& mantissa == digits_val(t@.take(j as int))
                },
            },
            mantissa >= 0,
        decreases t_len - j,
    {
        let c = t.get_char(j);
        let code = c as u32;
        let ghost seen: Seq<char> = match dot {
            Some(d) => t@.take(d as int) + t@.subrange(d + 1, j as int),
            None => t@.take(j as int),
        };
        if code == 46 {
            // a dot: the first one, and only after at least one digit
            if j == 0 || dot.is_some() {
                proof {
                    lemma_reject_bad_dot(t@, j as int, dot);
                }
                return None;
            }
            dot = Some(j);
            proof {
                assert(t@.subrange(j + 1, j + 1) =~= Seq::<char>::empty());
                assert(t@.take(j as int) + t@.subrange(j + 1, j + 1) =~= t@.take(j as int));
            }
        } else if 48 <= code && code <= 57 {
            let d = (code - 48) as i64;
            let grown = match mantissa.checked_mul(10) {
                Some(m) => m.checked_add(d),
                None => None,
            };
            match grown {
                Some(m) => {
                    mantissa = m;
                },
                None => {
                    proof {
                        lemma_reject_overflow(t@, j as int, dot, seen, d as int);
                    }
                    return None;
                },
            }
            proof {
                assert(seen.push(c) =~= match dot {
                    Some(d_) => t@.take(d_ as int) + t@.subrange(d_ + 1, j + 1),
                    None => t@.take(j + 1),
                });
                assert(seen.push(c).drop_last() =~= seen);
                assert(digits_val(seen.push(c)) == digits_val(seen) * 10 + digit_val(c));
            }
        } else {
            proof {
                lemma_reject_bad_char(t@, j as int);
            }
            return None;
        }
        j += 1;
    }
    let den: i64 = match dot {
        Some(d) => {
            if d + 1 == t_len {
                // a trailing dot with no fractional digits
                proof {
                    lemma_reject_trailing_dot(t@, d as int);
                }
                return None;
            }
            let frac_len = t_len - d - 1;
            proof {
                assert(t@.subrange(d + 1, t_len as int) =~= t@.skip(d + 1));
                assert(frac_split(t@, d as int));
                lemma_frac_split_unique(t@, d as int, choose|i: int| frac_split(t@, i));
                assert(!all_digits(t@)) by {
                    assert(!is_digit(t@[d as int]));
                }
            }
            if frac_len > MAX_FRAC_DIGITS {
                return None;
            }
            let mut den: i64 = 1;
            let mut k: usize = 0;
            proof {
                lemma_pow10_max_frac();
            }
            while k < frac_len
                invariant
                    k <= frac_len <= MAX_FRAC_DIGITS,
                    den == pow10(k as nat),
                    pow10(MAX_FRAC_DIGITS as nat) == 1_000_000_000_000_000_000,
                decreases frac_len - k,
            {
                proof {
                    lemma_pow10_monotonic((k + 1) as nat, MAX_FRAC_DIGITS as nat);
                }
                den = den * 10;
                k += 1;
            }
            den
        },
        None => {
            proof {
                assert(t@.take(t_len as int) =~= t@);
                assert(forall|i: int| frac_split(t@, i) ==> !is_digit(t@[i]) && is_digit(
                    t@[i],
                )) by {
                    assert(('.' as u32) == 46);
                }
            }
            1
        },
    };
    proof {
        lemma_pow10_monotonic(0, unsigned_frac_len(t@) as nat);
    }
    let num = if neg {
        -mantissa
    } else {
        mantissa
    };
    Some(Rational { num, den })
}

/// A dot in first position, or a second dot, makes the literal invalid.
proof fn lemma_reject_bad_dot(t: Seq<char>, j: int, dot: Option<usize>)
    requires
        0 <= j < t.len(),
        t[j] == '.',
        j == 0 || (dot matches Some(d) && 1 <= d < j && t[d as int] == '.'),
    ensures
        !unsigned_valid(t),
{
    assert(!is_digit(t[j]));
    assert forall|i: int| !frac_split(t, i) by {
        if frac_split(t, i) {
            if i != j {
                lemma_frac_split_chars(t, i, j);
            } else {
                if let Some(d) = dot {
                    lemma_frac_split_chars(t, i, d as int);
                }
            }
        }
    }
}

/// A character that is neither a digit nor the dot makes the literal invalid.
proof fn lemma_reject_bad_char(t: Seq<char>, j: int)
    requires
        0 <= j < t.len(),
        !is_digit(t[j]),
        t[j] != '.',
    ensures
        !unsigned_valid(t),
{
    assert forall|i: int| !frac_split(t, i) by {
        if frac_split(t, i) {
            if i != j {
                lemma_frac_split_chars(t, i, j);
            }
        }
    }
}

/// A dot with no digit after it makes the literal invalid.
proof fn lemma_reject_trailing_dot(t: Seq<char>, d: int)
    requires
        0 <= d < t.len(),
        d == t.len() - 1,
        t[d] == '.',
    ensures
        !unsigned_valid(t),
{
    assert(!is_digit(t[d]));
    assert forall|i: int| !frac_split(t, i) by {
        if frac_split(t, i) && i != d {
            lemma_frac_split_chars(t, i, d);
        }
    }
}

/// When one more digit no longer fits an `i64` mantissa, the value of the
/// whole literal does not fit either.
proof fn lemma_reject_overflow(t: Seq<char>, j: int, dot: Option<usize>, seen: Seq<char>, d: int)
    requires
        0 <= j < t.len(),
        is_digit(t[j]),
        0 <= d == digit_val(t[j]),
        all_digits(seen),
        match dot {
            Some(dd) => 1 <= dd < j && t[dd as int] == '.' && all_digits(t.take(dd as int))
                && all_digits(t.subrange(dd + 1, j)) && seen == t.take(dd as int) + t.subrange(
                dd + 1,
                j,
            ),
            None => all_digits(t.take(j)) && seen == t.take(j),
        },
        digits_val(seen) * 10 + d > i64::MAX,
    ensures
        !(unsigned_valid(t) && -(i64::MAX as int) <= -digits_val_of(t) && digits_val_of(t)
            <= i64::MAX as int),
{
    if unsigned_valid(t) {
        let full = mantissa_seq(t);
        let grown = seen.push(t[j]);
        assert(grown.drop_last() =~= seen);
        assert(digits_val(grown) == digits_val(seen) * 10 + d);
        lemma_seen_prefix_of_mantissa(t, j, dot, seen);
        assert(grown =~= full.take(grown.len() as int));
        assert(all_digits(full)) by {
            lemma_mantissa_all_digits(t);
        }
        lemma_digits_val_prefix(full, grown.len() as int);
        lemma_digits_val_nonneg(full);
    }
}

/// The digit characters of a valid unsigned literal, dot removed.
spec fn mantissa_seq(t: Seq<char>) -> Seq<char> {
    if all_digits(t) {
        t
    } else {
        let i = choose|i: int| frac_split(t, i);
        t.take(i) + t.skip(i + 1)
    }
}

/// The value of the digit characters of `t`: `unsigned_num` by another name.
spec fn digits_val_of(t: Seq<char>) -> int {
    digits_val(mantissa_seq(t))
}

/// The mantissa of a valid literal is all digits.
proof fn lemma_mantissa_all_digits(t: Seq<char>)
    requires
        unsigned_valid(t),
    ensures
        all_digits(mantissa_seq(t)),
{
    if !all_digits(t) {
        let i = choose|i: int| frac_split(t, i);
        assert(frac_split(t, i));
    }
}

/// Mid-scan, the digits seen so far are a prefix of the literal's mantissa.
proof fn lemma_seen_prefix_of_mantissa(t: Seq<char>, j: int, dot: Option<usize>, seen: Seq<char>)
    requires
        unsigned_valid(t),
        0 <= j < t.len(),
        is_digit(t[j]),
        match dot {
            Some(dd) => 1 <= dd < j && t[dd as int] == '.' && all_digits(t.take(dd as int))
                && all_digits(t.subrange(dd + 1, j)) && seen == t.take(dd as int) + t.subrange(
                dd + 1,
                j,
            ),
            None => all_digits(t.take(j)) && seen == t.take(j),
        },
    ensures
        seen.len() + 1 <= mantissa_seq(t).len(),
        seen.push(t[j]) =~= mantissa_seq(t).take(seen.len() + 1 as int),
{
    match dot {
        Some(dd) => {
            assert(!all_digits(t)) by {
                assert(!is_digit(t[dd as int]));
            }
            let i = choose|i: int| frac_split(t, i);
            assert(frac_split(t, i) ==> i == dd) by {
                if frac_split(t, i) && i != dd {
                    lemma_frac_split_chars(t, i, dd as int);
                }
            }
            assert(frac_split(t, dd as int) ==> seen.push(t[j]) =~= mantissa_seq(t).take(
                seen.len() + 1 as int,
            ));
            if !frac_split(t, dd as int) {
                // the literal is valid but not all digits, so some split
                // exists, and it can only be at the dot
                assert(frac_split(t, i));
            }
        },
        None => {
            if all_digits(t) {
                assert(seen.push(t[j]) =~= t.take(j + 1));
                assert(t.take(j + 1) =~= mantissa_seq(t).take(j + 1));
            } else {
                let i = choose|i: int| frac_split(t, i);
                assert(frac_split(t, i));
                assert(i > j) by {
                    if i <= j {
                        if i == j {
                            assert(!is_digit(t[j]));
                        } else {
                            assert(t.take(j)[i] == t[i]);
                            assert(is_digit(t[i]));
                            assert(!is_digit(t[i]));
                        }
                    }
                }
                assert(seen.push(t[j]) =~= t.take(j + 1));
                assert(t.take(j + 1) =~= (t.take(i) + t.skip(i + 1)).take(j + 1));
            }
        },
    }
}


/// The value of two digit strings laid end to end: the left part shifted by
/// the length of the right.
proof fn lemma_digits_val_concat(a: Seq<char>, b: Seq<char>)
    ensures
        digits_val(a + b) == digits_val(a) * pow10(b.len()) + digits_val(b),
    decreases b.len(),
{
    if b.len() == 0 {
        assert(a + b =~= a);
    } else {
        lemma_digits_val_concat(a, b.drop_last());
        assert((a + b).drop_last() =~= a + b.drop_last());
        assert((a + b).last() == b.last());
        assert((digits_val(a) * pow10((b.len() - 1) as nat) + digits_val(b.drop_last())) * 10
            + digit_val(b.last()) == digits_val(a) * (10 * pow10((b.len() - 1) as nat)) + (
        digits_val(b.drop_last()) * 10 + digit_val(b.last()))) by (nonlinear_arith);
    }
}

/// The decimal digit character of a value below ten.
fn digit_str(d: u8) -> (r: &'static str)
    requires
        d < 10,
    ensures
        r@.len() == 1,
        is_digit(r@[0]),
        digit_val(r@[0]) == d,
{
    proof {
        reveal_strlit("0");
        reveal_strlit("1");
        reveal_strlit("2");
        reveal_strlit("3");
        reveal_strlit("4");
        reveal_strlit("5");
        reveal_strlit("6");
        reveal_strlit("7");
        reveal_strlit("8");
        reveal_strlit("9");
    }
    match d {
        0 => "0",
        1 => "1",
        2 => "2",
        3 => "3",
        4 => "4",
        5 => "5",
        6 => "6",
        7 => "7",
        8 => "8",
        _ => "9",
    }
}

/// Renders a nonnegative number as its decimal digits, most significant
/// first.
fn render_digits(n: u128) -> (r: String)
    ensures
        all_digits(r@),
        r@.len() >= 1,
        digits_val(r@) == n,
    decreases n,
{
    if n < 10 {
        let s = digit_str(n as u8).to_owned();
        proof {
            assert(s@.drop_last() =~= Seq::<char>::empty());
            assert(s@.last() == s@[0]);
            assert(digits_val(s@) == digits_val(Seq::<char>::empty()) * 10 + digit_val(s@[0]));
            assert(digits_val(s@) == n);
        }
        s
    } else {
        proof {
            assert(n / 10 < n) by (nonlinear_arith)
                requires
                    n >= 10,
            ;
        }
        let mut s = render_digits(n / 10);
        let ghost prefix = s@;
        let d = digit_str((n % 10) as u8);
        s.append(d);
        proof {
            assert(s@.drop_last() =~= prefix);
            assert(s@.last() == d@[0]);
            assert(digits_val(prefix) * 10 + (n % 10) == n) by (nonlinear_arith)
                requires
                    digits_val(prefix) == n / 10,
                    n >= 10,
            ;
            assert(digits_val(s@) == digits_val(prefix) * 10 + digit_val(d@[0]));
            assert(digits_val(s@) == n);
        }
        s
    }
}

/// Renders a value as exactly `width` decimal digits, zero padded on the
/// left.
fn render_fixed(n: u128, width: usize) -> (r: String)
    requires
        n < pow10(width as nat),
    ensures
        all_digits(r@),
        r@.len() == width,
        digits_val(r@) == n,
    decreases width,
{
    if width == 0 {
        proof {
            assert(pow10(0) == 1);
        }
        String::new()
    } else {
        proof {
            assert(n / 10 < pow10((width - 1) as nat)) by (nonlinear_arith)
                requires
                    n < pow10(width as nat),
                    pow10(width as nat) == 10 * pow10((width - 1) as nat),
                    pow10((width - 1) as nat) > 0,
            ;
            lemma_pow10_monotonic(0, (width - 1) as nat);
        }
        let mut s = render_fixed(n / 10, width - 1);
        let ghost prefix = s@;
        let d = digit_str((n % 10) as u8);
        s.append(d);
        proof {
            assert(s@.drop_last() =~= prefix);
            assert(s@.last() == d@[0]);
            assert(digits_val(prefix) * 10 + (n % 10) == n) by (nonlinear_arith)
                requires
                    digits_val(prefix) == n / 10,
            ;
        }
        s
    }
}


/// Whether `a` and `b` split `s` as the fraction form of `q`: the signed
/// integer literal of the numerator, a slash, and the denominator's digits.
pub open spec fn fraction_parts(s: Seq<char>, a: Seq<char>, b: Seq<char>, q: Rational) -> bool {
    &&& s == a + "/"@ + b
    &&& dec_valid(a)
    &&& dec_den(a) == 1
    &&& dec_num(a) == q.num
    &&& all_digits(b)
    &&& b.len() >= 1
    &&& digits_val(b) == q.den
}

/// Whether `s` is the fraction form `numerator/denominator` of `q`.
pub open spec fn renders_fraction(s: Seq<char>, q: Rational) -> bool {
    exists|a: Seq<char>, b: Seq<char>| fraction_parts(s, a, b, q)
}

/// Whether `s` displays exactly the value of `q`: a decimal literal
/// denoting it, or its fraction form.
pub open spec fn renders_value(s: Seq<char>, q: Rational) -> bool {
    ||| (dec_valid(s) && dec_num(s) * q.den == q.num * dec_den(s))
    ||| renders_fraction(s, q)
}

/// Renders a signed value as its decimal integer literal.
fn render_signed(neg: bool, m: u128) -> (r: String)
    ensures
        dec_valid(r@),
        dec_den(r@) == 1,
        dec_num(r@) == (if neg {
            -(m as int)
        } else {
            m as int
        }),
{
    let digits = render_digits(m);
    if neg {
        let mut s = "-".to_owned();
        s.append(digits.as_str());
        proof {
            reveal_strlit("-");
            assert(s@[0] == '-');
            assert(s@.drop_first() =~= digits@);
            assert(unsigned_part(s@) == digits@);
            assert(pow10(0) == 1);
        }
        s
    } else {
        proof {
            assert(('-' as u32) == 45);
            assert(digits@[0] != '-');
            assert(unsigned_part(digits@) == digits@);
            assert(pow10(0) == 1);
        }
        digits
    }
}

/// Renders `q` as `numerator/denominator`.
fn render_fraction_str(q: &Rational) -> (r: String)
    requires
        q.wf(),
    ensures
        renders_fraction(r@, *q),
{
    let neg = q.num < 0;
    let m: u128 = if q.num < 0 {
        (-(q.num as i128)) as u128
    } else {
        q.num as u128
    };
    let mut s = render_signed(neg, m);
    let ghost a = s@;
    s.append("/");
    let den_digits = render_digits(q.den as u128);
    s.append(den_digits.as_str());
    proof {
        assert(s@ =~= a + "/"@ + den_digits@);
        assert(fraction_parts(s@, a, den_digits@, *q));
    }
    s
}

impl Rational {
    /// Renders the exact value: as a decimal literal when the denominator
    /// divides a power of ten in reach (trailing fractional zeros trimmed,
    /// so forty eighths render as `5`), else as `numerator/denominator`.
    #[verifier::loop_isolation(false)]
    pub fn display(&self) -> (r: String)
        requires
            self.wf(),
        ensures
            renders_value(r@, *self),
    {
        let neg = self.num < 0;
        let m: u128 = if self.num < 0 {
            (-(self.num as i128)) as u128
        } else {
            self.num as u128
        };
        let ghost m_int: int = if self.num < 0 {
            -(self.num as int)
        } else {
            self.num as int
        };
        let den_u: u128 = self.den as u128;
        proof {
            lemma_pow10_max_frac();
            assert(m == m_int);
        }
        // the smallest power of ten the denominator divides, if in reach
        let mut k: usize = 0;
        let mut p: u128 = 1;
        while k < MAX_FRAC_DIGITS && p % den_u != 0
            invariant
                k <= MAX_FRAC_DIGITS,
                p == pow10(k as nat),
            decreases MAX_FRAC_DIGITS - k,
        {
            proof {
                lemma_pow10_monotonic((k + 1) as nat, MAX_FRAC_DIGITS as nat);
            }
            p = p * 10;
            k += 1;
        }
        if p % den_u == 0 {
            let factor = p / den_u;
            proof {
                vstd::arithmetic::div_mod::lemma_fundamental_div_mod(p as int, den_u as int);
                assert(den_u * factor == p);
            }
            match m.checked_mul(factor) {
                Some(mantissa0) => {
                    let mut mantissa = mantissa0;
                    let mut pp = p;
                    let mut kk = k;
                    proof {
                        assert(mantissa0 * den_u == m * p) by (nonlinear_arith)
                            requires
                                mantissa0 == m * factor,
                                den_u * factor == p,
                        ;
                    }
                    // trim trailing fractional zeros
                    while kk > 0 && mantissa % 10 == 0
                        invariant
                            kk <= MAX_FRAC_DIGITS,
                            pp == pow10(kk as nat),
                            mantissa * den_u == m * pp,
                        decreases kk,
                    {
                        let ghost old_m = mantissa as int;
                        let ghost old_p = pp as int;
                        mantissa = mantissa / 10;
                        pp = pp / 10;
                        kk -= 1;
                        proof {
                            assert(pow10((kk + 1) as nat) == 10 * pow10(kk as nat));
                            assert(old_p == 10 * pow10(kk as nat));
                            assert(pp == pow10(kk as nat));
                            assert(old_m == 10 * mantissa);
                            assert(mantissa * den_u == m * pp) by (nonlinear_arith)
                                requires
                                    old_m * (den_u as int) == m_int * old_p,
                                    old_m == 10 * (mantissa as int),
                                    old_p == 10 * (pp as int),
                                    m == m_int,
                            ;
                        }
                    }
                    let body = if kk == 0 {
                        let b = render_digits(mantissa);
                        proof {
                            assert(pow10(0) == 1);
                            assert(unsigned_part(b@) == b@) by {
                                assert(('-' as u32) == 45);
                                assert(b@[0] != '-');
                            }
                        }
                        b
                    } else {
                        proof {
                            lemma_pow10_monotonic(0, kk as nat);
                            assert(pp >= 1);
                        }
                        let ip = render_digits(mantissa / pp);
                        let fp = render_fixed(mantissa % pp, kk);
                        let mut b = ip;
                        let ghost ipv = b@;
                        b.append(".");
                        b.append(fp.as_str());
                        proof {
                            reveal_strlit(".");
                            lemma_body_grammar(b@, ipv, fp@, mantissa as int, pp as int, kk as int);
                        }
                        b
                    };
                    if neg {
                        let mut out = "-".to_owned();
                        out.append(body.as_str());
                        proof {
                            reveal_strlit("-");
                            assert(out@[0] == '-');
                            assert(out@.drop_first() =~= body@);
                            assert(unsigned_part(out@) == body@);
                            assert(dec_num(out@) * self.den == self.num * dec_den(out@))
                                by (nonlinear_arith)
                                requires
                                    dec_num(out@) == -unsigned_num(body@),
                                    dec_den(out@) == pow10(unsigned_frac_len(body@) as nat),
                                    unsigned_num(body@) == mantissa,
                                    pow10(unsigned_frac_len(body@) as nat) == pp,
                                    mantissa * (den_u as int) == m_int * (pp as int),
                                    den_u == self.den,
                                    self.num == -m_int,
                            ;
                        }
                        out
                    } else {
                        proof {
                            assert(dec_num(body@) * self.den == self.num * dec_den(body@))
                                by (nonlinear_arith)
                                requires
                                    dec_num(body@) == unsigned_num(body@),
                                    dec_den(body@) == pow10(unsigned_frac_len(body@) as nat),
                                    unsigned_num(body@) == mantissa,
                                    pow10(unsigned_frac_len(body@) as nat) == pp,
                                    mantissa * (den_u as int) == m_int * (pp as int),
                                    den_u == self.den,
                                    self.num == m_int,
                            ;
                        }
                        body
                    }
                },
                None => render_fraction_str(self),
            }
        } else {
            render_fraction_str(self)
        }
    }
}

/// A digit string, a dot, and a fixed-width digit string form an unsigned
/// decimal literal whose numerator is the digits' value and whose
/// denominator is ten to the fractional width.
proof fn lemma_body_grammar(
    b: Seq<char>,
    ip: Seq<char>,
    fp: Seq<char>,
    mantissa: int,
    pp: int,
    kk: int,
)
    requires
        b == ip + "."@ + fp,
        all_digits(ip),
        ip.len() >= 1,
        all_digits(fp),
        fp.len() == kk,
        kk >= 1,
        "."@.len() == 1,
        "."@[0] == '.',
        digits_val(ip) == mantissa / pp,
        digits_val(fp) == mantissa % pp,
        pp == pow10(kk as nat),
        pp >= 1,
        mantissa >= 0,
    ensures
        unsigned_valid(b),
        !all_digits(b),
        unsigned_num(b) == mantissa,
        unsigned_frac_len(b) == kk,
        unsigned_part(b) == b,
        b.len() > 0,
        b[0] != '-',
{
    let i = ip.len() as int;
    assert(b.len() == ip.len() + 1 + fp.len());
    assert(b[i] == '.');
    assert(b.take(i) =~= ip);
    assert(b.skip(i + 1) =~= fp);
    assert(frac_split(b, i));
    assert(!is_digit(b[i])) by {
        assert(('.' as u32) == 46);
    }
    assert(!all_digits(b));
    let j = choose|j: int| frac_split(b, j);
    assert(frac_split(b, j));
    lemma_frac_split_unique(b, i, j);
    assert(b.take(j) + b.skip(j + 1) =~= ip + fp);
    lemma_digits_val_concat(ip, fp);
    assert(digits_val(ip + fp) == (mantissa / pp) * pp + mantissa % pp);
    assert((mantissa / pp) * pp + mantissa % pp == mantissa) by (nonlinear_arith)
        requires
            pp >= 1,
    ;
    assert(('-' as u32) == 45);
    assert(is_digit(b[0]));
    assert(b[0] != '-');
    assert(unsigned_part(b) == b);
}

} // verus!
