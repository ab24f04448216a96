//! Character classes, decimal literal parsing, decimal rendering and
//! lexicographic string ordering.
//!
//! A numeric literal is an optional `-`, a non-empty run of digits,
//! optionally a `.` and another run, and optionally an exponent (`e` or `E`,
//! an optional sign, and another run) that scales the value by a power of
//! ten.  The value is read into the fixed-point representation of
//! [`crate::num`]: the significand keeps thirteen leading and six fractional
//! digits, further digits are truncated, and out-of-range values saturate.

use vstd::prelude::*;

use crate::num::{abs_int, clip, SCALE};

verus! {

pub open spec fn is_ws(c: char) -> bool {
    c == ' ' || c == '\t' || c == '\n' || c == '\r'
}

pub open spec fn is_digit(c: char) -> bool {
    48 <= c as int && c as int <= 57
}

pub open spec fn is_alpha(c: char) -> bool {
    (97 <= c as int && c as int <= 122) || (65 <= c as int && c as int <= 90)
}

pub open spec fn digit_val(c: char) -> int {
    c as int - 48
}

pub open spec fn digit_char(d: int) -> char {
    if d == 0 {
        '0'
    } else if d == 1 {
        '1'
    } else if d == 2 {
        '2'
    } else if d == 3 {
        '3'
    } else if d == 4 {
        '4'
    } else if d == 5 {
        '5'
    } else if d == 6 {
        '6'
    } else if d == 7 {
        '7'
    } else if d == 8 {
        '8'
    } else {
        '9'
    }
}

pub fn ws_char(c: char) -> (r: bool)
    ensures
        r == is_ws(c),
{
    c == ' ' || c == '\t' || c == '\n' || c == '\r'
}

pub fn digit_char_test(c: char) -> (r: bool)
    ensures
        r == is_digit(c),
{
    let u = c as u32;
    48 <= u && u <= 57
}

pub fn alpha_char_test(c: char) -> (r: bool)
    ensures
        r == is_alpha(c),
{
    let u = c as u32;
    (97 <= u && u <= 122) || (65 <= u && u <= 90)
}

fn digit_to_char(d: u64) -> (c: char)
    requires
        d < 10,
    ensures
        c == digit_char(d as int),
{
    match d {
        0 => '0',
        1 => '1',
        2 => '2',
        3 => '3',
        4 => '4',
        5 => '5',
        6 => '6',
        7 => '7',
        8 => '8',
        _ => '9',
    }
}

/// Relies on `String::push`: appends exactly one character.
#[verifier::external_body]
pub fn push_char(s: &mut String, c: char)
    ensures
        final (s)@ == old(s)@.push(c),
{
    s.push(c)
}

/// The decimal digits of `n`, most significant first, without a sign and
/// without leading zeros (`0` itself is the single character `0`).
pub open spec fn dec_str(n: nat) -> Seq<char>
    decreases n,
{
    if n < 10 {
        seq![digit_char(n as int)]
    } else {
        dec_str(n / 10).push(digit_char((n % 10) as int))
    }
}

/// Append the decimal digits of `m` to `out`.
pub fn push_dec(out: &mut String, m: u64)
    ensures
        final (out)@ == old(out)@ + dec_str(m as nat),
    decreases m,
{
    if m >= 10 {
        push_dec(out, m / 10);
    }
    let c = digit_to_char(m % 10);
    push_char(out, c);
    proof {
        if m < 10 {
            assert(old(out)@ + dec_str(m as nat) =~= old(out)@.push(digit_char(m as int)));
        } else {
            assert(old(out)@ + dec_str(m as nat) =~= (old(out)@ + dec_str((m / 10) as nat)).push(
                digit_char((m % 10) as int),
            ));
        }
    }
}

/// The six fractional digits of `fp` (a count of millionths), zero padded.
pub open spec fn frac6(fp: int) -> Seq<char>
    recommends
        0 <= fp < SCALE,
{
    seq![
        digit_char(fp / 100_000 % 10),
        digit_char(fp / 10_000 % 10),
        digit_char(fp / 1_000 % 10),
        digit_char(fp / 100 % 10),
        digit_char(fp / 10 % 10),
        digit_char(fp % 10),
    ]
}

/// Remove trailing `0` characters.
pub open spec fn strip_zeros(s: Seq<char>) -> Seq<char>
    decreases s.len(),
{
    if s.len() > 0 && s.last() == '0' {
        strip_zeros(s.drop_last())
    } else {
        s
    }
}

/// The text of the fixed-point number `n`: an optional minus sign, the integer
/// part, and the non-zero fractional digits if there are any.
pub open spec fn spec_render_num(n: int) -> Seq<char> {
    let m = abs_int(n);
    let sign: Seq<char> = if n < 0 {
        seq!['-']
    } else {
        Seq::empty()
    };
    let ip = m / (SCALE as int);
    let fp = m % (SCALE as int);
    if fp == 0 {
        sign + dec_str(ip as nat)
    } else {
        sign + dec_str(ip as nat) + seq!['.'] + strip_zeros(frac6(fp))
    }
}

proof fn lemma_strip_take(s: Seq<char>, k: int)
    requires
        0 <= k <= s.len(),
        forall|j: int| k <= j < s.len() ==> s[j] == '0',
        k > 0 ==> s[k - 1] != '0',
    ensures
        strip_zeros(s) =~= s.take(k),
    decreases s.len(),
{
    if s.len() == k {
        assert(s.take(k) =~= s);
    } else {
        assert(s.last() == '0');
        assert(s.drop_last() =~= s.take(s.len() - 1));
        lemma_strip_take(s.drop_last(), k);
        assert(s.drop_last().take(k) =~= s.take(k));
    }
}

/// Render the fixed-point number `n` as text.
pub fn render_num(n: i64) -> (r: String)
    ensures
        r@ == spec_render_num(n as int),
{
    let mut out = String::new();
    let m: u64 = if n >= 0 {
        n as u64
    } else {
        proof {
            assert(-(n as int) <= 0x8000_0000_0000_0000);
        }
        (-(n as i128)) as u64
    };
    if n < 0 {
        push_char(&mut out, '-');
    }
    push_dec(&mut out, m / 1_000_000);
    let fp: u64 = m % 1_000_000;
    if fp == 0 {
        proof {
            assert(out@ =~= spec_render_num(n as int));
        }
        return out;
    }
    push_char(&mut out, '.');
    let mut digits: Vec<char> = Vec::new();
    digits.push(digit_to_char(fp / 100_000 % 10));
    digits.push(digit_to_char(fp / 10_000 % 10));
    digits.push(digit_to_char(fp / 1_000 % 10));
    digits.push(digit_to_char(fp / 100 % 10));
    digits.push(digit_to_char(fp / 10 % 10));
    digits.push(digit_to_char(fp % 10));
    proof {
        assert(digits@ =~= frac6(fp as int));
    }
    let mut keep: usize = 6;
    while keep > 0 && digits[keep - 1] == '0'
        invariant
            keep <= 6,
            digits@ =~= frac6(fp as int),
            digits@.len() == 6,
            forall|j: int| keep <= j < 6 ==> digits@[j] == '0',
        decreases keep,
    {
        keep = keep - 1;
    }
    proof {
        if keep == 0 {
            assert(fp as int == (fp as int / 10) * 10 + fp as int % 10);
            assert(fp as int / 10 == (fp as int / 100) * 10 + fp as int / 10 % 10);
            assert(fp as int / 100 == (fp as int / 1_000) * 10 + fp as int / 100 % 10);
            assert(fp as int / 1_000 == (fp as int / 10_000) * 10 + fp as int / 1_000 % 10);
            assert(fp as int / 10_000 == (fp as int / 100_000) * 10 + fp as int / 10_000 % 10);
            assert(fp as int / 100_000 % 10 == fp as int / 100_000);
            assert(fp == 0);
        }
        lemma_strip_take(frac6(fp as int), keep as int);
    }
    let ghost base = out@;
    let mut k: usize = 0;
    while k < keep
        invariant
            k <= keep <= 6,
            digits@.len() == 6,
            digits@ =~= frac6(fp as int),
            out@ =~= base + digits@.take(k as int),
        decreases keep - k,
    {
        let c = digits[k];
        push_char(&mut out, c);
        proof {
            assert(base + digits@.take(k as int) + seq![digits@[k as int]] =~= base + digits@.take(
                k as int + 1,
            ));
        }
        k = k + 1;
    }
    proof {
        assert(out@ =~= spec_render_num(n as int));
    }
    out
}

/// The value of a run of decimal digits, most significant first.
pub open spec fn digits_val(s: Seq<char>) -> int
    decreases s.len(),
{
    if s.len() == 0 {
        0
    } else {
        digits_val(s.drop_last()) * 10 + digit_val(s.last())
    }
}

/// A non-empty run of decimal digits.
pub open spec fn digit_run(s: Seq<char>) -> bool {
    s.len() > 0 && forall|i: int| 0 <= i < s.len() ==> is_digit(s[i])
}

/// The index of the first occurrence of `c`, or the length if there is none.
pub open spec fn find_char(s: Seq<char>, c: char) -> int
    decreases s.len(),
{
    if s.len() == 0 {
        0
    } else if s[0] == c {
        0
    } else {
        1 + find_char(s.skip(1), c)
    }
}

pub open spec fn pow10_small(k: int) -> int {
    if k <= 0 {
        1
    } else if k == 1 {
        10
    } else if k == 2 {
        100
    } else if k == 3 {
        1_000
    } else if k == 4 {
        10_000
    } else if k == 5 {
        100_000
    } else {
        1_000_000
    }
}

/// The value, in millionths, of the fractional digit run `f`: digits beyond
/// the sixth are truncated, shorter runs are padded with zeros.
pub open spec fn frac_val6(f: Seq<char>) -> int {
    if f.len() >= 6 {
        digits_val(f.take(6))
    } else {
        digits_val(f) * pow10_small(6 - f.len())
    }
}

/// The value of a digit run, saturated at the precision the reader keeps:
/// thirteen leading decimal digits.
pub open spec fn digits_val_capped(s: Seq<char>) -> int {
    if digits_val(s) < DIGIT_CAP {
        digits_val(s)
    } else {
        DIGIT_CAP as int
    }
}

/// Ten to the `k`.
pub open spec fn pow10n(k: nat) -> int
    decreases k,
{
    if k == 0 {
        1
    } else {
        10 * pow10n((k - 1) as nat)
    }
}

/// The fixed-point magnitude of an unsigned mantissa: a digit run, optionally
/// followed by a dot and another digit run.
pub open spec fn parse_mantissa(m: Seq<char>) -> Option<int> {
    let k = find_char(m, '.');
    if k == m.len() {
        if digit_run(m) {
            Some(digits_val_capped(m) * (SCALE as int))
        } else {
            None
        }
    } else {
        let d = m.take(k);
        let f = m.skip(k + 1);
        if digit_run(d) && digit_run(f) {
            Some(digits_val_capped(d) * (SCALE as int) + frac_val6(f))
        } else {
            None
        }
    }
}

/// The index of the first exponent marker (`e` or `E`), or the length.
pub open spec fn find_exp(s: Seq<char>) -> int
    decreases s.len(),
{
    if s.len() == 0 {
        0
    } else if s[0] == 'e' || s[0] == 'E' {
        0
    } else {
        1 + find_exp(s.skip(1))
    }
}

/// An exponent: an optional sign, then a digit run.
pub open spec fn parse_exp(ex: Seq<char>) -> Option<int> {
    let sgn = ex.len() > 0 && (ex[0] == '-' || ex[0] == '+');
    let d = if sgn {
        ex.skip(1)
    } else {
        ex
    };
    if digit_run(d) {
        if ex.len() > 0 && ex[0] == '-' {
            Some(-digits_val(d))
        } else {
            Some(digits_val(d))
        }
    } else {
        None
    }
}

/// Scale a non-negative fixed-point magnitude by ten to the `k`.  Twenty
/// decimal places is already past both ends of the representable range, so a
/// larger shift acts as a shift by twenty.
pub open spec fn scale_pow10(x: int, k: int) -> int {
    if k >= 0 {
        x * pow10n(
            (if k > 20 {
                20int
            } else {
                k
            }) as nat,
        )
    } else {
        x / pow10n(
            (if -k > 20 {
                20int
            } else {
                -k
            }) as nat,
        )
    }
}

/// The unsigned reading of a decimal literal: a mantissa, optionally
/// followed by an exponent marker and an exponent that scales it.
pub open spec fn parse_unsigned_decimal(t: Seq<char>) -> Option<int> {
    let ke = find_exp(t);
    match parse_mantissa(t.take(ke)) {
        None => None,
        Some(m) => if ke >= t.len() {
            Some(m)
        } else {
            match parse_exp(t.skip(ke + 1)) {
                Some(k) => Some(scale_pow10(m, k)),
                None => None,
            }
        },
    }
}

/// The fixed-point reading of a decimal literal: an optional minus sign, a
/// digit run, optionally a dot and a digit run, and optionally an exponent
/// (`e` or `E`, an optional sign, a digit run) that scales the value by a
/// power of ten.  Anything else is rejected; out-of-range values saturate,
/// and the significand keeps thirteen leading digits and six fractional
/// digits before the exponent is applied.
pub open spec fn spec_parse_decimal(s: Seq<char>) -> Option<int> {
    let neg = s.len() > 0 && s[0] == '-';
    let t = if neg {
        s.skip(1)
    } else {
        s
    };
    match parse_unsigned_decimal(t) {
        Some(m) => Some(signed_clip(m, neg)),
        None => None,
    }
}

pub open spec fn signed_clip(m: int, neg: bool) -> int {
    clip(
        if neg {
            -m
        } else {
            m
        },
    )
}

pub open spec fn opt_val(o: Option<i64>) -> Option<int> {
    match o {
        Some(v) => Some(v as int),
        None => None,
    }
}

proof fn lemma_digits_val_step(s: Seq<char>, i: int)
    requires
        0 <= i < s.len(),
    ensures
        digits_val(s.take(i + 1)) == digits_val(s.take(i)) * 10 + digit_val(s[i]),
{
    assert(s.take(i + 1).drop_last() =~= s.take(i));
    assert(s.take(i + 1).last() == s[i]);
}

pub(crate) proof fn lemma_digits_val_nonneg(s: Seq<char>)
    requires
        forall|i: int| 0 <= i < s.len() ==> is_digit(s[i]),
    ensures
        digits_val(s) >= 0,
    decreases s.len(),
{
    if s.len() > 0 {
        assert(s.drop_last() =~= s.take(s.len() - 1));
        lemma_digits_val_nonneg(s.drop_last());
    }
}

pub(crate) proof fn lemma_find_char_at(s: Seq<char>, c: char, p: int)
    requires
        0 <= p <= s.len(),
        forall|j: int| 0 <= j < p ==> s[j] != c,
        p < s.len() ==> s[p] == c,
    ensures
        find_char(s, c) == p,
    decreases s.len(),
{
    if s.len() == 0 {
    } else if p == 0 {
    } else {
        lemma_find_char_at(s.skip(1), c, p - 1);
    }
}

pub(crate) proof fn lemma_find_char_props(s: Seq<char>, c: char)
    ensures
        0 <= find_char(s, c) <= s.len(),
        find_char(s, c) < s.len() ==> s[find_char(s, c)] == c,
        forall|j: int| 0 <= j < find_char(s, c) ==> s[j] != c,
    decreases s.len(),
{
    if s.len() == 0 {
    } else if s[0] == c {
    } else {
        lemma_find_char_props(s.skip(1), c);
        assert forall|j: int| 0 <= j < find_char(s, c) implies s[j] != c by {
            if j > 0 {
                assert(s[j] == s.skip(1)[j - 1]);
            }
        }
    }
}

/// Scanning stopped inside the mantissa on a character that fits no
/// mantissa shape, so the mantissa is rejected.
proof fn lemma_mantissa_reject(m: Seq<char>, dlen: int, foff: int, has_frac: bool, q: int)
    requires
        0 <= q < m.len(),
        0 <= dlen <= m.len(),
        forall|j: int| 0 <= j < dlen ==> is_digit(m[j]),
        !is_digit(m[q]),
        !has_frac ==> q == dlen && m[q] != '.',
        has_frac ==> dlen < m.len() && m[dlen] == '.' && foff == dlen + 1 && foff <= q,
    ensures
        parse_mantissa(m) is None,
{
    lemma_find_char_props(m, '.');
    let k = find_char(m, '.');
    if has_frac {
        lemma_find_char_at(m, '.', dlen);
        assert(!digit_run(m.skip(k + 1))) by {
            assert(m.skip(k + 1)[q - foff] == m[q]);
        };
    } else {
        if k == m.len() {
            assert(!digit_run(m));
        } else {
            // the first dot lies past the offending character
            assert(k > q);
            assert(!digit_run(m.take(k))) by {
                assert(m.take(k)[q] == m[q]);
            };
        }
    }
}

/// The scanned runs cover the whole mantissa, so it reads as the capped
/// digits value plus the fraction.
pub(crate) proof fn lemma_mantissa_shape(m: Seq<char>, dlen: int, foff: int, has_frac: bool)
    requires
        1 <= dlen <= m.len(),
        forall|j: int| 0 <= j < dlen ==> is_digit(m[j]),
        !has_frac ==> dlen == m.len(),
        has_frac ==> foff == dlen + 1 && dlen < m.len() && m[dlen] == '.' && foff < m.len() && (
        forall|j: int| foff <= j < m.len() ==> is_digit(m[j])),
    ensures
        parse_mantissa(m) == Some(
            digits_val_capped(m.take(dlen)) * (SCALE as int) + (if has_frac {
                frac_val6(m.skip(dlen + 1))
            } else {
                0
            }),
        ),
{
    if has_frac {
        lemma_find_char_at(m, '.', dlen);
        assert(digit_run(m.take(dlen)));
        assert(digit_run(m.skip(dlen + 1)));
    } else {
        lemma_find_char_at(m, '.', m.len() as int);
        assert(m.take(dlen) =~= m);
        assert(digit_run(m));
    }
}

/// Characterization of [`find_exp`] from the witness position.
pub(crate) proof fn lemma_find_exp_at(s: Seq<char>, p: int)
    requires
        0 <= p <= s.len(),
        forall|j: int| 0 <= j < p ==> s[j] != 'e' && s[j] != 'E',
        p < s.len() ==> s[p] == 'e' || s[p] == 'E',
    ensures
        find_exp(s) == p,
    decreases s.len(),
{
    if s.len() == 0 {
    } else if p == 0 {
    } else {
        lemma_find_exp_at(s.skip(1), p - 1);
    }
}

/// Characterization of [`find_exp`] from the definition.
pub(crate) proof fn lemma_find_exp_props(s: Seq<char>)
    ensures
        0 <= find_exp(s) <= s.len(),
        find_exp(s) < s.len() ==> s[find_exp(s)] == 'e' || s[find_exp(s)] == 'E',
        forall|j: int| 0 <= j < find_exp(s) ==> s[j] != 'e' && s[j] != 'E',
    decreases s.len(),
{
    if s.len() == 0 {
    } else if s[0] == 'e' || s[0] == 'E' {
    } else {
        lemma_find_exp_props(s.skip(1));
        assert forall|j: int| 0 <= j < find_exp(s) implies s[j] != 'e' && s[j] != 'E' by {
            if j > 0 {
                assert(s[j] == s.skip(1)[j - 1]);
            }
        }
    }
}

pub(crate) proof fn lemma_pow10n_pos(k: nat)
    ensures
        pow10n(k) >= 1,
    decreases k,
{
    if k > 0 {
        lemma_pow10n_pos((k - 1) as nat);
    }
}

/// Ten to the `k`, for `k` at most twenty.
pub(crate) fn pow10_exec(k: u64) -> (r: u128)
    requires
        k <= 20,
    ensures
        r as int == pow10n(k as nat),
        1 <= r <= 100_000_000_000_000_000_000u128,
        k <= 19 ==> r <= 10_000_000_000_000_000_000u128,
{
    proof {
        reveal_with_fuel(pow10n, 22);
    }
    if k == 0 {
        1
    } else if k == 1 {
        10
    } else if k == 2 {
        100
    } else if k == 3 {
        1_000
    } else if k == 4 {
        10_000
    } else if k == 5 {
        100_000
    } else if k == 6 {
        1_000_000
    } else if k == 7 {
        10_000_000
    } else if k == 8 {
        100_000_000
    } else if k == 9 {
        1_000_000_000
    } else if k == 10 {
        10_000_000_000
    } else if k == 11 {
        100_000_000_000
    } else if k == 12 {
        1_000_000_000_000
    } else if k == 13 {
        10_000_000_000_000
    } else if k == 14 {
        100_000_000_000_000
    } else if k == 15 {
        1_000_000_000_000_000
    } else if k == 16 {
        10_000_000_000_000_000
    } else if k == 17 {
        100_000_000_000_000_000
    } else if k == 18 {
        1_000_000_000_000_000_000
    } else if k == 19 {
        10_000_000_000_000_000_000
    } else {
        100_000_000_000_000_000_000
    }
}

/// Scanning stopped, outside any exponent, on a character that fits no
/// literal shape.
proof fn lemma_plain_reject(t: Seq<char>, dlen: int, foff: int, has_frac: bool, q: int)
    requires
        0 <= q < t.len(),
        1 <= dlen <= t.len(),
        forall|j: int| 0 <= j < dlen ==> is_digit(t[j]),
        !is_digit(t[q]),
        t[q] != 'e' && t[q] != 'E',
        !has_frac ==> q == dlen && t[q] != '.',
        has_frac ==> dlen < t.len() && t[dlen] == '.' && foff == dlen + 1 && foff <= q && (forall|
            j: int,
        | foff <= j < q ==> is_digit(t[j])),
    ensures
        parse_unsigned_decimal(t) is None,
{
    lemma_find_exp_props(t);
    let ke = find_exp(t);
    assert(ke > q) by {
        if ke <= q {
            assert(t[ke] == 'e' || t[ke] == 'E');
            if ke < dlen {
                assert(is_digit(t[ke]));
            } else if has_frac && ke == dlen {
                assert(t[ke] == '.');
            } else if has_frac && dlen < ke && ke < q {
                assert(is_digit(t[ke]));
            } else {
                assert(ke == q);
            }
        }
    };
    let m = t.take(ke);
    lemma_mantissa_reject(m, dlen, foff, has_frac, q);
}

/// The exponent marker was seen, but what follows it is not a signed digit
/// run reaching the end of the text.
proof fn lemma_exp_reject(
    t: Seq<char>,
    dlen: int,
    foff: int,
    fend: int,
    has_frac: bool,
    ke_g: int,
    soff: int,
    q: int,
)
    requires
        1 <= dlen <= t.len(),
        forall|j: int| 0 <= j < dlen ==> is_digit(t[j]),
        !has_frac ==> ke_g == dlen,
        has_frac ==> dlen < t.len() && t[dlen] == '.' && foff == dlen + 1 && foff <= fend && fend
            == ke_g && (forall|j: int| foff <= j < fend ==> is_digit(t[j])),
        ke_g < t.len(),
        t[ke_g] == 'e' || t[ke_g] == 'E',
        soff == ke_g + 1 || soff == ke_g + 2,
        soff == ke_g + 2 ==> ke_g + 1 < t.len() && (t[ke_g + 1] == '-' || t[ke_g + 1] == '+'),
        soff == ke_g + 1 && ke_g + 1 < t.len() ==> t[ke_g + 1] != '-' && t[ke_g + 1] != '+',
        soff <= q <= t.len(),
        forall|j: int| soff <= j < q ==> is_digit(t[j]),
        q < t.len() ==> !is_digit(t[q]),
        q == soff || q < t.len(),
    ensures
        parse_unsigned_decimal(t) is None,
{
    lemma_find_exp_at(t, ke_g);
    let ex = t.skip(ke_g + 1);
    assert(parse_exp(ex) is None) by {
        let d = if soff == ke_g + 2 {
            ex.skip(1)
        } else {
            ex
        };
        assert(d =~= t.skip(soff));
        assert(!digit_run(t.skip(soff))) by {
            if q < t.len() {
                assert(t.skip(soff)[q - soff] == t[q]);
            } else {
                if t.skip(soff).len() > 0 {
                    assert(q == soff);
                    assert(q < t.len());
                }
            }
        };
        if soff == ke_g + 2 {
            assert(ex[0] == t[ke_g + 1]);
        } else {
            if ex.len() > 0 {
                assert(ex[0] == t[ke_g + 1]);
            }
        }
    };
}

/// Cap used while accumulating digits: anything at or above it saturates once
/// rescaled, so greater precision is never needed.
pub const DIGIT_CAP: u64 = 10_000_000_000_000;

/// Read a decimal literal (the whole string) into fixed-point form.
#[verifier::rlimit(100)]
#[verifier::spinoff_prover]
pub fn parse_decimal(s: &str) -> (r: Option<i64>)
    ensures
        opt_val(r) == spec_parse_decimal(s@),
{
    let n = s.unicode_len();
    let mut i: usize = 0;
    let neg = n > 0 && s.get_char(0) == '-';
    if neg {
        i = 1;
    }
    let ghost t = if neg {
        s@.skip(1)
    } else {
        s@
    };
    let start = i;
    let ghost off = start as int;
    let mut acc: u64 = 0;
    while i < n && digit_char_test(s.get_char(i))
        invariant
            start <= i <= n,
            n == s@.len(),
            off == start as int,
            start <= 1,
            neg <==> off == 1,
            t == (if neg {
                s@.skip(1)
            } else {
                s@
            }),
            forall|j: int| 0 <= j < i - start ==> is_digit(t[j]),
            acc <= DIGIT_CAP,
            acc as int == digits_val_capped(t.take(i - start)),
        decreases n - i,
    {
        let d = (s.get_char(i) as u32 - 48) as u64;
        proof {
            assert(t[i - start] == s@[i as int]);
            lemma_digits_val_step(t, i - start);
            lemma_digits_val_nonneg(t.take(i - start));
        }
        let w = acc * 10 + d;
        acc = if w >= DIGIT_CAP {
            DIGIT_CAP
        } else {
            w
        };
        i = i + 1;
    }
    if i == start {
        // no digits at all: the mantissa fails whatever follows
        proof {
            lemma_find_exp_props(t);
            let ke = find_exp(t);
            let m = t.take(ke);
            if t.len() == 0 {
                assert(m =~= t);
                assert(!digit_run(m));
                lemma_find_char_props(m, '.');
                assert(parse_mantissa(m) is None);
            } else {
                assert(t[0] == s@[off]);
                assert(!is_digit(t[0]));
                if t[0] == 'e' || t[0] == 'E' {
                    assert(ke == 0) by {
                        lemma_find_exp_at(t, 0);
                    };
                    assert(m =~= Seq::<char>::empty());
                    lemma_find_char_props(m, '.');
                    assert(!digit_run(m));
                    assert(parse_mantissa(m) is None);
                } else {
                    assert(ke >= 1);
                    assert(m[0] == t[0]);
                    lemma_find_char_props(m, '.');
                    let k = find_char(m, '.');
                    if k == m.len() {
                        assert(!digit_run(m));
                    } else if k == 0 {
                        assert(!digit_run(m.take(0)));
                    } else {
                        assert(!digit_run(m.take(k))) by {
                            assert(m.take(k)[0] == m[0]);
                        };
                    }
                    assert(parse_mantissa(m) is None);
                }
            }
        }
        return None;
    }
    let ghost dlen = i - start;
    let mut frac: u64 = 0;
    let mut fcount: u64 = 0;
    let mut has_frac = false;
    let ghost mut foff = 0int;
    let ghost mut fend = dlen;
    if i < n && s.get_char(i) == '.' {
        proof {
            assert(t[i - start] == s@[i as int]);
        }
        has_frac = true;
        i = i + 1;
        proof {
            foff = i - start;
        }
        let fstart = i;
        while i < n && digit_char_test(s.get_char(i))
            invariant
                fstart <= i <= n,
                n == s@.len(),
                foff == fstart - start,
                start + 1 <= fstart,
                off == start as int,
                start <= 1,
                neg <==> off == 1,
                t == (if neg {
                    s@.skip(1)
                } else {
                    s@
                }),
                foff <= t.len(),
                forall|j: int| foff <= j < i - start ==> is_digit(t[j]),
                fcount as int == (if i - fstart < 6 {
                    i - fstart
                } else {
                    6int
                }),
                frac < pow10_small(fcount as int),
                pow10_small(fcount as int) <= 1_000_000,
                frac as int == digits_val(t.skip(foff).take(fcount as int)),
            decreases n - i,
        {
            let d = (s.get_char(i) as u32 - 48) as u64;
            proof {
                assert(t[i - start] == s@[i as int]);
                assert(t.skip(foff)[i - fstart] == t[i - start]);
            }
            if fcount < 6 {
                proof {
                    lemma_digits_val_step(t.skip(foff), i - fstart);
                }
                frac = frac * 10 + d;
                fcount = fcount + 1;
            } else {
                proof {
                    assert(t.skip(foff).take(fcount as int) =~= t.skip(foff).take(6));
                }
            }
            i = i + 1;
        }
        proof {
            fend = i - start;
        }
        if i == fstart {
            // a dot with no digits after it: not a literal
            proof {
                lemma_find_exp_props(t);
                let ke = find_exp(t);
                assert(ke > dlen) by {
                    if ke <= dlen {
                        assert(is_digit(t[ke]) || t[ke] == '.');
                    }
                };
                let m = t.take(ke);
                lemma_find_char_at(m, '.', dlen);
                if m.len() > dlen + 1 {
                    assert(m[dlen + 1] == t[foff]);
                    assert(foff < t.len());
                    assert(t[foff] == s@[i as int]);
                    assert(!is_digit(t[foff]));
                    assert(!digit_run(m.skip(dlen + 1))) by {
                        assert(m.skip(dlen + 1)[0] == m[dlen + 1]);
                    };
                } else {
                    assert(m.skip(dlen + 1).len() == 0);
                    assert(!digit_run(m.skip(dlen + 1)));
                }
                assert(parse_mantissa(m) is None);
            }
            return None;
        }
    }
    // exponent
    let mut has_e = false;
    let mut eneg = false;
    let mut ev: u64 = 0;
    let ghost mut ke_g = 0int;
    let ghost mut soff = 0int;
    if i < n && (s.get_char(i) == 'e' || s.get_char(i) == 'E') {
        proof {
            ke_g = i - start;
            assert(t[ke_g] == s@[i as int]);
        }
        has_e = true;
        i = i + 1;
        if i < n && s.get_char(i) == '-' {
            proof {
                assert(t[i - start] == s@[i as int]);
            }
            eneg = true;
            i = i + 1;
        } else if i < n && s.get_char(i) == '+' {
            proof {
                assert(t[i - start] == s@[i as int]);
            }
            i = i + 1;
        }
        proof {
            soff = i - start;
        }
        let estart = i;
        while i < n && digit_char_test(s.get_char(i))
            invariant
                estart <= i <= n,
                n == s@.len(),
                soff == estart - start,
                start <= estart,
                off == start as int,
                start <= 1,
                neg <==> off == 1,
                t == (if neg {
                    s@.skip(1)
                } else {
                    s@
                }),
                soff <= t.len(),
                forall|j: int| soff <= j < i - start ==> is_digit(t[j]),
                ev <= 21,
                ev as int == (if digits_val(t.skip(soff).take(i - estart)) < 21 {
                    digits_val(t.skip(soff).take(i - estart))
                } else {
                    21int
                }),
            decreases n - i,
        {
            let d = (s.get_char(i) as u32 - 48) as u64;
            proof {
                assert(t[i - start] == s@[i as int]);
                assert(t.skip(soff)[i - estart] == t[i - start]);
                lemma_digits_val_step(t.skip(soff), i - estart);
                lemma_digits_val_nonneg(t.skip(soff).take(i - estart));
            }
            let w = ev * 10 + d;
            ev = if w >= 21 {
                21
            } else {
                w
            };
            i = i + 1;
        }
        if i == estart || i != n {
            // an exponent marker without digits, or trailing characters
            proof {
                lemma_exp_reject(t, dlen, foff, fend, has_frac, ke_g, soff, i - start);
            }
            return None;
        }
    } else {
        if i != n {
            // stopped on a character that fits no literal shape
            proof {
                assert(t[i - start] == s@[i as int]);
                lemma_plain_reject(t, dlen, foff, has_frac, i - start);
            }
            return None;
        }
    }
    // the text is a literal: assemble the mantissa magnitude
    let mult: u64 = match fcount {
        1 => 100_000,
        2 => 10_000,
        3 => 1_000,
        4 => 100,
        5 => 10,
        _ => 1,
    };
    let fr: u64 = frac * mult;
    let ghost ke = if has_e {
        ke_g
    } else {
        t.len() as int
    };
    let ghost m_seq = t.take(ke);
    proof {
        if has_e {
            lemma_find_exp_at(t, ke_g);
        } else {
            lemma_find_exp_at(t, t.len() as int);
        }
        assert(find_exp(t) == ke);
        if has_frac {
            assert(fend == ke);
            let f = m_seq.skip(dlen + 1);
            assert(f =~= t.skip(foff).take(fend - foff));
            assert(fcount <= 6);
            if f.len() >= 6 {
                assert(fcount == 6);
                assert(mult == 1);
                assert(t.skip(foff).take(fcount as int) =~= f.take(6));
            } else {
                assert(fcount as int == f.len());
                assert(t.skip(foff).take(fcount as int) =~= f);
                assert(mult as int == pow10_small(6 - f.len()));
            }
            assert(frac < pow10_small(fcount as int));
            if fcount == 1 {
                assert(frac < 10);
                assert(mult == 100_000);
                assert(fr < 1_000_000);
            } else if fcount == 2 {
                assert(frac < 100);
                assert(mult == 10_000);
                assert(fr < 1_000_000);
            } else if fcount == 3 {
                assert(frac < 1_000);
                assert(mult == 1_000);
                assert(fr < 1_000_000);
            } else if fcount == 4 {
                assert(frac < 10_000);
                assert(mult == 100);
                assert(fr < 1_000_000);
            } else if fcount == 5 {
                assert(frac < 100_000);
                assert(mult == 10);
                assert(fr < 1_000_000);
            } else {
                assert(frac < 1_000_000);
                assert(mult == 1);
                assert(fr < 1_000_000);
            }
            assert(fr as int == frac_val6(f));
            assert(foff <= ke <= t.len());
            lemma_mantissa_shape(m_seq, dlen, dlen + 1, true);
        } else {
            assert(fcount == 0);
            assert(fr == 0);
            assert(dlen == ke);
            assert(m_seq.len() == dlen);
            lemma_mantissa_shape(m_seq, dlen, 0, false);
        }
        assert(m_seq.take(dlen) =~= t.take(dlen));
        assert(parse_mantissa(m_seq) == Some(acc as int * 1_000_000 + fr as int));
    }
    let mag: u64 = acc * 1_000_000 + fr;
    if !has_e {
        proof {
            assert(ke >= t.len());
            assert(parse_unsigned_decimal(t) == Some(mag as int));
        }
        Some(crate::num::clip_signed(mag as u128, neg))
    } else {
        proof {
            let ex = t.skip(ke_g + 1);
            assert(ex.len() > 0) by {
                assert(soff < t.len());
            };
            assert(ex[0] == t[ke_g + 1]);
            let d_seq = if soff == ke_g + 2 {
                ex.skip(1)
            } else {
                ex
            };
            assert(d_seq =~= t.skip(soff));
            assert(digit_run(t.skip(soff))) by {
                assert(t.skip(soff).len() == t.len() - soff);
                assert(t.len() - soff > 0);
            };
            assert(t.skip(soff).take(t.len() - soff) =~= t.skip(soff));
            if soff == ke_g + 1 {
                // no sign: the first exponent character is a digit
                assert(ex[0] == t[soff]);
                assert(is_digit(ex[0]));
                assert(ex[0] != '-' && ex[0] != '+');
                assert(parse_exp(ex) == Some(digits_val(t.skip(soff))));
            } else {
                assert(soff == ke_g + 2);
                assert(ex[0] == '-' || ex[0] == '+');
                if eneg {
                    assert(parse_exp(ex) == Some(-digits_val(t.skip(soff))));
                } else {
                    assert(ex[0] == '+');
                    assert(parse_exp(ex) == Some(digits_val(t.skip(soff))));
                }
            }
            lemma_digits_val_nonneg(t.skip(soff));
        }
        let keff: u64 = if ev > 20 {
            20
        } else {
            ev
        };
        let ghost dv = digits_val(t.skip(soff));
        proof {
            // the capped accumulator and the spec shift cap agree
            assert(keff as int == (if dv > 20 {
                20int
            } else {
                dv
            }));
            assert(mag as int <= 10_000_000_000_000_999_999);
        }
        if eneg {
            let p = pow10_exec(keff);
            let q = (mag as u128) / p;
            proof {
                assert(scale_pow10(mag as int, -dv) == mag as int / pow10n(keff as nat));
                assert(parse_unsigned_decimal(t) == Some(scale_pow10(mag as int, -dv)));
            }
            Some(crate::num::clip_signed(q, neg))
        } else {
            proof {
                assert(parse_unsigned_decimal(t) == Some(scale_pow10(mag as int, dv)));
            }
            if keff >= 20 {
                if mag == 0 {
                    proof {
                        assert(0 * pow10n(
                            (if dv > 20 {
                                20int
                            } else {
                                dv
                            }) as nat,
                        ) == 0) by (nonlinear_arith);
                        assert(scale_pow10(0, dv) == 0);
                    }
                    Some(0)
                } else {
                    proof {
                        reveal_with_fuel(pow10n, 22);
                        assert(pow10n(20) == 100_000_000_000_000_000_000);
                        assert(mag as int * pow10n(20) >= pow10n(20)) by (nonlinear_arith)
                            requires
                                mag as int >= 1,
                                pow10n(20) >= 0,
                        ;
                        assert(scale_pow10(mag as int, dv) >= 100_000_000_000_000_000_000);
                    }
                    if neg {
                        Some(i64::MIN)
                    } else {
                        Some(i64::MAX)
                    }
                }
            } else {
                let p = pow10_exec(keff);
                proof {
                    assert((mag as int) * (p as int)
                        <= 100_000_000_000_009_999_990_000_000_000_000_000_000) by (nonlinear_arith)
                        requires
                            0 <= mag as int <= 10_000_000_000_000_999_999,
                            0 <= p as int <= 10_000_000_000_000_000_000,
                    ;
                }
                let prod = (mag as u128) * p;
                proof {
                    assert(scale_pow10(mag as int, dv) == mag as int * pow10n(keff as nat));
                }
                Some(crate::num::clip_signed(prod, neg))
            }
        }
    }
}

/// Lexicographic order on character sequences by code point, with a proper
/// prefix ordered first.  This is the order `str` comparison gives, since
/// UTF-8 byte order agrees with code point order.
pub open spec fn lex_lt(a: Seq<char>, b: Seq<char>) -> bool
    decreases a.len(),
{
    if b.len() == 0 {
        false
    } else if a.len() == 0 {
        true
    } else if (a[0] as u32) < (b[0] as u32) {
        true
    } else if (a[0] as u32) > (b[0] as u32) {
        false
    } else {
        lex_lt(a.skip(1), b.skip(1))
    }
}

proof fn lemma_lex_skip(a: Seq<char>, b: Seq<char>, i: int)
    requires
        0 <= i <= a.len(),
        i <= b.len(),
        a.take(i) == b.take(i),
    ensures
        lex_lt(a, b) == lex_lt(a.skip(i), b.skip(i)),
    decreases i,
{
    if i == 0 {
        assert(a.skip(0) =~= a);
        assert(b.skip(0) =~= b);
    } else {
        assert(a[0] == a.take(i)[0]);
        assert(b[0] == b.take(i)[0]);
        assert(a.skip(1).take(i - 1) =~= a.take(i).skip(1));
        assert(b.skip(1).take(i - 1) =~= b.take(i).skip(1));
        lemma_lex_skip(a.skip(1), b.skip(1), i - 1);
        assert(a.skip(1).skip(i - 1) =~= a.skip(i));
        assert(b.skip(1).skip(i - 1) =~= b.skip(i));
    }
}

/// Three-way string comparison: negative, zero or positive as `a` orders
/// before, equal to or after `b`.
pub fn str_cmp3(a: &str, b: &str) -> (r: i8)
    ensures
        (r == 0) <==> (a@ == b@),
        (r < 0) <==> lex_lt(a@, b@),
        (r > 0) <==> lex_lt(b@, a@),
{
    let an = a.unicode_len();
    let bn = b.unicode_len();
    let mut i: usize = 0;
    while i < an && i < bn
        invariant
            i <= an,
            i <= bn,
            an == a@.len(),
            bn == b@.len(),
            a@.take(i as int) == b@.take(i as int),
        decreases an - i,
    {
        let ca = a.get_char(i);
        let cb = b.get_char(i);
        if (ca as u32) < (cb as u32) {
            proof {
                lemma_lex_skip(a@, b@, i as int);
                lemma_lex_skip(b@, a@, i as int);
                assert(a@.skip(i as int)[0] == ca);
                assert(b@.skip(i as int)[0] == cb);
                assert(a@[i as int] != b@[i as int]);
            }
            return -1;
        }
        if (ca as u32) > (cb as u32) {
            proof {
                lemma_lex_skip(a@, b@, i as int);
                lemma_lex_skip(b@, a@, i as int);
                assert(a@.skip(i as int)[0] == ca);
                assert(b@.skip(i as int)[0] == cb);
                assert(a@[i as int] != b@[i as int]);
            }
            return 1;
        }
        proof {
            assert(a@.take(i + 1) =~= a@.take(i as int).push(ca));
            assert(b@.take(i + 1) =~= b@.take(i as int).push(cb));
        }
        i = i + 1;
    }
    proof {
        lemma_lex_skip(a@, b@, i as int);
        lemma_lex_skip(b@, a@, i as int);
    }
    if an == bn {
        proof {
            assert(a@.take(i as int) =~= a@);
            assert(b@.take(i as int) =~= b@);
        }
        0
    } else if an < bn {
        -1
    } else {
        1
    }
}

/// String equality.
pub fn str_eq(a: &str, b: &str) -> (r: bool)
    ensures
        r == (a@ == b@),
{
    str_cmp3(a, b) == 0
}

} // verus!

