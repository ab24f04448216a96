//! The parser: expression text to a [`Sequence`].
//!
//! The grammar has no precedence climbing.  A parse step at the cursor first
//! consumes any logic tokens, then matches either a parenthesized group —
//! extracted by balanced-bracket counting and parsed recursively — or one
//! comparison.  Whitespace between tokens is insignificant.
//!
//! Quoted literals are classified in priority order: a duration (humanized
//! units such as `1h 5min`), else a time of day (`HH:MM:SS`), else plain
//! text.  Bare tokens are `true`, `false` or a decimal number, the number
//! optionally carrying a fraction and an exponent (`2.5e3`).

use vstd::prelude::*;

use crate::calculate::{calcs_view, Arithmetic, Calculation, CalculationModel};
use crate::compare::{
    Comparison, ComparisonModel, ComparisonType, Logic, OperandModel, Operator,
};
use crate::errors::{ErrorModel, EvalError};
use crate::sequence::{entities_model, entity_model, Entity, EntityModel, Sequence};
use crate::text::{
    digit_char_test, digit_run, find_exp, is_alpha, is_digit, is_ws, lemma_find_exp_at,
    lemma_mantissa_shape, lemma_pow10n_pos, parse_exp, parse_mantissa, pow10n, pow10_exec,
    spec_parse_decimal, str_eq, ws_char,
};
use crate::value::{bool_text, Value, ValueModel};

verus! {

/// What `humantime::parse_duration` reads a piece of text as, in nanoseconds:
/// a function of the characters alone.
pub uninterp spec fn parsed_duration(s: Seq<char>) -> Option<u128>;

/// What `chrono::NaiveTime::parse_from_str` with the `%H:%M:%S` format reads
/// a piece of text as, in seconds since midnight: a function of the
/// characters alone.
pub uninterp spec fn parsed_time(s: Seq<char>) -> Option<u32>;

/// Characters that `humantime` lets stand inside or between the digits of one
/// number (anything that is not a unit letter, a dot or a digit: unicode
/// whitespace joins digit runs, and any other character ends the parse with
/// an error before more seconds can accumulate).
pub open spec fn dur_joiner(c: char) -> bool {
    !is_alpha(c) && !is_digit(c) && c != '.'
}

/// The end of a span of digits and joiners starting at `i`.
pub open spec fn dur_span_end(s: Seq<char>, i: int) -> int
    decreases s.len() - i,
{
    if 0 <= i < s.len() && (is_digit(s[i]) || dur_joiner(s[i])) {
        dur_span_end(s, i + 1)
    } else {
        i
    }
}

/// How many digits the range `[i, j)` holds.
pub open spec fn count_digits(s: Seq<char>, i: int, j: int) -> int
    decreases j - i,
{
    if i < j {
        count_digits(s, i, j - 1) + (if 0 <= j - 1 < s.len() && is_digit(s[j - 1]) {
            1int
        } else {
            0int
        })
    } else {
        0
    }
}

/// The most seconds one count of the unit whose name starts with `c` can be
/// worth: at most a year (365.25 days) for unknown initials, and the exact
/// ceiling for each known initial (`m` must cover `month`).
pub open spec fn unit_initial_bound(c: char) -> int {
    if c == 'n' || c == 'u' || c == 's' {
        1
    } else if c == 'm' || c == 'M' {
        2_630_016
    } else if c == 'h' {
        3_600
    } else if c == 'd' {
        86_400
    } else if c == 'w' {
        604_800
    } else {
        31_557_600
    }
}

/// A conservative ceiling on the seconds a duration text can accumulate
/// while `humantime` parses it: every digit span of `d` digits, read as one
/// number, is worth less than `10^d` counts of the unit named right after it
/// (a year if none is named), plus one carried second per span; each
/// fractional part adds less than one more count of its unit.
pub open spec fn dur_scan(s: Seq<char>, i: int) -> int
    decreases s.len() - i,
{
    if !(0 <= i < s.len()) {
        0
    } else if is_digit(s[i]) {
        let j = dur_span_end(s, i);
        let d = count_digits(s, i, j);
        let b = if 0 <= j < s.len() && is_alpha(s[j]) {
            unit_initial_bound(s[j])
        } else {
            31_557_600
        };
        let contribution = (pow10n((if d > 20 {
            20int
        } else {
            d
        }) as nat) + 1) * b;
        if i < j <= s.len() {
            contribution + dur_scan(s, j)
        } else {
            contribution
        }
    } else if s[i] == '.' {
        31_557_600 + dur_scan(s, i + 1)
    } else {
        dur_scan(s, i + 1)
    }
}

/// Texts under this ceiling cannot drive `humantime`'s seconds counter to
/// its maximum, which is the one place its parser could abort instead of
/// returning an error.
pub open spec fn duration_text_bounded(s: Seq<char>) -> bool {
    dur_scan(s, 0) < 0xFFFF_FFFF_FFFF_FFFF
}

/// Relies on `humantime::parse_duration`: the result depends on the
/// characters alone, and `Duration::as_nanos` converts it exactly.  The call
/// returns normally only while the accumulated seconds stay below the `u64`
/// maximum — a nanosecond total landing exactly on one second is handed to
/// `Duration::new`, which aborts on a seconds overflow — so only texts kept
/// under that ceiling by [`duration_text_bounded`] are admitted.
#[verifier::external_body]
fn parse_duration_text(s: &str) -> (r: Option<u128>)
    requires
        duration_text_bounded(s@),
    ensures
        r == parsed_duration(s@),
{
    humantime::parse_duration(s).ok().map(|d| d.as_nanos())
}

proof fn lemma_dur_scan_nonneg(s: Seq<char>, i: int)
    ensures
        dur_scan(s, i) >= 0,
    decreases s.len() - i,
{
    if 0 <= i < s.len() {
        if is_digit(s[i]) {
            let j = dur_span_end(s, i);
            let d = count_digits(s, i, j);
            let dcap = if d > 20 {
                20int
            } else {
                d
            };
            lemma_pow10n_pos(dcap as nat);
            let b = if 0 <= j < s.len() && is_alpha(s[j]) {
                unit_initial_bound(s[j])
            } else {
                31_557_600int
            };
            vstd::arithmetic::mul::lemma_mul_nonnegative(pow10n(dcap as nat) + 1, b);
            if i < j <= s.len() {
                lemma_dur_scan_nonneg(s, j);
            }
        } else if s[i] == '.' {
            lemma_dur_scan_nonneg(s, i + 1);
        } else {
            lemma_dur_scan_nonneg(s, i + 1);
        }
    }
}

fn unit_initial_bound_exec(c: char) -> (r: u64)
    ensures
        r as int == unit_initial_bound(c),
{
    if c == 'n' || c == 'u' || c == 's' {
        1
    } else if c == 'm' || c == 'M' {
        2_630_016
    } else if c == 'h' {
        3_600
    } else if c == 'd' {
        86_400
    } else if c == 'w' {
        604_800
    } else {
        31_557_600
    }
}

fn dur_joiner_test(c: char) -> (r: bool)
    ensures
        r == dur_joiner(c),
{
    !crate::text::alpha_char_test(c) && !digit_char_test(c) && c != '.'
}

/// Decide [`duration_text_bounded`] for a candidate duration text.
fn dur_guard_exec(s: &str) -> (r: bool)
    ensures
        r == duration_text_bounded(s@),
{
    let n = s.unicode_len();
    let mut i: usize = 0;
    let mut total: u128 = 0;
    while i < n
        invariant
            i <= n,
            n == s@.len(),
            total < 0xFFFF_FFFF_FFFF_FFFFu128,
            dur_scan(s@, 0) == total as int + dur_scan(s@, i as int),
        decreases n - i,
    {
        let c = s.get_char(i);
        let contribution: u128 = if digit_char_test(c) {
            let mut j = i;
            let mut dcount: u64 = 0;
            while j < n && (digit_char_test(s.get_char(j)) || dur_joiner_test(s.get_char(j)))
                invariant
                    i <= j <= n,
                    n == s@.len(),
                    dcount as int == count_digits(s@, i as int, j as int),
                    dcount <= j - i,
                    dur_span_end(s@, i as int) == dur_span_end(s@, j as int),
                decreases n - j,
            {
                if digit_char_test(s.get_char(j)) {
                    dcount = dcount + 1;
                }
                j = j + 1;
            }
            let b: u64 = if j < n && crate::text::alpha_char_test(s.get_char(j)) {
                unit_initial_bound_exec(s.get_char(j))
            } else {
                31_557_600
            };
            let dcap: u64 = if dcount > 20 {
                20
            } else {
                dcount
            };
            let p = pow10_exec(dcap);
            proof {
                assert((p as int + 1) * (b as int) <= (100_000_000_000_000_000_000 + 1)
                    * 31_557_600) by (nonlinear_arith)
                    requires
                        1 <= p as int + 1 <= 100_000_000_000_000_000_001,
                        1 <= b as int <= 31_557_600,
                ;
            }
            let contribution = (p + 1) * (b as u128);
            proof {
                // one parse step of the scan
                assert(dur_scan(s@, i as int) == contribution as int + dur_scan(s@, j as int));
            }
            let saved = i;
            i = j;
            proof {
                assert(saved < j);
            }
            contribution
        } else if c == '.' {
            i = i + 1;
            31_557_600
        } else {
            i = i + 1;
            0
        };
        proof {
            lemma_dur_scan_nonneg(s@, i as int);
        }
        if contribution >= 0xFFFF_FFFF_FFFF_FFFFu128 - total {
            return false;
        }
        total = total + contribution;
    }
    true
}

/// Relies on `chrono::NaiveTime::parse_from_str` with the fixed `%H:%M:%S`
/// format, whose result depends on the characters alone, and on
/// `chrono::Timelike::num_seconds_from_midnight`, which chrono keeps below
/// 86400.
#[verifier::external_body]
fn parse_time_text(s: &str) -> (r: Option<u32>)
    ensures
        r == parsed_time(s@),
        r matches Some(t) ==> t < 86400,
{
    chrono::NaiveTime::parse_from_str(s, "%H:%M:%S").ok().map(
        |t| chrono::Timelike::num_seconds_from_midnight(&t),
    )
}

/// The first position at or after `i` that is not whitespace.
pub open spec fn skip_ws(s: Seq<char>, i: int) -> int
    decreases s.len() - i,
{
    if 0 <= i < s.len() && is_ws(s[i]) {
        skip_ws(s, i + 1)
    } else {
        i
    }
}

/// The end of the run of ASCII alphanumerics starting at `i`.
pub open spec fn scan_alnum(s: Seq<char>, i: int) -> int
    decreases s.len() - i,
{
    if 0 <= i < s.len() && (is_alpha(s[i]) || is_digit(s[i])) {
        scan_alnum(s, i + 1)
    } else {
        i
    }
}

/// The end of the run of decimal digits starting at `i`.
pub open spec fn scan_digits(s: Seq<char>, i: int) -> int
    decreases s.len() - i,
{
    if 0 <= i < s.len() && is_digit(s[i]) {
        scan_digits(s, i + 1)
    } else {
        i
    }
}

pub open spec fn ident_start(c: char) -> bool {
    is_alpha(c) || c == '.' || c == '_'
}

pub open spec fn ident_char(c: char) -> bool {
    is_alpha(c) || is_digit(c) || c == '.' || c == '_'
}

/// The end of the run of identifier characters starting at `i`.
pub open spec fn scan_ident(s: Seq<char>, i: int) -> int
    decreases s.len() - i,
{
    if 0 <= i < s.len() && ident_char(s[i]) {
        scan_ident(s, i + 1)
    } else {
        i
    }
}

/// The first position at or after `i` holding `c`, or the length.
pub open spec fn scan_until(s: Seq<char>, i: int, c: char) -> int
    decreases s.len() - i,
{
    if 0 <= i < s.len() && s[i] != c {
        scan_until(s, i + 1, c)
    } else {
        i
    }
}

/// An identifier: a letter, dot or underscore, then letters, digits, dots and
/// underscores.
pub open spec fn match_ident(s: Seq<char>, i: int) -> Option<(Seq<char>, int)> {
    if 0 <= i < s.len() && ident_start(s[i]) {
        let j = scan_ident(s, i + 1);
        Some((s.subrange(i, j), j))
    } else {
        None
    }
}

/// One logic token at exactly `i`: `or`, `and`, `||` or `&&`.  The words
/// `or` and `and` count only at a word boundary, so an identifier such as
/// `orange` is never split.
pub open spec fn logic_token(s: Seq<char>, i: int) -> Option<(Logic, int)> {
    if i + 2 <= s.len() && s[i] == 'o' && s[i + 1] == 'r' && (i + 2 == s.len() || !ident_char(
        s[i + 2],
    )) {
        Some((Logic::Or, i + 2))
    } else if i + 3 <= s.len() && s[i] == 'a' && s[i + 1] == 'n' && s[i + 2] == 'd' && (i + 3
        == s.len() || !ident_char(s[i + 3])) {
        Some((Logic::And, i + 3))
    } else if i + 2 <= s.len() && s[i] == '|' && s[i + 1] == '|' {
        Some((Logic::Or, i + 2))
    } else if i + 2 <= s.len() && s[i] == '&' && s[i + 1] == '&' {
        Some((Logic::And, i + 2))
    } else {
        None
    }
}

/// Consume any further logic tokens, each allowed leading whitespace, and
/// give the cursor after the last one.
pub open spec fn consume_logic_tokens(s: Seq<char>, i: int) -> int
    decreases s.len() - i,
{
    let j = skip_ws(s, i);
    match logic_token(s, j) {
        Some((_, k)) => if i < k <= s.len() {
            consume_logic_tokens(s, k)
        } else {
            k
        },
        None => i,
    }
}

/// Any run of logic tokens before an entity: the first token decides the
/// entity's tag; the cursor moves past the last token, or stays if there is
/// none.
pub open spec fn match_logic(s: Seq<char>, i: int) -> (Option<Logic>, int) {
    let j = skip_ws(s, i);
    match logic_token(s, j) {
        Some((l, k)) => (Some(l), consume_logic_tokens(s, k)),
        None => (None, i),
    }
}

/// One comparison operator at exactly `i`; two-character operators win over
/// their one-character prefixes.
pub open spec fn cmp_op_token(s: Seq<char>, i: int) -> Option<(Operator, int)> {
    if i + 2 <= s.len() && s[i] == '=' && s[i + 1] == '=' {
        Some((Operator::Equal, i + 2))
    } else if i + 2 <= s.len() && s[i] == '!' && s[i + 1] == '=' {
        Some((Operator::NotEqual, i + 2))
    } else if i + 2 <= s.len() && s[i] == '>' && s[i + 1] == '=' {
        Some((Operator::GreaterEqual, i + 2))
    } else if i + 2 <= s.len() && s[i] == '<' && s[i + 1] == '=' {
        Some((Operator::LessEqual, i + 2))
    } else if i + 1 <= s.len() && s[i] == '>' {
        Some((Operator::Greater, i + 1))
    } else if i + 1 <= s.len() && s[i] == '<' {
        Some((Operator::Less, i + 1))
    } else {
        None
    }
}

/// One arithmetic operator at exactly `i`.
pub open spec fn calc_op_token(s: Seq<char>, i: int) -> Option<(Arithmetic, int)> {
    if 0 <= i < s.len() && s[i] == '+' {
        Some((Arithmetic::Add, i + 1))
    } else if 0 <= i < s.len() && s[i] == '-' {
        Some((Arithmetic::Sub, i + 1))
    } else if 0 <= i < s.len() && s[i] == '*' {
        Some((Arithmetic::Mul, i + 1))
    } else if 0 <= i < s.len() && s[i] == '/' {
        Some((Arithmetic::Div, i + 1))
    } else {
        None
    }
}

// --- executable scanners, each mirroring its spec function ---

fn skip_ws_exec(s: &str, n: usize, i: usize) -> (r: usize)
    requires
        n == s@.len(),
        i <= n,
    ensures
        r as int == skip_ws(s@, i as int),
        i <= r <= n,
{
    let mut j = i;
    while j < n && ws_char(s.get_char(j))
        invariant
            i <= j <= n,
            n == s@.len(),
            skip_ws(s@, i as int) == skip_ws(s@, j as int),
        decreases n - j,
    {
        j = j + 1;
    }
    j
}

fn scan_alnum_exec(s: &str, n: usize, i: usize) -> (r: usize)
    requires
        n == s@.len(),
        i <= n,
    ensures
        r as int == scan_alnum(s@, i as int),
        i <= r <= n,
{
    let mut j = i;
    while j < n && alnum_char_test(s.get_char(j))
        invariant
            i <= j <= n,
            n == s@.len(),
            scan_alnum(s@, i as int) == scan_alnum(s@, j as int),
        decreases n - j,
    {
        j = j + 1;
    }
    j
}

fn alnum_char_test(c: char) -> (r: bool)
    ensures
        r == (is_alpha(c) || is_digit(c)),
{
    crate::text::alpha_char_test(c) || digit_char_test(c)
}

fn scan_digits_exec(s: &str, n: usize, i: usize) -> (r: usize)
    requires
        n == s@.len(),
        i <= n,
    ensures
        r as int == scan_digits(s@, i as int),
        i <= r <= n,
{
    let mut j = i;
    while j < n && digit_char_test(s.get_char(j))
        invariant
            i <= j <= n,
            n == s@.len(),
            scan_digits(s@, i as int) == scan_digits(s@, j as int),
        decreases n - j,
    {
        j = j + 1;
    }
    j
}

fn ident_char_test(c: char) -> (r: bool)
    ensures
        r == ident_char(c),
{
    crate::text::alpha_char_test(c) || digit_char_test(c) || c == '.' || c == '_'
}

fn scan_ident_exec(s: &str, n: usize, i: usize) -> (r: usize)
    requires
        n == s@.len(),
        i <= n,
    ensures
        r as int == scan_ident(s@, i as int),
        i <= r <= n,
{
    let mut j = i;
    while j < n && ident_char_test(s.get_char(j))
        invariant
            i <= j <= n,
            n == s@.len(),
            scan_ident(s@, i as int) == scan_ident(s@, j as int),
        decreases n - j,
    {
        j = j + 1;
    }
    j
}

fn scan_until_exec(s: &str, n: usize, i: usize, c: char) -> (r: usize)
    requires
        n == s@.len(),
        i <= n,
    ensures
        r as int == scan_until(s@, i as int, c),
        i <= r <= n,
{
    let mut j = i;
    while j < n && s.get_char(j) != c
        invariant
            i <= j <= n,
            n == s@.len(),
            scan_until(s@, i as int, c) == scan_until(s@, j as int, c),
        decreases n - j,
    {
        j = j + 1;
    }
    j
}

fn logic_token_exec(s: &str, n: usize, i: usize) -> (r: Option<(Logic, usize)>)
    requires
        n == s@.len(),
        i <= n,
    ensures
        (match r {
            Some((l, k)) => logic_token(s@, i as int) == Some((l, k as int)) && i < k <= n,
            None => logic_token(s@, i as int) is None,
        }),
{
    if n - i >= 2 && s.get_char(i) == 'o' && s.get_char(i + 1) == 'r' && (i + 2 == n
        || !ident_char_test(s.get_char(i + 2))) {
        Some((Logic::Or, i + 2))
    } else if n - i >= 3 && s.get_char(i) == 'a' && s.get_char(i + 1) == 'n' && s.get_char(i + 2)
        == 'd' && (i + 3 == n || !ident_char_test(s.get_char(i + 3))) {
        Some((Logic::And, i + 3))
    } else if n - i >= 2 && s.get_char(i) == '|' && s.get_char(i + 1) == '|' {
        Some((Logic::Or, i + 2))
    } else if n - i >= 2 && s.get_char(i) == '&' && s.get_char(i + 1) == '&' {
        Some((Logic::And, i + 2))
    } else {
        None
    }
}

fn match_logic_exec(s: &str, n: usize, i: usize) -> (r: (Option<Logic>, usize))
    requires
        n == s@.len(),
        i <= n,
    ensures
        (r.0, r.1 as int) == match_logic(s@, i as int),
        i <= r.1 <= n,
{
    let j = skip_ws_exec(s, n, i);
    match logic_token_exec(s, n, j) {
        None => (None, i),
        Some((first, k0)) => {
            let mut k = k0;
            let mut more = true;
            while more
                invariant
                    k0 <= k <= n,
                    n == s@.len(),
                    more ==> consume_logic_tokens(s@, k0 as int) == consume_logic_tokens(
                        s@,
                        k as int,
                    ),
                    !more ==> consume_logic_tokens(s@, k0 as int) == k as int,
                decreases
                        n - k,
                        (if more {
                            1int
                        } else {
                            0int
                        }),
            {
                let j2 = skip_ws_exec(s, n, k);
                match logic_token_exec(s, n, j2) {
                    Some((_, k2)) => {
                        k = k2;
                    },
                    None => {
                        more = false;
                    },
                }
            }
            (Some(first), k)
        },
    }
}

fn cmp_op_token_exec(s: &str, n: usize, i: usize) -> (r: Option<(Operator, usize)>)
    requires
        n == s@.len(),
        i <= n,
    ensures
        (match r {
            Some((op, k)) => cmp_op_token(s@, i as int) == Some((op, k as int)) && i < k <= n,
            None => cmp_op_token(s@, i as int) is None,
        }),
{
    if n - i >= 2 && s.get_char(i) == '=' && s.get_char(i + 1) == '=' {
        Some((Operator::Equal, i + 2))
    } else if n - i >= 2 && s.get_char(i) == '!' && s.get_char(i + 1) == '=' {
        Some((Operator::NotEqual, i + 2))
    } else if n - i >= 2 && s.get_char(i) == '>' && s.get_char(i + 1) == '=' {
        Some((Operator::GreaterEqual, i + 2))
    } else if n - i >= 2 && s.get_char(i) == '<' && s.get_char(i + 1) == '=' {
        Some((Operator::LessEqual, i + 2))
    } else if n - i >= 1 && s.get_char(i) == '>' {
        Some((Operator::Greater, i + 1))
    } else if n - i >= 1 && s.get_char(i) == '<' {
        Some((Operator::Less, i + 1))
    } else {
        None
    }
}

fn calc_op_token_exec(s: &str, n: usize, i: usize) -> (r: Option<(Arithmetic, usize)>)
    requires
        n == s@.len(),
        i <= n,
    ensures
        (match r {
            Some((op, k)) => calc_op_token(s@, i as int) == Some((op, k as int)) && i < k <= n,
            None => calc_op_token(s@, i as int) is None,
        }),
{
    if i < n {
        let c = s.get_char(i);
        if c == '+' {
            Some((Arithmetic::Add, i + 1))
        } else if c == '-' {
            Some((Arithmetic::Sub, i + 1))
        } else if c == '*' {
            Some((Arithmetic::Mul, i + 1))
        } else if c == '/' {
            Some((Arithmetic::Div, i + 1))
        } else {
            None
        }
    } else {
        None
    }
}

// --- literal values ---

/// Characterization of [`scan_digits`]: everything scanned is a digit and the
/// scan stops at the first non-digit.
proof fn lemma_scan_digits_props(s: Seq<char>, i: int)
    requires
        0 <= i <= s.len(),
    ensures
        i <= scan_digits(s, i) <= s.len(),
        forall|m: int| i <= m < scan_digits(s, i) ==> is_digit(#[trigger] s[m]),
        scan_digits(s, i) < s.len() ==> !is_digit(s[scan_digits(s, i)]),
    decreases s.len() - i,
{
    if i < s.len() && is_digit(s[i]) {
        lemma_scan_digits_props(s, i + 1);
    }
}

/// Characterization of [`scan_alnum`].
proof fn lemma_scan_alnum_props(s: Seq<char>, i: int)
    requires
        0 <= i <= s.len(),
    ensures
        i <= scan_alnum(s, i) <= s.len(),
        forall|m: int|
            i <= m < scan_alnum(s, i) ==> (is_alpha(#[trigger] s[m]) || is_digit(s[m])),
        scan_alnum(s, i) < s.len() ==> !(is_alpha(s[scan_alnum(s, i)]) || is_digit(
            s[scan_alnum(s, i)],
        )),
    decreases s.len() - i,
{
    if i < s.len() && (is_alpha(s[i]) || is_digit(s[i])) {
        lemma_scan_alnum_props(s, i + 1);
    }
}

/// A digit run, possibly extended by a dot and another run and by an
/// exponent marker and another run, reads as a decimal literal.
proof fn lemma_bare_number(s: Seq<char>, i: int, d1: int, f1: int, e1: int)
    requires
        0 <= i < d1 <= s.len(),
        forall|m: int| i <= m < d1 ==> is_digit(#[trigger] s[m]),
        f1 == d1 || (d1 + 1 < f1 <= s.len() && s[d1] == '.' && (forall|m: int|
            d1 + 1 <= m < f1 ==> is_digit(#[trigger] s[m]))),
        e1 == f1 || (f1 + 1 < e1 <= s.len() && (s[f1] == 'e' || s[f1] == 'E') && (forall|m: int|
            f1 + 1 <= m < e1 ==> is_digit(#[trigger] s[m]))),
    ensures
        spec_parse_decimal(s.subrange(i, e1)) is Some,
{
    let sub = s.subrange(i, e1);
    assert(is_digit(sub[0]));
    assert(sub[0] != '-');
    let ke = if e1 == f1 {
        sub.len() as int
    } else {
        f1 - i
    };
    assert(find_exp(sub) == ke) by {
        lemma_find_exp_at(sub, ke);
    };
    let m = sub.take(ke);
    assert(m.len() == f1 - i);
    if f1 == d1 {
        lemma_mantissa_shape(m, d1 - i, 0, false);
    } else {
        assert(m[d1 - i] == s[d1]);
        lemma_mantissa_shape(m, d1 - i, d1 - i + 1, true);
    }
    assert(parse_mantissa(m) is Some);
    if e1 != f1 {
        let ex = sub.skip(ke + 1);
        assert(ex =~= s.subrange(f1 + 1, e1));
        assert(ex.len() > 0);
        assert(is_digit(ex[0]));
        assert(digit_run(ex));
        assert(parse_exp(ex) is Some);
    }
}

/// A bare literal at `i`: for a leading digit, a number — digits, optionally
/// a dot and more digits, optionally an exponent (`e` or `E`) and more
/// digits — rejected if alphanumeric characters follow; for a leading
/// letter, the full alphanumeric run read as `true` or `false`.
pub open spec fn match_bare_value(s: Seq<char>, i: int) -> Option<(ValueModel, int)> {
    if !(0 <= i < s.len()) {
        None
    } else if is_digit(s[i]) {
        let d1 = scan_digits(s, i);
        let f1 = if d1 + 1 < s.len() && s[d1] == '.' && is_digit(s[d1 + 1]) {
            scan_digits(s, d1 + 1)
        } else {
            d1
        };
        let e1 = if f1 + 1 < s.len() && (s[f1] == 'e' || s[f1] == 'E') && is_digit(s[f1 + 1]) {
            scan_digits(s, f1 + 1)
        } else {
            f1
        };
        if e1 < s.len() && (is_alpha(s[e1]) || is_digit(s[e1])) {
            None
        } else if 0 <= i < e1 <= s.len() {
            match spec_parse_decimal(s.subrange(i, e1)) {
                Some(v) => Some((ValueModel::Numeric(v), e1)),
                None => None,
            }
        } else {
            None
        }
    } else {
        let j = scan_alnum(s, i);
        if j <= i {
            None
        } else {
            let tok = s.subrange(i, j);
            if tok == bool_text(true) {
                Some((ValueModel::Bool(true), j))
            } else if tok == bool_text(false) {
                Some((ValueModel::Bool(false), j))
            } else {
                None
            }
        }
    }
}

pub open spec fn quote_char(c: char) -> bool {
    c == '"' || c == '\''
}

/// A quoted literal at `i`: an opening quote, at least one character that is
/// not the opening quote, and the matching closing quote.  The content
/// between the quotes is handed back raw.
pub open spec fn match_string_literal(s: Seq<char>, i: int) -> Option<(Seq<char>, int)> {
    if 0 <= i < s.len() && quote_char(s[i]) {
        let j = scan_until(s, i + 1, s[i]);
        if j < s.len() && j > i + 1 {
            Some((s.subrange(i + 1, j), j + 1))
        } else {
            None
        }
    } else {
        None
    }
}

/// What a quoted literal's content stands for, in priority order: a
/// duration, else a time of day, else plain text.  A duration reading is
/// attempted only under [`duration_text_bounded`]; the texts that ceiling
/// rejects encode spans within a factor of ten of the largest representable
/// seconds count, and fall through to the other readings.
pub open spec fn string_value(content: Seq<char>) -> ValueModel {
    if duration_text_bounded(content) && parsed_duration(content) is Some {
        ValueModel::Duration(parsed_duration(content)->Some_0 as int)
    } else {
        match parsed_time(content) {
            Some(secs) => ValueModel::Time(secs as int),
            None => ValueModel::String(content),
        }
    }
}

/// A value literal at `i`: a bare token, else a quoted literal.
pub open spec fn match_value_type(s: Seq<char>, i: int) -> Option<(ValueModel, int)> {
    match match_bare_value(s, i) {
        Some(r) => Some(r),
        None => match match_string_literal(s, i) {
            Some((content, j)) => Some((string_value(content), j)),
            None => None,
        },
    }
}

fn match_bare_value_exec(s: &str, n: usize, i: usize) -> (r: Option<(Value, usize)>)
    requires
        n == s@.len(),
        i <= n,
    ensures
        (match r {
            Some((v, k)) => match_bare_value(s@, i as int) == Some((v@, k as int)) && i < k <= n,
            None => match_bare_value(s@, i as int) is None,
        }),
{
    if i >= n {
        return None;
    }
    if digit_char_test(s.get_char(i)) {
        let d1 = scan_digits_exec(s, n, i);
        proof {
            lemma_scan_digits_props(s@, i as int);
        }
        let mut f1 = d1;
        if n - d1 >= 2 && s.get_char(d1) == '.' && digit_char_test(s.get_char(d1 + 1)) {
            f1 = scan_digits_exec(s, n, d1 + 1);
            proof {
                lemma_scan_digits_props(s@, d1 as int + 1);
            }
        }
        let mut e1 = f1;
        if n - f1 >= 2 && (s.get_char(f1) == 'e' || s.get_char(f1) == 'E') && digit_char_test(
            s.get_char(f1 + 1),
        ) {
            e1 = scan_digits_exec(s, n, f1 + 1);
            proof {
                lemma_scan_digits_props(s@, f1 as int + 1);
            }
        }
        if e1 < n && alnum_char_test(s.get_char(e1)) {
            return None;
        }
        let sub = s.substring_char(i, e1);
        proof {
            assert(sub@ =~= s@.subrange(i as int, e1 as int));
            lemma_bare_number(s@, i as int, d1 as int, f1 as int, e1 as int);
        }
        match crate::text::parse_decimal(sub) {
            Some(v) => Some((Value::Numeric(v), e1)),
            None => {
                proof {
                    assert(false);
                }
                None
            },
        }
    } else {
        let j = scan_alnum_exec(s, n, i);
        if j == i {
            return None;
        }
        let tok = s.substring_char(i, j);
        proof {
            assert(tok@ =~= s@.subrange(i as int, j as int));
            reveal_strlit("true");
            reveal_strlit("false");
            assert("true"@ =~= bool_text(true));
            assert("false"@ =~= bool_text(false));
        }
        if str_eq(tok, "true") {
            Some((Value::Bool(true), j))
        } else if str_eq(tok, "false") {
            Some((Value::Bool(false), j))
        } else {
            None
        }
    }
}

fn match_string_literal_exec(s: &str, n: usize, i: usize) -> (r: Option<(usize, usize, usize)>)
    requires
        n == s@.len(),
        i <= n,
    ensures
        (match r {
            Some((cs, ce, k)) => match_string_literal(s@, i as int) == Some(
                (s@.subrange(cs as int, ce as int), k as int),
            ) && i < cs <= ce <= n && i < k <= n,
            None => match_string_literal(s@, i as int) is None,
        }),
{
    if i < n {
        let q = s.get_char(i);
        if q == '"' || q == '\'' {
            let j = scan_until_exec(s, n, i + 1, q);
            if j < n && j > i + 1 {
                return Some((i + 1, j, j + 1));
            }
        }
    }
    None
}

/// Classify a quoted literal's content as a duration, a time of day or plain
/// text, in that order.
fn string_value_exec(content: &str) -> (r: Value)
    ensures
        r@ == string_value(content@),
{
    if dur_guard_exec(content) {
        if let Some(nanos) = parse_duration_text(content) {
            return Value::Duration(nanos);
        }
    }
    match parse_time_text(content) {
        Some(secs) => Value::Time(secs),
        None => Value::String(content.to_owned()),
    }
}

fn match_value_type_exec(s: &str, n: usize, i: usize) -> (r: Option<(Value, usize)>)
    requires
        n == s@.len(),
        i <= n,
    ensures
        (match r {
            Some((v, k)) => match_value_type(s@, i as int) == Some((v@, k as int)) && i < k <= n,
            None => match_value_type(s@, i as int) is None,
        }),
{
    match match_bare_value_exec(s, n, i) {
        Some((v, k)) => Some((v, k)),
        None => match match_string_literal_exec(s, n, i) {
            Some((cs, ce, k)) => {
                let content = s.substring_char(cs, ce);
                proof {
                    assert(content@ =~= s@.subrange(cs as int, ce as int));
                }
                Some((string_value_exec(content), k))
            },
            None => None,
        },
    }
}

// --- calculation chains and operands ---

/// A calculation chain: while an arithmetic operator follows, read one
/// operand after it, a literal first, else an identifier.  `None` means an
/// operator stood there with no readable operand.
pub open spec fn match_calcs(s: Seq<char>, i: int) -> Option<(Seq<CalculationModel>, int)>
    decreases s.len() - i,
{
    let j = skip_ws(s, i);
    match calc_op_token(s, j) {
        None => Some((Seq::empty(), i)),
        Some((op, k)) => {
            let k2 = skip_ws(s, k);
            match match_value_type(s, k2) {
                Some((v, m)) => if i < m <= s.len() {
                    match match_calcs(s, m) {
                        Some((rest, e)) => Some((seq![CalculationModel::Value(v, op)] + rest, e)),
                        None => None,
                    }
                } else {
                    None
                },
                None => match match_ident(s, k2) {
                    Some((name, m)) => if i < m <= s.len() {
                        match match_calcs(s, m) {
                            Some(
                                (rest, e),
                            ) => Some((seq![CalculationModel::Variable(name, op)] + rest, e)),
                            None => None,
                        }
                    } else {
                        None
                    },
                    None => None,
                },
            }
        },
    }
}

fn ident_start_test(c: char) -> (r: bool)
    ensures
        r == ident_start(c),
{
    crate::text::alpha_char_test(c) || c == '.' || c == '_'
}

fn match_ident_exec(s: &str, n: usize, i: usize) -> (r: Option<(String, usize)>)
    requires
        n == s@.len(),
        i <= n,
    ensures
        (match r {
            Some((name, k)) => match_ident(s@, i as int) == Some((name@, k as int)) && i < k <= n,
            None => match_ident(s@, i as int) is None,
        }),
{
    if i < n && ident_start_test(s.get_char(i)) {
        let j = scan_ident_exec(s, n, i + 1);
        let name = s.substring_char(i, j);
        proof {
            assert(name@ =~= s@.subrange(i as int, j as int));
        }
        Some((name.to_owned(), j))
    } else {
        None
    }
}

fn match_calcs_exec(s: &str, n: usize, i: usize) -> (r: Option<(Vec<Calculation>, usize)>)
    requires
        n == s@.len(),
        i <= n,
    ensures
        (match r {
            Some((calcs, e)) => match_calcs(s@, i as int) == Some((calcs_view(calcs@), e as int))
                && i <= e <= n,
            None => match_calcs(s@, i as int) is None,
        }),
{
    let mut acc: Vec<Calculation> = Vec::new();
    let mut cur = i;
    proof {
        assert(calcs_view(acc@) =~= Seq::<CalculationModel>::empty());
    }
    loop
        invariant
            i <= cur <= n,
            n == s@.len(),
            match_calcs(s@, i as int) == (match match_calcs(s@, cur as int) {
                Some((rest, e)) => Some::<(Seq<CalculationModel>, int)>(
                    (calcs_view(acc@) + rest, e),
                ),
                None => None::<(Seq<CalculationModel>, int)>,
            }),
        decreases n - cur,
    {
        let j = skip_ws_exec(s, n, cur);
        match calc_op_token_exec(s, n, j) {
            None => {
                proof {
                    assert(calcs_view(acc@) + Seq::<CalculationModel>::empty() =~= calcs_view(
                        acc@,
                    ));
                }
                return Some((acc, cur));
            },
            Some((op, k)) => {
                let k2 = skip_ws_exec(s, n, k);
                match match_value_type_exec(s, n, k2) {
                    Some((v, m)) => {
                        let ghost step = CalculationModel::Value(v@, op);
                        let ghost before = acc@;
                        acc.push(Calculation::Value(v, op));
                        proof {
                            assert(calcs_view(before.push(Calculation::Value(v, op)))
                                =~= calcs_view(before).push(step));
                            assert forall|rest: Seq<CalculationModel>|
                                calcs_view(before).push(step) + rest =~= calcs_view(before) + (
                            seq![step] + rest) by {}
                        }
                        cur = m;
                    },
                    None => match match_ident_exec(s, n, k2) {
                        Some((name, m)) => {
                            let ghost step = CalculationModel::Variable(name@, op);
                            let ghost before = acc@;
                            acc.push(Calculation::Variable(name, op));
                            proof {
                                assert(calcs_view(acc@) =~= calcs_view(before).push(step));
                                assert forall|rest: Seq<CalculationModel>|
                                    calcs_view(before).push(step) + rest =~= calcs_view(before) + (
                                seq![step] + rest) by {}
                            }
                            cur = m;
                        },
                        None => {
                            return None;
                        },
                    },
                }
            },
        }
    }
}

/// The left side of a comparison: an identifier first, else a literal, then
/// its calculation chain.
pub open spec fn match_operand_lhs(s: Seq<char>, i: int) -> Option<(OperandModel, int)> {
    let j = skip_ws(s, i);
    match match_ident(s, j) {
        Some((name, k)) => match match_calcs(s, k) {
            Some((cs, m)) => Some((OperandModel::Variable(name, cs), m)),
            None => None,
        },
        None => match match_value_type(s, j) {
            Some((v, k)) => match match_calcs(s, k) {
                Some((cs, m)) => Some((OperandModel::Value(v, cs), m)),
                None => None,
            },
            None => None,
        },
    }
}

/// The right side of a comparison: a literal first, else an identifier, then
/// its calculation chain.
pub open spec fn match_operand_rhs(s: Seq<char>, i: int) -> Option<(OperandModel, int)> {
    let j = skip_ws(s, i);
    match match_value_type(s, j) {
        Some((v, k)) => match match_calcs(s, k) {
            Some((cs, m)) => Some((OperandModel::Value(v, cs), m)),
            None => None,
        },
        None => match match_ident(s, j) {
            Some((name, k)) => match match_calcs(s, k) {
                Some((cs, m)) => Some((OperandModel::Variable(name, cs), m)),
                None => None,
            },
            None => None,
        },
    }
}

/// One comparison: left operand, comparison operator, right operand.
pub open spec fn match_comparison(s: Seq<char>, i: int) -> Option<(ComparisonModel, int)> {
    match match_operand_lhs(s, i) {
        Some((lhs, j)) => {
            let j2 = skip_ws(s, j);
            match cmp_op_token(s, j2) {
                Some((op, k)) => match match_operand_rhs(s, k) {
                    Some(
                        (rhs, m),
                    ) => Some((ComparisonModel { what: lhs, operator: op, against: rhs }, m)),
                    None => None,
                },
                None => None,
            }
        },
        None => None,
    }
}

fn match_operand_lhs_exec(s: &str, n: usize, i: usize) -> (r: Option<(ComparisonType, usize)>)
    requires
        n == s@.len(),
        i <= n,
    ensures
        (match r {
            Some((o, k)) => match_operand_lhs(s@, i as int) == Some((o@, k as int)) && i <= k <= n,
            None => match_operand_lhs(s@, i as int) is None,
        }),
{
    let j = skip_ws_exec(s, n, i);
    match match_ident_exec(s, n, j) {
        Some((name, k)) => match match_calcs_exec(s, n, k) {
            Some((cs, m)) => Some((ComparisonType::Variable(name, cs), m)),
            None => None,
        },
        None => match match_value_type_exec(s, n, j) {
            Some((v, k)) => match match_calcs_exec(s, n, k) {
                Some((cs, m)) => Some((ComparisonType::Value(v, cs), m)),
                None => None,
            },
            None => None,
        },
    }
}

fn match_operand_rhs_exec(s: &str, n: usize, i: usize) -> (r: Option<(ComparisonType, usize)>)
    requires
        n == s@.len(),
        i <= n,
    ensures
        (match r {
            Some((o, k)) => match_operand_rhs(s@, i as int) == Some((o@, k as int)) && i <= k <= n,
            None => match_operand_rhs(s@, i as int) is None,
        }),
{
    let j = skip_ws_exec(s, n, i);
    match match_value_type_exec(s, n, j) {
        Some((v, k)) => match match_calcs_exec(s, n, k) {
            Some((cs, m)) => Some((ComparisonType::Value(v, cs), m)),
            None => None,
        },
        None => match match_ident_exec(s, n, j) {
            Some((name, k)) => match match_calcs_exec(s, n, k) {
                Some((cs, m)) => Some((ComparisonType::Variable(name, cs), m)),
                None => None,
            },
            None => None,
        },
    }
}

fn match_comparison_exec(s: &str, n: usize, i: usize) -> (r: Option<(Comparison, usize)>)
    requires
        n == s@.len(),
        i <= n,
    ensures
        (match r {
            Some((c, k)) => match_comparison(s@, i as int) == Some((c@, k as int)) && i < k <= n,
            None => match_comparison(s@, i as int) is None,
        }),
{
    match match_operand_lhs_exec(s, n, i) {
        Some((lhs, j)) => {
            let j2 = skip_ws_exec(s, n, j);
            match cmp_op_token_exec(s, n, j2) {
                Some((op, k)) => match match_operand_rhs_exec(s, n, k) {
                    Some((rhs, m)) => Some(
                        (Comparison { what: lhs, operator: op, against: rhs }, m),
                    ),
                    None => None,
                },
                None => None,
            }
        },
        None => None,
    }
}

// --- groups and the parse loop ---

/// The position of the closing parenthesis that leaves `depth` nested pairs,
/// if any: brackets are counted and nothing else is interpreted, so brackets
/// inside quoted literals count too.
pub open spec fn find_close(s: Seq<char>, i: int, depth: int) -> Option<int>
    decreases s.len() - i,
{
    if i < 0 || i >= s.len() {
        None
    } else if s[i] == ')' && depth == 0 {
        Some(i)
    } else {
        find_close(
            s,
            i + 1,
            if s[i] == '(' {
                depth + 1
            } else if s[i] == ')' {
                depth - 1
            } else {
                depth
            },
        )
    }
}

fn find_close_exec(s: &str, n: usize, i: usize) -> (r: Option<usize>)
    requires
        n == s@.len(),
        i <= n,
    ensures
        (match r {
            Some(c) => find_close(s@, i as int, 0) == Some(c as int) && i <= c < n,
            None => find_close(s@, i as int, 0) is None,
        }),
{
    let mut j = i;
    let mut depth: usize = 0;
    while j < n
        invariant
            i <= j <= n,
            depth <= j,
            n == s@.len(),
            find_close(s@, i as int, 0) == find_close(s@, j as int, depth as int),
        decreases n - j,
    {
        let c = s.get_char(j);
        if c == ')' {
            if depth == 0 {
                return Some(j);
            }
            depth = depth - 1;
        } else if c == '(' {
            depth = depth + 1;
        }
        j = j + 1;
    }
    None
}

/// The syntax error reported at cursor `j`: the unconsumed remainder.
pub open spec fn syntax_error_at(s: Seq<char>, j: int) -> ErrorModel {
    ErrorModel::Syntax(s.subrange(j, s.len() as int))
}

/// A leading group: any logic tokens, an opening parenthesis, the balanced
/// content, and the closing parenthesis.  Gives the content, the logic tag
/// and the cursor after the closing parenthesis.
pub open spec fn spec_match_block(s: Seq<char>, i: int) -> Option<(Seq<char>, Option<Logic>, int)> {
    let (logic, k) = match_logic(s, i);
    let k2 = skip_ws(s, k);
    if 0 <= k2 < s.len() && s[k2] == '(' {
        match find_close(s, k2 + 1, 0) {
            Some(c) => if k2 + 1 <= c < s.len() {
                Some((s.subrange(k2 + 1, c), logic, c + 1))
            } else {
                None
            },
            None => None,
        }
    } else {
        None
    }
}

/// A leading comparison: any logic tokens, then one comparison.
pub open spec fn spec_match_comparisons(s: Seq<char>, i: int) -> Option<
    (ComparisonModel, Option<Logic>, int),
> {
    let (logic, k) = match_logic(s, i);
    match match_comparison(s, k) {
        Some((c, m)) => Some((c, logic, m)),
        None => None,
    }
}

/// The parse of the text from cursor `i`: at each step, whitespace, then a
/// group (parsed recursively as its own sequence), else one comparison; a
/// step that matches neither is a syntax error carrying the remainder.  The
/// input must be consumed entirely.
pub open spec fn spec_parse_loop(s: Seq<char>, i: int) -> Result<Seq<EntityModel>, ErrorModel>
    decreases s.len(), s.len() - i,
{
    let j = skip_ws(s, i);
    if j >= s.len() {
        Ok(Seq::empty())
    } else {
        match spec_match_block(s, j) {
            Some((content, logic, next)) => if content.len() < s.len() && i < next <= s.len() {
                match spec_parse(content) {
                    Ok(children) => match spec_parse_loop(s, next) {
                        Ok(rest) => Ok(seq![EntityModel::Child(children, logic)] + rest),
                        Err(e) => Err(e),
                    },
                    Err(e) => Err(e),
                }
            } else {
                Err(syntax_error_at(s, j))
            },
            None => match spec_match_comparisons(s, j) {
                Some((cmp, logic, next)) => if i < next <= s.len() {
                    match spec_parse_loop(s, next) {
                        Ok(rest) => Ok(seq![EntityModel::Comparison(cmp, logic)] + rest),
                        Err(e) => Err(e),
                    }
                } else {
                    Err(syntax_error_at(s, j))
                },
                None => Err(syntax_error_at(s, j)),
            },
        }
    }
}

/// What parsing a whole text yields.
pub open spec fn spec_parse(s: Seq<char>) -> Result<Seq<EntityModel>, ErrorModel>
    decreases s.len(), s.len() + 1,
{
    spec_parse_loop(s, 0)
}

/// The image of a parse result.
pub open spec fn parse_result_model(r: Result<Sequence, EvalError>) -> Result<
    Seq<EntityModel>,
    ErrorModel,
> {
    match r {
        Ok(seq) => Ok(seq@),
        Err(e) => Err(e@),
    }
}

fn syntax_error_exec(s: &str, n: usize, j: usize) -> (e: EvalError)
    requires
        n == s@.len(),
        j <= n,
    ensures
        e@ == syntax_error_at(s@, j as int),
{
    let rest = s.substring_char(j, n);
    proof {
        assert(rest@ =~= s@.subrange(j as int, s@.len() as int));
    }
    EvalError::Syntax(rest.to_owned())
}

/// Parse expression text into a [`Sequence`], per [`spec_parse`]: the tree
/// can then be solved many times over with [`crate::solver::solve_tree`].
#[verifier::rlimit(60)]
pub fn parse_tree(input: &str) -> (r: Result<Sequence, EvalError>)
    ensures
        parse_result_model(r) == spec_parse(input@),
    decreases input@.len(),
{
    let n = input.unicode_len();
    let mut items: Vec<Entity> = Vec::new();
    let mut i: usize = 0;
    proof {
        assert(entities_model(items@) =~= Seq::<EntityModel>::empty());
    }
    loop
        invariant
            i <= n,
            n == input@.len(),
            spec_parse(input@) == (match spec_parse_loop(input@, i as int) {
                Ok(rest) => Ok::<Seq<EntityModel>, ErrorModel>(entities_model(items@) + rest),
                Err(e) => Err::<Seq<EntityModel>, ErrorModel>(e),
            }),
        decreases n - i,
    {
        let ghost i0 = i as int;
        let j = skip_ws_exec(input, n, i);
        if j >= n {
            proof {
                assert(entities_model(items@) + Seq::<EntityModel>::empty() =~= entities_model(
                    items@,
                ));
            }
            return Ok(Sequence { items });
        }
        let (logic, k) = match_logic_exec(input, n, j);
        let k2 = skip_ws_exec(input, n, k);
        let mut close: Option<usize> = None;
        if k2 < n && input.get_char(k2) == '(' {
            close = find_close_exec(input, n, k2 + 1);
        }
        match close {
            Some(c) => {
                proof {
                    assert(spec_match_block(input@, j as int) == Some(
                        (input@.subrange(k2 as int + 1, c as int), logic, c as int + 1),
                    ));
                }
                let content = input.substring_char(k2 + 1, c);
                proof {
                    assert(content@ =~= input@.subrange(k2 as int + 1, c as int));
                }
                match parse_tree(content) {
                    Ok(child) => {
                        let ghost before = items@;
                        let ent = Entity::Child(child, logic);
                        let ghost entm = entity_model(ent);
                        items.push(ent);
                        i = c + 1;
                        proof {
                            assert(items@.drop_last() =~= before);
                            assert(entities_model(items@) =~= entities_model(before).push(entm));
                            match spec_parse_loop(input@, i as int) {
                                Ok(rest) => {
                                    assert(spec_parse_loop(input@, i0) == Ok::<_, ErrorModel>(
                                        seq![entm] + rest,
                                    ));
                                    assert(entities_model(before).push(entm) + rest
                                        =~= entities_model(before) + (seq![entm] + rest));
                                },
                                Err(e) => {
                                    assert(spec_parse_loop(input@, i0) == Err::<Seq<EntityModel>, _>(
                                        e,
                                    ));
                                },
                            }
                        }
                    },
                    Err(e) => {
                        proof {
                            assert(spec_parse_loop(input@, i0) == Err::<Seq<EntityModel>, _>(e@));
                        }
                        return Err(e);
                    },
                }
            },
            None => {
                proof {
                    assert(spec_match_block(input@, j as int) is None);
                }
                match match_comparison_exec(input, n, k) {
                    Some((cmp, m)) => {
                        let ghost before = items@;
                        let ent = Entity::Comparison(cmp, logic);
                        let ghost entm = entity_model(ent);
                        items.push(ent);
                        i = m;
                        proof {
                            assert(items@.drop_last() =~= before);
                            assert(entities_model(items@) =~= entities_model(before).push(entm));
                            match spec_parse_loop(input@, i as int) {
                                Ok(rest) => {
                                    assert(spec_parse_loop(input@, i0) == Ok::<_, ErrorModel>(
                                        seq![entm] + rest,
                                    ));
                                    assert(entities_model(before).push(entm) + rest
                                        =~= entities_model(before) + (seq![entm] + rest));
                                },
                                Err(e) => {
                                    assert(spec_parse_loop(input@, i0) == Err::<Seq<EntityModel>, _>(
                                        e,
                                    ));
                                },
                            }
                        }
                    },
                    None => {
                        proof {
                            assert(spec_match_comparisons(input@, j as int) is None);
                            assert(spec_parse_loop(input@, i0) == Err::<Seq<EntityModel>, _>(
                                syntax_error_at(input@, j as int),
                            ));
                        }
                        return Err(syntax_error_exec(input, n, j));
                    },
                }
            },
        }
    }
}

/// Match one leading group with its optional logic tokens, giving the group's
/// content, the remaining input and the logic tag.
pub fn match_block<'a>(input: &'a str) -> (r: Option<(&'a str, &'a str, Option<Logic>)>)
    ensures
        (match r {
            Some((block, rest, logic)) => spec_match_block(input@, 0) matches Some(
                (content, l, next),
            ) && block@ == content && logic == l && rest@ == input@.subrange(
                next,
                input@.len() as int,
            ),
            None => spec_match_block(input@, 0) is None,
        }),
{
    let n = input.unicode_len();
    let (logic, k) = match_logic_exec(input, n, 0);
    let k2 = skip_ws_exec(input, n, k);
    if k2 < n && input.get_char(k2) == '(' {
        match find_close_exec(input, n, k2 + 1) {
            Some(c) => {
                let block = input.substring_char(k2 + 1, c);
                let rest = input.substring_char(c + 1, n);
                proof {
                    assert(block@ =~= input@.subrange(k2 as int + 1, c as int));
                    assert(rest@ =~= input@.subrange(c as int + 1, input@.len() as int));
                }
                Some((block, rest, logic))
            },
            None => None,
        }
    } else {
        None
    }
}

/// Match one leading comparison with its optional logic tokens, giving the
/// comparison, the remaining input and the logic tag.
pub fn match_comparisons<'a>(input: &'a str) -> (r: Option<(Comparison, &'a str, Option<Logic>)>)
    ensures
        (match r {
            Some((cmp, rest, logic)) => spec_match_comparisons(input@, 0) matches Some(
                (c, l, next),
            ) && cmp@ == c && logic == l && rest@ == input@.subrange(next, input@.len() as int),
            None => spec_match_comparisons(input@, 0) is None,
        }),
{
    let n = input.unicode_len();
    let (logic, k) = match_logic_exec(input, n, 0);
    match match_comparison_exec(input, n, k) {
        Some((cmp, m)) => {
            let rest = input.substring_char(m, n);
            proof {
                assert(rest@ =~= input@.subrange(m as int, input@.len() as int));
            }
            Some((cmp, rest, logic))
        },
        None => None,
    }
}

} // verus!
