//! Playback-duration expressions and their resolution against a sound's
//! natural length.
//!
//! A duration expression is trimmed of leading and trailing whitespace and
//! lower-cased, then read by the first matching rule:
//!
//! * `<number>%`  — a percentage of the sound's natural length; the number
//!   must lie in `[0, 100]`.
//! * `<number>ms` — an absolute duration in milliseconds.
//! * `<number>` or `<number>s` — an absolute duration in seconds.
//!
//! A number is one or more decimal digits with at most one decimal point,
//! optionally preceded by a single plus sign (`12`, `12.`, `.5`, `+0.25`).
//! The grammar is deliberately an explicit ordered-rule tokenizer; exponent
//! and non-finite forms are outside it. Times are represented in whole
//! microseconds and fractions in parts per million, so digits beyond the
//! representable precision are truncated toward zero.

use vstd::prelude::*;
use vstd::string::StringExecFns;

use crate::error::ThemerError;

verus! {

/// A parsed playback-duration request: either an absolute time or a
/// fraction of the sound's natural length.
#[derive(Debug, PartialEq, Eq, Clone, Copy)]
pub enum PlaybackDuration {
    /// An absolute duration, in microseconds.
    Time(u64),
    /// A fraction of the sound's natural length, in parts per million.
    Percent(u64),
}

impl PlaybackDuration {
    /// Fractions are always normalized into `[0, 1]`, that is at most one
    /// million parts per million.
    pub open spec fn valid(&self) -> bool {
        match *self {
            PlaybackDuration::Time(_) => true,
            PlaybackDuration::Percent(ppm) => ppm <= 1_000_000,
        }
    }
}

/// Unicode whitespace (the `White_Space` property, as `str::trim` removes),
/// stripped from the ends of a duration expression.
pub open spec fn is_space(c: char) -> bool {
    let u = c as u32;
    (9 <= u && u <= 13) || u == 32 || u == 0x85 || u == 0xA0 || u == 0x1680 || (0x2000 <= u && u
        <= 0x200A) || u == 0x2028 || u == 0x2029 || u == 0x202F || u == 0x205F || u == 0x3000
}

/// ASCII upper-case letters are mapped to lower case; everything else is
/// kept as it is.
pub open spec fn lower(c: char) -> char {
    if 65 <= c as u32 && c as u32 <= 90 {
        ((c as u32 + 32) as u8) as char
    } else {
        c
    }
}

/// The characters of `s` with leading and trailing whitespace removed.
pub open spec fn trim(s: Seq<char>) -> Seq<char>
    decreases s.len(),
{
    if s.len() > 0 && is_space(s[0]) {
        trim(s.drop_first())
    } else if s.len() > 0 && is_space(s.last()) {
        trim(s.drop_last())
    } else {
        s
    }
}

/// A duration expression's normal form: trimmed, then lower-cased.
pub open spec fn normalize(s: Seq<char>) -> Seq<char> {
    trim(s).map_values(|c: char| lower(c))
}

/// A decimal digit.
pub open spec fn is_digit(c: char) -> bool {
    48 <= c as u32 && c as u32 <= 57
}

/// The value of a decimal digit.
pub open spec fn digit_val(c: char) -> int {
    c as u32 - 48
}

/// Every character of `s` is a decimal digit.
pub open spec fn all_digits(s: Seq<char>) -> bool {
    forall|i: int| 0 <= i < s.len() ==> is_digit(#[trigger] s[i])
}

/// The value of a digit string read in base ten; the empty string reads as
/// zero.
pub open spec fn digits_val(s: Seq<char>) -> int
    decreases s.len(),
{
    if s.len() == 0 {
        0
    } else {
        digits_val(s.drop_last()) * 10 + digit_val(s.last())
    }
}

/// Ten to the power `n`.
pub open spec fn pow10(n: nat) -> int
    decreases n,
{
    if n == 0 {
        1
    } else {
        10 * pow10((n - 1) as nat)
    }
}

/// The index of the first decimal point in `s`, or `s.len()` if there is
/// none.
pub open spec fn dot_index(s: Seq<char>) -> int
    decreases s.len(),
{
    if s.len() == 0 {
        0
    } else if s[0] == '.' {
        0
    } else {
        1 + dot_index(s.drop_first())
    }
}

/// The digits before the first decimal point.
pub open spec fn int_part(s: Seq<char>) -> Seq<char> {
    s.take(dot_index(s))
}

/// The digits after the first decimal point; empty if there is no point.
pub open spec fn frac_part(s: Seq<char>) -> Seq<char> {
    if dot_index(s) < s.len() {
        s.skip(dot_index(s) + 1)
    } else {
        Seq::empty()
    }
}

/// A single optional leading plus sign, removed before the digits are read.
pub open spec fn strip_plus(s: Seq<char>) -> Seq<char> {
    if s.len() > 0 && s[0] == '+' {
        s.drop_first()
    } else {
        s
    }
}

/// A well-formed decimal number: digits with at most one decimal point and
/// at least one digit.
pub open spec fn is_number(s: Seq<char>) -> bool {
    &&& all_digits(int_part(s))
    &&& all_digits(frac_part(s))
    &&& int_part(s).len() + frac_part(s).len() >= 1
}

/// The fractional digits `f`, scaled to `scale` decimal places: shorter
/// fraction strings are padded with zeros, longer ones are truncated.
pub open spec fn frac_scaled(f: Seq<char>, scale: nat) -> int {
    if f.len() <= scale {
        digits_val(f) * pow10((scale - f.len()) as nat)
    } else {
        digits_val(f.take(scale as int))
    }
}

/// The value of the decimal number `s`, multiplied by ten to the `scale`
/// and truncated toward zero to an integer.
pub open spec fn number_scaled(s: Seq<char>, scale: nat) -> int {
    digits_val(int_part(s)) * pow10(scale) + frac_scaled(frac_part(s), scale)
}

/// The decimal number `s` is at most one hundred.
pub open spec fn number_le_100(s: Seq<char>) -> bool {
    digits_val(int_part(s)) < 100 || (digits_val(int_part(s)) == 100 && digits_val(
        frac_part(s),
    ) == 0)
}

/// What parsing a duration expression yields: `None` exactly on the inputs
/// that are rejected with a parse error.
pub open spec fn parse_spec(raw: Seq<char>) -> Option<PlaybackDuration> {
    let s = normalize(raw);
    if s.len() >= 1 && s.last() == '%' {
        let num = strip_plus(s.drop_last());
        if is_number(num) && number_le_100(num) {
            Some(PlaybackDuration::Percent(number_scaled(num, 4) as u64))
        } else {
            None
        }
    } else if s.len() >= 2 && s[s.len() - 2] == 'm' && s.last() == 's' {
        let num = strip_plus(s.take(s.len() - 2));
        if is_number(num) && number_scaled(num, 3) <= u64::MAX {
            Some(PlaybackDuration::Time(number_scaled(num, 3) as u64))
        } else {
            None
        }
    } else {
        let num = strip_plus(
            if s.len() >= 1 && s.last() == 's' {
                s.drop_last()
            } else {
                s
            },
        );
        if is_number(num) && number_scaled(num, 6) <= u64::MAX {
            Some(PlaybackDuration::Time(number_scaled(num, 6) as u64))
        } else {
            None
        }
    }
}

proof fn lemma_pow10_pos(n: nat)
    ensures
        pow10(n) >= 1,
    decreases n,
{
    if n > 0 {
        lemma_pow10_pos((n - 1) as nat);
    }
}

proof fn lemma_digits_val_nonneg(s: Seq<char>)
    requires
        all_digits(s),
    ensures
        digits_val(s) >= 0,
    decreases s.len(),
{
    if s.len() > 0 {
        assert(all_digits(s.drop_last()));
        lemma_digits_val_nonneg(s.drop_last());
    }
}

proof fn lemma_digits_val_bound(s: Seq<char>)
    requires
        all_digits(s),
    ensures
        0 <= digits_val(s) < pow10(s.len() as nat),
    decreases s.len(),
{
    if s.len() == 0 {
    } else {
        assert(all_digits(s.drop_last()));
        lemma_digits_val_bound(s.drop_last());
    }
}

/// Reading one more digit cannot decrease a digit string's value.
proof fn lemma_digits_val_prefix(s: Seq<char>, i: int)
    requires
        all_digits(s),
        0 <= i <= s.len(),
    ensures
        digits_val(s) >= digits_val(s.take(i)),
    decreases s.len() - i,
{
    if i < s.len() {
        assert(all_digits(s.take(i + 1)));
        assert(s.take(i + 1).drop_last() =~= s.take(i));
        assert(s.take(i + 1).last() == s[i]);
        assert(digits_val(s.take(i + 1)) == digits_val(s.take(i)) * 10 + digit_val(s[i]));
        assert(all_digits(s.take(i)));
        lemma_digits_val_nonneg(s.take(i));
        lemma_digits_val_prefix(s, i + 1);
        assert(s.take(s.len() as int) =~= s);
    } else {
        assert(s.take(i) =~= s);
    }
}

/// A digit string whose value is zero has every prefix's value zero.
proof fn lemma_digits_val_zero_take(s: Seq<char>, i: int)
    requires
        all_digits(s),
        digits_val(s) == 0,
        0 <= i <= s.len(),
    ensures
        digits_val(s.take(i)) == 0,
{
    lemma_digits_val_prefix(s, i);
    assert(all_digits(s.take(i)));
    lemma_digits_val_nonneg(s.take(i));
}

proof fn lemma_pow10_monotone(a: nat, b: nat)
    requires
        a <= b,
    ensures
        pow10(a) <= pow10(b),
    decreases b,
{
    if a < b {
        lemma_pow10_monotone(a, (b - 1) as nat);
        lemma_pow10_pos((b - 1) as nat);
    }
}

/// `dot_index` points at the first decimal point, if any.
proof fn lemma_dot_index_is(s: Seq<char>, d: int)
    requires
        0 <= d <= s.len(),
        forall|j: int| 0 <= j < d ==> s[j] != '.',
        d < s.len() ==> s[d] == '.',
    ensures
        dot_index(s) == d,
    decreases s.len(),
{
    if s.len() == 0 {
    } else if d == 0 {
    } else {
        assert(s[0] != '.');
        let s1 = s.drop_first();
        assert(forall|j: int| 0 <= j < d - 1 ==> s1[j] == s[j + 1] && s[j + 1] != '.');
        lemma_dot_index_is(s1, d - 1);
    }
}

/// When the ends of `s` outside `[start, end)` are all whitespace and the
/// range itself starts and ends with non-whitespace (or is empty), trimming
/// yields exactly that range.
proof fn lemma_trim_range(s: Seq<char>, start: int, end: int)
    requires
        0 <= start <= end <= s.len(),
        forall|j: int| 0 <= j < start ==> is_space(#[trigger] s[j]),
        forall|j: int| end <= j < s.len() ==> is_space(#[trigger] s[j]),
        start == end || (!is_space(s[start]) && !is_space(s[end - 1])),
    ensures
        trim(s) == s.subrange(start, end),
    decreases s.len(),
{
    if s.len() > 0 && is_space(s[0]) {
        let s1 = s.drop_first();
        assert(s1 =~= s.subrange(1, s.len() as int));
        if start > 0 {
            assert(forall|j: int| 0 <= j < start - 1 ==> #[trigger] s1[j] == s[j + 1]);
            assert(forall|j: int| end - 1 <= j < s1.len() ==> #[trigger] s1[j] == s[j + 1]);
            lemma_trim_range(s1, start - 1, end - 1);
            assert(s1.subrange(start - 1, end - 1) =~= s.subrange(start, end));
        } else {
            assert(start == end);
            assert(forall|j: int| 0 <= j < s1.len() ==> #[trigger] s1[j] == s[j + 1]);
            lemma_trim_range(s1, 0, 0);
            assert(s1.subrange(0, 0) =~= s.subrange(start, end));
        }
    } else if s.len() > 0 && is_space(s.last()) {
        let s2 = s.drop_last();
        assert(s2 =~= s.subrange(0, s.len() - 1));
        if end < s.len() {
            assert(forall|j: int| 0 <= j < s2.len() ==> #[trigger] s2[j] == s[j]);
            lemma_trim_range(s2, start, end);
            assert(s2.subrange(start, end) =~= s.subrange(start, end));
        } else {
            assert(start == end);
            assert(forall|j: int| 0 <= j < s2.len() ==> #[trigger] s2[j] == s[j]);
            lemma_trim_range(s2, s.len() - 1, s.len() - 1);
            assert(s2.subrange(s.len() - 1, s.len() - 1) =~= s.subrange(start, end));
        }
    } else {
        if s.len() > 0 {
            if start > 0 {
                assert(is_space(s[0]));
                assert(false);
            }
            if end < s.len() {
                assert(is_space(s[s.len() - 1]));
                assert(false);
            }
        }
        assert(s.subrange(start, end) =~= s);
    }
}

/// Unicode whitespace test for one character.
fn is_space_exec(c: char) -> (r: bool)
    ensures
        r == is_space(c),
{
    let u: u32 = c as u32;
    (9 <= u && u <= 13) || u == 32 || u == 0x85 || u == 0xA0 || u == 0x1680 || (0x2000 <= u && u
        <= 0x200A) || u == 0x2028 || u == 0x2029 || u == 0x202F || u == 0x205F || u == 0x3000
}

/// Lower-cases one ASCII character.
fn lower_exec(c: char) -> (r: char)
    ensures
        r == lower(c),
{
    let u: u32 = c as u32;
    if 65 <= u && u <= 90 {
        ((u + 32) as u8) as char
    } else {
        c
    }
}

/// The normal form of a duration expression, as a character vector.
fn normalize_chars(s: &str) -> (v: Vec<char>)
    ensures
        v@ == normalize(s@),
{
    let cs = crate::text::char_vec(s);
    let n = cs.len();
    let mut start: usize = 0;
    while start < n && is_space_exec(cs[start])
        invariant
            cs@ == s@,
            n == cs@.len(),
            start <= n,
            forall|j: int| 0 <= j < start ==> is_space(#[trigger] cs@[j]),
        decreases n - start,
    {
        start = start + 1;
    }
    let mut end: usize = n;
    while end > start && is_space_exec(cs[end - 1])
        invariant
            cs@ == s@,
            n == cs@.len(),
            start <= end <= n,
            forall|j: int| 0 <= j < start ==> is_space(#[trigger] cs@[j]),
            forall|j: int| end <= j < n ==> is_space(#[trigger] cs@[j]),
        decreases end,
    {
        end = end - 1;
    }
    proof {
        lemma_trim_range(s@, start as int, end as int);
    }
    let mut v: Vec<char> = Vec::new();
    let mut i: usize = start;
    while i < end
        invariant
            cs@ == s@,
            n == cs@.len(),
            start <= i <= end <= n,
            v@.len() == i - start,
            forall|k: int| 0 <= k < i - start ==> #[trigger] v@[k] == lower(cs@[start + k]),
        decreases end - i,
    {
        v.push(lower_exec(cs[i]));
        i = i + 1;
    }
    proof {
        assert(v@ =~= trim(s@).map_values(|c: char| lower(c)));
    }
    v
}

/// Checks that every character in `[lo, hi)` of `chars` is a decimal digit.
fn check_digits(chars: &Vec<char>, lo: usize, hi: usize) -> (r: bool)
    requires
        lo <= hi <= chars@.len(),
    ensures
        r == all_digits(chars@.subrange(lo as int, hi as int)),
{
    let ghost sub = chars@.subrange(lo as int, hi as int);
    let mut i: usize = lo;
    while i < hi
        invariant
            lo <= i <= hi <= chars@.len(),
            sub == chars@.subrange(lo as int, hi as int),
            forall|j: int| 0 <= j < i - lo ==> is_digit(#[trigger] sub[j]),
        decreases hi - i,
    {
        let u: u32 = chars[i] as u32;
        if u < 48 || u > 57 {
            proof {
                assert(sub[i - lo] == chars@[i as int]);
                assert(!is_digit(sub[i - lo]));
            }
            return false;
        }
        proof {
            assert(sub[i - lo] == chars@[i as int]);
        }
        i = i + 1;
    }
    true
}

/// The index of the first decimal point in `[lo, hi)`, or `hi` if none.
fn find_dot(chars: &Vec<char>, lo: usize, hi: usize) -> (r: usize)
    requires
        lo <= hi <= chars@.len(),
    ensures
        lo <= r <= hi,
        r - lo == dot_index(chars@.subrange(lo as int, hi as int)),
{
    let ghost sub = chars@.subrange(lo as int, hi as int);
    let mut i: usize = lo;
    while i < hi && chars[i] != '.'
        invariant
            lo <= i <= hi <= chars@.len(),
            sub == chars@.subrange(lo as int, hi as int),
            forall|j: int| 0 <= j < i - lo ==> #[trigger] sub[j] != '.',
        decreases hi - i,
    {
        proof {
            assert(sub[i - lo] == chars@[i as int]);
        }
        i = i + 1;
    }
    proof {
        if i < hi {
            assert(sub[i - lo] == chars@[i as int]);
        }
        lemma_dot_index_is(sub, i - lo);
    }
    i
}

/// The value of the digit string in `[lo, hi)` when it is at most `bound`;
/// `None` exactly when the value exceeds `bound`.
fn digits_value_bounded(chars: &Vec<char>, lo: usize, hi: usize, bound: u64) -> (r: Option<u64>)
    requires
        lo <= hi <= chars@.len(),
        all_digits(chars@.subrange(lo as int, hi as int)),
    ensures
        ({
            let v = digits_val(chars@.subrange(lo as int, hi as int));
            match r {
                Some(x) => v <= bound && x == v,
                None => v > bound,
            }
        }),
{
    let ghost sub = chars@.subrange(lo as int, hi as int);
    let mut acc: u64 = 0;
    let mut i: usize = lo;
    while i < hi
        invariant
            lo <= i <= hi <= chars@.len(),
            sub == chars@.subrange(lo as int, hi as int),
            all_digits(sub),
            acc == digits_val(sub.take(i - lo)),
            acc <= bound,
        decreases hi - i,
    {
        proof {
            assert(sub[i - lo] == chars@[i as int]);
            assert(is_digit(sub[i - lo]));
        }
        let u: u32 = chars[i] as u32;
        let d: u64 = (u - 48) as u64;
        let new: u128 = (acc as u128) * 10 + (d as u128);
        proof {
            assert(sub.take(i - lo + 1).drop_last() =~= sub.take(i - lo));
            assert(digits_val(sub.take(i - lo + 1)) == digits_val(sub.take(i - lo)) * 10
                + digit_val(sub[i - lo]));
        }
        if new > bound as u128 {
            proof {
                lemma_digits_val_prefix(sub, i - lo + 1);
            }
            return None;
        }
        acc = new as u64;
        i = i + 1;
    }
    proof {
        assert(sub.take(hi - lo) =~= sub);
    }
    Some(acc)
}

/// Ten to the power `n`, executably.
fn pow10_u64(n: usize) -> (r: u64)
    requires
        n <= 6,
    ensures
        r == pow10(n as nat),
{
    proof {
        reveal_with_fuel(pow10, 8);
    }
    let mut r: u64 = 1;
    let mut i: usize = 0;
    while i < n
        invariant
            i <= n <= 6,
            r == pow10(i as nat),
            r <= 1_000_000,
        decreases n - i,
    {
        proof {
            reveal_with_fuel(pow10, 8);
            lemma_pow10_monotone((i + 1) as nat, 6nat);
        }
        r = r * 10;
        i = i + 1;
    }
    r
}

/// The fractional digits in `[lo, hi)`, scaled to `scale` decimal places.
fn frac_scaled_value(chars: &Vec<char>, lo: usize, hi: usize, scale: usize) -> (r: u64)
    requires
        lo <= hi <= chars@.len(),
        all_digits(chars@.subrange(lo as int, hi as int)),
        scale <= 6,
    ensures
        r == frac_scaled(chars@.subrange(lo as int, hi as int), scale as nat),
        0 <= r < pow10(scale as nat),
{
    let ghost sub = chars@.subrange(lo as int, hi as int);
    let width = hi - lo;
    let take_n: usize = if width <= scale {
        width
    } else {
        scale
    };
    proof {
        assert(chars@.subrange(lo as int, (lo + take_n) as int) =~= sub.take(take_n as int));
        assert(all_digits(sub.take(take_n as int)));
        lemma_digits_val_bound(sub.take(take_n as int));
        lemma_pow10_monotone(take_n as nat, 6nat);
        reveal_with_fuel(pow10, 8);
    }
    let v = match digits_value_bounded(chars, lo, lo + take_n, 1_000_000) {
        Some(v) => v,
        None => {
            proof {
                assert(false);
            }
            0
        },
    };
    if width <= scale {
        let p = pow10_u64(scale - width);
        proof {
            assert(sub.take(take_n as int) =~= sub);
            lemma_digits_val_bound(sub);
            lemma_pow10_monotone((scale - width) as nat, (scale - width + width) as nat);
            assert((scale - width) as nat + width as nat == scale as nat);
            assert(digits_val(sub) * pow10((scale - width) as nat) < pow10(width as nat) * pow10(
                (scale - width) as nat,
            )) by (nonlinear_arith)
                requires
                    digits_val(sub) < pow10(width as nat),
                    pow10((scale - width) as nat) >= 1,
            ;
            lemma_pow10_mul(width as nat, (scale - width) as nat);
            lemma_digits_val_nonneg(sub);
            assert(digits_val(sub) * pow10((scale - width) as nat) >= 0) by (nonlinear_arith)
                requires
                    digits_val(sub) >= 0,
                    pow10((scale - width) as nat) >= 1,
            ;
        }
        v * p
    } else {
        proof {
            lemma_digits_val_bound(sub.take(scale as int));
        }
        v
    }
}

/// `pow10` distributes over addition of exponents.
proof fn lemma_pow10_mul(a: nat, b: nat)
    ensures
        pow10(a) * pow10(b) == pow10((a + b) as nat),
    decreases a,
{
    if a == 0 {
        assert(pow10(0nat) == 1);
    } else {
        lemma_pow10_mul((a - 1) as nat, b);
        assert(pow10(a) * pow10(b) == (10 * pow10((a - 1) as nat)) * pow10(b));
        assert((10 * pow10((a - 1) as nat)) * pow10(b) == 10 * (pow10((a - 1) as nat) * pow10(b)))
            by (nonlinear_arith);
    }
}

/// A scaled number is at least its integer part's value, and its scaled
/// fraction is non-negative.
proof fn lemma_number_scaled_parts(s: Seq<char>, scale: nat)
    requires
        all_digits(int_part(s)),
        all_digits(frac_part(s)),
    ensures
        frac_scaled(frac_part(s), scale) >= 0,
        number_scaled(s, scale) >= digits_val(int_part(s)),
{
    let f = frac_part(s);
    lemma_digits_val_nonneg(f);
    if f.len() <= scale {
        lemma_pow10_pos((scale - f.len()) as nat);
        assert(digits_val(f) * pow10((scale - f.len()) as nat) >= 0) by (nonlinear_arith)
            requires
                digits_val(f) >= 0,
                pow10((scale - f.len()) as nat) >= 1,
        ;
    } else {
        assert(all_digits(f.take(scale as int)));
        lemma_digits_val_nonneg(f.take(scale as int));
    }
    lemma_digits_val_nonneg(int_part(s));
    lemma_pow10_pos(scale);
    assert(digits_val(int_part(s)) * pow10(scale) >= digits_val(int_part(s))) by (nonlinear_arith)
        requires
            digits_val(int_part(s)) >= 0,
            pow10(scale) >= 1,
    ;
}

/// Parses the decimal number in `[lo, hi)` of `chars`, scaled to `scale`
/// decimal places; `None` exactly when the range is not a well-formed
/// number or the scaled value does not fit in a `u64`.
fn parse_number_scaled(chars: &Vec<char>, lo: usize, hi: usize, scale: usize) -> (r: Option<u64>)
    requires
        lo <= hi <= chars@.len(),
        scale <= 6,
    ensures
        ({
            let sub = chars@.subrange(lo as int, hi as int);
            match r {
                Some(v) => is_number(sub) && number_scaled(sub, scale as nat) <= u64::MAX && v
                    == number_scaled(sub, scale as nat),
                None => !is_number(sub) || number_scaled(sub, scale as nat) > u64::MAX,
            }
        }),
{
    let ghost sub = chars@.subrange(lo as int, hi as int);
    let d = find_dot(chars, lo, hi);
    proof {
        assert(int_part(sub) =~= chars@.subrange(lo as int, d as int));
        if d < hi {
            assert(frac_part(sub) =~= chars@.subrange(d + 1, hi as int));
        } else {
            assert(frac_part(sub) =~= Seq::<char>::empty());
        }
    }
    if !check_digits(chars, lo, d) {
        return None;
    }
    if d < hi && !check_digits(chars, d + 1, hi) {
        return None;
    }
    let frac_len: usize = if d < hi {
        hi - d - 1
    } else {
        0
    };
    if d - lo == 0 && frac_len == 0 {
        return None;
    }
    proof {
        assert(is_number(sub));
        lemma_number_scaled_parts(sub, scale as nat);
    }
    let iv = match digits_value_bounded(chars, lo, d, u64::MAX) {
        Some(v) => v,
        None => {
            return None;
        },
    };
    let fr: u64 = if d < hi {
        frac_scaled_value(chars, d + 1, hi, scale)
    } else {
        proof {
            lemma_pow10_pos(scale as nat);
        }
        0
    };
    let p = pow10_u64(scale);
    proof {
        reveal_with_fuel(pow10, 8);
        lemma_pow10_monotone(scale as nat, 6nat);
        assert((iv as int) * (p as int) <= 0xffff_ffff_ffff_ffff * 1_000_000) by (nonlinear_arith)
            requires
                0 <= iv as int <= 0xffff_ffff_ffff_ffff,
                0 <= p as int <= 1_000_000,
        ;
        assert((iv as int) * (p as int) >= 0) by (nonlinear_arith)
            requires
                0 <= iv as int,
                0 <= p as int,
        ;
    }
    let total: u128 = (iv as u128) * (p as u128) + (fr as u128);
    proof {
        assert((iv as int) * (p as int) == digits_val(int_part(sub)) * pow10(scale as nat));
    }
    if total > u64::MAX as u128 {
        return None;
    }
    Some(total as u64)
}

/// The grammar description that a parse error carries, for each shape of
/// (normalized) input.
pub open spec fn expected_grammar(n: Seq<char>) -> Seq<char> {
    if n.len() >= 1 && n.last() == '%' {
        if is_number(strip_plus(n.drop_last())) {
            "Percentage must be between 0.0 and 100.0"@
        } else {
            "Percentage must be a numerical value followed by '%'"@
        }
    } else if n.len() >= 2 && n[n.len() - 2] == 'm' && n.last() == 's' {
        "Milliseconds value must be a numerical value followed by 'ms'"@
    } else {
        "Seconds value must be a numerical value (optionally followed by 's')"@
    }
}

impl PlaybackDuration {
    /// Parses a duration expression.
    ///
    /// The expression is trimmed and lower-cased; a `%` suffix makes it a
    /// fraction (the number must lie in `[0, 100]`), an `ms` suffix an
    /// absolute time in milliseconds, and otherwise it is read as seconds,
    /// with an optional `s` suffix. Inputs outside that grammar, and values
    /// too large to represent, are rejected with a
    /// [`ThemerError::PlaybackFromStrError`] naming the offending
    /// expression in its normal form.
    #[verifier::rlimit(50)]
    pub fn from_str(s: &str) -> (r: Result<PlaybackDuration, ThemerError>)
        ensures
            r is Ok <==> parse_spec(s@) is Some,
            r matches Ok(pd) ==> Some(pd) == parse_spec(s@) && pd.valid(),
            r matches Err(e) ==> e matches ThemerError::PlaybackFromStrError { from, e: msg }
                && from@ == normalize(s@) && msg@ == expected_grammar(normalize(s@)),
    {
        let n = normalize_chars(s);
        let len = n.len();
        if len >= 1 && n[len - 1] == '%' {
            let end = len - 1;
            let plo: usize = if end > 0 && n[0] == '+' {
                1
            } else {
                0
            };
            let ghost num = n@.subrange(plo as int, end as int);
            proof {
                assert(num =~= strip_plus(normalize(s@).drop_last()));
            }
            let d = find_dot(&n, plo, end);
            proof {
                assert(int_part(num) =~= n@.subrange(plo as int, d as int));
                if d < end {
                    assert(frac_part(num) =~= n@.subrange(d + 1, end as int));
                } else {
                    assert(frac_part(num) =~= Seq::<char>::empty());
                }
            }
            let int_ok = check_digits(&n, plo, d);
            let frac_ok = if d < end {
                check_digits(&n, d + 1, end)
            } else {
                true
            };
            let frac_len: usize = if d < end {
                end - d - 1
            } else {
                0
            };
            if !int_ok || !frac_ok || (d == plo && frac_len == 0) {
                proof {
                    assert(!is_number(num));
                }
                return Err(ThemerError::PlaybackFromStrError {
                    from: crate::text::string_of_chars(&n),
                    e: String::from_str("Percentage must be a numerical value followed by '%'"),
                });
            }
            proof {
                assert(is_number(num));
            }
            let iv = match digits_value_bounded(&n, plo, d, 100) {
                Some(v) => v,
                None => {
                    proof {
                        assert(!number_le_100(num));
                    }
                    return Err(ThemerError::PlaybackFromStrError {
                        from: crate::text::string_of_chars(&n),
                        e: String::from_str("Percentage must be between 0.0 and 100.0"),
                    });
                },
            };
            let frac_is_zero: bool = if d < end {
                match digits_value_bounded(&n, d + 1, end, 0) {
                    Some(_) => true,
                    None => false,
                }
            } else {
                true
            };
            proof {
                lemma_digits_val_nonneg(frac_part(num));
            }
            if iv == 100 && !frac_is_zero {
                proof {
                    assert(!number_le_100(num));
                }
                return Err(ThemerError::PlaybackFromStrError {
                    from: crate::text::string_of_chars(&n),
                    e: String::from_str("Percentage must be between 0.0 and 100.0"),
                });
            }
            proof {
                assert(number_le_100(num));
            }
            let fr: u64 = if d < end {
                frac_scaled_value(&n, d + 1, end, 4)
            } else {
                0
            };
            proof {
                reveal_with_fuel(pow10, 8);
                if iv == 100 {
                    assert(digits_val(frac_part(num)) == 0);
                    if frac_part(num).len() > 4 {
                        lemma_digits_val_zero_take(frac_part(num), 4);
                    }
                    assert(frac_scaled(frac_part(num), 4nat) == 0);
                }
            }
            let ppm = iv * 10_000 + fr;
            proof {
                assert(ppm == number_scaled(num, 4nat));
                assert(ppm <= 1_000_000);
            }
            Ok(PlaybackDuration::Percent(ppm))
        } else if len >= 2 && n[len - 2] == 'm' && n[len - 1] == 's' {
            let hi = len - 2;
            let plo: usize = if hi > 0 && n[0] == '+' {
                1
            } else {
                0
            };
            proof {
                assert(n@.subrange(plo as int, hi as int) =~= strip_plus(
                    normalize(s@).take(len - 2),
                ));
            }
            match parse_number_scaled(&n, plo, hi, 3) {
                Some(v) => Ok(PlaybackDuration::Time(v)),
                None => Err(ThemerError::PlaybackFromStrError {
                    from: crate::text::string_of_chars(&n),
                    e: String::from_str("Milliseconds value must be a numerical value followed by 'ms'"),
                }),
            }
        } else {
            let end = if len >= 1 && n[len - 1] == 's' {
                len - 1
            } else {
                len
            };
            let plo: usize = if end > 0 && n[0] == '+' {
                1
            } else {
                0
            };
            proof {
                if end < len {
                    assert(n@.subrange(plo as int, end as int) =~= strip_plus(
                        normalize(s@).drop_last(),
                    ));
                } else {
                    assert(n@.subrange(plo as int, end as int) =~= strip_plus(normalize(s@)));
                }
            }
            match parse_number_scaled(&n, plo, end, 6) {
                Some(v) => Ok(PlaybackDuration::Time(v)),
                None => Err(ThemerError::PlaybackFromStrError {
                    from: crate::text::string_of_chars(&n),
                    e: String::from_str(
                        "Seconds value must be a numerical value (optionally followed by 's')",
                    ),
                }),
            }
        }
    }
}

/// Resolves a playback-duration request against the sound's natural length,
/// both in microseconds.
///
/// An absolute request is returned unchanged when it does not exceed the
/// natural length (the boundary is inclusive), and rejected with a
/// [`ThemerError::DurationTooLongError`] otherwise. A fractional request
/// yields the corresponding fraction of the natural length, truncated to a
/// whole microsecond.
pub fn playback_duration_to_duration(
    playback_duration: &PlaybackDuration,
    natural_micros: u64,
) -> (r: Result<u64, ThemerError>)
    requires
        playback_duration.valid(),
    ensures
        ({
            match *playback_duration {
                PlaybackDuration::Time(q) => if natural_micros >= q {
                    r == Ok::<u64, ThemerError>(q)
                } else {
                    r matches Err(e) && e matches ThemerError::DurationTooLongError(nat_us, req_us)
                        && nat_us == natural_micros && req_us == q
                },
                PlaybackDuration::Percent(ppm) => r matches Ok(b) && b == (natural_micros as int) * (
                ppm as int) / 1_000_000,
            }
        }),
{
    match playback_duration {
        PlaybackDuration::Time(q) => {
            if natural_micros >= *q {
                Ok(*q)
            } else {
                Err(ThemerError::DurationTooLongError(natural_micros, *q))
            }
        },
        PlaybackDuration::Percent(ppm) => {
            proof {
                assert((natural_micros as int) * (*ppm as int) <= 0xffff_ffff_ffff_ffff
                    * 1_000_000) by (nonlinear_arith)
                    requires
                        0 <= natural_micros as int <= 0xffff_ffff_ffff_ffff,
                        0 <= *ppm as int <= 1_000_000,
                ;
                assert((natural_micros as int) * (*ppm as int) >= 0) by (nonlinear_arith)
                    requires
                        0 <= natural_micros as int,
                        0 <= *ppm as int,
                ;
            }
            let prod: u128 = (natural_micros as u128) * (*ppm as u128);
            let b: u128 = prod / 1_000_000;
            proof {
                let n = natural_micros as int;
                let p = *ppm as int;
                assert(n * p <= n * 1_000_000) by (nonlinear_arith)
                    requires
                        0 <= n,
                        0 <= p <= 1_000_000,
                ;
                vstd::arithmetic::div_mod::lemma_div_is_ordered(n * p, n * 1_000_000, 1_000_000);
                vstd::arithmetic::div_mod::lemma_div_multiples_vanish(n, 1_000_000);
                assert(n * 1_000_000 == 1_000_000 * n) by (nonlinear_arith);
            }
            Ok(b as u64)
        },
    }
}

/// Chooses which playback-duration request applies: an explicit caller
/// override wins; otherwise the mapping entry's duration expression, if
/// any, is parsed; otherwise there is no bound and the sound plays to
/// completion.
pub fn choose_duration(
    override_duration: Option<PlaybackDuration>,
    entry: &crate::mapping::PlaybackSpec,
) -> (r: Result<Option<PlaybackDuration>, ThemerError>)
    requires
        override_duration matches Some(pd) ==> pd.valid(),
    ensures
        override_duration matches Some(pd) ==> r == Ok::<Option<PlaybackDuration>, ThemerError>(
            Some(pd),
        ),
        override_duration is None && entry@.duration is None ==> r == Ok::<
            Option<PlaybackDuration>,
            ThemerError,
        >(None),
        (override_duration is None && entry@.duration is Some) ==> ({
            let expr = entry@.duration->Some_0;
            match parse_spec(expr) {
                Some(pd) => r == Ok::<Option<PlaybackDuration>, ThemerError>(Some(pd)),
                None => r matches Err(e) && e matches ThemerError::PlaybackFromStrError {
                    from,
                    e: msg,
                } && from@ == normalize(expr) && msg@ == expected_grammar(normalize(expr)),
            }
        }),
        r matches Ok(Some(pd)) ==> pd.valid(),
{
    match override_duration {
        Some(pd) => Ok(Some(pd)),
        None => match entry.duration() {
            Some(expr) => match PlaybackDuration::from_str(expr.as_str()) {
                Ok(pd) => Ok(Some(pd)),
                Err(e) => Err(e),
            },
            None => Ok(None),
        },
    }
}

} // verus!

