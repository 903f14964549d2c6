//! File sinks: how sizes, rotations and retentions are written in
//! configuration, when a file rotates, and what a sink keeps count of.

use crate::text::{
    all_digits, ascii_lower, ascii_upper, char_is_digit, char_is_whitespace, chars_equal,
    contains_text, digits_value, is_digit, is_whitespace, lemma_digits_value_monotonic,
    lemma_span_len, lemma_trim_start_skip, lowercase, parse_unsigned, range_equals, span_len, to_chars,
    trim, trim_start, trimmed, unsigned_value, uppercase,
};
use crate::render::{format_time, time_text};
use crate::time::{clamp_i64, instant_of_local, Timestamp, LAST_LOCAL_SECOND};
use crate::writer::WriterMessage;
use vstd::prelude::*;

verus! {

pub const KB: u64 = 1024;

pub const MB: u64 = 1024 * 1024;

pub const GB: u64 = 1024 * 1024 * 1024;

pub const TB: u64 = 1024 * 1024 * 1024 * 1024;

/// When a file rotates by the clock.
#[derive(Clone, Copy, PartialEq, Eq, Debug, Structural)]
pub enum Rotation {
    /// Never by the clock.
    Never,
    /// At each local midnight.
    Daily,
    /// At the top of each hour of the local clock.
    Hourly,
}

impl Default for Rotation {
    fn default() -> (r: Self)
        ensures
            r == Rotation::Never,
    {
        Rotation::Never
    }
}

/// How long rotated files are kept where nothing else is said.
#[derive(Clone, Copy, PartialEq, Eq, Debug, Structural)]
pub enum RetentionPolicy {
    Forever,
}

/// The multiplier that a unit of size stands for, the unit written in capitals.
pub open spec fn unit_multiplier(unit: Seq<char>) -> Option<u64> {
    if unit == ""@ || unit == "B"@ {
        Some(1u64)
    } else if unit == "K"@ || unit == "KB"@ {
        Some(KB)
    } else if unit == "M"@ || unit == "MB"@ {
        Some(MB)
    } else if unit == "G"@ || unit == "GB"@ {
        Some(GB)
    } else if unit == "T"@ || unit == "TB"@ {
        Some(TB)
    } else {
        None
    }
}

pub open spec fn is_number_char(c: char) -> bool {
    is_digit(c) || c == '.'
}

/// How many characters at the front of a text are digits or points.
pub open spec fn number_len(s: Seq<char>) -> nat
    decreases s.len(),
{
    if s.len() == 0 || !is_number_char(s[0]) {
        0
    } else {
        1 + number_len(s.skip(1))
    }
}

/// The power of ten with the given exponent.
pub open spec fn pow10(n: nat) -> nat
    decreases n,
{
    if n == 0 {
        1
    } else {
        10 * pow10((n - 1) as nat)
    }
}

/// The whole part of `m` times a decimal number: digits, and after them a
/// point and digits or nothing. `None` for any other text.
///
/// With `f` digits behind the point, the number is its digits read as one
/// number, divided by the `f`th power of ten.
pub open spec fn amount(number: Seq<char>, m: nat) -> Option<nat> {
    let point = span_len(number, '.');
    let whole = number.take(point as int);
    let fraction = if point < number.len() {
        number.skip(point as int + 1)
    } else {
        Seq::empty()
    };
    if whole.len() == 0 || !all_digits(whole) {
        None
    } else if point < number.len() && (fraction.len() == 0 || !all_digits(fraction)) {
        None
    } else {
        Some(
            ((digits_value(whole) * pow10(fraction.len()) + digits_value(fraction)) * m / pow10(
                fraction.len(),
            )) as nat,
        )
    }
}

/// The whole part of `m` times the decimal fraction whose digits are given,
/// from the whole part of `m` times the fraction of the digits but the first.
spec fn scaled_fraction(digits: Seq<char>, m: nat) -> nat
    decreases digits.len(),
{
    if digits.len() == 0 {
        0
    } else {
        (((digits[0] as u32 - '0' as u32) * m + scaled_fraction(digits.skip(1), m)) / 10) as nat
    }
}

proof fn lemma_pow10_positive(n: nat)
    ensures
        pow10(n) > 0,
    decreases n,
{
    if n > 0 {
        lemma_pow10_positive((n - 1) as nat);
    }
}

/// The value of digits with one more digit before them.
proof fn lemma_digits_value_front(s: Seq<char>)
    requires
        s.len() > 0,
        all_digits(s),
    ensures
        digits_value(s) == (s[0] as u32 - '0' as u32) * pow10((s.len() - 1) as nat) + digits_value(
            s.skip(1),
        ),
    decreases s.len(),
{
    let d = (s[0] as u32 - '0' as u32) as int;
    let last = (s.last() as u32 - '0' as u32) as int;
    assert(is_digit(s[0]) && is_digit(s[s.len() - 1]));
    assert(digits_value(s) == digits_value(s.drop_last()) * 10 + last);
    if s.len() == 1 {
        assert(s.drop_last() =~= Seq::<char>::empty());
        assert(s.skip(1) =~= Seq::<char>::empty());
        assert(digits_value(Seq::<char>::empty()) == 0);
        assert(pow10(0) == 1);
        assert(d * 1 == d);
    } else {
        let front = s.drop_last();
        let tail = s.skip(1);
        assert forall|i: int| 0 <= i < front.len() implies is_digit(#[trigger] front[i]) by {
            assert(front[i] == s[i]);
        }
        lemma_digits_value_front(front);
        assert(front.skip(1) =~= tail.drop_last());
        assert(tail.last() == s.last());
        assert(front[0] == s[0]);
        let p = pow10((s.len() - 2) as nat) as int;
        let v = digits_value(front.skip(1)) as int;
        assert(digits_value(front) == d * p + v);
        assert(digits_value(tail) == v * 10 + last);
        assert(pow10((s.len() - 1) as nat) == 10 * p);
        assert((d * p + v) * 10 + last == d * (10 * p) + (v * 10 + last)) by (nonlinear_arith);
    }
}

/// Dividing by ten times `p` is dividing by `p` and then by ten.
proof fn lemma_divide_in_two_steps(x: int, a: int, p: int)
    requires
        x >= 0,
        a >= 0,
        p > 0,
    ensures
        (x * p + a) / (10 * p) == (x + a / p) / 10,
{
    let q = a / p;
    let r = a % p;
    vstd::arithmetic::div_mod::lemma_fundamental_div_mod(a, p);
    vstd::arithmetic::div_mod::lemma_mod_bound(a, p);
    vstd::arithmetic::div_mod::lemma_div_pos_is_pos(a, p);
    let y = x + q;
    let hi = y / 10;
    let lo = y % 10;
    assert(y == 10 * hi + lo);
    assert(x * p + a == hi * (10 * p) + (lo * p + r)) by (nonlinear_arith)
        requires
            a == p * q + r,
            y == x + q,
            y == 10 * hi + lo,
    ;
    assert(0 <= lo * p + r < 10 * p) by (nonlinear_arith)
        requires
            0 <= lo <= 9,
            0 <= r < p,
    ;
    vstd::arithmetic::div_mod::lemma_fundamental_div_mod_converse_div(
        x * p + a,
        10 * p,
        hi,
        lo * p + r,
    );
}

/// The whole part of `m` times a decimal fraction is the whole part of `m`
/// times its digits, read as one number, by the power of ten of their count.
proof fn lemma_scaled_fraction(digits: Seq<char>, m: nat)
    requires
        all_digits(digits),
    ensures
        scaled_fraction(digits, m) == digits_value(digits) * m / pow10(digits.len()),
    decreases digits.len(),
{
    if digits.len() > 0 {
        let rest = digits.skip(1);
        let d = (digits[0] as u32 - '0' as u32) as int;
        let p = pow10(rest.len()) as int;
        let v = digits_value(rest) as int;
        assert(is_digit(digits[0]));
        assert forall|i: int| 0 <= i < rest.len() implies is_digit(#[trigger] rest[i]) by {
            assert(rest[i] == digits[i + 1]);
        }
        lemma_scaled_fraction(rest, m);
        lemma_digits_value_front(digits);
        lemma_pow10_positive(rest.len());
        assert(v * m >= 0) by (nonlinear_arith)
            requires
                v >= 0,
                m >= 0,
        ;
        assert(d * m >= 0) by (nonlinear_arith)
            requires
                d >= 0,
                m >= 0,
        ;
        lemma_divide_in_two_steps(d * m, v * m, p);
        assert((d * p + v) * m == (d * m) * p + v * m) by (nonlinear_arith);
        assert(digits_value(digits) == d * p + v);
        assert(pow10(digits.len()) == 10 * p);
        assert(scaled_fraction(rest, m) == (v * m) / p);
        assert(scaled_fraction(digits, m) == (d * m + scaled_fraction(rest, m)) / 10);
    } else {
        assert(pow10(0) == 1);
        assert(digits_value(digits) * m == 0) by (nonlinear_arith)
            requires
                digits_value(digits) == 0,
        ;
    }
}

/// The whole part of a product with a number of `f` digits behind the point
/// is the product of the part before the point and the whole part of the
/// product of the fraction.
proof fn lemma_amount_parts(w: nat, fraction: Seq<char>, m: nat)
    requires
        all_digits(fraction),
    ensures
        (w * pow10(fraction.len()) + digits_value(fraction)) * m / pow10(fraction.len()) == w * m
            + scaled_fraction(fraction, m),
{
    let p = pow10(fraction.len()) as int;
    let v = digits_value(fraction) as int;
    lemma_pow10_positive(fraction.len());
    lemma_scaled_fraction(fraction, m);
    let a = v * m;
    assert(a >= 0) by (nonlinear_arith)
        requires
            a == v * m,
            v >= 0,
            m >= 0,
    ;
    let q = a / p;
    let r = a % p;
    vstd::arithmetic::div_mod::lemma_fundamental_div_mod(a, p);
    vstd::arithmetic::div_mod::lemma_mod_bound(a, p);
    assert((w * p + v) * m == (w * m + q) * p + r) by (nonlinear_arith)
        requires
            a == v * m,
            a == p * q + r,
    ;
    vstd::arithmetic::div_mod::lemma_fundamental_div_mod_converse_div(
        (w * p + v) * m,
        p,
        w * m + q,
        r,
    );
}

/// The number of bytes that a size such as `500 MB` stands for: a decimal
/// number, then whitespace or none, then a unit or none, in any case of
/// letters and with whitespace around it or none. A size beyond `u64::MAX`
/// counts as `u64::MAX`.
pub open spec fn size_of(input: Seq<char>) -> Option<u64> {
    let s = ascii_upper(trim(input));
    let n = number_len(s);
    match unit_multiplier(trim_start(s.skip(n as int))) {
        Some(m) => match amount(s.take(n as int), m as nat) {
            Some(a) => Some(
                if a > u64::MAX {
                    u64::MAX
                } else {
                    a as u64
                },
            ),
            None => None,
        },
        None => None,
    }
}

fn multiplier_of(chars: &Vec<char>, from: usize) -> (r: Option<u64>)
    requires
        from <= chars.len(),
    ensures
        r == unit_multiplier(chars@.skip(from as int)),
        match r {
            Some(m) => 1 <= m <= TB,
            None => true,
        },
{
    let to = chars.len();
    assert(chars@.skip(from as int) =~= chars@.subrange(from as int, to as int));
    if range_equals(chars, from, to, "") || range_equals(chars, from, to, "B") {
        Some(1)
    } else if range_equals(chars, from, to, "K") || range_equals(chars, from, to, "KB") {
        Some(KB)
    } else if range_equals(chars, from, to, "M") || range_equals(chars, from, to, "MB") {
        Some(MB)
    } else if range_equals(chars, from, to, "G") || range_equals(chars, from, to, "GB") {
        Some(GB)
    } else if range_equals(chars, from, to, "T") || range_equals(chars, from, to, "TB") {
        Some(TB)
    } else {
        None
    }
}

proof fn lemma_number_len(s: Seq<char>, n: int)
    requires
        0 <= n <= s.len(),
        forall|k: int| 0 <= k < n ==> is_number_char(#[trigger] s[k]),
        n == s.len() || !is_number_char(s[n]),
    ensures
        number_len(s) == n,
    decreases n,
{
    if n > 0 {
        assert forall|k: int| 0 <= k < n - 1 implies is_number_char(#[trigger] s.skip(1)[k]) by {
            assert(s.skip(1)[k] == s[k + 1]);
        }
        lemma_number_len(s.skip(1), n - 1);
    }
}

/// Whether `chars[from..to]` holds digits only.
fn digits_only(chars: &Vec<char>, from: usize, to: usize) -> (r: bool)
    requires
        from <= to <= chars.len(),
    ensures
        r == all_digits(chars@.subrange(from as int, to as int)),
{
    let ghost s = chars@.subrange(from as int, to as int);
    let mut i: usize = from;
    while i < to
        invariant
            from <= i <= to <= chars.len(),
            s == chars@.subrange(from as int, to as int),
            forall|k: int| 0 <= k < i - from ==> is_digit(#[trigger] s[k]),
        decreases to - i,
    {
        if !char_is_digit(chars[i]) {
            assert(!is_digit(s[i - from]));
            return false;
        }
        i += 1;
    }
    true
}

/// The value of the digits `chars[from..to]`, or `None` where it is beyond `u64::MAX`.
fn whole_value(chars: &Vec<char>, from: usize, to: usize) -> (r: Option<u64>)
    requires
        from <= to <= chars.len(),
        all_digits(chars@.subrange(from as int, to as int)),
    ensures
        match r {
            Some(v) => v == digits_value(chars@.subrange(from as int, to as int)),
            None => digits_value(chars@.subrange(from as int, to as int)) > u64::MAX,
        },
{
    let ghost s = chars@.subrange(from as int, to as int);
    let mut acc: u64 = 0;
    let mut i: usize = from;
    assert(s.take(0) =~= Seq::<char>::empty());
    while i < to
        invariant
            from <= i <= to <= chars.len(),
            s == chars@.subrange(from as int, to as int),
            all_digits(s),
            acc == digits_value(s.take(i - from)),
        decreases to - i,
    {
        let c = chars[i];
        assert(s[i - from] == c);
        let d: u64 = (c as u8 - 48u8) as u64;
        proof {
            let next = s.take(i - from + 1);
            assert(next.drop_last() =~= s.take(i - from));
            assert(next.last() == c);
            lemma_digits_value_monotonic(s, i - from + 1);
        }
        if acc > (u64::MAX - d) / 10 {
            return None;
        }
        acc = acc * 10 + d;
        i += 1;
    }
    assert(s.take(to - from) =~= s);
    Some(acc)
}

/// The whole part of `m` times the fraction whose digits are `chars[from..to]`.
fn fraction_value(chars: &Vec<char>, from: usize, to: usize, m: u64) -> (r: u64)
    requires
        from <= to <= chars.len(),
        all_digits(chars@.subrange(from as int, to as int)),
        m <= TB,
    ensures
        r == scaled_fraction(chars@.subrange(from as int, to as int), m as nat),
        r <= m,
{
    let ghost s = chars@.subrange(from as int, to as int);
    let mut carry: u64 = 0;
    let mut i: usize = to;
    assert(s.skip(to - from) =~= Seq::<char>::empty());
    while i > from
        invariant
            from <= i <= to <= chars.len(),
            s == chars@.subrange(from as int, to as int),
            all_digits(s),
            carry == scaled_fraction(s.skip(i - from), m as nat),
            carry <= m,
            m <= TB,
        decreases i,
    {
        i -= 1;
        let c = chars[i];
        assert(s[i - from] == c);
        let d: u64 = (c as u8 - 48u8) as u64;
        proof {
            let here = s.skip(i - from);
            assert(here[0] == c);
            assert(here.skip(1) =~= s.skip(i - from + 1));
            assert(d * m <= 9 * m) by (nonlinear_arith)
                requires
                    d <= 9,
            ;
        }
        carry = (d * m + carry) / 10;
    }
    assert(s.skip(0) =~= s);
    carry
}

/// Reads a size such as `500 MB` as a number of bytes.
pub fn parse_size(size_str: &str) -> (r: Option<u64>)
    ensures
        r == size_of(size_str@),
{
    let chars = uppercase(&trimmed(&to_chars(size_str)));
    let ghost s = chars@;
    let mut n: usize = 0;
    while n < chars.len() && (char_is_digit(chars[n]) || chars[n] == '.')
        invariant
            n <= chars.len(),
            forall|k: int| 0 <= k < n ==> is_number_char(#[trigger] chars@[k]),
        decreases chars.len() - n,
    {
        n += 1;
    }
    proof {
        lemma_number_len(s, n as int);
    }
    let mut u: usize = n;
    while u < chars.len() && char_is_whitespace(chars[u])
        invariant
            n <= u <= chars.len(),
            forall|k: int| n <= k < u ==> is_whitespace(#[trigger] chars@[k]),
        decreases chars.len() - u,
    {
        u += 1;
    }
    proof {
        let rest = s.skip(n as int);
        assert forall|k: int| 0 <= k < u - n implies is_whitespace(#[trigger] rest[k]) by {
            assert(rest[k] == s[n + k]);
        }
        lemma_trim_start_skip(rest, u - n);
        assert(rest.skip(u - n) =~= s.skip(u as int));
        if u < chars.len() {
            assert(s.skip(u as int)[0] == s[u as int]);
        }
    }
    let m = match multiplier_of(&chars, u) {
        Some(m) => m,
        None => {
            return None;
        },
    };
    let ghost number = s.take(n as int);
    assert(number =~= s.subrange(0, n as int));
    let mut point: usize = 0;
    while point < n && chars[point] != '.'
        invariant
            point <= n <= chars.len(),
            forall|k: int| 0 <= k < point ==> chars@[k] != '.',
        decreases n - point,
    {
        point += 1;
    }
    proof {
        assert forall|k: int| 0 <= k < point implies number[k] != '.' by {
            assert(number[k] == s[k]);
        }
        lemma_span_len(number, '.', point as int);
        assert(number.take(point as int) =~= s.subrange(0, point as int));
    }
    let after: usize = if point < n {
        point + 1
    } else {
        n
    };
    proof {
        if point < n {
            assert(number.skip(point + 1) =~= s.subrange(after as int, n as int));
        } else {
            assert(s.subrange(after as int, n as int) =~= Seq::<char>::empty());
        }
    }
    if point == 0 || !digits_only(&chars, 0, point) {
        return None;
    }
    if point < n && (after == n || !digits_only(&chars, after, n)) {
        return None;
    }
    let frac: u64 = fraction_value(&chars, after, n, m);
    proof {
        lemma_amount_parts(
            digits_value(s.subrange(0, point as int)),
            s.subrange(after as int, n as int),
            m as nat,
        );
    }
    match whole_value(&chars, 0, point) {
        Some(w) => {
            assert(w * m <= 0xffff_ffff_ffff_ffff * 0x100_0000_0000) by (nonlinear_arith)
                requires
                    0 <= w <= 0xffff_ffff_ffff_ffff,
                    0 <= m <= 0x100_0000_0000,
            ;
            let total: u128 = (w as u128) * (m as u128) + frac as u128;
            if total > u64::MAX as u128 {
                Some(u64::MAX)
            } else {
                Some(total as u64)
            }
        },
        None => {
            proof {
                let w = digits_value(s.subrange(0, point as int));
                assert(w * m >= w) by (nonlinear_arith)
                    requires
                        m >= 1,
                        w >= 0,
                ;
            }
            Some(u64::MAX)
        },
    }
}

/// What a rotation such as `daily` or `500 MB` stands for: a rotation by the
/// clock and no size, or no rotation by the clock and the size where the text
/// is one, or neither.
pub open spec fn rotation_of(input: Seq<char>) -> (Rotation, Option<u64>) {
    let s = ascii_lower(trim(input));
    if s == "daily"@ || s == "1 day"@ || s == "1day"@ {
        (Rotation::Daily, None)
    } else if s == "hourly"@ || s == "1 hour"@ || s == "1hour"@ {
        (Rotation::Hourly, None)
    } else {
        (Rotation::Never, size_of(s))
    }
}

/// Reads a rotation such as `daily`, `hourly` or `500 MB`.
pub fn parse_rotation(rotation_str: &str) -> (r: (Rotation, Option<u64>))
    ensures
        r == rotation_of(rotation_str@),
{
    let chars = lowercase(&trimmed(&to_chars(rotation_str)));
    if chars_equal(&chars, "daily") || chars_equal(&chars, "1 day") || chars_equal(&chars, "1day") {
        (Rotation::Daily, None)
    } else if chars_equal(&chars, "hourly") || chars_equal(&chars, "1 hour") || chars_equal(
        &chars,
        "1hour",
    ) {
        (Rotation::Hourly, None)
    } else {
        let text = crate::text::from_chars(&chars);
        (Rotation::Never, parse_size(text.as_str()))
    }
}

/// The digits of a text, in their order.
pub open spec fn digits_in(s: Seq<char>) -> Seq<char>
    decreases s.len(),
{
    if s.len() == 0 {
        Seq::empty()
    } else if is_digit(s.last()) {
        digits_in(s.drop_last()).push(s.last())
    } else {
        digits_in(s.drop_last())
    }
}

/// A number that fits in 32 bits, written as the standard library reads one.
pub open spec fn small_number(s: Seq<char>) -> Option<u32> {
    match unsigned_value(s) {
        Some(n) => if n <= u32::MAX {
            Some(n as u32)
        } else {
            None
        },
        None => None,
    }
}

/// What a retention such as `10 days` or `5` stands for: a number of days and
/// no count, or no days and a count of files, or neither. A text that holds
/// `day` gives as days the number that its digits make.
pub open spec fn retention_of(input: Seq<char>) -> (Option<u32>, Option<u32>) {
    let s = ascii_lower(trim(input));
    if contains_text(s, "day"@) && small_number(digits_in(s)).is_some() {
        (small_number(digits_in(s)), None)
    } else {
        (None, small_number(s))
    }
}

/// Whether `chars` holds the three characters `day` one after the other.
fn holds_day(chars: &Vec<char>) -> (r: bool)
    ensures
        r == contains_text(chars@, "day"@),
{
    proof {
        reveal_strlit("day");
    }
    let ghost needle = "day"@;
    if chars.len() < 3 {
        assert forall|i: int| 0 <= i && i + needle.len() <= chars@.len() implies #[trigger] chars@.subrange(
            i,
            i + needle.len(),
        ) != needle by {}
        return false;
    }
    let mut i: usize = 0;
    while i <= chars.len() - 3
        invariant
            chars.len() >= 3,
            i + 2 <= chars.len(),
            needle == "day"@,
            needle.len() == 3,
            needle[0] == 'd',
            needle[1] == 'a',
            needle[2] == 'y',
            forall|k: int| 0 <= k < i ==> #[trigger] chars@.subrange(k, k + 3) != needle,
        decreases chars.len() - i,
    {
        if chars[i] == 'd' && chars[i + 1] == 'a' && chars[i + 2] == 'y' {
            assert(chars@.subrange(i as int, i + 3) =~= needle);
            return true;
        }
        proof {
            let window = chars@.subrange(i as int, i + 3);
            assert(window[0] == chars@[i as int]);
            assert(window[1] == chars@[i + 1]);
            assert(window[2] == chars@[i + 2]);
        }
        i += 1;
    }
    false
}

/// Reads a retention such as `10 days` or `5`.
pub fn parse_retention(retention_str: &str) -> (r: (Option<u32>, Option<u32>))
    ensures
        r == retention_of(retention_str@),
{
    let chars = lowercase(&trimmed(&to_chars(retention_str)));
    if holds_day(&chars) {
        let mut digits: Vec<char> = Vec::new();
        let mut i: usize = 0;
        assert(chars@.take(0) =~= Seq::<char>::empty());
        while i < chars.len()
            invariant
                i <= chars.len(),
                digits@ == digits_in(chars@.take(i as int)),
            decreases chars.len() - i,
        {
            proof {
                assert(chars@.take(i + 1).drop_last() =~= chars@.take(i as int));
                assert(chars@.take(i + 1).last() == chars@[i as int]);
            }
            if char_is_digit(chars[i]) {
                digits.push(chars[i]);
            }
            i += 1;
        }
        assert(chars@.take(chars.len() as int) =~= chars@);
        assert(digits@.subrange(0, digits.len() as int) =~= digits@);
        if let Some(days) = parse_unsigned(&digits, 0, digits.len(), 0xffff_ffff) {
            return (Some(days as u32), None);
        }
    }
    assert(chars@.subrange(0, chars.len() as int) =~= chars@);
    match parse_unsigned(&chars, 0, chars.len(), 0xffff_ffff) {
        Some(count) => (None, Some(count as u32)),
        None => (None, None),
    }
}

/// The settings of a file sink.
#[derive(Clone, Debug)]
pub struct FileSinkConfig {
    pub path: String,
    pub rotation: Rotation,
    /// The size in bytes from which the file rotates.
    pub max_size: Option<u64>,
    /// Rotated files older than this many days are removed.
    pub retention_days: Option<u32>,
    /// No more than this many rotated files are kept.
    pub retention_count: Option<u32>,
    /// Whether rotated files are compressed.
    pub compression: bool,
    /// Whether lines go through a queue to a writer of their own.
    pub enqueue: bool,
}

impl Default for FileSinkConfig {
    fn default() -> (r: Self)
        ensures
            r.path@ == "app.log"@,
            r.rotation == Rotation::Never,
            r.max_size.is_none(),
            r.retention_days.is_none(),
            r.retention_count.is_none(),
            !r.compression,
            !r.enqueue,
    {
        FileSinkConfig {
            path: "app.log".to_string(),
            rotation: Rotation::Never,
            max_size: None,
            retention_days: None,
            retention_count: None,
            compression: false,
            enqueue: false,
        }
    }
}

impl FileSinkConfig {
    /// The settings of a sink as a call that adds one gives them: rotation and
    /// retention as texts, and what is left out is off.
    pub fn new(
        path: String,
        rotation: Option<&str>,
        retention: Option<&str>,
        compression: Option<bool>,
        enqueue: Option<bool>,
    ) -> (r: Self)
        ensures
            r.path == path,
            (r.rotation, r.max_size) == (match rotation {
                Some(text) => rotation_of(text@),
                None => (Rotation::Never, None),
            }),
            (r.retention_days, r.retention_count) == (match retention {
                Some(text) => retention_of(text@),
                None => (None, None),
            }),
            r.compression == (match compression {
                Some(c) => c,
                None => false,
            }),
            r.enqueue == (match enqueue {
                Some(e) => e,
                None => false,
            }),
    {
        let (time_rotation, max_size) = match rotation {
            Some(text) => parse_rotation(text),
            None => (Rotation::Never, None),
        };
        let (retention_days, retention_count) = match retention {
            Some(text) => parse_retention(text),
            None => (None, None),
        };
        FileSinkConfig {
            path,
            rotation: time_rotation,
            max_size,
            retention_days,
            retention_count,
            compression: match compression {
                Some(c) => c,
                None => false,
            },
            enqueue: match enqueue {
                Some(e) => e,
                None => false,
            },
        }
    }
}

/// The parts of a sink's path that names are made of.
#[derive(Clone, Debug)]
pub struct PathParts {
    /// The file's name without its extension.
    pub stem: String,
    pub extension: String,
    /// The file's name with its extension.
    pub file_name: String,
}

impl PathParts {
    /// The parts of a path; `log` stands for a stem or an extension that the
    /// path does not have, and the empty text for a file name that it does not
    /// have.
    pub fn new(stem: Option<String>, extension: Option<String>, file_name: Option<String>) -> (r: Self)
        ensures
            r.stem@ == (match stem {
                Some(s) => s@,
                None => "log"@,
            }),
            r.extension@ == (match extension {
                Some(e) => e@,
                None => "log"@,
            }),
            r.file_name@ == (match file_name {
                Some(f) => f@,
                None => Seq::<char>::empty(),
            }),
    {
        PathParts {
            stem: match stem {
                Some(s) => s,
                None => "log".to_string(),
            },
            extension: match extension {
                Some(e) => e,
                None => "log".to_string(),
            },
            file_name: match file_name {
                Some(f) => f,
                None => String::new(),
            },
        }
    }
}

/// The format of the time in the name of a rotated file.
pub const ROTATED_TIME_FORMAT: &'static str = "%Y-%m-%d_%H-%M-%S";

/// The name of a rotated file: stem, time and extension with points between them.
pub open spec fn rotated_name(stem: Seq<char>, time: Seq<char>, extension: Seq<char>) -> Seq<char> {
    stem + seq!['.'] + time + seq!['.'] + extension
}

/// The name of a compressed file: the name of the file and `.gz`.
pub open spec fn compressed_name(name: Seq<char>) -> Seq<char> {
    name + ".gz"@
}

/// The name under which a file is put aside at `time`.
pub fn rotated_file_name(parts: &PathParts, time: &Timestamp) -> (r: String)
    ensures
        r@ == rotated_name(parts.stem@, time_text(*time, ROTATED_TIME_FORMAT@), parts.extension@),
{
    let stamp = format_time(time, ROTATED_TIME_FORMAT);
    let mut r = parts.stem.clone();
    crate::text::push_char(&mut r, '.');
    r.append(stamp.as_str());
    crate::text::push_char(&mut r, '.');
    r.append(parts.extension.as_str());
    r
}

/// The name of the compressed form of a file.
pub fn compressed_file_name(name: &str) -> (r: String)
    ensures
        r@ == compressed_name(name@),
{
    let mut r = name.to_string();
    r.append(".gz");
    r
}

/// The next time at which a file rotates by the clock, as seconds on the local
/// clock: the next midnight, or the next top of an hour.
pub open spec fn local_boundary(rotation: Rotation, local_secs: int) -> Option<int> {
    match rotation {
        Rotation::Never => None,
        Rotation::Daily => Some((local_secs / 86_400 + 1) * 86_400),
        Rotation::Hourly => Some((local_secs / 3_600 + 1) * 3_600),
    }
}

/// The start of the span of `span` seconds that follows the span in which
/// `secs` lies.
fn next_multiple(secs: i128, span: i128) -> (r: i128)
    requires
        span == 86_400 || span == 3_600,
        -0x1_0000_0000_0000_0000 <= secs <= 0x1_0000_0000_0000_0000,
    ensures
        r == (secs / span + 1) * span,
{
    let floor: i128 = if secs >= 0 {
        secs / span
    } else {
        -((-secs + span - 1) / span)
    };
    (floor + 1) * span
}

/// The next time at which a file rotates by the clock, as seconds on the local
/// clock; `None` where there is none or it is beyond what 64 bits hold.
pub fn next_local_boundary(rotation: Rotation, local_secs: i64) -> (r: Option<i64>)
    ensures
        r == (match local_boundary(rotation, local_secs as int) {
            Some(b) => if b <= i64::MAX {
                Some(b as i64)
            } else {
                None
            },
            None => None,
        }),
{
    let next: i128 = match rotation {
        Rotation::Never => {
            return None;
        },
        Rotation::Daily => next_multiple(local_secs as i128, 86_400),
        Rotation::Hourly => next_multiple(local_secs as i128, 3_600),
    };
    if next <= i64::MAX as i128 {
        Some(next as i64)
    } else {
        None
    }
}

/// What can be said of the instant at which a file rotates next, whatever the
/// local time zone: there is none without a rotation by the clock; where there
/// is one, the local clock shows the next boundary at it.
pub open spec fn is_boundary_after(rotation: Rotation, from: Timestamp, next: Option<Timestamp>) -> bool {
    match next {
        Some(t) => local_boundary(rotation, from.local_secs()) == Some(t.local_secs()) && t.nanos == 0,
        None => true,
    }
}

/// The next boundary lies in the future on the local clock, and no further
/// away than a day, or an hour for a file that rotates by the hour.
pub proof fn lemma_boundary_is_later(rotation: Rotation, local_secs: int)
    ensures
        match local_boundary(rotation, local_secs) {
            Some(b) => local_secs < b && b - local_secs <= (if rotation == Rotation::Hourly {
                3_600int
            } else {
                86_400int
            }),
            None => rotation == Rotation::Never,
        },
{
}

/// The instant at which a file rotates next after `from`. There is none where
/// the local clock skips the boundary or shows it twice, and none for a
/// boundary before 1970 or after the year 9999.
pub fn calculate_next_rotation_boundary(rotation: &Rotation, from: &Timestamp) -> (r: Option<Timestamp>)
    ensures
        is_boundary_after(*rotation, *from, r),
        *rotation == Rotation::Never ==> r.is_none(),
        match local_boundary(*rotation, from.local_secs()) {
            Some(b) => !(0 <= b <= LAST_LOCAL_SECOND) ==> r.is_none(),
            None => r.is_none(),
        },
        match r {
            Some(t) => t.local_secs() > from.local_secs(),
            None => true,
        },
{
    proof {
        lemma_boundary_is_later(*rotation, from.local_secs());
    }
    let local: i128 = from.secs as i128 + from.offset_secs as i128;
    if local < i64::MIN as i128 || local > i64::MAX as i128 {
        return None;
    }
    match next_local_boundary(*rotation, local as i64) {
        Some(boundary) => instant_of_local(boundary),
        None => None,
    }
}

/// The boundary as a sink holds it: in milliseconds, and zero for none.
pub open spec fn boundary_millis(next: Option<Timestamp>) -> i64 {
    match next {
        Some(t) => clamp_i64(t.millis()),
        None => 0,
    }
}

/// The size of a file after one more line: the bytes of the message and one
/// for the end of the line are added, and what passes 64 bits starts again at
/// zero.
pub open spec fn grown_size(size: u64, bytes: usize) -> u64 {
    ((size + bytes + 1) % 0x1_0000_0000_0000_0000) as u64
}

/// What has to be done to put the current file aside.
#[derive(Debug)]
pub struct RotationPlan {
    /// The name, in the directory of the current file, that the file takes.
    pub rotated_name: String,
    /// The name of the compressed file that then takes its place, where the
    /// sink compresses.
    pub compressed_name: Option<String>,
}

/// What has to be done to write one line.
#[derive(Debug)]
pub struct WritePlan {
    /// The rotation that comes first, where one is due.
    pub rotation: Option<RotationPlan>,
    /// What goes to the writer.
    pub message: WriterMessage,
}

/// What a file sink keeps count of: the size of its file and the next
/// boundary. Files are opened, written and renamed where the sink is used.
#[derive(Debug)]
pub struct FileSink {
    config: FileSinkConfig,
    parts: PathParts,
    current_size: u64,
    current_file_time: Timestamp,
    next_rotation_boundary: i64,
}

impl FileSink {
    pub closed spec fn settings(&self) -> FileSinkConfig {
        self.config
    }

    pub closed spec fn path_parts(&self) -> PathParts {
        self.parts
    }

    /// Bytes written to the current file.
    pub closed spec fn size(&self) -> u64 {
        self.current_size
    }

    /// When the current file was begun.
    pub closed spec fn file_time(&self) -> Timestamp {
        self.current_file_time
    }

    /// The next boundary in milliseconds since the epoch; zero for none.
    pub closed spec fn boundary(&self) -> i64 {
        self.next_rotation_boundary
    }

    /// Whether the boundary is one that follows from the rotation and `from`.
    pub open spec fn boundary_follows(&self, from: Timestamp) -> bool {
        exists|next: Option<Timestamp>| #[trigger]
            is_boundary_after(self.settings().rotation, from, next) && (self.settings().rotation
                == Rotation::Never ==> next.is_none()) && self.boundary() == boundary_millis(next)
    }

    /// Whether the file has to rotate before a write at `now_millis`: it has
    /// reached the size from which it rotates, or the boundary has come.
    pub open spec fn rotation_needed(&self, now_millis: i64) -> bool {
        ||| (self.settings().max_size.is_some() && self.size() >= self.settings().max_size.unwrap())
        ||| (self.boundary() > 0 && now_millis >= self.boundary())
    }

    /// Whether a write at `now` begins with a rotation.
    pub open spec fn rotation_due(&self, now: Timestamp) -> bool {
        (self.settings().rotation != Rotation::Never || self.settings().max_size.is_some())
            && self.rotation_needed(clamp_i64(now.millis()))
    }

    /// The plan of a rotation at `now`.
    pub open spec fn is_plan(&self, now: Timestamp, plan: RotationPlan) -> bool {
        &&& plan.rotated_name@ == rotated_name(
            self.path_parts().stem@,
            time_text(now, ROTATED_TIME_FORMAT@),
            self.path_parts().extension@,
        )
        &&& match plan.compressed_name {
            Some(name) => self.settings().compression && name@ == compressed_name(plan.rotated_name@),
            None => !self.settings().compression,
        }
    }

    /// A sink for a file that holds `existing_size` bytes at `now`.
    pub fn new(config: FileSinkConfig, parts: PathParts, existing_size: u64, now: Timestamp) -> (r: Self)
        ensures
            r.settings() == config,
            r.path_parts() == parts,
            r.size() == existing_size,
            r.file_time() == now,
            r.boundary_follows(now),
    {
        let next = calculate_next_rotation_boundary(&config.rotation, &now);
        let boundary = match next {
            Some(t) => t.timestamp_millis(),
            None => 0,
        };
        let r = FileSink {
            config,
            parts,
            current_size: existing_size,
            current_file_time: now,
            next_rotation_boundary: boundary,
        };
        assert(is_boundary_after(r.settings().rotation, now, next));
        r
    }

    pub fn config(&self) -> (r: &FileSinkConfig)
        ensures
            *r == self.settings(),
    {
        &self.config
    }

    pub fn parts(&self) -> (r: &PathParts)
        ensures
            *r == self.path_parts(),
    {
        &self.parts
    }

    pub fn current_size(&self) -> (r: u64)
        ensures
            r == self.size(),
    {
        self.current_size
    }

    pub fn current_file_time(&self) -> (r: Timestamp)
        ensures
            r == self.file_time(),
    {
        self.current_file_time
    }

    pub fn next_rotation_boundary(&self) -> (r: i64)
        ensures
            r == self.boundary(),
    {
        self.next_rotation_boundary
    }

    /// Whether the file has to rotate before a write at `now_millis`.
    pub fn check_rotation_needed(&self, now_millis: i64) -> (r: bool)
        ensures
            r == self.rotation_needed(now_millis),
    {
        if let Some(max_size) = self.config.max_size {
            if self.current_size >= max_size {
                return true;
            }
        }
        self.next_rotation_boundary > 0 && now_millis >= self.next_rotation_boundary
    }

    /// The rotation that a write at `now` begins with, where one is due.
    pub fn maybe_rotate(&self, now: &Timestamp) -> (r: Option<RotationPlan>)
        ensures
            r.is_some() == self.rotation_due(*now),
            match r {
                Some(plan) => self.is_plan(*now, plan),
                None => true,
            },
    {
        if self.config.rotation == Rotation::Never && self.config.max_size.is_none() {
            return None;
        }
        if self.check_rotation_needed(now.timestamp_millis()) {
            Some(self.plan_rotation(now))
        } else {
            None
        }
    }

    /// What has to be done to put the current file aside at `now`.
    pub fn plan_rotation(&self, now: &Timestamp) -> (plan: RotationPlan)
        ensures
            self.is_plan(*now, plan),
    {
        let rotated = rotated_file_name(&self.parts, now);
        let compressed = if self.config.compression {
            Some(compressed_file_name(rotated.as_str()))
        } else {
            None
        };
        RotationPlan { rotated_name: rotated, compressed_name: compressed }
    }

    /// Takes note that the file was put aside at `now` and a new one begun:
    /// the size is zero again, which is below any size from which the file
    /// rotates but zero, and the next boundary follows from `now`.
    pub fn rotated(&mut self, now: &Timestamp)
        ensures
            final(self).settings() == old(self).settings(),
            final(self).path_parts() == old(self).path_parts(),
            final(self).size() == 0,
            final(self).file_time() == *now,
            final(self).boundary_follows(*now),
            match final(self).settings().max_size {
                Some(max_size) => max_size > 0 ==> final(self).size() < max_size,
                None => true,
            },
    {
        let next = calculate_next_rotation_boundary(&self.config.rotation, now);
        self.current_size = 0;
        self.current_file_time = *now;
        self.next_rotation_boundary = match next {
            Some(t) => t.timestamp_millis(),
            None => 0,
        };
        assert(is_boundary_after(self.settings().rotation, *now, next));
    }

    /// Takes note that a line was written whose message has `bytes` bytes: the
    /// size grows by the bytes of the message and one for the end of the line,
    /// and starts again at zero where it passes what 64 bits hold.
    pub fn written(&mut self, bytes: usize)
        ensures
            final(self).settings() == old(self).settings(),
            final(self).path_parts() == old(self).path_parts(),
            final(self).file_time() == old(self).file_time(),
            final(self).boundary() == old(self).boundary(),
            final(self).size() == grown_size(old(self).size(), bytes),
    {
        let grown: u64 = (bytes as u64).wrapping_add(1);
        self.current_size = self.current_size.wrapping_add(grown);
    }

    /// What has to be done to write `message` at `now`: a rotation where one
    /// is due, and then the line.
    pub fn write(&self, message: &str, now: &Timestamp) -> (plan: WritePlan)
        ensures
            plan.rotation.is_some() == self.rotation_due(*now),
            match plan.rotation {
                Some(rotation) => self.is_plan(*now, rotation),
                None => true,
            },
            match plan.message {
                WriterMessage::Write(line) => line@ == message@,
                _ => false,
            },
    {
        WritePlan { rotation: self.maybe_rotate(now), message: WriterMessage::Write(message.to_string()) }
    }

    /// As `write`, for a message that is given away.
    pub fn write_owned(&self, message: String, now: &Timestamp) -> (plan: WritePlan)
        ensures
            plan.rotation.is_some() == self.rotation_due(*now),
            match plan.rotation {
                Some(rotation) => self.is_plan(*now, rotation),
                None => true,
            },
            plan.message == WriterMessage::Write(message),
    {
        WritePlan { rotation: self.maybe_rotate(now), message: WriterMessage::Write(message) }
    }

    /// What goes to the writer to have pending lines written out.
    pub fn flush(&self) -> (r: WriterMessage)
        ensures
            r == WriterMessage::Flush,
    {
        WriterMessage::Flush
    }
}

/// A write at or after the boundary of a sink that rotates by the clock begins
/// with a rotation, and the time of that write is the time in the name of the
/// file that is put aside.
pub proof fn lemma_write_after_boundary(sink: FileSink, now: Timestamp, plan: WritePlan)
    requires
        sink.settings().rotation != Rotation::Never,
        sink.boundary() > 0,
        clamp_i64(now.millis()) >= sink.boundary(),
        plan.rotation.is_some() == sink.rotation_due(now),
        match plan.rotation {
            Some(rotation) => sink.is_plan(now, rotation),
            None => true,
        },
    ensures
        plan.rotation.is_some(),
        plan.rotation.unwrap().rotated_name@ == rotated_name(
            sink.path_parts().stem@,
            time_text(now, ROTATED_TIME_FORMAT@),
            sink.path_parts().extension@,
        ),
{
}

/// A write before the boundary of a sink that rotates by the clock alone
/// begins with no rotation.
pub proof fn lemma_write_before_boundary(sink: FileSink, now: Timestamp)
    requires
        sink.settings().max_size.is_none(),
        clamp_i64(now.millis()) < sink.boundary(),
    ensures
        !sink.rotation_due(now),
{
}

} // verus!
