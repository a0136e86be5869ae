//! Number literals.

use vstd::arithmetic::power::{
    lemma_pow0, lemma_pow1, lemma_pow_adds, lemma_pow_increases, lemma_pow_multiplies,
    lemma_pow_positive, lemma_pow_strictly_increases, pow,
};
use vstd::prelude::*;

use crate::sql_parser::text::chars_of;

verus! {

/// Whether a character is a decimal digit.
pub open spec fn is_digit(c: char) -> bool {
    '0' <= c && c <= '9'
}

/// The value of a decimal digit.
pub open spec fn digit_value(c: char) -> int {
    c as int - 48
}

/// The integer that the digits of `s` from `k` on make after `acc`, or why it
/// cannot be read as one up to `max`: the first digit that is none, or too many
/// digits before it.
pub open spec fn read_digits(s: Seq<char>, k: int, acc: int, max: int) -> Result<int, Seq<char>>
    decreases s.len() - k,
{
    if k >= s.len() {
        Ok(acc)
    } else if !is_digit(s[k]) {
        Err("invalid digit found in string"@)
    } else if acc * 10 + digit_value(s[k]) > max {
        Err("number too large to fit in target type"@)
    } else {
        read_digits(s, k + 1, acc * 10 + digit_value(s[k]), max)
    }
}

/// The integer up to `max` that `s` writes, or why it writes none.
pub open spec fn read_integer(s: Seq<char>, max: int) -> Result<int, Seq<char>> {
    if s.len() == 0 {
        Err("cannot parse integer from empty string"@)
    } else {
        read_digits(s, 0, 0, max)
    }
}

/// The unsigned integer that `s` writes, or why it writes none.
#[verifier::opaque]
pub open spec fn parse_uint(s: Seq<char>) -> Result<u64, Seq<char>> {
    match read_integer(s, u64::MAX as int) {
        Ok(n) => Ok(n as u64),
        Err(why) => Err(why),
    }
}

/// The signed integer that `s` writes, or why it writes none.
#[verifier::opaque]
pub open spec fn parse_int(s: Seq<char>) -> Result<i64, Seq<char>> {
    match read_integer(s, i64::MAX as int) {
        Ok(n) => Ok(n as i64),
        Err(why) => Err(why),
    }
}

fn read_integer_text(s: &str, max: u64) -> (r: Result<u64, String>)
    ensures
        match r {
            Ok(n) => read_integer(s@, max as int) == Ok::<int, Seq<char>>(n as int) && n <= max,
            Err(why) => read_integer(s@, max as int) == Err::<int, Seq<char>>(why@),
        },
{
    let cs = chars_of(s);
    if cs.len() == 0 {
        return Err(String::from_str("cannot parse integer from empty string"));
    }
    let mut acc: u64 = 0;
    let mut k: usize = 0;
    while k < cs.len()
        invariant
            k <= cs.len(),
            cs@ == s@,
            s@.len() > 0,
            acc <= max,
            read_digits(s@, k as int, acc as int, max as int) == read_integer(s@, max as int),
        decreases cs.len() - k,
    {
        let c = cs[k];
        if !('0' <= c && c <= '9') {
            return Err(String::from_str("invalid digit found in string"));
        }
        let d: u64 = (c as u32 - 48) as u64;
        if d > max || acc > (max - d) / 10 {
            return Err(String::from_str("number too large to fit in target type"));
        }
        acc = acc * 10 + d;
        k += 1;
    }
    Ok(acc)
}

/// The unsigned integer that `s` writes, or why it writes none.
pub fn parse_uint_text(s: &str) -> (r: Result<u64, String>)
    ensures
        match r {
            Ok(n) => parse_uint(s@) == Ok::<u64, Seq<char>>(n),
            Err(why) => parse_uint(s@) == Err::<u64, Seq<char>>(why@),
        },
{
    proof {
        reveal(parse_uint);
    }
    read_integer_text(s, u64::MAX)
}

/// The signed integer that `s` writes, or why it writes none.
pub fn parse_int_text(s: &str) -> (r: Result<i64, String>)
    ensures
        match r {
            Ok(n) => parse_int(s@) == Ok::<i64, Seq<char>>(n),
            Err(why) => parse_int(s@) == Err::<i64, Seq<char>>(why@),
        },
{
    proof {
        reveal(parse_int);
    }
    match read_integer_text(s, i64::MAX as u64) {
        Ok(n) => Ok(n as i64),
        Err(why) => Err(why),
    }
}

/// Where the digits end that start at `k`.
pub open spec fn digits_end(s: Seq<char>, k: int) -> int
    decreases s.len() - k,
{
    if 0 <= k < s.len() && is_digit(s[k]) {
        digits_end(s, k + 1)
    } else {
        k
    }
}

/// The integer that digits write.
pub open spec fn digits_value(s: Seq<char>) -> int
    decreases s.len(),
{
    if s.len() == 0 {
        0
    } else {
        digits_value(s.drop_last()) * 10 + digit_value(s.last())
    }
}

/// A number literal read as an integer times a power of ten.
pub struct Scaled {
    pub integer: int,
    pub exponent: int,
}

/// Where the mantissa of a number literal ends.
pub open spec fn mantissa_end(s: Seq<char>) -> int {
    let whole = digits_end(s, 0);
    if whole < s.len() && s[whole] == '.' {
        digits_end(s, whole + 1)
    } else {
        whole
    }
}

/// The digits of the mantissa of a number literal, without the point.
pub open spec fn mantissa_digits(s: Seq<char>) -> Seq<char> {
    let whole = digits_end(s, 0);
    if whole < s.len() && s[whole] == '.' {
        s.subrange(0, whole) + s.subrange(whole + 1, mantissa_end(s))
    } else {
        s.subrange(0, whole)
    }
}

/// How many digits of the mantissa follow the point.
pub open spec fn fraction_len(s: Seq<char>) -> int {
    mantissa_digits(s).len() - digits_end(s, 0)
}

/// The exponent that is written from `k` on, if one is: `e`, a sign or none, and
/// digits up to the end.
pub open spec fn written_exponent(s: Seq<char>, k: int) -> Option<int> {
    if k == s.len() {
        Some(0)
    } else if s[k] == 'e' || s[k] == 'E' {
        let minus = k + 1 < s.len() && s[k + 1] == '-';
        let signed = minus || (k + 1 < s.len() && s[k + 1] == '+');
        let start = if signed { k + 2 } else { k + 1 };
        if start < s.len() && digits_end(s, start) == s.len() {
            let v = digits_value(s.subrange(start, s.len() as int));
            Some(if minus { -v } else { v })
        } else {
            None
        }
    } else {
        None
    }
}

/// A number literal as an integer times a power of ten, if it is one.
pub open spec fn scaled(s: Seq<char>) -> Option<Scaled> {
    if mantissa_digits(s).len() == 0 {
        None
    } else {
        match written_exponent(s, mantissa_end(s)) {
            Some(e) => Some(
                Scaled { integer: digits_value(mantissa_digits(s)), exponent: e - fraction_len(s) },
            ),
            None => None,
        }
    }
}

/// Whether a number is not zero once it is rounded to a 64-bit binary floating
/// point number: it is greater than half of the least such number above zero,
/// which is two to the power of -1074.
pub open spec fn rounds_above_zero(n: Scaled) -> bool {
    if n.exponent >= 0 {
        n.integer > 0
    } else {
        n.integer * pow(2, 1075) > pow(10, (-n.exponent) as nat)
    }
}

/// Whether a number literal denotes a number other than zero, if it is a number.
#[verifier::opaque]
pub open spec fn number_kind(s: Seq<char>) -> Option<bool> {
    match scaled(s) {
        Some(n) => Some(rounds_above_zero(n)),
        None => None,
    }
}

/// The integer that decimal digits make, the least significant first.
spec fn val(v: Seq<u8>) -> int
    decreases v.len(),
{
    if v.len() == 0 {
        0
    } else {
        val(v.drop_last()) + v.last() * pow(10, (v.len() - 1) as nat)
    }
}

spec fn are_digits(v: Seq<u8>) -> bool {
    forall|k: int| 0 <= k < v.len() ==> #[trigger] v[k] < 10
}

proof fn lemma_pow10_step(n: nat)
    ensures
        pow(10, n + 1) == 10 * pow(10, n),
        pow(10, n) > 0,
{
    lemma_pow_positive(10, n);
    reveal(pow);
}

proof fn lemma_val_bound(v: Seq<u8>)
    requires
        are_digits(v),
    ensures
        0 <= val(v) < pow(10, v.len()),
    decreases v.len(),
{
    if v.len() == 0 {
        lemma_pow0(10);
    } else {
        let p = pow(10, (v.len() - 1) as nat);
        lemma_val_bound(v.drop_last());
        lemma_pow10_step((v.len() - 1) as nat);
        assert(0 <= v.last() * p <= 9 * p) by (nonlinear_arith)
            requires
                0 <= v.last() <= 9,
                p > 0,
        ;
    }
}

proof fn lemma_val_zero(v: Seq<u8>)
    requires
        are_digits(v),
    ensures
        (val(v) == 0) == (forall|k: int| 0 <= k < v.len() ==> #[trigger] v[k] == 0),
    decreases v.len(),
{
    if v.len() > 0 {
        let w = v.drop_last();
        let p = pow(10, (v.len() - 1) as nat);
        lemma_val_zero(w);
        lemma_val_bound(w);
        lemma_pow10_step((v.len() - 1) as nat);
        assert((v.last() * p == 0) == (v.last() == 0)) by (nonlinear_arith)
            requires
                0 <= v.last(),
                p > 0,
        ;
        assert(v.last() * p >= 0) by (nonlinear_arith)
            requires
                0 <= v.last(),
                p > 0,
        ;
        assert(forall|k: int| 0 <= k < w.len() ==> w[k] == #[trigger] v[k]);
        if v.last() == 0 && val(w) == 0 {
            assert forall|k: int| 0 <= k < v.len() implies #[trigger] v[k] == 0 by {
                if k < w.len() {
                    assert(w[k] == 0);
                }
            }
        }
    }
}

proof fn lemma_val_high_zeros(v: Seq<u8>, h: int)
    requires
        0 <= h <= v.len(),
        forall|k: int| h <= k < v.len() ==> #[trigger] v[k] == 0,
    ensures
        val(v) == val(v.take(h)),
    decreases v.len(),
{
    if h == v.len() {
        assert(v.take(h) =~= v);
    } else {
        lemma_val_high_zeros(v.drop_last(), h);
        assert(v.drop_last().take(h) =~= v.take(h));
        assert(v.last() * pow(10, (v.len() - 1) as nat) == 0) by (nonlinear_arith)
            requires
                v.last() == 0,
        ;
    }
}

/// The number twice as large.
fn double(v: &Vec<u8>) -> (r: Vec<u8>)
    requires
        are_digits(v@),
    ensures
        are_digits(r@),
        val(r@) == 2 * val(v@),
{
    let mut out: Vec<u8> = Vec::new();
    let mut carry: u8 = 0;
    let mut i: usize = 0;
    proof {
        lemma_pow0(10);
    }
    while i < v.len()
        invariant
            i <= v.len(),
            out.len() == i,
            carry <= 1,
            are_digits(v@),
            are_digits(out@),
            val(out@) + carry * pow(10, i as nat) == 2 * val(v@.take(i as int)),
        decreases v.len() - i,
    {
        let d: u8 = v[i];
        assert(v@[i as int] < 10);
        let x: u8 = 2 * d + carry;
        let ghost before = out@;
        let low: u8 = x % 10;
        let high: u8 = x / 10;
        out.push(low);
        proof {
            let p = pow(10, i as nat);
            lemma_pow10_step(i as nat);
            assert(out@.drop_last() =~= before);
            assert(v@.take(i + 1).drop_last() =~= v@.take(i as int));
            assert(low * p + high * (10 * p) == 2 * (d * p) + carry * p) by (nonlinear_arith)
                requires
                    low + 10 * high == 2 * d + carry,
            ;
        }
        carry = high;
        i += 1;
    }
    assert(v@.take(i as int) =~= v@);
    if carry > 0 {
        let ghost before = out@;
        out.push(carry);
        assert(out@.drop_last() =~= before);
    }
    out
}

/// Whether the number is greater than ten to the power of `k`.
fn exceeds_power(v: &Vec<u8>, k: u128) -> (r: bool)
    requires
        are_digits(v@),
    ensures
        r == (val(v@) > pow(10, k as nat)),
{
    let mut h: usize = v.len();
    while h > 0 && v[h - 1] == 0
        invariant
            h <= v.len(),
            forall|j: int| h <= j < v.len() ==> #[trigger] v@[j] == 0,
        decreases h,
    {
        h -= 1;
    }
    proof {
        lemma_val_high_zeros(v@, h as int);
        assert(are_digits(v@.take(h as int))) by {
            assert forall|j: int| 0 <= j < h implies #[trigger] v@.take(h as int)[j] < 10 by {
                assert(v@[j] < 10);
            }
        }
        lemma_val_bound(v@.take(h as int));
    }
    if h as u128 <= k {
        proof {
            lemma_pow_increases(10, h as nat, k as nat);
        }
        return false;
    }
    let ghost t = v@.take(h as int);
    let ghost p = pow(10, (h - 1) as nat);
    let top: u8 = v[h - 1];
    proof {
        assert(t.drop_last() =~= v@.take(h - 1));
        assert(are_digits(t.drop_last())) by {
            assert forall|j: int| 0 <= j < h - 1 implies #[trigger] t.drop_last()[j] < 10 by {
                assert(v@[j] < 10);
            }
        }
        lemma_val_bound(t.drop_last());
        lemma_val_zero(t.drop_last());
        lemma_pow10_step((h - 1) as nat);
        assert(top * p >= p && (top >= 2 ==> top * p >= 2 * p) && (top == 1 ==> top * p == p)) by (nonlinear_arith)
            requires
                top >= 1,
                p > 0,
        ;
    }
    if (h - 1) as u128 > k {
        proof {
            lemma_pow_strictly_increases(10, k as nat, (h - 1) as nat);
        }
        return true;
    }
    if top > 1 {
        return true;
    }
    let mut j: usize = 0;
    #[verifier::loop_isolation(false)]
    while j < h - 1
        invariant
            j <= h - 1,
            forall|m: int| 0 <= m < j ==> #[trigger] v@[m] == 0,
        decreases h - 1 - j,
    {
        if v[j] != 0 {
            proof {
                assert(t.drop_last()[j as int] != 0);
            }
            return true;
        }
        j += 1;
    }
    proof {
        assert forall|m: int| 0 <= m < t.drop_last().len() implies #[trigger] t.drop_last()[m] == 0 by {
            assert(v@[m] == 0);
        }
    }
    false
}

/// Two to the power of 1075 lies between two powers of ten.
proof fn lemma_two_to_1075()
    ensures
        pow(2, 1075) > pow(10, 321),
        pow(2, 1075) < pow(10, 539),
{
    lemma_pow_positive(2, 5);
    lemma_pow_positive(10, 1);
    lemma_thousands(107);
    lemma_pow_multiplies(2, 10, 107);
    lemma_pow_multiplies(10, 3, 107);
    lemma_pow_adds(2, 1070, 5);
    assert(pow(2, 10) == 1024 && pow(2, 5) == 32) by {
        reveal_with_fuel(pow, 11);
    }
    assert(pow(10, 3) == 1000) by {
        reveal_with_fuel(pow, 4);
    }
    lemma_hundreds(268);
    lemma_pow_multiplies(2, 4, 268);
    lemma_pow_multiplies(10, 2, 268);
    lemma_pow_adds(2, 1072, 3);
    lemma_pow_adds(10, 536, 3);
    assert(pow(2, 4) == 16 && pow(2, 3) == 8) by {
        reveal_with_fuel(pow, 5);
    }
    assert(pow(10, 2) == 100) by {
        reveal_with_fuel(pow, 3);
    }
    lemma_pow_positive(2, 1072);
    lemma_pow_positive(10, 536);
    assert(pow(2, 1072) * 8 < pow(10, 536) * 1000) by (nonlinear_arith)
        requires
            0 < pow(2, 1072) <= pow(10, 536),
    ;
    assert(pow(2, 1070) * 32 > pow(10, 321)) by (nonlinear_arith)
        requires
            pow(2, 1070) >= pow(10, 321),
            pow(10, 321) > 0,
    ;
}

proof fn lemma_thousands(n: nat)
    ensures
        pow(1024, n) >= pow(1000, n) > 0,
    decreases n,
{
    lemma_pow_positive(1000, n);
    if n == 0 {
        lemma_pow0(1024);
        lemma_pow0(1000);
    } else {
        lemma_thousands((n - 1) as nat);
        reveal(pow);
        assert(1024 * pow(1024, (n - 1) as nat) >= 1000 * pow(1000, (n - 1) as nat)) by (nonlinear_arith)
            requires
                pow(1024, (n - 1) as nat) >= pow(1000, (n - 1) as nat) > 0,
        ;
    }
}

proof fn lemma_hundreds(n: nat)
    ensures
        0 < pow(16, n) <= pow(100, n),
    decreases n,
{
    lemma_pow_positive(16, n);
    if n == 0 {
        lemma_pow0(16);
        lemma_pow0(100);
    } else {
        lemma_hundreds((n - 1) as nat);
        reveal(pow);
        assert(16 * pow(16, (n - 1) as nat) <= 100 * pow(100, (n - 1) as nat)) by (nonlinear_arith)
            requires
                0 < pow(16, (n - 1) as nat) <= pow(100, (n - 1) as nat),
        ;
    }
}

/// What the digits of `s` are worth, the least significant first.
spec fn reversed_digits(s: Seq<char>) -> Seq<u8> {
    Seq::new(s.len(), |k: int| digit_value(s[s.len() - 1 - k]) as u8)
}

spec fn all_digits(s: Seq<char>) -> bool {
    forall|k: int| 0 <= k < s.len() ==> is_digit(#[trigger] s[k])
}

proof fn lemma_digits_value(s: Seq<char>)
    requires
        all_digits(s),
    ensures
        val(reversed_digits(s)) == digits_value(s),
        are_digits(reversed_digits(s)),
        digits_value(s) >= 0,
    decreases s.len(),
{
    let r = reversed_digits(s);
    assert(are_digits(r)) by {
        assert forall|k: int| 0 <= k < r.len() implies #[trigger] r[k] < 10 by {
            assert(is_digit(s[s.len() - 1 - k]));
        }
    }
    lemma_val_bound(r);
    if s.len() > 0 {
        lemma_digits_value(s.drop_last());
        let w = reversed_digits(s.drop_last());
        lemma_val_shift(w, r[0]);
        assert(is_digit(s[s.len() - 1]));
        assert(r =~= seq![r[0]] + w) by {
            assert forall|k: int| 0 < k < r.len() implies r[k] == w[k - 1] by {
                assert(s.drop_last()[s.len() - 2 - (k - 1)] == s[s.len() - 1 - k]);
            }
        }
    }
}

proof fn lemma_val_shift(w: Seq<u8>, d: u8)
    ensures
        val(seq![d] + w) == d + 10 * val(w),
    decreases w.len(),
{
    lemma_pow0(10);
    let v = seq![d] + w;
    if w.len() == 0 {
        assert(v =~= seq![d]);
        assert(v.drop_last() =~= Seq::<u8>::empty());
        assert(v.last() * pow(10, 0) == v.last()) by (nonlinear_arith)
            requires
                pow(10, 0) == 1,
        ;
        assert(val(v.drop_last()) == 0);
        assert(val(w) == 0);
    } else {
        lemma_val_shift(w.drop_last(), d);
        assert(v.drop_last() =~= seq![d] + w.drop_last());
        assert(v.last() == w.last());
        assert(val(v) == val(v.drop_last()) + w.last() * pow(10, w.len()));
        lemma_pow10_step((w.len() - 1) as nat);
        assert(w.last() * (10 * pow(10, (w.len() - 1) as nat)) == 10 * (w.last() * pow(
            10,
            (w.len() - 1) as nat,
        ))) by (nonlinear_arith);
    }
}

fn find_digits_end(cs: &Vec<char>, k: usize) -> (r: usize)
    requires
        k <= cs.len(),
    ensures
        r == digits_end(cs@, k as int),
        k <= r <= cs.len(),
        forall|j: int| k <= j < r ==> is_digit(#[trigger] cs@[j]),
{
    let mut i: usize = k;
    while i < cs.len() && '0' <= cs[i] && cs[i] <= '9'
        invariant
            k <= i <= cs.len(),
            digits_end(cs@, i as int) == digits_end(cs@, k as int),
            forall|j: int| k <= j < i ==> is_digit(#[trigger] cs@[j]),
        decreases cs.len() - i,
    {
        i += 1;
    }
    i
}

/// The integer that the digits from `from` up to `to` write, or `None` where it is
/// greater than `limit`.
fn capped_value(cs: &Vec<char>, from: usize, to: usize, limit: u128) -> (r: Option<u128>)
    requires
        from <= to <= cs.len(),
        forall|j: int| from <= j < to ==> is_digit(#[trigger] cs@[j]),
        limit <= 0xffff_ffff_ffff_ffff_ffff,
    ensures
        match r {
            Some(v) => v == digits_value(cs@.subrange(from as int, to as int)) && v <= limit,
            None => digits_value(cs@.subrange(from as int, to as int)) > limit,
        },
{
    let mut v: u128 = 0;
    let mut k: usize = from;
    while k < to
        invariant
            from <= k <= to <= cs.len(),
            forall|j: int| from <= j < to ==> is_digit(#[trigger] cs@[j]),
            limit <= 0xffff_ffff_ffff_ffff_ffff,
            v == digits_value(cs@.subrange(from as int, k as int)),
            v <= limit,
        decreases to - k,
    {
        let d: u128 = (cs[k] as u32 - 48) as u128;
        assert(cs@.subrange(from as int, k + 1).drop_last() =~= cs@.subrange(from as int, k as int));
        v = v * 10 + d;
        k += 1;
        if v > limit {
            proof {
                lemma_more_digits(cs@, from as int, k as int, to as int);
            }
            return None;
        }
    }
    Some(v)
}

proof fn lemma_more_digits(s: Seq<char>, from: int, k: int, to: int)
    requires
        0 <= from <= k <= to <= s.len(),
        forall|j: int| from <= j < to ==> is_digit(#[trigger] s[j]),
        digits_value(s.subrange(from, k)) >= 0,
    ensures
        digits_value(s.subrange(from, to)) >= digits_value(s.subrange(from, k)),
    decreases to - k,
{
    if k < to {
        lemma_more_digits(s, from, k, to - 1);
        assert(s.subrange(from, to).drop_last() =~= s.subrange(from, to - 1));
        assert(is_digit(s[to - 1]));
    }
}

/// Whether `m * 2^1075 > 10^k`, `m` being what the digits `digits` write.
fn exceeds(digits: &Vec<char>, k: u128) -> (r: bool)
    requires
        all_digits(digits@),
    ensures
        r == (digits_value(digits@) * pow(2, 1075) > pow(10, k as nat)),
{
    let ghost m = digits_value(digits@);
    let ghost big = pow(2, 1075);
    proof {
        lemma_digits_value(digits@);
        lemma_two_to_1075();
        lemma_pow_positive(2, 1075);
        lemma_pow_positive(10, k as nat);
        lemma_val_zero(reversed_digits(digits@));
        lemma_val_bound(reversed_digits(digits@));
    }
    let mut v: Vec<u8> = Vec::new();
    let mut positive = false;
    let mut i: usize = digits.len();
    while i > 0
        invariant
            i <= digits.len(),
            all_digits(digits@),
            v.len() == digits.len() - i,
            v@ == reversed_digits(digits@).take(digits.len() - i),
            positive == exists|j: int| 0 <= j < v.len() && #[trigger] v@[j] != 0,
        decreases i,
    {
        i -= 1;
        assert(is_digit(digits@[i as int]));
        let d: u8 = (digits[i] as u32 - 48) as u8;
        let ghost before = v@;
        v.push(d);
        proof {
            assert(v@ =~= reversed_digits(digits@).take(digits.len() - i));
            if d != 0 {
                assert(v@[v.len() - 1] != 0);
            } else if positive {
                let w = choose|j: int| 0 <= j < before.len() && #[trigger] before[j] != 0;
                assert(v@[w] != 0);
            } else {
                assert forall|j: int| 0 <= j < v.len() implies #[trigger] v@[j] == 0 by {
                    if j < before.len() {
                        assert(before[j] == 0);
                    }
                }
            }
        }
        if d != 0 {
            positive = true;
        }
    }
    assert(v@ =~= reversed_digits(digits@));
    if !positive {
        assert(m == 0);
        assert(m * big == 0) by (nonlinear_arith)
            requires
                m == 0,
        ;
        return false;
    }
    proof {
        assert(m >= 1);
        assert(m * big >= big) by (nonlinear_arith)
            requires
                m >= 1,
                big > 0,
        ;
    }
    if k <= 321 {
        proof {
            lemma_pow_increases(10, k as nat, 321);
        }
        return true;
    }
    if k >= digits.len() as u128 + 539 {
        proof {
            let n = digits@.len();
            lemma_pow_adds(10, n, 539);
            lemma_pow_increases(10, (n + 539) as nat, k as nat);
            lemma_pow_positive(10, n);
            lemma_pow_positive(10, 539);
            assert(m * big < pow(10, n) * pow(10, 539)) by (nonlinear_arith)
                requires
                    0 <= m < pow(10, n),
                    0 < big < pow(10, 539),
            ;
        }
        return false;
    }
    let mut n: usize = 0;
    proof {
        lemma_pow0(2);
    }
    while n < 1075
        invariant
            n <= 1075,
            are_digits(v@),
            val(v@) == m * pow(2, n as nat),
        decreases 1075 - n,
    {
        let ghost before = val(v@);
        v = double(&v);
        proof {
            lemma_pow_adds(2, n as nat, 1);
            lemma_pow1(2);
            assert(2 * (m * pow(2, n as nat)) == m * (pow(2, n as nat) * 2)) by (nonlinear_arith);
        }
        n += 1;
    }
    exceeds_power(&v, k)
}

/// Whether a number literal denotes a number other than zero, if it is a number.
pub fn nonzero_number(s: &str) -> (r: Option<bool>)
    ensures
        r == number_kind(s@),
{
    proof {
        reveal(number_kind);
    }
    let cs = chars_of(s);
    let whole = find_digits_end(&cs, 0);
    let mut digits: Vec<char> = Vec::new();
    let mut k: usize = 0;
    while k < whole
        invariant
            k <= whole <= cs.len(),
            digits@ == cs@.subrange(0, k as int),
        decreases whole - k,
    {
        digits.push(cs[k]);
        k += 1;
        assert(cs@.subrange(0, k as int) =~= cs@.subrange(0, k - 1).push(cs@[k - 1]));
    }
    let mut end: usize = whole;
    if whole < cs.len() && cs[whole] == '.' {
        end = find_digits_end(&cs, whole + 1);
        k = whole + 1;
        assert(cs@.subrange(0, whole as int) + cs@.subrange(whole + 1, k as int) =~= cs@.subrange(
            0,
            whole as int,
        ));
        while k < end
            invariant
                whole + 1 <= k <= end <= cs.len(),
                digits@ == cs@.subrange(0, whole as int) + cs@.subrange(whole + 1, k as int),
            decreases end - k,
        {
            digits.push(cs[k]);
            k += 1;
            assert(cs@.subrange(whole + 1, k as int) =~= cs@.subrange(whole + 1, k - 1).push(cs@[k - 1]));
            assert(digits@ =~= cs@.subrange(0, whole as int) + cs@.subrange(whole + 1, k as int));
        }
    }
    assert(digits@ == mantissa_digits(s@));
    proof {
        assert forall|j: int| 0 <= j < digits@.len() implies is_digit(#[trigger] digits@[j]) by {
            if j < whole {
                assert(is_digit(cs@[j]));
            } else {
                assert(is_digit(cs@[j + 1]));
            }
        }
        lemma_digits_value(digits@);
    }
    if digits.len() == 0 {
        return None;
    }
    let fraction: u128 = (digits.len() - whole) as u128;
    if end == cs.len() {
        if fraction == 0 {
            return Some(is_positive(&digits));
        }
        return Some(exceeds(&digits, fraction));
    }
    if !(cs[end] == 'e' || cs[end] == 'E') {
        return None;
    }
    let minus = end + 1 < cs.len() && cs[end + 1] == '-';
    let signed = minus || (end + 1 < cs.len() && cs[end + 1] == '+');
    let start: usize = if signed { end + 2 } else { end + 1 };
    if start >= cs.len() {
        return None;
    }
    let stop = find_digits_end(&cs, start);
    if stop != cs.len() {
        return None;
    }
    let ghost e = digits_value(cs@.subrange(start as int, stop as int));
    proof {
        lemma_digits_value(cs@.subrange(start as int, stop as int));
    }
    if minus {
        let limit: u128 = digits.len() as u128 + 539;
        match capped_value(&cs, start, stop, limit) {
            Some(v) => {
                if fraction + v == 0 {
                    return Some(is_positive(&digits));
                }
                Some(exceeds(&digits, fraction + v))
            },
            None => {
                proof {
                    lemma_far_below(digits@, fraction as int + e);
                }
                Some(false)
            },
        }
    } else {
        match capped_value(&cs, start, stop, fraction) {
            Some(v) => {
                if v >= fraction {
                    return Some(is_positive(&digits));
                }
                Some(exceeds(&digits, fraction - v))
            },
            None => Some(is_positive(&digits)),
        }
    }
}

/// Whether digits write a number above zero.
fn is_positive(digits: &Vec<char>) -> (r: bool)
    requires
        all_digits(digits@),
    ensures
        r == (digits_value(digits@) > 0),
{
    proof {
        lemma_digits_value(digits@);
        lemma_val_zero(reversed_digits(digits@));
    }
    let ghost rev = reversed_digits(digits@);
    let mut k: usize = 0;
    #[verifier::loop_isolation(false)]
    while k < digits.len()
        invariant
            k <= digits.len(),
            all_digits(digits@),
            rev == reversed_digits(digits@),
            forall|j: int| 0 <= j < k ==> #[trigger] digits@[j] == '0',
        decreases digits.len() - k,
    {
        if digits[k] != '0' {
            proof {
                assert(is_digit(digits@[k as int]));
                assert(rev[digits.len() - 1 - k] != 0);
            }
            return true;
        }
        k += 1;
    }
    proof {
        assert forall|j: int| 0 <= j < rev.len() implies #[trigger] rev[j] == 0 by {
            assert(digits@[digits.len() - 1 - j] == '0');
        }
    }
    false
}

proof fn lemma_far_below(digits: Seq<char>, k: int)
    requires
        all_digits(digits),
        k >= digits.len() + 539,
    ensures
        !(digits_value(digits) * pow(2, 1075) > pow(10, k as nat)),
{
    let m = digits_value(digits);
    let n = digits.len();
    lemma_digits_value(digits);
    lemma_val_bound(reversed_digits(digits));
    lemma_two_to_1075();
    lemma_pow_positive(2, 1075);
    lemma_pow_adds(10, n, 539);
    lemma_pow_increases(10, (n + 539) as nat, k as nat);
    lemma_pow_positive(10, n);
    assert(m * pow(2, 1075) < pow(10, n) * pow(10, 539)) by (nonlinear_arith)
        requires
            0 <= m < pow(10, n),
            0 < pow(2, 1075) < pow(10, 539),
    ;
}

} // verus!
