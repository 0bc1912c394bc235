//! Quality values: decimal numbers, ranked as single-precision numbers.
//!
//! The non-negative single-precision numbers, in ascending order and up to infinity, are counted
//! from zero. The rank of a number written in decimal is the position of the single-precision
//! number nearest to it; half way between two, the one at the even position.

use crate::natural::{lemma_power_monotone, lemma_power_positive, lemma_power_sum, power, Natural};
use crate::text::{
    ascii_lower, chars_of, index_of, law_split_once_cuts_at_the_first_separator, lemma_index_of,
    lemma_index_of_is, lemma_lower_char, lower_char, split_once, to_ascii_lower,
};
use vstd::prelude::*;

verus! {

broadcast use vstd::string::group_string_axioms;

/// The rank of infinity, which is the highest.
pub const RANK_INFINITY: u32 = 0x7f80_0000;

/// The rank of the number one.
pub const RANK_ONE: u32 = 0x3f80_0000;

/// The integer that the single-precision number of rank `k` is a power-of-two multiple of.
pub open spec fn significand(k: nat) -> nat {
    if k < 0x80_0000 {
        k
    } else {
        k % 0x80_0000 + 0x80_0000
    }
}

/// The exponent of that power of two, counted from the smallest one.
pub open spec fn binade(k: nat) -> nat {
    if k < 0x80_0000 {
        0
    } else {
        (k / 0x80_0000 - 1) as nat
    }
}

/// The single-precision number of rank `k`, counted in units of two to the power of -149.
pub open spec fn units(k: nat) -> nat {
    significand(k) * power(2, binade(k))
}

/// Whether `num / den` is nearer to the number of rank `k + 1` than to the one of rank `k`, or
/// half way between them with `k + 1` even.
pub open spec fn above(num: nat, den: nat, k: nat) -> bool {
    let twice = num * power(2, 150);
    let bounds = (units(k) + units(k + 1)) * den;
    twice > bounds || (twice == bounds && k % 2 == 1)
}

/// Whether `k` is the rank of `num / den`.
pub open spec fn rounds_to(num: nat, den: nat, k: nat) -> bool {
    &&& k <= RANK_INFINITY
    &&& k > 0 ==> above(num, den, (k - 1) as nat)
    &&& k < RANK_INFINITY ==> !above(num, den, k)
}

/// The rank of `num / den`.
pub open spec fn nearest(num: nat, den: nat) -> nat {
    choose|k: nat| rounds_to(num, den, k)
}

pub open spec fn is_digit(c: char) -> bool {
    '0' <= c <= '9'
}

pub open spec fn all_digits(s: Seq<char>) -> bool {
    forall|i: int| 0 <= i < s.len() ==> is_digit(#[trigger] s[i])
}

/// The number that a sequence of decimal digits stands for.
pub open spec fn digits_value(s: Seq<char>) -> nat
    decreases s.len(),
{
    if s.len() == 0 {
        0
    } else {
        (digits_value(s.drop_last()) * 10 + (s.last() as u32 - '0' as u32)) as nat
    }
}

pub open spec fn has_sign(s: Seq<char>) -> bool {
    s.len() > 0 && (s[0] == '+' || s[0] == '-')
}

pub open spec fn is_negative(s: Seq<char>) -> bool {
    s.len() > 0 && s[0] == '-'
}

/// `s` without the sign that it may start with.
pub open spec fn unsigned(s: Seq<char>) -> Seq<char> {
    if has_sign(s) {
        s.drop_first()
    } else {
        s
    }
}

/// The number behind an exponent mark: digits with an optional sign.
pub open spec fn exponent(s: Seq<char>) -> Option<int> {
    let digits = unsigned(s);
    if digits.len() == 0 || !all_digits(digits) {
        None
    } else if is_negative(s) {
        Some(-(digits_value(digits) as int))
    } else {
        Some(digits_value(digits) as int)
    }
}

/// The digits of an unsigned decimal number in lower case, and the power of ten that scales them.
pub open spec fn decimal(s: Seq<char>) -> Option<(Seq<char>, int)> {
    let (mantissa, shift) = match split_once(s, 'e') {
        Some(parts) => (parts.0, exponent(parts.1)),
        None => (s, Some(0int)),
    };
    let (whole, fraction) = match split_once(mantissa, '.') {
        Some(parts) => parts,
        None => (mantissa, Seq::empty()),
    };
    let digits = whole + fraction;
    if digits.len() > 0 && all_digits(whole) && all_digits(fraction) && shift is Some {
        Some((digits, shift->0 - fraction.len()))
    } else {
        None
    }
}

/// The rank of an integer scaled by a power of ten.
pub open spec fn scaled_rank(n: nat, shift: int) -> nat {
    if shift >= 0 {
        nearest(n * power(10, shift as nat), 1)
    } else {
        nearest(n, power(10, (-shift) as nat))
    }
}

/// The rank of the number that a text stands for: a decimal number with an optional sign, point
/// and exponent, or the word for infinity or for no number, in any case. What is negative or no
/// number has the rank of zero. `None` where the text is none of these.
pub open spec fn text_rank(s: Seq<char>) -> Option<nat> {
    let t = to_ascii_lower(unsigned(s));
    if t == "inf"@ || t == "infinity"@ {
        Some(if is_negative(s) { 0nat } else { RANK_INFINITY as nat })
    } else if t == "nan"@ {
        Some(0)
    } else {
        match decimal(t) {
            Some(d) => Some(
                if is_negative(s) {
                    0
                } else {
                    scaled_rank(digits_value(d.0), d.1)
                },
            ),
            None => None,
        }
    }
}

proof fn lemma_next_units(k: nat)
    ensures
        units(k + 1) == (significand(k) + 1) * power(2, binade(k)),
        units(k) + units(k + 1) == (2 * significand(k) + 1) * power(2, binade(k)),
        units(k) < units(k + 1),
{
    let s = significand(k);
    let p = power(2, binade(k));
    lemma_power_positive(2, binade(k));
    if k + 1 == 0x80_0000 {
        assert(binade(k) == 0 && binade(k + 1) == 0);
        assert(significand(k + 1) == s + 1);
    } else if k + 1 < 0x80_0000 {
    } else if (k + 1) % 0x80_0000 == 0 {
        assert(binade(k + 1) == binade(k) + 1);
        assert(significand(k + 1) == 0x80_0000 && s == 0xff_ffff);
        assert(power(2, binade(k + 1)) == 2 * p);
        assert(0x80_0000 * (2 * p) == (s + 1) * p) by (nonlinear_arith)
            requires
                s == 0xff_ffff,
        ;
    } else {
        assert(binade(k + 1) == binade(k));
        assert(significand(k + 1) == s + 1);
    }
    assert(s * p + (s + 1) * p == (2 * s + 1) * p) by (nonlinear_arith);
    assert(s * p < (s + 1) * p) by (nonlinear_arith)
        requires
            p > 0,
    ;
}

proof fn lemma_above_below(num: nat, den: nat, j: nat, k: nat)
    requires
        den > 0,
        j <= k,
        above(num, den, k),
    ensures
        above(num, den, j),
    decreases k,
{
    if j < k {
        let i = (k - 1) as nat;
        lemma_next_units(i);
        lemma_next_units(k);
        let a = units(i) + units(k);
        let b = units(k) + units(k + 1);
        assert(a * den < b * den) by (nonlinear_arith)
            requires
                a < b,
                den > 0,
        ;
        assert(i + 1 == k);
        lemma_above_below(num, den, j, i);
    }
}

/// A quotient has at most one rank.
pub proof fn lemma_rank_unique(num: nat, den: nat, j: nat, k: nat)
    requires
        den > 0,
        rounds_to(num, den, j),
        rounds_to(num, den, k),
    ensures
        j == k,
{
    if j < k {
        lemma_above_below(num, den, j, (k - 1) as nat);
    } else if k < j {
        lemma_above_below(num, den, k, (j - 1) as nat);
    }
}

fn is_above(twice: &Natural, den: &Natural, k: u32) -> (r: bool)
    requires
        k < RANK_INFINITY,
    ensures
        r == ({
            let bounds = (units(k as nat) + units(k as nat + 1)) * den@;
            twice@ > bounds || (twice@ == bounds && k % 2 == 1)
        }),
{
    let sig: u32 = if k < 0x80_0000 { k } else { k % 0x80_0000 + 0x80_0000 };
    let exp: u32 = if k < 0x80_0000 { 0 } else { k / 0x80_0000 - 1 };
    let mut bounds = den.copy();
    bounds.scale(2 * sig + 1, 0);
    bounds.double(exp);
    proof {
        lemma_next_units(k as nat);
        let p = power(2, exp as nat);
        let f = (2 * sig + 1) as nat;
        assert((den@ * f + 0) * p == (f * p) * den@) by (nonlinear_arith);
    }
    let (less, equal) = bounds.compare(twice);
    less || (equal && k % 2 == 1)
}

/// The rank of a quotient of two natural numbers.
fn rank_of_quotient(num: &Natural, den: &Natural) -> (r: u32)
    requires
        den@ > 0,
    ensures
        r == nearest(num@, den@),
        r <= RANK_INFINITY,
{
    let mut twice = num.copy();
    twice.double(150);
    let mut low: u32 = 0;
    let mut high: u32 = RANK_INFINITY;
    while low < high
        invariant
            low <= high <= RANK_INFINITY,
            twice@ == num@ * power(2, 150),
            low > 0 ==> above(num@, den@, (low - 1) as nat),
            high < RANK_INFINITY ==> !above(num@, den@, high as nat),
        decreases high - low,
    {
        let mid: u32 = low + (high - low) / 2;
        if is_above(&twice, den, mid) {
            low = mid + 1;
        } else {
            high = mid;
        }
    }
    proof {
        assert(rounds_to(num@, den@, low as nat));
        lemma_rank_unique(num@, den@, low as nat, nearest(num@, den@));
    }
    low
}

proof fn lemma_digits_bound(s: Seq<char>)
    requires
        all_digits(s),
    ensures
        digits_value(s) < power(10, s.len()),
        s.len() > 0 && s[0] != '0' ==> digits_value(s) >= power(10, (s.len() - 1) as nat),
    decreases s.len(),
{
    if s.len() > 0 {
        let t = s.drop_last();
        assert(all_digits(t));
        lemma_digits_bound(t);
        assert(is_digit(s.last()));
        if t.len() > 0 {
            assert(t[0] == s[0]);
        } else {
            assert(digits_value(t) == 0);
            assert(s.last() == s[0]);
        }
    }
}

proof fn lemma_leading_zero(s: Seq<char>)
    requires
        s.len() > 0,
        s[0] == '0',
    ensures
        digits_value(s.drop_first()) == digits_value(s),
    decreases s.len(),
{
    if s.len() == 1 {
        assert(s.drop_last() =~= Seq::empty());
        assert(s.drop_first() =~= Seq::empty());
    } else {
        lemma_leading_zero(s.drop_last());
        assert(s.drop_first().drop_last() =~= s.drop_last().drop_first());
        assert(s.drop_first().last() == s.last());
    }
}

proof fn lemma_power_product(b: nat, d: nat, e: nat, x: nat, y: nat)
    requires
        power(b, d) == x,
        power(b, e) == y,
    ensures
        power(b, d + e) == x * y,
{
    lemma_power_sum(b, d, e);
}

proof fn lemma_powers()
    ensures
        power(2, 150) < power(10, 46),
        power(2, 128) < power(10, 39),
        power(2, 150) > 0,
        power(2, 278) == power(2, 128) * power(2, 150),
{
    reveal_with_fuel(power, 17);
    assert(power(2, 16) == 65536);
    assert(power(2, 6) == 64);
    assert(power(10, 13) == 10_000_000_000_000);
    assert(power(10, 7) == 10_000_000);
    lemma_power_product(2, 16, 16, 65536, 65536);
    lemma_power_product(2, 32, 32, 0x1_0000_0000, 0x1_0000_0000);
    let p64 = 0x1_0000_0000_0000_0000nat;
    lemma_power_product(2, 64, 64, p64, p64);
    let p128 = 0x1_0000_0000_0000_0000_0000_0000_0000_0000nat;
    lemma_power_product(2, 128, 16, p128, 65536);
    let p144 = 0x1_0000_0000_0000_0000_0000_0000_0000_0000_0000nat;
    lemma_power_product(2, 144, 6, p144, 64);
    lemma_power_sum(2, 128, 150);
    let t13 = 10_000_000_000_000nat;
    lemma_power_product(10, 13, 13, t13, t13);
    let t26 = 100_000_000_000_000_000_000_000_000nat;
    lemma_power_product(10, 26, 13, t26, t13);
    let t39 = 1_000_000_000_000_000_000_000_000_000_000_000_000_000nat;
    lemma_power_product(10, 39, 7, t39, 10_000_000);
}

proof fn lemma_products(num: nat, den: nat, big: nat, a: nat, b: nat, bounds: nat)
    requires
        num >= big * den,
        den > 0,
        big > a,
        bounds < a * b,
    ensures
        num * b > bounds * den,
{
    assert(num * b >= (big * den) * b) by (nonlinear_arith)
        requires
            num >= big * den,
    ;
    assert((big * den) * b == (big * b) * den) by (nonlinear_arith);
    assert(big * b >= a * b) by (nonlinear_arith)
        requires
            big > a,
    ;
    assert((big * b) * den > bounds * den) by (nonlinear_arith)
        requires
            big * b > bounds,
            den > 0,
    ;
}

spec fn numerator(n: nat, shift: int) -> nat {
    if shift >= 0 {
        n * power(10, shift as nat)
    } else {
        n
    }
}

spec fn denominator(shift: int) -> nat {
    if shift >= 0 {
        1
    } else {
        power(10, (-shift) as nat)
    }
}

proof fn lemma_scaled(n: nat, shift: int, k: nat)
    requires
        rounds_to(numerator(n, shift), denominator(shift), k),
    ensures
        scaled_rank(n, shift) == k,
{
    if shift < 0 {
        lemma_power_positive(10, (-shift) as nat);
    }
    lemma_rank_unique(
        numerator(n, shift),
        denominator(shift),
        k,
        nearest(numerator(n, shift), denominator(shift)),
    );
}

/// Ten to the power of 39 and more rounds to infinity.
proof fn lemma_huge(n: nat, len: nat, shift: int)
    requires
        len > 0,
        n >= power(10, (len - 1) as nat),
        len - 1 + shift >= 39,
    ensures
        scaled_rank(n, shift) == RANK_INFINITY,
{
    lemma_powers();
    let num = numerator(n, shift);
    let den = denominator(shift);
    let big = power(10, 39);
    assert(num >= big * den && den > 0) by {
        if shift >= 0 {
            let e = shift as nat;
            lemma_power_sum(10, (len - 1) as nat, e);
            lemma_power_monotone(10, 39, (len - 1 + shift) as nat);
            let p = power(10, (len - 1) as nat);
            let q = power(10, e);
            assert(n * q >= p * q) by (nonlinear_arith)
                requires
                    n >= p,
            ;
        } else {
            let e = (-shift) as nat;
            lemma_power_positive(10, e);
            lemma_power_sum(10, 39, e);
            lemma_power_monotone(10, 39 + e, (len - 1) as nat);
        }
    }
    let k = (RANK_INFINITY - 1) as nat;
    lemma_next_units(k);
    assert(significand(k) == 0xff_ffff && binade(k) == 253);
    let bounds = units(k) + units(k + 1);
    let a = power(2, 128);
    let b = power(2, 150);
    assert(bounds < power(2, 278)) by {
        lemma_power_sum(2, 25, 253);
        reveal_with_fuel(power, 26);
        assert(power(2, 25) == 0x200_0000);
        let p = power(2, 253);
        lemma_power_positive(2, 253);
        assert(0x1ff_ffff * p < 0x200_0000 * p) by (nonlinear_arith)
            requires
                p > 0,
        ;
    }
    lemma_products(num, den, big, a, b, bounds);
    lemma_scaled(n, shift, RANK_INFINITY as nat);
}

proof fn lemma_first_units()
    ensures
        units(0) + units(1) == 1,
{
    assert(power(2, 0) == 1);
    assert(units(0) == 0 * power(2, 0));
    assert(units(1) == 1 * power(2, 0));
}

/// Less than ten to the power of -46 rounds to zero.
proof fn lemma_tiny(n: nat, len: nat, shift: int)
    requires
        n < power(10, len),
        len + shift <= -46,
    ensures
        scaled_rank(n, shift) == 0,
{
    lemma_powers();
    let e = (-shift) as nat;
    let den = power(10, e);
    lemma_power_monotone(10, len + 46, e);
    lemma_power_sum(10, len, 46);
    lemma_power_positive(10, 46);
    let c = power(10, 46);
    let b = power(2, 150);
    let p = power(10, len);
    assert(n * b < den) by {
        assert(n * b <= n * c) by (nonlinear_arith)
            requires
                b < c,
        ;
        assert(n * c < p * c) by (nonlinear_arith)
            requires
                n < p,
                c > 0,
        ;
    }
    lemma_first_units();
    assert(1 * den == den);
    lemma_scaled(n, shift, 0);
}

/// The rank of zero scaled by any power of ten.
proof fn lemma_zero(shift: int)
    ensures
        scaled_rank(0, shift) == 0,
{
    let num = numerator(0, shift);
    let den = denominator(shift);
    if shift >= 0 {
        assert(0 * power(10, shift as nat) == 0) by (nonlinear_arith);
    } else {
        lemma_power_positive(10, (-shift) as nat);
    }
    lemma_first_units();
    assert(0 * power(2, 150) == 0) by (nonlinear_arith);
    assert(1 * den == den);
    lemma_scaled(0, shift, 0);
}

fn digit_value(c: char) -> (r: u32)
    requires
        is_digit(c),
    ensures
        r == c as u32 - '0' as u32,
        r <= 9,
{
    c as u32 - 48
}

/// Beyond this exponent only the direction counts.
const LIMIT: i128 = 1_000_000_000_000_000_000_000_000;

/// The rank of digits scaled by a power of ten.
fn rank_of_digits(digits: &Vec<char>, shift: i128, Ghost(exact): Ghost<int>) -> (r: u32)
    requires
        all_digits(digits@),
        -10 * LIMIT <= shift <= 10 * LIMIT,
        shift == exact || (shift >= LIMIT && exact >= LIMIT) || (shift <= -LIMIT && exact
            <= -LIMIT),
    ensures
        r == scaled_rank(digits_value(digits@), exact),
        r <= RANK_INFINITY,
{
    let ghost all = digits@;
    let ghost n = digits_value(all);
    let mut start: usize = 0;
    assert(all.skip(0) == all);
    while start < digits.len() && digits[start] == '0'
        invariant
            digits@ == all,
            start <= all.len(),
            n == digits_value(all),
            digits_value(all.skip(start as int)) == n,
        decreases all.len() - start,
    {
        proof {
            lemma_leading_zero(all.skip(start as int));
            assert(all.skip(start as int).drop_first() =~= all.skip(start + 1));
        }
        start += 1;
    }
    let len: usize = digits.len() - start;
    let ghost rest = all.skip(start as int);
    if len == 0 {
        assert(rest =~= Seq::empty());
        proof {
            lemma_zero(exact);
        }
        return 0;
    }
    proof {
        assert forall|i: int| 0 <= i < rest.len() implies is_digit(#[trigger] rest[i]) by {
            assert(is_digit(all[start + i]));
        }
        lemma_digits_bound(rest);
    }
    let top: i128 = len as i128 + shift;
    if top >= 40 {
        proof {
            lemma_huge(n, len as nat, exact);
        }
        return RANK_INFINITY;
    }
    if top <= -46 {
        proof {
            lemma_tiny(n, len as nat, exact);
        }
        return 0;
    }
    assert(shift == exact);
    let mut num = Natural::new(0);
    let mut i: usize = start;
    assert(all.subrange(start as int, start as int) =~= Seq::empty());
    while i < digits.len()
        invariant
            digits@ == all,
            all_digits(all),
            start <= i <= all.len(),
            num@ == digits_value(all.subrange(start as int, i as int)),
        decreases all.len() - i,
    {
        proof {
            assert(is_digit(all[i as int]));
            let next = all.subrange(start as int, i + 1);
            assert(next.drop_last() =~= all.subrange(start as int, i as int));
        }
        num.scale(10, digit_value(digits[i]));
        i += 1;
    }
    assert(all.subrange(start as int, all.len() as int) =~= rest);
    let mut den = Natural::new(1);
    if shift >= 0 {
        num.times_ten(shift as u128);
    } else {
        den.times_ten((-shift) as u128);
        proof {
            lemma_power_positive(10, (-shift) as nat);
            let p = power(10, (-shift) as nat);
            assert(1 * p == p);
        }
    }
    rank_of_quotient(&num, &den)
}

fn all_digits_in(s: &Vec<char>, from: usize, to: usize) -> (r: bool)
    requires
        from <= to <= s@.len(),
    ensures
        r == all_digits(s@.subrange(from as int, to as int)),
{
    let ghost part = s@.subrange(from as int, to as int);
    let mut i: usize = from;
    while i < to
        invariant
            from <= i <= to <= s@.len(),
            part == s@.subrange(from as int, to as int),
            forall|k: int| 0 <= k < i - from ==> is_digit(#[trigger] part[k]),
        decreases to - i,
    {
        let c = s[i];
        assert(part[i - from] == c);
        if !('0' <= c && c <= '9') {
            assert(!is_digit(part[i - from]));
            return false;
        }
        i += 1;
    }
    true
}

/// The value of the digits between two positions, up to `LIMIT`.
fn limited_value(s: &Vec<char>, from: usize, to: usize) -> (r: i128)
    requires
        from <= to <= s@.len(),
        all_digits(s@.subrange(from as int, to as int)),
    ensures
        0 <= r <= 9 * LIMIT,
        ({
            let exact = digits_value(s@.subrange(from as int, to as int));
            r == exact || (r >= LIMIT + LIMIT && exact >= LIMIT + LIMIT)
        }),
{
    let ghost part = s@.subrange(from as int, to as int);
    let mut r: i128 = 0;
    let mut i: usize = from;
    assert(part.take(0) =~= Seq::empty());
    while i < to
        invariant
            from <= i <= to <= s@.len(),
            part == s@.subrange(from as int, to as int),
            all_digits(part),
            0 <= r <= 9 * LIMIT,
            r == digits_value(part.take(i - from)) || (r >= LIMIT + LIMIT && digits_value(
                part.take(i - from),
            ) >= LIMIT + LIMIT),
        decreases to - i,
    {
        assert(is_digit(part[i - from]));
        let d: u32 = digit_value(s[i]);
        assert(part.take(i + 1 - from).drop_last() =~= part.take(i - from));
        if r < LIMIT / 2 {
            r = r * 10 + d as i128;
        } else if r < LIMIT + LIMIT {
            r = LIMIT + LIMIT;
        }
        i += 1;
    }
    assert(part.take(to - from) =~= part);
    r
}

fn is_text(s: &Vec<char>, word: &str) -> (r: bool)
    ensures
        r == (s@ == word@),
{
    let w = chars_of(word);
    if s.len() != w.len() {
        return false;
    }
    let mut i: usize = 0;
    while i < s.len()
        invariant
            w@ == word@,
            i <= s@.len() == w@.len(),
            forall|k: int| 0 <= k < i ==> s@[k] == w@[k],
        decreases s@.len() - i,
    {
        if s[i] != w[i] {
            return false;
        }
        i += 1;
    }
    assert(s@ =~= w@);
    true
}

/// The position of the first `c` before `to`, or `to`.
fn find_before(s: &Vec<char>, c: char, to: usize) -> (r: usize)
    requires
        to <= s@.len(),
    ensures
        r == index_of(s@.take(to as int), c),
        r <= to,
{
    let ghost part = s@.take(to as int);
    let mut i: usize = 0;
    while i < to && s[i] != c
        invariant
            i <= to <= s@.len(),
            part == s@.take(to as int),
            forall|k: int| 0 <= k < i ==> part[k] != c,
        decreases to - i,
    {
        i += 1;
    }
    proof {
        lemma_index_of_is(part, c, i as nat);
    }
    i
}

fn push_range(r: &mut Vec<char>, s: &Vec<char>, from: usize, to: usize)
    requires
        from <= to <= s@.len(),
    ensures
        final(r)@ == old(r)@ + s@.subrange(from as int, to as int),
{
    let mut i: usize = from;
    assert(r@ =~= old(r)@ + s@.subrange(from as int, from as int));
    while i < to
        invariant
            from <= i <= to <= s@.len(),
            r@ == old(r)@ + s@.subrange(from as int, i as int),
        decreases to - i,
    {
        r.push(s[i]);
        assert(r@ =~= old(r)@ + s@.subrange(from as int, i + 1));
        i += 1;
    }
}

/// The exponent in the text from `from` on, up to `LIMIT` in either direction.
fn limited_exponent(s: &Vec<char>, from: usize) -> (r: Option<i128>)
    requires
        from <= s@.len(),
    ensures
        match (r, exponent(s@.skip(from as int))) {
            (Some(x), Some(exact)) => {
                &&& -9 * LIMIT <= x <= 9 * LIMIT
                &&& x == exact || (x >= 2 * LIMIT && exact >= 2 * LIMIT) || (x <= -2 * LIMIT
                    && exact <= -2 * LIMIT)
            },
            (None, None) => true,
            _ => false,
        },
{
    let ghost part = s@.skip(from as int);
    let len: usize = s.len();
    let mut start: usize = from;
    let mut negative: bool = false;
    if from < len {
        let c = s[from];
        assert(part[0] == c);
        negative = c == '-';
        if c == '+' || c == '-' {
            start = from + 1;
        }
    }
    assert(s@.subrange(start as int, len as int) =~= unsigned(part));
    if start == len || !all_digits_in(s, start, len) {
        return None;
    }
    let x: i128 = limited_value(s, start, len);
    Some(
        if negative {
            -x
        } else {
            x
        },
    )
}

/// The rank of an unsigned decimal number in lower case.
fn rank_of_decimal(t: &Vec<char>) -> (r: Option<u32>)
    ensures
        match (r, decimal(t@)) {
            (Some(k), Some(d)) => k == scaled_rank(digits_value(d.0), d.1) && k <= RANK_INFINITY,
            (None, None) => true,
            _ => false,
        },
{
    let len: usize = t.len();
    let mark: usize = find_before(t, 'e', len);
    assert(t@.take(len as int) =~= t@);
    let shift: i128 = if mark < len {
        match limited_exponent(t, mark + 1) {
            Some(x) => x,
            None => {
                return None;
            },
        }
    } else {
        0
    };
    let ghost exact: int = if mark < len {
        exponent(t@.skip(mark + 1))->0
    } else {
        0
    };
    let point: usize = find_before(t, '.', mark);
    let ghost mantissa = t@.take(mark as int);
    assert(mark == len ==> mantissa =~= t@);
    let after: usize = if point < mark { point + 1 } else { mark };
    proof {
        assert(t@.subrange(0, point as int) =~= mantissa.take(point as int));
        if point < mark {
            assert(t@.subrange(after as int, mark as int) =~= mantissa.skip(point + 1));
        } else {
            assert(t@.subrange(0, point as int) =~= mantissa);
            assert(t@.subrange(after as int, mark as int) =~= Seq::empty());
        }
    }
    if !all_digits_in(t, 0, point) || !all_digits_in(t, after, mark) {
        return None;
    }
    let mut digits: Vec<char> = Vec::new();
    push_range(&mut digits, t, 0, point);
    push_range(&mut digits, t, after, mark);
    let ghost whole = t@.subrange(0, point as int);
    let ghost fraction = t@.subrange(after as int, mark as int);
    assert(digits@ =~= whole + fraction);
    if digits.len() == 0 {
        return None;
    }
    proof {
        assert forall|i: int| 0 <= i < digits@.len() implies is_digit(#[trigger] digits@[i]) by {
            if i < whole.len() {
                assert(is_digit(whole[i]));
            } else {
                assert(is_digit(fraction[i - whole.len()]));
            }
        }
    }
    let places: usize = mark - after;
    assert(places == fraction.len());
    let total: i128 = shift - places as i128;
    Some(rank_of_digits(&digits, total, Ghost(exact - fraction.len())))
}

/// The rank of the number that a text stands for, where it stands for one.
pub fn rank(s: &str) -> (r: Option<u32>)
    ensures
        match (r, text_rank(s@)) {
            (Some(k), Some(exact)) => k == exact && k <= RANK_INFINITY,
            (None, None) => true,
            _ => false,
        },
{
    let chars = chars_of(s);
    let mut start: usize = 0;
    let mut negative: bool = false;
    if chars.len() > 0 {
        let c = chars[0];
        negative = c == '-';
        if c == '+' || c == '-' {
            start = 1;
        }
    }
    let ghost u = unsigned(s@);
    assert(u =~= s@.skip(start as int));
    let mut t: Vec<char> = Vec::new();
    let mut i: usize = start;
    while i < chars.len()
        invariant
            chars@ == s@,
            start <= i <= chars@.len(),
            u == s@.skip(start as int),
            t@ == to_ascii_lower(u).take(i - start),
        decreases chars@.len() - i,
    {
        let c = lower_char(chars[i]);
        proof {
            assert(to_ascii_lower(u)[i - start] == c);
            assert(to_ascii_lower(u).take(i + 1 - start) =~= to_ascii_lower(u).take(
                i - start,
            ).push(c));
        }
        t.push(c);
        i += 1;
    }
    assert(to_ascii_lower(u).take(u.len() as int) =~= to_ascii_lower(u));
    if is_text(&t, "inf") || is_text(&t, "infinity") {
        return Some(
            if negative {
                0
            } else {
                RANK_INFINITY
            },
        );
    }
    if is_text(&t, "nan") {
        return Some(0);
    }
    match rank_of_decimal(&t) {
        Some(k) => Some(
            if negative {
                0
            } else {
                k
            },
        ),
        None => None,
    }
}

proof fn lemma_rank_exists(num: nat, den: nat, k: nat)
    requires
        k <= RANK_INFINITY,
        k > 0 ==> above(num, den, (k - 1) as nat),
    ensures
        exists|j: nat| rounds_to(num, den, j),
    decreases RANK_INFINITY - k,
{
    if k < RANK_INFINITY && above(num, den, k) {
        lemma_rank_exists(num, den, k + 1);
    } else {
        assert(rounds_to(num, den, k));
    }
}

/// Every quotient has exactly one rank.
pub proof fn law_every_quotient_has_a_rank(num: nat, den: nat)
    requires
        den > 0,
    ensures
        rounds_to(num, den, nearest(num, den)),
        forall|k: nat| #[trigger] rounds_to(num, den, k) ==> k == nearest(num, den),
{
    lemma_rank_exists(num, den, 0);
    assert forall|k: nat| #[trigger] rounds_to(num, den, k) implies k == nearest(num, den) by {
        lemma_rank_unique(num, den, k, nearest(num, den));
    }
}

proof fn lemma_above_scaled(num1: nat, den1: nat, num2: nat, den2: nat, k: nat)
    requires
        den1 > 0,
        den2 > 0,
        num1 * den2 <= num2 * den1,
        above(num1, den1, k),
    ensures
        above(num2, den2, k),
{
    let p = power(2, 150);
    let b = units(k) + units(k + 1);
    assert(num1 * p * den2 == num1 * den2 * p) by (nonlinear_arith);
    assert(num2 * p * den1 == num2 * den1 * p) by (nonlinear_arith);
    assert(num1 * den2 * p <= num2 * den1 * p) by (nonlinear_arith)
        requires
            num1 * den2 <= num2 * den1,
    ;
    assert(b * den1 * den2 == b * den2 * den1) by (nonlinear_arith);
    if num1 * p > b * den1 {
        assert(num1 * p * den2 > b * den1 * den2) by (nonlinear_arith)
            requires
                num1 * p > b * den1,
                den2 > 0,
        ;
        assert(num2 * p > b * den2) by (nonlinear_arith)
            requires
                num2 * p * den1 > b * den2 * den1,
                den1 > 0,
        ;
    } else {
        assert(num1 * p * den2 == b * den1 * den2);
        assert(num2 * p >= b * den2) by (nonlinear_arith)
            requires
                num2 * p * den1 >= b * den2 * den1,
                den1 > 0,
        ;
    }
}

/// A greater number never has a lower rank.
pub proof fn law_ranks_keep_the_order(num1: nat, den1: nat, num2: nat, den2: nat)
    requires
        den1 > 0,
        den2 > 0,
        num1 * den2 <= num2 * den1,
    ensures
        nearest(num1, den1) <= nearest(num2, den2),
{
    law_every_quotient_has_a_rank(num1, den1);
    law_every_quotient_has_a_rank(num2, den2);
    let j = nearest(num1, den1);
    let k = nearest(num2, den2);
    if k < j {
        lemma_above_below(num1, den1, k, (j - 1) as nat);
        lemma_above_scaled(num1, den1, num2, den2, k);
    }
}

/// A number that is one of the single-precision numbers has the rank of that number.
pub proof fn law_exact_numbers_keep_their_rank(k: nat)
    requires
        k < RANK_INFINITY,
    ensures
        nearest(units(k), power(2, 149)) == k,
{
    let den = power(2, 149);
    let u = units(k);
    lemma_power_positive(2, 149);
    assert(power(2, 150) == 2 * den);
    assert(u * (2 * den) == (u + u) * den) by (nonlinear_arith);
    lemma_next_units(k);
    let high = units(k + 1);
    assert((u + u) * den < (u + high) * den) by (nonlinear_arith)
        requires
            u < high,
            den > 0,
    ;
    if k > 0 {
        let i = (k - 1) as nat;
        lemma_next_units(i);
        let low = units(i);
        assert((low + u) * den < (u + u) * den) by (nonlinear_arith)
            requires
                low < u,
                den > 0,
        ;
        assert(i + 1 == k);
    }
    assert(rounds_to(u, den, k));
    law_every_quotient_has_a_rank(u, den);
}

/// Quotients that are equal have the same rank, however they are written.
pub proof fn law_equal_quotients_have_one_rank(num: nat, den: nat, num2: nat, den2: nat)
    requires
        den > 0,
        den2 > 0,
        num * den2 == num2 * den,
    ensures
        nearest(num, den) == nearest(num2, den2),
{
    law_ranks_keep_the_order(num, den, num2, den2);
    law_ranks_keep_the_order(num2, den2, num, den);
}

/// Nothing has the rank zero and the whole has the rank of one.
pub proof fn law_nothing_and_the_whole(n: nat)
    requires
        n > 0,
    ensures
        nearest(0, n) == 0,
        nearest(n, n) == 0x3f80_0000,
{
    let p = power(2, 149);
    lemma_power_positive(2, 149);
    law_exact_numbers_keep_their_rank(0);
    assert(units(0) == 0) by {
        assert(0 * power(2, 0) == 0) by (nonlinear_arith);
    }
    law_equal_quotients_have_one_rank(0, n, 0, p);
    let one = 0x3f80_0000nat;
    assert(significand(one) == 0x80_0000 && binade(one) == 126);
    lemma_power_sum(2, 23, 126);
    reveal_with_fuel(power, 24);
    assert(power(2, 23) == 0x80_0000);
    assert(units(one) == p);
    law_exact_numbers_keep_their_rank(one);
    assert(n * p == p * n) by (nonlinear_arith);
    law_equal_quotients_have_one_rank(n, n, p, p);
}

proof fn lemma_rank_of_integer(c: nat, e: nat) -> (k: nat)
    requires
        0 < c < 0x100_0000,
        e <= 200,
    ensures
        units(k) == c * power(2, e),
        k < RANK_INFINITY,
    decreases e,
{
    if c >= 0x80_0000 {
        let k = (0x80_0000 * (e + 1) + (c - 0x80_0000)) as nat;
        vstd::arithmetic::div_mod::lemma_fundamental_div_mod_converse(
            k as int,
            0x80_0000,
            e as int + 1,
            c - 0x80_0000,
        );
        assert(significand(k) == c);
        assert(binade(k) == e);
        k
    } else if e == 0 {
        c
    } else {
        let k = lemma_rank_of_integer(2 * c, (e - 1) as nat);
        let p = power(2, (e - 1) as nat);
        assert(power(2, e) == 2 * p);
        assert((2 * c) * p == c * (2 * p)) by (nonlinear_arith);
        k
    }
}

/// Qualities with up to three decimals are told apart: the greater one has the higher rank.
pub proof fn law_thousandths_are_told_apart(a: nat, b: nat)
    requires
        a < b <= 1000,
    ensures
        nearest(a, 1000) < nearest(b, 1000),
{
    let d = 0x10_0000nat;
    let c = (a * d / 1000 + 1) as nat;
    assert(a * d <= 1000 * c && 1000 * (c + 1) <= b * d);
    let p = power(2, 129);
    lemma_power_positive(2, 129);
    lemma_power_sum(2, 20, 129);
    reveal_with_fuel(power, 21);
    assert(power(2, 20) == d);
    let whole = power(2, 149);
    assert(whole == d * p);
    let j = lemma_rank_of_integer(c, 129);
    let k = lemma_rank_of_integer(c + 1, 129);
    law_exact_numbers_keep_their_rank(j);
    law_exact_numbers_keep_their_rank(k);
    lemma_power_positive(2, 149);
    assert(c * whole == (c * p) * d) by (nonlinear_arith)
        requires
            whole == d * p,
    ;
    assert((c + 1) * whole == ((c + 1) * p) * d) by (nonlinear_arith)
        requires
            whole == d * p,
    ;
    law_equal_quotients_have_one_rank(c, d, c * p, whole);
    law_equal_quotients_have_one_rank(c + 1, d, (c + 1) * p, whole);
    law_ranks_keep_the_order(a, 1000, c, d);
    law_ranks_keep_the_order(c + 1, d, b, 1000);
    law_ranks_keep_the_order(c, d, c + 1, d);
    assert(c * p < (c + 1) * p) by (nonlinear_arith)
        requires
            p > 0,
    ;
    assert(j != k);
}

/// Digits count in tens from the right.
pub proof fn law_digits_count_in_tens(s: Seq<char>, c: char)
    requires
        '0' <= c <= '9',
    ensures
        digits_value(Seq::empty()) == 0,
        digits_value(s.push(c)) == 10 * digits_value(s) + (c as u32 - '0' as u32),
{
    assert(s.push(c).drop_last() =~= s);
}

proof fn lemma_lower_number(s: Seq<char>)
    requires
        forall|i: int|
            0 <= i < s.len() ==> is_digit(#[trigger] s[i]) || s[i] == '.' || s[i] == 'e' || s[i]
                == 'E' || s[i] == '-' || s[i] == '+',
    ensures
        to_ascii_lower(s).len() == s.len(),
        forall|i: int|
            0 <= i < s.len() ==> #[trigger] to_ascii_lower(s)[i] == if s[i] == 'E' {
                'e'
            } else {
                s[i]
            },
{
    assert forall|i: int| 0 <= i < s.len() implies #[trigger] to_ascii_lower(s)[i] == if s[i]
        == 'E' {
        'e'
    } else {
        s[i]
    } by {
        let c = s[i];
        assert(is_digit(c) || c == '.' || c == 'e' || c == 'E' || c == '-' || c == '+');
    }
}

proof fn lemma_no_word(t: Seq<char>)
    requires
        t.len() > 0,
        is_digit(t[0]) || t[0] == '.',
    ensures
        t != "inf"@,
        t != "infinity"@,
        t != "nan"@,
{
    reveal_strlit("inf");
    reveal_strlit("infinity");
    reveal_strlit("nan");
}

proof fn lemma_cut(first: Seq<char>, rest: Seq<char>, c: char)
    requires
        forall|i: int| 0 <= i < first.len() ==> first[i] != c,
    ensures
        split_once(first, c) is None,
        split_once(first + seq![c] + rest, c) == Some((first, rest)),
{
    if first.contains(c) {
        let i = choose|i: int| 0 <= i < first.len() && first[i] == c;
        assert(first[i] == c);
    }
    law_split_once_cuts_at_the_first_separator(first, rest, c);
}

proof fn lemma_mantissa(w: Seq<char>, f: Seq<char>)
    requires
        all_digits(w),
        all_digits(f),
    ensures
        split_once(w, '.') is None,
        split_once(w + seq!['.'] + f, '.') == Some((w, f)),
        forall|i: int|
            0 <= i < (w + seq!['.'] + f).len() ==> is_digit(#[trigger] (w + seq!['.'] + f)[i]) || (w
                + seq!['.'] + f)[i] == '.',
{
    assert forall|i: int| 0 <= i < w.len() implies w[i] != '.' by {
        assert(is_digit(w[i]));
    }
    lemma_cut(w, f, '.');
    let m = w + seq!['.'] + f;
    assert forall|i: int| 0 <= i < m.len() implies is_digit(#[trigger] m[i]) || m[i] == '.' by {
        if i < w.len() {
            assert(is_digit(w[i]));
        } else if i > w.len() {
            assert(is_digit(f[i - w.len() - 1]));
        }
    }
}

/// A decimal number has the rank of its digits over the power of ten for the digits behind the
/// point.
pub proof fn law_decimals_are_ranked(w: Seq<char>, f: Seq<char>)
    requires
        all_digits(w),
        all_digits(f),
        w.len() + f.len() > 0,
    ensures
        text_rank(w + seq!['.'] + f) == Some(
            nearest(digits_value(w + f), power(10, f.len())),
        ),
        w.len() > 0 ==> text_rank(w) == Some(nearest(digits_value(w), 1)),
{
    let m = w + seq!['.'] + f;
    let none = Seq::<char>::empty();
    lemma_mantissa(w, f);
    assert(is_digit(m[0]) || m[0] == '.');
    lemma_lower_number(m);
    assert(to_ascii_lower(m) =~= m);
    lemma_no_word(m);
    assert forall|i: int| 0 <= i < m.len() implies m[i] != 'e' by {
        assert(is_digit(m[i]) || m[i] == '.');
    }
    lemma_cut(m, none, 'e');
    let n = digits_value(w + f);
    assert(power(10, 0) == 1);
    assert(n * 1 == n);
    assert(unsigned(m) == m && !is_negative(m));
    if w.len() > 0 {
        assert(is_digit(w[0]));
        assert forall|i: int| 0 <= i < w.len() implies is_digit(#[trigger] w[i]) && w[i]
            != 'e' by {}
        lemma_lower_number(w);
        assert(to_ascii_lower(w) =~= w);
        lemma_no_word(w);
        lemma_cut(w, none, 'e');
        assert(w + none =~= w);
        assert(digits_value(w) * 1 == digits_value(w));
        assert(unsigned(w) == w && !is_negative(w));
    }
}

/// A sign in front of a number: a plus changes nothing, and with a minus the rank is that of zero.
pub proof fn law_signs(s: Seq<char>)
    requires
        s.len() == 0 || (s[0] != '+' && s[0] != '-'),
    ensures
        text_rank(seq!['+'] + s) == text_rank(s),
        text_rank(s) is Some ==> text_rank(seq!['-'] + s) == Some(0nat),
        text_rank(s) is None ==> text_rank(seq!['-'] + s) is None,
{
    let p = seq!['+'] + s;
    let m = seq!['-'] + s;
    assert(p.drop_first() =~= s && m.drop_first() =~= s);
    assert(p[0] == '+' && m[0] == '-');
}

/// A number behind `e` moves the point, to the right or with a minus to the left.
pub proof fn law_exponents_move_the_point(w: Seq<char>, f: Seq<char>, mark: char, x: Seq<char>)
    requires
        all_digits(w),
        all_digits(f),
        w.len() + f.len() > 0,
        mark == 'e' || mark == 'E',
        all_digits(x),
        x.len() > 0,
    ensures
        ({
            let n = digits_value(w + f);
            let e = digits_value(x);
            let m = w + seq!['.'] + f;
            &&& e >= f.len() ==> text_rank(m + seq![mark] + x) == Some(
                nearest(n * power(10, (e - f.len()) as nat), 1),
            )
            &&& e < f.len() ==> text_rank(m + seq![mark] + x) == Some(
                nearest(n, power(10, (f.len() - e) as nat)),
            )
            &&& f.len() + e > 0 ==> text_rank(m + seq![mark] + (seq!['-'] + x)) == Some(
                nearest(n, power(10, f.len() + e)),
            )
        }),
{
    let m = w + seq!['.'] + f;
    let minus = seq!['-'] + x;
    lemma_mantissa(w, f);
    assert(is_digit(m[0]) || m[0] == '.');
    assert forall|i: int| 0 <= i < m.len() implies m[i] != 'e' by {
        assert(is_digit(m[i]) || m[i] == '.');
    }
    lemma_exponent_text(m, mark, x);
    assert forall|i: int| 0 <= i < minus.len() implies is_digit(#[trigger] minus[i]) || minus[i]
        == '-' by {
        if i > 0 {
            assert(is_digit(x[i - 1]));
        }
    }
    lemma_exponent_text(m, mark, minus);
    assert(is_digit(x[0]));
    assert(unsigned(x) == x);
    assert(minus[0] == '-');
    assert(minus.drop_first() =~= x);
}

proof fn lemma_exponent_text(m: Seq<char>, mark: char, x: Seq<char>)
    requires
        m.len() > 0,
        is_digit(m[0]) || m[0] == '.',
        forall|i: int| 0 <= i < m.len() ==> is_digit(#[trigger] m[i]) || m[i] == '.',
        mark == 'e' || mark == 'E',
        forall|i: int| 0 <= i < x.len() ==> is_digit(#[trigger] x[i]) || x[i] == '-',
    ensures
        ({
            let s = m + seq![mark] + x;
            let t = m + seq!['e'] + x;
            &&& to_ascii_lower(unsigned(s)) == t
            &&& !is_negative(s)
            &&& t != "inf"@ && t != "infinity"@ && t != "nan"@
            &&& split_once(t, 'e') == Some((m, x))
        }),
{
    let s = m + seq![mark] + x;
    let t = m + seq!['e'] + x;
    assert(s[0] == m[0] && t[0] == m[0]);
    assert forall|i: int| 0 <= i < s.len() implies is_digit(#[trigger] s[i]) || s[i] == '.' || s[i]
        == 'e' || s[i] == 'E' || s[i] == '-' || s[i] == '+' by {
        if i < m.len() {
            assert(is_digit(m[i]) || m[i] == '.');
        } else if i > m.len() {
            assert(is_digit(x[i - m.len() - 1]) || x[i - m.len() - 1] == '-');
        }
    }
    lemma_lower_number(s);
    let low = to_ascii_lower(s);
    assert forall|i: int| 0 <= i < t.len() implies low[i] == t[i] by {
        if i < m.len() {
            assert(is_digit(m[i]) || m[i] == '.');
        } else if i > m.len() {
            assert(is_digit(x[i - m.len() - 1]) || x[i - m.len() - 1] == '-');
        }
    }
    assert(low =~= t);
    assert(unsigned(s) == s);
    lemma_no_word(t);
    assert forall|i: int| 0 <= i < m.len() implies m[i] != 'e' by {
        assert(is_digit(m[i]) || m[i] == '.');
    }
    lemma_cut(m, x, 'e');
}

/// A text with anything in it that no number has is no number, and neither is the empty text.
pub proof fn law_other_texts_are_no_numbers(s: Seq<char>, i: int)
    requires
        s.len() == 0 || (0 <= i < s.len() && !('0' <= s[i] <= '9') && s[i] != '.' && s[i] != '+'
            && s[i] != '-' && s[i] != 'e' && s[i] != 'E'),
        to_ascii_lower(unsigned(s)) != "inf"@,
        to_ascii_lower(unsigned(s)) != "infinity"@,
        to_ascii_lower(unsigned(s)) != "nan"@,
    ensures
        text_rank(s) is None,
{
    let t = to_ascii_lower(unsigned(s));
    if decimal(t) is Some {
        let (mantissa, tail) = match split_once(t, 'e') {
            Some(parts) => (parts.0, parts.1),
            None => (t, Seq::empty()),
        };
        let (whole, fraction) = match split_once(mantissa, '.') {
            Some(parts) => parts,
            None => (mantissa, Seq::empty()),
        };
        lemma_index_of(t, 'e');
        lemma_index_of(mantissa, '.');
        let n = index_of(t, 'e') as int;
        let point = index_of(mantissa, '.') as int;
        let k = if has_sign(s) {
            i - 1
        } else {
            i
        };
        if s.len() > 0 {
            assert(k >= 0);
            assert(t[k] == ascii_lower(unsigned(s)[k]) && unsigned(s)[k] == s[i]);
            let c = t[k];
            assert(!is_digit(c) && c != '.' && c != '+' && c != '-' && c != 'e') by {
                lemma_lower_char(s[i]);
            }
            if k < n {
                assert(mantissa[k] == c);
                if k < point {
                    assert(is_digit(whole[k]));
                } else if k > point {
                    assert(is_digit(fraction[k - point - 1]));
                }
            } else if k > n {
                let digits = unsigned(tail);
                let m = k - n - 1;
                assert(tail[m] == c);
                if has_sign(tail) {
                    assert(m > 0);
                    assert(is_digit(digits[m - 1]));
                } else {
                    assert(is_digit(digits[m]));
                }
            }
        }
    }
}

/// The words for infinity and for no number have ranks, the highest and the lowest, in any case.
pub proof fn law_words_have_ranks(s: Seq<char>)
    ensures
        to_ascii_lower(s) == seq!['i', 'n', 'f'] ==> text_rank(s) == Some(0x7f80_0000nat),
        to_ascii_lower(s) == seq!['i', 'n', 'f', 'i', 'n', 'i', 't', 'y'] ==> text_rank(s) == Some(
            0x7f80_0000nat,
        ),
        to_ascii_lower(s) == seq!['n', 'a', 'n'] ==> text_rank(s) == Some(0nat),
{
    let low = to_ascii_lower(s);
    reveal_strlit("inf");
    reveal_strlit("infinity");
    reveal_strlit("nan");
    assert("inf"@ =~= seq!['i', 'n', 'f']);
    assert("infinity"@ =~= seq!['i', 'n', 'f', 'i', 'n', 'i', 't', 'y']);
    assert("nan"@ =~= seq!['n', 'a', 'n']);
    if s.len() > 0 {
        lemma_lower_char(s[0]);
        assert(low[0] == ascii_lower(s[0]));
    }
    if low == seq!['i', 'n', 'f'] || low == seq!['i', 'n', 'f', 'i', 'n', 'i', 't', 'y'] || low
        == seq!['n', 'a', 'n'] {
        assert(low.len() == s.len());
        assert(low[0] == 'i' || low[0] == 'n');
        assert(!has_sign(s));
    }
    if low == seq!['n', 'a', 'n'] {
        assert(low[0] == 'n');
    }
}

/// What [`rank`] says of a text is its rank.
pub proof fn law_ranks_are_told(s: &str, r: Option<u32>)
    requires
        call_ensures(rank, (s,), r),
    ensures
        r is Some <==> text_rank(s@) is Some,
        r is Some ==> text_rank(s@) == Some(r->0 as nat),
{
}

} // verus!
