//! Natural numbers of any size.

use vstd::prelude::*;

verus! {

/// `b` to the power of `e`.
pub open spec fn power(b: nat, e: nat) -> nat
    decreases e,
{
    if e == 0 {
        1
    } else {
        b * power(b, (e - 1) as nat)
    }
}

/// Each step of the exponent is one factor more.
pub proof fn law_power_is_a_product(b: nat, e: nat)
    ensures
        power(b, 0) == 1,
        power(b, e + 1) == power(b, e) * b,
{
    assert(b * power(b, e) == power(b, e) * b) by (nonlinear_arith);
}

pub proof fn lemma_power_positive(b: nat, e: nat)
    requires
        b > 0,
    ensures
        power(b, e) > 0,
    decreases e,
{
    if e > 0 {
        lemma_power_positive(b, (e - 1) as nat);
        let p = power(b, (e - 1) as nat);
        assert(b * p > 0) by (nonlinear_arith)
            requires
                b > 0,
                p > 0,
        ;
    }
}

pub proof fn lemma_power_sum(b: nat, d: nat, e: nat)
    ensures
        power(b, d + e) == power(b, d) * power(b, e),
    decreases d,
{
    if d == 0 {
        assert(power(b, 0) * power(b, e) == power(b, e)) by (nonlinear_arith)
            requires
                power(b, 0) == 1,
        ;
    } else {
        lemma_power_sum(b, (d - 1) as nat, e);
        let p = power(b, (d - 1) as nat);
        let q = power(b, e);
        assert(d + e - 1 == (d - 1) + e);
        assert(b * (p * q) == (b * p) * q) by (nonlinear_arith);
    }
}

pub proof fn lemma_power_monotone(b: nat, d: nat, e: nat)
    requires
        b > 0,
        d <= e,
    ensures
        power(b, d) <= power(b, e),
{
    lemma_power_sum(b, d, (e - d) as nat);
    lemma_power_positive(b, (e - d) as nat);
    let p = power(b, d);
    let q = power(b, (e - d) as nat);
    assert(p <= p * q) by (nonlinear_arith)
        requires
            q >= 1,
    ;
}

/// The weight of the limb at position `i`.
pub open spec fn limb_weight(i: nat) -> nat {
    power(0x1_0000_0000, i)
}

/// The number that a sequence of limbs stands for, lowest limb first.
pub open spec fn value(limbs: Seq<u32>) -> nat
    decreases limbs.len(),
{
    if limbs.len() == 0 {
        0
    } else {
        value(limbs.drop_last()) + limbs.last() as nat * limb_weight((limbs.len() - 1) as nat)
    }
}

proof fn lemma_value_bound(limbs: Seq<u32>)
    ensures
        value(limbs) < limb_weight(limbs.len()),
    decreases limbs.len(),
{
    if limbs.len() > 0 {
        lemma_value_bound(limbs.drop_last());
        let w = limb_weight((limbs.len() - 1) as nat);
        let x = limbs.last() as nat;
        let low = value(limbs.drop_last());
        assert(low + x * w < 0x1_0000_0000 * w) by (nonlinear_arith)
            requires
                low < w,
                x <= 0xffff_ffff,
        ;
    }
}

/// A natural number of any size.
pub struct Natural {
    limbs: Vec<u32>,
}

impl View for Natural {
    type V = nat;

    closed spec fn view(&self) -> nat {
        value(self.limbs@)
    }
}

impl Natural {
    pub fn new(n: u32) -> (r: Natural)
        ensures
            r@ == n,
    {
        let mut limbs: Vec<u32> = Vec::new();
        limbs.push(n);
        proof {
            reveal_with_fuel(value, 2);
            assert(limbs@.drop_last() =~= Seq::empty());
            assert(n as nat * limb_weight(0) == n) by (nonlinear_arith)
                requires
                    limb_weight(0) == 1,
            ;
        }
        Natural { limbs }
    }

    /// The same number once more.
    pub fn copy(&self) -> (r: Natural)
        ensures
            r@ == self@,
    {
        let mut limbs: Vec<u32> = Vec::new();
        let mut i: usize = 0;
        while i < self.limbs.len()
            invariant
                i <= self.limbs@.len(),
                limbs@ == self.limbs@.take(i as int),
            decreases self.limbs@.len() - i,
        {
            assert(self.limbs@.take(i + 1) =~= self.limbs@.take(i as int).push(
                self.limbs@[i as int],
            ));
            limbs.push(self.limbs[i]);
            i += 1;
        }
        assert(self.limbs@.take(i as int) =~= self.limbs@);
        Natural { limbs }
    }

    /// Multiplies by `factor` and adds `term`.
    pub fn scale(&mut self, factor: u32, term: u32)
        ensures
            final(self)@ == old(self)@ * factor + term,
    {
        let mut limbs: Vec<u32> = Vec::new();
        let mut carry: u64 = term as u64;
        let mut i: usize = 0;
        proof {
            let all = self.limbs@;
            assert(value(all.take(0)) == 0);
            assert(value(limbs@) + carry * limb_weight(0) == value(all.take(0)) * factor + term)
                by (nonlinear_arith)
                requires
                    value(all.take(0)) == 0,
                    value(limbs@) == 0,
                    limb_weight(0) == 1,
                    carry == term,
            ;
        }
        while i < self.limbs.len()
            invariant
                i <= self.limbs@.len(),
                limbs@.len() == i,
                carry <= 0xffff_ffff,
                self.limbs@ == old(self).limbs@,
                value(limbs@) + carry * limb_weight(i as nat) == value(
                    self.limbs@.take(i as int),
                ) * factor + term,
            decreases self.limbs@.len() - i,
        {
            let x: u64 = self.limbs[i] as u64;
            let f: u64 = factor as u64;
            assert(x * f + carry <= 0xffff_ffff * 0xffff_ffff + 0xffff_ffff) by (nonlinear_arith)
                requires
                    x <= 0xffff_ffff,
                    f <= 0xffff_ffff,
                    carry <= 0xffff_ffff,
            ;
            assert(0 <= x * f) by (nonlinear_arith)
                requires
                    x >= 0,
                    f >= 0,
            ;
            let t: u64 = x * f + carry;
            let low: u32 = (t % 0x1_0000_0000) as u32;
            let high: u64 = t / 0x1_0000_0000;
            let ghost before = limbs@;
            proof {
                let all = self.limbs@;
                let w = limb_weight(i as nat);
                let next = limb_weight((i + 1) as nat);
                assert(next == 0x1_0000_0000 * w);
                assert(all.take(i + 1).drop_last() =~= all.take(i as int));
                assert(limbs@.push(low).drop_last() =~= limbs@);
                let a = value(before);
                let b = value(all.take(i as int));
                assert(t == low + high * 0x1_0000_0000);
                assert((a + low * w) + high * next == (b + x * w) * factor + term)
                    by (nonlinear_arith)
                    requires
                        next == 0x1_0000_0000 * w,
                        t == low + high * 0x1_0000_0000,
                        t == x * f + carry,
                        f == factor,
                        a + carry * w == b * factor + term,
                ;
            }
            limbs.push(low);
            carry = high;
            i += 1;
        }
        proof {
            assert(self.limbs@.take(i as int) =~= self.limbs@);
            let top = limbs@.push(carry as u32);
            assert(top.drop_last() =~= limbs@);
        }
        limbs.push(carry as u32);
        self.limbs = limbs;
    }

    /// Multiplies by two to the power of `n`.
    pub fn double(&mut self, n: u32)
        ensures
            final(self)@ == old(self)@ * power(2, n as nat),
    {
        let mut i: u32 = 0;
        assert(self@ * power(2, 0) == self@) by (nonlinear_arith)
            requires
                power(2, 0) == 1,
        ;
        while i < n
            invariant
                i <= n,
                self@ == old(self)@ * power(2, i as nat),
            decreases n - i,
        {
            self.scale(2, 0);
            proof {
                let p = power(2, i as nat);
                let v = old(self)@;
                assert((v * p) * 2 == v * (2 * p)) by (nonlinear_arith);
            }
            i += 1;
        }
    }

    /// Multiplies by ten to the power of `n`.
    pub fn times_ten(&mut self, n: u128)
        ensures
            final(self)@ == old(self)@ * power(10, n as nat),
    {
        let mut i: u128 = 0;
        assert(self@ * power(10, 0) == self@) by (nonlinear_arith)
            requires
                power(10, 0) == 1,
        ;
        while i < n
            invariant
                i <= n,
                self@ == old(self)@ * power(10, i as nat),
            decreases n - i,
        {
            self.scale(10, 0);
            proof {
                let p = power(10, i as nat);
                let v = old(self)@;
                assert((v * p) * 10 == v * (10 * p)) by (nonlinear_arith);
            }
            i += 1;
        }
    }

    fn limb(&self, i: usize) -> (r: u32)
        ensures
            r == (if i < self.limbs@.len() { self.limbs@[i as int] } else { 0 }),
    {
        if i < self.limbs.len() {
            self.limbs[i]
        } else {
            0
        }
    }

    spec fn low_part(&self, i: nat) -> nat {
        value(self.limbs@.take(if i <= self.limbs@.len() { i as int } else { self.limbs@.len() as int }))
    }

    proof fn lemma_low_part(&self, i: nat)
        ensures
            self.low_part(i) < limb_weight(i),
            i < self.limbs@.len() ==> self.low_part(i + 1) == self.low_part(i)
                + self.limbs@[i as int] as nat * limb_weight(i),
            i >= self.limbs@.len() ==> self.low_part(i + 1) == self.low_part(i) && self.low_part(i)
                == self@,
    {
        let all = self.limbs@;
        if i < all.len() {
            assert(all.take((i + 1) as int).drop_last() =~= all.take(i as int));
            lemma_value_bound(all.take(i as int));
        } else {
            assert(all.take(all.len() as int) =~= all);
            lemma_value_bound(all);
            lemma_power_monotone(0x1_0000_0000, all.len(), i);
        }
    }

    /// Compares two numbers: whether the first is smaller, and whether they are the same.
    pub fn compare(&self, other: &Natural) -> (r: (bool, bool))
        ensures
            r.0 == (self@ < other@),
            r.1 == (self@ == other@),
    {
        let len: usize = if self.limbs.len() < other.limbs.len() {
            other.limbs.len()
        } else {
            self.limbs.len()
        };
        let mut less: bool = false;
        let mut equal: bool = true;
        let mut i: usize = 0;
        while i < len
            invariant
                i <= len,
                less == (self.low_part(i as nat) < other.low_part(i as nat)),
                equal == (self.low_part(i as nat) == other.low_part(i as nat)),
            decreases len - i,
        {
            let x: u32 = self.limb(i);
            let y: u32 = other.limb(i);
            proof {
                self.lemma_low_part(i as nat);
                other.lemma_low_part(i as nat);
                let w = limb_weight(i as nat);
                let a = self.low_part(i as nat);
                let b = other.low_part(i as nat);
                assert(0 * w == 0);
                assert(self.low_part((i + 1) as nat) == a + x * w);
                assert(other.low_part((i + 1) as nat) == b + y * w);
                if x < y {
                    assert(a + x * w < b + y * w) by (nonlinear_arith)
                        requires
                            a < w,
                            x + 1 <= y,
                            0 <= b,
                    ;
                } else if y < x {
                    assert(b + y * w < a + x * w) by (nonlinear_arith)
                        requires
                            b < w,
                            y + 1 <= x,
                            0 <= a,
                    ;
                }
            }
            if x != y {
                less = x < y;
                equal = false;
            }
            i += 1;
        }
        proof {
            self.lemma_low_part(len as nat);
            other.lemma_low_part(len as nat);
        }
        (less, equal)
    }
}

} // verus!
