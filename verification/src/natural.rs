//! Natural numbers of any size, for ratios whose parts outgrow a machine word.
//!
//! A number is a little-endian list of 32-bit limbs. The column geometry needs
//! products and sums of powers, and the floor of a ratio between two of them;
//! nothing else is offered.

use vstd::arithmetic::div_mod::*;
use vstd::prelude::*;

verus! {

/// One more than the largest limb.
pub const BASE: u64 = 0x1_0000_0000;

/// What the limb at `index` counts for.
pub open spec fn weight(index: nat) -> nat
    decreases index,
{
    if index == 0 {
        1
    } else {
        BASE as nat * weight((index - 1) as nat)
    }
}

/// The number a list of limbs stands for.
pub open spec fn limbs_value(limbs: Seq<u32>) -> nat
    decreases limbs.len(),
{
    if limbs.len() == 0 {
        0
    } else {
        limbs_value(limbs.drop_last()) + limbs.last() as nat * weight((limbs.len() - 1) as nat)
    }
}

/// A natural number without an upper bound.
pub struct Natural {
    limbs: Vec<u32>,
}

impl View for Natural {
    type V = nat;

    closed spec fn view(&self) -> nat {
        limbs_value(self.limbs@)
    }
}

/// A list one limb longer is worth that limb more.
proof fn lemma_value_push(limbs: Seq<u32>, limb: u32)
    ensures
        limbs_value(limbs.push(limb)) == limbs_value(limbs) + limb as nat * weight(limbs.len()),
{
    assert(limbs.push(limb).drop_last() =~= limbs);
}

/// The first `i + 1` limbs are the first `i` and the one after them.
proof fn lemma_value_take(limbs: Seq<u32>, i: int)
    requires
        0 <= i < limbs.len(),
    ensures
        limbs_value(limbs.take(i + 1)) == limbs_value(limbs.take(i)) + limbs[i] as nat * weight(
            i as nat,
        ),
{
    assert(limbs.take(i + 1) =~= limbs.take(i).push(limbs[i]));
    lemma_value_push(limbs.take(i), limbs[i]);
}

proof fn lemma_weight_positive(index: nat)
    ensures
        weight(index) > 0,
    decreases index,
{
    if index > 0 {
        lemma_weight_positive((index - 1) as nat);
        assert(BASE as nat * weight((index - 1) as nat) > 0) by (nonlinear_arith)
            requires
                weight((index - 1) as nat) > 0,
                BASE as nat > 0,
        ;
    }
}

/// Every list of limbs is worth less than the next weight.
proof fn lemma_value_bound(limbs: Seq<u32>)
    ensures
        limbs_value(limbs) < weight(limbs.len()),
    decreases limbs.len(),
{
    if limbs.len() > 0 {
        let last = limbs.last() as nat;
        let w = weight((limbs.len() - 1) as nat);
        lemma_value_bound(limbs.drop_last());
        assert(last * w + w <= BASE as nat * w) by (nonlinear_arith)
            requires
                last + 1 <= BASE as nat,
        ;
    }
}

impl Natural {
    /// The natural number `n`.
    pub fn from_u32(n: u32) -> (out: Natural)
        ensures
            out@ == n,
    {
        let mut limbs: Vec<u32> = Vec::new();
        limbs.push(n);
        proof {
            assert(limbs@ =~= Seq::<u32>::empty().push(n));
            lemma_value_push(Seq::<u32>::empty(), n);
            assert(n as nat * 1 == n);
        }
        Natural { limbs }
    }

    /// `self` multiplied by `factor`.
    pub fn times(&self, factor: u32) -> (out: Natural)
        ensures
            out@ == self@ * factor,
    {
        let mut limbs: Vec<u32> = Vec::new();
        let mut carry: u64 = 0;
        let mut i: usize = 0;
        proof {
            assert(limbs_value(self.limbs@.take(0)) == 0);
            assert(0 * factor == 0);
        }
        while i < self.limbs.len()
            invariant
                i <= self.limbs.len(),
                limbs@.len() == i,
                carry < BASE,
                limbs_value(limbs@) + carry as nat * weight(i as nat) == limbs_value(
                    self.limbs@.take(i as int),
                ) * factor,
            decreases self.limbs.len() - i,
        {
            let limb: u32 = self.limbs[i];
            assert(limb as u64 * factor as u64 + carry <= u64::MAX) by (nonlinear_arith)
                requires
                    limb <= 0xffff_ffff,
                    factor <= 0xffff_ffff,
                    carry <= 0xffff_ffff,
            ;
            let product: u64 = limb as u64 * factor as u64 + carry;
            let low: u64 = product % BASE;
            let high: u64 = product / BASE;
            let ghost before = limbs@;
            limbs.push(low as u32);
            proof {
                let w = weight(i as nat) as int;
                let taken = limbs_value(self.limbs@.take(i as int)) as int;
                lemma_value_push(before, low as u32);
                lemma_value_take(self.limbs@, i as int);
                assert(product == high * BASE + low);
                assert(low * w + high * (BASE * w) == product * w) by (nonlinear_arith)
                    requires
                        product == high * BASE + low,
                ;
                assert(product * w == limb * w * factor + carry * w) by (nonlinear_arith)
                    requires
                        product == limb * factor + carry,
                ;
                assert((taken + limb * w) * factor == taken * factor + limb * w * factor)
                    by (nonlinear_arith);
            }
            carry = high;
            i = i + 1;
        }
        let ghost before = limbs@;
        limbs.push(carry as u32);
        proof {
            lemma_value_push(before, carry as u32);
            assert(self.limbs@.take(i as int) =~= self.limbs@);
        }
        Natural { limbs }
    }

    /// The sum of `self` and `other`.
    pub fn plus(&self, other: &Natural) -> (out: Natural)
        ensures
            out@ == self@ + other@,
    {
        let n: usize = if self.limbs.len() < other.limbs.len() {
            other.limbs.len()
        } else {
            self.limbs.len()
        };
        let mut limbs: Vec<u32> = Vec::new();
        let mut carry: u64 = 0;
        let mut i: usize = 0;
        while i < n
            invariant
                i <= n,
                n == self.limbs.len() || n == other.limbs.len(),
                self.limbs.len() <= n,
                other.limbs.len() <= n,
                limbs@.len() == i,
                carry <= 1,
                limbs_value(limbs@) + carry as nat * weight(i as nat) == prefix_value(
                    self.limbs@,
                    i as int,
                ) + prefix_value(other.limbs@, i as int),
            decreases n - i,
        {
            let a: u32 = self.limb(i);
            let b: u32 = other.limb(i);
            let sum: u64 = a as u64 + b as u64 + carry;
            let low: u64 = sum % BASE;
            let high: u64 = sum / BASE;
            let ghost before = limbs@;
            limbs.push(low as u32);
            proof {
                let w = weight(i as nat) as int;
                lemma_value_push(before, low as u32);
                lemma_prefix_step(self.limbs@, i as int);
                lemma_prefix_step(other.limbs@, i as int);
                assert(low * w + high * (BASE * w) == a * w + b * w + carry * w)
                    by (nonlinear_arith)
                    requires
                        a + b + carry == high * BASE + low,
                ;
            }
            carry = high;
            i = i + 1;
        }
        let ghost before = limbs@;
        limbs.push(carry as u32);
        proof {
            lemma_value_push(before, carry as u32);
            lemma_prefix_whole(self.limbs@, n as int);
            lemma_prefix_whole(other.limbs@, n as int);
        }
        Natural { limbs }
    }

    /// The limb at `i`, zero beyond the last one.
    fn limb(&self, i: usize) -> (limb: u32)
        ensures
            limb == limb_at(self.limbs@, i as int),
    {
        if i < self.limbs.len() {
            self.limbs[i]
        } else {
            0
        }
    }

    /// Whether `self` is at most `other`.
    pub fn at_most(&self, other: &Natural) -> (out: bool)
        ensures
            out == (self@ <= other@),
    {
        let n: usize = if self.limbs.len() < other.limbs.len() {
            other.limbs.len()
        } else {
            self.limbs.len()
        };
        let mut at_most: bool = true;
        let mut i: usize = 0;
        while i < n
            invariant
                i <= n,
                self.limbs.len() <= n,
                other.limbs.len() <= n,
                at_most == (prefix_value(self.limbs@, i as int) <= prefix_value(
                    other.limbs@,
                    i as int,
                )),
            decreases n - i,
        {
            let a: u32 = self.limb(i);
            let b: u32 = other.limb(i);
            proof {
                let w = weight(i as nat) as int;
                let left = prefix_value(self.limbs@, i as int) as int;
                let right = prefix_value(other.limbs@, i as int) as int;
                lemma_prefix_step(self.limbs@, i as int);
                lemma_prefix_step(other.limbs@, i as int);
                lemma_prefix_bound(self.limbs@, i as int);
                lemma_prefix_bound(other.limbs@, i as int);
                if a < b {
                    assert(left + a * w <= right + b * w) by (nonlinear_arith)
                        requires
                            a + 1 <= b,
                            left < w,
                            right >= 0,
                            w > 0,
                    ;
                } else if a > b {
                    assert(left + a * w > right + b * w) by (nonlinear_arith)
                        requires
                            b + 1 <= a,
                            right < w,
                            left >= 0,
                            w > 0,
                    ;
                }
            }
            if a < b {
                at_most = true;
            } else if a > b {
                at_most = false;
            }
            i = i + 1;
        }
        proof {
            lemma_prefix_whole(self.limbs@, n as int);
            lemma_prefix_whole(other.limbs@, n as int);
        }
        at_most
    }

    /// The floor of `self / divisor`, known not to exceed `most`.
    pub fn over(&self, divisor: &Natural, most: u32) -> (out: u32)
        requires
            divisor@ > 0,
            self@ < (most + 1) * divisor@,
        ensures
            out == self@ / divisor@,
            out <= most,
    {
        let mut low: u64 = 0;
        let mut high: u64 = most as u64 + 1;
        proof {
            assert(0 * divisor@ == 0);
        }
        while low + 1 < high
            invariant
                low < high <= most + 1,
                low * divisor@ <= self@ < high * divisor@,
            decreases high - low,
        {
            let middle: u64 = low + (high - low) / 2;
            proof {
                assert(middle * divisor@ == divisor@ * middle) by (nonlinear_arith);
            }
            if divisor.times(middle as u32).at_most(self) {
                low = middle;
            } else {
                high = middle;
            }
        }
        proof {
            let d = divisor@ as int;
            let x = self@ as int;
            assert(x - low * d < d) by (nonlinear_arith)
                requires
                    x < high * d,
                    high == low + 1,
            ;
            assert(x == low * d + (x - low * d));
            assert(low * d == d * low) by (nonlinear_arith);
            lemma_fundamental_div_mod_converse(x, d, low as int, x - low * d);
        }
        low as u32
    }
}

/// The limb at `i`, zero beyond the last one.
spec fn limb_at(limbs: Seq<u32>, i: int) -> u32 {
    if i < limbs.len() {
        limbs[i]
    } else {
        0
    }
}

/// The first `i` limbs, as if zeroes followed the last one.
spec fn prefix_value(limbs: Seq<u32>, i: int) -> nat {
    if i < limbs.len() {
        limbs_value(limbs.take(i))
    } else {
        limbs_value(limbs)
    }
}

proof fn lemma_prefix_step(limbs: Seq<u32>, i: int)
    requires
        0 <= i,
    ensures
        prefix_value(limbs, i + 1) == prefix_value(limbs, i) + limb_at(limbs, i) as nat * weight(
            i as nat,
        ),
{
    if i < limbs.len() {
        lemma_value_take(limbs, i);
        assert(limbs.take(limbs.len() as int) =~= limbs);
    } else {
        assert(0 * weight(i as nat) == 0) by (nonlinear_arith);
    }
}

proof fn lemma_prefix_whole(limbs: Seq<u32>, i: int)
    requires
        limbs.len() <= i,
    ensures
        prefix_value(limbs, i) == limbs_value(limbs),
{
}

proof fn lemma_weight_grows(a: nat, b: nat)
    requires
        a <= b,
    ensures
        weight(a) <= weight(b),
    decreases b,
{
    if a < b {
        lemma_weight_grows(a, (b - 1) as nat);
        lemma_weight_positive((b - 1) as nat);
        let w = weight((b - 1) as nat);
        assert(w <= BASE as nat * w) by (nonlinear_arith)
            requires
                BASE as nat >= 1,
        ;
    }
}

proof fn lemma_prefix_bound(limbs: Seq<u32>, i: int)
    requires
        0 <= i,
    ensures
        prefix_value(limbs, i) < weight(i as nat),
{
    if i < limbs.len() {
        lemma_value_bound(limbs.take(i));
    } else {
        lemma_value_bound(limbs);
        lemma_weight_grows(limbs.len(), i as nat);
    }
}

} // verus!
