//! Natural numbers of any size, in limbs of 32 bits.

use vstd::prelude::*;

verus! {

/// The weight of limb `i`: 2^32 raised to `i`.
pub open spec fn weight(i: nat) -> nat
    decreases i,
{
    if i == 0 {
        1
    } else {
        0x1_0000_0000 * weight((i - 1) as nat)
    }
}

/// The number that limbs spell in base 2^32, the least significant first.
pub open spec fn limbs_value(limbs: Seq<u32>) -> nat
    decreases limbs.len(),
{
    if limbs.len() == 0 {
        0
    } else {
        limbs_value(limbs.drop_last()) + limbs.last() as nat * weight((limbs.len() - 1) as nat)
    }
}

/// Limb `i`, or zero beyond the last limb.
pub open spec fn limb_at(limbs: Seq<u32>, i: nat) -> nat {
    if i < limbs.len() {
        limbs[i as int] as nat
    } else {
        0
    }
}

/// The number that the first `i` limbs spell.
pub open spec fn low_part(limbs: Seq<u32>, i: nat) -> nat {
    if i < limbs.len() {
        limbs_value(limbs.take(i as int))
    } else {
        limbs_value(limbs)
    }
}

/// A natural number of any size. Scores of the Minkowski distance with a
/// large exponent outgrow every machine integer.
#[derive(Debug)]
pub struct Natural {
    limbs: Vec<u32>,
}

impl View for Natural {
    type V = nat;

    closed spec fn view(&self) -> nat {
        limbs_value(self.limbs@)
    }
}

/// One more limb adds its digit times its weight.
proof fn lemma_low_part_step(limbs: Seq<u32>, i: nat)
    ensures
        low_part(limbs, i + 1) == low_part(limbs, i) + limb_at(limbs, i) * weight(i),
        low_part(limbs, 0) == 0,
{
    assert(limbs.take(0) =~= Seq::<u32>::empty());
    if i < limbs.len() {
        assert(limbs.take(i as int + 1).drop_last() =~= limbs.take(i as int));
        assert(limbs.take(limbs.len() as int) =~= limbs);
    } else {
        assert(0 * weight(i) == 0) by (nonlinear_arith);
    }
}

/// A pushed limb adds its digit times its weight.
proof fn lemma_push_value(limbs: Seq<u32>, digit: u32)
    ensures
        limbs_value(limbs.push(digit)) == limbs_value(limbs) + digit as nat * weight(limbs.len()),
{
    assert(limbs.push(digit).drop_last() =~= limbs);
}

/// The weights are positive and grow with the index.
proof fn lemma_weight_grows(i: nat, j: nat)
    requires
        i <= j,
    ensures
        0 < weight(i) <= weight(j),
        weight(i + 1) == 0x1_0000_0000 * weight(i),
    decreases j,
{
    if j > 0 {
        if i < j {
            lemma_weight_grows(i, (j - 1) as nat);
        } else {
            lemma_weight_grows((i - 1) as nat, (j - 1) as nat);
        }
    }
}

impl Natural {
    /// The number `v`.
    pub fn from_u128(v: u128) -> (n: Natural)
        ensures
            n@ == v,
    {
        let mut limbs: Vec<u32> = Vec::new();
        let mut rest: u128 = v;
        proof {
            assert(rest * weight(0) == rest) by (nonlinear_arith)
                requires
                    weight(0) == 1,
            ;
        }
        while rest > 0
            invariant
                limbs_value(limbs@) + rest * weight(limbs.len() as nat) == v,
            decreases rest,
        {
            let digit = (rest % 0x1_0000_0000) as u32;
            let next = rest / 0x1_0000_0000;
            proof {
                let w = weight(limbs.len() as nat);
                lemma_push_value(limbs@, digit);
                lemma_weight_grows(limbs.len() as nat, limbs.len() as nat);
                assert(digit * w + next * (0x1_0000_0000 * w) == rest * w) by (nonlinear_arith)
                    requires
                        digit + next * 0x1_0000_0000 == rest,
                ;
            }
            limbs.push(digit);
            rest = next;
        }
        proof {
            assert(0 * weight(limbs.len() as nat) == 0) by (nonlinear_arith);
        }
        Natural { limbs }
    }

    /// The number as a machine integer, where it fits in one.
    pub fn to_u128(&self) -> (v: Option<u128>)
        ensures
            v is Some <==> self@ <= u128::MAX,
            v is Some ==> v->0 == self@,
    {
        let mut low: u128 = 0;
        let mut scale: u128 = 1;
        let mut fits = true;
        let mut i: usize = 0;
        proof {
            lemma_low_part_step(self.limbs@, 0);
        }
        while i < self.limbs.len()
            invariant
                i <= self.limbs.len(),
                fits ==> low == low_part(self.limbs@, i as nat),
                fits && i < 4 ==> scale == weight(i as nat) && low < scale,
                !fits ==> low_part(self.limbs@, i as nat) > u128::MAX,
            decreases self.limbs.len() - i,
        {
            let digit = self.limbs[i];
            proof {
                lemma_low_part_step(self.limbs@, i as nat);
                reveal_with_fuel(weight, 5);
                if i >= 4 {
                    lemma_weight_grows(4, i as nat);
                }
                assert(digit > 0 ==> digit * weight(i as nat) >= weight(i as nat))
                    by (nonlinear_arith)
                    requires
                        weight(i as nat) > 0,
                ;
                assert(digit == 0 ==> digit * weight(i as nat) == 0) by (nonlinear_arith);
            }
            if fits {
                if i < 4 {
                    assert(digit * scale + low < 0x1_0000_0000 * scale) by (nonlinear_arith)
                        requires
                            digit <= 0xFFFF_FFFF,
                            low < scale,
                    ;
                    low = low + (digit as u128) * scale;
                    if i < 3 {
                        scale = scale * 0x1_0000_0000;
                    }
                } else if digit != 0 {
                    fits = false;
                }
            }
            i = i + 1;
        }
        if fits {
            Some(low)
        } else {
            None
        }
    }

    /// The product of the number and `m`.
    pub fn times(&self, m: u32) -> (out: Natural)
        ensures
            out@ == self@ * m,
    {
        let mut limbs: Vec<u32> = Vec::new();
        let mut carry: u64 = 0;
        let mut i: usize = 0;
        proof {
            lemma_low_part_step(self.limbs@, 0);
            assert(0 * weight(0) == 0) by (nonlinear_arith);
            assert(0 * m == 0) by (nonlinear_arith);
        }
        while i < self.limbs.len()
            invariant
                i <= self.limbs.len(),
                limbs.len() == i,
                carry < 0x1_0000_0000,
                limbs_value(limbs@) + carry * weight(i as nat) == low_part(self.limbs@, i as nat)
                    * m,
            decreases self.limbs.len() - i,
        {
            let limb = self.limbs[i];
            assert(limb * m <= 0xFFFF_FFFF * 0xFFFF_FFFF) by (nonlinear_arith)
                requires
                    limb <= 0xFFFF_FFFF,
                    m <= 0xFFFF_FFFF,
            ;
            let t: u64 = (limb as u64) * (m as u64) + carry;
            let digit = (t % 0x1_0000_0000) as u32;
            let next = t / 0x1_0000_0000;
            proof {
                let w = weight(i as nat);
                let below = low_part(self.limbs@, i as nat);
                lemma_low_part_step(self.limbs@, i as nat);
                lemma_push_value(limbs@, digit);
                lemma_weight_grows(i as nat, i as nat);
                assert(digit * w + next * (0x1_0000_0000 * w) == (limb * m) * w + carry * w)
                    by (nonlinear_arith)
                    requires
                        digit + next * 0x1_0000_0000 == limb * m + carry,
                ;
                assert((below + limb * w) * m == below * m + (limb * m) * w) by (nonlinear_arith);
            }
            limbs.push(digit);
            carry = next;
            i = i + 1;
        }
        proof {
            lemma_push_value(limbs@, carry as u32);
        }
        limbs.push(carry as u32);
        Natural { limbs }
    }

    /// The sum of the two numbers.
    pub fn plus(&self, other: &Natural) -> (out: Natural)
        ensures
            out@ == self@ + other@,
    {
        let mut limbs: Vec<u32> = Vec::new();
        let mut carry: u64 = 0;
        let mut i: usize = 0;
        proof {
            lemma_low_part_step(self.limbs@, 0);
            lemma_low_part_step(other.limbs@, 0);
            assert(0 * weight(0) == 0) by (nonlinear_arith);
        }
        while i < self.limbs.len() || i < other.limbs.len()
            invariant
                limbs.len() == i,
                carry <= 1,
                limbs_value(limbs@) + carry * weight(i as nat) == low_part(self.limbs@, i as nat)
                    + low_part(other.limbs@, i as nat),
            decreases
                    (if self.limbs.len() >= other.limbs.len() {
                        self.limbs.len()
                    } else {
                        other.limbs.len()
                    }) - i,
        {
            let a: u64 = if i < self.limbs.len() {
                self.limbs[i] as u64
            } else {
                0
            };
            let b: u64 = if i < other.limbs.len() {
                other.limbs[i] as u64
            } else {
                0
            };
            let t: u64 = a + b + carry;
            let digit = (t % 0x1_0000_0000) as u32;
            let next = t / 0x1_0000_0000;
            proof {
                let w = weight(i as nat);
                lemma_low_part_step(self.limbs@, i as nat);
                lemma_low_part_step(other.limbs@, i as nat);
                lemma_push_value(limbs@, digit);
                lemma_weight_grows(i as nat, i as nat);
                assert(a == limb_at(self.limbs@, i as nat));
                assert(b == limb_at(other.limbs@, i as nat));
                assert(digit * w + next * (0x1_0000_0000 * w) == a * w + b * w + carry * w)
                    by (nonlinear_arith)
                    requires
                        digit + next * 0x1_0000_0000 == a + b + carry,
                ;
            }
            limbs.push(digit);
            carry = next;
            i = i + 1;
        }
        proof {
            lemma_push_value(limbs@, carry as u32);
        }
        limbs.push(carry as u32);
        Natural { limbs }
    }

    /// Whether the number is less than `other`.
    pub fn less_than(&self, other: &Natural) -> (less: bool)
        ensures
            less == (self@ < other@),
    {
        let mut less = false;
        let mut equal = true;
        let mut i: usize = 0;
        proof {
            lemma_low_part_step(self.limbs@, 0);
            lemma_low_part_step(other.limbs@, 0);
        }
        while i < self.limbs.len() || i < other.limbs.len()
            invariant
                low_part(self.limbs@, i as nat) < weight(i as nat),
                low_part(other.limbs@, i as nat) < weight(i as nat),
                less == (low_part(self.limbs@, i as nat) < low_part(other.limbs@, i as nat)),
                equal == (low_part(self.limbs@, i as nat) == low_part(other.limbs@, i as nat)),
            decreases
                    (if self.limbs.len() >= other.limbs.len() {
                        self.limbs.len()
                    } else {
                        other.limbs.len()
                    }) - i,
        {
            let a: u32 = if i < self.limbs.len() {
                self.limbs[i]
            } else {
                0
            };
            let b: u32 = if i < other.limbs.len() {
                other.limbs[i]
            } else {
                0
            };
            proof {
                let w = weight(i as nat);
                let x = low_part(self.limbs@, i as nat);
                let y = low_part(other.limbs@, i as nat);
                lemma_low_part_step(self.limbs@, i as nat);
                lemma_low_part_step(other.limbs@, i as nat);
                lemma_weight_grows(i as nat, i as nat);
                assert(a == limb_at(self.limbs@, i as nat));
                assert(b == limb_at(other.limbs@, i as nat));
                assert(x + a * w < 0x1_0000_0000 * w && y + b * w < 0x1_0000_0000 * w)
                    by (nonlinear_arith)
                    requires
                        x < w,
                        y < w,
                        a <= 0xFFFF_FFFF,
                        b <= 0xFFFF_FFFF,
                ;
                assert(a < b ==> x + a * w < y + b * w) by (nonlinear_arith)
                    requires
                        x < w,
                        0 <= y,
                ;
                assert(a > b ==> x + a * w > y + b * w) by (nonlinear_arith)
                    requires
                        y < w,
                        0 <= x,
                ;
                assert(a == b ==> a * w == b * w);
            }
            if a < b {
                less = true;
                equal = false;
            } else if a > b {
                less = false;
                equal = false;
            }
            i = i + 1;
        }
        less
    }
}

} // verus!
