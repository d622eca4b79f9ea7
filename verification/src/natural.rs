//! Whole numbers without an upper limit.
//!
//! Decimal text can hold more digits than a machine word. [`Natural`] keeps a
//! number as 32-bit limbs, least significant first, and offers the few
//! operations that exact rounding needs.
use vstd::prelude::*;

verus! {

/// The number of values of one limb.
pub const LIMB: u64 = 0x1_0000_0000;

/// A whole number of any size.
#[derive(Debug)]
pub struct Natural {
    limbs: Vec<u32>,
}

/// The value of one step at a limb position.
spec fn weight(position: nat) -> nat
    decreases position,
{
    if position == 0 {
        1
    } else {
        weight((position - 1) as nat) * LIMB as nat
    }
}

/// The limb at a position. Positions beyond the stored limbs hold zero.
spec fn limb(limbs: Seq<u32>, position: int) -> nat {
    if 0 <= position < limbs.len() {
        limbs[position] as nat
    } else {
        0
    }
}

/// The number that the lowest limbs spell.
spec fn low_value(limbs: Seq<u32>, count: nat) -> nat
    decreases count,
{
    if count == 0 {
        0
    } else {
        low_value(limbs, (count - 1) as nat) + limb(limbs, count - 1) * weight((count - 1) as nat)
    }
}

impl View for Natural {
    type V = nat;

    closed spec fn view(&self) -> nat {
        low_value(self.limbs@, self.limbs@.len())
    }
}

/// Limbs that agree below a position spell the same low number.
proof fn lemma_low_value_agrees(left: Seq<u32>, right: Seq<u32>, count: nat)
    requires
        forall|i: int| 0 <= i < count ==> limb(left, i) == limb(right, i),
    ensures
        low_value(left, count) == low_value(right, count),
    decreases count,
{
    if count > 0 {
        lemma_low_value_agrees(left, right, (count - 1) as nat);
        assert(limb(left, count - 1) == limb(right, count - 1));
    }
}

/// The low limbs spell a number below the weight of the next position.
proof fn lemma_low_value_is_below_the_weight(limbs: Seq<u32>, count: nat)
    ensures
        low_value(limbs, count) < weight(count),
    decreases count,
{
    if count > 0 {
        lemma_low_value_is_below_the_weight(limbs, (count - 1) as nat);
        let below = low_value(limbs, (count - 1) as nat);
        let step = weight((count - 1) as nat);
        let digit = limb(limbs, count - 1);
        assert(below + digit * step < step * LIMB as nat) by (nonlinear_arith)
            requires
                below < step,
                digit <= LIMB - 1,
        ;
    }
}

/// Positions beyond the stored limbs add nothing.
proof fn lemma_low_value_beyond_the_limbs(limbs: Seq<u32>, count: nat)
    requires
        count >= limbs.len(),
    ensures
        low_value(limbs, count) == low_value(limbs, limbs.len()),
    decreases count,
{
    if count > limbs.len() {
        lemma_low_value_beyond_the_limbs(limbs, (count - 1) as nat);
        assert(limb(limbs, count - 1) * weight((count - 1) as nat) == 0) by (nonlinear_arith)
            requires
                limb(limbs, count - 1) == 0,
        ;
    }
}

impl Clone for Natural {
    fn clone(&self) -> (copy: Natural)
        ensures
            copy@ == self@,
    {
        let limbs = self.limbs.clone();
        proof {
            assert(limbs@ =~= self.limbs@);
        }
        Natural { limbs }
    }
}

impl Natural {
    /// Creates a number from one machine word.
    pub fn from_word(word: u64) -> (number: Natural)
        ensures
            number@ == word,
    {
        let mut limbs: Vec<u32> = Vec::new();
        limbs.push((word % LIMB) as u32);
        limbs.push((word / LIMB) as u32);
        proof {
            reveal_with_fuel(low_value, 3);
            reveal_with_fuel(weight, 2);
            assert(limb(limbs@, 0) == word % LIMB);
            assert(limb(limbs@, 1) == word / LIMB);
            assert(weight(0) == 1 && weight(1) == LIMB);
            assert(limb(limbs@, 0) * weight(0) == limb(limbs@, 0)) by (nonlinear_arith)
                requires
                    weight(0) == 1,
            ;
            assert(low_value(limbs@, 1) == word % LIMB);
            assert(low_value(limbs@, 2) == word % LIMB + (word / LIMB) * LIMB);
        }
        Natural { limbs }
    }

    /// Multiplies the number by a factor and adds an addend.
    pub fn multiply_and_add(&mut self, factor: u32, addend: u32)
        ensures
            final(self)@ == old(self)@ * factor + addend,
    {
        let ghost before = self.limbs@;
        let mut carry: u64 = addend as u64;
        let mut position: usize = 0;
        let length: usize = self.limbs.len();
        proof {
            reveal_with_fuel(low_value, 1);
            assert(low_value(before, 0) * factor == 0) by (nonlinear_arith)
                requires
                    low_value(before, 0) == 0,
            ;
            assert(carry * weight(0) == carry) by (nonlinear_arith)
                requires
                    weight(0) == 1,
            ;
        }
        while position < length
            invariant
                length == before.len(),
                self.limbs@.len() == length,
                position <= length,
                carry < LIMB,
                low_value(self.limbs@, position as nat) + carry * weight(position as nat)
                    == low_value(before, position as nat) * factor + addend,
                forall|i: int| position <= i < length ==> self.limbs@[i] == before[i],
            decreases length - position,
        {
            let ghost current = self.limbs@;
            let digit: u32 = self.limbs[position];
            proof {
                assert(digit * factor + carry <= (LIMB - 1) * (LIMB - 1) + (LIMB - 1))
                    by (nonlinear_arith)
                    requires
                        digit <= LIMB - 1,
                        factor <= LIMB - 1,
                        carry <= LIMB - 1,
                ;
            }
            let total: u64 = digit as u64 * factor as u64 + carry;
            self.limbs.set(position, (total % LIMB) as u32);
            proof {
                let now = self.limbs@;
                let p = position as nat;
                lemma_low_value_agrees(current, now, p);
                let step = weight(p);
                let low = total % LIMB;
                let high = total / LIMB;
                assert(limb(now, p as int) == low);
                assert(limb(before, p as int) == digit);
                assert(high < LIMB) by (nonlinear_arith)
                    requires
                        high == total / LIMB,
                        LIMB == 0x1_0000_0000,
                        total <= (LIMB - 1) * (LIMB - 1) + (LIMB - 1),
                ;
                assert(low * step + high * (step * LIMB as nat) == total * step)
                    by (nonlinear_arith)
                    requires
                        total == high * LIMB + low,
                ;
                assert((low_value(before, p) + digit * step) * factor + addend == low_value(
                    before,
                    p,
                ) * factor + addend + (digit * factor) * step) by (nonlinear_arith);
                assert((digit * factor + carry) * step == (digit * factor) * step + carry * step)
                    by (nonlinear_arith);
            }
            carry = total / LIMB;
            position += 1;
        }
        if carry > 0 {
            let ghost current = self.limbs@;
            self.limbs.push(carry as u32);
            proof {
                lemma_low_value_agrees(current, self.limbs@, length as nat);
            }
        } else {
            proof {
                assert(carry * weight(length as nat) == 0) by (nonlinear_arith)
                    requires
                        carry == 0,
                ;
            }
        }
    }

    /// Doubles the number.
    pub fn double(&mut self)
        ensures
            final(self)@ == 2 * old(self)@,
    {
        self.multiply_and_add(2, 0);
    }

    /// Adds another number.
    pub fn add_natural(&mut self, other: &Natural)
        ensures
            final(self)@ == old(self)@ + other@,
    {
        while self.limbs.len() < other.limbs.len()
            invariant
                self@ == old(self)@,
            decreases other.limbs.len() - self.limbs.len(),
        {
            let ghost shorter = self.limbs@;
            self.limbs.push(0);
            proof {
                lemma_low_value_agrees(shorter, self.limbs@, self.limbs@.len());
                lemma_low_value_beyond_the_limbs(shorter, self.limbs@.len());
            }
        }
        let ghost before = self.limbs@;
        let length: usize = self.limbs.len();
        let mut carry: u64 = 0;
        let mut position: usize = 0;
        proof {
            assert(carry * weight(0) == 0) by (nonlinear_arith)
                requires
                    carry == 0,
            ;
        }
        while position < length
            invariant
                length == before.len(),
                self.limbs@.len() == length,
                position <= length,
                carry <= 1,
                low_value(self.limbs@, position as nat) + carry * weight(position as nat)
                    == low_value(before, position as nat) + low_value(
                    other.limbs@,
                    position as nat,
                ),
                forall|i: int| position <= i < length ==> self.limbs@[i] == before[i],
            decreases length - position,
        {
            let ghost current = self.limbs@;
            let left: u64 = self.limbs[position] as u64;
            let right: u64 = other.limb_at(position) as u64;
            let total: u64 = left + right + carry;
            self.limbs.set(position, (total % LIMB) as u32);
            proof {
                let now = self.limbs@;
                let p = position as nat;
                lemma_low_value_agrees(current, now, p);
                let step = weight(p);
                let low = total % LIMB;
                let high = total / LIMB;
                assert(limb(now, p as int) == low);
                assert(limb(before, p as int) == left);
                assert(low * step + high * (step * LIMB as nat) == left * step + right * step
                    + carry * step) by (nonlinear_arith)
                    requires
                        left + right + carry == high * LIMB + low,
                ;
            }
            carry = total / LIMB;
            position += 1;
        }
        proof {
            lemma_low_value_beyond_the_limbs(other.limbs@, length as nat);
        }
        if carry > 0 {
            let ghost current = self.limbs@;
            self.limbs.push(carry as u32);
            proof {
                lemma_low_value_agrees(current, self.limbs@, length as nat);
            }
        } else {
            proof {
                assert(carry * weight(length as nat) == 0) by (nonlinear_arith)
                    requires
                        carry == 0,
                ;
            }
        }
    }

    /// Returns the limb at a position, and zero beyond the stored limbs.
    fn limb_at(&self, position: usize) -> (value: u32)
        ensures
            value == limb(self.limbs@, position as int),
    {
        if position < self.limbs.len() {
            self.limbs[position]
        } else {
            0
        }
    }

    /// Reports whether this number is smaller than another.
    pub fn is_below(&self, other: &Natural) -> (below: bool)
        ensures
            below == (self@ < other@),
    {
        let mut position: usize = if self.limbs.len() < other.limbs.len() {
            other.limbs.len()
        } else {
            self.limbs.len()
        };
        proof {
            lemma_low_value_beyond_the_limbs(self.limbs@, position as nat);
            lemma_low_value_beyond_the_limbs(other.limbs@, position as nat);
        }
        while position > 0
            invariant
                self@ - other@ == low_value(self.limbs@, position as nat) - low_value(
                    other.limbs@,
                    position as nat,
                ),
            decreases position,
        {
            position -= 1;
            let left: u32 = self.limb_at(position);
            let right: u32 = other.limb_at(position);
            proof {
                let p = position as nat;
                lemma_low_value_is_below_the_weight(self.limbs@, p);
                lemma_low_value_is_below_the_weight(other.limbs@, p);
                let step = weight(p);
                if left < right {
                    assert(left * step + step <= right * step) by (nonlinear_arith)
                        requires
                            left + 1 <= right,
                    ;
                } else if right < left {
                    assert(right * step + step <= left * step) by (nonlinear_arith)
                        requires
                            right + 1 <= left,
                    ;
                }
            }
            if left < right {
                return true;
            }
            if right < left {
                return false;
            }
        }
        false
    }

    /// Subtracts a number that is not larger.
    pub fn subtract(&mut self, other: &Natural)
        requires
            other@ <= old(self)@,
        ensures
            final(self)@ == old(self)@ - other@,
    {
        let ghost before = self.limbs@;
        let length: usize = self.limbs.len();
        let mut borrow: u64 = 0;
        let mut position: usize = 0;
        proof {
            assert(borrow * weight(0) == 0) by (nonlinear_arith)
                requires
                    borrow == 0,
            ;
        }
        while position < length
            invariant
                length == before.len(),
                self.limbs@.len() == length,
                position <= length,
                borrow <= 1,
                low_value(self.limbs@, position as nat) + low_value(other.limbs@, position as nat)
                    == low_value(before, position as nat) + borrow * weight(position as nat),
                forall|i: int| position <= i < length ==> self.limbs@[i] == before[i],
            decreases length - position,
        {
            let ghost current = self.limbs@;
            let left: u64 = self.limbs[position] as u64;
            let right: u64 = other.limb_at(position) as u64 + borrow;
            let ghost old_borrow = borrow;
            let digit: u64 = if left < right {
                borrow = 1;
                left + LIMB - right
            } else {
                borrow = 0;
                left - right
            };
            self.limbs.set(position, digit as u32);
            proof {
                let now = self.limbs@;
                let p = position as nat;
                lemma_low_value_agrees(current, now, p);
                let step = weight(p);
                let taken = limb(other.limbs@, p as int);
                assert(limb(now, p as int) == digit);
                assert(limb(before, p as int) == left);
                assert(digit * step + taken * step + old_borrow * step == left * step + borrow * (
                step * LIMB as nat)) by (nonlinear_arith)
                    requires
                        digit + taken + old_borrow == left + borrow * LIMB,
                ;
            }
            position += 1;
        }
        proof {
            let n = length as nat;
            lemma_low_value_is_below_the_weight(self.limbs@, n);
            lemma_below_a_longer_number(other.limbs@, n);
            if borrow == 1 {
                assert(borrow * weight(n) == weight(n)) by (nonlinear_arith)
                    requires
                        borrow == 1,
                ;
            } else {
                assert(borrow * weight(n) == 0) by (nonlinear_arith)
                    requires
                        borrow == 0,
                ;
            }
            if low_value(other.limbs@, n) < other@ {
                lemma_low_value_is_below_the_weight(before, n);
            }
        }
    }
}

/// The low limbs spell the whole number, or the number reaches the weight of
/// the next position.
proof fn lemma_below_a_longer_number(limbs: Seq<u32>, count: nat)
    ensures
        low_value(limbs, count) <= low_value(limbs, limbs.len()),
        low_value(limbs, count) == low_value(limbs, limbs.len()) || low_value(limbs, limbs.len())
            >= weight(count),
{
    if count >= limbs.len() {
        lemma_low_value_beyond_the_limbs(limbs, count);
    } else {
        lemma_low_value_grows(limbs, count, limbs.len());
    }
}

/// More limbs spell the same number or one that reaches the next weight.
proof fn lemma_low_value_grows(limbs: Seq<u32>, count: nat, more: nat)
    requires
        count <= more,
    ensures
        low_value(limbs, count) <= low_value(limbs, more),
        low_value(limbs, count) == low_value(limbs, more) || low_value(limbs, more) >= weight(
            count,
        ),
        weight(count) <= weight(more),
    decreases more,
{
    if count < more {
        let previous = (more - 1) as nat;
        lemma_low_value_grows(limbs, count, previous);
        let digit = limb(limbs, previous as int);
        let step = weight(previous);
        assert(step <= step * LIMB as nat) by (nonlinear_arith)
            requires
                LIMB >= 1,
        ;
        if digit == 0 {
            assert(digit * step == 0) by (nonlinear_arith)
                requires
                    digit == 0,
            ;
        } else {
            assert(step <= digit * step) by (nonlinear_arith)
                requires
                    digit >= 1,
            ;
        }
    }
}

/// Numbers are added and taken away without a limit: a difference gives back what
/// a sum was made of.
pub proof fn law_sums_are_exact(number: &mut Natural, other: Natural)
    requires
        call_ensures(Natural::add_natural, (number, &other), ()),
    ensures
        final(number)@ - other@ == old(number)@,
        final(number)@ - old(number)@ == other@,
{
}

/// A difference and the number that was taken away make the number again.
pub proof fn law_differences_are_exact(number: &mut Natural, other: Natural)
    requires
        call_ensures(Natural::subtract, (number, &other), ()),
        other@ <= old(number)@,
    ensures
        final(number)@ + other@ == old(number)@,
{
}

/// A double is the number twice.
pub proof fn law_doubles_are_exact(number: &mut Natural)
    requires
        call_ensures(Natural::double, (number,), ()),
    ensures
        final(number)@ == old(number)@ + old(number)@,
{
}

/// A product and an addend are exact, whatever their size.
pub proof fn law_products_are_exact(number: &mut Natural, factor: u32, addend: u32)
    requires
        call_ensures(Natural::multiply_and_add, (number, factor, addend), ()),
    ensures
        final(number)@ - addend == old(number)@ * factor,
{
}

} // verus!
