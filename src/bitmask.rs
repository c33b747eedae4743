use vstd::arithmetic::power2::{lemma2_to64, lemma_pow2_unfold, pow2};
use vstd::prelude::*;

verus! {

/// A controller button, after any remapping by the profile.
#[derive(Debug, Clone, Copy, PartialEq, Eq, Structural, Hash)]
pub enum Button {
    A,
    B,
    X,
    Y,
    LeftShoulder,
    RightShoulder,
    LeftTrigger,
    RightTrigger,
    DPadUp,
    DPadDown,
    DPadLeft,
    DPadRight,
    LeftStick,
    RightStick,
    Start,
    Back,
    Guide,
}

/// Position of a button in a bitmask.
pub open spec fn button_ordinal(b: Button) -> u32 {
    match b {
        Button::A => 0,
        Button::B => 1,
        Button::X => 2,
        Button::Y => 3,
        Button::LeftShoulder => 4,
        Button::RightShoulder => 5,
        Button::LeftTrigger => 6,
        Button::RightTrigger => 7,
        Button::DPadUp => 8,
        Button::DPadDown => 9,
        Button::DPadLeft => 10,
        Button::DPadRight => 11,
        Button::LeftStick => 12,
        Button::RightStick => 13,
        Button::Start => 14,
        Button::Back => 15,
        Button::Guide => 16,
    }
}

impl Button {
    pub fn ordinal(self) -> (r: u32)
        ensures
            r == button_ordinal(self),
            r < 32,
    {
        match self {
            Button::A => 0,
            Button::B => 1,
            Button::X => 2,
            Button::Y => 3,
            Button::LeftShoulder => 4,
            Button::RightShoulder => 5,
            Button::LeftTrigger => 6,
            Button::RightTrigger => 7,
            Button::DPadUp => 8,
            Button::DPadDown => 9,
            Button::DPadLeft => 10,
            Button::DPadRight => 11,
            Button::LeftStick => 12,
            Button::RightStick => 13,
            Button::Start => 14,
            Button::Back => 15,
            Button::Guide => 16,
        }
    }
}

/// Number of set bits of `x`.
pub open spec fn popcount(x: u32) -> nat
    decreases x,
{
    if x == 0 {
        0
    } else {
        (x % 2) as nat + popcount(x / 2)
    }
}

/// Whether bit `i` of `x` is set.
pub open spec fn bit_set(x: u32, i: u32) -> bool {
    (x >> i) & 1u32 == 1u32
}

/// A dense set of buttons, one bit per button ordinal.
#[derive(Debug, Clone, Copy, PartialEq, Eq, Structural, Hash)]
pub struct Bitmask {
    pub bits: u32,
}

pub(crate) proof fn lemma_insert_bit(x: u32, i: u32, j: u32)
    requires
        i < 32,
        j < 32,
    ensures
        bit_set(x | (1u32 << i), j) == (bit_set(x, j) || j == i),
{
    assert(((x | (1u32 << i)) >> j) & 1u32 == 1u32 <==> (((x >> j) & 1u32 == 1u32) || j == i))
        by (bit_vector)
        requires
            i < 32,
            j < 32,
    ;
}

pub(crate) proof fn lemma_remove_bit(x: u32, i: u32, j: u32)
    requires
        i < 32,
        j < 32,
    ensures
        bit_set(x & !(1u32 << i), j) == (bit_set(x, j) && j != i),
{
    assert(((x & !(1u32 << i)) >> j) & 1u32 == 1u32 <==> (((x >> j) & 1u32 == 1u32) && j != i))
        by (bit_vector)
        requires
            i < 32,
            j < 32,
    ;
}

proof fn lemma_popcount_step(x: u32)
    ensures
        x % 2 == x & 1u32,
        x / 2 == x >> 1u32,
{
    assert(x % 2 == x & 1u32) by (bit_vector);
    assert(x / 2 == x >> 1u32) by (bit_vector);
}

proof fn lemma_popcount_bound(x: u32, k: nat)
    requires
        x < pow2(k),
    ensures
        popcount(x) <= k,
    decreases k,
{
    if x != 0 {
        if k == 0 {
            lemma2_to64();
        } else {
            lemma_pow2_unfold(k);
            lemma_popcount_bound(x / 2, (k - 1) as nat);
        }
    }
}

impl Bitmask {
    /// Whether the set holds `b`.
    pub open spec fn has(self, b: Button) -> bool {
        bit_set(self.bits, button_ordinal(b))
    }

    /// `self ⊇ other`, bitwise.
    pub open spec fn superset(self, other: Bitmask) -> bool {
        self.bits & other.bits == other.bits
    }

    /// The set with `b` added.
    pub open spec fn with(self, b: Button) -> Bitmask {
        Bitmask { bits: self.bits | (1u32 << button_ordinal(b)) }
    }

    /// The set with `b` taken out.
    pub open spec fn without(self, b: Button) -> Bitmask {
        Bitmask { bits: self.bits & !(1u32 << button_ordinal(b)) }
    }

    /// Cardinality of the set.
    pub open spec fn size(self) -> nat {
        popcount(self.bits)
    }

    pub fn empty() -> (r: Bitmask)
        ensures
            r.bits == 0,
            forall|b: Button| !r.has(b),
    {
        proof {
            assert forall|i: u32| i < 32 implies !bit_set(0u32, i) by {
                assert((0u32 >> i) & 1u32 == 0u32) by (bit_vector);
            }
        }
        Bitmask { bits: 0 }
    }

    pub fn insert(&mut self, b: Button)
        ensures
            *final(self) == old(self).with(b),
            final(self).has(b),
            forall|c: Button| c != b ==> final(self).has(c) == old(self).has(c),
    {
        let i = b.ordinal();
        let old_bits = self.bits;
        self.bits = self.bits | (1u32 << i);
        proof {
            assert forall|c: Button| #[trigger] final(self).has(c) == (old(self).has(c) || c == b) by {
                lemma_insert_bit(old_bits, i, button_ordinal(c));
            }
        }
    }

    pub fn remove(&mut self, b: Button)
        ensures
            *final(self) == old(self).without(b),
            !final(self).has(b),
            forall|c: Button| c != b ==> final(self).has(c) == old(self).has(c),
    {
        let i = b.ordinal();
        let old_bits = self.bits;
        self.bits = self.bits & !(1u32 << i);
        proof {
            assert forall|c: Button| #[trigger] final(self).has(c) == (old(self).has(c) && c != b) by {
                lemma_remove_bit(old_bits, i, button_ordinal(c));
            }
        }
    }

    pub fn contains(&self, b: Button) -> (r: bool)
        ensures
            r == self.has(b),
    {
        let i = b.ordinal();
        (self.bits >> i) & 1u32 == 1u32
    }

    pub fn is_superset(&self, other: &Bitmask) -> (r: bool)
        ensures
            r == self.superset(*other),
    {
        self.bits & other.bits == other.bits
    }

    pub fn count(&self) -> (r: u32)
        ensures
            r as nat == self.size(),
            r <= 32,
    {
        let mut x: u32 = self.bits;
        let mut n: u32 = 0;
        proof {
            lemma2_to64();
            lemma_popcount_bound(self.bits, 32);
        }
        while x != 0
            invariant
                n as nat + popcount(x) == popcount(self.bits),
                popcount(self.bits) <= 32,
            decreases x,
        {
            proof {
                lemma_popcount_step(x);
            }
            n = n + (x & 1u32);
            x = x >> 1u32;
        }
        n
    }
}

} // verus!
