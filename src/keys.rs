use vstd::prelude::*;

verus! {

/// A closed range `[min, max]` of order keys.
///
/// An order key is a `u64` whose unsigned order is the numeric order of the
/// floating-point value it encodes: the key of a non-negative number is its
/// bit pattern with the sign bit set, the key of a negative number is its bit
/// pattern with every bit flipped. The encoding is a bijection on bit
/// patterns, so a key range stands for exactly one range of numbers.
#[derive(Clone, Copy, Debug, PartialEq, Eq, Structural)]
pub struct KeyInterval {
    pub min: u64,
    pub max: u64,
}

/// The order key of `+0.0`.
pub const ZERO_KEY: u64 = 0x8000_0000_0000_0000;

/// The sign bit of an IEEE-754 double.
pub const SIGN_BIT: u64 = 0x8000_0000_0000_0000;

/// The order key of the double whose bit pattern is `bits`.
pub open spec fn key_spec(bits: u64) -> u64 {
    if bits & SIGN_BIT == 0 {
        bits | SIGN_BIT
    } else {
        !bits
    }
}

/// The bit pattern of the double whose order key is `key`.
pub open spec fn bits_spec(key: u64) -> u64 {
    if key & SIGN_BIT != 0 {
        key & !SIGN_BIT
    } else {
        !key
    }
}

/// The order key of the double with bit pattern `bits` (`f64::to_bits`).
pub fn key_of_bits(bits: u64) -> (r: u64)
    ensures
        r == key_spec(bits),
{
    if bits & SIGN_BIT == 0 {
        bits | SIGN_BIT
    } else {
        !bits
    }
}

/// The bit pattern (for `f64::from_bits`) of the double with order key
/// `key`.
pub fn bits_of_key(key: u64) -> (r: u64)
    ensures
        r == bits_spec(key),
        key_spec(r) == key,
{
    proof {
        lemma_bits_then_key(key);
    }
    if key & SIGN_BIT != 0 {
        key & !SIGN_BIT
    } else {
        !key
    }
}

/// Decoding a key and encoding the pattern again gives the key back.
pub proof fn lemma_bits_then_key(key: u64)
    ensures
        key_spec(bits_spec(key)) == key,
{
    assert(key & 0x8000_0000_0000_0000u64 != 0 ==> ((key & !0x8000_0000_0000_0000u64)
        & 0x8000_0000_0000_0000u64 == 0 && (key & !0x8000_0000_0000_0000u64)
        | 0x8000_0000_0000_0000u64 == key)) by (bit_vector);
    assert(key & 0x8000_0000_0000_0000u64 == 0 ==> (!key & 0x8000_0000_0000_0000u64 != 0 && !(
    !key) == key)) by (bit_vector);
}

/// Encoding a bit pattern and decoding the key gives the pattern back: the
/// encoding loses nothing.
pub proof fn lemma_key_then_bits(bits: u64)
    ensures
        bits_spec(key_spec(bits)) == bits,
{
    assert(bits & 0x8000_0000_0000_0000u64 == 0 ==> ((bits | 0x8000_0000_0000_0000u64)
        & 0x8000_0000_0000_0000u64 != 0 && (bits | 0x8000_0000_0000_0000u64)
        & !0x8000_0000_0000_0000u64 == bits)) by (bit_vector);
    assert(bits & 0x8000_0000_0000_0000u64 != 0 ==> (!bits & 0x8000_0000_0000_0000u64 == 0 && !(
    !bits) == bits)) by (bit_vector);
}

/// The key order is the numeric order of doubles: every pattern with the sign
/// bit clear (a non-negative number) keys above every pattern with it set;
/// among non-negative numbers, larger patterns are larger numbers; among
/// negative ones, larger patterns are more negative.
pub proof fn lemma_key_order(a: u64, b: u64)
    ensures
        a & SIGN_BIT == 0 && b & SIGN_BIT != 0 ==> key_spec(b) < key_spec(a),
        a & SIGN_BIT == 0 && b & SIGN_BIT == 0 ==> (key_spec(a) < key_spec(b) <==> a < b),
        a & SIGN_BIT != 0 && b & SIGN_BIT != 0 ==> (key_spec(a) < key_spec(b) <==> b < a),
{
    assert(a & 0x8000_0000_0000_0000u64 == 0 && b & 0x8000_0000_0000_0000u64 != 0 ==> !b < (a
        | 0x8000_0000_0000_0000u64)) by (bit_vector);
    assert(a & 0x8000_0000_0000_0000u64 == 0 && b & 0x8000_0000_0000_0000u64 == 0 ==> ((a
        | 0x8000_0000_0000_0000u64) < (b | 0x8000_0000_0000_0000u64) <==> a < b)) by (bit_vector);
    assert(a & 0x8000_0000_0000_0000u64 != 0 && b & 0x8000_0000_0000_0000u64 != 0 ==> (!a < !b
        <==> b < a)) by (bit_vector);
}

impl KeyInterval {
    /// The degenerate range holding only zero, which no ray crosses with a
    /// positive length.
    pub open spec fn zero() -> KeyInterval {
        KeyInterval { min: ZERO_KEY, max: ZERO_KEY }
    }

    pub open spec fn has(self, k: u64) -> bool {
        self.min <= k <= self.max
    }

    /// Every key of `other` lies in `self`.
    pub open spec fn covers(self, other: KeyInterval) -> bool {
        self.min <= other.min && other.max <= self.max
    }

    pub open spec fn hull(a: KeyInterval, b: KeyInterval) -> KeyInterval {
        KeyInterval {
            min: if a.min <= b.min { a.min } else { b.min },
            max: if a.max >= b.max { a.max } else { b.max },
        }
    }

    /// The smallest range that holds both `a` and `b`.
    pub fn from_interval(a: &KeyInterval, b: &KeyInterval) -> (r: KeyInterval)
        ensures
            r == KeyInterval::hull(*a, *b),
            r.covers(*a),
            r.covers(*b),
            forall|c: KeyInterval| c.covers(*a) && c.covers(*b) ==> c.covers(r),
    {
        let min = if a.min <= b.min { a.min } else { b.min };
        let max = if a.max >= b.max { a.max } else { b.max };
        KeyInterval { min, max }
    }

    /// `min <= k <= max`.
    pub fn contains(&self, k: u64) -> (r: bool)
        ensures
            r == self.has(k),
    {
        self.min <= k && k <= self.max
    }

    /// `min < k < max`.
    pub fn surrounds(&self, k: u64) -> (r: bool)
        ensures
            r == (self.min < k && k < self.max),
    {
        self.min < k && k < self.max
    }
}

/// An axis-aligned box as three key ranges, one per axis.
#[derive(Clone, Copy, Debug, PartialEq, Eq, Structural)]
pub struct KeyBox {
    pub x: KeyInterval,
    pub y: KeyInterval,
    pub z: KeyInterval,
}

impl KeyBox {
    /// The box that stands in for "nothing": zero thickness at the origin.
    pub open spec fn zero() -> KeyBox {
        KeyBox { x: KeyInterval::zero(), y: KeyInterval::zero(), z: KeyInterval::zero() }
    }

    pub open spec fn axis_spec(self, axis: int) -> KeyInterval {
        if axis == 0 {
            self.x
        } else if axis == 1 {
            self.y
        } else {
            self.z
        }
    }

    /// Every point of `other` lies in `self`.
    pub open spec fn covers(self, other: KeyBox) -> bool {
        self.x.covers(other.x) && self.y.covers(other.y) && self.z.covers(other.z)
    }

    pub open spec fn hull(a: KeyBox, b: KeyBox) -> KeyBox {
        KeyBox {
            x: KeyInterval::hull(a.x, b.x),
            y: KeyInterval::hull(a.y, b.y),
            z: KeyInterval::hull(a.z, b.z),
        }
    }

    pub fn empty() -> (r: KeyBox)
        ensures
            r == KeyBox::zero(),
    {
        let z = KeyInterval { min: ZERO_KEY, max: ZERO_KEY };
        KeyBox { x: z, y: z, z: z }
    }

    /// The smallest box that holds both `a` and `b`.
    pub fn from_aabb(a: &KeyBox, b: &KeyBox) -> (r: KeyBox)
        ensures
            r == KeyBox::hull(*a, *b),
            r.covers(*a),
            r.covers(*b),
            forall|c: KeyBox| c.covers(*a) && c.covers(*b) ==> c.covers(r),
    {
        KeyBox {
            x: KeyInterval::from_interval(&a.x, &b.x),
            y: KeyInterval::from_interval(&a.y, &b.y),
            z: KeyInterval::from_interval(&a.z, &b.z),
        }
    }

    /// The key range of the box on axis `axis` (0, 1, 2 for x, y, z).
    pub fn axis(&self, axis: usize) -> (r: KeyInterval)
        requires
            axis < 3,
        ensures
            r == self.axis_spec(axis as int),
    {
        if axis == 0 {
            self.x
        } else if axis == 1 {
            self.y
        } else {
            self.z
        }
    }
}

} // verus!
