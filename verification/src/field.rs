//! Field elements as canonical little-endian byte strings.

use vstd::prelude::*;

verus! {

/// The natural number that a little-endian byte string denotes.
pub open spec fn le_value(bytes: Seq<u8>) -> nat
    decreases bytes.len(),
{
    if bytes.len() == 0 {
        0
    } else {
        bytes[0] as nat + 256 * le_value(bytes.skip(1))
    }
}

/// A value of the prime field, held as the little-endian bytes of its
/// representative. Two elements are the same value exactly when their bytes
/// agree.
#[derive(Clone, Copy, Debug, PartialEq, Eq, Hash)]
pub struct FieldElement {
    /// Little-endian bytes of the representative.
    pub repr: [u8; 32],
}

impl View for FieldElement {
    type V = Seq<u8>;

    open spec fn view(&self) -> Seq<u8> {
        self.repr@
    }
}

impl FieldElement {
    /// The integer that the element's bytes denote.
    pub open spec fn value(&self) -> nat {
        le_value(self@)
    }

    /// Wraps a byte representation.
    pub fn from_bytes(repr: [u8; 32]) -> (e: FieldElement)
        ensures
            e.repr == repr,
    {
        FieldElement { repr }
    }

    /// The byte representation.
    pub fn to_bytes(&self) -> (repr: [u8; 32])
        ensures
            repr == self.repr,
    {
        self.repr
    }

    /// The additive identity.
    pub fn zero() -> (e: FieldElement)
        ensures
            e == element_of(0),
            e.value() == 0,
    {
        let e = FieldElement { repr: [0u8; 32] };
        proof {
            lemma_zero_bytes(e@);
            lemma_value_injective(e, e);
        }
        e
    }

    /// Whether the element denotes a smaller number than `other`.
    pub fn less_than(&self, other: &FieldElement) -> (b: bool)
        ensures
            b == (self.value() < other.value()),
    {
        let mut i: usize = 32;
        while i > 0
            invariant
                i <= 32,
                forall|j: int| i <= j < 32 ==> self.repr@[j] == other.repr@[j],
            decreases i,
        {
            i -= 1;
            if self.repr[i] != other.repr[i] {
                proof {
                    if self.repr@[i as int] < other.repr@[i as int] {
                        lemma_le_value_decided(self@, other@, i as int);
                    } else {
                        lemma_le_value_decided(other@, self@, i as int);
                    }
                }
                return self.repr[i] < other.repr[i];
            }
        }
        proof {
            assert(self@ =~= other@);
        }
        false
    }

    /// Exact equality of two elements.
    pub fn equals(&self, other: &FieldElement) -> (b: bool)
        ensures
            b == (*self == *other),
    {
        let mut i: usize = 0;
        while i < 32
            invariant
                i <= 32,
                forall|j: int| 0 <= j < i ==> self.repr@[j] == other.repr@[j],
            decreases 32 - i,
        {
            if self.repr[i] != other.repr[i] {
                return false;
            }
            i += 1;
        }
        assert(self.repr =~= other.repr);
        true
    }
}

/// The element that denotes `value`.
pub open spec fn element_of(value: nat) -> FieldElement {
    choose|e: FieldElement| e.value() == value
}

/// Of two byte strings of one length, the one with the smaller byte at
/// the highest position where they differ denotes the smaller number.
pub proof fn lemma_le_value_decided(a: Seq<u8>, b: Seq<u8>, at: int)
    requires
        a.len() == b.len(),
        0 <= at < a.len(),
        a[at] < b[at],
        forall|j: int| at < j < a.len() ==> a[j] == b[j],
    ensures
        le_value(a) < le_value(b),
    decreases a.len(),
{
    if at == 0 {
        assert(a.skip(1) =~= b.skip(1));
    } else {
        lemma_le_value_decided(a.skip(1), b.skip(1), at - 1);
    }
}

/// Byte strings of one length that denote the same number are equal.
pub proof fn lemma_le_value_injective(a: Seq<u8>, b: Seq<u8>)
    requires
        a.len() == b.len(),
        le_value(a) == le_value(b),
    ensures
        a == b,
    decreases a.len(),
{
    if a.len() > 0 {
        lemma_le_value_injective(a.skip(1), b.skip(1));
        assert(a =~= seq![a[0]] + a.skip(1));
        assert(b =~= seq![b[0]] + b.skip(1));
    }
    assert(a =~= b);
}

/// Elements that denote the same number are equal, so an element is the
/// one that `element_of` names for its value.
pub proof fn lemma_value_injective(x: FieldElement, y: FieldElement)
    requires
        x.value() == y.value(),
    ensures
        x == y,
        element_of(x.value()) == x,
{
    lemma_le_value_injective(x@, y@);
    assert(x.repr =~= y.repr);
    let z = element_of(x.value());
    lemma_le_value_injective(x@, z@);
    assert(x.repr =~= z.repr);
}

/// A byte string of zeros denotes zero.
pub proof fn lemma_zero_bytes(bytes: Seq<u8>)
    requires
        forall|i: int| 0 <= i < bytes.len() ==> bytes[i] == 0,
    ensures
        le_value(bytes) == 0,
    decreases bytes.len(),
{
    if bytes.len() > 0 {
        lemma_zero_bytes(bytes.skip(1));
    }
}

} // verus!
