//! Elements of the base field of the machine.
//!
//! An element is held by its canonical representative, an integer below
//! [`MODULUS`]. The arithmetic itself is the field arithmetic of `winterfell`,
//! whose element type for this field is reached as the base field of its
//! `Rp64_256` hasher.
use vstd::prelude::*;
use vstd::std_specs::convert::FromSpecImpl;
use winterfell::crypto::hashers::Rp64_256;
use winterfell::crypto::ElementHasher;

verus! {

/// The field modulus, `2^64 - 2^32 + 1`.
pub const MODULUS: u64 = 0xFFFF_FFFF_0000_0001;

/// An element of the field of integers modulo [`MODULUS`].
#[derive(Clone, Copy, Debug, PartialEq, Eq, Structural)]
pub struct Felt {
    pub(crate) value: u64,
}

/// The canonical representative of `value`, as `new` followed by `as_int`
/// of the field element of `winterfell` computes it: `new` reduces its
/// argument modulo the field modulus, and `as_int` gives the representative
/// below the modulus.
#[verifier::external_body]
fn canonical_value(value: u64) -> (r: u64)
    ensures
        r == value % MODULUS,
{
    <<Rp64_256 as ElementHasher>::BaseField>::new(value).as_int()
}

/// The canonical representative of the sum of two elements, as the `+` of
/// the field element of `winterfell` computes it from the elements that `a`
/// and `b` stand for.
#[verifier::external_body]
fn canonical_sum(a: u64, b: u64) -> (r: u64)
    ensures
        r == (a + b) % (MODULUS as int),
{
    let x = <<Rp64_256 as ElementHasher>::BaseField>::new(a);
    let y = <<Rp64_256 as ElementHasher>::BaseField>::new(b);
    (x + y).as_int()
}

/// The canonical representative of the product of two elements, as the `*`
/// of the field element of `winterfell` computes it from the elements that
/// `a` and `b` stand for.
#[verifier::external_body]
fn canonical_product(a: u64, b: u64) -> (r: u64)
    ensures
        r == (a * b) % (MODULUS as int),
{
    let x = <<Rp64_256 as ElementHasher>::BaseField>::new(a);
    let y = <<Rp64_256 as ElementHasher>::BaseField>::new(b);
    (x * y).as_int()
}

/// The canonical representative of the additive inverse of an element, as
/// the unary `-` of the field element of `winterfell` computes it from the
/// element that `a` stands for.
#[verifier::external_body]
fn canonical_negation(a: u64) -> (r: u64)
    ensures
        r == (-(a as int)) % (MODULUS as int),
{
    (-<<Rp64_256 as ElementHasher>::BaseField>::new(a)).as_int()
}

impl Felt {
    /// Every element is held by its representative below the modulus.
    #[verifier::type_invariant]
    pub open(crate) spec fn is_canonical(self) -> bool {
        self.value < MODULUS
    }

    /// The canonical representative of the element.
    pub open(crate) spec fn spec_as_int(&self) -> u64 {
        self.value
    }

    /// The element that the integer `v` stands for.
    pub open(crate) spec fn of_int(v: int) -> Felt {
        Felt { value: (v % (MODULUS as int)) as u64 }
    }

    /// The sum of two elements.
    pub open(crate) spec fn spec_plus(self, rhs: Felt) -> Felt {
        Felt::of_int(self.value + rhs.value)
    }

    /// The product of two elements.
    pub open(crate) spec fn spec_times(self, rhs: Felt) -> Felt {
        Felt::of_int(self.value * rhs.value)
    }

    /// The additive inverse of an element.
    pub open(crate) spec fn spec_neg(self) -> Felt {
        Felt::of_int(-(self.value as int))
    }

    /// The element that `value` stands for; a value at or above the modulus
    /// is reduced.
    pub fn new(value: u64) -> (r: Felt)
        ensures
            r == Felt::of_int(value as int),
            r.as_int() == value % MODULUS,
    {
        Felt { value: canonical_value(value) }
    }

    /// The zero of the field.
    pub fn zero() -> (r: Felt)
        ensures
            r == Felt::of_int(0),
            r.as_int() == 0,
    {
        Felt { value: 0 }
    }

    /// The one of the field.
    pub fn one() -> (r: Felt)
        ensures
            r == Felt::of_int(1),
            r.as_int() == 1,
    {
        Felt { value: 1 }
    }

    /// The canonical representative of the element, below [`MODULUS`].
    #[verifier::when_used_as_spec(spec_as_int)]
    pub fn as_int(&self) -> (r: u64)
        ensures
            r == self.spec_as_int(),
            r < MODULUS,
    {
        proof {
            use_type_invariant(self);
        }
        self.value
    }

    /// The sum of two elements.
    #[verifier::when_used_as_spec(spec_plus)]
    pub fn plus(self, rhs: Felt) -> (r: Felt)
        ensures
            r == self.spec_plus(rhs),
            r.as_int() == (self.as_int() + rhs.as_int()) % (MODULUS as int),
    {
        Felt { value: canonical_sum(self.value, rhs.value) }
    }

    /// The product of two elements.
    #[verifier::when_used_as_spec(spec_times)]
    pub fn times(self, rhs: Felt) -> (r: Felt)
        ensures
            r == self.spec_times(rhs),
            r.as_int() == (self.as_int() * rhs.as_int()) % (MODULUS as int),
    {
        Felt { value: canonical_product(self.value, rhs.value) }
    }

    /// The additive inverse of an element.
    #[verifier::when_used_as_spec(spec_neg)]
    pub fn neg(self) -> (r: Felt)
        ensures
            r == self.spec_neg(),
            r.as_int() == (-(self.as_int() as int)) % (MODULUS as int),
    {
        Felt { value: canonical_negation(self.value) }
    }
}

/// What the operations of the field mean for the canonical representatives:
/// each gives the representative of the integer result modulo [`MODULUS`].
pub proof fn lemma_field_values(a: Felt, b: Felt, v: int)
    ensures
        Felt::of_int(v).is_canonical(),
        Felt::of_int(v).as_int() == v % (MODULUS as int),
        a.plus(b) == Felt::of_int(a.as_int() + b.as_int()),
        a.times(b) == Felt::of_int(a.as_int() * b.as_int()),
        a.neg() == Felt::of_int(-(a.as_int() as int)),
        a.is_canonical() ==> Felt::of_int(a.as_int() as int) == a,
{
}

impl From<u32> for Felt {
    /// The element that a 32-bit value stands for.
    fn from(value: u32) -> (r: Felt) {
        Felt { value: value as u64 }
    }
}

impl FromSpecImpl<u32> for Felt {
    open spec fn obeys_from_spec() -> bool {
        true
    }

    open spec fn from_spec(value: u32) -> Felt {
        Felt::of_int(value as int)
    }
}

} // verus!
