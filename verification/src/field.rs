//! Elements of the Pallas base field, held as 32 canonical little-endian bytes.
//!
//! The arithmetic itself is done by `pasta_curves`; this module states what
//! each operation computes and proves the encoding facts around it.

use halo2_proofs::pasta::group::ff::PrimeField;
use halo2_proofs::pasta::Fp;
use vstd::prelude::*;

verus! {

/// The prime `p` of the Pallas base field.
pub open spec fn modulus() -> nat {
    0x40000000000000000000000000000000224698fc094cf91b992d30ed00000001nat
}

/// The number that the bytes from index `from` on spell, least significant byte first.
pub open spec fn le_value_from(bytes: Seq<u8>, from: int) -> nat
    decreases bytes.len() - from,
{
    if 0 <= from < bytes.len() {
        bytes[from] as nat + 256 * le_value_from(bytes, from + 1)
    } else {
        0
    }
}

/// The number that a byte string spells, least significant byte first.
pub open spec fn le_value(bytes: Seq<u8>) -> nat {
    le_value_from(bytes, 0)
}

/// Sum in the field.
pub open spec fn field_add(a: nat, b: nat) -> nat {
    (a + b) % modulus()
}

/// Additive inverse in the field.
pub open spec fn field_neg(a: nat) -> nat {
    ((modulus() - a % modulus()) % (modulus() as int)) as nat
}

/// Product in the field.
pub open spec fn field_mul(a: nat, b: nat) -> nat {
    (a * b) % modulus()
}

/// A sum that stays below `p` is the plain sum.
pub proof fn lemma_field_add_small(a: nat, b: nat)
    requires
        a + b < modulus(),
    ensures
        field_add(a, b) == a + b,
{
    vstd::arithmetic::div_mod::lemma_small_mod(a + b, modulus());
}

/// The bytes of `p`, least significant first.
pub open spec fn modulus_bytes() -> Seq<u8> {
    seq![
        0x01u8, 0x00, 0x00, 0x00, 0xed, 0x30, 0x2d, 0x99,
        0x1b, 0xf9, 0x4c, 0x09, 0xfc, 0x98, 0x46, 0x22,
        0x00, 0x00, 0x00, 0x00, 0x00, 0x00, 0x00, 0x00,
        0x00, 0x00, 0x00, 0x00, 0x00, 0x00, 0x00, 0x40,
    ]
}

/// `modulus_bytes` spells `p`.
pub proof fn lemma_modulus_bytes()
    ensures
        modulus_bytes().len() == 32,
        le_value(modulus_bytes()) == modulus(),
{
    reveal_with_fuel(le_value_from, 34);
}

/// Two strings of one length that spell the same number from `from` on agree from there on.
pub proof fn lemma_le_value_injective(a: Seq<u8>, b: Seq<u8>, from: int)
    requires
        a.len() == b.len(),
        0 <= from,
        le_value_from(a, from) == le_value_from(b, from),
    ensures
        forall|i: int| from <= i < a.len() ==> a[i] == b[i],
    decreases a.len() - from,
{
    if from < a.len() {
        let x = le_value_from(a, from + 1);
        let y = le_value_from(b, from + 1);
        assert(a[from] as nat + 256 * x == b[from] as nat + 256 * y);
        assert(x == y && a[from] == b[from]) by {
            if x < y {
                assert(256 * x + 256 <= 256 * y);
            } else if y < x {
                assert(256 * y + 256 <= 256 * x);
            }
        }
        lemma_le_value_injective(a, b, from + 1);
    }
}

/// An element of the Pallas base field.
///
/// The bytes are the canonical encoding: they spell a number below `p`.
#[derive(Clone, Copy, Debug, PartialEq, Eq)]
pub struct FieldElement {
    bytes: [u8; 32],
}

impl View for FieldElement {
    type V = nat;

    /// The integer in `0..p` that the element stands for.
    closed spec fn view(&self) -> nat {
        le_value(self.bytes@)
    }
}

/// The encoding of `p` itself, the least number that is not canonical.
fn modulus_le_bytes() -> (r: [u8; 32])
    ensures
        r@ == modulus_bytes(),
{
    let r: [u8; 32] = [
        0x01, 0x00, 0x00, 0x00, 0xed, 0x30, 0x2d, 0x99,
        0x1b, 0xf9, 0x4c, 0x09, 0xfc, 0x98, 0x46, 0x22,
        0x00, 0x00, 0x00, 0x00, 0x00, 0x00, 0x00, 0x00,
        0x00, 0x00, 0x00, 0x00, 0x00, 0x00, 0x00, 0x40,
    ];
    assert(r@ =~= modulus_bytes());
    r
}

/// Whether the bytes spell a number below `p`.
pub fn is_canonical(bytes: &[u8; 32]) -> (r: bool)
    ensures
        r == (le_value(bytes@) < modulus()),
{
    let m = modulus_le_bytes();
    proof {
        lemma_modulus_bytes();
    }
    // `below` and `same` compare the numbers spelled from index `i` on.
    let mut below = false;
    let mut same = true;
    let mut i: usize = 32;
    while i > 0
        invariant
            i <= 32,
            m@ == modulus_bytes(),
            below == (le_value_from(bytes@, i as int) < le_value_from(m@, i as int)),
            same == (le_value_from(bytes@, i as int) == le_value_from(m@, i as int)),
        decreases i,
    {
        i -= 1;
        let ghost x = le_value_from(bytes@, i + 1);
        let ghost y = le_value_from(m@, i + 1);
        proof {
            if x < y {
                assert(256 * x + 256 <= 256 * y);
            } else if y < x {
                assert(256 * y + 256 <= 256 * x);
            }
        }
        if same {
            below = bytes[i] < m[i];
            same = bytes[i] == m[i];
        }
    }
    below
}

impl FieldElement {
    /// Every element stands for a number below `p`.
    #[verifier::type_invariant]
    pub open spec fn canonical(self) -> bool {
        self@ < modulus()
    }

    /// The element with the given canonical encoding, if the bytes are one.
    pub fn from_bytes(bytes: [u8; 32]) -> (r: Option<FieldElement>)
        ensures
            r.is_some() == (le_value(bytes@) < modulus()),
            r.is_some() ==> r.unwrap()@ == le_value(bytes@) && r.unwrap().encoding() == bytes@,
    {
        if is_canonical(&bytes) {
            Some(FieldElement { bytes })
        } else {
            None
        }
    }

    /// The canonical encoding, as a sequence of 32 bytes.
    pub closed spec fn encoding(self) -> Seq<u8> {
        self.bytes@
    }

    /// The canonical encoding: 32 bytes, least significant first.
    pub fn to_bytes(&self) -> (r: [u8; 32])
        ensures
            r@ == self.encoding(),
            le_value(r@) == self@,
    {
        self.bytes
    }

    /// The element that stands for `v`.
    pub fn from_u64(v: u64) -> (r: FieldElement)
        ensures
            r@ == v,
    {
        let x1: u64 = v / 256;
        let x2: u64 = x1 / 256;
        let x3: u64 = x2 / 256;
        let x4: u64 = x3 / 256;
        let x5: u64 = x4 / 256;
        let x6: u64 = x5 / 256;
        let x7: u64 = x6 / 256;
        let bytes: [u8; 32] = [
            (v % 256) as u8, (x1 % 256) as u8, (x2 % 256) as u8, (x3 % 256) as u8,
            (x4 % 256) as u8, (x5 % 256) as u8, (x6 % 256) as u8, (x7 % 256) as u8,
            0, 0, 0, 0, 0, 0, 0, 0,
            0, 0, 0, 0, 0, 0, 0, 0,
            0, 0, 0, 0, 0, 0, 0, 0,
        ];
        proof {
            reveal_with_fuel(le_value_from, 34);
            assert(le_value(bytes@) == v);
        }
        FieldElement { bytes }
    }

    /// The additive identity.
    pub fn zero() -> (r: FieldElement)
        ensures
            r@ == 0,
    {
        FieldElement::from_u64(0)
    }

    /// The multiplicative identity.
    pub fn one() -> (r: FieldElement)
        ensures
            r@ == 1,
    {
        FieldElement::from_u64(1)
    }

    /// Whether the element is the additive identity.
    pub fn is_zero(&self) -> (r: bool)
        ensures
            r == (self@ == 0),
    {
        let z = FieldElement::zero();
        self.is_equal(&z)
    }

    /// Whether two elements stand for the same number.
    pub fn is_equal(&self, other: &FieldElement) -> (r: bool)
        ensures
            r == (self@ == other@),
    {
        let mut i: usize = 0;
        while i < 32
            invariant
                i <= 32,
                forall|j: int| 0 <= j < i ==> self.bytes@[j] == other.bytes@[j],
            decreases 32 - i,
        {
            if self.bytes[i] != other.bytes[i] {
                proof {
                    if self@ == other@ {
                        lemma_le_value_injective(self.bytes@, other.bytes@, 0);
                    }
                }
                return false;
            }
            i += 1;
        }
        assert(self.bytes@ =~= other.bytes@);
        true
    }

    /// The sum of two elements.
    pub fn add(&self, other: &FieldElement) -> (r: FieldElement)
        ensures
            r@ == field_add(self@, other@),
    {
        proof {
            use_type_invariant(self);
            use_type_invariant(other);
        }
        let bytes = pallas_add(&self.bytes, &other.bytes);
        FieldElement { bytes }
    }

    /// The additive inverse of an element.
    pub fn neg(&self) -> (r: FieldElement)
        ensures
            r@ == field_neg(self@),
    {
        proof {
            use_type_invariant(self);
        }
        let bytes = pallas_neg(&self.bytes);
        FieldElement { bytes }
    }

    /// The product of two elements.
    pub fn mul(&self, other: &FieldElement) -> (r: FieldElement)
        ensures
            r@ == field_mul(self@, other@),
    {
        proof {
            use_type_invariant(self);
            use_type_invariant(other);
        }
        let bytes = pallas_mul(&self.bytes, &other.bytes);
        FieldElement { bytes }
    }
}

/// Addition of `pasta_curves::Fp` (its `Add`), on canonical encodings.
///
/// Claims that decoding both operands with `from_repr`, adding them and
/// encoding the sum with `to_repr` gives the bytes of `(a + b) mod p`.
#[verifier::external_body]
fn pallas_add(a: &[u8; 32], b: &[u8; 32]) -> (r: [u8; 32])
    requires
        le_value(a@) < modulus(),
        le_value(b@) < modulus(),
    ensures
        le_value(r@) == field_add(le_value(a@), le_value(b@)),
{
    let x = Fp::from_repr(*a).unwrap();
    let y = Fp::from_repr(*b).unwrap();
    (x + y).to_repr()
}

/// Negation of `pasta_curves::Fp` (its `Neg`), on a canonical encoding.
///
/// Claims that the result encodes `(p - a) mod p`.
#[verifier::external_body]
fn pallas_neg(a: &[u8; 32]) -> (r: [u8; 32])
    requires
        le_value(a@) < modulus(),
    ensures
        le_value(r@) == field_neg(le_value(a@)),
{
    let x = Fp::from_repr(*a).unwrap();
    (-x).to_repr()
}

/// Multiplication of `pasta_curves::Fp` (its `Mul`), on canonical encodings.
///
/// Claims that the result encodes `(a * b) mod p`.
#[verifier::external_body]
fn pallas_mul(a: &[u8; 32], b: &[u8; 32]) -> (r: [u8; 32])
    requires
        le_value(a@) < modulus(),
        le_value(b@) < modulus(),
    ensures
        le_value(r@) == field_mul(le_value(a@), le_value(b@)),
{
    let x = Fp::from_repr(*a).unwrap();
    let y = Fp::from_repr(*b).unwrap();
    (x * y).to_repr()
}

} // verus!
