//! Elements of the scalar field of the Pallas curve, held as their canonical
//! little-endian encoding, with the field operations done by `pasta_curves`.

use ff::PrimeField;
use halo2_proofs::pasta::Fp;
use vstd::prelude::*;

verus! {

/// The prime order of the field.
pub open spec fn modulus() -> int {
    limb_base() * limb_base() * limb_base() * 0x4000000000000000 + limb_base() * 0x224698fc094cf91b
        + 0x992d30ed00000001
}

/// The base of a 64-bit limb.
pub open spec fn limb_base() -> int {
    0x1_0000_0000_0000_0000
}

/// The integer that a byte string encodes, least significant byte first.
pub open spec fn le_value(s: Seq<u8>) -> int
    decreases s.len(),
{
    if s.len() == 0 {
        0
    } else {
        s[0] as int + 256 * le_value(s.drop_first())
    }
}

/// The product of two field values.
pub open spec fn field_mul(a: int, b: int) -> int {
    (a * b) % modulus()
}

/// The sum of two field values.
pub open spec fn field_add(a: int, b: int) -> int {
    (a + b) % modulus()
}

/// Two byte strings of one length that encode the same integer are equal.
pub proof fn lemma_le_value_injective(s: Seq<u8>, t: Seq<u8>)
    requires
        s.len() == t.len(),
        le_value(s) == le_value(t),
    ensures
        s == t,
    decreases s.len(),
{
    if s.len() > 0 {
        let vs = le_value(s.drop_first());
        let vt = le_value(t.drop_first());
        let a = s[0] as int;
        let b = t[0] as int;
        assert(a == b && vs == vt) by (nonlinear_arith)
            requires
                a + 256 * vs == b + 256 * vt,
                0 <= a < 256,
                0 <= b < 256,
        ;
        lemma_le_value_injective(s.drop_first(), t.drop_first());
        assert(s =~= seq![s[0]] + s.drop_first());
        assert(t =~= seq![t[0]] + t.drop_first());
    }
}

/// A field element. Its bytes are always the canonical encoding of a value
/// below the modulus.
#[derive(Clone, Copy, Debug)]
pub struct Felt {
    repr: [u8; 32],
}

impl View for Felt {
    type V = int;

    closed spec fn view(&self) -> int {
        le_value(self.repr@)
    }
}

impl Felt {
    #[verifier::type_invariant]
    closed spec fn canonical(&self) -> bool {
        le_value(self.repr@) < modulus()
    }

    /// The element whose value is `v`.
    pub fn from_u64(v: u64) -> (r: Felt)
        ensures
            r@ == v as int,
    {
        fp_from_u64(v)
    }

    /// The element encoded by `bytes`, if they are the canonical encoding of a
    /// value below the modulus.
    pub fn from_bytes(bytes: [u8; 32]) -> (r: Option<Felt>)
        ensures
            r.is_some() == (le_value(bytes@) < modulus()),
            r matches Some(f) ==> f@ == le_value(bytes@),
    {
        fp_from_repr(bytes)
    }

    /// The canonical little-endian encoding of this element.
    pub fn to_bytes(&self) -> (r: [u8; 32])
        ensures
            le_value(r@) == self@,
    {
        self.repr
    }

    /// Whether two elements are the same field value.
    pub fn equals(&self, other: &Felt) -> (r: bool)
        ensures
            r == (self@ == other@),
    {
        let mut i: usize = 0;
        while i < 32
            invariant
                i <= 32,
                forall|j: int| 0 <= j < i ==> self.repr@[j] == other.repr@[j],
            decreases 32 - i,
        {
            if self.repr[i] != other.repr[i] {
                proof {
                    if le_value(self.repr@) == le_value(other.repr@) {
                        lemma_le_value_injective(self.repr@, other.repr@);
                    }
                }
                return false;
            }
            i = i + 1;
        }
        assert(self.repr@ =~= other.repr@);
        true
    }

    /// The product `self * other` in the field.
    pub fn mul(&self, other: &Felt) -> (r: Felt)
        ensures
            r@ == field_mul(self@, other@),
    {
        fp_mul(self, other)
    }

    /// The sum `self + other` in the field.
    pub fn add(&self, other: &Felt) -> (r: Felt)
        ensures
            r@ == field_add(self@, other@),
    {
        fp_add(self, other)
    }
}

/// Relies on `Fp: From<u64>` and `PrimeField::to_repr`: the field element
/// whose value is `v`, in its canonical encoding.
#[verifier::external_body]
fn fp_from_u64(v: u64) -> (r: Felt)
    ensures
        r@ == v as int,
{
    Felt { repr: Fp::from(v).to_repr() }
}

/// Relies on `PrimeField::from_repr` for `Fp`: it accepts exactly the
/// little-endian encodings of values below the modulus, and `to_repr` gives
/// that encoding back.
#[verifier::external_body]
fn fp_from_repr(bytes: [u8; 32]) -> (r: Option<Felt>)
    ensures
        r.is_some() == (le_value(bytes@) < modulus()),
        r matches Some(f) ==> f@ == le_value(bytes@),
{
    let decoded: Option<Fp> = Fp::from_repr(bytes).into();
    decoded.map(|f: Fp| Felt { repr: f.to_repr() })
}

/// Relies on `PrimeField::from_repr`, `Mul` and `to_repr` for `Fp`:
/// multiplication modulo the field's prime. The encodings are canonical, so
/// decoding them succeeds.
#[verifier::external_body]
fn fp_mul(a: &Felt, b: &Felt) -> (r: Felt)
    ensures
        r@ == field_mul(a@, b@),
{
    let x = Fp::from_repr(a.repr).unwrap();
    let y = Fp::from_repr(b.repr).unwrap();
    Felt { repr: (x * y).to_repr() }
}

/// Relies on `PrimeField::from_repr`, `Add` and `to_repr` for `Fp`:
/// addition modulo the field's prime. The encodings are canonical, so
/// decoding them succeeds.
#[verifier::external_body]
fn fp_add(a: &Felt, b: &Felt) -> (r: Felt)
    ensures
        r@ == field_add(a@, b@),
{
    let x = Fp::from_repr(a.repr).unwrap();
    let y = Fp::from_repr(b.repr).unwrap();
    Felt { repr: (x + y).to_repr() }
}

} // verus!
