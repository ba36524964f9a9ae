//! The records that the `EGETKEY` and `EREPORT` instructions read and write,
//! as plain values.

use vstd::prelude::*;

verus! {

/// The kind of key that `EGETKEY` derives.
#[derive(Clone, Copy, Debug, PartialEq, Eq, Structural)]
pub enum Keyname {
    Einittoken,
    Provision,
    ProvisionSeal,
    Report,
    Seal,
}

impl Keyname {
    /// The number that the key request holds for this kind of key.
    pub open spec fn code_spec(self) -> u16 {
        match self {
            Keyname::Einittoken => 0,
            Keyname::Provision => 1,
            Keyname::ProvisionSeal => 2,
            Keyname::Report => 3,
            Keyname::Seal => 4,
        }
    }

    /// The number that the key request holds for this kind of key.
    pub fn code(self) -> (code: u16)
        ensures
            code == self.code_spec(),
    {
        keyname_code(self)
    }
}

/// `sgx_isa::Keyname` cast to `u16`: the discriminant that the enum declares
/// for the variant of the same name, from 0 for `Einittoken` to 4 for `Seal`.
#[verifier::external_body]
fn keyname_code(name: Keyname) -> (code: u16)
    ensures
        code == name.code_spec(),
{
    match name {
        Keyname::Einittoken => sgx_isa::Keyname::Einittoken as u16,
        Keyname::Provision => sgx_isa::Keyname::Provision as u16,
        Keyname::ProvisionSeal => sgx_isa::Keyname::ProvisionSeal as u16,
        Keyname::Report => sgx_isa::Keyname::Report as u16,
        Keyname::Seal => sgx_isa::Keyname::Seal as u16,
    }
}

/// Bit of a key policy that binds the key to the enclave's measurement.
pub const KEYPOLICY_MRENCLAVE: u16 = 1;

/// Bit of a key policy that binds the key to the enclave's signer.
pub const KEYPOLICY_MRSIGNER: u16 = 2;

/// To which identities of the enclave a derived key is bound: a set of the
/// two policy bits.
#[derive(Clone, Copy, Debug, PartialEq, Eq, Structural)]
pub struct Keypolicy {
    bits: u16,
}

impl Keypolicy {
    /// The policy bits as a number.
    pub closed spec fn bits_spec(self) -> u16 {
        self.bits
    }

    #[verifier::type_invariant]
    spec fn in_range(self) -> bool {
        self.bits <= 3
    }

    /// The policy that binds to nothing.
    pub fn empty() -> (policy: Self)
        ensures
            policy.bits_spec() == 0,
    {
        Keypolicy { bits: 0 }
    }

    /// The policy that binds to the enclave's measurement alone.
    pub fn mrenclave() -> (policy: Self)
        ensures
            policy.bits_spec() == KEYPOLICY_MRENCLAVE,
    {
        Keypolicy { bits: KEYPOLICY_MRENCLAVE }
    }

    /// The policy that binds to the enclave's signer alone.
    pub fn mrsigner() -> (policy: Self)
        ensures
            policy.bits_spec() == KEYPOLICY_MRSIGNER,
    {
        Keypolicy { bits: KEYPOLICY_MRSIGNER }
    }

    /// The policy made of the two policy bits of `bits`; its other bits are
    /// dropped.
    pub fn from_bits_truncate(bits: u16) -> (policy: Self)
        ensures
            policy.bits_spec() == bits & 3,
    {
        assert(bits & 3 <= 3) by (bit_vector);
        Keypolicy { bits: bits & 3 }
    }

    /// The policy bits as a number, never more than 3.
    pub fn bits(&self) -> (bits: u16)
        ensures
            bits == self.bits_spec(),
            bits <= 3,
    {
        proof {
            use_type_invariant(self);
        }
        self.bits
    }
}

impl Default for Keypolicy {
    fn default() -> (policy: Self)
        ensures
            policy.bits_spec() == 0,
    {
        Keypolicy::empty()
    }
}

/// The attributes of an enclave: its flags and its extended feature mask.
#[derive(Clone, Copy, Debug, PartialEq, Eq, Structural)]
pub struct Attributes {
    pub flags: u64,
    pub xfrm: u64,
}

impl Default for Attributes {
    fn default() -> (attributes: Self)
        ensures
            attributes.flags == 0,
            attributes.xfrm == 0,
    {
        Attributes { flags: 0, xfrm: 0 }
    }
}

/// What an `EREPORT` call says of the enclave that made it, as far as key
/// requests read it.
#[derive(Clone, Copy, Debug, PartialEq, Eq)]
pub struct Report {
    pub cpusvn: [u8; 16],
    pub miscselect: u32,
    pub attributes: Attributes,
    pub mrenclave: [u8; 32],
    pub mrsigner: [u8; 32],
    pub isvprodid: u16,
    pub isvsvn: u16,
}

/// The enclave that an `EREPORT` call addresses. All zero, it stands for the
/// calling enclave itself.
#[derive(Clone, Copy, Debug, PartialEq, Eq)]
pub struct Targetinfo {
    pub measurement: [u8; 32],
    pub attributes: Attributes,
    pub miscselect: u32,
}

impl Targetinfo {
    /// Whether every field is zero.
    pub open spec fn is_zero(self) -> bool {
        &&& self.measurement@ == Seq::new(32, |i: int| 0u8)
        &&& self.attributes.flags == 0
        &&& self.attributes.xfrm == 0
        &&& self.miscselect == 0
    }
}

impl Default for Targetinfo {
    fn default() -> (target: Self)
        ensures
            target.is_zero(),
    {
        let target = Targetinfo {
            measurement: [0u8; 32],
            attributes: Attributes { flags: 0, xfrm: 0 },
            miscselect: 0,
        };
        assert(target.measurement@ =~= Seq::new(32, |i: int| 0u8));
        target
    }
}

/// The record that `EGETKEY` reads. The fields that the processor reserves
/// are not held: they are always zero.
#[derive(Clone, Copy, Debug, PartialEq, Eq)]
pub struct Keyrequest {
    pub keyname: u16,
    pub keypolicy: Keypolicy,
    pub isvsvn: u16,
    pub cpusvn: [u8; 16],
    pub attributemask: [u64; 2],
    pub keyid: [u8; 32],
    pub miscmask: u32,
}

} // verus!
