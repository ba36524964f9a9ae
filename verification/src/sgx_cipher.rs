//! A request for a sealing key with a key id and attributes of the caller's
//! choice.

use crate::isa::{Attributes, Keyname, Keypolicy, Keyrequest, Report};
use crate::keyrequest::key_id;
use cipher::errors::InvalidLength;
use vstd::prelude::*;

verus! {

/// `cipher::errors::InvalidLength`, the error for a key of the wrong length.
/// It holds nothing.
#[verifier::external_type_specification]
#[verifier::external_body]
pub struct ExInvalidLength(cipher::errors::InvalidLength);

/// Makes the one value of `cipher::errors::InvalidLength`.
#[verifier::external_body]
fn invalid_length() -> InvalidLength {
    InvalidLength
}

/// What a sealing key is derived from, besides the enclave's security
/// versions.
#[derive(Clone, Copy, Debug, PartialEq, Eq)]
pub struct SealKeyrequest {
    pub keypolicy: Keypolicy,
    pub keyid: [u8; 32],
    pub attributes: Attributes,
}

impl SealKeyrequest {
    /// Whether this is the request with the key id `keyid`, no policy bit
    /// and no attribute.
    pub open spec fn is_plain(self, keyid: Seq<u8>) -> bool {
        &&& self.keypolicy.bits_spec() == 0
        &&& self.keyid@ == keyid
        &&& self.attributes.flags == 0
        &&& self.attributes.xfrm == 0
    }

    /// Whether `req` is the `EGETKEY` request for this sealing key in the
    /// enclave that `report` describes: the security versions and the
    /// miscellaneous mask come from the report, the rest from `self`.
    pub open spec fn is_request(self, req: Keyrequest, report: Report) -> bool {
        &&& req.keyname == Keyname::Seal.code_spec()
        &&& req.keypolicy == self.keypolicy
        &&& req.keyid@ == self.keyid@
        &&& req.isvsvn == report.isvsvn
        &&& req.cpusvn@ == report.cpusvn@
        &&& req.miscmask == report.miscselect
        &&& req.attributemask@ == seq![self.attributes.flags, self.attributes.xfrm]
    }

    /// The request whose key id is `slice`, which holds the 32 bytes of a key
    /// id. A longer slice is refused.
    pub fn from_slice(slice: &[u8]) -> (made: Result<Self, InvalidLength>)
        requires
            slice@.len() >= 32,
        ensures
            made is Ok <==> slice@.len() == 32,
            made matches Ok(request) ==> request.is_plain(slice@),
    {
        if slice.len() > 32 {
            Err(invalid_length())
        } else {
            let keyid = key_id(slice);
            assert(keyid@ =~= slice@);
            Ok(Self { keyid, ..Default::default() })
        }
    }

    /// Assembles the `EGETKEY` request for this sealing key.
    pub fn keyrequest(&self, report: &Report) -> (req: Keyrequest)
        ensures
            self.is_request(req, *report),
    {
        let req = Keyrequest {
            keyname: Keyname::Seal.code(),
            keypolicy: self.keypolicy,
            isvsvn: report.isvsvn,
            cpusvn: report.cpusvn,
            attributemask: [self.attributes.flags, self.attributes.xfrm],
            keyid: self.keyid,
            miscmask: report.miscselect,
        };
        assert(req.attributemask@ =~= seq![self.attributes.flags, self.attributes.xfrm]);
        req
    }
}

impl Default for SealKeyrequest {
    fn default() -> (request: Self)
        ensures
            request.is_plain(Seq::new(32, |i: int| 0u8)),
    {
        let request = SealKeyrequest {
            keypolicy: Keypolicy::empty(),
            keyid: [0u8; 32],
            attributes: Attributes::default(),
        };
        assert(request.keyid@ =~= Seq::new(32, |i: int| 0u8));
        request
    }
}

} // verus!
