//! Outcomes of the low level `ENCLU` calls.

use crate::isa::Report;
use vstd::prelude::*;
use vstd::std_specs::convert::FromSpecImpl;

verus! {

/// Status word of an `ENCLU` call that completed.
pub const STATUS_SUCCESS: u32 = 0;

/// Status word with only bit 1 set.
pub const STATUS_INVALID_ATTRIBUTE: u32 = 2;

/// Status word with only bit 5 set.
pub const STATUS_INVALID_CPUSVN: u32 = 32;

/// Status word with only bit 6 set.
pub const STATUS_INVALID_ISVSVN: u32 = 64;

/// Status word with only bit 8 set.
pub const STATUS_INVALID_KEYNAME: u32 = 256;

/// The error status of a malformed `ENCLU` call
#[derive(Clone, Copy, Debug, PartialEq, Eq, PartialOrd, Ord, Structural)]
pub enum ECallStatus {
    InvalidAttribute,
    InvalidCPUSVN,
    InvalidISVSVN,
    InvalidKeyname,
    Unknown,
}

/// The kind of error that a status word stands for. Each named kind has
/// exactly one word; every other word, zero included, is `Unknown`.
pub open spec fn status_of(code: u32) -> ECallStatus {
    if code == STATUS_INVALID_ATTRIBUTE {
        ECallStatus::InvalidAttribute
    } else if code == STATUS_INVALID_CPUSVN {
        ECallStatus::InvalidCPUSVN
    } else if code == STATUS_INVALID_ISVSVN {
        ECallStatus::InvalidISVSVN
    } else if code == STATUS_INVALID_KEYNAME {
        ECallStatus::InvalidKeyname
    } else {
        ECallStatus::Unknown
    }
}

/// What a status word means to a caller: zero is success, anything else is
/// the error that `status_of` gives.
pub open spec fn classified(code: u32) -> Result<(), ECallStatus> {
    if code == STATUS_SUCCESS {
        Ok(())
    } else {
        Err(status_of(code))
    }
}

impl ECallStatus {
    /// The status word that stands for this kind: its single bit for a named
    /// kind, all bits set for `Unknown`.
    pub open spec fn code_spec(self) -> u32 {
        match self {
            ECallStatus::InvalidAttribute => STATUS_INVALID_ATTRIBUTE,
            ECallStatus::InvalidCPUSVN => STATUS_INVALID_CPUSVN,
            ECallStatus::InvalidISVSVN => STATUS_INVALID_ISVSVN,
            ECallStatus::InvalidKeyname => STATUS_INVALID_KEYNAME,
            ECallStatus::Unknown => u32::MAX,
        }
    }

    /// The text that describes this kind.
    pub open spec fn message_spec(self) -> Seq<char> {
        match self {
            ECallStatus::InvalidAttribute => "ENCLU error: Invalid attribute"@,
            ECallStatus::InvalidCPUSVN => "ENCLU error: Invalid CPUSVN"@,
            ECallStatus::InvalidISVSVN => "ENCLU error: Invalid CPUISVN"@,
            ECallStatus::InvalidKeyname => "ENCLU error: Invalid Keyname"@,
            ECallStatus::Unknown => "ENCLU error: Unknown"@,
        }
    }

    /// The status word that stands for this kind.
    pub fn code(self) -> (code: u32)
        ensures
            code == self.code_spec(),
    {
        match self {
            ECallStatus::InvalidAttribute => STATUS_INVALID_ATTRIBUTE,
            ECallStatus::InvalidCPUSVN => STATUS_INVALID_CPUSVN,
            ECallStatus::InvalidISVSVN => STATUS_INVALID_ISVSVN,
            ECallStatus::InvalidKeyname => STATUS_INVALID_KEYNAME,
            ECallStatus::Unknown => u32::MAX,
        }
    }

    /// The text that describes this kind.
    pub fn message(&self) -> (text: &'static str)
        ensures
            text@ == self.message_spec(),
    {
        match self {
            ECallStatus::InvalidAttribute => "ENCLU error: Invalid attribute",
            ECallStatus::InvalidCPUSVN => "ENCLU error: Invalid CPUSVN",
            ECallStatus::InvalidISVSVN => "ENCLU error: Invalid CPUISVN",
            ECallStatus::InvalidKeyname => "ENCLU error: Invalid Keyname",
            ECallStatus::Unknown => "ENCLU error: Unknown",
        }
    }
}

impl From<u32> for ECallStatus {
    fn from(code: u32) -> (status: Self) {
        if code == STATUS_INVALID_ATTRIBUTE {
            ECallStatus::InvalidAttribute
        } else if code == STATUS_INVALID_CPUSVN {
            ECallStatus::InvalidCPUSVN
        } else if code == STATUS_INVALID_ISVSVN {
            ECallStatus::InvalidISVSVN
        } else if code == STATUS_INVALID_KEYNAME {
            ECallStatus::InvalidKeyname
        } else {
            ECallStatus::Unknown
        }
    }
}

impl FromSpecImpl<u32> for ECallStatus {
    open spec fn obeys_from_spec() -> bool {
        true
    }

    open spec fn from_spec(code: u32) -> Self {
        status_of(code)
    }
}

/// Classifies the status word of an `ENCLU` call: zero is success, one of the
/// four single-bit words is the kind it names, and every other word is
/// `Unknown`.
pub fn classify(code: u32) -> (outcome: Result<(), ECallStatus>)
    ensures
        outcome == classified(code),
{
    if code == STATUS_SUCCESS {
        Ok(())
    } else {
        Err(ECallStatus::from(code))
    }
}

/// Decodes what an `ENCLU[EGETKEY]` call left behind: the key that the
/// processor wrote if the status word is zero, and the status word untouched
/// otherwise.
pub fn egetkey(status: u32, out: [u8; 16]) -> (outcome: Result<[u8; 16], u32>)
    ensures
        status == STATUS_SUCCESS ==> outcome == Ok::<[u8; 16], u32>(out),
        status != STATUS_SUCCESS ==> outcome == Err::<[u8; 16], u32>(status),
{
    if status == STATUS_SUCCESS {
        Ok(out)
    } else {
        Err(status)
    }
}

/// Decodes what an `ENCLU[EREPORT]` call left behind: the report that the
/// processor wrote if the status word is zero, and the status word untouched
/// otherwise.
pub fn ereport(status: u32, out: Report) -> (outcome: Result<Report, u32>)
    ensures
        status == STATUS_SUCCESS ==> outcome == Ok::<Report, u32>(out),
        status != STATUS_SUCCESS ==> outcome == Err::<Report, u32>(status),
{
    if status == STATUS_SUCCESS {
        Ok(out)
    } else {
        Err(status)
    }
}

/// Every kind is the classification of its own status word.
pub proof fn lemma_code_round_trip(status: ECallStatus)
    ensures
        status_of(status.code_spec()) == status,
        classified(status.code_spec()) == Err::<(), ECallStatus>(status),
{
}

/// Classification is total and exact: zero is the only word that succeeds,
/// each named kind comes from its one word and from no other, and all the
/// remaining words are `Unknown`.
pub proof fn lemma_classification_exact(code: u32)
    ensures
        classified(code) is Ok <==> code == 0,
        classified(code) == Err::<(), ECallStatus>(ECallStatus::InvalidAttribute) <==> code == 1u32 << 1,
        classified(code) == Err::<(), ECallStatus>(ECallStatus::InvalidCPUSVN) <==> code == 1u32 << 5,
        classified(code) == Err::<(), ECallStatus>(ECallStatus::InvalidISVSVN) <==> code == 1u32 << 6,
        classified(code) == Err::<(), ECallStatus>(ECallStatus::InvalidKeyname) <==> code == 1u32 << 8,
        classified(code) == Err::<(), ECallStatus>(ECallStatus::Unknown) <==> (code != 0 && code != 1u32 << 1
            && code != 1u32 << 5 && code != 1u32 << 6 && code != 1u32 << 8),
{
    assert(1u32 << 1 == 2 && 1u32 << 5 == 32 && 1u32 << 6 == 64 && 1u32 << 8 == 256) by (bit_vector);
}

} // verus!
