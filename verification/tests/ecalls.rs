use sgx_keyreq::ecalls::{
    classify, egetkey, ereport, ECallStatus, STATUS_INVALID_ATTRIBUTE, STATUS_INVALID_CPUSVN,
    STATUS_INVALID_ISVSVN, STATUS_INVALID_KEYNAME, STATUS_SUCCESS,
};
use sgx_keyreq::isa::{Attributes, Keyname, Keypolicy, Keyrequest, Report, Targetinfo};
use sgx_keyreq::keyrequest::build_keyrequest;
use sgx_keyreq::KeyOpts;

fn enclave() -> Report {
    Report {
        cpusvn: [7; 16],
        miscselect: 1,
        attributes: Attributes { flags: 0x7, xfrm: 0x3 },
        mrenclave: [0xaa; 32],
        mrsigner: [0xbb; 32],
        isvprodid: 9,
        isvsvn: 2,
    }
}

fn processor_report(target: Targetinfo, data: [u8; 64]) -> (u32, Report) {
    assert_eq!(target, Targetinfo::default());
    assert_eq!(data, [0u8; 64]);
    (0, enclave())
}

fn processor_key(request: Keyrequest) -> (u32, [u8; 16]) {
    if request.keyname > 4 {
        return (256, [0; 16]);
    }
    if request.keyname < 3 {
        return (2, [0; 16]);
    }
    let mut key = [0u8; 16];
    for i in 0..16 {
        key[i] = request.keyid[i] ^ request.keyid[i + 16] ^ (0x51 + i as u8) ^ (request.keyname as u8);
    }
    key[0] |= 1;
    (0, key)
}

#[test]
fn ecalls_empty_seal_key_request() {
    let request = build_keyrequest(
        KeyOpts { name: Keyname::Seal, policy: Keypolicy::empty() },
        &Report {
            cpusvn: [0; 16],
            miscselect: 0,
            attributes: Attributes::default(),
            mrenclave: [0; 32],
            mrsigner: [0; 32],
            isvprodid: 0,
            isvsvn: 0,
        },
        [0; 32],
    );
    assert_eq!(request.keyname, 4);
    let (status, out) = processor_key(request);
    assert!(egetkey(status, out).is_ok())
}

#[test]
fn report_for_self() {
    let (status, out) = processor_report(Targetinfo::default(), [0; 64]);
    assert!(ereport(status, out).is_ok())
}

#[test]
fn egetkey_hands_the_key_on_when_the_status_is_zero() {
    let mut key = [0u8; 16];
    for i in 0..16 {
        key[i] = i as u8 + 1;
    }
    assert_eq!(egetkey(0, key), Ok(key));
}

#[test]
fn egetkey_hands_the_status_on_untouched() {
    assert_eq!(egetkey(2, [9; 16]), Err(2));
    assert_eq!(egetkey(3, [9; 16]), Err(3));
    assert_eq!(egetkey(u32::MAX, [0; 16]), Err(u32::MAX));
}

#[test]
fn ereport_hands_the_report_on_when_the_status_is_zero() {
    assert_eq!(ereport(0, enclave()), Ok(enclave()));
}

#[test]
fn ereport_hands_the_status_on_untouched() {
    assert_eq!(ereport(64, enclave()), Err(64));
    assert_eq!(ereport(1, enclave()), Err(1));
}

#[test]
fn status_words_are_single_bits() {
    assert_eq!(STATUS_SUCCESS, 0);
    assert_eq!(STATUS_INVALID_ATTRIBUTE, 1 << 1);
    assert_eq!(STATUS_INVALID_CPUSVN, 1 << 5);
    assert_eq!(STATUS_INVALID_ISVSVN, 1 << 6);
    assert_eq!(STATUS_INVALID_KEYNAME, 1 << 8);
}

#[test]
fn classify_zero_is_success() {
    assert_eq!(classify(0), Ok(()));
}

#[test]
fn classify_names_each_single_bit() {
    assert_eq!(classify(2), Err(ECallStatus::InvalidAttribute));
    assert_eq!(classify(32), Err(ECallStatus::InvalidCPUSVN));
    assert_eq!(classify(64), Err(ECallStatus::InvalidISVSVN));
    assert_eq!(classify(256), Err(ECallStatus::InvalidKeyname));
}

#[test]
fn classify_anything_else_is_unknown() {
    for code in [1u32, 3, 4, 8, 16, 33, 34, 96, 128, 257, 258, 512, 1 << 31, u32::MAX] {
        assert_eq!(classify(code), Err(ECallStatus::Unknown), "status {}", code);
    }
}

#[test]
fn classify_is_exact_on_the_first_thousand_words() {
    for code in 0u32..1000 {
        let expected = match code {
            0 => Ok(()),
            2 => Err(ECallStatus::InvalidAttribute),
            32 => Err(ECallStatus::InvalidCPUSVN),
            64 => Err(ECallStatus::InvalidISVSVN),
            256 => Err(ECallStatus::InvalidKeyname),
            _ => Err(ECallStatus::Unknown),
        };
        assert_eq!(classify(code), expected);
    }
}

#[test]
fn from_maps_words_to_kinds() {
    assert_eq!(ECallStatus::from(2), ECallStatus::InvalidAttribute);
    assert_eq!(ECallStatus::from(32), ECallStatus::InvalidCPUSVN);
    assert_eq!(ECallStatus::from(64), ECallStatus::InvalidISVSVN);
    assert_eq!(ECallStatus::from(256), ECallStatus::InvalidKeyname);
    assert_eq!(ECallStatus::from(0), ECallStatus::Unknown);
    assert_eq!(ECallStatus::from(6), ECallStatus::Unknown);
    assert_eq!(ECallStatus::from(u32::MAX), ECallStatus::Unknown);
}

#[test]
fn code_round_trips_through_from() {
    let kinds = [
        ECallStatus::InvalidAttribute,
        ECallStatus::InvalidCPUSVN,
        ECallStatus::InvalidISVSVN,
        ECallStatus::InvalidKeyname,
        ECallStatus::Unknown,
    ];
    for kind in kinds {
        assert_eq!(ECallStatus::from(kind.code()), kind);
        assert_eq!(classify(kind.code()), Err(kind));
    }
    assert_eq!(ECallStatus::InvalidAttribute.code(), 2);
    assert_eq!(ECallStatus::InvalidCPUSVN.code(), 32);
    assert_eq!(ECallStatus::InvalidISVSVN.code(), 64);
    assert_eq!(ECallStatus::InvalidKeyname.code(), 256);
    assert_eq!(ECallStatus::Unknown.code(), u32::MAX);
}

#[test]
fn kinds_are_ordered_as_their_words_are() {
    assert!(ECallStatus::InvalidAttribute < ECallStatus::InvalidCPUSVN);
    assert!(ECallStatus::InvalidCPUSVN < ECallStatus::InvalidISVSVN);
    assert!(ECallStatus::InvalidISVSVN < ECallStatus::InvalidKeyname);
    assert!(ECallStatus::InvalidKeyname < ECallStatus::Unknown);
}

#[test]
fn message_describes_each_kind() {
    assert_eq!(ECallStatus::InvalidAttribute.message(), "ENCLU error: Invalid attribute");
    assert_eq!(ECallStatus::InvalidCPUSVN.message(), "ENCLU error: Invalid CPUSVN");
    assert_eq!(ECallStatus::InvalidISVSVN.message(), "ENCLU error: Invalid CPUISVN");
    assert_eq!(ECallStatus::InvalidKeyname.message(), "ENCLU error: Invalid Keyname");
    assert_eq!(ECallStatus::Unknown.message(), "ENCLU error: Unknown");
}
