use std::cell::Cell;

use sgx_keyreq::ecalls::ECallStatus;
use sgx_keyreq::isa::{Attributes, Keyname, Keypolicy, Keyrequest, Report, Targetinfo};
use sgx_keyreq::keyrequest::{build_keyrequest, key_id, self_report, CHUNK_SIZE};
use sgx_keyreq::{get_key, KeyOpts};

fn enclave() -> Report {
    Report {
        cpusvn: [7; 16],
        miscselect: 1,
        attributes: Attributes { flags: 0x7, xfrm: 0x3 },
        mrenclave: [0xaa; 32],
        mrsigner: [0xbb; 32],
        isvprodid: 9,
        isvsvn: 2,
    }
}

// Stands for `EREPORT` in an enclave without the provisioning attributes.
fn processor_report(target: Targetinfo, data: [u8; 64]) -> (u32, Report) {
    assert_eq!(target, Targetinfo::default());
    assert_eq!(data, [0u8; 64]);
    (0, enclave())
}

// Stands for `EGETKEY`: the same request gives the same key, and the keys
// that need an attribute which the enclave lacks are refused.
fn processor_key(request: Keyrequest) -> (u32, [u8; 16]) {
    let needed: u64 = match request.keyname {
        0 => 0x20,
        1 | 2 => 0x10,
        3 | 4 => 0,
        _ => return (256, [0; 16]),
    };
    if enclave().attributes.flags & needed != needed {
        return (2, [0; 16]);
    }
    if request.isvsvn > enclave().isvsvn {
        return (64, [0; 16]);
    }
    let mut state: u64 = 0xcbf2_9ce4_8422_2325;
    let mut input: Vec<u8> = Vec::new();
    input.extend_from_slice(&request.keyname.to_le_bytes());
    input.extend_from_slice(&request.keypolicy.bits().to_le_bytes());
    input.extend_from_slice(&request.isvsvn.to_le_bytes());
    input.extend_from_slice(&request.cpusvn);
    input.extend_from_slice(&request.attributemask[0].to_le_bytes());
    input.extend_from_slice(&request.attributemask[1].to_le_bytes());
    input.extend_from_slice(&request.keyid);
    input.extend_from_slice(&request.miscmask.to_le_bytes());
    let mut key = [0u8; 16];
    for round in 0..16 {
        for byte in &input {
            state ^= u64::from(*byte) + round;
            state = state.wrapping_mul(0x0000_0100_0000_01b3);
        }
        key[round as usize] = (state >> 24) as u8;
    }
    key[0] |= 1;
    (0, key)
}

fn key_for(opts: KeyOpts, chunk: &[u8]) -> [u8; 16] {
    let (status, key) = processor_key(build_keyrequest(opts, &enclave(), key_id(chunk)));
    assert_eq!(status, 0);
    key
}

#[test]
fn get_menclave() {
    let mut key = [0; 32];
    get_key(
        KeyOpts {
            policy: Keypolicy::mrenclave(),
            ..Default::default()
        },
        &mut key,
        processor_report,
        processor_key,
    )
    .unwrap();
    assert_ne!(key, [0; 32]);
}

#[test]
fn get_mrsigner() {
    let mut key = [0; 32];
    get_key(
        KeyOpts {
            policy: Keypolicy::mrsigner(),
            ..Default::default()
        },
        &mut key,
        processor_report,
        processor_key,
    )
    .unwrap();
    assert_ne!(key, [0; 32]);
}

#[test]
fn get_seal() {
    let mut key = [0; 32];
    get_key(
        KeyOpts {
            name: Keyname::Seal,
            ..Default::default()
        },
        &mut key,
        processor_report,
        processor_key,
    )
    .unwrap();
    assert_ne!(key, [0; 32]);
}

#[test]
fn get_provision() {
    let mut key = [0; 32];
    let res = get_key(
        KeyOpts {
            name: Keyname::Provision,
            ..Default::default()
        },
        &mut key,
        processor_report,
        processor_key,
    );
    assert_eq!(res, Err(ECallStatus::InvalidAttribute));
}

#[test]
fn get_provision_seal() {
    let mut key = [0; 32];
    let res = get_key(
        KeyOpts {
            name: Keyname::ProvisionSeal,
            ..Default::default()
        },
        &mut key,
        processor_report,
        processor_key,
    );
    assert_eq!(res, Err(ECallStatus::InvalidAttribute));
}

#[test]
fn get_einittoken() {
    let mut key = [0; 32];
    let res = get_key(
        KeyOpts {
            name: Keyname::Einittoken,
            ..Default::default()
        },
        &mut key,
        processor_report,
        processor_key,
    );
    assert_eq!(res, Err(ECallStatus::InvalidAttribute));
}

#[test]
fn get_report() {
    let mut key = [0; 32];
    get_key(
        KeyOpts {
            name: Keyname::Report,
            ..Default::default()
        },
        &mut key,
        processor_report,
        processor_key,
    )
    .unwrap();
    assert_ne!(key, [0; 32]);
}

fn check_size(size: usize) {
    let mut key = vec![0; size];
    get_key(Default::default(), &mut key, processor_report, processor_key).unwrap();
    assert_ne!(key, vec![0; size]);
}

#[test]
fn keyrequest_empty_seal_key_request() {
    check_size(16);
    check_size(32);
    check_size(48);
    check_size(52);
    check_size(64);
    check_size(128);
    check_size(255);
}

#[test]
fn default_options_ask_for_a_seal_key_bound_to_the_signer() {
    let opts = KeyOpts::default();
    assert_eq!(opts.name, Keyname::Seal);
    assert_eq!(opts.policy, Keypolicy::mrsigner());
    assert_eq!(opts.policy.bits(), 2);
}

#[test]
fn key_names_have_the_numbers_of_the_instruction_set() {
    assert_eq!(Keyname::Einittoken.code(), 0);
    assert_eq!(Keyname::Provision.code(), 1);
    assert_eq!(Keyname::ProvisionSeal.code(), 2);
    assert_eq!(Keyname::Report.code(), 3);
    assert_eq!(Keyname::Seal.code(), 4);
}

#[test]
fn key_policies_hold_two_bits() {
    assert_eq!(Keypolicy::empty().bits(), 0);
    assert_eq!(Keypolicy::default(), Keypolicy::empty());
    assert_eq!(Keypolicy::mrenclave().bits(), 1);
    assert_eq!(Keypolicy::mrsigner().bits(), 2);
    assert_eq!(Keypolicy::from_bits_truncate(3).bits(), 3);
    assert_eq!(Keypolicy::from_bits_truncate(0xfffe).bits(), 2);
    assert_eq!(Keypolicy::from_bits_truncate(4).bits(), 0);
    assert_eq!(Keypolicy::from_bits_truncate(2), Keypolicy::mrsigner());
}

#[test]
fn key_id_pads_a_chunk_with_zeros() {
    let mut expected = [0u8; 32];
    expected[0] = 5;
    expected[1] = 6;
    expected[2] = 7;
    assert_eq!(key_id(&[5, 6, 7]), expected);
    assert_eq!(key_id(&[]), [0u8; 32]);
    let mut whole = [0u8; 32];
    for i in 0..16 {
        whole[i] = 0xf0 + i as u8;
    }
    assert_eq!(key_id(&whole[..16]), whole);
    assert_eq!(key_id(&[9u8; 32]), [9u8; 32]);
}

#[test]
fn key_requests_bind_options_and_report() {
    let mut keyid = [0u8; 32];
    keyid[3] = 0x42;
    let request = build_keyrequest(
        KeyOpts { name: Keyname::Report, policy: Keypolicy::mrenclave() },
        &enclave(),
        keyid,
    );
    assert_eq!(
        request,
        Keyrequest {
            keyname: 3,
            keypolicy: Keypolicy::mrenclave(),
            isvsvn: 2,
            cpusvn: [7; 16],
            attributemask: [0x7, 0x3],
            keyid,
            miscmask: 1,
        }
    );
}

#[test]
fn an_empty_buffer_needs_no_key() {
    let calls = Cell::new(0u32);
    let mut key: Vec<u8> = Vec::new();
    let res = get_key(Default::default(), &mut key, processor_report, |request| {
        calls.set(calls.get() + 1);
        processor_key(request)
    });
    assert_eq!(res, Ok(()));
    assert!(key.is_empty());
    assert_eq!(calls.get(), 0);
}

#[test]
fn one_key_request_per_chunk() {
    for (size, expected) in [(0usize, 0u32), (16, 1), (32, 2), (48, 3), (52, 4), (64, 4), (128, 8), (255, 16), (1, 1), (17, 2)] {
        let reports = Cell::new(0u32);
        let calls = Cell::new(0u32);
        let mut key = vec![0x5au8; size];
        let res = get_key(
            Default::default(),
            &mut key,
            |target, data| {
                reports.set(reports.get() + 1);
                processor_report(target, data)
            },
            |request| {
                calls.set(calls.get() + 1);
                processor_key(request)
            },
        );
        assert_eq!(res, Ok(()));
        assert_eq!(key.len(), size);
        assert_eq!(calls.get(), expected, "size {}", size);
        assert_eq!(calls.get() as usize, (size + CHUNK_SIZE - 1) / CHUNK_SIZE);
        assert_eq!(reports.get(), 1);
    }
}

#[test]
fn each_chunk_holds_the_key_of_its_seed() {
    let opts = KeyOpts::default();
    let mut seed = vec![0u8; 52];
    for i in 0..52 {
        seed[i] = (i * 3 + 1) as u8;
    }
    let mut key = seed.clone();
    get_key(opts, &mut key, processor_report, processor_key).unwrap();
    assert_eq!(&key[0..16], &key_for(opts, &seed[0..16])[..]);
    assert_eq!(&key[16..32], &key_for(opts, &seed[16..32])[..]);
    assert_eq!(&key[32..48], &key_for(opts, &seed[32..48])[..]);
    assert_eq!(&key[48..52], &key_for(opts, &seed[48..52])[..4]);
}

#[test]
fn the_same_seed_gives_the_same_key() {
    let mut first = vec![0x11u8; 40];
    let mut second = vec![0x11u8; 40];
    get_key(Default::default(), &mut first, processor_report, processor_key).unwrap();
    get_key(Default::default(), &mut second, processor_report, processor_key).unwrap();
    assert_eq!(first, second);
}

#[test]
fn one_seed_byte_changes_its_chunk_alone() {
    let mut first = vec![0x11u8; 48];
    let mut second = vec![0x11u8; 48];
    second[20] = 0x12;
    get_key(Default::default(), &mut first, processor_report, processor_key).unwrap();
    get_key(Default::default(), &mut second, processor_report, processor_key).unwrap();
    assert_eq!(first[0..16], second[0..16]);
    assert_ne!(first[16..32], second[16..32]);
    assert_eq!(first[32..48], second[32..48]);
}

#[test]
fn a_chunk_alone_gives_what_it_gives_among_others() {
    let opts = KeyOpts { name: Keyname::Seal, policy: Keypolicy::mrenclave() };
    let mut seed = vec![0u8; 64];
    for i in 0..64 {
        seed[i] = 0xc0 ^ (i as u8);
    }
    let mut whole = seed.clone();
    get_key(opts, &mut whole, processor_report, processor_key).unwrap();
    for chunk in [3usize, 1, 0, 2] {
        let mut alone = seed[16 * chunk..16 * chunk + 16].to_vec();
        get_key(opts, &mut alone, processor_report, processor_key).unwrap();
        assert_eq!(alone[..], whole[16 * chunk..16 * chunk + 16]);
    }
}

#[test]
fn a_sealing_key_of_32_bytes_from_a_zero_seed() {
    let calls = Cell::new(0u32);
    let mut key = vec![0x00u8; 32];
    let res = get_key(
        KeyOpts { name: Keyname::Seal, policy: Keypolicy::mrsigner() },
        &mut key,
        processor_report,
        |request| {
            calls.set(calls.get() + 1);
            assert_eq!(request.keyname, 4);
            assert_eq!(request.keypolicy.bits(), 2);
            assert_eq!(request.keyid, [0u8; 32]);
            processor_key(request)
        },
    );
    assert_eq!(res, Ok(()));
    assert_eq!(calls.get(), 2);
    assert_eq!(key.len(), 32);
    assert_ne!(key[0..16], [0u8; 16]);
    assert_ne!(key[16..32], [0u8; 16]);
    assert_ne!(key, vec![0u8; 32]);
}

#[test]
fn a_failed_report_leaves_the_buffer_alone() {
    let calls = Cell::new(0u32);
    let mut key = vec![3u8; 20];
    let res = get_key(
        Default::default(),
        &mut key,
        |_target, _data| (32, enclave()),
        |request| {
            calls.set(calls.get() + 1);
            processor_key(request)
        },
    );
    assert_eq!(res, Err(ECallStatus::InvalidCPUSVN));
    assert_eq!(key, vec![3u8; 20]);
    assert_eq!(calls.get(), 0);
}

#[test]
fn a_failed_key_keeps_what_was_written_before_it() {
    let opts = KeyOpts::default();
    let calls = Cell::new(0u32);
    let mut key = vec![8u8; 50];
    let res = get_key(opts, &mut key, processor_report, |request| {
        calls.set(calls.get() + 1);
        if calls.get() == 3 {
            (64, [0xee; 16])
        } else {
            processor_key(request)
        }
    });
    assert_eq!(res, Err(ECallStatus::InvalidISVSVN));
    assert_eq!(calls.get(), 3);
    assert_eq!(&key[0..16], &key_for(opts, &[8u8; 16])[..]);
    assert_eq!(&key[16..32], &key_for(opts, &[8u8; 16])[..]);
    assert_eq!(&key[32..50], &[8u8; 18][..]);
}

#[test]
fn every_kind_of_error_comes_through() {
    for (status, kind) in [
        (2u32, ECallStatus::InvalidAttribute),
        (32, ECallStatus::InvalidCPUSVN),
        (64, ECallStatus::InvalidISVSVN),
        (256, ECallStatus::InvalidKeyname),
        (1, ECallStatus::Unknown),
        (u32::MAX, ECallStatus::Unknown),
    ] {
        let mut key = vec![0u8; 16];
        let res = get_key(Default::default(), &mut key, processor_report, |_request| (status, [1; 16]));
        assert_eq!(res, Err(kind));
        assert_eq!(key, vec![0u8; 16]);
    }
}

#[test]
fn self_report_asks_about_the_enclave_itself() {
    let asked = Cell::new(0u32);
    let report = self_report(|target: Targetinfo, data: [u8; 64]| {
        asked.set(asked.get() + 1);
        assert_eq!(target.measurement, [0u8; 32]);
        assert_eq!(target.attributes, Attributes { flags: 0, xfrm: 0 });
        assert_eq!(target.miscselect, 0);
        assert_eq!(data, [0u8; 64]);
        (0, enclave())
    });
    assert_eq!(report, Ok(enclave()));
    assert_eq!(asked.get(), 1);
}

#[test]
fn self_report_classifies_a_failure() {
    assert_eq!(self_report(|_target, _data| (2, enclave())), Err(ECallStatus::InvalidAttribute));
    assert_eq!(self_report(|_target, _data| (256, enclave())), Err(ECallStatus::InvalidKeyname));
    assert_eq!(self_report(|_target, _data| (7, enclave())), Err(ECallStatus::Unknown));
}

#[test]
fn the_report_is_fetched_anew_for_every_fill() {
    let version = Cell::new(2u16);
    let seen = Cell::new(0u16);
    let mut first = vec![0u8; 16];
    let mut second = vec![0u8; 16];
    for key in [&mut first, &mut second] {
        get_key(
            Default::default(),
            key,
            |_target, _data| {
                let mut report = enclave();
                report.isvsvn = version.get();
                (0, report)
            },
            |request| {
                seen.set(request.isvsvn);
                (0, [request.isvsvn as u8; 16])
            },
        )
        .unwrap();
        assert_eq!(seen.get(), version.get());
        version.set(version.get() + 1);
    }
    assert_eq!(first, vec![2u8; 16]);
    assert_eq!(second, vec![3u8; 16]);
}
