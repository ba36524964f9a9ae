//! What a filled buffer depends on, given instructions that answer one
//! request in one way.

use crate::ecalls::{ECallStatus, STATUS_SUCCESS};
use crate::isa::{Keyrequest, Report, Targetinfo};
use crate::ecalls::status_of;
use crate::keyrequest::{
    chunk_filled, chunk_len, chunk_of, derives, fill_outcome, filled_to, is_request, key_failed,
    key_id_of, report_failed, reports, same_request, stopped_at, KeyOpts,
};
use vstd::prelude::*;

verus! {

/// Whether two reports agree in what a key request takes from a report.
pub open spec fn same_identity(a: Report, b: Report) -> bool {
    &&& a.isvsvn == b.isvsvn
    &&& a.cpusvn@ == b.cpusvn@
    &&& a.miscselect == b.miscselect
    &&& a.attributes == b.attributes
}

/// Whether the two instructions answer the same question in the same way
/// each time: every report on the enclave itself comes with the same status
/// and the same identity, and every request for one key comes with the same
/// status and the same key.
pub open spec fn deterministic<
    R: Fn(Targetinfo, [u8; 64]) -> (u32, Report),
    K: Fn(Keyrequest) -> (u32, [u8; 16]),
>(ereport: R, egetkey: K) -> bool {
    &&& forall|s1: u32, r1: Report, s2: u32, r2: Report|
        #![trigger reports(ereport, s1, r1), reports(ereport, s2, r2)]
        reports(ereport, s1, r1) && reports(ereport, s2, r2) ==> s1 == s2 && same_identity(r1, r2)
    &&& forall|q1: Keyrequest, o1: (u32, [u8; 16]), q2: Keyrequest, o2: (u32, [u8; 16])|
        #![trigger call_ensures(egetkey, (q1,), o1), call_ensures(egetkey, (q2,), o2)]
        call_ensures(egetkey, (q1,), o1) && call_ensures(egetkey, (q2,), o2) && same_request(q1, q2)
            ==> o1.0 == o2.0 && o1.1@ == o2.1@
}

/// Two answers to the request for the key of one chunk are the same answer,
/// also where the reports differ in what no key request reads.
proof fn lemma_one_answer_per_chunk<K: Fn(Keyrequest) -> (u32, [u8; 16])>(
    egetkey: K,
    opts: KeyOpts,
    r1: Report,
    r2: Report,
    chunk: Seq<u8>,
    s1: u32,
    k1: [u8; 16],
    s2: u32,
    k2: [u8; 16],
)
    requires
        forall|q1: Keyrequest, o1: (u32, [u8; 16]), q2: Keyrequest, o2: (u32, [u8; 16])|
            #![trigger call_ensures(egetkey, (q1,), o1), call_ensures(egetkey, (q2,), o2)]
            call_ensures(egetkey, (q1,), o1) && call_ensures(egetkey, (q2,), o2) && same_request(
                q1,
                q2,
            ) ==> o1.0 == o2.0 && o1.1@ == o2.1@,
        same_identity(r1, r2),
        derives(egetkey, opts, r1, chunk, s1, k1),
        derives(egetkey, opts, r2, chunk, s2, k2),
    ensures
        s1 == s2,
        k1@ == k2@,
{
    let q1 = choose|q: Keyrequest| #[trigger]
        call_ensures(egetkey, (q,), (s1, k1)) && is_request(q, opts, r1, key_id_of(chunk));
    let q2 = choose|q: Keyrequest| #[trigger]
        call_ensures(egetkey, (q,), (s2, k2)) && is_request(q, opts, r2, key_id_of(chunk));
    assert(same_request(q1, q2));
}

/// Chunk independence. The key that a chunk is overwritten with depends on
/// the options, the enclave and the seed that stood in that chunk, and on
/// nothing else: not on the other chunks, not on where in the buffer the
/// chunk lies, and so not on the order in which the chunks are taken.
pub proof fn lemma_chunk_key_depends_on_chunk_only<
    R: Fn(Targetinfo, [u8; 64]) -> (u32, Report),
    K: Fn(Keyrequest) -> (u32, [u8; 16]),
>(
    ereport: R,
    egetkey: K,
    opts: KeyOpts,
    seed1: Seq<u8>,
    now1: Seq<u8>,
    at1: nat,
    seed2: Seq<u8>,
    now2: Seq<u8>,
    at2: nat,
)
    requires
        deterministic(ereport, egetkey),
        fill_outcome(ereport, egetkey, opts, seed1, now1, Ok(())),
        fill_outcome(ereport, egetkey, opts, seed2, now2, Ok(())),
        at1 % 16 == 0 && at1 < seed1.len(),
        at2 % 16 == 0 && at2 < seed2.len(),
        chunk_of(seed1, at1) == chunk_of(seed2, at2),
    ensures
        chunk_of(now1, at1) == chunk_of(now2, at2),
{
    let r1 = choose|r: Report| #[trigger]
        reports(ereport, STATUS_SUCCESS, r) && filled_to(egetkey, opts, r, seed1, now1, seed1.len());
    let r2 = choose|r: Report| #[trigger]
        reports(ereport, STATUS_SUCCESS, r) && filled_to(egetkey, opts, r, seed2, now2, seed2.len());
    assert(chunk_filled(egetkey, opts, r1, seed1, now1, at1));
    assert(chunk_filled(egetkey, opts, r2, seed2, now2, at2));
    let k1 = choose|k: [u8; 16]| #[trigger]
        derives(egetkey, opts, r1, chunk_of(seed1, at1), STATUS_SUCCESS, k) && chunk_of(now1, at1)
            == k@.subrange(0, chunk_len(seed1.len(), at1) as int);
    let k2 = choose|k: [u8; 16]| #[trigger]
        derives(egetkey, opts, r2, chunk_of(seed2, at2), STATUS_SUCCESS, k) && chunk_of(now2, at2)
            == k@.subrange(0, chunk_len(seed2.len(), at2) as int);
    lemma_one_answer_per_chunk(
        egetkey,
        opts,
        r1,
        r2,
        chunk_of(seed1, at1),
        STATUS_SUCCESS,
        k1,
        STATUS_SUCCESS,
        k2,
    );
    assert(chunk_len(seed1.len(), at1) == chunk_of(seed1, at1).len());
    assert(chunk_len(seed2.len(), at2) == chunk_of(seed2, at2).len());
}

/// The same options and the same seed give the same key: two fills of one
/// seed that both succeed leave the same bytes.
pub proof fn lemma_same_seed_same_key<
    R: Fn(Targetinfo, [u8; 64]) -> (u32, Report),
    K: Fn(Keyrequest) -> (u32, [u8; 16]),
>(ereport: R, egetkey: K, opts: KeyOpts, seed: Seq<u8>, now1: Seq<u8>, now2: Seq<u8>)
    requires
        deterministic(ereport, egetkey),
        fill_outcome(ereport, egetkey, opts, seed, now1, Ok(())),
        fill_outcome(ereport, egetkey, opts, seed, now2, Ok(())),
    ensures
        now1 == now2,
{
    assert forall|i: int| 0 <= i < seed.len() implies now1[i] == now2[i] by {
        let at = (i - i % 16) as nat;
        lemma_chunk_key_depends_on_chunk_only(
            ereport,
            egetkey,
            opts,
            seed,
            now1,
            at,
            seed,
            now2,
            at,
        );
        assert(chunk_of(now1, at)[i - at] == now1[i]);
        assert(chunk_of(now2, at)[i - at] == now2[i]);
    }
    assert(now1 =~= now2);
}

/// Where one fill of a seed succeeds, every fill of it does: an instruction
/// that failed the one would have failed the other.
proof fn lemma_success_is_shared<
    R: Fn(Targetinfo, [u8; 64]) -> (u32, Report),
    K: Fn(Keyrequest) -> (u32, [u8; 16]),
>(
    ereport: R,
    egetkey: K,
    opts: KeyOpts,
    seed: Seq<u8>,
    now1: Seq<u8>,
    now2: Seq<u8>,
    result2: Result<(), ECallStatus>,
)
    requires
        deterministic(ereport, egetkey),
        fill_outcome(ereport, egetkey, opts, seed, now1, Ok(())),
        fill_outcome(ereport, egetkey, opts, seed, now2, result2),
    ensures
        result2 is Ok,
{
    let r1 = choose|r: Report| #[trigger]
        reports(ereport, STATUS_SUCCESS, r) && filled_to(egetkey, opts, r, seed, now1, seed.len());
    if let Err(error) = result2 {
        if key_failed(ereport, egetkey, opts, seed, now2, error) {
            let (r2, at, status) = choose|r: Report, at: nat, status: u32| #[trigger]
                stopped_at(egetkey, opts, r, seed, now2, at, status) && reports(
                    ereport,
                    STATUS_SUCCESS,
                    r,
                ) && error == status_of(status);
            let k2 = choose|k: [u8; 16]| #[trigger]
                derives(egetkey, opts, r2, chunk_of(seed, at), status, k);
            assert(chunk_filled(egetkey, opts, r1, seed, now1, at));
            let k1 = choose|k: [u8; 16]| #[trigger]
                derives(egetkey, opts, r1, chunk_of(seed, at), STATUS_SUCCESS, k) && chunk_of(
                    now1,
                    at,
                ) == k@.subrange(0, chunk_len(seed.len(), at) as int);
            lemma_one_answer_per_chunk(
                egetkey,
                opts,
                r1,
                r2,
                chunk_of(seed, at),
                STATUS_SUCCESS,
                k1,
                status,
                k2,
            );
        } else {
            let (status, r2) = choose|status: u32, r: Report| #[trigger]
                reports(ereport, status, r) && status != STATUS_SUCCESS && error == status_of(
                    status,
                );
            assert(status == STATUS_SUCCESS);
        }
    }
}

/// Two fills of one seed that stop at a key request stop at the same chunk,
/// on the same status, with the same bytes.
proof fn lemma_same_stop<
    R: Fn(Targetinfo, [u8; 64]) -> (u32, Report),
    K: Fn(Keyrequest) -> (u32, [u8; 16]),
>(
    ereport: R,
    egetkey: K,
    opts: KeyOpts,
    seed: Seq<u8>,
    now1: Seq<u8>,
    r1: Report,
    at1: nat,
    s1: u32,
    now2: Seq<u8>,
    r2: Report,
    at2: nat,
    s2: u32,
)
    requires
        deterministic(ereport, egetkey),
        now1.len() == seed.len(),
        now2.len() == seed.len(),
        reports(ereport, STATUS_SUCCESS, r1),
        reports(ereport, STATUS_SUCCESS, r2),
        stopped_at(egetkey, opts, r1, seed, now1, at1, s1),
        stopped_at(egetkey, opts, r2, seed, now2, at2, s2),
    ensures
        at1 == at2,
        s1 == s2,
        now1 == now2,
{
    let k1 = choose|k: [u8; 16]| #[trigger] derives(egetkey, opts, r1, chunk_of(seed, at1), s1, k);
    let k2 = choose|k: [u8; 16]| #[trigger] derives(egetkey, opts, r2, chunk_of(seed, at2), s2, k);
    if at1 < at2 {
        assert(chunk_filled(egetkey, opts, r2, seed, now2, at1));
        let k = choose|k: [u8; 16]| #[trigger]
            derives(egetkey, opts, r2, chunk_of(seed, at1), STATUS_SUCCESS, k) && chunk_of(now2, at1)
                == k@.subrange(0, chunk_len(seed.len(), at1) as int);
        lemma_one_answer_per_chunk(egetkey, opts, r1, r2, chunk_of(seed, at1), s1, k1, STATUS_SUCCESS, k);
    } else if at2 < at1 {
        assert(chunk_filled(egetkey, opts, r1, seed, now1, at2));
        let k = choose|k: [u8; 16]| #[trigger]
            derives(egetkey, opts, r1, chunk_of(seed, at2), STATUS_SUCCESS, k) && chunk_of(now1, at2)
                == k@.subrange(0, chunk_len(seed.len(), at2) as int);
        lemma_one_answer_per_chunk(egetkey, opts, r1, r2, chunk_of(seed, at2), STATUS_SUCCESS, k, s2, k2);
    } else {
        lemma_one_answer_per_chunk(egetkey, opts, r1, r2, chunk_of(seed, at1), s1, k1, s2, k2);
        let len = seed.len() as int;
        assert forall|i: int| 0 <= i < len implies now1[i] == now2[i] by {
            if i < at1 {
                let at = (i - i % 16) as nat;
                assert(chunk_filled(egetkey, opts, r1, seed, now1, at));
                assert(chunk_filled(egetkey, opts, r2, seed, now2, at));
                let a = choose|k: [u8; 16]| #[trigger]
                    derives(egetkey, opts, r1, chunk_of(seed, at), STATUS_SUCCESS, k) && chunk_of(
                        now1,
                        at,
                    ) == k@.subrange(0, chunk_len(seed.len(), at) as int);
                let b = choose|k: [u8; 16]| #[trigger]
                    derives(egetkey, opts, r2, chunk_of(seed, at), STATUS_SUCCESS, k) && chunk_of(
                        now2,
                        at,
                    ) == k@.subrange(0, chunk_len(seed.len(), at) as int);
                lemma_one_answer_per_chunk(
                    egetkey,
                    opts,
                    r1,
                    r2,
                    chunk_of(seed, at),
                    STATUS_SUCCESS,
                    a,
                    STATUS_SUCCESS,
                    b,
                );
                assert(chunk_of(now1, at)[i - at] == now1[i]);
                assert(chunk_of(now2, at)[i - at] == now2[i]);
            } else {
                assert(now1.subrange(at1 as int, len)[i - at1] == seed.subrange(at1 as int, len)[i
                    - at1]);
                assert(now2.subrange(at1 as int, len)[i - at1] == seed.subrange(at1 as int, len)[i
                    - at1]);
            }
        }
        assert(now1 =~= now2);
    }
}

/// Filling is a function of its inputs. Two fills with the same options of
/// the same seed, in one enclave whose instructions answer one request in
/// one way, end with the same result and leave the same bytes.
pub proof fn lemma_same_seed_same_outcome<
    R: Fn(Targetinfo, [u8; 64]) -> (u32, Report),
    K: Fn(Keyrequest) -> (u32, [u8; 16]),
>(
    ereport: R,
    egetkey: K,
    opts: KeyOpts,
    seed: Seq<u8>,
    now1: Seq<u8>,
    result1: Result<(), ECallStatus>,
    now2: Seq<u8>,
    result2: Result<(), ECallStatus>,
)
    requires
        deterministic(ereport, egetkey),
        fill_outcome(ereport, egetkey, opts, seed, now1, result1),
        fill_outcome(ereport, egetkey, opts, seed, now2, result2),
    ensures
        result1 == result2,
        now1 == now2,
{
    if result1 is Ok {
        lemma_success_is_shared(ereport, egetkey, opts, seed, now1, now2, result2);
        lemma_same_seed_same_key(ereport, egetkey, opts, seed, now1, now2);
        assert(result1->Ok_0 == result2->Ok_0);
    } else if result2 is Ok {
        lemma_success_is_shared(ereport, egetkey, opts, seed, now2, now1, result1);
    } else {
        let e1 = result1->Err_0;
        let e2 = result2->Err_0;
        let at_key1 = key_failed(ereport, egetkey, opts, seed, now1, e1);
        let at_key2 = key_failed(ereport, egetkey, opts, seed, now2, e2);
        if at_key1 && at_key2 {
            let (r1, at1, s1) = choose|r: Report, at: nat, status: u32| #[trigger]
                stopped_at(egetkey, opts, r, seed, now1, at, status) && reports(
                    ereport,
                    STATUS_SUCCESS,
                    r,
                ) && e1 == status_of(status);
            let (r2, at2, s2) = choose|r: Report, at: nat, status: u32| #[trigger]
                stopped_at(egetkey, opts, r, seed, now2, at, status) && reports(
                    ereport,
                    STATUS_SUCCESS,
                    r,
                ) && e2 == status_of(status);
            lemma_same_stop(ereport, egetkey, opts, seed, now1, r1, at1, s1, now2, r2, at2, s2);
        } else if at_key1 {
            let (r1, at1, s1) = choose|r: Report, at: nat, status: u32| #[trigger]
                stopped_at(egetkey, opts, r, seed, now1, at, status) && reports(
                    ereport,
                    STATUS_SUCCESS,
                    r,
                ) && e1 == status_of(status);
            let (s2, r2) = choose|status: u32, r: Report| #[trigger]
                reports(ereport, status, r) && status != STATUS_SUCCESS && e2 == status_of(status);
            assert(s2 == STATUS_SUCCESS);
        } else if at_key2 {
            let (r2, at2, s2) = choose|r: Report, at: nat, status: u32| #[trigger]
                stopped_at(egetkey, opts, r, seed, now2, at, status) && reports(
                    ereport,
                    STATUS_SUCCESS,
                    r,
                ) && e2 == status_of(status);
            let (s1, r1) = choose|status: u32, r: Report| #[trigger]
                reports(ereport, status, r) && status != STATUS_SUCCESS && e1 == status_of(status);
            assert(s1 == STATUS_SUCCESS);
        } else {
            let (s1, r1) = choose|status: u32, r: Report| #[trigger]
                reports(ereport, status, r) && status != STATUS_SUCCESS && e1 == status_of(status);
            let (s2, r2) = choose|status: u32, r: Report| #[trigger]
                reports(ereport, status, r) && status != STATUS_SUCCESS && e2 == status_of(status);
            assert(s1 == s2);
        }
    }
}

} // verus!
