//! Filling a buffer with key material, sixteen bytes per key request.
//!
//! `get_key` takes the two instructions as functions and runs a `KeyFill` to
//! its end. What it returns and leaves in the buffer is stated over what the
//! instructions answered.

use crate::ecalls::{status_of, ECallStatus, STATUS_SUCCESS};
use crate::isa::{Keyname, Keypolicy, Keyrequest, Report, Targetinfo, KEYPOLICY_MRSIGNER};
use crate::key_fill::{
    lemma_one_call_per_chunk, lemma_step_keeps_length, Action, Event, KeyFill, Phase,
};
use vstd::prelude::*;
use vstd::slice::slice_to_vec;

verus! {

/// Bytes of key material that one `EGETKEY` call yields.
pub const CHUNK_SIZE: usize = 16;

/// Options for requesting a key
#[derive(Clone, Copy, Debug, PartialEq, Eq, Structural)]
pub struct KeyOpts {
    pub name: Keyname,
    pub policy: Keypolicy,
}

impl Default for KeyOpts {
    fn default() -> (opts: Self)
        ensures
            opts.name == Keyname::Seal,
            opts.policy.bits_spec() == KEYPOLICY_MRSIGNER,
    {
        Self { name: Keyname::Seal, policy: Keypolicy::mrsigner() }
    }
}

/// The key id made of a chunk of seed: the chunk's bytes first, then zeros
/// up to 32 bytes.
pub open spec fn key_id_of(chunk: Seq<u8>) -> Seq<u8> {
    Seq::new(32, |i: int| if i < chunk.len() { chunk[i] } else { 0u8 })
}

/// How many chunks a buffer of `len` bytes falls into: `len / 16`, rounded up.
pub open spec fn chunk_count(len: nat) -> nat {
    (len + 15) / 16
}

/// Length of the chunk that starts at `offset` in a buffer of `len` bytes:
/// 16, or what is left of the buffer if that is less.
pub open spec fn chunk_len(len: nat, offset: nat) -> nat {
    if offset + 16 <= len {
        16
    } else {
        (len - offset) as nat
    }
}

/// The chunk of `seed` that starts at `offset`.
pub open spec fn chunk_of(seed: Seq<u8>, offset: nat) -> Seq<u8> {
    seed.subrange(offset as int, (offset + chunk_len(seed.len(), offset)) as int)
}

/// `seed` with the chunk at `offset` overwritten by as many bytes from the
/// front of `key` as the chunk is long.
pub open spec fn with_chunk(seed: Seq<u8>, offset: nat, key: Seq<u8>) -> Seq<u8> {
    let n = chunk_len(seed.len(), offset);
    seed.subrange(0, offset as int) + key.subrange(0, n as int) + seed.subrange(
        (offset + n) as int,
        seed.len() as int,
    )
}

/// Whether `req` is the key request for `opts` in the enclave that `report`
/// describes, with the key id `keyid`: name and policy come from the options,
/// the security versions and the masks from the report.
pub open spec fn is_request(req: Keyrequest, opts: KeyOpts, report: Report, keyid: Seq<u8>) -> bool {
    &&& req.keyname == opts.name.code_spec()
    &&& req.keypolicy == opts.policy
    &&& req.isvsvn == report.isvsvn
    &&& req.cpusvn@ == report.cpusvn@
    &&& req.miscmask == report.miscselect
    &&& req.attributemask@ == seq![report.attributes.flags, report.attributes.xfrm]
    &&& req.keyid@ == keyid
}

/// Whether two key requests hold the same values.
pub open spec fn same_request(a: Keyrequest, b: Keyrequest) -> bool {
    &&& a.keyname == b.keyname
    &&& a.keypolicy == b.keypolicy
    &&& a.isvsvn == b.isvsvn
    &&& a.cpusvn@ == b.cpusvn@
    &&& a.miscmask == b.miscmask
    &&& a.attributemask@ == b.attributemask@
    &&& a.keyid@ == b.keyid@
}

/// Pads a chunk of seed to a key id.
pub fn key_id(chunk: &[u8]) -> (keyid: [u8; 32])
    requires
        chunk@.len() <= 32,
    ensures
        keyid@ == key_id_of(chunk@),
{
    let mut keyid = [0u8; 32];
    let mut i: usize = 0;
    while i < chunk.len()
        invariant
            i <= chunk@.len() <= 32,
            forall|j: int| 0 <= j < 32 ==> keyid@[j] == if j < i { chunk@[j] } else { 0u8 },
        decreases chunk@.len() - i,
    {
        keyid[i] = chunk[i];
        i += 1;
    }
    assert(keyid@ =~= key_id_of(chunk@));
    keyid
}

/// Assembles the key request for `opts` in the enclave that `report`
/// describes.
pub fn build_keyrequest(opts: KeyOpts, report: &Report, keyid: [u8; 32]) -> (req: Keyrequest)
    ensures
        is_request(req, opts, *report, keyid@),
{
    let req = Keyrequest {
        keyname: opts.name.code(),
        keypolicy: opts.policy,
        isvsvn: report.isvsvn,
        cpusvn: report.cpusvn,
        attributemask: [report.attributes.flags, report.attributes.xfrm],
        keyid,
        miscmask: report.miscselect,
    };
    assert(req.attributemask@ =~= seq![report.attributes.flags, report.attributes.xfrm]);
    req
}

/// Chunks of one length that differ in a byte have different key ids, and so
/// different key requests.
pub proof fn lemma_key_id_injective(a: Seq<u8>, b: Seq<u8>)
    requires
        a.len() == b.len(),
        a.len() <= 32,
        key_id_of(a) == key_id_of(b),
    ensures
        a == b,
{
    assert forall|i: int| 0 <= i < a.len() implies a[i] == b[i] by {
        assert(key_id_of(a)[i] == a[i]);
        assert(key_id_of(b)[i] == b[i]);
    }
    assert(a =~= b);
}

/// A change in the seed is a change in the request: chunks of one length
/// that differ in a byte are never asked for with the same key request.
pub proof fn lemma_other_seed_other_request(
    opts: KeyOpts,
    report: Report,
    a: Seq<u8>,
    b: Seq<u8>,
    ra: Keyrequest,
    rb: Keyrequest,
)
    requires
        a.len() == b.len(),
        a.len() <= 32,
        a != b,
        is_request(ra, opts, report, key_id_of(a)),
        is_request(rb, opts, report, key_id_of(b)),
    ensures
        !same_request(ra, rb),
{
    if same_request(ra, rb) {
        lemma_key_id_injective(a, b);
    }
}

/// Whether `ereport`, asked for a report on the enclave itself with no report
/// data, can answer with `status` and `report`.
pub open spec fn reports<R: Fn(Targetinfo, [u8; 64]) -> (u32, Report)>(
    ereport: R,
    status: u32,
    report: Report,
) -> bool {
    exists|target: Targetinfo, data: [u8; 64]|
        #[trigger] call_ensures(ereport, (target, data), (status, report)) && target.is_zero()
            && data@ == Seq::new(64, |i: int| 0u8)
}

/// Fetches the report on the calling enclave: `ereport` is asked with an
/// all-zero target and all-zero report data, and a status word other than
/// zero is classified.
pub fn self_report<R>(ereport: R) -> (outcome: Result<Report, ECallStatus>) where
    R: Fn(Targetinfo, [u8; 64]) -> (u32, Report),

    requires
        forall|target: Targetinfo, data: [u8; 64]| ereport.requires((target, data)),
    ensures
        match outcome {
            Ok(report) => reports(ereport, STATUS_SUCCESS, report),
            Err(error) => report_failed(ereport, error),
        },
{
    let target = Targetinfo::default();
    let data = [0u8; 64];
    assert(data@ =~= Seq::new(64, |i: int| 0u8));
    let (status, report) = ereport(target, data);
    assert(reports(ereport, status, report));
    match crate::ecalls::ereport(status, report) {
        Ok(report) => Ok(report),
        Err(status) => Err(ECallStatus::from(status)),
    }
}

/// Whether `egetkey`, asked for the key of the chunk of seed `chunk`, can
/// answer with `status` and `key`.
pub open spec fn derives<K: Fn(Keyrequest) -> (u32, [u8; 16])>(
    egetkey: K,
    opts: KeyOpts,
    report: Report,
    chunk: Seq<u8>,
    status: u32,
    key: [u8; 16],
) -> bool {
    exists|request: Keyrequest|
        #[trigger] call_ensures(egetkey, (request,), (status, key)) && is_request(
            request,
            opts,
            report,
            key_id_of(chunk),
        )
}

/// Whether the chunk of `now` at `at` holds the front of a key that `egetkey`
/// gave for the chunk of `seed` at the same place.
pub open spec fn chunk_filled<K: Fn(Keyrequest) -> (u32, [u8; 16])>(
    egetkey: K,
    opts: KeyOpts,
    report: Report,
    seed: Seq<u8>,
    now: Seq<u8>,
    at: nat,
) -> bool {
    exists|key: [u8; 16]|
        #[trigger] derives(egetkey, opts, report, chunk_of(seed, at), STATUS_SUCCESS, key)
            && chunk_of(now, at) == key@.subrange(0, chunk_len(seed.len(), at) as int)
}

/// Whether every chunk of `now` that starts before `end` is filled.
pub open spec fn filled_to<K: Fn(Keyrequest) -> (u32, [u8; 16])>(
    egetkey: K,
    opts: KeyOpts,
    report: Report,
    seed: Seq<u8>,
    now: Seq<u8>,
    end: nat,
) -> bool {
    forall|at: nat|
        at % 16 == 0 && at < end ==> #[trigger] chunk_filled(egetkey, opts, report, seed, now, at)
}

/// Whether a fill stopped at the chunk at `at` because `egetkey` answered
/// with `status`: the chunks before it are filled, and the buffer from `at`
/// on is still seed.
pub open spec fn stopped_at<K: Fn(Keyrequest) -> (u32, [u8; 16])>(
    egetkey: K,
    opts: KeyOpts,
    report: Report,
    seed: Seq<u8>,
    now: Seq<u8>,
    at: nat,
    status: u32,
) -> bool {
    &&& at % 16 == 0
    &&& at < seed.len()
    &&& status != STATUS_SUCCESS
    &&& exists|key: [u8; 16]| #[trigger] derives(egetkey, opts, report, chunk_of(seed, at), status, key)
    &&& filled_to(egetkey, opts, report, seed, now, at)
    &&& now.subrange(at as int, now.len() as int) == seed.subrange(at as int, seed.len() as int)
}

/// Whether `error` is the classified status of a report on the enclave
/// itself that failed.
pub open spec fn report_failed<R: Fn(Targetinfo, [u8; 64]) -> (u32, Report)>(
    ereport: R,
    error: ECallStatus,
) -> bool {
    exists|status: u32, report: Report| #[trigger]
        reports(ereport, status, report) && status != STATUS_SUCCESS && error == status_of(status)
}

/// Whether `error` is the classified status of the key request of one chunk
/// that failed after the report had come, with the chunks before it filled
/// and the buffer from that chunk on still seed.
pub open spec fn key_failed<
    R: Fn(Targetinfo, [u8; 64]) -> (u32, Report),
    K: Fn(Keyrequest) -> (u32, [u8; 16]),
>(ereport: R, egetkey: K, opts: KeyOpts, seed: Seq<u8>, now: Seq<u8>, error: ECallStatus) -> bool {
    exists|report: Report, at: nat, status: u32| #[trigger]
        stopped_at(egetkey, opts, report, seed, now, at, status) && reports(
            ereport,
            STATUS_SUCCESS,
            report,
        ) && error == status_of(status)
}

/// Whether `result` and the buffer `now` are what filling `seed` comes to
/// with these two instructions.
///
/// Success means that the report came and that every chunk holds the key
/// derived from the seed that stood there. An error is the classified status
/// of the instruction that failed: of the report, with the buffer untouched,
/// or of the key request of one chunk, with the chunks before it filled and
/// the rest untouched.
pub open spec fn fill_outcome<
    R: Fn(Targetinfo, [u8; 64]) -> (u32, Report),
    K: Fn(Keyrequest) -> (u32, [u8; 16]),
>(ereport: R, egetkey: K, opts: KeyOpts, seed: Seq<u8>, now: Seq<u8>, result: Result<
    (),
    ECallStatus,
>) -> bool {
    &&& now.len() == seed.len()
    &&& match result {
        Ok(()) => exists|report: Report| #[trigger]
            reports(ereport, STATUS_SUCCESS, report) && filled_to(
                egetkey,
                opts,
                report,
                seed,
                now,
                seed.len(),
            ),
        Err(error) => {
            ||| now == seed && report_failed(ereport, error)
            ||| key_failed(ereport, egetkey, opts, seed, now, error)
        },
    }
}

/// What holds of a fill of `seed` in the state `state`.
spec fn on_course<
    R: Fn(Targetinfo, [u8; 64]) -> (u32, Report),
    K: Fn(Keyrequest) -> (u32, [u8; 16]),
>(ereport: R, egetkey: K, seed: Seq<u8>, state: KeyFill) -> bool {
    &&& state.valid()
    &&& state.bytes().len() == seed.len()
    &&& match state.phase() {
        Phase::Report => state.bytes() == seed,
        Phase::Key => {
            &&& reports(ereport, STATUS_SUCCESS, state.report().unwrap())
            &&& filled_to(
                egetkey,
                state.opts(),
                state.report().unwrap(),
                seed,
                state.bytes(),
                state.offset(),
            )
            &&& state.bytes().subrange(state.offset() as int, seed.len() as int) == seed.subrange(
                state.offset() as int,
                seed.len() as int,
            )
        },
        Phase::Done => fill_outcome(
            ereport,
            egetkey,
            state.opts(),
            seed,
            state.bytes(),
            state.outcome().unwrap(),
        ),
    }
}

/// A fill that is on course stays so when the instruction that it asked for
/// has been issued and its outcome taken in.
proof fn lemma_stays_on_course<
    R: Fn(Targetinfo, [u8; 64]) -> (u32, Report),
    K: Fn(Keyrequest) -> (u32, [u8; 16]),
>(ereport: R, egetkey: K, seed: Seq<u8>, pre: KeyFill, action: Action, event: Event, post: KeyFill)
    requires
        on_course(ereport, egetkey, seed, pre),
        pre.asks(action),
        pre.follows(event, post),
        post.valid(),
        match (action, event) {
            (Action::Report(target, data), Event::Report(status, report)) => call_ensures(
                ereport,
                (target, data),
                (status, report),
            ),
            (Action::GetKey(request), Event::Key(status, key)) => call_ensures(
                egetkey,
                (request,),
                (status, key),
            ),
            _ => false,
        },
    ensures
        on_course(ereport, egetkey, seed, post),
{
    let opts = pre.opts();
    match (action, event) {
        (Action::Report(target, data), Event::Report(status, report)) => {
            assert(reports(ereport, status, report));
            if status == STATUS_SUCCESS {
                assert(post.bytes().subrange(0, seed.len() as int) =~= seed.subrange(
                    0,
                    seed.len() as int,
                ));
            }
        },
        (Action::GetKey(request), Event::Key(status, key)) => {
            let report = pre.report().unwrap();
            let at = pre.offset();
            let len = seed.len();
            let n = chunk_len(len, at);
            assert(chunk_of(pre.bytes(), at) =~= chunk_of(seed, at)) by {
                assert forall|i: int| at <= i < at + n implies pre.bytes()[i] == seed[i] by {
                    assert(pre.bytes().subrange(at as int, len as int)[i - at] == seed.subrange(
                        at as int,
                        len as int,
                    )[i - at]);
                }
            }
            assert(derives(egetkey, opts, report, chunk_of(seed, at), status, key));
            if status != STATUS_SUCCESS {
                assert(stopped_at(egetkey, opts, report, seed, post.bytes(), at, status));
            } else {
                let end = post.offset();
                assert(chunk_of(post.bytes(), at) =~= key@.subrange(0, n as int));
                assert forall|k: nat| k % 16 == 0 && k < end implies #[trigger] chunk_filled(
                    egetkey,
                    opts,
                    report,
                    seed,
                    post.bytes(),
                    k,
                ) by {
                    if k < at {
                        assert(chunk_filled(egetkey, opts, report, seed, pre.bytes(), k));
                        assert(chunk_of(post.bytes(), k) =~= chunk_of(pre.bytes(), k));
                    } else {
                        assert(k == at);
                    }
                }
                assert(post.bytes().subrange(end as int, len as int) =~= seed.subrange(
                    end as int,
                    len as int,
                )) by {
                    assert forall|i: int| end <= i < len implies post.bytes()[i] == seed[i] by {
                        assert(pre.bytes().subrange(at as int, len as int)[i - at]
                            == seed.subrange(at as int, len as int)[i - at]);
                    }
                }
            }
        },
        _ => {},
    }
}

/// Fills a key in-place based on a seed
///
/// The seed is cut into chunks of 16 bytes, and each chunk is overwritten by
/// the key that `egetkey` returns for the request made of it. `ereport` and
/// `egetkey` issue the two instructions and hand back the status word and
/// what the processor wrote; the report is fetched once, before the first
/// chunk. The decisions are those of `KeyFill`, which this function runs to
/// its end. Whatever the instructions return, the function returns, and
/// `fill_outcome` says with what.
pub fn get_key<R, K>(opts: KeyOpts, seed: &mut [u8], ereport: R, egetkey: K) -> (result: Result<
    (),
    ECallStatus,
>) where R: Fn(Targetinfo, [u8; 64]) -> (u32, Report), K: Fn(Keyrequest) -> (u32, [u8; 16])
    requires
        forall|target: Targetinfo, data: [u8; 64]| ereport.requires((target, data)),
        forall|request: Keyrequest| egetkey.requires((request,)),
    ensures
        final(seed)@.len() == old(seed)@.len(),
        fill_outcome(ereport, egetkey, opts, old(seed)@, final(seed)@, result),
{
    let (mut state, mut action) = KeyFill::new(opts, slice_to_vec(seed));
    loop
        invariant
            forall|target: Targetinfo, data: [u8; 64]| ereport.requires((target, data)),
            forall|request: Keyrequest| egetkey.requires((request,)),
            seed@ == old(seed)@,
            state.opts() == opts,
            state.asks(action),
            on_course(ereport, egetkey, old(seed)@, state),
        decreases state.calls_left() + (if state.phase() == Phase::Done { 0nat } else { 1nat }),
    {
        let ghost pre = state;
        let ghost asked = action;
        let event = match action {
            Action::Done(result) => {
                write_back(seed, state.seed());
                return result;
            },
            Action::Report(target, data) => {
                let (status, report) = ereport(target, data);
                Event::Report(status, report)
            },
            Action::GetKey(request) => {
                let (status, key) = egetkey(request);
                Event::Key(status, key)
            },
        };
        let (next_state, next_action) = state.step(event);
        proof {
            lemma_step_keeps_length(pre, event, next_state);
            if next_state.outcome() is None {
                lemma_one_call_per_chunk(pre, event, next_state);
            }
            lemma_stays_on_course(ereport, egetkey, old(seed)@, pre, asked, event, next_state);
        }
        state = next_state;
        action = next_action;
    }
}

/// Overwrites `seed` with `bytes`, which has the same length.
fn write_back(seed: &mut [u8], bytes: &Vec<u8>)
    requires
        old(seed)@.len() == bytes@.len(),
    ensures
        final(seed)@ == bytes@,
{
    let mut i: usize = 0;
    while i < bytes.len()
        invariant
            i <= bytes@.len(),
            seed@.len() == bytes@.len(),
            forall|j: int| 0 <= j < i ==> seed@[j] == bytes@[j],
        decreases bytes@.len() - i,
    {
        seed[i] = bytes[i];
        i += 1;
    }
    assert(seed@ =~= bytes@);
}

} // verus!
