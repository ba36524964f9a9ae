//! The decisions of a fill, one instruction at a time.
//!
//! The instructions themselves are issued by the caller. `KeyFill` decides
//! which one comes next and what becomes of its outcome: it hands out an
//! `Action`, takes the `Event` that answers it, and hands out the next.

use crate::ecalls::{classify, status_of, ECallStatus, STATUS_SUCCESS};
use crate::isa::{Keyrequest, Report, Targetinfo};
use crate::keyrequest::{
    build_keyrequest, chunk_count, chunk_len, chunk_of, is_request, key_id, key_id_of,
    same_request, with_chunk, KeyOpts, CHUNK_SIZE,
};
use vstd::prelude::*;
use vstd::slice::slice_subrange;

verus! {

/// What the caller is to do next.
#[derive(Clone, Copy, Debug, PartialEq, Eq)]
pub enum Action {
    /// Issue `EREPORT` for this target with this report data.
    Report(Targetinfo, [u8; 64]),
    /// Issue `EGETKEY` with this request.
    GetKey(Keyrequest),
    /// Nothing: the buffer is final and this is the result.
    Done(Result<(), ECallStatus>),
}

/// What an instruction left behind: its status word and what it wrote.
#[derive(Clone, Copy, Debug, PartialEq, Eq)]
pub enum Event {
    Report(u32, Report),
    Key(u32, [u8; 16]),
}

/// What a `KeyFill` waits for.
#[derive(Clone, Copy, Debug, PartialEq, Eq, Structural)]
pub enum Phase {
    /// The report on the enclave itself.
    Report,
    /// The key for the chunk at the current offset.
    Key,
    /// Nothing more.
    Done,
}

/// A buffer on its way from seed to key material.
pub struct KeyFill {
    opts: KeyOpts,
    seed: Vec<u8>,
    offset: usize,
    report: Option<Report>,
    result: Option<Result<(), ECallStatus>>,
}

impl KeyFill {
    #[verifier::type_invariant]
    spec fn well_formed(self) -> bool {
        &&& self.offset <= self.seed@.len()
        &&& self.report is None ==> self.offset == 0 && self.result != Some(Ok::<(), ECallStatus>(()))
        &&& self.result is None && self.report is Some ==> self.offset < self.seed@.len()
            && self.offset % 16 == 0
        &&& self.result == Some(Ok::<(), ECallStatus>(())) ==> self.offset == self.seed@.len()
    }

    /// The options that the keys are requested with.
    pub closed spec fn opts(self) -> KeyOpts {
        self.opts
    }

    /// The buffer as it stands: key material before the offset, seed from it.
    pub closed spec fn bytes(self) -> Seq<u8> {
        self.seed@
    }

    /// Where the first chunk starts that has not been overwritten.
    pub closed spec fn offset(self) -> nat {
        self.offset as nat
    }

    /// The report on the enclave, once it has come.
    pub closed spec fn report(self) -> Option<Report> {
        self.report
    }

    /// The result, once it is known.
    pub closed spec fn outcome(self) -> Option<Result<(), ECallStatus>> {
        self.result
    }

    /// What holds of every state. The offset lies within the buffer. While
    /// the report is awaited nothing has been written; while a key is awaited
    /// the offset is the start of a whole chunk; and a fill that has
    /// succeeded has the report and has reached the end of the buffer.
    pub open spec fn valid(self) -> bool {
        &&& self.offset() <= self.bytes().len()
        &&& self.report() is None ==> self.offset() == 0 && self.outcome() != Some(
            Ok::<(), ECallStatus>(()),
        )
        &&& self.phase() == Phase::Key ==> self.offset() < self.bytes().len() && self.offset() % 16
            == 0
        &&& self.outcome() == Some(Ok::<(), ECallStatus>(())) ==> self.offset()
            == self.bytes().len()
    }

    /// What this state waits for.
    pub open spec fn phase(self) -> Phase {
        if self.outcome() is Some {
            Phase::Done
        } else if self.report() is None {
            Phase::Report
        } else {
            Phase::Key
        }
    }

    /// Whether the two states hold the same values.
    pub open spec fn same(self, other: KeyFill) -> bool {
        &&& self.opts() == other.opts()
        &&& self.bytes() == other.bytes()
        &&& self.offset() == other.offset()
        &&& self.report() == other.report()
        &&& self.outcome() == other.outcome()
    }

    /// Whether `action` is what this state has its caller do: a report on the
    /// enclave itself with no report data, then for each chunk in turn the
    /// key request whose key id is that chunk, then nothing.
    pub open spec fn asks(self, action: Action) -> bool {
        match self.phase() {
            Phase::Report => action matches Action::Report(target, data) && target.is_zero()
                && data@ == Seq::new(64, |i: int| 0u8),
            Phase::Key => action matches Action::GetKey(req) && is_request(
                req,
                self.opts(),
                self.report().unwrap(),
                key_id_of(chunk_of(self.bytes(), self.offset())),
            ),
            Phase::Done => action == Action::Done(self.outcome().unwrap()),
        }
    }

    /// Whether `next` is the state that comes after this one on `event`.
    ///
    /// A report that failed ends the fill with its classified status and the
    /// buffer as it was. A report that came is kept, and ends the fill with
    /// success if the buffer is empty. A key that failed ends the fill with
    /// its classified status: the chunks before the offset stay overwritten
    /// and the rest stays seed. A key that came overwrites its chunk and
    /// moves the offset behind it, which ends the fill with success at the
    /// end of the buffer. An event that does not answer what the state waits
    /// for changes nothing.
    pub open spec fn follows(self, event: Event, next: KeyFill) -> bool {
        match (self.phase(), event) {
            (Phase::Report, Event::Report(status, report)) => {
                &&& next.opts() == self.opts()
                &&& next.bytes() == self.bytes()
                &&& next.offset() == 0
                &&& if status != STATUS_SUCCESS {
                    &&& next.report() is None
                    &&& next.outcome() == Some(Err::<(), ECallStatus>(status_of(status)))
                } else {
                    &&& next.report() == Some(report)
                    &&& next.outcome() == if self.bytes().len() == 0 {
                        Some(Ok::<(), ECallStatus>(()))
                    } else {
                        None
                    }
                }
            },
            (Phase::Key, Event::Key(status, key)) => {
                &&& next.opts() == self.opts()
                &&& next.report() == self.report()
                &&& if status != STATUS_SUCCESS {
                    &&& next.bytes() == self.bytes()
                    &&& next.offset() == self.offset()
                    &&& next.outcome() == Some(Err::<(), ECallStatus>(status_of(status)))
                } else {
                    &&& next.bytes() == with_chunk(self.bytes(), self.offset(), key@)
                    &&& next.offset() == self.offset() + chunk_len(self.bytes().len(), self.offset())
                    &&& next.outcome() == if next.offset() == self.bytes().len() {
                        Some(Ok::<(), ECallStatus>(()))
                    } else {
                        None
                    }
                }
            },
            _ => next.same(self),
        }
    }

    /// Starts to fill `seed`: nothing is written yet, and the first thing
    /// asked for is the report on the enclave itself.
    pub fn new(opts: KeyOpts, seed: Vec<u8>) -> (start: (KeyFill, Action))
        ensures
            start.0.opts() == opts,
            start.0.bytes() == seed@,
            start.0.offset() == 0,
            start.0.report() is None,
            start.0.outcome() is None,
            start.0.valid(),
            start.0.asks(start.1),
    {
        let state = KeyFill { opts, seed, offset: 0, report: None, result: None };
        let action = state.pending();
        (state, action)
    }

    /// The action that this state waits on.
    pub fn pending(&self) -> (action: Action)
        ensures
            self.valid(),
            self.asks(action),
    {
        proof {
            use_type_invariant(self);
        }
        match self.result {
            Some(result) => Action::Done(result),
            None => match &self.report {
                None => {
                    let target = Targetinfo::default();
                    let data = [0u8; 64];
                    assert(data@ =~= Seq::new(64, |i: int| 0u8));
                    Action::Report(target, data)
                },
                Some(report) => {
                    let end: usize = if self.seed.len() - self.offset < CHUNK_SIZE {
                        self.seed.len()
                    } else {
                        self.offset + CHUNK_SIZE
                    };
                    let chunk = slice_subrange(self.seed.as_slice(), self.offset, end);
                    let keyid = key_id(chunk);
                    Action::GetKey(build_keyrequest(self.opts, report, keyid))
                },
            },
        }
    }

    /// Takes the outcome of the action that this state waits on, and says
    /// what to do next.
    pub fn step(self, event: Event) -> (next: (KeyFill, Action))
        ensures
            self.valid(),
            self.follows(event, next.0),
            next.0.valid(),
            next.0.asks(next.1),
    {
        proof {
            use_type_invariant(&self);
        }
        let KeyFill { opts, seed, offset, report, result } = self;
        let mut seed = seed;
        let state = match (result, report, event) {
            (None, None, Event::Report(status, fresh)) => {
                match classify(status) {
                    Err(error) => KeyFill { opts, seed, offset, report: None, result: Some(Err(error)) },
                    Ok(()) => {
                        let result = if seed.len() == 0 {
                            Some(Ok(()))
                        } else {
                            None
                        };
                        KeyFill { opts, seed, offset, report: Some(fresh), result }
                    },
                }
            },
            (None, Some(report), Event::Key(status, key)) => {
                match classify(status) {
                    Err(error) => KeyFill { opts, seed, offset, report: Some(report), result: Some(Err(error)) },
                    Ok(()) => {
                        let n: usize = if seed.len() - offset < CHUNK_SIZE {
                            seed.len() - offset
                        } else {
                            CHUNK_SIZE
                        };
                        let ghost before = seed@;
                        let mut i: usize = 0;
                        while i < n
                            invariant
                                i <= n <= 16,
                                offset + n <= seed@.len() <= usize::MAX,
                                seed@.len() == before.len(),
                                forall|j: int|
                                    0 <= j < seed@.len() ==> seed@[j] == if offset <= j < offset + i {
                                        key@[j - offset]
                                    } else {
                                        before[j]
                                    },
                            decreases n - i,
                        {
                            seed.set(offset + i, key[i]);
                            i += 1;
                        }
                        assert(seed@ =~= with_chunk(before, offset as nat, key@));
                        let result = if offset + n == seed.len() {
                            Some(Ok(()))
                        } else {
                            None
                        };
                        KeyFill { opts, seed, offset: offset + n, report: Some(report), result }
                    },
                }
            },
            (result, report, _) => KeyFill { opts, seed, offset, report, result },
        };
        proof {
            use_type_invariant(&state);
        }
        let action = state.pending();
        (state, action)
    }

    /// The buffer as it stands.
    pub fn seed(&self) -> (seed: &Vec<u8>)
        ensures
            seed@ == self.bytes(),
    {
        &self.seed
    }

    /// Gives the buffer back.
    pub fn into_seed(self) -> (seed: Vec<u8>)
        ensures
            seed@ == self.bytes(),
    {
        self.seed
    }

    /// The result, once it is known.
    pub fn result(&self) -> (result: Option<Result<(), ECallStatus>>)
        ensures
            result == self.outcome(),
    {
        self.result
    }
}

impl KeyFill {
    /// How many instructions are still to be issued if each of them succeeds:
    /// the report, if it has not come, and one key request for each chunk
    /// from the offset on.
    pub open spec fn calls_left(self) -> nat {
        match self.phase() {
            Phase::Report => 1 + chunk_count(self.bytes().len()),
            Phase::Key => (chunk_count(self.bytes().len()) - chunk_count(self.offset())) as nat,
            Phase::Done => 0,
        }
    }

    /// Whether `event` is the outcome of the instruction that this state
    /// waits on.
    pub open spec fn answered_by(self, event: Event) -> bool {
        match (self.phase(), event) {
            (Phase::Report, Event::Report(_, _)) => true,
            (Phase::Key, Event::Key(_, _)) => true,
            _ => false,
        }
    }
}

/// A step never changes the length of the buffer, and an instruction that
/// failed ends the fill at once: no further call is left.
pub proof fn lemma_step_keeps_length(pre: KeyFill, event: Event, post: KeyFill)
    requires
        pre.valid(),
        pre.follows(event, post),
    ensures
        post.bytes().len() == pre.bytes().len(),
        post.outcome() matches Some(Err(_)) ==> post.calls_left() == 0,
{
}

/// Every instruction that succeeds is one of those that were left, so a fill
/// of `len` bytes that succeeds has issued one `EREPORT` and `len / 16`,
/// rounded up, `EGETKEY`: none for an empty buffer. It ends with success
/// exactly when no call is left.
pub proof fn lemma_one_call_per_chunk(pre: KeyFill, event: Event, post: KeyFill)
    requires
        pre.valid(),
        pre.follows(event, post),
        pre.answered_by(event),
        event matches Event::Report(status, _) ==> status == STATUS_SUCCESS,
        event matches Event::Key(status, _) ==> status == STATUS_SUCCESS,
    ensures
        post.calls_left() + 1 == pre.calls_left(),
        post.outcome() == Some(Ok::<(), ECallStatus>(())) <==> post.calls_left() == 0,
        post.outcome() is None ==> post.phase() == Phase::Key,
        event is Key ==> chunk_count(post.offset()) == chunk_count(pre.offset()) + 1,
{
}

/// A step writes nowhere but in the chunk at the offset. The bytes before it,
/// which are the keys of earlier chunks, stay as they are. So do the bytes
/// behind it, so that each later chunk is still the seed it was when its key
/// is requested.
pub proof fn lemma_other_chunks_untouched(pre: KeyFill, event: Event, post: KeyFill)
    requires
        pre.valid(),
        pre.follows(event, post),
    ensures
        forall|i: int| 0 <= i < pre.offset() ==> post.bytes()[i] == pre.bytes()[i],
        forall|i: int| post.offset() <= i < pre.bytes().len() ==> post.bytes()[i] == pre.bytes()[i],
        forall|at: nat|
            post.offset() <= at <= pre.bytes().len() ==> #[trigger] chunk_of(post.bytes(), at)
                == chunk_of(pre.bytes(), at),
{
    assert forall|at: nat| post.offset() <= at <= pre.bytes().len() implies #[trigger] chunk_of(
        post.bytes(),
        at,
    ) == chunk_of(pre.bytes(), at) by {
        assert(chunk_of(post.bytes(), at) =~= chunk_of(pre.bytes(), at));
    }
}

/// A key that came stands in its chunk, cut to the chunk's length.
pub proof fn lemma_chunk_holds_key(pre: KeyFill, key: [u8; 16], post: KeyFill)
    requires
        pre.valid(),
        pre.phase() == Phase::Key,
        pre.follows(Event::Key(STATUS_SUCCESS, key), post),
    ensures
        chunk_of(post.bytes(), pre.offset()) == key@.subrange(
            0,
            chunk_len(pre.bytes().len(), pre.offset()) as int,
        ),
{
    assert(chunk_of(post.bytes(), pre.offset()) =~= key@.subrange(
        0,
        chunk_len(pre.bytes().len(), pre.offset()) as int,
    ));
}

/// The request for a chunk is made of the options, the report and the bytes
/// of that chunk, and of nothing else: two fills that agree on these ask for
/// the same key, whatever the rest of their buffers holds and however far
/// they have come.
pub proof fn lemma_chunk_independence(a: KeyFill, b: KeyFill, ra: Keyrequest, rb: Keyrequest)
    requires
        a.phase() == Phase::Key,
        b.phase() == Phase::Key,
        a.opts() == b.opts(),
        a.report() == b.report(),
        chunk_of(a.bytes(), a.offset()) == chunk_of(b.bytes(), b.offset()),
        a.asks(Action::GetKey(ra)),
        b.asks(Action::GetKey(rb)),
    ensures
        same_request(ra, rb),
{
}

/// Whether `states` and `events` are the course of a fill from its start: the
/// first state waits for the report, each event answers the state before it,
/// and each state follows from the one before.
pub open spec fn is_run(states: Seq<KeyFill>, events: Seq<Event>) -> bool {
    &&& states.len() == events.len() + 1
    &&& states[0].phase() == Phase::Report
    &&& forall|i: int| 0 <= i < states.len() ==> (#[trigger] states[i]).valid()
    &&& forall|i: int|
        0 <= i < events.len() ==> #[trigger] states[i].answered_by(events[i])
            && states[i].follows(events[i], states[i + 1])
}

/// Whether the instruction behind `event` succeeded.
pub open spec fn succeeded(event: Event) -> bool {
    match event {
        Event::Report(status, _) => status == STATUS_SUCCESS,
        Event::Key(status, _) => status == STATUS_SUCCESS,
    }
}

/// On the course of a fill that ends well every instruction succeeded, and
/// after `k` of them as many fewer are left.
proof fn lemma_run_prefix(states: Seq<KeyFill>, events: Seq<Event>, k: nat)
    requires
        is_run(states, events),
        states.last().outcome() == Some(Ok::<(), ECallStatus>(())),
        k <= events.len(),
    ensures
        states[k as int].bytes().len() == states[0].bytes().len(),
        states[k as int].calls_left() + k == 1 + chunk_count(states[0].bytes().len()),
        k >= 1 ==> states[k as int].report() is Some && succeeded(events[k - 1]),
    decreases k,
{
    if k > 0 {
        lemma_run_prefix(states, events, (k - 1) as nat);
        let pre = states[k - 1];
        let event = events[k - 1];
        let post = states[k as int];
        assert(pre.valid() && post.valid());
        assert(pre.answered_by(event) && pre.follows(event, post));
        if !succeeded(event) {
            assert(post.phase() == Phase::Done);
            if k < events.len() {
                assert(states[k as int].answered_by(events[k as int]));
            }
            assert(post.outcome() == Some(Ok::<(), ECallStatus>(())));
        }
        lemma_one_call_per_chunk(pre, event, post);
        lemma_step_keeps_length(pre, event, post);
    }
}

/// A fill of `len` bytes that succeeds has issued `EREPORT` once, before
/// anything else, and then `EGETKEY` `len / 16` times, rounded up: not at all
/// for an empty buffer. Each of these instructions succeeded.
pub proof fn lemma_calls_of_a_fill(states: Seq<KeyFill>, events: Seq<Event>)
    requires
        is_run(states, events),
        states.last().outcome() == Some(Ok::<(), ECallStatus>(())),
    ensures
        events.len() == 1 + chunk_count(states[0].bytes().len()),
        events[0] is Report,
        forall|i: int| 1 <= i < events.len() ==> (#[trigger] events[i]) is Key,
        forall|i: int| 0 <= i < events.len() ==> succeeded(#[trigger] events[i]),
{
    lemma_run_prefix(states, events, events.len());
    assert(states[0].valid());
    assert(events.len() >= 1);
    assert(states[0].answered_by(events[0]));
    assert forall|i: int| 1 <= i < events.len() implies (#[trigger] events[i]) is Key by {
        lemma_run_prefix(states, events, i as nat);
        assert(states[i].answered_by(events[i]));
    }
    assert forall|i: int| 0 <= i < events.len() implies succeeded(#[trigger] events[i]) by {
        lemma_run_prefix(states, events, (i + 1) as nat);
    }
}

} // verus!
