//! The pool of face sidecars that stay running between calls.

use vstd::prelude::*;

use crate::sidecar::{answer_data, face_sidecar_answer, SidecarResult};
use crate::text;

verus! {

/// A place in the pool: whether a call uses it, and the process that waits in it.
pub struct FaceSlot<P> {
    pub in_use: bool,
    pub process: Option<P>,
}

/// The slots of the pool.
pub struct FacePool<P> {
    slots: Vec<FaceSlot<P>>,
}

/// What a call gets from the pool.
pub enum Acquired<P> {
    /// A slot with the process that waited in it.
    Waiting(usize, P),
    /// A slot for which a process is to be started.
    Vacant(usize),
    /// Every slot is in use: try again later.
    Busy,
}

/// The first slot from `i` on that is not in use, or the number of slots.
pub open spec fn first_free<P>(slots: Seq<FaceSlot<P>>, i: nat) -> int
    decreases slots.len() - i,
{
    if i >= slots.len() {
        slots.len() as int
    } else if !slots[i as int].in_use {
        i as int
    } else {
        first_free(slots, i + 1)
    }
}

/// The number of slots that a pool may have.
pub open spec fn pool_limit(pool_size: int) -> int {
    if pool_size < 1 {
        1
    } else {
        pool_size
    }
}

/// The slot that a call gets, if there is one: the first that is free, or a new one while the
/// pool may grow.
pub open spec fn acquired_slot<P>(slots: Seq<FaceSlot<P>>, pool_size: int) -> Option<int> {
    if first_free(slots, 0) < slots.len() {
        Some(first_free(slots, 0))
    } else if slots.len() < pool_limit(pool_size) {
        Some(slots.len() as int)
    } else {
        None
    }
}

/// The slots after a call got its own.
pub open spec fn slots_after_acquiring<P>(slots: Seq<FaceSlot<P>>, pool_size: int) -> Seq<
    FaceSlot<P>,
> {
    match acquired_slot(slots, pool_size) {
        Some(i) => if i < slots.len() {
            slots.update(i, FaceSlot { in_use: true, process: None })
        } else {
            slots.push(FaceSlot { in_use: true, process: None })
        },
        None => slots,
    }
}

/// The slots after a process was brought back to slot `i`. Slots up to `i` that are not there
/// yet come free.
pub open spec fn slots_after_return<P>(slots: Seq<FaceSlot<P>>, i: int, p: P) -> Seq<FaceSlot<P>> {
    let longer = if i < slots.len() {
        slots
    } else {
        slots + Seq::new(
            (i + 1 - slots.len()) as nat,
            |k: int| FaceSlot { in_use: false, process: None },
        )
    };
    longer.update(i, FaceSlot { in_use: false, process: Some(p) })
}

/// The slots after slot `i` came free without a process.
pub open spec fn slots_after_release<P>(slots: Seq<FaceSlot<P>>, i: int) -> Seq<FaceSlot<P>> {
    if 0 <= i < slots.len() {
        slots.update(i, FaceSlot { in_use: false, process: None })
    } else {
        slots
    }
}

impl<P> View for FacePool<P> {
    type V = Seq<FaceSlot<P>>;

    closed spec fn view(&self) -> Seq<FaceSlot<P>> {
        self.slots@
    }
}

impl<P> FacePool<P> {
    /// The pool without slots.
    pub fn new() -> (pool: Self)
        ensures
            pool@ == Seq::<FaceSlot<P>>::empty(),
    {
        FacePool { slots: Vec::new() }
    }

    /// Gets a slot for a call. See [`acquired_slot`].
    pub fn take_face_sidecar(&mut self, pool_size: usize) -> (got: Acquired<P>)
        ensures
            final(self)@ == slots_after_acquiring(old(self)@, pool_size as int),
            match got {
                Acquired::Waiting(i, p) => acquired_slot(old(self)@, pool_size as int) == Some(
                    i as int,
                ) && i < old(self)@.len() && old(self)@[i as int].process == Some(p),
                Acquired::Vacant(i) => acquired_slot(old(self)@, pool_size as int) == Some(
                    i as int,
                ) && (i < old(self)@.len() ==> old(self)@[i as int].process is None),
                Acquired::Busy => acquired_slot(old(self)@, pool_size as int) is None,
            },
    {
        let limit: usize = if pool_size < 1 {
            1
        } else {
            pool_size
        };
        let mut i: usize = 0;
        while i < self.slots.len()
            invariant
                self@ == old(self)@,
                i <= self.slots.len(),
                first_free(old(self)@, 0) == first_free(old(self)@, i as nat),
            decreases self.slots.len() - i,
        {
            if !self.slots[i].in_use {
                let mut slot = FaceSlot { in_use: true, process: None };
                std::mem::swap(&mut slot, &mut self.slots[i]);
                assert(self@ =~= slots_after_acquiring(old(self)@, pool_size as int));
                return match slot.process {
                    Some(p) => Acquired::Waiting(i, p),
                    None => Acquired::Vacant(i),
                };
            }
            i = i + 1;
        }
        if self.slots.len() < limit {
            let n: usize = self.slots.len();
            self.slots.push(FaceSlot { in_use: true, process: None });
            Acquired::Vacant(n)
        } else {
            Acquired::Busy
        }
    }

    /// Brings a process back to its slot. See [`slots_after_return`].
    pub fn return_face_sidecar(&mut self, i: usize, p: P)
        requires
            i < usize::MAX,
        ensures
            final(self)@ == slots_after_return(old(self)@, i as int, p),
    {
        let ghost before = self.slots@;
        while self.slots.len() <= i
            invariant
                i < usize::MAX,
                before.len() <= self.slots.len(),
                before.len() <= i ==> self.slots.len() <= i + 1,
                before.len() > i ==> self.slots@ == before,
                forall|k: int| 0 <= k < before.len() ==> #[trigger] self.slots@[k] == before[k],
                forall|k: int|
                    before.len() <= k < self.slots@.len() ==> #[trigger] self.slots@[k] == (FaceSlot {
                        in_use: false,
                        process: None::<P>,
                    }),
            decreases i + 1 - self.slots.len(),
        {
            self.slots.push(FaceSlot { in_use: false, process: None });
        }
        self.slots.set(i, FaceSlot { in_use: false, process: Some(p) });
        assert(self@ =~= slots_after_return(before, i as int, p));
    }

    /// Frees a slot whose process is gone. See [`slots_after_release`].
    pub fn release_face_sidecar_slot(&mut self, i: usize)
        ensures
            final(self)@ == slots_after_release(old(self)@, i as int),
    {
        if i < self.slots.len() {
            self.slots.set(i, FaceSlot { in_use: false, process: None });
        }
    }
}

proof fn lemma_first_free<P>(slots: Seq<FaceSlot<P>>, i: nat)
    requires
        i <= slots.len(),
    ensures
        i <= first_free(slots, i) <= slots.len(),
        first_free(slots, i) < slots.len() ==> !slots[first_free(slots, i)].in_use,
    decreases slots.len() - i,
{
    if i < slots.len() && slots[i as int].in_use {
        lemma_first_free(slots, i + 1);
    }
}

/// A slot that a call gets was in nobody's use and is in use from then on, no other slot changes,
/// and the pool grows to no more than its size.
pub proof fn acquired_slot_is_the_callers<P>(slots: Seq<FaceSlot<P>>, pool_size: int)
    ensures
        slots_after_acquiring(slots, pool_size).len() <= if slots.len() > pool_limit(pool_size) {
            slots.len() as int
        } else {
            pool_limit(pool_size)
        },
        match acquired_slot(slots, pool_size) {
            Some(i) => {
                &&& 0 <= i < slots_after_acquiring(slots, pool_size).len()
                &&& i < slots.len() ==> !slots[i].in_use
                &&& slots_after_acquiring(slots, pool_size)[i].in_use
                &&& forall|k: int|
                    0 <= k < slots.len() && k != i ==> #[trigger] slots_after_acquiring(
                        slots,
                        pool_size,
                    )[k] == slots[k]
            },
            None => forall|k: int| 0 <= k < slots.len() ==> (#[trigger] slots[k]).in_use,
        },
{
    lemma_first_free(slots, 0);
    if acquired_slot(slots, pool_size) is None {
        assert forall|k: int| 0 <= k < slots.len() implies (#[trigger] slots[k]).in_use by {
            lemma_first_free_is_first(slots, 0, k);
        }
    }
}

proof fn lemma_first_free_is_first<P>(slots: Seq<FaceSlot<P>>, i: nat, k: int)
    requires
        i <= k < slots.len(),
        first_free(slots, i) == slots.len(),
    ensures
        slots[k].in_use,
    decreases k - i,
{
    if i < k && slots[i as int].in_use {
        lemma_first_free_is_first(slots, i + 1, k);
    }
}

/// Two calls that get their slots one after the other get different slots, whatever the sizes
/// they ask for.
pub proof fn callers_get_different_slots<P>(slots: Seq<FaceSlot<P>>, first: int, second: int)
    requires
        acquired_slot(slots, first) is Some,
    ensures
        acquired_slot(slots_after_acquiring(slots, first), second) != acquired_slot(slots, first),
{
    acquired_slot_is_the_callers(slots, first);
    acquired_slot_is_the_callers(slots_after_acquiring(slots, first), second);
}

/// A slot that is free again is not lost: the next call gets a slot.
pub proof fn released_slot_can_be_acquired<P>(slots: Seq<FaceSlot<P>>, i: int, pool_size: int)
    requires
        0 <= i < slots.len(),
    ensures
        acquired_slot(slots_after_release(slots, i), pool_size) is Some,
{
    let after = slots_after_release(slots, i);
    lemma_first_free(after, 0);
    if first_free(after, 0) == after.len() {
        lemma_first_free_is_first(after, 0, i);
    }
}

/// A process that was brought back waits in its slot, and the next call gets a slot.
pub proof fn returned_process_waits_in_its_slot<P>(
    slots: Seq<FaceSlot<P>>,
    i: int,
    p: P,
    pool_size: int,
)
    requires
        0 <= i,
    ensures
        i < slots_after_return(slots, i, p).len(),
        slots_after_return(slots, i, p)[i] == (FaceSlot { in_use: false, process: Some(p) }),
        acquired_slot(slots_after_return(slots, i, p), pool_size) is Some,
{
    let after = slots_after_return(slots, i, p);
    lemma_first_free(after, 0);
    if first_free(after, 0) == after.len() {
        lemma_first_free_is_first(after, 0, i);
    }
}

/// What happens to a call's slot when the call ends.
#[derive(Clone, Copy)]
pub enum SlotFate {
    /// The process goes back to its slot.
    Returned,
    /// The slot comes free without a process.
    Released,
    /// The slot stays in use.
    Held,
}

/// How a call of the face sidecar ended.
pub enum FaceCallEnd {
    /// No process could be started for the slot.
    StartFailed(String),
    /// The process that waited in the slot could not be asked for its state.
    StateUnknown(String),
    /// The request could not be written and no new process could be started.
    RestartFailed(String),
    /// The request could not be written, not even to a new process.
    WriteFailed(String),
    /// The answer could not be read.
    ReadFailed(String),
    /// A line was read.
    Answered(String),
}

/// The fate of the slot of a call that ended.
pub open spec fn slot_fate(end: FaceCallEnd) -> SlotFate {
    match end {
        FaceCallEnd::RestartFailed(_) => SlotFate::Held,
        FaceCallEnd::Answered(line) => if text::trimmed(line@).len() == 0 {
            SlotFate::Released
        } else {
            SlotFate::Returned
        },
        _ => SlotFate::Released,
    }
}

/// The message of a call that ended without an answer.
pub open spec fn call_error(end: FaceCallEnd) -> Option<Seq<char>> {
    match end {
        FaceCallEnd::StartFailed(e) => Some(e@),
        FaceCallEnd::StateUnknown(e) => Some("failed to check face sidecar status: "@ + e@),
        FaceCallEnd::RestartFailed(e) => Some(e@),
        FaceCallEnd::WriteFailed(e) => Some("failed to write face sidecar stdin: "@ + e@),
        FaceCallEnd::ReadFailed(e) => Some("failed to read face sidecar stdout: "@ + e@),
        FaceCallEnd::Answered(line) => if text::trimmed(line@).len() == 0 {
            Some("face sidecar exited without a response"@)
        } else {
            None
        },
    }
}

/// What a call comes to, and what happens to its slot.
pub fn end_face_call(end: FaceCallEnd) -> (r: (SlotFate, Result<SidecarResult, String>))
    ensures
        r.0 == slot_fate(end),
        match r.1 {
            Err(message) => call_error(end) == Some(message@),
            Ok(res) => call_error(end) is None && (end matches FaceCallEnd::Answered(line)
                && res.stdout == line && res.stderr@ == Seq::<char>::empty() && res.ok == (
            answer_data(line@) is Ok)),
        },
{
    match end {
        FaceCallEnd::StartFailed(e) => (SlotFate::Released, Err(e)),
        FaceCallEnd::StateUnknown(e) => (
            SlotFate::Released,
            Err(text::concat2("failed to check face sidecar status: ", e.as_str())),
        ),
        FaceCallEnd::RestartFailed(e) => (SlotFate::Held, Err(e)),
        FaceCallEnd::WriteFailed(e) => (
            SlotFate::Released,
            Err(text::concat2("failed to write face sidecar stdin: ", e.as_str())),
        ),
        FaceCallEnd::ReadFailed(e) => (
            SlotFate::Released,
            Err(text::concat2("failed to read face sidecar stdout: ", e.as_str())),
        ),
        FaceCallEnd::Answered(line) => match face_sidecar_answer(line) {
            Ok(res) => (SlotFate::Returned, Ok(res)),
            Err(e) => (SlotFate::Released, Err(e)),
        },
    }
}

/// A call gets the first free slot: every slot in front of it is in use. A new slot is made only
/// where all are in use and the pool may grow.
pub proof fn first_free_slot_is_acquired<P>(slots: Seq<FaceSlot<P>>, pool_size: int)
    ensures
        acquired_slot(slots, pool_size) matches Some(i) ==> 0 <= i <= slots.len() && forall|k: int|
            0 <= k < i ==> (#[trigger] slots[k]).in_use,
        (exists|k: int| 0 <= k < slots.len() && !(#[trigger] slots[k]).in_use) ==> acquired_slot(
            slots,
            pool_size,
        ) is Some,
        (forall|k: int| 0 <= k < slots.len() ==> (#[trigger] slots[k]).in_use) ==> (acquired_slot(
            slots,
            pool_size,
        ) is Some <==> slots.len() < 1 || slots.len() < pool_size),
{
    lemma_first_free(slots, 0);
    lemma_used_in_front(slots, 0);
    if acquired_slot(slots, pool_size) is None {
        assert forall|k: int| 0 <= k < slots.len() implies (#[trigger] slots[k]).in_use by {
            lemma_first_free_is_first(slots, 0, k);
        }
    }
}

proof fn lemma_used_in_front<P>(slots: Seq<FaceSlot<P>>, i: nat)
    requires
        i <= slots.len(),
    ensures
        forall|k: int| i <= k < first_free(slots, i) ==> (#[trigger] slots[k]).in_use,
    decreases slots.len() - i,
{
    if i < slots.len() && slots[i as int].in_use {
        lemma_used_in_front(slots, i + 1);
    }
}

} // verus!
