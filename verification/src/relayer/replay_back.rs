//! Planning a replay: which slots to ask headers for, and in which calls to
//! hand them to the light client.

use vstd::prelude::*;
use crate::beacon::{calculate_period, spec_period};

verus! {

/// A replay that the light client has under way.
#[derive(Clone, Copy, Debug, PartialEq, Eq, Structural)]
pub struct ReplayBack {
    /// Slot of the finalized header of the client.
    pub finalized_header: u64,
    /// Slot of the last header that the client has replayed.
    pub last_header: u64,
}

/// One call to the light client.
#[derive(Clone, Copy, Debug, PartialEq, Eq, Structural)]
pub enum ReplayCall {
    /// Start a replay with update number `update` of those fetched and the
    /// headers of the slots from `slot_start` up to `slot_end`.
    Start { update: usize, slot_start: u64, slot_end: u64 },
    /// Start a replay with the update that the replay is for.
    StartLast { slot_start: u64, slot_end: u64 },
    /// Go on with the headers of the slots from `slot_start` up to `slot_end`.
    Process { slot_start: u64, slot_end: u64 },
}

/// A range of slots cannot be cut into batches: it is empty, or the size of
/// a batch is zero.
#[derive(Clone, Copy, Debug, PartialEq, Eq, Structural)]
pub struct SlotsError {
    pub slot_start: u64,
    pub slot_end: u64,
}

/// Whether the slots from `slot_start` up to `slot_end` can be cut into
/// batches of `size_batch` slots.
pub open spec fn batches_exist(slot_start: u64, slot_end: u64, size_batch: u64) -> bool {
    size_batch > 0 && slot_start < slot_end
}

/// The slots from `slot_start` up to `slot_end` cut into batches of
/// `size_batch` slots, the last one as long as what is left.
pub open spec fn spec_batches(slot_start: u64, slot_end: u64, size_batch: u64) -> Seq<(u64, u64)>
    decreases slot_end - slot_start,
{
    if size_batch == 0 || slot_start >= slot_end {
        Seq::empty()
    } else if slot_end - slot_start <= size_batch {
        seq![(slot_start, slot_end)]
    } else {
        seq![(slot_start, (slot_start + size_batch) as u64)] + spec_batches(
            (slot_start + size_batch) as u64,
            slot_end,
            size_batch,
        )
    }
}

/// Cuts the slots from `slot_start` up to `slot_end` into batches.
pub fn slots_batches(slot_start: u64, slot_end: u64, size_batch: u64) -> (batches: Option<
    Vec<(u64, u64)>,
>)
    ensures
        batches is Some <==> batches_exist(slot_start, slot_end, size_batch),
        batches matches Some(list) ==> list@ == spec_batches(slot_start, slot_end, size_batch),
{
    if size_batch == 0 || slot_start >= slot_end {
        return None;
    }
    let mut list: Vec<(u64, u64)> = Vec::new();
    let mut start = slot_start;
    while slot_end - start > size_batch
        invariant
            size_batch > 0,
            slot_start <= start < slot_end,
            spec_batches(slot_start, slot_end, size_batch) == list@ + spec_batches(
                start,
                slot_end,
                size_batch,
            ),
        decreases slot_end - start,
    {
        let end = start + size_batch;
        list.push((start, end));
        assert(list@ + spec_batches(end, slot_end, size_batch) =~= list@.drop_last() + (seq![
            (start, end),
        ] + spec_batches(end, slot_end, size_batch)));
        start = end;
    }
    list.push((start, slot_end));
    assert(list@ =~= list@.drop_last() + seq![(start, slot_end)]);
    Some(list)
}

/// The calls that hand one range of slots to the client: the first batch
/// starts a replay with `first`, the others go on with it.
pub open spec fn spec_calls(batches: Seq<(u64, u64)>, first: ReplayCall) -> Seq<ReplayCall> {
    Seq::new(
        batches.len(),
        |i: int|
            if i == 0 {
                first
            } else {
                ReplayCall::Process { slot_start: batches[i].0, slot_end: batches[i].1 }
            },
    )
}

/// The calls that go on with a replay over `batches`.
pub open spec fn spec_process_calls(batches: Seq<(u64, u64)>) -> Seq<ReplayCall> {
    Seq::new(
        batches.len(),
        |i: int| ReplayCall::Process { slot_start: batches[i].0, slot_end: batches[i].1 },
    )
}

/// The calls that finish a replay under way, and the slot from which the
/// updates are replayed afterwards. Without a replay under way there is
/// nothing to finish, and the updates are replayed from the checkpoint.
pub open spec fn spec_resume(replay_back: Option<ReplayBack>, checkpoint_slot: u64, size_batch: u64)
    -> Result<(Seq<ReplayCall>, u64), SlotsError> {
    match replay_back {
        Some(replay) => if batches_exist(checkpoint_slot, replay.last_header, size_batch) {
            Ok(
                (
                    spec_process_calls(
                        spec_batches(checkpoint_slot, replay.last_header, size_batch),
                    ),
                    replay.finalized_header,
                ),
            )
        } else {
            Err(SlotsError { slot_start: checkpoint_slot, slot_end: replay.last_header })
        },
        None => Ok((Seq::empty(), checkpoint_slot)),
    }
}

/// What is done before the updates are fetched.
#[derive(Debug)]
pub struct Resume {
    /// The calls that finish the replay under way.
    pub calls: Vec<ReplayCall>,
    /// The slot from which the updates are replayed.
    pub slot_start: u64,
    /// The first period to fetch updates for: the one after the period of
    /// `slot_start`.
    pub period_start: u64,
}

fn push_process_calls(calls: &mut Vec<ReplayCall>, batches: &Vec<(u64, u64)>, from: usize)
    requires
        from <= batches@.len(),
    ensures
        final(calls)@ == old(calls)@ + spec_process_calls(batches@).subrange(
            from as int,
            batches@.len() as int,
        ),
{
    let mut i: usize = from;
    assert(spec_process_calls(batches@).subrange(from as int, from as int) =~= Seq::empty());
    while i < batches.len()
        invariant
            from <= i <= batches@.len(),
            calls@ == old(calls)@ + spec_process_calls(batches@).subrange(from as int, i as int),
        decreases batches@.len() - i,
    {
        calls.push(ReplayCall::Process { slot_start: batches[i].0, slot_end: batches[i].1 });
        assert(calls@ =~= old(calls)@ + spec_process_calls(batches@).subrange(
            from as int,
            i + 1,
        ));
        i += 1;
    }
}

/// Plans what is done before the updates are fetched: a replay under way is
/// finished first, from the checkpoint to its last header.
pub fn resume(replay_back: Option<ReplayBack>, checkpoint_slot: u64, size_batch: u64) -> (plan:
    Result<Resume, SlotsError>)
    ensures
        plan matches Ok(resumed) ==> spec_resume(replay_back, checkpoint_slot, size_batch) == Ok::<
            (Seq<ReplayCall>, u64),
            SlotsError,
        >((resumed.calls@, resumed.slot_start)) && resumed.period_start == 1 + spec_period(
            resumed.slot_start,
        ),
        plan matches Err(error) ==> spec_resume(replay_back, checkpoint_slot, size_batch) == Err::<
            (Seq<ReplayCall>, u64),
            SlotsError,
        >(error),
{
    let mut calls: Vec<ReplayCall> = Vec::new();
    let mut slot_start = checkpoint_slot;
    match replay_back {
        Some(replay) => {
            let batches = match slots_batches(slot_start, replay.last_header, size_batch) {
                Some(batches) => batches,
                None => {
                    return Err(SlotsError { slot_start, slot_end: replay.last_header });
                },
            };
            push_process_calls(&mut calls, &batches, 0);
            assert(calls@ =~= spec_process_calls(batches@));
            slot_start = replay.finalized_header;
        },
        None => {},
    }
    Ok(Resume { calls, slot_start, period_start: 1 + calculate_period(slot_start) })
}

/// The calls that replay the updates from number `from` on, the first of
/// them from `slot_start`, and then the update that the replay is for, whose
/// finalized header has the slot `slot_last`. An update that ends at
/// `slot_last` is the update that the replay is for, and ends the plan.
pub open spec fn spec_plan(
    update_slots: Seq<u64>,
    from: int,
    slot_start: u64,
    slot_last: u64,
    size_batch: u64,
) -> Result<Seq<ReplayCall>, SlotsError>
    decreases update_slots.len() - from,
{
    if from < 0 || from >= update_slots.len() {
        if batches_exist(slot_start, slot_last, size_batch) {
            Ok(spec_last_calls(slot_start, slot_last, size_batch))
        } else {
            Err(SlotsError { slot_start, slot_end: slot_last })
        }
    } else {
        let slot_end = update_slots[from];
        if batches_exist(slot_start, slot_end, size_batch) {
            let calls = spec_update_calls(from as usize, slot_start, slot_end, size_batch);
            if slot_end == slot_last {
                Ok(calls)
            } else {
                match spec_plan(update_slots, from + 1, slot_end, slot_last, size_batch) {
                    Ok(rest) => Ok(calls + rest),
                    Err(error) => Err(error),
                }
            }
        } else {
            Err(SlotsError { slot_start, slot_end })
        }
    }
}

/// The calls that replay one update: the headers from `slot_start` up to
/// the slot of the update's finalized header, the first batch with the
/// update.
pub open spec fn spec_update_calls(update: usize, slot_start: u64, slot_end: u64, size_batch: u64)
    -> Seq<ReplayCall> {
    let batches = spec_batches(slot_start, slot_end, size_batch);
    spec_calls(
        batches,
        ReplayCall::Start { update, slot_start: batches[0].0, slot_end: batches[0].1 },
    )
}

/// The calls that replay the update that the replay is for.
pub open spec fn spec_last_calls(slot_start: u64, slot_last: u64, size_batch: u64) -> Seq<
    ReplayCall,
> {
    let batches = spec_batches(slot_start, slot_last, size_batch);
    spec_calls(batches, ReplayCall::StartLast { slot_start: batches[0].0, slot_end: batches[0].1 })
}

/// Where the planning of a replay stands: the calls are planned update by
/// update, each when its turn has come, so that a range that cannot be cut
/// into batches stops the replay only after the updates before it were
/// replayed.
#[derive(Clone, Copy, Debug, PartialEq, Eq, Structural)]
pub struct ReplayPlan {
    /// Slot from which the next update is replayed.
    pub slot_start: u64,
    /// Slot of the finalized header of the update that the replay is for.
    pub slot_last: u64,
    /// Greatest number of slots in a batch.
    pub size_batch: u64,
    /// An update that ends at `slot_last` was replayed: nothing is left.
    pub finished: bool,
}

impl ReplayPlan {
    /// A plan that starts at `slot_start`.
    pub fn new(slot_start: u64, slot_last: u64, size_batch: u64) -> (plan: ReplayPlan)
        ensures
            plan == (ReplayPlan { slot_start, slot_last, size_batch, finished: false }),
    {
        ReplayPlan { slot_start, slot_last, size_batch, finished: false }
    }

    /// Plans the calls that replay update number `update`, whose finalized
    /// header has the slot `slot_end`. The next update is replayed from that
    /// slot; an update that ends at the last slot ends the plan. A range that
    /// cannot be cut into batches leaves the plan as it is.
    pub fn update(&mut self, update: usize, slot_end: u64) -> (calls: Result<
        Vec<ReplayCall>,
        SlotsError,
    >)
        ensures
            calls is Ok <==> batches_exist(old(self).slot_start, slot_end, old(self).size_batch),
            calls matches Ok(list) ==> list@ == spec_update_calls(
                update,
                old(self).slot_start,
                slot_end,
                old(self).size_batch,
            ) && *final(self) == (ReplayPlan {
                slot_start: slot_end,
                finished: slot_end == old(self).slot_last,
                ..*old(self)
            }),
            calls matches Err(error) ==> error == (SlotsError {
                slot_start: old(self).slot_start,
                slot_end,
            }) && *final(self) == *old(self),
    {
        let batches = match slots_batches(self.slot_start, slot_end, self.size_batch) {
            Some(batches) => batches,
            None => {
                return Err(SlotsError { slot_start: self.slot_start, slot_end });
            },
        };
        proof {
            lemma_batches_not_empty(self.slot_start, slot_end, self.size_batch);
        }
        let mut list: Vec<ReplayCall> = Vec::new();
        list.push(ReplayCall::Start { update, slot_start: batches[0].0, slot_end: batches[0].1 });
        push_process_calls(&mut list, &batches, 1);
        assert(list@ =~= spec_update_calls(update, self.slot_start, slot_end, self.size_batch));
        self.finished = slot_end == self.slot_last;
        self.slot_start = slot_end;
        Ok(list)
    }

    /// Plans the calls that replay the update that the replay is for, once no
    /// fetched update is left.
    pub fn finish(&self) -> (calls: Result<Vec<ReplayCall>, SlotsError>)
        ensures
            calls is Ok <==> batches_exist(self.slot_start, self.slot_last, self.size_batch),
            calls matches Ok(list) ==> list@ == spec_last_calls(
                self.slot_start,
                self.slot_last,
                self.size_batch,
            ),
            calls matches Err(error) ==> error == (SlotsError {
                slot_start: self.slot_start,
                slot_end: self.slot_last,
            }),
    {
        let batches = match slots_batches(self.slot_start, self.slot_last, self.size_batch) {
            Some(batches) => batches,
            None => {
                return Err(SlotsError { slot_start: self.slot_start, slot_end: self.slot_last });
            },
        };
        proof {
            lemma_batches_not_empty(self.slot_start, self.slot_last, self.size_batch);
        }
        let mut list: Vec<ReplayCall> = Vec::new();
        list.push(ReplayCall::StartLast { slot_start: batches[0].0, slot_end: batches[0].1 });
        push_process_calls(&mut list, &batches, 1);
        assert(list@ =~= spec_last_calls(self.slot_start, self.slot_last, self.size_batch));
        Ok(list)
    }
}

/// Puts every call of `tail` behind `calls`.
fn append_calls(calls: &mut Vec<ReplayCall>, tail: &Vec<ReplayCall>)
    ensures
        final(calls)@ == old(calls)@ + tail@,
{
    let mut i: usize = 0;
    while i < tail.len()
        invariant
            i <= tail@.len(),
            calls@ == old(calls)@ + tail@.subrange(0, i as int),
        decreases tail@.len() - i,
    {
        calls.push(tail[i]);
        assert(calls@ =~= old(calls)@ + tail@.subrange(0, i + 1));
        i += 1;
    }
    assert(tail@.subrange(0, tail@.len() as int) =~= tail@);
}

/// Plans all the calls of a replay once the updates are fetched: the plan
/// taken update by update, to its end. `update_slots` holds the slot of the
/// finalized header of every update, in order.
pub fn execute(update_slots: &Vec<u64>, slot_start: u64, slot_last: u64, size_batch: u64) -> (plan:
    Result<Vec<ReplayCall>, SlotsError>)
    ensures
        plan matches Ok(calls) ==> spec_plan(update_slots@, 0, slot_start, slot_last, size_batch)
            == Ok::<Seq<ReplayCall>, SlotsError>(calls@),
        plan matches Err(error) ==> spec_plan(update_slots@, 0, slot_start, slot_last, size_batch)
            == Err::<Seq<ReplayCall>, SlotsError>(error),
{
    let mut calls: Vec<ReplayCall> = Vec::new();
    let mut steps = ReplayPlan::new(slot_start, slot_last, size_batch);
    let mut i: usize = 0;
    while i < update_slots.len()
        invariant
            i <= update_slots@.len(),
            steps.slot_last == slot_last,
            steps.size_batch == size_batch,
            spec_plan(update_slots@, 0, slot_start, slot_last, size_batch) == (match spec_plan(
                update_slots@,
                i as int,
                steps.slot_start,
                slot_last,
                size_batch,
            ) {
                Ok(rest) => Ok::<Seq<ReplayCall>, SlotsError>(calls@ + rest),
                Err(error) => Err(error),
            }),
        decreases update_slots@.len() - i,
    {
        let ghost before = calls@;
        let ghost start = steps.slot_start;
        let slot_end = update_slots[i];
        let step = match steps.update(i, slot_end) {
            Ok(step) => step,
            Err(error) => {
                return Err(error);
            },
        };
        append_calls(&mut calls, &step);
        if steps.finished {
            return Ok(calls);
        }
        proof {
            let rest = spec_plan(update_slots@, i + 1, slot_end, slot_last, size_batch);
            if rest is Ok {
                assert(before + (step@ + rest.unwrap()) =~= calls@ + rest.unwrap());
            }
        }
        i += 1;
    }
    let last = match steps.finish() {
        Ok(last) => last,
        Err(error) => {
            return Err(error);
        },
    };
    append_calls(&mut calls, &last);
    Ok(calls)
}

/// A range of slots that can be cut into batches gives at least one batch.
pub proof fn lemma_batches_not_empty(slot_start: u64, slot_end: u64, size_batch: u64)
    requires
        batches_exist(slot_start, slot_end, size_batch),
    ensures
        spec_batches(slot_start, slot_end, size_batch).len() > 0,
        spec_batches(slot_start, slot_end, size_batch)[0].0 == slot_start,
{
}

} // verus!
