//! Replaying headers back from a queued update to the finalized header.
//!
//! A replay starts from an update and takes headers in batches, newest
//! first. Every header must be the parent of the one before it, and its slot
//! must lie below the slot of the one before it and above the slot of the
//! finalized header. The replay ends when the parent that is asked for is the
//! finalized header: the headers that were replayed are remembered, and the
//! update is taken up as any update is.

use vstd::prelude::*;
use crate::beacon::{calculate_period, hashes_equal, spec_period, BeaconBlockHeader};
use crate::light_client::checkpoints::{spec_evict, spec_put};
use crate::light_client::{spec_take, ClientView, LightClient, Mode, SyncUpdate};

verus! {

/// Why a replay did not go on.
#[derive(Clone, Copy, Debug, PartialEq, Eq, Structural)]
pub enum ReplayBackError {
    /// No replay has been started.
    NotStarted,
    /// A replay is under way already.
    AlreadyStarted,
    /// A header is not the parent asked for, or its slot is out of order.
    HeaderChainBroken,
    /// A batch holds no header.
    BatchEmpty,
}

/// How far a replay has come.
#[derive(Clone, Copy, Debug, PartialEq, Eq, Structural)]
pub enum ReplayBackStatus {
    /// More headers are needed.
    InProcess,
    /// The finalized header was reached.
    Finished,
}

/// Where a walk along a chain of headers stands.
pub struct Walk {
    /// A header did not fit.
    pub broken: bool,
    /// The finalized header was reached.
    pub reached: bool,
    /// Root that the next header must have.
    pub expected: [u8; 32],
    /// Slot that the next header must lie below.
    pub last_slot: u64,
    /// Slot and root of every header taken, in the order in which they came.
    pub recorded: Seq<(u64, Seq<u8>)>,
}

/// Whether `header` is the one that a walk asks for: it has the root asked
/// for, and its slot lies below the last one and above the bound.
pub open spec fn header_fits(header: BeaconBlockHeader, walk: Walk, lower_bound: u64) -> bool {
    &&& header.spec_tree_hash_root() == walk.expected@
    &&& lower_bound < header.slot < walk.last_slot
}

/// The walk after `header` was taken.
pub open spec fn walk_step(header: BeaconBlockHeader, walk: Walk) -> Walk {
    Walk {
        expected: header.parent_root,
        last_slot: header.slot,
        recorded: walk.recorded.push((header.slot, header.spec_tree_hash_root())),
        ..walk
    }
}

/// Where a walk stands after the headers from number `from` on: it stops as
/// reached as soon as the root asked for is the finalized root, and as broken
/// at the first header that does not fit.
pub open spec fn spec_walk(
    headers: Seq<BeaconBlockHeader>,
    from: int,
    walk: Walk,
    lower_bound: u64,
    finalized_root: Seq<u8>,
) -> Walk
    decreases headers.len() - from,
{
    if walk.expected@ == finalized_root {
        Walk { reached: true, ..walk }
    } else if from < 0 || from >= headers.len() {
        walk
    } else if header_fits(headers[from], walk, lower_bound) {
        spec_walk(headers, from + 1, walk_step(headers[from], walk), lower_bound, finalized_root)
    } else {
        Walk { broken: true, ..walk }
    }
}

/// Walking along two batches one after the other is walking along both at
/// once: a replay reaches the finalized header exactly when the whole
/// sequence of headers that was handed in leads to it without a gap.
pub proof fn lemma_walk_batches(
    first: Seq<BeaconBlockHeader>,
    second: Seq<BeaconBlockHeader>,
    from: int,
    walk: Walk,
    lower_bound: u64,
    finalized_root: Seq<u8>,
)
    requires
        0 <= from <= first.len(),
        !walk.broken,
        !walk.reached,
    ensures
        spec_walk(first + second, from, walk, lower_bound, finalized_root) == ({
            let middle = spec_walk(first, from, walk, lower_bound, finalized_root);
            if middle.broken || middle.reached {
                middle
            } else {
                spec_walk(second, 0, middle, lower_bound, finalized_root)
            }
        }),
    decreases first.len() - from,
{
    let both = first + second;
    if walk.expected@ == finalized_root {
    } else if from == first.len() {
        lemma_walk_shift(first, second, 0, walk, lower_bound, finalized_root);
    } else {
        assert(both[from] == first[from]);
        if header_fits(first[from], walk, lower_bound) {
            lemma_walk_batches(
                first,
                second,
                from + 1,
                walk_step(first[from], walk),
                lower_bound,
                finalized_root,
            );
        }
    }
}

/// A walk along the second of two batches does not depend on the first.
pub proof fn lemma_walk_shift(
    first: Seq<BeaconBlockHeader>,
    second: Seq<BeaconBlockHeader>,
    from: int,
    walk: Walk,
    lower_bound: u64,
    finalized_root: Seq<u8>,
)
    requires
        0 <= from <= second.len(),
    ensures
        spec_walk(first + second, first.len() + from, walk, lower_bound, finalized_root)
            == spec_walk(second, from, walk, lower_bound, finalized_root),
    decreases second.len() - from,
{
    let both = first + second;
    if walk.expected@ == finalized_root {
    } else if from == second.len() {
    } else {
        assert(both[first.len() + from] == second[from]);
        if header_fits(second[from], walk, lower_bound) {
            lemma_walk_shift(
                first,
                second,
                from + 1,
                walk_step(second[from], walk),
                lower_bound,
                finalized_root,
            );
        }
    }
}

/// The headers remembered after those of `recorded` were put in, one after
/// another.
pub open spec fn spec_record(
    checkpoints: Seq<(u64, Seq<u8>)>,
    recorded: Seq<(u64, Seq<u8>)>,
    capacity: nat,
) -> Seq<(u64, Seq<u8>)>
    decreases recorded.len(),
{
    if recorded.len() == 0 {
        checkpoints
    } else {
        spec_evict(
            spec_put(
                spec_record(checkpoints, recorded.drop_last(), capacity),
                recorded.last().0,
                recorded.last().1,
            ),
            capacity,
        )
    }
}

/// What a walk does to the client. A broken walk leaves the client as it is.
/// A walk that has reached the finalized header ends the replay: the headers
/// are remembered and the queued update is taken up; whether the update is
/// taken does not change the answer. Any other walk leaves the replay under
/// way.
pub open spec fn spec_after_walk(view: ClientView, queued: SyncUpdate, walk: Walk, lower_bound: u64)
    -> (ClientView, Result<ReplayBackStatus, ReplayBackError>) {
    let checkpoints = spec_record(view.checkpoints, walk.recorded, view.capacity);
    if walk.broken {
        (view, Err(ReplayBackError::HeaderChainBroken))
    } else if walk.reached {
        (
            spec_take(ClientView { mode: Mode::Operational, checkpoints, ..view }, queued).0,
            Ok(ReplayBackStatus::Finished),
        )
    } else {
        (
            ClientView {
                mode: Mode::ReplayingBack {
                    expected_parent_root: walk.expected,
                    remaining_slot_lower_bound: lower_bound,
                    last_slot: walk.last_slot,
                    queued_sync_update: queued,
                },
                checkpoints,
                ..view
            },
            Ok(ReplayBackStatus::InProcess),
        )
    }
}

/// The walk that a replay from `update` starts with.
pub open spec fn first_walk(header: BeaconBlockHeader) -> Walk {
    Walk {
        broken: false,
        reached: false,
        expected: header.parent_root,
        last_slot: header.slot,
        recorded: Seq::empty(),
    }
}

/// What `start` does: the client afterwards, and the answer.
pub open spec fn spec_start(
    view: ClientView,
    sync_update: SyncUpdate,
    headers: Seq<BeaconBlockHeader>,
) -> (ClientView, Result<ReplayBackStatus, ReplayBackError>) {
    if !(view.mode is Bootstrapped || view.mode is Operational) {
        (view, Err(ReplayBackError::AlreadyStarted))
    } else if headers.len() == 0 {
        (
            ClientView {
                mode: Mode::AwaitingReplayBack {
                    target_header: sync_update.attested_header,
                    target_period: spec_period(sync_update.signature_slot),
                    queued_sync_update: sync_update,
                },
                ..view
            },
            Ok(ReplayBackStatus::InProcess),
        )
    } else {
        spec_after_walk(
            view,
            sync_update,
            spec_walk(
                headers,
                0,
                first_walk(sync_update.attested_header),
                view.finalized_header.slot,
                view.finalized_header.spec_tree_hash_root(),
            ),
            view.finalized_header.slot,
        )
    }
}

/// What `process` does: the client afterwards, and the answer.
pub open spec fn spec_process(view: ClientView, headers: Seq<BeaconBlockHeader>) -> (
    ClientView,
    Result<ReplayBackStatus, ReplayBackError>,
) {
    match view.mode {
        Mode::AwaitingReplayBack { target_header, queued_sync_update, .. } => if headers.len()
            == 0 {
            (view, Err(ReplayBackError::BatchEmpty))
        } else {
            spec_after_walk(
                view,
                queued_sync_update,
                spec_walk(
                    headers,
                    0,
                    first_walk(target_header),
                    view.finalized_header.slot,
                    view.finalized_header.spec_tree_hash_root(),
                ),
                view.finalized_header.slot,
            )
        },
        Mode::ReplayingBack {
            expected_parent_root,
            remaining_slot_lower_bound,
            last_slot,
            queued_sync_update,
        } => if headers.len() == 0 {
            (view, Err(ReplayBackError::BatchEmpty))
        } else {
            spec_after_walk(
                view,
                queued_sync_update,
                spec_walk(
                    headers,
                    0,
                    Walk {
                        broken: false,
                        reached: false,
                        expected: expected_parent_root,
                        last_slot,
                        recorded: Seq::empty(),
                    },
                    remaining_slot_lower_bound,
                    view.finalized_header.spec_tree_hash_root(),
                ),
                remaining_slot_lower_bound,
            )
        },
        _ => (view, Err(ReplayBackError::NotStarted)),
    }
}

/// A replay is finite: a walk takes no more headers than there are slots
/// between the bound and the slot that it started below.
pub proof fn lemma_walk_bounded(
    headers: Seq<BeaconBlockHeader>,
    from: int,
    walk: Walk,
    lower_bound: u64,
    finalized_root: Seq<u8>,
)
    ensures
        spec_walk(headers, from, walk, lower_bound, finalized_root).recorded.len()
            == walk.recorded.len() || spec_walk(
            headers,
            from,
            walk,
            lower_bound,
            finalized_root,
        ).recorded.len() - walk.recorded.len() < walk.last_slot - lower_bound,
    decreases headers.len() - from,
{
    if walk.expected@ == finalized_root {
    } else if from < 0 || from >= headers.len() {
    } else if header_fits(headers[from], walk, lower_bound) {
        lemma_walk_bounded(
            headers,
            from + 1,
            walk_step(headers[from], walk),
            lower_bound,
            finalized_root,
        );
    }
}

/// A walk does not look at what it has recorded: headers recorded before
/// stay in front of what the walk records.
pub proof fn lemma_walk_prefix(
    headers: Seq<BeaconBlockHeader>,
    from: int,
    walk: Walk,
    prefix: Seq<(u64, Seq<u8>)>,
    lower_bound: u64,
    finalized_root: Seq<u8>,
)
    ensures
        spec_walk(
            headers,
            from,
            Walk { recorded: prefix + walk.recorded, ..walk },
            lower_bound,
            finalized_root,
        ) == (Walk {
            recorded: prefix + spec_walk(headers, from, walk, lower_bound, finalized_root).recorded,
            ..spec_walk(headers, from, walk, lower_bound, finalized_root)
        }),
    decreases headers.len() - from,
{
    let longer = Walk { recorded: prefix + walk.recorded, ..walk };
    if walk.expected@ == finalized_root {
    } else if from < 0 || from >= headers.len() {
    } else if header_fits(headers[from], walk, lower_bound) {
        let header = headers[from];
        assert(walk_step(header, longer).recorded =~= prefix + walk_step(header, walk).recorded);
        lemma_walk_prefix(
            headers,
            from + 1,
            walk_step(header, walk),
            prefix,
            lower_bound,
            finalized_root,
        );
    }
}

/// Remembering two lists of headers one after the other is remembering both
/// at once.
pub proof fn lemma_record_concat(
    checkpoints: Seq<(u64, Seq<u8>)>,
    first: Seq<(u64, Seq<u8>)>,
    second: Seq<(u64, Seq<u8>)>,
    capacity: nat,
)
    ensures
        spec_record(checkpoints, first + second, capacity) == spec_record(
            spec_record(checkpoints, first, capacity),
            second,
            capacity,
        ),
    decreases second.len(),
{
    if second.len() == 0 {
        assert(first + second =~= first);
    } else {
        lemma_record_concat(checkpoints, first, second.drop_last(), capacity);
        assert((first + second).drop_last() =~= first + second.drop_last());
    }
}

/// A replay in two batches answers as a replay in one: `start` with a first
/// batch that leaves the replay under way, followed by `process` with a
/// second batch, gives the answer that `start` gives with both batches at
/// once, and unless the chain is broken it leaves the same client. So a
/// replay finishes exactly when the headers handed in, taken together, lead
/// from the queued update to the finalized header without a gap.
pub proof fn lemma_start_then_process(
    view: ClientView,
    sync_update: SyncUpdate,
    first: Seq<BeaconBlockHeader>,
    second: Seq<BeaconBlockHeader>,
)
    requires
        view.mode is Bootstrapped || view.mode is Operational,
        first.len() > 0,
        second.len() > 0,
        spec_start(view, sync_update, first).1 == Ok::<ReplayBackStatus, ReplayBackError>(
            ReplayBackStatus::InProcess,
        ),
    ensures
        spec_process(spec_start(view, sync_update, first).0, second).1 == spec_start(
            view,
            sync_update,
            first + second,
        ).1,
        spec_start(view, sync_update, first + second).1 is Ok ==> spec_process(
            spec_start(view, sync_update, first).0,
            second,
        ).0 == spec_start(view, sync_update, first + second).0,
{
    let lower_bound = view.finalized_header.slot;
    let root = view.finalized_header.spec_tree_hash_root();
    let start_walk = first_walk(sync_update.attested_header);
    let middle = spec_walk(first, 0, start_walk, lower_bound, root);
    let after_start = spec_start(view, sync_update, first).0;
    let fresh = Walk { recorded: Seq::empty(), ..middle };
    lemma_walk_batches(first, second, 0, start_walk, lower_bound, root);
    assert(middle.recorded =~= middle.recorded + fresh.recorded);
    lemma_walk_prefix(second, 0, fresh, middle.recorded, lower_bound, root);
    let tail = spec_walk(second, 0, fresh, lower_bound, root);
    let whole = spec_walk(first + second, 0, start_walk, lower_bound, root);
    assert(whole == Walk { recorded: middle.recorded + tail.recorded, ..tail });
    lemma_record_concat(view.checkpoints, middle.recorded, tail.recorded, view.capacity);
}

/// The headers of the first `count` batches, one batch after another.
pub open spec fn spec_joined(batches: Seq<Seq<BeaconBlockHeader>>, count: int) -> Seq<
    BeaconBlockHeader,
>
    decreases count,
{
    if count <= 0 {
        Seq::empty()
    } else {
        spec_joined(batches, count - 1) + batches[count - 1]
    }
}

/// What a replay in `count` batches gives: `start` with the first batch, then
/// `process` with one batch after another for as long as the answer is that
/// the replay is under way.
pub open spec fn spec_replay(
    view: ClientView,
    sync_update: SyncUpdate,
    batches: Seq<Seq<BeaconBlockHeader>>,
    count: int,
) -> (ClientView, Result<ReplayBackStatus, ReplayBackError>)
    decreases count,
{
    if count <= 1 {
        spec_start(view, sync_update, batches[0])
    } else {
        let before = spec_replay(view, sync_update, batches, count - 1);
        if before.1 == Ok::<ReplayBackStatus, ReplayBackError>(ReplayBackStatus::InProcess) {
            spec_process(before.0, batches[count - 1])
        } else {
            before
        }
    }
}

/// Batches that hold headers join to a list that holds headers.
pub proof fn lemma_joined_not_empty(batches: Seq<Seq<BeaconBlockHeader>>, count: int)
    requires
        1 <= count <= batches.len(),
        forall|k: int| 0 <= k < count ==> (#[trigger] batches[k]).len() > 0,
    ensures
        spec_joined(batches, count).len() > 0,
    decreases count,
{
    if count > 1 {
        lemma_joined_not_empty(batches, count - 1);
    }
}

/// A replay answers the same in any number of batches: `start` with the first
/// batch followed by `process` with every further one gives the answer that
/// `start` gives with all the headers at once, and unless the chain is broken
/// it leaves the same client. So a replay succeeds exactly when the headers
/// handed in, taken together, lead from the queued update to the finalized
/// header without a gap.
pub proof fn lemma_replay_in_batches(
    view: ClientView,
    sync_update: SyncUpdate,
    batches: Seq<Seq<BeaconBlockHeader>>,
    count: int,
)
    requires
        view.mode is Bootstrapped || view.mode is Operational,
        1 <= count <= batches.len(),
        forall|k: int| 0 <= k < count ==> (#[trigger] batches[k]).len() > 0,
    ensures
        spec_replay(view, sync_update, batches, count).1 == spec_start(
            view,
            sync_update,
            spec_joined(batches, count),
        ).1,
        spec_replay(view, sync_update, batches, count).1 is Ok ==> spec_replay(
            view,
            sync_update,
            batches,
            count,
        ).0 == spec_start(view, sync_update, spec_joined(batches, count)).0,
    decreases count,
{
    if count == 1 {
        assert(spec_joined(batches, 0) =~= Seq::empty());
        assert(spec_joined(batches, 1) =~= batches[0]);
    } else {
        lemma_replay_in_batches(view, sync_update, batches, count - 1);
        lemma_joined_not_empty(batches, count - 1);
        let first = spec_joined(batches, count - 1);
        let second = batches[count - 1];
        let before = spec_replay(view, sync_update, batches, count - 1);
        if before.1 == Ok::<ReplayBackStatus, ReplayBackError>(ReplayBackStatus::InProcess) {
            lemma_start_then_process(view, sync_update, first, second);
        } else {
            lemma_walk_batches(
                first,
                second,
                0,
                first_walk(sync_update.attested_header),
                view.finalized_header.slot,
                view.finalized_header.spec_tree_hash_root(),
            );
        }
    }
}

/// After a replay has finished the client takes updates again: it is
/// operational, and `process` answers as it does for a client that has never
/// replayed.
pub proof fn lemma_finished_client_takes_updates(
    view: ClientView,
    headers: Seq<BeaconBlockHeader>,
    update: SyncUpdate,
)
    requires
        spec_process(view, headers).1 == Ok::<ReplayBackStatus, ReplayBackError>(
            ReplayBackStatus::Finished,
        ),
    ensures
        spec_process(view, headers).0.mode is Operational,
        crate::light_client::spec_process(spec_process(view, headers).0, update) == spec_take(
            spec_process(view, headers).0,
            update,
        ),
{
}

/// The same for a replay that finishes with its first batch.
pub proof fn lemma_started_client_takes_updates(
    view: ClientView,
    sync_update: SyncUpdate,
    headers: Seq<BeaconBlockHeader>,
    update: SyncUpdate,
)
    requires
        spec_start(view, sync_update, headers).1 == Ok::<ReplayBackStatus, ReplayBackError>(
            ReplayBackStatus::Finished,
        ),
    ensures
        spec_start(view, sync_update, headers).0.mode is Operational,
        crate::light_client::spec_process(spec_start(view, sync_update, headers).0, update)
            == spec_take(spec_start(view, sync_update, headers).0, update),
{
}

/// What an exec walk has found.
pub struct WalkResult {
    pub broken: bool,
    pub reached: bool,
    pub expected: [u8; 32],
    pub last_slot: u64,
    pub recorded: Vec<(u64, [u8; 32])>,
}

/// The slots and roots of a list of headers taken, as plain values.
pub open spec fn recorded_view(recorded: Seq<(u64, [u8; 32])>) -> Seq<(u64, Seq<u8>)> {
    Seq::new(recorded.len(), |i: int| (recorded[i].0, recorded[i].1@))
}

impl WalkResult {
    /// The walk as a plain value.
    pub open spec fn view(&self) -> Walk {
        Walk {
            broken: self.broken,
            reached: self.reached,
            expected: self.expected,
            last_slot: self.last_slot,
            recorded: recorded_view(self.recorded@),
        }
    }
}

/// Walks along a batch of headers.
pub fn walk_headers(
    headers: &Vec<BeaconBlockHeader>,
    expected: [u8; 32],
    last_slot: u64,
    lower_bound: u64,
    finalized_root: &[u8; 32],
) -> (result: WalkResult)
    ensures
        result@ == spec_walk(
            headers@,
            0,
            Walk { broken: false, reached: false, expected, last_slot, recorded: Seq::empty() },
            lower_bound,
            finalized_root@,
        ),
{
    let mut result = WalkResult {
        broken: false,
        reached: false,
        expected,
        last_slot,
        recorded: Vec::new(),
    };
    let ghost start = Walk {
        broken: false,
        reached: false,
        expected,
        last_slot,
        recorded: Seq::empty(),
    };
    assert(result@.recorded =~= start.recorded);
    let mut i: usize = 0;
    loop
        invariant_except_break
            i <= headers@.len(),
            !result.broken && !result.reached,
            spec_walk(headers@, 0, start, lower_bound, finalized_root@) == spec_walk(
                headers@,
                i as int,
                result@,
                lower_bound,
                finalized_root@,
            ),
        ensures
            result@ == spec_walk(headers@, 0, start, lower_bound, finalized_root@),
        decreases headers@.len() - i,
    {
        if hashes_equal(&result.expected, finalized_root) {
            result.reached = true;
            break ;
        }
        if i >= headers.len() {
            break ;
        }
        let header = &headers[i];
        let root = header.tree_hash_root();
        if !(hashes_equal(&root, &result.expected) && lower_bound < header.slot && header.slot
            < result.last_slot) {
            result.broken = true;
            break ;
        }
        let ghost before = result@;
        result.recorded.push((header.slot, root));
        result.expected = header.parent_root;
        result.last_slot = header.slot;
        assert(result@.recorded =~= walk_step(*header, before).recorded);
        i += 1;
    }
    result
}

impl LightClient {
    /// Remembers the headers that a walk has taken.
    fn record(&mut self, recorded: &Vec<(u64, [u8; 32])>)
        requires
            old(self).well_formed(),
        ensures
            final(self).well_formed(),
            final(self)@ == (ClientView {
                checkpoints: spec_record(
                    old(self)@.checkpoints,
                    recorded_view(recorded@),
                    old(self)@.capacity,
                ),
                ..old(self)@
            }),
    {
        let mut i: usize = 0;
        assert(recorded_view(recorded@).subrange(0, 0) =~= Seq::empty());
        while i < recorded.len()
            invariant
                i <= recorded@.len(),
                self.well_formed(),
                self@ == (ClientView {
                    checkpoints: spec_record(
                        old(self)@.checkpoints,
                        recorded_view(recorded@).subrange(0, i as int),
                        old(self)@.capacity,
                    ),
                    ..old(self)@
                }),
            decreases recorded@.len() - i,
        {
            let ghost part = recorded_view(recorded@).subrange(0, i + 1);
            assert(part.drop_last() =~= recorded_view(recorded@).subrange(0, i as int));
            assert(part.last() == (recorded@[i as int].0, recorded@[i as int].1@));
            self.checkpoints.insert(recorded[i].0, recorded[i].1);
            i += 1;
        }
        assert(recorded_view(recorded@).subrange(0, recorded@.len() as int) =~= recorded_view(
            recorded@,
        ));
    }

    /// Brings the client to where a walk has led.
    fn after_walk(&mut self, queued: SyncUpdate, walk: WalkResult, lower_bound: u64) -> (answer:
        Result<ReplayBackStatus, ReplayBackError>)
        requires
            old(self).well_formed(),
        ensures
            final(self).well_formed(),
            (final(self)@, answer) == spec_after_walk(old(self)@, queued, walk@, lower_bound),
    {
        if walk.broken {
            return Err(ReplayBackError::HeaderChainBroken);
        }
        self.record(&walk.recorded);
        if walk.reached {
            self.mode = Mode::Operational;
            let _ = self.take(&queued);
            Ok(ReplayBackStatus::Finished)
        } else {
            self.mode = Mode::ReplayingBack {
                expected_parent_root: walk.expected,
                remaining_slot_lower_bound: lower_bound,
                last_slot: walk.last_slot,
                queued_sync_update: queued,
            };
            Ok(ReplayBackStatus::InProcess)
        }
    }
}

/// Starts a replay from `sync_update` with a first batch of headers, newest
/// first. A replay can be started only while none is under way.
pub fn start(client: &mut LightClient, sync_update: SyncUpdate, headers: &Vec<BeaconBlockHeader>)
    -> (answer: Result<ReplayBackStatus, ReplayBackError>)
    requires
        old(client).well_formed(),
    ensures
        final(client).well_formed(),
        (final(client)@, answer) == spec_start(old(client)@, sync_update, headers@),
{
    match &client.mode {
        Mode::Bootstrapped | Mode::Operational => {},
        _ => {
            return Err(ReplayBackError::AlreadyStarted);
        },
    }
    if headers.len() == 0 {
        client.mode = Mode::AwaitingReplayBack {
            target_header: sync_update.attested_header,
            target_period: calculate_period(sync_update.signature_slot),
            queued_sync_update: sync_update,
        };
        return Ok(ReplayBackStatus::InProcess);
    }
    let finalized_root = client.finalized_header.tree_hash_root();
    let lower_bound = client.finalized_header.slot;
    let walk = walk_headers(
        headers,
        sync_update.attested_header.parent_root,
        sync_update.attested_header.slot,
        lower_bound,
        &finalized_root,
    );
    client.after_walk(sync_update, walk, lower_bound)
}

/// Goes on with a replay: takes the next batch of headers, newest first.
pub fn process(client: &mut LightClient, headers: &Vec<BeaconBlockHeader>) -> (answer: Result<
    ReplayBackStatus,
    ReplayBackError,
>)
    requires
        old(client).well_formed(),
    ensures
        final(client).well_formed(),
        (final(client)@, answer) == spec_process(old(client)@, headers@),
{
    match &client.mode {
        Mode::AwaitingReplayBack { .. } | Mode::ReplayingBack { .. } => {},
        _ => {
            return Err(ReplayBackError::NotStarted);
        },
    }
    if headers.len() == 0 {
        return Err(ReplayBackError::BatchEmpty);
    }
    let finalized_root = client.finalized_header.tree_hash_root();
    let mut mode = Mode::Operational;
    core::mem::swap(&mut client.mode, &mut mode);
    match mode {
        Mode::AwaitingReplayBack { target_header, target_period, queued_sync_update } => {
            let lower_bound = client.finalized_header.slot;
            let walk = walk_headers(
                headers,
                target_header.parent_root,
                target_header.slot,
                lower_bound,
                &finalized_root,
            );
            if walk.broken {
                client.mode = Mode::AwaitingReplayBack {
                    target_header,
                    target_period,
                    queued_sync_update,
                };
                return Err(ReplayBackError::HeaderChainBroken);
            }
            client.after_walk(queued_sync_update, walk, lower_bound)
        },
        Mode::ReplayingBack {
            expected_parent_root,
            remaining_slot_lower_bound,
            last_slot,
            queued_sync_update,
        } => {
            let walk = walk_headers(
                headers,
                expected_parent_root,
                last_slot,
                remaining_slot_lower_bound,
                &finalized_root,
            );
            if walk.broken {
                client.mode = Mode::ReplayingBack {
                    expected_parent_root,
                    remaining_slot_lower_bound,
                    last_slot,
                    queued_sync_update,
                };
                return Err(ReplayBackError::HeaderChainBroken);
            }
            client.after_walk(queued_sync_update, walk, remaining_slot_lower_bound)
        },
        _ => Err(ReplayBackError::NotStarted),
    }
}

} // verus!
