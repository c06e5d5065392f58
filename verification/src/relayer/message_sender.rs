//! Eras of the message sender.
//!
//! An era is the part of the relayer's work that belongs to one authority
//! set: the messages that wait for a Merkle root, the roots that were
//! relayed, and the transactions that wait to be final on Ethereum. Eras are
//! kept in the order of their set ids. An era is retired once a later one
//! is known and none of its transactions waits any more.

use vstd::prelude::*;

verus! {

/// A message queued on the source chain, with the block that holds it.
#[derive(Clone, Copy, Debug)]
pub struct MessageInBlock {
    /// Nonce of the message, least significant byte first.
    pub nonce_le: [u8; 32],
    /// Number of the block.
    pub block: u32,
    /// Hash of the block.
    pub block_hash: [u8; 32],
}

/// A Merkle root of queued messages that was relayed to Ethereum.
#[derive(Clone, Copy, Debug)]
pub struct RelayedMerkleRoot {
    /// Number of the block whose queue the root commits to.
    pub block: u32,
    /// Hash of that block.
    pub block_hash: [u8; 32],
    /// Id of the authority set that has finalized the block.
    pub authority_set_id: u64,
    pub merkle_root: [u8; 32],
}

/// A message that can be sent, with the root that covers it.
#[derive(Clone, Copy, Debug)]
pub struct Submission {
    pub message: MessageInBlock,
    pub merkle_root: RelayedMerkleRoot,
}

/// Why an era cannot go on yet. Both go away with time.
#[derive(Clone, Copy, Debug, PartialEq, Eq, Structural)]
pub enum EraError {
    /// No root that was relayed covers the message.
    NoMatchingMerkleRoot,
    /// A transaction is not final yet.
    TransactionPending,
}

/// The work of one authority set.
#[derive(Debug)]
pub struct Era {
    pub pending_messages: Vec<MessageInBlock>,
    pub queued_merkle_roots: Vec<RelayedMerkleRoot>,
    /// Hashes of the transactions that are not final yet.
    pub pending_transactions: Vec<[u8; 32]>,
}

/// An era as a plain value.
pub struct EraView {
    pub pending_messages: Seq<MessageInBlock>,
    pub queued_merkle_roots: Seq<RelayedMerkleRoot>,
    pub pending_transactions: Seq<[u8; 32]>,
}

/// Whether a root covers a message: it commits to the queue of the block of
/// the message or of a later one.
pub open spec fn covers(root: RelayedMerkleRoot, message: MessageInBlock) -> bool {
    root.block >= message.block
}

/// The first root that covers `message`, if one does.
pub open spec fn spec_covering_root(roots: Seq<RelayedMerkleRoot>, message: MessageInBlock)
    -> Option<int> {
    if exists|i: int| 0 <= i < roots.len() && covers(roots[i], message) {
        Some(
            choose|i: int|
                0 <= i < roots.len() && covers(roots[i], message) && forall|j: int|
                    0 <= j < i ==> !covers(roots[j], message),
        )
    } else {
        None
    }
}

/// The messages among the first `count` that a root covers, each with the
/// first root that covers it.
pub open spec fn spec_submissions(
    messages: Seq<MessageInBlock>,
    roots: Seq<RelayedMerkleRoot>,
    count: int,
) -> Seq<Submission>
    decreases count,
{
    if count <= 0 {
        Seq::empty()
    } else {
        let before = spec_submissions(messages, roots, count - 1);
        match spec_covering_root(roots, messages[count - 1]) {
            Some(i) => before.push(
                Submission { message: messages[count - 1], merkle_root: roots[i] },
            ),
            None => before,
        }
    }
}

/// The messages among the first `count` that no root covers.
pub open spec fn spec_waiting(
    messages: Seq<MessageInBlock>,
    roots: Seq<RelayedMerkleRoot>,
    count: int,
) -> Seq<MessageInBlock>
    decreases count,
{
    if count <= 0 {
        Seq::empty()
    } else {
        let before = spec_waiting(messages, roots, count - 1);
        match spec_covering_root(roots, messages[count - 1]) {
            Some(i) => before,
            None => before.push(messages[count - 1]),
        }
    }
}

/// The place of the first transaction with the hash `hash`, if there is one.
pub open spec fn spec_first_transaction(transactions: Seq<[u8; 32]>, hash: Seq<u8>) -> Option<int> {
    if exists|i: int| 0 <= i < transactions.len() && transactions[i]@ == hash {
        Some(
            choose|i: int|
                0 <= i < transactions.len() && transactions[i]@ == hash && forall|j: int|
                    0 <= j < i ==> transactions[j]@ != hash,
        )
    } else {
        None
    }
}

/// Whether an era is finalized: a later era is known, and none of its
/// transactions waits.
pub open spec fn spec_finalized(era: EraView, id: u64, latest: u64) -> bool {
    id < latest && era.pending_transactions.len() == 0
}

impl Era {
    /// The era as a plain value.
    pub open spec fn view(&self) -> EraView {
        EraView {
            pending_messages: self.pending_messages@,
            queued_merkle_roots: self.queued_merkle_roots@,
            pending_transactions: self.pending_transactions@,
        }
    }

    /// An era without work.
    pub fn new() -> (era: Era)
        ensures
            era@.pending_messages.len() == 0,
            era@.queued_merkle_roots.len() == 0,
            era@.pending_transactions.len() == 0,
    {
        Era {
            pending_messages: Vec::new(),
            queued_merkle_roots: Vec::new(),
            pending_transactions: Vec::new(),
        }
    }

    /// Puts a message behind those that wait.
    pub fn push_message(&mut self, message: MessageInBlock)
        ensures
            final(self)@ == (EraView {
                pending_messages: old(self)@.pending_messages.push(message),
                ..old(self)@
            }),
    {
        self.pending_messages.push(message);
    }

    /// Puts a root behind those that are known.
    pub fn push_merkle_root(&mut self, merkle_root: RelayedMerkleRoot)
        ensures
            final(self)@ == (EraView {
                queued_merkle_roots: old(self)@.queued_merkle_roots.push(merkle_root),
                ..old(self)@
            }),
    {
        self.queued_merkle_roots.push(merkle_root);
    }

    /// Finds the first root that covers `message`.
    pub fn covering_root(&self, message: &MessageInBlock) -> (found: Result<usize, EraError>)
        ensures
            found matches Ok(i) ==> spec_covering_root(self@.queued_merkle_roots, *message)
                == Some(i as int) && i < self@.queued_merkle_roots.len(),
            found matches Err(error) ==> error == EraError::NoMatchingMerkleRoot
                && spec_covering_root(self@.queued_merkle_roots, *message) is None,
    {
        let mut i: usize = 0;
        while i < self.queued_merkle_roots.len()
            invariant
                i <= self.queued_merkle_roots@.len(),
                forall|j: int| 0 <= j < i ==> !covers(self.queued_merkle_roots@[j], *message),
            decreases self.queued_merkle_roots@.len() - i,
        {
            if self.queued_merkle_roots[i].block >= message.block {
                proof {
                    let roots = self.queued_merkle_roots@;
                    let chosen = choose|c: int|
                        0 <= c < roots.len() && covers(roots[c], *message) && forall|j: int|
                            0 <= j < c ==> !covers(roots[j], *message);
                    assert(chosen == i);
                }
                return Ok(i);
            }
            i += 1;
        }
        Err(EraError::NoMatchingMerkleRoot)
    }

    /// Takes out every message that a root covers, in order, each with the
    /// first root that covers it. The messages that no root covers go on
    /// waiting, in their order.
    pub fn process(&mut self) -> (submissions: Vec<Submission>)
        ensures
            submissions@ == spec_submissions(
                old(self)@.pending_messages,
                old(self)@.queued_merkle_roots,
                old(self)@.pending_messages.len() as int,
            ),
            final(self)@ == (EraView {
                pending_messages: spec_waiting(
                    old(self)@.pending_messages,
                    old(self)@.queued_merkle_roots,
                    old(self)@.pending_messages.len() as int,
                ),
                ..old(self)@
            }),
    {
        let mut submissions: Vec<Submission> = Vec::new();
        let mut waiting: Vec<MessageInBlock> = Vec::new();
        let mut i: usize = 0;
        while i < self.pending_messages.len()
            invariant
                i <= self.pending_messages@.len(),
                *self == *old(self),
                submissions@ == spec_submissions(
                    self@.pending_messages,
                    self@.queued_merkle_roots,
                    i as int,
                ),
                waiting@ == spec_waiting(self@.pending_messages, self@.queued_merkle_roots, i as int),
            decreases self.pending_messages@.len() - i,
        {
            let message = self.pending_messages[i];
            match self.covering_root(&message) {
                Ok(root) => {
                    submissions.push(
                        Submission { message, merkle_root: self.queued_merkle_roots[root] },
                    );
                },
                Err(_) => {
                    waiting.push(message);
                },
            }
            i += 1;
        }
        self.pending_messages = waiting;
        submissions
    }

    /// Notes that a transaction was sent and waits to be final.
    pub fn transaction_sent(&mut self, hash: [u8; 32])
        ensures
            final(self)@ == (EraView {
                pending_transactions: old(self)@.pending_transactions.push(hash),
                ..old(self)@
            }),
    {
        self.pending_transactions.push(hash);
    }

    /// Notes that the transaction at `index` of those that wait is final.
    pub fn transaction_finalized(&mut self, index: usize)
        requires
            index < old(self)@.pending_transactions.len(),
        ensures
            final(self)@ == (EraView {
                pending_transactions: old(self)@.pending_transactions.remove(index as int),
                ..old(self)@
            }),
    {
        self.pending_transactions.remove(index);
    }

    /// Notes that the transaction with the hash `hash` is final: the first
    /// transaction with that hash waits no more. Tells whether one waited.
    pub fn finalize_transaction(&mut self, hash: &[u8; 32]) -> (found: bool)
        ensures
            found == (spec_first_transaction(old(self)@.pending_transactions, hash@) is Some),
            found ==> final(self)@ == (EraView {
                pending_transactions: old(self)@.pending_transactions.remove(
                    spec_first_transaction(old(self)@.pending_transactions, hash@).unwrap(),
                ),
                ..old(self)@
            }),
            !found ==> final(self)@ == old(self)@,
    {
        let mut i: usize = 0;
        while i < self.pending_transactions.len()
            invariant
                i <= self.pending_transactions@.len(),
                *self == *old(self),
                forall|j: int| 0 <= j < i ==> self.pending_transactions@[j]@ != hash@,
            decreases self.pending_transactions@.len() - i,
        {
            if crate::beacon::hashes_equal(&self.pending_transactions[i], hash) {
                proof {
                    let transactions = self.pending_transactions@;
                    let chosen = choose|c: int|
                        0 <= c < transactions.len() && transactions[c]@ == hash@ && forall|j: int|
                            0 <= j < c ==> transactions[j]@ != hash@;
                    assert(chosen == i);
                }
                self.pending_transactions.remove(i);
                return true;
            }
            i += 1;
        }
        false
    }

    /// Number of transactions that wait to be final.
    pub fn pending_tx_count(&self) -> (count: usize)
        ensures
            count == self@.pending_transactions.len(),
    {
        self.pending_transactions.len()
    }

    /// Tells whether the era is finalized. The latest era never is; an era
    /// with a transaction that waits is not yet.
    pub fn try_finalize(&self, id: u64, latest: u64) -> (finalized: Result<bool, EraError>)
        ensures
            finalized matches Ok(done) ==> self@.pending_transactions.len() == 0 && done
                == spec_finalized(self@, id, latest),
            finalized matches Err(error) ==> error == EraError::TransactionPending
                && self@.pending_transactions.len() > 0,
    {
        if self.pending_transactions.len() > 0 {
            return Err(EraError::TransactionPending);
        }
        Ok(id < latest)
    }
}

/// The eras of the message sender, in the order of their ids.
#[derive(Debug)]
pub struct MessageSender {
    eras: Vec<(u64, Era)>,
}

/// The eras as plain values.
pub open spec fn eras_view(eras: Seq<(u64, Era)>) -> Seq<(u64, EraView)> {
    Seq::new(eras.len(), |i: int| (eras[i].0, eras[i].1@))
}

/// Whether the ids of `eras` grow strictly.
pub open spec fn ids_grow(eras: Seq<(u64, EraView)>) -> bool {
    forall|i: int, j: int| 0 <= i < j < eras.len() ==> eras[i].0 < eras[j].0
}

/// Number of eras whose id is below `id`.
pub open spec fn spec_era_place(eras: Seq<(u64, EraView)>, id: u64) -> int
    decreases eras.len(),
{
    if eras.len() == 0 {
        0
    } else if eras.last().0 < id {
        eras.len() as int
    } else {
        spec_era_place(eras.drop_last(), id)
    }
}

/// Whether `eras` holds an era with the id `id`.
pub open spec fn has_era(eras: Seq<(u64, EraView)>, id: u64) -> bool {
    spec_era_place(eras, id) < eras.len() && eras[spec_era_place(eras, id)].0 == id
}

/// An era without work.
pub open spec fn empty_era() -> EraView {
    EraView {
        pending_messages: Seq::empty(),
        queued_merkle_roots: Seq::empty(),
        pending_transactions: Seq::empty(),
    }
}

/// `eras` with an era for `id`: as it is if it has one, and with an era
/// without work put in at the place of the id if not.
pub open spec fn spec_with_era(eras: Seq<(u64, EraView)>, id: u64) -> Seq<(u64, EraView)> {
    if has_era(eras, id) {
        eras
    } else {
        eras.insert(spec_era_place(eras, id), (id, empty_era()))
    }
}

/// `eras` after a message of the authority set `id` was queued.
pub open spec fn spec_push_message(eras: Seq<(u64, EraView)>, id: u64, message: MessageInBlock)
    -> Seq<(u64, EraView)> {
    let with = spec_with_era(eras, id);
    let place = spec_era_place(eras, id);
    with.update(
        place,
        (
            id,
            EraView {
                pending_messages: with[place].1.pending_messages.push(message),
                ..with[place].1
            },
        ),
    )
}

/// `eras` after a root was relayed.
pub open spec fn spec_push_merkle_root(eras: Seq<(u64, EraView)>, merkle_root: RelayedMerkleRoot)
    -> Seq<(u64, EraView)> {
    let id = merkle_root.authority_set_id;
    let with = spec_with_era(eras, id);
    let place = spec_era_place(eras, id);
    with.update(
        place,
        (
            id,
            EraView {
                queued_merkle_roots: with[place].1.queued_merkle_roots.push(merkle_root),
                ..with[place].1
            },
        ),
    )
}

/// The eras among the first `count` that stay when the finalized ones are
/// retired.
pub open spec fn spec_kept(eras: Seq<(u64, EraView)>, latest: u64, count: int) -> Seq<
    (u64, EraView),
>
    decreases count,
{
    if count <= 0 {
        Seq::empty()
    } else {
        let before = spec_kept(eras, latest, count - 1);
        if spec_finalized(eras[count - 1].1, eras[count - 1].0, latest) {
            before
        } else {
            before.push(eras[count - 1])
        }
    }
}

/// The ids of the eras among the first `count` that are retired.
pub open spec fn spec_retired(eras: Seq<(u64, EraView)>, latest: u64, count: int) -> Seq<u64>
    decreases count,
{
    if count <= 0 {
        Seq::empty()
    } else {
        let before = spec_retired(eras, latest, count - 1);
        if spec_finalized(eras[count - 1].1, eras[count - 1].0, latest) {
            before.push(eras[count - 1].0)
        } else {
            before
        }
    }
}

/// An era after it was processed: the messages that no root covers go on
/// waiting.
pub open spec fn spec_processed_era(era: EraView) -> EraView {
    EraView {
        pending_messages: spec_waiting(
            era.pending_messages,
            era.queued_merkle_roots,
            era.pending_messages.len() as int,
        ),
        ..era
    }
}

/// The eras after each was processed.
pub open spec fn spec_processed_eras(eras: Seq<(u64, EraView)>) -> Seq<(u64, EraView)> {
    Seq::new(eras.len(), |i: int| (eras[i].0, spec_processed_era(eras[i].1)))
}

/// Submissions with the id of their era.
pub open spec fn tagged(id: u64, submissions: Seq<Submission>) -> Seq<(u64, Submission)> {
    Seq::new(submissions.len(), |i: int| (id, submissions[i]))
}

/// The submissions of the first `count` eras, in the order of the eras.
pub open spec fn spec_all_submissions(eras: Seq<(u64, EraView)>, count: int) -> Seq<
    (u64, Submission),
>
    decreases count,
{
    if count <= 0 {
        Seq::empty()
    } else {
        spec_all_submissions(eras, count - 1) + tagged(
            eras[count - 1].0,
            spec_submissions(
                eras[count - 1].1.pending_messages,
                eras[count - 1].1.queued_merkle_roots,
                eras[count - 1].1.pending_messages.len() as int,
            ),
        )
    }
}

/// The place of an id lies in the list; the eras before it have lower ids,
/// the eras from it on have ids that are not lower.
pub proof fn lemma_era_place(eras: Seq<(u64, EraView)>, id: u64)
    requires
        ids_grow(eras),
    ensures
        0 <= spec_era_place(eras, id) <= eras.len(),
        forall|k: int| 0 <= k < spec_era_place(eras, id) ==> eras[k].0 < id,
        forall|k: int| spec_era_place(eras, id) <= k < eras.len() ==> eras[k].0 >= id,
    decreases eras.len(),
{
    if eras.len() > 0 && eras.last().0 >= id {
        let front = eras.drop_last();
        assert(ids_grow(front)) by {
            assert forall|i: int, j: int| 0 <= i < j < front.len() implies front[i].0
                < front[j].0 by {
                assert(front[i] == eras[i] && front[j] == eras[j]);
            }
        }
        lemma_era_place(front, id);
        assert forall|k: int| 0 <= k < spec_era_place(eras, id) implies eras[k].0 < id by {
            assert(front[k] == eras[k]);
        }
        assert forall|k: int| spec_era_place(eras, id) <= k < eras.len() implies eras[k].0
            >= id by {
            if k < eras.len() - 1 {
                assert(front[k] == eras[k]);
            }
        }
    }
}

/// What stays after retiring has ids that grow.
pub proof fn lemma_kept_grows(eras: Seq<(u64, EraView)>, latest: u64, count: int)
    requires
        ids_grow(eras),
        0 <= count <= eras.len(),
    ensures
        ids_grow(spec_kept(eras, latest, count)),
        forall|k: int|
            0 <= k < spec_kept(eras, latest, count).len() ==> exists|m: int|
                0 <= m < count && eras[m] == #[trigger] spec_kept(eras, latest, count)[k],
    decreases count,
{
    if count > 0 {
        lemma_kept_grows(eras, latest, count - 1);
        let before = spec_kept(eras, latest, count - 1);
        let kept = spec_kept(eras, latest, count);
        assert forall|k: int| 0 <= k < kept.len() implies exists|m: int|
            0 <= m < count && eras[m] == #[trigger] kept[k] by {
            if k < before.len() {
                assert(kept[k] == before[k]);
                let m = choose|m: int| 0 <= m < count - 1 && eras[m] == before[k];
                assert(eras[m] == kept[k]);
            } else {
                assert(eras[count - 1] == kept[k]);
            }
        }
        assert forall|i: int, j: int| 0 <= i < j < kept.len() implies kept[i].0 < kept[j].0 by {
            if j < before.len() {
                assert(kept[i] == before[i] && kept[j] == before[j]);
            } else {
                assert(kept[i] == before[i]);
                let m = choose|m: int| 0 <= m < count - 1 && eras[m] == before[i];
                assert(eras[m].0 < eras[count - 1].0);
            }
        }
    }
}

impl MessageSender {
    /// The eras as plain values, lowest id first.
    pub closed spec fn view(&self) -> Seq<(u64, EraView)> {
        eras_view(self.eras@)
    }

    /// The ids of the eras grow strictly.
    pub open spec fn well_formed(&self) -> bool {
        ids_grow(self@)
    }

    /// A sender without eras.
    pub fn new() -> (sender: MessageSender)
        ensures
            sender.well_formed(),
            sender@.len() == 0,
    {
        MessageSender { eras: Vec::new() }
    }

    /// Number of eras.
    pub fn len(&self) -> (count: usize)
        ensures
            count == self@.len(),
    {
        self.eras.len()
    }

    /// The id of the latest era, if there is an era.
    pub fn latest_era(&self) -> (latest: Option<u64>)
        ensures
            latest is Some <==> self@.len() > 0,
            latest matches Some(id) ==> id == self@.last().0,
    {
        if self.eras.len() == 0 {
            None
        } else {
            Some(self.eras[self.eras.len() - 1].0)
        }
    }

    /// Finds the place of `id` and makes sure that an era stands there.
    fn era_place(&mut self, id: u64) -> (place: usize)
        requires
            old(self).well_formed(),
        ensures
            final(self).well_formed(),
            final(self)@ == spec_with_era(old(self)@, id),
            place == spec_era_place(old(self)@, id),
            place < final(self)@.len(),
            final(self)@[place as int].0 == id,
    {
        proof {
            lemma_era_place(self@, id);
            assert(self@.subrange(0, self@.len() as int) =~= self@);
        }
        let mut place: usize = self.eras.len();
        while place > 0 && self.eras[place - 1].0 >= id
            invariant
                place <= self.eras@.len(),
                self@ == eras_view(self.eras@),
                spec_era_place(self@, id) == spec_era_place(self@.subrange(0, place as int), id),
            decreases place,
        {
            proof {
                let part = self@.subrange(0, place as int);
                assert(part.last() == self@[place - 1]);
                assert(part.drop_last() =~= self@.subrange(0, place - 1));
            }
            place -= 1;
        }
        proof {
            let part = self@.subrange(0, place as int);
            if place > 0 {
                assert(part.last() == self@[place - 1]);
            }
        }
        if !(place < self.eras.len() && self.eras[place].0 == id) {
            let ghost before = self@;
            self.eras.insert(place, (id, Era::new()));
            proof {
                let after = self@;
                assert(after[place as int].1 == empty_era()) by {
                    assert(after[place as int].1.pending_messages =~= Seq::empty());
                    assert(after[place as int].1.queued_merkle_roots =~= Seq::empty());
                    assert(after[place as int].1.pending_transactions =~= Seq::empty());
                }
                assert(after =~= before.insert(place as int, (id, empty_era())));
                assert forall|i: int, j: int| 0 <= i < j < after.len() implies after[i].0
                    < after[j].0 by {
                    if i < place {
                        assert(after[i] == before[i]);
                    } else if i > place {
                        assert(after[i] == before[i - 1]);
                    }
                    if j < place {
                        assert(after[j] == before[j]);
                    } else if j > place {
                        assert(after[j] == before[j - 1]);
                    }
                }
            }
        }
        place
    }

    /// Queues a message of the authority set `authority_set_id`. An era is
    /// made for the set if it has none yet.
    pub fn push_message(&mut self, authority_set_id: u64, message: MessageInBlock)
        requires
            old(self).well_formed(),
        ensures
            final(self).well_formed(),
            final(self)@ == spec_push_message(old(self)@, authority_set_id, message),
    {
        let place = self.era_place(authority_set_id);
        let ghost with = self@;
        let mut era = Era::new();
        core::mem::swap(&mut self.eras[place].1, &mut era);
        era.push_message(message);
        self.eras[place] = (authority_set_id, era);
        proof {
            assert(self@ =~= spec_push_message(old(self)@, authority_set_id, message));
            assert forall|i: int, j: int| 0 <= i < j < self@.len() implies self@[i].0
                < self@[j].0 by {
                assert(self@[i].0 == with[i].0 && self@[j].0 == with[j].0);
            }
        }
    }

    /// Queues a root that was relayed, in the era of its authority set.
    pub fn push_merkle_root(&mut self, merkle_root: RelayedMerkleRoot)
        requires
            old(self).well_formed(),
        ensures
            final(self).well_formed(),
            final(self)@ == spec_push_merkle_root(old(self)@, merkle_root),
    {
        let place = self.era_place(merkle_root.authority_set_id);
        let ghost with = self@;
        let mut era = Era::new();
        core::mem::swap(&mut self.eras[place].1, &mut era);
        era.push_merkle_root(merkle_root);
        self.eras[place] = (merkle_root.authority_set_id, era);
        proof {
            assert(self@ =~= spec_push_merkle_root(old(self)@, merkle_root));
            assert forall|i: int, j: int| 0 <= i < j < self@.len() implies self@[i].0
                < self@[j].0 by {
                assert(self@[i].0 == with[i].0 && self@[j].0 == with[j].0);
            }
        }
    }

    /// Processes every era, in the order of the ids: takes out of each the
    /// messages that a root of the era covers. The submissions come in the
    /// order of the eras, and within an era in the order of its messages.
    pub fn process(&mut self) -> (submissions: Vec<(u64, Submission)>)
        requires
            old(self).well_formed(),
        ensures
            final(self).well_formed(),
            final(self)@ == spec_processed_eras(old(self)@),
            submissions@ == spec_all_submissions(old(self)@, old(self)@.len() as int),
    {
        let mut submissions: Vec<(u64, Submission)> = Vec::new();
        let mut i: usize = 0;
        let total = self.eras.len();
        while i < total
            invariant
                i <= total == self.eras@.len() == old(self)@.len(),
                self@ == eras_view(self.eras@),
                forall|k: int| 0 <= k < i ==> self@[k] == spec_processed_eras(old(self)@)[k],
                forall|k: int| i <= k < total ==> self@[k] == old(self)@[k],
                submissions@ == spec_all_submissions(old(self)@, i as int),
            decreases total - i,
        {
            let ghost before = self@;
            let id = self.eras[i].0;
            let mut era = Era::new();
            core::mem::swap(&mut self.eras[i].1, &mut era);
            let found = era.process();
            self.eras[i] = (id, era);
            let ghost so_far = submissions@;
            let mut k: usize = 0;
            while k < found.len()
                invariant
                    k <= found@.len(),
                    submissions@ == so_far + tagged(id, found@).subrange(0, k as int),
                decreases found@.len() - k,
            {
                submissions.push((id, found[k]));
                assert(submissions@ =~= so_far + tagged(id, found@).subrange(0, k + 1));
                k += 1;
            }
            proof {
                assert(tagged(id, found@).subrange(0, found@.len() as int) =~= tagged(id, found@));
                assert forall|m: int| 0 <= m < total implies (if m <= i {
                    self@[m] == spec_processed_eras(old(self)@)[m]
                } else {
                    self@[m] == old(self)@[m]
                }) by {
                    if m != i {
                        assert(self@[m] == before[m]);
                    }
                }
            }
            i += 1;
        }
        proof {
            assert(self@ =~= spec_processed_eras(old(self)@));
            assert forall|i: int, j: int| 0 <= i < j < self@.len() implies self@[i].0
                < self@[j].0 by {
                assert(self@[i].0 == old(self)@[i].0 && self@[j].0 == old(self)@[j].0);
            }
        }
        submissions
    }

    /// Notes that a transaction of the era `id` was sent. Tells whether the
    /// era exists.
    pub fn transaction_sent(&mut self, id: u64, hash: [u8; 32]) -> (known: bool)
        requires
            old(self).well_formed(),
        ensures
            final(self).well_formed(),
            known == has_era(old(self)@, id),
            !known ==> final(self)@ == old(self)@,
            known ==> final(self)@ == old(self)@.update(
                spec_era_place(old(self)@, id),
                (
                    id,
                    EraView {
                        pending_transactions: old(self)@[spec_era_place(
                            old(self)@,
                            id,
                        )].1.pending_transactions.push(hash),
                        ..old(self)@[spec_era_place(old(self)@, id)].1
                    },
                ),
            ),
    {
        proof {
            lemma_era_place(self@, id);
        }
        let mut place: usize = 0;
        while place < self.eras.len() && self.eras[place].0 < id
            invariant
                place <= self.eras@.len(),
                self@ == eras_view(self.eras@),
                ids_grow(self@),
                forall|k: int| 0 <= k < place ==> self@[k].0 < id,
            decreases self.eras@.len() - place,
        {
            place += 1;
        }
        proof {
            let target = spec_era_place(self@, id);
            if target < place {
                assert(self@[target].0 < id);
            } else if target > place {
                assert(self@[place as int].0 < id);
            }
        }
        if place >= self.eras.len() || self.eras[place].0 != id {
            return false;
        }
        let ghost before = self@;
        let mut era = Era::new();
        core::mem::swap(&mut self.eras[place].1, &mut era);
        era.transaction_sent(hash);
        self.eras[place] = (id, era);
        proof {
            assert(self@ =~= before.update(
                place as int,
                (
                    id,
                    EraView {
                        pending_transactions: before[place as int].1.pending_transactions.push(
                            hash,
                        ),
                        ..before[place as int].1
                    },
                ),
            ));
            assert forall|i: int, j: int| 0 <= i < j < self@.len() implies self@[i].0
                < self@[j].0 by {
                assert(self@[i].0 == before[i].0 && self@[j].0 == before[j].0);
            }
        }
        true
    }

    /// Notes that a transaction of the era `id` is final. Tells whether the
    /// era exists and the transaction waited in it.
    pub fn transaction_finalized(&mut self, id: u64, hash: &[u8; 32]) -> (found: bool)
        requires
            old(self).well_formed(),
        ensures
            final(self).well_formed(),
            found == (has_era(old(self)@, id) && spec_first_transaction(
                old(self)@[spec_era_place(old(self)@, id)].1.pending_transactions,
                hash@,
            ) is Some),
            !found ==> final(self)@ == old(self)@,
            found ==> final(self)@ == old(self)@.update(
                spec_era_place(old(self)@, id),
                (
                    id,
                    EraView {
                        pending_transactions: old(self)@[spec_era_place(
                            old(self)@,
                            id,
                        )].1.pending_transactions.remove(
                            spec_first_transaction(
                                old(self)@[spec_era_place(old(self)@, id)].1.pending_transactions,
                                hash@,
                            ).unwrap(),
                        ),
                        ..old(self)@[spec_era_place(old(self)@, id)].1
                    },
                ),
            ),
    {
        proof {
            lemma_era_place(self@, id);
        }
        let mut place: usize = 0;
        while place < self.eras.len() && self.eras[place].0 < id
            invariant
                place <= self.eras@.len(),
                self@ == eras_view(self.eras@),
                ids_grow(self@),
                forall|k: int| 0 <= k < place ==> self@[k].0 < id,
            decreases self.eras@.len() - place,
        {
            place += 1;
        }
        proof {
            let target = spec_era_place(self@, id);
            if target < place {
                assert(self@[target].0 < id);
            } else if target > place {
                assert(self@[place as int].0 < id);
            }
        }
        if place >= self.eras.len() || self.eras[place].0 != id {
            return false;
        }
        let ghost before = self@;
        let mut era = Era::new();
        core::mem::swap(&mut self.eras[place].1, &mut era);
        let found = era.finalize_transaction(hash);
        self.eras[place] = (id, era);
        proof {
            if found {
                assert(self@ =~= before.update(
                    place as int,
                    (
                        id,
                        EraView {
                            pending_transactions: before[place as int].1.pending_transactions.remove(
                                spec_first_transaction(
                                    before[place as int].1.pending_transactions,
                                    hash@,
                                ).unwrap(),
                            ),
                            ..before[place as int].1
                        },
                    ),
                ));
            } else {
                assert(self@ =~= before);
            }
            assert forall|i: int, j: int| 0 <= i < j < self@.len() implies self@[i].0
                < self@[j].0 by {
                assert(self@[i].0 == before[i].0 && self@[j].0 == before[j].0);
            }
        }
        found
    }

    /// Retires every era that is finalized and returns the ids of the eras
    /// retired, in order. The latest era stays whatever its state.
    pub fn retire_finalized(&mut self) -> (retired: Vec<u64>)
        requires
            old(self).well_formed(),
        ensures
            final(self).well_formed(),
            old(self)@.len() == 0 ==> final(self)@ == old(self)@ && retired@.len() == 0,
            old(self)@.len() > 0 ==> final(self)@ == spec_kept(
                old(self)@,
                old(self)@.last().0,
                old(self)@.len() as int,
            ) && retired@ == spec_retired(
                old(self)@,
                old(self)@.last().0,
                old(self)@.len() as int,
            ),
            old(self)@.len() > 0 ==> final(self)@.len() > 0 && final(self)@.last()
                == old(self)@.last(),
    {
        let mut retired: Vec<u64> = Vec::new();
        let latest = match self.latest_era() {
            Some(latest) => latest,
            None => {
                return retired;
            },
        };
        let mut kept: Vec<(u64, Era)> = Vec::new();
        let mut eras: Vec<(u64, Era)> = Vec::new();
        core::mem::swap(&mut self.eras, &mut eras);
        let ghost all = eras_view(eras@);
        let total = eras.len();
        let mut reversed: Vec<(u64, Era)> = Vec::new();
        while eras.len() > 0
            invariant
                eras@.len() + reversed@.len() == total,
                forall|k: int| 0 <= k < eras@.len() ==> eras_view(eras@)[k] == all[k],
                forall|k: int|
                    0 <= k < reversed@.len() ==> eras_view(reversed@)[k] == all[total - 1 - k],
            decreases eras@.len(),
        {
            let ghost before = eras_view(eras@);
            let ghost seen = eras_view(reversed@);
            let last = eras.pop().unwrap();
            reversed.push(last);
            proof {
                assert forall|k: int| 0 <= k < reversed@.len() implies eras_view(reversed@)[k]
                    == all[total - 1 - k] by {
                    if k < reversed@.len() - 1 {
                        assert(eras_view(reversed@)[k] == seen[k]);
                    } else {
                        assert(eras_view(reversed@)[k] == before[before.len() - 1]);
                    }
                }
                assert forall|k: int| 0 <= k < eras@.len() implies eras_view(eras@)[k]
                    == all[k] by {
                    assert(eras_view(eras@)[k] == before[k]);
                }
            }
        }
        let mut i: usize = 0;
        while reversed.len() > 0
            invariant
                i + reversed@.len() == total,
                all.len() == total,
                forall|k: int|
                    0 <= k < reversed@.len() ==> eras_view(reversed@)[k] == all[total - 1 - k],
                eras_view(kept@) == spec_kept(all, latest, i as int),
                retired@ == spec_retired(all, latest, i as int),
            decreases reversed@.len(),
        {
            let ghost rest = eras_view(reversed@);
            let ghost so_far = eras_view(kept@);
            let (id, era) = reversed.pop().unwrap();
            proof {
                assert(rest[rest.len() - 1] == all[i as int]);
                assert forall|k: int| 0 <= k < reversed@.len() implies eras_view(reversed@)[k]
                    == all[total - 1 - k] by {
                    assert(eras_view(reversed@)[k] == rest[k]);
                }
            }
            let finalized = match era.try_finalize(id, latest) {
                Ok(done) => done,
                Err(_) => false,
            };
            if finalized {
                retired.push(id);
                proof {
                    assert(eras_view(kept@) =~= so_far);
                }
            } else {
                kept.push((id, era));
                proof {
                    assert(eras_view(kept@) =~= so_far.push(all[i as int]));
                }
            }
            i += 1;
        }
        proof {
            lemma_kept_grows(all, latest, total as int);
            assert(all =~= old(self)@);
            assert(!spec_finalized(all[total - 1].1, all[total - 1].0, latest));
        }
        self.eras = kept;
        retired
    }

    /// Number of transactions of all eras that wait to be final, capped at
    /// the greatest number that the machine counts.
    pub fn pending_tx_count(&self) -> (count: usize)
        ensures
            count == if spec_pending_total(self@, self@.len() as int) <= usize::MAX {
                spec_pending_total(self@, self@.len() as int)
            } else {
                usize::MAX as int
            },
    {
        let mut count: usize = 0;
        let mut i: usize = 0;
        while i < self.eras.len()
            invariant
                i <= self.eras@.len(),
                self@ == eras_view(self.eras@),
                spec_pending_total(self@, i as int) >= 0,
                count == if spec_pending_total(self@, i as int) <= usize::MAX {
                    spec_pending_total(self@, i as int)
                } else {
                    usize::MAX as int
                },
            decreases self.eras@.len() - i,
        {
            let pending = self.eras[i].1.pending_tx_count();
            assert(self@[i as int].1.pending_transactions.len() == pending);
            count = if pending > usize::MAX - count {
                usize::MAX
            } else {
                count + pending
            };
            i += 1;
        }
        count
    }
}

/// Number of transactions that wait to be final in the first `count` eras.
pub open spec fn spec_pending_total(eras: Seq<(u64, EraView)>, count: int) -> int
    decreases count,
{
    if count <= 0 {
        0
    } else {
        spec_pending_total(eras, count - 1) + eras[count - 1].1.pending_transactions.len()
    }
}

/// Finds the first message that has the nonce `nonce_le`.
pub fn find_message(messages: &Vec<MessageInBlock>, nonce_le: &[u8; 32]) -> (found: Option<usize>)
    ensures
        found matches Some(i) ==> i < messages@.len() && messages@[i as int].nonce_le@
            == nonce_le@ && forall|j: int| 0 <= j < i ==> messages@[j].nonce_le@ != nonce_le@,
        found is None ==> forall|j: int|
            0 <= j < messages@.len() ==> messages@[j].nonce_le@ != nonce_le@,
{
    let mut i: usize = 0;
    while i < messages.len()
        invariant
            i <= messages@.len(),
            forall|j: int| 0 <= j < i ==> messages@[j].nonce_le@ != nonce_le@,
        decreases messages@.len() - i,
    {
        if crate::beacon::hashes_equal(&messages[i].nonce_le, nonce_le) {
            return Some(i);
        }
        i += 1;
    }
    None
}

} // verus!
