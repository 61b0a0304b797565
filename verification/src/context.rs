//! The OSCORE security context: identities, key material, and the monotonic
//! sender sequence number with its durable-persistence discipline.

use vstd::prelude::*;

verus! {

/// Why a protected submission was refused.
#[derive(Clone, Copy, Debug, PartialEq, Eq, Structural)]
pub enum SendError {
    /// The advanced counter could not be durably recorded; the message was
    /// not transmitted and the counter did not move.
    PersistFailed,
}

/// The durable backing store for the sender sequence number. The store
/// records the last value used on the wire; one context owns one store.
///
/// Implementations decide how (a file, a flash cell, memory for tests), but
/// every implementation must be durable on success and must leave the prior
/// record intact on failure.
pub trait SequenceStore {
    /// The value the store durably holds, if any.
    spec fn stored(&self) -> Option<u64>;

    /// Durably records `value`, returning `true` only once it is recorded.
    /// A failed write leaves the previous record in place.
    fn persist(&mut self, value: u64) -> (ok: bool)
        ensures
            ok ==> final(self).stored() == Some(value),
            !ok ==> final(self).stored() == old(self).stored(),
    ;

    /// The last durably recorded value, or nothing if absent or unreadable.
    fn read_initial(&self) -> (r: Option<u64>)
        ensures
            r == self.stored(),
    ;
}

/// An in-memory sequence store, for tests and for hosts without durable
/// storage. `writable` models a store whose writes fail.
pub struct MemStore {
    pub value: Option<u64>,
    pub writable: bool,
}

impl MemStore {
    pub fn new(value: Option<u64>, writable: bool) -> (s: MemStore)
        ensures
            s.stored() == value,
            s.writable == writable,
    {
        MemStore { value, writable }
    }
}

impl SequenceStore for MemStore {
    open spec fn stored(&self) -> Option<u64> {
        self.value
    }

    fn persist(&mut self, value: u64) -> (ok: bool) {
        if self.writable {
            self.value = Some(value);
            true
        } else {
            false
        }
    }

    fn read_initial(&self) -> (r: Option<u64>) {
        self.value
    }
}

/// One OSCORE protection context. Immutable after construction except for
/// the sender sequence number, which strictly increases by exactly one per
/// protected message and is persisted on every advance.
pub struct SecurityContext {
    pub sender_id: Vec<u8>,
    pub recipient_id: Vec<u8>,
    pub master_secret: Vec<u8>,
    pub master_salt: Vec<u8>,
    /// The next sequence number to spend on the wire.
    pub sequence_number: u64,
    /// The wire history: every sequence number this context has spent, in
    /// the order it was spent.
    pub used: Ghost<Seq<u64>>,
}

impl SecurityContext {
    /// The sequence number this context started from.
    pub open spec fn initial_seq(self) -> int {
        self.sequence_number - self.used@.len()
    }

    /// The wire history is exactly the consecutive run from the initial
    /// value up to (excluding) the next sequence number.
    pub open spec fn wf(self) -> bool {
        &&& self.used@.len() <= self.sequence_number
        &&& forall|i: int|
            0 <= i < self.used@.len() ==> #[trigger] self.used@[i] == self.initial_seq() + i
    }

    pub fn new(
        sender_id: Vec<u8>,
        recipient_id: Vec<u8>,
        master_secret: Vec<u8>,
        master_salt: Vec<u8>,
        initial_sequence: u64,
    ) -> (c: SecurityContext)
        ensures
            c.wf(),
            c.sender_id@ == sender_id@,
            c.recipient_id@ == recipient_id@,
            c.master_secret@ == master_secret@,
            c.master_salt@ == master_salt@,
            c.sequence_number == initial_sequence,
            c.used@ == Seq::<u64>::empty(),
    {
        SecurityContext {
            sender_id,
            recipient_id,
            master_secret,
            master_salt,
            sequence_number: initial_sequence,
            used: Ghost(Seq::empty()),
        }
    }

    /// Spends the next sender sequence number: the value to put on the wire
    /// is durably recorded first, and the counter advances by exactly one
    /// only once the record succeeded. On a persistence failure nothing
    /// moves: the counter, the history and the store are unchanged, and no
    /// sequence number may reach the wire.
    pub fn advance<S: SequenceStore>(&mut self, store: &mut S) -> (r: Result<u64, SendError>)
        requires
            old(self).wf(),
            old(self).sequence_number < u64::MAX,
        ensures
            final(self).wf(),
            final(self).sender_id@ == old(self).sender_id@,
            final(self).recipient_id@ == old(self).recipient_id@,
            final(self).master_secret@ == old(self).master_secret@,
            final(self).master_salt@ == old(self).master_salt@,
            final(self).initial_seq() == old(self).initial_seq(),
            match r {
                Ok(w) => {
                    &&& w == old(self).sequence_number
                    &&& final(self).sequence_number == old(self).sequence_number + 1
                    &&& final(self).used@ == old(self).used@.push(w)
                    &&& final(store).stored() == Some(w)
                },
                Err(e) => {
                    &&& e == SendError::PersistFailed
                    &&& *final(self) == *old(self)
                    &&& final(store).stored() == old(store).stored()
                },
            },
    {
        let wire = self.sequence_number;
        if store.persist(wire) {
            self.sequence_number = wire + 1;
            proof {
                self.used@ = self.used@.push(wire);
            }
            Ok(wire)
        } else {
            Err(SendError::PersistFailed)
        }
    }
}

/// On one live context the spent wire sequence numbers are exactly the
/// consecutive run `initial, initial + 1, …, initial + N - 1`: no repeats,
/// no gaps, and the last spent value is one below the counter.
pub proof fn lemma_wire_sequence_exact(c: SecurityContext)
    requires
        c.wf(),
    ensures
        forall|i: int| 0 <= i < c.used@.len() ==> #[trigger] c.used@[i] == c.initial_seq() + i,
        forall|i: int, j: int|
            0 <= i < c.used@.len() && 0 <= j < c.used@.len() && i != j ==> c.used@[i]
                != c.used@[j],
        c.used@.len() > 0 ==> c.used@.last() + 1 == c.sequence_number,
{
    assert forall|i: int, j: int|
        0 <= i < c.used@.len() && 0 <= j < c.used@.len() && i != j implies c.used@[i]
        != c.used@[j] by {
        assert(c.used@[i] == c.initial_seq() + i);
        assert(c.used@[j] == c.initial_seq() + j);
    }
}

/// Continuity across a restart: a second context that resumes one past the
/// persisted counter (the last value the first context spent) extends the
/// wire history with no repeat and no gap, as if the process had never
/// stopped.
pub proof fn lemma_restart_wire_sequence(before: SecurityContext, after: SecurityContext)
    requires
        before.wf(),
        after.wf(),
        before.used@.len() > 0,
        after.initial_seq() == before.used@.last() + 1,
    ensures
        forall|k: int|
            0 <= k < before.used@.len() + after.used@.len() ==> #[trigger] (before.used@
                + after.used@)[k] == before.initial_seq() + k,
        forall|i: int, j: int|
            0 <= i < before.used@.len() + after.used@.len() && 0 <= j < before.used@.len()
                + after.used@.len() && i != j ==> (before.used@ + after.used@)[i] != (before.used@
                + after.used@)[j],
{
    let whole = before.used@ + after.used@;
    let n1 = before.used@.len() as int;
    assert(before.used@.last() == before.initial_seq() + n1 - 1);
    assert forall|k: int| 0 <= k < whole.len() implies #[trigger] whole[k] == before.initial_seq()
        + k by {
        if k < n1 {
            assert(whole[k] == before.used@[k]);
        } else {
            assert(whole[k] == after.used@[k - n1]);
            assert(after.used@[k - n1] == after.initial_seq() + (k - n1));
        }
    }
    assert forall|i: int, j: int|
        0 <= i < whole.len() && 0 <= j < whole.len() && i != j implies whole[i] != whole[j] by {
        assert(whole[i] == before.initial_seq() + i);
        assert(whole[j] == before.initial_seq() + j);
    }
}

} // verus!
