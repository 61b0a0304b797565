//! One drive cycle of the cooperative I/O loop: flush submitted requests to
//! the transport and sort freshly arrived, verification-checked records into
//! the per-handle response queues. The bounded blocking wait itself happens
//! at the transport, outside this model; a cycle with no activity changes
//! nothing and is not an error.

use vstd::prelude::*;

use crate::session::{with_token, OutboundRequest, QueuedResponse, Session};

verus! {

/// One inbound message after the protection layer looked at it: the
/// correlation token it claims, whether authentication/decryption succeeded,
/// and the unprotected payload.
pub struct InboundRecord {
    pub token: u64,
    pub verified: bool,
    pub payload: Vec<u8>,
}

/// The response queue after one drive cycle: each record that passed
/// protection verification and matches an outstanding handle is appended in
/// arrival order; every other record is silently discarded.
pub open spec fn delivered(
    responses: Seq<QueuedResponse>,
    events: Seq<InboundRecord>,
    active: Seq<u64>,
) -> Seq<QueuedResponse>
    decreases events.len(),
{
    if events.len() == 0 {
        responses
    } else {
        let prev = delivered(responses, events.drop_last(), active);
        let e = events.last();
        if e.verified && active.contains(e.token) {
            prev.push(QueuedResponse { token: e.token, payload: e.payload })
        } else {
            prev
        }
    }
}

fn token_active(active: &Vec<u64>, tok: u64) -> (r: bool)
    ensures
        r == active@.contains(tok),
{
    let mut i: usize = 0;
    while i < active.len()
        invariant
            0 <= i <= active@.len(),
            forall|j: int| 0 <= j < i ==> active@[j] != tok,
        decreases active@.len() - i,
    {
        if active[i] == tok {
            return true;
        }
        i += 1;
    }
    false
}

/// One scheduling quantum: transmits everything submitted since the last
/// cycle (in submission order) and queues the verified, matching inbound
/// records. Never waits for a specific response; with nothing inbound and
/// nothing pending the session is returned unchanged.
pub fn drive(session: &mut Session, inbound: Vec<InboundRecord>) -> (transmitted: Vec<
    OutboundRequest,
>)
    requires
        old(session).wf(),
    ensures
        final(session).wf(),
        transmitted@ == old(session).pending@,
        final(session).pending@ == Seq::<OutboundRequest>::empty(),
        final(session).responses@ == delivered(
            old(session).responses@,
            inbound@,
            old(session).active@,
        ),
        inbound@.len() == 0 ==> final(session).responses@ == old(session).responses@,
        final(session).peer@ == old(session).peer@,
        final(session).context == old(session).context,
        final(session).next_token == old(session).next_token,
        final(session).active@ == old(session).active@,
{
    let mut transmitted: Vec<OutboundRequest> = Vec::new();
    core::mem::swap(&mut transmitted, &mut session.pending);
    let mut events = inbound;
    let ghost ev = events@;
    let ghost orig = session.responses@;
    let ghost mut done: int = 0;
    proof {
        assert(ev.subrange(0, 0).len() == 0);
        assert(delivered(orig, ev.subrange(0, 0), session.active@) == orig);
    }
    while events.len() > 0
        invariant
            0 <= done <= ev.len(),
            events@ == ev.subrange(done, ev.len() as int),
            session.responses@ == delivered(orig, ev.subrange(0, done), old(session).active@),
            session.active@ == old(session).active@,
            session.peer@ == old(session).peer@,
            session.context == old(session).context,
            session.next_token == old(session).next_token,
            session.pending@ == Seq::<OutboundRequest>::empty(),
            session.wf(),
            orig == old(session).responses@,
        decreases events@.len(),
    {
        let e = events.remove(0);
        proof {
            assert(e == ev[done]);
            assert(events@ =~= ev.subrange(done + 1, ev.len() as int));
            assert(ev.subrange(0, done + 1).drop_last() =~= ev.subrange(0, done));
            assert(ev.subrange(0, done + 1).last() == ev[done]);
        }
        if e.verified && token_active(&session.active, e.token) {
            let token = e.token;
            let payload = e.payload;
            session.responses.push(QueuedResponse { token, payload });
        }
        proof {
            done = done + 1;
        }
    }
    proof {
        assert(ev.subrange(0, ev.len() as int) =~= ev);
    }
    transmitted
}

/// The response queue after a whole run of drive cycles, batch by batch.
pub open spec fn drive_fold(
    responses: Seq<QueuedResponse>,
    batches: Seq<Seq<InboundRecord>>,
    active: Seq<u64>,
) -> Seq<QueuedResponse>
    decreases batches.len(),
{
    if batches.len() == 0 {
        responses
    } else {
        delivered(drive_fold(responses, batches.drop_last(), active), batches.last(), active)
    }
}

proof fn lemma_delivered_unverified(
    responses: Seq<QueuedResponse>,
    events: Seq<InboundRecord>,
    active: Seq<u64>,
    tok: u64,
)
    requires
        forall|j: int|
            0 <= j < events.len() && (#[trigger] events[j]).token == tok ==> !events[j].verified,
    ensures
        with_token(delivered(responses, events, active), tok) == with_token(responses, tok),
    decreases events.len(),
{
    if events.len() > 0 {
        assert(forall|j: int|
            0 <= j < events.drop_last().len() && (#[trigger] events.drop_last()[j]).token == tok
                ==> !events.drop_last()[j].verified);
        lemma_delivered_unverified(responses, events.drop_last(), active, tok);
        let prev = delivered(responses, events.drop_last(), active);
        let e = events.last();
        if e.verified && active.contains(e.token) {
            assert(e.token != tok);
            let q = QueuedResponse { token: e.token, payload: e.payload };
            assert(prev.push(q).drop_last() =~= prev);
            assert(with_token(prev.push(q), tok) == with_token(prev, tok));
        }
    }
}

/// A response that fails protection verification is never surfaced: however
/// many drive cycles run, if every inbound record carrying a token was
/// rejected by verification, then the queue holds nothing for that token —
/// so `poll_handle`, which yields exactly the queued responses for its
/// handle, yields none.
pub proof fn lemma_failed_verification_never_surfaced(
    responses: Seq<QueuedResponse>,
    batches: Seq<Seq<InboundRecord>>,
    active: Seq<u64>,
    tok: u64,
)
    requires
        forall|i: int, j: int|
            0 <= i < batches.len() && 0 <= j < batches[i].len() && (#[trigger] batches[i][j]).token
                == tok ==> !batches[i][j].verified,
        with_token(responses, tok) == Seq::<QueuedResponse>::empty(),
    ensures
        with_token(drive_fold(responses, batches, active), tok) == Seq::<QueuedResponse>::empty(),
    decreases batches.len(),
{
    if batches.len() > 0 {
        let front = batches.drop_last();
        assert(forall|i: int, j: int|
            0 <= i < front.len() && 0 <= j < front[i].len() && (#[trigger] front[i][j]).token
                == tok ==> !front[i][j].verified);
        lemma_failed_verification_never_surfaced(responses, front, active, tok);
        let k = batches.len() - 1;
        assert(forall|j: int|
            0 <= j < batches[k].len() && (#[trigger] batches[k][j]).token == tok
                ==> !batches[k][j].verified);
        lemma_delivered_unverified(drive_fold(responses, front, active), batches[k], active, tok);
    }
}

} // verus!
