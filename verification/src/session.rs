//! One logical connection to a peer: request submission with the
//! advance-then-persist sequence discipline, and non-blocking retrieval of
//! responses by request handle.

use vstd::prelude::*;

use crate::context::{SecurityContext, SendError, SequenceStore};

verus! {

/// The opaque correlation token handed out for one submitted request.
#[derive(Clone, Copy, Debug, PartialEq, Eq, Structural)]
pub struct RequestHandle {
    pub token: u64,
}

/// A request queued for transmission on the next drive cycle. A protected
/// request carries the sender sequence number it was protected under.
pub struct OutboundRequest {
    pub token: u64,
    pub protected_seq: Option<u64>,
    pub payload: Vec<u8>,
}

/// A response that passed protection verification, queued for its handle.
pub struct QueuedResponse {
    pub token: u64,
    pub payload: Vec<u8>,
}

/// The responses of `rs` carrying `tok`, in order.
pub open spec fn with_token(rs: Seq<QueuedResponse>, tok: u64) -> Seq<QueuedResponse>
    decreases rs.len(),
{
    if rs.len() == 0 {
        Seq::<QueuedResponse>::empty()
    } else {
        with_token(rs.drop_last(), tok) + (if rs.last().token == tok {
            seq![rs.last()]
        } else {
            Seq::<QueuedResponse>::empty()
        })
    }
}

/// The responses of `rs` not carrying `tok`, in order.
pub open spec fn without_token(rs: Seq<QueuedResponse>, tok: u64) -> Seq<QueuedResponse>
    decreases rs.len(),
{
    if rs.len() == 0 {
        Seq::<QueuedResponse>::empty()
    } else {
        without_token(rs.drop_last(), tok) + (if rs.last().token != tok {
            seq![rs.last()]
        } else {
            Seq::<QueuedResponse>::empty()
        })
    }
}

/// A session binds a transport peer, an optional security context, the
/// queue of submitted-not-yet-transmitted requests, and the verified
/// responses awaiting retrieval.
pub struct Session {
    pub peer: Vec<u8>,
    pub context: Option<SecurityContext>,
    pub next_token: u64,
    pub pending: Vec<OutboundRequest>,
    pub responses: Vec<QueuedResponse>,
    pub active: Vec<u64>,
}

impl Session {
    pub open spec fn wf(self) -> bool {
        &&& (self.context matches Some(c) ==> c.wf())
        &&& forall|i: int|
            0 <= i < self.active@.len() ==> #[trigger] self.active@[i] < self.next_token
    }

    /// Opens a session to a peer. With a security context every outbound
    /// request is protected under it; without one the session carries
    /// plaintext messages.
    pub fn connect(peer: Vec<u8>, context: Option<SecurityContext>) -> (s: Session)
        requires
            (context matches Some(c) ==> c.wf()),
        ensures
            s.wf(),
            s.peer@ == peer@,
            s.context == context,
            s.next_token == 0,
            s.pending@ == Seq::<OutboundRequest>::empty(),
            s.responses@ == Seq::<QueuedResponse>::empty(),
            s.active@ == Seq::<u64>::empty(),
    {
        Session {
            peer,
            context,
            next_token: 0,
            pending: Vec::new(),
            responses: Vec::new(),
            active: Vec::new(),
        }
    }

    /// Enqueues a message for transmission on the next drive cycle and
    /// returns its fresh handle. On a protected session the sender sequence
    /// number advances and is persisted exactly once; if persisting fails
    /// the request is refused, nothing is queued for the wire, and neither
    /// the counter nor the durable record moves.
    pub fn submit_request<S: SequenceStore>(&mut self, store: &mut S, payload: Vec<u8>) -> (r:
        Result<RequestHandle, SendError>)
        requires
            old(self).wf(),
            old(self).next_token < u64::MAX,
            (old(self).context matches Some(c) ==> c.sequence_number < u64::MAX),
        ensures
            final(self).wf(),
            final(self).peer@ == old(self).peer@,
            final(self).responses@ == old(self).responses@,
            match r {
                Ok(h) => {
                    &&& h.token == old(self).next_token
                    &&& final(self).next_token == old(self).next_token + 1
                    &&& final(self).active@ == old(self).active@.push(h.token)
                    &&& match old(self).context {
                        Some(c) => match final(self).context {
                            Some(c2) => {
                                &&& c2.wf()
                                &&& c2.sequence_number == c.sequence_number + 1
                                &&& c2.used@ == c.used@.push(c.sequence_number)
                                &&& c2.sender_id@ == c.sender_id@
                                &&& c2.recipient_id@ == c.recipient_id@
                                &&& c2.master_secret@ == c.master_secret@
                                &&& c2.master_salt@ == c.master_salt@
                                &&& final(store).stored() == Some(c.sequence_number)
                                &&& final(self).pending@ == old(self).pending@.push(
                                    (OutboundRequest {
                                        token: old(self).next_token,
                                        protected_seq: Some(c.sequence_number),
                                        payload,
                                    }),
                                )
                            },
                            None => false,
                        },
                        None => {
                            &&& final(self).context is None
                            &&& final(store).stored() == old(store).stored()
                            &&& final(self).pending@ == old(self).pending@.push(
                                (OutboundRequest {
                                    token: old(self).next_token,
                                    protected_seq: None,
                                    payload,
                                }),
                            )
                        },
                    }
                },
                Err(e) => {
                    &&& e == SendError::PersistFailed
                    &&& old(self).context is Some
                    &&& final(self).context == old(self).context
                    &&& final(self).next_token == old(self).next_token
                    &&& final(self).active@ == old(self).active@
                    &&& final(self).pending@ == old(self).pending@
                    &&& final(store).stored() == old(store).stored()
                },
            },
    {
        let token = self.next_token;
        match &mut self.context {
            Some(c) => {
                match c.advance(store) {
                    Ok(w) => {
                        self.next_token = token + 1;
                        self.active.push(token);
                        self.pending.push(
                            OutboundRequest { token, protected_seq: Some(w), payload },
                        );
                        Ok(RequestHandle { token })
                    },
                    Err(e) => Err(e),
                }
            },
            None => {
                self.next_token = token + 1;
                self.active.push(token);
                self.pending.push(OutboundRequest { token, protected_seq: None, payload });
                Ok(RequestHandle { token })
            },
        }
    }

    /// Returns the responses newly available for `handle` since the last
    /// poll, in arrival order, removing them from the session. Never
    /// blocks; responses for other handles stay queued, untouched.
    pub fn poll_handle(&mut self, handle: &RequestHandle) -> (out: Vec<QueuedResponse>)
        requires
            old(self).wf(),
        ensures
            final(self).wf(),
            out@ == with_token(old(self).responses@, handle.token),
            final(self).responses@ == without_token(old(self).responses@, handle.token),
            final(self).peer@ == old(self).peer@,
            final(self).context == old(self).context,
            final(self).next_token == old(self).next_token,
            final(self).pending@ == old(self).pending@,
            final(self).active@ == old(self).active@,
    {
        let mut work: Vec<QueuedResponse> = Vec::new();
        core::mem::swap(&mut work, &mut self.responses);
        let ghost orig = work@;
        let mut out: Vec<QueuedResponse> = Vec::new();
        proof {
            assert(orig.subrange(0, 0).len() == 0);
        }
        let ghost mut processed: int = 0;
        while work.len() > 0
            invariant
                0 <= processed <= orig.len(),
                work@ == orig.subrange(processed, orig.len() as int),
                out@ == with_token(orig.subrange(0, processed), handle.token),
                self.responses@ == without_token(orig.subrange(0, processed), handle.token),
                self.peer@ == old(self).peer@,
                self.context == old(self).context,
                self.next_token == old(self).next_token,
                self.pending@ == old(self).pending@,
                self.active@ == old(self).active@,
                orig == old(self).responses@,
            decreases work@.len(),
        {
            let q = work.remove(0);
            proof {
                assert(q == orig[processed]);
                assert(work@ =~= orig.subrange(processed + 1, orig.len() as int));
                assert(orig.subrange(0, processed + 1).drop_last() =~= orig.subrange(
                    0,
                    processed,
                ));
                assert(orig.subrange(0, processed + 1).last() == orig[processed]);
            }
            if q.token == handle.token {
                out.push(q);
                proof {
                    assert(out@ =~= with_token(orig.subrange(0, processed + 1), handle.token));
                    assert(self.responses@ =~= without_token(
                        orig.subrange(0, processed + 1),
                        handle.token,
                    ));
                }
            } else {
                self.responses.push(q);
                proof {
                    assert(out@ =~= with_token(orig.subrange(0, processed + 1), handle.token));
                    assert(self.responses@ =~= without_token(
                        orig.subrange(0, processed + 1),
                        handle.token,
                    ));
                }
            }
            proof {
                processed = processed + 1;
            }
        }
        proof {
            assert(orig.subrange(0, orig.len() as int) =~= orig);
            assert(processed == orig.len());
        }
        out
    }
}

} // verus!
