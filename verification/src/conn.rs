//! The per-connection state machine: a connection awaits one complete
//! 13-byte request frame, applies it to the shared entity, then owes the
//! peer one response frame, and returns to awaiting the next request.
//! Every failure is scoped to the one connection.

use vstd::prelude::*;

use crate::codec::Car;
use crate::codec::FRAME_LEN;
use crate::codec::decode_spec;
use crate::codec::frame_of;
use crate::grid::Grid;
use crate::route::advance;
use crate::route::entity_inv;
use crate::route::step_exact;
use crate::route::step_rel;

verus! {

/// The phase of one connection.
#[derive(Clone, Copy, Debug, PartialEq, Eq, Structural)]
pub enum Phase {
    AwaitingRequest,
    SendingResponse,
    Closed,
}

/// Why a connection was torn down. Every variant is scoped to the one
/// connection; none aborts the service.
#[derive(Clone, Copy, Debug, PartialEq, Eq, Structural)]
pub enum ConnError {
    Protocol,
    ShortWrite,
    PeerClosed,
    Io,
    FrameOverflow,
}

/// What the event loop must do with the connection after a step.
#[derive(Clone, Copy, Debug, PartialEq, Eq, Structural)]
pub enum HandleResult {
    KeepOpen,
    Close(ConnError),
}

/// The reported outcome of one non-blocking write attempt.
#[derive(Clone, Copy, Debug, PartialEq, Eq, Structural)]
pub enum WriteOutcome {
    Wrote(usize),
    WouldBlock,
    Fatal,
}

/// The readiness interest a live connection is registered for.
#[derive(Clone, Copy, Debug, PartialEq, Eq, Structural)]
pub enum Interest {
    Readable,
    Writable,
}

/// One client connection: its identifier, phase, the partial request frame
/// read so far, and the pending response frame.
pub struct Connection {
    pub id: u64,
    pub phase: Phase,
    pub inbuf: Vec<u8>,
    pub outbuf: Vec<u8>,
}

impl Connection {
    /// A live connection holds less than one frame of pending input, reads
    /// only while no response is owed, and owes either nothing or one whole
    /// frame.
    pub open spec fn wf(&self) -> bool {
        self.phase is Closed || {
            &&& self.inbuf@.len() < FRAME_LEN
            &&& self.phase is SendingResponse ==> self.inbuf@.len() == 0
            &&& self.phase is AwaitingRequest ==> self.outbuf@.len() == 0
            &&& self.outbuf@.len() == 0 || self.outbuf@.len() == FRAME_LEN
        }
    }

    /// A fresh connection: awaiting its first request, buffers empty.
    pub fn new(id: u64) -> (c: Connection)
        ensures
            c.id == id,
            c.phase is AwaitingRequest,
            c.inbuf@.len() == 0,
            c.outbuf@.len() == 0,
            c.wf(),
    {
        Connection { id, phase: Phase::AwaitingRequest, inbuf: Vec::new(), outbuf: Vec::new() }
    }

    /// The interest a connection's phase asks for, or nothing when closed.
    pub fn interest(&self) -> (r: Option<Interest>)
        ensures
            self.phase is AwaitingRequest ==> r == Some(Interest::Readable),
            self.phase is SendingResponse ==> r == Some(Interest::Writable),
            self.phase is Closed ==> r is None,
    {
        match self.phase {
            Phase::AwaitingRequest => Some(Interest::Readable),
            Phase::SendingResponse => Some(Interest::Writable),
            Phase::Closed => None,
        }
    }
}

/// Feeds the bytes drained from one readable event into the connection.
/// A complete well-formed frame updates the shared entity by one
/// pathfinding step toward the frame's target half (its position half is
/// informational only) and flips the connection to sending; a malformed or
/// oversized frame closes only this connection and leaves the entity
/// untouched; an incomplete frame waits; a peer close tears down.
pub fn on_readable(
    conn: &mut Connection,
    entity: &mut Car,
    g: &Grid,
    chunk: &[u8],
    peer_closed: bool,
) -> (r: HandleResult)
    requires
        old(conn).wf(),
        old(conn).phase is AwaitingRequest,
        g.wf(),
        entity_inv(*old(entity), *g),
    ensures
        final(conn).wf(),
        final(conn).id == old(conn).id,
        entity_inv(*final(entity), *g),
        final(conn).phase is Closed <==> r is Close,
        old(conn).inbuf@.len() + chunk@.len() > FRAME_LEN ==> final(conn).phase is Closed && r
            == HandleResult::Close(ConnError::Protocol) && *final(entity) == *old(entity),
        old(conn).inbuf@.len() + chunk@.len() < FRAME_LEN ==> *final(entity) == *old(entity)
            && final(conn).inbuf@ == old(conn).inbuf@ + chunk@ && (if peer_closed {
            final(conn).phase is Closed && r == HandleResult::Close(ConnError::PeerClosed)
        } else {
            final(conn).phase is AwaitingRequest && r == HandleResult::KeepOpen
        }),
        old(conn).inbuf@.len() + chunk@.len() == FRAME_LEN && decode_spec(
            old(conn).inbuf@ + chunk@,
        ) is None ==> *final(entity) == *old(entity) && final(conn).phase is Closed && r
            == HandleResult::Close(ConnError::Protocol),
        old(conn).inbuf@.len() + chunk@.len() == FRAME_LEN && decode_spec(
            old(conn).inbuf@ + chunk@,
        ) is Some ==> ({
            let v = decode_spec(old(conn).inbuf@ + chunk@)->Some_0;
            let tgt = (v.1.0 as i32, v.1.1 as i32);
            &&& final(entity).target == tgt
            &&& step_rel(*g, old(entity).pos, tgt, final(entity).pos)
            &&& step_exact(*g, old(entity).pos, tgt, final(entity).pos)
            &&& final(conn).inbuf@.len() == 0
            &&& (if peer_closed {
                final(conn).phase is Closed && r == HandleResult::Close(ConnError::PeerClosed)
            } else {
                final(conn).phase is SendingResponse && final(conn).outbuf@.len() == 0 && r
                    == HandleResult::KeepOpen
            })
        }),
{
    if chunk.len() > FRAME_LEN - conn.inbuf.len() {
        conn.phase = Phase::Closed;
        return HandleResult::Close(ConnError::Protocol);
    }
    let ghost inbuf0 = conn.inbuf@;
    let mut i: usize = 0;
    while i < chunk.len()
        invariant
            i <= chunk@.len(),
            conn.inbuf@ == inbuf0 + chunk@.take(i as int),
            inbuf0 == old(conn).inbuf@,
            inbuf0.len() + chunk@.len() <= FRAME_LEN,
            conn.id == old(conn).id,
            conn.phase == old(conn).phase,
            conn.outbuf@ == old(conn).outbuf@,
        decreases chunk@.len() - i,
    {
        conn.inbuf.push(chunk[i]);
        i = i + 1;
        proof {
            assert(inbuf0 + chunk@.take(i as int) =~= (inbuf0 + chunk@.take(i - 1)).push(
                chunk@[i - 1],
            ));
        }
    }
    proof {
        assert(conn.inbuf@ =~= inbuf0 + chunk@);
    }
    if conn.inbuf.len() == FRAME_LEN {
        let decoded = Car::decode(conn.inbuf.as_slice());
        match decoded {
            Ok(msg) => {
                advance(entity, g, msg.target);
                conn.inbuf.clear();
                if peer_closed {
                    conn.phase = Phase::Closed;
                    HandleResult::Close(ConnError::PeerClosed)
                } else {
                    conn.phase = Phase::SendingResponse;
                    HandleResult::KeepOpen
                }
            },
            Err(_) => {
                conn.phase = Phase::Closed;
                HandleResult::Close(ConnError::Protocol)
            },
        }
    } else {
        if peer_closed {
            conn.phase = Phase::Closed;
            HandleResult::Close(ConnError::PeerClosed)
        } else {
            HandleResult::KeepOpen
        }
    }
}

/// Serialises the entity's current state into the connection's pending
/// response, once: a deferred write keeps the already serialised frame. A
/// state too wide for the fixed frame closes the connection rather than
/// emit a malformed frame.
pub fn fill_response(conn: &mut Connection, entity: &Car) -> (r: HandleResult)
    requires
        old(conn).wf(),
        old(conn).phase is SendingResponse,
    ensures
        final(conn).wf(),
        final(conn).id == old(conn).id,
        final(conn).phase is Closed <==> r is Close,
        old(conn).outbuf@.len() == 0 && frame_of(*entity).len() == FRAME_LEN
            ==> final(conn).phase is SendingResponse && final(conn).outbuf@ == frame_of(*entity)
            && r == HandleResult::KeepOpen,
        old(conn).outbuf@.len() == 0 && frame_of(*entity).len() != FRAME_LEN
            ==> final(conn).phase is Closed && r == HandleResult::Close(ConnError::FrameOverflow),
        old(conn).outbuf@.len() != 0 ==> *final(conn) == *old(conn) && r == HandleResult::KeepOpen,
{
    if conn.outbuf.len() == 0 {
        match entity.encode() {
            Ok(v) => {
                conn.outbuf = v;
                HandleResult::KeepOpen
            },
            Err(_) => {
                conn.phase = Phase::Closed;
                HandleResult::Close(ConnError::FrameOverflow)
            },
        }
    } else {
        HandleResult::KeepOpen
    }
}

/// Applies the reported outcome of one write attempt: a full write settles
/// the response and the connection awaits the next request; a short write
/// or another I/O failure closes it; a would-block defers, keeping the
/// serialised frame.
pub fn finish_write(conn: &mut Connection, outcome: WriteOutcome) -> (r: HandleResult)
    requires
        old(conn).wf(),
        old(conn).phase is SendingResponse,
        old(conn).outbuf@.len() == FRAME_LEN,
        outcome matches WriteOutcome::Wrote(n) ==> n <= FRAME_LEN,
    ensures
        final(conn).wf(),
        final(conn).id == old(conn).id,
        final(conn).phase is Closed <==> r is Close,
        outcome matches WriteOutcome::Wrote(n) ==> (if n == FRAME_LEN {
            final(conn).phase is AwaitingRequest && final(conn).outbuf@.len() == 0
                && final(conn).inbuf@.len() == 0 && r == HandleResult::KeepOpen
        } else {
            final(conn).phase is Closed && r == HandleResult::Close(ConnError::ShortWrite)
        }),
        outcome is WouldBlock ==> *final(conn) == *old(conn) && r == HandleResult::KeepOpen,
        outcome is Fatal ==> final(conn).phase is Closed && r == HandleResult::Close(ConnError::Io),
{
    match outcome {
        WriteOutcome::Wrote(n) => {
            if n == FRAME_LEN {
                conn.outbuf.clear();
                conn.inbuf.clear();
                conn.phase = Phase::AwaitingRequest;
                HandleResult::KeepOpen
            } else {
                conn.phase = Phase::Closed;
                HandleResult::Close(ConnError::ShortWrite)
            }
        },
        WriteOutcome::WouldBlock => HandleResult::KeepOpen,
        WriteOutcome::Fatal => {
            conn.phase = Phase::Closed;
            HandleResult::Close(ConnError::Io)
        },
    }
}

} // verus!
