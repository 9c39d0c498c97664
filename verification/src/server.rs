//! The event-loop state: the connection table, the fresh-identifier
//! counter, the shared entity, and the grid. The surrounding I/O loop only
//! reports readiness and byte counts; every decision — accepting, frame
//! handling, response serialisation, teardown — is made here.

use std::collections::HashMap;
use vstd::prelude::*;

use crate::codec::Car;
use crate::conn::Connection;
use crate::conn::HandleResult;
use crate::conn::Phase;
use crate::conn::WriteOutcome;
use crate::conn::fill_response;
use crate::conn::finish_write;
use crate::conn::on_readable;
use crate::codec::decode_spec;
use crate::codec::frame_of;
use crate::grid::Grid;
use crate::route::entity_inv;
use crate::route::step_exact;
use crate::route::step_rel;

verus! {

broadcast use vstd::std_specs::hash::group_hash_axioms;

/// What the I/O loop must do after asking for a response frame.
#[derive(Debug, PartialEq, Eq)]
pub enum WriteStart {
    /// Nothing to write: the event was stale or the connection unknown.
    Ignore,
    /// Write these bytes, then report the outcome.
    Data(Vec<u8>),
    /// The connection closed; deregister and drop its socket.
    Closed,
}

/// The whole service state apart from the sockets themselves.
pub struct Server {
    pub connections: HashMap<u64, Connection>,
    pub next_id: u64,
    pub entity: Car,
    pub grid: Grid,
}

impl Server {
    /// Every table entry is keyed by its own identifier, live, well formed,
    /// and older than the next identifier to hand out; the grid is well
    /// formed and the entity sits on it.
    pub open spec fn wf(&self) -> bool {
        &&& self.grid.wf()
        &&& entity_inv(self.entity, self.grid)
        &&& forall|k: u64|
            self.connections@.contains_key(k) ==> {
                let c = #[trigger] self.connections@[k];
                c.id == k && k < self.next_id && c.wf() && !(c.phase is Closed)
            }
    }

    /// A fresh service over a loaded grid: no connections yet, and the
    /// entity at the origin with itself as target.
    pub fn new(grid: Grid) -> (s: Server)
        requires
            grid.wf(),
        ensures
            s.wf(),
            s.connections@ =~= Map::<u64, Connection>::empty(),
            s.next_id == 1,
            s.entity.pos == (0i32, 0i32),
            s.entity.target == (0i32, 0i32),
            s.grid == grid,
    {
        Server {
            connections: HashMap::new(),
            next_id: 1,
            entity: Car { pos: (0, 0), target: (0, 0) },
            grid,
        }
    }

    /// Accepts one connection: hands out a fresh identifier, never reused
    /// within a run, and registers the connection awaiting its first
    /// request.
    pub fn accept(&mut self) -> (id: u64)
        requires
            old(self).wf(),
            old(self).next_id < u64::MAX,
        ensures
            final(self).wf(),
            id == old(self).next_id,
            !old(self).connections@.contains_key(id),
            final(self).connections@ == old(self).connections@.insert(
                id,
                final(self).connections@[id],
            ),
            final(self).connections@.contains_key(id),
            final(self).connections@[id].phase is AwaitingRequest,
            final(self).connections@[id].id == id,
            final(self).connections@[id].inbuf@.len() == 0,
            final(self).connections@[id].outbuf@.len() == 0,
            final(self).next_id == old(self).next_id + 1,
            final(self).entity == old(self).entity,
            final(self).grid == old(self).grid,
    {
        let id = self.next_id;
        self.next_id = self.next_id + 1;
        let conn = Connection::new(id);
        self.connections.insert(id, conn);
        id
    }

    /// The number of live connections in the table.
    pub fn connection_count(&self) -> (n: usize)
        ensures
            n == self.connections@.len(),
    {
        self.connections.len()
    }

    /// The entity's current position, as every client observes it.
    pub fn position(&self) -> (p: (i32, i32))
        ensures
            p == self.entity.pos,
    {
        self.entity.pos
    }

    /// The entity's current target.
    pub fn target(&self) -> (p: (i32, i32))
        ensures
            p == self.entity.target,
    {
        self.entity.target
    }

    /// Dispatches one readable event: an unknown identifier is ignored, a
    /// stale event on a connection that owes a response is ignored, and
    /// otherwise the connection state machine runs on the drained bytes.
    /// Returns whether the connection was torn down and must be
    /// deregistered.
    pub fn handle_readable(&mut self, id: u64, chunk: &[u8], peer_closed: bool) -> (closed: bool)
        requires
            old(self).wf(),
        ensures
            final(self).wf(),
            final(self).next_id == old(self).next_id,
            final(self).grid == old(self).grid,
            !old(self).connections@.contains_key(id) ==> final(self).connections@ =~= old(self).connections@ && final(self).entity == old(self).entity && !closed,
            closed ==> final(self).connections@ =~= old(self).connections@.remove(id),
            !closed && old(self).connections@.contains_key(id) ==> final(self).connections@.dom() =~= old(self).connections@.dom(),
            forall|k: u64|
                k != id && old(self).connections@.contains_key(k) ==> final(self).connections@.contains_key(k) && final(self).connections@[k] == old(self).connections@[k],
            forall|k: u64|
                k != id && final(self).connections@.contains_key(k) ==> old(self).connections@.contains_key(k),
            !(old(self).connections@.contains_key(id) && old(self).connections@[id].phase is AwaitingRequest) ==> final(self).entity == old(self).entity,
            old(self).connections@.contains_key(id) && old(self).connections@[id].phase is AwaitingRequest ==> ({
                let frame = old(self).connections@[id].inbuf@ + chunk@;
                &&& frame.len() != crate::codec::FRAME_LEN ==> final(self).entity == old(self).entity
                &&& frame.len() > crate::codec::FRAME_LEN ==> closed
                &&& frame.len() < crate::codec::FRAME_LEN ==> (closed <==> peer_closed) && (!closed
                    ==> final(self).connections@.contains_key(id)
                    && final(self).connections@[id].phase is AwaitingRequest
                    && final(self).connections@[id].inbuf@ == frame)
                &&& frame.len() == crate::codec::FRAME_LEN && decode_spec(frame) is None ==> final(self).entity == old(self).entity && closed
                &&& frame.len() == crate::codec::FRAME_LEN && decode_spec(frame) is Some ==> ({
                    let v = decode_spec(frame)->Some_0;
                    let tgt = (v.1.0 as i32, v.1.1 as i32);
                    &&& final(self).entity.target == tgt
                    &&& step_rel(old(self).grid, old(self).entity.pos, tgt, final(self).entity.pos)
                    &&& step_exact(old(self).grid, old(self).entity.pos, tgt, final(self).entity.pos)
                    &&& (!peer_closed ==> !closed
                        && final(self).connections@.contains_key(id)
                        && final(self).connections@[id].phase is SendingResponse
                        && final(self).connections@[id].inbuf@.len() == 0
                        && final(self).connections@[id].outbuf@.len() == 0)
                    &&& (peer_closed ==> closed)
                })
            }),
    {
        let conn = self.connections.remove(&id);
        match conn {
            None => {
                proof {
                    assert(self.connections@ =~= old(self).connections@);
                }
                false
            },
            Some(mut c) => {
                if !matches!(c.phase, Phase::AwaitingRequest) {
                    self.connections.insert(id, c);
                    proof {
                        assert(self.connections@ =~= old(self).connections@);
                    }
                    false
                } else {
                    let r = on_readable(&mut c, &mut self.entity, &self.grid, chunk, peer_closed);
                    match r {
                        HandleResult::KeepOpen => {
                            self.connections.insert(id, c);
                            proof {
                                assert(self.connections@.dom() =~= old(self).connections@.dom());
                            }
                            false
                        },
                        HandleResult::Close(_) => {
                            true
                        },
                    }
                }
            },
        }
    }

    /// Begins one writable event: serialises the entity's current state
    /// into the connection's pending response if none is pending, and hands
    /// the I/O loop the frame to write. Unknown identifiers and stale
    /// events are ignored; a state too wide for the frame closes the
    /// connection.
    pub fn begin_writable(&mut self, id: u64) -> (r: WriteStart)
        requires
            old(self).wf(),
        ensures
            final(self).wf(),
            final(self).next_id == old(self).next_id,
            final(self).grid == old(self).grid,
            final(self).entity == old(self).entity,
            !old(self).connections@.contains_key(id) ==> final(self).connections@ =~= old(self).connections@ && r is Ignore,
            r is Closed ==> final(self).connections@ =~= old(self).connections@.remove(id),
            !(r is Closed) ==> final(self).connections@.dom() =~= old(self).connections@.dom(),
            forall|k: u64|
                k != id && old(self).connections@.contains_key(k) ==> final(self).connections@.contains_key(k) && final(self).connections@[k] == old(self).connections@[k],
            r matches WriteStart::Data(v) ==> v@.len() == crate::codec::FRAME_LEN && final(self).connections@.contains_key(id) && final(self).connections@[id].outbuf@ == v@,
            old(self).connections@.contains_key(id) && !(old(self).connections@[id].phase is SendingResponse) ==> r is Ignore && final(self).connections@ =~= old(self).connections@,
            old(self).connections@.contains_key(id) && old(self).connections@[id].phase is SendingResponse ==> ({
                let c0 = old(self).connections@[id];
                &&& c0.outbuf@.len() != 0 ==> (r matches WriteStart::Data(v) && v@ == c0.outbuf@
                    && final(self).connections@.contains_key(id)
                    && final(self).connections@[id] == c0)
                &&& c0.outbuf@.len() == 0 && frame_of(old(self).entity).len() == crate::codec::FRAME_LEN
                    ==> (r matches WriteStart::Data(v) && v@ == frame_of(old(self).entity)
                    && final(self).connections@.contains_key(id)
                    && final(self).connections@[id].phase is SendingResponse
                    && final(self).connections@[id].outbuf@ == frame_of(old(self).entity))
                &&& c0.outbuf@.len() == 0 && frame_of(old(self).entity).len() != crate::codec::FRAME_LEN
                    ==> r is Closed
            }),
    {
        let conn = self.connections.remove(&id);
        match conn {
            None => {
                proof {
                    assert(self.connections@ =~= old(self).connections@);
                }
                WriteStart::Ignore
            },
            Some(mut c) => {
                if !matches!(c.phase, Phase::SendingResponse) {
                    self.connections.insert(id, c);
                    proof {
                        assert(self.connections@ =~= old(self).connections@);
                    }
                    WriteStart::Ignore
                } else {
                    let r = fill_response(&mut c, &self.entity);
                    match r {
                        HandleResult::KeepOpen => {
                            let frame = copy_bytes(&c.outbuf);
                            self.connections.insert(id, c);
                            proof {
                                assert(self.connections@.dom() =~= old(self).connections@.dom());
                            }
                            WriteStart::Data(frame)
                        },
                        HandleResult::Close(_) => {
                            WriteStart::Closed
                        },
                    }
                }
            },
        }
    }

    /// Finishes one writable event with the write's reported outcome: a
    /// full write puts the connection back to awaiting a request, a short
    /// write or failure tears it down, a would-block leaves it owing the
    /// same frame. Returns whether the connection must be deregistered.
    pub fn finish_writable(&mut self, id: u64, outcome: WriteOutcome) -> (closed: bool)
        requires
            old(self).wf(),
            outcome matches WriteOutcome::Wrote(n) ==> n <= crate::codec::FRAME_LEN,
        ensures
            final(self).wf(),
            final(self).next_id == old(self).next_id,
            final(self).grid == old(self).grid,
            final(self).entity == old(self).entity,
            !old(self).connections@.contains_key(id) ==> final(self).connections@ =~= old(self).connections@ && final(self).entity == old(self).entity && !closed,
            closed ==> final(self).connections@ =~= old(self).connections@.remove(id),
            !closed && old(self).connections@.contains_key(id) ==> final(self).connections@.dom() =~= old(self).connections@.dom(),
            forall|k: u64|
                k != id && old(self).connections@.contains_key(k) ==> final(self).connections@.contains_key(k) && final(self).connections@[k] == old(self).connections@[k],
            old(self).connections@.contains_key(id) && !(old(self).connections@[id].phase is SendingResponse && old(self).connections@[id].outbuf@.len() == crate::codec::FRAME_LEN) ==> !closed && final(self).connections@ =~= old(self).connections@,
            old(self).connections@.contains_key(id) && old(self).connections@[id].phase is SendingResponse && old(self).connections@[id].outbuf@.len() == crate::codec::FRAME_LEN ==> ({
                &&& outcome matches WriteOutcome::Wrote(n) ==> (if n == crate::codec::FRAME_LEN {
                    !closed && final(self).connections@.contains_key(id)
                        && final(self).connections@[id].phase is AwaitingRequest
                        && final(self).connections@[id].inbuf@.len() == 0
                        && final(self).connections@[id].outbuf@.len() == 0
                } else {
                    closed
                })
                &&& outcome is WouldBlock ==> !closed && final(self).connections@.contains_key(id)
                    && final(self).connections@[id] == old(self).connections@[id]
                &&& outcome is Fatal ==> closed
            }),
    {
        let conn = self.connections.remove(&id);
        match conn {
            None => {
                proof {
                    assert(self.connections@ =~= old(self).connections@);
                }
                false
            },
            Some(mut c) => {
                let pending = matches!(c.phase, Phase::SendingResponse) && c.outbuf.len()
                    == crate::codec::FRAME_LEN;
                if !pending {
                    self.connections.insert(id, c);
                    proof {
                        assert(self.connections@ =~= old(self).connections@);
                    }
                    false
                } else {
                    let r = finish_write(&mut c, outcome);
                    match r {
                        HandleResult::KeepOpen => {
                            self.connections.insert(id, c);
                            proof {
                                assert(self.connections@.dom() =~= old(self).connections@.dom());
                            }
                            false
                        },
                        HandleResult::Close(_) => {
                            true
                        },
                    }
                }
            },
        }
    }

    /// Tears down a connection on an I/O failure seen by the event loop
    /// itself: the entry leaves the table; the caller deregisters the
    /// socket.
    pub fn drop_connection(&mut self, id: u64) -> (was_there: bool)
        requires
            old(self).wf(),
        ensures
            final(self).wf(),
            final(self).next_id == old(self).next_id,
            final(self).grid == old(self).grid,
            final(self).entity == old(self).entity,
            final(self).connections@ =~= old(self).connections@.remove(id),
            was_there == old(self).connections@.contains_key(id),
    {
        let conn = self.connections.remove(&id);
        matches!(conn, Some(_))
    }
}

/// A byte-for-byte copy of a buffer, handed to the I/O loop to write.
fn copy_bytes(src: &Vec<u8>) -> (r: Vec<u8>)
    ensures
        r@ == src@,
{
    let mut out: Vec<u8> = Vec::new();
    let mut i: usize = 0;
    while i < src.len()
        invariant
            i <= src@.len(),
            out@ == src@.take(i as int),
        decreases src@.len() - i,
    {
        out.push(src[i]);
        i = i + 1;
        proof {
            assert(src@.take(i as int) =~= src@.take(i - 1).push(src@[i - 1]));
        }
    }
    proof {
        assert(src@.take(src@.len() as int) =~= src@);
    }
    out
}

} // verus!
