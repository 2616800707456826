//! The stream capability: listen/accept/read/write/shutdown and flow
//! semantics, shared by every duplex transport variant.
//!
//! A stream handle created fresh is not yet connected; `accept` transfers a
//! pending connection onto it and establishes it.  Writes are queued in
//! submission order and complete in that order, never interleaved; the bytes
//! the transport has accepted so far are recorded in the stream's `sent` log,
//! which is exactly what the remote peer has received.

use vstd::prelude::*;
use crate::event_loop::{Loop, LoopModel};
use crate::handle::{
    Handle, HandleKind, HandleState, Payload, PayloadModel, ShutdownEntry, SlotModel, StreamData,
    StreamModel, WriteEntry, WriteModel,
};
use crate::Error;

verus! {

/// A typed view of a stream handle: the slot index in its loop.
#[derive(Clone, Copy, Debug, PartialEq, Eq, Structural)]
pub struct StreamHandle {
    pub id: usize,
}

/// Identity of a queued write request: its stream's slot and its request id
/// within that stream.  The request is destroyed by its own completion; the
/// identity only names it in completion invocations.
#[derive(Clone, Copy, Debug, PartialEq, Eq, Structural)]
pub struct WriteReq {
    pub stream: usize,
    pub id: u64,
}

/// Identity of a pending shutdown request.
#[derive(Clone, Copy, Debug, PartialEq, Eq, Structural)]
pub struct ShutdownReq {
    pub stream: usize,
    pub id: u64,
}

/// The capability of being a duplex stream: any transport variant that can
/// name its stream handle gets the stream operations through it.
pub trait StreamTrait {
    fn stream_handle(&self) -> (h: StreamHandle);
}

impl StreamTrait for StreamHandle {
    fn stream_handle(&self) -> (h: StreamHandle) {
        StreamHandle { id: self.id }
    }
}

/// The variant state of a freshly created stream: nothing registered,
/// nothing queued, not yet connected.
pub open spec fn fresh_stream_model() -> StreamModel {
    StreamModel {
        alloc_cb: None,
        read_cb: None,
        connection_cb: None,
        reading: false,
        listening: false,
        backlog: 0,
        pending_connections: 0,
        write_queue: Seq::empty(),
        next_req_id: 0,
        shutdown_req: None,
        blocking: false,
        readable: false,
        writable: false,
        sent: Seq::empty(),
    }
}

/// The slot `id` of `m` exists, is a stream handle's, and carries a stream
/// payload.
pub open spec fn is_stream_slot(m: LoopModel, id: int) -> bool {
    0 <= id < m.handles.len() && m.handles[id].kind == HandleKind::Stream
        && m.handles[id].payload is StreamP
}

/// The stream variant state at slot `id` (meaningful under `is_stream_slot`).
pub open spec fn stream_data_of(m: LoopModel, id: int) -> StreamModel {
    m.handles[id].payload->StreamP_0
}

/// The shared validity test of every stream operation: `Closed` on a closed
/// loop or a closing/destroyed handle, `InvalidArgument` for a slot that is
/// not a stream handle's.
pub open spec fn stream_op_outcome(m: LoopModel, id: int) -> Result<(), Error> {
    if m.closed {
        Err(Error::Closed)
    } else if !is_stream_slot(m, id) {
        Err(Error::InvalidArgument)
    } else if m.handles[id].state == HandleState::Closing || m.handles[id].state
        == HandleState::Destroyed {
        Err(Error::Closed)
    } else {
        Ok(())
    }
}

/// Model of replacing the stream data at slot `id` (state untouched).
pub open spec fn with_stream_data(m: LoopModel, id: int, d: StreamModel) -> LoopModel {
    LoopModel {
        handles: m.handles.update(
            id,
            SlotModel { payload: PayloadModel::StreamP(d), ..m.handles[id] },
        ),
        ..m
    }
}

/// Model of replacing the stream data at slot `id` and setting its state.
pub open spec fn with_stream_data_state(
    m: LoopModel,
    id: int,
    d: StreamModel,
    state: HandleState,
) -> LoopModel {
    LoopModel {
        handles: m.handles.update(
            id,
            SlotModel { payload: PayloadModel::StreamP(d), state, ..m.handles[id] },
        ),
        ..m
    }
}

/// Model of `listen`: the stream becomes a started server watching for
/// incoming connections, holding at most `backlog` of them pending.
pub open spec fn listen_model(m: LoopModel, id: int, backlog: i32, cb: Option<u64>) -> LoopModel {
    with_stream_data_state(
        m,
        id,
        StreamModel { listening: true, backlog, connection_cb: cb, ..stream_data_of(m, id) },
        HandleState::Started,
    )
}

/// Model of `read_start`: reading is armed with the given buffer-allocation
/// and read callbacks.
pub open spec fn read_start_model(
    m: LoopModel,
    id: int,
    alloc_cb: Option<u64>,
    read_cb: Option<u64>,
) -> LoopModel {
    with_stream_data_state(
        m,
        id,
        StreamModel { reading: true, alloc_cb, read_cb, ..stream_data_of(m, id) },
        HandleState::Started,
    )
}

/// Model of `read_stop`: reading is disarmed; the handle stays started only
/// if it is still a listener.
pub open spec fn read_stop_model(m: LoopModel, id: int) -> LoopModel {
    with_stream_data_state(
        m,
        id,
        StreamModel { reading: false, ..stream_data_of(m, id) },
        if m.handles[id].state == HandleState::Started && !stream_data_of(m, id).listening {
            HandleState::Stopped
        } else {
            m.handles[id].state
        },
    )
}

/// Model of a successful `write`/`write2`: one entry appended to the write
/// queue, carrying the next request id.
pub open spec fn write_model(m: LoopModel, id: int, bytes: Seq<u8>, cb: Option<u64>) -> LoopModel {
    with_stream_data(
        m,
        id,
        StreamModel {
            write_queue: stream_data_of(m, id).write_queue.push(
                WriteModel { id: stream_data_of(m, id).next_req_id, bytes, cb },
            ),
            next_req_id: (stream_data_of(m, id).next_req_id + 1) as u64,
            ..stream_data_of(m, id)
        },
    )
}

/// What `write`/`write2` report: after the shared validity test, the stream
/// must be writable with no shutdown pending, and a request id must be left.
pub open spec fn write_outcome(m: LoopModel, id: int) -> Result<WriteReq, Error> {
    if stream_op_outcome(m, id) is Err {
        Err(stream_op_outcome(m, id)->Err_0)
    } else if !stream_data_of(m, id).writable || stream_data_of(m, id).shutdown_req is Some {
        Err(Error::NotConnected)
    } else if stream_data_of(m, id).next_req_id == u64::MAX {
        Err(Error::OutOfMemory)
    } else {
        Ok(WriteReq { stream: id as usize, id: stream_data_of(m, id).next_req_id })
    }
}

/// Model of a successful `shutdown`: the pending half-close is recorded; it
/// completes once the write queue has drained.
pub open spec fn shutdown_model(m: LoopModel, id: int, cb: Option<u64>) -> LoopModel {
    with_stream_data(
        m,
        id,
        StreamModel {
            shutdown_req: Some(
                ShutdownEntry { id: stream_data_of(m, id).next_req_id, cb },
            ),
            next_req_id: (stream_data_of(m, id).next_req_id + 1) as u64,
            ..stream_data_of(m, id)
        },
    )
}

/// What `shutdown` reports: only one shutdown may be pending, and only on a
/// writable stream.
pub open spec fn shutdown_outcome(m: LoopModel, id: int) -> Result<ShutdownReq, Error> {
    if stream_op_outcome(m, id) is Err {
        Err(stream_op_outcome(m, id)->Err_0)
    } else if stream_data_of(m, id).shutdown_req is Some {
        Err(Error::Busy)
    } else if !stream_data_of(m, id).writable {
        Err(Error::NotConnected)
    } else if stream_data_of(m, id).next_req_id == u64::MAX {
        Err(Error::OutOfMemory)
    } else {
        Ok(ShutdownReq { stream: id as usize, id: stream_data_of(m, id).next_req_id })
    }
}

/// What `accept` reports.  The server must be a listening stream of this
/// loop; the client must be a distinct, initialized, not yet established
/// stream of the same loop; and a connection must actually be pending —
/// accepting a second time for the same connection callback firing, without
/// a new connection, fails.
pub open spec fn accept_outcome(m: LoopModel, server: int, client: int) -> Result<(), Error> {
    if stream_op_outcome(m, server) is Err {
        Err(stream_op_outcome(m, server)->Err_0)
    } else if !stream_data_of(m, server).listening {
        Err(Error::InvalidArgument)
    } else if !is_stream_slot(m, client) || client == server {
        Err(Error::InvalidArgument)
    } else if m.handles[client].state != HandleState::Initialized || stream_data_of(m, client).readable
        || stream_data_of(m, client).writable {
        Err(Error::InvalidArgument)
    } else if stream_data_of(m, server).pending_connections == 0 {
        Err(Error::NoPendingConnection)
    } else {
        Ok(())
    }
}

/// Model of a successful `accept`: one pending connection moves from the
/// server onto the client, which becomes readable and writable.
pub open spec fn accept_model(m: LoopModel, server: int, client: int) -> LoopModel {
    let taken = with_stream_data(
        m,
        server,
        StreamModel {
            pending_connections: (stream_data_of(m, server).pending_connections - 1) as u64,
            ..stream_data_of(m, server)
        },
    );
    with_stream_data(
        taken,
        client,
        StreamModel { readable: true, writable: true, ..stream_data_of(m, client) },
    )
}

/// Total number of bytes queued but not yet flushed on a stream.
pub open spec fn queued_bytes(q: Seq<WriteModel>) -> int
    decreases q.len(),
{
    if q.len() == 0 {
        0
    } else {
        queued_bytes(q.drop_last()) + q.last().bytes.len()
    }
}

impl StreamHandle {
    /// The generic kind-tagged reference to this handle.
    pub fn to_handle(&self) -> (r: Handle)
        ensures
            r == (Handle { id: self.id, kind: HandleKind::Stream }),
    {
        Handle { id: self.id, kind: HandleKind::Stream }
    }

    /// Recovers the typed view from a generic handle, checking the kind tag.
    pub fn try_from(handle: Handle) -> (r: Result<StreamHandle, Error>)
        ensures
            handle.kind == HandleKind::Stream ==> r == Ok::<StreamHandle, Error>(
                StreamHandle { id: handle.id },
            ),
            handle.kind != HandleKind::Stream ==> r == Err::<StreamHandle, Error>(
                Error::InvalidArgument,
            ),
    {
        if matches!(handle.kind, HandleKind::Stream) {
            Ok(StreamHandle { id: handle.id })
        } else {
            Err(Error::InvalidArgument)
        }
    }

    /// Arms server mode: the connection callback fires once per incoming
    /// connection, and at most `backlog` connections are held pending.
    pub fn listen(&self, lp: &mut Loop, backlog: i32, cb: Option<u64>) -> (r: Result<(), Error>)
        ensures
            backlog < 0 && !old(lp)@.closed ==> r == Err::<(), Error>(Error::InvalidArgument)
                && final(lp)@ =~= old(lp)@,
            old(lp)@.closed ==> r == Err::<(), Error>(Error::Closed) && final(lp)@ =~= old(lp)@,
            !old(lp)@.closed && backlog >= 0 ==> r == stream_op_outcome(old(lp)@, self.id as int)
                && (r is Ok ==> final(lp)@ =~= listen_model(old(lp)@, self.id as int, backlog, cb))
                && (r is Err ==> final(lp)@ =~= old(lp)@),
    {
        if lp.closed {
            return Err(Error::Closed);
        }
        if backlog < 0 {
            return Err(Error::InvalidArgument);
        }
        let outcome = self.op_precheck(lp);
        if let Err(e) = outcome {
            return Err(e);
        }
        let slot = &mut lp.handles[self.id];
        if let Payload::StreamPayload(d) = &mut slot.payload {
            d.listening = true;
            d.backlog = backlog;
            d.connection_cb = cb;
        }
        slot.state = HandleState::Started;
        assert(lp@.handles =~~= listen_model(old(lp)@, self.id as int, backlog, cb).handles);
        Ok(())
    }

    /// Transfers one pending connection from this listening server onto the
    /// initialized, not yet established `client` handle of the same loop.
    /// The first accept after a connection callback firing succeeds; a
    /// further accept without a new connection fails.
    pub fn accept(&self, lp: &mut Loop, client: &StreamHandle) -> (r: Result<(), Error>)
        ensures
            r == accept_outcome(old(lp)@, self.id as int, client.id as int),
            r is Ok ==> final(lp)@ =~= accept_model(old(lp)@, self.id as int, client.id as int),
            r is Err ==> final(lp)@ =~= old(lp)@,
    {
        let outcome = self.op_precheck(lp);
        if let Err(e) = outcome {
            return Err(e);
        }
        let listening = match &lp.handles[self.id].payload {
            Payload::StreamPayload(d) => d.listening,
            _ => false,
        };
        if !listening {
            return Err(Error::InvalidArgument);
        }
        if client.id >= lp.handles.len() || client.id == self.id {
            return Err(Error::InvalidArgument);
        }
        if !(lp.handles[client.id].kind == HandleKind::Stream) {
            return Err(Error::InvalidArgument);
        }
        match &lp.handles[client.id].payload {
            Payload::StreamPayload(d) => {
                if !(lp.handles[client.id].state == HandleState::Initialized) || d.readable
                    || d.writable {
                    return Err(Error::InvalidArgument);
                }
            },
            _ => {
                return Err(Error::InvalidArgument);
            },
        }
        let pending = match &lp.handles[self.id].payload {
            Payload::StreamPayload(d) => d.pending_connections,
            _ => 0,
        };
        if pending == 0 {
            return Err(Error::NoPendingConnection);
        }
        let server_slot = &mut lp.handles[self.id];
        if let Payload::StreamPayload(d) = &mut server_slot.payload {
            d.pending_connections = d.pending_connections - 1;
        }
        let client_slot = &mut lp.handles[client.id];
        if let Payload::StreamPayload(d) = &mut client_slot.payload {
            d.readable = true;
            d.writable = true;
        }
        assert(lp@.handles =~~= accept_model(old(lp)@, self.id as int, client.id as int).handles);
        Ok(())
    }

    /// Starts reading: before each read the buffer-allocation callback is
    /// asked for scratch space, then the read callback receives the byte
    /// count — positive for data, zero for "no data this round, keep
    /// reading", negative for end-of-stream or error.
    pub fn read_start(&self, lp: &mut Loop, alloc_cb: Option<u64>, read_cb: Option<u64>) -> (r:
        Result<(), Error>)
        ensures
            r == stream_op_outcome(old(lp)@, self.id as int),
            r is Ok ==> final(lp)@ =~= read_start_model(old(lp)@, self.id as int, alloc_cb, read_cb),
            r is Err ==> final(lp)@ =~= old(lp)@,
    {
        let outcome = self.op_precheck(lp);
        if let Err(e) = outcome {
            return Err(e);
        }
        let slot = &mut lp.handles[self.id];
        if let Payload::StreamPayload(d) = &mut slot.payload {
            d.reading = true;
            d.alloc_cb = alloc_cb;
            d.read_cb = read_cb;
        }
        slot.state = HandleState::Started;
        assert(lp@.handles =~~= read_start_model(
            old(lp)@,
            self.id as int,
            alloc_cb,
            read_cb,
        ).handles);
        Ok(())
    }

    /// Stops reading: the read callback no longer fires.  Idempotent and
    /// safe on an already stopped stream.
    pub fn read_stop(&self, lp: &mut Loop) -> (r: Result<(), Error>)
        ensures
            r == stream_op_outcome(old(lp)@, self.id as int),
            r is Ok ==> final(lp)@ =~= read_stop_model(old(lp)@, self.id as int),
            r is Err ==> final(lp)@ =~= old(lp)@,
    {
        let outcome = self.op_precheck(lp);
        if let Err(e) = outcome {
            return Err(e);
        }
        let listening = match &lp.handles[self.id].payload {
            Payload::StreamPayload(d) => d.listening,
            _ => false,
        };
        let slot = &mut lp.handles[self.id];
        if let Payload::StreamPayload(d) = &mut slot.payload {
            d.reading = false;
        }
        if matches!(slot.state, HandleState::Started) && !listening {
            slot.state = HandleState::Stopped;
        }
        assert(lp@.handles =~~= read_stop_model(old(lp)@, self.id as int).handles);
        Ok(())
    }

    /// Queues an ordered write of the given bytes (buffers flattened in
    /// submission order).  Writes on one stream complete in submission
    /// order, never interleaved.  On submission failure no request is left
    /// behind; on success exactly one completion later fires for the
    /// returned request and destroys it.
    pub fn write(&self, lp: &mut Loop, bytes: Vec<u8>, cb: Option<u64>) -> (r: Result<
        WriteReq,
        Error,
    >)
        ensures
            r == write_outcome(old(lp)@, self.id as int),
            r is Ok ==> final(lp)@ =~= write_model(old(lp)@, self.id as int, bytes@, cb),
            r is Err ==> final(lp)@ =~= old(lp)@,
    {
        let outcome = self.write_precheck(lp);
        if let Err(e) = outcome {
            return Err(e);
        }
        let ghost m0 = lp@;
        let slot = &mut lp.handles[self.id];
        let mut req = WriteReq { stream: self.id, id: 0 };
        if let Payload::StreamPayload(d) = &mut slot.payload {
            req.id = d.next_req_id;
            d.write_queue.push(WriteEntry { id: d.next_req_id, bytes, cb });
            d.next_req_id = d.next_req_id + 1;
        }
        assert(lp@.handles =~~= write_model(m0, self.id as int, bytes@, cb).handles);
        Ok(req)
    }

    /// Extended write for sending a handle over an IPC-capable pipe: the
    /// handle sent along must itself be a stream that is a server or an
    /// established connection.  The transfer itself is the transport's
    /// concern; the queued bytes behave exactly as with `write`.
    pub fn write2(&self, lp: &mut Loop, send_handle: &StreamHandle, bytes: Vec<u8>, cb: Option<
        u64,
    >) -> (r: Result<WriteReq, Error>)
        ensures
            !valid_send_handle(old(lp)@, send_handle.id as int) ==> r == Err::<WriteReq, Error>(
                Error::InvalidArgument,
            ) && final(lp)@ =~= old(lp)@,
            valid_send_handle(old(lp)@, send_handle.id as int) ==> r == write_outcome(
                old(lp)@,
                self.id as int,
            ) && (r is Ok ==> final(lp)@ =~= write_model(old(lp)@, self.id as int, bytes@, cb)) && (
            r is Err ==> final(lp)@ =~= old(lp)@),
    {
        let ok = {
            if send_handle.id >= lp.handles.len() {
                false
            } else if !(lp.handles[send_handle.id].kind == HandleKind::Stream) {
                false
            } else if matches!(
                lp.handles[send_handle.id].state,
                HandleState::Closing | HandleState::Destroyed,
            ) {
                false
            } else {
                match &lp.handles[send_handle.id].payload {
                    Payload::StreamPayload(d) => d.listening || (d.readable && d.writable),
                    _ => false,
                }
            }
        };
        if !ok {
            return Err(Error::InvalidArgument);
        }
        self.write(lp, bytes, cb)
    }

    /// Synchronous best-effort write: accepts bytes only if nothing is
    /// queued ahead of them, hands them to the transport at once, and
    /// returns how many were accepted (possibly zero).  Never queues
    /// anything and never invokes a callback.
    pub fn try_write(&self, lp: &mut Loop, bytes: &Vec<u8>) -> (r: Result<i32, Error>)
        ensures
            r == try_write_outcome(old(lp)@, self.id as int, bytes@),
            r is Ok ==> final(lp)@ =~= try_write_model(old(lp)@, self.id as int, bytes@),
            r is Err ==> final(lp)@ =~= old(lp)@,
    {
        let outcome = self.write_precheck(lp);
        if let Err(e) = outcome {
            return Err(e);
        }
        let queue_empty = match &lp.handles[self.id].payload {
            Payload::StreamPayload(d) => d.write_queue.len() == 0,
            _ => true,
        };
        if !queue_empty {
            return Ok(0);
        }
        let accepted: usize = if bytes.len() > 0x7fff_ffffusize {
            0x7fff_ffffusize
        } else {
            bytes.len()
        };
        let slot = &mut lp.handles[self.id];
        if let Payload::StreamPayload(d) = &mut slot.payload {
            let ghost d0 = d@;
            let mut j: usize = 0;
            while j < accepted
                invariant
                    j <= accepted,
                    accepted <= bytes@.len(),
                    d.sent@ =~= d0.sent + bytes@.take(j as int),
                    d@ =~= (StreamModel { sent: d.sent@, ..d0 }),
                decreases accepted - j,
            {
                let b = bytes[j];
                d.sent.push(b);
                assert(d.sent@ =~= d0.sent + bytes@.take((j + 1) as int));
                j = j + 1;
            }
            assert(d@ =~~= (StreamModel { sent: d0.sent + bytes@.take(accepted as int), ..d0 }));
        }
        assert(lp@.handles =~~= try_write_model(old(lp)@, self.id as int, bytes@).handles);
        Ok(accepted as i32)
    }

    /// Half-closes the outgoing direction once every queued write has
    /// drained; the completion callback fires exactly once and the request
    /// then destroys itself.
    pub fn shutdown(&self, lp: &mut Loop, cb: Option<u64>) -> (r: Result<ShutdownReq, Error>)
        ensures
            r == shutdown_outcome(old(lp)@, self.id as int),
            r is Ok ==> final(lp)@ =~= shutdown_model(old(lp)@, self.id as int, cb),
            r is Err ==> final(lp)@ =~= old(lp)@,
    {
        let outcome = self.op_precheck(lp);
        if let Err(e) = outcome {
            return Err(e);
        }
        let mut req = ShutdownReq { stream: self.id, id: 0 };
        match &lp.handles[self.id].payload {
            Payload::StreamPayload(d) => {
                if d.shutdown_req.is_some() {
                    return Err(Error::Busy);
                }
                if !d.writable {
                    return Err(Error::NotConnected);
                }
                if d.next_req_id == u64::MAX {
                    return Err(Error::OutOfMemory);
                }
                req.id = d.next_req_id;
            },
            _ => {
                return Err(Error::InvalidArgument);
            },
        }
        let slot = &mut lp.handles[self.id];
        if let Payload::StreamPayload(d) = &mut slot.payload {
            d.shutdown_req = Some(ShutdownEntry { id: d.next_req_id, cb });
            d.next_req_id = d.next_req_id + 1;
        }
        assert(lp@.handles =~~= shutdown_model(old(lp)@, self.id as int, cb).handles);
        Ok(req)
    }

    /// Point-in-time query: the stream is connected for reading.  Not a
    /// guarantee about the next operation.
    pub fn is_readable(&self, lp: &Loop) -> (r: bool)
        ensures
            r == (is_stream_slot(lp@, self.id as int) && stream_data_of(
                lp@,
                self.id as int,
            ).readable),
    {
        if self.id >= lp.handles.len() {
            return false;
        }
        match &lp.handles[self.id].payload {
            Payload::StreamPayload(d) => lp.handles[self.id].kind == HandleKind::Stream
                && d.readable,
            _ => false,
        }
    }

    /// Point-in-time query: the stream is connected for writing.
    pub fn is_writable(&self, lp: &Loop) -> (r: bool)
        ensures
            r == (is_stream_slot(lp@, self.id as int) && stream_data_of(
                lp@,
                self.id as int,
            ).writable),
    {
        if self.id >= lp.handles.len() {
            return false;
        }
        match &lp.handles[self.id].payload {
            Payload::StreamPayload(d) => lp.handles[self.id].kind == HandleKind::Stream
                && d.writable,
            _ => false,
        }
    }

    /// Switches between synchronous and asynchronous write completion.  Set
    /// it immediately after creation: changing it once writes are in flight
    /// gives no ordering guarantee, a documented hazard of the transport
    /// layer.
    pub fn set_blocking(&self, lp: &mut Loop, blocking: bool) -> (r: Result<(), Error>)
        ensures
            r == stream_op_outcome(old(lp)@, self.id as int),
            r is Ok ==> final(lp)@ =~= with_stream_data(
                old(lp)@,
                self.id as int,
                StreamModel { blocking, ..stream_data_of(old(lp)@, self.id as int) },
            ),
            r is Err ==> final(lp)@ =~= old(lp)@,
    {
        let outcome = self.op_precheck(lp);
        if let Err(e) = outcome {
            return Err(e);
        }
        let slot = &mut lp.handles[self.id];
        if let Payload::StreamPayload(d) = &mut slot.payload {
            d.blocking = blocking;
        }
        assert(lp@.handles =~~= with_stream_data(
            old(lp)@,
            self.id as int,
            StreamModel { blocking, ..stream_data_of(old(lp)@, self.id as int) },
        ).handles);
        Ok(())
    }

    /// The number of bytes queued but not yet flushed (saturating at the
    /// machine word).
    pub fn get_write_queue_size(&self, lp: &Loop) -> (r: usize)
        ensures
            !is_stream_slot(lp@, self.id as int) ==> r == 0,
            is_stream_slot(lp@, self.id as int) ==> r as int == {
                let total = queued_bytes(stream_data_of(lp@, self.id as int).write_queue);
                if total <= usize::MAX as int {
                    total
                } else {
                    usize::MAX as int
                }
            },
    {
        if self.id >= lp.handles.len() {
            return 0;
        }
        if !(lp.handles[self.id].kind == HandleKind::Stream) {
            return 0;
        }
        match &lp.handles[self.id].payload {
            Payload::StreamPayload(d) => {
                let ghost q = d@.write_queue;
                let mut total: usize = 0;
                let mut j: usize = 0;
                while j < d.write_queue.len()
                    invariant
                        j <= q.len(),
                        q == d.write_queue@.map_values(|w: WriteEntry| w@),
                        q.len() == d.write_queue@.len(),
                        total as int == {
                            let t = queued_bytes(q.take(j as int));
                            if t <= usize::MAX as int {
                                t
                            } else {
                                usize::MAX as int
                            }
                        },
                    decreases q.len() - j,
                {
                    let len = d.write_queue[j].bytes.len();
                    assert(q.take(j + 1 as int).drop_last() =~= q.take(j as int));
                    assert(q.take(j + 1 as int).last() == q[j as int]);
                    if total > usize::MAX - len {
                        total = usize::MAX;
                    } else {
                        total = total + len;
                    }
                    j = j + 1;
                }
                assert(q.take(q.len() as int) =~= q);
                total
            },
            _ => 0,
        }
    }

    /// The bytes the transport has accepted so far, in order: what the
    /// remote peer has received.
    pub fn transmitted<'a>(&self, lp: &'a Loop) -> (r: Option<&'a Vec<u8>>)
        ensures
            is_stream_slot(lp@, self.id as int) <==> r is Some,
            r is Some ==> r->Some_0@ == stream_data_of(lp@, self.id as int).sent,
    {
        if self.id >= lp.handles.len() {
            return None;
        }
        if !(lp.handles[self.id].kind == HandleKind::Stream) {
            return None;
        }
        match &lp.handles[self.id].payload {
            Payload::StreamPayload(d) => Some(&d.sent),
            _ => None,
        }
    }

    /// Shared validity test of the stream operations.
    fn op_precheck(&self, lp: &Loop) -> (r: Result<(), Error>)
        ensures
            r == stream_op_outcome(lp@, self.id as int),
    {
        if lp.closed {
            return Err(Error::Closed);
        }
        if self.id >= lp.handles.len() {
            return Err(Error::InvalidArgument);
        }
        if !(lp.handles[self.id].kind == HandleKind::Stream) {
            return Err(Error::InvalidArgument);
        }
        if !matches!(lp.handles[self.id].payload, Payload::StreamPayload(_)) {
            return Err(Error::InvalidArgument);
        }
        let state = lp.handles[self.id].state;
        if state == HandleState::Closing || state == HandleState::Destroyed {
            return Err(Error::Closed);
        }
        Ok(())
    }

    /// Validity test of the write operations, which additionally need a
    /// writable stream with no shutdown pending.
    fn write_precheck(&self, lp: &Loop) -> (r: Result<(), Error>)
        ensures
            r is Ok <==> write_outcome(lp@, self.id as int) is Ok,
            r is Err ==> r->Err_0 == write_outcome(lp@, self.id as int)->Err_0,
    {
        let outcome = self.op_precheck(lp);
        if let Err(e) = outcome {
            return Err(e);
        }
        match &lp.handles[self.id].payload {
            Payload::StreamPayload(d) => {
                if !d.writable || d.shutdown_req.is_some() {
                    return Err(Error::NotConnected);
                }
                if d.next_req_id == u64::MAX {
                    return Err(Error::OutOfMemory);
                }
                Ok(())
            },
            _ => Err(Error::InvalidArgument),
        }
    }
}

/// The handle sent along a `write2` must be a stream that is a server or an
/// established connection, and not closing.
pub open spec fn valid_send_handle(m: LoopModel, id: int) -> bool {
    is_stream_slot(m, id) && m.handles[id].state != HandleState::Closing && m.handles[id].state
        != HandleState::Destroyed && (stream_data_of(m, id).listening || (stream_data_of(
        m,
        id,
    ).readable && stream_data_of(m, id).writable))
}

/// What `try_write` reports: with the queue empty, how many bytes the
/// transport accepted at once (all of them, capped at the i32 range);
/// with writes still queued, zero.
pub open spec fn try_write_outcome(m: LoopModel, id: int, bytes: Seq<u8>) -> Result<i32, Error> {
    if write_outcome(m, id) is Err {
        Err(write_outcome(m, id)->Err_0)
    } else if stream_data_of(m, id).write_queue.len() > 0 {
        Ok(0)
    } else if bytes.len() > 0x7fff_ffff {
        Ok(0x7fff_ffffi32)
    } else {
        Ok(bytes.len() as i32)
    }
}

/// Model of `try_write`: the accepted prefix goes straight to the
/// transport's sent log; nothing is queued.
pub open spec fn try_write_model(m: LoopModel, id: int, bytes: Seq<u8>) -> LoopModel {
    if stream_data_of(m, id).write_queue.len() > 0 {
        m
    } else {
        let accepted = if bytes.len() > 0x7fff_ffff {
            0x7fff_ffff
        } else {
            bytes.len() as int
        };
        with_stream_data(
            m,
            id,
            StreamModel {
                sent: stream_data_of(m, id).sent + bytes.take(accepted),
                ..stream_data_of(m, id)
            },
        )
    }
}

impl Loop {
    /// Creates and initializes a new duplex stream handle.  The handle is
    /// not yet connected: a transport establishes it, for instance by
    /// `accept` from a listening stream.
    pub fn stream(&mut self) -> (r: Result<StreamHandle, Error>)
        ensures
            old(self)@.closed ==> r == Err::<StreamHandle, Error>(Error::Closed) && final(self)@
                =~= old(self)@,
            !old(self)@.closed ==> r == Ok::<StreamHandle, Error>(
                StreamHandle { id: old(self)@.handles.len() as usize },
            ) && final(self)@ =~= stream_new_model(old(self)@),
    {
        if self.closed {
            return Err(Error::Closed);
        }
        let id = self.handles.len();
        self.handles.push(
            crate::handle::HandleSlot {
                kind: HandleKind::Stream,
                state: HandleState::Initialized,
                payload: Payload::StreamPayload(
                    StreamData {
                        alloc_cb: None,
                        read_cb: None,
                        connection_cb: None,
                        reading: false,
                        listening: false,
                        backlog: 0,
                        pending_connections: 0,
                        write_queue: Vec::new(),
                        next_req_id: 0,
                        shutdown_req: None,
                        blocking: false,
                        readable: false,
                        writable: false,
                        sent: Vec::new(),
                    },
                ),
                close_cb: None,
            },
        );
        assert(self@.handles =~~= stream_new_model(old(self)@).handles);
        Ok(StreamHandle { id })
    }
}

/// Model of creating a stream handle: one fresh slot, initialized, with a
/// fresh stream payload attached.
pub open spec fn stream_new_model(m: LoopModel) -> LoopModel {
    LoopModel {
        handles: m.handles.push(
            SlotModel {
                kind: HandleKind::Stream,
                state: HandleState::Initialized,
                payload: PayloadModel::StreamP(fresh_stream_model()),
                close_cb: None,
            },
        ),
        ..m
    }
}

} // verus!
