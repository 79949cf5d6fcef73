//! The vectored-write sink of the send path.
//!
//! A frame is written as up to four chunks that are never joined in memory:
//!
//! ```text
//! [ length: u32 BE ][ envelope ][ body ][ body_len: u32 LE ]
//! ```
//!
//! A writer may take any number of bytes at a time, so the sink keeps a cursor
//! into the frame and offers what lies behind it.
use fory::Fory;
use std::marker::PhantomData;
use std::sync::Arc;
use tokio_util::bytes::Bytes;
use vstd::prelude::*;

use crate::buffers::{body_content, body_len, bytes_content, bytes_slice, optional_len};
use crate::endian::{be_array, be_bytes, le_array, le_bytes, low_word};
use crate::error::{envelope_result, CodecError, FrameError};
use crate::registry::share;
use crate::zerocopy::{body_bytes, frame_payload, wire_frame, MAX_FRAME_LEN};

verus! {

/// A frame on its way to the writer.
pub ghost struct InFlight {
    pub envelope: Seq<u8>,
    pub body: Option<Seq<u8>>,
    /// The number of bytes written so far.
    pub cursor: nat,
}

impl InFlight {
    /// All bytes of the frame, written or not.
    pub open spec fn wire(self) -> Seq<u8> {
        wire_frame(self.envelope, self.body)
    }

    /// What a chunk that starts at offset `start` still has to contribute:
    /// nothing once the cursor has passed it, else the part behind the cursor.
    pub open spec fn chunk(self, start: nat, bytes: Seq<u8>) -> Seq<Seq<u8>> {
        if self.cursor < start + bytes.len() {
            seq![bytes.skip(if self.cursor > start { self.cursor - start } else { 0 })]
        } else {
            Seq::empty()
        }
    }

    /// The chunks that are still to be written, in order.
    pub open spec fn chunks(self) -> Seq<Seq<u8>> {
        let payload_len = frame_payload(self.envelope, self.body).len();
        let body_len = body_bytes(self.body).len();
        let body_start = 4 + self.envelope.len();
        let of_body = match self.body {
            Some(b) => self.chunk(body_start, b),
            None => Seq::empty(),
        };
        self.chunk(0, be_bytes(payload_len)) + self.chunk(4, self.envelope) + of_body + self.chunk(
            body_start + body_len,
            le_bytes(body_len),
        )
    }

    /// The frame after the writer took `n` more bytes; `None` once it is done.
    pub open spec fn advanced(self, n: nat) -> Option<InFlight> {
        if self.cursor + n >= self.wire().len() {
            None
        } else {
            Some(InFlight { envelope: self.envelope, body: self.body, cursor: self.cursor + n })
        }
    }
}

/// A part of the very buffer `bytes`, borrowed and not copied.
pub closed spec fn part_of(bytes: Bytes, slice: &[u8]) -> bool {
    exists|whole: &[u8], from: usize, to: usize|
        call_ensures(bytes_slice, (&bytes,), whole) && #[trigger] call_ensures(
            vstd::slice::slice_subrange::<u8>,
            (whole, from, to),
            slice,
        )
}

/// A part of a buffer is borrowed from it and then cut, by the methods of the
/// buffer and of slices alone.
pub(crate) proof fn parts_are_borrowed_from_the_buffer(bytes: Bytes, slice: &[u8])
    requires
        part_of(bytes, slice),
    ensures
        exists|whole: &[u8], from: usize, to: usize|
            call_ensures(bytes_slice, (&bytes,), whole) && #[trigger] call_ensures(
                vstd::slice::slice_subrange::<u8>,
                (whole, from, to),
                slice,
            ),
{
}

/// A part of a buffer is a run of its bytes.
pub proof fn part_is_a_run_of_the_buffer(bytes: Bytes, slice: &[u8])
    requires
        part_of(bytes, slice),
    ensures
        exists|from: int, to: int| #[trigger]
            bytes_content(bytes).subrange(from, to) == slice@,
{
}

/// A fully assembled frame that the sink drains by vectored writes.
pub struct PendingWrite {
    length_prefix: [u8; 4],
    envelope: Vec<u8>,
    body: Option<Bytes>,
    body_len_suffix: [u8; 4],
    cursor: usize,
    total: usize,
}

impl PendingWrite {
    #[verifier::type_invariant]
    spec fn inv(self) -> bool {
        let payload = frame_payload(self.envelope@, body_content(self.body));
        &&& self.length_prefix@ == be_bytes(payload.len())
        &&& self.body_len_suffix@ == le_bytes(body_len(self.body))
        &&& self.total == 4 + payload.len()
        &&& self.cursor < self.total
    }

    /// The frame and how much of it has been written.
    pub closed spec fn view(self) -> InFlight {
        InFlight {
            envelope: self.envelope@,
            body: body_content(self.body),
            cursor: self.cursor as nat,
        }
    }

    /// The body of the frame as it was handed in: the reference-counted buffer
    /// itself, not only the bytes in it.
    pub closed spec fn handle(self) -> Option<Bytes> {
        self.body
    }

    /// The body that a frame shows is the content of the buffer it holds.
    pub proof fn handle_holds_the_body(self)
        ensures
            body_content(self.handle()) == self@.body,
    {
    }

    /// Assembles the frame of an envelope and an optional body, which is moved
    /// in as it is.
    pub fn new(envelope: Vec<u8>, body: Option<Bytes>) -> (pending: PendingWrite)
        requires
            wire_frame(envelope@, body_content(body)).len() <= usize::MAX,
        ensures
            pending@ == (InFlight {
                envelope: envelope@,
                body: body_content(body),
                cursor: 0,
            }),
            pending.handle() == body,
    {
        let body_len: usize = optional_len(&body);
        let inner_total: usize = envelope.len() + body_len + 4;
        let total: usize = 4 + inner_total;
        let length_prefix: [u8; 4] = be_array(low_word(inner_total));
        let body_len_suffix: [u8; 4] = le_array(low_word(body_len));
        PendingWrite { length_prefix, envelope, body, body_len_suffix, cursor: 0, total }
    }

    /// The number of bytes written so far; some are always left.
    pub fn cursor(&self) -> (cursor: usize)
        ensures
            cursor == self@.cursor,
            cursor < self@.wire().len() <= usize::MAX,
    {
        proof {
            use_type_invariant(self);
        }
        self.cursor
    }

    /// The bytes that are still to be written, chunk by chunk, borrowed from
    /// where the frame holds them. At least one byte is left. The slice of the
    /// body, if there is one, is the last but one, and is part of the buffer
    /// that the frame was given.
    pub fn io_slices(&self) -> (slices: Vec<&[u8]>)
        ensures
            self@.cursor < self@.wire().len() <= usize::MAX,
            slices@.len() == self@.chunks().len(),
            forall|i: int|
                0 <= i < slices@.len() ==> (#[trigger] slices@[i])@ == self@.chunks()[i],
            self.handle() matches Some(body) ==> (self@.cursor < 4 + self@.envelope.len()
                + bytes_content(body).len() ==> part_of(body, slices@[slices@.len() - 2])),
    {
        proof {
            use_type_invariant(self);
        }
        let body_len: usize = optional_len(&self.body);
        let off1: usize = 4;
        let off2: usize = off1 + self.envelope.len();
        let off3: usize = off2 + body_len;
        let end: usize = off3 + 4;
        let c: usize = self.cursor;
        let ghost shown = |slice: &[u8]| slice@;
        let ghost goal = self@;

        let mut slices: Vec<&[u8]> = Vec::with_capacity(4);
        if c < off1 {
            slices.push(vstd::slice::slice_subrange(&self.length_prefix, c, 4));
        }
        assert(slices@.map_values(shown) =~= goal.chunk(0, self.length_prefix@));
        if c < off2 {
            let start: usize = if c > off1 { c - off1 } else { 0 };
            slices.push(
                vstd::slice::slice_subrange(self.envelope.as_slice(), start, self.envelope.len()),
            );
        }
        assert(slices@.map_values(shown) =~= goal.chunk(0, self.length_prefix@) + goal.chunk(
            4,
            self.envelope@,
        ));
        if let Some(b) = &self.body {
            if c < off3 {
                let start: usize = if c > off2 { c - off2 } else { 0 };
                slices.push(vstd::slice::slice_subrange(bytes_slice(b), start, b.len()));
            }
        }
        if c < end {
            let start: usize = if c > off3 { c - off3 } else { 0 };
            slices.push(vstd::slice::slice_subrange(&self.body_len_suffix, start, 4));
        }
        let ghost offered = slices@.map_values(shown);
        assert(offered =~= goal.chunks());
        assert forall|i: int| 0 <= i < slices@.len() implies (#[trigger] slices@[i])@
            == goal.chunks()[i] by {
            assert(offered[i] == slices@[i]@);
        }
        slices
    }
}

/// The frame in flight, if there is one.
pub open spec fn in_flight(pending: Option<PendingWrite>) -> Option<InFlight> {
    match pending {
        Some(p) => Some(p@),
        None => None,
    }
}

/// What happened to the flush of a sink since the last decision.
#[derive(Debug)]
pub enum FlushEvent<E> {
    /// The flush was asked for.
    Started,
    /// The writer cannot take bytes now.
    Blocked,
    /// The writer took this many bytes of the offered chunks.
    Written(usize),
    /// The writer failed.
    Failed(E),
}

/// What the flush of a sink does next.
#[derive(Debug)]
pub enum FlushAction<E> {
    /// Offer the remaining chunks to the writer.
    Write,
    /// Nothing is left to write: flush the writer itself and report its answer.
    Flush,
    /// Wait until the writer is ready again.
    Wait,
    /// Give up: the writer took no byte.
    Stall(FrameError),
    /// Give up: the writer failed.
    Fail(E),
}

/// The first action on a frame in flight, or on none.
pub open spec fn next_action<E>(pending: Option<InFlight>) -> FlushAction<E> {
    if pending is Some {
        FlushAction::Write
    } else {
        FlushAction::Flush
    }
}

/// What an event makes of the frame in flight.
pub open spec fn flush_state<E>(pending: Option<InFlight>, event: FlushEvent<E>) -> Option<
    InFlight,
> {
    match (pending, event) {
        (Some(frame), FlushEvent::Written(n)) if n > 0 => frame.advanced(n as nat),
        _ => pending,
    }
}

/// How the flush goes on after an event.
pub open spec fn flush_action<E>(pending: Option<InFlight>, event: FlushEvent<E>) -> FlushAction<
    E,
> {
    match event {
        FlushEvent::Started => next_action(pending),
        FlushEvent::Blocked => FlushAction::Wait,
        FlushEvent::Failed(e) => FlushAction::Fail(e),
        FlushEvent::Written(n) => if n == 0 {
            FlushAction::Stall(FrameError::WriteZero)
        } else {
            next_action(flush_state(pending, event))
        },
    }
}

/// Decides how the flush of a pending frame goes on. The caller performs the
/// action and comes back with what happened. The body stays the buffer it was.
pub fn poll_flush_pending<E>(pending: &mut Option<PendingWrite>, event: FlushEvent<E>) -> (action:
    FlushAction<E>)
    requires
        event matches FlushEvent::Written(n) ==> (in_flight(*old(pending)) matches Some(frame)
            && frame.cursor + n <= usize::MAX),
    ensures
        in_flight(*final(pending)) == flush_state(in_flight(*old(pending)), event),
        action == flush_action(in_flight(*old(pending)), event),
        *final(pending) matches Some(p) ==> (*old(pending) matches Some(q) && p.handle()
            == q.handle()),
{
    match event {
        FlushEvent::Blocked => {
            return FlushAction::Wait;
        },
        FlushEvent::Failed(e) => {
            return FlushAction::Fail(e);
        },
        FlushEvent::Started => {},
        FlushEvent::Written(n) => {
            if n == 0 {
                return FlushAction::Stall(FrameError::WriteZero);
            }
            if let Some(mut pw) = pending.take() {
                proof {
                    use_type_invariant(&pw);
                }
                let cursor: usize = pw.cursor + n;
                if cursor < pw.total {
                    pw.cursor = cursor;
                    *pending = Some(pw);
                }
            }
        },
    }
    if pending.is_some() {
        FlushAction::Write
    } else {
        FlushAction::Flush
    }
}

/// How the close of a sink goes on.
#[derive(Debug)]
pub enum CloseAction<E> {
    /// The flush is not over: wait until the writer is ready again.
    Wait,
    /// Everything is flushed: shut the writer down and report its answer.
    Shutdown,
    /// Give up: the flush failed.
    Fail(E),
}

/// How the close goes on after an answer of the flush; `None` while the flush
/// is not over.
pub open spec fn close_action<E>(flushed: Option<Result<(), E>>) -> CloseAction<E> {
    match flushed {
        None => CloseAction::Wait,
        Some(Ok(())) => CloseAction::Shutdown,
        Some(Err(error)) => CloseAction::Fail(error),
    }
}

/// Decides how the close of a sink goes on: the writer is shut down only after
/// the flush succeeded.
pub fn close_step<E>(flushed: Option<Result<(), E>>) -> (action: CloseAction<E>)
    ensures
        action == close_action(flushed),
{
    match flushed {
        None => CloseAction::Wait,
        Some(Ok(())) => CloseAction::Shutdown,
        Some(Err(error)) => CloseAction::Fail(error),
    }
}

/// An item that a [`ZeroCopySink`] can send.
pub trait ToFrame: Sized {
    /// Serialises the item into the bytes of its envelope, and moves its body
    /// out without copying it.
    fn to_frame(self, fory: &Fory) -> Result<(Vec<u8>, Option<Bytes>), std::io::Error>;
}

/// The frame parts of a message, given what serialising it returned.
pub fn frame_parts(value: Result<Vec<u8>, fory::Error>, body: Option<Bytes>) -> (r: Result<
    (Vec<u8>, Option<Bytes>),
    CodecError,
>)
    ensures
        r == match value {
            Ok(envelope) => Ok::<(Vec<u8>, Option<Bytes>), CodecError>((envelope, body)),
            Err(error) => Err(CodecError::Envelope(error)),
        },
{
    match envelope_result(value) {
        Ok(envelope) => Ok((envelope, body)),
        Err(error) => Err(error),
    }
}

/// Why an item could not be sent.
#[derive(Debug)]
pub enum SendError {
    /// The item could not be serialised.
    Item(std::io::Error),
    /// The item does not make a frame.
    Frame(FrameError),
}

/// What sending the parts of a frame leaves in flight, or why they are refused.
pub open spec fn start_frame(envelope: Seq<u8>, body: Option<Seq<u8>>) -> Result<
    InFlight,
    FrameError,
> {
    let size = frame_payload(envelope, body).len();
    if size > MAX_FRAME_LEN {
        Err(FrameError::FrameTooLarge { size: size as u128 })
    } else {
        Ok(InFlight { envelope, body, cursor: 0 })
    }
}

/// A sink that writes the frames of its items by vectored writes.
pub struct ZeroCopySink<W, Item> {
    writer: W,
    pending: Option<PendingWrite>,
    fory: Arc<Fory>,
    _marker: PhantomData<Item>,
}

impl<W, Item> ZeroCopySink<W, Item> {
    /// The writer behind the sink.
    pub closed spec fn writer(self) -> W {
        self.writer
    }

    /// The frame in flight, if there is one.
    pub closed spec fn pending(self) -> Option<PendingWrite> {
        self.pending
    }

    /// The registry that items are serialised with.
    pub closed spec fn registry(self) -> Fory {
        *self.fory
    }

    /// A sink on `writer` with nothing in flight.
    pub fn new(writer: W, fory: Arc<Fory>) -> (sink: Self)
        ensures
            sink.writer() == writer,
            sink.pending() is None,
            sink.registry() == *fory,
    {
        ZeroCopySink { writer, pending: None, fory, _marker: PhantomData }
    }

    /// Whether the frame in flight has to be flushed before another item is
    /// taken.
    pub fn needs_flush(&self) -> (needed: bool)
        ensures
            needed == self.pending() is Some,
    {
        self.pending.is_some()
    }

    /// The frame in flight and the writer, borrowed side by side.
    pub fn parts(&mut self) -> (parts: (&mut Option<PendingWrite>, &mut W))
        ensures
            *parts.0 == old(self).pending(),
            *parts.1 == old(self).writer(),
            final(self).pending() == *final(parts.0),
            final(self).writer() == *final(parts.1),
            final(self).registry() == old(self).registry(),
    {
        (&mut self.pending, &mut self.writer)
    }

    /// Puts a frame in flight, in place of any other. The body is queued as the
    /// buffer that was given, not as a copy.
    pub fn start_frame(&mut self, envelope: Vec<u8>, body: Option<Bytes>) -> (r: Result<
        (),
        FrameError,
    >)
        ensures
            final(self).writer() == old(self).writer(),
            final(self).registry() == old(self).registry(),
            match start_frame(envelope@, body_content(body)) {
                Ok(frame) => {
                    &&& r is Ok
                    &&& in_flight(final(self).pending()) == Some(frame)
                    &&& final(self).pending()->Some_0.handle() == body
                },
                Err(error) => {
                    &&& r == Err::<(), FrameError>(error)
                    &&& final(self).pending() == old(self).pending()
                },
            },
    {
        let inner_total: u128 = envelope.len() as u128 + optional_len(&body) as u128 + 4;
        if inner_total > MAX_FRAME_LEN as u128 {
            return Err(FrameError::FrameTooLarge { size: inner_total });
        }
        self.pending = Some(PendingWrite::new(envelope, body));
        Ok(())
    }
}

impl<W, Item: ToFrame> ZeroCopySink<W, Item> {
    /// Serialises an item and puts its frame in flight. The body is queued as
    /// the buffer that the item handed out, not as a copy.
    pub fn start_send(&mut self, item: Item) -> (r: Result<(), SendError>)
        ensures
            final(self).writer() == old(self).writer(),
            final(self).registry() == old(self).registry(),
            exists|parts: Result<(Vec<u8>, Option<Bytes>), std::io::Error>| #[trigger]
                call_ensures(Item::to_frame, (item, &old(self).registry()), parts) && match parts {
                    Ok((envelope, body)) => match start_frame(envelope@, body_content(body)) {
                        Ok(frame) => {
                            &&& r is Ok
                            &&& in_flight(final(self).pending()) == Some(frame)
                            &&& final(self).pending()->Some_0.handle() == body
                        },
                        Err(error) => {
                            &&& r == Err::<(), SendError>(SendError::Frame(error))
                            &&& final(self).pending() == old(self).pending()
                        },
                    },
                    Err(error) => {
                        &&& r == Err::<(), SendError>(SendError::Item(error))
                        &&& final(self).pending() == old(self).pending()
                    },
                },
    {
        let fory: Arc<Fory> = share(&self.fory);
        match item.to_frame(&fory) {
            Ok((envelope, body)) => match self.start_frame(envelope, body) {
                Ok(()) => Ok(()),
                Err(error) => Err(SendError::Frame(error)),
            },
            Err(error) => Err(SendError::Item(error)),
        }
    }
}

} // verus!
