//! The bookkeeping of a reader that may produce more than its caller has room for.
//!
//! What does not fit into the caller's buffer is kept and handed out by the
//! next reads. A producer may also write nothing at all: it is then asked
//! again, until it has written something or has marked the end of the stream.

use vstd::prelude::*;
use vstd::slice::slice_subrange;
use crate::text::append_bytes;

verus! {

/// How one attempt to read came out.
#[derive(Debug, Clone, Copy, PartialEq, Eq, Structural)]
pub enum ReadStatus {
    /// Nothing can be said yet: the attempt will be made again later.
    Pending,
    /// The attempt failed.
    Failed,
    /// The attempt returned.
    Ready,
}

/// What to do after a producer has been asked once.
#[derive(Debug, Clone, Copy, PartialEq, Eq, Structural)]
pub enum Verdict {
    /// Hand the status on to the caller.
    Return(ReadStatus),
    /// Ask the producer again.
    Again,
}

/// The two places that a producer's bytes go to: the caller's buffer as far
/// as it has room, and the overflow for the rest.
#[derive(Debug)]
pub struct SmartBuf {
    real: Vec<u8>,
    room: usize,
    buffer: Vec<u8>,
    is_empty: bool,
    is_eof: bool,
}

/// What a `SmartBuf` holds.
pub struct SmartBufView {
    /// The bytes written to the caller's buffer.
    pub real: Seq<u8>,
    /// The room that the caller's buffer has left.
    pub room: nat,
    /// The bytes kept for later reads.
    pub buffer: Seq<u8>,
    /// Whether nothing has been written yet.
    pub is_empty: bool,
    /// Whether the end of the stream has been marked.
    pub is_eof: bool,
}

impl View for SmartBuf {
    type V = SmartBufView;

    closed spec fn view(&self) -> SmartBufView {
        SmartBufView {
            real: self.real@,
            room: self.room as nat,
            buffer: self.buffer@,
            is_empty: self.is_empty,
            is_eof: self.is_eof,
        }
    }
}

/// The lesser of two numbers.
pub open spec fn least(a: int, b: int) -> int {
    if a <= b {
        a
    } else {
        b
    }
}

impl SmartBuf {
    /// An empty pair of places, over a caller's buffer with `room` bytes left.
    pub fn new(room: usize) -> (r: SmartBuf)
        ensures
            r@ == (SmartBufView {
                real: Seq::empty(),
                room: room as nat,
                buffer: Seq::empty(),
                is_empty: true,
                is_eof: false,
            }),
    {
        SmartBuf { real: Vec::new(), room, buffer: Vec::new(), is_empty: true, is_eof: false }
    }

    /// Writes `slice`: to the caller's buffer as far as it has room, and to
    /// the overflow from there on. No byte is lost and none changes its place
    /// in the stream.
    pub fn put_slice(&mut self, slice: &[u8])
        ensures
            final(self)@.real == old(self)@.real + slice@.subrange(
                0,
                least(old(self)@.room as int, slice@.len() as int),
            ),
            final(self)@.buffer == old(self)@.buffer + slice@.subrange(
                least(old(self)@.room as int, slice@.len() as int),
                slice@.len() as int,
            ),
            final(self)@.room == old(self)@.room - least(
                old(self)@.room as int,
                slice@.len() as int,
            ),
            final(self)@.is_empty == (old(self)@.is_empty && slice@.len() == 0),
            final(self)@.is_eof == old(self)@.is_eof,
    {
        if slice.len() == 0 {
            assert(slice@.subrange(0, 0) =~= Seq::<u8>::empty());
            assert(self@.real + Seq::<u8>::empty() =~= self@.real);
            assert(self@.buffer + Seq::<u8>::empty() =~= self@.buffer);
            return;
        }
        let mid = self.room;
        if mid > slice.len() {
            append_bytes(&mut self.real, slice);
            self.room = mid - slice.len();
            assert(slice@.subrange(0, slice@.len() as int) =~= slice@);
            assert(slice@.subrange(slice@.len() as int, slice@.len() as int) =~= Seq::<
                u8,
            >::empty());
            assert(self.buffer@ + Seq::<u8>::empty() =~= self.buffer@);
        } else {
            append_bytes(&mut self.real, slice_subrange(slice, 0, mid));
            append_bytes(&mut self.buffer, slice_subrange(slice, mid, slice.len()));
            self.room = 0;
        }
        self.is_empty = false;
    }

    /// Marks the end of the stream.
    pub fn eof(&mut self)
        ensures
            final(self)@ == (SmartBufView { is_eof: true, ..old(self)@ }),
    {
        self.is_eof = true;
    }

    /// Takes in what another reader read into the room that is left: `read`
    /// holds the bytes it produced, which are no more than the room.
    ///
    /// Returns `None` where the other reader is at its end: it had room and
    /// produced nothing. Otherwise returns the bytes taken in, which now stand
    /// at the end of the caller's buffer.
    pub fn fill_using(&mut self, read: &[u8]) -> (r: Option<&[u8]>)
        requires
            read@.len() <= old(self)@.room,
        ensures
            r is None <==> read@.len() == 0 && old(self)@.room != 0,
            r is None ==> final(self)@ == old(self)@,
            r matches Some(taken) ==> taken@ == read@ && final(self)@ == (SmartBufView {
                real: old(self)@.real + read@,
                room: (old(self)@.room - read@.len()) as nat,
                is_empty: old(self)@.is_empty && read@.len() == 0,
                ..old(self)@
            }),
    {
        let capacity = self.room;
        let filled = read.len();
        if filled == 0 && capacity != 0 {
            return None;
        }
        if filled != 0 {
            append_bytes(&mut self.real, read);
            self.room = capacity - filled;
            self.is_empty = false;
        } else {
            assert(self.real@ + read@ =~= self.real@);
        }
        let end = self.real.len();
        let taken = slice_subrange(self.real.as_slice(), end - filled, end);
        assert(taken@ =~= read@);
        Some(taken)
    }

    /// What to do after the producer has been asked once and answered `status`:
    /// a producer that is pending or has failed is reported as such; one that
    /// wrote something, or marked the end, ends the read; one that did
    /// neither is asked again.
    pub fn verdict(&self, status: ReadStatus) -> (r: Verdict)
        ensures
            r == match status {
                ReadStatus::Pending => Verdict::Return(ReadStatus::Pending),
                ReadStatus::Failed => Verdict::Return(ReadStatus::Failed),
                ReadStatus::Ready => if !self@.is_empty || self@.is_eof {
                    Verdict::Return(ReadStatus::Ready)
                } else {
                    Verdict::Again
                },
            },
    {
        match status {
            ReadStatus::Pending => Verdict::Return(ReadStatus::Pending),
            ReadStatus::Failed => Verdict::Return(ReadStatus::Failed),
            ReadStatus::Ready => {
                if !self.is_empty {
                    Verdict::Return(ReadStatus::Ready)
                } else if self.is_eof {
                    Verdict::Return(ReadStatus::Ready)
                } else {
                    Verdict::Again
                }
            },
        }
    }
}

/// A reader over a producer, with the overflow of earlier reads.
#[derive(Debug)]
pub struct SmartReader<T> {
    inner: T,
    buffer: Vec<u8>,
    start: usize,
}

impl<T> SmartReader<T> {
    /// The bytes that earlier reads left over and later reads have not taken.
    pub closed spec fn pending(&self) -> Seq<u8> {
        if self.start <= self.buffer@.len() {
            self.buffer@.subrange(self.start as int, self.buffer@.len() as int)
        } else {
            Seq::empty()
        }
    }

    /// The producer.
    pub closed spec fn producer(&self) -> T {
        self.inner
    }

    /// A reader over `inner`, with nothing left over.
    pub fn new(inner: T) -> (r: Self)
        ensures
            r.pending() == Seq::<u8>::empty(),
            r.producer() == inner,
    {
        let r = SmartReader { inner, buffer: Vec::new(), start: 0 };
        assert(r.pending() =~= Seq::<u8>::empty());
        r
    }

    /// The producer, to be asked.
    pub fn inner_mut(&mut self) -> (r: &mut T)
        ensures
            *r == old(self).producer(),
            final(self).producer() == *final(r),
            final(self).pending() == old(self).pending(),
    {
        &mut self.inner
    }

    /// Answers a read from what is left over, for a caller with `room` bytes.
    ///
    /// Returns the bytes to hand out: as much of the leftover as the caller
    /// has room for, from its front; the rest stays. Returns `None` where the
    /// caller has room and nothing is left over, so that the producer must be
    /// asked.
    pub fn take_pending(&mut self, room: usize) -> (r: Option<Vec<u8>>)
        ensures
            final(self).producer() == old(self).producer(),
            r is None <==> room != 0 && old(self).pending().len() == 0,
            r is None ==> final(self).pending() == old(self).pending(),
            r matches Some(out) ==> {
                let n = least(room as int, old(self).pending().len() as int);
                &&& out@ == old(self).pending().subrange(0, n)
                &&& final(self).pending() == old(self).pending().subrange(
                    n,
                    old(self).pending().len() as int,
                )
            },
    {
        let mut out: Vec<u8> = Vec::new();
        if room == 0 {
            assert(self.pending().subrange(0, 0) =~= out@);
            assert(self.pending().subrange(0, self.pending().len() as int) =~= self.pending());
            return Some(out);
        }
        if self.start >= self.buffer.len() {
            assert(self.pending() =~= Seq::<u8>::empty());
            return None;
        }
        let buffered = self.buffer.len() - self.start;
        let to_write = if buffered < room {
            buffered
        } else {
            room
        };
        let ghost before = self.pending();
        append_bytes(
            &mut out,
            slice_subrange(self.buffer.as_slice(), self.start, self.start + to_write),
        );
        self.start = self.start + to_write;
        assert(out@ =~= before.subrange(0, to_write as int));
        assert(self.pending() =~= before.subrange(to_write as int, before.len() as int));
        Some(out)
    }

    /// Keeps `overflow` as the leftover, once what was there has been handed out.
    pub fn keep(&mut self, overflow: Vec<u8>)
        requires
            old(self).pending().len() == 0,
        ensures
            final(self).producer() == old(self).producer(),
            final(self).pending() == overflow@,
    {
        self.start = 0;
        self.buffer = overflow;
        assert(self.pending() =~= overflow@);
    }
}

impl SmartBuf {
    /// Ends the use of the pair: the bytes for the caller's buffer, and the
    /// overflow for the reader to keep.
    pub fn into_parts(self) -> (r: (Vec<u8>, Vec<u8>))
        ensures
            r.0@ == self@.real,
            r.1@ == self@.buffer,
    {
        (self.real, self.buffer)
    }

    /// The room that the caller's buffer has left.
    pub fn remaining(&self) -> (r: usize)
        ensures
            r == self@.room,
    {
        self.room
    }
}

/// A reader that asks its inner reader until the caller's buffer is full.
#[derive(Debug)]
pub struct Energetic<T> {
    inner: T,
}

/// What an `Energetic` reader does after one attempt of its inner reader.
#[derive(Debug, Clone, Copy, PartialEq, Eq, Structural)]
pub enum Step {
    /// Hand the status on to the caller.
    Return(ReadStatus),
    /// Ask the inner reader again, with `previous` bytes of room left.
    Again { previous: usize },
}

impl<T> Energetic<T> {
    /// The inner reader.
    pub closed spec fn reader(&self) -> T {
        self.inner
    }

    /// A reader over `inner`.
    pub fn new(inner: T) -> (r: Self)
        ensures
            r.reader() == inner,
    {
        Energetic { inner }
    }

    /// The inner reader, to be asked.
    pub fn inner_mut(&mut self) -> (r: &mut T)
        ensures
            *r == old(self).reader(),
            final(self).reader() == *final(r),
    {
        &mut self.inner
    }

    /// What to do after the inner reader has been asked with `previous` bytes
    /// of room, has answered `status`, and has left `remaining` bytes of room;
    /// `is_pending` tells whether nothing has been read so far.
    ///
    /// A pending inner reader makes the read pending only while nothing has
    /// been read; after that the read ends with what there is. A failure is
    /// handed on. An inner reader that returned ends the read where it filled
    /// the buffer or read nothing; otherwise it is asked again, with less room
    /// than before.
    pub fn step(previous: usize, is_pending: bool, status: ReadStatus, remaining: usize) -> (r:
        Step)
        requires
            previous != 0,
            remaining <= previous,
        ensures
            r == match status {
                ReadStatus::Pending => if is_pending {
                    Step::Return(ReadStatus::Pending)
                } else {
                    Step::Return(ReadStatus::Ready)
                },
                ReadStatus::Failed => Step::Return(ReadStatus::Failed),
                ReadStatus::Ready => if remaining == previous || remaining == 0 {
                    Step::Return(ReadStatus::Ready)
                } else {
                    Step::Again { previous: remaining }
                },
            },
            r matches Step::Again { previous: next } ==> 0 < next < previous,
    {
        match status {
            ReadStatus::Pending => {
                if is_pending {
                    Step::Return(ReadStatus::Pending)
                } else {
                    Step::Return(ReadStatus::Ready)
                }
            },
            ReadStatus::Failed => Step::Return(ReadStatus::Failed),
            ReadStatus::Ready => {
                if remaining == previous || remaining == 0 {
                    Step::Return(ReadStatus::Ready)
                } else {
                    Step::Again { previous: remaining }
                }
            },
        }
    }
}

} // verus!
