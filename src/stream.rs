//! Seekable byte streams: the capabilities that readers and writers need,
//! and the in-memory backings that have them.
use crate::encoding::overwrite;
use crate::error::BinaryError;
use vstd::prelude::*;

verus! {

/// A byte store with a cursor that can be moved.
///
/// A stream is modelled by the bytes it holds and the position of its
/// cursor, which may lie past the end of the data.
///
/// A backing whose bytes live outside the program (a file) keeps the
/// defaults of the three model functions: its bytes and cursor are unknown
/// here, and it may fail at any time.
pub trait SeekStream {
    /// The bytes the stream holds.
    closed spec fn data(&self) -> Seq<u8> {
        arbitrary()
    }

    /// Where the next read or write starts.
    closed spec fn position(&self) -> nat {
        arbitrary()
    }

    /// Whether the backing store never fails on its own, so that an
    /// operation fails only where its contract says that it must (true of
    /// memory, false of a file).
    open spec fn infallible(&self) -> bool {
        false
    }

    /// Move the cursor to `to`, which may lie past the end of the data.
    fn seek(&mut self, to: usize) -> (r: Result<usize, BinaryError>)
        ensures
            final(self).infallible() == old(self).infallible(),
            final(self).data() == old(self).data(),
            r matches Ok(p) ==> p == to && final(self).position() == to,
            old(self).infallible() ==> r is Ok,
    ;

    /// The position of the cursor.
    fn tell(&mut self) -> (r: Result<usize, BinaryError>)
        ensures
            final(self).infallible() == old(self).infallible(),
            final(self).data() == old(self).data(),
            final(self).position() == old(self).position(),
            r matches Ok(p) ==> p == old(self).position(),
            old(self).infallible() ==> r is Ok,
    ;

    /// The number of bytes the stream holds.
    fn len(&self) -> (r: Result<usize, BinaryError>)
        ensures
            r matches Ok(n) ==> n == self.data().len(),
            self.infallible() ==> r is Ok,
    ;
}

/// Whether `n` bytes remain after the cursor.
pub open spec fn fits<S: SeekStream + ?Sized>(s: &S, n: nat) -> bool {
    s.position() + n <= s.data().len()
}

/// The `n` bytes after the cursor.
pub open spec fn ahead<S: SeekStream + ?Sized>(s: &S, n: nat) -> Seq<u8> {
    s.data().subrange(s.position() as int, (s.position() + n) as int)
}

/// What a write of `bytes` that reports `count` on success did, from
/// `before` to `after`: on success the bytes lie at the old cursor and the
/// cursor has moved past them; on a stream that never fails by itself it
/// succeeded.
pub open spec fn write_outcome<S: SeekStream>(
    before: S,
    after: S,
    bytes: Seq<u8>,
    count: nat,
    r: Result<usize, BinaryError>,
) -> bool {
    &&& after.infallible() == before.infallible()
    &&& r matches Ok(n) ==> {
        &&& n == count
        &&& after.data() == overwrite(before.data(), before.position(), bytes)
        &&& after.position() == before.position() + bytes.len()
    }
    &&& before.infallible() ==> r is Ok
}

/// What a read of `n` bytes did, from `before` to `after`, whatever the value
/// read: the data stays; a success needs `n` bytes after the cursor and moves
/// past them; where they are missing it fails, and a stream that never fails
/// by itself fails then only, with `ReadPastEof` and the cursor unmoved.
pub open spec fn read_outcome<S: SeekStream, T>(
    before: S,
    after: S,
    n: nat,
    r: Result<T, BinaryError>,
) -> bool {
    &&& after.data() == before.data()
    &&& after.infallible() == before.infallible()
    &&& r is Ok ==> fits(&before, n) && after.position() == before.position() + n
    &&& !fits(&before, n) ==> r is Err
    &&& before.infallible() && fits(&before, n) ==> r is Ok
    &&& before.infallible() && r is Err ==> {
        &&& r == Err::<T, BinaryError>(BinaryError::ReadPastEof)
        &&& after.position() == before.position()
    }
}

/// A stream that can be read: reads are all or nothing.
pub trait ReadStream: SeekStream {
    /// Fill `buffer` with the bytes after the cursor and move past them;
    /// fail with `ReadPastEof` where fewer remain.
    fn read(&mut self, buffer: &mut [u8]) -> (r: Result<usize, BinaryError>)
        ensures
            final(self).infallible() == old(self).infallible(),
            final(self).data() == old(self).data(),
            final(buffer)@.len() == old(buffer)@.len(),
            r matches Ok(n) ==> {
                &&& n == old(buffer)@.len()
                &&& fits(old(self), n as nat)
                &&& final(buffer)@ == ahead(old(self), n as nat)
                &&& final(self).position() == old(self).position() + n
            },
            !fits(old(self), old(buffer)@.len()) ==> r is Err,
            old(self).infallible() && fits(old(self), old(buffer)@.len()) ==> r is Ok,
            old(self).infallible() && r is Err ==> {
                &&& r == Err::<usize, BinaryError>(BinaryError::ReadPastEof)
                &&& final(self).position() == old(self).position()
            },
    ;
}

/// A stream that can be written: a write overwrites what lies under the
/// cursor and extends the data past its end.
pub trait WriteStream: SeekStream {
    /// Write `bytes` at the cursor and move past them.
    fn write(&mut self, bytes: &[u8]) -> (r: Result<usize, BinaryError>)
        requires
            old(self).position() + bytes@.len() <= usize::MAX,
        ensures
            final(self).infallible() == old(self).infallible(),
            r matches Ok(n) ==> {
                &&& n == bytes@.len()
                &&& final(self).data() == overwrite(old(self).data(), old(self).position(), bytes@)
                &&& final(self).position() == old(self).position() + bytes@.len()
            },
            old(self).infallible() ==> r is Ok,
    ;
}

/// How a file-backed stream opens its file.
#[derive(Clone, Copy, Debug, PartialEq, Eq, Structural)]
pub enum OpenType {
    /// Create the file, or truncate it where it exists.
    OpenAndCreate,
    /// Open an existing file for reading.
    Open,
}

/// A growable in-memory byte buffer with a cursor.
pub struct MemoryStream {
    buffer: Vec<u8>,
    position: usize,
}

impl MemoryStream {
    /// An empty buffer.
    pub fn new() -> (r: Self)
        ensures
            r.data() == Seq::<u8>::empty(),
            r.position() == 0,
    {
        MemoryStream { buffer: Vec::new(), position: 0 }
    }
}

impl SeekStream for MemoryStream {
    closed spec fn data(&self) -> Seq<u8> {
        self.buffer@
    }

    closed spec fn position(&self) -> nat {
        self.position as nat
    }

    open spec fn infallible(&self) -> bool {
        true
    }

    fn seek(&mut self, to: usize) -> (r: Result<usize, BinaryError>) {
        self.position = to;
        Ok(self.position)
    }

    fn tell(&mut self) -> (r: Result<usize, BinaryError>) {
        Ok(self.position)
    }

    fn len(&self) -> (r: Result<usize, BinaryError>) {
        Ok(self.buffer.len())
    }
}

impl ReadStream for MemoryStream {
    fn read(&mut self, buffer: &mut [u8]) -> (r: Result<usize, BinaryError>) {
        copy_out(self.buffer.as_slice(), &mut self.position, buffer)
    }
}

impl WriteStream for MemoryStream {
    fn write(&mut self, bytes: &[u8]) -> (r: Result<usize, BinaryError>) {
        let ghost old_data = self.buffer@;
        let end: usize = self.position + bytes.len();
        while self.buffer.len() < end
            invariant
                end == self.position + bytes@.len(),
                old_data.len() <= self.buffer@.len(),
                self.buffer@.len() <= if end > old_data.len() {
                    end as int
                } else {
                    old_data.len() as int
                },
                forall|i: int| 0 <= i < old_data.len() ==> #[trigger] self.buffer@[i] == old_data[i],
                forall|i: int|
                    old_data.len() <= i < self.buffer@.len() ==> #[trigger] self.buffer@[i] == 0u8,
            decreases end - self.buffer@.len(),
        {
            self.buffer.push(0u8);
        }
        let mut i: usize = 0;
        while i < bytes.len()
            invariant
                end == self.position + bytes@.len(),
                i <= bytes@.len(),
                self.buffer@.len() == if end > old_data.len() {
                    end as int
                } else {
                    old_data.len() as int
                },
                forall|k: int|
                    0 <= k < self.buffer@.len() ==> #[trigger] self.buffer@[k] == if self.position
                        <= k < self.position + i {
                        bytes@[k - self.position]
                    } else if k < old_data.len() {
                        old_data[k]
                    } else {
                        0u8
                    },
            decreases bytes@.len() - i,
        {
            self.buffer.set(self.position + i, bytes[i]);
            i = i + 1;
        }
        assert(self.buffer@ =~= overwrite(old_data, self.position as nat, bytes@));
        self.position = end;
        Ok(bytes.len())
    }
}

impl From<Vec<u8>> for MemoryStream {
    /// A buffer that starts out holding `buffer`, with the cursor at its start.
    fn from(buffer: Vec<u8>) -> (r: Self)
        ensures
            r.data() == buffer@,
            r.position() == 0,
    {
        MemoryStream { buffer, position: 0 }
    }
}

impl vstd::std_specs::convert::FromSpecImpl<Vec<u8>> for MemoryStream {
    open spec fn obeys_from_spec() -> bool {
        true
    }

    closed spec fn from_spec(v: Vec<u8>) -> Self {
        MemoryStream { buffer: v, position: 0 }
    }
}

impl From<MemoryStream> for Vec<u8> {
    /// The bytes the buffer holds.
    fn from(stream: MemoryStream) -> (r: Self)
        ensures
            r@ == stream.data(),
    {
        stream.buffer
    }
}

impl vstd::std_specs::convert::FromSpecImpl<MemoryStream> for Vec<u8> {
    open spec fn obeys_from_spec() -> bool {
        true
    }

    closed spec fn from_spec(v: MemoryStream) -> Self {
        v.buffer
    }
}

/// A read-only stream over borrowed bytes.
pub struct SliceStream<'a> {
    buffer: &'a [u8],
    position: usize,
}

impl<'a> SliceStream<'a> {
    /// A stream over `buffer`, with the cursor at its start.
    pub fn new(buffer: &'a [u8]) -> (r: Self)
        ensures
            r.data() == buffer@,
            r.position() == 0,
    {
        SliceStream { buffer, position: 0 }
    }
}

impl<'a> SeekStream for SliceStream<'a> {
    closed spec fn data(&self) -> Seq<u8> {
        self.buffer@
    }

    closed spec fn position(&self) -> nat {
        self.position as nat
    }

    open spec fn infallible(&self) -> bool {
        true
    }

    fn seek(&mut self, to: usize) -> (r: Result<usize, BinaryError>) {
        self.position = to;
        Ok(self.position)
    }

    fn tell(&mut self) -> (r: Result<usize, BinaryError>) {
        Ok(self.position)
    }

    fn len(&self) -> (r: Result<usize, BinaryError>) {
        Ok(self.buffer.len())
    }
}

impl<'a> ReadStream for SliceStream<'a> {
    fn read(&mut self, buffer: &mut [u8]) -> (r: Result<usize, BinaryError>) {
        copy_out(self.buffer, &mut self.position, buffer)
    }
}

/// Copy the bytes after `*position` in `source` into `buffer` and move the
/// position past them, or fail with `ReadPastEof`, touching nothing.
fn copy_out(source: &[u8], position: &mut usize, buffer: &mut [u8]) -> (r: Result<
    usize,
    BinaryError,
>)
    ensures
        final(buffer)@.len() == old(buffer)@.len(),
        old(position) + old(buffer)@.len() <= source@.len() ==> {
            &&& r == Ok::<usize, BinaryError>(old(buffer)@.len() as usize)
            &&& final(buffer)@ == source@.subrange(
                *old(position) as int,
                old(position) + old(buffer)@.len(),
            )
            &&& *final(position) == old(position) + old(buffer)@.len()
        },
        old(position) + old(buffer)@.len() > source@.len() ==> {
            &&& r == Err::<usize, BinaryError>(BinaryError::ReadPastEof)
            &&& *final(position) == *old(position)
        },
{
    let n: usize = buffer.len();
    if *position > source.len() || n > source.len() - *position {
        return Err(BinaryError::ReadPastEof);
    }
    let start: usize = *position;
    let total: usize = source.len();
    let mut idx: usize = 0;
    while idx < n
        invariant
            n == buffer@.len(),
            total == source@.len(),
            start + n <= total,
            idx <= n,
            forall|k: int| 0 <= k < idx ==> #[trigger] buffer@[k] == source@[start + k],
        decreases n - idx,
    {
        buffer[idx] = source[start + idx];
        idx = idx + 1;
    }
    assert(buffer@ =~= source@.subrange(start as int, start + n));
    *position = start + n;
    Ok(n)
}

} // verus!
