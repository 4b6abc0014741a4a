//! Typed writes of primitive values to a writable stream.
use crate::encoding::{
    lemma_overwrite_concat, lemma_pow128_values, lemma_varint_len_bound, overwrite, uint_bytes,
    uint_to_bytes, varint_bytes, Endian,
};
use crate::error::BinaryError;
use crate::stream::{write_outcome, SeekStream, WriteStream};
use vstd::prelude::*;
use vstd::utf8::encode_utf8;

verus! {

/// The bytes of a string with its UTF-8 length first, written in 8 bytes.
pub open spec fn string_bytes(s: Seq<char>, endian: Endian) -> Seq<u8> {
    uint_bytes(encode_utf8(s).len(), 8, endian) + encode_utf8(s)
}

/// The bytes of a string with its UTF-8 length first, 7-bit encoded.
pub open spec fn varint_string_bytes(s: Seq<char>) -> Seq<u8> {
    varint_bytes(encode_utf8(s).len()) + encode_utf8(s)
}

/// Writes typed values to a stream that it borrows, in a byte order that can
/// be swapped between writes.
pub struct BinaryWriter<'a, S: WriteStream> {
    /// The stream written to.
    pub stream: &'a mut S,
    /// The byte order of the next write.
    pub endian: Endian,
}

impl<'a, S: WriteStream> SeekStream for BinaryWriter<'a, S> {
    open spec fn data(&self) -> Seq<u8> {
        self.stream.data()
    }

    open spec fn position(&self) -> nat {
        self.stream.position()
    }

    open spec fn infallible(&self) -> bool {
        self.stream.infallible()
    }

    fn seek(&mut self, to: usize) -> (r: Result<usize, BinaryError>)
        ensures
            final(self).endian == old(self).endian,
            *final(final(self).stream) == *final(old(self).stream),
    {
        self.stream.seek(to)
    }

    fn tell(&mut self) -> (r: Result<usize, BinaryError>)
        ensures
            final(self).endian == old(self).endian,
            *final(final(self).stream) == *final(old(self).stream),
    {
        self.stream.tell()
    }

    fn len(&self) -> (r: Result<usize, BinaryError>) {
        self.stream.len()
    }
}

impl<'a, S: WriteStream> BinaryWriter<'a, S> {
    /// A writer over `stream` in the given byte order.
    pub fn new(stream: &'a mut S, endian: Endian) -> (w: Self)
        ensures
            *w.stream == *old(stream),
            w.endian == endian,
            *final(stream) == *final(w.stream),
    {
        BinaryWriter { stream, endian }
    }

    /// Flip the byte order between big and little endian.
    pub fn swap_endianness(&mut self)
        ensures
            final(self).endian == old(self).endian.flipped(),
            *final(self).stream == *old(self).stream,
            *final(final(self).stream) == *final(old(self).stream),
    {
        if self.endian == Endian::Big {
            self.endian = Endian::Little;
        } else {
            self.endian = Endian::Big;
        }
    }

    /// Write the `n` low bytes of `value` in the current byte order.
    fn write_uint(&mut self, value: u64, n: usize) -> (r: Result<usize, BinaryError>)
        requires
            n <= 8,
            old(self).position() + n <= usize::MAX,
        ensures
            final(self).endian == old(self).endian,
            *final(final(self).stream) == *final(old(self).stream),
            write_outcome(
                *old(self),
                *final(self),
                uint_bytes(value as nat, n as nat, old(self).endian),
                n as nat,
                r,
            ),
    {
        let bytes = uint_to_bytes(value, n, self.endian);
        self.stream.write(bytes.as_slice())
    }

    /// Write raw bytes, with no length in front.
    pub fn write_bytes(&mut self, data: &[u8]) -> (r: Result<usize, BinaryError>)
        requires
            old(self).position() + data@.len() <= usize::MAX,
        ensures
            final(self).endian == old(self).endian,
            *final(final(self).stream) == *final(old(self).stream),
            write_outcome(*old(self), *final(self), data@, data@.len(), r),
    {
        self.stream.write(data)
    }

    /// Write `count` copies of `fill_value`.
    pub fn write_bytes_with_value(&mut self, count: usize, fill_value: u8) -> (r: Result<
        usize,
        BinaryError,
    >)
        requires
            old(self).position() + count <= usize::MAX,
        ensures
            final(self).endian == old(self).endian,
            *final(final(self).stream) == *final(old(self).stream),
            write_outcome(
                *old(self),
                *final(self),
                Seq::new(count as nat, |i: int| fill_value),
                count as nat,
                r,
            ),
    {
        let mut buff: Vec<u8> = Vec::with_capacity(count);
        let mut i: usize = 0;
        while i < count
            invariant
                i <= count,
                buff@ == Seq::new(i as nat, |k: int| fill_value),
            decreases count - i,
        {
            buff.push(fill_value);
            i = i + 1;
            assert(buff@ =~= Seq::new(i as nat, |k: int| fill_value));
        }
        self.write_bytes(buff.as_slice())
    }

    /// Write a `u8`.
    pub fn write_u8(&mut self, value: u8) -> (r: Result<usize, BinaryError>)
        requires
            old(self).position() + 1 <= usize::MAX,
        ensures
            final(self).endian == old(self).endian,
            *final(final(self).stream) == *final(old(self).stream),
            write_outcome(*old(self), *final(self), seq![value], 1, r),
    {
        proof {
            crate::encoding::lemma_uint_bytes_one(value, self.endian);
        }
        self.write_uint(value as u64, 1)
    }

    /// Write an `i8` as its two's complement byte.
    pub fn write_i8(&mut self, value: i8) -> (r: Result<usize, BinaryError>)
        requires
            old(self).position() + 1 <= usize::MAX,
        ensures
            final(self).endian == old(self).endian,
            *final(final(self).stream) == *final(old(self).stream),
            write_outcome(*old(self), *final(self), seq![value as u8], 1, r),
    {
        self.write_u8(value as u8)
    }

    /// Write a `bool` as one byte, `1` or `0`.
    pub fn write_bool(&mut self, value: bool) -> (r: Result<usize, BinaryError>)
        requires
            old(self).position() + 1 <= usize::MAX,
        ensures
            final(self).endian == old(self).endian,
            *final(final(self).stream) == *final(old(self).stream),
            write_outcome(
                *old(self),
                *final(self),
                seq![
                    if value {
                        1u8
                    } else {
                        0u8
                    },
                ],
                1,
                r,
            ),
    {
        self.write_u8(if value { 1 } else { 0 })
    }

    /// Write a `u16` in 2 bytes.
    pub fn write_u16(&mut self, value: u16) -> (r: Result<usize, BinaryError>)
        requires
            old(self).position() + 2 <= usize::MAX,
        ensures
            final(self).endian == old(self).endian,
            *final(final(self).stream) == *final(old(self).stream),
            write_outcome(
                *old(self),
                *final(self),
                uint_bytes(value as nat, 2, old(self).endian),
                2,
                r,
            ),
    {
        self.write_uint(value as u64, 2)
    }

    /// Write an `i16` in 2 bytes, two's complement.
    pub fn write_i16(&mut self, value: i16) -> (r: Result<usize, BinaryError>)
        requires
            old(self).position() + 2 <= usize::MAX,
        ensures
            final(self).endian == old(self).endian,
            *final(final(self).stream) == *final(old(self).stream),
            write_outcome(
                *old(self),
                *final(self),
                uint_bytes((value as u16) as nat, 2, old(self).endian),
                2,
                r,
            ),
    {
        self.write_uint(value as u16 as u64, 2)
    }

    /// Write a `u32` in 4 bytes.
    pub fn write_u32(&mut self, value: u32) -> (r: Result<usize, BinaryError>)
        requires
            old(self).position() + 4 <= usize::MAX,
        ensures
            final(self).endian == old(self).endian,
            *final(final(self).stream) == *final(old(self).stream),
            write_outcome(
                *old(self),
                *final(self),
                uint_bytes(value as nat, 4, old(self).endian),
                4,
                r,
            ),
    {
        self.write_uint(value as u64, 4)
    }

    /// Write an `i32` in 4 bytes, two's complement.
    pub fn write_i32(&mut self, value: i32) -> (r: Result<usize, BinaryError>)
        requires
            old(self).position() + 4 <= usize::MAX,
        ensures
            final(self).endian == old(self).endian,
            *final(final(self).stream) == *final(old(self).stream),
            write_outcome(
                *old(self),
                *final(self),
                uint_bytes((value as u32) as nat, 4, old(self).endian),
                4,
                r,
            ),
    {
        self.write_uint(value as u32 as u64, 4)
    }

    /// Write a `u64` in 8 bytes.
    pub fn write_u64(&mut self, value: u64) -> (r: Result<usize, BinaryError>)
        requires
            old(self).position() + 8 <= usize::MAX,
        ensures
            final(self).endian == old(self).endian,
            *final(final(self).stream) == *final(old(self).stream),
            write_outcome(
                *old(self),
                *final(self),
                uint_bytes(value as nat, 8, old(self).endian),
                8,
                r,
            ),
    {
        self.write_uint(value, 8)
    }

    /// Write an `i64` in 8 bytes, two's complement.
    pub fn write_i64(&mut self, value: i64) -> (r: Result<usize, BinaryError>)
        requires
            old(self).position() + 8 <= usize::MAX,
        ensures
            final(self).endian == old(self).endian,
            *final(final(self).stream) == *final(old(self).stream),
            write_outcome(
                *old(self),
                *final(self),
                uint_bytes((value as u64) as nat, 8, old(self).endian),
                8,
                r,
            ),
    {
        self.write_uint(value as u64, 8)
    }

    /// Write a `usize` in 8 bytes, the width of `usize` on 64-bit targets.
    pub fn write_usize(&mut self, value: usize) -> (r: Result<usize, BinaryError>)
        requires
            old(self).position() + 8 <= usize::MAX,
        ensures
            final(self).endian == old(self).endian,
            *final(final(self).stream) == *final(old(self).stream),
            write_outcome(
                *old(self),
                *final(self),
                uint_bytes(value as nat, 8, old(self).endian),
                8,
                r,
            ),
    {
        self.write_uint(value as u64, 8)
    }

    /// Write an `isize` in 8 bytes, two's complement.
    pub fn write_isize(&mut self, value: isize) -> (r: Result<usize, BinaryError>)
        requires
            old(self).position() + 8 <= usize::MAX,
        ensures
            final(self).endian == old(self).endian,
            *final(final(self).stream) == *final(old(self).stream),
            write_outcome(
                *old(self),
                *final(self),
                uint_bytes((value as u64) as nat, 8, old(self).endian),
                8,
                r,
            ),
    {
        self.write_uint(value as u64, 8)
    }

    /// Write a string's UTF-8 bytes after their length, in 8 bytes; report
    /// the number of string bytes.
    pub fn write_string(&mut self, value: &str) -> (r: Result<usize, BinaryError>)
        requires
            old(self).position() + 8 + encode_utf8(value@).len() <= usize::MAX,
        ensures
            final(self).endian == old(self).endian,
            *final(final(self).stream) == *final(old(self).stream),
            write_outcome(
                *old(self),
                *final(self),
                string_bytes(value@, old(self).endian),
                encode_utf8(value@).len(),
                r,
            ),
    {
        let ghost d0 = self.data();
        let ghost p0 = self.position();
        let bytes = value.as_bytes();
        self.write_usize(bytes.len())?;
        let r = self.write_bytes(bytes);
        proof {
            lemma_overwrite_concat(
                d0,
                p0,
                uint_bytes(bytes@.len() as nat, 8, self.endian),
                bytes@,
            );
        }
        r
    }

    /// Write a string's UTF-8 bytes after their length, 7-bit encoded;
    /// report the number of string bytes.
    pub fn write_7bit_encoded_len_string(&mut self, value: &str) -> (r: Result<
        usize,
        BinaryError,
    >)
        requires
            old(self).position() + 10 + encode_utf8(value@).len() <= usize::MAX,
        ensures
            final(self).endian == old(self).endian,
            *final(final(self).stream) == *final(old(self).stream),
            write_outcome(
                *old(self),
                *final(self),
                varint_string_bytes(value@),
                encode_utf8(value@).len(),
                r,
            ),
    {
        let ghost d0 = self.data();
        let ghost p0 = self.position();
        let bytes = value.as_bytes();
        self.write_7bit_encoded_usize(bytes.len())?;
        proof {
            lemma_pow128_values();
            lemma_varint_len_bound(bytes@.len() as nat, 10);
        }
        let r = self.write_bytes(bytes);
        proof {
            lemma_overwrite_concat(d0, p0, varint_bytes(bytes@.len() as nat), bytes@);
        }
        r
    }

    /// Write `value` in the 7-bit encoding; report the number of bytes.
    fn write_varint(&mut self, value: u64) -> (r: Result<usize, BinaryError>)
        requires
            old(self).position() + varint_bytes(value as nat).len() <= usize::MAX,
        ensures
            final(self).endian == old(self).endian,
            *final(final(self).stream) == *final(old(self).stream),
            write_outcome(
                *old(self),
                *final(self),
                varint_bytes(value as nat),
                varint_bytes(value as nat).len(),
                r,
            ),
    {
        let ghost all = varint_bytes(value as nat);
        let ghost d0 = self.data();
        let ghost p0 = self.position();
        let mut v: u64 = value;
        let mut length: usize = 0;
        assert(all.subrange(0, 0) + varint_bytes(v as nat) =~= all);
        while v >= 0x80
            invariant
                all == varint_bytes(value as nat),
                p0 + all.len() <= usize::MAX,
                length <= all.len(),
                all == all.subrange(0, length as int) + varint_bytes(v as nat),
                length == 0 ==> self.data() == d0,
                length > 0 ==> self.data() == overwrite(d0, p0, all.subrange(0, length as int)),
                self.position() == p0 + length,
                self.endian == old(self).endian,
                self.infallible() == old(self).infallible(),
                *final(self.stream) == *final(old(self).stream),
            decreases v,
        {
            let b: u8 = (v % 128 + 128) as u8;
            let ghost prefix = all.subrange(0, length as int);
            assert(varint_bytes(v as nat) == seq![b] + varint_bytes(v as nat / 128));
            self.write_u8(b)?;
            proof {
                if length > 0 {
                    lemma_overwrite_concat(d0, p0, prefix, seq![b]);
                }
                assert(all.subrange(0, length + 1) =~= prefix + seq![b]);
                assert(all =~= all.subrange(0, length + 1) + varint_bytes(v as nat / 128));
            }
            v = v / 128;
            length = length + 1;
        }
        let ghost prefix = all.subrange(0, length as int);
        assert(varint_bytes(v as nat) == seq![v as u8]);
        self.write_u8(v as u8)?;
        proof {
            if length > 0 {
                lemma_overwrite_concat(d0, p0, prefix, seq![v as u8]);
            }
            assert(all =~= prefix + seq![v as u8]);
        }
        Ok(length + 1)
    }

    /// Write a `u32` in the 7-bit encoding; report the number of bytes.
    pub fn write_7bit_encoded_u32(&mut self, value: u32) -> (r: Result<usize, BinaryError>)
        requires
            old(self).position() + 5 <= usize::MAX,
        ensures
            final(self).endian == old(self).endian,
            *final(final(self).stream) == *final(old(self).stream),
            write_outcome(
                *old(self),
                *final(self),
                varint_bytes(value as nat),
                varint_bytes(value as nat).len(),
                r,
            ),
    {
        proof {
            lemma_pow128_values();
            lemma_varint_len_bound(value as nat, 5);
        }
        self.write_varint(value as u64)
    }

    /// Write an `i32` in the 7-bit encoding of its unsigned bit pattern.
    pub fn write_7bit_encoded_i32(&mut self, value: i32) -> (r: Result<usize, BinaryError>)
        requires
            old(self).position() + 5 <= usize::MAX,
        ensures
            final(self).endian == old(self).endian,
            *final(final(self).stream) == *final(old(self).stream),
            write_outcome(
                *old(self),
                *final(self),
                varint_bytes((value as u32) as nat),
                varint_bytes((value as u32) as nat).len(),
                r,
            ),
    {
        self.write_7bit_encoded_u32(value as u32)
    }

    /// Write a `usize` in the 7-bit encoding; report the number of bytes.
    pub fn write_7bit_encoded_usize(&mut self, value: usize) -> (r: Result<usize, BinaryError>)
        requires
            old(self).position() + 10 <= usize::MAX,
        ensures
            final(self).endian == old(self).endian,
            *final(final(self).stream) == *final(old(self).stream),
            write_outcome(
                *old(self),
                *final(self),
                varint_bytes(value as nat),
                varint_bytes(value as nat).len(),
                r,
            ),
    {
        proof {
            lemma_pow128_values();
            lemma_varint_len_bound(value as nat, 10);
        }
        self.write_varint(value as u64)
    }

    /// Write a `char` as its code point, in 4 bytes.
    pub fn write_char(&mut self, v: char) -> (r: Result<usize, BinaryError>)
        requires
            old(self).position() + 4 <= usize::MAX,
        ensures
            final(self).endian == old(self).endian,
            *final(final(self).stream) == *final(old(self).stream),
            write_outcome(
                *old(self),
                *final(self),
                uint_bytes((v as u32) as nat, 4, old(self).endian),
                4,
                r,
            ),
    {
        self.write_u32(v as u32)
    }
}

} // verus!
