//! Typed reads of primitive values from a readable stream.
use crate::encoding::{
    lemma_pow128_add, lemma_pow128_monotone, lemma_pow128_values, lemma_uint_value_bound,
    lemma_uint_value_one, pow128, pow256, uint_from_bytes, uint_value, varint_end, varint_value,
    Endian,
};
use crate::error::BinaryError;
use crate::stream::{ahead, fits, read_outcome, ReadStream, SeekStream};
use vstd::arithmetic::div_mod::{lemma_add_mod_noop, lemma_mod_multiples_vanish, lemma_small_mod};
use vstd::prelude::*;
use vstd::utf8::{decode_utf8, is_scalar, valid_utf8};

verus! {

/// What `n` bytes at `start` hold as a string: the characters they encode,
/// or why they hold none.
pub open spec fn utf8_at(data: Seq<u8>, start: nat, n: nat) -> Result<Seq<char>, BinaryError> {
    let bytes = data.subrange(start as int, (start + n) as int);
    if start + n > data.len() {
        Err(BinaryError::ReadPastEof)
    } else if !valid_utf8(bytes) {
        Err(BinaryError::InvalidUtf8)
    } else {
        Ok(decode_utf8(bytes))
    }
}

/// The length in front of the string at `pos`, written in 8 bytes.
pub open spec fn string_len_at(data: Seq<u8>, pos: nat, endian: Endian) -> nat {
    (uint_value(data.subrange(pos as int, (pos + 8) as int), endian) as usize) as nat
}

/// The string at `pos` whose length comes first, in 8 bytes.
pub open spec fn string_at(data: Seq<u8>, pos: nat, endian: Endian) -> Result<
    Seq<char>,
    BinaryError,
> {
    if pos + 8 > data.len() {
        Err(BinaryError::ReadPastEof)
    } else {
        utf8_at(data, pos + 8, string_len_at(data, pos, endian))
    }
}

/// Where the string at `pos` whose length comes first in 8 bytes ends.
pub open spec fn string_end(data: Seq<u8>, pos: nat, endian: Endian) -> nat {
    pos + 8 + string_len_at(data, pos, endian)
}

/// The length in front of the string at `pos`, 7-bit encoded.
pub open spec fn varint_string_len_at(data: Seq<u8>, pos: nat) -> nat {
    match varint_end(data, pos) {
        Some(end) => ((varint_value(data.subrange(pos as int, end as int))
            % 0x1_0000_0000_0000_0000) as usize) as nat,
        None => 0,
    }
}

/// The string at `pos` whose length comes first, 7-bit encoded.
pub open spec fn varint_string_at(data: Seq<u8>, pos: nat) -> Result<Seq<char>, BinaryError> {
    match varint_end(data, pos) {
        Some(end) => utf8_at(data, end, varint_string_len_at(data, pos)),
        None => Err(BinaryError::ReadPastEof),
    }
}

/// Where the string at `pos` whose length comes first 7-bit encoded ends.
pub open spec fn varint_string_end(data: Seq<u8>, pos: nat) -> nat {
    match varint_end(data, pos) {
        Some(end) => end + varint_string_len_at(data, pos),
        None => pos,
    }
}

/// What reading a string did, from `before` to `after`, where `expected` is
/// what the bytes hold and `end` is where they end: the data stays; a
/// success returns the expected characters and moves the cursor to `end`;
/// where the bytes hold no string it fails, and a stream that never fails
/// by itself fails then only, and with the expected error.
pub open spec fn string_outcome<S: SeekStream>(
    before: S,
    after: S,
    expected: Result<Seq<char>, BinaryError>,
    end: nat,
    r: Result<String, BinaryError>,
) -> bool {
    &&& after.data() == before.data()
    &&& after.infallible() == before.infallible()
    &&& r matches Ok(s) ==> expected == Ok::<Seq<char>, BinaryError>(s@) && after.position() == end
    &&& expected is Err ==> r is Err
    &&& before.infallible() && expected is Ok ==> r is Ok
    &&& before.infallible() ==> (r matches Err(e) ==> expected == Err::<Seq<char>, BinaryError>(e))
}

/// The value of the 7-bit encoded run at the cursor; zero where it does
/// not end within the data.
pub open spec fn varint_ahead<S: SeekStream>(s: S) -> nat {
    match varint_end(s.data(), s.position()) {
        Some(end) => varint_value(s.data().subrange(s.position() as int, end as int)),
        None => 0,
    }
}

/// What reading a 7-bit encoded value did, from `before` to `after`,
/// whatever the value read: the data stays; it needs a byte with a clear
/// high bit at or after the cursor, and ends past it.
pub open spec fn varint_read<S: SeekStream, T>(before: S, after: S, r: Result<T, BinaryError>) -> bool {
    &&& after.data() == before.data()
    &&& after.infallible() == before.infallible()
    &&& match varint_end(before.data(), before.position()) {
        None => r is Err && (before.infallible() ==> r == Err::<T, BinaryError>(
            BinaryError::ReadPastEof,
        )),
        Some(end) => (r is Ok ==> after.position() == end) && (before.infallible() ==> r is Ok),
    }
}

/// Relies on `String::from_utf8`: it fails exactly where the bytes are not
/// valid UTF-8, and otherwise holds the characters that they encode.
#[verifier::external_body]
fn string_from_utf8(bytes: Vec<u8>) -> (r: Option<String>)
    ensures
        r matches Some(s) ==> valid_utf8(bytes@) && s@ == decode_utf8(bytes@),
        r is None ==> !valid_utf8(bytes@),
{
    String::from_utf8(bytes).ok()
}

/// Relies on `char::from_u32`: `None` exactly where `v` is not a Unicode
/// scalar value, else the character with that code point.
#[verifier::external_body]
fn char_from_u32(v: u32) -> (r: Option<char>)
    ensures
        r matches Some(c) ==> is_scalar(v) && c as u32 == v,
        r is None ==> !is_scalar(v),
{
    char::from_u32(v)
}

/// Reads typed values from a stream that it borrows, in a byte order that
/// can be swapped between reads.
pub struct BinaryReader<'a, S: ReadStream> {
    /// The stream read from.
    pub stream: &'a mut S,
    /// The byte order of the next read.
    pub endian: Endian,
}

impl<'a, S: ReadStream> SeekStream for BinaryReader<'a, S> {
    open spec fn data(&self) -> Seq<u8> {
        self.stream.data()
    }

    open spec fn position(&self) -> nat {
        self.stream.position()
    }

    open spec fn infallible(&self) -> bool {
        self.stream.infallible()
    }

    fn seek(&mut self, to: usize) -> (r: Result<usize, BinaryError>)
        ensures
            final(self).endian == old(self).endian,
            *final(final(self).stream) == *final(old(self).stream),
    {
        self.stream.seek(to)
    }

    fn tell(&mut self) -> (r: Result<usize, BinaryError>)
        ensures
            final(self).endian == old(self).endian,
            *final(final(self).stream) == *final(old(self).stream),
    {
        self.stream.tell()
    }

    fn len(&self) -> (r: Result<usize, BinaryError>) {
        self.stream.len()
    }
}

impl<'a, S: ReadStream> BinaryReader<'a, S> {
    /// A reader over `stream` in the given byte order.
    pub fn new(stream: &'a mut S, endian: Endian) -> (r: Self)
        ensures
            *r.stream == *old(stream),
            r.endian == endian,
            *final(stream) == *final(r.stream),
    {
        BinaryReader { stream, endian }
    }

    /// Flip the byte order between big and little endian.
    pub fn swap_endianness(&mut self)
        ensures
            final(self).endian == old(self).endian.flipped(),
            *final(self).stream == *old(self).stream,
            *final(final(self).stream) == *final(old(self).stream),
    {
        if self.endian == Endian::Big {
            self.endian = Endian::Little;
        } else {
            self.endian = Endian::Big;
        }
    }

    /// Read `length` raw bytes.
    pub fn read_bytes(&mut self, length: usize) -> (r: Result<Vec<u8>, BinaryError>)
        ensures
            final(self).endian == old(self).endian,
            *final(final(self).stream) == *final(old(self).stream),
            read_outcome(*old(self), *final(self), length as nat, r),
            r matches Ok(v) ==> v@ == ahead(old(self), length as nat),
    {
        let mut buffer: Vec<u8> = vec![0u8; length];
        self.stream.read(buffer.as_mut_slice())?;
        Ok(buffer)
    }

    /// Read `n` bytes as an unsigned value in the current byte order.
    fn read_uint(&mut self, n: usize) -> (r: Result<u64, BinaryError>)
        requires
            n <= 8,
        ensures
            final(self).endian == old(self).endian,
            *final(final(self).stream) == *final(old(self).stream),
            read_outcome(*old(self), *final(self), n as nat, r),
            r matches Ok(v) ==> v as nat == uint_value(ahead(old(self), n as nat), old(self).endian),
    {
        let buffer = self.read_bytes(n)?;
        Ok(uint_from_bytes(buffer.as_slice(), self.endian))
    }

    /// Read a `u8`.
    pub fn read_u8(&mut self) -> (r: Result<u8, BinaryError>)
        ensures
            final(self).endian == old(self).endian,
            *final(final(self).stream) == *final(old(self).stream),
            read_outcome(*old(self), *final(self), 1, r),
            r matches Ok(v) ==> v == ahead(old(self), 1)[0],
    {
        let v = self.read_uint(1)?;
        proof {
            lemma_uint_value_one(ahead(old(self), 1), self.endian);
        }
        Ok(v as u8)
    }

    /// Read an `i8` from its two's complement byte.
    pub fn read_i8(&mut self) -> (r: Result<i8, BinaryError>)
        ensures
            final(self).endian == old(self).endian,
            *final(final(self).stream) == *final(old(self).stream),
            read_outcome(*old(self), *final(self), 1, r),
            r matches Ok(v) ==> v == ahead(old(self), 1)[0] as i8,
    {
        let v = self.read_u8()?;
        Ok(v as i8)
    }

    /// Read a `bool`: any byte but zero is true.
    pub fn read_bool(&mut self) -> (r: Result<bool, BinaryError>)
        ensures
            final(self).endian == old(self).endian,
            *final(final(self).stream) == *final(old(self).stream),
            read_outcome(*old(self), *final(self), 1, r),
            r matches Ok(v) ==> v == (ahead(old(self), 1)[0] > 0),
    {
        let value = self.read_u8()?;
        Ok(value > 0)
    }

    /// Read a `u16` from 2 bytes.
    pub fn read_u16(&mut self) -> (r: Result<u16, BinaryError>)
        ensures
            final(self).endian == old(self).endian,
            *final(final(self).stream) == *final(old(self).stream),
            read_outcome(*old(self), *final(self), 2, r),
            r matches Ok(v) ==> v as nat == uint_value(ahead(old(self), 2), old(self).endian),
    {
        let v = self.read_uint(2)?;
        proof {
            lemma_uint_value_bound(ahead(old(self), 2), self.endian);
            crate::encoding::lemma_pow256_values();
        }
        Ok(v as u16)
    }

    /// Read an `i16` from 2 bytes, two's complement.
    pub fn read_i16(&mut self) -> (r: Result<i16, BinaryError>)
        ensures
            final(self).endian == old(self).endian,
            *final(final(self).stream) == *final(old(self).stream),
            read_outcome(*old(self), *final(self), 2, r),
            r matches Ok(v) ==> v == (uint_value(ahead(old(self), 2), old(self).endian) as u16) as i16,
    {
        let v = self.read_u16()?;
        Ok(v as i16)
    }

    /// Read a `u32` from 4 bytes.
    pub fn read_u32(&mut self) -> (r: Result<u32, BinaryError>)
        ensures
            final(self).endian == old(self).endian,
            *final(final(self).stream) == *final(old(self).stream),
            read_outcome(*old(self), *final(self), 4, r),
            r matches Ok(v) ==> v as nat == uint_value(ahead(old(self), 4), old(self).endian),
    {
        let v = self.read_uint(4)?;
        proof {
            lemma_uint_value_bound(ahead(old(self), 4), self.endian);
            crate::encoding::lemma_pow256_values();
        }
        Ok(v as u32)
    }

    /// Read an `i32` from 4 bytes, two's complement.
    pub fn read_i32(&mut self) -> (r: Result<i32, BinaryError>)
        ensures
            final(self).endian == old(self).endian,
            *final(final(self).stream) == *final(old(self).stream),
            read_outcome(*old(self), *final(self), 4, r),
            r matches Ok(v) ==> v == (uint_value(ahead(old(self), 4), old(self).endian) as u32) as i32,
    {
        let v = self.read_u32()?;
        Ok(v as i32)
    }

    /// Read a `u64` from 8 bytes.
    pub fn read_u64(&mut self) -> (r: Result<u64, BinaryError>)
        ensures
            final(self).endian == old(self).endian,
            *final(final(self).stream) == *final(old(self).stream),
            read_outcome(*old(self), *final(self), 8, r),
            r matches Ok(v) ==> v as nat == uint_value(ahead(old(self), 8), old(self).endian),
    {
        self.read_uint(8)
    }

    /// Read an `i64` from 8 bytes, two's complement.
    pub fn read_i64(&mut self) -> (r: Result<i64, BinaryError>)
        ensures
            final(self).endian == old(self).endian,
            *final(final(self).stream) == *final(old(self).stream),
            read_outcome(*old(self), *final(self), 8, r),
            r matches Ok(v) ==> v == (uint_value(ahead(old(self), 8), old(self).endian) as u64) as i64,
    {
        let v = self.read_uint(8)?;
        Ok(v as i64)
    }

    /// Read a `usize` from 8 bytes, the width of `usize` on 64-bit targets.
    pub fn read_usize(&mut self) -> (r: Result<usize, BinaryError>)
        ensures
            final(self).endian == old(self).endian,
            *final(final(self).stream) == *final(old(self).stream),
            read_outcome(*old(self), *final(self), 8, r),
            r matches Ok(v) ==> v == uint_value(ahead(old(self), 8), old(self).endian) as usize,
    {
        let v = self.read_uint(8)?;
        Ok(v as usize)
    }

    /// Read an `isize` from 8 bytes, two's complement.
    pub fn read_isize(&mut self) -> (r: Result<isize, BinaryError>)
        ensures
            final(self).endian == old(self).endian,
            *final(final(self).stream) == *final(old(self).stream),
            read_outcome(*old(self), *final(self), 8, r),
            r matches Ok(v) ==> v == (uint_value(ahead(old(self), 8), old(self).endian) as u64) as isize,
    {
        let v = self.read_uint(8)?;
        Ok(v as isize)
    }

    /// Read a `char` from its code point in 4 bytes; fail with `InvalidChar`
    /// where the value is no Unicode scalar value.
    pub fn read_char(&mut self) -> (r: Result<char, BinaryError>)
        ensures
            final(self).endian == old(self).endian,
            *final(final(self).stream) == *final(old(self).stream),
            final(self).data() == old(self).data(),
            final(self).infallible() == old(self).infallible(),
            !fits(old(self), 4) ==> r is Err && (old(self).infallible() ==> r == Err::<
                char,
                BinaryError,
            >(BinaryError::ReadPastEof)),
            fits(old(self), 4) ==> ({
                let v = uint_value(ahead(old(self), 4), old(self).endian) as u32;
                &&& r matches Ok(c) ==> {
                    &&& is_scalar(v)
                    &&& c as u32 == v
                    &&& final(self).position() == old(self).position() + 4
                }
                &&& !is_scalar(v) ==> r is Err && (old(self).infallible() ==> r == Err::<
                    char,
                    BinaryError,
                >(BinaryError::InvalidChar))
                &&& old(self).infallible() && is_scalar(v) ==> r is Ok
            }),
    {
        let v = self.read_u32()?;
        match char_from_u32(v) {
            Some(c) => Ok(c),
            None => Err(BinaryError::InvalidChar),
        }
    }

    /// Read `length` bytes as a UTF-8 string.
    fn read_utf8(&mut self, length: usize) -> (r: Result<String, BinaryError>)
        ensures
            final(self).endian == old(self).endian,
            *final(final(self).stream) == *final(old(self).stream),
            string_outcome(
                *old(self),
                *final(self),
                utf8_at(old(self).data(), old(self).position(), length as nat),
                old(self).position() + length as nat,
                r,
            ),
    {
        let chars = self.read_bytes(length)?;
        match string_from_utf8(chars) {
            Some(s) => Ok(s),
            None => Err(BinaryError::InvalidUtf8),
        }
    }

    /// Read a string whose UTF-8 length comes first, in 8 bytes.
    pub fn read_string(&mut self) -> (r: Result<String, BinaryError>)
        ensures
            final(self).endian == old(self).endian,
            *final(final(self).stream) == *final(old(self).stream),
            string_outcome(
                *old(self),
                *final(self),
                string_at(old(self).data(), old(self).position(), old(self).endian),
                string_end(old(self).data(), old(self).position(), old(self).endian),
                r,
            ),
    {
        let str_len = self.read_usize()?;
        self.read_utf8(str_len)
    }

    /// Read the 7-bit encoded value at the cursor, modulo `modulus`: the
    /// groups from the `groups`-th on weigh a multiple of it.
    fn read_varint(&mut self, groups: u64, modulus: u128) -> (r: Result<u64, BinaryError>)
        requires
            (groups == 5 && modulus == 0x1_0000_0000) || (groups == 10 && modulus
                == 0x1_0000_0000_0000_0000),
        ensures
            final(self).endian == old(self).endian,
            *final(final(self).stream) == *final(old(self).stream),
            varint_read(*old(self), *final(self), r),
            r matches Ok(v) ==> v as nat == varint_ahead(*old(self)) % (modulus as nat),
    {
        let ghost d = self.data();
        let ghost p0 = self.position();
        let mut result: u64 = 0;
        let mut k: u64 = 0;
        let mut pow: u128 = 1;
        proof {
            lemma_pow128_values();
            assert(pow128(groups as nat) % (modulus as nat) == 0);
            assert(pow128(0) == 1);
        }
        loop
            invariant_except_break
                varint_end(d, p0) == varint_end(d, self.position()),
            invariant
                (groups == 5 && modulus == 0x1_0000_0000) || (groups == 10 && modulus
                    == 0x1_0000_0000_0000_0000),
                pow128(5) == 0x8_0000_0000,
                pow128(10) == 0x40_0000_0000_0000_0000,
                d == self.data(),
                p0 == old(self).position(),
                d == old(self).data(),
                self.infallible() == old(self).infallible(),
                self.endian == old(self).endian,
                *final(self.stream) == *final(old(self).stream),
                p0 <= self.position(),
                self.position() == p0 ==> result == 0,
                self.position() > p0 ==> self.position() <= d.len() && result as nat
                    == varint_value(d.subrange(p0 as int, self.position() as int)) % (
                modulus as nat),
                k <= groups,
                k < groups ==> k == self.position() - p0 && pow == pow128(k as nat),
                k == groups ==> self.position() - p0 >= groups,
            ensures
                varint_end(d, p0) == Some(self.position()),
                result as nat == varint_value(d.subrange(p0 as int, self.position() as int)) % (
                modulus as nat),
            decreases d.len() - self.position(),
        {
            let ghost pos = self.position();
            let ghost prefix = d.subrange(p0 as int, pos as int);
            let byte = self.read_u8()?;
            proof {
                assert(byte == d[pos as int]);
                if pos == p0 {
                    assert(prefix =~= Seq::<u8>::empty());
                    assert(varint_value(prefix) == 0);
                }
                assert(d.subrange(p0 as int, (pos + 1) as int) =~= prefix.push(byte));
                crate::encoding::lemma_varint_value_push(prefix, byte);
            }
            let ghost full = varint_value(prefix.push(byte));
            let ghost term = (byte % 128) as nat * pow128(prefix.len());
            if k < groups {
                proof {
                    lemma_pow128_monotone(k as nat, 9);
                    lemma_pow128_values();
                    reveal_with_fuel(pow128, 10);
                    assert((byte % 128) as nat * pow128(k as nat) <= 127 * pow128(9))
                        by (nonlinear_arith)
                        requires
                            pow128(k as nat) <= pow128(9),
                            byte % 128 <= 127,
                    ;
                }
                let t: u128 = (byte % 128) as u128 * pow;
                let sum: u128 = result as u128 + t;
                proof {
                    let v0 = varint_value(prefix);
                    lemma_small_mod(result as nat, modulus as nat);
                    lemma_add_mod_noop(result as int, t as int, modulus as int);
                    lemma_add_mod_noop(v0 as int, t as int, modulus as int);
                }
                result = (sum % modulus) as u64;
                if k + 1 < groups {
                    pow = pow * 128;
                }
                k = k + 1;
            } else {
                proof {
                    let v0 = varint_value(prefix);
                    let extra = (prefix.len() - groups) as nat;
                    lemma_pow128_add(groups as nat, extra);
                    let c = pow128(groups as nat) / (modulus as nat);
                    assert(pow128(groups as nat) == (modulus as nat) * c);
                    let j = c * pow128(extra) * (byte % 128) as nat;
                    assert(term == (modulus as nat) * j) by (nonlinear_arith)
                        requires
                            term == (byte % 128) as nat * pow128(prefix.len()),
                            pow128(prefix.len()) == pow128(groups as nat) * pow128(extra),
                            pow128(groups as nat) == (modulus as nat) * c,
                            j == c * pow128(extra) * (byte % 128) as nat,
                    ;
                    lemma_mod_multiples_vanish(j as int, v0 as int, modulus as int);
                }
            }
            if byte < 128 {
                break;
            }
        }
        Ok(result)
    }

    /// Read a `u32` in the 7-bit encoding; groups beyond its width are
    /// dropped.
    pub fn read_7bit_encoded_u32(&mut self) -> (r: Result<u32, BinaryError>)
        ensures
            final(self).endian == old(self).endian,
            *final(final(self).stream) == *final(old(self).stream),
            varint_read(*old(self), *final(self), r),
            r matches Ok(v) ==> v as nat == varint_ahead(*old(self)) % 0x1_0000_0000,
    {
        let v = self.read_varint(5, 0x1_0000_0000)?;
        Ok(v as u32)
    }

    /// Read an `i32` from the 7-bit encoding of its unsigned bit pattern.
    pub fn read_7bit_encoded_i32(&mut self) -> (r: Result<i32, BinaryError>)
        ensures
            final(self).endian == old(self).endian,
            *final(final(self).stream) == *final(old(self).stream),
            varint_read(*old(self), *final(self), r),
            r matches Ok(v) ==> v == ((varint_ahead(*old(self)) % 0x1_0000_0000) as u32) as i32,
    {
        let v = self.read_7bit_encoded_u32()?;
        Ok(v as i32)
    }

    /// Read a `usize` in the 7-bit encoding; groups beyond 64 bits are
    /// dropped.
    pub fn read_7bit_encoded_usize(&mut self) -> (r: Result<usize, BinaryError>)
        ensures
            final(self).endian == old(self).endian,
            *final(final(self).stream) == *final(old(self).stream),
            varint_read(*old(self), *final(self), r),
            r matches Ok(v) ==> v == (varint_ahead(*old(self)) % 0x1_0000_0000_0000_0000) as usize,
    {
        let v = self.read_varint(10, 0x1_0000_0000_0000_0000)?;
        Ok(v as usize)
    }

    /// Read a string whose UTF-8 length comes first, 7-bit encoded.
    pub fn read_7bit_encoded_len_string(&mut self) -> (r: Result<String, BinaryError>)
        ensures
            final(self).endian == old(self).endian,
            *final(final(self).stream) == *final(old(self).stream),
            string_outcome(
                *old(self),
                *final(self),
                varint_string_at(old(self).data(), old(self).position()),
                varint_string_end(old(self).data(), old(self).position()),
                r,
            ),
    {
        let str_len = self.read_7bit_encoded_usize()?;
        self.read_utf8(str_len)
    }
}

} // verus!
