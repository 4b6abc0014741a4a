//! The wire shapes of structured values: the framing that a serializer
//! writes around the primitives of a value (option tags, element counts,
//! field and variant names) and the decoding of that framing.
//!
//! The shape of a value is known to the caller, not read from the bytes; a
//! driver walks the value and calls these in order, so that adjacent values
//! decode from the same stream without separators.
use crate::encoding::{uint_bytes, Endian};
use crate::error::BinaryError;
use crate::reader::{string_at, string_end, BinaryReader};
use crate::stream::{ahead, read_outcome, write_outcome, ReadStream, SeekStream, WriteStream};
use crate::writer::{string_bytes, BinaryWriter};
use vstd::prelude::*;
use vstd::utf8::{encode_utf8, encode_utf8_decode_utf8};

verus! {

/// The 4-byte element or entry count in front of a sequence or map: the
/// length, cut to 32 bits, or zero where it is not known in advance.
pub open spec fn count_bytes(len: Option<usize>, endian: Endian) -> Seq<u8> {
    uint_bytes(
        match len {
            Some(l) => (l as u32) as nat,
            None => 0,
        },
        4,
        endian,
    )
}

/// The bytes of a unit enum variant: its name, then the unit byte.
pub open spec fn unit_variant_bytes(name: Seq<char>, endian: Endian) -> Seq<u8> {
    string_bytes(name, endian) + seq![0u8]
}

/// The first position of `name` among `variants`, if it is there.
pub open spec fn variant_position(variants: Seq<&str>, name: Seq<char>) -> Option<nat> {
    if exists|i: int| 0 <= i < variants.len() && variants[i]@ == name {
        let i = choose|i: int|
            0 <= i < variants.len() && variants[i]@ == name && forall|j: int|
                0 <= j < i ==> variants[j]@ != name;
        Some(i as nat)
    } else {
        None
    }
}

/// Whether two strings hold the same characters, compared through their
/// UTF-8 bytes.
fn same_str(a: &str, b: &str) -> (r: bool)
    ensures
        r == (a@ == b@),
{
    let x = a.as_bytes();
    let y = b.as_bytes();
    proof {
        encode_utf8_decode_utf8(a@);
        encode_utf8_decode_utf8(b@);
    }
    if x.len() != y.len() {
        assert(x@ != y@);
        return false;
    }
    let mut i: usize = 0;
    while i < x.len()
        invariant
            x@ == encode_utf8(a@),
            y@ == encode_utf8(b@),
            x@.len() == y@.len(),
            i <= x@.len(),
            forall|k: int| 0 <= k < i ==> x@[k] == y@[k],
        decreases x@.len() - i,
    {
        if x[i] != y[i] {
            assert(x@ != y@);
            return false;
        }
        i = i + 1;
    }
    assert(x@ =~= y@);
    true
}

/// The index of the first of `variants` whose name is `name`.
pub fn variant_index(name: &str, variants: &[&str]) -> (r: Option<usize>)
    ensures
        r matches Some(i) ==> i as nat == variant_position(variants@, name@).unwrap(),
        r is Some <==> variant_position(variants@, name@) is Some,
{
    let mut i: usize = 0;
    while i < variants.len()
        invariant
            i <= variants@.len(),
            forall|j: int| 0 <= j < i ==> variants@[j]@ != name@,
        decreases variants@.len() - i,
    {
        if same_str(variants[i], name) {
            let ghost w = choose|k: int|
                0 <= k < variants@.len() && variants@[k]@ == name@ && forall|j: int|
                    0 <= j < k ==> variants@[j]@ != name@;
            assert(0 <= i < variants@.len() && variants@[i as int]@ == name@ && forall|j: int|
                0 <= j < i ==> variants@[j]@ != name@);
            assert(w == i as int) by {
                if w < i {
                    assert(variants@[w]@ != name@);
                } else if w > i {
                    assert(variants@[i as int]@ != name@);
                }
            }
            return Some(i);
        }
        i = i + 1;
    }
    None
}

/// Writes the framing of structured values around the primitives that its
/// writer writes.
pub struct Serializer<'a, S: WriteStream> {
    /// The writer the value goes to.
    pub writer: BinaryWriter<'a, S>,
}

impl<'a, S: WriteStream> Serializer<'a, S> {
    /// A serializer that writes through `writer`.
    pub fn new(writer: BinaryWriter<'a, S>) -> (r: Self)
        ensures
            r.writer == writer,
    {
        Serializer { writer }
    }

    /// Write the unit value, which is also an absent option: one zero byte.
    pub fn serialize_unit(&mut self) -> (r: Result<usize, BinaryError>)
        requires
            old(self).writer.position() + 1 <= usize::MAX,
        ensures
            final(self).writer.endian == old(self).writer.endian,
            *final(final(self).writer.stream) == *final(old(self).writer.stream),
            write_outcome(old(self).writer, final(self).writer, seq![0u8], 1, r),
    {
        self.writer.write_u8(0)
    }

    /// Write an absent option: one zero byte.
    pub fn serialize_none(&mut self) -> (r: Result<usize, BinaryError>)
        requires
            old(self).writer.position() + 1 <= usize::MAX,
        ensures
            final(self).writer.endian == old(self).writer.endian,
            *final(final(self).writer.stream) == *final(old(self).writer.stream),
            write_outcome(old(self).writer, final(self).writer, seq![0u8], 1, r),
    {
        self.writer.write_u8(0)
    }

    /// Write the tag of a present option, the byte `1`; its value follows.
    pub fn serialize_some(&mut self) -> (r: Result<usize, BinaryError>)
        requires
            old(self).writer.position() + 1 <= usize::MAX,
        ensures
            final(self).writer.endian == old(self).writer.endian,
            *final(final(self).writer.stream) == *final(old(self).writer.stream),
            write_outcome(old(self).writer, final(self).writer, seq![1u8], 1, r),
    {
        self.writer.write_u8(1)
    }

    /// Write the count in front of a sequence or tuple; its elements follow.
    pub fn serialize_seq(&mut self, len: Option<usize>) -> (r: Result<usize, BinaryError>)
        requires
            old(self).writer.position() + 4 <= usize::MAX,
        ensures
            final(self).writer.endian == old(self).writer.endian,
            *final(final(self).writer.stream) == *final(old(self).writer.stream),
            write_outcome(
                old(self).writer,
                final(self).writer,
                count_bytes(len, old(self).writer.endian),
                4,
                r,
            ),
    {
        let count: u32 = match len {
            Some(l) => l as u32,
            None => 0,
        };
        self.writer.write_u32(count)
    }

    /// Write the count in front of a map or struct; its entries follow, each
    /// a key or field name and then a value.
    pub fn serialize_map(&mut self, len: Option<usize>) -> (r: Result<usize, BinaryError>)
        requires
            old(self).writer.position() + 4 <= usize::MAX,
        ensures
            final(self).writer.endian == old(self).writer.endian,
            *final(final(self).writer.stream) == *final(old(self).writer.stream),
            write_outcome(
                old(self).writer,
                final(self).writer,
                count_bytes(len, old(self).writer.endian),
                4,
                r,
            ),
    {
        self.serialize_seq(len)
    }

    /// Write a struct field's name; its value follows.
    pub fn serialize_field_name(&mut self, key: &str) -> (r: Result<usize, BinaryError>)
        requires
            old(self).writer.position() + 8 + encode_utf8(key@).len() <= usize::MAX,
        ensures
            final(self).writer.endian == old(self).writer.endian,
            *final(final(self).writer.stream) == *final(old(self).writer.stream),
            write_outcome(
                old(self).writer,
                final(self).writer,
                string_bytes(key@, old(self).writer.endian),
                encode_utf8(key@).len(),
                r,
            ),
    {
        self.writer.write_string(key)
    }

    /// Write an enum variant's name; its payload follows.
    pub fn serialize_variant_name(&mut self, variant: &str) -> (r: Result<usize, BinaryError>)
        requires
            old(self).writer.position() + 8 + encode_utf8(variant@).len() <= usize::MAX,
        ensures
            final(self).writer.endian == old(self).writer.endian,
            *final(final(self).writer.stream) == *final(old(self).writer.stream),
            write_outcome(
                old(self).writer,
                final(self).writer,
                string_bytes(variant@, old(self).writer.endian),
                encode_utf8(variant@).len(),
                r,
            ),
    {
        self.writer.write_string(variant)
    }

    /// Write a unit enum variant: its name, then the unit byte.
    pub fn serialize_unit_variant(&mut self, variant: &str) -> (r: Result<usize, BinaryError>)
        requires
            old(self).writer.position() + 9 + encode_utf8(variant@).len() <= usize::MAX,
        ensures
            final(self).writer.endian == old(self).writer.endian,
            *final(final(self).writer.stream) == *final(old(self).writer.stream),
            write_outcome(
                old(self).writer,
                final(self).writer,
                unit_variant_bytes(variant@, old(self).writer.endian),
                1,
                r,
            ),
    {
        let ghost d0 = self.writer.data();
        let ghost p0 = self.writer.position();
        self.writer.write_string(variant)?;
        let r = self.serialize_unit();
        proof {
            crate::encoding::lemma_overwrite_concat(
                d0,
                p0,
                string_bytes(variant@, self.writer.endian),
                seq![0u8],
            );
        }
        r
    }

    /// Write the head of a tuple or struct enum variant: its name, then the
    /// count of its fields, which follow.
    pub fn serialize_variant_head(&mut self, variant: &str, len: usize) -> (r: Result<
        usize,
        BinaryError,
    >)
        requires
            old(self).writer.position() + 12 + encode_utf8(variant@).len() <= usize::MAX,
        ensures
            final(self).writer.endian == old(self).writer.endian,
            *final(final(self).writer.stream) == *final(old(self).writer.stream),
            write_outcome(
                old(self).writer,
                final(self).writer,
                string_bytes(variant@, old(self).writer.endian) + count_bytes(
                    Some(len),
                    old(self).writer.endian,
                ),
                4,
                r,
            ),
    {
        let ghost d0 = self.writer.data();
        let ghost p0 = self.writer.position();
        self.writer.write_string(variant)?;
        let r = self.serialize_seq(Some(len));
        proof {
            crate::encoding::lemma_overwrite_concat(
                d0,
                p0,
                string_bytes(variant@, self.writer.endian),
                count_bytes(Some(len), self.writer.endian),
            );
        }
        r
    }
}

/// Reads the framing of structured values around the primitives that its
/// reader reads.
pub struct Deserializer<'a, S: ReadStream> {
    /// The reader the value comes from.
    pub reader: BinaryReader<'a, S>,
}

impl<'a, S: ReadStream> Deserializer<'a, S> {
    /// A deserializer that reads through `reader`.
    pub fn new(reader: BinaryReader<'a, S>) -> (r: Self)
        ensures
            r.reader == reader,
    {
        Deserializer { reader }
    }

    /// Read an option's tag: whether a value follows; any byte but zero
    /// says that one does.
    pub fn deserialize_option(&mut self) -> (r: Result<bool, BinaryError>)
        ensures
            final(self).reader.endian == old(self).reader.endian,
            *final(final(self).reader.stream) == *final(old(self).reader.stream),
            read_outcome(old(self).reader, final(self).reader, 1, r),
            r matches Ok(some) ==> some == (ahead(&old(self).reader, 1)[0] != 0),
    {
        let tag = self.reader.read_u8()?;
        Ok(tag != 0)
    }

    /// Read the unit value's byte, whatever it holds.
    pub fn deserialize_unit(&mut self) -> (r: Result<(), BinaryError>)
        ensures
            final(self).reader.endian == old(self).reader.endian,
            *final(final(self).reader.stream) == *final(old(self).reader.stream),
            read_outcome(old(self).reader, final(self).reader, 1, r),
    {
        self.reader.read_u8()?;
        Ok(())
    }

    /// Read the count in front of a sequence, tuple, map or struct.
    pub fn deserialize_count(&mut self) -> (r: Result<u32, BinaryError>)
        ensures
            final(self).reader.endian == old(self).reader.endian,
            *final(final(self).reader.stream) == *final(old(self).reader.stream),
            read_outcome(old(self).reader, final(self).reader, 4, r),
            r matches Ok(n) ==> n as nat == crate::encoding::uint_value(
                ahead(&old(self).reader, 4),
                old(self).reader.endian,
            ),
    {
        self.reader.read_u32()
    }

    /// Read an enum variant's name and find it among `variants`; fail with
    /// `UnexpectedVariant`, holding the name, where it is not there.
    pub fn deserialize_variant(&mut self, variants: &[&str]) -> (r: Result<usize, BinaryError>)
        ensures
            final(self).reader.endian == old(self).reader.endian,
            *final(final(self).reader.stream) == *final(old(self).reader.stream),
            final(self).reader.data() == old(self).reader.data(),
            final(self).reader.infallible() == old(self).reader.infallible(),
            ({
                let name = string_at(
                    old(self).reader.data(),
                    old(self).reader.position(),
                    old(self).reader.endian,
                );
                let end = string_end(
                    old(self).reader.data(),
                    old(self).reader.position(),
                    old(self).reader.endian,
                );
                &&& r matches Ok(i) ==> {
                    &&& name is Ok
                    &&& variant_position(variants@, name->Ok_0) == Some(i as nat)
                    &&& final(self).reader.position() == end
                }
                &&& name is Err ==> r is Err
                &&& (name is Ok && variant_position(variants@, name->Ok_0) is None) ==> r is Err
                &&& old(self).reader.infallible() ==> match name {
                    Err(e) => r == Err::<usize, BinaryError>(e),
                    Ok(n) => match variant_position(variants@, n) {
                        Some(_) => r is Ok,
                        None => r matches Err(BinaryError::UnexpectedVariant(s)) && s@ == n,
                    },
                }
            }),
    {
        let name = self.reader.read_string()?;
        match variant_index(name.as_str(), variants) {
            Some(i) => Ok(i),
            None => Err(BinaryError::UnexpectedVariant(name)),
        }
    }
}

} // verus!
