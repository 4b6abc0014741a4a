//! Laws that relate the writers to the readers: what is written at a
//! position reads back as the value written.
use crate::encoding::{
    bits_used, lemma_overwrite_read_back, lemma_pow256_values, lemma_uint_round_trip,
    lemma_uint_value_bound, overwrite, pow256, uint_bytes, uint_value, varint_bytes, varint_end,
    varint_value, Endian,
};
use crate::stream::{read_outcome, SeekStream};
use crate::reader::{string_at, string_end, varint_string_at, varint_string_end};
use crate::error::BinaryError;
use crate::writer::{string_bytes, varint_string_bytes};
use vstd::prelude::*;
use vstd::utf8::{encode_utf8, encode_utf8_decode_utf8, encode_utf8_valid_utf8, is_scalar};

verus! {

/// An unsigned value below `256^n`, written in `n` bytes at `pos`, reads
/// back from `pos` as itself, in either byte order.
pub proof fn law_fixed_round_trip(v: nat, n: nat, endian: Endian, data: Seq<u8>, pos: nat)
    requires
        v < pow256(n),
    ensures
        uint_value(
            overwrite(data, pos, uint_bytes(v, n, endian)).subrange(pos as int, (pos + n) as int),
            endian,
        ) == v,
{
    lemma_uint_round_trip(v, n, endian);
    lemma_overwrite_read_back(data, pos, uint_bytes(v, n, endian));
    vstd::arithmetic::div_mod::lemma_small_mod(v, pow256(n));
}

/// A byte written at `pos` reads back from `pos` as itself, and as the same
/// `i8` where it holds one.
pub proof fn law_byte_round_trip(v: u8, w: i8, data: Seq<u8>, pos: nat)
    ensures
        overwrite(data, pos, seq![v]).subrange(pos as int, pos as int + 1)[0] == v,
        overwrite(data, pos, seq![w as u8]).subrange(pos as int, pos as int + 1)[0] as i8 == w,
{
    lemma_overwrite_read_back(data, pos, seq![v]);
    lemma_overwrite_read_back(data, pos, seq![w as u8]);
    assert((w as u8) as i8 == w) by (bit_vector);
}

/// A `bool` written as `1` or `0` reads back as itself.
pub proof fn law_bool_round_trip(v: bool, data: Seq<u8>, pos: nat)
    ensures
        (overwrite(
            data,
            pos,
            seq![
                if v {
                    1u8
                } else {
                    0u8
                },
            ],
        ).subrange(pos as int, pos as int + 1)[0] > 0) == v,
{
    let b: u8 = if v {
        1u8
    } else {
        0u8
    };
    lemma_overwrite_read_back(data, pos, seq![b]);
}

/// Signed values written as their two's complement bit patterns read back
/// as themselves, in either byte order.
pub proof fn law_signed_round_trip(
    a: i16,
    b: i32,
    c: i64,
    d: isize,
    endian: Endian,
    data: Seq<u8>,
    pos: nat,
)
    ensures
        (uint_value(
            overwrite(data, pos, uint_bytes((a as u16) as nat, 2, endian)).subrange(
                pos as int,
                pos as int + 2,
            ),
            endian,
        ) as u16) as i16 == a,
        (uint_value(
            overwrite(data, pos, uint_bytes((b as u32) as nat, 4, endian)).subrange(
                pos as int,
                pos as int + 4,
            ),
            endian,
        ) as u32) as i32 == b,
        (uint_value(
            overwrite(data, pos, uint_bytes((c as u64) as nat, 8, endian)).subrange(
                pos as int,
                pos as int + 8,
            ),
            endian,
        ) as u64) as i64 == c,
        (uint_value(
            overwrite(data, pos, uint_bytes((d as u64) as nat, 8, endian)).subrange(
                pos as int,
                pos as int + 8,
            ),
            endian,
        ) as u64) as isize == d,
{
    lemma_pow256_values();
    law_fixed_round_trip((a as u16) as nat, 2, endian, data, pos);
    law_fixed_round_trip((b as u32) as nat, 4, endian, data, pos);
    law_fixed_round_trip((c as u64) as nat, 8, endian, data, pos);
    law_fixed_round_trip((d as u64) as nat, 8, endian, data, pos);
    assert((a as u16) as i16 == a) by (bit_vector);
    assert((b as u32) as i32 == b) by (bit_vector);
    assert((c as u64) as i64 == c) by (bit_vector);
    assert((d as u64) as isize == d) by (bit_vector);
}

/// A `char` written as its code point reads back as a Unicode scalar value
/// equal to that code point.
pub proof fn law_char_round_trip(v: char, endian: Endian, data: Seq<u8>, pos: nat)
    ensures
        ({
            let read = uint_value(
                overwrite(data, pos, uint_bytes((v as u32) as nat, 4, endian)).subrange(
                    pos as int,
                    pos as int + 4,
                ),
                endian,
            ) as u32;
            read == v as u32 && is_scalar(read)
        }),
{
    lemma_pow256_values();
    law_fixed_round_trip((v as u32) as nat, 4, endian, data, pos);
    vstd::utf8::char_is_scalar(v);
}

/// The 7-bit encoding of `v` has every high bit set but the last, and its
/// groups add up to `v`.
proof fn lemma_varint_shape(v: nat)
    ensures
        varint_bytes(v).len() >= 1,
        forall|i: int| 0 <= i < varint_bytes(v).len() - 1 ==> #[trigger] varint_bytes(v)[i] >= 128,
        varint_bytes(v).last() < 128,
        varint_value(varint_bytes(v)) == v,
    decreases v,
{
    let s = varint_bytes(v);
    if v < 128 {
        assert(s.drop_first() =~= Seq::<u8>::empty());
        assert(varint_value(s.drop_first()) == 0);
    } else {
        let t = varint_bytes(v / 128);
        lemma_varint_shape(v / 128);
        assert(s.drop_first() =~= t);
        assert(forall|i: int| 1 <= i < s.len() ==> s[i] == t[i - 1]);
        assert(s[0] % 128 == v % 128);
    }
}

/// A run of bytes with the high bit set followed by one without ends one
/// past that byte.
proof fn lemma_varint_end_run(d: Seq<u8>, p: nat, k: nat)
    requires
        p + k < d.len(),
        forall|i: int| p <= i < p + k ==> #[trigger] d[i] >= 128,
        d[(p + k) as int] < 128,
    ensures
        varint_end(d, p) == Some(p + k + 1),
    decreases k,
{
    if k > 0 {
        assert(d[p as int] >= 128);
        lemma_varint_end_run(d, p + 1, (k - 1) as nat);
    }
}

/// A value written in the 7-bit encoding at `pos` reads back from `pos` as
/// itself, and the read ends where the encoding does.
pub proof fn law_varint_round_trip(v: nat, data: Seq<u8>, pos: nat)
    ensures
        ({
            let written = overwrite(data, pos, varint_bytes(v));
            let end = pos + varint_bytes(v).len();
            &&& varint_end(written, pos) == Some(end)
            &&& varint_value(written.subrange(pos as int, end as int)) == v
            &&& v < 0x1_0000_0000 ==> varint_value(written.subrange(pos as int, end as int))
                % 0x1_0000_0000 == v
            &&& v < 0x1_0000_0000_0000_0000 ==> varint_value(
                written.subrange(pos as int, end as int),
            ) % 0x1_0000_0000_0000_0000 == v
        }),
{
    let s = varint_bytes(v);
    let written = overwrite(data, pos, s);
    lemma_varint_shape(v);
    lemma_overwrite_read_back(data, pos, s);
    assert forall|i: int| pos <= i < pos as int + (s.len() - 1) implies #[trigger] written[i] >= 128 by {
        assert(written.subrange(pos as int, pos as int + s.len())[i - pos] == written[i]);
    }
    assert(written.subrange(pos as int, pos as int + s.len())[s.len() - 1] == written[pos as int + s.len() - 1]);
    lemma_varint_end_run(written, pos, (s.len() - 1) as nat);
    assert(written.subrange(pos as int, pos as int + s.len()) == s);
    if v < 0x1_0000_0000 {
        vstd::arithmetic::div_mod::lemma_small_mod(v, 0x1_0000_0000);
    }
    if v < 0x1_0000_0000_0000_0000 {
        vstd::arithmetic::div_mod::lemma_small_mod(v, 0x1_0000_0000_0000_0000);
    }
}

/// The binary digits of `v` from 128 on are seven more than those of
/// `v / 128`.
proof fn lemma_bits_used_step(v: nat)
    requires
        v >= 128,
    ensures
        bits_used(v) == 7 + bits_used(v / 128),
{
    let v1 = v / 2;
    let v2 = v1 / 2;
    let v3 = v2 / 2;
    let v4 = v3 / 2;
    let v5 = v4 / 2;
    let v6 = v5 / 2;
    let v7 = v6 / 2;
    assert(v7 == v / 128);
    assert(bits_used(v) == 1 + bits_used(v1));
    assert(bits_used(v1) == 1 + bits_used(v2));
    assert(bits_used(v2) == 1 + bits_used(v3));
    assert(bits_used(v3) == 1 + bits_used(v4));
    assert(bits_used(v4) == 1 + bits_used(v5));
    assert(bits_used(v5) == 1 + bits_used(v6));
    assert(bits_used(v6) == 1 + bits_used(v7));
}

/// A value from 1 to 127 has from 1 to 7 binary digits.
proof fn lemma_bits_used_small(v: nat)
    requires
        1 <= v < 128,
    ensures
        1 <= bits_used(v) <= 7,
{
    let v1 = v / 2;
    let v2 = v1 / 2;
    let v3 = v2 / 2;
    let v4 = v3 / 2;
    let v5 = v4 / 2;
    let v6 = v5 / 2;
    let v7 = v6 / 2;
    assert(v7 == 0);
    assert(bits_used(v7) == 0);
    assert(bits_used(v6) <= 1 + bits_used(v7));
    assert(bits_used(v5) <= 1 + bits_used(v6));
    assert(bits_used(v4) <= 1 + bits_used(v5));
    assert(bits_used(v3) <= 1 + bits_used(v4));
    assert(bits_used(v2) <= 1 + bits_used(v3));
    assert(bits_used(v1) <= 1 + bits_used(v2));
    assert(bits_used(v) == 1 + bits_used(v1));
}

/// The 7-bit encoding of `v` takes one byte for each started group of seven
/// binary digits, and one byte for zero.
pub proof fn law_varint_length(v: nat)
    ensures
        varint_bytes(v).len() == if v == 0 {
            1
        } else {
            (bits_used(v) + 6) / 7
        },
    decreases v,
{
    if v >= 128 {
        lemma_bits_used_step(v);
        law_varint_length(v / 128);
    } else if v >= 1 {
        lemma_bits_used_small(v);
    }
}

/// A string written after its length in 8 bytes reads back from `pos` as
/// itself, ending where the write did.
pub proof fn law_string_round_trip(s: Seq<char>, endian: Endian, data: Seq<u8>, pos: nat)
    requires
        encode_utf8(s).len() <= usize::MAX,
    ensures
        string_at(overwrite(data, pos, string_bytes(s, endian)), pos, endian) == Ok::<
            Seq<char>,
            BinaryError,
        >(s),
        string_end(overwrite(data, pos, string_bytes(s, endian)), pos, endian) == pos
            + string_bytes(s, endian).len(),
{
    let bytes = encode_utf8(s);
    let prefix = uint_bytes(bytes.len(), 8, endian);
    let all = string_bytes(s, endian);
    let written = overwrite(data, pos, all);
    lemma_overwrite_read_back(data, pos, all);
    lemma_pow256_values();
    lemma_uint_round_trip(bytes.len(), 8, endian);
    vstd::arithmetic::div_mod::lemma_small_mod(bytes.len(), pow256(8));
    let window = written.subrange(pos as int, pos as int + all.len());
    assert(window == all);
    assert(written.subrange(pos as int, pos as int + 8) =~= prefix) by {
        assert forall|i: int| 0 <= i < 8 implies written.subrange(pos as int, pos as int + 8)[i]
            == prefix[i] by {
            assert(window[i] == all[i]);
        }
    }
    assert(written.subrange(pos as int + 8, pos as int + 8 + bytes.len()) =~= bytes) by {
        assert forall|i: int| 0 <= i < bytes.len() implies written.subrange(
            pos as int + 8,
            pos as int + 8 + bytes.len(),
        )[i] == bytes[i] by {
            assert(window[8 + i] == all[8 + i]);
        }
    }
    encode_utf8_valid_utf8(s);
    encode_utf8_decode_utf8(s);
}

/// A string written after its 7-bit encoded length reads back from `pos`
/// as itself, ending where the write did.
pub proof fn law_varint_string_round_trip(s: Seq<char>, data: Seq<u8>, pos: nat)
    requires
        encode_utf8(s).len() <= usize::MAX,
    ensures
        varint_string_at(overwrite(data, pos, varint_string_bytes(s)), pos) == Ok::<
            Seq<char>,
            BinaryError,
        >(s),
        varint_string_end(overwrite(data, pos, varint_string_bytes(s)), pos) == pos
            + varint_string_bytes(s).len(),
{
    let bytes = encode_utf8(s);
    let vb = varint_bytes(bytes.len());
    let all = varint_string_bytes(s);
    let written = overwrite(data, pos, all);
    lemma_overwrite_read_back(data, pos, all);
    lemma_varint_shape(bytes.len());
    let window = written.subrange(pos as int, pos as int + all.len());
    assert(window == all);
    assert forall|i: int| pos <= i < pos as int + (vb.len() - 1) implies #[trigger] written[i]
        >= 128 by {
        assert(window[i - pos] == all[i - pos]);
        assert(all[i - pos] == vb[i - pos]);
    }
    assert(window[vb.len() - 1] == all[vb.len() - 1]);
    lemma_varint_end_run(written, pos, (vb.len() - 1) as nat);
    let end = pos + vb.len();
    assert(written.subrange(pos as int, end as int) =~= vb) by {
        assert forall|i: int| 0 <= i < vb.len() implies written.subrange(pos as int, end as int)[i]
            == vb[i] by {
            assert(window[i] == all[i]);
        }
    }
    vstd::arithmetic::div_mod::lemma_small_mod(bytes.len(), 0x1_0000_0000_0000_0000);
    assert(written.subrange(end as int, end as int + bytes.len()) =~= bytes) by {
        assert forall|i: int| 0 <= i < bytes.len() implies written.subrange(
            end as int,
            end as int + bytes.len(),
        )[i] == bytes[i] by {
            assert(window[vb.len() + i] == all[vb.len() + i]);
        }
    }
    encode_utf8_valid_utf8(s);
    encode_utf8_decode_utf8(s);
}

/// On a stream that never fails by itself with exactly `n` bytes left after
/// the cursor, a read of `n + 1` bytes fails with `ReadPastEof`, and a read
/// of `n` bytes succeeds and leaves the cursor at the end of the data.
pub proof fn law_eof_boundary<S: SeekStream, T, U>(
    before: S,
    short: S,
    r_short: Result<T, BinaryError>,
    exact: S,
    r_exact: Result<U, BinaryError>,
    n: nat,
)
    requires
        before.infallible(),
        before.data().len() == before.position() + n,
        read_outcome(before, short, n + 1, r_short),
        read_outcome(before, exact, n, r_exact),
    ensures
        r_short == Err::<T, BinaryError>(BinaryError::ReadPastEof),
        r_exact is Ok,
        exact.position() == exact.data().len(),
{
}

/// Writing at the same position over an earlier write, with at least as
/// many bytes, leaves the second write alone in its place: no insertion.
/// Into an empty buffer, the data is then exactly the second write.
pub proof fn law_overwrite_in_place(data: Seq<u8>, pos: nat, first: Seq<u8>, second: Seq<u8>)
    requires
        first.len() <= second.len(),
    ensures
        overwrite(overwrite(data, pos, first), pos, second) == overwrite(data, pos, second),
        overwrite(overwrite(Seq::<u8>::empty(), 0, first), 0, second) == second,
{
    assert(overwrite(overwrite(data, pos, first), pos, second) =~= overwrite(data, pos, second));
    assert(overwrite(overwrite(Seq::<u8>::empty(), 0, first), 0, second) =~= second);
}

} // verus!
