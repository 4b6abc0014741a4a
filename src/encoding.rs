//! The byte-level model of the wire format: fixed-width integers in either
//! byte order, the 7-bit variable-length integer encoding, and what a write
//! does to the bytes of a stream.
use vstd::arithmetic::div_mod::{lemma_div_denominator, lemma_mod_breakdown};
use vstd::prelude::*;

verus! {

/// Byte order of multi-byte values.
#[derive(Clone, Copy, Debug, PartialEq, Eq, Structural)]
pub enum Endian {
    /// Most significant byte first.
    Big,
    /// Least significant byte first.
    Little,
}

impl Default for Endian {
    fn default() -> (r: Self)
        ensures
            r == Endian::Big,
    {
        Endian::Big
    }
}

impl Endian {
    /// The other byte order.
    pub open spec fn flipped(self) -> Endian {
        match self {
            Endian::Big => Endian::Little,
            Endian::Little => Endian::Big,
        }
    }
}

/// `256` to the power `n`: one more than the largest value `n` bytes hold.
pub open spec fn pow256(n: nat) -> nat
    decreases n,
{
    if n == 0 {
        1
    } else {
        256 * pow256((n - 1) as nat)
    }
}

/// `128` to the power `n`: the weight of the `n`-th 7-bit group.
pub open spec fn pow128(n: nat) -> nat
    decreases n,
{
    if n == 0 {
        1
    } else {
        128 * pow128((n - 1) as nat)
    }
}

/// Byte `i` of `v`, counting from the least significant one.
pub open spec fn byte_of(v: nat, i: nat) -> u8 {
    ((v / pow256(i)) % 256) as u8
}

/// The `n` low bytes of `v` in the given byte order.
pub open spec fn uint_bytes(v: nat, n: nat, endian: Endian) -> Seq<u8> {
    match endian {
        Endian::Little => Seq::new(n, |i: int| byte_of(v, i as nat)),
        Endian::Big => Seq::new(n, |i: int| byte_of(v, (n - 1 - i) as nat)),
    }
}

/// The unsigned value of bytes read least significant first.
pub open spec fn le_value(s: Seq<u8>) -> nat
    decreases s.len(),
{
    if s.len() == 0 {
        0
    } else {
        s[0] as nat + 256 * le_value(s.drop_first())
    }
}

/// The unsigned value of bytes read most significant first.
pub open spec fn be_value(s: Seq<u8>) -> nat
    decreases s.len(),
{
    if s.len() == 0 {
        0
    } else {
        be_value(s.drop_last()) * 256 + s.last() as nat
    }
}

/// The unsigned value of `s` in the given byte order.
pub open spec fn uint_value(s: Seq<u8>, endian: Endian) -> nat {
    match endian {
        Endian::Little => le_value(s),
        Endian::Big => be_value(s),
    }
}

/// The bytes of a stream after `bytes` were written at `pos`: overwritten
/// where the old data reaches, zero-filled between its end and `pos`, and
/// extended past it.
pub open spec fn overwrite(data: Seq<u8>, pos: nat, bytes: Seq<u8>) -> Seq<u8> {
    let end = pos + bytes.len();
    Seq::new(
        if end > data.len() {
            end
        } else {
            data.len()
        },
        |i: int|
            if pos <= i < end {
                bytes[i - pos]
            } else if i < data.len() {
                data[i]
            } else {
                0u8
            },
    )
}

/// The 7-bit encoding of `v`: low group first, the high bit of every byte
/// but the last set.
pub open spec fn varint_bytes(v: nat) -> Seq<u8>
    decreases v,
{
    if v < 128 {
        seq![v as u8]
    } else {
        seq![(v % 128 + 128) as u8] + varint_bytes(v / 128)
    }
}

/// The value of a run of 7-bit groups, low group first; high bits are
/// continuation marks and carry no value.
pub open spec fn varint_value(s: Seq<u8>) -> nat
    decreases s.len(),
{
    if s.len() == 0 {
        0
    } else {
        (s[0] % 128) as nat + 128 * varint_value(s.drop_first())
    }
}

/// Where a 7-bit encoded value that starts at `pos` ends: one past the
/// first byte from `pos` on whose high bit is clear, if there is one.
pub open spec fn varint_end(data: Seq<u8>, pos: nat) -> Option<nat>
    decreases data.len() - pos,
{
    if pos >= data.len() {
        None
    } else if data[pos as int] < 128 {
        Some(pos + 1)
    } else {
        varint_end(data, pos + 1)
    }
}

/// The number of binary digits of `v`; zero for zero.
pub open spec fn bits_used(v: nat) -> nat
    decreases v,
{
    if v == 0 {
        0
    } else {
        1 + bits_used(v / 2)
    }
}

/// Powers of 256 are positive.
pub proof fn lemma_pow256_positive(n: nat)
    ensures
        pow256(n) > 0,
    decreases n,
{
    if n > 0 {
        lemma_pow256_positive((n - 1) as nat);
    }
}

/// Powers of 256 grow with the exponent.
pub proof fn lemma_pow256_monotone(a: nat, b: nat)
    requires
        a <= b,
    ensures
        pow256(a) <= pow256(b),
    decreases b,
{
    if a < b {
        lemma_pow256_monotone(a, (b - 1) as nat);
        lemma_pow256_positive((b - 1) as nat);
    }
}

/// The powers of 256 that the fixed widths use.
pub proof fn lemma_pow256_values()
    ensures
        pow256(1) == 0x100,
        pow256(2) == 0x1_0000,
        pow256(4) == 0x1_0000_0000,
        pow256(8) == 0x1_0000_0000_0000_0000,
{
    reveal_with_fuel(pow256, 9);
}

/// The lowest byte of `v` is `v` modulo 256.
proof fn lemma_byte_of_zero(v: nat)
    ensures
        byte_of(v, 0) == v % 256,
        v / pow256(0) == v,
{
    assert(pow256(0) == 1);
    assert(v / 1 == v);
}

/// The powers of 128 past the 32-bit and 64-bit widths.
pub proof fn lemma_pow128_values()
    ensures
        pow128(5) == 0x8_0000_0000,
        pow128(10) == 0x40_0000_0000_0000_0000,
{
    reveal_with_fuel(pow128, 11);
}

/// Powers of 128 are positive.
pub proof fn lemma_pow128_positive(n: nat)
    ensures
        pow128(n) > 0,
    decreases n,
{
    if n > 0 {
        lemma_pow128_positive((n - 1) as nat);
    }
}

/// Powers of 128 grow with the exponent.
pub proof fn lemma_pow128_monotone(a: nat, b: nat)
    requires
        a <= b,
    ensures
        pow128(a) <= pow128(b),
    decreases b,
{
    if a < b {
        lemma_pow128_monotone(a, (b - 1) as nat);
        lemma_pow128_positive((b - 1) as nat);
    }
}

/// Exponents of 128 add under multiplication.
pub proof fn lemma_pow128_add(a: nat, b: nat)
    ensures
        pow128(a + b) == pow128(a) * pow128(b),
    decreases b,
{
    if b == 0 {
        assert(pow128(0) == 1);
    } else {
        let bm = (b - 1) as nat;
        lemma_pow128_add(a, bm);
        assert(a + b == (a + bm) + 1);
        assert(pow128((a + bm) + 1) == 128 * pow128(a + bm));
        assert(pow128(b) == 128 * pow128(bm));
        let x = pow128(a);
        let y = pow128(bm);
        assert(128 * (x * y) == x * (128 * y)) by (nonlinear_arith);
    }
}

/// Appending a byte to a run of 7-bit groups adds its group at the next
/// weight.
pub proof fn lemma_varint_value_push(s: Seq<u8>, b: u8)
    ensures
        varint_value(s.push(b)) == varint_value(s) + (b % 128) as nat * pow128(s.len()),
    decreases s.len(),
{
    let t = s.push(b);
    let g = (b % 128) as nat;
    if s.len() == 0 {
        assert(t.drop_first() =~= Seq::<u8>::empty());
        assert(varint_value(t.drop_first()) == 0);
        assert(t[0] == b);
        assert(varint_value(t) == g + 128 * varint_value(t.drop_first()));
        assert(pow128(0) == 1);
        assert(varint_value(s) == 0);
    } else {
        assert(t.drop_first() =~= s.drop_first().push(b));
        lemma_varint_value_push(s.drop_first(), b);
        assert(t[0] == s[0]);
        assert(varint_value(t) == (t[0] % 128) as nat + 128 * varint_value(t.drop_first()));
        assert(varint_value(s) == (s[0] % 128) as nat + 128 * varint_value(s.drop_first()));
        let p = pow128((s.len() - 1) as nat);
        assert(pow128(s.len()) == 128 * p);
        assert(128 * (g * p) == g * (128 * p)) by (nonlinear_arith);
        let v1 = varint_value(s.drop_first());
        assert(128 * (v1 + g * p) == 128 * v1 + 128 * (g * p)) by (nonlinear_arith);
    }
}

/// A value below `128^k` takes at most `k` bytes in the 7-bit encoding.
pub proof fn lemma_varint_len_bound(v: nat, k: nat)
    requires
        v < pow128(k),
        k >= 1,
    ensures
        varint_bytes(v).len() <= k,
    decreases v,
{
    if v >= 128 {
        if k == 1 {
            assert(pow128(1) == 128 * pow128(0));
        } else {
            let m = pow128((k - 1) as nat);
            assert(v / 128 < m) by (nonlinear_arith)
                requires
                    v < 128 * m,
            ;
            lemma_varint_len_bound(v / 128, (k - 1) as nat);
        }
    }
}

/// Byte `i + 1` of `v` is byte `i` of `v / 256`.
proof fn lemma_byte_of_shift(v: nat, i: nat)
    ensures
        byte_of(v, i + 1) == byte_of(v / 256, i),
{
    lemma_pow256_positive(i);
    lemma_div_denominator(v as int, 256, pow256(i) as int);
    assert(pow256(i + 1) == 256 * pow256(i));
    assert(256 * pow256(i) == pow256(i) * 256) by (nonlinear_arith);
}

/// `n` bytes read least significant first hold less than `256^n`.
pub proof fn lemma_le_value_bound(s: Seq<u8>)
    ensures
        le_value(s) < pow256(s.len()),
    decreases s.len(),
{
    if s.len() > 0 {
        lemma_le_value_bound(s.drop_first());
        let r = le_value(s.drop_first());
        let m = pow256((s.len() - 1) as nat);
        assert(s[0] as nat + 256 * r < 256 * m) by (nonlinear_arith)
            requires
                r < m,
                s[0] < 256,
        ;
    }
}

/// `n` bytes read most significant first hold less than `256^n`.
pub proof fn lemma_be_value_bound(s: Seq<u8>)
    ensures
        be_value(s) < pow256(s.len()),
    decreases s.len(),
{
    if s.len() > 0 {
        lemma_be_value_bound(s.drop_last());
        let r = be_value(s.drop_last());
        let m = pow256((s.len() - 1) as nat);
        assert(r * 256 + s.last() < 256 * m) by (nonlinear_arith)
            requires
                r < m,
                s.last() < 256,
        ;
    }
}

/// `n` bytes in either order hold less than `256^n`.
pub proof fn lemma_uint_value_bound(s: Seq<u8>, endian: Endian)
    ensures
        uint_value(s, endian) < pow256(s.len()),
{
    lemma_le_value_bound(s);
    lemma_be_value_bound(s);
}

/// Reading back `n` bytes of `v`, least significant first, gives `v`
/// modulo `256^n`.
pub proof fn lemma_le_round_trip(v: nat, n: nat)
    ensures
        le_value(uint_bytes(v, n, Endian::Little)) == v % pow256(n),
    decreases n,
{
    let s = uint_bytes(v, n, Endian::Little);
    if n == 0 {
        assert(v % 1 == 0) by (nonlinear_arith);
    } else {
        let rest = uint_bytes(v / 256, (n - 1) as nat, Endian::Little);
        assert forall|i: int| 0 <= i < n - 1 implies s.drop_first()[i] == rest[i] by {
            lemma_byte_of_shift(v, i as nat);
        }
        assert(s.drop_first() =~= rest);
        lemma_le_round_trip(v / 256, (n - 1) as nat);
        assert(s[0] == byte_of(v, 0));
        lemma_byte_of_zero(v);
        lemma_pow256_positive((n - 1) as nat);
        lemma_mod_breakdown(v as int, 256, pow256((n - 1) as nat) as int);
    }
}

/// Reading back `n` bytes of `v`, most significant first, gives `v`
/// modulo `256^n`.
pub proof fn lemma_be_round_trip(v: nat, n: nat)
    ensures
        be_value(uint_bytes(v, n, Endian::Big)) == v % pow256(n),
    decreases n,
{
    let s = uint_bytes(v, n, Endian::Big);
    if n == 0 {
        assert(v % 1 == 0) by (nonlinear_arith);
    } else {
        let rest = uint_bytes(v / 256, (n - 1) as nat, Endian::Big);
        assert forall|i: int| 0 <= i < n - 1 implies s.drop_last()[i] == rest[i] by {
            lemma_byte_of_shift(v, (n - 2 - i) as nat);
        }
        assert(s.drop_last() =~= rest);
        lemma_be_round_trip(v / 256, (n - 1) as nat);
        assert(s.last() == byte_of(v, 0));
        lemma_byte_of_zero(v);
        lemma_pow256_positive((n - 1) as nat);
        lemma_mod_breakdown(v as int, 256, pow256((n - 1) as nat) as int);
        let q = (v / 256) % pow256((n - 1) as nat);
        assert(q * 256 == 256 * q) by (nonlinear_arith);
    }
}

/// One byte is the same in either order.
pub proof fn lemma_uint_bytes_one(v: u8, endian: Endian)
    ensures
        uint_bytes(v as nat, 1, endian) == seq![v],
{
    lemma_byte_of_zero(v as nat);
    assert(uint_bytes(v as nat, 1, endian) =~= seq![v]);
}

/// Decoding the bytes of `v` in either order gives `v` back modulo `256^n`.
pub proof fn lemma_uint_round_trip(v: nat, n: nat, endian: Endian)
    ensures
        uint_bytes(v, n, endian).len() == n,
        uint_value(uint_bytes(v, n, endian), endian) == v % pow256(n),
{
    lemma_le_round_trip(v, n);
    lemma_be_round_trip(v, n);
}

/// Bytes written at `pos` are the bytes found there afterwards.
pub proof fn lemma_overwrite_read_back(data: Seq<u8>, pos: nat, bytes: Seq<u8>)
    ensures
        overwrite(data, pos, bytes).len() >= pos + bytes.len(),
        overwrite(data, pos, bytes).subrange(pos as int, (pos + bytes.len()) as int) == bytes,
{
    assert(overwrite(data, pos, bytes).subrange(pos as int, (pos + bytes.len()) as int) =~= bytes);
}

/// Two writes, one after the other, are one write of both.
pub proof fn lemma_overwrite_concat(data: Seq<u8>, pos: nat, a: Seq<u8>, b: Seq<u8>)
    ensures
        overwrite(overwrite(data, pos, a), pos + a.len(), b) == overwrite(data, pos, a + b),
{
    assert(overwrite(overwrite(data, pos, a), pos + a.len(), b) =~= overwrite(data, pos, a + b));
}

/// One byte read in either order is that byte.
pub proof fn lemma_uint_value_one(s: Seq<u8>, endian: Endian)
    requires
        s.len() == 1,
    ensures
        uint_value(s, endian) == s[0] as nat,
{
    assert(s.drop_first().len() == 0);
    assert(s.drop_last().len() == 0);
    assert(le_value(s.drop_first()) == 0);
    assert(be_value(s.drop_last()) == 0);
}

/// The bytes of `v` in the given order, as a vector.
pub fn uint_to_bytes(v: u64, n: usize, endian: Endian) -> (r: Vec<u8>)
    requires
        n <= 8,
    ensures
        r@ == uint_bytes(v as nat, n as nat, endian),
{
    proof {
        lemma_byte_of_zero(v as nat);
    }
    let mut r: Vec<u8> = vec![0u8; n];
    let mut x: u64 = v;
    let mut i: usize = 0;
    while i < n
        invariant
            n <= 8,
            i <= n,
            r@.len() == n,
            x as nat == v as nat / pow256(i as nat),
            endian == Endian::Little ==> forall|k: int|
                0 <= k < i ==> #[trigger] r@[k] == byte_of(v as nat, k as nat),
            endian == Endian::Big ==> forall|k: int|
                n - i <= k < n ==> #[trigger] r@[k] == byte_of(v as nat, (n - 1 - k) as nat),
        decreases n - i,
    {
        let b: u8 = (x % 256) as u8;
        assert(b == byte_of(v as nat, i as nat));
        match endian {
            Endian::Little => {
                r.set(i, b);
            },
            Endian::Big => {
                r.set(n - 1 - i, b);
            },
        }
        proof {
            lemma_pow256_positive(i as nat);
            lemma_div_denominator(v as int, pow256(i as nat) as int, 256);
            assert(pow256((i + 1) as nat) == 256 * pow256(i as nat));
            assert(pow256(i as nat) * 256 == 256 * pow256(i as nat)) by (nonlinear_arith);
        }
        x = x / 256;
        i = i + 1;
    }
    assert(r@ =~= uint_bytes(v as nat, n as nat, endian));
    r
}

/// The unsigned value of `s` in the given byte order.
pub fn uint_from_bytes(s: &[u8], endian: Endian) -> (r: u64)
    requires
        s@.len() <= 8,
    ensures
        r as nat == uint_value(s@, endian),
{
    let n: usize = s.len();
    let mut acc: u64 = 0;
    proof {
        lemma_pow256_values();
        lemma_pow256_monotone(n as nat, 8);
    }
    match endian {
        Endian::Little => {
            let mut i: usize = n;
            assert(s@.subrange(n as int, n as int) =~= Seq::<u8>::empty());
            while i > 0
                invariant
                    n == s@.len(),
                    n <= 8,
                    i <= n,
                    acc as nat == le_value(s@.subrange(i as int, n as int)),
                    pow256(8) == 0x1_0000_0000_0000_0000,
                decreases i,
            {
                let ghost tail = s@.subrange(i as int, n as int);
                let ghost next = s@.subrange(i - 1, n as int);
                assert(next.drop_first() =~= tail);
                proof {
                    lemma_le_value_bound(next);
                    lemma_pow256_monotone(next.len(), 8);
                }
                acc = acc * 256 + s[i - 1] as u64;
                i = i - 1;
            }
            assert(s@.subrange(0, n as int) =~= s@);
        },
        Endian::Big => {
            let mut i: usize = 0;
            assert(s@.subrange(0, 0) =~= Seq::<u8>::empty());
            while i < n
                invariant
                    n == s@.len(),
                    n <= 8,
                    i <= n,
                    acc as nat == be_value(s@.subrange(0, i as int)),
                    pow256(8) == 0x1_0000_0000_0000_0000,
                decreases n - i,
            {
                let ghost head = s@.subrange(0, i as int);
                let ghost next = s@.subrange(0, i + 1);
                assert(next.drop_last() =~= head);
                proof {
                    lemma_be_value_bound(next);
                    lemma_pow256_monotone(next.len(), 8);
                }
                acc = acc * 256 + s[i] as u64;
                i = i + 1;
            }
            assert(s@.subrange(0, n as int) =~= s@);
        },
    }
    acc
}

} // verus!
