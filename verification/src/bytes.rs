//! Fixed-width integers as little- and big-endian bytes, through `byteorder`.
use vstd::prelude::*;

use byteorder::ByteOrder;

verus! {

/// The number that little-endian bytes denote.
pub open spec fn le_value(s: Seq<u8>) -> nat
    decreases s.len(),
{
    if s.len() == 0 {
        0
    } else {
        s[0] as nat + 256 * le_value(s.drop_first())
    }
}

/// The number that big-endian bytes denote.
pub open spec fn be_value(s: Seq<u8>) -> nat
    decreases s.len(),
{
    if s.len() == 0 {
        0
    } else {
        be_value(s.drop_last()) * 256 + s.last() as nat
    }
}

/// The `k` low bytes of `n`, least significant first.
pub open spec fn le_bytes(n: nat, k: nat) -> Seq<u8>
    decreases k,
{
    if k == 0 {
        Seq::empty()
    } else {
        seq![(n % 256) as u8] + le_bytes(n / 256, (k - 1) as nat)
    }
}

/// The `k` low bytes of `n`, most significant first.
pub open spec fn be_bytes(n: nat, k: nat) -> Seq<u8>
    decreases k,
{
    if k == 0 {
        Seq::empty()
    } else {
        be_bytes(n / 256, (k - 1) as nat).push((n % 256) as u8)
    }
}

pub open spec fn pow256(k: nat) -> nat
    decreases k,
{
    if k == 0 {
        1
    } else {
        256 * pow256((k - 1) as nat)
    }
}

/// The two's-complement reading of `v` modulo `m`.
pub open spec fn signed_of(v: nat, m: nat) -> int {
    if v >= m / 2 {
        v - m
    } else {
        v as int
    }
}

/// The two's-complement bits of `v` modulo `m`.
pub open spec fn unsigned_of(v: int, m: nat) -> nat {
    if v < 0 {
        (v + m) as nat
    } else {
        v as nat
    }
}

pub proof fn lemma_le_bytes_len(n: nat, k: nat)
    ensures
        le_bytes(n, k).len() == k,
    decreases k,
{
    if k > 0 {
        lemma_le_bytes_len(n / 256, (k - 1) as nat);
    }
}

pub proof fn lemma_be_bytes_len(n: nat, k: nat)
    ensures
        be_bytes(n, k).len() == k,
    decreases k,
{
    if k > 0 {
        lemma_be_bytes_len(n / 256, (k - 1) as nat);
    }
}

/// Little-endian bytes read back as the number they were written from.
pub proof fn lemma_le_roundtrip(n: nat, k: nat)
    requires
        n < pow256(k),
    ensures
        le_value(le_bytes(n, k)) == n,
    decreases k,
{
    if k == 0 {
    } else {
        let q = n / 256;
        assert(q < pow256((k - 1) as nat)) by (nonlinear_arith)
            requires
                n < 256 * pow256((k - 1) as nat),
                q == n / 256,
        ;
        lemma_le_roundtrip(q, (k - 1) as nat);
        let s = le_bytes(n, k);
        assert(s.drop_first() =~= le_bytes(q, (k - 1) as nat));
        assert(s[0] == (n % 256) as u8);
        assert(n == (n % 256) + 256 * q) by (nonlinear_arith)
            requires
                q == n / 256,
        ;
    }
}

/// Big-endian bytes read back as the number they were written from.
pub proof fn lemma_be_roundtrip(n: nat, k: nat)
    requires
        n < pow256(k),
    ensures
        be_value(be_bytes(n, k)) == n,
    decreases k,
{
    if k == 0 {
    } else {
        let q = n / 256;
        assert(q < pow256((k - 1) as nat)) by (nonlinear_arith)
            requires
                n < 256 * pow256((k - 1) as nat),
                q == n / 256,
        ;
        lemma_be_roundtrip(q, (k - 1) as nat);
        let s = be_bytes(n, k);
        assert(s.drop_last() =~= be_bytes(q, (k - 1) as nat));
        assert(n == q * 256 + (n % 256)) by (nonlinear_arith)
            requires
                q == n / 256,
        ;
    }
}

/// `LittleEndian::read_u16`: the first two bytes at `pos`, least significant first.
#[verifier::external_body]
pub(crate) fn le_read_u16(buf: &[u8], pos: usize) -> (r: u16)
    requires
        pos + 2 <= buf@.len(),
    ensures
        r as nat == le_value(buf@.subrange(pos as int, pos + 2)),
{
    byteorder::LittleEndian::read_u16(&buf[pos..])
}

/// `BigEndian::read_u16`: the first two bytes at `pos`, most significant first.
#[verifier::external_body]
pub(crate) fn be_read_u16(buf: &[u8], pos: usize) -> (r: u16)
    requires
        pos + 2 <= buf@.len(),
    ensures
        r as nat == be_value(buf@.subrange(pos as int, pos + 2)),
{
    byteorder::BigEndian::read_u16(&buf[pos..])
}

/// `LittleEndian::read_i16`: `read_u16` taken as two's complement.
#[verifier::external_body]
pub(crate) fn le_read_i16(buf: &[u8], pos: usize) -> (r: i16)
    requires
        pos + 2 <= buf@.len(),
    ensures
        r as int == signed_of(le_value(buf@.subrange(pos as int, pos + 2)), 0x1_0000),
{
    byteorder::LittleEndian::read_i16(&buf[pos..])
}

/// `BigEndian::read_i16`: `read_u16` taken as two's complement.
#[verifier::external_body]
pub(crate) fn be_read_i16(buf: &[u8], pos: usize) -> (r: i16)
    requires
        pos + 2 <= buf@.len(),
    ensures
        r as int == signed_of(be_value(buf@.subrange(pos as int, pos + 2)), 0x1_0000),
{
    byteorder::BigEndian::read_i16(&buf[pos..])
}

/// `LittleEndian::read_u32`: the first four bytes at `pos`, least significant first.
#[verifier::external_body]
pub(crate) fn le_read_u32(buf: &[u8], pos: usize) -> (r: u32)
    requires
        pos + 4 <= buf@.len(),
    ensures
        r as nat == le_value(buf@.subrange(pos as int, pos + 4)),
{
    byteorder::LittleEndian::read_u32(&buf[pos..])
}

/// `BigEndian::read_u32`: the first four bytes at `pos`, most significant first.
#[verifier::external_body]
pub(crate) fn be_read_u32(buf: &[u8], pos: usize) -> (r: u32)
    requires
        pos + 4 <= buf@.len(),
    ensures
        r as nat == be_value(buf@.subrange(pos as int, pos + 4)),
{
    byteorder::BigEndian::read_u32(&buf[pos..])
}

/// `LittleEndian::read_i32`: `read_u32` taken as two's complement.
#[verifier::external_body]
pub(crate) fn le_read_i32(buf: &[u8], pos: usize) -> (r: i32)
    requires
        pos + 4 <= buf@.len(),
    ensures
        r as int == signed_of(le_value(buf@.subrange(pos as int, pos + 4)), 0x1_0000_0000),
{
    byteorder::LittleEndian::read_i32(&buf[pos..])
}

/// `BigEndian::read_i32`: `read_u32` taken as two's complement.
#[verifier::external_body]
pub(crate) fn be_read_i32(buf: &[u8], pos: usize) -> (r: i32)
    requires
        pos + 4 <= buf@.len(),
    ensures
        r as int == signed_of(be_value(buf@.subrange(pos as int, pos + 4)), 0x1_0000_0000),
{
    byteorder::BigEndian::read_i32(&buf[pos..])
}

/// `LittleEndian::read_u64`: the first eight bytes at `pos`, least significant first.
#[verifier::external_body]
pub(crate) fn le_read_u64(buf: &[u8], pos: usize) -> (r: u64)
    requires
        pos + 8 <= buf@.len(),
    ensures
        r as nat == le_value(buf@.subrange(pos as int, pos + 8)),
{
    byteorder::LittleEndian::read_u64(&buf[pos..])
}

/// `BigEndian::read_u64`: the first eight bytes at `pos`, most significant first.
#[verifier::external_body]
pub(crate) fn be_read_u64(buf: &[u8], pos: usize) -> (r: u64)
    requires
        pos + 8 <= buf@.len(),
    ensures
        r as nat == be_value(buf@.subrange(pos as int, pos + 8)),
{
    byteorder::BigEndian::read_u64(&buf[pos..])
}

/// `LittleEndian::write_u16`: the two bytes of `n`, least significant first.
#[verifier::external_body]
pub(crate) fn le_write_u16(n: u16) -> (r: [u8; 2])
    ensures
        r@ == le_bytes(n as nat, 2),
{
    let mut b = [0u8; 2];
    byteorder::LittleEndian::write_u16(&mut b, n);
    b
}

/// `BigEndian::write_u16`: the two bytes of `n`, most significant first.
#[verifier::external_body]
pub(crate) fn be_write_u16(n: u16) -> (r: [u8; 2])
    ensures
        r@ == be_bytes(n as nat, 2),
{
    let mut b = [0u8; 2];
    byteorder::BigEndian::write_u16(&mut b, n);
    b
}

/// `LittleEndian::write_i16`: the two's-complement bytes of `n`, least significant first.
#[verifier::external_body]
pub(crate) fn le_write_i16(n: i16) -> (r: [u8; 2])
    ensures
        r@ == le_bytes(unsigned_of(n as int, 0x1_0000), 2),
{
    let mut b = [0u8; 2];
    byteorder::LittleEndian::write_i16(&mut b, n);
    b
}

/// `BigEndian::write_i16`: the two's-complement bytes of `n`, most significant first.
#[verifier::external_body]
pub(crate) fn be_write_i16(n: i16) -> (r: [u8; 2])
    ensures
        r@ == be_bytes(unsigned_of(n as int, 0x1_0000), 2),
{
    let mut b = [0u8; 2];
    byteorder::BigEndian::write_i16(&mut b, n);
    b
}

/// `LittleEndian::write_u32`: the four bytes of `n`, least significant first.
#[verifier::external_body]
pub(crate) fn le_write_u32(n: u32) -> (r: [u8; 4])
    ensures
        r@ == le_bytes(n as nat, 4),
{
    let mut b = [0u8; 4];
    byteorder::LittleEndian::write_u32(&mut b, n);
    b
}

/// `BigEndian::write_u32`: the four bytes of `n`, most significant first.
#[verifier::external_body]
pub(crate) fn be_write_u32(n: u32) -> (r: [u8; 4])
    ensures
        r@ == be_bytes(n as nat, 4),
{
    let mut b = [0u8; 4];
    byteorder::BigEndian::write_u32(&mut b, n);
    b
}

/// `LittleEndian::write_i32`: the two's-complement bytes of `n`, least significant first.
#[verifier::external_body]
pub(crate) fn le_write_i32(n: i32) -> (r: [u8; 4])
    ensures
        r@ == le_bytes(unsigned_of(n as int, 0x1_0000_0000), 4),
{
    let mut b = [0u8; 4];
    byteorder::LittleEndian::write_i32(&mut b, n);
    b
}

/// `BigEndian::write_i32`: the two's-complement bytes of `n`, most significant first.
#[verifier::external_body]
pub(crate) fn be_write_i32(n: i32) -> (r: [u8; 4])
    ensures
        r@ == be_bytes(unsigned_of(n as int, 0x1_0000_0000), 4),
{
    let mut b = [0u8; 4];
    byteorder::BigEndian::write_i32(&mut b, n);
    b
}

/// `LittleEndian::write_u64`: the eight bytes of `n`, least significant first.
#[verifier::external_body]
pub(crate) fn le_write_u64(n: u64) -> (r: [u8; 8])
    ensures
        r@ == le_bytes(n as nat, 8),
{
    let mut b = [0u8; 8];
    byteorder::LittleEndian::write_u64(&mut b, n);
    b
}

/// `BigEndian::write_u64`: the eight bytes of `n`, most significant first.
#[verifier::external_body]
pub(crate) fn be_write_u64(n: u64) -> (r: [u8; 8])
    ensures
        r@ == be_bytes(n as nat, 8),
{
    let mut b = [0u8; 8];
    byteorder::BigEndian::write_u64(&mut b, n);
    b
}

} // verus!
