//! Little-endian (and one big-endian) fixed-width integer views over byte
//! buffers. Every stored record in this crate is laid out from these
//! primitives, so no structure depends on the language's default layout.
use vstd::prelude::*;
use vstd::arithmetic::div_mod::lemma_fundamental_div_mod;

verus! {

/// The `u16` held in little-endian order at `b[i], b[i + 1]`.
pub open spec fn le16_at(b: Seq<u8>, i: int) -> u16 {
    (b[i] + 0x100 * b[i + 1]) as u16
}

/// The `u32` held in little-endian order at `b[i .. i + 4]`.
pub open spec fn le32_at(b: Seq<u8>, i: int) -> u32 {
    (b[i] + 0x100 * b[i + 1] + 0x1_0000 * b[i + 2] + 0x100_0000 * b[i + 3]) as u32
}

/// The `u64` held in little-endian order at `b[i .. i + 8]`.
pub open spec fn le64_at(b: Seq<u8>, i: int) -> u64 {
    (b[i] + 0x100 * b[i + 1] + 0x1_0000 * b[i + 2] + 0x100_0000 * b[i + 3]
        + 0x1_0000_0000 * b[i + 4] + 0x100_0000_0000 * b[i + 5]
        + 0x1_0000_0000_0000 * b[i + 6] + 0x100_0000_0000_0000 * b[i + 7]) as u64
}

/// The `u128` held in little-endian order at `b[i .. i + 16]`.
pub open spec fn le128_at(b: Seq<u8>, i: int) -> u128 {
    (b[i] + 0x100 * b[i + 1] + 0x1_0000 * b[i + 2] + 0x100_0000 * b[i + 3]
        + 0x1_0000_0000 * b[i + 4] + 0x100_0000_0000 * b[i + 5]
        + 0x1_0000_0000_0000 * b[i + 6] + 0x100_0000_0000_0000 * b[i + 7]
        + 0x1_0000_0000_0000_0000 * b[i + 8]
        + 0x100_0000_0000_0000_0000 * b[i + 9]
        + 0x1_0000_0000_0000_0000_0000 * b[i + 10]
        + 0x100_0000_0000_0000_0000_0000 * b[i + 11]
        + 0x1_0000_0000_0000_0000_0000_0000 * b[i + 12]
        + 0x100_0000_0000_0000_0000_0000_0000 * b[i + 13]
        + 0x1_0000_0000_0000_0000_0000_0000_0000 * b[i + 14]
        + 0x100_0000_0000_0000_0000_0000_0000_0000 * b[i + 15]) as u128
}

/// The `u128` held in big-endian order in the 16-byte sequence `b`.
pub open spec fn be128_of(b: Seq<u8>) -> u128 {
    (b[15] + 0x100 * b[14] + 0x1_0000 * b[13] + 0x100_0000 * b[12]
        + 0x1_0000_0000 * b[11] + 0x100_0000_0000 * b[10]
        + 0x1_0000_0000_0000 * b[9] + 0x100_0000_0000_0000 * b[8]
        + 0x1_0000_0000_0000_0000 * b[7]
        + 0x100_0000_0000_0000_0000 * b[6]
        + 0x1_0000_0000_0000_0000_0000 * b[5]
        + 0x100_0000_0000_0000_0000_0000 * b[4]
        + 0x1_0000_0000_0000_0000_0000_0000 * b[3]
        + 0x100_0000_0000_0000_0000_0000_0000 * b[2]
        + 0x1_0000_0000_0000_0000_0000_0000_0000 * b[1]
        + 0x100_0000_0000_0000_0000_0000_0000_0000 * b[0]) as u128
}

pub fn read_u16_at(b: &Vec<u8>, i: usize) -> (r: u16)
    requires
        i + 2 <= b@.len(),
    ensures
        r == le16_at(b@, i as int),
{
    let n: usize = b.len();
    (b[i] as u16) + 0x100 * (b[i + 1] as u16)
}

pub fn read_u32_at(b: &Vec<u8>, i: usize) -> (r: u32)
    requires
        i + 4 <= b@.len(),
    ensures
        r == le32_at(b@, i as int),
{
    let n: usize = b.len();
    (b[i] as u32) + 0x100 * (b[i + 1] as u32) + 0x1_0000 * (b[i + 2] as u32)
        + 0x100_0000 * (b[i + 3] as u32)
}

pub fn read_u64_at(b: &Vec<u8>, i: usize) -> (r: u64)
    requires
        i + 8 <= b@.len(),
    ensures
        r == le64_at(b@, i as int),
{
    let n: usize = b.len();
    (b[i] as u64) + 0x100 * (b[i + 1] as u64) + 0x1_0000 * (b[i + 2] as u64)
        + 0x100_0000 * (b[i + 3] as u64) + 0x1_0000_0000 * (b[i + 4] as u64)
        + 0x100_0000_0000 * (b[i + 5] as u64) + 0x1_0000_0000_0000 * (b[i + 6] as u64)
        + 0x100_0000_0000_0000 * (b[i + 7] as u64)
}

pub fn read_u128_at(b: &Vec<u8>, i: usize) -> (r: u128)
    requires
        i + 16 <= b@.len(),
    ensures
        r == le128_at(b@, i as int),
{
    let n: usize = b.len();
    (b[i] as u128) + 0x100 * (b[i + 1] as u128) + 0x1_0000 * (b[i + 2] as u128)
        + 0x100_0000 * (b[i + 3] as u128) + 0x1_0000_0000 * (b[i + 4] as u128)
        + 0x100_0000_0000 * (b[i + 5] as u128) + 0x1_0000_0000_0000 * (b[i + 6] as u128)
        + 0x100_0000_0000_0000 * (b[i + 7] as u128)
        + 0x1_0000_0000_0000_0000 * (b[i + 8] as u128)
        + 0x100_0000_0000_0000_0000 * (b[i + 9] as u128)
        + 0x1_0000_0000_0000_0000_0000 * (b[i + 10] as u128)
        + 0x100_0000_0000_0000_0000_0000 * (b[i + 11] as u128)
        + 0x1_0000_0000_0000_0000_0000_0000 * (b[i + 12] as u128)
        + 0x100_0000_0000_0000_0000_0000_0000 * (b[i + 13] as u128)
        + 0x1_0000_0000_0000_0000_0000_0000_0000 * (b[i + 14] as u128)
        + 0x100_0000_0000_0000_0000_0000_0000_0000 * (b[i + 15] as u128)
}

/// Big-endian `u128` of a 16-byte buffer, as a fixed hash digest is read.
pub fn read_u128_be(b: &[u8; 16]) -> (r: u128)
    ensures
        r == be128_of(b@),
{
    (b[15] as u128) + 0x100 * (b[14] as u128) + 0x1_0000 * (b[13] as u128)
        + 0x100_0000 * (b[12] as u128) + 0x1_0000_0000 * (b[11] as u128)
        + 0x100_0000_0000 * (b[10] as u128) + 0x1_0000_0000_0000 * (b[9] as u128)
        + 0x100_0000_0000_0000 * (b[8] as u128)
        + 0x1_0000_0000_0000_0000 * (b[7] as u128)
        + 0x100_0000_0000_0000_0000 * (b[6] as u128)
        + 0x1_0000_0000_0000_0000_0000 * (b[5] as u128)
        + 0x100_0000_0000_0000_0000_0000 * (b[4] as u128)
        + 0x1_0000_0000_0000_0000_0000_0000 * (b[3] as u128)
        + 0x100_0000_0000_0000_0000_0000_0000 * (b[2] as u128)
        + 0x1_0000_0000_0000_0000_0000_0000_0000 * (b[1] as u128)
        + 0x100_0000_0000_0000_0000_0000_0000_0000 * (b[0] as u128)
}

/// The little-endian bytes of a `u32`, least significant first.
pub open spec fn u32_le_bytes(v: u32) -> Seq<u8> {
    seq![
        (v % 0x100) as u8,
        ((v / 0x100) % 0x100) as u8,
        ((v / 0x1_0000) % 0x100) as u8,
        (v / 0x100_0000) as u8,
    ]
}

/// Writing the four bytes of `u32_le_bytes(v)` at `i` stores exactly `v`
/// there when read back through `le32_at`.
pub proof fn lemma_u32_le_round_trip(b: Seq<u8>, i: int, v: u32)
    requires
        0 <= i,
        i + 4 <= b.len(),
        b[i] == u32_le_bytes(v)[0],
        b[i + 1] == u32_le_bytes(v)[1],
        b[i + 2] == u32_le_bytes(v)[2],
        b[i + 3] == u32_le_bytes(v)[3],
    ensures
        le32_at(b, i) == v,
{
    lemma_fundamental_div_mod(v as int, 0x100);
    lemma_fundamental_div_mod(v as int / 0x100, 0x100);
    lemma_fundamental_div_mod(v as int / 0x100 / 0x100, 0x100);
    assert(v as int / 0x100 / 0x100 == v as int / 0x1_0000) by (nonlinear_arith);
    assert(v as int / 0x100 / 0x100 / 0x100 == v as int / 0x100_0000) by (nonlinear_arith);
    assert(v as int / 0x100_0000 < 0x100) by (nonlinear_arith)
        requires v < 0x1_0000_0000int;
}

/// Stores `v` in little-endian order at `b[i .. i + 4]`, leaving every other
/// byte of `b` unchanged.
pub fn write_u32_at(b: &mut Vec<u8>, i: usize, v: u32)
    requires
        i + 4 <= old(b)@.len(),
    ensures
        final(b)@.len() == old(b)@.len(),
        forall|j: int| 0 <= j < old(b)@.len() && !(i <= j < i + 4) ==> final(b)@[j] == old(b)@[j],
        final(b)@[i as int] == u32_le_bytes(v)[0],
        final(b)@[i + 1] == u32_le_bytes(v)[1],
        final(b)@[i + 2] == u32_le_bytes(v)[2],
        final(b)@[i + 3] == u32_le_bytes(v)[3],
        le32_at(final(b)@, i as int) == v,
{
    let n: usize = b.len();
    let b0: u8 = (v % 0x100) as u8;
    let b1: u8 = ((v / 0x100) % 0x100) as u8;
    let b2: u8 = ((v / 0x1_0000) % 0x100) as u8;
    let b3: u8 = (v / 0x100_0000) as u8;
    proof {
        assert(v / 0x100_0000 < 0x100) by (nonlinear_arith)
            requires v < 0x1_0000_0000int;
    }
    b.set(i, b0);
    b.set(i + 1, b1);
    b.set(i + 2, b2);
    b.set(i + 3, b3);
    proof {
        lemma_u32_le_round_trip(b@, i as int, v);
    }
}

/// The `i32` whose two's-complement little-endian bytes stand at
/// `b[i .. i + 4]`, written as a value shift of the unsigned reading.
pub open spec fn le_i32_at(b: Seq<u8>, i: int) -> i32 {
    if le32_at(b, i) <= i32::MAX {
        le32_at(b, i) as i32
    } else {
        (le32_at(b, i) - 0x1_0000_0000) as i32
    }
}

/// The `i32` stored little-endian in a 4-byte array.
pub fn read_i32_arr4(b: &[u8; 4]) -> (r: i32)
    ensures
        r == le_i32_at(b@, 0),
{
    let v: u32 = (b[0] as u32) + 0x100 * (b[1] as u32) + 0x1_0000 * (b[2] as u32) + 0x100_0000 * (
    b[3] as u32);
    if v <= 0x7fff_ffff {
        v as i32
    } else {
        let w: i64 = (v as i64) - 0x1_0000_0000;
        w as i32
    }
}

pub fn read_i32_at(b: &Vec<u8>, i: usize) -> (r: i32)
    requires
        i + 4 <= b@.len(),
    ensures
        r == le_i32_at(b@, i as int),
{
    let n: usize = b.len();
    let v: u32 = read_u32_at(b, i);
    if v <= 0x7fff_ffff {
        v as i32
    } else {
        let w: i64 = (v as i64) - 0x1_0000_0000;
        w as i32
    }
}

} // verus!
