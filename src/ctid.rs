//! The `ctid` system column of a table, and the `tid` values it holds.

use vstd::prelude::*;
use std::marker::PhantomData;

verus! {

/// The `ctid` column of the table `T`.
#[derive(Debug)]
pub struct Ctid<T> {
    table: PhantomData<T>,
}

/// The `ctid` column of `table`.
pub fn ctid<T>(table: T) -> (r: Ctid<T>) {
    let _ = table;
    Ctid { table: PhantomData }
}

/// The SQL type of a tuple identifier.
#[derive(Debug, Copy, Clone, Default)]
pub struct Tid;

/// A tuple identifier: the block of a row's page and its offset there.
#[derive(Debug, Copy, Clone, PartialEq, Eq, Structural)]
pub struct TidValue {
    pub block_number: u32,
    pub offset_number: u16,
}

/// Why a stored tuple identifier could not be read.
#[derive(Debug, Copy, Clone, PartialEq, Eq, Structural)]
pub enum TidError {
    /// Fewer than four bytes: no block number.
    InvalidBlockNumber,
    /// Fewer than two bytes after the block number: no offset number.
    InvalidOffsetNumber,
}

/// The big-endian number of four bytes.
pub open spec fn be_u32(b0: u8, b1: u8, b2: u8, b3: u8) -> int {
    b0 as int * 0x1000000 + b1 as int * 0x10000 + b2 as int * 0x100 + b3 as int
}

/// The big-endian number of two bytes.
pub open spec fn be_u16(b0: u8, b1: u8) -> int {
    b0 as int * 0x100 + b1 as int
}

/// The stored form of a tuple identifier: the block number in four
/// big-endian bytes, then the offset number in two.
pub open spec fn tid_bytes(v: TidValue) -> Seq<u8> {
    seq![
        (v.block_number / 0x1000000) as u8,
        (v.block_number / 0x10000 % 0x100) as u8,
        (v.block_number / 0x100 % 0x100) as u8,
        (v.block_number % 0x100) as u8,
        (v.offset_number / 0x100) as u8,
        (v.offset_number % 0x100) as u8,
    ]
}

impl TidValue {
    /// Reads a stored tuple identifier; bytes after the sixth are ignored.
    pub fn from_bytes(bytes: &[u8]) -> (r: Result<TidValue, TidError>)
        ensures
            bytes@.len() < 4 ==> r == Err::<TidValue, TidError>(TidError::InvalidBlockNumber),
            4 <= bytes@.len() < 6 ==> r == Err::<TidValue, TidError>(
                TidError::InvalidOffsetNumber,
            ),
            bytes@.len() >= 6 ==> r is Ok && r.unwrap().block_number == be_u32(
                bytes@[0],
                bytes@[1],
                bytes@[2],
                bytes@[3],
            ) && r.unwrap().offset_number == be_u16(bytes@[4], bytes@[5]),
    {
        if bytes.len() < 4 {
            return Err(TidError::InvalidBlockNumber);
        }
        if bytes.len() < 6 {
            return Err(TidError::InvalidOffsetNumber);
        }
        let block_number = (bytes[0] as u32) * 0x1000000 + (bytes[1] as u32) * 0x10000 + (
        bytes[2] as u32) * 0x100 + bytes[3] as u32;
        let offset_number = (bytes[4] as u16) * 0x100 + bytes[5] as u16;
        Ok(TidValue { block_number, offset_number })
    }

    /// Writes the stored form of the tuple identifier.
    pub fn to_bytes(&self) -> (r: Vec<u8>)
        ensures
            r@ == tid_bytes(*self),
    {
        let b = self.block_number;
        let o = self.offset_number;
        let mut out: Vec<u8> = Vec::new();
        out.push((b / 0x1000000) as u8);
        out.push((b / 0x10000 % 0x100) as u8);
        out.push((b / 0x100 % 0x100) as u8);
        out.push((b % 0x100) as u8);
        out.push((o / 0x100) as u8);
        out.push((o % 0x100) as u8);
        assert(out@ =~= tid_bytes(*self));
        out
    }
}

/// Reading the stored form of a tuple identifier gives it back.
pub proof fn lemma_tid_round_trip(v: TidValue)
    ensures
        tid_bytes(v).len() == 6,
        be_u32(tid_bytes(v)[0], tid_bytes(v)[1], tid_bytes(v)[2], tid_bytes(v)[3])
            == v.block_number,
        be_u16(tid_bytes(v)[4], tid_bytes(v)[5]) == v.offset_number,
{
    let b = v.block_number as int;
    let o = v.offset_number as int;
    assert(b == (b / 0x1000000) * 0x1000000 + (b / 0x10000 % 0x100) * 0x10000 + (b / 0x100
        % 0x100) * 0x100 + b % 0x100) by (nonlinear_arith)
        requires
            0 <= b < 0x100000000,
    ;
    assert(o == (o / 0x100) * 0x100 + o % 0x100) by (nonlinear_arith)
        requires
            0 <= o < 0x10000,
    ;
}

} // verus!
