//! The identifier sequence: a record of eight bytes that holds the next
//! identifier in the byte order of the machine.
//!
//! Taking the lock, reading the record and writing it back are the caller's
//! part. What is decided here is which identifier is handed out and what the
//! record holds afterwards.

use vstd::prelude::*;
use crate::error::AllocatorError;

verus! {

/// The length of the sequence record.
pub const SEQUENCE_BYTES: usize = 8;

/// The order in which a record holds the bytes of its number.
#[derive(Clone, Copy, Debug, PartialEq, Eq, Structural)]
pub enum ByteOrder {
    /// Least significant byte first.
    Little,
    /// Most significant byte first.
    Big,
}

/// How the attempt to lock the sequence record ended.
#[derive(Clone, Copy, Debug, PartialEq, Eq, Structural)]
pub enum LockOutcome {
    Held,
    TimedOut,
}

/// An identifier that was handed out, and the record to write back.
#[derive(Debug, PartialEq, Eq)]
pub struct Allocation {
    pub id: u64,
    pub record: Vec<u8>,
}

/// The number that eight bytes stand for, most significant byte first.
pub open spec fn big_endian_number(bytes: Seq<u8>) -> int
    recommends
        bytes.len() == 8,
{
    ((((((bytes[0] * 256 + bytes[1]) * 256 + bytes[2]) * 256 + bytes[3]) * 256 + bytes[4]) * 256
        + bytes[5]) * 256 + bytes[6]) * 256 + bytes[7]
}

/// The eight bytes of a number, most significant byte first.
pub open spec fn big_endian_bytes(value: u64) -> Seq<u8> {
    seq![
        (value / 256 / 256 / 256 / 256 / 256 / 256 / 256) as u8,
        (value / 256 / 256 / 256 / 256 / 256 / 256 % 256) as u8,
        (value / 256 / 256 / 256 / 256 / 256 % 256) as u8,
        (value / 256 / 256 / 256 / 256 % 256) as u8,
        (value / 256 / 256 / 256 % 256) as u8,
        (value / 256 / 256 % 256) as u8,
        (value / 256 % 256) as u8,
        (value % 256) as u8,
    ]
}

/// The number that a sequence record holds; `None` where the record is not
/// eight bytes long.
pub open spec fn sequence_number(record: Seq<u8>, order: ByteOrder) -> Option<u64> {
    if record.len() != SEQUENCE_BYTES {
        None
    } else {
        match order {
            ByteOrder::Big => Some(big_endian_number(record) as u64),
            ByteOrder::Little => Some(big_endian_number(record.reverse()) as u64),
        }
    }
}

/// The sequence record that holds a number.
pub open spec fn sequence_record(value: u64, order: ByteOrder) -> Seq<u8> {
    match order {
        ByteOrder::Big => big_endian_bytes(value),
        ByteOrder::Little => big_endian_bytes(value).reverse(),
    }
}

/// What becomes of a request for an identifier.
pub open spec fn allocation(lock: LockOutcome, record: Seq<u8>, order: ByteOrder) -> Result<
    (u64, Seq<u8>),
    AllocatorError,
> {
    if lock == LockOutcome::TimedOut {
        Err(AllocatorError::LockTimeout)
    } else {
        match sequence_number(record, order) {
            None => Err(AllocatorError::CorruptSequence),
            Some(next) => if next == u64::MAX {
                Err(AllocatorError::Exhausted)
            } else {
                Ok((next, sequence_record((next + 1) as u64, order)))
            },
        }
    }
}

/// The record of a number holds that number, in either byte order.
pub proof fn lemma_sequence_round_trip(value: u64, order: ByteOrder)
    ensures
        sequence_record(value, order).len() == SEQUENCE_BYTES,
        sequence_number(sequence_record(value, order), order) == Some(value),
{
    let bytes = big_endian_bytes(value);
    let q1 = value as int / 256;
    let q2 = q1 / 256;
    let q3 = q2 / 256;
    let q4 = q3 / 256;
    let q5 = q4 / 256;
    let q6 = q5 / 256;
    let q7 = q6 / 256;
    assert(q7 < 256);
    assert(q6 == q7 * 256 + bytes[1]);
    assert(q5 == q6 * 256 + bytes[2]);
    assert(q4 == q5 * 256 + bytes[3]);
    assert(q3 == q4 * 256 + bytes[4]);
    assert(q2 == q3 * 256 + bytes[5]);
    assert(q1 == q2 * 256 + bytes[6]);
    assert(value == q1 * 256 + bytes[7]);
    assert(big_endian_number(bytes) == value);
    assert(bytes.reverse().reverse() =~= bytes);
}

/// Each number has one record only: a record of eight bytes is the record of
/// the number that it holds.
pub proof fn lemma_sequence_record_is_unique(record: Seq<u8>, order: ByteOrder)
    requires
        record.len() == SEQUENCE_BYTES,
    ensures
        sequence_record(sequence_number(record, order).unwrap(), order) == record,
{
    let ordered = match order {
        ByteOrder::Big => record,
        ByteOrder::Little => record.reverse(),
    };
    let h1 = ordered[0] * 256 + ordered[1];
    let h2 = h1 * 256 + ordered[2];
    let h3 = h2 * 256 + ordered[3];
    let h4 = h3 * 256 + ordered[4];
    let h5 = h4 * 256 + ordered[5];
    let h6 = h5 * 256 + ordered[6];
    let h7 = h6 * 256 + ordered[7];
    assert(h7 == big_endian_number(ordered));
    assert(0 <= h7 <= u64::MAX);
    let value = h7 as u64;
    assert(value as int / 256 == h6);
    assert(h6 / 256 == h5);
    assert(h5 / 256 == h4);
    assert(h4 / 256 == h3);
    assert(h3 / 256 == h2);
    assert(h2 / 256 == h1);
    assert(h1 / 256 == ordered[0]);
    assert(big_endian_bytes(value) =~= ordered);
    assert(record.reverse().reverse() =~= record);
}

/// Handing out an identifier from the record of a number gives that number
/// and leaves the record of the next one: identifiers rise by one, without
/// gaps and without repeats.
pub proof fn lemma_allocation_counts_up(value: u64, order: ByteOrder)
    requires
        value < u64::MAX,
    ensures
        allocation(LockOutcome::Held, sequence_record(value, order), order) == Ok::<
            (u64, Seq<u8>),
            AllocatorError,
        >((value, sequence_record((value + 1) as u64, order))),
{
    lemma_sequence_round_trip(value, order);
}

impl ByteOrder {
    /// The byte order of the machine that runs this; the machine decides it.
    pub fn native() -> ByteOrder {
        ByteOrder::of_reading(native_u16([1, 0]))
    }

    /// The byte order that goes with what a machine reads from the bytes 1
    /// and 0 as one number of sixteen bits.
    pub fn of_reading(reading: u16) -> (r: ByteOrder)
        ensures
            r == order_of_reading(reading),
    {
        if reading == 1 {
            ByteOrder::Little
        } else {
            ByteOrder::Big
        }
    }
}

/// The byte order under which the bytes 1 and 0 stand for `reading`: with the
/// least significant byte first they stand for 1, with the most significant
/// byte first for 256.
pub open spec fn order_of_reading(reading: u16) -> ByteOrder {
    if reading == 1 {
        ByteOrder::Little
    } else {
        ByteOrder::Big
    }
}

fn byte_at(record: &[u8], place: usize, order: ByteOrder) -> (r: u64)
    requires
        record.len() == SEQUENCE_BYTES,
        place < SEQUENCE_BYTES,
    ensures
        order == ByteOrder::Big ==> r == record@[place as int],
        order == ByteOrder::Little ==> r == record@.reverse()[place as int],
{
    match order {
        ByteOrder::Big => record[place] as u64,
        ByteOrder::Little => record[SEQUENCE_BYTES - 1 - place] as u64,
    }
}

/// Reads the number that a sequence record holds.
pub fn read_sequence(record: &[u8], order: ByteOrder) -> (r: Result<u64, AllocatorError>)
    ensures
        match sequence_number(record@, order) {
            Some(value) => r == Ok::<u64, AllocatorError>(value),
            None => r == Err::<u64, AllocatorError>(AllocatorError::CorruptSequence),
        },
{
    if record.len() != SEQUENCE_BYTES {
        return Err(AllocatorError::CorruptSequence);
    }
    let b0: u64 = byte_at(record, 0, order);
    let b1: u64 = byte_at(record, 1, order);
    let b2: u64 = byte_at(record, 2, order);
    let b3: u64 = byte_at(record, 3, order);
    let b4: u64 = byte_at(record, 4, order);
    let b5: u64 = byte_at(record, 5, order);
    let b6: u64 = byte_at(record, 6, order);
    let b7: u64 = byte_at(record, 7, order);
    let h1: u64 = b0 * 256 + b1;
    let h2: u64 = h1 * 256 + b2;
    let h3: u64 = h2 * 256 + b3;
    let h4: u64 = h3 * 256 + b4;
    let h5: u64 = h4 * 256 + b5;
    let h6: u64 = h5 * 256 + b6;
    Ok(h6 * 256 + b7)
}

/// Writes the sequence record that holds a number.
pub fn write_sequence(value: u64, order: ByteOrder) -> (r: Vec<u8>)
    ensures
        r@ == sequence_record(value, order),
        sequence_number(r@, order) == Some(value),
{
    let q1: u64 = value / 256;
    let q2: u64 = q1 / 256;
    let q3: u64 = q2 / 256;
    let q4: u64 = q3 / 256;
    let q5: u64 = q4 / 256;
    let q6: u64 = q5 / 256;
    let q7: u64 = q6 / 256;
    let b0: u8 = q7 as u8;
    let b1: u8 = (q6 % 256) as u8;
    let b2: u8 = (q5 % 256) as u8;
    let b3: u8 = (q4 % 256) as u8;
    let b4: u8 = (q3 % 256) as u8;
    let b5: u8 = (q2 % 256) as u8;
    let b6: u8 = (q1 % 256) as u8;
    let b7: u8 = (value % 256) as u8;
    let out: Vec<u8> = match order {
        ByteOrder::Big => vec![b0, b1, b2, b3, b4, b5, b6, b7],
        ByteOrder::Little => vec![b7, b6, b5, b4, b3, b2, b1, b0],
    };
    proof {
        assert(out@ =~= sequence_record(value, order));
        lemma_sequence_round_trip(value, order);
    }
    out
}

/// Hands out the next identifier.
///
/// Without the lock nothing is handed out. With it, the identifier is the
/// number that the record holds, and the record to write back holds the number
/// after it. A record that is not eight bytes long is corrupt, and the largest
/// number is never handed out, since no record could hold its successor.
pub fn get_unique_id(lock: LockOutcome, record: &[u8], order: ByteOrder) -> (r: Result<
    Allocation,
    AllocatorError,
>)
    ensures
        match r {
            Ok(given) => allocation(lock, record@, order) == Ok::<(u64, Seq<u8>), AllocatorError>(
                (given.id, given.record@),
            ) && sequence_number(given.record@, order) == Some((given.id + 1) as u64),
            Err(error) => allocation(lock, record@, order) == Err::<
                (u64, Seq<u8>),
                AllocatorError,
            >(error),
        },
{
    match lock {
        LockOutcome::TimedOut => {
            return Err(AllocatorError::LockTimeout);
        },
        LockOutcome::Held => {},
    }
    let next: u64 = match read_sequence(record, order) {
        Ok(value) => value,
        Err(error) => {
            return Err(error);
        },
    };
    if next == u64::MAX {
        return Err(AllocatorError::Exhausted);
    }
    Ok(Allocation { id: next, record: write_sequence(next + 1, order) })
}

/// Calls `u16::from_ne_bytes`, which reads the two bytes in the byte order of
/// the machine: the result is one of the two readings.
#[verifier::external_body]
fn native_u16(bytes: [u8; 2]) -> (r: u16)
    ensures
        r == bytes[0] + 256 * bytes[1] || r == 256 * bytes[0] + bytes[1],
{
    u16::from_ne_bytes(bytes)
}

} // verus!
