use vstd::prelude::*;

verus! {

/// Number of bytes the sequence counter takes at the start of a payload.
pub const SEQUENCE_BYTES: usize = 8;

/// Byte `i` (0 is the least significant) of `x` in little-endian order.
pub open spec fn le_byte(x: u64, i: int) -> u8 {
    ((x >> (8 * i) as u64) & 0xff) as u8
}

/// The unsigned 64-bit integer whose little-endian bytes are `b[0..8]`.
pub open spec fn le_u64(b: Seq<u8>) -> u64 {
    (b[0] as u64) | ((b[1] as u64) << 8u64) | ((b[2] as u64) << 16u64) | ((b[3] as u64) << 24u64)
        | ((b[4] as u64) << 32u64) | ((b[5] as u64) << 40u64) | ((b[6] as u64) << 48u64) | ((
    b[7] as u64) << 56u64)
}

/// What the start of a payload says: the sequence counter when the payload is
/// long enough to hold one.
pub open spec fn payload_sequence(b: Seq<u8>) -> Option<u64> {
    if b.len() >= SEQUENCE_BYTES {
        Some(le_u64(b))
    } else {
        None
    }
}

/// A payload of `payload_size` bytes that carries `sequence` as a little-endian
/// counter in its first eight bytes; the other bytes are zero. A payload too
/// short for the counter is all zeros.
pub fn sequence_payload(sequence: u64, payload_size: usize) -> (r: Vec<u8>)
    ensures
        r@.len() == payload_size,
        forall|i: int|
            0 <= i < payload_size ==> #[trigger] r@[i] == if payload_size >= SEQUENCE_BYTES && i
                < SEQUENCE_BYTES {
                le_byte(sequence, i)
            } else {
                0u8
            },
{
    let mut r: Vec<u8> = Vec::new();
    let mut i: usize = 0;
    while i < payload_size
        invariant
            i <= payload_size,
            r@.len() == i,
            forall|j: int|
                0 <= j < i ==> #[trigger] r@[j] == if payload_size >= SEQUENCE_BYTES && j
                    < SEQUENCE_BYTES {
                    le_byte(sequence, j)
                } else {
                    0u8
                },
        decreases payload_size - i,
    {
        let byte: u8 = if payload_size >= SEQUENCE_BYTES && i < SEQUENCE_BYTES {
            let shift: u64 = 8 * i as u64;
            ((sequence >> shift) & 0xff) as u8
        } else {
            0
        };
        r.push(byte);
        i = i + 1;
    }
    r
}

/// Reads the sequence counter from the first eight bytes of a received
/// payload; `None` when fewer than eight bytes arrived.
pub fn read_sequence(payload: &[u8]) -> (r: Option<u64>)
    ensures
        r == payload_sequence(payload@),
{
    if payload.len() < SEQUENCE_BYTES {
        None
    } else {
        let v: u64 = (payload[0] as u64) | ((payload[1] as u64) << 8u64) | ((payload[2] as u64)
            << 16u64) | ((payload[3] as u64) << 24u64) | ((payload[4] as u64) << 32u64) | ((
        payload[5] as u64) << 40u64) | ((payload[6] as u64) << 48u64) | ((payload[7] as u64)
            << 56u64);
        Some(v)
    }
}

proof fn lemma_le_bytes_round_trip(x: u64)
    ensures
        (((x >> 0u64) & 0xff) as u8 as u64) | ((((x >> 8u64) & 0xff) as u8 as u64) << 8u64) | ((((x
            >> 16u64) & 0xff) as u8 as u64) << 16u64) | ((((x >> 24u64) & 0xff) as u8 as u64)
            << 24u64) | ((((x >> 32u64) & 0xff) as u8 as u64) << 32u64) | ((((x >> 40u64) & 0xff)
            as u8 as u64) << 40u64) | ((((x >> 48u64) & 0xff) as u8 as u64) << 48u64) | ((((x
            >> 56u64) & 0xff) as u8 as u64) << 56u64) == x,
{
    assert((((x >> 0u64) & 0xff) as u8 as u64) | ((((x >> 8u64) & 0xff) as u8 as u64) << 8u64) | ((((
    x >> 16u64) & 0xff) as u8 as u64) << 16u64) | ((((x >> 24u64) & 0xff) as u8 as u64) << 24u64)
        | ((((x >> 32u64) & 0xff) as u8 as u64) << 32u64) | ((((x >> 40u64) & 0xff) as u8 as u64)
        << 40u64) | ((((x >> 48u64) & 0xff) as u8 as u64) << 48u64) | ((((x >> 56u64) & 0xff) as u8
        as u64) << 56u64) == x) by (bit_vector);
}

/// A payload long enough for the counter reads back the counter it was
/// written with.
pub proof fn lemma_sequence_round_trip(sequence: u64, payload_size: usize, payload: Seq<u8>)
    requires
        payload_size >= SEQUENCE_BYTES,
        payload.len() == payload_size,
        forall|i: int| 0 <= i < SEQUENCE_BYTES ==> #[trigger] payload[i] == le_byte(sequence, i),
    ensures
        payload_sequence(payload) == Some(sequence),
{
    assert(payload[0] == le_byte(sequence, 0));
    assert(payload[1] == le_byte(sequence, 1));
    assert(payload[2] == le_byte(sequence, 2));
    assert(payload[3] == le_byte(sequence, 3));
    assert(payload[4] == le_byte(sequence, 4));
    assert(payload[5] == le_byte(sequence, 5));
    assert(payload[6] == le_byte(sequence, 6));
    assert(payload[7] == le_byte(sequence, 7));
    lemma_le_bytes_round_trip(sequence);
}

} // verus!
