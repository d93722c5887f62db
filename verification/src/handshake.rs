//! The server side of the RTMP simple handshake: the S0+S1+S2 block owed to
//! a client's C0+C1. Socket reads and writes stay with the caller; this
//! module only computes the reply bytes.

use vstd::prelude::*;

verus! {

/// Length of the C1, S1, C2 and S2 handshake blocks.
pub const HANDSHAKE_SIZE: usize = 1536;

/// Build the S0+S1+S2 reply for a client whose C1 block is `c1`.
///
/// S0 is the version byte 3. S1 carries a zero server timestamp, four zero
/// bytes, and 1528 bytes of deterministic ramp filler. S2 echoes the
/// client's four timestamp bytes, then the zero server timestamp, then the
/// 1528 trailing bytes of C1.
pub fn build_handshake_reply(c1: &Vec<u8>) -> (r: Vec<u8>)
    requires
        c1@.len() == 1536,
    ensures
        r@.len() == 1 + 2 * 1536,
        r@[0] == 3,
        forall|i: int| 1 <= i < 9 ==> r@[i] == 0,
        forall|i: int| 0 <= i < 1528 ==> #[trigger] r@[9 + i] == (i % 256) as u8,
        forall|i: int| 0 <= i < 4 ==> #[trigger] r@[1537 + i] == c1@[i],
        forall|i: int| 0 <= i < 4 ==> #[trigger] r@[1541 + i] == 0,
        forall|i: int| 0 <= i < 1528 ==> #[trigger] r@[1545 + i] == c1@[8 + i],
{
    let mut r: Vec<u8> = Vec::new();
    // S0: version byte
    r.push(3);
    // S1: server timestamp (zero) and four zero bytes
    let mut k: usize = 0;
    while k < 8
        invariant
            k <= 8,
            r@.len() == 1 + k,
            r@[0] == 3,
            forall|i: int| 1 <= i < 1 + k ==> r@[i] == 0,
        decreases 8 - k,
    {
        r.push(0);
        k = k + 1;
    }
    // S1: deterministic ramp filler
    let mut k: usize = 0;
    while k < 1528
        invariant
            k <= 1528,
            r@.len() == 9 + k,
            r@[0] == 3,
            forall|i: int| 1 <= i < 9 ==> r@[i] == 0,
            forall|i: int| 0 <= i < k ==> #[trigger] r@[9 + i] == (i % 256) as u8,
        decreases 1528 - k,
    {
        r.push((k % 256) as u8);
        k = k + 1;
    }
    // S2: echo the client's timestamp bytes
    let mut k: usize = 0;
    while k < 4
        invariant
            c1@.len() == 1536,
            k <= 4,
            r@.len() == 1537 + k,
            r@[0] == 3,
            forall|i: int| 1 <= i < 9 ==> r@[i] == 0,
            forall|i: int| 0 <= i < 1528 ==> #[trigger] r@[9 + i] == (i % 256) as u8,
            forall|i: int| 0 <= i < k ==> #[trigger] r@[1537 + i] == c1@[i],
        decreases 4 - k,
    {
        r.push(c1[k]);
        k = k + 1;
    }
    // S2: our timestamp (zero)
    let mut k: usize = 0;
    while k < 4
        invariant
            c1@.len() == 1536,
            k <= 4,
            r@.len() == 1541 + k,
            r@[0] == 3,
            forall|i: int| 1 <= i < 9 ==> r@[i] == 0,
            forall|i: int| 0 <= i < 1528 ==> #[trigger] r@[9 + i] == (i % 256) as u8,
            forall|i: int| 0 <= i < 4 ==> #[trigger] r@[1537 + i] == c1@[i],
            forall|i: int| 0 <= i < k ==> #[trigger] r@[1541 + i] == 0,
        decreases 4 - k,
    {
        r.push(0);
        k = k + 1;
    }
    // S2: echo the trailing 1528 bytes of C1
    let mut k: usize = 0;
    while k < 1528
        invariant
            c1@.len() == 1536,
            k <= 1528,
            r@.len() == 1545 + k,
            r@[0] == 3,
            forall|i: int| 1 <= i < 9 ==> r@[i] == 0,
            forall|i: int| 0 <= i < 1528 ==> #[trigger] r@[9 + i] == (i % 256) as u8,
            forall|i: int| 0 <= i < 4 ==> #[trigger] r@[1537 + i] == c1@[i],
            forall|i: int| 0 <= i < 4 ==> #[trigger] r@[1541 + i] == 0,
            forall|i: int| 0 <= i < k ==> #[trigger] r@[1545 + i] == c1@[8 + i],
        decreases 1528 - k,
    {
        r.push(c1[8 + k]);
        k = k + 1;
    }
    r
}

} // verus!
