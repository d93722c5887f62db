//! MSB-first bit reader over a byte buffer, with the Exp-Golomb codes used by
//! H.264 sequence parameter sets.

use vstd::prelude::*;
use vstd::arithmetic::power2::{pow2, lemma_pow2_adds, lemma_pow2_strictly_increases, lemma2_to64, lemma2_to64_rest};

verus! {

/// 2 to the power of a bit position inside one byte.
pub open spec fn byte_pow2(e: int) -> int {
    if e == 0 {
        1
    } else if e == 1 {
        2
    } else if e == 2 {
        4
    } else if e == 3 {
        8
    } else if e == 4 {
        16
    } else if e == 5 {
        32
    } else if e == 6 {
        64
    } else {
        128
    }
}

/// Bit `i` of the buffer, counting bits most-significant-first inside each
/// byte: 0 or 1.
pub open spec fn bit_at(data: Seq<u8>, i: int) -> int
    recommends
        0 <= i < data.len() * 8,
{
    (data[i / 8] as int / byte_pow2(7 - (i % 8))) % 2
}

/// The unsigned value of the `n` bits starting at bit position `pos`,
/// most-significant bit first.
pub open spec fn bits_val(data: Seq<u8>, pos: int, n: nat) -> nat
    decreases n,
{
    if n == 0 {
        0
    } else {
        bits_val(data, pos, (n - 1) as nat) * 2 + bit_at(data, pos + n - 1) as nat
    }
}

/// The length of the run of zero bits starting at `pos` (the whole remainder
/// of the buffer when no 1 bit follows).
pub open spec fn zero_run(data: Seq<u8>, pos: int) -> int
    recommends
        0 <= pos <= data.len() * 8,
    decreases data.len() * 8 - pos,
        when 0 <= pos <= data.len() * 8
{
    if pos >= data.len() * 8 {
        0
    } else if bit_at(data, pos) != 0 {
        0
    } else {
        1 + zero_run(data, pos + 1)
    }
}

/// A value of `n` bits is below 2^n.
pub proof fn lemma_bits_val_bound(data: Seq<u8>, pos: int, n: nat)
    ensures
        bits_val(data, pos, n) < pow2(n),
    decreases n,
{
    if n == 0 {
        lemma2_to64();
    } else {
        lemma_bits_val_bound(data, pos, (n - 1) as nat);
        lemma_pow2_adds((n - 1) as nat, 1);
        lemma2_to64();
        assert(bit_at(data, pos + n - 1) % 2 == bit_at(data, pos + n - 1)) by {
            assert(0 <= bit_at(data, pos + n - 1) < 2);
        }
    }
}

/// Splitting a bit field: the first `m` bits weigh 2^n against the last `n`.
pub proof fn lemma_bits_val_split(data: Seq<u8>, pos: int, m: nat, n: nat)
    ensures
        bits_val(data, pos, m + n) == bits_val(data, pos, m) * pow2(n) + bits_val(
            data,
            pos + m,
            n,
        ),
    decreases n,
{
    if n == 0 {
        lemma2_to64();
        assert(pow2(0) == 1);
    } else {
        lemma_bits_val_split(data, pos, m, (n - 1) as nat);
        lemma_pow2_adds((n - 1) as nat, 1);
        lemma2_to64();
        assert(pow2(n) == pow2((n - 1) as nat) * 2);
        assert(bits_val(data, pos, m + n) == bits_val(data, pos, (m + n - 1) as nat) * 2 + bit_at(
            data,
            pos + m + n - 1,
        ));
        assert(bits_val(data, pos + m, n) == bits_val(data, pos + m, (n - 1) as nat) * 2 + bit_at(
            data,
            pos + m + n - 1,
        ));
        assert(bits_val(data, pos, m) * pow2((n - 1) as nat) * 2 == bits_val(data, pos, m) * pow2(
            n,
        )) by (nonlinear_arith)
            requires
                pow2(n) == pow2((n - 1) as nat) * 2,
        ;
    }
}

/// Reads bits most-significant-first from an in-memory buffer.
pub struct BitstreamReader {
    data: Vec<u8>,
    byte_offset: usize,
    bit_offset: u8,
}

impl BitstreamReader {
    /// The bytes the reader walks over.
    pub closed spec fn bytes(&self) -> Seq<u8> {
        self.data@
    }

    /// The current absolute bit position.
    pub closed spec fn pos(&self) -> int {
        self.byte_offset * 8 + self.bit_offset
    }

    /// The total number of bits in the buffer.
    pub open spec fn total_bits(&self) -> int {
        self.bytes().len() * 8int
    }

    /// The position is inside the buffer and byte-aligned bookkeeping agrees.
    pub closed spec fn wf(&self) -> bool {
        &&& self.bit_offset < 8
        &&& self.byte_offset <= self.data@.len()
        &&& (self.byte_offset == self.data@.len() ==> self.bit_offset == 0)
    }

    /// A well-formed reader's position sits inside its buffer.
    pub proof fn lemma_wf_pos(&self)
        requires
            self.wf(),
        ensures
            0 <= self.pos() <= self.total_bits(),
    {
    }

    pub fn new(data: Vec<u8>) -> (r: BitstreamReader)
        ensures
            r.wf(),
            r.bytes() == data@,
            r.pos() == 0,
    {
        BitstreamReader { data, byte_offset: 0, bit_offset: 0 }
    }

    /// Read up to `count` bits, MSB first. When the buffer runs out, the
    /// bits read so far are returned and the position stops at the end.
    pub fn read_bits(&mut self, count: u8) -> (r: u64)
        requires
            old(self).wf(),
            count <= 64,
        ensures
            final(self).wf(),
            final(self).bytes() == old(self).bytes(),
            old(self).pos() + count <= old(self).total_bits() ==> {
                &&& final(self).pos() == old(self).pos() + count
                &&& r == bits_val(old(self).bytes(), old(self).pos(), count as nat)
            },
            old(self).pos() + count > old(self).total_bits() ==> {
                &&& final(self).pos() == old(self).total_bits()
                &&& r == bits_val(
                    old(self).bytes(),
                    old(self).pos(),
                    (old(self).total_bits() - old(self).pos()) as nat,
                )
            },
            final(self).pos() >= old(self).pos(),
            final(self).pos() <= old(self).total_bits(),
            r < pow2(count as nat),
    {
        let mut value: u64 = 0;
        let ghost data = self.data@;
        let ghost start = self.pos();
        let mut k: u8 = 0;
        while k < count
            invariant
                self.wf(),
                self.data@ == data,
                old(self).bytes() == data,
                old(self).pos() == start,
                old(self).total_bits() == data.len() * 8int,
                k <= count,
                count <= 64,
                self.pos() == if start + k <= data.len() * 8 {
                    start + k
                } else {
                    data.len() * 8int
                },
                0 <= start <= data.len() * 8,
                value == bits_val(
                    data,
                    start,
                    if start + k <= data.len() * 8 {
                        k as nat
                    } else {
                        (data.len() * 8 - start) as nat
                    },
                ),
            decreases count - k,
        {
            if self.byte_offset >= self.data.len() {
                proof {
                    lemma_bits_val_bound(data, start, (data.len() * 8 - start) as nat);
                    if (data.len() * 8 - start) < count {
                        lemma_pow2_strictly_increases(
                            (data.len() * 8 - start) as nat,
                            count as nat,
                        );
                    }
                    if count == 0 {
                        lemma2_to64();
                    }
                }
                return value;
            }
            let b = self.data[self.byte_offset];
            let shift = 7 - self.bit_offset;
            let divisor: u8 = if shift == 0 {
                1
            } else if shift == 1 {
                2
            } else if shift == 2 {
                4
            } else if shift == 3 {
                8
            } else if shift == 4 {
                16
            } else if shift == 5 {
                32
            } else if shift == 6 {
                64
            } else {
                128
            };
            let bit = (b / divisor) % 2;
            proof {
                assert(bit as int == bit_at(data, self.pos()));
                assert(self.pos() < data.len() * 8);
                assert(start + k <= data.len() * 8);
                lemma_bits_val_bound(data, start, k as nat);
                if (k as nat) < 63 {
                    lemma_pow2_strictly_increases(k as nat, 63);
                }
                lemma2_to64();
                lemma2_to64_rest();
                assert(pow2(63) == 0x8000_0000_0000_0000);
                assert(value < pow2(k as nat));
                assert(pow2(k as nat) <= 0x8000_0000_0000_0000);
                assert(value <= 0x7FFF_FFFF_FFFF_FFFF);
            }
            value = value * 2 + bit as u64;
            self.bit_offset = self.bit_offset + 1;
            if self.bit_offset == 8 {
                self.bit_offset = 0;
                self.byte_offset = self.byte_offset + 1;
            }
            k = k + 1;
        }
        proof {
            lemma_bits_val_bound(data, start, if start + count <= data.len() * 8 {
                count as nat
            } else {
                (data.len() * 8 - start) as nat
            });
            if start + count > data.len() * 8 {
                if (data.len() * 8 - start) < count {
                    lemma_pow2_strictly_increases((data.len() * 8 - start) as nat, count as nat);
                }
                if count == 0 {
                    lemma2_to64();
                }
            }
        }
        value
    }

    /// Read an unsigned Exp-Golomb code: a run of `z` zero bits, a 1 bit,
    /// then `z` suffix bits; the value is `2^z - 1 +` suffix. Runs of more
    /// than 32 zeros (or a buffer that ends inside the run) yield 0.
    pub fn read_exp_golomb(&mut self) -> (r: u64)
        requires
            old(self).wf(),
        ensures
            final(self).wf(),
            final(self).bytes() == old(self).bytes(),
            final(self).pos() >= old(self).pos(),
            final(self).pos() <= old(self).total_bits(),
            r <= 0x1_FFFF_FFFE,
            ({
                let z = zero_run(old(self).bytes(), old(self).pos());
                (z <= 32 && old(self).pos() + 2 * z + 1 <= old(self).total_bits()) ==> {
                    &&& r == pow2(z as nat) - 1 + bits_val(
                        old(self).bytes(),
                        old(self).pos() + z + 1,
                        z as nat,
                    )
                    &&& final(self).pos() == old(self).pos() + 2 * z + 1
                }
            }),
    {
        let ghost data = self.data@;
        let ghost total = data.len() * 8int;
        let ghost start = self.pos();
        let ghost zr = zero_run(data, start);
        let ghost clean = zr <= 32 && start + 2 * zr + 1 <= total;
        proof {
            lemma_zero_run_range(data, start);
        }
        let mut leading_zeros: u32 = 0;
        loop
            invariant_except_break
                clean ==> leading_zeros <= zr && self.pos() == start + leading_zeros,
            invariant
                self.wf(),
                self.data@ == data,
                old(self).bytes() == data,
                old(self).pos() == start,
                total == data.len() * 8int,
                0 <= start <= total,
                zr == zero_run(data, start),
                clean == (zr <= 32 && start + 2 * zr + 1 <= total),
                0 <= zr,
                start + zr <= total,
                leading_zeros <= 33,
                start <= self.pos() <= total,
            ensures
                self.wf(),
                self.data@ == data,
                leading_zeros <= 33,
                start <= self.pos() <= total,
                clean ==> leading_zeros == zr && self.pos() == start + zr + 1,
            decreases 34 - leading_zeros,
        {
            let ghost before = self.pos();
            let b = self.read_bits(1);
            proof {
                if clean {
                    lemma_bits_val_one(data, before);
                    if leading_zeros < zr {
                        lemma_zero_run_bits(data, start, zr);
                        assert(bit_at(data, before) == 0);
                        assert(b == 0);
                    } else {
                        lemma_zero_run_stops(data, start, zr);
                        assert(bit_at(data, before) != 0);
                        assert(b != 0);
                    }
                }
            }
            if b != 0 {
                break ;
            }
            leading_zeros = leading_zeros + 1;
            if leading_zeros > 32 {
                proof {
                    assert(!clean);
                }
                return 0;
            }
        }
        if leading_zeros == 0 {
            proof {
                if clean {
                    lemma2_to64();
                    assert(pow2(0) == 1);
                }
            }
            return 0;
        }
        // 2^z - 1 computed by repeated doubling
        let zbits: u32 = if leading_zeros > 32 {
            32
        } else {
            leading_zeros
        };
        let mut base: u64 = 1;
        let mut j: u32 = 0;
        proof {
            lemma2_to64();
            assert(base == pow2(0));
        }
        while j < zbits
            invariant
                j <= zbits,
                zbits <= 32,
                base == pow2(j as nat),
            decreases zbits - j,
        {
            proof {
                lemma_pow2_strictly_increases(j as nat, 32);
                lemma2_to64();
                lemma_pow2_adds(j as nat, 1);
            }
            base = base * 2;
            j = j + 1;
        }
        let suffix = self.read_bits(zbits as u8);
        proof {
            if zbits < 32 {
                lemma_pow2_strictly_increases(zbits as nat, 32);
            }
            lemma2_to64();
            assert(base <= 0x1_0000_0000);
            assert(suffix < pow2(zbits as nat));
            if clean {
                assert(leading_zeros == zr);
                lemma_bits_val_bound(data, start + zr + 1, zr as nat);
                lemma_pow2_strictly_increases(zr as nat, 33);
                assert(pow2(zr as nat) < pow2(33));
                assert(suffix == bits_val(data, start + zr + 1, zr as nat));
            } else {
                assert(base >= 1);
            }
        }
        if base < 1 {
            return 0;
        }
        if suffix > u64::MAX - (base - 1) {
            // unreachable: the suffix has fewer than 64 bits
            return base - 1;
        }
        base - 1 + suffix
    }

    /// Read a signed Exp-Golomb code: code 0 maps to 0, odd codes to
    /// `(code + 1) / 2`, even codes to `-(code / 2)`.
    pub fn read_signed_exp_golomb(&mut self) -> (r: i64)
        requires
            old(self).wf(),
        ensures
            final(self).wf(),
            final(self).bytes() == old(self).bytes(),
            final(self).pos() >= old(self).pos(),
            final(self).pos() <= old(self).total_bits(),
            -0x1_0000_0000 < r < 0x1_0000_0000,
            ({
                let z = zero_run(old(self).bytes(), old(self).pos());
                (z <= 32 && old(self).pos() + 2 * z + 1 <= old(self).total_bits()) ==> {
                    let code = pow2(z as nat) - 1 + bits_val(
                        old(self).bytes(),
                        old(self).pos() + z + 1,
                        z as nat,
                    );
                    &&& final(self).pos() == old(self).pos() + 2 * z + 1
                    &&& r == signed_eg_value(code as nat)
                }
            }),
    {
        let ghost z = zero_run(self.bytes(), self.pos());
        let code = self.read_exp_golomb();
        proof {
            if z <= 32 && old(self).pos() + 2 * z + 1 <= old(self).total_bits() {
                lemma_bits_val_bound(old(self).bytes(), old(self).pos() + z + 1, z as nat);
                lemma_pow2_strictly_increases(z as nat, 33);
                lemma2_to64();
                assert(code < 0x4_0000_0000);
            }
        }
        if code == 0 {
            return 0;
        }
        if code > 0x7FFF_FFFF_FFFF_FFFE {
            // unreachable for well-formed reads; keeps the arithmetic total
            return 0;
        }
        let magnitude = ((code + 1) / 2) as i64;
        if code % 2 == 0 {
            -magnitude
        } else {
            magnitude
        }
    }
}

/// The signed interpretation of an unsigned Exp-Golomb code.
pub open spec fn signed_eg_value(code: nat) -> int {
    if code % 2 == 0 {
        -((code / 2) as int)
    } else {
        ((code + 1) / 2) as int
    }
}

/// A one-bit field is just that bit.
pub proof fn lemma_bits_val_one(data: Seq<u8>, pos: int)
    ensures
        bits_val(data, pos, 1) == bit_at(data, pos),
{
    assert(bits_val(data, pos, 0) == 0);
    assert(0 <= bit_at(data, pos) < 2);
}

/// A zero run is nonnegative and stays inside the buffer.
pub proof fn lemma_zero_run_range(data: Seq<u8>, pos: int)
    requires
        0 <= pos <= data.len() * 8,
    ensures
        0 <= zero_run(data, pos),
        pos + zero_run(data, pos) <= data.len() * 8,
    decreases data.len() * 8 - pos,
{
    if pos < data.len() * 8 && bit_at(data, pos) == 0 {
        lemma_zero_run_range(data, pos + 1);
    }
}

/// Every bit inside a zero run is zero.
pub proof fn lemma_zero_run_bits(data: Seq<u8>, pos: int, z: int)
    requires
        0 <= pos <= data.len() * 8,
        z == zero_run(data, pos),
    ensures
        forall|i: int| pos <= i < pos + z ==> bit_at(data, i) == 0,
    decreases z,
{
    if z > 0 {
        lemma_zero_run_bits(data, pos + 1, z - 1);
    }
}

/// A zero run is ended by a 1 bit (when it ends inside the buffer).
pub proof fn lemma_zero_run_stops(data: Seq<u8>, pos: int, z: int)
    requires
        0 <= pos <= data.len() * 8,
        z == zero_run(data, pos),
        pos + z < data.len() * 8,
    ensures
        bit_at(data, pos + z) != 0,
    decreases z,
{
    if z > 0 {
        lemma_zero_run_stops(data, pos + 1, z - 1);
    } else {
        lemma_zero_run_range(data, pos);
        assert(pos < data.len() * 8);
        lemma_zero_run_range(data, pos + 1);
        assert(bit_at(data, pos) != 0);
    }
}


/// The floor of the base-2 logarithm of a positive integer.
pub open spec fn floor_log2(n: nat) -> nat
    recommends
        n >= 1,
    decreases n,
{
    if n <= 1 {
        0
    } else {
        1 + floor_log2(n / 2)
    }
}

/// A positive integer lies between consecutive powers of two at its log.
pub proof fn lemma_floor_log2_bounds(n: nat)
    requires
        n >= 1,
    ensures
        pow2(floor_log2(n)) <= n < pow2(floor_log2(n) + 1),
    decreases n,
{
    lemma2_to64();
    if n <= 1 {
        assert(pow2(0) == 1);
        assert(pow2(1) == 2);
    } else {
        lemma_floor_log2_bounds(n / 2);
        lemma_pow2_adds(floor_log2(n / 2), 1);
        lemma_pow2_adds(floor_log2(n / 2) + 1, 1);
        assert(pow2(1) == 2);
    }
}

/// A field that reads as zero consists of zero bits.
pub proof fn lemma_bits_val_zero_bits(data: Seq<u8>, pos: int, n: nat)
    requires
        bits_val(data, pos, n) == 0,
    ensures
        forall|i: int| pos <= i < pos + n ==> bit_at(data, i) == 0,
    decreases n,
{
    if n > 0 {
        assert(bits_val(data, pos, (n - 1) as nat) == 0);
        assert(0 <= bit_at(data, pos + n - 1) < 2);
        assert(bit_at(data, pos + n - 1) == 0);
        lemma_bits_val_zero_bits(data, pos, (n - 1) as nat);
        assert forall|i: int| pos <= i < pos + n implies bit_at(data, i) == 0 by {
            if i < pos + n - 1 {
            } else {
                assert(i == pos + n - 1);
            }
        }
    }
}

/// A run of `z` zero bits closed off by a 1 bit pins `zero_run` to `z`.
pub proof fn lemma_zero_run_exact(data: Seq<u8>, pos: int, z: int)
    requires
        0 <= pos,
        0 <= z,
        pos + z < data.len() * 8,
        forall|i: int| pos <= i < pos + z ==> bit_at(data, i) == 0,
        bit_at(data, pos + z) != 0,
    ensures
        zero_run(data, pos) == z,
    decreases z,
{
    if z == 0 {
    } else {
        assert(bit_at(data, pos) == 0);
        lemma_zero_run_exact(data, pos + 1, z - 1);
    }
}

/// The Exp-Golomb code of `k`: `floor_log2(k + 1)` zero bits followed by
/// `k + 1` written in `floor_log2(k + 1) + 1` binary digits. Whenever those
/// bits stand at position `pos` of a buffer, decoding from `pos` yields `k`
/// again: the observed zero run is exactly the leading-zero count, and
/// `2^z - 1` plus the suffix reassembles `k`.
pub proof fn lemma_exp_golomb_roundtrip(data: Seq<u8>, pos: int, k: nat)
    requires
        0 <= pos,
        pos + 2 * floor_log2(k + 1) + 1 <= data.len() * 8,
        bits_val(data, pos, (2 * floor_log2(k + 1) + 1) as nat) == k + 1,
    ensures
        zero_run(data, pos) == floor_log2(k + 1),
        pow2(floor_log2(k + 1)) - 1 + bits_val(
            data,
            pos + floor_log2(k + 1) + 1,
            floor_log2(k + 1),
        ) == k,
{
    let z = floor_log2(k + 1);
    lemma_floor_log2_bounds(k + 1);
    // split the code into z leading bits and a (z + 1)-bit tail
    lemma_bits_val_split(data, pos, z, (z + 1) as nat);
    let head = bits_val(data, pos, z);
    let tail = bits_val(data, pos + z, (z + 1) as nat);
    lemma_bits_val_bound(data, pos + z, (z + 1) as nat);
    assert(head * pow2(z + 1) + tail == k + 1);
    assert(head == 0) by {
        if head >= 1 {
            assert(head * pow2(z + 1) >= pow2(z + 1)) by (nonlinear_arith)
                requires
                    head >= 1,
                    pow2(z + 1) > 0,
            ;
            assert(k + 1 < pow2(z + 1));
            assert(false);
        }
    }
    lemma_bits_val_zero_bits(data, pos, z);
    // split the tail into its leading 1 bit and the z-bit suffix
    lemma_bits_val_split(data, pos + z, 1, z);
    lemma_bits_val_one(data, pos + z);
    let lead = bit_at(data, pos + z);
    let suffix = bits_val(data, pos + z + 1, z);
    lemma_bits_val_bound(data, pos + z + 1, z);
    assert(tail == k + 1) by (nonlinear_arith)
        requires
            head == 0,
            head * pow2(z + 1) + tail == k + 1,
    ;
    assert(bits_val(data, pos + z, (1 + z) as nat) == bits_val(data, pos + z, 1) * pow2(z)
        + bits_val(data, pos + z + 1, z));
    assert(tail == bits_val(data, pos + z, (1 + z) as nat));
    assert(bits_val(data, pos + z, 1) == lead);
    assert(lead * pow2(z) + suffix == k + 1);
    assert(0 <= lead < 2);
    assert(lead == 1) by {
        if lead == 0 {
            assert(suffix == k + 1) by (nonlinear_arith)
                requires
                    lead == 0,
                    lead * pow2(z) + suffix == k + 1,
            ;
            assert(k + 1 >= pow2(z));
            assert(false);
        }
    }
    lemma_zero_run_exact(data, pos, z as int);
    assert(pow2(z) + suffix == k + 1) by (nonlinear_arith)
        requires
            lead == 1,
            lead * pow2(z) + suffix == k + 1,
    ;
}


/// Eight aligned bits read back the byte they come from.
pub proof fn lemma_bits_val_byte(data: Seq<u8>, k: int)
    requires
        0 <= k < data.len(),
    ensures
        bits_val(data, 8 * k, 8) == data[k],
{
    let x = data[k];
    assert(bit_at(data, 8 * k + 0) == (x as int / 128) % 2);
    assert(bit_at(data, 8 * k + 1) == (x as int / 64) % 2);
    assert(bit_at(data, 8 * k + 2) == (x as int / 32) % 2);
    assert(bit_at(data, 8 * k + 3) == (x as int / 16) % 2);
    assert(bit_at(data, 8 * k + 4) == (x as int / 8) % 2);
    assert(bit_at(data, 8 * k + 5) == (x as int / 4) % 2);
    assert(bit_at(data, 8 * k + 6) == (x as int / 2) % 2);
    assert(bit_at(data, 8 * k + 7) == x as int % 2);
    assert(bits_val(data, 8 * k, 1) == bits_val(data, 8 * k, 0) * 2 + bit_at(data, 8 * k + 0));
    assert(bits_val(data, 8 * k, 2) == bits_val(data, 8 * k, 1) * 2 + bit_at(data, 8 * k + 1));
    assert(bits_val(data, 8 * k, 3) == bits_val(data, 8 * k, 2) * 2 + bit_at(data, 8 * k + 2));
    assert(bits_val(data, 8 * k, 4) == bits_val(data, 8 * k, 3) * 2 + bit_at(data, 8 * k + 3));
    assert(bits_val(data, 8 * k, 5) == bits_val(data, 8 * k, 4) * 2 + bit_at(data, 8 * k + 4));
    assert(bits_val(data, 8 * k, 6) == bits_val(data, 8 * k, 5) * 2 + bit_at(data, 8 * k + 5));
    assert(bits_val(data, 8 * k, 7) == bits_val(data, 8 * k, 6) * 2 + bit_at(data, 8 * k + 6));
    assert(bits_val(data, 8 * k, 8) == bits_val(data, 8 * k, 7) * 2 + bit_at(data, 8 * k + 7));
    assert((x / 128) % 2 * 128 + (x / 64) % 2 * 64 + (x / 32) % 2 * 32 + (x / 16) % 2 * 16 + (x
        / 8) % 2 * 8 + (x / 4) % 2 * 4 + (x / 2) % 2 * 2 + x % 2 == x) by (bit_vector);
}


// ─── Specification-level reads, for modeling bitstream grammars ───

/// A fixed-width read: the value and the position after it, or `None`
/// when the buffer is too short (where the executable reader returns a
/// partial value instead).
pub open spec fn sg_bits(data: Seq<u8>, pos: int, n: nat) -> Option<(nat, int)> {
    if 0 <= pos && pos + n <= data.len() * 8 {
        Some((bits_val(data, pos, n), pos + n))
    } else {
        None
    }
}

/// An unsigned Exp-Golomb read: defined exactly where the executable
/// reader decodes cleanly (a zero run of at most 32 closed by a 1 bit,
/// with the full suffix in bounds).
pub open spec fn sg_ue(data: Seq<u8>, pos: int) -> Option<(nat, int)> {
    let z = zero_run(data, pos);
    if 0 <= pos && pos <= data.len() * 8 && z <= 32 && pos + 2 * z + 1 <= data.len() * 8 {
        Some(
            (
                (pow2(z as nat) - 1 + bits_val(data, pos + z + 1, z as nat)) as nat,
                pos + 2 * z + 1,
            ),
        )
    } else {
        None
    }
}

/// A signed Exp-Golomb read.
pub open spec fn sg_se(data: Seq<u8>, pos: int) -> Option<(int, int)> {
    match sg_ue(data, pos) {
        None => None,
        Some((code, p)) => Some((signed_eg_value(code), p)),
    }
}

} // verus!
