//! Bit-level cursor over a byte buffer, MSB-first within each byte.
//!
//! The writer accumulates sub-byte fields into a pending group; a group is
//! flushed to the output as soon as it reaches eight bits, and `align_byte`
//! pads a partial group with zero bits.  Whole-byte quantities (bytes,
//! big-endian and little-endian integers, raw slices) may only be written or
//! read at a byte boundary.  All field values are described arithmetically:
//! a byte holding the fields `a` (high) and `b` (low, `n` bits) has the value
//! `a * 2^n + b`.

use vstd::prelude::*;

verus! {

use vstd::arithmetic::power2::{pow2, lemma2_to64, lemma_pow2_adds};
use vstd::arithmetic::div_mod::lemma_fundamental_div_mod_converse;

/// Error raised by the codec layer.
#[derive(Debug, Clone, Copy, PartialEq, Eq, Structural)]
pub enum MarshalError {
    /// The reader or writer could not satisfy a request for more data.
    BufferExhausted,
    /// A tag read from the context matches no variant.
    NoMatch,
    /// A length-tagged field exceeds its cap.
    OutOfRange,
}

/// `2^n` for `n <= 8`, as an exec value.
pub fn two_pow(n: u8) -> (r: u16)
    requires
        n <= 8,
    ensures
        r == pow2(n as nat),
        1 <= r <= 256,
{
    proof {
        lemma2_to64();
    }
    match n {
        0 => 1,
        1 => 2,
        2 => 4,
        3 => 8,
        4 => 16,
        5 => 32,
        6 => 64,
        7 => 128,
        _ => 256,
    }
}

/// The value of the `n`-bit field that starts `off` bits into byte `b`,
/// counting from the most significant bit.
pub open spec fn bits_at(b: u8, off: nat, n: nat) -> u8
    recommends
        off + n <= 8,
{
    (((b as nat) / pow2((8 - off - n) as nat)) % pow2(n)) as u8
}

/// Big-endian bytes of a `u16`.
pub open spec fn u16_be_bytes(v: u16) -> Seq<u8> {
    seq![(v / 256) as u8, (v % 256) as u8]
}

/// Little-endian bytes of a `u16`.
pub open spec fn u16_le_bytes(v: u16) -> Seq<u8> {
    seq![(v % 256) as u8, (v / 256) as u8]
}

/// Big-endian bytes of a `u32`.
pub open spec fn u32_be_bytes(v: u32) -> Seq<u8> {
    seq![
        (v / 0x1000000) as u8,
        ((v / 0x10000) % 256) as u8,
        ((v / 256) % 256) as u8,
        (v % 256) as u8,
    ]
}

/// The big-endian `u16` standing at index `i`.
pub open spec fn be16_at(b: Seq<u8>, i: int) -> u16 {
    ((b[i] as int) * 256 + (b[i + 1] as int)) as u16
}

/// The little-endian `u16` standing at index `i`.
pub open spec fn le16_at(b: Seq<u8>, i: int) -> u16 {
    ((b[i + 1] as int) * 256 + (b[i] as int)) as u16
}

/// The big-endian `u32` standing at index `i`.
pub open spec fn be32_at(b: Seq<u8>, i: int) -> u32 {
    ((b[i] as int) * 0x1000000 + (b[i + 1] as int) * 0x10000 + (b[i + 2] as int) * 256 + (b[i
        + 3] as int)) as u32
}

/// Little-endian bytes of a `u32`.
pub open spec fn u32_le_bytes(v: u32) -> Seq<u8> {
    seq![
        (v % 256) as u8,
        ((v / 256) % 256) as u8,
        ((v / 0x10000) % 256) as u8,
        (v / 0x1000000) as u8,
    ]
}

/// The little-endian `u32` standing at index `i`.
pub open spec fn le32_at(b: Seq<u8>, i: int) -> u32 {
    ((b[i + 3] as int) * 0x1000000 + (b[i + 2] as int) * 0x10000 + (b[i + 1] as int) * 256 + (
    b[i] as int)) as u32
}

/// Reassembling the little-endian bytes of a `u32` restores it.
pub proof fn lemma_u32_le_recompose(v: u32)
    ensures
        le32_at(u32_le_bytes(v), 0) == v,
{
    assert((v / 0x1000000) * 0x1000000 + ((v / 0x10000) % 256) * 0x10000 + ((v / 256) % 256) * 256
        + (v % 256) == v) by (bit_vector);
}

/// Reassembling the big-endian bytes of a `u16` restores it.
pub proof fn lemma_u16_be_recompose(v: u16)
    ensures
        be16_at(u16_be_bytes(v), 0) == v,
{
    assert((v / 256) * 256 + (v % 256) == v) by (bit_vector);
}

/// Reassembling the little-endian bytes of a `u16` restores it.
pub proof fn lemma_u16_le_recompose(v: u16)
    ensures
        le16_at(u16_le_bytes(v), 0) == v,
{
    assert((v / 256) * 256 + (v % 256) == v) by (bit_vector);
}

/// Reassembling the big-endian bytes of a `u32` restores it.
pub proof fn lemma_u32_be_recompose(v: u32)
    ensures
        be32_at(u32_be_bytes(v), 0) == v,
{
    assert((v / 0x1000000) * 0x1000000 + ((v / 0x10000) % 256) * 0x10000 + ((v / 256) % 256) * 256
        + (v % 256) == v) by (bit_vector);
}

/// A bit-cursor writer.  Completed bytes live in `out`; up to seven pending
/// bits wait in `acc`.
pub struct BitWriter {
    out: Vec<u8>,
    acc: u8,
    nacc: u8,
}

impl BitWriter {
    /// Completed bytes written so far.
    pub closed spec fn bytes(&self) -> Seq<u8> {
        self.out@
    }

    /// Number of bits in the pending (not yet flushed) group.
    pub closed spec fn pend_bits(&self) -> nat {
        self.nacc as nat
    }

    /// Value of the pending group, as an integer built MSB-first.
    pub closed spec fn pend_val(&self) -> nat {
        self.acc as nat
    }

    pub open spec fn inv(&self) -> bool {
        self.pend_bits() < 8 && self.pend_val() < pow2(self.pend_bits())
    }

    /// No partial group is pending.
    pub open spec fn aligned(&self) -> bool {
        self.pend_bits() == 0
    }

    pub fn new() -> (w: BitWriter)
        ensures
            w.inv(),
            w.aligned(),
            w.bytes() == Seq::<u8>::empty(),
    {
        proof {
            lemma2_to64();
        }
        let w = BitWriter { out: Vec::new(), acc: 0, nacc: 0 };
        proof {
            assert(w.bytes() =~= Seq::<u8>::empty());
        }
        w
    }

    /// Append an `n`-bit field (MSB-first).  When the pending group reaches
    /// eight bits it is flushed as one byte whose value is
    /// `pend_val * 2^n + v`.
    pub fn write_bits(&mut self, v: u8, n: u8)
        requires
            old(self).inv(),
            1 <= n <= 8,
            old(self).pend_bits() + n <= 8,
            (v as nat) < pow2(n as nat),
        ensures
            final(self).inv(),
            old(self).pend_bits() + n < 8 ==> {
                &&& final(self).bytes() == old(self).bytes()
                &&& final(self).pend_bits() == old(self).pend_bits() + n
                &&& final(self).pend_val() == old(self).pend_val() * pow2(n as nat) + v
            },
            old(self).pend_bits() + n == 8 ==> {
                &&& final(self).bytes() == old(self).bytes().push(
                    (old(self).pend_val() * pow2(n as nat) + v) as u8,
                )
                &&& final(self).aligned()
                &&& final(self).pend_val() == 0
            },
    {
        let p = two_pow(n);
        proof {
            lemma_pow2_adds(self.nacc as nat, n as nat);
            lemma2_to64();
            // pend_val * 2^n + v fits in a byte because the group holds at
            // most eight bits in total.
            assert((self.acc as nat) * (p as nat) + (v as nat) < pow2(
                (self.nacc + n) as nat,
            )) by (nonlinear_arith)
                requires
                    (self.acc as nat) < pow2(self.nacc as nat),
                    (v as nat) < p as nat,
                    p as nat == pow2(n as nat),
                    pow2(self.nacc as nat) * pow2(n as nat) == pow2((self.nacc + n) as nat),
            ;
        }
        let merged: u16 = (self.acc as u16) * p + (v as u16);
        if self.nacc + n == 8 {
            self.out.push(merged as u8);
            self.acc = 0;
            self.nacc = 0;
        } else {
            self.acc = merged as u8;
            self.nacc = self.nacc + n;
        }
    }

    /// Pad the pending group with zero bits up to the next byte boundary.
    /// A pending group of `k` bits with value `v` becomes the byte
    /// `v * 2^(8-k)`.
    pub fn align_byte(&mut self)
        requires
            old(self).inv(),
        ensures
            final(self).inv(),
            final(self).aligned(),
            old(self).aligned() ==> final(self).bytes() == old(self).bytes(),
            !old(self).aligned() ==> final(self).bytes() == old(self).bytes().push(
                (old(self).pend_val() * pow2((8 - old(self).pend_bits()) as nat)) as u8,
            ),
    {
        if self.nacc > 0 {
            let p = two_pow(8 - self.nacc);
            proof {
                lemma_pow2_adds(self.nacc as nat, (8 - self.nacc) as nat);
                lemma2_to64();
                assert((self.acc as nat) * (p as nat) < 256) by (nonlinear_arith)
                    requires
                        (self.acc as nat) < pow2(self.nacc as nat),
                        p as nat == pow2((8 - self.nacc) as nat),
                        pow2(self.nacc as nat) * pow2((8 - self.nacc) as nat) == 256,
                ;
            }
            let b: u16 = (self.acc as u16) * p;
            self.out.push(b as u8);
            self.acc = 0;
            self.nacc = 0;
        }
    }

    /// Append one whole byte at a byte boundary.
    pub fn write_u8(&mut self, v: u8)
        requires
            old(self).inv(),
            old(self).aligned(),
        ensures
            final(self).inv(),
            final(self).aligned(),
            final(self).bytes() == old(self).bytes().push(v),
    {
        self.out.push(v);
    }

    /// Append a `u16`, big-endian.
    pub fn write_u16_be(&mut self, v: u16)
        requires
            old(self).inv(),
            old(self).aligned(),
        ensures
            final(self).inv(),
            final(self).aligned(),
            final(self).bytes() == old(self).bytes() + u16_be_bytes(v),
    {
        self.out.push((v / 256) as u8);
        self.out.push((v % 256) as u8);
        proof {
            assert(final(self).bytes() =~= old(self).bytes() + u16_be_bytes(v));
        }
    }

    /// Append a `u16`, little-endian.
    pub fn write_u16_le(&mut self, v: u16)
        requires
            old(self).inv(),
            old(self).aligned(),
        ensures
            final(self).inv(),
            final(self).aligned(),
            final(self).bytes() == old(self).bytes() + u16_le_bytes(v),
    {
        self.out.push((v % 256) as u8);
        self.out.push((v / 256) as u8);
        proof {
            assert(final(self).bytes() =~= old(self).bytes() + u16_le_bytes(v));
        }
    }

    /// Append a `u32`, big-endian.
    pub fn write_u32_be(&mut self, v: u32)
        requires
            old(self).inv(),
            old(self).aligned(),
        ensures
            final(self).inv(),
            final(self).aligned(),
            final(self).bytes() == old(self).bytes() + u32_be_bytes(v),
    {
        self.out.push((v / 0x1000000) as u8);
        self.out.push(((v / 0x10000) % 256) as u8);
        self.out.push(((v / 256) % 256) as u8);
        self.out.push((v % 256) as u8);
        proof {
            assert(final(self).bytes() =~= old(self).bytes() + u32_be_bytes(v));
        }
    }

    /// Append a run of bytes at a byte boundary.
    pub fn write_bytes(&mut self, data: &[u8])
        requires
            old(self).inv(),
            old(self).aligned(),
        ensures
            final(self).inv(),
            final(self).aligned(),
            final(self).bytes() == old(self).bytes() + data@,
    {
        let mut i: usize = 0;
        while i < data.len()
            invariant
                self.inv(),
                self.aligned(),
                i <= data.len(),
                self.bytes() == old(self).bytes() + data@.subrange(0, i as int),
            decreases data.len() - i,
        {
            self.out.push(data[i]);
            i = i + 1;
            proof {
                assert(self.bytes() =~= old(self).bytes() + data@.subrange(0, i as int));
            }
        }
        proof {
            assert(data@.subrange(0, data@.len() as int) =~= data@);
        }
    }

    /// Hand the completed buffer out.
    pub fn finish(self) -> (r: Vec<u8>)
        requires
            self.inv(),
            self.aligned(),
        ensures
            r@ == self.bytes(),
    {
        self.out
    }

    /// Number of completed bytes.
    pub fn len(&self) -> (r: usize)
        requires
            self.inv(),
        ensures
            r == self.bytes().len(),
    {
        self.out.len()
    }
}

/// A bit-cursor reader over an owned byte buffer.
pub struct BitReader {
    data: Vec<u8>,
    pos: usize,
    taken: u8,
}

impl BitReader {
    pub closed spec fn data(&self) -> Seq<u8> {
        self.data@
    }

    /// Index of the byte the cursor stands in.
    pub closed spec fn pos(&self) -> nat {
        self.pos as nat
    }

    /// Number of bits already consumed from the current byte.
    pub closed spec fn taken(&self) -> nat {
        self.taken as nat
    }

    pub open spec fn inv(&self) -> bool {
        self.taken() < 8 && self.pos() <= self.data().len() && (self.taken() > 0 ==> self.pos()
            < self.data().len())
    }

    pub open spec fn aligned(&self) -> bool {
        self.taken() == 0
    }

    /// Bytes not yet consumed (the current, partly-read byte included).
    pub open spec fn rest(&self) -> Seq<u8> {
        self.data().subrange(self.pos() as int, self.data().len() as int)
    }

    pub fn new(data: Vec<u8>) -> (r: BitReader)
        ensures
            r.inv(),
            r.aligned(),
            r.data() == data@,
            r.pos() == 0,
    {
        BitReader { data, pos: 0, taken: 0 }
    }

    /// Read an `n`-bit field (MSB-first) from the current byte.
    pub fn read_bits(&mut self, n: u8) -> (r: Result<u8, MarshalError>)
        requires
            old(self).inv(),
            1 <= n <= 8,
            old(self).taken() + n <= 8,
        ensures
            final(self).inv(),
            final(self).data() == old(self).data(),
            match r {
                Ok(v) => {
                    &&& old(self).pos() < old(self).data().len()
                    &&& v == bits_at(old(self).data()[old(self).pos() as int], old(self).taken(), n as nat)
                    &&& (v as nat) < pow2(n as nat)
                    &&& if old(self).taken() + n == 8 {
                        final(self).pos() == old(self).pos() + 1 && final(self).aligned()
                    } else {
                        final(self).pos() == old(self).pos() && final(self).taken() == old(self).taken() + n
                    }
                },
                Err(e) => {
                    &&& e == MarshalError::BufferExhausted
                    &&& old(self).pos() >= old(self).data().len()
                    &&& *final(self) == *old(self)
                },
            },
    {
        if self.pos >= self.data.len() {
            return Err(MarshalError::BufferExhausted);
        }
        let b = self.data[self.pos];
        let shift = two_pow(8 - self.taken - n);
        let mask = two_pow(n);
        let v: u16 = ((b as u16) / shift) % mask;
        proof {
            lemma2_to64();
            assert(v < mask);
        }
        if self.taken + n == 8 {
            self.pos = self.pos + 1;
            self.taken = 0;
        } else {
            self.taken = self.taken + n;
        }
        Ok(v as u8)
    }

    /// Skip any partly-read byte so the cursor stands at a byte boundary.
    pub fn align_byte(&mut self)
        requires
            old(self).inv(),
        ensures
            final(self).inv(),
            final(self).aligned(),
            final(self).data() == old(self).data(),
            old(self).aligned() ==> final(self).pos() == old(self).pos(),
            !old(self).aligned() ==> final(self).pos() == old(self).pos() + 1,
    {
        if self.taken > 0 {
            let len = self.data.len();
            proof {
                assert(self.pos < len);
            }
            self.pos = self.pos + 1;
            self.taken = 0;
        }
    }

    /// Read one whole byte at a byte boundary.
    pub fn read_u8(&mut self) -> (r: Result<u8, MarshalError>)
        requires
            old(self).inv(),
            old(self).aligned(),
        ensures
            final(self).inv(),
            final(self).aligned(),
            final(self).data() == old(self).data(),
            match r {
                Ok(v) => {
                    &&& old(self).pos() < old(self).data().len()
                    &&& v == old(self).data()[old(self).pos() as int]
                    &&& final(self).pos() == old(self).pos() + 1
                },
                Err(e) => {
                    &&& e == MarshalError::BufferExhausted
                    &&& old(self).pos() >= old(self).data().len()
                    &&& *final(self) == *old(self)
                },
            },
    {
        if self.pos >= self.data.len() {
            return Err(MarshalError::BufferExhausted);
        }
        let b = self.data[self.pos];
        self.pos = self.pos + 1;
        Ok(b)
    }

    /// Read a big-endian `u16` at a byte boundary.
    pub fn read_u16_be(&mut self) -> (r: Result<u16, MarshalError>)
        requires
            old(self).inv(),
            old(self).aligned(),
        ensures
            final(self).inv(),
            final(self).aligned(),
            final(self).data() == old(self).data(),
            match r {
                Ok(v) => {
                    &&& old(self).pos() + 2 <= old(self).data().len()
                    &&& u16_be_bytes(v) == old(self).data().subrange(
                        old(self).pos() as int,
                        old(self).pos() as int + 2,
                    )
                    &&& final(self).pos() == old(self).pos() + 2
                },
                Err(e) => {
                    &&& e == MarshalError::BufferExhausted
                    &&& old(self).pos() + 2 > old(self).data().len()
                    &&& *final(self) == *old(self)
                },
            },
    {
        if self.pos >= self.data.len() || self.data.len() - self.pos < 2 {
            return Err(MarshalError::BufferExhausted);
        }
        let hi = self.data[self.pos];
        let lo = self.data[self.pos + 1];
        self.pos = self.pos + 2;
        let v: u16 = (hi as u16) * 256 + (lo as u16);
        proof {
            lemma_fundamental_div_mod_converse(v as int, 256, hi as int, lo as int);
            assert(u16_be_bytes(v) =~= old(self).data().subrange(
                old(self).pos() as int,
                old(self).pos() as int + 2,
            ));
        }
        Ok(v)
    }

    /// Read a little-endian `u16` at a byte boundary.
    pub fn read_u16_le(&mut self) -> (r: Result<u16, MarshalError>)
        requires
            old(self).inv(),
            old(self).aligned(),
        ensures
            final(self).inv(),
            final(self).aligned(),
            final(self).data() == old(self).data(),
            match r {
                Ok(v) => {
                    &&& old(self).pos() + 2 <= old(self).data().len()
                    &&& u16_le_bytes(v) == old(self).data().subrange(
                        old(self).pos() as int,
                        old(self).pos() as int + 2,
                    )
                    &&& final(self).pos() == old(self).pos() + 2
                },
                Err(e) => {
                    &&& e == MarshalError::BufferExhausted
                    &&& old(self).pos() + 2 > old(self).data().len()
                    &&& *final(self) == *old(self)
                },
            },
    {
        if self.pos >= self.data.len() || self.data.len() - self.pos < 2 {
            return Err(MarshalError::BufferExhausted);
        }
        let lo = self.data[self.pos];
        let hi = self.data[self.pos + 1];
        self.pos = self.pos + 2;
        let v: u16 = (hi as u16) * 256 + (lo as u16);
        proof {
            lemma_fundamental_div_mod_converse(v as int, 256, hi as int, lo as int);
            assert(u16_le_bytes(v) =~= old(self).data().subrange(
                old(self).pos() as int,
                old(self).pos() as int + 2,
            ));
        }
        Ok(v)
    }

    /// Read a big-endian `u32` at a byte boundary.
    pub fn read_u32_be(&mut self) -> (r: Result<u32, MarshalError>)
        requires
            old(self).inv(),
            old(self).aligned(),
        ensures
            final(self).inv(),
            final(self).aligned(),
            final(self).data() == old(self).data(),
            match r {
                Ok(v) => {
                    &&& old(self).pos() + 4 <= old(self).data().len()
                    &&& u32_be_bytes(v) == old(self).data().subrange(
                        old(self).pos() as int,
                        old(self).pos() as int + 4,
                    )
                    &&& final(self).pos() == old(self).pos() + 4
                },
                Err(e) => {
                    &&& e == MarshalError::BufferExhausted
                    &&& old(self).pos() + 4 > old(self).data().len()
                    &&& *final(self) == *old(self)
                },
            },
    {
        if self.pos >= self.data.len() || self.data.len() - self.pos < 4 {
            return Err(MarshalError::BufferExhausted);
        }
        let b0 = self.data[self.pos];
        let b1 = self.data[self.pos + 1];
        let b2 = self.data[self.pos + 2];
        let b3 = self.data[self.pos + 3];
        self.pos = self.pos + 4;
        let v: u32 = (b0 as u32) * 0x1000000 + (b1 as u32) * 0x10000 + (b2 as u32) * 256 + (
        b3 as u32);
        proof {
            lemma_fundamental_div_mod_converse(v as int, 256, (v as int) / 256, b3 as int);
            lemma_fundamental_div_mod_converse(
                (b0 as int) * 0x10000 + (b1 as int) * 256 + (b2 as int),
                256,
                (b0 as int) * 256 + (b1 as int),
                b2 as int,
            );
            lemma_fundamental_div_mod_converse(
                (b0 as int) * 256 + (b1 as int),
                256,
                b0 as int,
                b1 as int,
            );
            lemma_fundamental_div_mod_converse(
                v as int,
                0x1000000,
                b0 as int,
                (b1 as int) * 0x10000 + (b2 as int) * 256 + (b3 as int),
            );
            lemma_fundamental_div_mod_converse(
                v as int,
                0x10000,
                (b0 as int) * 256 + (b1 as int),
                (b2 as int) * 256 + (b3 as int),
            );
            lemma_fundamental_div_mod_converse(
                v as int,
                256,
                (b0 as int) * 0x10000 + (b1 as int) * 256 + (b2 as int),
                b3 as int,
            );
            assert(u32_be_bytes(v) =~= old(self).data().subrange(
                old(self).pos() as int,
                old(self).pos() as int + 4,
            ));
        }
        Ok(v)
    }

    /// Read `n` whole bytes at a byte boundary.
    pub fn read_bytes(&mut self, n: usize) -> (r: Result<Vec<u8>, MarshalError>)
        requires
            old(self).inv(),
            old(self).aligned(),
        ensures
            final(self).inv(),
            final(self).aligned(),
            final(self).data() == old(self).data(),
            match r {
                Ok(v) => {
                    &&& old(self).pos() + n <= old(self).data().len()
                    &&& v@ == old(self).data().subrange(old(self).pos() as int, old(self).pos() as int + n)
                    &&& final(self).pos() == old(self).pos() + n
                },
                Err(e) => {
                    &&& e == MarshalError::BufferExhausted
                    &&& old(self).pos() + n > old(self).data().len()
                    &&& *final(self) == *old(self)
                },
            },
    {
        if self.data.len() - self.pos < n {
            return Err(MarshalError::BufferExhausted);
        }
        let len = self.data.len();
        let mut v: Vec<u8> = Vec::new();
        let mut i: usize = 0;
        while i < n
            invariant
                self.inv(),
                *self == *old(self),
                len == self.data().len(),
                self.pos() + n <= self.data().len(),
                i <= n,
                v@ == self.data().subrange(self.pos() as int, self.pos() as int + i),
            decreases n - i,
        {
            v.push(self.data[self.pos + i]);
            i = i + 1;
            proof {
                assert(v@ =~= self.data().subrange(self.pos() as int, self.pos() as int + i));
            }
        }
        self.pos = self.pos + n;
        Ok(v)
    }

    /// Read every remaining byte, at a byte boundary.
    pub fn read_rest(&mut self) -> (r: Vec<u8>)
        requires
            old(self).inv(),
            old(self).aligned(),
        ensures
            final(self).inv(),
            final(self).aligned(),
            final(self).data() == old(self).data(),
            r@ == old(self).rest(),
            final(self).pos() == old(self).data().len(),
    {
        let n = self.data.len() - self.pos;
        match self.read_bytes(n) {
            Ok(v) => {
                proof {
                    assert(v@ =~= old(self).rest());
                }
                v
            },
            Err(_) => {
                // Unreachable: the remaining length always fits.
                proof {
                    assert(false);
                }
                Vec::new()
            },
        }
    }

    /// Number of bytes not yet consumed.
    pub fn remaining(&self) -> (r: usize)
        requires
            self.inv(),
        ensures
            r == self.data().len() - self.pos(),
    {
        self.data.len() - self.pos
    }
}

} // verus!
