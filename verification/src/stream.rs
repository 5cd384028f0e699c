//! Bit repacker: regroups byte-aligned data between 8-bit and 6-bit
//! granularity, in big-endian bit order.
//!
//! A `BitStream` wraps a borrowed buffer and hands out one of two cursors:
//! `EncodeIntoIter` draws one 6-bit symbol per step (the final partial symbol
//! is zero-padded at its low end), `DecodeIntoIter` rebuilds one 8-bit byte
//! per step from a buffer of symbols. Each cursor tracks its position as the
//! count of items already produced; the bit phase of the next item follows
//! from that count alone, and each of the four (encode) or three (decode)
//! phases has its own fixed extraction formula.

use vstd::prelude::*;

verus! {

/// How many 6-bit symbols the encode repacker draws from `n` bytes:
/// the ceiling of `8n / 6`.
pub open spec fn symbol_count(n: nat) -> nat {
    (4 * n + 2) / 3
}

/// How many whole bytes the decode repacker rebuilds from `n` symbols:
/// the floor of `6n / 8`.
pub open spec fn byte_count(n: nat) -> nat {
    (3 * n) / 4
}

/// Symbol `i` of the big-endian bit stream of `d`: bits `6i .. 6i + 6`,
/// where bit `8k + b` is bit `7 - b` of byte `k`. Bits past the end of the
/// buffer read as zero. Every fourth symbol is byte-aligned again, so the
/// four phases repeat over groups of three bytes.
pub open spec fn symbol_at(d: Seq<u8>, i: int) -> u8 {
    let q: int = i / 4;
    let r: int = i % 4;
    if r == 0 {
        d[3 * q] >> 2
    } else if r == 1 {
        ((d[3 * q] & 3) << 4) | (if 3 * q + 1 < d.len() {
            d[3 * q + 1] >> 4
        } else {
            0
        })
    } else if r == 2 {
        ((d[3 * q + 1] & 15) << 2) | (if 3 * q + 2 < d.len() {
            d[3 * q + 2] >> 6
        } else {
            0
        })
    } else {
        d[3 * q + 2] & 63
    }
}

/// Byte `j` rebuilt from the 6-bit symbols of `s`: bits `8j .. 8j + 8` of
/// the stream formed by the low 6 bits of each symbol. Every third byte is
/// symbol-aligned again, so the three phases repeat over groups of four
/// symbols.
pub open spec fn byte_at(s: Seq<u8>, j: int) -> u8 {
    let q: int = j / 3;
    let r: int = j % 3;
    if r == 0 {
        (s[4 * q] << 2) | (s[4 * q + 1] >> 4)
    } else if r == 1 {
        (s[4 * q + 1] << 4) | (s[4 * q + 2] >> 2)
    } else {
        (s[4 * q + 2] << 6) | s[4 * q + 3]
    }
}

/// A cursor position `p` has a symbol left exactly when `6p < 8n`.
pub proof fn lemma_symbol_count_iff(n: nat, p: nat)
    ensures
        p < symbol_count(n) <==> 3 * p < 4 * n,
        3 * symbol_count(n) <= 4 * n + 2,
{
    vstd::arithmetic::div_mod::lemma_fundamental_div_mod(4 * n as int + 2, 3);
}

/// A cursor position `p` has a whole byte left exactly when `8(p+1) <= 6n`.
pub proof fn lemma_byte_count_iff(n: nat, p: nat)
    ensures
        p < byte_count(n) <==> 4 * (p + 1) <= 3 * n,
        4 * byte_count(n) <= 3 * n,
{
    vstd::arithmetic::div_mod::lemma_fundamental_div_mod(3 * n as int, 4);
}

/// A borrowed byte buffer about to be repacked in one direction or the other.
pub struct BitStream<'a> {
    pub data: &'a [u8],
}

/// Encode-direction cursor: `pos` symbols have been produced so far.
pub struct EncodeIntoIter<'a> {
    pub data: &'a [u8],
    pub pos: usize,
}

/// Decode-direction cursor: `pos` bytes have been produced so far.
pub struct DecodeIntoIter<'a> {
    pub data: &'a [u8],
    pub pos: usize,
}

impl<'a> BitStream<'a> {
    pub fn new(data: &'a [u8]) -> (r: Self)
        ensures
            r.data == data,
    {
        BitStream { data }
    }

    pub fn encode_into_iter(self) -> (r: EncodeIntoIter<'a>)
        ensures
            r.data == self.data,
            r.pos == 0,
    {
        EncodeIntoIter { data: self.data, pos: 0 }
    }

    pub fn decode_into_iter(self) -> (r: DecodeIntoIter<'a>)
        ensures
            r.data == self.data,
            r.pos == 0,
    {
        DecodeIntoIter { data: self.data, pos: 0 }
    }
}

impl<'a> EncodeIntoIter<'a> {
    /// The cursor never runs past the end of the symbol stream, and the
    /// buffer is small enough for the bit arithmetic to stay in `usize`.
    pub open spec fn wf(&self) -> bool {
        &&& self.data@.len() <= usize::MAX / 8
        &&& self.pos <= symbol_count(self.data@.len())
    }

    /// Produces the next 6-bit symbol, or `None` once all whole or partial
    /// bits of the buffer are exhausted.
    pub fn next(&mut self) -> (r: Option<u8>)
        requires
            old(self).wf(),
        ensures
            final(self).wf(),
            final(self).data == old(self).data,
            old(self).pos < symbol_count(old(self).data@.len()) ==> {
                &&& r == Some(symbol_at(old(self).data@, old(self).pos as int))
                &&& final(self).pos == old(self).pos + 1
            },
            old(self).pos >= symbol_count(old(self).data@.len()) ==> {
                &&& r is None
                &&& final(self).pos == old(self).pos
            },
    {
        let n: usize = self.data.len();
        proof {
            lemma_symbol_count_iff(n as nat, self.pos as nat);
        }
        if 3 * self.pos >= 4 * n {
            return None;
        }
        let q: usize = self.pos / 4;
        let r: usize = self.pos % 4;
        proof {
            vstd::arithmetic::div_mod::lemma_fundamental_div_mod(self.pos as int, 4);
        }
        let sym: u8 = if r == 0 {
            self.data[3 * q] >> 2
        } else if r == 1 {
            ((self.data[3 * q] & 3) << 4) | (if 3 * q + 1 < n {
                self.data[3 * q + 1] >> 4
            } else {
                0
            })
        } else if r == 2 {
            ((self.data[3 * q + 1] & 15) << 2) | (if 3 * q + 2 < n {
                self.data[3 * q + 2] >> 6
            } else {
                0
            })
        } else {
            self.data[3 * q + 2] & 63
        };
        self.pos = self.pos + 1;
        Some(sym)
    }
}

impl<'a> DecodeIntoIter<'a> {
    /// The cursor never runs past the last whole byte, and the buffer is
    /// small enough for the bit arithmetic to stay in `usize`.
    pub open spec fn wf(&self) -> bool {
        &&& self.data@.len() <= usize::MAX / 8
        &&& self.pos <= byte_count(self.data@.len())
    }

    /// Rebuilds the next 8-bit byte, or `None` once fewer than 8 bits of
    /// symbol stream remain.
    pub fn next(&mut self) -> (r: Option<u8>)
        requires
            old(self).wf(),
        ensures
            final(self).wf(),
            final(self).data == old(self).data,
            old(self).pos < byte_count(old(self).data@.len()) ==> {
                &&& r == Some(byte_at(old(self).data@, old(self).pos as int))
                &&& final(self).pos == old(self).pos + 1
            },
            old(self).pos >= byte_count(old(self).data@.len()) ==> {
                &&& r is None
                &&& final(self).pos == old(self).pos
            },
    {
        let n: usize = self.data.len();
        proof {
            lemma_byte_count_iff(n as nat, self.pos as nat);
        }
        if 4 * (self.pos + 1) > 3 * n {
            return None;
        }
        let q: usize = self.pos / 3;
        let r: usize = self.pos % 3;
        proof {
            vstd::arithmetic::div_mod::lemma_fundamental_div_mod(self.pos as int, 3);
        }
        let byte: u8 = if r == 0 {
            (self.data[4 * q] << 2) | (self.data[4 * q + 1] >> 4)
        } else if r == 1 {
            (self.data[4 * q + 1] << 4) | (self.data[4 * q + 2] >> 2)
        } else {
            (self.data[4 * q + 2] << 6) | self.data[4 * q + 3]
        };
        self.pos = self.pos + 1;
        Some(byte)
    }
}

} // verus!
