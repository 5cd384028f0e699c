//! Orchestrator: drives the bit repacker and the block translator over whole
//! buffers, appends and strips `=` padding, and states the library's laws.

use vstd::prelude::*;

use crate::stream::byte_at;
use crate::stream::byte_count;
use crate::stream::symbol_at;
use crate::stream::symbol_count;
use crate::stream::BitStream;
use crate::translate::char_of_symbol;
use crate::translate::decode_16_bytes;
use crate::translate::encode_16_bytes;
use crate::translate::symbol_of_char;
use vstd::arithmetic::div_mod::lemma_fundamental_div_mod;
use vstd::arithmetic::div_mod::lemma_fundamental_div_mod_converse;

verus! {

/// How many `=` characters pad the encoding of `n` bytes.
pub open spec fn pad_len(n: nat) -> nat {
    if n % 3 == 1 {
        2
    } else if n % 3 == 2 {
        1
    } else {
        0
    }
}

/// The Base64 text of `d`: one alphabet character per 6-bit symbol of the
/// bit stream of `d`, then `=` padding up to a multiple of four characters.
pub open spec fn spec_encode(d: Seq<u8>) -> Seq<u8> {
    Seq::new(symbol_count(d.len()), |i: int| char_of_symbol(symbol_at(d, i))) + Seq::new(
        pad_len(d.len()),
        |i: int| 61u8,
    )
}

/// How many trailing `=` characters the text carries: at most the last two
/// positions count, as an encoder never writes more than two.
pub open spec fn trailing_pad_count(t: Seq<u8>) -> nat {
    if t.len() >= 1 && t[t.len() - 1] == 61 {
        if t.len() >= 2 && t[t.len() - 2] == 61 {
            2
        } else {
            1
        }
    } else {
        0
    }
}

/// The buffer decoded from text `t`: translate each character to its 6-bit
/// symbol, rebuild whole bytes from the symbol bit stream, then drop one
/// trailing byte per trailing `=` — never more than the buffer holds.
pub open spec fn spec_decode(t: Seq<u8>) -> Seq<u8> {
    let syms = t.map_values(|c: u8| symbol_of_char(c));
    let raw = Seq::new(byte_count(t.len()), |j: int| byte_at(syms, j));
    let strip = if trailing_pad_count(t) <= raw.len() {
        trailing_pad_count(t)
    } else {
        raw.len()
    };
    raw.take(raw.len() - strip)
}

/// Length bookkeeping: `n` bytes make `symbol_count(n)` characters plus
/// `pad_len(n)` padding characters — four characters for every started group
/// of three bytes — and decoding that many characters rebuilds exactly
/// `n + pad_len(n)` whole bytes.
pub proof fn lemma_counts(n: nat)
    ensures
        symbol_count(n) + pad_len(n) == 4 * ((n + 2) / 3),
        (symbol_count(n) + pad_len(n)) % 4 == 0,
        byte_count(symbol_count(n) + pad_len(n)) == n + pad_len(n),
{
    let q: int = n as int / 3;
    let r: int = n as int % 3;
    lemma_fundamental_div_mod(n as int, 3);
    if r == 0 {
        lemma_fundamental_div_mod_converse(4 * n as int + 2, 3, 4 * q, 2);
        lemma_fundamental_div_mod_converse(n as int + 2, 3, q, 2);
        lemma_fundamental_div_mod_converse(4 * q, 4, q, 0);
        lemma_fundamental_div_mod_converse(3 * (4 * q), 4, 3 * q, 0);
    } else if r == 1 {
        lemma_fundamental_div_mod_converse(4 * n as int + 2, 3, 4 * q + 2, 0);
        lemma_fundamental_div_mod_converse(n as int + 2, 3, q + 1, 0);
        lemma_fundamental_div_mod_converse(4 * q + 4, 4, q + 1, 0);
        lemma_fundamental_div_mod_converse(3 * (4 * q + 4), 4, 3 * q + 3, 0);
    } else {
        lemma_fundamental_div_mod_converse(4 * n as int + 2, 3, 4 * q + 3, 1);
        lemma_fundamental_div_mod_converse(n as int + 2, 3, q + 1, 1);
        lemma_fundamental_div_mod_converse(4 * q + 4, 4, q + 1, 0);
        lemma_fundamental_div_mod_converse(3 * (4 * q + 4), 4, 3 * q + 3, 0);
    }
}

/// Encode pipeline: repack the buffer's bits into 6-bit symbols, translate
/// each full or zero-padded block of 16 symbols to alphabet characters, and
/// append `=` padding per the remainder of the length modulo three.
#[verifier::loop_isolation(false)]
pub fn encode(data: &[u8]) -> (r: Vec<u8>)
    requires
        data@.len() <= usize::MAX / 8,
    ensures
        r@ == spec_encode(data@),
        r@.len() == 4 * ((data@.len() + 2) / 3),
        r@.len() % 4 == 0,
{
    proof {
        lemma_counts(data@.len());
        crate::stream::lemma_symbol_count_iff(data@.len(), 0);
    }
    // Bit Repacker: bytes -> symbols
    let mut syms: Vec<u8> = Vec::new();
    let mut it = BitStream::new(data).encode_into_iter();
    loop
        invariant
            it.wf(),
            it.data@ == data@,
            syms@.len() == it.pos,
            forall|k: int| 0 <= k < it.pos ==> syms@[k] == symbol_at(data@, k),
        decreases symbol_count(data@.len()) - it.pos,
    {
        match it.next() {
            Some(s) => { syms.push(s); },
            None => { break; },
        }
    }
    // Block Translator: symbols -> characters, 16 lanes at a time
    let mut text: Vec<u8> = Vec::new();
    let mut i: usize = 0;
    while i < syms.len()
        invariant
            i <= syms@.len(),
            text@.len() == i,
            forall|k: int| 0 <= k < i ==> text@[k] == char_of_symbol(syms@[k]),
        decreases syms@.len() - i,
    {
        let mut block: [u8; 16] = [0; 16];
        let mut j: usize = 0;
        while j < 16
            invariant
                j <= 16,
                forall|k: int| 0 <= k < j && i + k < syms@.len() ==> block@[k] == syms@[i + k],
            decreases 16 - j,
        {
            if i + j < syms.len() {
                block[j] = syms[i + j];
            }
            j = j + 1;
        }
        let translated: [u8; 16] = encode_16_bytes(block);
        let take: usize = if syms.len() - i < 16 {
            syms.len() - i
        } else {
            16
        };
        let mut j2: usize = 0;
        while j2 < take
            invariant
                j2 <= take,
                text@.len() == i + j2,
                forall|k: int| 0 <= k < i + j2 ==> text@[k] == char_of_symbol(syms@[k]),
            decreases take - j2,
        {
            text.push(translated[j2]);
            j2 = j2 + 1;
        }
        i = i + take;
    }
    // Padding: {0, 1, 2} bytes left over take {0, 2, 1} '=' characters
    let rem: usize = data.len() % 3;
    if rem == 1 {
        text.push(61);
        text.push(61);
    } else if rem == 2 {
        text.push(61);
    }
    proof {
        assert(text@ =~= spec_encode(data@));
    }
    text
}

/// Decode pipeline: translate each block of 16 characters to 6-bit symbols
/// (`=` and out-of-alphabet bytes pass through untranslated), rebuild whole
/// bytes from the symbol bit stream, then strip one trailing byte per
/// trailing `=` of the input — at most two, and never below an empty buffer.
#[verifier::loop_isolation(false)]
pub fn decode(data: &[u8]) -> (r: Vec<u8>)
    requires
        data@.len() <= usize::MAX / 8,
    ensures
        r@ == spec_decode(data@),
{
    let ghost syms_view: Seq<u8> = data@.map_values(|c: u8| symbol_of_char(c));
    // Block Translator: characters -> symbols, 16 lanes at a time
    let mut syms: Vec<u8> = Vec::new();
    let mut i: usize = 0;
    while i < data.len()
        invariant
            i <= data@.len(),
            syms@.len() == i,
            forall|k: int| 0 <= k < i ==> syms@[k] == symbol_of_char(data@[k]),
        decreases data@.len() - i,
    {
        let mut block: [u8; 16] = [0; 16];
        let mut j: usize = 0;
        while j < 16
            invariant
                j <= 16,
                forall|k: int| 0 <= k < j && i + k < data@.len() ==> block@[k] == data@[i + k],
            decreases 16 - j,
        {
            if i + j < data.len() {
                block[j] = data[i + j];
            }
            j = j + 1;
        }
        let translated: [u8; 16] = decode_16_bytes(block);
        let take: usize = if data.len() - i < 16 {
            data.len() - i
        } else {
            16
        };
        let mut j2: usize = 0;
        while j2 < take
            invariant
                j2 <= take,
                syms@.len() == i + j2,
                forall|k: int| 0 <= k < i + j2 ==> syms@[k] == symbol_of_char(data@[k]),
            decreases take - j2,
        {
            syms.push(translated[j2]);
            j2 = j2 + 1;
        }
        i = i + take;
    }
    proof {
        assert(syms@ =~= syms_view);
    }
    // Bit Repacker: symbols -> bytes
    let mut out: Vec<u8> = Vec::new();
    let mut it = BitStream::new(syms.as_slice()).decode_into_iter();
    loop
        invariant
            it.wf(),
            it.data@ == syms_view,
            out@.len() == it.pos,
            forall|k: int| 0 <= k < it.pos ==> out@[k] == byte_at(syms_view, k),
        decreases byte_count(syms_view.len()) - it.pos,
    {
        match it.next() {
            Some(b) => { out.push(b); },
            None => { break; },
        }
    }
    proof {
        assert(out@ =~= Seq::new(byte_count(data@.len()), |j: int| byte_at(syms_view, j)));
    }
    // Padding strip: one byte per trailing '=', never past an empty buffer
    let n: usize = data.len();
    let mut strip: usize = 0;
    if n >= 1 && data[n - 1] == 61 {
        if n >= 2 && data[n - 2] == 61 {
            strip = 2;
        } else {
            strip = 1;
        }
    }
    if strip > out.len() {
        strip = out.len();
    }
    let keep: usize = out.len() - strip;
    out.truncate(keep);
    proof {
        assert(out@ =~= spec_decode(data@));
    }
    out
}

/// Every 6-bit symbol drawn by the encode repacker fits in `[0, 64)`.
pub proof fn lemma_symbol_in_range(d: Seq<u8>, i: int)
    ensures
        symbol_at(d, i) < 64,
{
    let q: int = i / 4;
    let a: u8 = d[3 * q];
    let b: u8 = d[3 * q + 1];
    let c: u8 = d[3 * q + 2];
    assert((a >> 2) < 64 && (((a & 3) << 4) | (b >> 4)) < 64 && (((a & 3) << 4) | 0) < 64 && (((b
        & 15) << 2) | (c >> 6)) < 64 && (((b & 15) << 2) | 0) < 64 && (c & 63) < 64)
        by (bit_vector);
}

/// Rebuilding byte `j` from the symbol stream of `d` gives back `d[j]`:
/// the decode-direction extraction formulas are the exact inverses of the
/// encode-direction ones, phase by phase.
pub proof fn lemma_byte_reconstruct(d: Seq<u8>, s: Seq<u8>, j: int)
    requires
        0 <= j < d.len(),
        forall|i: int| 0 <= i < symbol_count(d.len()) ==> s[i] == symbol_at(d, i),
    ensures
        byte_at(s, j) == d[j],
{
    let n: int = d.len() as int;
    let q: int = j / 3;
    let r: int = j % 3;
    lemma_fundamental_div_mod(j, 3);
    if r == 0 {
        lemma_fundamental_div_mod_converse(4 * q, 4, q, 0);
        lemma_fundamental_div_mod_converse(4 * q + 1, 4, q, 1);
        lemma_fundamental_div_mod_converse(12 * q + 6, 3, 4 * q + 2, 0);
        vstd::arithmetic::div_mod::lemma_div_is_ordered(12 * q + 6, 4 * n + 2, 3);
        let a: u8 = d[3 * q];
        if 3 * q + 1 < n {
            let b: u8 = d[3 * q + 1];
            assert((((a >> 2) << 2) | ((((a & 3) << 4) | (b >> 4)) >> 4)) == a) by (bit_vector);
        } else {
            assert((((a >> 2) << 2) | ((((a & 3) << 4) | 0) >> 4)) == a) by (bit_vector);
        }
    } else if r == 1 {
        lemma_fundamental_div_mod_converse(4 * q + 1, 4, q, 1);
        lemma_fundamental_div_mod_converse(4 * q + 2, 4, q, 2);
        lemma_fundamental_div_mod_converse(12 * q + 10, 3, 4 * q + 3, 1);
        vstd::arithmetic::div_mod::lemma_div_is_ordered(12 * q + 10, 4 * n + 2, 3);
        let x: u8 = d[3 * q];
        let a: u8 = d[3 * q + 1];
        if 3 * q + 2 < n {
            let c: u8 = d[3 * q + 2];
            assert(((((x & 3) << 4) | (a >> 4)) << 4) | ((((a & 15) << 2) | (c >> 6)) >> 2)
                == a) by (bit_vector);
        } else {
            assert(((((x & 3) << 4) | (a >> 4)) << 4) | ((((a & 15) << 2) | 0) >> 2) == a)
                by (bit_vector);
        }
    } else {
        lemma_fundamental_div_mod_converse(4 * q + 2, 4, q, 2);
        lemma_fundamental_div_mod_converse(4 * q + 3, 4, q, 3);
        lemma_fundamental_div_mod_converse(12 * q + 14, 3, 4 * q + 4, 2);
        vstd::arithmetic::div_mod::lemma_div_is_ordered(12 * q + 14, 4 * n + 2, 3);
        let x: u8 = d[3 * q + 1];
        let a: u8 = d[3 * q + 2];
        assert((((((x & 15) << 2) | (a >> 6)) << 6) | (a & 63)) == a) by (bit_vector);
    }
}

/// Padding law: the encoding of `n` bytes ends in exactly `pad_len(n)`
/// characters `=` — that is {0, 2, 1} of them for `n % 3` = {0, 1, 2} — and
/// `=` occurs nowhere among the preceding symbol characters.
pub proof fn lemma_padding(d: Seq<u8>)
    ensures
        trailing_pad_count(spec_encode(d)) == pad_len(d.len()),
        forall|i: int|
            0 <= i < symbol_count(d.len()) ==> spec_encode(d)[i] != 61,
        forall|i: int|
            symbol_count(d.len()) <= i < spec_encode(d).len() ==> spec_encode(d)[i] == 61,
{
    let n = d.len();
    let m = symbol_count(n);
    let t = spec_encode(d);
    assert forall|i: int| 0 <= i < m implies t[i] != 61 by {
        lemma_symbol_in_range(d, i);
        crate::translate::lemma_symbol_char_roundtrip(symbol_at(d, i));
    }
    if n > 0 {
        crate::stream::lemma_symbol_count_iff(n, 0);
    }
}

/// Alphabet closure: every non-padding character of an encoding belongs to
/// the 64-character alphabet.
pub proof fn lemma_alphabet(d: Seq<u8>)
    ensures
        forall|i: int|
            0 <= i < symbol_count(d.len()) ==> crate::translate::is_alphabet_char(
                spec_encode(d)[i],
            ),
{
    assert forall|i: int| 0 <= i < symbol_count(d.len()) implies crate::translate::is_alphabet_char(
        spec_encode(d)[i],
    ) by {
        lemma_symbol_in_range(d, i);
        crate::translate::lemma_symbol_char_roundtrip(symbol_at(d, i));
    }
}

/// Length law: the encoding of `n` bytes is `4 * ceil(n / 3)` characters
/// long — always a multiple of four.
pub proof fn lemma_encode_length(d: Seq<u8>)
    ensures
        spec_encode(d).len() == 4 * ((d.len() + 2) / 3),
        spec_encode(d).len() % 4 == 0,
{
    lemma_counts(d.len());
}

/// Round-trip law: decoding an encoding gives back the original buffer.
pub proof fn lemma_round_trip(d: Seq<u8>)
    ensures
        spec_decode(spec_encode(d)) == d,
{
    let n = d.len();
    let m = symbol_count(n);
    let t = spec_encode(d);
    lemma_counts(n);
    lemma_padding(d);
    let syms = t.map_values(|c: u8| symbol_of_char(c));
    assert forall|i: int| 0 <= i < m implies syms[i] == symbol_at(d, i) by {
        lemma_symbol_in_range(d, i);
        crate::translate::lemma_symbol_char_roundtrip(symbol_at(d, i));
    }
    let raw = Seq::new(byte_count(t.len()), |j: int| byte_at(syms, j));
    assert forall|j: int| 0 <= j < n implies raw[j] == d[j] by {
        lemma_byte_reconstruct(d, syms, j);
    }
    assert(spec_decode(t) =~= d);
}

} // verus!
