//! Block translator: the mapping between 6-bit symbols and the 64-character
//! Base64 alphabet, applied 16 lanes at a time.
//!
//! Each lane is classified against five disjoint value ranges; every range
//! contributes an additive offset under a lane mask, the five contributions
//! are OR-combined (the masks are disjoint, so no bit is set twice) and added
//! to the lane in one wrapping addition. Values no range covers pass through
//! unchanged, so `=` padding and out-of-alphabet bytes survive translation.

use vstd::prelude::*;

verus! {

/// The character the standard alphabet assigns to symbol `s` (a value in
/// `[0, 64)`); values outside that range pass through unchanged.
pub open spec fn char_of_symbol(s: u8) -> u8 {
    if s < 26 {
        (s + 65) as u8 // 'A'..='Z'
    } else if s < 52 {
        (s + 71) as u8 // 'a'..='z'
    } else if s < 62 {
        (s - 4) as u8 // '0'..='9'
    } else if s == 62 {
        43 // '+'
    } else if s == 63 {
        47 // '/'
    } else {
        s
    }
}

/// The symbol a Base64 alphabet character stands for; bytes outside the
/// alphabet (`=` padding among them) pass through unchanged.
pub open spec fn symbol_of_char(c: u8) -> u8 {
    if 65 <= c <= 90 {
        (c - 65) as u8 // 'A'..='Z' -> 0..=25
    } else if 97 <= c <= 122 {
        (c - 71) as u8 // 'a'..='z' -> 26..=51
    } else if 48 <= c <= 57 {
        (c + 4) as u8 // '0'..='9' -> 52..=61
    } else if c == 43 {
        62 // '+'
    } else if c == 47 {
        63 // '/'
    } else {
        c
    }
}

/// Membership in the 64-character alphabet `A-Z a-z 0-9 + /`.
pub open spec fn is_alphabet_char(c: u8) -> bool {
    (65 <= c <= 90) || (97 <= c <= 122) || (48 <= c <= 57) || c == 43 || c == 47
}

/// The two directions of the translator are inverses on symbols, and the
/// alphabet never contains the padding character `=` (61).
pub proof fn lemma_symbol_char_roundtrip(s: u8)
    requires
        s < 64,
    ensures
        is_alphabet_char(char_of_symbol(s)),
        char_of_symbol(s) != 61,
        symbol_of_char(char_of_symbol(s)) == s,
{
}

/// Decode-translation keeps alphabet characters inside the symbol range.
pub proof fn lemma_symbol_of_char_range(c: u8)
    requires
        is_alphabet_char(c),
    ensures
        symbol_of_char(c) < 64,
{
}

/// Encode-direction translation of one lane by five-mask-and-add arithmetic.
fn encode_lane(b: u8) -> (r: u8)
    ensures
        r == char_of_symbol(b),
{
    let upper: u8 = if b < 26 { 0xFF } else { 0x00 };
    let lower: u8 = if 25 < b && b < 52 { 0xFF } else { 0x00 };
    let digit: u8 = if 51 < b && b < 62 { 0xFF } else { 0x00 };
    let plus: u8 = if b == 62 { 0xFF } else { 0x00 };
    let slash: u8 = if b == 63 { 0xFF } else { 0x00 };
    // offsets: 'A', 'a' - 26, '0' - 52, '+' - 62, '/' - 63, each modulo 256
    let offset: u8 = (upper & 65) | ((lower & 71) | ((digit & 252) | ((plus & 237) | (slash
        & 240))));
    proof {
        assert((255u8 & 65) | ((0u8 & 71) | ((0u8 & 252) | ((0u8 & 237) | (0u8 & 240)))) == 65
            && (0u8 & 65) | ((255u8 & 71) | ((0u8 & 252) | ((0u8 & 237) | (0u8 & 240)))) == 71
            && (0u8 & 65) | ((0u8 & 71) | ((255u8 & 252) | ((0u8 & 237) | (0u8 & 240)))) == 252
            && (0u8 & 65) | ((0u8 & 71) | ((0u8 & 252) | ((255u8 & 237) | (0u8 & 240)))) == 237
            && (0u8 & 65) | ((0u8 & 71) | ((0u8 & 252) | ((0u8 & 237) | (255u8 & 240)))) == 240
            && (0u8 & 65) | ((0u8 & 71) | ((0u8 & 252) | ((0u8 & 237) | (0u8 & 240)))) == 0)
            by (bit_vector);
    }
    b.wrapping_add(offset)
}

/// Decode-direction translation of one lane: the mirror masks subtract each
/// range's ASCII base, leaving the pure 0..=63 symbol value.
fn decode_lane(c: u8) -> (r: u8)
    ensures
        r == symbol_of_char(c),
{
    let upper: u8 = if 64 < c && c < 91 { 0xFF } else { 0x00 };
    let lower: u8 = if 96 < c && c < 123 { 0xFF } else { 0x00 };
    let digit: u8 = if 47 < c && c < 58 { 0xFF } else { 0x00 };
    let plus: u8 = if c == 43 { 0xFF } else { 0x00 };
    let slash: u8 = if c == 47 { 0xFF } else { 0x00 };
    // offsets: -'A', 26 - 'a', 52 - '0', 62 - '+', 63 - '/', each modulo 256
    let offset: u8 = (upper & 191) | ((lower & 185) | ((digit & 4) | ((plus & 19) | (slash
        & 16))));
    proof {
        assert((255u8 & 191) | ((0u8 & 185) | ((0u8 & 4) | ((0u8 & 19) | (0u8 & 16)))) == 191
            && (0u8 & 191) | ((255u8 & 185) | ((0u8 & 4) | ((0u8 & 19) | (0u8 & 16)))) == 185
            && (0u8 & 191) | ((0u8 & 185) | ((255u8 & 4) | ((0u8 & 19) | (0u8 & 16)))) == 4
            && (0u8 & 191) | ((0u8 & 185) | ((0u8 & 4) | ((255u8 & 19) | (0u8 & 16)))) == 19
            && (0u8 & 191) | ((0u8 & 185) | ((0u8 & 4) | ((0u8 & 19) | (255u8 & 16)))) == 16
            && (0u8 & 191) | ((0u8 & 185) | ((0u8 & 4) | ((0u8 & 19) | (0u8 & 16)))) == 0)
            by (bit_vector);
    }
    c.wrapping_add(offset)
}

/// Encode-direction block translator: turns a block of 16 symbols into 16
/// alphabet characters, all lanes in lock-step.
pub fn encode_16_bytes(input: [u8; 16]) -> (r: [u8; 16])
    ensures
        forall|i: int| 0 <= i < 16 ==> r@[i] == char_of_symbol(input@[i]),
{
    let mut out: [u8; 16] = [0; 16];
    let mut i: usize = 0;
    while i < 16
        invariant
            i <= 16,
            forall|k: int| 0 <= k < i ==> out@[k] == char_of_symbol(input@[k]),
        decreases 16 - i,
    {
        out[i] = encode_lane(input[i]);
        i = i + 1;
    }
    out
}

/// Decode-direction block translator: turns a block of 16 Base64 characters
/// into 16 symbols, all lanes in lock-step.
pub fn decode_16_bytes(input: [u8; 16]) -> (r: [u8; 16])
    ensures
        forall|i: int| 0 <= i < 16 ==> r@[i] == symbol_of_char(input@[i]),
{
    let mut out: [u8; 16] = [0; 16];
    let mut i: usize = 0;
    while i < 16
        invariant
            i <= 16,
            forall|k: int| 0 <= k < i ==> out@[k] == symbol_of_char(input@[k]),
        decreases 16 - i,
    {
        out[i] = decode_lane(input[i]);
        i = i + 1;
    }
    out
}

} // verus!
