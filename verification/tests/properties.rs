use b64::codec::{decode, encode};

const ALPHABET: &[u8; 64] = b"ABCDEFGHIJKLMNOPQRSTUVWXYZabcdefghijklmnopqrstuvwxyz0123456789+/";

/// Plain table-driven Base64 encoder, used as an independent reference.
fn reference_encode(data: &[u8]) -> Vec<u8> {
    let mut out: Vec<u8> = Vec::new();
    for chunk in data.chunks(3) {
        let b0 = chunk[0] as u32;
        let b1 = *chunk.get(1).unwrap_or(&0) as u32;
        let b2 = *chunk.get(2).unwrap_or(&0) as u32;
        let group = (b0 << 16) | (b1 << 8) | b2;
        let quads = [
            ALPHABET[(group >> 18) as usize & 63],
            ALPHABET[(group >> 12) as usize & 63],
            ALPHABET[(group >> 6) as usize & 63],
            ALPHABET[group as usize & 63],
        ];
        let keep = 1 + chunk.len();
        out.extend_from_slice(&quads[..keep]);
        for _ in keep..4 {
            out.push(b'=');
        }
    }
    out
}

/// Deterministic sample buffer of a given length.
fn sample(len: usize) -> Vec<u8> {
    (0..len).map(|i| ((i * 7 + 3) % 256) as u8).collect()
}

#[test]
fn block_boundary_stress() {
    let expected15 = "QUJDREVGR0hJSktMTU5P";
    let expected16 = "QUJDREVGR0hJSktMTU5PUA==";
    let expected17 = "QUJDREVGR0hJSktMTU5PUFE=";
    assert_eq!(encode(b"ABCDEFGHIJKLMNO"), expected15.as_bytes());
    assert_eq!(encode(b"ABCDEFGHIJKLMNOP"), expected16.as_bytes());
    assert_eq!(encode(b"ABCDEFGHIJKLMNOPQ"), expected17.as_bytes());

    let expected31 = "AwoRGB8mLTQ7QklQV15lbHN6gYiPlp2kq7K5wMfO1Q==";
    let expected32 = "AwoRGB8mLTQ7QklQV15lbHN6gYiPlp2kq7K5wMfO1dw=";
    let expected33 = "AwoRGB8mLTQ7QklQV15lbHN6gYiPlp2kq7K5wMfO1dzj";
    assert_eq!(encode(&sample(31)), expected31.as_bytes());
    assert_eq!(encode(&sample(32)), expected32.as_bytes());
    assert_eq!(encode(&sample(33)), expected33.as_bytes());

    for len in [15usize, 16, 17, 31, 32, 33] {
        let data = sample(len);
        assert_eq!(encode(&data), reference_encode(&data));
        assert_eq!(decode(&encode(&data)), data);
    }
}

#[test]
fn matches_reference_implementation() {
    for len in 0..=96usize {
        let data = sample(len);
        assert_eq!(encode(&data), reference_encode(&data), "length {len}");
    }
}

#[test]
fn round_trips_all_lengths() {
    for len in 0..=96usize {
        let data = sample(len);
        assert_eq!(decode(&encode(&data)), data, "length {len}");
    }
    for b in 0..=255u8 {
        let data = [b, b.wrapping_mul(31), b ^ 0x5A];
        for take in 0..=3usize {
            assert_eq!(decode(&encode(&data[..take])), &data[..take]);
        }
    }
}

#[test]
fn length_is_four_times_ceil_thirds() {
    for len in 0..=96usize {
        let text = encode(&sample(len));
        assert_eq!(text.len() % 4, 0, "length {len}");
        assert_eq!(text.len(), (len + 2) / 3 * 4, "length {len}");
    }
}

#[test]
fn padding_count_follows_remainder() {
    for len in 0..=96usize {
        let text = encode(&sample(len));
        let pads = text.iter().filter(|&&c| c == b'=').count();
        let expected = [0usize, 2, 1][len % 3];
        assert_eq!(pads, expected, "length {len}");
        // padding only ever sits at the tail
        assert!(text[..text.len() - pads].iter().all(|&c| c != b'='));
    }
}

#[test]
fn alphabet_closure() {
    for len in 0..=96usize {
        let text = encode(&sample(len));
        let pads = text.iter().filter(|&&c| c == b'=').count();
        for &c in &text[..text.len() - pads] {
            assert!(ALPHABET.contains(&c), "character {c} outside the alphabet");
        }
    }
}
