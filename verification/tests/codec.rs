use b64::codec::{decode, encode};
use b64::stream::BitStream;

/// Collects every symbol the encode-direction repacker produces.
fn collect_symbols(data: &[u8]) -> Vec<u8> {
    let mut it = BitStream::new(data).encode_into_iter();
    let mut out: Vec<u8> = Vec::new();
    while let Some(s) = it.next() {
        out.push(s);
    }
    out
}

#[test]
fn test_encode_iterator() {
    let text = "ManMan";
    let encoded = collect_symbols(text.as_bytes());
    assert_eq!(encoded, vec![19, 22, 5, 46, 19, 22, 5, 46]);
}

#[test]
fn test_encode() {
    let data = "encode me senpai uwu :3";
    let expected = "ZW5jb2RlIG1lIHNlbnBhaSB1d3UgOjM=";

    let encoded = encode(data.as_bytes());
    assert_eq!(expected.as_bytes(), encoded);
}

#[test]
fn test_padding() {
    let test1 = "light work.";
    let test2 = "light work";
    let test3 = "light wor";
    let test4 = "light wo";
    let test5 = "light w";

    let ans1 = "bGlnaHQgd29yay4=";
    let ans2 = "bGlnaHQgd29yaw==";
    let ans3 = "bGlnaHQgd29y";
    let ans4 = "bGlnaHQgd28=";
    let ans5 = "bGlnaHQgdw==";

    assert_eq!(encode(test1.as_bytes()), ans1.as_bytes());
    assert_eq!(encode(test2.as_bytes()), ans2.as_bytes());
    assert_eq!(encode(test3.as_bytes()), ans3.as_bytes());
    assert_eq!(encode(test4.as_bytes()), ans4.as_bytes());
    assert_eq!(encode(test5.as_bytes()), ans5.as_bytes());
}

#[test]
fn test_decoding() {
    let data = "TWFueSBoYW5kcyBtYWtlIGxpZ2h0IHdvcmsu";
    let ans = "Many hands make light work.";
    assert_eq!(decode(data.as_bytes()), ans.as_bytes());

    let data = "TGluZTEKICAgIExpbmUyCiAgICAgICAgTGluZTM=";
    let ans = "Line1\n    Line2\n        Line3";
    assert_eq!(decode(data.as_bytes()), ans.as_bytes());
}

#[test]
fn empty_buffer_encodes_to_empty_text() {
    assert_eq!(encode(&[]), Vec::<u8>::new());
}

#[test]
fn empty_text_decodes_to_empty_buffer() {
    assert_eq!(decode(&[]), Vec::<u8>::new());
}

#[test]
fn plus_and_slash_lanes() {
    assert_eq!(encode(&[251, 239, 190]), b"++++".to_vec());
    assert_eq!(encode(&[255, 255, 255]), b"////".to_vec());
    assert_eq!(decode(b"+/+/"), vec![251, 255, 191]);
    assert_eq!(decode(b"////"), vec![255, 255, 255]);
}

#[test]
fn malformed_or_partial_input_is_tolerated() {
    // decoding is silent and non-validating: junk yields garbage, not a panic
    assert_eq!(decode(b"A").len(), 0); // fewer than 8 bits of symbols
    assert_eq!(decode(b"AB").len(), 1);
    assert_eq!(decode(b"ABC").len(), 2);
    assert_eq!(decode(b"=").len(), 0); // all padding strips to nothing
    assert_eq!(decode(b"==").len(), 0);
    decode(b"!@#$%^&*");
    decode(b"\xff\xfe\xfd\xfc");
}

#[test]
fn multi_line_text_round_trips() {
    let text = "first line\n\tindented\tline\n    spaced   run\nlast line\n";
    assert_eq!(decode(&encode(text.as_bytes())), text.as_bytes());
}
