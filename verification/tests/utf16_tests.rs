use atom_table::utf16::{decode_units, encode_text, Decoded};

#[test]
fn encode_ascii() {
    assert_eq!(encode_text("A"), vec![0x41u16]);
    assert_eq!(encode_text("abc"), vec![0x61u16, 0x62, 0x63]);
}

#[test]
fn encode_empty() {
    assert_eq!(encode_text(""), Vec::<u16>::new());
}

#[test]
fn encode_supplementary_plane() {
    // U+1F980 encodes as the surrogate pair D83E DD80.
    assert_eq!(encode_text("\u{1F980}"), vec![0xD83Eu16, 0xDD80]);
}

#[test]
fn encode_basic_plane_boundaries() {
    assert_eq!(encode_text("\u{D7FF}"), vec![0xD7FFu16]);
    assert_eq!(encode_text("\u{E000}"), vec![0xE000u16]);
    assert_eq!(encode_text("\u{FFFF}"), vec![0xFFFFu16]);
    assert_eq!(encode_text("\u{10000}"), vec![0xD800u16, 0xDC00]);
    assert_eq!(encode_text("\u{10FFFF}"), vec![0xDBFFu16, 0xDFFF]);
}

#[test]
fn decode_scalars() {
    let d = decode_units(&[0x41, 0x62]);
    assert_eq!(d, vec![Decoded::Scalar(0x41), Decoded::Scalar(0x62)]);
}

#[test]
fn decode_surrogate_pair() {
    let d = decode_units(&[0xD83E, 0xDD80]);
    assert_eq!(d, vec![Decoded::Scalar(0x1F980)]);
}

#[test]
fn decode_lone_high_surrogate() {
    let d = decode_units(&[0xD800]);
    assert_eq!(d, vec![Decoded::LoneSurrogate(0xD800)]);
}

#[test]
fn decode_lone_low_surrogate() {
    let d = decode_units(&[0xDC00]);
    assert_eq!(d, vec![Decoded::LoneSurrogate(0xDC00)]);
}

#[test]
fn decode_high_surrogate_before_non_low() {
    let d = decode_units(&[0xD800, 0x41]);
    assert_eq!(d, vec![Decoded::LoneSurrogate(0xD800), Decoded::Scalar(0x41)]);
}

#[test]
fn decode_pair_after_lone_high() {
    let d = decode_units(&[0xD800, 0xD800, 0xDC00]);
    assert_eq!(d, vec![Decoded::LoneSurrogate(0xD800), Decoded::Scalar(0x10000)]);
}

#[test]
fn decode_empty() {
    let d = decode_units(&[]);
    assert_eq!(d, Vec::<Decoded>::new());
}

#[test]
fn decode_inverts_encode() {
    let text = "h\u{E9}llo \u{1F980} \u{65E5}\u{672C}\u{8A9E}";
    let units = encode_text(text);
    let decoded = decode_units(units.as_slice());
    let scalars: Vec<u32> = text.chars().map(|c| c as u32).collect();
    assert_eq!(decoded.len(), scalars.len());
    for (i, v) in scalars.iter().enumerate() {
        assert_eq!(decoded[i], Decoded::Scalar(*v));
    }
}
