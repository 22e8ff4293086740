use serato_tags::analysis::Analysis;
use serato_tags::analysis::take_ascii_u8;
use serato_tags::color::{Color, take_color, write_color};
use serato_tags::error::Error;
use serato_tags::relvolad::RelVolAd;
use serato_tags::util::{Version, take_utf8, take_be_u32, take_version};

#[test]
fn analysis_id3_payload() {
    let a = Analysis::parse(&[0x02, 0x01]).unwrap();
    assert_eq!(a.version, Version { major: 2, minor: 1 });
    assert_eq!(a.write(), vec![0x02, 0x01]);
}

#[test]
fn analysis_id3_rejects_wrong_length() {
    assert_eq!(Analysis::parse(&[0x02]), Err(Error::ParseError));
    assert_eq!(Analysis::parse(&[0x02, 0x01, 0x00]), Err(Error::ParseError));
}

#[test]
fn analysis_ogg_payload() {
    let a = Analysis::parse_ogg(b"2.1").unwrap();
    assert_eq!(a.version, Version { major: 2, minor: 1 });
    assert_eq!(a.write_ogg(), b"2.1".to_vec());
}

#[test]
fn analysis_ogg_multi_digit() {
    let a = Analysis::parse_ogg(b"12.250").unwrap();
    assert_eq!(a.version, Version { major: 12, minor: 250 });
    assert_eq!(a.write_ogg(), b"12.250".to_vec());
}

#[test]
fn analysis_ogg_rejects_garbage() {
    assert_eq!(Analysis::parse_ogg(b"2,1"), Err(Error::ParseError));
    assert_eq!(Analysis::parse_ogg(b".1"), Err(Error::ParseError));
    assert_eq!(Analysis::parse_ogg(b"2."), Err(Error::ParseError));
    assert_eq!(Analysis::parse_ogg(b"2.1 "), Err(Error::ParseError));
    assert_eq!(Analysis::parse_ogg(b""), Err(Error::ParseError));
}

#[test]
fn ascii_u8_bounds() {
    assert_eq!(take_ascii_u8(b"255", 0), Ok((255, 3)));
    assert_eq!(take_ascii_u8(b"256", 0), Err(Error::ParseError));
    assert_eq!(take_ascii_u8(b"007x", 0), Ok((7, 3)));
    assert_eq!(take_ascii_u8(b"99999999999999999999", 0), Err(Error::ParseError));
}

#[test]
fn relvolad_flac_decoded_payload() {
    let v = RelVolAd::parse(&[0x01, 0x00, 0x01, 0x00, 0x00]).unwrap();
    assert_eq!(v.version, Version { major: 1, minor: 0 });
    assert_eq!(v.write(), vec![0x01, 0x00, 0x01, 0x00, 0x00]);
}

#[test]
fn relvolad_rejects_mutated_literal() {
    // Mutating any of the three fixed trailing bytes must fail the parse.
    for i in 2..5 {
        let mut payload = [0x01u8, 0x00, 0x01, 0x00, 0x00];
        payload[i] ^= 0x40;
        assert_eq!(RelVolAd::parse(&payload), Err(Error::ParseError));
    }
    assert_eq!(RelVolAd::parse(&[0x01, 0x00, 0x01, 0x00]), Err(Error::ParseError));
    assert_eq!(
        RelVolAd::parse(&[0x01, 0x00, 0x01, 0x00, 0x00, 0x00]),
        Err(Error::ParseError)
    );
}

#[test]
fn color_bijection_samples() {
    // Parsing three colour bytes and writing the colour back is the
    // identity on every 24-bit value; step through a spread of them.
    let mut r: u16 = 0;
    while r < 256 {
        let bytes = [r as u8, (255 - r) as u8, (r / 2) as u8];
        let (c, rest) = take_color(&bytes, 0).unwrap();
        assert_eq!(rest, 3);
        let mut out = Vec::new();
        write_color(&mut out, &c);
        assert_eq!(out, bytes.to_vec());
        r += 1;
    }
    let (c, _) = take_color(&[0xcc, 0x00, 0x00], 0).unwrap();
    assert_eq!(c, Color { red: 0xcc, green: 0x00, blue: 0x00 });
}

#[test]
fn utf8_take_validates() {
    let (label, j) = take_utf8(b"HOOK\0rest", 0).unwrap();
    assert_eq!(label, b"HOOK".to_vec());
    assert_eq!(j, 5);
    // An empty label is legal.
    let (label, j) = take_utf8(b"\0", 0).unwrap();
    assert!(label.is_empty());
    assert_eq!(j, 1);
    // Missing terminator.
    assert_eq!(take_utf8(b"HOOK", 0), Err(Error::ParseError));
    // Invalid UTF-8 before the terminator.
    assert_eq!(take_utf8(&[0xff, 0x00], 0), Err(Error::ParseError));
    // A valid two-byte sequence passes.
    let (label, _) = take_utf8(&[0xc3, 0xa9, 0x00], 0).unwrap();
    assert_eq!(label, vec![0xc3, 0xa9]);
}

#[test]
fn be_u32_reads_big_endian() {
    assert_eq!(take_be_u32(&[0x00, 0x00, 0x7a, 0x12], 0), Ok((0x7a12, 4)));
    assert_eq!(take_be_u32(&[0x01, 0x02, 0x03], 0), Err(Error::ParseError));
}

#[test]
fn version_reads_two_bytes() {
    assert_eq!(
        take_version(&[0x02, 0x05], 0),
        Ok((Version { major: 2, minor: 5 }, 2))
    );
    assert_eq!(take_version(&[0x02], 0), Err(Error::ParseError));
}
