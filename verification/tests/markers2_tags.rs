use serato_tags::color::Color;
use serato_tags::error::Error;
use serato_tags::generic::{
    CensorFlipAction, Cue, Flip, FlipAction, JumpFlipAction, Loop, UnknownFlipAction,
};
use serato_tags::markers2::{
    BPMLockMarker, Marker, Markers2, Markers2Content, TrackColorMarker, UnknownMarker,
    parse_markers2_content, take_cue_marker, take_flip_marker_action, take_marker,
    write_flip_marker_action, write_marker, write_markers2_content,
};
use serato_tags::util::Version;

fn inner_bpmlock_payload() -> Vec<u8> {
    // version 01 01, then "BPMLOCK\0", length 1, payload 01
    let mut inner = vec![0x01u8, 0x01];
    inner.extend_from_slice(b"BPMLOCK\0");
    inner.extend_from_slice(&[0x00, 0x00, 0x00, 0x01, 0x01]);
    inner
}

#[test]
fn markers2_inner_bpmlock() {
    let content = parse_markers2_content(&inner_bpmlock_payload()).unwrap();
    assert_eq!(content.version, Version { major: 1, minor: 1 });
    assert_eq!(content.markers.len(), 1);
    match &content.markers[0] {
        Marker::BPMLock(m) => assert!(m.is_locked),
        other => panic!("expected a BPMLOCK marker, got {:?}", other),
    }
}

#[test]
fn markers2_cue_body() {
    let mut body = vec![0x00u8, 0x02, 0x00, 0x00, 0x7a, 0x12, 0x00, 0xcc, 0x00, 0x00, 0x00, 0x00];
    body.extend_from_slice(b"HOOK\0");
    let m = take_cue_marker(&body).unwrap();
    match m {
        Marker::Cue(c) => {
            assert_eq!(c.index, 2);
            assert_eq!(c.position_millis, 0x7a12);
            assert_eq!(c.color, Color { red: 0xcc, green: 0x00, blue: 0x00 });
            assert_eq!(c.label, b"HOOK".to_vec());
        },
        other => panic!("expected a CUE marker, got {:?}", other),
    }
}

#[test]
fn markers2_cue_body_rejects_leftover() {
    // A trailing byte after the label's terminator fails the parse.
    let mut body = vec![0x00u8, 0x02, 0x00, 0x00, 0x7a, 0x12, 0x00, 0xcc, 0x00, 0x00, 0x00, 0x00];
    body.extend_from_slice(b"HOOK\0\0");
    assert!(take_cue_marker(&body).is_err());
}

#[test]
fn unknown_marker_roundtrips() {
    // A marker with an unused ASCII name and arbitrary data survives a
    // round trip byte-identically.
    let mut stream = Vec::new();
    stream.extend_from_slice(b"XYZ\0");
    stream.extend_from_slice(&[0x00, 0x00, 0x00, 0x03, 0xde, 0xad, 0x00]);
    let (m, end) = take_marker(&stream, 0).unwrap();
    assert_eq!(end, stream.len());
    match &m {
        Marker::Unknown(u) => {
            assert_eq!(u.name, b"XYZ".to_vec());
            assert_eq!(u.data, vec![0xde, 0xad, 0x00]);
        },
        other => panic!("expected an unknown marker, got {:?}", other),
    }
    let mut out = Vec::new();
    write_marker(&mut out, &m);
    assert_eq!(out, stream);
}

#[test]
fn unknown_flip_action_roundtrips() {
    // An action with an id other than jump or censor and arbitrary
    // payload survives a round trip byte-identically.
    let stream = vec![0x07u8, 0x00, 0x00, 0x00, 0x02, 0xaa, 0xbb];
    let (a, end) = take_flip_marker_action(&stream, 0).unwrap();
    assert_eq!(end, stream.len());
    match &a {
        FlipAction::Unknown(u) => {
            assert_eq!(u.id, 7);
            assert_eq!(u.data, vec![0xaa, 0xbb]);
        },
        other => panic!("expected an unknown action, got {:?}", other),
    }
    let mut out = Vec::new();
    write_flip_marker_action(&mut out, &a);
    assert_eq!(out, stream);
}

#[test]
fn jump_action_roundtrips() {
    let a = FlipAction::Jump(JumpFlipAction {
        source_position_bits: 1.25f64.to_bits(),
        target_position_bits: 8.5f64.to_bits(),
    });
    let mut out = Vec::new();
    write_flip_marker_action(&mut out, &a);
    assert_eq!(out.len(), 21);
    assert_eq!(out[0], 0);
    let (back, end) = take_flip_marker_action(&out, 0).unwrap();
    assert_eq!(end, 21);
    match back {
        FlipAction::Jump(j) => {
            assert_eq!(f64::from_bits(j.source_position_bits), 1.25);
            assert_eq!(f64::from_bits(j.target_position_bits), 8.5);
        },
        other => panic!("expected a jump action, got {:?}", other),
    }
}

fn sample_content() -> Markers2Content {
    Markers2Content {
        version: Version { major: 1, minor: 1 },
        markers: vec![
            Marker::Cue(Cue {
                index: 0,
                position_millis: 1000,
                color: Color { red: 0xcc, green: 0x00, blue: 0x00 },
                label: b"CUE ONE".to_vec(),
            }),
            Marker::Loop(Loop {
                index: 1,
                start_position_millis: 500,
                end_position_millis: 1500,
                color: Color { red: 0x27, green: 0xaa, blue: 0xe1 },
                is_locked: true,
                label: Vec::new(),
            }),
            Marker::Flip(Flip {
                index: 0,
                is_enabled: true,
                label: b"my flip".to_vec(),
                is_loop: false,
                actions: vec![
                    FlipAction::Jump(JumpFlipAction {
                        source_position_bits: 2.0f64.to_bits(),
                        target_position_bits: 4.0f64.to_bits(),
                    }),
                    FlipAction::Censor(CensorFlipAction {
                        start_position_bits: 1.0f64.to_bits(),
                        end_position_bits: 3.0f64.to_bits(),
                        speed_factor_bits: 0.5f64.to_bits(),
                    }),
                ],
            }),
            Marker::Color(TrackColorMarker { color: Color { red: 0x99, green: 0x33, blue: 0x00 } }),
            Marker::BPMLock(BPMLockMarker { is_locked: false }),
            Marker::Unknown(UnknownMarker { name: b"FUTURE".to_vec(), data: vec![9, 9, 9] }),
        ],
    }
}

#[test]
fn content_roundtrips_through_bytes() {
    let content = sample_content();
    let mut bytes = Vec::new();
    write_markers2_content(&mut bytes, &content);
    let parsed = parse_markers2_content(&bytes).unwrap();
    let mut again = Vec::new();
    write_markers2_content(&mut again, &parsed);
    assert_eq!(bytes, again);
    assert_eq!(parsed.markers.len(), content.markers.len());
}

#[test]
fn markers2_raw_payload_roundtrips() {
    let content = sample_content();
    let mut inner = Vec::new();
    write_markers2_content(&mut inner, &content);
    // Build the raw payload by hand: outer version, unpadded base64 of
    // the inner bytes wrapped at 72 characters, terminator, padding.
    let encoded = base64::encode_config(&inner, base64::STANDARD_NO_PAD);
    let mut payload = vec![0x01u8, 0x01];
    for (i, chunk) in encoded.as_bytes().chunks(72).enumerate() {
        if i > 0 {
            payload.push(b'\n');
        }
        payload.extend_from_slice(chunk);
    }
    payload.push(0x00);
    while payload.len() < 470 {
        payload.push(0x00);
    }
    let tag = Markers2::parse(&payload).unwrap();
    assert_eq!(tag.version, Some(Version { major: 1, minor: 1 }));
    assert_eq!(tag.size, payload.len());
    assert_eq!(tag.content.markers.len(), content.markers.len());
    // Writing reproduces the payload bit-exactly, padding included.
    let written = tag.write().unwrap();
    assert_eq!(written, payload);
}

#[test]
fn markers2_ogg_payload_roundtrips() {
    let content = sample_content();
    let mut inner = Vec::new();
    write_markers2_content(&mut inner, &content);
    let encoded = base64::encode_config(&inner, base64::STANDARD_NO_PAD);
    let mut payload = Vec::new();
    for (i, chunk) in encoded.as_bytes().chunks(72).enumerate() {
        if i > 0 {
            payload.push(b'\n');
        }
        payload.extend_from_slice(chunk);
    }
    payload.push(0x00);
    let tag = Markers2::parse_ogg(&payload).unwrap();
    assert_eq!(tag.version, None);
    assert_eq!(tag.size, payload.len());
    let written = tag.write_ogg();
    assert_eq!(written, payload);
}

#[test]
fn markers2_chunk_boundary_invariance() {
    // Re-chunking the base64 text at different legal line breaks
    // parses to the same structured value.
    let inner = inner_bpmlock_payload();
    let encoded = base64::encode_config(&inner, base64::STANDARD_NO_PAD);
    let e = encoded.as_bytes();
    let mut single = vec![0x01u8, 0x02];
    single.extend_from_slice(e);
    single.push(0);
    let mut split = vec![0x01u8, 0x02];
    split.extend_from_slice(&e[..8]);
    split.push(b'\n');
    split.extend_from_slice(&e[8..]);
    split.push(0);
    let a = Markers2::parse(&single).unwrap();
    let b = Markers2::parse(&split).unwrap();
    assert_eq!(a.content.markers.len(), 1);
    assert_eq!(b.content.markers.len(), 1);
    match (&a.content.markers[0], &b.content.markers[0]) {
        (Marker::BPMLock(x), Marker::BPMLock(y)) => {
            assert!(x.is_locked && y.is_locked);
        },
        _ => panic!("expected BPMLOCK markers"),
    }
    assert_eq!(a.content.version, b.content.version);
}

#[test]
fn markers2_encoding_is_real_base64() {
    // The written envelope holds the base64 text of the inner bytes,
    // not the inner bytes themselves.
    let tag = Markers2 {
        version: None,
        size: 0,
        content: Markers2Content {
            version: Version { major: 1, minor: 1 },
            markers: Vec::new(),
        },
    };
    // Inner bytes are 01 01; their unpadded base64 is "AQE".
    assert_eq!(tag.write_ogg(), b"AQE\x00".to_vec());
}

#[test]
fn markers2_base64_error() {
    // A chunk that does not decode even after the retry: "AB" has a
    // non-zero trailing bit pattern.
    let payload = [0x01u8, 0x01, b'A', b'B', 0x00];
    assert_eq!(Markers2::parse(&payload).map(|_| ()), Err(Error::Base64Error));
}

#[test]
fn markers2_parse_error_on_garbage() {
    assert_eq!(Markers2::parse(&[]).map(|_| ()), Err(Error::ParseError));
    assert_eq!(Markers2::parse(&[0x01]).map(|_| ()), Err(Error::ParseError));
    // No null terminator after the chunks.
    assert_eq!(
        Markers2::parse(&[0x01, 0x01, b'A', b'Q', b'E']).map(|_| ()),
        Err(Error::ParseError)
    );
    // A byte that is neither base64, newline nor null.
    assert_eq!(
        Markers2::parse(&[0x01, 0x01, b'A', b'Q', b'E', b'!', 0x00]).map(|_| ()),
        Err(Error::ParseError)
    );
    // Non-null garbage after the terminator.
    assert_eq!(
        Markers2::parse(&[0x01, 0x01, b'A', b'Q', b'E', 0x00, 0x55]).map(|_| ()),
        Err(Error::ParseError)
    );
}

#[test]
fn markers2_write_without_version_fails() {
    let tag = Markers2 {
        version: None,
        size: 0,
        content: Markers2Content {
            version: Version { major: 1, minor: 1 },
            markers: Vec::new(),
        },
    };
    assert_eq!(tag.write().map(|_| ()), Err(Error::ParseError));
}

#[test]
fn flip_with_unknown_action_understates_size() {
    // Serato's size formula charges an unknown action only its data
    // length plus one, so such a flip does not survive a marker-level
    // round trip: the declared size falls short of the body.
    let flip = Marker::Flip(Flip {
        index: 0,
        is_enabled: true,
        label: Vec::new(),
        is_loop: false,
        actions: vec![FlipAction::Unknown(UnknownFlipAction { id: 9, data: vec![1, 2, 3] })],
    });
    let mut out = Vec::new();
    write_marker(&mut out, &flip);
    assert!(take_marker(&out, 0).is_err());
}

#[test]
fn accessors_pick_markers() {
    let tag = Markers2 { version: Some(Version { major: 1, minor: 1 }), size: 0, content: sample_content() };
    assert_eq!(tag.bpm_locked(), Some(false));
    assert_eq!(
        tag.track_color(),
        Some(Color { red: 0x99, green: 0x33, blue: 0x00 })
    );
    let cues = tag.cues();
    assert_eq!(cues.len(), 1);
    assert_eq!(cues[0].label, b"CUE ONE".to_vec());
    let loops = tag.loops();
    assert_eq!(loops.len(), 1);
    assert!(loops[0].is_locked);
    assert_eq!(loops[0].start_position_millis, 500);
    let flips = tag.flips();
    assert_eq!(flips.len(), 1);
    assert_eq!(flips[0].actions.len(), 2);
}

#[test]
fn accessors_first_match_wins() {
    let tag = Markers2 {
        version: None,
        size: 0,
        content: Markers2Content {
            version: Version { major: 1, minor: 1 },
            markers: vec![
                Marker::BPMLock(BPMLockMarker { is_locked: true }),
                Marker::BPMLock(BPMLockMarker { is_locked: false }),
                Marker::Color(TrackColorMarker {
                    color: Color { red: 1, green: 2, blue: 3 },
                }),
                Marker::Color(TrackColorMarker {
                    color: Color { red: 9, green: 9, blue: 9 },
                }),
            ],
        },
    };
    assert_eq!(tag.bpm_locked(), Some(true));
    assert_eq!(tag.track_color(), Some(Color { red: 1, green: 2, blue: 3 }));
    let empty = Markers2 {
        version: None,
        size: 0,
        content: Markers2Content { version: Version { major: 1, minor: 1 }, markers: Vec::new() },
    };
    assert_eq!(empty.bpm_locked(), None);
    assert_eq!(empty.track_color(), None);
    assert!(empty.cues().is_empty());
}

#[test]
fn markers2_strict_inner_parse() {
    // A malformed marker fails the whole inner parse; nothing is
    // silently dropped.
    let mut inner = vec![0x01u8, 0x01];
    inner.extend_from_slice(b"BPMLOCK\0");
    inner.extend_from_slice(&[0x00, 0x00, 0x00, 0x02, 0x01, 0x01]); // length 2: body too long
    assert!(parse_markers2_content(&inner).is_err());
    // Truncated marker header.
    let mut inner2 = vec![0x01u8, 0x01];
    inner2.extend_from_slice(b"CUE\0");
    inner2.extend_from_slice(&[0x00, 0x00]);
    assert!(parse_markers2_content(&inner2).is_err());
}

#[test]
fn markers2_loop_body() {
    // 00, index 03, start 00 00 01 F4, end 00 00 05 DC, FF FF FF FF,
    // 00, colour 27 AA E1, 00, locked 01, label "INTRO", 00
    let mut body = vec![
        0x00u8, 0x03, 0x00, 0x00, 0x01, 0xf4, 0x00, 0x00, 0x05, 0xdc, 0xff, 0xff, 0xff, 0xff,
        0x00, 0x27, 0xaa, 0xe1, 0x00, 0x01,
    ];
    body.extend_from_slice(b"INTRO\0");
    let m = serato_tags::markers2::take_loop_marker(&body).unwrap();
    match m {
        Marker::Loop(l) => {
            assert_eq!(l.index, 3);
            assert_eq!(l.start_position_millis, 500);
            assert_eq!(l.end_position_millis, 1500);
            assert_eq!(l.color, Color { red: 0x27, green: 0xaa, blue: 0xe1 });
            assert!(l.is_locked);
            assert_eq!(l.label, b"INTRO".to_vec());
        },
        other => panic!("expected a LOOP marker, got {:?}", other),
    }
}

#[test]
fn markers2_flip_body() {
    // 00, index 00, enabled 01, label "f" 00, loop 00, count 1,
    // then one jump action: id 00, length 16, two float64 values.
    let mut body = vec![0x00u8, 0x00, 0x01, b'f', 0x00, 0x00, 0x00, 0x00, 0x00, 0x01];
    body.push(0x00);
    body.extend_from_slice(&[0x00, 0x00, 0x00, 0x10]);
    body.extend_from_slice(&2.0f64.to_be_bytes());
    body.extend_from_slice(&4.0f64.to_be_bytes());
    let m = serato_tags::markers2::take_flip_marker(&body).unwrap();
    match m {
        Marker::Flip(f) => {
            assert_eq!(f.index, 0);
            assert!(f.is_enabled);
            assert_eq!(f.label, b"f".to_vec());
            assert!(!f.is_loop);
            assert_eq!(f.actions.len(), 1);
            match &f.actions[0] {
                FlipAction::Jump(j) => {
                    assert_eq!(f64::from_bits(j.source_position_bits), 2.0);
                    assert_eq!(f64::from_bits(j.target_position_bits), 4.0);
                },
                other => panic!("expected a jump action, got {:?}", other),
            }
        },
        other => panic!("expected a FLIP marker, got {:?}", other),
    }
}

#[test]
fn markers2_bpmlock_written_bytes() {
    // The write side of the BPMLOCK scenario, byte for byte.
    let content = Markers2Content {
        version: Version { major: 1, minor: 1 },
        markers: vec![Marker::BPMLock(BPMLockMarker { is_locked: true })],
    };
    let mut out = Vec::new();
    write_markers2_content(&mut out, &content);
    assert_eq!(out, inner_bpmlock_payload());
}

#[test]
fn markers2_cue_written_bytes() {
    // CUE size field is 13 plus the label length.
    let cue = Marker::Cue(Cue {
        index: 2,
        position_millis: 0x7a12,
        color: Color { red: 0xcc, green: 0x00, blue: 0x00 },
        label: b"HOOK".to_vec(),
    });
    let mut out = Vec::new();
    write_marker(&mut out, &cue);
    let mut expected = b"CUE\0".to_vec();
    expected.extend_from_slice(&[0x00, 0x00, 0x00, 0x11]); // 13 + 4
    expected.extend_from_slice(&[0x00, 0x02, 0x00, 0x00, 0x7a, 0x12, 0x00, 0xcc, 0x00, 0x00]);
    expected.extend_from_slice(&[0x00, 0x00]);
    expected.extend_from_slice(b"HOOK\0");
    assert_eq!(out, expected);
}
