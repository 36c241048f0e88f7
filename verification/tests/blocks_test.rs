use xyz_rust::blocks::{decode_base64, ext_for_mime, extract, Block, Blocks};
use xyz_rust::json::Json;

fn s(v: &str) -> Json {
    Json::Str(v.to_string())
}

fn obj(members: Vec<(&str, Json)>) -> Json {
    Json::Object(members.into_iter().map(|(k, v)| (k.to_string(), v)).collect())
}

#[test]
fn envelope_round_trip() {
    let b = Blocks::new(vec![
        Block::Text {
            text: "hello".to_string(),
        },
        Block::Image {
            mime_type: "image/png".into(),
            data: "aGVsbG8=".into(),
        },
    ]);
    let v = b.envelope();
    match &v {
        Json::Object(es) => {
            assert_eq!(es.len(), 1);
            assert_eq!(es[0].0, "content");
            match &es[0].1 {
                Json::Array(items) => assert_eq!(items.len(), 2),
                other => panic!("{other:?}"),
            }
        }
        other => panic!("{other:?}"),
    }
    let back = extract(&v).unwrap();
    assert_eq!(back, b.content);
    assert_eq!(decode_base64("aGVsbG8=").unwrap(), b"hello");
    assert_eq!(decode_base64("aGVs bG8=").unwrap(), b"hello");
    assert!(decode_base64("not*b64").is_err());
}

#[test]
fn extract_rejects_non_envelopes() {
    assert!(extract(&obj(vec![("msg", s("hi"))])).is_none());
    assert!(extract(&obj(vec![("content", s("text"))])).is_none());
    assert!(extract(&obj(vec![("content", Json::Array(vec![obj(vec![("type", s("text"))])]))])).is_none());
    assert!(extract(&obj(vec![(
        "content",
        Json::Array(vec![obj(vec![("type", s("video")), ("data", s("x"))])])
    )]))
    .is_none());
    assert!(extract(&obj(vec![(
        "content",
        Json::Array(vec![obj(vec![("type", s("text")), ("text", s("a"))])])
    )]))
    .is_some());
    assert!(extract(&obj(vec![
        ("content", Json::Array(vec![])),
        ("extra", Json::Number("1".to_string()))
    ]))
    .is_none());
    assert_eq!(extract(&obj(vec![("content", Json::Array(vec![]))])), Some(vec![]));
}

#[test]
fn mime_extensions() {
    assert_eq!(ext_for_mime("image/png"), "png");
    assert_eq!(ext_for_mime("audio/mpeg"), "mp3");
    assert_eq!(ext_for_mime("application/x-unknown"), "bin");
}

#[test]
fn base64_groups_and_tails() {
    assert_eq!(decode_base64("").unwrap(), b"");
    assert_eq!(decode_base64("TWFu").unwrap(), b"Man");
    assert_eq!(decode_base64("TWE=").unwrap(), b"Ma");
    assert_eq!(decode_base64("TQ==").unwrap(), b"M");
    assert_eq!(decode_base64("TQ").unwrap(), b"M");
    assert_eq!(decode_base64("+/+/").unwrap(), vec![0xfb, 0xff, 0xbf]);
    // Everything after the first '=' is ignored.
    assert_eq!(decode_base64("TQ==*garbage").unwrap(), b"M");
    assert_eq!(decode_base64("T\tW\nF\r\nu").unwrap(), b"Man");
}

#[test]
fn base64_error_names_the_byte() {
    let e = decode_base64("not*b64").unwrap_err();
    assert_eq!(e.to_text(), "invalid base64 payload: byte 0x2a");
    let e = decode_base64("ab\u{b}c").unwrap_err();
    assert_eq!(e.to_text(), "invalid base64 payload: byte 0x0b");
    let e = decode_base64("é").unwrap_err();
    assert_eq!(e.to_text(), "invalid base64 payload: byte 0xc3");
}

#[test]
fn blocks_constructors() {
    assert_eq!(Blocks::text("hi").content, vec![Block::Text { text: "hi".into() }]);
    let mut b = Blocks::image("image/png", "AA==");
    b.push(Block::Audio {
        mime_type: "audio/ogg".into(),
        data: "BB".into(),
    });
    assert_eq!(b.content.len(), 2);
    assert_eq!(
        Blocks::audio("audio/wav", "x").content,
        vec![Block::Audio {
            mime_type: "audio/wav".into(),
            data: "x".into()
        }]
    );
}

#[test]
fn base64_round_trips_padded_and_bare() {
    for (bytes, padded, bare) in [
        (&b""[..], "", ""),
        (&b"f"[..], "Zg==", "Zg"),
        (&b"fo"[..], "Zm8=", "Zm8"),
        (&b"foo"[..], "Zm9v", "Zm9v"),
        (&b"foob"[..], "Zm9vYg==", "Zm9vYg"),
        (&[0u8, 255, 128, 63][..], "AP+APw==", "AP+APw"),
    ] {
        assert_eq!(decode_base64(padded).unwrap(), bytes);
        assert_eq!(decode_base64(bare).unwrap(), bytes);
    }
}
