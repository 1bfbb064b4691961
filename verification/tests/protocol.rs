use std::io::{Read, Write};

use flate2::read::GzDecoder;
use flate2::write::GzEncoder;
use flate2::Compression;
use voice_flow::asr::protocol::{
    audio_request, decode_bytes, decode_payload, extract_text, extract_transcript, failure_bytes,
    full_request, header, holds_document, parse_server_frame, split_frame, FrameField,
    ProtocolError, ServerMessage, TranscriptUpdate, COMPRESSION_GZIP, FLAG_NEGATIVE_SEQUENCE,
    FLAG_POSITIVE_SEQUENCE, SERIALIZATION_JSON, SERIALIZATION_NONE, SERVER_ERROR_RESPONSE,
    SERVER_FULL_RESPONSE,
};
use voice_flow::json::{read_json, write_json, Json, JsonObject};

fn gzip(data: &[u8]) -> Vec<u8> {
    let mut encoder = GzEncoder::new(Vec::new(), Compression::default());
    encoder.write_all(data).unwrap();
    encoder.finish().unwrap()
}

fn gunzip(data: &[u8]) -> Vec<u8> {
    let mut decoded = Vec::new();
    GzDecoder::new(data).read_to_end(&mut decoded).unwrap();
    decoded
}

fn object(fields: Vec<(&str, Json)>) -> Json {
    let mut result = JsonObject::new();
    for (key, value) in fields {
        result.set(key, value);
    }
    Json::Object(result)
}

fn service_frame(
    kind: u8,
    flags: u8,
    serialization: u8,
    compression: u8,
    code: Option<i32>,
    body: &[u8],
) -> Vec<u8> {
    let mut frame = header(kind, flags, serialization, compression);
    if flags & 1 != 0 {
        frame.extend_from_slice(&5_i32.to_be_bytes());
    }
    if let Some(code) = code {
        frame.extend_from_slice(&code.to_be_bytes());
    }
    frame.extend_from_slice(&(body.len() as u32).to_be_bytes());
    frame.extend_from_slice(body);
    frame
}

#[test]
fn marks_final_audio_with_a_negative_sequence() {
    let frame = audio_request(7, &[1, 2, 3], true).unwrap();
    assert_eq!(frame[1] & 0x0f, FLAG_NEGATIVE_SEQUENCE);
    assert_eq!(i32::from_be_bytes(frame[4..8].try_into().unwrap()), -7);
}

#[test]
fn extracts_full_text() {
    let payload = object(vec![("result", object(vec![("text", Json::text("实时文字"))]))]);
    assert_eq!(extract_text(Some(&payload)).as_deref(), Some("实时文字"));
}

#[test]
fn other_audio_keeps_a_positive_sequence() {
    let frame = audio_request(-7, &[1, 2, 3], false).unwrap();
    assert_eq!(frame[0], 0x11);
    assert_eq!(frame[1], 0x21);
    assert_eq!(frame[2], 0x01);
    assert_eq!(frame[3], 0);
    assert_eq!(frame[1] & 0x0f, FLAG_POSITIVE_SEQUENCE);
    assert_eq!(i32::from_be_bytes(frame[4..8].try_into().unwrap()), 7);
    let size = u32::from_be_bytes(frame[8..12].try_into().unwrap()) as usize;
    assert_eq!(frame.len(), 12 + size);
    assert_eq!(gunzip(&frame[12..]), [1, 2, 3]);
}

#[test]
fn opening_request_carries_compressed_json() {
    let payload = object(vec![("a", Json::whole(1)), ("b", Json::Bool(true))]);
    let frame = full_request(1, &payload).unwrap();
    assert_eq!(&frame[..4], &[0x11, 0x11, 0x11, 0]);
    assert_eq!(i32::from_be_bytes(frame[4..8].try_into().unwrap()), 1);
    assert_eq!(gunzip(&frame[12..]), b"{\"a\":1,\"b\":true}");
}

#[test]
fn responses_are_read_back() {
    let text = "{\"result\":{\"text\":\"ok\"}}".as_bytes();
    for compression in [0, COMPRESSION_GZIP] {
        let body = if compression == COMPRESSION_GZIP { gzip(text) } else { text.to_vec() };
        for flags in [0_u8, 1, 2, 3] {
            let frame = service_frame(
                SERVER_FULL_RESPONSE,
                flags,
                SERIALIZATION_JSON,
                compression,
                None,
                &body,
            );
            let parsed = parse_server_frame(&frame).unwrap();
            assert_eq!(parsed.is_last, flags & 2 != 0);
            assert_eq!(extract_text(parsed.payload.as_ref()).as_deref(), Some("ok"));
        }
    }
}

#[test]
fn frames_split_into_their_parts() {
    let frame = service_frame(SERVER_FULL_RESPONSE, 3, SERIALIZATION_NONE, 0, None, &[9, 8]);
    match split_frame(&frame).unwrap() {
        (true, ServerMessage::Response { serialization, compression, body }) => {
            assert_eq!((serialization, compression, body), (0, 0, &[9_u8, 8][..]));
        }
        _ => panic!("unexpected message"),
    }
    match split_frame(&header(3, 2, 0, 0)).unwrap() {
        (true, ServerMessage::Other) => {}
        _ => panic!("unexpected message"),
    }
    let parsed = parse_server_frame(&header(3, 0, 0, 0)).unwrap();
    assert!(!parsed.is_last && parsed.payload.is_none());
}

#[test]
fn truncated_responses_are_refused() {
    let frame = service_frame(SERVER_FULL_RESPONSE, 1, SERIALIZATION_JSON, 0, None, b"{}");
    for kept in 0..frame.len() {
        assert!(parse_server_frame(&frame[..kept]).is_err(), "{kept}");
    }
    assert!(parse_server_frame(&frame).is_ok());
}

#[test]
fn frame_errors_are_told_apart() {
    assert!(matches!(parse_server_frame(&[0x11, 0x90]), Err(ProtocolError::HeaderTooShort)));
    let error = parse_server_frame(&[0x10, 0x90, 0x10, 0]).unwrap_err();
    assert!(matches!(error, ProtocolError::HeaderOutOfBounds));
    assert_eq!(error.message(), "invalid ASR frame: declared header size is out of bounds");
    assert!(matches!(
        parse_server_frame(&[0x12, 0x90, 0x10, 0]),
        Err(ProtocolError::HeaderOutOfBounds)
    ));
    let error = parse_server_frame(&[0x11, 0x91, 0x10, 0]).unwrap_err();
    assert!(matches!(error, ProtocolError::FieldOutOfBounds(FrameField::SequenceNumber)));
    assert_eq!(error.message(), "invalid ASR frame: sequence number is out of bounds");
    let error = parse_server_frame(&[0x11, 0x90, 0x10, 0, 0]).unwrap_err();
    assert!(matches!(error, ProtocolError::FieldOutOfBounds(FrameField::ResponsePayloadSize)));
    let error = parse_server_frame(&[0x11, 0x90, 0x10, 0, 0, 0, 0, 1]).unwrap_err();
    assert!(matches!(error, ProtocolError::FieldOutOfBounds(FrameField::ResponsePayload)));
    let error = parse_server_frame(&[0x11, 0xf0, 0x10, 0]).unwrap_err();
    assert!(matches!(error, ProtocolError::FieldOutOfBounds(FrameField::ErrorCode)));
    let error = parse_server_frame(&[0x11, 0xf0, 0x10, 0, 0, 0, 0, 1]).unwrap_err();
    assert!(matches!(error, ProtocolError::FieldOutOfBounds(FrameField::ErrorPayloadSize)));
    let error = parse_server_frame(&[0x11, 0xf0, 0x10, 0, 0, 0, 0, 1, 0, 0, 0, 2, 7]).unwrap_err();
    assert!(matches!(error, ProtocolError::FieldOutOfBounds(FrameField::ErrorPayload)));
    assert_eq!(
        ProtocolError::FieldOverflow(FrameField::ErrorPayload).message(),
        "invalid ASR frame: error payload overflow"
    );
    assert_eq!(ProtocolError::Serialize.message(), "failed to serialize the ASR request");
    assert_eq!(ProtocolError::Gzip.message(), "failed to gzip an ASR payload");
    assert_eq!(ProtocolError::GzipFinish.message(), "failed to finish ASR gzip payload");
}

#[test]
fn server_failures_carry_code_and_detail() {
    let frame = service_frame(
        SERVER_ERROR_RESPONSE,
        0,
        SERIALIZATION_JSON,
        COMPRESSION_GZIP,
        Some(-45),
        &gzip("quota exceeded".as_bytes()),
    );
    let error = parse_server_frame(&frame).unwrap_err();
    assert_eq!(error.message(), "VolcEngine ASR protocol error -45: quota exceeded");

    // A payload that is no gzip stream is shown as it is.
    let frame = service_frame(SERVER_ERROR_RESPONSE, 1, 0, COMPRESSION_GZIP, Some(7), b"plain");
    let error = parse_server_frame(&frame).unwrap_err();
    assert_eq!(error.message(), "VolcEngine ASR protocol error 7: plain");

    let frame = service_frame(SERVER_ERROR_RESPONSE, 0, 0, 0, Some(7), &[b'a', 0xff, b'b']);
    let error = parse_server_frame(&frame).unwrap_err();
    assert_eq!(error.message(), "VolcEngine ASR protocol error 7: a\u{fffd}b");
}

#[test]
fn payloads_are_decoded() {
    assert!(matches!(
        decode_payload(SERIALIZATION_JSON, COMPRESSION_GZIP, b"no gzip"),
        Err(ProtocolError::Gunzip)
    ));
    let error = decode_payload(SERIALIZATION_JSON, 0, b"{").unwrap_err();
    assert!(matches!(error, ProtocolError::InvalidJson));
    assert_eq!(error.message(), "failed to decode the ASR JSON response");
    assert!(decode_payload(SERIALIZATION_NONE, 0, b"{").unwrap().is_none());
    assert!(decode_payload(SERIALIZATION_JSON, 0, b"").unwrap().is_none());
    assert!(decode_payload(SERIALIZATION_JSON, COMPRESSION_GZIP, b"").unwrap().is_none());
    assert!(matches!(
        decode_payload(SERIALIZATION_JSON, COMPRESSION_GZIP, &gzip(b"true")),
        Ok(Some(Json::Bool(true)))
    ));
    assert_eq!(decode_bytes(COMPRESSION_GZIP, &gzip(b"abc")).unwrap(), b"abc");
    assert_eq!(decode_bytes(0, b"abc").unwrap(), b"abc");
    assert_eq!(decode_bytes(COMPRESSION_GZIP, b"x").unwrap_err().message(),
        "failed to gunzip an ASR response");
    assert!(holds_document(SERIALIZATION_JSON, b"1"));
    assert!(!holds_document(SERIALIZATION_NONE, b"1"));
    assert!(!holds_document(SERIALIZATION_JSON, b""));
    assert_eq!(failure_bytes(None, b"body"), b"body");
    assert_eq!(failure_bytes(Some(b"decoded".to_vec()), b"body"), b"decoded");
}

#[test]
fn text_falls_back_to_the_utterances() {
    let payload = read_json(
        "{\"result\":{\"text\":\"\",\"utterances\":[{\"text\":\"a\"},{},{\"text\":5},{\"text\":\"b\"}]}}"
            .as_bytes(),
    )
    .unwrap();
    assert_eq!(extract_text(Some(&payload)).as_deref(), Some("ab"));
    for missing in ["{}", "{\"result\":{}}", "{\"result\":{\"utterances\":[]}}", "[]", "null",
        "{\"result\":{\"text\":7}}"] {
        let payload = read_json(missing.as_bytes()).unwrap();
        assert_eq!(extract_text(Some(&payload)), None, "{missing}");
        assert!(extract_transcript(Some(&payload)).is_none());
    }
    assert_eq!(extract_text(None), None);
}

#[test]
fn transcripts_carry_their_segments() {
    let payload = read_json(
        "{\"result\":{\"text\":\"one two\",\"utterances\":[{\"text\":\"one\",\"definite\":true},\
         {\"text\":\"\",\"definite\":true},{\"text\":\" two\"}]}}"
            .as_bytes(),
    )
    .unwrap();
    let update = extract_transcript(Some(&payload)).unwrap();
    assert_eq!(update.text, "one two");
    let segments: Vec<(&str, bool)> =
        update.segments.iter().map(|s| (s.text.as_str(), s.definite)).collect();
    assert_eq!(segments, [("one", true), (" two", false)]);
    assert!(update.same(&update.copied()));
    assert!(!update.same(&TranscriptUpdate::default()));

    let plain = read_json("{\"result\":{\"text\":\"x\"}}".as_bytes()).unwrap();
    assert!(extract_transcript(Some(&plain)).unwrap().segments.is_empty());
}

#[test]
fn json_documents_go_through_unchanged() {
    for text in ["null", "true", "[1,\"a\",{\"k\":[]}]", "{\"a\":1,\"b\":{\"c\":null}}", "-3.5"] {
        let json = read_json(text.as_bytes()).unwrap();
        assert_eq!(write_json(&json).unwrap(), text.as_bytes());
    }
    assert!(read_json(b"{").is_none());
    assert!(read_json(b"").is_none());
}

#[test]
fn json_members_are_found() {
    let json = read_json("{\"n\":5,\"neg\":-5,\"f\":1.5,\"t\":\"x\",\"b\":false}".as_bytes()).unwrap();
    assert_eq!(json.get("n").unwrap().as_u64(), Some(5));
    assert_eq!(json.get("neg").unwrap().as_u64(), None);
    assert_eq!(json.get("f").unwrap().as_u64(), None);
    assert_eq!(json.get("t").unwrap().as_str(), Some("x"));
    assert_eq!(json.get("b").unwrap().as_bool(), Some(false));
    assert!(json.get("missing").is_none());
    assert!(json.get("t").unwrap().get("x").is_none());
    assert_eq!(Json::whole(u64::MAX).as_u64(), Some(u64::MAX));
    let mut object = JsonObject::new();
    object.set("a", Json::whole(1));
    object.set("a", Json::whole(2));
    assert_eq!(object.get("a").unwrap().as_u64(), Some(2));
}

#[test]
fn headers_shift_and_join_their_parts() {
    assert_eq!(header(0b1001, 0b0011, 0b0001, 0b0001), [0x11, 0x93, 0x11, 0]);
    // What does not fit into its half of a byte is cut off or falls into the other half.
    assert_eq!(header(0x1f, 0x21, 0x10, 0x12), [0x11, 0xf0 | 0x21, 0x12, 0]);
}

#[test]
fn failure_details_are_text() {
    let detail = |body: &[u8]| {
        let frame = service_frame(SERVER_ERROR_RESPONSE, 0, SERIALIZATION_NONE, 0, Some(7), body);
        match parse_server_frame(&frame) {
            Err(ProtocolError::Server { code: 7, detail }) => detail,
            _ => panic!("a failure was expected"),
        }
    };
    assert_eq!(detail("额度 é".as_bytes()), "额度 é");
    assert_eq!(detail(b"a\xffb"), "a\u{fffd}b");
    assert_eq!(detail(b""), "");
}

#[test]
fn bytes_behind_the_payload_do_not_matter() {
    let body = br#"{"result":{"text":"hi"}}"#;
    let mut frame =
        service_frame(SERVER_FULL_RESPONSE, 3, SERIALIZATION_JSON, 0, None, body);
    let plain = parse_server_frame(&frame).unwrap();
    frame.extend_from_slice(b"more");
    let longer = parse_server_frame(&frame).unwrap();
    assert_eq!(longer.is_last, plain.is_last);
    assert_eq!(extract_text(longer.payload.as_ref()), Some("hi".to_owned()));
    assert_eq!(extract_text(plain.payload.as_ref()), Some("hi".to_owned()));
}
