//! The binary framing of the recognition service.
//!
//! A frame starts with a header of four-byte words: version and header size, message
//! type and flags, serialization and compression, and a reserved byte. Behind it
//! stand an optional sequence number, a payload size and the payload; numbers are
//! big-endian.

use std::io::{Read, Write};

use flate2::read::GzDecoder;
use flate2::write::GzEncoder;
use flate2::Compression;
use vstd::prelude::*;
use vstd::utf8::{decode_utf8, valid_utf8};

use crate::bytes::{
    be_bytes, be_value, copy, decimal, decimal_text, lemma_be_round_trip, lemma_signed_round_trip,
    push_all, push_be, signed, to_signed, to_unsigned, unsigned,
};
use crate::json::{items_tree, json_text, parsed_json, read_json, write_json, Json, JsonTree};
use crate::text::same_text;

verus! {

pub const VERSION: u8 = 1;

pub const HEADER_WORDS: u8 = 1;

pub const CLIENT_FULL_REQUEST: u8 = 1;

pub const CLIENT_AUDIO_REQUEST: u8 = 2;

pub const SERVER_FULL_RESPONSE: u8 = 9;

pub const SERVER_ERROR_RESPONSE: u8 = 15;

pub const FLAG_POSITIVE_SEQUENCE: u8 = 1;

pub const FLAG_NEGATIVE_SEQUENCE: u8 = 3;

pub const SERIALIZATION_NONE: u8 = 0;

pub const SERIALIZATION_JSON: u8 = 1;

pub const COMPRESSION_GZIP: u8 = 1;

/// A part of a server frame behind its header.
#[derive(Clone, Copy, Debug, PartialEq, Eq, Structural)]
pub enum FrameField {
    SequenceNumber,
    ResponsePayloadSize,
    ResponsePayload,
    ErrorCode,
    ErrorPayloadSize,
    ErrorPayload,
}

impl FrameField {
    pub open spec fn spec_label(self) -> Seq<char> {
        match self {
            FrameField::SequenceNumber => "sequence number"@,
            FrameField::ResponsePayloadSize => "response payload size"@,
            FrameField::ResponsePayload => "response payload"@,
            FrameField::ErrorCode => "error code"@,
            FrameField::ErrorPayloadSize => "error payload size"@,
            FrameField::ErrorPayload => "error payload"@,
        }
    }

    /// What the field is called in messages.
    pub fn label(self) -> (result: &'static str)
        ensures
            result@ == self.spec_label(),
    {
        match self {
            FrameField::SequenceNumber => "sequence number",
            FrameField::ResponsePayloadSize => "response payload size",
            FrameField::ResponsePayload => "response payload",
            FrameField::ErrorCode => "error code",
            FrameField::ErrorPayloadSize => "error payload size",
            FrameField::ErrorPayload => "error payload",
        }
    }
}

/// Why a frame could not be written or read.
#[derive(Debug)]
pub enum ProtocolError {
    HeaderTooShort,
    HeaderOutOfBounds,
    FieldOverflow(FrameField),
    FieldOutOfBounds(FrameField),
    Serialize,
    Gzip,
    GzipFinish,
    Gunzip,
    InvalidJson,
    Server { code: i32, detail: String },
}

/// A [`ProtocolError`] with its text as a sequence of characters.
pub enum ProtocolErrorView {
    HeaderTooShort,
    HeaderOutOfBounds,
    FieldOverflow(FrameField),
    FieldOutOfBounds(FrameField),
    Serialize,
    Gzip,
    GzipFinish,
    Gunzip,
    InvalidJson,
    Server { code: i32, detail: Seq<char> },
}

impl View for ProtocolError {
    type V = ProtocolErrorView;

    open spec fn view(&self) -> ProtocolErrorView {
        match *self {
            ProtocolError::HeaderTooShort => ProtocolErrorView::HeaderTooShort,
            ProtocolError::HeaderOutOfBounds => ProtocolErrorView::HeaderOutOfBounds,
            ProtocolError::FieldOverflow(field) => ProtocolErrorView::FieldOverflow(field),
            ProtocolError::FieldOutOfBounds(field) => ProtocolErrorView::FieldOutOfBounds(field),
            ProtocolError::Serialize => ProtocolErrorView::Serialize,
            ProtocolError::Gzip => ProtocolErrorView::Gzip,
            ProtocolError::GzipFinish => ProtocolErrorView::GzipFinish,
            ProtocolError::Gunzip => ProtocolErrorView::Gunzip,
            ProtocolError::InvalidJson => ProtocolErrorView::InvalidJson,
            ProtocolError::Server { code, detail } => ProtocolErrorView::Server {
                code,
                detail: detail@,
            },
        }
    }
}

impl ProtocolErrorView {
    /// What the user is told.
    pub open spec fn message(self) -> Seq<char> {
        match self {
            ProtocolErrorView::HeaderTooShort =>
                "invalid ASR frame: header is shorter than four bytes"@,
            ProtocolErrorView::HeaderOutOfBounds =>
                "invalid ASR frame: declared header size is out of bounds"@,
            ProtocolErrorView::FieldOverflow(field) => "invalid ASR frame: "@ + field.spec_label()
                + " overflow"@,
            ProtocolErrorView::FieldOutOfBounds(field) => "invalid ASR frame: "@
                + field.spec_label() + " is out of bounds"@,
            ProtocolErrorView::Serialize => "failed to serialize the ASR request"@,
            ProtocolErrorView::Gzip => "failed to gzip an ASR payload"@,
            ProtocolErrorView::GzipFinish => "failed to finish ASR gzip payload"@,
            ProtocolErrorView::Gunzip => "failed to gunzip an ASR response"@,
            ProtocolErrorView::InvalidJson => "failed to decode the ASR JSON response"@,
            ProtocolErrorView::Server { code, detail } => "VolcEngine ASR protocol error "@
                + decimal(code as int) + ": "@ + detail,
        }
    }
}

impl ProtocolError {
    /// What the user is told.
    pub fn message(&self) -> (result: String)
        ensures
            result@ == self@.message(),
    {
        match self {
            ProtocolError::HeaderTooShort =>
                "invalid ASR frame: header is shorter than four bytes".to_owned(),
            ProtocolError::HeaderOutOfBounds =>
                "invalid ASR frame: declared header size is out of bounds".to_owned(),
            ProtocolError::FieldOverflow(field) => {
                let mut message = "invalid ASR frame: ".to_owned();
                message.append(field.label());
                message.append(" overflow");
                message
            },
            ProtocolError::FieldOutOfBounds(field) => {
                let mut message = "invalid ASR frame: ".to_owned();
                message.append(field.label());
                message.append(" is out of bounds");
                message
            },
            ProtocolError::Serialize => "failed to serialize the ASR request".to_owned(),
            ProtocolError::Gzip => "failed to gzip an ASR payload".to_owned(),
            ProtocolError::GzipFinish => "failed to finish ASR gzip payload".to_owned(),
            ProtocolError::Gunzip => "failed to gunzip an ASR response".to_owned(),
            ProtocolError::InvalidJson => "failed to decode the ASR JSON response".to_owned(),
            ProtocolError::Server { code, detail } => {
                let mut message = "VolcEngine ASR protocol error ".to_owned();
                message.append(decimal_text(*code as i64).as_str());
                message.append(": ");
                message.append(detail.as_str());
                message
            },
        }
    }
}

/// What `GzEncoder` makes of some bytes at the default level: `None` if it cannot take
/// them, `Some(None)` if it takes them and cannot finish the stream.
pub uninterp spec fn gzipped(data: Seq<u8>) -> Option<Option<Seq<u8>>>;

/// What `GzDecoder` reads in some bytes; `None` if they are no gzip stream.
pub uninterp spec fn gunzipped(data: Seq<u8>) -> Option<Seq<u8>>;

/// Compresses with `flate2::write::GzEncoder` (`write_all`, then `finish`) at
/// `Compression::default()`. The stream depends on the bytes alone (the header has no
/// time stamp and a fixed operating system) and is named by [`gzipped`];
/// `flate2::read::GzDecoder` reads the bytes back from it. The outer error is that of
/// `write_all`, the inner one that of `finish`.
#[verifier::external_body]
fn gzip(data: &[u8]) -> (result: Result<Result<Vec<u8>, std::io::Error>, std::io::Error>)
    ensures
        match result {
            Ok(Ok(stream)) => gzipped(data@) == Some(Some(stream@)) && gunzipped(stream@) == Some(
                data@,
            ),
            Ok(Err(_)) => gzipped(data@) == Some(None::<Seq<u8>>),
            Err(_) => gzipped(data@) is None,
        },
{
    let mut encoder = GzEncoder::new(Vec::new(), Compression::default());
    encoder.write_all(data)?;
    Ok(encoder.finish())
}

/// Decompresses with `flate2::read::GzDecoder` (`read_to_end`). What comes out depends
/// on the bytes alone and is named by [`gunzipped`].
#[verifier::external_body]
fn gunzip(data: &[u8]) -> (result: Result<Vec<u8>, std::io::Error>)
    ensures
        match result {
            Ok(decoded) => gunzipped(data@) == Some(decoded@),
            Err(_) => gunzipped(data@) is None,
        },
{
    let mut decoded = Vec::new();
    GzDecoder::new(data).read_to_end(&mut decoded)?;
    Ok(decoded)
}

/// A compressed body, given what the encoder made of it, or why there is none.
pub open spec fn compressed(stream: Option<Option<Seq<u8>>>) -> Result<
    Seq<u8>,
    ProtocolErrorView,
> {
    match stream {
        None => Err(ProtocolErrorView::Gzip),
        Some(None) => Err(ProtocolErrorView::GzipFinish),
        Some(Some(body)) => Ok(body),
    }
}

/// Compresses the body of a frame.
fn compress(data: &[u8]) -> (result: Result<Vec<u8>, ProtocolError>)
    ensures
        match result {
            Ok(body) => compressed(gzipped(data@)) == Ok::<Seq<u8>, ProtocolErrorView>(body@)
                && gunzipped(body@) == Some(data@),
            Err(error) => compressed(gzipped(data@)) == Err::<Seq<u8>, ProtocolErrorView>(error@),
        },
{
    match gzip(data) {
        Ok(Ok(stream)) => Ok(stream),
        Ok(Err(_)) => Err(ProtocolError::GzipFinish),
        Err(_) => Err(ProtocolError::Gzip),
    }
}

/// `std::io::Error`, why a stream could not be compressed or decompressed.
#[verifier::external_type_specification]
#[verifier::external_body]
pub struct ExIoError(std::io::Error);

/// The text that `String::from_utf8_lossy` makes of some bytes.
pub uninterp spec fn lossy_text(data: Seq<u8>) -> Seq<char>;

/// Calls `String::from_utf8_lossy`. Valid UTF-8 is decoded; what stands for invalid
/// sequences depends on the bytes alone and is named by [`lossy_text`].
#[verifier::external_body]
fn text_from_utf8_lossy(data: &[u8]) -> (result: String)
    ensures
        result@ == lossy_text(data@),
        valid_utf8(data@) ==> result@ == decode_utf8(data@),
{
    String::from_utf8_lossy(data).into_owned()
}

/// The four header bytes of a client frame.
pub open spec fn header_bytes(message_type: u8, flags: u8, serialization: u8, compression: u8) -> Seq<
    u8,
> {
    seq![
        (VERSION << 4) | HEADER_WORDS,
        (message_type << 4) | flags,
        (serialization << 4) | compression,
        0u8,
    ]
}

/// A client frame: the header, the sequence number, the size of the body (as far as
/// 32 bits hold it) and the body.
pub open spec fn request_frame(
    message_type: u8,
    flags: u8,
    serialization: u8,
    sequence: i32,
    body: Seq<u8>,
) -> Seq<u8> {
    header_bytes(message_type, flags, serialization, COMPRESSION_GZIP) + be_bytes(
        unsigned(sequence),
    ) + be_bytes((body.len() % 0x1_0000_0000) as u32) + body
}

/// The header of a client frame.
pub fn header(message_type: u8, flags: u8, serialization: u8, compression: u8) -> (result: Vec<u8>)
    ensures
        result@ == header_bytes(message_type, flags, serialization, compression),
{
    let mut result: Vec<u8> = Vec::new();
    result.push((VERSION << 4) | HEADER_WORDS);
    result.push((message_type << 4) | flags);
    result.push((serialization << 4) | compression);
    result.push(0);
    proof {
        assert(result@ =~= header_bytes(message_type, flags, serialization, compression));
    }
    result
}

/// Puts a client frame together around a compressed body.
pub fn frame_request(
    message_type: u8,
    flags: u8,
    serialization: u8,
    sequence: i32,
    body: &[u8],
) -> (result: Vec<u8>)
    ensures
        result@ == request_frame(message_type, flags, serialization, sequence, body@),
{
    let mut frame = header(message_type, flags, serialization, COMPRESSION_GZIP);
    push_be(&mut frame, to_unsigned(sequence));
    push_be(&mut frame, (body.len() as u64 % 0x1_0000_0000u64) as u32);
    push_all(&mut frame, body);
    frame
}

/// The frame that opens a session, given the text of its request and what the encoder
/// makes of that text.
pub open spec fn opening_frame(
    sequence: i32,
    text: Option<Seq<u8>>,
    stream: Option<Option<Seq<u8>>>,
) -> Result<Seq<u8>, ProtocolErrorView> {
    match (text, compressed(stream)) {
        (None, _) => Err(ProtocolErrorView::Serialize),
        (Some(_), Err(error)) => Err(error),
        (Some(_), Ok(body)) => Ok(
            request_frame(
                CLIENT_FULL_REQUEST,
                FLAG_POSITIVE_SEQUENCE,
                SERIALIZATION_JSON,
                sequence,
                body,
            ),
        ),
    }
}

/// The frame that opens a session around a compressed request.
pub fn frame_opening(sequence: i32, body: &[u8]) -> (result: Vec<u8>)
    ensures
        result@ == request_frame(
            CLIENT_FULL_REQUEST,
            FLAG_POSITIVE_SEQUENCE,
            SERIALIZATION_JSON,
            sequence,
            body@,
        ),
{
    frame_request(
        CLIENT_FULL_REQUEST,
        FLAG_POSITIVE_SEQUENCE,
        SERIALIZATION_JSON,
        sequence,
        body,
    )
}

/// The frame that opens a recognition session with a JSON request.
pub fn full_request(sequence: i32, payload: &Json) -> (result: Result<Vec<u8>, ProtocolError>)
    ensures
        ({
            let text = json_text(payload@);
            let stream = match text {
                Some(text) => gzipped(text),
                None => None,
            };
            match result {
                Ok(frame) => opening_frame(sequence, text, stream) == Ok::<
                    Seq<u8>,
                    ProtocolErrorView,
                >(frame@) && gunzipped(frame@.skip(12)) == text,
                Err(error) => opening_frame(sequence, text, stream) == Err::<
                    Seq<u8>,
                    ProtocolErrorView,
                >(error@),
            }
        }),
{
    let text = match write_json(payload) {
        Some(text) => text,
        None => {
            return Err(ProtocolError::Serialize);
        },
    };
    match compress(text.as_slice()) {
        Ok(body) => {
            let frame = frame_opening(sequence, body.as_slice());
            proof {
                assert(frame@.skip(12) =~= body@);
            }
            Ok(frame)
        },
        Err(error) => Err(error),
    }
}

/// The sequence number of an audio frame: negative in the last one.
pub open spec fn audio_sequence(sequence: i32, is_last: bool) -> i32 {
    let magnitude = if sequence < 0 {
        -sequence
    } else {
        sequence as int
    };
    if is_last {
        (-magnitude) as i32
    } else {
        magnitude as i32
    }
}

/// The flags of an audio frame.
pub open spec fn audio_flags(is_last: bool) -> u8 {
    if is_last {
        FLAG_NEGATIVE_SEQUENCE
    } else {
        FLAG_POSITIVE_SEQUENCE
    }
}

/// An audio frame around a compressed body.
pub open spec fn audio_frame(sequence: i32, body: Seq<u8>, is_last: bool) -> Seq<u8> {
    request_frame(
        CLIENT_AUDIO_REQUEST,
        audio_flags(is_last),
        SERIALIZATION_NONE,
        audio_sequence(sequence, is_last),
        body,
    )
}

/// Puts an audio frame together around a compressed body.
pub fn frame_audio(sequence: i32, body: &[u8], is_last: bool) -> (result: Vec<u8>)
    requires
        sequence != i32::MIN,
    ensures
        result@ == audio_frame(sequence, body@, is_last),
{
    let magnitude: i32 = if sequence < 0 {
        -sequence
    } else {
        sequence
    };
    let flags: u8 = if is_last {
        FLAG_NEGATIVE_SEQUENCE
    } else {
        FLAG_POSITIVE_SEQUENCE
    };
    let signed_sequence: i32 = if is_last {
        -magnitude
    } else {
        magnitude
    };
    frame_request(CLIENT_AUDIO_REQUEST, flags, SERIALIZATION_NONE, signed_sequence, body)
}

/// A frame of microphone audio; the last one is marked.
pub fn audio_request(sequence: i32, pcm: &[u8], is_last: bool) -> (result: Result<
    Vec<u8>,
    ProtocolError,
>)
    requires
        sequence != i32::MIN,
    ensures
        match result {
            Ok(frame) => compressed(gzipped(pcm@)) is Ok && frame@ == audio_frame(
                sequence,
                compressed(gzipped(pcm@))->Ok_0,
                is_last,
            ) && gunzipped(frame@.skip(12)) == Some(pcm@),
            Err(error) => compressed(gzipped(pcm@)) == Err::<Seq<u8>, ProtocolErrorView>(error@),
        },
{
    match compress(pcm) {
        Ok(body) => {
            let frame = frame_audio(sequence, body.as_slice(), is_last);
            proof {
                assert(frame@.skip(12) =~= body@);
            }
            Ok(frame)
        },
        Err(error) => Err(error),
    }
}

/// The `size` bytes at `offset`.
pub open spec fn field_at(data: Seq<u8>, offset: nat, size: nat, field: FrameField) -> Result<
    Seq<u8>,
    ProtocolErrorView,
> {
    if offset + size > usize::MAX {
        Err(ProtocolErrorView::FieldOverflow(field))
    } else if offset + size > data.len() {
        Err(ProtocolErrorView::FieldOutOfBounds(field))
    } else {
        Ok(data.subrange(offset as int, (offset + size) as int))
    }
}

/// The big-endian number at `offset`.
pub open spec fn number_at(data: Seq<u8>, offset: nat, field: FrameField) -> Result<
    u32,
    ProtocolErrorView,
> {
    match field_at(data, offset, 4, field) {
        Ok(bytes) => Ok(be_value(bytes)),
        Err(error) => Err(error),
    }
}

/// The bytes of a field.
pub fn read_exact<'a>(data: &'a [u8], offset: usize, size: usize, field: FrameField) -> (result:
    Result<&'a [u8], ProtocolError>)
    ensures
        match result {
            Ok(bytes) => field_at(data@, offset as nat, size as nat, field) == Ok::<
                Seq<u8>,
                ProtocolErrorView,
            >(bytes@),
            Err(error) => field_at(data@, offset as nat, size as nat, field) == Err::<
                Seq<u8>,
                ProtocolErrorView,
            >(error@),
        },
{
    match offset.checked_add(size) {
        None => Err(ProtocolError::FieldOverflow(field)),
        Some(end) => {
            if end > data.len() {
                Err(ProtocolError::FieldOutOfBounds(field))
            } else {
                Ok(&data[offset..end])
            }
        },
    }
}

/// Reads the number at `offset` and moves the offset behind it.
pub fn read_u32(data: &[u8], offset: &mut usize, field: FrameField) -> (result: Result<
    u32,
    ProtocolError,
>)
    ensures
        match result {
            Ok(value) => number_at(data@, *old(offset) as nat, field) == Ok::<
                u32,
                ProtocolErrorView,
            >(value) && *final(offset) == *old(offset) + 4 && *final(offset) <= data@.len(),
            Err(error) => number_at(data@, *old(offset) as nat, field) == Err::<
                u32,
                ProtocolErrorView,
            >(error@) && *final(offset) == *old(offset),
        },
{
    let bytes = match read_exact(data, *offset, 4, field) {
        Ok(bytes) => bytes,
        Err(error) => {
            return Err(error);
        },
    };
    *offset = *offset + 4;
    Ok(
        bytes[0] as u32 * 0x100_0000 + bytes[1] as u32 * 0x1_0000 + bytes[2] as u32 * 0x100
            + bytes[3] as u32,
    )
}

/// Reads the signed number at `offset` and moves the offset behind it.
pub fn read_i32(data: &[u8], offset: &mut usize, field: FrameField) -> (result: Result<
    i32,
    ProtocolError,
>)
    ensures
        match result {
            Ok(value) => number_at(data@, *old(offset) as nat, field) is Ok && value == signed(
                number_at(data@, *old(offset) as nat, field)->Ok_0,
            ) && *final(offset) == *old(offset) + 4 && *final(offset) <= data@.len(),
            Err(error) => number_at(data@, *old(offset) as nat, field) == Err::<
                u32,
                ProtocolErrorView,
            >(error@) && *final(offset) == *old(offset),
        },
{
    match read_u32(data, offset, field) {
        Ok(value) => Ok(to_signed(value)),
        Err(error) => Err(error),
    }
}

/// What a server frame carries.
pub enum ServerMessage<'a> {
    Response { serialization: u8, compression: u8, body: &'a [u8] },
    Failure { code: i32, compression: u8, body: &'a [u8] },
    Other,
}

/// A [`ServerMessage`] with its body as a sequence of bytes.
pub enum ServerMessageView {
    Response { serialization: u8, compression: u8, body: Seq<u8> },
    Failure { code: i32, compression: u8, body: Seq<u8> },
    Other,
}

impl<'a> View for ServerMessage<'a> {
    type V = ServerMessageView;

    open spec fn view(&self) -> ServerMessageView {
        match *self {
            ServerMessage::Response { serialization, compression, body } =>
                ServerMessageView::Response { serialization, compression, body: body@ },
            ServerMessage::Failure { code, compression, body } => ServerMessageView::Failure {
                code,
                compression,
                body: body@,
            },
            ServerMessage::Other => ServerMessageView::Other,
        }
    }
}

/// The payload at `offset`: its size, then as many bytes.
pub open spec fn sized_field(
    data: Seq<u8>,
    offset: nat,
    size_field: FrameField,
    body_field: FrameField,
) -> Result<Seq<u8>, ProtocolErrorView> {
    match number_at(data, offset, size_field) {
        Ok(size) => field_at(data, offset + 4, size as nat, body_field),
        Err(error) => Err(error),
    }
}

/// A server frame taken apart: whether it is the last one, and what it carries.
pub open spec fn split_frame_spec(data: Seq<u8>) -> Result<
    (bool, ServerMessageView),
    ProtocolErrorView,
> {
    if data.len() < 4 {
        Err(ProtocolErrorView::HeaderTooShort)
    } else {
        let header = (data[0] % 16) * 4;
        let message_type = data[1] / 16;
        let flags = data[1] % 16;
        let serialization = data[2] / 16;
        let compression = data[2] % 16;
        let sequenced = flags % 2 == 1;
        let is_last = flags / 2 % 2 == 1;
        let offset = (if sequenced {
            header + 4
        } else {
            header
        }) as nat;
        if header < 4 || data.len() < header {
            Err(ProtocolErrorView::HeaderOutOfBounds)
        } else if sequenced && data.len() < header + 4 {
            Err(ProtocolErrorView::FieldOutOfBounds(FrameField::SequenceNumber))
        } else if message_type == SERVER_FULL_RESPONSE {
            match sized_field(
                data,
                offset,
                FrameField::ResponsePayloadSize,
                FrameField::ResponsePayload,
            ) {
                Ok(body) => Ok(
                    (is_last, ServerMessageView::Response { serialization, compression, body }),
                ),
                Err(error) => Err(error),
            }
        } else if message_type == SERVER_ERROR_RESPONSE {
            match number_at(data, offset, FrameField::ErrorCode) {
                Ok(code) => match sized_field(
                    data,
                    offset + 4,
                    FrameField::ErrorPayloadSize,
                    FrameField::ErrorPayload,
                ) {
                    Ok(body) => Ok(
                        (
                            is_last,
                            ServerMessageView::Failure { code: signed(code), compression, body },
                        ),
                    ),
                    Err(error) => Err(error),
                },
                Err(error) => Err(error),
            }
        } else {
            Ok((is_last, ServerMessageView::Other))
        }
    }
}

/// Takes a server frame apart.
pub fn split_frame<'a>(data: &'a [u8]) -> (result: Result<(bool, ServerMessage<'a>), ProtocolError>)
    ensures
        match result {
            Ok((is_last, message)) => split_frame_spec(data@) == Ok::<
                (bool, ServerMessageView),
                ProtocolErrorView,
            >((is_last, message@)),
            Err(error) => split_frame_spec(data@) == Err::<
                (bool, ServerMessageView),
                ProtocolErrorView,
            >(error@),
        },
{
    if data.len() < 4 {
        return Err(ProtocolError::HeaderTooShort);
    }
    let first: u8 = data[0];
    let second: u8 = data[1];
    let third: u8 = data[2];
    proof {
        assert(first & 0x0f == first % 16) by (bit_vector);
        assert(second >> 4 == second / 16) by (bit_vector);
        assert(second & 0x0f == second % 16) by (bit_vector);
        assert(third >> 4 == third / 16) by (bit_vector);
        assert(third & 0x0f == third % 16) by (bit_vector);
    }
    let header: usize = (first & 0x0f) as usize * 4;
    if header < 4 || data.len() < header {
        return Err(ProtocolError::HeaderOutOfBounds);
    }
    let message_type: u8 = second >> 4;
    let flags: u8 = second & 0x0f;
    let serialization: u8 = third >> 4;
    let compression: u8 = third & 0x0f;
    proof {
        assert((flags & 1 != 0) == (flags % 2 == 1)) by (bit_vector);
        assert((flags & 2 != 0) == (flags / 2 % 2 == 1)) by (bit_vector);
    }
    let is_last = flags & 2 != 0;
    let mut offset: usize = header;
    if flags & 1 != 0 {
        match read_exact(data, offset, 4, FrameField::SequenceNumber) {
            Ok(_) => {},
            Err(error) => {
                return Err(error);
            },
        }
        offset += 4;
    }
    if message_type == SERVER_FULL_RESPONSE {
        let size = match read_u32(data, &mut offset, FrameField::ResponsePayloadSize) {
            Ok(size) => size,
            Err(error) => {
                return Err(error);
            },
        };
        match read_exact(data, offset, size as usize, FrameField::ResponsePayload) {
            Ok(body) => Ok((is_last, ServerMessage::Response { serialization, compression, body })),
            Err(error) => Err(error),
        }
    } else if message_type == SERVER_ERROR_RESPONSE {
        let code = match read_i32(data, &mut offset, FrameField::ErrorCode) {
            Ok(code) => code,
            Err(error) => {
                return Err(error);
            },
        };
        let size = match read_u32(data, &mut offset, FrameField::ErrorPayloadSize) {
            Ok(size) => size,
            Err(error) => {
                return Err(error);
            },
        };
        match read_exact(data, offset, size as usize, FrameField::ErrorPayload) {
            Ok(body) => Ok((is_last, ServerMessage::Failure { code, compression, body })),
            Err(error) => Err(error),
        }
    } else {
        Ok((is_last, ServerMessage::Other))
    }
}

/// A payload without its compression; `None` where it is no gzip stream.
pub open spec fn decoded_bytes(compression: u8, body: Seq<u8>) -> Option<Seq<u8>> {
    if compression != COMPRESSION_GZIP || body.len() == 0 {
        Some(body)
    } else {
        gunzipped(body)
    }
}

/// Undoes the compression of a payload.
pub fn decode_bytes(compression: u8, data: &[u8]) -> (result: Result<Vec<u8>, ProtocolError>)
    ensures
        match result {
            Ok(decoded) => decoded_bytes(compression, data@) == Some(decoded@),
            Err(error) => decoded_bytes(compression, data@) is None && error@
                == ProtocolErrorView::Gunzip,
        },
{
    if compression != COMPRESSION_GZIP || data.len() == 0 {
        return Ok(copy(data));
    }
    match gunzip(data) {
        Ok(decoded) => Ok(decoded),
        Err(_) => Err(ProtocolError::Gunzip),
    }
}

/// Whether a decoded response holds a JSON document: one that is empty or serialized
/// otherwise carries nothing.
pub fn holds_document(serialization: u8, decoded: &[u8]) -> (result: bool)
    ensures
        result == (decoded@.len() > 0 && serialization == SERIALIZATION_JSON),
{
    decoded.len() > 0 && serialization == SERIALIZATION_JSON
}

/// What a response carries, given what its payload decodes to.
pub open spec fn response_payload(serialization: u8, decoded: Option<Seq<u8>>) -> Result<
    Option<JsonTree>,
    ProtocolErrorView,
> {
    match decoded {
        None => Err(ProtocolErrorView::Gunzip),
        Some(bytes) => if bytes.len() == 0 || serialization != SERIALIZATION_JSON {
            Ok(None)
        } else {
            match parsed_json(bytes) {
                Some(tree) => Ok(Some(tree)),
                None => Err(ProtocolErrorView::InvalidJson),
            }
        },
    }
}

/// What an optional document stands for.
pub open spec fn payload_tree(payload: Option<Json>) -> Option<JsonTree> {
    match payload {
        Some(json) => Some(json@),
        None => None,
    }
}

/// Decodes the payload of a response.
pub fn decode_payload(serialization: u8, compression: u8, data: &[u8]) -> (result: Result<
    Option<Json>,
    ProtocolError,
>)
    ensures
        match result {
            Ok(payload) => response_payload(serialization, decoded_bytes(compression, data@))
                == Ok::<Option<JsonTree>, ProtocolErrorView>(payload_tree(payload)),
            Err(error) => response_payload(serialization, decoded_bytes(compression, data@))
                == Err::<Option<JsonTree>, ProtocolErrorView>(error@),
        },
{
    let decoded = match decode_bytes(compression, data) {
        Ok(decoded) => decoded,
        Err(error) => {
            return Err(error);
        },
    };
    if !holds_document(serialization, decoded.as_slice()) {
        return Ok(None);
    }
    match read_json(decoded.as_slice()) {
        Some(json) => Ok(Some(json)),
        None => Err(ProtocolError::InvalidJson),
    }
}

/// The bytes of the detail that an error frame gives: its payload, decoded if it can be.
pub fn failure_bytes(decoded: Option<Vec<u8>>, body: &[u8]) -> (result: Vec<u8>)
    ensures
        result@ == match decoded {
            Some(bytes) => bytes@,
            None => body@,
        },
{
    match decoded {
        Some(bytes) => bytes,
        None => copy(body),
    }
}

/// The text in some bytes: what they encode where they are valid UTF-8.
pub open spec fn readable_text(bytes: Seq<u8>) -> Seq<char> {
    if valid_utf8(bytes) {
        decode_utf8(bytes)
    } else {
        lossy_text(bytes)
    }
}

/// The detail that an error frame gives, given what its payload decodes to.
pub open spec fn failure_detail(decoded: Option<Seq<u8>>, body: Seq<u8>) -> Seq<char> {
    match decoded {
        Some(bytes) => readable_text(bytes),
        None => readable_text(body),
    }
}

/// A response of the recognition service.
#[derive(Debug)]
pub struct ServerFrame {
    pub is_last: bool,
    pub payload: Option<Json>,
}

/// A [`ServerFrame`] with its payload as a tree.
pub struct ServerFrameView {
    pub is_last: bool,
    pub payload: Option<JsonTree>,
}

impl View for ServerFrame {
    type V = ServerFrameView;

    open spec fn view(&self) -> ServerFrameView {
        ServerFrameView { is_last: self.is_last, payload: payload_tree(self.payload) }
    }
}

/// What a server frame says.
pub open spec fn server_frame(data: Seq<u8>) -> Result<ServerFrameView, ProtocolErrorView> {
    match split_frame_spec(data) {
        Err(error) => Err(error),
        Ok((is_last, ServerMessageView::Other)) => Ok(ServerFrameView { is_last, payload: None }),
        Ok((is_last, ServerMessageView::Response { serialization, compression, body })) =>
            match response_payload(serialization, decoded_bytes(compression, body)) {
                Ok(payload) => Ok(ServerFrameView { is_last, payload }),
                Err(error) => Err(error),
            },
        Ok((_, ServerMessageView::Failure { code, compression, body })) => Err(
            ProtocolErrorView::Server {
                code,
                detail: failure_detail(decoded_bytes(compression, body), body),
            },
        ),
    }
}

/// Reads a frame of the recognition service. A failure that the service reports is an
/// error too.
pub fn parse_server_frame(data: &[u8]) -> (result: Result<ServerFrame, ProtocolError>)
    ensures
        match result {
            Ok(frame) => server_frame(data@) == Ok::<ServerFrameView, ProtocolErrorView>(frame@),
            Err(error) => server_frame(data@) == Err::<ServerFrameView, ProtocolErrorView>(
                error@,
            ),
        },
{
    match split_frame(data) {
        Err(error) => Err(error),
        Ok((is_last, ServerMessage::Other)) => Ok(ServerFrame { is_last, payload: None }),
        Ok((is_last, ServerMessage::Response { serialization, compression, body })) => {
            match decode_payload(serialization, compression, body) {
                Ok(payload) => Ok(ServerFrame { is_last, payload }),
                Err(error) => Err(error),
            }
        },
        Ok((_, ServerMessage::Failure { code, compression, body })) => {
            let decoded = match decode_bytes(compression, body) {
                Ok(bytes) => Some(bytes),
                Err(_) => None,
            };
            let bytes = failure_bytes(decoded, body);
            Err(ProtocolError::Server { code, detail: text_from_utf8_lossy(bytes.as_slice()) })
        },
    }
}

/// The text of an utterance; empty where it has none.
pub open spec fn utterance_text(utterance: JsonTree) -> Seq<char> {
    match utterance.get("text"@) {
        Some(JsonTree::Text(text)) => text,
        _ => Seq::empty(),
    }
}

/// The texts of all utterances, one behind the other.
pub open spec fn joined_text(utterances: Seq<JsonTree>) -> Seq<char>
    decreases utterances.len(),
{
    if utterances.len() == 0 {
        Seq::empty()
    } else {
        joined_text(utterances.drop_last()) + utterance_text(utterances.last())
    }
}

/// The utterances of a recognition result.
pub open spec fn result_utterances(result: JsonTree) -> Option<Seq<JsonTree>> {
    match result.get("utterances"@) {
        Some(JsonTree::Array(utterances)) => Some(utterances),
        _ => None,
    }
}

/// The text that a recognition result holds: its full text if there is one, else that
/// of its utterances; `None` where both are missing or empty.
pub open spec fn result_text(result: JsonTree) -> Option<Seq<char>> {
    match result.get("text"@) {
        Some(JsonTree::Text(text)) if text.len() > 0 => Some(text),
        _ => match result_utterances(result) {
            Some(utterances) => if joined_text(utterances).len() > 0 {
                Some(joined_text(utterances))
            } else {
                None
            },
            None => None,
        },
    }
}

/// The recognition result in a payload.
pub open spec fn payload_result(payload: Option<JsonTree>) -> Option<JsonTree> {
    match payload {
        Some(tree) => tree.get("result"@),
        None => None,
    }
}

/// The text that a payload holds.
pub open spec fn payload_text(payload: Option<JsonTree>) -> Option<Seq<char>> {
    match payload_result(payload) {
        Some(result) => result_text(result),
        None => None,
    }
}

/// What an optional reference to a document stands for.
pub open spec fn reference_tree(payload: Option<&Json>) -> Option<JsonTree> {
    match payload {
        Some(json) => Some(json@),
        None => None,
    }
}

fn text_of<'a>(utterance: &'a Json) -> (result: &'a str)
    ensures
        result@ == utterance_text(utterance@),
{
    proof {
        reveal_strlit("");
    }
    match utterance.get("text") {
        Some(text) => match text.as_str() {
            Some(text) => text,
            None => {
                proof {
                    assert(""@ =~= Seq::<char>::empty());
                }
                ""
            },
        },
        None => {
            proof {
                assert(""@ =~= Seq::<char>::empty());
            }
            ""
        },
    }
}

fn join_texts(utterances: &Vec<Json>) -> (result: String)
    ensures
        result@ == joined_text(items_tree(utterances@)),
{
    let mut joined = String::new();
    let ghost trees = items_tree(utterances@);
    let mut i: usize = 0;
    proof {
        assert(trees.take(0) == Seq::<JsonTree>::empty());
    }
    while i < utterances.len()
        invariant
            i <= utterances@.len(),
            trees == items_tree(utterances@),
            joined@ == joined_text(trees.take(i as int)),
        decreases utterances@.len() - i,
    {
        joined.append(text_of(&utterances[i]));
        proof {
            assert(trees.take(i + 1).drop_last() == trees.take(i as int));
            assert(trees.take(i + 1).last() == utterances@[i as int]@);
        }
        i += 1;
    }
    proof {
        assert(trees.take(trees.len() as int) == trees);
    }
    joined
}

/// The text that a payload holds.
pub fn extract_text(payload: Option<&Json>) -> (result: Option<String>)
    ensures
        match result {
            Some(text) => payload_text(reference_tree(payload)) == Some(text@),
            None => payload_text(reference_tree(payload)) is None,
        },
{
    let result = match payload {
        Some(json) => match json.get("result") {
            Some(result) => result,
            None => {
                return None;
            },
        },
        None => {
            return None;
        },
    };
    if let Some(text) = result.get("text") {
        if let Some(text) = text.as_str() {
            if text.unicode_len() > 0 {
                return Some(text.to_owned());
            }
        }
    }
    let utterances = match result.get("utterances") {
        Some(utterances) => match utterances.as_array() {
            Some(utterances) => utterances,
            None => {
                return None;
            },
        },
        None => {
            return None;
        },
    };
    let joined = join_texts(utterances);
    if joined.as_str().unicode_len() > 0 {
        Some(joined)
    } else {
        None
    }
}

/// A piece of a transcript; `definite` where the service will not change it any more.
#[derive(Debug, PartialEq, Eq)]
pub struct TranscriptSegment {
    pub text: String,
    pub definite: bool,
}

/// A [`TranscriptSegment`] with its text as a sequence of characters.
pub struct SegmentView {
    pub text: Seq<char>,
    pub definite: bool,
}

impl View for TranscriptSegment {
    type V = SegmentView;

    open spec fn view(&self) -> SegmentView {
        SegmentView { text: self.text@, definite: self.definite }
    }
}

/// A list of segments, each by its view.
pub open spec fn segment_views(segments: Seq<TranscriptSegment>) -> Seq<SegmentView> {
    Seq::new(segments.len(), |i: int| segments[i]@)
}

impl TranscriptSegment {
    /// A copy of the segment.
    pub fn copied(&self) -> (result: TranscriptSegment)
        ensures
            result@ == self@,
    {
        TranscriptSegment { text: self.text.clone(), definite: self.definite }
    }
}

/// A copy of a list of segments.
pub fn copied_segments(segments: &Vec<TranscriptSegment>) -> (result: Vec<TranscriptSegment>)
    ensures
        segment_views(result@) == segment_views(segments@),
{
    let mut result: Vec<TranscriptSegment> = Vec::new();
    let mut i: usize = 0;
    while i < segments.len()
        invariant
            i <= segments@.len(),
            result@.len() == i,
            forall|j: int| 0 <= j < i ==> (#[trigger] result@[j])@ == segments@[j]@,
        decreases segments@.len() - i,
    {
        result.push(segments[i].copied());
        i += 1;
    }
    proof {
        assert(segment_views(result@) =~= segment_views(segments@));
    }
    result
}

/// The transcript so far.
#[derive(Debug, PartialEq, Eq)]
pub struct TranscriptUpdate {
    pub text: String,
    pub segments: Vec<TranscriptSegment>,
}

/// A [`TranscriptUpdate`] as plain sequences.
pub struct UpdateView {
    pub text: Seq<char>,
    pub segments: Seq<SegmentView>,
}

impl View for TranscriptUpdate {
    type V = UpdateView;

    open spec fn view(&self) -> UpdateView {
        UpdateView { text: self.text@, segments: segment_views(self.segments@) }
    }
}

impl Default for TranscriptUpdate {
    fn default() -> (result: Self)
        ensures
            result@ == (UpdateView { text: Seq::empty(), segments: Seq::empty() }),
    {
        let result = TranscriptUpdate { text: String::new(), segments: Vec::new() };
        proof {
            assert(result@.segments =~= Seq::empty());
            assert(result@.text =~= Seq::empty());
        }
        result
    }
}

impl TranscriptUpdate {
    /// A copy of the update.
    pub fn copied(&self) -> (result: TranscriptUpdate)
        ensures
            result@ == self@,
    {
        TranscriptUpdate { text: self.text.clone(), segments: copied_segments(&self.segments) }
    }

    /// Whether two updates say the same, segment by segment.
    pub fn same(&self, other: &TranscriptUpdate) -> (result: bool)
        ensures
            result == (self@ == other@),
    {
        if !same_text(self.text.as_str(), other.text.as_str()) {
            return false;
        }
        if self.segments.len() != other.segments.len() {
            proof {
                assert(self@.segments.len() != other@.segments.len());
            }
            return false;
        }
        let mut i: usize = 0;
        while i < self.segments.len()
            invariant
                i <= self.segments@.len(),
                self.segments@.len() == other.segments@.len(),
                forall|j: int|
                    0 <= j < i ==> (#[trigger] self.segments@[j])@ == other.segments@[j]@,
            decreases self.segments@.len() - i,
        {
            let mine = &self.segments[i];
            let theirs = &other.segments[i];
            if mine.definite != theirs.definite || !same_text(
                mine.text.as_str(),
                theirs.text.as_str(),
            ) {
                proof {
                    assert(self@.segments[i as int] != other@.segments[i as int]);
                }
                return false;
            }
            i += 1;
        }
        proof {
            assert(self@.segments =~= other@.segments);
        }
        true
    }
}

/// Whether the service marked an utterance as definite.
pub open spec fn utterance_definite(utterance: JsonTree) -> bool {
    utterance.get("definite"@) == Some(JsonTree::Bool(true))
}

/// The segments of a list of utterances: those that have text.
pub open spec fn utterance_segments(utterances: Seq<JsonTree>) -> Seq<SegmentView>
    decreases utterances.len(),
{
    if utterances.len() == 0 {
        Seq::empty()
    } else {
        let front = utterance_segments(utterances.drop_last());
        let last = utterances.last();
        if utterance_text(last).len() > 0 {
            front.push(
                SegmentView { text: utterance_text(last), definite: utterance_definite(last) },
            )
        } else {
            front
        }
    }
}

/// The segments of a recognition result.
pub open spec fn result_segments(result: JsonTree) -> Seq<SegmentView> {
    match result_utterances(result) {
        Some(utterances) => utterance_segments(utterances),
        None => Seq::empty(),
    }
}

/// The transcript that a payload holds: its text, and the segments that make it up.
pub open spec fn payload_transcript(payload: Option<JsonTree>) -> Option<UpdateView> {
    match payload_text(payload) {
        Some(text) => Some(
            UpdateView { text, segments: result_segments(payload_result(payload)->0) },
        ),
        None => None,
    }
}

fn collect_segments(utterances: &Vec<Json>) -> (result: Vec<TranscriptSegment>)
    ensures
        segment_views(result@) == utterance_segments(items_tree(utterances@)),
{
    let mut segments: Vec<TranscriptSegment> = Vec::new();
    let ghost trees = items_tree(utterances@);
    let mut i: usize = 0;
    proof {
        assert(trees.take(0) == Seq::<JsonTree>::empty());
        assert(segment_views(segments@) =~= Seq::empty());
    }
    while i < utterances.len()
        invariant
            i <= utterances@.len(),
            trees == items_tree(utterances@),
            segment_views(segments@) == utterance_segments(trees.take(i as int)),
        decreases utterances@.len() - i,
    {
        let utterance = &utterances[i];
        let text = text_of(utterance);
        let definite = match utterance.get("definite") {
            Some(flag) => match flag.as_bool() {
                Some(value) => value,
                None => false,
            },
            None => false,
        };
        proof {
            assert(trees.take(i + 1).drop_last() == trees.take(i as int));
            assert(trees.take(i + 1).last() == utterance@);
            assert(definite == utterance_definite(utterance@));
        }
        if text.unicode_len() > 0 {
            let ghost front = segments@;
            segments.push(TranscriptSegment { text: text.to_owned(), definite });
            proof {
                assert(segment_views(segments@) =~= segment_views(front).push(
                    segments@.last()@,
                ));
            }
        }
        i += 1;
    }
    proof {
        assert(trees.take(trees.len() as int) == trees);
    }
    segments
}

/// The transcript that a payload holds.
pub fn extract_transcript(payload: Option<&Json>) -> (result: Option<TranscriptUpdate>)
    ensures
        match result {
            Some(update) => payload_transcript(reference_tree(payload)) == Some(update@),
            None => payload_transcript(reference_tree(payload)) is None,
        },
{
    let text = match extract_text(payload) {
        Some(text) => text,
        None => {
            return None;
        },
    };
    let mut segments: Vec<TranscriptSegment> = Vec::new();
    proof {
        assert(segment_views(segments@) =~= Seq::empty());
    }
    if let Some(json) = payload {
        if let Some(result) = json.get("result") {
            if let Some(utterances) = result.get("utterances") {
                if let Some(utterances) = utterances.as_array() {
                    segments = collect_segments(utterances);
                }
            }
        }
    }
    Some(TranscriptUpdate { text, segments })
}

proof fn lemma_header_nibbles(high: u8, low: u8)
    requires
        high < 16,
        low < 16,
    ensures
        ((high << 4) | low) / 16 == high,
        ((high << 4) | low) % 16 == low,
{
    assert(((high << 4) | low) / 16 == high && ((high << 4) | low) % 16 == low) by (bit_vector)
        requires
            high < 16,
            low < 16,
    ;
}

/// The header of a frame tells what it was made of.
proof fn lemma_header_reads_back(message_type: u8, flags: u8, serialization: u8, compression: u8)
    requires
        message_type < 16,
        flags < 16,
        serialization < 16,
        compression < 16,
    ensures
        ({
            let header = header_bytes(message_type, flags, serialization, compression);
            &&& header.len() == 4
            &&& header[0] / 16 == VERSION && header[0] % 16 == HEADER_WORDS
            &&& header[1] / 16 == message_type && header[1] % 16 == flags
            &&& header[2] / 16 == serialization && header[2] % 16 == compression
        }),
{
    lemma_header_nibbles(VERSION, HEADER_WORDS);
    lemma_header_nibbles(message_type, flags);
    lemma_header_nibbles(serialization, compression);
}

/// Where the parts of a client frame lie.
#[verifier::spinoff_prover]
proof fn lemma_request_frame_parts(
    message_type: u8,
    flags: u8,
    serialization: u8,
    sequence: i32,
    body: Seq<u8>,
)
    ensures
        ({
            let frame = request_frame(message_type, flags, serialization, sequence, body);
            let header = header_bytes(message_type, flags, serialization, COMPRESSION_GZIP);
            &&& frame[0] == header[0] && frame[1] == header[1] && frame[2] == header[2]
            &&& frame.subrange(4, 8) == be_bytes(unsigned(sequence))
            &&& frame.subrange(8, 12) == be_bytes((body.len() % 0x1_0000_0000) as u32)
            &&& frame.skip(12) == body
        }),
{
    let frame = request_frame(message_type, flags, serialization, sequence, body);
    let header = header_bytes(message_type, flags, serialization, COMPRESSION_GZIP);
    let number = be_bytes(unsigned(sequence));
    let size = be_bytes((body.len() % 0x1_0000_0000) as u32);
    assert(header.len() == 4 && number.len() == 4 && size.len() == 4);
    assert(frame.subrange(4, 8) =~= number);
    assert(frame.subrange(8, 12) =~= size);
    assert(frame.skip(12) =~= body);
}

/// A client frame can be read back: its kind, its flags, its serialization, its
/// sequence number, the size of its body as far as 32 bits hold it, and its body.
#[verifier::spinoff_prover]
pub proof fn law_request_frames_can_be_read(
    message_type: u8,
    flags: u8,
    serialization: u8,
    sequence: i32,
    body: Seq<u8>,
)
    requires
        message_type < 16,
        flags < 16,
        serialization < 16,
    ensures
        ({
            let frame = request_frame(message_type, flags, serialization, sequence, body);
            &&& frame[0] / 16 == VERSION && frame[0] % 16 == HEADER_WORDS
            &&& frame[1] / 16 == message_type && frame[1] % 16 == flags
            &&& frame[2] / 16 == serialization && frame[2] % 16 == COMPRESSION_GZIP
            &&& signed(be_value(frame.subrange(4, 8))) == sequence
            &&& be_value(frame.subrange(8, 12)) == body.len() % 0x1_0000_0000
            &&& frame.skip(12) == body
        }),
{
    lemma_request_frame_parts(message_type, flags, serialization, sequence, body);
    lemma_header_reads_back(message_type, flags, serialization, COMPRESSION_GZIP);
    lemma_be_round_trip(unsigned(sequence));
    lemma_be_round_trip((body.len() % 0x1_0000_0000) as u32);
    lemma_signed_round_trip(sequence);
}

/// The last audio frame, and no other, carries the negative flag; its sequence number has a
/// minus sign, that of the others has none.
pub proof fn law_final_audio_is_marked(sequence: i32, body: Seq<u8>, is_last: bool)
    requires
        sequence != i32::MIN,
    ensures
        ({
            let magnitude = if sequence < 0 {
                -sequence
            } else {
                sequence as int
            };
            let frame = audio_frame(sequence, body, is_last);
            &&& (frame[1] % 16 == FLAG_NEGATIVE_SEQUENCE) == is_last
            &&& signed(be_value(frame.subrange(4, 8))) == if is_last {
                -magnitude
            } else {
                magnitude
            }
            &&& frame.skip(12) == body
        }),
{
    law_request_frames_can_be_read(
        CLIENT_AUDIO_REQUEST,
        audio_flags(is_last),
        SERIALIZATION_NONE,
        audio_sequence(sequence, is_last),
        body,
    );
}

/// A frame as the service sends it: the header, the sequence number that the flags
/// announce, the code of a failure, and the payload behind its size.
pub open spec fn service_frame(
    flags: u8,
    serialization: u8,
    compression: u8,
    sequence: u32,
    failure: Option<i32>,
    body: Seq<u8>,
) -> Seq<u8> {
    let message_type = if failure is Some {
        SERVER_ERROR_RESPONSE
    } else {
        SERVER_FULL_RESPONSE
    };
    let numbered = if flags % 2 == 1 {
        be_bytes(sequence)
    } else {
        Seq::empty()
    };
    let coded = match failure {
        Some(code) => be_bytes(unsigned(code)),
        None => Seq::empty(),
    };
    header_bytes(message_type, flags, serialization, compression) + numbered + coded + be_bytes(
        body.len() as u32,
    ) + body
}

/// A frame that the service sends is taken apart into what the service put into it.
pub proof fn law_service_frames_split(
    flags: u8,
    serialization: u8,
    compression: u8,
    sequence: u32,
    failure: Option<i32>,
    body: Seq<u8>,
)
    requires
        flags < 16,
        serialization < 16,
        compression < 16,
        body.len() < 0x1_0000_0000,
        service_frame(flags, serialization, compression, sequence, failure, body).len()
            <= usize::MAX,
    ensures
        split_frame_spec(
            service_frame(flags, serialization, compression, sequence, failure, body),
        ) == Ok::<(bool, ServerMessageView), ProtocolErrorView>(
            (
                flags / 2 % 2 == 1,
                match failure {
                    Some(code) => ServerMessageView::Failure { code, compression, body },
                    None => ServerMessageView::Response { serialization, compression, body },
                },
            ),
        ),
{
    let frame = service_frame(flags, serialization, compression, sequence, failure, body);
    let size = body.len() as u32;
    let message_type = if failure is Some {
        SERVER_ERROR_RESPONSE
    } else {
        SERVER_FULL_RESPONSE
    };
    lemma_header_reads_back(message_type, flags, serialization, compression);
    lemma_be_round_trip(sequence);
    lemma_be_round_trip(size);
    let start: int = if flags % 2 == 1 {
        8
    } else {
        4
    };
    match failure {
        Some(code) => {
            lemma_be_round_trip(unsigned(code));
            lemma_signed_round_trip(code);
            assert(frame.subrange(start, start + 4) =~= be_bytes(unsigned(code)));
            assert(frame.subrange(start + 4, start + 8) =~= be_bytes(size));
            assert(frame.subrange(start + 8, start + 8 + size) =~= body);
        },
        None => {
            assert(frame.subrange(start, start + 4) =~= be_bytes(size));
            assert(frame.subrange(start + 4, start + 4 + size) =~= body);
        },
    }
}

/// What stands behind the payload that a frame declares does not matter.
pub proof fn law_bytes_behind_the_payload_do_not_matter(data: Seq<u8>, more: Seq<u8>)
    requires
        split_frame_spec(data) is Ok,
    ensures
        split_frame_spec(data + more) == split_frame_spec(data),
        server_frame(data + more) == server_frame(data),
{
    let longer = data + more;
    assert forall|from: int, to: int| 0 <= from <= to <= data.len() implies #[trigger] data.subrange(
        from,
        to,
    ) == longer.subrange(from, to) by {
        assert(data.subrange(from, to) =~= longer.subrange(from, to));
    }
    assert(data[0] == longer[0] && data[1] == longer[1] && data[2] == longer[2]);
}

/// A frame of the service that was cut short is refused.
pub proof fn law_truncated_service_frames_are_refused(
    flags: u8,
    serialization: u8,
    compression: u8,
    sequence: u32,
    failure: Option<i32>,
    body: Seq<u8>,
    kept: int,
)
    requires
        flags < 16,
        serialization < 16,
        compression < 16,
        body.len() < 0x1_0000_0000,
        0 <= kept < service_frame(
            flags,
            serialization,
            compression,
            sequence,
            failure,
            body,
        ).len(),
    ensures
        split_frame_spec(
            service_frame(flags, serialization, compression, sequence, failure, body).take(kept),
        ) is Err,
{
    let frame = service_frame(flags, serialization, compression, sequence, failure, body);
    let size = body.len() as u32;
    let message_type = if failure is Some {
        SERVER_ERROR_RESPONSE
    } else {
        SERVER_FULL_RESPONSE
    };
    lemma_header_reads_back(message_type, flags, serialization, compression);
    lemma_be_round_trip(size);
    let start: int = if flags % 2 == 1 {
        8
    } else {
        4
    };
    let at = match failure {
        Some(_) => start + 4,
        None => start,
    };
    assert(frame.subrange(at, at + 4) =~= be_bytes(size));
    if kept >= at + 4 {
        assert(frame.take(kept).subrange(at, at + 4) =~= be_bytes(size));
    }
}

/// Utterances give segments one by one: those of two lists behind each other are the segments
/// of the first list, then those of the second. An utterance with text gives one segment of
/// that text, definite exactly where its member `definite` is true; any other gives none.
pub proof fn law_each_utterance_has_its_segment(
    left: Seq<JsonTree>,
    right: Seq<JsonTree>,
    utterance: JsonTree,
)
    ensures
        utterance_segments(left + right) == utterance_segments(left) + utterance_segments(right),
        match utterance.get("text"@) {
            Some(JsonTree::Text(text)) => if text.len() > 0 {
                &&& utterance_segments(seq![utterance]).len() == 1
                &&& utterance_segments(seq![utterance])[0].text == text
                &&& utterance_segments(seq![utterance])[0].definite <==> utterance.get("definite"@)
                    == Some(JsonTree::Bool(true))
            } else {
                utterance_segments(seq![utterance]).len() == 0
            },
            _ => utterance_segments(seq![utterance]).len() == 0,
        },
    decreases right.len(),
{
    reveal_with_fuel(utterance_segments, 2);
    assert(seq![utterance].drop_last() =~= Seq::empty());
    if right.len() == 0 {
        assert(left + right =~= left);
        assert(utterance_segments(left) + utterance_segments(right) =~= utterance_segments(left));
    } else {
        law_each_utterance_has_its_segment(left, right.drop_last(), utterance);
        assert((left + right).drop_last() =~= left + right.drop_last());
        assert((left + right).last() == right.last());
        assert(utterance_segments(left + right) =~= utterance_segments(left) + utterance_segments(
            right,
        ));
    }
}

/// The texts of utterances are put behind each other, one by one; an utterance without text
/// adds nothing.
pub proof fn law_utterance_texts_are_joined(
    left: Seq<JsonTree>,
    right: Seq<JsonTree>,
    utterance: JsonTree,
)
    ensures
        joined_text(left + right) == joined_text(left) + joined_text(right),
        match utterance.get("text"@) {
            Some(JsonTree::Text(text)) => joined_text(seq![utterance]) == text,
            _ => joined_text(seq![utterance]).len() == 0,
        },
    decreases right.len(),
{
    reveal_with_fuel(joined_text, 2);
    assert(seq![utterance].drop_last() =~= Seq::empty());
    assert(joined_text(seq![utterance]) =~= utterance_text(utterance));
    if right.len() == 0 {
        assert(left + right =~= left);
        assert(joined_text(left) + joined_text(right) =~= joined_text(left));
    } else {
        law_utterance_texts_are_joined(left, right.drop_last(), utterance);
        assert((left + right).drop_last() =~= left + right.drop_last());
        assert((left + right).last() == right.last());
        assert(joined_text(left + right) =~= joined_text(left) + joined_text(right));
    }
}

/// The transcript of a response: the full text of its result where there is one, whatever the
/// utterances say; else what the utterances say together; and none where there is no text at
/// all. The segments are those of the utterances either way.
pub proof fn law_transcripts_are_read_from_the_result(payload: JsonTree, result: JsonTree)
    requires
        payload.get("result"@) == Some(result),
    ensures
        result.get("text"@) matches Some(JsonTree::Text(text)) ==> (text.len() > 0 ==> {
            &&& payload_text(Some(payload)) == Some(text)
            &&& payload_transcript(Some(payload)) matches Some(update) && update.text == text
        }),
        !(result.get("text"@) matches Some(JsonTree::Text(text)) && text.len() > 0) ==> match result.get(
            "utterances"@,
        ) {
            Some(JsonTree::Array(utterances)) => if joined_text(utterances).len() > 0 {
                &&& payload_text(Some(payload)) == Some(joined_text(utterances))
                &&& payload_transcript(Some(payload)) matches Some(update) && update.text
                    == joined_text(utterances)
            } else {
                payload_text(Some(payload)) is None && payload_transcript(Some(payload)) is None
            },
            _ => payload_text(Some(payload)) is None && payload_transcript(Some(payload)) is None,
        },
        payload_transcript(Some(payload)) matches Some(update) ==> match result.get(
            "utterances"@,
        ) {
            Some(JsonTree::Array(utterances)) => update.segments == utterance_segments(utterances),
            _ => update.segments.len() == 0,
        },
{
}

/// A response without a result has no transcript, nor has a missing one.
pub proof fn law_no_result_means_no_transcript(payload: JsonTree)
    requires
        payload.get("result"@) is None,
    ensures
        payload_text(Some(payload)) is None,
        payload_transcript(Some(payload)) is None,
        payload_text(None) is None,
        payload_transcript(None) is None,
{
}

/// Two responses that differ only in whether one utterance with text is definite have
/// different transcripts: the change from provisional to definite can be seen.
pub proof fn law_becoming_definite_changes_the_transcript(
    before: JsonTree,
    after: JsonTree,
    utterances: Seq<JsonTree>,
    index: int,
    settled: JsonTree,
)
    requires
        0 <= index < utterances.len(),
        before.get("result"@) matches Some(result) && result.get("utterances"@) == Some(
            JsonTree::Array(utterances),
        ),
        after.get("result"@) matches Some(result) && result.get("utterances"@) == Some(
            JsonTree::Array(utterances.update(index, settled)),
        ),
        (before.get("result"@)->0).get("text"@) == (after.get("result"@)->0).get("text"@),
        utterances[index].get("text"@) matches Some(JsonTree::Text(text)) && text.len() > 0,
        settled.get("text"@) == utterances[index].get("text"@),
        utterances[index].get("definite"@) != Some(JsonTree::Bool(true)),
        settled.get("definite"@) == Some(JsonTree::Bool(true)),
    ensures
        payload_transcript(Some(before)) is Some,
        payload_transcript(Some(after)) is Some,
        payload_transcript(Some(before))->0.text == payload_transcript(Some(after))->0.text,
        payload_transcript(Some(before)) != payload_transcript(Some(after)),
        ({
            let place = utterance_segments(utterances.take(index)).len() as int;
            let old_segments = (payload_transcript(Some(before))->0).segments;
            let new_segments = (payload_transcript(Some(after))->0).segments;
            &&& place < old_segments.len() == new_segments.len()
            &&& !old_segments[place].definite && new_segments[place].definite
            &&& forall|i: int|
                0 <= i < old_segments.len() && i != place ==> #[trigger] old_segments[i]
                    == new_segments[i]
        }),
{
    let left = utterances.take(index);
    let right = utterances.skip(index + 1);
    let changed = utterances.update(index, settled);
    assert(utterances =~= left + (seq![utterances[index]] + right));
    assert(changed =~= left + (seq![settled] + right));
    law_each_utterance_has_its_segment(left, seq![utterances[index]] + right, utterances[index]);
    law_each_utterance_has_its_segment(seq![utterances[index]], right, utterances[index]);
    law_each_utterance_has_its_segment(left, seq![settled] + right, settled);
    law_each_utterance_has_its_segment(seq![settled], right, settled);
    law_utterance_texts_are_joined(left, seq![utterances[index]] + right, utterances[index]);
    law_utterance_texts_are_joined(seq![utterances[index]], right, utterances[index]);
    law_utterance_texts_are_joined(left, seq![settled] + right, settled);
    law_utterance_texts_are_joined(seq![settled], right, settled);
    law_transcripts_are_read_from_the_result(before, before.get("result"@)->0);
    law_transcripts_are_read_from_the_result(after, after.get("result"@)->0);
    let place = utterance_segments(left).len() as int;
    let old_segments = utterance_segments(utterances);
    let new_segments = utterance_segments(changed);
    assert(old_segments[place] == utterance_segments(seq![utterances[index]])[0]);
    assert(new_segments[place] == utterance_segments(seq![settled])[0]);
}

/// The first bytes of the frames that a client sends: protocol version 1 with a header of four
/// bytes; a full request has kind 1, flag 1, JSON and gzip; audio has kind 2, flag 1, or 3 in
/// the last frame, raw bytes and gzip.
pub proof fn law_client_headers_are_those_of_the_protocol(
    sequence: i32,
    text: Seq<u8>,
    body: Seq<u8>,
    is_last: bool,
)
    ensures
        opening_frame(sequence, Some(text), Some(Some(body))) matches Ok(frame) && frame.take(4)
            == seq![0x11u8, 0x11u8, 0x11u8, 0u8],
        audio_frame(sequence, body, is_last).take(4) == seq![
            0x11u8,
            if is_last {
                0x23u8
            } else {
                0x21u8
            },
            0x01u8,
            0u8,
        ],
{
    assert((1u8 << 4) | 1u8 == 0x11u8) by (bit_vector);
    assert((2u8 << 4) | 1u8 == 0x21u8) by (bit_vector);
    assert((2u8 << 4) | 3u8 == 0x23u8) by (bit_vector);
    assert((0u8 << 4) | 1u8 == 0x01u8) by (bit_vector);
    let frame = opening_frame(sequence, Some(text), Some(Some(body)))->Ok_0;
    assert(frame.take(4) =~= seq![0x11u8, 0x11u8, 0x11u8, 0u8]);
    assert(audio_frame(sequence, body, is_last).take(4) =~= seq![
        0x11u8,
        if is_last {
            0x23u8
        } else {
            0x21u8
        },
        0x01u8,
        0u8,
    ]);
}

/// The opening frame carries its sequence number as it is, and the compressed request behind
/// its size.
pub proof fn law_opening_frames_can_be_read(sequence: i32, text: Seq<u8>, body: Seq<u8>)
    requires
        body.len() < 0x1_0000_0000,
    ensures
        opening_frame(sequence, Some(text), Some(Some(body))) matches Ok(frame) && {
            &&& signed(be_value(frame.subrange(4, 8))) == sequence
            &&& be_value(frame.subrange(8, 12)) == body.len()
            &&& frame.skip(12) == body
        },
        opening_frame(sequence, None, Some(Some(body))) == Err::<Seq<u8>, ProtocolErrorView>(
            ProtocolErrorView::Serialize,
        ),
        opening_frame(sequence, Some(text), None) == Err::<Seq<u8>, ProtocolErrorView>(
            ProtocolErrorView::Gzip,
        ),
        opening_frame(sequence, Some(text), Some(None)) == Err::<Seq<u8>, ProtocolErrorView>(
            ProtocolErrorView::GzipFinish,
        ),
{
    law_request_frames_can_be_read(1, 1, 1, sequence, body);
}

/// A response whose payload, compressed or not, is a JSON document is read as that document,
/// with the mark of the last answer; a payload that is no document is an error; an empty one
/// and one in another serialization hold nothing.
pub proof fn law_responses_are_read(
    flags: u8,
    serialization: u8,
    compression: u8,
    sequence: u32,
    body: Seq<u8>,
    content: Seq<u8>,
)
    requires
        flags < 16,
        serialization < 16,
        compression < 16,
        body.len() < 0x1_0000_0000,
        service_frame(flags, serialization, compression, sequence, None, body).len() <= usize::MAX,
        if compression == 1 && body.len() > 0 {
            gunzipped(body) == Some(content)
        } else {
            body == content
        },
    ensures
        ({
            let read = server_frame(
                service_frame(flags, serialization, compression, sequence, None, body),
            );
            let is_last = flags == 2 || flags == 3 || flags == 6 || flags == 7 || flags == 10
                || flags == 11 || flags == 14 || flags == 15;
            if content.len() == 0 || serialization != 1 {
                read matches Ok(frame) && frame.is_last == is_last && frame.payload is None
            } else {
                match parsed_json(content) {
                    Some(document) => read matches Ok(frame) && frame.is_last == is_last
                        && frame.payload == Some(document),
                    None => read == Err::<ServerFrameView, ProtocolErrorView>(
                        ProtocolErrorView::InvalidJson,
                    ),
                }
            }
        }),
{
    law_service_frames_split(flags, serialization, compression, sequence, None, body);
    assert((flags / 2 % 2 == 1) == (flags == 2 || flags == 3 || flags == 6 || flags == 7 || flags
        == 10 || flags == 11 || flags == 14 || flags == 15));
}

/// A failure that the service reports is an error with its code and, where its detail is valid
/// UTF-8, the text of that; a detail that cannot be decompressed is taken as it is.
pub proof fn law_failures_are_told(
    flags: u8,
    serialization: u8,
    compression: u8,
    sequence: u32,
    code: i32,
    body: Seq<u8>,
)
    requires
        flags < 16,
        serialization < 16,
        compression < 16,
        body.len() < 0x1_0000_0000,
        service_frame(flags, serialization, compression, sequence, Some(code), body).len()
            <= usize::MAX,
    ensures
        ({
            let read = server_frame(
                service_frame(flags, serialization, compression, sequence, Some(code), body),
            );
            let shown = if compression == 1 && body.len() > 0 && gunzipped(body) is Some {
                gunzipped(body)->0
            } else {
                body
            };
            &&& read matches Err(ProtocolErrorView::Server { code: told, detail }) && told == code
                && (valid_utf8(shown) ==> detail == decode_utf8(shown))
        }),
{
    law_service_frames_split(flags, serialization, compression, sequence, Some(code), body);
}

/// Frames of the service have kind 9 where they answer and kind 15 where they report a failure.
pub proof fn law_service_kinds_are_those_of_the_protocol(
    flags: u8,
    serialization: u8,
    compression: u8,
    sequence: u32,
    failure: Option<i32>,
    body: Seq<u8>,
)
    requires
        flags < 16,
        serialization < 16,
        compression < 16,
    ensures
        ({
            let frame = service_frame(flags, serialization, compression, sequence, failure, body);
            &&& frame[0] == 0x11
            &&& frame[1] / 16 == if failure is Some {
                15u8
            } else {
                9u8
            }
            &&& frame[1] % 16 == flags
            &&& frame[2] / 16 == serialization && frame[2] % 16 == compression
        }),
{
    let message_type = if failure is Some {
        SERVER_ERROR_RESPONSE
    } else {
        SERVER_FULL_RESPONSE
    };
    lemma_header_reads_back(message_type, flags, serialization, compression);
    assert((1u8 << 4) | 1u8 == 0x11u8) by (bit_vector);
}

/// A frame needs a header of at least four bytes, which is as long as its first byte says, in
/// words of four bytes.
pub proof fn law_headers_must_be_complete(data: Seq<u8>)
    ensures
        data.len() < 4 ==> split_frame_spec(data) == Err::<
            (bool, ServerMessageView),
            ProtocolErrorView,
        >(ProtocolErrorView::HeaderTooShort),
        data.len() >= 4 && (data[0] % 16 == 0 || data.len() < 4 * (data[0] % 16))
            ==> split_frame_spec(data) == Err::<(bool, ServerMessageView), ProtocolErrorView>(
            ProtocolErrorView::HeaderOutOfBounds,
        ),
        data.len() >= 4 && 0 < 4 * (data[0] % 16) <= data.len() ==> split_frame_spec(data) != Err::<
            (bool, ServerMessageView),
            ProtocolErrorView,
        >(ProtocolErrorView::HeaderOutOfBounds) && split_frame_spec(data) != Err::<
            (bool, ServerMessageView),
            ProtocolErrorView,
        >(ProtocolErrorView::HeaderTooShort),
{
}

/// Words that a header has beyond the first are skipped: the frame says what it would say
/// without them.
pub proof fn law_header_extensions_are_skipped(data: Seq<u8>, extension: Seq<u8>)
    requires
        data.len() >= 4,
        data[0] % 16 == 1,
        extension.len() % 4 == 0,
        extension.len() <= 56,
        data.len() + extension.len() <= usize::MAX,
        split_frame_spec(data) is Ok,
    ensures
        split_frame_spec(
            seq![(data[0] + extension.len() / 4) as u8, data[1], data[2], data[3]] + extension
                + data.skip(4),
        ) == split_frame_spec(data),
{
    let first = (data[0] + extension.len() / 4) as u8;
    let longer = seq![first, data[1], data[2], data[3]] + extension + data.skip(4);
    let shift = extension.len() as int;
    assert(first % 16 == 1 + extension.len() / 4);
    assert(longer.len() == data.len() + shift);
    assert forall|from: int, to: int| 4 <= from <= to <= data.len() implies longer.subrange(
        from + shift,
        to + shift,
    ) == #[trigger] data.subrange(from, to) by {
        assert(longer.subrange(from + shift, to + shift) =~= data.subrange(from, to));
    }
    assert(longer[1] == data[1] && longer[2] == data[2]);
    let start: int = if data[1] % 16 % 2 == 1 {
        8
    } else {
        4
    };
    let at: int = if data[1] / 16 == SERVER_ERROR_RESPONSE {
        start + 4
    } else {
        start
    };
    if data[1] / 16 == SERVER_ERROR_RESPONSE || data[1] / 16 == SERVER_FULL_RESPONSE {
        let size = be_value(data.subrange(at, at + 4)) as int;
        assert(longer.subrange(start + shift, start + 4 + shift) == data.subrange(
            start,
            start + 4,
        ));
        assert(longer.subrange(at + shift, at + 4 + shift) == data.subrange(at, at + 4));
        assert(longer.subrange(at + 4 + shift, at + 4 + size + shift) == data.subrange(
            at + 4,
            at + 4 + size,
        ));
    }
}

/// A frame of another kind than an answer or a failure holds nothing, but its mark of the last
/// frame counts.
pub proof fn law_other_frames_hold_nothing(data: Seq<u8>)
    requires
        data.len() >= 4,
        0 < 4 * (data[0] % 16) <= data.len(),
        data[1] / 16 != 9,
        data[1] / 16 != 15,
        data[1] % 2 == 1 ==> data.len() >= 4 * (data[0] % 16) + 4,
    ensures
        server_frame(data) == Ok::<ServerFrameView, ProtocolErrorView>(
            ServerFrameView { is_last: data[1] / 2 % 2 == 1, payload: None },
        ),
{
}

/// Where a frame of the service was cut short is told by the part that is not whole.
pub proof fn law_the_missing_part_is_told(
    flags: u8,
    serialization: u8,
    compression: u8,
    sequence: u32,
    failure: Option<i32>,
    body: Seq<u8>,
    kept: int,
)
    requires
        flags < 16,
        serialization < 16,
        compression < 16,
        body.len() < 0x1_0000_0000,
        service_frame(flags, serialization, compression, sequence, failure, body).len()
            <= usize::MAX,
        4 <= kept < service_frame(
            flags,
            serialization,
            compression,
            sequence,
            failure,
            body,
        ).len(),
    ensures
        ({
            let cut = service_frame(
                flags,
                serialization,
                compression,
                sequence,
                failure,
                body,
            ).take(kept);
            let start: int = if flags % 2 == 1 {
                8
            } else {
                4
            };
            let missing = if kept < start {
                FrameField::SequenceNumber
            } else if failure is Some {
                if kept < start + 4 {
                    FrameField::ErrorCode
                } else if kept < start + 8 {
                    FrameField::ErrorPayloadSize
                } else {
                    FrameField::ErrorPayload
                }
            } else if kept < start + 4 {
                FrameField::ResponsePayloadSize
            } else {
                FrameField::ResponsePayload
            };
            split_frame_spec(cut) == Err::<(bool, ServerMessageView), ProtocolErrorView>(
                ProtocolErrorView::FieldOutOfBounds(missing),
            )
        }),
{
    let frame = service_frame(flags, serialization, compression, sequence, failure, body);
    let size = body.len() as u32;
    let message_type = if failure is Some {
        SERVER_ERROR_RESPONSE
    } else {
        SERVER_FULL_RESPONSE
    };
    lemma_header_reads_back(message_type, flags, serialization, compression);
    lemma_be_round_trip(size);
    let start: int = if flags % 2 == 1 {
        8
    } else {
        4
    };
    let at = match failure {
        Some(_) => start + 4,
        None => start,
    };
    assert(frame.subrange(at, at + 4) =~= be_bytes(size));
    if kept >= at + 4 {
        assert(frame.take(kept).subrange(at, at + 4) =~= be_bytes(size));
    }
}

/// A compressed answer that is no gzip stream is an error.
pub proof fn law_broken_answers_are_refused(
    flags: u8,
    serialization: u8,
    sequence: u32,
    body: Seq<u8>,
)
    requires
        flags < 16,
        serialization < 16,
        0 < body.len() < 0x1_0000_0000,
        service_frame(flags, serialization, 1, sequence, None, body).len() <= usize::MAX,
        gunzipped(body) is None,
    ensures
        server_frame(service_frame(flags, serialization, 1, sequence, None, body)) == Err::<
            ServerFrameView,
            ProtocolErrorView,
        >(ProtocolErrorView::Gunzip),
{
    law_service_frames_split(flags, serialization, 1, sequence, None, body);
}

/// An error tells the part of a frame that it is about by its name, and what the service
/// reported with its code and its detail whole.
pub proof fn law_protocol_errors_tell_their_cause(
    code: i32,
    detail: Seq<char>,
    field: FrameField,
)
    ensures
        (ProtocolErrorView::Server { code, detail }).message() == "VolcEngine ASR protocol error "@
            + decimal(code as int) + ": "@ + detail,
        ProtocolErrorView::FieldOutOfBounds(FrameField::SequenceNumber).message()
            == "invalid ASR frame: "@ + "sequence number"@ + " is out of bounds"@,
        ProtocolErrorView::FieldOutOfBounds(FrameField::ResponsePayloadSize).message()
            == "invalid ASR frame: "@ + "response payload size"@ + " is out of bounds"@,
        ProtocolErrorView::FieldOutOfBounds(FrameField::ResponsePayload).message()
            == "invalid ASR frame: "@ + "response payload"@ + " is out of bounds"@,
        ProtocolErrorView::FieldOutOfBounds(FrameField::ErrorCode).message()
            == "invalid ASR frame: "@ + "error code"@ + " is out of bounds"@,
        ProtocolErrorView::FieldOutOfBounds(FrameField::ErrorPayloadSize).message()
            == "invalid ASR frame: "@ + "error payload size"@ + " is out of bounds"@,
        ProtocolErrorView::FieldOutOfBounds(FrameField::ErrorPayload).message()
            == "invalid ASR frame: "@ + "error payload"@ + " is out of bounds"@,
        ProtocolErrorView::FieldOverflow(field).message() == "invalid ASR frame: "@
            + field.spec_label() + " overflow"@,
        ProtocolErrorView::HeaderTooShort.message()
            == "invalid ASR frame: header is shorter than four bytes"@,
        ProtocolErrorView::HeaderOutOfBounds.message()
            == "invalid ASR frame: declared header size is out of bounds"@,
{
}

} // verus!
