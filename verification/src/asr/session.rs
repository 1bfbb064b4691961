//! One recognition session: what is sent to the service, and what its answers mean.

use tokio_tungstenite::tungstenite::http::HeaderValue;
use vstd::prelude::*;

use crate::asr::packets::{
    all_packets, edge_guard, full_packets, law_packets_do_not_depend_on_when_they_are_cut,
    law_full_packets_hold_the_stream, law_packets_hold_the_stream, lemma_full_packets_len, packet_samples, packet_views, unsent, AudioPacket, AudioPackets, PacketView, PacketsView,
};
use crate::asr::protocol::{
    extract_transcript, full_request, gunzipped, gzipped, opening_frame, parse_server_frame,
    payload_transcript, server_frame, ProtocolError, ProtocolErrorView, ServerFrame,
    ServerFrameView, TranscriptUpdate, UpdateView,
};
use crate::asr_options::{RESOURCE_ID, VAD_END_WINDOW_MS};
use crate::audio::{AudioEvent, AudioEventView, TARGET_SAMPLE_RATE};
use crate::bytes::copy;
use crate::config::{AppConfig, ConfigError, ConfigErrorView};
use crate::json::{json_text, whole_number, Json, JsonObject, JsonTree};
use crate::platform::Platform;

verus! {

pub const CONNECT_TIMEOUT_MS: u64 = 10_000;

pub const SOCKET_WRITE_TIMEOUT_MS: u64 = 5_000;

pub const FINAL_RESPONSE_TIMEOUT_MS: u64 = 6_000;

/// How long the microphone stays open behind the end of a dictation.
pub const CAPTURE_TAIL_MS: u64 = 250;

/// Why a session failed.
#[derive(Debug)]
pub enum AsrError {
    Config(ConfigError),
    InvalidSecretKey,
    InvalidRequest,
    ConnectTimeout,
    ConnectFailed,
    RequestTimeout,
    RequestFailed,
    AudioTimeout,
    AudioFailed,
    MicrophoneFailed(String),
    MicrophoneStopped,
    PongFailed,
    Closed(String),
    ReceiveFailed,
    Ended,
    FinalTimeout,
    Protocol(ProtocolError),
}

/// An [`AsrError`] with its texts as sequences of characters.
pub enum AsrErrorView {
    Config(ConfigErrorView),
    InvalidSecretKey,
    InvalidRequest,
    ConnectTimeout,
    ConnectFailed,
    RequestTimeout,
    RequestFailed,
    AudioTimeout,
    AudioFailed,
    MicrophoneFailed(Seq<char>),
    MicrophoneStopped,
    PongFailed,
    Closed(Seq<char>),
    ReceiveFailed,
    Ended,
    FinalTimeout,
    Protocol(ProtocolErrorView),
}

impl View for AsrError {
    type V = AsrErrorView;

    open spec fn view(&self) -> AsrErrorView {
        match *self {
            AsrError::Config(error) => AsrErrorView::Config(error@),
            AsrError::InvalidSecretKey => AsrErrorView::InvalidSecretKey,
            AsrError::InvalidRequest => AsrErrorView::InvalidRequest,
            AsrError::ConnectTimeout => AsrErrorView::ConnectTimeout,
            AsrError::ConnectFailed => AsrErrorView::ConnectFailed,
            AsrError::RequestTimeout => AsrErrorView::RequestTimeout,
            AsrError::RequestFailed => AsrErrorView::RequestFailed,
            AsrError::AudioTimeout => AsrErrorView::AudioTimeout,
            AsrError::AudioFailed => AsrErrorView::AudioFailed,
            AsrError::MicrophoneFailed(error) => AsrErrorView::MicrophoneFailed(error@),
            AsrError::MicrophoneStopped => AsrErrorView::MicrophoneStopped,
            AsrError::PongFailed => AsrErrorView::PongFailed,
            AsrError::Closed(frame) => AsrErrorView::Closed(frame@),
            AsrError::ReceiveFailed => AsrErrorView::ReceiveFailed,
            AsrError::Ended => AsrErrorView::Ended,
            AsrError::FinalTimeout => AsrErrorView::FinalTimeout,
            AsrError::Protocol(error) => AsrErrorView::Protocol(error@),
        }
    }
}

impl AsrErrorView {
    /// What the user is told.
    pub open spec fn message(self) -> Seq<char> {
        match self {
            AsrErrorView::Config(error) => error.message(),
            AsrErrorView::InvalidSecretKey => "Secret Key is not a valid header"@,
            AsrErrorView::InvalidRequest => "failed to create the VolcEngine WebSocket request"@,
            AsrErrorView::ConnectTimeout => "timed out while connecting to VolcEngine ASR"@,
            AsrErrorView::ConnectFailed => "failed to connect to VolcEngine ASR"@,
            AsrErrorView::RequestTimeout => "timed out sending the initial ASR request"@,
            AsrErrorView::RequestFailed => "failed to send the initial ASR request"@,
            AsrErrorView::AudioTimeout =>
                "timed out streaming microphone audio to VolcEngine"@,
            AsrErrorView::AudioFailed => "failed to stream microphone audio to VolcEngine"@,
            AsrErrorView::MicrophoneFailed(error) => "microphone capture failed: "@ + error,
            AsrErrorView::MicrophoneStopped => "microphone capture stopped unexpectedly"@,
            AsrErrorView::PongFailed => "failed to answer the ASR WebSocket ping"@,
            AsrErrorView::Closed(frame) =>
                "ASR WebSocket closed before the final result: "@ + frame,
            AsrErrorView::ReceiveFailed => "ASR WebSocket receive failed"@,
            AsrErrorView::Ended => "ASR WebSocket ended before the final result"@,
            AsrErrorView::FinalTimeout => "timed out waiting for the final ASR response"@,
            AsrErrorView::Protocol(error) => error.message(),
        }
    }
}

impl AsrError {
    /// What the user is told.
    pub fn message(&self) -> (result: String)
        ensures
            result@ == self@.message(),
    {
        match self {
            AsrError::Config(error) => error.message(),
            AsrError::InvalidSecretKey => "Secret Key is not a valid header".to_owned(),
            AsrError::InvalidRequest =>
                "failed to create the VolcEngine WebSocket request".to_owned(),
            AsrError::ConnectTimeout => "timed out while connecting to VolcEngine ASR".to_owned(),
            AsrError::ConnectFailed => "failed to connect to VolcEngine ASR".to_owned(),
            AsrError::RequestTimeout => "timed out sending the initial ASR request".to_owned(),
            AsrError::RequestFailed => "failed to send the initial ASR request".to_owned(),
            AsrError::AudioTimeout =>
                "timed out streaming microphone audio to VolcEngine".to_owned(),
            AsrError::AudioFailed => "failed to stream microphone audio to VolcEngine".to_owned(),
            AsrError::MicrophoneFailed(error) => {
                let mut message = "microphone capture failed: ".to_owned();
                message.append(error.as_str());
                message
            },
            AsrError::MicrophoneStopped => "microphone capture stopped unexpectedly".to_owned(),
            AsrError::PongFailed => "failed to answer the ASR WebSocket ping".to_owned(),
            AsrError::Closed(frame) => {
                let mut message = "ASR WebSocket closed before the final result: ".to_owned();
                message.append(frame.as_str());
                message
            },
            AsrError::ReceiveFailed => "ASR WebSocket receive failed".to_owned(),
            AsrError::Ended => "ASR WebSocket ended before the final result".to_owned(),
            AsrError::FinalTimeout => "timed out waiting for the final ASR response".to_owned(),
            AsrError::Protocol(error) => error.message(),
        }
    }
}

/// A character that may stand in the value of an HTTP header.
pub open spec fn header_char(c: char) -> bool {
    ||| c as u32 >= 32 && c as u32 != 127
    ||| c as u32 == 9
}

/// A text that may be the value of an HTTP header.
pub open spec fn header_text(text: Seq<char>) -> bool {
    forall|i: int| 0 <= i < text.len() ==> header_char(#[trigger] text[i])
}

/// Calls `HeaderValue::from_str`, which takes every byte from 32 on but 127, and the tab:
/// all characters but the ASCII control characters, of which the tab is allowed.
#[verifier::external_body]
fn is_header_value(text: &str) -> (result: bool)
    ensures
        result == header_text(text@),
{
    HeaderValue::from_str(text).is_ok()
}

/// A header of the request that opens the connection.
#[derive(Debug)]
pub struct Header {
    pub name: &'static str,
    pub value: String,
}

/// The headers of the request that opens the connection, by name and value.
pub open spec fn header_list(session_id: Seq<char>, secret_key: Seq<char>) -> Seq<
    (Seq<char>, Seq<char>),
> {
    seq![
        ("x-api-resource-id"@, RESOURCE_ID@),
        ("x-api-connect-id"@, session_id),
        ("x-api-request-id"@, session_id),
        ("x-api-sequence"@, "-1"@),
        ("x-api-key"@, secret_key),
    ]
}

/// A list of headers, by name and value.
pub open spec fn header_views(headers: Seq<Header>) -> Seq<(Seq<char>, Seq<char>)> {
    Seq::new(headers.len(), |i: int| (headers[i].name@, headers[i].value@))
}

/// The headers of the request that opens the connection.
pub fn request_headers(session_id: &str, secret_key: &str) -> (result: Result<
    Vec<Header>,
    AsrError,
>)
    requires
        header_text(session_id@),
    ensures
        match result {
            Ok(headers) => header_text(secret_key@) && header_views(headers@) == header_list(
                session_id@,
                secret_key@,
            ),
            Err(error) => !header_text(secret_key@) && error@ == AsrErrorView::InvalidSecretKey,
        },
{
    if !is_header_value(secret_key) {
        return Err(AsrError::InvalidSecretKey);
    }
    let mut headers: Vec<Header> = Vec::new();
    headers.push(Header { name: "x-api-resource-id", value: RESOURCE_ID.to_owned() });
    headers.push(Header { name: "x-api-connect-id", value: session_id.to_owned() });
    headers.push(Header { name: "x-api-request-id", value: session_id.to_owned() });
    headers.push(Header { name: "x-api-sequence", value: "-1".to_owned() });
    headers.push(Header { name: "x-api-key", value: secret_key.to_owned() });
    proof {
        assert(header_views(headers@) =~= header_list(session_id@, secret_key@));
    }
    Ok(headers)
}

/// A whole number in a JSON document.
pub open spec fn number_tree(value: u64) -> JsonTree {
    JsonTree::Number(whole_number(value))
}

/// The request that opens a session: raw 16-bit mono audio, recognized with a second pass,
/// punctuation and inverse text normalization, full results with their utterances.
pub open spec fn request_tree() -> JsonTree {
    JsonTree::Object(
        map![
            "user"@ => JsonTree::Object(map!["uid"@ => JsonTree::Text("voice-flow"@)]),
            "audio"@ => JsonTree::Object(
                map![
                    "format"@ => JsonTree::Text("pcm"@),
                    "codec"@ => JsonTree::Text("raw"@),
                    "rate"@ => number_tree(TARGET_SAMPLE_RATE as u64),
                    "bits"@ => number_tree(16),
                    "channel"@ => number_tree(1),
                ],
            ),
            "request"@ => JsonTree::Object(
                map![
                    "model_name"@ => JsonTree::Text("bigmodel"@),
                    "enable_nonstream"@ => JsonTree::Bool(true),
                    "end_window_size"@ => number_tree(VAD_END_WINDOW_MS),
                    "enable_itn"@ => JsonTree::Bool(true),
                    "enable_punc"@ => JsonTree::Bool(true),
                    "enable_ddc"@ => JsonTree::Bool(false),
                    "show_utterances"@ => JsonTree::Bool(true),
                    "result_type"@ => JsonTree::Text("full"@),
                ],
            ),
        ],
    )
}

/// The request that opens a session.
pub fn request_payload() -> (result: Json)
    ensures
        result@ == request_tree(),
        result@.get("request"@) matches Some(request) && {
            &&& request.get("enable_nonstream"@) == Some(JsonTree::Bool(true))
            &&& request.get("enable_itn"@) == Some(JsonTree::Bool(true))
            &&& request.get("enable_punc"@) == Some(JsonTree::Bool(true))
            &&& request.get("show_utterances"@) == Some(JsonTree::Bool(true))
            &&& request.get("enable_ddc"@) == Some(JsonTree::Bool(false))
        },
{
    proof {
        law_the_request_asks_for_readable_text();
    }
    let mut user = JsonObject::new();
    user.set("uid", Json::text("voice-flow"));
    let mut audio = JsonObject::new();
    audio.set("format", Json::text("pcm"));
    audio.set("codec", Json::text("raw"));
    audio.set("rate", Json::whole(TARGET_SAMPLE_RATE as u64));
    audio.set("bits", Json::whole(16));
    audio.set("channel", Json::whole(1));
    let mut request = JsonObject::new();
    request.set("model_name", Json::text("bigmodel"));
    request.set("enable_nonstream", Json::Bool(true));
    request.set("end_window_size", Json::whole(VAD_END_WINDOW_MS));
    request.set("enable_itn", Json::Bool(true));
    request.set("enable_punc", Json::Bool(true));
    request.set("enable_ddc", Json::Bool(false));
    request.set("show_utterances", Json::Bool(true));
    request.set("result_type", Json::text("full"));
    let mut all = JsonObject::new();
    all.set("user", Json::Object(user));
    all.set("audio", Json::Object(audio));
    all.set("request", Json::Object(request));
    Json::Object(all)
}

/// The frame that opens a session: the first one, with the request.
pub fn opening_request() -> (result: Result<Vec<u8>, ProtocolError>)
    ensures
        ({
            let text = json_text(request_tree());
            let stream = match text {
                Some(text) => gzipped(text),
                None => None,
            };
            match result {
                Ok(frame) => opening_frame(1, text, stream) == Ok::<Seq<u8>, ProtocolErrorView>(
                    frame@,
                ) && gunzipped(frame@.skip(12)) == text,
                Err(error) => opening_frame(1, text, stream) == Err::<Seq<u8>, ProtocolErrorView>(
                    error@,
                ),
            }
        }),
{
    full_request(1, &request_payload())
}

/// The headers of the request that opens a dictation's connection. Settings that cannot be
/// used for dictation are refused before anything else.
pub fn session_headers(config: &AppConfig, session_id: &str, platform: Platform) -> (result: Result<
    Vec<Header>,
    AsrError,
>)
    requires
        header_text(session_id@),
    ensures
        match (config@.dictation_error(platform), result) {
            (Some(cause), Err(error)) => error@ == AsrErrorView::Config(cause),
            (Some(_), Ok(_)) => false,
            (None, Ok(headers)) => header_text(config@.secret_key) && header_views(headers@)
                == header_list(session_id@, config@.secret_key),
            (None, Err(error)) => !header_text(config@.secret_key) && error@
                == AsrErrorView::InvalidSecretKey,
        },
{
    match config.validate_for_dictation(platform) {
        Err(error) => Err(AsrError::Config(error)),
        Ok(_) => request_headers(session_id, config.secret_key.as_str()),
    }
}

/// What the socket to the service delivers.
#[derive(Debug)]
pub enum SocketMessage {
    Binary(Vec<u8>),
    Ping(Vec<u8>),
    /// The connection was closed; the text describes the closing frame.
    Close(String),
    Other,
    /// Reading from the socket failed.
    Failed,
    /// There is nothing more to read.
    Ended,
}

/// A [`SocketMessage`] as plain sequences.
pub enum MessageView {
    Binary(Seq<u8>),
    Ping(Seq<u8>),
    Close(Seq<char>),
    Other,
    Failed,
    Ended,
}

impl View for SocketMessage {
    type V = MessageView;

    open spec fn view(&self) -> MessageView {
        match *self {
            SocketMessage::Binary(data) => MessageView::Binary(data@),
            SocketMessage::Ping(payload) => MessageView::Ping(payload@),
            SocketMessage::Close(frame) => MessageView::Close(frame@),
            SocketMessage::Other => MessageView::Other,
            SocketMessage::Failed => MessageView::Failed,
            SocketMessage::Ended => MessageView::Ended,
        }
    }
}

/// What an optional update says.
pub open spec fn update_view(update: Option<TranscriptUpdate>) -> Option<UpdateView> {
    match update {
        Some(update) => Some(update@),
        None => None,
    }
}

/// The transcript in a frame, where it differs from the latest one. The text may stay the
/// same while a segment becomes definite.
pub open spec fn frame_update(latest: UpdateView, frame: ServerFrameView) -> Option<UpdateView> {
    match payload_transcript(frame.payload) {
        Some(update) => if update == latest {
            None
        } else {
            Some(update)
        },
        None => None,
    }
}

/// The latest transcript behind a possible update.
pub open spec fn updated(latest: UpdateView, update: Option<UpdateView>) -> UpdateView {
    match update {
        Some(update) => update,
        None => latest,
    }
}

/// Takes the transcript of a frame over, where it differs from the latest one.
pub fn apply_frame(latest: &mut TranscriptUpdate, frame: &ServerFrame) -> (result: Option<
    TranscriptUpdate,
>)
    ensures
        update_view(result) == frame_update(old(latest)@, frame@),
        final(latest)@ == updated(old(latest)@, update_view(result)),
        payload_transcript(frame@.payload) matches Some(transcript) ==> final(latest)@ == transcript
            && (result is Some <==> transcript != old(latest)@),
        payload_transcript(frame@.payload) is None ==> final(latest)@ == old(latest)@ && result
            is None,
{
    let payload = match &frame.payload {
        Some(json) => Some(json),
        None => None,
    };
    match extract_transcript(payload) {
        Some(update) => {
            if update.same(latest) {
                None
            } else {
                *latest = update.copied();
                Some(update)
            }
        },
        None => None,
    }
}

/// What a message of the service leads to.
#[derive(Debug)]
pub struct MessageOutcome {
    pub pong: Option<Vec<u8>>,
    pub update: Option<TranscriptUpdate>,
    pub is_last: bool,
}

/// A [`MessageOutcome`] as plain values.
pub struct OutcomeView {
    pub pong: Option<Seq<u8>>,
    pub update: Option<UpdateView>,
    pub is_last: bool,
}

/// Bytes that may be missing.
pub open spec fn bytes_view(bytes: Option<Vec<u8>>) -> Option<Seq<u8>> {
    match bytes {
        Some(bytes) => Some(bytes@),
        None => None,
    }
}

impl View for MessageOutcome {
    type V = OutcomeView;

    open spec fn view(&self) -> OutcomeView {
        OutcomeView {
            pong: bytes_view(self.pong),
            update: update_view(self.update),
            is_last: self.is_last,
        }
    }
}

/// What a message of the service leads to: a binary one is a frame, a ping is answered
/// with its own payload, and the end of the connection is an error.
pub open spec fn message_outcome(latest: UpdateView, message: MessageView) -> Result<
    OutcomeView,
    AsrErrorView,
> {
    match message {
        MessageView::Binary(data) => match server_frame(data) {
            Ok(frame) => Ok(
                OutcomeView {
                    pong: None,
                    update: frame_update(latest, frame),
                    is_last: frame.is_last,
                },
            ),
            Err(error) => Err(AsrErrorView::Protocol(error)),
        },
        MessageView::Ping(payload) => Ok(
            OutcomeView { pong: Some(payload), update: None, is_last: false },
        ),
        MessageView::Close(frame) => Err(AsrErrorView::Closed(frame)),
        MessageView::Other => Ok(OutcomeView { pong: None, update: None, is_last: false }),
        MessageView::Failed => Err(AsrErrorView::ReceiveFailed),
        MessageView::Ended => Err(AsrErrorView::Ended),
    }
}

/// Takes a message of the service into account.
pub fn handle_message(message: &SocketMessage, latest: &mut TranscriptUpdate) -> (result: Result<
    MessageOutcome,
    AsrError,
>)
    ensures
        match result {
            Ok(outcome) => message_outcome(old(latest)@, message@) == Ok::<
                OutcomeView,
                AsrErrorView,
            >(outcome@) && final(latest)@ == updated(old(latest)@, outcome@.update),
            Err(error) => message_outcome(old(latest)@, message@) == Err::<
                OutcomeView,
                AsrErrorView,
            >(error@) && final(latest)@ == old(latest)@,
        },
{
    match message {
        SocketMessage::Binary(data) => match parse_server_frame(data.as_slice()) {
            Ok(frame) => {
                let update = apply_frame(latest, &frame);
                Ok(MessageOutcome { pong: None, update, is_last: frame.is_last })
            },
            Err(error) => Err(AsrError::Protocol(error)),
        },
        SocketMessage::Ping(payload) => Ok(
            MessageOutcome { pong: Some(copy(payload.as_slice())), update: None, is_last: false },
        ),
        SocketMessage::Close(frame) => Err(AsrError::Closed(frame.clone())),
        SocketMessage::Other => Ok(MessageOutcome { pong: None, update: None, is_last: false }),
        SocketMessage::Failed => Err(AsrError::ReceiveFailed),
        SocketMessage::Ended => Err(AsrError::Ended),
    }
}

/// A transcript is announced only where it says something new, and is then the latest
/// one; so a frame that comes twice is announced once.
pub proof fn law_repeated_frames_are_announced_once(latest: UpdateView, frame: ServerFrameView)
    ensures
        frame_update(latest, frame) matches Some(update) ==> update != latest,
        frame_update(updated(latest, frame_update(latest, frame)), frame) is None,
{
}

/// What a session tells the rest of the program.
#[derive(Debug)]
pub enum StreamEvent {
    Connected,
    Transcript(TranscriptUpdate),
}

/// A [`StreamEvent`] as plain values.
pub enum StreamEventView {
    Connected,
    Transcript(UpdateView),
}

impl View for StreamEvent {
    type V = StreamEventView;

    open spec fn view(&self) -> StreamEventView {
        match *self {
            StreamEvent::Connected => StreamEventView::Connected,
            StreamEvent::Transcript(update) => StreamEventView::Transcript(update@),
        }
    }
}

/// How far a session is.
#[derive(Clone, Copy, Debug, PartialEq, Eq, Structural)]
pub enum Phase {
    /// The connection is being made; the microphone records already.
    Connecting,
    /// Audio is sent as it is recorded.
    Streaming,
    /// The microphone is closed; what it recorded last is collected.
    Draining,
    /// All audio is sent; the last answer is still to come.
    AwaitingFinal,
    Finished,
}

/// Something that happens in a session.
#[derive(Debug)]
pub enum Input {
    /// The user ends the dictation.
    Stop,
    /// The connection is made and the opening request is sent.
    Connected,
    Audio(AudioEvent),
    /// There is no more audio to collect.
    AudioEnded,
    Message(SocketMessage),
    /// The last answer has not come in time.
    FinalTimeout,
}

/// An [`Input`] as plain values.
pub enum InputView {
    Stop,
    Connected,
    Audio(AudioEventView),
    AudioEnded,
    Message(MessageView),
    FinalTimeout,
}

impl View for Input {
    type V = InputView;

    open spec fn view(&self) -> InputView {
        match *self {
            Input::Stop => InputView::Stop,
            Input::Connected => InputView::Connected,
            Input::Audio(event) => InputView::Audio(event@),
            Input::AudioEnded => InputView::AudioEnded,
            Input::Message(message) => InputView::Message(message@),
            Input::FinalTimeout => InputView::FinalTimeout,
        }
    }
}

/// What has to be done next.
#[derive(Debug)]
pub struct Output {
    /// Keep the microphone open for [`CAPTURE_TAIL_MS`], then close it.
    pub finish_capture: bool,
    pub packets: Vec<AudioPacket>,
    pub pong: Option<Vec<u8>>,
    pub event: Option<StreamEvent>,
    /// The transcript that the session ends with.
    pub result: Option<String>,
}

/// An [`Output`] as plain values.
pub struct OutputView {
    pub finish_capture: bool,
    pub packets: Seq<PacketView>,
    pub pong: Option<Seq<u8>>,
    pub event: Option<StreamEventView>,
    pub result: Option<Seq<char>>,
}

impl View for Output {
    type V = OutputView;

    open spec fn view(&self) -> OutputView {
        OutputView {
            finish_capture: self.finish_capture,
            packets: packet_views(self.packets@),
            pong: bytes_view(self.pong),
            event: match self.event {
                Some(event) => Some(event@),
                None => None,
            },
            result: match self.result {
                Some(text) => Some(text@),
                None => None,
            },
        }
    }
}

impl OutputView {
    /// Nothing has to be done.
    pub open spec fn nothing() -> OutputView {
        OutputView {
            finish_capture: false,
            packets: Seq::empty(),
            pong: None,
            event: None,
            result: None,
        }
    }
}

/// The state of a session.
pub struct Recognition {
    pub phase: Phase,
    pub stop_requested: bool,
    pub packets: AudioPackets,
    pub latest: TranscriptUpdate,
}

/// A [`Recognition`] as plain values.
pub struct RecognitionView {
    pub phase: Phase,
    pub stop_requested: bool,
    pub packets: PacketsView,
    pub latest: UpdateView,
}

impl View for Recognition {
    type V = RecognitionView;

    open spec fn view(&self) -> RecognitionView {
        RecognitionView {
            phase: self.phase,
            stop_requested: self.stop_requested,
            packets: self.packets@,
            latest: self.latest@,
        }
    }
}

impl RecognitionView {
    /// The state at the beginning.
    pub open spec fn initial() -> RecognitionView {
        RecognitionView {
            phase: Phase::Connecting,
            stop_requested: false,
            packets: PacketsView { pending: edge_guard(), sequence: 2 },
            latest: UpdateView { text: Seq::empty(), segments: Seq::empty() },
        }
    }

    /// Whether the session waits for an input of this kind.
    pub open spec fn accepts(self, input: InputView) -> bool {
        match self.phase {
            Phase::Connecting => match input {
                InputView::Stop => !self.stop_requested,
                InputView::Connected => true,
                _ => false,
            },
            Phase::Streaming => match input {
                InputView::Stop | InputView::Audio(_) | InputView::AudioEnded | InputView::Message(
                    _,
                ) => true,
                _ => false,
            },
            Phase::Draining => match input {
                InputView::Audio(_) | InputView::AudioEnded => true,
                _ => false,
            },
            Phase::AwaitingFinal => match input {
                InputView::Message(_) | InputView::FinalTimeout => true,
                _ => false,
            },
            Phase::Finished => false,
        }
    }

    /// Whether the packets that an input leads to can be numbered.
    pub open spec fn room(self, input: InputView) -> bool {
        match (self.phase, input) {
            (Phase::Streaming, InputView::Audio(AudioEventView::Data(samples))) =>
                self.packets.room(samples.len()),
            (Phase::Draining, InputView::AudioEnded) => self.packets.room(edge_guard().len()),
            _ => true,
        }
    }

    /// What a message of the service leads to.
    pub open spec fn on_message(self, message: MessageView) -> Result<
        (RecognitionView, OutputView),
        AsrErrorView,
    > {
        match message_outcome(self.latest, message) {
            Err(error) => Err(error),
            Ok(outcome) => {
                let latest = updated(self.latest, outcome.update);
                Ok(
                    (
                        RecognitionView {
                            latest,
                            phase: if outcome.is_last {
                                Phase::Finished
                            } else {
                                self.phase
                            },
                            ..self
                        },
                        OutputView {
                            pong: outcome.pong,
                            event: match outcome.update {
                                Some(update) => Some(StreamEventView::Transcript(update)),
                                None => None,
                            },
                            result: if outcome.is_last {
                                Some(latest.text)
                            } else {
                                None
                            },
                            ..OutputView::nothing()
                        },
                    ),
                )
            },
        }
    }

    /// What an input leads to: the next state and what has to be done, or the error that
    /// ends the session.
    pub open spec fn next(self, input: InputView) -> Result<
        (RecognitionView, OutputView),
        AsrErrorView,
    > {
        match input {
            InputView::Stop => Ok(
                (
                    RecognitionView {
                        stop_requested: true,
                        phase: if self.phase is Streaming {
                            Phase::Draining
                        } else {
                            self.phase
                        },
                        ..self
                    },
                    OutputView { finish_capture: true, ..OutputView::nothing() },
                ),
            ),
            InputView::Connected => Ok(
                (
                    RecognitionView {
                        phase: if self.stop_requested {
                            Phase::Draining
                        } else {
                            Phase::Streaming
                        },
                        ..self
                    },
                    OutputView { event: Some(StreamEventView::Connected), ..OutputView::nothing() },
                ),
            ),
            InputView::Audio(AudioEventView::Error(error)) => Err(
                AsrErrorView::MicrophoneFailed(error),
            ),
            InputView::Audio(AudioEventView::Data(samples)) => {
                let stream = self.packets.pending + samples;
                if self.phase is Streaming {
                    let packets = full_packets(stream, self.packets.sequence);
                    Ok(
                        (
                            RecognitionView {
                                packets: PacketsView {
                                    pending: unsent(stream),
                                    sequence: self.packets.sequence + packets.len(),
                                },
                                ..self
                            },
                            OutputView { packets, ..OutputView::nothing() },
                        ),
                    )
                } else {
                    Ok(
                        (
                            RecognitionView {
                                packets: PacketsView { pending: stream, ..self.packets },
                                ..self
                            },
                            OutputView::nothing(),
                        ),
                    )
                }
            },
            InputView::AudioEnded => if self.phase is Streaming {
                Err(AsrErrorView::MicrophoneStopped)
            } else {
                let packets = all_packets(
                    self.packets.pending + edge_guard(),
                    self.packets.sequence,
                );
                Ok(
                    (
                        RecognitionView {
                            phase: Phase::AwaitingFinal,
                            packets: PacketsView {
                                pending: Seq::empty(),
                                sequence: self.packets.sequence + packets.len() - 1,
                            },
                            ..self
                        },
                        OutputView { packets, ..OutputView::nothing() },
                    ),
                )
            },
            InputView::Message(message) => self.on_message(message),
            InputView::FinalTimeout => if self.latest.text.len() > 0 {
                Ok(
                    (
                        RecognitionView { phase: Phase::Finished, ..self },
                        OutputView { result: Some(self.latest.text), ..OutputView::nothing() },
                    ),
                )
            } else {
                Err(AsrErrorView::FinalTimeout)
            },
        }
    }
}

impl Output {
    fn nothing() -> (result: Output)
        ensures
            result@ == OutputView::nothing(),
    {
        let result = Output {
            finish_capture: false,
            packets: Vec::new(),
            pong: None,
            event: None,
            result: None,
        };
        proof {
            assert(result@.packets =~= Seq::empty());
        }
        result
    }
}

impl Recognition {
    /// The state at the beginning.
    pub fn new() -> (result: Recognition)
        ensures
            result@ == RecognitionView::initial(),
    {
        Recognition {
            phase: Phase::Connecting,
            stop_requested: false,
            packets: AudioPackets::new(),
            latest: TranscriptUpdate::default(),
        }
    }

    /// Whether the packets that an input leads to can be numbered.
    pub fn has_room(&self, input: &Input) -> (result: bool)
        ensures
            result == self@.room(input@),
    {
        match (self.phase, input) {
            (Phase::Streaming, Input::Audio(AudioEvent::Data(chunk))) => self.packets.has_room(
                chunk.samples.len(),
            ),
            (Phase::Draining, Input::AudioEnded) => self.packets.has_room(
                crate::asr::packets::edge_guard_samples(),
            ),
            _ => true,
        }
    }

    /// Takes an input into account: says what has to be done, or why the session ends.
    pub fn step(&mut self, input: Input) -> (result: Result<Output, AsrError>)
        requires
            old(self)@.accepts(input@),
            old(self)@.room(input@),
        ensures
            match result {
                Ok(output) => old(self)@.next(input@) == Ok::<
                    (RecognitionView, OutputView),
                    AsrErrorView,
                >((final(self)@, output@)),
                Err(error) => old(self)@.next(input@) == Err::<
                    (RecognitionView, OutputView),
                    AsrErrorView,
                >(error@) && final(self)@ == old(self)@,
            },
    {
        let mut output = Output::nothing();
        match input {
            Input::Stop => {
                self.stop_requested = true;
                if self.phase == Phase::Streaming {
                    self.phase = Phase::Draining;
                }
                output.finish_capture = true;
            },
            Input::Connected => {
                self.phase = if self.stop_requested {
                    Phase::Draining
                } else {
                    Phase::Streaming
                };
                output.event = Some(StreamEvent::Connected);
            },
            Input::Audio(AudioEvent::Error(error)) => {
                return Err(AsrError::MicrophoneFailed(error));
            },
            Input::Audio(AudioEvent::Data(chunk)) => {
                if self.phase == Phase::Streaming {
                    output.packets = self.packets.push(chunk.samples.as_slice());
                } else {
                    self.packets.absorb(chunk.samples.as_slice());
                }
            },
            Input::AudioEnded => {
                if self.phase == Phase::Streaming {
                    return Err(AsrError::MicrophoneStopped);
                }
                output.packets = self.packets.finish();
                self.phase = Phase::AwaitingFinal;
            },
            Input::Message(message) => {
                let outcome = match handle_message(&message, &mut self.latest) {
                    Ok(outcome) => outcome,
                    Err(error) => {
                        return Err(error);
                    },
                };
                output.pong = outcome.pong;
                output.event = match outcome.update {
                    Some(update) => Some(StreamEvent::Transcript(update)),
                    None => None,
                };
                if outcome.is_last {
                    self.phase = Phase::Finished;
                    output.result = Some(self.latest.text.clone());
                }
            },
            Input::FinalTimeout => {
                if self.latest.text.as_str().unicode_len() == 0 {
                    return Err(AsrError::FinalTimeout);
                }
                self.phase = Phase::Finished;
                output.result = Some(self.latest.text.clone());
            },
        }
        Ok(output)
    }
}

/// The state behind a series of inputs, and the packets that were sent on the way; `None`
/// where an input was not waited for or ended the session with an error.
pub open spec fn run(inputs: Seq<InputView>) -> Option<(RecognitionView, Seq<PacketView>)>
    decreases inputs.len(),
{
    if inputs.len() == 0 {
        Some((RecognitionView::initial(), Seq::empty()))
    } else {
        match run(inputs.drop_last()) {
            None => None,
            Some((state, sent)) => if !state.accepts(inputs.last()) {
                None
            } else {
                match state.next(inputs.last()) {
                    Ok((next, output)) => Some((next, sent + output.packets)),
                    Err(_) => None,
                }
            },
        }
    }
}

/// Whether the program can come upon an input in a phase: while it connects, the connection
/// and one request to end; while it streams, whatever the user, the microphone or the service
/// does; then what the microphone recorded last; and at the end the service or the clock.
pub open spec fn possible(state: RecognitionView, input: InputView) -> bool {
    match state.phase {
        Phase::Connecting => input is Connected || (input is Stop && !state.stop_requested),
        Phase::Streaming => !(input is Connected || input is FinalTimeout),
        Phase::Draining => input is Audio || input is AudioEnded,
        Phase::AwaitingFinal => input is Message || input is FinalTimeout,
        Phase::Finished => false,
    }
}

/// A session takes whatever comes in its phase, and needs room for nothing but audio. The
/// phases follow each other: a session that is connected streams or, where it was ended
/// already, collects the rest; from streaming it goes on to collecting, from there to the last
/// answer; and it is finished exactly where it has a result.
pub proof fn law_each_phase_takes_what_comes(state: RecognitionView, input: InputView)
    requires
        possible(state, input),
    ensures
        state.accepts(input),
        !(input is Audio || input is AudioEnded) ==> state.room(input),
        state.next(input) matches Ok((next, output)) ==> {
            &&& output.result is Some <==> next.phase is Finished
            &&& match state.phase {
                Phase::Connecting => if input is Connected {
                    next.phase is Streaming || next.phase is Draining
                } else {
                    next.phase is Connecting && next.stop_requested
                },
                Phase::Streaming => !(next.phase is Connecting || next.phase is AwaitingFinal)
                    && (next.phase is Draining <==> input is Stop),
                Phase::Draining => if input is AudioEnded {
                    next.phase is AwaitingFinal
                } else {
                    next.phase is Draining
                },
                Phase::AwaitingFinal => next.phase is AwaitingFinal || next.phase is Finished,
                Phase::Finished => false,
            }
        },
{
}

/// The samples that came from the microphone, in order.
pub open spec fn recorded(inputs: Seq<InputView>) -> Seq<i16>
    decreases inputs.len(),
{
    if inputs.len() == 0 {
        Seq::empty()
    } else {
        match inputs.last() {
            InputView::Audio(AudioEventView::Data(samples)) => recorded(inputs.drop_last())
                + samples,
            _ => recorded(inputs.drop_last()),
        }
    }
}

/// What holds of the packets in every phase: whatever audio is still to come, those that
/// were sent are the first ones of the whole stream.
spec fn packets_in_order(
    state: RecognitionView,
    sent: Seq<PacketView>,
    stream: Seq<i16>,
) -> bool {
    match state.phase {
        Phase::Finished => true,
        Phase::AwaitingFinal => sent == all_packets(stream + edge_guard(), 2),
        _ => forall|more: Seq<i16>|
            more.len() > 0 ==> sent + #[trigger] all_packets(
                state.packets.pending + more,
                state.packets.sequence,
            ) == all_packets(stream + more, 2),
    }
}

proof fn lemma_packets_in_order(inputs: Seq<InputView>)
    ensures
        run(inputs) matches Some((state, sent)) ==> packets_in_order(
            state,
            sent,
            edge_guard() + recorded(inputs),
        ),
    decreases inputs.len(),
{
    if run(inputs) is None {
    } else if inputs.len() == 0 {
        assert(edge_guard() + recorded(inputs) =~= edge_guard());
        assert forall|more: Seq<i16>| more.len() > 0 implies Seq::<PacketView>::empty()
            + #[trigger] all_packets(edge_guard() + more, 2) == all_packets(edge_guard() + more, 2)
            by {
            assert(Seq::<PacketView>::empty() + all_packets(edge_guard() + more, 2)
                =~= all_packets(edge_guard() + more, 2));
        }
    } else {
        let front = inputs.drop_last();
        lemma_packets_in_order(front);
        let (state, sent) = run(front)->0;
        let (next, output) = state.next(inputs.last())->Ok_0;
        let stream = edge_guard() + recorded(front);
        let pending = state.packets.pending;
        let sequence = state.packets.sequence;
        match inputs.last() {
            InputView::Audio(AudioEventView::Data(samples)) => {
                assert(edge_guard() + recorded(inputs) =~= stream + samples);
                let now_sent = sent + output.packets;
                assert forall|more: Seq<i16>| more.len() > 0 implies now_sent
                    + #[trigger] all_packets(next.packets.pending + more, next.packets.sequence)
                    == all_packets(stream + samples + more, 2) by {
                    assert(pending + samples + more =~= pending + (samples + more));
                    assert(stream + samples + more =~= stream + (samples + more));
                    assert(sent + all_packets(pending + (samples + more), sequence)
                        == all_packets(stream + (samples + more), 2));
                    if state.phase is Streaming {
                        law_packets_do_not_depend_on_when_they_are_cut(
                            pending + samples,
                            more,
                            sequence,
                        );
                        let rest = all_packets(next.packets.pending + more, next.packets.sequence);
                        assert((sent + output.packets) + rest =~= sent + (output.packets + rest));
                    } else {
                        assert(sent + output.packets =~= sent);
                    }
                }
            },
            InputView::AudioEnded => {
                assert(sent + all_packets(pending + edge_guard(), sequence) == all_packets(
                    stream + edge_guard(),
                    2,
                ));
            },
            _ => {
                assert(sent + output.packets =~= sent);
            },
        }
    }
}

/// The number of the next packet and what is pending tell how much was recorded.
proof fn lemma_packets_are_numbered(inputs: Seq<InputView>)
    ensures
        run(inputs) matches Some((state, _)) ==> (!(state.phase is AwaitingFinal
            || state.phase is Finished) ==> {
            &&& state.packets.sequence >= 2
            &&& state.packets.sequence * 3_200 + state.packets.pending.len() == 3 * 3_200
                + recorded(inputs).len()
        }),
    decreases inputs.len(),
{
    if inputs.len() > 0 && run(inputs) is Some {
        let front = inputs.drop_last();
        lemma_packets_are_numbered(front);
        let (state, _) = run(front)->0;
        if let InputView::Audio(AudioEventView::Data(samples)) = inputs.last() {
            lemma_full_packets_len(state.packets.pending + samples, state.packets.sequence);
        }
    }
}

/// There is room for every recording whose packets can be numbered at all: at five packets a
/// second the numbers last for more than thirteen years.
pub proof fn law_there_is_room_for_recordings(inputs: Seq<InputView>, input: InputView)
    requires
        run(inputs) is Some,
        possible((run(inputs)->0).0, input),
        recorded(inputs.push(input)).len() / 3_200 + 4 < i32::MAX,
        recorded(inputs.push(input)).len() + 2 * 3_200 <= usize::MAX,
    ensures
        (run(inputs)->0).0.room(input),
{
    lemma_packets_are_numbered(inputs);
    assert(inputs.push(input).drop_last() =~= inputs);
    assert(inputs.push(input).last() == input);
}

/// When all audio is sent, the packets are those of one stream: the silence, everything
/// that was recorded, before and behind the end of the dictation, and the silence again,
/// however the microphone cut it up and whenever the connection was made.
pub proof fn law_all_recorded_audio_is_sent(inputs: Seq<InputView>)
    ensures
        run(inputs) matches Some((state, sent)) ==> (state.phase is AwaitingFinal ==> sent
            == all_packets(edge_guard() + recorded(inputs) + edge_guard(), 2)),
{
    lemma_packets_in_order(inputs);
}

/// A dictation that is ended while the connection is still being made goes straight to
/// sending what was recorded; nothing is streamed.
pub proof fn law_stop_while_connecting_keeps_the_audio(inputs: Seq<InputView>)
    requires
        inputs.len() >= 2,
        inputs[0] == InputView::Stop,
        inputs[1] == InputView::Connected,
    ensures
        run(inputs) matches Some((state, _)) ==> !(state.phase is Connecting
            || state.phase is Streaming),
    decreases inputs.len(),
{
    let front = inputs.drop_last();
    if inputs.len() == 2 {
        assert(front.drop_last() =~= Seq::empty());
        reveal_with_fuel(run, 3);
    } else {
        law_stop_while_connecting_keeps_the_audio(front);
    }
}

/// The names of the request's members differ.
proof fn lemma_request_keys_differ()
    ensures
        seq![
            "model_name"@,
            "enable_nonstream"@,
            "end_window_size"@,
            "enable_itn"@,
            "enable_punc"@,
            "enable_ddc"@,
            "show_utterances"@,
            "result_type"@,
        ].no_duplicates(),
        seq!["format"@, "codec"@, "rate"@, "bits"@, "channel"@].no_duplicates(),
        seq!["user"@, "audio"@, "request"@].no_duplicates(),
{
    reveal_strlit("model_name");
    reveal_strlit("enable_nonstream");
    reveal_strlit("end_window_size");
    reveal_strlit("enable_itn");
    reveal_strlit("enable_punc");
    reveal_strlit("enable_ddc");
    reveal_strlit("show_utterances");
    reveal_strlit("result_type");
    reveal_strlit("format");
    reveal_strlit("codec");
    reveal_strlit("rate");
    reveal_strlit("bits");
    reveal_strlit("channel");
    reveal_strlit("user");
    reveal_strlit("audio");
    reveal_strlit("request");
    assert("model_name"@[0] == 'm');
    assert("enable_itn"@[7] == 'i');
    assert("enable_ddc"@[7] == 'd');
    assert("enable_punc"@[0] == 'e');
    assert("result_type"@[0] == 'r');
    assert("end_window_size"@[0] == 'e');
    assert("show_utterances"@[0] == 's');
    assert("codec"@[0] == 'c');
    assert("rate"@[0] == 'r');
    assert("bits"@[0] == 'b');
    let request = seq![
        "model_name"@,
        "enable_nonstream"@,
        "end_window_size"@,
        "enable_itn"@,
        "enable_punc"@,
        "enable_ddc"@,
        "show_utterances"@,
        "result_type"@,
    ];
    assert forall|i: int, j: int| 0 <= i < 8 && 0 <= j < 8 && i != j implies request[i]
        != request[j] by {
        assert(request[i].len() != request[j].len() || request[i][0] != request[j][0]
            || request[i][7] != request[j][7]);
    }
    assert("format"@.len() == 6 && "codec"@.len() == 5 && "rate"@.len() == 4 && "bits"@.len() == 4
        && "channel"@.len() == 7);
    let audio = seq!["format"@, "codec"@, "rate"@, "bits"@, "channel"@];
    assert forall|i: int, j: int| 0 <= i < 5 && 0 <= j < 5 && i != j implies audio[i]
        != audio[j] by {
        assert(audio[i].len() != audio[j].len() || audio[i][0] != audio[j][0]);
    }
    assert("user"@.len() == 4 && "audio"@.len() == 5 && "request"@.len() == 7);
}

/// The request that opens a session asks for a second pass, for written numbers, for
/// punctuation and for the utterances of the full result, and not for smoothing; it announces
/// raw 16-bit mono audio at 16 kHz and a pause of 400 ms between utterances.
pub proof fn law_the_request_asks_for_readable_text()
    ensures
        request_tree().get("request"@) matches Some(request) && {
            &&& request.get("enable_nonstream"@) == Some(JsonTree::Bool(true))
            &&& request.get("enable_itn"@) == Some(JsonTree::Bool(true))
            &&& request.get("enable_punc"@) == Some(JsonTree::Bool(true))
            &&& request.get("show_utterances"@) == Some(JsonTree::Bool(true))
            &&& request.get("enable_ddc"@) == Some(JsonTree::Bool(false))
            &&& request.get("result_type"@) == Some(JsonTree::Text("full"@))
            &&& request.get("model_name"@) == Some(JsonTree::Text("bigmodel"@))
            &&& request.get("end_window_size"@) == Some(JsonTree::Number(whole_number(400)))
        },
        request_tree().get("audio"@) matches Some(audio) && {
            &&& audio.get("format"@) == Some(JsonTree::Text("pcm"@))
            &&& audio.get("codec"@) == Some(JsonTree::Text("raw"@))
            &&& audio.get("rate"@) == Some(JsonTree::Number(whole_number(16_000)))
            &&& audio.get("bits"@) == Some(JsonTree::Number(whole_number(16)))
            &&& audio.get("channel"@) == Some(JsonTree::Number(whole_number(1)))
        },
        request_tree().get("user"@) matches Some(user) && user.get("uid"@) == Some(
            JsonTree::Text("voice-flow"@),
        ),
{
    lemma_request_keys_differ();
    let keys = seq![
        "model_name"@,
        "enable_nonstream"@,
        "end_window_size"@,
        "enable_itn"@,
        "enable_punc"@,
        "enable_ddc"@,
        "show_utterances"@,
        "result_type"@,
    ];
    assert(keys[0] == "model_name"@ && keys[1] == "enable_nonstream"@ && keys[2]
        == "end_window_size"@ && keys[3] == "enable_itn"@ && keys[4] == "enable_punc"@ && keys[5]
        == "enable_ddc"@ && keys[6] == "show_utterances"@ && keys[7] == "result_type"@);
    let audio = seq!["format"@, "codec"@, "rate"@, "bits"@, "channel"@];
    assert(audio[0] == "format"@ && audio[1] == "codec"@ && audio[2] == "rate"@ && audio[3]
        == "bits"@ && audio[4] == "channel"@);
    let parts = seq!["user"@, "audio"@, "request"@];
    assert(parts[0] == "user"@ && parts[1] == "audio"@ && parts[2] == "request"@);
}

/// The headers say which service is meant, name the session twice, and carry the key as it
/// is.
pub proof fn law_headers_carry_the_session_and_the_key(
    session_id: Seq<char>,
    secret_key: Seq<char>,
)
    ensures
        ({
            let headers = header_list(session_id, secret_key);
            &&& headers.len() == 5
            &&& headers.contains(("x-api-resource-id"@, "volc.seedasr.sauc.duration"@))
            &&& headers.contains(("x-api-connect-id"@, session_id))
            &&& headers.contains(("x-api-request-id"@, session_id))
            &&& headers.contains(("x-api-sequence"@, "-1"@))
            &&& headers.contains(("x-api-key"@, secret_key))
        }),
{
    let headers = header_list(session_id, secret_key);
    assert(headers[0] == ("x-api-resource-id"@, "volc.seedasr.sauc.duration"@));
    assert(headers[1] == ("x-api-connect-id"@, session_id));
    assert(headers[2] == ("x-api-request-id"@, session_id));
    assert(headers[3] == ("x-api-sequence"@, "-1"@));
    assert(headers[4] == ("x-api-key"@, secret_key));
}

/// A transcript that comes in is the latest one from then on, whether it is longer or shorter
/// than what was known, and is announced exactly where it differs from that; a frame without a
/// transcript changes nothing and is not announced.
pub proof fn law_revisions_become_the_latest(latest: UpdateView, frame: ServerFrameView)
    ensures
        match payload_transcript(frame.payload) {
            Some(transcript) => {
                &&& updated(latest, frame_update(latest, frame)) == transcript
                &&& frame_update(latest, frame) is Some <==> transcript != latest
                &&& frame_update(latest, frame) matches Some(announced) ==> announced == transcript
            },
            None => {
                &&& updated(latest, frame_update(latest, frame)) == latest
                &&& frame_update(latest, frame) is None
            },
        },
{
}

/// An answer of the service: its transcript becomes the latest one and is announced where it
/// is new; the last answer, and no other, ends the session with the latest text.
pub proof fn law_answers_carry_the_transcript(
    state: RecognitionView,
    data: Seq<u8>,
    frame: ServerFrameView,
)
    requires
        server_frame(data) == Ok::<ServerFrameView, ProtocolErrorView>(frame),
    ensures
        state.next(InputView::Message(MessageView::Binary(data))) matches Ok((next, output)) && {
            &&& match payload_transcript(frame.payload) {
                Some(transcript) => {
                    &&& next.latest == transcript
                    &&& if transcript != state.latest {
                        output.event == Some(StreamEventView::Transcript(transcript))
                    } else {
                        output.event is None
                    }
                    &&& frame.is_last ==> output.result == Some(transcript.text)
                },
                None => {
                    &&& next.latest == state.latest
                    &&& output.event is None
                    &&& frame.is_last ==> output.result == Some(state.latest.text)
                },
            }
            &&& !frame.is_last ==> output.result is None && next.phase == state.phase
            &&& frame.is_last ==> next.phase is Finished
            &&& next.packets == state.packets && next.stop_requested == state.stop_requested
            &&& output.packets.len() == 0 && output.pong is None && !output.finish_capture
        },
{
    law_revisions_become_the_latest(state.latest, frame);
}

/// What else the service sends: a frame that cannot be read ends the session with the error
/// that it has; a ping is answered with its own payload and changes nothing; the end of the
/// connection is an error.
pub proof fn law_other_messages_are_handled(
    state: RecognitionView,
    bytes: Seq<u8>,
    text: Seq<char>,
)
    ensures
        server_frame(bytes) matches Err(error) ==> state.next(
            InputView::Message(MessageView::Binary(bytes)),
        ) == Err::<(RecognitionView, OutputView), AsrErrorView>(AsrErrorView::Protocol(error)),
        state.next(InputView::Message(MessageView::Ping(bytes))) matches Ok((next, output)) && {
            &&& next == state
            &&& output.pong == Some(bytes)
            &&& output.event is None && output.result is None && output.packets.len() == 0
                && !output.finish_capture
        },
        state.next(InputView::Message(MessageView::Other)) matches Ok((next, output)) && {
            &&& next == state
            &&& output.pong is None && output.event is None && output.result is None
                && output.packets.len() == 0 && !output.finish_capture
        },
        state.next(InputView::Message(MessageView::Close(text))) == Err::<
            (RecognitionView, OutputView),
            AsrErrorView,
        >(AsrErrorView::Closed(text)),
        state.next(InputView::Message(MessageView::Failed)) == Err::<
            (RecognitionView, OutputView),
            AsrErrorView,
        >(AsrErrorView::ReceiveFailed),
        state.next(InputView::Message(MessageView::Ended)) == Err::<
            (RecognitionView, OutputView),
            AsrErrorView,
        >(AsrErrorView::Ended),
{
}

/// The transcript that an input brings.
pub open spec fn said(input: InputView) -> Option<UpdateView> {
    match input {
        InputView::Message(MessageView::Binary(data)) => match server_frame(data) {
            Ok(frame) => payload_transcript(frame.payload),
            Err(_) => None,
        },
        _ => None,
    }
}

/// The latest transcript of a session is the one that came in last, whatever came before it.
pub proof fn law_the_last_transcript_counts(inputs: Seq<InputView>, index: int)
    requires
        0 <= index < inputs.len(),
        said(inputs[index]) is Some,
        forall|i: int| index < i < inputs.len() ==> said(#[trigger] inputs[i]) is None,
    ensures
        run(inputs) matches Some((state, _)) ==> Some(state.latest) == said(inputs[index]),
    decreases inputs.len(),
{
    if run(inputs) is Some {
        let front = inputs.drop_last();
        let (state, _) = run(front)->0;
        if let InputView::Message(MessageView::Binary(data)) = inputs.last() {
            if let Ok(frame) = server_frame(data) {
                law_answers_carry_the_transcript(state, data, frame);
            }
        }
        if index < inputs.len() - 1 {
            assert(front[index] == inputs[index]);
            assert forall|i: int| index < i < front.len() implies said(#[trigger] front[i]) is None by {
                assert(front[i] == inputs[i]);
            }
            law_the_last_transcript_counts(front, index);
            assert(said(inputs[inputs.len() - 1]) is None);
        }
    }
}

/// A session in which nothing was said has an empty transcript.
pub proof fn law_silence_has_no_transcript(inputs: Seq<InputView>)
    requires
        forall|i: int| 0 <= i < inputs.len() ==> said(#[trigger] inputs[i]) is None,
    ensures
        run(inputs) matches Some((state, _)) ==> state.latest.text.len() == 0
            && state.latest.segments.len() == 0,
    decreases inputs.len(),
{
    if inputs.len() > 0 && run(inputs) is Some {
        let front = inputs.drop_last();
        let (state, _) = run(front)->0;
        assert forall|i: int| 0 <= i < front.len() implies said(#[trigger] front[i]) is None by {
            assert(front[i] == inputs[i]);
        }
        law_silence_has_no_transcript(front);
        assert(said(inputs[inputs.len() - 1]) is None);
        if let InputView::Message(MessageView::Binary(data)) = inputs.last() {
            if let Ok(frame) = server_frame(data) {
                law_answers_carry_the_transcript(state, data, frame);
            }
        }
    }
}

/// A session ends with a text only by the last answer of the service or, where that does not
/// come in time, with the latest text if there is one; the text is the latest one.
pub proof fn law_sessions_end_with_the_latest_text(state: RecognitionView, input: InputView)
    requires
        state.accepts(input),
    ensures
        state.next(input) matches Ok((next, output)) ==> (output.result matches Some(text) ==> {
            &&& text == next.latest.text
            &&& input is FinalTimeout || input is Message
            &&& input is FinalTimeout ==> text.len() > 0
        }),
        input is FinalTimeout ==> if state.latest.text.len() > 0 {
            state.next(input) matches Ok((next, output)) && output.result == Some(
                state.latest.text,
            ) && next.phase is Finished
        } else {
            state.next(input) == Err::<(RecognitionView, OutputView), AsrErrorView>(
                AsrErrorView::FinalTimeout,
            )
        },
{
}

/// The end of a dictation closes the microphone after its tail, sends nothing by itself, and
/// leaves what was recorded and recognized as it is.
pub proof fn law_stopping_keeps_everything(state: RecognitionView)
    ensures
        state.next(InputView::Stop) matches Ok((next, output)) && {
            &&& output.finish_capture
            &&& output.packets.len() == 0 && output.event is None && output.result is None
            &&& next.stop_requested
            &&& next.packets == state.packets && next.latest == state.latest
            &&& state.phase is Streaming ==> next.phase is Draining
            &&& !(state.phase is Streaming) ==> next.phase == state.phase
        },
{
}

/// A connection is announced once it is made; a session that was ended before goes straight to
/// what is left of its audio.
pub proof fn law_connections_are_announced(state: RecognitionView)
    ensures
        state.next(InputView::Connected) matches Ok((next, output)) && {
            &&& output.event == Some(StreamEventView::Connected)
            &&& output.packets.len() == 0 && output.result is None && !output.finish_capture
            &&& next.phase is Draining <==> state.stop_requested
            &&& next.phase is Streaming <==> !state.stop_requested
            &&& next.packets == state.packets && next.latest == state.latest
        },
{
}

/// A microphone that fails ends the session with its error, and one that stops while it is
/// needed does too.
pub proof fn law_microphone_failures_end_the_session(state: RecognitionView, error: Seq<char>)
    ensures
        state.next(InputView::Audio(AudioEventView::Error(error))) == Err::<
            (RecognitionView, OutputView),
            AsrErrorView,
        >(AsrErrorView::MicrophoneFailed(error)),
        state.phase is Streaming ==> state.next(InputView::AudioEnded) == Err::<
            (RecognitionView, OutputView),
            AsrErrorView,
        >(AsrErrorView::MicrophoneStopped),
{
}

/// While a session streams, audio is not held back: less than a packet stays behind after
/// every chunk. Once the microphone is closed, nothing is sent before all is collected.
pub proof fn law_audio_is_not_held_back(state: RecognitionView, samples: Seq<i16>)
    ensures
        state.next(InputView::Audio(AudioEventView::Data(samples))) matches Ok((next, output)) && {
            &&& state.phase is Streaming ==> next.packets.pending.len() < 3_200
                && output.packets.len() * 3_200 + next.packets.pending.len()
                == state.packets.pending.len() + samples.len()
            &&& !(state.phase is Streaming) ==> output.packets.len() == 0
                && next.packets.pending == state.packets.pending + samples
            &&& next.latest == state.latest && next.phase == state.phase
            &&& output.event is None && output.result is None && !output.finish_capture
        },
{
    lemma_full_packets_len(state.packets.pending + samples, state.packets.sequence);
}

/// The audio that is sent is what was recorded, between 3200 samples of silence before it and
/// as many behind it, each sample once and in order; the packets are numbered from 2 on, none
/// is longer than 3200 samples, and the last one alone is marked.
pub proof fn law_recordings_are_sent_between_silences(inputs: Seq<InputView>)
    ensures
        run(inputs) matches Some((state, sent)) ==> (state.phase is AwaitingFinal ==> {
            let stream = packet_samples(sent);
            &&& stream.len() == recorded(inputs).len() + 6_400
            &&& forall|i: int| 0 <= i < 3_200 ==> #[trigger] stream[i] == 0
            &&& stream.subrange(3_200, stream.len() - 3_200) == recorded(inputs)
            &&& forall|i: int|
                stream.len() - 3_200 <= i < stream.len() ==> #[trigger] stream[i] == 0
            &&& forall|i: int|
                0 <= i < sent.len() ==> (#[trigger] sent[i]).sequence == 2 + i
                    && sent[i].samples.len() <= 3_200 && (sent[i].is_last <==> i == sent.len() - 1)
        }),
{
    law_all_recorded_audio_is_sent(inputs);
    if let Some((state, sent)) = run(inputs) {
        let whole = edge_guard() + recorded(inputs) + edge_guard();
        law_packets_hold_the_stream(whole, 2);
        if state.phase is AwaitingFinal {
            assert(whole.subrange(3_200, whole.len() - 3_200) =~= recorded(inputs));
            assert forall|i: int| 0 <= i < sent.len() implies (#[trigger] sent[i]).sequence == 2 + i
                && sent[i].samples.len() <= 3_200 && (sent[i].is_last <==> i == sent.len() - 1) by {
                if i == sent.len() - 1 {
                    assert(sent[i] == sent.last());
                }
            }
        }
    }
}

/// The request that opens a session asks for nothing else than its eight members say.
pub proof fn law_the_request_asks_for_nothing_else(key: Seq<char>)
    ensures
        request_tree().get(key) is Some ==> key == "user"@ || key == "audio"@ || key == "request"@,
        request_tree().get("request"@) matches Some(request) && (request.get(key) is Some ==> key
            == "model_name"@ || key == "enable_nonstream"@ || key == "end_window_size"@ || key
            == "enable_itn"@ || key == "enable_punc"@ || key == "enable_ddc"@ || key
            == "show_utterances"@ || key == "result_type"@),
        request_tree().get("audio"@) matches Some(audio) && (audio.get(key) is Some ==> key
            == "format"@ || key == "codec"@ || key == "rate"@ || key == "bits"@ || key
            == "channel"@),
{
    law_the_request_asks_for_readable_text();
    lemma_request_keys_differ();
    let parts = seq!["user"@, "audio"@, "request"@];
    assert(parts[0] == "user"@ && parts[1] == "audio"@ && parts[2] == "request"@);
}

/// A session begins by connecting, with nothing recognized, nothing to end it, and the silence
/// before the recording to be sent in the packet that comes behind the request.
pub proof fn law_sessions_begin_with_silence()
    ensures
        ({
            let state = RecognitionView::initial();
            &&& state.phase is Connecting && !state.stop_requested
            &&& state.latest.text.len() == 0 && state.latest.segments.len() == 0
            &&& state.packets.sequence == 2
            &&& state.packets.pending.len() == 3_200
            &&& forall|i: int| 0 <= i < 3_200 ==> #[trigger] state.packets.pending[i] == 0
        }),
{
}

/// An error tells its cause whole where it has one.
pub proof fn law_recognition_errors_tell_their_cause(
    cause: Seq<char>,
    protocol: ProtocolErrorView,
    config: ConfigErrorView,
)
    ensures
        AsrErrorView::MicrophoneFailed(cause).message() == "microphone capture failed: "@ + cause,
        AsrErrorView::Closed(cause).message() == "ASR WebSocket closed before the final result: "@
            + cause,
        AsrErrorView::Protocol(protocol).message() == protocol.message(),
        AsrErrorView::Config(config).message() == config.message(),
{
}

/// Every character but the ASCII controls may stand in a header, and of these the tab.
pub proof fn law_header_characters(text: Seq<char>, c: char)
    ensures
        header_text(Seq::empty()),
        header_text(text.push(c)) <==> header_text(text) && (c as u32 == 9 || (c as u32 > 31
            && c as u32 != 127)),
{
    let longer = text.push(c);
    if header_text(longer) {
        assert(header_char(longer[text.len() as int]));
        assert forall|i: int| 0 <= i < text.len() implies header_char(#[trigger] text[i]) by {
            assert(longer[i] == text[i]);
        }
    }
    if header_text(text) && header_char(c) {
        assert forall|i: int| 0 <= i < longer.len() implies header_char(#[trigger] longer[i]) by {
            if i < text.len() {
                assert(longer[i] == text[i]);
            }
        }
    }
}

/// While a session streams, what comes in and what was left before is what is sent and what is
/// left, in order; the packets are numbered on, and none is marked as the last.
pub proof fn law_streamed_audio_is_in_order(state: RecognitionView, samples: Seq<i16>)
    requires
        state.phase is Streaming,
    ensures
        state.next(InputView::Audio(AudioEventView::Data(samples))) matches Ok((next, output)) && {
            &&& packet_samples(output.packets) + next.packets.pending == state.packets.pending
                + samples
            &&& next.packets.sequence == state.packets.sequence + output.packets.len()
            &&& forall|i: int|
                0 <= i < output.packets.len() ==> (#[trigger] output.packets[i]).sequence
                    == state.packets.sequence + i && !output.packets[i].is_last
        },
{
    law_full_packets_hold_the_stream(state.packets.pending + samples, state.packets.sequence);
}

/// When the microphone is closed at the end of a dictation, all that is left is sent, with the
/// silence behind it; the last packet alone is marked, and nothing is left.
pub proof fn law_the_rest_is_sent_at_the_end(state: RecognitionView)
    requires
        state.phase is Draining,
    ensures
        state.next(InputView::AudioEnded) matches Ok((next, output)) && {
            &&& next.phase is AwaitingFinal
            &&& next.packets.pending.len() == 0
            &&& next.latest == state.latest && next.stop_requested == state.stop_requested
            &&& output.event is None && output.result is None && !output.finish_capture
            &&& packet_samples(output.packets).len() == state.packets.pending.len() + 3_200
            &&& packet_samples(output.packets).take(state.packets.pending.len() as int)
                == state.packets.pending
            &&& forall|i: int|
                state.packets.pending.len() <= i < packet_samples(output.packets).len()
                    ==> #[trigger] packet_samples(output.packets)[i] == 0
            &&& output.packets.len() > 0
            &&& output.packets.last().sequence == next.packets.sequence
            &&& forall|i: int|
                0 <= i < output.packets.len() ==> (#[trigger] output.packets[i]).sequence
                    == state.packets.sequence + i && (output.packets[i].is_last <==> i
                    == output.packets.len() - 1)
        },
{
    let whole = state.packets.pending + edge_guard();
    law_packets_hold_the_stream(whole, state.packets.sequence);
    assert(whole.take(state.packets.pending.len() as int) =~= state.packets.pending);
    let packets = all_packets(whole, state.packets.sequence);
    assert(packets.last() == packets[packets.len() - 1]);
}

} // verus!
