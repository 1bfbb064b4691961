use voice_flow::asr::packets::{
    edge_guard_samples, packet_frame, AudioPacket, AudioPackets, AUDIO_PACKET_SAMPLES,
};
use voice_flow::asr::protocol::{decode_bytes, full_request, header, TranscriptUpdate};
use voice_flow::asr::session::{
    handle_message, opening_request, request_headers, request_payload, session_headers, AsrError,
    Input, Phase, Recognition, SocketMessage, StreamEvent,
};
use voice_flow::asr_options::{AUDIO_EDGE_GUARD_MS, VAD_END_WINDOW_MS};
use voice_flow::audio::{AudioChunk, AudioEvent, TARGET_SAMPLE_RATE};
use voice_flow::config::{AppConfig, ConfigError};
use voice_flow::json::write_json;
use voice_flow::platform::Platform;

fn response(flags: u8, text: &str) -> Vec<u8> {
    let body = format!("{{\"result\":{{\"text\":\"{text}\"}}}}").into_bytes();
    let mut frame = header(9, flags, 1, 0);
    frame.extend_from_slice(&(body.len() as u32).to_be_bytes());
    frame.extend_from_slice(&body);
    frame
}

fn data(samples: Vec<i16>) -> Input {
    Input::Audio(AudioEvent::Data(AudioChunk { samples }))
}

#[test]
fn production_request_enables_asr_second_pass() {
    let payload = request_payload();
    assert_eq!(
        payload.get("request").unwrap().get("enable_nonstream").unwrap().as_bool(),
        Some(true)
    );
    assert_eq!(
        payload.get("request").unwrap().get("end_window_size").unwrap().as_u64(),
        Some(VAD_END_WINDOW_MS)
    );
}

#[test]
fn production_audio_has_an_edge_guard() {
    assert_eq!(AUDIO_EDGE_GUARD_MS, 200);
    assert_eq!(
        TARGET_SAMPLE_RATE as usize * AUDIO_EDGE_GUARD_MS / 1_000,
        3_200
    );
}

#[test]
fn opening_request_describes_the_audio() {
    let payload = request_payload();
    let audio = payload.get("audio").unwrap();
    assert_eq!(audio.get("rate").unwrap().as_u64(), Some(16_000));
    assert_eq!(audio.get("bits").unwrap().as_u64(), Some(16));
    assert_eq!(audio.get("channel").unwrap().as_u64(), Some(1));
    assert_eq!(audio.get("format").unwrap().as_str(), Some("pcm"));
    assert_eq!(payload.get("user").unwrap().get("uid").unwrap().as_str(), Some("voice-flow"));
    let request = payload.get("request").unwrap();
    assert_eq!(request.get("enable_ddc").unwrap().as_bool(), Some(false));
    assert_eq!(request.get("result_type").unwrap().as_str(), Some("full"));
}

#[test]
fn headers_identify_the_session() {
    let headers = request_headers("id-1", "secret").unwrap();
    let pairs: Vec<(&str, &str)> =
        headers.iter().map(|header| (header.name, header.value.as_str())).collect();
    assert_eq!(
        pairs,
        [
            ("x-api-resource-id", "volc.seedasr.sauc.duration"),
            ("x-api-connect-id", "id-1"),
            ("x-api-request-id", "id-1"),
            ("x-api-sequence", "-1"),
            ("x-api-key", "secret"),
        ]
    );
    for refused in ["line\nbreak", "\u{7f}", "nul\0"] {
        let error = request_headers("id", refused).unwrap_err();
        assert!(matches!(error, AsrError::InvalidSecretKey));
        assert_eq!(error.message(), "Secret Key is not a valid header");
    }
    for accepted in ["", "tab\there", "ключ", "密钥"] {
        assert!(request_headers("id", accepted).is_ok());
    }
}

#[test]
fn packets_begin_and_end_with_silence() {
    assert_eq!(edge_guard_samples(), 3_200);
    let mut packets = AudioPackets::new();
    assert!(packets.has_room(100));
    let first = packets.push(&[1; 100]);
    assert_eq!(first.len(), 1);
    assert_eq!(first[0].sequence, 2);
    assert!(!first[0].is_last);
    assert!(first[0].samples.iter().all(|sample| *sample == 0));
    packets.absorb(&[2; 50]);
    let rest = packets.finish();
    assert_eq!(rest.len(), 2);
    assert_eq!((rest[0].sequence, rest[1].sequence), (3, 4));
    assert_eq!((rest[0].is_last, rest[1].is_last), (false, true));
    assert_eq!(rest[0].samples.len(), AUDIO_PACKET_SAMPLES);
    assert_eq!(&rest[0].samples[..150], [vec![1; 100], vec![2; 50]].concat());
    assert_eq!(rest[1].samples.len(), 150);
}

#[test]
fn chunking_does_not_change_the_packets() {
    let recording: Vec<i16> = (0..10_000).map(|i| (i % 251) as i16).collect();
    let mut whole = AudioPackets::new();
    let mut expected = whole.push(&recording);
    expected.extend(whole.finish());
    for size in [1, 7, 160, 3_200, 3_201, 9_999] {
        let mut cut = AudioPackets::new();
        let mut packets = Vec::new();
        for chunk in recording.chunks(size) {
            packets.extend(cut.push(chunk));
        }
        packets.extend(cut.finish());
        assert_eq!(packets.len(), expected.len());
        for (packet, other) in packets.iter().zip(&expected) {
            assert_eq!(packet.samples, other.samples);
            assert_eq!(packet.sequence, other.sequence);
            assert_eq!(packet.is_last, other.is_last);
        }
    }
}

#[test]
fn packets_are_framed() {
    let packet = AudioPacket { sequence: 4, samples: vec![1, -1], is_last: true };
    let frame = packet_frame(&packet).unwrap();
    assert_eq!(frame[1], 0x23);
    assert_eq!(i32::from_be_bytes(frame[4..8].try_into().unwrap()), -4);
}

#[test]
fn a_session_runs_to_its_result() {
    let mut session = Recognition::new();
    let output = session.step(Input::Connected).unwrap();
    assert!(matches!(output.event, Some(StreamEvent::Connected)));
    assert_eq!(session.phase, Phase::Streaming);

    let output = session.step(data(vec![5; 3_200])).unwrap();
    assert_eq!(output.packets.len(), 2);

    let output = session.step(Input::Message(SocketMessage::Binary(response(0, "hal")))).unwrap();
    assert!(matches!(output.event, Some(StreamEvent::Transcript(update)) if update.text == "hal"));
    let output = session.step(Input::Message(SocketMessage::Binary(response(0, "hal")))).unwrap();
    assert!(output.event.is_none());

    let output = session.step(Input::Stop).unwrap();
    assert!(output.finish_capture);
    assert_eq!(session.phase, Phase::Draining);
    assert!(session.step(data(vec![6; 10])).unwrap().packets.is_empty());
    let output = session.step(Input::AudioEnded).unwrap();
    assert_eq!(output.packets.len(), 2);
    assert!(output.packets[1].is_last);
    assert_eq!(session.phase, Phase::AwaitingFinal);

    let output = session.step(Input::Message(SocketMessage::Binary(response(2, "hallo")))).unwrap();
    assert_eq!(output.result.as_deref(), Some("hallo"));
    assert_eq!(session.phase, Phase::Finished);
}

#[test]
fn stopping_early_keeps_the_recording() {
    let mut session = Recognition::new();
    assert!(session.step(Input::Stop).unwrap().finish_capture);
    assert_eq!(session.phase, Phase::Connecting);
    session.step(Input::Connected).unwrap();
    assert_eq!(session.phase, Phase::Draining);
    session.step(data(vec![7; 100])).unwrap();
    assert!(session.has_room(&Input::AudioEnded));
    let output = session.step(Input::AudioEnded).unwrap();
    let sent: Vec<i16> = output.packets.iter().flat_map(|packet| packet.samples.clone()).collect();
    assert_eq!(sent, [vec![0; 3_200], vec![7; 100], vec![0; 3_200]].concat());
}

#[test]
fn a_missing_last_answer_uses_the_latest_text() {
    let mut session = Recognition::new();
    session.step(Input::Connected).unwrap();
    session.step(Input::Message(SocketMessage::Binary(response(0, "so far")))).unwrap();
    session.step(Input::Stop).unwrap();
    session.step(Input::AudioEnded).unwrap();
    let output = session.step(Input::FinalTimeout).unwrap();
    assert_eq!(output.result.as_deref(), Some("so far"));

    let mut session = Recognition::new();
    session.step(Input::Connected).unwrap();
    session.step(Input::Stop).unwrap();
    session.step(Input::AudioEnded).unwrap();
    let error = session.step(Input::FinalTimeout).unwrap_err();
    assert_eq!(error.message(), "timed out waiting for the final ASR response");
}

#[test]
fn microphone_errors_end_the_session() {
    let mut session = Recognition::new();
    session.step(Input::Connected).unwrap();
    let error = session.step(Input::Audio(AudioEvent::Error("gone".to_owned()))).unwrap_err();
    assert_eq!(error.message(), "microphone capture failed: gone");
    let error = session.step(Input::AudioEnded).unwrap_err();
    assert_eq!(error.message(), "microphone capture stopped unexpectedly");
}

#[test]
fn messages_are_handled_by_kind() {
    let mut latest = TranscriptUpdate::default();
    let outcome = handle_message(&SocketMessage::Ping(vec![1, 2]), &mut latest).unwrap();
    assert_eq!(outcome.pong, Some(vec![1, 2]));
    assert!(!outcome.is_last);
    let outcome = handle_message(&SocketMessage::Other, &mut latest).unwrap();
    assert!(outcome.pong.is_none() && outcome.update.is_none() && !outcome.is_last);
    let error = handle_message(&SocketMessage::Close("None".to_owned()), &mut latest).unwrap_err();
    assert_eq!(error.message(), "ASR WebSocket closed before the final result: None");
    let error = handle_message(&SocketMessage::Failed, &mut latest).unwrap_err();
    assert_eq!(error.message(), "ASR WebSocket receive failed");
    let error = handle_message(&SocketMessage::Ended, &mut latest).unwrap_err();
    assert_eq!(error.message(), "ASR WebSocket ended before the final result");
    let error = handle_message(&SocketMessage::Binary(vec![]), &mut latest).unwrap_err();
    assert!(matches!(error, AsrError::Protocol(_)));
    assert_eq!(latest.text, "");
    handle_message(&SocketMessage::Binary(response(0, "x")), &mut latest).unwrap();
    assert_eq!(latest.text, "x");
}

#[test]
fn session_errors_have_messages() {
    let expected = [
        (AsrError::Config(ConfigError::SecretKeyRequired), "Secret Key is required"),
        (AsrError::InvalidRequest, "failed to create the VolcEngine WebSocket request"),
        (AsrError::ConnectTimeout, "timed out while connecting to VolcEngine ASR"),
        (AsrError::ConnectFailed, "failed to connect to VolcEngine ASR"),
        (AsrError::RequestTimeout, "timed out sending the initial ASR request"),
        (AsrError::RequestFailed, "failed to send the initial ASR request"),
        (AsrError::AudioTimeout, "timed out streaming microphone audio to VolcEngine"),
        (AsrError::AudioFailed, "failed to stream microphone audio to VolcEngine"),
        (AsrError::PongFailed, "failed to answer the ASR WebSocket ping"),
    ];
    for (error, message) in expected {
        assert_eq!(error.message(), message);
    }
}

#[test]
fn the_first_frame_carries_the_request() {
    let frame = opening_request().unwrap();
    assert_eq!(frame, full_request(1, &request_payload()).unwrap());
    assert_eq!(&frame[..8], [0x11, 0x11, 0x11, 0, 0, 0, 0, 1]);
    assert_eq!(
        decode_bytes(1, &frame[12..]).unwrap(),
        write_json(&request_payload()).unwrap()
    );
}

#[test]
fn settings_are_checked_before_connecting() {
    let mut config = AppConfig::default_for(Platform::Linux);
    assert!(matches!(
        session_headers(&config, "id", Platform::Linux),
        Err(AsrError::Config(ConfigError::SecretKeyRequired))
    ));
    config.secret_key = "line\nbreak".to_owned();
    assert!(matches!(
        session_headers(&config, "id", Platform::Linux),
        Err(AsrError::InvalidSecretKey)
    ));
    config.secret_key = "secret".to_owned();
    let headers = session_headers(&config, "id", Platform::Linux).unwrap();
    assert_eq!(headers.len(), 5);
    assert_eq!((headers[4].name, headers[4].value.as_str()), ("x-api-key", "secret"));
    config.shortcut = "Nothing".to_owned();
    assert!(matches!(
        session_headers(&config, "id", Platform::Linux),
        Err(AsrError::Config(ConfigError::Shortcut(_)))
    ));
}
