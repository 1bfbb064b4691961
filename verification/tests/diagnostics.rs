use voice_flow::config::{AppConfig, InteractionMode};
use voice_flow::diagnostics::retention::{
    comes_first, name_order, prune_old_sessions, session_directory,
};
use voice_flow::diagnostics::wave::{write_wave_header, WaveError, WaveWriter};
use voice_flow::diagnostics::{
    DiagnosticSession, SessionContext, SessionStatus, SessionTimings, UpdateKind,
};
use voice_flow::logging::{should_truncate, MAX_LOG_BYTES};
use voice_flow::platform::Platform;

fn apply(file: &mut Vec<u8>, wave: &WaveWriter) {
    for patch in wave.checkpoint().unwrap() {
        let start = patch.offset as usize;
        file[start..start + patch.bytes.len()].copy_from_slice(&patch.bytes);
    }
}

fn session() -> DiagnosticSession {
    let (wave, _) = WaveWriter::create();
    DiagnosticSession::start(
        "id",
        &AppConfig::default_for(Platform::Linux),
        250,
        1_700_000_000_123,
        "2023-11-14T23:13:20.123+01:00".to_owned(),
        "0.1.0",
        wave,
    )
    .unwrap()
}

#[test]
fn wave_writer_produces_a_valid_pcm_header() {
    let (mut wave, mut bytes) = WaveWriter::create();
    bytes.extend(wave.write_samples(&[1, -2, 3]));
    apply(&mut bytes, &wave);

    assert_eq!(&bytes[0..4], b"RIFF");
    assert_eq!(&bytes[8..12], b"WAVE");
    assert_eq!(u32::from_le_bytes(bytes[40..44].try_into().unwrap()), 6);
    assert_eq!(bytes.len(), 50);
    assert_eq!(&bytes[44..], [1, 0, 0xfe, 0xff, 3, 0]);
    assert_eq!(bytes[..44], write_wave_header(6));
}

#[test]
fn retention_keeps_only_the_newest_one_hundred_directories() {
    let names: Vec<Vec<u8>> =
        (0..105).rev().map(|index| format!("{index:013}_session").into_bytes()).collect();
    let gone = prune_old_sessions(&names);
    let mut kept: Vec<&Vec<u8>> = names
        .iter()
        .enumerate()
        .filter(|(place, _)| !gone.contains(place))
        .map(|(_, name)| name)
        .collect();
    kept.sort();
    assert_eq!(kept.len(), 100);
    assert_eq!(kept.first().unwrap().as_slice(), b"0000000000005_session");
}

#[test]
fn wave_headers_describe_the_format() {
    let header = write_wave_header(0);
    assert_eq!(header.len(), 44);
    assert_eq!(u32::from_le_bytes(header[4..8].try_into().unwrap()), 36);
    assert_eq!(&header[12..16], b"fmt ");
    assert_eq!(u32::from_le_bytes(header[16..20].try_into().unwrap()), 16);
    assert_eq!(u16::from_le_bytes(header[20..22].try_into().unwrap()), 1);
    assert_eq!(u16::from_le_bytes(header[22..24].try_into().unwrap()), 1);
    assert_eq!(u32::from_le_bytes(header[24..28].try_into().unwrap()), 16_000);
    assert_eq!(u32::from_le_bytes(header[28..32].try_into().unwrap()), 32_000);
    assert_eq!(u16::from_le_bytes(header[32..34].try_into().unwrap()), 2);
    assert_eq!(u16::from_le_bytes(header[34..36].try_into().unwrap()), 16);
    assert_eq!(&header[36..40], b"data");
}

#[test]
fn checkpoints_may_come_at_any_time() {
    let (mut wave, mut file) = WaveWriter::create();
    for chunk in [&[1_i16, 2][..], &[], &[3]] {
        file.extend(wave.write_samples(chunk));
        apply(&mut file, &wave);
        let mut expected = write_wave_header((file.len() - 44) as u32);
        expected.extend_from_slice(&file[44..]);
        assert_eq!(file, expected);
    }
    assert_eq!(wave.samples, 3);
}

#[test]
fn very_long_recordings_do_not_fit_a_wave_file() {
    let fits = WaveWriter { samples: 2_147_483_629 };
    assert!(fits.can_checkpoint());
    assert!(fits.checkpoint().is_ok());
    assert!(!WaveWriter { samples: 2_147_483_630 }.can_checkpoint());
    let long = WaveWriter { samples: 2_147_483_648 };
    assert!(long.can_checkpoint());
    assert!(matches!(long.checkpoint(), Err(WaveError::TooLarge)));
    assert_eq!(WaveError::TooLarge.message(), "diagnostic audio exceeds the WAV size limit");
    assert!(WaveWriter { samples: u64::MAX }.checkpoint().is_err());
}

#[test]
fn names_are_ordered_by_their_bytes() {
    assert!(comes_first(b"", b"a"));
    assert!(comes_first(b"a", b"a"));
    assert!(comes_first(b"a", b"ab"));
    assert!(!comes_first(b"ab", b"a"));
    assert!(!comes_first(b"b", b"ab"));
    assert!(!comes_first(&[0xff], &[0x7f]));
    let names = vec![b"b".to_vec(), b"a".to_vec(), b"c".to_vec()];
    assert_eq!(name_order(&names), [1, 0, 2]);
    assert!(prune_old_sessions(&names).is_empty());
}

#[test]
fn directories_are_named_by_time() {
    assert_eq!(session_directory(5, "session"), "0000000000005_session");
    assert_eq!(session_directory(1_700_000_000_123, "id"), "1700000000123_id");
    assert_eq!(session_directory(12_345_678_901_234, "id"), "12345678901234_id");
    let earlier = session_directory(999, "z").into_bytes();
    let later = session_directory(1_000, "a").into_bytes();
    assert!(comes_first(&earlier, &later) && !comes_first(&later, &earlier));
    // Beyond thirteen digits the order of the names is not that of the moments.
    let earlier = session_directory(9_999_999_999_999, "a").into_bytes();
    let later = session_directory(10_000_000_000_000, "a").into_bytes();
    assert!(!comes_first(&earlier, &later));
}

#[test]
fn sessions_start_with_an_empty_record() {
    let session = session();
    let record = &session.record;
    assert_eq!(record.schema_version, 1);
    assert_eq!(record.session_id, "id");
    assert_eq!(record.status, SessionStatus::Recording);
    assert_eq!(record.started_at, "2023-11-14T22:13:20.123Z");
    assert_eq!(record.started_at_local, "2023-11-14T23:13:20.123+01:00");
    assert_eq!(record.app_version, "0.1.0");
    assert_eq!(record.context.microphone, "system-default");
    assert_eq!(record.context.interaction_mode, "hold");
    assert!(record.context.auto_insert);
    assert_eq!(record.audio.file, "audio.wav");
    assert_eq!(record.audio.sample_rate, 16_000);
    assert_eq!((record.audio.channels, record.audio.bits_per_sample), (1, 16));
    assert_eq!(record.asr.resource_id, "volc.seedasr.sauc.duration");
    assert_eq!(record.asr.edge_guard_ms, 200);
    assert_eq!(record.asr.vad_end_window_ms, 400);
    assert_eq!(record.asr.tail_capture_ms, 250);
    assert_eq!(record.timings, SessionTimings::default());
    assert!(session.takes_samples());
}

#[test]
fn moments_out_of_range_have_no_text() {
    assert_eq!(DiagnosticSession::end_time(0).as_deref(), Some("1970-01-01T00:00:00.000Z"));
    assert_eq!(DiagnosticSession::end_time(-1).as_deref(), Some("1969-12-31T23:59:59.999Z"));
    assert_eq!(DiagnosticSession::end_time(i64::MAX), None);
}

#[test]
fn context_follows_the_settings() {
    let mut config = AppConfig::default_for(Platform::Linux);
    config.microphone = "USB".to_owned();
    config.interaction_mode = InteractionMode::Toggle;
    config.auto_insert = false;
    let context = SessionContext::of(&config);
    assert_eq!(context.microphone, "USB");
    assert_eq!(context.interaction_mode, "toggle");
    assert!(!context.auto_insert);
}

#[test]
fn first_moments_are_kept() {
    let mut session = session();
    assert!(session.mark_connected(10));
    assert!(session.mark_connected(20));
    assert!(session.mark_released(30));
    assert!(session.mark_released(40));
    session.mark_opened(5);
    assert_eq!(session.record.timings.connected_ms, Some(10));
    assert_eq!(session.record.timings.released_ms, Some(30));
    assert_eq!(session.record.timings.microphone_opened_ms, Some(5));
}

#[test]
fn transcripts_are_recorded() {
    let mut session = session();
    assert!(session.record_transcript("a", 1));
    assert!(session.record_transcript("a", 2));
    assert!(session.record_transcript("ab", 3));
    assert!(session.mark_final("ab.", 4));
    let updates: Vec<(u64, &str, &str)> = session
        .record
        .transcript_updates
        .iter()
        .map(|update| (update.elapsed_ms, update.kind.as_str(), update.text.as_str()))
        .collect();
    assert_eq!(updates, [(1, "partial", "a"), (3, "partial", "ab"), (4, "final", "ab.")]);
    assert_eq!(session.record.timings.first_text_ms, Some(1));
    assert_eq!(session.record.timings.final_result_ms, Some(4));
    assert_eq!(session.record.final_text, "ab.");
    assert_eq!(UpdateKind::Partial.as_str(), "partial");
}

#[test]
fn ended_sessions_stay_as_they_are() {
    let mut session = session();
    assert!(session.complete("inserted", None, 50, "later".to_owned()));
    assert_eq!(session.record.status, SessionStatus::Completed);
    assert_eq!(session.record.status.as_str(), "completed");
    assert_eq!(session.record.insertion_status.as_deref(), Some("inserted"));
    assert_eq!(session.record.elapsed_ms, Some(50));
    assert_eq!(session.record.timings.completed_ms, Some(50));
    assert_eq!(session.record.ended_at.as_deref(), Some("later"));
    assert!(session.wave.is_none());
    assert!(!session.takes_samples());
    assert!(!session.fail("late", 60, "even later".to_owned()));
    assert!(!session.record_transcript("late", 60));
    assert!(!session.mark_final("late", 60));
    assert!(!session.mark_released(60));
    assert!(!session.mark_connected(60));
    assert!(!session.complete("copied", Some("late".to_owned()), 60, "even later".to_owned()));
    session.write_samples(&[1, 2, 3], None);
    assert_eq!(session.record.audio.samples, 0);
    assert!(session.record.transcript_updates.is_empty());
    assert_eq!(session.record.final_text, "");
    assert!(session.record.timings.released_ms.is_none());
    assert!(session.record.timings.connected_ms.is_none());
    assert_eq!(session.record.elapsed_ms, Some(50));
    assert_eq!(session.record.ended_at.as_deref(), Some("later"));
    assert_eq!(session.record.insertion_status.as_deref(), Some("inserted"));
    assert_eq!(session.record.status, SessionStatus::Completed);
    assert!(session.record.error.is_none());
}

#[test]
fn failed_sessions_say_why() {
    let mut session = session();
    assert!(session.fail("no microphone", 7, "now".to_owned()));
    assert_eq!(session.record.status.as_str(), "failed");
    assert_eq!(session.record.error.as_deref(), Some("no microphone"));
    assert!(session.record.insertion_status.is_none());
}

#[test]
fn sources_are_described() {
    let mut session = session();
    session.configure_source("USB", "F32", 48_000, 2);
    assert_eq!(session.record.audio.source_device.as_deref(), Some("USB"));
    assert_eq!(session.record.audio.source_sample_format.as_deref(), Some("F32"));
    assert_eq!(session.record.audio.source_sample_rate, Some(48_000));
    assert_eq!(session.record.audio.source_channels, Some(2));
}

#[test]
fn samples_are_counted() {
    let mut session = session();
    session.write_samples(&[0, -5, 3], None);
    assert_eq!(session.record.audio.peak_sample, 5);
    session.write_samples(&[i16::MIN; 16], None);
    session.write_samples(&[i16::MAX, 7], None);
    assert_eq!(session.record.audio.samples, 21);
    assert_eq!(session.record.audio.duration_ms, 1);
    assert_eq!(session.record.audio.peak_sample, 32_768);
    assert_eq!(session.record.audio.clipped_samples, 17);
}

#[test]
fn recording_stops_after_a_write_error() {
    let mut session = session();
    session.write_samples(&[1], Some("disk full".to_owned()));
    assert_eq!(session.record.audio.write_error.as_deref(), Some("disk full"));
    assert!(session.wave.is_none());
    assert!(!session.takes_samples());
    session.write_samples(&[1], None);
    assert_eq!(session.record.audio.samples, 0);

    let mut other = self::session();
    other.audio_failed("no room");
    assert_eq!(other.record.audio.write_error.as_deref(), Some("no room"));
    assert!(other.wave.is_none());
}

#[test]
fn log_files_are_limited() {
    assert_eq!(MAX_LOG_BYTES, 5 * 1024 * 1024);
    assert!(!should_truncate(None));
    assert!(!should_truncate(Some(MAX_LOG_BYTES - 1)));
    assert!(should_truncate(Some(MAX_LOG_BYTES)));
}
