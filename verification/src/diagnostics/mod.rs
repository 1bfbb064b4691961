//! The local record of each dictation.

use chrono::{DateTime, SecondsFormat};
use vstd::prelude::*;

use crate::asr_options::{AUDIO_EDGE_GUARD_MS, RESOURCE_ID, VAD_END_WINDOW_MS};
use crate::audio::TARGET_SAMPLE_RATE;
use crate::config::{AppConfig, ConfigView, InteractionMode};
use crate::diagnostics::wave::WaveWriter;
use crate::text::same_text;

pub mod retention;
pub mod wave;

verus! {

pub const SCHEMA_VERSION: u32 = 1;

pub const DIAGNOSTICS_DIRECTORY: &'static str = "diagnostics";

pub const SESSIONS_DIRECTORY: &'static str = "sessions";

pub const SESSION_FILE_NAME: &'static str = "session.json";

pub const AUDIO_FILE_NAME: &'static str = "audio.wav";

/// What became of a session.
#[derive(Clone, Copy, Debug, PartialEq, Eq, Structural)]
pub enum SessionStatus {
    Recording,
    Completed,
    Failed,
}

impl SessionStatus {
    pub open spec fn spec_text(self) -> Seq<char> {
        match self {
            SessionStatus::Recording => "recording"@,
            SessionStatus::Completed => "completed"@,
            SessionStatus::Failed => "failed"@,
        }
    }

    /// How the status is written down.
    pub fn as_str(self) -> (result: &'static str)
        ensures
            result@ == self.spec_text(),
    {
        match self {
            SessionStatus::Recording => "recording",
            SessionStatus::Completed => "completed",
            SessionStatus::Failed => "failed",
        }
    }
}

/// Whether a transcript may still change.
#[derive(Clone, Copy, Debug, PartialEq, Eq, Structural)]
pub enum UpdateKind {
    Partial,
    Final,
}

impl UpdateKind {
    pub open spec fn spec_text(self) -> Seq<char> {
        match self {
            UpdateKind::Partial => "partial"@,
            UpdateKind::Final => "final"@,
        }
    }

    /// How the kind is written down.
    pub fn as_str(self) -> (result: &'static str)
        ensures
            result@ == self.spec_text(),
    {
        match self {
            UpdateKind::Partial => "partial",
            UpdateKind::Final => "final",
        }
    }
}

/// A text that may be missing, as a sequence of characters.
pub open spec fn text_view(text: Option<String>) -> Option<Seq<char>> {
    match text {
        Some(text) => Some(text@),
        None => None,
    }
}

/// The settings that matter for a session.
#[derive(Debug)]
pub struct SessionContext {
    pub microphone: String,
    pub interaction_mode: &'static str,
    pub auto_insert: bool,
}

/// A [`SessionContext`] with its texts as sequences of characters.
pub struct ContextView {
    pub microphone: Seq<char>,
    pub interaction_mode: Seq<char>,
    pub auto_insert: bool,
}

impl View for SessionContext {
    type V = ContextView;

    open spec fn view(&self) -> ContextView {
        ContextView {
            microphone: self.microphone@,
            interaction_mode: self.interaction_mode@,
            auto_insert: self.auto_insert,
        }
    }
}

/// The settings that matter for a session.
pub open spec fn context_of(config: ConfigView) -> ContextView {
    ContextView {
        microphone: if config.microphone.len() == 0 {
            "system-default"@
        } else {
            config.microphone
        },
        interaction_mode: match config.interaction_mode {
            InteractionMode::Hold => "hold"@,
            InteractionMode::Toggle => "toggle"@,
        },
        auto_insert: config.auto_insert,
    }
}

impl SessionContext {
    /// The settings that matter for a session.
    pub fn of(config: &AppConfig) -> (result: SessionContext)
        ensures
            result@ == context_of(config@),
    {
        SessionContext {
            microphone: if config.microphone.as_str().unicode_len() == 0 {
                "system-default".to_owned()
            } else {
                config.microphone.clone()
            },
            interaction_mode: match config.interaction_mode {
                InteractionMode::Hold => "hold",
                InteractionMode::Toggle => "toggle",
            },
            auto_insert: config.auto_insert,
        }
    }
}

/// What is known about a session's audio.
#[derive(Debug)]
pub struct AudioRecord {
    pub file: &'static str,
    pub sample_rate: u32,
    pub channels: u16,
    pub bits_per_sample: u16,
    pub samples: u64,
    pub duration_ms: u64,
    pub peak_sample: i32,
    pub clipped_samples: u64,
    pub source_device: Option<String>,
    pub source_sample_format: Option<String>,
    pub source_sample_rate: Option<u32>,
    pub source_channels: Option<u16>,
    pub write_error: Option<String>,
}

/// An [`AudioRecord`] with its texts as sequences of characters.
pub struct AudioRecordView {
    pub file: Seq<char>,
    pub sample_rate: u32,
    pub channels: u16,
    pub bits_per_sample: u16,
    pub samples: u64,
    pub duration_ms: u64,
    pub peak_sample: i32,
    pub clipped_samples: u64,
    pub source_device: Option<Seq<char>>,
    pub source_sample_format: Option<Seq<char>>,
    pub source_sample_rate: Option<u32>,
    pub source_channels: Option<u16>,
    pub write_error: Option<Seq<char>>,
}

impl View for AudioRecord {
    type V = AudioRecordView;

    open spec fn view(&self) -> AudioRecordView {
        AudioRecordView {
            file: self.file@,
            sample_rate: self.sample_rate,
            channels: self.channels,
            bits_per_sample: self.bits_per_sample,
            samples: self.samples,
            duration_ms: self.duration_ms,
            peak_sample: self.peak_sample,
            clipped_samples: self.clipped_samples,
            source_device: text_view(self.source_device),
            source_sample_format: text_view(self.source_sample_format),
            source_sample_rate: self.source_sample_rate,
            source_channels: self.source_channels,
            write_error: text_view(self.write_error),
        }
    }
}

/// The audio before anything is recorded: 16-bit mono at the rate of the service.
pub open spec fn silent_audio() -> AudioRecordView {
    AudioRecordView {
        file: AUDIO_FILE_NAME@,
        sample_rate: TARGET_SAMPLE_RATE,
        channels: 1,
        bits_per_sample: 16,
        samples: 0,
        duration_ms: 0,
        peak_sample: 0,
        clipped_samples: 0,
        source_device: None,
        source_sample_format: None,
        source_sample_rate: None,
        source_channels: None,
        write_error: None,
    }
}

/// How the service was asked to listen.
#[derive(Debug)]
pub struct AsrRecord {
    pub resource_id: &'static str,
    pub edge_guard_ms: usize,
    pub vad_end_window_ms: u64,
    pub tail_capture_ms: u64,
}

/// An [`AsrRecord`] with its text as a sequence of characters.
pub struct AsrRecordView {
    pub resource_id: Seq<char>,
    pub edge_guard_ms: usize,
    pub vad_end_window_ms: u64,
    pub tail_capture_ms: u64,
}

impl View for AsrRecord {
    type V = AsrRecordView;

    open spec fn view(&self) -> AsrRecordView {
        AsrRecordView {
            resource_id: self.resource_id@,
            edge_guard_ms: self.edge_guard_ms,
            vad_end_window_ms: self.vad_end_window_ms,
            tail_capture_ms: self.tail_capture_ms,
        }
    }
}

/// A transcript at a moment of a session.
#[derive(Debug)]
pub struct TranscriptUpdate {
    pub elapsed_ms: u64,
    pub kind: UpdateKind,
    pub text: String,
}

/// A [`TranscriptUpdate`] with its text as a sequence of characters.
pub struct TranscriptUpdateView {
    pub elapsed_ms: u64,
    pub kind: UpdateKind,
    pub text: Seq<char>,
}

impl View for TranscriptUpdate {
    type V = TranscriptUpdateView;

    open spec fn view(&self) -> TranscriptUpdateView {
        TranscriptUpdateView { elapsed_ms: self.elapsed_ms, kind: self.kind, text: self.text@ }
    }
}

/// A list of transcripts, each by its view.
pub open spec fn transcript_views(updates: Seq<TranscriptUpdate>) -> Seq<TranscriptUpdateView> {
    Seq::new(updates.len(), |i: int| updates[i]@)
}

/// When the steps of a session happened, counted from its beginning.
#[derive(Clone, Copy, Debug, PartialEq, Eq)]
pub struct SessionTimings {
    pub microphone_opened_ms: Option<u64>,
    pub connected_ms: Option<u64>,
    pub first_text_ms: Option<u64>,
    pub released_ms: Option<u64>,
    pub final_result_ms: Option<u64>,
    pub completed_ms: Option<u64>,
}

/// The timings before anything happened.
pub open spec fn no_timings() -> SessionTimings {
    SessionTimings {
        microphone_opened_ms: None,
        connected_ms: None,
        first_text_ms: None,
        released_ms: None,
        final_result_ms: None,
        completed_ms: None,
    }
}

impl Default for SessionTimings {
    fn default() -> (result: Self)
        ensures
            result == no_timings(),
    {
        SessionTimings {
            microphone_opened_ms: None,
            connected_ms: None,
            first_text_ms: None,
            released_ms: None,
            final_result_ms: None,
            completed_ms: None,
        }
    }
}

/// A moment that is noted only once.
pub open spec fn first_time(noted: Option<u64>, elapsed_ms: u64) -> Option<u64> {
    match noted {
        Some(earlier) => Some(earlier),
        None => Some(elapsed_ms),
    }
}

fn note_first(noted: Option<u64>, elapsed_ms: u64) -> (result: Option<u64>)
    ensures
        result == first_time(noted, elapsed_ms),
{
    match noted {
        Some(earlier) => Some(earlier),
        None => Some(elapsed_ms),
    }
}

/// The record of a session.
#[derive(Debug)]
pub struct SessionRecord {
    pub schema_version: u32,
    pub session_id: String,
    pub status: SessionStatus,
    pub started_at: String,
    pub started_at_local: String,
    pub ended_at: Option<String>,
    pub elapsed_ms: Option<u64>,
    pub app_version: String,
    pub context: SessionContext,
    pub audio: AudioRecord,
    pub asr: AsrRecord,
    pub transcript_updates: Vec<TranscriptUpdate>,
    pub final_text: String,
    pub timings: SessionTimings,
    pub insertion_status: Option<String>,
    pub error: Option<String>,
}

/// A [`SessionRecord`] with its texts as sequences of characters.
pub struct RecordView {
    pub schema_version: u32,
    pub session_id: Seq<char>,
    pub status: SessionStatus,
    pub started_at: Seq<char>,
    pub started_at_local: Seq<char>,
    pub ended_at: Option<Seq<char>>,
    pub elapsed_ms: Option<u64>,
    pub app_version: Seq<char>,
    pub context: ContextView,
    pub audio: AudioRecordView,
    pub asr: AsrRecordView,
    pub transcript_updates: Seq<TranscriptUpdateView>,
    pub final_text: Seq<char>,
    pub timings: SessionTimings,
    pub insertion_status: Option<Seq<char>>,
    pub error: Option<Seq<char>>,
}

impl View for SessionRecord {
    type V = RecordView;

    open spec fn view(&self) -> RecordView {
        RecordView {
            schema_version: self.schema_version,
            session_id: self.session_id@,
            status: self.status,
            started_at: self.started_at@,
            started_at_local: self.started_at_local@,
            ended_at: text_view(self.ended_at),
            elapsed_ms: self.elapsed_ms,
            app_version: self.app_version@,
            context: self.context@,
            audio: self.audio@,
            asr: self.asr@,
            transcript_updates: transcript_views(self.transcript_updates@),
            final_text: self.final_text@,
            timings: self.timings,
            insertion_status: text_view(self.insertion_status),
            error: text_view(self.error),
        }
    }
}

/// The largest absolute value among some samples.
pub open spec fn peak(samples: Seq<i16>) -> int
    decreases samples.len(),
{
    if samples.len() == 0 {
        0
    } else {
        let front = peak(samples.drop_last());
        let last = magnitude(samples.last());
        if last > front {
            last
        } else {
            front
        }
    }
}

/// The absolute value of a sample.
pub open spec fn magnitude(sample: i16) -> int {
    if sample < 0 {
        -sample
    } else {
        sample as int
    }
}

/// Whether a sample is as loud as it can be written down.
pub open spec fn clipped(sample: i16) -> bool {
    sample == i16::MIN || sample == i16::MAX
}

/// The number of clipped samples.
pub open spec fn clipped_count(samples: Seq<i16>) -> nat
    decreases samples.len(),
{
    if samples.len() == 0 {
        0
    } else {
        clipped_count(samples.drop_last()) + if clipped(samples.last()) {
            1nat
        } else {
            0nat
        }
    }
}

/// The statistics of the audio after further samples.
pub open spec fn with_samples(audio: AudioRecordView, samples: Seq<i16>) -> AudioRecordView {
    let count = (audio.samples + samples.len()) as u64;
    AudioRecordView {
        samples: count,
        duration_ms: (count * 1_000 / TARGET_SAMPLE_RATE as int) as u64,
        peak_sample: if peak(samples) > audio.peak_sample {
            peak(samples) as i32
        } else {
            audio.peak_sample
        },
        clipped_samples: (audio.clipped_samples + clipped_count(samples)) as u64,
        ..audio
    }
}

/// A session that is being recorded.
#[derive(Debug)]
pub struct DiagnosticSession {
    pub record: SessionRecord,
    /// The audio file, as long as it can be written.
    pub wave: Option<WaveWriter>,
}

/// A [`DiagnosticSession`]: its record, and the number of samples in the audio file.
pub struct SessionView {
    pub record: RecordView,
    pub wave: Option<u64>,
}

impl View for DiagnosticSession {
    type V = SessionView;

    open spec fn view(&self) -> SessionView {
        SessionView {
            record: self.record@,
            wave: match self.wave {
                Some(wave) => Some(wave.samples),
                None => None,
            },
        }
    }
}

impl SessionView {
    /// What holds of every session: the statistics fit the number of samples, the audio
    /// file holds as many, and it is given up after an error.
    pub open spec fn well_formed(self) -> bool {
        let audio = self.record.audio;
        &&& audio.duration_ms == audio.samples * 1_000 / TARGET_SAMPLE_RATE as int
        &&& audio.clipped_samples <= audio.samples
        &&& 0 <= audio.peak_sample <= 32_768
        &&& self.wave matches Some(samples) ==> samples == audio.samples
            && audio.write_error is None
    }

    /// The session with another record.
    pub open spec fn with(self, record: RecordView) -> SessionView {
        SessionView { record, ..self }
    }

    /// The session after its audio file could not be written.
    pub open spec fn without_audio(self, error: Seq<char>) -> SessionView {
        SessionView {
            record: RecordView {
                audio: AudioRecordView { write_error: Some(error), ..self.record.audio },
                ..self.record
            },
            wave: None,
        }
    }

    /// Whether the session is being recorded.
    pub open spec fn recording(self) -> bool {
        self.record.status == SessionStatus::Recording
    }

    /// Whether samples are written to the audio file: the session is being recorded and the
    /// file can be written.
    pub open spec fn takes_samples(self) -> bool {
        &&& self.recording()
        &&& self.record.audio.write_error is None
        &&& self.wave is Some
    }

    /// The session after the user has ended the dictation. The first time counts.
    pub open spec fn released(self, elapsed_ms: u64) -> SessionView {
        if !self.recording() {
            self
        } else {
            self.with(
                RecordView {
                    timings: SessionTimings {
                        released_ms: first_time(self.record.timings.released_ms, elapsed_ms),
                        ..self.record.timings
                    },
                    ..self.record
                },
            )
        }
    }

    /// The session after the service has connected. The first time counts.
    pub open spec fn connected(self, elapsed_ms: u64) -> SessionView {
        if !self.recording() {
            self
        } else {
            self.with(
                RecordView {
                    timings: SessionTimings {
                        connected_ms: first_time(self.record.timings.connected_ms, elapsed_ms),
                        ..self.record.timings
                    },
                    ..self.record
                },
            )
        }
    }

    /// The session after a transcript that may still change. One that repeats the last text
    /// is not noted.
    pub open spec fn transcribed(self, text: Seq<char>, elapsed_ms: u64) -> SessionView {
        if !self.recording() || repeats(self.record.transcript_updates, text) {
            self
        } else {
            self.with(
                RecordView {
                    timings: SessionTimings {
                        first_text_ms: first_time(self.record.timings.first_text_ms, elapsed_ms),
                        ..self.record.timings
                    },
                    transcript_updates: self.record.transcript_updates.push(
                        TranscriptUpdateView { elapsed_ms, kind: UpdateKind::Partial, text },
                    ),
                    ..self.record
                },
            )
        }
    }

    /// The session after the transcript that does not change any more.
    pub open spec fn finalized(self, text: Seq<char>, elapsed_ms: u64) -> SessionView {
        if !self.recording() {
            self
        } else {
            self.with(
                RecordView {
                    timings: SessionTimings {
                        final_result_ms: Some(elapsed_ms),
                        ..self.record.timings
                    },
                    final_text: text,
                    transcript_updates: self.record.transcript_updates.push(
                        TranscriptUpdateView { elapsed_ms, kind: UpdateKind::Final, text },
                    ),
                    ..self.record
                },
            )
        }
    }

    /// The session after an attempt to write samples. A session that has ended or lost
    /// its audio file takes no more.
    pub open spec fn after_samples(
        self,
        samples: Seq<i16>,
        write_error: Option<Seq<char>>,
    ) -> SessionView {
        if !self.recording() || self.record.audio.write_error is Some {
            self
        } else {
            match (self.wave, write_error) {
                (None, _) => self.without_audio("diagnostic wave writer is unavailable"@),
                (Some(_), Some(error)) => self.without_audio(error),
                (Some(count), None) => SessionView {
                    record: RecordView {
                        audio: with_samples(self.record.audio, samples),
                        ..self.record
                    },
                    wave: Some((count + samples.len()) as u64),
                },
            }
        }
    }

    /// The session after it has ended. Only the first end counts.
    pub open spec fn finished(
        self,
        status: SessionStatus,
        insertion_status: Option<Seq<char>>,
        error: Option<Seq<char>>,
        elapsed_ms: u64,
        ended_at: Seq<char>,
    ) -> SessionView {
        if !self.recording() {
            self
        } else {
            SessionView {
                record: RecordView {
                    status,
                    ended_at: Some(ended_at),
                    elapsed_ms: Some(elapsed_ms),
                    timings: SessionTimings {
                        completed_ms: Some(elapsed_ms),
                        ..self.record.timings
                    },
                    insertion_status,
                    error,
                    ..self.record
                },
                wave: None,
            }
        }
    }
}

/// A moment in UTC as `chrono` writes it in RFC 3339 with milliseconds, if the date lies in
/// its range.
pub uninterp spec fn utc_text(unix_ms: i64) -> Option<Seq<char>>;

/// Calls `DateTime::from_timestamp_millis` and `to_rfc3339_opts` with milliseconds and `Z`
/// on what it gives. There is no date for a moment beyond the years that `chrono` counts;
/// the text depends on the moment alone and is named by [`utc_text`].
#[verifier::external_body]
fn rfc3339(unix_ms: i64) -> (result: Option<String>)
    ensures
        text_view(result) == utc_text(unix_ms),
{
    let time = DateTime::from_timestamp_millis(unix_ms)?;
    Some(time.to_rfc3339_opts(SecondsFormat::Millis, true))
}

/// The record of a session at its beginning.
pub open spec fn new_record(
    session_id: Seq<char>,
    config: ConfigView,
    tail_capture_ms: u64,
    started_at: Seq<char>,
    started_at_local: Seq<char>,
    app_version: Seq<char>,
) -> RecordView {
    RecordView {
        schema_version: SCHEMA_VERSION,
        session_id,
        status: SessionStatus::Recording,
        started_at,
        started_at_local,
        ended_at: None,
        elapsed_ms: None,
        app_version,
        context: context_of(config),
        audio: silent_audio(),
        asr: AsrRecordView {
            resource_id: RESOURCE_ID@,
            edge_guard_ms: AUDIO_EDGE_GUARD_MS,
            vad_end_window_ms: VAD_END_WINDOW_MS,
            tail_capture_ms,
        },
        transcript_updates: Seq::empty(),
        final_text: Seq::empty(),
        timings: no_timings(),
        insertion_status: None,
        error: None,
    }
}

impl DiagnosticSession {
    /// A session at its beginning, given the moment as text.
    pub fn started(
        session_id: &str,
        config: &AppConfig,
        tail_capture_ms: u64,
        started_at: String,
        started_at_local: String,
        app_version: &str,
        wave: WaveWriter,
    ) -> (result: DiagnosticSession)
        requires
            wave.samples == 0,
        ensures
            result@ == (SessionView {
                record: new_record(
                    session_id@,
                    config@,
                    tail_capture_ms,
                    started_at@,
                    started_at_local@,
                    app_version@,
                ),
                wave: Some(0),
            }),
            result@.well_formed(),
    {
        let record = SessionRecord {
            schema_version: SCHEMA_VERSION,
            session_id: session_id.to_owned(),
            status: SessionStatus::Recording,
            started_at,
            started_at_local,
            ended_at: None,
            elapsed_ms: None,
            app_version: app_version.to_owned(),
            context: SessionContext::of(config),
            audio: AudioRecord {
                file: AUDIO_FILE_NAME,
                sample_rate: TARGET_SAMPLE_RATE,
                channels: 1,
                bits_per_sample: 16,
                samples: 0,
                duration_ms: 0,
                peak_sample: 0,
                clipped_samples: 0,
                source_device: None,
                source_sample_format: None,
                source_sample_rate: None,
                source_channels: None,
                write_error: None,
            },
            asr: AsrRecord {
                resource_id: RESOURCE_ID,
                edge_guard_ms: AUDIO_EDGE_GUARD_MS,
                vad_end_window_ms: VAD_END_WINDOW_MS,
                tail_capture_ms,
            },
            transcript_updates: Vec::new(),
            final_text: String::new(),
            timings: SessionTimings::default(),
            insertion_status: None,
            error: None,
        };
        proof {
            assert(record@.transcript_updates =~= Seq::empty());
            assert(record@.final_text =~= Seq::empty());
        }
        DiagnosticSession { record, wave: Some(wave) }
    }

    /// A session at its beginning; `None` where the moment has no date.
    pub fn start(
        session_id: &str,
        config: &AppConfig,
        tail_capture_ms: u64,
        unix_ms: i64,
        started_at_local: String,
        app_version: &str,
        wave: WaveWriter,
    ) -> (result: Option<DiagnosticSession>)
        requires
            wave.samples == 0,
        ensures
            match result {
                Some(session) => utc_text(unix_ms) is Some && session@ == (SessionView {
                    record: new_record(
                        session_id@,
                        config@,
                        tail_capture_ms,
                        utc_text(unix_ms)->0,
                        started_at_local@,
                        app_version@,
                    ),
                    wave: Some(0),
                }) && session@.well_formed(),
                None => utc_text(unix_ms) is None,
            },
    {
        match rfc3339(unix_ms) {
            Some(started_at) => Some(
                Self::started(
                    session_id,
                    config,
                    tail_capture_ms,
                    started_at,
                    started_at_local,
                    app_version,
                    wave,
                ),
            ),
            None => None,
        }
    }

    /// The user has ended the dictation. Says whether the record has to be saved.
    pub fn mark_released(&mut self, elapsed_ms: u64) -> (result: bool)
        ensures
            result == old(self)@.recording(),
            final(self)@ == old(self)@.released(elapsed_ms),
            old(self)@.well_formed() ==> final(self)@.well_formed(),
    {
        if self.record.status != SessionStatus::Recording {
            return false;
        }
        self.record.timings.released_ms = note_first(self.record.timings.released_ms, elapsed_ms);
        true
    }

    /// The service is connected. Says whether the record has to be saved.
    pub fn mark_connected(&mut self, elapsed_ms: u64) -> (result: bool)
        ensures
            result == old(self)@.recording(),
            final(self)@ == old(self)@.connected(elapsed_ms),
            old(self)@.well_formed() ==> final(self)@.well_formed(),
    {
        if self.record.status != SessionStatus::Recording {
            return false;
        }
        self.record.timings.connected_ms = note_first(self.record.timings.connected_ms, elapsed_ms);
        true
    }

    /// A transcript came in; one that repeats the last text is not noted. Says whether the
    /// record has to be saved.
    pub fn record_transcript(&mut self, text: &str, elapsed_ms: u64) -> (result: bool)
        ensures
            result == old(self)@.recording(),
            final(self)@ == old(self)@.transcribed(text@, elapsed_ms),
            old(self)@.well_formed() ==> final(self)@.well_formed(),
            old(self)@.recording() ==> {
                let before = old(self)@.record.transcript_updates;
                let after = final(self)@.record.transcript_updates;
                &&& after.len() > 0 && after.last().text == text@
                &&& after.len() == before.len() + if before.len() > 0 && before.last().text
                    == text@ {
                    0int
                } else {
                    1int
                }
            },
    {
        if self.record.status != SessionStatus::Recording {
            return false;
        }
        let count = self.record.transcript_updates.len();
        if count > 0 && same_text(
            self.record.transcript_updates[count - 1].text.as_str(),
            text,
        ) {
            return true;
        }
        self.record.timings.first_text_ms =
            note_first(self.record.timings.first_text_ms, elapsed_ms);
        self.push_update(UpdateKind::Partial, text, elapsed_ms);
        true
    }

    fn push_update(&mut self, kind: UpdateKind, text: &str, elapsed_ms: u64)
        ensures
            final(self)@ == old(self)@.with(
                RecordView {
                    transcript_updates: old(self)@.record.transcript_updates.push(
                        TranscriptUpdateView { elapsed_ms, kind, text: text@ },
                    ),
                    ..old(self)@.record
                },
            ),
    {
        let ghost before = self.record.transcript_updates@;
        self.record.transcript_updates.push(
            TranscriptUpdate { elapsed_ms, kind, text: text.to_owned() },
        );
        proof {
            assert(transcript_views(self.record.transcript_updates@) =~= transcript_views(
                before,
            ).push(TranscriptUpdateView { elapsed_ms, kind, text: text@ }));
        }
    }

    /// The transcript is final. Says whether the record has to be saved.
    pub fn mark_final(&mut self, text: &str, elapsed_ms: u64) -> (result: bool)
        ensures
            result == old(self)@.recording(),
            final(self)@ == old(self)@.finalized(text@, elapsed_ms),
            old(self)@.well_formed() ==> final(self)@.well_formed(),
    {
        if self.record.status != SessionStatus::Recording {
            return false;
        }
        self.record.timings.final_result_ms = Some(elapsed_ms);
        self.record.final_text = text.to_owned();
        self.push_update(UpdateKind::Final, text, elapsed_ms);
        true
    }

    fn finish(
        &mut self,
        status: SessionStatus,
        insertion_status: Option<String>,
        error: Option<String>,
        elapsed_ms: u64,
        ended_at: String,
    ) -> (result: bool)
        ensures
            result == old(self)@.recording(),
            final(self)@ == old(self)@.finished(
                status,
                text_view(insertion_status),
                text_view(error),
                elapsed_ms,
                ended_at@,
            ),
            old(self)@.well_formed() ==> final(self)@.well_formed(),
    {
        if self.record.status != SessionStatus::Recording {
            return false;
        }
        self.record.status = status;
        self.record.ended_at = Some(ended_at);
        self.record.elapsed_ms = Some(elapsed_ms);
        self.record.timings.completed_ms = Some(elapsed_ms);
        self.record.insertion_status = insertion_status;
        self.record.error = error;
        self.wave = None;
        true
    }

    /// The session has ended with a transcript. Says whether the record has to be saved,
    /// after the sizes in the audio file.
    pub fn complete(
        &mut self,
        insertion_status: &str,
        error: Option<String>,
        elapsed_ms: u64,
        ended_at: String,
    ) -> (result: bool)
        ensures
            result == old(self)@.recording(),
            final(self)@ == old(self)@.finished(
                SessionStatus::Completed,
                Some(insertion_status@),
                text_view(error),
                elapsed_ms,
                ended_at@,
            ),
            old(self)@.well_formed() ==> final(self)@.well_formed(),
    {
        self.finish(
            SessionStatus::Completed,
            Some(insertion_status.to_owned()),
            error,
            elapsed_ms,
            ended_at,
        )
    }

    /// The session has failed. Says whether the record has to be saved, after the sizes in
    /// the audio file.
    pub fn fail(&mut self, error: &str, elapsed_ms: u64, ended_at: String) -> (result: bool)
        ensures
            result == old(self)@.recording(),
            final(self)@ == old(self)@.finished(
                SessionStatus::Failed,
                None,
                Some(error@),
                elapsed_ms,
                ended_at@,
            ),
            old(self)@.well_formed() ==> final(self)@.well_formed(),
    {
        self.finish(SessionStatus::Failed, None, Some(error.to_owned()), elapsed_ms, ended_at)
    }

    /// The text of the moment at which a session ended.
    pub fn end_time(unix_ms: i64) -> (result: Option<String>)
        ensures
            text_view(result) == utc_text(unix_ms),
    {
        rfc3339(unix_ms)
    }

    /// The microphone and how it encodes its samples are known.
    pub fn configure_source(
        &mut self,
        device: &str,
        sample_format: &str,
        sample_rate: u32,
        channels: u16,
    )
        ensures
            final(self)@ == old(self)@.with(
                RecordView {
                    audio: AudioRecordView {
                        source_device: Some(device@),
                        source_sample_format: Some(sample_format@),
                        source_sample_rate: Some(sample_rate),
                        source_channels: Some(channels),
                        ..old(self)@.record.audio
                    },
                    ..old(self)@.record
                },
            ),
            old(self)@.well_formed() ==> final(self)@.well_formed(),
    {
        self.record.audio.source_device = Some(device.to_owned());
        self.record.audio.source_sample_format = Some(sample_format.to_owned());
        self.record.audio.source_sample_rate = Some(sample_rate);
        self.record.audio.source_channels = Some(channels);
    }

    /// The microphone is open.
    pub fn mark_opened(&mut self, elapsed_ms: u64)
        ensures
            final(self)@ == old(self)@.with(
                RecordView {
                    timings: SessionTimings {
                        microphone_opened_ms: Some(elapsed_ms),
                        ..old(self)@.record.timings
                    },
                    ..old(self)@.record
                },
            ),
            old(self)@.well_formed() ==> final(self)@.well_formed(),
    {
        self.record.timings.microphone_opened_ms = Some(elapsed_ms);
    }

    /// Whether samples should be written to the audio file: the session is being recorded
    /// and the file can be written.
    pub fn takes_samples(&self) -> (result: bool)
        ensures
            result == self@.takes_samples(),
    {
        self.record.status == SessionStatus::Recording && self.record.audio.write_error.is_none()
            && self.wave.is_some()
    }

    /// The audio file cannot be written any more.
    pub fn audio_failed(&mut self, error: &str)
        ensures
            final(self)@ == old(self)@.without_audio(error@),
            old(self)@.well_formed() ==> final(self)@.well_formed(),
    {
        self.record.audio.write_error = Some(error.to_owned());
        self.wave = None;
    }

    /// Samples were written to the audio file, or could not be.
    pub fn write_samples(&mut self, samples: &[i16], write_error: Option<String>)
        requires
            old(self)@.well_formed(),
            old(self)@.takes_samples() && write_error is None ==> (old(self)@.record.audio.samples
                + samples@.len()) * 1_000 <= u64::MAX,
        ensures
            final(self)@ == old(self)@.after_samples(samples@, text_view(write_error)),
            final(self)@.well_formed(),
    {
        if self.record.status != SessionStatus::Recording || self.record.audio.write_error.is_some() {
            return;
        }
        if self.wave.is_none() {
            self.audio_failed("diagnostic wave writer is unavailable");
            return;
        }
        if let Some(error) = write_error {
            self.audio_failed(error.as_str());
            return;
        }
        let ghost before = self@;
        let count: u64 = self.record.audio.samples + samples.len() as u64;
        let mut highest: i32 = self.record.audio.peak_sample;
        let mut clips: u64 = self.record.audio.clipped_samples;
        let mut i: usize = 0;
        proof {
            assert(samples@.take(0) =~= Seq::empty());
        }
        while i < samples.len()
            invariant
                i <= samples@.len(),
                before.record.audio.clipped_samples + samples@.len() <= u64::MAX,
                0 <= before.record.audio.peak_sample <= 32_768,
                0 <= peak(samples@.take(i as int)) <= 32_768,
                clipped_count(samples@.take(i as int)) <= i,
                highest == if peak(samples@.take(i as int)) > before.record.audio.peak_sample {
                    peak(samples@.take(i as int))
                } else {
                    before.record.audio.peak_sample as int
                },
                clips == before.record.audio.clipped_samples + clipped_count(
                    samples@.take(i as int),
                ),
            decreases samples@.len() - i,
        {
            let sample: i16 = samples[i];
            let absolute: i32 = if sample < 0 {
                -(sample as i32)
            } else {
                sample as i32
            };
            if absolute > highest {
                highest = absolute;
            }
            if sample == i16::MIN || sample == i16::MAX {
                clips += 1;
            }
            proof {
                assert(samples@.take(i + 1).drop_last() =~= samples@.take(i as int));
                assert(samples@.take(i + 1).last() == sample);
            }
            i += 1;
        }
        proof {
            assert(samples@.take(samples@.len() as int) =~= samples@);
        }
        self.record.audio.samples = count;
        self.record.audio.duration_ms = count * 1_000 / TARGET_SAMPLE_RATE as u64;
        self.record.audio.peak_sample = highest;
        self.record.audio.clipped_samples = clips;
        self.wave = Some(WaveWriter { samples: count });
    }
}

/// Whether the last transcript has this text.
pub open spec fn repeats(updates: Seq<TranscriptUpdateView>, text: Seq<char>) -> bool {
    updates.len() > 0 && updates.last().text == text
}

/// Something that is reported about a session.
pub enum SessionNote {
    Released(u64),
    Connected(u64),
    Transcript(Seq<char>, u64),
    Final(Seq<char>, u64),
    Samples(Seq<i16>, Option<Seq<char>>),
    Completed { insertion_status: Seq<char>, error: Option<Seq<char>>, elapsed_ms: u64, ended_at: Seq<
        char,
    > },
    Failed { error: Seq<char>, elapsed_ms: u64, ended_at: Seq<char> },
}

impl SessionView {
    /// The session after a report.
    pub open spec fn after(self, report: SessionNote) -> SessionView {
        match report {
            SessionNote::Released(elapsed_ms) => self.released(elapsed_ms),
            SessionNote::Connected(elapsed_ms) => self.connected(elapsed_ms),
            SessionNote::Transcript(text, elapsed_ms) => self.transcribed(text, elapsed_ms),
            SessionNote::Final(text, elapsed_ms) => self.finalized(text, elapsed_ms),
            SessionNote::Samples(samples, write_error) => self.after_samples(samples, write_error),
            SessionNote::Completed { insertion_status, error, elapsed_ms, ended_at } =>
                self.finished(
                    SessionStatus::Completed,
                    Some(insertion_status),
                    error,
                    elapsed_ms,
                    ended_at,
                ),
            SessionNote::Failed { error, elapsed_ms, ended_at } => self.finished(
                SessionStatus::Failed,
                None,
                Some(error),
                elapsed_ms,
                ended_at,
            ),
        }
    }

    /// The session after a series of reports.
    pub open spec fn after_all(self, reports: Seq<SessionNote>) -> SessionView
        decreases reports.len(),
    {
        if reports.len() == 0 {
            self
        } else {
            self.after_all(reports.drop_last()).after(reports.last())
        }
    }
}

/// A session that has ended stays as it is, whatever is reported about it: it is not ended
/// again, and takes no moments, transcripts or samples.
pub proof fn law_ended_sessions_stay_as_they_are(session: SessionView, reports: Seq<SessionNote>)
    requires
        !session.recording(),
    ensures
        session.after_all(reports) == session,
    decreases reports.len(),
{
    if reports.len() > 0 {
        law_ended_sessions_stay_as_they_are(session, reports.drop_last());
    }
}

/// The first end of a session counts: its status, its time and its outcome stay, and nothing
/// that is reported later changes the session.
pub proof fn law_the_first_end_counts(
    session: SessionView,
    end: SessionNote,
    later: Seq<SessionNote>,
)
    requires
        session.recording(),
        end is Completed || end is Failed,
    ensures
        ({
            let ended = session.after(end);
            &&& !ended.recording()
            &&& ended.wave is None
            &&& ended.after_all(later) == ended
            &&& match end {
                SessionNote::Completed { insertion_status, error, elapsed_ms, ended_at } => {
                    &&& ended.record.status == SessionStatus::Completed
                    &&& ended.record.insertion_status == Some(insertion_status)
                    &&& ended.record.error == error
                    &&& ended.record.elapsed_ms == Some(elapsed_ms)
                    &&& ended.record.ended_at == Some(ended_at)
                },
                SessionNote::Failed { error, elapsed_ms, ended_at } => {
                    &&& ended.record.status == SessionStatus::Failed
                    &&& ended.record.insertion_status is None
                    &&& ended.record.error == Some(error)
                    &&& ended.record.elapsed_ms == Some(elapsed_ms)
                    &&& ended.record.ended_at == Some(ended_at)
                },
                _ => false,
            }
        }),
{
    law_ended_sessions_stay_as_they_are(session.after(end), later);
}

/// Writing samples in two pieces gives the same statistics as writing them at once.
pub proof fn law_statistics_do_not_depend_on_chunks(
    audio: AudioRecordView,
    samples: Seq<i16>,
    more: Seq<i16>,
)
    requires
        0 <= audio.peak_sample <= 32_768,
        audio.clipped_samples <= audio.samples,
        (audio.samples + samples.len() + more.len()) * 1_000 <= u64::MAX,
    ensures
        with_samples(with_samples(audio, samples), more) == with_samples(audio, samples + more),
{
    lemma_peak_add(samples, more);
    lemma_clipped_add(samples, more);
    lemma_peak_bounds(samples);
    lemma_peak_bounds(more);
    lemma_clipped_bounds(samples);
    lemma_clipped_bounds(more);
}

proof fn lemma_peak_bounds(samples: Seq<i16>)
    ensures
        0 <= peak(samples) <= 32_768,
    decreases samples.len(),
{
    if samples.len() > 0 {
        lemma_peak_bounds(samples.drop_last());
    }
}

proof fn lemma_clipped_bounds(samples: Seq<i16>)
    ensures
        clipped_count(samples) <= samples.len(),
    decreases samples.len(),
{
    if samples.len() > 0 {
        lemma_clipped_bounds(samples.drop_last());
    }
}

proof fn lemma_peak_add(left: Seq<i16>, right: Seq<i16>)
    ensures
        peak(left + right) == if peak(left) > peak(right) {
            peak(left)
        } else {
            peak(right)
        },
    decreases right.len(),
{
    lemma_peak_bounds(left);
    if right.len() == 0 {
        assert(left + right =~= left);
    } else {
        lemma_peak_add(left, right.drop_last());
        assert((left + right).drop_last() =~= left + right.drop_last());
    }
}

proof fn lemma_clipped_add(left: Seq<i16>, right: Seq<i16>)
    ensures
        clipped_count(left + right) == clipped_count(left) + clipped_count(right),
    decreases right.len(),
{
    if right.len() == 0 {
        assert(left + right =~= left);
    } else {
        lemma_clipped_add(left, right.drop_last());
        assert((left + right).drop_last() =~= left + right.drop_last());
    }
}

/// While a session is recorded, a transcript that is reported is the last one noted afterwards,
/// and one more is noted exactly when its text differs from that of the last one before, be it
/// longer or shorter. What was noted before stays, and only the first text sets its time.
pub proof fn law_transcripts_are_noted(session: SessionView, text: Seq<char>, elapsed_ms: u64)
    requires
        session.recording(),
    ensures
        ({
            let before = session.record.transcript_updates;
            let next = session.transcribed(text, elapsed_ms);
            let after = next.record.transcript_updates;
            &&& after.len() > 0 && after.last().text == text
            &&& if before.len() > 0 && before.last().text == text {
                next == session
            } else {
                &&& after.len() == before.len() + 1
                &&& after.last().elapsed_ms == elapsed_ms
                &&& after.last().kind == UpdateKind::Partial
                &&& next.record.timings.first_text_ms == match session.record.timings.first_text_ms {
                    Some(earlier) => Some(earlier),
                    None => Some(elapsed_ms),
                }
            }
            &&& after.take(before.len() as int) == before
            &&& next.record.final_text == session.record.final_text
            &&& next.record.audio == session.record.audio && next.wave == session.wave
            &&& next.recording()
        }),
{
    let before = session.record.transcript_updates;
    let after = session.transcribed(text, elapsed_ms).record.transcript_updates;
    assert(after.take(before.len() as int) =~= before);
}

/// Whether a report notes a text: a transcript that may still change, or the final one.
pub open spec fn noted_text(report: SessionNote) -> Option<Seq<char>> {
    match report {
        SessionNote::Transcript(text, _) => Some(text),
        SessionNote::Final(text, _) => Some(text),
        _ => None,
    }
}

/// As long as a session is recorded, the last text noted is the last one that was reported.
pub proof fn law_the_last_report_is_the_last_text(
    session: SessionView,
    reports: Seq<SessionNote>,
    index: int,
)
    requires
        session.after_all(reports).recording(),
        0 <= index < reports.len(),
        noted_text(reports[index]) is Some,
        forall|i: int| index < i < reports.len() ==> noted_text(#[trigger] reports[i]) is None,
    ensures
        session.after_all(reports).record.transcript_updates.len() > 0,
        Some(session.after_all(reports).record.transcript_updates.last().text) == noted_text(
            reports[index],
        ),
    decreases reports.len(),
{
    let front = reports.drop_last();
    assert(session.after_all(front).recording());
    if index < reports.len() - 1 {
        assert(noted_text(reports[reports.len() - 1]) is None);
        assert forall|i: int| index < i < front.len() implies noted_text(
            #[trigger] front[i],
        ) is None by {
            assert(front[i] == reports[i]);
        }
        law_the_last_report_is_the_last_text(session, front, index);
    }
}

/// The final transcript is noted once more and kept by itself, whatever was noted before.
pub proof fn law_the_final_text_is_kept(session: SessionView, text: Seq<char>, elapsed_ms: u64)
    requires
        session.recording(),
    ensures
        ({
            let before = session.record.transcript_updates;
            let next = session.finalized(text, elapsed_ms);
            let after = next.record.transcript_updates;
            &&& next.record.final_text == text
            &&& next.record.timings.final_result_ms == Some(elapsed_ms)
            &&& after.len() == before.len() + 1
            &&& after.last().text == text && after.last().kind == UpdateKind::Final
                && after.last().elapsed_ms == elapsed_ms
            &&& after.take(before.len() as int) == before
            &&& next.record.timings.first_text_ms == session.record.timings.first_text_ms
            &&& next.record.audio == session.record.audio && next.wave == session.wave
            &&& next.recording()
        }),
{
    let before = session.record.transcript_updates;
    let after = session.finalized(text, elapsed_ms).record.transcript_updates;
    assert(after.take(before.len() as int) =~= before);
}

/// The end of a dictation and the connection are noted at the first report of each, and keep
/// that time; neither report changes anything else.
pub proof fn law_the_first_moment_is_kept(session: SessionView, elapsed_ms: u64, later: u64)
    requires
        session.recording(),
    ensures
        ({
            let released = session.released(elapsed_ms);
            &&& released.record.timings.released_ms is Some
            &&& session.record.timings.released_ms is None
                ==> released.record.timings.released_ms == Some(elapsed_ms)
            &&& session.record.timings.released_ms is Some ==> released == session
            &&& released.released(later) == released
            &&& released.record.timings.connected_ms == session.record.timings.connected_ms
            &&& released.record.transcript_updates == session.record.transcript_updates
            &&& released.record.audio == session.record.audio && released.wave == session.wave
            &&& released.recording()
        }),
        ({
            let connected = session.connected(elapsed_ms);
            &&& connected.record.timings.connected_ms is Some
            &&& session.record.timings.connected_ms is None
                ==> connected.record.timings.connected_ms == Some(elapsed_ms)
            &&& session.record.timings.connected_ms is Some ==> connected == session
            &&& connected.connected(later) == connected
            &&& connected.record.timings.released_ms == session.record.timings.released_ms
            &&& connected.record.transcript_updates == session.record.transcript_updates
            &&& connected.record.audio == session.record.audio && connected.wave == session.wave
            &&& connected.recording()
        }),
{
}

/// The end of a session keeps its transcripts, its final text, its audio statistics and all
/// other moments.
pub proof fn law_the_end_keeps_what_was_recorded(session: SessionView, end: SessionNote)
    requires
        end is Completed || end is Failed,
    ensures
        ({
            let ended = session.after(end);
            &&& ended.record.transcript_updates == session.record.transcript_updates
            &&& ended.record.final_text == session.record.final_text
            &&& ended.record.audio == session.record.audio
            &&& ended.record.context == session.record.context
            &&& ended.record.asr == session.record.asr
            &&& ended.record.session_id == session.record.session_id
            &&& ended.record.started_at == session.record.started_at
            &&& ended.record.timings.released_ms == session.record.timings.released_ms
            &&& ended.record.timings.connected_ms == session.record.timings.connected_ms
            &&& ended.record.timings.first_text_ms == session.record.timings.first_text_ms
            &&& ended.record.timings.final_result_ms == session.record.timings.final_result_ms
            &&& session.recording() ==> ended.record.timings.completed_ms
                == ended.record.elapsed_ms
        }),
{
}

/// The peak is the absolute value of some sample, no other is louder, and silence has the
/// peak 0.
pub proof fn law_the_peak_is_the_loudest_sample(samples: Seq<i16>)
    ensures
        forall|i: int|
            0 <= i < samples.len() ==> -peak(samples) <= #[trigger] samples[i] <= peak(samples),
        peak(samples) > 0 ==> exists|i: int|
            0 <= i < samples.len() && (#[trigger] samples[i] == peak(samples) || samples[i]
                == -peak(samples)),
        peak(samples) >= 0,
    decreases samples.len(),
{
    if samples.len() > 0 {
        let front = samples.drop_last();
        law_the_peak_is_the_loudest_sample(front);
        assert forall|i: int| 0 <= i < samples.len() implies -peak(samples)
            <= #[trigger] samples[i] <= peak(samples) by {
            if i < front.len() {
                assert(samples[i] == front[i]);
            }
        }
        if peak(samples) > 0 {
            if peak(samples) == peak(front) {
                let i = choose|i: int|
                    0 <= i < front.len() && (#[trigger] front[i] == peak(front) || front[i]
                        == -peak(front));
                assert(samples[i] == front[i]);
            } else {
                assert(samples[samples.len() - 1] == samples.last());
            }
        }
    }
}

/// The samples at the two ends of the range are counted as clipped, each once, and no others.
pub proof fn law_clipped_samples_are_counted(left: Seq<i16>, right: Seq<i16>, sample: i16)
    ensures
        clipped_count(left + right) == clipped_count(left) + clipped_count(right),
        clipped_count(seq![sample]) == 1 <==> sample == 32_767 || sample == -32_768,
        clipped_count(seq![sample]) == 0 <==> -32_768 < sample < 32_767,
        clipped_count(Seq::empty()) == 0,
{
    lemma_clipped_add(left, right);
    reveal_with_fuel(clipped_count, 2);
    assert(seq![sample].drop_last() =~= Seq::empty());
}

/// Samples that are written lengthen the audio by their number, and the duration is that of all
/// samples at 16 kHz; the peak does not fall, and is reached by what was there before or by the
/// new samples. The format of the audio and its source stay.
pub proof fn law_written_samples_are_counted(session: SessionView, samples: Seq<i16>)
    requires
        session.well_formed(),
        session.takes_samples(),
        (session.record.audio.samples + samples.len()) * 1_000 <= u64::MAX,
    ensures
        ({
            let before = session.record.audio;
            let next = session.after_samples(samples, None);
            let after = next.record.audio;
            &&& after.samples == before.samples + samples.len()
            &&& next.wave == Some(after.samples)
            &&& after.duration_ms * 16 <= after.samples < (after.duration_ms + 1) * 16
            &&& after.peak_sample >= before.peak_sample
            &&& forall|i: int|
                0 <= i < samples.len() ==> -after.peak_sample <= #[trigger] samples[i]
                    <= after.peak_sample
            &&& after.peak_sample > before.peak_sample ==> exists|i: int|
                0 <= i < samples.len() && (#[trigger] samples[i] == after.peak_sample || samples[i]
                    == -after.peak_sample)
            &&& after.clipped_samples == before.clipped_samples + clipped_count(samples)
            &&& after.write_error is None
            &&& after.sample_rate == before.sample_rate && after.channels == before.channels
                && after.bits_per_sample == before.bits_per_sample && after.file == before.file
            &&& after.source_device == before.source_device && after.source_sample_format
                == before.source_sample_format && after.source_sample_rate
                == before.source_sample_rate && after.source_channels == before.source_channels
            &&& next.record.transcript_updates == session.record.transcript_updates
            &&& next.record.timings == session.record.timings && next.recording()
        }),
{
    law_the_peak_is_the_loudest_sample(samples);
    lemma_peak_bounds(samples);
    lemma_clipped_bounds(samples);
}

/// An audio file that cannot be written is given up with the first error, and the session goes
/// on without it: the statistics stay, and later samples change nothing.
pub proof fn law_lost_audio_stays_lost(
    session: SessionView,
    samples: Seq<i16>,
    error: Seq<char>,
    more: Seq<i16>,
    later: Option<Seq<char>>,
)
    requires
        session.takes_samples(),
    ensures
        ({
            let lost = session.after_samples(samples, Some(error));
            &&& lost.record.audio.write_error == Some(error)
            &&& lost.wave is None
            &&& lost.record.audio.samples == session.record.audio.samples
            &&& lost.record.audio.duration_ms == session.record.audio.duration_ms
            &&& lost.record.audio.peak_sample == session.record.audio.peak_sample
            &&& lost.record.audio.clipped_samples == session.record.audio.clipped_samples
            &&& lost.recording()
            &&& lost.after_samples(more, later) == lost
        }),
{
}

/// A session begins without any moment, text, sample or error; it notes the settings that were
/// in force, with a microphone that was not chosen named as the default of the system.
pub proof fn law_sessions_begin_empty(
    session_id: Seq<char>,
    config: ConfigView,
    tail_capture_ms: u64,
    started_at: Seq<char>,
    started_at_local: Seq<char>,
    app_version: Seq<char>,
)
    ensures
        ({
            let record = new_record(
                session_id,
                config,
                tail_capture_ms,
                started_at,
                started_at_local,
                app_version,
            );
            &&& record.status == SessionStatus::Recording
            &&& record.schema_version == 1
            &&& record.session_id == session_id && record.app_version == app_version
            &&& record.started_at == started_at && record.started_at_local == started_at_local
            &&& record.ended_at is None && record.elapsed_ms is None && record.error is None
                && record.insertion_status is None
            &&& record.transcript_updates.len() == 0 && record.final_text.len() == 0
            &&& record.audio.samples == 0 && record.audio.duration_ms == 0
                && record.audio.peak_sample == 0 && record.audio.clipped_samples == 0
            &&& record.audio.sample_rate == 16_000 && record.audio.channels == 1
                && record.audio.bits_per_sample == 16 && record.audio.file == "audio.wav"@
            &&& record.audio.write_error is None && record.audio.source_device is None
                && record.audio.source_sample_format is None && record.audio.source_sample_rate
                is None && record.audio.source_channels is None
            &&& record.asr.edge_guard_ms == 200 && record.asr.vad_end_window_ms == 400
                && record.asr.tail_capture_ms == tail_capture_ms
            &&& record.timings.released_ms is None && record.timings.connected_ms is None
                && record.timings.first_text_ms is None && record.timings.final_result_ms is None
                && record.timings.completed_ms is None && record.timings.microphone_opened_ms
                is None
            &&& record.context.auto_insert == config.auto_insert
            &&& record.context.microphone.len() > 0
            &&& config.microphone.len() > 0 ==> record.context.microphone == config.microphone
            &&& config.microphone.len() == 0 ==> record.context.microphone == "system-default"@
            &&& record.context.interaction_mode == "toggle"@ <==> config.interaction_mode is Toggle
            &&& record.context.interaction_mode == "hold"@ <==> config.interaction_mode is Hold
        }),
{
    reveal_strlit("system-default");
    reveal_strlit("hold");
    reveal_strlit("toggle");
    assert("hold"@.len() == 4 && "toggle"@.len() == 6);
}

/// A session whose audio file was lost without a word notes that once it has samples to write.
pub proof fn law_a_missing_audio_file_is_noted(
    session: SessionView,
    samples: Seq<i16>,
    error: Option<Seq<char>>,
)
    requires
        session.recording(),
        session.record.audio.write_error is None,
        session.wave is None,
    ensures
        session.after_samples(samples, error).record.audio.write_error == Some(
            "diagnostic wave writer is unavailable"@,
        ),
        session.after_samples(samples, error).record.audio.samples == session.record.audio.samples,
        session.after_samples(samples, error).recording(),
{
}

} // verus!
