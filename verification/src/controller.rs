//! The lifecycle of a dictation.

use device_query::Keycode;
use vstd::prelude::*;

use crate::asr::protocol::{
    copied_segments, segment_views, SegmentView, TranscriptSegment,
};
use crate::asr::session::{StreamEvent, StreamEventView};
use crate::config::{
    default_shortcut, default_shortcut_keys, law_default_shortcut_is_valid, AppConfig, ConfigError,
    ConfigErrorView, ConfigView, InteractionMode,
};
use crate::platform::Platform;
use crate::shortcut::{shortcut_keys, ShortcutBinding, ShortcutErrorView, ShortcutEvent};
use crate::text::{same_text, trim, trimmed};

verus! {

pub const RUNTIME_EVENT: &'static str = "voice-flow://runtime";

/// How long the outcome of a dictation is shown.
pub const COMPLETION_STATUS_DURATION_MS: u64 = 150;

/// How long an error is shown.
pub const ERROR_STATUS_DURATION_MS: u64 = 3_000;

/// How long the window manager is given to put the focus back before text is inserted.
pub const LINUX_FOCUS_RETURN_DELAY_MS: u64 = 120;

pub const DICTATION_MIN_HEIGHT: u32 = 94;

pub const DICTATION_MAX_HEIGHT: u32 = 280;

pub const DICTATION_BOTTOM_MARGIN: u32 = 92;

/// What the user sees of a dictation.
#[derive(Debug)]
pub struct RuntimeSnapshot {
    pub phase: &'static str,
    pub transcript: String,
    pub segments: Vec<TranscriptSegment>,
    pub message: String,
}

/// A [`RuntimeSnapshot`] with its texts as sequences of characters.
pub struct SnapshotView {
    pub phase: Seq<char>,
    pub transcript: Seq<char>,
    pub segments: Seq<SegmentView>,
    pub message: Seq<char>,
}

impl View for RuntimeSnapshot {
    type V = SnapshotView;

    open spec fn view(&self) -> SnapshotView {
        SnapshotView {
            phase: self.phase@,
            transcript: self.transcript@,
            segments: segment_views(self.segments@),
            message: self.message@,
        }
    }
}

impl SnapshotView {
    /// No dictation is running.
    pub open spec fn idle() -> SnapshotView {
        SnapshotView::without_text("idle"@, "Ready"@)
    }

    /// A phase without a transcript.
    pub open spec fn without_text(phase: Seq<char>, message: Seq<char>) -> SnapshotView {
        SnapshotView { phase, transcript: Seq::empty(), segments: Seq::empty(), message }
    }

    /// A phase with a transcript that will not change any more.
    pub open spec fn with_final_text(
        phase: Seq<char>,
        text: Seq<char>,
        message: Seq<char>,
    ) -> SnapshotView {
        SnapshotView {
            phase,
            transcript: text,
            segments: seq![SegmentView { text, definite: true }],
            message,
        }
    }
}

/// A transcript that will not change any more, as its only segment.
pub fn final_segments(text: &str) -> (result: Vec<TranscriptSegment>)
    ensures
        segment_views(result@) == seq![SegmentView { text: text@, definite: true }],
{
    let mut segments: Vec<TranscriptSegment> = Vec::new();
    segments.push(TranscriptSegment { text: text.to_owned(), definite: true });
    proof {
        assert(segment_views(segments@) =~= seq![SegmentView { text: text@, definite: true }]);
    }
    segments
}

impl RuntimeSnapshot {
    fn without_text(phase: &'static str, message: String) -> (result: RuntimeSnapshot)
        ensures
            result@ == SnapshotView::without_text(phase@, message@),
    {
        let result = RuntimeSnapshot {
            phase,
            transcript: String::new(),
            segments: Vec::new(),
            message,
        };
        proof {
            assert(result@.transcript =~= Seq::empty());
            assert(result@.segments =~= Seq::empty());
        }
        result
    }

    fn with_final_text(phase: &'static str, text: &str, message: String) -> (result:
        RuntimeSnapshot)
        ensures
            result@ == SnapshotView::with_final_text(phase@, text@, message@),
    {
        RuntimeSnapshot {
            phase,
            transcript: text.to_owned(),
            segments: final_segments(text),
            message,
        }
    }

    /// No dictation is running.
    pub fn idle() -> (result: RuntimeSnapshot)
        ensures
            result@ == SnapshotView::idle(),
    {
        Self::without_text("idle", "Ready".to_owned())
    }

    /// A copy of the snapshot.
    pub fn copied(&self) -> (result: RuntimeSnapshot)
        ensures
            result@ == self@,
    {
        RuntimeSnapshot {
            phase: self.phase,
            transcript: self.transcript.clone(),
            segments: copied_segments(&self.segments),
            message: self.message.clone(),
        }
    }
}

/// The phase that an event of the service leads to: a dictation that was ended stays so.
pub open spec fn phase_after_event(phase: Seq<char>) -> Seq<char> {
    if phase == "finalizing"@ {
        "finalizing"@
    } else {
        "listening"@
    }
}

/// The phase that an event of the service leads to.
pub fn stream_phase(current_phase: &str) -> (result: &'static str)
    ensures
        result@ == phase_after_event(current_phase@),
{
    if same_text(current_phase, "finalizing") {
        "finalizing"
    } else {
        "listening"
    }
}

/// What is shown while the microphone is opened.
pub open spec fn opening_message(microphone: Seq<char>) -> Seq<char> {
    if microphone.len() == 0 {
        "Opening the system microphone…"@
    } else {
        "Opening "@ + microphone + "…"@
    }
}

/// What is shown while the microphone is opened.
pub fn microphone_message(config: &AppConfig) -> (result: String)
    ensures
        result@ == opening_message(config@.microphone),
{
    if config.microphone.as_str().unicode_len() == 0 {
        "Opening the system microphone…".to_owned()
    } else {
        let mut message = "Opening ".to_owned();
        message.append(config.microphone.as_str());
        message.append("…");
        message
    }
}

/// A dictation that is running.
#[derive(Debug)]
pub struct ActiveSession {
    pub session_id: String,
    /// Whether the user can still end the dictation.
    pub stop_pending: bool,
    /// Whether the dictation is recorded.
    pub has_diagnostics: bool,
}

/// An [`ActiveSession`] with its text as a sequence of characters.
pub struct ActiveView {
    pub session_id: Seq<char>,
    pub stop_pending: bool,
    pub has_diagnostics: bool,
}

impl View for ActiveSession {
    type V = ActiveView;

    open spec fn view(&self) -> ActiveView {
        ActiveView {
            session_id: self.session_id@,
            stop_pending: self.stop_pending,
            has_diagnostics: self.has_diagnostics,
        }
    }
}

/// The state of the program.
#[derive(Debug)]
pub struct AppState {
    pub platform: Platform,
    pub config: AppConfig,
    pub shortcut: ShortcutBinding,
    pub session: Option<ActiveSession>,
    pub runtime: RuntimeSnapshot,
    pub shortcut_down: bool,
}

/// [`AppState`] as plain values.
pub struct StateView {
    pub platform: Platform,
    pub config: ConfigView,
    pub shortcut: Seq<Keycode>,
    pub session: Option<ActiveView>,
    pub runtime: SnapshotView,
    pub shortcut_down: bool,
}

impl View for AppState {
    type V = StateView;

    open spec fn view(&self) -> StateView {
        StateView {
            platform: self.platform,
            config: self.config@,
            shortcut: self.shortcut@,
            session: match self.session {
                Some(session) => Some(session@),
                None => None,
            },
            runtime: self.runtime@,
            shortcut_down: self.shortcut_down,
        }
    }
}

impl StateView {
    /// The keys that are watched are those of the shortcut in the settings.
    pub open spec fn well_formed(self) -> bool {
        shortcut_keys(self.config.shortcut, self.platform) == Ok::<
            Seq<Keycode>,
            ShortcutErrorView,
        >(self.shortcut)
    }

    /// The state that shows something else.
    pub open spec fn showing(self, runtime: SnapshotView) -> StateView {
        StateView { runtime, ..self }
    }

    /// The state without a running dictation.
    pub open spec fn ended(self) -> StateView {
        StateView { session: None, ..self }
    }
}

/// Whether a dictation can begin.
#[derive(Debug)]
pub enum BeginDecision {
    Refused(ConfigError),
    AlreadyActive,
    Begin,
}

/// What ending a dictation leads to.
#[derive(Debug)]
pub enum StopDecision {
    NotActive,
    /// It was ended before.
    AlreadyStopping,
    /// The signal to end has to be sent.
    Stop,
}

/// What the shortcut leads to.
#[derive(Clone, Copy, Debug, PartialEq, Eq, Structural)]
pub enum ShortcutAction {
    Nothing,
    Begin,
    Stop,
}

/// What the shortcut leads to: in hold mode a press begins a dictation and the release ends
/// it, in toggle mode every press does the one or the other.
pub open spec fn shortcut_action(
    event: ShortcutEvent,
    mode: InteractionMode,
    was_down: bool,
    active: bool,
) -> ShortcutAction {
    match (event, mode) {
        (ShortcutEvent::Pressed, InteractionMode::Hold) => if was_down {
            ShortcutAction::Nothing
        } else {
            ShortcutAction::Begin
        },
        (ShortcutEvent::Pressed, InteractionMode::Toggle) => if was_down {
            ShortcutAction::Nothing
        } else if active {
            ShortcutAction::Stop
        } else {
            ShortcutAction::Begin
        },
        (ShortcutEvent::Released, InteractionMode::Hold) => ShortcutAction::Stop,
        (ShortcutEvent::Released, InteractionMode::Toggle) => ShortcutAction::Nothing,
    }
}

/// What a finished recognition leads to.
#[derive(Debug)]
pub enum SessionEnd {
    /// This text has to be inserted or copied.
    Deliver(String),
    NoSpeech,
    Failed,
}

/// How a transcript was delivered, in what is shown and recorded.
#[derive(Debug)]
pub struct Delivery {
    pub message: String,
    pub status: &'static str,
    pub error: Option<String>,
}

/// What became of the text that had to be delivered.
#[derive(Debug)]
pub enum DeliveryResult {
    Done,
    Failed(String),
    /// The task that delivers the text did not come to an end.
    TaskFailed(String),
}

/// What is shown of a delivery.
pub open spec fn delivery_message(result: DeliveryResult, auto_insert: bool) -> Seq<char> {
    match result {
        DeliveryResult::Done => if auto_insert {
            "Inserted at the active cursor"@
        } else {
            "Copied to the clipboard"@
        },
        DeliveryResult::Failed(error) => error@,
        DeliveryResult::TaskFailed(error) => "text insertion task failed: "@ + error@,
    }
}

/// How a transcript was delivered.
pub fn delivery(result: &DeliveryResult, auto_insert: bool) -> (delivery: Delivery)
    ensures
        delivery.message@ == delivery_message(*result, auto_insert),
        match *result {
            DeliveryResult::Done => delivery.error is None && delivery.status@
                == if auto_insert {
                "inserted"@
            } else {
                "copied"@
            },
            _ => delivery.status@ == "failed"@ && (delivery.error matches Some(error) && error@
                == delivery_message(*result, auto_insert)),
        },
{
    match result {
        DeliveryResult::Done => if auto_insert {
            Delivery {
                message: "Inserted at the active cursor".to_owned(),
                status: "inserted",
                error: None,
            }
        } else {
            Delivery {
                message: "Copied to the clipboard".to_owned(),
                status: "copied",
                error: None,
            }
        },
        DeliveryResult::Failed(error) => Delivery {
            message: error.clone(),
            status: "failed",
            error: Some(error.clone()),
        },
        DeliveryResult::TaskFailed(error) => {
            let mut detail = "text insertion task failed: ".to_owned();
            detail.append(error.as_str());
            Delivery { message: detail.clone(), status: "failed", error: Some(detail) }
        },
    }
}

/// Why settings are not saved.
#[derive(Debug)]
pub enum SaveError {
    DictationActive,
    Config(ConfigError),
}

impl SaveError {
    pub open spec fn spec_message(self) -> Seq<char> {
        match self {
            SaveError::DictationActive => "Stop dictation before changing settings"@,
            SaveError::Config(error) => error@.message(),
        }
    }

    /// What the user is told.
    pub fn message(&self) -> (result: String)
        ensures
            result@ == self.spec_message(),
    {
        match self {
            SaveError::DictationActive => "Stop dictation before changing settings".to_owned(),
            SaveError::Config(error) => error.message(),
        }
    }
}

/// What is shown after an event of the service.
pub open spec fn after_event(current: SnapshotView, event: StreamEventView) -> SnapshotView {
    let finalizing = current.phase == "finalizing"@;
    match event {
        StreamEventView::Connected => SnapshotView {
            phase: phase_after_event(current.phase),
            message: if finalizing {
                "Finishing the transcript…"@
            } else {
                "Listening · release or press again to insert"@
            },
            ..current
        },
        StreamEventView::Transcript(update) => SnapshotView {
            phase: phase_after_event(current.phase),
            transcript: update.text,
            segments: update.segments,
            message: if finalizing {
                "Finishing the transcript…"@
            } else {
                "Live transcription"@
            },
        },
    }
}

impl AppState {
    /// The state of the program at its start.
    pub fn new(platform: Platform) -> (result: AppState)
        ensures
            result@ == (StateView {
                platform,
                config: ConfigView::default_for(platform),
                shortcut: default_shortcut_keys(platform),
                session: None,
                runtime: SnapshotView::idle(),
                shortcut_down: false,
            }),
            result@.well_formed(),
    {
        proof {
            law_default_shortcut_is_valid(platform);
        }
        let mut shortcut = None;
        if let Ok(binding) = ShortcutBinding::parse(default_shortcut(platform), platform) {
            shortcut = Some(binding);
        }
        AppState {
            platform,
            config: AppConfig::default_for(platform),
            shortcut: shortcut.unwrap(),
            session: None,
            runtime: RuntimeSnapshot::idle(),
            shortcut_down: false,
        }
    }

    /// The settings.
    pub fn current_config(&self) -> (result: AppConfig)
        ensures
            result@ == self@.config,
    {
        self.config.copied()
    }

    /// Takes new settings over; the shortcut counts as not held down.
    pub fn replace_config(&mut self, config: AppConfig)
        requires
            config@.settings_error(old(self)@.platform) is None,
        ensures
            final(self)@.well_formed(),
            final(self)@ == (StateView {
                config: config@,
                shortcut: final(self)@.shortcut,
                shortcut_down: false,
                ..old(self)@
            }),
    {
        let parsed = ShortcutBinding::parse(config.shortcut.as_str(), self.platform);
        if let Ok(binding) = parsed {
            self.shortcut = binding;
        }
        self.config = config;
        self.shortcut_down = false;
    }

    /// The shortcut that is watched.
    pub fn shortcut_binding(&self) -> (result: ShortcutBinding)
        ensures
            result@ == self@.shortcut,
    {
        self.shortcut.copied()
    }

    /// What the user sees.
    pub fn runtime_snapshot(&self) -> (result: RuntimeSnapshot)
        ensures
            result@ == self@.runtime,
    {
        self.runtime.copied()
    }

    /// How the shortcut controls dictation.
    pub fn interaction_mode(&self) -> (result: InteractionMode)
        ensures
            result == self@.config.interaction_mode,
    {
        self.config.interaction_mode
    }

    /// Whether a dictation is running.
    pub fn is_active(&self) -> (result: bool)
        ensures
            result == (self@.session is Some),
    {
        self.session.is_some()
    }

    /// The shortcut is held down; says whether it was not before.
    pub fn mark_shortcut_pressed(&mut self) -> (result: bool)
        ensures
            old(self)@.well_formed() ==> final(self)@.well_formed(),
            result == !old(self)@.shortcut_down,
            final(self)@ == (StateView { shortcut_down: true, ..old(self)@ }),
    {
        let was_up = !self.shortcut_down;
        self.shortcut_down = true;
        was_up
    }

    /// The shortcut is not held down any more.
    pub fn mark_shortcut_released(&mut self)
        ensures
            old(self)@.well_formed() ==> final(self)@.well_formed(),
            final(self)@ == (StateView { shortcut_down: false, ..old(self)@ }),
    {
        self.shortcut_down = false;
    }

    /// Whether a dictation can begin.
    pub fn begin(&self) -> (result: BeginDecision)
        ensures
            match result {
                BeginDecision::Refused(error) => self@.config.dictation_error(self@.platform)
                    == Some(error@),
                BeginDecision::AlreadyActive => self@.config.dictation_error(self@.platform) is None
                    && self@.session is Some,
                BeginDecision::Begin => self@.config.dictation_error(self@.platform) is None
                    && self@.session is None,
            },
    {
        match self.config.validate_for_dictation(self.platform) {
            Err(error) => BeginDecision::Refused(error),
            Ok(_) => if self.session.is_some() {
                BeginDecision::AlreadyActive
            } else {
                BeginDecision::Begin
            },
        }
    }

    /// Enters a new dictation; `false` where another one was entered in the meantime.
    pub fn claim(&mut self, session_id: &str, has_diagnostics: bool) -> (result: bool)
        ensures
            old(self)@.well_formed() ==> final(self)@.well_formed(),
            result == (old(self)@.session is None),
            final(self)@ == if result {
                StateView {
                    session: Some(
                        ActiveView {
                            session_id: session_id@,
                            stop_pending: true,
                            has_diagnostics,
                        },
                    ),
                    ..old(self)@
                }
            } else {
                old(self)@
            },
    {
        if self.session.is_some() {
            return false;
        }
        self.session = Some(
            ActiveSession {
                session_id: session_id.to_owned(),
                stop_pending: true,
                has_diagnostics,
            },
        );
        true
    }

    /// A dictation could not be started after all.
    pub fn abandon(&mut self)
        ensures
            old(self)@.well_formed() ==> final(self)@.well_formed(),
            final(self)@ == old(self)@.ended(),
    {
        self.session = None;
    }

    /// The microphone is open and the window shown: the connection is made next. The message
    /// names the microphone of the settings that the dictation began with.
    pub fn show_connecting(&mut self, config: &AppConfig)
        ensures
            old(self)@.well_formed() ==> final(self)@.well_formed(),
            final(self)@ == old(self)@.showing(
                SnapshotView::without_text(
                    "connecting"@,
                    opening_message(config@.microphone),
                ),
            ),
    {
        let message = microphone_message(config);
        self.runtime = RuntimeSnapshot::without_text("connecting", message);
    }

    /// The user ends the dictation. The signal is sent once; the transcript so far stays in
    /// sight.
    pub fn stop(&mut self) -> (result: StopDecision)
        ensures
            old(self)@.well_formed() ==> final(self)@.well_formed(),
            match result {
                StopDecision::NotActive => old(self)@.session is None && final(self)@ == old(
                    self,
                )@,
                StopDecision::AlreadyStopping => old(self)@.session is Some && !old(
                    self,
                )@.session->0.stop_pending && final(self)@ == old(self)@,
                StopDecision::Stop => old(self)@.session is Some && old(
                    self,
                )@.session->0.stop_pending && final(self)@ == (StateView {
                    session: Some(
                        ActiveView { stop_pending: false, ..old(self)@.session->0 },
                    ),
                    runtime: SnapshotView {
                        phase: "finalizing"@,
                        message: "Finishing the transcript…"@,
                        ..old(self)@.runtime
                    },
                    ..old(self)@
                }),
            },
    {
        let stopped = match &self.session {
            None => {
                return StopDecision::NotActive;
            },
            Some(session) => {
                if !session.stop_pending {
                    return StopDecision::AlreadyStopping;
                }
                ActiveSession {
                    session_id: session.session_id.clone(),
                    stop_pending: false,
                    has_diagnostics: session.has_diagnostics,
                }
            },
        };
        self.session = Some(stopped);
        self.runtime = RuntimeSnapshot {
            phase: "finalizing",
            transcript: self.runtime.transcript.clone(),
            segments: copied_segments(&self.runtime.segments),
            message: "Finishing the transcript…".to_owned(),
        };
        StopDecision::Stop
    }

    /// What a request to begin or end, whichever fits, leads to.
    pub fn toggle(&self) -> (result: ShortcutAction)
        ensures
            result == if self@.session is Some {
                ShortcutAction::Stop
            } else {
                ShortcutAction::Begin
            },
    {
        if self.session.is_some() {
            ShortcutAction::Stop
        } else {
            ShortcutAction::Begin
        }
    }

    /// The shortcut was pressed or released.
    pub fn handle_shortcut(&mut self, event: ShortcutEvent) -> (result: ShortcutAction)
        ensures
            old(self)@.well_formed() ==> final(self)@.well_formed(),
            result == shortcut_action(
                event,
                old(self)@.config.interaction_mode,
                old(self)@.shortcut_down,
                old(self)@.session is Some,
            ),
            final(self)@ == (StateView { shortcut_down: event is Pressed, ..old(self)@ }),
    {
        match event {
            ShortcutEvent::Pressed => {
                if !self.mark_shortcut_pressed() {
                    return ShortcutAction::Nothing;
                }
                match self.config.interaction_mode {
                    InteractionMode::Hold => ShortcutAction::Begin,
                    InteractionMode::Toggle => self.toggle(),
                }
            },
            ShortcutEvent::Released => {
                self.mark_shortcut_released();
                match self.config.interaction_mode {
                    InteractionMode::Hold => ShortcutAction::Stop,
                    InteractionMode::Toggle => ShortcutAction::Nothing,
                }
            },
        }
    }

    /// What the shortcut should have done has failed.
    pub fn report_shortcut_error(&mut self, message: String)
        ensures
            old(self)@.well_formed() ==> final(self)@.well_formed(),
            final(self)@ == old(self)@.showing(SnapshotView::without_text("error"@, message@)),
    {
        self.runtime = RuntimeSnapshot::without_text("error", message);
    }

    /// An error was shown long enough; a dictation that runs by now goes on.
    pub fn show_idle(&mut self)
        ensures
            old(self)@.well_formed() ==> final(self)@.well_formed(),
            final(self)@ == old(self)@.showing(SnapshotView::idle()),
    {
        self.runtime = RuntimeSnapshot::idle();
    }

    /// The service has connected or recognized something.
    pub fn handle_stream_event(&mut self, event: StreamEvent)
        ensures
            old(self)@.well_formed() ==> final(self)@.well_formed(),
            final(self)@ == old(self)@.showing(after_event(old(self)@.runtime, event@)),
    {
        let finalizing = same_text(self.runtime.phase, "finalizing");
        let phase = stream_phase(self.runtime.phase);
        match event {
            StreamEvent::Connected => {
                self.runtime = RuntimeSnapshot {
                    phase,
                    transcript: self.runtime.transcript.clone(),
                    segments: copied_segments(&self.runtime.segments),
                    message: if finalizing {
                        "Finishing the transcript…".to_owned()
                    } else {
                        "Listening · release or press again to insert".to_owned()
                    },
                };
            },
            StreamEvent::Transcript(update) => {
                self.runtime = RuntimeSnapshot {
                    phase,
                    transcript: update.text,
                    segments: update.segments,
                    message: if finalizing {
                        "Finishing the transcript…".to_owned()
                    } else {
                        "Live transcription".to_owned()
                    },
                };
            },
        }
    }

    /// The recognition has come to an end, with the transcript or an error message.
    pub fn finish_recognition(&mut self, outcome: Result<String, String>, auto_insert: bool) -> (
        result: SessionEnd)
        ensures
            old(self)@.well_formed() ==> final(self)@.well_formed(),
            match outcome {
                Ok(text) => if trimmed(text@).len() > 0 {
                    &&& result matches SessionEnd::Deliver(delivered) && delivered@ == trimmed(
                        text@,
                    )
                    &&& final(self)@ == old(self)@.showing(
                        SnapshotView::with_final_text(
                            "inserting"@,
                            trimmed(text@),
                            if auto_insert {
                                "Inserting at the active cursor…"@
                            } else {
                                "Copying the transcript…"@
                            },
                        ),
                    )
                } else {
                    &&& result is NoSpeech
                    &&& final(self)@ == old(self)@.showing(
                        SnapshotView::without_text("complete"@, "No speech detected"@),
                    )
                },
                Err(error) => {
                    &&& result is Failed
                    &&& final(self)@ == old(self)@.showing(
                        SnapshotView::without_text("error"@, error@),
                    )
                },
            },
    {
        match outcome {
            Ok(text) => {
                let text = trim(text.as_str()).to_owned();
                if text.as_str().unicode_len() > 0 {
                    let message = if auto_insert {
                        "Inserting at the active cursor…".to_owned()
                    } else {
                        "Copying the transcript…".to_owned()
                    };
                    self.runtime = RuntimeSnapshot::with_final_text(
                        "inserting",
                        text.as_str(),
                        message,
                    );
                    SessionEnd::Deliver(text)
                } else {
                    self.runtime = RuntimeSnapshot::without_text(
                        "complete",
                        "No speech detected".to_owned(),
                    );
                    SessionEnd::NoSpeech
                }
            },
            Err(error) => {
                self.runtime = RuntimeSnapshot::without_text("error", error);
                SessionEnd::Failed
            },
        }
    }

    /// The transcript was delivered, or could not be.
    pub fn finish_delivery(&mut self, text: &str, message: String)
        ensures
            old(self)@.well_formed() ==> final(self)@.well_formed(),
            final(self)@ == old(self)@.showing(
                SnapshotView::with_final_text("complete"@, text@, message@),
            ),
    {
        self.runtime = RuntimeSnapshot::with_final_text("complete", text, message);
    }

    /// A dictation is over and its outcome was shown long enough.
    pub fn return_to_idle(&mut self)
        ensures
            old(self)@.well_formed() ==> final(self)@.well_formed(),
            final(self)@ == old(self)@.ended().showing(SnapshotView::idle()),
    {
        self.session = None;
        self.runtime = RuntimeSnapshot::idle();
    }

    /// The worker of a dictation has panicked. The text is what is recorded about it.
    pub fn recover_from_session_panic(&mut self, detail: &str) -> (result: String)
        ensures
            old(self)@.well_formed() ==> final(self)@.well_formed(),
            result@ == "dictation worker panicked: "@ + detail@,
            final(self)@ == old(self)@.ended().showing(
                SnapshotView::without_text(
                    "error"@,
                    "Dictation worker failed: "@ + detail@,
                ),
            ),
    {
        self.session = None;
        let mut message = "Dictation worker failed: ".to_owned();
        message.append(detail);
        self.runtime = RuntimeSnapshot::without_text("error", message);
        let mut record = "dictation worker panicked: ".to_owned();
        record.append(detail);
        record
    }

    /// The settings to save, given what the user has entered. They can be taken over with
    /// [`AppState::replace_config`] once they are saved.
    pub fn save_config(&self, config: AppConfig) -> (result: Result<AppConfig, SaveError>)
        ensures
            match result {
                Ok(stored) => self@.session is None && stored@ == config@.normalized(
                    self@.platform,
                ) && stored@.settings_error(self@.platform) is None,
                Err(SaveError::DictationActive) => self@.session is Some,
                Err(SaveError::Config(error)) => self@.session is None && config@.normalized(
                    self@.platform,
                ).settings_error(self@.platform) == Some(error@),
            },
    {
        if self.session.is_some() {
            return Err(SaveError::DictationActive);
        }
        let config = config.normalized(self.platform);
        match config.validate_settings(self.platform) {
            Ok(_) => Ok(config),
            Err(error) => Err(SaveError::Config(error)),
        }
    }
}

/// How a transcript is delivered.
#[derive(Clone, Copy, Debug, PartialEq, Eq, Structural)]
pub struct DeliveryRoute {
    /// Insert the text at the cursor, not only copy it.
    pub insert: bool,
    /// Hide the window for [`LINUX_FOCUS_RETURN_DELAY_MS`] first, so that the window manager
    /// can put the focus back.
    pub hide_first: bool,
}

/// How a transcript is delivered.
pub fn delivery_route(platform: Platform, auto_insert: bool) -> (result: DeliveryRoute)
    ensures
        result.insert == auto_insert,
        result.hide_first == (auto_insert && platform is Linux),
{
    DeliveryRoute {
        insert: auto_insert,
        hide_first: auto_insert && platform == Platform::Linux,
    }
}

/// How long the outcome of a dictation is shown, in milliseconds.
pub fn status_duration_ms(end: &SessionEnd) -> (result: u64)
    ensures
        result == match *end {
            SessionEnd::Deliver(_) | SessionEnd::NoSpeech => COMPLETION_STATUS_DURATION_MS,
            SessionEnd::Failed => ERROR_STATUS_DURATION_MS,
        },
{
    match end {
        SessionEnd::Deliver(_) | SessionEnd::NoSpeech => COMPLETION_STATUS_DURATION_MS,
        SessionEnd::Failed => ERROR_STATUS_DURATION_MS,
    }
}

/// The height of the transcript window, in logical pixels, for the height that its contents
/// ask for.
pub fn overlay_logical_height(height: u32) -> (result: u32)
    ensures
        DICTATION_MIN_HEIGHT <= result <= DICTATION_MAX_HEIGHT,
        DICTATION_MIN_HEIGHT <= height <= DICTATION_MAX_HEIGHT ==> result == height,
        height < DICTATION_MIN_HEIGHT ==> result == DICTATION_MIN_HEIGHT,
        height > DICTATION_MAX_HEIGHT ==> result == DICTATION_MAX_HEIGHT,
{
    if height < DICTATION_MIN_HEIGHT {
        DICTATION_MIN_HEIGHT
    } else if height > DICTATION_MAX_HEIGHT {
        DICTATION_MAX_HEIGHT
    } else {
        height
    }
}

/// What the user sees after a series of events of the service.
pub open spec fn after_events(current: SnapshotView, events: Seq<StreamEventView>) -> SnapshotView
    decreases events.len(),
{
    if events.len() == 0 {
        current
    } else {
        after_event(after_events(current, events.drop_last()), events.last())
    }
}

/// A dictation that the user has ended does not go back to listening, whatever the service
/// still sends.
pub proof fn law_late_events_do_not_leave_finalizing(
    current: SnapshotView,
    events: Seq<StreamEventView>,
)
    requires
        current.phase == "finalizing"@,
    ensures
        after_events(current, events).phase == "finalizing"@,
        events.len() > 0 ==> after_events(current, events).message
            == "Finishing the transcript…"@,
    decreases events.len(),
{
    if events.len() > 0 {
        law_late_events_do_not_leave_finalizing(current, events.drop_last());
    }
}

/// The transcript that is shown is the last one that the service sent.
pub proof fn law_the_last_transcript_is_shown(
    current: SnapshotView,
    events: Seq<StreamEventView>,
)
    requires
        events.len() > 0,
    ensures
        events.last() matches StreamEventView::Transcript(update) ==> after_events(
            current,
            events,
        ).transcript == update.text && after_events(current, events).segments == update.segments,
        events.last() is Connected ==> after_events(current, events).transcript == after_events(
            current,
            events.drop_last(),
        ).transcript,
{
}

/// What the event at `index` leads to, where the shortcut was up at first and `active` says
/// whether a dictation is running at the time of each event.
pub open spec fn action_at(
    events: Seq<ShortcutEvent>,
    mode: InteractionMode,
    active: Seq<bool>,
    index: int,
) -> ShortcutAction {
    shortcut_action(
        events[index],
        mode,
        index > 0 && events[index - 1] is Pressed,
        active[index],
    )
}

/// In hold mode a dictation is ended before the shortcut begins another one, however often a
/// press is repeated.
pub proof fn law_hold_mode_follows_the_key(
    events: Seq<ShortcutEvent>,
    active: Seq<bool>,
    first: int,
    second: int,
)
    requires
        0 <= first < second < events.len(),
        action_at(events, InteractionMode::Hold, active, first) == ShortcutAction::Begin,
        action_at(events, InteractionMode::Hold, active, second) == ShortcutAction::Begin,
    ensures
        exists|between: int|
            first < between < second && #[trigger] action_at(
                events,
                InteractionMode::Hold,
                active,
                between,
            ) == ShortcutAction::Stop,
{
    assert(action_at(events, InteractionMode::Hold, active, second - 1) == ShortcutAction::Stop);
}

/// In toggle mode the shortcut has to be let go before it does something again, and what a
/// fresh press does is the opposite of what is going on.
pub proof fn law_toggle_mode_follows_the_presses(
    events: Seq<ShortcutEvent>,
    active: Seq<bool>,
    first: int,
    second: int,
)
    requires
        0 <= first < second < events.len(),
        action_at(events, InteractionMode::Toggle, active, first) != ShortcutAction::Nothing,
        action_at(events, InteractionMode::Toggle, active, second) != ShortcutAction::Nothing,
    ensures
        exists|between: int| first < between < second && #[trigger] events[between] is Released,
        action_at(events, InteractionMode::Toggle, active, second) == if active[second] {
            ShortcutAction::Stop
        } else {
            ShortcutAction::Begin
        },
{
    assert(events[second - 1] is Released);
}

/// A dictation begins with a fresh press of the shortcut, except one that ends a running
/// dictation in toggle mode; it ends with the release in hold mode, and with a fresh press in
/// toggle mode while it runs. A repeated press does nothing.
pub proof fn law_the_shortcut_begins_and_ends(
    event: ShortcutEvent,
    mode: InteractionMode,
    was_down: bool,
    active: bool,
)
    ensures
        shortcut_action(event, mode, was_down, active) is Begin <==> event is Pressed && !was_down
            && (mode is Hold || !active),
        shortcut_action(event, mode, was_down, active) is Stop <==> (event is Released && mode
            is Hold) || (event is Pressed && !was_down && mode is Toggle && active),
        event is Pressed && was_down ==> shortcut_action(event, mode, was_down, active) is Nothing,
{
}

/// Connecting keeps the transcript in sight, and a transcript replaces the one before it, longer
/// or shorter. What is shown is listening, except after the user has ended the dictation.
pub proof fn law_events_are_shown(current: SnapshotView, event: StreamEventView)
    ensures
        ({
            let next = after_event(current, event);
            &&& event is Connected ==> next.transcript == current.transcript && next.segments
                == current.segments
            &&& event matches StreamEventView::Transcript(update) ==> next.transcript
                == update.text && next.segments == update.segments
            &&& current.phase == "finalizing"@ ==> next.phase == "finalizing"@ && next.message
                == "Finishing the transcript…"@
            &&& current.phase != "finalizing"@ ==> next.phase == "listening"@
            &&& current.phase != "finalizing"@ && event is Connected ==> next.message
                == "Listening · release or press again to insert"@
            &&& current.phase != "finalizing"@ && event is Transcript ==> next.message
                == "Live transcription"@
        }),
{
}

/// What is shown after a series of events is the transcript that came last, whatever came
/// before it and however often the service connected since.
pub proof fn law_the_latest_transcript_stays_in_sight(
    current: SnapshotView,
    events: Seq<StreamEventView>,
    index: int,
)
    requires
        0 <= index < events.len(),
        events[index] is Transcript,
        forall|i: int| index < i < events.len() ==> #[trigger] events[i] is Connected,
    ensures
        events[index] matches StreamEventView::Transcript(update) ==> after_events(
            current,
            events,
        ).transcript == update.text && after_events(current, events).segments == update.segments,
    decreases events.len(),
{
    let front = events.drop_last();
    law_events_are_shown(after_events(current, front), events.last());
    if index < events.len() - 1 {
        assert(events[events.len() - 1] is Connected);
        assert forall|i: int| index < i < front.len() implies #[trigger] front[i] is Connected by {
            assert(front[i] == events[i]);
        }
        law_the_latest_transcript_stays_in_sight(current, front, index);
    }
}

/// A final text is shown whole, as one segment that does not change any more; a phase without
/// a text shows none.
pub proof fn law_snapshots_show_their_text(phase: Seq<char>, text: Seq<char>, message: Seq<char>)
    ensures
        ({
            let shown = SnapshotView::with_final_text(phase, text, message);
            &&& shown.transcript == text
            &&& shown.segments.len() == 1 && shown.segments[0].text == text
                && shown.segments[0].definite
            &&& shown.phase == phase && shown.message == message
        }),
        ({
            let shown = SnapshotView::without_text(phase, message);
            &&& shown.transcript.len() == 0 && shown.segments.len() == 0
            &&& shown.phase == phase && shown.message == message
        }),
        SnapshotView::idle().transcript.len() == 0 && SnapshotView::idle().segments.len() == 0,
        SnapshotView::idle().phase == "idle"@ && SnapshotView::idle().message == "Ready"@,
{
}

/// A microphone that was chosen is named while it is opened, exactly as in the settings; two
/// microphones are told apart.
pub proof fn law_the_opened_microphone_is_named(microphone: Seq<char>, other: Seq<char>)
    ensures
        microphone.len() > 0 ==> opening_message(microphone) == "Opening "@ + microphone + "…"@,
        microphone.len() > 0 && other.len() > 0 && microphone != other ==> opening_message(
            microphone,
        ) != opening_message(other),
        microphone.len() == 0 ==> opening_message(microphone) == "Opening the system microphone…"@,
{
    reveal_strlit("Opening ");
    reveal_strlit("…");
    let a = opening_message(microphone);
    let b = opening_message(other);
    if microphone.len() > 0 && other.len() > 0 && a == b {
        assert(a.subrange(8, a.len() - 1) =~= microphone);
        assert(b.subrange(8, b.len() - 1) =~= other);
    }
}

/// The user is told of an error as it was reported, and what succeeded is told apart from what
/// did not happen: the text was inserted or only copied.
pub proof fn law_deliveries_are_told(error: String, auto_insert: bool)
    ensures
        delivery_message(DeliveryResult::Failed(error), auto_insert) == error@,
        delivery_message(DeliveryResult::TaskFailed(error), auto_insert)
            == "text insertion task failed: "@ + error@,
        delivery_message(DeliveryResult::Done, true) == "Inserted at the active cursor"@,
        delivery_message(DeliveryResult::Done, false) == "Copied to the clipboard"@,
{
}

/// Showing something else and ending a dictation leave the settings, the shortcut and whether
/// it is held down as they are; the one leaves the dictation, the other what is shown.
pub proof fn law_the_state_keeps_the_rest(state: StateView, runtime: SnapshotView)
    ensures
        ({
            let shown = state.showing(runtime);
            &&& shown.runtime == runtime
            &&& shown.session == state.session && shown.config == state.config
            &&& shown.shortcut == state.shortcut && shown.shortcut_down == state.shortcut_down
            &&& shown.platform == state.platform
            &&& shown.well_formed() == state.well_formed()
        }),
        ({
            let ended = state.ended();
            &&& ended.session is None
            &&& ended.runtime == state.runtime && ended.config == state.config
            &&& ended.shortcut == state.shortcut && ended.shortcut_down == state.shortcut_down
            &&& ended.platform == state.platform
            &&& ended.well_formed() == state.well_formed()
        }),
        state.well_formed() <==> shortcut_keys(state.config.shortcut, state.platform) == Ok::<
            Seq<Keycode>,
            ShortcutErrorView,
        >(state.shortcut),
{
}

} // verus!
