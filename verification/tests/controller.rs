use voice_flow::asr::protocol::{TranscriptSegment, TranscriptUpdate};
use voice_flow::asr::session::StreamEvent;
use voice_flow::config::{AppConfig, InteractionMode};
use voice_flow::controller::{
    delivery, delivery_route, final_segments, microphone_message, overlay_logical_height,
    status_duration_ms, stream_phase, AppState, BeginDecision, DeliveryResult, RuntimeSnapshot,
    SaveError, SessionEnd, ShortcutAction, StopDecision,
};
use voice_flow::platform::Platform;
use voice_flow::shortcut::ShortcutEvent;

fn state(mode: InteractionMode) -> AppState {
    let mut state = AppState::new(Platform::Linux);
    let mut config = state.current_config();
    config.secret_key = "key".to_owned();
    config.interaction_mode = mode;
    state.replace_config(config);
    state
}

fn transcript(text: &str) -> StreamEvent {
    StreamEvent::Transcript(TranscriptUpdate {
        text: text.to_owned(),
        segments: vec![TranscriptSegment { text: text.to_owned(), definite: false }],
    })
}

fn shown(state: &AppState) -> (&'static str, String, usize, String) {
    let RuntimeSnapshot { phase, transcript, segments, message } = state.runtime_snapshot();
    (phase, transcript, segments.len(), message)
}

#[test]
fn late_stream_events_do_not_leave_finalizing_phase() {
    assert_eq!(stream_phase("finalizing"), "finalizing");
    assert_eq!(stream_phase("listening"), "listening");
    assert_eq!(stream_phase("connecting"), "listening");
}

#[test]
fn a_new_state_is_idle() {
    let state = AppState::new(Platform::Linux);
    assert!(!state.is_active());
    assert_eq!(shown(&state), ("idle", String::new(), 0, "Ready".to_owned()));
    assert_eq!(state.shortcut_binding().to_string(), "RControl");
    assert_eq!(state.interaction_mode(), InteractionMode::Hold);
    assert!(matches!(state.begin(), BeginDecision::Refused(_)));
}

#[test]
fn settings_are_replaced() {
    let mut state = state(InteractionMode::Hold);
    assert!(state.mark_shortcut_pressed());
    assert!(!state.mark_shortcut_pressed());
    let mut config = state.current_config();
    config.shortcut = "Ctrl+KeyT".to_owned();
    state.replace_config(config);
    assert_eq!(state.shortcut_binding().to_string(), "LControl+T");
    assert!(state.mark_shortcut_pressed());
    state.mark_shortcut_released();
    assert!(!state.shortcut_down);
}

#[test]
fn a_dictation_goes_through_its_phases() {
    let mut state = state(InteractionMode::Hold);
    assert!(matches!(state.begin(), BeginDecision::Begin));
    assert!(state.claim("id", true));
    assert!(!state.claim("other", false));
    assert!(matches!(state.begin(), BeginDecision::AlreadyActive));
    let begun_with = state.current_config();
    state.show_connecting(&begun_with);
    assert_eq!(
        shown(&state),
        ("connecting", String::new(), 0, "Opening the system microphone…".to_owned())
    );
    state.handle_stream_event(StreamEvent::Connected);
    assert_eq!(
        shown(&state),
        (
            "listening",
            String::new(),
            0,
            "Listening · release or press again to insert".to_owned()
        )
    );
    state.handle_stream_event(transcript("hello"));
    assert_eq!(
        shown(&state),
        ("listening", "hello".to_owned(), 1, "Live transcription".to_owned())
    );
    assert!(matches!(state.stop(), StopDecision::Stop));
    assert!(matches!(state.stop(), StopDecision::AlreadyStopping));
    state.handle_stream_event(transcript("hello there"));
    assert_eq!(
        shown(&state),
        ("finalizing", "hello there".to_owned(), 1, "Finishing the transcript…".to_owned())
    );
    state.handle_stream_event(StreamEvent::Connected);
    assert_eq!(shown(&state).0, "finalizing");
    match state.finish_recognition(Ok("  hello there. ".to_owned()), true) {
        SessionEnd::Deliver(text) => assert_eq!(text, "hello there."),
        _ => panic!("there is a text to deliver"),
    }
    assert_eq!(
        shown(&state),
        (
            "inserting",
            "hello there.".to_owned(),
            1,
            "Inserting at the active cursor…".to_owned()
        )
    );
    state.finish_delivery("hello there.", "done".to_owned());
    assert_eq!(shown(&state), ("complete", "hello there.".to_owned(), 1, "done".to_owned()));
    assert!(state.is_active());
    state.return_to_idle();
    assert!(!state.is_active());
    assert_eq!(shown(&state).0, "idle");
    assert!(matches!(state.stop(), StopDecision::NotActive));
}

#[test]
fn other_endings_are_shown() {
    let mut state = state(InteractionMode::Hold);
    assert!(matches!(
        state.finish_recognition(Ok(" \n".to_owned()), true),
        SessionEnd::NoSpeech
    ));
    assert_eq!(
        shown(&state),
        ("complete", String::new(), 0, "No speech detected".to_owned())
    );
    assert!(matches!(
        state.finish_recognition(Err("broken".to_owned()), true),
        SessionEnd::Failed
    ));
    assert_eq!(shown(&state), ("error", String::new(), 0, "broken".to_owned()));
    assert!(matches!(
        state.finish_recognition(Ok("x".to_owned()), false),
        SessionEnd::Deliver(_)
    ));
    assert_eq!(shown(&state).3, "Copying the transcript…");
    state.report_shortcut_error("no key".to_owned());
    assert_eq!(shown(&state), ("error", String::new(), 0, "no key".to_owned()));
    state.show_idle();
    assert_eq!(shown(&state), ("idle", String::new(), 0, "Ready".to_owned()));
    assert!(state.claim("id", false));
    let record = state.recover_from_session_panic("oops");
    assert_eq!(record, "dictation worker panicked: oops");
    assert!(!state.is_active());
    assert_eq!(
        shown(&state),
        ("error", String::new(), 0, "Dictation worker failed: oops".to_owned())
    );
    assert!(state.claim("id", false));
    state.abandon();
    assert!(!state.is_active());
}

#[test]
fn the_shortcut_is_held() {
    let mut state = state(InteractionMode::Hold);
    assert_eq!(state.handle_shortcut(ShortcutEvent::Pressed), ShortcutAction::Begin);
    assert_eq!(state.handle_shortcut(ShortcutEvent::Pressed), ShortcutAction::Nothing);
    assert_eq!(state.handle_shortcut(ShortcutEvent::Released), ShortcutAction::Stop);
    assert_eq!(state.handle_shortcut(ShortcutEvent::Pressed), ShortcutAction::Begin);
}

#[test]
fn the_shortcut_toggles() {
    let mut state = state(InteractionMode::Toggle);
    assert_eq!(state.handle_shortcut(ShortcutEvent::Pressed), ShortcutAction::Begin);
    assert!(state.claim("id", false));
    assert_eq!(state.handle_shortcut(ShortcutEvent::Pressed), ShortcutAction::Nothing);
    assert_eq!(state.handle_shortcut(ShortcutEvent::Released), ShortcutAction::Nothing);
    assert_eq!(state.toggle(), ShortcutAction::Stop);
    assert_eq!(state.handle_shortcut(ShortcutEvent::Pressed), ShortcutAction::Stop);
}

#[test]
fn settings_are_saved_between_dictations() {
    let mut state = state(InteractionMode::Hold);
    let stored = state
        .save_config(AppConfig { shortcut: " Cmd ".to_owned(), ..state.current_config() })
        .unwrap();
    assert_eq!(stored.shortcut, "Command");
    let error = state
        .save_config(AppConfig { shortcut: "?".to_owned(), ..state.current_config() })
        .unwrap_err();
    assert_eq!(error.message(), "Unsupported shortcut key: ?");
    assert!(state.claim("id", false));
    let error = state.save_config(state.current_config()).unwrap_err();
    assert!(matches!(error, SaveError::DictationActive));
    assert_eq!(error.message(), "Stop dictation before changing settings");
}

#[test]
fn deliveries_are_described() {
    let done = delivery(&DeliveryResult::Done, true);
    assert_eq!((done.message.as_str(), done.status), ("Inserted at the active cursor", "inserted"));
    assert!(done.error.is_none());
    let copied = delivery(&DeliveryResult::Done, false);
    assert_eq!((copied.message.as_str(), copied.status), ("Copied to the clipboard", "copied"));
    let failed = delivery(&DeliveryResult::Failed("no paste".to_owned()), true);
    assert_eq!((failed.message.as_str(), failed.status), ("no paste", "failed"));
    assert_eq!(failed.error.as_deref(), Some("no paste"));
    let lost = delivery(&DeliveryResult::TaskFailed("cancelled".to_owned()), false);
    assert_eq!(lost.message, "text insertion task failed: cancelled");
    assert_eq!(lost.error.as_deref(), Some("text insertion task failed: cancelled"));
}

#[test]
fn small_texts_and_sizes() {
    let segments = final_segments("done");
    assert_eq!(segments.len(), 1);
    assert_eq!((segments[0].text.as_str(), segments[0].definite), ("done", true));
    let mut config = AppConfig::default_for(Platform::Linux);
    config.microphone = "USB".to_owned();
    assert_eq!(microphone_message(&config), "Opening USB…");
    assert_eq!(overlay_logical_height(0), 94);
    assert_eq!(overlay_logical_height(94), 94);
    assert_eq!(overlay_logical_height(200), 200);
    assert_eq!(overlay_logical_height(281), 280);
}

#[test]
fn the_microphone_that_is_opened_is_named() {
    let mut state = state(InteractionMode::Hold);
    let mut begun_with = state.current_config();
    begun_with.microphone = "Desk".to_owned();
    assert!(state.claim("id", false));
    let mut saved = state.current_config();
    saved.microphone = "Headset".to_owned();
    state.replace_config(saved);
    state.show_connecting(&begun_with);
    assert_eq!(state.runtime_snapshot().message, "Opening Desk…");
}

#[test]
fn transcripts_are_inserted_or_copied() {
    for platform in [Platform::Linux, Platform::MacOs, Platform::Other] {
        let inserted = delivery_route(platform, true);
        assert!(inserted.insert);
        assert_eq!(inserted.hide_first, platform == Platform::Linux);
        let copied = delivery_route(platform, false);
        assert!(!copied.insert && !copied.hide_first);
    }
    assert_eq!(status_duration_ms(&SessionEnd::Deliver("a".to_owned())), 150);
    assert_eq!(status_duration_ms(&SessionEnd::NoSpeech), 150);
    assert_eq!(status_duration_ms(&SessionEnd::Failed), 3_000);
}

#[test]
fn shortcuts_with_digits_can_be_saved() {
    let state = state(InteractionMode::Hold);
    let mut config = state.current_config();
    config.shortcut = "Ctrl+Digit1".to_owned();
    let saved = state.save_config(config).unwrap();
    assert_eq!(saved.shortcut, "LControl+Key1");
    assert_eq!(state.save_config(saved).unwrap().shortcut, "LControl+Key1");
}
