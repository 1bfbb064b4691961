use evdev::KeyCode;
use voice_flow::platform::linux::{
    display_server, paste_events, paste_keyboard_codes, restore_status, x11_unavailable, ClipboardInsertion,
    DisplayServer, InsertionAction, InsertionEvent, OwnerState,
};
use voice_flow::platform::linux_clipboard::{
    helper_answer, input_decision, input_timeout_message, read_text, reader_outcome,
    run_read_helper, text_in_answer, timeout_message, wait_decision, ClipboardContents,
    ProcessExit, ProcessState, ReadError, WaitDecision,
};
use voice_flow::platform::{
    activate_external_dictation_overlay, blocked_paste, dictation_overlay_position,
    failure_is_fatal, initialize, is_wayland_session, prepare_runtime, primary_gpu_is_nvidia, publish_dictation_preview,
    target_monitor, window_position, window_steps, ClipboardRestoreStatus, GraphicsDevice,
    GraphicsFacts, InsertionReport, MonitorSource, Platform, Position, PreviewTarget, Size,
    TextInjector, UnsupportedTextInjector, WindowStep,
};

fn report(error: Option<&str>, restore: Option<ClipboardRestoreStatus>) -> InsertionReport {
    InsertionReport {
        insertion_error: error.map(str::to_owned),
        clipboard_restore: restore,
    }
}

#[test]
fn insertion_reports_explain_clipboard_restore_outcomes() {
    let restored = InsertionReport {
        insertion_error: None,
        clipboard_restore: Some(ClipboardRestoreStatus::Restored),
    };
    assert_eq!(restored.insertion_status(), "inserted_clipboard_restored");
    assert_eq!(restored.notice(), None);

    let changed = InsertionReport {
        insertion_error: None,
        clipboard_restore: Some(ClipboardRestoreStatus::SkippedExternalChange),
    };
    assert_eq!(
        changed.insertion_status(),
        "inserted_clipboard_external_change"
    );
    assert_eq!(
        changed.notice(),
        Some("Inserted · newer clipboard content kept")
    );
}

#[test]
fn every_outcome_has_a_status_and_a_notice() {
    let failed = || ClipboardRestoreStatus::Failed("x".to_owned());
    let cases = [
        (report(None, Some(ClipboardRestoreStatus::OriginalUnavailable)),
            "inserted_clipboard_original_unavailable",
            Some("Inserted · non-text clipboard not restored")),
        (report(None, Some(failed())), "inserted_clipboard_restore_failed",
            Some("Inserted · clipboard restore failed")),
        (report(None, None), "inserted_clipboard_restore_not_attempted",
            Some("Inserted · clipboard restore was not attempted")),
        (report(Some("e"), Some(ClipboardRestoreStatus::Restored)), "failed_clipboard",
            Some("Insertion failed · plain-text clipboard restored")),
        (report(Some("e"), Some(ClipboardRestoreStatus::SkippedExternalChange)),
            "failed_clipboard", Some("Insertion failed · newer clipboard content kept")),
        (report(Some("e"), Some(ClipboardRestoreStatus::OriginalUnavailable)),
            "failed_clipboard", Some("Insertion failed · non-text clipboard not restored")),
        (report(Some("e"), Some(failed())), "failed_clipboard",
            Some("Insertion failed · clipboard restore also failed")),
        (report(Some("e"), None), "failed_clipboard", Some("Insertion failed")),
    ];
    for (report, status, notice) in cases {
        assert_eq!(report.insertion_status(), status);
        assert_eq!(report.notice(), notice);
        assert_eq!(report.succeeded(), report.insertion_error().is_none());
    }
}

#[test]
fn restore_statuses_have_names() {
    assert_eq!(ClipboardRestoreStatus::Restored.as_str(), "restored");
    assert_eq!(ClipboardRestoreStatus::OriginalUnavailable.as_str(), "original_unavailable");
    assert_eq!(
        ClipboardRestoreStatus::SkippedExternalChange.as_str(),
        "skipped_external_change"
    );
    let failed = ClipboardRestoreStatus::Failed("why".to_owned());
    assert_eq!(failed.as_str(), "failed");
    assert_eq!(failed.error(), Some("why"));
    assert_eq!(ClipboardRestoreStatus::Restored.error(), None);
    let early = InsertionReport::failed_before_publish("no clipboard".to_owned());
    assert_eq!(early.insertion_error(), Some("no clipboard"));
    assert!(early.clipboard_restore().is_none());
}

#[test]
fn unsupported_platforms_refuse_to_insert() {
    let report = UnsupportedTextInjector.insert_at_active_cursor("text");
    assert!(!report.succeeded());
    assert_eq!(report.notice(), Some("Insertion failed"));
}

#[test]
fn blocked_pastes_are_explained() {
    assert_eq!(
        blocked_paste(" \n"),
        "the transcript was copied, but macOS blocked automatic paste"
    );
    assert_eq!(
        blocked_paste(" not allowed\n"),
        "the transcript was copied, but macOS blocked automatic paste: not allowed"
    );
}

#[test]
fn centers_dictation_overlay_on_macos() {
    let position = dictation_overlay_position(
        &Position { x: -1920, y: 0 },
        &Size { width: 1920, height: 1080 },
        &Size { width: 720, height: 94 },
    );

    assert_eq!(position, Position { x: -1320, y: 493 });
}

#[test]
fn centers_dictation_overlay_with_positive_origin() {
    let position = dictation_overlay_position(
        &Position { x: 0, y: 0 },
        &Size { width: 1920, height: 1080 },
        &Size { width: 720, height: 94 },
    );

    assert_eq!(position, Position { x: 600, y: 493 });
}

#[test]
fn windows_stay_at_the_edge_of_small_monitors() {
    let position = dictation_overlay_position(
        &Position { x: 5, y: 6 },
        &Size { width: 100, height: 50 },
        &Size { width: 720, height: 94 },
    );
    assert_eq!(position, Position { x: 5, y: 6 });
    let position = window_position(
        &Position { x: 100, y: 0 },
        &Size { width: 1920, height: 1080 },
        &Size { width: 720, height: 94 },
        92,
    );
    assert_eq!(position, Position { x: 700, y: 894 });
}

#[test]
fn graphics_workarounds_depend_on_the_session() {
    let facts = GraphicsFacts {
        primary_nvidia: true,
        nvidia_module: true,
        wayland: true,
        explicit_sync_set: false,
        dmabuf_set: false,
    };
    let found = prepare_runtime(Platform::Linux, facts).unwrap();
    assert_eq!(found.variable, "__NV_DISABLE_EXPLICIT_SYNC");
    assert_eq!(found.name, "disable-nvidia-explicit-sync");
    let x11 = GraphicsFacts { wayland: false, ..facts };
    let found = prepare_runtime(Platform::Linux, x11).unwrap();
    assert_eq!(found.variable, "WEBKIT_DISABLE_DMABUF_RENDERER");
    assert_eq!(found.name, "disable-webkit-dmabuf");
    assert!(prepare_runtime(Platform::Linux, GraphicsFacts { explicit_sync_set: true, ..facts })
        .is_none());
    assert!(prepare_runtime(Platform::Linux, GraphicsFacts { dmabuf_set: true, ..facts })
        .is_some());
    assert!(prepare_runtime(Platform::Linux, GraphicsFacts { dmabuf_set: true, ..x11 }).is_none());
    assert!(prepare_runtime(Platform::Linux, GraphicsFacts { primary_nvidia: false, ..facts })
        .is_none());
    assert!(prepare_runtime(Platform::Linux, GraphicsFacts { nvidia_module: false, ..facts })
        .is_none());
    assert!(prepare_runtime(Platform::MacOs, facts).is_none());
}

#[test]
fn the_first_graphics_device_is_found() {
    let device = |name: Option<&str>, vendor: &str, boot_vga: &str| GraphicsDevice {
        name: name.map(str::to_owned),
        vendor: vendor.to_owned(),
        boot_vga: boot_vga.to_owned(),
    };
    assert!(primary_gpu_is_nvidia(&vec![device(Some("card0"), "0x10DE\n", "1\n")]));
    assert!(!primary_gpu_is_nvidia(&vec![]));
    assert!(!primary_gpu_is_nvidia(&vec![
        device(None, "0x10de", "1"),
        device(Some("card0-HDMI-A-1"), "0x10de", "1"),
        device(Some("renderD128"), "0x10de", "1"),
        device(Some("card0"), "0x8086", "1"),
        device(Some("card1"), "0x10de", "0"),
    ]));
}

#[test]
fn wayland_sessions_are_recognized() {
    assert!(is_wayland_session(Some("wayland"), false));
    assert!(!is_wayland_session(Some("Wayland"), false));
    assert!(is_wayland_session(Some("x11"), true));
    assert!(!is_wayland_session(None, false));
}

#[test]
fn previews_go_to_the_first_that_is_available() {
    assert!(initialize(false, None).is_ok());
    assert!(initialize(true, Some("no display".to_owned())).is_ok());
    assert_eq!(initialize(false, Some("no display".to_owned())), Err("no display".to_owned()));
    assert!(activate_external_dictation_overlay(Platform::Linux, true, false));
    assert!(activate_external_dictation_overlay(Platform::Linux, false, true));
    assert!(!activate_external_dictation_overlay(Platform::Linux, false, false));
    assert!(!activate_external_dictation_overlay(Platform::MacOs, true, true));
    assert_eq!(publish_dictation_preview(Platform::Linux, true), Some(PreviewTarget::Shell));
    assert_eq!(publish_dictation_preview(Platform::Linux, false), Some(PreviewTarget::X11Helper));
    assert_eq!(publish_dictation_preview(Platform::Other, true), None);
}

fn finished(action: InsertionAction) -> InsertionReport {
    match action {
        InsertionAction::Finish(report) => report,
        other => panic!("not finished: {other:?}"),
    }
}

#[test]
fn wayland_insertion_restores_the_clipboard() {
    let mut insertion =
        ClipboardInsertion::new(DisplayServer::Wayland, "new", Some("old".to_owned()));
    assert!(matches!(insertion.step(InsertionEvent::Published(None)), InsertionAction::CheckOwner));
    assert!(matches!(
        insertion.step(InsertionEvent::OwnerChecked(OwnerState::Running)),
        InsertionAction::Paste
    ));
    assert!(matches!(insertion.step(InsertionEvent::Pasted(None)), InsertionAction::CheckOwner));
    assert!(matches!(
        insertion.step(InsertionEvent::OwnerChecked(OwnerState::Running)),
        InsertionAction::StopOwner
    ));
    match insertion.step(InsertionEvent::OwnerStopped(None)) {
        InsertionAction::Restore(text) => assert_eq!(text.as_deref(), Some("old")),
        other => panic!("not restored: {other:?}"),
    }
    let report = finished(insertion.step(InsertionEvent::Restored(None)));
    assert_eq!(report.insertion_status(), "inserted_clipboard_restored");
}

#[test]
fn lost_wayland_ownership_is_reported() {
    let mut insertion = ClipboardInsertion::new(DisplayServer::Wayland, "new", None);
    insertion.step(InsertionEvent::Published(None));
    let report = finished(insertion.step(InsertionEvent::OwnerChecked(OwnerState::Exited(
        "exit status: 1".to_owned(),
    ))));
    assert_eq!(
        report.insertion_error(),
        Some("Wayland clipboard ownership was lost before paste with status exit status: 1")
    );
    assert!(matches!(
        report.clipboard_restore(),
        Some(ClipboardRestoreStatus::SkippedExternalChange)
    ));

    let mut insertion = ClipboardInsertion::new(DisplayServer::Wayland, "new", None);
    insertion.step(InsertionEvent::Published(None));
    let report =
        finished(insertion.step(InsertionEvent::OwnerChecked(OwnerState::Unknown("e".to_owned()))));
    assert_eq!(
        report.insertion_error(),
        Some("failed to inspect the Wayland clipboard owner: e")
    );
    assert_eq!(
        report.clipboard_restore().unwrap().error(),
        Some("could not safely determine clipboard ownership")
    );

    let mut insertion = ClipboardInsertion::new(DisplayServer::Wayland, "new", None);
    let report = finished(insertion.step(InsertionEvent::Published(Some("gone".to_owned()))));
    assert_eq!(report.insertion_error(), Some("gone"));
    assert!(report.clipboard_restore().is_none());
}

#[test]
fn wayland_restores_only_what_it_owns() {
    let until_restore = |original: Option<&str>| {
        let mut insertion = ClipboardInsertion::new(
            DisplayServer::Wayland,
            "new",
            original.map(str::to_owned),
        );
        insertion.step(InsertionEvent::Published(None));
        insertion.step(InsertionEvent::OwnerChecked(OwnerState::Running));
        insertion.step(InsertionEvent::Pasted(Some("blocked".to_owned())));
        insertion
    };
    let mut insertion = until_restore(Some("old"));
    let report = finished(
        insertion.step(InsertionEvent::OwnerChecked(OwnerState::Exited("0".to_owned()))),
    );
    assert_eq!(report.insertion_error(), Some("blocked"));
    assert_eq!(report.notice(), Some("Insertion failed · newer clipboard content kept"));

    let mut insertion = until_restore(Some("old"));
    let report = finished(
        insertion.step(InsertionEvent::OwnerChecked(OwnerState::Unknown("e".to_owned()))),
    );
    assert_eq!(
        report.clipboard_restore().unwrap().error(),
        Some("failed to inspect the Wayland clipboard owner before restore: e")
    );

    let mut insertion = until_restore(Some("old"));
    insertion.step(InsertionEvent::OwnerChecked(OwnerState::Running));
    let report = finished(insertion.step(InsertionEvent::OwnerStopped(Some("kill".to_owned()))));
    assert_eq!(report.clipboard_restore().unwrap().error(), Some("kill"));

    let mut insertion = until_restore(None);
    insertion.step(InsertionEvent::OwnerChecked(OwnerState::Running));
    assert!(matches!(
        insertion.step(InsertionEvent::OwnerStopped(None)),
        InsertionAction::Restore(None)
    ));
    let report = finished(insertion.step(InsertionEvent::Restored(None)));
    assert_eq!(report.clipboard_restore().unwrap().as_str(), "original_unavailable");
}

#[test]
fn x11_restores_only_its_own_text() {
    let until_read = || {
        let mut insertion =
            ClipboardInsertion::new(DisplayServer::X11, "new", Some("old".to_owned()));
        assert!(matches!(insertion.step(InsertionEvent::Published(None)), InsertionAction::Paste));
        assert!(matches!(
            insertion.step(InsertionEvent::Pasted(None)),
            InsertionAction::ReadClipboard
        ));
        insertion
    };
    let mut insertion = until_read();
    assert!(matches!(
        insertion.step(InsertionEvent::ClipboardRead(Some("new".to_owned()))),
        InsertionAction::Restore(Some(_))
    ));
    let report = finished(insertion.step(InsertionEvent::Restored(Some("busy".to_owned()))));
    assert_eq!(report.clipboard_restore().unwrap().error(), Some("busy"));
    for read in [Some("newer".to_owned()), None] {
        let report = finished(until_read().step(InsertionEvent::ClipboardRead(read)));
        assert_eq!(report.insertion_status(), "inserted_clipboard_external_change");
    }
    let mut insertion = ClipboardInsertion::new(DisplayServer::X11, "new", None);
    let report = finished(insertion.step(InsertionEvent::Published(Some("denied".to_owned()))));
    assert_eq!(
        report.insertion_error(),
        Some("failed to publish the transcript to the X11 clipboard: denied")
    );
    assert_eq!(
        x11_unavailable("no display").insertion_error(),
        Some("failed to open the X11 clipboard: no display")
    );
    assert_eq!(restore_status(true, None).as_str(), "restored");
    assert_eq!(restore_status(false, None).as_str(), "original_unavailable");
    assert_eq!(restore_status(false, Some("e".to_owned())).error(), Some("e"));
}

#[test]
fn the_paste_chord_is_pressed_and_released() {
    let (pressed, released) = paste_events();
    let pairs = |events: &Vec<voice_flow::shortcut::linux::KeyEvent>| {
        events.iter().map(|event| (event.code, event.value)).collect::<Vec<(u16, i32)>>()
    };
    let (ctrl, shift, v) = (
        KeyCode::KEY_LEFTCTRL.code(),
        KeyCode::KEY_LEFTSHIFT.code(),
        KeyCode::KEY_V.code(),
    );
    assert_eq!(pairs(&pressed), [(ctrl, 1), (shift, 1), (v, 1)]);
    assert_eq!(pairs(&released), [(v, 0), (shift, 0), (ctrl, 0)]);
    let codes = paste_keyboard_codes();
    assert_eq!(codes.len(), 34);
    for code in [ctrl, shift, v, KeyCode::KEY_ESC.code(), KeyCode::KEY_D.code(),
        KeyCode::KEY_RIGHTBRACE.code(), KeyCode::KEY_ENTER.code()] {
        assert!(codes.contains(&code));
    }
}

#[test]
fn clipboard_answers_go_through_the_pipe() {
    let text = run_read_helper(ClipboardContents::Text("a\"b\n文".to_owned())).unwrap();
    assert_eq!(text, "{\"Ok\":\"a\\\"b\\n文\"}".as_bytes());
    assert_eq!(read_text(Some(text)).unwrap().as_deref(), Some("a\"b\n文"));
    let nothing = run_read_helper(ClipboardContents::Nothing).unwrap();
    assert_eq!(nothing, b"{\"Ok\":null}");
    assert_eq!(read_text(Some(nothing)).unwrap(), None);
    let failed = run_read_helper(ClipboardContents::OpenFailed("no display".to_owned())).unwrap();
    assert_eq!(
        failed,
        b"{\"Err\":\"failed to open the native Linux clipboard: no display\"}"
    );
    let error = read_text(Some(failed)).unwrap_err();
    assert_eq!(error.message(), "failed to open the native Linux clipboard: no display");
    assert_eq!(
        helper_answer(ClipboardContents::ReadFailed("busy".to_owned())),
        Err("failed to read the native Linux clipboard: busy".to_owned())
    );
}

#[test]
fn bad_clipboard_answers_are_refused() {
    let error = read_text(None).unwrap_err();
    assert!(matches!(error, ReadError::Process));
    assert_eq!(error.message(), "native clipboard read failed");
    let error = read_text(Some(b"nonsense".to_vec())).unwrap_err();
    assert!(matches!(error, ReadError::InvalidAnswer));
    assert_eq!(error.message(), "invalid response from the clipboard read helper");
    assert!(matches!(text_in_answer(None), Err(ReadError::InvalidAnswer)));
    assert!(matches!(
        text_in_answer(Some(Err("why".to_owned()))),
        Err(ReadError::Helper(detail)) if detail == "why"
    ));
}

#[test]
fn clipboard_processes_are_waited_for() {
    assert_eq!(wait_decision(ProcessState::Exited, 900, 500), WaitDecision::Done);
    assert_eq!(wait_decision(ProcessState::Unknown, 0, 500), WaitDecision::Abandon);
    assert_eq!(wait_decision(ProcessState::Running, 499, 500), WaitDecision::Poll);
    assert_eq!(wait_decision(ProcessState::Running, 500, 500), WaitDecision::TimedOut);
    assert_eq!(timeout_message(30), "clipboard command timed out after 30 ms");
    assert_eq!(input_decision(true, 10_000), WaitDecision::Done);
    assert_eq!(input_decision(false, 499), WaitDecision::Poll);
    assert_eq!(input_decision(false, 500), WaitDecision::TimedOut);
    assert_eq!(
        input_timeout_message(),
        "clipboard command did not read its input within 500 ms"
    );
}

#[test]
fn failed_and_successful_readers_differ() {
    let exit = |success: bool, status: &str| ProcessExit { success, status: status.to_owned() };
    assert_eq!(
        reader_outcome(false, Ok(exit(true, "exit status: 0")), Some(b"{}".to_vec())),
        Ok(b"{}".to_vec())
    );
    assert_eq!(
        reader_outcome(false, Ok(exit(false, "exit status: 7")), Some(b"invalid".to_vec())),
        Err("clipboard reader exited with status exit status: 7".to_owned())
    );
    assert_eq!(
        reader_outcome(false, Err("timed out".to_owned()), Some(Vec::new())),
        Err("timed out".to_owned())
    );
    assert_eq!(
        reader_outcome(true, Ok(exit(true, "")), None),
        Err("clipboard reader panicked".to_owned())
    );
    assert_eq!(
        reader_outcome(false, Ok(exit(true, "")), None),
        Err("failed to collect the clipboard reader response".to_owned())
    );
}

#[test]
fn the_focused_window_tells_the_monitor() {
    assert_eq!(target_monitor(true, true, true), Some(MonitorSource::FocusedWindow));
    assert_eq!(target_monitor(false, true, true), Some(MonitorSource::Cursor));
    assert_eq!(target_monitor(false, false, true), Some(MonitorSource::Overlay));
    assert_eq!(target_monitor(false, false, false), None);
    assert_eq!(MonitorSource::FocusedWindow.as_str(), "focused-window");
    assert_eq!(MonitorSource::Cursor.as_str(), "cursor");
    assert_eq!(MonitorSource::Overlay.as_str(), "overlay");
}

#[test]
fn the_window_is_shown_in_steps() {
    assert_eq!(
        window_steps(Platform::Linux),
        [
            WindowStep::KeepUnfocused,
            WindowStep::Place,
            WindowStep::Show,
            WindowStep::ClickThrough
        ]
    );
    for platform in [Platform::MacOs, Platform::Other] {
        assert_eq!(
            window_steps(platform),
            [
                WindowStep::KeepUnfocused,
                WindowStep::ClickThrough,
                WindowStep::Place,
                WindowStep::Show
            ]
        );
        assert!(failure_is_fatal(WindowStep::KeepUnfocused, platform));
        assert!(failure_is_fatal(WindowStep::ClickThrough, platform));
    }
    assert!(!failure_is_fatal(WindowStep::KeepUnfocused, Platform::Linux));
    assert!(!failure_is_fatal(WindowStep::ClickThrough, Platform::Linux));
    assert!(!failure_is_fatal(WindowStep::Place, Platform::MacOs));
    assert!(failure_is_fatal(WindowStep::Show, Platform::Linux));
}

#[test]
fn wayland_sessions_use_the_wayland_clipboard() {
    assert_eq!(display_server(Some("wayland"), false), DisplayServer::Wayland);
    assert_eq!(display_server(Some("x11"), true), DisplayServer::Wayland);
    assert_eq!(display_server(Some("x11"), false), DisplayServer::X11);
    assert_eq!(display_server(Some("Wayland"), false), DisplayServer::X11);
    assert_eq!(display_server(None, false), DisplayServer::X11);
}
