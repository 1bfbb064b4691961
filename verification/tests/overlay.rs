use voice_flow::platform::linux_overlay::{
    find_preview_monitor, find_target_monitor, is_ready, overlay_height, overlay_placement, preview_content,
    run_command, should_start_helper, visible_tail, HelperAction, MonitorInfo, MonitorTarget,
    OverlayCommand, OverlayLink, PreviewStyle,
};

fn monitor(model: Option<&str>, x: i32, width: i32, height: i32) -> MonitorInfo {
    MonitorInfo { model: model.map(str::to_owned), x, y: 0, width, height, scale: 1 }
}

fn target(name: &str, logical_width: i32, logical_height: i32) -> MonitorTarget {
    MonitorTarget { name: name.to_owned(), logical_width, logical_height }
}

#[test]
fn starts_only_for_gnome_wayland_with_xwayland() {
    assert!(should_start_helper(
        Some("wayland"),
        true,
        true,
        Some("GNOME"),
    ));
    assert!(!should_start_helper(
        Some("wayland"),
        true,
        false,
        Some("GNOME"),
    ));
    assert!(!should_start_helper(
        Some("wayland"),
        true,
        true,
        Some("KDE"),
    ));
}

#[test]
fn maps_runtime_states_to_overlay_content() {
    assert_eq!(
        preview_content("connecting", "", "Opening"),
        Some((
            "Your mic is ready start speaking".to_owned(),
            PreviewStyle::Prompt,
        )),
    );
    assert_eq!(
        preview_content("listening", "live words", "Live"),
        Some(("live words".to_owned(), PreviewStyle::Streaming)),
    );
    assert_eq!(
        preview_content("inserting", "final words", "Inserting"),
        Some(("final words".to_owned(), PreviewStyle::Final)),
    );
    assert_eq!(preview_content("idle", "", "Ready"), None);
    assert_eq!(preview_content("complete", "final words", "Inserted"), None);
}

#[test]
fn long_previews_keep_the_latest_text() {
    let text = "a".repeat(710);
    let visible = visible_tail(&text);
    assert!(visible.starts_with('…'));
    assert_eq!(visible.chars().count(), 701);
}

#[test]
fn other_states_show_the_message() {
    assert_eq!(
        preview_content("error", " ", " broken "),
        Some(("broken".to_owned(), PreviewStyle::Prompt))
    );
    assert_eq!(preview_content("error", "", " "), None);
    assert_eq!(
        preview_content("complete", "", "No speech detected"),
        Some(("No speech detected".to_owned(), PreviewStyle::Prompt))
    );
    assert_eq!(
        preview_content("error", " words ", ""),
        Some(("words".to_owned(), PreviewStyle::Streaming))
    );
    assert_eq!(visible_tail("short"), "short");
    let text: String = "文".repeat(700);
    assert_eq!(visible_tail(&text), text);
    assert_eq!(visible_tail(&format!("x{text}")), format!("…{text}"));
}

#[test]
fn desktops_are_listed_with_colons() {
    assert!(should_start_helper(Some("WAYLAND"), false, true, Some("ubuntu:gnome")));
    assert!(should_start_helper(None, true, true, Some("GNOME")));
    assert!(!should_start_helper(Some("x11"), false, true, Some("GNOME")));
    assert!(!should_start_helper(Some("wayland"), true, true, Some("GNOME-Classic")));
    assert!(!should_start_helper(Some("wayland"), true, true, None));
}

#[test]
fn monitors_are_found_by_name_or_size() {
    let monitors = vec![
        monitor(None, 0, 1920, 1080),
        monitor(Some("DELL U2720Q"), 1920, 2560, 1440),
        monitor(Some("Other"), 4480, 1920, 1080),
    ];
    assert_eq!(find_target_monitor(&monitors, &target("dell u2720q", 1, 1)), Some(1));
    assert_eq!(find_target_monitor(&monitors, &target("", 1920, 1080)), Some(0));
    assert_eq!(find_target_monitor(&monitors, &target("none", 2560, 1440)), Some(1));
    assert_eq!(find_target_monitor(&monitors, &target("none", 2560, 1441)), None);
}

#[test]
fn previews_are_centered_on_their_monitor() {
    let monitors = vec![monitor(None, 0, 1920, 1080), monitor(Some("B"), -1000, 701, 93)];
    let chosen = target("b", 0, 0);
    let placement =
        overlay_placement(&monitors, Some((5, 6)), Some(0), Some(&chosen), Some(1), 720, 94)
            .unwrap();
    assert_eq!((placement.x, placement.y), (600, 493));
    assert_eq!((placement.pointer_x, placement.pointer_y), (5, 6));
    assert_eq!((placement.monitor_x, placement.monitor_width), (0, 1920));
    let placement =
        overlay_placement(&monitors, None, None, Some(&chosen), Some(0), 720, 94).unwrap();
    assert_eq!((placement.x, placement.y), (-1009, 0));
    assert_eq!((placement.pointer_x, placement.pointer_y), (-1, -1));
    let placement = overlay_placement(&monitors, None, None, None, Some(0), 720, 94).unwrap();
    assert_eq!(placement.monitor_height, 1080);
    assert!(overlay_placement(&monitors, None, None, None, None, 720, 94).is_none());
}

#[test]
fn previews_are_as_high_as_their_text() {
    assert_eq!(overlay_height(0), 94);
    assert_eq!(overlay_height(40), 102);
    assert_eq!(overlay_height(500), 280);
}

#[test]
fn commands_are_carried_out() {
    let mut chosen = None;
    let action = run_command(
        OverlayCommand::SelectMonitor {
            name: "A".to_owned(),
            logical_width: 10,
            logical_height: 20,
        },
        &mut chosen,
    );
    assert!(matches!(action, HelperAction::Nothing));
    let found = chosen.as_ref().unwrap();
    assert_eq!((found.name.as_str(), found.logical_width, found.logical_height), ("A", 10, 20));
    let show = |phase: &str, text: &str| OverlayCommand::Show {
        phase: phase.to_owned(),
        text: text.to_owned(),
        message: String::new(),
    };
    assert!(matches!(
        run_command(show("inserting", "words"), &mut chosen),
        HelperAction::Present(text, PreviewStyle::Final) if text == "words"
    ));
    assert!(matches!(run_command(show("idle", ""), &mut chosen), HelperAction::Fade));
    assert!(matches!(run_command(OverlayCommand::Hide, &mut chosen), HelperAction::Fade));
    assert!(matches!(run_command(OverlayCommand::Quit, &mut chosen), HelperAction::Quit));
    assert!(chosen.is_some());
}

#[test]
fn the_helper_is_used_once_it_is_ready() {
    assert!(is_ready(" ready\n"));
    assert!(!is_ready("ready to go"));
    let mut link = OverlayLink::new();
    assert!(!link.is_available());
    assert!(link.show("listening", "a", "b").is_none());
    link.connect();
    assert!(!link.is_available());
    assert!(link.hide_preview().is_none());
    link.ready();
    assert!(link.is_available());
    assert!(matches!(
        link.show("listening", "a", "b"),
        Some(OverlayCommand::Show { phase, text, message })
            if phase == "listening" && text == "a" && message == "b"
    ));
    assert!(matches!(
        link.select_monitor(None, 1, 2),
        Some(OverlayCommand::SelectMonitor { name, logical_width: 1, logical_height: 2 })
            if name.is_empty()
    ));
    assert!(matches!(link.hide_preview(), Some(OverlayCommand::Hide)));
    link.lost();
    assert!(!link.is_available());
    assert!(link.show("listening", "a", "b").is_none());
    assert!(link.select_monitor(Some("m"), 1, 2).is_none());
    assert!(link.hide_preview().is_none());
    link.ready();
    assert!(link.is_available());
}

#[test]
fn the_pointer_tells_the_monitor_of_the_preview() {
    let monitors = vec![monitor(Some("A"), 0, 100, 100), monitor(Some("B"), 100, 200, 200)];
    let wanted = target("b", 0, 0);
    assert_eq!(find_preview_monitor(&monitors, Some(0), Some(&wanted), None), Some(0));
    assert_eq!(find_preview_monitor(&monitors, None, Some(&wanted), Some(0)), Some(1));
    let unknown = target("c", 1, 1);
    assert_eq!(find_preview_monitor(&monitors, None, Some(&unknown), Some(0)), Some(0));
    assert_eq!(find_preview_monitor(&monitors, None, None, None), None);
}
