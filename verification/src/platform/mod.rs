//! The operating systems that Voice Flow runs on: inserting text, and placing windows.

use vstd::prelude::*;

use crate::text::{
    equal_ignoring_ascii_case, same_ignoring_ascii_case, same_text, trim, trimmed,
};

pub mod linux;
pub mod linux_clipboard;
pub mod linux_overlay;

verus! {

/// The operating system that the program runs on.
#[derive(Clone, Copy, Debug, PartialEq, Eq, Structural)]
pub enum Platform {
    MacOs,
    Linux,
    Other,
}

/// What became of the clipboard that held something before the transcript.
#[derive(Debug)]
pub enum ClipboardRestoreStatus {
    Restored,
    OriginalUnavailable,
    SkippedExternalChange,
    Failed(String),
}

/// A [`ClipboardRestoreStatus`] with its text as a sequence of characters.
pub enum RestoreView {
    Restored,
    OriginalUnavailable,
    SkippedExternalChange,
    Failed(Seq<char>),
}

impl View for ClipboardRestoreStatus {
    type V = RestoreView;

    open spec fn view(&self) -> RestoreView {
        match *self {
            ClipboardRestoreStatus::Restored => RestoreView::Restored,
            ClipboardRestoreStatus::OriginalUnavailable => RestoreView::OriginalUnavailable,
            ClipboardRestoreStatus::SkippedExternalChange => RestoreView::SkippedExternalChange,
            ClipboardRestoreStatus::Failed(error) => RestoreView::Failed(error@),
        }
    }
}

impl RestoreView {
    pub open spec fn text(self) -> Seq<char> {
        match self {
            RestoreView::Restored => "restored"@,
            RestoreView::OriginalUnavailable => "original_unavailable"@,
            RestoreView::SkippedExternalChange => "skipped_external_change"@,
            RestoreView::Failed(_) => "failed"@,
        }
    }
}

impl ClipboardRestoreStatus {
    /// How the status is written down.
    pub fn as_str(&self) -> (result: &'static str)
        ensures
            result@ == self@.text(),
    {
        match self {
            ClipboardRestoreStatus::Restored => "restored",
            ClipboardRestoreStatus::OriginalUnavailable => "original_unavailable",
            ClipboardRestoreStatus::SkippedExternalChange => "skipped_external_change",
            ClipboardRestoreStatus::Failed(_) => "failed",
        }
    }

    /// Why the clipboard could not be restored.
    pub fn error(&self) -> (result: Option<&str>)
        ensures
            match result {
                Some(error) => self@ == RestoreView::Failed(error@),
                None => !(self@ is Failed),
            },
    {
        match self {
            ClipboardRestoreStatus::Failed(error) => Some(error.as_str()),
            _ => None,
        }
    }
}

/// What became of an insertion at the cursor.
#[derive(Debug)]
pub struct InsertionReport {
    pub insertion_error: Option<String>,
    pub clipboard_restore: Option<ClipboardRestoreStatus>,
}

/// An [`InsertionReport`] with its texts as sequences of characters.
pub struct ReportView {
    pub insertion_error: Option<Seq<char>>,
    pub clipboard_restore: Option<RestoreView>,
}

/// A text that may be missing, as a sequence of characters.
pub open spec fn optional_text(text: Option<String>) -> Option<Seq<char>> {
    match text {
        Some(text) => Some(text@),
        None => None,
    }
}

impl View for InsertionReport {
    type V = ReportView;

    open spec fn view(&self) -> ReportView {
        ReportView {
            insertion_error: optional_text(self.insertion_error),
            clipboard_restore: match self.clipboard_restore {
                Some(status) => Some(status@),
                None => None,
            },
        }
    }
}

impl ReportView {
    pub open spec fn status(self) -> Seq<char> {
        match (self.insertion_error, self.clipboard_restore) {
            (Some(_), _) => "failed_clipboard"@,
            (None, Some(RestoreView::Restored)) => "inserted_clipboard_restored"@,
            (None, Some(RestoreView::OriginalUnavailable)) =>
                "inserted_clipboard_original_unavailable"@,
            (None, Some(RestoreView::SkippedExternalChange)) =>
                "inserted_clipboard_external_change"@,
            (None, Some(RestoreView::Failed(_))) => "inserted_clipboard_restore_failed"@,
            (None, None) => "inserted_clipboard_restore_not_attempted"@,
        }
    }

    pub open spec fn notice(self) -> Option<Seq<char>> {
        match (self.insertion_error, self.clipboard_restore) {
            (Some(_), Some(RestoreView::Restored)) => Some(
                "Insertion failed · plain-text clipboard restored"@,
            ),
            (Some(_), Some(RestoreView::SkippedExternalChange)) => Some(
                "Insertion failed · newer clipboard content kept"@,
            ),
            (Some(_), Some(RestoreView::OriginalUnavailable)) => Some(
                "Insertion failed · non-text clipboard not restored"@,
            ),
            (Some(_), Some(RestoreView::Failed(_))) => Some(
                "Insertion failed · clipboard restore also failed"@,
            ),
            (Some(_), None) => Some("Insertion failed"@),
            (None, Some(RestoreView::Restored)) => None,
            (None, Some(RestoreView::OriginalUnavailable)) => Some(
                "Inserted · non-text clipboard not restored"@,
            ),
            (None, Some(RestoreView::SkippedExternalChange)) => Some(
                "Inserted · newer clipboard content kept"@,
            ),
            (None, Some(RestoreView::Failed(_))) => Some("Inserted · clipboard restore failed"@),
            (None, None) => Some("Inserted · clipboard restore was not attempted"@),
        }
    }
}

impl InsertionReport {
    /// The insertion failed before the clipboard was touched.
    pub fn failed_before_publish(error: String) -> (result: InsertionReport)
        ensures
            result@ == (ReportView { insertion_error: Some(error@), clipboard_restore: None }),
    {
        InsertionReport { insertion_error: Some(error), clipboard_restore: None }
    }

    /// Why the text could not be inserted.
    pub fn insertion_error(&self) -> (result: Option<&str>)
        ensures
            match result {
                Some(error) => self@.insertion_error == Some(error@),
                None => self@.insertion_error is None,
            },
    {
        match &self.insertion_error {
            Some(error) => Some(error.as_str()),
            None => None,
        }
    }

    /// What became of the clipboard.
    pub fn clipboard_restore(&self) -> (result: Option<&ClipboardRestoreStatus>)
        ensures
            match result {
                Some(status) => self@.clipboard_restore == Some(status@),
                None => self@.clipboard_restore is None,
            },
    {
        match &self.clipboard_restore {
            Some(status) => Some(status),
            None => None,
        }
    }

    /// Whether the text was inserted.
    pub fn succeeded(&self) -> (result: bool)
        ensures
            result == (self@.insertion_error is None),
    {
        self.insertion_error.is_none()
    }

    /// How the outcome is written down.
    pub fn insertion_status(&self) -> (result: &'static str)
        ensures
            result@ == self@.status(),
    {
        match (self.succeeded(), &self.clipboard_restore) {
            (false, _) => "failed_clipboard",
            (true, Some(ClipboardRestoreStatus::Restored)) => "inserted_clipboard_restored",
            (true, Some(ClipboardRestoreStatus::OriginalUnavailable)) =>
                "inserted_clipboard_original_unavailable",
            (true, Some(ClipboardRestoreStatus::SkippedExternalChange)) =>
                "inserted_clipboard_external_change",
            (true, Some(ClipboardRestoreStatus::Failed(_))) => "inserted_clipboard_restore_failed",
            (true, None) => "inserted_clipboard_restore_not_attempted",
        }
    }

    /// What the user is told; nothing where all went well.
    pub fn notice(&self) -> (result: Option<&'static str>)
        ensures
            match result {
                Some(notice) => self@.notice() == Some(notice@),
                None => self@.notice() is None,
            },
    {
        if !self.succeeded() {
            return Some(
                match &self.clipboard_restore {
                    Some(ClipboardRestoreStatus::Restored) =>
                        "Insertion failed · plain-text clipboard restored",
                    Some(ClipboardRestoreStatus::SkippedExternalChange) =>
                        "Insertion failed · newer clipboard content kept",
                    Some(ClipboardRestoreStatus::OriginalUnavailable) =>
                        "Insertion failed · non-text clipboard not restored",
                    Some(ClipboardRestoreStatus::Failed(_)) =>
                        "Insertion failed · clipboard restore also failed",
                    None => "Insertion failed",
                },
            );
        }
        match &self.clipboard_restore {
            Some(ClipboardRestoreStatus::Restored) => None,
            Some(ClipboardRestoreStatus::OriginalUnavailable) => Some(
                "Inserted · non-text clipboard not restored",
            ),
            Some(ClipboardRestoreStatus::SkippedExternalChange) => Some(
                "Inserted · newer clipboard content kept",
            ),
            Some(ClipboardRestoreStatus::Failed(_)) => Some("Inserted · clipboard restore failed"),
            None => Some("Inserted · clipboard restore was not attempted"),
        }
    }
}

/// The user hears nothing exactly where the text was inserted and the clipboard is as it
/// was before.
pub proof fn law_silence_means_all_is_well(report: ReportView)
    ensures
        report.notice() is None <==> report.insertion_error is None && report.clipboard_restore
            == Some(RestoreView::Restored),
{
}

/// A way to insert text where the user is typing.
pub trait TextInjector {
    fn insert_at_active_cursor(&self, text: &str) -> InsertionReport;
}

/// Stands in on systems where text cannot be inserted.
pub struct UnsupportedTextInjector;

impl TextInjector for UnsupportedTextInjector {
    fn insert_at_active_cursor(&self, text: &str) -> (result: InsertionReport)
        ensures
            result@ == (ReportView {
                insertion_error: Some("cursor insertion is not supported on this platform"@),
                clipboard_restore: None,
            }),
    {
        InsertionReport::failed_before_publish(
            "cursor insertion is not supported on this platform".to_owned(),
        )
    }
}

/// What is said where macOS does not let the transcript be pasted, given what the paste
/// command printed.
pub open spec fn blocked_paste_text(printed: Seq<char>) -> Seq<char> {
    "the transcript was copied, but macOS blocked automatic paste"@ + if trimmed(printed).len()
        == 0 {
        Seq::empty()
    } else {
        ": "@ + trimmed(printed)
    }
}

/// What is said where macOS does not let the transcript be pasted.
pub fn blocked_paste(printed: &str) -> (result: String)
    ensures
        result@ == blocked_paste_text(printed@),
{
    let mut message = "the transcript was copied, but macOS blocked automatic paste".to_owned();
    let detail = trim(printed);
    if detail.unicode_len() > 0 {
        message.append(": ");
        message.append(detail);
    }
    proof {
        assert(message@ =~= blocked_paste_text(printed@));
    }
    message
}

/// A place on the screen, in physical pixels.
#[derive(Clone, Copy, Debug, PartialEq, Eq, Structural)]
pub struct Position {
    pub x: i32,
    pub y: i32,
}

/// The size of a window or a monitor, in physical pixels.
#[derive(Clone, Copy, Debug, PartialEq, Eq, Structural)]
pub struct Size {
    pub width: u32,
    pub height: u32,
}

/// The distance from the edge of something to that of what is centered in it; what is
/// larger starts at the edge.
pub open spec fn inset(outer: u32, inner: u32) -> int {
    if outer > inner {
        (outer - inner) / 2
    } else {
        0
    }
}

fn centered(start: i32, outer: u32, inner: u32) -> (result: i32)
    requires
        start + inset(outer, inner) <= i32::MAX,
    ensures
        result == start + inset(outer, inner),
{
    start + (outer.saturating_sub(inner) / 2) as i32
}

/// Where the overlay is shown: in the middle of the monitor.
pub fn dictation_overlay_position(
    monitor_position: &Position,
    monitor_size: &Size,
    overlay_size: &Size,
) -> (result: Position)
    requires
        monitor_position.x + inset(monitor_size.width, overlay_size.width) <= i32::MAX,
        monitor_position.y + inset(monitor_size.height, overlay_size.height) <= i32::MAX,
    ensures
        result.x == monitor_position.x + inset(monitor_size.width, overlay_size.width),
        result.y == monitor_position.y + inset(monitor_size.height, overlay_size.height),
{
    Position {
        x: centered(monitor_position.x, monitor_size.width, overlay_size.width),
        y: centered(monitor_position.y, monitor_size.height, overlay_size.height),
    }
}

/// Where the transcript window is shown: in the middle of the monitor's width, and above
/// its lower edge by the margin.
pub fn window_position(
    monitor_position: &Position,
    monitor_size: &Size,
    window_size: &Size,
    bottom_margin: i32,
) -> (result: Position)
    requires
        monitor_position.x + inset(monitor_size.width, window_size.width) <= i32::MAX,
        monitor_size.height <= i32::MAX,
        window_size.height <= i32::MAX,
        i32::MIN <= monitor_position.y + monitor_size.height <= i32::MAX,
        i32::MIN <= monitor_position.y + monitor_size.height - window_size.height <= i32::MAX,
        i32::MIN <= monitor_position.y + monitor_size.height - window_size.height - bottom_margin
            <= i32::MAX,
    ensures
        result.x == monitor_position.x + inset(monitor_size.width, window_size.width),
        result.y + bottom_margin + window_size.height == monitor_position.y + monitor_size.height,
{
    let y = monitor_position.y + monitor_size.height as i32 - window_size.height as i32
        - bottom_margin;
    Position { x: centered(monitor_position.x, monitor_size.width, window_size.width), y }
}

/// What tells on which monitor the transcript window is shown.
#[derive(Clone, Copy, Debug, PartialEq, Eq, Structural)]
pub enum MonitorSource {
    FocusedWindow,
    Cursor,
    Overlay,
}

impl MonitorSource {
    pub open spec fn spec_text(self) -> Seq<char> {
        match self {
            MonitorSource::FocusedWindow => "focused-window"@,
            MonitorSource::Cursor => "cursor"@,
            MonitorSource::Overlay => "overlay"@,
        }
    }

    /// How the source is written down.
    pub fn as_str(self) -> (result: &'static str)
        ensures
            result@ == self.spec_text(),
    {
        match self {
            MonitorSource::FocusedWindow => "focused-window",
            MonitorSource::Cursor => "cursor",
            MonitorSource::Overlay => "overlay",
        }
    }
}

/// On which monitor the transcript window is shown, given which of them are known: that of
/// the window with the focus, else that of the cursor, else the one that it is on.
pub fn target_monitor(focused: bool, cursor: bool, current: bool) -> (result: Option<
    MonitorSource,
>)
    ensures
        result == if focused {
            Some(MonitorSource::FocusedWindow)
        } else if cursor {
            Some(MonitorSource::Cursor)
        } else if current {
            Some(MonitorSource::Overlay)
        } else {
            None
        },
{
    if focused {
        Some(MonitorSource::FocusedWindow)
    } else if cursor {
        Some(MonitorSource::Cursor)
    } else if current {
        Some(MonitorSource::Overlay)
    } else {
        None
    }
}

/// A step in which the transcript window is shown.
#[derive(Clone, Copy, Debug, PartialEq, Eq, Structural)]
pub enum WindowStep {
    KeepUnfocused,
    ClickThrough,
    Place,
    Show,
}

/// The steps in which the transcript window is shown. On Linux clicks can pass through a
/// window only once it is there.
pub open spec fn window_plan(platform: Platform) -> Seq<WindowStep> {
    if platform is Linux {
        seq![
            WindowStep::KeepUnfocused,
            WindowStep::Place,
            WindowStep::Show,
            WindowStep::ClickThrough,
        ]
    } else {
        seq![
            WindowStep::KeepUnfocused,
            WindowStep::ClickThrough,
            WindowStep::Place,
            WindowStep::Show,
        ]
    }
}

/// The steps in which the transcript window is shown.
pub fn window_steps(platform: Platform) -> (result: Vec<WindowStep>)
    ensures
        result@ == window_plan(platform),
{
    let mut steps: Vec<WindowStep> = Vec::new();
    steps.push(WindowStep::KeepUnfocused);
    if platform != Platform::Linux {
        steps.push(WindowStep::ClickThrough);
    }
    steps.push(WindowStep::Place);
    steps.push(WindowStep::Show);
    if platform == Platform::Linux {
        steps.push(WindowStep::ClickThrough);
    }
    proof {
        assert(steps@ =~= window_plan(platform));
    }
    steps
}

/// Whether the transcript window is given up where a step fails: a Linux window manager may
/// refuse to keep it unfocused or to let clicks through, and any may refuse its place.
pub fn failure_is_fatal(step: WindowStep, platform: Platform) -> (result: bool)
    ensures
        result == match step {
            WindowStep::KeepUnfocused | WindowStep::ClickThrough => !(platform is Linux),
            WindowStep::Place => false,
            WindowStep::Show => true,
        },
{
    match step {
        WindowStep::KeepUnfocused | WindowStep::ClickThrough => platform != Platform::Linux,
        WindowStep::Place => false,
        WindowStep::Show => true,
    }
}

/// Every step is done once, and the window is shown only when it is at its place.
pub proof fn law_window_is_placed_before_it_is_shown(platform: Platform)
    ensures
        window_plan(platform).no_duplicates(),
        window_plan(platform).len() == 4,
        exists|i: int, j: int|
            0 <= i < j < 4 && #[trigger] window_plan(platform)[i] == WindowStep::Place
                && #[trigger] window_plan(platform)[j] == WindowStep::Show,
{
    let plan = window_plan(platform);
    let place: int = if platform is Linux {
        1
    } else {
        2
    };
    assert(plan[place] == WindowStep::Place && plan[place + 1] == WindowStep::Show);
}

/// A window that is centered on a monitor that is at least as large lies on it.
pub proof fn law_centered_windows_lie_on_the_monitor(outer: u32, inner: u32)
    requires
        inner <= outer,
    ensures
        0 <= inset(outer, inner),
        inset(outer, inner) + inner <= outer,
        (outer - inner) - 2 * inset(outer, inner) <= 1,
{
}

/// An entry of the list of graphics devices; what cannot be read is empty.
#[derive(Debug)]
pub struct GraphicsDevice {
    pub name: Option<String>,
    pub vendor: String,
    pub boot_vga: String,
}

/// Whether a name is that of a card: it begins with "card" and has no hyphen, which the
/// names of the connectors have.
pub open spec fn card_name(name: Seq<char>) -> bool {
    &&& name.len() >= 4
    &&& name.take(4) == "card"@
    &&& !name.contains('-')
}

/// Whether an entry is an NVIDIA card that the machine started with.
pub open spec fn primary_nvidia(device: GraphicsDevice) -> bool {
    &&& device.name matches Some(name) && card_name(name@)
    &&& same_ignoring_ascii_case(trimmed(device.vendor@), "0x10de"@)
    &&& trimmed(device.boot_vga@) == "1"@
}

fn is_card_name(name: &str) -> (result: bool)
    ensures
        result == card_name(name@),
{
    let length = name.unicode_len();
    if length < 4 {
        return false;
    }
    proof {
        assert(name@.take(4) =~= name@.subrange(0, 4));
    }
    if !same_text(name.substring_char(0, 4), "card") {
        return false;
    }
    let mut i: usize = 0;
    while i < length
        invariant
            i <= length,
            length == name@.len(),
            forall|j: int| 0 <= j < i ==> name@[j] != '-',
        decreases length - i,
    {
        if name.get_char(i) == '-' {
            proof {
                assert(name@[i as int] == '-');
            }
            return false;
        }
        i += 1;
    }
    true
}

/// Whether the machine started with an NVIDIA card.
pub fn primary_gpu_is_nvidia(devices: &Vec<GraphicsDevice>) -> (result: bool)
    ensures
        result == exists|i: int| 0 <= i < devices@.len() && primary_nvidia(#[trigger] devices@[i]),
{
    let mut i: usize = 0;
    while i < devices.len()
        invariant
            i <= devices@.len(),
            forall|j: int| 0 <= j < i ==> !primary_nvidia(#[trigger] devices@[j]),
        decreases devices@.len() - i,
    {
        let device = &devices[i];
        let is_card = match &device.name {
            Some(name) => is_card_name(name.as_str()),
            None => false,
        };
        if is_card && equal_ignoring_ascii_case(trim(device.vendor.as_str()), "0x10de")
            && same_text(trim(device.boot_vga.as_str()), "1") {
            proof {
                assert(primary_nvidia(devices@[i as int]));
            }
            return true;
        }
        i += 1;
    }
    false
}

/// Whether the session runs on Wayland.
pub open spec fn wayland_session(session_type: Option<&str>, has_wayland_display: bool) -> bool {
    has_wayland_display || (session_type matches Some(value) && value@ == "wayland"@)
}

/// Whether the session runs on Wayland.
pub fn is_wayland_session(session_type: Option<&str>, has_wayland_display: bool) -> (result: bool)
    ensures
        result == wayland_session(session_type, has_wayland_display),
{
    let named = match session_type {
        Some(value) => same_text(value, "wayland"),
        None => false,
    };
    named || has_wayland_display
}

/// A setting of the environment that avoids a fault of the graphics driver.
#[derive(Debug)]
pub struct Workaround {
    pub variable: &'static str,
    pub name: &'static str,
}

/// What is known of the graphics system when the program starts.
#[derive(Clone, Copy, Debug)]
pub struct GraphicsFacts {
    pub primary_nvidia: bool,
    pub nvidia_module: bool,
    pub wayland: bool,
    /// Whether the user has set the variable for Wayland already.
    pub explicit_sync_set: bool,
    /// Whether the user has set the variable for X11 already.
    pub dmabuf_set: bool,
}

/// The setting that is made when the program starts: on Linux with an NVIDIA card and its
/// driver, unless the user has made it already.
pub fn prepare_runtime(platform: Platform, facts: GraphicsFacts) -> (result: Option<Workaround>)
    ensures
        result is Some <==> platform is Linux && facts.primary_nvidia && facts.nvidia_module
            && !(if facts.wayland {
            facts.explicit_sync_set
        } else {
            facts.dmabuf_set
        }),
        result matches Some(workaround) ==> if facts.wayland {
            workaround.variable@ == "__NV_DISABLE_EXPLICIT_SYNC"@ && workaround.name@
                == "disable-nvidia-explicit-sync"@
        } else {
            workaround.variable@ == "WEBKIT_DISABLE_DMABUF_RENDERER"@ && workaround.name@
                == "disable-webkit-dmabuf"@
        },
{
    if platform != Platform::Linux || !facts.primary_nvidia || !facts.nvidia_module {
        return None;
    }
    if facts.wayland {
        if facts.explicit_sync_set {
            None
        } else {
            Some(
                Workaround {
                    variable: "__NV_DISABLE_EXPLICIT_SYNC",
                    name: "disable-nvidia-explicit-sync",
                },
            )
        }
    } else if facts.dmabuf_set {
        None
    } else {
        Some(
            Workaround {
                variable: "WEBKIT_DISABLE_DMABUF_RENDERER",
                name: "disable-webkit-dmabuf",
            },
        )
    }
}

/// Whether the previews are ready, given whether the one of the shell is and why the X11
/// helper is not: one of the two is enough.
pub fn initialize(shell_available: bool, helper_error: Option<String>) -> (result: Result<
    (),
    String,
>)
    ensures
        match result {
            Ok(_) => helper_error is None || shell_available,
            Err(error) => !shell_available && optional_text(helper_error) == Some(error@),
        },
{
    match helper_error {
        Some(error) => if shell_available {
            Ok(())
        } else {
            Err(error)
        },
        None => Ok(()),
    }
}

/// Where a preview is shown.
#[derive(Clone, Copy, Debug, PartialEq, Eq, Structural)]
pub enum PreviewTarget {
    Shell,
    X11Helper,
}

/// Whether the transcript can be shown outside the program's own windows.
pub fn activate_external_dictation_overlay(
    platform: Platform,
    shell_available: bool,
    helper_available: bool,
) -> (result: bool)
    ensures
        result == (platform is Linux && (shell_available || helper_available)),
{
    platform == Platform::Linux && (shell_available || helper_available)
}

/// Where a preview is shown: by the shell if it can, else by the X11 helper.
pub fn publish_dictation_preview(platform: Platform, shell_available: bool) -> (result: Option<
    PreviewTarget,
>)
    ensures
        result == if platform is Linux {
            Some(
                if shell_available {
                    PreviewTarget::Shell
                } else {
                    PreviewTarget::X11Helper
                },
            )
        } else {
            None
        },
{
    if platform != Platform::Linux {
        None
    } else if shell_available {
        Some(PreviewTarget::Shell)
    } else {
        Some(PreviewTarget::X11Helper)
    }
}

/// A text that was not inserted counts as failed whatever became of the clipboard, and is told
/// as such; one that was inserted is told apart by what became of the clipboard. Why something
/// failed does not matter.
pub proof fn law_outcomes_are_told_apart(
    error: Seq<char>,
    cause: Seq<char>,
    restore: Option<RestoreView>,
)
    ensures
        ({
            let failed = ReportView { insertion_error: Some(error), clipboard_restore: restore };
            &&& failed.status() == "failed_clipboard"@
            &&& failed.notice() is Some
            &&& restore is None ==> failed.notice() == Some("Insertion failed"@)
            &&& restore == Some(RestoreView::Restored) ==> failed.notice() == Some(
                "Insertion failed · plain-text clipboard restored"@,
            )
            &&& restore == Some(RestoreView::OriginalUnavailable) ==> failed.notice() == Some(
                "Insertion failed · non-text clipboard not restored"@,
            )
            &&& restore == Some(RestoreView::SkippedExternalChange) ==> failed.notice() == Some(
                "Insertion failed · newer clipboard content kept"@,
            )
            &&& restore == Some(RestoreView::Failed(cause)) ==> failed.notice() == Some(
                "Insertion failed · clipboard restore also failed"@,
            )
        }),
        ({
            let done = ReportView { insertion_error: None, clipboard_restore: restore };
            &&& restore is None ==> done.status() == "inserted_clipboard_restore_not_attempted"@
                && done.notice() == Some("Inserted · clipboard restore was not attempted"@)
            &&& restore == Some(RestoreView::Restored) ==> done.status()
                == "inserted_clipboard_restored"@ && done.notice() is None
            &&& restore == Some(RestoreView::OriginalUnavailable) ==> done.status()
                == "inserted_clipboard_original_unavailable"@ && done.notice() == Some(
                "Inserted · non-text clipboard not restored"@,
            )
            &&& restore == Some(RestoreView::SkippedExternalChange) ==> done.status()
                == "inserted_clipboard_external_change"@ && done.notice() == Some(
                "Inserted · newer clipboard content kept"@,
            )
            &&& restore == Some(RestoreView::Failed(cause)) ==> done.status()
                == "inserted_clipboard_restore_failed"@ && done.notice() == Some(
                "Inserted · clipboard restore failed"@,
            )
        }),
{
}

/// What is centered has the same space on both sides, or one pixel more behind it; what does
/// not fit begins at the edge.
pub proof fn law_centering_is_even(outer: u32, inner: u32)
    ensures
        inner <= outer ==> 0 <= (outer - inset(outer, inner) - inner) - inset(outer, inner) <= 1,
        inner >= outer ==> inset(outer, inner) == 0,
{
}

/// Clicks pass through the window once it is shown on Linux, and before it is shown elsewhere;
/// it is kept from taking the focus before anything else.
pub proof fn law_the_window_never_takes_the_focus(platform: Platform)
    ensures
        window_plan(platform)[0] == WindowStep::KeepUnfocused,
        window_plan(platform).last() == if platform is Linux {
            WindowStep::ClickThrough
        } else {
            WindowStep::Show
        },
{
}

/// What the paste command printed is told behind the message, without the blanks around it; a
/// blank output adds nothing.
pub proof fn law_printed_details_are_told(printed: Seq<char>)
    ensures
        trimmed(printed).len() == 0 ==> blocked_paste_text(printed)
            == "the transcript was copied, but macOS blocked automatic paste"@,
        trimmed(printed).len() > 0 ==> blocked_paste_text(printed)
            == "the transcript was copied, but macOS blocked automatic paste"@ + ": "@ + trimmed(
            printed,
        ),
{
    let base = "the transcript was copied, but macOS blocked automatic paste"@;
    assert(blocked_paste_text(printed) =~= if trimmed(printed).len() == 0 {
        base
    } else {
        base + ": "@ + trimmed(printed)
    });
}

/// The names of cards are "card" with anything behind it but a hyphen, and no others.
pub proof fn law_cards_have_no_hyphen(rest: Seq<char>, name: Seq<char>)
    ensures
        card_name("card"@ + rest) <==> !rest.contains('-'),
        card_name(name) ==> name.len() >= 4 && name == "card"@ + name.skip(4),
{
    reveal_strlit("card");
    let whole = "card"@ + rest;
    assert(whole.take(4) =~= "card"@);
    if rest.contains('-') {
        let i = choose|i: int| 0 <= i < rest.len() && rest[i] == '-';
        assert(whole[4 + i] == '-');
    }
    if whole.contains('-') {
        let i = choose|i: int| 0 <= i < whole.len() && whole[i] == '-';
        assert(i >= 4);
        assert(rest[i - 4] == '-');
    }
    if card_name(name) {
        assert(name =~= name.take(4) + name.skip(4));
    }
}

/// A device counts as the NVIDIA card that the machine started with exactly when it is a card,
/// NVIDIA is its vendor, and it was started with; a device without a readable name does not.
pub proof fn law_primary_cards(device: GraphicsDevice)
    ensures
        primary_nvidia(device) ==> device.name is Some && card_name(device.name->0@),
        primary_nvidia(device) ==> trimmed(device.boot_vga@) == "1"@,
        primary_nvidia(device) ==> same_ignoring_ascii_case(trimmed(device.vendor@), "0x10de"@),
        device.name is Some && card_name(device.name->0@) && trimmed(device.vendor@) == "0x10de"@
            && trimmed(device.boot_vga@) == "1"@ ==> primary_nvidia(device),
        device.name is Some && card_name(device.name->0@) && trimmed(device.vendor@) == "0x10DE"@
            && trimmed(device.boot_vga@) == "1"@ ==> primary_nvidia(device),
{
    reveal_strlit("0x10de");
    reveal_strlit("0x10DE");
    if trimmed(device.vendor@) == "0x10DE"@ {
        assert("0x10DE"@.len() == 6 && "0x10de"@.len() == 6);
        assert forall|i: int| 0 <= i < 6 implies crate::text::ascii_lower(#[trigger] "0x10DE"@[i])
            == crate::text::ascii_lower("0x10de"@[i]) by {
            assert("0x10DE"@[4] == 'D' && "0x10de"@[4] == 'd');
            assert("0x10DE"@[5] == 'E' && "0x10de"@[5] == 'e');
        }
    }
}

/// A Wayland display is enough for a Wayland session; without one, the session says so itself.
pub proof fn law_wayland_sessions(session_type: Option<&str>)
    ensures
        wayland_session(session_type, true),
        wayland_session(session_type, false) <==> session_type is Some && session_type->0@
            == "wayland"@,
{
}

} // verus!
