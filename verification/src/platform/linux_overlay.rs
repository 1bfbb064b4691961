//! The preview of the transcript that is shown outside the program's own windows.

use vstd::prelude::*;

use crate::text::{
    equal_ignoring_ascii_case, law_separators_separate, pieces, same_ignoring_ascii_case, same_text, split_on, trim,
    trimmed, views,
};

verus! {

pub const HELPER_ARGUMENT: &'static str = "--x11-overlay-helper";

pub const READY_PROMPT: &'static str = "Your mic is ready start speaking";

pub const OVERLAY_WIDTH: i32 = 720;

pub const OVERLAY_MIN_HEIGHT: i32 = 94;

pub const OVERLAY_MAX_HEIGHT: i32 = 280;

pub const OVERLAY_LABEL_WIDTH: i32 = 684;

pub const OVERLAY_VERTICAL_CHROME: i32 = 62;

pub const MAX_VISIBLE_CHARACTERS: usize = 700;

/// How a preview is drawn.
#[derive(Clone, Copy, Debug, PartialEq, Eq, Structural)]
pub enum PreviewStyle {
    Prompt,
    Streaming,
    Final,
}

/// As much of a text as is shown: the end of it, behind an ellipsis where it is long.
pub open spec fn visible(text: Seq<char>) -> Seq<char> {
    if text.len() <= MAX_VISIBLE_CHARACTERS {
        text
    } else {
        seq!['…'] + text.skip(text.len() - MAX_VISIBLE_CHARACTERS)
    }
}

/// As much of a text as is shown.
pub fn visible_tail(text: &str) -> (result: String)
    ensures
        result@ == visible(text@),
{
    let count = text.unicode_len();
    if count <= MAX_VISIBLE_CHARACTERS {
        return text.to_owned();
    }
    let mut result = "…".to_owned();
    result.append(text.substring_char(count - MAX_VISIBLE_CHARACTERS, count));
    proof {
        reveal_strlit("…");
        assert("…"@ =~= seq!['…']);
        assert(text@.subrange(count - MAX_VISIBLE_CHARACTERS, count as int) =~= text@.skip(
            count - MAX_VISIBLE_CHARACTERS,
        ));
    }
    result
}

/// No preview is longer than the limit and the ellipsis, and its end is that of the text.
pub proof fn law_previews_are_short_and_current(text: Seq<char>)
    ensures
        visible(text).len() <= MAX_VISIBLE_CHARACTERS + 1,
        text.len() <= MAX_VISIBLE_CHARACTERS ==> visible(text) == text,
        text.len() > MAX_VISIBLE_CHARACTERS ==> visible(text)[0] == '…' && visible(text).skip(1)
            == text.skip(text.len() - MAX_VISIBLE_CHARACTERS),
{
    if text.len() > MAX_VISIBLE_CHARACTERS {
        assert(visible(text).skip(1) =~= text.skip(text.len() - MAX_VISIBLE_CHARACTERS));
    }
}

/// What is shown in a phase of a dictation, and how.
pub open spec fn preview(phase: Seq<char>, text: Seq<char>, message: Seq<char>) -> Option<
    (Seq<char>, PreviewStyle),
> {
    if phase == "idle"@ {
        None
    } else if trimmed(text).len() > 0 {
        if phase == "complete"@ {
            None
        } else {
            Some(
                (
                    visible(trimmed(text)),
                    if phase == "inserting"@ {
                        PreviewStyle::Final
                    } else {
                        PreviewStyle::Streaming
                    },
                ),
            )
        }
    } else if phase == "connecting"@ || phase == "listening"@ {
        Some((READY_PROMPT@, PreviewStyle::Prompt))
    } else if trimmed(message).len() > 0 {
        Some((visible(trimmed(message)), PreviewStyle::Prompt))
    } else {
        None
    }
}

/// What is shown in a phase of a dictation, and how.
pub fn preview_content(phase: &str, text: &str, message: &str) -> (result: Option<
    (String, PreviewStyle),
>)
    ensures
        match result {
            Some((content, style)) => preview(phase@, text@, message@) == Some((content@, style)),
            None => preview(phase@, text@, message@) is None,
        },
{
    let trimmed_text = trim(text);
    let has_text = trimmed_text.unicode_len() > 0;
    if same_text(phase, "idle") || (same_text(phase, "complete") && has_text) {
        return None;
    }
    if has_text {
        let style = if same_text(phase, "inserting") {
            PreviewStyle::Final
        } else {
            PreviewStyle::Streaming
        };
        return Some((visible_tail(trimmed_text), style));
    }
    if same_text(phase, "connecting") || same_text(phase, "listening") {
        return Some((READY_PROMPT.to_owned(), PreviewStyle::Prompt));
    }
    let trimmed_message = trim(message);
    if trimmed_message.unicode_len() > 0 {
        Some((visible_tail(trimmed_message), PreviewStyle::Prompt))
    } else {
        None
    }
}

/// Whether a text that may be missing is `expected`, whatever the case of its letters.
pub open spec fn named(text: Option<&str>, expected: Seq<char>) -> bool {
    text matches Some(text) && same_ignoring_ascii_case(text@, expected)
}

/// Whether GNOME is among the desktops that a list names.
pub open spec fn lists_gnome(desktops: Seq<char>) -> bool {
    exists|i: int|
        0 <= i < pieces(desktops, ':').len() && same_ignoring_ascii_case(
            #[trigger] pieces(desktops, ':')[i],
            "gnome"@,
        )
}

fn is_gnome(desktops: &str) -> (result: bool)
    ensures
        result == lists_gnome(desktops@),
{
    let parts = split_on(desktops, ':');
    let ghost all = pieces(desktops@, ':');
    let mut i: usize = 0;
    while i < parts.len()
        invariant
            i <= parts@.len(),
            all == pieces(desktops@, ':'),
            views(parts@) == all,
            forall|j: int| 0 <= j < i ==> !same_ignoring_ascii_case(#[trigger] all[j], "gnome"@),
        decreases parts@.len() - i,
    {
        proof {
            assert(views(parts@)[i as int] == parts@[i as int]@);
        }
        if equal_ignoring_ascii_case(parts[i].as_str(), "gnome") {
            proof {
                assert(same_ignoring_ascii_case(pieces(desktops@, ':')[i as int], "gnome"@));
            }
            return true;
        }
        i += 1;
    }
    false
}

/// Whether the X11 helper is started: on GNOME with Wayland, where X11 windows are shown
/// too.
pub fn should_start_helper(
    session_type: Option<&str>,
    has_wayland_display: bool,
    has_x11_display: bool,
    current_desktop: Option<&str>,
) -> (result: bool)
    ensures
        result == (has_x11_display && (has_wayland_display || named(session_type, "wayland"@))
            && (current_desktop matches Some(desktops) && lists_gnome(desktops@))),
{
    let is_wayland = has_wayland_display || match session_type {
        Some(value) => equal_ignoring_ascii_case(value, "wayland"),
        None => false,
    };
    let gnome = match current_desktop {
        Some(desktops) => is_gnome(desktops),
        None => false,
    };
    is_wayland && gnome && has_x11_display
}

/// A monitor of the display.
#[derive(Debug)]
pub struct MonitorInfo {
    pub model: Option<String>,
    pub x: i32,
    pub y: i32,
    pub width: i32,
    pub height: i32,
    pub scale: i32,
}

/// The monitor that the preview should be shown on, as far as the program knows it.
#[derive(Debug)]
pub struct MonitorTarget {
    pub name: String,
    pub logical_width: i32,
    pub logical_height: i32,
}

/// Whether a monitor has the name of the target.
pub open spec fn has_target_name(monitor: MonitorInfo, target: MonitorTarget) -> bool {
    &&& target.name@.len() > 0
    &&& monitor.model matches Some(model) && same_ignoring_ascii_case(model@, target.name@)
}

/// Whether a monitor has the size of the target.
pub open spec fn has_target_size(monitor: MonitorInfo, target: MonitorTarget) -> bool {
    monitor.width == target.logical_width && monitor.height == target.logical_height
}

/// The first monitor from `from` on that has the name of the target.
pub open spec fn first_named(
    monitors: Seq<MonitorInfo>,
    target: MonitorTarget,
    from: int,
) -> Option<int>
    decreases monitors.len() - from,
{
    if from < 0 || from >= monitors.len() {
        None
    } else if has_target_name(monitors[from], target) {
        Some(from)
    } else {
        first_named(monitors, target, from + 1)
    }
}

/// The first monitor from `from` on that has the size of the target.
pub open spec fn first_sized(
    monitors: Seq<MonitorInfo>,
    target: MonitorTarget,
    from: int,
) -> Option<int>
    decreases monitors.len() - from,
{
    if from < 0 || from >= monitors.len() {
        None
    } else if has_target_size(monitors[from], target) {
        Some(from)
    } else {
        first_sized(monitors, target, from + 1)
    }
}

/// The monitor that a target means: the first one of its name, else the first one of its
/// size.
pub open spec fn target_monitor(monitors: Seq<MonitorInfo>, target: MonitorTarget) -> Option<int> {
    match first_named(monitors, target, 0) {
        Some(index) => Some(index),
        None => first_sized(monitors, target, 0),
    }
}

/// A place in a list, as a mathematical integer.
pub open spec fn place(index: Option<usize>) -> Option<int> {
    match index {
        Some(index) => Some(index as int),
        None => None,
    }
}

/// The monitor that a target means.
pub fn find_target_monitor(monitors: &Vec<MonitorInfo>, target: &MonitorTarget) -> (result: Option<
    usize,
>)
    ensures
        place(result) == target_monitor(monitors@, *target),
        result matches Some(index) ==> index < monitors@.len(),
{
    let has_name = target.name.as_str().unicode_len() > 0;
    let mut i: usize = 0;
    while i < monitors.len()
        invariant
            i <= monitors@.len(),
            has_name == (target.name@.len() > 0),
            first_named(monitors@, *target, i as int) == first_named(monitors@, *target, 0),
        decreases monitors@.len() - i,
    {
        let same = match &monitors[i].model {
            Some(model) => has_name && equal_ignoring_ascii_case(
                model.as_str(),
                target.name.as_str(),
            ),
            None => false,
        };
        if same {
            return Some(i);
        }
        i += 1;
    }
    let mut i: usize = 0;
    while i < monitors.len()
        invariant
            i <= monitors@.len(),
            first_named(monitors@, *target, 0) is None,
            first_sized(monitors@, *target, i as int) == first_sized(monitors@, *target, 0),
        decreases monitors@.len() - i,
    {
        if monitors[i].width == target.logical_width && monitors[i].height
            == target.logical_height {
            return Some(i);
        }
        i += 1;
    }
    None
}

/// Half of a number, rounded towards zero.
pub open spec fn half(value: int) -> int {
    if value >= 0 {
        value / 2
    } else {
        -((-value) / 2)
    }
}

/// Where the preview is shown, and on which monitor.
#[derive(Clone, Copy, Debug)]
pub struct OverlayPlacement {
    pub pointer_x: i32,
    pub pointer_y: i32,
    pub monitor_x: i32,
    pub monitor_y: i32,
    pub monitor_width: i32,
    pub monitor_height: i32,
    pub monitor_scale: i32,
    pub x: i32,
    pub y: i32,
}

/// Whether a window can be centered on a monitor without leaving the range of coordinates.
pub open spec fn placeable(monitor: MonitorInfo, width: int, height: int) -> bool {
    &&& i32::MIN <= monitor.width - width <= i32::MAX
    &&& i32::MIN <= monitor.height - height <= i32::MAX
    &&& i32::MIN <= monitor.x + half(monitor.width - width) <= i32::MAX
    &&& i32::MIN <= monitor.y + half(monitor.height - height) <= i32::MAX
}

fn half_of(value: i32) -> (result: i32)
    ensures
        result == half(value as int),
{
    if value >= 0 {
        value / 2
    } else if value == i32::MIN {
        -1_073_741_824
    } else {
        -((-value) / 2)
    }
}

/// The monitor that the preview is shown on: the one that the pointer is on, else the one
/// that the target means, else the primary one.
pub open spec fn preview_monitor(
    monitors: Seq<MonitorInfo>,
    at_pointer: Option<usize>,
    target: Option<&MonitorTarget>,
    primary: Option<usize>,
) -> Option<int> {
    match at_pointer {
        Some(index) => Some(index as int),
        None => match target {
            Some(target) => match target_monitor(monitors, *target) {
                Some(index) => Some(index),
                None => place(primary),
            },
            None => place(primary),
        },
    }
}

/// The middle of a monitor for a window of the given size.
pub open spec fn placed_on(
    monitor: MonitorInfo,
    pointer: Option<(i32, i32)>,
    width: i32,
    height: i32,
) -> OverlayPlacement {
    OverlayPlacement {
        pointer_x: match pointer {
            Some((x, _)) => x,
            None => -1i32,
        },
        pointer_y: match pointer {
            Some((_, y)) => y,
            None => -1i32,
        },
        monitor_x: monitor.x,
        monitor_y: monitor.y,
        monitor_width: monitor.width,
        monitor_height: monitor.height,
        monitor_scale: monitor.scale,
        x: (monitor.x + half(monitor.width - width)) as i32,
        y: (monitor.y + half(monitor.height - height)) as i32,
    }
}

/// The monitor that the preview is shown on.
pub fn find_preview_monitor(
    monitors: &Vec<MonitorInfo>,
    at_pointer: Option<usize>,
    target: Option<&MonitorTarget>,
    primary: Option<usize>,
) -> (result: Option<usize>)
    requires
        at_pointer matches Some(index) ==> index < monitors@.len(),
        primary matches Some(index) ==> index < monitors@.len(),
    ensures
        place(result) == preview_monitor(monitors@, at_pointer, target, primary),
        result matches Some(index) ==> index < monitors@.len(),
{
    match at_pointer {
        Some(index) => Some(index),
        None => {
            let found = match target {
                Some(target) => find_target_monitor(monitors, target),
                None => None,
            };
            match found {
                Some(index) => Some(index),
                None => primary,
            }
        },
    }
}

/// Where the preview is shown.
pub fn overlay_placement(
    monitors: &Vec<MonitorInfo>,
    pointer: Option<(i32, i32)>,
    at_pointer: Option<usize>,
    target: Option<&MonitorTarget>,
    primary: Option<usize>,
    width: i32,
    height: i32,
) -> (result: Option<OverlayPlacement>)
    requires
        at_pointer matches Some(index) ==> index < monitors@.len(),
        primary matches Some(index) ==> index < monitors@.len(),
        preview_monitor(monitors@, at_pointer, target, primary) matches Some(index) ==> placeable(
            monitors@[index],
            width as int,
            height as int,
        ),
    ensures
        match result {
            Some(placement) => preview_monitor(monitors@, at_pointer, target, primary) matches Some(
                index,
            ) && placement == placed_on(monitors@[index], pointer, width, height),
            None => preview_monitor(monitors@, at_pointer, target, primary) is None,
        },
{
    match find_preview_monitor(monitors, at_pointer, target, primary) {
        None => None,
        Some(index) => {
            let monitor = &monitors[index];
            let (pointer_x, pointer_y) = match pointer {
                Some(place) => place,
                None => (-1i32, -1i32),
            };
            Some(
                OverlayPlacement {
                    pointer_x,
                    pointer_y,
                    monitor_x: monitor.x,
                    monitor_y: monitor.y,
                    monitor_width: monitor.width,
                    monitor_height: monitor.height,
                    monitor_scale: monitor.scale,
                    x: monitor.x + half_of(monitor.width - width),
                    y: monitor.y + half_of(monitor.height - height),
                },
            )
        },
    }
}

/// The height of the preview around a text of the given height.
pub open spec fn window_height(text_height: int) -> int {
    let height = text_height + OVERLAY_VERTICAL_CHROME;
    if height < OVERLAY_MIN_HEIGHT {
        OVERLAY_MIN_HEIGHT as int
    } else if height > OVERLAY_MAX_HEIGHT {
        OVERLAY_MAX_HEIGHT as int
    } else {
        height
    }
}

/// The height of the preview around a text of the given height.
pub fn overlay_height(text_height: i32) -> (result: i32)
    requires
        text_height + OVERLAY_VERTICAL_CHROME <= i32::MAX,
    ensures
        result == window_height(text_height as int),
{
    let height = text_height + OVERLAY_VERTICAL_CHROME;
    if height < OVERLAY_MIN_HEIGHT {
        OVERLAY_MIN_HEIGHT
    } else if height > OVERLAY_MAX_HEIGHT {
        OVERLAY_MAX_HEIGHT
    } else {
        height
    }
}

/// What the program tells the helper that shows the preview.
#[derive(Debug)]
pub enum OverlayCommand {
    SelectMonitor { name: String, logical_width: i32, logical_height: i32 },
    Show { phase: String, text: String, message: String },
    Hide,
    Quit,
}

/// An [`OverlayCommand`] with its texts as sequences of characters.
pub enum CommandView {
    SelectMonitor { name: Seq<char>, logical_width: i32, logical_height: i32 },
    Show { phase: Seq<char>, text: Seq<char>, message: Seq<char> },
    Hide,
    Quit,
}

impl View for OverlayCommand {
    type V = CommandView;

    open spec fn view(&self) -> CommandView {
        match *self {
            OverlayCommand::SelectMonitor { name, logical_width, logical_height } =>
                CommandView::SelectMonitor { name: name@, logical_width, logical_height },
            OverlayCommand::Show { phase, text, message } => CommandView::Show {
                phase: phase@,
                text: text@,
                message: message@,
            },
            OverlayCommand::Hide => CommandView::Hide,
            OverlayCommand::Quit => CommandView::Quit,
        }
    }
}

/// What the helper does with its window.
#[derive(Debug)]
pub enum HelperAction {
    Nothing,
    /// Show this text.
    Present(String, PreviewStyle),
    /// Make the window invisible.
    Fade,
    Quit,
}

/// A [`HelperAction`] with its text as a sequence of characters.
pub enum HelperView {
    Nothing,
    Present(Seq<char>, PreviewStyle),
    Fade,
    Quit,
}

impl View for HelperAction {
    type V = HelperView;

    open spec fn view(&self) -> HelperView {
        match *self {
            HelperAction::Nothing => HelperView::Nothing,
            HelperAction::Present(text, style) => HelperView::Present(text@, style),
            HelperAction::Fade => HelperView::Fade,
            HelperAction::Quit => HelperView::Quit,
        }
    }
}

/// What the helper does on a command.
pub open spec fn helper_action(command: CommandView) -> HelperView {
    match command {
        CommandView::SelectMonitor { .. } => HelperView::Nothing,
        CommandView::Show { phase, text, message } => match preview(phase, text, message) {
            Some((content, style)) => HelperView::Present(content, style),
            None => HelperView::Fade,
        },
        CommandView::Hide => HelperView::Fade,
        CommandView::Quit => HelperView::Quit,
    }
}

/// Does what a command says to the helper: a monitor that it names is the target of the
/// previews from then on.
pub fn run_command(command: OverlayCommand, target: &mut Option<MonitorTarget>) -> (result:
    HelperAction)
    ensures
        result@ == helper_action(command@),
        match command@ {
            CommandView::SelectMonitor { name, logical_width, logical_height } =>
                *final(target) matches Some(monitor) && monitor.name@ == name
                    && monitor.logical_width == logical_width && monitor.logical_height
                    == logical_height,
            _ => *final(target) == *old(target),
        },
{
    match command {
        OverlayCommand::SelectMonitor { name, logical_width, logical_height } => {
            *target = Some(MonitorTarget { name, logical_width, logical_height });
            HelperAction::Nothing
        },
        OverlayCommand::Show { phase, text, message } => {
            match preview_content(phase.as_str(), text.as_str(), message.as_str()) {
                Some((content, style)) => HelperAction::Present(content, style),
                None => HelperAction::Fade,
            }
        },
        OverlayCommand::Hide => HelperAction::Fade,
        OverlayCommand::Quit => HelperAction::Quit,
    }
}

/// Whether the first line that the helper prints says that it is ready.
pub fn is_ready(line: &str) -> (result: bool)
    ensures
        result == (trimmed(line@) == "ready"@),
{
    same_text(trim(line), "ready")
}

/// The way to a preview: it can be used once its far end is ready, until a command cannot
/// be delivered.
#[derive(Debug)]
pub struct OverlayLink {
    connected: bool,
    available: bool,
}

/// An [`OverlayLink`]: whether there is a far end, and whether previews can be shown.
pub struct LinkView {
    pub connected: bool,
    pub available: bool,
}

impl LinkView {
    /// What holds of every link: previews can be shown only where there is a far end.
    pub open spec fn well_formed(self) -> bool {
        self.available ==> self.connected
    }
}

impl View for OverlayLink {
    type V = LinkView;

    closed spec fn view(&self) -> LinkView {
        LinkView { connected: self.connected, available: self.available }
    }
}

impl OverlayLink {
    #[verifier::type_invariant]
    spec fn available_where_connected(self) -> bool {
        self@.well_formed()
    }

    /// No far end yet.
    pub fn new() -> (result: OverlayLink)
        ensures
            result@ == (LinkView { connected: false, available: false }),
            result@.well_formed(),
    {
        OverlayLink { connected: false, available: false }
    }

    /// Whether previews can be shown; then there is a far end.
    pub fn is_available(&self) -> (result: bool)
        ensures
            result == self@.available,
            result ==> self@.connected,
    {
        proof {
            use_type_invariant(self);
        }
        self.available
    }

    /// There is a far end, which may not be ready yet.
    pub fn connect(&mut self)
        ensures
            final(self)@ == (LinkView { connected: true, ..old(self)@ }),
            final(self)@.well_formed(),
    {
        self.connected = true;
    }

    /// The far end is ready.
    pub fn ready(&mut self)
        ensures
            final(self)@ == (LinkView { connected: true, available: true }),
            final(self)@.well_formed(),
    {
        self.connected = true;
        self.available = true;
    }

    /// A command could not be delivered.
    pub fn lost(&mut self)
        ensures
            final(self)@ == (LinkView { available: false, ..old(self)@ }),
            final(self)@.well_formed(),
    {
        self.available = false;
    }

    /// The command that shows a preview, if previews can be shown.
    pub fn show(&self, phase: &str, text: &str, message: &str) -> (result: Option<OverlayCommand>)
        ensures
            match result {
                Some(command) => self@.available && command@ == (CommandView::Show {
                    phase: phase@,
                    text: text@,
                    message: message@,
                }),
                None => !self@.available,
            },
    {
        if self.available {
            Some(
                OverlayCommand::Show {
                    phase: phase.to_owned(),
                    text: text.to_owned(),
                    message: message.to_owned(),
                },
            )
        } else {
            None
        }
    }

    /// The command that selects a monitor, if previews can be shown.
    pub fn select_monitor(
        &self,
        name: Option<&str>,
        logical_width: i32,
        logical_height: i32,
    ) -> (result: Option<OverlayCommand>)
        ensures
            match result {
                Some(command) => self@.available && command@ == (CommandView::SelectMonitor {
                    name: match name {
                        Some(name) => name@,
                        None => Seq::empty(),
                    },
                    logical_width,
                    logical_height,
                }),
                None => !self@.available,
            },
    {
        if self.available {
            let name = match name {
                Some(name) => name.to_owned(),
                None => String::new(),
            };
            Some(OverlayCommand::SelectMonitor { name, logical_width, logical_height })
        } else {
            None
        }
    }

    /// The command that hides the preview, if previews can be shown.
    pub fn hide_preview(&self) -> (result: Option<OverlayCommand>)
        ensures
            match result {
                Some(command) => self@.available && command@ == CommandView::Hide,
                None => !self@.available,
            },
    {
        if self.available {
            Some(OverlayCommand::Hide)
        } else {
            None
        }
    }
}

/// A text of up to 700 characters is shown whole; of a longer one the last 700 characters are
/// shown, behind an ellipsis.
pub proof fn law_the_end_of_long_texts_is_shown(text: Seq<char>)
    ensures
        text.len() <= 700 ==> visible(text) == text,
        text.len() > 700 ==> visible(text).len() == 701 && visible(text)[0] == '…'
            && visible(text).subrange(1, 701) == text.subrange(text.len() - 700, text.len() as int),
{
    if text.len() > 700 {
        assert(visible(text).subrange(1, 701) =~= text.subrange(
            text.len() - 700,
            text.len() as int,
        ));
    }
}

/// A transcript is shown in every phase but the idle one and, once it is delivered, the last
/// one; it is shown as final while it is inserted and as streaming otherwise, and the message
/// does not matter beside it.
pub proof fn law_transcripts_are_previewed(phase: Seq<char>, text: Seq<char>, message: Seq<char>)
    requires
        trimmed(text).len() > 0,
    ensures
        preview(phase, text, message) is None <==> phase == "idle"@ || phase == "complete"@,
        preview(phase, text, message) matches Some((content, style)) ==> {
            &&& content == visible(trimmed(text))
            &&& style is Final <==> phase == "inserting"@
            &&& style is Streaming <==> phase != "inserting"@
        },
{
}

/// Without a transcript the user is asked to speak while the microphone is open or opened; in
/// any other phase but the idle one the message is shown, unless it is blank.
pub proof fn law_prompts_are_previewed(phase: Seq<char>, text: Seq<char>, message: Seq<char>)
    requires
        trimmed(text).len() == 0,
    ensures
        phase == "connecting"@ || phase == "listening"@ ==> preview(phase, text, message) == Some(
            ("Your mic is ready start speaking"@, PreviewStyle::Prompt),
        ),
        phase == "idle"@ ==> preview(phase, text, message) is None,
        phase != "idle"@ && phase != "connecting"@ && phase != "listening"@ ==> {
            &&& preview(phase, text, message) is None <==> trimmed(message).len() == 0
            &&& trimmed(message).len() > 0 ==> preview(phase, text, message) == Some(
                (visible(trimmed(message)), PreviewStyle::Prompt),
            )
        },
{
    reveal_strlit("idle");
    reveal_strlit("connecting");
    reveal_strlit("listening");
    assert("idle"@.len() == 4 && "connecting"@.len() == 10 && "listening"@.len() == 9);
}

/// GNOME is found wherever it stands in a list of desktops, and in no other name.
pub proof fn law_gnome_is_found_in_lists(left: Seq<char>, right: Seq<char>)
    ensures
        lists_gnome(left + seq![':'] + right) <==> lists_gnome(left) || lists_gnome(right),
        !left.contains(':') ==> (lists_gnome(left) <==> same_ignoring_ascii_case(left, "gnome"@)),
{
    law_separators_separate(left, right, ':');
    let a = pieces(left, ':');
    let b = pieces(right, ':');
    let all = pieces(left + seq![':'] + right, ':');
    assert(forall|i: int| 0 <= i < a.len() ==> all[i] == #[trigger] a[i]);
    assert(forall|i: int| 0 <= i < b.len() ==> all[a.len() + i] == #[trigger] b[i]);
    if lists_gnome(left) {
        let i = choose|i: int|
            0 <= i < a.len() && same_ignoring_ascii_case(#[trigger] a[i], "gnome"@);
        assert(same_ignoring_ascii_case(all[i], "gnome"@));
    }
    if lists_gnome(right) {
        let i = choose|i: int|
            0 <= i < b.len() && same_ignoring_ascii_case(#[trigger] b[i], "gnome"@);
        assert(same_ignoring_ascii_case(all[a.len() + i], "gnome"@));
    }
    if lists_gnome(left + seq![':'] + right) {
        let i = choose|i: int|
            0 <= i < all.len() && same_ignoring_ascii_case(#[trigger] all[i], "gnome"@);
        if i < a.len() {
            assert(same_ignoring_ascii_case(a[i], "gnome"@));
        } else {
            assert(same_ignoring_ascii_case(b[i - a.len()], "gnome"@));
        }
    }
    if !left.contains(':') {
        assert(a[0] == left);
    }
}

proof fn lemma_first_named(monitors: Seq<MonitorInfo>, target: MonitorTarget, from: int)
    requires
        0 <= from,
    ensures
        match first_named(monitors, target, from) {
            Some(index) => from <= index < monitors.len() && has_target_name(
                monitors[index],
                target,
            ) && forall|i: int|
                from <= i < index ==> !has_target_name(#[trigger] monitors[i], target),
            None => forall|i: int|
                from <= i < monitors.len() ==> !has_target_name(#[trigger] monitors[i], target),
        },
    decreases monitors.len() - from,
{
    if from < monitors.len() && !has_target_name(monitors[from], target) {
        lemma_first_named(monitors, target, from + 1);
    }
}

proof fn lemma_first_sized(monitors: Seq<MonitorInfo>, target: MonitorTarget, from: int)
    requires
        0 <= from,
    ensures
        match first_sized(monitors, target, from) {
            Some(index) => from <= index < monitors.len() && has_target_size(
                monitors[index],
                target,
            ) && forall|i: int|
                from <= i < index ==> !has_target_size(#[trigger] monitors[i], target),
            None => forall|i: int|
                from <= i < monitors.len() ==> !has_target_size(#[trigger] monitors[i], target),
        },
    decreases monitors.len() - from,
{
    if from < monitors.len() && !has_target_size(monitors[from], target) {
        lemma_first_sized(monitors, target, from + 1);
    }
}

/// Whether a monitor has a name and it is the one that is wanted, up to the case of its letters.
pub open spec fn is_called(monitor: MonitorInfo, name: Seq<char>) -> bool {
    name.len() > 0 && monitor.model is Some && same_ignoring_ascii_case(monitor.model->0@, name)
}

/// A target means the first monitor that has its name, whatever the sizes are; where none has
/// it, or it has no name, the first of exactly its width and height; and none where there is no
/// such monitor either.
pub proof fn law_targets_are_found(monitors: Seq<MonitorInfo>, target: MonitorTarget)
    ensures
        ({
            let name = target.name@;
            let width = target.logical_width;
            let height = target.logical_height;
            if exists|i: int| 0 <= i < monitors.len() && is_called(#[trigger] monitors[i], name) {
                target_monitor(monitors, target) matches Some(found) && {
                    &&& 0 <= found < monitors.len()
                    &&& is_called(monitors[found], name)
                    &&& forall|i: int| 0 <= i < found ==> !is_called(#[trigger] monitors[i], name)
                }
            } else if exists|i: int|
                0 <= i < monitors.len() && (#[trigger] monitors[i]).width == width
                    && monitors[i].height == height {
                target_monitor(monitors, target) matches Some(found) && {
                    &&& 0 <= found < monitors.len()
                    &&& monitors[found].width == width && monitors[found].height == height
                    &&& forall|i: int|
                        0 <= i < found ==> !((#[trigger] monitors[i]).width == width
                            && monitors[i].height == height)
                }
            } else {
                target_monitor(monitors, target) is None
            }
        }),
{
    lemma_first_named(monitors, target, 0);
    lemma_first_sized(monitors, target, 0);
    let name = target.name@;
    assert forall|i: int| 0 <= i < monitors.len() implies is_called(#[trigger] monitors[i], name)
        == has_target_name(monitors[i], target) by {}
    if exists|i: int| 0 <= i < monitors.len() && is_called(#[trigger] monitors[i], name) {
        let i = choose|i: int| 0 <= i < monitors.len() && is_called(#[trigger] monitors[i], name);
        assert(has_target_name(monitors[i], target));
    }
}

/// The preview follows the pointer where its monitor is known, else the window that is written
/// to, else it is shown on the primary monitor.
pub proof fn law_the_preview_follows_the_pointer(
    monitors: Seq<MonitorInfo>,
    at_pointer: Option<usize>,
    target: Option<&MonitorTarget>,
    primary: Option<usize>,
)
    ensures
        at_pointer matches Some(index) ==> preview_monitor(monitors, at_pointer, target, primary)
            == Some(index as int),
        at_pointer is None && target is Some && target_monitor(monitors, *target->0) is Some
            ==> preview_monitor(monitors, at_pointer, target, primary) == target_monitor(
            monitors,
            *target->0,
        ),
        at_pointer is None && (target is None || target_monitor(monitors, *target->0) is None)
            ==> match primary {
            Some(index) => preview_monitor(monitors, at_pointer, target, primary) == Some(
                index as int,
            ),
            None => preview_monitor(monitors, at_pointer, target, primary) is None,
        },
{
}

/// The preview has the same space on both sides of it and above and below, up to one pixel, and
/// the monitor and the pointer are told as they are; without a pointer both coordinates are -1.
pub proof fn law_previews_are_centered(
    monitor: MonitorInfo,
    pointer: Option<(i32, i32)>,
    width: i32,
    height: i32,
)
    requires
        placeable(monitor, width as int, height as int),
    ensures
        ({
            let placed = placed_on(monitor, pointer, width, height);
            let left = placed.x - monitor.x;
            let right = monitor.x + monitor.width - (placed.x + width);
            let above = placed.y - monitor.y;
            let below = monitor.y + monitor.height - (placed.y + height);
            &&& -1 <= right - left <= 1
            &&& -1 <= below - above <= 1
            &&& width <= monitor.width ==> 0 <= left <= right
            &&& width >= monitor.width ==> right <= left <= 0
            &&& height <= monitor.height ==> 0 <= above <= below
            &&& height >= monitor.height ==> below <= above <= 0
            &&& placed.monitor_x == monitor.x && placed.monitor_y == monitor.y
            &&& placed.monitor_width == monitor.width && placed.monitor_height == monitor.height
            &&& placed.monitor_scale == monitor.scale
            &&& pointer matches Some((x, y)) ==> placed.pointer_x == x && placed.pointer_y == y
            &&& pointer is None ==> placed.pointer_x == -1 && placed.pointer_y == -1
        }),
{
}

/// The preview is as high as its text and 62 pixels more, but at least 94 and at most 280
/// pixels; a higher text does not make it lower.
pub proof fn law_previews_have_a_sensible_height(text_height: int, higher: int)
    ensures
        94 <= window_height(text_height) <= 280,
        94 <= text_height + 62 <= 280 ==> window_height(text_height) == text_height + 62,
        text_height <= higher ==> window_height(text_height) <= window_height(higher),
{
}

/// The helper shows a text exactly when there is a preview of it, and hides its window on every
/// other command that concerns it; it ends on request alone.
pub proof fn law_commands_are_obeyed(command: CommandView)
    ensures
        helper_action(command) is Quit <==> command is Quit,
        helper_action(command) is Nothing <==> command is SelectMonitor,
        command is Hide ==> helper_action(command) is Fade,
        command matches CommandView::Show { phase, text, message } ==> match preview(
            phase,
            text,
            message,
        ) {
            Some((content, style)) => helper_action(command) == HelperView::Present(content, style),
            None => helper_action(command) is Fade,
        },
{
}

} // verus!
