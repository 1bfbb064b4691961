//! Inserting text on Linux: the transcript goes through the clipboard, is pasted with a
//! virtual keyboard, and what the clipboard held before is put back.

use device_query::Keycode;
use vstd::prelude::*;

use crate::platform::{
    is_wayland_session, optional_text, wayland_session, ClipboardRestoreStatus, InsertionReport,
    ReportView, RestoreView,
};
use crate::shortcut::linux::{keys_after_all, KeyEvent};
use crate::text::same_text;

verus! {

/// How long the clipboard is given to publish the transcript.
pub const CLIPBOARD_SETTLE_DELAY_MS: u64 = 70;

/// How long an application is given to read the transcript.
pub const CLIPBOARD_RESTORE_DELAY_MS: u64 = 120;

pub const VIRTUAL_DEVICE_SETTLE_DELAY_MS: u64 = 120;

pub const KEYSTROKE_DELAY_MS: u64 = 18;

pub const KEY_LEFTCTRL: u16 = 29;

pub const KEY_LEFTSHIFT: u16 = 42;

pub const KEY_V: u16 = 47;

/// The clipboard that is used.
#[derive(Clone, Copy, Debug, PartialEq, Eq, Structural)]
pub enum DisplayServer {
    Wayland,
    X11,
}

/// The clipboard that is used: that of Wayland in a Wayland session, else that of X11.
pub fn display_server(session_type: Option<&str>, has_wayland_display: bool) -> (result:
    DisplayServer)
    ensures
        result == if wayland_session(session_type, has_wayland_display) {
            DisplayServer::Wayland
        } else {
            DisplayServer::X11
        },
{
    if is_wayland_session(session_type, has_wayland_display) {
        DisplayServer::Wayland
    } else {
        DisplayServer::X11
    }
}

/// What is known of the process that owns the clipboard.
#[derive(Debug)]
pub enum OwnerState {
    Running,
    /// It has ended, with this status: someone else owns the clipboard now.
    Exited(String),
    Unknown(String),
}

/// An [`OwnerState`] with its text as a sequence of characters.
pub enum OwnerView {
    Running,
    Exited(Seq<char>),
    Unknown(Seq<char>),
}

impl View for OwnerState {
    type V = OwnerView;

    open spec fn view(&self) -> OwnerView {
        match *self {
            OwnerState::Running => OwnerView::Running,
            OwnerState::Exited(status) => OwnerView::Exited(status@),
            OwnerState::Unknown(error) => OwnerView::Unknown(error@),
        }
    }
}

/// What happened to the last action. Where one can fail, the text says why it did.
#[derive(Debug)]
pub enum InsertionEvent {
    Published(Option<String>),
    OwnerChecked(OwnerState),
    Pasted(Option<String>),
    OwnerStopped(Option<String>),
    /// The text that the clipboard holds, if it holds any.
    ClipboardRead(Option<String>),
    Restored(Option<String>),
}

/// An [`InsertionEvent`] with its texts as sequences of characters.
pub enum EventView {
    Published(Option<Seq<char>>),
    OwnerChecked(OwnerView),
    Pasted(Option<Seq<char>>),
    OwnerStopped(Option<Seq<char>>),
    ClipboardRead(Option<Seq<char>>),
    Restored(Option<Seq<char>>),
}

impl View for InsertionEvent {
    type V = EventView;

    open spec fn view(&self) -> EventView {
        match *self {
            InsertionEvent::Published(error) => EventView::Published(optional_text(error)),
            InsertionEvent::OwnerChecked(state) => EventView::OwnerChecked(state@),
            InsertionEvent::Pasted(error) => EventView::Pasted(optional_text(error)),
            InsertionEvent::OwnerStopped(error) => EventView::OwnerStopped(optional_text(error)),
            InsertionEvent::ClipboardRead(text) => EventView::ClipboardRead(optional_text(text)),
            InsertionEvent::Restored(error) => EventView::Restored(optional_text(error)),
        }
    }
}

/// What has to be done next.
#[derive(Debug)]
pub enum InsertionAction {
    CheckOwner,
    Paste,
    StopOwner,
    ReadClipboard,
    /// Put this text on the clipboard, or clear it where there is none.
    Restore(Option<String>),
    Finish(InsertionReport),
}

/// An [`InsertionAction`] with its texts as sequences of characters.
pub enum ActionView {
    CheckOwner,
    Paste,
    StopOwner,
    ReadClipboard,
    Restore(Option<Seq<char>>),
    Finish(ReportView),
}

impl View for InsertionAction {
    type V = ActionView;

    open spec fn view(&self) -> ActionView {
        match *self {
            InsertionAction::CheckOwner => ActionView::CheckOwner,
            InsertionAction::Paste => ActionView::Paste,
            InsertionAction::StopOwner => ActionView::StopOwner,
            InsertionAction::ReadClipboard => ActionView::ReadClipboard,
            InsertionAction::Restore(text) => ActionView::Restore(optional_text(text)),
            InsertionAction::Finish(report) => ActionView::Finish(report@),
        }
    }
}

/// How far an insertion is.
#[derive(Clone, Copy, Debug, PartialEq, Eq, Structural)]
pub enum InsertionStep {
    Publishing,
    Settling,
    Pasting,
    Checking,
    Stopping,
    Restoring,
    Finished,
}

/// An insertion through the clipboard.
#[derive(Debug)]
pub struct ClipboardInsertion {
    pub server: DisplayServer,
    pub text: String,
    pub original: Option<String>,
    pub insertion_error: Option<String>,
    pub step: InsertionStep,
}

/// A [`ClipboardInsertion`] with its texts as sequences of characters.
pub struct InsertionView {
    pub server: DisplayServer,
    pub text: Seq<char>,
    pub original: Option<Seq<char>>,
    pub insertion_error: Option<Seq<char>>,
    pub step: InsertionStep,
}

impl View for ClipboardInsertion {
    type V = InsertionView;

    open spec fn view(&self) -> InsertionView {
        InsertionView {
            server: self.server,
            text: self.text@,
            original: optional_text(self.original),
            insertion_error: optional_text(self.insertion_error),
            step: self.step,
        }
    }
}

/// What an attempt to put the clipboard back came to.
pub open spec fn restore_outcome(had_text: bool, error: Option<Seq<char>>) -> RestoreView {
    match error {
        Some(error) => RestoreView::Failed(error),
        None => if had_text {
            RestoreView::Restored
        } else {
            RestoreView::OriginalUnavailable
        },
    }
}

impl InsertionView {
    /// Whether the insertion waits for an event of this kind.
    pub open spec fn accepts(self, event: EventView) -> bool {
        match event {
            EventView::Published(_) => self.step is Publishing,
            EventView::OwnerChecked(_) => self.server is Wayland && (self.step is Settling
                || self.step is Checking),
            EventView::Pasted(_) => self.step is Pasting,
            EventView::OwnerStopped(_) => self.server is Wayland && self.step is Stopping,
            EventView::ClipboardRead(_) => self.server is X11 && self.step is Checking,
            EventView::Restored(_) => self.step is Restoring,
        }
    }

    /// The insertion at another step.
    pub open spec fn at(self, step: InsertionStep) -> InsertionView {
        InsertionView { step, ..self }
    }

    /// The end of the insertion.
    pub open spec fn finish(self, error: Option<Seq<char>>, restore: Option<RestoreView>) -> (
        InsertionView,
        ActionView,
    ) {
        (
            self.at(InsertionStep::Finished),
            ActionView::Finish(
                ReportView { insertion_error: error, clipboard_restore: restore },
            ),
        )
    }

    /// What an event leads to.
    pub open spec fn next(self, event: EventView) -> (InsertionView, ActionView) {
        match event {
            EventView::Published(Some(error)) => self.finish(
                Some(
                    if self.server is X11 {
                        "failed to publish the transcript to the X11 clipboard: "@ + error
                    } else {
                        error
                    },
                ),
                None,
            ),
            EventView::Published(None) => if self.server is X11 {
                (self.at(InsertionStep::Pasting), ActionView::Paste)
            } else {
                (self.at(InsertionStep::Settling), ActionView::CheckOwner)
            },
            EventView::OwnerChecked(owner) => if self.step is Settling {
                match owner {
                    OwnerView::Running => (self.at(InsertionStep::Pasting), ActionView::Paste),
                    OwnerView::Exited(status) => self.finish(
                        Some(
                            "Wayland clipboard ownership was lost before paste with status "@
                                + status,
                        ),
                        Some(RestoreView::SkippedExternalChange),
                    ),
                    OwnerView::Unknown(error) => self.finish(
                        Some("failed to inspect the Wayland clipboard owner: "@ + error),
                        Some(
                            RestoreView::Failed("could not safely determine clipboard ownership"@),
                        ),
                    ),
                }
            } else {
                match owner {
                    OwnerView::Running => (
                        self.at(InsertionStep::Stopping),
                        ActionView::StopOwner,
                    ),
                    OwnerView::Exited(_) => self.finish(
                        self.insertion_error,
                        Some(RestoreView::SkippedExternalChange),
                    ),
                    OwnerView::Unknown(error) => self.finish(
                        self.insertion_error,
                        Some(
                            RestoreView::Failed(
                                "failed to inspect the Wayland clipboard owner before restore: "@
                                    + error,
                            ),
                        ),
                    ),
                }
            },
            EventView::Pasted(error) => (
                InsertionView { insertion_error: error, step: InsertionStep::Checking, ..self },
                if self.server is X11 {
                    ActionView::ReadClipboard
                } else {
                    ActionView::CheckOwner
                },
            ),
            EventView::OwnerStopped(Some(error)) => self.finish(
                self.insertion_error,
                Some(RestoreView::Failed(error)),
            ),
            EventView::OwnerStopped(None) => (
                self.at(InsertionStep::Restoring),
                ActionView::Restore(self.original),
            ),
            EventView::ClipboardRead(current) => if current == Some(self.text) {
                (self.at(InsertionStep::Restoring), ActionView::Restore(self.original))
            } else {
                self.finish(self.insertion_error, Some(RestoreView::SkippedExternalChange))
            },
            EventView::Restored(error) => self.finish(
                self.insertion_error,
                Some(restore_outcome(self.original is Some, error)),
            ),
        }
    }
}

fn joined(front: &str, back: &str) -> (result: String)
    ensures
        result@ == front@ + back@,
{
    let mut text = front.to_owned();
    text.append(back);
    text
}

/// What an attempt to put the clipboard back came to.
pub fn restore_status(had_text: bool, error: Option<String>) -> (result: ClipboardRestoreStatus)
    ensures
        result@ == restore_outcome(had_text, optional_text(error)),
{
    match error {
        Some(error) => ClipboardRestoreStatus::Failed(error),
        None => if had_text {
            ClipboardRestoreStatus::Restored
        } else {
            ClipboardRestoreStatus::OriginalUnavailable
        },
    }
}

/// The X11 clipboard cannot be opened.
pub fn x11_unavailable(error: &str) -> (result: InsertionReport)
    ensures
        result@ == (ReportView {
            insertion_error: Some("failed to open the X11 clipboard: "@ + error@),
            clipboard_restore: None,
        }),
{
    InsertionReport::failed_before_publish(joined("failed to open the X11 clipboard: ", error))
}

fn copied(text: &Option<String>) -> (result: Option<String>)
    ensures
        optional_text(result) == optional_text(*text),
{
    match text {
        Some(text) => Some(text.clone()),
        None => None,
    }
}

impl ClipboardInsertion {
    /// An insertion of `text`; `original` is what the clipboard holds, if it holds text. The
    /// transcript has to be published first.
    pub fn new(server: DisplayServer, text: &str, original: Option<String>) -> (result: Self)
        ensures
            result@ == (InsertionView {
                server,
                text: text@,
                original: optional_text(original),
                insertion_error: None,
                step: InsertionStep::Publishing,
            }),
    {
        ClipboardInsertion {
            server,
            text: text.to_owned(),
            original,
            insertion_error: None,
            step: InsertionStep::Publishing,
        }
    }

    fn finish(
        &mut self,
        error: Option<String>,
        restore: Option<ClipboardRestoreStatus>,
    ) -> (result: InsertionAction)
        ensures
            (final(self)@, result@) == old(self)@.finish(
                optional_text(error),
                match restore {
                    Some(status) => Some(status@),
                    None => None,
                },
            ),
    {
        self.step = InsertionStep::Finished;
        InsertionAction::Finish(
            InsertionReport { insertion_error: error, clipboard_restore: restore },
        )
    }

    /// Takes an event into account; says what has to be done next.
    pub fn step(&mut self, event: InsertionEvent) -> (result: InsertionAction)
        requires
            old(self)@.accepts(event@),
        ensures
            (final(self)@, result@) == old(self)@.next(event@),
    {
        match event {
            InsertionEvent::Published(Some(error)) => {
                let error = if self.server == DisplayServer::X11 {
                    joined(
                        "failed to publish the transcript to the X11 clipboard: ",
                        error.as_str(),
                    )
                } else {
                    error
                };
                self.finish(Some(error), None)
            },
            InsertionEvent::Published(None) => {
                if self.server == DisplayServer::X11 {
                    self.step = InsertionStep::Pasting;
                    InsertionAction::Paste
                } else {
                    self.step = InsertionStep::Settling;
                    InsertionAction::CheckOwner
                }
            },
            InsertionEvent::OwnerChecked(owner) => {
                if self.step == InsertionStep::Settling {
                    match owner {
                        OwnerState::Running => {
                            self.step = InsertionStep::Pasting;
                            InsertionAction::Paste
                        },
                        OwnerState::Exited(status) => self.finish(
                            Some(
                                joined(
                                    "Wayland clipboard ownership was lost before paste with status ",
                                    status.as_str(),
                                ),
                            ),
                            Some(ClipboardRestoreStatus::SkippedExternalChange),
                        ),
                        OwnerState::Unknown(error) => self.finish(
                            Some(
                                joined(
                                    "failed to inspect the Wayland clipboard owner: ",
                                    error.as_str(),
                                ),
                            ),
                            Some(
                                ClipboardRestoreStatus::Failed(
                                    "could not safely determine clipboard ownership".to_owned(),
                                ),
                            ),
                        ),
                    }
                } else {
                    let insertion_error = copied(&self.insertion_error);
                    match owner {
                        OwnerState::Running => {
                            self.step = InsertionStep::Stopping;
                            InsertionAction::StopOwner
                        },
                        OwnerState::Exited(_) => self.finish(
                            insertion_error,
                            Some(ClipboardRestoreStatus::SkippedExternalChange),
                        ),
                        OwnerState::Unknown(error) => self.finish(
                            insertion_error,
                            Some(
                                ClipboardRestoreStatus::Failed(
                                    joined(
                                        "failed to inspect the Wayland clipboard owner before restore: ",
                                        error.as_str(),
                                    ),
                                ),
                            ),
                        ),
                    }
                }
            },
            InsertionEvent::Pasted(error) => {
                self.insertion_error = error;
                self.step = InsertionStep::Checking;
                if self.server == DisplayServer::X11 {
                    InsertionAction::ReadClipboard
                } else {
                    InsertionAction::CheckOwner
                }
            },
            InsertionEvent::OwnerStopped(Some(error)) => {
                let insertion_error = copied(&self.insertion_error);
                self.finish(insertion_error, Some(ClipboardRestoreStatus::Failed(error)))
            },
            InsertionEvent::OwnerStopped(None) => {
                self.step = InsertionStep::Restoring;
                InsertionAction::Restore(copied(&self.original))
            },
            InsertionEvent::ClipboardRead(current) => {
                let unchanged = match &current {
                    Some(current) => same_text(current.as_str(), self.text.as_str()),
                    None => false,
                };
                if unchanged {
                    self.step = InsertionStep::Restoring;
                    InsertionAction::Restore(copied(&self.original))
                } else {
                    let insertion_error = copied(&self.insertion_error);
                    self.finish(
                        insertion_error,
                        Some(ClipboardRestoreStatus::SkippedExternalChange),
                    )
                }
            },
            InsertionEvent::Restored(error) => {
                let insertion_error = copied(&self.insertion_error);
                let status = restore_status(self.original.is_some(), error);
                self.finish(insertion_error, Some(status))
            },
        }
    }
}

/// The state behind a series of events, and the last action; `None` where an event was not
/// waited for.
pub open spec fn insertion_run(start: InsertionView, events: Seq<EventView>) -> Option<
    (InsertionView, Option<ActionView>),
>
    decreases events.len(),
{
    if events.len() == 0 {
        Some((start, None))
    } else {
        match insertion_run(start, events.drop_last()) {
            None => None,
            Some((state, _)) => if state.accepts(events.last()) {
                let (next, action) = state.next(events.last());
                Some((next, Some(action)))
            } else {
                None
            },
        }
    }
}

/// Whether an event says what became of an action.
pub open spec fn answers(action: ActionView, event: EventView) -> bool {
    match action {
        ActionView::CheckOwner => event is OwnerChecked,
        ActionView::Paste => event is Pasted,
        ActionView::StopOwner => event is OwnerStopped,
        ActionView::ReadClipboard => event is ClipboardRead,
        ActionView::Restore(_) => event is Restored,
        ActionView::Finish(_) => false,
    }
}

/// How many events an insertion can still take.
spec fn events_left(state: InsertionView) -> nat {
    match state.step {
        InsertionStep::Publishing => 6,
        InsertionStep::Settling => 5,
        InsertionStep::Pasting => 4,
        InsertionStep::Checking => 3,
        InsertionStep::Stopping => 2,
        InsertionStep::Restoring => 1,
        InsertionStep::Finished => 0,
    }
}

proof fn lemma_events_left(start: InsertionView, events: Seq<EventView>)
    requires
        start.step is Publishing,
    ensures
        insertion_run(start, events) matches Some((state, _)) ==> events.len() + events_left(state)
            <= 6 && state.server == start.server,
    decreases events.len(),
{
    if events.len() > 0 {
        lemma_events_left(start, events.drop_last());
    }
}

/// Once the transcript is published or could not be, every answer to what the insertion asks
/// for is one that it waits for; it asks only for what its clipboard has: for the owner on
/// Wayland, for the contents on X11. It is at its end exactly where it reports, after six
/// events at the latest.
pub proof fn law_answers_are_waited_for(
    start: InsertionView,
    events: Seq<EventView>,
    event: EventView,
)
    requires
        start.step is Publishing,
    ensures
        event is Published ==> start.accepts(event),
        insertion_run(start, events) matches Some((state, Some(action))) ==> {
            &&& answers(action, event) ==> state.accepts(event)
            &&& action is CheckOwner || action is StopOwner ==> start.server is Wayland
            &&& action is ReadClipboard ==> start.server is X11
            &&& action is Finish <==> state.step is Finished
            &&& events.len() <= 6
        },
{
    lemma_events_left(start, events);
    if events.len() > 0 {
        lemma_events_left(start, events.drop_last());
    }
}

/// Whether the clipboard still held the transcript whenever it was looked at.
pub open spec fn transcript_kept(text: Seq<char>, event: EventView) -> bool {
    match event {
        EventView::OwnerChecked(owner) => owner is Running,
        EventView::ClipboardRead(current) => current == Some(text),
        _ => true,
    }
}

proof fn lemma_unfinished_means_kept(start: InsertionView, events: Seq<EventView>)
    requires
        start.step is Publishing,
    ensures
        insertion_run(start, events) matches Some((state, _)) ==> {
            &&& state.text == start.text
            &&& state.original == start.original
            &&& state.server == start.server
            &&& !(state.step is Finished) ==> forall|i: int|
                0 <= i < events.len() ==> transcript_kept(start.text, #[trigger] events[i])
        },
    decreases events.len(),
{
    if events.len() > 0 {
        lemma_unfinished_means_kept(start, events.drop_last());
        if insertion_run(start, events) is Some {
            let (state, _) = insertion_run(start, events.drop_last())->0;
            let (next, _) = insertion_run(start, events)->0;
            if !(next.step is Finished) {
                assert forall|i: int| 0 <= i < events.len() implies transcript_kept(
                    start.text,
                    #[trigger] events[i],
                ) by {
                    if i < events.len() - 1 {
                        assert(events[i] == events.drop_last()[i]);
                    }
                }
            }
        }
    }
}

/// The clipboard is written again only where it still held the transcript whenever it was
/// looked at, and then with what it held at first: newer contents are never replaced.
pub proof fn law_newer_clipboard_contents_are_kept(start: InsertionView, events: Seq<EventView>)
    requires
        start.step is Publishing,
    ensures
        insertion_run(start, events) matches Some((_, Some(ActionView::Restore(text)))) ==> {
            &&& text == start.original
            &&& forall|i: int|
                0 <= i < events.len() ==> transcript_kept(start.text, #[trigger] events[i])
        },
{
    lemma_unfinished_means_kept(start, events);
    if events.len() > 0 {
        lemma_unfinished_means_kept(start, events.drop_last());
    }
}

/// The keys of the virtual keyboard. A device counts as a keyboard only where it has the
/// whole block of low key codes.
pub open spec fn paste_keyboard() -> Seq<u16> {
    Seq::new(32, |i: int| (i + 1) as u16) + seq![KEY_V, KEY_LEFTSHIFT]
}

/// The keys of the virtual keyboard.
pub fn paste_keyboard_codes() -> (result: Vec<u16>)
    ensures
        result@ == paste_keyboard(),
{
    let mut codes: Vec<u16> = Vec::new();
    let mut code: u16 = 1;
    while code <= 32
        invariant
            1 <= code <= 33,
            codes@ == Seq::new((code - 1) as nat, |i: int| (i + 1) as u16),
        decreases 33 - code,
    {
        codes.push(code);
        proof {
            assert(codes@ =~= Seq::new(code as nat, |i: int| (i + 1) as u16));
        }
        code += 1;
    }
    codes.push(KEY_V);
    codes.push(KEY_LEFTSHIFT);
    proof {
        assert(codes@ =~= paste_keyboard());
    }
    codes
}

/// The key events that press the paste shortcut.
pub open spec fn paste_press() -> Seq<KeyEvent> {
    seq![
        KeyEvent { code: KEY_LEFTCTRL, value: 1 },
        KeyEvent { code: KEY_LEFTSHIFT, value: 1 },
        KeyEvent { code: KEY_V, value: 1 },
    ]
}

/// The key events that release the paste shortcut.
pub open spec fn paste_release() -> Seq<KeyEvent> {
    seq![
        KeyEvent { code: KEY_V, value: 0 },
        KeyEvent { code: KEY_LEFTSHIFT, value: 0 },
        KeyEvent { code: KEY_LEFTCTRL, value: 0 },
    ]
}

/// The key events that press the paste shortcut, and those that release it.
pub fn paste_events() -> (result: (Vec<KeyEvent>, Vec<KeyEvent>))
    ensures
        result.0@ == paste_press(),
        result.1@ == paste_release(),
{
    let mut press: Vec<KeyEvent> = Vec::new();
    press.push(KeyEvent { code: KEY_LEFTCTRL, value: 1 });
    press.push(KeyEvent { code: KEY_LEFTSHIFT, value: 1 });
    press.push(KeyEvent { code: KEY_V, value: 1 });
    let mut release: Vec<KeyEvent> = Vec::new();
    release.push(KeyEvent { code: KEY_V, value: 0 });
    release.push(KeyEvent { code: KEY_LEFTSHIFT, value: 0 });
    release.push(KeyEvent { code: KEY_LEFTCTRL, value: 0 });
    proof {
        assert(press@ =~= paste_press());
        assert(release@ =~= paste_release());
    }
    (press, release)
}

/// The paste shortcut is Control with Shift and V; the virtual keyboard has these keys, and
/// none of them stays down.
pub proof fn law_paste_leaves_no_key_down()
    ensures
        keys_after_all(Set::empty(), paste_press()) == set![
            Keycode::LControl,
            Keycode::LShift,
            Keycode::V,
        ],
        keys_after_all(Set::empty(), paste_press() + paste_release()) == Set::<Keycode>::empty(),
        forall|i: int|
            0 <= i < 3 ==> paste_keyboard().contains((#[trigger] paste_press()[i]).code),
{
    let press = paste_press();
    let all = press + paste_release();
    let none = Set::<Keycode>::empty();
    reveal_with_fuel(keys_after_all, 7);
    assert(press.drop_last() =~= press.take(2));
    assert(press.take(2).drop_last() =~= press.take(1));
    assert(press.take(1).drop_last() =~= Seq::empty());
    assert(all.drop_last() =~= all.take(5));
    assert(all.take(5).drop_last() =~= all.take(4));
    assert(all.take(4).drop_last() =~= press);
    assert(keys_after_all(none, press) =~= set![Keycode::LControl, Keycode::LShift, Keycode::V]);
    assert(keys_after_all(none, all) =~= none);
    assert(paste_keyboard()[28] == KEY_LEFTCTRL);
    assert(paste_keyboard()[32] == KEY_V);
    assert(paste_keyboard()[33] == KEY_LEFTSHIFT);
}

/// What an attempt to put the clipboard back came to: a failure tells its cause, and a success
/// means that the old text is there, or that there was none.
pub proof fn law_restore_outcomes(had_text: bool, error: Seq<char>)
    ensures
        restore_outcome(had_text, Some(error)) == RestoreView::Failed(error),
        restore_outcome(true, None) == RestoreView::Restored,
        restore_outcome(false, None) == RestoreView::OriginalUnavailable,
{
}

proof fn lemma_after_paste(
    start: InsertionView,
    events: Seq<EventView>,
    index: int,
    error: Option<Seq<char>>,
)
    requires
        0 <= index < events.len(),
        events[index] == EventView::Pasted(error),
    ensures
        insertion_run(start, events) matches Some((state, action)) ==> {
            &&& state.insertion_error == error
            &&& state.step is Checking || state.step is Stopping || state.step is Restoring
                || state.step is Finished
            &&& action matches Some(ActionView::Finish(report)) ==> report.insertion_error == error
        },
    decreases events.len(),
{
    if insertion_run(start, events) is Some && index < events.len() - 1 {
        let front = events.drop_last();
        assert(front[index] == events[index]);
        lemma_after_paste(start, front, index, error);
    }
}

/// The report says of the insertion what became of the paste: that it failed exactly where the
/// paste failed, with its error, whatever happened to the clipboard before and after.
pub proof fn law_the_report_tells_of_the_paste(
    start: InsertionView,
    events: Seq<EventView>,
    index: int,
)
    requires
        0 <= index < events.len(),
    ensures
        insertion_run(start, events) matches Some((_, Some(ActionView::Finish(report)))) ==> (
        events[index] matches EventView::Pasted(error) ==> report.insertion_error == error),
{
    if let EventView::Pasted(error) = events[index] {
        lemma_after_paste(start, events, index, error);
    }
}

proof fn lemma_before_paste(start: InsertionView, events: Seq<EventView>)
    requires
        start.step is Publishing,
        forall|i: int| 0 <= i < events.len() ==> !(#[trigger] events[i] is Pasted),
    ensures
        insertion_run(start, events) matches Some((state, action)) ==> {
            &&& state.step is Publishing || state.step is Settling || state.step is Pasting
                || state.step is Finished
            &&& action matches Some(ActionView::Finish(report)) ==> report.insertion_error is Some
        },
    decreases events.len(),
{
    if events.len() > 0 && insertion_run(start, events) is Some {
        let front = events.drop_last();
        assert forall|i: int| 0 <= i < front.len() implies !(#[trigger] front[i] is Pasted) by {
            assert(front[i] == events[i]);
        }
        lemma_before_paste(start, front);
        assert(!(events[events.len() - 1] is Pasted));
    }
}

/// A text that was never pasted is reported as not inserted.
pub proof fn law_unpasted_texts_are_reported(start: InsertionView, events: Seq<EventView>)
    requires
        start.step is Publishing,
        forall|i: int| 0 <= i < events.len() ==> !(#[trigger] events[i] is Pasted),
    ensures
        insertion_run(start, events) matches Some((_, Some(ActionView::Finish(report))))
            ==> report.insertion_error is Some,
{
    lemma_before_paste(start, events);
}

/// What each answer leads to. A transcript that cannot be published ends the insertion with the
/// error and an untouched clipboard. It is pasted as soon as it is published, on Wayland once
/// its owner is known to run. After the paste, successful or not, the clipboard is looked at
/// once more; it is put back where it still holds the transcript, and left alone where it does
/// not. The report tells what became of it.
pub proof fn law_answers_lead_on(state: InsertionView, event: EventView)
    requires
        state.accepts(event),
    ensures
        ({
            let (next, action) = state.next(event);
            &&& next.server == state.server && next.text == state.text && next.original
                == state.original
            &&& match event {
                EventView::Published(Some(error)) => {
                    &&& action matches ActionView::Finish(report) && report.clipboard_restore
                        is None && report.insertion_error == Some(
                        if state.server is X11 {
                            "failed to publish the transcript to the X11 clipboard: "@ + error
                        } else {
                            error
                        },
                    )
                },
                EventView::Published(None) => if state.server is X11 {
                    action is Paste && next.step is Pasting
                } else {
                    action is CheckOwner && next.step is Settling
                },
                EventView::OwnerChecked(OwnerView::Running) => if state.step is Settling {
                    action is Paste && next.step is Pasting
                } else {
                    action is StopOwner && next.step is Stopping
                },
                EventView::OwnerChecked(OwnerView::Exited(status)) => {
                    &&& action matches ActionView::Finish(report) && report.clipboard_restore
                        == Some(RestoreView::SkippedExternalChange) && report.insertion_error
                        == if state.step is Settling {
                        Some(
                            "Wayland clipboard ownership was lost before paste with status "@
                                + status,
                        )
                    } else {
                        state.insertion_error
                    }
                },
                EventView::OwnerChecked(OwnerView::Unknown(error)) => {
                    &&& action matches ActionView::Finish(report) && report.clipboard_restore
                        == Some(
                        RestoreView::Failed(
                            if state.step is Settling {
                                "could not safely determine clipboard ownership"@
                            } else {
                                "failed to inspect the Wayland clipboard owner before restore: "@
                                    + error
                            },
                        ),
                    ) && report.insertion_error == if state.step is Settling {
                        Some("failed to inspect the Wayland clipboard owner: "@ + error)
                    } else {
                        state.insertion_error
                    }
                },
                EventView::Pasted(error) => {
                    &&& next.insertion_error == error && next.step is Checking
                    &&& action is ReadClipboard <==> state.server is X11
                    &&& action is CheckOwner <==> state.server is Wayland
                },
                EventView::OwnerStopped(Some(error)) => {
                    &&& action matches ActionView::Finish(report) && report.clipboard_restore
                        == Some(RestoreView::Failed(error)) && report.insertion_error
                        == state.insertion_error
                },
                EventView::OwnerStopped(None) => action == ActionView::Restore(state.original)
                    && next.step is Restoring,
                EventView::ClipboardRead(current) => if current is Some && current->0
                    == state.text {
                    action == ActionView::Restore(state.original) && next.step is Restoring
                } else {
                    action matches ActionView::Finish(report) && report.clipboard_restore == Some(
                        RestoreView::SkippedExternalChange,
                    ) && report.insertion_error == state.insertion_error
                },
                EventView::Restored(error) => {
                    &&& action matches ActionView::Finish(report) && report.insertion_error
                        == state.insertion_error && (report.clipboard_restore matches Some(
                        restored,
                    ) && (error matches Some(cause) ==> restored == RestoreView::Failed(cause)) && (
                    error is None && state.original is Some ==> restored == RestoreView::Restored)
                        && (error is None && state.original is None ==> restored
                        == RestoreView::OriginalUnavailable))
                },
            }
        }),
{
}

/// V is pressed while Control and Shift are down, and released before them.
pub proof fn law_v_is_pressed_with_both_modifiers()
    ensures
        paste_press().len() == 3 && paste_release().len() == 3,
        paste_press()[2] == (KeyEvent { code: 47, value: 1 }),
        paste_release()[0] == (KeyEvent { code: 47, value: 0 }),
        paste_press().take(2).contains(KeyEvent { code: 29, value: 1 }),
        paste_press().take(2).contains(KeyEvent { code: 42, value: 1 }),
        paste_release().skip(1).contains(KeyEvent { code: 29, value: 0 }),
        paste_release().skip(1).contains(KeyEvent { code: 42, value: 0 }),
{
    let press = paste_press().take(2);
    let release = paste_release().skip(1);
    assert(press[0] == (KeyEvent { code: 29, value: 1 }));
    assert(press[1] == (KeyEvent { code: 42, value: 1 }));
    assert(release[0] == (KeyEvent { code: 42, value: 0 }));
    assert(release[1] == (KeyEvent { code: 29, value: 0 }));
}

} // verus!
