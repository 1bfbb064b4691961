//! Watching the shortcut through the Linux input event devices.

use device_query::Keycode;
use vstd::prelude::*;

use crate::shortcut::keys::{linux_key, map_key};
use crate::shortcut::{edge, shortcut_edge, PressedKeys, ShortcutBinding, ShortcutEvent};
use crate::text::{same_text, views};

verus! {

pub const KEY_ENTER: u16 = 28;

pub const KEY_A: u16 = 30;

pub const KEY_Z: u16 = 44;

pub const KEY_SPACE: u16 = 57;

fn has_code(codes: &[u16], code: u16) -> (result: bool)
    ensures
        result == codes@.contains(code),
{
    let mut i: usize = 0;
    while i < codes.len()
        invariant
            i <= codes@.len(),
            forall|j: int| 0 <= j < i ==> codes@[j] != code,
        decreases codes@.len() - i,
    {
        if codes[i] == code {
            proof {
                assert(codes@[i as int] == code);
            }
            return true;
        }
        i += 1;
    }
    false
}

/// Whether a device with these key codes is a keyboard; a device that reports no keys is
/// none.
pub fn is_keyboard(supported: Option<&[u16]>) -> (result: bool)
    ensures
        result == match supported {
            Some(codes) => codes@.contains(KEY_A) && codes@.contains(KEY_Z) && codes@.contains(
                KEY_SPACE,
            ) && codes@.contains(KEY_ENTER),
            None => false,
        },
        supported matches Some(codes) ==> result == (codes@.contains(30) && codes@.contains(44)
            && codes@.contains(57) && codes@.contains(28)),
{
    match supported {
        Some(codes) => has_code(codes, KEY_A) && has_code(codes, KEY_Z) && has_code(
            codes,
            KEY_SPACE,
        ) && has_code(codes, KEY_ENTER),
        None => false,
    }
}

/// A key event of an input device: 0 says that the key was released, 1 that it was
/// pressed, anything else that it is still held down.
#[derive(Clone, Copy, Debug)]
pub struct KeyEvent {
    pub code: u16,
    pub value: i32,
}

/// The keys that are held down after an event.
pub open spec fn keys_after(pressed: Set<Keycode>, event: KeyEvent) -> Set<Keycode> {
    match linux_key(event.code) {
        Some(key) => if event.value == 0 {
            pressed.remove(key)
        } else if event.value == 1 {
            pressed.insert(key)
        } else {
            pressed
        },
        None => pressed,
    }
}

/// The keys that are held down after a series of events.
pub open spec fn keys_after_all(pressed: Set<Keycode>, events: Seq<KeyEvent>) -> Set<Keycode>
    decreases events.len(),
{
    if events.len() == 0 {
        pressed
    } else {
        keys_after(keys_after_all(pressed, events.drop_last()), events.last())
    }
}

/// Whether any event of a series changes the keys that are held down.
pub open spec fn any_change(pressed: Set<Keycode>, events: Seq<KeyEvent>) -> bool
    decreases events.len(),
{
    if events.len() == 0 {
        false
    } else {
        let before = keys_after_all(pressed, events.drop_last());
        any_change(pressed, events.drop_last()) || keys_after(before, events.last()) != before
    }
}

/// Takes a series of events into account; says whether any of them changed something.
pub fn apply_events(pressed: &mut PressedKeys, events: &[KeyEvent]) -> (result: bool)
    ensures
        final(pressed)@ == keys_after_all(old(pressed)@, events@),
        result == any_change(old(pressed)@, events@),
{
    let mut changed = false;
    let mut i: usize = 0;
    proof {
        assert(events@.take(0) =~= Seq::empty());
    }
    while i < events.len()
        invariant
            i <= events@.len(),
            pressed@ == keys_after_all(old(pressed)@, events@.take(i as int)),
            changed == any_change(old(pressed)@, events@.take(i as int)),
        decreases events@.len() - i,
    {
        let event = events[i];
        let ghost before = pressed@;
        proof {
            assert(events@.take(i + 1).drop_last() =~= events@.take(i as int));
            assert(events@.take(i + 1).last() == event);
        }
        if let Some(key) = map_key(event.code) {
            if event.value == 0 {
                if pressed.remove(key) {
                    changed = true;
                    proof {
                        assert(!pressed@.contains(key) && before.contains(key));
                    }
                } else {
                    proof {
                        assert(before.remove(key) =~= before);
                    }
                }
            } else if event.value == 1 {
                if pressed.insert(key) {
                    changed = true;
                    proof {
                        assert(pressed@.contains(key) && !before.contains(key));
                    }
                } else {
                    proof {
                        assert(before.insert(key) =~= before);
                    }
                }
            }
        }
        i += 1;
    }
    proof {
        assert(events@.take(events@.len() as int) =~= events@);
    }
    changed
}

/// The keys that a device reports as held down.
pub open spec fn keys_of_codes(codes: Seq<u16>) -> Set<Keycode> {
    Set::new(|key: Keycode| exists|i: int| 0 <= i < codes.len() && #[trigger] linux_key(codes[i]) == Some(key))
}

/// The keys that a device reports as held down.
pub fn current_keys(codes: &[u16]) -> (result: PressedKeys)
    ensures
        result@ == keys_of_codes(codes@),
{
    let mut pressed = PressedKeys::new();
    let mut i: usize = 0;
    proof {
        assert(pressed@ =~= keys_of_codes(codes@.take(0)));
    }
    while i < codes.len()
        invariant
            i <= codes@.len(),
            pressed@ == keys_of_codes(codes@.take(i as int)),
        decreases codes@.len() - i,
    {
        let code: u16 = codes[i];
        let ghost before = pressed@;
        let ghost shorter = codes@.take(i as int);
        let ghost longer = codes@.take(i + 1);
        let mapped = map_key(code);
        if let Some(key) = mapped {
            let _ = pressed.insert(key);
        }
        proof {
            assert forall|key: Keycode| #[trigger]
                pressed@.contains(key) == keys_of_codes(longer).contains(key) by {
                assert(longer[i as int] == code);
                if before.contains(key) {
                    let j = choose|j: int|
                        0 <= j < shorter.len() && #[trigger] linux_key(shorter[j]) == Some(key);
                    assert(linux_key(longer[j]) == Some(key));
                }
                if mapped == Some(key) {
                    assert(linux_key(longer[i as int]) == Some(key));
                }
                if keys_of_codes(longer).contains(key) {
                    let j = choose|j: int|
                        0 <= j < longer.len() && #[trigger] linux_key(longer[j]) == Some(key);
                    if j < i {
                        assert(linux_key(shorter[j]) == Some(key));
                    }
                }
            }
            assert(pressed@ =~= keys_of_codes(longer));
        }
        i += 1;
    }
    proof {
        assert(codes@.take(codes@.len() as int) =~= codes@);
    }
    pressed
}

/// The keys that are held down on each device.
pub struct DeviceStates {
    entries: Vec<(String, PressedKeys)>,
}

spec fn entry_of(entries: Seq<(String, PressedKeys)>, path: Seq<char>) -> int {
    choose|i: int| 0 <= i < entries.len() && (#[trigger] entries[i]).0@ == path
}

spec fn has_entry(entries: Seq<(String, PressedKeys)>, path: Seq<char>) -> bool {
    exists|i: int| 0 <= i < entries.len() && (#[trigger] entries[i]).0@ == path
}

spec fn distinct_paths(entries: Seq<(String, PressedKeys)>) -> bool {
    forall|i: int, j: int|
        0 <= i < j < entries.len() ==> (#[trigger] entries[i]).0@ != (#[trigger] entries[j]).0@
}

spec fn states_of(entries: Seq<(String, PressedKeys)>) -> Map<Seq<char>, Set<Keycode>> {
    Map::new(
        |path: Seq<char>| has_entry(entries, path),
        |path: Seq<char>| entries[entry_of(entries, path)].1@,
    )
}

proof fn lemma_state_at(entries: Seq<(String, PressedKeys)>, i: int)
    requires
        distinct_paths(entries),
        0 <= i < entries.len(),
    ensures
        states_of(entries).contains_key(entries[i].0@),
        states_of(entries)[entries[i].0@] == entries[i].1@,
{
    let j = entry_of(entries, entries[i].0@);
    assert(entries[i].0@ == entries[j].0@);
}

impl View for DeviceStates {
    type V = Map<Seq<char>, Set<Keycode>>;

    closed spec fn view(&self) -> Map<Seq<char>, Set<Keycode>> {
        states_of(self.entries@)
    }
}

/// The keys that are held down on any device.
pub open spec fn keys_anywhere(states: Map<Seq<char>, Set<Keycode>>) -> Set<Keycode> {
    Set::new(
        |key: Keycode|
            exists|path: Seq<char>| #[trigger]
                states.contains_key(path) && states[path].contains(key),
    )
}

impl DeviceStates {
    #[verifier::type_invariant]
    spec fn paths_are_distinct(self) -> bool {
        distinct_paths(self.entries@)
    }

    /// No device at all.
    pub fn new() -> (result: DeviceStates)
        ensures
            result@ == Map::<Seq<char>, Set<Keycode>>::empty(),
    {
        let result = DeviceStates { entries: Vec::new() };
        proof {
            assert(result@ =~= Map::<Seq<char>, Set<Keycode>>::empty());
        }
        result
    }

    fn position(entries: &Vec<(String, PressedKeys)>, path: &str) -> (result: Option<usize>)
        ensures
            match result {
                Some(i) => i < entries@.len() && entries@[i as int].0@ == path@,
                None => !has_entry(entries@, path@),
            },
    {
        let mut i: usize = 0;
        while i < entries.len()
            invariant
                i <= entries@.len(),
                forall|j: int| 0 <= j < i ==> (#[trigger] entries@[j]).0@ != path@,
            decreases entries@.len() - i,
        {
            if same_text(entries[i].0.as_str(), path) {
                return Some(i);
            }
            i += 1;
        }
        None
    }

    /// Forgets a device.
    pub fn remove(&mut self, path: &str)
        ensures
            final(self)@ == old(self)@.remove(path@),
    {
        proof {
            use_type_invariant(&*self);
        }
        let mut entries: Vec<(String, PressedKeys)> = Vec::new();
        std::mem::swap(&mut entries, &mut self.entries);
        let ghost before = entries@;
        match Self::position(&entries, path) {
            Some(i) => {
                let _ = entries.remove(i);
                proof {
                    let after = entries@;
                    assert forall|a: int, b: int| 0 <= a < b < after.len() implies (
                    #[trigger] after[a]).0@ != (#[trigger] after[b]).0@ by {
                        let x = if a < i { a } else { a + 1 };
                        let y = if b < i { b } else { b + 1 };
                        assert(after[a] == before[x] && after[b] == before[y]);
                    }
                    assert forall|p: Seq<char>| #[trigger]
                        has_entry(after, p) == (has_entry(before, p) && p != path@) by {
                        if has_entry(after, p) {
                            let a = entry_of(after, p);
                            let x = if a < i { a } else { a + 1 };
                            assert(before[x] == after[a]);
                            assert(before[x].0@ != before[i as int].0@);
                        }
                        if has_entry(before, p) && p != path@ {
                            let x = entry_of(before, p);
                            let a = if x < i { x } else { x - 1 };
                            assert(after[a] == before[x]);
                        }
                    }
                    assert forall|p: Seq<char>| has_entry(after, p) implies states_of(after)[p]
                        == states_of(before)[p] by {
                        let a = entry_of(after, p);
                        let x = if a < i { a } else { a + 1 };
                        assert(before[x] == after[a]);
                        lemma_state_at(before, x);
                        lemma_state_at(after, a);
                    }
                    assert(states_of(after) =~= states_of(before).remove(path@));
                }
            },
            None => {
                proof {
                    assert(states_of(before) =~= states_of(before).remove(path@));
                }
            },
        }
        self.entries = entries;
    }

    /// Notes which keys are held down on a device.
    pub fn insert(&mut self, path: &str, pressed: PressedKeys)
        ensures
            final(self)@ == old(self)@.insert(path@, pressed@),
    {
        self.remove(path);
        proof {
            use_type_invariant(&*self);
        }
        let ghost removed = self@;
        let mut entries: Vec<(String, PressedKeys)> = Vec::new();
        std::mem::swap(&mut entries, &mut self.entries);
        let ghost before = entries@;
        let ghost value = pressed@;
        proof {
            assert(states_of(before) == old(self)@.remove(path@));
            assert(!states_of(before).contains_key(path@));
            assert(!has_entry(before, path@));
        }
        entries.push((path.to_owned(), pressed));
        proof {
            let after = entries@;
            let last = before.len() as int;
            assert(after[last].0@ == path@);
            assert forall|a: int, b: int| 0 <= a < b < after.len() implies (
            #[trigger] after[a]).0@ != (#[trigger] after[b]).0@ by {
                assert(after[a] == before[a]);
                if b < last {
                    assert(after[b] == before[b]);
                } else {
                    assert(before[a].0@ != path@);
                }
            }
            assert forall|p: Seq<char>| #[trigger]
                has_entry(after, p) == (has_entry(before, p) || p == path@) by {
                if has_entry(after, p) && p != path@ {
                    let a = entry_of(after, p);
                    assert(before[a] == after[a]);
                }
                if has_entry(before, p) {
                    let a = entry_of(before, p);
                    assert(after[a] == before[a]);
                }
            }
            assert forall|p: Seq<char>| has_entry(after, p) implies states_of(after)[p] == if p
                == path@ {
                value
            } else {
                states_of(before)[p]
            } by {
                let a = entry_of(after, p);
                lemma_state_at(after, a);
                if p == path@ {
                    lemma_state_at(after, last);
                } else {
                    assert(before[a] == after[a]);
                    lemma_state_at(before, a);
                }
            }
            let expected = old(self)@.insert(path@, value);
            assert forall|p: Seq<char>| #[trigger]
                states_of(after).contains_key(p) == expected.contains_key(p) by {
                assert(states_of(before).contains_key(p) == has_entry(before, p));
            }
            assert forall|p: Seq<char>| #[trigger]
                states_of(after).contains_key(p) implies states_of(after)[p] == expected[p] by {
                assert(has_entry(after, p));
                if p != path@ {
                    assert(states_of(before).contains_key(p));
                }
            }
            assert(states_of(after) =~= expected);
        }
        self.entries = entries;
    }

    /// The keys that are held down on any device.
    pub fn pressed(&self) -> (result: PressedKeys)
        ensures
            result@ == keys_anywhere(self@),
    {
        proof {
            use_type_invariant(self);
        }
        let mut all = PressedKeys::new();
        let mut i: usize = 0;
        while i < self.entries.len()
            invariant
                i <= self.entries@.len(),
                forall|key: Keycode| #[trigger]
                    all@.contains(key) <==> exists|j: int|
                        0 <= j < i && (#[trigger] self.entries@[j]).1@.contains(key),
            decreases self.entries@.len() - i,
        {
            let ghost before = all@;
            all.add_all(&self.entries[i].1);
            proof {
                assert forall|key: Keycode| #[trigger] all@.contains(key) <==> exists|j: int|
                    0 <= j < i + 1 && (#[trigger] self.entries@[j]).1@.contains(key) by {
                    if before.contains(key) {
                        let j = choose|j: int|
                            0 <= j < i && (#[trigger] self.entries@[j]).1@.contains(key);
                        assert(self.entries@[j].1@.contains(key));
                    }
                    if self.entries@[i as int].1@.contains(key) {
                        assert(all@.contains(key));
                    }
                }
            }
            i += 1;
        }
        proof {
            assert forall|key: Keycode| #[trigger]
                all@.contains(key) == keys_anywhere(self@).contains(key) by {
                if all@.contains(key) {
                    let j = choose|j: int|
                        0 <= j < self.entries@.len() && (#[trigger] self.entries@[j]).1@.contains(
                            key,
                        );
                    lemma_state_at(self.entries@, j);
                    assert(self@.contains_key(self.entries@[j].0@));
                }
                if keys_anywhere(self@).contains(key) {
                    let path = choose|path: Seq<char>| #[trigger]
                        self@.contains_key(path) && self@[path].contains(key);
                    let j = entry_of(self.entries@, path);
                    lemma_state_at(self.entries@, j);
                    assert(self.entries@[j].1@.contains(key));
                }
            }
            assert(all@ =~= keys_anywhere(self@));
        }
        all
    }
}

/// Watches all keyboards for the shortcut.
pub struct KeyboardMonitor {
    pub known: Vec<String>,
    pub states: DeviceStates,
    pub was_pressed: bool,
    pub reported_missing_permission: bool,
}

/// A [`KeyboardMonitor`] as plain values.
pub struct MonitorView {
    pub known: Seq<Seq<char>>,
    pub states: Map<Seq<char>, Set<Keycode>>,
    pub was_pressed: bool,
    pub reported_missing_permission: bool,
}

impl View for KeyboardMonitor {
    type V = MonitorView;

    open spec fn view(&self) -> MonitorView {
        MonitorView {
            known: views(self.known@),
            states: self.states@,
            was_pressed: self.was_pressed,
            reported_missing_permission: self.reported_missing_permission,
        }
    }
}

/// Whether a shortcut is held down, given the keys of each device.
pub open spec fn held(binding: Seq<Keycode>, states: Map<Seq<char>, Set<Keycode>>) -> bool {
    forall|key: Keycode| binding.contains(key) ==> #[trigger] keys_anywhere(states).contains(key)
}

/// What a search for keyboards is logged as.
#[derive(Clone, Copy, Debug, PartialEq, Eq, Structural)]
pub enum ScanReport {
    Started,
    MissingPermission,
    Nothing,
}

/// What a search for keyboards is logged as: every success, but a lack of readable
/// keyboards only once.
pub open spec fn scan_report(discovered: nat, known: nat, reported: bool) -> ScanReport {
    if discovered > 0 {
        ScanReport::Started
    } else if known == 0 && !reported {
        ScanReport::MissingPermission
    } else {
        ScanReport::Nothing
    }
}

impl KeyboardMonitor {
    pub fn new() -> (result: KeyboardMonitor)
        ensures
            result@ == (MonitorView {
                known: Seq::empty(),
                states: Map::empty(),
                was_pressed: false,
                reported_missing_permission: false,
            }),
    {
        let result = KeyboardMonitor {
            known: Vec::new(),
            states: DeviceStates::new(),
            was_pressed: false,
            reported_missing_permission: false,
        };
        proof {
            assert(result@.known =~= Seq::empty());
        }
        result
    }

    /// Whether a device is watched.
    pub fn knows(&self, path: &str) -> (result: bool)
        ensures
            result == self@.known.contains(path@),
    {
        let mut i: usize = 0;
        while i < self.known.len()
            invariant
                i <= self.known@.len(),
                forall|j: int| 0 <= j < i ==> (#[trigger] self@.known[j]) != path@,
            decreases self.known@.len() - i,
        {
            if same_text(self.known[i].as_str(), path) {
                proof {
                    assert(self@.known[i as int] == path@);
                }
                return true;
            }
            i += 1;
        }
        false
    }

    /// Whether a reader should be started for a device: it is a keyboard that is not
    /// watched yet.
    pub fn wants(&self, path: &str, supported: Option<&[u16]>) -> (result: bool)
        ensures
            result == (!self@.known.contains(path@) && match supported {
                Some(codes) => codes@.contains(KEY_A) && codes@.contains(KEY_Z) && codes@.contains(
                    KEY_SPACE,
                ) && codes@.contains(KEY_ENTER),
                None => false,
            }),
    {
        !self.knows(path) && is_keyboard(supported)
    }

    /// A reader was started for a device.
    pub fn watch(&mut self, path: &str)
        ensures
            final(self)@ == (MonitorView {
                known: if old(self)@.known.contains(path@) {
                    old(self)@.known
                } else {
                    old(self)@.known.push(path@)
                },
                ..old(self)@
            }),
    {
        if !self.knows(path) {
            let ghost before = self.known@;
            self.known.push(path.to_owned());
            proof {
                assert(views(self.known@) =~= views(before).push(path@));
            }
        }
    }

    /// A search for keyboards has started `discovered` readers.
    pub fn scanned(&mut self, discovered: usize) -> (result: ScanReport)
        ensures
            result == scan_report(
                discovered as nat,
                old(self)@.known.len(),
                old(self)@.reported_missing_permission,
            ),
            final(self)@ == (MonitorView {
                reported_missing_permission: match result {
                    ScanReport::Started => false,
                    ScanReport::MissingPermission => true,
                    ScanReport::Nothing => old(self)@.reported_missing_permission,
                },
                ..old(self)@
            }),
    {
        if discovered > 0 {
            self.reported_missing_permission = false;
            ScanReport::Started
        } else if self.known.len() == 0 && !self.reported_missing_permission {
            self.reported_missing_permission = true;
            ScanReport::MissingPermission
        } else {
            ScanReport::Nothing
        }
    }

    /// The keys that are held down on a device have changed.
    pub fn on_state(&mut self, path: &str, pressed: PressedKeys)
        ensures
            final(self)@ == (MonitorView {
                states: old(self)@.states.insert(path@, pressed@),
                ..old(self)@
            }),
    {
        self.states.insert(path, pressed);
    }

    /// A device is gone: it holds no keys down any more, and may be found again.
    pub fn on_disconnected(&mut self, path: &str)
        ensures
            final(self)@ == (MonitorView {
                known: old(self)@.known.filter(|known: Seq<char>| known != path@),
                states: old(self)@.states.remove(path@),
                ..old(self)@
            }),
    {
        self.states.remove(path);
        let mut kept: Vec<String> = Vec::new();
        let mut i: usize = 0;
        let ghost other = |known: Seq<char>| known != path@;
        let ghost all = self@.known;
        proof {
            reveal(Seq::filter);
            assert(all.take(0) =~= Seq::empty());
            assert(views(kept@) =~= Seq::empty());
        }
        while i < self.known.len()
            invariant
                i <= self.known@.len(),
                all == views(self.known@),
                other == (|known: Seq<char>| known != path@),
                views(kept@) == all.take(i as int).filter(other),
            decreases self.known@.len() - i,
        {
            let ghost before = kept@;
            proof {
                assert(all.take(i + 1).drop_last() =~= all.take(i as int));
                assert(all.take(i + 1).last() == self.known@[i as int]@);
                reveal(Seq::filter);
            }
            if !same_text(self.known[i].as_str(), path) {
                kept.push(self.known[i].clone());
                proof {
                    assert(views(kept@) =~= views(before).push(self.known@[i as int]@));
                }
            }
            i += 1;
        }
        proof {
            assert(all.take(all.len() as int) =~= all);
        }
        self.known = kept;
    }

    /// Compares the keys that are held down with the shortcut; reports a change.
    pub fn check(&mut self, binding: &ShortcutBinding) -> (result: Option<ShortcutEvent>)
        ensures
            result == edge(old(self)@.was_pressed, held(binding@, old(self)@.states)),
            final(self)@ == (MonitorView {
                was_pressed: held(binding@, old(self)@.states),
                ..old(self)@
            }),
    {
        let pressed = self.states.pressed();
        let is_pressed = binding.is_pressed(&pressed);
        shortcut_edge(&mut self.was_pressed, is_pressed)
    }
}

/// A keyboard that is gone can release the shortcut but not press it, and a key that no other
/// keyboard holds down is up.
pub proof fn law_a_lost_keyboard_presses_nothing(
    binding: Seq<Keycode>,
    states: Map<Seq<char>, Set<Keycode>>,
    path: Seq<char>,
)
    ensures
        held(binding, states.remove(path)) ==> held(binding, states),
        !(edge(held(binding, states), held(binding, states.remove(path))) matches Some(event)
            && event is Pressed),
        forall|key: Keycode|
            #![trigger keys_anywhere(states.remove(path)).contains(key)]
            keys_anywhere(states.remove(path)).contains(key) ==> exists|other: Seq<char>|
                other != path && #[trigger] states.contains_key(other) && states[other].contains(
                    key,
                ),
{
    let fewer = states.remove(path);
    assert forall|key: Keycode| #[trigger] keys_anywhere(fewer).contains(key) implies exists|
        other: Seq<char>,
    |
        other != path && #[trigger] states.contains_key(other) && states[other].contains(key) by {
        let other = choose|other: Seq<char>| #[trigger]
            fewer.contains_key(other) && fewer[other].contains(key);
        assert(states.contains_key(other) && states[other].contains(key));
    }
    if held(binding, fewer) {
        assert forall|key: Keycode| binding.contains(key) implies #[trigger] keys_anywhere(
            states,
        ).contains(key) by {
            assert(keys_anywhere(fewer).contains(key));
        }
    }
}

/// A key event changes the state of its own key alone: that key is down after a press, up after
/// a release, and as it was after a repetition; every other key is as it was. An event of a
/// key without a name changes nothing.
pub proof fn law_events_move_their_own_key_only(
    pressed: Set<Keycode>,
    event: KeyEvent,
    key: Keycode,
)
    ensures
        linux_key(event.code) != Some(key) ==> keys_after(pressed, event).contains(key)
            == pressed.contains(key),
        linux_key(event.code) == Some(key) && event.value == 1 ==> keys_after(
            pressed,
            event,
        ).contains(key),
        linux_key(event.code) == Some(key) && event.value == 0 ==> !keys_after(
            pressed,
            event,
        ).contains(key),
        event.value != 0 && event.value != 1 ==> keys_after(pressed, event).contains(key)
            == pressed.contains(key),
{
}

/// Whether an event presses or releases a key.
pub open spec fn moves(event: KeyEvent, key: Keycode) -> bool {
    linux_key(event.code) == Some(key) && (event.value == 0 || event.value == 1)
}

/// After a series of events a key is down exactly when the last event that pressed or released
/// it pressed it, whatever happened to other keys.
pub proof fn law_the_last_press_or_release_counts(
    pressed: Set<Keycode>,
    events: Seq<KeyEvent>,
    key: Keycode,
    index: int,
)
    requires
        0 <= index < events.len(),
        moves(events[index], key),
        forall|i: int| index < i < events.len() ==> !moves(#[trigger] events[i], key),
    ensures
        keys_after_all(pressed, events).contains(key) <==> events[index].value == 1,
    decreases events.len(),
{
    let front = events.drop_last();
    law_events_move_their_own_key_only(keys_after_all(pressed, front), events.last(), key);
    if index < events.len() - 1 {
        assert(!moves(events[events.len() - 1], key));
        assert forall|i: int| index < i < front.len() implies !moves(#[trigger] front[i], key) by {
            assert(front[i] == events[i]);
        }
        law_the_last_press_or_release_counts(pressed, front, key, index);
    }
}

/// A key that no event of a series presses or releases is as it was at first.
pub proof fn law_untouched_keys_stay(pressed: Set<Keycode>, events: Seq<KeyEvent>, key: Keycode)
    requires
        forall|i: int| 0 <= i < events.len() ==> !moves(#[trigger] events[i], key),
    ensures
        keys_after_all(pressed, events).contains(key) == pressed.contains(key),
    decreases events.len(),
{
    if events.len() > 0 {
        let front = events.drop_last();
        assert(!moves(events[events.len() - 1], key));
        assert forall|i: int| 0 <= i < front.len() implies !moves(#[trigger] front[i], key) by {
            assert(front[i] == events[i]);
        }
        law_untouched_keys_stay(pressed, front, key);
        law_events_move_their_own_key_only(keys_after_all(pressed, front), events.last(), key);
    }
}

/// A series of events is reported as a change exactly when, at some event of it, a key that was
/// up is pressed or one that was down is released.
pub proof fn law_changes_are_reported(pressed: Set<Keycode>, events: Seq<KeyEvent>)
    ensures
        any_change(pressed, events) <==> exists|i: int|
            0 <= i < events.len() && (#[trigger] linux_key(events[i].code) matches Some(key)
                && if keys_after_all(pressed, events.take(i)).contains(key) {
                events[i].value == 0
            } else {
                events[i].value == 1
            }),
        !any_change(pressed, events) ==> keys_after_all(pressed, events) == pressed,
    decreases events.len(),
{
    if events.len() > 0 {
        let front = events.drop_last();
        let last = events.len() - 1;
        law_changes_are_reported(pressed, front);
        let before = keys_after_all(pressed, front);
        assert(events.take(last) =~= front);
        assert forall|i: int| 0 <= i < last implies #[trigger] events.take(i) == front.take(i)
            && events[i] == front[i] by {
            assert(events.take(i) =~= front.take(i));
        }
        let event = events.last();
        if let Some(key) = linux_key(event.code) {
            if before.contains(key) {
                assert(before.insert(key) =~= before);
                assert(event.value == 0 ==> !keys_after(before, event).contains(key));
            } else {
                assert(before.remove(key) =~= before);
                assert(event.value == 1 ==> keys_after(before, event).contains(key));
            }
        }
        if any_change(pressed, front) {
            let i = choose|i: int|
                0 <= i < front.len() && (#[trigger] linux_key(front[i].code) matches Some(key)
                    && if keys_after_all(pressed, front.take(i)).contains(key) {
                    front[i].value == 0
                } else {
                    front[i].value == 1
                });
            assert(events.take(i) == front.take(i));
            assert(linux_key(events[i].code) is Some);
        }
        if keys_after(before, event) != before {
            assert(linux_key(events[last].code) is Some);
        }
        if exists|i: int|
            0 <= i < events.len() && (#[trigger] linux_key(events[i].code) matches Some(key)
                && if keys_after_all(pressed, events.take(i)).contains(key) {
                events[i].value == 0
            } else {
                events[i].value == 1
            }) {
            let i = choose|i: int|
                0 <= i < events.len() && (#[trigger] linux_key(events[i].code) matches Some(key)
                    && if keys_after_all(pressed, events.take(i)).contains(key) {
                    events[i].value == 0
                } else {
                    events[i].value == 1
                });
            if i < last {
                assert(events.take(i) == front.take(i));
                assert(linux_key(front[i].code) is Some);
            }
        }
    }
}

/// What a device reports as held down is the key of each code, whatever the other codes are.
pub proof fn law_reported_codes_are_keys(codes: Seq<u16>, more: Seq<u16>, code: u16, key: Keycode)
    ensures
        !keys_of_codes(Seq::empty()).contains(key),
        keys_of_codes(seq![code]).contains(key) <==> linux_key(code) == Some(key),
        keys_of_codes(codes + more).contains(key) <==> keys_of_codes(codes).contains(key)
            || keys_of_codes(more).contains(key),
{
    if linux_key(code) == Some(key) {
        assert(linux_key(seq![code][0]) == Some(key));
    }
    let all = codes + more;
    if keys_of_codes(codes).contains(key) {
        let i = choose|i: int| 0 <= i < codes.len() && #[trigger] linux_key(codes[i]) == Some(key);
        assert(linux_key(all[i]) == Some(key));
    }
    if keys_of_codes(more).contains(key) {
        let i = choose|i: int| 0 <= i < more.len() && #[trigger] linux_key(more[i]) == Some(key);
        assert(linux_key(all[codes.len() + i]) == Some(key));
    }
    if keys_of_codes(all).contains(key) {
        let i = choose|i: int| 0 <= i < all.len() && #[trigger] linux_key(all[i]) == Some(key);
        if i < codes.len() {
            assert(linux_key(codes[i]) == Some(key));
        } else {
            assert(linux_key(more[i - codes.len()]) == Some(key));
        }
    }
}

/// The keyboards count together: a key is down exactly when the keyboard that was heard of last
/// holds it down or one of the others does.
pub proof fn law_keyboards_count_together(
    states: Map<Seq<char>, Set<Keycode>>,
    path: Seq<char>,
    pressed: Set<Keycode>,
    key: Keycode,
)
    ensures
        keys_anywhere(states.insert(path, pressed)).contains(key) <==> pressed.contains(key)
            || keys_anywhere(states.remove(path)).contains(key),
        !keys_anywhere(Map::empty()).contains(key),
{
    let updated = states.insert(path, pressed);
    let others = states.remove(path);
    if pressed.contains(key) {
        assert(updated.contains_key(path) && updated[path].contains(key));
    }
    if keys_anywhere(others).contains(key) {
        let other = choose|other: Seq<char>| #[trigger]
            others.contains_key(other) && others[other].contains(key);
        assert(updated.contains_key(other) && updated[other].contains(key));
    }
    if keys_anywhere(updated).contains(key) {
        let other = choose|other: Seq<char>| #[trigger]
            updated.contains_key(other) && updated[other].contains(key);
        if other != path {
            assert(others.contains_key(other) && others[other].contains(key));
        }
    }
}

/// A shortcut is held down exactly when each of its keys is, on whichever keyboard; keys that
/// are held down besides do not matter.
pub proof fn law_all_keys_of_a_shortcut_are_held(
    binding: Seq<Keycode>,
    key: Keycode,
    states: Map<Seq<char>, Set<Keycode>>,
    path: Seq<char>,
    extra: Keycode,
)
    ensures
        held(binding.push(key), states) <==> held(binding, states) && exists|other: Seq<char>|
            #[trigger] states.contains_key(other) && states[other].contains(key),
        states.contains_key(path) && held(binding, states) ==> held(
            binding,
            states.insert(path, states[path].insert(extra)),
        ),
        states.contains_key(path) && !binding.contains(extra) && held(
            binding,
            states.insert(path, states[path].insert(extra)),
        ) ==> held(binding, states),
        held(Seq::empty(), states),
{
    let longer = binding.push(key);
    assert forall|k: Keycode| #[trigger] longer.contains(k) <==> binding.contains(k) || k == key by {
        if binding.contains(k) {
            let i = choose|i: int| 0 <= i < binding.len() && binding[i] == k;
            assert(longer[i] == k);
        }
        if k == key {
            assert(longer[binding.len() as int] == k);
        }
    }
    if held(longer, states) {
        assert(longer.contains(key));
        assert(keys_anywhere(states).contains(key));
        assert forall|k: Keycode| binding.contains(k) implies #[trigger] keys_anywhere(
            states,
        ).contains(k) by {
            assert(longer.contains(k));
        }
    }
    if held(binding, states) && keys_anywhere(states).contains(key) {
        assert forall|k: Keycode| longer.contains(k) implies #[trigger] keys_anywhere(
            states,
        ).contains(k) by {
            assert(binding.contains(k) || k == key);
        }
    }
    if states.contains_key(path) {
        let more = states.insert(path, states[path].insert(extra));
        assert forall|k: Keycode| k != extra implies #[trigger] keys_anywhere(more).contains(k)
            == keys_anywhere(states).contains(k) by {
            if keys_anywhere(states).contains(k) {
                let other = choose|other: Seq<char>| #[trigger]
                    states.contains_key(other) && states[other].contains(k);
                assert(more.contains_key(other) && more[other].contains(k));
            }
            if keys_anywhere(more).contains(k) {
                let other = choose|other: Seq<char>| #[trigger]
                    more.contains_key(other) && more[other].contains(k);
                assert(states.contains_key(other) && states[other].contains(k));
            }
        }
        assert(more.contains_key(path) && more[path].contains(extra));
        assert(keys_anywhere(more).contains(extra));
        if held(binding, states) {
            assert forall|k: Keycode| binding.contains(k) implies #[trigger] keys_anywhere(
                more,
            ).contains(k) by {
                assert(keys_anywhere(states).contains(k));
            }
        }
        if !binding.contains(extra) && held(binding, more) {
            assert forall|k: Keycode| binding.contains(k) implies #[trigger] keys_anywhere(
                states,
            ).contains(k) by {
                assert(keys_anywhere(more).contains(k));
            }
        }
    }
}

/// Every keyboard that is found is logged; that none can be read is logged where none is
/// watched and it was not logged before, and nothing else is.
pub proof fn law_missing_keyboards_are_logged_once(discovered: nat, known: nat, reported: bool)
    ensures
        scan_report(discovered, known, reported) is Started <==> discovered != 0,
        scan_report(discovered, known, reported) is MissingPermission <==> discovered == 0 && known
            == 0 && !reported,
{
}

} // verus!
