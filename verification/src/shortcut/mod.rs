//! Global shortcuts: a single key or a chord of keys.

use device_query::Keycode;
use vstd::prelude::*;

use crate::platform::Platform;
use crate::shortcut::keys::{
    find_key, key_name, key_named, keycode_to_string, law_key_has_its_name, lemma_names_are_plain,
    letter_or_digit,
};
use crate::text::{
    lemma_pieces_non_empty, lemma_pieces_of_joined, lemma_pieces_of_word, pieces, same_text,
    split_on, trim, trim_end, trim_start, trimmed, views, white_space,
};

pub mod keys;
pub mod linux;

verus! {

/// A change of the shortcut's keys.
#[derive(Clone, Copy, Debug, PartialEq, Eq, Structural)]
pub enum ShortcutEvent {
    Pressed,
    Released,
}

/// Why a text is no shortcut.
#[derive(Debug)]
pub enum ShortcutError {
    Empty,
    UnsupportedKey(String),
    DuplicateKey(String),
}

/// A [`ShortcutError`] with its text as a sequence of characters.
pub enum ShortcutErrorView {
    Empty,
    UnsupportedKey(Seq<char>),
    DuplicateKey(Seq<char>),
}

impl View for ShortcutError {
    type V = ShortcutErrorView;

    open spec fn view(&self) -> ShortcutErrorView {
        match *self {
            ShortcutError::Empty => ShortcutErrorView::Empty,
            ShortcutError::UnsupportedKey(key) => ShortcutErrorView::UnsupportedKey(key@),
            ShortcutError::DuplicateKey(key) => ShortcutErrorView::DuplicateKey(key@),
        }
    }
}

impl ShortcutErrorView {
    /// What the user is told.
    pub open spec fn message(self) -> Seq<char> {
        match self {
            ShortcutErrorView::Empty => "A shortcut must contain at least one key"@,
            ShortcutErrorView::UnsupportedKey(key) => "Unsupported shortcut key: "@ + key,
            ShortcutErrorView::DuplicateKey(key) =>
                "Shortcut contains the same key more than once: "@ + key,
        }
    }
}

impl ShortcutError {
    /// What the user is told.
    pub fn message(&self) -> (result: String)
        ensures
            result@ == self@.message(),
    {
        match self {
            ShortcutError::Empty => "A shortcut must contain at least one key".to_owned(),
            ShortcutError::UnsupportedKey(key) => {
                let mut message = "Unsupported shortcut key: ".to_owned();
                message.append(key.as_str());
                message
            },
            ShortcutError::DuplicateKey(key) => {
                let mut message = "Shortcut contains the same key more than once: ".to_owned();
                message.append(key.as_str());
                message
            },
        }
    }
}

/// Whether `name` is `prefix` with one further ASCII character.
pub open spec fn one_behind(name: Seq<char>, prefix: Seq<char>) -> bool {
    &&& name.len() == prefix.len() + 1
    &&& name.drop_last() == prefix
    &&& (name.last() as u32) < 128
}

fn is_one_behind(name: &str, prefix: &str) -> (result: bool)
    ensures
        result == one_behind(name@, prefix@),
{
    let length = name.unicode_len();
    if length == 0 || length - 1 != prefix.unicode_len() {
        return false;
    }
    proof {
        assert(name@.drop_last() =~= name@.subrange(0, length - 1));
    }
    same_text(name.substring_char(0, length - 1), prefix) && (name.get_char(length - 1) as u32)
        < 128
}

/// The name under which a key is known, given one of the names that it may be written
/// with in a shortcut. A key's own name stays as it is.
pub open spec fn canonical_name(name: Seq<char>, platform: Platform) -> Seq<char> {
    if key_named(name) is Some {
        name
    } else if name == "CommandOrControl"@ || name == "CommandOrCtrl"@ || name == "CmdOrControl"@ || name == "CmdOrCtrl"@ {
        if platform is MacOs {
            "Command"@
        } else {
            "LControl"@
        }
    } else if name == "Command"@ || name == "Cmd"@ || name == "Super"@ || name == "MetaLeft"@ {
        "Command"@
    } else if name == "RCommand"@ || name == "MetaRight"@ {
        "RCommand"@
    } else if name == "Control"@ || name == "Ctrl"@ || name == "ControlLeft"@ {
        "LControl"@
    } else if name == "ControlRight"@ {
        "RControl"@
    } else if name == "Shift"@ || name == "ShiftLeft"@ {
        "LShift"@
    } else if name == "ShiftRight"@ {
        "RShift"@
    } else if name == "Alt"@ || name == "Option"@ || name == "AltLeft"@ {
        "LOption"@
    } else if name == "AltRight"@ {
        "ROption"@
    } else if name == "ArrowUp"@ {
        "Up"@
    } else if name == "ArrowDown"@ {
        "Down"@
    } else if name == "ArrowLeft"@ {
        "Left"@
    } else if name == "ArrowRight"@ {
        "Right"@
    } else if name == "Backquote"@ {
        "Grave"@
    } else if name == "BracketLeft"@ {
        "LeftBracket"@
    } else if name == "BracketRight"@ {
        "RightBracket"@
    } else if name == "Backslash"@ {
        "BackSlash"@
    } else if name == "Quote"@ {
        "Apostrophe"@
    } else if name == "Period"@ {
        "Dot"@
    } else if name == "NumpadEqual"@ {
        "NumpadEquals"@
    } else if one_behind(name, "Key"@) {
        name.skip(3)
    } else if one_behind(name, "Digit"@) {
        "Key"@ + name.skip(5)
    } else {
        name
    }
}

/// The name under which a key is known.
pub fn canonical(name: &str, platform: Platform) -> (result: String)
    ensures
        result@ == canonical_name(name@, platform),
{
    if find_key(name).is_some() {
        name.to_owned()
    } else if same_text(name, "CommandOrControl") || same_text(name, "CommandOrCtrl") || same_text(name, "CmdOrControl") || same_text(name, "CmdOrCtrl") {
        if matches!(platform, Platform::MacOs) {
            "Command".to_owned()
        } else {
            "LControl".to_owned()
        }
    } else if same_text(name, "Command") || same_text(name, "Cmd") || same_text(name, "Super") || same_text(name, "MetaLeft") {
        "Command".to_owned()
    } else if same_text(name, "RCommand") || same_text(name, "MetaRight") {
        "RCommand".to_owned()
    } else if same_text(name, "Control") || same_text(name, "Ctrl") || same_text(name, "ControlLeft") {
        "LControl".to_owned()
    } else if same_text(name, "ControlRight") {
        "RControl".to_owned()
    } else if same_text(name, "Shift") || same_text(name, "ShiftLeft") {
        "LShift".to_owned()
    } else if same_text(name, "ShiftRight") {
        "RShift".to_owned()
    } else if same_text(name, "Alt") || same_text(name, "Option") || same_text(name, "AltLeft") {
        "LOption".to_owned()
    } else if same_text(name, "AltRight") {
        "ROption".to_owned()
    } else if same_text(name, "ArrowUp") {
        "Up".to_owned()
    } else if same_text(name, "ArrowDown") {
        "Down".to_owned()
    } else if same_text(name, "ArrowLeft") {
        "Left".to_owned()
    } else if same_text(name, "ArrowRight") {
        "Right".to_owned()
    } else if same_text(name, "Backquote") {
        "Grave".to_owned()
    } else if same_text(name, "BracketLeft") {
        "LeftBracket".to_owned()
    } else if same_text(name, "BracketRight") {
        "RightBracket".to_owned()
    } else if same_text(name, "Backslash") {
        "BackSlash".to_owned()
    } else if same_text(name, "Quote") {
        "Apostrophe".to_owned()
    } else if same_text(name, "Period") {
        "Dot".to_owned()
    } else if same_text(name, "NumpadEqual") {
        "NumpadEquals".to_owned()
    } else if is_one_behind(name, "Key") {
        proof {
            reveal_strlit("Key");
        }
        name.substring_char(3, 4).to_owned()
    } else if is_one_behind(name, "Digit") {
        proof {
            reveal_strlit("Digit");
        }
        let mut key = "Key".to_owned();
        key.append(name.substring_char(5, 6));
        key
    } else {
        name.to_owned()
    }
}

/// The key that a shortcut means by a name.
pub open spec fn shortcut_key(name: Seq<char>, platform: Platform) -> Option<Keycode> {
    key_named(canonical_name(name, platform))
}

/// The key that a shortcut means by a name.
pub fn parse_key(value: &str, platform: Platform) -> (result: Option<Keycode>)
    ensures
        result == shortcut_key(value@, platform),
{
    let name = canonical(value, platform);
    find_key(name.as_str())
}

/// The names in a shortcut, without the blanks around them.
pub open spec fn shortcut_names(value: Seq<char>) -> Seq<Seq<char>> {
    Seq::new(pieces(value, '+').len(), |i: int| trimmed(pieces(value, '+')[i]))
}

/// The keys that a list of names stands for; none may be unknown or come twice.
pub open spec fn chord(names: Seq<Seq<char>>, platform: Platform) -> Result<
    Seq<Keycode>,
    ShortcutErrorView,
>
    decreases names.len(),
{
    if names.len() == 0 {
        Ok(Seq::empty())
    } else {
        match chord(names.drop_last(), platform) {
            Err(error) => Err(error),
            Ok(keys) => match shortcut_key(names.last(), platform) {
                None => Err(ShortcutErrorView::UnsupportedKey(names.last())),
                Some(key) => if keys.contains(key) {
                    Err(ShortcutErrorView::DuplicateKey(names.last()))
                } else {
                    Ok(keys.push(key))
                },
            },
        }
    }
}

/// The keys of a shortcut, in the order in which it names them.
pub open spec fn shortcut_keys(value: Seq<char>, platform: Platform) -> Result<
    Seq<Keycode>,
    ShortcutErrorView,
> {
    let names = shortcut_names(value);
    if exists|i: int| 0 <= i < names.len() && (#[trigger] names[i]).len() == 0 {
        Err(ShortcutErrorView::Empty)
    } else {
        chord(names, platform)
    }
}

/// The text of a shortcut: the names of its keys with a plus sign between them.
pub open spec fn chord_text(keys: Seq<Keycode>) -> Seq<char>
    decreases keys.len(),
{
    if keys.len() == 0 {
        Seq::empty()
    } else if keys.len() == 1 {
        key_name(keys[0])
    } else {
        chord_text(keys.drop_last()) + seq!['+'] + key_name(keys.last())
    }
}

/// Whether `key` is among `keys`.
pub fn contains_key(keys: &Vec<Keycode>, key: Keycode) -> (result: bool)
    ensures
        result == keys@.contains(key),
{
    let mut i: usize = 0;
    while i < keys.len()
        invariant
            i <= keys@.len(),
            forall|j: int| 0 <= j < i ==> keys@[j] != key,
        decreases keys@.len() - i,
    {
        if keys[i] == key {
            proof {
                assert(keys@[i as int] == key);
            }
            return true;
        }
        i += 1;
    }
    false
}

/// The keys that are held down.
pub struct PressedKeys {
    keys: Vec<Keycode>,
}

impl View for PressedKeys {
    type V = Set<Keycode>;

    closed spec fn view(&self) -> Set<Keycode> {
        self.keys@.to_set()
    }
}

impl PressedKeys {
    #[verifier::type_invariant]
    spec fn distinct(self) -> bool {
        self.keys@.no_duplicates()
    }

    /// No key at all.
    pub fn new() -> (result: PressedKeys)
        ensures
            result@ == Set::<Keycode>::empty(),
    {
        let result = PressedKeys { keys: Vec::new() };
        proof {
            assert(result@ =~= Set::<Keycode>::empty());
        }
        result
    }

    pub fn contains(&self, key: Keycode) -> (result: bool)
        ensures
            result == self@.contains(key),
    {
        contains_key(&self.keys, key)
    }

    /// Adds a key; says whether it was not there before.
    pub fn insert(&mut self, key: Keycode) -> (result: bool)
        ensures
            result == !old(self)@.contains(key),
            final(self)@ == old(self)@.insert(key),
    {
        proof {
            use_type_invariant(&*self);
        }
        if contains_key(&self.keys, key) {
            proof {
                assert(self@ =~= old(self)@.insert(key));
            }
            return false;
        }
        let mut keys: Vec<Keycode> = Vec::new();
        std::mem::swap(&mut keys, &mut self.keys);
        let ghost before = keys@;
        keys.push(key);
        proof {
            assert(keys@.to_set() =~= before.to_set().insert(key)) by {
                assert forall|other: Keycode| #[trigger]
                    keys@.to_set().contains(other) == before.to_set().insert(key).contains(
                        other,
                    ) by {
                    if before.contains(other) {
                        let i = choose|i: int| 0 <= i < before.len() && before[i] == other;
                        assert(keys@[i] == other);
                    }
                    assert(keys@[before.len() as int] == key);
                }
            }
        }
        self.keys = keys;
        true
    }

    /// Takes a key out; says whether it was there.
    pub fn remove(&mut self, key: Keycode) -> (result: bool)
        ensures
            result == old(self)@.contains(key),
            final(self)@ == old(self)@.remove(key),
    {
        proof {
            use_type_invariant(&*self);
        }
        let mut kept: Vec<Keycode> = Vec::new();
        let mut i: usize = 0;
        let ghost before = self.keys@;
        while i < self.keys.len()
            invariant
                i <= self.keys@.len(),
                self.keys@ == before,
                before.no_duplicates(),
                kept@.no_duplicates(),
                forall|other: Keycode| #[trigger]
                    kept@.contains(other) <==> other != key && before.take(i as int).contains(
                        other,
                    ),
            decreases self.keys@.len() - i,
        {
            let current = self.keys[i];
            let ghost earlier = kept@;
            proof {
                assert(!before.take(i as int).contains(current));
                let shorter = before.take(i as int);
                let longer = before.take(i + 1);
                assert forall|other: Keycode| #[trigger]
                    longer.contains(other) == (shorter.contains(other) || other == current) by {
                    if shorter.contains(other) {
                        let j = choose|j: int| 0 <= j < shorter.len() && shorter[j] == other;
                        assert(longer[j] == other);
                    }
                    assert(longer[i as int] == current);
                    if longer.contains(other) && other != current {
                        let j = choose|j: int| 0 <= j < longer.len() && longer[j] == other;
                        assert(shorter[j] == other);
                    }
                }
            }
            if current != key {
                kept.push(current);
                proof {
                    assert(!earlier.contains(current));
                    assert forall|other: Keycode| #[trigger]
                        kept@.contains(other) == (earlier.contains(other) || other == current) by {
                        if earlier.contains(other) {
                            let j = choose|j: int| 0 <= j < earlier.len() && earlier[j] == other;
                            assert(kept@[j] == other);
                        }
                        assert(kept@[earlier.len() as int] == current);
                    }
                }
            }
            i += 1;
        }
        let found = contains_key(&self.keys, key);
        proof {
            assert(before.take(before.len() as int) =~= before);
            assert(kept@.to_set() =~= before.to_set().remove(key));
        }
        self.keys = kept;
        found
    }

    /// Adds all keys of another set.
    pub fn add_all(&mut self, other: &PressedKeys)
        ensures
            final(self)@ == old(self)@.union(other@),
    {
        let mut i: usize = 0;
        proof {
            assert(self@ =~= old(self)@.union(other.keys@.take(0).to_set()));
        }
        while i < other.keys.len()
            invariant
                i <= other.keys@.len(),
                self@ == old(self)@.union(other.keys@.take(i as int).to_set()),
            decreases other.keys@.len() - i,
        {
            let _ = self.insert(other.keys[i]);
            proof {
                let shorter = other.keys@.take(i as int);
                let longer = other.keys@.take(i + 1);
                assert(longer =~= shorter.push(other.keys@[i as int]));
                assert forall|key: Keycode| #[trigger]
                    longer.to_set().contains(key) == (shorter.to_set().contains(key) || key
                        == other.keys@[i as int]) by {
                    if shorter.contains(key) {
                        let j = choose|j: int| 0 <= j < shorter.len() && shorter[j] == key;
                        assert(longer[j] == key);
                    }
                    assert(longer[i as int] == other.keys@[i as int]);
                }
                assert(self@ =~= old(self)@.union(longer.to_set()));
            }
            i += 1;
        }
        proof {
            assert(other.keys@.take(other.keys@.len() as int) =~= other.keys@);
        }
    }

    /// A copy of the set.
    pub fn copied(&self) -> (result: PressedKeys)
        ensures
            result@ == self@,
    {
        proof {
            use_type_invariant(self);
        }
        let mut keys: Vec<Keycode> = Vec::new();
        let mut i: usize = 0;
        while i < self.keys.len()
            invariant
                i <= self.keys@.len(),
                keys@ == self.keys@.take(i as int),
            decreases self.keys@.len() - i,
        {
            keys.push(self.keys[i]);
            proof {
                assert(keys@ =~= self.keys@.take(i + 1));
            }
            i += 1;
        }
        proof {
            assert(keys@ =~= self.keys@);
        }
        PressedKeys { keys }
    }
}

/// A shortcut: the keys that have to be held down together.
#[derive(Debug, PartialEq, Eq)]
pub struct ShortcutBinding {
    keys: Vec<Keycode>,
}

impl View for ShortcutBinding {
    type V = Seq<Keycode>;

    closed spec fn view(&self) -> Seq<Keycode> {
        self.keys@
    }
}

impl ShortcutBinding {
    /// Reads a shortcut.
    pub fn parse(value: &str, platform: Platform) -> (result: Result<
        ShortcutBinding,
        ShortcutError,
    >)
        ensures
            match result {
                Ok(binding) => shortcut_keys(value@, platform) == Ok::<
                    Seq<Keycode>,
                    ShortcutErrorView,
                >(binding@),
                Err(error) => shortcut_keys(value@, platform) == Err::<
                    Seq<Keycode>,
                    ShortcutErrorView,
                >(error@),
            },
    {
        let raw = split_on(value, '+');
        let ghost names = shortcut_names(value@);
        proof {
            assert(views(raw@) == pieces(value@, '+'));
        }
        let mut i: usize = 0;
        while i < raw.len()
            invariant
                i <= raw@.len(),
                names == shortcut_names(value@),
                views(raw@) == pieces(value@, '+'),
                forall|j: int| 0 <= j < i ==> (#[trigger] names[j]).len() > 0,
            decreases raw@.len() - i,
        {
            proof {
                assert(views(raw@)[i as int] == raw@[i as int]@);
            }
            if trim(raw[i].as_str()).unicode_len() == 0 {
                proof {
                    assert(names[i as int].len() == 0);
                }
                return Err(ShortcutError::Empty);
            }
            i += 1;
        }
        let mut keys: Vec<Keycode> = Vec::new();
        let mut i: usize = 0;
        proof {
            assert(names.take(0) =~= Seq::empty());
            assert(forall|j: int| 0 <= j < names.len() ==> (#[trigger] names[j]).len() > 0);
        }
        while i < raw.len()
            invariant
                i <= raw@.len(),
                names == shortcut_names(value@),
                views(raw@) == pieces(value@, '+'),
                forall|j: int| 0 <= j < names.len() ==> (#[trigger] names[j]).len() > 0,
                chord(names.take(i as int), platform) == Ok::<Seq<Keycode>, ShortcutErrorView>(
                    keys@,
                ),
            decreases raw@.len() - i,
        {
            let name = trim(raw[i].as_str());
            proof {
                assert(views(raw@)[i as int] == raw@[i as int]@);
                assert(names[i as int] == name@);
                assert(names.take(i + 1).drop_last() =~= names.take(i as int));
                assert(names.take(i + 1).last() == name@);
            }
            match parse_key(name, platform) {
                None => {
                    proof {
                        lemma_chord_fails(names, i + 1, platform);
                    }
                    return Err(ShortcutError::UnsupportedKey(name.to_owned()));
                },
                Some(key) => {
                    if contains_key(&keys, key) {
                        proof {
                            lemma_chord_fails(names, i + 1, platform);
                        }
                        return Err(ShortcutError::DuplicateKey(name.to_owned()));
                    }
                    keys.push(key);
                },
            }
            i += 1;
        }
        proof {
            assert(names.take(names.len() as int) =~= names);
        }
        Ok(ShortcutBinding { keys })
    }

    /// Whether all keys of the shortcut are held down.
    pub fn is_pressed(&self, pressed: &PressedKeys) -> (result: bool)
        ensures
            result == forall|key: Keycode| self@.contains(key) ==> #[trigger] pressed@.contains(
                key,
            ),
    {
        let mut i: usize = 0;
        while i < self.keys.len()
            invariant
                i <= self.keys@.len(),
                forall|j: int| 0 <= j < i ==> pressed@.contains(#[trigger] self.keys@[j]),
            decreases self.keys@.len() - i,
        {
            if !pressed.contains(self.keys[i]) {
                proof {
                    assert(self@.contains(self.keys@[i as int]));
                }
                return false;
            }
            i += 1;
        }
        true
    }

    /// The text of the shortcut.
    pub fn to_string(&self) -> (result: String)
        ensures
            result@ == chord_text(self@),
    {
        let mut text = String::new();
        let mut i: usize = 0;
        proof {
            assert(self.keys@.take(0) =~= Seq::empty());
            assert(text@ =~= chord_text(self.keys@.take(0)));
        }
        while i < self.keys.len()
            invariant
                i <= self.keys@.len(),
                text@ == chord_text(self.keys@.take(i as int)),
            decreases self.keys@.len() - i,
        {
            let ghost front = self.keys@.take(i as int);
            let ghost wider = self.keys@.take(i + 1);
            proof {
                assert(wider.drop_last() =~= front);
                assert(wider.last() == self.keys@[i as int]);
                reveal_strlit("+");
                assert("+"@ =~= seq!['+']);
                assert(i == 0 ==> text@ =~= Seq::empty());
            }
            if i > 0 {
                text.append("+");
            }
            text.append(keycode_to_string(&self.keys[i]).as_str());
            proof {
                assert(text@ =~= chord_text(wider));
            }
            i += 1;
        }
        proof {
            assert(self.keys@.take(self.keys@.len() as int) =~= self.keys@);
        }
        text
    }

    /// A copy of the shortcut.
    pub fn copied(&self) -> (result: ShortcutBinding)
        ensures
            result@ == self@,
    {
        let mut keys: Vec<Keycode> = Vec::new();
        let mut i: usize = 0;
        while i < self.keys.len()
            invariant
                i <= self.keys@.len(),
                keys@ == self.keys@.take(i as int),
            decreases self.keys@.len() - i,
        {
            keys.push(self.keys[i]);
            proof {
                assert(keys@ =~= self.keys@.take(i + 1));
            }
            i += 1;
        }
        proof {
            assert(keys@ =~= self.keys@);
        }
        ShortcutBinding { keys }
    }
}

proof fn lemma_chord_fails(names: Seq<Seq<char>>, count: int, platform: Platform)
    requires
        0 <= count <= names.len(),
        chord(names.take(count), platform) is Err,
    ensures
        chord(names, platform) == chord(names.take(count), platform),
    decreases names.len() - count,
{
    if count < names.len() {
        assert(names.take(count + 1).drop_last() =~= names.take(count));
        lemma_chord_fails(names, count + 1, platform);
    } else {
        assert(names.take(count) =~= names);
    }
}

proof fn lemma_trim_start_push(s: Seq<char>, c: char)
    requires
        white_space(c),
    ensures
        trim_start(s.push(c)) == if trim_start(s).len() == 0 {
            Seq::empty()
        } else {
            trim_start(s).push(c)
        },
    decreases s.len(),
{
    if s.len() == 0 {
        assert(s.push(c).drop_first() =~= Seq::empty());
        assert(trim_start(s.push(c)) == trim_start(Seq::<char>::empty()));
    } else if white_space(s[0]) {
        lemma_trim_start_push(s.drop_first(), c);
        assert(s.push(c).drop_first() =~= s.drop_first().push(c));
    }
}

proof fn lemma_trimmed_push(s: Seq<char>, c: char)
    requires
        white_space(c),
    ensures
        trimmed(s.push(c)) == trimmed(s),
{
    lemma_trim_start_push(s, c);
    let start = trim_start(s);
    if start.len() == 0 {
        assert(start =~= Seq::empty());
    } else {
        assert(start.push(c).drop_last() =~= start);
    }
}

proof fn lemma_names_without_last_blank(s: Seq<char>)
    requires
        s.len() > 0,
        white_space(s.last()),
    ensures
        shortcut_names(s) == shortcut_names(s.drop_last()),
{
    let before = pieces(s.drop_last(), '+');
    lemma_pieces_non_empty(s.drop_last(), '+');
    lemma_trimmed_push(before.last(), s.last());
    assert(shortcut_names(s) =~= shortcut_names(s.drop_last()));
}

proof fn lemma_names_without_first_blank(s: Seq<char>)
    requires
        s.len() > 0,
        white_space(s[0]),
    ensures
        shortcut_names(s) == shortcut_names(s.drop_first()),
        pieces(s, '+').len() == pieces(s.drop_first(), '+').len(),
        pieces(s, '+').len() > 0,
        pieces(s, '+')[0] == seq![s[0]] + pieces(s.drop_first(), '+')[0],
        forall|i: int|
            0 < i < pieces(s, '+').len() ==> pieces(s, '+')[i] == pieces(s.drop_first(), '+')[i],
    decreases s.len(),
{
    let rest = s.drop_first();
    lemma_pieces_non_empty(s, '+');
    lemma_pieces_non_empty(rest, '+');
    if s.len() == 1 {
        lemma_pieces_of_word('+', s);
        assert(rest =~= Seq::empty());
        assert(pieces(s, '+')[0] =~= seq![s[0]] + pieces(rest, '+')[0]);
    } else {
        let front = s.drop_last();
        lemma_names_without_first_blank(front);
        assert(front.drop_first() =~= rest.drop_last());
        lemma_pieces_non_empty(front, '+');
        if s.last() != '+' {
            let a = pieces(front, '+');
            let b = pieces(rest.drop_last(), '+');
            assert(a.len() == b.len());
            if a.len() == 1 {
                assert(a.last().push(s.last()) =~= seq![s[0]] + b.last().push(s.last()));
            }
        }
    }
    let a = pieces(s, '+');
    let b = pieces(rest, '+');
    assert(a[0].drop_first() =~= b[0]);
    assert(trimmed(a[0]) == trimmed(b[0]));
    assert(shortcut_names(s) =~= shortcut_names(rest));
}

proof fn lemma_names_without_start(s: Seq<char>)
    ensures
        shortcut_names(trim_start(s)) == shortcut_names(s),
    decreases s.len(),
{
    if s.len() > 0 && white_space(s[0]) {
        lemma_names_without_first_blank(s);
        lemma_names_without_start(s.drop_first());
    }
}

proof fn lemma_names_without_end(s: Seq<char>)
    ensures
        shortcut_names(trim_end(s)) == shortcut_names(s),
    decreases s.len(),
{
    if s.len() > 0 && white_space(s.last()) {
        lemma_names_without_last_blank(s);
        lemma_names_without_end(s.drop_last());
    }
}

/// Blanks around a shortcut do not matter.
pub proof fn law_blanks_around_a_shortcut_do_not_matter(value: Seq<char>, platform: Platform)
    ensures
        shortcut_keys(trimmed(value), platform) == shortcut_keys(value, platform),
{
    lemma_names_without_start(value);
    lemma_names_without_end(trim_start(value));
}

/// The names of a list of keys.
pub open spec fn key_names(keys: Seq<Keycode>) -> Seq<Seq<char>> {
    Seq::new(keys.len(), |i: int| key_name(keys[i]))
}

proof fn lemma_chord_text_pieces(keys: Seq<Keycode>)
    requires
        keys.len() > 0,
    ensures
        pieces(chord_text(keys), '+') == key_names(keys),
    decreases keys.len(),
{
    let name = key_name(keys.last());
    lemma_names_are_plain(keys.last());
    assert forall|i: int| 0 <= i < name.len() implies #[trigger] name[i] != '+' by {
        assert(letter_or_digit(key_name(keys.last())[i]));
    }
    if keys.len() == 1 {
        lemma_pieces_of_word('+', name);
        assert(key_names(keys) =~= seq![name]);
    } else {
        lemma_chord_text_pieces(keys.drop_last());
        lemma_pieces_of_joined(chord_text(keys.drop_last()), '+', name);
        assert(key_names(keys) =~= key_names(keys.drop_last()).push(name));
    }
}

proof fn lemma_chord_of_names(keys: Seq<Keycode>, platform: Platform)
    requires
        keys.no_duplicates(),
    ensures
        chord(key_names(keys), platform) == Ok::<Seq<Keycode>, ShortcutErrorView>(keys),
    decreases keys.len(),
{
    if keys.len() == 0 {
        assert(keys =~= Seq::empty());
    } else {
        let front = keys.drop_last();
        let key = keys.last();
        assert(front.no_duplicates());
        lemma_chord_of_names(front, platform);
        assert(key_names(keys).drop_last() =~= key_names(front));
        assert(key == keys[keys.len() - 1]);
        law_key_has_its_name(key);
        assert(!front.contains(key));
        assert(front.push(key) =~= keys);
    }
}

proof fn lemma_names_of_chord_text(keys: Seq<Keycode>)
    requires
        keys.len() > 0,
    ensures
        shortcut_names(chord_text(keys)) == key_names(keys),
        forall|i: int| 0 <= i < keys.len() ==> (#[trigger] key_names(keys)[i]).len() > 0,
{
    lemma_chord_text_pieces(keys);
    assert forall|i: int| 0 <= i < keys.len() implies #[trigger] trimmed(key_names(keys)[i])
        == key_name(keys[i]) && key_name(keys[i]).len() > 0 by {
        let name = key_name(keys[i]);
        lemma_names_are_plain(keys[i]);
        assert(letter_or_digit(key_name(keys[i])[0]));
        assert(letter_or_digit(key_name(keys[i])[name.len() - 1]));
    }
    assert forall|i: int| 0 <= i < keys.len() implies (#[trigger] key_names(keys)[i]).len() > 0 by {
        assert(trimmed(key_names(keys)[i]) == key_name(keys[i]));
    }
    assert(shortcut_names(chord_text(keys)) =~= key_names(keys));
}

/// The text of a shortcut reads back as the same shortcut.
pub proof fn law_shortcut_text_reads_back(keys: Seq<Keycode>, platform: Platform)
    requires
        keys.len() > 0,
        keys.no_duplicates(),
    ensures
        shortcut_keys(chord_text(keys), platform) == Ok::<Seq<Keycode>, ShortcutErrorView>(keys),
{
    lemma_names_of_chord_text(keys);
    lemma_chord_of_names(keys, platform);
}

proof fn lemma_chord_is_distinct(names: Seq<Seq<char>>, platform: Platform)
    ensures
        chord(names, platform) matches Ok(keys) ==> keys.len() == names.len()
            && keys.no_duplicates(),
    decreases names.len(),
{
    if names.len() > 0 {
        lemma_chord_is_distinct(names.drop_last(), platform);
    }
}

/// A shortcut has at least one key, and none twice.
pub proof fn law_shortcut_keys_are_distinct(value: Seq<char>, platform: Platform)
    ensures
        shortcut_keys(value, platform) matches Ok(keys) ==> keys.len() > 0 && keys.no_duplicates(),
{
    lemma_chord_is_distinct(shortcut_names(value), platform);
    lemma_pieces_non_empty(value, '+');
}

/// What a change from `was_pressed` to `is_pressed` is reported as.
pub open spec fn edge(was_pressed: bool, is_pressed: bool) -> Option<ShortcutEvent> {
    if is_pressed == was_pressed {
        None
    } else if is_pressed {
        Some(ShortcutEvent::Pressed)
    } else {
        Some(ShortcutEvent::Released)
    }
}

/// What is reported while the shortcut goes through a series of states.
pub open spec fn edges(was_pressed: bool, states: Seq<bool>) -> Seq<ShortcutEvent>
    decreases states.len(),
{
    if states.len() == 0 {
        Seq::empty()
    } else {
        let rest = edges(states[0], states.skip(1));
        match edge(was_pressed, states[0]) {
            Some(event) => seq![event] + rest,
            None => rest,
        }
    }
}

/// Presses and releases are reported in turn, beginning with a press where the shortcut
/// was not held down and with a release where it was.
pub proof fn law_edges_alternate(was_pressed: bool, states: Seq<bool>)
    ensures
        ({
            let events = edges(was_pressed, states);
            &&& events.len() > 0 ==> (events[0] is Released) == was_pressed
            &&& forall|i: int|
                0 <= i < events.len() - 1 ==> #[trigger] events[i] != events[i + 1]
        }),
    decreases states.len(),
{
    if states.len() > 0 {
        let rest = edges(states[0], states.skip(1));
        let events = edges(was_pressed, states);
        law_edges_alternate(states[0], states.skip(1));
        if edge(was_pressed, states[0]) is Some {
            assert forall|i: int| 0 <= i < events.len() - 1 implies #[trigger] events[i]
                != events[i + 1] by {
                assert(events[i + 1] == rest[i]);
                if i > 0 {
                    assert(events[i] == rest[i - 1]);
                    assert(rest[i - 1] != rest[i - 1 + 1]);
                }
            }
        }
    }
}

/// Notes whether the shortcut is held down; reports a change.
pub fn shortcut_edge(was_pressed: &mut bool, is_pressed: bool) -> (result: Option<ShortcutEvent>)
    ensures
        result == edge(*old(was_pressed), is_pressed),
        *final(was_pressed) == is_pressed,
{
    if is_pressed != *was_pressed {
        *was_pressed = is_pressed;
        if is_pressed {
            Some(ShortcutEvent::Pressed)
        } else {
            Some(ShortcutEvent::Released)
        }
    } else {
        None
    }
}

/// What tells the spellings of the keys apart.
proof fn lemma_spellings_differ()
    ensures
        "CommandOrControl"@.len() == 16,
        "CommandOrCtrl"@.len() == 13,
        "CmdOrControl"@.len() == 12,
        "CmdOrControl"@[0] == 'C',
        "CmdOrControl"@[1] == 'm',
        "CmdOrCtrl"@.len() == 9,
        "CmdOrCtrl"@[0] == 'C',
        "Command"@.len() == 7,
        "Command"@[0] == 'C',
        "Command"@[2] == 'm',
        "Cmd"@.len() == 3,
        "Cmd"@[0] == 'C',
        "Super"@.len() == 5,
        "Super"@[0] == 'S',
        "Super"@[1] == 'u',
        "MetaLeft"@.len() == 8,
        "MetaLeft"@[0] == 'M',
        "MetaRight"@.len() == 9,
        "MetaRight"@[0] == 'M',
        "Control"@.len() == 7,
        "Control"@[0] == 'C',
        "Control"@[2] == 'n',
        "Ctrl"@.len() == 4,
        "Ctrl"@[0] == 'C',
        "ControlLeft"@.len() == 11,
        "ControlLeft"@[0] == 'C',
        "ControlRight"@.len() == 12,
        "ControlRight"@[0] == 'C',
        "ControlRight"@[1] == 'o',
        "Shift"@.len() == 5,
        "Shift"@[0] == 'S',
        "Shift"@[1] == 'h',
        "ShiftLeft"@.len() == 9,
        "ShiftLeft"@[0] == 'S',
        "ShiftRight"@.len() == 10,
        "ShiftRight"@[0] == 'S',
        "Alt"@.len() == 3,
        "Alt"@[0] == 'A',
        "Option"@.len() == 6,
        "Option"@[0] == 'O',
        "AltLeft"@.len() == 7,
        "AltLeft"@[0] == 'A',
        "AltLeft"@[1] == 'l',
        "AltRight"@.len() == 8,
        "AltRight"@[0] == 'A',
        "ArrowUp"@.len() == 7,
        "ArrowUp"@[0] == 'A',
        "ArrowUp"@[1] == 'r',
        "ArrowDown"@.len() == 9,
        "ArrowDown"@[0] == 'A',
        "ArrowDown"@[5] == 'D',
        "ArrowLeft"@.len() == 9,
        "ArrowLeft"@[0] == 'A',
        "ArrowLeft"@[5] == 'L',
        "ArrowRight"@.len() == 10,
        "ArrowRight"@[0] == 'A',
        "Backquote"@.len() == 9,
        "Backquote"@[0] == 'B',
        "Backquote"@[4] == 'q',
        "BracketLeft"@.len() == 11,
        "BracketLeft"@[0] == 'B',
        "BracketRight"@.len() == 12,
        "BracketRight"@[0] == 'B',
        "Backslash"@.len() == 9,
        "Backslash"@[0] == 'B',
        "Backslash"@[4] == 's',
        "Quote"@.len() == 5,
        "Quote"@[0] == 'Q',
        "Period"@.len() == 6,
        "Period"@[0] == 'P',
        "NumpadEqual"@.len() == 11,
        "NumpadEqual"@[0] == 'N',
        "RCommand"@.len() == 8,
        "RCommand"@[0] == 'R',
{
    reveal_strlit("CommandOrControl");
    reveal_strlit("CommandOrCtrl");
    reveal_strlit("CmdOrControl");
    reveal_strlit("CmdOrCtrl");
    reveal_strlit("Command");
    reveal_strlit("Cmd");
    reveal_strlit("Super");
    reveal_strlit("MetaLeft");
    reveal_strlit("MetaRight");
    reveal_strlit("Control");
    reveal_strlit("Ctrl");
    reveal_strlit("ControlLeft");
    reveal_strlit("ControlRight");
    reveal_strlit("Shift");
    reveal_strlit("ShiftLeft");
    reveal_strlit("ShiftRight");
    reveal_strlit("Alt");
    reveal_strlit("Option");
    reveal_strlit("AltLeft");
    reveal_strlit("AltRight");
    reveal_strlit("ArrowUp");
    reveal_strlit("ArrowDown");
    reveal_strlit("ArrowLeft");
    reveal_strlit("ArrowRight");
    reveal_strlit("Backquote");
    reveal_strlit("BracketLeft");
    reveal_strlit("BracketRight");
    reveal_strlit("Backslash");
    reveal_strlit("Quote");
    reveal_strlit("Period");
    reveal_strlit("NumpadEqual");
    reveal_strlit("RCommand");
}

/// However a key is spelled, a spelling that is no key's own name stands for the same key: the
/// modifiers without a side mean the left ones, and the one that depends on the system means
/// Command on macOS and the left Control key elsewhere.
pub proof fn law_spellings_mean_one_key(platform: Platform)
    ensures
        key_named("CommandOrControl"@) is None && platform is MacOs ==> canonical_name(
            "CommandOrControl"@,
            platform,
        ) == "Command"@,
        key_named("CommandOrControl"@) is None && !(platform is MacOs) ==> canonical_name(
            "CommandOrControl"@,
            platform,
        ) == "LControl"@,
        key_named("CommandOrCtrl"@) is None && platform is MacOs ==> canonical_name(
            "CommandOrCtrl"@,
            platform,
        ) == "Command"@,
        key_named("CommandOrCtrl"@) is None && !(platform is MacOs) ==> canonical_name(
            "CommandOrCtrl"@,
            platform,
        ) == "LControl"@,
        key_named("CmdOrControl"@) is None && platform is MacOs ==> canonical_name(
            "CmdOrControl"@,
            platform,
        ) == "Command"@,
        key_named("CmdOrControl"@) is None && !(platform is MacOs) ==> canonical_name(
            "CmdOrControl"@,
            platform,
        ) == "LControl"@,
        key_named("CmdOrCtrl"@) is None && platform is MacOs ==> canonical_name(
            "CmdOrCtrl"@,
            platform,
        ) == "Command"@,
        key_named("CmdOrCtrl"@) is None && !(platform is MacOs) ==> canonical_name(
            "CmdOrCtrl"@,
            platform,
        ) == "LControl"@,
        key_named("Cmd"@) is None ==> canonical_name("Cmd"@, platform) == "Command"@,
        key_named("Super"@) is None ==> canonical_name("Super"@, platform) == "Command"@,
        key_named("MetaLeft"@) is None ==> canonical_name("MetaLeft"@, platform) == "Command"@,
        key_named("MetaRight"@) is None ==> canonical_name("MetaRight"@, platform) == "RCommand"@,
        key_named("Control"@) is None ==> canonical_name("Control"@, platform) == "LControl"@,
        key_named("Ctrl"@) is None ==> canonical_name("Ctrl"@, platform) == "LControl"@,
        key_named("ControlLeft"@) is None ==> canonical_name("ControlLeft"@, platform) == "LControl"@,
        key_named("ControlRight"@) is None ==> canonical_name("ControlRight"@, platform) == "RControl"@,
        key_named("Shift"@) is None ==> canonical_name("Shift"@, platform) == "LShift"@,
        key_named("ShiftLeft"@) is None ==> canonical_name("ShiftLeft"@, platform) == "LShift"@,
        key_named("ShiftRight"@) is None ==> canonical_name("ShiftRight"@, platform) == "RShift"@,
        key_named("Alt"@) is None ==> canonical_name("Alt"@, platform) == "LOption"@,
        key_named("Option"@) is None ==> canonical_name("Option"@, platform) == "LOption"@,
        key_named("AltLeft"@) is None ==> canonical_name("AltLeft"@, platform) == "LOption"@,
        key_named("AltRight"@) is None ==> canonical_name("AltRight"@, platform) == "ROption"@,
        key_named("ArrowUp"@) is None ==> canonical_name("ArrowUp"@, platform) == "Up"@,
        key_named("ArrowDown"@) is None ==> canonical_name("ArrowDown"@, platform) == "Down"@,
        key_named("ArrowLeft"@) is None ==> canonical_name("ArrowLeft"@, platform) == "Left"@,
        key_named("ArrowRight"@) is None ==> canonical_name("ArrowRight"@, platform) == "Right"@,
        key_named("Backquote"@) is None ==> canonical_name("Backquote"@, platform) == "Grave"@,
        key_named("BracketLeft"@) is None ==> canonical_name("BracketLeft"@, platform) == "LeftBracket"@,
        key_named("BracketRight"@) is None ==> canonical_name("BracketRight"@, platform) == "RightBracket"@,
        key_named("Backslash"@) is None ==> canonical_name("Backslash"@, platform) == "BackSlash"@,
        key_named("Quote"@) is None ==> canonical_name("Quote"@, platform) == "Apostrophe"@,
        key_named("Period"@) is None ==> canonical_name("Period"@, platform) == "Dot"@,
        key_named("NumpadEqual"@) is None ==> canonical_name("NumpadEqual"@, platform) == "NumpadEquals"@,
{
    lemma_spellings_differ();
}

/// A key's own name stands for that key, and a name that stands for none is left as it is.
pub proof fn law_own_names_stay(name: Seq<char>, platform: Platform)
    ensures
        key_named(name) is Some ==> shortcut_key(name, platform) == key_named(name),
        shortcut_key(name, platform) matches Some(key) ==> key_name(key) == canonical_name(
            name,
            platform,
        ),
{
    let canonical = canonical_name(name, platform);
    if shortcut_key(name, platform) is Some {
        let key = choose|key: Keycode| #[trigger] key_name(key) == canonical;
        assert(key_name(key) == canonical);
    }
}

/// `Key` before a character stands for that character, and `Digit` before one for the key that
/// is named `Key` and the character, unless the whole is a key's own name. That is so of ASCII
/// characters alone.
pub proof fn law_codes_of_letters_and_digits(c: char, platform: Platform)
    ensures
        (c as u32) < 128 && key_named("Key"@.push(c)) is None ==> canonical_name(
            "Key"@.push(c),
            platform,
        ) == seq![c],
        (c as u32) < 128 && key_named("Digit"@.push(c)) is None ==> canonical_name(
            "Digit"@.push(c),
            platform,
        ) == "Key"@.push(c),
        (c as u32) >= 128 ==> canonical_name("Key"@.push(c), platform) == "Key"@.push(c),
        (c as u32) >= 128 ==> canonical_name("Digit"@.push(c), platform) == "Digit"@.push(c),
{
    reveal_strlit("Key");
    reveal_strlit("Digit");
    lemma_spellings_differ();
    let letter = "Key"@.push(c);
    assert(letter.len() == 4 && letter[0] == 'K');
    assert(letter.drop_last() =~= "Key"@);
    assert(letter.skip(3) =~= seq![c]);
    let number = "Digit"@.push(c);
    assert(number.len() == 6 && number[0] == 'D');
    assert(number.drop_last() =~= "Digit"@);
    assert("Key"@ + number.skip(5) =~= "Key"@.push(c));
}

/// A list of names stands for keys exactly when each name is that of a key and no two are of
/// the same one; the keys come in the order of their names.
pub proof fn law_chords_hold_the_named_keys(names: Seq<Seq<char>>, platform: Platform)
    ensures
        chord(names, platform) is Ok <==> {
            &&& forall|i: int|
                0 <= i < names.len() ==> shortcut_key(#[trigger] names[i], platform) is Some
            &&& forall|i: int, j: int|
                0 <= i < j < names.len() ==> shortcut_key(#[trigger] names[i], platform)
                    != shortcut_key(#[trigger] names[j], platform)
        },
        chord(names, platform) matches Ok(keys) ==> {
            &&& keys.len() == names.len()
            &&& forall|i: int|
                0 <= i < names.len() ==> shortcut_key(#[trigger] names[i], platform) == Some(
                    keys[i],
                )
        },
    decreases names.len(),
{
    if names.len() > 0 {
        let front = names.drop_last();
        let last = names.len() - 1;
        law_chords_hold_the_named_keys(front, platform);
        assert(forall|i: int| 0 <= i < last ==> front[i] == #[trigger] names[i]);
        match chord(front, platform) {
            Ok(keys) => {
                if let Some(key) = shortcut_key(names.last(), platform) {
                    if keys.contains(key) {
                        let i = choose|i: int| 0 <= i < keys.len() && keys[i] == key;
                        assert(shortcut_key(names[i], platform) == Some(key));
                        assert(shortcut_key(names[last], platform) == Some(key));
                    } else {
                        assert forall|i: int| 0 <= i < names.len() implies shortcut_key(
                            #[trigger] names[i],
                            platform,
                        ) == Some(keys.push(key)[i]) by {
                            if i < last {
                                assert(front[i] == names[i]);
                            }
                        }
                        assert forall|i: int, j: int| 0 <= i < j < names.len() implies shortcut_key(
                            #[trigger] names[i],
                            platform,
                        ) != shortcut_key(#[trigger] names[j], platform) by {
                            assert(front[i] == names[i]);
                            if j < last {
                                assert(front[j] == names[j]);
                            } else {
                                assert(shortcut_key(front[i], platform) == Some(keys[i]));
                                assert(keys.contains(keys[i]));
                            }
                        }
                    }
                } else {
                    assert(shortcut_key(names[last], platform) is None);
                }
            },
            Err(_) => {
                if forall|i: int|
                    0 <= i < front.len() ==> shortcut_key(#[trigger] front[i], platform) is Some {
                    let (i, j) = choose|i: int, j: int|
                        0 <= i < j < front.len() && shortcut_key(#[trigger] front[i], platform)
                            == shortcut_key(#[trigger] front[j], platform);
                    assert(names[i] == front[i] && names[j] == front[j]);
                } else {
                    let i = choose|i: int|
                        0 <= i < front.len() && shortcut_key(#[trigger] front[i], platform) is None;
                    assert(names[i] == front[i]);
                }
            },
        }
    }
}

/// What is wrong with a list of names is told of the first name that cannot be taken: it is of
/// no key, or of a key that was named before it.
pub proof fn law_the_first_wrong_name_is_told(
    names: Seq<Seq<char>>,
    platform: Platform,
    index: int,
)
    requires
        0 <= index < names.len(),
        chord(names.take(index), platform) is Ok,
    ensures
        shortcut_key(names[index], platform) is None ==> chord(names, platform) == Err::<
            Seq<Keycode>,
            ShortcutErrorView,
        >(ShortcutErrorView::UnsupportedKey(names[index])),
        shortcut_key(names[index], platform) is Some && (exists|i: int|
            0 <= i < index && shortcut_key(#[trigger] names[i], platform) == shortcut_key(
                names[index],
                platform,
            )) ==> chord(names, platform) == Err::<Seq<Keycode>, ShortcutErrorView>(
            ShortcutErrorView::DuplicateKey(names[index]),
        ),
{
    let front = names.take(index);
    let through = names.take(index + 1);
    assert(through.drop_last() =~= front);
    assert(through.last() == names[index]);
    law_chords_hold_the_named_keys(front, platform);
    assert(forall|i: int| 0 <= i < index ==> front[i] == #[trigger] names[i]);
    let keys = chord(front, platform)->Ok_0;
    if shortcut_key(names[index], platform) is None {
        lemma_chord_fails(names, index + 1, platform);
    } else if exists|i: int|
        0 <= i < index && shortcut_key(#[trigger] names[i], platform) == shortcut_key(
            names[index],
            platform,
        ) {
        let i = choose|i: int|
            0 <= i < index && shortcut_key(#[trigger] names[i], platform) == shortcut_key(
                names[index],
                platform,
            );
        assert(shortcut_key(front[i], platform) == Some(keys[i]));
        assert(keys.contains(keys[i]));
        lemma_chord_fails(names, index + 1, platform);
    }
}

/// A shortcut with nothing but blanks before, between or behind its plus signs is empty,
/// whatever else it names; any other is what its names stand for.
pub proof fn law_blank_names_make_a_shortcut_empty(value: Seq<char>, platform: Platform)
    ensures
        (exists|i: int|
            0 <= i < pieces(value, '+').len() && trimmed(#[trigger] pieces(value, '+')[i]).len()
                == 0) <==> shortcut_keys(value, platform) == Err::<
            Seq<Keycode>,
            ShortcutErrorView,
        >(ShortcutErrorView::Empty),
        shortcut_keys(value, platform) matches Ok(keys) ==> keys.len() == pieces(value, '+').len()
            && forall|i: int|
            0 <= i < keys.len() ==> shortcut_key(
                trimmed(#[trigger] pieces(value, '+')[i]),
                platform,
            ) == Some(keys[i]),
{
    let names = shortcut_names(value);
    let parts = pieces(value, '+');
    assert(forall|i: int| 0 <= i < parts.len() ==> names[i] == trimmed(#[trigger] parts[i]));
    law_chords_hold_the_named_keys(names, platform);
    lemma_chord_error_names_a_key(names, platform);
    if exists|i: int| 0 <= i < parts.len() && trimmed(#[trigger] parts[i]).len() == 0 {
        let i = choose|i: int| 0 <= i < parts.len() && trimmed(#[trigger] parts[i]).len() == 0;
        assert(names[i].len() == 0);
    }
    if exists|i: int| 0 <= i < names.len() && (#[trigger] names[i]).len() == 0 {
        let i = choose|i: int| 0 <= i < names.len() && (#[trigger] names[i]).len() == 0;
        assert(trimmed(parts[i]).len() == 0);
    }
}

proof fn lemma_chord_error_names_a_key(names: Seq<Seq<char>>, platform: Platform)
    ensures
        !(chord(names, platform) matches Err(ShortcutErrorView::Empty)),
    decreases names.len(),
{
    if names.len() > 0 {
        lemma_chord_error_names_a_key(names.drop_last(), platform);
    }
}

/// A change is reported exactly where there is one, as a press where the shortcut is held down
/// afterwards; the last report tells the last state.
pub proof fn law_edges_tell_the_state(was_pressed: bool, is_pressed: bool, states: Seq<bool>)
    ensures
        edge(was_pressed, is_pressed) is None <==> was_pressed == is_pressed,
        edge(was_pressed, is_pressed) == Some(ShortcutEvent::Pressed) <==> !was_pressed
            && is_pressed,
        edge(was_pressed, is_pressed) == Some(ShortcutEvent::Released) <==> was_pressed
            && !is_pressed,
        edges(was_pressed, states).len() > 0 ==> (edges(was_pressed, states).last() is Pressed)
            == states.last(),
        edges(was_pressed, states).len() == 0 ==> forall|i: int|
            0 <= i < states.len() ==> #[trigger] states[i] == was_pressed,
    decreases states.len(),
{
    if states.len() > 0 {
        let rest = states.skip(1);
        law_edges_tell_the_state(states[0], is_pressed, rest);
        let events = edges(was_pressed, states);
        if edges(states[0], rest).len() > 0 {
            assert(events.last() == edges(states[0], rest).last());
            assert(rest.len() > 0);
            assert(rest.last() == states.last());
        } else {
            assert forall|i: int| 0 <= i < states.len() implies #[trigger] states[i] == states[0] by {
                if i > 0 {
                    assert(rest[i - 1] == states[i]);
                }
            }
        }
    }
}

/// The name that a shortcut is refused for is told as it was written.
pub proof fn law_shortcut_errors_tell_the_name(name: Seq<char>)
    ensures
        ShortcutErrorView::UnsupportedKey(name).message() == "Unsupported shortcut key: "@ + name,
        ShortcutErrorView::DuplicateKey(name).message()
            == "Shortcut contains the same key more than once: "@ + name,
{
}

} // verus!
