//! The user's settings.

use device_query::Keycode;
use vstd::prelude::*;

use crate::json::{Json, JsonTree};
use crate::platform::Platform;
use crate::shortcut::keys::{key_name, lemma_names_are_plain, letter_or_digit};
use crate::shortcut::{
    chord_text, law_blanks_around_a_shortcut_do_not_matter, law_shortcut_keys_are_distinct,
    law_shortcut_text_reads_back, shortcut_keys, ShortcutBinding, ShortcutError, ShortcutErrorView,
};
use crate::text::{law_trim_is_idempotent, trim, trimmed};

verus! {

pub const DEFAULT_ENDPOINT: &'static str = "wss://openspeech.bytedance.com/api/v3/sauc/bigmodel";

pub const DEFAULT_RESOURCE_ID: &'static str = "volc.seedasr.sauc.duration";

pub const DEFAULT_SHORTCUT: &'static str = "Command+LShift+Space";

/// Linux keyboards are watched through their input devices, where a single modifier on
/// one side is enough.
pub const DEFAULT_LINUX_SHORTCUT: &'static str = "RControl";

/// How the shortcut controls dictation.
#[derive(Clone, Copy, Debug, PartialEq, Eq, Structural)]
pub enum InteractionMode {
    Hold,
    Toggle,
}

impl Default for InteractionMode {
    fn default() -> (result: Self)
        ensures
            result == InteractionMode::Hold,
    {
        InteractionMode::Hold
    }
}

/// The user's settings.
#[derive(Debug, PartialEq, Eq)]
pub struct AppConfig {
    pub secret_key: String,
    pub shortcut: String,
    pub interaction_mode: InteractionMode,
    pub microphone: String,
    pub auto_insert: bool,
}

/// [`AppConfig`] with its texts as sequences of characters.
pub struct ConfigView {
    pub secret_key: Seq<char>,
    pub shortcut: Seq<char>,
    pub interaction_mode: InteractionMode,
    pub microphone: Seq<char>,
    pub auto_insert: bool,
}

impl View for AppConfig {
    type V = ConfigView;

    open spec fn view(&self) -> ConfigView {
        ConfigView {
            secret_key: self.secret_key@,
            shortcut: self.shortcut@,
            interaction_mode: self.interaction_mode,
            microphone: self.microphone@,
            auto_insert: self.auto_insert,
        }
    }
}

/// Why the settings cannot be used.
#[derive(Debug)]
pub enum ConfigError {
    Shortcut(ShortcutError),
    SecretKeyRequired,
}

/// A [`ConfigError`] with its texts as sequences of characters.
pub enum ConfigErrorView {
    Shortcut(ShortcutErrorView),
    SecretKeyRequired,
}

impl View for ConfigError {
    type V = ConfigErrorView;

    open spec fn view(&self) -> ConfigErrorView {
        match *self {
            ConfigError::Shortcut(error) => ConfigErrorView::Shortcut(error@),
            ConfigError::SecretKeyRequired => ConfigErrorView::SecretKeyRequired,
        }
    }
}

impl ConfigErrorView {
    /// What the user is told.
    pub open spec fn message(self) -> Seq<char> {
        match self {
            ConfigErrorView::Shortcut(error) => error.message(),
            ConfigErrorView::SecretKeyRequired => "Secret Key is required"@,
        }
    }
}

impl ConfigError {
    /// What the user is told.
    pub fn message(&self) -> (result: String)
        ensures
            result@ == self@.message(),
    {
        match self {
            ConfigError::Shortcut(error) => error.message(),
            ConfigError::SecretKeyRequired => "Secret Key is required".to_owned(),
        }
    }
}

/// The shortcut that is used until the user chooses one.
pub open spec fn default_shortcut_text(platform: Platform) -> Seq<char> {
    if platform is Linux {
        DEFAULT_LINUX_SHORTCUT@
    } else {
        DEFAULT_SHORTCUT@
    }
}

/// The shortcut that is used until the user chooses one.
pub fn default_shortcut(platform: Platform) -> (result: &'static str)
    ensures
        result@ == default_shortcut_text(platform),
{
    match platform {
        Platform::Linux => DEFAULT_LINUX_SHORTCUT,
        _ => DEFAULT_SHORTCUT,
    }
}

/// The keys of the shortcut that is used until the user chooses one.
pub open spec fn default_shortcut_keys(platform: Platform) -> Seq<Keycode> {
    if platform is Linux {
        seq![Keycode::RControl]
    } else {
        seq![Keycode::Command, Keycode::LShift, Keycode::Space]
    }
}

/// The default shortcut can be used: right Control on Linux, Command with left Shift and
/// the space bar elsewhere.
pub proof fn law_default_shortcut_is_valid(platform: Platform)
    ensures
        shortcut_keys(default_shortcut_text(platform), platform) == Ok::<
            Seq<Keycode>,
            ShortcutErrorView,
        >(default_shortcut_keys(platform)),
{
    let keys = default_shortcut_keys(platform);
    law_shortcut_text_reads_back(keys, platform);
    reveal_with_fuel(chord_text, 3);
    reveal_strlit("Command+LShift+Space");
    reveal_strlit("RControl");
    reveal_strlit("Command");
    reveal_strlit("LShift");
    reveal_strlit("Space");
    if !(platform is Linux) {
        assert(keys.drop_last() =~= seq![Keycode::Command, Keycode::LShift]);
        assert(keys.drop_last().drop_last() =~= seq![Keycode::Command]);
    }
    assert(chord_text(keys) =~= default_shortcut_text(platform));
}

/// A shortcut as it is stored: without blanks around it, and in its own spelling where
/// it can be read.
pub open spec fn stored_shortcut(text: Seq<char>, platform: Platform) -> Seq<char> {
    match shortcut_keys(trimmed(text), platform) {
        Ok(keys) => chord_text(keys),
        Err(_) => trimmed(text),
    }
}

impl ConfigView {
    /// The settings as they are stored.
    pub open spec fn normalized(self, platform: Platform) -> ConfigView {
        ConfigView {
            secret_key: trimmed(self.secret_key),
            shortcut: stored_shortcut(self.shortcut, platform),
            microphone: trimmed(self.microphone),
            ..self
        }
    }

    /// The settings that are used until the user changes them.
    pub open spec fn default_for(platform: Platform) -> ConfigView {
        ConfigView {
            secret_key: Seq::empty(),
            shortcut: default_shortcut_text(platform),
            interaction_mode: InteractionMode::Hold,
            microphone: Seq::empty(),
            auto_insert: true,
        }
    }

    /// Why the settings cannot be stored, if they cannot.
    pub open spec fn settings_error(self, platform: Platform) -> Option<ConfigErrorView> {
        match shortcut_keys(self.shortcut, platform) {
            Ok(_) => None,
            Err(error) => Some(ConfigErrorView::Shortcut(error)),
        }
    }

    /// Why the settings cannot be used for dictation, if they cannot.
    pub open spec fn dictation_error(self, platform: Platform) -> Option<ConfigErrorView> {
        match self.settings_error(platform) {
            Some(error) => Some(error),
            None => if self.secret_key.len() == 0 {
                Some(ConfigErrorView::SecretKeyRequired)
            } else {
                None
            },
        }
    }
}

impl AppConfig {
    /// The settings that are used until the user changes them.
    pub fn default_for(platform: Platform) -> (result: AppConfig)
        ensures
            result@ == ConfigView::default_for(platform),
    {
        let result = AppConfig {
            secret_key: String::new(),
            shortcut: default_shortcut(platform).to_owned(),
            interaction_mode: InteractionMode::Hold,
            microphone: String::new(),
            auto_insert: true,
        };
        proof {
            assert(result@.secret_key =~= Seq::empty());
            assert(result@.microphone =~= Seq::empty());
        }
        result
    }

    /// A copy of the settings.
    pub fn copied(&self) -> (result: AppConfig)
        ensures
            result@ == self@,
    {
        AppConfig {
            secret_key: self.secret_key.clone(),
            shortcut: self.shortcut.clone(),
            interaction_mode: self.interaction_mode,
            microphone: self.microphone.clone(),
            auto_insert: self.auto_insert,
        }
    }

    /// The settings as they are stored.
    pub fn normalized(self, platform: Platform) -> (result: AppConfig)
        ensures
            result@ == self@.normalized(platform),
    {
        let shortcut = trim(self.shortcut.as_str());
        let shortcut = match ShortcutBinding::parse(shortcut, platform) {
            Ok(binding) => binding.to_string(),
            Err(_) => shortcut.to_owned(),
        };
        AppConfig {
            secret_key: trim(self.secret_key.as_str()).to_owned(),
            shortcut,
            interaction_mode: self.interaction_mode,
            microphone: trim(self.microphone.as_str()).to_owned(),
            auto_insert: self.auto_insert,
        }
    }

    /// Whether the settings can be stored.
    pub fn validate_settings(&self, platform: Platform) -> (result: Result<(), ConfigError>)
        ensures
            match result {
                Ok(_) => self@.settings_error(platform) is None,
                Err(error) => self@.settings_error(platform) == Some(error@),
            },
    {
        match ShortcutBinding::parse(self.shortcut.as_str(), platform) {
            Ok(_) => Ok(()),
            Err(error) => Err(ConfigError::Shortcut(error)),
        }
    }

    /// Whether the settings can be used for dictation.
    pub fn validate_for_dictation(&self, platform: Platform) -> (result: Result<(), ConfigError>)
        ensures
            match result {
                Ok(_) => self@.dictation_error(platform) is None,
                Err(error) => self@.dictation_error(platform) == Some(error@),
            },
    {
        match self.validate_settings(platform) {
            Err(error) => Err(error),
            Ok(_) => if self.secret_key.as_str().unicode_len() == 0 {
                Err(ConfigError::SecretKeyRequired)
            } else {
                Ok(())
            },
        }
    }
}

/// The settings that are used at first can be stored, but not used for dictation: there
/// is no key for the service yet.
pub proof fn law_default_settings_lack_a_key(platform: Platform)
    ensures
        ConfigView::default_for(platform).settings_error(platform) is None,
        ConfigView::default_for(platform).dictation_error(platform) == Some(
            ConfigErrorView::SecretKeyRequired,
        ),
{
    law_default_shortcut_is_valid(platform);
}

proof fn lemma_chord_text_is_trimmed(keys: Seq<Keycode>)
    requires
        keys.len() > 0,
    ensures
        chord_text(keys).len() > 0,
        letter_or_digit(chord_text(keys)[0]),
        letter_or_digit(chord_text(keys).last()),
        trimmed(chord_text(keys)) == chord_text(keys),
    decreases keys.len(),
{
    let name = key_name(keys.last());
    lemma_names_are_plain(keys.last());
    assert(letter_or_digit(name[0]));
    assert(letter_or_digit(name[name.len() - 1]));
    if keys.len() > 1 {
        lemma_chord_text_is_trimmed(keys.drop_last());
    }
}

/// Storing settings that were stored changes nothing.
pub proof fn law_normalization_is_idempotent(config: ConfigView, platform: Platform)
    ensures
        config.normalized(platform).normalized(platform) == config.normalized(platform),
{
    law_trim_is_idempotent(config.secret_key);
    law_trim_is_idempotent(config.microphone);
    law_trim_is_idempotent(config.shortcut);
    let text = trimmed(config.shortcut);
    match shortcut_keys(text, platform) {
        Ok(keys) => {
            law_shortcut_keys_are_distinct(text, platform);
            lemma_chord_text_is_trimmed(keys);
            law_shortcut_text_reads_back(keys, platform);
        },
        Err(_) => {},
    }
}

/// Settings that can be stored can be stored in their own spelling too, and mean the same
/// shortcut.
pub proof fn law_valid_settings_stay_valid(config: ConfigView, platform: Platform)
    requires
        config.settings_error(platform) is None,
    ensures
        config.normalized(platform).settings_error(platform) is None,
        shortcut_keys(config.normalized(platform).shortcut, platform) == shortcut_keys(
            config.shortcut,
            platform,
        ),
{
    law_blanks_around_a_shortcut_do_not_matter(config.shortcut, platform);
    law_shortcut_keys_are_distinct(config.shortcut, platform);
    law_shortcut_text_reads_back(shortcut_keys(config.shortcut, platform)->Ok_0, platform);
}

/// Settings that can be used stay usable when they are stored, as long as the key for the
/// service is more than blanks.
pub proof fn law_normalization_keeps_settings_usable(config: ConfigView, platform: Platform)
    requires
        config.dictation_error(platform) is None,
        trimmed(config.secret_key).len() > 0,
    ensures
        config.normalized(platform).dictation_error(platform) is None,
{
    law_valid_settings_stay_valid(config, platform);
}

/// Whether stored settings still hold a field of an older version.
pub open spec fn legacy_settings(document: JsonTree) -> bool {
    ||| document.get("app_id"@) is Some
    ||| document.get("endpoint"@) is Some
    ||| document.get("resource_id"@) is Some
    ||| document.get("polish"@) is Some
}

/// Whether stored settings have to be written again without the fields of an older
/// version.
pub fn needs_migration(document: &Json) -> (result: bool)
    ensures
        result == legacy_settings(document@),
{
    document.get("app_id").is_some() || document.get("endpoint").is_some() || document.get(
        "resource_id",
    ).is_some() || document.get("polish").is_some()
}

/// The contents of the settings file: the settings and a line end.
pub fn settings_contents(payload: Vec<u8>) -> (result: Vec<u8>)
    ensures
        result@ == payload@.push(10),
{
    let mut contents = payload;
    contents.push(10);
    contents
}

/// Storing settings takes the blanks around the texts and nothing else: the mode, the choice to
/// insert and everything inside the texts stay, and the shortcut means the same keys, or is as
/// wrong as it was.
pub proof fn law_storing_keeps_the_settings(config: ConfigView, platform: Platform)
    ensures
        ({
            let stored = config.normalized(platform);
            &&& stored.secret_key == trimmed(config.secret_key)
            &&& stored.microphone == trimmed(config.microphone)
            &&& stored.interaction_mode == config.interaction_mode
            &&& stored.auto_insert == config.auto_insert
            &&& shortcut_keys(stored.shortcut, platform) == shortcut_keys(config.shortcut, platform)
            &&& shortcut_keys(config.shortcut, platform) is Err ==> stored.shortcut == trimmed(
                config.shortcut,
            )
        }),
{
    law_blanks_around_a_shortcut_do_not_matter(config.shortcut, platform);
    if config.settings_error(platform) is None {
        law_valid_settings_stay_valid(config, platform);
    }
}

/// Two spellings of one shortcut are stored alike.
pub proof fn law_one_shortcut_has_one_stored_form(
    left: Seq<char>,
    right: Seq<char>,
    platform: Platform,
)
    requires
        shortcut_keys(left, platform) is Ok,
        shortcut_keys(left, platform) == shortcut_keys(right, platform),
    ensures
        stored_shortcut(left, platform) == stored_shortcut(right, platform),
{
    law_blanks_around_a_shortcut_do_not_matter(left, platform);
    law_blanks_around_a_shortcut_do_not_matter(right, platform);
}

/// Settings can be stored exactly when their shortcut can be read, and used exactly when there
/// is a key for the service besides; what is wrong with the shortcut is told first.
pub proof fn law_settings_need_a_shortcut_and_a_key(config: ConfigView, platform: Platform)
    ensures
        config.settings_error(platform) is None <==> shortcut_keys(config.shortcut, platform) is Ok,
        shortcut_keys(config.shortcut, platform) matches Err(error) ==> config.settings_error(
            platform,
        ) == Some(ConfigErrorView::Shortcut(error)) && config.dictation_error(platform) == Some(
            ConfigErrorView::Shortcut(error),
        ),
        config.dictation_error(platform) is None <==> shortcut_keys(config.shortcut, platform) is Ok
            && config.secret_key.len() > 0,
        shortcut_keys(config.shortcut, platform) is Ok && config.secret_key.len() == 0
            ==> config.dictation_error(platform) == Some(ConfigErrorView::SecretKeyRequired),
{
}

/// At first there is no key and no chosen microphone, the shortcut is held while speaking, and
/// the text is inserted.
pub proof fn law_the_first_settings(platform: Platform)
    ensures
        ({
            let first = ConfigView::default_for(platform);
            &&& first.secret_key.len() == 0 && first.microphone.len() == 0
            &&& first.interaction_mode is Hold
            &&& first.auto_insert
            &&& first.shortcut == if platform is Linux {
                "RControl"@
            } else {
                "Command+LShift+Space"@
            }
        }),
{
}

/// Settings are of an older version exactly when they hold one of its four fields, with
/// whatever value.
pub proof fn law_old_fields_are_found(document: JsonTree)
    ensures
        legacy_settings(document) <==> exists|key: Seq<char>| #[trigger]
            document.get(key) is Some && seq![
                "app_id"@,
                "endpoint"@,
                "resource_id"@,
                "polish"@,
            ].contains(key),
{
    let fields = seq!["app_id"@, "endpoint"@, "resource_id"@, "polish"@];
    assert(fields[0] == "app_id"@ && fields[1] == "endpoint"@ && fields[2] == "resource_id"@
        && fields[3] == "polish"@);
    assert(fields.contains(fields[0]) && fields.contains(fields[1]) && fields.contains(fields[2])
        && fields.contains(fields[3]));
}

} // verus!
