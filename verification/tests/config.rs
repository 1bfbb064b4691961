use voice_flow::config::{
    default_shortcut, needs_migration, settings_contents, AppConfig, ConfigError, InteractionMode,
};
use voice_flow::json::read_json;
use voice_flow::platform::Platform;
use voice_flow::shortcut::ShortcutError;

fn config(secret_key: &str, shortcut: &str) -> AppConfig {
    AppConfig {
        secret_key: secret_key.to_owned(),
        shortcut: shortcut.to_owned(),
        interaction_mode: InteractionMode::Toggle,
        microphone: " External ".to_owned(),
        auto_insert: false,
    }
}

#[test]
fn default_settings_depend_on_the_platform() {
    assert_eq!(default_shortcut(Platform::Linux), "RControl");
    assert_eq!(default_shortcut(Platform::MacOs), "Command+LShift+Space");
    assert_eq!(default_shortcut(Platform::Other), "Command+LShift+Space");
    for platform in [Platform::MacOs, Platform::Linux, Platform::Other] {
        let defaults = AppConfig::default_for(platform);
        assert_eq!(defaults.secret_key, "");
        assert_eq!(defaults.microphone, "");
        assert_eq!(defaults.interaction_mode, InteractionMode::Hold);
        assert!(defaults.auto_insert);
        assert!(defaults.validate_settings(platform).is_ok());
        let error = defaults.validate_for_dictation(platform).unwrap_err();
        assert!(matches!(error, ConfigError::SecretKeyRequired));
        assert_eq!(error.message(), "Secret Key is required");
    }
    assert_eq!(InteractionMode::default(), InteractionMode::Hold);
}

#[test]
fn settings_are_normalized() {
    let normalized = config(" key\n", "  MetaRight + KeyC ").normalized(Platform::Linux);
    assert_eq!(normalized.secret_key, "key");
    assert_eq!(normalized.shortcut, "RCommand+C");
    assert_eq!(normalized.microphone, "External");
    assert_eq!(normalized.interaction_mode, InteractionMode::Toggle);
    assert!(!normalized.auto_insert);
    let again = normalized.copied().normalized(Platform::Linux);
    assert_eq!(again, normalized);
}

#[test]
fn unusable_shortcuts_are_only_trimmed() {
    let normalized = config("", "  Hyper+A ").normalized(Platform::Linux);
    assert_eq!(normalized.shortcut, "Hyper+A");
    let error = normalized.validate_settings(Platform::Linux).unwrap_err();
    assert!(matches!(error, ConfigError::Shortcut(ShortcutError::UnsupportedKey(_))));
    assert_eq!(error.message(), "Unsupported shortcut key: Hyper");
    let error = normalized.validate_for_dictation(Platform::Linux).unwrap_err();
    assert_eq!(error.message(), "Unsupported shortcut key: Hyper");
}

#[test]
fn usable_settings_allow_dictation() {
    assert!(config("key", "RControl").validate_for_dictation(Platform::Linux).is_ok());
    let error = config("key", "").validate_for_dictation(Platform::Linux).unwrap_err();
    assert_eq!(error.message(), "A shortcut must contain at least one key");
    let error = config("key", "A+KeyA").validate_settings(Platform::Linux).unwrap_err();
    assert_eq!(error.message(), "Shortcut contains the same key more than once: KeyA");
}

#[test]
fn old_settings_are_migrated() {
    for field in ["app_id", "endpoint", "resource_id", "polish"] {
        let text = format!("{{\"secret_key\":\"x\",\"{field}\":null}}");
        assert!(needs_migration(&read_json(text.as_bytes()).unwrap()));
    }
    assert!(!needs_migration(&read_json(b"{\"secret_key\":\"x\"}").unwrap()));
    assert!(!needs_migration(&read_json(b"[]").unwrap()));
}

#[test]
fn settings_files_end_with_a_newline() {
    assert_eq!(settings_contents(b"{}".to_vec()), b"{}\n");
    assert_eq!(settings_contents(Vec::new()), b"\n");
}
