use voice_flow::bytes::{decimal_text, encode_pcm, natural_text, to_signed, to_unsigned};
use voice_flow::text::{
    equal_ignoring_ascii_case, is_white_space, process_final, same_text, split_on, trim,
    AsrCleanup, TranscriptProcessor,
};

#[test]
fn trims_and_collapses_transport_whitespace() {
    assert_eq!(process_final("  hello   world\n"), "hello world");
}

#[test]
fn cleanup_handles_edges() {
    assert_eq!(process_final(""), "");
    assert_eq!(process_final(" \t\u{3000}\n"), "");
    assert_eq!(process_final("one"), "one");
    assert_eq!(AsrCleanup.process("a\u{a0}b\r\n c"), "a b c");
    assert_eq!(process_final("实时\u{3000}文字"), "实时 文字");
}

#[test]
fn cleanup_is_idempotent_on_samples() {
    for sample in ["  a  b ", "x", "", "\n\n", "一 二  三"] {
        let once = process_final(sample);
        assert_eq!(process_final(&once), once);
    }
}

#[test]
fn white_space_agrees_with_the_standard_library() {
    for code in 0..=0x10ffff_u32 {
        if let Some(c) = char::from_u32(code) {
            assert_eq!(is_white_space(c), c.is_whitespace(), "U+{code:04X}");
        }
    }
}

#[test]
fn trimming_agrees_with_the_standard_library() {
    for sample in ["", " ", "  a b\t", "\u{2003}x\u{85}", "no blanks", "\nа\n"] {
        assert_eq!(trim(sample), sample.trim());
    }
}

#[test]
fn splitting_agrees_with_the_standard_library() {
    for sample in ["", "+", "a", "a+b", "a++b+", "+x"] {
        let expected: Vec<String> = sample.split('+').map(str::to_owned).collect();
        assert_eq!(split_on(sample, '+'), expected);
    }
}

#[test]
fn texts_are_compared() {
    assert!(same_text("abc", "abc"));
    assert!(!same_text("abc", "abd"));
    assert!(equal_ignoring_ascii_case("GnOmE", "gnome"));
    assert!(!equal_ignoring_ascii_case("gnome", "gnom"));
    assert!(!equal_ignoring_ascii_case("É", "é"));
}

#[test]
fn numbers_are_written_in_decimal() {
    for value in [0_i64, 7, 10, -1, -7, 1234567890, i64::MAX, i64::MIN] {
        assert_eq!(decimal_text(value), value.to_string());
    }
    for value in [0_u64, 9, 10, 500, u64::MAX] {
        assert_eq!(natural_text(value), value.to_string());
    }
}

#[test]
fn samples_become_little_endian_bytes() {
    let samples = [0_i16, 1, -1, 258, i16::MIN, i16::MAX];
    let expected: Vec<u8> = samples.iter().flat_map(|s| s.to_le_bytes()).collect();
    assert_eq!(encode_pcm(&samples), expected);
}

#[test]
fn twos_complement_goes_both_ways() {
    for value in [0_i32, 1, -1, 7, -7, i32::MIN, i32::MAX] {
        assert_eq!(to_unsigned(value), value as u32);
        assert_eq!(to_signed(value as u32), value);
    }
}
