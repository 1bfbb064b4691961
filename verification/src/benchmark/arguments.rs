//! What a benchmark is asked to do.

use vstd::prelude::*;

use crate::asr::packets::{all_packets, AudioPacket, PacketView, AUDIO_PACKET_SAMPLES};
use crate::asr_options::{CURRENT_ENDPOINT, VAD_END_WINDOW_MS};
use crate::benchmark::SAMPLE_RATE;
use crate::bytes::{decimal_digits, law_decimal_digits};
use crate::json::{items_tree, json_string, print_json, whole_number, Json, JsonObject, JsonTree};
use crate::text::{same_text, trim, trimmed, views};

verus! {

pub const NOSTREAM_ENDPOINT: &'static str =
    "wss://openspeech.bytedance.com/api/v3/sauc/bigmodel_nostream";

/// How the service is asked to recognize a recording.
#[derive(Clone, Copy, Debug, PartialEq, Eq, Structural)]
pub enum RecognitionMode {
    Current,
    Nostream,
}

impl RecognitionMode {
    /// The mode with a given name.
    pub open spec fn named(name: Seq<char>) -> Option<RecognitionMode> {
        if name == "current"@ {
            Some(RecognitionMode::Current)
        } else if name == "nostream"@ {
            Some(RecognitionMode::Nostream)
        } else {
            None
        }
    }

    /// The mode with a given name.
    pub fn parse(value: &str) -> (result: Option<RecognitionMode>)
        ensures
            result == RecognitionMode::named(value@),
    {
        if same_text(value, "current") {
            Some(RecognitionMode::Current)
        } else if same_text(value, "nostream") {
            Some(RecognitionMode::Nostream)
        } else {
            None
        }
    }

    pub open spec fn spec_name(self) -> Seq<char> {
        match self {
            RecognitionMode::Current => "current"@,
            RecognitionMode::Nostream => "nostream"@,
        }
    }

    /// The name of the mode.
    pub fn name(self) -> (result: &'static str)
        ensures
            result@ == self.spec_name(),
    {
        match self {
            RecognitionMode::Current => "current",
            RecognitionMode::Nostream => "nostream",
        }
    }

    /// Where the service offers the mode.
    pub fn endpoint(self) -> (result: &'static str)
        ensures
            result@ == match self {
                RecognitionMode::Current => CURRENT_ENDPOINT@,
                RecognitionMode::Nostream => NOSTREAM_ENDPOINT@,
            },
    {
        match self {
            RecognitionMode::Current => CURRENT_ENDPOINT,
            RecognitionMode::Nostream => NOSTREAM_ENDPOINT,
        }
    }

    /// Whether the service recognizes the speech a second time.
    pub fn enable_nonstream(self) -> (result: bool)
        ensures
            result == (self is Current),
    {
        matches!(self, RecognitionMode::Current)
    }
}

/// Every mode is found by its name.
pub proof fn law_modes_have_their_names(mode: RecognitionMode)
    ensures
        RecognitionMode::named(mode.spec_name()) == Some(mode),
{
    reveal_strlit("current");
    reveal_strlit("nostream");
    assert("current"@.len() != "nostream"@.len());
}

/// An option that takes a value.
#[derive(Clone, Copy, Debug, PartialEq, Eq, Structural)]
pub enum CliOption {
    Mode,
    Hotword,
    EndWindow,
    ForceToSpeech,
}

impl CliOption {
    pub open spec fn spec_name(self) -> Seq<char> {
        match self {
            CliOption::Mode => "--mode"@,
            CliOption::Hotword => "--hotword"@,
            CliOption::EndWindow => "--end-window-ms"@,
            CliOption::ForceToSpeech => "--force-to-speech-ms"@,
        }
    }

    /// How the option is written.
    pub fn name(self) -> (result: &'static str)
        ensures
            result@ == self.spec_name(),
    {
        match self {
            CliOption::Mode => "--mode",
            CliOption::Hotword => "--hotword",
            CliOption::EndWindow => "--end-window-ms",
            CliOption::ForceToSpeech => "--force-to-speech-ms",
        }
    }
}

/// Why arguments cannot be understood.
#[derive(Debug)]
pub enum CliError {
    /// The user asks for help.
    Help,
    MissingValue(CliOption),
    NotUtf8(CliOption),
    UnknownMode(String),
    EmptyHotword,
    NotAnInteger(CliOption),
    EndWindowTooShort,
    ForceToSpeechTooShort,
    SecondInput,
    MissingInput,
    ForceWithoutEndWindow,
}

/// A [`CliError`] with its text as a sequence of characters.
pub enum CliErrorView {
    Help,
    MissingValue(CliOption),
    NotUtf8(CliOption),
    UnknownMode(Seq<char>),
    EmptyHotword,
    NotAnInteger(CliOption),
    EndWindowTooShort,
    ForceToSpeechTooShort,
    SecondInput,
    MissingInput,
    ForceWithoutEndWindow,
}

impl View for CliError {
    type V = CliErrorView;

    open spec fn view(&self) -> CliErrorView {
        match *self {
            CliError::Help => CliErrorView::Help,
            CliError::MissingValue(option) => CliErrorView::MissingValue(option),
            CliError::NotUtf8(option) => CliErrorView::NotUtf8(option),
            CliError::UnknownMode(name) => CliErrorView::UnknownMode(name@),
            CliError::EmptyHotword => CliErrorView::EmptyHotword,
            CliError::NotAnInteger(option) => CliErrorView::NotAnInteger(option),
            CliError::EndWindowTooShort => CliErrorView::EndWindowTooShort,
            CliError::ForceToSpeechTooShort => CliErrorView::ForceToSpeechTooShort,
            CliError::SecondInput => CliErrorView::SecondInput,
            CliError::MissingInput => CliErrorView::MissingInput,
            CliError::ForceWithoutEndWindow => CliErrorView::ForceWithoutEndWindow,
        }
    }
}

/// A text as `Debug` writes it: in quotes, with escapes.
pub uninterp spec fn quoted(text: Seq<char>) -> Seq<char>;

/// Calls the `Debug` of `str` through `format!`. What it writes depends on the text alone and
/// is named by [`quoted`].
#[verifier::external_body]
fn debug_text(text: &str) -> (result: String)
    ensures
        result@ == quoted(text@),
{
    format!("{:?}", text)
}

impl CliErrorView {
    /// What the user is told, given the name of an unknown mode in quotes. Help is no error,
    /// so nothing is said.
    pub open spec fn message(self, quoted_mode: Seq<char>) -> Seq<char> {
        match self {
            CliErrorView::Help => Seq::empty(),
            CliErrorView::MissingValue(option) => option.spec_name() + " requires a value"@,
            CliErrorView::NotUtf8(option) => option.spec_name() + " must be valid UTF-8"@,
            CliErrorView::UnknownMode(_) => "unknown mode "@ + quoted_mode
                + "; expected current, nostream, or all"@,
            CliErrorView::EmptyHotword => "--hotword must not be empty"@,
            CliErrorView::NotAnInteger(option) => option.spec_name() + " must be an integer"@,
            CliErrorView::EndWindowTooShort => "--end-window-ms must be at least 200"@,
            CliErrorView::ForceToSpeechTooShort => "--force-to-speech-ms must be at least 1"@,
            CliErrorView::SecondInput =>
                "only one benchmark directory or audio file may be provided"@,
            CliErrorView::MissingInput =>
                "missing benchmark directory or audio file; use --help for usage"@,
            CliErrorView::ForceWithoutEndWindow =>
                "--force-to-speech-ms requires --end-window-ms"@,
        }
    }

    /// The name of an unknown mode in quotes.
    pub open spec fn quoted_mode(self) -> Seq<char> {
        match self {
            CliErrorView::UnknownMode(mode) => quoted(mode),
            _ => Seq::empty(),
        }
    }
}

fn joined(front: &str, back: &str) -> (result: String)
    ensures
        result@ == front@ + back@,
{
    let mut text = front.to_owned();
    text.append(back);
    text
}

impl CliError {
    /// What the user is told, given the name of an unknown mode in quotes.
    pub fn message_with(&self, quoted_mode: &str) -> (result: String)
        ensures
            result@ == self@.message(quoted_mode@),
    {
        match self {
            CliError::Help => {
                let text = String::new();
                proof {
                    assert(text@ =~= Seq::empty());
                }
                text
            },
            CliError::MissingValue(option) => joined(option.name(), " requires a value"),
            CliError::NotUtf8(option) => joined(option.name(), " must be valid UTF-8"),
            CliError::UnknownMode(_) => {
                let mut text = joined("unknown mode ", quoted_mode);
                text.append("; expected current, nostream, or all");
                text
            },
            CliError::EmptyHotword => "--hotword must not be empty".to_owned(),
            CliError::NotAnInteger(option) => joined(option.name(), " must be an integer"),
            CliError::EndWindowTooShort => "--end-window-ms must be at least 200".to_owned(),
            CliError::ForceToSpeechTooShort =>
                "--force-to-speech-ms must be at least 1".to_owned(),
            CliError::SecondInput =>
                "only one benchmark directory or audio file may be provided".to_owned(),
            CliError::MissingInput =>
                "missing benchmark directory or audio file; use --help for usage".to_owned(),
            CliError::ForceWithoutEndWindow =>
                "--force-to-speech-ms requires --end-window-ms".to_owned(),
        }
    }

    /// What the user is told.
    pub fn message(&self) -> (result: String)
        ensures
            result@ == self@.message(self@.quoted_mode()),
    {
        match self {
            CliError::UnknownMode(mode) => self.message_with(debug_text(mode.as_str()).as_str()),
            _ => {
                let none = String::new();
                proof {
                    assert(none@ =~= Seq::empty());
                }
                self.message_with(none.as_str())
            },
        }
    }
}

/// What a benchmark is asked to do. The input is an argument, by its place.
#[derive(Debug)]
pub struct Cli {
    pub input: Option<usize>,
    pub mode: Option<RecognitionMode>,
    pub hotwords: Vec<String>,
    pub end_window_ms: Option<u64>,
    pub force_to_speech_ms: Option<u64>,
}

/// A [`Cli`] with its texts as sequences of characters.
pub struct CliView {
    pub input: Option<int>,
    pub mode: Option<RecognitionMode>,
    pub hotwords: Seq<Seq<char>>,
    pub end_window_ms: Option<u64>,
    pub force_to_speech_ms: Option<u64>,
}

impl View for Cli {
    type V = CliView;

    open spec fn view(&self) -> CliView {
        CliView {
            input: match self.input {
                Some(place) => Some(place as int),
                None => None,
            },
            mode: self.mode,
            hotwords: views(self.hotwords@),
            end_window_ms: self.end_window_ms,
            force_to_speech_ms: self.force_to_speech_ms,
        }
    }
}

/// An argument; `None` where it is not valid UTF-8.
pub open spec fn argument_views(arguments: Seq<Option<String>>) -> Seq<Option<Seq<char>>> {
    Seq::new(
        arguments.len(),
        |i: int|
            match arguments[i] {
                Some(text) => Some(text@),
                None => None,
            },
    )
}

/// The option with a given name.
pub open spec fn option_named(argument: Option<Seq<char>>) -> Option<CliOption> {
    if argument == Some(CliOption::Mode.spec_name()) {
        Some(CliOption::Mode)
    } else if argument == Some(CliOption::Hotword.spec_name()) {
        Some(CliOption::Hotword)
    } else if argument == Some(CliOption::EndWindow.spec_name()) {
        Some(CliOption::EndWindow)
    } else if argument == Some(CliOption::ForceToSpeech.spec_name()) {
        Some(CliOption::ForceToSpeech)
    } else {
        None
    }
}

/// Whether a character is a decimal digit.
pub open spec fn is_digit(c: char) -> bool {
    '0' <= c <= '9'
}

/// The number that a series of digits stands for; `None` where there is another character
/// or the number does not fit.
pub open spec fn digits_value(digits: Seq<char>) -> Option<u64>
    decreases digits.len(),
{
    if digits.len() == 0 {
        Some(0)
    } else {
        match digits_value(digits.drop_last()) {
            None => None,
            Some(front) => {
                let value = front * 10 + ((digits.last() as u32) - ('0' as u32));
                if is_digit(digits.last()) && value <= u64::MAX {
                    Some(value as u64)
                } else {
                    None
                }
            },
        }
    }
}

/// The number in a text: digits, possibly behind a plus sign.
pub open spec fn integer_value(text: Seq<char>) -> Option<u64> {
    let digits = if text.len() > 0 && text[0] == '+' {
        text.skip(1)
    } else {
        text
    };
    if digits.len() == 0 {
        None
    } else {
        digits_value(digits)
    }
}

proof fn lemma_digits_fail(digits: Seq<char>, count: int)
    requires
        0 <= count <= digits.len(),
        digits_value(digits.take(count)) is None,
    ensures
        digits_value(digits) is None,
    decreases digits.len() - count,
{
    if count < digits.len() {
        assert(digits.take(count + 1).drop_last() =~= digits.take(count));
        lemma_digits_fail(digits, count + 1);
    } else {
        assert(digits.take(count) =~= digits);
    }
}

/// Reads a number.
pub fn parse_integer(text: &str) -> (result: Option<u64>)
    ensures
        result == integer_value(text@),
{
    let length = text.unicode_len();
    let start: usize = if length > 0 && text.get_char(0) == '+' {
        1
    } else {
        0
    };
    if start == length {
        return None;
    }
    let ghost digits = text@.skip(start as int);
    let mut value: u64 = 0;
    let mut i: usize = start;
    proof {
        assert(digits.take(0) =~= Seq::empty());
        assert(start == 0 ==> digits =~= text@);
    }
    while i < length
        invariant
            start <= i <= length,
            length == text@.len(),
            digits == text@.skip(start as int),
            digits_value(digits.take(i - start)) == Some(value),
            digits.len() > 0,
            integer_value(text@) == digits_value(digits),
        decreases length - i,
    {
        let c = text.get_char(i);
        proof {
            assert(digits.take(i + 1 - start).drop_last() =~= digits.take(i - start));
            assert(digits.take(i + 1 - start).last() == c);
        }
        if c < '0' || c > '9' {
            proof {
                lemma_digits_fail(digits, i + 1 - start);
            }
            return None;
        }
        let digit: u64 = c as u64 - 48;
        let product = match value.checked_mul(10) {
            Some(product) => product,
            None => {
                proof {
                    lemma_digits_fail(digits, i + 1 - start);
                }
                return None;
            },
        };
        value = match product.checked_add(digit) {
            Some(sum) => sum,
            None => {
                proof {
                    lemma_digits_fail(digits, i + 1 - start);
                }
                return None;
            },
        };
        i += 1;
    }
    proof {
        assert(digits.take(digits.len() as int) =~= digits);
    }
    Some(value)
}

/// What an option and its value change.
pub open spec fn with_option(cli: CliView, option: CliOption, value: Option<Seq<char>>) -> Result<
    CliView,
    CliErrorView,
> {
    match value {
        None => Err(CliErrorView::NotUtf8(option)),
        Some(value) => match option {
            CliOption::Mode => if value == "all"@ {
                Ok(cli)
            } else {
                match RecognitionMode::named(value) {
                    Some(mode) => Ok(CliView { mode: Some(mode), ..cli }),
                    None => Err(CliErrorView::UnknownMode(value)),
                }
            },
            CliOption::Hotword => if trimmed(value).len() == 0 {
                Err(CliErrorView::EmptyHotword)
            } else {
                Ok(CliView { hotwords: cli.hotwords.push(trimmed(value)), ..cli })
            },
            CliOption::EndWindow => match integer_value(value) {
                None => Err(CliErrorView::NotAnInteger(option)),
                Some(number) => if number < 200 {
                    Err(CliErrorView::EndWindowTooShort)
                } else {
                    Ok(CliView { end_window_ms: Some(number), ..cli })
                },
            },
            CliOption::ForceToSpeech => match integer_value(value) {
                None => Err(CliErrorView::NotAnInteger(option)),
                Some(number) => if number == 0 {
                    Err(CliErrorView::ForceToSpeechTooShort)
                } else {
                    Ok(CliView { force_to_speech_ms: Some(number), ..cli })
                },
            },
        },
    }
}

/// What the arguments from `from` on change: options with their values, and one input.
pub open spec fn with_arguments(
    cli: CliView,
    arguments: Seq<Option<Seq<char>>>,
    from: int,
) -> Result<CliView, CliErrorView>
    decreases arguments.len() - from,
{
    if from < 0 || from >= arguments.len() {
        Ok(cli)
    } else if arguments[from] == Some("--help"@) || arguments[from] == Some("-h"@) {
        Err(CliErrorView::Help)
    } else {
        match option_named(arguments[from]) {
            Some(option) => if from + 1 >= arguments.len() {
                Err(CliErrorView::MissingValue(option))
            } else {
                match with_option(cli, option, arguments[from + 1]) {
                    Ok(next) => with_arguments(next, arguments, from + 2),
                    Err(error) => Err(error),
                }
            },
            None => if cli.input is Some {
                Err(CliErrorView::SecondInput)
            } else {
                with_arguments(CliView { input: Some(from), ..cli }, arguments, from + 1)
            },
        }
    }
}

/// What a benchmark is asked to do by its arguments.
pub open spec fn command_line(arguments: Seq<Option<Seq<char>>>) -> Result<CliView, CliErrorView> {
    let start = CliView {
        input: None,
        mode: None,
        hotwords: Seq::empty(),
        end_window_ms: None,
        force_to_speech_ms: None,
    };
    match with_arguments(start, arguments, 0) {
        Err(error) => Err(error),
        Ok(cli) => if cli.input is None {
            Err(CliErrorView::MissingInput)
        } else if cli.force_to_speech_ms is Some && cli.end_window_ms is None {
            Err(CliErrorView::ForceWithoutEndWindow)
        } else {
            Ok(cli)
        },
    }
}

fn is_argument(argument: &Option<String>, expected: &str) -> (result: bool)
    ensures
        result == (argument matches Some(text) && text@ == expected@),
{
    match argument {
        Some(text) => same_text(text.as_str(), expected),
        None => false,
    }
}

fn find_option(argument: &Option<String>) -> (result: Option<CliOption>)
    ensures
        result == option_named(
            match *argument {
                Some(text) => Some(text@),
                None => None,
            },
        ),
{
    if is_argument(argument, CliOption::Mode.name()) {
        Some(CliOption::Mode)
    } else if is_argument(argument, CliOption::Hotword.name()) {
        Some(CliOption::Hotword)
    } else if is_argument(argument, CliOption::EndWindow.name()) {
        Some(CliOption::EndWindow)
    } else if is_argument(argument, CliOption::ForceToSpeech.name()) {
        Some(CliOption::ForceToSpeech)
    } else {
        None
    }
}

fn set_option(cli: &mut Cli, option: CliOption, value: &Option<String>) -> (result: Result<
    (),
    CliError,
>)
    ensures
        ({
            let text = match *value {
                Some(text) => Some(text@),
                None => None,
            };
            match result {
                Ok(_) => with_option(old(cli)@, option, text) == Ok::<CliView, CliErrorView>(
                    final(cli)@,
                ),
                Err(error) => with_option(old(cli)@, option, text) == Err::<CliView, CliErrorView>(
                    error@,
                ) && final(cli)@ == old(cli)@,
            }
        }),
{
    let value = match value {
        Some(value) => value.as_str(),
        None => {
            return Err(CliError::NotUtf8(option));
        },
    };
    match option {
        CliOption::Mode => {
            if !same_text(value, "all") {
                match RecognitionMode::parse(value) {
                    Some(mode) => {
                        cli.mode = Some(mode);
                    },
                    None => {
                        return Err(CliError::UnknownMode(value.to_owned()));
                    },
                }
            }
        },
        CliOption::Hotword => {
            let word = trim(value);
            if word.unicode_len() == 0 {
                return Err(CliError::EmptyHotword);
            }
            let ghost before = cli.hotwords@;
            cli.hotwords.push(word.to_owned());
            proof {
                assert(views(cli.hotwords@) =~= views(before).push(word@));
            }
        },
        CliOption::EndWindow => match parse_integer(value) {
            None => {
                return Err(CliError::NotAnInteger(option));
            },
            Some(number) => {
                if number < 200 {
                    return Err(CliError::EndWindowTooShort);
                }
                cli.end_window_ms = Some(number);
            },
        },
        CliOption::ForceToSpeech => match parse_integer(value) {
            None => {
                return Err(CliError::NotAnInteger(option));
            },
            Some(number) => {
                if number == 0 {
                    return Err(CliError::ForceToSpeechTooShort);
                }
                cli.force_to_speech_ms = Some(number);
            },
        },
    }
    Ok(())
}

/// Reads the arguments of a benchmark.
pub fn parse_args(arguments: &Vec<Option<String>>) -> (result: Result<Cli, CliError>)
    ensures
        match result {
            Ok(cli) => command_line(argument_views(arguments@)) == Ok::<CliView, CliErrorView>(
                cli@,
            ),
            Err(error) => command_line(argument_views(arguments@)) == Err::<CliView, CliErrorView>(
                error@,
            ),
        },
{
    let ghost all = argument_views(arguments@);
    let mut cli = Cli {
        input: None,
        mode: None,
        hotwords: Vec::new(),
        end_window_ms: None,
        force_to_speech_ms: None,
    };
    let ghost start = cli@;
    proof {
        assert(cli@.hotwords =~= Seq::empty());
    }
    let mut i: usize = 0;
    while i < arguments.len()
        invariant
            i <= arguments@.len(),
            all == argument_views(arguments@),
            start == (CliView {
                input: None,
                mode: None,
                hotwords: Seq::empty(),
                end_window_ms: None,
                force_to_speech_ms: None,
            }),
            with_arguments(start, all, 0) == with_arguments(cli@, all, i as int),
        decreases arguments@.len() - i,
    {
        let argument = &arguments[i];
        proof {
            assert(all[i as int] == match *argument {
                Some(text) => Some(text@),
                None => None,
            });
        }
        if is_argument(argument, "--help") || is_argument(argument, "-h") {
            return Err(CliError::Help);
        }
        match find_option(argument) {
            Some(option) => {
                if i + 1 >= arguments.len() {
                    return Err(CliError::MissingValue(option));
                }
                match set_option(&mut cli, option, &arguments[i + 1]) {
                    Ok(_) => {},
                    Err(error) => {
                        return Err(error);
                    },
                }
                i += 2;
            },
            None => {
                if cli.input.is_some() {
                    return Err(CliError::SecondInput);
                }
                cli.input = Some(i);
                i += 1;
            },
        }
    }
    if cli.input.is_none() {
        return Err(CliError::MissingInput);
    }
    if cli.force_to_speech_ms.is_some() && cli.end_window_ms.is_none() {
        return Err(CliError::ForceWithoutEndWindow);
    }
    Ok(cli)
}

/// The key for the service in the settings, where it is more than blanks.
pub open spec fn stored_key(settings: JsonTree) -> Option<Seq<char>> {
    match settings.get("secret_key"@) {
        Some(JsonTree::Text(key)) => if trimmed(key).len() > 0 {
            Some(trimmed(key))
        } else {
            None
        },
        _ => None,
    }
}

/// The key for the service in the environment, where it is more than blanks.
pub fn environment_key(value: &str) -> (result: Option<String>)
    ensures
        match result {
            Some(key) => trimmed(value@).len() > 0 && key@ == trimmed(value@),
            None => trimmed(value@).len() == 0,
        },
{
    let key = trim(value);
    if key.unicode_len() > 0 {
        Some(key.to_owned())
    } else {
        None
    }
}

/// The key for the service in the settings, where it is more than blanks.
pub fn settings_key(settings: &Json) -> (result: Option<String>)
    ensures
        match result {
            Some(key) => stored_key(settings@) == Some(key@),
            None => stored_key(settings@) is None,
        },
{
    match settings.get("secret_key") {
        Some(member) => match member.as_str() {
            Some(key) => environment_key(key),
            None => None,
        },
        None => None,
    }
}

/// The pause that ends an utterance, where the mode has one.
pub fn end_window(mode: RecognitionMode, end_window_ms: Option<u64>) -> (result: Option<u64>)
    ensures
        result == match mode {
            RecognitionMode::Current => Some(
                match end_window_ms {
                    Some(value) => value,
                    None => VAD_END_WINDOW_MS,
                },
            ),
            RecognitionMode::Nostream => None,
        },
{
    match mode {
        RecognitionMode::Current => match end_window_ms {
            Some(value) => Some(value),
            None => Some(VAD_END_WINDOW_MS),
        },
        RecognitionMode::Nostream => None,
    }
}

/// The list of words that the service should expect.
pub open spec fn hotword_tree(hotwords: Seq<Seq<char>>) -> JsonTree {
    JsonTree::Object(
        map![
            "hotwords"@ => JsonTree::Array(
                Seq::new(
                    hotwords.len(),
                    |i: int| JsonTree::Object(map!["word"@ => JsonTree::Text(hotwords[i])]),
                ),
            ),
        ],
    )
}

/// How a recording is recognized, in the request that opens the session. The text of the
/// expected words, where there are any, is `context`.
pub open spec fn settings_tree(
    mode: RecognitionMode,
    context: Option<Seq<char>>,
    end_window_ms: Option<u64>,
    force_to_speech_ms: Option<u64>,
) -> Map<Seq<char>, JsonTree> {
    let base = map![
        "model_name"@ => JsonTree::Text("bigmodel"@),
        "enable_itn"@ => JsonTree::Bool(true),
        "enable_punc"@ => JsonTree::Bool(true),
        "enable_ddc"@ => JsonTree::Bool(false),
        "show_utterances"@ => JsonTree::Bool(true),
        "result_type"@ => JsonTree::Text("full"@),
    ];
    let timed = match mode {
        RecognitionMode::Current => {
            let window = match end_window_ms {
                Some(value) => value,
                None => VAD_END_WINDOW_MS,
            };
            let second = base.insert("enable_nonstream"@, JsonTree::Bool(true)).insert(
                "end_window_size"@,
                JsonTree::Number(whole_number(window)),
            );
            match force_to_speech_ms {
                Some(value) => second.insert(
                    "force_to_speech_time"@,
                    JsonTree::Number(whole_number(value)),
                ),
                None => second,
            }
        },
        RecognitionMode::Nostream => base,
    };
    match context {
        Some(text) => timed.insert(
            "corpus"@,
            JsonTree::Object(map!["context"@ => JsonTree::Text(text)]),
        ),
        None => timed,
    }
}

/// The audio of a recording, in the request that opens the session.
pub open spec fn audio_tree(mode: RecognitionMode, language: Seq<char>) -> Map<
    Seq<char>,
    JsonTree,
> {
    let base = map![
        "format"@ => JsonTree::Text("pcm"@),
        "codec"@ => JsonTree::Text("raw"@),
        "rate"@ => JsonTree::Number(whole_number(SAMPLE_RATE as u64)),
        "bits"@ => JsonTree::Number(whole_number(16)),
        "channel"@ => JsonTree::Number(whole_number(1)),
    ];
    if mode is Nostream && language.len() > 0 {
        base.insert("language"@, JsonTree::Text(language))
    } else {
        base
    }
}

/// The request that opens a session for a recording.
pub open spec fn benchmark_tree(
    mode: RecognitionMode,
    language: Seq<char>,
    context: Option<Seq<char>>,
    end_window_ms: Option<u64>,
    force_to_speech_ms: Option<u64>,
) -> JsonTree {
    JsonTree::Object(
        map![
            "user"@ => JsonTree::Object(map!["uid"@ => JsonTree::Text("voice-flow-benchmark"@)]),
            "audio"@ => JsonTree::Object(audio_tree(mode, language)),
            "request"@ => JsonTree::Object(
                settings_tree(mode, context, end_window_ms, force_to_speech_ms),
            ),
        ],
    )
}

fn hotword_document(hotwords: &Vec<String>) -> (result: Json)
    ensures
        result@ == hotword_tree(views(hotwords@)),
{
    let mut items: Vec<Json> = Vec::new();
    let mut i: usize = 0;
    while i < hotwords.len()
        invariant
            i <= hotwords@.len(),
            items@.len() == i,
            forall|k: int|
                0 <= k < i ==> (#[trigger] items@[k])@ == JsonTree::Object(
                    map!["word"@ => JsonTree::Text(hotwords@[k]@)],
                ),
        decreases hotwords@.len() - i,
    {
        let mut word = JsonObject::new();
        word.set("word", Json::text(hotwords[i].as_str()));
        proof {
            assert(word@ =~= map!["word"@ => JsonTree::Text(hotwords@[i as int]@)]);
        }
        items.push(Json::Object(word));
        i += 1;
    }
    let ghost trees = items_tree(items@);
    let list = Json::Array(items);
    let mut object = JsonObject::new();
    proof {
        assert(list@->Array_0 =~= trees);
        assert(trees =~= Seq::new(
            hotwords@.len(),
            |k: int| JsonTree::Object(map!["word"@ => JsonTree::Text(views(hotwords@)[k])]),
        ));
    }
    object.set("hotwords", list);
    proof {
        assert(object@ =~= hotword_tree(views(hotwords@))->Object_0);
    }
    Json::Object(object)
}

/// The request that opens a session for a recording, given the text of the expected words.
pub fn benchmark_payload(
    mode: RecognitionMode,
    language: &str,
    context: Option<String>,
    end_window_ms: Option<u64>,
    force_to_speech_ms: Option<u64>,
) -> (result: Json)
    ensures
        result@ == benchmark_tree(
            mode,
            language@,
            match context {
                Some(text) => Some(text@),
                None => None,
            },
            end_window_ms,
            force_to_speech_ms,
        ),
{
    let mut settings = JsonObject::new();
    settings.set("model_name", Json::text("bigmodel"));
    settings.set("enable_itn", Json::Bool(true));
    settings.set("enable_punc", Json::Bool(true));
    settings.set("enable_ddc", Json::Bool(false));
    settings.set("show_utterances", Json::Bool(true));
    settings.set("result_type", Json::text("full"));
    if mode.enable_nonstream() {
        settings.set("enable_nonstream", Json::Bool(true));
        if let Some(value) = end_window(mode, end_window_ms) {
            settings.set("end_window_size", Json::whole(value));
        }
        if let Some(value) = force_to_speech_ms {
            settings.set("force_to_speech_time", Json::whole(value));
        }
    }
    if let Some(text) = &context {
        let mut corpus = JsonObject::new();
        corpus.set("context", Json::text(text.as_str()));
        settings.set("corpus", Json::Object(corpus));
    }
    let mut audio = JsonObject::new();
    audio.set("format", Json::text("pcm"));
    audio.set("codec", Json::text("raw"));
    audio.set("rate", Json::whole(SAMPLE_RATE as u64));
    audio.set("bits", Json::whole(16));
    audio.set("channel", Json::whole(1));
    if matches!(mode, RecognitionMode::Nostream) && language.unicode_len() > 0 {
        audio.set("language", Json::text(language));
    }
    let mut user = JsonObject::new();
    user.set("uid", Json::text("voice-flow-benchmark"));
    let mut all = JsonObject::new();
    all.set("user", Json::Object(user));
    all.set("audio", Json::Object(audio));
    all.set("request", Json::Object(settings));
    Json::Object(all)
}

/// The text of the expected words, where there are any.
pub open spec fn hotword_context(hotwords: Seq<Seq<char>>) -> Option<Option<Seq<char>>> {
    if hotwords.len() == 0 {
        Some(None)
    } else {
        match json_string(hotword_tree(hotwords)) {
            Some(text) => Some(Some(text)),
            None => None,
        }
    }
}

/// The request that opens a session for a recording; `None` where the expected words cannot
/// be written down.
pub fn benchmark_request(
    mode: RecognitionMode,
    language: &str,
    hotwords: &Vec<String>,
    end_window_ms: Option<u64>,
    force_to_speech_ms: Option<u64>,
) -> (result: Option<Json>)
    ensures
        match (result, hotword_context(views(hotwords@))) {
            (Some(json), Some(context)) => json@ == benchmark_tree(
                mode,
                language@,
                context,
                end_window_ms,
                force_to_speech_ms,
            ),
            (None, None) => true,
            _ => false,
        },
{
    let context = if hotwords.len() == 0 {
        None
    } else {
        match print_json(&hotword_document(hotwords)) {
            Some(text) => Some(text),
            None => {
                return None;
            },
        }
    };
    Some(benchmark_payload(mode, language, context, end_window_ms, force_to_speech_ms))
}

/// The number of packets of a recording.
pub fn packet_count(samples: usize) -> (result: usize)
    ensures
        result == if samples == 0 {
            1
        } else {
            (samples - 1) / 3_200 + 1
        },
{
    if samples == 0 {
        1
    } else {
        (samples - 1) / AUDIO_PACKET_SAMPLES + 1
    }
}

proof fn lemma_packet_at(samples: Seq<i16>, sequence: int, index: int)
    requires
        0 <= index < all_packets(samples, sequence).len(),
    ensures
        all_packets(samples, sequence).len() == if samples.len() == 0 {
            1
        } else {
            (samples.len() - 1) / 3_200 + 1
        },
        all_packets(samples, sequence)[index] == (PacketView {
            sequence: sequence + index,
            samples: samples.subrange(
                index * 3_200,
                if (index + 1) * 3_200 < samples.len() {
                    (index + 1) * 3_200
                } else {
                    samples.len() as int
                },
            ),
            is_last: index == all_packets(samples, sequence).len() - 1,
        }),
    decreases samples.len(),
{
    if samples.len() <= AUDIO_PACKET_SAMPLES {
        assert(samples.subrange(0, samples.len() as int) =~= samples);
        if samples.len() == AUDIO_PACKET_SAMPLES {
            assert(samples.subrange(0, 3_200) =~= samples);
        }
    } else {
        let rest = samples.skip(AUDIO_PACKET_SAMPLES as int);
        let back = all_packets(rest, sequence + 1);
        assert(back.len() > 0);
        if index == 0 {
            lemma_packet_at(rest, sequence + 1, 0);
            assert(samples.take(AUDIO_PACKET_SAMPLES as int) =~= samples.subrange(0, 3_200));
        } else {
            lemma_packet_at(rest, sequence + 1, index - 1);
            assert(all_packets(samples, sequence)[index] == back[index - 1]);
            let end = if index * 3_200 < rest.len() {
                index * 3_200
            } else {
                rest.len() as int
            };
            assert(rest.subrange((index - 1) * 3_200, end) =~= samples.subrange(
                index * 3_200,
                end + 3_200,
            ));
        }
    }
}

proof fn lemma_packets_len(samples: Seq<i16>, sequence: int)
    ensures
        all_packets(samples, sequence).len() == if samples.len() == 0 {
            1
        } else {
            (samples.len() - 1) / 3_200 + 1
        },
    decreases samples.len(),
{
    if samples.len() > AUDIO_PACKET_SAMPLES {
        lemma_packets_len(samples.skip(AUDIO_PACKET_SAMPLES as int), sequence + 1);
    }
}

/// A packet of a recording. A benchmark sends the same packets as a dictation does.
pub fn packet(pcm: &[i16], index: usize) -> (result: AudioPacket)
    requires
        index == 0 || index * 3_200 < pcm@.len(),
        2 + index <= i32::MAX,
    ensures
        index < all_packets(pcm@, 2).len(),
        result@ == all_packets(pcm@, 2)[index as int],
{
    proof {
        lemma_packets_len(pcm@, 2);
        lemma_packet_at(pcm@, 2, index as int);
    }
    let count = packet_count(pcm.len());
    let start: usize = index * AUDIO_PACKET_SAMPLES;
    let end: usize = if pcm.len() - start > AUDIO_PACKET_SAMPLES {
        start + AUDIO_PACKET_SAMPLES
    } else {
        pcm.len()
    };
    let mut samples: Vec<i16> = Vec::new();
    let mut i: usize = start;
    while i < end
        invariant
            start <= i <= end <= pcm@.len(),
            samples@ == pcm@.subrange(start as int, i as int),
        decreases end - i,
    {
        samples.push(pcm[i]);
        proof {
            assert(samples@ =~= pcm@.subrange(start as int, i + 1));
        }
        i += 1;
    }
    AudioPacket { sequence: 2 + index as i32, samples, is_last: index + 1 == count }
}

/// What tells the names of the members of a request apart.
proof fn lemma_member_names()
    ensures
        "model_name"@.len() == 10,
        "model_name"@[0] == 'm',
        "enable_itn"@.len() == 10,
        "enable_itn"@[0] == 'e',
        "enable_itn"@[7] == 'i',
        "enable_punc"@.len() == 11,
        "enable_punc"@[0] == 'e',
        "enable_ddc"@.len() == 10,
        "enable_ddc"@[0] == 'e',
        "enable_ddc"@[7] == 'd',
        "show_utterances"@.len() == 15,
        "show_utterances"@[0] == 's',
        "result_type"@.len() == 11,
        "result_type"@[0] == 'r',
        "enable_nonstream"@.len() == 16,
        "end_window_size"@.len() == 15,
        "end_window_size"@[0] == 'e',
        "force_to_speech_time"@.len() == 20,
        "corpus"@.len() == 6,
        "format"@.len() == 6,
        "codec"@.len() == 5,
        "rate"@.len() == 4,
        "rate"@[0] == 'r',
        "bits"@.len() == 4,
        "bits"@[0] == 'b',
        "channel"@.len() == 7,
        "language"@.len() == 8,
        "user"@.len() == 4,
        "audio"@.len() == 5,
        "request"@.len() == 7,
{
    reveal_strlit("model_name");
    reveal_strlit("enable_itn");
    reveal_strlit("enable_punc");
    reveal_strlit("enable_ddc");
    reveal_strlit("show_utterances");
    reveal_strlit("result_type");
    reveal_strlit("enable_nonstream");
    reveal_strlit("end_window_size");
    reveal_strlit("force_to_speech_time");
    reveal_strlit("corpus");
    reveal_strlit("format");
    reveal_strlit("codec");
    reveal_strlit("rate");
    reveal_strlit("bits");
    reveal_strlit("channel");
    reveal_strlit("language");
    reveal_strlit("user");
    reveal_strlit("audio");
    reveal_strlit("request");
}

/// The request of a benchmark asks for written numbers, punctuation and the utterances of the
/// full result, and not for smoothing; for a second pass, with its pause, in the current mode
/// alone. Expected words and a forced start are asked for exactly where they are given.
pub proof fn law_the_request_says_what_is_wanted(
    mode: RecognitionMode,
    language: Seq<char>,
    context: Option<Seq<char>>,
    end_window_ms: Option<u64>,
    force_to_speech_ms: Option<u64>,
)
    ensures
        benchmark_tree(
            mode,
            language,
            context,
            end_window_ms,
            force_to_speech_ms,
        ).get("request"@) matches Some(request) && {
            &&& request.get("enable_itn"@) == Some(JsonTree::Bool(true))
            &&& request.get("enable_punc"@) == Some(JsonTree::Bool(true))
            &&& request.get("show_utterances"@) == Some(JsonTree::Bool(true))
            &&& request.get("enable_ddc"@) == Some(JsonTree::Bool(false))
            &&& request.get("result_type"@) == Some(JsonTree::Text("full"@))
            &&& request.get("model_name"@) == Some(JsonTree::Text("bigmodel"@))
            &&& mode is Current ==> request.get("enable_nonstream"@) == Some(JsonTree::Bool(true))
            &&& mode is Nostream ==> request.get("enable_nonstream"@) is None && request.get(
                "end_window_size"@,
            ) is None && request.get("force_to_speech_time"@) is None
            &&& mode is Current && end_window_ms is Some ==> request.get("end_window_size"@)
                == Some(JsonTree::Number(whole_number(end_window_ms->0)))
            &&& mode is Current && end_window_ms is None ==> request.get("end_window_size"@)
                == Some(JsonTree::Number(whole_number(400)))
            &&& mode is Current && force_to_speech_ms is Some ==> request.get(
                "force_to_speech_time"@,
            ) == Some(JsonTree::Number(whole_number(force_to_speech_ms->0)))
            &&& force_to_speech_ms is None ==> request.get("force_to_speech_time"@) is None
            &&& context is None ==> request.get("corpus"@) is None
            &&& context is Some ==> (request.get("corpus"@) matches Some(corpus) && corpus.get(
                "context"@,
            ) == Some(JsonTree::Text(context->0)))
        },
{
    lemma_member_names();
}

/// The request of a benchmark announces raw 16-bit mono audio at 16 kHz, and its language in
/// the mode without a stream alone, where one is given.
pub proof fn law_the_request_announces_the_audio(
    mode: RecognitionMode,
    language: Seq<char>,
    context: Option<Seq<char>>,
    end_window_ms: Option<u64>,
    force_to_speech_ms: Option<u64>,
)
    ensures
        ({
            let tree = benchmark_tree(mode, language, context, end_window_ms, force_to_speech_ms);
            &&& tree.get("audio"@) matches Some(audio) && {
                &&& audio.get("format"@) == Some(JsonTree::Text("pcm"@))
                &&& audio.get("codec"@) == Some(JsonTree::Text("raw"@))
                &&& audio.get("rate"@) == Some(JsonTree::Number(whole_number(16_000)))
                &&& audio.get("bits"@) == Some(JsonTree::Number(whole_number(16)))
                &&& audio.get("channel"@) == Some(JsonTree::Number(whole_number(1)))
                &&& audio.get("language"@) == if mode is Nostream && language.len() > 0 {
                    Some(JsonTree::Text(language))
                } else {
                    None
                }
            }
            &&& tree.get("user"@) matches Some(user) && user.get("uid"@) == Some(
                JsonTree::Text("voice-flow-benchmark"@),
            )
        }),
{
    lemma_member_names();
}

/// The expected words are listed in order, each as it is.
pub proof fn law_expected_words_are_listed(hotwords: Seq<Seq<char>>)
    ensures
        hotword_tree(hotwords).get("hotwords"@) matches Some(JsonTree::Array(items)) && {
            &&& items.len() == hotwords.len()
            &&& forall|i: int|
                0 <= i < items.len() ==> (#[trigger] items[i]).get("word"@) == Some(
                    JsonTree::Text(hotwords[i]),
                )
        },
        hotwords.len() == 0 ==> hotword_context(hotwords) == Some(None::<Seq<char>>),
        hotwords.len() > 0 ==> hotword_context(hotwords) != Some(None::<Seq<char>>),
{
    let items = Seq::new(
        hotwords.len(),
        |i: int| JsonTree::Object(map!["word"@ => JsonTree::Text(hotwords[i])]),
    );
    assert(hotword_tree(hotwords).get("hotwords"@) == Some(JsonTree::Array(items)));
}

/// The key in the settings is a text with more than blanks, taken without the blanks around it;
/// anything else is none.
pub proof fn law_stored_keys(settings: JsonTree, key: Seq<char>)
    ensures
        settings.get("secret_key"@) == Some(JsonTree::Text(key)) && trimmed(key).len() > 0
            ==> stored_key(settings) == Some(trimmed(key)),
        settings.get("secret_key"@) == Some(JsonTree::Text(key)) && trimmed(key).len() == 0
            ==> stored_key(settings) is None,
        settings.get("secret_key"@) is None ==> stored_key(settings) is None,
        stored_key(settings) is Some ==> (settings.get("secret_key"@) matches Some(member)
            && member is Text),
{
}

proof fn lemma_decimal_reads_back(value: nat)
    requires
        value <= u64::MAX,
    ensures
        digits_value(decimal_digits(value)) == Some(value as u64),
        decimal_digits(value).len() > 0,
        decimal_digits(value)[0] != '+',
    decreases value,
{
    law_decimal_digits(value, 0);
    let digits = decimal_digits(value);
    assert('0' <= digits[0] <= '9');
    if value < 10 {
        reveal_with_fuel(digits_value, 2);
        assert(digits.drop_last() =~= Seq::empty());
    } else {
        lemma_decimal_reads_back(value / 10);
        assert(digits.drop_last() =~= decimal_digits(value / 10));
    }
}

/// A number that is written in decimal is read as the same number, with or without a plus sign
/// before it.
pub proof fn law_numbers_read_back(value: u64)
    ensures
        integer_value(decimal_digits(value as nat)) == Some(value),
        integer_value(seq!['+'] + decimal_digits(value as nat)) == Some(value),
{
    lemma_decimal_reads_back(value as nat);
    let signed = seq!['+'] + decimal_digits(value as nat);
    assert(signed.skip(1) =~= decimal_digits(value as nat));
}

/// A digit behind a number counts its value besides ten times the number, as long as that fits;
/// anything else behind a number makes it none, and what is no number does not become one.
pub proof fn law_digits_count_ten_times(digits: Seq<char>, c: char)
    ensures
        digits_value(digits.push(c)) == match digits_value(digits) {
            Some(front) => if '0' <= c <= '9' && front * 10 + (c as u32 - 48) <= u64::MAX {
                Some((front * 10 + (c as u32 - 48)) as u64)
            } else {
                None
            },
            None => None,
        },
        digits_value(Seq::empty()) == Some(0u64),
{
    assert(digits.push(c).drop_last() =~= digits);
}

/// A text is a number exactly when it is one without the plus sign that it may begin with;
/// without a digit it is none.
pub proof fn law_one_plus_sign_is_allowed(text: Seq<char>)
    ensures
        text.len() > 0 && text[0] != '+' ==> integer_value(text) == digits_value(text),
        text.len() > 0 ==> integer_value(seq!['+'] + text) == digits_value(text),
        integer_value(Seq::empty()) is None,
        integer_value(seq!['+']) is None,
{
    assert((seq!['+'] + text).skip(1) =~= text);
    assert(seq!['+'].skip(1) =~= Seq::empty());
}

/// An option sets what it is for and leaves all else: a mode by its name, another expected word
/// without blanks around it, a pause of at least 200 ms, a forced start of at least 1 ms. A
/// value that cannot be taken is told, and a later value replaces an earlier one.
pub proof fn law_options_set_their_own(cli: CliView, option: CliOption, value: Seq<char>)
    ensures
        with_option(cli, option, None) == Err::<CliView, CliErrorView>(
            CliErrorView::NotUtf8(option),
        ),
        with_option(cli, option, Some(value)) matches Ok(next) ==> {
            &&& next.input == cli.input
            &&& !(option is Mode) ==> next.mode == cli.mode
            &&& !(option is Hotword) ==> next.hotwords == cli.hotwords
            &&& !(option is EndWindow) ==> next.end_window_ms == cli.end_window_ms
            &&& !(option is ForceToSpeech) ==> next.force_to_speech_ms == cli.force_to_speech_ms
            &&& option is Hotword ==> next.hotwords == cli.hotwords.push(trimmed(value))
                && trimmed(value).len() > 0
            &&& option is EndWindow ==> next.end_window_ms == integer_value(value)
                && next.end_window_ms is Some && next.end_window_ms->0 >= 200
            &&& option is ForceToSpeech ==> next.force_to_speech_ms == integer_value(value)
                && next.force_to_speech_ms is Some && next.force_to_speech_ms->0 >= 1
            &&& option is Mode && value != "all"@ ==> next.mode is Some && value
                == next.mode->0.spec_name()
            &&& option is Mode && value == "all"@ ==> next.mode == cli.mode
        },
        option is Mode ==> (with_option(cli, option, Some(value)) is Ok <==> value == "all"@
            || value == "current"@ || value == "nostream"@),
        option is Hotword ==> (with_option(cli, option, Some(value)) is Ok <==> trimmed(value).len()
            > 0),
        option is EndWindow ==> (with_option(cli, option, Some(value)) is Ok <==> integer_value(
            value,
        ) is Some && integer_value(value)->0 >= 200),
        option is ForceToSpeech ==> (with_option(cli, option, Some(value)) is Ok <==> integer_value(
            value,
        ) is Some && integer_value(value)->0 >= 1),
        option is Mode && with_option(cli, option, Some(value)) is Err ==> with_option(
            cli,
            option,
            Some(value),
        ) == Err::<CliView, CliErrorView>(CliErrorView::UnknownMode(value)),
        option is Hotword && with_option(cli, option, Some(value)) is Err ==> with_option(
            cli,
            option,
            Some(value),
        ) == Err::<CliView, CliErrorView>(CliErrorView::EmptyHotword),
        (option is EndWindow || option is ForceToSpeech) && integer_value(value) is None
            ==> with_option(cli, option, Some(value)) == Err::<CliView, CliErrorView>(
            CliErrorView::NotAnInteger(option),
        ),
        option is EndWindow && integer_value(value) is Some && integer_value(value)->0 < 200
            ==> with_option(cli, option, Some(value)) == Err::<CliView, CliErrorView>(
            CliErrorView::EndWindowTooShort,
        ),
        option is ForceToSpeech && integer_value(value) == Some(0u64) ==> with_option(
            cli,
            option,
            Some(value),
        ) == Err::<CliView, CliErrorView>(CliErrorView::ForceToSpeechTooShort),
{
}

proof fn lemma_arguments_go_on(
    cli: CliView,
    arguments: Seq<Option<Seq<char>>>,
    more: Seq<Option<Seq<char>>>,
    from: int,
)
    requires
        0 <= from <= arguments.len(),
    ensures
        with_arguments(cli, arguments, from) matches Ok(read) ==> with_arguments(
            cli,
            arguments + more,
            from,
        ) == with_arguments(read, arguments + more, arguments.len() as int),
        with_arguments(cli, arguments, from) matches Err(error) ==> !(error is MissingValue)
            ==> with_arguments(cli, arguments + more, from) == Err::<CliView, CliErrorView>(error),
    decreases arguments.len() - from,
{
    let all = arguments + more;
    if from < arguments.len() {
        assert(all[from] == arguments[from]);
        if arguments[from] != Some("--help"@) && arguments[from] != Some("-h"@) {
            match option_named(arguments[from]) {
                Some(option) => {
                    if from + 1 < arguments.len() {
                        assert(all[from + 1] == arguments[from + 1]);
                        if let Ok(next) = with_option(cli, option, arguments[from + 1]) {
                            lemma_arguments_go_on(next, arguments, more, from + 2);
                        }
                    }
                },
                None => {
                    if cli.input is None {
                        lemma_arguments_go_on(
                            CliView { input: Some(from), ..cli },
                            arguments,
                            more,
                            from + 1,
                        );
                    }
                },
            }
        }
    }
}

/// An option that is put behind arguments which could be read sets what it is for, as if the
/// others had been given alone; without its value it is incomplete.
pub proof fn law_a_further_option_is_read(
    cli: CliView,
    arguments: Seq<Option<Seq<char>>>,
    read: CliView,
    option: CliOption,
    value: Option<Seq<char>>,
)
    requires
        with_arguments(cli, arguments, 0) == Ok::<CliView, CliErrorView>(read),
    ensures
        with_arguments(cli, arguments + seq![Some(option.spec_name()), value], 0) == with_option(
            read,
            option,
            value,
        ),
        with_arguments(cli, arguments.push(Some(option.spec_name())), 0) == Err::<
            CliView,
            CliErrorView,
        >(CliErrorView::MissingValue(option)),
{
    lemma_option_names();
    let name = Some(option.spec_name());
    let both = seq![name, value];
    let count = arguments.len() as int;
    lemma_arguments_go_on(cli, arguments, both, 0);
    let all = arguments + both;
    assert(all[count] == name && all[count + 1] == value);
    reveal_with_fuel(with_arguments, 2);
    lemma_arguments_go_on(cli, arguments, seq![name], 0);
    assert(arguments + seq![name] =~= arguments.push(name));
    assert(arguments.push(name)[count] == name);
}

/// What tells the options apart.
proof fn lemma_option_names()
    ensures
        "--mode"@.len() == 6,
        "--hotword"@.len() == 9,
        "--end-window-ms"@.len() == 15,
        "--force-to-speech-ms"@.len() == 20,
        "--help"@.len() == 6,
        "--help"@[2] == 'h',
        "--mode"@[2] == 'm',
        "-h"@.len() == 2,
{
    reveal_strlit("--mode");
    reveal_strlit("--hotword");
    reveal_strlit("--end-window-ms");
    reveal_strlit("--force-to-speech-ms");
    reveal_strlit("--help");
    reveal_strlit("-h");
}

/// An argument that is no option is the input, by its place; a second one is refused. A request
/// for help ends the reading.
pub proof fn law_a_further_input_is_read(
    cli: CliView,
    arguments: Seq<Option<Seq<char>>>,
    read: CliView,
    argument: Option<Seq<char>>,
)
    requires
        with_arguments(cli, arguments, 0) == Ok::<CliView, CliErrorView>(read),
    ensures
        ({
            let help = argument == Some("--help"@) || argument == Some("-h"@);
            let all = arguments.push(argument);
            &&& help ==> with_arguments(cli, all, 0) == Err::<CliView, CliErrorView>(
                CliErrorView::Help,
            )
            &&& !help && option_named(argument) is None && read.input is None
                ==> with_arguments(cli, all, 0) == Ok::<CliView, CliErrorView>(
                CliView { input: Some(arguments.len() as int), ..read },
            )
            &&& !help && option_named(argument) is None && read.input is Some
                ==> with_arguments(cli, all, 0) == Err::<CliView, CliErrorView>(
                CliErrorView::SecondInput,
            )
        }),
{
    let count = arguments.len() as int;
    lemma_arguments_go_on(cli, arguments, seq![argument], 0);
    let all = arguments.push(argument);
    assert(arguments + seq![argument] =~= all);
    assert(all[count] == argument);
    reveal_with_fuel(with_arguments, 2);
}

/// What is wrong with some arguments is told whatever stands behind them, except that the value
/// of a last option may still come.
pub proof fn law_the_first_wrong_argument_is_told(
    arguments: Seq<Option<Seq<char>>>,
    more: Seq<Option<Seq<char>>>,
    error: CliErrorView,
)
    requires
        command_line(arguments) == Err::<CliView, CliErrorView>(error),
        !(error is MissingValue || error is MissingInput || error is ForceWithoutEndWindow),
    ensures
        command_line(arguments + more) == Err::<CliView, CliErrorView>(error),
{
    let start = CliView {
        input: None,
        mode: None,
        hotwords: Seq::empty(),
        end_window_ms: None,
        force_to_speech_ms: None,
    };
    lemma_arguments_go_on(start, arguments, more, 0);
}

/// Whether a command line that is read so far holds only what an option may set.
spec fn sensible(cli: CliView, count: int) -> bool {
    &&& cli.input matches Some(place) ==> 0 <= place < count
    &&& cli.end_window_ms matches Some(value) ==> value >= 200
    &&& cli.force_to_speech_ms matches Some(value) ==> value >= 1
    &&& forall|i: int| 0 <= i < cli.hotwords.len() ==> (#[trigger] cli.hotwords[i]).len() > 0
}

proof fn lemma_arguments_stay_sensible(
    cli: CliView,
    arguments: Seq<Option<Seq<char>>>,
    from: int,
)
    requires
        sensible(cli, arguments.len() as int),
        0 <= from,
    ensures
        with_arguments(cli, arguments, from) matches Ok(read) ==> sensible(
            read,
            arguments.len() as int,
        ),
    decreases arguments.len() - from,
{
    if from < arguments.len() {
        match option_named(arguments[from]) {
            Some(option) => {
                if from + 1 < arguments.len() {
                    if let Ok(next) = with_option(cli, option, arguments[from + 1]) {
                        assert(sensible(next, arguments.len() as int));
                        lemma_arguments_stay_sensible(next, arguments, from + 2);
                    }
                }
            },
            None => {
                if cli.input is None {
                    lemma_arguments_stay_sensible(
                        CliView { input: Some(from), ..cli },
                        arguments,
                        from + 1,
                    );
                }
            },
        }
    }
}

/// A command line that is accepted names an input among its arguments, no pause under 200 ms, no
/// forced start of 0 ms or without a pause, and no empty word.
pub proof fn law_accepted_arguments_are_sensible(arguments: Seq<Option<Seq<char>>>)
    ensures
        command_line(arguments) matches Ok(cli) ==> {
            &&& cli.input matches Some(place) && 0 <= place < arguments.len()
            &&& cli.end_window_ms matches Some(value) ==> value >= 200
            &&& cli.force_to_speech_ms matches Some(value) ==> value >= 1
            &&& cli.force_to_speech_ms is Some ==> cli.end_window_ms is Some
            &&& forall|i: int|
                0 <= i < cli.hotwords.len() ==> (#[trigger] cli.hotwords[i]).len() > 0
        },
{
    let start = CliView {
        input: None,
        mode: None,
        hotwords: Seq::empty(),
        end_window_ms: None,
        force_to_speech_ms: None,
    };
    lemma_arguments_stay_sensible(start, arguments, 0);
}

/// The user is told which option lacks its value or has a wrong one, by its name, and which mode
/// is unknown.
pub proof fn law_argument_errors_tell_their_cause(
    option: CliOption,
    mode: Seq<char>,
    quoted_mode: Seq<char>,
)
    ensures
        CliErrorView::MissingValue(option).message(quoted_mode) == option.spec_name()
            + " requires a value"@,
        CliErrorView::NotUtf8(option).message(quoted_mode) == option.spec_name()
            + " must be valid UTF-8"@,
        CliErrorView::NotAnInteger(option).message(quoted_mode) == option.spec_name()
            + " must be an integer"@,
        CliErrorView::UnknownMode(mode).message(quoted_mode) == "unknown mode "@ + quoted_mode
            + "; expected current, nostream, or all"@,
        option_named(Some(option.spec_name())) == Some(option),
{
    lemma_option_names();
}

} // verus!
