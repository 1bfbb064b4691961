//! Reading the clipboard through a helper process with a bounded lifetime.

use vstd::prelude::*;

use crate::bytes::{decimal_digits, natural_text};
use crate::platform::optional_text;

verus! {

pub const READ_HELPER_ARGUMENT: &'static str = "--clipboard-read-helper";

pub const COMMAND_TIMEOUT_MS: u64 = 500;

pub const POLL_DELAY_MS: u64 = 5;

/// What the clipboard gave to the helper.
#[derive(Debug)]
pub enum ClipboardContents {
    Text(String),
    /// The clipboard holds no text.
    Nothing,
    OpenFailed(String),
    ReadFailed(String),
}

/// A [`ClipboardContents`] with its text as a sequence of characters.
pub enum ContentsView {
    Text(Seq<char>),
    Nothing,
    OpenFailed(Seq<char>),
    ReadFailed(Seq<char>),
}

impl View for ClipboardContents {
    type V = ContentsView;

    open spec fn view(&self) -> ContentsView {
        match *self {
            ClipboardContents::Text(text) => ContentsView::Text(text@),
            ClipboardContents::Nothing => ContentsView::Nothing,
            ClipboardContents::OpenFailed(error) => ContentsView::OpenFailed(error@),
            ClipboardContents::ReadFailed(error) => ContentsView::ReadFailed(error@),
        }
    }
}

/// What the helper answers: the text of the clipboard, if it holds any, or why it could not
/// be read.
pub open spec fn response_view(response: Result<Option<String>, String>) -> Result<
    Option<Seq<char>>,
    Seq<char>,
> {
    match response {
        Ok(text) => Ok(optional_text(text)),
        Err(error) => Err(error@),
    }
}

/// What the helper answers.
pub open spec fn answer(contents: ContentsView) -> Result<Option<Seq<char>>, Seq<char>> {
    match contents {
        ContentsView::Text(text) => Ok(Some(text)),
        ContentsView::Nothing => Ok(None),
        ContentsView::OpenFailed(error) => Err(
            "failed to open the native Linux clipboard: "@ + error,
        ),
        ContentsView::ReadFailed(error) => Err(
            "failed to read the native Linux clipboard: "@ + error,
        ),
    }
}

/// What the helper answers.
pub fn helper_answer(contents: ClipboardContents) -> (result: Result<Option<String>, String>)
    ensures
        response_view(result) == answer(contents@),
{
    match contents {
        ClipboardContents::Text(text) => Ok(Some(text)),
        ClipboardContents::Nothing => Ok(None),
        ClipboardContents::OpenFailed(error) => {
            let mut message = "failed to open the native Linux clipboard: ".to_owned();
            message.append(error.as_str());
            Err(message)
        },
        ClipboardContents::ReadFailed(error) => {
            let mut message = "failed to read the native Linux clipboard: ".to_owned();
            message.append(error.as_str());
            Err(message)
        },
    }
}

/// The JSON text that `serde_json` writes for an answer, if it writes one.
pub uninterp spec fn answer_bytes(answer: Result<Option<Seq<char>>, Seq<char>>) -> Option<Seq<u8>>;

/// The answer that `serde_json` reads in a text, if the text is one.
pub uninterp spec fn read_answer(bytes: Seq<u8>) -> Option<Result<Option<Seq<char>>, Seq<char>>>;

/// Calls `serde_json::to_vec` on an answer. Whether it can be written, and its bytes, depend
/// on the answer alone and are named by [`answer_bytes`]; `serde_json::from_slice` reads the
/// answer back from the bytes.
#[verifier::external_body]
fn answer_to_vec(answer: &Result<Option<String>, String>) -> (result: Result<
    Vec<u8>,
    serde_json::Error,
>)
    ensures
        match result {
            Ok(bytes) => answer_bytes(response_view(*answer)) == Some(bytes@) && read_answer(bytes@)
                == Some(response_view(*answer)),
            Err(_) => answer_bytes(response_view(*answer)) is None,
        },
{
    serde_json::to_vec(answer)
}

/// Calls `serde_json::from_slice` for an answer. Whether the bytes are one, and which,
/// depends on them alone and is named by [`read_answer`].
#[verifier::external_body]
fn answer_from_slice(bytes: &[u8]) -> (result: Result<
    Result<Option<String>, String>,
    serde_json::Error,
>)
    ensures
        match result {
            Ok(answer) => read_answer(bytes@) == Some(response_view(answer)),
            Err(_) => read_answer(bytes@) is None,
        },
{
    serde_json::from_slice(bytes)
}

/// Why the clipboard could not be read.
#[derive(Debug)]
pub enum ReadError {
    /// The helper process failed.
    Process,
    /// The helper printed something else than an answer.
    InvalidAnswer,
    /// The helper could not read the clipboard.
    Helper(String),
}

/// A [`ReadError`] with its text as a sequence of characters.
pub enum ReadErrorView {
    Process,
    InvalidAnswer,
    Helper(Seq<char>),
}

impl View for ReadError {
    type V = ReadErrorView;

    open spec fn view(&self) -> ReadErrorView {
        match *self {
            ReadError::Process => ReadErrorView::Process,
            ReadError::InvalidAnswer => ReadErrorView::InvalidAnswer,
            ReadError::Helper(error) => ReadErrorView::Helper(error@),
        }
    }
}

impl ReadErrorView {
    pub open spec fn message(self) -> Seq<char> {
        match self {
            ReadErrorView::Process => "native clipboard read failed"@,
            ReadErrorView::InvalidAnswer => "invalid response from the clipboard read helper"@,
            ReadErrorView::Helper(error) => error,
        }
    }
}

impl ReadError {
    /// What is reported.
    pub fn message(&self) -> (result: String)
        ensures
            result@ == self@.message(),
    {
        match self {
            ReadError::Process => "native clipboard read failed".to_owned(),
            ReadError::InvalidAnswer =>
                "invalid response from the clipboard read helper".to_owned(),
            ReadError::Helper(error) => error.clone(),
        }
    }
}

/// The text of the clipboard, given what the helper process printed and what was read in
/// that.
pub open spec fn read_result(
    output: Option<Seq<u8>>,
    answer: Option<Result<Option<Seq<char>>, Seq<char>>>,
) -> Result<Option<Seq<char>>, ReadErrorView> {
    match (output, answer) {
        (None, _) => Err(ReadErrorView::Process),
        (Some(_), None) => Err(ReadErrorView::InvalidAnswer),
        (Some(_), Some(Err(error))) => Err(ReadErrorView::Helper(error)),
        (Some(_), Some(Ok(text))) => Ok(text),
    }
}

/// The text of the clipboard, given the answer that was read, if any was.
pub fn text_in_answer(answer: Option<Result<Option<String>, String>>) -> (result: Result<
    Option<String>,
    ReadError,
>)
    ensures
        match (answer, result) {
            (Some(Ok(text)), Ok(found)) => optional_text(found) == optional_text(text),
            (Some(Err(message)), Err(error)) => error@ == ReadErrorView::Helper(message@),
            (None, Err(error)) => error@ == ReadErrorView::InvalidAnswer,
            _ => false,
        },
{
    match answer {
        None => Err(ReadError::InvalidAnswer),
        Some(Err(error)) => Err(ReadError::Helper(error)),
        Some(Ok(text)) => Ok(text),
    }
}

/// The text of the clipboard, given what the helper process printed; `None` where the
/// process failed.
pub fn read_text(output: Option<Vec<u8>>) -> (result: Result<Option<String>, ReadError>)
    ensures
        ({
            let bytes = match output {
                Some(bytes) => Some(bytes@),
                None => None,
            };
            let answer = match output {
                Some(bytes) => read_answer(bytes@),
                None => None,
            };
            match result {
                Ok(text) => read_result(bytes, answer) == Ok::<Option<Seq<char>>, ReadErrorView>(
                    optional_text(text),
                ),
                Err(error) => read_result(bytes, answer) == Err::<
                    Option<Seq<char>>,
                    ReadErrorView,
                >(error@),
            }
        }),
{
    match output {
        None => Err(ReadError::Process),
        Some(bytes) => {
            let answer = match answer_from_slice(bytes.as_slice()) {
                Ok(answer) => Some(answer),
                Err(_) => None,
            };
            text_in_answer(answer)
        },
    }
}

/// What the program reads of what the clipboard gave to the helper: the same text, or why
/// there is none.
pub open spec fn read_back(contents: ContentsView) -> Result<Option<Seq<char>>, ReadErrorView> {
    match answer(contents) {
        Ok(text) => Ok(text),
        Err(error) => Err(ReadErrorView::Helper(error)),
    }
}

/// What the helper prints, given what the clipboard gave to it. The program reads in it what
/// the clipboard gave.
pub fn run_read_helper(contents: ClipboardContents) -> (result: Option<Vec<u8>>)
    ensures
        match result {
            Some(bytes) => answer_bytes(answer(contents@)) == Some(bytes@) && read_result(
                Some(bytes@),
                read_answer(bytes@),
            ) == read_back(contents@),
            None => answer_bytes(answer(contents@)) is None,
        },
{
    let response = helper_answer(contents);
    match answer_to_vec(&response) {
        Ok(bytes) => Some(bytes),
        Err(_) => None,
    }
}

/// What is known of a process.
#[derive(Clone, Copy, Debug, PartialEq, Eq, Structural)]
pub enum ProcessState {
    Running,
    Exited,
    Unknown,
}

/// What is done about a process that is waited for.
#[derive(Clone, Copy, Debug, PartialEq, Eq, Structural)]
pub enum WaitDecision {
    /// It has ended.
    Done,
    /// Its state cannot be told: it is stopped, and the error reported.
    Abandon,
    /// It takes too long: it is stopped, and the timeout reported.
    TimedOut,
    /// Look again after [`POLL_DELAY_MS`].
    Poll,
}

/// What is done about a process that is waited for.
pub fn wait_decision(state: ProcessState, elapsed_ms: u64, timeout_ms: u64) -> (result: WaitDecision)
    ensures
        result == match state {
            ProcessState::Exited => WaitDecision::Done,
            ProcessState::Unknown => WaitDecision::Abandon,
            ProcessState::Running => if elapsed_ms >= timeout_ms {
                WaitDecision::TimedOut
            } else {
                WaitDecision::Poll
            },
        },
{
    match state {
        ProcessState::Exited => WaitDecision::Done,
        ProcessState::Unknown => WaitDecision::Abandon,
        ProcessState::Running => if elapsed_ms >= timeout_ms {
            WaitDecision::TimedOut
        } else {
            WaitDecision::Poll
        },
    }
}

/// What is reported about a process that takes too long.
pub fn timeout_message(timeout_ms: u64) -> (result: String)
    ensures
        result@ == "clipboard command timed out after "@ + decimal_digits(timeout_ms as nat)
            + " ms"@,
{
    let mut message = "clipboard command timed out after ".to_owned();
    message.append(natural_text(timeout_ms).as_str());
    message.append(" ms");
    message
}

/// What is done about a process that is being written to.
pub fn input_decision(written: bool, elapsed_ms: u64) -> (result: WaitDecision)
    ensures
        result == if written {
            WaitDecision::Done
        } else if elapsed_ms < COMMAND_TIMEOUT_MS {
            WaitDecision::Poll
        } else {
            WaitDecision::TimedOut
        },
{
    if written {
        WaitDecision::Done
    } else if elapsed_ms < COMMAND_TIMEOUT_MS {
        WaitDecision::Poll
    } else {
        WaitDecision::TimedOut
    }
}

/// What is reported about a process that does not read its input.
pub fn input_timeout_message() -> (result: String)
    ensures
        result@ == "clipboard command did not read its input within "@ + decimal_digits(
            COMMAND_TIMEOUT_MS as nat,
        ) + " ms"@,
{
    let mut message = "clipboard command did not read its input within ".to_owned();
    message.append(natural_text(COMMAND_TIMEOUT_MS).as_str());
    message.append(" ms");
    message
}

/// How a process ended.
#[derive(Debug)]
pub struct ProcessExit {
    pub success: bool,
    pub status: String,
}

/// What a reader process came to: its output, which counts only where the output was
/// collected, the process ended in time, and it ended well.
pub fn reader_outcome(
    collector_panicked: bool,
    completion: Result<ProcessExit, String>,
    output: Option<Vec<u8>>,
) -> (result: Result<Vec<u8>, String>)
    ensures
        match result {
            Ok(bytes) => !collector_panicked && (completion matches Ok(exit) && exit.success)
                && (output matches Some(collected) && collected@ == bytes@),
            Err(error) => if collector_panicked {
                error@ == "clipboard reader panicked"@
            } else {
                match completion {
                    Err(cause) => error@ == cause@,
                    Ok(exit) => if !exit.success {
                        error@ == "clipboard reader exited with status "@ + exit.status@
                    } else {
                        output is None && error@
                            == "failed to collect the clipboard reader response"@
                    },
                }
            },
        },
{
    if collector_panicked {
        return Err("clipboard reader panicked".to_owned());
    }
    match completion {
        Err(cause) => Err(cause),
        Ok(exit) => {
            if !exit.success {
                let mut message = "clipboard reader exited with status ".to_owned();
                message.append(exit.status.as_str());
                return Err(message);
            }
            match output {
                Some(bytes) => Ok(bytes),
                None => Err("failed to collect the clipboard reader response".to_owned()),
            }
        },
    }
}

/// The text of the clipboard comes through the helper as it is, be it empty or long; no text
/// comes through as none, and a failure as an error that tells its cause.
pub proof fn law_clipboard_texts_come_through(text: Seq<char>)
    ensures
        answer(ContentsView::Text(text)) == Ok::<Option<Seq<char>>, Seq<char>>(Some(text)),
        answer(ContentsView::Nothing) == Ok::<Option<Seq<char>>, Seq<char>>(None),
        answer(ContentsView::OpenFailed(text)) == Err::<Option<Seq<char>>, Seq<char>>(
            "failed to open the native Linux clipboard: "@ + text,
        ),
        answer(ContentsView::ReadFailed(text)) == Err::<Option<Seq<char>>, Seq<char>>(
            "failed to read the native Linux clipboard: "@ + text,
        ),
        read_back(ContentsView::Text(text)) == Ok::<Option<Seq<char>>, ReadErrorView>(Some(text)),
        read_back(ContentsView::Nothing) == Ok::<Option<Seq<char>>, ReadErrorView>(None),
        read_back(ContentsView::OpenFailed(text)) == Err::<Option<Seq<char>>, ReadErrorView>(
            ReadErrorView::Helper("failed to open the native Linux clipboard: "@ + text),
        ),
        read_back(ContentsView::ReadFailed(text)) == Err::<Option<Seq<char>>, ReadErrorView>(
            ReadErrorView::Helper("failed to read the native Linux clipboard: "@ + text),
        ),
{
}

/// The clipboard is read exactly when the helper has printed an answer that holds no error;
/// without a helper it makes no difference what could be read.
pub proof fn law_only_answers_are_read(
    output: Option<Seq<u8>>,
    answer: Option<Result<Option<Seq<char>>, Seq<char>>>,
    text: Option<Seq<char>>,
    error: Seq<char>,
)
    ensures
        read_result(output, answer) == Ok::<Option<Seq<char>>, ReadErrorView>(text) <==> output
            is Some && answer == Some(Ok::<Option<Seq<char>>, Seq<char>>(text)),
        read_result(output, answer) == Err::<Option<Seq<char>>, ReadErrorView>(
            ReadErrorView::Helper(error),
        ) <==> output is Some && answer == Some(Err::<Option<Seq<char>>, Seq<char>>(error)),
        read_result(output, answer) == Err::<Option<Seq<char>>, ReadErrorView>(
            ReadErrorView::InvalidAnswer,
        ) <==> output is Some && answer is None,
        read_result(output, answer) == Err::<Option<Seq<char>>, ReadErrorView>(
            ReadErrorView::Process,
        ) <==> output is None,
{
}

} // verus!
