//! Microphones and the audio that they record.

use vstd::prelude::*;

use crate::text::same_text;

verus! {

pub const TARGET_SAMPLE_RATE: u32 = 16_000;

/// A microphone that the user can choose.
#[derive(Debug)]
pub struct Microphone {
    pub id: String,
    pub name: String,
    pub is_default: bool,
}

/// A [`Microphone`] with its texts as sequences of characters.
pub struct MicrophoneView {
    pub id: Seq<char>,
    pub name: Seq<char>,
    pub is_default: bool,
}

impl View for Microphone {
    type V = MicrophoneView;

    open spec fn view(&self) -> MicrophoneView {
        MicrophoneView { id: self.id@, name: self.name@, is_default: self.is_default }
    }
}

/// A name that may be missing, as a sequence of characters.
pub open spec fn name_view(name: Option<String>) -> Option<Seq<char>> {
    match name {
        Some(name) => Some(name@),
        None => None,
    }
}

/// A list of names that may be missing, as sequences of characters.
pub open spec fn name_views(names: Seq<Option<String>>) -> Seq<Option<Seq<char>>> {
    Seq::new(names.len(), |i: int| name_view(names[i]))
}

/// A list of microphones, each by its view.
pub open spec fn microphone_views(microphones: Seq<Microphone>) -> Seq<MicrophoneView> {
    Seq::new(microphones.len(), |i: int| microphones[i]@)
}

/// The microphones that are offered: the devices whose name is known, in their order.
pub open spec fn offered(
    devices: Seq<Option<Seq<char>>>,
    default_name: Option<Seq<char>>,
) -> Seq<MicrophoneView>
    decreases devices.len(),
{
    if devices.len() == 0 {
        Seq::empty()
    } else {
        let front = offered(devices.drop_last(), default_name);
        match devices.last() {
            Some(name) => front.push(
                MicrophoneView { id: name, name, is_default: default_name == Some(name) },
            ),
            None => front,
        }
    }
}

fn is_name(name: &Option<String>, text: &str) -> (result: bool)
    ensures
        result == (name_view(*name) == Some(text@)),
{
    match name {
        Some(name) => same_text(name.as_str(), text),
        None => false,
    }
}

/// The microphones that are offered, given the names of the input devices and of the
/// default one as far as they are known.
pub fn list_microphones(
    devices: &Vec<Option<String>>,
    default_name: &Option<String>,
) -> (result: Vec<Microphone>)
    ensures
        microphone_views(result@) == offered(name_views(devices@), name_view(*default_name)),
{
    let mut result: Vec<Microphone> = Vec::new();
    let ghost names = name_views(devices@);
    let mut i: usize = 0;
    proof {
        assert(names.take(0) =~= Seq::empty());
        assert(microphone_views(result@) =~= Seq::empty());
    }
    while i < devices.len()
        invariant
            i <= devices@.len(),
            names == name_views(devices@),
            microphone_views(result@) == offered(
                names.take(i as int),
                name_view(*default_name),
            ),
        decreases devices@.len() - i,
    {
        let ghost before = result@;
        proof {
            assert(names.take(i + 1).drop_last() =~= names.take(i as int));
            assert(names.take(i + 1).last() == name_view(devices@[i as int]));
        }
        if let Some(name) = &devices[i] {
            result.push(
                Microphone {
                    id: name.clone(),
                    is_default: is_name(default_name, name.as_str()),
                    name: name.clone(),
                },
            );
            proof {
                assert(microphone_views(result@) =~= microphone_views(before).push(
                    result@.last()@,
                ));
            }
        }
        i += 1;
    }
    proof {
        assert(names.take(names.len() as int) =~= names);
    }
    result
}

/// A piece of recorded audio.
#[derive(Debug)]
pub struct AudioChunk {
    pub samples: Vec<i16>,
}

/// What a microphone reports.
#[derive(Debug)]
pub enum AudioEvent {
    Data(AudioChunk),
    Error(String),
}

/// An [`AudioEvent`] as plain sequences.
pub enum AudioEventView {
    Data(Seq<i16>),
    Error(Seq<char>),
}

impl View for AudioEvent {
    type V = AudioEventView;

    open spec fn view(&self) -> AudioEventView {
        match *self {
            AudioEvent::Data(chunk) => AudioEventView::Data(chunk.samples@),
            AudioEvent::Error(error) => AudioEventView::Error(error@),
        }
    }
}

/// Why a microphone cannot be opened.
#[derive(Debug)]
pub enum AudioError {
    NoDefault,
    NotAvailable(String),
    InvalidFormat,
    UnsupportedSampleFormat(String),
}

/// An [`AudioError`] with its text as a sequence of characters.
pub enum AudioErrorView {
    NoDefault,
    NotAvailable(Seq<char>),
    InvalidFormat,
    UnsupportedSampleFormat(Seq<char>),
}

impl View for AudioError {
    type V = AudioErrorView;

    open spec fn view(&self) -> AudioErrorView {
        match *self {
            AudioError::NoDefault => AudioErrorView::NoDefault,
            AudioError::NotAvailable(name) => AudioErrorView::NotAvailable(name@),
            AudioError::InvalidFormat => AudioErrorView::InvalidFormat,
            AudioError::UnsupportedSampleFormat(format) => AudioErrorView::UnsupportedSampleFormat(
                format@,
            ),
        }
    }
}

impl AudioErrorView {
    /// What the user is told.
    pub open spec fn message(self) -> Seq<char> {
        match self {
            AudioErrorView::NoDefault => "no default microphone is available"@,
            AudioErrorView::NotAvailable(name) => "selected microphone is not available: "@ + name,
            AudioErrorView::InvalidFormat =>
                "the selected microphone reported an invalid audio format"@,
            AudioErrorView::UnsupportedSampleFormat(format) =>
                "unsupported microphone sample format: "@ + format,
        }
    }
}

impl AudioError {
    /// What the user is told.
    pub fn message(&self) -> (result: String)
        ensures
            result@ == self@.message(),
    {
        match self {
            AudioError::NoDefault => "no default microphone is available".to_owned(),
            AudioError::NotAvailable(name) => {
                let mut message = "selected microphone is not available: ".to_owned();
                message.append(name.as_str());
                message
            },
            AudioError::InvalidFormat =>
                "the selected microphone reported an invalid audio format".to_owned(),
            AudioError::UnsupportedSampleFormat(format) => {
                let mut message = "unsupported microphone sample format: ".to_owned();
                message.append(format.as_str());
                message
            },
        }
    }
}

/// The microphone that is opened: the system's default one, or an input device by its
/// place in the list.
#[derive(Clone, Copy, Debug, PartialEq, Eq, Structural)]
pub enum MicrophoneChoice {
    Default,
    Device(usize),
}

/// Which microphone is opened: the default one where none is selected, else the first of
/// the selected name.
pub fn select_microphone(
    selected: &str,
    has_default: bool,
    devices: &Vec<Option<String>>,
) -> (result: Result<MicrophoneChoice, AudioError>)
    ensures
        match result {
            Ok(MicrophoneChoice::Default) => selected@.len() == 0 && has_default,
            Ok(MicrophoneChoice::Device(index)) => selected@.len() > 0 && index < devices@.len()
                && name_view(devices@[index as int]) == Some(selected@) && forall|i: int|
                0 <= i < index ==> name_view(#[trigger] devices@[i]) != Some(selected@),
            Err(error) => if selected@.len() == 0 {
                !has_default && error@ == AudioErrorView::NoDefault
            } else {
                error@ == AudioErrorView::NotAvailable(selected@) && forall|i: int|
                    0 <= i < devices@.len() ==> name_view(#[trigger] devices@[i]) != Some(
                        selected@,
                    )
            },
        },
{
    if selected.unicode_len() == 0 {
        if has_default {
            return Ok(MicrophoneChoice::Default);
        }
        return Err(AudioError::NoDefault);
    }
    let mut i: usize = 0;
    while i < devices.len()
        invariant
            i <= devices@.len(),
            selected@.len() > 0,
            forall|j: int| 0 <= j < i ==> name_view(#[trigger] devices@[j]) != Some(selected@),
        decreases devices@.len() - i,
    {
        if is_name(&devices[i], selected) {
            return Ok(MicrophoneChoice::Device(i));
        }
        i += 1;
    }
    Err(AudioError::NotAvailable(selected.to_owned()))
}

/// How a device encodes its samples.
#[derive(Debug)]
pub enum SampleFormat {
    F32,
    I16,
    U16,
    Other(String),
}

/// Whether a device reports a format that audio can have.
pub fn check_format(channels: u16, source_rate: u32) -> (result: Result<(), AudioError>)
    ensures
        match result {
            Ok(_) => channels > 0 && source_rate > 0,
            Err(error) => (channels == 0 || source_rate == 0) && error@
                == AudioErrorView::InvalidFormat,
        },
{
    if channels == 0 || source_rate == 0 {
        Err(AudioError::InvalidFormat)
    } else {
        Ok(())
    }
}

/// Whether the samples of a device can be read.
pub fn check_sample_format(format: &SampleFormat) -> (result: Result<(), AudioError>)
    ensures
        match result {
            Ok(_) => !(format is Other),
            Err(error) => format is Other && error@ == AudioErrorView::UnsupportedSampleFormat(
                format->Other_0@,
            ),
        },
{
    match format {
        SampleFormat::Other(name) => Err(AudioError::UnsupportedSampleFormat(name.clone())),
        _ => Ok(()),
    }
}

/// Each device whose name is known is offered once, in order, under its name, whatever the other
/// devices are; it is marked exactly where the default one has its name.
pub proof fn law_named_devices_are_offered(
    devices: Seq<Option<Seq<char>>>,
    more: Seq<Option<Seq<char>>>,
    default_name: Option<Seq<char>>,
    name: Seq<char>,
)
    ensures
        offered(devices + more, default_name) == offered(devices, default_name) + offered(
            more,
            default_name,
        ),
        offered(seq![None], default_name).len() == 0,
        ({
            let one = offered(seq![Some(name)], default_name);
            &&& one.len() == 1
            &&& one[0].id == name && one[0].name == name
            &&& one[0].is_default <==> default_name == Some(name)
        }),
        offered(Seq::empty(), default_name).len() == 0,
    decreases more.len(),
{
    reveal_with_fuel(offered, 2);
    assert(seq![Some(name)].drop_last() =~= Seq::empty());
    assert(seq![None::<Seq<char>>].drop_last() =~= Seq::empty());
    let all = devices + more;
    if more.len() == 0 {
        assert(all =~= devices);
        assert(offered(devices, default_name) + offered(more, default_name) =~= offered(
            devices,
            default_name,
        ));
    } else {
        law_named_devices_are_offered(devices, more.drop_last(), default_name, name);
        assert(all.drop_last() =~= devices + more.drop_last());
        assert(all.last() == more.last());
        assert(offered(all, default_name) =~= offered(devices, default_name) + offered(
            more,
            default_name,
        ));
    }
}

/// What is wrong with a microphone is told with its name or its format, whole.
pub proof fn law_audio_errors_tell_their_cause(text: Seq<char>)
    ensures
        AudioErrorView::NotAvailable(text).message() == "selected microphone is not available: "@
            + text,
        AudioErrorView::UnsupportedSampleFormat(text).message()
            == "unsupported microphone sample format: "@ + text,
{
}

} // verus!
