//! What is observed while the service recognizes a recording.

use vstd::prelude::*;

use crate::asr::protocol::utterance_text;
use crate::json::{items_tree, whole_number, Json, JsonTree};
use crate::text::same_text;

verus! {

/// An utterance as the service reports it.
#[derive(Debug)]
pub struct UtteranceObservation {
    pub start_ms: u64,
    pub end_ms: u64,
    pub text: String,
    pub definite: bool,
}

/// An [`UtteranceObservation`] with its text as a sequence of characters.
pub struct UtteranceView {
    pub start_ms: u64,
    pub end_ms: u64,
    pub text: Seq<char>,
    pub definite: bool,
}

impl View for UtteranceObservation {
    type V = UtteranceView;

    open spec fn view(&self) -> UtteranceView {
        UtteranceView {
            start_ms: self.start_ms,
            end_ms: self.end_ms,
            text: self.text@,
            definite: self.definite,
        }
    }
}

/// A list of utterances, each by its view.
pub open spec fn utterance_views(utterances: Seq<UtteranceObservation>) -> Seq<UtteranceView> {
    Seq::new(utterances.len(), |i: int| utterances[i]@)
}

/// Whether `value` is the whole number in the member `key`, or zero where there is none.
pub open spec fn number_in(tree: JsonTree, key: Seq<char>, value: u64) -> bool {
    match tree.get(key) {
        Some(member) => {
            ||| member == JsonTree::Number(whole_number(value))
            ||| value == 0 && forall|other: u64| member != JsonTree::Number(whole_number(other))
        },
        None => value == 0,
    }
}

/// Whether an observation says what the service reports.
pub open spec fn observes(observation: UtteranceView, tree: JsonTree) -> bool {
    &&& number_in(tree, "start_time"@, observation.start_ms)
    &&& number_in(tree, "end_time"@, observation.end_ms)
    &&& observation.text == utterance_text(tree)
    &&& observation.definite == (tree.get("definite"@) == Some(JsonTree::Bool(true)))
}

/// The utterances in a payload; none where it has no list of them.
pub open spec fn reported(payload: JsonTree) -> Seq<JsonTree> {
    match payload.get("result"@) {
        Some(result) => match result.get("utterances"@) {
            Some(JsonTree::Array(items)) => items,
            _ => Seq::empty(),
        },
        None => Seq::empty(),
    }
}

fn number_of(utterance: &Json, key: &str) -> (result: u64)
    ensures
        number_in(utterance@, key@, result),
{
    match utterance.get(key) {
        Some(member) => match member.as_u64() {
            Some(value) => value,
            None => 0,
        },
        None => 0,
    }
}

fn observe(utterance: &Json) -> (result: UtteranceObservation)
    ensures
        observes(result@, utterance@),
{
    let text = match utterance.get("text") {
        Some(member) => match member.as_str() {
            Some(text) => text.to_owned(),
            None => String::new(),
        },
        None => String::new(),
    };
    let definite = match utterance.get("definite") {
        Some(member) => match member.as_bool() {
            Some(value) => value,
            None => false,
        },
        None => false,
    };
    let result = UtteranceObservation {
        start_ms: number_of(utterance, "start_time"),
        end_ms: number_of(utterance, "end_time"),
        text,
        definite,
    };
    proof {
        assert(result@.text =~= utterance_text(utterance@));
    }
    result
}

/// The utterances in a payload.
pub fn extract_utterances(payload: &Json) -> (result: Vec<UtteranceObservation>)
    ensures
        result@.len() == reported(payload@).len(),
        forall|i: int|
            0 <= i < result@.len() ==> observes((#[trigger] result@[i])@, reported(payload@)[i]),
{
    let mut result: Vec<UtteranceObservation> = Vec::new();
    let items = match payload.get("result") {
        Some(found) => match found.get("utterances") {
            Some(list) => match list.as_array() {
                Some(items) => items,
                None => {
                    return result;
                },
            },
            None => {
                return result;
            },
        },
        None => {
            return result;
        },
    };
    let mut i: usize = 0;
    while i < items.len()
        invariant
            i <= items@.len(),
            reported(payload@) == items_tree(items@),
            result@.len() == i,
            forall|k: int|
                0 <= k < i ==> observes((#[trigger] result@[k])@, reported(payload@)[k]),
        decreases items@.len() - i,
    {
        result.push(observe(&items[i]));
        i += 1;
    }
    result
}

/// A piece of the transcript that the service will not change any more.
#[derive(Debug)]
pub struct StableSegment {
    pub start_ms: u64,
    pub end_ms: u64,
    pub text: String,
    pub arrived_ms: u64,
    pub before_final_audio: bool,
}

/// A [`StableSegment`] with its text as a sequence of characters.
pub struct StableView {
    pub start_ms: u64,
    pub end_ms: u64,
    pub text: Seq<char>,
    pub arrived_ms: u64,
    pub before_final_audio: bool,
}

impl View for StableSegment {
    type V = StableView;

    open spec fn view(&self) -> StableView {
        StableView {
            start_ms: self.start_ms,
            end_ms: self.end_ms,
            text: self.text@,
            arrived_ms: self.arrived_ms,
            before_final_audio: self.before_final_audio,
        }
    }
}

/// A list of segments, each by its view.
pub open spec fn stable_views(segments: Seq<StableSegment>) -> Seq<StableView> {
    Seq::new(segments.len(), |i: int| segments[i]@)
}

/// How long after a moment another one is; zero where it is not later.
pub open spec fn lag(arrived_ms: u64, end_ms: u64) -> u64 {
    if arrived_ms > end_ms {
        (arrived_ms - end_ms) as u64
    } else {
        0
    }
}

impl StableView {
    /// When the speech of the segment ended: the service waits for a pause before it says so.
    pub open spec fn speech_end(self, vad_end_window_ms: Option<u64>) -> u64 {
        match vad_end_window_ms {
            Some(window) => lag(self.end_ms, window),
            None => self.end_ms,
        }
    }

    /// How long after the end of its speech the segment came in.
    pub open spec fn lag_ms(self, vad_end_window_ms: Option<u64>) -> u64 {
        lag(self.arrived_ms, self.speech_end(vad_end_window_ms))
    }
}

/// When the speech of a segment ended.
pub fn stable_speech_end_ms(segment: &StableSegment, vad_end_window_ms: Option<u64>) -> (result: u64)
    ensures
        result == segment@.speech_end(vad_end_window_ms),
{
    match vad_end_window_ms {
        Some(window) => segment.end_ms.saturating_sub(window),
        None => segment.end_ms,
    }
}

/// How long after the end of its speech a segment came in.
pub fn stable_lag_ms(segment: &StableSegment, vad_end_window_ms: Option<u64>) -> (result: u64)
    ensures
        result == segment@.lag_ms(vad_end_window_ms),
{
    segment.arrived_ms.saturating_sub(stable_speech_end_ms(segment, vad_end_window_ms))
}

/// Whether a segment lies before another, by its beginning and then by its end.
pub open spec fn segment_before(left: StableView, right: StableView) -> bool {
    left.start_ms < right.start_ms || (left.start_ms == right.start_ms && left.end_ms
        < right.end_ms)
}

/// Whether segments are in order, none of them twice.
pub open spec fn in_order(segments: Seq<StableView>) -> bool {
    forall|i: int, j: int|
        0 <= i < j < segments.len() ==> segment_before(
            #[trigger] segments[i],
            #[trigger] segments[j],
        )
}

/// Whether a segment covers the same stretch as an utterance.
pub open spec fn same_stretch(segment: StableView, utterance: UtteranceView) -> bool {
    segment.start_ms == utterance.start_ms && segment.end_ms == utterance.end_ms
}

/// The number of segments before the stretch of an utterance.
pub open spec fn place_of(segments: Seq<StableView>, utterance: UtteranceView) -> nat
    decreases segments.len(),
{
    if segments.len() == 0 {
        0
    } else {
        let last = segments.last();
        place_of(segments.drop_last(), utterance) + if last.start_ms < utterance.start_ms || (
        last.start_ms == utterance.start_ms && last.end_ms < utterance.end_ms) {
            1nat
        } else {
            0nat
        }
    }
}

/// The segments after a definite utterance: a stretch that is known gets the new text, a new
/// one is put in its place.
pub open spec fn with_utterance(
    segments: Seq<StableView>,
    utterance: UtteranceView,
    arrived_ms: u64,
    before_final_audio: bool,
) -> Seq<StableView> {
    let place = place_of(segments, utterance) as int;
    if place < segments.len() && same_stretch(segments[place], utterance) {
        segments.update(place, StableView { text: utterance.text, ..segments[place] })
    } else {
        segments.insert(
            place,
            StableView {
                start_ms: utterance.start_ms,
                end_ms: utterance.end_ms,
                text: utterance.text,
                arrived_ms,
                before_final_audio,
            },
        )
    }
}

proof fn lemma_place_of(segments: Seq<StableView>, utterance: UtteranceView, at: int)
    requires
        0 <= at <= segments.len(),
        forall|i: int|
            0 <= i < segments.len() ==> ((#[trigger] segments[i]).start_ms < utterance.start_ms || (
            segments[i].start_ms == utterance.start_ms && segments[i].end_ms < utterance.end_ms))
                == (i < at),
    ensures
        place_of(segments, utterance) == at,
    decreases segments.len(),
{
    if segments.len() > 0 {
        let front = segments.drop_last();
        let rest = if at == segments.len() {
            at - 1
        } else {
            at
        };
        assert forall|i: int| 0 <= i < front.len() implies ((#[trigger] front[i]).start_ms
            < utterance.start_ms || (front[i].start_ms == utterance.start_ms && front[i].end_ms
            < utterance.end_ms)) == (i < rest) by {
            assert(front[i] == segments[i]);
        }
        assert(segments.last() == segments[segments.len() - 1]);
        lemma_place_of(front, utterance, rest);
    }
}

fn add_stable(
    segments: &mut Vec<StableSegment>,
    utterance: &UtteranceObservation,
    arrived_ms: u64,
    before_final_audio: bool,
)
    requires
        in_order(stable_views(old(segments)@)),
    ensures
        stable_views(final(segments)@) == with_utterance(
            stable_views(old(segments)@),
            utterance@,
            arrived_ms,
            before_final_audio,
        ),
        in_order(stable_views(final(segments)@)),
{
    let ghost before = stable_views(segments@);
    let mut at: usize = 0;
    while at < segments.len() && (segments[at].start_ms < utterance.start_ms || (
    segments[at].start_ms == utterance.start_ms && segments[at].end_ms < utterance.end_ms))
        invariant
            at <= segments@.len(),
            segments@ == old(segments)@,
            before == stable_views(segments@),
            forall|i: int|
                0 <= i < at ==> (#[trigger] before[i]).start_ms < utterance.start_ms || (
                before[i].start_ms == utterance.start_ms && before[i].end_ms < utterance.end_ms),
        decreases segments@.len() - at,
    {
        at += 1;
    }
    proof {
        assert forall|i: int| 0 <= i < before.len() implies ((#[trigger] before[i]).start_ms
            < utterance@.start_ms || (before[i].start_ms == utterance@.start_ms && before[i].end_ms
            < utterance@.end_ms)) == (i < at) by {
            if i > at {
                assert(segment_before(before[at as int], before[i]));
            }
            if i >= at {
                assert(before[at as int] == segments@[at as int]@);
            }
        }
        lemma_place_of(before, utterance@, at as int);
    }
    if at < segments.len() && segments[at].start_ms == utterance.start_ms && segments[at].end_ms
        == utterance.end_ms {
        let known = StableSegment {
            start_ms: segments[at].start_ms,
            end_ms: segments[at].end_ms,
            text: utterance.text.clone(),
            arrived_ms: segments[at].arrived_ms,
            before_final_audio: segments[at].before_final_audio,
        };
        segments.set(at, known);
        proof {
            let after = stable_views(segments@);
            assert(after =~= with_utterance(before, utterance@, arrived_ms, before_final_audio));
            assert forall|i: int, j: int| 0 <= i < j < after.len() implies segment_before(
                #[trigger] after[i],
                #[trigger] after[j],
            ) by {
                assert(segment_before(before[i], before[j]));
            }
        }
    } else {
        segments.insert(
            at,
            StableSegment {
                start_ms: utterance.start_ms,
                end_ms: utterance.end_ms,
                text: utterance.text.clone(),
                arrived_ms,
                before_final_audio,
            },
        );
        proof {
            let after = stable_views(segments@);
            assert(after =~= with_utterance(before, utterance@, arrived_ms, before_final_audio));
            assert forall|i: int, j: int| 0 <= i < j < after.len() implies segment_before(
                #[trigger] after[i],
                #[trigger] after[j],
            ) by {
                let x = if i < at { i } else { i - 1 };
                let y = if j < at { j } else { j - 1 };
                if i != at && j != at {
                    assert(after[i] == before[x] && after[j] == before[y]);
                    assert(segment_before(before[x], before[y]));
                } else if i == at {
                    assert(after[j] == before[y]);
                } else {
                    assert(after[i] == before[x]);
                }
            }
        }
    }
}

/// What has been observed of a recognition.
#[derive(Debug)]
pub struct Exchange {
    pub text: String,
    pub first_text_ms: Option<u64>,
    pub first_text_lag_ms: Option<u64>,
    pub live_update_times_ms: Vec<u64>,
    pub live_lags_ms: Vec<u64>,
    pub stable_segments: Vec<StableSegment>,
}

/// An [`Exchange`] as plain values.
pub struct ExchangeView {
    pub text: Seq<char>,
    pub first_text_ms: Option<u64>,
    pub first_text_lag_ms: Option<u64>,
    pub live_update_times_ms: Seq<u64>,
    pub live_lags_ms: Seq<u64>,
    pub stable_segments: Seq<StableView>,
}

impl View for Exchange {
    type V = ExchangeView;

    open spec fn view(&self) -> ExchangeView {
        ExchangeView {
            text: self.text@,
            first_text_ms: self.first_text_ms,
            first_text_lag_ms: self.first_text_lag_ms,
            live_update_times_ms: self.live_update_times_ms@,
            live_lags_ms: self.live_lags_ms@,
            stable_segments: stable_views(self.stable_segments@),
        }
    }
}

/// The end of the last utterance, if there is one.
pub open spec fn latest_end(utterances: Seq<UtteranceView>) -> Option<u64>
    decreases utterances.len(),
{
    if utterances.len() == 0 {
        None
    } else {
        let last = utterances.last().end_ms;
        match latest_end(utterances.drop_last()) {
            Some(earlier) => Some(
                if earlier > last {
                    earlier
                } else {
                    last
                },
            ),
            None => Some(last),
        }
    }
}

/// Whether the service may still change a part of what it reports.
pub open spec fn provisional(utterances: Seq<UtteranceView>) -> bool {
    utterances.len() == 0 || exists|i: int|
        0 <= i < utterances.len() && !(#[trigger] utterances[i]).definite
}

impl ExchangeView {
    /// The observations after a text that differs from the last one.
    pub open spec fn with_text(
        self,
        text: Seq<char>,
        utterances: Seq<UtteranceView>,
        arrived_ms: u64,
    ) -> ExchangeView {
        let end = latest_end(utterances);
        ExchangeView {
            text,
            first_text_ms: match self.first_text_ms {
                Some(moment) => Some(moment),
                None => Some(arrived_ms),
            },
            first_text_lag_ms: match (self.first_text_lag_ms, end) {
                (Some(earlier), _) => Some(earlier),
                (None, Some(end_ms)) => Some(lag(arrived_ms, end_ms)),
                (None, None) => None,
            },
            live_update_times_ms: if provisional(utterances) {
                self.live_update_times_ms.push(arrived_ms)
            } else {
                self.live_update_times_ms
            },
            live_lags_ms: match end {
                Some(end_ms) => if provisional(utterances) {
                    self.live_lags_ms.push(lag(arrived_ms, end_ms))
                } else {
                    self.live_lags_ms
                },
                None => self.live_lags_ms,
            },
            ..self
        }
    }
}

/// The segments after all definite utterances with text.
pub open spec fn with_utterances(
    segments: Seq<StableView>,
    utterances: Seq<UtteranceView>,
    arrived_ms: u64,
    before_final_audio: bool,
) -> Seq<StableView>
    decreases utterances.len(),
{
    if utterances.len() == 0 {
        segments
    } else {
        let front = with_utterances(
            segments,
            utterances.drop_last(),
            arrived_ms,
            before_final_audio,
        );
        let last = utterances.last();
        if last.definite && last.text.len() > 0 {
            with_utterance(front, last, arrived_ms, before_final_audio)
        } else {
            front
        }
    }
}

impl ExchangeView {
    /// The observations after an answer of the service.
    pub open spec fn after(
        self,
        text: Option<Seq<char>>,
        utterances: Seq<UtteranceView>,
        arrived_ms: u64,
        final_audio_sent: bool,
    ) -> ExchangeView {
        let noted = match text {
            Some(text) => if text != self.text {
                self.with_text(text, utterances, arrived_ms)
            } else {
                self
            },
            None => self,
        };
        ExchangeView {
            stable_segments: with_utterances(
                self.stable_segments,
                utterances,
                arrived_ms,
                !final_audio_sent,
            ),
            ..noted
        }
    }
}

fn last_end(utterances: &Vec<UtteranceObservation>) -> (result: Option<u64>)
    ensures
        result == latest_end(utterance_views(utterances@)),
{
    let ghost all = utterance_views(utterances@);
    let mut latest: Option<u64> = None;
    let mut i: usize = 0;
    proof {
        assert(all.take(0) =~= Seq::empty());
    }
    while i < utterances.len()
        invariant
            i <= utterances@.len(),
            all == utterance_views(utterances@),
            latest == latest_end(all.take(i as int)),
        decreases utterances@.len() - i,
    {
        let end: u64 = utterances[i].end_ms;
        proof {
            assert(all.take(i + 1).drop_last() =~= all.take(i as int));
            assert(all.take(i + 1).last() == utterances@[i as int]@);
        }
        latest = match latest {
            Some(earlier) => if earlier > end {
                Some(earlier)
            } else {
                Some(end)
            },
            None => Some(end),
        };
        i += 1;
    }
    proof {
        assert(all.take(all.len() as int) =~= all);
    }
    latest
}

fn has_provisional(utterances: &Vec<UtteranceObservation>) -> (result: bool)
    ensures
        result == provisional(utterance_views(utterances@)),
{
    let ghost all = utterance_views(utterances@);
    let mut i: usize = 0;
    while i < utterances.len()
        invariant
            i <= utterances@.len(),
            all == utterance_views(utterances@),
            forall|k: int| 0 <= k < i ==> (#[trigger] all[k]).definite,
        decreases utterances@.len() - i,
    {
        if !utterances[i].definite {
            proof {
                assert(!all[i as int].definite);
            }
            return true;
        }
        i += 1;
    }
    utterances.len() == 0
}

impl Exchange {
    /// Nothing has been observed yet.
    pub fn new() -> (result: Exchange)
        ensures
            result@ == (ExchangeView {
                text: Seq::empty(),
                first_text_ms: None,
                first_text_lag_ms: None,
                live_update_times_ms: Seq::empty(),
                live_lags_ms: Seq::empty(),
                stable_segments: Seq::empty(),
            }),
            in_order(result@.stable_segments),
    {
        let result = Exchange {
            text: String::new(),
            first_text_ms: None,
            first_text_lag_ms: None,
            live_update_times_ms: Vec::new(),
            live_lags_ms: Vec::new(),
            stable_segments: Vec::new(),
        };
        proof {
            assert(result@.text =~= Seq::empty());
            assert(result@.stable_segments =~= Seq::empty());
        }
        result
    }

    /// Notes an answer of the service: the text in it, if any, and its utterances.
    pub fn note(
        &mut self,
        text: Option<String>,
        utterances: &Vec<UtteranceObservation>,
        arrived_ms: u64,
        final_audio_sent: bool,
    )
        requires
            in_order(old(self)@.stable_segments),
        ensures
            final(self)@ == old(self)@.after(
                match text {
                    Some(text) => Some(text@),
                    None => None,
                },
                utterance_views(utterances@),
                arrived_ms,
                final_audio_sent,
            ),
            in_order(final(self)@.stable_segments),
    {
        if let Some(text) = text {
            if !same_text(text.as_str(), self.text.as_str()) {
                if self.first_text_ms.is_none() {
                    self.first_text_ms = Some(arrived_ms);
                }
                let end = last_end(utterances);
                if self.first_text_lag_ms.is_none() {
                    self.first_text_lag_ms = match end {
                        Some(end_ms) => Some(arrived_ms.saturating_sub(end_ms)),
                        None => None,
                    };
                }
                if has_provisional(utterances) {
                    self.live_update_times_ms.push(arrived_ms);
                    if let Some(end_ms) = end {
                        self.live_lags_ms.push(arrived_ms.saturating_sub(end_ms));
                    }
                }
                self.text = text;
            }
        }
        let ghost noted = self@;
        let ghost all = utterance_views(utterances@);
        let ghost segments = self@.stable_segments;
        let mut i: usize = 0;
        proof {
            assert(all.take(0) =~= Seq::empty());
        }
        while i < utterances.len()
            invariant
                i <= utterances@.len(),
                all == utterance_views(utterances@),
                in_order(self@.stable_segments),
                self@ == (ExchangeView {
                    stable_segments: with_utterances(
                        segments,
                        all.take(i as int),
                        arrived_ms,
                        !final_audio_sent,
                    ),
                    ..noted
                }),
            decreases utterances@.len() - i,
        {
            let utterance = &utterances[i];
            proof {
                assert(all.take(i + 1).drop_last() =~= all.take(i as int));
                assert(all.take(i + 1).last() == utterance@);
            }
            if utterance.definite && utterance.text.as_str().unicode_len() > 0 {
                add_stable(&mut self.stable_segments, utterance, arrived_ms, !final_audio_sent);
            }
            i += 1;
        }
        proof {
            assert(all.take(all.len() as int) =~= all);
        }
    }
}

/// Whether the exchange goes on after an answer of the service.
#[derive(Clone, Copy, Debug, PartialEq, Eq, Structural)]
pub enum ExchangeEnd {
    GoesOn,
    /// The service gave its last answer before all of the recording was sent.
    TooEarly,
    Complete,
}

/// Whether the exchange goes on after an answer of the service, with so many packets sent.
pub fn after_answer(is_last: bool, packets_sent: usize, packet_count: usize) -> (result: ExchangeEnd)
    ensures
        result == if !is_last {
            ExchangeEnd::GoesOn
        } else if packets_sent < packet_count {
            ExchangeEnd::TooEarly
        } else {
            ExchangeEnd::Complete
        },
{
    if !is_last {
        ExchangeEnd::GoesOn
    } else if packets_sent < packet_count {
        ExchangeEnd::TooEarly
    } else {
        ExchangeEnd::Complete
    }
}

/// When a stable segment came in is noted once: a later text for the same stretch leaves it
/// as it is, and the number of segments too.
pub proof fn law_stable_segments_keep_their_arrival(
    segments: Seq<StableView>,
    utterance: UtteranceView,
    arrived_ms: u64,
    before_final_audio: bool,
)
    requires
        place_of(segments, utterance) < segments.len(),
        same_stretch(segments[place_of(segments, utterance) as int], utterance),
    ensures
        ({
            let after = with_utterance(segments, utterance, arrived_ms, before_final_audio);
            &&& after.len() == segments.len()
            &&& forall|i: int|
                0 <= i < after.len() ==> (#[trigger] after[i]).arrived_ms == segments[i].arrived_ms
                    && after[i].before_final_audio == segments[i].before_final_audio
        }),
{
}

/// What is observed of an utterance: its text, which is empty where it has none; that it is
/// definite exactly where the service says so with the boolean true; and a moment that is
/// missing as zero.
pub proof fn law_observations_follow_the_report(observation: UtteranceView, tree: JsonTree)
    requires
        observes(observation, tree),
    ensures
        observation.definite <==> tree.get("definite"@) == Some(JsonTree::Bool(true)),
        tree.get("text"@) matches Some(JsonTree::Text(text)) ==> observation.text == text,
        !(tree.get("text"@) matches Some(JsonTree::Text(_))) ==> observation.text.len() == 0,
        tree.get("start_time"@) is None ==> observation.start_ms == 0,
        tree.get("end_time"@) is None ==> observation.end_ms == 0,
        tree.get("start_time"@) is Some && !(tree.get("start_time"@)->0 is Number)
            ==> observation.start_ms == 0,
        tree.get("end_time"@) is Some && !(tree.get("end_time"@)->0 is Number)
            ==> observation.end_ms == 0,
        tree.get("start_time"@) matches Some(member) ==> observation.start_ms > 0 ==> member
            == JsonTree::Number(whole_number(observation.start_ms)),
        tree.get("end_time"@) matches Some(member) ==> observation.end_ms > 0 ==> member
            == JsonTree::Number(whole_number(observation.end_ms)),
{
}

/// The utterances are those in the list of the result, all of them; without such a list there
/// are none.
pub proof fn law_reported_utterances(payload: JsonTree, result: JsonTree, items: Seq<JsonTree>)
    ensures
        payload.get("result"@) == Some(result) && result.get("utterances"@) == Some(
            JsonTree::Array(items),
        ) ==> reported(payload) == items,
        payload.get("result"@) is None ==> reported(payload).len() == 0,
        payload.get("result"@) == Some(result) && result.get("utterances"@) is None ==> reported(
            payload,
        ).len() == 0,
{
}

/// A lag and the moment that it is counted from give the moment of arrival; what came early has
/// none.
pub proof fn law_lags_lead_to_the_arrival(arrived_ms: u64, end_ms: u64)
    ensures
        arrived_ms >= end_ms ==> end_ms + lag(arrived_ms, end_ms) == arrived_ms,
        arrived_ms <= end_ms ==> lag(arrived_ms, end_ms) == 0,
{
}

/// The pause that ends an utterance is no speech: it counts towards the lag of a segment.
pub proof fn law_the_pause_counts_towards_the_lag(segment: StableView, window: u64)
    ensures
        segment.lag_ms(None) == lag(segment.arrived_ms, segment.end_ms),
        segment.speech_end(None) == segment.end_ms,
        window <= segment.end_ms ==> segment.speech_end(Some(window)) + window == segment.end_ms,
        window >= segment.end_ms ==> segment.speech_end(Some(window)) == 0,
        window <= segment.end_ms <= segment.arrived_ms ==> segment.lag_ms(Some(window))
            == segment.lag_ms(None) + window,
{
}

proof fn lemma_place_splits(segments: Seq<StableView>, utterance: UtteranceView) -> (at: int)
    requires
        in_order(segments),
    ensures
        0 <= at <= segments.len(),
        place_of(segments, utterance) == at,
        forall|i: int|
            0 <= i < segments.len() ==> ((#[trigger] segments[i]).start_ms < utterance.start_ms || (
            segments[i].start_ms == utterance.start_ms && segments[i].end_ms < utterance.end_ms))
                == (i < at),
    decreases segments.len(),
{
    if segments.len() == 0 {
        0
    } else {
        let front = segments.drop_last();
        let last = segments.last();
        assert forall|i: int, j: int| 0 <= i < j < front.len() implies segment_before(
            #[trigger] front[i],
            #[trigger] front[j],
        ) by {
            assert(segment_before(segments[i], segments[j]));
        }
        let at = lemma_place_splits(front, utterance);
        let before = last.start_ms < utterance.start_ms || (last.start_ms == utterance.start_ms
            && last.end_ms < utterance.end_ms);
        let result = if before {
            segments.len() as int
        } else {
            at
        };
        assert forall|i: int| 0 <= i < segments.len() implies ((#[trigger] segments[i]).start_ms
            < utterance.start_ms || (segments[i].start_ms == utterance.start_ms
            && segments[i].end_ms < utterance.end_ms)) == (i < result) by {
            if i < front.len() {
                assert(front[i] == segments[i]);
                assert(segment_before(segments[i], segments[segments.len() - 1]));
            }
        }
        if before && front.len() > 0 {
            assert(segment_before(segments[front.len() - 1], segments[segments.len() - 1]));
            assert(front[front.len() - 1] == segments[front.len() - 1]);
        }
        result
    }
}

/// A definite utterance has exactly one segment afterwards, with its text, and every other
/// segment stays as it is, in order. A stretch that was known keeps its arrival; a new one is
/// put in with its own.
pub proof fn law_definite_utterances_have_one_segment(
    segments: Seq<StableView>,
    utterance: UtteranceView,
    arrived_ms: u64,
    before_final_audio: bool,
)
    requires
        in_order(segments),
    ensures
        ({
            let after = with_utterance(segments, utterance, arrived_ms, before_final_audio);
            &&& in_order(after)
            &&& exists|k: int|
                0 <= k < after.len() && #[trigger] same_stretch(after[k], utterance)
                    && after[k].text == utterance.text && if (exists|j: int|
                    0 <= j < segments.len() && #[trigger] same_stretch(segments[j], utterance)) {
                    &&& k < segments.len()
                    &&& same_stretch(segments[k], utterance)
                    &&& after[k].arrived_ms == segments[k].arrived_ms
                    &&& after[k].before_final_audio == segments[k].before_final_audio
                    &&& after.remove(k) == segments.remove(k)
                } else {
                    &&& after[k].arrived_ms == arrived_ms
                    &&& after[k].before_final_audio == before_final_audio
                    &&& after.remove(k) == segments
                }
        }),
{
    let at = lemma_place_splits(segments, utterance);
    let after = with_utterance(segments, utterance, arrived_ms, before_final_audio);
    let known = at < segments.len() && same_stretch(segments[at], utterance);
    if exists|j: int| 0 <= j < segments.len() && #[trigger] same_stretch(segments[j], utterance) {
        let j = choose|j: int|
            0 <= j < segments.len() && #[trigger] same_stretch(segments[j], utterance);
        assert(j >= at);
        if j > at {
            assert(segment_before(segments[at], segments[j]));
        }
        assert(known);
    }
    if known {
        assert(after.remove(at) =~= segments.remove(at));
    } else {
        assert(after.remove(at) =~= segments);
    }
    assert(same_stretch(after[at], utterance));
    assert forall|i: int, j: int| 0 <= i < j < after.len() implies segment_before(
        #[trigger] after[i],
        #[trigger] after[j],
    ) by {
        if known {
            assert(segment_before(segments[i], segments[j]));
        } else {
            let x = if i < at {
                i
            } else {
                i - 1
            };
            let y = if j < at {
                j
            } else {
                j - 1
            };
            if i != at && j != at {
                assert(after[i] == segments[x] && after[j] == segments[y]);
                assert(segment_before(segments[x], segments[y]));
            } else if i == at {
                assert(after[j] == segments[y]);
            } else {
                assert(after[i] == segments[x]);
            }
        }
    }
}

/// The utterances of an answer count one after the other: a definite one with a text has its
/// segment, and any other changes nothing.
pub proof fn law_utterances_count_one_by_one(
    segments: Seq<StableView>,
    utterances: Seq<UtteranceView>,
    more: Seq<UtteranceView>,
    utterance: UtteranceView,
    arrived_ms: u64,
    before_final_audio: bool,
)
    ensures
        with_utterances(segments, utterances + more, arrived_ms, before_final_audio)
            == with_utterances(
            with_utterances(segments, utterances, arrived_ms, before_final_audio),
            more,
            arrived_ms,
            before_final_audio,
        ),
        with_utterances(segments, seq![utterance], arrived_ms, before_final_audio)
            == if utterance.definite && utterance.text.len() > 0 {
            with_utterance(segments, utterance, arrived_ms, before_final_audio)
        } else {
            segments
        },
        with_utterances(segments, Seq::empty(), arrived_ms, before_final_audio) == segments,
    decreases more.len(),
{
    reveal_with_fuel(with_utterances, 2);
    assert(seq![utterance].drop_last() =~= Seq::empty());
    let all = utterances + more;
    if more.len() == 0 {
        assert(all =~= utterances);
    } else {
        law_utterances_count_one_by_one(
            segments,
            utterances,
            more.drop_last(),
            utterance,
            arrived_ms,
            before_final_audio,
        );
        assert(all.drop_last() =~= utterances + more.drop_last());
        assert(all.last() == more.last());
    }
}

/// The latest end is that of some utterance, and none ends later, wherever it stands in the
/// list.
pub proof fn law_no_utterance_ends_later(utterances: Seq<UtteranceView>)
    ensures
        latest_end(utterances) is None <==> utterances.len() == 0,
        latest_end(utterances) matches Some(end) ==> {
            &&& forall|i: int| 0 <= i < utterances.len() ==> (#[trigger] utterances[i]).end_ms <= end
            &&& exists|i: int| 0 <= i < utterances.len() && (#[trigger] utterances[i]).end_ms == end
        },
    decreases utterances.len(),
{
    if utterances.len() > 0 {
        let front = utterances.drop_last();
        law_no_utterance_ends_later(front);
        let end = latest_end(utterances)->0;
        assert forall|i: int| 0 <= i < utterances.len() implies (#[trigger] utterances[i]).end_ms
            <= end by {
            if i < front.len() {
                assert(front[i] == utterances[i]);
            }
        }
        if end != utterances.last().end_ms {
            let i = choose|i: int| 0 <= i < front.len() && (#[trigger] front[i]).end_ms == end;
            assert(utterances[i].end_ms == end);
        } else {
            assert(utterances[utterances.len() - 1].end_ms == end);
        }
    }
}

/// What the service reports may still change as long as one of its utterances may, or there is
/// none; that the others are definite does not help.
pub proof fn law_one_open_utterance_is_enough(
    left: Seq<UtteranceView>,
    utterance: UtteranceView,
    right: Seq<UtteranceView>,
)
    ensures
        provisional(Seq::empty()),
        provisional(seq![utterance]) <==> !utterance.definite,
        left.len() > 0 && right.len() > 0 ==> (provisional(left + right) <==> provisional(left)
            || provisional(right)),
{
    let one = seq![utterance];
    assert(one[0] == utterance);
    let all = left + right;
    if left.len() > 0 && right.len() > 0 {
        if provisional(left) {
            let i = choose|i: int| 0 <= i < left.len() && !(#[trigger] left[i]).definite;
            assert(!all[i].definite);
        }
        if provisional(right) {
            let i = choose|i: int| 0 <= i < right.len() && !(#[trigger] right[i]).definite;
            assert(!all[left.len() + i].definite);
        }
        if provisional(all) {
            let i = choose|i: int| 0 <= i < all.len() && !(#[trigger] all[i]).definite;
            if i < left.len() {
                assert(!left[i].definite);
            } else {
                assert(!right[i - left.len()].definite);
            }
        }
    }
}

/// An answer with a text makes it the text that is known, longer or shorter; its first moment
/// is kept. An update is noted exactly where the text is new and may still change, with its lag
/// behind the latest end where there is one. An answer without a new text leaves all that as it
/// is, and the segments do not depend on the text.
pub proof fn law_answers_are_observed(
    observed: ExchangeView,
    text: Option<Seq<char>>,
    utterances: Seq<UtteranceView>,
    arrived_ms: u64,
    final_audio_sent: bool,
)
    ensures
        ({
            let next = observed.after(text, utterances, arrived_ms, final_audio_sent);
            let fresh = text is Some && text->0 != observed.text;
            let end = latest_end(utterances);
            let open = provisional(utterances);
            &&& next.text == if text is Some {
                text->0
            } else {
                observed.text
            }
            &&& observed.first_text_ms is Some ==> next.first_text_ms == observed.first_text_ms
            &&& observed.first_text_ms is None ==> next.first_text_ms == if fresh {
                Some(arrived_ms)
            } else {
                None
            }
            &&& observed.first_text_lag_ms is Some ==> next.first_text_lag_ms
                == observed.first_text_lag_ms
            &&& observed.first_text_lag_ms is None ==> next.first_text_lag_ms == if fresh && end
                is Some {
                Some(lag(arrived_ms, end->0))
            } else {
                None
            }
            &&& next.live_update_times_ms == if fresh && open {
                observed.live_update_times_ms.push(arrived_ms)
            } else {
                observed.live_update_times_ms
            }
            &&& next.live_lags_ms == if fresh && open && end is Some {
                observed.live_lags_ms.push(lag(arrived_ms, end->0))
            } else {
                observed.live_lags_ms
            }
            &&& next.stable_segments == with_utterances(
                observed.stable_segments,
                utterances,
                arrived_ms,
                !final_audio_sent,
            )
        }),
{
}

} // verus!
