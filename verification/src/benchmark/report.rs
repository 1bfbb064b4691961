//! The measurements that a benchmark reports.

use vstd::prelude::*;

use crate::benchmark::distance::{
    counted, error_breakdown, lemma_counted_bound, ErrorBreakdown,
};
use crate::benchmark::exchange::{
    lag, stable_lag_ms, stable_views, Exchange, ExchangeView, StableSegment, StableView,
};
use crate::benchmark::{
    comparable, gaps, gaps_between, normalize_for_cer, percentile, percentile_of,
};

verus! {

/// The edits between two texts and the length of the expected one, both without regard to case,
/// blanks and punctuation. The result is none where the lengths exceed what can be counted.
pub fn character_errors(expected: &str, actual: &str) -> (result: Option<(ErrorBreakdown, usize)>)
    ensures
        match result {
            Some((errors, reference_len)) => {
                &&& errors@ == counted(comparable(expected@), comparable(actual@))
                &&& reference_len == comparable(expected@).len()
                &&& errors@.total() <= usize::MAX
            },
            None => comparable(expected@).len() + comparable(actual@).len() >= usize::MAX,
        },
{
    let expected = normalize_for_cer(expected);
    let actual = normalize_for_cer(actual);
    if actual.len() >= usize::MAX - expected.len() {
        return None;
    }
    proof {
        lemma_counted_bound(expected@, actual@);
    }
    Some((error_breakdown(expected.as_slice(), actual.as_slice()), expected.len()))
}

/// The number of segments that came in before the last of the recording was sent.
pub open spec fn early_segments(segments: Seq<StableView>) -> nat {
    segments.filter(|segment: StableView| segment.before_final_audio).len()
}

/// The number of characters that count in the segments.
pub open spec fn characters_in(segments: Seq<StableView>) -> nat
    decreases segments.len(),
{
    if segments.len() == 0 {
        0
    } else {
        characters_in(segments.drop_last()) + comparable(segments.last().text).len()
    }
}

/// The number of characters that count in the segments that came in before the last of the
/// recording was sent.
pub open spec fn early_characters(segments: Seq<StableView>) -> nat {
    characters_in(segments.filter(|segment: StableView| segment.before_final_audio))
}

/// How long after the end of their speech the segments came in.
pub open spec fn stable_lags(segments: Seq<StableView>, vad_end_window_ms: Option<u64>) -> Seq<
    u64,
> {
    segments.map_values(|segment: StableView| segment.lag_ms(vad_end_window_ms))
}

/// How many stable segments there are and how much they hold.
#[derive(Clone, Copy, Debug, PartialEq, Eq, Structural)]
pub struct StableCounts {
    pub segments: usize,
    pub early_segments: usize,
    pub characters: u128,
    pub early_characters: u128,
}

/// Counts stable segments and the characters in them.
pub fn count_stable(segments: &Vec<StableSegment>) -> (result: StableCounts)
    ensures
        result.segments == segments@.len(),
        result.early_segments == early_segments(stable_views(segments@)),
        result.characters == characters_in(stable_views(segments@)),
        result.early_characters == early_characters(stable_views(segments@)),
{
    let ghost all = stable_views(segments@);
    let ghost early = |segment: StableView| segment.before_final_audio;
    let mut early_segments: usize = 0;
    let mut characters: u128 = 0;
    let mut early_characters: u128 = 0;
    let mut i: usize = 0;
    proof {
        reveal(Seq::filter);
        assert(all.take(0) =~= Seq::empty());
    }
    while i < segments.len()
        invariant
            i <= segments@.len(),
            all == stable_views(segments@),
            early == (|segment: StableView| segment.before_final_audio),
            early_segments <= i,
            early_segments == all.take(i as int).filter(early).len(),
            characters == characters_in(all.take(i as int)),
            early_characters == characters_in(all.take(i as int).filter(early)),
            early_characters <= characters <= i * 0xffff_ffff_ffff_ffff,
        decreases segments@.len() - i,
    {
        let count: usize = normalize_for_cer(segments[i].text.as_str()).len();
        proof {
            reveal(Seq::filter);
            let front = all.take(i as int);
            let longer = all.take(i + 1);
            assert(longer.drop_last() =~= front);
            assert(longer.last() == segments@[i as int]@);
            if early(longer.last()) {
                assert(longer.filter(early) =~= front.filter(early).push(longer.last()));
                assert(longer.filter(early).drop_last() =~= front.filter(early));
            }
            assert(characters + count <= (i + 1) * 0xffff_ffff_ffff_ffff) by (nonlinear_arith)
                requires
                    characters <= i * 0xffff_ffff_ffff_ffff,
                    count <= 0xffff_ffff_ffff_ffff,
            ;
            assert((i + 1) * 0xffff_ffff_ffff_ffff <= u128::MAX) by (nonlinear_arith)
                requires
                    0 <= i + 1 <= 0xffff_ffff_ffff_ffff,
            ;
        }
        characters = characters + count as u128;
        if segments[i].before_final_audio {
            early_segments += 1;
            early_characters = early_characters + count as u128;
        }
        i += 1;
    }
    proof {
        assert(all.take(all.len() as int) =~= all);
    }
    StableCounts { segments: segments.len(), early_segments, characters, early_characters }
}

/// The latencies of a recognition, in milliseconds.
#[derive(Clone, Copy, Debug, PartialEq, Eq)]
pub struct Latencies {
    pub live_lag_p50: Option<u64>,
    pub live_lag_p95: Option<u64>,
    pub live_gap_p50: Option<u64>,
    pub live_gap_p95: Option<u64>,
    pub stable_lag_p50: Option<u64>,
    pub stable_lag_p95: Option<u64>,
    pub final_tail_ms: u64,
}

/// The latencies of what was observed, where all took `stream_ms` for a recording of
/// `audio_duration_ms`.
pub open spec fn latencies(
    observed: ExchangeView,
    vad_end_window_ms: Option<u64>,
    stream_ms: u64,
    audio_duration_ms: u64,
) -> Latencies {
    let live_gaps = gaps_between(observed.live_update_times_ms);
    let lags = stable_lags(observed.stable_segments, vad_end_window_ms);
    Latencies {
        live_lag_p50: percentile_of(observed.live_lags_ms, 50),
        live_lag_p95: percentile_of(observed.live_lags_ms, 95),
        live_gap_p50: percentile_of(live_gaps, 50),
        live_gap_p95: percentile_of(live_gaps, 95),
        stable_lag_p50: percentile_of(lags, 50),
        stable_lag_p95: percentile_of(lags, 95),
        final_tail_ms: lag(stream_ms, audio_duration_ms),
    }
}

/// Measures the latencies of a recognition.
pub fn measure_latencies(
    observed: &Exchange,
    vad_end_window_ms: Option<u64>,
    stream_ms: u64,
    audio_duration_ms: u64,
) -> (result: Latencies)
    ensures
        result == latencies(observed@, vad_end_window_ms, stream_ms, audio_duration_ms),
{
    let live_gaps = gaps(observed.live_update_times_ms.as_slice());
    let live_lags = observed.live_lags_ms.as_slice();
    let mut lags: Vec<u64> = Vec::new();
    let ghost expected = stable_lags(observed@.stable_segments, vad_end_window_ms);
    let mut i: usize = 0;
    proof {
        assert(expected.take(0) =~= Seq::empty());
    }
    while i < observed.stable_segments.len()
        invariant
            i <= observed.stable_segments@.len(),
            expected == stable_lags(observed@.stable_segments, vad_end_window_ms),
            lags@ == expected.take(i as int),
        decreases observed.stable_segments@.len() - i,
    {
        lags.push(stable_lag_ms(&observed.stable_segments[i], vad_end_window_ms));
        proof {
            assert(lags@ =~= expected.take(i + 1));
        }
        i += 1;
    }
    proof {
        assert(expected.take(expected.len() as int) =~= expected);
    }
    Latencies {
        live_lag_p50: percentile(live_lags, 50),
        live_lag_p95: percentile(live_lags, 95),
        live_gap_p50: percentile(live_gaps.as_slice(), 50),
        live_gap_p95: percentile(live_gaps.as_slice(), 95),
        stable_lag_p50: percentile(lags.as_slice(), 50),
        stable_lag_p95: percentile(lags.as_slice(), 95),
        final_tail_ms: stream_ms.saturating_sub(audio_duration_ms),
    }
}

/// No more of the text can come in early than comes in at all.
pub proof fn law_early_text_is_a_part(segments: Seq<StableView>)
    ensures
        early_segments(segments) <= segments.len(),
        early_characters(segments) <= characters_in(segments),
    decreases segments.len(),
{
    reveal(Seq::filter);
    let early = |segment: StableView| segment.before_final_audio;
    if segments.len() > 0 {
        let front = segments.drop_last();
        law_early_text_is_a_part(front);
        if early(segments.last()) {
            assert(segments.filter(early) =~= front.filter(early).push(segments.last()));
            assert(segments.filter(early).drop_last() =~= front.filter(early));
        }
    }
}

proof fn lemma_characters_add(left: Seq<StableView>, right: Seq<StableView>)
    ensures
        characters_in(left + right) == characters_in(left) + characters_in(right),
    decreases right.len(),
{
    if right.len() == 0 {
        assert(left + right =~= left);
    } else {
        lemma_characters_add(left, right.drop_last());
        assert((left + right).drop_last() =~= left + right.drop_last());
        assert((left + right).last() == right.last());
    }
}

/// Every segment counts by itself: one segment, and the characters that count of its text; it
/// counts as early exactly where it came in before the last of the recording was sent.
pub proof fn law_segments_count_by_themselves(
    left: Seq<StableView>,
    segment: StableView,
    right: Seq<StableView>,
)
    ensures
        characters_in(left + right) == characters_in(left) + characters_in(right),
        early_segments(left + right) == early_segments(left) + early_segments(right),
        early_characters(left + right) == early_characters(left) + early_characters(right),
        characters_in(seq![segment]) == comparable(segment.text).len(),
        early_segments(seq![segment]) == if segment.before_final_audio {
            1nat
        } else {
            0nat
        },
        early_characters(seq![segment]) == if segment.before_final_audio {
            comparable(segment.text).len()
        } else {
            0nat
        },
        characters_in(Seq::empty()) == 0,
{
    let early = |segment: StableView| segment.before_final_audio;
    lemma_characters_add(left, right);
    Seq::filter_distributes_over_add(left, right, early);
    lemma_characters_add(left.filter(early), right.filter(early));
    reveal(Seq::filter);
    reveal_with_fuel(characters_in, 2);
    reveal_with_fuel(Seq::filter, 2);
    let one = seq![segment];
    assert(one.drop_last() =~= Seq::empty());
    assert(one.filter(early) =~= if early(segment) {
        one
    } else {
        Seq::empty()
    });
}

/// The lag of each segment is that behind the end of its speech, in order.
pub proof fn law_each_segment_has_its_lag(
    segments: Seq<StableView>,
    vad_end_window_ms: Option<u64>,
    index: int,
)
    requires
        0 <= index < segments.len(),
    ensures
        stable_lags(segments, vad_end_window_ms).len() == segments.len(),
        stable_lags(segments, vad_end_window_ms)[index] == lag(
            segments[index].arrived_ms,
            match vad_end_window_ms {
                Some(window) => lag(segments[index].end_ms, window),
                None => segments[index].end_ms,
            },
        ),
{
}

/// The latencies are the medians and the 95th percentiles of the lags and gaps, and how much
/// longer all took than the recording lasts.
pub proof fn law_latencies_are_percentiles(
    observed: ExchangeView,
    vad_end_window_ms: Option<u64>,
    stream_ms: u64,
    audio_duration_ms: u64,
)
    ensures
        ({
            let measured = latencies(observed, vad_end_window_ms, stream_ms, audio_duration_ms);
            let live_gaps = gaps_between(observed.live_update_times_ms);
            let lags = stable_lags(observed.stable_segments, vad_end_window_ms);
            &&& measured.live_lag_p50 == percentile_of(observed.live_lags_ms, 50)
            &&& measured.live_lag_p95 == percentile_of(observed.live_lags_ms, 95)
            &&& measured.live_gap_p50 == percentile_of(live_gaps, 50)
            &&& measured.live_gap_p95 == percentile_of(live_gaps, 95)
            &&& measured.stable_lag_p50 == percentile_of(lags, 50)
            &&& measured.stable_lag_p95 == percentile_of(lags, 95)
            &&& stream_ms >= audio_duration_ms ==> audio_duration_ms + measured.final_tail_ms
                == stream_ms
            &&& stream_ms < audio_duration_ms ==> measured.final_tail_ms == 0
        }),
{
}

} // verus!
