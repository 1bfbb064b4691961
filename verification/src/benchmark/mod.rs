//! Measuring how well and how fast the service recognizes a recording.

use vstd::prelude::*;
use vstd::relations::{sorted_by, total_ordering};
use vstd::seq_lib::{lemma_sorted_unique, to_multiset_insert};

use crate::asr::packets::{edge_guard, edge_guard_samples};
use crate::bytes::{decimal_digits, natural_text, sample_at, signed16};
use crate::text::trimmed;

pub mod arguments;
pub mod distance;
pub mod exchange;
pub mod report;

verus! {

pub const SAMPLE_RATE: usize = 16_000;

/// The number of samples that are looked at together when silence is cut off.
pub const TRIM_WINDOW_SAMPLES: usize = 320;

/// The values in ascending order.
pub open spec fn ascending(values: Seq<u64>) -> Seq<u64> {
    values.sort_by(|a: u64, b: u64| a <= b)
}

/// Sorts values.
pub fn sorted(values: &[u64]) -> (result: Vec<u64>)
    ensures
        result@ == ascending(values@),
        result@.len() == values@.len(),
{
    let ghost leq = |a: u64, b: u64| a <= b;
    let mut result: Vec<u64> = Vec::new();
    let mut i: usize = 0;
    proof {
        assert(values@.take(0) =~= Seq::empty());
    }
    while i < values.len()
        invariant
            i <= values@.len(),
            leq == (|a: u64, b: u64| a <= b),
            result@.len() == i,
            sorted_by(result@, leq),
            result@.to_multiset() == values@.take(i as int).to_multiset(),
        decreases values@.len() - i,
    {
        let value: u64 = values[i];
        let mut at: usize = result.len();
        while at > 0 && result[at - 1] > value
            invariant
                at <= result@.len(),
                leq == (|a: u64, b: u64| a <= b),
                sorted_by(result@, leq),
                forall|k: int| at <= k < result@.len() ==> value < #[trigger] result@[k],
            decreases at,
        {
            at -= 1;
        }
        let ghost before = result@;
        result.insert(at, value);
        proof {
            assert(result@ =~= before.insert(at as int, value));
            to_multiset_insert(before, at as int, value);
            assert(values@.take(i + 1) =~= values@.take(i as int).insert(i as int, value));
            to_multiset_insert(values@.take(i as int), i as int, value);
            assert forall|x: int, y: int| 0 <= x < y < result@.len() implies #[trigger] leq(
                result@[x],
                result@[y],
            ) by {
                let a = if x < at { x } else { x - 1 };
                let b = if y < at { y } else { y - 1 };
                if x != at && y != at {
                    assert(leq(before[a], before[b]));
                } else if x == at {
                    assert(value < before[b]);
                } else {
                    if a < at - 1 {
                        assert(leq(before[a], before[at - 1]));
                    }
                }
            }
        }
        i += 1;
    }
    proof {
        assert(values@.take(values@.len() as int) =~= values@);
        assert(total_ordering(leq));
        values@.lemma_sort_by_ensures(leq);
        lemma_sorted_unique(result@, values@.sort_by(leq), leq);
    }
    result
}

/// The place of a percentile among sorted values, by the nearest rank.
pub open spec fn nearest_rank(percent: nat, count: nat) -> int {
    let rank = (percent * count + 99) / 100;
    if rank == 0 {
        0
    } else {
        rank - 1
    }
}

/// A percentile of some values, by the nearest rank; none where there is no such rank.
pub open spec fn percentile_of(values: Seq<u64>, percent: nat) -> Option<u64> {
    let rank = nearest_rank(percent, values.len());
    if rank < values.len() {
        Some(ascending(values)[rank])
    } else {
        None
    }
}

/// A percentile of some values, by the nearest rank.
pub fn percentile(values: &[u64], percent: usize) -> (result: Option<u64>)
    ensures
        result == percentile_of(values@, percent as nat),
{
    let sorted = sorted(values);
    let count: u128 = values.len() as u128;
    let share: u128 = percent as u128;
    proof {
        assert(0 <= share * count <= 0xffff_ffff_ffff_ffff * 0xffff_ffff_ffff_ffff)
            by (nonlinear_arith)
            requires
                0 <= share <= 0xffff_ffff_ffff_ffff,
                0 <= count <= 0xffff_ffff_ffff_ffff,
        ;
    }
    let rank: u128 = (share * count + 99) / 100;
    let place: u128 = if rank == 0 {
        0
    } else {
        rank - 1
    };
    if place < count {
        Some(sorted[place as usize])
    } else {
        None
    }
}

/// A percentile from zero to a hundred of at least one value is one of the values.
pub proof fn law_percentile_exists(percent: nat, count: nat)
    requires
        percent <= 100,
        count > 0,
    ensures
        0 <= nearest_rank(percent, count) < count,
{
    assert(percent * count <= 100 * count) by (nonlinear_arith)
        requires
            percent <= 100,
    ;
    assert(0 <= percent * count) by (nonlinear_arith)
        requires
            percent >= 0,
            count >= 0,
    ;
}

/// The text of a duration that may not be known.
pub open spec fn duration_text(value: Option<u64>) -> Seq<char> {
    match value {
        Some(value) => decimal_digits(value as nat) + "ms"@,
        None => "n/a"@,
    }
}

/// The text of a duration that may not be known.
pub fn display_ms(value: Option<u64>) -> (result: String)
    ensures
        result@ == duration_text(value),
{
    match value {
        Some(value) => {
            let mut text = natural_text(value);
            text.append("ms");
            text
        },
        None => "n/a".to_owned(),
    }
}

/// The gaps between a series of moments; zero where one is not later than the one before it.
pub open spec fn gaps_between(times: Seq<u64>) -> Seq<u64> {
    Seq::new(
        if times.len() > 0 {
            (times.len() - 1) as nat
        } else {
            0
        },
        |i: int| exchange::lag(times[i + 1], times[i]),
    )
}

/// The gaps between a series of moments.
pub fn gaps(times: &[u64]) -> (result: Vec<u64>)
    ensures
        result@ == gaps_between(times@),
{
    let mut result: Vec<u64> = Vec::new();
    if times.len() == 0 {
        return result;
    }
    let mut i: usize = 0;
    while i < times.len() - 1
        invariant
            times@.len() > 0,
            i <= times@.len() - 1,
            result@ == gaps_between(times@).take(i as int),
        decreases times@.len() - i,
    {
        result.push(times[i + 1].saturating_sub(times[i]));
        proof {
            assert(result@ =~= gaps_between(times@).take(i + 1));
        }
        i += 1;
    }
    result
}

/// A recording with the same silence around it as a dictation has.
pub fn add_edge_guards(pcm: &[i16]) -> (result: Vec<i16>)
    ensures
        result@ == edge_guard() + pcm@ + edge_guard(),
{
    let mut guarded: Vec<i16> = vec![0i16; edge_guard_samples()];
    let ghost guard = guarded@;
    proof {
        assert(guard =~= edge_guard());
        assert(guarded@ =~= guard + pcm@.take(0));
    }
    let mut i: usize = 0;
    while i < pcm.len()
        invariant
            i <= pcm@.len(),
            guarded@ == guard + pcm@.take(i as int),
        decreases pcm@.len() - i,
    {
        guarded.push(pcm[i]);
        proof {
            assert(guarded@ =~= guard + pcm@.take(i + 1));
        }
        i += 1;
    }
    proof {
        assert(pcm@.take(pcm@.len() as int) =~= pcm@);
    }
    let mut tail: Vec<i16> = vec![0i16; edge_guard_samples()];
    proof {
        assert(tail@ =~= edge_guard());
    }
    guarded.append(&mut tail);
    guarded
}

/// Why a decoded recording cannot be used.
#[derive(Clone, Copy, Debug, PartialEq, Eq, Structural)]
pub enum PcmError {
    Empty,
    IncompleteSample,
}

/// The samples in 16-bit little-endian PCM.
pub fn decode_pcm(bytes: &[u8]) -> (result: Result<Vec<i16>, PcmError>)
    ensures
        match result {
            Ok(samples) => bytes@.len() > 0 && bytes@.len() == 2 * samples@.len() && forall|i: int|
                0 <= i < samples@.len() ==> (#[trigger] samples@[i]) == sample_at(bytes@, i),
            Err(PcmError::Empty) => bytes@.len() == 0,
            Err(PcmError::IncompleteSample) => bytes@.len() % 2 == 1,
        },
{
    if bytes.len() == 0 {
        return Err(PcmError::Empty);
    }
    if bytes.len() % 2 != 0 {
        return Err(PcmError::IncompleteSample);
    }
    let total: usize = bytes.len();
    let count: usize = total / 2;
    let mut samples: Vec<i16> = Vec::new();
    let mut i: usize = 0;
    while i < count
        invariant
            i <= count,
            bytes@.len() == total,
            total == 2 * count,
            samples@.len() == i,
            forall|k: int| 0 <= k < i ==> (#[trigger] samples@[k]) == sample_at(bytes@, k),
        decreases count - i,
    {
        let value: u16 = bytes[2 * i] as u16 + bytes[2 * i + 1] as u16 * 256;
        let sample: i16 = if value < 0x8000 {
            value as i16
        } else {
            (value as i32 - 0x1_0000) as i16
        };
        proof {
            assert(sample == signed16(value));
        }
        samples.push(sample);
        i += 1;
    }
    Ok(samples)
}

/// The part of a recording between its first and its last active window.
pub fn active_part(pcm: &[i16], first_active: usize, last_active: usize) -> (result: Vec<i16>)
    requires
        first_active <= last_active,
        first_active * TRIM_WINDOW_SAMPLES <= pcm@.len(),
        (last_active + 1) * TRIM_WINDOW_SAMPLES <= usize::MAX,
    ensures
        result@ == pcm@.subrange(
            first_active * TRIM_WINDOW_SAMPLES,
            if (last_active + 1) * TRIM_WINDOW_SAMPLES < pcm@.len() {
                (last_active + 1) * TRIM_WINDOW_SAMPLES
            } else {
                pcm@.len() as int
            },
        ),
{
    let start = first_active * TRIM_WINDOW_SAMPLES;
    let bound = (last_active + 1) * TRIM_WINDOW_SAMPLES;
    let end = if bound < pcm.len() {
        bound
    } else {
        pcm.len()
    };
    let mut result: Vec<i16> = Vec::new();
    let mut i: usize = start;
    while i < end
        invariant
            start <= i <= end <= pcm@.len(),
            result@ == pcm@.subrange(start as int, i as int),
        decreases end - i,
    {
        result.push(pcm[i]);
        proof {
            assert(result@ =~= pcm@.subrange(start as int, i + 1));
        }
        i += 1;
    }
    result
}

/// Why a benchmark case cannot be used.
#[derive(Clone, Copy, Debug, PartialEq, Eq, Structural)]
pub enum CaseError {
    UnsupportedVersion(u32),
    NoExpectedText,
}

/// Whether a benchmark case can be used.
pub fn check_case(schema_version: u32, expected_text: &str) -> (result: Result<(), CaseError>)
    ensures
        match result {
            Ok(_) => schema_version == 1 && trimmed(expected_text@).len() > 0,
            Err(CaseError::UnsupportedVersion(version)) => schema_version != 1 && version
                == schema_version,
            Err(CaseError::NoExpectedText) => schema_version == 1 && trimmed(
                expected_text@,
            ).len() == 0,
        },
{
    if schema_version != 1 {
        Err(CaseError::UnsupportedVersion(schema_version))
    } else if crate::text::trim(expected_text).unicode_len() == 0 {
        Err(CaseError::NoExpectedText)
    } else {
        Ok(())
    }
}

/// The lower-case characters that `char::to_lowercase` gives for a character.
pub uninterp spec fn lower_case(c: char) -> Seq<char>;

/// Calls `char::to_lowercase`. The characters depend on the character alone and are named by
/// [`lower_case`].
#[verifier::external_body]
fn to_lower_case(c: char) -> (result: Vec<char>)
    ensures
        result@ == lower_case(c),
{
    c.to_lowercase().collect()
}

/// What `char::is_alphanumeric` says of a character.
pub uninterp spec fn alphanumeric(c: char) -> bool;

/// Calls `char::is_alphanumeric`. The answer depends on the character alone and is named by
/// [`alphanumeric`].
#[verifier::external_body]
fn is_alphanumeric(c: char) -> (result: bool)
    ensures
        result == alphanumeric(c),
{
    c.is_alphanumeric()
}

/// A text in lower case.
pub open spec fn lowered(text: Seq<char>) -> Seq<char>
    decreases text.len(),
{
    if text.len() == 0 {
        Seq::empty()
    } else {
        lowered(text.drop_last()) + lower_case(text.last())
    }
}

/// The characters that count when texts are compared: letters and digits, in lower case.
pub open spec fn comparable(text: Seq<char>) -> Seq<char> {
    lowered(text).filter(|c: char| alphanumeric(c))
}

/// The characters whose flag is set.
pub open spec fn flagged(chars: Seq<char>, flags: Seq<bool>) -> Seq<char>
    decreases chars.len(),
{
    if chars.len() == 0 || flags.len() == 0 {
        Seq::empty()
    } else if flags.last() {
        flagged(chars.drop_last(), flags.drop_last()).push(chars.last())
    } else {
        flagged(chars.drop_last(), flags.drop_last())
    }
}

/// The characters whose flag is set.
pub fn keep_flagged(chars: &Vec<char>, flags: &Vec<bool>) -> (result: Vec<char>)
    requires
        chars@.len() == flags@.len(),
    ensures
        result@ == flagged(chars@, flags@),
{
    let mut result: Vec<char> = Vec::new();
    let mut i: usize = 0;
    proof {
        assert(chars@.take(0) =~= Seq::empty());
    }
    while i < chars.len()
        invariant
            i <= chars@.len(),
            chars@.len() == flags@.len(),
            result@ == flagged(chars@.take(i as int), flags@.take(i as int)),
        decreases chars@.len() - i,
    {
        proof {
            assert(chars@.take(i + 1).drop_last() =~= chars@.take(i as int));
            assert(flags@.take(i + 1).drop_last() =~= flags@.take(i as int));
        }
        if flags[i] {
            result.push(chars[i]);
        }
        i += 1;
    }
    proof {
        assert(chars@.take(chars@.len() as int) =~= chars@);
        assert(flags@.take(flags@.len() as int) =~= flags@);
    }
    result
}

proof fn lemma_flagged_is_filter(chars: Seq<char>, flags: Seq<bool>)
    requires
        chars.len() == flags.len(),
        forall|i: int| 0 <= i < chars.len() ==> (#[trigger] flags[i]) == alphanumeric(chars[i]),
    ensures
        flagged(chars, flags) == chars.filter(|c: char| alphanumeric(c)),
    decreases chars.len(),
{
    reveal(Seq::filter);
    if chars.len() > 0 {
        lemma_flagged_is_filter(chars.drop_last(), flags.drop_last());
        assert(flags.last() == alphanumeric(chars.last()));
    }
}

/// The characters that count when texts are compared.
pub fn normalize_for_cer(value: &str) -> (result: Vec<char>)
    ensures
        result@ == comparable(value@),
{
    let chars = crate::text::characters(value);
    let mut lower: Vec<char> = Vec::new();
    let mut i: usize = 0;
    proof {
        assert(chars@.take(0) =~= Seq::empty());
    }
    while i < chars.len()
        invariant
            i <= chars@.len(),
            lower@ == lowered(chars@.take(i as int)),
        decreases chars@.len() - i,
    {
        let mut more = to_lower_case(chars[i]);
        lower.append(&mut more);
        proof {
            assert(chars@.take(i + 1).drop_last() =~= chars@.take(i as int));
        }
        i += 1;
    }
    let mut flags: Vec<bool> = Vec::new();
    let mut i: usize = 0;
    while i < lower.len()
        invariant
            i <= lower@.len(),
            flags@.len() == i,
            forall|k: int| 0 <= k < i ==> (#[trigger] flags@[k]) == alphanumeric(lower@[k]),
        decreases lower@.len() - i,
    {
        flags.push(is_alphanumeric(lower[i]));
        i += 1;
    }
    proof {
        assert(chars@.take(chars@.len() as int) =~= chars@);
        lemma_flagged_is_filter(lower@, flags@);
    }
    keep_flagged(&lower, &flags)
}

/// Sorting keeps the values, each as often as it comes, and puts none before a smaller one.
pub proof fn law_sorting_keeps_the_values(values: Seq<u64>)
    ensures
        ascending(values).to_multiset() == values.to_multiset(),
        ascending(values).len() == values.len(),
        forall|i: int, j: int|
            0 <= i <= j < values.len() ==> #[trigger] ascending(values)[i] <= #[trigger] ascending(
                values,
            )[j],
{
    let leq = |a: u64, b: u64| a <= b;
    assert(total_ordering(leq));
    values.lemma_sort_by_ensures(leq);
    let result = ascending(values);
    assert(result.len() == values.len()) by {
        result.to_multiset_ensures();
        values.to_multiset_ensures();
    }
    assert forall|i: int, j: int| 0 <= i <= j < values.len() implies #[trigger] result[i]
        <= #[trigger] result[j] by {
        if i < j {
            assert(leq(result[i], result[j]));
        }
    }
}

/// The nearest rank of a percentile is the first at which at least that share of the values has
/// been counted; where the share is nothing, it is the first of all.
pub proof fn law_the_nearest_rank_is_the_first_that_reaches_the_share(percent: nat, count: nat)
    ensures
        nearest_rank(percent, count) >= 0,
        100 * (nearest_rank(percent, count) + 1) >= percent * count,
        nearest_rank(percent, count) > 0 ==> 100 * nearest_rank(percent, count) < percent * count,
{
    assert(0 <= percent * count) by (nonlinear_arith)
        requires
            percent >= 0,
            count >= 0,
    ;
}

/// A percentile is the value at its rank among the sorted values: one of the values, of which
/// those before it are not larger and those behind it not smaller.
pub proof fn law_percentiles_are_values(values: Seq<u64>, percent: nat)
    ensures
        percentile_of(values, percent) matches Some(value) ==> {
            &&& values.contains(value)
            &&& nearest_rank(percent, values.len()) < values.len()
            &&& forall|i: int|
                0 <= i <= nearest_rank(percent, values.len()) ==> #[trigger] ascending(values)[i]
                    <= value
            &&& forall|i: int|
                nearest_rank(percent, values.len()) <= i < values.len() ==> #[trigger] ascending(
                    values,
                )[i] >= value
        },
        percentile_of(values, percent) is None <==> nearest_rank(percent, values.len())
            >= values.len(),
        values.len() == 0 ==> percentile_of(values, percent) is None,
{
    law_sorting_keeps_the_values(values);
    law_the_nearest_rank_is_the_first_that_reaches_the_share(percent, values.len());
    if percentile_of(values, percent) is Some {
        let rank = nearest_rank(percent, values.len());
        let value = ascending(values)[rank];
        ascending(values).to_multiset_ensures();
        values.to_multiset_ensures();
        assert(ascending(values).contains(value));
        assert(ascending(values).to_multiset().count(value) > 0);
    }
}

/// There is a gap between every two neighbours: what the later moment comes after the earlier
/// one, or nothing where it does not.
pub proof fn law_gaps_lead_from_moment_to_moment(times: Seq<u64>, index: int)
    requires
        0 <= index < times.len() - 1,
    ensures
        gaps_between(times).len() == times.len() - 1,
        times[index] <= times[index + 1] ==> times[index] + gaps_between(times)[index]
            == times[index + 1],
        times[index] > times[index + 1] ==> gaps_between(times)[index] == 0,
{
}

/// A duration that is known is written in milliseconds.
pub proof fn law_durations_are_written(value: u64)
    ensures
        duration_text(Some(value)) == decimal_digits(value as nat) + "ms"@,
        duration_text(None) == "n/a"@,
{
}

proof fn lemma_lowered_add(left: Seq<char>, right: Seq<char>)
    ensures
        lowered(left + right) == lowered(left) + lowered(right),
    decreases right.len(),
{
    if right.len() == 0 {
        assert(left + right =~= left);
        assert(lowered(left) + lowered(right) =~= lowered(left));
    } else {
        lemma_lowered_add(left, right.drop_last());
        assert((left + right).drop_last() =~= left + right.drop_last());
        assert((left + right).last() == right.last());
        assert(lowered(left + right) =~= lowered(left) + lowered(right));
    }
}

/// What counts of a text is what counts of each of its characters, in order: the letters and
/// digits of its lower-case form.
pub proof fn law_characters_count_by_themselves(left: Seq<char>, c: char, right: Seq<char>)
    ensures
        comparable(left + right) == comparable(left) + comparable(right),
        comparable(seq![c]) == lower_case(c).filter(|c: char| alphanumeric(c)),
        comparable(Seq::empty()).len() == 0,
{
    lemma_lowered_add(left, right);
    Seq::filter_distributes_over_add(lowered(left), lowered(right), |c: char| alphanumeric(c));
    reveal_with_fuel(lowered, 2);
    assert(seq![c].drop_last() =~= Seq::empty());
    assert(lowered(seq![c]) =~= lower_case(c));
    reveal(Seq::filter);
}

/// A character is kept exactly where its flag is set.
pub proof fn law_flags_decide(chars: Seq<char>, flags: Seq<bool>, c: char, flag: bool)
    ensures
        flagged(chars.push(c), flags.push(flag)) == if flag {
            flagged(chars, flags).push(c)
        } else {
            flagged(chars, flags)
        },
        flagged(Seq::empty(), Seq::empty()).len() == 0,
{
    assert(chars.push(c).drop_last() =~= chars);
    assert(flags.push(flag).drop_last() =~= flags);
}

} // verus!
