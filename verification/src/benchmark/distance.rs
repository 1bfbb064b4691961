//! How much a recognized text differs from the expected one.

use vstd::prelude::*;

verus! {

/// The edits that turn one text into another.
#[derive(Clone, Copy, Debug, PartialEq, Eq, Structural)]
pub struct ErrorBreakdown {
    pub substitutions: usize,
    pub insertions: usize,
    pub deletions: usize,
}

/// The numbers of edits, as natural numbers.
pub struct Edits {
    pub substitutions: nat,
    pub insertions: nat,
    pub deletions: nat,
}

impl View for ErrorBreakdown {
    type V = Edits;

    open spec fn view(&self) -> Edits {
        Edits {
            substitutions: self.substitutions as nat,
            insertions: self.insertions as nat,
            deletions: self.deletions as nat,
        }
    }
}

impl Edits {
    pub open spec fn total(self) -> nat {
        self.substitutions + self.insertions + self.deletions
    }
}

/// Whether so many edits of each kind can turn `expected` into `actual`.
pub open spec fn reachable(expected: Seq<char>, actual: Seq<char>, edits: Edits) -> bool
    decreases expected.len() + actual.len(),
{
    ||| {
        &&& expected.len() == 0
        &&& actual.len() == 0
        &&& edits.total() == 0
    }
    ||| {
        &&& expected.len() > 0
        &&& actual.len() > 0
        &&& expected.last() == actual.last()
        &&& reachable(expected.drop_last(), actual.drop_last(), edits)
    }
    ||| {
        &&& expected.len() > 0
        &&& actual.len() > 0
        &&& edits.substitutions > 0
        &&& reachable(
            expected.drop_last(),
            actual.drop_last(),
            Edits { substitutions: (edits.substitutions - 1) as nat, ..edits },
        )
    }
    ||| {
        &&& expected.len() > 0
        &&& edits.deletions > 0
        &&& reachable(
            expected.drop_last(),
            actual,
            Edits { deletions: (edits.deletions - 1) as nat, ..edits },
        )
    }
    ||| {
        &&& actual.len() > 0
        &&& edits.insertions > 0
        &&& reachable(
            expected,
            actual.drop_last(),
            Edits { insertions: (edits.insertions - 1) as nat, ..edits },
        )
    }
}

pub open spec fn smaller(a: nat, b: nat) -> nat {
    if a <= b {
        a
    } else {
        b
    }
}

/// The edit distance of two texts.
pub open spec fn distance(expected: Seq<char>, actual: Seq<char>) -> nat
    decreases expected.len() + actual.len(),
{
    if expected.len() == 0 {
        actual.len()
    } else if actual.len() == 0 {
        expected.len()
    } else {
        let changed = if expected.last() == actual.last() {
            0nat
        } else {
            1nat
        };
        smaller(
            smaller(
                distance(expected.drop_last(), actual.drop_last()) + changed,
                distance(expected.drop_last(), actual) + 1,
            ),
            distance(expected, actual.drop_last()) + 1,
        )
    }
}

proof fn lemma_distance_steps(expected: Seq<char>, actual: Seq<char>)
    ensures
        expected.len() > 0 ==> distance(expected.drop_last(), actual) <= distance(expected, actual)
            + 1,
        actual.len() > 0 ==> distance(expected, actual.drop_last()) <= distance(expected, actual)
            + 1,
        expected.len() > 0 ==> distance(expected, actual) <= distance(expected.drop_last(), actual)
            + 1,
        actual.len() > 0 ==> distance(expected, actual) <= distance(expected, actual.drop_last())
            + 1,
    decreases expected.len() + actual.len(),
{
    if expected.len() > 0 && actual.len() > 0 {
        lemma_distance_steps(expected.drop_last(), actual);
        lemma_distance_steps(expected, actual.drop_last());
        lemma_distance_steps(expected.drop_last(), actual.drop_last());
    }
}

proof fn lemma_equal_ends(expected: Seq<char>, actual: Seq<char>)
    requires
        expected.len() > 0,
        actual.len() > 0,
        expected.last() == actual.last(),
    ensures
        distance(expected, actual) == distance(expected.drop_last(), actual.drop_last()),
{
    lemma_distance_steps(expected.drop_last(), actual);
    lemma_distance_steps(expected, actual.drop_last());
}

/// No fewer edits than the distance turn one text into the other.
pub proof fn law_distance_is_a_lower_bound(expected: Seq<char>, actual: Seq<char>, edits: Edits)
    requires
        reachable(expected, actual, edits),
    ensures
        distance(expected, actual) <= edits.total(),
    decreases expected.len() + actual.len(),
{
    if expected.len() == 0 && actual.len() == 0 {
    } else if expected.len() > 0 && actual.len() > 0 && expected.last() == actual.last()
        && reachable(expected.drop_last(), actual.drop_last(), edits) {
        law_distance_is_a_lower_bound(expected.drop_last(), actual.drop_last(), edits);
    } else if expected.len() > 0 && actual.len() > 0 && edits.substitutions > 0 && reachable(
        expected.drop_last(),
        actual.drop_last(),
        Edits { substitutions: (edits.substitutions - 1) as nat, ..edits },
    ) {
        law_distance_is_a_lower_bound(
            expected.drop_last(),
            actual.drop_last(),
            Edits { substitutions: (edits.substitutions - 1) as nat, ..edits },
        );
    } else if expected.len() > 0 && edits.deletions > 0 && reachable(
        expected.drop_last(),
        actual,
        Edits { deletions: (edits.deletions - 1) as nat, ..edits },
    ) {
        law_distance_is_a_lower_bound(
            expected.drop_last(),
            actual,
            Edits { deletions: (edits.deletions - 1) as nat, ..edits },
        );
        lemma_distance_steps(expected, actual);
    } else {
        law_distance_is_a_lower_bound(
            expected,
            actual.drop_last(),
            Edits { insertions: (edits.insertions - 1) as nat, ..edits },
        );
        lemma_distance_steps(expected, actual);
    }
}

/// The edits that are counted: from the end of both texts to their beginning, a character
/// that is the same costs nothing; else a substitution is taken where it lies on a shortest
/// way, else a deletion, else an insertion.
pub open spec fn counted(expected: Seq<char>, actual: Seq<char>) -> Edits
    decreases expected.len() + actual.len(),
{
    if expected.len() == 0 && actual.len() == 0 {
        Edits { substitutions: 0, insertions: 0, deletions: 0 }
    } else if expected.len() > 0 && actual.len() > 0 && expected.last() == actual.last() {
        counted(expected.drop_last(), actual.drop_last())
    } else if expected.len() > 0 && actual.len() > 0 && distance(expected, actual) == distance(
        expected.drop_last(),
        actual.drop_last(),
    ) + 1 {
        let rest = counted(expected.drop_last(), actual.drop_last());
        Edits { substitutions: rest.substitutions + 1, ..rest }
    } else if expected.len() > 0 && distance(expected, actual) == distance(
        expected.drop_last(),
        actual,
    ) + 1 {
        let rest = counted(expected.drop_last(), actual);
        Edits { deletions: rest.deletions + 1, ..rest }
    } else if actual.len() > 0 {
        let rest = counted(expected, actual.drop_last());
        Edits { insertions: rest.insertions + 1, ..rest }
    } else {
        Edits { substitutions: 0, insertions: 0, deletions: 0 }
    }
}

/// The edits that are counted turn one text into the other, and are as few as can be.
pub proof fn law_counted_edits_are_minimal(expected: Seq<char>, actual: Seq<char>)
    ensures
        reachable(expected, actual, counted(expected, actual)),
        counted(expected, actual).total() == distance(expected, actual),
    decreases expected.len() + actual.len(),
{
    if expected.len() == 0 && actual.len() == 0 {
    } else if expected.len() > 0 && actual.len() > 0 && expected.last() == actual.last() {
        lemma_equal_ends(expected, actual);
        law_counted_edits_are_minimal(expected.drop_last(), actual.drop_last());
    } else if expected.len() > 0 && actual.len() > 0 && distance(expected, actual) == distance(
        expected.drop_last(),
        actual.drop_last(),
    ) + 1 {
        law_counted_edits_are_minimal(expected.drop_last(), actual.drop_last());
        let rest = counted(expected.drop_last(), actual.drop_last());
        let edits = counted(expected, actual);
        assert(Edits { substitutions: (edits.substitutions - 1) as nat, ..edits } == rest);
    } else if expected.len() > 0 && distance(expected, actual) == distance(
        expected.drop_last(),
        actual,
    ) + 1 {
        law_counted_edits_are_minimal(expected.drop_last(), actual);
        let rest = counted(expected.drop_last(), actual);
        let edits = counted(expected, actual);
        assert(Edits { deletions: (edits.deletions - 1) as nat, ..edits } == rest);
    } else {
        assert(actual.len() > 0);
        law_counted_edits_are_minimal(expected, actual.drop_last());
        let rest = counted(expected, actual.drop_last());
        let edits = counted(expected, actual);
        assert(Edits { insertions: (edits.insertions - 1) as nat, ..edits } == rest);
    }
}

proof fn lemma_distance_bound(expected: Seq<char>, actual: Seq<char>)
    ensures
        distance(expected, actual) <= expected.len() + actual.len(),
    decreases expected.len() + actual.len(),
{
    if expected.len() > 0 && actual.len() > 0 {
        lemma_distance_bound(expected.drop_last(), actual);
    }
}

/// No more edits are counted than there are characters.
pub proof fn lemma_counted_bound(expected: Seq<char>, actual: Seq<char>)
    ensures
        counted(expected, actual).total() <= expected.len() + actual.len(),
{
    law_counted_edits_are_minimal(expected, actual);
    lemma_distance_bound(expected, actual);
}

/// Whether `row` holds the distances of all beginnings of `actual` from `expected`.
spec fn is_row(row: Seq<usize>, expected: Seq<char>, actual: Seq<char>, count: nat) -> bool {
    &&& row.len() == count
    &&& forall|j: int|
        0 <= j < count ==> (#[trigger] row[j]) == distance(expected, actual.take(j))
}

fn first_row(actual: &[char]) -> (result: Vec<usize>)
    requires
        actual@.len() < usize::MAX,
    ensures
        is_row(result@, Seq::empty(), actual@, actual@.len() + 1),
{
    let mut row: Vec<usize> = Vec::new();
    let mut j: usize = 0;
    while j <= actual.len()
        invariant
            j <= actual@.len() + 1,
            actual@.len() < usize::MAX,
            is_row(row@, Seq::empty(), actual@, j as nat),
        decreases actual@.len() + 1 - j,
    {
        row.push(j);
        j += 1;
    }
    row
}

fn next_row(expected: &[char], i: usize, actual: &[char], above: &Vec<usize>) -> (result: Vec<usize>)
    requires
        i < expected@.len(),
        expected@.len() + actual@.len() < usize::MAX,
        is_row(above@, expected@.take(i as int), actual@, actual@.len() + 1),
    ensures
        is_row(result@, expected@.take(i + 1), actual@, actual@.len() + 1),
{
    let ghost upper = expected@.take(i as int);
    let ghost lower = expected@.take(i + 1);
    let mut row: Vec<usize> = Vec::new();
    row.push(i + 1);
    proof {
        assert(lower.drop_last() =~= upper);
        assert(lower.last() == expected@[i as int]);
        assert(actual@.take(0) =~= Seq::empty());
    }
    let mut j: usize = 1;
    while j <= actual.len()
        invariant
            1 <= j <= actual@.len() + 1,
            i < expected@.len(),
            expected@.len() + actual@.len() < usize::MAX,
            upper == expected@.take(i as int),
            lower == expected@.take(i + 1),
            lower.drop_last() == upper,
            lower.last() == expected@[i as int],
            is_row(above@, upper, actual@, actual@.len() + 1),
            is_row(row@, lower, actual@, j as nat),
        decreases actual@.len() + 1 - j,
    {
        proof {
            let here = actual@.take(j as int);
            assert(here.drop_last() =~= actual@.take(j - 1));
            assert(here.last() == actual@[j - 1]);
            assert(above@[j - 1] == distance(upper, actual@.take(j - 1)));
            assert(above@[j as int] == distance(upper, here));
            assert(row@[j - 1] == distance(lower, actual@.take(j - 1)));
            lemma_distance_bound(upper, actual@.take(j - 1));
            lemma_distance_bound(upper, here);
            lemma_distance_bound(lower, actual@.take(j - 1));
        }
        let changed: usize = if expected[i] != actual[j - 1] {
            1
        } else {
            0
        };
        let mut best: usize = above[j - 1] + changed;
        let deletion: usize = above[j] + 1;
        let insertion: usize = row[j - 1] + 1;
        if deletion < best {
            best = deletion;
        }
        if insertion < best {
            best = insertion;
        }
        row.push(best);
        j += 1;
    }
    row
}

/// Counts the edits that turn `expected` into `actual`.
pub fn error_breakdown(expected: &[char], actual: &[char]) -> (result: ErrorBreakdown)
    requires
        expected@.len() + actual@.len() < usize::MAX,
    ensures
        result@ == counted(expected@, actual@),
{
    let mut rows: Vec<Vec<usize>> = Vec::new();
    rows.push(first_row(actual));
    let mut i: usize = 0;
    proof {
        assert(expected@.take(0) =~= Seq::empty());
    }
    while i < expected.len()
        invariant
            i <= expected@.len(),
            expected@.len() + actual@.len() < usize::MAX,
            rows@.len() == i + 1,
            forall|k: int|
                0 <= k <= i ==> is_row(
                    (#[trigger] rows@[k])@,
                    expected@.take(k),
                    actual@,
                    actual@.len() + 1,
                ),
        decreases expected@.len() - i,
    {
        let row = next_row(expected, i, actual, &rows[i]);
        rows.push(row);
        i += 1;
    }
    let mut i: usize = expected.len();
    let mut j: usize = actual.len();
    let mut errors = ErrorBreakdown { substitutions: 0, insertions: 0, deletions: 0 };
    proof {
        assert(expected@.take(expected@.len() as int) =~= expected@);
        assert(actual@.take(actual@.len() as int) =~= actual@);
    }
    while i > 0 || j > 0
        invariant
            i <= expected@.len(),
            j <= actual@.len(),
            expected@.len() + actual@.len() < usize::MAX,
            rows@.len() == expected@.len() + 1,
            forall|k: int|
                0 <= k <= expected@.len() ==> is_row(
                    (#[trigger] rows@[k])@,
                    expected@.take(k),
                    actual@,
                    actual@.len() + 1,
                ),
            ({
                let rest = counted(expected@.take(i as int), actual@.take(j as int));
                let all = counted(expected@, actual@);
                &&& errors.substitutions + rest.substitutions == all.substitutions
                &&& errors.insertions + rest.insertions == all.insertions
                &&& errors.deletions + rest.deletions == all.deletions
            }),
        decreases i + j,
    {
        proof {
            lemma_counted_bound(expected@, actual@);
            let e = expected@.take(i as int);
            let a = actual@.take(j as int);
            assert(is_row(rows@[i as int]@, e, actual@, actual@.len() + 1));
            if i > 0 {
                assert(e.drop_last() =~= expected@.take(i - 1));
                assert(e.last() == expected@[i - 1]);
                assert(is_row(rows@[i - 1]@, expected@.take(i - 1), actual@, actual@.len() + 1));
            }
            if j > 0 {
                assert(a.drop_last() =~= actual@.take(j - 1));
                assert(a.last() == actual@[j - 1]);
            }
            lemma_distance_bound(e, a);
            if i > 0 {
                lemma_distance_bound(e.drop_last(), a);
            }
            if i > 0 && j > 0 {
                lemma_distance_bound(e.drop_last(), a.drop_last());
            }
        }
        if i > 0 && j > 0 && expected[i - 1] == actual[j - 1] {
            i -= 1;
            j -= 1;
        } else if i > 0 && j > 0 && rows[i][j] == rows[i - 1][j - 1] + 1 {
            errors.substitutions += 1;
            i -= 1;
            j -= 1;
        } else if i > 0 && rows[i][j] == rows[i - 1][j] + 1 {
            errors.deletions += 1;
            i -= 1;
        } else {
            errors.insertions += 1;
            j -= 1;
        }
    }
    errors
}

impl ErrorBreakdown {
    /// The number of edits.
    pub fn distance(&self) -> (result: usize)
        requires
            self@.total() <= usize::MAX,
        ensures
            result == self@.total(),
    {
        self.substitutions + self.insertions + self.deletions
    }
}

proof fn lemma_distance_is_symmetric(left: Seq<char>, right: Seq<char>)
    ensures
        distance(left, right) == distance(right, left),
    decreases left.len() + right.len(),
{
    if left.len() > 0 && right.len() > 0 {
        lemma_distance_is_symmetric(left.drop_last(), right.drop_last());
        lemma_distance_is_symmetric(left.drop_last(), right);
        lemma_distance_is_symmetric(left, right.drop_last());
    }
}

proof fn lemma_distance_of_equal_texts(text: Seq<char>)
    ensures
        distance(text, text) == 0,
    decreases text.len(),
{
    if text.len() > 0 {
        lemma_distance_of_equal_texts(text.drop_last());
    }
}

proof fn lemma_no_distance_means_equal(left: Seq<char>, right: Seq<char>)
    requires
        distance(left, right) == 0,
    ensures
        left == right,
    decreases left.len() + right.len(),
{
    if left.len() == 0 || right.len() == 0 {
        assert(left =~= right);
    } else {
        assert(left.last() == right.last());
        lemma_no_distance_means_equal(left.drop_last(), right.drop_last());
        assert(left =~= left.drop_last().push(left.last()));
        assert(right =~= right.drop_last().push(right.last()));
    }
}

/// Two texts have no distance exactly when they are the same, and the same distance in both
/// directions. From and to nothing it is the length. A character more changes it by one at
/// most, the same character behind both not at all.
pub proof fn law_distance_measures_the_difference(left: Seq<char>, right: Seq<char>, c: char)
    ensures
        distance(left, right) == 0 <==> left == right,
        distance(left, right) == distance(right, left),
        distance(left, Seq::empty()) == left.len(),
        distance(left.push(c), right.push(c)) == distance(left, right),
        distance(left, right) <= distance(left.push(c), right) + 1,
        distance(left.push(c), right) <= distance(left, right) + 1,
        left.len() <= right.len() + distance(left, right),
        right.len() <= left.len() + distance(left, right),
{
    lemma_distance_is_symmetric(left, right);
    lemma_distance_of_equal_texts(left);
    if distance(left, right) == 0 {
        lemma_no_distance_means_equal(left, right);
    }
    lemma_distance_is_symmetric(left, Seq::empty());
    assert(left.push(c).drop_last() =~= left);
    assert(right.push(c).drop_last() =~= right);
    lemma_equal_ends(left.push(c), right.push(c));
    lemma_distance_steps(left.push(c), right);
    lemma_distance_covers_lengths(left, right);
}

proof fn lemma_distance_covers_lengths(left: Seq<char>, right: Seq<char>)
    ensures
        left.len() <= right.len() + distance(left, right),
        right.len() <= left.len() + distance(left, right),
    decreases left.len() + right.len(),
{
    if left.len() > 0 && right.len() > 0 {
        lemma_distance_covers_lengths(left.drop_last(), right.drop_last());
        lemma_distance_covers_lengths(left.drop_last(), right);
        lemma_distance_covers_lengths(left, right.drop_last());
    }
}

/// The kinds of the edits: those that are counted make up for the difference in length, and of
/// several shortest ways the one is taken that substitutes the last characters, else the one
/// that deletes the expected one.
pub proof fn law_substitutions_are_preferred(
    expected: Seq<char>,
    actual: Seq<char>,
    wanted: char,
    found: char,
)
    requires
        wanted != found,
    ensures
        ({
            let longer = expected.push(wanted);
            let other = actual.push(found);
            let all = counted(longer, other);
            &&& distance(longer, other) == distance(expected, actual) + 1 ==> all
                == (Edits {
                substitutions: counted(expected, actual).substitutions + 1,
                ..counted(expected, actual)
            })
            &&& distance(longer, other) != distance(expected, actual) + 1 && distance(longer, other)
                == distance(expected, other) + 1 ==> all == (Edits {
                deletions: counted(expected, other).deletions + 1,
                ..counted(expected, other)
            })
        }),
        counted(expected.push(wanted), actual.push(wanted)) == counted(expected, actual),
        counted(expected, actual).insertions + expected.len() == counted(expected, actual).deletions
            + actual.len(),
{
    assert(expected.push(wanted).drop_last() =~= expected);
    assert(actual.push(found).drop_last() =~= actual);
    assert(actual.push(wanted).drop_last() =~= actual);
    law_counted_edits_are_minimal(expected, actual);
    lemma_edits_make_up_for_lengths(expected, actual, counted(expected, actual));
}

proof fn lemma_edits_make_up_for_lengths(expected: Seq<char>, actual: Seq<char>, edits: Edits)
    requires
        reachable(expected, actual, edits),
    ensures
        edits.insertions + expected.len() == edits.deletions + actual.len(),
    decreases expected.len() + actual.len(),
{
    if expected.len() == 0 && actual.len() == 0 && edits.total() == 0 {
    } else if expected.len() > 0 && actual.len() > 0 && expected.last() == actual.last()
        && reachable(expected.drop_last(), actual.drop_last(), edits) {
        lemma_edits_make_up_for_lengths(expected.drop_last(), actual.drop_last(), edits);
    } else if expected.len() > 0 && actual.len() > 0 && edits.substitutions > 0 && reachable(
        expected.drop_last(),
        actual.drop_last(),
        Edits { substitutions: (edits.substitutions - 1) as nat, ..edits },
    ) {
        lemma_edits_make_up_for_lengths(
            expected.drop_last(),
            actual.drop_last(),
            Edits { substitutions: (edits.substitutions - 1) as nat, ..edits },
        );
    } else if expected.len() > 0 && edits.deletions > 0 && reachable(
        expected.drop_last(),
        actual,
        Edits { deletions: (edits.deletions - 1) as nat, ..edits },
    ) {
        lemma_edits_make_up_for_lengths(
            expected.drop_last(),
            actual,
            Edits { deletions: (edits.deletions - 1) as nat, ..edits },
        );
    } else {
        lemma_edits_make_up_for_lengths(
            expected,
            actual.drop_last(),
            Edits { insertions: (edits.insertions - 1) as nat, ..edits },
        );
    }
}

} // verus!
