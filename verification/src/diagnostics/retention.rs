//! Which sessions are kept.

use vstd::prelude::*;
use vstd::utf8::{encode_scalar, encode_utf8, leading_byte_width_1};

use crate::bytes::{decimal_digits, digit, natural_text};

verus! {

pub const SESSION_LIMIT: usize = 100;

/// The order of names, byte by byte; a name comes before those that it begins.
pub open spec fn name_le(left: Seq<u8>, right: Seq<u8>) -> bool
    decreases left.len(),
{
    if left.len() == 0 {
        true
    } else if right.len() == 0 {
        false
    } else if left[0] != right[0] {
        left[0] < right[0]
    } else {
        name_le(left.skip(1), right.skip(1))
    }
}

proof fn lemma_name_le_total(left: Seq<u8>, right: Seq<u8>)
    ensures
        name_le(left, right) || name_le(right, left),
    decreases left.len(),
{
    if left.len() > 0 && right.len() > 0 && left[0] == right[0] {
        lemma_name_le_total(left.skip(1), right.skip(1));
    }
}

proof fn lemma_name_le_transitive(a: Seq<u8>, b: Seq<u8>, c: Seq<u8>)
    requires
        name_le(a, b),
        name_le(b, c),
    ensures
        name_le(a, c),
    decreases a.len(),
{
    if a.len() > 0 && b.len() > 0 && c.len() > 0 && a[0] == b[0] && b[0] == c[0] {
        lemma_name_le_transitive(a.skip(1), b.skip(1), c.skip(1));
    }
}

/// Whether `left` comes before `right` or is the same.
pub fn comes_first(left: &[u8], right: &[u8]) -> (result: bool)
    ensures
        result == name_le(left@, right@),
{
    let mut i: usize = 0;
    proof {
        assert(left@.skip(0) =~= left@);
        assert(right@.skip(0) =~= right@);
    }
    while i < left.len()
        invariant
            i <= left@.len(),
            i <= right@.len(),
            name_le(left@, right@) == name_le(left@.skip(i as int), right@.skip(i as int)),
        decreases left@.len() - i,
    {
        if i >= right.len() {
            return false;
        }
        if left[i] != right[i] {
            return left[i] < right[i];
        }
        proof {
            assert(left@.skip(i as int).skip(1) =~= left@.skip(i + 1));
            assert(right@.skip(i as int).skip(1) =~= right@.skip(i + 1));
        }
        i += 1;
    }
    true
}

/// Whether `order` lists places of `names`, each once, in the order of the names there.
pub open spec fn ordered(names: Seq<Vec<u8>>, order: Seq<usize>) -> bool {
    &&& order.no_duplicates()
    &&& forall|i: int| 0 <= i < order.len() ==> (#[trigger] order[i]) < names.len()
    &&& forall|i: int, j: int|
        0 <= i <= j < order.len() ==> name_le(
            names[(#[trigger] order[i]) as int]@,
            names[(#[trigger] order[j]) as int]@,
        )
}

fn insert_place(names: &Vec<Vec<u8>>, order: &mut Vec<usize>, place: usize)
    requires
        place < names@.len(),
        ordered(names@, old(order)@),
        !old(order)@.contains(place),
    ensures
        ordered(names@, final(order)@),
        final(order)@.to_set() == old(order)@.to_set().insert(place),
        final(order)@.len() == old(order)@.len() + 1,
{
    let mut at: usize = order.len();
    while at > 0 && !comes_first(names[order[at - 1]].as_slice(), names[place].as_slice())
        invariant
            at <= order@.len(),
            order@ == old(order)@,
            place < names@.len(),
            ordered(names@, order@),
            forall|i: int|
                at <= i < order@.len() ==> !name_le(
                    names@[(#[trigger] order@[i]) as int]@,
                    names@[place as int]@,
                ),
        decreases at,
    {
        at -= 1;
    }
    let ghost before = order@;
    order.insert(at, place);
    proof {
        let after = order@;
        assert(after =~= before.insert(at as int, place));
        assert(at > 0 ==> name_le(
            names@[before[at - 1] as int]@,
            names@[place as int]@,
        ));
        assert forall|i: int, j: int| 0 <= i <= j < after.len() implies name_le(
            names@[(#[trigger] after[i]) as int]@,
            names@[(#[trigger] after[j]) as int]@,
        ) by {
            let x = if i < at { i } else { i - 1 };
            let y = if j < at { j } else { j - 1 };
            if i == j {
                lemma_name_le_total(names@[after[i] as int]@, names@[after[i] as int]@);
            } else if i == at {
                assert(after[j] == before[y]);
                lemma_name_le_total(names@[place as int]@, names@[before[y] as int]@);
            } else if j == at {
                assert(after[i] == before[x]);
                assert(at > 0);
                assert(name_le(
                    names@[before[x] as int]@,
                    names@[before[at - 1] as int]@,
                ));
                lemma_name_le_transitive(
                    names@[before[x] as int]@,
                    names@[before[at - 1] as int]@,
                    names@[place as int]@,
                );
            } else {
                assert(after[i] == before[x]);
                assert(after[j] == before[y]);
            }
        }
        assert forall|i: int| 0 <= i < after.len() implies (#[trigger] after[i]) < names@.len() by {
            if i < at {
                assert(after[i] == before[i]);
            } else if i > at {
                assert(after[i] == before[i - 1]);
            }
        }
        assert forall|i: int, j: int| 0 <= i < j < after.len() implies after[i] != after[j] by {
            let x = if i < at { i } else { i - 1 };
            let y = if j < at { j } else { j - 1 };
            if i != at {
                assert(after[i] == before[x]);
                assert(before.contains(before[x]));
            }
            if j != at {
                assert(after[j] == before[y]);
                assert(before.contains(before[y]));
            }
        }
        assert(after.no_duplicates());
        assert forall|p: usize| #[trigger]
            after.to_set().contains(p) == before.to_set().insert(place).contains(p) by {
            assert(after[at as int] == place);
            if before.contains(p) {
                let k = choose|k: int| 0 <= k < before.len() && before[k] == p;
                if k < at {
                    assert(after[k] == p);
                } else {
                    assert(after[k + 1] == p);
                }
            }
            if after.contains(p) && p != place {
                let k = choose|k: int| 0 <= k < after.len() && after[k] == p;
                if k < at {
                    assert(before[k] == p);
                } else {
                    assert(before[k - 1] == p);
                }
            }
        }
        assert(after.to_set() =~= before.to_set().insert(place));
    }
}

/// All places of a list of names, in the order of the names.
pub fn name_order(names: &Vec<Vec<u8>>) -> (result: Vec<usize>)
    ensures
        ordered(names@, result@),
        result@.len() == names@.len(),
        forall|i: usize| i < names@.len() ==> #[trigger] result@.contains(i),
{
    let mut order: Vec<usize> = Vec::new();
    let mut i: usize = 0;
    while i < names.len()
        invariant
            i <= names@.len(),
            ordered(names@, order@),
            order@.len() == i,
            forall|p: usize| #[trigger] order@.to_set().contains(p) <==> p < i,
        decreases names@.len() - i,
    {
        proof {
            assert(!order@.to_set().contains(i));
        }
        let ghost before = order@;
        insert_place(names, &mut order, i);
        proof {
            assert forall|p: usize| #[trigger] order@.to_set().contains(p) <==> p < i + 1 by {
                assert(before.to_set().contains(p) <==> p < i);
            }
        }
        i += 1;
    }
    proof {
        assert forall|p: usize| p < names@.len() implies #[trigger] order@.contains(p) by {
            assert(order@.to_set().contains(p));
        }
    }
    order
}

/// The number of sessions beyond those that are kept.
pub open spec fn excess(count: nat) -> nat {
    if count > SESSION_LIMIT {
        (count - SESSION_LIMIT) as nat
    } else {
        0
    }
}

/// The sessions to delete, given the names of all session directories, as places in the
/// list: those with the first names, so many that no more than the limit are left.
pub fn prune_old_sessions(names: &Vec<Vec<u8>>) -> (result: Vec<usize>)
    ensures
        ordered(names@, result@),
        result@.len() == excess(names@.len()),
        forall|gone: usize, kept: usize|
            #![trigger result@.contains(gone), result@.contains(kept)]
            result@.contains(gone) && !result@.contains(kept) && kept < names@.len() ==> name_le(
                names@[gone as int]@,
                names@[kept as int]@,
            ),
{
    let order = name_order(names);
    let count: usize = if names.len() > SESSION_LIMIT {
        names.len() - SESSION_LIMIT
    } else {
        0
    };
    let mut result: Vec<usize> = Vec::new();
    let mut i: usize = 0;
    while i < count
        invariant
            i <= count <= order@.len(),
            result@ == order@.take(i as int),
        decreases count - i,
    {
        result.push(order[i]);
        proof {
            assert(result@ =~= order@.take(i + 1));
        }
        i += 1;
    }
    proof {
        assert forall|gone: usize, kept: usize|
            #![trigger result@.contains(gone), result@.contains(kept)]
            result@.contains(gone) && !result@.contains(kept) && kept < names@.len() implies name_le(
            names@[gone as int]@,
            names@[kept as int]@,
        ) by {
            let a = choose|a: int| 0 <= a < result@.len() && result@[a] == gone;
            assert(order@.contains(kept));
            let b = choose|b: int| 0 <= b < order@.len() && order@[b] == kept;
            assert(order@[a] == gone);
            if b < count {
                assert(result@[b] == kept);
            }
        }
    }
    result
}

/// As many zeros as `text` lacks to the given width.
pub open spec fn zeros(width: nat, text: Seq<char>) -> Seq<char> {
    Seq::new(
        if text.len() < width {
            (width - text.len()) as nat
        } else {
            0
        },
        |i: int| '0',
    )
}

/// A number with leading zeros up to thirteen digits.
pub open spec fn stamp(unix_ms: nat) -> Seq<char> {
    zeros(13, decimal_digits(unix_ms)) + decimal_digits(unix_ms)
}

/// The name of a session's directory: when it began, and its identifier.
pub open spec fn directory_name(unix_ms: nat, session_id: Seq<char>) -> Seq<char> {
    stamp(unix_ms) + seq!['_'] + session_id
}

/// The name of a session's directory.
pub fn session_directory(unix_ms: u64, session_id: &str) -> (result: String)
    ensures
        result@ == directory_name(unix_ms as nat, session_id@),
{
    let digits = natural_text(unix_ms);
    let mut name = String::new();
    let count = digits.as_str().unicode_len();
    let mut i: usize = count;
    let ghost text = digits@;
    proof {
        reveal_strlit("0");
        reveal_strlit("_");
        assert("0"@ =~= seq!['0']);
        assert("_"@ =~= seq!['_']);
        assert(name@ =~= Seq::new(0, |k: int| '0'));
    }
    while i < 13
        invariant
            count == text.len(),
            count <= i,
            i <= 13 || i == count,
            "0"@ == seq!['0'],
            name@ == Seq::new((i - count) as nat, |k: int| '0'),
        decreases 13 - i,
    {
        name.append("0");
        proof {
            assert(name@ =~= Seq::new((i + 1 - count) as nat, |k: int| '0'));
        }
        i += 1;
    }
    proof {
        assert(name@ =~= zeros(13, text));
    }
    name.append(digits.as_str());
    name.append("_");
    name.append(session_id);
    name
}

spec fn is_digit(c: char) -> bool {
    '0' <= c <= '9'
}

spec fn all_digits(s: Seq<char>) -> bool {
    forall|i: int| 0 <= i < s.len() ==> is_digit(#[trigger] s[i])
}

spec fn value_of(s: Seq<char>) -> nat
    decreases s.len(),
{
    if s.len() == 0 {
        0
    } else {
        10 * value_of(s.drop_last()) + ((s.last() as u32) - ('0' as u32)) as nat
    }
}

proof fn lemma_decimal_digits(value: nat)
    ensures
        all_digits(decimal_digits(value)),
        value_of(decimal_digits(value)) == value,
        decimal_digits(value).len() > 0,
    decreases value,
{
    let digits = decimal_digits(value);
    if value < 10 {
        assert(digits.drop_last() =~= Seq::empty());
        assert(digits.last() == digit(value));
        reveal_with_fuel(value_of, 2);
    } else {
        lemma_decimal_digits(value / 10);
        assert(digits.drop_last() =~= decimal_digits(value / 10));
    }
}

proof fn lemma_decimal_digits_len(value: nat, width: nat, bound: nat)
    requires
        value < bound,
        width > 0,
        bound == pow10(width),
    ensures
        decimal_digits(value).len() <= width,
    decreases width,
{
    if value >= 10 {
        assert(width > 1) by {
            if width == 1 {
                reveal_with_fuel(pow10, 2);
            }
        }
        assert(bound == 10 * pow10((width - 1) as nat));
        lemma_decimal_digits_len(value / 10, (width - 1) as nat, pow10((width - 1) as nat));
    }
}

spec fn pow10(exponent: nat) -> nat
    decreases exponent,
{
    if exponent == 0 {
        1
    } else {
        10 * pow10((exponent - 1) as nat)
    }
}

proof fn lemma_leading_zeros(count: nat, s: Seq<char>)
    ensures
        value_of(Seq::new(count, |i: int| '0') + s) == value_of(s),
    decreases count + s.len(),
{
    let padding = Seq::new(count, |i: int| '0');
    let whole = padding + s;
    if s.len() > 0 {
        lemma_leading_zeros(count, s.drop_last());
        assert(whole.drop_last() =~= padding + s.drop_last());
    } else if count > 0 {
        lemma_leading_zeros((count - 1) as nat, s);
        assert(whole.drop_last() =~= Seq::new((count - 1) as nat, |i: int| '0') + s);
    }
}

proof fn lemma_same_value(s: Seq<char>, t: Seq<char>)
    requires
        s.len() == t.len(),
        all_digits(s),
        all_digits(t),
        value_of(s) == value_of(t),
    ensures
        s == t,
    decreases s.len(),
{
    if s.len() > 0 {
        assert(is_digit(s[s.len() - 1]) && is_digit(t[t.len() - 1]));
        lemma_same_value(s.drop_last(), t.drop_last());
        assert(s =~= s.drop_last().push(s.last()));
        assert(t =~= t.drop_last().push(t.last()));
    } else {
        assert(s =~= t);
    }
}

proof fn lemma_smaller_value(s: Seq<char>, t: Seq<char>) -> (k: int)
    requires
        s.len() == t.len(),
        all_digits(s),
        all_digits(t),
        value_of(s) < value_of(t),
    ensures
        0 <= k < s.len(),
        s.take(k) == t.take(k),
        s[k] < t[k],
    decreases s.len(),
{
    if s.len() == 0 {
        0
    } else {
        let a = s.drop_last();
        let b = t.drop_last();
        assert(is_digit(s[s.len() - 1]) && is_digit(t[t.len() - 1]));
        if value_of(a) < value_of(b) {
            let k = lemma_smaller_value(a, b);
            assert(s.take(k) =~= a.take(k));
            assert(t.take(k) =~= b.take(k));
            k
        } else {
            lemma_same_value(a, b);
            assert(s.take(s.len() - 1) =~= a);
            assert(t.take(t.len() - 1) =~= b);
            s.len() - 1
        }
    }
}

proof fn lemma_name_le_at(left: Seq<u8>, right: Seq<u8>, k: int)
    requires
        0 <= k < left.len(),
        k < right.len(),
        left.take(k) == right.take(k),
        left[k] < right[k],
    ensures
        name_le(left, right),
        !name_le(right, left),
    decreases k,
{
    if k > 0 {
        assert(left[0] == left.take(k)[0]);
        assert(right[0] == right.take(k)[0]);
        assert(left.skip(1).take(k - 1) =~= left.take(k).skip(1));
        assert(right.skip(1).take(k - 1) =~= right.take(k).skip(1));
        lemma_name_le_at(left.skip(1), right.skip(1), k - 1);
    }
}

proof fn lemma_encoded_prefix(s: Seq<char>, rest: Seq<char>)
    requires
        all_digits(s),
    ensures
        encode_utf8(s + rest).len() >= s.len(),
        forall|i: int|
            0 <= i < s.len() ==> #[trigger] encode_utf8(s + rest)[i] == s[i] as u8,
    decreases s.len(),
{
    let whole = s + rest;
    if s.len() > 0 {
        let c = s[0] as u32;
        assert(is_digit(s[0]));
        assert(leading_byte_width_1(c) == c as u8) by {
            assert((c & 0x7F) as u8 == c as u8) by (bit_vector)
                requires
                    c < 128,
            ;
        }
        lemma_encoded_prefix(s.drop_first(), rest);
        assert(whole.drop_first() =~= s.drop_first() + rest);
        assert(whole[0] == s[0]);
        assert(encode_utf8(whole) == encode_scalar(c) + encode_utf8(whole.drop_first()));
        assert(encode_scalar(c) =~= seq![c as u8]);
        assert forall|i: int| 0 <= i < s.len() implies #[trigger] encode_utf8(whole)[i]
            == s[i] as u8 by {
            if i > 0 {
                assert(encode_utf8(whole)[i] == encode_utf8(whole.drop_first())[i - 1]);
                assert(s.drop_first()[i - 1] == s[i]);
            }
        }
    }
}

proof fn lemma_stamp(unix_ms: nat)
    ensures
        unix_ms < 10_000_000_000_000 ==> stamp(unix_ms).len() == 13,
        all_digits(stamp(unix_ms)),
        value_of(stamp(unix_ms)) == unix_ms,
{
    let digits = decimal_digits(unix_ms);
    let padding = zeros(13, digits);
    lemma_decimal_digits(unix_ms);
    if unix_ms < 10_000_000_000_000 {
        assert(pow10(13) == 10_000_000_000_000) by {
            reveal_with_fuel(pow10, 14);
        }
        lemma_decimal_digits_len(unix_ms, 13, 10_000_000_000_000);
    }
    lemma_leading_zeros(padding.len(), digits);
    assert(padding =~= Seq::new(padding.len(), |i: int| '0'));
    assert forall|i: int| 0 <= i < stamp(unix_ms).len() implies is_digit(
        #[trigger] stamp(unix_ms)[i],
    ) by {
        if i >= padding.len() {
            assert(stamp(unix_ms)[i] == digits[i - padding.len()]);
        }
    }
}

/// An earlier session has a name that comes first, whatever the identifiers are; so the
/// sessions that are deleted are the oldest ones. The numbers in the names have to be equally
/// long, as they are up to ten trillion milliseconds.
pub proof fn law_names_follow_time(
    earlier: nat,
    later: nat,
    earlier_id: Seq<char>,
    later_id: Seq<char>,
)
    requires
        earlier < later,
        later < 10_000_000_000_000 || stamp(earlier).len() == stamp(later).len(),
    ensures
        name_le(
            encode_utf8(directory_name(earlier, earlier_id)),
            encode_utf8(directory_name(later, later_id)),
        ),
        !name_le(
            encode_utf8(directory_name(later, later_id)),
            encode_utf8(directory_name(earlier, earlier_id)),
        ),
{
    let s = stamp(earlier);
    let t = stamp(later);
    lemma_stamp(earlier);
    lemma_stamp(later);
    let k = lemma_smaller_value(s, t);
    let s_rest = seq!['_'] + earlier_id;
    let t_rest = seq!['_'] + later_id;
    assert(directory_name(earlier, earlier_id) =~= s + s_rest);
    assert(directory_name(later, later_id) =~= t + t_rest);
    lemma_encoded_prefix(s, s_rest);
    lemma_encoded_prefix(t, t_rest);
    let a = encode_utf8(s + s_rest);
    let b = encode_utf8(t + t_rest);
    assert forall|i: int| 0 <= i < k implies #[trigger] a[i] == b[i] by {
        assert(s.take(k)[i] == t.take(k)[i]);
    }
    assert(a.take(k) =~= b.take(k));
    assert(is_digit(s[k]) && is_digit(t[k]));
    lemma_name_le_at(a, b, k);
}

/// Names are ordered like words in a dictionary, byte by byte: the first difference decides,
/// and a name comes before every longer one that begins with it.
pub proof fn law_names_are_ordered_by_their_first_difference(
    prefix: Seq<u8>,
    left: Seq<u8>,
    right: Seq<u8>,
)
    ensures
        name_le(prefix, prefix + right),
        right.len() > 0 ==> !name_le(prefix + right, prefix),
        left.len() > 0 && right.len() > 0 && left[0] != right[0] ==> (name_le(
            prefix + left,
            prefix + right,
        ) <==> left[0] < right[0]),
    decreases prefix.len(),
{
    if prefix.len() == 0 {
        assert(prefix + left =~= left);
        assert(prefix + right =~= right);
    } else {
        let rest = prefix.skip(1);
        law_names_are_ordered_by_their_first_difference(rest, left, right);
        assert((prefix + left).skip(1) =~= rest + left);
        assert((prefix + right).skip(1) =~= rest + right);
        assert((prefix + left)[0] == prefix[0] && (prefix + right)[0] == prefix[0]);
    }
}

/// No more than 100 sessions are kept, and none is deleted without need.
pub proof fn law_only_the_excess_is_deleted(count: nat)
    ensures
        excess(count) <= count,
        count - excess(count) <= 100,
        excess(count) > 0 ==> count - excess(count) == 100,
{
}

/// The name of a session's directory ends with an underscore and the identifier, behind the
/// moment in at least thirteen digits.
pub proof fn law_directory_names_hold_moment_and_identifier(unix_ms: nat, session_id: Seq<char>)
    ensures
        ({
            let name = directory_name(unix_ms, session_id);
            let digits = name.len() - session_id.len() - 1;
            let text = decimal_digits(unix_ms);
            &&& digits >= 13
            &&& unix_ms < 10_000_000_000_000 ==> digits == 13
            &&& name[digits] == '_'
            &&& name.skip(digits + 1) == session_id
            &&& forall|i: int| 0 <= i < digits ==> '0' <= #[trigger] name[i] <= '9'
            &&& text.len() <= digits && name.subrange(digits - text.len(), digits) == text
            &&& forall|i: int| 0 <= i < digits - text.len() ==> #[trigger] name[i] == '0'
        }),
{
    lemma_stamp(unix_ms);
    let name = directory_name(unix_ms, session_id);
    let digits = name.len() - session_id.len() - 1;
    let text = decimal_digits(unix_ms);
    assert(name.skip(digits + 1) =~= session_id);
    assert forall|i: int| 0 <= i < digits implies '0' <= #[trigger] name[i] <= '9' by {
        assert(is_digit(stamp(unix_ms)[i]));
        assert(name[i] == stamp(unix_ms)[i]);
    }
    assert(name.subrange(digits - text.len(), digits) =~= text);
}

} // verus!
