//! Characters and text: white space, trimming, splitting and transcript cleanup.

use vstd::prelude::*;

verus! {

/// A character with the Unicode `White_Space` property.
pub open spec fn white_space(c: char) -> bool {
    let code = c as u32;
    ||| 0x09 <= code <= 0x0d
    ||| code == 0x20
    ||| code == 0x85
    ||| code == 0xa0
    ||| code == 0x1680
    ||| 0x2000 <= code <= 0x200a
    ||| code == 0x2028
    ||| code == 0x2029
    ||| code == 0x202f
    ||| code == 0x205f
    ||| code == 0x3000
}

/// Whether `c` is white space.
pub fn is_white_space(c: char) -> (result: bool)
    ensures
        result == white_space(c),
{
    let code: u32 = c as u32;
    (0x09 <= code && code <= 0x0d) || code == 0x20 || code == 0x85 || code == 0xa0 || code == 0x1680
        || (0x2000 <= code && code <= 0x200a) || code == 0x2028 || code == 0x2029 || code == 0x202f
        || code == 0x205f || code == 0x3000
}

/// `s` without the white space in front of it.
pub open spec fn trim_start(s: Seq<char>) -> Seq<char>
    decreases s.len(),
{
    if s.len() > 0 && white_space(s[0]) {
        trim_start(s.drop_first())
    } else {
        s
    }
}

/// `s` without the white space behind it.
pub open spec fn trim_end(s: Seq<char>) -> Seq<char>
    decreases s.len(),
{
    if s.len() > 0 && white_space(s.last()) {
        trim_end(s.drop_last())
    } else {
        s
    }
}

/// `s` without the white space around it.
pub open spec fn trimmed(s: Seq<char>) -> Seq<char> {
    trim_end(trim_start(s))
}

proof fn lemma_trim_start(s: Seq<char>, start: int)
    requires
        0 <= start <= s.len(),
        forall|i: int| 0 <= i < start ==> white_space(#[trigger] s[i]),
        start < s.len() ==> !white_space(s[start]),
    ensures
        trim_start(s) == s.subrange(start, s.len() as int),
    decreases start,
{
    if start == 0 {
        assert(s.subrange(0, s.len() as int) == s);
    } else {
        let rest = s.drop_first();
        assert forall|i: int| 0 <= i < start - 1 implies white_space(#[trigger] rest[i]) by {
            assert(rest[i] == s[i + 1]);
        }
        lemma_trim_start(rest, start - 1);
        assert(rest.subrange(start - 1, rest.len() as int) == s.subrange(start, s.len() as int));
    }
}

proof fn lemma_trim_end(s: Seq<char>, end: int)
    requires
        0 <= end <= s.len(),
        forall|i: int| end <= i < s.len() ==> white_space(#[trigger] s[i]),
        end > 0 ==> !white_space(s[end - 1]),
    ensures
        trim_end(s) == s.subrange(0, end),
    decreases s.len() - end,
{
    if end == s.len() {
        assert(s.subrange(0, end) == s);
    } else {
        let rest = s.drop_last();
        assert(white_space(s[s.len() - 1]));
        lemma_trim_end(rest, end);
        assert(rest.subrange(0, end) == s.subrange(0, end));
    }
}

/// The characters of `text` in order.
pub fn characters(text: &str) -> (result: Vec<char>)
    ensures
        result@ == text@,
{
    let mut result: Vec<char> = Vec::new();
    for c in it: text.chars()
        invariant
            result@ == it.seq().take(it.index()),
            it.seq() == text@,
    {
        proof {
            assert(it.seq().take(it.index() + 1) == it.seq().take(it.index()).push(c));
        }
        result.push(c);
    }
    proof {
        assert(text@.take(text@.len() as int) == text@);
    }
    result
}

/// Collects characters into a `String` with `<String as FromIterator<&char>>::from_iter`,
/// which yields exactly the characters that the slice holds, in order.
#[verifier::external_body]
pub(crate) fn string_of(chars: &[char]) -> (result: String)
    ensures
        result@ == chars@,
{
    <String as std::iter::FromIterator<&char>>::from_iter(chars)
}

/// `text` without the white space around it.
pub fn trim<'a>(text: &'a str) -> (result: &'a str)
    ensures
        result@ == trimmed(text@),
{
    let chars = characters(text);
    let mut start: usize = 0;
    while start < chars.len() && is_white_space(chars[start])
        invariant
            start <= chars.len(),
            forall|i: int| 0 <= i < start ==> white_space(#[trigger] chars@[i]),
        decreases chars.len() - start,
    {
        start += 1;
    }
    let mut end: usize = chars.len();
    while end > start && is_white_space(chars[end - 1])
        invariant
            start <= end <= chars.len(),
            forall|i: int| end <= i < chars.len() ==> white_space(#[trigger] chars@[i]),
        decreases end,
    {
        end -= 1;
    }
    proof {
        lemma_trim_start(chars@, start as int);
        let rest = chars@.subrange(start as int, chars@.len() as int);
        lemma_trim_end(rest, end - start);
        assert(rest.subrange(0, end - start) == chars@.subrange(start as int, end as int));
    }
    text.substring_char(start, end)
}

/// Whether two texts hold the same characters.
pub fn same_text(left: &str, right: &str) -> (result: bool)
    ensures
        result == (left@ == right@),
{
    left.to_owned() == right.to_owned()
}

/// The lower-case form of an ASCII letter; any other character is kept.
pub open spec fn ascii_lower(c: char) -> char {
    if 'A' <= c <= 'Z' {
        ((c as u32) + 32) as char
    } else {
        c
    }
}

/// Equal up to the case of ASCII letters.
pub open spec fn same_ignoring_ascii_case(left: Seq<char>, right: Seq<char>) -> bool {
    &&& left.len() == right.len()
    &&& forall|i: int| 0 <= i < left.len() ==> ascii_lower(#[trigger] left[i]) == ascii_lower(right[i])
}

fn lower(c: char) -> (result: char)
    ensures
        result == ascii_lower(c),
{
    if 'A' <= c && c <= 'Z' {
        let code: u8 = c as u8;
        (code + 32) as char
    } else {
        c
    }
}

/// Whether two texts are equal up to the case of ASCII letters.
pub fn equal_ignoring_ascii_case(left: &str, right: &str) -> (result: bool)
    ensures
        result == same_ignoring_ascii_case(left@, right@),
{
    let a = characters(left);
    let b = characters(right);
    if a.len() != b.len() {
        return false;
    }
    let mut i: usize = 0;
    while i < a.len()
        invariant
            i <= a.len(),
            a.len() == b.len(),
            a@ == left@,
            b@ == right@,
            forall|j: int| 0 <= j < i ==> ascii_lower(#[trigger] a@[j]) == ascii_lower(b@[j]),
        decreases a.len() - i,
    {
        if lower(a[i]) != lower(b[i]) {
            assert(ascii_lower(left@[i as int]) != ascii_lower(right@[i as int]));
            return false;
        }
        i += 1;
    }
    true
}

/// The pieces of `s` between the occurrences of `separator`; there is always one
/// piece more than there are separators.
pub open spec fn pieces(s: Seq<char>, separator: char) -> Seq<Seq<char>>
    decreases s.len(),
{
    if s.len() == 0 {
        seq![Seq::<char>::empty()]
    } else {
        let before = pieces(s.drop_last(), separator);
        if s.last() == separator {
            before.push(Seq::empty())
        } else {
            before.update(before.len() - 1, before.last().push(s.last()))
        }
    }
}

/// The views of a list of texts.
pub open spec fn views(texts: Seq<String>) -> Seq<Seq<char>> {
    texts.map_values(|text: String| text@)
}

pub proof fn lemma_pieces_non_empty(s: Seq<char>, separator: char)
    ensures
        pieces(s, separator).len() > 0,
    decreases s.len(),
{
    if s.len() > 0 {
        lemma_pieces_non_empty(s.drop_last(), separator);
    }
}

/// A word that is put behind a separator is a further piece.
pub proof fn lemma_pieces_of_joined(s: Seq<char>, separator: char, word: Seq<char>)
    requires
        forall|i: int| 0 <= i < word.len() ==> #[trigger] word[i] != separator,
    ensures
        pieces(s + seq![separator] + word, separator) == pieces(s, separator).push(word),
    decreases word.len(),
{
    let whole = s + seq![separator] + word;
    if word.len() == 0 {
        assert(whole.drop_last() =~= s);
        assert(word =~= Seq::empty());
    } else {
        let front = word.drop_last();
        lemma_pieces_of_joined(s, separator, front);
        assert(whole.drop_last() =~= s + seq![separator] + front);
        assert(front.push(word.last()) =~= word);
        assert(whole.last() == word[word.len() - 1]);
        let before = pieces(s, separator).push(front);
        assert(before.update(before.len() - 1, before.last().push(word.last())) =~= pieces(
            s,
            separator,
        ).push(word));
    }
}

/// A word without separators is its only piece.
pub proof fn lemma_pieces_of_word(separator: char, word: Seq<char>)
    requires
        forall|i: int| 0 <= i < word.len() ==> #[trigger] word[i] != separator,
    ensures
        pieces(word, separator) == seq![word],
    decreases word.len(),
{
    if word.len() == 0 {
        assert(word =~= Seq::empty());
    } else {
        let front = word.drop_last();
        lemma_pieces_of_word(separator, front);
        assert(front.push(word.last()) =~= word);
        assert(word.last() == word[word.len() - 1]);
        assert(seq![front].update(0, word) =~= seq![word]);
    }
}

/// Splits `text` at every `separator`.
pub fn split_on(text: &str, separator: char) -> (result: Vec<String>)
    ensures
        views(result@) == pieces(text@, separator),
{
    let chars = characters(text);
    let mut result: Vec<String> = Vec::new();
    let mut current: Vec<char> = Vec::new();
    let mut i: usize = 0;
    proof {
        assert(chars@.take(0) == Seq::<char>::empty());
        assert(views(result@).push(current@) == seq![Seq::<char>::empty()]);
    }
    while i < chars.len()
        invariant
            i <= chars.len(),
            views(result@).push(current@) == pieces(chars@.take(i as int), separator),
        decreases chars.len() - i,
    {
        let c = chars[i];
        proof {
            let next = chars@.take(i + 1);
            assert(next.drop_last() == chars@.take(i as int));
            assert(next.last() == c);
        }
        let ghost before = views(result@).push(current@);
        if c == separator {
            let done = string_of(current.as_slice());
            let ghost old_result = result@;
            result.push(done);
            proof {
                assert(views(result@) == views(old_result).push(done@));
                assert(views(result@) == before);
            }
            current = Vec::new();
        } else {
            current.push(c);
            proof {
                assert(views(result@).push(current@) == before.update(
                    before.len() - 1,
                    before.last().push(c),
                ));
            }
        }
        i += 1;
    }
    let last = string_of(current.as_slice());
    let ghost old_result = result@;
    result.push(last);
    proof {
        assert(views(result@) == views(old_result).push(last@));
        assert(chars@.take(chars@.len() as int) == text@);
    }
    result
}

/// The maximal runs of `s` without white space, in order.
pub open spec fn words(s: Seq<char>) -> Seq<Seq<char>>
    decreases s.len(),
{
    if s.len() == 0 {
        Seq::empty()
    } else {
        let before = words(s.drop_last());
        if white_space(s.last()) {
            before
        } else if s.len() >= 2 && !white_space(s[s.len() - 2]) {
            before.update(before.len() - 1, before.last().push(s.last()))
        } else {
            before.push(seq![s.last()])
        }
    }
}

/// The words with one space between neighbours.
pub open spec fn spaced(list: Seq<Seq<char>>) -> Seq<char>
    decreases list.len(),
{
    if list.len() == 0 {
        Seq::empty()
    } else if list.len() == 1 {
        list[0]
    } else {
        spaced(list.drop_last()).push(' ') + list.last()
    }
}

/// A word: not empty, and without white space.
pub open spec fn solid(word: Seq<char>) -> bool {
    &&& word.len() > 0
    &&& forall|i: int| 0 <= i < word.len() ==> !white_space(#[trigger] word[i])
}

proof fn lemma_words_solid(s: Seq<char>)
    ensures
        forall|i: int| 0 <= i < words(s).len() ==> solid(#[trigger] words(s)[i]),
        s.len() > 0 && !white_space(s.last()) ==> words(s).len() > 0,
    decreases s.len(),
{
    if s.len() > 0 {
        lemma_words_solid(s.drop_last());
        let before = words(s.drop_last());
        if s.len() >= 2 && !white_space(s[s.len() - 2]) && !white_space(s.last()) {
            assert(s.drop_last().last() == s[s.len() - 2]);
            assert(solid(before[before.len() - 1]));
        }
    }
}

/// A word written behind a text that does not end inside a word is the last word.
proof fn lemma_words_append(front: Seq<char>, word: Seq<char>)
    requires
        solid(word),
        front.len() == 0 || white_space(front.last()),
    ensures
        words(front + word) == words(front).push(word),
    decreases word.len(),
{
    let whole = front + word;
    assert(whole.last() == word.last());
    if word.len() == 1 {
        assert(whole.drop_last() == front);
        assert(seq![whole.last()] == word);
        if front.len() > 0 {
            assert(whole[whole.len() - 2] == front.last());
        }
    } else {
        let head = word.drop_last();
        assert(solid(head)) by {
            assert forall|i: int| 0 <= i < head.len() implies !white_space(#[trigger] head[i]) by {
                assert(head[i] == word[i]);
            }
        }
        assert(whole.drop_last() == front + head);
        lemma_words_append(front, head);
        assert(whole[whole.len() - 2] == word[word.len() - 2]);
        assert(words(front).push(head).update(words(front).len() as int, head.push(word.last()))
            == words(front).push(word)) by {
            assert(head.push(word.last()) == word);
        }
    }
}

proof fn lemma_words_of_spaced(list: Seq<Seq<char>>)
    requires
        forall|i: int| 0 <= i < list.len() ==> solid(#[trigger] list[i]),
    ensures
        words(spaced(list)) == list,
    decreases list.len(),
{
    if list.len() == 0 {
        assert(list == Seq::<Seq<char>>::empty());
    } else if list.len() == 1 {
        lemma_words_append(Seq::empty(), list[0]);
        assert(Seq::<char>::empty() + list[0] == list[0]);
        assert(Seq::<Seq<char>>::empty().push(list[0]) == list);
    } else {
        let front = list.drop_last();
        assert forall|i: int| 0 <= i < front.len() implies solid(#[trigger] front[i]) by {
            assert(front[i] == list[i]);
        }
        lemma_words_of_spaced(front);
        let text = spaced(front).push(' ');
        assert(text.drop_last() == spaced(front));
        assert(words(text) == words(spaced(front)));
        lemma_words_append(text, list.last());
        assert(front.push(list.last()) == list);
    }
}

proof fn lemma_spaced_push(list: Seq<Seq<char>>, word: Seq<char>)
    requires
        list.len() > 0,
    ensures
        spaced(list.push(word)) == spaced(list).push(' ') + word,
{
    assert(list.push(word).drop_last() == list);
}

proof fn lemma_spaced_extend(list: Seq<Seq<char>>, c: char)
    requires
        list.len() > 0,
    ensures
        spaced(list.update(list.len() - 1, list.last().push(c))) == spaced(list).push(c),
{
    let longer = list.update(list.len() - 1, list.last().push(c));
    if list.len() > 1 {
        assert(longer.drop_last() == list.drop_last());
        assert(spaced(longer) == spaced(list).push(c));
    }
}

/// What a transcript becomes before it is inserted.
pub trait TranscriptProcessor {
    /// The text that `process` makes of a transcript.
    spec fn processed(&self, transcript: Seq<char>) -> Seq<char>;

    fn process(&self, transcript: &str) -> (result: String)
        ensures
            result@ == self.processed(transcript@),
    ;
}

/// Keeps the words of the transcript and puts one space between them; the
/// recognition service supplies punctuation and number formatting.
pub struct AsrCleanup;

impl TranscriptProcessor for AsrCleanup {
    open spec fn processed(&self, transcript: Seq<char>) -> Seq<char> {
        spaced(words(transcript))
    }

    fn process(&self, transcript: &str) -> (result: String) {
        let chars = characters(transcript);
        let mut cleaned: Vec<char> = Vec::new();
        let mut i: usize = 0;
        proof {
            assert(chars@.take(0) == Seq::<char>::empty());
        }
        while i < chars.len()
            invariant
                i <= chars.len(),
                cleaned@ == spaced(words(chars@.take(i as int))),
                cleaned.len() > 0 <==> words(chars@.take(i as int)).len() > 0,
            decreases chars.len() - i,
        {
            let c = chars[i];
            let ghost front = chars@.take(i as int);
            let ghost next = chars@.take(i + 1);
            proof {
                assert(next.drop_last() == front);
                lemma_words_solid(front);
                lemma_words_solid(next);
            }
            if !is_white_space(c) {
                if i > 0 && !is_white_space(chars[i - 1]) {
                    proof {
                        assert(front.last() == chars@[i - 1]);
                        assert(next[next.len() - 2] == chars@[i - 1]);
                        lemma_spaced_extend(words(front), c);
                    }
                } else {
                    proof {
                        if i > 0 {
                            assert(next[next.len() - 2] == chars@[i - 1]);
                        }
                        if words(front).len() > 0 {
                            lemma_spaced_push(words(front), seq![c]);
                        } else {
                            assert(words(front).push(seq![c]).len() == 1);
                        }
                    }
                    if cleaned.len() > 0 {
                        cleaned.push(' ');
                    }
                }
                cleaned.push(c);
                proof {
                    assert(cleaned@ == spaced(words(next)));
                }
            }
            i += 1;
        }
        proof {
            assert(chars@.take(chars@.len() as int) == transcript@);
        }
        string_of(cleaned.as_slice())
    }
}

/// The final form of a transcript.
pub fn process_final(transcript: &str) -> (result: String)
    ensures
        result@ == spaced(words(transcript@)),
{
    AsrCleanup.process(transcript)
}

/// Cleaning keeps the words of a transcript, whatever white space stood between them.
pub proof fn law_cleanup_keeps_the_words(transcript: Seq<char>)
    ensures
        words(AsrCleanup.processed(transcript)) == words(transcript),
{
    lemma_words_solid(transcript);
    lemma_words_of_spaced(words(transcript));
}

/// Cleaning a cleaned transcript changes nothing.
pub proof fn law_cleanup_is_idempotent(transcript: Seq<char>)
    ensures
        AsrCleanup.processed(AsrCleanup.processed(transcript)) == AsrCleanup.processed(transcript),
{
    law_cleanup_keeps_the_words(transcript);
}

proof fn lemma_trim_start_solid(s: Seq<char>)
    ensures
        trim_start(s).len() <= s.len(),
        trim_start(s).len() > 0 ==> !white_space(trim_start(s)[0]),
    decreases s.len(),
{
    if s.len() > 0 && white_space(s[0]) {
        lemma_trim_start_solid(s.drop_first());
    }
}

proof fn lemma_trim_end_solid(s: Seq<char>)
    ensures
        trim_end(s).len() <= s.len(),
        trim_end(s).len() > 0 ==> !white_space(trim_end(s).last()) && trim_end(s)[0] == s[0],
    decreases s.len(),
{
    if s.len() > 0 && white_space(s.last()) {
        lemma_trim_end_solid(s.drop_last());
    }
}

/// Trimming a trimmed text changes nothing.
pub proof fn law_trim_is_idempotent(s: Seq<char>)
    ensures
        trimmed(trimmed(s)) == trimmed(s),
{
    lemma_trim_start_solid(s);
    lemma_trim_end_solid(trim_start(s));
}

/// The characters that separate words: the controls from tab to carriage return, the space, the
/// next-line control, the no-break space, and the spaces and separators of Unicode.
pub proof fn law_white_space_characters(c: char)
    ensures
        white_space(c) <==> seq![
            '\u{9}',
            '\u{a}',
            '\u{b}',
            '\u{c}',
            '\u{d}',
            ' ',
            '\u{85}',
            '\u{a0}',
            '\u{1680}',
            '\u{2000}',
            '\u{2001}',
            '\u{2002}',
            '\u{2003}',
            '\u{2004}',
            '\u{2005}',
            '\u{2006}',
            '\u{2007}',
            '\u{2008}',
            '\u{2009}',
            '\u{200a}',
            '\u{2028}',
            '\u{2029}',
            '\u{202f}',
            '\u{205f}',
            '\u{3000}',
        ].contains(c),
{
    let spaces = seq![
        '\u{9}',
        '\u{a}',
        '\u{b}',
        '\u{c}',
        '\u{d}',
        ' ',
        '\u{85}',
        '\u{a0}',
        '\u{1680}',
        '\u{2000}',
        '\u{2001}',
        '\u{2002}',
        '\u{2003}',
        '\u{2004}',
        '\u{2005}',
        '\u{2006}',
        '\u{2007}',
        '\u{2008}',
        '\u{2009}',
        '\u{200a}',
        '\u{2028}',
        '\u{2029}',
        '\u{202f}',
        '\u{205f}',
        '\u{3000}',
    ];
    let code = c as u32;
    if white_space(c) {
        let index: int = if 0x09 <= code <= 0x0d {
            code - 0x09
        } else if code == 0x20 {
            5
        } else if code == 0x85 {
            6
        } else if code == 0xa0 {
            7
        } else if code == 0x1680 {
            8
        } else if 0x2000 <= code <= 0x200a {
            9 + (code - 0x2000)
        } else if code == 0x2028 {
            20
        } else if code == 0x2029 {
            21
        } else if code == 0x202f {
            22
        } else if code == 0x205f {
            23
        } else {
            24
        };
        assert(spaces[index] as u32 == code);
        assert(spaces[index] == c);
    }
    if spaces.contains(c) {
        let index = choose|index: int| 0 <= index < spaces.len() && spaces[index] == c;
        assert(white_space(spaces[index]));
    }
}

proof fn lemma_trim_start_split(s: Seq<char>) -> (count: int)
    ensures
        0 <= count <= s.len(),
        trim_start(s) == s.skip(count),
        forall|i: int| 0 <= i < count ==> white_space(#[trigger] s[i]),
        count < s.len() ==> !white_space(s[count]),
    decreases s.len(),
{
    if s.len() > 0 && white_space(s[0]) {
        let rest = s.drop_first();
        let count = lemma_trim_start_split(rest);
        assert(rest.skip(count) =~= s.skip(count + 1));
        assert forall|i: int| 0 <= i < count + 1 implies white_space(#[trigger] s[i]) by {
            if i > 0 {
                assert(rest[i - 1] == s[i]);
            }
        }
        if count + 1 < s.len() {
            assert(rest[count] == s[count + 1]);
        }
        count + 1
    } else {
        assert(s.skip(0) =~= s);
        0
    }
}

proof fn lemma_trim_end_split(s: Seq<char>) -> (count: int)
    ensures
        0 <= count <= s.len(),
        trim_end(s) == s.take(count),
        forall|i: int| count <= i < s.len() ==> white_space(#[trigger] s[i]),
        count > 0 ==> !white_space(s[count - 1]),
    decreases s.len(),
{
    if s.len() > 0 && white_space(s.last()) {
        let rest = s.drop_last();
        let count = lemma_trim_end_split(rest);
        assert(rest.take(count) =~= s.take(count));
        assert forall|i: int| count <= i < s.len() implies white_space(#[trigger] s[i]) by {
            if i < rest.len() {
                assert(rest[i] == s[i]);
            }
        }
        if count > 0 {
            assert(rest[count - 1] == s[count - 1]);
        }
        count
    } else {
        assert(s.take(s.len() as int) =~= s);
        s.len() as int
    }
}

/// A text is what is left of it by trimming, with nothing but white space before and behind it;
/// what is left neither begins nor ends with white space.
pub proof fn law_trimming_takes_white_space_only(s: Seq<char>)
    ensures
        exists|start: int, end: int|
            0 <= start <= end <= s.len() && trimmed(s) == #[trigger] s.subrange(start, end) && (
            forall|i: int| 0 <= i < start || end <= i < s.len() ==> white_space(#[trigger] s[i])),
        trimmed(s).len() > 0 ==> !white_space(trimmed(s)[0]) && !white_space(trimmed(s).last()),
{
    let start = lemma_trim_start_split(s);
    let rest = s.skip(start);
    let count = lemma_trim_end_split(rest);
    let end = start + count;
    assert(rest.take(count) =~= s.subrange(start, end));
    assert forall|i: int| 0 <= i < start || end <= i < s.len() implies white_space(
        #[trigger] s[i],
    ) by {
        if i >= end {
            assert(rest[i - start] == s[i]);
        }
    }
    if count > 0 {
        assert(rest[0] == s[start]);
        assert(trimmed(s)[0] == s[start]);
        assert(trimmed(s).last() == rest[count - 1]);
    }
}

/// Two texts that are the same up to case have at each place the same character, or the two
/// cases of one ASCII letter.
pub proof fn law_case_is_that_of_ascii_letters(left: Seq<char>, right: Seq<char>)
    ensures
        same_ignoring_ascii_case(left, right) <==> left.len() == right.len() && forall|i: int|
            0 <= i < left.len() ==> {
                ||| #[trigger] left[i] == right[i]
                ||| 'A' <= left[i] <= 'Z' && right[i] as u32 == left[i] as u32 + 32
                ||| 'A' <= right[i] <= 'Z' && left[i] as u32 == right[i] as u32 + 32
            },
{
    if same_ignoring_ascii_case(left, right) {
        assert forall|i: int| 0 <= i < left.len() implies {
            ||| #[trigger] left[i] == right[i]
            ||| 'A' <= left[i] <= 'Z' && right[i] as u32 == left[i] as u32 + 32
            ||| 'A' <= right[i] <= 'Z' && left[i] as u32 == right[i] as u32 + 32
        } by {
            lemma_ascii_lower_code(left[i]);
            lemma_ascii_lower_code(right[i]);
        }
    } else if left.len() == right.len() {
        let i = choose|i: int|
            0 <= i < left.len() && ascii_lower(#[trigger] left[i]) != ascii_lower(right[i]);
        lemma_ascii_lower_code(left[i]);
        lemma_ascii_lower_code(right[i]);
        assert(left[i] != right[i]);
    }
}

proof fn lemma_ascii_lower_code(c: char)
    ensures
        ascii_lower(c) as u32 == if 'A' <= c <= 'Z' {
            c as u32 + 32
        } else {
            c as u32 as int
        },
{
}

/// Splitting a text at its separators: a separator between two texts separates their pieces,
/// and a text without one is a single piece.
pub proof fn law_separators_separate(left: Seq<char>, right: Seq<char>, separator: char)
    ensures
        pieces(left + seq![separator] + right, separator) == pieces(left, separator) + pieces(
            right,
            separator,
        ),
        !left.contains(separator) ==> pieces(left, separator) == seq![left],
    decreases right.len(),
{
    let whole = left + seq![separator] + right;
    if !left.contains(separator) {
        lemma_pieces_of_word(separator, left);
    }
    if right.len() == 0 {
        assert(whole.drop_last() =~= left);
        assert(pieces(left, separator).push(Seq::empty()) =~= pieces(left, separator) + pieces(
            right,
            separator,
        ));
    } else {
        let front = right.drop_last();
        law_separators_separate(left, front, separator);
        lemma_pieces_non_empty(front, separator);
        assert(whole.drop_last() =~= left + seq![separator] + front);
        assert(whole.last() == right.last());
        assert(pieces(whole, separator) =~= pieces(left, separator) + pieces(right, separator));
    }
}

/// White space between two texts separates their words, a text without any is one word, and
/// white space alone has none.
pub proof fn law_white_space_separates_words(left: Seq<char>, c: char, right: Seq<char>)
    requires
        white_space(c),
    ensures
        words(left.push(c) + right) == words(left) + words(right),
        solid(left) ==> words(left) == seq![left],
        words(Seq::empty()).len() == 0,
    decreases right.len(),
{
    let whole = left.push(c) + right;
    if solid(left) {
        lemma_words_append(Seq::empty(), left);
        assert(Seq::<char>::empty() + left =~= left);
        assert(Seq::<Seq<char>>::empty().push(left) =~= seq![left]);
    }
    if right.len() == 0 {
        assert(whole.drop_last() =~= left);
        assert(words(left) + words(right) =~= words(left));
    } else {
        let front = right.drop_last();
        law_white_space_separates_words(left, c, front);
        assert(whole.drop_last() =~= left.push(c) + front);
        assert(whole.last() == right.last());
        if right.len() >= 2 {
            assert(whole[whole.len() - 2] == right[right.len() - 2]);
            assert(front.last() == right[right.len() - 2]);
            lemma_words_solid(front);
        } else {
            assert(whole[whole.len() - 2] == c);
            assert(front =~= Seq::empty());
        }
        assert(words(whole) =~= words(left) + words(right));
    }
}

proof fn lemma_spaced_add(left: Seq<Seq<char>>, right: Seq<Seq<char>>)
    requires
        left.len() > 0,
        right.len() > 0,
    ensures
        spaced(left + right) == spaced(left).push(' ') + spaced(right),
    decreases right.len(),
{
    let front = right.drop_last();
    assert((left + right).drop_last() =~= left + front);
    assert((left + right).last() == right.last());
    if right.len() == 1 {
        assert(left + front =~= left);
    } else {
        lemma_spaced_add(left, front);
        assert(spaced(left + right) =~= spaced(left).push(' ') + spaced(right));
    }
}

proof fn lemma_spaced_is_empty(list: Seq<Seq<char>>)
    requires
        forall|i: int| 0 <= i < list.len() ==> (#[trigger] list[i]).len() > 0,
    ensures
        spaced(list).len() == 0 <==> list.len() == 0,
{
    if list.len() > 0 {
        assert(list[list.len() - 1].len() > 0);
    }
}

/// A cleaned transcript: what stands before and behind a blank is cleaned by itself and joined
/// by one space, unless one of the two is empty; a word stays as it is, and nothing else comes
/// in.
pub proof fn law_cleanup_joins_by_single_spaces(left: Seq<char>, c: char, right: Seq<char>)
    requires
        white_space(c),
    ensures
        ({
            let before = AsrCleanup.processed(left);
            let behind = AsrCleanup.processed(right);
            AsrCleanup.processed(left.push(c) + right) == if before.len() == 0 {
                behind
            } else if behind.len() == 0 {
                before
            } else {
                before + seq![' '] + behind
            }
        }),
        solid(left) ==> AsrCleanup.processed(left) == left,
        AsrCleanup.processed(Seq::empty()).len() == 0,
{
    law_white_space_separates_words(left, c, right);
    lemma_words_solid(left);
    lemma_words_solid(right);
    let a = words(left);
    let b = words(right);
    assert forall|i: int| 0 <= i < a.len() implies (#[trigger] a[i]).len() > 0 by {
        assert(solid(a[i]));
    }
    assert forall|i: int| 0 <= i < b.len() implies (#[trigger] b[i]).len() > 0 by {
        assert(solid(b[i]));
    }
    lemma_spaced_is_empty(a);
    lemma_spaced_is_empty(b);
    if a.len() == 0 {
        assert(a + b =~= b);
    } else if b.len() == 0 {
        assert(a + b =~= a);
    } else {
        lemma_spaced_add(a, b);
        assert(spaced(a).push(' ') + spaced(b) =~= spaced(a) + seq![' '] + spaced(b));
    }
}

} // verus!
