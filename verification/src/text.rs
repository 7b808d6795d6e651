//! Text as sequences of characters: searching, trimming, lowering, splitting.
//!
//! What a function here does to ASCII text is stated in full. Beyond ASCII the
//! Unicode tables of the standard library decide, and the contracts name what
//! they say: [`unicode_lowercase`], [`unicode_whitespace`] and
//! [`unicode_alphanumeric`].

use vstd::prelude::*;
use vstd::utf8::{encode_utf8, valid_utf8};

verus! {

/// What `str::to_lowercase` makes of a text.
pub uninterp spec fn unicode_lowercase(text: Seq<char>) -> Seq<char>;

/// What `char::is_whitespace` says of a character.
pub uninterp spec fn unicode_whitespace(c: char) -> bool;

/// What `char::is_alphanumeric` says of a character.
pub uninterp spec fn unicode_alphanumeric(c: char) -> bool;

/// Calls `str::to_lowercase`. The result is a function of the text alone; which
/// function, the name leaves to the Unicode tables.
#[verifier::external_body]
fn to_lowercase(text: &str) -> (lowercase: String)
    ensures
        lowercase@ == unicode_lowercase(text@),
{
    text.to_lowercase()
}

/// Calls `char::is_whitespace`, a fixed property of the character.
#[verifier::external_body]
fn is_whitespace(c: char) -> (whitespace: bool)
    ensures
        whitespace == unicode_whitespace(c),
{
    c.is_whitespace()
}

/// Calls `char::is_alphanumeric`, a fixed property of the character.
#[verifier::external_body]
fn is_alphanumeric(c: char) -> (alphanumeric: bool)
    ensures
        alphanumeric == unicode_alphanumeric(c),
{
    c.is_alphanumeric()
}

/// Calls `String::from_utf8`, which succeeds on UTF-8 and on nothing else, and
/// then gives the text that the bytes encode.
#[verifier::external_body]
pub(crate) fn utf8_text(bytes: Vec<u8>) -> (text: Option<String>)
    ensures
        text is Some <==> valid_utf8(bytes@),
        text matches Some(text) ==> encode_utf8(text@) == bytes@,
{
    String::from_utf8(bytes).ok()
}

pub open spec fn is_ascii(c: char) -> bool {
    (c as u32) < 128
}

pub open spec fn all_ascii(text: Seq<char>) -> bool {
    forall|i: int| 0 <= i < text.len() ==> is_ascii(#[trigger] text[i])
}

/// `A` to `Z` become `a` to `z`; every other character stays.
pub open spec fn ascii_lower(c: char) -> char {
    if 'A' <= c <= 'Z' {
        (c as u32 + 32) as char
    } else {
        c
    }
}

pub open spec fn ascii_lowered(text: Seq<char>) -> Seq<char> {
    Seq::new(text.len(), |i: int| ascii_lower(text[i]))
}

/// The text in lower case.
pub open spec fn lowered(text: Seq<char>) -> Seq<char> {
    if all_ascii(text) {
        ascii_lowered(text)
    } else {
        unicode_lowercase(text)
    }
}

/// Equality that ignores the case of ASCII letters, and of no other letters.
pub open spec fn same_ignoring_case(a: Seq<char>, b: Seq<char>) -> bool {
    ascii_lowered(a) == ascii_lowered(b)
}

pub open spec fn occurs_at(text: Seq<char>, needle: Seq<char>, at: int) -> bool {
    0 <= at && at + needle.len() <= text.len() && text.subrange(at, at + needle.len()) == needle
}

/// The needle occurs somewhere in the text.
pub open spec fn occurs(text: Seq<char>, needle: Seq<char>) -> bool {
    exists|at: int| occurs_at(text, needle, at)
}

pub open spec fn starts_with(text: Seq<char>, prefix: Seq<char>) -> bool {
    occurs_at(text, prefix, 0)
}

pub open spec fn is_space(c: char) -> bool {
    if is_ascii(c) {
        c == ' ' || 9 <= c as u32 <= 13
    } else {
        unicode_whitespace(c)
    }
}

pub open spec fn is_letter_or_digit(c: char) -> bool {
    if is_ascii(c) {
        'a' <= c <= 'z' || 'A' <= c <= 'Z' || '0' <= c <= '9'
    } else {
        unicode_alphanumeric(c)
    }
}

pub open spec fn trimmed_start(text: Seq<char>) -> Seq<char>
    decreases text.len(),
{
    if text.len() > 0 && is_space(text[0]) {
        trimmed_start(text.drop_first())
    } else {
        text
    }
}

pub open spec fn trimmed_end(text: Seq<char>) -> Seq<char>
    decreases text.len(),
{
    if text.len() > 0 && is_space(text.last()) {
        trimmed_end(text.drop_last())
    } else {
        text
    }
}

/// The text without the white space at its two ends.
pub open spec fn trimmed(text: Seq<char>) -> Seq<char> {
    trimmed_end(trimmed_start(text))
}

/// Where the first line feed stands, or the text's length.
pub open spec fn line_feed(text: Seq<char>) -> int
    decreases text.len(),
{
    if text.len() == 0 || text[0] == '\n' {
        0
    } else {
        1 + line_feed(text.drop_first())
    }
}

/// The lines of a text. A line ends before a line feed, or before a carriage
/// return that stands directly before the line feed; what follows the last line
/// feed is a line too, unless it is empty.
pub open spec fn lines(text: Seq<char>) -> Seq<Seq<char>>
    decreases text.len(),
{
    if text.len() == 0 {
        Seq::empty()
    } else {
        let end = line_feed(text);
        if end < 0 || end >= text.len() {
            seq![text]
        } else {
            seq![without_return(text.take(end))] + lines(text.skip(end + 1))
        }
    }
}

pub open spec fn without_return(line: Seq<char>) -> Seq<char> {
    if line.len() > 0 && line.last() == '\r' {
        line.drop_last()
    } else {
        line
    }
}

/// `String::push` appends the character.
pub assume_specification[ String::push ](text: &mut String, c: char)
    ensures
        final(text)@ == old(text)@.push(c),
;

proof fn lemma_line_feed(text: Seq<char>, at: int)
    requires
        0 <= at <= text.len(),
        at == text.len() || text[at] == '\n',
        forall|i: int| 0 <= i < at ==> text[i] != '\n',
    ensures
        line_feed(text) == at,
    decreases text.len(),
{
    if text.len() > 0 && at > 0 {
        lemma_line_feed(text.drop_first(), at - 1);
    }
}

/// The characters of a text.
pub fn chars_of(text: &str) -> (chars: Vec<char>)
    ensures
        chars@ == text@,
{
    let mut chars: Vec<char> = Vec::new();
    for c in it: text.chars()
        invariant
            it.seq() == text@,
            chars@ == it.seq().take(it.index()),
    {
        chars.push(c);
    }
    chars
}

/// The text made of the given characters.
pub fn text_of(chars: &Vec<char>) -> (text: String)
    ensures
        text@ == chars@,
{
    let mut text = String::new();
    let mut i: usize = 0;
    while i < chars.len()
        invariant
            i <= chars.len(),
            text@ == chars@.take(i as int),
        decreases chars.len() - i,
    {
        text.push(chars[i]);
        assert(chars@.take(i + 1) == chars@.take(i as int).push(chars@[i as int]));
        i += 1;
    }
    assert(chars@.take(chars@.len() as int) == chars@);
    text
}

/// The characters from `from` up to but not including `to`.
pub fn part_of(chars: &Vec<char>, from: usize, to: usize) -> (part: Vec<char>)
    requires
        from <= to <= chars@.len(),
    ensures
        part@ == chars@.subrange(from as int, to as int),
{
    let mut part: Vec<char> = Vec::new();
    let mut i: usize = from;
    while i < to
        invariant
            from <= i <= to <= chars@.len(),
            part@ == chars@.subrange(from as int, i as int),
        decreases to - i,
    {
        part.push(chars[i]);
        assert(chars@.subrange(from as int, i + 1) == chars@.subrange(from as int, i as int).push(
            chars@[i as int],
        ));
        i += 1;
    }
    part
}

pub fn same_chars(a: &Vec<char>, b: &Vec<char>) -> (same: bool)
    ensures
        same == (a@ == b@),
{
    if a.len() != b.len() {
        return false;
    }
    let mut i: usize = 0;
    while i < a.len()
        invariant
            i <= a@.len() == b@.len(),
            forall|j: int| 0 <= j < i ==> a@[j] == b@[j],
        decreases a.len() - i,
    {
        if a[i] != b[i] {
            return false;
        }
        i += 1;
    }
    assert(a@ == b@);
    true
}

/// Equality of two texts, character by character.
pub fn same_text(a: &str, b: &str) -> (same: bool)
    ensures
        same == (a@ == b@),
{
    same_chars(&chars_of(a), &chars_of(b))
}

fn lower_char(c: char) -> (lower: char)
    ensures
        lower == ascii_lower(c),
{
    if 'A' <= c && c <= 'Z' {
        ((c as u8) + 32) as char
    } else {
        c
    }
}

fn lower_ascii(chars: &Vec<char>) -> (lower: Vec<char>)
    ensures
        lower@ == ascii_lowered(chars@),
{
    let mut lower: Vec<char> = Vec::new();
    let mut i: usize = 0;
    while i < chars.len()
        invariant
            i <= chars@.len(),
            lower@.len() == i,
            forall|j: int| 0 <= j < i ==> lower@[j] == ascii_lower(chars@[j]),
        decreases chars.len() - i,
    {
        lower.push(lower_char(chars[i]));
        i += 1;
    }
    assert(lower@ == ascii_lowered(chars@));
    lower
}

/// Whether two texts are equal but for the case of ASCII letters.
pub fn equals_ignoring_case(a: &str, b: &str) -> (same: bool)
    ensures
        same == same_ignoring_case(a@, b@),
{
    same_chars(&lower_ascii(&chars_of(a)), &lower_ascii(&chars_of(b)))
}

/// The characters of the text in lower case.
pub fn lower(text: &str) -> (lower: Vec<char>)
    ensures
        lower@ == lowered(text@),
{
    let chars = chars_of(text);
    let mut i: usize = 0;
    while i < chars.len()
        invariant
            i <= chars@.len(),
            chars@ == text@,
            forall|j: int| 0 <= j < i ==> is_ascii(#[trigger] chars@[j]),
        decreases chars.len() - i,
    {
        if chars[i] as u32 >= 128 {
            assert(!is_ascii(text@[i as int]));
            return chars_of(to_lowercase(text).as_str());
        }
        i += 1;
    }
    lower_ascii(&chars)
}

/// The text, or the empty text where there is none.
pub open spec fn text_or_empty(text: Option<String>) -> Seq<char> {
    match text {
        Some(text) => text@,
        None => Seq::empty(),
    }
}

/// The characters of an optional text in lower case.
pub fn lower_or_empty(text: &Option<String>) -> (chars: Vec<char>)
    ensures
        chars@ == lowered(text_or_empty(*text)),
{
    match text {
        Some(text) => lower(text.as_str()),
        None => {
            let empty: Vec<char> = Vec::new();
            assert(empty@ == lowered(Seq::empty()));
            empty
        },
    }
}

fn found_at(text: &Vec<char>, needle: &Vec<char>, at: usize) -> (found: bool)
    requires
        at + needle@.len() <= text@.len(),
    ensures
        found == occurs_at(text@, needle@, at as int),
{
    let mut i: usize = 0;
    assert(text@.len() == text.len());
    while i < needle.len()
        invariant
            i <= needle@.len(),
            at + needle@.len() <= text@.len() <= usize::MAX,
            forall|j: int| 0 <= j < i ==> text@[at + j] == needle@[j],
        decreases needle.len() - i,
    {
        if text[at + i] != needle[i] {
            assert(text@.subrange(at as int, at + needle@.len())[i as int] != needle@[i as int]);
            return false;
        }
        i += 1;
    }
    assert(text@.subrange(at as int, at + needle@.len()) == needle@);
    true
}

/// Whether the needle occurs in the text.
pub fn contains(text: &Vec<char>, needle: &str) -> (found: bool)
    ensures
        found == occurs(text@, needle@),
{
    let needle_chars = chars_of(needle);
    if needle_chars.len() > text.len() {
        return false;
    }
    let last: usize = text.len() - needle_chars.len();
    let mut at: usize = 0;
    while at < last
        invariant
            needle_chars@ == needle@,
            last + needle_chars@.len() == text@.len(),
            at <= last,
            forall|j: int| 0 <= j < at ==> !occurs_at(text@, needle@, j),
        decreases last - at,
    {
        if found_at(text, &needle_chars, at) {
            return true;
        }
        at += 1;
    }
    found_at(text, &needle_chars, last)
}

/// Whether the text begins with the prefix.
pub fn begins_with(text: &Vec<char>, prefix: &str) -> (begins: bool)
    ensures
        begins == starts_with(text@, prefix@),
{
    let prefix_chars = chars_of(prefix);
    prefix_chars.len() <= text.len() && found_at(text, &prefix_chars, 0)
}

/// What follows the prefix, where the text begins with it.
pub fn after_prefix(text: &Vec<char>, prefix: &str) -> (rest: Option<Vec<char>>)
    ensures
        rest is Some <==> starts_with(text@, prefix@),
        rest matches Some(rest) ==> rest@ == text@.skip(prefix@.len() as int),
{
    let prefix_chars = chars_of(prefix);
    if prefix_chars.len() <= text.len() && found_at(text, &prefix_chars, 0) {
        Some(part_of(text, prefix_chars.len(), text.len()))
    } else {
        None
    }
}

/// Whether the character is white space.
pub fn space(c: char) -> (space: bool)
    ensures
        space == is_space(c),
{
    let code: u32 = c as u32;
    if code < 128 {
        c == ' ' || (9 <= code && code <= 13)
    } else {
        is_whitespace(c)
    }
}

/// Whether the character is a letter or a digit.
pub fn letter_or_digit(c: char) -> (alphanumeric: bool)
    ensures
        alphanumeric == is_letter_or_digit(c),
{
    if (c as u32) < 128 {
        ('a' <= c && c <= 'z') || ('A' <= c && c <= 'Z') || ('0' <= c && c <= '9')
    } else {
        is_alphanumeric(c)
    }
}

/// The characters without the white space at the two ends.
pub fn trim(chars: &Vec<char>) -> (inner: Vec<char>)
    ensures
        inner@ == trimmed(chars@),
{
    let mut from: usize = 0;
    assert(chars@.skip(0) == chars@);
    while from < chars.len() && space(chars[from])
        invariant
            from <= chars@.len(),
            trimmed_start(chars@) == trimmed_start(chars@.skip(from as int)),
        decreases chars.len() - from,
    {
        assert(chars@.skip(from as int).drop_first() == chars@.skip(from + 1));
        from += 1;
    }
    let ghost rest = chars@.skip(from as int);
    let mut to: usize = chars.len();
    assert(rest.take(rest.len() as int) == rest);
    while to > from && space(chars[to - 1])
        invariant
            from <= to <= chars@.len(),
            rest == chars@.skip(from as int),
            trimmed_end(rest) == trimmed_end(rest.take(to - from)),
        decreases to - from,
    {
        assert(rest.take(to - from).drop_last() == rest.take(to - from - 1));
        to -= 1;
    }
    assert(rest.take(to - from) == chars@.subrange(from as int, to as int));
    part_of(chars, from, to)
}

/// Whether the text is empty or all white space.
pub fn is_blank(text: &str) -> (blank: bool)
    ensures
        blank == (trimmed(text@).len() == 0),
{
    trim(&chars_of(text)).len() == 0
}

/// The lines of the text, each as its characters.
pub fn lines_of(chars: &Vec<char>) -> (found: Vec<Vec<char>>)
    ensures
        found@.map_values(|line: Vec<char>| line@) == lines(chars@),
{
    let ghost view = |line: Vec<char>| line@;
    let mut found: Vec<Vec<char>> = Vec::new();
    let mut start: usize = 0;
    let mut at: usize = 0;
    assert(chars@.skip(0) == chars@);
    while at < chars.len()
        invariant
            start <= at <= chars@.len(),
            view == (|line: Vec<char>| line@),
            forall|i: int| start <= i < at ==> chars@[i] != '\n',
            lines(chars@) == found@.map_values(view) + lines(chars@.skip(start as int)),
        decreases chars.len() - at,
    {
        if chars[at] == '\n' {
            let ghost rest = chars@.skip(start as int);
            let end: usize = if at > start && chars[at - 1] == '\r' {
                at - 1
            } else {
                at
            };
            let line = part_of(chars, start, end);
            proof {
                lemma_line_feed(rest, at - start);
                assert(rest.take(at - start) == chars@.subrange(start as int, at as int));
                assert(line@ == without_return(rest.take(at - start)));
                assert(rest.skip(at - start + 1) == chars@.skip(at + 1));
                assert(lines(rest) == seq![line@] + lines(chars@.skip(at + 1)));
                assert(found@.push(line).map_values(view) == found@.map_values(view).push(line@));
                assert(found@.map_values(view) + (seq![line@] + lines(chars@.skip(at + 1)))
                    == found@.map_values(view).push(line@) + lines(chars@.skip(at + 1)));
            }
            found.push(line);
            start = at + 1;
        }
        at += 1;
    }
    let ghost rest = chars@.skip(start as int);
    if start < chars.len() {
        let line = part_of(chars, start, chars.len());
        proof {
            lemma_line_feed(rest, rest.len() as int);
            assert(line@ == rest);
            assert(found@.push(line).map_values(view) == found@.map_values(view) + seq![rest]);
        }
        found.push(line);
    } else {
        assert(found@.map_values(view) + lines(rest) == found@.map_values(view));
    }
    found
}

// ── Laws ─────────────────────────────────────────────────────────────

/// Lower case in ASCII: capitals become the small letters thirty-two places on, and
/// every other character stays. Beyond ASCII the Unicode tables decide.
pub proof fn law_lower_case(text: Seq<char>, i: int)
    requires
        0 <= i < text.len(),
    ensures
        ascii_lowered(text).len() == text.len(),
        65 <= text[i] as u32 <= 90 ==> ascii_lowered(text)[i] as u32 == text[i] as u32 + 32,
        !(65 <= text[i] as u32 <= 90) ==> ascii_lowered(text)[i] == text[i],
        (forall|j: int| 0 <= j < text.len() ==> (#[trigger] text[j]) as u32 <= 127) ==> lowered(
            text,
        ) == ascii_lowered(text),
        text[i] as u32 > 127 ==> lowered(text) == unicode_lowercase(text),
{
    if forall|j: int| 0 <= j < text.len() ==> (#[trigger] text[j]) as u32 <= 127 {
        assert forall|j: int| 0 <= j < text.len() implies is_ascii(#[trigger] text[j]) by {}
    }
    if text[i] as u32 > 127 {
        assert(!is_ascii(text[i]));
    }
}

/// Lowering what is lower changes nothing.
pub proof fn law_lower_case_is_final(text: Seq<char>)
    ensures
        ascii_lowered(ascii_lowered(text)) == ascii_lowered(text),
        all_ascii(text) ==> lowered(lowered(text)) == lowered(text),
{
    assert(ascii_lowered(ascii_lowered(text)) =~= ascii_lowered(text));
    if all_ascii(text) {
        assert forall|i: int| 0 <= i < lowered(text).len() implies is_ascii(
            #[trigger] lowered(text)[i],
        ) by {
            assert(is_ascii(text[i]));
        }
    }
}

/// Two texts are the same but for case just where they are of one length and differ
/// in no more than the case of ASCII letters, place by place.
pub proof fn law_same_but_for_case(a: Seq<char>, b: Seq<char>)
    ensures
        same_ignoring_case(a, b) <==> a.len() == b.len() && forall|i: int|
            0 <= i < a.len() ==> differ_in_case_only(#[trigger] a[i], b[i]),
{
    if same_ignoring_case(a, b) {
        assert(ascii_lowered(a).len() == ascii_lowered(b).len());
        assert forall|i: int| 0 <= i < a.len() implies differ_in_case_only(#[trigger] a[i], b[i]) by {
            assert(ascii_lowered(a)[i] == ascii_lowered(b)[i]);
        }
    }
    if a.len() == b.len() && forall|i: int|
        0 <= i < a.len() ==> differ_in_case_only(#[trigger] a[i], b[i]) {
        assert forall|i: int| 0 <= i < a.len() implies ascii_lowered(a)[i] == ascii_lowered(b)[i] by {
            assert(differ_in_case_only(a[i], b[i]));
        }
        assert(ascii_lowered(a) =~= ascii_lowered(b));
    }
}

/// One character, or the small and the capital form of one ASCII letter.
pub open spec fn differ_in_case_only(a: char, b: char) -> bool {
    ||| a == b
    ||| 65 <= a as u32 <= 90 && b as u32 == a as u32 + 32
    ||| 65 <= b as u32 <= 90 && a as u32 == b as u32 + 32
}

/// A needle occurs just where the text is something, then the needle, then
/// something; it starts the text where the first something is nothing.
pub proof fn law_what_occurs(text: Seq<char>, needle: Seq<char>, before: Seq<char>, after: Seq<char>)
    ensures
        text == before + needle + after ==> occurs(text, needle),
        text == needle + after ==> starts_with(text, needle),
        occurs(text, needle) ==> exists|front: Seq<char>, back: Seq<char>| #[trigger]
            is_made_of(text, front, needle, back),
        starts_with(text, needle) ==> exists|back: Seq<char>| #[trigger]
            is_made_of(text, Seq::empty(), needle, back),
{
    if text == before + needle + after {
        assert(text.subrange(before.len() as int, before.len() as int + needle.len()) =~= needle);
        assert(occurs_at(text, needle, before.len() as int));
    }
    if text == needle + after {
        assert(text.subrange(0, needle.len() as int) =~= needle);
    }
    if occurs(text, needle) {
        let at = choose|at: int| occurs_at(text, needle, at);
        let front = text.subrange(0, at);
        let back = text.subrange(at + needle.len(), text.len() as int);
        assert(is_made_of(text, front, needle, back)) by {
            assert(text.subrange(at, at + needle.len()) == needle);
            assert forall|i: int| at <= i < at + needle.len() implies text[i] == needle[i - at] by {
                assert(text.subrange(at, at + needle.len())[i - at] == text[i]);
            }
            assert(front + needle + back =~= text);
        }
    }
    if starts_with(text, needle) {
        let back = text.subrange(needle.len() as int, text.len() as int);
        assert(is_made_of(text, Seq::empty(), needle, back)) by {
            assert forall|i: int| 0 <= i < needle.len() implies text[i] == needle[i] by {
                assert(text.subrange(0, needle.len() as int)[i] == text[i]);
            }
            assert(Seq::<char>::empty() + needle + back =~= text);
        }
    }
}

/// A text is three others, one after the other.
pub open spec fn is_made_of(
    text: Seq<char>,
    front: Seq<char>,
    middle: Seq<char>,
    back: Seq<char>,
) -> bool {
    front + middle + back == text
}

/// The white space of ASCII: the space, and from the tab to the carriage return.
pub proof fn law_white_space(c: char)
    ensures
        c as u32 <= 127 ==> (is_space(c) <==> c as u32 == 32 || c as u32 == 9 || c as u32 == 10
            || c as u32 == 11 || c as u32 == 12 || c as u32 == 13),
        c as u32 > 127 ==> (is_space(c) <==> unicode_whitespace(c)),
{
}

/// The letters and digits of ASCII.
pub proof fn law_letters_and_digits(c: char)
    ensures
        c as u32 <= 127 ==> (is_letter_or_digit(c) <==> 48 <= c as u32 <= 57 || 65 <= c as u32 <= 90
            || 97 <= c as u32 <= 122),
        c as u32 > 127 ==> (is_letter_or_digit(c) <==> unicode_alphanumeric(c)),
{
}

/// Trimming takes white space off the two ends, all of it and nothing else.
pub proof fn law_trimming(text: Seq<char>)
    ensures
        exists|from: int, to: int| #[trigger] is_trim(text, from, to),
        trimmed(text).len() > 0 ==> !is_space(trimmed(text)[0]) && !is_space(
            trimmed(text)[trimmed(text).len() - 1],
        ),
{
    let from = lemma_trimmed_start(text);
    let start = trimmed_start(text);
    let kept = lemma_trimmed_end(start);
    let to = from + kept;
    assert(trimmed(text) =~= text.subrange(from, to));
    assert forall|i: int| to <= i < text.len() implies is_space(#[trigger] text[i]) by {
        assert(start[i - from] == text[i]);
    }
    assert(is_trim(text, from, to));
    if trimmed(text).len() > 0 {
        assert(trimmed(text)[0] == start[0]);
    }
}

/// What lies between the two places is the trimmed text; what lies outside is white
/// space.
pub open spec fn is_trim(text: Seq<char>, from: int, to: int) -> bool {
    &&& 0 <= from <= to <= text.len()
    &&& trimmed(text) == text.subrange(from, to)
    &&& forall|i: int| 0 <= i < from ==> is_space(#[trigger] text[i])
    &&& forall|i: int| to <= i < text.len() ==> is_space(#[trigger] text[i])
}

proof fn lemma_trimmed_start(text: Seq<char>) -> (from: int)
    ensures
        0 <= from <= text.len(),
        trimmed_start(text) == text.subrange(from, text.len() as int),
        forall|i: int| 0 <= i < from ==> is_space(#[trigger] text[i]),
        trimmed_start(text).len() > 0 ==> !is_space(trimmed_start(text)[0]),
    decreases text.len(),
{
    if text.len() > 0 && is_space(text[0]) {
        let rest = text.drop_first();
        let from = lemma_trimmed_start(rest);
        assert(rest.subrange(from, rest.len() as int) =~= text.subrange(
            from + 1,
            text.len() as int,
        ));
        assert forall|i: int| 0 <= i < from + 1 implies is_space(#[trigger] text[i]) by {
            if i > 0 {
                assert(rest[i - 1] == text[i]);
            }
        }
        from + 1
    } else {
        assert(text.subrange(0, text.len() as int) =~= text);
        0
    }
}

proof fn lemma_trimmed_end(text: Seq<char>) -> (to: int)
    ensures
        0 <= to <= text.len(),
        trimmed_end(text) == text.subrange(0, to),
        forall|i: int| to <= i < text.len() ==> is_space(#[trigger] text[i]),
        to > 0 ==> !is_space(text[to - 1]),
    decreases text.len(),
{
    if text.len() > 0 && is_space(text.last()) {
        let rest = text.drop_last();
        let to = lemma_trimmed_end(rest);
        assert(rest.subrange(0, to) =~= text.subrange(0, to));
        assert forall|i: int| to <= i < text.len() implies is_space(#[trigger] text[i]) by {
            if i < rest.len() {
                assert(rest[i] == text[i]);
            }
        }
        if to > 0 {
            assert(rest[to - 1] == text[to - 1]);
        }
        to
    } else {
        assert(text.subrange(0, text.len() as int) =~= text);
        text.len() as int
    }
}

/// The lines of a text: a line that ends in a line feed is followed by the lines of
/// what follows, a carriage return before the line feed is no part of the line, and
/// a last line needs no line feed.
pub proof fn law_lines(line: Seq<char>, rest: Seq<char>)
    requires
        forall|i: int| 0 <= i < line.len() ==> #[trigger] line[i] != '\n',
    ensures
        lines(Seq::empty()) == Seq::<Seq<char>>::empty(),
        line.len() > 0 ==> lines(line) == seq![line],
        line.len() == 0 || line[line.len() - 1] != '\r' ==> lines(line.push('\n') + rest) == seq![
            line,
        ] + lines(rest),
        lines(line.push('\r').push('\n') + rest) == seq![line] + lines(rest),
{
    if line.len() > 0 {
        lemma_line_feed(line, line.len() as int);
    }
    let plain = line.push('\n') + rest;
    lemma_line_feed(plain, line.len() as int);
    assert(plain.take(line.len() as int) =~= line);
    assert(plain.skip(line.len() as int + 1) =~= rest);
    let returned = line.push('\r').push('\n') + rest;
    lemma_line_feed(returned, line.len() as int + 1);
    assert(returned.take(line.len() as int + 1) =~= line.push('\r'));
    assert(line.push('\r').drop_last() =~= line);
    assert(returned.skip(line.len() as int + 2) =~= rest);
}

} // verus!
