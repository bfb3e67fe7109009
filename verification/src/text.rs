//! Text: trimming, splitting, joining, chunking and number formatting over sequences of
//! characters.

use crate::collections::{Key, Model};
use crate::collections::models;
use vstd::prelude::*;
use vstd::string::*;
use vstd::utf8::*;

verus! {

impl Model for String {
    type M = Seq<char>;

    open spec fn model(&self) -> Seq<char> {
        self@
    }
}

impl Key for String {
    fn same(&self, other: &Self) -> (result: bool) {
        *self == *other
    }

    fn duplicate(&self) -> (result: Self) {
        self.clone()
    }
}

/// Whether `c` is white space: it has the Unicode property White_Space.
pub open spec fn is_white(c: char) -> bool {
    let code = c as u32;
    (0x9 <= code <= 0xd) || code == 0x20 || code == 0x85 || code == 0xa0 || code == 0x1680 || (
    0x2000 <= code <= 0x200a) || code == 0x2028 || code == 0x2029 || code == 0x202f || code
        == 0x205f || code == 0x3000
}

/// `char::is_whitespace`: whether the character has the Unicode property White_Space.
pub assume_specification[ char::is_whitespace ](c: char) -> (result: bool)
    ensures
        result == is_white(c),
;

/// `String::push`: appends one character.
pub assume_specification[ String::push ](text: &mut String, c: char)
    ensures
        final(text)@ == old(text)@.push(c),
;

/// What `str::to_lowercase` makes of a text.
pub uninterp spec fn lowercase(text: Seq<char>) -> Seq<char>;

/// Whether a text is made of ASCII characters alone.
pub open spec fn ascii_only(text: Seq<char>) -> bool {
    forall|i: int| 0 <= i < text.len() ==> (#[trigger] text[i]) as int <= 127
}

/// `str::to_lowercase`: the Unicode lowercase of the whole text, a function of the text alone. Of
/// ASCII text it changes the letters `A` to `Z` and nothing else.
#[verifier::external_body]
pub(crate) fn to_lowercase(text: &str) -> (result: String)
    ensures
        result@ == lowercase(text@),
        ascii_only(text@) ==> result@ == ascii_lower(text@),
{
    text.to_lowercase()
}

/// What the debug format makes of a text.
pub uninterp spec fn quoted(text: Seq<char>) -> Seq<char>;

/// The debug format of `str`: the text in double quotes, with special characters escaped; a
/// function of the text alone.
#[verifier::external_body]
pub(crate) fn to_quoted(text: &str) -> (result: String)
    ensures
        result@ == quoted(text@),
{
    format!("{text:?}")
}

/// What the debug format makes of a path.
pub uninterp spec fn quoted_path(text: Seq<char>) -> Seq<char>;

/// The debug format of `std::path::Path`: the path in double quotes, with special characters
/// escaped, others than in the debug format of `str`; a function of the text alone.
#[verifier::external_body]
pub(crate) fn to_quoted_path(text: &str) -> (result: String)
    ensures
        result@ == quoted_path(text@),
{
    format!("{:?}", std::path::Path::new(text))
}

/// Whether two texts are the same.
pub fn same_text(left: &str, right: &str) -> (result: bool)
    ensures
        result == (left@ == right@),
{
    let a = left.as_bytes();
    let b = right.as_bytes();
    proof {
        encode_utf8_decode_utf8(left@);
        encode_utf8_decode_utf8(right@);
    }
    if a.len() != b.len() {
        return false;
    }
    let mut i: usize = 0;
    while i < a.len()
        invariant
            i <= a.len(),
            a.len() == b.len(),
            a@ == encode_utf8(left@),
            b@ == encode_utf8(right@),
            forall|j: int| 0 <= j < i ==> a@[j] == b@[j],
        decreases a.len() - i,
    {
        if a[i] != b[i] {
            return false;
        }
        i += 1;
    }
    assert(a@ =~= b@);
    true
}

/// The characters of a text.
pub fn to_chars(text: &str) -> (result: Vec<char>)
    ensures
        result@ == text@,
{
    let mut result: Vec<char> = Vec::new();
    for c in it: text.chars()
        invariant
            it.seq() == text@,
            result@ == text@.take(it.index() as int),
    {
        result.push(c);
        assert(result@ =~= text@.take(it.index() as int + 1));
    }
    assert(text@.take(text@.len() as int) =~= text@);
    result
}

/// The text made of the characters from `from` up to `to`.
pub fn from_chars(chars: &Vec<char>, from: usize, to: usize) -> (result: String)
    requires
        from <= to <= chars@.len(),
    ensures
        result@ == chars@.subrange(from as int, to as int),
{
    let mut result = String::new();
    let mut i: usize = from;
    assert(result@ =~= chars@.subrange(from as int, i as int));
    while i < to
        invariant
            from <= i <= to <= chars@.len(),
            result@ == chars@.subrange(from as int, i as int),
        decreases to - i,
    {
        result.push(chars[i]);
        i += 1;
        assert(result@ =~= chars@.subrange(from as int, i as int));
    }
    result
}

/// `text` from its first character that is not white space.
pub open spec fn trim_start(text: Seq<char>) -> Seq<char>
    decreases text.len(),
{
    if text.len() > 0 && is_white(text.first()) {
        trim_start(text.drop_first())
    } else {
        text
    }
}

/// `text` up to its last character that is not white space.
pub open spec fn trim_end(text: Seq<char>) -> Seq<char>
    decreases text.len(),
{
    if text.len() > 0 && is_white(text.last()) {
        trim_end(text.drop_last())
    } else {
        text
    }
}

/// `text` without white space at either end.
pub open spec fn trimmed(text: Seq<char>) -> Seq<char> {
    trim_end(trim_start(text))
}

fn skip_white(chars: &Vec<char>, from: usize) -> (result: usize)
    requires
        from <= chars@.len(),
    ensures
        from <= result <= chars@.len(),
        trim_start(chars@.skip(from as int)) == chars@.skip(result as int),
        result < chars@.len() ==> !is_white(chars@[result as int]),
{
    let mut i: usize = from;
    while i < chars.len() && chars[i].is_whitespace()
        invariant
            from <= i <= chars@.len(),
            trim_start(chars@.skip(from as int)) == trim_start(chars@.skip(i as int)),
        decreases chars@.len() - i,
    {
        assert(chars@.skip(i as int).drop_first() =~= chars@.skip(i + 1));
        i += 1;
    }
    i
}

/// `str::trim`.
pub fn trim(text: &str) -> (result: String)
    ensures
        result@ == trimmed(text@),
{
    let chars = to_chars(text);
    let from = skip_white(&chars, 0);
    assert(chars@.skip(0) =~= chars@);
    let mut to: usize = chars.len();
    assert(chars@.subrange(from as int, to as int) =~= chars@.skip(from as int));
    while to > from && chars[to - 1].is_whitespace()
        invariant
            from <= to <= chars@.len(),
            chars@ == text@,
            trim_start(text@) == chars@.skip(from as int),
            trim_end(chars@.skip(from as int)) == trim_end(
                chars@.subrange(from as int, to as int),
            ),
        decreases to,
    {
        assert(chars@.subrange(from as int, to as int).drop_last() =~= chars@.subrange(
            from as int,
            to - 1,
        ));
        to -= 1;
    }
    from_chars(&chars, from, to)
}

/// Whether the first character of `text` that is not white space is `c`.
pub fn leads_with(text: &str, c: char) -> (result: bool)
    ensures
        result == (trim_start(text@).len() > 0 && trim_start(text@)[0] == c),
{
    let chars = to_chars(text);
    let from = skip_white(&chars, 0);
    assert(chars@.skip(0) =~= chars@);
    from < chars.len() && chars[from] == c
}

/// How many characters of `text` come before its first white space.
pub open spec fn word_len(text: Seq<char>) -> int
    decreases text.len(),
{
    if text.len() == 0 || is_white(text.first()) {
        0
    } else {
        1 + word_len(text.drop_first())
    }
}

pub proof fn lemma_word_len(text: Seq<char>)
    ensures
        0 <= word_len(text) <= text.len(),
        text.len() > 0 && !is_white(text.first()) ==> 0 < word_len(text),
    decreases text.len(),
{
    if text.len() > 0 && !is_white(text.first()) {
        lemma_word_len(text.drop_first());
    }
}

/// The words of `text`: what stands between stretches of white space.
pub open spec fn words(text: Seq<char>) -> Seq<Seq<char>>
    decreases text.len(),
{
    let rest = trim_start(text);
    if rest.len() == 0 {
        Seq::empty()
    } else {
        proof {
            lemma_trim_start(text);
            lemma_word_len(rest);
        }
        seq![rest.take(word_len(rest))] + words(rest.skip(word_len(rest)))
    }
}

/// `str::split_whitespace`.
pub fn split_words(text: &str) -> (result: Vec<String>)
    ensures
        models(result@) == words(text@),
{
    let chars = to_chars(text);
    let mut result: Vec<String> = Vec::new();
    let mut from: usize = skip_white(&chars, 0);
    assert(chars@.skip(0) =~= chars@);
    proof {
        lemma_words_trimmed(text@);
    }
    assert(models(result@) + words(chars@.skip(from as int)) =~= words(text@));
    while from < chars.len()
        invariant
            from <= chars@.len(),
            chars@ == text@,
            from < chars@.len() ==> !is_white(chars@[from as int]),
            models(result@) + words(chars@.skip(from as int)) == words(text@),
        decreases chars@.len() - from,
    {
        let ghost rest = chars@.skip(from as int);
        let mut to: usize = from;
        while to < chars.len() && !chars[to].is_whitespace()
            invariant
                from <= to <= chars@.len(),
                word_len(chars@.skip(from as int)) == (to - from) + word_len(chars@.skip(to as int)),
            decreases chars@.len() - to,
        {
            assert(chars@.skip(to as int).drop_first() =~= chars@.skip(to + 1));
            to += 1;
        }
        proof {
            assert(word_len(chars@.skip(to as int)) == 0);
            assert(rest.first() == chars@[from as int]);
            assert(trim_start(rest) == rest);
            lemma_word_len(rest.drop_first());
        }
        let word = from_chars(&chars, from, to);
        let ghost before = models(result@);
        result.push(word);
        let next = skip_white(&chars, to);
        proof {
            assert(rest.take(to - from) =~= word@);
            assert(rest.skip(to - from) =~= chars@.skip(to as int));
            lemma_words_trimmed(chars@.skip(to as int));
            assert(words(rest) == seq![word@] + words(chars@.skip(next as int)));
            assert(models(result@) =~= before.push(word@));
            assert(models(result@) + words(chars@.skip(next as int)) =~= before + words(rest));
        }
        from = next;
    }
    assert(models(result@) =~= words(text@));
    result
}

pub proof fn lemma_trim_start(text: Seq<char>)
    ensures
        trim_start(trim_start(text)) == trim_start(text),
        trim_start(text).len() <= text.len(),
        trim_start(text).len() > 0 ==> !is_white(trim_start(text).first()),
    decreases text.len(),
{
    if text.len() > 0 && is_white(text.first()) {
        lemma_trim_start(text.drop_first());
    }
}

proof fn lemma_words_trimmed(text: Seq<char>)
    ensures
        words(trim_start(text)) == words(text),
{
    lemma_trim_start(text);
    lemma_trim_start(trim_start(text));
}

/// The character of a decimal or hexadecimal digit.
pub open spec fn digit(value: int) -> char {
    if value < 10 {
        (48 + value) as char
    } else {
        (87 + value) as char
    }
}

pub fn to_digit(value: u8) -> (result: char)
    requires
        value < 10,
    ensures
        result == digit(value as int),
{
    (48u8 + value) as char
}

/// A number in decimal.
pub open spec fn decimal(value: nat) -> Seq<char>
    decreases value,
{
    if value < 10 {
        seq![digit(value as int)]
    } else {
        decimal(value / 10).push(digit((value % 10) as int))
    }
}

/// Formats a number in decimal.
pub fn to_decimal(value: u128) -> (result: String)
    ensures
        result@ == decimal(value as nat),
    decreases value,
{
    if value < 10 {
        let mut result = String::new();
        result.push(to_digit(value as u8));
        assert(result@ =~= decimal(value as nat));
        result
    } else {
        let mut result = to_decimal(value / 10);
        result.push(to_digit((value % 10) as u8));
        result
    }
}

/// A number in decimal, with a sign where it is negative.
pub open spec fn signed_decimal(value: int) -> Seq<char> {
    if value < 0 {
        "-"@ + decimal((-value) as nat)
    } else {
        decimal(value as nat)
    }
}

/// Formats a number in decimal, with a sign where it is negative.
pub fn to_signed_decimal(value: i128) -> (result: String)
    ensures
        result@ == signed_decimal(value as int),
{
    if value < 0 {
        let mut text = String::from_str("-");
        text.append(to_decimal((-(value + 1)) as u128 + 1).as_str());
        text
    } else {
        to_decimal(value as u128)
    }
}

/// A text without the zeros at its end.
pub open spec fn unpadded(text: Seq<char>) -> Seq<char>
    decreases text.len(),
{
    if text.len() > 0 && text.last() == '0' {
        unpadded(text.drop_last())
    } else {
        text
    }
}

/// `bytes` in hexadecimal, two lowercase digits for each byte.
pub open spec fn hexadecimal(bytes: Seq<u8>) -> Seq<char> {
    Seq::new(
        2 * bytes.len(),
        |i: int|
            if i % 2 == 0 {
                digit(bytes[i / 2] as int / 16)
            } else {
                digit(bytes[i / 2] as int % 16)
            },
    )
}

/// `hex::encode`: two lowercase hexadecimal digits for each byte, the high one first.
#[verifier::external_body]
pub(crate) fn to_hexadecimal(bytes: &[u8]) -> (result: String)
    ensures
        result@ == hexadecimal(bytes@),
{
    hex::encode(bytes)
}

/// The value of a hexadecimal digit of either case.
pub open spec fn digit_value(c: char) -> Option<int> {
    if '0' <= c <= '9' {
        Some(c as int - 48)
    } else if 'a' <= c <= 'f' {
        Some(c as int - 87)
    } else if 'A' <= c <= 'F' {
        Some(c as int - 55)
    } else {
        None
    }
}

/// The bytes that `text` spells in hexadecimal, if it does.
pub open spec fn unhexed(text: Seq<char>) -> Option<Seq<u8>> {
    if text.len() % 2 == 0 && forall|i: int|
        0 <= i < text.len() ==> digit_value(#[trigger] text[i]) is Some {
        Some(
            Seq::new(
                text.len() / 2,
                |i: int|
                    (16 * digit_value(text[2 * i])->0 + digit_value(text[2 * i + 1])->0) as u8,
            ),
        )
    } else {
        None
    }
}

/// `hex::decode`: reads pairs of hexadecimal digits of either case, the high one first, and
/// fails on an odd number of digits or on any other character.
#[verifier::external_body]
pub(crate) fn from_hexadecimal(text: &str) -> (result: Option<Vec<u8>>)
    ensures
        match result {
            Some(bytes) => unhexed(text@) == Some(bytes@),
            None => unhexed(text@) is None,
        },
{
    hex::decode(text).ok()
}

/// The ASCII lowercase of one character.
pub open spec fn ascii_lower_char(c: char) -> char {
    if 'A' <= c <= 'Z' {
        (c as int + 32) as char
    } else {
        c
    }
}

/// `text` with the letters `A` to `Z` in lowercase.
pub open spec fn ascii_lower(text: Seq<char>) -> Seq<char> {
    Seq::new(text.len(), |i: int| ascii_lower_char(text[i]))
}

/// `str::to_ascii_lowercase`.
pub fn to_ascii_lower(text: &str) -> (result: String)
    ensures
        result@ == ascii_lower(text@),
{
    let chars = to_chars(text);
    let mut result = String::new();
    let mut i: usize = 0;
    while i < chars.len()
        invariant
            i <= chars@.len(),
            result@ == ascii_lower(chars@.take(i as int)),
        decreases chars@.len() - i,
    {
        let c = chars[i];
        if 'A' <= c && c <= 'Z' {
            result.push(((c as u8) + 32u8) as char);
        } else {
            result.push(c);
        }
        i += 1;
        assert(result@ =~= ascii_lower(chars@.take(i as int)));
    }
    assert(chars@.take(i as int) =~= chars@);
    result
}

/// `parts` one after another with `separator` between them.
pub open spec fn joined(parts: Seq<Seq<char>>, separator: Seq<char>) -> Seq<char>
    decreases parts.len(),
{
    if parts.len() == 0 {
        Seq::empty()
    } else if parts.len() == 1 {
        parts[0]
    } else {
        joined(parts.drop_last(), separator) + separator + parts.last()
    }
}

/// Joins the parts from `from` on.
pub fn join(parts: &Vec<String>, from: usize, separator: &str) -> (result: String)
    requires
        from <= parts@.len(),
    ensures
        result@ == joined(models(parts@).skip(from as int), separator@),
{
    let mut result = String::new();
    let mut i: usize = from;
    let ghost all = models(parts@).skip(from as int);
    while i < parts.len()
        invariant
            from <= i <= parts@.len(),
            all == models(parts@).skip(from as int),
            result@ == joined(all.take(i - from), separator@),
        decreases parts@.len() - i,
    {
        if i > from {
            result.append(separator);
        }
        result.append(parts[i].as_str());
        assert(all.take(i - from + 1).drop_last() =~= all.take(i - from));
        assert(all[i - from] == parts@[i as int]@);
        i += 1;
        assert(result@ =~= joined(all.take(i - from), separator@));
    }
    assert(all.take(i - from) =~= all);
    result
}

/// `text` without a leading `0x`.
pub open spec fn after_0x(text: Seq<char>) -> Seq<char> {
    if text.len() >= 2 && text[0] == '0' && text[1] == 'x' {
        text.skip(2)
    } else {
        text
    }
}

/// Takes a leading `0x` off.
pub fn strip_0x(text: &str) -> (result: String)
    ensures
        result@ == after_0x(text@),
{
    let chars = to_chars(text);
    if chars.len() >= 2 && chars[0] == '0' && chars[1] == 'x' {
        let result = from_chars(&chars, 2, chars.len());
        assert(result@ =~= text@.skip(2));
        result
    } else {
        let result = from_chars(&chars, 0, chars.len());
        assert(result@ =~= text@);
        result
    }
}

/// The first `count` characters of `text`.
pub fn head(text: &str, count: usize) -> (result: String)
    requires
        count <= text@.len(),
    ensures
        result@ == text@.take(count as int),
{
    let chars = to_chars(text);
    let result = from_chars(&chars, 0, count);
    assert(result@ =~= text@.take(count as int));
    result
}

/// Whether `text` starts with `prefix`.
pub open spec fn starts(text: Seq<char>, prefix: Seq<char>) -> bool {
    prefix.len() <= text.len() && text.take(prefix.len() as int) == prefix
}

/// `str::starts_with`.
pub fn starts_with(text: &str, prefix: &str) -> (result: bool)
    ensures
        result == starts(text@, prefix@),
{
    let a = to_chars(text);
    let b = to_chars(prefix);
    if b.len() > a.len() {
        return false;
    }
    let mut i: usize = 0;
    while i < b.len()
        invariant
            i <= b@.len() <= a@.len(),
            a@ == text@,
            b@ == prefix@,
            forall|j: int| 0 <= j < i ==> a@[j] == b@[j],
        decreases b@.len() - i,
    {
        if a[i] != b[i] {
            assert(text@.take(prefix@.len() as int)[i as int] != prefix@[i as int]);
            return false;
        }
        i += 1;
    }
    assert(text@.take(prefix@.len() as int) =~= prefix@);
    true
}

/// Whether `text` holds a line feed, a carriage return or a NUL.
pub open spec fn has_control(text: Seq<char>) -> bool {
    exists|i: int| 0 <= i < text.len() && #[trigger] is_control(text[i])
}

/// A line feed, a carriage return or a NUL.
pub open spec fn is_control(c: char) -> bool {
    c == '\n' || c == '\r' || c == '\0'
}

/// Whether `text` holds a line feed, a carriage return or a NUL.
pub fn contains_control(text: &str) -> (result: bool)
    ensures
        result == has_control(text@),
{
    let chars = to_chars(text);
    let mut i: usize = 0;
    while i < chars.len()
        invariant
            i <= chars@.len(),
            chars@ == text@,
            forall|j: int| 0 <= j < i ==> !is_control(#[trigger] text@[j]),
        decreases chars@.len() - i,
    {
        let c = chars[i];
        if c == '\n' || c == '\r' || c == '\0' {
            assert(is_control(text@[i as int]));
            return true;
        }
        i += 1;
    }
    false
}

/// Whether `left` comes before `right` in the order of their character codes, which for UTF-8
/// text is the order of its bytes.
pub open spec fn text_before(left: Seq<char>, right: Seq<char>) -> bool
    decreases left.len(),
{
    if right.len() == 0 {
        false
    } else if left.len() == 0 {
        true
    } else if left[0] != right[0] {
        left[0] < right[0]
    } else {
        text_before(left.drop_first(), right.drop_first())
    }
}

/// Whether `left` comes before `right`.
pub fn is_text_before(left: &str, right: &str) -> (result: bool)
    ensures
        result == text_before(left@, right@),
{
    let a = to_chars(left);
    let b = to_chars(right);
    let mut i: usize = 0;
    assert(a@.skip(0) =~= a@);
    assert(b@.skip(0) =~= b@);
    while i < a.len() && i < b.len() && a[i] == b[i]
        invariant
            i <= a@.len(),
            i <= b@.len(),
            text_before(a@, b@) == text_before(a@.skip(i as int), b@.skip(i as int)),
        decreases a@.len() - i,
    {
        assert(a@.skip(i as int).drop_first() =~= a@.skip(i + 1));
        assert(b@.skip(i as int).drop_first() =~= b@.skip(i + 1));
        i += 1;
    }
    if i >= b.len() {
        false
    } else if i >= a.len() {
        true
    } else {
        assert(a@.skip(i as int)[0] == a@[i as int]);
        assert(b@.skip(i as int)[0] == b@[i as int]);
        a[i] < b[i]
    }
}

/// The length of a text in UTF-8 bytes.
pub open spec fn byte_len(text: Seq<char>) -> nat {
    encode_utf8(text).len()
}

/// The length of a text in UTF-8 bytes.
pub fn text_len(text: &str) -> (result: usize)
    ensures
        result == byte_len(text@),
{
    text.as_bytes().len()
}

/// How many bytes one character takes in UTF-8.
pub open spec fn width(c: char) -> nat {
    if (c as u32) < 0x80 {
        1
    } else if (c as u32) < 0x800 {
        2
    } else if (c as u32) < 0x10000 {
        3
    } else {
        4
    }
}

/// How many characters from the start of `text` fit in `room` bytes.
pub open spec fn fitting(text: Seq<char>, room: int) -> int
    decreases text.len(),
{
    if text.len() == 0 || width(text.first()) > room {
        0
    } else {
        1 + fitting(text.drop_first(), room - width(text.first()))
    }
}

/// How many characters the first chunk of a text takes: as many as fit, but at least one.
pub open spec fn chunk_len(text: Seq<char>, max_bytes: nat) -> int {
    if fitting(text, max_bytes as int) == 0 {
        1
    } else {
        fitting(text, max_bytes as int)
    }
}

/// `text` cut into chunks of at most `max_bytes` bytes, never inside a character.
pub open spec fn chunks(text: Seq<char>, max_bytes: nat) -> Seq<Seq<char>>
    decreases text.len(),
{
    if text.len() == 0 || max_bytes == 0 {
        Seq::empty()
    } else {
        proof {
            lemma_fitting(text, max_bytes as int);
        }
        seq![text.take(chunk_len(text, max_bytes))] + chunks(
            text.skip(chunk_len(text, max_bytes)),
            max_bytes,
        )
    }
}

pub proof fn lemma_fitting(text: Seq<char>, room: int)
    ensures
        0 <= fitting(text, room) <= text.len(),
    decreases text.len(),
{
    if text.len() > 0 && width(text.first()) <= room {
        lemma_fitting(text.drop_first(), room - width(text.first()));
    }
}

fn to_width(c: char) -> (result: usize)
    ensures
        result == width(c),
{
    let code: u32 = c as u32;
    if code < 0x80 {
        1
    } else if code < 0x800 {
        2
    } else if code < 0x10000 {
        3
    } else {
        4
    }
}

/// Cuts a text into chunks of at most `max_bytes` bytes, never inside a character. A character
/// wider than `max_bytes` gets a chunk of its own.
pub fn utf8_chunks(value: &str, max_bytes: usize) -> (result: Vec<String>)
    ensures
        models(result@) == chunks(value@, max_bytes as nat),
{
    let chars = to_chars(value);
    let mut result: Vec<String> = Vec::new();
    if max_bytes == 0 {
        assert(models(result@) =~= chunks(value@, max_bytes as nat));
        return result;
    }
    let mut start: usize = 0;
    assert(chars@.skip(0) =~= chars@);
    assert(models(result@) + chunks(value@, max_bytes as nat) =~= chunks(value@, max_bytes as nat));
    while start < chars.len()
        invariant
            start <= chars@.len(),
            chars@ == value@,
            max_bytes > 0,
            models(result@) + chunks(chars@.skip(start as int), max_bytes as nat) == chunks(
                value@,
                max_bytes as nat,
            ),
        decreases chars@.len() - start,
    {
        let ghost rest = chars@.skip(start as int);
        let mut end: usize = start;
        let mut room: usize = max_bytes;
        while end < chars.len() && to_width(chars[end]) <= room
            invariant
                start <= end <= chars@.len(),
                rest == chars@.skip(start as int),
                fitting(rest, max_bytes as int) == (end - start) + fitting(
                    chars@.skip(end as int),
                    room as int,
                ),
            decreases chars@.len() - end,
        {
            assert(chars@.skip(end as int).drop_first() =~= chars@.skip(end + 1));
            room -= to_width(chars[end]);
            end += 1;
        }
        if end == start {
            end += 1;
        }
        let chunk = from_chars(&chars, start, end);
        let ghost before = models(result@);
        result.push(chunk);
        proof {
            assert(rest.take(end - start) =~= chunk@);
            assert(rest.skip(end - start) =~= chars@.skip(end as int));
            assert(models(result@) =~= before.push(chunk@));
            assert(models(result@) + chunks(chars@.skip(end as int), max_bytes as nat) =~= before
                + chunks(rest, max_bytes as nat));
        }
        start = end;
    }
    assert(models(result@) =~= chunks(value@, max_bytes as nat));
    result
}

/// `String::from_utf8`: the text that bytes spell in UTF-8; it fails on bytes that are not valid
/// UTF-8.
#[verifier::external_body]
pub(crate) fn from_utf8(bytes: Vec<u8>) -> (result: Option<String>)
    ensures
        match result {
            Some(text) => valid_utf8(bytes@) && text@ == decode_utf8(bytes@),
            None => !valid_utf8(bytes@),
        },
{
    String::from_utf8(bytes).ok()
}

} // verus!
