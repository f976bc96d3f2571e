//! Text operations on sequences of Unicode scalar values.
//!
//! Case mapping, white space and lossy decoding come from the standard
//! library; their results are named. Everything else is defined here.

use vstd::prelude::*;

verus! {

/// `String::push` appends one character to the text.
pub assume_specification[ String::push ](string: &mut String, c: char)
    ensures
        final(string)@ == old(string)@.push(c),
;

/// What `str::to_lowercase` returns for a text.
pub uninterp spec fn lowercase(text: Seq<char>) -> Seq<char>;

/// What `str::to_uppercase` returns for a text.
pub uninterp spec fn uppercase(text: Seq<char>) -> Seq<char>;

/// Whether a character has the Unicode property `White_Space`.
pub open spec fn whitespace(c: char) -> bool {
    let code = c as int;
    ||| 0x9 <= code <= 0xd
    ||| code == 0x20
    ||| code == 0x85
    ||| code == 0xa0
    ||| code == 0x1680
    ||| 0x2000 <= code <= 0x200a
    ||| code == 0x2028
    ||| code == 0x2029
    ||| code == 0x202f
    ||| code == 0x205f
    ||| code == 0x3000
}

/// What `String::from_utf8_lossy` returns for some bytes.
pub uninterp spec fn utf8_lossy(bytes: Seq<u8>) -> Seq<char>;

/// What the `{:?}` form of a text is.
pub uninterp spec fn debug_text(text: Seq<char>) -> Seq<char>;

/// `str::to_lowercase`, the Unicode lowercase form of the text.
#[verifier::external_body]
pub(crate) fn to_lowercase(text: &str) -> (lower: String)
    ensures
        lower@ == lowercase(text@),
{
    text.to_lowercase()
}

/// `str::to_uppercase`, the Unicode uppercase form of the text.
#[verifier::external_body]
pub(crate) fn to_uppercase(text: &str) -> (upper: String)
    ensures
        upper@ == uppercase(text@),
{
    text.to_uppercase()
}

/// `char::is_whitespace`: whether the character has the Unicode property
/// `White_Space`.
#[verifier::external_body]
pub(crate) fn is_whitespace(c: char) -> (space: bool)
    ensures
        space == whitespace(c),
{
    c.is_whitespace()
}

/// `String::from_utf8_lossy`, the text of the bytes with replacement
/// characters where they are not UTF-8.
#[verifier::external_body]
pub(crate) fn from_utf8_lossy(bytes: &Vec<u8>) -> (text: String)
    ensures
        text@ == utf8_lossy(bytes@),
{
    String::from_utf8_lossy(bytes).into_owned()
}

/// The `{:?}` formatting of a text by the standard library.
#[verifier::external_body]
pub(crate) fn format_debug(text: &str) -> (formatted: String)
    ensures
        formatted@ == debug_text(text@),
{
    format!("{text:?}")
}

/// The texts of a list.
pub open spec fn texts(list: Seq<String>) -> Seq<Seq<char>> {
    list.map_values(|text: String| text@)
}

/// The text of an optional string.
pub open spec fn opt_text(text: Option<String>) -> Option<Seq<char>> {
    match text {
        Some(value) => Some(value@),
        None => None,
    }
}

/// The characters of a text, in order.
pub fn to_chars(text: &str) -> (chars: Vec<char>)
    ensures
        chars@ == text@,
{
    let mut chars: Vec<char> = Vec::new();
    for c in it: text.chars()
        invariant
            chars@ == text@.take(it.index() as int),
            it.seq() == text@,
    {
        chars.push(c);
        assert(text@.take(it.index() + 1) =~= text@.take(it.index() as int).push(c));
    }
    assert(text@.take(text@.len() as int) =~= text@);
    chars
}

/// The text of a range of characters.
pub fn from_chars(chars: &Vec<char>, start: usize, end: usize) -> (text: String)
    requires
        start <= end <= chars.len(),
    ensures
        text@ == chars@.subrange(start as int, end as int),
{
    let mut text = String::new();
    let mut at: usize = start;
    while at < end
        invariant
            start <= at <= end <= chars.len(),
            text@ == chars@.subrange(start as int, at as int),
        decreases end - at,
    {
        text.push(chars[at]);
        at += 1;
        assert(chars@.subrange(start as int, at as int) =~= chars@.subrange(
            start as int,
            at - 1,
        ).push(chars@[at - 1]));
    }
    text
}

/// Whether two texts hold the same characters.
pub fn same_text(left: &str, right: &str) -> (same: bool)
    ensures
        same == (left@ == right@),
{
    left.to_owned() == right.to_owned()
}

/// Whether an optional text is present and equal to another.
pub fn is_text(left: &Option<String>, right: &str) -> (same: bool)
    ensures
        same == (opt_text(*left) == Some(right@)),
{
    match left {
        Some(value) => same_text(value.as_str(), right),
        None => false,
    }
}

/// Whether `wanted` is one of the texts of a list.
pub fn list_has_text(list: &Vec<String>, wanted: &str) -> (found: bool)
    ensures
        found == texts(list@).contains(wanted@),
{
    let mut at: usize = 0;
    while at < list.len()
        invariant
            at <= list.len(),
            forall|i: int| 0 <= i < at ==> (#[trigger] texts(list@)[i]) != wanted@,
        decreases list.len() - at,
    {
        if same_text(list[at].as_str(), wanted) {
            assert(texts(list@)[at as int] == wanted@);
            return true;
        }
        at += 1;
    }
    false
}

/// Whether `part` occurs in `whole` as a contiguous run of characters.
pub open spec fn occurs(whole: Seq<char>, part: Seq<char>) -> bool {
    exists|at: int| #[trigger] occurs_at(whole, part, at)
}

/// Whether `part` occurs in `whole` at one place.
pub open spec fn occurs_at(whole: Seq<char>, part: Seq<char>, at: int) -> bool {
    0 <= at <= whole.len() - part.len() && whole.subrange(at, at + part.len()) == part
}

/// Whether `part` occurs in `whole`.
pub fn contains_text(whole: &str, part: &str) -> (found: bool)
    ensures
        found == occurs(whole@, part@),
{
    let hay = to_chars(whole);
    let needle = to_chars(part);
    if needle.len() > hay.len() {
        return false;
    }
    let mut at: usize = 0;
    while at <= hay.len() - needle.len()
        invariant
            hay@ == whole@,
            needle@ == part@,
            needle.len() <= hay.len(),
            at <= hay.len() - needle.len() + 1,
            forall|i: int| 0 <= i < at ==> !#[trigger] occurs_at(whole@, part@, i),
        decreases hay.len() - needle.len() + 1 - at,
    {
        let mut same: usize = 0;
        while same < needle.len() && hay[at + same] == needle[same]
            invariant
                hay@ == whole@,
                needle@ == part@,
                at + needle.len() <= hay.len(),
                same <= needle.len(),
                forall|i: int| 0 <= i < same ==> hay@[at + i] == #[trigger] needle@[i],
            decreases needle.len() - same,
        {
            same += 1;
        }
        if same == needle.len() {
            assert(whole@.subrange(at as int, at + part@.len()) =~= part@);
            assert(occurs_at(whole@, part@, at as int));
            return true;
        }
        assert(whole@.subrange(at as int, at + part@.len())[same as int] != part@[same as int]);
        if at == hay.len() - needle.len() {
            assert forall|i: int| !#[trigger] occurs_at(whole@, part@, i) by {
                if i != at {
                    assert(i < at || i > whole@.len() - part@.len());
                }
            }
            return false;
        }
        at += 1;
    }
    false
}

/// The lowercase letter of an ASCII uppercase letter, any other character itself.
pub open spec fn ascii_lower(c: char) -> char {
    if 'A' <= c && c <= 'Z' {
        (c as int + 32) as char
    } else {
        c
    }
}

/// A text with its ASCII letters in lowercase.
pub open spec fn ascii_folded(text: Seq<char>) -> Seq<char> {
    text.map_values(|c: char| ascii_lower(c))
}

/// The lowercase letter of an ASCII uppercase letter.
pub fn to_ascii_lower(c: char) -> (lower: char)
    ensures
        lower == ascii_lower(c),
{
    if 'A' <= c && c <= 'Z' {
        let code: u8 = c as u8;
        (code + 32) as char
    } else {
        c
    }
}

/// A text with its ASCII letters in lowercase.
pub fn to_ascii_lowercase(text: &str) -> (lower: String)
    ensures
        lower@ == ascii_folded(text@),
{
    let chars = to_chars(text);
    let mut lower = String::new();
    let mut at: usize = 0;
    while at < chars.len()
        invariant
            chars@ == text@,
            at <= chars.len(),
            lower@ == ascii_folded(text@.take(at as int)),
        decreases chars.len() - at,
    {
        lower.push(to_ascii_lower(chars[at]));
        at += 1;
        assert(ascii_folded(text@.take(at as int)) =~= ascii_folded(text@.take(at - 1)).push(
            ascii_lower(text@[at - 1]),
        ));
    }
    assert(text@.take(at as int) =~= text@);
    lower
}

/// Whether two texts differ in the case of ASCII letters only.
pub fn eq_ignore_ascii_case(left: &str, right: &str) -> (same: bool)
    ensures
        same == (ascii_folded(left@) == ascii_folded(right@)),
{
    to_ascii_lowercase(left) == to_ascii_lowercase(right)
}

/// Whether some text of a list equals `wanted` but for the case of ASCII letters.
pub open spec fn list_has_folded(list: Seq<Seq<char>>, wanted: Seq<char>) -> bool {
    exists|i: int|
        0 <= i < list.len() && #[trigger] ascii_folded(list[i]) == ascii_folded(wanted)
}

/// Whether some text of a list equals `wanted` but for the case of ASCII letters.
pub fn any_eq_ignore_ascii_case(list: &Vec<String>, wanted: &str) -> (found: bool)
    ensures
        found == list_has_folded(texts(list@), wanted@),
{
    let mut at: usize = 0;
    while at < list.len()
        invariant
            at <= list.len(),
            forall|i: int|
                0 <= i < at ==> #[trigger] ascii_folded(texts(list@)[i]) != ascii_folded(wanted@),
        decreases list.len() - at,
    {
        if eq_ignore_ascii_case(list[at].as_str(), wanted) {
            assert(ascii_folded(texts(list@)[at as int]) == ascii_folded(wanted@));
            return true;
        }
        at += 1;
    }
    false
}

/// Whether every wanted text is in a list but for the case of ASCII letters.
pub open spec fn all_folded(list: Seq<Seq<char>>, wanted: Seq<Seq<char>>) -> bool {
    forall|i: int| 0 <= i < wanted.len() ==> list_has_folded(list, #[trigger] wanted[i])
}

/// Whether every wanted text is in a list but for the case of ASCII letters.
pub fn all_eq_ignore_ascii_case(list: &Vec<String>, wanted: &Vec<String>) -> (all: bool)
    ensures
        all == all_folded(texts(list@), texts(wanted@)),
{
    let mut at: usize = 0;
    while at < wanted.len()
        invariant
            at <= wanted.len(),
            forall|i: int|
                0 <= i < at ==> list_has_folded(texts(list@), #[trigger] texts(wanted@)[i]),
        decreases wanted.len() - at,
    {
        if !any_eq_ignore_ascii_case(list, wanted[at].as_str()) {
            assert(!list_has_folded(texts(list@), texts(wanted@)[at as int]));
            return false;
        }
        at += 1;
    }
    true
}


/// A text without leading white space.
pub open spec fn trimmed_start(text: Seq<char>) -> Seq<char>
    decreases text.len(),
{
    if text.len() > 0 && whitespace(text[0]) {
        trimmed_start(text.drop_first())
    } else {
        text
    }
}

/// A text without trailing white space.
pub open spec fn trimmed_end(text: Seq<char>) -> Seq<char>
    decreases text.len(),
{
    if text.len() > 0 && whitespace(text.last()) {
        trimmed_end(text.drop_last())
    } else {
        text
    }
}

/// A text without white space at either end.
pub open spec fn trimmed(text: Seq<char>) -> Seq<char> {
    trimmed_end(trimmed_start(text))
}

/// A text without white space at either end.
pub fn trim(text: &str) -> (inner: String)
    ensures
        inner@ == trimmed(text@),
{
    let chars = to_chars(text);
    let mut start: usize = 0;
    assert(chars@.skip(0) =~= text@);
    while start < chars.len() && is_whitespace(chars[start])
        invariant
            start <= chars.len(),
            trimmed_start(chars@.skip(start as int)) == trimmed_start(text@),
        decreases chars.len() - start,
    {
        assert(chars@.skip(start as int).drop_first() =~= chars@.skip(start + 1));
        start += 1;
    }
    let mut end: usize = chars.len();
    assert(chars@.subrange(start as int, end as int) =~= chars@.skip(start as int));
    while end > start && is_whitespace(chars[end - 1])
        invariant
            start <= end <= chars.len(),
            trimmed_end(chars@.subrange(start as int, end as int)) == trimmed(text@),
        decreases end - start,
    {
        assert(chars@.subrange(start as int, end as int).drop_last() =~= chars@.subrange(
            start as int,
            end - 1,
        ));
        end -= 1;
    }
    from_chars(&chars, start, end)
}

/// Whether a text holds a character.
pub fn contains_char(text: &str, wanted: char) -> (found: bool)
    ensures
        found == text@.contains(wanted),
{
    let chars = to_chars(text);
    let mut at: usize = 0;
    while at < chars.len()
        invariant
            chars@ == text@,
            at <= chars.len(),
            forall|i: int| 0 <= i < at ==> text@[i] != wanted,
        decreases chars.len() - at,
    {
        if chars[at] == wanted {
            return true;
        }
        at += 1;
    }
    false
}

/// Where a character first occurs in a text.
pub open spec fn first_index(text: Seq<char>, c: char) -> Option<int>
    decreases text.len(),
{
    if text.len() == 0 {
        None
    } else if text[0] == c {
        Some(0)
    } else {
        match first_index(text.drop_first(), c) {
            Some(at) => Some(at + 1),
            None => None,
        }
    }
}

/// Where a character last occurs in a text.
pub open spec fn last_index(text: Seq<char>, c: char) -> Option<int>
    decreases text.len(),
{
    if text.len() == 0 {
        None
    } else if text.last() == c {
        Some(text.len() - 1)
    } else {
        last_index(text.drop_last(), c)
    }
}

/// The first occurrence is at the first place that holds the character.
pub proof fn lemma_first_index(text: Seq<char>, c: char, at: int)
    requires
        0 <= at <= text.len(),
        forall|i: int| 0 <= i < at ==> text[i] != c,
        at < text.len() ==> text[at] == c,
    ensures
        first_index(text, c) == if at < text.len() {
            Some(at)
        } else {
            None
        },
    decreases text.len(),
{
    if text.len() > 0 && at > 0 {
        assert(text[0] != c);
        assert forall|i: int| 0 <= i < at - 1 implies text.drop_first()[i] != c by {
            assert(text.drop_first()[i] == text[i + 1]);
        }
        lemma_first_index(text.drop_first(), c, at - 1);
    }
}

/// The last occurrence is at the last place that holds the character.
pub proof fn lemma_last_index(text: Seq<char>, c: char, at: int)
    requires
        -1 <= at < text.len(),
        forall|i: int| at < i < text.len() ==> text[i] != c,
        at >= 0 ==> text[at] == c,
    ensures
        last_index(text, c) == if at >= 0 {
            Some(at)
        } else {
            None
        },
    decreases text.len(),
{
    if text.len() > 0 && at < text.len() - 1 {
        assert(text.last() != c);
        lemma_last_index(text.drop_last(), c, at);
    }
}

/// The parts of a text before and after the first occurrence of a character.
pub open spec fn split_first(text: Seq<char>, c: char) -> Option<(Seq<char>, Seq<char>)> {
    match first_index(text, c) {
        Some(at) => Some((text.take(at), text.skip(at + 1))),
        None => None,
    }
}

/// The parts of a text before and after the last occurrence of a character.
pub open spec fn split_last(text: Seq<char>, c: char) -> Option<(Seq<char>, Seq<char>)> {
    match last_index(text, c) {
        Some(at) => Some((text.take(at), text.skip(at + 1))),
        None => None,
    }
}

/// The texts of a pair.
pub open spec fn opt_pair(pair: Option<(String, String)>) -> Option<(Seq<char>, Seq<char>)> {
    match pair {
        Some((left, right)) => Some((left@, right@)),
        None => None,
    }
}

/// Splits a text at the first occurrence of a character.
pub fn split_once(text: &str, c: char) -> (parts: Option<(String, String)>)
    ensures
        opt_pair(parts) == split_first(text@, c),
{
    let chars = to_chars(text);
    let mut at: usize = 0;
    while at < chars.len() && chars[at] != c
        invariant
            chars@ == text@,
            at <= chars.len(),
            forall|i: int| 0 <= i < at ==> text@[i] != c,
        decreases chars.len() - at,
    {
        at += 1;
    }
    proof {
        lemma_first_index(text@, c, at as int);
    }
    if at == chars.len() {
        return None;
    }
    let left = from_chars(&chars, 0, at);
    let right = from_chars(&chars, at + 1, chars.len());
    assert(left@ =~= text@.take(at as int));
    assert(right@ =~= text@.skip(at + 1));
    Some((left, right))
}

/// Splits a text at the last occurrence of a character.
pub fn rsplit_once(text: &str, c: char) -> (parts: Option<(String, String)>)
    ensures
        opt_pair(parts) == split_last(text@, c),
{
    let chars = to_chars(text);
    let mut end: usize = chars.len();
    while end > 0 && chars[end - 1] != c
        invariant
            chars@ == text@,
            end <= chars.len(),
            forall|i: int| end <= i < text@.len() ==> text@[i] != c,
        decreases end,
    {
        end -= 1;
    }
    proof {
        lemma_last_index(text@, c, end - 1);
    }
    if end == 0 {
        return None;
    }
    let left = from_chars(&chars, 0, end - 1);
    let right = from_chars(&chars, end, chars.len());
    assert(left@ =~= text@.take(end - 1));
    assert(right@ =~= text@.skip(end as int));
    Some((left, right))
}

/// The pieces of a text between the occurrences of a character.
pub open spec fn pieces(text: Seq<char>, c: char) -> Seq<Seq<char>>
    decreases text.len(),
{
    if text.len() == 0 {
        seq![Seq::<char>::empty()]
    } else {
        let before = pieces(text.drop_last(), c);
        if text.last() == c {
            before.push(Seq::<char>::empty())
        } else {
            before.update(before.len() - 1, before.last().push(text.last()))
        }
    }
}

/// There is always a last piece.
pub proof fn lemma_pieces_nonempty(text: Seq<char>, c: char)
    ensures
        pieces(text, c).len() > 0,
    decreases text.len(),
{
    if text.len() > 0 {
        lemma_pieces_nonempty(text.drop_last(), c);
    }
}

/// Splits a text at every occurrence of a character.
pub fn split(text: &str, c: char) -> (list: Vec<String>)
    ensures
        texts(list@) == pieces(text@, c),
{
    let chars = to_chars(text);
    let mut list: Vec<String> = Vec::new();
    let mut piece = String::new();
    let mut at: usize = 0;
    assert(texts(list@).push(piece@) =~= pieces(text@.take(0), c));
    while at < chars.len()
        invariant
            chars@ == text@,
            at <= chars.len(),
            texts(list@).push(piece@) == pieces(text@.take(at as int), c),
        decreases chars.len() - at,
    {
        let ghost before = texts(list@).push(piece@);
        assert(text@.take(at + 1).drop_last() =~= text@.take(at as int));
        if chars[at] == c {
            let whole = piece;
            list.push(whole);
            piece = String::new();
            assert(texts(list@) =~= before);
        } else {
            piece.push(chars[at]);
            assert(texts(list@).push(piece@) =~= before.update(
                before.len() - 1,
                before.last().push(text@[at as int]),
            ));
        }
        at += 1;
    }
    assert(text@.take(at as int) =~= text@);
    let ghost before = texts(list@).push(piece@);
    list.push(piece);
    assert(texts(list@) =~= before);
    list
}

/// A text with each occurrence of one character replaced by another.
pub open spec fn replaced(text: Seq<char>, from: char, to: char) -> Seq<char> {
    text.map_values(
        |c: char|
            if c == from {
                to
            } else {
                c
            },
    )
}

/// Replaces each occurrence of a character.
pub fn replace_char(text: &str, from: char, to: char) -> (result: String)
    ensures
        result@ == replaced(text@, from, to),
{
    let chars = to_chars(text);
    let mut result = String::new();
    let mut at: usize = 0;
    while at < chars.len()
        invariant
            chars@ == text@,
            at <= chars.len(),
            result@ == replaced(text@.take(at as int), from, to),
        decreases chars.len() - at,
    {
        if chars[at] == from {
            result.push(to);
        } else {
            result.push(chars[at]);
        }
        at += 1;
        assert(replaced(text@.take(at as int), from, to) =~= replaced(
            text@.take(at - 1),
            from,
            to,
        ).push(if text@[at - 1] == from { to } else { text@[at - 1] }));
    }
    assert(text@.take(at as int) =~= text@);
    result
}

/// The text before a suffix, where it ends in that suffix.
pub open spec fn without_suffix(text: Seq<char>, suffix: Seq<char>) -> Option<Seq<char>> {
    if suffix.len() <= text.len() && text.skip(text.len() - suffix.len()) == suffix {
        Some(text.take(text.len() - suffix.len()))
    } else {
        None
    }
}

/// Takes a suffix off a text.
pub fn strip_suffix(text: &str, suffix: &str) -> (rest: Option<String>)
    ensures
        opt_text(rest) == without_suffix(text@, suffix@),
{
    let chars = to_chars(text);
    let end = to_chars(suffix);
    if end.len() > chars.len() {
        return None;
    }
    let start: usize = chars.len() - end.len();
    let mut same: usize = 0;
    while same < end.len()
        invariant
            chars@ == text@,
            end@ == suffix@,
            start + end.len() == chars.len(),
            same <= end.len(),
            forall|i: int| 0 <= i < same ==> chars@[start + i] == #[trigger] end@[i],
        decreases end.len() - same,
    {
        if chars[start + same] != end[same] {
            assert(text@.skip(start as int)[same as int] != suffix@[same as int]);
            return None;
        }
        same += 1;
    }
    assert(text@.skip(start as int) =~= suffix@);
    let rest = from_chars(&chars, 0, start);
    assert(rest@ =~= text@.take(start as int));
    Some(rest)
}

/// The decimal digit of a number below ten.
pub open spec fn digit(d: nat) -> char {
    (48 + d) as char
}

/// The decimal form of a number.
pub open spec fn decimal(n: nat) -> Seq<char>
    decreases n,
{
    if n < 10 {
        seq![digit(n)]
    } else {
        decimal(n / 10).push(digit(n % 10))
    }
}

/// The decimal form of a number.
pub fn format_decimal(n: u64) -> (text: String)
    ensures
        text@ == decimal(n as nat),
{
    format_wide(n as u128)
}

/// The decimal form of a wide number.
pub fn format_wide(n: u128) -> (text: String)
    ensures
        text@ == decimal(n as nat),
    decreases n,
{
    let low: u8 = (n % 10) as u8;
    let c = (48 + low) as char;
    assert(c == digit((n % 10) as nat));
    if n < 10 {
        let mut text = String::new();
        text.push(c);
        assert(text@ =~= seq![c]);
        text
    } else {
        let mut text = format_wide(n / 10);
        text.push(c);
        text
    }
}

/// The decimal form of a number that may be negative.
pub open spec fn signed_decimal(n: int) -> Seq<char> {
    if n < 0 {
        "-"@ + decimal((-n) as nat)
    } else {
        decimal(n as nat)
    }
}

/// The decimal form of a number that may be negative.
pub fn format_signed(n: i32) -> (text: String)
    ensures
        text@ == signed_decimal(n as int),
{
    if n < 0 {
        "-".to_owned().concat(format_decimal((-(n as i64)) as u64).as_str())
    } else {
        format_decimal(n as u64)
    }
}

/// A decimal form is not empty and holds digits only.
pub proof fn lemma_decimal_digits(n: nat)
    ensures
        decimal(n).len() > 0,
        forall|i: int| 0 <= i < decimal(n).len() ==> '0' <= #[trigger] decimal(n)[i] <= '9',
    decreases n,
{
    if n >= 10 {
        lemma_decimal_digits(n / 10);
    }
}

/// Two numbers with one decimal form are equal.
pub proof fn lemma_decimal_injective(m: nat, n: nat)
    requires
        decimal(m) == decimal(n),
    ensures
        m == n,
    decreases m,
{
    lemma_decimal_digits(m);
    lemma_decimal_digits(n);
    lemma_decimal_digits(m / 10);
    lemma_decimal_digits(n / 10);
    assert(decimal(m).last() == digit(m % 10));
    assert(decimal(n).last() == digit(n % 10));
    assert(m % 10 == n % 10);
    if m >= 10 && n >= 10 {
        assert(decimal(m).drop_last() =~= decimal(m / 10));
        assert(decimal(n).drop_last() =~= decimal(n / 10));
        lemma_decimal_injective(m / 10, n / 10);
    }
}

/// The lowercase hexadecimal digit of a number below sixteen.
pub open spec fn hex_digit(d: nat) -> char {
    if d < 10 {
        (48 + d) as char
    } else {
        (87 + d) as char
    }
}

/// The `count` lowest hexadecimal digits of a number, most significant first.
pub open spec fn hex_digits(n: nat, count: nat) -> Seq<char>
    decreases count,
{
    if count == 0 {
        Seq::empty()
    } else {
        hex_digits(n / 16, (count - 1) as nat).push(hex_digit(n % 16))
    }
}

/// The `count` lowest hexadecimal digits of a number, most significant first.
pub fn format_hex(n: u32, count: usize) -> (text: String)
    ensures
        text@ == hex_digits(n as nat, count as nat),
    decreases count,
{
    if count == 0 {
        String::new()
    } else {
        let mut text = format_hex(n / 16, count - 1);
        let low: u8 = (n % 16) as u8;
        let c = if low < 10 {
            (48 + low) as char
        } else {
            (87 + low) as char
        };
        text.push(c);
        text
    }
}

/// Whether a character is a decimal digit.
pub open spec fn is_digit(c: char) -> bool {
    '0' <= c <= '9'
}

/// The number that decimal digits write.
pub open spec fn digits_value(text: Seq<char>) -> nat
    decreases text.len(),
{
    if text.len() == 0 {
        0
    } else {
        digits_value(text.drop_last()) * 10 + (text.last() as nat - 48) as nat
    }
}

/// The digits of an unsigned number in text: all of it, but for a plus sign in front.
pub open spec fn unsigned_digits(text: Seq<char>) -> Seq<char> {
    if text.len() > 0 && text[0] == '+' {
        text.drop_first()
    } else {
        text
    }
}

/// The 16-bit number that a text writes in decimal, with an optional plus sign.
pub open spec fn parsed_u16(text: Seq<char>) -> Option<u16> {
    let digits = unsigned_digits(text);
    if digits.len() > 0 && (forall|i: int| 0 <= i < digits.len() ==> is_digit(#[trigger] digits[i]))
        && digits_value(digits) <= 65535 {
        Some(digits_value(digits) as u16)
    } else {
        None
    }
}

/// The number that a prefix of digits writes is no larger than that of all of them.
proof fn lemma_digits_prefix(text: Seq<char>, at: int)
    requires
        0 <= at <= text.len(),
    ensures
        digits_value(text.take(at)) <= digits_value(text),
    decreases text.len(),
{
    if at < text.len() {
        lemma_digits_prefix(text.drop_last(), at);
        assert(text.drop_last().take(at) =~= text.take(at));
    } else {
        assert(text.take(at) =~= text);
    }
}

/// Reads a 16-bit number written in decimal.
pub fn parse_u16(text: &str) -> (number: Option<u16>)
    ensures
        number == parsed_u16(text@),
{
    let chars = to_chars(text);
    let start: usize = if chars.len() > 0 && chars[0] == '+' {
        1
    } else {
        0
    };
    let ghost digits = unsigned_digits(text@);
    assert(digits =~= chars@.skip(start as int));
    if start == chars.len() {
        return None;
    }
    let mut value: u32 = 0;
    let mut at: usize = start;
    assert(digits.take(0) =~= Seq::<char>::empty());
    while at < chars.len()
        invariant
            start <= at <= chars.len(),
            digits == unsigned_digits(text@),
            digits == chars@.skip(start as int),
            value <= 65535,
            value == digits_value(digits.take(at - start)),
            forall|i: int| 0 <= i < at - start ==> is_digit(#[trigger] digits[i]),
        decreases chars.len() - at,
    {
        let c = chars[at];
        assert(digits[at - start] == c);
        if c < '0' || c > '9' {
            assert(!is_digit(digits[at - start]));
            return None;
        }
        assert(digits.take(at + 1 - start).drop_last() =~= digits.take(at - start));
        value = value * 10 + (c as u32 - 48);
        at += 1;
        if value > 65535 {
            proof {
                lemma_digits_prefix(digits, at - start);
            }
            return None;
        }
    }
    assert(digits.take(at - start) =~= digits);
    Some(value as u16)
}

/// The order of texts by their characters, as in a dictionary.
pub open spec fn text_le(left: Seq<char>, right: Seq<char>) -> bool
    decreases left.len(),
{
    if left.len() == 0 {
        true
    } else if right.len() == 0 {
        false
    } else if left[0] == right[0] {
        text_le(left.drop_first(), right.drop_first())
    } else {
        left[0] < right[0]
    }
}

/// Compares two texts in the order of their characters.
pub fn text_at_most(left: &str, right: &str) -> (ordered: bool)
    ensures
        ordered == text_le(left@, right@),
{
    let first = to_chars(left);
    let second = to_chars(right);
    let mut at: usize = 0;
    assert(first@.skip(0) =~= left@);
    assert(second@.skip(0) =~= right@);
    while at < first.len() && at < second.len() && first[at] == second[at]
        invariant
            at <= first.len(),
            at <= second.len(),
            text_le(left@, right@) == text_le(first@.skip(at as int), second@.skip(at as int)),
        decreases first.len() - at,
    {
        assert(first@.skip(at as int).drop_first() =~= first@.skip(at + 1));
        assert(second@.skip(at as int).drop_first() =~= second@.skip(at + 1));
        at += 1;
    }
    if at == first.len() {
        true
    } else if at == second.len() {
        false
    } else {
        first[at] < second[at]
    }
}

/// Any two texts are in order one way or the other.
pub proof fn lemma_text_le_total(left: Seq<char>, right: Seq<char>)
    ensures
        text_le(left, right) || text_le(right, left),
    decreases left.len(),
{
    if left.len() > 0 && right.len() > 0 && left[0] == right[0] {
        lemma_text_le_total(left.drop_first(), right.drop_first());
    }
}

/// The order of texts is transitive.
pub proof fn lemma_text_le_transitive(a: Seq<char>, b: Seq<char>, c: Seq<char>)
    requires
        text_le(a, b),
        text_le(b, c),
    ensures
        text_le(a, c),
    decreases a.len(),
{
    if a.len() > 0 && b.len() > 0 && c.len() > 0 && a[0] == b[0] && b[0] == c[0] {
        lemma_text_le_transitive(a.drop_first(), b.drop_first(), c.drop_first());
    }
}

/// Two texts that are in order both ways are equal.
pub proof fn lemma_text_le_antisymmetric(a: Seq<char>, b: Seq<char>)
    requires
        text_le(a, b),
        text_le(b, a),
    ensures
        a == b,
    decreases a.len(),
{
    if a.len() > 0 && b.len() > 0 {
        lemma_text_le_antisymmetric(a.drop_first(), b.drop_first());
        assert(a =~= seq![a[0]] + a.drop_first());
        assert(b =~= seq![b[0]] + b.drop_first());
    } else {
        assert(a =~= b);
    }
}

/// A text occurs in another exactly where the other is that text with
/// something before it and something after it.
pub proof fn occurrence_is_a_stretch(whole: Seq<char>, part: Seq<char>)
    ensures
        occurs(whole, part) <==> exists|before: Seq<char>, after: Seq<char>|
            whole == #[trigger] before.add(part).add(after),
{
    if occurs(whole, part) {
        let at = choose|at: int| #[trigger] occurs_at(whole, part, at);
        let before = whole.take(at);
        let after = whole.skip(at + part.len());
        assert(whole.subrange(at, at + part.len()) == part);
        assert(whole =~= before.add(part).add(after));
    }
    if exists|before: Seq<char>, after: Seq<char>| whole == #[trigger] before.add(part).add(after) {
        let (before, after) = choose|before: Seq<char>, after: Seq<char>|
            whole == #[trigger] before.add(part).add(after);
        assert(whole.subrange(before.len() as int, (before.len() + part.len()) as int) =~= part);
        assert(occurs_at(whole, part, before.len() as int));
    }
}

/// Two texts are the same but for the case of ASCII letters exactly where they
/// have the same length and each character of one is that of the other, or the
/// same ASCII letter in the other case.
pub proof fn folding_ignores_the_case_of_ascii_letters(left: Seq<char>, right: Seq<char>)
    ensures
        ascii_folded(left) == ascii_folded(right) <==> left.len() == right.len() && forall|i: int|
            0 <= i < left.len() ==> {
                ||| #[trigger] left[i] == right[i]
                ||| 'A' <= left[i] <= 'Z' && right[i] as int == left[i] as int + 32
                ||| 'A' <= right[i] <= 'Z' && left[i] as int == right[i] as int + 32
            },
{
    let a = ascii_folded(left);
    let b = ascii_folded(right);
    if a == b {
        assert(a.len() == left.len() && b.len() == right.len());
        assert forall|i: int| 0 <= i < left.len() implies {
            ||| #[trigger] left[i] == right[i]
            ||| 'A' <= left[i] <= 'Z' && right[i] as int == left[i] as int + 32
            ||| 'A' <= right[i] <= 'Z' && left[i] as int == right[i] as int + 32
        } by {
            assert(a[i] == ascii_lower(left[i]));
            assert(b[i] == ascii_lower(right[i]));
        }
    }
    if left.len() == right.len() && forall|i: int|
        0 <= i < left.len() ==> {
            ||| #[trigger] left[i] == right[i]
            ||| 'A' <= left[i] <= 'Z' && right[i] as int == left[i] as int + 32
            ||| 'A' <= right[i] <= 'Z' && left[i] as int == right[i] as int + 32
        } {
        assert forall|i: int| 0 <= i < a.len() implies a[i] == b[i] by {
            assert(left[i] == right[i] || true);
        }
        assert(a =~= b);
    }
}

/// A decimal form, read as a number, is the number that it was made from, and
/// has no leading zero.
pub proof fn decimal_forms_read_back(n: nat)
    ensures
        digits_value(decimal(n)) == n,
        n > 0 ==> decimal(n)[0] != '0',
    decreases n,
{
    if n >= 10 {
        decimal_forms_read_back(n / 10);
        lemma_decimal_digits(n / 10);
        assert(decimal(n).drop_last() =~= decimal(n / 10));
    } else {
        assert(decimal(n).drop_last() =~= Seq::<char>::empty());
        assert(digits_value(Seq::<char>::empty()) == 0);
    }
}

/// The hexadecimal digits of a number, read as a number from the first digit
/// on, are that number where it has no more digits.
pub open spec fn hex_value(digits: Seq<char>) -> nat
    decreases digits.len(),
{
    if digits.len() == 0 {
        0
    } else {
        hex_value(digits.drop_last()) * 16 + (if '0' <= digits.last() <= '9' {
            digits.last() as int - '0' as int
        } else {
            digits.last() as int - 'a' as int + 10
        }) as nat
    }
}

/// Hexadecimal digits, read as a number, are the number that they were made
/// from, and use digits and small letters only.
pub proof fn hexadecimal_digits_read_back(n: nat, count: nat, limit: nat)
    requires
        limit == vstd::arithmetic::power::pow(16, count),
        n < limit,
    ensures
        hex_digits(n, count).len() == count,
        hex_value(hex_digits(n, count)) == n,
        forall|i: int|
            0 <= i < count ==> '0' <= #[trigger] hex_digits(n, count)[i] <= '9' || 'a'
                <= hex_digits(n, count)[i] <= 'f',
    decreases count,
{
    vstd::arithmetic::power::lemma_pow0(16);
    if count > 0 {
        let rest = (count - 1) as nat;
        vstd::arithmetic::power::lemma_pow_positive(16, rest);
        vstd::arithmetic::power::lemma_pow_adds(16, rest, 1);
        vstd::arithmetic::power::lemma_pow1(16);
        let below = vstd::arithmetic::power::pow(16, rest) as nat;
        assert(n / 16 < below) by (nonlinear_arith)
            requires
                n < below * 16,
        ;
        hexadecimal_digits_read_back(n / 16, rest, below);
        assert(hex_digits(n, count).drop_last() =~= hex_digits(n / 16, rest));
    }
}

/// A trimmed text is the text without white space around it: what was taken
/// off is white space, and what is left neither begins nor ends with any.
pub proof fn trimming_takes_off_white_space(text: Seq<char>)
    ensures
        trimmed(text).len() > 0 ==> !whitespace(trimmed(text)[0]) && !whitespace(
            trimmed(text).last(),
        ),
        exists|before: Seq<char>, after: Seq<char>|
            text == #[trigger] before.add(trimmed(text)).add(after) && (forall|i: int|
                0 <= i < before.len() ==> whitespace(#[trigger] before[i])) && (forall|i: int|
                0 <= i < after.len() ==> whitespace(#[trigger] after[i])),
{
    let inner = trimmed_start(text);
    let before = lemma_trimmed_start(text);
    let after = lemma_trimmed_end(inner);
    assert(text =~= before.add(trimmed(text)).add(after));
}

/// What is taken off the start of a text.
proof fn lemma_trimmed_start(text: Seq<char>) -> (before: Seq<char>)
    ensures
        text == before + trimmed_start(text),
        forall|i: int| 0 <= i < before.len() ==> whitespace(#[trigger] before[i]),
        trimmed_start(text).len() > 0 ==> !whitespace(trimmed_start(text)[0]),
    decreases text.len(),
{
    if text.len() > 0 && whitespace(text[0]) {
        let rest = lemma_trimmed_start(text.drop_first());
        let before = seq![text[0]] + rest;
        assert(text =~= seq![text[0]] + text.drop_first());
        assert(text =~= before + trimmed_start(text));
        before
    } else {
        assert(text =~= Seq::<char>::empty() + trimmed_start(text));
        Seq::empty()
    }
}

/// What is taken off the end of a text.
proof fn lemma_trimmed_end(text: Seq<char>) -> (after: Seq<char>)
    ensures
        text == trimmed_end(text) + after,
        forall|i: int| 0 <= i < after.len() ==> whitespace(#[trigger] after[i]),
        trimmed_end(text).len() > 0 ==> !whitespace(trimmed_end(text).last()) && trimmed_end(
            text,
        )[0] == text[0],
    decreases text.len(),
{
    if text.len() > 0 && whitespace(text.last()) {
        let rest = lemma_trimmed_end(text.drop_last());
        let after = rest.push(text.last());
        assert(text =~= text.drop_last().push(text.last()));
        assert(text =~= trimmed_end(text) + after);
        after
    } else {
        assert(text =~= trimmed_end(text) + Seq::<char>::empty());
        Seq::empty()
    }
}

/// The pieces of a text, with the character between them, are the text, and no
/// piece holds the character.
pub open spec fn joined(list: Seq<Seq<char>>, c: char) -> Seq<char>
    decreases list.len(),
{
    if list.len() == 0 {
        Seq::empty()
    } else if list.len() == 1 {
        list[0]
    } else {
        joined(list.drop_last(), c).push(c) + list.last()
    }
}

/// The pieces of a text, put together again with the character between them,
/// are the text, and no piece holds the character.
pub proof fn pieces_join_to_the_text(text: Seq<char>, c: char)
    ensures
        joined(pieces(text, c), c) == text,
        pieces(text, c).len() > 0,
        forall|i: int| 0 <= i < pieces(text, c).len() ==> !(#[trigger] pieces(text, c)[i]).contains(
            c,
        ),
    decreases text.len(),
{
    if text.len() == 0 {
        assert(joined(pieces(text, c), c) =~= text);
    } else {
        let rest = text.drop_last();
        pieces_join_to_the_text(rest, c);
        let before = pieces(rest, c);
        let all = pieces(text, c);
        if text.last() == c {
            assert(all.drop_last() =~= before);
            assert(joined(all, c) =~= rest.push(c));
            assert(text =~= rest.push(c));
        } else {
            let last = before.last().push(text.last());
            assert(all.last() == last);
            assert(all.drop_last() =~= before.drop_last());
            if before.len() == 1 {
                assert(joined(all, c) == last);
                assert(text =~= last);
            } else {
                assert(joined(all, c) =~= joined(before, c).push(text.last()));
                assert(text =~= rest.push(text.last()));
            }
            assert forall|i: int| 0 <= i < all.len() implies !(#[trigger] all[i]).contains(c) by {
                if i < all.len() - 1 {
                    assert(all[i] == before[i]);
                } else {
                    assert(!before[before.len() - 1].contains(c));
                    if last.contains(c) {
                        let at = last.index_of(c);
                        assert(before.last()[at] == c);
                        assert(before.last().contains(c));
                    }
                }
            }
        }
    }
}

/// A text is split at the first, or at the last, place that holds the
/// character: the parts with the character between them are the text, and the
/// first part, or the last, does not hold it. A text that does not hold the
/// character is not split.
pub proof fn splitting_takes_the_outermost_character(text: Seq<char>, c: char)
    ensures
        match split_first(text, c) {
            Some((left, right)) => text == left.push(c) + right && !left.contains(c),
            None => !text.contains(c),
        },
        match split_last(text, c) {
            Some((left, right)) => text == left.push(c) + right && !right.contains(c),
            None => !text.contains(c),
        },
{
    lemma_index_of_first(text, c);
    lemma_index_of_last(text, c);
    if let Some(at) = first_index(text, c) {
        assert(text =~= text.take(at).push(c) + text.skip(at + 1));
        if text.take(at).contains(c) {
            assert(text[text.take(at).index_of(c)] == c);
        }
    }
    if let Some(at) = last_index(text, c) {
        assert(text =~= text.take(at).push(c) + text.skip(at + 1));
        if text.skip(at + 1).contains(c) {
            assert(text[text.skip(at + 1).index_of(c) + at + 1] == c);
        }
    }
}

/// Where a character occurs first.
proof fn lemma_index_of_first(text: Seq<char>, c: char)
    ensures
        match first_index(text, c) {
            Some(at) => 0 <= at < text.len() && text[at] == c && forall|i: int|
                0 <= i < at ==> text[i] != c,
            None => !text.contains(c),
        },
    decreases text.len(),
{
    if text.len() > 0 && text[0] != c {
        let rest = text.drop_first();
        lemma_index_of_first(rest, c);
        match first_index(rest, c) {
            Some(at) => {
                assert forall|i: int| 0 <= i < at + 1 implies text[i] != c by {
                    if i > 0 {
                        assert(rest[i - 1] != c);
                    }
                }
            },
            None => {
                if text.contains(c) {
                    assert(rest[text.index_of(c) - 1] == c);
                }
            },
        }
    }
}

/// Where a character occurs last.
proof fn lemma_index_of_last(text: Seq<char>, c: char)
    ensures
        match last_index(text, c) {
            Some(at) => 0 <= at < text.len() && text[at] == c && forall|i: int|
                at < i < text.len() ==> text[i] != c,
            None => !text.contains(c),
        },
    decreases text.len(),
{
    if text.len() > 0 && text.last() != c {
        let rest = text.drop_last();
        lemma_index_of_last(rest, c);
        match last_index(rest, c) {
            Some(at) => {
                assert forall|i: int| at < i < text.len() implies text[i] != c by {
                    if i < rest.len() {
                        assert(rest[i] != c);
                    }
                }
            },
            None => {
                if text.contains(c) {
                    assert(rest[text.index_of(c)] == c);
                }
            },
        }
    }
}

/// A suffix is taken off exactly where putting it back gives the text.
pub proof fn suffixes_can_be_put_back(text: Seq<char>, suffix: Seq<char>, rest: Seq<char>)
    ensures
        without_suffix(text, suffix) == Some(rest) <==> text == rest + suffix,
{
    if text == rest + suffix {
        assert(text.skip(text.len() - suffix.len()) =~= suffix);
        assert(text.take(text.len() - suffix.len()) =~= rest);
    }
    if without_suffix(text, suffix) == Some(rest) {
        assert(text =~= rest + suffix);
    }
}

/// The order of texts is that of a dictionary: a text comes before its own
/// continuations, and the first character that differs decides.
pub proof fn texts_are_ordered_as_in_a_dictionary(
    start: Seq<char>,
    left: Seq<char>,
    right: Seq<char>,
)
    ensures
        text_le(start, start + right),
        right.len() > 0 ==> !text_le(start + right, start),
        left.len() > 0 && right.len() > 0 && left[0] != right[0] ==> (text_le(
            start + left,
            start + right,
        ) <==> left[0] < right[0]),
    decreases start.len(),
{
    if start.len() > 0 {
        let rest = start.drop_first();
        texts_are_ordered_as_in_a_dictionary(rest, left, right);
        assert((start + right).drop_first() =~= rest + right);
        assert((start + left).drop_first() =~= rest + left);
    } else {
        assert(start + left =~= left);
        assert(start + right =~= right);
    }
}

} // verus!
