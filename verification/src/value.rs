//! Attribute values: the five lexical kinds, and the lexer that reads one value
//! from the start of a text.

use crate::text::{
    chars_of, consume, decimal_in_u64, decimal_text, decimal_value, is_digit,
    law_decimal_text_denotes, lemma_run_end, lemma_run_end_is, lemma_run_end_skip,
    lemma_run_end_subrange, parse_decimal, run_end, text_of, CharClass,
};
use vstd::prelude::*;

verus! {

/// A decimal numeral with a fractional part, such as `23.97`, kept as written so
/// that no digit is lost.
#[derive(Debug)]
pub struct Decimal {
    text: String,
}

/// The shape of a decimal numeral: digits, a point, digits, and nothing else.
pub open spec fn is_decimal_numeral(t: Seq<char>) -> bool {
    float_end(t, 0) == Some(t.len() as int)
}

impl View for Decimal {
    type V = Seq<char>;

    /// The numeral as written.
    closed spec fn view(&self) -> Seq<char> {
        self.text@
    }
}

impl Decimal {
    #[verifier::type_invariant]
    spec fn well_formed(&self) -> bool {
        is_decimal_numeral(self.text@)
    }

    /// Accepts `text` if it is a decimal numeral.
    pub fn new(text: &str) -> (r: Option<Decimal>)
        ensures
            match r {
                Some(d) => is_decimal_numeral(text@) && d@ == text@,
                None => !is_decimal_numeral(text@),
            },
    {
        let chars = chars_of(text);
        match float_at(chars.as_slice(), 0) {
            Some(end) => {
                if end == chars.len() {
                    assert(text@.subrange(0, end as int) =~= text@);
                    Some(Decimal { text: text_of(chars.as_slice(), 0, end) })
                } else {
                    None
                }
            },
            None => None,
        }
    }

    /// The numeral as written: always digits, a point, digits.
    pub fn as_str(&self) -> (text: &str)
        ensures
            text@ == self@,
            is_decimal_numeral(text@),
    {
        proof {
            use_type_invariant(self);
        }
        self.text.as_str()
    }
}

impl Clone for Decimal {
    fn clone(&self) -> (r: Self)
        ensures
            r == *self,
    {
        proof {
            use_type_invariant(self);
        }
        Decimal { text: self.text.clone() }
    }
}

/// One attribute value, tagged with its lexical kind.
#[derive(Debug)]
pub enum AttributeValue {
    /// An unsigned integer that fits in 64 bits.
    Integer(u64),
    /// A decimal numeral with a fractional part.
    Float(Decimal),
    /// The content of a double-quoted string, without the quotes.
    QuotedString(String),
    /// A bare word of letters and hyphens.
    EnumeratedString(String),
    /// A width and a height, written `WxH`.
    DecimalResolution(u64, u64),
}

/// The mathematical value of an [`AttributeValue`]: texts are sequences of
/// characters.
pub enum AttributeValueView {
    Integer(u64),
    Float(Seq<char>),
    QuotedString(Seq<char>),
    EnumeratedString(Seq<char>),
    DecimalResolution(u64, u64),
}

impl View for AttributeValue {
    type V = AttributeValueView;

    open spec fn view(&self) -> AttributeValueView {
        match self {
            AttributeValue::Integer(v) => AttributeValueView::Integer(*v),
            AttributeValue::Float(d) => AttributeValueView::Float(d@),
            AttributeValue::QuotedString(s) => AttributeValueView::QuotedString(s@),
            AttributeValue::EnumeratedString(s) => AttributeValueView::EnumeratedString(s@),
            AttributeValue::DecimalResolution(w, h) => AttributeValueView::DecimalResolution(
                *w,
                *h,
            ),
        }
    }
}

impl Clone for AttributeValue {
    fn clone(&self) -> (r: Self)
        ensures
            r == *self,
    {
        match self {
            AttributeValue::Integer(v) => AttributeValue::Integer(*v),
            AttributeValue::Float(d) => AttributeValue::Float(d.clone()),
            AttributeValue::QuotedString(s) => AttributeValue::QuotedString(s.clone()),
            AttributeValue::EnumeratedString(s) => AttributeValue::EnumeratedString(s.clone()),
            AttributeValue::DecimalResolution(w, h) => AttributeValue::DecimalResolution(*w, *h),
        }
    }
}

/// Where a decimal numeral with a fractional part that starts at `from` ends:
/// digits, a point, digits, each run as long as it can be.
pub open spec fn float_end(s: Seq<char>, from: int) -> Option<int> {
    let point = run_end(s, CharClass::Digit, from);
    let end = run_end(s, CharClass::Digit, point + 1);
    if 0 <= from < point < s.len() && s[point] == '.' && point + 1 < end {
        Some(end)
    } else {
        None
    }
}

/// Where a quoted string that starts at `from` ends: a `"`, at least one
/// character other than `"`, and the closing `"`.
pub open spec fn quoted_end(s: Seq<char>, from: int) -> Option<int> {
    let close = run_end(s, CharClass::Quoted, from + 1);
    if 0 <= from < s.len() && s[from] == '"' && from + 1 < close < s.len() {
        Some(close + 1)
    } else {
        None
    }
}

/// Where a word of letters and hyphens that starts at `from` ends.
pub open spec fn enumerated_end(s: Seq<char>, from: int) -> Option<int> {
    let end = run_end(s, CharClass::Name, from);
    if 0 <= from < end {
        Some(end)
    } else {
        None
    }
}

/// Where a resolution that starts at `from` ends: digits, an `x`, digits.
pub open spec fn resolution_end(s: Seq<char>, from: int) -> Option<int> {
    let cross = run_end(s, CharClass::Digit, from);
    let end = run_end(s, CharClass::Digit, cross + 1);
    if 0 <= from < cross < s.len() && s[cross] == 'x' && cross + 1 < end {
        Some(end)
    } else {
        None
    }
}

/// Where a run of digits that starts at `from` ends.
pub open spec fn integer_end(s: Seq<char>, from: int) -> Option<int> {
    let end = run_end(s, CharClass::Digit, from);
    if 0 <= from < end {
        Some(end)
    } else {
        None
    }
}

/// The value that starts at position `from` of `s`, and the position just after
/// it. The five rules are tried in a fixed order and the first that applies
/// decides, so that `12.5` is a decimal and not the integer `12`, and
/// `960x540` a resolution and not the integer `960`. A number that does not fit
/// in 64 bits is no value.
pub open spec fn lex_at(s: Seq<char>, from: int) -> Option<(AttributeValueView, int)> {
    if let Some(end) = float_end(s, from) {
        Some((AttributeValueView::Float(s.subrange(from, end)), end))
    } else if let Some(end) = quoted_end(s, from) {
        Some((AttributeValueView::QuotedString(s.subrange(from + 1, end - 1)), end))
    } else if let Some(end) = enumerated_end(s, from) {
        Some((AttributeValueView::EnumeratedString(s.subrange(from, end)), end))
    } else if let Some(end) = resolution_end(s, from) {
        let cross = run_end(s, CharClass::Digit, from);
        match (
            decimal_in_u64(s.subrange(from, cross)),
            decimal_in_u64(s.subrange(cross + 1, end)),
        ) {
            (Some(w), Some(h)) => Some((AttributeValueView::DecimalResolution(w, h), end)),
            _ => None,
        }
    } else if let Some(end) = integer_end(s, from) {
        match decimal_in_u64(s.subrange(from, end)) {
            Some(v) => Some((AttributeValueView::Integer(v), end)),
            None => None,
        }
    } else {
        None
    }
}

/// A value takes up at least one character and ends inside the text.
pub proof fn lemma_lex_at_bounds(s: Seq<char>, from: int)
    requires
        0 <= from <= s.len(),
    ensures
        lex_at(s, from) matches Some((_, end)) ==> from < end <= s.len(),
{
    let digits = run_end(s, CharClass::Digit, from);
    lemma_run_end(s, CharClass::Digit, from);
    lemma_run_end(s, CharClass::Name, from);
    if digits < s.len() {
        lemma_run_end(s, CharClass::Digit, digits + 1);
    }
    if from < s.len() {
        lemma_run_end(s, CharClass::Quoted, from + 1);
    }
}

/// A value ends on a digit, a letter, a hyphen or a `"`, and so on no comma.
pub proof fn lemma_lex_at_ends_on_no_comma(s: Seq<char>, from: int)
    requires
        0 <= from <= s.len(),
    ensures
        lex_at(s, from) matches Some((_, end)) ==> s[end - 1] != ',',
{
    let digits = run_end(s, CharClass::Digit, from);
    lemma_run_end(s, CharClass::Digit, from);
    lemma_run_end(s, CharClass::Name, from);
    let word = run_end(s, CharClass::Name, from);
    if from < word {
        assert(s.subrange(from, word)[word - 1 - from] == s[word - 1]);
    }
    if from < digits {
        assert(s.subrange(from, digits)[digits - 1 - from] == s[digits - 1]);
    }
    if digits < s.len() {
        lemma_run_end(s, CharClass::Digit, digits + 1);
        let end = run_end(s, CharClass::Digit, digits + 1);
        if digits + 1 < end {
            assert(s.subrange(digits + 1, end)[end - 1 - (digits + 1)] == s[end - 1]);
        }
    }
    if from < s.len() {
        lemma_run_end(s, CharClass::Quoted, from + 1);
    }
}

/// What is read at a position depends on the text from that position on
/// only: with the first `k` characters taken away, the same value is read,
/// `k` positions earlier.
pub proof fn lemma_lex_at_skip(s: Seq<char>, k: int, from: int)
    requires
        0 <= k <= from <= s.len(),
    ensures
        lex_at(s.skip(k), from - k) == match lex_at(s, from) {
            Some((value, end)) => Some((value, end - k)),
            None => None,
        },
{
    let t = s.skip(k);
    let digits = run_end(s, CharClass::Digit, from);
    lemma_run_end(s, CharClass::Digit, from);
    lemma_run_end_skip(s, CharClass::Digit, k, from);
    lemma_run_end_skip(s, CharClass::Name, k, from);
    lemma_run_end(s, CharClass::Name, from);
    if digits < s.len() {
        lemma_run_end(s, CharClass::Digit, digits + 1);
        lemma_run_end_skip(s, CharClass::Digit, k, digits + 1);
        let end = run_end(s, CharClass::Digit, digits + 1);
        assert(t.subrange(digits + 1 - k, end - k) =~= s.subrange(digits + 1, end));
        assert(t.subrange(from - k, end - k) =~= s.subrange(from, end));
    }
    if from < s.len() {
        lemma_run_end(s, CharClass::Quoted, from + 1);
        lemma_run_end_skip(s, CharClass::Quoted, k, from + 1);
        let close = run_end(s, CharClass::Quoted, from + 1);
        assert(t.subrange(from + 1 - k, close - k) =~= s.subrange(from + 1, close));
    }
    let word = run_end(s, CharClass::Name, from);
    assert(t.subrange(from - k, word - k) =~= s.subrange(from, word));
    assert(t.subrange(from - k, digits - k) =~= s.subrange(from, digits));
}

/// The value at the start of `s` and the text that follows it.
pub open spec fn lex(s: Seq<char>) -> Option<(Seq<char>, AttributeValueView)> {
    match lex_at(s, 0) {
        Some((value, end)) => Some((s.skip(end), value)),
        None => None,
    }
}

/// The text of a decimal numeral found inside `s` is a decimal numeral.
pub proof fn lemma_float_token(s: Seq<char>, from: int)
    requires
        float_end(s, from) is Some,
    ensures
        is_decimal_numeral(s.subrange(from, float_end(s, from).unwrap())),
{
    let point = run_end(s, CharClass::Digit, from);
    let end = run_end(s, CharClass::Digit, point + 1);
    lemma_run_end(s, CharClass::Digit, point + 1);
    lemma_run_end_subrange(s, CharClass::Digit, from, end, from);
    lemma_run_end_subrange(s, CharClass::Digit, from, end, point + 1);
}

/// What is read at the position `from` of `s` is what is read at the start of
/// the text from `from` on.
pub proof fn lemma_lex_skip(s: Seq<char>, from: int)
    requires
        0 <= from <= s.len(),
    ensures
        lex(s.skip(from)) == match lex_at(s, from) {
            Some((value, end)) => Some((s.skip(end), value)),
            None => None,
        },
{
    lemma_lex_at_skip(s, from, from);
    lemma_lex_at_bounds(s, from);
    if let Some((_, end)) = lex_at(s, from) {
        assert(s.skip(from).skip(end - from) =~= s.skip(end));
    }
}

/// Finds the end of the decimal numeral with a fractional part at `from`, if
/// one starts there.
fn float_at(chars: &[char], from: usize) -> (r: Option<usize>)
    requires
        from <= chars@.len(),
    ensures
        match r {
            Some(end) => float_end(chars@, from as int) == Some(end as int) && from < end
                <= chars@.len(),
            None => float_end(chars@, from as int) is None,
        },
{
    let point = consume(chars, CharClass::Digit, from);
    if from < point && point < chars.len() && chars[point] == '.' {
        let end = consume(chars, CharClass::Digit, point + 1);
        if point + 1 < end {
            return Some(end);
        }
    }
    None
}

/// Finds the end of the resolution at `from`, if one starts there, and the
/// position of its `x`.
fn resolution_at(chars: &[char], from: usize) -> (r: Option<(usize, usize)>)
    requires
        from <= chars@.len(),
    ensures
        match r {
            Some((cross, end)) => {
                &&& resolution_end(chars@, from as int) == Some(end as int)
                &&& cross == run_end(chars@, CharClass::Digit, from as int)
                &&& from < cross < end <= chars@.len()
            },
            None => resolution_end(chars@, from as int) is None,
        },
{
    let cross = consume(chars, CharClass::Digit, from);
    if from < cross && cross < chars.len() && chars[cross] == 'x' {
        let end = consume(chars, CharClass::Digit, cross + 1);
        if cross + 1 < end {
            return Some((cross, end));
        }
    }
    None
}

/// Reads the two numbers of the resolution `chars[from..end]` with its `x` at
/// `cross`.
fn resolution_value(chars: &[char], from: usize, cross: usize, end: usize) -> (r: Option<
    AttributeValue,
>)
    requires
        from < cross < end <= chars@.len(),
        resolution_end(chars@, from as int) == Some(end as int),
        cross == run_end(chars@, CharClass::Digit, from as int),
    ensures
        match r {
            Some(v) => v@ is DecimalResolution && lex_at(chars@, from as int) == Some(
                (v@, end as int),
            ),
            None => lex_at(chars@, from as int) is None,
        },
{
    proof {
        lemma_run_end(chars@, CharClass::Digit, from as int);
        lemma_run_end(chars@, CharClass::Digit, cross + 1);
        lemma_run_end(chars@, CharClass::Name, from as int);
        assert(chars@.subrange(from as int, cross as int)[0] == chars@[from as int]);
    }
    let width = parse_decimal(chars, from, cross);
    let height = parse_decimal(chars, cross + 1, end);
    match (width, height) {
        (Some(w), Some(h)) => Some(AttributeValue::DecimalResolution(w, h)),
        _ => None,
    }
}

/// Reads the value that starts at `chars[from]`.
pub fn lex_value(chars: &[char], from: usize) -> (r: Option<(AttributeValue, usize)>)
    requires
        from <= chars@.len(),
    ensures
        match r {
            Some((v, end)) => lex_at(chars@, from as int) == Some((v@, end as int)) && from < end
                <= chars@.len(),
            None => lex_at(chars@, from as int) is None,
        },
{
    if let Some(end) = float_at(chars, from) {
        let text = text_of(chars, from, end);
        proof {
            lemma_float_token(chars@, from as int);
        }
        return Some((AttributeValue::Float(Decimal { text }), end));
    }
    if from < chars.len() && chars[from] == '"' {
        let close = consume(chars, CharClass::Quoted, from + 1);
        if from + 1 < close && close < chars.len() {
            let text = text_of(chars, from + 1, close);
            return Some((AttributeValue::QuotedString(text), close + 1));
        }
    }
    let word_end = consume(chars, CharClass::Name, from);
    if from < word_end {
        let text = text_of(chars, from, word_end);
        return Some((AttributeValue::EnumeratedString(text), word_end));
    }
    if let Some((cross, end)) = resolution_at(chars, from) {
        return match resolution_value(chars, from, cross, end) {
            Some(v) => Some((v, end)),
            None => None,
        };
    }
    let end = consume(chars, CharClass::Digit, from);
    if from < end {
        proof {
            lemma_run_end(chars@, CharClass::Digit, from as int);
        }
        return match parse_decimal(chars, from, end) {
            Some(v) => Some((AttributeValue::Integer(v), end)),
            None => None,
        };
    }
    None
}

/// Reads one attribute value from the start of `value`, and returns the text
/// that follows it together with the value. `None` means that no value starts
/// there.
pub fn parse_attribute_value(value: &str) -> (r: Option<(&str, AttributeValue)>)
    ensures
        match r {
            Some((tail, v)) => lex(value@) == Some((tail@, v@)),
            None => lex(value@) is None,
        },
{
    let chars = chars_of(value);
    match lex_value(chars.as_slice(), 0) {
        Some((v, end)) => {
            let tail = value.substring_char(end, chars.len());
            Some((tail, v))
        },
        None => None,
    }
}

/// The resolution that `s` spells, if `s` is a resolution from its first
/// character to its last.
pub open spec fn resolution_of(s: Seq<char>) -> Option<(u64, u64)> {
    match lex_at(s, 0) {
        Some((AttributeValueView::DecimalResolution(w, h), end)) => if end == s.len() {
            Some((w, h))
        } else {
            None
        },
        _ => None,
    }
}

/// Reads a text that is a resolution `WxH` and nothing else.
pub fn parse_resolution(res: &str) -> (r: Option<AttributeValue>)
    ensures
        match r {
            Some(v) => resolution_of(res@) matches Some((w, h)) && v@
                == AttributeValueView::DecimalResolution(w, h),
            None => resolution_of(res@) is None,
        },
{
    let chars = chars_of(res);
    match lex_value(chars.as_slice(), 0) {
        Some((AttributeValue::DecimalResolution(w, h), end)) => {
            if end == chars.len() {
                Some(AttributeValue::DecimalResolution(w, h))
            } else {
                None
            }
        },
        _ => None,
    }
}

/// A text that consists of digits, a point and digits, followed by anything
/// that does not go on with a digit, is read as that decimal numeral, and what
/// follows is left over.
pub proof fn law_lex_float(whole: Seq<char>, fraction: Seq<char>, rest: Seq<char>)
    requires
        whole.len() > 0,
        fraction.len() > 0,
        CharClass::Digit.has_all(whole),
        CharClass::Digit.has_all(fraction),
        rest.len() > 0 ==> !is_digit(rest[0]),
    ensures
        lex(whole + seq!['.'] + fraction + rest) == Some(
            (rest, AttributeValueView::Float(whole + seq!['.'] + fraction)),
        ),
{
    let s = whole + seq!['.'] + fraction + rest;
    let point = whole.len() as int;
    let end = point + 1 + fraction.len();
    assert(s.subrange(0, point) =~= whole);
    assert(s.subrange(point + 1, end) =~= fraction);
    lemma_run_end_is(s, CharClass::Digit, 0, point);
    lemma_run_end_is(s, CharClass::Digit, point + 1, end);
    assert(s.subrange(0, end) =~= whole + seq!['.'] + fraction);
    assert(s.skip(end) =~= rest);
}

/// A text that consists of a `"`, one or more characters other than `"`, and a
/// `"` is read as a quoted string with that content, whatever follows.
pub proof fn law_lex_quoted(content: Seq<char>, rest: Seq<char>)
    requires
        content.len() > 0,
        CharClass::Quoted.has_all(content),
    ensures
        lex(seq!['"'] + content + seq!['"'] + rest) == Some(
            (rest, AttributeValueView::QuotedString(content)),
        ),
{
    let s = seq!['"'] + content + seq!['"'] + rest;
    let close = 1 + content.len() as int;
    assert(s.subrange(1, close) =~= content);
    lemma_run_end_is(s, CharClass::Quoted, 1, close);
    assert(s.skip(close + 1) =~= rest);
}

/// A word of letters and hyphens, followed by anything that does not go on
/// with a letter or a hyphen, is read as that enumerated string.
pub proof fn law_lex_enumerated(word: Seq<char>, rest: Seq<char>)
    requires
        word.len() > 0,
        CharClass::Name.has_all(word),
        rest.len() > 0 ==> !CharClass::Name.has(rest[0]),
    ensures
        lex(word + rest) == Some((rest, AttributeValueView::EnumeratedString(word))),
{
    let s = word + rest;
    let end = word.len() as int;
    assert(s.subrange(0, end) =~= word);
    lemma_run_end_is(s, CharClass::Name, 0, end);
    assert(s[0] == word[0]);
    assert(s.skip(end) =~= rest);
}

/// Two numerals that fit in 64 bits, joined by an `x` and followed by anything
/// that does not go on with a digit, are read as a resolution.
pub proof fn law_lex_resolution(width: Seq<char>, height: Seq<char>, rest: Seq<char>)
    requires
        width.len() > 0,
        height.len() > 0,
        CharClass::Digit.has_all(width),
        CharClass::Digit.has_all(height),
        decimal_value(width) <= u64::MAX,
        decimal_value(height) <= u64::MAX,
        rest.len() > 0 ==> !is_digit(rest[0]),
    ensures
        lex(width + seq!['x'] + height + rest) == Some(
            (
                rest,
                AttributeValueView::DecimalResolution(
                    decimal_value(width) as u64,
                    decimal_value(height) as u64,
                ),
            ),
        ),
{
    let s = width + seq!['x'] + height + rest;
    let cross = width.len() as int;
    let end = cross + 1 + height.len();
    assert(s.subrange(0, cross) =~= width);
    assert(s.subrange(cross + 1, end) =~= height);
    lemma_run_end_is(s, CharClass::Digit, 0, cross);
    lemma_run_end_is(s, CharClass::Digit, cross + 1, end);
    assert(s[0] == width[0]);
    assert(s.skip(end) =~= rest);
}

/// A numeral that fits in 64 bits is read as that integer, provided that what
/// follows neither goes on with a digit nor turns the numeral into a decimal
/// (a point and a digit) or a resolution (an `x` and a digit).
pub proof fn law_lex_integer(digits: Seq<char>, rest: Seq<char>)
    requires
        digits.len() > 0,
        CharClass::Digit.has_all(digits),
        decimal_value(digits) <= u64::MAX,
        rest.len() > 0 ==> !is_digit(rest[0]),
        rest.len() > 1 && (rest[0] == '.' || rest[0] == 'x') ==> !is_digit(rest[1]),
    ensures
        lex(digits + rest) == Some(
            (rest, AttributeValueView::Integer(decimal_value(digits) as u64)),
        ),
{
    let s = digits + rest;
    let end = digits.len() as int;
    assert(s.subrange(0, end) =~= digits);
    lemma_run_end_is(s, CharClass::Digit, 0, end);
    assert(s[0] == digits[0]);
    assert(s.skip(end) =~= rest);
    if rest.len() > 1 {
        assert(s[end + 1] == rest[1]);
    }
}

/// The numeral of a number is read back as that number.
pub proof fn law_lex_reads_numeral_back(n: u64, rest: Seq<char>)
    requires
        rest.len() > 0 ==> !is_digit(rest[0]),
        rest.len() > 1 && (rest[0] == '.' || rest[0] == 'x') ==> !is_digit(rest[1]),
    ensures
        lex(decimal_text(n as nat) + rest) == Some((rest, AttributeValueView::Integer(n))),
{
    law_decimal_text_denotes(n as nat);
    law_lex_integer(decimal_text(n as nat), rest);
}

/// A numeral that does not fit in 64 bits is not read as an integer, nor is a
/// shorter part of it.
pub proof fn law_lex_integer_too_large(digits: Seq<char>, rest: Seq<char>)
    requires
        digits.len() > 0,
        CharClass::Digit.has_all(digits),
        decimal_value(digits) > u64::MAX,
        rest.len() > 0 ==> !is_digit(rest[0]),
        rest.len() > 1 && (rest[0] == '.' || rest[0] == 'x') ==> !is_digit(rest[1]),
    ensures
        lex(digits + rest) is None,
{
    let s = digits + rest;
    let end = digits.len() as int;
    assert(s.subrange(0, end) =~= digits);
    lemma_run_end_is(s, CharClass::Digit, 0, end);
    assert(s[0] == digits[0]);
    if rest.len() > 1 {
        assert(s[end + 1] == rest[1]);
    }
}

/// Nothing is read from a text that is empty or begins with a character
/// that is neither a digit, a letter, a hyphen nor a `"`.
pub proof fn law_lex_nothing(s: Seq<char>)
    requires
        s.len() > 0 ==> !is_digit(s[0]) && !CharClass::Name.has(s[0]) && s[0] != '"',
    ensures
        lex(s) is None,
{
}

} // verus!
