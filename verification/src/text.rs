//! Character classes, runs of characters and decimal numerals over `Seq<char>`,
//! and the conversions between strings and character slices that the parsers use.

use vstd::prelude::*;

verus! {

/// `String::push` of the standard library: the string afterwards is the string
/// before with `c` appended as its last character.
pub assume_specification[ String::push ](s: &mut String, c: char)
    ensures
        final(s)@ == old(s)@.push(c),
;

/// `==` on `str` of the standard library: two string slices are equal exactly
/// when they hold the same characters in the same order.
pub assume_specification[ <str as PartialEq>::eq ](a: &str, b: &str) -> (r: bool)
    ensures
        r == (a@ == b@),
;

/// The sets of characters out of which the tokens of a playlist are built.
#[derive(Clone, Copy, Debug)]
pub enum CharClass {
    /// `0` to `9`.
    Digit,
    /// ASCII letters and `-`: attribute names, tag names and enumerated values.
    Name,
    /// ASCII letters, digits, `/`, `.` and `:`: the characters of a URI line.
    Uri,
    /// Everything but `"`: the content of a quoted string.
    Quoted,
    /// Everything but the line feed: the content of a line.
    Line,
}

/// Whether `c` is one of the digits `0` to `9`.
pub open spec fn is_digit(c: char) -> bool {
    '0' <= c <= '9'
}

/// Whether `c` is one of the letters `a` to `z` and `A` to `Z`.
pub open spec fn is_alpha(c: char) -> bool {
    ('a' <= c <= 'z') || ('A' <= c <= 'Z')
}

impl CharClass {
    /// Membership of `c` in the class.
    pub open spec fn has(self, c: char) -> bool {
        match self {
            CharClass::Digit => is_digit(c),
            CharClass::Name => is_alpha(c) || c == '-',
            CharClass::Uri => is_alpha(c) || is_digit(c) || c == '/' || c == '.' || c == ':',
            CharClass::Quoted => c != '"',
            CharClass::Line => c != '\n',
        }
    }

    /// Every character of `s` belongs to the class.
    pub open spec fn has_all(self, s: Seq<char>) -> bool {
        forall|k: int| 0 <= k < s.len() ==> self.has(#[trigger] s[k])
    }

    /// Decides whether `c` belongs to the class.
    pub fn contains(self, c: char) -> (r: bool)
        ensures
            r == self.has(c),
    {
        let digit = '0' <= c && c <= '9';
        let alpha = ('a' <= c && c <= 'z') || ('A' <= c && c <= 'Z');
        match self {
            CharClass::Digit => digit,
            CharClass::Name => alpha || c == '-',
            CharClass::Uri => alpha || digit || c == '/' || c == '.' || c == ':',
            CharClass::Quoted => c != '"',
            CharClass::Line => c != '\n',
        }
    }
}

/// The end of the longest run of characters of `class` that starts at `from`:
/// the first position at or after `from` that holds a character outside the
/// class, or the length of `s` if there is none.
pub open spec fn run_end(s: Seq<char>, class: CharClass, from: int) -> int
    decreases s.len() - from,
{
    if 0 <= from < s.len() && class.has(s[from]) {
        run_end(s, class, from + 1)
    } else {
        from
    }
}

/// What `run_end` returns delimits a run: all of it is in the class, and it
/// cannot be extended.
pub proof fn lemma_run_end(s: Seq<char>, class: CharClass, from: int)
    requires
        0 <= from <= s.len(),
    ensures
        from <= run_end(s, class, from) <= s.len(),
        class.has_all(s.subrange(from, run_end(s, class, from))),
        run_end(s, class, from) < s.len() ==> !class.has(s[run_end(s, class, from)]),
    decreases s.len() - from,
{
    if from < s.len() && class.has(s[from]) {
        lemma_run_end(s, class, from + 1);
        let e = run_end(s, class, from);
        assert forall|k: int| 0 <= k < e - from implies class.has(
            #[trigger] s.subrange(from, e)[k],
        ) by {
            if k > 0 {
                assert(s.subrange(from + 1, e)[k - 1] == s[from + k]);
            }
        }
    }
}

/// A run is determined by its two properties: any `end` up to which all
/// characters are in the class, and at which the class stops, is `run_end`.
pub proof fn lemma_run_end_is(s: Seq<char>, class: CharClass, from: int, end: int)
    requires
        0 <= from <= end <= s.len(),
        class.has_all(s.subrange(from, end)),
        end < s.len() ==> !class.has(s[end]),
    ensures
        run_end(s, class, from) == end,
    decreases end - from,
{
    if from < end {
        assert(s.subrange(from, end)[0] == s[from]);
        assert forall|k: int| 0 <= k < end - from - 1 implies class.has(
            #[trigger] s.subrange(from + 1, end)[k],
        ) by {
            assert(s.subrange(from, end)[k + 1] == s[from + 1 + k]);
        }
        lemma_run_end_is(s, class, from + 1, end);
    }
}

/// A run inside the part `s[lo..hi]` is the run in `s`, cut off at `hi`.
pub proof fn lemma_run_end_subrange(s: Seq<char>, class: CharClass, lo: int, hi: int, from: int)
    requires
        0 <= lo <= from <= hi <= s.len(),
    ensures
        run_end(s.subrange(lo, hi), class, from - lo) == if run_end(s, class, from) < hi {
            run_end(s, class, from) - lo
        } else {
            hi - lo
        },
    decreases hi - from,
{
    lemma_run_end(s, class, from);
    if from < hi {
        assert(s.subrange(lo, hi)[from - lo] == s[from]);
        if class.has(s[from]) {
            lemma_run_end_subrange(s, class, lo, hi, from + 1);
        }
    }
}

/// A run in what is left of `s` after its first `k` characters is the run in
/// `s`, counted from there.
pub proof fn lemma_run_end_skip(s: Seq<char>, class: CharClass, k: int, from: int)
    requires
        0 <= k <= from <= s.len(),
    ensures
        run_end(s.skip(k), class, from - k) == run_end(s, class, from) - k,
{
    lemma_run_end(s, class, from);
    lemma_run_end_subrange(s, class, k, s.len() as int, from);
}

/// The lines of `s[from..]`: a line runs up to the next line feed, and what
/// follows the last line feed is the last line, be it empty.
pub open spec fn lines_from(s: Seq<char>, from: int) -> Seq<Seq<char>>
    decreases s.len() - from,
{
    let end = run_end(s, CharClass::Line, from);
    if 0 <= from <= end < s.len() {
        seq![s.subrange(from, end)] + lines_from(s, end + 1)
    } else {
        seq![s.subrange(from, s.len() as int)]
    }
}

/// The lines of a text. A text has one line more than it has line feeds.
pub open spec fn lines(s: Seq<char>) -> Seq<Seq<char>> {
    lines_from(s, 0)
}

/// The text that has the given lines: the lines one after the other, with a
/// line feed between each two.
pub open spec fn joined(lines: Seq<Seq<char>>) -> Seq<char>
    decreases lines.len(),
{
    if lines.len() == 0 {
        Seq::empty()
    } else if lines.len() == 1 {
        lines[0]
    } else {
        lines[0] + seq!['\n'] + joined(lines.drop_first())
    }
}

proof fn lemma_lines_from(s: Seq<char>, from: int)
    requires
        0 <= from <= s.len(),
    ensures
        lines_from(s, from).len() > 0,
        joined(lines_from(s, from)) == s.skip(from),
        forall|i: int|
            0 <= i < lines_from(s, from).len() ==> CharClass::Line.has_all(
                #[trigger] lines_from(s, from)[i],
            ),
    decreases s.len() - from,
{
    let end = run_end(s, CharClass::Line, from);
    lemma_run_end(s, CharClass::Line, from);
    if end < s.len() {
        lemma_lines_from(s, end + 1);
        let first = seq![s.subrange(from, end)];
        let rest = lines_from(s, end + 1);
        assert((first + rest).drop_first() =~= rest);
        assert(s.subrange(from, end) + seq!['\n'] + s.skip(end + 1) =~= s.skip(from));
        assert forall|i: int| 0 <= i < (first + rest).len() implies CharClass::Line.has_all(
            #[trigger] (first + rest)[i],
        ) by {
            if i > 0 {
                assert((first + rest)[i] == rest[i - 1]);
            }
        }
    } else {
        assert(s.subrange(from, s.len() as int) =~= s.skip(from));
    }
}

/// The lines of a text are what stands between its line feeds: no line holds
/// a line feed, and the lines joined by line feeds are the text.
pub proof fn law_lines_split_at_line_feeds(s: Seq<char>)
    ensures
        lines(s).len() > 0,
        joined(lines(s)) == s,
        forall|i: int| 0 <= i < lines(s).len() ==> CharClass::Line.has_all(#[trigger] lines(s)[i]),
{
    lemma_lines_from(s, 0);
    assert(s.skip(0) =~= s);
}

/// Consumes the longest run of characters of `class` at `from`, and returns
/// where it ends.
pub fn consume(chars: &[char], class: CharClass, from: usize) -> (end: usize)
    requires
        from <= chars@.len(),
    ensures
        end == run_end(chars@, class, from as int),
        from <= end <= chars@.len(),
{
    let mut i: usize = from;
    while i < chars.len() && class.contains(chars[i])
        invariant
            from <= i <= chars@.len(),
            run_end(chars@, class, from as int) == run_end(chars@, class, i as int),
        decreases chars@.len() - i,
    {
        i += 1;
    }
    i
}

/// The number that a decimal numeral denotes; `0` for the empty numeral.
pub open spec fn decimal_value(digits: Seq<char>) -> nat
    decreases digits.len(),
{
    if digits.len() == 0 {
        0
    } else {
        decimal_value(digits.drop_last()) * 10 + digit_value(digits.last())
    }
}

/// The number that one decimal digit denotes.
pub open spec fn digit_value(c: char) -> nat {
    (c as nat - '0' as nat) as nat
}

/// A numeral denotes at least what any of its prefixes denotes.
pub proof fn lemma_decimal_value_grows(digits: Seq<char>, n: int)
    requires
        0 <= n <= digits.len(),
    ensures
        decimal_value(digits.take(n)) <= decimal_value(digits),
    decreases digits.len() - n,
{
    if n < digits.len() {
        lemma_decimal_value_grows(digits, n + 1);
        assert(digits.take(n + 1).drop_last() =~= digits.take(n));
    } else {
        assert(digits.take(n) =~= digits);
    }
}

fn digit_of(c: char) -> (d: u64)
    requires
        is_digit(c),
    ensures
        d == digit_value(c),
        d <= 9,
{
    (c as u64) - ('0' as u64)
}

/// Reads the numeral `chars[from..to]`, or reports that it does not fit in 64 bits.
pub(crate) fn parse_decimal(chars: &[char], from: usize, to: usize) -> (r: Option<u64>)
    requires
        from <= to <= chars@.len(),
        CharClass::Digit.has_all(chars@.subrange(from as int, to as int)),
    ensures
        r == decimal_in_u64(chars@.subrange(from as int, to as int)),
{
    let ghost digits = chars@.subrange(from as int, to as int);
    let mut value: u64 = 0;
    let mut i: usize = from;
    while i < to
        invariant
            from <= i <= to <= chars@.len(),
            digits == chars@.subrange(from as int, to as int),
            CharClass::Digit.has_all(digits),
            value == decimal_value(digits.take(i - from)),
        decreases to - i,
    {
        assert(digits[i - from] == chars@[i as int]);
        let d: u64 = digit_of(chars[i]);
        proof {
            assert(digits.take(i + 1 - from).drop_last() =~= digits.take(i - from));
            lemma_decimal_value_grows(digits, i + 1 - from);
        }
        if value > (u64::MAX - d) / 10 {
            return None;
        }
        value = value * 10 + d;
        i += 1;
    }
    assert(digits.take(to - from) =~= digits);
    Some(value)
}

/// The value of a numeral as a 64-bit number, if it has one.
pub open spec fn decimal_in_u64(digits: Seq<char>) -> Option<u64> {
    if decimal_value(digits) <= u64::MAX {
        Some(decimal_value(digits) as u64)
    } else {
        None
    }
}

/// The digit that denotes `d`, for `d` below ten.
pub open spec fn digit_char(d: nat) -> char {
    ('0' as nat + d) as char
}

/// The decimal numeral of `n`, without leading zeros.
pub open spec fn decimal_text(n: nat) -> Seq<char>
    decreases n,
{
    if n < 10 {
        seq![digit_char(n)]
    } else {
        decimal_text(n / 10).push(digit_char(n % 10))
    }
}

/// The numeral of a number is made of digits, and denotes that number.
pub proof fn law_decimal_text_denotes(n: nat)
    ensures
        decimal_text(n).len() > 0,
        CharClass::Digit.has_all(decimal_text(n)),
        decimal_value(decimal_text(n)) == n,
    decreases n,
{
    reveal_with_fuel(decimal_value, 2);
    if n < 10 {
        assert(decimal_text(n).drop_last() =~= Seq::<char>::empty());
    } else {
        law_decimal_text_denotes(n / 10);
        assert(decimal_text(n).drop_last() =~= decimal_text(n / 10));
    }
}

/// Appends the decimal numeral of `n` to `text`.
fn push_decimal(text: &mut String, n: u64)
    ensures
        final(text)@ == old(text)@ + decimal_text(n as nat),
    decreases n,
{
    if n >= 10 {
        push_decimal(text, n / 10);
    }
    let digit = ((n % 10) as u8 + 48u8) as char;
    text.push(digit);
    assert(digit == digit_char((n % 10) as nat));
    assert(old(text)@ + decimal_text(n as nat) =~= text@);
}

/// The decimal numeral of `n`, without leading zeros.
pub fn decimal_string(n: u64) -> (text: String)
    ensures
        text@ == decimal_text(n as nat),
{
    let mut text = String::new();
    push_decimal(&mut text, n);
    assert(Seq::<char>::empty() + decimal_text(n as nat) =~= decimal_text(n as nat));
    text
}

/// The characters of `s`, in order.
pub fn chars_of(s: &str) -> (chars: Vec<char>)
    ensures
        chars@ == s@,
{
    let mut chars: Vec<char> = Vec::new();
    for c in it: s.chars()
        invariant
            chars@ == it.seq().take(it.index() as int),
    {
        chars.push(c);
    }
    chars
}

/// The string made of `chars[from..to]`.
pub fn text_of(chars: &[char], from: usize, to: usize) -> (text: String)
    requires
        from <= to <= chars@.len(),
    ensures
        text@ == chars@.subrange(from as int, to as int),
{
    let mut text = String::new();
    let mut i: usize = from;
    while i < to
        invariant
            from <= i <= to <= chars@.len(),
            text@ == chars@.subrange(from as int, i as int),
        decreases to - i,
    {
        text.push(chars[i]);
        i += 1;
    }
    text
}

/// Whether `chars` begins with the characters of `text`.
pub fn starts_with_text(chars: &[char], text: &str) -> (r: bool)
    ensures
        r == text@.is_prefix_of(chars@),
{
    let n: usize = text.unicode_len();
    if chars.len() < n {
        return false;
    }
    let mut i: usize = 0;
    while i < n
        invariant
            n == text@.len(),
            i <= n <= chars@.len(),
            forall|k: int| 0 <= k < i ==> text@[k] == chars@[k],
        decreases n - i,
    {
        if text.get_char(i) != chars[i] {
            return false;
        }
        i += 1;
    }
    assert(text@ =~= chars@.subrange(0, n as int));
    true
}

/// Whether `chars` spells `text`.
pub fn is_text(chars: &[char], text: &str) -> (r: bool)
    ensures
        r == (chars@ == text@),
{
    if chars.len() != text.unicode_len() {
        return false;
    }
    let r = starts_with_text(chars, text);
    assert(r ==> chars@ =~= text@);
    r
}

} // verus!
