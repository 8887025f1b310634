//! Text as sequences of characters: lines, words, decimal numbers, hex.

use vstd::prelude::*;

verus! {

/// `String::push` of std appends the character.
pub assume_specification[ String::push ](s: &mut String, c: char)
    ensures
        final(s)@ == old(s)@.push(c),
;

/// The characters of a string.
pub fn chars_of(s: &str) -> (r: Vec<char>)
    ensures
        r@ == s@,
{
    let mut out: Vec<char> = Vec::new();
    for c in it: s.chars()
        invariant
            out@ == it.seq().take(it.index()),
            it.seq() == s@,
    {
        out.push(c);
        assert(out@ =~= it.seq().take(it.index() + 1));
    }
    assert(out@ =~= s@);
    out
}

/// The string of some characters.
pub fn string_of(chars: &[char]) -> (r: String)
    ensures
        r@ == chars@,
{
    let mut out = String::new();
    append_chars(&mut out, chars);
    assert(out@ =~= chars@);
    out
}

/// Appends characters to a string.
pub fn append_chars(out: &mut String, chars: &[char])
    ensures
        final(out)@ == old(out)@ + chars@,
{
    let mut i: usize = 0;
    while i < chars.len()
        invariant
            i <= chars.len(),
            out@ == old(out)@ + chars@.take(i as int),
        decreases chars.len() - i,
    {
        out.push(chars[i]);
        assert(out@ =~= old(out)@ + chars@.take(i + 1));
        i = i + 1;
    }
    assert(chars@.take(i as int) =~= chars@);
}

/// Appends a string to a string.
pub fn append_str(out: &mut String, s: &str)
    ensures
        final(out)@ == old(out)@ + s@,
{
    let chars = chars_of(s);
    append_chars(out, chars.as_slice());
}

/// Two strings joined.
pub fn joined(a: &str, b: &str) -> (r: String)
    ensures
        r@ == a@ + b@,
{
    let mut out = a.to_owned();
    append_str(&mut out, b);
    out
}

/// Whether two strings are equal.
pub fn str_eq(a: &str, b: &str) -> (r: bool)
    ensures
        r == (a@ == b@),
{
    let (x, y) = (chars_of(a), chars_of(b));
    chars_eq(x.as_slice(), y.as_slice())
}

/// Whether two sequences of characters are equal.
pub fn chars_eq(a: &[char], b: &[char]) -> (r: bool)
    ensures
        r == (a@ == b@),
{
    if a.len() != b.len() {
        return false;
    }
    let mut i: usize = 0;
    while i < a.len()
        invariant
            i <= a.len(),
            a.len() == b.len(),
            forall|k: int| 0 <= k < i ==> a@[k] == b@[k],
        decreases a.len() - i,
    {
        if a[i] != b[i] {
            assert(a@[i as int] != b@[i as int]);
            return false;
        }
        i = i + 1;
    }
    assert(a@ =~= b@);
    true
}

/// Whether `s` begins with `prefix`.
pub open spec fn begins_with(s: Seq<char>, prefix: Seq<char>) -> bool {
    prefix.len() <= s.len() && s.take(prefix.len() as int) == prefix
}

/// What follows `prefix` in `chars`, where it begins with it.
pub fn strip_prefix(chars: &[char], prefix: &str) -> (r: Option<Vec<char>>)
    ensures
        r is Some <==> begins_with(chars@, prefix@),
        r matches Some(rest) ==> rest@ == chars@.skip(prefix@.len() as int),
{
    let p = chars_of(prefix);
    if p.len() > chars.len() {
        return None;
    }
    let head = vstd::slice::slice_subrange(chars, 0, p.len());
    assert(head@ =~= chars@.take(prefix@.len() as int));
    if !chars_eq(head, p.as_slice()) {
        return None;
    }
    let rest = copy_range(chars, p.len(), chars.len());
    assert(rest@ =~= chars@.skip(prefix@.len() as int));
    Some(rest)
}

/// Part of a sequence of characters.
pub fn copy_range(chars: &[char], from: usize, to: usize) -> (r: Vec<char>)
    requires
        from <= to <= chars@.len(),
    ensures
        r@ == chars@.subrange(from as int, to as int),
{
    let mut out: Vec<char> = Vec::new();
    let mut i: usize = from;
    while i < to
        invariant
            from <= i <= to <= chars@.len(),
            out@ == chars@.subrange(from as int, i as int),
        decreases to - i,
    {
        out.push(chars[i]);
        assert(out@ =~= chars@.subrange(from as int, i + 1));
        i = i + 1;
    }
    out
}

// ── Whitespace ─────────────────────────────────────────────────────────────
/// Whether a character has the Unicode `White_Space` property.
pub open spec fn is_white(c: char) -> bool {
    let n = c as u32;
    ||| 0x9 <= n <= 0xd
    ||| n == 0x20
    ||| n == 0x85
    ||| n == 0xa0
    ||| n == 0x1680
    ||| 0x2000 <= n <= 0x200a
    ||| n == 0x2028
    ||| n == 0x2029
    ||| n == 0x202f
    ||| n == 0x205f
    ||| n == 0x3000
}

/// Whether a character is ASCII whitespace: space, tab, line feed, form feed,
/// carriage return.
pub open spec fn is_ascii_white(c: char) -> bool {
    let n = c as u32;
    n == 0x20 || n == 0x9 || n == 0xa || n == 0xc || n == 0xd
}

/// Whether a character separates words; of the two kinds of whitespace,
/// `ascii` picks the narrower.
pub open spec fn separates(c: char, ascii: bool) -> bool {
    if ascii {
        is_ascii_white(c)
    } else {
        is_white(c)
    }
}

fn is_separator(c: char, ascii: bool) -> (r: bool)
    ensures
        r == separates(c, ascii),
{
    let n: u32 = c as u32;
    if ascii {
        n == 0x20 || n == 0x9 || n == 0xa || n == 0xc || n == 0xd
    } else {
        (0x9 <= n && n <= 0xd) || n == 0x20 || n == 0x85 || n == 0xa0 || n == 0x1680 || (0x2000
            <= n && n <= 0x200a) || n == 0x2028 || n == 0x2029 || n == 0x202f || n == 0x205f || n
            == 0x3000
    }
}

/// What is left after the separators at the start.
pub open spec fn skip_white(s: Seq<char>, ascii: bool) -> Seq<char>
    decreases s.len(),
{
    if s.len() > 0 && separates(s[0], ascii) {
        skip_white(s.skip(1), ascii)
    } else {
        s
    }
}

/// What is left before the separators at the end.
pub open spec fn drop_white(s: Seq<char>, ascii: bool) -> Seq<char>
    decreases s.len(),
{
    if s.len() > 0 && separates(s.last(), ascii) {
        drop_white(s.drop_last(), ascii)
    } else {
        s
    }
}

/// The text without whitespace at either end.
pub open spec fn trimmed(s: Seq<char>) -> Seq<char> {
    drop_white(skip_white(s, false), false)
}

/// The text without whitespace at either end.
pub fn trim(chars: &[char]) -> (r: Vec<char>)
    ensures
        r@ == trimmed(chars@),
{
    let mut from: usize = 0;
    assert(chars@.skip(0) =~= chars@);
    while from < chars.len() && is_separator(chars[from], false)
        invariant
            from <= chars.len(),
            skip_white(chars@, false) == skip_white(chars@.skip(from as int), false),
        decreases chars.len() - from,
    {
        assert(chars@.skip(from as int).skip(1) =~= chars@.skip(from + 1));
        from = from + 1;
    }
    let ghost rest = chars@.skip(from as int);
    let mut to: usize = chars.len();
    assert(chars@.subrange(from as int, to as int) =~= rest);
    while to > from && is_separator(chars[to - 1], false)
        invariant
            from <= to <= chars.len(),
            drop_white(rest, false) == drop_white(
                chars@.subrange(from as int, to as int),
                false,
            ),
        decreases to,
    {
        assert(chars@.subrange(from as int, to as int).drop_last() =~= chars@.subrange(
            from as int,
            to - 1,
        ));
        to = to - 1;
    }
    copy_range(chars, from, to)
}

/// The number of characters before the first separator.
pub open spec fn word_len(s: Seq<char>, ascii: bool) -> nat
    decreases s.len(),
{
    if s.len() == 0 || separates(s[0], ascii) {
        0
    } else {
        1 + word_len(s.skip(1), ascii)
    }
}

proof fn lemma_word_len(s: Seq<char>, ascii: bool)
    ensures
        word_len(s, ascii) <= s.len(),
        s.len() > 0 && !separates(s[0], ascii) ==> word_len(s, ascii) > 0,
    decreases s.len(),
{
    if s.len() > 0 && !separates(s[0], ascii) {
        lemma_word_len(s.skip(1), ascii);
    }
}

proof fn lemma_skip_white_len(s: Seq<char>, ascii: bool)
    ensures
        skip_white(s, ascii).len() <= s.len(),
        skip_white(s, ascii).len() > 0 ==> !separates(skip_white(s, ascii)[0], ascii),
    decreases s.len(),
{
    if s.len() > 0 && separates(s[0], ascii) {
        lemma_skip_white_len(s.skip(1), ascii);
    }
}

/// The words of a text: its longest runs without separators, in order.
pub open spec fn words_of(s: Seq<char>, ascii: bool) -> Seq<Seq<char>>
    decreases s.len(),
{
    let t = skip_white(s, ascii);
    if t.len() == 0 {
        Seq::empty()
    } else {
        let n = word_len(t, ascii) as int;
        if n > 0 && n <= t.len() && t.len() <= s.len() {
            seq![t.take(n)] + words_of(t.skip(n), ascii)
        } else {
            Seq::empty()
        }
    }
}

/// Whether a text is a single word.
pub open spec fn is_word(w: Seq<char>, ascii: bool) -> bool {
    w.len() > 0 && forall|i: int| 0 <= i < w.len() ==> !separates(#[trigger] w[i], ascii)
}

proof fn lemma_word_len_of_word(w: Seq<char>, rest: Seq<char>, ascii: bool)
    requires
        forall|i: int| 0 <= i < w.len() ==> !separates(#[trigger] w[i], ascii),
        rest.len() > 0 ==> separates(rest[0], ascii),
    ensures
        word_len(w + rest, ascii) == w.len(),
    decreases w.len(),
{
    if w.len() > 0 {
        let t = w.skip(1);
        assert((w + rest).skip(1) =~= t + rest);
        assert(!separates(w[0], ascii));
        assert forall|i: int| 0 <= i < t.len() implies !separates(#[trigger] t[i], ascii) by {
            assert(t[i] == w[i + 1]);
        }
        lemma_word_len_of_word(t, rest, ascii);
    } else {
        assert(w + rest =~= rest);
    }
}

/// A word followed by a separator, or by nothing, is the first word.
pub proof fn lemma_first_word(w: Seq<char>, rest: Seq<char>, ascii: bool)
    requires
        is_word(w, ascii),
        rest.len() > 0 ==> separates(rest[0], ascii),
    ensures
        words_of(w + rest, ascii) == seq![w] + words_of(rest, ascii),
{
    let s = w + rest;
    assert(!separates(w[0], ascii));
    assert(skip_white(s, ascii) == s);
    lemma_word_len_of_word(w, rest, ascii);
    assert(s.take(w.len() as int) =~= w);
    assert(s.skip(w.len() as int) =~= rest);
}

/// A separator at the start adds no word.
pub proof fn lemma_leading_white(c: char, rest: Seq<char>, ascii: bool)
    requires
        separates(c, ascii),
    ensures
        words_of(seq![c] + rest, ascii) == words_of(rest, ascii),
{
    let s = seq![c] + rest;
    assert(s.skip(1) =~= rest);
    assert(skip_white(s, ascii) == skip_white(rest, ascii));
    lemma_skip_white_len(rest, ascii);
    lemma_word_len(skip_white(rest, ascii), ascii);
}

/// Words joined by single spaces.
pub open spec fn spaced(words: Seq<Seq<char>>) -> Seq<char>
    decreases words.len(),
{
    if words.len() == 0 {
        Seq::empty()
    } else if words.len() == 1 {
        words[0]
    } else {
        words[0] + seq![' '] + spaced(words.skip(1))
    }
}

/// Words joined by single spaces are read as those words.
pub proof fn law_words_round_trip(words: Seq<Seq<char>>, ascii: bool)
    requires
        forall|i: int| 0 <= i < words.len() ==> is_word(#[trigger] words[i], ascii),
    ensures
        words_of(spaced(words), ascii) == words,
    decreases words.len(),
{
    if words.len() == 0 {
        assert(words_of(Seq::<char>::empty(), ascii) =~= words);
    } else {
        let rest = words.skip(1);
        assert(is_word(words[0], ascii));
        assert forall|i: int| 0 <= i < rest.len() implies is_word(#[trigger] rest[i], ascii) by {
            assert(rest[i] == words[i + 1]);
        }
        law_words_round_trip(rest, ascii);
        if words.len() == 1 {
            lemma_first_word(words[0], Seq::empty(), ascii);
            assert(words[0] + Seq::<char>::empty() =~= words[0]);
            assert(seq![words[0]] + words_of(Seq::<char>::empty(), ascii) =~= words);
        } else {
            let tail = seq![' '] + spaced(rest);
            lemma_first_word(words[0], tail, ascii);
            lemma_leading_white(' ', spaced(rest), ascii);
            assert(spaced(words) =~= words[0] + tail);
            assert(seq![words[0]] + rest =~= words);
        }
    }
}

/// The contents of a list of texts.
pub open spec fn texts(v: Seq<Vec<char>>) -> Seq<Seq<char>> {
    Seq::new(v.len(), |i: int| v[i]@)
}

/// The words of a text.
pub fn words(chars: &[char], ascii: bool) -> (r: Vec<Vec<char>>)
    ensures
        texts(r@) == words_of(chars@, ascii),
{
    let mut out: Vec<Vec<char>> = Vec::new();
    let mut at: usize = 0;
    assert(chars@.skip(0) =~= chars@);
    assert(texts(out@) + words_of(chars@, ascii) =~= words_of(chars@, ascii));
    loop
        invariant
            at <= chars.len(),
            texts(out@) + words_of(chars@.skip(at as int), ascii) == words_of(chars@, ascii),
        ensures
            texts(out@) == words_of(chars@, ascii),
        decreases chars.len() - at,
    {
        let ghost before = at as int;
        let ghost rest = chars@.skip(at as int);
        while at < chars.len() && is_separator(chars[at], ascii)
            invariant
                before <= at <= chars.len(),
                skip_white(rest, ascii) == skip_white(chars@.skip(at as int), ascii),
            decreases chars.len() - at,
        {
            assert(chars@.skip(at as int).skip(1) =~= chars@.skip(at + 1));
            at = at + 1;
        }
        let ghost t = chars@.skip(at as int);
        assert(skip_white(rest, ascii) == t);
        if at == chars.len() {
            assert(texts(out@) + words_of(rest, ascii) =~= texts(out@));
            break;
        }
        let start: usize = at;
        while at < chars.len() && !is_separator(chars[at], ascii)
            invariant
                start <= at <= chars.len(),
                t == chars@.skip(start as int),
                word_len(t, ascii) == (at - start) + word_len(chars@.skip(at as int), ascii),
            decreases chars.len() - at,
        {
            assert(chars@.skip(at as int).skip(1) =~= chars@.skip(at + 1));
            at = at + 1;
        }
        proof {
            lemma_word_len(t, ascii);
            lemma_skip_white_len(rest, ascii);
            assert(t.take(at - start) =~= chars@.subrange(start as int, at as int));
            assert(t.skip(at - start) =~= chars@.skip(at as int));
        }
        let ghost held = texts(out@);
        out.push(copy_range(chars, start, at));
        assert(texts(out@) =~= held.push(t.take(at - start)));
        assert(texts(out@) + words_of(chars@.skip(at as int), ascii) =~= held + words_of(
            rest,
            ascii,
        ));
    }
    out
}

// ── Lines ──────────────────────────────────────────────────────────────────
/// The number of characters before the first line feed.
pub open spec fn line_len(s: Seq<char>) -> nat
    decreases s.len(),
{
    if s.len() == 0 || s[0] == '\n' {
        0
    } else {
        1 + line_len(s.skip(1))
    }
}

proof fn lemma_line_len(s: Seq<char>)
    ensures
        line_len(s) <= s.len(),
        forall|i: int| 0 <= i < line_len(s) ==> s[i] != '\n',
        line_len(s) < s.len() ==> s[line_len(s) as int] == '\n',
    decreases s.len(),
{
    if s.len() > 0 && s[0] != '\n' {
        lemma_line_len(s.skip(1));
        assert forall|i: int| 0 <= i < line_len(s) implies s[i] != '\n' by {
            if i > 0 {
                assert(s.skip(1)[i - 1] == s[i]);
            }
        }
        if line_len(s) < s.len() {
            assert(s.skip(1)[line_len(s) - 1] == s[line_len(s) as int]);
        }
    }
}

/// A line without the carriage return before its line feed.
pub open spec fn without_cr(line: Seq<char>) -> Seq<char> {
    if line.len() > 0 && line.last() == '\r' {
        line.drop_last()
    } else {
        line
    }
}

/// The lines of a text: split at line feeds, each with an optional carriage
/// return before it; the last line feed is optional.
pub open spec fn lines_of(s: Seq<char>) -> Seq<Seq<char>>
    decreases s.len(),
{
    if s.len() == 0 {
        Seq::empty()
    } else {
        let n = line_len(s) as int;
        if n >= s.len() {
            seq![s]
        } else {
            seq![without_cr(s.take(n))] + lines_of(s.skip(n + 1))
        }
    }
}

/// The lines of a text.
pub fn lines(chars: &[char]) -> (r: Vec<Vec<char>>)
    ensures
        texts(r@) == lines_of(chars@),
{
    let mut out: Vec<Vec<char>> = Vec::new();
    let mut at: usize = 0;
    assert(chars@.skip(0) =~= chars@);
    assert(texts(out@) + lines_of(chars@) =~= lines_of(chars@));
    while at < chars.len()
        invariant
            at <= chars.len(),
            texts(out@) + lines_of(chars@.skip(at as int)) == lines_of(chars@),
        decreases chars.len() - at,
    {
        let start: usize = at;
        let ghost rest = chars@.skip(start as int);
        while at < chars.len() && chars[at] != '\n'
            invariant
                start <= at <= chars.len(),
                rest == chars@.skip(start as int),
                line_len(rest) == (at - start) + line_len(chars@.skip(at as int)),
            decreases chars.len() - at,
        {
            assert(chars@.skip(at as int).skip(1) =~= chars@.skip(at + 1));
            at = at + 1;
        }
        let ghost held = texts(out@);
        if at == chars.len() {
            assert(chars@.subrange(start as int, at as int) =~= rest);
            out.push(copy_range(chars, start, at));
            proof {
                assert(texts(out@) =~= held.push(rest));
                assert(lines_of(rest) == seq![rest]);
                assert(chars@.skip(at as int) =~= Seq::<char>::empty());
                assert(texts(out@) + lines_of(chars@.skip(at as int)) =~= held + lines_of(rest));
            }
        } else {
            let end: usize = if at > start && chars[at - 1] == '\r' {
                at - 1
            } else {
                at
            };
            out.push(copy_range(chars, start, end));
            proof {
                assert(rest.take(at - start) =~= chars@.subrange(start as int, at as int));
                assert(without_cr(rest.take(at - start)) =~= chars@.subrange(
                    start as int,
                    end as int,
                ));
                assert(rest.skip(at - start + 1) =~= chars@.skip(at + 1));
                assert(texts(out@) =~= held.push(without_cr(rest.take(at - start))));
                assert(texts(out@) + lines_of(chars@.skip(at + 1)) =~= held + lines_of(rest));
            }
            at = at + 1;
        }
    }
    proof {
        assert(chars@.skip(at as int) =~= Seq::<char>::empty());
        assert(texts(out@) + lines_of(chars@.skip(at as int)) =~= texts(out@));
    }
    out
}

// ── Decimal numbers ────────────────────────────────────────────────────────
/// Whether a character is a decimal digit.
pub open spec fn is_digit(c: char) -> bool {
    '0' <= c <= '9'
}

/// The value of a digit.
pub open spec fn digit_value(c: char) -> nat {
    (c as u32 - '0' as u32) as nat
}

/// Whether every character is a digit.
pub open spec fn all_digits(s: Seq<char>) -> bool {
    forall|i: int| 0 <= i < s.len() ==> is_digit(#[trigger] s[i])
}

/// The number that digits write.
pub open spec fn number_of(s: Seq<char>) -> nat
    decreases s.len(),
{
    if s.len() == 0 {
        0
    } else {
        10 * number_of(s.drop_last()) + digit_value(s.last())
    }
}

/// The unsigned number that a text writes: digits, with an optional plus sign,
/// for a number of at most `max`.
pub open spec fn unsigned_of(s: Seq<char>, max: nat) -> Option<nat> {
    let d = if s.len() > 0 && s[0] == '+' {
        s.skip(1)
    } else {
        s
    };
    if d.len() > 0 && all_digits(d) && number_of(d) <= max {
        Some(number_of(d))
    } else {
        None
    }
}

/// The signed number that a text writes: digits, with an optional sign, for a
/// number between `min` and `max`.
pub open spec fn signed_of(s: Seq<char>, min: int, max: int) -> Option<int> {
    if s.len() > 0 && s[0] == '-' {
        let d = s.skip(1);
        if d.len() > 0 && all_digits(d) && -number_of(d) >= min {
            Some(-number_of(d))
        } else {
            None
        }
    } else {
        match unsigned_of(s, max as nat) {
            Some(n) => Some(n as int),
            None => None,
        }
    }
}

proof fn lemma_number_monotone(s: Seq<char>, n: int)
    requires
        0 <= n <= s.len(),
    ensures
        number_of(s.take(n)) <= number_of(s),
    decreases s.len(),
{
    if n == s.len() {
        assert(s.take(n) =~= s);
    } else {
        lemma_number_monotone(s.drop_last(), n);
        assert(s.drop_last().take(n) =~= s.take(n));
    }
}

/// Why a text writes no number.
#[derive(Clone, Copy, Debug, PartialEq, Eq, Structural)]
pub enum NumberError {
    /// It is empty.
    Empty,
    /// Where a digit should stand, something else does.
    InvalidDigit,
    /// The number is too large.
    TooLarge,
    /// The number is too small.
    TooSmall,
}

impl NumberError {
    /// The error in words.
    pub open spec fn words(self) -> Seq<char> {
        match self {
            NumberError::Empty => "cannot parse integer from empty string"@,
            NumberError::InvalidDigit => "invalid digit found in string"@,
            NumberError::TooLarge => "number too large to fit in target type"@,
            NumberError::TooSmall => "number too small to fit in target type"@,
        }
    }

    /// The error in words.
    #[must_use]
    pub fn message(self) -> (r: &'static str)
        ensures
            r@ == self.words(),
    {
        match self {
            NumberError::Empty => "cannot parse integer from empty string",
            NumberError::InvalidDigit => "invalid digit found in string",
            NumberError::TooLarge => "number too large to fit in target type",
            NumberError::TooSmall => "number too small to fit in target type",
        }
    }
}

/// How many digits stand at the front.
pub open spec fn leading_digits(s: Seq<char>) -> nat
    decreases s.len(),
{
    if s.len() > 0 && is_digit(s[0]) {
        1 + leading_digits(s.skip(1))
    } else {
        0
    }
}

/// What is wrong with digits for a number of at most `max`, read from the front:
/// they grow too large before anything else stands there, or it does.
pub open spec fn digits_fault(d: Seq<char>, max: nat) -> NumberError {
    if number_of(d.take(leading_digits(d) as int)) > max {
        NumberError::TooLarge
    } else {
        NumberError::InvalidDigit
    }
}

/// The unsigned number that a text writes, or why it writes none.
pub open spec fn unsigned_in(s: Seq<char>, max: nat) -> Result<nat, NumberError> {
    match unsigned_of(s, max) {
        Some(n) => Ok(n),
        None => Err(
            if s.len() == 0 {
                NumberError::Empty
            } else if s[0] == '+' {
                digits_fault(s.skip(1), max)
            } else {
                digits_fault(s, max)
            },
        ),
    }
}

/// The signed number that a text writes, or why it writes none.
pub open spec fn signed_in(s: Seq<char>, min: int, max: int) -> Result<int, NumberError> {
    match signed_of(s, min, max) {
        Some(n) => Ok(n),
        None => Err(
            if s.len() > 0 && s[0] == '-' {
                match digits_fault(s.skip(1), -min as nat) {
                    NumberError::TooLarge => NumberError::TooSmall,
                    e => e,
                }
            } else {
                unsigned_in(s, max as nat)->Err_0
            },
        ),
    }
}

proof fn lemma_leading_digits(s: Seq<char>, n: int)
    requires
        0 <= n <= s.len(),
        forall|i: int| 0 <= i < n ==> is_digit(#[trigger] s[i]),
    ensures
        n <= leading_digits(s) <= s.len(),
        n < s.len() && !is_digit(s[n]) ==> leading_digits(s) == n,
    decreases s.len(),
{
    if n > 0 {
        assert forall|i: int| 0 <= i < n - 1 implies is_digit(#[trigger] s.skip(1)[i]) by {
            assert(s.skip(1)[i] == s[i + 1]);
        }
        assert(is_digit(s[0]));
        lemma_leading_digits(s.skip(1), n - 1);
    } else if s.len() > 0 && is_digit(s[0]) {
        lemma_leading_digits(s.skip(1), 0);
    }
}

/// The number that the characters from `from` on write.
fn parse_digits(chars: &[char], from: usize, max: u64) -> (r: Result<u64, NumberError>)
    requires
        from <= chars@.len(),
    ensures
        ({
            let d = chars@.skip(from as int);
            match r {
                Ok(n) => d.len() > 0 && all_digits(d) && number_of(d) == n && n <= max,
                Err(e) => !(d.len() > 0 && all_digits(d) && number_of(d) <= max) && e
                    == digits_fault(d, max as nat),
            }
        }),
{
    let ghost d = chars@.skip(from as int);
    assert(d.take(0) =~= Seq::<char>::empty());
    if from == chars.len() {
        return Err(NumberError::InvalidDigit);
    }
    let mut n: u64 = 0;
    let mut i: usize = from;
    while i < chars.len()
        invariant
            from <= i <= chars.len(),
            d == chars@.skip(from as int),
            n == number_of(d.take(i - from)),
            n <= max,
            forall|k: int| 0 <= k < i - from ==> is_digit(#[trigger] d[k]),
        decreases chars.len() - i,
    {
        let c: char = chars[i];
        assert(d[i - from] == c);
        if !('0' <= c && c <= '9') {
            assert(!is_digit(d[i - from]));
            proof {
                lemma_leading_digits(d, i - from);
            }
            return Err(NumberError::InvalidDigit);
        }
        let v: u64 = (c as u32 - '0' as u32) as u64;
        proof {
            assert(d.take(i - from + 1).drop_last() =~= d.take(i - from));
            lemma_number_monotone(d, i - from + 1);
            lemma_leading_digits(d, i - from + 1);
            let front = d.take(leading_digits(d) as int);
            lemma_number_monotone(front, i - from + 1);
            assert(front.take(i - from + 1) =~= d.take(i - from + 1));
        }
        if v > max || n > (max - v) / 10 {
            assert(number_of(d.take(i - from + 1)) > max);
            return Err(NumberError::TooLarge);
        }
        n = n * 10 + v;
        i = i + 1;
    }
    assert(d.take(i - from) =~= d);
    Ok(n)
}

/// The unsigned number that a text writes, at most `max`.
///
/// # Errors
///
/// Why it writes none.
pub fn read_unsigned(chars: &[char], max: u64) -> (r: Result<u64, NumberError>)
    ensures
        match r {
            Ok(n) => unsigned_in(chars@, max as nat) == Ok::<nat, NumberError>(n as nat),
            Err(e) => unsigned_in(chars@, max as nat) == Err::<nat, NumberError>(e),
        },
{
    if chars.len() == 0 {
        Err(NumberError::Empty)
    } else if chars[0] == '+' {
        parse_digits(chars, 1, max)
    } else {
        assert(chars@.skip(0) =~= chars@);
        parse_digits(chars, 0, max)
    }
}

/// The unsigned number that a text writes, at most `max`.
pub fn parse_unsigned(chars: &[char], max: u64) -> (r: Option<u64>)
    ensures
        match r {
            Some(n) => unsigned_of(chars@, max as nat) == Some(n as nat),
            None => unsigned_of(chars@, max as nat) is None,
        },
{
    match read_unsigned(chars, max) {
        Ok(n) => Some(n),
        Err(_) => None,
    }
}

/// The signed 64-bit number that a text writes.
///
/// # Errors
///
/// Why it writes none.
pub fn read_signed(chars: &[char]) -> (r: Result<i64, NumberError>)
    ensures
        match r {
            Ok(n) => signed_in(chars@, i64::MIN as int, i64::MAX as int) == Ok::<
                int,
                NumberError,
            >(n as int),
            Err(e) => signed_in(chars@, i64::MIN as int, i64::MAX as int) == Err::<
                int,
                NumberError,
            >(e),
        },
{
    if chars.len() > 0 && chars[0] == '-' {
        match parse_digits(chars, 1, 0x8000_0000_0000_0000) {
            Ok(n) => if n == 0x8000_0000_0000_0000 {
                Ok(i64::MIN)
            } else {
                Ok(0 - (n as i64))
            },
            Err(NumberError::TooLarge) => Err(NumberError::TooSmall),
            Err(e) => Err(e),
        }
    } else {
        match read_unsigned(chars, 0x7fff_ffff_ffff_ffff) {
            Ok(n) => Ok(n as i64),
            Err(e) => Err(e),
        }
    }
}

/// The digit of a value below ten.
pub open spec fn digit_char(n: nat) -> char {
    ('0' as u32 + n) as char
}

/// A number written in decimal.
pub open spec fn decimal_of(n: nat) -> Seq<char>
    decreases n,
{
    if n < 10 {
        seq![digit_char(n)]
    } else {
        decimal_of(n / 10).push(digit_char(n % 10))
    }
}

/// One decimal digit.
pub fn digit_of(n: u64) -> (r: char)
    requires
        n < 10,
    ensures
        r == digit_char(n as nat),
{
    match n {
        0 => '0',
        1 => '1',
        2 => '2',
        3 => '3',
        4 => '4',
        5 => '5',
        6 => '6',
        7 => '7',
        8 => '8',
        _ => '9',
    }
}

/// Appends a number, written in decimal.
pub fn append_decimal(out: &mut String, n: u64)
    ensures
        final(out)@ == old(out)@ + decimal_of(n as nat),
    decreases n,
{
    if n < 10 {
        out.push(digit_of(n));
    } else {
        append_decimal(out, n / 10);
        out.push(digit_of(n % 10));
    }
    assert(out@ =~= old(out)@ + decimal_of(n as nat));
}

/// Appends a wide number, written in decimal.
pub fn append_decimal_wide(out: &mut String, n: u128)
    ensures
        final(out)@ == old(out)@ + decimal_of(n as nat),
    decreases n,
{
    if n < 10 {
        out.push(digit_of(n as u64));
    } else {
        append_decimal_wide(out, n / 10);
        out.push(digit_of((n % 10) as u64));
    }
    assert(out@ =~= old(out)@ + decimal_of(n as nat));
}

/// A number written in decimal.
pub fn decimal(n: u64) -> (r: String)
    ensures
        r@ == decimal_of(n as nat),
{
    let mut out = String::new();
    append_decimal(&mut out, n);
    assert(out@ =~= decimal_of(n as nat));
    out
}

/// A signed number written in decimal.
pub open spec fn signed_decimal_of(n: int) -> Seq<char> {
    if n < 0 {
        seq!['-'] + decimal_of((-n) as nat)
    } else {
        decimal_of(n as nat)
    }
}

/// Appends a signed number, written in decimal.
pub fn append_signed(out: &mut String, n: i64)
    ensures
        final(out)@ == old(out)@ + signed_decimal_of(n as int),
{
    if n < 0 {
        out.push('-');
        let m: u64 = if n == i64::MIN {
            0x8000_0000_0000_0000
        } else {
            (0 - n) as u64
        };
        append_decimal(out, m);
    } else {
        append_decimal(out, n as u64);
    }
    assert(out@ =~= old(out)@ + signed_decimal_of(n as int));
}

proof fn lemma_decimal(n: nat)
    ensures
        decimal_of(n).len() > 0,
        all_digits(decimal_of(n)),
        number_of(decimal_of(n)) == n,
    decreases n,
{
    if n < 10 {
        let s = decimal_of(n);
        assert(s.drop_last() =~= Seq::<char>::empty());
        assert(number_of(s.drop_last()) == 0);
        assert(is_digit(digit_char(n)));
        assert(digit_value(digit_char(n)) == n);
    } else {
        lemma_decimal(n / 10);
        let s = decimal_of(n);
        assert(s.drop_last() =~= decimal_of(n / 10));
        assert(is_digit(digit_char(n % 10)));
        assert(digit_value(digit_char(n % 10)) == n % 10);
    }
}

/// A written number is a word.
pub proof fn lemma_decimal_is_word(n: nat, ascii: bool)
    ensures
        is_word(decimal_of(n), ascii),
{
    lemma_decimal(n);
    assert forall|i: int| 0 <= i < decimal_of(n).len() implies !separates(
        #[trigger] decimal_of(n)[i],
        ascii,
    ) by {
        assert(is_digit(decimal_of(n)[i]));
    }
}

/// A signed written number is a word.
pub proof fn lemma_signed_is_word(n: int, ascii: bool)
    ensures
        is_word(signed_decimal_of(n), ascii),
{
    if n < 0 {
        lemma_decimal_is_word((-n) as nat, ascii);
        let (s, d) = (signed_decimal_of(n), decimal_of((-n) as nat));
        assert forall|i: int| 0 <= i < s.len() implies !separates(#[trigger] s[i], ascii) by {
            if i > 0 {
                assert(s[i] == d[i - 1]);
            }
        }
    } else {
        lemma_decimal_is_word(n as nat, ascii);
    }
}

/// Written hex is a word.
pub proof fn lemma_hex_is_word(b: Seq<u8>, ascii: bool)
    requires
        b.len() > 0,
    ensures
        is_word(hex_of(b), ascii),
{
    assert forall|i: int| 0 <= i < hex_of(b).len() implies !separates(
        #[trigger] hex_of(b)[i],
        ascii,
    ) by {}
}

/// Reading a number gives back the number that was written.
pub proof fn law_decimal_round_trip(n: nat, max: nat)
    requires
        n <= max,
    ensures
        unsigned_of(decimal_of(n), max) == Some(n),
{
    lemma_decimal(n);
    assert(is_digit(decimal_of(n)[0]));
}

/// Reading a signed number gives back the number that was written.
pub proof fn law_signed_round_trip(n: int, min: int, max: int)
    requires
        min <= n <= max,
    ensures
        signed_of(signed_decimal_of(n), min, max) == Some(n),
{
    if n < 0 {
        lemma_decimal((-n) as nat);
        assert(signed_decimal_of(n).skip(1) =~= decimal_of((-n) as nat));
    } else {
        law_decimal_round_trip(n as nat, max as nat);
        lemma_decimal(n as nat);
        assert(is_digit(decimal_of(n as nat)[0]));
    }
}

// ── Hex ────────────────────────────────────────────────────────────────────
/// The lower-case hex digit of a value below sixteen.
pub open spec fn hex_char(n: int) -> char {
    if n < 10 {
        ('0' as u32 + n) as char
    } else {
        ('a' as u32 + n - 10) as char
    }
}

/// Bytes written in lower-case hex, two digits per byte.
pub open spec fn hex_of(b: Seq<u8>) -> Seq<char> {
    Seq::new(
        2 * b.len(),
        |i: int|
            if i % 2 == 0 {
                hex_char(b[i / 2] as int / 16)
            } else {
                hex_char(b[i / 2] as int % 16)
            },
    )
}

fn hex_digit_char(n: u8) -> (r: char)
    requires
        n < 16,
    ensures
        r == hex_char(n as int),
{
    match n {
        0 => '0',
        1 => '1',
        2 => '2',
        3 => '3',
        4 => '4',
        5 => '5',
        6 => '6',
        7 => '7',
        8 => '8',
        9 => '9',
        10 => 'a',
        11 => 'b',
        12 => 'c',
        13 => 'd',
        14 => 'e',
        _ => 'f',
    }
}

/// Appends bytes, written in lower-case hex.
pub fn append_hex(out: &mut String, b: &[u8])
    ensures
        final(out)@ == old(out)@ + hex_of(b@),
{
    let mut i: usize = 0;
    assert(out@ =~= old(out)@ + hex_of(b@.take(0)));
    while i < b.len()
        invariant
            i <= b.len(),
            out@ == old(out)@ + hex_of(b@.take(i as int)),
        decreases b.len() - i,
    {
        let ghost before = out@;
        out.push(hex_digit_char(b[i] / 16));
        out.push(hex_digit_char(b[i] % 16));
        proof {
            let (x, y) = (hex_of(b@.take(i as int)), hex_of(b@.take(i + 1)));
            assert(y =~= x.push(hex_char(b@[i as int] as int / 16)).push(
                hex_char(b@[i as int] as int % 16),
            )) by {
                assert forall|k: int| 0 <= k < y.len() implies y[k] == x.push(
                    hex_char(b@[i as int] as int / 16),
                ).push(hex_char(b@[i as int] as int % 16))[k] by {
                    if k < 2 * i {
                        assert(k / 2 < i);
                    }
                }
            }
            assert(out@ =~= old(out)@ + y);
        }
        i = i + 1;
    }
    assert(b@.take(i as int) =~= b@);
}

/// Bytes written in lower-case hex.
pub fn hex(b: &[u8]) -> (r: String)
    ensures
        r@ == hex_of(b@),
{
    let mut out = String::new();
    append_hex(&mut out, b);
    assert(out@ =~= hex_of(b@));
    out
}

/// The value of a hex digit; upper-case letters count only where `upper` says.
pub open spec fn nibble_of(b: u8, upper: bool) -> Option<int> {
    if 0x30 <= b <= 0x39 {
        Some(b - 0x30)
    } else if 0x61 <= b <= 0x66 {
        Some(b - 0x61 + 10)
    } else if upper && 0x41 <= b <= 0x46 {
        Some(b - 0x41 + 10)
    } else {
        None
    }
}

/// The value of a hex digit.
pub fn nibble(b: u8, upper: bool) -> (r: Option<u8>)
    ensures
        match r {
            Some(n) => nibble_of(b, upper) == Some(n as int) && n < 16,
            None => nibble_of(b, upper) is None,
        },
{
    if 0x30 <= b && b <= 0x39 {
        Some(b - 0x30)
    } else if 0x61 <= b && b <= 0x66 {
        Some(b - 0x61 + 10)
    } else if upper && 0x41 <= b && b <= 0x46 {
        Some(b - 0x41 + 10)
    } else {
        None
    }
}

/// Whether every byte is a hex digit.
pub open spec fn all_hex(s: Seq<u8>, upper: bool) -> bool {
    forall|i: int| 0 <= i < s.len() ==> nibble_of(#[trigger] s[i], upper) is Some
}

/// The bytes that hex digits write, two per byte.
pub open spec fn unhex(s: Seq<u8>, upper: bool) -> Seq<u8> {
    Seq::new(
        s.len() / 2,
        |i: int|
            (16 * nibble_of(s[2 * i], upper)->0 + nibble_of(s[2 * i + 1], upper)->0) as u8,
    )
}

/// Why 32 bytes of hex could not be read.
#[derive(Clone, Copy, Debug, PartialEq, Eq, Structural)]
pub enum HexError {
    /// There are not 64 bytes but this many.
    Length(usize),
    /// This byte is no hex digit.
    NonHex(u8),
}

/// The 32 bytes that 64 hex digits write, or what is wrong: the length, or the
/// first byte that is no digit.
pub open spec fn hex32_of(s: Seq<u8>, upper: bool) -> Result<Seq<u8>, HexError> {
    if s.len() != 64 {
        Err(HexError::Length(s.len() as usize))
    } else if all_hex(s, upper) {
        Ok(unhex(s, upper))
    } else {
        Err(HexError::NonHex(s[first_non_hex(s, upper) as int]))
    }
}

/// The number of hex digits before the first byte that is none.
pub open spec fn first_non_hex(s: Seq<u8>, upper: bool) -> nat
    decreases s.len(),
{
    if s.len() == 0 || nibble_of(s[0], upper) is None {
        0
    } else {
        1 + first_non_hex(s.skip(1), upper)
    }
}

proof fn lemma_first_non_hex(s: Seq<u8>, upper: bool, n: int)
    requires
        0 <= n < s.len(),
        forall|i: int| 0 <= i < n ==> nibble_of(#[trigger] s[i], upper) is Some,
        nibble_of(s[n], upper) is None,
    ensures
        first_non_hex(s, upper) == n,
    decreases n,
{
    if n > 0 {
        assert(nibble_of(s[0], upper) is Some);
        let t = s.skip(1);
        assert forall|i: int| 0 <= i < n - 1 implies nibble_of(#[trigger] t[i], upper) is Some by {
            assert(t[i] == s[i + 1]);
        }
        lemma_first_non_hex(t, upper, n - 1);
    }
}

/// The 32 bytes that 64 hex digits write.
///
/// # Errors
///
/// Where there are not 64 bytes, or one of them is no hex digit.
pub fn read_hex32(s: &[u8], upper: bool) -> (r: Result<[u8; 32], HexError>)
    ensures
        match r {
            Ok(b) => hex32_of(s@, upper) == Ok::<Seq<u8>, HexError>(b@),
            Err(e) => hex32_of(s@, upper) == Err::<Seq<u8>, HexError>(e),
        },
{
    if s.len() != 64 {
        return Err(HexError::Length(s.len()));
    }
    let mut out: [u8; 32] = [0u8; 32];
    let mut i: usize = 0;
    while i < 32
        invariant
            i <= 32,
            s@.len() == 64,
            forall|k: int| 0 <= k < 2 * i ==> nibble_of(#[trigger] s@[k], upper) is Some,
            forall|k: int| 0 <= k < i ==> out@[k] == unhex(s@, upper)[k],
        decreases 32 - i,
    {
        let hi: u8 = match nibble(s[2 * i], upper) {
            Some(n) => n,
            None => {
                proof {
                    lemma_first_non_hex(s@, upper, 2 * i as int);
                    assert(nibble_of(s@[2 * i as int], upper) is None);
                }
                return Err(HexError::NonHex(s[2 * i]));
            },
        };
        let lo: u8 = match nibble(s[2 * i + 1], upper) {
            Some(n) => n,
            None => {
                proof {
                    assert forall|k: int| 0 <= k < 2 * i + 1 implies nibble_of(
                        #[trigger] s@[k],
                        upper,
                    ) is Some by {
                        if k == 2 * i {
                        }
                    }
                    lemma_first_non_hex(s@, upper, 2 * i + 1);
                    assert(nibble_of(s@[2 * i + 1], upper) is None);
                }
                return Err(HexError::NonHex(s[2 * i + 1]));
            },
        };
        let v: u8 = 16 * hi + lo;
        out[i] = v;
        i = i + 1;
    }
    assert(out@ =~= unhex(s@, upper));
    Ok(out)
}

proof fn lemma_hex_read(b: Seq<u8>, upper: bool)
    ensures
        vstd::utf8::encode_utf8(hex_of(b)).len() == 2 * b.len(),
        all_hex(vstd::utf8::encode_utf8(hex_of(b)), upper),
        unhex(vstd::utf8::encode_utf8(hex_of(b)), upper) == b,
{
    let text = hex_of(b);
    assert(vstd::utf8::is_ascii_chars(text)) by {
        assert forall|i: int| 0 <= i < text.len() implies '\0' <= #[trigger] text[i] <= '\u{7f}' by {}
    }
    vstd::utf8::is_ascii_chars_encode_utf8(text);
    let s = vstd::utf8::encode_utf8(text);
    assert forall|i: int| 0 <= i < s.len() implies nibble_of(#[trigger] s[i], upper) == Some(
        if i % 2 == 0 {
            b[i / 2] as int / 16
        } else {
            b[i / 2] as int % 16
        },
    ) by {
        assert(s[i] as int == text[i] as int);
    }
    assert(unhex(s, upper) =~= b) by {
        assert forall|k: int| 0 <= k < b.len() implies unhex(s, upper)[k] == b[k] by {
            assert(nibble_of(s[2 * k], upper) == Some(b[k] as int / 16));
            assert(nibble_of(s[2 * k + 1], upper) == Some(b[k] as int % 16));
        }
    }
}

/// Reading hex gives back the 32 bytes that were written.
pub proof fn law_hex_round_trip(b: Seq<u8>, upper: bool)
    requires
        b.len() == 32,
    ensures
        hex32_of(vstd::utf8::encode_utf8(hex_of(b)), upper) == Ok::<Seq<u8>, HexError>(b),
{
    lemma_hex_read(b, upper);
}

/// Reading hex gives back the bytes that were written, however many.
pub proof fn law_hex_bytes_round_trip(b: Seq<u8>, upper: bool)
    ensures
        vstd::utf8::encode_utf8(hex_of(b)).len() == 2 * b.len(),
        hex_bytes_of(vstd::utf8::encode_utf8(hex_of(b)), upper) == Some(b),
{
    lemma_hex_read(b, upper);
}

/// The 32 bytes that a word of 64 hex digits writes.
///
/// # Errors
///
/// Where the word is not 64 bytes long, or one of them is no hex digit.
pub fn word_hex32(word: &[char], upper: bool) -> (r: Result<[u8; 32], HexError>)
    ensures
        match r {
            Ok(b) => hex32_of(vstd::utf8::encode_utf8(word@), upper) == Ok::<
                Seq<u8>,
                HexError,
            >(b@),
            Err(e) => hex32_of(vstd::utf8::encode_utf8(word@), upper) == Err::<
                Seq<u8>,
                HexError,
            >(e),
        },
{
    let s = string_of(word);
    read_hex32(s.as_str().as_bytes(), upper)
}

/// Whether a text is made of whole lines: it is empty or ends in a line feed.
pub open spec fn is_whole(s: Seq<char>) -> bool {
    s.len() == 0 || s.last() == '\n'
}

/// The longest start of a text that is made of whole lines.
pub open spec fn whole_lines(s: Seq<char>) -> Seq<char>
    decreases s.len(),
{
    if is_whole(s) {
        s
    } else {
        whole_lines(s.drop_last())
    }
}

/// The longest start of a text that is made of whole lines.
pub fn keep_whole_lines(chars: &[char]) -> (r: Vec<char>)
    ensures
        r@ == whole_lines(chars@),
{
    let mut to: usize = chars.len();
    assert(chars@.take(to as int) =~= chars@);
    while to > 0 && chars[to - 1] != '\n'
        invariant
            to <= chars.len(),
            whole_lines(chars@) == whole_lines(chars@.take(to as int)),
        decreases to,
    {
        assert(chars@.take(to as int).drop_last() =~= chars@.take(to - 1));
        to = to - 1;
    }
    assert(chars@.subrange(0, to as int) =~= chars@.take(to as int));
    copy_range(chars, 0, to)
}

/// What follows the last line feed is no whole line.
pub proof fn lemma_whole_lines(s: Seq<char>, tail: Seq<char>)
    requires
        is_whole(s),
        !tail.contains('\n'),
    ensures
        whole_lines(s + tail) == s,
    decreases tail.len(),
{
    if tail.len() == 0 {
        assert(s + tail =~= s);
    } else {
        assert(tail.contains(tail.last()));
        assert((s + tail).drop_last() =~= s + tail.drop_last());
        assert forall|c: char| tail.drop_last().contains(c) implies tail.contains(c) by {
            let i = choose|i: int| 0 <= i < tail.len() - 1 && tail.drop_last()[i] == c;
            assert(tail[i] == c);
        }
        lemma_whole_lines(s, tail.drop_last());
    }
}

/// The lines of whole lines and what follows them are the lines of each.
pub proof fn lemma_lines_concat(s: Seq<char>, t: Seq<char>)
    requires
        is_whole(s),
    ensures
        lines_of(s + t) == lines_of(s) + lines_of(t),
    decreases s.len(),
{
    if s.len() == 0 {
        assert(s + t =~= t);
        assert(lines_of(s) + lines_of(t) =~= lines_of(t));
    } else {
        let n = line_len(s) as int;
        lemma_line_len(s);
        lemma_line_len(s + t);
        if n == s.len() {
            assert(s[s.len() - 1] == '\n');
        }
        let m = line_len(s + t) as int;
        if m < n {
            assert((s + t)[m] == s[m]);
        }
        if n < m {
            assert((s + t)[n] == s[n]);
        }
        assert((s + t).take(n) =~= s.take(n));
        let rest = s.skip(n + 1);
        if rest.len() > 0 {
            assert(rest.last() == s.last());
        }
        assert((s + t).skip(n + 1) =~= rest + t);
        lemma_lines_concat(rest, t);
        assert(lines_of(s + t) =~= lines_of(s) + lines_of(t));
    }
}

/// One line and its line feed are one line.
pub proof fn lemma_one_line(line: Seq<char>)
    requires
        !line.contains('\n'),
    ensures
        lines_of(line.push('\n')) == seq![without_cr(line)],
{
    let s = line.push('\n');
    lemma_line_len(s);
    let n = line_len(s) as int;
    if n < line.len() {
        assert(s[n] == line[n]);
    }
    assert(s[line.len() as int] == '\n');
    assert(n == line.len());
    assert(s.take(n) =~= line);
    assert(s.skip(n + 1) =~= Seq::<char>::empty());
    reveal_with_fuel(lines_of, 2);
    assert(lines_of(s) =~= seq![without_cr(line)]);
}

/// Ending a last line that does not end changes no line, unless it ends with a
/// carriage return.
pub proof fn lemma_lines_ended(s: Seq<char>)
    requires
        s.len() > 0,
        s.last() != '\n',
        s.last() != '\r',
    ensures
        lines_of(s.push('\n')) == lines_of(s),
    decreases s.len(),
{
    let t = s.push('\n');
    lemma_line_len(s);
    lemma_line_len(t);
    let n = line_len(s) as int;
    let m = line_len(t) as int;
    if m < n {
        assert(t[m] == s[m]);
    }
    if n < m {
        assert(t[n] == s[n] || n == s.len());
    }
    assert(n == m) by {
        if n == s.len() {
            assert(t[n] == '\n');
        }
    }
    assert(t.take(n) =~= s.take(n));
    if n == s.len() {
        assert(s.take(n) =~= s);
        assert(t.skip(n + 1) =~= Seq::<char>::empty());
        assert(lines_of(t.skip(n + 1)) =~= Seq::<Seq<char>>::empty());
        assert(lines_of(t) =~= seq![s]);
    } else {
        let rest = s.skip(n + 1);
        assert(rest.len() > 0) by {
            if rest.len() == 0 {
                assert(s.last() == s[n]);
            }
        }
        assert(rest.last() == s.last());
        assert(t.skip(n + 1) =~= rest.push('\n'));
        lemma_lines_ended(rest);
    }
}

/// A line does not break.
pub proof fn lemma_lines_do_not_break(s: Seq<char>)
    ensures
        forall|i: int| 0 <= i < lines_of(s).len() ==> !(#[trigger] lines_of(s)[i]).contains('\n'),
    decreases s.len(),
{
    if s.len() > 0 {
        lemma_line_len(s);
        let n = line_len(s) as int;
        if n < s.len() {
            lemma_lines_do_not_break(s.skip(n + 1));
        }
        assert forall|i: int| 0 <= i < lines_of(s).len() implies !(
        #[trigger] lines_of(s)[i]).contains('\n') by {
            if i > 0 {
                assert(lines_of(s)[i] == lines_of(s.skip(n + 1))[i - 1]);
            }
        }
    }
}

/// The first word of a line starts where the line starts, space aside; a line
/// without words is blank.
pub proof fn lemma_first_char(s: Seq<char>, ascii: bool)
    ensures
        words_of(s, ascii).len() == 0 <==> skip_white(s, ascii).len() == 0,
        words_of(s, ascii).len() > 0 ==> words_of(s, ascii)[0].len() > 0 && words_of(s, ascii)[0][0]
            == skip_white(s, ascii)[0],
{
    lemma_skip_white_len(s, ascii);
    let t = skip_white(s, ascii);
    if t.len() > 0 {
        lemma_word_len(t, ascii);
        assert(!separates(t[0], ascii));
        assert(word_len(t, ascii) > 0);
    }
}

/// Words with spaces between them start and end with something visible and do
/// not break.
pub proof fn lemma_spaced_is_plain(words: Seq<Seq<char>>)
    requires
        words.len() > 0,
        forall|i: int| 0 <= i < words.len() ==> is_word(#[trigger] words[i], false),
    ensures
        spaced(words).len() > 0,
        spaced(words)[0] == words[0][0],
        !is_white(spaced(words)[0]),
        !is_white(spaced(words).last()),
        !spaced(words).contains('\n'),
    decreases words.len(),
{
    let w = words[0];
    assert(is_word(w, false));
    if words.len() > 1 {
        let rest = words.skip(1);
        assert forall|i: int| 0 <= i < rest.len() implies is_word(#[trigger] rest[i], false) by {
            assert(rest[i] == words[i + 1]);
        }
        lemma_spaced_is_plain(rest);
        let s = spaced(words);
        assert(s.last() == spaced(rest).last());
        if s.contains('\n') {
            let i = choose|i: int| 0 <= i < s.len() && s[i] == '\n';
            if i < w.len() {
                assert(!separates(w[i], false));
            } else if i > w.len() {
                assert(s[i] == spaced(rest)[i - w.len() - 1]);
            }
        }
    } else {
        if w.contains('\n') {
            let i = choose|i: int| 0 <= i < w.len() && w[i] == '\n';
            assert(!separates(w[i], false));
        }
        assert(!separates(w[0], false));
        assert(!separates(w[w.len() - 1], false));
    }
}

/// A text that starts and ends with something visible needs no trimming.
pub proof fn lemma_trimmed_self(s: Seq<char>)
    requires
        s.len() > 0,
        !is_white(s[0]),
        !is_white(s.last()),
    ensures
        trimmed(s) == s,
{
}

// ── Parts ──────────────────────────────────────────────────────────────────
/// The number of characters before the first `c`.
pub open spec fn before(s: Seq<char>, c: char) -> nat
    decreases s.len(),
{
    if s.len() == 0 || s[0] == c {
        0
    } else {
        1 + before(s.skip(1), c)
    }
}

/// The number of characters before the first `c` is where the first `c` is.
pub proof fn lemma_before(s: Seq<char>, c: char)
    ensures
        before(s, c) <= s.len(),
        forall|i: int| 0 <= i < before(s, c) ==> s[i] != c,
        before(s, c) < s.len() ==> s[before(s, c) as int] == c,
    decreases s.len(),
{
    if s.len() > 0 && s[0] != c {
        lemma_before(s.skip(1), c);
        assert forall|i: int| 0 <= i < before(s, c) implies s[i] != c by {
            if i > 0 {
                assert(s.skip(1)[i - 1] == s[i]);
            }
        }
        if before(s, c) < s.len() {
            assert(s.skip(1)[before(s, c) - 1] == s[before(s, c) as int]);
        }
    }
}

/// The number of characters before the first `c`.
pub fn find(chars: &[char], c: char) -> (r: usize)
    ensures
        r == before(chars@, c),
        r <= chars@.len(),
{
    let mut i: usize = 0;
    assert(chars@.skip(0) =~= chars@);
    while i < chars.len() && chars[i] != c
        invariant
            i <= chars.len(),
            before(chars@, c) == i + before(chars@.skip(i as int), c),
        decreases chars.len() - i,
    {
        assert(chars@.skip(i as int).skip(1) =~= chars@.skip(i + 1));
        i = i + 1;
    }
    i
}

/// The parts of a text between the occurrences of `c`: one more than there are
/// occurrences.
pub open spec fn split_of(s: Seq<char>, c: char) -> Seq<Seq<char>>
    decreases s.len(),
{
    let n = before(s, c) as int;
    if n >= s.len() {
        seq![s]
    } else {
        seq![s.take(n)] + split_of(s.skip(n + 1), c)
    }
}

/// The parts of a text between the occurrences of `c`.
pub fn split(chars: &[char], c: char) -> (r: Vec<Vec<char>>)
    ensures
        texts(r@) == split_of(chars@, c),
        r@.len() >= 1,
{
    let mut out: Vec<Vec<char>> = Vec::new();
    let mut at: usize = 0;
    assert(chars@.skip(0) =~= chars@);
    assert(texts(out@) + split_of(chars@, c) =~= split_of(chars@, c));
    loop
        invariant
            at <= chars@.len(),
            texts(out@) + split_of(chars@.skip(at as int), c) == split_of(chars@, c),
        decreases chars@.len() - at,
    {
        let rest = vstd::slice::slice_subrange(chars, at, chars.len());
        let ghost rv = chars@.skip(at as int);
        assert(rest@ =~= rv);
        let n: usize = find(rest, c);
        let ghost held = texts(out@);
        out.push(copy_range(rest, 0, n));
        assert(rest@.subrange(0, n as int) =~= rv.take(n as int));
        if n == rest.len() {
            assert(rv.take(n as int) =~= rv);
            assert(texts(out@) =~= held + split_of(rv, c));
            return out;
        }
        proof {
            assert(rv.skip(n + 1) =~= chars@.skip(at + n + 1));
            assert(texts(out@) =~= held.push(rv.take(n as int)));
            assert(texts(out@) + split_of(rv.skip(n + 1), c) =~= held + split_of(rv, c));
        }
        at = at + n + 1;
    }
}

/// Whether `needle` stands somewhere in `s`.
pub open spec fn holds(s: Seq<char>, needle: Seq<char>) -> bool {
    exists|i: int|
        0 <= i <= s.len() - needle.len() && #[trigger] s.subrange(i, i + needle.len()) == needle
}

/// Whether `needle` stands somewhere in `chars`.
pub fn contains(chars: &[char], needle: &[char]) -> (r: bool)
    ensures
        r == holds(chars@, needle@),
{
    if needle.len() > chars.len() {
        return false;
    }
    let mut i: usize = 0;
    while i <= chars.len() - needle.len()
        invariant
            needle@.len() <= chars@.len(),
            i <= chars@.len() - needle@.len() + 1,
            forall|k: int|
                0 <= k < i ==> #[trigger] chars@.subrange(k, k + needle@.len()) != needle@,
        decreases chars.len() - needle.len() + 1 - i,
    {
        let part = vstd::slice::slice_subrange(chars, i, i + needle.len());
        if chars_eq(part, needle) {
            assert(chars@.subrange(i as int, i + needle@.len()) == needle@);
            return true;
        }
        if i == chars.len() - needle.len() {
            return false;
        }
        i = i + 1;
    }
    false
}

/// Where `needle`, which is not empty, first stands in `s`, or the length of `s`.
pub open spec fn index_of(s: Seq<char>, needle: Seq<char>) -> nat
    decreases s.len(),
{
    if s.len() == 0 || s.len() < needle.len() {
        s.len()
    } else if s.take(needle.len() as int) == needle {
        0
    } else {
        1 + index_of(s.skip(1), needle)
    }
}

/// Where a needle stands is inside the text.
pub proof fn lemma_index_of(s: Seq<char>, needle: Seq<char>)
    requires
        needle.len() > 0,
    ensures
        index_of(s, needle) <= s.len(),
        index_of(s, needle) < s.len() ==> index_of(s, needle) + needle.len() <= s.len(),
        index_of(s, needle) < s.len() ==> holds(s, needle),
    decreases s.len(),
{
    if s.len() == 0 || s.len() < needle.len() {
    } else if s.take(needle.len() as int) == needle {
        assert(s.subrange(0, 0int + needle.len()) =~= needle);
    } else {
        let t = s.skip(1);
        lemma_index_of(t, needle);
        if index_of(t, needle) < t.len() {
            let i = choose|i: int|
                0 <= i <= t.len() - needle.len() && #[trigger] t.subrange(i, i + needle.len())
                    == needle;
            assert(s.subrange(i + 1, i + 1 + needle.len()) =~= t.subrange(i, i + needle.len()));
        }
    }
}

/// Where `needle` first stands in `chars`, or their number.
pub fn find_text(chars: &[char], needle: &[char]) -> (r: usize)
    requires
        needle@.len() > 0,
    ensures
        r == index_of(chars@, needle@),
        r <= chars@.len(),
        r < chars@.len() ==> r + needle@.len() <= chars@.len(),
{
    let mut i: usize = 0;
    assert(chars@.skip(0) =~= chars@);
    while i < chars.len() && chars.len() - i >= needle.len()
        invariant
            i <= chars.len(),
            needle@.len() > 0,
            index_of(chars@, needle@) == i + index_of(chars@.skip(i as int), needle@),
        decreases chars.len() - i,
    {
        let part = vstd::slice::slice_subrange(chars, i, i + needle.len());
        assert(part@ =~= chars@.skip(i as int).take(needle@.len() as int));
        if chars_eq(part, needle) {
            return i;
        }
        assert(chars@.skip(i as int).skip(1) =~= chars@.skip(i + 1));
        i = i + 1;
    }
    chars.len()
}

/// The bytes that hex digits write, if they are digits, two per byte.
pub open spec fn hex_bytes_of(s: Seq<u8>, upper: bool) -> Option<Seq<u8>> {
    if s.len() % 2 == 0 && all_hex(s, upper) {
        Some(unhex(s, upper))
    } else {
        None
    }
}

/// The bytes that hex digits write.
pub fn read_hex(s: &[u8], upper: bool) -> (r: Option<Vec<u8>>)
    ensures
        match r {
            Some(b) => hex_bytes_of(s@, upper) == Some(b@),
            None => hex_bytes_of(s@, upper) is None,
        },
{
    if s.len() % 2 != 0 {
        return None;
    }
    let mut out: Vec<u8> = Vec::new();
    let mut i: usize = 0;
    let n: usize = s.len() / 2;
    while i < n
        invariant
            i <= n,
            s@.len() == 2 * n,
            out@.len() == i,
            forall|k: int| 0 <= k < 2 * i ==> nibble_of(#[trigger] s@[k], upper) is Some,
            forall|k: int| 0 <= k < i ==> out@[k] == unhex(s@, upper)[k],
        decreases n - i,
    {
        let (hi, lo): (u8, u8) = match (nibble(s[2 * i], upper), nibble(s[2 * i + 1], upper)) {
            (Some(h), Some(l)) => (h, l),
            _ => {
                assert(nibble_of(s@[2 * i as int], upper) is None || nibble_of(
                    s@[2 * i + 1],
                    upper,
                ) is None);
                return None;
            },
        };
        let v: u8 = 16 * hi + lo;
        out.push(v);
        i = i + 1;
    }
    assert(out@ =~= unhex(s@, upper));
    Some(out)
}

/// A letter in lower case; other characters as they are. Letters are those of
/// ASCII.
pub open spec fn lower(c: char) -> char {
    if 'A' <= c <= 'Z' {
        (c as u32 + 32) as char
    } else {
        c
    }
}

/// Whether two texts are the same but for the case of ASCII letters.
pub open spec fn same_ignoring_case(a: Seq<char>, b: Seq<char>) -> bool {
    a.len() == b.len() && forall|i: int| 0 <= i < a.len() ==> lower(#[trigger] a[i]) == lower(b[i])
}

fn folds_alike(a: char, b: char) -> (r: bool)
    ensures
        r == (lower(a) == lower(b)),
{
    let x: u32 = if 'A' <= a && a <= 'Z' {
        a as u32 + 32
    } else {
        a as u32
    };
    let y: u32 = if 'A' <= b && b <= 'Z' {
        b as u32 + 32
    } else {
        b as u32
    };
    x == y
}

/// Whether two texts are the same but for the case of ASCII letters.
pub fn eq_ignoring_case(a: &str, b: &str) -> (r: bool)
    ensures
        r == same_ignoring_case(a@, b@),
{
    let x = chars_of(a);
    let y = chars_of(b);
    if x.len() != y.len() {
        return false;
    }
    let mut i: usize = 0;
    while i < x.len()
        invariant
            i <= x.len(),
            x@ == a@,
            y@ == b@,
            x@.len() == y@.len(),
            forall|k: int| 0 <= k < i ==> lower(#[trigger] a@[k]) == lower(b@[k]),
        decreases x.len() - i,
    {
        if !folds_alike(x[i], y[i]) {
            assert(lower(a@[i as int]) != lower(b@[i as int]));
            return false;
        }
        i = i + 1;
    }
    true
}

// ── Record files ───────────────────────────────────────────────────────────
/// The lines of a file that hold a record: those that are neither blank nor a
/// comment, trimmed, with their numbers counted from one.
pub open spec fn records_of(lines: Seq<Seq<char>>) -> Seq<(int, Seq<char>)>
    decreases lines.len(),
{
    if lines.len() == 0 {
        Seq::empty()
    } else {
        let rest = records_of(lines.drop_last());
        let t = trimmed(lines.last());
        if t.len() == 0 || t[0] == '#' {
            rest
        } else {
            rest.push((lines.len() as int, t))
        }
    }
}

/// The contents of a list of numbered lines.
pub open spec fn numbered(v: Seq<(usize, Vec<char>)>) -> Seq<(int, Seq<char>)> {
    Seq::new(v.len(), |i: int| (v[i].0 as int, v[i].1@))
}

/// The lines of a file that hold a record.
pub fn record_lines(file: &str) -> (r: Vec<(usize, Vec<char>)>)
    ensures
        numbered(r@) == records_of(lines_of(file@)),
{
    let chars = chars_of(file);
    let all = lines(chars.as_slice());
    let mut out: Vec<(usize, Vec<char>)> = Vec::new();
    let mut i: usize = 0;
    assert(texts(all@).take(0) =~= Seq::<Seq<char>>::empty());
    assert(numbered(out@) =~= Seq::<(int, Seq<char>)>::empty());
    while i < all.len()
        invariant
            i <= all.len(),
            numbered(out@) == records_of(texts(all@).take(i as int)),
        decreases all.len() - i,
    {
        let t = trim(all[i].as_slice());
        let ghost held = numbered(out@);
        assert(texts(all@).take(i + 1).drop_last() =~= texts(all@).take(i as int));
        assert(texts(all@)[i as int] == all@[i as int]@);
        if !(t.len() == 0 || t[0] == '#') {
            let ghost tv = t@;
            out.push((i + 1, t));
            assert(numbered(out@) =~= held.push((i + 1, tv)));
        }
        i = i + 1;
    }
    assert(texts(all@).take(i as int) =~= texts(all@));
    out
}

// ── Laws ───────────────────────────────────────────────────────────────────
/// Where a needle is found it stands, and nowhere before; where it is not found
/// it stands nowhere.
pub proof fn law_index_is_the_first(s: Seq<char>, needle: Seq<char>)
    requires
        needle.len() > 0,
    ensures
        index_of(s, needle) < s.len() ==> s.subrange(
            index_of(s, needle) as int,
            (index_of(s, needle) + needle.len()) as int,
        ) == needle,
        forall|i: int|
            0 <= i < index_of(s, needle) && i + needle.len() <= s.len() ==> #[trigger] s.subrange(
                i,
                i + needle.len(),
            ) != needle,
        index_of(s, needle) < s.len() <==> holds(s, needle),
    decreases s.len(),
{
    lemma_index_of(s, needle);
    if s.len() == 0 || s.len() < needle.len() {
    } else if s.take(needle.len() as int) == needle {
        assert(s.subrange(0, 0int + needle.len()) =~= needle);
    } else {
        let t = s.skip(1);
        law_index_is_the_first(t, needle);
        lemma_index_of(t, needle);
        let n = index_of(t, needle) as int;
        if n < t.len() {
            assert(s.subrange(n + 1, n + 1 + needle.len()) =~= t.subrange(n, n + needle.len()));
        }
        assert forall|i: int|
            0 <= i < index_of(s, needle) && i + needle.len() <= s.len() implies #[trigger] s.subrange(
            i,
            i + needle.len(),
        ) != needle by {
            if i == 0 {
                assert(s.subrange(0, 0int + needle.len()) =~= s.take(needle.len() as int));
            } else {
                assert(s.subrange(i, i + needle.len()) =~= t.subrange(
                    i - 1,
                    i - 1 + needle.len(),
                ));
            }
        }
        if holds(s, needle) {
            let i = choose|i: int|
                0 <= i <= s.len() - needle.len() && #[trigger] s.subrange(i, i + needle.len())
                    == needle;
            if i == 0 {
                assert(s.subrange(0, 0int + needle.len()) =~= s.take(needle.len() as int));
            } else {
                assert(t.subrange(i - 1, i - 1 + needle.len()) =~= s.subrange(
                    i,
                    i + needle.len(),
                ));
                assert(holds(t, needle));
            }
        }
    }
}

/// A doubled character is looked for behind a text that does not hold it and does
/// not end in half of it as if the text were not there.
pub proof fn lemma_index_behind(p: Seq<char>, t: Seq<char>, c: char)
    requires
        !holds(p, seq![c, c]),
        p.len() > 0 && t.len() > 0 ==> !(p.last() == c && t[0] == c),
    ensures
        index_of(p + t, seq![c, c]) == p.len() + index_of(t, seq![c, c]),
    decreases p.len(),
{
    let needle = seq![c, c];
    let s = p + t;
    if p.len() == 0 {
        assert(s =~= t);
    } else if s.len() >= 2 {
        if s.take(2) == needle {
            assert(s.take(2)[0] == c && s.take(2)[1] == c);
            if p.len() >= 2 {
                assert(p.subrange(0, 0int + needle.len()) =~= needle);
            }
        }
        let q = p.skip(1);
        if holds(q, needle) {
            let i = choose|i: int|
                0 <= i <= q.len() - needle.len() && #[trigger] q.subrange(i, i + needle.len())
                    == needle;
            assert(p.subrange(i + 1, i + 1 + needle.len()) =~= needle);
        }
        assert(s.skip(1) =~= q + t);
        lemma_index_behind(q, t, c);
    } else {
        assert(t.len() == 0);
    }
}

/// A text is split at each separator: what stands before the first is the first
/// part, and a text without one is a single part.
pub proof fn law_split_at_the_first(a: Seq<char>, c: char, rest: Seq<char>)
    requires
        !a.contains(c),
    ensures
        split_of(a, c) == seq![a],
        split_of(a + seq![c] + rest, c) == seq![a] + split_of(rest, c),
{
    let s = a + seq![c] + rest;
    lemma_before(a, c);
    if before(a, c) < a.len() {
        assert(a.contains(a[before(a, c) as int]));
    }
    lemma_before(s, c);
    let n = before(s, c) as int;
    if n < a.len() {
        assert(s[n] == a[n]);
        assert(a.contains(a[n]));
    }
    assert(s[a.len() as int] == c);
    assert(n == a.len());
    assert(s.take(n) =~= a);
    assert(s.skip(n + 1) =~= rest);
}

/// Trimming takes the whitespace at both ends and nothing else.
pub proof fn law_trim_takes_whitespace(left: Seq<char>, s: Seq<char>, right: Seq<char>)
    requires
        forall|i: int| 0 <= i < left.len() ==> is_white(#[trigger] left[i]),
        forall|i: int| 0 <= i < right.len() ==> is_white(#[trigger] right[i]),
        s.len() > 0 ==> !is_white(s[0]) && !is_white(s.last()),
    ensures
        trimmed(left + s + right) == s,
    decreases left.len() + right.len(),
{
    let t = left + s + right;
    if left.len() > 0 {
        assert(is_white(left[0]));
        assert(t[0] == left[0]);
        let less = left.skip(1);
        assert forall|i: int| 0 <= i < less.len() implies is_white(#[trigger] less[i]) by {
            assert(less[i] == left[i + 1]);
        }
        law_trim_takes_whitespace(less, s, right);
        assert(t.skip(1) =~= less + s + right);
    } else if s.len() == 0 {
        if right.len() > 0 {
            let less = right.skip(1);
            assert(is_white(right[0]));
            assert(t[0] == right[0]);
            assert forall|i: int| 0 <= i < less.len() implies is_white(#[trigger] less[i]) by {
                assert(less[i] == right[i + 1]);
            }
            law_trim_takes_whitespace(left, s, less);
            assert(t.skip(1) =~= left + s + less);
        } else {
            assert(t =~= s);
        }
    } else {
        assert(t[0] == s[0]);
        assert(skip_white(t, false) == t);
        lemma_drop_white(s, right);
        assert(t =~= s + right);
    }
}

proof fn lemma_drop_white(s: Seq<char>, right: Seq<char>)
    requires
        forall|i: int| 0 <= i < right.len() ==> is_white(#[trigger] right[i]),
        s.len() > 0,
        !is_white(s.last()),
    ensures
        drop_white(s + right, false) == s,
    decreases right.len(),
{
    let t = s + right;
    if right.len() == 0 {
        assert(t =~= s);
    } else {
        assert(is_white(right[right.len() - 1]));
        assert(t.last() == right.last());
        assert(t.drop_last() =~= s + right.drop_last());
        assert forall|i: int| 0 <= i < right.drop_last().len() implies is_white(
            #[trigger] right.drop_last()[i],
        ) by {
            assert(right.drop_last()[i] == right[i]);
        }
        lemma_drop_white(s, right.drop_last());
    }
}

/// Lines end at line feeds: what stands before the first is the first line,
/// without a carriage return at its end; a text without one is a single line.
pub proof fn law_lines_end_at_line_feeds(line: Seq<char>, rest: Seq<char>)
    requires
        !line.contains('\n'),
    ensures
        line.len() > 0 ==> lines_of(line) == seq![line],
        lines_of(line + seq!['\n'] + rest) == seq![
            if line.len() > 0 && line.last() == '\r' {
                line.drop_last()
            } else {
                line
            },
        ] + lines_of(rest),
{
    lemma_line_len(line);
    if line_len(line) < line.len() {
        assert(line.contains(line[line_len(line) as int]));
    }
    lemma_one_line(line);
    assert(line + seq!['\n'] =~= line.push('\n'));
    lemma_lines_concat(line.push('\n'), rest);
}

/// Digits weigh by their place: the number that digits write is that of the first
/// of them, moved left by as many places as there are others, and that of the
/// others.
pub proof fn law_digits_weigh_by_place(a: Seq<char>, b: Seq<char>)
    ensures
        number_of(Seq::empty()) == 0,
        number_of(a + b) == number_of(a) * vstd::arithmetic::power::pow(10, b.len()) + number_of(b),
    decreases b.len(),
{
    vstd::arithmetic::power::lemma_pow0(10);
    if b.len() == 0 {
        assert(a + b =~= a);
        assert(number_of(a) * 1 == number_of(a)) by (nonlinear_arith);
    } else {
        let less = b.drop_last();
        assert((a + b).drop_last() =~= a + less);
        assert((a + b).last() == b.last());
        law_digits_weigh_by_place(a, less);
        let p = vstd::arithmetic::power::pow(10, less.len());
        reveal(vstd::arithmetic::power::pow);
        assert(vstd::arithmetic::power::pow(10, b.len()) == 10 * p);
        let (x, y) = (number_of(a) as int, number_of(less) as int);
        assert(10 * (x * p + y) == x * (10 * p) + 10 * y) by (nonlinear_arith);
    }
}

/// Every line that is neither blank nor a comment is a record, under its number,
/// and no other line is; records keep the order of their lines.
pub proof fn law_records_are_the_lines_that_say_something(lines: Seq<Seq<char>>) -> (order: Seq<
    int,
>)
    ensures
        order.len() == records_of(lines).len(),
        forall|k: int|
            0 <= k < order.len() ==> 0 <= #[trigger] order[k] < lines.len() && records_of(lines)[k]
                == (order[k] + 1, trimmed(lines[order[k]])),
        forall|k: int, l: int| 0 <= k < l < order.len() ==> order[k] < order[l],
        forall|i: int|
            0 <= i < lines.len() ==> (order.contains(i) <==> trimmed(#[trigger] lines[i]).len() > 0
                && trimmed(lines[i])[0] != '#'),
    decreases lines.len(),
{
    if lines.len() == 0 {
        Seq::empty()
    } else {
        let n = lines.len() - 1;
        let less = lines.drop_last();
        let before = law_records_are_the_lines_that_say_something(less);
        let t = trimmed(lines[n]);
        let says = t.len() > 0 && t[0] != '#';
        let order = if says {
            before.push(n)
        } else {
            before
        };
        assert forall|k: int| 0 <= k < order.len() implies 0 <= #[trigger] order[k] < lines.len()
            && records_of(lines)[k] == (order[k] + 1, trimmed(lines[order[k]])) by {
            if k < before.len() {
                assert(order[k] == before[k]);
                assert(records_of(lines)[k] == records_of(less)[k]);
                assert(less[order[k]] == lines[order[k]]);
            }
        }
        assert(!before.contains(n));
        assert forall|i: int| 0 <= i < lines.len() implies (order.contains(i) <==> trimmed(
            #[trigger] lines[i],
        ).len() > 0 && trimmed(lines[i])[0] != '#') by {
            if i < n {
                assert(less[i] == lines[i]);
            }
            if before.contains(i) {
                let k = choose|k: int| 0 <= k < before.len() && before[k] == i;
                assert(order[k] == i);
            }
            if says && i == n {
                assert(order[before.len() as int] == i);
            }
        }
        order
    }
}

/// A written number is made of digits and is the number.
pub proof fn lemma_decimal_digits(n: nat)
    ensures
        decimal_of(n).len() > 0,
        all_digits(decimal_of(n)),
        number_of(decimal_of(n)) == n,
{
    lemma_decimal(n);
}

/// A number is its digits, with or without a plus sign, up to the limit; with a
/// minus sign it is negative. Anything else among the digits makes it none.
pub proof fn law_numbers_are_digits(d: Seq<char>, min: int, max: nat, i: int)
    requires
        0 <= i < d.len(),
    ensures
        (forall|k: int| 0 <= k < d.len() ==> '0' <= #[trigger] d[k] <= '9') ==> {
            &&& number_of(d) <= max ==> unsigned_of(d, max) == Some(number_of(d))
            &&& number_of(d) <= max ==> unsigned_of(seq!['+'] + d, max) == Some(number_of(d))
            &&& number_of(d) > max ==> unsigned_of(d, max) is None
            &&& number_of(d) > max ==> unsigned_of(seq!['+'] + d, max) is None
            &&& -number_of(d) >= min ==> signed_of(seq!['-'] + d, min, max as int) == Some(
                -number_of(d),
            )
            &&& -number_of(d) < min ==> signed_of(seq!['-'] + d, min, max as int) is None
            &&& number_of(d) <= max ==> signed_of(d, min, max as int) == Some(
                number_of(d) as int,
            )
        },
        !('0' <= d[i] <= '9') && (i > 0 || d[0] != '+') ==> unsigned_of(d, max) is None,
        !('0' <= d[i] <= '9') && (i > 0 || (d[0] != '+' && d[0] != '-')) ==> signed_of(
            d,
            min,
            max as int,
        ) is None,
        unsigned_of(seq!['-'] + d, max) is None,
        unsigned_of(Seq::empty(), max) is None,
        signed_of(Seq::empty(), min, max as int) is None,
        unsigned_of(seq!['+'], max) is None,
        signed_of(seq!['-'], min, max as int) is None,
{
    let (plus, minus) = (seq!['+'] + d, seq!['-'] + d);
    assert(plus.skip(1) =~= d);
    assert(minus.skip(1) =~= d);
    assert(seq!['+'].skip(1).len() == 0);
    assert(seq!['-'].skip(1).len() == 0);
    if forall|k: int| 0 <= k < d.len() ==> '0' <= #[trigger] d[k] <= '9' {
        assert forall|k: int| 0 <= k < d.len() implies is_digit(#[trigger] d[k]) by {}
        assert(all_digits(d));
        assert('0' <= d[0] <= '9');
    }
    if !('0' <= d[i] <= '9') {
        assert(!is_digit(d[i]));
        if i > 0 {
            assert(d.skip(1)[i - 1] == d[i]);
        }
    }
    assert(!is_digit(minus[0]));
}

/// Two texts are the same but for case exactly if they match letter for letter,
/// where a capital matches its small letter.
pub proof fn law_case_is_ignored(a: Seq<char>, b: Seq<char>)
    ensures
        same_ignoring_case(a, b) <==> a.len() == b.len() && forall|i: int|
            #![trigger a[i]]
            0 <= i < a.len() ==> a[i] == b[i] || ('A' <= a[i] <= 'Z' && b[i] as u32 == a[i] as u32
                + 32) || ('A' <= b[i] <= 'Z' && a[i] as u32 == b[i] as u32 + 32),
{
    if a.len() == b.len() {
        assert forall|i: int| 0 <= i < a.len() implies ((lower(#[trigger] a[i]) == lower(b[i]))
            <==> (a[i] == b[i] || ('A' <= a[i] <= 'Z' && b[i] as u32 == a[i] as u32 + 32) || ('A'
            <= b[i] <= 'Z' && a[i] as u32 == b[i] as u32 + 32))) by {
            lemma_lower(a[i]);
            lemma_lower(b[i]);
        }
        if same_ignoring_case(a, b) {
            assert forall|i: int|
                #![trigger a[i]]
                0 <= i < a.len() implies (a[i] == b[i] || ('A' <= a[i] <= 'Z' && b[i] as u32
                == a[i] as u32 + 32) || ('A' <= b[i] <= 'Z' && a[i] as u32 == b[i] as u32 + 32)) by {
                assert(lower(a[i]) == lower(b[i]));
            }
        }
    }
}

proof fn lemma_lower(c: char)
    ensures
        'A' <= c <= 'Z' ==> lower(c) as u32 == c as u32 + 32,
        !('A' <= c <= 'Z') ==> lower(c) == c,
{
}

/// The hex digits are the decimal ones and the letters to `f`, and their capitals
/// where those are taken.
pub proof fn law_hex_digits_are_these(b: u8)
    ensures
        0x30 <= b <= 0x39 ==> nibble_of(b, true) == Some(b - 0x30) && nibble_of(b, false) == Some(
            b - 0x30,
        ),
        0x61 <= b <= 0x66 ==> nibble_of(b, true) == Some(b - 0x57) && nibble_of(b, false) == Some(
            b - 0x57,
        ),
        0x41 <= b <= 0x46 ==> nibble_of(b, true) == Some(b - 0x37) && nibble_of(b, false) is None,
        !(0x30 <= b <= 0x39) && !(0x61 <= b <= 0x66) && !(0x41 <= b <= 0x46) ==> nibble_of(b, true)
            is None && nibble_of(b, false) is None,
{
}

/// Hex is read two digits at a time, the higher first.
pub proof fn law_hex_is_read_in_pairs(s: Seq<u8>, upper: bool, i: int)
    requires
        hex_bytes_of(s, upper) is Some,
        0 <= i < s.len() / 2,
    ensures
        s.len() == 2 * hex_bytes_of(s, upper)->0.len(),
        nibble_of(s[2 * i], upper) is Some,
        nibble_of(s[2 * i + 1], upper) is Some,
        hex_bytes_of(s, upper)->0[i] == 16 * nibble_of(s[2 * i], upper)->0 + nibble_of(
            s[2 * i + 1],
            upper,
        )->0,
{
    let (x, y) = (s[2 * i], s[2 * i + 1]);
    assert(nibble_of(x, upper) is Some && nibble_of(y, upper) is Some);
    assert(0 <= 16 * nibble_of(x, upper)->0 + nibble_of(y, upper)->0 < 256);
}

/// A decimal holds no comma.
pub proof fn lemma_decimal_is_plain(n: nat)
    ensures
        !decimal_of(n).contains(','),
{
    lemma_decimal_digits(n);
    let d = decimal_of(n);
    if d.contains(',') {
        let i = choose|i: int| 0 <= i < d.len() && d[i] == ',';
        assert(is_digit(d[i]));
    }
}

/// Hex that cannot be read as 32 bytes is refused for its length, else for the
/// first byte that is no digit.
pub proof fn law_first_bad_digit_is_named(good: Seq<u8>, bad: u8, rest: Seq<u8>, upper: bool)
    requires
        forall|i: int| 0 <= i < good.len() ==> nibble_of(#[trigger] good[i], upper) is Some,
        nibble_of(bad, upper) is None,
        good.len() + 1 + rest.len() <= usize::MAX,
    ensures
        ({
            let s = good + seq![bad] + rest;
            &&& s.len() == 64 ==> hex32_of(s, upper) == Err::<Seq<u8>, HexError>(
                HexError::NonHex(bad),
            )
            &&& s.len() != 64 ==> hex32_of(s, upper) == Err::<Seq<u8>, HexError>(
                HexError::Length(s.len() as usize),
            )
        }),
        good.len() == 64 ==> hex32_of(good, upper) is Ok,
{
    let s = good + seq![bad] + rest;
    let n = good.len() as int;
    assert(s[n] == bad);
    assert forall|i: int| 0 <= i < n implies nibble_of(#[trigger] s[i], upper) is Some by {
        assert(s[i] == good[i]);
    }
    lemma_first_non_hex(s, upper, n);
}

/// Digits that write too much are too large; anything else among them is a wrong
/// digit, unless what stands before it is too large already.
pub proof fn law_number_is_refused_for_its_fault(
    digits: Seq<char>,
    bad: char,
    rest: Seq<char>,
    max: nat,
)
    requires
        digits.len() > 0,
        forall|i: int| 0 <= i < digits.len() ==> '0' <= #[trigger] digits[i] <= '9',
        !('0' <= bad <= '9'),
    ensures
        number_of(digits) > max ==> unsigned_in(digits, max) == Err::<nat, NumberError>(
            NumberError::TooLarge,
        ),
        number_of(digits) <= max ==> unsigned_in(digits, max) == Ok::<nat, NumberError>(
            number_of(digits),
        ),
        unsigned_in(digits + seq![bad] + rest, max) == Err::<nat, NumberError>(
            if number_of(digits) > max {
                NumberError::TooLarge
            } else {
                NumberError::InvalidDigit
            },
        ),
        unsigned_in(Seq::empty(), max) == Err::<nat, NumberError>(NumberError::Empty),
{
    let all = digits + seq![bad] + rest;
    let n = digits.len() as int;
    assert forall|i: int| 0 <= i < n implies is_digit(#[trigger] digits[i]) by {}
    assert(all_digits(digits));
    assert forall|i: int| 0 <= i < n implies is_digit(#[trigger] all[i]) by {
        assert(all[i] == digits[i]);
    }
    assert(all[n] == bad && !is_digit(all[n]));
    lemma_leading_digits(all, n);
    lemma_leading_digits(digits, n);
    assert(all.take(n) =~= digits);
    assert(digits.take(n) =~= digits);
    assert('0' <= digits[0] <= '9');
    assert(all[0] == digits[0]);
}

} // verus!
