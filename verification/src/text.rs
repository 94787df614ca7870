//! Characters and scanning: the character classes of the grammar, runs of
//! characters of one class, and literal tokens at a position.
//!
//! A text is modelled as the sequence of its characters (`Seq<char>`), and a
//! position is an index into that sequence. Every scanner starts at a position
//! and says where it stopped.

use vstd::prelude::*;

verus! {

/// Blank characters: space, tab, carriage return and line feed.
pub open spec fn is_blank(c: char) -> bool {
    c == ' ' || c == '\t' || c == '\r' || c == '\n'
}

/// ASCII letters and digits.
pub open spec fn is_ascii_alphanumeric(c: char) -> bool {
    ('0' <= c && c <= '9') || ('A' <= c && c <= 'Z') || ('a' <= c && c <= 'z')
}

/// Whether the standard library classes `c` as alphanumeric. The library
/// consults this only for characters outside ASCII, and relies on nothing but
/// its being a fixed property of the character.
pub uninterp spec fn unicode_alphanumeric(c: char) -> bool;

/// Characters of a name: the underscore, ASCII letters and digits, and the
/// characters outside ASCII that the standard library classes as alphanumeric.
pub open spec fn is_name_char(c: char) -> bool {
    c == '_' || is_ascii_alphanumeric(c) || (c > '\x7f' && unicode_alphanumeric(c))
}

/// The upper-case form of an ASCII letter; every other character is itself.
pub open spec fn ascii_upper(c: char) -> char {
    if 'a' <= c && c <= 'z' {
        ((c as u8) - 32) as u8 as char
    } else {
        c
    }
}

/// The lower-case form of an ASCII letter; every other character is itself.
pub open spec fn ascii_lower(c: char) -> char {
    if 'A' <= c && c <= 'Z' {
        ((c as u8) + 32) as u8 as char
    } else {
        c
    }
}

/// `s` with every ASCII letter in upper case.
pub open spec fn upper(s: Seq<char>) -> Seq<char> {
    Seq::new(s.len(), |i: int| ascii_upper(s[i]))
}

/// Whether every character of `s` is an ASCII character.
pub open spec fn is_ascii_text(s: Seq<char>) -> bool {
    forall|i: int| 0 <= i < s.len() ==> #[trigger] s[i] <= '\x7f'
}

/// The upper-case form that the standard library gives to the text `s`. The
/// library consults this only for texts with a character outside ASCII, and
/// relies on nothing but its being a fixed property of the text.
pub uninterp spec fn unicode_upper(s: Seq<char>) -> Seq<char>;

/// `s` in upper case: an ASCII text with its letters in upper case, any other
/// text in the upper-case form that the standard library gives it.
pub open spec fn folded(s: Seq<char>) -> Seq<char> {
    if is_ascii_text(s) {
        upper(s)
    } else {
        unicode_upper(s)
    }
}

/// `s` with every ASCII letter in lower case.
pub open spec fn lower(s: Seq<char>) -> Seq<char> {
    Seq::new(s.len(), |i: int| ascii_lower(s[i]))
}

/// The classes of characters that the grammar scans runs of.
#[derive(Clone, Copy, Debug, PartialEq, Eq, Structural)]
pub enum CharClass {
    /// Blank characters.
    Blank,
    /// Characters of a name.
    Name,
    /// Anything but a square bracket: the text inside a bracketed type tag.
    TagText,
    /// Anything but a double quote: the text of a quoted string.
    Quoted,
}

impl CharClass {
    /// Whether `c` belongs to the class.
    pub open spec fn holds(self, c: char) -> bool {
        match self {
            CharClass::Blank => is_blank(c),
            CharClass::Name => is_name_char(c),
            CharClass::TagText => c != '[' && c != ']',
            CharClass::Quoted => c != '"',
        }
    }

    /// Whether `c` belongs to the class.
    pub fn contains(self, c: char) -> (b: bool)
        ensures
            b == self.holds(c),
    {
        match self {
            CharClass::Blank => c == ' ' || c == '\t' || c == '\r' || c == '\n',
            CharClass::Name => name_char(c),
            CharClass::TagText => c != '[' && c != ']',
            CharClass::Quoted => c != '"',
        }
    }
}

/// Calls `char::is_alphanumeric` of the standard library. Nothing is claimed of
/// the answer but that it depends on the character alone.
#[verifier::external_body]
fn std_alphanumeric(c: char) -> (b: bool)
    ensures
        b == unicode_alphanumeric(c),
{
    c.is_alphanumeric()
}

/// Calls `str::to_uppercase` of the standard library. Nothing is claimed of
/// the answer but that it depends on the text alone.
#[verifier::external_body]
fn std_uppercase(s: &str) -> (r: String)
    ensures
        r@ == unicode_upper(s@),
{
    s.to_uppercase()
}

/// Whether `c` may stand in a name.
pub fn name_char(c: char) -> (b: bool)
    ensures
        b == is_name_char(c),
{
    if c == '_' {
        true
    } else if c <= '\x7f' {
        (c >= '0' && c <= '9') || (c >= 'A' && c <= 'Z') || (c >= 'a' && c <= 'z')
    } else {
        std_alphanumeric(c)
    }
}

/// The upper-case form of an ASCII letter; every other character unchanged.
pub fn to_ascii_upper(c: char) -> (r: char)
    ensures
        r == ascii_upper(c),
{
    if c >= 'a' && c <= 'z' {
        ((c as u8) - 32u8) as char
    } else {
        c
    }
}

/// Where the run of characters of `class` that starts at `pos` ends: the first
/// position from `pos` on that holds a character outside the class, or the end
/// of the text. A position outside the text ends the run at once.
pub open spec fn run_end(s: Seq<char>, pos: int, class: CharClass) -> int
    decreases s.len() - pos,
{
    if 0 <= pos < s.len() && class.holds(s[pos]) {
        run_end(s, pos + 1, class)
    } else {
        pos
    }
}

/// A run lies inside the text, holds only characters of its class, and stops
/// at the end of the text or before a character outside the class.
pub proof fn lemma_run_end(s: Seq<char>, pos: int, class: CharClass)
    requires
        0 <= pos <= s.len(),
    ensures
        pos <= run_end(s, pos, class) <= s.len(),
        forall|i: int| pos <= i < run_end(s, pos, class) ==> class.holds(#[trigger] s[i]),
        run_end(s, pos, class) < s.len() ==> !class.holds(s[run_end(s, pos, class)]),
    decreases s.len() - pos,
{
    if pos < s.len() && class.holds(s[pos]) {
        lemma_run_end(s, pos + 1, class);
    }
}

/// The end of a run is the only position with the properties of
/// [`lemma_run_end`].
pub proof fn lemma_run_end_unique(s: Seq<char>, pos: int, end: int, class: CharClass)
    requires
        0 <= pos <= end <= s.len(),
        forall|i: int| pos <= i < end ==> class.holds(#[trigger] s[i]),
        end < s.len() ==> !class.holds(s[end]),
    ensures
        run_end(s, pos, class) == end,
    decreases end - pos,
{
    if pos < end {
        lemma_run_end_unique(s, pos + 1, end, class);
    }
}

/// A run depends only on the text from its start on: dropping the first `n`
/// characters moves it by `n`.
pub proof fn lemma_run_end_skip(s: Seq<char>, n: int, pos: int, class: CharClass)
    requires
        0 <= n <= s.len(),
        0 <= pos,
    ensures
        run_end(s, n + pos, class) == n + run_end(s.skip(n), pos, class),
    decreases s.len() - n - pos,
{
    if n + pos < s.len() && class.holds(s[n + pos]) {
        lemma_run_end_skip(s, n, pos + 1, class);
    }
}

/// Whether the characters of `lit` stand in `s` from `pos` on.
pub open spec fn has_literal_at(s: Seq<char>, pos: int, lit: Seq<char>) -> bool {
    0 <= pos && pos + lit.len() <= s.len() && s.subrange(pos, pos + lit.len()) == lit
}

/// Whether `s` holds from `pos` on the characters of `lit`, ASCII letters in
/// either case. `lit` is written in upper case.
pub open spec fn has_keyword_at(s: Seq<char>, pos: int, lit: Seq<char>) -> bool {
    0 <= pos && pos + lit.len() <= s.len() && upper(s.subrange(pos, pos + lit.len())) == lit
}

/// Whether the character `c` stands in `s` at `pos`.
pub open spec fn has_char_at(s: Seq<char>, pos: int, c: char) -> bool {
    0 <= pos < s.len() && s[pos] == c
}

/// What stands at a position depends only on the text from that position
/// on: dropping the first `n` characters moves every token by `n`.
pub proof fn lemma_tokens_skip(s: Seq<char>, n: int, pos: int, lit: Seq<char>, c: char)
    requires
        0 <= n <= s.len(),
        0 <= pos,
    ensures
        has_literal_at(s, n + pos, lit) == has_literal_at(s.skip(n), pos, lit),
        has_keyword_at(s, n + pos, lit) == has_keyword_at(s.skip(n), pos, lit),
        has_char_at(s, n + pos, c) == has_char_at(s.skip(n), pos, c),
{
    if n + pos + lit.len() <= s.len() {
        assert(s.subrange(n + pos, n + pos + lit.len()) =~= s.skip(n).subrange(
            pos,
            pos + lit.len(),
        ));
    }
}

/// A stretch of the text is the same stretch of what is left when the first
/// `n` characters are dropped.
pub proof fn lemma_subrange_skip(s: Seq<char>, n: int, from: int, to: int)
    requires
        0 <= n,
        0 <= from <= to,
        n + to <= s.len(),
    ensures
        s.subrange(n + from, n + to) == s.skip(n).subrange(from, to),
{
    assert(s.subrange(n + from, n + to) =~= s.skip(n).subrange(from, to));
}

/// Joining texts does not depend on how the joins are grouped.
pub proof fn lemma_join_assoc(a: Seq<char>, b: Seq<char>, c: Seq<char>)
    ensures
        (a + b) + c == a + (b + c),
{
    assert((a + b) + c =~= a + (b + c));
}

/// What is left of `head + tail` when the characters of `head` are dropped
/// is `tail`, and the first character of `tail` stands behind `head`.
pub proof fn lemma_skip_join(head: Seq<char>, tail: Seq<char>)
    ensures
        (head + tail).skip(head.len() as int) == tail,
        (head + tail).len() == head.len() + tail.len(),
        tail.len() > 0 ==> (head + tail)[head.len() as int] == tail[0],
{
    assert((head + tail).skip(head.len() as int) =~= tail);
}

/// Scans the run of characters of `class` that starts at `pos`.
pub fn scan(chars: &[char], pos: usize, class: CharClass) -> (end: usize)
    ensures
        end == run_end(chars@, pos as int, class),
{
    let mut i: usize = pos;
    while i < chars.len() && class.contains(chars[i])
        invariant
            pos <= i,
            run_end(chars@, pos as int, class) == run_end(chars@, i as int, class),
        decreases chars@.len() - i,
    {
        i = i + 1;
    }
    i
}

/// Whether `c` stands at `pos`.
pub fn char_at(chars: &[char], pos: usize, c: char) -> (b: bool)
    ensures
        b == has_char_at(chars@, pos as int, c),
{
    pos < chars.len() && chars[pos] == c
}

/// Whether the characters from `from` up to `to`, ASCII letters put in upper
/// case, are those of `lit`.
pub fn range_folds_to(chars: &[char], from: usize, to: usize, lit: &str) -> (b: bool)
    requires
        from <= to <= chars@.len(),
    ensures
        b == (upper(chars@.subrange(from as int, to as int)) == lit@),
{
    let n: usize = lit.unicode_len();
    if to - from != n {
        return false;
    }
    let mut i: usize = 0;
    while i < n
        invariant
            from <= to <= chars@.len(),
            n == lit@.len(),
            to - from == n,
            i <= n,
            forall|j: int| 0 <= j < i ==> ascii_upper(chars@[from + j]) == lit@[j],
        decreases n - i,
    {
        if to_ascii_upper(chars[from + i]) != lit.get_char(i) {
            assert(upper(chars@.subrange(from as int, to as int))[i as int] != lit@[i as int]);
            return false;
        }
        i = i + 1;
    }
    assert(upper(chars@.subrange(from as int, to as int)) =~= lit@);
    true
}

/// Whether the text is `lit`.
pub fn text_is(chars: &[char], lit: &str) -> (b: bool)
    ensures
        b == (chars@ == lit@),
{
    match literal_at(chars, 0, lit) {
        Some(end) => {
            proof {
                if end == chars@.len() {
                    assert(chars@.subrange(0, end as int) =~= chars@);
                }
            }
            end == chars.len()
        },
        None => {
            proof {
                if chars@ == lit@ {
                    assert(chars@.subrange(0, lit@.len() as int) =~= chars@);
                }
            }
            false
        },
    }
}

/// The characters from `from` up to `to` of `input`, in upper case.
pub fn fold(input: &str, chars: &[char], from: usize, to: usize) -> (v: Vec<char>)
    requires
        chars@ == input@,
        from <= to <= chars@.len(),
    ensures
        v@ == folded(chars@.subrange(from as int, to as int)),
{
    let ghost word = chars@.subrange(from as int, to as int);
    let mut v: Vec<char> = Vec::new();
    let mut ascii = true;
    let mut i: usize = from;
    while i < to
        invariant
            from <= i <= to <= chars@.len(),
            word == chars@.subrange(from as int, to as int),
            v@.len() == i - from,
            forall|j: int| 0 <= j < i - from ==> v@[j] == ascii_upper(#[trigger] word[j]),
            ascii == forall|j: int| 0 <= j < i - from ==> #[trigger] word[j] <= '\x7f',
        decreases to - i,
    {
        let c = chars[i];
        assert(c == word[i - from]);
        if c > '\x7f' {
            ascii = false;
        }
        v.push(to_ascii_upper(c));
        i = i + 1;
    }
    if ascii {
        assert(v@ =~= upper(word));
        v
    } else {
        let upper_case = std_uppercase(input.substring_char(from, to));
        chars_of(upper_case.as_str())
    }
}

/// Looks for the characters of `lit` at `pos`, and returns the position
/// behind them if they stand there.
pub fn literal_at(chars: &[char], pos: usize, lit: &str) -> (end: Option<usize>)
    ensures
        end is Some == has_literal_at(chars@, pos as int, lit@),
        end is Some ==> end->0 == pos + lit@.len(),
{
    let n: usize = lit.unicode_len();
    if pos > chars.len() || n > chars.len() - pos {
        return None;
    }
    let mut i: usize = 0;
    while i < n
        invariant
            pos + n <= chars@.len() <= usize::MAX,
            n == lit@.len(),
            i <= n,
            forall|j: int| 0 <= j < i ==> chars@[pos + j] == lit@[j],
        decreases n - i,
    {
        if chars[pos + i] != lit.get_char(i) {
            assert(chars@.subrange(pos as int, pos + n)[i as int] != lit@[i as int]);
            return None;
        }
        i = i + 1;
    }
    assert(chars@.subrange(pos as int, pos + n) =~= lit@);
    Some(pos + n)
}

/// Looks for the characters of `lit` at `pos`, ASCII letters in either case,
/// and returns the position behind them if they stand there. `lit` is written
/// in upper case.
pub fn keyword_at(chars: &[char], pos: usize, lit: &str) -> (end: Option<usize>)
    ensures
        end is Some == has_keyword_at(chars@, pos as int, lit@),
        end is Some ==> end->0 == pos + lit@.len(),
{
    let n: usize = lit.unicode_len();
    if pos > chars.len() || n > chars.len() - pos {
        return None;
    }
    if range_folds_to(chars, pos, pos + n, lit) {
        Some(pos + n)
    } else {
        None
    }
}

/// The characters of `s`, in order.
pub fn chars_of(s: &str) -> (v: Vec<char>)
    ensures
        v@ == s@,
{
    let mut v: Vec<char> = Vec::new();
    for c in it: s.chars()
        invariant
            v@ == it.seq().take(it.index() as int),
            it.seq() == s@,
    {
        v.push(c);
    }
    v
}

} // verus!
