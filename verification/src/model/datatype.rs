//! Data types and the grammar of type tags.
//!
//! A type tag is a word, optionally followed by `[]` for an array, either bare
//! (`string`, `string[]`) or inside one pair of square brackets (`[string]`,
//! `[string[]]`). Blank characters before the tag are skipped.

use crate::error::{answers, fails_at, moved, stops_at, ErrorKind, Outcome, ParseError};
use crate::text::{
    char_at, chars_of, fold, folded, has_char_at, has_literal_at, is_ascii_text, is_name_char,
    lemma_run_end, lemma_run_end_skip, lemma_run_end_unique, lemma_subrange_skip,
    lemma_tokens_skip, literal_at, lower, run_end, scan, text_is, upper, CharClass,
};
use vstd::prelude::*;
use vstd::std_specs::cmp::PartialEqSpecImpl;

verus! {

/// An array of a `DataType`.
#[derive(Eq, Debug)]
pub struct Array(pub Box<DataType>);

/// The type that a declaration gives to a parameter or a variable. Two types
/// are equal if they are of the same kind, and two arrays if their elements
/// are equal.
#[derive(Eq, Debug)]
pub enum DataType {
    String,
    Bool,
    Switch,
    Ui32,
    Ui64,
    I32,
    I64,
    F32,
    F64,
    Credential,
    SecureString,
    /// The tag names no type: its word is empty.
    Undefined,
    /// The tag is well formed, but its word is no keyword.
    Unknown,
    /// An array of the type inside.
    Array(Array),
}

/// The type that a keyword stands for. `word` is in upper case.
pub open spec fn keyword_kind(word: Seq<char>) -> Option<DataType> {
    if word == "STRING"@ {
        Some(DataType::String)
    } else if word == "BOOL"@ {
        Some(DataType::Bool)
    } else if word == "SWITCH"@ {
        Some(DataType::Switch)
    } else if word == "UI32"@ {
        Some(DataType::Ui32)
    } else if word == "UI64"@ {
        Some(DataType::Ui64)
    } else if word == "I32"@ || word == "INT"@ {
        Some(DataType::I32)
    } else if word == "I64"@ {
        Some(DataType::I64)
    } else if word == "F32"@ {
        Some(DataType::F32)
    } else if word == "F64"@ {
        Some(DataType::F64)
    } else if word == "PSCREDENTIAL"@ || word == "CREDENTIAL"@ {
        Some(DataType::Credential)
    } else if word == "SECURESTRING"@ {
        Some(DataType::SecureString)
    } else {
        None
    }
}

/// The type that the word of a tag stands for: `Undefined` for the empty
/// word, the keyword's type for a word that is a keyword when put in upper
/// case, and `Unknown` for every other word.
pub open spec fn resolve(word: Seq<char>) -> DataType {
    if word.len() == 0 {
        DataType::Undefined
    } else {
        match keyword_kind(folded(word)) {
            Some(kind) => kind,
            None => DataType::Unknown,
        }
    }
}

/// The array of `element`.
pub open spec fn array_of(element: DataType) -> DataType {
    DataType::Array(Array(Box::new(element)))
}

/// The grammar of a type tag that starts at `start`: where it ends and the
/// type it denotes, or where and why it is malformed.
///
/// After the blank characters, a `[` opens the bracketed form: its word is
/// everything up to the next square bracket, and `[]]` or `]` must follow.
/// Anything else starts the bare form, which cannot fail: its word is the run
/// of name characters, and `[]` may follow.
pub open spec fn type_tag(s: Seq<char>, start: int) -> Outcome<DataType> {
    let open = run_end(s, start, CharClass::Blank);
    if has_char_at(s, open, '[') {
        let end = run_end(s, open + 1, CharClass::TagText);
        let kind = resolve(s.subrange(open + 1, end));
        if has_literal_at(s, end, "[]]"@) {
            Ok((end + "[]]"@.len(), array_of(kind)))
        } else if has_char_at(s, end, ']') {
            Ok((end + 1, kind))
        } else {
            fails_at(end, ErrorKind::ClosingBracket)
        }
    } else {
        let end = run_end(s, open, CharClass::Name);
        let kind = resolve(s.subrange(open, end));
        if has_literal_at(s, end, "[]"@) {
            Ok((end + "[]"@.len(), array_of(kind)))
        } else {
            Ok((end, kind))
        }
    }
}

/// The type that the keyword `word` stands for, if it is a keyword. `word` is
/// in upper case.
pub fn keyword_of(word: &[char]) -> (kind: Option<DataType>)
    ensures
        kind == keyword_kind(word@),
{
    if text_is(word, "STRING") {
        Some(DataType::String)
    } else if text_is(word, "BOOL") {
        Some(DataType::Bool)
    } else if text_is(word, "SWITCH") {
        Some(DataType::Switch)
    } else if text_is(word, "UI32") {
        Some(DataType::Ui32)
    } else if text_is(word, "UI64") {
        Some(DataType::Ui64)
    } else if text_is(word, "I32") || text_is(word, "INT") {
        Some(DataType::I32)
    } else if text_is(word, "I64") {
        Some(DataType::I64)
    } else if text_is(word, "F32") {
        Some(DataType::F32)
    } else if text_is(word, "F64") {
        Some(DataType::F64)
    } else if text_is(word, "PSCREDENTIAL") || text_is(word, "CREDENTIAL") {
        Some(DataType::Credential)
    } else if text_is(word, "SECURESTRING") {
        Some(DataType::SecureString)
    } else {
        None
    }
}

/// Resolves the word that the characters from `from` up to `to` spell.
pub fn resolve_word(input: &str, chars: &[char], from: usize, to: usize) -> (kind: DataType)
    requires
        chars@ == input@,
        from <= to <= chars@.len(),
    ensures
        kind == resolve(chars@.subrange(from as int, to as int)),
{
    if from == to {
        return DataType::Undefined;
    }
    let word = fold(input, chars, from, to);
    match keyword_of(word.as_slice()) {
        Some(kind) => kind,
        None => DataType::Unknown,
    }
}

/// Parses the type tag that starts at `start`.
pub fn type_tag_at(input: &str, chars: &[char], start: usize) -> (r: Result<
    (usize, DataType),
    ParseError,
>)
    requires
        chars@ == input@,
        start <= chars@.len(),
    ensures
        match type_tag(input@, start as int) {
            Ok((end, kind)) => r == Ok::<_, ParseError>((end as usize, kind)) && start <= end
                <= input@.len(),
            Err(failure) => r matches Err(e) && e@ == failure,
        },
{
    let open = scan(chars, start, CharClass::Blank);
    proof {
        lemma_run_end(chars@, start as int, CharClass::Blank);
    }
    if open < chars.len() && chars[open] == '[' {
        let end = scan(chars, open + 1, CharClass::TagText);
        proof {
            lemma_run_end(chars@, open + 1, CharClass::TagText);
        }
        let kind = resolve_word(input, chars, open + 1, end);
        if let Some(after) = literal_at(chars, end, "[]]") {
            Ok((after, DataType::Array(Array(Box::new(kind)))))
        } else if char_at(chars, end, ']') {
            Ok((end + 1, kind))
        } else {
            Err(ParseError { position: end, kind: ErrorKind::ClosingBracket })
        }
    } else {
        let end = scan(chars, open, CharClass::Name);
        proof {
            lemma_run_end(chars@, open as int, CharClass::Name);
        }
        let kind = resolve_word(input, chars, open, end);
        if let Some(after) = literal_at(chars, end, "[]") {
            Ok((after, DataType::Array(Array(Box::new(kind)))))
        } else {
            Ok((end, kind))
        }
    }
}

/// A tag in square brackets.
pub open spec fn bracketed(tag: Seq<char>) -> Seq<char> {
    seq!['['] + tag + seq![']']
}

/// A word with the mark of an array behind it.
pub open spec fn array_marked(word: Seq<char>) -> Seq<char> {
    word + seq!['[', ']']
}

/// Whether `kind` is one of the types that a keyword stands for.
pub open spec fn is_scalar(kind: DataType) -> bool {
    !(kind is Undefined) && !(kind is Unknown) && !(kind is Array)
}

/// The four ways to write a word. A word of name characters denotes the same
/// type bare and in brackets, and with the array mark the array of that type.
/// The empty word has no bare array form: `[]` is the empty word in brackets.
pub proof fn lemma_tag_forms(word: Seq<char>)
    requires
        forall|i: int| 0 <= i < word.len() ==> is_name_char(#[trigger] word[i]),
    ensures
        ({
            let n = word.len() as int;
            &&& type_tag(word, 0) == stops_at(n, resolve(word))
            &&& type_tag(bracketed(word), 0) == stops_at(n + 2, resolve(word))
            &&& n > 0 ==> type_tag(array_marked(word), 0) == stops_at(
                n + 2,
                array_of(resolve(word)),
            )
            &&& type_tag(bracketed(array_marked(word)), 0) == stops_at(
                n + 4,
                array_of(resolve(word)),
            )
        }),
{
    reveal_strlit("[]");
    reveal_strlit("[]]");
    let n = word.len() as int;
    {
        let s = word;
        lemma_run_end_unique(s, 0, 0, CharClass::Blank);
        lemma_run_end_unique(s, 0, n, CharClass::Name);
        assert(s.subrange(0, n) =~= word);
    }
    {
        let s = bracketed(word);
        lemma_run_end_unique(s, 0, 0, CharClass::Blank);
        assert forall|i: int| 1 <= i < n + 1 implies CharClass::TagText.holds(#[trigger] s[i]) by {
            assert(s[i] == word[i - 1]);
        }
        lemma_run_end_unique(s, 1, n + 1, CharClass::TagText);
        assert(s.subrange(1, n + 1) =~= word);
    }
    if n > 0 {
        let s = array_marked(word);
        assert(s[0] == word[0]);
        lemma_run_end_unique(s, 0, 0, CharClass::Blank);
        assert forall|i: int| 0 <= i < n implies CharClass::Name.holds(#[trigger] s[i]) by {
            assert(s[i] == word[i]);
        }
        lemma_run_end_unique(s, 0, n, CharClass::Name);
        assert(s.subrange(0, n) =~= word);
        assert(s.subrange(n, n + 2) =~= "[]"@);
    }
    {
        let s = bracketed(array_marked(word));
        lemma_run_end_unique(s, 0, 0, CharClass::Blank);
        assert forall|i: int| 1 <= i < n + 1 implies CharClass::TagText.holds(#[trigger] s[i]) by {
            assert(s[i] == word[i - 1]);
        }
        lemma_run_end_unique(s, 1, n + 1, CharClass::TagText);
        assert(s.subrange(1, n + 1) =~= word);
        assert(s.subrange(n + 1, n + 4) =~= "[]]"@);
    }
}

/// A type tag depends only on the text from its start on: parsing what is
/// left when the first `n` characters are dropped gives the same type, with
/// every position counted from `n`.
pub proof fn lemma_type_tag_skip(s: Seq<char>, n: int, start: int)
    requires
        0 <= n,
        0 <= start,
        n + start <= s.len(),
    ensures
        type_tag(s, n + start) == moved(type_tag(s.skip(n), start), n),
{
    let t = s.skip(n);
    lemma_run_end_skip(s, n, start, CharClass::Blank);
    lemma_run_end(t, start, CharClass::Blank);
    let open = run_end(t, start, CharClass::Blank);
    lemma_tokens_skip(s, n, open, "[]"@, '[');
    if has_char_at(t, open, '[') {
        lemma_run_end_skip(s, n, open + 1, CharClass::TagText);
        lemma_run_end(t, open + 1, CharClass::TagText);
        let end = run_end(t, open + 1, CharClass::TagText);
        lemma_subrange_skip(s, n, open + 1, end);
        lemma_tokens_skip(s, n, end, "[]]"@, ']');
    } else {
        lemma_run_end_skip(s, n, open, CharClass::Name);
        lemma_run_end(t, open, CharClass::Name);
        let end = run_end(t, open, CharClass::Name);
        lemma_subrange_skip(s, n, open, end);
        lemma_tokens_skip(s, n, end, "[]"@, '[');
    }
}

/// A type tag that parses ends inside the text, at or behind its start, and
/// denotes a scalar type, a sentinel, or the array of one of these: an array
/// of arrays never comes out.
pub proof fn lemma_type_tag(s: Seq<char>, start: int)
    requires
        0 <= start <= s.len(),
        type_tag(s, start) is Ok,
    ensures
        ({
            let (end, kind) = type_tag(s, start)->Ok_0;
            &&& start <= end <= s.len()
            &&& kind.is_flat()
        }),
{
    reveal_strlit("[]");
    reveal_strlit("[]]");
    lemma_run_end(s, start, CharClass::Blank);
    let open = run_end(s, start, CharClass::Blank);
    if has_char_at(s, open, '[') {
        lemma_run_end(s, open + 1, CharClass::TagText);
        lemma_resolve_flat(s.subrange(open + 1, run_end(s, open + 1, CharClass::TagText)));
    } else {
        lemma_run_end(s, open, CharClass::Name);
        lemma_resolve_flat(s.subrange(open, run_end(s, open, CharClass::Name)));
    }
}

/// Parsing on consumes nothing twice. After a type tag has been parsed,
/// parsing the rest of the text as a text of its own gives what the grammar
/// gives in the whole text from where the first parse stopped: no character
/// before that position has any part in it. A second tag therefore starts
/// where the first ended and ends at or behind that, inside the text.
pub proof fn lemma_type_tag_reparse(s: Seq<char>)
    requires
        type_tag(s, 0) is Ok,
    ensures
        ({
            let first = type_tag(s, 0)->Ok_0.0;
            let again = type_tag(s.skip(first), 0);
            &&& 0 <= first <= s.len()
            &&& type_tag(s, first) == moved(again, first)
            &&& again is Ok ==> first <= first + again->Ok_0.0 <= s.len()
        }),
{
    lemma_type_tag(s, 0);
    let first = type_tag(s, 0)->Ok_0.0;
    lemma_type_tag_skip(s, first, 0);
    if type_tag(s.skip(first), 0) is Ok {
        lemma_type_tag(s.skip(first), 0);
    }
}

/// A word never stands for an array.
pub proof fn lemma_resolve_flat(word: Seq<char>)
    ensures
        !(resolve(word) is Array),
{
}

/// A keyword is not empty and is made of ASCII capitals and digits.
pub proof fn lemma_keyword_chars(keyword: Seq<char>)
    requires
        keyword_kind(keyword) is Some,
    ensures
        keyword.len() > 0,
        is_scalar(keyword_kind(keyword)->0),
        forall|i: int|
            0 <= i < keyword.len() ==> {
                let c = #[trigger] keyword[i];
                ('A' <= c && c <= 'Z') || ('0' <= c && c <= '9')
            },
{
    reveal_strlit("STRING");
    reveal_strlit("BOOL");
    reveal_strlit("SWITCH");
    reveal_strlit("UI32");
    reveal_strlit("UI64");
    reveal_strlit("I32");
    reveal_strlit("INT");
    reveal_strlit("I64");
    reveal_strlit("F32");
    reveal_strlit("F64");
    reveal_strlit("PSCREDENTIAL");
    reveal_strlit("CREDENTIAL");
    reveal_strlit("SECURESTRING");
}

/// The case of its letters does not change what an ASCII word stands for.
pub proof fn lemma_resolve_ignores_case(a: Seq<char>, b: Seq<char>)
    requires
        is_ascii_text(a),
        is_ascii_text(b),
        upper(a) == upper(b),
    ensures
        resolve(a) == resolve(b),
{
    assert(a.len() == upper(a).len());
    assert(b.len() == upper(b).len());
}

/// Every recognized keyword, written in upper case, in lower case, or in
/// brackets, denotes the same scalar type; with the array mark, bare or in
/// brackets, it denotes the array of that type.
pub proof fn lemma_keyword_forms(keyword: Seq<char>)
    requires
        keyword_kind(keyword) is Some,
    ensures
        ({
            let kind = keyword_kind(keyword)->0;
            let n = keyword.len() as int;
            &&& is_scalar(kind)
            &&& type_tag(keyword, 0) == stops_at(n, kind)
            &&& type_tag(lower(keyword), 0) == stops_at(n, kind)
            &&& type_tag(bracketed(keyword), 0) == stops_at(n + 2, kind)
            &&& type_tag(bracketed(lower(keyword)), 0) == stops_at(n + 2, kind)
            &&& type_tag(array_marked(keyword), 0) == stops_at(n + 2, array_of(kind))
            &&& type_tag(array_marked(lower(keyword)), 0) == stops_at(n + 2, array_of(kind))
            &&& type_tag(bracketed(array_marked(keyword)), 0) == stops_at(n + 4, array_of(kind))
            &&& type_tag(bracketed(array_marked(lower(keyword))), 0) == stops_at(
                n + 4,
                array_of(kind),
            )
        }),
{
    lemma_keyword_chars(keyword);
    assert(upper(keyword) =~= keyword);
    assert(upper(lower(keyword)) =~= keyword);
    lemma_tag_forms(keyword);
    lemma_tag_forms(lower(keyword));
}

impl DataType {
    /// Whether the type is no array of arrays. The grammar of type tags
    /// reads one array mark at most, so every type that it gives is flat.
    pub open spec fn is_flat(self) -> bool {
        self matches DataType::Array(array) ==> !(*array.0 is Array)
    }

    /// Whether the two types are the same: of the same kind, and for
    /// arrays of the same element.
    pub fn same(&self, other: &DataType) -> (equal: bool)
        ensures
            equal == (*self == *other),
        decreases *self,
    {
        match (self, other) {
            (DataType::String, DataType::String) => true,
            (DataType::Bool, DataType::Bool) => true,
            (DataType::Switch, DataType::Switch) => true,
            (DataType::Ui32, DataType::Ui32) => true,
            (DataType::Ui64, DataType::Ui64) => true,
            (DataType::I32, DataType::I32) => true,
            (DataType::I64, DataType::I64) => true,
            (DataType::F32, DataType::F32) => true,
            (DataType::F64, DataType::F64) => true,
            (DataType::Credential, DataType::Credential) => true,
            (DataType::SecureString, DataType::SecureString) => true,
            (DataType::Undefined, DataType::Undefined) => true,
            (DataType::Unknown, DataType::Unknown) => true,
            (DataType::Array(Array(mine)), DataType::Array(Array(theirs))) => mine.same(theirs),
            _ => false,
        }
    }

    /// A copy of the type, arrays copied with their elements.
    pub fn duplicate(&self) -> (copy: DataType)
        ensures
            copy == *self,
        decreases *self,
    {
        match self {
            DataType::String => DataType::String,
            DataType::Bool => DataType::Bool,
            DataType::Switch => DataType::Switch,
            DataType::Ui32 => DataType::Ui32,
            DataType::Ui64 => DataType::Ui64,
            DataType::I32 => DataType::I32,
            DataType::I64 => DataType::I64,
            DataType::F32 => DataType::F32,
            DataType::F64 => DataType::F64,
            DataType::Credential => DataType::Credential,
            DataType::SecureString => DataType::SecureString,
            DataType::Undefined => DataType::Undefined,
            DataType::Unknown => DataType::Unknown,
            DataType::Array(Array(element)) => {
                DataType::Array(Array(Box::new(element.duplicate())))
            },
        }
    }

    /// Parses the type tag at the start of `input`, and returns the rest of
    /// the input with the type.
    pub fn parse<'a>(input: &'a str) -> (r: Result<(&'a str, DataType), ParseError>)
        ensures
            answers(input@, r, type_tag(input@, 0)),
            r matches Ok((_, kind)) ==> kind.is_flat(),
    {
        let chars = chars_of(input);
        proof {
            if type_tag(input@, 0) is Ok {
                lemma_type_tag(input@, 0);
            }
        }
        match type_tag_at(input, chars.as_slice(), 0) {
            Ok((end, kind)) => {
                let rest = input.substring_char(end, chars.len());
                Ok((rest, kind))
            },
            Err(e) => Err(e),
        }
    }
}

impl PartialEq for DataType {
    fn eq(&self, other: &DataType) -> (equal: bool) {
        self.same(other)
    }
}

impl PartialEqSpecImpl for DataType {
    open spec fn obeys_eq_spec() -> bool {
        true
    }

    open spec fn eq_spec(&self, other: &DataType) -> bool {
        *self == *other
    }
}

impl PartialEq for Array {
    fn eq(&self, other: &Array) -> (equal: bool) {
        self.0.same(&other.0)
    }
}

impl PartialEqSpecImpl for Array {
    open spec fn obeys_eq_spec() -> bool {
        true
    }

    open spec fn eq_spec(&self, other: &Array) -> bool {
        *self == *other
    }
}

impl Clone for DataType {
    fn clone(&self) -> (copy: DataType)
        ensures
            copy == *self,
    {
        self.duplicate()
    }
}

impl Clone for Array {
    fn clone(&self) -> (copy: Array)
        ensures
            copy == *self,
    {
        Array(Box::new(self.0.duplicate()))
    }
}

impl std::str::FromStr for DataType {
    type Err = ();

    fn from_str(input: &str) -> (r: Result<Self, ()>)
        ensures
            match type_tag(input@, 0) {
                Ok((end, kind)) => r == Ok::<DataType, ()>(kind),
                Err(_) => r is Err,
            },
    {
        match DataType::parse(input) {
            Ok((_, kind)) => Ok(kind),
            Err(_) => Err(()),
        }
    }
}

} // verus!
