//! Variable declarations: a type tag and a variable reference, as in
//! `[int]$count`.

use crate::error::{fails_at, moved, ErrorKind, Outcome, ParseError};
use crate::model::datatype::{lemma_type_tag, lemma_type_tag_skip, type_tag, type_tag_at, DataType};
use crate::model::name::{
    is_name, lemma_empty_name_fails, lemma_sigil_name, lemma_sigil_name_skip, sigil_name,
    sigil_name_at,
};
use crate::text::{
    chars_of, has_char_at, is_name_char, lemma_run_end_skip, run_end, scan, CharClass,
};
use vstd::prelude::*;
use vstd::std_specs::cmp::{PartialEqSpec, PartialEqSpecImpl};

verus! {

/// A declared variable. A declaration is static text and holds no value: the
/// parser fills `value` with the default of `T`, which stands for "not
/// evaluated", not for a value that the script computed.
#[derive(Debug, Eq)]
pub struct Variable<T> where T: Clone + PartialEq + Eq {
    /// The name of the variable, without the sigil.
    pub name: String,
    /// The declared type.
    pub data_type: DataType,
    /// The value of the variable.
    pub value: T,
}

/// The grammar of the variable declaration that starts at `start`: a type
/// tag, which may not be absent, and directly behind it the variable
/// reference. It gives the name and the type. A tag is absent where its
/// grammar stops behind the blank characters without having read anything.
pub open spec fn variable(s: Seq<char>, start: int) -> Outcome<(Seq<char>, DataType)> {
    match type_tag(s, start) {
        Err(failure) => Err(failure),
        Ok((after_tag, kind)) => if after_tag == run_end(s, start, CharClass::Blank) {
            fails_at(after_tag, ErrorKind::TypeTag)
        } else {
            match sigil_name(s, after_tag) {
                Err(failure) => Err(failure),
                Ok((end, name)) => Ok((end, (name, kind))),
            }
        },
    }
}

/// A variable declaration that parses ends inside the text, behind its
/// start, and gives the variable a name: not empty, of name characters only.
pub proof fn lemma_variable(s: Seq<char>, start: int)
    requires
        0 <= start <= s.len(),
        variable(s, start) is Ok,
    ensures
        ({
            let (end, (name, kind)) = variable(s, start)->Ok_0;
            &&& start < end <= s.len()
            &&& is_name(name)
            &&& kind.is_flat()
        }),
{
    lemma_type_tag(s, start);
    lemma_sigil_name(s, type_tag(s, start)->Ok_0.0);
}

/// A declaration whose sigil has no name character behind it fails there,
/// whatever the type tag holds.
pub proof fn lemma_variable_needs_name(s: Seq<char>, start: int)
    requires
        type_tag(s, start) is Ok,
        type_tag(s, start)->Ok_0.0 != run_end(s, start, CharClass::Blank),
        ({
            let sigil = type_tag(s, start)->Ok_0.0;
            has_char_at(s, sigil, '$') && (sigil + 1 == s.len() || !is_name_char(s[sigil + 1]))
        }),
    ensures
        variable(s, start) == fails_at::<(Seq<char>, DataType)>(
            type_tag(s, start)->Ok_0.0 + 1,
            ErrorKind::EmptyName,
        ),
{
    lemma_empty_name_fails(s, type_tag(s, start)->Ok_0.0);
}

/// A variable declaration depends only on the text from its start on:
/// parsing what is left when the first `n` characters are dropped gives the
/// same name and type or the same failure, with every position counted
/// from `n`.
pub proof fn lemma_variable_skip(s: Seq<char>, n: int, start: int)
    requires
        0 <= n,
        0 <= start,
        n + start <= s.len(),
    ensures
        variable(s, n + start) == moved(variable(s.skip(n), start), n),
{
    let t = s.skip(n);
    lemma_type_tag_skip(s, n, start);
    lemma_run_end_skip(s, n, start, CharClass::Blank);
    if type_tag(t, start) is Ok {
        lemma_type_tag(t, start);
        lemma_sigil_name_skip(s, n, type_tag(t, start)->Ok_0.0);
    }
}

/// Parsing on consumes nothing twice. After a declaration has been parsed,
/// parsing the rest of the text as a text of its own gives what the grammar
/// gives in the whole text from where the first parse stopped: no character
/// before that position has any part in it. A second declaration therefore
/// starts where the first ended and ends behind that, inside the text.
pub proof fn lemma_variable_reparse(s: Seq<char>)
    requires
        variable(s, 0) is Ok,
    ensures
        ({
            let first = variable(s, 0)->Ok_0.0;
            let again = variable(s.skip(first), 0);
            &&& 0 < first <= s.len()
            &&& variable(s, first) == moved(again, first)
            &&& again is Ok ==> first < first + again->Ok_0.0 <= s.len()
        }),
{
    lemma_variable(s, 0);
    let first = variable(s, 0)->Ok_0.0;
    lemma_variable_skip(s, first, 0);
    if variable(s.skip(first), 0) is Ok {
        lemma_variable(s.skip(first), 0);
    }
}

impl<T> Variable<T> where T: Clone + PartialEq + Eq {
    /// What holds of every variable that the parser gives: it has a name,
    /// and its type is no array of arrays.
    pub open spec fn well_formed(self) -> bool {
        is_name(self.name@) && self.data_type.is_flat()
    }
}

impl<T> PartialEq for Variable<T> where T: Clone + PartialEq + Eq {
    fn eq(&self, other: &Variable<T>) -> (equal: bool) {
        self.name == other.name && self.data_type.same(&other.data_type) && self.value
            == other.value
    }
}

impl<T> PartialEqSpecImpl for Variable<T> where T: Clone + PartialEq + Eq {
    open spec fn obeys_eq_spec() -> bool {
        T::obeys_eq_spec()
    }

    open spec fn eq_spec(&self, other: &Variable<T>) -> bool {
        self.name@ == other.name@ && self.data_type == other.data_type && self.value.eq_spec(
            &other.value,
        )
    }
}

impl<T> Clone for Variable<T> where T: Clone + PartialEq + Eq {
    fn clone(&self) -> (copy: Variable<T>)
        ensures
            copy.name@ == self.name@,
            copy.data_type == self.data_type,
            cloned(self.value, copy.value),
    {
        Variable {
            name: self.name.clone(),
            data_type: self.data_type.duplicate(),
            value: self.value.clone(),
        }
    }
}

impl<T> Variable<T> where T: Clone + PartialEq + Eq + Default {
    /// Parses the variable declaration at the start of `input`, and returns
    /// the rest of the input with the variable. Its value is what
    /// `T::default()` returns.
    pub fn parse<'a>(input: &'a str) -> (r: Result<(&'a str, Variable<T>), ParseError>)
        ensures
            match variable(input@, 0) {
                Ok((end, (name, kind))) => r matches Ok((rest, v)) && v.name@ == name
                    && v.data_type == kind && call_ensures(T::default, (), v.value) && 0 <= end
                    <= input@.len() && rest@ == input@.skip(end),
                Err(failure) => r matches Err(e) && e@ == failure,
            },
            r matches Ok((_, v)) ==> v.well_formed(),
    {
        let chars = chars_of(input);
        let tag = scan(chars.as_slice(), 0, CharClass::Blank);
        let (after_tag, data_type) = match type_tag_at(input, chars.as_slice(), 0) {
            Ok(found) => found,
            Err(e) => {
                return Err(e);
            },
        };
        if after_tag == tag {
            return Err(ParseError { position: after_tag, kind: ErrorKind::TypeTag });
        }
        let (end, name) = match sigil_name_at(input, chars.as_slice(), after_tag) {
            Ok(found) => found,
            Err(e) => {
                return Err(e);
            },
        };
        proof {
            lemma_variable(input@, 0);
        }
        let rest = input.substring_char(end, chars.len());
        Ok((rest, Variable { name, data_type, value: T::default() }))
    }
}

} // verus!
