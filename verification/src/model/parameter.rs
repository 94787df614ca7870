//! Parameter declarations.
//!
//! A declaration is an attribute block, a type tag and a variable reference:
//!
//! ```text
//! [Parameter(Mandatory = $true, HelpMessage = "The name of the person.")] [string]$Test
//! ```
//!
//! The attribute block holds the `Mandatory` attribute and, after a comma, an
//! optional `HelpMessage` attribute. It is closed by `]`, before which a `)`
//! may stand. Blank characters may stand between any two tokens.

use crate::error::{answers, answers_as, fails_at, moved, ErrorKind, Outcome, ParseError};
use crate::model::datatype::{lemma_type_tag, lemma_type_tag_skip, type_tag, type_tag_at, DataType};
use crate::model::name::{
    is_name, lemma_empty_name_fails, lemma_sigil_name, lemma_sigil_name_skip, sigil_name,
    sigil_name_at,
};
use crate::text::{
    chars_of, has_char_at, has_keyword_at, has_literal_at, is_name_char, keyword_at,
    lemma_run_end, lemma_run_end_skip, lemma_subrange_skip, lemma_tokens_skip, literal_at,
    range_folds_to, run_end, scan, upper, CharClass,
};
use vstd::prelude::*;
use vstd::std_specs::cmp::PartialEqSpecImpl;

verus! {

/// Whether a parameter must be supplied.
#[derive(Debug, PartialEq, Eq, Clone, Copy, Structural)]
pub struct Mandatory(pub bool);

/// A declared parameter. Two parameters are equal if they have the same name,
/// type, flag and help message.
#[derive(Debug, Eq)]
pub struct Parameter {
    /// The name of the parameter, without the sigil.
    pub name: String,
    /// The declared type; `Undefined` where the declaration has no type tag.
    pub data_type: DataType,
    /// Whether the parameter must be supplied.
    pub mandatory: Mandatory,
    /// The help message, where the declaration has one.
    pub help_message: Option<String>,
}

/// A parameter with its texts as sequences of characters.
pub struct ParameterView {
    pub name: Seq<char>,
    pub data_type: DataType,
    pub mandatory: Mandatory,
    pub help_message: Option<Seq<char>>,
}

/// A help message, if there is one, as a sequence of characters.
pub open spec fn help_view(help: Option<String>) -> Option<Seq<char>> {
    match help {
        Some(text) => Some(text@),
        None => None,
    }
}

impl ParameterView {
    /// What holds of every parameter that the parser gives: it has a name,
    /// and its type is no array of arrays.
    pub open spec fn well_formed(self) -> bool {
        is_name(self.name) && self.data_type.is_flat()
    }
}

impl View for Parameter {
    type V = ParameterView;

    open spec fn view(&self) -> ParameterView {
        ParameterView {
            name: self.name@,
            data_type: self.data_type,
            mandatory: self.mandatory,
            help_message: help_view(self.help_message),
        }
    }
}

/// The grammar of the `Mandatory` attribute that starts at `start`: the
/// keyword in any mix of cases, `=`, and a variable reference, whose name may
/// be empty. The parameter is mandatory unless the name is `false`, in any mix
/// of cases: a reference to anything else counts as `$true` does.
pub open spec fn mandatory(s: Seq<char>, start: int) -> Outcome<Mandatory> {
    if !has_keyword_at(s, start, "MANDATORY"@) {
        fails_at(start, ErrorKind::MandatoryKeyword)
    } else {
        let assign = run_end(s, start + "MANDATORY"@.len(), CharClass::Blank);
        if !has_char_at(s, assign, '=') {
            fails_at(assign, ErrorKind::Assignment)
        } else {
            let sigil = run_end(s, assign + 1, CharClass::Blank);
            if !has_char_at(s, sigil, '$') {
                fails_at(sigil, ErrorKind::Sigil)
            } else {
                let end = run_end(s, sigil + 1, CharClass::Name);
                Ok((end, Mandatory(upper(s.subrange(sigil + 1, end)) != "FALSE"@)))
            }
        }
    }
}

/// The grammar of the `HelpMessage` attribute that starts at `start`: the
/// keyword as written here, `=`, and a text between double quotes. The text
/// ends at the first double quote; nothing in it is an escape.
pub open spec fn help_message(s: Seq<char>, start: int) -> Outcome<Seq<char>> {
    if !has_literal_at(s, start, "HelpMessage"@) {
        fails_at(start, ErrorKind::HelpMessageKeyword)
    } else {
        let assign = run_end(s, start + "HelpMessage"@.len(), CharClass::Blank);
        if !has_char_at(s, assign, '=') {
            fails_at(assign, ErrorKind::Assignment)
        } else {
            let open = run_end(s, assign + 1, CharClass::Blank);
            if !has_char_at(s, open, '"') {
                fails_at(open, ErrorKind::OpeningQuote)
            } else {
                let close = run_end(s, open + 1, CharClass::Quoted);
                if !has_char_at(s, close, '"') {
                    fails_at(close, ErrorKind::ClosingQuote)
                } else {
                    Ok((close + 1, s.subrange(open + 1, close)))
                }
            }
        }
    }
}

/// The grammar of the closer of an attribute block that starts at `start`:
/// `]`, or `)` and `]`.
pub open spec fn closer(s: Seq<char>, start: int) -> Outcome<()> {
    let first = run_end(s, start, CharClass::Blank);
    let last = if has_char_at(s, first, ')') {
        run_end(s, first + 1, CharClass::Blank)
    } else {
        first
    };
    if has_char_at(s, last, ']') {
        Ok((last + 1, ()))
    } else {
        fails_at(last, ErrorKind::AttributeCloser)
    }
}

/// The grammar of the attribute block that starts at `start`: the opener
/// `[Parameter(`, the `Mandatory` attribute, after a comma the `HelpMessage`
/// attribute if there is a comma, and the closer.
pub open spec fn attributes(s: Seq<char>, start: int) -> Outcome<(Mandatory, Option<Seq<char>>)> {
    if !has_literal_at(s, start, "[Parameter("@) {
        fails_at(start, ErrorKind::AttributeOpener)
    } else {
        match mandatory(s, run_end(s, start + "[Parameter("@.len(), CharClass::Blank)) {
            Err(failure) => Err(failure),
            Ok((after_flag, flag)) => {
                let comma = run_end(s, after_flag, CharClass::Blank);
                if has_char_at(s, comma, ',') {
                    match help_message(s, run_end(s, comma + 1, CharClass::Blank)) {
                        Err(failure) => Err(failure),
                        Ok((after_text, text)) => match closer(s, after_text) {
                            Err(failure) => Err(failure),
                            Ok((end, _)) => Ok((end, (flag, Some(text)))),
                        },
                    }
                } else {
                    match closer(s, after_flag) {
                        Err(failure) => Err(failure),
                        Ok((end, _)) => Ok((end, (flag, None))),
                    }
                }
            },
        }
    }
}

/// The grammar of the parameter declaration that starts at `start`: the
/// attribute block, the type tag, and the variable reference that names the
/// parameter.
pub open spec fn parameter(s: Seq<char>, start: int) -> Outcome<ParameterView> {
    match attributes(s, start) {
        Err(failure) => Err(failure),
        Ok((after_block, (flag, help))) => match type_tag(s, after_block) {
            Err(failure) => Err(failure),
            Ok((after_tag, kind)) => match sigil_name(
                s,
                run_end(s, after_tag, CharClass::Blank),
            ) {
                Err(failure) => Err(failure),
                Ok((end, name)) => Ok(
                    (
                        end,
                        ParameterView {
                            name,
                            data_type: kind,
                            mandatory: flag,
                            help_message: help,
                        },
                    ),
                ),
            },
        },
    }
}

/// A `Mandatory` attribute that parses ends inside the text, behind its start.
pub proof fn lemma_mandatory(s: Seq<char>, start: int)
    requires
        0 <= start,
        mandatory(s, start) is Ok,
    ensures
        start < mandatory(s, start)->Ok_0.0 <= s.len(),
{
    reveal_strlit("MANDATORY");
    let after = start + "MANDATORY"@.len();
    lemma_run_end(s, after, CharClass::Blank);
    let assign = run_end(s, after, CharClass::Blank);
    lemma_run_end(s, assign + 1, CharClass::Blank);
    let sigil = run_end(s, assign + 1, CharClass::Blank);
    lemma_run_end(s, sigil + 1, CharClass::Name);
}

/// A `HelpMessage` attribute that parses ends inside the text, behind its
/// start, and its text holds no double quote.
pub proof fn lemma_help_message(s: Seq<char>, start: int)
    requires
        0 <= start,
        help_message(s, start) is Ok,
    ensures
        ({
            let (end, text) = help_message(s, start)->Ok_0;
            &&& start < end <= s.len()
            &&& forall|i: int| 0 <= i < text.len() ==> #[trigger] text[i] != '"'
        }),
{
    reveal_strlit("HelpMessage");
    let after = start + "HelpMessage"@.len();
    lemma_run_end(s, after, CharClass::Blank);
    let assign = run_end(s, after, CharClass::Blank);
    lemma_run_end(s, assign + 1, CharClass::Blank);
    let open = run_end(s, assign + 1, CharClass::Blank);
    lemma_run_end(s, open + 1, CharClass::Quoted);
}

/// A closer that parses ends inside the text, behind its start.
pub proof fn lemma_closer(s: Seq<char>, start: int)
    requires
        0 <= start <= s.len(),
        closer(s, start) is Ok,
    ensures
        start < closer(s, start)->Ok_0.0 <= s.len(),
{
    lemma_run_end(s, start, CharClass::Blank);
    let first = run_end(s, start, CharClass::Blank);
    if has_char_at(s, first, ')') {
        lemma_run_end(s, first + 1, CharClass::Blank);
    }
}

/// An attribute block that parses ends inside the text, behind its start.
pub proof fn lemma_attributes(s: Seq<char>, start: int)
    requires
        0 <= start,
        attributes(s, start) is Ok,
    ensures
        start < attributes(s, start)->Ok_0.0 <= s.len(),
{
    reveal_strlit("[Parameter(");
    let after = start + "[Parameter("@.len();
    lemma_run_end(s, after, CharClass::Blank);
    let first = run_end(s, after, CharClass::Blank);
    lemma_mandatory(s, first);
    let after_flag = mandatory(s, first)->Ok_0.0;
    lemma_run_end(s, after_flag, CharClass::Blank);
    let comma = run_end(s, after_flag, CharClass::Blank);
    if has_char_at(s, comma, ',') {
        lemma_run_end(s, comma + 1, CharClass::Blank);
        let second = run_end(s, comma + 1, CharClass::Blank);
        lemma_help_message(s, second);
        lemma_closer(s, help_message(s, second)->Ok_0.0);
    } else {
        lemma_closer(s, after_flag);
    }
}

/// A parameter declaration that parses ends inside the text, behind its
/// start, and gives the parameter a name: not empty, of name characters only.
pub proof fn lemma_parameter(s: Seq<char>, start: int)
    requires
        0 <= start,
        parameter(s, start) is Ok,
    ensures
        ({
            let (end, value) = parameter(s, start)->Ok_0;
            &&& start < end <= s.len()
            &&& value.well_formed()
        }),
{
    lemma_attributes(s, start);
    let after_block = attributes(s, start)->Ok_0.0;
    lemma_type_tag(s, after_block);
    let after_tag = type_tag(s, after_block)->Ok_0.0;
    lemma_run_end(s, after_tag, CharClass::Blank);
    lemma_sigil_name(s, run_end(s, after_tag, CharClass::Blank));
}

/// A declaration whose sigil has no name character behind it fails there,
/// whatever the attribute block and the type tag hold.
pub proof fn lemma_parameter_needs_name(s: Seq<char>, start: int)
    requires
        0 <= start,
        attributes(s, start) is Ok,
        type_tag(s, attributes(s, start)->Ok_0.0) is Ok,
        ({
            let after_tag = type_tag(s, attributes(s, start)->Ok_0.0)->Ok_0.0;
            let sigil = run_end(s, after_tag, CharClass::Blank);
            has_char_at(s, sigil, '$') && (sigil + 1 == s.len() || !is_name_char(s[sigil + 1]))
        }),
    ensures
        ({
            let after_tag = type_tag(s, attributes(s, start)->Ok_0.0)->Ok_0.0;
            let sigil = run_end(s, after_tag, CharClass::Blank);
            parameter(s, start) == fails_at::<ParameterView>(sigil + 1, ErrorKind::EmptyName)
        }),
{
    let after_tag = type_tag(s, attributes(s, start)->Ok_0.0)->Ok_0.0;
    lemma_empty_name_fails(s, run_end(s, after_tag, CharClass::Blank));
}

/// Where the attribute block has no comma behind the `Mandatory` attribute,
/// the parameter has no help message, and its flag is that of the attribute.
pub proof fn lemma_parameter_without_help(s: Seq<char>, start: int)
    requires
        parameter(s, start) is Ok,
        ({
            let first = run_end(s, start + "[Parameter("@.len(), CharClass::Blank);
            let comma = run_end(s, mandatory(s, first)->Ok_0.0, CharClass::Blank);
            !has_char_at(s, comma, ',')
        }),
    ensures
        ({
            let first = run_end(s, start + "[Parameter("@.len(), CharClass::Blank);
            let value = parameter(s, start)->Ok_0.1;
            &&& value.help_message is None
            &&& mandatory(s, first) is Ok
            &&& value.mandatory == mandatory(s, first)->Ok_0.1
        }),
{
}

/// The `Mandatory` attribute depends only on the text from its start on.
pub proof fn lemma_mandatory_skip(s: Seq<char>, n: int, start: int)
    requires
        0 <= n,
        0 <= start,
        n + start <= s.len(),
    ensures
        mandatory(s, n + start) == moved(mandatory(s.skip(n), start), n),
{
    let t = s.skip(n);
    lemma_tokens_skip(s, n, start, "MANDATORY"@, '=');
    if has_keyword_at(t, start, "MANDATORY"@) {
        let after = start + "MANDATORY"@.len();
        lemma_run_end_skip(s, n, after, CharClass::Blank);
        lemma_run_end(t, after, CharClass::Blank);
        let assign = run_end(t, after, CharClass::Blank);
        lemma_tokens_skip(s, n, assign, "MANDATORY"@, '=');
        if has_char_at(t, assign, '=') {
            lemma_run_end_skip(s, n, assign + 1, CharClass::Blank);
            lemma_run_end(t, assign + 1, CharClass::Blank);
            let sigil = run_end(t, assign + 1, CharClass::Blank);
            lemma_tokens_skip(s, n, sigil, "MANDATORY"@, '$');
            if has_char_at(t, sigil, '$') {
                lemma_run_end_skip(s, n, sigil + 1, CharClass::Name);
                lemma_run_end(t, sigil + 1, CharClass::Name);
                lemma_subrange_skip(s, n, sigil + 1, run_end(t, sigil + 1, CharClass::Name));
            }
        }
    }
}

/// The `HelpMessage` attribute depends only on the text from its start on.
pub proof fn lemma_help_message_skip(s: Seq<char>, n: int, start: int)
    requires
        0 <= n,
        0 <= start,
        n + start <= s.len(),
    ensures
        help_message(s, n + start) == moved(help_message(s.skip(n), start), n),
{
    let t = s.skip(n);
    lemma_tokens_skip(s, n, start, "HelpMessage"@, '=');
    if has_literal_at(t, start, "HelpMessage"@) {
        let after = start + "HelpMessage"@.len();
        lemma_run_end_skip(s, n, after, CharClass::Blank);
        lemma_run_end(t, after, CharClass::Blank);
        let assign = run_end(t, after, CharClass::Blank);
        lemma_tokens_skip(s, n, assign, "HelpMessage"@, '=');
        if has_char_at(t, assign, '=') {
            lemma_run_end_skip(s, n, assign + 1, CharClass::Blank);
            lemma_run_end(t, assign + 1, CharClass::Blank);
            let open = run_end(t, assign + 1, CharClass::Blank);
            lemma_tokens_skip(s, n, open, "HelpMessage"@, '"');
            if has_char_at(t, open, '"') {
                lemma_run_end_skip(s, n, open + 1, CharClass::Quoted);
                lemma_run_end(t, open + 1, CharClass::Quoted);
                let close = run_end(t, open + 1, CharClass::Quoted);
                lemma_tokens_skip(s, n, close, "HelpMessage"@, '"');
                lemma_subrange_skip(s, n, open + 1, close);
            }
        }
    }
}

/// The closer depends only on the text from its start on.
pub proof fn lemma_closer_skip(s: Seq<char>, n: int, start: int)
    requires
        0 <= n,
        0 <= start,
        n + start <= s.len(),
    ensures
        closer(s, n + start) == moved(closer(s.skip(n), start), n),
{
    let t = s.skip(n);
    lemma_run_end_skip(s, n, start, CharClass::Blank);
    lemma_run_end(t, start, CharClass::Blank);
    let first = run_end(t, start, CharClass::Blank);
    lemma_tokens_skip(s, n, first, Seq::empty(), ')');
    if has_char_at(t, first, ')') {
        lemma_run_end_skip(s, n, first + 1, CharClass::Blank);
        lemma_run_end(t, first + 1, CharClass::Blank);
        lemma_tokens_skip(s, n, run_end(t, first + 1, CharClass::Blank), Seq::empty(), ']');
    } else {
        lemma_tokens_skip(s, n, first, Seq::empty(), ']');
    }
}

/// The attribute block depends only on the text from its start on.
pub proof fn lemma_attributes_skip(s: Seq<char>, n: int, start: int)
    requires
        0 <= n,
        0 <= start,
        n + start <= s.len(),
    ensures
        attributes(s, n + start) == moved(attributes(s.skip(n), start), n),
{
    let t = s.skip(n);
    lemma_tokens_skip(s, n, start, "[Parameter("@, ',');
    if has_literal_at(t, start, "[Parameter("@) {
        let after = start + "[Parameter("@.len();
        lemma_run_end_skip(s, n, after, CharClass::Blank);
        lemma_run_end(t, after, CharClass::Blank);
        let first = run_end(t, after, CharClass::Blank);
        lemma_mandatory_skip(s, n, first);
        if mandatory(t, first) is Ok {
            lemma_mandatory(t, first);
            let after_flag = mandatory(t, first)->Ok_0.0;
            lemma_run_end_skip(s, n, after_flag, CharClass::Blank);
            lemma_run_end(t, after_flag, CharClass::Blank);
            let comma = run_end(t, after_flag, CharClass::Blank);
            lemma_tokens_skip(s, n, comma, "[Parameter("@, ',');
            if has_char_at(t, comma, ',') {
                lemma_run_end_skip(s, n, comma + 1, CharClass::Blank);
                lemma_run_end(t, comma + 1, CharClass::Blank);
                let second = run_end(t, comma + 1, CharClass::Blank);
                lemma_help_message_skip(s, n, second);
                if help_message(t, second) is Ok {
                    lemma_help_message(t, second);
                    lemma_closer_skip(s, n, help_message(t, second)->Ok_0.0);
                }
            } else {
                lemma_closer_skip(s, n, after_flag);
            }
        }
    }
}

/// A parameter declaration depends only on the text from its start on:
/// parsing what is left when the first `n` characters are dropped gives the
/// same parameter or the same failure, with every position counted from `n`.
pub proof fn lemma_parameter_skip(s: Seq<char>, n: int, start: int)
    requires
        0 <= n,
        0 <= start,
        n + start <= s.len(),
    ensures
        parameter(s, n + start) == moved(parameter(s.skip(n), start), n),
{
    let t = s.skip(n);
    lemma_attributes_skip(s, n, start);
    if attributes(t, start) is Ok {
        lemma_attributes(t, start);
        let after_block = attributes(t, start)->Ok_0.0;
        lemma_type_tag_skip(s, n, after_block);
        if type_tag(t, after_block) is Ok {
            lemma_type_tag(t, after_block);
            let after_tag = type_tag(t, after_block)->Ok_0.0;
            lemma_run_end_skip(s, n, after_tag, CharClass::Blank);
            lemma_run_end(t, after_tag, CharClass::Blank);
            lemma_sigil_name_skip(s, n, run_end(t, after_tag, CharClass::Blank));
        }
    }
}

/// Parsing on consumes nothing twice. After a declaration has been parsed,
/// parsing the rest of the text as a text of its own gives what the grammar
/// gives in the whole text from where the first parse stopped: no character
/// before that position has any part in it. A second declaration therefore
/// starts where the first ended and ends behind that, inside the text.
pub proof fn lemma_parameter_reparse(s: Seq<char>)
    requires
        parameter(s, 0) is Ok,
    ensures
        ({
            let first = parameter(s, 0)->Ok_0.0;
            let again = parameter(s.skip(first), 0);
            &&& 0 < first <= s.len()
            &&& parameter(s, first) == moved(again, first)
            &&& again is Ok ==> first < first + again->Ok_0.0 <= s.len()
        }),
{
    lemma_parameter(s, 0);
    let first = parameter(s, 0)->Ok_0.0;
    lemma_parameter_skip(s, first, 0);
    if parameter(s.skip(first), 0) is Ok {
        lemma_parameter(s.skip(first), 0);
    }
}

/// Parsing on consumes nothing twice. After a `Mandatory` attribute has been
/// parsed, parsing the rest of the text as a text of its own gives what the
/// grammar gives in the whole text from where the first parse stopped: no
/// character before that position has any part in it.
pub proof fn lemma_mandatory_reparse(s: Seq<char>)
    requires
        mandatory(s, 0) is Ok,
    ensures
        ({
            let first = mandatory(s, 0)->Ok_0.0;
            let again = mandatory(s.skip(first), 0);
            &&& 0 < first <= s.len()
            &&& mandatory(s, first) == moved(again, first)
            &&& again is Ok ==> first < first + again->Ok_0.0 <= s.len()
        }),
{
    lemma_mandatory(s, 0);
    let first = mandatory(s, 0)->Ok_0.0;
    lemma_mandatory_skip(s, first, 0);
    if mandatory(s.skip(first), 0) is Ok {
        lemma_mandatory(s.skip(first), 0);
    }
}

/// Parses the `Mandatory` attribute that starts at `start`.
pub fn mandatory_at(chars: &[char], start: usize) -> (r: Result<(usize, Mandatory), ParseError>)
    requires
        start <= chars@.len(),
    ensures
        match mandatory(chars@, start as int) {
            Ok((end, flag)) => r == Ok::<_, ParseError>((end as usize, flag)) && start < end
                <= chars@.len(),
            Err(failure) => r matches Err(e) && e@ == failure,
        },
{
    let after = match keyword_at(chars, start, "MANDATORY") {
        Some(after) => after,
        None => {
            return Err(ParseError { position: start, kind: ErrorKind::MandatoryKeyword });
        },
    };
    proof {
        reveal_strlit("MANDATORY");
    }
    let assign = scan(chars, after, CharClass::Blank);
    proof {
        lemma_run_end(chars@, after as int, CharClass::Blank);
    }
    if !(assign < chars.len() && chars[assign] == '=') {
        return Err(ParseError { position: assign, kind: ErrorKind::Assignment });
    }
    let sigil = scan(chars, assign + 1, CharClass::Blank);
    proof {
        lemma_run_end(chars@, assign + 1, CharClass::Blank);
    }
    if !(sigil < chars.len() && chars[sigil] == '$') {
        return Err(ParseError { position: sigil, kind: ErrorKind::Sigil });
    }
    let end = scan(chars, sigil + 1, CharClass::Name);
    proof {
        lemma_run_end(chars@, sigil + 1, CharClass::Name);
    }
    let denied = range_folds_to(chars, sigil + 1, end, "FALSE");
    Ok((end, Mandatory(!denied)))
}

/// Parses the `HelpMessage` attribute that starts at `start`.
pub fn help_message_at(input: &str, chars: &[char], start: usize) -> (r: Result<
    (usize, String),
    ParseError,
>)
    requires
        chars@ == input@,
        start <= chars@.len(),
    ensures
        match help_message(input@, start as int) {
            Ok((end, text)) => r matches Ok((e, t)) && e == end && t@ == text && start < end
                <= input@.len(),
            Err(failure) => r matches Err(e) && e@ == failure,
        },
{
    let after = match literal_at(chars, start, "HelpMessage") {
        Some(after) => after,
        None => {
            return Err(ParseError { position: start, kind: ErrorKind::HelpMessageKeyword });
        },
    };
    proof {
        reveal_strlit("HelpMessage");
    }
    let assign = scan(chars, after, CharClass::Blank);
    proof {
        lemma_run_end(chars@, after as int, CharClass::Blank);
    }
    if !(assign < chars.len() && chars[assign] == '=') {
        return Err(ParseError { position: assign, kind: ErrorKind::Assignment });
    }
    let open = scan(chars, assign + 1, CharClass::Blank);
    proof {
        lemma_run_end(chars@, assign + 1, CharClass::Blank);
    }
    if !(open < chars.len() && chars[open] == '"') {
        return Err(ParseError { position: open, kind: ErrorKind::OpeningQuote });
    }
    let close = scan(chars, open + 1, CharClass::Quoted);
    proof {
        lemma_run_end(chars@, open + 1, CharClass::Quoted);
    }
    if !(close < chars.len() && chars[close] == '"') {
        return Err(ParseError { position: close, kind: ErrorKind::ClosingQuote });
    }
    let text = input.substring_char(open + 1, close).to_owned();
    Ok((close + 1, text))
}

/// Parses the closer of an attribute block that starts at `start`, and
/// returns the position behind it.
pub fn closer_at(chars: &[char], start: usize) -> (r: Result<usize, ParseError>)
    requires
        start <= chars@.len(),
    ensures
        match closer(chars@, start as int) {
            Ok((end, _)) => r == Ok::<_, ParseError>(end as usize) && start < end <= chars@.len(),
            Err(failure) => r matches Err(e) && e@ == failure,
        },
{
    let first = scan(chars, start, CharClass::Blank);
    proof {
        lemma_run_end(chars@, start as int, CharClass::Blank);
    }
    let last = if first < chars.len() && chars[first] == ')' {
        proof {
            lemma_run_end(chars@, first + 1, CharClass::Blank);
        }
        scan(chars, first + 1, CharClass::Blank)
    } else {
        first
    };
    if last < chars.len() && chars[last] == ']' {
        Ok(last + 1)
    } else {
        Err(ParseError { position: last, kind: ErrorKind::AttributeCloser })
    }
}

/// Parses the attribute block that starts at `start`.
pub fn attributes_at(input: &str, chars: &[char], start: usize) -> (r: Result<
    (usize, Mandatory, Option<String>),
    ParseError,
>)
    requires
        chars@ == input@,
        start <= chars@.len(),
    ensures
        match attributes(input@, start as int) {
            Ok((end, (flag, help))) => r matches Ok((e, f, h)) && e == end && f == flag
                && help_view(h) == help && start < end <= input@.len(),
            Err(failure) => r matches Err(e) && e@ == failure,
        },
{
    let after = match literal_at(chars, start, "[Parameter(") {
        Some(after) => after,
        None => {
            return Err(ParseError { position: start, kind: ErrorKind::AttributeOpener });
        },
    };
    proof {
        reveal_strlit("[Parameter(");
    }
    let first = scan(chars, after, CharClass::Blank);
    proof {
        lemma_run_end(chars@, after as int, CharClass::Blank);
    }
    let (after_flag, flag) = match mandatory_at(chars, first) {
        Ok(found) => found,
        Err(e) => {
            return Err(e);
        },
    };
    let comma = scan(chars, after_flag, CharClass::Blank);
    proof {
        lemma_run_end(chars@, after_flag as int, CharClass::Blank);
    }
    if comma < chars.len() && chars[comma] == ',' {
        let second = scan(chars, comma + 1, CharClass::Blank);
        proof {
            lemma_run_end(chars@, comma + 1, CharClass::Blank);
        }
        let (after_text, text) = match help_message_at(input, chars, second) {
            Ok(found) => found,
            Err(e) => {
                return Err(e);
            },
        };
        match closer_at(chars, after_text) {
            Ok(end) => Ok((end, flag, Some(text))),
            Err(e) => Err(e),
        }
    } else {
        match closer_at(chars, after_flag) {
            Ok(end) => Ok((end, flag, None)),
            Err(e) => Err(e),
        }
    }
}

impl PartialEq for Parameter {
    fn eq(&self, other: &Parameter) -> (equal: bool) {
        let same_help = match (&self.help_message, &other.help_message) {
            (Some(mine), Some(theirs)) => *mine == *theirs,
            (None, None) => true,
            _ => false,
        };
        same_help && self.name == other.name && self.data_type.same(&other.data_type)
            && self.mandatory == other.mandatory
    }
}

impl PartialEqSpecImpl for Parameter {
    open spec fn obeys_eq_spec() -> bool {
        true
    }

    open spec fn eq_spec(&self, other: &Parameter) -> bool {
        self@ == other@
    }
}

impl Clone for Parameter {
    fn clone(&self) -> (copy: Parameter)
        ensures
            copy@ == self@,
    {
        Parameter {
            name: self.name.clone(),
            data_type: self.data_type.duplicate(),
            mandatory: self.mandatory,
            help_message: match &self.help_message {
                Some(text) => Some(text.clone()),
                None => None,
            },
        }
    }
}

impl Mandatory {
    /// Parses the `Mandatory` attribute at the start of `input`, and returns
    /// the rest of the input with the flag.
    pub fn parse<'a>(input: &'a str) -> (r: Result<(&'a str, Mandatory), ParseError>)
        ensures
            answers(input@, r, mandatory(input@, 0)),
    {
        let chars = chars_of(input);
        match mandatory_at(chars.as_slice(), 0) {
            Ok((end, flag)) => {
                let rest = input.substring_char(end, chars.len());
                Ok((rest, flag))
            },
            Err(e) => Err(e),
        }
    }
}

impl Parameter {
    /// Parses the parameter declaration at the start of `input`, and returns
    /// the rest of the input with the parameter.
    pub fn parse<'a>(input: &'a str) -> (r: Result<(&'a str, Parameter), ParseError>)
        ensures
            answers_as(input@, r, parameter(input@, 0)),
            r matches Ok((_, p)) ==> p@.well_formed(),
    {
        let chars = chars_of(input);
        let (after_block, mandatory, help_message) = match attributes_at(
            input,
            chars.as_slice(),
            0,
        ) {
            Ok(found) => found,
            Err(e) => {
                return Err(e);
            },
        };
        let (after_tag, data_type) = match type_tag_at(input, chars.as_slice(), after_block) {
            Ok(found) => found,
            Err(e) => {
                return Err(e);
            },
        };
        let sigil = scan(chars.as_slice(), after_tag, CharClass::Blank);
        proof {
            lemma_run_end(chars@, after_tag as int, CharClass::Blank);
        }
        let (end, name) = match sigil_name_at(input, chars.as_slice(), sigil) {
            Ok(found) => found,
            Err(e) => {
                return Err(e);
            },
        };
        proof {
            lemma_parameter(input@, 0);
        }
        let rest = input.substring_char(end, chars.len());
        Ok((rest, Parameter { name, data_type, mandatory, help_message }))
    }
}

} // verus!
