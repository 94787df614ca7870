//! Parse failures, the outcomes of grammars, and what it means for a parser
//! to answer as a grammar does.

use vstd::prelude::*;

verus! {

/// What the grammar required at the position where a parse failed. Every
/// kind but `EmptyName` says that the text does not have the structure of the
/// grammar: a token is absent. `EmptyName` says that a sigil stands there
/// without a name, which no declaration may have.
#[derive(Clone, Copy, Debug, PartialEq, Eq, Structural)]
pub enum ErrorKind {
    /// The opener of an attribute block, `[Parameter(`.
    AttributeOpener,
    /// The keyword `Mandatory`.
    MandatoryKeyword,
    /// The `=` between an attribute and its value.
    Assignment,
    /// The `$` that starts a variable reference.
    Sigil,
    /// The keyword `HelpMessage`.
    HelpMessageKeyword,
    /// The `"` that opens a help message.
    OpeningQuote,
    /// The `"` that closes a help message.
    ClosingQuote,
    /// The closer of an attribute block, `]` or `)]`.
    AttributeCloser,
    /// The `]` that closes a bracketed type tag.
    ClosingBracket,
    /// A type tag, where a declaration cannot do without one.
    TypeTag,
    /// At least one character of a name after the sigil.
    EmptyName,
}

/// A parse failure: the position in the input, counted in characters, at which
/// the grammar could not go on, and what it required there.
#[derive(Clone, Copy, Debug, PartialEq, Eq, Structural)]
pub struct ParseError {
    pub position: usize,
    pub kind: ErrorKind,
}

/// A parse failure as the grammars state it, with an unbounded position.
pub struct Failure {
    pub position: int,
    pub kind: ErrorKind,
}

impl View for ParseError {
    type V = Failure;

    open spec fn view(&self) -> Failure {
        Failure { position: self.position as int, kind: self.kind }
    }
}

/// What a grammar says of a text: the position where the parse stopped and
/// the value parsed, or the failure.
pub type Outcome<V> = Result<(int, V), Failure>;

/// The outcome of a parse that stopped at `end` and gave `value`.
pub open spec fn stops_at<V>(end: int, value: V) -> Outcome<V> {
    Ok((end, value))
}

/// The outcome of a parse that could not go on at `position`, where the
/// grammar required `kind`.
pub open spec fn fails_at<V>(position: int, kind: ErrorKind) -> Outcome<V> {
    Err(Failure { position, kind })
}

/// The outcome `outcome` with every position moved forward by `by`.
pub open spec fn moved<V>(outcome: Outcome<V>, by: int) -> Outcome<V> {
    match outcome {
        Ok((end, value)) => Ok((end + by, value)),
        Err(failure) => Err(Failure { position: failure.position + by, kind: failure.kind }),
    }
}

/// Whether the parser's answer `got` on the text `input` is the grammar's
/// outcome `want`: the same value with the rest of the input from where the
/// grammar stopped, or the same failure.
pub open spec fn answers<V>(
    input: Seq<char>,
    got: Result<(&str, V), ParseError>,
    want: Outcome<V>,
) -> bool {
    match want {
        Ok((end, value)) => got matches Ok((rest, v)) && v == value && 0 <= end <= input.len()
            && rest@ == input.skip(end),
        Err(failure) => got matches Err(e) && e@ == failure,
    }
}

/// As [`answers`], for a value that the grammar states by its view.
pub open spec fn answers_as<T: View>(
    input: Seq<char>,
    got: Result<(&str, T), ParseError>,
    want: Outcome<T::V>,
) -> bool {
    match want {
        Ok((end, value)) => got matches Ok((rest, v)) && v@ == value && 0 <= end <= input.len()
            && rest@ == input.skip(end),
        Err(failure) => got matches Err(e) && e@ == failure,
    }
}

} // verus!
