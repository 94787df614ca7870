//! Variable references: the sigil `$` and the name behind it.

use crate::error::{fails_at, moved, ErrorKind, Outcome, ParseError};
use crate::text::{
    has_char_at, is_name_char, lemma_run_end, lemma_run_end_skip, lemma_subrange_skip,
    lemma_tokens_skip, run_end, scan, CharClass,
};
use vstd::prelude::*;

verus! {

/// The grammar of a variable reference that starts at `start`: the sigil and
/// the run of name characters behind it, which is the name. A missing sigil
/// and an empty name are failures.
pub open spec fn sigil_name(s: Seq<char>, start: int) -> Outcome<Seq<char>> {
    if !has_char_at(s, start, '$') {
        fails_at(start, ErrorKind::Sigil)
    } else {
        let end = run_end(s, start + 1, CharClass::Name);
        if end == start + 1 {
            fails_at(end, ErrorKind::EmptyName)
        } else {
            Ok((end, s.subrange(start + 1, end)))
        }
    }
}

/// Whether `name` is a name: not empty, and made of name characters.
pub open spec fn is_name(name: Seq<char>) -> bool {
    name.len() > 0 && forall|i: int| 0 <= i < name.len() ==> is_name_char(#[trigger] name[i])
}

/// A sigil with no name character behind it is never a variable reference.
pub proof fn lemma_empty_name_fails(s: Seq<char>, start: int)
    requires
        has_char_at(s, start, '$'),
        start + 1 == s.len() || !is_name_char(s[start + 1]),
    ensures
        sigil_name(s, start) == fails_at::<Seq<char>>(start + 1, ErrorKind::EmptyName),
{
}

/// A variable reference that parses has a name, and ends behind it.
pub proof fn lemma_sigil_name(s: Seq<char>, start: int)
    requires
        sigil_name(s, start) is Ok,
    ensures
        ({
            let (end, name) = sigil_name(s, start)->Ok_0;
            &&& is_name(name)
            &&& end == start + 1 + name.len()
            &&& end <= s.len()
        }),
{
    lemma_run_end(s, start + 1, CharClass::Name);
}

/// A variable reference depends only on the text from its start on.
pub proof fn lemma_sigil_name_skip(s: Seq<char>, n: int, start: int)
    requires
        0 <= n <= s.len(),
        0 <= start,
    ensures
        sigil_name(s, n + start) == moved(sigil_name(s.skip(n), start), n),
{
    lemma_tokens_skip(s, n, start, Seq::empty(), '$');
    lemma_run_end_skip(s, n, start + 1, CharClass::Name);
    if has_char_at(s, n + start, '$') {
        lemma_run_end(s, n + start + 1, CharClass::Name);
        let end = run_end(s.skip(n), start + 1, CharClass::Name);
        lemma_subrange_skip(s, n, start + 1, end);
    }
}

/// Parses the variable reference that starts at `start`.
pub fn sigil_name_at(input: &str, chars: &[char], start: usize) -> (r: Result<
    (usize, String),
    ParseError,
>)
    requires
        chars@ == input@,
        start <= chars@.len(),
    ensures
        match sigil_name(input@, start as int) {
            Ok((end, name)) => r matches Ok((e, n)) && e == end && n@ == name && start < end
                <= input@.len(),
            Err(failure) => r matches Err(e) && e@ == failure,
        },
{
    if !(start < chars.len() && chars[start] == '$') {
        return Err(ParseError { position: start, kind: ErrorKind::Sigil });
    }
    let end = scan(chars, start + 1, CharClass::Name);
    proof {
        lemma_run_end(chars@, start + 1, CharClass::Name);
    }
    if end == start + 1 {
        return Err(ParseError { position: end, kind: ErrorKind::EmptyName });
    }
    let name = input.substring_char(start + 1, end).to_owned();
    Ok((end, name))
}

} // verus!
