//! The plain written form of a declaration, and the law that the parser reads
//! it back: whatever flag, help message, type word and name a declaration is
//! written with, parsing its text gives exactly these.

use crate::error::{stops_at, Outcome};
use crate::model::datatype::{
    array_marked, array_of, bracketed, lemma_type_tag_skip, resolve, type_tag, DataType,
};
use crate::model::name::{is_name, lemma_sigil_name_skip, sigil_name};
use crate::model::parameter::{
    attributes, closer, help_message, lemma_closer_skip, lemma_help_message_skip,
    lemma_mandatory_skip, mandatory, parameter, Mandatory, ParameterView,
};
use crate::text::{
    has_char_at, has_literal_at, is_name_char, lemma_join_assoc, lemma_run_end_unique,
    lemma_skip_join, run_end, upper, CharClass,
};
use vstd::prelude::*;

verus! {

/// The text of a `Mandatory` attribute with the flag `flag`.
#[verifier::opaque]
pub open spec fn mandatory_text(flag: bool) -> Seq<char> {
    "Mandatory = $"@ + (if flag {
        "true"@
    } else {
        "false"@
    })
}

/// The text of a `HelpMessage` attribute with the message `text`.
#[verifier::opaque]
pub open spec fn help_message_text(text: Seq<char>) -> Seq<char> {
    "HelpMessage = \""@ + text + "\""@
}

/// The text of an attribute block with the flag `flag` and, where `help` is
/// some message, that message.
#[verifier::opaque]
pub open spec fn attributes_text(flag: bool, help: Option<Seq<char>>) -> Seq<char> {
    match help {
        Some(text) => "[Parameter("@ + mandatory_text(flag) + ", "@ + help_message_text(text)
            + ")]"@,
        None => "[Parameter("@ + mandatory_text(flag) + ")]"@,
    }
}

/// The text of a type tag in brackets with the word `word`, as an array if
/// `array` is set.
#[verifier::opaque]
pub open spec fn tag_text(word: Seq<char>, array: bool) -> Seq<char> {
    if array {
        bracketed(array_marked(word))
    } else {
        bracketed(word)
    }
}

/// The type that [`tag_text`] denotes.
pub open spec fn tag_kind(word: Seq<char>, array: bool) -> DataType {
    if array {
        array_of(resolve(word))
    } else {
        resolve(word)
    }
}

/// The text of a variable reference with the name `name`.
#[verifier::opaque]
pub open spec fn reference_text(name: Seq<char>) -> Seq<char> {
    seq!['$'] + name
}

/// The text of a parameter declaration: the attribute block, a space, the
/// type tag, and the variable reference.
#[verifier::opaque]
pub open spec fn declaration_text(
    flag: bool,
    help: Option<Seq<char>>,
    word: Seq<char>,
    array: bool,
    name: Seq<char>,
) -> Seq<char> {
    attributes_text(flag, help) + seq![' '] + tag_text(word, array) + reference_text(name)
}

/// Whether `rest` can follow a name: it is empty or starts with a character
/// that is no name character.
pub open spec fn ends_name(rest: Seq<char>) -> bool {
    rest.len() == 0 || !is_name_char(rest[0])
}

/// A written `Mandatory` attribute parses to its flag, whatever follows it
/// that is no name character.
pub proof fn lemma_mandatory_text(flag: bool, rest: Seq<char>)
    requires
        ends_name(rest),
    ensures
        mandatory(mandatory_text(flag) + rest, 0) == stops_at(
            mandatory_text(flag).len() as int,
            Mandatory(flag),
        ),
{
    reveal(mandatory_text);
    reveal_strlit("Mandatory = $");
    reveal_strlit("MANDATORY");
    reveal_strlit("true");
    reveal_strlit("false");
    reveal_strlit("FALSE");
    let s = mandatory_text(flag) + rest;
    let end = mandatory_text(flag).len() as int;
    assert(upper(s.subrange(0, 9)) =~= "MANDATORY"@);
    lemma_run_end_unique(s, 9, 10, CharClass::Blank);
    lemma_run_end_unique(s, 11, 12, CharClass::Blank);
    assert forall|i: int| 13 <= i < end implies CharClass::Name.holds(#[trigger] s[i]) by {
        assert(s[i] == mandatory_text(flag)[i]);
    }
    if end < s.len() {
        assert(s[end] == rest[0]);
    }
    lemma_run_end_unique(s, 13, end, CharClass::Name);
    if flag {
        assert(upper(s.subrange(13, end)).len() == 4);
    } else {
        assert(upper(s.subrange(13, end)) =~= "FALSE"@);
    }
}

/// A written `HelpMessage` attribute parses to its message, whatever follows
/// it, if the message holds no double quote.
pub proof fn lemma_help_message_text(text: Seq<char>, rest: Seq<char>)
    requires
        forall|i: int| 0 <= i < text.len() ==> #[trigger] text[i] != '"',
    ensures
        help_message(help_message_text(text) + rest, 0) == stops_at(
            help_message_text(text).len() as int,
            text,
        ),
{
    reveal(help_message_text);
    reveal_strlit("HelpMessage = \"");
    reveal_strlit("HelpMessage");
    reveal_strlit("\"");
    let s = help_message_text(text) + rest;
    let close = 15 + text.len() as int;
    assert(s.subrange(0, 11) =~= "HelpMessage"@);
    lemma_run_end_unique(s, 11, 12, CharClass::Blank);
    lemma_run_end_unique(s, 13, 14, CharClass::Blank);
    assert forall|i: int| 15 <= i < close implies CharClass::Quoted.holds(#[trigger] s[i]) by {
        assert(s[i] == text[i - 15]);
    }
    assert(s[close] == '"');
    lemma_run_end_unique(s, 15, close, CharClass::Quoted);
    assert(s.subrange(15, close) =~= text);
}

/// The written closer `)]` parses, whatever follows it.
pub proof fn lemma_closer_text(rest: Seq<char>)
    ensures
        closer(")]"@ + rest, 0) == stops_at(2int, ()),
{
    reveal_strlit(")]");
    let s = ")]"@ + rest;
    lemma_run_end_unique(s, 0, 0, CharClass::Blank);
    lemma_run_end_unique(s, 1, 1, CharClass::Blank);
}

/// A written type tag behind a space parses to its type, whatever follows
/// it, if its word holds no square bracket.
pub proof fn lemma_tag_text(word: Seq<char>, array: bool, rest: Seq<char>)
    requires
        forall|i: int| 0 <= i < word.len() ==> CharClass::TagText.holds(#[trigger] word[i]),
    ensures
        type_tag(seq![' '] + tag_text(word, array) + rest, 0) == stops_at(
            1 + tag_text(word, array).len() as int,
            tag_kind(word, array),
        ),
{
    reveal(tag_text);
    reveal_strlit("[]");
    reveal_strlit("[]]");
    let tag = tag_text(word, array);
    let s = seq![' '] + tag + rest;
    let end = 2 + word.len() as int;
    assert(s[0] == ' ');
    assert(s[1] == tag[0] && tag[0] == '[');
    lemma_run_end_unique(s, 0, 1, CharClass::Blank);
    assert forall|i: int| 2 <= i < end implies CharClass::TagText.holds(#[trigger] s[i]) by {
        assert(s[i] == tag[i - 1] && tag[i - 1] == word[i - 2]);
    }
    assert(s[end] == tag[end - 1]);
    lemma_run_end_unique(s, 2, end, CharClass::TagText);
    assert(s.subrange(2, end) =~= word);
    if array {
        assert(s[end + 1] == tag[end]);
        assert(s[end + 2] == tag[end + 1]);
        assert(s.subrange(end, end + 3) =~= "[]]"@);
    } else {
        assert(s[end] == ']');
        if end + 3 <= s.len() {
            assert(s.subrange(end, end + 3)[0] == s[end]);
        }
    }
}

/// A written variable reference parses to its name, whatever follows it
/// that is no name character.
pub proof fn lemma_reference_text(name: Seq<char>, rest: Seq<char>)
    requires
        is_name(name),
        ends_name(rest),
    ensures
        sigil_name(reference_text(name) + rest, 0) == stops_at(
            reference_text(name).len() as int,
            name,
        ),
{
    reveal(reference_text);
    let s = reference_text(name) + rest;
    let end = 1 + name.len() as int;
    assert forall|i: int| 1 <= i < end implies CharClass::Name.holds(#[trigger] s[i]) by {
        assert(s[i] == name[i - 1]);
    }
    if end < s.len() {
        assert(s[end] == rest[0]);
    }
    lemma_run_end_unique(s, 1, end, CharClass::Name);
    assert(s.subrange(1, end) =~= name);
}

/// The start of a written attribute block: the opener stands at the start,
/// and the `Mandatory` attribute behind it parses to its flag, whatever
/// follows that is no name character.
pub proof fn lemma_block_start(flag: bool, tail: Seq<char>)
    requires
        ends_name(tail),
    ensures
        ({
            let s = "[Parameter("@ + (mandatory_text(flag) + tail);
            let first = "[Parameter("@.len() as int;
            &&& has_literal_at(s, 0, "[Parameter("@)
            &&& run_end(s, first, CharClass::Blank) == first
            &&& mandatory(s, first) == stops_at(first + mandatory_text(flag).len(), Mandatory(flag))
        }),
{
    reveal(mandatory_text);
    let opener = "[Parameter("@;
    let first = opener.len() as int;
    let s = opener + (mandatory_text(flag) + tail);
    assert(s.subrange(0, first) =~= opener);
    assert(s[first] == 'M') by {
        reveal_strlit("Mandatory = $");
        assert(s[first] == mandatory_text(flag)[0]);
    }
    lemma_run_end_unique(s, first, first, CharClass::Blank);
    lemma_mandatory_skip(s, first, 0);
    assert(s.skip(first) =~= mandatory_text(flag) + tail);
    lemma_mandatory_text(flag, tail);
}

/// The end of a written attribute block: where `)]` stands at `pos`, no help
/// message follows and the closer parses.
pub proof fn lemma_block_end(s: Seq<char>, pos: int, rest: Seq<char>)
    requires
        0 <= pos <= s.len(),
        s.skip(pos) == ")]"@ + rest,
    ensures
        !has_char_at(s, run_end(s, pos, CharClass::Blank), ','),
        closer(s, pos) == stops_at(pos + 2, ()),
{
    reveal_strlit(")]");
    let t = s.skip(pos);
    assert(t.len() == 2 + rest.len());
    assert(t.len() == s.len() - pos);
    assert(t[0] == ')');
    assert(s[pos] == t[0]);
    lemma_run_end_unique(s, pos, pos, CharClass::Blank);
    lemma_closer_skip(s, pos, 0);
    lemma_closer_text(rest);
}

/// The help message of a written attribute block: where `, ` and the
/// `HelpMessage` attribute stand at `pos`, the attribute parses to its
/// message.
pub proof fn lemma_block_help(s: Seq<char>, pos: int, text: Seq<char>, tail: Seq<char>)
    requires
        0 <= pos <= s.len(),
        s.skip(pos) == ", "@ + (help_message_text(text) + tail),
        forall|i: int| 0 <= i < text.len() ==> #[trigger] text[i] != '"',
    ensures
        ({
            let comma = run_end(s, pos, CharClass::Blank);
            let second = run_end(s, comma + 1, CharClass::Blank);
            &&& comma == pos
            &&& has_char_at(s, comma, ',')
            &&& second == pos + 2
            &&& help_message(s, second) == stops_at(pos + 2 + help_message_text(text).len(), text)
        }),
{
    reveal(help_message_text);
    let t = s.skip(pos);
    let message = help_message_text(text);
    assert(pos + 2 < s.len() && s[pos] == ',' && s[pos + 1] == ' ' && s[pos + 2] == 'H') by {
        reveal_strlit(", ");
        reveal_strlit("HelpMessage = \"");
        assert(message.len() >= 15);
        assert(t.len() == 2 + (message.len() + tail.len()));
        assert(t.len() == s.len() - pos);
        assert(t[0] == ',' && t[1] == ' ');
        assert(t[2] == message[0]);
        assert(s[pos] == t[0]);
        assert(s[pos + 1] == t[1]);
        assert(s[pos + 2] == t[2]);
    }
    lemma_run_end_unique(s, pos, pos, CharClass::Blank);
    lemma_run_end_unique(s, pos + 1, pos + 2, CharClass::Blank);
    lemma_help_message_skip(s, pos + 2, 0);
    assert(s.skip(pos + 2) == message + tail) by {
        reveal_strlit(", ");
        lemma_skip_join(", "@, message + tail);
        assert(s.skip(pos + 2) =~= t.skip(2));
    }
    lemma_help_message_text(text, tail);
}

/// How the text of an attribute block without a help message, and what
/// follows it, fall into parts.
proof fn lemma_block_split_plain(flag: bool, rest: Seq<char>)
    ensures
        ({
            let s = attributes_text(flag, None) + rest;
            let after_flag = ("[Parameter("@.len() + mandatory_text(flag).len()) as int;
            &&& s == "[Parameter("@ + (mandatory_text(flag) + (")]"@ + rest))
            &&& (")]"@ + rest)[0] == ')'
            &&& 0 <= after_flag <= s.len()
            &&& s.skip(after_flag) == ")]"@ + rest
            &&& attributes_text(flag, None).len() == after_flag + 2
        }),
{
    reveal(attributes_text);
    reveal_strlit(")]");
    let opener = "[Parameter("@;
    let flag_text = mandatory_text(flag);
    let tail = ")]"@ + rest;
    lemma_join_assoc(opener + flag_text, ")]"@, rest);
    lemma_join_assoc(opener, flag_text, tail);
    lemma_skip_join(opener + flag_text, tail);
}

/// How the text of an attribute block with a help message, and what follows
/// it, fall into parts.
proof fn lemma_block_split_help(flag: bool, text: Seq<char>, rest: Seq<char>)
    ensures
        ({
            let s = attributes_text(flag, Some(text)) + rest;
            let message = help_message_text(text);
            let last = ")]"@ + rest;
            let tail = ", "@ + (message + last);
            let after_flag = ("[Parameter("@.len() + mandatory_text(flag).len()) as int;
            let after_text = after_flag + 2 + message.len();
            &&& s == "[Parameter("@ + (mandatory_text(flag) + tail)
            &&& tail[0] == ','
            &&& 0 <= after_flag <= after_text <= s.len()
            &&& s.skip(after_flag) == tail
            &&& s.skip(after_text) == last
            &&& attributes_text(flag, Some(text)).len() == after_text + 2
        }),
{
    reveal(attributes_text);
    reveal_strlit(", ");
    reveal_strlit(")]");
    let opener = "[Parameter("@;
    let flag_text = mandatory_text(flag);
    let message = help_message_text(text);
    let last = ")]"@ + rest;
    let tail = ", "@ + (message + last);
    lemma_join_assoc(opener + flag_text + ", "@ + message, ")]"@, rest);
    lemma_join_assoc(opener + flag_text + ", "@, message, last);
    lemma_join_assoc(opener + flag_text, ", "@, message + last);
    lemma_join_assoc(opener, flag_text, tail);
    lemma_skip_join(opener + flag_text, tail);
    lemma_skip_join(opener + flag_text + ", "@ + message, last);
}

/// A written attribute block without a help message parses to its flag,
/// whatever follows it.
pub proof fn lemma_attributes_text_plain(flag: bool, rest: Seq<char>)
    ensures
        attributes(attributes_text(flag, None) + rest, 0) == stops_at(
            attributes_text(flag, None).len() as int,
            (Mandatory(flag), None::<Seq<char>>),
        ),
{
    let s = attributes_text(flag, None) + rest;
    let after_flag = ("[Parameter("@.len() + mandatory_text(flag).len()) as int;
    lemma_block_split_plain(flag, rest);
    lemma_block_start(flag, ")]"@ + rest);
    lemma_block_end(s, after_flag, rest);
}

/// A written attribute block with a help message parses to its flag and its
/// message, whatever follows it, if the message holds no double quote.
pub proof fn lemma_attributes_text_help(flag: bool, text: Seq<char>, rest: Seq<char>)
    requires
        forall|i: int| 0 <= i < text.len() ==> #[trigger] text[i] != '"',
    ensures
        attributes(attributes_text(flag, Some(text)) + rest, 0) == stops_at(
            attributes_text(flag, Some(text)).len() as int,
            (Mandatory(flag), Some(text)),
        ),
{
    let s = attributes_text(flag, Some(text)) + rest;
    let message = help_message_text(text);
    let last = ")]"@ + rest;
    let after_flag = ("[Parameter("@.len() + mandatory_text(flag).len()) as int;
    lemma_block_split_help(flag, text, rest);
    lemma_block_start(flag, ", "@ + (message + last));
    lemma_block_help(s, after_flag, text, last);
    lemma_block_end(s, after_flag + 2 + message.len(), rest);
}

/// A written attribute block parses to its flag and its message, whatever
/// follows it, if the message holds no double quote.
pub proof fn lemma_attributes_text(flag: bool, help: Option<Seq<char>>, rest: Seq<char>)
    requires
        help matches Some(text) ==> forall|i: int|
            0 <= i < text.len() ==> #[trigger] text[i] != '"',
    ensures
        attributes(attributes_text(flag, help) + rest, 0) == stops_at(
            attributes_text(flag, help).len() as int,
            (Mandatory(flag), help),
        ),
{
    match help {
        Some(text) => lemma_attributes_text_help(flag, text, rest),
        None => lemma_attributes_text_plain(flag, rest),
    }
}

/// A declaration is its three parts one behind the other: where the
/// attribute block parses, the type tag parses in what is left behind the
/// block, and the variable reference stands directly behind the tag, the
/// declaration parses to what the three give.
pub proof fn lemma_parameter_parts(
    s: Seq<char>,
    block: Outcome<(Mandatory, Option<Seq<char>>)>,
    tag: Outcome<DataType>,
    reference: Outcome<Seq<char>>,
)
    requires
        block is Ok,
        tag is Ok,
        reference is Ok,
        attributes(s, 0) == block,
        0 <= block->Ok_0.0 <= s.len(),
        type_tag(s.skip(block->Ok_0.0), 0) == tag,
        0 <= tag->Ok_0.0 <= s.len() - block->Ok_0.0,
        sigil_name(s.skip(block->Ok_0.0 + tag->Ok_0.0), 0) == reference,
    ensures
        parameter(s, 0) == stops_at(
            block->Ok_0.0 + tag->Ok_0.0 + reference->Ok_0.0,
            (ParameterView {
                name: reference->Ok_0.1,
                data_type: tag->Ok_0.1,
                mandatory: block->Ok_0.1.0,
                help_message: block->Ok_0.1.1,
            }),
        ),
{
    let after_block = block->Ok_0.0;
    let after_tag = after_block + tag->Ok_0.0;
    lemma_type_tag_skip(s, after_block, 0);
    lemma_sigil_name_skip(s, after_tag, 0);
    if after_tag < s.len() {
        assert(s[after_tag] == s.skip(after_tag)[0]);
    }
    lemma_run_end_unique(s, after_tag, after_tag, CharClass::Blank);
}

/// How the text of a declaration and what follows it fall into the three
/// parts.
proof fn lemma_declaration_split(
    block: Seq<char>,
    tag: Seq<char>,
    reference: Seq<char>,
    rest: Seq<char>,
)
    ensures
        ({
            let s = block + seq![' '] + tag + reference + rest;
            &&& s == block + (seq![' '] + tag + (reference + rest))
            &&& s.skip(block.len() as int) == seq![' '] + tag + (reference + rest)
            &&& s.skip(block.len() as int + 1 + tag.len()) == reference + rest
            &&& s.len() == block.len() + 1 + tag.len() + reference.len() + rest.len()
        }),
{
    let s = block + seq![' '] + tag + reference + rest;
    assert(s =~= block + (seq![' '] + tag + (reference + rest)));
    assert(s.skip(block.len() as int) =~= seq![' '] + tag + (reference + rest));
    assert(s.skip(block.len() as int + 1 + tag.len()) =~= reference + rest);
}

/// The attribute block of a written declaration parses to its flag and its
/// message.
proof fn lemma_declaration_block(
    flag: bool,
    help: Option<Seq<char>>,
    word: Seq<char>,
    array: bool,
    name: Seq<char>,
    rest: Seq<char>,
)
    requires
        help matches Some(text) ==> forall|i: int|
            0 <= i < text.len() ==> #[trigger] text[i] != '"',
    ensures
        attributes(declaration_text(flag, help, word, array, name) + rest, 0) == stops_at(
            attributes_text(flag, help).len() as int,
            (Mandatory(flag), help),
        ),
{
    reveal(declaration_text);
    let tag = tag_text(word, array);
    let reference = reference_text(name);
    lemma_declaration_split(attributes_text(flag, help), tag, reference, rest);
    lemma_attributes_text(flag, help, seq![' '] + tag + (reference + rest));
}

/// The type tag of a written declaration parses to its type in what is left
/// behind the attribute block.
proof fn lemma_declaration_tag(
    flag: bool,
    help: Option<Seq<char>>,
    word: Seq<char>,
    array: bool,
    name: Seq<char>,
    rest: Seq<char>,
)
    requires
        forall|i: int| 0 <= i < word.len() ==> CharClass::TagText.holds(#[trigger] word[i]),
    ensures
        type_tag(
            (declaration_text(flag, help, word, array, name) + rest).skip(
                attributes_text(flag, help).len() as int,
            ),
            0,
        ) == stops_at(1 + tag_text(word, array).len() as int, tag_kind(word, array)),
{
    reveal(declaration_text);
    let reference = reference_text(name);
    lemma_declaration_split(attributes_text(flag, help), tag_text(word, array), reference, rest);
    lemma_tag_text(word, array, reference + rest);
}

/// The variable reference of a written declaration parses to its name in
/// what is left behind the type tag.
proof fn lemma_declaration_reference(
    flag: bool,
    help: Option<Seq<char>>,
    word: Seq<char>,
    array: bool,
    name: Seq<char>,
    rest: Seq<char>,
)
    requires
        is_name(name),
        ends_name(rest),
    ensures
        sigil_name(
            (declaration_text(flag, help, word, array, name) + rest).skip(
                attributes_text(flag, help).len() as int + (1 + tag_text(word, array).len() as int),
            ),
            0,
        ) == stops_at(reference_text(name).len() as int, name),
        declaration_text(flag, help, word, array, name).len() == attributes_text(
            flag,
            help,
        ).len() + 1 + tag_text(word, array).len() + reference_text(name).len(),
        (declaration_text(flag, help, word, array, name) + rest).len() == declaration_text(
            flag,
            help,
            word,
            array,
            name,
        ).len() + rest.len(),
{
    reveal(declaration_text);
    lemma_declaration_split(
        attributes_text(flag, help),
        tag_text(word, array),
        reference_text(name),
        rest,
    );
    lemma_reference_text(name, rest);
}

/// Parsing reads back what was written. Whatever flag, help message, type
/// word and name a declaration is written with, its text parses to the
/// parameter with that name, the type that the word denotes, that flag and
/// that help message, and the parse stops at the end of the declaration:
/// what follows is left over, if it cannot continue the name.
///
/// The help message may hold anything but a double quote, and the word
/// anything but a square bracket.
pub proof fn lemma_declaration_text(
    flag: bool,
    help: Option<Seq<char>>,
    word: Seq<char>,
    array: bool,
    name: Seq<char>,
    rest: Seq<char>,
)
    requires
        help matches Some(text) ==> forall|i: int|
            0 <= i < text.len() ==> #[trigger] text[i] != '"',
        forall|i: int| 0 <= i < word.len() ==> CharClass::TagText.holds(#[trigger] word[i]),
        is_name(name),
        ends_name(rest),
    ensures
        parameter(declaration_text(flag, help, word, array, name) + rest, 0) == stops_at(
            declaration_text(flag, help, word, array, name).len() as int,
            (ParameterView {
                name,
                data_type: tag_kind(word, array),
                mandatory: Mandatory(flag),
                help_message: help,
            }),
        ),
{
    lemma_declaration_block(flag, help, word, array, name, rest);
    lemma_declaration_tag(flag, help, word, array, name, rest);
    lemma_declaration_reference(flag, help, word, array, name, rest);
    lemma_parameter_parts(
        declaration_text(flag, help, word, array, name) + rest,
        Ok((attributes_text(flag, help).len() as int, (Mandatory(flag), help))),
        Ok((1 + tag_text(word, array).len() as int, tag_kind(word, array))),
        Ok((reference_text(name).len() as int, name)),
    );
}

} // verus!
