use script_model::error::{ErrorKind, ParseError};
use script_model::model::datatype::{keyword_of, resolve_word, type_tag_at, DataType};
use script_model::model::name::sigil_name_at;
use script_model::model::parameter::{attributes_at, closer_at, help_message_at, mandatory_at, Mandatory};
use script_model::text::{
    char_at, chars_of, fold, keyword_at, literal_at, name_char, range_folds_to, scan, text_is,
    to_ascii_upper, CharClass,
};

#[test]
fn chars_of_a_text() {
    assert_eq!(chars_of(""), Vec::<char>::new());
    assert_eq!(chars_of("a→b"), vec!['a', '→', 'b']);
}

#[test]
fn classes_of_characters() {
    for c in [' ', '\t', '\r', '\n'] {
        assert!(CharClass::Blank.contains(c));
    }
    for c in ['a', '\u{b}', '\u{c}', '\u{a0}', '_'] {
        assert!(!CharClass::Blank.contains(c));
    }
    for c in ['a', 'z', 'A', 'Z', '0', '9', '_', 'é', '٣', '藏'] {
        assert!(CharClass::Name.contains(c));
        assert!(name_char(c));
    }
    for c in ['$', '[', ']', ' ', '-', '.', '/', ':', '@', '`', '{', '\u{7f}', '→', '💝'] {
        assert!(!CharClass::Name.contains(c));
        assert!(!name_char(c));
    }
    assert!(!CharClass::TagText.contains('['));
    assert!(!CharClass::TagText.contains(']'));
    assert!(CharClass::TagText.contains('"'));
    assert!(!CharClass::Quoted.contains('"'));
    assert!(CharClass::Quoted.contains(']'));
}

#[test]
fn upper_case_of_ascii_letters() {
    assert_eq!(to_ascii_upper('a'), 'A');
    assert_eq!(to_ascii_upper('z'), 'Z');
    assert_eq!(to_ascii_upper('Q'), 'Q');
    assert_eq!(to_ascii_upper('7'), '7');
    assert_eq!(to_ascii_upper('`'), '`');
    assert_eq!(to_ascii_upper('{'), '{');
    assert_eq!(to_ascii_upper('é'), 'é');
}

#[test]
fn runs() {
    let chars = chars_of("  ab_1 ]");
    assert_eq!(scan(&chars, 0, CharClass::Blank), 2);
    assert_eq!(scan(&chars, 2, CharClass::Blank), 2);
    assert_eq!(scan(&chars, 2, CharClass::Name), 6);
    assert_eq!(scan(&chars, 0, CharClass::TagText), 7);
    assert_eq!(scan(&chars, 0, CharClass::Quoted), 8);
    assert_eq!(scan(&chars, 8, CharClass::Quoted), 8);
    assert_eq!(scan(&chars, 20, CharClass::Quoted), 20);
}

#[test]
fn tokens() {
    let chars = chars_of("[Parameter(mandatory");
    assert!(char_at(&chars, 0, '['));
    assert!(!char_at(&chars, 1, '['));
    assert!(!char_at(&chars, 20, '['));
    assert_eq!(literal_at(&chars, 0, "[Parameter("), Some(11));
    assert_eq!(literal_at(&chars, 1, "Parameter"), Some(10));
    assert_eq!(literal_at(&chars, 1, "parameter"), None);
    assert_eq!(literal_at(&chars, 11, "mandatory!"), None);
    assert_eq!(literal_at(&chars, 20, ""), Some(20));
    assert_eq!(literal_at(&chars, 21, ""), None);
    assert_eq!(keyword_at(&chars, 11, "MANDATORY"), Some(20));
    assert_eq!(keyword_at(&chars, 1, "PARAMETER"), Some(10));
    assert_eq!(keyword_at(&chars, 12, "MANDATORY"), None);
    assert_eq!(keyword_at(&chars, 30, "MANDATORY"), None);
    assert!(range_folds_to(&chars, 1, 4, "PAR"));
    assert!(!range_folds_to(&chars, 1, 4, "par"));
    assert!(!range_folds_to(&chars, 1, 5, "PAR"));
}

#[test]
fn whole_texts() {
    assert!(text_is(&chars_of("INT"), "INT"));
    assert!(!text_is(&chars_of("INT"), "IN"));
    assert!(!text_is(&chars_of("IN"), "INT"));
    assert!(!text_is(&chars_of("int"), "INT"));
    assert!(text_is(&chars_of(""), ""));
    assert!(!text_is(&chars_of("x"), ""));
}

#[test]
fn upper_case_of_a_stretch() {
    let text = "[Int_9]";
    assert_eq!(fold(text, &chars_of(text), 1, 6), vec!['I', 'N', 'T', '_', '9']);
    assert_eq!(fold(text, &chars_of(text), 3, 3), Vec::<char>::new());
    let text = "a\u{17f}\u{df}é";
    assert_eq!(fold(text, &chars_of(text), 0, 4), vec!['A', 'S', 'S', 'S', 'É']);
    assert_eq!(fold(text, &chars_of(text), 0, 1), vec!['A']);
    assert_eq!(fold(text, &chars_of(text), 3, 4), vec!['É']);
}

#[test]
fn keywords() {
    assert_eq!(keyword_of(&chars_of("STRING")), Some(DataType::String));
    assert_eq!(keyword_of(&chars_of("INT")), Some(DataType::I32));
    assert_eq!(keyword_of(&chars_of("I32")), Some(DataType::I32));
    assert_eq!(keyword_of(&chars_of("CREDENTIAL")), Some(DataType::Credential));
    assert_eq!(keyword_of(&chars_of("PSCREDENTIAL")), Some(DataType::Credential));
    assert_eq!(keyword_of(&chars_of("string")), None);
    assert_eq!(keyword_of(&chars_of("STRINGS")), None);
    assert_eq!(keyword_of(&chars_of("")), None);
}

#[test]
fn words() {
    let text = "[Int]";
    let chars = chars_of(text);
    assert_eq!(resolve_word(text, &chars, 1, 4), DataType::I32);
    assert_eq!(resolve_word(text, &chars, 1, 3), DataType::Unknown);
    assert_eq!(resolve_word(text, &chars, 2, 2), DataType::Undefined);
}

#[test]
fn parts_of_a_declaration_at_a_position() {
    let text = "x [Parameter( Mandatory=$no , HelpMessage=\"h\" ) ] [f64[]] $v;";
    let chars = chars_of(text);
    assert_eq!(
        attributes_at(text, &chars, 2),
        Ok((49, Mandatory(true), Some("h".to_string())))
    );
    assert_eq!(mandatory_at(&chars, 14), Ok((27, Mandatory(true))));
    assert_eq!(help_message_at(text, &chars, 30), Ok((45, "h".to_string())));
    assert_eq!(closer_at(&chars, 45), Ok(49));
    assert_eq!(closer_at(&chars, 48), Ok(49));
    assert_eq!(
        closer_at(&chars, 49),
        Err(ParseError { position: 50, kind: ErrorKind::AttributeCloser })
    );
    assert_eq!(
        type_tag_at(text, &chars, 49),
        Ok((57, DataType::parse("f64[]").unwrap().1))
    );
    assert_eq!(sigil_name_at(text, &chars, 58), Ok((60, "v".to_string())));
    assert_eq!(
        sigil_name_at(text, &chars, 57),
        Err(ParseError { position: 57, kind: ErrorKind::Sigil })
    );
}
