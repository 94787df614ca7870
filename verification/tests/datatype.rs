use script_model::error::{ErrorKind, ParseError};
use script_model::model::datatype::{Array, DataType};

fn array(element: DataType) -> DataType {
    DataType::Array(Array(Box::new(element)))
}

fn keywords() -> Vec<(&'static str, DataType)> {
    vec![
        ("STRING", DataType::String),
        ("BOOL", DataType::Bool),
        ("SWITCH", DataType::Switch),
        ("UI32", DataType::Ui32),
        ("UI64", DataType::Ui64),
        ("I32", DataType::I32),
        ("INT", DataType::I32),
        ("I64", DataType::I64),
        ("F32", DataType::F32),
        ("F64", DataType::F64),
        ("PSCREDENTIAL", DataType::Credential),
        ("CREDENTIAL", DataType::Credential),
        ("SECURESTRING", DataType::SecureString),
    ]
}

#[test]
fn test_from_str() {
    assert_eq!("[string]".parse::<DataType>(), Ok(DataType::String));
    assert_eq!("[bool]".parse::<DataType>(), Ok(DataType::Bool));
    assert_eq!("[switch]".parse::<DataType>(), Ok(DataType::Switch));
    assert_eq!("[ui32]".parse::<DataType>(), Ok(DataType::Ui32));
    assert_eq!("[ui64]".parse::<DataType>(), Ok(DataType::Ui64));
    assert_eq!("[i32]".parse::<DataType>(), Ok(DataType::I32));
    assert_eq!("[i64]".parse::<DataType>(), Ok(DataType::I64));
    assert_eq!("[f32]".parse::<DataType>(), Ok(DataType::F32));
    assert_eq!("[f64]".parse::<DataType>(), Ok(DataType::F64));
    assert_eq!(
        "[pscredential]".parse::<DataType>(),
        Ok(DataType::Credential)
    );
    assert_eq!(
        "[SECURESTRING]".parse::<DataType>(),
        Ok(DataType::SecureString)
    );
    assert_eq!("".parse::<DataType>(), Ok(DataType::Undefined));
    assert_eq!("UNKNOWN".parse::<DataType>(), Ok(DataType::Unknown));
    assert_eq!("SOMETHING_ELSE".parse::<DataType>(), Ok(DataType::Unknown));
    assert_eq!(
        "[STRING[]]".parse::<DataType>(),
        Ok(DataType::Array(Array(Box::new(DataType::String))))
    );
    assert_eq!(
        "[BOOL[]]".parse::<DataType>(),
        Ok(DataType::Array(Array(Box::new(DataType::Bool))))
    );
    assert_eq!(
        "[SWITCH[]]".parse::<DataType>(),
        Ok(DataType::Array(Array(Box::new(DataType::Switch))))
    );
    assert_eq!(
        "[UI32[]]".parse::<DataType>(),
        Ok(DataType::Array(Array(Box::new(DataType::Ui32))))
    );
    assert_eq!(
        "[UI64[]]".parse::<DataType>(),
        Ok(DataType::Array(Array(Box::new(DataType::Ui64))))
    );
    assert_eq!(
        "[I32[]]".parse::<DataType>(),
        Ok(DataType::Array(Array(Box::new(DataType::I32))))
    );
    assert_eq!(
        "[I64[]]".parse::<DataType>(),
        Ok(DataType::Array(Array(Box::new(DataType::I64))))
    );
    assert_eq!(
        "[F32[]]".parse::<DataType>(),
        Ok(DataType::Array(Array(Box::new(DataType::F32))))
    );
    assert_eq!(
        "[F64[]]".parse::<DataType>(),
        Ok(DataType::Array(Array(Box::new(DataType::F64))))
    );
    assert_eq!(
        "[psCREDENTIAL[]]".parse::<DataType>(),
        Ok(DataType::Array(Array(Box::new(DataType::Credential))))
    );
    assert_eq!(
        "[UNKNOWN[]]".parse::<DataType>(),
        Ok(DataType::Array(Array(Box::new(DataType::Unknown))))
    );
    assert_eq!(
        "[SOMETHING_ELSE[]]".parse::<DataType>(),
        Ok(DataType::Array(Array(Box::new(DataType::Unknown))))
    );
}

#[test]
fn keyword_is_the_same_type_in_every_form() {
    for (keyword, kind) in keywords() {
        let lower = keyword.to_ascii_lowercase();
        let bracketed = format!("[{}]", keyword);
        let bracketed_lower = format!("[{}]", lower);
        assert_eq!(DataType::parse(keyword), Ok(("", kind.clone())));
        assert_eq!(DataType::parse(&lower), Ok(("", kind.clone())));
        assert_eq!(DataType::parse(&bracketed), Ok(("", kind.clone())));
        assert_eq!(DataType::parse(&bracketed_lower), Ok(("", kind.clone())));
    }
}

#[test]
fn keyword_with_array_mark_is_an_array() {
    for (keyword, kind) in keywords() {
        let lower = keyword.to_ascii_lowercase();
        let bare = format!("{}[]", keyword);
        let bare_lower = format!("{}[]", lower);
        let bracketed = format!("[{}[]]", keyword);
        let bracketed_lower = format!("[{}[]]", lower);
        assert_eq!(DataType::parse(&bare), Ok(("", array(kind.clone()))));
        assert_eq!(DataType::parse(&bare_lower), Ok(("", array(kind.clone()))));
        assert_eq!(DataType::parse(&bracketed), Ok(("", array(kind.clone()))));
        assert_eq!(DataType::parse(&bracketed_lower), Ok(("", array(kind.clone()))));
    }
}

#[test]
fn keyword_in_mixed_case() {
    assert_eq!(DataType::parse("StRiNg"), Ok(("", DataType::String)));
    assert_eq!(DataType::parse("[SecureString]"), Ok(("", DataType::SecureString)));
    assert_eq!(DataType::parse("[Int[]]"), Ok(("", array(DataType::I32))));
}

#[test]
fn empty_tag_is_undefined() {
    assert_eq!(DataType::parse(""), Ok(("", DataType::Undefined)));
    assert_eq!(DataType::parse("[]"), Ok(("", DataType::Undefined)));
}

#[test]
fn empty_word_in_array_brackets() {
    assert_eq!(DataType::parse("[[]]"), Ok(("", array(DataType::Undefined))));
}

#[test]
fn unknown_word_is_unknown() {
    assert_eq!(DataType::parse("TOTALLY_UNKNOWN"), Ok(("", DataType::Unknown)));
    assert_eq!(
        DataType::parse("TOTALLY_UNKNOWN[]"),
        Ok(("", array(DataType::Unknown)))
    );
    assert_eq!(DataType::parse("[TOTALLY_UNKNOWN]"), Ok(("", DataType::Unknown)));
    assert_eq!(
        DataType::parse("[TOTALLY_UNKNOWN[]]"),
        Ok(("", array(DataType::Unknown)))
    );
}

#[test]
fn bracketed_word_may_hold_any_character_but_brackets() {
    assert_eq!(DataType::parse("[System.String]$x"), Ok(("$x", DataType::Unknown)));
    assert_eq!(DataType::parse("[ string ]"), Ok(("", DataType::Unknown)));
}

#[test]
fn double_wrapped_tag_fails() {
    assert_eq!(
        DataType::parse("[[STRING[]]]"),
        Err(ParseError { position: 1, kind: ErrorKind::ClosingBracket })
    );
    assert_eq!(
        DataType::parse("[[STRING]]"),
        Err(ParseError { position: 1, kind: ErrorKind::ClosingBracket })
    );
    assert_eq!("[[STRING[]]]".parse::<DataType>(), Err(()));
}

#[test]
fn unclosed_tag_fails() {
    assert_eq!(
        DataType::parse("[string"),
        Err(ParseError { position: 7, kind: ErrorKind::ClosingBracket })
    );
    assert_eq!(
        DataType::parse("[string[]"),
        Err(ParseError { position: 7, kind: ErrorKind::ClosingBracket })
    );
    assert_eq!(
        DataType::parse("[string[x]]"),
        Err(ParseError { position: 7, kind: ErrorKind::ClosingBracket })
    );
    assert_eq!(
        DataType::parse("["),
        Err(ParseError { position: 1, kind: ErrorKind::ClosingBracket })
    );
}

#[test]
fn leading_blanks_are_skipped() {
    assert_eq!(DataType::parse(" \t\r\n[int]"), Ok(("", DataType::I32)));
    assert_eq!(DataType::parse("  bool"), Ok(("", DataType::Bool)));
    assert_eq!(DataType::parse("   "), Ok(("", DataType::Undefined)));
    assert_eq!(
        DataType::parse("  [int"),
        Err(ParseError { position: 6, kind: ErrorKind::ClosingBracket })
    );
}

#[test]
fn rest_starts_where_the_tag_ends() {
    assert_eq!(DataType::parse("[string]$Test"), Ok(("$Test", DataType::String)));
    assert_eq!(DataType::parse("string $Test"), Ok((" $Test", DataType::String)));
    assert_eq!(DataType::parse("int[]$n"), Ok(("$n", array(DataType::I32))));
    assert_eq!(DataType::parse("[string]]"), Ok(("]", DataType::String)));
    assert_eq!(DataType::parse("$Test"), Ok(("$Test", DataType::Undefined)));
    assert_eq!(DataType::parse("int[x]"), Ok(("[x]", DataType::I32)));
    assert_eq!(DataType::parse("[int][bool]"), Ok(("[bool]", DataType::I32)));
}

#[test]
fn rest_of_a_text_outside_ascii() {
    assert_eq!(DataType::parse("[größe]→x"), Ok(("→x", DataType::Unknown)));
    assert_eq!(DataType::parse("größe→x"), Ok(("→x", DataType::Unknown)));
}

#[test]
fn word_outside_ascii_is_put_in_upper_case() {
    // U+017F, the long s, has `S` as its upper case.
    assert_eq!(DataType::parse("[\u{17f}tring]"), Ok(("", DataType::String)));
    assert_eq!(DataType::parse("\u{17f}witch[]"), Ok(("", array(DataType::Switch))));
    // U+0131, the dotless i, has `I` as its upper case.
    assert_eq!(DataType::parse("[\u{131}nt]"), Ok(("", DataType::I32)));
    // U+FB06, the ligature of s and t, has `ST` as its upper case.
    assert_eq!(DataType::parse("[\u{fb06}ring]"), Ok(("", DataType::String)));
    // U+212A, the Kelvin sign, is its own upper case and no `K`.
    assert_eq!(DataType::parse("[\u{212a}ool]"), Ok(("", DataType::Unknown)));
    assert_eq!(DataType::parse("[é]"), Ok(("", DataType::Unknown)));
}

#[test]
fn parsing_the_rest_goes_on_behind_the_tag() {
    let (rest, first) = DataType::parse("[int][bool[]]tail").unwrap();
    assert_eq!(first, DataType::I32);
    assert_eq!(rest, "[bool[]]tail");
    let (rest, second) = DataType::parse(rest).unwrap();
    assert_eq!(second, array(DataType::Bool));
    assert_eq!(rest, "tail");
    let (rest, third) = DataType::parse(rest).unwrap();
    assert_eq!(third, DataType::Unknown);
    assert_eq!(rest, "");
    assert_eq!(DataType::parse(rest), Ok(("", DataType::Undefined)));
}

#[test]
fn from_str_drops_the_rest() {
    assert_eq!("[string]$Test".parse::<DataType>(), Ok(DataType::String));
    assert_eq!("[string".parse::<DataType>(), Err(()));
}

#[test]
fn same_types() {
    assert!(DataType::String.same(&DataType::String));
    assert!(!DataType::String.same(&DataType::SecureString));
    assert!(!DataType::Undefined.same(&DataType::Unknown));
    assert!(array(DataType::Ui32).same(&array(DataType::Ui32)));
    assert!(!array(DataType::Ui32).same(&array(DataType::Ui64)));
    assert!(!array(DataType::Ui32).same(&DataType::Ui32));
    assert!(array(array(DataType::Bool)).same(&array(array(DataType::Bool))));
    assert!(!array(array(DataType::Bool)).same(&array(DataType::Bool)));
    for (_, kind) in keywords() {
        assert!(kind.same(&kind));
        assert!(kind == kind);
        assert!(!kind.same(&DataType::Unknown));
        assert!(kind != array(kind.duplicate()));
    }
}

#[test]
fn copies_are_equal() {
    let kind = array(DataType::Credential);
    assert_eq!(kind.clone(), kind);
    assert_eq!(kind.duplicate(), kind);
    assert_eq!(DataType::F64.duplicate(), DataType::F64);
    let inner = Array(Box::new(DataType::Unknown));
    assert_eq!(inner.clone(), inner);
    assert_ne!(array(DataType::I32), array(DataType::I64));
    assert_ne!(array(DataType::I32), DataType::I32);
}
