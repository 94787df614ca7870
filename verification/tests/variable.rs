use script_model::error::{ErrorKind, ParseError};
use script_model::model::datatype::{Array, DataType};
use script_model::model::variable::Variable;

#[test]
fn test_parse_variable() {
    let input = "[int]$variable_name]";
    let expected = Variable {
        name: "variable_name".to_string(),
        data_type: DataType::I32,
        value: 0,
    };

    let (_, result): (_, Variable<i32>) = Variable::parse(input).unwrap();
    assert_eq!(result, expected);
}

#[test]
fn test_parse_variable_with_invalid_input() {
    let input = "invalid_input";
    let result: Result<(_, Variable<i32>), _> = Variable::parse(input);
    assert!(result.is_err());
}

#[test]
fn test_parse_variable_with_different_data_type() {
    let input = "[string]$variable_name]";
    let expected = Variable {
        name: "variable_name".to_string(),
        data_type: DataType::String,
        value: "".to_string(),
    };

    let (_, result): (_, Variable<String>) = Variable::parse(input).unwrap();
    assert_eq!(result, expected);
}

#[test]
fn test_parse_variable_with_empty_name() {
    let input = "[int]$]";
    let result: Result<(_, Variable<i32>), _> = Variable::parse(input);
    assert!(result.is_err());
}

#[test]
fn test_parse_variable_with_missing_data_type() {
    let input = "$variable_name]";
    let result: Result<(_, Variable<i32>), _> = Variable::parse(input);
    assert!(result.is_err());
}

#[test]
fn test_parse_variable_with_special_characters_in_name() {
    let input = "[int]$variable_name_123]";
    let expected = Variable {
        name: "variable_name_123".to_string(),
        data_type: DataType::I32,
        value: 0,
    };

    let (_, result): (_, Variable<i32>) = Variable::parse(input).unwrap();
    assert_eq!(result, expected);
}

#[test]
fn variable_rest_and_default_value() {
    let want = Variable { name: "flags".to_string(), data_type: DataType::Bool, value: false };
    assert_eq!(Variable::<bool>::parse("[bool]$flags = $true"), Ok((" = $true", want)));
    let want = Variable {
        name: "n".to_string(),
        data_type: DataType::Array(Array(Box::new(DataType::Ui64))),
        value: Vec::<u8>::new(),
    };
    assert_eq!(Variable::<Vec<u8>>::parse("ui64[]$n"), Ok(("", want)));
}

#[test]
fn variable_with_empty_tag() {
    let want = Variable { name: "x".to_string(), data_type: DataType::Undefined, value: 0u8 };
    assert_eq!(Variable::<u8>::parse("[]$x"), Ok(("", want)));
}

#[test]
fn variable_failures() {
    assert_eq!(
        Variable::<i32>::parse("$variable_name]"),
        Err(ParseError { position: 0, kind: ErrorKind::TypeTag })
    );
    assert_eq!(
        Variable::<i32>::parse(""),
        Err(ParseError { position: 0, kind: ErrorKind::TypeTag })
    );
    assert_eq!(
        Variable::<i32>::parse("  $x"),
        Err(ParseError { position: 2, kind: ErrorKind::TypeTag })
    );
    assert_eq!(
        Variable::<i32>::parse("invalid_input"),
        Err(ParseError { position: 13, kind: ErrorKind::Sigil })
    );
    assert_eq!(
        Variable::<i32>::parse("[int] $x"),
        Err(ParseError { position: 5, kind: ErrorKind::Sigil })
    );
    assert_eq!(
        Variable::<i32>::parse("[int$x"),
        Err(ParseError { position: 6, kind: ErrorKind::ClosingBracket })
    );
}

#[test]
fn variable_with_empty_name_fails() {
    assert_eq!(
        Variable::<i32>::parse("[int]$]"),
        Err(ParseError { position: 6, kind: ErrorKind::EmptyName })
    );
    assert_eq!(
        Variable::<i32>::parse("[int]$"),
        Err(ParseError { position: 6, kind: ErrorKind::EmptyName })
    );
    assert_eq!(
        Variable::<i32>::parse("int$ x"),
        Err(ParseError { position: 4, kind: ErrorKind::EmptyName })
    );
}

#[test]
fn variable_name_with_letters_outside_ascii() {
    let (rest, got) = Variable::<i32>::parse("[int]$café→").unwrap();
    assert_eq!(got.name, "café");
    assert_eq!(rest, "→");
}

#[test]
fn parsing_the_rest_goes_on_behind_the_variable() {
    let (rest, first) = Variable::<i32>::parse("[int]$a[bool]$b").unwrap();
    assert_eq!(first.name, "a");
    assert_eq!(rest, "[bool]$b");
    let (rest, second) = Variable::<i32>::parse(rest).unwrap();
    assert_eq!(second.name, "b");
    assert_eq!(second.data_type, DataType::Bool);
    assert_eq!(rest, "");
    assert!(Variable::<i32>::parse(rest).is_err());
}

#[test]
fn variable_copies_are_equal() {
    let (_, got) = Variable::<String>::parse("[string]$s").unwrap();
    assert_eq!(got.clone(), got);
}
