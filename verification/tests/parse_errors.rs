use luafmt::parser::common::ParseError;
use luafmt::parser::{parse_comment, parse_lua};

#[test]
fn lua_test_test_errors() {
    let result = parse_lua("a = 3 + 22 * ? + 65");
    assert!(result.is_err(), "{:?}", result);
    match result.unwrap_err() {
        ParseError::User { .. } => (),
        _ => assert!(false, "wrong error type"),
    };

    let result = parse_lua("1++2");
    assert!(result.is_err(), "{:?}", result);
    match result.unwrap_err() {
        ParseError::UnrecognizedToken { token: (_, _, _) } => (),
        _ => assert!(false, "wrong error type"),
    };

    let result = parse_lua("1 2");
    assert!(result.is_err(), "{:?}", result);
    match result.unwrap_err() {
        ParseError::UnrecognizedToken { token: (_, _, _) } => (),
        _ => assert!(false, "wrong error type"),
    };

    let result = parse_lua("1+");
    assert!(result.is_err(), "{:?}", result);
    match result.unwrap_err() {
        ParseError::UnrecognizedToken { token: (_, _, _) } => (),
        _ => assert!(false, "wrong error type"),
    };
}

#[test]
fn comment_test_test_errors() {
    let result = parse_comment("a");
    assert!(result.is_err(), "{:?}", result);
    match result.unwrap_err() {
        ParseError::User { .. } => (),
        _ => assert!(false, "wrong error type"),
    };

    let result = parse_comment("--[[asd");
    assert!(result.is_err(), "{:?}", result);
    match result.unwrap_err() {
        ParseError::User { .. } => (),
        _ => assert!(false, "wrong error type"),
    };
}
