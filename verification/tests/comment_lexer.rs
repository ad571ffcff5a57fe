use luafmt::parser::comment_lexer::{LexicalError, Token};
use luafmt::parser::comment_lexer::Lexer;
use luafmt::parser::comment_lexer::LexicalError::{UnexpectedEOF, UnrecognizedSymbol};
use luafmt::parser::comment_lexer::Token::{EOF, MultiLineComment, NewLine, OneLineComment};

#[test]
fn test_comment_lexer() {

    let tokens = Lexer::new("").collect();
    assert_eq!(tokens, vec!(Ok((0, EOF, 0))));

    let tokens = Lexer::new("  ").collect();
    assert_eq!(tokens, vec!(Ok((2, EOF, 2))));

    let tokens = Lexer::new("  \n  ").collect();
    assert_eq!(tokens, vec!(Ok((2, NewLine, 3)), Ok((5, EOF, 5))));

    let tokens = Lexer::new("\n   \n").collect();
    assert_eq!(tokens, vec!(Ok((0, NewLine, 1)), Ok((4, NewLine, 5)), Ok((5, EOF, 5))));

    let tokens = Lexer::new("--\n").collect();
    assert_eq!(tokens, vec!(Ok((0, OneLineComment("".to_string()), 3)), Ok((3, EOF, 3))));

    let tokens = Lexer::new("--123\n").collect();
    assert_eq!(tokens, vec!(Ok((0, OneLineComment("123".to_string()), 6)), Ok((6, EOF, 6))));

    let tokens = Lexer::new("--123").collect();
    assert_eq!(tokens, vec!(Ok((0, OneLineComment("123".to_string()), 5)), Ok((5, EOF, 5))));

    let tokens = Lexer::new("  --  123  \n  ").collect();
    assert_eq!(tokens, vec!(Ok((2, OneLineComment("  123  ".to_string()), 12)), Ok((14, EOF, 14))));

    let tokens = Lexer::new("--[[]]").collect();
    assert_eq!(tokens, vec!(Ok((0, MultiLineComment(0, "".to_string()), 6)), Ok((6, EOF, 6))));

    let tokens = Lexer::new("--[=[123]=]").collect();
    assert_eq!(tokens, vec!(Ok((0, MultiLineComment(1, "123".to_string()), 11)), Ok((11, EOF, 11))));

    let tokens = Lexer::new("--[=123]=]\n").collect();
    assert_eq!(tokens, vec!(Ok((0, OneLineComment("[=123]=]".to_string()), 11)), Ok((11, EOF, 11))));

    let tokens = Lexer::new("\n\n  --123\n").collect();
    assert_eq!(
        tokens,
        vec!(Ok((0, NewLine, 1)), Ok((1, NewLine, 2)), Ok((4, OneLineComment("123".to_string()), 10)), Ok((10, EOF, 10)))
    );

    let tokens = Lexer::new("--[=123]=]").collect();
    assert_eq!(tokens, vec!(Ok((0, OneLineComment("[=123]=]".to_string()), 10)), Ok((10, EOF, 10))));

    let tokens = Lexer::new("--[=123]=]\n--[=[]=]").collect();
    assert_eq!(
        tokens,
        vec!(Ok((0, OneLineComment("[=123]=]".to_string()), 11)), Ok((11, MultiLineComment(1, "".to_string()), 19)), Ok((19, EOF, 19)))
    );

    let tokens = Lexer::new("--12345678\n--[=]=]\n").collect();
    assert_eq!(
        tokens,
        vec!(Ok((0, OneLineComment("12345678".to_string()), 11)), Ok((11, OneLineComment("[=]=]".to_string()), 19)), Ok((19, EOF, 19)))
    );

    let tokens = Lexer::new("--[===[trtstrst]====]==]==]=]]]========]==]========]===]").collect();
    assert_eq!(
        tokens,
        vec!(Ok((0, MultiLineComment(3, "trtstrst]====]==]==]=]]]========]==]========".to_string()), 56)), Ok((56, EOF, 56)))
    );
}

#[test]
fn test_comment_lexer_errors() {

    let tokens = Lexer::new("`").collect();
    assert_eq!(tokens, vec!(Err(UnrecognizedSymbol(0, '`')), Ok((1, EOF, 1))));

    let tokens = Lexer::new("a = b").collect();
    assert_eq!(
        tokens,
        vec!(
            Err(UnrecognizedSymbol(0, 'a')),
            Err(UnrecognizedSymbol(2, '=')),
            Err(UnrecognizedSymbol(4, 'b')),
            Ok((5, EOF, 5))
        )
    );
}

#[test]
fn test_comment_token_display_text() {
    assert_eq!(Token::OneLineComment(" a".to_string()).display_text(), "-- a\n");
    assert_eq!(Token::MultiLineComment(1, "b".to_string()).display_text(), "--[=[b]=]");
    assert_eq!(Token::NewLine.display_text(), "<NewLine>");
    assert_eq!(Token::EOF.display_text(), "<EOF>");
    assert_eq!(LexicalError::UnexpectedEOF.display_text(), "lexical error: unexpected end of file");
}
