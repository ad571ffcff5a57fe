use luafmt::parser::lua_lexer::Lexer;
use luafmt::parser::lua_lexer::LexicalError::{UnexpectedEOF, UnrecognizedSymbol};
use luafmt::parser::lua_lexer::Token::{CharStringLiteral, CloseCurlyBracket, CloseRoundBracket, Comma, Do, EOF, End, EqualsSign, For, In, Local, Minus, MultiLineStringLiteral, NormalStringLiteral, Numeral, OpAddition, OpenCurlyBracket, OpenRoundBracket, Period, SheBang, Variable};

#[test]
fn test_lua_lexer() {

    let tokens = Lexer::new("").collect();
    assert_eq!(tokens, vec!(Ok((0, EOF, 0))));

    let tokens = Lexer::new("  ").collect();
    assert_eq!(tokens, vec!(Ok((2, EOF, 2))));

    let tokens = Lexer::new("  \n  ").collect();
    assert_eq!(tokens, vec!(Ok((5, EOF, 5))));

    let tokens = Lexer::new("\n   \n").collect();
    assert_eq!(tokens, vec!(Ok((5, EOF, 5))));

    let tokens = Lexer::new("--123\n--[[54354]]").collect();
    assert_eq!(tokens, vec!(Ok((17, EOF, 17))));

    let tokens = Lexer::new("\n#!/usr/bin/lua\n  ").collect();
    assert_eq!(tokens, vec!(Ok((1, SheBang("#!/usr/bin/lua".to_string()), 16)), Ok((18, EOF, 18))));

    let tokens = Lexer::new("  a = b  ").collect();
    assert_eq!(
        tokens,
        vec!(
            Ok((2, Variable("a".to_string()), 3)),
            Ok((4, EqualsSign, 5)),
            Ok((6, Variable("b".to_string()), 7)),
            Ok((9, EOF, 9))
        )
    );

    let tokens = Lexer::new("a = \"st'ri'[[n]]g\"").collect();
    assert_eq!(
        tokens,
        vec!(
            Ok((0, Variable("a".to_string()), 1)),
            Ok((2, EqualsSign, 3)),
            Ok((4, NormalStringLiteral("st'ri'[[n]]g".to_string()), 18)),
            Ok((18, EOF, 18))
        )
    );

    let tokens = Lexer::new("a = '[[s]]t\"ri\"ng'").collect();
    assert_eq!(
        tokens,
        vec!(
            Ok((0, Variable("a".to_string()), 1)),
            Ok((2, EqualsSign, 3)),
            Ok((4, CharStringLiteral("[[s]]t\"ri\"ng".to_string()), 18)),
            Ok((18, EOF, 18))
        )
    );

    let tokens = Lexer::new("a = [[]]").collect();
    assert_eq!(
        tokens,
        vec!(
            Ok((0, Variable("a".to_string()), 1)),
            Ok((2, EqualsSign, 3)),
            Ok((4, MultiLineStringLiteral(0, "".to_string()), 8)),
            Ok((8, EOF, 8))
        )
    );

    let tokens = Lexer::new("a = [[st\"r'i\"n'g]]").collect();
    assert_eq!(
        tokens,
        vec!(
            Ok((0, Variable("a".to_string()), 1)),
            Ok((2, EqualsSign, 3)),
            Ok((4, MultiLineStringLiteral(0, "st\"r'i\"n'g".to_string()), 18)),
            Ok((18, EOF, 18))
        )
    );

    let tokens = Lexer::new("a = [=[]=]").collect();
    assert_eq!(
        tokens,
        vec!(
            Ok((0, Variable("a".to_string()), 1)),
            Ok((2, EqualsSign, 3)),
            Ok((4, MultiLineStringLiteral(1, "".to_string()), 10)),
            Ok((10, EOF, 10))
        )
    );

    let tokens = Lexer::new("a = [===[st\"r'i\"n'g]===]").collect();
    assert_eq!(
        tokens,
        vec!(
            Ok((0, Variable("a".to_string()), 1)),
            Ok((2, EqualsSign, 3)),
            Ok((4, MultiLineStringLiteral(3, "st\"r'i\"n'g".to_string()), 24)),
            Ok((24, EOF, 24))
        )
    );

    let tokens = Lexer::new("[===[]=]]]]==]==]===]").collect();
    assert_eq!(tokens, vec!(Ok((0, MultiLineStringLiteral(3, "]=]]]]==]==".to_string()), 21)), Ok((21, EOF, 21))));

    let tokens = Lexer::new("for a in pairs(tbl) do x.fn(a) end").collect();
    assert_eq!(
        tokens,
        vec!(
            Ok((0, For, 3)),
            Ok((4, Variable("a".to_string()), 5)),
            Ok((6, In, 8)),
            Ok((9, Variable("pairs".to_string()), 14)),
            Ok((14, OpenRoundBracket, 15)),
            Ok((15, Variable("tbl".to_string()), 18)),
            Ok((18, CloseRoundBracket, 19)),
            Ok((20, Do, 22)),
            Ok((23, Variable("x".to_string()), 24)),
            Ok((24, Period, 25)),
            Ok((25, Variable("fn".to_string()), 27)),
            Ok((27, OpenRoundBracket, 28)),
            Ok((28, Variable("a".to_string()), 29)),
            Ok((29, CloseRoundBracket, 30)),
            Ok((31, End, 34)),
            Ok((34, EOF, 34))
        )
    );

    let tokens = Lexer::new("for a = 5, 1, -1 do x.fn(a) end").collect();
    assert_eq!(
        tokens,
        vec!(
            Ok((0, For, 3)),
            Ok((4, Variable("a".to_string()), 5)),
            Ok((6, EqualsSign, 7)),
            Ok((8, Numeral("5".to_string()), 9)),
            Ok((9, Comma, 10)),
            Ok((11, Numeral("1".to_string()), 12)),
            Ok((12, Comma, 13)),
            Ok((14, Minus, 15)),
            Ok((15, Numeral("1".to_string()), 16)),
            Ok((17, Do, 19)),
            Ok((20, Variable("x".to_string()), 21)),
            Ok((21, Period, 22)),
            Ok((22, Variable("fn".to_string()), 24)),
            Ok((24, OpenRoundBracket, 25)),
            Ok((25, Variable("a".to_string()), 26)),
            Ok((26, CloseRoundBracket, 27)),
            Ok((28, End, 31)),
            Ok((31, EOF, 31))
        )
    );

    let tokens = Lexer::new("a = ({a=3}).a").collect();
    assert_eq!(
        tokens,
        vec!(
            Ok((0, Variable("a".to_string()), 1)),
            Ok((2, EqualsSign, 3)),
            Ok((4, OpenRoundBracket, 5)),
            Ok((5, OpenCurlyBracket, 6)),
            Ok((6, Variable("a".to_string()), 7)),
            Ok((7, EqualsSign, 8)),
            Ok((8, Numeral("3".to_string()), 9)),
            Ok((9, CloseCurlyBracket, 10)),
            Ok((10, CloseRoundBracket, 11)),
            Ok((11, Period, 12)),
            Ok((12, Variable("a".to_string()), 13)),
            Ok((13, EOF, 13))
        )
    );

    let tokens = Lexer::new("c = a--\n+--[[342]]b").collect();
    assert_eq!(
        tokens,
        vec!(
            Ok((0, Variable("c".to_string()), 1)),
            Ok((2, EqualsSign, 3)),
            Ok((4, Variable("a".to_string()), 5)),
            Ok((8, OpAddition, 9)),
            Ok((18, Variable("b".to_string()), 19)),
            Ok((19, EOF, 19))
        )
    );

    // test unicode
    let source = r#"local tbl = { field1 = "Какой-то текст", field2 = "Some text" }"#;
    let tokens = Lexer::new(source).collect();
    assert_eq!(
        tokens,
        vec!(
            Ok((0, Local, 5)),
            Ok((6, Variable("tbl".to_string()), 9)),
            Ok((10, EqualsSign, 11)),
            Ok((12, OpenCurlyBracket, 13)),
            Ok((14, Variable("field1".to_string()), 20)),
            Ok((21, EqualsSign, 22)),
            Ok((23, NormalStringLiteral("Какой-то текст".to_string()), 39)),
            Ok((39, Comma, 40)),
            Ok((41, Variable("field2".to_string()), 47)),
            Ok((48, EqualsSign, 49)),
            Ok((50, NormalStringLiteral("Some text".to_string()), 61)),
            Ok((62, CloseCurlyBracket, 63)),
            Ok((63, EOF, 63))
        )
    );
}

#[test]
fn test_lua_lexer_errors() {

    let tokens = Lexer::new("a = [[str").collect();
    assert_eq!(
        tokens,
        vec!(Ok((0, Variable("a".to_string()), 1)), Ok((2, EqualsSign, 3)), Err(UnexpectedEOF), Ok((9, EOF, 9)))
    );

    let tokens = Lexer::new("--[[string").collect();
    assert_eq!(tokens, vec!(Err(UnexpectedEOF), Ok((10, EOF, 10))));

    let tokens = Lexer::new("a = 0.123e").collect();
    assert_eq!(
        tokens,
        vec!(Ok((0, Variable("a".to_string()), 1)), Ok((2, EqualsSign, 3)), Err(UnexpectedEOF), Ok((10, EOF, 10)))
    );

    let tokens = Lexer::new("a = 0.123e-").collect();
    assert_eq!(
        tokens,
        vec!(Ok((0, Variable("a".to_string()), 1)), Ok((2, EqualsSign, 3)), Err(UnexpectedEOF), Ok((11, EOF, 11)))
    );

    let tokens = Lexer::new("a = \"string").collect();
    assert_eq!(
        tokens,
        vec!(Ok((0, Variable("a".to_string()), 1)), Ok((2, EqualsSign, 3)), Err(UnexpectedEOF), Ok((11, EOF, 11)))
    );

    let tokens = Lexer::new("a = 'string").collect();
    assert_eq!(
        tokens,
        vec!(Ok((0, Variable("a".to_string()), 1)), Ok((2, EqualsSign, 3)), Err(UnexpectedEOF), Ok((11, EOF, 11)))
    );

    let tokens = Lexer::new("a = [[strin").collect();
    assert_eq!(
        tokens,
        vec!(Ok((0, Variable("a".to_string()), 1)), Ok((2, EqualsSign, 3)), Err(UnexpectedEOF), Ok((11, EOF, 11)))
    );

    let tokens = Lexer::new("a = `").collect();
    assert_eq!(
        tokens,
        vec!(
            Ok((0, Variable("a".to_string()), 1)),
            Ok((2, EqualsSign, 3)),
            Err(UnrecognizedSymbol(4, '`')),
            Ok((5, EOF, 5))
        )
    );
}

#[test]
fn test_eof_handed_out_once() {
    for text in ["", "a = 1", "x = 'open", "local t = { 1, 2 } --c", "#!/bin/lua\nprint(1)"] {
        let mut lexer = Lexer::new(text);
        let mut items = Vec::new();
        while let Some(item) = lexer.next() {
            items.push(item);
        }
        let n = text.chars().count();
        assert_eq!(items.last(), Some(&Ok((n, EOF, n))));
        assert_eq!(items.iter().filter(|i| matches!(i, Ok((_, EOF, _)))).count(), 1);
        assert_eq!(lexer.next(), None);
    }
}
