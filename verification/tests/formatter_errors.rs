use luafmt::config::Config;
use luafmt::formatter::{describe_parse_error, process_buffer_with_config, FormatterError};
use luafmt::parser::common::ParseError;
use luafmt::parser::lua_lexer::{LexicalError, Token};

#[test]
fn test_describe_parse_error() {
    let e1: ParseError<Token, LexicalError> = ParseError::User { error: LexicalError::UnrecognizedSymbol(120, '@') };
    assert_eq!(describe_parse_error(&e1), "lexical error: unrecognized symbol '@' at 120");
    let e2: ParseError<Token, LexicalError> = ParseError::User { error: LexicalError::UnexpectedEOF };
    assert_eq!(describe_parse_error(&e2), "lexical error: unexpected end of file");
    let e3: ParseError<Token, LexicalError> = ParseError::UnrecognizedToken { token: (7, Token::EqualsSign, 8) };
    assert_eq!(describe_parse_error(&e3), "Unrecognized token `=` found at 7:8");
    let e4: ParseError<Token, LexicalError> = ParseError::UnrecognizedToken { token: (0, Token::End, 3) };
    assert_eq!(describe_parse_error(&e4), "Unrecognized token `end` found at 0:3");
}

#[test]
fn test_formatter_error_messages() {
    assert_eq!(FormatterError::ReadingError.message(), "cannot read file");
    assert_eq!(FormatterError::NoConfigureFile.message(), "configure file was not found");
    assert_eq!(FormatterError::InvalidConfigFile("x".to_string()).message(), "invalid configure file: x");
    assert_eq!(FormatterError::ParsingError("y".to_string()).message(), "parsing error: y");
    assert_eq!(FormatterError::FormattingError("z".to_string()).message(), "formatting error: z");
}

#[test]
fn test_process_buffer_errors() {
    let cfg = Config::default();
    assert_eq!(
        process_buffer_with_config("local a = @", &cfg),
        Err(FormatterError::ParsingError("lexical error: unrecognized symbol '@' at 10".to_string()))
    );
    assert_eq!(
        process_buffer_with_config("local = 1", &cfg),
        Err(FormatterError::ParsingError("Unrecognized token `=` found at 6:7".to_string()))
    );
}

#[test]
fn test_process_buffer_default_keeps_text() {
    let cfg = Config::default();
    let src = "local a = 1 -- one\n\n--[[ two ]] if a then print( a ) end\n";
    assert_eq!(process_buffer_with_config(src, &cfg), Ok(src.to_string()));
}

#[test]
fn test_reload_format_from_buffer() {
    let base = Config::default();
    let (cfg, warnings) = base
        .reload_format_from_buffer("indentation_string = \"  \"\nmax_width = 80\nbogus = 1\nremove_comments = 12\n")
        .expect("the text parses");
    assert_eq!(cfg.fmt.indentation_string, Some("  ".to_string()));
    assert_eq!(cfg.fmt.max_width, Some(80));
    assert_eq!(cfg.fmt.remove_comments, None);
    assert_eq!(
        warnings,
        vec!["Invalid option name `bogus`".to_string(), "Invalid `remove_comments` option value `12`".to_string()]
    );
    assert!(base.reload_format_from_buffer("max_width = = 1").is_err());
    assert_eq!(base.reload_format_from_buffer("a = @"), Err("lexical error: unrecognized symbol '@' at 4".to_string()));
}

#[test]
fn test_process_buffer_default_keeps_varied_texts() {
    let cfg = Config::default();
    let sources = [
        "#!/usr/bin/lua\nprint(\"hi\")\n",
        "local t = { 1, 2; x = 'a', [\"k\"] = [==[long\n]] text]==], }\n",
        "for i = 1, 10, 2 do\n  s = s .. i\nend\nfor k, v in pairs(t) do end\n",
        "local function f(a, b, ...) return a + b * 2 ^ -3, ... end\n",
        "while x > 0x1F do x = x // 2 end repeat y = y - 1e-3 until y < .5\n",
        "a.b.c:d(\"s\") goto done ::done:: ; do end\n",
        "if a then elseif b ~= c then local x <const> = 1 else end\n",
        "function m.n:o() end --[==[ long\ncomment ]==]\n",
        "",
        "   \n-- only a comment\n",
    ];
    for src in sources.iter() {
        match process_buffer_with_config(src, &cfg) {
            Ok(out) => assert_eq!(&out, src),
            Err(FormatterError::ParsingError(_)) => {},
            Err(e) => panic!("unexpected error {:?}", e),
        }
    }
    assert_eq!(process_buffer_with_config(sources[0], &cfg), Ok(sources[0].to_string()));
    assert_eq!(process_buffer_with_config(sources[1], &cfg), Ok(sources[1].to_string()));
    assert_eq!(process_buffer_with_config(sources[2], &cfg), Ok(sources[2].to_string()));
    assert_eq!(process_buffer_with_config(sources[3], &cfg), Ok(sources[3].to_string()));
    assert_eq!(process_buffer_with_config(sources[8], &cfg), Ok(String::new()));
}

#[test]
fn test_process_buffer_default_closes_open_endings() {
    let cfg = Config::default();
    assert_eq!(process_buffer_with_config("local a = 1 -- end", &cfg), Ok("local a = 1 -- end\n".to_string()));
}

#[test]
fn test_token_display_text() {
    assert_eq!(Token::Variable("abc".to_string()).display_text(), "\"abc\"");
    assert_eq!(Token::Numeral("12".to_string()).display_text(), "\"12\"");
    assert_eq!(Token::CharStringLiteral("c".to_string()).display_text(), "'c'");
    assert_eq!(Token::MultiLineStringLiteral(2, "x".to_string()).display_text(), "[==[x]==]");
    assert_eq!(Token::SheBang("#!x".to_string()).display_text(), "#!x\n");
    assert_eq!(Token::OpFloorDivision.display_text(), "//");
    assert_eq!(Token::OpLogicalAnd.display_text(), "and");
    assert_eq!(Token::EOF.display_text(), "<EOF>");
    assert_eq!(LexicalError::UnrecognizedSymbol(3, '$').display_text(), "lexical error: unrecognized symbol '$' at 3");
}

#[test]
fn test_config_display_text() {
    let mut cfg = Config::default();
    assert_eq!(cfg.display_text(), "{\n}");
    cfg.fmt.indentation_string = Some("\t ".to_string());
    cfg.fmt.max_width = Some(80);
    cfg.fmt.remove_comments = Some(false);
    cfg.line_range = Some((2, 5));
    assert_eq!(
        cfg.display_text(),
        "{\n\tremove_comments: false,\n\tindentation_string: \"\\t \",\n\tmax_width: 80,\n\tline_range: (2, 5),\n}"
    );
}
