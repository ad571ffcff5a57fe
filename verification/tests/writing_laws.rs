use luafmt::config::{Config, ConfiguredWrite, FormatOpts, State};
use luafmt::formatting::decoration::{DecIndent, IncIndent};
use luafmt::formatting::loc_hint::write_comment_gap;
use luafmt::formatting::reconstruction::reconstruct_node_tree;
use luafmt::formatting::writer::{
    cfg_write_list, cfg_write_sep_list, element_prefix_hint, list_item_prefix_hint, list_separator,
    list_trailing_separator, write_if_newline, write_node,
};
use luafmt::parser::common::Loc;
use luafmt::parser::lua_ast::Node;
use luafmt::parser::parse_lua;

fn gap_with_default(text: &str) -> Result<String, std::fmt::Error> {
    let cfg = Config::default();
    let state = State::default();
    let mut out = String::new();
    write_comment_gap(&mut out, &cfg, text, &state, &Loc(0, text.chars().count()), "")?;
    Ok(out)
}

#[test]
fn test_default_comment_block_is_kept() {
    let texts = [
        "",
        "   ",
        "\n",
        " -- one\n",
        "  --[[ long\n comment ]]  \n\t-- two\n  ",
        "--[==[ a ]] still ]==]\n",
        "--[=x\n",
        "--[\n",
        " \n\n --\n",
    ];
    for t in texts.iter() {
        assert_eq!(gap_with_default(t), Ok(t.to_string()));
    }
}

#[test]
fn test_default_comment_block_closes_open_line_comment() {
    assert_eq!(gap_with_default("-- last"), Ok("-- last\n".to_string()));
    assert_eq!(gap_with_default("  --[=="), Ok("  --[==\n".to_string()));
    assert_eq!(gap_with_default("-- a\n  -- b"), Ok("-- a\n  -- b\n".to_string()));
    // a line feed that ends the comment is kept as it is
    assert_eq!(gap_with_default("-- a\n  "), Ok("-- a\n  ".to_string()));
}

#[test]
fn test_unclosed_long_comment_is_refused() {
    assert!(gap_with_default("--[[ open").is_err());
    assert!(gap_with_default(" x ").is_err());
}

#[test]
fn test_inc_then_dec_restores() -> std::fmt::Result {
    let cfg = Config::default();
    let mut out = String::new();
    let marks = [None, Some("+".to_string()), Some("..".to_string())];
    let mut state = State::default();
    IncIndent(Some("+".to_string())).configured_write(&mut out, &cfg, "", &mut state)?;
    for m in marks.iter() {
        let level = state.indent_level;
        let stack = state.stack_indent.clone();
        IncIndent(m.clone()).configured_write(&mut out, &cfg, "", &mut state)?;
        DecIndent().configured_write(&mut out, &cfg, "", &mut state)?;
        assert_eq!(state.indent_level, level);
        assert_eq!(state.stack_indent, stack);
    }
    assert_eq!(out, "");
    Ok(())
}

#[test]
fn test_write_node_keeps_scope() {
    let src = "local a = function(x)\n if x then return { 1, 2, { y = 3 } } else return x + 1 * 2 end end\nwhile a do a = a .. \"b\" end";
    let cfg = Config {
        fmt: FormatOpts {
            indentation_string: Some("  ".to_string()),
            newline_format_if: Some(1),
            newline_format_while: Some(1),
            newline_format_function: Some(1),
            newline_format_table_field: Some(1),
            newline_format_binary_op: Some(1),
            ..FormatOpts::default()
        },
        ..Config::default()
    };
    let tree = parse_lua(src).expect("the source parses");
    let mut state = State::default();
    let mut out = String::new();
    assert!(write_node(&tree, &mut out, &cfg, src, &mut state).is_ok());
    assert_eq!(state.indent_level, 0);
    assert!(state.stack_indent.is_empty());
    assert_eq!(state.function_nested_level, 0);
    assert_eq!(state.block_nested_level, 0);
    assert!(out.contains("\n  if x then"));
}

#[test]
fn test_write_if_newline() {
    let cfg = Config { fmt: FormatOpts { indentation_string: Some("\t".to_string()), ..FormatOpts::default() }, ..Config::default() };
    let mut state = State::default();
    state.indent_level = 2;
    let buf = "x  -- c\n   y";
    let loc = Loc(1, 11);

    // on a new line: the comment stays, the blanks after it go, the indentation follows
    let mut f = "x".to_string();
    assert!(write_if_newline(&mut f, &cfg, buf, &mut state, true, &loc, " ").is_ok());
    assert_eq!(f, "x  -- c\n\t\t");
    assert_eq!(state.indent_level, 2);

    // a gap of blanks alone: one trailing blank of the text before goes, a line feed ends the line
    let mut f = "ab ".to_string();
    assert!(write_if_newline(&mut f, &cfg, "ab   cd", &mut state, true, &Loc(3, 5), " ").is_ok());
    assert_eq!(f, "ab\n\t\t");

    // without the flag the gap is written as it stands
    let mut f = "x".to_string();
    assert!(write_if_newline(&mut f, &cfg, buf, &mut state, false, &loc, " ").is_ok());
    assert_eq!(f, "x  -- c\n   ");
}

#[test]
fn test_list_helpers() {
    let cfg = Config { fmt: FormatOpts { field_separator: Some(";".to_string()), ..FormatOpts::default() }, ..Config::default() };
    let state = State::default();
    let fields = Node::Fields(Loc(0, 0), Vec::new(), luafmt::parser::lua_ast::FieldsOpts::default());
    let exps = Node::ExpList(Loc(0, 0), Vec::new());
    let name = Node::FuncName(Loc(0, 0), Vec::new());
    let stats = Node::StatementList(Loc(0, 0), Vec::new());

    assert_eq!(list_separator(&fields, &cfg), Some(";".to_string()));
    assert_eq!(list_separator(&exps, &cfg), Some(",".to_string()));
    assert_eq!(list_separator(&name, &cfg), Some(".".to_string()));
    assert_eq!(list_separator(&stats, &cfg), None);

    assert_eq!(list_trailing_separator(&fields, &cfg, &state), None);
    assert_eq!(list_trailing_separator(&exps, &cfg, &state), Some(false));
    assert_eq!(list_trailing_separator(&stats, &cfg, &state), None);

    assert_eq!(element_prefix_hint(&fields), " ");
    assert_eq!(element_prefix_hint(&name), "");
    assert_eq!(list_item_prefix_hint(&Node::Semicolon(Loc(0, 1))), "");
    assert_eq!(list_item_prefix_hint(&Node::Break(Loc(0, 5))), " ");
}

#[test]
fn test_write_node_default_gives_source_back() {
    let sources = [
        "local t = { 1, 2; [3] = 'x', y = [==[ long ]==] , } -- tail\n",
        "#!/usr/bin/lua\nfunction a.b.c:d(x, y, ...)\n  --[[ c ]] return x .. y, -x ^ 2, not y\nend\n",
        "for i = 1, 10, 2 do print(i) end\nfor k, v in pairs(t) do end\nwhile false do break end\nrepeat x = x + 1 until x > 3\n",
        "if a then b() elseif c then d() else e() end\ngoto done\n::done::\nlocal function f() return; end\n",
        "x = y[1]:m 'a' { } (2).z\n  ;\n",
    ];
    for src in sources.iter() {
        let cfg = Config::default();
        let tree = parse_lua(src).expect("the source parses");
        let mut state = State::default();
        let mut out = String::new();
        assert!(write_node(&tree, &mut out, &cfg, src, &mut state).is_ok());
        assert_eq!(&out, src);
    }
}

#[test]
fn test_default_closes_final_line_comment() {
    let cfg = Config::default();
    assert_eq!(
        luafmt::formatter::process_buffer_with_config("local a = 1 -- c", &cfg),
        Ok("local a = 1 -- c\n".to_string())
    );
}

#[test]
fn test_write_node_out_of_range_keeps_text() {
    let src = "local  t  =  {1,2}   while  x  do  f ( x )  end";
    let cfg = Config {
        fmt: FormatOpts {
            remove_spaces_between_tokens: Some(true),
            replace_zero_spaces_with_hint: Some(true),
            hint_table_constructor: Some(" ".to_string()),
            ..FormatOpts::default()
        },
        ..Config::default()
    };
    let tree = parse_lua(src).expect("the source parses");
    let body = match &tree {
        Node::Chunk(_, b, _) => b,
        _ => panic!("a chunk"),
    };
    let mut state = State::default();
    state.pos_range = Some((1000, 2000));
    let mut out = String::new();
    assert!(write_node(body, &mut out, &cfg, src, &mut state).is_ok());
    assert_eq!(out, src);
    let mut state2 = State::default();
    let mut formatted = String::new();
    assert!(write_node(body, &mut formatted, &cfg, src, &mut state2).is_ok());
    assert_eq!(formatted, "local t = { 1, 2 } while x do f(x) end");
}

#[test]
fn test_empty_lists_write_nothing() {
    let cfg = Config::default();
    let mut state = State::default();
    let mut out = "x".to_string();
    let exps = Node::ExpList(Loc(0, 0), vec![]);
    assert_eq!(cfg_write_sep_list(&mut out, &cfg, "", &mut state, &exps), Ok(false));
    let stats = Node::StatementList(Loc(0, 0), vec![]);
    assert_eq!(cfg_write_list(&mut out, &cfg, "", &mut state, &stats), Ok(false));
    assert_eq!(cfg_write_list(&mut out, &cfg, "", &mut state, &Node::Nil(Loc(0, 3))), Ok(false));
    assert_eq!(out, "x");
    assert_eq!(state.indent_level, 0);
}

#[test]
fn test_deep_nesting_is_written_under_default_options() {
    let mut src = String::new();
    for _ in 0..40 {
        src.push_str("if a then ");
    }
    src.push_str("f({ { { 1 } } })");
    for _ in 0..40 {
        src.push_str(" end");
    }
    let cfg = Config::default();
    let tree = parse_lua(&src).expect("the source parses");
    let mut state = State::default();
    let mut out = String::new();
    assert!(write_node(&tree, &mut out, &cfg, &src, &mut state).is_ok());
    assert_eq!(out, src);
    assert_eq!(state.indent_level, 0);
}

fn has_char_string(n: &Node) -> bool {
    format!("{:?}", n).contains("CharStringLiteral")
}

#[test]
fn test_prepare_converts_single_quoted_strings() {
    let src = "local t = { 'a', f('b\"c'), x = { 'd' } }";
    let mut tree = parse_lua(src).expect("the source parses");
    assert!(has_char_string(&tree));
    let cfg = Config {
        fmt: FormatOpts { convert_charstring_to_normalstring: Some(true), ..FormatOpts::default() },
        ..Config::default()
    };
    let mut state = State::default();
    reconstruct_node_tree(&mut tree, &cfg, &mut state);
    assert!(!has_char_string(&tree));
    let mut out = String::new();
    assert!(write_node(&tree, &mut out, &cfg, src, &mut state).is_ok());
    assert_eq!(out, "local t = { \"a\", f(\"b\\\"c\"), x = { \"d\" } }");
}

#[test]
fn test_prepare_marks_tables() {
    let src = "t = { { 1, 2 } }";
    let mut tree = parse_lua(src).expect("the source parses");
    let cfg = Config::default();
    let mut state = State::default();
    reconstruct_node_tree(&mut tree, &cfg, &mut state);
    let text = format!("{:?}", tree);
    assert!(text.contains("is_iv_table: Some(true)"));
    assert!(text.contains("is_single_child: Some(true)"));
    assert!(!text.contains("is_iv_table: None"));
}

#[test]
fn test_prepare_single_child_flags() {
    // the inner tables of the first field list are not single children; the outer tables
    // and the table inside a call are taken as single children
    let src = "t = { { 1 }, { 2 } } f({ 3 }) u = { { 4 } }";
    let mut tree = parse_lua(src).expect("the source parses");
    let cfg = Config::default();
    let mut state = State::default();
    reconstruct_node_tree(&mut tree, &cfg, &mut state);
    let text = format!("{:?}", tree);
    assert_eq!(text.matches("is_single_child: Some(false)").count(), 4);
    assert!(!text.contains("is_single_child: None"));
}
