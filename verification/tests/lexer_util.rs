use luafmt::parser::lexer_util::{get_comment_start_ends_and_type, get_float_end, get_hex_integer_end, get_integer_end, get_multiline_string_ends, get_multiline_string_level, get_oneline_comment_ends, get_shebang_ends, get_string_ends, get_variable_end, TChars};

#[test]
fn test_get_shebang_end() {
    let mystr = String::from("#!/usr/bin/lua\n  ");
    let mut iter = TChars::new(&mystr.as_str());
    iter.next();
    assert_eq!(get_shebang_ends(&mut iter, 0), (14, 15, "!/usr/bin/lua".to_string()));

    let mystr = String::from("#!/usr/bin/lua\n");
    let mut iter = TChars::new(&mystr.as_str());
    iter.next();
    assert_eq!(get_shebang_ends(&mut iter, 0), (14, 15, "!/usr/bin/lua".to_string()));

    let mystr = String::from("#!/usr/bin/lua");
    let mut iter = TChars::new(&mystr.as_str());
    iter.next();
    assert_eq!(get_shebang_ends(&mut iter, 0), (14, 14, "!/usr/bin/lua".to_string()));

    let mystr = String::from("#");
    let mut iter = TChars::new(&mystr.as_str());
    iter.next();
    assert_eq!(get_shebang_ends(&mut iter, 1), (1, 1, "".to_string()));

    let mystr = String::from("#!");
    let mut iter = TChars::new(&mystr.as_str());
    iter.next();
    assert_eq!(get_shebang_ends(&mut iter, 1), (2, 2, "!".to_string()));

    let mystr = String::from("#!");
    let mut iter = TChars::new(&mystr.as_str());
    iter.next();
    iter.next();
    assert_eq!(get_shebang_ends(&mut iter, 2), (2, 2, "".to_string()));
}

#[test]
fn test_get_integer_end() {
    let mystr = String::from("123");
    let mut iter = TChars::new(&mystr.as_str());
    assert_eq!(get_integer_end(&mut iter, 0), (3, true, "123".to_string()));

    let mystr = String::from("-123");
    let mut iter = TChars::new(&mystr.as_str());
    iter.next();
    assert_eq!(get_integer_end(&mut iter, 0), (4, true, "123".to_string()));

    let mystr = String::from("");
    let mut iter = TChars::new(&mystr.as_str());
    assert_eq!(get_integer_end(&mut iter, 0), (0, false, "".to_string()));

    let mystr = String::from("-");
    let mut iter = TChars::new(&mystr.as_str());
    iter.next();
    assert_eq!(get_integer_end(&mut iter, 1), (1, false, "".to_string()));
}

#[test]
fn test_get_hex_integer_end() {
    let mystr = String::from("123");
    let mut iter = TChars::new(&mystr.as_str());
    assert_eq!(get_hex_integer_end(&mut iter, 0), (3, true, "123".to_string()));

    let mystr = String::from("1234567890ABCDEF1");
    let mut iter = TChars::new(&mystr.as_str());
    assert_eq!(get_hex_integer_end(&mut iter, 0), (17, true, "1234567890ABCDEF1".to_string()));

    let mystr = String::from("-123AEF");
    let mut iter = TChars::new(&mystr.as_str());
    iter.next();
    assert_eq!(get_hex_integer_end(&mut iter, 0), (7, true, "123AEF".to_string()));

    let mystr = String::from("");
    let mut iter = TChars::new(&mystr.as_str());
    assert_eq!(get_hex_integer_end(&mut iter, 0), (0, false, String::new()));

    let mystr = String::from("-");
    let mut iter = TChars::new(&mystr.as_str());
    iter.next();
    assert_eq!(get_hex_integer_end(&mut iter, 1), (1, false, String::new()));
}

#[test]
fn test_get_float_end() {
    let mystr = String::from("123.4");
    let mut iter = TChars::new(&mystr.as_str());
    assert_eq!(get_float_end(&mut iter, 0), (5, true, "123.4".to_string()));

    let mystr = String::from("123.4E-3");
    let mut iter = TChars::new(&mystr.as_str());
    assert_eq!(get_float_end(&mut iter, 0), (8, true, "123.4E-3".to_string()));

    let mystr = String::from(".123");
    let mut iter = TChars::new(&mystr.as_str());
    assert_eq!(get_float_end(&mut iter, 0), (4, true, ".123".to_string()));

    let mystr = String::from("-123.");
    let mut iter = TChars::new(&mystr.as_str());
    iter.next();
    assert_eq!(get_float_end(&mut iter, 0), (5, true, "123.".to_string()));

    let mystr = String::from("");
    let mut iter = TChars::new(&mystr.as_str());
    assert_eq!(get_float_end(&mut iter, 0), (0, true, "".to_string()));

    let mystr = String::from(",");
    let mut iter = TChars::new(&mystr.as_str());
    assert_eq!(get_float_end(&mut iter, 0), (0, true, "".to_string()));

    let mystr = String::from("-");
    let mut iter = TChars::new(&mystr.as_str());
    iter.next();
    assert_eq!(get_float_end(&mut iter, 1), (1, true, "".to_string()));

    let mystr = String::from("123.4E");
    let mut iter = TChars::new(&mystr.as_str());
    assert_eq!(get_float_end(&mut iter, 0), (6, false, String::new()));

    let mystr = String::from("123.4e-");
    let mut iter = TChars::new(&mystr.as_str());
    assert_eq!(get_float_end(&mut iter, 0), (7, false, "123.4e-".to_string()));

    let mystr = String::from("123.4e-5");
    let mut iter = TChars::new(&mystr.as_str());
    assert_eq!(get_float_end(&mut iter, 0), (8, true, "123.4e-5".to_string()));

    let mystr = String::from("123.4E5");
    let mut iter = TChars::new(&mystr.as_str());
    assert_eq!(get_float_end(&mut iter, 0), (7, true, "123.4E5".to_string()));
}

#[test]
fn test_get_variable_end() {
    let mystr = String::from("a");
    let mut iter = TChars::new(&mystr.as_str());
    assert_eq!(get_variable_end(&mut iter, 0), (1, true, "a".to_string()));

    let mystr = String::from("_ab3b3");
    let mut iter = TChars::new(&mystr.as_str());
    assert_eq!(get_variable_end(&mut iter, 0), (6, true, "_ab3b3".to_string()));

    let mystr = String::from("");
    let mut iter = TChars::new(&mystr.as_str());
    assert_eq!(get_variable_end(&mut iter, 0), (0, false, String::new()));
}

#[test]
fn test_get_string_ends() {
    let mystr = String::from("'123456' ");
    let mut iter = TChars::new(&mystr.as_str());
    iter.next();
    assert_eq!(get_string_ends(&mut iter, '\'', 0), (7, 8, true, "123456".to_string()));

    let mystr = String::from("\"123456\"");
    let mut iter = TChars::new(&mystr.as_str());
    iter.next();
    assert_eq!(get_string_ends(&mut iter, '"', 0), (7, 8, true, "123456".to_string()));

    // escaped
    let mystr = String::from("\"123456\\\"");
    let mut iter = TChars::new(&mystr.as_str());
    iter.next();
    assert_eq!(get_string_ends(&mut iter, '"', 0), (9, 9, false, "123456\\\"".to_string()));

    let mystr = String::from("\"123456\\\\\"");
    let mut iter = TChars::new(&mystr.as_str());
    iter.next();
    assert_eq!(get_string_ends(&mut iter, '"', 0), (9, 10, true, "123456\\\\".to_string()));

    let mystr = String::from("'123456");
    let mut iter = TChars::new(&mystr.as_str());
    iter.next();
    assert_eq!(get_string_ends(&mut iter, '\'', 0), (7, 7, false, "123456".to_string()));

    let mystr = String::from("\" str str\ntrt\"");
    let mut iter = TChars::new(&mystr.as_str());
    iter.next();
    assert_eq!(get_string_ends(&mut iter, '"', 0), (13, 14, true, " str str\ntrt".to_string()));

    let mystr = String::from("\" str str\ntrt");
    let mut iter = TChars::new(&mystr.as_str());
    iter.next();
    assert_eq!(get_string_ends(&mut iter, '"', 0), (13, 13, false, " str str\ntrt".to_string()));
}

#[test]
fn test_get_oneline_comment_ends() {
    let mystr = String::from("--\n");
    let mut iter = TChars::new(&mystr.as_str());
    iter.next();
    iter.next();
    assert_eq!(get_oneline_comment_ends(&mut iter, 2), (2, 3, true, "".to_string()));

    let mystr = String::from("--");
    let mut iter = TChars::new(&mystr.as_str());
    iter.next();
    iter.next();
    assert_eq!(get_oneline_comment_ends(&mut iter, 2), (2, 2, true, "".to_string()));

    let mystr = String::from("-- 123\n");
    let mut iter = TChars::new(&mystr.as_str());
    iter.next();
    iter.next();
    assert_eq!(get_oneline_comment_ends(&mut iter, 2), (6, 7, true, " 123".to_string()));

    let mystr = String::from("-- 123");
    let mut iter = TChars::new(&mystr.as_str());
    iter.next();
    iter.next();
    assert_eq!(get_oneline_comment_ends(&mut iter, 2), (6, 6, true, " 123".to_string()));
}

#[test]
fn test_get_multiline_string_level() {
    let mystr = String::from("=[");
    let mut iter = TChars::new(&mystr.as_str());
    assert_eq!(get_multiline_string_level(&mut iter, 0), 1);

    let mystr = String::from("=");
    let mut iter = TChars::new(&mystr.as_str());
    assert_eq!(get_multiline_string_level(&mut iter, 0), 1);

    let mystr = String::from("===[");
    let mut iter = TChars::new(&mystr.as_str());
    assert_eq!(get_multiline_string_level(&mut iter, 0), 3);

    let mystr = String::from("===");
    let mut iter = TChars::new(&mystr.as_str());
    assert_eq!(get_multiline_string_level(&mut iter, 0), 3);

    let mystr = String::from("[");
    let mut iter = TChars::new(&mystr.as_str());
    assert_eq!(get_multiline_string_level(&mut iter, 0), 0);

    let mystr = String::from("");
    let mut iter = TChars::new(&mystr.as_str());
    assert_eq!(get_multiline_string_level(&mut iter, 0), 0);
}

#[test]
fn test_get_multiline_string_ends() {
    let mystr = String::from("[[123]]");
    let mut iter = TChars::new(&mystr.as_str());
    iter.next();
    iter.next();
    assert_eq!(get_multiline_string_ends(&mut iter, 0, 2), (5, 7, true, "123".to_string()));

    let mystr = String::from("[[]]");
    let mut iter = TChars::new(&mystr.as_str());
    iter.next();
    iter.next();
    assert_eq!(get_multiline_string_ends(&mut iter, 0, 2), (2, 4, true, "".to_string()));

    let mystr = String::from("[=[striing\n\\\"'\"]=]");
    let mut iter = TChars::new(&mystr.as_str());
    iter.next();
    iter.next();
    iter.next();
    assert_eq!(get_multiline_string_ends(&mut iter, 1, 3), (15, 18, true, "striing\n\\\"'\"".to_string()));

    let mystr = String::from("[=[striing\n\"'\"]=]");
    let mut iter = TChars::new(&mystr.as_str());
    iter.next();
    iter.next();
    iter.next();
    assert_eq!(get_multiline_string_ends(&mut iter, 1, 3), (14, 17, true, "striing\n\"'\"".to_string()));

    let mystr = String::from("[===[abc]=]]====]==]===]=]");
    let mut iter = TChars::new(&mystr.as_str());
    iter.next();
    iter.next();
    iter.next();
    iter.next();
    iter.next();
    assert_eq!(get_multiline_string_ends(&mut iter, 3, 5), (19, 24, true, "abc]=]]====]==".to_string()));

    let mystr = String::from("[[abc");
    let mut iter = TChars::new(&mystr.as_str());
    iter.next();
    iter.next();
    assert_eq!(get_multiline_string_ends(&mut iter, 0, 2), (5, 5, false, "abc".to_string()));

    let mystr = String::from("[[abc]");
    let mut iter = TChars::new(&mystr.as_str());
    iter.next();
    iter.next();
    assert_eq!(get_multiline_string_ends(&mut iter, 0, 2), (6, 6, false, "abc".to_string()));

    let mystr = String::from("[=[abc]=");
    let mut iter = TChars::new(&mystr.as_str());
    iter.next();
    iter.next();
    iter.next();
    assert_eq!(get_multiline_string_ends(&mut iter, 1, 2), (8, 8, false, "abc".to_string()));

    let mystr = String::from("[===[abc]=]]====]==]==]=]");
    let mut iter = TChars::new(&mystr.as_str());
    iter.next();
    iter.next();
    iter.next();
    iter.next();
    iter.next();
    assert_eq!(get_multiline_string_ends(&mut iter, 3, 5), (25, 25, false, "abc]=]]====]==]==]=]".to_string()));
}

#[test]
fn test_get_comment_start_end_and_type() {
    let mystr = String::from("--\n");
    let mut iter = TChars::new(&mystr.as_str());
    iter.next();
    iter.next();
    assert_eq!(get_comment_start_ends_and_type(&mut iter, 2), (2, 2, 3, None, true));

    let mystr = String::from("--");
    let mut iter = TChars::new(&mystr.as_str());
    iter.next();
    iter.next();
    assert_eq!(get_comment_start_ends_and_type(&mut iter, 2), (2, 2, 2, None, true));

    let mystr = String::from("--123\n");
    let mut iter = TChars::new(&mystr.as_str());
    iter.next();
    iter.next();
    assert_eq!(get_comment_start_ends_and_type(&mut iter, 2), (2, 5, 6, None, true));

    let mystr = String::from("--123");
    let mut iter = TChars::new(&mystr.as_str());
    iter.next();
    iter.next();
    assert_eq!(get_comment_start_ends_and_type(&mut iter, 2), (2, 5, 5, None, true));

    let mystr = String::from("--[[]]");
    let mut iter = TChars::new(&mystr.as_str());
    iter.next();
    iter.next();
    assert_eq!(get_comment_start_ends_and_type(&mut iter, 2), (4, 4, 6, Some(0), true));

    let mystr = String::from("--[[123]]");
    let mut iter = TChars::new(&mystr.as_str());
    iter.next();
    iter.next();
    assert_eq!(get_comment_start_ends_and_type(&mut iter, 2), (4, 7, 9, Some(0), true));

    let mystr = String::from("--[=[]=]");
    let mut iter = TChars::new(&mystr.as_str());
    iter.next();
    iter.next();
    assert_eq!(get_comment_start_ends_and_type(&mut iter, 2), (5, 5, 8, Some(1), true));

    let mystr = String::from("--[===[123]===]");
    let mut iter = TChars::new(&mystr.as_str());
    iter.next();
    iter.next();
    assert_eq!(get_comment_start_ends_and_type(&mut iter, 2), (7, 10, 15, Some(3), true));

    let mystr = String::from("--[===123\n");
    let mut iter = TChars::new(&mystr.as_str());
    iter.next();
    iter.next();
    assert_eq!(get_comment_start_ends_and_type(&mut iter, 2), (2, 9, 10, None, true));

    let mystr = String::from("--[===123");
    let mut iter = TChars::new(&mystr.as_str());
    iter.next();
    iter.next();
    assert_eq!(get_comment_start_ends_and_type(&mut iter, 2), (2, 9, 9, None, true));

    let mystr = String::from("--[===[123");
    let mut iter = TChars::new(&mystr.as_str());
    iter.next();
    iter.next();
    assert_eq!(get_comment_start_ends_and_type(&mut iter, 2), (7, 10, 10, Some(3), false));

    let mystr = String::from("--[===[123]");
    let mut iter = TChars::new(&mystr.as_str());
    iter.next();
    iter.next();
    assert_eq!(get_comment_start_ends_and_type(&mut iter, 2), (7, 11, 11, Some(3), false));

    let mystr = String::from("--[===[123]===\n");
    let mut iter = TChars::new(&mystr.as_str());
    iter.next();
    iter.next();
    assert_eq!(get_comment_start_ends_and_type(&mut iter, 2), (7, 15, 15, Some(3), false));

    let mystr = String::from("--[===[123]=== ]");
    let mut iter = TChars::new(&mystr.as_str());
    iter.next();
    iter.next();
    assert_eq!(get_comment_start_ends_and_type(&mut iter, 2), (7, 16, 16, Some(3), false));
}
