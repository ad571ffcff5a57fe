use luafmt::config::{Config, FormatOpts};
use luafmt::formatting::common::ts_base;

#[test]
fn test_remove_spaces_between_tokens() {
    let cfg = Config { fmt: FormatOpts { remove_spaces_between_tokens: Some(true), ..FormatOpts::default() }, ..Config::default() };
    let ts = |s: &str| ts_base(s, &cfg);

    assert_eq!(
        ts("for a=1,--[[  asd ]]  \n  4do print --1\n (1,4)end"),
        Ok("fora=1,--[[  asd ]]\n4doprint--1\n(1,4)end".to_string())
    );

    assert_eq!(
        ts("#!/usr/bin/lua\n local  b = {2, 3} for a=1,--[[  asd ]]  \n  4do print --1\n (1,4)end --[=[1232 ]=]"),
        Ok("#!/usr/bin/lua\nlocalb={2,3}fora=1,--[[  asd ]]\n4doprint--1\n(1,4)end--[=[1232 ]=]".to_string())
    );
}

#[test]
fn test_hint_after_multiline_comment() {
    let cfg = Config { fmt: FormatOpts { hint_after_multiline_comment: Some("W".to_string()), ..FormatOpts::default() }, ..Config::default() };
    let ts = |s: &str| ts_base(s, &cfg);

    assert_eq!(
        ts("for a=1,--[[  asd ]]  \n  4do print --1\n --[[ text ]](1,4)end"),
        Ok("for a=1,--[[  asd ]]  \n  4do print --1\n --[[ text ]]W(1,4)end".to_string())
    );

    assert_eq!(
        ts("#!/usr/bin/lua\n local  b = {2, 3} for a=1,--[[  asd ]]  \n  4do print --1\n (1,4)end --[=[1232 ]=]"),
        Ok("#!/usr/bin/lua\n local  b = {2, 3} for a=1,--[[  asd ]]  \n  4do print --1\n (1,4)end --[=[1232 ]=]W".to_string())
    );
}

#[test]
fn test_hint_before_comment() {
    let cfg = Config { fmt: FormatOpts { hint_before_comment: Some("W".to_string()), ..FormatOpts::default() }, ..Config::default() };
    let ts = |s: &str| ts_base(s, &cfg);

    assert_eq!(
        ts("for a=1,--[[  asd ]]  \n  4do print --1\n --[[ text ]](1,4)end"),
        Ok("for a=1,W--[[  asd ]]  \n  4do print --1\n --[[ text ]](1,4)end".to_string())
    );

    assert_eq!(
        ts("#!/usr/bin/lua\n local --1\n b = {2, 3} for a=1,--[[  asd ]]  \n  4do print--1\n (1,4)end--[=[1232 ]=]"),
        Ok("#!/usr/bin/lua\n local --1\n b = {2, 3} for a=1,W--[[  asd ]]  \n  4do printW--1\n (1,4)endW--[=[1232 ]=]".to_string())
    );
}

#[test]
fn test_hint_before_comment_text() {
    let cfg = Config { fmt: FormatOpts { hint_before_oneline_comment_text: Some("W1".to_string()),
        hint_before_multiline_comment_text: Some("W2".to_string()),
        hint_after_multiline_comment_text: Some("W3".to_string()), ..FormatOpts::default() }, ..Config::default() };
    let ts = |s: &str| ts_base(s, &cfg);

    assert_eq!(
        ts("for a=1,--[[  asd ]]  \n  4do print --1\n --[[ text ]](1,4)end"),
        Ok("for a=1,--[[W2asdW3]]  \n  4do print --W11\n --[[W2textW3]](1,4)end".to_string())
    );

    assert_eq!(
        ts("#!/usr/bin/lua\n local --1\n b = {2, 3} for a=1,--[[  asd ]]  \n  4do print--1\n (1,4)end--[=[1232 ]=]"),
        Ok("#!/usr/bin/lua\n local --W11\n b = {2, 3} for a=1,--[[W2asdW3]]  \n  4do print--W11\n (1,4)end--[=[W21232W3]=]".to_string())
    );
}
