use luafmt::config::{Config, ConfiguredWrite, State};
use luafmt::formatting::loc_hint::CommentLocHint;
use luafmt::parser::common::Loc;

#[derive(PartialEq, Debug)]
enum TestError {
    ErrorWhileWriting,
}

fn ts_base(source: &str, cfg: &Config) -> Result<String, TestError> {
    let mut output = String::new();
    let mut state = State::default();
    let loc = Loc(0, source.chars().count());
    match CommentLocHint(&loc, "").configured_write(&mut output, cfg, source, &mut state) {
        Ok(_) => Ok(output),
        _ => Err(TestError::ErrorWhileWriting),
    }
}

fn tsdef(source: &str) -> Result<String, TestError> {
    ts_base(source, &Config::default())
}

#[test]
fn test_comments() {
    for str in vec![
        "",
        "     ",
        "\n",
        "   \n    ",
        "\n  \n\n\n\n \n\n   \n",
        "--\n",
        "    --\n    ",
        "--2str[][]\n",
        "--[[trtstrst]]",
        "--[=[trtstrst]=]",
        "--[=[]=]",
        "--[========[trtstrst]========]",
        "--[===[trtstrst]====]==]==]=]]]========]==]========]===]",
        "  \n\n --[[123]]   --[[]]   --\n\n\n --324\n ",
        "\n\n --[[123]]   --[[]]   --\n\n\n --324\n",
        "\n\n--[[123]]--[[]]--\n\n\n--324\n\n\n",
        "\n\n--[[123]]--[[]]--\n\n\n--324\n",
    ] {
        assert_eq!(tsdef(str), Ok(str.to_string()));
    }

    // special case
    assert_eq!(tsdef("\n\n--[[123]]--[[]]--\n\n\n--324"), Ok("\n\n--[[123]]--[[]]--\n\n\n--324\n".to_string()));
}
