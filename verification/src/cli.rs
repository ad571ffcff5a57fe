use vstd::prelude::*;

use crate::config::{
    assignment_error, option_kind, option_value, set_warning, set_warning_text, spec_option_name, spec_parse_option, texts,
    Config, OptionName, OptionValue,
};
use crate::parser::lua_lexer::str_eq;

verus! {

/// What the command line asks of the program besides formatting options.
#[derive(Debug, PartialEq, Eq, Clone, Copy)]
pub struct ProgramOpts {
    pub inplace: bool,
    pub recursive: bool,
    pub verbose: bool,
}

impl ProgramOpts {
    pub fn default() -> (res: Self)
        ensures
            !res.inplace && !res.recursive && !res.verbose,
    {
        ProgramOpts { inplace: false, recursive: false, verbose: false }
    }
}

/// A character of an option name: an ASCII letter, digit or underscore.
pub open spec fn is_name_char(c: char) -> bool {
    ('a' <= c && c <= 'z') || ('A' <= c && c <= 'Z') || ('0' <= c && c <= '9') || c == '_'
}

/// The first index from `i` on whose character is no name character.
pub open spec fn name_end(s: Seq<char>, i: int) -> int
    decreases s.len() - i,
{
    if i < s.len() && is_name_char(s[i]) {
        name_end(s, i + 1)
    } else {
        i
    }
}

/// The name and the value of `--name=value`, where the text has that shape: the name of
/// one or more name characters, the value without a line feed.
pub open spec fn spec_config_option(s: Seq<char>) -> Option<(Seq<char>, Seq<char>)> {
    let k = name_end(s, 2);
    if s.len() >= 2 && s[0] == '-' && s[1] == '-' && k > 2 && k < s.len() && s[k] == '='
        && (forall|i: int| k < i < s.len() ==> s[i] != '\n') {
        Some((s.subrange(2, k), s.subrange(k + 1, s.len() as int)))
    } else {
        None
    }
}

pub open spec fn all_lower(w: Seq<char>) -> bool {
    w.len() > 0 && forall|i: int| 0 <= i < w.len() ==> 'a' <= #[trigger] w[i] && w[i] <= 'z'
}

/// The word of `-word` or `--word`, where the text has that shape: the word of one or more
/// ASCII lower-case letters.
pub open spec fn spec_program_option(s: Seq<char>) -> Option<Seq<char>> {
    if s.len() >= 2 && s[0] == '-' && s[1] == '-' && all_lower(s.skip(2)) {
        Some(s.skip(2))
    } else if s.len() >= 1 && s[0] == '-' && all_lower(s.skip(1)) {
        Some(s.skip(1))
    } else {
        None
    }
}

/// Matches `option` against the pattern `^--([a-zA-Z_0-9]+)=(.*)$` of the `regex` crate
/// (`Regex::new`, then `Regex::captures`) and hands back the two groups. The contract
/// claims what the crate documents for this pattern: `.` matches any character but a line
/// feed and `$` only the end of the text, so the name runs to the first `=`.
#[verifier::external_body]
fn capture_config_option(option: &str) -> (res: Option<(String, String)>)
    ensures
        match (res, spec_config_option(option@)) {
            (Some((a, b)), Some((sa, sb))) => a@ == sa && b@ == sb,
            (None, None) => true,
            _ => false,
        },
{
    let re = regex::Regex::new(r"^--([a-zA-Z_0-9]+)=(.*)$").unwrap();
    match re.captures(option) {
        Some(cap) => Some((cap[1].to_string(), cap[2].to_string())),
        None => None,
    }
}

/// Matches `option` against the pattern `^[-]{1,2}([a-z]+)$` of the `regex` crate
/// (`Regex::new`, then `Regex::captures`) and hands back the group. The contract claims
/// what the crate documents for this pattern: one or two dashes, then a word of one or
/// more ASCII lower-case letters up to the end of the text.
#[verifier::external_body]
fn capture_program_option(option: &str) -> (res: Option<String>)
    ensures
        match (res, spec_program_option(option@)) {
            (Some(a), Some(sa)) => a@ == sa,
            (None, None) => true,
            _ => false,
        },
{
    let re = regex::Regex::new(r"^[-]{1,2}([a-z]+)$").unwrap();
    match re.captures(option) {
        Some(cap) => Some(cap[1].to_string()),
        None => None,
    }
}

/// Whether a command-line option is the program option with the short or the long name.
pub open spec fn asks_for(option: Seq<char>, short: Seq<char>, long: Seq<char>) -> bool {
    spec_config_option(option) is None
        && (spec_program_option(option) == Some(short) || spec_program_option(option) == Some(long))
}

/// The warning for an option that the program does not know.
pub open spec fn unrecognized_warning(option: Seq<char>) -> Seq<char> {
    "Unrecognized option `"@ + option + "`"@
}

/// The value of option `o` after a command-line option, where it had the value `before`:
/// a `--name=value` option for `o` with a value that parses sets it.
pub open spec fn option_after(before: OptionValue, opt: Seq<char>, o: OptionName) -> OptionValue {
    match spec_config_option(opt) {
        Some((name, value)) => match spec_option_name(name) {
            Some(o2) => if o2 == o {
                match spec_parse_option(option_kind(o), value) {
                    Some(v) => v,
                    None => before,
                }
            } else {
                before
            },
            None => before,
        },
        None => before,
    }
}

/// The value of option `o` once the command-line options have been read over the default
/// configuration, in order.
pub open spec fn options_value(opts: Seq<Seq<char>>, o: OptionName) -> OptionValue
    decreases opts.len(),
{
    if opts.len() == 0 {
        option_value(Config::spec_default(), o)
    } else {
        option_after(options_value(opts.drop_last(), o), opts.last(), o)
    }
}

/// The warning that a command-line option gives: a `--name=value` option that `Config::set`
/// refuses, or an option that is neither that nor one of the program options.
pub open spec fn option_warning(opt: Seq<char>) -> Seq<Seq<char>> {
    match spec_config_option(opt) {
        Some((name, value)) => match assignment_error(name, value) {
            Some(e) => seq![set_warning(e, name, value)],
            None => Seq::empty(),
        },
        None => match spec_program_option(opt) {
            Some(w) => if w == "i"@ || w == "inplace"@ || w == "r"@ || w == "recursive"@ || w == "v"@ || w == "verbose"@ {
                Seq::empty()
            } else {
                seq![unrecognized_warning(opt)]
            },
            None => seq![unrecognized_warning(opt)],
        },
    }
}

/// The warnings that the command-line options give, in order.
pub open spec fn options_warnings(opts: Seq<Seq<char>>) -> Seq<Seq<char>>
    decreases opts.len(),
{
    if opts.len() == 0 {
        Seq::empty()
    } else {
        options_warnings(opts.drop_last()) + option_warning(opts.last())
    }
}

/// Reads the options of the command line: `--name=value` sets a formatting option,
/// `-i`/`--inplace`, `-r`/`--recursive` and `-v`/`--verbose` set program options. Gives
/// the configuration, the program options and a warning for each option refused.
pub fn parse_options(options: &Vec<String>) -> (res: (Config, ProgramOpts, Vec<String>))
    ensures
        options@.len() == 0 ==> res.0 == Config::spec_default() && res.1 == (ProgramOpts { inplace: false, recursive: false, verbose: false }) && res.2@.len() == 0,
        res.1.inplace == exists|i: int| 0 <= i < options@.len() && #[trigger] asks_for(options@[i]@, "i"@, "inplace"@),
        res.1.recursive == exists|i: int| 0 <= i < options@.len() && #[trigger] asks_for(options@[i]@, "r"@, "recursive"@),
        res.1.verbose == exists|i: int| 0 <= i < options@.len() && #[trigger] asks_for(options@[i]@, "v"@, "verbose"@),
        forall|o: OptionName| option_value(res.0, o) == options_value(texts(options@), o),
        texts(res.2@) == options_warnings(texts(options@)),
{
    let mut config = Config::default();
    let mut program_opts = ProgramOpts::default();
    let mut warnings: Vec<String> = Vec::new();
    let mut k: usize = 0;
    while k < options.len()
        invariant
            k <= options@.len(),
            k == 0 ==> config == Config::spec_default() && warnings@.len() == 0,
            program_opts.inplace == exists|i: int| 0 <= i < k && #[trigger] asks_for(options@[i]@, "i"@, "inplace"@),
            program_opts.recursive == exists|i: int| 0 <= i < k && #[trigger] asks_for(options@[i]@, "r"@, "recursive"@),
            program_opts.verbose == exists|i: int| 0 <= i < k && #[trigger] asks_for(options@[i]@, "v"@, "verbose"@),
            forall|o: OptionName| option_value(config, o) == options_value(texts(options@).take(k as int), o),
            texts(warnings@) == options_warnings(texts(options@).take(k as int)),
        decreases options@.len() - k,
    {
        proof {
            reveal_strlit("i");
            reveal_strlit("inplace");
            reveal_strlit("r");
            reveal_strlit("recursive");
            reveal_strlit("v");
            reveal_strlit("verbose");
            assert("i"@[0] == 'i');
            assert("inplace"@[0] == 'i');
            assert("r"@[0] == 'r');
            assert("recursive"@[0] == 'r');
            assert("v"@[0] == 'v');
            assert("verbose"@[0] == 'v');
            assert("i"@ != "r"@) by { assert("i"@[0] != "r"@[0]); }
            assert("i"@ != "recursive"@) by { assert("i"@[0] != "recursive"@[0]); }
            assert("i"@ != "v"@) by { assert("i"@[0] != "v"@[0]); }
            assert("i"@ != "verbose"@) by { assert("i"@[0] != "verbose"@[0]); }
            assert("inplace"@ != "r"@) by { assert("inplace"@[0] != "r"@[0]); }
            assert("inplace"@ != "recursive"@) by { assert("inplace"@[0] != "recursive"@[0]); }
            assert("inplace"@ != "v"@) by { assert("inplace"@[0] != "v"@[0]); }
            assert("inplace"@ != "verbose"@) by { assert("inplace"@[0] != "verbose"@[0]); }
            assert("r"@ != "i"@) by { assert("r"@[0] != "i"@[0]); }
            assert("r"@ != "inplace"@) by { assert("r"@[0] != "inplace"@[0]); }
            assert("r"@ != "v"@) by { assert("r"@[0] != "v"@[0]); }
            assert("r"@ != "verbose"@) by { assert("r"@[0] != "verbose"@[0]); }
            assert("recursive"@ != "i"@) by { assert("recursive"@[0] != "i"@[0]); }
            assert("recursive"@ != "inplace"@) by { assert("recursive"@[0] != "inplace"@[0]); }
            assert("recursive"@ != "v"@) by { assert("recursive"@[0] != "v"@[0]); }
            assert("recursive"@ != "verbose"@) by { assert("recursive"@[0] != "verbose"@[0]); }
            assert("v"@ != "i"@) by { assert("v"@[0] != "i"@[0]); }
            assert("v"@ != "inplace"@) by { assert("v"@[0] != "inplace"@[0]); }
            assert("v"@ != "r"@) by { assert("v"@[0] != "r"@[0]); }
            assert("v"@ != "recursive"@) by { assert("v"@[0] != "recursive"@[0]); }
            assert("verbose"@ != "i"@) by { assert("verbose"@[0] != "i"@[0]); }
            assert("verbose"@ != "inplace"@) by { assert("verbose"@[0] != "inplace"@[0]); }
            assert("verbose"@ != "r"@) by { assert("verbose"@[0] != "r"@[0]); }
            assert("verbose"@ != "recursive"@) by { assert("verbose"@[0] != "recursive"@[0]); }
        }
        let ghost before = program_opts;
        let ghost cfg0 = config;
        let ghost w0 = texts(warnings@);
        let option = options[k].as_str();
        match capture_config_option(option) {
            Some((name, value)) => {
                match config.set(name.as_str(), value.as_str()) {
                    Ok(()) => {},
                    Err(e) => warnings.push(set_warning_text(e, name.as_str(), value.as_str())),
                }
            },
            None => match capture_program_option(option) {
                Some(word) => {
                    let w = word.as_str();
                    if str_eq(w, "i") || str_eq(w, "inplace") {
                        program_opts.inplace = true;
                    } else if str_eq(w, "r") || str_eq(w, "recursive") {
                        program_opts.recursive = true;
                    } else if str_eq(w, "v") || str_eq(w, "verbose") {
                        program_opts.verbose = true;
                    } else {
                        warnings.push(unrecognized_text(option));
                    }
                },
                None => warnings.push(unrecognized_text(option)),
            },
        }
        proof {
            let o = options@[k as int]@;
            assert(program_opts.inplace == (before.inplace || asks_for(o, "i"@, "inplace"@)));
            assert(program_opts.recursive == (before.recursive || asks_for(o, "r"@, "recursive"@)));
            assert(program_opts.verbose == (before.verbose || asks_for(o, "v"@, "verbose"@)));
            let ts = texts(options@);
            assert(ts.take(k + 1).drop_last() =~= ts.take(k as int));
            assert(ts.take(k + 1).last() == o);
            assert forall|o2: OptionName| option_value(config, o2) == options_value(ts.take(k + 1), o2) by {
                assert(option_value(cfg0, o2) == options_value(ts.take(k as int), o2));
            }
            assert(texts(warnings@) =~= w0 + option_warning(o));
        }
        k = k + 1;
    }
    proof {
        assert(texts(options@).take(options@.len() as int) =~= texts(options@));
    }
    (config, program_opts, warnings)
}

fn unrecognized_text(option: &str) -> (res: String)
    ensures
        res@ == unrecognized_warning(option@),
{
    let mut s = String::new();
    s.append("Unrecognized option `");
    s.append(option);
    s.append("`");
    s
}

} // verus!
