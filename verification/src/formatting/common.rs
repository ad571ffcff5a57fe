use vstd::prelude::*;

use super::reconstruction::reconstruct_node_tree;
use super::writer::write_node;
use crate::config::{Config, FormatOpts, State};
use crate::parser::lua_parser::lua_lex;
use crate::parser::tiling::ends_unclosed;
use crate::parser::parse_lua;

verus! {

/// Why a source could not be formatted.
#[derive(PartialEq, Eq, Debug, Clone, Copy)]
pub enum TestError {
    ErrorWhileParsing,
    ErrorWhileWriting,
}

/// Formats a source with a configuration: parses it, prepares the tree and writes it.
/// A source that the lexer cannot read is refused as unparsable.
pub fn ts_base(source: &str, cfg: &Config) -> (res: Result<String, TestError>)
    ensures
        source@.len() < usize::MAX / 4 && lua_lex(source@, 0) is None ==> res == Err::<String, TestError>(TestError::ErrorWhileParsing),
        source@.len() >= usize::MAX / 4 ==> res == Err::<String, TestError>(TestError::ErrorWhileParsing),
        res matches Ok(out) ==> (cfg.fmt == FormatOpts::spec_default() && !ends_unclosed(source@) ==> out@ == source@),
{
    if source.unicode_len() >= usize::MAX / 4 {
        return Err(TestError::ErrorWhileParsing);
    }
    match parse_lua(source) {
        Err(_) => Err(TestError::ErrorWhileParsing),
        Ok(mut node_tree) => {
            let mut prep = State::default();
            reconstruct_node_tree(&mut node_tree, cfg, &mut prep);
            let mut output = String::new();
            let mut state = State::default();
            let written = write_node(&node_tree, &mut output, cfg, source, &mut state);
            proof {
                if cfg.fmt == FormatOpts::spec_default() && !ends_unclosed(source@) && written is Ok {
                    assert(output@ =~= source@);
                }
            }
            match written {
                Ok(_) => Ok(output),
                Err(_) => Err(TestError::ErrorWhileWriting),
            }
        },
    }
}

} // verus!
