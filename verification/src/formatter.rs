use vstd::prelude::*;

use crate::config::{Config, FormatOpts, State};
use crate::formatting::reconstruction::reconstruct_node_tree;
use crate::formatting::util::{line_range_to_pos_range, spec_line_range_to_pos_range, spec_out_of_range};
use crate::formatting::default_layout::{node_loc, placed, text_span};
use crate::formatting::loc_hint::indentation;
use crate::parser::common::loc_text;
use crate::formatting::reconstruction::{converted_pairs, converted_tree, widen_tree};
use crate::formatting::writer::{chunk_close, chunk_kept, last_outside, last_text, depth_at_most, ends_with_new_line, level_room, range_checked, write_node};
use crate::parser::common::ParseError;
use crate::parser::lexer_util::push_char;
use crate::parser::lua_ast::Node;
use crate::parser::lua_lexer::{lexical_error_display, token_display, LexicalError, Token};
use crate::parser::lua_parser::{lua_lex, refused_of};
use crate::parser::tiling::ends_unclosed;
use crate::parser::parse_lua;

verus! {

/// Why a file or a buffer could not be formatted.
#[derive(Debug, PartialEq, Eq, Clone)]
pub enum FormatterError {
    ReadingError,
    NoConfigureFile,
    InvalidConfigFile(String),
    ParsingError(String),
    FormattingError(String),
}

/// The decimal digits of `n`.
pub open spec fn decimal(n: nat) -> Seq<char>
    decreases n,
{
    if n < 10 {
        seq![digit_char(n)]
    } else {
        decimal(n / 10).push(digit_char(n % 10))
    }
}

pub open spec fn digit_char(d: nat) -> char {
    if d == 0 { '0' } else if d == 1 { '1' } else if d == 2 { '2' } else if d == 3 { '3' } else if d == 4 { '4' }
    else if d == 5 { '5' } else if d == 6 { '6' } else if d == 7 { '7' } else if d == 8 { '8' } else { '9' }
}

fn exec_digit_char(d: usize) -> (c: char)
    requires
        d < 10,
    ensures
        c == digit_char(d as nat),
{
    if d == 0 { '0' } else if d == 1 { '1' } else if d == 2 { '2' } else if d == 3 { '3' } else if d == 4 { '4' }
    else if d == 5 { '5' } else if d == 6 { '6' } else if d == 7 { '7' } else if d == 8 { '8' } else { '9' }
}

/// Appends the decimal digits of `n`.
pub fn push_decimal(f: &mut String, n: usize)
    ensures
        final(f)@ == old(f)@ + decimal(n as nat),
    decreases n,
{
    if n < 10 {
        push_char(f, exec_digit_char(n));
        assert(f@ =~= old(f)@ + decimal(n as nat));
    } else {
        push_decimal(f, n / 10);
        push_char(f, exec_digit_char(n % 10));
        assert(f@ =~= old(f)@ + decimal(n as nat));
    }
}

/// The text of a parse error: the lexer's error as it shows it, or the token where the
/// grammar stopped, as it shows it, and its place.
pub open spec fn parse_error_text(e: ParseError<Token, LexicalError>) -> Seq<char> {
    match e {
        ParseError::User { error } => lexical_error_display(error),
        ParseError::UnrecognizedToken { token: (l, tok, r) } =>
            "Unrecognized token `"@ + token_display(tok@) + "` found at "@ + decimal(l as nat) + ":"@ + decimal(r as nat),
    }
}

/// Describes a parse error.
pub fn describe_parse_error(e: &ParseError<Token, LexicalError>) -> (res: String)
    ensures
        res@ == parse_error_text(*e),
{
    match e {
        ParseError::User { error } => error.display_text(),
        ParseError::UnrecognizedToken { token } => {
            let mut s = String::from_str("Unrecognized token `");
            let shown = token.1.display_text();
            s.append(shown.as_str());
            s.append("` found at ");
            push_decimal(&mut s, token.0);
            s.append(":");
            push_decimal(&mut s, token.2);
            s
        },
    }
}

impl FormatterError {
    /// The message of the error.
    pub fn message(&self) -> (res: String)
        ensures
            res@ == match *self {
                FormatterError::ReadingError => "cannot read file"@,
                FormatterError::NoConfigureFile => "configure file was not found"@,
                FormatterError::InvalidConfigFile(s) => "invalid configure file: "@ + s@,
                FormatterError::ParsingError(s) => "parsing error: "@ + s@,
                FormatterError::FormattingError(s) => "formatting error: "@ + s@,
            },
    {
        let mut out = String::new();
        match self {
            FormatterError::ReadingError => out.append("cannot read file"),
            FormatterError::NoConfigureFile => out.append("configure file was not found"),
            FormatterError::InvalidConfigFile(s) => {
                out.append("invalid configure file: ");
                out.append(s.as_str());
            },
            FormatterError::ParsingError(s) => {
                out.append("parsing error: ");
                out.append(s.as_str());
            },
            FormatterError::FormattingError(s) => {
                out.append("formatting error: ");
                out.append(s.as_str());
            },
        }
        out
    }
}

/// The debug text of a syntax tree (`format!` with `{:?}`, as the derived `Debug` writes it);
/// nothing is claimed of it.
#[verifier::external_body]
fn debug_text(n: &Node) -> String {
    format!("{:?}", n)
}

/// The range of positions that the configured lines cover, before it is widened to whole
/// statements.
pub open spec fn configured_range(t: Seq<char>, lr: Option<(usize, usize)>) -> Option<(usize, usize)> {
    let r = spec_line_range_to_pos_range(t, lr);
    Some((r.0 as usize, r.1 as usize))
}

/// A tree that the parser can give for the text `t`: a chunk, placed over the whole text
/// unless the text ends in a comment or `#!` line that no line feed closes.
pub open spec fn parsed_text(tree: Node, t: Seq<char>) -> bool {
    &&& tree is Chunk || tree is SheBangChunk
    &&& !ends_unclosed(t) ==> placed(tree, t) && text_span(tree) == (0int, t.len() as int)
}

/// The output `out` keeps the statements of the chunk `tree` of `t` as they stand where the
/// configured range, widened to whole statements, does not reach them: only the gaps
/// around them are formatted.
pub open spec fn kept_outside(tree: Node, t: Seq<char>, cfg: Config, out: Seq<char>) -> bool {
    tree matches Node::Chunk(locl, n, locr) ==> (range_checked(*n)
        && spec_out_of_range(widen_tree(tree, 0, configured_range(t, cfg.line_range)), node_loc(*n))
        ==> out == chunk_kept(cfg.fmt, t, 0, locl, loc_text(t, node_loc(*n)), locr, Seq::empty()))
}

/// The output `out` ends with the last statement of the chunk `tree` of `t` (after its `#!`
/// line, if any) as it stands,
/// then the formatted closing gap, where the configured range, widened to whole statements,
/// reaches the statements but not the last one.
pub open spec fn last_kept(tree: Node, t: Seq<char>, cfg: Config, out: Seq<char>) -> bool {
    chunk_body(tree) matches Some((n, locr)) ==> (last_outside(n, widen_tree(tree, 0, configured_range(t, cfg.line_range)))
        ==> exists|m: Seq<char>| out == #[trigger] chunk_close(cfg.fmt, t, 0, m + last_text(n, t), locr))
}

/// The statements of a chunk, after its `#!` line if it has one, and its closing gap.
pub open spec fn chunk_body(tree: Node) -> Option<(Node, crate::parser::common::Loc)> {
    match tree {
        Node::Chunk(_, n, locr) => Some((*n, locr)),
        Node::SheBangChunk(_, _, _, n, locr) => Some((*n, locr)),
        _ => None,
    }
}

proof fn lemma_converted_pair_at(s1: Seq<(crate::parser::common::Loc, Node)>, s2: Seq<(crate::parser::common::Loc, Node)>, k: int, j: int, conv: bool)
    requires
        converted_pairs(s1, s2, k, conv),
        0 <= k <= j < s1.len(),
    ensures
        s2.len() == s1.len(),
        converted_tree(s1[j].1, s2[j].1, conv),
    decreases j - k,
{
    if k < j {
        lemma_converted_pair_at(s1, s2, k + 1, j, conv);
    }
}

/// Where the written output ends with the last statement of the prepared statements `n2`
/// as it stands, it ends with that of the parsed ones `n`, under the configured range.
proof fn lemma_last_kept(parsed: Node, n: Node, n2: Node, locr: crate::parser::common::Loc, t: Seq<char>, cfg: Config, out: Seq<char>, r: Option<(usize, usize)>, ok: bool)
    requires
        chunk_body(parsed) == Some((n, locr)),
        converted_tree(n, n2, cfg.fmt.convert_charstring_to_normalstring == Some(true)),
        r == widen_tree(parsed, 0, configured_range(t, cfg.line_range)),
        ok && last_outside(n2, r) ==> exists|m: Seq<char>| out == #[trigger] chunk_close(cfg.fmt, t, 0, m + last_text(n2, t), locr),
    ensures
        ok ==> last_kept(parsed, t, cfg, out),
{
    let conv = cfg.fmt.convert_charstring_to_normalstring == Some(true);
    lemma_converted_frame(n, n2, conv);
    if let Node::StatementList(_, items) = n {
        if let Node::StatementList(_, items2) = n2 {
            assert(converted_pairs(items@, items2@, 0, conv));
            if items@.len() > 0 {
                lemma_converted_pair_at(items@, items2@, 0, items@.len() - 1, conv);
                lemma_converted_frame(items@.last().1, items2@.last().1, conv);
            }
        }
    }
    if ok && last_outside(n, r) {
        assert(last_outside(n2, r));
        assert(last_text(n, t) == last_text(n2, t));
        let m = choose|m: Seq<char>| out == #[trigger] chunk_close(cfg.fmt, t, 0, m + last_text(n2, t), locr);
        assert(out == chunk_close(cfg.fmt, t, 0, m + last_text(n, t), locr));
    }
    if ok {
        let (bn, bl) = chunk_body(parsed).unwrap();
        assert(bn == n && bl == locr);
    }
}

proof fn lemma_converted_frame(a: Node, b: Node, conv: bool)
    requires
        converted_tree(a, b, conv),
    ensures
        node_loc(a) == node_loc(b),
        range_checked(a) == range_checked(b),
{
}

/// Formats a parsed tree of `content` with a configuration: restricts the work to the range
/// of lines that the configuration names (widened to whole statements), prepares the tree
/// and writes it. A tree nested too deeply for the indentation levels gives a
/// `FormattingError`.
#[verifier::spinoff_prover]
#[verifier::rlimit(100)]
pub fn format_tree(tree: Node, content: &str, cfg: &Config) -> (res: Result<String, FormatterError>)
    requires
        content@.len() < usize::MAX / 4,
    ensures
        res matches Err(e) ==> e is FormattingError,
        cfg.fmt == FormatOpts::spec_default() && placed(tree, content@) && text_span(tree) == (0int, content@.len() as int)
            ==> (res matches Ok(out) ==> out@ == content@)
            && (res matches Err(FormatterError::FormattingError(s)) ==> s@ == "the text nests too deeply"@),
        res matches Ok(out) ==> ((tree is Chunk || tree is SheBangChunk) && cfg.fmt.write_newline_at_eof == Some(true)
            ==> out@.len() > 0 && out@.last() == '\n'),
        res matches Ok(out) ==> kept_outside(tree, content@, *cfg, out@),
        res matches Ok(out) ==> last_kept(tree, content@, *cfg, out@),
{
    let mut node_tree = tree;
    let mut out = String::new();
    let mut state = State::default();
    state.pos_range = Some(line_range_to_pos_range(content, cfg.line_range));
    let ghost parsed = node_tree;
    let ghost range0 = state.pos_range;
    reconstruct_node_tree(&mut node_tree, cfg, &mut state);
    if !depth_at_most(&node_tree, (isize::MAX - 1) as usize) {
        return Err(FormatterError::FormattingError(String::from_str("the text nests too deeply")));
    }
    proof {
        if cfg.fmt == FormatOpts::spec_default() && placed(parsed, content@) {
            assert(placed(node_tree, content@));
            assert(level_room(state, node_tree));
        }
    }
    let ghost start = out@;
    let ghost st = state;
    let written = write_node(&node_tree, &mut out, cfg, content, &mut state);
    proof {
        if cfg.fmt == FormatOpts::spec_default() && placed(parsed, content@) && text_span(parsed) == (0int, content@.len() as int) && written is Ok {
            assert(out@ == start + content@.subrange(0, content@.len() as int));
            assert(out@ =~= content@);
        }
        assert(indentation(cfg.fmt, 0) =~= Seq::<char>::empty());
        if written is Ok && (parsed is Chunk || parsed is SheBangChunk) && cfg.fmt.write_newline_at_eof == Some(true) {
            assert(node_tree is Chunk || node_tree is SheBangChunk);
            assert(ends_with_new_line(out@, indentation(cfg.fmt, 0)));
        }
        let ghost prepared = node_tree;
        let conv = cfg.fmt.convert_charstring_to_normalstring == Some(true);
        assert(range0 == configured_range(content@, cfg.line_range));
        if let Node::SheBangChunk(_, _, _, n, locr) = parsed {
            if let Node::SheBangChunk(_, _, _, n2, locr2) = prepared {
                assert(converted_tree(*n, *n2, conv));
                lemma_last_kept(parsed, *n, *n2, locr, content@, *cfg, out@, st.pos_range, written is Ok);
            }
        }
        if let Node::Chunk(_, n, locr) = parsed {
            if let Node::Chunk(_, n2, locr2) = prepared {
                assert(converted_tree(*n, *n2, conv));
                lemma_last_kept(parsed, *n, *n2, locr, content@, *cfg, out@, st.pos_range, written is Ok);
            }
        }
    }
    match written {
        Ok(_) => Ok(out),
        Err(_) => Err(FormatterError::FormattingError(debug_text(&node_tree))),
    }
}

/// Formats a Lua text with a configuration: parses it, restricts the work to the range of
/// lines that the configuration names (widened to whole statements), prepares the tree and
/// writes it. A text that the parser refuses gives a `ParsingError` with the parser's
/// description; a text too long to be indexed, one with a fixed message.
pub fn process_buffer_with_config(content: &str, cfg: &Config) -> (res: Result<String, FormatterError>)
    ensures
        content@.len() < usize::MAX / 4 && lua_lex(content@, 0) is None ==> (res matches Err(FormatterError::ParsingError(s))
            && exists|e: LexicalError| s@ == #[trigger] lexical_error_display(e)),
        content@.len() >= usize::MAX / 4 ==> (res matches Err(FormatterError::ParsingError(s)) && s@ == "the text is too long"@),
        res matches Ok(out) ==> (cfg.fmt == FormatOpts::spec_default() && !ends_unclosed(content@) ==> out@ == content@),
        res matches Err(e) ==> (e is ParsingError || e is FormattingError),
        res matches Err(FormatterError::ParsingError(s)) ==> (content@.len() >= usize::MAX / 4 && s@ == "the text is too long"@)
            || (exists|e: ParseError<Token, LexicalError>| refused_of(content@, e) && s@ == #[trigger] parse_error_text(e)),
        cfg.fmt == FormatOpts::spec_default() && !ends_unclosed(content@)
            ==> (res matches Err(FormatterError::FormattingError(s)) ==> s@ == "the text nests too deeply"@),
        (res matches Err(FormatterError::ParsingError(_)))
            <==> (content@.len() >= usize::MAX / 4 || !crate::parser::grammar::lua_text_accepted(content@)),
        res matches Ok(out) ==> (cfg.fmt.write_newline_at_eof == Some(true) ==> out@.len() > 0 && out@.last() == '\n'),
        res matches Ok(out) ==> exists|tree: Node| parsed_text(tree, content@) && #[trigger] kept_outside(tree, content@, *cfg, out@)
            && last_kept(tree, content@, *cfg, out@),
{
    if content.unicode_len() >= usize::MAX / 4 {
        return Err(FormatterError::ParsingError(String::from_str("the text is too long")));
    }
    match parse_lua(content) {
        Ok(node_tree) => {
            let ghost parsed = node_tree;
            let res = format_tree(node_tree, content, cfg);
            let ghost r = res;
            proof {
                let node_tree = parsed;
                if let Ok(out) = r {
                    assert(parsed_text(node_tree, content@) && kept_outside(node_tree, content@, *cfg, out@)
                        && last_kept(node_tree, content@, *cfg, out@));
                }
            }
            res
        },
        Err(err) => {
            let d = describe_parse_error(&err);
            proof {
                if let ParseError::User { error } = err {
                    assert(d@ == lexical_error_display(error));
                }
            }
            proof {
                assert(refused_of(content@, err) && d@ == parse_error_text(err));
            }
            Err(FormatterError::ParsingError(d))
        },
    }
}

} // verus!
