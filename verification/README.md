# luafmt

A formatter for Lua source code, written in Verus. The library reads Lua text, parses it
into a syntax tree that keeps every gap (blanks and comments) between tokens, and writes
the tree back under a set of format options. The program in `app/` reads files,
configuration files and command-line options and hands their text to the library.

## Layout

- `src/parser/`: the Lua lexer and the lexer of comment blocks (`lua_lexer`,
  `comment_lexer`, `lexer_util`), the syntax trees (`lua_ast`, `comment_ast`), the Lua
  parser (`lua_parser`) and the grammar it follows (`grammar`), and `tiling`, which
  shows that the tokens the lexer reads and the gaps between them tile the text.
- `src/formatting/`: the writer (`writer`), the comment blocks and hints (`loc_hint`,
  `kept_comments`), the layout of a tree in its text (`default_layout`), the
  preparation of a tree before writing (`reconstruction`), indentation state changes
  (`decoration`) and small text helpers (`util`, `common`).
- `src/config.rs`: format options, the configuration file statements and `Config::set`.
- `src/formatter.rs`: the whole run on a text, and its errors.
- `src/cli.rs`: command-line option parsing.
- `src/file_names.rs`: which file names are Lua sources and configuration files.

## What is proved

Besides the contract of each function, the library proves:

- with the default options, the formatter gives the text back, unless it ends in a
  one-line comment or a `#!` line that no line feed closes; its only failures there are a
  refused text (described by the lexer's error or by the token the grammar refused) and a
  tree nested too deeply for the indentation levels:
  `formatter::process_buffer_with_config`;
- the parser accepts exactly the texts that the lexer reads and the Lua grammar, stated as
  a recognizer over token kinds, accepts (`parser::grammar::lua_text_accepted`), and so does
  the formatter: it refuses a text exactly where the parser does, and a configuration file
  is read exactly where it parses (`parser::parse_lua`,
  `config::Config::reload_format_from_buffer`);
- the lexer hands out the end token exactly once, as its last item
  (`parser::lua_lexer::lemma_eof_once`);
- the parser places every node of the tree in the text it was read from, and the tokens
  and gaps that the lexer reads tile the text (`parser::parse_lua`,
  `parser::tiling::lemma_lexed_tiles`);
- the writer restores the indentation, the block stack and the function level it found,
  writes a node that lies outside the range of positions to format as it stands, and with
  the default options writes each placed node as the text it covers, successfully where
  the indentation and function levels leave room for its nesting
  (`formatting::writer::write_node`);
- preparing a tree for writing keeps every node over the text it covers, only widens the
  range of positions to format to exactly the top-level statements it overlaps, tells
  every table whether its fields are all sequential and whether it is a single field
  (exactly, for a tree whose tables knew nothing of it before),
  converts every string in single quotes (where asked) and changes nothing else, and
  otherwise keeps the tree placed in its text (`formatting::reconstruction::reconstruct_node_tree`);
- a comment block is written back verbatim under the default options
  (`formatting::kept_comments::lemma_default_comment_block`);
- raising and then lowering the indentation restores the state
  (`formatting::decoration::lemma_inc_then_dec_restores`);
- setting an option and reading it back gives the value set (`config::Config::set`), and
  a configuration chunk applies its statements in order
  (`config::apply_config_chunk`);
- the scans of the lexer: a scan hands back exactly the characters it passed over; an
  integer scan always ends correctly; a long bracket ends at the first closing bracket of
  its level; the blanks before a token are skipped once
  (`parser::lexer_util::lemma_scan_outcome`, `lemma_integer_scan`, `lemma_multiline_scan`,
  `parser::lua_lexer::lemma_skip_blank_stays`);
- converting a string in single quotes twice gives what converting it once gives
  (`formatting::util::lemma_conversion_idempotent`), and a gap written on a new line ends
  its line before the indentation (`formatting::writer::lemma_newline_gap_ends_line`).
