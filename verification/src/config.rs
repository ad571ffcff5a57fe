use vstd::prelude::*;

use crate::formatter::{decimal, push_decimal};

use crate::parser::common::{Loc, ParseError};

use crate::parser::lexer_util::{exec_is_digit, is_digit};
use crate::parser::lua_lexer::str_eq;
use crate::parser::lua_ast::Node;

verus! {

/// Formatting settings read from the command line or from a configuration file.
#[derive(Debug, PartialEq, Clone)]
pub struct Config {
    pub line_range: Option<(usize, usize)>,
    pub fmt: FormatOpts,
}

#[derive(Debug, PartialEq, Clone)]
pub struct FormatOpts {
    pub replace_zero_spaces_with_hint: Option<bool>,
    pub hint_after_multiline_comment: Option<String>,
    pub hint_after_multiline_comment_text: Option<String>,
    pub hint_before_comment: Option<String>,
    pub hint_before_multiline_comment_text: Option<String>,
    pub hint_before_oneline_comment_text: Option<String>,
    pub hint_table_constructor: Option<String>,
    pub remove_comments: Option<bool>,
    pub remove_single_newlines: Option<bool>,
    pub remove_all_newlines: Option<bool>,
    pub remove_spaces_between_tokens: Option<bool>,
    pub write_newline_at_eof: Option<bool>,
    pub write_newline_at_multiline_table: Option<bool>,
    pub write_newline_at_explist_multiline_table: Option<bool>,
    pub indentation_string: Option<String>,
    pub indent_var_suffix: Option<bool>,
    pub indent_one_line_var_suffix: Option<bool>,
    pub indent_exp_list: Option<bool>,
    pub indent_one_line_exp_list: Option<bool>,
    pub newline_format_first_oneline_comment: Option<usize>,
    pub newline_format_first_multiline_comment: Option<usize>,
    pub newline_format_oneline_comment: Option<usize>,
    pub newline_format_multiline_comment: Option<usize>,
    pub newline_format_statement: Option<usize>,
    pub newline_format_do_end: Option<usize>,
    pub newline_format_for: Option<usize>,
    pub newline_format_function: Option<usize>,
    pub newline_format_if: Option<usize>,
    pub newline_format_repeat_until: Option<usize>,
    pub newline_format_table_constructor: Option<usize>,
    pub newline_format_table_field: Option<usize>,
    pub newline_format_while: Option<usize>,
    pub newline_format_binary_op: Option<usize>,
    pub newline_format_var_suffix: Option<usize>,
    pub newline_format_exp_list: Option<usize>,
    pub newline_format_exp_list_first: Option<usize>,
    pub field_separator: Option<String>,
    pub write_trailing_field_separator: Option<bool>,
    pub convert_charstring_to_normalstring: Option<bool>,
    pub max_width: Option<usize>,
    pub force_single_line_binary_op: Option<bool>,
    pub force_single_line_table: Option<bool>,
    pub force_single_line_iv_table_field: Option<bool>,
    pub force_single_line_kv_table_field: Option<bool>,
    pub force_single_line_if: Option<bool>,
    pub force_single_line_top_level_function: Option<bool>,
    pub force_single_line_scoped_function: Option<bool>,
    pub force_single_line_var_suffix: Option<bool>,
    pub force_single_line_exp_list: Option<bool>,
}

impl FormatOpts {
    /// Every option unset.
    pub open spec fn spec_default() -> FormatOpts {
        FormatOpts {
            replace_zero_spaces_with_hint: None,
            hint_after_multiline_comment: None,
            hint_after_multiline_comment_text: None,
            hint_before_comment: None,
            hint_before_multiline_comment_text: None,
            hint_before_oneline_comment_text: None,
            hint_table_constructor: None,
            remove_comments: None,
            remove_single_newlines: None,
            remove_all_newlines: None,
            remove_spaces_between_tokens: None,
            write_newline_at_eof: None,
            write_newline_at_multiline_table: None,
            write_newline_at_explist_multiline_table: None,
            indentation_string: None,
            indent_var_suffix: None,
            indent_one_line_var_suffix: None,
            indent_exp_list: None,
            indent_one_line_exp_list: None,
            newline_format_first_oneline_comment: None,
            newline_format_first_multiline_comment: None,
            newline_format_oneline_comment: None,
            newline_format_multiline_comment: None,
            newline_format_statement: None,
            newline_format_do_end: None,
            newline_format_for: None,
            newline_format_function: None,
            newline_format_if: None,
            newline_format_repeat_until: None,
            newline_format_table_constructor: None,
            newline_format_table_field: None,
            newline_format_while: None,
            newline_format_binary_op: None,
            newline_format_var_suffix: None,
            newline_format_exp_list: None,
            newline_format_exp_list_first: None,
            field_separator: None,
            write_trailing_field_separator: None,
            convert_charstring_to_normalstring: None,
            max_width: None,
            force_single_line_binary_op: None,
            force_single_line_table: None,
            force_single_line_iv_table_field: None,
            force_single_line_kv_table_field: None,
            force_single_line_if: None,
            force_single_line_top_level_function: None,
            force_single_line_scoped_function: None,
            force_single_line_var_suffix: None,
            force_single_line_exp_list: None,
        }
    }

    pub fn default() -> (res: Self)
        ensures
            res == FormatOpts::spec_default(),
    {
        FormatOpts {
            replace_zero_spaces_with_hint: None,
            hint_after_multiline_comment: None,
            hint_after_multiline_comment_text: None,
            hint_before_comment: None,
            hint_before_multiline_comment_text: None,
            hint_before_oneline_comment_text: None,
            hint_table_constructor: None,
            remove_comments: None,
            remove_single_newlines: None,
            remove_all_newlines: None,
            remove_spaces_between_tokens: None,
            write_newline_at_eof: None,
            write_newline_at_multiline_table: None,
            write_newline_at_explist_multiline_table: None,
            indentation_string: None,
            indent_var_suffix: None,
            indent_one_line_var_suffix: None,
            indent_exp_list: None,
            indent_one_line_exp_list: None,
            newline_format_first_oneline_comment: None,
            newline_format_first_multiline_comment: None,
            newline_format_oneline_comment: None,
            newline_format_multiline_comment: None,
            newline_format_statement: None,
            newline_format_do_end: None,
            newline_format_for: None,
            newline_format_function: None,
            newline_format_if: None,
            newline_format_repeat_until: None,
            newline_format_table_constructor: None,
            newline_format_table_field: None,
            newline_format_while: None,
            newline_format_binary_op: None,
            newline_format_var_suffix: None,
            newline_format_exp_list: None,
            newline_format_exp_list_first: None,
            field_separator: None,
            write_trailing_field_separator: None,
            convert_charstring_to_normalstring: None,
            max_width: None,
            force_single_line_binary_op: None,
            force_single_line_table: None,
            force_single_line_iv_table_field: None,
            force_single_line_kv_table_field: None,
            force_single_line_if: None,
            force_single_line_top_level_function: None,
            force_single_line_scoped_function: None,
            force_single_line_var_suffix: None,
            force_single_line_exp_list: None,
        }
    }
}

impl Config {
    pub open spec fn spec_default() -> Config {
        Config { line_range: None, fmt: FormatOpts::spec_default() }
    }

    pub fn default() -> (res: Self)
        ensures
            res == Config::spec_default(),
    {
        Config { line_range: None, fmt: FormatOpts::default() }
    }

    /// Whether no formatting option is set (the line range does not count).
    pub fn has_empty_format(&self) -> (res: bool)
        ensures
            res == (self.fmt == FormatOpts::spec_default()),
    {
        let f = &self.fmt;
        f.replace_zero_spaces_with_hint.is_none() && f.hint_after_multiline_comment.is_none() && f.hint_after_multiline_comment_text.is_none() && f.hint_before_comment.is_none() && f.hint_before_multiline_comment_text.is_none() && f.hint_before_oneline_comment_text.is_none() && f.hint_table_constructor.is_none() && f.remove_comments.is_none() && f.remove_single_newlines.is_none() && f.remove_all_newlines.is_none() && f.remove_spaces_between_tokens.is_none() && f.write_newline_at_eof.is_none() && f.write_newline_at_multiline_table.is_none() && f.write_newline_at_explist_multiline_table.is_none() && f.indentation_string.is_none() && f.indent_var_suffix.is_none() && f.indent_one_line_var_suffix.is_none() && f.indent_exp_list.is_none() && f.indent_one_line_exp_list.is_none() && f.newline_format_first_oneline_comment.is_none() && f.newline_format_first_multiline_comment.is_none() && f.newline_format_oneline_comment.is_none() && f.newline_format_multiline_comment.is_none() && f.newline_format_statement.is_none() && f.newline_format_do_end.is_none() && f.newline_format_for.is_none() && f.newline_format_function.is_none() && f.newline_format_if.is_none() && f.newline_format_repeat_until.is_none() && f.newline_format_table_constructor.is_none() && f.newline_format_table_field.is_none() && f.newline_format_while.is_none() && f.newline_format_binary_op.is_none() && f.newline_format_var_suffix.is_none() && f.newline_format_exp_list.is_none() && f.newline_format_exp_list_first.is_none() && f.field_separator.is_none() && f.write_trailing_field_separator.is_none() && f.convert_charstring_to_normalstring.is_none() && f.max_width.is_none() && f.force_single_line_binary_op.is_none() && f.force_single_line_table.is_none() && f.force_single_line_iv_table_field.is_none() && f.force_single_line_kv_table_field.is_none() && f.force_single_line_if.is_none() && f.force_single_line_top_level_function.is_none() && f.force_single_line_scoped_function.is_none() && f.force_single_line_var_suffix.is_none() && f.force_single_line_exp_list.is_none()
    }
}

/// The options that `Config::set` knows, one for each field.
#[derive(Debug, Clone, Copy, PartialEq, Eq)]
pub enum OptionName {
    ReplaceZeroSpacesWithHint,
    HintAfterMultilineComment,
    HintAfterMultilineCommentText,
    HintBeforeComment,
    HintBeforeMultilineCommentText,
    HintBeforeOnelineCommentText,
    HintTableConstructor,
    RemoveComments,
    RemoveSingleNewlines,
    RemoveAllNewlines,
    RemoveSpacesBetweenTokens,
    WriteNewlineAtEof,
    WriteNewlineAtMultilineTable,
    WriteNewlineAtExplistMultilineTable,
    IndentationString,
    IndentVarSuffix,
    IndentOneLineVarSuffix,
    IndentExpList,
    IndentOneLineExpList,
    NewlineFormatFirstOnelineComment,
    NewlineFormatFirstMultilineComment,
    NewlineFormatOnelineComment,
    NewlineFormatMultilineComment,
    NewlineFormatStatement,
    NewlineFormatDoEnd,
    NewlineFormatFor,
    NewlineFormatFunction,
    NewlineFormatIf,
    NewlineFormatRepeatUntil,
    NewlineFormatTableConstructor,
    NewlineFormatTableField,
    NewlineFormatWhile,
    NewlineFormatBinaryOp,
    NewlineFormatVarSuffix,
    NewlineFormatExpList,
    NewlineFormatExpListFirst,
    FieldSeparator,
    WriteTrailingFieldSeparator,
    ConvertCharstringToNormalstring,
    MaxWidth,
    ForceSingleLineBinaryOp,
    ForceSingleLineTable,
    ForceSingleLineIvTableField,
    ForceSingleLineKvTableField,
    ForceSingleLineIf,
    ForceSingleLineTopLevelFunction,
    ForceSingleLineScopedFunction,
    ForceSingleLineVarSuffix,
    ForceSingleLineExpList,
    LineRange,
}

/// The kind of value an option takes.
pub enum OptionKind {
    Bool,
    Usize,
    Text,
    LineRange,
}

/// The value of one option, as the contracts see it.
pub enum OptionValue {
    Bool(Option<bool>),
    Usize(Option<usize>),
    Text(Option<Seq<char>>),
    LineRange(Option<(usize, usize)>),
}

pub open spec fn spec_option_name(name: Seq<char>) -> Option<OptionName> {
    if name == "replace_zero_spaces_with_hint"@ { Some(OptionName::ReplaceZeroSpacesWithHint) }
    else if name == "hint_after_multiline_comment"@ { Some(OptionName::HintAfterMultilineComment) }
    else if name == "hint_after_multiline_comment_text"@ { Some(OptionName::HintAfterMultilineCommentText) }
    else if name == "hint_before_comment"@ { Some(OptionName::HintBeforeComment) }
    else if name == "hint_before_multiline_comment_text"@ { Some(OptionName::HintBeforeMultilineCommentText) }
    else if name == "hint_before_oneline_comment_text"@ { Some(OptionName::HintBeforeOnelineCommentText) }
    else if name == "hint_table_constructor"@ { Some(OptionName::HintTableConstructor) }
    else if name == "remove_comments"@ { Some(OptionName::RemoveComments) }
    else if name == "remove_single_newlines"@ { Some(OptionName::RemoveSingleNewlines) }
    else if name == "remove_all_newlines"@ { Some(OptionName::RemoveAllNewlines) }
    else if name == "remove_spaces_between_tokens"@ { Some(OptionName::RemoveSpacesBetweenTokens) }
    else if name == "write_newline_at_eof"@ { Some(OptionName::WriteNewlineAtEof) }
    else if name == "write_newline_at_multiline_table"@ { Some(OptionName::WriteNewlineAtMultilineTable) }
    else if name == "write_newline_at_explist_multiline_table"@ { Some(OptionName::WriteNewlineAtExplistMultilineTable) }
    else if name == "indentation_string"@ { Some(OptionName::IndentationString) }
    else if name == "indent_var_suffix"@ { Some(OptionName::IndentVarSuffix) }
    else if name == "indent_one_line_var_suffix"@ { Some(OptionName::IndentOneLineVarSuffix) }
    else if name == "indent_exp_list"@ { Some(OptionName::IndentExpList) }
    else if name == "indent_one_line_exp_list"@ { Some(OptionName::IndentOneLineExpList) }
    else if name == "newline_format_first_oneline_comment"@ { Some(OptionName::NewlineFormatFirstOnelineComment) }
    else if name == "newline_format_first_multiline_comment"@ { Some(OptionName::NewlineFormatFirstMultilineComment) }
    else if name == "newline_format_oneline_comment"@ { Some(OptionName::NewlineFormatOnelineComment) }
    else if name == "newline_format_multiline_comment"@ { Some(OptionName::NewlineFormatMultilineComment) }
    else if name == "newline_format_statement"@ { Some(OptionName::NewlineFormatStatement) }
    else if name == "newline_format_do_end"@ { Some(OptionName::NewlineFormatDoEnd) }
    else if name == "newline_format_for"@ { Some(OptionName::NewlineFormatFor) }
    else if name == "newline_format_function"@ { Some(OptionName::NewlineFormatFunction) }
    else if name == "newline_format_if"@ { Some(OptionName::NewlineFormatIf) }
    else if name == "newline_format_repeat_until"@ { Some(OptionName::NewlineFormatRepeatUntil) }
    else if name == "newline_format_table_constructor"@ { Some(OptionName::NewlineFormatTableConstructor) }
    else if name == "newline_format_table_field"@ { Some(OptionName::NewlineFormatTableField) }
    else if name == "newline_format_while"@ { Some(OptionName::NewlineFormatWhile) }
    else if name == "newline_format_binary_op"@ { Some(OptionName::NewlineFormatBinaryOp) }
    else if name == "newline_format_var_suffix"@ { Some(OptionName::NewlineFormatVarSuffix) }
    else if name == "newline_format_exp_list"@ { Some(OptionName::NewlineFormatExpList) }
    else if name == "newline_format_exp_list_first"@ { Some(OptionName::NewlineFormatExpListFirst) }
    else if name == "field_separator"@ { Some(OptionName::FieldSeparator) }
    else if name == "write_trailing_field_separator"@ { Some(OptionName::WriteTrailingFieldSeparator) }
    else if name == "convert_charstring_to_normalstring"@ { Some(OptionName::ConvertCharstringToNormalstring) }
    else if name == "max_width"@ { Some(OptionName::MaxWidth) }
    else if name == "force_single_line_binary_op"@ { Some(OptionName::ForceSingleLineBinaryOp) }
    else if name == "force_single_line_table"@ { Some(OptionName::ForceSingleLineTable) }
    else if name == "force_single_line_iv_table_field"@ { Some(OptionName::ForceSingleLineIvTableField) }
    else if name == "force_single_line_kv_table_field"@ { Some(OptionName::ForceSingleLineKvTableField) }
    else if name == "force_single_line_if"@ { Some(OptionName::ForceSingleLineIf) }
    else if name == "force_single_line_top_level_function"@ { Some(OptionName::ForceSingleLineTopLevelFunction) }
    else if name == "force_single_line_scoped_function"@ { Some(OptionName::ForceSingleLineScopedFunction) }
    else if name == "force_single_line_var_suffix"@ { Some(OptionName::ForceSingleLineVarSuffix) }
    else if name == "force_single_line_exp_list"@ { Some(OptionName::ForceSingleLineExpList) }
    else if name == "line_range"@ { Some(OptionName::LineRange) }
    else { None }
}

/// The name by which an option is set, in configuration files and on the command line: the
/// name of its field.
pub open spec fn option_label(o: OptionName) -> Seq<char> {
    match o {
        OptionName::ConvertCharstringToNormalstring => "convert_charstring_to_normalstring"@,
        OptionName::FieldSeparator => "field_separator"@,
        OptionName::ForceSingleLineBinaryOp => "force_single_line_binary_op"@,
        OptionName::ForceSingleLineExpList => "force_single_line_exp_list"@,
        OptionName::ForceSingleLineIf => "force_single_line_if"@,
        OptionName::ForceSingleLineIvTableField => "force_single_line_iv_table_field"@,
        OptionName::ForceSingleLineKvTableField => "force_single_line_kv_table_field"@,
        OptionName::ForceSingleLineScopedFunction => "force_single_line_scoped_function"@,
        OptionName::ForceSingleLineTable => "force_single_line_table"@,
        OptionName::ForceSingleLineTopLevelFunction => "force_single_line_top_level_function"@,
        OptionName::ForceSingleLineVarSuffix => "force_single_line_var_suffix"@,
        OptionName::HintAfterMultilineComment => "hint_after_multiline_comment"@,
        OptionName::HintAfterMultilineCommentText => "hint_after_multiline_comment_text"@,
        OptionName::HintBeforeComment => "hint_before_comment"@,
        OptionName::HintBeforeMultilineCommentText => "hint_before_multiline_comment_text"@,
        OptionName::HintBeforeOnelineCommentText => "hint_before_oneline_comment_text"@,
        OptionName::HintTableConstructor => "hint_table_constructor"@,
        OptionName::IndentExpList => "indent_exp_list"@,
        OptionName::IndentOneLineExpList => "indent_one_line_exp_list"@,
        OptionName::IndentOneLineVarSuffix => "indent_one_line_var_suffix"@,
        OptionName::IndentVarSuffix => "indent_var_suffix"@,
        OptionName::IndentationString => "indentation_string"@,
        OptionName::LineRange => "line_range"@,
        OptionName::MaxWidth => "max_width"@,
        OptionName::NewlineFormatBinaryOp => "newline_format_binary_op"@,
        OptionName::NewlineFormatDoEnd => "newline_format_do_end"@,
        OptionName::NewlineFormatExpList => "newline_format_exp_list"@,
        OptionName::NewlineFormatExpListFirst => "newline_format_exp_list_first"@,
        OptionName::NewlineFormatFirstMultilineComment => "newline_format_first_multiline_comment"@,
        OptionName::NewlineFormatFirstOnelineComment => "newline_format_first_oneline_comment"@,
        OptionName::NewlineFormatFor => "newline_format_for"@,
        OptionName::NewlineFormatFunction => "newline_format_function"@,
        OptionName::NewlineFormatIf => "newline_format_if"@,
        OptionName::NewlineFormatMultilineComment => "newline_format_multiline_comment"@,
        OptionName::NewlineFormatOnelineComment => "newline_format_oneline_comment"@,
        OptionName::NewlineFormatRepeatUntil => "newline_format_repeat_until"@,
        OptionName::NewlineFormatStatement => "newline_format_statement"@,
        OptionName::NewlineFormatTableConstructor => "newline_format_table_constructor"@,
        OptionName::NewlineFormatTableField => "newline_format_table_field"@,
        OptionName::NewlineFormatVarSuffix => "newline_format_var_suffix"@,
        OptionName::NewlineFormatWhile => "newline_format_while"@,
        OptionName::RemoveAllNewlines => "remove_all_newlines"@,
        OptionName::RemoveComments => "remove_comments"@,
        OptionName::RemoveSingleNewlines => "remove_single_newlines"@,
        OptionName::RemoveSpacesBetweenTokens => "remove_spaces_between_tokens"@,
        OptionName::ReplaceZeroSpacesWithHint => "replace_zero_spaces_with_hint"@,
        OptionName::WriteNewlineAtEof => "write_newline_at_eof"@,
        OptionName::WriteNewlineAtExplistMultilineTable => "write_newline_at_explist_multiline_table"@,
        OptionName::WriteNewlineAtMultilineTable => "write_newline_at_multiline_table"@,
        OptionName::WriteTrailingFieldSeparator => "write_trailing_field_separator"@,
    }
}

/// Every option is set by its own name, and by no other: the name lookup gives an option
/// exactly for its name.
pub proof fn lemma_option_names(name: Seq<char>, o: OptionName)
    ensures
        spec_option_name(option_label(o)) == Some(o),
        spec_option_name(name) == Some(o) <==> name == option_label(o),
{
    reveal_strlit("convert_charstring_to_normalstring");
    assert("convert_charstring_to_normalstring"@.len() == 34);
    reveal_strlit("field_separator");
    assert("field_separator"@.len() == 15);
    reveal_strlit("force_single_line_binary_op");
    assert("force_single_line_binary_op"@.len() == 27);
    reveal_strlit("force_single_line_exp_list");
    assert("force_single_line_exp_list"@.len() == 26);
    reveal_strlit("force_single_line_if");
    assert("force_single_line_if"@.len() == 20);
    reveal_strlit("force_single_line_iv_table_field");
    assert("force_single_line_iv_table_field"@.len() == 32);
    reveal_strlit("force_single_line_kv_table_field");
    assert("force_single_line_kv_table_field"@.len() == 32);
    reveal_strlit("force_single_line_scoped_function");
    assert("force_single_line_scoped_function"@.len() == 33);
    reveal_strlit("force_single_line_table");
    assert("force_single_line_table"@.len() == 23);
    reveal_strlit("force_single_line_top_level_function");
    assert("force_single_line_top_level_function"@.len() == 36);
    reveal_strlit("force_single_line_var_suffix");
    assert("force_single_line_var_suffix"@.len() == 28);
    reveal_strlit("hint_after_multiline_comment");
    assert("hint_after_multiline_comment"@.len() == 28);
    reveal_strlit("hint_after_multiline_comment_text");
    assert("hint_after_multiline_comment_text"@.len() == 33);
    reveal_strlit("hint_before_comment");
    assert("hint_before_comment"@.len() == 19);
    reveal_strlit("hint_before_multiline_comment_text");
    assert("hint_before_multiline_comment_text"@.len() == 34);
    reveal_strlit("hint_before_oneline_comment_text");
    assert("hint_before_oneline_comment_text"@.len() == 32);
    reveal_strlit("hint_table_constructor");
    assert("hint_table_constructor"@.len() == 22);
    reveal_strlit("indent_exp_list");
    assert("indent_exp_list"@.len() == 15);
    reveal_strlit("indent_one_line_exp_list");
    assert("indent_one_line_exp_list"@.len() == 24);
    reveal_strlit("indent_one_line_var_suffix");
    assert("indent_one_line_var_suffix"@.len() == 26);
    reveal_strlit("indent_var_suffix");
    assert("indent_var_suffix"@.len() == 17);
    reveal_strlit("indentation_string");
    assert("indentation_string"@.len() == 18);
    reveal_strlit("line_range");
    assert("line_range"@.len() == 10);
    reveal_strlit("max_width");
    assert("max_width"@.len() == 9);
    reveal_strlit("newline_format_binary_op");
    assert("newline_format_binary_op"@.len() == 24);
    reveal_strlit("newline_format_do_end");
    assert("newline_format_do_end"@.len() == 21);
    reveal_strlit("newline_format_exp_list");
    assert("newline_format_exp_list"@.len() == 23);
    reveal_strlit("newline_format_exp_list_first");
    assert("newline_format_exp_list_first"@.len() == 29);
    reveal_strlit("newline_format_first_multiline_comment");
    assert("newline_format_first_multiline_comment"@.len() == 38);
    reveal_strlit("newline_format_first_oneline_comment");
    assert("newline_format_first_oneline_comment"@.len() == 36);
    reveal_strlit("newline_format_for");
    assert("newline_format_for"@.len() == 18);
    reveal_strlit("newline_format_function");
    assert("newline_format_function"@.len() == 23);
    reveal_strlit("newline_format_if");
    assert("newline_format_if"@.len() == 17);
    reveal_strlit("newline_format_multiline_comment");
    assert("newline_format_multiline_comment"@.len() == 32);
    reveal_strlit("newline_format_oneline_comment");
    assert("newline_format_oneline_comment"@.len() == 30);
    reveal_strlit("newline_format_repeat_until");
    assert("newline_format_repeat_until"@.len() == 27);
    reveal_strlit("newline_format_statement");
    assert("newline_format_statement"@.len() == 24);
    reveal_strlit("newline_format_table_constructor");
    assert("newline_format_table_constructor"@.len() == 32);
    reveal_strlit("newline_format_table_field");
    assert("newline_format_table_field"@.len() == 26);
    reveal_strlit("newline_format_var_suffix");
    assert("newline_format_var_suffix"@.len() == 25);
    reveal_strlit("newline_format_while");
    assert("newline_format_while"@.len() == 20);
    reveal_strlit("remove_all_newlines");
    assert("remove_all_newlines"@.len() == 19);
    reveal_strlit("remove_comments");
    assert("remove_comments"@.len() == 15);
    reveal_strlit("remove_single_newlines");
    assert("remove_single_newlines"@.len() == 22);
    reveal_strlit("remove_spaces_between_tokens");
    assert("remove_spaces_between_tokens"@.len() == 28);
    reveal_strlit("replace_zero_spaces_with_hint");
    assert("replace_zero_spaces_with_hint"@.len() == 29);
    reveal_strlit("write_newline_at_eof");
    assert("write_newline_at_eof"@.len() == 20);
    reveal_strlit("write_newline_at_explist_multiline_table");
    assert("write_newline_at_explist_multiline_table"@.len() == 40);
    reveal_strlit("write_newline_at_multiline_table");
    assert("write_newline_at_multiline_table"@.len() == 32);
    reveal_strlit("write_trailing_field_separator");
    assert("write_trailing_field_separator"@.len() == 30);
    // names of one length differ in a character
    assert("field_separator"@[0] != "indent_exp_list"@[0]);
    assert("field_separator"@[0] != "remove_comments"@[0]);
    assert("indent_exp_list"@[0] != "remove_comments"@[0]);
    assert("indent_var_suffix"@[0] != "newline_format_if"@[0]);
    assert("indentation_string"@[0] != "newline_format_for"@[0]);
    assert("hint_before_comment"@[0] != "remove_all_newlines"@[0]);
    assert("force_single_line_if"@[0] != "newline_format_while"@[0]);
    assert("force_single_line_if"@[0] != "write_newline_at_eof"@[0]);
    assert("newline_format_while"@[0] != "write_newline_at_eof"@[0]);
    assert("hint_table_constructor"@[0] != "remove_single_newlines"@[0]);
    assert("force_single_line_table"@[0] != "newline_format_exp_list"@[0]);
    assert("force_single_line_table"@[0] != "newline_format_function"@[0]);
    assert("newline_format_exp_list"@[15] != "newline_format_function"@[15]);
    assert("indent_one_line_exp_list"@[0] != "newline_format_binary_op"@[0]);
    assert("indent_one_line_exp_list"@[0] != "newline_format_statement"@[0]);
    assert("newline_format_binary_op"@[15] != "newline_format_statement"@[15]);
    assert("force_single_line_exp_list"@[0] != "indent_one_line_var_suffix"@[0]);
    assert("force_single_line_exp_list"@[0] != "newline_format_table_field"@[0]);
    assert("indent_one_line_var_suffix"@[0] != "newline_format_table_field"@[0]);
    assert("force_single_line_binary_op"@[0] != "newline_format_repeat_until"@[0]);
    assert("force_single_line_var_suffix"@[0] != "hint_after_multiline_comment"@[0]);
    assert("force_single_line_var_suffix"@[0] != "remove_spaces_between_tokens"@[0]);
    assert("hint_after_multiline_comment"@[0] != "remove_spaces_between_tokens"@[0]);
    assert("newline_format_exp_list_first"@[0] != "replace_zero_spaces_with_hint"@[0]);
    assert("newline_format_oneline_comment"@[0] != "write_trailing_field_separator"@[0]);
    assert("force_single_line_iv_table_field"@[18] != "force_single_line_kv_table_field"@[18]);
    assert("force_single_line_iv_table_field"@[0] != "hint_before_oneline_comment_text"@[0]);
    assert("force_single_line_iv_table_field"@[0] != "newline_format_multiline_comment"@[0]);
    assert("force_single_line_iv_table_field"@[0] != "newline_format_table_constructor"@[0]);
    assert("force_single_line_iv_table_field"@[0] != "write_newline_at_multiline_table"@[0]);
    assert("force_single_line_kv_table_field"@[0] != "hint_before_oneline_comment_text"@[0]);
    assert("force_single_line_kv_table_field"@[0] != "newline_format_multiline_comment"@[0]);
    assert("force_single_line_kv_table_field"@[0] != "newline_format_table_constructor"@[0]);
    assert("force_single_line_kv_table_field"@[0] != "write_newline_at_multiline_table"@[0]);
    assert("hint_before_oneline_comment_text"@[0] != "newline_format_multiline_comment"@[0]);
    assert("hint_before_oneline_comment_text"@[0] != "newline_format_table_constructor"@[0]);
    assert("hint_before_oneline_comment_text"@[0] != "write_newline_at_multiline_table"@[0]);
    assert("newline_format_multiline_comment"@[15] != "newline_format_table_constructor"@[15]);
    assert("newline_format_multiline_comment"@[0] != "write_newline_at_multiline_table"@[0]);
    assert("newline_format_table_constructor"@[0] != "write_newline_at_multiline_table"@[0]);
    assert("force_single_line_scoped_function"@[0] != "hint_after_multiline_comment_text"@[0]);
    assert("convert_charstring_to_normalstring"@[0] != "hint_before_multiline_comment_text"@[0]);
    assert("force_single_line_top_level_function"@[0] != "newline_format_first_oneline_comment"@[0]);
}

/// The option a name stands for.
pub fn lookup_option_name(name: &str) -> (res: Option<OptionName>)
    ensures
        res == spec_option_name(name@),
{
    if str_eq(name, "replace_zero_spaces_with_hint") { Some(OptionName::ReplaceZeroSpacesWithHint) }
    else if str_eq(name, "hint_after_multiline_comment") { Some(OptionName::HintAfterMultilineComment) }
    else if str_eq(name, "hint_after_multiline_comment_text") { Some(OptionName::HintAfterMultilineCommentText) }
    else if str_eq(name, "hint_before_comment") { Some(OptionName::HintBeforeComment) }
    else if str_eq(name, "hint_before_multiline_comment_text") { Some(OptionName::HintBeforeMultilineCommentText) }
    else if str_eq(name, "hint_before_oneline_comment_text") { Some(OptionName::HintBeforeOnelineCommentText) }
    else if str_eq(name, "hint_table_constructor") { Some(OptionName::HintTableConstructor) }
    else if str_eq(name, "remove_comments") { Some(OptionName::RemoveComments) }
    else if str_eq(name, "remove_single_newlines") { Some(OptionName::RemoveSingleNewlines) }
    else if str_eq(name, "remove_all_newlines") { Some(OptionName::RemoveAllNewlines) }
    else if str_eq(name, "remove_spaces_between_tokens") { Some(OptionName::RemoveSpacesBetweenTokens) }
    else if str_eq(name, "write_newline_at_eof") { Some(OptionName::WriteNewlineAtEof) }
    else if str_eq(name, "write_newline_at_multiline_table") { Some(OptionName::WriteNewlineAtMultilineTable) }
    else if str_eq(name, "write_newline_at_explist_multiline_table") { Some(OptionName::WriteNewlineAtExplistMultilineTable) }
    else if str_eq(name, "indentation_string") { Some(OptionName::IndentationString) }
    else if str_eq(name, "indent_var_suffix") { Some(OptionName::IndentVarSuffix) }
    else if str_eq(name, "indent_one_line_var_suffix") { Some(OptionName::IndentOneLineVarSuffix) }
    else if str_eq(name, "indent_exp_list") { Some(OptionName::IndentExpList) }
    else if str_eq(name, "indent_one_line_exp_list") { Some(OptionName::IndentOneLineExpList) }
    else if str_eq(name, "newline_format_first_oneline_comment") { Some(OptionName::NewlineFormatFirstOnelineComment) }
    else if str_eq(name, "newline_format_first_multiline_comment") { Some(OptionName::NewlineFormatFirstMultilineComment) }
    else if str_eq(name, "newline_format_oneline_comment") { Some(OptionName::NewlineFormatOnelineComment) }
    else if str_eq(name, "newline_format_multiline_comment") { Some(OptionName::NewlineFormatMultilineComment) }
    else if str_eq(name, "newline_format_statement") { Some(OptionName::NewlineFormatStatement) }
    else if str_eq(name, "newline_format_do_end") { Some(OptionName::NewlineFormatDoEnd) }
    else if str_eq(name, "newline_format_for") { Some(OptionName::NewlineFormatFor) }
    else if str_eq(name, "newline_format_function") { Some(OptionName::NewlineFormatFunction) }
    else if str_eq(name, "newline_format_if") { Some(OptionName::NewlineFormatIf) }
    else if str_eq(name, "newline_format_repeat_until") { Some(OptionName::NewlineFormatRepeatUntil) }
    else if str_eq(name, "newline_format_table_constructor") { Some(OptionName::NewlineFormatTableConstructor) }
    else if str_eq(name, "newline_format_table_field") { Some(OptionName::NewlineFormatTableField) }
    else if str_eq(name, "newline_format_while") { Some(OptionName::NewlineFormatWhile) }
    else if str_eq(name, "newline_format_binary_op") { Some(OptionName::NewlineFormatBinaryOp) }
    else if str_eq(name, "newline_format_var_suffix") { Some(OptionName::NewlineFormatVarSuffix) }
    else if str_eq(name, "newline_format_exp_list") { Some(OptionName::NewlineFormatExpList) }
    else if str_eq(name, "newline_format_exp_list_first") { Some(OptionName::NewlineFormatExpListFirst) }
    else if str_eq(name, "field_separator") { Some(OptionName::FieldSeparator) }
    else if str_eq(name, "write_trailing_field_separator") { Some(OptionName::WriteTrailingFieldSeparator) }
    else if str_eq(name, "convert_charstring_to_normalstring") { Some(OptionName::ConvertCharstringToNormalstring) }
    else if str_eq(name, "max_width") { Some(OptionName::MaxWidth) }
    else if str_eq(name, "force_single_line_binary_op") { Some(OptionName::ForceSingleLineBinaryOp) }
    else if str_eq(name, "force_single_line_table") { Some(OptionName::ForceSingleLineTable) }
    else if str_eq(name, "force_single_line_iv_table_field") { Some(OptionName::ForceSingleLineIvTableField) }
    else if str_eq(name, "force_single_line_kv_table_field") { Some(OptionName::ForceSingleLineKvTableField) }
    else if str_eq(name, "force_single_line_if") { Some(OptionName::ForceSingleLineIf) }
    else if str_eq(name, "force_single_line_top_level_function") { Some(OptionName::ForceSingleLineTopLevelFunction) }
    else if str_eq(name, "force_single_line_scoped_function") { Some(OptionName::ForceSingleLineScopedFunction) }
    else if str_eq(name, "force_single_line_var_suffix") { Some(OptionName::ForceSingleLineVarSuffix) }
    else if str_eq(name, "force_single_line_exp_list") { Some(OptionName::ForceSingleLineExpList) }
    else if str_eq(name, "line_range") { Some(OptionName::LineRange) }
    else { None }
}

pub open spec fn option_kind(o: OptionName) -> OptionKind {
    match o {
        OptionName::ReplaceZeroSpacesWithHint => OptionKind::Bool,
        OptionName::HintAfterMultilineComment => OptionKind::Text,
        OptionName::HintAfterMultilineCommentText => OptionKind::Text,
        OptionName::HintBeforeComment => OptionKind::Text,
        OptionName::HintBeforeMultilineCommentText => OptionKind::Text,
        OptionName::HintBeforeOnelineCommentText => OptionKind::Text,
        OptionName::HintTableConstructor => OptionKind::Text,
        OptionName::RemoveComments => OptionKind::Bool,
        OptionName::RemoveSingleNewlines => OptionKind::Bool,
        OptionName::RemoveAllNewlines => OptionKind::Bool,
        OptionName::RemoveSpacesBetweenTokens => OptionKind::Bool,
        OptionName::WriteNewlineAtEof => OptionKind::Bool,
        OptionName::WriteNewlineAtMultilineTable => OptionKind::Bool,
        OptionName::WriteNewlineAtExplistMultilineTable => OptionKind::Bool,
        OptionName::IndentationString => OptionKind::Text,
        OptionName::IndentVarSuffix => OptionKind::Bool,
        OptionName::IndentOneLineVarSuffix => OptionKind::Bool,
        OptionName::IndentExpList => OptionKind::Bool,
        OptionName::IndentOneLineExpList => OptionKind::Bool,
        OptionName::NewlineFormatFirstOnelineComment => OptionKind::Usize,
        OptionName::NewlineFormatFirstMultilineComment => OptionKind::Usize,
        OptionName::NewlineFormatOnelineComment => OptionKind::Usize,
        OptionName::NewlineFormatMultilineComment => OptionKind::Usize,
        OptionName::NewlineFormatStatement => OptionKind::Usize,
        OptionName::NewlineFormatDoEnd => OptionKind::Usize,
        OptionName::NewlineFormatFor => OptionKind::Usize,
        OptionName::NewlineFormatFunction => OptionKind::Usize,
        OptionName::NewlineFormatIf => OptionKind::Usize,
        OptionName::NewlineFormatRepeatUntil => OptionKind::Usize,
        OptionName::NewlineFormatTableConstructor => OptionKind::Usize,
        OptionName::NewlineFormatTableField => OptionKind::Usize,
        OptionName::NewlineFormatWhile => OptionKind::Usize,
        OptionName::NewlineFormatBinaryOp => OptionKind::Usize,
        OptionName::NewlineFormatVarSuffix => OptionKind::Usize,
        OptionName::NewlineFormatExpList => OptionKind::Usize,
        OptionName::NewlineFormatExpListFirst => OptionKind::Usize,
        OptionName::FieldSeparator => OptionKind::Text,
        OptionName::WriteTrailingFieldSeparator => OptionKind::Bool,
        OptionName::ConvertCharstringToNormalstring => OptionKind::Bool,
        OptionName::MaxWidth => OptionKind::Usize,
        OptionName::ForceSingleLineBinaryOp => OptionKind::Bool,
        OptionName::ForceSingleLineTable => OptionKind::Bool,
        OptionName::ForceSingleLineIvTableField => OptionKind::Bool,
        OptionName::ForceSingleLineKvTableField => OptionKind::Bool,
        OptionName::ForceSingleLineIf => OptionKind::Bool,
        OptionName::ForceSingleLineTopLevelFunction => OptionKind::Bool,
        OptionName::ForceSingleLineScopedFunction => OptionKind::Bool,
        OptionName::ForceSingleLineVarSuffix => OptionKind::Bool,
        OptionName::ForceSingleLineExpList => OptionKind::Bool,
        OptionName::LineRange => OptionKind::LineRange,
    }
}

pub open spec fn opt_text(v: Option<String>) -> Option<Seq<char>> {
    match v {
        Some(s) => Some(s@),
        None => None,
    }
}

/// The value a configuration holds for an option.
pub open spec fn option_value(cfg: Config, o: OptionName) -> OptionValue {
    match o {
        OptionName::ReplaceZeroSpacesWithHint => OptionValue::Bool(cfg.fmt.replace_zero_spaces_with_hint),
        OptionName::HintAfterMultilineComment => OptionValue::Text(opt_text(cfg.fmt.hint_after_multiline_comment)),
        OptionName::HintAfterMultilineCommentText => OptionValue::Text(opt_text(cfg.fmt.hint_after_multiline_comment_text)),
        OptionName::HintBeforeComment => OptionValue::Text(opt_text(cfg.fmt.hint_before_comment)),
        OptionName::HintBeforeMultilineCommentText => OptionValue::Text(opt_text(cfg.fmt.hint_before_multiline_comment_text)),
        OptionName::HintBeforeOnelineCommentText => OptionValue::Text(opt_text(cfg.fmt.hint_before_oneline_comment_text)),
        OptionName::HintTableConstructor => OptionValue::Text(opt_text(cfg.fmt.hint_table_constructor)),
        OptionName::RemoveComments => OptionValue::Bool(cfg.fmt.remove_comments),
        OptionName::RemoveSingleNewlines => OptionValue::Bool(cfg.fmt.remove_single_newlines),
        OptionName::RemoveAllNewlines => OptionValue::Bool(cfg.fmt.remove_all_newlines),
        OptionName::RemoveSpacesBetweenTokens => OptionValue::Bool(cfg.fmt.remove_spaces_between_tokens),
        OptionName::WriteNewlineAtEof => OptionValue::Bool(cfg.fmt.write_newline_at_eof),
        OptionName::WriteNewlineAtMultilineTable => OptionValue::Bool(cfg.fmt.write_newline_at_multiline_table),
        OptionName::WriteNewlineAtExplistMultilineTable => OptionValue::Bool(cfg.fmt.write_newline_at_explist_multiline_table),
        OptionName::IndentationString => OptionValue::Text(opt_text(cfg.fmt.indentation_string)),
        OptionName::IndentVarSuffix => OptionValue::Bool(cfg.fmt.indent_var_suffix),
        OptionName::IndentOneLineVarSuffix => OptionValue::Bool(cfg.fmt.indent_one_line_var_suffix),
        OptionName::IndentExpList => OptionValue::Bool(cfg.fmt.indent_exp_list),
        OptionName::IndentOneLineExpList => OptionValue::Bool(cfg.fmt.indent_one_line_exp_list),
        OptionName::NewlineFormatFirstOnelineComment => OptionValue::Usize(cfg.fmt.newline_format_first_oneline_comment),
        OptionName::NewlineFormatFirstMultilineComment => OptionValue::Usize(cfg.fmt.newline_format_first_multiline_comment),
        OptionName::NewlineFormatOnelineComment => OptionValue::Usize(cfg.fmt.newline_format_oneline_comment),
        OptionName::NewlineFormatMultilineComment => OptionValue::Usize(cfg.fmt.newline_format_multiline_comment),
        OptionName::NewlineFormatStatement => OptionValue::Usize(cfg.fmt.newline_format_statement),
        OptionName::NewlineFormatDoEnd => OptionValue::Usize(cfg.fmt.newline_format_do_end),
        OptionName::NewlineFormatFor => OptionValue::Usize(cfg.fmt.newline_format_for),
        OptionName::NewlineFormatFunction => OptionValue::Usize(cfg.fmt.newline_format_function),
        OptionName::NewlineFormatIf => OptionValue::Usize(cfg.fmt.newline_format_if),
        OptionName::NewlineFormatRepeatUntil => OptionValue::Usize(cfg.fmt.newline_format_repeat_until),
        OptionName::NewlineFormatTableConstructor => OptionValue::Usize(cfg.fmt.newline_format_table_constructor),
        OptionName::NewlineFormatTableField => OptionValue::Usize(cfg.fmt.newline_format_table_field),
        OptionName::NewlineFormatWhile => OptionValue::Usize(cfg.fmt.newline_format_while),
        OptionName::NewlineFormatBinaryOp => OptionValue::Usize(cfg.fmt.newline_format_binary_op),
        OptionName::NewlineFormatVarSuffix => OptionValue::Usize(cfg.fmt.newline_format_var_suffix),
        OptionName::NewlineFormatExpList => OptionValue::Usize(cfg.fmt.newline_format_exp_list),
        OptionName::NewlineFormatExpListFirst => OptionValue::Usize(cfg.fmt.newline_format_exp_list_first),
        OptionName::FieldSeparator => OptionValue::Text(opt_text(cfg.fmt.field_separator)),
        OptionName::WriteTrailingFieldSeparator => OptionValue::Bool(cfg.fmt.write_trailing_field_separator),
        OptionName::ConvertCharstringToNormalstring => OptionValue::Bool(cfg.fmt.convert_charstring_to_normalstring),
        OptionName::MaxWidth => OptionValue::Usize(cfg.fmt.max_width),
        OptionName::ForceSingleLineBinaryOp => OptionValue::Bool(cfg.fmt.force_single_line_binary_op),
        OptionName::ForceSingleLineTable => OptionValue::Bool(cfg.fmt.force_single_line_table),
        OptionName::ForceSingleLineIvTableField => OptionValue::Bool(cfg.fmt.force_single_line_iv_table_field),
        OptionName::ForceSingleLineKvTableField => OptionValue::Bool(cfg.fmt.force_single_line_kv_table_field),
        OptionName::ForceSingleLineIf => OptionValue::Bool(cfg.fmt.force_single_line_if),
        OptionName::ForceSingleLineTopLevelFunction => OptionValue::Bool(cfg.fmt.force_single_line_top_level_function),
        OptionName::ForceSingleLineScopedFunction => OptionValue::Bool(cfg.fmt.force_single_line_scoped_function),
        OptionName::ForceSingleLineVarSuffix => OptionValue::Bool(cfg.fmt.force_single_line_var_suffix),
        OptionName::ForceSingleLineExpList => OptionValue::Bool(cfg.fmt.force_single_line_exp_list),
        OptionName::LineRange => OptionValue::LineRange(cfg.line_range),
    }
}

} // verus!

verus! {

/// Why `Config::set` refused an option.
#[derive(Debug, PartialEq, Clone, Copy)]
pub enum SetError {
    InvalidOptionName,
    InvalidOptionValue,
}

pub open spec fn spec_parse_bool(s: Seq<char>) -> Option<bool> {
    if s == "true"@ {
        Some(true)
    } else if s == "false"@ {
        Some(false)
    } else {
        None
    }
}

/// Reads `true` or `false`, as `str::parse::<bool>` does.
pub fn parse_bool(s: &str) -> (res: Option<bool>)
    ensures
        res == spec_parse_bool(s@),
{
    if str_eq(s, "true") {
        Some(true)
    } else if str_eq(s, "false") {
        Some(false)
    } else {
        None
    }
}

pub open spec fn all_digits(s: Seq<char>) -> bool {
    forall|i: int| 0 <= i < s.len() ==> is_digit(#[trigger] s[i])
}

/// The number that a run of decimal digits spells.
pub open spec fn digits_value(s: Seq<char>) -> int
    decreases s.len(),
{
    if s.len() == 0 {
        0
    } else {
        digits_value(s.drop_last()) * 10 + (s.last() as int - '0' as int)
    }
}

/// What `str::parse::<usize>` gives: an optional `+`, then at least one decimal digit,
/// for a number that fits.
pub open spec fn spec_parse_usize(s: Seq<char>) -> Option<usize> {
    let d = if s.len() > 0 && s[0] == '+' { s.drop_first() } else { s };
    if d.len() > 0 && all_digits(d) && digits_value(d) <= usize::MAX {
        Some(digits_value(d) as usize)
    } else {
        None
    }
}

proof fn lemma_digits_value_step(s: Seq<char>, i: int)
    requires
        0 <= i < s.len(),
    ensures
        digits_value(s.take(i + 1)) == digits_value(s.take(i)) * 10 + (s[i] as int - '0' as int),
{
    assert(s.take(i + 1).drop_last() =~= s.take(i));
}

proof fn lemma_digits_value_grows(s: Seq<char>, i: int, j: int)
    requires
        0 <= i <= j <= s.len(),
        all_digits(s),
    ensures
        digits_value(s.take(i)) <= digits_value(s.take(j)),
        digits_value(s.take(i)) >= 0,
    decreases j - i,
{
    if i == j {
        lemma_digits_nonneg(s.take(i));
    } else {
        lemma_digits_value_grows(s, i, j - 1);
        lemma_digits_value_step(s, j - 1);
        assert(is_digit(s[j - 1]));
        lemma_digits_nonneg(s.take(j - 1));
    }
}

proof fn lemma_digits_nonneg(s: Seq<char>)
    requires
        all_digits(s),
    ensures
        digits_value(s) >= 0,
    decreases s.len(),
{
    if s.len() > 0 {
        assert(all_digits(s.drop_last()));
        lemma_digits_nonneg(s.drop_last());
        assert(is_digit(s[s.len() - 1]));
    }
}

/// Reads a decimal number as `str::parse::<usize>` does.
pub fn parse_usize(s: &str) -> (res: Option<usize>)
    ensures
        res == spec_parse_usize(s@),
{
    let n = s.unicode_len();
    let mut i: usize = 0;
    if n > 0 && s.get_char(0) == '+' {
        i = 1;
    }
    let ghost d = if s@.len() > 0 && s@[0] == '+' { s@.drop_first() } else { s@ };
    let ghost off = i as int;
    assert(d =~= s@.subrange(off, n as int));
    if i >= n {
        return None;
    }
    let mut acc: usize = 0;
    while i < n
        invariant
            off <= i <= n,
            n == s@.len(),
            d == s@.subrange(off, n as int),
            d == (if s@.len() > 0 && s@[0] == '+' { s@.drop_first() } else { s@ }),
            off == 0 || off == 1,
            all_digits(d.take(i - off)),
            acc as int == digits_value(d.take(i - off)),
        decreases n - i,
    {
        let c = s.get_char(i);
        assert(d[i - off] == c);
        if !exec_is_digit(c) {
            assert(!is_digit(d[i - off]));
            assert(!all_digits(d));
            return None;
        }
        let dv = (c as u32 - '0' as u32) as usize;
        proof {
            lemma_digits_value_step(d, i - off);
            assert(d.take(i - off + 1).drop_last() =~= d.take(i - off));
        }
        if acc > (usize::MAX - dv) / 10 {
            proof {
                assert(acc * 10 + dv > usize::MAX) by (nonlinear_arith)
                    requires
                        acc > (usize::MAX - dv) / 10,
                        dv <= 9;
                assert forall|k: int| 0 <= k < i - off + 1 implies is_digit(#[trigger] d.take(i - off + 1)[k]) by {
                    if k < i - off {
                        assert(d.take(i - off + 1)[k] == d.take(i - off)[k]);
                    }
                }
                assert(dv as int == c as int - '0' as int);
                assert(digits_value(d.take(i - off + 1)) > usize::MAX);
                if all_digits(d) {
                    lemma_digits_value_grows(d, i - off + 1, d.len() as int);
                    assert(d.take(d.len() as int) =~= d);
                    assert(digits_value(d) > usize::MAX);
                }
            }
            return None;
        }
        proof {
            assert(acc * 10 + dv <= usize::MAX) by (nonlinear_arith)
                requires
                    acc <= (usize::MAX - dv) / 10,
                    dv <= 9;
        }
        acc = acc * 10 + dv;
        i = i + 1;
        proof {
            assert forall|k: int| 0 <= k < i - off implies is_digit(#[trigger] d.take(i - off)[k]) by {
                if k < i - off - 1 {
                    assert(d.take(i - off)[k] == d.take(i - off - 1)[k]);
                }
            }
        }
    }
    assert(d.take(n - off) =~= d);
    Some(acc)
}

} // verus!

verus! {

/// A colon at `k` splits `s` into two non-empty runs of decimal digits.
pub open spec fn is_range_colon(s: Seq<char>, k: int) -> bool {
    &&& 1 <= k
    &&& k + 1 < s.len()
    &&& s[k] == ':'
    &&& all_digits(s.take(k))
    &&& all_digits(s.skip(k + 1))
}

/// The two digit runs of `digits:digits`, if `s` has that shape.
pub open spec fn spec_split_range(s: Seq<char>) -> Option<(Seq<char>, Seq<char>)> {
    if exists|k: int| is_range_colon(s, k) {
        let k = choose|k: int| is_range_colon(s, k);
        Some((s.take(k), s.skip(k + 1)))
    } else {
        None
    }
}

/// Matches `value` against the pattern `^([0-9]+):([0-9]+)$` of the `regex` crate
/// (`Regex::new`, then `Regex::captures`) and hands back the two groups.
/// The contract claims what the crate documents for this pattern: a match exactly when
/// the whole text is two runs of ASCII digits joined by one colon, the groups being the runs.
#[verifier::external_body]
fn capture_line_range(value: &str) -> (res: Option<(String, String)>)
    ensures
        match (res, spec_split_range(value@)) {
            (Some((a, b)), Some((sa, sb))) => a@ == sa && b@ == sb,
            (None, None) => true,
            _ => false,
        },
{
    let re = regex::Regex::new(r"^([0-9]+):([0-9]+)$").unwrap();
    match re.captures(value) {
        Some(cap) => Some((cap[1].to_string(), cap[2].to_string())),
        None => None,
    }
}

pub open spec fn spec_line_range(s: Seq<char>) -> Option<(usize, usize)> {
    match spec_split_range(s) {
        Some((a, b)) => match (spec_parse_usize(a), spec_parse_usize(b)) {
            (Some(x), Some(y)) => Some((x, y)),
            _ => None,
        },
        None => None,
    }
}

/// Reads a line range written `first:last`.
pub fn parse_line_range(s: &str) -> (res: Option<(usize, usize)>)
    ensures
        res == spec_line_range(s@),
{
    match capture_line_range(s) {
        Some((a, b)) => match (parse_usize(a.as_str()), parse_usize(b.as_str())) {
            (Some(x), Some(y)) => Some((x, y)),
            _ => None,
        },
        None => None,
    }
}

/// What setting an option to the text `s` stores, if `s` is a valid value of its kind.
pub open spec fn spec_parse_option(kind: OptionKind, s: Seq<char>) -> Option<OptionValue> {
    match kind {
        OptionKind::Bool => match spec_parse_bool(s) {
            Some(b) => Some(OptionValue::Bool(Some(b))),
            None => None,
        },
        OptionKind::Usize => match spec_parse_usize(s) {
            Some(u) => Some(OptionValue::Usize(Some(u))),
            None => None,
        },
        OptionKind::Text => Some(OptionValue::Text(Some(s))),
        OptionKind::LineRange => match spec_line_range(s) {
            Some(r) => Some(OptionValue::LineRange(Some(r))),
            None => None,
        },
    }
}

fn text_value(s: &str) -> (res: String)
    ensures
        res@ == s@,
{
    proof {
        broadcast use vstd::string::group_string_axioms;
    }
    s.to_string()
}

impl Config {
    /// Sets the option named `option_name` from the text `value_str`.
    /// An unknown name or a value that does not parse leaves the configuration as it was.
    pub fn set(&mut self, option_name: &str, value_str: &str) -> (res: Result<(), SetError>)
        ensures
            match spec_option_name(option_name@) {
                None => res == Err::<(), SetError>(SetError::InvalidOptionName) && *final(self) == *old(self),
                Some(o) => match spec_parse_option(option_kind(o), value_str@) {
                    None => res == Err::<(), SetError>(SetError::InvalidOptionValue) && *final(self) == *old(self),
                    Some(v) => {
                        &&& res == Ok::<(), SetError>(())
                        &&& option_value(*final(self), o) == v
                        &&& forall|o2: OptionName| o2 != o ==> option_value(*final(self), o2) == option_value(*old(self), o2)
                    },
                },
            },
    {
        let o = match lookup_option_name(option_name) {
            Some(o) => o,
            None => return Err(SetError::InvalidOptionName),
        };
        match o {
            OptionName::ReplaceZeroSpacesWithHint => match parse_bool(value_str) {
                Some(v) => { self.fmt.replace_zero_spaces_with_hint = Some(v); Ok(()) },
                None => Err(SetError::InvalidOptionValue),
            },
            OptionName::HintAfterMultilineComment => { self.fmt.hint_after_multiline_comment = Some(text_value(value_str)); Ok(()) },
            OptionName::HintAfterMultilineCommentText => { self.fmt.hint_after_multiline_comment_text = Some(text_value(value_str)); Ok(()) },
            OptionName::HintBeforeComment => { self.fmt.hint_before_comment = Some(text_value(value_str)); Ok(()) },
            OptionName::HintBeforeMultilineCommentText => { self.fmt.hint_before_multiline_comment_text = Some(text_value(value_str)); Ok(()) },
            OptionName::HintBeforeOnelineCommentText => { self.fmt.hint_before_oneline_comment_text = Some(text_value(value_str)); Ok(()) },
            OptionName::HintTableConstructor => { self.fmt.hint_table_constructor = Some(text_value(value_str)); Ok(()) },
            OptionName::RemoveComments => match parse_bool(value_str) {
                Some(v) => { self.fmt.remove_comments = Some(v); Ok(()) },
                None => Err(SetError::InvalidOptionValue),
            },
            OptionName::RemoveSingleNewlines => match parse_bool(value_str) {
                Some(v) => { self.fmt.remove_single_newlines = Some(v); Ok(()) },
                None => Err(SetError::InvalidOptionValue),
            },
            OptionName::RemoveAllNewlines => match parse_bool(value_str) {
                Some(v) => { self.fmt.remove_all_newlines = Some(v); Ok(()) },
                None => Err(SetError::InvalidOptionValue),
            },
            OptionName::RemoveSpacesBetweenTokens => match parse_bool(value_str) {
                Some(v) => { self.fmt.remove_spaces_between_tokens = Some(v); Ok(()) },
                None => Err(SetError::InvalidOptionValue),
            },
            OptionName::WriteNewlineAtEof => match parse_bool(value_str) {
                Some(v) => { self.fmt.write_newline_at_eof = Some(v); Ok(()) },
                None => Err(SetError::InvalidOptionValue),
            },
            OptionName::WriteNewlineAtMultilineTable => match parse_bool(value_str) {
                Some(v) => { self.fmt.write_newline_at_multiline_table = Some(v); Ok(()) },
                None => Err(SetError::InvalidOptionValue),
            },
            OptionName::WriteNewlineAtExplistMultilineTable => match parse_bool(value_str) {
                Some(v) => { self.fmt.write_newline_at_explist_multiline_table = Some(v); Ok(()) },
                None => Err(SetError::InvalidOptionValue),
            },
            OptionName::IndentationString => { self.fmt.indentation_string = Some(text_value(value_str)); Ok(()) },
            OptionName::IndentVarSuffix => match parse_bool(value_str) {
                Some(v) => { self.fmt.indent_var_suffix = Some(v); Ok(()) },
                None => Err(SetError::InvalidOptionValue),
            },
            OptionName::IndentOneLineVarSuffix => match parse_bool(value_str) {
                Some(v) => { self.fmt.indent_one_line_var_suffix = Some(v); Ok(()) },
                None => Err(SetError::InvalidOptionValue),
            },
            OptionName::IndentExpList => match parse_bool(value_str) {
                Some(v) => { self.fmt.indent_exp_list = Some(v); Ok(()) },
                None => Err(SetError::InvalidOptionValue),
            },
            OptionName::IndentOneLineExpList => match parse_bool(value_str) {
                Some(v) => { self.fmt.indent_one_line_exp_list = Some(v); Ok(()) },
                None => Err(SetError::InvalidOptionValue),
            },
            OptionName::NewlineFormatFirstOnelineComment => match parse_usize(value_str) {
                Some(v) => { self.fmt.newline_format_first_oneline_comment = Some(v); Ok(()) },
                None => Err(SetError::InvalidOptionValue),
            },
            OptionName::NewlineFormatFirstMultilineComment => match parse_usize(value_str) {
                Some(v) => { self.fmt.newline_format_first_multiline_comment = Some(v); Ok(()) },
                None => Err(SetError::InvalidOptionValue),
            },
            OptionName::NewlineFormatOnelineComment => match parse_usize(value_str) {
                Some(v) => { self.fmt.newline_format_oneline_comment = Some(v); Ok(()) },
                None => Err(SetError::InvalidOptionValue),
            },
            OptionName::NewlineFormatMultilineComment => match parse_usize(value_str) {
                Some(v) => { self.fmt.newline_format_multiline_comment = Some(v); Ok(()) },
                None => Err(SetError::InvalidOptionValue),
            },
            OptionName::NewlineFormatStatement => match parse_usize(value_str) {
                Some(v) => { self.fmt.newline_format_statement = Some(v); Ok(()) },
                None => Err(SetError::InvalidOptionValue),
            },
            OptionName::NewlineFormatDoEnd => match parse_usize(value_str) {
                Some(v) => { self.fmt.newline_format_do_end = Some(v); Ok(()) },
                None => Err(SetError::InvalidOptionValue),
            },
            OptionName::NewlineFormatFor => match parse_usize(value_str) {
                Some(v) => { self.fmt.newline_format_for = Some(v); Ok(()) },
                None => Err(SetError::InvalidOptionValue),
            },
            OptionName::NewlineFormatFunction => match parse_usize(value_str) {
                Some(v) => { self.fmt.newline_format_function = Some(v); Ok(()) },
                None => Err(SetError::InvalidOptionValue),
            },
            OptionName::NewlineFormatIf => match parse_usize(value_str) {
                Some(v) => { self.fmt.newline_format_if = Some(v); Ok(()) },
                None => Err(SetError::InvalidOptionValue),
            },
            OptionName::NewlineFormatRepeatUntil => match parse_usize(value_str) {
                Some(v) => { self.fmt.newline_format_repeat_until = Some(v); Ok(()) },
                None => Err(SetError::InvalidOptionValue),
            },
            OptionName::NewlineFormatTableConstructor => match parse_usize(value_str) {
                Some(v) => { self.fmt.newline_format_table_constructor = Some(v); Ok(()) },
                None => Err(SetError::InvalidOptionValue),
            },
            OptionName::NewlineFormatTableField => match parse_usize(value_str) {
                Some(v) => { self.fmt.newline_format_table_field = Some(v); Ok(()) },
                None => Err(SetError::InvalidOptionValue),
            },
            OptionName::NewlineFormatWhile => match parse_usize(value_str) {
                Some(v) => { self.fmt.newline_format_while = Some(v); Ok(()) },
                None => Err(SetError::InvalidOptionValue),
            },
            OptionName::NewlineFormatBinaryOp => match parse_usize(value_str) {
                Some(v) => { self.fmt.newline_format_binary_op = Some(v); Ok(()) },
                None => Err(SetError::InvalidOptionValue),
            },
            OptionName::NewlineFormatVarSuffix => match parse_usize(value_str) {
                Some(v) => { self.fmt.newline_format_var_suffix = Some(v); Ok(()) },
                None => Err(SetError::InvalidOptionValue),
            },
            OptionName::NewlineFormatExpList => match parse_usize(value_str) {
                Some(v) => { self.fmt.newline_format_exp_list = Some(v); Ok(()) },
                None => Err(SetError::InvalidOptionValue),
            },
            OptionName::NewlineFormatExpListFirst => match parse_usize(value_str) {
                Some(v) => { self.fmt.newline_format_exp_list_first = Some(v); Ok(()) },
                None => Err(SetError::InvalidOptionValue),
            },
            OptionName::FieldSeparator => { self.fmt.field_separator = Some(text_value(value_str)); Ok(()) },
            OptionName::WriteTrailingFieldSeparator => match parse_bool(value_str) {
                Some(v) => { self.fmt.write_trailing_field_separator = Some(v); Ok(()) },
                None => Err(SetError::InvalidOptionValue),
            },
            OptionName::ConvertCharstringToNormalstring => match parse_bool(value_str) {
                Some(v) => { self.fmt.convert_charstring_to_normalstring = Some(v); Ok(()) },
                None => Err(SetError::InvalidOptionValue),
            },
            OptionName::MaxWidth => match parse_usize(value_str) {
                Some(v) => { self.fmt.max_width = Some(v); Ok(()) },
                None => Err(SetError::InvalidOptionValue),
            },
            OptionName::ForceSingleLineBinaryOp => match parse_bool(value_str) {
                Some(v) => { self.fmt.force_single_line_binary_op = Some(v); Ok(()) },
                None => Err(SetError::InvalidOptionValue),
            },
            OptionName::ForceSingleLineTable => match parse_bool(value_str) {
                Some(v) => { self.fmt.force_single_line_table = Some(v); Ok(()) },
                None => Err(SetError::InvalidOptionValue),
            },
            OptionName::ForceSingleLineIvTableField => match parse_bool(value_str) {
                Some(v) => { self.fmt.force_single_line_iv_table_field = Some(v); Ok(()) },
                None => Err(SetError::InvalidOptionValue),
            },
            OptionName::ForceSingleLineKvTableField => match parse_bool(value_str) {
                Some(v) => { self.fmt.force_single_line_kv_table_field = Some(v); Ok(()) },
                None => Err(SetError::InvalidOptionValue),
            },
            OptionName::ForceSingleLineIf => match parse_bool(value_str) {
                Some(v) => { self.fmt.force_single_line_if = Some(v); Ok(()) },
                None => Err(SetError::InvalidOptionValue),
            },
            OptionName::ForceSingleLineTopLevelFunction => match parse_bool(value_str) {
                Some(v) => { self.fmt.force_single_line_top_level_function = Some(v); Ok(()) },
                None => Err(SetError::InvalidOptionValue),
            },
            OptionName::ForceSingleLineScopedFunction => match parse_bool(value_str) {
                Some(v) => { self.fmt.force_single_line_scoped_function = Some(v); Ok(()) },
                None => Err(SetError::InvalidOptionValue),
            },
            OptionName::ForceSingleLineVarSuffix => match parse_bool(value_str) {
                Some(v) => { self.fmt.force_single_line_var_suffix = Some(v); Ok(()) },
                None => Err(SetError::InvalidOptionValue),
            },
            OptionName::ForceSingleLineExpList => match parse_bool(value_str) {
                Some(v) => { self.fmt.force_single_line_exp_list = Some(v); Ok(()) },
                None => Err(SetError::InvalidOptionValue),
            },
            OptionName::LineRange => match parse_line_range(value_str) {
                Some(v) => { self.line_range = Some(v); Ok(()) },
                None => Err(SetError::InvalidOptionValue),
            },
        }
    }
}

} // verus!

verus! {

/// The error that writing formatted text reports (`std::fmt::Error`).
#[verifier::external_type_specification]
#[verifier::external_body]
pub struct ExFmtError(std::fmt::Error);

/// Writes a value of the syntax tree, formatted by the configuration, to `f`.
pub trait ConfiguredWrite {
    fn configured_write(&self, f: &mut String, cfg: &Config, buf: &str, state: &mut State) -> Result<(), std::fmt::Error>;
}

/// What the writer keeps track of while it walks the syntax tree.
#[derive(Debug, Clone)]
pub struct State {
    pub indent_level: isize,
    pub stack_indent: Vec<Option<String>>,
    pub function_nested_level: isize,
    pub block_nested_level: isize,
    pub pos_range: Option<(usize, usize)>,
    /// The starts of the table constructors that were written on one line.
    pub oneline_tables: Vec<usize>,
    /// For the fields of table constructors, by their start: whether they were indented.
    pub indented_fields: Vec<(usize, bool)>,
}

impl State {
    pub fn default() -> (res: Self)
        ensures
            res.indent_level == 0,
            res.stack_indent@.len() == 0,
            res.function_nested_level == 0,
            res.block_nested_level == 0,
            res.pos_range is None,
            res.oneline_tables@.len() == 0,
            res.indented_fields@.len() == 0,
    {
        State {
            indent_level: 0,
            stack_indent: Vec::new(),
            function_nested_level: 0,
            block_nested_level: 0,
            pos_range: None,
            oneline_tables: Vec::new(),
            indented_fields: Vec::new(),
        }
    }
}

/// The value `std::fmt::Error`, which carries nothing; nothing is claimed of it.
#[verifier::external_body]
pub fn fmt_error() -> std::fmt::Error {
    std::fmt::Error
}

} // verus!

verus! {

/// The warning for an option that `Config::set` refused.
pub open spec fn set_warning(e: SetError, name: Seq<char>, value: Seq<char>) -> Seq<char> {
    match e {
        SetError::InvalidOptionName => "Invalid option name `"@ + name + "`"@,
        SetError::InvalidOptionValue => "Invalid `"@ + name + "` option value `"@ + value + "`"@,
    }
}

/// Describes an option that `Config::set` refused.
pub fn set_warning_text(e: SetError, name: &str, value: &str) -> (res: String)
    ensures
        res@ == set_warning(e, name@, value@),
{
    let mut s = String::new();
    match e {
        SetError::InvalidOptionName => {
            s.append("Invalid option name `");
            s.append(name);
            s.append("`");
        },
        SetError::InvalidOptionValue => {
            s.append("Invalid `");
            s.append(name);
            s.append("` option value `");
            s.append(value);
            s.append("`");
        },
    }
    s
}

/// A copy of an optional text.
fn copy_text(o: &Option<String>) -> (res: Option<String>)
    ensures
        res == *o,
{
    match o {
        Some(s) => Some(s.clone()),
        None => None,
    }
}

impl FormatOpts {
    /// A copy of the options.
    pub fn duplicate(&self) -> (res: FormatOpts)
        ensures
            res == *self,
    {
        FormatOpts {
            replace_zero_spaces_with_hint: self.replace_zero_spaces_with_hint,
            hint_after_multiline_comment: copy_text(&self.hint_after_multiline_comment),
            hint_after_multiline_comment_text: copy_text(&self.hint_after_multiline_comment_text),
            hint_before_comment: copy_text(&self.hint_before_comment),
            hint_before_multiline_comment_text: copy_text(&self.hint_before_multiline_comment_text),
            hint_before_oneline_comment_text: copy_text(&self.hint_before_oneline_comment_text),
            hint_table_constructor: copy_text(&self.hint_table_constructor),
            remove_comments: self.remove_comments,
            remove_single_newlines: self.remove_single_newlines,
            remove_all_newlines: self.remove_all_newlines,
            remove_spaces_between_tokens: self.remove_spaces_between_tokens,
            write_newline_at_eof: self.write_newline_at_eof,
            write_newline_at_multiline_table: self.write_newline_at_multiline_table,
            write_newline_at_explist_multiline_table: self.write_newline_at_explist_multiline_table,
            indentation_string: copy_text(&self.indentation_string),
            indent_var_suffix: self.indent_var_suffix,
            indent_one_line_var_suffix: self.indent_one_line_var_suffix,
            indent_exp_list: self.indent_exp_list,
            indent_one_line_exp_list: self.indent_one_line_exp_list,
            newline_format_first_oneline_comment: self.newline_format_first_oneline_comment,
            newline_format_first_multiline_comment: self.newline_format_first_multiline_comment,
            newline_format_oneline_comment: self.newline_format_oneline_comment,
            newline_format_multiline_comment: self.newline_format_multiline_comment,
            newline_format_statement: self.newline_format_statement,
            newline_format_do_end: self.newline_format_do_end,
            newline_format_for: self.newline_format_for,
            newline_format_function: self.newline_format_function,
            newline_format_if: self.newline_format_if,
            newline_format_repeat_until: self.newline_format_repeat_until,
            newline_format_table_constructor: self.newline_format_table_constructor,
            newline_format_table_field: self.newline_format_table_field,
            newline_format_while: self.newline_format_while,
            newline_format_binary_op: self.newline_format_binary_op,
            newline_format_var_suffix: self.newline_format_var_suffix,
            newline_format_exp_list: self.newline_format_exp_list,
            newline_format_exp_list_first: self.newline_format_exp_list_first,
            field_separator: copy_text(&self.field_separator),
            write_trailing_field_separator: self.write_trailing_field_separator,
            convert_charstring_to_normalstring: self.convert_charstring_to_normalstring,
            max_width: self.max_width,
            force_single_line_binary_op: self.force_single_line_binary_op,
            force_single_line_table: self.force_single_line_table,
            force_single_line_iv_table_field: self.force_single_line_iv_table_field,
            force_single_line_kv_table_field: self.force_single_line_kv_table_field,
            force_single_line_if: self.force_single_line_if,
            force_single_line_top_level_function: self.force_single_line_top_level_function,
            force_single_line_scoped_function: self.force_single_line_scoped_function,
            force_single_line_var_suffix: self.force_single_line_var_suffix,
            force_single_line_exp_list: self.force_single_line_exp_list,
        }
    }
}

impl Config {
    /// A copy of the configuration.
    pub fn duplicate(&self) -> (res: Config)
        ensures
            res == *self,
    {
        Config { line_range: self.line_range, fmt: self.fmt.duplicate() }
    }
}

/// The text of a literal as a configuration file gives it to an option: a number or a
/// string as it is written between its delimiters, `true` or `false`.
pub open spec fn literal_value(n: Node) -> Option<Seq<char>> {
    match n {
        Node::Numeral(_, s) | Node::NormalStringLiteral(_, s) | Node::CharStringLiteral(_, s) => Some(s@),
        Node::True(_) => Some("true"@),
        Node::False(_) => Some("false"@),
        _ => None,
    }
}

/// The option name and value text that a statement of a configuration file assigns:
/// `name = literal`, where only the first name and the first expression count.
pub open spec fn option_assignment(stat: Node) -> Option<(Seq<char>, Seq<char>)> {
    match stat {
        Node::VarsExprs(_, _, varlist, exprlist) => match (*varlist, *exprlist) {
            (Node::VarList(_, vars), Node::ExpList(_, exprs)) => if vars@.len() > 0 && exprs@.len() > 0 {
                match (vars@[0].1, literal_value(exprs@[0].1)) {
                    (Node::Name(_, name), Some(v)) => Some((name@, v)),
                    _ => None,
                }
            } else {
                None
            },
            _ => None,
        },
        _ => None,
    }
}

/// Why `Config::set` refuses a name and a value text, if it does.
pub open spec fn assignment_error(name: Seq<char>, value: Seq<char>) -> Option<SetError> {
    match spec_option_name(name) {
        None => Some(SetError::InvalidOptionName),
        Some(o) => match spec_parse_option(option_kind(o), value) {
            None => Some(SetError::InvalidOptionValue),
            Some(_) => None,
        },
    }
}

/// The statement is `n = true` (where `b`) or `n = false` (where not `b`), as a configuration
/// file writes a switch.
pub open spec fn writes_switch(stat: Node, n: Seq<char>, b: bool) -> bool {
    match stat {
        Node::VarsExprs(_, _, varlist, exprlist) => match (*varlist, *exprlist) {
            (Node::VarList(_, vars), Node::ExpList(_, exprs)) => {
                &&& vars@.len() > 0
                &&& exprs@.len() > 0
                &&& vars@[0].1 matches Node::Name(_, s) && s@ == n
                &&& if b { exprs@[0].1 is True } else { exprs@[0].1 is False }
            },
            _ => false,
        },
        _ => false,
    }
}

/// A statement `n = true` or `n = false` of a configuration file, where `n` names a switch,
/// sets that switch to the truth value written, gives no warning, and leaves every other
/// option as it was.
pub proof fn lemma_switch_statement(stat: Node, n: Seq<char>, b: bool, o: OptionName, before: OptionValue)
    requires
        writes_switch(stat, n, b),
        spec_option_name(n) matches Some(o2) && option_kind(o2) == OptionKind::Bool,
    ensures
        spec_option_name(n) == Some(o) ==> value_after_statement(before, stat, o) == OptionValue::Bool(Some(b)),
        spec_option_name(n) != Some(o) ==> value_after_statement(before, stat, o) == before,
        statement_warning(stat) == Seq::<Seq<char>>::empty(),
{
    reveal_strlit("true");
    reveal_strlit("false");
    assert("true"@.len() != "false"@.len());
}

/// The statement is `n = v`, where `v` is a number, or a string in double or single quotes,
/// whose text is `s`.
pub open spec fn writes_literal(stat: Node, n: Seq<char>, s: Seq<char>) -> bool {
    match stat {
        Node::VarsExprs(_, _, varlist, exprlist) => match (*varlist, *exprlist) {
            (Node::VarList(_, vars), Node::ExpList(_, exprs)) => {
                &&& vars@.len() > 0
                &&& exprs@.len() > 0
                &&& vars@[0].1 matches Node::Name(_, name) && name@ == n
                &&& match exprs@[0].1 {
                    Node::Numeral(_, v) | Node::NormalStringLiteral(_, v) | Node::CharStringLiteral(_, v) => v@ == s,
                    _ => false,
                }
            },
            _ => false,
        },
        _ => false,
    }
}

/// A statement `n = v` of a configuration file, with `v` a number or a string, sets the
/// option named `n` as `Config::set` reads the text of `v`: a text option takes the text
/// itself; a value that the option refuses leaves it as it was. Every other option keeps
/// its value.
pub proof fn lemma_literal_statement(stat: Node, n: Seq<char>, s: Seq<char>, o: OptionName, before: OptionValue)
    requires
        writes_literal(stat, n, s),
    ensures
        spec_option_name(n) == Some(o) && option_kind(o) == OptionKind::Text
            ==> value_after_statement(before, stat, o) == OptionValue::Text(Some(s)),
        spec_option_name(n) == Some(o) ==> value_after_statement(before, stat, o) == match spec_parse_option(option_kind(o), s) {
            Some(v) => v,
            None => before,
        },
        spec_option_name(n) != Some(o) ==> value_after_statement(before, stat, o) == before,
{
}

/// The value of option `o` once a statement has been applied to a configuration where it
/// had the value `before`.
pub open spec fn value_after_statement(before: OptionValue, stat: Node, o: OptionName) -> OptionValue {
    match option_assignment(stat) {
        Some((name, value)) => match spec_option_name(name) {
            Some(o2) => if o2 == o {
                match spec_parse_option(option_kind(o), value) {
                    Some(v) => v,
                    None => before,
                }
            } else {
                before
            },
            None => before,
        },
        None => before,
    }
}

/// The value of option `o` once the statements have been applied in turn to `cfg`.
pub open spec fn value_after(cfg: Config, stats: Seq<Node>, o: OptionName) -> OptionValue
    decreases stats.len(),
{
    if stats.len() == 0 {
        option_value(cfg, o)
    } else {
        value_after_statement(value_after(cfg, stats.drop_last(), o), stats.last(), o)
    }
}

/// The warning that a statement gives, if `Config::set` refuses what it assigns.
pub open spec fn statement_warning(stat: Node) -> Seq<Seq<char>> {
    match option_assignment(stat) {
        Some((name, value)) => match assignment_error(name, value) {
            Some(e) => seq![set_warning(e, name, value)],
            None => Seq::empty(),
        },
        None => Seq::empty(),
    }
}

/// The warnings that the statements give, in order.
pub open spec fn warnings_after(stats: Seq<Node>) -> Seq<Seq<char>>
    decreases stats.len(),
{
    if stats.len() == 0 {
        Seq::empty()
    } else {
        warnings_after(stats.drop_last()) + statement_warning(stats.last())
    }
}

/// The texts of a list of strings.
pub open spec fn texts(v: Seq<String>) -> Seq<Seq<char>> {
    v.map_values(|s: String| s@)
}

/// The statements at the top of a chunk: those of its block, or its one statement.
pub open spec fn chunk_statements(tree: Node) -> Seq<Node> {
    let block = match tree {
        Node::Chunk(_, b, _) => Some(*b),
        Node::SheBangChunk(_, _, _, b, _) => Some(*b),
        _ => None,
    };
    match block {
        Some(Node::StatementList(_, stats)) => stats@.map_values(|x: (Loc, Node)| x.1),
        Some(stat) => seq![stat],
        None => Seq::empty(),
    }
}

fn literal_text(n: &Node) -> (res: Option<String>)
    ensures
        opt_text(res) == literal_value(*n),
{
    match n {
        Node::Numeral(_, s) | Node::NormalStringLiteral(_, s) | Node::CharStringLiteral(_, s) => Some(s.clone()),
        Node::True(_) => Some(String::from_str("true")),
        Node::False(_) => Some(String::from_str("false")),
        _ => None,
    }
}

/// A configuration `c` and warnings `w` that a configuration chunk read from `t` gives over
/// `base`: the tree stands where the text placed it, unless the text ends in a comment or
/// `#!` line that no line feed closes, and `c` and `w` are what applying its statements gives.
pub open spec fn chunk_read(base: Config, tree: Node, c: Config, w: Seq<String>, t: Seq<char>) -> bool {
    &&& !crate::parser::tiling::ends_unclosed(t) ==> crate::formatting::default_layout::placed(tree, t)
    &&& forall|o: OptionName| option_value(c, o) == value_after(base, chunk_statements(tree), o)
    &&& texts(w) == warnings_after(chunk_statements(tree))
}

impl Config {
    /// Applies an assignment statement of a configuration file, `name = literal`, as an
    /// option; what `set` refuses becomes a warning.
    pub fn load_option_statement(&mut self, stat: &Node, warnings: &mut Vec<String>)
        ensures
            forall|o: OptionName| option_value(*final(self), o) == value_after_statement(option_value(*old(self), o), *stat, o),
            texts(final(warnings)@) == texts(old(warnings)@) + statement_warning(*stat),
    {
        let ghost before = *self;
        if let Node::VarsExprs(_, _, varlist, exprlist) = stat {
            if let (Node::VarList(_, vars), Node::ExpList(_, exprs)) = (&**varlist, &**exprlist) {
                if vars.len() > 0 && exprs.len() > 0 {
                    if let Node::Name(_, name) = &vars[0].1 {
                        if let Some(value) = literal_text(&exprs[0].1) {
                            match self.set(name.as_str(), value.as_str()) {
                                Ok(()) => {
                                    assert(texts(warnings@) =~= texts(old(warnings)@) + statement_warning(*stat));
                                },
                                Err(e) => {
                                    let ghost w0 = warnings@;
                                    warnings.push(set_warning_text(e, name.as_str(), value.as_str()));
                                    assert(texts(warnings@) =~= texts(w0) + statement_warning(*stat));
                                },
                            }
                            return;
                        }
                    }
                }
            }
        }
        assert(texts(warnings@) =~= texts(old(warnings)@) + statement_warning(*stat));
    }

    /// Applies the assignments at the top of a parsed configuration file in turn, over a
    /// copy of this configuration; gives the new configuration and a warning for each
    /// option that was refused.
    pub fn apply_config_chunk(&self, tree: &Node) -> (res: (Config, Vec<String>))
        ensures
            forall|o: OptionName| option_value(res.0, o) == value_after(*self, chunk_statements(*tree), o),
            texts(res.1@) == warnings_after(chunk_statements(*tree)),
    {
        let mut cfg = self.duplicate();
        let mut warnings: Vec<String> = Vec::new();
        let ghost stats = chunk_statements(*tree);
        let block = match tree {
            Node::Chunk(_, b, _) => Some(&**b),
            Node::SheBangChunk(_, _, _, b, _) => Some(&**b),
            _ => None,
        };
        match block {
            Some(Node::StatementList(_, items)) => {
                let mut i: usize = 0;
                assert(stats.take(0) =~= Seq::<Node>::empty());
                assert(texts(warnings@) =~= Seq::<Seq<char>>::empty());
                while i < items.len()
                    invariant
                        i <= items@.len(),
                        stats == items@.map_values(|x: (Loc, Node)| x.1),
                        forall|o: OptionName| option_value(cfg, o) == value_after(*self, stats.take(i as int), o),
                        texts(warnings@) == warnings_after(stats.take(i as int)),
                    decreases items@.len() - i,
                {
                    let ghost prev = cfg;
                    cfg.load_option_statement(&items[i].1, &mut warnings);
                    proof {
                        assert(stats.take(i + 1).drop_last() =~= stats.take(i as int));
                        assert(stats.take(i + 1).last() == items@[i as int].1);
                    }
                    i = i + 1;
                }
                assert(stats.take(items@.len() as int) =~= stats);
            },
            Some(stat) => {
                assert(stats == seq![*stat]);
                assert(texts(warnings@) =~= Seq::<Seq<char>>::empty());
                let ghost before = cfg;
                cfg.load_option_statement(stat, &mut warnings);
                proof {
                    assert(stats.drop_last() =~= Seq::<Node>::empty());
                    assert(stats.last() == *stat);
                    assert(warnings_after(stats.drop_last()) =~= Seq::<Seq<char>>::empty());
                    assert(texts(warnings@) =~= warnings_after(stats));
                    assert forall|o: OptionName| option_value(cfg, o) == value_after(*self, stats, o) by {
                        assert(value_after(*self, stats.drop_last(), o) == option_value(*self, o));
                    }
                }
            },
            None => {
                assert(stats =~= Seq::<Node>::empty());
                assert(texts(warnings@) =~= Seq::<Seq<char>>::empty());
            },
        }
        (cfg, warnings)
    }

    /// Reads the options of a configuration file, a Lua chunk of assignments
    /// `option = literal` at its top level, over a copy of this configuration, as
    /// `apply_config_chunk` applies them. Gives the new configuration and a warning for each
    /// option that was refused, or the description of the parse error.
    pub fn reload_format_from_buffer(&self, content: &str) -> (res: Result<(Config, Vec<String>), String>)
        ensures
            content@.len() >= usize::MAX / 4 ==> (res matches Err(s) && s@ == "the text is too long"@),
            content@.len() < usize::MAX / 4 && crate::parser::lua_parser::lua_lex(content@, 0) is None
                ==> (res matches Err(s) && exists|e: crate::parser::lua_lexer::LexicalError|
                    s@ == #[trigger] crate::parser::lua_lexer::lexical_error_display(e)),
            res matches Ok((c, w)) ==> exists|tree: Node| #[trigger] chunk_read(*self, tree, c, w@, content@),
            res matches Err(s) ==> (content@.len() >= usize::MAX / 4 && s@ == "the text is too long"@)
                || (exists|e: ParseError<crate::parser::lua_lexer::Token, crate::parser::lua_lexer::LexicalError>|
                crate::parser::lua_parser::refused_of(content@, e) && s@ == #[trigger] crate::formatter::parse_error_text(e)),
            res is Ok <==> content@.len() < usize::MAX / 4 && crate::parser::grammar::lua_text_accepted(content@),
    {
        if content.unicode_len() >= usize::MAX / 4 {
            return Err(String::from_str("the text is too long"));
        }
        match crate::parser::parse_lua(content) {
            Ok(tree) => {
                let r = self.apply_config_chunk(&tree);
                proof {
                    assert(chunk_read(*self, tree, r.0, r.1@, content@));
                }
                Ok(r)
            },
            Err(err) => {
                let d = crate::formatter::describe_parse_error(&err);
                proof {
                    if let ParseError::User { error } = err {
                        assert(d@ == crate::parser::lua_lexer::lexical_error_display(error));
                    }
                    assert(crate::parser::lua_parser::refused_of(content@, err)
                        && d@ == crate::formatter::parse_error_text(err));
                }
                Err(d)
            },
        }
    }
}


/// How `str`'s `Debug` writes a text: in double quotes, with its special characters escaped.
pub uninterp spec fn debug_quoted(s: Seq<char>) -> Seq<char>;

/// `format!("{:?}", s)` on a text: the claim is that the result is `debug_quoted` of the
/// text, which depends on the text alone; what the escapes are is left unsaid.
#[verifier::external_body]
fn debug_str(s: &str) -> (res: String)
    ensures
        res@ == debug_quoted(s@),
{
    format!("{:?}", s)
}

/// The line that shows a set option with a flag value, or nothing where it is unset.
pub open spec fn shown_bool(name: Seq<char>, o: Option<bool>) -> Seq<char> {
    match o {
        Some(b) => "\t"@ + name + ": "@ + (if b { "true"@ } else { "false"@ }) + ",\n"@,
        None => Seq::empty(),
    }
}

/// The line that shows a set option with a number value, or nothing where it is unset.
pub open spec fn shown_usize(name: Seq<char>, o: Option<usize>) -> Seq<char> {
    match o {
        Some(v) => "\t"@ + name + ": "@ + decimal(v as nat) + ",\n"@,
        None => Seq::empty(),
    }
}

/// The line that shows a set option with a text value, or nothing where it is unset.
pub open spec fn shown_str(name: Seq<char>, o: Option<String>) -> Seq<char> {
    match o {
        Some(v) => "\t"@ + name + ": "@ + debug_quoted(v@) + ",\n"@,
        None => Seq::empty(),
    }
}

/// The line that shows the range of lines, or nothing where it is unset.
pub open spec fn shown_range(name: Seq<char>, o: Option<(usize, usize)>) -> Seq<char> {
    match o {
        Some((l, r)) => "\t"@ + name + ": ("@ + decimal(l as nat) + ", "@ + decimal(r as nat) + "),\n"@,
        None => Seq::empty(),
    }
}

/// How a configuration is shown: each option that is set, in its line, between braces.
pub open spec fn config_display(c: Config) -> Seq<char> {
    "{\n"@
        + shown_bool("replace_zero_spaces_with_hint"@, c.fmt.replace_zero_spaces_with_hint)
        + shown_str("hint_after_multiline_comment"@, c.fmt.hint_after_multiline_comment)
        + shown_str("hint_after_multiline_comment_text"@, c.fmt.hint_after_multiline_comment_text)
        + shown_str("hint_before_comment"@, c.fmt.hint_before_comment)
        + shown_str("hint_before_multiline_comment_text"@, c.fmt.hint_before_multiline_comment_text)
        + shown_str("hint_before_oneline_comment_text"@, c.fmt.hint_before_oneline_comment_text)
        + shown_str("hint_table_constructor"@, c.fmt.hint_table_constructor)
        + shown_bool("remove_comments"@, c.fmt.remove_comments)
        + shown_bool("remove_single_newlines"@, c.fmt.remove_single_newlines)
        + shown_bool("remove_all_newlines"@, c.fmt.remove_all_newlines)
        + shown_bool("remove_spaces_between_tokens"@, c.fmt.remove_spaces_between_tokens)
        + shown_bool("write_newline_at_eof"@, c.fmt.write_newline_at_eof)
        + shown_bool("write_newline_at_multiline_table"@, c.fmt.write_newline_at_multiline_table)
        + shown_bool("write_newline_at_explist_multiline_table"@, c.fmt.write_newline_at_explist_multiline_table)
        + shown_str("indentation_string"@, c.fmt.indentation_string)
        + shown_bool("indent_var_suffix"@, c.fmt.indent_var_suffix)
        + shown_bool("indent_one_line_var_suffix"@, c.fmt.indent_one_line_var_suffix)
        + shown_bool("indent_exp_list"@, c.fmt.indent_exp_list)
        + shown_bool("indent_one_line_exp_list"@, c.fmt.indent_one_line_exp_list)
        + shown_usize("newline_format_first_oneline_comment"@, c.fmt.newline_format_first_oneline_comment)
        + shown_usize("newline_format_first_multiline_comment"@, c.fmt.newline_format_first_multiline_comment)
        + shown_usize("newline_format_oneline_comment"@, c.fmt.newline_format_oneline_comment)
        + shown_usize("newline_format_multiline_comment"@, c.fmt.newline_format_multiline_comment)
        + shown_usize("newline_format_statement"@, c.fmt.newline_format_statement)
        + shown_usize("newline_format_do_end"@, c.fmt.newline_format_do_end)
        + shown_usize("newline_format_for"@, c.fmt.newline_format_for)
        + shown_usize("newline_format_function"@, c.fmt.newline_format_function)
        + shown_usize("newline_format_if"@, c.fmt.newline_format_if)
        + shown_usize("newline_format_repeat_until"@, c.fmt.newline_format_repeat_until)
        + shown_usize("newline_format_table_constructor"@, c.fmt.newline_format_table_constructor)
        + shown_usize("newline_format_table_field"@, c.fmt.newline_format_table_field)
        + shown_usize("newline_format_while"@, c.fmt.newline_format_while)
        + shown_usize("newline_format_binary_op"@, c.fmt.newline_format_binary_op)
        + shown_usize("newline_format_var_suffix"@, c.fmt.newline_format_var_suffix)
        + shown_usize("newline_format_exp_list"@, c.fmt.newline_format_exp_list)
        + shown_usize("newline_format_exp_list_first"@, c.fmt.newline_format_exp_list_first)
        + shown_str("field_separator"@, c.fmt.field_separator)
        + shown_bool("write_trailing_field_separator"@, c.fmt.write_trailing_field_separator)
        + shown_bool("convert_charstring_to_normalstring"@, c.fmt.convert_charstring_to_normalstring)
        + shown_usize("max_width"@, c.fmt.max_width)
        + shown_bool("force_single_line_binary_op"@, c.fmt.force_single_line_binary_op)
        + shown_bool("force_single_line_table"@, c.fmt.force_single_line_table)
        + shown_bool("force_single_line_iv_table_field"@, c.fmt.force_single_line_iv_table_field)
        + shown_bool("force_single_line_kv_table_field"@, c.fmt.force_single_line_kv_table_field)
        + shown_bool("force_single_line_if"@, c.fmt.force_single_line_if)
        + shown_bool("force_single_line_top_level_function"@, c.fmt.force_single_line_top_level_function)
        + shown_bool("force_single_line_scoped_function"@, c.fmt.force_single_line_scoped_function)
        + shown_bool("force_single_line_var_suffix"@, c.fmt.force_single_line_var_suffix)
        + shown_bool("force_single_line_exp_list"@, c.fmt.force_single_line_exp_list)
        + shown_range("line_range"@, c.line_range)
        + "}"@
}

fn push_shown_bool(out: &mut String, name: &str, o: Option<bool>)
    ensures
        final(out)@ == old(out)@ + shown_bool(name@, o),
{
    if let Some(b) = o {
        out.append("\t");
        out.append(name);
        out.append(": ");
        out.append(if b { "true" } else { "false" });
        out.append(",\n");
    } else {
        assert(old(out)@ + shown_bool(name@, o) =~= old(out)@);
    }
}

fn push_shown_usize(out: &mut String, name: &str, o: Option<usize>)
    ensures
        final(out)@ == old(out)@ + shown_usize(name@, o),
{
    if let Some(v) = o {
        out.append("\t");
        out.append(name);
        out.append(": ");
        push_decimal(out, v);
        out.append(",\n");
    } else {
        assert(old(out)@ + shown_usize(name@, o) =~= old(out)@);
    }
}

fn push_shown_str(out: &mut String, name: &str, o: &Option<String>)
    ensures
        final(out)@ == old(out)@ + shown_str(name@, *o),
{
    if let Some(v) = o {
        out.append("\t");
        out.append(name);
        out.append(": ");
        let q = debug_str(v.as_str());
        out.append(q.as_str());
        out.append(",\n");
    } else {
        assert(old(out)@ + shown_str(name@, *o) =~= old(out)@);
    }
}

fn push_shown_range(out: &mut String, name: &str, o: Option<(usize, usize)>)
    ensures
        final(out)@ == old(out)@ + shown_range(name@, o),
{
    if let Some((l, r)) = o {
        out.append("\t");
        out.append(name);
        out.append(": (");
        push_decimal(out, l);
        out.append(", ");
        push_decimal(out, r);
        out.append("),\n");
    } else {
        assert(old(out)@ + shown_range(name@, o) =~= old(out)@);
    }
}

impl Config {
    /// The configuration as messages show it: each option that is set, in its line, between
    /// braces.
    pub fn display_text(&self) -> (res: String)
        ensures
            res@ == config_display(*self),
    {
        let mut out = String::from_str("{\n");
        push_shown_bool(&mut out, "replace_zero_spaces_with_hint", self.fmt.replace_zero_spaces_with_hint);
        push_shown_str(&mut out, "hint_after_multiline_comment", &self.fmt.hint_after_multiline_comment);
        push_shown_str(&mut out, "hint_after_multiline_comment_text", &self.fmt.hint_after_multiline_comment_text);
        push_shown_str(&mut out, "hint_before_comment", &self.fmt.hint_before_comment);
        push_shown_str(&mut out, "hint_before_multiline_comment_text", &self.fmt.hint_before_multiline_comment_text);
        push_shown_str(&mut out, "hint_before_oneline_comment_text", &self.fmt.hint_before_oneline_comment_text);
        push_shown_str(&mut out, "hint_table_constructor", &self.fmt.hint_table_constructor);
        push_shown_bool(&mut out, "remove_comments", self.fmt.remove_comments);
        push_shown_bool(&mut out, "remove_single_newlines", self.fmt.remove_single_newlines);
        push_shown_bool(&mut out, "remove_all_newlines", self.fmt.remove_all_newlines);
        push_shown_bool(&mut out, "remove_spaces_between_tokens", self.fmt.remove_spaces_between_tokens);
        push_shown_bool(&mut out, "write_newline_at_eof", self.fmt.write_newline_at_eof);
        push_shown_bool(&mut out, "write_newline_at_multiline_table", self.fmt.write_newline_at_multiline_table);
        push_shown_bool(&mut out, "write_newline_at_explist_multiline_table", self.fmt.write_newline_at_explist_multiline_table);
        push_shown_str(&mut out, "indentation_string", &self.fmt.indentation_string);
        push_shown_bool(&mut out, "indent_var_suffix", self.fmt.indent_var_suffix);
        push_shown_bool(&mut out, "indent_one_line_var_suffix", self.fmt.indent_one_line_var_suffix);
        push_shown_bool(&mut out, "indent_exp_list", self.fmt.indent_exp_list);
        push_shown_bool(&mut out, "indent_one_line_exp_list", self.fmt.indent_one_line_exp_list);
        push_shown_usize(&mut out, "newline_format_first_oneline_comment", self.fmt.newline_format_first_oneline_comment);
        push_shown_usize(&mut out, "newline_format_first_multiline_comment", self.fmt.newline_format_first_multiline_comment);
        push_shown_usize(&mut out, "newline_format_oneline_comment", self.fmt.newline_format_oneline_comment);
        push_shown_usize(&mut out, "newline_format_multiline_comment", self.fmt.newline_format_multiline_comment);
        push_shown_usize(&mut out, "newline_format_statement", self.fmt.newline_format_statement);
        push_shown_usize(&mut out, "newline_format_do_end", self.fmt.newline_format_do_end);
        push_shown_usize(&mut out, "newline_format_for", self.fmt.newline_format_for);
        push_shown_usize(&mut out, "newline_format_function", self.fmt.newline_format_function);
        push_shown_usize(&mut out, "newline_format_if", self.fmt.newline_format_if);
        push_shown_usize(&mut out, "newline_format_repeat_until", self.fmt.newline_format_repeat_until);
        push_shown_usize(&mut out, "newline_format_table_constructor", self.fmt.newline_format_table_constructor);
        push_shown_usize(&mut out, "newline_format_table_field", self.fmt.newline_format_table_field);
        push_shown_usize(&mut out, "newline_format_while", self.fmt.newline_format_while);
        push_shown_usize(&mut out, "newline_format_binary_op", self.fmt.newline_format_binary_op);
        push_shown_usize(&mut out, "newline_format_var_suffix", self.fmt.newline_format_var_suffix);
        push_shown_usize(&mut out, "newline_format_exp_list", self.fmt.newline_format_exp_list);
        push_shown_usize(&mut out, "newline_format_exp_list_first", self.fmt.newline_format_exp_list_first);
        push_shown_str(&mut out, "field_separator", &self.fmt.field_separator);
        push_shown_bool(&mut out, "write_trailing_field_separator", self.fmt.write_trailing_field_separator);
        push_shown_bool(&mut out, "convert_charstring_to_normalstring", self.fmt.convert_charstring_to_normalstring);
        push_shown_usize(&mut out, "max_width", self.fmt.max_width);
        push_shown_bool(&mut out, "force_single_line_binary_op", self.fmt.force_single_line_binary_op);
        push_shown_bool(&mut out, "force_single_line_table", self.fmt.force_single_line_table);
        push_shown_bool(&mut out, "force_single_line_iv_table_field", self.fmt.force_single_line_iv_table_field);
        push_shown_bool(&mut out, "force_single_line_kv_table_field", self.fmt.force_single_line_kv_table_field);
        push_shown_bool(&mut out, "force_single_line_if", self.fmt.force_single_line_if);
        push_shown_bool(&mut out, "force_single_line_top_level_function", self.fmt.force_single_line_top_level_function);
        push_shown_bool(&mut out, "force_single_line_scoped_function", self.fmt.force_single_line_scoped_function);
        push_shown_bool(&mut out, "force_single_line_var_suffix", self.fmt.force_single_line_var_suffix);
        push_shown_bool(&mut out, "force_single_line_exp_list", self.fmt.force_single_line_exp_list);
        push_shown_range(&mut out, "line_range", self.line_range);
        out.append("}");
        out
    }
}

} // verus!
