use vstd::prelude::*;

use super::decoration::{dec_removes_level, lemma_inc_then_dec_restores, DecFuncLevel, DecIndent, IncFuncLevel, IncIndent};
use vstd::utf8::encode_utf8;

use super::loc_hint::{
    comment_block, ends_line, ends_with_char, equals_signs, gap_output, indentation, opt_str, write_comment_gap,
    write_comment_gap_at, CommentLocHint,
};
use super::util::{
    get_len_after_newline, get_len_till_newline, has_newlines, len_after_newline, len_till_newline, spec_has_newlines, spec_out_of_range, test_out_of_range, trim_end_spaces_and_tabs,
    trimmed_len,
    write_indent,
};
use crate::config::{opt_text, Config, ConfiguredWrite, FormatOpts, State};
use crate::parser::common::{loc_text, Loc};
use crate::parser::lua_ast::{FieldsOpts, Node};
use super::default_layout::{
    cursor, gap_at, item_laid, kw_at, lemma_gap_kept, lemma_gap_text, lemma_list_placed, lemma_nodes_placed,
    lemma_placed_span, lemma_sep_list_placed, lemma_sep_nodes_placed, lemma_span_text, lemma_track, lemma_tracks_start,
    lemma_tracks_text, lemma_tracks_trans, list_items, node_loc, placed, sep_item_laid, sep_list_end, sep_list_parts,
    sep_text, text_span, tracks,
};
use super::kept_comments::lemma_equals_len;

verus! {

/// Removes the last character of the string (`String::pop`); the contract claims that the
/// text loses its last character, and that an empty text stays empty.
#[verifier::external_body]
fn pop_char(s: &mut String)
    ensures
        old(s)@.len() > 0 ==> final(s)@ == old(s)@.drop_last(),
        old(s)@.len() == 0 ==> final(s)@ == old(s)@,
{
    s.pop();
}

/// Writes the text of a span as it stands in the source.
pub fn write_raw(f: &mut String, buf: &str, loc: &Loc)
    ensures
        final(f)@ == old(f)@ + loc_text(buf@, *loc),
{
    f.append(loc.substr(buf));
}

/// The span of a node.
pub fn node_span(n: &Node) -> (res: Loc)
    ensures
        res == node_loc(*n),
{
    match n {
        Node::BinaryOp(s, ..) | Node::UnaryOp(s, ..) | Node::UnaryNot(s, ..) | Node::Var(s, ..)
        | Node::RoundBrackets(s, ..) | Node::ArgsRoundBrackets(s, ..) | Node::ArgsRoundBracketsEmpty(s, ..)
        | Node::Nil(s) | Node::False(s) | Node::True(s) | Node::VarArg(s) | Node::Break(s)
        | Node::Numeral(s, ..) | Node::NormalStringLiteral(s, ..) | Node::CharStringLiteral(s, ..)
        | Node::MultiLineStringLiteral(s, ..) | Node::TableConstructor(s, ..) | Node::TableConstructorEmpty(s, ..)
        | Node::Fields(s, ..) | Node::FieldNamedBracket(s, ..) | Node::FieldNamed(s, ..)
        | Node::FieldSequential(s, ..) | Node::TableIndex(s, ..) | Node::TableMember(s, ..)
        | Node::ExpList(s, ..) | Node::NameList(s, ..) | Node::ParList(s, ..) | Node::VarList(s, ..)
        | Node::VarRoundSuffix(s, ..) | Node::VarSuffixList(s, ..) | Node::FnMethodCall(s, ..)
        | Node::FunctionDef(s, ..) | Node::FuncBody(s, ..) | Node::FuncBodyB(s, ..) | Node::FuncPBody(s, ..)
        | Node::FuncPBodyB(s, ..) | Node::FuncName(s, ..) | Node::FuncNameSelf(s, ..) | Node::FuncDecl(s, ..)
        | Node::LocalFuncDecl(s, ..) | Node::StatementList(s, ..) | Node::DoEnd(s, ..) | Node::DoBEnd(s, ..)
        | Node::VarsExprs(s, ..) | Node::Name(s, ..) | Node::Label(s, ..) | Node::GoTo(s, ..)
        | Node::WhileDo(s, ..) | Node::WhileDoB(s, ..) | Node::RepeatUntil(s, ..) | Node::RepeatBUntil(s, ..)
        | Node::ForInt(s, ..) | Node::ForIntB(s, ..) | Node::ForIntStep(s, ..) | Node::ForIntStepB(s, ..)
        | Node::ForRange(s, ..) | Node::ForRangeB(s, ..) | Node::LocalNames(s, ..) | Node::LocalNamesExprs(s, ..)
        | Node::IfThen(s, ..) | Node::IfThenB(s, ..) | Node::IfThenElse(s, ..) | Node::IfThenBElse(s, ..)
        | Node::IfThenElseB(s, ..) | Node::IfThenBElseB(s, ..) | Node::IfThenElseIf(s, ..)
        | Node::IfThenBElseIf(s, ..) | Node::IfThenElseIfElse(s, ..) | Node::IfThenBElseIfElse(s, ..)
        | Node::IfThenElseIfElseB(s, ..) | Node::IfThenBElseIfElseB(s, ..) | Node::ElseIfThenVec(s, ..)
        | Node::ElseIfThen(s, ..) | Node::ElseIfThenB(s, ..) | Node::RetStatNone(s) | Node::RetStatExpr(s, ..)
        | Node::RetStatNoneComma(s, ..) | Node::RetStatExprComma(s, ..) | Node::StatsRetStat(s, ..)
        | Node::Chunk(s, ..) | Node::SheBangChunk(s, ..) | Node::Semicolon(s) | Node::SheBang(s, ..) => *s,
    }
}

/// The flag of the last entry for `start`, or `false` where there is none.
pub open spec fn last_indent_mark(marks: Seq<(usize, bool)>, start: usize) -> bool
    decreases marks.len(),
{
    if marks.len() == 0 {
        false
    } else if marks.last().0 == start {
        marks.last().1
    } else {
        last_indent_mark(marks.drop_last(), start)
    }
}

/// Whether the table constructor starting at `start` was written on one line.
fn is_oneline_table(state: &State, start: usize) -> (res: bool)
    ensures
        res == state.oneline_tables@.contains(start),
{
    let mut i: usize = 0;
    while i < state.oneline_tables.len()
        invariant
            i <= state.oneline_tables@.len(),
            forall|j: int| 0 <= j < i ==> state.oneline_tables@[j] != start,
        decreases state.oneline_tables@.len() - i,
    {
        if state.oneline_tables[i] == start {
            return true;
        }
        i = i + 1;
    }
    false
}

/// Whether the fields starting at `start` were last written indented.
fn fields_has_indent(state: &State, start: usize) -> (res: bool)
    ensures
        res == last_indent_mark(state.indented_fields@, start),
{
    let mut res = false;
    let mut i: usize = 0;
    while i < state.indented_fields.len()
        invariant
            i <= state.indented_fields@.len(),
            res == last_indent_mark(state.indented_fields@.take(i as int), start),
        decreases state.indented_fields@.len() - i,
    {
        assert(state.indented_fields@.take(i + 1).drop_last() =~= state.indented_fields@.take(i as int));
        if state.indented_fields[i].0 == start {
            res = state.indented_fields[i].1;
        }
        i = i + 1;
    }
    assert(state.indented_fields@.take(i as int) =~= state.indented_fields@);
    res
}

/// What writing keeps of the state: the indentation level, the stack of scope markers,
/// the nesting of functions and blocks, and the range of positions to format.
pub open spec fn keeps_scope(before: State, after: State) -> bool {
    &&& after.indent_level == before.indent_level
    &&& after.stack_indent@ =~= before.stack_indent@
    &&& after.function_nested_level == before.function_nested_level
    &&& after.block_nested_level == before.block_nested_level
    &&& after.pos_range == before.pos_range
}

/// The larger of two numbers.
pub open spec fn max_nat(a: nat, b: nat) -> nat {
    if a < b { b } else { a }
}

/// How deeply the tree nests: a node without children is at depth 0, and a node lies one
/// deeper than its deepest child.
pub open spec fn node_depth(n: Node) -> nat
    decreases n, 0int,
{
    match n {
        Node::Fields(_, items, _) | Node::ExpList(_, items) | Node::NameList(_, items) | Node::ParList(_, items)
        | Node::VarList(_, items) | Node::FuncName(_, items) => 1 + sep_items_depth(items@, 0),
        Node::FuncNameSelf(_, _, items, a) => 1 + max_nat(sep_items_depth(items@, 0), node_depth(*a)),
        Node::StatementList(_, items) | Node::VarSuffixList(_, items) | Node::ElseIfThenVec(_, items) => 1 + pairs_depth(items@, 0),
        Node::UnaryNot(_, _, a) | Node::RoundBrackets(_, _, a) | Node::ArgsRoundBrackets(_, _, a) | Node::TableIndex(_, _, a)
        | Node::TableMember(_, _, a) | Node::FunctionDef(_, _, a) | Node::FuncBodyB(_, _, a) | Node::FuncPBody(_, _, a)
        | Node::DoBEnd(_, _, a) | Node::Label(_, _, a) | Node::GoTo(_, _, a) | Node::WhileDo(_, _, a)
        | Node::RepeatUntil(_, _, a) | Node::LocalNames(_, _, a) | Node::IfThen(_, _, a) | Node::IfThenElse(_, _, a)
        | Node::ElseIfThen(_, _, a) | Node::RetStatExpr(_, _, a) | Node::RetStatExprComma(_, _, a)
        | Node::UnaryOp(_, _, _, a) | Node::TableConstructor(_, _, a, _) | Node::FieldSequential(_, a)
        | Node::Chunk(_, a, _) => 1 + node_depth(*a),
        Node::Var(_, _, a, b) | Node::FieldNamedBracket(_, _, a, b) | Node::FieldNamed(_, _, a, b)
        | Node::VarRoundSuffix(_, _, a, b) | Node::FnMethodCall(_, _, a, b) | Node::FuncPBodyB(_, _, a, b)
        | Node::FuncDecl(_, _, a, b) | Node::LocalFuncDecl(_, _, a, b) | Node::VarsExprs(_, _, a, b)
        | Node::WhileDoB(_, _, a, b) | Node::RepeatBUntil(_, _, a, b) | Node::ForRange(_, _, a, b)
        | Node::LocalNamesExprs(_, _, a, b) | Node::IfThenB(_, _, a, b) | Node::IfThenBElse(_, _, a, b)
        | Node::IfThenElseB(_, _, a, b) | Node::IfThenElseIf(_, _, a, b) | Node::IfThenElseIfElse(_, _, a, b)
        | Node::ElseIfThenB(_, _, a, b) | Node::StatsRetStat(_, _, a, b) | Node::BinaryOp(_, _, _, a, b)
        | Node::SheBangChunk(_, a, _, b, _) => 1 + max_nat(node_depth(*a), node_depth(*b)),
        Node::ForInt(_, _, a, b, c) | Node::ForRangeB(_, _, a, b, c) | Node::IfThenBElseB(_, _, a, b, c)
        | Node::IfThenBElseIf(_, _, a, b, c) | Node::IfThenBElseIfElse(_, _, a, b, c)
        | Node::IfThenElseIfElseB(_, _, a, b, c) => 1 + max_nat(node_depth(*a), max_nat(node_depth(*b), node_depth(*c))),
        Node::ForIntB(_, _, a, b, c, d) | Node::ForIntStep(_, _, a, b, c, d) | Node::IfThenBElseIfElseB(_, _, a, b, c, d) =>
            1 + max_nat(max_nat(node_depth(*a), node_depth(*b)), max_nat(node_depth(*c), node_depth(*d))),
        Node::ForIntStepB(_, _, a, b, c, d, e) => 1 + max_nat(
            max_nat(node_depth(*a), node_depth(*b)),
            max_nat(node_depth(*c), max_nat(node_depth(*d), node_depth(*e))),
        ),
        _ => 0,
    }
}

/// The depth of the deepest node of the items of a list with separators, from the `k`-th on.
pub open spec fn sep_items_depth(s: Seq<(Loc, Node, Loc, String)>, k: int) -> nat
    decreases s, s.len() - k,
{
    if k < 0 || k >= s.len() {
        0
    } else {
        max_nat(node_depth(s[k].1), sep_items_depth(s, k + 1))
    }
}

/// The depth of the deepest node of the items of a list without separators, from the `k`-th on.
pub open spec fn pairs_depth(s: Seq<(Loc, Node)>, k: int) -> nat
    decreases s, s.len() - k,
{
    if k < 0 || k >= s.len() {
        0
    } else {
        max_nat(node_depth(s[k].1), pairs_depth(s, k + 1))
    }
}

proof fn lemma_sep_items_depth(s: Seq<(Loc, Node, Loc, String)>, k: int)
    requires
        0 <= k,
    ensures
        forall|j: int| k <= j < s.len() ==> node_depth(#[trigger] s[j].1) <= sep_items_depth(s, k),
    decreases s.len() - k,
{
    if k < s.len() {
        lemma_sep_items_depth(s, k + 1);
    }
}

proof fn lemma_pairs_depth(s: Seq<(Loc, Node)>, k: int)
    requires
        0 <= k,
    ensures
        forall|j: int| k <= j < s.len() ==> node_depth(#[trigger] s[j].1) <= pairs_depth(s, k),
    decreases s.len() - k,
{
    if k < s.len() {
        lemma_pairs_depth(s, k + 1);
    }
}

/// Whether the indentation and function levels of `s` leave room for the nesting of `n`:
/// writing it never takes either past its largest value.
pub open spec fn level_room(s: State, n: Node) -> bool {
    &&& s.indent_level + node_depth(n) < isize::MAX
    &&& s.function_nested_level + node_depth(n) < isize::MAX
}

/// Whether the tree nests no deeper than `limit` (as `node_depth` counts).
pub fn depth_at_most(n: &Node, limit: usize) -> (res: bool)
    ensures
        res == (node_depth(*n) <= limit),
    decreases n, 1nat,
{
    if limit == 0 {
        return match n {
            Node::BinaryOp(_, _, _, a3, a4) => false,
            Node::UnaryOp(_, _, _, a3) => false,
            Node::UnaryNot(_, _, a2) => false,
            Node::Var(_, _, a2, a3) => false,
            Node::RoundBrackets(_, _, a2) => false,
            Node::ArgsRoundBrackets(_, _, a2) => false,
            Node::TableConstructor(_, _, a2, _) => false,
            Node::Fields(_, a1, _) => false,
            Node::FieldNamedBracket(_, _, a2, a3) => false,
            Node::FieldNamed(_, _, a2, a3) => false,
            Node::FieldSequential(_, a1) => false,
            Node::TableIndex(_, _, a2) => false,
            Node::TableMember(_, _, a2) => false,
            Node::ExpList(_, a1) => false,
            Node::NameList(_, a1) => false,
            Node::ParList(_, a1) => false,
            Node::VarList(_, a1) => false,
            Node::VarRoundSuffix(_, _, a2, a3) => false,
            Node::VarSuffixList(_, a1) => false,
            Node::FnMethodCall(_, _, a2, a3) => false,
            Node::FunctionDef(_, _, a2) => false,
            Node::FuncBodyB(_, _, a2) => false,
            Node::FuncPBody(_, _, a2) => false,
            Node::FuncPBodyB(_, _, a2, a3) => false,
            Node::FuncName(_, a1) => false,
            Node::FuncNameSelf(_, _, a2, a3) => false,
            Node::FuncDecl(_, _, a2, a3) => false,
            Node::LocalFuncDecl(_, _, a2, a3) => false,
            Node::StatementList(_, a1) => false,
            Node::DoBEnd(_, _, a2) => false,
            Node::VarsExprs(_, _, a2, a3) => false,
            Node::Label(_, _, a2) => false,
            Node::GoTo(_, _, a2) => false,
            Node::WhileDo(_, _, a2) => false,
            Node::WhileDoB(_, _, a2, a3) => false,
            Node::RepeatUntil(_, _, a2) => false,
            Node::RepeatBUntil(_, _, a2, a3) => false,
            Node::ForInt(_, _, a2, a3, a4) => false,
            Node::ForIntB(_, _, a2, a3, a4, a5) => false,
            Node::ForIntStep(_, _, a2, a3, a4, a5) => false,
            Node::ForIntStepB(_, _, a2, a3, a4, a5, a6) => false,
            Node::ForRange(_, _, a2, a3) => false,
            Node::ForRangeB(_, _, a2, a3, a4) => false,
            Node::LocalNames(_, _, a2) => false,
            Node::LocalNamesExprs(_, _, a2, a3) => false,
            Node::IfThen(_, _, a2) => false,
            Node::IfThenB(_, _, a2, a3) => false,
            Node::IfThenElse(_, _, a2) => false,
            Node::IfThenBElse(_, _, a2, a3) => false,
            Node::IfThenElseB(_, _, a2, a3) => false,
            Node::IfThenBElseB(_, _, a2, a3, a4) => false,
            Node::IfThenElseIf(_, _, a2, a3) => false,
            Node::IfThenBElseIf(_, _, a2, a3, a4) => false,
            Node::IfThenElseIfElse(_, _, a2, a3) => false,
            Node::IfThenBElseIfElse(_, _, a2, a3, a4) => false,
            Node::IfThenElseIfElseB(_, _, a2, a3, a4) => false,
            Node::IfThenBElseIfElseB(_, _, a2, a3, a4, a5) => false,
            Node::ElseIfThenVec(_, a1) => false,
            Node::ElseIfThen(_, _, a2) => false,
            Node::ElseIfThenB(_, _, a2, a3) => false,
            Node::RetStatExpr(_, _, a2) => false,
            Node::RetStatExprComma(_, _, a2) => false,
            Node::StatsRetStat(_, _, a2, a3) => false,
            Node::Chunk(_, a1, _) => false,
            Node::SheBangChunk(_, a1, _, a3, _) => false,
            _ => true,
        };
    }
    match n {
        Node::BinaryOp(_, _, _, a3, a4) => depth_at_most(&**a3, limit - 1) && depth_at_most(&**a4, limit - 1),
        Node::UnaryOp(_, _, _, a3) => depth_at_most(&**a3, limit - 1),
        Node::UnaryNot(_, _, a2) => depth_at_most(&**a2, limit - 1),
        Node::Var(_, _, a2, a3) => depth_at_most(&**a2, limit - 1) && depth_at_most(&**a3, limit - 1),
        Node::RoundBrackets(_, _, a2) => depth_at_most(&**a2, limit - 1),
        Node::ArgsRoundBrackets(_, _, a2) => depth_at_most(&**a2, limit - 1),
        Node::TableConstructor(_, _, a2, _) => depth_at_most(&**a2, limit - 1),
        Node::Fields(_, a1, _) => items_depth_at_most(a1, limit - 1),
        Node::FieldNamedBracket(_, _, a2, a3) => depth_at_most(&**a2, limit - 1) && depth_at_most(&**a3, limit - 1),
        Node::FieldNamed(_, _, a2, a3) => depth_at_most(&**a2, limit - 1) && depth_at_most(&**a3, limit - 1),
        Node::FieldSequential(_, a1) => depth_at_most(&**a1, limit - 1),
        Node::TableIndex(_, _, a2) => depth_at_most(&**a2, limit - 1),
        Node::TableMember(_, _, a2) => depth_at_most(&**a2, limit - 1),
        Node::ExpList(_, a1) => items_depth_at_most(a1, limit - 1),
        Node::NameList(_, a1) => items_depth_at_most(a1, limit - 1),
        Node::ParList(_, a1) => items_depth_at_most(a1, limit - 1),
        Node::VarList(_, a1) => items_depth_at_most(a1, limit - 1),
        Node::VarRoundSuffix(_, _, a2, a3) => depth_at_most(&**a2, limit - 1) && depth_at_most(&**a3, limit - 1),
        Node::VarSuffixList(_, a1) => pairs_depth_at_most(a1, limit - 1),
        Node::FnMethodCall(_, _, a2, a3) => depth_at_most(&**a2, limit - 1) && depth_at_most(&**a3, limit - 1),
        Node::FunctionDef(_, _, a2) => depth_at_most(&**a2, limit - 1),
        Node::FuncBodyB(_, _, a2) => depth_at_most(&**a2, limit - 1),
        Node::FuncPBody(_, _, a2) => depth_at_most(&**a2, limit - 1),
        Node::FuncPBodyB(_, _, a2, a3) => depth_at_most(&**a2, limit - 1) && depth_at_most(&**a3, limit - 1),
        Node::FuncName(_, a1) => items_depth_at_most(a1, limit - 1),
        Node::FuncNameSelf(_, _, a2, a3) => items_depth_at_most(a2, limit - 1) && depth_at_most(&**a3, limit - 1),
        Node::FuncDecl(_, _, a2, a3) => depth_at_most(&**a2, limit - 1) && depth_at_most(&**a3, limit - 1),
        Node::LocalFuncDecl(_, _, a2, a3) => depth_at_most(&**a2, limit - 1) && depth_at_most(&**a3, limit - 1),
        Node::StatementList(_, a1) => pairs_depth_at_most(a1, limit - 1),
        Node::DoBEnd(_, _, a2) => depth_at_most(&**a2, limit - 1),
        Node::VarsExprs(_, _, a2, a3) => depth_at_most(&**a2, limit - 1) && depth_at_most(&**a3, limit - 1),
        Node::Label(_, _, a2) => depth_at_most(&**a2, limit - 1),
        Node::GoTo(_, _, a2) => depth_at_most(&**a2, limit - 1),
        Node::WhileDo(_, _, a2) => depth_at_most(&**a2, limit - 1),
        Node::WhileDoB(_, _, a2, a3) => depth_at_most(&**a2, limit - 1) && depth_at_most(&**a3, limit - 1),
        Node::RepeatUntil(_, _, a2) => depth_at_most(&**a2, limit - 1),
        Node::RepeatBUntil(_, _, a2, a3) => depth_at_most(&**a2, limit - 1) && depth_at_most(&**a3, limit - 1),
        Node::ForInt(_, _, a2, a3, a4) => depth_at_most(&**a2, limit - 1) && depth_at_most(&**a3, limit - 1) && depth_at_most(&**a4, limit - 1),
        Node::ForIntB(_, _, a2, a3, a4, a5) => depth_at_most(&**a2, limit - 1) && depth_at_most(&**a3, limit - 1) && depth_at_most(&**a4, limit - 1) && depth_at_most(&**a5, limit - 1),
        Node::ForIntStep(_, _, a2, a3, a4, a5) => depth_at_most(&**a2, limit - 1) && depth_at_most(&**a3, limit - 1) && depth_at_most(&**a4, limit - 1) && depth_at_most(&**a5, limit - 1),
        Node::ForIntStepB(_, _, a2, a3, a4, a5, a6) => depth_at_most(&**a2, limit - 1) && depth_at_most(&**a3, limit - 1) && depth_at_most(&**a4, limit - 1) && depth_at_most(&**a5, limit - 1) && depth_at_most(&**a6, limit - 1),
        Node::ForRange(_, _, a2, a3) => depth_at_most(&**a2, limit - 1) && depth_at_most(&**a3, limit - 1),
        Node::ForRangeB(_, _, a2, a3, a4) => depth_at_most(&**a2, limit - 1) && depth_at_most(&**a3, limit - 1) && depth_at_most(&**a4, limit - 1),
        Node::LocalNames(_, _, a2) => depth_at_most(&**a2, limit - 1),
        Node::LocalNamesExprs(_, _, a2, a3) => depth_at_most(&**a2, limit - 1) && depth_at_most(&**a3, limit - 1),
        Node::IfThen(_, _, a2) => depth_at_most(&**a2, limit - 1),
        Node::IfThenB(_, _, a2, a3) => depth_at_most(&**a2, limit - 1) && depth_at_most(&**a3, limit - 1),
        Node::IfThenElse(_, _, a2) => depth_at_most(&**a2, limit - 1),
        Node::IfThenBElse(_, _, a2, a3) => depth_at_most(&**a2, limit - 1) && depth_at_most(&**a3, limit - 1),
        Node::IfThenElseB(_, _, a2, a3) => depth_at_most(&**a2, limit - 1) && depth_at_most(&**a3, limit - 1),
        Node::IfThenBElseB(_, _, a2, a3, a4) => depth_at_most(&**a2, limit - 1) && depth_at_most(&**a3, limit - 1) && depth_at_most(&**a4, limit - 1),
        Node::IfThenElseIf(_, _, a2, a3) => depth_at_most(&**a2, limit - 1) && depth_at_most(&**a3, limit - 1),
        Node::IfThenBElseIf(_, _, a2, a3, a4) => depth_at_most(&**a2, limit - 1) && depth_at_most(&**a3, limit - 1) && depth_at_most(&**a4, limit - 1),
        Node::IfThenElseIfElse(_, _, a2, a3) => depth_at_most(&**a2, limit - 1) && depth_at_most(&**a3, limit - 1),
        Node::IfThenBElseIfElse(_, _, a2, a3, a4) => depth_at_most(&**a2, limit - 1) && depth_at_most(&**a3, limit - 1) && depth_at_most(&**a4, limit - 1),
        Node::IfThenElseIfElseB(_, _, a2, a3, a4) => depth_at_most(&**a2, limit - 1) && depth_at_most(&**a3, limit - 1) && depth_at_most(&**a4, limit - 1),
        Node::IfThenBElseIfElseB(_, _, a2, a3, a4, a5) => depth_at_most(&**a2, limit - 1) && depth_at_most(&**a3, limit - 1) && depth_at_most(&**a4, limit - 1) && depth_at_most(&**a5, limit - 1),
        Node::ElseIfThenVec(_, a1) => pairs_depth_at_most(a1, limit - 1),
        Node::ElseIfThen(_, _, a2) => depth_at_most(&**a2, limit - 1),
        Node::ElseIfThenB(_, _, a2, a3) => depth_at_most(&**a2, limit - 1) && depth_at_most(&**a3, limit - 1),
        Node::RetStatExpr(_, _, a2) => depth_at_most(&**a2, limit - 1),
        Node::RetStatExprComma(_, _, a2) => depth_at_most(&**a2, limit - 1),
        Node::StatsRetStat(_, _, a2, a3) => depth_at_most(&**a2, limit - 1) && depth_at_most(&**a3, limit - 1),
        Node::Chunk(_, a1, _) => depth_at_most(&**a1, limit - 1),
        Node::SheBangChunk(_, a1, _, a3, _) => depth_at_most(&**a1, limit - 1) && depth_at_most(&**a3, limit - 1),
        _ => true,
    }
}

/// Whether the nodes of a list with separators nest no deeper than `limit`.
fn items_depth_at_most(v: &Vec<(Loc, Node, Loc, String)>, limit: usize) -> (res: bool)
    ensures
        res == (sep_items_depth(v@, 0) <= limit),
    decreases v, 0nat,
{
    proof { lemma_sep_items_depth(v@, 0); }
    let mut i: usize = 0;
    while i < v.len()
        invariant
            i <= v@.len(),
            forall|j: int| 0 <= j < i ==> node_depth(#[trigger] v@[j].1) <= limit,
        decreases v@.len() - i,
    {
        proof {
            assert(decreases_to!(v => v@));
            assert(decreases_to!(v@ => v@[i as int]));
        }
        if !depth_at_most(&v[i].1, limit) {
            proof {
                lemma_sep_items_depth(v@, 0);
            }
            return false;
        }
        i = i + 1;
    }
    proof { lemma_sep_items_depth_bound(v@, 0, limit as nat); }
    true
}

/// Whether the nodes of a list without separators nest no deeper than `limit`.
fn pairs_depth_at_most(v: &Vec<(Loc, Node)>, limit: usize) -> (res: bool)
    ensures
        res == (pairs_depth(v@, 0) <= limit),
    decreases v, 0nat,
{
    proof { lemma_pairs_depth(v@, 0); }
    let mut i: usize = 0;
    while i < v.len()
        invariant
            i <= v@.len(),
            forall|j: int| 0 <= j < i ==> node_depth(#[trigger] v@[j].1) <= limit,
        decreases v@.len() - i,
    {
        proof {
            assert(decreases_to!(v => v@));
            assert(decreases_to!(v@ => v@[i as int]));
        }
        if !depth_at_most(&v[i].1, limit) {
            proof {
                lemma_pairs_depth(v@, 0);
            }
            return false;
        }
        i = i + 1;
    }
    proof { lemma_pairs_depth_bound(v@, 0, limit as nat); }
    true
}

proof fn lemma_sep_items_depth_bound(s: Seq<(Loc, Node, Loc, String)>, k: int, m: nat)
    requires
        0 <= k,
        forall|j: int| k <= j < s.len() ==> node_depth(#[trigger] s[j].1) <= m,
    ensures
        sep_items_depth(s, k) <= m,
    decreases s.len() - k,
{
    if k < s.len() {
        lemma_sep_items_depth_bound(s, k + 1, m);
    }
}

proof fn lemma_pairs_depth_bound(s: Seq<(Loc, Node)>, k: int, m: nat)
    requires
        0 <= k,
        forall|j: int| k <= j < s.len() ==> node_depth(#[trigger] s[j].1) <= m,
    ensures
        pairs_depth(s, k) <= m,
    decreases s.len() - k,
{
    if k < s.len() {
        lemma_pairs_depth_bound(s, k + 1, m);
    }
}

/// Keeps what a trial write learned about table constructors.
fn keep_marks(state: &mut State, trial: State)
    ensures
        keeps_scope(*old(state), *final(state)),
        final(state).oneline_tables == trial.oneline_tables,
        final(state).indented_fields == trial.indented_fields,
{
    state.oneline_tables = trial.oneline_tables;
    state.indented_fields = trial.indented_fields;
}

/// What `write_if_newline` leaves in `f` when it puts the gap `t` on a new line after the
/// text `f0`: the gap's comments without the blanks at its end and a line feed after them;
/// where the gap comes to nothing, one blank at the end of `f0` goes and a line feed ends
/// the line; then the indentation.
pub open spec fn newline_gap_text(cfg: FormatOpts, f0: Seq<char>, t: Seq<char>, ind: Seq<char>) -> Seq<char> {
    let block = gap_output(cfg, t, ind, ends_line(f0), Seq::empty());
    let trimmed = block.take(trimmed_len(block));
    let f1 = if trimmed.len() > 0 {
        f0 + trimmed + (if trimmed.last() == '\n' { Seq::empty() } else { seq!['\n'] })
    } else {
        let g = if (encode_utf8(f0).len() as usize) > 1 && f0.len() > 0 && (f0.last() == ' ' || f0.last() == '\t') {
            f0.drop_last()
        } else {
            f0
        };
        if g.len() > 0 && g.last() == '\n' { g } else { g + seq!['\n'] }
    };
    f1 + ind
}

/// The closing gap of a chunk written after `x`: on a line of its own where a line feed is
/// asked for at the end of the file.
pub open spec fn chunk_close(fo: FormatOpts, buf: Seq<char>, level: int, x: Seq<char>, locr: Loc) -> Seq<char> {
    let ind = indentation(fo, level);
    if fo.write_newline_at_eof == Some(true) {
        newline_gap_text(fo, x, loc_text(buf, locr), ind)
    } else {
        x + gap_output(fo, loc_text(buf, locr), ind, ends_line(x), ""@)
    }
}

/// What writing a chunk adds to `before` where its body, of text `body`, lies outside the
/// range of positions to format: the opening gap as the options write it, the body as it
/// stands, then the closing gap.
pub open spec fn chunk_kept(fo: FormatOpts, buf: Seq<char>, level: int, locl: Loc, body: Seq<char>, locr: Loc, before: Seq<char>) -> Seq<char> {
    let ind = indentation(fo, level);
    chunk_close(fo, buf, level, before + gap_output(fo, loc_text(buf, locl), ind, ends_line(before), ""@) + body, locr)
}

/// A statement list, inside the range `r`, whose last statement lies outside it.
pub open spec fn last_outside(n: Node, r: Option<(usize, usize)>) -> bool {
    match n {
        Node::StatementList(_, items) => {
            &&& items@.len() > 0
            &&& range_checked(items@.last().1)
            &&& spec_out_of_range(r, node_loc(items@.last().1))
            &&& !spec_out_of_range(r, node_loc(n))
        },
        _ => false,
    }
}

/// The text that the last statement of a statement list covers in `buf`.
pub open spec fn last_text(n: Node, buf: Seq<char>) -> Seq<char> {
    match n {
        Node::StatementList(_, items) => loc_text(buf, node_loc(items@.last().1)),
        _ => Seq::empty(),
    }
}

/// The text ends a line and then holds the indentation `ind`.
pub open spec fn ends_with_new_line(s: Seq<char>, ind: Seq<char>) -> bool {
    &&& s.len() > ind.len()
    &&& s.subrange(s.len() - ind.len(), s.len() as int) == ind
    &&& s[s.len() - ind.len() - 1] == '\n'
}

/// A gap written on a new line ends the line before the indentation: the text is some
/// text that ends in a line feed, then the indentation.
pub proof fn lemma_newline_gap_ends_line(cfg: FormatOpts, f0: Seq<char>, t: Seq<char>, ind: Seq<char>)
    ensures
        ({
            let r = newline_gap_text(cfg, f0, t, ind);
            &&& r.len() > ind.len()
            &&& r.subrange(r.len() - ind.len(), r.len() as int) == ind
            &&& r[r.len() - ind.len() - 1] == '\n'
        }),
{
    let block = gap_output(cfg, t, ind, ends_line(f0), Seq::empty());
    let trimmed = block.take(trimmed_len(block));
    if trimmed.len() > 0 {
        let x = f0 + trimmed + (if trimmed.last() == '\n' { Seq::empty() } else { seq!['\n'] });
        if trimmed.last() == '\n' {
            assert(x =~= f0 + trimmed);
            assert(x.last() == trimmed.last());
        }
        assert(newline_gap_text(cfg, f0, t, ind) == x + ind);
        lemma_ends_with(x, ind);
    } else {
        let g = if (encode_utf8(f0).len() as usize) > 1 && f0.len() > 0 && (f0.last() == ' ' || f0.last() == '\t') {
            f0.drop_last()
        } else {
            f0
        };
        let x = if g.len() > 0 && g.last() == '\n' { g } else { g + seq!['\n'] };
        assert(newline_gap_text(cfg, f0, t, ind) == x + ind);
        lemma_ends_with(x, ind);
    }
}

proof fn lemma_ends_with(x: Seq<char>, ind: Seq<char>)
    requires
        x.len() > 0,
        x.last() == '\n',
    ensures
        ({
            let r = x + ind;
            &&& r.len() > ind.len()
            &&& r.subrange(r.len() - ind.len(), r.len() as int) == ind
            &&& r[r.len() - ind.len() - 1] == '\n'
        }),
{
    let r = x + ind;
    assert(r.subrange(r.len() - ind.len(), r.len() as int) =~= ind);
    assert(r[x.len() - 1] == x[x.len() - 1]);
}

/// The gap before a token, written on a new line when `nl`: the comments of the gap stay,
/// trailing blanks go, and the indentation follows the line feed. Without `nl` the gap is
/// written with its hint.
pub fn write_if_newline(f: &mut String, cfg: &Config, buf: &str, state: &mut State, nl: bool, loc: &Loc, hint: &str) -> (res: Result<(), std::fmt::Error>)
    ensures
        *final(state) == *old(state),
        ({
            let t = loc_text(buf@, *loc);
            let ind = indentation(cfg.fmt, old(state).indent_level as int);
            let ls = ends_line(old(f)@);
            &&& (res is Ok <==> t.len() < usize::MAX / 4 && comment_block(cfg.fmt, t, ind, ls) is Some)
            &&& res is Ok && nl ==> final(f)@ == newline_gap_text(cfg.fmt, old(f)@, t, ind)
            &&& res is Ok && !nl ==> final(f)@ == old(f)@ + gap_output(cfg.fmt, t, ind, ls, hint@)
            &&& res is Err ==> final(f)@ == old(f)@
        }),
{
    if !nl {
        return write_comment_gap(f, cfg, buf, state, loc, hint);
    }
    let mut block = String::new();
    let line_start = f.as_str().is_empty() || ends_with_char(f.as_str(), '\n');
    write_comment_gap_at(&mut block, cfg, buf, state, loc, opt_str(&None), line_start)?;
    proof {
        assert(block@ == gap_output(cfg.fmt, loc_text(buf@, *loc), indentation(cfg.fmt, state.indent_level as int), line_start, Seq::empty()));
        reveal_strlit("\n");
    }
    let ghost f0 = f@;
    let ghost ind = indentation(cfg.fmt, state.indent_level as int);
    let trimmed = trim_end_spaces_and_tabs(&block);
    if !trimmed.is_empty() {
        f.append(trimmed);
        if !ends_with_char(trimmed, '\n') {
            f.append("\n");
        }
        assert(f@ == f0 + trimmed@ + (if trimmed@.last() == '\n' { Seq::<char>::empty() } else { seq!['\n'] }));
    } else {
        let long = f.as_str().len() > 1;
        assert(long == ((encode_utf8(f0).len() as usize) > 1));
        if long && (ends_with_char(f.as_str(), ' ') || ends_with_char(f.as_str(), '\t')) {
            pop_char(f);
        }
        let ghost g = f@;
        assert(g == if (encode_utf8(f0).len() as usize) > 1 && f0.len() > 0 && (f0.last() == ' ' || f0.last() == '\t') {
            f0.drop_last()
        } else {
            f0
        });
        if !ends_with_char(f.as_str(), '\n') {
            f.append("\n");
        }
        assert(f@ == if g.len() > 0 && g.last() == '\n' { g } else { g + seq!['\n'] });
    }
    let ghost f1 = f@;
    let r = write_indent(f, cfg, state);
    assert(f@ == f1 + ind);
    r
}

/// Appends a keyword, an operator or a literal; where the source holds that text at the
/// place reached, the written text keeps tracking the source.
fn kw_step(f: &mut String, s: &str, Ghost(t): Ghost<Seq<char>>, Ghost(f0): Ghost<Seq<char>>, Ghost(a): Ghost<int>)
    ensures
        final(f)@ == old(f)@ + s@,
        tracks(old(f)@, f0, t, a) && kw_at(t, cursor(old(f)@, f0, a), s@) ==> tracks(final(f)@, f0, t, a)
            && cursor(final(f)@, f0, a) == cursor(old(f)@, f0, a) + s@.len(),
{
    let ghost before = f@;
    f.append(s);
    proof {
        if tracks(before, f0, t, a) && kw_at(t, cursor(before, f0, a), s@) {
            lemma_track(before, s@, f0, t, a);
        }
    }
}

/// Appends the equals signs of a long bracket, as `kw_step` does.
fn equals_step(f: &mut String, level: usize, Ghost(t): Ghost<Seq<char>>, Ghost(f0): Ghost<Seq<char>>, Ghost(a): Ghost<int>)
    ensures
        final(f)@ == old(f)@ + equals_signs(level as nat),
        tracks(old(f)@, f0, t, a) && kw_at(t, cursor(old(f)@, f0, a), equals_signs(level as nat)) ==> tracks(final(f)@, f0, t, a)
            && cursor(final(f)@, f0, a) == cursor(old(f)@, f0, a) + level,
{
    let ghost before = f@;
    push_equals(f, level);
    proof {
        lemma_equals_len(level as nat);
        if tracks(before, f0, t, a) && kw_at(t, cursor(before, f0, a), equals_signs(level as nat)) {
            lemma_track(before, equals_signs(level as nat), f0, t, a);
        }
    }
}

/// What writing the gap `loc` does to the text `before`, as `write_if_newline` states it:
/// `ok` exactly when its comments can be formatted; then `after` is `before` with the
/// formatted gap (on a line of its own where `nl`), else `before` unchanged.
#[verifier::opaque]
pub open spec fn gap_written(fo: FormatOpts, buf: Seq<char>, level: int, loc: Loc, hint: Seq<char>, nl: bool, before: Seq<char>, after: Seq<char>, ok: bool) -> bool {
    let t = loc_text(buf, loc);
    let ind = indentation(fo, level);
    let ls = ends_line(before);
    &&& (ok <==> t.len() < usize::MAX / 4 && comment_block(fo, t, ind, ls) is Some)
    &&& ok && nl ==> after == newline_gap_text(fo, before, t, ind)
    &&& ok && !nl ==> after == before + gap_output(fo, t, ind, ls, hint)
    &&& !ok ==> after == before
}

/// Writes a gap as `write_comment_gap` does; under the default options a gap that
/// `gap_at` describes keeps the written text tracking the source.
fn gap_step(f: &mut String, cfg: &Config, buf: &str, state: &State, loc: &Loc, hint: &str, Ghost(f0): Ghost<Seq<char>>, Ghost(a): Ghost<int>) -> (res: Result<(), std::fmt::Error>)
    ensures
        gap_written(cfg.fmt, buf@, state.indent_level as int, *loc, hint@, false, old(f)@, final(f)@, res is Ok),
        cfg.fmt == FormatOpts::spec_default() && tracks(old(f)@, f0, buf@, a)
            && gap_at(buf@, *loc, cursor(old(f)@, f0, a)) ==> res is Ok,
        cfg.fmt == FormatOpts::spec_default() && res is Ok && tracks(old(f)@, f0, buf@, a)
            && gap_at(buf@, *loc, cursor(old(f)@, f0, a)) ==> tracks(final(f)@, f0, buf@, a)
            && cursor(final(f)@, f0, a) == loc.1,
{
    let ghost before = f@;
    let ghost dflt = cfg.fmt == FormatOpts::spec_default() && tracks(before, f0, buf@, a) && gap_at(buf@, *loc, cursor(before, f0, a));
    proof {
        if dflt {
            lemma_gap_kept(buf@, *loc, cursor(before, f0, a));
        }
    }
    let r = write_comment_gap(f, cfg, buf, state, loc, hint);
    proof {
        reveal(gap_written);
        if dflt && r is Ok {
            lemma_gap_text(buf@, *loc, cursor(before, f0, a));
            lemma_track(before, loc_text(buf@, *loc), f0, buf@, a);
        }
    }
    r
}

/// Writes a gap as `write_if_newline` does, tracking the source as `gap_step` does where no
/// line feed is asked for.
fn nl_step(f: &mut String, cfg: &Config, buf: &str, state: &mut State, nl: bool, loc: &Loc, hint: &str, Ghost(f0): Ghost<Seq<char>>, Ghost(a): Ghost<int>) -> (res: Result<(), std::fmt::Error>)
    ensures
        *final(state) == *old(state),
        gap_written(cfg.fmt, buf@, old(state).indent_level as int, *loc, hint@, nl, old(f)@, final(f)@, res is Ok),
        cfg.fmt == FormatOpts::spec_default() && !nl && tracks(old(f)@, f0, buf@, a)
            && gap_at(buf@, *loc, cursor(old(f)@, f0, a)) ==> res is Ok,
        cfg.fmt == FormatOpts::spec_default() && !nl && res is Ok && tracks(old(f)@, f0, buf@, a)
            && gap_at(buf@, *loc, cursor(old(f)@, f0, a)) ==> tracks(final(f)@, f0, buf@, a)
            && cursor(final(f)@, f0, a) == loc.1,
{
    let ghost before = f@;
    let ghost dflt = cfg.fmt == FormatOpts::spec_default() && !nl && tracks(before, f0, buf@, a) && gap_at(buf@, *loc, cursor(before, f0, a));
    proof {
        if dflt {
            lemma_gap_kept(buf@, *loc, cursor(before, f0, a));
        }
    }
    let r = write_if_newline(f, cfg, buf, state, nl, loc, hint);
    proof {
        reveal(gap_written);
        if dflt && r is Ok {
            lemma_gap_text(buf@, *loc, cursor(before, f0, a));
            lemma_track(before, loc_text(buf@, *loc), f0, buf@, a);
        }
    }
    r
}

/// The text ends with the keyword `kw` at the start of a line indented by `ind`.
pub open spec fn closed_on_line(s: Seq<char>, ind: Seq<char>, kw: Seq<char>) -> bool {
    &&& s.len() >= kw.len()
    &&& s.subrange(s.len() - kw.len(), s.len() as int) == kw
    &&& ends_with_new_line(s.subrange(0, s.len() - kw.len()), ind)
}

/// A loop, `do` block, `if` statement or function body whose closing `end` the options put
/// on a line of its own.
pub open spec fn end_on_own_line(n: Node, fo: FormatOpts) -> bool {
    match n {
        Node::ForIntB(..) | Node::ForIntStep(..) | Node::ForIntStepB(..) | Node::ForRange(..) | Node::ForRangeB(..) =>
            fo.newline_format_for == Some(1usize),
        Node::WhileDo(..) | Node::WhileDoB(..) => fo.newline_format_while == Some(1usize),
        Node::DoBEnd(..) => fo.newline_format_do_end == Some(1usize),
        Node::IfThen(..) | Node::IfThenB(..) | Node::IfThenElse(..) | Node::IfThenBElse(..) | Node::IfThenElseB(..)
        | Node::IfThenBElseB(..) | Node::IfThenElseIf(..) | Node::IfThenBElseIf(..) | Node::IfThenElseIfElse(..)
        | Node::IfThenBElseIfElse(..) | Node::IfThenElseIfElseB(..) | Node::IfThenBElseIfElseB(..) =>
            fo.newline_format_if == Some(1usize),
        Node::FuncBody(..) | Node::FuncBodyB(..) | Node::FuncPBody(..) | Node::FuncPBodyB(..) =>
            fo.newline_format_function == Some(1usize),
        _ => false,
    }
}

/// Writes the gap before a closing `end`, on a line of its own where `nl`, then the `end`.
fn end_step(f: &mut String, cfg: &Config, buf: &str, state: &mut State, nl: bool, loc: &Loc, Ghost(f0): Ghost<Seq<char>>, Ghost(a): Ghost<int>) -> (res: Result<(), std::fmt::Error>)
    ensures
        *final(state) == *old(state),
        res is Ok && nl ==> closed_on_line(final(f)@, indentation(cfg.fmt, old(state).indent_level as int), "end"@),
        cfg.fmt == FormatOpts::spec_default() && !nl && tracks(old(f)@, f0, buf@, a)
            && gap_at(buf@, *loc, cursor(old(f)@, f0, a)) ==> res is Ok,
        cfg.fmt == FormatOpts::spec_default() && !nl && res is Ok && tracks(old(f)@, f0, buf@, a)
            && gap_at(buf@, *loc, cursor(old(f)@, f0, a)) && kw_at(buf@, loc.1 as int, "end"@)
            ==> tracks(final(f)@, f0, buf@, a) && cursor(final(f)@, f0, a) == loc.1 + "end"@.len(),
{
    let ghost before = f@;
    nl_step(f, cfg, buf, state, nl, loc, " ", Ghost(f0), Ghost(a))?;
    let ghost mid = f@;
    kw_step(f, "end", Ghost(buf@), Ghost(f0), Ghost(a));
    proof {
        if nl {
            let ind = indentation(cfg.fmt, state.indent_level as int);
            reveal(gap_written);
            lemma_newline_gap_ends_line(cfg.fmt, before, loc_text(buf@, *loc), ind);
            assert(f@.subrange(0, f@.len() - "end"@.len()) =~= mid);
            assert(f@.subrange(f@.len() - "end"@.len(), f@.len() as int) =~= "end"@);
        }
    }
    Ok(())
}

/// Writes a child node as `write_node` does; a placed child keeps the written text
/// tracking the source under the default options.
fn node_step(node: &Node, f: &mut String, cfg: &Config, buf: &str, state: &mut State, Ghost(f0): Ghost<Seq<char>>, Ghost(a): Ghost<int>) -> (res: Result<(), std::fmt::Error>)
    ensures
        res is Ok ==> keeps_scope(*old(state), *final(state)),
        range_checked(*node) && spec_out_of_range(old(state).pos_range, node_loc(*node)) ==> {
            &&& res is Ok
            &&& final(f)@ == old(f)@ + loc_text(buf@, node_loc(*node))
            &&& *final(state) == *old(state)
        },
        cfg.fmt == FormatOpts::spec_default() && placed(*node, buf@) && res is Ok
            ==> final(f)@ == old(f)@ + buf@.subrange(text_span(*node).0, text_span(*node).1),
        cfg.fmt == FormatOpts::spec_default() && res is Ok && tracks(old(f)@, f0, buf@, a)
            && text_span(*node).0 == cursor(old(f)@, f0, a) && placed(*node, buf@) ==> tracks(final(f)@, f0, buf@, a)
            && cursor(final(f)@, f0, a) == text_span(*node).1,
        res is Ok && last_outside(*node, old(state).pos_range) ==> ends_with_text(final(f)@, last_text(*node, buf@)),
        cfg.fmt == FormatOpts::spec_default() && placed(*node, buf@) && level_room(*old(state), *node) ==> res is Ok,
    decreases node, 6nat,
{
    let ghost before = f@;
    let r = write_node(node, f, cfg, buf, state);
    proof {
        if cfg.fmt == FormatOpts::spec_default() && r is Ok && tracks(before, f0, buf@, a)
            && text_span(*node).0 == cursor(before, f0, a) && placed(*node, buf@) {
            lemma_tracks_trans(f0, before, f@, buf@, a, text_span(*node).0);
        }
    }
    r
}

fn inc_indent(f: &mut String, cfg: &Config, buf: &str, state: &mut State) -> (res: Result<(), std::fmt::Error>)
    ensures
        final(f)@ == old(f)@,
        res is Ok ==> final(state).indent_level == old(state).indent_level + 1
            && final(state).stack_indent@ == old(state).stack_indent@.push(None)
            && final(state).function_nested_level == old(state).function_nested_level
            && final(state).block_nested_level == old(state).block_nested_level
            && final(state).pos_range == old(state).pos_range,
        res is Err <==> old(state).indent_level == isize::MAX,
{
    IncIndent(None).configured_write(f, cfg, buf, state)
}

fn dec_indent(f: &mut String, cfg: &Config, buf: &str, state: &mut State) -> (res: Result<(), std::fmt::Error>)
    ensures
        final(f)@ == old(f)@,
        res is Ok ==> final(state).indent_level == old(state).indent_level
                - (if dec_removes_level(old(state).stack_indent@) { 1int } else { 0int })
            && final(state).stack_indent@ == (if old(state).stack_indent@.len() > 0 { old(state).stack_indent@.drop_last() } else { old(state).stack_indent@ })
            && final(state).function_nested_level == old(state).function_nested_level
            && final(state).block_nested_level == old(state).block_nested_level
            && final(state).pos_range == old(state).pos_range,
        res is Err <==> dec_removes_level(old(state).stack_indent@) && old(state).indent_level == isize::MIN,
{
    DecIndent().configured_write(f, cfg, buf, state)
}

fn inc_func(f: &mut String, cfg: &Config, buf: &str, state: &mut State) -> (res: Result<(), std::fmt::Error>)
    ensures
        final(f)@ == old(f)@,
        res is Ok ==> *final(state) == (State { function_nested_level: (old(state).function_nested_level + 1) as isize, ..*old(state) })
            && final(state).function_nested_level == old(state).function_nested_level + 1,
        res is Err <==> old(state).function_nested_level == isize::MAX,
{
    IncFuncLevel().configured_write(f, cfg, buf, state)
}

fn dec_func(f: &mut String, cfg: &Config, buf: &str, state: &mut State) -> (res: Result<(), std::fmt::Error>)
    ensures
        final(f)@ == old(f)@,
        res is Ok ==> *final(state) == (State { function_nested_level: (old(state).function_nested_level - 1) as isize, ..*old(state) })
            && final(state).function_nested_level == old(state).function_nested_level - 1,
        res is Err <==> old(state).function_nested_level == isize::MIN,
{
    DecFuncLevel().configured_write(f, cfg, buf, state)
}

/// Whether a trial text fits on the current line: there is a maximal width, and the text
/// after the last line feed of `before` and the first line of `trial` together stay under it.
pub open spec fn fits_line(fo: FormatOpts, before: Seq<char>, trial: Seq<char>) -> bool {
    fo.max_width matches Some(w) && len_after_newline(before) + len_till_newline(trial) < w
}

/// Whether a trial text fits on the current line: the text after the last line feed of
/// `f` and the first line of `buffer` together stay under the maximal width.
fn fits(f: &String, cfg: &Config, buffer: &String) -> (res: bool)
    ensures
        res == fits_line(cfg.fmt, f@, buffer@),
{
    match cfg.fmt.max_width {
        Some(w) => {
            let left = get_len_after_newline(f.as_str(), cfg);
            let right = get_len_till_newline(buffer.as_str(), cfg);
            match left.checked_add(right) {
                Some(total) => total < w,
                None => false,
            }
        },
        None => false,
    }
}

/// The node written on a trial, where it fits on the current line.
fn test_oneline_node(f: &String, cfg: &Config, buf: &str, state: &mut State, node: &Node) -> (res: Option<String>)
    ensures
        keeps_scope(*old(state), *final(state)),
        res matches Some(b) ==> fits_line(cfg.fmt, f@, b@),
    decreases node, 6nat,
{
    let mut trial = state.clone();
    let mut buffer = String::new();
    let ok = write_node(node, &mut buffer, cfg, buf, &mut trial).is_ok();
    keep_marks(state, trial);
    if ok && fits(f, cfg, &buffer) {
        Some(buffer)
    } else {
        None
    }
}

/// The node written on a trial without the one-line trial at its top, where it fits on
/// the current line without a line feed.
fn test_oneline_body_no_nl(f: &String, cfg: &Config, buf: &str, state: &mut State, node: &Node) -> (res: Option<String>)
    ensures
        keeps_scope(*old(state), *final(state)),
        res matches Some(b) ==> fits_line(cfg.fmt, f@, b@) && !spec_has_newlines(b@),
    decreases node, 4nat,
{
    let mut trial = state.clone();
    let mut buffer = String::new();
    let ok = write_body(node, &mut buffer, cfg, buf, &mut trial).is_ok();
    keep_marks(state, trial);
    if ok && fits(f, cfg, &buffer) && !has_newlines(buffer.as_str()) {
        Some(buffer)
    } else {
        None
    }
}

/// The field written on a trial, where the configuration asks for such a trial and it
/// fits on the current line without a line feed.
fn test_oneline_table_field(f: &String, cfg: &Config, buf: &str, state: &mut State, node: &Node) -> (res: Option<String>)
    ensures
        keeps_scope(*old(state), *final(state)),
        cfg.fmt.newline_format_table_field is None ==> res is None,
        res matches Some(b) ==> fits_line(cfg.fmt, f@, b@) && !spec_has_newlines(b@),
    decreases node, 7nat,
{
    if cfg.fmt.max_width.is_some() && cfg.fmt.newline_format_table_field.is_some() {
        match test_oneline_node(f, cfg, buf, state, node) {
            Some(b) => if !has_newlines(b.as_str()) { Some(b) } else { None },
            None => None,
        }
    } else {
        None
    }
}

/// `:name` of a method call written on a trial, where it fits on the current line.
fn test_oneline_method(f: &String, cfg: &Config, buf: &str, state: &mut State, loc: &Loc, name: &Node) -> (res: Option<String>)
    ensures
        keeps_scope(*old(state), *final(state)),
        res matches Some(b) ==> fits_line(cfg.fmt, f@, b@),
    decreases name, 6nat,
{
    let mut trial = state.clone();
    let mut buffer = String::new();
    buffer.append(":");
    let ok = write_comment_gap(&mut buffer, cfg, buf, &trial, loc, opt_str(&None)).is_ok()
        && write_node(name, &mut buffer, cfg, buf, &mut trial).is_ok();
    keep_marks(state, trial);
    if ok && fits(f, cfg, &buffer) {
        Some(buffer)
    } else {
        None
    }
}

/// The operator and right operand of a binary operation written on a trial, where they
/// fit on the current line.
fn test_oneline_binop(f: &String, cfg: &Config, buf: &str, state: &mut State, l0: &Loc, tok: &str, l1: &Loc, rhs: &Node) -> (res: Option<String>)
    ensures
        keeps_scope(*old(state), *final(state)),
        res matches Some(b) ==> fits_line(cfg.fmt, f@, b@),
    decreases rhs, 6nat,
{
    let mut trial = state.clone();
    let mut buffer = String::new();
    let mut ok = write_comment_gap(&mut buffer, cfg, buf, &trial, l0, " ").is_ok();
    buffer.append(tok);
    ok = ok && write_comment_gap(&mut buffer, cfg, buf, &trial, l1, " ").is_ok();
    ok = ok && write_node(rhs, &mut buffer, cfg, buf, &mut trial).is_ok();
    keep_marks(state, trial);
    if ok && fits(f, cfg, &buffer) {
        Some(buffer)
    } else {
        None
    }
}

/// What is known, without a trial write, of whether an item of an expression list goes on a
/// new line: never unless the configuration breaks such lists, always where it does and
/// asks for no trial.
pub open spec fn exp_list_newline(format: Option<usize>, force_single_line: Option<bool>, res: bool) -> bool {
    &&& format != Some(1usize) ==> !res
    &&& format == Some(1usize) && force_single_line != Some(true) ==> res
}

/// What is known, without a trial write, of whether a suffix of a variable goes on a new
/// line: only method calls and member accesses may, where the configuration breaks such
/// suffixes; they do where it asks for no trial.
pub open spec fn var_suffix_newline(item: Node, parent: Node, fo: FormatOpts, res: bool) -> bool {
    parent is VarSuffixList ==> {
        let breakable = item is FnMethodCall || item is TableMember;
        &&& !breakable || fo.newline_format_var_suffix is None ==> !res
        &&& breakable && fo.newline_format_var_suffix is Some && fo.force_single_line_var_suffix != Some(true) ==> res
    }
}

/// Whether an item of a list, after `prev`, goes on a new line.
pub fn need_newline(item: &Node, prev: &Node, parent: &Node, f: &String, cfg: &Config, buf: &str, state: &mut State) -> (res: bool)
    ensures
        keeps_scope(*old(state), *final(state)),
        var_suffix_newline(*item, *parent, cfg.fmt, res),
        ({
            let fo = cfg.fmt;
            match *parent {
                Node::StatementList(..) => res == fo.newline_format_statement is Some,
                Node::ElseIfThenVec(..) => res == (fo.newline_format_if == Some(1usize)),
                Node::ExpList(..) => exp_list_newline(fo.newline_format_exp_list, fo.force_single_line_exp_list, res),
                Node::Fields(_, _, opts) => {
                    &&& fo.newline_format_table_field is None ==> !res
                    &&& fo.newline_format_table_field is Some && opts.is_iv_table == Some(true)
                        && fo.force_single_line_iv_table_field == Some(true) && fo.force_single_line_table != Some(true) ==> !res
                    &&& fo.newline_format_table_field is Some
                        && !(opts.is_iv_table == Some(true) && fo.force_single_line_iv_table_field == Some(true))
                        && !(fo.force_single_line_kv_table_field == Some(true) && opts.is_iv_table == Some(false)) ==> res
                },
                Node::VarSuffixList(..) => true,
                _ => !res,
            }
        }),
    decreases item, 8nat,
{
    let fo = &cfg.fmt;
    match parent {
        Node::StatementList(..) => fo.newline_format_statement.is_some(),
        Node::ExpList(..) => match fo.newline_format_exp_list {
            Some(1) => match fo.force_single_line_exp_list {
                Some(true) => test_oneline_node(f, cfg, buf, state, item).is_none(),
                _ => true,
            },
            _ => false,
        },
        Node::ElseIfThenVec(..) => fo.newline_format_if == Some(1),
        Node::Fields(_, _, opts) => {
            if fo.newline_format_table_field.is_none() {
                return false;
            }
            if opts.is_iv_table == Some(true) && fo.force_single_line_iv_table_field == Some(true) {
                if fo.force_single_line_table == Some(true) {
                    if let Node::FieldSequential(_, nseq) = prev {
                        if let Node::TableConstructor(tsp, ..) = &**nseq {
                            return is_oneline_table(state, tsp.0)
                                || test_oneline_table_field_any(f, cfg, buf, state, item).is_some();
                        }
                        return test_oneline_table_field_any(f, cfg, buf, state, item).is_none();
                    }
                }
                return false;
            }
            if fo.force_single_line_kv_table_field == Some(true) && opts.is_iv_table == Some(false) {
                return test_oneline_table_field(f, cfg, buf, state, item).is_none();
            }
            true
        },
        Node::VarSuffixList(..) => match item {
            Node::FnMethodCall(_, locs, n1, n2) => {
                if fo.newline_format_var_suffix.is_none() {
                    return false;
                }
                if fo.force_single_line_var_suffix != Some(true) {
                    return true;
                }
                match &**n2 {
                    Node::TableConstructorEmpty(..) | Node::TableConstructor(..) | Node::ArgsRoundBracketsEmpty(..) => {
                        test_oneline_method(f, cfg, buf, state, &locs[0], n1).is_none()
                    },
                    Node::ArgsRoundBrackets(..) if fo.newline_format_exp_list_first.is_some() => {
                        test_oneline_method(f, cfg, buf, state, &locs[0], n1).is_none()
                    },
                    _ => test_oneline_node(f, cfg, buf, state, item).is_none(),
                }
            },
            Node::TableMember(..) => {
                if fo.newline_format_var_suffix.is_none() {
                    return false;
                }
                if fo.force_single_line_var_suffix != Some(true) {
                    return true;
                }
                test_oneline_node(f, cfg, buf, state, item).is_none()
            },
            _ => false,
        },
        _ => false,
    }
}

/// The node written on a trial, where it fits on the current line without a line feed.
fn test_oneline_table_field_any(f: &String, cfg: &Config, buf: &str, state: &mut State, node: &Node) -> (res: Option<String>)
    ensures
        keeps_scope(*old(state), *final(state)),
        res matches Some(b) ==> fits_line(cfg.fmt, f@, b@) && !spec_has_newlines(b@),
    decreases node, 7nat,
{
    match test_oneline_node(f, cfg, buf, state, node) {
        Some(b) => if !has_newlines(b.as_str()) { Some(b) } else { None },
        None => None,
    }
}

/// Whether the first item of a list goes on a new line.
pub fn need_first_newline(item: &Node, parent: &Node, f: &String, cfg: &Config, buf: &str, state: &mut State) -> (res: bool)
    ensures
        keeps_scope(*old(state), *final(state)),
        var_suffix_newline(*item, *parent, cfg.fmt, res),
        ({
            let fo = cfg.fmt;
            match *parent {
                Node::ExpList(..) => exp_list_newline(fo.newline_format_exp_list_first, fo.force_single_line_exp_list, res),
                Node::Fields(fsp, _, opts) => {
                    let whole_table = fo.force_single_line_table == Some(true) && opts.is_iv_table == Some(true)
                        && fo.force_single_line_iv_table_field == Some(true);
                    &&& fo.newline_format_table_field is None ==> !res
                    &&& fo.newline_format_table_field is Some && whole_table ==> res == (last_indent_mark(
                        old(state).indented_fields@,
                        fsp.0,
                    ) || opts.is_single_child != Some(true))
                    &&& fo.newline_format_table_field is Some && !whole_table
                        && !(fo.force_single_line_iv_table_field == Some(true) && opts.is_iv_table == Some(true))
                        && !(fo.force_single_line_kv_table_field == Some(true) && opts.is_iv_table == Some(false)) ==> res
                },
                Node::VarSuffixList(..) => true,
                _ => !res,
            }
        }),
    decreases item, 9nat,
{
    let fo = &cfg.fmt;
    match parent {
        Node::Fields(fsp, _, opts) => {
            if fo.newline_format_table_field.is_none() {
                return false;
            }
            if fo.force_single_line_table == Some(true) && opts.is_iv_table == Some(true)
                && fo.force_single_line_iv_table_field == Some(true) {
                return fields_has_indent(state, fsp.0) || opts.is_single_child != Some(true);
            }
            if fo.force_single_line_iv_table_field == Some(true) && opts.is_iv_table == Some(true)
                || fo.force_single_line_kv_table_field == Some(true) && opts.is_iv_table == Some(false) {
                return test_oneline_table_field(f, cfg, buf, state, item).is_none();
            }
            true
        },
        Node::ExpList(..) => match fo.newline_format_exp_list_first {
            Some(1) => match fo.force_single_line_exp_list {
                Some(true) => test_oneline_node(f, cfg, buf, state, item).is_none(),
                _ => true,
            },
            _ => false,
        },
        Node::VarSuffixList(sp, _) => {
            let placeholder = Node::Name(Loc(sp.0, sp.0), String::new());
            need_newline(item, &placeholder, parent, f, cfg, buf, state)
        },
        _ => false,
    }
}

/// The separator that a list with separators writes between its items, where it sets one.
pub open spec fn separator_of(list_node: Node, fo: FormatOpts) -> Option<Seq<char>> {
    match list_node {
        Node::Fields(..) => opt_text(fo.field_separator),
        Node::ExpList(..) | Node::NameList(..) | Node::VarList(..) | Node::ParList(..) => Some(","@),
        Node::FuncName(..) | Node::FuncNameSelf(..) => Some("."@),
        _ => None,
    }
}

pub fn list_separator(list_node: &Node, cfg: &Config) -> (res: Option<String>)
    ensures
        opt_text(res) == separator_of(*list_node, cfg.fmt),
{
    match list_node {
        Node::Fields(..) => cfg.fmt.field_separator.clone(),
        Node::ExpList(..) | Node::NameList(..) | Node::VarList(..) | Node::ParList(..) => Some(String::from_str(",")),
        Node::FuncName(..) | Node::FuncNameSelf(..) => Some(String::from_str(".")),
        _ => None,
    }
}

/// Whether a list with separators writes one after its last item: `Some(false)` never,
/// `Some(true)` always, `None` where the source has one.
pub open spec fn trailing_separator_of(list_node: Node, fo: FormatOpts, marks: Seq<(usize, bool)>) -> Option<bool> {
    match list_node {
        Node::Fields(fsp, _, opts) => {
            if fo.force_single_line_table == Some(true)
                && (fo.newline_format_table_field is None && fo.newline_format_table_constructor is None
                    || opts.is_iv_table == Some(true) && !last_indent_mark(marks, fsp.0)) {
                Some(false)
            } else {
                fo.write_trailing_field_separator
            }
        },
        Node::ExpList(..) | Node::NameList(..) | Node::VarList(..) | Node::ParList(..) | Node::FuncName(..)
        | Node::FuncNameSelf(..) => Some(false),
        _ => None,
    }
}

pub fn list_trailing_separator(list_node: &Node, cfg: &Config, state: &State) -> (res: Option<bool>)
    ensures
        res == trailing_separator_of(*list_node, cfg.fmt, state.indented_fields@),
{
    let fo = &cfg.fmt;
    match list_node {
        Node::Fields(fsp, _, opts) => {
            if fo.force_single_line_table == Some(true)
                && (fo.newline_format_table_field.is_none() && fo.newline_format_table_constructor.is_none()
                    || opts.is_iv_table == Some(true) && !fields_has_indent(state, fsp.0)) {
                Some(false)
            } else {
                fo.write_trailing_field_separator
            }
        },
        Node::ExpList(..) | Node::NameList(..) | Node::VarList(..) | Node::ParList(..) | Node::FuncName(..)
        | Node::FuncNameSelf(..) => Some(false),
        _ => None,
    }
}

/// The hint between the items of a list with separators.
pub open spec fn element_hint_of(list_node: Node) -> Seq<char> {
    match list_node {
        Node::Fields(..) | Node::ExpList(..) | Node::NameList(..) | Node::VarList(..) | Node::ParList(..) => " "@,
        _ => ""@,
    }
}

pub fn element_prefix_hint(list_node: &Node) -> (res: &'static str)
    ensures
        res@ == element_hint_of(*list_node),
{
    match list_node {
        Node::Fields(..) | Node::ExpList(..) | Node::NameList(..) | Node::VarList(..) | Node::ParList(..) => " ",
        _ => "",
    }
}

/// Whether the configuration may break a list onto several lines.
pub open spec fn sep_list_breaks(list_node: Node, fo: FormatOpts) -> bool {
    match list_node {
        Node::Fields(..) => fo.newline_format_table_field is Some,
        Node::ExpList(..) => fo.newline_format_exp_list is Some || fo.newline_format_exp_list_first is Some,
        _ => false,
    }
}

pub fn sep_list_need_newlines(list_node: &Node, cfg: &Config) -> (res: bool)
    ensures
        res == sep_list_breaks(*list_node, cfg.fmt),
{
    match list_node {
        Node::Fields(..) => cfg.fmt.newline_format_table_field.is_some(),
        Node::ExpList(..) => cfg.fmt.newline_format_exp_list.is_some() || cfg.fmt.newline_format_exp_list_first.is_some(),
        _ => false,
    }
}

/// Whether the configuration may break a list without separators onto several lines.
pub open spec fn list_breaks(list_node: Node, fo: FormatOpts) -> bool {
    match list_node {
        Node::StatementList(..) => fo.newline_format_statement is Some,
        Node::ElseIfThenVec(..) => fo.newline_format_if is Some,
        Node::VarSuffixList(..) => fo.newline_format_var_suffix is Some,
        _ => false,
    }
}

pub fn list_need_newlines(list_node: &Node, cfg: &Config) -> (res: bool)
    ensures
        res == list_breaks(*list_node, cfg.fmt),
{
    match list_node {
        Node::StatementList(..) => cfg.fmt.newline_format_statement.is_some(),
        Node::ElseIfThenVec(..) => cfg.fmt.newline_format_if.is_some(),
        Node::VarSuffixList(..) => cfg.fmt.newline_format_var_suffix.is_some(),
        _ => false,
    }
}

/// The hint before an item of a list without separators.
pub open spec fn item_hint_of(item: Node) -> Seq<char> {
    match item {
        Node::Semicolon(..) | Node::ArgsRoundBrackets(..) | Node::ArgsRoundBracketsEmpty(..) | Node::TableIndex(..)
        | Node::TableMember(..) | Node::FnMethodCall(..) | Node::TableConstructor(..)
        | Node::TableConstructorEmpty(..) => ""@,
        _ => " "@,
    }
}

pub fn list_item_prefix_hint(item: &Node) -> (res: &'static str)
    ensures
        res@ == item_hint_of(*item),
{
    match item {
        Node::Semicolon(..) | Node::ArgsRoundBrackets(..) | Node::ArgsRoundBracketsEmpty(..) | Node::TableIndex(..)
        | Node::TableMember(..) | Node::FnMethodCall(..) | Node::TableConstructor(..)
        | Node::TableConstructorEmpty(..) => "",
        _ => " ",
    }
}

fn write_sep(f: &mut String, sep: &Option<String>, own: &String)
    ensures
        final(f)@ == old(f)@ + match *sep {
            Some(s) => s@,
            None => own@,
        },
{
    match sep {
        Some(s) => f.append(s.as_str()),
        None => f.append(own.as_str()),
    }
}

/// What a list with separators writes after its last item: a separator where the options
/// ask for a trailing one, or leave it to the source and the source has one; the separator
/// is the configured one, else the item's own.
pub open spec fn list_end_text(list_node: Node, fo: FormatOpts, marks: Seq<(usize, bool)>) -> Seq<char> {
    let last = sep_list_parts(list_node).0.last();
    let tr = trailing_separator_of(list_node, fo, marks);
    if (tr is None && last.3@.len() > 0) || tr == Some(true) {
        sep_text(separator_of(list_node, fo), last)
    } else {
        Seq::empty()
    }
}

/// The text `s` ends with `e`.
pub open spec fn ends_with_text(s: Seq<char>, e: Seq<char>) -> bool {
    s.len() >= e.len() && s.subrange(s.len() - e.len(), s.len() as int) == e
}

/// Writes a list with separators: its items, the gaps around them, and the separators.
/// Says whether an item was put on a new line.
pub fn cfg_write_sep_list(f: &mut String, cfg: &Config, buf: &str, state: &mut State, list_node: &Node) -> (res: Result<bool, std::fmt::Error>)
    ensures
        res is Ok ==> keeps_scope(*old(state), *final(state)),
        cfg.fmt == FormatOpts::spec_default() && placed(*list_node, buf@) && res is Ok
            && (list_node is Fields || list_node is FuncNameSelf || list_node is FuncName || list_node is ExpList
                || list_node is NameList || list_node is VarList || list_node is ParList)
            ==> tracks(final(f)@, old(f)@, buf@, text_span(*list_node).0)
            && cursor(final(f)@, old(f)@, text_span(*list_node).0) == sep_list_end(*list_node),
        cfg.fmt == FormatOpts::spec_default() && placed(*list_node, buf@) && level_room(*old(state), *list_node) ==> res is Ok,
        sep_list_parts(*list_node).0.len() == 0 ==> res == Ok::<bool, std::fmt::Error>(false)
            && final(f)@ == old(f)@ && *final(state) == *old(state),
        res matches Ok(true) ==> sep_list_breaks(*list_node, cfg.fmt),
        res is Ok && sep_list_parts(*list_node).0.len() > 0
            ==> ends_with_text(final(f)@, list_end_text(*list_node, cfg.fmt, final(state).indented_fields@)),
    decreases list_node, 1nat,
{
    let ghost t = buf@;
    let ghost f0 = f@;
    let ghost a = text_span(*list_node).0;
    let ghost sepv = sep_list_parts(*list_node).1;
    let ghost trailing = sep_list_parts(*list_node).2;
    let ghost dflt = cfg.fmt == FormatOpts::spec_default() && placed(*list_node, buf@);
    let items = match list_node {
        Node::Fields(_, items, _) => {
            proof { assert(decreases_to!(*list_node => *items)); }
            items
        },
        Node::FuncNameSelf(_, _, items, _) => {
            proof { assert(decreases_to!(*list_node => *items)); }
            items
        },
        Node::ExpList(sp, items) | Node::NameList(sp, items) | Node::VarList(sp, items) | Node::ParList(sp, items)
        | Node::FuncName(sp, items) => {
            proof { assert(decreases_to!(*list_node => *items)); }
            items
        },
        _ => return Ok(false),
    };
    assert(items@ == sep_list_parts(*list_node).0);
    proof {
        if dflt {
            lemma_sep_list_placed(*list_node, t);
            lemma_sep_nodes_placed(items@, 0, t);
            lemma_placed_span(*list_node, t);
            lemma_tracks_start(f0, t, a);
        }
    }
    let n = items.len();
    if n == 0 {
        return Ok(false);
    }
    proof {
        assert(decreases_to!(*items => items@));
    }
    let sep = list_separator(list_node, cfg);
    assert(dflt ==> opt_text(sep) == sepv);
    let ghost room = level_room(*old(state), *list_node);
    proof {
        lemma_sep_items_depth(items@, 0);
    }
    let newlines = sep_list_need_newlines(list_node, cfg);
    let mut indent = false;
    proof { assert(decreases_to!(items@ => items@[0])); }
    let first = &items[0];
    proof {
        if dflt {
            assert(sep_item_laid(t, items@, 0, a, sepv, trailing));
            assert(placed(items@[0].1, t));
        }
    }
    let need_nl = newlines && need_first_newline(&first.1, list_node, f, cfg, buf, state);
    indent = indent || need_nl;
    nl_step(f, cfg, buf, state, need_nl, &first.0, opt_str(&None), Ghost(f0), Ghost(a))?;
    node_step(&first.1, f, cfg, buf, state, Ghost(f0), Ghost(a))?;
    gap_step(f, cfg, buf, state, &first.2, opt_str(&None), Ghost(f0), Ghost(a))?;
    let mut i: usize = 1;
    while i < n
        invariant
            1 <= i <= n,
            n == items@.len(),
            items@ == sep_list_parts(*list_node).0,
            decreases_to!(*list_node => *items),
            decreases_to!(*items => items@),
            keeps_scope(*old(state), *state),
            dflt == (cfg.fmt == FormatOpts::spec_default() && placed(*list_node, buf@)),
            dflt ==> opt_text(sep) == sepv,
            dflt ==> crate::formatting::default_layout::sep_items_laid(t, items@, a, sep_list_end(*list_node), sepv, trailing),
            dflt ==> forall|k: int| 0 <= k < items@.len() ==> placed(#[trigger] items@[k].1, t),
            t == buf@,
            newlines == sep_list_breaks(*list_node, cfg.fmt),
            dflt ==> tracks(f@, f0, t, a) && cursor(f@, f0, a) == items@[i - 1].2.1,
            room == level_room(*old(state), *list_node),
            forall|k: int| 0 <= k < items@.len() ==> node_depth(#[trigger] items@[k].1) < node_depth(*list_node),
            indent ==> newlines,
        decreases n - i,
    {
        proof {
            assert(decreases_to!(items@ => items@[i as int]));
            assert(decreases_to!(items@ => items@[i - 1]));
        }
        let prev = &items[i - 1];
        let item = &items[i];
        let ghost before = f@;
        proof {
            if dflt {
                assert(sep_item_laid(t, items@, i - 1, a, sepv, trailing));
                assert(sep_item_laid(t, items@, i as int, a, sepv, trailing));
                assert(placed(items@[i as int].1, t));
            }
        }
        write_sep(f, &sep, &prev.3);
        proof {
            if dflt {
                lemma_track(before, sep_text(sepv, items@[i - 1]), f0, t, a);
            }
        }
        if test_out_of_range(&state.pos_range, &item.0) {
            let ghost before_raw = f@;
            write_raw(f, buf, &item.0);
            proof {
                if dflt {
                    lemma_gap_text(t, item.0, cursor(before_raw, f0, a));
                    lemma_track(before_raw, loc_text(t, item.0), f0, t, a);
                }
            }
        } else {
            let need_nl = newlines && need_newline(&item.1, &prev.1, list_node, f, cfg, buf, state);
            indent = indent || need_nl;
            nl_step(f, cfg, buf, state, need_nl, &item.0, element_prefix_hint(list_node), Ghost(f0), Ghost(a))?;
        }
        node_step(&item.1, f, cfg, buf, state, Ghost(f0), Ghost(a))?;
        gap_step(f, cfg, buf, state, &item.2, opt_str(&None), Ghost(f0), Ghost(a))?;
        i = i + 1;
    }
    let last = &items[n - 1];
    let trailing_sep = list_trailing_separator(list_node, cfg, state);
    let ghost before_last = f@;
    if trailing_sep.is_none() && !last.3.as_str().is_empty() || trailing_sep == Some(true) {
        write_sep(f, &sep, &last.3);
    }
    proof {
        let e = list_end_text(*list_node, cfg.fmt, state.indented_fields@);
        assert(f@.subrange(f@.len() - e.len(), f@.len() as int) =~= e);
    }
    proof {
        if dflt {
            let ls = sep_text(sepv, items@[n - 1]);
            assert(sep_item_laid(t, items@, n - 1, a, sepv, trailing));
            if trailing {
                if ls.len() > 0 {
                    lemma_track(before_last, ls, f0, t, a);
                } else {
                    assert(f@ =~= before_last);
                }
            }
        }
    }
    Ok(indent)
}

/// Writes a list without separators: its items and the gaps before them.
/// Says whether an item was put on a new line.
pub fn cfg_write_list(f: &mut String, cfg: &Config, buf: &str, state: &mut State, list_node: &Node) -> (res: Result<bool, std::fmt::Error>)
    ensures
        res is Ok ==> keeps_scope(*old(state), *final(state)),
        cfg.fmt == FormatOpts::spec_default() && placed(*list_node, buf@) && res is Ok
            && (list_node is StatementList || list_node is VarSuffixList || list_node is ElseIfThenVec)
            ==> tracks(final(f)@, old(f)@, buf@, text_span(*list_node).0)
            && cursor(final(f)@, old(f)@, text_span(*list_node).0) == text_span(*list_node).1,
        cfg.fmt == FormatOpts::spec_default() && placed(*list_node, buf@) && level_room(*old(state), *list_node) ==> res is Ok,
        list_items(*list_node).len() == 0 ==> res == Ok::<bool, std::fmt::Error>(false)
            && final(f)@ == old(f)@ && *final(state) == *old(state),
        res matches Ok(true) ==> list_breaks(*list_node, cfg.fmt),
        res is Ok && list_items(*list_node).len() > 0 && range_checked(list_items(*list_node).last().1)
            && spec_out_of_range(old(state).pos_range, node_loc(list_items(*list_node).last().1))
            ==> ends_with_text(final(f)@, loc_text(buf@, node_loc(list_items(*list_node).last().1))),
    decreases list_node, 1nat,
{
    let ghost t = buf@;
    let ghost f0 = f@;
    let ghost a = text_span(*list_node).0;
    let ghost dflt = cfg.fmt == FormatOpts::spec_default() && placed(*list_node, buf@);
    let items = match list_node {
        Node::StatementList(sp, items) | Node::VarSuffixList(sp, items) | Node::ElseIfThenVec(sp, items) => {
            proof { assert(decreases_to!(*list_node => *items)); }
            items
        },
        _ => return Ok(false),
    };
    assert(items@ == list_items(*list_node));
    proof {
        if dflt {
            lemma_list_placed(*list_node, t);
            lemma_nodes_placed(items@, 0, t);
            lemma_tracks_start(f0, t, a);
        }
    }
    let n = items.len();
    if n == 0 {
        return Ok(false);
    }
    proof {
        assert(decreases_to!(*items => items@));
    }
    let newlines = list_need_newlines(list_node, cfg);
    let mut indent = false;
    let ghost room = level_room(*old(state), *list_node);
    proof {
        lemma_pairs_depth(items@, 0);
    }
    proof { assert(decreases_to!(items@ => items@[0])); }
    let first = &items[0];
    proof {
        if dflt {
            assert(item_laid(t, items@, 0, a));
            assert(placed(items@[0].1, t));
        }
    }
    let need_nl = newlines && need_first_newline(&first.1, list_node, f, cfg, buf, state);
    indent = indent || need_nl;
    nl_step(f, cfg, buf, state, need_nl, &first.0, opt_str(&None), Ghost(f0), Ghost(a))?;
    node_step(&first.1, f, cfg, buf, state, Ghost(f0), Ghost(a))?;
    proof {
        if range_checked(items@[0].1) && spec_out_of_range(old(state).pos_range, node_loc(items@[0].1)) {
            let lt = loc_text(buf@, node_loc(items@[0].1));
            assert(f@.subrange(f@.len() - lt.len(), f@.len() as int) =~= lt);
        }
    }
    let mut i: usize = 1;
    while i < n
        invariant
            1 <= i <= n,
            n == items@.len(),
            items@ == list_items(*list_node),
            decreases_to!(*list_node => *items),
            decreases_to!(*items => items@),
            keeps_scope(*old(state), *state),
            dflt == (cfg.fmt == FormatOpts::spec_default() && placed(*list_node, buf@)),
            dflt ==> crate::formatting::default_layout::items_laid(t, items@, a, text_span(*list_node).1),
            dflt ==> forall|k: int| 0 <= k < items@.len() ==> placed(#[trigger] items@[k].1, t),
            t == buf@,
            newlines == list_breaks(*list_node, cfg.fmt),
            dflt ==> tracks(f@, f0, t, a) && cursor(f@, f0, a) == text_span(items@[i - 1].1).1,
            room == level_room(*old(state), *list_node),
            forall|k: int| 0 <= k < items@.len() ==> node_depth(#[trigger] items@[k].1) < node_depth(*list_node),
            indent ==> newlines,
            range_checked(items@[i - 1].1) && spec_out_of_range(old(state).pos_range, node_loc(items@[i - 1].1))
                ==> ends_with_text(f@, loc_text(buf@, node_loc(items@[i - 1].1))),
        decreases n - i,
    {
        proof {
            assert(decreases_to!(items@ => items@[i as int]));
            assert(decreases_to!(items@ => items@[i - 1]));
        }
        let item = &items[i];
        proof {
            if dflt {
                assert(item_laid(t, items@, i as int, a));
                assert(placed(items@[i as int].1, t));
            }
        }
        if test_out_of_range(&state.pos_range, &item.0) {
            let ghost before_raw = f@;
            write_raw(f, buf, &item.0);
            proof {
                if dflt {
                    lemma_gap_text(t, item.0, cursor(before_raw, f0, a));
                    lemma_track(before_raw, loc_text(t, item.0), f0, t, a);
                }
            }
        } else {
            let prev = &items[i - 1];
            let hint = list_item_prefix_hint(&item.1);
            let need_nl = newlines && need_newline(&item.1, &prev.1, list_node, f, cfg, buf, state);
            indent = indent || need_nl;
            nl_step(f, cfg, buf, state, need_nl, &item.0, hint, Ghost(f0), Ghost(a))?;
        }
        let ghost before_item = f@;
        node_step(&item.1, f, cfg, buf, state, Ghost(f0), Ghost(a))?;
        proof {
            if range_checked(items@[i as int].1) && spec_out_of_range(old(state).pos_range, node_loc(items@[i as int].1)) {
                let lt = loc_text(buf@, node_loc(items@[i as int].1));
                assert(f@.subrange(f@.len() - lt.len(), f@.len() as int) =~= lt);
            }
        }
        i = i + 1;
    }
    Ok(indent)
}

/// Whether the comments of the gap `loc` can be written after `before` at the indentation
/// level `level` (as `write_comment_gap` states it).
pub open spec fn gap_writable(fo: FormatOpts, buf: Seq<char>, level: int, loc: Loc, before: Seq<char>) -> bool {
    let t = loc_text(buf, loc);
    t.len() < usize::MAX / 4 && comment_block(fo, t, indentation(fo, level), ends_line(before)) is Some
}

/// What is known, without a trial write, of whether a non-empty list is indented: an error
/// exactly when the gap before it cannot be written; no indentation where the option `indent`
/// is not set; indentation where `one_line` is set too.
pub open spec fn list_indent(gap_ok: bool, indent: Option<bool>, one_line: Option<bool>, res: Result<bool, std::fmt::Error>) -> bool {
    &&& res is Err <==> !gap_ok
    &&& gap_ok && indent != Some(true) ==> res == Ok::<bool, std::fmt::Error>(false)
    &&& gap_ok && indent == Some(true) && one_line == Some(true) ==> res == Ok::<bool, std::fmt::Error>(true)
}

/// Whether the list `n`, written after the gap `loc`, is to be indented: the configuration
/// asks for it, or a trial write put one of its items on a new line.
fn test_indent(n: &Node, f: &String, cfg: &Config, buf: &str, state: &mut State, loc: &Loc, hint: &str) -> (res: Result<bool, std::fmt::Error>)
    ensures
        keeps_scope(*old(state), *final(state)),
        ({
            let fo = cfg.fmt;
            let gap_ok = gap_writable(fo, buf@, old(state).indent_level as int, *loc, f@);
            match *n {
                Node::VarSuffixList(_, suffs) => if suffs@.len() == 0 {
                    res == Ok::<bool, std::fmt::Error>(false)
                } else {
                    list_indent(gap_ok, fo.indent_var_suffix, fo.indent_one_line_var_suffix, res)
                },
                Node::ExpList(_, exprs) => if exprs@.len() == 0 {
                    res == Ok::<bool, std::fmt::Error>(false)
                } else if exprs@.len() == 1 && fo.newline_format_exp_list_first is None {
                    res == Ok::<bool, std::fmt::Error>(fo.indent_exp_list == Some(true) && fo.indent_one_line_exp_list == Some(true))
                } else {
                    list_indent(gap_ok, fo.indent_exp_list, fo.indent_one_line_exp_list, res)
                },
                Node::Fields(_, fields, _) => if fields@.len() == 0 {
                    res == Ok::<bool, std::fmt::Error>(false)
                } else {
                    res is Err <==> !gap_ok
                },
                _ => res == Ok::<bool, std::fmt::Error>(false),
            }
        }),
    decreases n, 10nat,
{
    let fo = &cfg.fmt;
    match n {
        Node::VarSuffixList(_, suffs) => {
            if suffs.len() == 0 {
                return Ok(false);
            }
            let mut test_f = f.clone();
            write_comment_gap(&mut test_f, cfg, buf, state, loc, hint)?;
            if fo.indent_var_suffix != Some(true) {
                return Ok(false);
            }
            if fo.indent_one_line_var_suffix == Some(true) {
                return Ok(true);
            }
            let mut trial = state.clone();
            let r = cfg_write_list(&mut test_f, cfg, buf, &mut trial, n);
            keep_marks(state, trial);
            Ok(matches!(r, Ok(true)))
        },
        Node::ExpList(_, exprs) => {
            if exprs.len() == 0 {
                return Ok(false);
            }
            if exprs.len() == 1 && fo.newline_format_exp_list_first.is_none() {
                return Ok(fo.indent_exp_list == Some(true) && fo.indent_one_line_exp_list == Some(true));
            }
            let mut test_f = f.clone();
            write_comment_gap(&mut test_f, cfg, buf, state, loc, hint)?;
            if fo.indent_exp_list != Some(true) {
                return Ok(false);
            }
            if fo.indent_one_line_exp_list == Some(true) {
                return Ok(true);
            }
            let mut trial = state.clone();
            let r = cfg_write_sep_list(&mut test_f, cfg, buf, &mut trial, n);
            keep_marks(state, trial);
            Ok(matches!(r, Ok(true)))
        },
        Node::Fields(_, fields, _) => {
            if fields.len() == 0 {
                return Ok(false);
            }
            let mut test_f = f.clone();
            write_comment_gap(&mut test_f, cfg, buf, state, loc, hint)?;
            let mut trial = state.clone();
            let r = cfg_write_sep_list(&mut test_f, cfg, buf, &mut trial, n);
            keep_marks(state, trial);
            Ok(matches!(r, Ok(true)))
        },
        _ => Ok(false),
    }
}

fn indent_of(n: &Node, f: &String, cfg: &Config, buf: &str, state: &mut State, loc: &Loc, hint: &str) -> (res: bool)
    ensures
        keeps_scope(*old(state), *final(state)),
        ({
            let fo = cfg.fmt;
            let gap_ok = gap_writable(fo, buf@, old(state).indent_level as int, *loc, f@);
            match *n {
                Node::VarSuffixList(_, suffs) => {
                    &&& suffs@.len() == 0 || !gap_ok || fo.indent_var_suffix != Some(true) ==> !res
                    &&& suffs@.len() > 0 && gap_ok && fo.indent_var_suffix == Some(true)
                        && fo.indent_one_line_var_suffix == Some(true) ==> res
                },
                Node::ExpList(_, exprs) => if exprs@.len() == 1 && fo.newline_format_exp_list_first is None {
                    res == (fo.indent_exp_list == Some(true) && fo.indent_one_line_exp_list == Some(true))
                } else {
                    &&& exprs@.len() == 0 || !gap_ok || fo.indent_exp_list != Some(true) ==> !res
                    &&& exprs@.len() > 0 && gap_ok && fo.indent_exp_list == Some(true)
                        && fo.indent_one_line_exp_list == Some(true) ==> res
                },
                Node::Fields(_, fields, _) => fields@.len() == 0 || !gap_ok ==> !res,
                _ => !res,
            }
        }),
    decreases n, 11nat,
{
    matches!(test_indent(n, f, cfg, buf, state, loc, hint), Ok(true))
}

/// A configuration for the one-line trial of a table constructor, where the configuration
/// asks for one: it writes the table without line feeds and without a trailing separator.
fn test_oneline_table_cfg(node: &Node, cfg: &Config) -> (res: Option<Config>)
    ensures
        res is Some <==> node is TableConstructor && cfg.fmt.max_width is Some
            && cfg.fmt.newline_format_table_constructor is Some && cfg.fmt.force_single_line_table == Some(true),
        res matches Some(c) ==> c == (Config {
            fmt: FormatOpts {
                newline_format_table_constructor: None,
                newline_format_table_field: None,
                write_trailing_field_separator: Some(false),
                ..cfg.fmt
            },
            ..*cfg
        }),
{
    if let Node::TableConstructor(..) = node {
        if cfg.fmt.max_width.is_some() && cfg.fmt.newline_format_table_constructor.is_some()
            && cfg.fmt.force_single_line_table == Some(true) {
            let mut test_cfg = cfg.duplicate();
            test_cfg.fmt.newline_format_table_constructor = None;
            test_cfg.fmt.newline_format_table_field = None;
            test_cfg.fmt.write_trailing_field_separator = Some(false);
            return Some(test_cfg);
        }
    }
    None
}

fn is_if_node(node: &Node) -> (res: bool)
    ensures
        res == (node is IfThen || node is IfThenB || node is IfThenElse || node is IfThenBElse
            || node is IfThenElseB || node is IfThenBElseB || node is IfThenElseIf || node is IfThenBElseIf
            || node is IfThenElseIfElse || node is IfThenBElseIfElse || node is IfThenElseIfElseB
            || node is IfThenBElseIfElseB),
{
    match node {
        Node::IfThen(..) | Node::IfThenB(..) | Node::IfThenElse(..) | Node::IfThenBElse(..) | Node::IfThenElseB(..)
        | Node::IfThenBElseB(..) | Node::IfThenElseIf(..) | Node::IfThenBElseIf(..) | Node::IfThenElseIfElse(..)
        | Node::IfThenBElseIfElse(..) | Node::IfThenElseIfElseB(..) | Node::IfThenBElseIfElseB(..) => true,
        _ => false,
    }
}

fn is_func_body_node(node: &Node) -> (res: bool)
    ensures
        res == (node is FuncBody || node is FuncBodyB || node is FuncPBody || node is FuncPBodyB),
{
    match node {
        Node::FuncBody(..) | Node::FuncBodyB(..) | Node::FuncPBody(..) | Node::FuncPBodyB(..) => true,
        _ => false,
    }
}

/// Writes a node: on one line where the configuration asks for a trial and the trial fits,
/// else as `write_body` does. Under the default options a node whose tokens stand in `buf`
/// where its locations say (`placed`) is written as the text it covers there, character for
/// character, and writing it succeeds where the indentation and function levels leave room
/// for its nesting; on success the indentation state is as it was.
pub fn write_node(node: &Node, f: &mut String, cfg: &Config, buf: &str, state: &mut State) -> (res: Result<(), std::fmt::Error>)
    ensures
        res is Ok ==> keeps_scope(*old(state), *final(state)),
        range_checked(*node) && spec_out_of_range(old(state).pos_range, node_loc(*node)) ==> {
            &&& res is Ok
            &&& final(f)@ == old(f)@ + loc_text(buf@, node_loc(*node))
            &&& *final(state) == *old(state)
        },
        cfg.fmt == FormatOpts::spec_default() && placed(*node, buf@) && res is Ok
            ==> final(f)@ == old(f)@ + buf@.subrange(text_span(*node).0, text_span(*node).1),
        cfg.fmt == FormatOpts::spec_default() && placed(*node, buf@) && res is Ok
            ==> tracks(final(f)@, old(f)@, buf@, text_span(*node).0)
            && cursor(final(f)@, old(f)@, text_span(*node).0) == text_span(*node).1,
        res is Ok && (node is Chunk || node is SheBangChunk) && cfg.fmt.write_newline_at_eof == Some(true)
            ==> ends_with_new_line(final(f)@, indentation(cfg.fmt, old(state).indent_level as int)),
        *node matches Node::Chunk(locl, n, locr) ==> (res is Ok && range_checked(*n)
            && spec_out_of_range(old(state).pos_range, node_loc(*n))
            ==> final(f)@ == chunk_kept(cfg.fmt, buf@, old(state).indent_level as int, locl, loc_text(buf@, node_loc(*n)), locr, old(f)@)),
        res is Ok && end_on_own_line(*node, cfg.fmt) && !spec_out_of_range(old(state).pos_range, node_loc(*node))
            && !(cfg.fmt.max_width is Some && (cfg.fmt.force_single_line_if == Some(true)
                || cfg.fmt.force_single_line_top_level_function == Some(true)
                || cfg.fmt.force_single_line_scoped_function == Some(true)))
            ==> closed_on_line(final(f)@, indentation(cfg.fmt, old(state).indent_level as int), "end"@),
        res is Ok && last_outside(*node, old(state).pos_range) ==> ends_with_text(final(f)@, last_text(*node, buf@)),
        *node matches Node::Chunk(locl, n, locr) ==> (res is Ok && last_outside(*n, old(state).pos_range)
            ==> exists|m: Seq<char>| final(f)@ == #[trigger] chunk_close(cfg.fmt, buf@, old(state).indent_level as int, m + last_text(*n, buf@), locr)),
        *node matches Node::SheBangChunk(_, _, _, b, locr) ==> (res is Ok && last_outside(*b, old(state).pos_range)
            ==> exists|m: Seq<char>| final(f)@ == #[trigger] chunk_close(cfg.fmt, buf@, old(state).indent_level as int, m + last_text(*b, buf@), locr)),
        cfg.fmt == FormatOpts::spec_default() && placed(*node, buf@) && level_room(*old(state), *node) ==> res is Ok,
    decreases node, 5nat,
{
    let fo = &cfg.fmt;
    if let Node::TableConstructor(sp, ..) = node {
        if !test_out_of_range(&state.pos_range, sp) {
            if let Some(test_cfg) = test_oneline_table_cfg(node, cfg) {
                if let Some(line) = test_oneline_body_no_nl(f, &test_cfg, buf, state, node) {
                    state.oneline_tables.push(sp.0);
                    f.append(line.as_str());
                    return Ok(());
                }
            }
        }
    } else if is_if_node(node) {
        if fo.max_width.is_some() && fo.force_single_line_if == Some(true) && fo.newline_format_if.is_some()
            && !test_out_of_range(&state.pos_range, &node_span(node)) {
            let mut test_cfg = cfg.clone();
            test_cfg.fmt.newline_format_if = None;
            if let Some(line) = test_oneline_body_no_nl(f, &test_cfg, buf, state, node) {
                f.append(line.as_str());
                return Ok(());
            }
        }
    } else if is_func_body_node(node) {
        let level_ok = state.function_nested_level == 0 && fo.force_single_line_top_level_function == Some(true)
            || state.function_nested_level > 0 && fo.force_single_line_scoped_function == Some(true);
        if fo.max_width.is_some() && fo.newline_format_function.is_some() && level_ok
            && !test_out_of_range(&state.pos_range, &node_span(node)) {
            let mut test_cfg = cfg.clone();
            test_cfg.fmt.newline_format_function = None;
            if let Some(line) = test_oneline_body_no_nl(f, &test_cfg, buf, state, node) {
                f.append(line.as_str());
                return Ok(());
            }
        }
    }
    let ghost before = f@;
    let r = write_body(node, f, cfg, buf, state);
    proof {
        if cfg.fmt == FormatOpts::spec_default() && placed(*node, buf@) && r is Ok {
            lemma_tracks_text(f@, before, buf@, text_span(*node).0);
        }
    }
    r
}

fn push_equals(f: &mut String, level: usize)
    ensures
        final(f)@ == old(f)@ + equals_signs(level as nat),
{
    let mut i: usize = 0;
    assert(f@ =~= old(f)@ + equals_signs(0));
    while i < level
        invariant
            i <= level,
            f@ == old(f)@ + equals_signs(i as nat),
        decreases level - i,
    {
        proof { reveal_strlit("="); }
        f.append("=");
        i = i + 1;
        assert(f@ =~= old(f)@ + equals_signs(i as nat));
    }
}

/// Whether a node is written as it stands where it lies outside the range of positions to
/// format: every node but the leaves and the chunks.
pub open spec fn range_checked(n: Node) -> bool {
    !(n is Nil || n is False || n is True || n is VarArg || n is Break || n is Numeral || n is NormalStringLiteral
        || n is CharStringLiteral || n is MultiLineStringLiteral || n is Name || n is Semicolon || n is SheBang
        || n is RetStatNone || n is Chunk || n is SheBangChunk)
}

fn checks_range(node: &Node) -> (res: bool)
    ensures
        res == range_checked(*node),
        res ==> text_span(*node) == (node_loc(*node).0 as int, node_loc(*node).1 as int),
{
    match node {
        Node::Nil(..) | Node::False(..) | Node::True(..) | Node::VarArg(..) | Node::Break(..) | Node::Numeral(..)
        | Node::NormalStringLiteral(..) | Node::CharStringLiteral(..) | Node::MultiLineStringLiteral(..)
        | Node::Name(..) | Node::Semicolon(..) | Node::SheBang(..) | Node::RetStatNone(..) | Node::Chunk(..)
        | Node::SheBangChunk(..) => false,
        _ => true,
    }
}

/// Writes a node as the configuration asks: its tokens, the gaps between them with their
/// comments and hints, line feeds and indentation.
#[verifier::spinoff_prover]
#[verifier::rlimit(100)]
pub fn write_body(node: &Node, f: &mut String, cfg: &Config, buf: &str, state: &mut State) -> (res: Result<(), std::fmt::Error>)
    ensures
        res is Ok ==> keeps_scope(*old(state), *final(state)),
        range_checked(*node) && spec_out_of_range(old(state).pos_range, node_loc(*node)) ==> {
            &&& res is Ok
            &&& final(f)@ == old(f)@ + loc_text(buf@, node_loc(*node))
            &&& *final(state) == *old(state)
        },
        cfg.fmt == FormatOpts::spec_default() && placed(*node, buf@) && res is Ok
            ==> tracks(final(f)@, old(f)@, buf@, text_span(*node).0)
            && cursor(final(f)@, old(f)@, text_span(*node).0) == text_span(*node).1,
        res is Ok && (node is Chunk || node is SheBangChunk) && cfg.fmt.write_newline_at_eof == Some(true)
            ==> ends_with_new_line(final(f)@, indentation(cfg.fmt, old(state).indent_level as int)),
        *node matches Node::Chunk(locl, n, locr) ==> (res is Ok && range_checked(*n)
            && spec_out_of_range(old(state).pos_range, node_loc(*n))
            ==> final(f)@ == chunk_kept(cfg.fmt, buf@, old(state).indent_level as int, locl, loc_text(buf@, node_loc(*n)), locr, old(f)@)),
        res is Ok && end_on_own_line(*node, cfg.fmt) && !spec_out_of_range(old(state).pos_range, node_loc(*node))
            ==> closed_on_line(final(f)@, indentation(cfg.fmt, old(state).indent_level as int), "end"@),
        res is Ok && last_outside(*node, old(state).pos_range) ==> ends_with_text(final(f)@, last_text(*node, buf@)),
        *node matches Node::Chunk(locl, n, locr) ==> (res is Ok && last_outside(*n, old(state).pos_range)
            ==> exists|m: Seq<char>| final(f)@ == #[trigger] chunk_close(cfg.fmt, buf@, old(state).indent_level as int, m + last_text(*n, buf@), locr)),
        *node matches Node::SheBangChunk(_, _, _, b, locr) ==> (res is Ok && last_outside(*b, old(state).pos_range)
            ==> exists|m: Seq<char>| final(f)@ == #[trigger] chunk_close(cfg.fmt, buf@, old(state).indent_level as int, m + last_text(*b, buf@), locr)),
        cfg.fmt == FormatOpts::spec_default() && placed(*node, buf@) && level_room(*old(state), *node) ==> res is Ok,
    decreases node, 3nat,
{
    let ghost f0 = f@;
    let ghost a = text_span(*node).0;
    proof {
        if cfg.fmt == FormatOpts::spec_default() && placed(*node, buf@) {
            lemma_placed_span(*node, buf@);
        }
        if 0 <= a <= buf@.len() {
            lemma_tracks_start(f0, buf@, a);
        }
    }
    if checks_range(node) {
        let sp = node_span(node);
        if test_out_of_range(&state.pos_range, &sp) {
            write_raw(f, buf, &sp);
            proof {
                if cfg.fmt == FormatOpts::spec_default() && placed(*node, buf@) {
                    lemma_span_text(buf@, a, text_span(*node).1);
                    lemma_track(f0, buf@.subrange(a, text_span(*node).1), f0, buf@, a);
                }
            }
            return Ok(());
        }
    }
    match node {
        Node::BinaryOp(sp, locs, tok, l, r) => {
            proof {
                if cfg.fmt == FormatOpts::spec_default() && placed(*node, buf@) {
                    assert((text_span(**l).0 == sp.0 as int && placed(**l, buf@))
                        && (gap_at(buf@, locs[0], text_span(**l).1))
                        && (kw_at(buf@, locs[0].1 as int, tok.0@))
                        && (gap_at(buf@, locs[1], locs[0].1 as int + tok.0@.len()))
                        && (text_span(**r).0 == locs[1].1 as int && placed(**r, buf@))
                        && (sp.1 == text_span(**r).1)) by {
                        reveal(placed);
                    }
                }
            }
            let ghost stack = state.stack_indent@;
            let mark = Some(tok.0.clone());
            proof { lemma_inc_then_dec_restores(stack, mark); }
            IncIndent(mark).configured_write(f, cfg, buf, state)?;
            node_step(l, f, cfg, buf, state, Ghost(f0), Ghost(a))?;
            let mut nl1 = cfg.fmt.newline_format_binary_op == Some(1);
            let mut nl2 = cfg.fmt.newline_format_binary_op == Some(2);
            if (nl1 || nl2) && cfg.fmt.force_single_line_binary_op == Some(true) {
                if test_oneline_binop(f, cfg, buf, state, &locs[0], tok.0.as_str(), &locs[1], r).is_some() {
                    nl1 = false;
                    nl2 = false;
                }
            }
            nl_step(f, cfg, buf, state, nl1, &locs[0], " ", Ghost(f0), Ghost(a))?;
            kw_step(f, tok.0.as_str(), Ghost(buf@), Ghost(f0), Ghost(a));
            nl_step(f, cfg, buf, state, nl2, &locs[1], " ", Ghost(f0), Ghost(a))?;
            node_step(r, f, cfg, buf, state, Ghost(f0), Ghost(a))?;
            dec_indent(f, cfg, buf, state)
        },
        Node::Nil(sp) => {
            proof {
                if cfg.fmt == FormatOpts::spec_default() && placed(*node, buf@) {
                    assert((kw_at(buf@, sp.0 as int, "nil"@))
                        && (sp.1 == sp.0 as int + "nil"@.len())) by {
                        reveal(placed);
                    }
                }
            }
            kw_step(f, "nil", Ghost(buf@), Ghost(f0), Ghost(a)); Ok(())
        },
        Node::False(sp) => {
            proof {
                if cfg.fmt == FormatOpts::spec_default() && placed(*node, buf@) {
                    assert((kw_at(buf@, sp.0 as int, "false"@))
                        && (sp.1 == sp.0 as int + "false"@.len())) by {
                        reveal(placed);
                    }
                }
            }
            kw_step(f, "false", Ghost(buf@), Ghost(f0), Ghost(a)); Ok(())
        },
        Node::True(sp) => {
            proof {
                if cfg.fmt == FormatOpts::spec_default() && placed(*node, buf@) {
                    assert((kw_at(buf@, sp.0 as int, "true"@))
                        && (sp.1 == sp.0 as int + "true"@.len())) by {
                        reveal(placed);
                    }
                }
            }
            kw_step(f, "true", Ghost(buf@), Ghost(f0), Ghost(a)); Ok(())
        },
        Node::VarArg(sp) => {
            proof {
                if cfg.fmt == FormatOpts::spec_default() && placed(*node, buf@) {
                    assert((kw_at(buf@, sp.0 as int, "..."@))
                        && (sp.1 == sp.0 as int + "..."@.len())) by {
                        reveal(placed);
                    }
                }
            }
            kw_step(f, "...", Ghost(buf@), Ghost(f0), Ghost(a)); Ok(())
        },
        Node::Break(sp) => {
            proof {
                if cfg.fmt == FormatOpts::spec_default() && placed(*node, buf@) {
                    assert((kw_at(buf@, sp.0 as int, "break"@))
                        && (sp.1 == sp.0 as int + "break"@.len())) by {
                        reveal(placed);
                    }
                }
            }
            kw_step(f, "break", Ghost(buf@), Ghost(f0), Ghost(a)); Ok(())
        },
        Node::Numeral(sp, s) | Node::Name(sp, s) => {
            proof {
                if cfg.fmt == FormatOpts::spec_default() && placed(*node, buf@) {
                    assert((kw_at(buf@, sp.0 as int, s@))
                        && (sp.1 == sp.0 as int + s@.len())) by {
                        reveal(placed);
                    }
                }
            }
            kw_step(f, s.as_str(), Ghost(buf@), Ghost(f0), Ghost(a)); Ok(())
        },
        Node::NormalStringLiteral(sp, s) => {
            proof {
                if cfg.fmt == FormatOpts::spec_default() && placed(*node, buf@) {
                    assert((kw_at(buf@, sp.0 as int, "\""@))
                        && (kw_at(buf@, sp.0 as int + "\""@.len(), s@))
                        && (kw_at(buf@, sp.0 as int + "\""@.len() + s@.len(), "\""@))
                        && (sp.1 == sp.0 as int + "\""@.len() + s@.len() + "\""@.len())) by {
                        reveal(placed);
                    }
                }
            }
            kw_step(f, "\"", Ghost(buf@), Ghost(f0), Ghost(a));
            kw_step(f, s.as_str(), Ghost(buf@), Ghost(f0), Ghost(a));
            kw_step(f, "\"", Ghost(buf@), Ghost(f0), Ghost(a));
            Ok(())
        },
        Node::CharStringLiteral(sp, s) => {
            proof {
                if cfg.fmt == FormatOpts::spec_default() && placed(*node, buf@) {
                    assert((kw_at(buf@, sp.0 as int, "'"@))
                        && (kw_at(buf@, sp.0 as int + "'"@.len(), s@))
                        && (kw_at(buf@, sp.0 as int + "'"@.len() + s@.len(), "'"@))
                        && (sp.1 == sp.0 as int + "'"@.len() + s@.len() + "'"@.len())) by {
                        reveal(placed);
                    }
                }
            }
            kw_step(f, "'", Ghost(buf@), Ghost(f0), Ghost(a));
            kw_step(f, s.as_str(), Ghost(buf@), Ghost(f0), Ghost(a));
            kw_step(f, "'", Ghost(buf@), Ghost(f0), Ghost(a));
            Ok(())
        },
        Node::MultiLineStringLiteral(sp, level, s) => {
            proof {
                if cfg.fmt == FormatOpts::spec_default() && placed(*node, buf@) {
                    assert((kw_at(buf@, sp.0 as int, "["@))
                        && (kw_at(buf@, sp.0 as int + "["@.len(), equals_signs(*level as nat)))
                        && (kw_at(buf@, sp.0 as int + "["@.len() + *level, "["@))
                        && (kw_at(buf@, sp.0 as int + "["@.len() + *level + "["@.len(), s@))
                        && (kw_at(buf@, sp.0 as int + "["@.len() + *level + "["@.len() + s@.len(), "]"@))
                        && (kw_at(buf@, sp.0 as int + "["@.len() + *level + "["@.len() + s@.len() + "]"@.len(), equals_signs(*level as nat)))
                        && (kw_at(buf@, sp.0 as int + "["@.len() + *level + "["@.len() + s@.len() + "]"@.len() + *level, "]"@))
                        && (sp.1 == sp.0 as int + "["@.len() + *level + "["@.len() + s@.len() + "]"@.len() + *level + "]"@.len())) by {
                        reveal(placed);
                    }
                }
            }
            kw_step(f, "[", Ghost(buf@), Ghost(f0), Ghost(a));
            equals_step(f, *level, Ghost(buf@), Ghost(f0), Ghost(a));
            kw_step(f, "[", Ghost(buf@), Ghost(f0), Ghost(a));
            kw_step(f, s.as_str(), Ghost(buf@), Ghost(f0), Ghost(a));
            kw_step(f, "]", Ghost(buf@), Ghost(f0), Ghost(a));
            equals_step(f, *level, Ghost(buf@), Ghost(f0), Ghost(a));
            kw_step(f, "]", Ghost(buf@), Ghost(f0), Ghost(a));
            Ok(())
        },
        Node::TableConstructor(sp, locs, n, opts) => {
            proof {
                if cfg.fmt == FormatOpts::spec_default() && placed(*node, buf@) {
                    assert((kw_at(buf@, sp.0 as int, "{"@))
                        && (gap_at(buf@, locs[0], sp.0 as int + "{"@.len()))
                        && (text_span(**n).0 == locs[0].1 as int && placed(**n, buf@))
                        && (gap_at(buf@, locs[1], text_span(**n).1))
                        && (kw_at(buf@, locs[1].1 as int, "}"@))
                        && (sp.1 == locs[1].1 as int + "}"@.len())) by {
                        reveal(placed);
                    }
                }
            }
            let hint = opt_str(&cfg.fmt.hint_table_constructor);
            let mut nl = cfg.fmt.newline_format_table_constructor == Some(1);
            kw_step(f, "{", Ghost(buf@), Ghost(f0), Ghost(a));
            inc_func(f, cfg, buf, state)?;
            let ind = if cfg.fmt.force_single_line_table == Some(true) && opts.is_iv_table == Some(true)
                && opts.is_single_child == Some(true) {
                indent_of(n, f, cfg, buf, state, &locs[0], hint)
            } else {
                true
            };
            if let Node::Fields(fsp, _, _) = &**n {
                state.indented_fields.push((fsp.0, ind));
            }
            if ind {
                inc_indent(f, cfg, buf, state)?;
            }
            gap_step(f, cfg, buf, state, &locs[0], hint, Ghost(f0), Ghost(a))?;
            node_step(n, f, cfg, buf, state, Ghost(f0), Ghost(a))?;
            match cfg.fmt.max_width {
                Some(w) => if get_len_after_newline(f.as_str(), cfg) >= w {
                    nl = true;
                },
                None => {},
            }
            nl = nl && ind;
            if ind {
                dec_indent(f, cfg, buf, state)?;
            }
            dec_func(f, cfg, buf, state)?;
            nl_step(f, cfg, buf, state, nl, &locs[1], hint, Ghost(f0), Ghost(a))?;
            kw_step(f, "}", Ghost(buf@), Ghost(f0), Ghost(a));
            Ok(())
        },
        Node::TableConstructorEmpty(sp, locs) => {
            proof {
                if cfg.fmt == FormatOpts::spec_default() && placed(*node, buf@) {
                    assert((kw_at(buf@, sp.0 as int, "{"@))
                        && (gap_at(buf@, locs[0], sp.0 as int + "{"@.len()))
                        && (kw_at(buf@, locs[0].1 as int, "}"@))
                        && (sp.1 == locs[0].1 as int + "}"@.len())) by {
                        reveal(placed);
                    }
                }
            }
            let hint = opt_str(&cfg.fmt.hint_table_constructor);
            kw_step(f, "{", Ghost(buf@), Ghost(f0), Ghost(a));
            gap_step(f, cfg, buf, state, &locs[0], hint, Ghost(f0), Ghost(a))?;
            kw_step(f, "}", Ghost(buf@), Ghost(f0), Ghost(a));
            Ok(())
        },
        Node::Fields(..) | Node::ExpList(..) | Node::NameList(..) | Node::VarList(..) | Node::ParList(..)
        | Node::FuncName(..) => {
            cfg_write_sep_list(f, cfg, buf, state, node)?;
            Ok(())
        },
        Node::StatementList(..) | Node::VarSuffixList(..) | Node::ElseIfThenVec(..) => {
            cfg_write_list(f, cfg, buf, state, node)?;
            Ok(())
        },
        Node::FuncNameSelf(sp, locs, _, n) => {
            proof {
                if cfg.fmt == FormatOpts::spec_default() && placed(*node, buf@) {
                    assert((gap_at(buf@, locs[0], locs[0].0 as int))
                        && (kw_at(buf@, locs[0].1 as int, ":"@))
                        && (gap_at(buf@, locs[1], locs[0].1 as int + ":"@.len()))
                        && (text_span(**n).0 == locs[1].1 as int && placed(**n, buf@))
                        && (sp.1 == text_span(**n).1)) by {
                        reveal(placed);
                    }
                }
            }
            cfg_write_sep_list(f, cfg, buf, state, node)?;
            gap_step(f, cfg, buf, state, &locs[0], "", Ghost(f0), Ghost(a))?;
            kw_step(f, ":", Ghost(buf@), Ghost(f0), Ghost(a));
            gap_step(f, cfg, buf, state, &locs[1], "", Ghost(f0), Ghost(a))?;
            node_step(n, f, cfg, buf, state, Ghost(f0), Ghost(a))
        },
        Node::RetStatNone(sp) => {
            proof {
                if cfg.fmt == FormatOpts::spec_default() && placed(*node, buf@) {
                    assert((kw_at(buf@, sp.0 as int, "return"@))
                        && (sp.1 == sp.0 as int + "return"@.len())) by {
                        reveal(placed);
                    }
                }
            }
            kw_step(f, "return", Ghost(buf@), Ghost(f0), Ghost(a)); Ok(())
        },
        Node::Chunk(locl, n, locr) => {
            proof {
                if cfg.fmt == FormatOpts::spec_default() && placed(*node, buf@) {
                    assert((gap_at(buf@, *locl, locl.0 as int))
                        && (text_span(**n).0 == locl.1 as int && placed(**n, buf@))
                        && (gap_at(buf@, *locr, text_span(**n).1))) by {
                        reveal(placed);
                    }
                }
            }
            let nl = cfg.fmt.write_newline_at_eof == Some(true);
            gap_step(f, cfg, buf, state, locl, "", Ghost(f0), Ghost(a))?;
            let ghost after_gap = f@;
            node_step(n, f, cfg, buf, state, Ghost(f0), Ghost(a))?;
            let ghost last = f@;
            let r = nl_step(f, cfg, buf, state, nl, locr, "", Ghost(f0), Ghost(a));
            proof {
                reveal(gap_written);
                if r is Ok && last_outside(**n, state.pos_range) {
                    let lt = last_text(**n, buf@);
                    let m = last.subrange(0, last.len() - lt.len());
                    assert(last =~= m + lt);
                    assert(f@ == chunk_close(cfg.fmt, buf@, state.indent_level as int, m + lt, *locr));
                }
                if r is Ok && range_checked(**n) && spec_out_of_range(state.pos_range, node_loc(**n)) {
                    assert(after_gap == f0 + gap_output(cfg.fmt, loc_text(buf@, *locl), indentation(cfg.fmt, state.indent_level as int), ends_line(f0), ""@));
                    assert(last == after_gap + loc_text(buf@, node_loc(**n)));
                }
                if r is Ok && nl {
                    reveal(gap_written);
                    lemma_newline_gap_ends_line(cfg.fmt, last, loc_text(buf@, *locr), indentation(cfg.fmt, state.indent_level as int));
                }
            }
            r
        },
        Node::SheBangChunk(locl, n, locm, b, locr) => {
            proof {
                if cfg.fmt == FormatOpts::spec_default() && placed(*node, buf@) {
                    assert((gap_at(buf@, *locl, locl.0 as int))
                        && (text_span(**n).0 == locl.1 as int && placed(**n, buf@))
                        && (gap_at(buf@, *locm, text_span(**n).1))
                        && (text_span(**b).0 == locm.1 as int && placed(**b, buf@))
                        && (gap_at(buf@, *locr, text_span(**b).1))) by {
                        reveal(placed);
                    }
                }
            }
            let nl = cfg.fmt.write_newline_at_eof == Some(true);
            gap_step(f, cfg, buf, state, locl, "", Ghost(f0), Ghost(a))?;
            node_step(n, f, cfg, buf, state, Ghost(f0), Ghost(a))?;
            gap_step(f, cfg, buf, state, locm, "", Ghost(f0), Ghost(a))?;
            node_step(b, f, cfg, buf, state, Ghost(f0), Ghost(a))?;
            let ghost last = f@;
            let r = nl_step(f, cfg, buf, state, nl, locr, "", Ghost(f0), Ghost(a));
            proof {
                reveal(gap_written);
                if r is Ok && last_outside(**b, state.pos_range) {
                    let lt = last_text(**b, buf@);
                    let m = last.subrange(0, last.len() - lt.len());
                    assert(last =~= m + lt);
                    assert(f@ == chunk_close(cfg.fmt, buf@, state.indent_level as int, m + lt, *locr));
                }
                if r is Ok && nl {
                    reveal(gap_written);
                    lemma_newline_gap_ends_line(cfg.fmt, last, loc_text(buf@, *locr), indentation(cfg.fmt, state.indent_level as int));
                }
            }
            r
        },
        Node::Semicolon(sp) => {
            proof {
                if cfg.fmt == FormatOpts::spec_default() && placed(*node, buf@) {
                    assert((kw_at(buf@, sp.0 as int, ";"@))
                        && (sp.1 == sp.0 as int + ";"@.len())) by {
                        reveal(placed);
                    }
                }
            }
            kw_step(f, ";", Ghost(buf@), Ghost(f0), Ghost(a)); Ok(())
        },
        Node::SheBang(sp, s) => {
            proof {
                if cfg.fmt == FormatOpts::spec_default() && placed(*node, buf@) {
                    assert((kw_at(buf@, sp.0 as int, s@))
                        && (kw_at(buf@, sp.0 as int + s@.len(), "\n"@))
                        && (sp.1 == sp.0 as int + s@.len() + "\n"@.len())) by {
                        reveal(placed);
                    }
                }
            }
            kw_step(f, s.as_str(), Ghost(buf@), Ghost(f0), Ghost(a));
            kw_step(f, "\n", Ghost(buf@), Ghost(f0), Ghost(a));
            Ok(())
        },
        Node::IfThen(..) | Node::IfThenB(..) | Node::IfThenElse(..) | Node::IfThenBElse(..) | Node::IfThenElseB(..)
        | Node::IfThenBElseB(..) | Node::IfThenElseIf(..) | Node::IfThenBElseIf(..) | Node::IfThenElseIfElse(..)
        | Node::IfThenBElseIfElse(..) | Node::IfThenElseIfElseB(..) | Node::IfThenBElseIfElseB(..)
        | Node::ElseIfThen(..) | Node::ElseIfThenB(..) => write_if_body(node, f, cfg, buf, state),
        Node::ForInt(..) | Node::ForIntB(..) | Node::ForIntStep(..) | Node::ForIntStepB(..) | Node::ForRange(..)
        | Node::ForRangeB(..) | Node::WhileDo(..) | Node::WhileDoB(..) | Node::RepeatUntil(..)
        | Node::RepeatBUntil(..) | Node::DoEnd(..) | Node::DoBEnd(..) => write_loop_body(node, f, cfg, buf, state),
        Node::FunctionDef(..) | Node::FuncBody(..) | Node::FuncBodyB(..) | Node::FuncPBody(..) | Node::FuncPBodyB(..)
        | Node::FuncDecl(..) | Node::LocalFuncDecl(..) | Node::LocalNames(..) | Node::LocalNamesExprs(..)
        | Node::Label(..) | Node::GoTo(..) | Node::RetStatExpr(..) | Node::RetStatNoneComma(..)
        | Node::RetStatExprComma(..) | Node::StatsRetStat(..) | Node::VarsExprs(..) => write_func_body(node, f, cfg, buf, state),
        _ => write_expr_body(node, f, cfg, buf, state),
    }
}

/// Writes the nodes of `if` statements.
#[verifier::spinoff_prover]
#[verifier::rlimit(30)]
fn write_if_body(node: &Node, f: &mut String, cfg: &Config, buf: &str, state: &mut State) -> (res: Result<(), std::fmt::Error>)
    requires
        node is IfThen || node is IfThenB || node is IfThenElse || node is IfThenBElse || node is IfThenElseB || node is IfThenBElseB || node is IfThenElseIf || node is IfThenBElseIf || node is IfThenElseIfElse || node is IfThenBElseIfElse || node is IfThenElseIfElseB || node is IfThenBElseIfElseB || node is ElseIfThen || node is ElseIfThenB,
    ensures
        res is Ok ==> keeps_scope(*old(state), *final(state)),
        cfg.fmt == FormatOpts::spec_default() && placed(*node, buf@) && res is Ok
            ==> tracks(final(f)@, old(f)@, buf@, text_span(*node).0)
            && cursor(final(f)@, old(f)@, text_span(*node).0) == text_span(*node).1,
        cfg.fmt == FormatOpts::spec_default() && placed(*node, buf@) && level_room(*old(state), *node) ==> res is Ok,
        res is Ok && end_on_own_line(*node, cfg.fmt)
            ==> closed_on_line(final(f)@, indentation(cfg.fmt, old(state).indent_level as int), "end"@),
    decreases node, 2nat,
{
    let ghost f0 = f@;
    let ghost a = text_span(*node).0;
    proof {
        if cfg.fmt == FormatOpts::spec_default() && placed(*node, buf@) {
            lemma_placed_span(*node, buf@);
        }
        if 0 <= a <= buf@.len() {
            lemma_tracks_start(f0, buf@, a);
        }
    }
    match node {
        Node::IfThen(sp, locs, e1) => {
            proof {
                if cfg.fmt == FormatOpts::spec_default() && placed(*node, buf@) {
                    assert((kw_at(buf@, sp.0 as int, "if"@))
                        && (gap_at(buf@, locs[0], sp.0 as int + "if"@.len()))
                        && (text_span(**e1).0 == locs[0].1 as int && placed(**e1, buf@))
                        && (gap_at(buf@, locs[1], text_span(**e1).1))
                        && (kw_at(buf@, locs[1].1 as int, "then"@))
                        && (gap_at(buf@, locs[2], locs[1].1 as int + "then"@.len()))
                        && (kw_at(buf@, locs[2].1 as int, "end"@))
                        && (sp.1 == locs[2].1 as int + "end"@.len())) by {
                        reveal(placed);
                    }
                }
            }
            let nl = cfg.fmt.newline_format_if == Some(1);
            kw_step(f, "if", Ghost(buf@), Ghost(f0), Ghost(a));
            gap_step(f, cfg, buf, state, &locs[0], " ", Ghost(f0), Ghost(a))?;
            node_step(e1, f, cfg, buf, state, Ghost(f0), Ghost(a))?;
            gap_step(f, cfg, buf, state, &locs[1], " ", Ghost(f0), Ghost(a))?;
            kw_step(f, "then", Ghost(buf@), Ghost(f0), Ghost(a));
            end_step(f, cfg, buf, state, nl, &locs[2], Ghost(f0), Ghost(a))?;
            Ok(())
        },
        Node::IfThenB(sp, locs, e1, b1) => {
            proof {
                if cfg.fmt == FormatOpts::spec_default() && placed(*node, buf@) {
                    assert((kw_at(buf@, sp.0 as int, "if"@))
                        && (gap_at(buf@, locs[0], sp.0 as int + "if"@.len()))
                        && (text_span(**e1).0 == locs[0].1 as int && placed(**e1, buf@))
                        && (gap_at(buf@, locs[1], text_span(**e1).1))
                        && (kw_at(buf@, locs[1].1 as int, "then"@))
                        && (gap_at(buf@, locs[2], locs[1].1 as int + "then"@.len()))
                        && (text_span(**b1).0 == locs[2].1 as int && placed(**b1, buf@))
                        && (gap_at(buf@, locs[3], text_span(**b1).1))
                        && (kw_at(buf@, locs[3].1 as int, "end"@))
                        && (sp.1 == locs[3].1 as int + "end"@.len())) by {
                        reveal(placed);
                    }
                }
            }
            let nl = cfg.fmt.newline_format_if == Some(1);
            kw_step(f, "if", Ghost(buf@), Ghost(f0), Ghost(a));
            gap_step(f, cfg, buf, state, &locs[0], " ", Ghost(f0), Ghost(a))?;
            node_step(e1, f, cfg, buf, state, Ghost(f0), Ghost(a))?;
            gap_step(f, cfg, buf, state, &locs[1], " ", Ghost(f0), Ghost(a))?;
            kw_step(f, "then", Ghost(buf@), Ghost(f0), Ghost(a));
            inc_indent(f, cfg, buf, state)?;
            nl_step(f, cfg, buf, state, nl, &locs[2], " ", Ghost(f0), Ghost(a))?;
            node_step(b1, f, cfg, buf, state, Ghost(f0), Ghost(a))?;
            dec_indent(f, cfg, buf, state)?;
            end_step(f, cfg, buf, state, nl, &locs[3], Ghost(f0), Ghost(a))?;
            Ok(())
        },
        Node::IfThenElse(sp, locs, e1) => {
            proof {
                if cfg.fmt == FormatOpts::spec_default() && placed(*node, buf@) {
                    assert((kw_at(buf@, sp.0 as int, "if"@))
                        && (gap_at(buf@, locs[0], sp.0 as int + "if"@.len()))
                        && (text_span(**e1).0 == locs[0].1 as int && placed(**e1, buf@))
                        && (gap_at(buf@, locs[1], text_span(**e1).1))
                        && (kw_at(buf@, locs[1].1 as int, "then"@))
                        && (gap_at(buf@, locs[2], locs[1].1 as int + "then"@.len()))
                        && (kw_at(buf@, locs[2].1 as int, "else"@))
                        && (gap_at(buf@, locs[3], locs[2].1 as int + "else"@.len()))
                        && (kw_at(buf@, locs[3].1 as int, "end"@))
                        && (sp.1 == locs[3].1 as int + "end"@.len())) by {
                        reveal(placed);
                    }
                }
            }
            let nl = cfg.fmt.newline_format_if == Some(1);
            kw_step(f, "if", Ghost(buf@), Ghost(f0), Ghost(a));
            gap_step(f, cfg, buf, state, &locs[0], " ", Ghost(f0), Ghost(a))?;
            node_step(e1, f, cfg, buf, state, Ghost(f0), Ghost(a))?;
            gap_step(f, cfg, buf, state, &locs[1], " ", Ghost(f0), Ghost(a))?;
            kw_step(f, "then", Ghost(buf@), Ghost(f0), Ghost(a));
            gap_step(f, cfg, buf, state, &locs[2], " ", Ghost(f0), Ghost(a))?;
            kw_step(f, "else", Ghost(buf@), Ghost(f0), Ghost(a));
            end_step(f, cfg, buf, state, nl, &locs[3], Ghost(f0), Ghost(a))?;
            Ok(())
        },
        Node::IfThenBElse(sp, locs, e1, b1) => {
            proof {
                if cfg.fmt == FormatOpts::spec_default() && placed(*node, buf@) {
                    assert((kw_at(buf@, sp.0 as int, "if"@))
                        && (gap_at(buf@, locs[0], sp.0 as int + "if"@.len()))
                        && (text_span(**e1).0 == locs[0].1 as int && placed(**e1, buf@))
                        && (gap_at(buf@, locs[1], text_span(**e1).1))
                        && (kw_at(buf@, locs[1].1 as int, "then"@))
                        && (gap_at(buf@, locs[2], locs[1].1 as int + "then"@.len()))
                        && (text_span(**b1).0 == locs[2].1 as int && placed(**b1, buf@))
                        && (gap_at(buf@, locs[3], text_span(**b1).1))
                        && (kw_at(buf@, locs[3].1 as int, "else"@))
                        && (gap_at(buf@, locs[4], locs[3].1 as int + "else"@.len()))
                        && (kw_at(buf@, locs[4].1 as int, "end"@))
                        && (sp.1 == locs[4].1 as int + "end"@.len())) by {
                        reveal(placed);
                    }
                }
            }
            let nl = cfg.fmt.newline_format_if == Some(1);
            kw_step(f, "if", Ghost(buf@), Ghost(f0), Ghost(a));
            gap_step(f, cfg, buf, state, &locs[0], " ", Ghost(f0), Ghost(a))?;
            node_step(e1, f, cfg, buf, state, Ghost(f0), Ghost(a))?;
            gap_step(f, cfg, buf, state, &locs[1], " ", Ghost(f0), Ghost(a))?;
            kw_step(f, "then", Ghost(buf@), Ghost(f0), Ghost(a));
            inc_indent(f, cfg, buf, state)?;
            nl_step(f, cfg, buf, state, nl, &locs[2], " ", Ghost(f0), Ghost(a))?;
            node_step(b1, f, cfg, buf, state, Ghost(f0), Ghost(a))?;
            dec_indent(f, cfg, buf, state)?;
            nl_step(f, cfg, buf, state, nl, &locs[3], " ", Ghost(f0), Ghost(a))?;
            kw_step(f, "else", Ghost(buf@), Ghost(f0), Ghost(a));
            end_step(f, cfg, buf, state, nl, &locs[4], Ghost(f0), Ghost(a))?;
            Ok(())
        },
        Node::IfThenElseB(sp, locs, e1, b2) => {
            proof {
                if cfg.fmt == FormatOpts::spec_default() && placed(*node, buf@) {
                    assert((kw_at(buf@, sp.0 as int, "if"@))
                        && (gap_at(buf@, locs[0], sp.0 as int + "if"@.len()))
                        && (text_span(**e1).0 == locs[0].1 as int && placed(**e1, buf@))
                        && (gap_at(buf@, locs[1], text_span(**e1).1))
                        && (kw_at(buf@, locs[1].1 as int, "then"@))
                        && (gap_at(buf@, locs[2], locs[1].1 as int + "then"@.len()))
                        && (kw_at(buf@, locs[2].1 as int, "else"@))
                        && (gap_at(buf@, locs[3], locs[2].1 as int + "else"@.len()))
                        && (text_span(**b2).0 == locs[3].1 as int && placed(**b2, buf@))
                        && (gap_at(buf@, locs[4], text_span(**b2).1))
                        && (kw_at(buf@, locs[4].1 as int, "end"@))
                        && (sp.1 == locs[4].1 as int + "end"@.len())) by {
                        reveal(placed);
                    }
                }
            }
            let nl = cfg.fmt.newline_format_if == Some(1);
            kw_step(f, "if", Ghost(buf@), Ghost(f0), Ghost(a));
            gap_step(f, cfg, buf, state, &locs[0], " ", Ghost(f0), Ghost(a))?;
            node_step(e1, f, cfg, buf, state, Ghost(f0), Ghost(a))?;
            gap_step(f, cfg, buf, state, &locs[1], " ", Ghost(f0), Ghost(a))?;
            kw_step(f, "then", Ghost(buf@), Ghost(f0), Ghost(a));
            gap_step(f, cfg, buf, state, &locs[2], " ", Ghost(f0), Ghost(a))?;
            kw_step(f, "else", Ghost(buf@), Ghost(f0), Ghost(a));
            inc_indent(f, cfg, buf, state)?;
            nl_step(f, cfg, buf, state, nl, &locs[3], " ", Ghost(f0), Ghost(a))?;
            node_step(b2, f, cfg, buf, state, Ghost(f0), Ghost(a))?;
            dec_indent(f, cfg, buf, state)?;
            end_step(f, cfg, buf, state, nl, &locs[4], Ghost(f0), Ghost(a))?;
            Ok(())
        },
        Node::IfThenBElseB(sp, locs, e1, b1, b2) => {
            proof {
                if cfg.fmt == FormatOpts::spec_default() && placed(*node, buf@) {
                    assert((kw_at(buf@, sp.0 as int, "if"@))
                        && (gap_at(buf@, locs[0], sp.0 as int + "if"@.len()))
                        && (text_span(**e1).0 == locs[0].1 as int && placed(**e1, buf@))
                        && (gap_at(buf@, locs[1], text_span(**e1).1))
                        && (kw_at(buf@, locs[1].1 as int, "then"@))
                        && (gap_at(buf@, locs[2], locs[1].1 as int + "then"@.len()))
                        && (text_span(**b1).0 == locs[2].1 as int && placed(**b1, buf@))
                        && (gap_at(buf@, locs[3], text_span(**b1).1))
                        && (kw_at(buf@, locs[3].1 as int, "else"@))
                        && (gap_at(buf@, locs[4], locs[3].1 as int + "else"@.len()))
                        && (text_span(**b2).0 == locs[4].1 as int && placed(**b2, buf@))
                        && (gap_at(buf@, locs[5], text_span(**b2).1))
                        && (kw_at(buf@, locs[5].1 as int, "end"@))
                        && (sp.1 == locs[5].1 as int + "end"@.len())) by {
                        reveal(placed);
                    }
                }
            }
            let nl = cfg.fmt.newline_format_if == Some(1);
            kw_step(f, "if", Ghost(buf@), Ghost(f0), Ghost(a));
            gap_step(f, cfg, buf, state, &locs[0], " ", Ghost(f0), Ghost(a))?;
            node_step(e1, f, cfg, buf, state, Ghost(f0), Ghost(a))?;
            gap_step(f, cfg, buf, state, &locs[1], " ", Ghost(f0), Ghost(a))?;
            kw_step(f, "then", Ghost(buf@), Ghost(f0), Ghost(a));
            inc_indent(f, cfg, buf, state)?;
            nl_step(f, cfg, buf, state, nl, &locs[2], " ", Ghost(f0), Ghost(a))?;
            node_step(b1, f, cfg, buf, state, Ghost(f0), Ghost(a))?;
            dec_indent(f, cfg, buf, state)?;
            nl_step(f, cfg, buf, state, nl, &locs[3], " ", Ghost(f0), Ghost(a))?;
            kw_step(f, "else", Ghost(buf@), Ghost(f0), Ghost(a));
            inc_indent(f, cfg, buf, state)?;
            nl_step(f, cfg, buf, state, nl, &locs[4], " ", Ghost(f0), Ghost(a))?;
            node_step(b2, f, cfg, buf, state, Ghost(f0), Ghost(a))?;
            dec_indent(f, cfg, buf, state)?;
            end_step(f, cfg, buf, state, nl, &locs[5], Ghost(f0), Ghost(a))?;
            Ok(())
        },
        Node::IfThenElseIf(sp, locs, e1, n) => {
            proof {
                if cfg.fmt == FormatOpts::spec_default() && placed(*node, buf@) {
                    assert((kw_at(buf@, sp.0 as int, "if"@))
                        && (gap_at(buf@, locs[0], sp.0 as int + "if"@.len()))
                        && (text_span(**e1).0 == locs[0].1 as int && placed(**e1, buf@))
                        && (gap_at(buf@, locs[1], text_span(**e1).1))
                        && (kw_at(buf@, locs[1].1 as int, "then"@))
                        && (gap_at(buf@, locs[2], locs[1].1 as int + "then"@.len()))
                        && (text_span(**n).0 == locs[2].1 as int && placed(**n, buf@))
                        && (gap_at(buf@, locs[3], text_span(**n).1))
                        && (kw_at(buf@, locs[3].1 as int, "end"@))
                        && (sp.1 == locs[3].1 as int + "end"@.len())) by {
                        reveal(placed);
                    }
                }
            }
            let nl = cfg.fmt.newline_format_if == Some(1);
            kw_step(f, "if", Ghost(buf@), Ghost(f0), Ghost(a));
            gap_step(f, cfg, buf, state, &locs[0], " ", Ghost(f0), Ghost(a))?;
            node_step(e1, f, cfg, buf, state, Ghost(f0), Ghost(a))?;
            gap_step(f, cfg, buf, state, &locs[1], " ", Ghost(f0), Ghost(a))?;
            kw_step(f, "then", Ghost(buf@), Ghost(f0), Ghost(a));
            nl_step(f, cfg, buf, state, nl, &locs[2], " ", Ghost(f0), Ghost(a))?;
            node_step(n, f, cfg, buf, state, Ghost(f0), Ghost(a))?;
            end_step(f, cfg, buf, state, nl, &locs[3], Ghost(f0), Ghost(a))?;
            Ok(())
        },
        Node::IfThenBElseIf(sp, locs, e1, b1, n) => {
            proof {
                if cfg.fmt == FormatOpts::spec_default() && placed(*node, buf@) {
                    assert((kw_at(buf@, sp.0 as int, "if"@))
                        && (gap_at(buf@, locs[0], sp.0 as int + "if"@.len()))
                        && (text_span(**e1).0 == locs[0].1 as int && placed(**e1, buf@))
                        && (gap_at(buf@, locs[1], text_span(**e1).1))
                        && (kw_at(buf@, locs[1].1 as int, "then"@))
                        && (gap_at(buf@, locs[2], locs[1].1 as int + "then"@.len()))
                        && (text_span(**b1).0 == locs[2].1 as int && placed(**b1, buf@))
                        && (gap_at(buf@, locs[3], text_span(**b1).1))
                        && (text_span(**n).0 == locs[3].1 as int && placed(**n, buf@))
                        && (gap_at(buf@, locs[4], text_span(**n).1))
                        && (kw_at(buf@, locs[4].1 as int, "end"@))
                        && (sp.1 == locs[4].1 as int + "end"@.len())) by {
                        reveal(placed);
                    }
                }
            }
            let nl = cfg.fmt.newline_format_if == Some(1);
            kw_step(f, "if", Ghost(buf@), Ghost(f0), Ghost(a));
            gap_step(f, cfg, buf, state, &locs[0], " ", Ghost(f0), Ghost(a))?;
            node_step(e1, f, cfg, buf, state, Ghost(f0), Ghost(a))?;
            gap_step(f, cfg, buf, state, &locs[1], " ", Ghost(f0), Ghost(a))?;
            kw_step(f, "then", Ghost(buf@), Ghost(f0), Ghost(a));
            inc_indent(f, cfg, buf, state)?;
            nl_step(f, cfg, buf, state, nl, &locs[2], " ", Ghost(f0), Ghost(a))?;
            node_step(b1, f, cfg, buf, state, Ghost(f0), Ghost(a))?;
            dec_indent(f, cfg, buf, state)?;
            nl_step(f, cfg, buf, state, nl, &locs[3], " ", Ghost(f0), Ghost(a))?;
            node_step(n, f, cfg, buf, state, Ghost(f0), Ghost(a))?;
            end_step(f, cfg, buf, state, nl, &locs[4], Ghost(f0), Ghost(a))?;
            Ok(())
        },
        Node::IfThenElseIfElse(sp, locs, e1, n) => {
            proof {
                if cfg.fmt == FormatOpts::spec_default() && placed(*node, buf@) {
                    assert((kw_at(buf@, sp.0 as int, "if"@))
                        && (gap_at(buf@, locs[0], sp.0 as int + "if"@.len()))
                        && (text_span(**e1).0 == locs[0].1 as int && placed(**e1, buf@))
                        && (gap_at(buf@, locs[1], text_span(**e1).1))
                        && (kw_at(buf@, locs[1].1 as int, "then"@))
                        && (gap_at(buf@, locs[2], locs[1].1 as int + "then"@.len()))
                        && (text_span(**n).0 == locs[2].1 as int && placed(**n, buf@))
                        && (gap_at(buf@, locs[3], text_span(**n).1))
                        && (kw_at(buf@, locs[3].1 as int, "else"@))
                        && (gap_at(buf@, locs[4], locs[3].1 as int + "else"@.len()))
                        && (kw_at(buf@, locs[4].1 as int, "end"@))
                        && (sp.1 == locs[4].1 as int + "end"@.len())) by {
                        reveal(placed);
                    }
                }
            }
            let nl = cfg.fmt.newline_format_if == Some(1);
            kw_step(f, "if", Ghost(buf@), Ghost(f0), Ghost(a));
            gap_step(f, cfg, buf, state, &locs[0], " ", Ghost(f0), Ghost(a))?;
            node_step(e1, f, cfg, buf, state, Ghost(f0), Ghost(a))?;
            gap_step(f, cfg, buf, state, &locs[1], " ", Ghost(f0), Ghost(a))?;
            kw_step(f, "then", Ghost(buf@), Ghost(f0), Ghost(a));
            nl_step(f, cfg, buf, state, nl, &locs[2], " ", Ghost(f0), Ghost(a))?;
            node_step(n, f, cfg, buf, state, Ghost(f0), Ghost(a))?;
            nl_step(f, cfg, buf, state, nl, &locs[3], " ", Ghost(f0), Ghost(a))?;
            kw_step(f, "else", Ghost(buf@), Ghost(f0), Ghost(a));
            end_step(f, cfg, buf, state, nl, &locs[4], Ghost(f0), Ghost(a))?;
            Ok(())
        },
        Node::IfThenBElseIfElse(sp, locs, e1, b1, n) => {
            proof {
                if cfg.fmt == FormatOpts::spec_default() && placed(*node, buf@) {
                    assert((kw_at(buf@, sp.0 as int, "if"@))
                        && (gap_at(buf@, locs[0], sp.0 as int + "if"@.len()))
                        && (text_span(**e1).0 == locs[0].1 as int && placed(**e1, buf@))
                        && (gap_at(buf@, locs[1], text_span(**e1).1))
                        && (kw_at(buf@, locs[1].1 as int, "then"@))
                        && (gap_at(buf@, locs[2], locs[1].1 as int + "then"@.len()))
                        && (text_span(**b1).0 == locs[2].1 as int && placed(**b1, buf@))
                        && (gap_at(buf@, locs[3], text_span(**b1).1))
                        && (text_span(**n).0 == locs[3].1 as int && placed(**n, buf@))
                        && (gap_at(buf@, locs[4], text_span(**n).1))
                        && (kw_at(buf@, locs[4].1 as int, "else"@))
                        && (gap_at(buf@, locs[5], locs[4].1 as int + "else"@.len()))
                        && (kw_at(buf@, locs[5].1 as int, "end"@))
                        && (sp.1 == locs[5].1 as int + "end"@.len())) by {
                        reveal(placed);
                    }
                }
            }
            let nl = cfg.fmt.newline_format_if == Some(1);
            kw_step(f, "if", Ghost(buf@), Ghost(f0), Ghost(a));
            gap_step(f, cfg, buf, state, &locs[0], " ", Ghost(f0), Ghost(a))?;
            node_step(e1, f, cfg, buf, state, Ghost(f0), Ghost(a))?;
            gap_step(f, cfg, buf, state, &locs[1], " ", Ghost(f0), Ghost(a))?;
            kw_step(f, "then", Ghost(buf@), Ghost(f0), Ghost(a));
            inc_indent(f, cfg, buf, state)?;
            nl_step(f, cfg, buf, state, nl, &locs[2], " ", Ghost(f0), Ghost(a))?;
            node_step(b1, f, cfg, buf, state, Ghost(f0), Ghost(a))?;
            dec_indent(f, cfg, buf, state)?;
            nl_step(f, cfg, buf, state, nl, &locs[3], " ", Ghost(f0), Ghost(a))?;
            node_step(n, f, cfg, buf, state, Ghost(f0), Ghost(a))?;
            nl_step(f, cfg, buf, state, nl, &locs[4], " ", Ghost(f0), Ghost(a))?;
            kw_step(f, "else", Ghost(buf@), Ghost(f0), Ghost(a));
            end_step(f, cfg, buf, state, nl, &locs[5], Ghost(f0), Ghost(a))?;
            Ok(())
        },
        Node::IfThenElseIfElseB(sp, locs, e1, n, b2) => {
            proof {
                if cfg.fmt == FormatOpts::spec_default() && placed(*node, buf@) {
                    assert((kw_at(buf@, sp.0 as int, "if"@))
                        && (gap_at(buf@, locs[0], sp.0 as int + "if"@.len()))
                        && (text_span(**e1).0 == locs[0].1 as int && placed(**e1, buf@))
                        && (gap_at(buf@, locs[1], text_span(**e1).1))
                        && (kw_at(buf@, locs[1].1 as int, "then"@))
                        && (gap_at(buf@, locs[2], locs[1].1 as int + "then"@.len()))
                        && (text_span(**n).0 == locs[2].1 as int && placed(**n, buf@))
                        && (gap_at(buf@, locs[3], text_span(**n).1))
                        && (kw_at(buf@, locs[3].1 as int, "else"@))
                        && (gap_at(buf@, locs[4], locs[3].1 as int + "else"@.len()))
                        && (text_span(**b2).0 == locs[4].1 as int && placed(**b2, buf@))
                        && (gap_at(buf@, locs[5], text_span(**b2).1))
                        && (kw_at(buf@, locs[5].1 as int, "end"@))
                        && (sp.1 == locs[5].1 as int + "end"@.len())) by {
                        reveal(placed);
                    }
                }
            }
            let nl = cfg.fmt.newline_format_if == Some(1);
            kw_step(f, "if", Ghost(buf@), Ghost(f0), Ghost(a));
            gap_step(f, cfg, buf, state, &locs[0], " ", Ghost(f0), Ghost(a))?;
            node_step(e1, f, cfg, buf, state, Ghost(f0), Ghost(a))?;
            gap_step(f, cfg, buf, state, &locs[1], " ", Ghost(f0), Ghost(a))?;
            kw_step(f, "then", Ghost(buf@), Ghost(f0), Ghost(a));
            nl_step(f, cfg, buf, state, nl, &locs[2], " ", Ghost(f0), Ghost(a))?;
            node_step(n, f, cfg, buf, state, Ghost(f0), Ghost(a))?;
            nl_step(f, cfg, buf, state, nl, &locs[3], " ", Ghost(f0), Ghost(a))?;
            kw_step(f, "else", Ghost(buf@), Ghost(f0), Ghost(a));
            inc_indent(f, cfg, buf, state)?;
            nl_step(f, cfg, buf, state, nl, &locs[4], " ", Ghost(f0), Ghost(a))?;
            node_step(b2, f, cfg, buf, state, Ghost(f0), Ghost(a))?;
            dec_indent(f, cfg, buf, state)?;
            end_step(f, cfg, buf, state, nl, &locs[5], Ghost(f0), Ghost(a))?;
            Ok(())
        },
        Node::IfThenBElseIfElseB(sp, locs, e1, b1, n, b2) => {
            proof {
                if cfg.fmt == FormatOpts::spec_default() && placed(*node, buf@) {
                    assert((kw_at(buf@, sp.0 as int, "if"@))
                        && (gap_at(buf@, locs[0], sp.0 as int + "if"@.len()))
                        && (text_span(**e1).0 == locs[0].1 as int && placed(**e1, buf@))
                        && (gap_at(buf@, locs[1], text_span(**e1).1))
                        && (kw_at(buf@, locs[1].1 as int, "then"@))
                        && (gap_at(buf@, locs[2], locs[1].1 as int + "then"@.len()))
                        && (text_span(**b1).0 == locs[2].1 as int && placed(**b1, buf@))
                        && (gap_at(buf@, locs[3], text_span(**b1).1))
                        && (text_span(**n).0 == locs[3].1 as int && placed(**n, buf@))
                        && (gap_at(buf@, locs[4], text_span(**n).1))
                        && (kw_at(buf@, locs[4].1 as int, "else"@))
                        && (gap_at(buf@, locs[5], locs[4].1 as int + "else"@.len()))
                        && (text_span(**b2).0 == locs[5].1 as int && placed(**b2, buf@))
                        && (gap_at(buf@, locs[6], text_span(**b2).1))
                        && (kw_at(buf@, locs[6].1 as int, "end"@))
                        && (sp.1 == locs[6].1 as int + "end"@.len())) by {
                        reveal(placed);
                    }
                }
            }
            let nl = cfg.fmt.newline_format_if == Some(1);
            kw_step(f, "if", Ghost(buf@), Ghost(f0), Ghost(a));
            gap_step(f, cfg, buf, state, &locs[0], " ", Ghost(f0), Ghost(a))?;
            node_step(e1, f, cfg, buf, state, Ghost(f0), Ghost(a))?;
            gap_step(f, cfg, buf, state, &locs[1], " ", Ghost(f0), Ghost(a))?;
            kw_step(f, "then", Ghost(buf@), Ghost(f0), Ghost(a));
            inc_indent(f, cfg, buf, state)?;
            nl_step(f, cfg, buf, state, nl, &locs[2], " ", Ghost(f0), Ghost(a))?;
            node_step(b1, f, cfg, buf, state, Ghost(f0), Ghost(a))?;
            dec_indent(f, cfg, buf, state)?;
            nl_step(f, cfg, buf, state, nl, &locs[3], " ", Ghost(f0), Ghost(a))?;
            node_step(n, f, cfg, buf, state, Ghost(f0), Ghost(a))?;
            nl_step(f, cfg, buf, state, nl, &locs[4], " ", Ghost(f0), Ghost(a))?;
            kw_step(f, "else", Ghost(buf@), Ghost(f0), Ghost(a));
            inc_indent(f, cfg, buf, state)?;
            nl_step(f, cfg, buf, state, nl, &locs[5], " ", Ghost(f0), Ghost(a))?;
            node_step(b2, f, cfg, buf, state, Ghost(f0), Ghost(a))?;
            dec_indent(f, cfg, buf, state)?;
            end_step(f, cfg, buf, state, nl, &locs[6], Ghost(f0), Ghost(a))?;
            Ok(())
        },
        Node::ElseIfThen(sp, locs, e) => {
            proof {
                if cfg.fmt == FormatOpts::spec_default() && placed(*node, buf@) {
                    assert((kw_at(buf@, sp.0 as int, "elseif"@))
                        && (gap_at(buf@, locs[0], sp.0 as int + "elseif"@.len()))
                        && (text_span(**e).0 == locs[0].1 as int && placed(**e, buf@))
                        && (gap_at(buf@, locs[1], text_span(**e).1))
                        && (kw_at(buf@, locs[1].1 as int, "then"@))
                        && (sp.1 == locs[1].1 as int + "then"@.len())) by {
                        reveal(placed);
                    }
                }
            }
            kw_step(f, "elseif", Ghost(buf@), Ghost(f0), Ghost(a));
            gap_step(f, cfg, buf, state, &locs[0], " ", Ghost(f0), Ghost(a))?;
            node_step(e, f, cfg, buf, state, Ghost(f0), Ghost(a))?;
            gap_step(f, cfg, buf, state, &locs[1], " ", Ghost(f0), Ghost(a))?;
            kw_step(f, "then", Ghost(buf@), Ghost(f0), Ghost(a));
            Ok(())
        },
        Node::ElseIfThenB(sp, locs, e, b) => {
            proof {
                if cfg.fmt == FormatOpts::spec_default() && placed(*node, buf@) {
                    assert((kw_at(buf@, sp.0 as int, "elseif"@))
                        && (gap_at(buf@, locs[0], sp.0 as int + "elseif"@.len()))
                        && (text_span(**e).0 == locs[0].1 as int && placed(**e, buf@))
                        && (gap_at(buf@, locs[1], text_span(**e).1))
                        && (kw_at(buf@, locs[1].1 as int, "then"@))
                        && (gap_at(buf@, locs[2], locs[1].1 as int + "then"@.len()))
                        && (text_span(**b).0 == locs[2].1 as int && placed(**b, buf@))
                        && (sp.1 == text_span(**b).1)) by {
                        reveal(placed);
                    }
                }
            }
            let nl = cfg.fmt.newline_format_if == Some(1);
            kw_step(f, "elseif", Ghost(buf@), Ghost(f0), Ghost(a));
            gap_step(f, cfg, buf, state, &locs[0], " ", Ghost(f0), Ghost(a))?;
            node_step(e, f, cfg, buf, state, Ghost(f0), Ghost(a))?;
            gap_step(f, cfg, buf, state, &locs[1], " ", Ghost(f0), Ghost(a))?;
            kw_step(f, "then", Ghost(buf@), Ghost(f0), Ghost(a));
            inc_indent(f, cfg, buf, state)?;
            nl_step(f, cfg, buf, state, nl, &locs[2], " ", Ghost(f0), Ghost(a))?;
            node_step(b, f, cfg, buf, state, Ghost(f0), Ghost(a))?;
            dec_indent(f, cfg, buf, state)?;
            Ok(())
        },
        _ => Ok(()),
    }
}

/// Writes the nodes of loops and `do` blocks.
#[verifier::spinoff_prover]
#[verifier::rlimit(30)]
fn write_loop_body(node: &Node, f: &mut String, cfg: &Config, buf: &str, state: &mut State) -> (res: Result<(), std::fmt::Error>)
    requires
        node is ForInt || node is ForIntB || node is ForIntStep || node is ForIntStepB || node is ForRange || node is ForRangeB || node is WhileDo || node is WhileDoB || node is RepeatUntil || node is RepeatBUntil || node is DoEnd || node is DoBEnd,
    ensures
        res is Ok ==> keeps_scope(*old(state), *final(state)),
        cfg.fmt == FormatOpts::spec_default() && placed(*node, buf@) && res is Ok
            ==> tracks(final(f)@, old(f)@, buf@, text_span(*node).0)
            && cursor(final(f)@, old(f)@, text_span(*node).0) == text_span(*node).1,
        cfg.fmt == FormatOpts::spec_default() && placed(*node, buf@) && level_room(*old(state), *node) ==> res is Ok,
        res is Ok && end_on_own_line(*node, cfg.fmt)
            ==> closed_on_line(final(f)@, indentation(cfg.fmt, old(state).indent_level as int), "end"@),
    decreases node, 2nat,
{
    let ghost f0 = f@;
    let ghost a = text_span(*node).0;
    proof {
        if cfg.fmt == FormatOpts::spec_default() && placed(*node, buf@) {
            lemma_placed_span(*node, buf@);
        }
        if 0 <= a <= buf@.len() {
            lemma_tracks_start(f0, buf@, a);
        }
    }
    match node {
        Node::ForInt(sp, locs, n, e1, e2) => {
            proof {
                if cfg.fmt == FormatOpts::spec_default() && placed(*node, buf@) {
                    assert((kw_at(buf@, sp.0 as int, "for"@))
                        && (gap_at(buf@, locs[0], sp.0 as int + "for"@.len()))
                        && (text_span(**n).0 == locs[0].1 as int && placed(**n, buf@))
                        && (gap_at(buf@, locs[1], text_span(**n).1))
                        && (kw_at(buf@, locs[1].1 as int, "="@))
                        && (gap_at(buf@, locs[2], locs[1].1 as int + "="@.len()))
                        && (text_span(**e1).0 == locs[2].1 as int && placed(**e1, buf@))
                        && (gap_at(buf@, locs[3], text_span(**e1).1))
                        && (kw_at(buf@, locs[3].1 as int, ","@))
                        && (gap_at(buf@, locs[4], locs[3].1 as int + ","@.len()))
                        && (text_span(**e2).0 == locs[4].1 as int && placed(**e2, buf@))
                        && (gap_at(buf@, locs[5], text_span(**e2).1))
                        && (kw_at(buf@, locs[5].1 as int, "do"@))
                        && (gap_at(buf@, locs[6], locs[5].1 as int + "do"@.len()))
                        && (kw_at(buf@, locs[6].1 as int, "end"@))
                        && (sp.1 == locs[6].1 as int + "end"@.len())) by {
                        reveal(placed);
                    }
                }
            }
            kw_step(f, "for", Ghost(buf@), Ghost(f0), Ghost(a));
            gap_step(f, cfg, buf, state, &locs[0], " ", Ghost(f0), Ghost(a))?;
            node_step(n, f, cfg, buf, state, Ghost(f0), Ghost(a))?;
            gap_step(f, cfg, buf, state, &locs[1], " ", Ghost(f0), Ghost(a))?;
            kw_step(f, "=", Ghost(buf@), Ghost(f0), Ghost(a));
            gap_step(f, cfg, buf, state, &locs[2], " ", Ghost(f0), Ghost(a))?;
            node_step(e1, f, cfg, buf, state, Ghost(f0), Ghost(a))?;
            gap_step(f, cfg, buf, state, &locs[3], "", Ghost(f0), Ghost(a))?;
            kw_step(f, ",", Ghost(buf@), Ghost(f0), Ghost(a));
            gap_step(f, cfg, buf, state, &locs[4], " ", Ghost(f0), Ghost(a))?;
            node_step(e2, f, cfg, buf, state, Ghost(f0), Ghost(a))?;
            gap_step(f, cfg, buf, state, &locs[5], " ", Ghost(f0), Ghost(a))?;
            kw_step(f, "do", Ghost(buf@), Ghost(f0), Ghost(a));
            gap_step(f, cfg, buf, state, &locs[6], " ", Ghost(f0), Ghost(a))?;
            kw_step(f, "end", Ghost(buf@), Ghost(f0), Ghost(a));
            Ok(())
        },
        Node::ForIntB(sp, locs, n, e1, e2, b) => {
            proof {
                if cfg.fmt == FormatOpts::spec_default() && placed(*node, buf@) {
                    assert((kw_at(buf@, sp.0 as int, "for"@))
                        && (gap_at(buf@, locs[0], sp.0 as int + "for"@.len()))
                        && (text_span(**n).0 == locs[0].1 as int && placed(**n, buf@))
                        && (gap_at(buf@, locs[1], text_span(**n).1))
                        && (kw_at(buf@, locs[1].1 as int, "="@))
                        && (gap_at(buf@, locs[2], locs[1].1 as int + "="@.len()))
                        && (text_span(**e1).0 == locs[2].1 as int && placed(**e1, buf@))
                        && (gap_at(buf@, locs[3], text_span(**e1).1))
                        && (kw_at(buf@, locs[3].1 as int, ","@))
                        && (gap_at(buf@, locs[4], locs[3].1 as int + ","@.len()))
                        && (text_span(**e2).0 == locs[4].1 as int && placed(**e2, buf@))
                        && (gap_at(buf@, locs[5], text_span(**e2).1))
                        && (kw_at(buf@, locs[5].1 as int, "do"@))
                        && (gap_at(buf@, locs[6], locs[5].1 as int + "do"@.len()))
                        && (text_span(**b).0 == locs[6].1 as int && placed(**b, buf@))
                        && (gap_at(buf@, locs[7], text_span(**b).1))
                        && (kw_at(buf@, locs[7].1 as int, "end"@))
                        && (sp.1 == locs[7].1 as int + "end"@.len())) by {
                        reveal(placed);
                    }
                }
            }
            let nl = cfg.fmt.newline_format_for == Some(1);
            kw_step(f, "for", Ghost(buf@), Ghost(f0), Ghost(a));
            gap_step(f, cfg, buf, state, &locs[0], " ", Ghost(f0), Ghost(a))?;
            node_step(n, f, cfg, buf, state, Ghost(f0), Ghost(a))?;
            gap_step(f, cfg, buf, state, &locs[1], " ", Ghost(f0), Ghost(a))?;
            kw_step(f, "=", Ghost(buf@), Ghost(f0), Ghost(a));
            gap_step(f, cfg, buf, state, &locs[2], " ", Ghost(f0), Ghost(a))?;
            node_step(e1, f, cfg, buf, state, Ghost(f0), Ghost(a))?;
            gap_step(f, cfg, buf, state, &locs[3], "", Ghost(f0), Ghost(a))?;
            kw_step(f, ",", Ghost(buf@), Ghost(f0), Ghost(a));
            gap_step(f, cfg, buf, state, &locs[4], " ", Ghost(f0), Ghost(a))?;
            node_step(e2, f, cfg, buf, state, Ghost(f0), Ghost(a))?;
            gap_step(f, cfg, buf, state, &locs[5], " ", Ghost(f0), Ghost(a))?;
            kw_step(f, "do", Ghost(buf@), Ghost(f0), Ghost(a));
            inc_indent(f, cfg, buf, state)?;
            nl_step(f, cfg, buf, state, nl, &locs[6], " ", Ghost(f0), Ghost(a))?;
            node_step(b, f, cfg, buf, state, Ghost(f0), Ghost(a))?;
            dec_indent(f, cfg, buf, state)?;
            end_step(f, cfg, buf, state, nl, &locs[7], Ghost(f0), Ghost(a))?;
            Ok(())
        },
        Node::ForIntStep(sp, locs, n, e1, e2, e3) => {
            proof {
                if cfg.fmt == FormatOpts::spec_default() && placed(*node, buf@) {
                    assert((kw_at(buf@, sp.0 as int, "for"@))
                        && (gap_at(buf@, locs[0], sp.0 as int + "for"@.len()))
                        && (text_span(**n).0 == locs[0].1 as int && placed(**n, buf@))
                        && (gap_at(buf@, locs[1], text_span(**n).1))
                        && (kw_at(buf@, locs[1].1 as int, "="@))
                        && (gap_at(buf@, locs[2], locs[1].1 as int + "="@.len()))
                        && (text_span(**e1).0 == locs[2].1 as int && placed(**e1, buf@))
                        && (gap_at(buf@, locs[3], text_span(**e1).1))
                        && (kw_at(buf@, locs[3].1 as int, ","@))
                        && (gap_at(buf@, locs[4], locs[3].1 as int + ","@.len()))
                        && (text_span(**e2).0 == locs[4].1 as int && placed(**e2, buf@))
                        && (gap_at(buf@, locs[5], text_span(**e2).1))
                        && (kw_at(buf@, locs[5].1 as int, ","@))
                        && (gap_at(buf@, locs[6], locs[5].1 as int + ","@.len()))
                        && (text_span(**e3).0 == locs[6].1 as int && placed(**e3, buf@))
                        && (gap_at(buf@, locs[7], text_span(**e3).1))
                        && (kw_at(buf@, locs[7].1 as int, "do"@))
                        && (gap_at(buf@, locs[8], locs[7].1 as int + "do"@.len()))
                        && (kw_at(buf@, locs[8].1 as int, "end"@))
                        && (sp.1 == locs[8].1 as int + "end"@.len())) by {
                        reveal(placed);
                    }
                }
            }
            let nl = cfg.fmt.newline_format_for == Some(1);
            kw_step(f, "for", Ghost(buf@), Ghost(f0), Ghost(a));
            gap_step(f, cfg, buf, state, &locs[0], " ", Ghost(f0), Ghost(a))?;
            node_step(n, f, cfg, buf, state, Ghost(f0), Ghost(a))?;
            gap_step(f, cfg, buf, state, &locs[1], " ", Ghost(f0), Ghost(a))?;
            kw_step(f, "=", Ghost(buf@), Ghost(f0), Ghost(a));
            gap_step(f, cfg, buf, state, &locs[2], " ", Ghost(f0), Ghost(a))?;
            node_step(e1, f, cfg, buf, state, Ghost(f0), Ghost(a))?;
            gap_step(f, cfg, buf, state, &locs[3], "", Ghost(f0), Ghost(a))?;
            kw_step(f, ",", Ghost(buf@), Ghost(f0), Ghost(a));
            gap_step(f, cfg, buf, state, &locs[4], " ", Ghost(f0), Ghost(a))?;
            node_step(e2, f, cfg, buf, state, Ghost(f0), Ghost(a))?;
            gap_step(f, cfg, buf, state, &locs[5], "", Ghost(f0), Ghost(a))?;
            kw_step(f, ",", Ghost(buf@), Ghost(f0), Ghost(a));
            gap_step(f, cfg, buf, state, &locs[6], " ", Ghost(f0), Ghost(a))?;
            node_step(e3, f, cfg, buf, state, Ghost(f0), Ghost(a))?;
            gap_step(f, cfg, buf, state, &locs[7], " ", Ghost(f0), Ghost(a))?;
            kw_step(f, "do", Ghost(buf@), Ghost(f0), Ghost(a));
            end_step(f, cfg, buf, state, nl, &locs[8], Ghost(f0), Ghost(a))?;
            Ok(())
        },
        Node::ForIntStepB(sp, locs, n, e1, e2, e3, b) => {
            proof {
                if cfg.fmt == FormatOpts::spec_default() && placed(*node, buf@) {
                    assert((kw_at(buf@, sp.0 as int, "for"@))
                        && (gap_at(buf@, locs[0], sp.0 as int + "for"@.len()))
                        && (text_span(**n).0 == locs[0].1 as int && placed(**n, buf@))
                        && (gap_at(buf@, locs[1], text_span(**n).1))
                        && (kw_at(buf@, locs[1].1 as int, "="@))
                        && (gap_at(buf@, locs[2], locs[1].1 as int + "="@.len()))
                        && (text_span(**e1).0 == locs[2].1 as int && placed(**e1, buf@))
                        && (gap_at(buf@, locs[3], text_span(**e1).1))
                        && (kw_at(buf@, locs[3].1 as int, ","@))
                        && (gap_at(buf@, locs[4], locs[3].1 as int + ","@.len()))
                        && (text_span(**e2).0 == locs[4].1 as int && placed(**e2, buf@))
                        && (gap_at(buf@, locs[5], text_span(**e2).1))
                        && (kw_at(buf@, locs[5].1 as int, ","@))
                        && (gap_at(buf@, locs[6], locs[5].1 as int + ","@.len()))
                        && (text_span(**e3).0 == locs[6].1 as int && placed(**e3, buf@))
                        && (gap_at(buf@, locs[7], text_span(**e3).1))
                        && (kw_at(buf@, locs[7].1 as int, "do"@))
                        && (gap_at(buf@, locs[8], locs[7].1 as int + "do"@.len()))
                        && (text_span(**b).0 == locs[8].1 as int && placed(**b, buf@))
                        && (gap_at(buf@, locs[9], text_span(**b).1))
                        && (kw_at(buf@, locs[9].1 as int, "end"@))
                        && (sp.1 == locs[9].1 as int + "end"@.len())) by {
                        reveal(placed);
                    }
                }
            }
            let nl = cfg.fmt.newline_format_for == Some(1);
            kw_step(f, "for", Ghost(buf@), Ghost(f0), Ghost(a));
            gap_step(f, cfg, buf, state, &locs[0], " ", Ghost(f0), Ghost(a))?;
            node_step(n, f, cfg, buf, state, Ghost(f0), Ghost(a))?;
            gap_step(f, cfg, buf, state, &locs[1], " ", Ghost(f0), Ghost(a))?;
            kw_step(f, "=", Ghost(buf@), Ghost(f0), Ghost(a));
            gap_step(f, cfg, buf, state, &locs[2], " ", Ghost(f0), Ghost(a))?;
            node_step(e1, f, cfg, buf, state, Ghost(f0), Ghost(a))?;
            gap_step(f, cfg, buf, state, &locs[3], "", Ghost(f0), Ghost(a))?;
            kw_step(f, ",", Ghost(buf@), Ghost(f0), Ghost(a));
            gap_step(f, cfg, buf, state, &locs[4], " ", Ghost(f0), Ghost(a))?;
            node_step(e2, f, cfg, buf, state, Ghost(f0), Ghost(a))?;
            gap_step(f, cfg, buf, state, &locs[5], "", Ghost(f0), Ghost(a))?;
            kw_step(f, ",", Ghost(buf@), Ghost(f0), Ghost(a));
            gap_step(f, cfg, buf, state, &locs[6], " ", Ghost(f0), Ghost(a))?;
            node_step(e3, f, cfg, buf, state, Ghost(f0), Ghost(a))?;
            gap_step(f, cfg, buf, state, &locs[7], " ", Ghost(f0), Ghost(a))?;
            kw_step(f, "do", Ghost(buf@), Ghost(f0), Ghost(a));
            inc_indent(f, cfg, buf, state)?;
            nl_step(f, cfg, buf, state, nl, &locs[8], " ", Ghost(f0), Ghost(a))?;
            node_step(b, f, cfg, buf, state, Ghost(f0), Ghost(a))?;
            dec_indent(f, cfg, buf, state)?;
            end_step(f, cfg, buf, state, nl, &locs[9], Ghost(f0), Ghost(a))?;
            Ok(())
        },
        Node::ForRange(sp, locs, n, e) => {
            proof {
                if cfg.fmt == FormatOpts::spec_default() && placed(*node, buf@) {
                    assert((kw_at(buf@, sp.0 as int, "for"@))
                        && (gap_at(buf@, locs[0], sp.0 as int + "for"@.len()))
                        && (text_span(**n).0 == locs[0].1 as int && placed(**n, buf@))
                        && (gap_at(buf@, locs[1], text_span(**n).1))
                        && (kw_at(buf@, locs[1].1 as int, "in"@))
                        && (gap_at(buf@, locs[2], locs[1].1 as int + "in"@.len()))
                        && (text_span(**e).0 == locs[2].1 as int && placed(**e, buf@))
                        && (gap_at(buf@, locs[3], text_span(**e).1))
                        && (kw_at(buf@, locs[3].1 as int, "do"@))
                        && (gap_at(buf@, locs[4], locs[3].1 as int + "do"@.len()))
                        && (kw_at(buf@, locs[4].1 as int, "end"@))
                        && (sp.1 == locs[4].1 as int + "end"@.len())) by {
                        reveal(placed);
                    }
                }
            }
            let nl = cfg.fmt.newline_format_for == Some(1);
            kw_step(f, "for", Ghost(buf@), Ghost(f0), Ghost(a));
            gap_step(f, cfg, buf, state, &locs[0], " ", Ghost(f0), Ghost(a))?;
            node_step(n, f, cfg, buf, state, Ghost(f0), Ghost(a))?;
            gap_step(f, cfg, buf, state, &locs[1], " ", Ghost(f0), Ghost(a))?;
            kw_step(f, "in", Ghost(buf@), Ghost(f0), Ghost(a));
            let ind = indent_of(e, f, cfg, buf, state, &locs[2], " ");
            if ind { inc_indent(f, cfg, buf, state)?; }
            gap_step(f, cfg, buf, state, &locs[2], " ", Ghost(f0), Ghost(a))?;
            node_step(e, f, cfg, buf, state, Ghost(f0), Ghost(a))?;
            if ind { dec_indent(f, cfg, buf, state)?; }
            gap_step(f, cfg, buf, state, &locs[3], " ", Ghost(f0), Ghost(a))?;
            kw_step(f, "do", Ghost(buf@), Ghost(f0), Ghost(a));
            end_step(f, cfg, buf, state, nl, &locs[4], Ghost(f0), Ghost(a))?;
            Ok(())
        },
        Node::ForRangeB(sp, locs, n, e, b) => {
            proof {
                if cfg.fmt == FormatOpts::spec_default() && placed(*node, buf@) {
                    assert((kw_at(buf@, sp.0 as int, "for"@))
                        && (gap_at(buf@, locs[0], sp.0 as int + "for"@.len()))
                        && (text_span(**n).0 == locs[0].1 as int && placed(**n, buf@))
                        && (gap_at(buf@, locs[1], text_span(**n).1))
                        && (kw_at(buf@, locs[1].1 as int, "in"@))
                        && (gap_at(buf@, locs[2], locs[1].1 as int + "in"@.len()))
                        && (text_span(**e).0 == locs[2].1 as int && placed(**e, buf@))
                        && (gap_at(buf@, locs[3], text_span(**e).1))
                        && (kw_at(buf@, locs[3].1 as int, "do"@))
                        && (gap_at(buf@, locs[4], locs[3].1 as int + "do"@.len()))
                        && (text_span(**b).0 == locs[4].1 as int && placed(**b, buf@))
                        && (gap_at(buf@, locs[5], text_span(**b).1))
                        && (kw_at(buf@, locs[5].1 as int, "end"@))
                        && (sp.1 == locs[5].1 as int + "end"@.len())) by {
                        reveal(placed);
                    }
                }
            }
            let nl = cfg.fmt.newline_format_for == Some(1);
            kw_step(f, "for", Ghost(buf@), Ghost(f0), Ghost(a));
            gap_step(f, cfg, buf, state, &locs[0], " ", Ghost(f0), Ghost(a))?;
            node_step(n, f, cfg, buf, state, Ghost(f0), Ghost(a))?;
            gap_step(f, cfg, buf, state, &locs[1], " ", Ghost(f0), Ghost(a))?;
            kw_step(f, "in", Ghost(buf@), Ghost(f0), Ghost(a));
            let ind = indent_of(e, f, cfg, buf, state, &locs[2], " ");
            if ind { inc_indent(f, cfg, buf, state)?; }
            gap_step(f, cfg, buf, state, &locs[2], " ", Ghost(f0), Ghost(a))?;
            node_step(e, f, cfg, buf, state, Ghost(f0), Ghost(a))?;
            if ind { dec_indent(f, cfg, buf, state)?; }
            gap_step(f, cfg, buf, state, &locs[3], " ", Ghost(f0), Ghost(a))?;
            kw_step(f, "do", Ghost(buf@), Ghost(f0), Ghost(a));
            inc_indent(f, cfg, buf, state)?;
            nl_step(f, cfg, buf, state, nl, &locs[4], " ", Ghost(f0), Ghost(a))?;
            node_step(b, f, cfg, buf, state, Ghost(f0), Ghost(a))?;
            dec_indent(f, cfg, buf, state)?;
            end_step(f, cfg, buf, state, nl, &locs[5], Ghost(f0), Ghost(a))?;
            Ok(())
        },
        Node::WhileDo(sp, locs, e) => {
            proof {
                if cfg.fmt == FormatOpts::spec_default() && placed(*node, buf@) {
                    assert((kw_at(buf@, sp.0 as int, "while"@))
                        && (gap_at(buf@, locs[0], sp.0 as int + "while"@.len()))
                        && (text_span(**e).0 == locs[0].1 as int && placed(**e, buf@))
                        && (gap_at(buf@, locs[1], text_span(**e).1))
                        && (kw_at(buf@, locs[1].1 as int, "do"@))
                        && (gap_at(buf@, locs[2], locs[1].1 as int + "do"@.len()))
                        && (kw_at(buf@, locs[2].1 as int, "end"@))
                        && (sp.1 == locs[2].1 as int + "end"@.len())) by {
                        reveal(placed);
                    }
                }
            }
            let nl = cfg.fmt.newline_format_while == Some(1);
            kw_step(f, "while", Ghost(buf@), Ghost(f0), Ghost(a));
            gap_step(f, cfg, buf, state, &locs[0], " ", Ghost(f0), Ghost(a))?;
            node_step(e, f, cfg, buf, state, Ghost(f0), Ghost(a))?;
            gap_step(f, cfg, buf, state, &locs[1], " ", Ghost(f0), Ghost(a))?;
            kw_step(f, "do", Ghost(buf@), Ghost(f0), Ghost(a));
            end_step(f, cfg, buf, state, nl, &locs[2], Ghost(f0), Ghost(a))?;
            Ok(())
        },
        Node::WhileDoB(sp, locs, e, n) => {
            proof {
                if cfg.fmt == FormatOpts::spec_default() && placed(*node, buf@) {
                    assert((kw_at(buf@, sp.0 as int, "while"@))
                        && (gap_at(buf@, locs[0], sp.0 as int + "while"@.len()))
                        && (text_span(**e).0 == locs[0].1 as int && placed(**e, buf@))
                        && (gap_at(buf@, locs[1], text_span(**e).1))
                        && (kw_at(buf@, locs[1].1 as int, "do"@))
                        && (gap_at(buf@, locs[2], locs[1].1 as int + "do"@.len()))
                        && (text_span(**n).0 == locs[2].1 as int && placed(**n, buf@))
                        && (gap_at(buf@, locs[3], text_span(**n).1))
                        && (kw_at(buf@, locs[3].1 as int, "end"@))
                        && (sp.1 == locs[3].1 as int + "end"@.len())) by {
                        reveal(placed);
                    }
                }
            }
            let nl = cfg.fmt.newline_format_while == Some(1);
            kw_step(f, "while", Ghost(buf@), Ghost(f0), Ghost(a));
            gap_step(f, cfg, buf, state, &locs[0], " ", Ghost(f0), Ghost(a))?;
            node_step(e, f, cfg, buf, state, Ghost(f0), Ghost(a))?;
            gap_step(f, cfg, buf, state, &locs[1], " ", Ghost(f0), Ghost(a))?;
            kw_step(f, "do", Ghost(buf@), Ghost(f0), Ghost(a));
            inc_indent(f, cfg, buf, state)?;
            nl_step(f, cfg, buf, state, nl, &locs[2], " ", Ghost(f0), Ghost(a))?;
            node_step(n, f, cfg, buf, state, Ghost(f0), Ghost(a))?;
            dec_indent(f, cfg, buf, state)?;
            end_step(f, cfg, buf, state, nl, &locs[3], Ghost(f0), Ghost(a))?;
            Ok(())
        },
        Node::RepeatUntil(sp, locs, e) => {
            proof {
                if cfg.fmt == FormatOpts::spec_default() && placed(*node, buf@) {
                    assert((kw_at(buf@, sp.0 as int, "repeat"@))
                        && (gap_at(buf@, locs[0], sp.0 as int + "repeat"@.len()))
                        && (kw_at(buf@, locs[0].1 as int, "until"@))
                        && (gap_at(buf@, locs[1], locs[0].1 as int + "until"@.len()))
                        && (text_span(**e).0 == locs[1].1 as int && placed(**e, buf@))
                        && (sp.1 == text_span(**e).1)) by {
                        reveal(placed);
                    }
                }
            }
            let nl = cfg.fmt.newline_format_repeat_until == Some(1);
            kw_step(f, "repeat", Ghost(buf@), Ghost(f0), Ghost(a));
            nl_step(f, cfg, buf, state, nl, &locs[0], " ", Ghost(f0), Ghost(a))?;
            kw_step(f, "until", Ghost(buf@), Ghost(f0), Ghost(a));
            gap_step(f, cfg, buf, state, &locs[1], " ", Ghost(f0), Ghost(a))?;
            node_step(e, f, cfg, buf, state, Ghost(f0), Ghost(a))?;
            Ok(())
        },
        Node::RepeatBUntil(sp, locs, b, e) => {
            proof {
                if cfg.fmt == FormatOpts::spec_default() && placed(*node, buf@) {
                    assert((kw_at(buf@, sp.0 as int, "repeat"@))
                        && (gap_at(buf@, locs[0], sp.0 as int + "repeat"@.len()))
                        && (text_span(**b).0 == locs[0].1 as int && placed(**b, buf@))
                        && (gap_at(buf@, locs[1], text_span(**b).1))
                        && (kw_at(buf@, locs[1].1 as int, "until"@))
                        && (gap_at(buf@, locs[2], locs[1].1 as int + "until"@.len()))
                        && (text_span(**e).0 == locs[2].1 as int && placed(**e, buf@))
                        && (sp.1 == text_span(**e).1)) by {
                        reveal(placed);
                    }
                }
            }
            let nl = cfg.fmt.newline_format_repeat_until == Some(1);
            kw_step(f, "repeat", Ghost(buf@), Ghost(f0), Ghost(a));
            inc_indent(f, cfg, buf, state)?;
            nl_step(f, cfg, buf, state, nl, &locs[0], " ", Ghost(f0), Ghost(a))?;
            node_step(b, f, cfg, buf, state, Ghost(f0), Ghost(a))?;
            dec_indent(f, cfg, buf, state)?;
            nl_step(f, cfg, buf, state, nl, &locs[1], " ", Ghost(f0), Ghost(a))?;
            kw_step(f, "until", Ghost(buf@), Ghost(f0), Ghost(a));
            gap_step(f, cfg, buf, state, &locs[2], " ", Ghost(f0), Ghost(a))?;
            node_step(e, f, cfg, buf, state, Ghost(f0), Ghost(a))?;
            Ok(())
        },
        Node::DoEnd(sp, locs) => {
            proof {
                if cfg.fmt == FormatOpts::spec_default() && placed(*node, buf@) {
                    assert((kw_at(buf@, sp.0 as int, "do"@))
                        && (gap_at(buf@, locs[0], sp.0 as int + "do"@.len()))
                        && (kw_at(buf@, locs[0].1 as int, "end"@))
                        && (sp.1 == locs[0].1 as int + "end"@.len())) by {
                        reveal(placed);
                    }
                }
            }
            kw_step(f, "do", Ghost(buf@), Ghost(f0), Ghost(a));
            gap_step(f, cfg, buf, state, &locs[0], " ", Ghost(f0), Ghost(a))?;
            kw_step(f, "end", Ghost(buf@), Ghost(f0), Ghost(a));
            Ok(())
        },
        Node::DoBEnd(sp, locs, b) => {
            proof {
                if cfg.fmt == FormatOpts::spec_default() && placed(*node, buf@) {
                    assert((kw_at(buf@, sp.0 as int, "do"@))
                        && (gap_at(buf@, locs[0], sp.0 as int + "do"@.len()))
                        && (text_span(**b).0 == locs[0].1 as int && placed(**b, buf@))
                        && (gap_at(buf@, locs[1], text_span(**b).1))
                        && (kw_at(buf@, locs[1].1 as int, "end"@))
                        && (sp.1 == locs[1].1 as int + "end"@.len())) by {
                        reveal(placed);
                    }
                }
            }
            let nl = cfg.fmt.newline_format_do_end == Some(1);
            kw_step(f, "do", Ghost(buf@), Ghost(f0), Ghost(a));
            inc_indent(f, cfg, buf, state)?;
            nl_step(f, cfg, buf, state, nl, &locs[0], " ", Ghost(f0), Ghost(a))?;
            node_step(b, f, cfg, buf, state, Ghost(f0), Ghost(a))?;
            dec_indent(f, cfg, buf, state)?;
            end_step(f, cfg, buf, state, nl, &locs[1], Ghost(f0), Ghost(a))?;
            Ok(())
        },
        _ => Ok(()),
    }
}

/// Writes the nodes of functions, declarations and other statements.
#[verifier::spinoff_prover]
#[verifier::rlimit(30)]
fn write_func_body(node: &Node, f: &mut String, cfg: &Config, buf: &str, state: &mut State) -> (res: Result<(), std::fmt::Error>)
    requires
        node is FunctionDef || node is FuncBody || node is FuncBodyB || node is FuncPBody || node is FuncPBodyB || node is FuncDecl || node is LocalFuncDecl || node is LocalNames || node is LocalNamesExprs || node is Label || node is GoTo || node is RetStatExpr || node is RetStatNoneComma || node is RetStatExprComma || node is StatsRetStat || node is VarsExprs,
    ensures
        res is Ok ==> keeps_scope(*old(state), *final(state)),
        cfg.fmt == FormatOpts::spec_default() && placed(*node, buf@) && res is Ok
            ==> tracks(final(f)@, old(f)@, buf@, text_span(*node).0)
            && cursor(final(f)@, old(f)@, text_span(*node).0) == text_span(*node).1,
        cfg.fmt == FormatOpts::spec_default() && placed(*node, buf@) && level_room(*old(state), *node) ==> res is Ok,
        res is Ok && end_on_own_line(*node, cfg.fmt)
            ==> closed_on_line(final(f)@, indentation(cfg.fmt, old(state).indent_level as int), "end"@),
    decreases node, 2nat,
{
    let ghost f0 = f@;
    let ghost a = text_span(*node).0;
    proof {
        if cfg.fmt == FormatOpts::spec_default() && placed(*node, buf@) {
            lemma_placed_span(*node, buf@);
        }
        if 0 <= a <= buf@.len() {
            lemma_tracks_start(f0, buf@, a);
        }
    }
    match node {
        Node::FunctionDef(sp, locs, n) => {
            proof {
                if cfg.fmt == FormatOpts::spec_default() && placed(*node, buf@) {
                    assert((kw_at(buf@, sp.0 as int, "function"@))
                        && (gap_at(buf@, locs[0], sp.0 as int + "function"@.len()))
                        && (text_span(**n).0 == locs[0].1 as int && placed(**n, buf@))
                        && (sp.1 == text_span(**n).1)) by {
                        reveal(placed);
                    }
                }
            }
            kw_step(f, "function", Ghost(buf@), Ghost(f0), Ghost(a));
            gap_step(f, cfg, buf, state, &locs[0], "", Ghost(f0), Ghost(a))?;
            node_step(n, f, cfg, buf, state, Ghost(f0), Ghost(a))?;
            Ok(())
        },
        Node::FuncBody(sp, locs) => {
            proof {
                if cfg.fmt == FormatOpts::spec_default() && placed(*node, buf@) {
                    assert((kw_at(buf@, sp.0 as int, "("@))
                        && (gap_at(buf@, locs[0], sp.0 as int + "("@.len()))
                        && (kw_at(buf@, locs[0].1 as int, ")"@))
                        && (gap_at(buf@, locs[1], locs[0].1 as int + ")"@.len()))
                        && (kw_at(buf@, locs[1].1 as int, "end"@))
                        && (sp.1 == locs[1].1 as int + "end"@.len())) by {
                        reveal(placed);
                    }
                }
            }
            let nl = cfg.fmt.newline_format_function == Some(1);
            kw_step(f, "(", Ghost(buf@), Ghost(f0), Ghost(a));
            gap_step(f, cfg, buf, state, &locs[0], "", Ghost(f0), Ghost(a))?;
            kw_step(f, ")", Ghost(buf@), Ghost(f0), Ghost(a));
            end_step(f, cfg, buf, state, nl, &locs[1], Ghost(f0), Ghost(a))?;
            Ok(())
        },
        Node::FuncBodyB(sp, locs, n2) => {
            proof {
                if cfg.fmt == FormatOpts::spec_default() && placed(*node, buf@) {
                    assert((kw_at(buf@, sp.0 as int, "("@))
                        && (gap_at(buf@, locs[0], sp.0 as int + "("@.len()))
                        && (kw_at(buf@, locs[0].1 as int, ")"@))
                        && (gap_at(buf@, locs[1], locs[0].1 as int + ")"@.len()))
                        && (text_span(**n2).0 == locs[1].1 as int && placed(**n2, buf@))
                        && (gap_at(buf@, locs[2], text_span(**n2).1))
                        && (kw_at(buf@, locs[2].1 as int, "end"@))
                        && (sp.1 == locs[2].1 as int + "end"@.len())) by {
                        reveal(placed);
                    }
                }
            }
            let nl = cfg.fmt.newline_format_function == Some(1);
            kw_step(f, "(", Ghost(buf@), Ghost(f0), Ghost(a));
            gap_step(f, cfg, buf, state, &locs[0], "", Ghost(f0), Ghost(a))?;
            kw_step(f, ")", Ghost(buf@), Ghost(f0), Ghost(a));
            inc_indent(f, cfg, buf, state)?;
            inc_func(f, cfg, buf, state)?;
            nl_step(f, cfg, buf, state, nl, &locs[1], " ", Ghost(f0), Ghost(a))?;
            node_step(n2, f, cfg, buf, state, Ghost(f0), Ghost(a))?;
            dec_indent(f, cfg, buf, state)?;
            dec_func(f, cfg, buf, state)?;
            end_step(f, cfg, buf, state, nl, &locs[2], Ghost(f0), Ghost(a))?;
            Ok(())
        },
        Node::FuncPBody(sp, locs, n1) => {
            proof {
                if cfg.fmt == FormatOpts::spec_default() && placed(*node, buf@) {
                    assert((kw_at(buf@, sp.0 as int, "("@))
                        && (gap_at(buf@, locs[0], sp.0 as int + "("@.len()))
                        && (text_span(**n1).0 == locs[0].1 as int && placed(**n1, buf@))
                        && (gap_at(buf@, locs[1], text_span(**n1).1))
                        && (kw_at(buf@, locs[1].1 as int, ")"@))
                        && (gap_at(buf@, locs[2], locs[1].1 as int + ")"@.len()))
                        && (kw_at(buf@, locs[2].1 as int, "end"@))
                        && (sp.1 == locs[2].1 as int + "end"@.len())) by {
                        reveal(placed);
                    }
                }
            }
            let nl = cfg.fmt.newline_format_function == Some(1);
            kw_step(f, "(", Ghost(buf@), Ghost(f0), Ghost(a));
            inc_indent(f, cfg, buf, state)?;
            gap_step(f, cfg, buf, state, &locs[0], "", Ghost(f0), Ghost(a))?;
            node_step(n1, f, cfg, buf, state, Ghost(f0), Ghost(a))?;
            gap_step(f, cfg, buf, state, &locs[1], "", Ghost(f0), Ghost(a))?;
            dec_indent(f, cfg, buf, state)?;
            kw_step(f, ")", Ghost(buf@), Ghost(f0), Ghost(a));
            end_step(f, cfg, buf, state, nl, &locs[2], Ghost(f0), Ghost(a))?;
            Ok(())
        },
        Node::FuncPBodyB(sp, locs, n1, n2) => {
            proof {
                if cfg.fmt == FormatOpts::spec_default() && placed(*node, buf@) {
                    assert((kw_at(buf@, sp.0 as int, "("@))
                        && (gap_at(buf@, locs[0], sp.0 as int + "("@.len()))
                        && (text_span(**n1).0 == locs[0].1 as int && placed(**n1, buf@))
                        && (gap_at(buf@, locs[1], text_span(**n1).1))
                        && (kw_at(buf@, locs[1].1 as int, ")"@))
                        && (gap_at(buf@, locs[2], locs[1].1 as int + ")"@.len()))
                        && (text_span(**n2).0 == locs[2].1 as int && placed(**n2, buf@))
                        && (gap_at(buf@, locs[3], text_span(**n2).1))
                        && (kw_at(buf@, locs[3].1 as int, "end"@))
                        && (sp.1 == locs[3].1 as int + "end"@.len())) by {
                        reveal(placed);
                    }
                }
            }
            let nl = cfg.fmt.newline_format_function == Some(1);
            kw_step(f, "(", Ghost(buf@), Ghost(f0), Ghost(a));
            inc_indent(f, cfg, buf, state)?;
            gap_step(f, cfg, buf, state, &locs[0], "", Ghost(f0), Ghost(a))?;
            node_step(n1, f, cfg, buf, state, Ghost(f0), Ghost(a))?;
            gap_step(f, cfg, buf, state, &locs[1], "", Ghost(f0), Ghost(a))?;
            dec_indent(f, cfg, buf, state)?;
            kw_step(f, ")", Ghost(buf@), Ghost(f0), Ghost(a));
            inc_indent(f, cfg, buf, state)?;
            inc_func(f, cfg, buf, state)?;
            nl_step(f, cfg, buf, state, nl, &locs[2], " ", Ghost(f0), Ghost(a))?;
            node_step(n2, f, cfg, buf, state, Ghost(f0), Ghost(a))?;
            dec_indent(f, cfg, buf, state)?;
            dec_func(f, cfg, buf, state)?;
            end_step(f, cfg, buf, state, nl, &locs[3], Ghost(f0), Ghost(a))?;
            Ok(())
        },
        Node::FuncDecl(sp, locs, n1, n2) => {
            proof {
                if cfg.fmt == FormatOpts::spec_default() && placed(*node, buf@) {
                    assert((kw_at(buf@, sp.0 as int, "function"@))
                        && (gap_at(buf@, locs[0], sp.0 as int + "function"@.len()))
                        && (text_span(**n1).0 == locs[0].1 as int && placed(**n1, buf@))
                        && (gap_at(buf@, locs[1], text_span(**n1).1))
                        && (text_span(**n2).0 == locs[1].1 as int && placed(**n2, buf@))
                        && (sp.1 == text_span(**n2).1)) by {
                        reveal(placed);
                    }
                }
            }
            kw_step(f, "function", Ghost(buf@), Ghost(f0), Ghost(a));
            gap_step(f, cfg, buf, state, &locs[0], " ", Ghost(f0), Ghost(a))?;
            node_step(n1, f, cfg, buf, state, Ghost(f0), Ghost(a))?;
            gap_step(f, cfg, buf, state, &locs[1], "", Ghost(f0), Ghost(a))?;
            node_step(n2, f, cfg, buf, state, Ghost(f0), Ghost(a))?;
            Ok(())
        },
        Node::LocalFuncDecl(sp, locs, n1, n2) => {
            proof {
                if cfg.fmt == FormatOpts::spec_default() && placed(*node, buf@) {
                    assert((kw_at(buf@, sp.0 as int, "local"@))
                        && (gap_at(buf@, locs[0], sp.0 as int + "local"@.len()))
                        && (kw_at(buf@, locs[0].1 as int, "function"@))
                        && (gap_at(buf@, locs[1], locs[0].1 as int + "function"@.len()))
                        && (text_span(**n1).0 == locs[1].1 as int && placed(**n1, buf@))
                        && (gap_at(buf@, locs[2], text_span(**n1).1))
                        && (text_span(**n2).0 == locs[2].1 as int && placed(**n2, buf@))
                        && (sp.1 == text_span(**n2).1)) by {
                        reveal(placed);
                    }
                }
            }
            kw_step(f, "local", Ghost(buf@), Ghost(f0), Ghost(a));
            gap_step(f, cfg, buf, state, &locs[0], " ", Ghost(f0), Ghost(a))?;
            kw_step(f, "function", Ghost(buf@), Ghost(f0), Ghost(a));
            gap_step(f, cfg, buf, state, &locs[1], " ", Ghost(f0), Ghost(a))?;
            node_step(n1, f, cfg, buf, state, Ghost(f0), Ghost(a))?;
            gap_step(f, cfg, buf, state, &locs[2], "", Ghost(f0), Ghost(a))?;
            node_step(n2, f, cfg, buf, state, Ghost(f0), Ghost(a))?;
            Ok(())
        },
        Node::LocalNames(sp, locs, n) => {
            proof {
                if cfg.fmt == FormatOpts::spec_default() && placed(*node, buf@) {
                    assert((kw_at(buf@, sp.0 as int, "local"@))
                        && (gap_at(buf@, locs[0], sp.0 as int + "local"@.len()))
                        && (text_span(**n).0 == locs[0].1 as int && placed(**n, buf@))
                        && (sp.1 == text_span(**n).1)) by {
                        reveal(placed);
                    }
                }
            }
            kw_step(f, "local", Ghost(buf@), Ghost(f0), Ghost(a));
            gap_step(f, cfg, buf, state, &locs[0], " ", Ghost(f0), Ghost(a))?;
            node_step(n, f, cfg, buf, state, Ghost(f0), Ghost(a))?;
            Ok(())
        },
        Node::LocalNamesExprs(sp, locs, n1, n2) => {
            proof {
                if cfg.fmt == FormatOpts::spec_default() && placed(*node, buf@) {
                    assert((kw_at(buf@, sp.0 as int, "local"@))
                        && (gap_at(buf@, locs[0], sp.0 as int + "local"@.len()))
                        && (text_span(**n1).0 == locs[0].1 as int && placed(**n1, buf@))
                        && (gap_at(buf@, locs[1], text_span(**n1).1))
                        && (kw_at(buf@, locs[1].1 as int, "="@))
                        && (gap_at(buf@, locs[2], locs[1].1 as int + "="@.len()))
                        && (text_span(**n2).0 == locs[2].1 as int && placed(**n2, buf@))
                        && (sp.1 == text_span(**n2).1)) by {
                        reveal(placed);
                    }
                }
            }
            kw_step(f, "local", Ghost(buf@), Ghost(f0), Ghost(a));
            gap_step(f, cfg, buf, state, &locs[0], " ", Ghost(f0), Ghost(a))?;
            node_step(n1, f, cfg, buf, state, Ghost(f0), Ghost(a))?;
            gap_step(f, cfg, buf, state, &locs[1], " ", Ghost(f0), Ghost(a))?;
            kw_step(f, "=", Ghost(buf@), Ghost(f0), Ghost(a));
            let ind = indent_of(n2, f, cfg, buf, state, &locs[2], " ");
            if ind { inc_indent(f, cfg, buf, state)?; }
            gap_step(f, cfg, buf, state, &locs[2], " ", Ghost(f0), Ghost(a))?;
            node_step(n2, f, cfg, buf, state, Ghost(f0), Ghost(a))?;
            if ind { dec_indent(f, cfg, buf, state)?; }
            Ok(())
        },
        Node::Label(sp, locs, n) => {
            proof {
                if cfg.fmt == FormatOpts::spec_default() && placed(*node, buf@) {
                    assert((kw_at(buf@, sp.0 as int, "::"@))
                        && (gap_at(buf@, locs[0], sp.0 as int + "::"@.len()))
                        && (text_span(**n).0 == locs[0].1 as int && placed(**n, buf@))
                        && (gap_at(buf@, locs[1], text_span(**n).1))
                        && (kw_at(buf@, locs[1].1 as int, "::"@))
                        && (sp.1 == locs[1].1 as int + "::"@.len())) by {
                        reveal(placed);
                    }
                }
            }
            kw_step(f, "::", Ghost(buf@), Ghost(f0), Ghost(a));
            gap_step(f, cfg, buf, state, &locs[0], "", Ghost(f0), Ghost(a))?;
            node_step(n, f, cfg, buf, state, Ghost(f0), Ghost(a))?;
            gap_step(f, cfg, buf, state, &locs[1], "", Ghost(f0), Ghost(a))?;
            kw_step(f, "::", Ghost(buf@), Ghost(f0), Ghost(a));
            Ok(())
        },
        Node::GoTo(sp, locs, n) => {
            proof {
                if cfg.fmt == FormatOpts::spec_default() && placed(*node, buf@) {
                    assert((kw_at(buf@, sp.0 as int, "goto"@))
                        && (gap_at(buf@, locs[0], sp.0 as int + "goto"@.len()))
                        && (text_span(**n).0 == locs[0].1 as int && placed(**n, buf@))
                        && (sp.1 == text_span(**n).1)) by {
                        reveal(placed);
                    }
                }
            }
            kw_step(f, "goto", Ghost(buf@), Ghost(f0), Ghost(a));
            gap_step(f, cfg, buf, state, &locs[0], " ", Ghost(f0), Ghost(a))?;
            node_step(n, f, cfg, buf, state, Ghost(f0), Ghost(a))?;
            Ok(())
        },
        Node::RetStatExpr(sp, locs, n) => {
            proof {
                if cfg.fmt == FormatOpts::spec_default() && placed(*node, buf@) {
                    assert((kw_at(buf@, sp.0 as int, "return"@))
                        && (gap_at(buf@, locs[0], sp.0 as int + "return"@.len()))
                        && (text_span(**n).0 == locs[0].1 as int && placed(**n, buf@))
                        && (sp.1 == text_span(**n).1)) by {
                        reveal(placed);
                    }
                }
            }
            kw_step(f, "return", Ghost(buf@), Ghost(f0), Ghost(a));
            let ind = indent_of(n, f, cfg, buf, state, &locs[0], " ");
            if ind { inc_indent(f, cfg, buf, state)?; }
            gap_step(f, cfg, buf, state, &locs[0], " ", Ghost(f0), Ghost(a))?;
            node_step(n, f, cfg, buf, state, Ghost(f0), Ghost(a))?;
            if ind { dec_indent(f, cfg, buf, state)?; }
            Ok(())
        },
        Node::RetStatNoneComma(sp, locs) => {
            proof {
                if cfg.fmt == FormatOpts::spec_default() && placed(*node, buf@) {
                    assert((kw_at(buf@, sp.0 as int, "return"@))
                        && (gap_at(buf@, locs[0], sp.0 as int + "return"@.len()))
                        && (kw_at(buf@, locs[0].1 as int, ";"@))
                        && (sp.1 == locs[0].1 as int + ";"@.len())) by {
                        reveal(placed);
                    }
                }
            }
            kw_step(f, "return", Ghost(buf@), Ghost(f0), Ghost(a));
            gap_step(f, cfg, buf, state, &locs[0], "", Ghost(f0), Ghost(a))?;
            kw_step(f, ";", Ghost(buf@), Ghost(f0), Ghost(a));
            Ok(())
        },
        Node::RetStatExprComma(sp, locs, n) => {
            proof {
                if cfg.fmt == FormatOpts::spec_default() && placed(*node, buf@) {
                    assert((kw_at(buf@, sp.0 as int, "return"@))
                        && (gap_at(buf@, locs[0], sp.0 as int + "return"@.len()))
                        && (text_span(**n).0 == locs[0].1 as int && placed(**n, buf@))
                        && (gap_at(buf@, locs[1], text_span(**n).1))
                        && (kw_at(buf@, locs[1].1 as int, ";"@))
                        && (sp.1 == locs[1].1 as int + ";"@.len())) by {
                        reveal(placed);
                    }
                }
            }
            kw_step(f, "return", Ghost(buf@), Ghost(f0), Ghost(a));
            let ind = indent_of(n, f, cfg, buf, state, &locs[0], " ");
            if ind { inc_indent(f, cfg, buf, state)?; }
            gap_step(f, cfg, buf, state, &locs[0], " ", Ghost(f0), Ghost(a))?;
            node_step(n, f, cfg, buf, state, Ghost(f0), Ghost(a))?;
            gap_step(f, cfg, buf, state, &locs[1], "", Ghost(f0), Ghost(a))?;
            if ind { dec_indent(f, cfg, buf, state)?; }
            kw_step(f, ";", Ghost(buf@), Ghost(f0), Ghost(a));
            Ok(())
        },
        Node::StatsRetStat(sp, locs, n1, n2) => {
            proof {
                if cfg.fmt == FormatOpts::spec_default() && placed(*node, buf@) {
                    assert((text_span(**n1).0 == sp.0 as int && placed(**n1, buf@))
                        && (gap_at(buf@, locs[0], text_span(**n1).1))
                        && (text_span(**n2).0 == locs[0].1 as int && placed(**n2, buf@))
                        && (sp.1 == text_span(**n2).1)) by {
                        reveal(placed);
                    }
                }
            }
            let nl = cfg.fmt.newline_format_statement.is_some();
            node_step(n1, f, cfg, buf, state, Ghost(f0), Ghost(a))?;
            nl_step(f, cfg, buf, state, nl, &locs[0], " ", Ghost(f0), Ghost(a))?;
            node_step(n2, f, cfg, buf, state, Ghost(f0), Ghost(a))?;
            Ok(())
        },
        Node::VarsExprs(sp, locs, n1, n2) => {
            proof {
                if cfg.fmt == FormatOpts::spec_default() && placed(*node, buf@) {
                    assert((text_span(**n1).0 == sp.0 as int && placed(**n1, buf@))
                        && (gap_at(buf@, locs[0], text_span(**n1).1))
                        && (kw_at(buf@, locs[0].1 as int, "="@))
                        && (gap_at(buf@, locs[1], locs[0].1 as int + "="@.len()))
                        && (text_span(**n2).0 == locs[1].1 as int && placed(**n2, buf@))
                        && (sp.1 == text_span(**n2).1)) by {
                        reveal(placed);
                    }
                }
            }
            node_step(n1, f, cfg, buf, state, Ghost(f0), Ghost(a))?;
            gap_step(f, cfg, buf, state, &locs[0], " ", Ghost(f0), Ghost(a))?;
            kw_step(f, "=", Ghost(buf@), Ghost(f0), Ghost(a));
            let ind = indent_of(n2, f, cfg, buf, state, &locs[1], " ");
            if ind { inc_indent(f, cfg, buf, state)?; }
            gap_step(f, cfg, buf, state, &locs[1], " ", Ghost(f0), Ghost(a))?;
            node_step(n2, f, cfg, buf, state, Ghost(f0), Ghost(a))?;
            if ind { dec_indent(f, cfg, buf, state)?; }
            Ok(())
        },
        _ => Ok(()),
    }
}

/// Writes the nodes of expressions and table fields.
fn write_expr_body(node: &Node, f: &mut String, cfg: &Config, buf: &str, state: &mut State) -> (res: Result<(), std::fmt::Error>)
    requires
        node is UnaryOp || node is UnaryNot || node is Var || node is RoundBrackets || node is ArgsRoundBrackets || node is ArgsRoundBracketsEmpty || node is FieldNamedBracket || node is FieldNamed || node is FieldSequential || node is TableIndex || node is TableMember || node is VarRoundSuffix || node is FnMethodCall,
    ensures
        res is Ok ==> keeps_scope(*old(state), *final(state)),
        cfg.fmt == FormatOpts::spec_default() && placed(*node, buf@) && res is Ok
            ==> tracks(final(f)@, old(f)@, buf@, text_span(*node).0)
            && cursor(final(f)@, old(f)@, text_span(*node).0) == text_span(*node).1,
        cfg.fmt == FormatOpts::spec_default() && placed(*node, buf@) && level_room(*old(state), *node) ==> res is Ok,
    decreases node, 2nat,
{
    let ghost f0 = f@;
    let ghost a = text_span(*node).0;
    proof {
        if cfg.fmt == FormatOpts::spec_default() && placed(*node, buf@) {
            lemma_placed_span(*node, buf@);
        }
        if 0 <= a <= buf@.len() {
            lemma_tracks_start(f0, buf@, a);
        }
    }
    match node {
        Node::UnaryOp(sp, locs, tok, r) => {
            proof {
                if cfg.fmt == FormatOpts::spec_default() && placed(*node, buf@) {
                    assert((kw_at(buf@, sp.0 as int, tok.0@))
                        && (gap_at(buf@, locs[0], sp.0 as int + tok.0@.len()))
                        && (text_span(**r).0 == locs[0].1 as int && placed(**r, buf@))
                        && (sp.1 == text_span(**r).1)) by {
                        reveal(placed);
                    }
                }
            }
            kw_step(f, tok.0.as_str(), Ghost(buf@), Ghost(f0), Ghost(a));
            gap_step(f, cfg, buf, state, &locs[0], "", Ghost(f0), Ghost(a))?;
            node_step(r, f, cfg, buf, state, Ghost(f0), Ghost(a))?;
            Ok(())
        },
        Node::UnaryNot(sp, locs, r) => {
            proof {
                if cfg.fmt == FormatOpts::spec_default() && placed(*node, buf@) {
                    assert((kw_at(buf@, sp.0 as int, "not"@))
                        && (gap_at(buf@, locs[0], sp.0 as int + "not"@.len()))
                        && (text_span(**r).0 == locs[0].1 as int && placed(**r, buf@))
                        && (sp.1 == text_span(**r).1)) by {
                        reveal(placed);
                    }
                }
            }
            kw_step(f, "not", Ghost(buf@), Ghost(f0), Ghost(a));
            gap_step(f, cfg, buf, state, &locs[0], " ", Ghost(f0), Ghost(a))?;
            node_step(r, f, cfg, buf, state, Ghost(f0), Ghost(a))?;
            Ok(())
        },
        Node::Var(sp, locs, n1, n2) => {
            proof {
                if cfg.fmt == FormatOpts::spec_default() && placed(*node, buf@) {
                    assert((text_span(**n1).0 == sp.0 as int && placed(**n1, buf@))
                        && (gap_at(buf@, locs[0], text_span(**n1).1))
                        && (text_span(**n2).0 == locs[0].1 as int && placed(**n2, buf@))
                        && (sp.1 == text_span(**n2).1)) by {
                        reveal(placed);
                    }
                }
            }
            node_step(n1, f, cfg, buf, state, Ghost(f0), Ghost(a))?;
            let ind = indent_of(n2, f, cfg, buf, state, &locs[0], "");
            if ind { inc_indent(f, cfg, buf, state)?; }
            gap_step(f, cfg, buf, state, &locs[0], "", Ghost(f0), Ghost(a))?;
            node_step(n2, f, cfg, buf, state, Ghost(f0), Ghost(a))?;
            if ind { dec_indent(f, cfg, buf, state)?; }
            Ok(())
        },
        Node::RoundBrackets(sp, locs, r) => {
            proof {
                if cfg.fmt == FormatOpts::spec_default() && placed(*node, buf@) {
                    assert((kw_at(buf@, sp.0 as int, "("@))
                        && (gap_at(buf@, locs[0], sp.0 as int + "("@.len()))
                        && (text_span(**r).0 == locs[0].1 as int && placed(**r, buf@))
                        && (gap_at(buf@, locs[1], text_span(**r).1))
                        && (kw_at(buf@, locs[1].1 as int, ")"@))
                        && (sp.1 == locs[1].1 as int + ")"@.len())) by {
                        reveal(placed);
                    }
                }
            }
            kw_step(f, "(", Ghost(buf@), Ghost(f0), Ghost(a));
            gap_step(f, cfg, buf, state, &locs[0], "", Ghost(f0), Ghost(a))?;
            node_step(r, f, cfg, buf, state, Ghost(f0), Ghost(a))?;
            gap_step(f, cfg, buf, state, &locs[1], "", Ghost(f0), Ghost(a))?;
            kw_step(f, ")", Ghost(buf@), Ghost(f0), Ghost(a));
            Ok(())
        },
        Node::ArgsRoundBrackets(sp, locs, r) => {
            proof {
                if cfg.fmt == FormatOpts::spec_default() && placed(*node, buf@) {
                    assert((kw_at(buf@, sp.0 as int, "("@))
                        && (gap_at(buf@, locs[0], sp.0 as int + "("@.len()))
                        && (text_span(**r).0 == locs[0].1 as int && placed(**r, buf@))
                        && (gap_at(buf@, locs[1], text_span(**r).1))
                        && (kw_at(buf@, locs[1].1 as int, ")"@))
                        && (sp.1 == locs[1].1 as int + ")"@.len())) by {
                        reveal(placed);
                    }
                }
            }
            kw_step(f, "(", Ghost(buf@), Ghost(f0), Ghost(a));
            let ind = indent_of(r, f, cfg, buf, state, &locs[0], "");
            if ind { inc_indent(f, cfg, buf, state)?; }
            gap_step(f, cfg, buf, state, &locs[0], "", Ghost(f0), Ghost(a))?;
            node_step(r, f, cfg, buf, state, Ghost(f0), Ghost(a))?;
            if ind { dec_indent(f, cfg, buf, state)?; }
            gap_step(f, cfg, buf, state, &locs[1], "", Ghost(f0), Ghost(a))?;
            kw_step(f, ")", Ghost(buf@), Ghost(f0), Ghost(a));
            Ok(())
        },
        Node::ArgsRoundBracketsEmpty(sp, locs) => {
            proof {
                if cfg.fmt == FormatOpts::spec_default() && placed(*node, buf@) {
                    assert((kw_at(buf@, sp.0 as int, "("@))
                        && (gap_at(buf@, locs[0], sp.0 as int + "("@.len()))
                        && (kw_at(buf@, locs[0].1 as int, ")"@))
                        && (sp.1 == locs[0].1 as int + ")"@.len())) by {
                        reveal(placed);
                    }
                }
            }
            kw_step(f, "(", Ghost(buf@), Ghost(f0), Ghost(a));
            gap_step(f, cfg, buf, state, &locs[0], "", Ghost(f0), Ghost(a))?;
            kw_step(f, ")", Ghost(buf@), Ghost(f0), Ghost(a));
            Ok(())
        },
        Node::FieldNamedBracket(sp, locs, e1, e2) => {
            proof {
                if cfg.fmt == FormatOpts::spec_default() && placed(*node, buf@) {
                    assert((kw_at(buf@, sp.0 as int, "["@))
                        && (gap_at(buf@, locs[0], sp.0 as int + "["@.len()))
                        && (text_span(**e1).0 == locs[0].1 as int && placed(**e1, buf@))
                        && (gap_at(buf@, locs[1], text_span(**e1).1))
                        && (kw_at(buf@, locs[1].1 as int, "]"@))
                        && (gap_at(buf@, locs[2], locs[1].1 as int + "]"@.len()))
                        && (kw_at(buf@, locs[2].1 as int, "="@))
                        && (gap_at(buf@, locs[3], locs[2].1 as int + "="@.len()))
                        && (text_span(**e2).0 == locs[3].1 as int && placed(**e2, buf@))
                        && (sp.1 == text_span(**e2).1)) by {
                        reveal(placed);
                    }
                }
            }
            kw_step(f, "[", Ghost(buf@), Ghost(f0), Ghost(a));
            gap_step(f, cfg, buf, state, &locs[0], "", Ghost(f0), Ghost(a))?;
            node_step(e1, f, cfg, buf, state, Ghost(f0), Ghost(a))?;
            gap_step(f, cfg, buf, state, &locs[1], "", Ghost(f0), Ghost(a))?;
            kw_step(f, "]", Ghost(buf@), Ghost(f0), Ghost(a));
            gap_step(f, cfg, buf, state, &locs[2], " ", Ghost(f0), Ghost(a))?;
            kw_step(f, "=", Ghost(buf@), Ghost(f0), Ghost(a));
            gap_step(f, cfg, buf, state, &locs[3], " ", Ghost(f0), Ghost(a))?;
            node_step(e2, f, cfg, buf, state, Ghost(f0), Ghost(a))?;
            Ok(())
        },
        Node::FieldNamed(sp, locs, e1, e2) => {
            proof {
                if cfg.fmt == FormatOpts::spec_default() && placed(*node, buf@) {
                    assert((text_span(**e1).0 == sp.0 as int && placed(**e1, buf@))
                        && (gap_at(buf@, locs[0], text_span(**e1).1))
                        && (kw_at(buf@, locs[0].1 as int, "="@))
                        && (gap_at(buf@, locs[1], locs[0].1 as int + "="@.len()))
                        && (text_span(**e2).0 == locs[1].1 as int && placed(**e2, buf@))
                        && (sp.1 == text_span(**e2).1)) by {
                        reveal(placed);
                    }
                }
            }
            node_step(e1, f, cfg, buf, state, Ghost(f0), Ghost(a))?;
            gap_step(f, cfg, buf, state, &locs[0], " ", Ghost(f0), Ghost(a))?;
            kw_step(f, "=", Ghost(buf@), Ghost(f0), Ghost(a));
            gap_step(f, cfg, buf, state, &locs[1], " ", Ghost(f0), Ghost(a))?;
            node_step(e2, f, cfg, buf, state, Ghost(f0), Ghost(a))?;
            Ok(())
        },
        Node::FieldSequential(sp, e) => {
            proof {
                if cfg.fmt == FormatOpts::spec_default() && placed(*node, buf@) {
                    assert((text_span(**e).0 == sp.0 as int && placed(**e, buf@))
                        && (sp.1 == text_span(**e).1)) by {
                        reveal(placed);
                    }
                }
            }
            node_step(e, f, cfg, buf, state, Ghost(f0), Ghost(a))?;
            Ok(())
        },
        Node::TableIndex(sp, locs, e) => {
            proof {
                if cfg.fmt == FormatOpts::spec_default() && placed(*node, buf@) {
                    assert((kw_at(buf@, sp.0 as int, "["@))
                        && (gap_at(buf@, locs[0], sp.0 as int + "["@.len()))
                        && (text_span(**e).0 == locs[0].1 as int && placed(**e, buf@))
                        && (gap_at(buf@, locs[1], text_span(**e).1))
                        && (kw_at(buf@, locs[1].1 as int, "]"@))
                        && (sp.1 == locs[1].1 as int + "]"@.len())) by {
                        reveal(placed);
                    }
                }
            }
            kw_step(f, "[", Ghost(buf@), Ghost(f0), Ghost(a));
            gap_step(f, cfg, buf, state, &locs[0], "", Ghost(f0), Ghost(a))?;
            node_step(e, f, cfg, buf, state, Ghost(f0), Ghost(a))?;
            gap_step(f, cfg, buf, state, &locs[1], "", Ghost(f0), Ghost(a))?;
            kw_step(f, "]", Ghost(buf@), Ghost(f0), Ghost(a));
            Ok(())
        },
        Node::TableMember(sp, locs, n) => {
            proof {
                if cfg.fmt == FormatOpts::spec_default() && placed(*node, buf@) {
                    assert((kw_at(buf@, sp.0 as int, "."@))
                        && (gap_at(buf@, locs[0], sp.0 as int + "."@.len()))
                        && (text_span(**n).0 == locs[0].1 as int && placed(**n, buf@))
                        && (sp.1 == text_span(**n).1)) by {
                        reveal(placed);
                    }
                }
            }
            kw_step(f, ".", Ghost(buf@), Ghost(f0), Ghost(a));
            gap_step(f, cfg, buf, state, &locs[0], "", Ghost(f0), Ghost(a))?;
            node_step(n, f, cfg, buf, state, Ghost(f0), Ghost(a))?;
            Ok(())
        },
        Node::VarRoundSuffix(sp, locs, n1, n2) => {
            proof {
                if cfg.fmt == FormatOpts::spec_default() && placed(*node, buf@) {
                    assert((kw_at(buf@, sp.0 as int, "("@))
                        && (gap_at(buf@, locs[0], sp.0 as int + "("@.len()))
                        && (text_span(**n1).0 == locs[0].1 as int && placed(**n1, buf@))
                        && (gap_at(buf@, locs[1], text_span(**n1).1))
                        && (kw_at(buf@, locs[1].1 as int, ")"@))
                        && (gap_at(buf@, locs[2], locs[1].1 as int + ")"@.len()))
                        && (text_span(**n2).0 == locs[2].1 as int && placed(**n2, buf@))
                        && (sp.1 == text_span(**n2).1)) by {
                        reveal(placed);
                    }
                }
            }
            kw_step(f, "(", Ghost(buf@), Ghost(f0), Ghost(a));
            gap_step(f, cfg, buf, state, &locs[0], "", Ghost(f0), Ghost(a))?;
            node_step(n1, f, cfg, buf, state, Ghost(f0), Ghost(a))?;
            gap_step(f, cfg, buf, state, &locs[1], "", Ghost(f0), Ghost(a))?;
            kw_step(f, ")", Ghost(buf@), Ghost(f0), Ghost(a));
            let ind = indent_of(n2, f, cfg, buf, state, &locs[0], "");
            if ind { inc_indent(f, cfg, buf, state)?; }
            gap_step(f, cfg, buf, state, &locs[2], "", Ghost(f0), Ghost(a))?;
            node_step(n2, f, cfg, buf, state, Ghost(f0), Ghost(a))?;
            if ind { dec_indent(f, cfg, buf, state)?; }
            Ok(())
        },
        Node::FnMethodCall(sp, locs, n1, n2) => {
            proof {
                if cfg.fmt == FormatOpts::spec_default() && placed(*node, buf@) {
                    assert((kw_at(buf@, sp.0 as int, ":"@))
                        && (gap_at(buf@, locs[0], sp.0 as int + ":"@.len()))
                        && (text_span(**n1).0 == locs[0].1 as int && placed(**n1, buf@))
                        && (gap_at(buf@, locs[1], text_span(**n1).1))
                        && (text_span(**n2).0 == locs[1].1 as int && placed(**n2, buf@))
                        && (sp.1 == text_span(**n2).1)) by {
                        reveal(placed);
                    }
                }
            }
            kw_step(f, ":", Ghost(buf@), Ghost(f0), Ghost(a));
            gap_step(f, cfg, buf, state, &locs[0], "", Ghost(f0), Ghost(a))?;
            node_step(n1, f, cfg, buf, state, Ghost(f0), Ghost(a))?;
            gap_step(f, cfg, buf, state, &locs[1], "", Ghost(f0), Ghost(a))?;
            node_step(n2, f, cfg, buf, state, Ghost(f0), Ghost(a))?;
            Ok(())
        },
        _ => Ok(()),
    }
}

} // verus!

verus! {

impl ConfiguredWrite for Node {
    fn configured_write(&self, f: &mut String, cfg: &Config, buf: &str, state: &mut State) -> (res: Result<(), std::fmt::Error>)
        ensures
            res is Ok ==> keeps_scope(*old(state), *final(state)),
            range_checked(*self) && spec_out_of_range(old(state).pos_range, node_loc(*self)) ==> {
                &&& res is Ok
                &&& final(f)@ == old(f)@ + loc_text(buf@, node_loc(*self))
                &&& *final(state) == *old(state)
            },
            cfg.fmt == FormatOpts::spec_default() && placed(*self, buf@) && res is Ok
                ==> final(f)@ == old(f)@ + buf@.subrange(text_span(*self).0, text_span(*self).1),
            cfg.fmt == FormatOpts::spec_default() && placed(*self, buf@) && level_room(*old(state), *self) ==> res is Ok,
    {
        write_node(self, f, cfg, buf, state)
    }
}

} // verus!

verus! {

/// What a list asks of its items.
pub trait AnyListItem {
    /// The hint before the item where no blank stands before it.
    fn list_item_prefix_hint(&self) -> &'static str;

    /// Whether the item, after `prev` in the list `parent`, goes on a new line.
    fn need_newline(&self, prev: &Node, parent: &Node, f: &String, cfg: &Config, buf: &str, state: &mut State) -> bool;

    /// Whether the item, first in the list `parent`, goes on a new line.
    fn need_first_newline(&self, parent: &Node, f: &String, cfg: &Config, buf: &str, state: &mut State) -> bool;
}

impl AnyListItem for Node {
    fn list_item_prefix_hint(&self) -> (res: &'static str)
        ensures
            res@ == item_hint_of(*self),
    {
        list_item_prefix_hint(self)
    }

    fn need_newline(&self, prev: &Node, parent: &Node, f: &String, cfg: &Config, buf: &str, state: &mut State) -> (res: bool)
        ensures
            keeps_scope(*old(state), *final(state)),
            var_suffix_newline(*self, *parent, cfg.fmt, res),
    {
        need_newline(self, prev, parent, f, cfg, buf, state)
    }

    fn need_first_newline(&self, parent: &Node, f: &String, cfg: &Config, buf: &str, state: &mut State) -> (res: bool)
        ensures
            keeps_scope(*old(state), *final(state)),
            var_suffix_newline(*self, *parent, cfg.fmt, res),
    {
        need_first_newline(self, parent, f, cfg, buf, state)
    }
}

/// A list whose items are separated.
pub trait SepListOfItems {
    /// The items of the list, where it is one.
    spec fn sep_items_of(&self) -> Option<Seq<(Loc, Node, Loc, String)>>;

    /// The items with the gaps around them and their separators.
    fn items(&self) -> (res: Option<&Vec<(Loc, Node, Loc, String)>>)
        ensures
            res is Some <==> self.sep_items_of() is Some,
            res matches Some(v) ==> self.sep_items_of() == Some(v@);

    /// The hint before an item after the first.
    fn element_prefix_hint(&self) -> &'static str;

    /// The separator that the configuration sets for the list.
    fn separator(&self, cfg: &Config) -> Option<String>;

    /// Whether a separator follows the last item.
    fn trailing_separator(&self, cfg: &Config, state: &State) -> Option<bool>;

    /// Whether the options may break the list onto several lines.
    spec fn sep_breaks_of(&self, fmt: FormatOpts) -> bool;

    /// Whether the configuration may break the list onto several lines.
    fn need_newlines(&self, cfg: &Config) -> (res: bool)
        ensures
            res == self.sep_breaks_of(cfg.fmt);
}

impl SepListOfItems for Node {
    open spec fn sep_breaks_of(&self, fmt: FormatOpts) -> bool {
        sep_list_breaks(*self, fmt)
    }

    open spec fn sep_items_of(&self) -> Option<Seq<(Loc, Node, Loc, String)>> {
        if *self is Fields || *self is ExpList || *self is NameList || *self is VarList || *self is ParList
            || *self is FuncName || *self is FuncNameSelf {
            Some(sep_list_parts(*self).0)
        } else {
            None
        }
    }

    fn items(&self) -> Option<&Vec<(Loc, Node, Loc, String)>> {
        match self {
            Node::Fields(_, items, _) | Node::ExpList(_, items) | Node::NameList(_, items) | Node::VarList(_, items)
            | Node::ParList(_, items) | Node::FuncName(_, items) | Node::FuncNameSelf(_, _, items, _) => Some(items),
            _ => None,
        }
    }

    fn element_prefix_hint(&self) -> (res: &'static str)
        ensures
            res@ == element_hint_of(*self),
    {
        element_prefix_hint(self)
    }

    fn separator(&self, cfg: &Config) -> (res: Option<String>)
        ensures
            opt_text(res) == separator_of(*self, cfg.fmt),
    {
        list_separator(self, cfg)
    }

    fn trailing_separator(&self, cfg: &Config, state: &State) -> (res: Option<bool>)
        ensures
            res == trailing_separator_of(*self, cfg.fmt, state.indented_fields@),
    {
        list_trailing_separator(self, cfg, state)
    }

    fn need_newlines(&self, cfg: &Config) -> bool {
        sep_list_need_newlines(self, cfg)
    }
}

/// A list whose items stand one after another.
pub trait ListOfItems {
    /// The items of the list, where it is one.
    spec fn pair_items_of(&self) -> Option<Seq<(Loc, Node)>>;

    /// Whether the options may break the list onto several lines.
    spec fn breaks_of(&self, fmt: FormatOpts) -> bool;

    /// The items with the gaps before them.
    fn items(&self) -> (res: Option<&Vec<(Loc, Node)>>)
        ensures
            res is Some <==> self.pair_items_of() is Some,
            res matches Some(v) ==> self.pair_items_of() == Some(v@);

    /// Whether the configuration may break the list onto several lines.
    fn need_newlines(&self, cfg: &Config) -> (res: bool)
        ensures
            res == self.breaks_of(cfg.fmt);
}

impl ListOfItems for Node {
    open spec fn pair_items_of(&self) -> Option<Seq<(Loc, Node)>> {
        if *self is StatementList || *self is VarSuffixList || *self is ElseIfThenVec {
            Some(list_items(*self))
        } else {
            None
        }
    }

    open spec fn breaks_of(&self, fmt: FormatOpts) -> bool {
        list_breaks(*self, fmt)
    }

    fn items(&self) -> Option<&Vec<(Loc, Node)>> {
        match self {
            Node::StatementList(_, items) | Node::VarSuffixList(_, items) | Node::ElseIfThenVec(_, items) => Some(items),
            _ => None,
        }
    }

    fn need_newlines(&self, cfg: &Config) -> bool {
        list_need_newlines(self, cfg)
    }
}

/// The gap before a token, written on a new line where the flag is set (`write_if_newline`).
pub struct IfNewLine<'a, 'b>(pub bool, pub CommentLocHint<'a, 'b>);

impl ConfiguredWrite for IfNewLine<'_, '_> {
    fn configured_write(&self, f: &mut String, cfg: &Config, buf: &str, state: &mut State) -> (res: Result<(), std::fmt::Error>)
        ensures
            *final(state) == *old(state),
            ({
                let t = loc_text(buf@, *(self.1).0);
                let ind = indentation(cfg.fmt, old(state).indent_level as int);
                let ls = ends_line(old(f)@);
                &&& (res is Ok <==> t.len() < usize::MAX / 4 && comment_block(cfg.fmt, t, ind, ls) is Some)
                &&& res is Ok && self.0 ==> final(f)@ == newline_gap_text(cfg.fmt, old(f)@, t, ind)
                &&& res is Ok && !self.0 ==> final(f)@ == old(f)@ + gap_output(cfg.fmt, t, ind, ls, (self.1).1@)
            }),
    {
        write_if_newline(f, cfg, buf, state, self.0, (self.1).0, (self.1).1)
    }
}

} // verus!
