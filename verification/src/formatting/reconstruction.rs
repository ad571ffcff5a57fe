use vstd::prelude::*;

use super::util::{charstring_to_normalstring, spec_charstring_to_normalstring};
use crate::config::{Config, State};
use super::default_layout::{
    items_laid, lemma_nodes, lemma_nodes_placed, lemma_pairs_frame, lemma_sep_items_frame, lemma_sep_nodes,
    lemma_sep_nodes_placed, nodes_placed, placed, same_item_frame, same_pair_frame, sep_items_laid, sep_nodes_placed,
    text_span,
};
use crate::parser::common::Loc;
use crate::parser::lua_ast::Node;

verus! {

/// Widens the range of positions to format so that it covers whole top-level statements:
/// a span at the top block level that overlaps the range extends it.
pub fn update_pos_range(span: &Loc, state: &mut State)
    ensures
        final(state).indent_level == old(state).indent_level,
        final(state).block_nested_level == old(state).block_nested_level,
        final(state).function_nested_level == old(state).function_nested_level,
        final(state).stack_indent == old(state).stack_indent,
        final(state).oneline_tables == old(state).oneline_tables,
        final(state).indented_fields == old(state).indented_fields,
        ({
            let (s, o) = (*span, old(state).pos_range);
            final(state).pos_range == if old(state).block_nested_level == 1 {
                match o {
                    Some((l, r)) => if r > s.0 && l < s.1 {
                        Some((if s.0 < l { s.0 } else { l }, if s.1 > r { s.1 } else { r }))
                    } else {
                        o
                    },
                    None => o,
                }
            } else {
                o
            }
        }),
{
    if state.block_nested_level == 1 {
        match state.pos_range {
            Some((l, r)) => {
                if r > span.0 && l < span.1 {
                    let nl = if span.0 < l { span.0 } else { l };
                    let nr = if span.1 > r { span.1 } else { r };
                    state.pos_range = Some((nl, nr));
                }
            },
            None => {},
        }
    }
}

/// The state after preparing a tree: the range of positions to format may only have grown,
/// and everything else is as it was.
pub open spec fn widened(a: State, b: State) -> bool {
    &&& b.indent_level == a.indent_level
    &&& b.stack_indent == a.stack_indent
    &&& b.function_nested_level == a.function_nested_level
    &&& b.block_nested_level == a.block_nested_level
    &&& b.oneline_tables == a.oneline_tables
    &&& b.indented_fields == a.indented_fields
    &&& match (a.pos_range, b.pos_range) {
        (None, None) => true,
        (Some((l, r)), Some((l2, r2))) => l2 <= l && r <= r2,
        _ => false,
    }
}

/// A node prepared for writing covers the text that it covered and, unless strings in
/// single quotes are converted, stands where the text placed it.
pub open spec fn prepared(a: Node, b: Node, cfg: Config) -> bool {
    &&& text_span(b) == text_span(a)
    &&& cfg.fmt.convert_charstring_to_normalstring != Some(true)
        ==> forall|t: Seq<char>| #[trigger] placed(a, t) ==> placed(b, t)
}

/// The items of a list with separators, prepared for writing: the list is laid where it
/// was and, unless strings in single quotes are converted, its nodes stay placed.
pub open spec fn items_prepared(a: Seq<(Loc, Node, Loc, String)>, b: Seq<(Loc, Node, Loc, String)>, cfg: Config) -> bool {
    &&& b.len() == a.len()
    &&& forall|t: Seq<char>, x: int, y: int, sep: Option<Seq<char>>, trailing: bool|
        #[trigger] sep_items_laid(t, a, x, y, sep, trailing) ==> sep_items_laid(t, b, x, y, sep, trailing)
    &&& cfg.fmt.convert_charstring_to_normalstring != Some(true)
        ==> forall|t: Seq<char>| #[trigger] sep_nodes_placed(a, 0, t) ==> sep_nodes_placed(b, 0, t)
}

/// The items of a list without separators, prepared for writing, as `items_prepared` says.
pub open spec fn pairs_prepared(a: Seq<(Loc, Node)>, b: Seq<(Loc, Node)>, cfg: Config) -> bool {
    &&& b.len() == a.len()
    &&& forall|t: Seq<char>, x: int, y: int| #[trigger] items_laid(t, a, x, y) ==> items_laid(t, b, x, y)
    &&& cfg.fmt.convert_charstring_to_normalstring != Some(true)
        ==> forall|t: Seq<char>| #[trigger] nodes_placed(a, 0, t) ==> nodes_placed(b, 0, t)
}

/// Whether no string in single quotes stands anywhere in the tree.
pub open spec fn no_char_strings(n: Node) -> bool
    decreases n, 0int,
{
    match n {
        Node::CharStringLiteral(..) => false,
        Node::Fields(_, items, _) | Node::ExpList(_, items) | Node::NameList(_, items) | Node::ParList(_, items)
        | Node::VarList(_, items) | Node::FuncName(_, items) => sep_items_plain(items@, 0),
        Node::FuncNameSelf(_, _, items, a) => sep_items_plain(items@, 0) && no_char_strings(*a),
        Node::StatementList(_, items) | Node::VarSuffixList(_, items) | Node::ElseIfThenVec(_, items) => pairs_plain(items@, 0),
        Node::UnaryNot(_, _, a) | Node::RoundBrackets(_, _, a) | Node::ArgsRoundBrackets(_, _, a) | Node::TableIndex(_, _, a)
        | Node::TableMember(_, _, a) | Node::FunctionDef(_, _, a) | Node::FuncBodyB(_, _, a) | Node::FuncPBody(_, _, a)
        | Node::DoBEnd(_, _, a) | Node::Label(_, _, a) | Node::GoTo(_, _, a) | Node::WhileDo(_, _, a)
        | Node::RepeatUntil(_, _, a) | Node::LocalNames(_, _, a) | Node::IfThen(_, _, a) | Node::IfThenElse(_, _, a)
        | Node::ElseIfThen(_, _, a) | Node::RetStatExpr(_, _, a) | Node::RetStatExprComma(_, _, a)
        | Node::UnaryOp(_, _, _, a) | Node::TableConstructor(_, _, a, _) | Node::FieldSequential(_, a)
        | Node::Chunk(_, a, _) => no_char_strings(*a),
        Node::Var(_, _, a, b) | Node::FieldNamedBracket(_, _, a, b) | Node::FieldNamed(_, _, a, b)
        | Node::VarRoundSuffix(_, _, a, b) | Node::FnMethodCall(_, _, a, b) | Node::FuncPBodyB(_, _, a, b)
        | Node::FuncDecl(_, _, a, b) | Node::LocalFuncDecl(_, _, a, b) | Node::VarsExprs(_, _, a, b)
        | Node::WhileDoB(_, _, a, b) | Node::RepeatBUntil(_, _, a, b) | Node::ForRange(_, _, a, b)
        | Node::LocalNamesExprs(_, _, a, b) | Node::IfThenB(_, _, a, b) | Node::IfThenBElse(_, _, a, b)
        | Node::IfThenElseB(_, _, a, b) | Node::IfThenElseIf(_, _, a, b) | Node::IfThenElseIfElse(_, _, a, b)
        | Node::ElseIfThenB(_, _, a, b) | Node::StatsRetStat(_, _, a, b) | Node::BinaryOp(_, _, _, a, b)
        | Node::SheBangChunk(_, a, _, b, _) => no_char_strings(*a) && no_char_strings(*b),
        Node::ForInt(_, _, a, b, c) | Node::ForRangeB(_, _, a, b, c) | Node::IfThenBElseB(_, _, a, b, c)
        | Node::IfThenBElseIf(_, _, a, b, c) | Node::IfThenBElseIfElse(_, _, a, b, c)
        | Node::IfThenElseIfElseB(_, _, a, b, c) => no_char_strings(*a) && no_char_strings(*b) && no_char_strings(*c),
        Node::ForIntB(_, _, a, b, c, d) | Node::ForIntStep(_, _, a, b, c, d) | Node::IfThenBElseIfElseB(_, _, a, b, c, d) =>
            no_char_strings(*a) && no_char_strings(*b) && no_char_strings(*c) && no_char_strings(*d),
        Node::ForIntStepB(_, _, a, b, c, d, e) => no_char_strings(*a) && no_char_strings(*b) && no_char_strings(*c)
            && no_char_strings(*d) && no_char_strings(*e),
        _ => true,
    }
}

/// The nodes of the items of a list with separators, from the `k`-th on, hold no string
/// in single quotes.
pub open spec fn sep_items_plain(s: Seq<(Loc, Node, Loc, String)>, k: int) -> bool
    decreases s, s.len() - k,
{
    if k < 0 || k >= s.len() {
        true
    } else {
        no_char_strings(s[k].1) && sep_items_plain(s, k + 1)
    }
}

/// The nodes of the items of a list without separators, from the `k`-th on, hold no string
/// in single quotes.
pub open spec fn pairs_plain(s: Seq<(Loc, Node)>, k: int) -> bool
    decreases s, s.len() - k,
{
    if k < 0 || k >= s.len() {
        true
    } else {
        no_char_strings(s[k].1) && pairs_plain(s, k + 1)
    }
}

proof fn lemma_sep_items_plain(s: Seq<(Loc, Node, Loc, String)>, k: int)
    requires
        0 <= k,
        forall|j: int| k <= j < s.len() ==> no_char_strings(#[trigger] s[j].1),
    ensures
        sep_items_plain(s, k),
    decreases s.len() - k,
{
    if k < s.len() {
        lemma_sep_items_plain(s, k + 1);
    }
}

proof fn lemma_pairs_plain(s: Seq<(Loc, Node)>, k: int)
    requires
        0 <= k,
        forall|j: int| k <= j < s.len() ==> no_char_strings(#[trigger] s[j].1),
    ensures
        pairs_plain(s, k),
    decreases s.len() - k,
{
    if k < s.len() {
        lemma_pairs_plain(s, k + 1);
    }
}

/// Whether every table in the tree knows whether its fields are all sequential.
pub open spec fn tables_marked(n: Node) -> bool
    decreases n, 0int,
{
    match n {
        Node::Fields(_, items, o) => o.is_iv_table == Some(all_fields_sequential(items@)) && sep_items_marked(items@, 0),
        Node::TableConstructor(_, _, a, o) => {
            &&& *a matches Node::Fields(_, rv, _) ==> o.is_iv_table == Some(all_fields_sequential(rv@))
            &&& tables_marked(*a)
        },
        Node::ExpList(_, items) | Node::NameList(_, items) | Node::ParList(_, items)
        | Node::VarList(_, items) | Node::FuncName(_, items) => sep_items_marked(items@, 0),
        Node::FuncNameSelf(_, _, items, a) => sep_items_marked(items@, 0) && tables_marked(*a),
        Node::StatementList(_, items) | Node::VarSuffixList(_, items) | Node::ElseIfThenVec(_, items) => pairs_marked(items@, 0),
        Node::UnaryNot(_, _, a) | Node::RoundBrackets(_, _, a) | Node::ArgsRoundBrackets(_, _, a) | Node::TableIndex(_, _, a)
        | Node::TableMember(_, _, a) | Node::FunctionDef(_, _, a) | Node::FuncBodyB(_, _, a) | Node::FuncPBody(_, _, a)
        | Node::DoBEnd(_, _, a) | Node::Label(_, _, a) | Node::GoTo(_, _, a) | Node::WhileDo(_, _, a)
        | Node::RepeatUntil(_, _, a) | Node::LocalNames(_, _, a) | Node::IfThen(_, _, a) | Node::IfThenElse(_, _, a)
        | Node::ElseIfThen(_, _, a) | Node::RetStatExpr(_, _, a) | Node::RetStatExprComma(_, _, a)
        | Node::UnaryOp(_, _, _, a) | Node::FieldSequential(_, a)
        | Node::Chunk(_, a, _) => tables_marked(*a),
        Node::Var(_, _, a, b) | Node::FieldNamedBracket(_, _, a, b) | Node::FieldNamed(_, _, a, b)
        | Node::VarRoundSuffix(_, _, a, b) | Node::FnMethodCall(_, _, a, b) | Node::FuncPBodyB(_, _, a, b)
        | Node::FuncDecl(_, _, a, b) | Node::LocalFuncDecl(_, _, a, b) | Node::VarsExprs(_, _, a, b)
        | Node::WhileDoB(_, _, a, b) | Node::RepeatBUntil(_, _, a, b) | Node::ForRange(_, _, a, b)
        | Node::LocalNamesExprs(_, _, a, b) | Node::IfThenB(_, _, a, b) | Node::IfThenBElse(_, _, a, b)
        | Node::IfThenElseB(_, _, a, b) | Node::IfThenElseIf(_, _, a, b) | Node::IfThenElseIfElse(_, _, a, b)
        | Node::ElseIfThenB(_, _, a, b) | Node::StatsRetStat(_, _, a, b) | Node::BinaryOp(_, _, _, a, b)
        | Node::SheBangChunk(_, a, _, b, _) => tables_marked(*a) && tables_marked(*b),
        Node::ForInt(_, _, a, b, c) | Node::ForRangeB(_, _, a, b, c) | Node::IfThenBElseB(_, _, a, b, c)
        | Node::IfThenBElseIf(_, _, a, b, c) | Node::IfThenBElseIfElse(_, _, a, b, c)
        | Node::IfThenElseIfElseB(_, _, a, b, c) => tables_marked(*a) && tables_marked(*b) && tables_marked(*c),
        Node::ForIntB(_, _, a, b, c, d) | Node::ForIntStep(_, _, a, b, c, d) | Node::IfThenBElseIfElseB(_, _, a, b, c, d) =>
            tables_marked(*a) && tables_marked(*b) && tables_marked(*c) && tables_marked(*d),
        Node::ForIntStepB(_, _, a, b, c, d, e) => tables_marked(*a) && tables_marked(*b) && tables_marked(*c)
            && tables_marked(*d) && tables_marked(*e),
        _ => true,
    }
}

/// The nodes of the items of a list with separators, from the `k`-th on, have their tables marked.
pub open spec fn sep_items_marked(s: Seq<(Loc, Node, Loc, String)>, k: int) -> bool
    decreases s, s.len() - k,
{
    if k < 0 || k >= s.len() {
        true
    } else {
        tables_marked(s[k].1) && sep_items_marked(s, k + 1)
    }
}

/// The nodes of the items of a list without separators, from the `k`-th on, have their tables marked.
pub open spec fn pairs_marked(s: Seq<(Loc, Node)>, k: int) -> bool
    decreases s, s.len() - k,
{
    if k < 0 || k >= s.len() {
        true
    } else {
        tables_marked(s[k].1) && pairs_marked(s, k + 1)
    }
}

/// No table constructor of the tree knows yet whether it is a single child.
pub open spec fn flags_unset(n: Node) -> bool
    decreases n, 0int,
{
    match n {
        Node::Fields(_, items, _) => sep_items_unset(items@, 0),
        Node::TableConstructor(_, _, a, o) => o.is_single_child is None && flags_unset(*a),
        Node::ExpList(_, items) | Node::NameList(_, items) | Node::ParList(_, items)
        | Node::VarList(_, items) | Node::FuncName(_, items) => sep_items_unset(items@, 0),
        Node::FuncNameSelf(_, _, items, a) => sep_items_unset(items@, 0) && flags_unset(*a),
        Node::StatementList(_, items) | Node::VarSuffixList(_, items) | Node::ElseIfThenVec(_, items) => pairs_unset(items@, 0),
        Node::UnaryNot(_, _, a) | Node::RoundBrackets(_, _, a) | Node::ArgsRoundBrackets(_, _, a) | Node::TableIndex(_, _, a)
        | Node::TableMember(_, _, a) | Node::FunctionDef(_, _, a) | Node::FuncBodyB(_, _, a) | Node::FuncPBody(_, _, a)
        | Node::DoBEnd(_, _, a) | Node::Label(_, _, a) | Node::GoTo(_, _, a) | Node::WhileDo(_, _, a)
        | Node::RepeatUntil(_, _, a) | Node::LocalNames(_, _, a) | Node::IfThen(_, _, a) | Node::IfThenElse(_, _, a)
        | Node::ElseIfThen(_, _, a) | Node::RetStatExpr(_, _, a) | Node::RetStatExprComma(_, _, a)
        | Node::UnaryOp(_, _, _, a) | Node::FieldSequential(_, a)
        | Node::Chunk(_, a, _) => flags_unset(*a),
        Node::Var(_, _, a, b) | Node::FieldNamedBracket(_, _, a, b) | Node::FieldNamed(_, _, a, b)
        | Node::VarRoundSuffix(_, _, a, b) | Node::FnMethodCall(_, _, a, b) | Node::FuncPBodyB(_, _, a, b)
        | Node::FuncDecl(_, _, a, b) | Node::LocalFuncDecl(_, _, a, b) | Node::VarsExprs(_, _, a, b)
        | Node::WhileDoB(_, _, a, b) | Node::RepeatBUntil(_, _, a, b) | Node::ForRange(_, _, a, b)
        | Node::LocalNamesExprs(_, _, a, b) | Node::IfThenB(_, _, a, b) | Node::IfThenBElse(_, _, a, b)
        | Node::IfThenElseB(_, _, a, b) | Node::IfThenElseIf(_, _, a, b) | Node::IfThenElseIfElse(_, _, a, b)
        | Node::ElseIfThenB(_, _, a, b) | Node::StatsRetStat(_, _, a, b) | Node::BinaryOp(_, _, _, a, b)
        | Node::SheBangChunk(_, a, _, b, _) => flags_unset(*a) && flags_unset(*b),
        Node::ForInt(_, _, a, b, c) | Node::ForRangeB(_, _, a, b, c) | Node::IfThenBElseB(_, _, a, b, c)
        | Node::IfThenBElseIf(_, _, a, b, c) | Node::IfThenBElseIfElse(_, _, a, b, c)
        | Node::IfThenElseIfElseB(_, _, a, b, c) => flags_unset(*a) && flags_unset(*b) && flags_unset(*c),
        Node::ForIntB(_, _, a, b, c, d) | Node::ForIntStep(_, _, a, b, c, d) | Node::IfThenBElseIfElseB(_, _, a, b, c, d) =>
            flags_unset(*a) && flags_unset(*b) && flags_unset(*c) && flags_unset(*d),
        Node::ForIntStepB(_, _, a, b, c, d, e) => flags_unset(*a) && flags_unset(*b) && flags_unset(*c)
            && flags_unset(*d) && flags_unset(*e),
        _ => true,
    }
}

/// No table in the nodes of the items of a list with separators, from the `k`-th on, knows it yet.
pub open spec fn sep_items_unset(s: Seq<(Loc, Node, Loc, String)>, k: int) -> bool
    decreases s, s.len() - k,
{
    if k < 0 || k >= s.len() {
        true
    } else {
        flags_unset(s[k].1) && sep_items_unset(s, k + 1)
    }
}

/// No table in the nodes of the items of a list without separators, from the `k`-th on, knows it yet.
pub open spec fn pairs_unset(s: Seq<(Loc, Node)>, k: int) -> bool
    decreases s, s.len() - k,
{
    if k < 0 || k >= s.len() {
        true
    } else {
        flags_unset(s[k].1) && pairs_unset(s, k + 1)
    }
}

proof fn lemma_sep_items_unset(s: Seq<(Loc, Node, Loc, String)>, k: int, j: int)
    requires
        0 <= k <= j < s.len(),
        sep_items_unset(s, k),
    ensures
        flags_unset(s[j].1),
    decreases j - k,
{
    if k < j {
        lemma_sep_items_unset(s, k + 1, j);
    }
}

proof fn lemma_pairs_unset(s: Seq<(Loc, Node)>, k: int, j: int)
    requires
        0 <= k <= j < s.len(),
        pairs_unset(s, k),
    ensures
        flags_unset(s[j].1),
    decreases j - k,
{
    if k < j {
        lemma_pairs_unset(s, k + 1, j);
    }
}

proof fn lemma_sep_items_marked(s: Seq<(Loc, Node, Loc, String)>, k: int)
    requires
        0 <= k,
        forall|j: int| k <= j < s.len() ==> tables_marked(#[trigger] s[j].1),
    ensures
        sep_items_marked(s, k),
    decreases s.len() - k,
{
    if k < s.len() {
        lemma_sep_items_marked(s, k + 1);
    }
}

proof fn lemma_pairs_marked(s: Seq<(Loc, Node)>, k: int)
    requires
        0 <= k,
        forall|j: int| k <= j < s.len() ==> tables_marked(#[trigger] s[j].1),
    ensures
        pairs_marked(s, k),
    decreases s.len() - k,
{
    if k < s.len() {
        lemma_pairs_marked(s, k + 1);
    }
}

/// The kind of a node that its parent asks about stays: a sequential field stays one, and
/// the fields of a table stay all sequential or not.
pub open spec fn kinds_kept(a: Node, b: Node) -> bool {
    &&& (b is FieldSequential) == (a is FieldSequential)
    &&& a matches Node::Fields(_, v, _) ==> (b matches Node::Fields(_, v2, _) && all_fields_sequential(v2@) == all_fields_sequential(v@))
}

/// `b` is the tree `a` prepared for writing: strings in single quotes become the same strings
/// in double quotes where `conv`, what tables know of themselves may change, and everything
/// else (every variant, location, name, number and string) stays as it was.
pub open spec fn converted_tree(a: Node, b: Node, conv: bool) -> bool
    decreases a, 0int,
{
    match a {
        Node::BinaryOp(a0, a1, a2, a3, a4) => {
            &&& b matches Node::BinaryOp(b0, b1, b2, b3, b4)
            &&& a0 == b0
            &&& a1 == b1
            &&& a2 == b2
            &&& converted_tree(*a3, *b3, conv)
            &&& converted_tree(*a4, *b4, conv)
        },
        Node::UnaryOp(a0, a1, a2, a3) => {
            &&& b matches Node::UnaryOp(b0, b1, b2, b3)
            &&& a0 == b0
            &&& a1 == b1
            &&& a2 == b2
            &&& converted_tree(*a3, *b3, conv)
        },
        Node::UnaryNot(a0, a1, a2) => {
            &&& b matches Node::UnaryNot(b0, b1, b2)
            &&& a0 == b0
            &&& a1 == b1
            &&& converted_tree(*a2, *b2, conv)
        },
        Node::Var(a0, a1, a2, a3) => {
            &&& b matches Node::Var(b0, b1, b2, b3)
            &&& a0 == b0
            &&& a1 == b1
            &&& converted_tree(*a2, *b2, conv)
            &&& converted_tree(*a3, *b3, conv)
        },
        Node::RoundBrackets(a0, a1, a2) => {
            &&& b matches Node::RoundBrackets(b0, b1, b2)
            &&& a0 == b0
            &&& a1 == b1
            &&& converted_tree(*a2, *b2, conv)
        },
        Node::ArgsRoundBrackets(a0, a1, a2) => {
            &&& b matches Node::ArgsRoundBrackets(b0, b1, b2)
            &&& a0 == b0
            &&& a1 == b1
            &&& converted_tree(*a2, *b2, conv)
        },
        Node::ArgsRoundBracketsEmpty(a0, a1) => {
            &&& b matches Node::ArgsRoundBracketsEmpty(b0, b1)
            &&& a0 == b0
            &&& a1 == b1
        },
        Node::Nil(a0) => {
            &&& b matches Node::Nil(b0)
            &&& a0 == b0
        },
        Node::False(a0) => {
            &&& b matches Node::False(b0)
            &&& a0 == b0
        },
        Node::True(a0) => {
            &&& b matches Node::True(b0)
            &&& a0 == b0
        },
        Node::VarArg(a0) => {
            &&& b matches Node::VarArg(b0)
            &&& a0 == b0
        },
        Node::Break(a0) => {
            &&& b matches Node::Break(b0)
            &&& a0 == b0
        },
        Node::Numeral(a0, a1) => {
            &&& b matches Node::Numeral(b0, b1)
            &&& a0 == b0
            &&& a1 == b1
        },
        Node::NormalStringLiteral(a0, a1) => {
            &&& b matches Node::NormalStringLiteral(b0, b1)
            &&& a0 == b0
            &&& a1 == b1
        },
        Node::CharStringLiteral(a0, a1) => if conv {
            b matches Node::NormalStringLiteral(b0, b1) && a0 == b0 && b1@ == spec_charstring_to_normalstring(a1@)
        } else {
            b matches Node::CharStringLiteral(b0, b1) && a0 == b0 && a1 == b1
        },
        Node::MultiLineStringLiteral(a0, a1, a2) => {
            &&& b matches Node::MultiLineStringLiteral(b0, b1, b2)
            &&& a0 == b0
            &&& a1 == b1
            &&& a2 == b2
        },
        Node::TableConstructor(a0, a1, a2, _) => {
            &&& b matches Node::TableConstructor(b0, b1, b2, _)
            &&& a0 == b0
            &&& a1 == b1
            &&& converted_tree(*a2, *b2, conv)
        },
        Node::TableConstructorEmpty(a0, a1) => {
            &&& b matches Node::TableConstructorEmpty(b0, b1)
            &&& a0 == b0
            &&& a1 == b1
        },
        Node::Fields(a0, a1, _) => {
            &&& b matches Node::Fields(b0, b1, _)
            &&& a0 == b0
            &&& converted_items(a1@, b1@, 0, conv)
        },
        Node::FieldNamedBracket(a0, a1, a2, a3) => {
            &&& b matches Node::FieldNamedBracket(b0, b1, b2, b3)
            &&& a0 == b0
            &&& a1 == b1
            &&& converted_tree(*a2, *b2, conv)
            &&& converted_tree(*a3, *b3, conv)
        },
        Node::FieldNamed(a0, a1, a2, a3) => {
            &&& b matches Node::FieldNamed(b0, b1, b2, b3)
            &&& a0 == b0
            &&& a1 == b1
            &&& converted_tree(*a2, *b2, conv)
            &&& converted_tree(*a3, *b3, conv)
        },
        Node::FieldSequential(a0, a1) => {
            &&& b matches Node::FieldSequential(b0, b1)
            &&& a0 == b0
            &&& converted_tree(*a1, *b1, conv)
        },
        Node::TableIndex(a0, a1, a2) => {
            &&& b matches Node::TableIndex(b0, b1, b2)
            &&& a0 == b0
            &&& a1 == b1
            &&& converted_tree(*a2, *b2, conv)
        },
        Node::TableMember(a0, a1, a2) => {
            &&& b matches Node::TableMember(b0, b1, b2)
            &&& a0 == b0
            &&& a1 == b1
            &&& converted_tree(*a2, *b2, conv)
        },
        Node::ExpList(a0, a1) => {
            &&& b matches Node::ExpList(b0, b1)
            &&& a0 == b0
            &&& converted_items(a1@, b1@, 0, conv)
        },
        Node::NameList(a0, a1) => {
            &&& b matches Node::NameList(b0, b1)
            &&& a0 == b0
            &&& converted_items(a1@, b1@, 0, conv)
        },
        Node::ParList(a0, a1) => {
            &&& b matches Node::ParList(b0, b1)
            &&& a0 == b0
            &&& converted_items(a1@, b1@, 0, conv)
        },
        Node::VarList(a0, a1) => {
            &&& b matches Node::VarList(b0, b1)
            &&& a0 == b0
            &&& converted_items(a1@, b1@, 0, conv)
        },
        Node::VarRoundSuffix(a0, a1, a2, a3) => {
            &&& b matches Node::VarRoundSuffix(b0, b1, b2, b3)
            &&& a0 == b0
            &&& a1 == b1
            &&& converted_tree(*a2, *b2, conv)
            &&& converted_tree(*a3, *b3, conv)
        },
        Node::VarSuffixList(a0, a1) => {
            &&& b matches Node::VarSuffixList(b0, b1)
            &&& a0 == b0
            &&& converted_pairs(a1@, b1@, 0, conv)
        },
        Node::FnMethodCall(a0, a1, a2, a3) => {
            &&& b matches Node::FnMethodCall(b0, b1, b2, b3)
            &&& a0 == b0
            &&& a1 == b1
            &&& converted_tree(*a2, *b2, conv)
            &&& converted_tree(*a3, *b3, conv)
        },
        Node::FunctionDef(a0, a1, a2) => {
            &&& b matches Node::FunctionDef(b0, b1, b2)
            &&& a0 == b0
            &&& a1 == b1
            &&& converted_tree(*a2, *b2, conv)
        },
        Node::FuncBody(a0, a1) => {
            &&& b matches Node::FuncBody(b0, b1)
            &&& a0 == b0
            &&& a1 == b1
        },
        Node::FuncBodyB(a0, a1, a2) => {
            &&& b matches Node::FuncBodyB(b0, b1, b2)
            &&& a0 == b0
            &&& a1 == b1
            &&& converted_tree(*a2, *b2, conv)
        },
        Node::FuncPBody(a0, a1, a2) => {
            &&& b matches Node::FuncPBody(b0, b1, b2)
            &&& a0 == b0
            &&& a1 == b1
            &&& converted_tree(*a2, *b2, conv)
        },
        Node::FuncPBodyB(a0, a1, a2, a3) => {
            &&& b matches Node::FuncPBodyB(b0, b1, b2, b3)
            &&& a0 == b0
            &&& a1 == b1
            &&& converted_tree(*a2, *b2, conv)
            &&& converted_tree(*a3, *b3, conv)
        },
        Node::FuncName(a0, a1) => {
            &&& b matches Node::FuncName(b0, b1)
            &&& a0 == b0
            &&& converted_items(a1@, b1@, 0, conv)
        },
        Node::FuncNameSelf(a0, a1, a2, a3) => {
            &&& b matches Node::FuncNameSelf(b0, b1, b2, b3)
            &&& a0 == b0
            &&& a1 == b1
            &&& converted_items(a2@, b2@, 0, conv)
            &&& converted_tree(*a3, *b3, conv)
        },
        Node::FuncDecl(a0, a1, a2, a3) => {
            &&& b matches Node::FuncDecl(b0, b1, b2, b3)
            &&& a0 == b0
            &&& a1 == b1
            &&& converted_tree(*a2, *b2, conv)
            &&& converted_tree(*a3, *b3, conv)
        },
        Node::LocalFuncDecl(a0, a1, a2, a3) => {
            &&& b matches Node::LocalFuncDecl(b0, b1, b2, b3)
            &&& a0 == b0
            &&& a1 == b1
            &&& converted_tree(*a2, *b2, conv)
            &&& converted_tree(*a3, *b3, conv)
        },
        Node::StatementList(a0, a1) => {
            &&& b matches Node::StatementList(b0, b1)
            &&& a0 == b0
            &&& converted_pairs(a1@, b1@, 0, conv)
        },
        Node::DoEnd(a0, a1) => {
            &&& b matches Node::DoEnd(b0, b1)
            &&& a0 == b0
            &&& a1 == b1
        },
        Node::DoBEnd(a0, a1, a2) => {
            &&& b matches Node::DoBEnd(b0, b1, b2)
            &&& a0 == b0
            &&& a1 == b1
            &&& converted_tree(*a2, *b2, conv)
        },
        Node::VarsExprs(a0, a1, a2, a3) => {
            &&& b matches Node::VarsExprs(b0, b1, b2, b3)
            &&& a0 == b0
            &&& a1 == b1
            &&& converted_tree(*a2, *b2, conv)
            &&& converted_tree(*a3, *b3, conv)
        },
        Node::Name(a0, a1) => {
            &&& b matches Node::Name(b0, b1)
            &&& a0 == b0
            &&& a1 == b1
        },
        Node::Label(a0, a1, a2) => {
            &&& b matches Node::Label(b0, b1, b2)
            &&& a0 == b0
            &&& a1 == b1
            &&& converted_tree(*a2, *b2, conv)
        },
        Node::GoTo(a0, a1, a2) => {
            &&& b matches Node::GoTo(b0, b1, b2)
            &&& a0 == b0
            &&& a1 == b1
            &&& converted_tree(*a2, *b2, conv)
        },
        Node::WhileDo(a0, a1, a2) => {
            &&& b matches Node::WhileDo(b0, b1, b2)
            &&& a0 == b0
            &&& a1 == b1
            &&& converted_tree(*a2, *b2, conv)
        },
        Node::WhileDoB(a0, a1, a2, a3) => {
            &&& b matches Node::WhileDoB(b0, b1, b2, b3)
            &&& a0 == b0
            &&& a1 == b1
            &&& converted_tree(*a2, *b2, conv)
            &&& converted_tree(*a3, *b3, conv)
        },
        Node::RepeatUntil(a0, a1, a2) => {
            &&& b matches Node::RepeatUntil(b0, b1, b2)
            &&& a0 == b0
            &&& a1 == b1
            &&& converted_tree(*a2, *b2, conv)
        },
        Node::RepeatBUntil(a0, a1, a2, a3) => {
            &&& b matches Node::RepeatBUntil(b0, b1, b2, b3)
            &&& a0 == b0
            &&& a1 == b1
            &&& converted_tree(*a2, *b2, conv)
            &&& converted_tree(*a3, *b3, conv)
        },
        Node::ForInt(a0, a1, a2, a3, a4) => {
            &&& b matches Node::ForInt(b0, b1, b2, b3, b4)
            &&& a0 == b0
            &&& a1 == b1
            &&& converted_tree(*a2, *b2, conv)
            &&& converted_tree(*a3, *b3, conv)
            &&& converted_tree(*a4, *b4, conv)
        },
        Node::ForIntB(a0, a1, a2, a3, a4, a5) => {
            &&& b matches Node::ForIntB(b0, b1, b2, b3, b4, b5)
            &&& a0 == b0
            &&& a1 == b1
            &&& converted_tree(*a2, *b2, conv)
            &&& converted_tree(*a3, *b3, conv)
            &&& converted_tree(*a4, *b4, conv)
            &&& converted_tree(*a5, *b5, conv)
        },
        Node::ForIntStep(a0, a1, a2, a3, a4, a5) => {
            &&& b matches Node::ForIntStep(b0, b1, b2, b3, b4, b5)
            &&& a0 == b0
            &&& a1 == b1
            &&& converted_tree(*a2, *b2, conv)
            &&& converted_tree(*a3, *b3, conv)
            &&& converted_tree(*a4, *b4, conv)
            &&& converted_tree(*a5, *b5, conv)
        },
        Node::ForIntStepB(a0, a1, a2, a3, a4, a5, a6) => {
            &&& b matches Node::ForIntStepB(b0, b1, b2, b3, b4, b5, b6)
            &&& a0 == b0
            &&& a1 == b1
            &&& converted_tree(*a2, *b2, conv)
            &&& converted_tree(*a3, *b3, conv)
            &&& converted_tree(*a4, *b4, conv)
            &&& converted_tree(*a5, *b5, conv)
            &&& converted_tree(*a6, *b6, conv)
        },
        Node::ForRange(a0, a1, a2, a3) => {
            &&& b matches Node::ForRange(b0, b1, b2, b3)
            &&& a0 == b0
            &&& a1 == b1
            &&& converted_tree(*a2, *b2, conv)
            &&& converted_tree(*a3, *b3, conv)
        },
        Node::ForRangeB(a0, a1, a2, a3, a4) => {
            &&& b matches Node::ForRangeB(b0, b1, b2, b3, b4)
            &&& a0 == b0
            &&& a1 == b1
            &&& converted_tree(*a2, *b2, conv)
            &&& converted_tree(*a3, *b3, conv)
            &&& converted_tree(*a4, *b4, conv)
        },
        Node::LocalNames(a0, a1, a2) => {
            &&& b matches Node::LocalNames(b0, b1, b2)
            &&& a0 == b0
            &&& a1 == b1
            &&& converted_tree(*a2, *b2, conv)
        },
        Node::LocalNamesExprs(a0, a1, a2, a3) => {
            &&& b matches Node::LocalNamesExprs(b0, b1, b2, b3)
            &&& a0 == b0
            &&& a1 == b1
            &&& converted_tree(*a2, *b2, conv)
            &&& converted_tree(*a3, *b3, conv)
        },
        Node::IfThen(a0, a1, a2) => {
            &&& b matches Node::IfThen(b0, b1, b2)
            &&& a0 == b0
            &&& a1 == b1
            &&& converted_tree(*a2, *b2, conv)
        },
        Node::IfThenB(a0, a1, a2, a3) => {
            &&& b matches Node::IfThenB(b0, b1, b2, b3)
            &&& a0 == b0
            &&& a1 == b1
            &&& converted_tree(*a2, *b2, conv)
            &&& converted_tree(*a3, *b3, conv)
        },
        Node::IfThenElse(a0, a1, a2) => {
            &&& b matches Node::IfThenElse(b0, b1, b2)
            &&& a0 == b0
            &&& a1 == b1
            &&& converted_tree(*a2, *b2, conv)
        },
        Node::IfThenBElse(a0, a1, a2, a3) => {
            &&& b matches Node::IfThenBElse(b0, b1, b2, b3)
            &&& a0 == b0
            &&& a1 == b1
            &&& converted_tree(*a2, *b2, conv)
            &&& converted_tree(*a3, *b3, conv)
        },
        Node::IfThenElseB(a0, a1, a2, a3) => {
            &&& b matches Node::IfThenElseB(b0, b1, b2, b3)
            &&& a0 == b0
            &&& a1 == b1
            &&& converted_tree(*a2, *b2, conv)
            &&& converted_tree(*a3, *b3, conv)
        },
        Node::IfThenBElseB(a0, a1, a2, a3, a4) => {
            &&& b matches Node::IfThenBElseB(b0, b1, b2, b3, b4)
            &&& a0 == b0
            &&& a1 == b1
            &&& converted_tree(*a2, *b2, conv)
            &&& converted_tree(*a3, *b3, conv)
            &&& converted_tree(*a4, *b4, conv)
        },
        Node::IfThenElseIf(a0, a1, a2, a3) => {
            &&& b matches Node::IfThenElseIf(b0, b1, b2, b3)
            &&& a0 == b0
            &&& a1 == b1
            &&& converted_tree(*a2, *b2, conv)
            &&& converted_tree(*a3, *b3, conv)
        },
        Node::IfThenBElseIf(a0, a1, a2, a3, a4) => {
            &&& b matches Node::IfThenBElseIf(b0, b1, b2, b3, b4)
            &&& a0 == b0
            &&& a1 == b1
            &&& converted_tree(*a2, *b2, conv)
            &&& converted_tree(*a3, *b3, conv)
            &&& converted_tree(*a4, *b4, conv)
        },
        Node::IfThenElseIfElse(a0, a1, a2, a3) => {
            &&& b matches Node::IfThenElseIfElse(b0, b1, b2, b3)
            &&& a0 == b0
            &&& a1 == b1
            &&& converted_tree(*a2, *b2, conv)
            &&& converted_tree(*a3, *b3, conv)
        },
        Node::IfThenBElseIfElse(a0, a1, a2, a3, a4) => {
            &&& b matches Node::IfThenBElseIfElse(b0, b1, b2, b3, b4)
            &&& a0 == b0
            &&& a1 == b1
            &&& converted_tree(*a2, *b2, conv)
            &&& converted_tree(*a3, *b3, conv)
            &&& converted_tree(*a4, *b4, conv)
        },
        Node::IfThenElseIfElseB(a0, a1, a2, a3, a4) => {
            &&& b matches Node::IfThenElseIfElseB(b0, b1, b2, b3, b4)
            &&& a0 == b0
            &&& a1 == b1
            &&& converted_tree(*a2, *b2, conv)
            &&& converted_tree(*a3, *b3, conv)
            &&& converted_tree(*a4, *b4, conv)
        },
        Node::IfThenBElseIfElseB(a0, a1, a2, a3, a4, a5) => {
            &&& b matches Node::IfThenBElseIfElseB(b0, b1, b2, b3, b4, b5)
            &&& a0 == b0
            &&& a1 == b1
            &&& converted_tree(*a2, *b2, conv)
            &&& converted_tree(*a3, *b3, conv)
            &&& converted_tree(*a4, *b4, conv)
            &&& converted_tree(*a5, *b5, conv)
        },
        Node::ElseIfThenVec(a0, a1) => {
            &&& b matches Node::ElseIfThenVec(b0, b1)
            &&& a0 == b0
            &&& converted_pairs(a1@, b1@, 0, conv)
        },
        Node::ElseIfThen(a0, a1, a2) => {
            &&& b matches Node::ElseIfThen(b0, b1, b2)
            &&& a0 == b0
            &&& a1 == b1
            &&& converted_tree(*a2, *b2, conv)
        },
        Node::ElseIfThenB(a0, a1, a2, a3) => {
            &&& b matches Node::ElseIfThenB(b0, b1, b2, b3)
            &&& a0 == b0
            &&& a1 == b1
            &&& converted_tree(*a2, *b2, conv)
            &&& converted_tree(*a3, *b3, conv)
        },
        Node::RetStatNone(a0) => {
            &&& b matches Node::RetStatNone(b0)
            &&& a0 == b0
        },
        Node::RetStatExpr(a0, a1, a2) => {
            &&& b matches Node::RetStatExpr(b0, b1, b2)
            &&& a0 == b0
            &&& a1 == b1
            &&& converted_tree(*a2, *b2, conv)
        },
        Node::RetStatNoneComma(a0, a1) => {
            &&& b matches Node::RetStatNoneComma(b0, b1)
            &&& a0 == b0
            &&& a1 == b1
        },
        Node::RetStatExprComma(a0, a1, a2) => {
            &&& b matches Node::RetStatExprComma(b0, b1, b2)
            &&& a0 == b0
            &&& a1 == b1
            &&& converted_tree(*a2, *b2, conv)
        },
        Node::StatsRetStat(a0, a1, a2, a3) => {
            &&& b matches Node::StatsRetStat(b0, b1, b2, b3)
            &&& a0 == b0
            &&& a1 == b1
            &&& converted_tree(*a2, *b2, conv)
            &&& converted_tree(*a3, *b3, conv)
        },
        Node::Chunk(a0, a1, a2) => {
            &&& b matches Node::Chunk(b0, b1, b2)
            &&& a0 == b0
            &&& converted_tree(*a1, *b1, conv)
            &&& a2 == b2
        },
        Node::SheBangChunk(a0, a1, a2, a3, a4) => {
            &&& b matches Node::SheBangChunk(b0, b1, b2, b3, b4)
            &&& a0 == b0
            &&& converted_tree(*a1, *b1, conv)
            &&& a2 == b2
            &&& converted_tree(*a3, *b3, conv)
            &&& a4 == b4
        },
        Node::Semicolon(a0) => {
            &&& b matches Node::Semicolon(b0)
            &&& a0 == b0
        },
        Node::SheBang(a0, a1) => {
            &&& b matches Node::SheBang(b0, b1)
            &&& a0 == b0
            &&& a1 == b1
        },
    }
}

/// The items of two lists with separators, from the `k`-th on, are related as
/// `converted_tree` says, and their locations and separators are the same.
pub open spec fn converted_items(s1: Seq<(Loc, Node, Loc, String)>, s2: Seq<(Loc, Node, Loc, String)>, k: int, conv: bool) -> bool
    decreases s1, s1.len() - k,
{
    &&& s1.len() == s2.len()
    &&& if k < 0 || k >= s1.len() {
        true
    } else {
        &&& s1[k].0 == s2[k].0
        &&& s1[k].2 == s2[k].2
        &&& s1[k].3 == s2[k].3
        &&& converted_tree(s1[k].1, s2[k].1, conv)
        &&& converted_items(s1, s2, k + 1, conv)
    }
}

/// The items of two lists without separators, from the `k`-th on, are related as
/// `converted_tree` says, and their locations are the same.
pub open spec fn converted_pairs(s1: Seq<(Loc, Node)>, s2: Seq<(Loc, Node)>, k: int, conv: bool) -> bool
    decreases s1, s1.len() - k,
{
    &&& s1.len() == s2.len()
    &&& if k < 0 || k >= s1.len() {
        true
    } else {
        &&& s1[k].0 == s2[k].0
        &&& converted_tree(s1[k].1, s2[k].1, conv)
        &&& converted_pairs(s1, s2, k + 1, conv)
    }
}

proof fn lemma_converted_items(s1: Seq<(Loc, Node, Loc, String)>, s2: Seq<(Loc, Node, Loc, String)>, k: int, conv: bool)
    requires
        0 <= k,
        s1.len() == s2.len(),
        forall|j: int| #![trigger s1[j], s2[j]] k <= j < s1.len() ==> s1[j].0 == s2[j].0 && s1[j].2 == s2[j].2
            && s1[j].3 == s2[j].3 && converted_tree(s1[j].1, s2[j].1, conv),
    ensures
        converted_items(s1, s2, k, conv),
    decreases s1.len() - k,
{
    if k < s1.len() {
        lemma_converted_items(s1, s2, k + 1, conv);
    }
}

proof fn lemma_converted_pairs(s1: Seq<(Loc, Node)>, s2: Seq<(Loc, Node)>, k: int, conv: bool)
    requires
        0 <= k,
        s1.len() == s2.len(),
        forall|j: int| #![trigger s1[j], s2[j]] k <= j < s1.len() ==> s1[j].0 == s2[j].0 && converted_tree(s1[j].1, s2[j].1, conv),
    ensures
        converted_pairs(s1, s2, k, conv),
    decreases s1.len() - k,
{
    if k < s1.len() {
        lemma_converted_pairs(s1, s2, k + 1, conv);
    }
}

/// The range of positions to format after one span is seen at block level `level`: at the
/// top block level a span that overlaps the range widens it to cover the span.
pub open spec fn widen_at(span: Loc, level: isize, r: Option<(usize, usize)>) -> Option<(usize, usize)> {
    if level == 1 {
        match r {
            Some((l, rr)) => if rr > span.0 && l < span.1 {
                Some((if span.0 < l { span.0 } else { l }, if span.1 > rr { span.1 } else { rr }))
            } else {
                r
            },
            None => r,
        }
    } else {
        r
    }
}

/// The range of positions to format after preparing the tree `n` at block level `level`,
/// starting from `r`: every node's span is seen in turn, the node before its children, and
/// a block lies one level deeper than its parent.
pub open spec fn widen_tree(n: Node, level: isize, r: Option<(usize, usize)>) -> Option<(usize, usize)>
    decreases n, 0int,
{
    match n {
        Node::BinaryOp(sp, _, _, a3, a4) => widen_tree(*a4, level, widen_tree(*a3, level, widen_at(sp, level, r))),
        Node::UnaryOp(sp, _, _, a3) => widen_tree(*a3, level, widen_at(sp, level, r)),
        Node::UnaryNot(sp, _, a2) => widen_tree(*a2, level, widen_at(sp, level, r)),
        Node::Var(sp, _, a2, a3) => widen_tree(*a3, level, widen_tree(*a2, level, widen_at(sp, level, r))),
        Node::RoundBrackets(sp, _, a2) => widen_tree(*a2, level, widen_at(sp, level, r)),
        Node::ArgsRoundBrackets(sp, _, a2) => widen_tree(*a2, level, widen_at(sp, level, r)),
        Node::ArgsRoundBracketsEmpty(sp, _) => widen_at(sp, level, r),
        Node::Nil(sp) => widen_at(sp, level, r),
        Node::False(sp) => widen_at(sp, level, r),
        Node::True(sp) => widen_at(sp, level, r),
        Node::VarArg(sp) => widen_at(sp, level, r),
        Node::Break(sp) => widen_at(sp, level, r),
        Node::Numeral(sp, _) => widen_at(sp, level, r),
        Node::NormalStringLiteral(sp, _) => widen_at(sp, level, r),
        Node::CharStringLiteral(sp, _) => widen_at(sp, level, r),
        Node::MultiLineStringLiteral(sp, _, _) => widen_at(sp, level, r),
        Node::TableConstructor(sp, _, a2, _) => widen_tree(*a2, level, widen_at(sp, level, r)),
        Node::TableConstructorEmpty(sp, _) => widen_at(sp, level, r),
        Node::Fields(_, a1, _) => widen_items(a1@, 0, level, r),
        Node::FieldNamedBracket(sp, _, a2, a3) => widen_tree(*a3, level, widen_tree(*a2, level, widen_at(sp, level, r))),
        Node::FieldNamed(sp, _, a2, a3) => widen_tree(*a3, level, widen_tree(*a2, level, widen_at(sp, level, r))),
        Node::FieldSequential(sp, a1) => widen_tree(*a1, level, widen_at(sp, level, r)),
        Node::TableIndex(sp, _, a2) => widen_tree(*a2, level, widen_at(sp, level, r)),
        Node::TableMember(sp, _, a2) => widen_tree(*a2, level, widen_at(sp, level, r)),
        Node::ExpList(sp, a1) => widen_items(a1@, 0, level, widen_at(sp, level, r)),
        Node::NameList(sp, a1) => widen_items(a1@, 0, level, widen_at(sp, level, r)),
        Node::ParList(sp, a1) => widen_items(a1@, 0, level, widen_at(sp, level, r)),
        Node::VarList(sp, a1) => widen_items(a1@, 0, level, widen_at(sp, level, r)),
        Node::VarRoundSuffix(sp, _, a2, a3) => widen_tree(*a3, level, widen_tree(*a2, level, widen_at(sp, level, r))),
        Node::VarSuffixList(sp, a1) => widen_pairs(a1@, 0, level, widen_at(sp, level, r)),
        Node::FnMethodCall(sp, _, a2, a3) => widen_tree(*a3, level, widen_tree(*a2, level, widen_at(sp, level, r))),
        Node::FunctionDef(sp, _, a2) => widen_tree(*a2, level, widen_at(sp, level, r)),
        Node::FuncBody(sp, _) => widen_at(sp, level, r),
        Node::FuncBodyB(sp, _, a2) => widen_tree(*a2, level, widen_at(sp, level, r)),
        Node::FuncPBody(sp, _, a2) => widen_tree(*a2, level, widen_at(sp, level, r)),
        Node::FuncPBodyB(sp, _, a2, a3) => widen_tree(*a3, level, widen_tree(*a2, level, widen_at(sp, level, r))),
        Node::FuncName(sp, a1) => widen_items(a1@, 0, level, widen_at(sp, level, r)),
        Node::FuncNameSelf(sp, _, a2, a3) => widen_tree(*a3, level, widen_items(a2@, 0, level, widen_at(sp, level, r))),
        Node::FuncDecl(sp, _, a2, a3) => widen_tree(*a3, level, widen_tree(*a2, level, widen_at(sp, level, r))),
        Node::LocalFuncDecl(sp, _, a2, a3) => widen_tree(*a3, level, widen_tree(*a2, level, widen_at(sp, level, r))),
        Node::StatementList(_, a1) => widen_pairs(a1@, 0, if level < isize::MAX { (level + 1) as isize } else { level }, r),
        Node::DoEnd(sp, _) => widen_at(sp, level, r),
        Node::DoBEnd(sp, _, a2) => widen_tree(*a2, level, widen_at(sp, level, r)),
        Node::VarsExprs(sp, _, a2, a3) => widen_tree(*a3, level, widen_tree(*a2, level, widen_at(sp, level, r))),
        Node::Name(sp, _) => widen_at(sp, level, r),
        Node::Label(sp, _, a2) => widen_tree(*a2, level, widen_at(sp, level, r)),
        Node::GoTo(sp, _, a2) => widen_tree(*a2, level, widen_at(sp, level, r)),
        Node::WhileDo(sp, _, a2) => widen_tree(*a2, level, widen_at(sp, level, r)),
        Node::WhileDoB(sp, _, a2, a3) => widen_tree(*a3, level, widen_tree(*a2, level, widen_at(sp, level, r))),
        Node::RepeatUntil(sp, _, a2) => widen_tree(*a2, level, widen_at(sp, level, r)),
        Node::RepeatBUntil(sp, _, a2, a3) => widen_tree(*a3, level, widen_tree(*a2, level, widen_at(sp, level, r))),
        Node::ForInt(sp, _, a2, a3, a4) => widen_tree(*a4, level, widen_tree(*a3, level, widen_tree(*a2, level, widen_at(sp, level, r)))),
        Node::ForIntB(sp, _, a2, a3, a4, a5) => widen_tree(*a5, level, widen_tree(*a4, level, widen_tree(*a3, level, widen_tree(*a2, level, widen_at(sp, level, r))))),
        Node::ForIntStep(sp, _, a2, a3, a4, a5) => widen_tree(*a5, level, widen_tree(*a4, level, widen_tree(*a3, level, widen_tree(*a2, level, widen_at(sp, level, r))))),
        Node::ForIntStepB(sp, _, a2, a3, a4, a5, a6) => widen_tree(*a6, level, widen_tree(*a5, level, widen_tree(*a4, level, widen_tree(*a3, level, widen_tree(*a2, level, widen_at(sp, level, r)))))),
        Node::ForRange(sp, _, a2, a3) => widen_tree(*a3, level, widen_tree(*a2, level, widen_at(sp, level, r))),
        Node::ForRangeB(sp, _, a2, a3, a4) => widen_tree(*a4, level, widen_tree(*a3, level, widen_tree(*a2, level, widen_at(sp, level, r)))),
        Node::LocalNames(sp, _, a2) => widen_tree(*a2, level, widen_at(sp, level, r)),
        Node::LocalNamesExprs(sp, _, a2, a3) => widen_tree(*a3, level, widen_tree(*a2, level, widen_at(sp, level, r))),
        Node::IfThen(sp, _, a2) => widen_tree(*a2, level, widen_at(sp, level, r)),
        Node::IfThenB(sp, _, a2, a3) => widen_tree(*a3, level, widen_tree(*a2, level, widen_at(sp, level, r))),
        Node::IfThenElse(sp, _, a2) => widen_tree(*a2, level, widen_at(sp, level, r)),
        Node::IfThenBElse(sp, _, a2, a3) => widen_tree(*a3, level, widen_tree(*a2, level, widen_at(sp, level, r))),
        Node::IfThenElseB(sp, _, a2, a3) => widen_tree(*a3, level, widen_tree(*a2, level, widen_at(sp, level, r))),
        Node::IfThenBElseB(sp, _, a2, a3, a4) => widen_tree(*a4, level, widen_tree(*a3, level, widen_tree(*a2, level, widen_at(sp, level, r)))),
        Node::IfThenElseIf(sp, _, a2, a3) => widen_tree(*a3, level, widen_tree(*a2, level, widen_at(sp, level, r))),
        Node::IfThenBElseIf(sp, _, a2, a3, a4) => widen_tree(*a4, level, widen_tree(*a3, level, widen_tree(*a2, level, widen_at(sp, level, r)))),
        Node::IfThenElseIfElse(sp, _, a2, a3) => widen_tree(*a3, level, widen_tree(*a2, level, widen_at(sp, level, r))),
        Node::IfThenBElseIfElse(sp, _, a2, a3, a4) => widen_tree(*a4, level, widen_tree(*a3, level, widen_tree(*a2, level, widen_at(sp, level, r)))),
        Node::IfThenElseIfElseB(sp, _, a2, a3, a4) => widen_tree(*a4, level, widen_tree(*a3, level, widen_tree(*a2, level, widen_at(sp, level, r)))),
        Node::IfThenBElseIfElseB(sp, _, a2, a3, a4, a5) => widen_tree(*a5, level, widen_tree(*a4, level, widen_tree(*a3, level, widen_tree(*a2, level, widen_at(sp, level, r))))),
        Node::ElseIfThenVec(sp, a1) => widen_pairs(a1@, 0, level, widen_at(sp, level, r)),
        Node::ElseIfThen(sp, _, a2) => widen_tree(*a2, level, widen_at(sp, level, r)),
        Node::ElseIfThenB(sp, _, a2, a3) => widen_tree(*a3, level, widen_tree(*a2, level, widen_at(sp, level, r))),
        Node::RetStatNone(sp) => widen_at(sp, level, r),
        Node::RetStatExpr(sp, _, a2) => widen_tree(*a2, level, widen_at(sp, level, r)),
        Node::RetStatNoneComma(sp, _) => widen_at(sp, level, r),
        Node::RetStatExprComma(sp, _, a2) => widen_tree(*a2, level, widen_at(sp, level, r)),
        Node::StatsRetStat(sp, _, a2, a3) => widen_tree(*a3, level, widen_tree(*a2, level, widen_at(sp, level, r))),
        Node::Chunk(sp, a1, _) => widen_tree(*a1, level, widen_at(sp, level, r)),
        Node::SheBangChunk(sp, a1, _, a3, _) => widen_tree(*a3, level, widen_tree(*a1, level, widen_at(sp, level, r))),
        Node::Semicolon(sp) => widen_at(sp, level, r),
        Node::SheBang(sp, _) => widen_at(sp, level, r),
    }
}

/// `widen_tree` over the nodes of a list with separators, from the `k`-th on.
pub open spec fn widen_items(s: Seq<(Loc, Node, Loc, String)>, k: int, level: isize, r: Option<(usize, usize)>) -> Option<(usize, usize)>
    decreases s, s.len() - k,
{
    if k < 0 || k >= s.len() {
        r
    } else {
        widen_items(s, k + 1, level, widen_tree(s[k].1, level, r))
    }
}

/// `widen_tree` over the nodes of a list without separators, from the `k`-th on.
pub open spec fn widen_pairs(s: Seq<(Loc, Node)>, k: int, level: isize, r: Option<(usize, usize)>) -> Option<(usize, usize)>
    decreases s, s.len() - k,
{
    if k < 0 || k >= s.len() {
        r
    } else {
        widen_pairs(s, k + 1, level, widen_tree(s[k].1, level, r))
    }
}

/// What a table knows after preparation of whether it is the single field of its parent,
/// with `single` what its parent told it: a table constructor always knows it (what the
/// parent told, else a single child), and passes it on to its fields; the sequential fields
/// of a table are told whether they are its only field; other nodes tell their children nothing.
/// Where `fresh` (no table of the tree knew anything of itself before), what a table knows
/// is exactly what its parent told it, else that it is a single child.
pub open spec fn singles_marked(n: Node, single: Option<bool>, fresh: bool) -> bool
    decreases n, 0int,
{
    match n {
        Node::TableConstructor(_, _, r, o) => {
            &&& o.is_single_child is Some
            &&& single is Some ==> o.is_single_child == single
            &&& fresh && single is None ==> o.is_single_child == Some(true)
            &&& singles_marked(*r, o.is_single_child, fresh)
        },
        Node::Fields(_, items, o) => {
            &&& single is Some ==> o.is_single_child == single
            &&& sep_items_singles(items@, 0, Some(items@.len() == 1), fresh)
        },
        Node::FieldSequential(_, e) => singles_marked(*e, single, fresh),
        Node::BinaryOp(_, _, _, a3, a4) => singles_marked(*a3, None, fresh) && singles_marked(*a4, None, fresh),
        Node::UnaryOp(_, _, _, a3) => singles_marked(*a3, None, fresh),
        Node::UnaryNot(_, _, a2) => singles_marked(*a2, None, fresh),
        Node::Var(_, _, a2, a3) => singles_marked(*a2, None, fresh) && singles_marked(*a3, None, fresh),
        Node::RoundBrackets(_, _, a2) => singles_marked(*a2, None, fresh),
        Node::ArgsRoundBrackets(_, _, a2) => singles_marked(*a2, None, fresh),
        Node::FieldNamedBracket(_, _, a2, a3) => singles_marked(*a2, None, fresh) && singles_marked(*a3, None, fresh),
        Node::FieldNamed(_, _, a2, a3) => singles_marked(*a2, None, fresh) && singles_marked(*a3, None, fresh),
        Node::TableIndex(_, _, a2) => singles_marked(*a2, None, fresh),
        Node::TableMember(_, _, a2) => singles_marked(*a2, None, fresh),
        Node::ExpList(_, a1) => sep_items_singles(a1@, 0, None, fresh),
        Node::NameList(_, a1) => sep_items_singles(a1@, 0, None, fresh),
        Node::ParList(_, a1) => sep_items_singles(a1@, 0, None, fresh),
        Node::VarList(_, a1) => sep_items_singles(a1@, 0, None, fresh),
        Node::VarRoundSuffix(_, _, a2, a3) => singles_marked(*a2, None, fresh) && singles_marked(*a3, None, fresh),
        Node::VarSuffixList(_, a1) => pairs_singles(a1@, 0, fresh),
        Node::FnMethodCall(_, _, a2, a3) => singles_marked(*a2, None, fresh) && singles_marked(*a3, None, fresh),
        Node::FunctionDef(_, _, a2) => singles_marked(*a2, None, fresh),
        Node::FuncBodyB(_, _, a2) => singles_marked(*a2, None, fresh),
        Node::FuncPBody(_, _, a2) => singles_marked(*a2, None, fresh),
        Node::FuncPBodyB(_, _, a2, a3) => singles_marked(*a2, None, fresh) && singles_marked(*a3, None, fresh),
        Node::FuncName(_, a1) => sep_items_singles(a1@, 0, None, fresh),
        Node::FuncNameSelf(_, _, a2, a3) => sep_items_singles(a2@, 0, None, fresh) && singles_marked(*a3, None, fresh),
        Node::FuncDecl(_, _, a2, a3) => singles_marked(*a2, None, fresh) && singles_marked(*a3, None, fresh),
        Node::LocalFuncDecl(_, _, a2, a3) => singles_marked(*a2, None, fresh) && singles_marked(*a3, None, fresh),
        Node::StatementList(_, a1) => pairs_singles(a1@, 0, fresh),
        Node::DoBEnd(_, _, a2) => singles_marked(*a2, None, fresh),
        Node::VarsExprs(_, _, a2, a3) => singles_marked(*a2, None, fresh) && singles_marked(*a3, None, fresh),
        Node::Label(_, _, a2) => singles_marked(*a2, None, fresh),
        Node::GoTo(_, _, a2) => singles_marked(*a2, None, fresh),
        Node::WhileDo(_, _, a2) => singles_marked(*a2, None, fresh),
        Node::WhileDoB(_, _, a2, a3) => singles_marked(*a2, None, fresh) && singles_marked(*a3, None, fresh),
        Node::RepeatUntil(_, _, a2) => singles_marked(*a2, None, fresh),
        Node::RepeatBUntil(_, _, a2, a3) => singles_marked(*a2, None, fresh) && singles_marked(*a3, None, fresh),
        Node::ForInt(_, _, a2, a3, a4) => singles_marked(*a2, None, fresh) && singles_marked(*a3, None, fresh) && singles_marked(*a4, None, fresh),
        Node::ForIntB(_, _, a2, a3, a4, a5) => singles_marked(*a2, None, fresh) && singles_marked(*a3, None, fresh) && singles_marked(*a4, None, fresh) && singles_marked(*a5, None, fresh),
        Node::ForIntStep(_, _, a2, a3, a4, a5) => singles_marked(*a2, None, fresh) && singles_marked(*a3, None, fresh) && singles_marked(*a4, None, fresh) && singles_marked(*a5, None, fresh),
        Node::ForIntStepB(_, _, a2, a3, a4, a5, a6) => singles_marked(*a2, None, fresh) && singles_marked(*a3, None, fresh) && singles_marked(*a4, None, fresh) && singles_marked(*a5, None, fresh) && singles_marked(*a6, None, fresh),
        Node::ForRange(_, _, a2, a3) => singles_marked(*a2, None, fresh) && singles_marked(*a3, None, fresh),
        Node::ForRangeB(_, _, a2, a3, a4) => singles_marked(*a2, None, fresh) && singles_marked(*a3, None, fresh) && singles_marked(*a4, None, fresh),
        Node::LocalNames(_, _, a2) => singles_marked(*a2, None, fresh),
        Node::LocalNamesExprs(_, _, a2, a3) => singles_marked(*a2, None, fresh) && singles_marked(*a3, None, fresh),
        Node::IfThen(_, _, a2) => singles_marked(*a2, None, fresh),
        Node::IfThenB(_, _, a2, a3) => singles_marked(*a2, None, fresh) && singles_marked(*a3, None, fresh),
        Node::IfThenElse(_, _, a2) => singles_marked(*a2, None, fresh),
        Node::IfThenBElse(_, _, a2, a3) => singles_marked(*a2, None, fresh) && singles_marked(*a3, None, fresh),
        Node::IfThenElseB(_, _, a2, a3) => singles_marked(*a2, None, fresh) && singles_marked(*a3, None, fresh),
        Node::IfThenBElseB(_, _, a2, a3, a4) => singles_marked(*a2, None, fresh) && singles_marked(*a3, None, fresh) && singles_marked(*a4, None, fresh),
        Node::IfThenElseIf(_, _, a2, a3) => singles_marked(*a2, None, fresh) && singles_marked(*a3, None, fresh),
        Node::IfThenBElseIf(_, _, a2, a3, a4) => singles_marked(*a2, None, fresh) && singles_marked(*a3, None, fresh) && singles_marked(*a4, None, fresh),
        Node::IfThenElseIfElse(_, _, a2, a3) => singles_marked(*a2, None, fresh) && singles_marked(*a3, None, fresh),
        Node::IfThenBElseIfElse(_, _, a2, a3, a4) => singles_marked(*a2, None, fresh) && singles_marked(*a3, None, fresh) && singles_marked(*a4, None, fresh),
        Node::IfThenElseIfElseB(_, _, a2, a3, a4) => singles_marked(*a2, None, fresh) && singles_marked(*a3, None, fresh) && singles_marked(*a4, None, fresh),
        Node::IfThenBElseIfElseB(_, _, a2, a3, a4, a5) => singles_marked(*a2, None, fresh) && singles_marked(*a3, None, fresh) && singles_marked(*a4, None, fresh) && singles_marked(*a5, None, fresh),
        Node::ElseIfThenVec(_, a1) => pairs_singles(a1@, 0, fresh),
        Node::ElseIfThen(_, _, a2) => singles_marked(*a2, None, fresh),
        Node::ElseIfThenB(_, _, a2, a3) => singles_marked(*a2, None, fresh) && singles_marked(*a3, None, fresh),
        Node::RetStatExpr(_, _, a2) => singles_marked(*a2, None, fresh),
        Node::RetStatExprComma(_, _, a2) => singles_marked(*a2, None, fresh),
        Node::StatsRetStat(_, _, a2, a3) => singles_marked(*a2, None, fresh) && singles_marked(*a3, None, fresh),
        Node::Chunk(_, a1, _) => singles_marked(*a1, None, fresh),
        Node::SheBangChunk(_, a1, _, a3, _) => singles_marked(*a1, None, fresh) && singles_marked(*a3, None, fresh),
        _ => true,
    }
}

/// `singles_marked` over the items of a list with separators, from the `k`-th on: the
/// sequential fields are told `single`, the other items nothing.
pub open spec fn sep_items_singles(s: Seq<(Loc, Node, Loc, String)>, k: int, single: Option<bool>, fresh: bool) -> bool
    decreases s, s.len() - k,
{
    if k < 0 || k >= s.len() {
        true
    } else {
        singles_marked(s[k].1, if s[k].1 is FieldSequential { single } else { None }, fresh)
            && sep_items_singles(s, k + 1, single, fresh)
    }
}

/// `singles_marked` over the items of a list without separators, from the `k`-th on.
pub open spec fn pairs_singles(s: Seq<(Loc, Node)>, k: int, fresh: bool) -> bool
    decreases s, s.len() - k,
{
    if k < 0 || k >= s.len() {
        true
    } else {
        singles_marked(s[k].1, None, fresh) && pairs_singles(s, k + 1, fresh)
    }
}

proof fn lemma_sep_items_singles(s: Seq<(Loc, Node, Loc, String)>, k: int, single: Option<bool>, fresh: bool)
    requires
        0 <= k,
        forall|j: int| k <= j < s.len() ==> singles_marked(
            #[trigger] s[j].1,
            if s[j].1 is FieldSequential { single } else { None },
            fresh,
        ),
    ensures
        sep_items_singles(s, k, single, fresh),
    decreases s.len() - k,
{
    if k < s.len() {
        lemma_sep_items_singles(s, k + 1, single, fresh);
    }
}

proof fn lemma_pairs_singles(s: Seq<(Loc, Node)>, k: int, fresh: bool)
    requires
        0 <= k,
        forall|j: int| k <= j < s.len() ==> singles_marked(#[trigger] s[j].1, None, fresh),
    ensures
        pairs_singles(s, k, fresh),
    decreases s.len() - k,
{
    if k < s.len() {
        lemma_pairs_singles(s, k + 1, fresh);
    }
}

/// All items of the list are sequential fields.
pub open spec fn all_fields_sequential(v: Seq<(Loc, Node, Loc, String)>) -> bool {
    forall|j: int| 0 <= j < v.len() ==> (#[trigger] v[j]).1 is FieldSequential
}

/// What preparing a node tells a table about itself: the fields of a table learn whether
/// they are all sequential, and whether they are the single field of their parent (where
/// `single` says so); a table constructor learns whether it is a single child (where
/// `single` says nothing and nothing was known, it is taken as one) and what its fields learnt.
pub open spec fn table_marked(a: Node, b: Node, single: Option<bool>) -> bool {
    &&& a matches Node::Fields(_, v, o) ==> {
        &&& b matches Node::Fields(_, _, o2)
        &&& o2.is_iv_table == Some(all_fields_sequential(v@))
        &&& o2.is_single_child == if single is Some { single } else { o.is_single_child }
    }
    &&& a matches Node::TableConstructor(_, _, r, o) ==> {
        &&& b matches Node::TableConstructor(_, _, _, o2)
        &&& o2.is_single_child == if single is Some {
            single
        } else if o.is_single_child is None {
            Some(true)
        } else {
            o.is_single_child
        }
        &&& *r matches Node::Fields(_, rv, _) ==> o2.is_iv_table == Some(all_fields_sequential(rv@))
    }
}

/// A string in single quotes becomes the same string in double quotes.
pub open spec fn string_converted(a: Node, b: Node) -> bool {
    a matches Node::CharStringLiteral(sp, text) ==> {
        &&& b matches Node::NormalStringLiteral(sp2, text2)
        &&& sp2 == sp
        &&& text2@ == spec_charstring_to_normalstring(text@)
    }
}

/// Prepares the tree for writing: marks tables whose fields are all sequential and tables
/// that are the single field of their parent, widens the range of positions to format to
/// whole statements, and turns strings in single quotes into strings in double quotes where
/// the configuration asks for it. `single` is what a parent's fields tell a table
/// constructor below them. The node keeps the text it covers, and unless strings are
/// converted it stays where the text placed it.
/// The variants that `reconstruct_first_group` prepares.
pub open spec fn in_first_group(n: Node) -> bool {
    n is UnaryOp || n is UnaryNot || n is RoundBrackets || n is ArgsRoundBrackets || n is TableIndex || n is TableMember || n is FunctionDef || n is FuncBodyB || n is FuncPBody || n is LocalNames || n is IfThen || n is IfThenElse || n is ElseIfThen || n is Label || n is GoTo || n is WhileDo || n is RepeatUntil || n is RetStatExpr || n is RetStatExprComma || n is Chunk || n is DoBEnd || n is BinaryOp || n is Var || n is FieldNamedBracket || n is FieldNamed || n is VarRoundSuffix || n is FnMethodCall || n is FuncPBodyB || n is FuncDecl || n is LocalFuncDecl || n is LocalNamesExprs || n is IfThenB || n is IfThenBElse || n is IfThenElseB || n is IfThenElseIf || n is IfThenElseIfElse || n is ElseIfThenB || n is WhileDoB || n is RepeatBUntil || n is ForRange || n is StatsRetStat
}

/// The variants that `reconstruct_second_group` prepares.
pub open spec fn in_second_group(n: Node) -> bool {
    n is SheBangChunk || n is VarsExprs || n is IfThenBElseIf || n is IfThenBElseIfElse || n is IfThenElseIfElseB || n is ForInt || n is ForRangeB || n is IfThenBElseB || n is ForIntB || n is ForIntStep || n is IfThenBElseIfElseB || n is ForIntStepB || n is ArgsRoundBracketsEmpty || n is Nil || n is False || n is True || n is VarArg || n is Break || n is Numeral || n is NormalStringLiteral || n is MultiLineStringLiteral || n is TableConstructorEmpty || n is DoEnd || n is Name || n is RetStatNone || n is RetStatNoneComma || n is Semicolon || n is SheBang || n is FuncBody || n is ExpList || n is NameList || n is VarList || n is ParList || n is FuncName || n is VarSuffixList || n is ElseIfThenVec || n is FieldSequential || n is StatementList || n is FuncNameSelf || n is Fields || n is TableConstructor || n is CharStringLiteral
}

/// Whether the node is one that `reconstruct_first_group` prepares.
fn is_first_group(n: &Node) -> (res: bool)
    ensures
        res == in_first_group(*n),
{
    match n {
        Node::UnaryOp(..)
        | Node::UnaryNot(..)
        | Node::RoundBrackets(..)
        | Node::ArgsRoundBrackets(..)
        | Node::TableIndex(..)
        | Node::TableMember(..)
        | Node::FunctionDef(..)
        | Node::FuncBodyB(..)
        | Node::FuncPBody(..)
        | Node::LocalNames(..)
        | Node::IfThen(..)
        | Node::IfThenElse(..)
        | Node::ElseIfThen(..)
        | Node::Label(..)
        | Node::GoTo(..)
        | Node::WhileDo(..)
        | Node::RepeatUntil(..)
        | Node::RetStatExpr(..)
        | Node::RetStatExprComma(..)
        | Node::Chunk(..)
        | Node::DoBEnd(..)
        | Node::BinaryOp(..)
        | Node::Var(..)
        | Node::FieldNamedBracket(..)
        | Node::FieldNamed(..)
        | Node::VarRoundSuffix(..)
        | Node::FnMethodCall(..)
        | Node::FuncPBodyB(..)
        | Node::FuncDecl(..)
        | Node::LocalFuncDecl(..)
        | Node::LocalNamesExprs(..)
        | Node::IfThenB(..)
        | Node::IfThenBElse(..)
        | Node::IfThenElseB(..)
        | Node::IfThenElseIf(..)
        | Node::IfThenElseIfElse(..)
        | Node::ElseIfThenB(..)
        | Node::WhileDoB(..)
        | Node::RepeatBUntil(..)
        | Node::ForRange(..)
        | Node::StatsRetStat(..) => true,
        _ => false,
    }
}


fn reconstruct(node: &mut Node, cfg: &Config, state: &mut State, single: Option<bool>)
    ensures
        prepared(*old(node), *final(node), *cfg),
        widened(*old(state), *final(state)),
        table_marked(*old(node), *final(node), single),
        kinds_kept(*old(node), *final(node)),
        tables_marked(*final(node)),
        converted_tree(*old(node), *final(node), cfg.fmt.convert_charstring_to_normalstring == Some(true)),
        final(state).pos_range == widen_tree(*old(node), old(state).block_nested_level, old(state).pos_range),
        singles_marked(*final(node), single, false),
        flags_unset(*old(node)) ==> singles_marked(*final(node), single, true),
        cfg.fmt.convert_charstring_to_normalstring == Some(true) ==> string_converted(*old(node), *final(node))
            && no_char_strings(*final(node)),
    decreases *old(node), 2nat,
{
    if is_first_group(node) {
        reconstruct_first_group(node, cfg, state, single)
    } else {
        reconstruct_second_group(node, cfg, state, single)
    }
}

#[verifier::rlimit(100)]
#[verifier::spinoff_prover]
fn reconstruct_first_group(node: &mut Node, cfg: &Config, state: &mut State, single: Option<bool>)
    requires
        in_first_group(*old(node)),
    ensures
        prepared(*old(node), *final(node), *cfg),
        widened(*old(state), *final(state)),
        table_marked(*old(node), *final(node), single),
        kinds_kept(*old(node), *final(node)),
        tables_marked(*final(node)),
        converted_tree(*old(node), *final(node), cfg.fmt.convert_charstring_to_normalstring == Some(true)),
        final(state).pos_range == widen_tree(*old(node), old(state).block_nested_level, old(state).pos_range),
        singles_marked(*final(node), single, false),
        flags_unset(*old(node)) ==> singles_marked(*final(node), single, true),
        cfg.fmt.convert_charstring_to_normalstring == Some(true) ==> string_converted(*old(node), *final(node))
            && no_char_strings(*final(node)),
    decreases *old(node), 1nat,
{
    let ghost before = *node;
    match node {
        Node::UnaryOp(span, _, _, n1) => {
            update_pos_range(span, state);
            reconstruct(&mut **n1, cfg, state, None);
        },
        Node::UnaryNot(span, _, n1) => {
            update_pos_range(span, state);
            reconstruct(&mut **n1, cfg, state, None);
        },
        Node::RoundBrackets(span, _, n1) => {
            update_pos_range(span, state);
            reconstruct(&mut **n1, cfg, state, None);
        },
        Node::ArgsRoundBrackets(span, _, n1) => {
            update_pos_range(span, state);
            reconstruct(&mut **n1, cfg, state, None);
        },
        Node::TableIndex(span, _, n1) => {
            update_pos_range(span, state);
            reconstruct(&mut **n1, cfg, state, None);
        },
        Node::TableMember(span, _, n1) => {
            update_pos_range(span, state);
            reconstruct(&mut **n1, cfg, state, None);
        },
        Node::FunctionDef(span, _, n1) => {
            update_pos_range(span, state);
            reconstruct(&mut **n1, cfg, state, None);
        },
        Node::FuncBodyB(span, _, n1) => {
            update_pos_range(span, state);
            reconstruct(&mut **n1, cfg, state, None);
        },
        Node::FuncPBody(span, _, n1) => {
            update_pos_range(span, state);
            reconstruct(&mut **n1, cfg, state, None);
        },
        Node::LocalNames(span, _, n1) => {
            update_pos_range(span, state);
            reconstruct(&mut **n1, cfg, state, None);
        },
        Node::IfThen(span, _, n1) => {
            update_pos_range(span, state);
            reconstruct(&mut **n1, cfg, state, None);
        },
        Node::IfThenElse(span, _, n1) => {
            update_pos_range(span, state);
            reconstruct(&mut **n1, cfg, state, None);
        },
        Node::ElseIfThen(span, _, n1) => {
            update_pos_range(span, state);
            reconstruct(&mut **n1, cfg, state, None);
        },
        Node::Label(span, _, n1) => {
            update_pos_range(span, state);
            reconstruct(&mut **n1, cfg, state, None);
        },
        Node::GoTo(span, _, n1) => {
            update_pos_range(span, state);
            reconstruct(&mut **n1, cfg, state, None);
        },
        Node::WhileDo(span, _, n1) => {
            update_pos_range(span, state);
            reconstruct(&mut **n1, cfg, state, None);
        },
        Node::RepeatUntil(span, _, n1) => {
            update_pos_range(span, state);
            reconstruct(&mut **n1, cfg, state, None);
        },
        Node::RetStatExpr(span, _, n1) => {
            update_pos_range(span, state);
            reconstruct(&mut **n1, cfg, state, None);
        },
        Node::RetStatExprComma(span, _, n1) => {
            update_pos_range(span, state);
            reconstruct(&mut **n1, cfg, state, None);
        },
        Node::Chunk(span, n1, _) => {
            update_pos_range(span, state);
            reconstruct(&mut **n1, cfg, state, None);
        },
        Node::DoBEnd(span, _, n1) => {
            update_pos_range(span, state);
            reconstruct(&mut **n1, cfg, state, None);
        },
        Node::BinaryOp(span, _, _, n1, n2) => {
            update_pos_range(span, state);
            reconstruct(&mut **n1, cfg, state, None);
            reconstruct(&mut **n2, cfg, state, None);
        },
        Node::Var(span, _, n1, n2) => {
            update_pos_range(span, state);
            reconstruct(&mut **n1, cfg, state, None);
            reconstruct(&mut **n2, cfg, state, None);
        },
        Node::FieldNamedBracket(span, _, n1, n2) => {
            update_pos_range(span, state);
            reconstruct(&mut **n1, cfg, state, None);
            reconstruct(&mut **n2, cfg, state, None);
        },
        Node::FieldNamed(span, _, n1, n2) => {
            update_pos_range(span, state);
            reconstruct(&mut **n1, cfg, state, None);
            reconstruct(&mut **n2, cfg, state, None);
        },
        Node::VarRoundSuffix(span, _, n1, n2) => {
            update_pos_range(span, state);
            reconstruct(&mut **n1, cfg, state, None);
            reconstruct(&mut **n2, cfg, state, None);
        },
        Node::FnMethodCall(span, _, n1, n2) => {
            update_pos_range(span, state);
            reconstruct(&mut **n1, cfg, state, None);
            reconstruct(&mut **n2, cfg, state, None);
        },
        Node::FuncPBodyB(span, _, n1, n2) => {
            update_pos_range(span, state);
            reconstruct(&mut **n1, cfg, state, None);
            reconstruct(&mut **n2, cfg, state, None);
        },
        Node::FuncDecl(span, _, n1, n2) => {
            update_pos_range(span, state);
            reconstruct(&mut **n1, cfg, state, None);
            reconstruct(&mut **n2, cfg, state, None);
        },
        Node::LocalFuncDecl(span, _, n1, n2) => {
            update_pos_range(span, state);
            reconstruct(&mut **n1, cfg, state, None);
            reconstruct(&mut **n2, cfg, state, None);
        },
        Node::LocalNamesExprs(span, _, n1, n2) => {
            update_pos_range(span, state);
            reconstruct(&mut **n1, cfg, state, None);
            reconstruct(&mut **n2, cfg, state, None);
        },
        Node::IfThenB(span, _, n1, n2) => {
            update_pos_range(span, state);
            reconstruct(&mut **n1, cfg, state, None);
            reconstruct(&mut **n2, cfg, state, None);
        },
        Node::IfThenBElse(span, _, n1, n2) => {
            update_pos_range(span, state);
            reconstruct(&mut **n1, cfg, state, None);
            reconstruct(&mut **n2, cfg, state, None);
        },
        Node::IfThenElseB(span, _, n1, n2) => {
            update_pos_range(span, state);
            reconstruct(&mut **n1, cfg, state, None);
            reconstruct(&mut **n2, cfg, state, None);
        },
        Node::IfThenElseIf(span, _, n1, n2) => {
            update_pos_range(span, state);
            reconstruct(&mut **n1, cfg, state, None);
            reconstruct(&mut **n2, cfg, state, None);
        },
        Node::IfThenElseIfElse(span, _, n1, n2) => {
            update_pos_range(span, state);
            reconstruct(&mut **n1, cfg, state, None);
            reconstruct(&mut **n2, cfg, state, None);
        },
        Node::ElseIfThenB(span, _, n1, n2) => {
            update_pos_range(span, state);
            reconstruct(&mut **n1, cfg, state, None);
            reconstruct(&mut **n2, cfg, state, None);
        },
        Node::WhileDoB(span, _, n1, n2) => {
            update_pos_range(span, state);
            reconstruct(&mut **n1, cfg, state, None);
            reconstruct(&mut **n2, cfg, state, None);
        },
        Node::RepeatBUntil(span, _, n1, n2) => {
            update_pos_range(span, state);
            reconstruct(&mut **n1, cfg, state, None);
            reconstruct(&mut **n2, cfg, state, None);
        },
        Node::ForRange(span, _, n1, n2) => {
            update_pos_range(span, state);
            reconstruct(&mut **n1, cfg, state, None);
            reconstruct(&mut **n2, cfg, state, None);
        },
        Node::StatsRetStat(span, _, n1, n2) => {
            update_pos_range(span, state);
            reconstruct(&mut **n1, cfg, state, None);
            reconstruct(&mut **n2, cfg, state, None);
        },
        _ => {},
    }
    proof {
        if cfg.fmt.convert_charstring_to_normalstring != Some(true) {
            assert forall|t: Seq<char>| placed(before, t) implies #[trigger] placed(*node, t) by {
                reveal(placed);
                match before {
                    Node::BinaryOp(_, _, _, c3, c4) => {
                        assert(placed(*c3, t));
                        assert(placed(*c4, t));
                    },
                    Node::UnaryOp(_, _, _, c3) => {
                        assert(placed(*c3, t));
                    },
                    Node::UnaryNot(_, _, c2) => {
                        assert(placed(*c2, t));
                    },
                    Node::Var(_, _, c2, c3) => {
                        assert(placed(*c2, t));
                        assert(placed(*c3, t));
                    },
                    Node::RoundBrackets(_, _, c2) => {
                        assert(placed(*c2, t));
                    },
                    Node::ArgsRoundBrackets(_, _, c2) => {
                        assert(placed(*c2, t));
                    },
                    Node::TableConstructor(_, _, c2, _) => {
                        assert(placed(*c2, t));
                    },
                    Node::Fields(_, c1, _) => {
                        assert(sep_nodes_placed(c1@, 0, t));
                    },
                    Node::FieldNamedBracket(_, _, c2, c3) => {
                        assert(placed(*c2, t));
                        assert(placed(*c3, t));
                    },
                    Node::FieldNamed(_, _, c2, c3) => {
                        assert(placed(*c2, t));
                        assert(placed(*c3, t));
                    },
                    Node::FieldSequential(_, c1) => {
                        assert(placed(*c1, t));
                    },
                    Node::TableIndex(_, _, c2) => {
                        assert(placed(*c2, t));
                    },
                    Node::TableMember(_, _, c2) => {
                        assert(placed(*c2, t));
                    },
                    Node::ExpList(_, c1) => {
                        assert(sep_nodes_placed(c1@, 0, t));
                    },
                    Node::NameList(_, c1) => {
                        assert(sep_nodes_placed(c1@, 0, t));
                    },
                    Node::ParList(_, c1) => {
                        assert(sep_nodes_placed(c1@, 0, t));
                    },
                    Node::VarList(_, c1) => {
                        assert(sep_nodes_placed(c1@, 0, t));
                    },
                    Node::VarRoundSuffix(_, _, c2, c3) => {
                        assert(placed(*c2, t));
                        assert(placed(*c3, t));
                    },
                    Node::VarSuffixList(_, c1) => {
                        assert(nodes_placed(c1@, 0, t));
                    },
                    Node::FnMethodCall(_, _, c2, c3) => {
                        assert(placed(*c2, t));
                        assert(placed(*c3, t));
                    },
                    Node::FunctionDef(_, _, c2) => {
                        assert(placed(*c2, t));
                    },
                    Node::FuncBodyB(_, _, c2) => {
                        assert(placed(*c2, t));
                    },
                    Node::FuncPBody(_, _, c2) => {
                        assert(placed(*c2, t));
                    },
                    Node::FuncPBodyB(_, _, c2, c3) => {
                        assert(placed(*c2, t));
                        assert(placed(*c3, t));
                    },
                    Node::FuncName(_, c1) => {
                        assert(sep_nodes_placed(c1@, 0, t));
                    },
                    Node::FuncNameSelf(_, _, c2, c3) => {
                        assert(sep_nodes_placed(c2@, 0, t));
                        assert(placed(*c3, t));
                    },
                    Node::FuncDecl(_, _, c2, c3) => {
                        assert(placed(*c2, t));
                        assert(placed(*c3, t));
                    },
                    Node::LocalFuncDecl(_, _, c2, c3) => {
                        assert(placed(*c2, t));
                        assert(placed(*c3, t));
                    },
                    Node::StatementList(_, c1) => {
                        assert(nodes_placed(c1@, 0, t));
                    },
                    Node::DoBEnd(_, _, c2) => {
                        assert(placed(*c2, t));
                    },
                    Node::VarsExprs(_, _, c2, c3) => {
                        assert(placed(*c2, t));
                        assert(placed(*c3, t));
                    },
                    Node::Label(_, _, c2) => {
                        assert(placed(*c2, t));
                    },
                    Node::GoTo(_, _, c2) => {
                        assert(placed(*c2, t));
                    },
                    Node::WhileDo(_, _, c2) => {
                        assert(placed(*c2, t));
                    },
                    Node::WhileDoB(_, _, c2, c3) => {
                        assert(placed(*c2, t));
                        assert(placed(*c3, t));
                    },
                    Node::RepeatUntil(_, _, c2) => {
                        assert(placed(*c2, t));
                    },
                    Node::RepeatBUntil(_, _, c2, c3) => {
                        assert(placed(*c2, t));
                        assert(placed(*c3, t));
                    },
                    Node::ForInt(_, _, c2, c3, c4) => {
                        assert(placed(*c2, t));
                        assert(placed(*c3, t));
                        assert(placed(*c4, t));
                    },
                    Node::ForIntB(_, _, c2, c3, c4, c5) => {
                        assert(placed(*c2, t));
                        assert(placed(*c3, t));
                        assert(placed(*c4, t));
                        assert(placed(*c5, t));
                    },
                    Node::ForIntStep(_, _, c2, c3, c4, c5) => {
                        assert(placed(*c2, t));
                        assert(placed(*c3, t));
                        assert(placed(*c4, t));
                        assert(placed(*c5, t));
                    },
                    Node::ForIntStepB(_, _, c2, c3, c4, c5, c6) => {
                        assert(placed(*c2, t));
                        assert(placed(*c3, t));
                        assert(placed(*c4, t));
                        assert(placed(*c5, t));
                        assert(placed(*c6, t));
                    },
                    Node::ForRange(_, _, c2, c3) => {
                        assert(placed(*c2, t));
                        assert(placed(*c3, t));
                    },
                    Node::ForRangeB(_, _, c2, c3, c4) => {
                        assert(placed(*c2, t));
                        assert(placed(*c3, t));
                        assert(placed(*c4, t));
                    },
                    Node::LocalNames(_, _, c2) => {
                        assert(placed(*c2, t));
                    },
                    Node::LocalNamesExprs(_, _, c2, c3) => {
                        assert(placed(*c2, t));
                        assert(placed(*c3, t));
                    },
                    Node::IfThen(_, _, c2) => {
                        assert(placed(*c2, t));
                    },
                    Node::IfThenB(_, _, c2, c3) => {
                        assert(placed(*c2, t));
                        assert(placed(*c3, t));
                    },
                    Node::IfThenElse(_, _, c2) => {
                        assert(placed(*c2, t));
                    },
                    Node::IfThenBElse(_, _, c2, c3) => {
                        assert(placed(*c2, t));
                        assert(placed(*c3, t));
                    },
                    Node::IfThenElseB(_, _, c2, c3) => {
                        assert(placed(*c2, t));
                        assert(placed(*c3, t));
                    },
                    Node::IfThenBElseB(_, _, c2, c3, c4) => {
                        assert(placed(*c2, t));
                        assert(placed(*c3, t));
                        assert(placed(*c4, t));
                    },
                    Node::IfThenElseIf(_, _, c2, c3) => {
                        assert(placed(*c2, t));
                        assert(placed(*c3, t));
                    },
                    Node::IfThenBElseIf(_, _, c2, c3, c4) => {
                        assert(placed(*c2, t));
                        assert(placed(*c3, t));
                        assert(placed(*c4, t));
                    },
                    Node::IfThenElseIfElse(_, _, c2, c3) => {
                        assert(placed(*c2, t));
                        assert(placed(*c3, t));
                    },
                    Node::IfThenBElseIfElse(_, _, c2, c3, c4) => {
                        assert(placed(*c2, t));
                        assert(placed(*c3, t));
                        assert(placed(*c4, t));
                    },
                    Node::IfThenElseIfElseB(_, _, c2, c3, c4) => {
                        assert(placed(*c2, t));
                        assert(placed(*c3, t));
                        assert(placed(*c4, t));
                    },
                    Node::IfThenBElseIfElseB(_, _, c2, c3, c4, c5) => {
                        assert(placed(*c2, t));
                        assert(placed(*c3, t));
                        assert(placed(*c4, t));
                        assert(placed(*c5, t));
                    },
                    Node::ElseIfThenVec(_, c1) => {
                        assert(nodes_placed(c1@, 0, t));
                    },
                    Node::ElseIfThen(_, _, c2) => {
                        assert(placed(*c2, t));
                    },
                    Node::ElseIfThenB(_, _, c2, c3) => {
                        assert(placed(*c2, t));
                        assert(placed(*c3, t));
                    },
                    Node::RetStatExpr(_, _, c2) => {
                        assert(placed(*c2, t));
                    },
                    Node::RetStatExprComma(_, _, c2) => {
                        assert(placed(*c2, t));
                    },
                    Node::StatsRetStat(_, _, c2, c3) => {
                        assert(placed(*c2, t));
                        assert(placed(*c3, t));
                    },
                    Node::Chunk(_, c1, _) => {
                        assert(placed(*c1, t));
                    },
                    Node::SheBangChunk(_, c1, _, c3, _) => {
                        assert(placed(*c1, t));
                        assert(placed(*c3, t));
                    },
                    _ => {},
                }
            }
        }
    }
}


#[verifier::rlimit(100)]
#[verifier::spinoff_prover]
fn reconstruct_second_group(node: &mut Node, cfg: &Config, state: &mut State, single: Option<bool>)
    requires
        in_second_group(*old(node)),
    ensures
        prepared(*old(node), *final(node), *cfg),
        widened(*old(state), *final(state)),
        table_marked(*old(node), *final(node), single),
        kinds_kept(*old(node), *final(node)),
        tables_marked(*final(node)),
        converted_tree(*old(node), *final(node), cfg.fmt.convert_charstring_to_normalstring == Some(true)),
        final(state).pos_range == widen_tree(*old(node), old(state).block_nested_level, old(state).pos_range),
        singles_marked(*final(node), single, false),
        flags_unset(*old(node)) ==> singles_marked(*final(node), single, true),
        cfg.fmt.convert_charstring_to_normalstring == Some(true) ==> string_converted(*old(node), *final(node))
            && no_char_strings(*final(node)),
    decreases *old(node), 1nat,
{
    let ghost before = *node;
    match node {
        Node::SheBangChunk(span, n1, _, n2, _) => {
            update_pos_range(span, state);
            reconstruct(&mut **n1, cfg, state, None);
            reconstruct(&mut **n2, cfg, state, None);
        },
        Node::VarsExprs(span, _, n1, n2) => {
            update_pos_range(span, state);
            reconstruct(&mut **n1, cfg, state, None);
            reconstruct(&mut **n2, cfg, state, None);
        },
        Node::IfThenBElseIf(span, _, n1, n2, n3) => {
            update_pos_range(span, state);
            reconstruct(&mut **n1, cfg, state, None);
            reconstruct(&mut **n2, cfg, state, None);
            reconstruct(&mut **n3, cfg, state, None);
        },
        Node::IfThenBElseIfElse(span, _, n1, n2, n3) => {
            update_pos_range(span, state);
            reconstruct(&mut **n1, cfg, state, None);
            reconstruct(&mut **n2, cfg, state, None);
            reconstruct(&mut **n3, cfg, state, None);
        },
        Node::IfThenElseIfElseB(span, _, n1, n2, n3) => {
            update_pos_range(span, state);
            reconstruct(&mut **n1, cfg, state, None);
            reconstruct(&mut **n2, cfg, state, None);
            reconstruct(&mut **n3, cfg, state, None);
        },
        Node::ForInt(span, _, n1, n2, n3) => {
            update_pos_range(span, state);
            reconstruct(&mut **n1, cfg, state, None);
            reconstruct(&mut **n2, cfg, state, None);
            reconstruct(&mut **n3, cfg, state, None);
        },
        Node::ForRangeB(span, _, n1, n2, n3) => {
            update_pos_range(span, state);
            reconstruct(&mut **n1, cfg, state, None);
            reconstruct(&mut **n2, cfg, state, None);
            reconstruct(&mut **n3, cfg, state, None);
        },
        Node::IfThenBElseB(span, _, n1, n2, n3) => {
            update_pos_range(span, state);
            reconstruct(&mut **n1, cfg, state, None);
            reconstruct(&mut **n2, cfg, state, None);
            reconstruct(&mut **n3, cfg, state, None);
        },
        Node::ForIntB(span, _, n1, n2, n3, n4) => {
            update_pos_range(span, state);
            reconstruct(&mut **n1, cfg, state, None);
            reconstruct(&mut **n2, cfg, state, None);
            reconstruct(&mut **n3, cfg, state, None);
            reconstruct(&mut **n4, cfg, state, None);
        },
        Node::ForIntStep(span, _, n1, n2, n3, n4) => {
            update_pos_range(span, state);
            reconstruct(&mut **n1, cfg, state, None);
            reconstruct(&mut **n2, cfg, state, None);
            reconstruct(&mut **n3, cfg, state, None);
            reconstruct(&mut **n4, cfg, state, None);
        },
        Node::IfThenBElseIfElseB(span, _, n1, n2, n3, n4) => {
            update_pos_range(span, state);
            reconstruct(&mut **n1, cfg, state, None);
            reconstruct(&mut **n2, cfg, state, None);
            reconstruct(&mut **n3, cfg, state, None);
            reconstruct(&mut **n4, cfg, state, None);
        },
        Node::ForIntStepB(span, _, n1, n2, n3, n4, n5) => {
            update_pos_range(span, state);
            reconstruct(&mut **n1, cfg, state, None);
            reconstruct(&mut **n2, cfg, state, None);
            reconstruct(&mut **n3, cfg, state, None);
            reconstruct(&mut **n4, cfg, state, None);
            reconstruct(&mut **n5, cfg, state, None);
        },
        Node::ArgsRoundBracketsEmpty(span, _) => {
            update_pos_range(span, state);
        },
        Node::Nil(span) => {
            update_pos_range(span, state);
        },
        Node::False(span) => {
            update_pos_range(span, state);
        },
        Node::True(span) => {
            update_pos_range(span, state);
        },
        Node::VarArg(span) => {
            update_pos_range(span, state);
        },
        Node::Break(span) => {
            update_pos_range(span, state);
        },
        Node::Numeral(span, _) => {
            update_pos_range(span, state);
        },
        Node::NormalStringLiteral(span, _) => {
            update_pos_range(span, state);
        },
        Node::MultiLineStringLiteral(span, _, _) => {
            update_pos_range(span, state);
        },
        Node::TableConstructorEmpty(span, _) => {
            update_pos_range(span, state);
        },
        Node::DoEnd(span, _) => {
            update_pos_range(span, state);
        },
        Node::Name(span, _) => {
            update_pos_range(span, state);
        },
        Node::RetStatNone(span) => {
            update_pos_range(span, state);
        },
        Node::RetStatNoneComma(span, _) => {
            update_pos_range(span, state);
        },
        Node::Semicolon(span) => {
            update_pos_range(span, state);
        },
        Node::SheBang(span, _) => {
            update_pos_range(span, state);
        },
        Node::FuncBody(span, _) => {
            update_pos_range(span, state);
        },
        Node::ExpList(span, v) => {
            update_pos_range(span, state);
            reconstruct_items(v, cfg, state, None);
        },
        Node::NameList(span, v) => {
            update_pos_range(span, state);
            reconstruct_items(v, cfg, state, None);
        },
        Node::VarList(span, v) => {
            update_pos_range(span, state);
            reconstruct_items(v, cfg, state, None);
        },
        Node::ParList(span, v) => {
            update_pos_range(span, state);
            reconstruct_items(v, cfg, state, None);
        },
        Node::FuncName(span, v) => {
            update_pos_range(span, state);
            reconstruct_items(v, cfg, state, None);
        },
        Node::VarSuffixList(span, v) => {
            update_pos_range(span, state);
            reconstruct_pairs(v, cfg, state);
        },
        Node::ElseIfThenVec(span, v) => {
            update_pos_range(span, state);
            reconstruct_pairs(v, cfg, state);
        },
        Node::FieldSequential(span, n1) => {
            update_pos_range(span, state);
            reconstruct(&mut **n1, cfg, state, single);
        },
        Node::StatementList(_, v) => {
            let entered = state.block_nested_level < isize::MAX;
            if entered {
                state.block_nested_level = state.block_nested_level + 1;
            }
            reconstruct_pairs(v, cfg, state);
            if entered && state.block_nested_level > isize::MIN {
                state.block_nested_level = state.block_nested_level - 1;
            }
        },
        Node::FuncNameSelf(span, _, v, n1) => {
            update_pos_range(span, state);
            reconstruct_items(v, cfg, state, None);
            reconstruct(&mut **n1, cfg, state, None);
        },
        Node::Fields(_, v, opts) => {
            let has_single_child = v.len() == 1;
            if single.is_some() {
                opts.is_single_child = single;
            }
            let ghost v0 = v@;
            let is_iv = reconstruct_items(v, cfg, state, Some(has_single_child));
            opts.is_iv_table = Some(is_iv);
            proof {
                assert(all_fields_sequential(v@) == all_fields_sequential(v0));
            }
        },
        Node::TableConstructor(span, _, r, opts) => {
            update_pos_range(span, state);
            if single.is_some() {
                opts.is_single_child = single;
            }
            if opts.is_single_child.is_none() {
                opts.is_single_child = Some(true);
            }
            let inherited = opts.is_single_child;
            reconstruct(&mut **r, cfg, state, inherited);
            if let Node::Fields(_, _, field_opts) = &**r {
                opts.is_iv_table = field_opts.is_iv_table;
            }
        },
        Node::CharStringLiteral(span, s) => {
            update_pos_range(span, state);
            if cfg.fmt.convert_charstring_to_normalstring == Some(true) {
                let converted = charstring_to_normalstring(s.as_str());
                let sp = *span;
                *node = Node::NormalStringLiteral(sp, converted);
            }
        },
        _ => {},
    }
    proof {
        if cfg.fmt.convert_charstring_to_normalstring != Some(true) {
            assert forall|t: Seq<char>| placed(before, t) implies #[trigger] placed(*node, t) by {
                reveal(placed);
                match before {
                    Node::BinaryOp(_, _, _, c3, c4) => {
                        assert(placed(*c3, t));
                        assert(placed(*c4, t));
                    },
                    Node::UnaryOp(_, _, _, c3) => {
                        assert(placed(*c3, t));
                    },
                    Node::UnaryNot(_, _, c2) => {
                        assert(placed(*c2, t));
                    },
                    Node::Var(_, _, c2, c3) => {
                        assert(placed(*c2, t));
                        assert(placed(*c3, t));
                    },
                    Node::RoundBrackets(_, _, c2) => {
                        assert(placed(*c2, t));
                    },
                    Node::ArgsRoundBrackets(_, _, c2) => {
                        assert(placed(*c2, t));
                    },
                    Node::TableConstructor(_, _, c2, _) => {
                        assert(placed(*c2, t));
                    },
                    Node::Fields(_, c1, _) => {
                        assert(sep_nodes_placed(c1@, 0, t));
                    },
                    Node::FieldNamedBracket(_, _, c2, c3) => {
                        assert(placed(*c2, t));
                        assert(placed(*c3, t));
                    },
                    Node::FieldNamed(_, _, c2, c3) => {
                        assert(placed(*c2, t));
                        assert(placed(*c3, t));
                    },
                    Node::FieldSequential(_, c1) => {
                        assert(placed(*c1, t));
                    },
                    Node::TableIndex(_, _, c2) => {
                        assert(placed(*c2, t));
                    },
                    Node::TableMember(_, _, c2) => {
                        assert(placed(*c2, t));
                    },
                    Node::ExpList(_, c1) => {
                        assert(sep_nodes_placed(c1@, 0, t));
                    },
                    Node::NameList(_, c1) => {
                        assert(sep_nodes_placed(c1@, 0, t));
                    },
                    Node::ParList(_, c1) => {
                        assert(sep_nodes_placed(c1@, 0, t));
                    },
                    Node::VarList(_, c1) => {
                        assert(sep_nodes_placed(c1@, 0, t));
                    },
                    Node::VarRoundSuffix(_, _, c2, c3) => {
                        assert(placed(*c2, t));
                        assert(placed(*c3, t));
                    },
                    Node::VarSuffixList(_, c1) => {
                        assert(nodes_placed(c1@, 0, t));
                    },
                    Node::FnMethodCall(_, _, c2, c3) => {
                        assert(placed(*c2, t));
                        assert(placed(*c3, t));
                    },
                    Node::FunctionDef(_, _, c2) => {
                        assert(placed(*c2, t));
                    },
                    Node::FuncBodyB(_, _, c2) => {
                        assert(placed(*c2, t));
                    },
                    Node::FuncPBody(_, _, c2) => {
                        assert(placed(*c2, t));
                    },
                    Node::FuncPBodyB(_, _, c2, c3) => {
                        assert(placed(*c2, t));
                        assert(placed(*c3, t));
                    },
                    Node::FuncName(_, c1) => {
                        assert(sep_nodes_placed(c1@, 0, t));
                    },
                    Node::FuncNameSelf(_, _, c2, c3) => {
                        assert(sep_nodes_placed(c2@, 0, t));
                        assert(placed(*c3, t));
                    },
                    Node::FuncDecl(_, _, c2, c3) => {
                        assert(placed(*c2, t));
                        assert(placed(*c3, t));
                    },
                    Node::LocalFuncDecl(_, _, c2, c3) => {
                        assert(placed(*c2, t));
                        assert(placed(*c3, t));
                    },
                    Node::StatementList(_, c1) => {
                        assert(nodes_placed(c1@, 0, t));
                    },
                    Node::DoBEnd(_, _, c2) => {
                        assert(placed(*c2, t));
                    },
                    Node::VarsExprs(_, _, c2, c3) => {
                        assert(placed(*c2, t));
                        assert(placed(*c3, t));
                    },
                    Node::Label(_, _, c2) => {
                        assert(placed(*c2, t));
                    },
                    Node::GoTo(_, _, c2) => {
                        assert(placed(*c2, t));
                    },
                    Node::WhileDo(_, _, c2) => {
                        assert(placed(*c2, t));
                    },
                    Node::WhileDoB(_, _, c2, c3) => {
                        assert(placed(*c2, t));
                        assert(placed(*c3, t));
                    },
                    Node::RepeatUntil(_, _, c2) => {
                        assert(placed(*c2, t));
                    },
                    Node::RepeatBUntil(_, _, c2, c3) => {
                        assert(placed(*c2, t));
                        assert(placed(*c3, t));
                    },
                    Node::ForInt(_, _, c2, c3, c4) => {
                        assert(placed(*c2, t));
                        assert(placed(*c3, t));
                        assert(placed(*c4, t));
                    },
                    Node::ForIntB(_, _, c2, c3, c4, c5) => {
                        assert(placed(*c2, t));
                        assert(placed(*c3, t));
                        assert(placed(*c4, t));
                        assert(placed(*c5, t));
                    },
                    Node::ForIntStep(_, _, c2, c3, c4, c5) => {
                        assert(placed(*c2, t));
                        assert(placed(*c3, t));
                        assert(placed(*c4, t));
                        assert(placed(*c5, t));
                    },
                    Node::ForIntStepB(_, _, c2, c3, c4, c5, c6) => {
                        assert(placed(*c2, t));
                        assert(placed(*c3, t));
                        assert(placed(*c4, t));
                        assert(placed(*c5, t));
                        assert(placed(*c6, t));
                    },
                    Node::ForRange(_, _, c2, c3) => {
                        assert(placed(*c2, t));
                        assert(placed(*c3, t));
                    },
                    Node::ForRangeB(_, _, c2, c3, c4) => {
                        assert(placed(*c2, t));
                        assert(placed(*c3, t));
                        assert(placed(*c4, t));
                    },
                    Node::LocalNames(_, _, c2) => {
                        assert(placed(*c2, t));
                    },
                    Node::LocalNamesExprs(_, _, c2, c3) => {
                        assert(placed(*c2, t));
                        assert(placed(*c3, t));
                    },
                    Node::IfThen(_, _, c2) => {
                        assert(placed(*c2, t));
                    },
                    Node::IfThenB(_, _, c2, c3) => {
                        assert(placed(*c2, t));
                        assert(placed(*c3, t));
                    },
                    Node::IfThenElse(_, _, c2) => {
                        assert(placed(*c2, t));
                    },
                    Node::IfThenBElse(_, _, c2, c3) => {
                        assert(placed(*c2, t));
                        assert(placed(*c3, t));
                    },
                    Node::IfThenElseB(_, _, c2, c3) => {
                        assert(placed(*c2, t));
                        assert(placed(*c3, t));
                    },
                    Node::IfThenBElseB(_, _, c2, c3, c4) => {
                        assert(placed(*c2, t));
                        assert(placed(*c3, t));
                        assert(placed(*c4, t));
                    },
                    Node::IfThenElseIf(_, _, c2, c3) => {
                        assert(placed(*c2, t));
                        assert(placed(*c3, t));
                    },
                    Node::IfThenBElseIf(_, _, c2, c3, c4) => {
                        assert(placed(*c2, t));
                        assert(placed(*c3, t));
                        assert(placed(*c4, t));
                    },
                    Node::IfThenElseIfElse(_, _, c2, c3) => {
                        assert(placed(*c2, t));
                        assert(placed(*c3, t));
                    },
                    Node::IfThenBElseIfElse(_, _, c2, c3, c4) => {
                        assert(placed(*c2, t));
                        assert(placed(*c3, t));
                        assert(placed(*c4, t));
                    },
                    Node::IfThenElseIfElseB(_, _, c2, c3, c4) => {
                        assert(placed(*c2, t));
                        assert(placed(*c3, t));
                        assert(placed(*c4, t));
                    },
                    Node::IfThenBElseIfElseB(_, _, c2, c3, c4, c5) => {
                        assert(placed(*c2, t));
                        assert(placed(*c3, t));
                        assert(placed(*c4, t));
                        assert(placed(*c5, t));
                    },
                    Node::ElseIfThenVec(_, c1) => {
                        assert(nodes_placed(c1@, 0, t));
                    },
                    Node::ElseIfThen(_, _, c2) => {
                        assert(placed(*c2, t));
                    },
                    Node::ElseIfThenB(_, _, c2, c3) => {
                        assert(placed(*c2, t));
                        assert(placed(*c3, t));
                    },
                    Node::RetStatExpr(_, _, c2) => {
                        assert(placed(*c2, t));
                    },
                    Node::RetStatExprComma(_, _, c2) => {
                        assert(placed(*c2, t));
                    },
                    Node::StatsRetStat(_, _, c2, c3) => {
                        assert(placed(*c2, t));
                        assert(placed(*c3, t));
                    },
                    Node::Chunk(_, c1, _) => {
                        assert(placed(*c1, t));
                    },
                    Node::SheBangChunk(_, c1, _, c3, _) => {
                        assert(placed(*c1, t));
                        assert(placed(*c3, t));
                    },
                    _ => {},
                }
            }
        }
    }
}

/// Prepares the items of a list with separators; says whether they are all sequential
/// fields. `single` goes to the sequential fields.
fn reconstruct_items(v: &mut Vec<(Loc, Node, Loc, String)>, cfg: &Config, state: &mut State, single: Option<bool>) -> (all: bool)
    ensures
        all == all_fields_sequential(old(v)@),
        all_fields_sequential(final(v)@) == all_fields_sequential(old(v)@),
        converted_items(old(v)@, final(v)@, 0, cfg.fmt.convert_charstring_to_normalstring == Some(true)),
        final(state).pos_range == widen_items(old(v)@, 0, old(state).block_nested_level, old(state).pos_range),
        sep_items_singles(final(v)@, 0, single, false),
        sep_items_unset(old(v)@, 0) ==> sep_items_singles(final(v)@, 0, single, true),
        sep_items_marked(final(v)@, 0),
        cfg.fmt.convert_charstring_to_normalstring == Some(true) ==> sep_items_plain(final(v)@, 0),
        items_prepared(old(v)@, final(v)@, *cfg),
        widened(*old(state), *final(state)),
    decreases *old(v), 0nat,
{
    let ghost old_items = *v;
    let n = v.len();
    let mut all_sequential = true;
    let mut i: usize = 0;
    while i < n
        invariant
            i <= n,
            n == v@.len(),
            n == old_items@.len(),
            *old(v) == old_items,
            forall|j: int| i <= j < n ==> v@[j] == old_items@[j],
            forall|j: int| 0 <= j < i ==> #[trigger] same_item_frame(old_items@[j], v@[j]),
            widened(*old(state), *state),
            all_sequential == forall|j: int| 0 <= j < i ==> (#[trigger] old_items@[j]).1 is FieldSequential,
            cfg.fmt.convert_charstring_to_normalstring == Some(true)
                ==> forall|j: int| 0 <= j < i ==> no_char_strings(#[trigger] v@[j].1),
            cfg.fmt.convert_charstring_to_normalstring != Some(true)
                ==> forall|j: int, t: Seq<char>| 0 <= j < i && placed(old_items@[j].1, t) ==> #[trigger] placed(v@[j].1, t),
            forall|j: int| 0 <= j < i ==> tables_marked(#[trigger] v@[j].1),
            forall|j: int| 0 <= j < i ==> ((#[trigger] v@[j]).1 is FieldSequential) == (old_items@[j].1 is FieldSequential),
            forall|j: int| 0 <= j < i ==> converted_tree(old_items@[j].1, #[trigger] v@[j].1, cfg.fmt.convert_charstring_to_normalstring == Some(true)),
            widen_items(old_items@, 0, old(state).block_nested_level, old(state).pos_range)
                == widen_items(old_items@, i as int, old(state).block_nested_level, state.pos_range),
            forall|j: int| 0 <= j < i ==> singles_marked(
                #[trigger] v@[j].1,
                if v@[j].1 is FieldSequential { single } else { None },
                false,
            ),
            sep_items_unset(old_items@, 0) ==> forall|j: int| 0 <= j < i ==> singles_marked(
                #[trigger] v@[j].1,
                if v@[j].1 is FieldSequential { single } else { None },
                true,
            ),
        decreases n - i,
    {
        proof {
            assert(decreases_to!(old_items => old_items@));
            assert(decreases_to!(old_items@ => old_items@[i as int]));
        }
        proof {
            if sep_items_unset(old_items@, 0) {
                lemma_sep_items_unset(old_items@, 0, i as int);
            }
        }
        let hint = match &v[i].1 {
            Node::FieldSequential(..) => single,
            _ => {
                all_sequential = false;
                None
            },
        };
        reconstruct(&mut v[i].1, cfg, state, hint);
        i = i + 1;
    }
    proof {
        let s1 = old_items@;
        let s2 = v@;
        if cfg.fmt.convert_charstring_to_normalstring == Some(true) {
            lemma_sep_items_plain(s2, 0);
        }
        lemma_sep_items_marked(s2, 0);
        lemma_sep_items_singles(s2, 0, single, false);
        if sep_items_unset(s1, 0) {
            lemma_sep_items_singles(s2, 0, single, true);
        }
        assert forall|j: int| 0 <= j < s1.len() implies s1[j].0 == s2[j].0 && s1[j].2 == s2[j].2 && s1[j].3 == s2[j].3
            && converted_tree(s1[j].1, s2[j].1, cfg.fmt.convert_charstring_to_normalstring == Some(true)) by {
            assert(same_item_frame(old_items@[j], v@[j]));
            assert(converted_tree(old_items@[j].1, v@[j].1, cfg.fmt.convert_charstring_to_normalstring == Some(true)));
        }
        lemma_converted_items(s1, s2, 0, cfg.fmt.convert_charstring_to_normalstring == Some(true));
        assert(all_fields_sequential(s2) == all_fields_sequential(s1)) by {
            assert forall|j: int| 0 <= j < s1.len() implies (#[trigger] s1[j]).1 is FieldSequential == (s2[j].1 is FieldSequential) by {
                assert(((v@[j]).1 is FieldSequential) == (old_items@[j].1 is FieldSequential));
            }
        }
        assert forall|t: Seq<char>, a: int, b: int, sep: Option<Seq<char>>, trailing: bool|
            sep_items_laid(t, s1, a, b, sep, trailing) implies #[trigger] sep_items_laid(t, s2, a, b, sep, trailing) by {
            lemma_sep_items_frame(t, s1, s2, a, b, sep, trailing);
        }
        if cfg.fmt.convert_charstring_to_normalstring != Some(true) {
            assert forall|t: Seq<char>| sep_nodes_placed(s1, 0, t) implies #[trigger] sep_nodes_placed(s2, 0, t) by {
                lemma_sep_nodes_placed(s1, 0, t);
                assert forall|j: int| 0 <= j < s2.len() implies placed(#[trigger] s2[j].1, t) by {
                    assert(placed(s1[j].1, t));
                }
                lemma_sep_nodes(s2, 0, t);
            }
        }
    }
    all_sequential
}

/// Prepares the items of a list without separators.
fn reconstruct_pairs(v: &mut Vec<(Loc, Node)>, cfg: &Config, state: &mut State)
    ensures
        pairs_prepared(old(v)@, final(v)@, *cfg),
        pairs_marked(final(v)@, 0),
        converted_pairs(old(v)@, final(v)@, 0, cfg.fmt.convert_charstring_to_normalstring == Some(true)),
        final(state).pos_range == widen_pairs(old(v)@, 0, old(state).block_nested_level, old(state).pos_range),
        pairs_singles(final(v)@, 0, false),
        pairs_unset(old(v)@, 0) ==> pairs_singles(final(v)@, 0, true),
        cfg.fmt.convert_charstring_to_normalstring == Some(true) ==> pairs_plain(final(v)@, 0),
        widened(*old(state), *final(state)),
    decreases *old(v), 0nat,
{
    let ghost old_items = *v;
    let n = v.len();
    let mut i: usize = 0;
    while i < n
        invariant
            i <= n,
            n == v@.len(),
            n == old_items@.len(),
            *old(v) == old_items,
            forall|j: int| i <= j < n ==> v@[j] == old_items@[j],
            forall|j: int| 0 <= j < i ==> #[trigger] same_pair_frame(old_items@[j], v@[j]),
            widened(*old(state), *state),
            cfg.fmt.convert_charstring_to_normalstring == Some(true)
                ==> forall|j: int| 0 <= j < i ==> no_char_strings(#[trigger] v@[j].1),
            cfg.fmt.convert_charstring_to_normalstring != Some(true)
                ==> forall|j: int, t: Seq<char>| 0 <= j < i && placed(old_items@[j].1, t) ==> #[trigger] placed(v@[j].1, t),
            forall|j: int| 0 <= j < i ==> tables_marked(#[trigger] v@[j].1),
            forall|j: int| 0 <= j < i ==> converted_tree(old_items@[j].1, #[trigger] v@[j].1, cfg.fmt.convert_charstring_to_normalstring == Some(true)),
            widen_pairs(old_items@, 0, old(state).block_nested_level, old(state).pos_range)
                == widen_pairs(old_items@, i as int, old(state).block_nested_level, state.pos_range),
            forall|j: int| 0 <= j < i ==> singles_marked(#[trigger] v@[j].1, None, false),
            pairs_unset(old_items@, 0) ==> forall|j: int| 0 <= j < i ==> singles_marked(#[trigger] v@[j].1, None, true),
        decreases n - i,
    {
        proof {
            assert(decreases_to!(old_items => old_items@));
            assert(decreases_to!(old_items@ => old_items@[i as int]));
        }
        proof {
            if pairs_unset(old_items@, 0) {
                lemma_pairs_unset(old_items@, 0, i as int);
            }
        }
        reconstruct(&mut v[i].1, cfg, state, None);
        i = i + 1;
    }
    proof {
        let s1 = old_items@;
        let s2 = v@;
        if cfg.fmt.convert_charstring_to_normalstring == Some(true) {
            lemma_pairs_plain(s2, 0);
        }
        lemma_pairs_marked(s2, 0);
        lemma_pairs_singles(s2, 0, false);
        if pairs_unset(s1, 0) {
            lemma_pairs_singles(s2, 0, true);
        }
        assert forall|j: int| 0 <= j < s1.len() implies s1[j].0 == s2[j].0
            && converted_tree(s1[j].1, s2[j].1, cfg.fmt.convert_charstring_to_normalstring == Some(true)) by {
            assert(same_pair_frame(old_items@[j], v@[j]));
            assert(converted_tree(old_items@[j].1, v@[j].1, cfg.fmt.convert_charstring_to_normalstring == Some(true)));
        }
        lemma_converted_pairs(s1, s2, 0, cfg.fmt.convert_charstring_to_normalstring == Some(true));
        assert forall|t: Seq<char>, a: int, b: int| items_laid(t, s1, a, b) implies #[trigger] items_laid(t, s2, a, b) by {
            lemma_pairs_frame(t, s1, s2, a, b);
        }
        if cfg.fmt.convert_charstring_to_normalstring != Some(true) {
            assert forall|t: Seq<char>| nodes_placed(s1, 0, t) implies #[trigger] nodes_placed(s2, 0, t) by {
                lemma_nodes_placed(s1, 0, t);
                assert forall|j: int| 0 <= j < s2.len() implies placed(#[trigger] s2[j].1, t) by {
                    assert(placed(s1[j].1, t));
                }
                lemma_nodes(s2, 0, t);
            }
        }
    }
}

/// Prepares a parsed tree for writing, as `reconstruct` says.
pub fn reconstruct_node_tree(node: &mut Node, cfg: &Config, state: &mut State)
    ensures
        prepared(*old(node), *final(node), *cfg),
        widened(*old(state), *final(state)),
        table_marked(*old(node), *final(node), None),
        tables_marked(*final(node)),
        converted_tree(*old(node), *final(node), cfg.fmt.convert_charstring_to_normalstring == Some(true)),
        final(state).pos_range == widen_tree(*old(node), old(state).block_nested_level, old(state).pos_range),
        singles_marked(*final(node), None, false),
        flags_unset(*old(node)) ==> singles_marked(*final(node), None, true),
        cfg.fmt.convert_charstring_to_normalstring == Some(true) ==> string_converted(*old(node), *final(node))
            && no_char_strings(*final(node)),
{
    reconstruct(node, cfg, state, None);
}

} // verus!
