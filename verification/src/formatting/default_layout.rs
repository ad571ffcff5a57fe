use vstd::prelude::*;

use crate::config::FormatOpts;
use crate::parser::common::{loc_text, Loc};
use crate::parser::comment_lexer::comment_lex;
use crate::parser::lua_ast::Node;
use super::kept_comments::{ends_in_open_line_comment, lemma_default_comment_block};
use super::loc_hint::{comment_block, equals_signs, gap_output};

verus! {

/// The span of a node: its first location.
pub open spec fn node_loc(n: Node) -> Loc {
    match n {
        Node::BinaryOp(s, ..) | Node::UnaryOp(s, ..) | Node::UnaryNot(s, ..) | Node::Var(s, ..) |
        Node::RoundBrackets(s, ..) | Node::ArgsRoundBrackets(s, ..) | Node::ArgsRoundBracketsEmpty(s, ..) |
        Node::Nil(s) | Node::False(s) | Node::True(s) | Node::VarArg(s) | Node::Break(s) |
        Node::Numeral(s, ..) | Node::NormalStringLiteral(s, ..) | Node::CharStringLiteral(s, ..) |
        Node::MultiLineStringLiteral(s, ..) | Node::TableConstructor(s, ..) |
        Node::TableConstructorEmpty(s, ..) | Node::Fields(s, ..) | Node::FieldNamedBracket(s, ..) |
        Node::FieldNamed(s, ..) | Node::FieldSequential(s, ..) | Node::TableIndex(s, ..) |
        Node::TableMember(s, ..) | Node::ExpList(s, ..) | Node::NameList(s, ..) | Node::ParList(s, ..) |
        Node::VarList(s, ..) | Node::VarRoundSuffix(s, ..) | Node::VarSuffixList(s, ..) |
        Node::FnMethodCall(s, ..) | Node::FunctionDef(s, ..) | Node::FuncBody(s, ..) |
        Node::FuncBodyB(s, ..) | Node::FuncPBody(s, ..) | Node::FuncPBodyB(s, ..) | Node::FuncName(s, ..) |
        Node::FuncNameSelf(s, ..) | Node::FuncDecl(s, ..) | Node::LocalFuncDecl(s, ..) |
        Node::StatementList(s, ..) | Node::DoEnd(s, ..) | Node::DoBEnd(s, ..) | Node::VarsExprs(s, ..) |
        Node::Name(s, ..) | Node::Label(s, ..) | Node::GoTo(s, ..) | Node::WhileDo(s, ..) |
        Node::WhileDoB(s, ..) | Node::RepeatUntil(s, ..) | Node::RepeatBUntil(s, ..) | Node::ForInt(s, ..) |
        Node::ForIntB(s, ..) | Node::ForIntStep(s, ..) | Node::ForIntStepB(s, ..) | Node::ForRange(s, ..) |
        Node::ForRangeB(s, ..) | Node::LocalNames(s, ..) | Node::LocalNamesExprs(s, ..) |
        Node::IfThen(s, ..) | Node::IfThenB(s, ..) | Node::IfThenElse(s, ..) | Node::IfThenBElse(s, ..) |
        Node::IfThenElseB(s, ..) | Node::IfThenBElseB(s, ..) | Node::IfThenElseIf(s, ..) |
        Node::IfThenBElseIf(s, ..) | Node::IfThenElseIfElse(s, ..) | Node::IfThenBElseIfElse(s, ..) |
        Node::IfThenElseIfElseB(s, ..) | Node::IfThenBElseIfElseB(s, ..) | Node::ElseIfThenVec(s, ..) |
        Node::ElseIfThen(s, ..) | Node::ElseIfThenB(s, ..) | Node::RetStatNone(s) |
        Node::RetStatExpr(s, ..) | Node::RetStatNoneComma(s, ..) | Node::RetStatExprComma(s, ..) |
        Node::StatsRetStat(s, ..) | Node::Chunk(s, ..) | Node::SheBangChunk(s, ..) | Node::Semicolon(s) |
        Node::SheBang(s, ..) => s,
    }
}

/// The text `s` stands at `a` in `t`.
#[verifier::opaque]
pub open spec fn kw_at(t: Seq<char>, a: int, s: Seq<char>) -> bool {
    0 <= a && a + s.len() <= t.len() && t.subrange(a, a + s.len()) == s
}

/// The gap `g` begins at `a`, lies within `t`, and holds blanks and comments that the
/// default options write back as they stand: the comment lexer reads it, and it does not
/// end in a one-line comment without a line feed.
#[verifier::opaque]
pub open spec fn gap_at(t: Seq<char>, g: Loc, a: int) -> bool {
    &&& g.0 == a
    &&& g.0 <= g.1 <= t.len()
    &&& g.1 - g.0 < usize::MAX / 4
    &&& comment_lex(t.subrange(g.0 as int, g.1 as int), 0) is Some
    &&& !ends_in_open_line_comment(t.subrange(g.0 as int, g.1 as int))
}

/// Under the default options a gap as `gap_at` describes it is written as it stands,
/// whatever the indentation, the text before it and the hint.
pub proof fn lemma_gap_kept(t: Seq<char>, g: Loc, a: int)
    requires
        gap_at(t, g, a),
    ensures
        forall|ind: Seq<char>, ls: bool, hint: Seq<char>|
            #[trigger] gap_output(FormatOpts::spec_default(), loc_text(t, g), ind, ls, hint) == loc_text(t, g),
        forall|ind: Seq<char>, ls: bool|
            #[trigger] comment_block(FormatOpts::spec_default(), loc_text(t, g), ind, ls) is Some,
        loc_text(t, g).len() < usize::MAX / 4,
{
    reveal(gap_at);
    let tg = loc_text(t, g);
    assert(tg == t.subrange(g.0 as int, g.1 as int));
    assert forall|ind: Seq<char>, ls: bool, hint: Seq<char>|
        #[trigger] gap_output(FormatOpts::spec_default(), loc_text(t, g), ind, ls, hint) == loc_text(t, g) by {
        lemma_default_comment_block(tg, ind, ls);
    }
    assert forall|ind: Seq<char>, ls: bool| #[trigger] comment_block(FormatOpts::spec_default(), loc_text(t, g), ind, ls) is Some by {
        lemma_default_comment_block(tg, ind, ls);
    }
}

/// The text of a node starts a text that tracks the source.
pub proof fn lemma_tracks_start(f0: Seq<char>, t: Seq<char>, a: int)
    requires
        0 <= a <= t.len(),
    ensures
        tracks(f0, f0, t, a),
        cursor(f0, f0, a) == a,
{
    reveal(tracks);
    assert(f0 =~= f0 + t.subrange(a, a));
}

/// The text a node covers: its span, but for a whole chunk, from the blanks before its
/// first token to the end of the text after its last.
pub open spec fn text_span(n: Node) -> (int, int) {
    match n {
        Node::Chunk(l, _, r) => (l.0 as int, r.1 as int),
        Node::SheBangChunk(l, _, _, _, r) => (l.0 as int, r.1 as int),
        _ => (node_loc(n).0 as int, node_loc(n).1 as int),
    }
}

/// The separator written after an item of a list: the list's own, or the item's.
pub open spec fn sep_text(sep: Option<Seq<char>>, item: (Loc, Node, Loc, String)) -> Seq<char> {
    match sep {
        Some(s) => s,
        None => item.3@,
    }
}

/// Where the gap before item `i` of a list with separators begins.
pub open spec fn sep_item_start(items: Seq<(Loc, Node, Loc, String)>, i: int, a: int, sep: Option<Seq<char>>) -> int {
    if i == 0 {
        a
    } else {
        items[i - 1].2.1 + sep_text(sep, items[i - 1]).len()
    }
}

/// Item `i` of a list with separators: the gap before it, its node, the gap after it and,
/// but after the last item unless `trailing`, the separator.
pub open spec fn sep_item_laid(t: Seq<char>, items: Seq<(Loc, Node, Loc, String)>, i: int, a: int, sep: Option<Seq<char>>, trailing: bool) -> bool {
    &&& gap_at(t, items[i].0, sep_item_start(items, i, a, sep))
    &&& text_span(items[i].1).0 == items[i].0.1
    &&& gap_at(t, items[i].2, text_span(items[i].1).1)
    &&& (i < items.len() - 1 || trailing) ==> kw_at(t, items[i].2.1 as int, sep_text(sep, items[i]))
}

/// The items of a list with separators stand one after another from `a` to `b`.
pub open spec fn sep_items_laid(t: Seq<char>, items: Seq<(Loc, Node, Loc, String)>, a: int, b: int, sep: Option<Seq<char>>, trailing: bool) -> bool {
    if items.len() == 0 {
        a == b
    } else {
        &&& forall|i: int| 0 <= i < items.len() ==> #[trigger] sep_item_laid(t, items, i, a, sep, trailing)
        &&& b == sep_item_start(items, items.len() as int, a, sep) - (if trailing { 0 } else { sep_text(sep, items.last()).len() as int })
    }
}

/// The items of a list without separators stand one after another from `a` to `b`, each
/// after its gap.
pub open spec fn items_laid(t: Seq<char>, items: Seq<(Loc, Node)>, a: int, b: int) -> bool {
    if items.len() == 0 {
        a == b
    } else {
        &&& forall|i: int| 0 <= i < items.len() ==> #[trigger] item_laid(t, items, i, a)
        &&& b == text_span(items.last().1).1
    }
}

pub open spec fn item_laid(t: Seq<char>, items: Seq<(Loc, Node)>, i: int, a: int) -> bool {
    &&& gap_at(t, items[i].0, if i == 0 { a } else { text_span(items[i - 1].1).1 })
    &&& text_span(items[i].1).0 == items[i].0.1
}

/// Where the tokens of a node stand in the text: each keyword, operator and literal of
/// the node stands in `t` as the node holds it, each gap between them is one that the
/// default options keep, the children are placed in turn, and together they cover the
/// text of the node.
#[verifier::opaque]
pub open spec fn placed(n: Node, t: Seq<char>) -> bool
    decreases n, 0int,
{
    &&& 0 <= text_span(n).0 <= text_span(n).1 <= t.len()
    &&& match n {
        Node::Fields(sp, items, _) => {
            &&& sep_items_laid(t, items@, sp.0 as int, sp.1 as int, None, true)
            &&& sep_nodes_placed(items@, 0, t)
        },
        Node::ExpList(sp, items) | Node::NameList(sp, items) | Node::VarList(sp, items) | Node::ParList(sp, items) => {
            &&& sep_items_laid(t, items@, sp.0 as int, sp.1 as int, Some(","@), false)
            &&& sep_nodes_placed(items@, 0, t)
        },
        Node::FuncName(sp, items) => {
            &&& sep_items_laid(t, items@, sp.0 as int, sp.1 as int, Some("."@), false)
            &&& sep_nodes_placed(items@, 0, t)
        },
        Node::StatementList(sp, items) | Node::VarSuffixList(sp, items) | Node::ElseIfThenVec(sp, items) => {
            &&& items_laid(t, items@, sp.0 as int, sp.1 as int)
            &&& nodes_placed(items@, 0, t)
        },

        Node::BinaryOp(sp, locs, tok, l, r) => {
            &&& text_span(*l).0 == sp.0 as int && placed(*l, t)
            &&& gap_at(t, locs[0], text_span(*l).1)
            &&& kw_at(t, locs[0].1 as int, tok.0@)
            &&& gap_at(t, locs[1], locs[0].1 as int + tok.0@.len())
            &&& text_span(*r).0 == locs[1].1 as int && placed(*r, t)
            &&& sp.1 == text_span(*r).1
        },
        Node::Nil(sp) => {
            &&& kw_at(t, sp.0 as int, "nil"@)
            &&& sp.1 == sp.0 as int + "nil"@.len()
        },
        Node::False(sp) => {
            &&& kw_at(t, sp.0 as int, "false"@)
            &&& sp.1 == sp.0 as int + "false"@.len()
        },
        Node::True(sp) => {
            &&& kw_at(t, sp.0 as int, "true"@)
            &&& sp.1 == sp.0 as int + "true"@.len()
        },
        Node::VarArg(sp) => {
            &&& kw_at(t, sp.0 as int, "..."@)
            &&& sp.1 == sp.0 as int + "..."@.len()
        },
        Node::Break(sp) => {
            &&& kw_at(t, sp.0 as int, "break"@)
            &&& sp.1 == sp.0 as int + "break"@.len()
        },
        Node::Numeral(sp, s) | Node::Name(sp, s) => {
            &&& kw_at(t, sp.0 as int, s@)
            &&& sp.1 == sp.0 as int + s@.len()
        },
        Node::NormalStringLiteral(sp, s) => {
            &&& kw_at(t, sp.0 as int, "\""@)
            &&& kw_at(t, sp.0 as int + "\""@.len(), s@)
            &&& kw_at(t, sp.0 as int + "\""@.len() + s@.len(), "\""@)
            &&& sp.1 == sp.0 as int + "\""@.len() + s@.len() + "\""@.len()
        },
        Node::CharStringLiteral(sp, s) => {
            &&& kw_at(t, sp.0 as int, "'"@)
            &&& kw_at(t, sp.0 as int + "'"@.len(), s@)
            &&& kw_at(t, sp.0 as int + "'"@.len() + s@.len(), "'"@)
            &&& sp.1 == sp.0 as int + "'"@.len() + s@.len() + "'"@.len()
        },
        Node::MultiLineStringLiteral(sp, level, s) => {
            &&& kw_at(t, sp.0 as int, "["@)
            &&& kw_at(t, sp.0 as int + "["@.len(), equals_signs(level as nat))
            &&& kw_at(t, sp.0 as int + "["@.len() + level, "["@)
            &&& kw_at(t, sp.0 as int + "["@.len() + level + "["@.len(), s@)
            &&& kw_at(t, sp.0 as int + "["@.len() + level + "["@.len() + s@.len(), "]"@)
            &&& kw_at(t, sp.0 as int + "["@.len() + level + "["@.len() + s@.len() + "]"@.len(), equals_signs(level as nat))
            &&& kw_at(t, sp.0 as int + "["@.len() + level + "["@.len() + s@.len() + "]"@.len() + level, "]"@)
            &&& sp.1 == sp.0 as int + "["@.len() + level + "["@.len() + s@.len() + "]"@.len() + level + "]"@.len()
        },
        Node::TableConstructor(sp, locs, n, opts) => {
            &&& kw_at(t, sp.0 as int, "{"@)
            &&& gap_at(t, locs[0], sp.0 as int + "{"@.len())
            &&& text_span(*n).0 == locs[0].1 as int && placed(*n, t)
            &&& gap_at(t, locs[1], text_span(*n).1)
            &&& kw_at(t, locs[1].1 as int, "}"@)
            &&& sp.1 == locs[1].1 as int + "}"@.len()
        },
        Node::TableConstructorEmpty(sp, locs) => {
            &&& kw_at(t, sp.0 as int, "{"@)
            &&& gap_at(t, locs[0], sp.0 as int + "{"@.len())
            &&& kw_at(t, locs[0].1 as int, "}"@)
            &&& sp.1 == locs[0].1 as int + "}"@.len()
        },
        Node::FuncNameSelf(sp, locs, items, n) => {
            &&& sep_items_laid(t, items@, sp.0 as int, locs[0].0 as int, Some("."@), false)
            &&& sep_nodes_placed(items@, 0, t)
            &&& gap_at(t, locs[0], locs[0].0 as int)
            &&& kw_at(t, locs[0].1 as int, ":"@)
            &&& gap_at(t, locs[1], locs[0].1 as int + ":"@.len())
            &&& text_span(*n).0 == locs[1].1 as int && placed(*n, t)
            &&& sp.1 == text_span(*n).1
        },
        Node::RetStatNone(sp) => {
            &&& kw_at(t, sp.0 as int, "return"@)
            &&& sp.1 == sp.0 as int + "return"@.len()
        },
        Node::Chunk(locl, n, locr) => {
            &&& gap_at(t, locl, locl.0 as int)
            &&& text_span(*n).0 == locl.1 as int && placed(*n, t)
            &&& gap_at(t, locr, text_span(*n).1)
        },
        Node::SheBangChunk(locl, n, locm, b, locr) => {
            &&& gap_at(t, locl, locl.0 as int)
            &&& text_span(*n).0 == locl.1 as int && placed(*n, t)
            &&& gap_at(t, locm, text_span(*n).1)
            &&& text_span(*b).0 == locm.1 as int && placed(*b, t)
            &&& gap_at(t, locr, text_span(*b).1)
        },
        Node::Semicolon(sp) => {
            &&& kw_at(t, sp.0 as int, ";"@)
            &&& sp.1 == sp.0 as int + ";"@.len()
        },
        Node::SheBang(sp, s) => {
            &&& kw_at(t, sp.0 as int, s@)
            &&& kw_at(t, sp.0 as int + s@.len(), "\n"@)
            &&& sp.1 == sp.0 as int + s@.len() + "\n"@.len()
        },
        Node::IfThen(sp, locs, e1) => {
            &&& kw_at(t, sp.0 as int, "if"@)
            &&& gap_at(t, locs[0], sp.0 as int + "if"@.len())
            &&& text_span(*e1).0 == locs[0].1 as int && placed(*e1, t)
            &&& gap_at(t, locs[1], text_span(*e1).1)
            &&& kw_at(t, locs[1].1 as int, "then"@)
            &&& gap_at(t, locs[2], locs[1].1 as int + "then"@.len())
            &&& kw_at(t, locs[2].1 as int, "end"@)
            &&& sp.1 == locs[2].1 as int + "end"@.len()
        },
        Node::IfThenB(sp, locs, e1, b1) => {
            &&& kw_at(t, sp.0 as int, "if"@)
            &&& gap_at(t, locs[0], sp.0 as int + "if"@.len())
            &&& text_span(*e1).0 == locs[0].1 as int && placed(*e1, t)
            &&& gap_at(t, locs[1], text_span(*e1).1)
            &&& kw_at(t, locs[1].1 as int, "then"@)
            &&& gap_at(t, locs[2], locs[1].1 as int + "then"@.len())
            &&& text_span(*b1).0 == locs[2].1 as int && placed(*b1, t)
            &&& gap_at(t, locs[3], text_span(*b1).1)
            &&& kw_at(t, locs[3].1 as int, "end"@)
            &&& sp.1 == locs[3].1 as int + "end"@.len()
        },
        Node::IfThenElse(sp, locs, e1) => {
            &&& kw_at(t, sp.0 as int, "if"@)
            &&& gap_at(t, locs[0], sp.0 as int + "if"@.len())
            &&& text_span(*e1).0 == locs[0].1 as int && placed(*e1, t)
            &&& gap_at(t, locs[1], text_span(*e1).1)
            &&& kw_at(t, locs[1].1 as int, "then"@)
            &&& gap_at(t, locs[2], locs[1].1 as int + "then"@.len())
            &&& kw_at(t, locs[2].1 as int, "else"@)
            &&& gap_at(t, locs[3], locs[2].1 as int + "else"@.len())
            &&& kw_at(t, locs[3].1 as int, "end"@)
            &&& sp.1 == locs[3].1 as int + "end"@.len()
        },
        Node::IfThenBElse(sp, locs, e1, b1) => {
            &&& kw_at(t, sp.0 as int, "if"@)
            &&& gap_at(t, locs[0], sp.0 as int + "if"@.len())
            &&& text_span(*e1).0 == locs[0].1 as int && placed(*e1, t)
            &&& gap_at(t, locs[1], text_span(*e1).1)
            &&& kw_at(t, locs[1].1 as int, "then"@)
            &&& gap_at(t, locs[2], locs[1].1 as int + "then"@.len())
            &&& text_span(*b1).0 == locs[2].1 as int && placed(*b1, t)
            &&& gap_at(t, locs[3], text_span(*b1).1)
            &&& kw_at(t, locs[3].1 as int, "else"@)
            &&& gap_at(t, locs[4], locs[3].1 as int + "else"@.len())
            &&& kw_at(t, locs[4].1 as int, "end"@)
            &&& sp.1 == locs[4].1 as int + "end"@.len()
        },
        Node::IfThenElseB(sp, locs, e1, b2) => {
            &&& kw_at(t, sp.0 as int, "if"@)
            &&& gap_at(t, locs[0], sp.0 as int + "if"@.len())
            &&& text_span(*e1).0 == locs[0].1 as int && placed(*e1, t)
            &&& gap_at(t, locs[1], text_span(*e1).1)
            &&& kw_at(t, locs[1].1 as int, "then"@)
            &&& gap_at(t, locs[2], locs[1].1 as int + "then"@.len())
            &&& kw_at(t, locs[2].1 as int, "else"@)
            &&& gap_at(t, locs[3], locs[2].1 as int + "else"@.len())
            &&& text_span(*b2).0 == locs[3].1 as int && placed(*b2, t)
            &&& gap_at(t, locs[4], text_span(*b2).1)
            &&& kw_at(t, locs[4].1 as int, "end"@)
            &&& sp.1 == locs[4].1 as int + "end"@.len()
        },
        Node::IfThenBElseB(sp, locs, e1, b1, b2) => {
            &&& kw_at(t, sp.0 as int, "if"@)
            &&& gap_at(t, locs[0], sp.0 as int + "if"@.len())
            &&& text_span(*e1).0 == locs[0].1 as int && placed(*e1, t)
            &&& gap_at(t, locs[1], text_span(*e1).1)
            &&& kw_at(t, locs[1].1 as int, "then"@)
            &&& gap_at(t, locs[2], locs[1].1 as int + "then"@.len())
            &&& text_span(*b1).0 == locs[2].1 as int && placed(*b1, t)
            &&& gap_at(t, locs[3], text_span(*b1).1)
            &&& kw_at(t, locs[3].1 as int, "else"@)
            &&& gap_at(t, locs[4], locs[3].1 as int + "else"@.len())
            &&& text_span(*b2).0 == locs[4].1 as int && placed(*b2, t)
            &&& gap_at(t, locs[5], text_span(*b2).1)
            &&& kw_at(t, locs[5].1 as int, "end"@)
            &&& sp.1 == locs[5].1 as int + "end"@.len()
        },
        Node::IfThenElseIf(sp, locs, e1, n) => {
            &&& kw_at(t, sp.0 as int, "if"@)
            &&& gap_at(t, locs[0], sp.0 as int + "if"@.len())
            &&& text_span(*e1).0 == locs[0].1 as int && placed(*e1, t)
            &&& gap_at(t, locs[1], text_span(*e1).1)
            &&& kw_at(t, locs[1].1 as int, "then"@)
            &&& gap_at(t, locs[2], locs[1].1 as int + "then"@.len())
            &&& text_span(*n).0 == locs[2].1 as int && placed(*n, t)
            &&& gap_at(t, locs[3], text_span(*n).1)
            &&& kw_at(t, locs[3].1 as int, "end"@)
            &&& sp.1 == locs[3].1 as int + "end"@.len()
        },
        Node::IfThenBElseIf(sp, locs, e1, b1, n) => {
            &&& kw_at(t, sp.0 as int, "if"@)
            &&& gap_at(t, locs[0], sp.0 as int + "if"@.len())
            &&& text_span(*e1).0 == locs[0].1 as int && placed(*e1, t)
            &&& gap_at(t, locs[1], text_span(*e1).1)
            &&& kw_at(t, locs[1].1 as int, "then"@)
            &&& gap_at(t, locs[2], locs[1].1 as int + "then"@.len())
            &&& text_span(*b1).0 == locs[2].1 as int && placed(*b1, t)
            &&& gap_at(t, locs[3], text_span(*b1).1)
            &&& text_span(*n).0 == locs[3].1 as int && placed(*n, t)
            &&& gap_at(t, locs[4], text_span(*n).1)
            &&& kw_at(t, locs[4].1 as int, "end"@)
            &&& sp.1 == locs[4].1 as int + "end"@.len()
        },
        Node::IfThenElseIfElse(sp, locs, e1, n) => {
            &&& kw_at(t, sp.0 as int, "if"@)
            &&& gap_at(t, locs[0], sp.0 as int + "if"@.len())
            &&& text_span(*e1).0 == locs[0].1 as int && placed(*e1, t)
            &&& gap_at(t, locs[1], text_span(*e1).1)
            &&& kw_at(t, locs[1].1 as int, "then"@)
            &&& gap_at(t, locs[2], locs[1].1 as int + "then"@.len())
            &&& text_span(*n).0 == locs[2].1 as int && placed(*n, t)
            &&& gap_at(t, locs[3], text_span(*n).1)
            &&& kw_at(t, locs[3].1 as int, "else"@)
            &&& gap_at(t, locs[4], locs[3].1 as int + "else"@.len())
            &&& kw_at(t, locs[4].1 as int, "end"@)
            &&& sp.1 == locs[4].1 as int + "end"@.len()
        },
        Node::IfThenBElseIfElse(sp, locs, e1, b1, n) => {
            &&& kw_at(t, sp.0 as int, "if"@)
            &&& gap_at(t, locs[0], sp.0 as int + "if"@.len())
            &&& text_span(*e1).0 == locs[0].1 as int && placed(*e1, t)
            &&& gap_at(t, locs[1], text_span(*e1).1)
            &&& kw_at(t, locs[1].1 as int, "then"@)
            &&& gap_at(t, locs[2], locs[1].1 as int + "then"@.len())
            &&& text_span(*b1).0 == locs[2].1 as int && placed(*b1, t)
            &&& gap_at(t, locs[3], text_span(*b1).1)
            &&& text_span(*n).0 == locs[3].1 as int && placed(*n, t)
            &&& gap_at(t, locs[4], text_span(*n).1)
            &&& kw_at(t, locs[4].1 as int, "else"@)
            &&& gap_at(t, locs[5], locs[4].1 as int + "else"@.len())
            &&& kw_at(t, locs[5].1 as int, "end"@)
            &&& sp.1 == locs[5].1 as int + "end"@.len()
        },
        Node::IfThenElseIfElseB(sp, locs, e1, n, b2) => {
            &&& kw_at(t, sp.0 as int, "if"@)
            &&& gap_at(t, locs[0], sp.0 as int + "if"@.len())
            &&& text_span(*e1).0 == locs[0].1 as int && placed(*e1, t)
            &&& gap_at(t, locs[1], text_span(*e1).1)
            &&& kw_at(t, locs[1].1 as int, "then"@)
            &&& gap_at(t, locs[2], locs[1].1 as int + "then"@.len())
            &&& text_span(*n).0 == locs[2].1 as int && placed(*n, t)
            &&& gap_at(t, locs[3], text_span(*n).1)
            &&& kw_at(t, locs[3].1 as int, "else"@)
            &&& gap_at(t, locs[4], locs[3].1 as int + "else"@.len())
            &&& text_span(*b2).0 == locs[4].1 as int && placed(*b2, t)
            &&& gap_at(t, locs[5], text_span(*b2).1)
            &&& kw_at(t, locs[5].1 as int, "end"@)
            &&& sp.1 == locs[5].1 as int + "end"@.len()
        },
        Node::IfThenBElseIfElseB(sp, locs, e1, b1, n, b2) => {
            &&& kw_at(t, sp.0 as int, "if"@)
            &&& gap_at(t, locs[0], sp.0 as int + "if"@.len())
            &&& text_span(*e1).0 == locs[0].1 as int && placed(*e1, t)
            &&& gap_at(t, locs[1], text_span(*e1).1)
            &&& kw_at(t, locs[1].1 as int, "then"@)
            &&& gap_at(t, locs[2], locs[1].1 as int + "then"@.len())
            &&& text_span(*b1).0 == locs[2].1 as int && placed(*b1, t)
            &&& gap_at(t, locs[3], text_span(*b1).1)
            &&& text_span(*n).0 == locs[3].1 as int && placed(*n, t)
            &&& gap_at(t, locs[4], text_span(*n).1)
            &&& kw_at(t, locs[4].1 as int, "else"@)
            &&& gap_at(t, locs[5], locs[4].1 as int + "else"@.len())
            &&& text_span(*b2).0 == locs[5].1 as int && placed(*b2, t)
            &&& gap_at(t, locs[6], text_span(*b2).1)
            &&& kw_at(t, locs[6].1 as int, "end"@)
            &&& sp.1 == locs[6].1 as int + "end"@.len()
        },
        Node::ElseIfThen(sp, locs, e) => {
            &&& kw_at(t, sp.0 as int, "elseif"@)
            &&& gap_at(t, locs[0], sp.0 as int + "elseif"@.len())
            &&& text_span(*e).0 == locs[0].1 as int && placed(*e, t)
            &&& gap_at(t, locs[1], text_span(*e).1)
            &&& kw_at(t, locs[1].1 as int, "then"@)
            &&& sp.1 == locs[1].1 as int + "then"@.len()
        },
        Node::ElseIfThenB(sp, locs, e, b) => {
            &&& kw_at(t, sp.0 as int, "elseif"@)
            &&& gap_at(t, locs[0], sp.0 as int + "elseif"@.len())
            &&& text_span(*e).0 == locs[0].1 as int && placed(*e, t)
            &&& gap_at(t, locs[1], text_span(*e).1)
            &&& kw_at(t, locs[1].1 as int, "then"@)
            &&& gap_at(t, locs[2], locs[1].1 as int + "then"@.len())
            &&& text_span(*b).0 == locs[2].1 as int && placed(*b, t)
            &&& sp.1 == text_span(*b).1
        },
        Node::ForInt(sp, locs, n, e1, e2) => {
            &&& kw_at(t, sp.0 as int, "for"@)
            &&& gap_at(t, locs[0], sp.0 as int + "for"@.len())
            &&& text_span(*n).0 == locs[0].1 as int && placed(*n, t)
            &&& gap_at(t, locs[1], text_span(*n).1)
            &&& kw_at(t, locs[1].1 as int, "="@)
            &&& gap_at(t, locs[2], locs[1].1 as int + "="@.len())
            &&& text_span(*e1).0 == locs[2].1 as int && placed(*e1, t)
            &&& gap_at(t, locs[3], text_span(*e1).1)
            &&& kw_at(t, locs[3].1 as int, ","@)
            &&& gap_at(t, locs[4], locs[3].1 as int + ","@.len())
            &&& text_span(*e2).0 == locs[4].1 as int && placed(*e2, t)
            &&& gap_at(t, locs[5], text_span(*e2).1)
            &&& kw_at(t, locs[5].1 as int, "do"@)
            &&& gap_at(t, locs[6], locs[5].1 as int + "do"@.len())
            &&& kw_at(t, locs[6].1 as int, "end"@)
            &&& sp.1 == locs[6].1 as int + "end"@.len()
        },
        Node::ForIntB(sp, locs, n, e1, e2, b) => {
            &&& kw_at(t, sp.0 as int, "for"@)
            &&& gap_at(t, locs[0], sp.0 as int + "for"@.len())
            &&& text_span(*n).0 == locs[0].1 as int && placed(*n, t)
            &&& gap_at(t, locs[1], text_span(*n).1)
            &&& kw_at(t, locs[1].1 as int, "="@)
            &&& gap_at(t, locs[2], locs[1].1 as int + "="@.len())
            &&& text_span(*e1).0 == locs[2].1 as int && placed(*e1, t)
            &&& gap_at(t, locs[3], text_span(*e1).1)
            &&& kw_at(t, locs[3].1 as int, ","@)
            &&& gap_at(t, locs[4], locs[3].1 as int + ","@.len())
            &&& text_span(*e2).0 == locs[4].1 as int && placed(*e2, t)
            &&& gap_at(t, locs[5], text_span(*e2).1)
            &&& kw_at(t, locs[5].1 as int, "do"@)
            &&& gap_at(t, locs[6], locs[5].1 as int + "do"@.len())
            &&& text_span(*b).0 == locs[6].1 as int && placed(*b, t)
            &&& gap_at(t, locs[7], text_span(*b).1)
            &&& kw_at(t, locs[7].1 as int, "end"@)
            &&& sp.1 == locs[7].1 as int + "end"@.len()
        },
        Node::ForIntStep(sp, locs, n, e1, e2, e3) => {
            &&& kw_at(t, sp.0 as int, "for"@)
            &&& gap_at(t, locs[0], sp.0 as int + "for"@.len())
            &&& text_span(*n).0 == locs[0].1 as int && placed(*n, t)
            &&& gap_at(t, locs[1], text_span(*n).1)
            &&& kw_at(t, locs[1].1 as int, "="@)
            &&& gap_at(t, locs[2], locs[1].1 as int + "="@.len())
            &&& text_span(*e1).0 == locs[2].1 as int && placed(*e1, t)
            &&& gap_at(t, locs[3], text_span(*e1).1)
            &&& kw_at(t, locs[3].1 as int, ","@)
            &&& gap_at(t, locs[4], locs[3].1 as int + ","@.len())
            &&& text_span(*e2).0 == locs[4].1 as int && placed(*e2, t)
            &&& gap_at(t, locs[5], text_span(*e2).1)
            &&& kw_at(t, locs[5].1 as int, ","@)
            &&& gap_at(t, locs[6], locs[5].1 as int + ","@.len())
            &&& text_span(*e3).0 == locs[6].1 as int && placed(*e3, t)
            &&& gap_at(t, locs[7], text_span(*e3).1)
            &&& kw_at(t, locs[7].1 as int, "do"@)
            &&& gap_at(t, locs[8], locs[7].1 as int + "do"@.len())
            &&& kw_at(t, locs[8].1 as int, "end"@)
            &&& sp.1 == locs[8].1 as int + "end"@.len()
        },
        Node::ForIntStepB(sp, locs, n, e1, e2, e3, b) => {
            &&& kw_at(t, sp.0 as int, "for"@)
            &&& gap_at(t, locs[0], sp.0 as int + "for"@.len())
            &&& text_span(*n).0 == locs[0].1 as int && placed(*n, t)
            &&& gap_at(t, locs[1], text_span(*n).1)
            &&& kw_at(t, locs[1].1 as int, "="@)
            &&& gap_at(t, locs[2], locs[1].1 as int + "="@.len())
            &&& text_span(*e1).0 == locs[2].1 as int && placed(*e1, t)
            &&& gap_at(t, locs[3], text_span(*e1).1)
            &&& kw_at(t, locs[3].1 as int, ","@)
            &&& gap_at(t, locs[4], locs[3].1 as int + ","@.len())
            &&& text_span(*e2).0 == locs[4].1 as int && placed(*e2, t)
            &&& gap_at(t, locs[5], text_span(*e2).1)
            &&& kw_at(t, locs[5].1 as int, ","@)
            &&& gap_at(t, locs[6], locs[5].1 as int + ","@.len())
            &&& text_span(*e3).0 == locs[6].1 as int && placed(*e3, t)
            &&& gap_at(t, locs[7], text_span(*e3).1)
            &&& kw_at(t, locs[7].1 as int, "do"@)
            &&& gap_at(t, locs[8], locs[7].1 as int + "do"@.len())
            &&& text_span(*b).0 == locs[8].1 as int && placed(*b, t)
            &&& gap_at(t, locs[9], text_span(*b).1)
            &&& kw_at(t, locs[9].1 as int, "end"@)
            &&& sp.1 == locs[9].1 as int + "end"@.len()
        },
        Node::ForRange(sp, locs, n, e) => {
            &&& kw_at(t, sp.0 as int, "for"@)
            &&& gap_at(t, locs[0], sp.0 as int + "for"@.len())
            &&& text_span(*n).0 == locs[0].1 as int && placed(*n, t)
            &&& gap_at(t, locs[1], text_span(*n).1)
            &&& kw_at(t, locs[1].1 as int, "in"@)
            &&& gap_at(t, locs[2], locs[1].1 as int + "in"@.len())
            &&& text_span(*e).0 == locs[2].1 as int && placed(*e, t)
            &&& gap_at(t, locs[3], text_span(*e).1)
            &&& kw_at(t, locs[3].1 as int, "do"@)
            &&& gap_at(t, locs[4], locs[3].1 as int + "do"@.len())
            &&& kw_at(t, locs[4].1 as int, "end"@)
            &&& sp.1 == locs[4].1 as int + "end"@.len()
        },
        Node::ForRangeB(sp, locs, n, e, b) => {
            &&& kw_at(t, sp.0 as int, "for"@)
            &&& gap_at(t, locs[0], sp.0 as int + "for"@.len())
            &&& text_span(*n).0 == locs[0].1 as int && placed(*n, t)
            &&& gap_at(t, locs[1], text_span(*n).1)
            &&& kw_at(t, locs[1].1 as int, "in"@)
            &&& gap_at(t, locs[2], locs[1].1 as int + "in"@.len())
            &&& text_span(*e).0 == locs[2].1 as int && placed(*e, t)
            &&& gap_at(t, locs[3], text_span(*e).1)
            &&& kw_at(t, locs[3].1 as int, "do"@)
            &&& gap_at(t, locs[4], locs[3].1 as int + "do"@.len())
            &&& text_span(*b).0 == locs[4].1 as int && placed(*b, t)
            &&& gap_at(t, locs[5], text_span(*b).1)
            &&& kw_at(t, locs[5].1 as int, "end"@)
            &&& sp.1 == locs[5].1 as int + "end"@.len()
        },
        Node::WhileDo(sp, locs, e) => {
            &&& kw_at(t, sp.0 as int, "while"@)
            &&& gap_at(t, locs[0], sp.0 as int + "while"@.len())
            &&& text_span(*e).0 == locs[0].1 as int && placed(*e, t)
            &&& gap_at(t, locs[1], text_span(*e).1)
            &&& kw_at(t, locs[1].1 as int, "do"@)
            &&& gap_at(t, locs[2], locs[1].1 as int + "do"@.len())
            &&& kw_at(t, locs[2].1 as int, "end"@)
            &&& sp.1 == locs[2].1 as int + "end"@.len()
        },
        Node::WhileDoB(sp, locs, e, n) => {
            &&& kw_at(t, sp.0 as int, "while"@)
            &&& gap_at(t, locs[0], sp.0 as int + "while"@.len())
            &&& text_span(*e).0 == locs[0].1 as int && placed(*e, t)
            &&& gap_at(t, locs[1], text_span(*e).1)
            &&& kw_at(t, locs[1].1 as int, "do"@)
            &&& gap_at(t, locs[2], locs[1].1 as int + "do"@.len())
            &&& text_span(*n).0 == locs[2].1 as int && placed(*n, t)
            &&& gap_at(t, locs[3], text_span(*n).1)
            &&& kw_at(t, locs[3].1 as int, "end"@)
            &&& sp.1 == locs[3].1 as int + "end"@.len()
        },
        Node::RepeatUntil(sp, locs, e) => {
            &&& kw_at(t, sp.0 as int, "repeat"@)
            &&& gap_at(t, locs[0], sp.0 as int + "repeat"@.len())
            &&& kw_at(t, locs[0].1 as int, "until"@)
            &&& gap_at(t, locs[1], locs[0].1 as int + "until"@.len())
            &&& text_span(*e).0 == locs[1].1 as int && placed(*e, t)
            &&& sp.1 == text_span(*e).1
        },
        Node::RepeatBUntil(sp, locs, b, e) => {
            &&& kw_at(t, sp.0 as int, "repeat"@)
            &&& gap_at(t, locs[0], sp.0 as int + "repeat"@.len())
            &&& text_span(*b).0 == locs[0].1 as int && placed(*b, t)
            &&& gap_at(t, locs[1], text_span(*b).1)
            &&& kw_at(t, locs[1].1 as int, "until"@)
            &&& gap_at(t, locs[2], locs[1].1 as int + "until"@.len())
            &&& text_span(*e).0 == locs[2].1 as int && placed(*e, t)
            &&& sp.1 == text_span(*e).1
        },
        Node::DoEnd(sp, locs) => {
            &&& kw_at(t, sp.0 as int, "do"@)
            &&& gap_at(t, locs[0], sp.0 as int + "do"@.len())
            &&& kw_at(t, locs[0].1 as int, "end"@)
            &&& sp.1 == locs[0].1 as int + "end"@.len()
        },
        Node::DoBEnd(sp, locs, b) => {
            &&& kw_at(t, sp.0 as int, "do"@)
            &&& gap_at(t, locs[0], sp.0 as int + "do"@.len())
            &&& text_span(*b).0 == locs[0].1 as int && placed(*b, t)
            &&& gap_at(t, locs[1], text_span(*b).1)
            &&& kw_at(t, locs[1].1 as int, "end"@)
            &&& sp.1 == locs[1].1 as int + "end"@.len()
        },
        Node::FunctionDef(sp, locs, n) => {
            &&& kw_at(t, sp.0 as int, "function"@)
            &&& gap_at(t, locs[0], sp.0 as int + "function"@.len())
            &&& text_span(*n).0 == locs[0].1 as int && placed(*n, t)
            &&& sp.1 == text_span(*n).1
        },
        Node::FuncBody(sp, locs) => {
            &&& kw_at(t, sp.0 as int, "("@)
            &&& gap_at(t, locs[0], sp.0 as int + "("@.len())
            &&& kw_at(t, locs[0].1 as int, ")"@)
            &&& gap_at(t, locs[1], locs[0].1 as int + ")"@.len())
            &&& kw_at(t, locs[1].1 as int, "end"@)
            &&& sp.1 == locs[1].1 as int + "end"@.len()
        },
        Node::FuncBodyB(sp, locs, n2) => {
            &&& kw_at(t, sp.0 as int, "("@)
            &&& gap_at(t, locs[0], sp.0 as int + "("@.len())
            &&& kw_at(t, locs[0].1 as int, ")"@)
            &&& gap_at(t, locs[1], locs[0].1 as int + ")"@.len())
            &&& text_span(*n2).0 == locs[1].1 as int && placed(*n2, t)
            &&& gap_at(t, locs[2], text_span(*n2).1)
            &&& kw_at(t, locs[2].1 as int, "end"@)
            &&& sp.1 == locs[2].1 as int + "end"@.len()
        },
        Node::FuncPBody(sp, locs, n1) => {
            &&& kw_at(t, sp.0 as int, "("@)
            &&& gap_at(t, locs[0], sp.0 as int + "("@.len())
            &&& text_span(*n1).0 == locs[0].1 as int && placed(*n1, t)
            &&& gap_at(t, locs[1], text_span(*n1).1)
            &&& kw_at(t, locs[1].1 as int, ")"@)
            &&& gap_at(t, locs[2], locs[1].1 as int + ")"@.len())
            &&& kw_at(t, locs[2].1 as int, "end"@)
            &&& sp.1 == locs[2].1 as int + "end"@.len()
        },
        Node::FuncPBodyB(sp, locs, n1, n2) => {
            &&& kw_at(t, sp.0 as int, "("@)
            &&& gap_at(t, locs[0], sp.0 as int + "("@.len())
            &&& text_span(*n1).0 == locs[0].1 as int && placed(*n1, t)
            &&& gap_at(t, locs[1], text_span(*n1).1)
            &&& kw_at(t, locs[1].1 as int, ")"@)
            &&& gap_at(t, locs[2], locs[1].1 as int + ")"@.len())
            &&& text_span(*n2).0 == locs[2].1 as int && placed(*n2, t)
            &&& gap_at(t, locs[3], text_span(*n2).1)
            &&& kw_at(t, locs[3].1 as int, "end"@)
            &&& sp.1 == locs[3].1 as int + "end"@.len()
        },
        Node::FuncDecl(sp, locs, n1, n2) => {
            &&& kw_at(t, sp.0 as int, "function"@)
            &&& gap_at(t, locs[0], sp.0 as int + "function"@.len())
            &&& text_span(*n1).0 == locs[0].1 as int && placed(*n1, t)
            &&& gap_at(t, locs[1], text_span(*n1).1)
            &&& text_span(*n2).0 == locs[1].1 as int && placed(*n2, t)
            &&& sp.1 == text_span(*n2).1
        },
        Node::LocalFuncDecl(sp, locs, n1, n2) => {
            &&& kw_at(t, sp.0 as int, "local"@)
            &&& gap_at(t, locs[0], sp.0 as int + "local"@.len())
            &&& kw_at(t, locs[0].1 as int, "function"@)
            &&& gap_at(t, locs[1], locs[0].1 as int + "function"@.len())
            &&& text_span(*n1).0 == locs[1].1 as int && placed(*n1, t)
            &&& gap_at(t, locs[2], text_span(*n1).1)
            &&& text_span(*n2).0 == locs[2].1 as int && placed(*n2, t)
            &&& sp.1 == text_span(*n2).1
        },
        Node::LocalNames(sp, locs, n) => {
            &&& kw_at(t, sp.0 as int, "local"@)
            &&& gap_at(t, locs[0], sp.0 as int + "local"@.len())
            &&& text_span(*n).0 == locs[0].1 as int && placed(*n, t)
            &&& sp.1 == text_span(*n).1
        },
        Node::LocalNamesExprs(sp, locs, n1, n2) => {
            &&& kw_at(t, sp.0 as int, "local"@)
            &&& gap_at(t, locs[0], sp.0 as int + "local"@.len())
            &&& text_span(*n1).0 == locs[0].1 as int && placed(*n1, t)
            &&& gap_at(t, locs[1], text_span(*n1).1)
            &&& kw_at(t, locs[1].1 as int, "="@)
            &&& gap_at(t, locs[2], locs[1].1 as int + "="@.len())
            &&& text_span(*n2).0 == locs[2].1 as int && placed(*n2, t)
            &&& sp.1 == text_span(*n2).1
        },
        Node::Label(sp, locs, n) => {
            &&& kw_at(t, sp.0 as int, "::"@)
            &&& gap_at(t, locs[0], sp.0 as int + "::"@.len())
            &&& text_span(*n).0 == locs[0].1 as int && placed(*n, t)
            &&& gap_at(t, locs[1], text_span(*n).1)
            &&& kw_at(t, locs[1].1 as int, "::"@)
            &&& sp.1 == locs[1].1 as int + "::"@.len()
        },
        Node::GoTo(sp, locs, n) => {
            &&& kw_at(t, sp.0 as int, "goto"@)
            &&& gap_at(t, locs[0], sp.0 as int + "goto"@.len())
            &&& text_span(*n).0 == locs[0].1 as int && placed(*n, t)
            &&& sp.1 == text_span(*n).1
        },
        Node::RetStatExpr(sp, locs, n) => {
            &&& kw_at(t, sp.0 as int, "return"@)
            &&& gap_at(t, locs[0], sp.0 as int + "return"@.len())
            &&& text_span(*n).0 == locs[0].1 as int && placed(*n, t)
            &&& sp.1 == text_span(*n).1
        },
        Node::RetStatNoneComma(sp, locs) => {
            &&& kw_at(t, sp.0 as int, "return"@)
            &&& gap_at(t, locs[0], sp.0 as int + "return"@.len())
            &&& kw_at(t, locs[0].1 as int, ";"@)
            &&& sp.1 == locs[0].1 as int + ";"@.len()
        },
        Node::RetStatExprComma(sp, locs, n) => {
            &&& kw_at(t, sp.0 as int, "return"@)
            &&& gap_at(t, locs[0], sp.0 as int + "return"@.len())
            &&& text_span(*n).0 == locs[0].1 as int && placed(*n, t)
            &&& gap_at(t, locs[1], text_span(*n).1)
            &&& kw_at(t, locs[1].1 as int, ";"@)
            &&& sp.1 == locs[1].1 as int + ";"@.len()
        },
        Node::StatsRetStat(sp, locs, n1, n2) => {
            &&& text_span(*n1).0 == sp.0 as int && placed(*n1, t)
            &&& gap_at(t, locs[0], text_span(*n1).1)
            &&& text_span(*n2).0 == locs[0].1 as int && placed(*n2, t)
            &&& sp.1 == text_span(*n2).1
        },
        Node::VarsExprs(sp, locs, n1, n2) => {
            &&& text_span(*n1).0 == sp.0 as int && placed(*n1, t)
            &&& gap_at(t, locs[0], text_span(*n1).1)
            &&& kw_at(t, locs[0].1 as int, "="@)
            &&& gap_at(t, locs[1], locs[0].1 as int + "="@.len())
            &&& text_span(*n2).0 == locs[1].1 as int && placed(*n2, t)
            &&& sp.1 == text_span(*n2).1
        },
        Node::UnaryOp(sp, locs, tok, r) => {
            &&& kw_at(t, sp.0 as int, tok.0@)
            &&& gap_at(t, locs[0], sp.0 as int + tok.0@.len())
            &&& text_span(*r).0 == locs[0].1 as int && placed(*r, t)
            &&& sp.1 == text_span(*r).1
        },
        Node::UnaryNot(sp, locs, r) => {
            &&& kw_at(t, sp.0 as int, "not"@)
            &&& gap_at(t, locs[0], sp.0 as int + "not"@.len())
            &&& text_span(*r).0 == locs[0].1 as int && placed(*r, t)
            &&& sp.1 == text_span(*r).1
        },
        Node::Var(sp, locs, n1, n2) => {
            &&& text_span(*n1).0 == sp.0 as int && placed(*n1, t)
            &&& gap_at(t, locs[0], text_span(*n1).1)
            &&& text_span(*n2).0 == locs[0].1 as int && placed(*n2, t)
            &&& sp.1 == text_span(*n2).1
        },
        Node::RoundBrackets(sp, locs, r) => {
            &&& kw_at(t, sp.0 as int, "("@)
            &&& gap_at(t, locs[0], sp.0 as int + "("@.len())
            &&& text_span(*r).0 == locs[0].1 as int && placed(*r, t)
            &&& gap_at(t, locs[1], text_span(*r).1)
            &&& kw_at(t, locs[1].1 as int, ")"@)
            &&& sp.1 == locs[1].1 as int + ")"@.len()
        },
        Node::ArgsRoundBrackets(sp, locs, r) => {
            &&& kw_at(t, sp.0 as int, "("@)
            &&& gap_at(t, locs[0], sp.0 as int + "("@.len())
            &&& text_span(*r).0 == locs[0].1 as int && placed(*r, t)
            &&& gap_at(t, locs[1], text_span(*r).1)
            &&& kw_at(t, locs[1].1 as int, ")"@)
            &&& sp.1 == locs[1].1 as int + ")"@.len()
        },
        Node::ArgsRoundBracketsEmpty(sp, locs) => {
            &&& kw_at(t, sp.0 as int, "("@)
            &&& gap_at(t, locs[0], sp.0 as int + "("@.len())
            &&& kw_at(t, locs[0].1 as int, ")"@)
            &&& sp.1 == locs[0].1 as int + ")"@.len()
        },
        Node::FieldNamedBracket(sp, locs, e1, e2) => {
            &&& kw_at(t, sp.0 as int, "["@)
            &&& gap_at(t, locs[0], sp.0 as int + "["@.len())
            &&& text_span(*e1).0 == locs[0].1 as int && placed(*e1, t)
            &&& gap_at(t, locs[1], text_span(*e1).1)
            &&& kw_at(t, locs[1].1 as int, "]"@)
            &&& gap_at(t, locs[2], locs[1].1 as int + "]"@.len())
            &&& kw_at(t, locs[2].1 as int, "="@)
            &&& gap_at(t, locs[3], locs[2].1 as int + "="@.len())
            &&& text_span(*e2).0 == locs[3].1 as int && placed(*e2, t)
            &&& sp.1 == text_span(*e2).1
        },
        Node::FieldNamed(sp, locs, e1, e2) => {
            &&& text_span(*e1).0 == sp.0 as int && placed(*e1, t)
            &&& gap_at(t, locs[0], text_span(*e1).1)
            &&& kw_at(t, locs[0].1 as int, "="@)
            &&& gap_at(t, locs[1], locs[0].1 as int + "="@.len())
            &&& text_span(*e2).0 == locs[1].1 as int && placed(*e2, t)
            &&& sp.1 == text_span(*e2).1
        },
        Node::FieldSequential(sp, e) => {
            &&& text_span(*e).0 == sp.0 as int && placed(*e, t)
            &&& sp.1 == text_span(*e).1
        },
        Node::TableIndex(sp, locs, e) => {
            &&& kw_at(t, sp.0 as int, "["@)
            &&& gap_at(t, locs[0], sp.0 as int + "["@.len())
            &&& text_span(*e).0 == locs[0].1 as int && placed(*e, t)
            &&& gap_at(t, locs[1], text_span(*e).1)
            &&& kw_at(t, locs[1].1 as int, "]"@)
            &&& sp.1 == locs[1].1 as int + "]"@.len()
        },
        Node::TableMember(sp, locs, n) => {
            &&& kw_at(t, sp.0 as int, "."@)
            &&& gap_at(t, locs[0], sp.0 as int + "."@.len())
            &&& text_span(*n).0 == locs[0].1 as int && placed(*n, t)
            &&& sp.1 == text_span(*n).1
        },
        Node::VarRoundSuffix(sp, locs, n1, n2) => {
            &&& kw_at(t, sp.0 as int, "("@)
            &&& gap_at(t, locs[0], sp.0 as int + "("@.len())
            &&& text_span(*n1).0 == locs[0].1 as int && placed(*n1, t)
            &&& gap_at(t, locs[1], text_span(*n1).1)
            &&& kw_at(t, locs[1].1 as int, ")"@)
            &&& gap_at(t, locs[2], locs[1].1 as int + ")"@.len())
            &&& text_span(*n2).0 == locs[2].1 as int && placed(*n2, t)
            &&& sp.1 == text_span(*n2).1
        },
        Node::FnMethodCall(sp, locs, n1, n2) => {
            &&& kw_at(t, sp.0 as int, ":"@)
            &&& gap_at(t, locs[0], sp.0 as int + ":"@.len())
            &&& text_span(*n1).0 == locs[0].1 as int && placed(*n1, t)
            &&& gap_at(t, locs[1], text_span(*n1).1)
            &&& text_span(*n2).0 == locs[1].1 as int && placed(*n2, t)
            &&& sp.1 == text_span(*n2).1
        },
        _ => false,
    }
}

/// The nodes of the items of a list with separators, from the `k`-th on, are placed.
pub open spec fn sep_nodes_placed(s: Seq<(Loc, Node, Loc, String)>, k: int, t: Seq<char>) -> bool
    decreases s, s.len() - k,
{
    if k < 0 || k >= s.len() {
        true
    } else {
        placed(s[k].1, t) && sep_nodes_placed(s, k + 1, t)
    }
}

/// The nodes of the items of a list without separators, from the `k`-th on, are placed.
pub open spec fn nodes_placed(s: Seq<(Loc, Node)>, k: int, t: Seq<char>) -> bool
    decreases s, s.len() - k,
{
    if k < 0 || k >= s.len() {
        true
    } else {
        placed(s[k].1, t) && nodes_placed(s, k + 1, t)
    }
}

pub proof fn lemma_sep_nodes_placed(s: Seq<(Loc, Node, Loc, String)>, k: int, t: Seq<char>)
    requires
        0 <= k,
        sep_nodes_placed(s, k, t),
    ensures
        forall|i: int| k <= i < s.len() ==> placed(#[trigger] s[i].1, t),
    decreases s.len() - k,
{
    reveal(placed);
    if k < s.len() {
        lemma_sep_nodes_placed(s, k + 1, t);
    }
}

pub proof fn lemma_nodes_placed(s: Seq<(Loc, Node)>, k: int, t: Seq<char>)
    requires
        0 <= k,
        nodes_placed(s, k, t),
    ensures
        forall|i: int| k <= i < s.len() ==> placed(#[trigger] s[i].1, t),
    decreases s.len() - k,
{
    reveal(placed);
    if k < s.len() {
        lemma_nodes_placed(s, k + 1, t);
    }
}

/// The nodes of a list with separators are placed, each of them.
pub proof fn lemma_sep_nodes(items: Seq<(Loc, Node, Loc, String)>, k: int, t: Seq<char>)
    requires
        0 <= k,
        forall|i: int| 0 <= i < items.len() ==> placed(#[trigger] items[i].1, t),
    ensures
        sep_nodes_placed(items, k, t),
    decreases items.len() - k,
{
    reveal(placed);
    if k < items.len() {
        assert(placed(items[k].1, t));
        lemma_sep_nodes(items, k + 1, t);
    }
}

/// The nodes of a list without separators are placed, each of them.
pub proof fn lemma_nodes(items: Seq<(Loc, Node)>, k: int, t: Seq<char>)
    requires
        0 <= k,
        forall|i: int| 0 <= i < items.len() ==> placed(#[trigger] items[i].1, t),
    ensures
        nodes_placed(items, k, t),
    decreases items.len() - k,
{
    reveal(placed);
    if k < items.len() {
        assert(placed(items[k].1, t));
        lemma_nodes(items, k + 1, t);
    }
}

/// Two items of a list with separators that differ at most in their nodes, and those cover
/// the same text.
pub open spec fn same_item_frame(x: (Loc, Node, Loc, String), y: (Loc, Node, Loc, String)) -> bool {
    &&& x.0 == y.0
    &&& x.2 == y.2
    &&& x.3 == y.3
    &&& text_span(x.1) == text_span(y.1)
}

/// Two items of a list without separators that differ at most in their nodes, and those
/// cover the same text.
pub open spec fn same_pair_frame(x: (Loc, Node), y: (Loc, Node)) -> bool {
    &&& x.0 == y.0
    &&& text_span(x.1) == text_span(y.1)
}

/// A list with separators whose items keep their frames is laid where it was.
pub proof fn lemma_sep_items_frame(t: Seq<char>, s1: Seq<(Loc, Node, Loc, String)>, s2: Seq<(Loc, Node, Loc, String)>, a: int, b: int, sep: Option<Seq<char>>, trailing: bool)
    requires
        s1.len() == s2.len(),
        forall|i: int| 0 <= i < s1.len() ==> #[trigger] same_item_frame(s1[i], s2[i]),
        sep_items_laid(t, s1, a, b, sep, trailing),
    ensures
        sep_items_laid(t, s2, a, b, sep, trailing),
{
    if s2.len() > 0 {
        assert forall|i: int| 0 <= i < s2.len() implies #[trigger] sep_item_laid(t, s2, i, a, sep, trailing) by {
            assert(sep_item_laid(t, s1, i, a, sep, trailing));
            assert(same_item_frame(s1[i], s2[i]));
            if i > 0 {
                assert(same_item_frame(s1[i - 1], s2[i - 1]));
            }
        }
        assert(same_item_frame(s1[s1.len() - 1], s2[s2.len() - 1]));
    }
}

/// A list without separators whose items keep their frames is laid where it was.
pub proof fn lemma_pairs_frame(t: Seq<char>, s1: Seq<(Loc, Node)>, s2: Seq<(Loc, Node)>, a: int, b: int)
    requires
        s1.len() == s2.len(),
        forall|i: int| 0 <= i < s1.len() ==> #[trigger] same_pair_frame(s1[i], s2[i]),
        items_laid(t, s1, a, b),
    ensures
        items_laid(t, s2, a, b),
{
    if s2.len() > 0 {
        assert forall|i: int| 0 <= i < s2.len() implies #[trigger] item_laid(t, s2, i, a) by {
            assert(item_laid(t, s1, i, a));
            assert(same_pair_frame(s1[i], s2[i]));
            if i > 0 {
                assert(same_pair_frame(s1[i - 1], s2[i - 1]));
            }
        }
        assert(same_pair_frame(s1[s1.len() - 1], s2[s2.len() - 1]));
    }
}

/// The text of a span joined to the text that follows it.
pub proof fn lemma_join(t: Seq<char>, a: int, b: int, c: int)
    requires
        0 <= a <= b <= c <= t.len(),
    ensures
        t.subrange(a, b) + t.subrange(b, c) == t.subrange(a, c),
{
    assert(t.subrange(a, b) + t.subrange(b, c) =~= t.subrange(a, c));
}

/// Where the text written since `f0` has reached, for a text that began at `a`.
pub open spec fn cursor(f: Seq<char>, f0: Seq<char>, a: int) -> int {
    a + f.len() - f0.len()
}

/// The text written since `f0` is the source text from `a` on.
#[verifier::opaque]
pub open spec fn tracks(f: Seq<char>, f0: Seq<char>, t: Seq<char>, a: int) -> bool {
    &&& f0.len() <= f.len()
    &&& 0 <= a
    &&& cursor(f, f0, a) <= t.len()
    &&& f == f0 + t.subrange(a, cursor(f, f0, a))
}

/// Writing the text that stands next in the source keeps the written text equal to it.
pub proof fn lemma_track(f: Seq<char>, piece: Seq<char>, f0: Seq<char>, t: Seq<char>, a: int)
    requires
        tracks(f, f0, t, a),
        kw_at(t, cursor(f, f0, a), piece),
    ensures
        tracks(f + piece, f0, t, a),
        cursor(f + piece, f0, a) == cursor(f, f0, a) + piece.len(),
{
    reveal(tracks);
    reveal(kw_at);
    let c = cursor(f, f0, a);
    lemma_join(t, a, c, c + piece.len());
    assert(f + piece =~= f0 + t.subrange(a, c + piece.len()));
}

/// A gap as `gap_at` describes it stands in the text as its own text.
pub proof fn lemma_gap_text(t: Seq<char>, g: Loc, a: int)
    requires
        gap_at(t, g, a),
    ensures
        kw_at(t, a, loc_text(t, g)),
        loc_text(t, g).len() == g.1 - g.0,
        g.0 == a,
        g.0 <= g.1 <= t.len(),
{
    reveal(gap_at);
    reveal(kw_at);
}

/// A span of the text stands in it as its own text.
pub proof fn lemma_span_text(t: Seq<char>, a: int, b: int)
    requires
        0 <= a <= b <= t.len(),
    ensures
        kw_at(t, a, t.subrange(a, b)),
        t.subrange(a, b).len() == b - a,
{
    reveal(kw_at);
}

/// Tracking the text written since `f1`, which itself tracked the text since `f0`.
pub proof fn lemma_tracks_trans(f0: Seq<char>, f1: Seq<char>, f2: Seq<char>, t: Seq<char>, a: int, b: int)
    requires
        tracks(f1, f0, t, a),
        cursor(f1, f0, a) == b,
        tracks(f2, f1, t, b),
    ensures
        tracks(f2, f0, t, a),
        cursor(f2, f0, a) == cursor(f2, f1, b),
{
    reveal(tracks);
    let c = cursor(f2, f1, b);
    lemma_join(t, a, b, c);
    assert(f2 =~= f0 + t.subrange(a, c));
}

/// What a tracking text is: the text before it and the source text it has reached.
pub proof fn lemma_tracks_text(f: Seq<char>, f0: Seq<char>, t: Seq<char>, a: int)
    requires
        tracks(f, f0, t, a),
    ensures
        f == f0 + t.subrange(a, cursor(f, f0, a)),
        0 <= a <= cursor(f, f0, a) <= t.len(),
{
    reveal(tracks);
}

/// Where the items of a list with separators end: before the `:` of a method name, else
/// at the end of the list.
pub open spec fn sep_list_end(n: Node) -> int {
    match n {
        Node::FuncNameSelf(_, locs, _, _) => locs[0].0 as int,
        _ => text_span(n).1,
    }
}

/// The items of a list with separators, and what the default options write between them.
pub open spec fn sep_list_parts(n: Node) -> (Seq<(Loc, Node, Loc, String)>, Option<Seq<char>>, bool) {
    match n {
        Node::Fields(_, items, _) => (items@, None, true),
        Node::FuncNameSelf(_, _, items, _) | Node::FuncName(_, items) => (items@, Some("."@), false),
        Node::ExpList(_, items) | Node::NameList(_, items) | Node::VarList(_, items) | Node::ParList(_, items) => (items@, Some(","@), false),
        _ => (Seq::empty(), None, false),
    }
}

/// What `placed` says of a list with separators: its items are laid out one after
/// another and their nodes are placed.
pub proof fn lemma_sep_list_placed(n: Node, t: Seq<char>)
    requires
        placed(n, t),
        n is Fields || n is FuncNameSelf || n is FuncName || n is ExpList || n is NameList || n is VarList || n is ParList,
    ensures
        sep_items_laid(t, sep_list_parts(n).0, text_span(n).0, sep_list_end(n), sep_list_parts(n).1, sep_list_parts(n).2),
        sep_nodes_placed(sep_list_parts(n).0, 0, t),
{
    reveal(placed);
}

/// What `placed` says of a list without separators.
pub proof fn lemma_list_placed(n: Node, t: Seq<char>)
    requires
        placed(n, t),
        n is StatementList || n is VarSuffixList || n is ElseIfThenVec,
    ensures
        items_laid(t, list_items(n), text_span(n).0, text_span(n).1),
        nodes_placed(list_items(n), 0, t),
        0 <= text_span(n).0 <= text_span(n).1 <= t.len(),
{
    reveal(placed);
}

/// The items of a list without separators.
pub open spec fn list_items(n: Node) -> Seq<(Loc, Node)> {
    match n {
        Node::StatementList(_, v) | Node::VarSuffixList(_, v) | Node::ElseIfThenVec(_, v) => v@,
        _ => Seq::empty(),
    }
}

/// A placed node lies within the text.
pub proof fn lemma_placed_span(n: Node, t: Seq<char>)
    requires
        placed(n, t),
    ensures
        0 <= text_span(n).0 <= text_span(n).1 <= t.len(),
{
    reveal(placed);
}

/// An empty gap stands anywhere in the text.
pub proof fn lemma_empty_gap(t: Seq<char>, x: usize)
    requires
        x <= t.len(),
        t.len() < usize::MAX / 4,
    ensures
        gap_at(t, Loc(x, x), x as int),
{
    reveal(gap_at);
    let e = t.subrange(x as int, x as int);
    assert(e.len() == 0);
    assert(crate::parser::comment_lexer::skip_spaces(e, 0) == 0);
    assert(comment_lex(e, 0) == Some(Seq::<(int, crate::parser::comment_lexer::SpecToken, int)>::empty()));
}

/// Text that stands at `a` stands there in its two parts.
pub proof fn lemma_kw_split(t: Seq<char>, a: int, x: Seq<char>, y: Seq<char>)
    requires
        kw_at(t, a, x + y),
    ensures
        kw_at(t, a, x),
        kw_at(t, a + x.len(), y),
{
    reveal(kw_at);
    let w = t.subrange(a, a + x.len() + y.len());
    assert(w == x + y);
    assert(t.subrange(a, a + x.len()) =~= w.subrange(0, x.len() as int));
    assert(w.subrange(0, x.len() as int) =~= x);
    assert(t.subrange(a + x.len(), a + x.len() + y.len()) =~= w.subrange(x.len() as int, w.len() as int));
    assert(w.subrange(x.len() as int, w.len() as int) =~= y);
}

/// Text that stands at `a` lies within the text.
pub proof fn lemma_kw_bounds(t: Seq<char>, a: int, x: Seq<char>)
    requires
        kw_at(t, a, x),
    ensures
        0 <= a,
        a + x.len() <= t.len(),
{
    reveal(kw_at);
}

/// A gap as `gap_at` describes it begins where it is said to and ends no earlier.
pub proof fn lemma_gap_bounds(t: Seq<char>, g: Loc, a: int)
    requires
        gap_at(t, g, a),
    ensures
        g.0 == a,
        g.0 <= g.1 <= t.len(),
{
    reveal(gap_at);
}

} // verus!
