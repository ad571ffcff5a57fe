use vstd::prelude::*;

use super::common::{Loc, ParseError, Str};
use super::lua_ast::{FieldsOpts, Node, TableConstructorOpts};
use super::lua_lexer::{lemma_skip_blank, lemma_token_advances, skip_blank, token_at, LexicalError, Lexer, SpecLex, SpecToken, Token};
use crate::formatting::default_layout::{
    gap_at, item_laid, items_laid, kw_at, lemma_empty_gap, lemma_gap_bounds, lemma_kw_bounds, lemma_kw_split,
    lemma_nodes, lemma_sep_nodes, nodes_placed, placed, sep_item_laid, sep_item_start, sep_items_laid, sep_nodes_placed, sep_text, text_span,
};
use crate::formatting::kept_comments::lemma_equals_len;
use crate::formatting::loc_hint::equals_signs;
use super::grammar::{
    g_args, g_binary_rest, g_block, g_exp, g_exp_list, g_exp_stat, g_expect, g_field, g_fields, g_for, g_func_body, g_func_name,
    g_if, g_name, g_name_list, g_par_list, g_retstat, g_simpleexp, g_statement, g_subexp, g_suffix, g_suffixed, g_suffixes,
    ends_block_kind, g_assignment_tail, g_local, lemma_assignment_tail, g_if_tail, g_table, g_var_rest, g_elseifs, is_atom, is_string, kinds, lua_accepts, tok,
};

verus! {

/// The tokens of a Lua text from `p` on, without the final `EOF`, or `None` where the
/// lexer reports an error.
pub open spec fn lua_lex(t: Seq<char>, p: int) -> Option<Seq<(int, SpecToken, int)>>
    decreases t.len() - p,
{
    if p < 0 || p > t.len() {
        None
    } else {
        let (q, ok) = skip_blank(t, p);
        if !ok {
            None
        } else if q >= t.len() {
            Some(Seq::empty())
        } else {
            let (lx, np) = token_at(t, q);
            match lx {
                SpecLex::Tok(l, tok, r) => if p < np <= t.len() {
                    match lua_lex(t, np) {
                        Some(rest) => Some(seq![(l, tok, r)] + rest),
                        None => None,
                    }
                } else {
                    None
                },
                SpecLex::Error(_) => None,
            }
        }
    }
}

/// The text that a token stands for in the source.
pub open spec fn token_text(tok: SpecToken) -> Seq<char> {
    match tok {
        SpecToken::OpExponentiation => "^"@,
        SpecToken::OpLogicalNot => "not"@,
        SpecToken::OpLength => "#"@,
        SpecToken::OpMultiplication => "*"@,
        SpecToken::OpDivision => "/"@,
        SpecToken::OpFloorDivision => "//"@,
        SpecToken::OpModulo => "%"@,
        SpecToken::OpAddition => "+"@,
        SpecToken::Minus => "-"@,
        SpecToken::OpConcatenation => ".."@,
        SpecToken::OpLeftShift => "<<"@,
        SpecToken::OpRightShift => ">>"@,
        SpecToken::OpBitwiseAnd => "&"@,
        SpecToken::Tilde => "~"@,
        SpecToken::OpBitwiseOr => "|"@,
        SpecToken::OpEquality => "=="@,
        SpecToken::OpInequality => "~="@,
        SpecToken::OpLessThan => "<"@,
        SpecToken::OpGreaterThan => ">"@,
        SpecToken::OpLessOrEqual => "<="@,
        SpecToken::OpGreaterOrEqual => ">="@,
        SpecToken::OpLogicalAnd => "and"@,
        SpecToken::OpLogicalOr => "or"@,
        SpecToken::Variable(s) => s,
        SpecToken::Numeral(s) => s,
        SpecToken::NormalStringLiteral(s) => "\""@ + s + "\""@,
        SpecToken::CharStringLiteral(s) => "'"@ + s + "'"@,
        SpecToken::MultiLineStringLiteral(level, s) => "["@ + equals_signs(level) + "["@ + s + "]"@ + equals_signs(level) + "]"@,
        SpecToken::Semicolon => ";"@,
        SpecToken::Comma => ","@,
        SpecToken::Colon => ":"@,
        SpecToken::Label => "::"@,
        SpecToken::EqualsSign => "="@,
        SpecToken::Period => "."@,
        SpecToken::OpenRoundBracket => "("@,
        SpecToken::CloseRoundBracket => ")"@,
        SpecToken::OpenSquareBracket => "["@,
        SpecToken::CloseSquareBracket => "]"@,
        SpecToken::OpenCurlyBracket => "{"@,
        SpecToken::CloseCurlyBracket => "}"@,
        SpecToken::Break => "break"@,
        SpecToken::Do => "do"@,
        SpecToken::Else => "else"@,
        SpecToken::ElseIf => "elseif"@,
        SpecToken::End => "end"@,
        SpecToken::False => "false"@,
        SpecToken::For => "for"@,
        SpecToken::Function => "function"@,
        SpecToken::GoTo => "goto"@,
        SpecToken::If => "if"@,
        SpecToken::In => "in"@,
        SpecToken::Local => "local"@,
        SpecToken::Nil => "nil"@,
        SpecToken::Repeat => "repeat"@,
        SpecToken::Return => "return"@,
        SpecToken::Then => "then"@,
        SpecToken::True => "true"@,
        SpecToken::Until => "until"@,
        SpecToken::VarArg => "..."@,
        SpecToken::While => "while"@,
        SpecToken::SheBang(s) => s + "\n"@,
        SpecToken::EOF => Seq::empty(),
    }
}

/// Token `i`, other than `EOF`, stands in the text as the text it stands for.
pub open spec fn tok_placed(t: Seq<char>, toks: Seq<(usize, Token, usize)>, i: int) -> bool {
    &&& !(toks[i].1 is EOF)
    &&& kw_at(t, toks[i].0 as int, token_text(toks[i].1@))
    &&& toks[i].2 == toks[i].0 + token_text(toks[i].1@).len()
}

/// The gap after token `i`, up to the next token.
pub open spec fn tok_gap(toks: Seq<(usize, Token, usize)>, i: int) -> Loc {
    Loc(toks[i].2, toks[i + 1].0)
}

/// A token stream that tiles the text: each token stands where it says as the text it
/// stands for, the gaps before, between and after the tokens hold blanks and comments that
/// the default options keep, and the stream ends with `EOF` at the end of the text.
pub open spec fn tok_ok(toks: Seq<(usize, Token, usize)>, t: Seq<char>) -> bool {
    &&& stream_ok(toks)
    &&& toks.last().0 == t.len() && toks.last().2 == t.len()
    &&& t.len() < usize::MAX / 4
    &&& forall|i: int| 0 <= i < toks.len() - 1 ==> #[trigger] tok_placed(t, toks, i)
    &&& gap_at(t, Loc(0, toks[0].0), 0)
    &&& forall|i: int| 0 <= i < toks.len() - 1 ==> gap_at(t, #[trigger] tok_gap(toks, i), toks[i].2 as int)
}

/// The tokens that the lexer reads from `t`, then `EOF` at its end.
pub open spec fn lexed(t: Seq<char>) -> Seq<(int, SpecToken, int)> {
    lua_lex(t, 0).unwrap().push((t.len() as int, SpecToken::EOF, t.len() as int))
}

/// Token `i` of a read stream, other than `EOF`, stands in the text as the text it stands for.
pub open spec fn stands(t: Seq<char>, ts: Seq<(int, SpecToken, int)>, i: int) -> bool {
    &&& !(ts[i].1 is EOF)
    &&& kw_at(t, ts[i].0, token_text(ts[i].1))
    &&& ts[i].2 == ts[i].0 + token_text(ts[i].1).len()
}

/// Tokens that tile the text: each but the last stands where it says as the text it stands
/// for, the gaps before, between and after them hold blanks and comments that the default
/// options keep, and the last is `EOF` at the end of the text.
pub open spec fn tiles(ts: Seq<(int, SpecToken, int)>, t: Seq<char>) -> bool {
    &&& ts.len() > 0
    &&& t.len() < usize::MAX / 4
    &&& ts.last() == (t.len() as int, SpecToken::EOF, t.len() as int)
    &&& forall|i: int| 0 <= i < ts.len() - 1 ==> #[trigger] stands(t, ts, i)
    &&& gap_at(t, Loc(0, ts[0].0 as usize), 0)
    &&& forall|i: int| 0 <= i < ts.len() - 1 ==> gap_at(t, Loc(#[trigger] ts[i].2 as usize, ts[i + 1].0 as usize), ts[i].2)
}

/// A stream read from a text tiles it, as the parser needs it, where its view does.
pub proof fn lemma_tiles_tok_ok(toks: Seq<(usize, Token, usize)>, t: Seq<char>)
    requires
        stream_ok(toks),
        tiles(tokens_view(toks), t),
    ensures
        tok_ok(toks, t),
{
    let ts = tokens_view(toks);
    assert(ts.len() == toks.len());
    assert(ts.last() == ts[ts.len() - 1]);
    assert(ts[ts.len() - 1] == (toks.last().0 as int, toks.last().1@, toks.last().2 as int));
    assert(ts[0] == (toks[0].0 as int, toks[0].1@, toks[0].2 as int));
    assert(Loc(0, ts[0].0 as usize) == Loc(0, toks[0].0));
    assert forall|i: int| 0 <= i < toks.len() - 1 implies #[trigger] tok_placed(t, toks, i) by {
        assert(stands(t, ts, i));
        assert(ts[i] == (toks[i].0 as int, toks[i].1@, toks[i].2 as int));
        if toks[i].1 is EOF {
            assert(toks[i].1@ is EOF);
        }
    }
    assert forall|i: int| 0 <= i < toks.len() - 1 implies gap_at(t, #[trigger] tok_gap(toks, i), toks[i].2 as int) by {
        assert(ts[i] == (toks[i].0 as int, toks[i].1@, toks[i].2 as int));
        assert(ts[i + 1] == (toks[i + 1].0 as int, toks[i + 1].1@, toks[i + 1].2 as int));
        assert(gap_at(t, Loc(ts[i].2 as usize, ts[i + 1].0 as usize), ts[i].2));
        assert(Loc(ts[i].2 as usize, ts[i + 1].0 as usize) == tok_gap(toks, i));
    }
}

/// In a stream that tiles the text, a token ends no earlier than any token before it begins,
/// and within the text.
proof fn lemma_tok_mono(toks: Seq<(usize, Token, usize)>, t: Seq<char>, a: int, b: int)
    requires
        tok_ok(toks, t),
        0 <= a <= b < toks.len() - 1,
    ensures
        toks[a].0 <= toks[b].2 <= t.len(),
        tok_placed(t, toks, b),
        tok_placed(t, toks, a),
    decreases b - a,
{
    assert(tok_placed(t, toks, b));
    assert(tok_placed(t, toks, a));
    lemma_kw_bounds(t, toks[b].0 as int, token_text(toks[b].1@));
    if a < b {
        lemma_tok_mono(toks, t, a, b - 1);
        lemma_gap_bounds(t, tok_gap(toks, b - 1), toks[b - 1].2 as int);
    }
}

/// The text of a token stands at its start, and the gap after it follows it.
proof fn lemma_tok_at(toks: Seq<(usize, Token, usize)>, t: Seq<char>, i: int)
    requires
        tok_ok(toks, t),
        0 <= i < toks.len() - 1,
    ensures
        tok_placed(t, toks, i),
        gap_at(t, tok_gap(toks, i), toks[i].2 as int),
        toks[i].0 <= toks[i].2 <= toks[i + 1].0 <= t.len(),
{
    assert(tok_placed(t, toks, i));
    assert(gap_at(t, tok_gap(toks, i), toks[i].2 as int));
    lemma_kw_bounds(t, toks[i].0 as int, token_text(toks[i].1@));
    lemma_gap_bounds(t, tok_gap(toks, i), toks[i].2 as int);
}

/// Adding an item to a list with separators: every item before it keeps its place, and the
/// new one stands after the separator of the one before it.
proof fn lemma_sep_push(t: Seq<char>, items: Seq<(Loc, Node, Loc, String)>, x: (Loc, Node, Loc, String), a: int, sep: Option<Seq<char>>)
    requires
        forall|i: int| 0 <= i < items.len() ==> #[trigger] sep_item_laid(t, items, i, a, sep, true),
        gap_at(t, x.0, sep_item_start(items, items.len() as int, a, sep)),
        text_span(x.1).0 == x.0.1,
        gap_at(t, x.2, text_span(x.1).1),
        kw_at(t, x.2.1 as int, sep_text(sep, x)),
    ensures
        forall|i: int| 0 <= i < items.push(x).len() ==> #[trigger] sep_item_laid(t, items.push(x), i, a, sep, true),
{
    let s2 = items.push(x);
    assert forall|i: int| 0 <= i < s2.len() implies #[trigger] sep_item_laid(t, s2, i, a, sep, true) by {
        if i < items.len() {
            assert(sep_item_laid(t, items, i, a, sep, true));
            assert(s2[i] == items[i]);
            if i > 0 {
                assert(s2[i - 1] == items[i - 1]);
            }
        } else {
            assert(s2[i] == x);
            if i > 0 {
                assert(s2[i - 1] == items[i - 1]);
            }
        }
    }
}

/// The last item of a list with separators and no separator after its last item.
proof fn lemma_sep_last(t: Seq<char>, items: Seq<(Loc, Node, Loc, String)>, x: (Loc, Node, Loc, String), a: int, sep: Option<Seq<char>>)
    requires
        forall|i: int| 0 <= i < items.len() ==> #[trigger] sep_item_laid(t, items, i, a, sep, true),
        gap_at(t, x.0, sep_item_start(items, items.len() as int, a, sep)),
        text_span(x.1).0 == x.0.1,
        gap_at(t, x.2, text_span(x.1).1),
    ensures
        sep_items_laid(t, items.push(x), a, x.2.1 as int, sep, false),
{
    let s2 = items.push(x);
    assert forall|i: int| 0 <= i < s2.len() implies #[trigger] sep_item_laid(t, s2, i, a, sep, false) by {
        if i < items.len() {
            assert(sep_item_laid(t, items, i, a, sep, true));
            assert(s2[i] == items[i]);
            if i > 0 {
                assert(s2[i - 1] == items[i - 1]);
            }
        } else {
            assert(s2[i] == x);
            if i > 0 {
                assert(s2[i - 1] == items[i - 1]);
            }
        }
    }
    assert(s2.last() == x);
}

/// The items of a list with separators where each is followed by its separator.
proof fn lemma_sep_all(t: Seq<char>, items: Seq<(Loc, Node, Loc, String)>, a: int, sep: Option<Seq<char>>)
    requires
        items.len() > 0,
        forall|i: int| 0 <= i < items.len() ==> #[trigger] sep_item_laid(t, items, i, a, sep, true),
    ensures
        sep_items_laid(t, items, a, sep_item_start(items, items.len() as int, a, sep), sep, true),
{
}

/// Adding an item to a list without separators.
proof fn lemma_item_push(t: Seq<char>, items: Seq<(Loc, Node)>, x: (Loc, Node), a: int)
    requires
        forall|i: int| 0 <= i < items.len() ==> #[trigger] item_laid(t, items, i, a),
        gap_at(t, x.0, if items.len() == 0 { a } else { text_span(items.last().1).1 }),
        text_span(x.1).0 == x.0.1,
    ensures
        forall|i: int| 0 <= i < items.push(x).len() ==> #[trigger] item_laid(t, items.push(x), i, a),
{
    let s2 = items.push(x);
    assert forall|i: int| 0 <= i < s2.len() implies #[trigger] item_laid(t, s2, i, a) by {
        if i < items.len() {
            assert(item_laid(t, items, i, a));
            assert(s2[i] == items[i]);
            if i > 0 {
                assert(s2[i - 1] == items[i - 1]);
            }
        } else {
            assert(s2[i] == x);
            if i > 0 {
                assert(s2[i - 1] == items[i - 1]);
            }
        }
    }
}

/// The empty text stands anywhere in the text.
proof fn lemma_kw_empty(t: Seq<char>, x: int)
    requires
        0 <= x <= t.len(),
    ensures
        kw_at(t, x, ""@),
{
    reveal(kw_at);
    reveal_strlit("");
    assert(t.subrange(x, x) =~= ""@);
}

/// An empty gap where a token begins.
proof fn lemma_start_gap(toks: Seq<(usize, Token, usize)>, t: Seq<char>, i: int)
    requires
        tok_ok(toks, t),
        0 <= i < toks.len(),
    ensures
        gap_at(t, Loc(toks[i].0, toks[i].0), toks[i].0 as int),
        toks[i].0 <= t.len(),
{
    if i < toks.len() - 1 {
        lemma_tok_at(toks, t, i);
    }
    lemma_empty_gap(t, toks[i].0);
}

/// An empty gap where a token ends.
proof fn lemma_end_gap(toks: Seq<(usize, Token, usize)>, t: Seq<char>, i: int)
    requires
        tok_ok(toks, t),
        0 <= i < toks.len() - 1,
    ensures
        gap_at(t, Loc(toks[i].2, toks[i].2), toks[i].2 as int),
{
    lemma_tok_at(toks, t, i);
    lemma_empty_gap(t, toks[i].2);
}

/// A node parsed from the tokens `a..b` is placed in the text and covers their span.
pub open spec fn node_at(n: Node, toks: Seq<(usize, Token, usize)>, a: int, b: int, t: Seq<char>) -> bool {
    &&& placed(n, t)
    &&& text_span(n) == (toks[a].0 as int, toks[b - 1].2 as int)
}

/// A token stream that the parser can walk: it ends with `EOF`.
pub open spec fn stream_ok(toks: Seq<(usize, Token, usize)>) -> bool {
    toks.len() > 0 && toks.last().1 is EOF && toks.len() <= usize::MAX
}

pub open spec fn tokens_view(toks: Seq<(usize, Token, usize)>) -> Seq<(int, SpecToken, int)> {
    toks.map_values(|x: (usize, Token, usize)| (x.0 as int, x.1@, x.2 as int))
}

/// Reads all tokens of a text, the final `EOF` included.
pub fn lex_all(src: &str) -> (res: Result<Vec<(usize, Token, usize)>, LexicalError>)
    requires
        src@.len() < usize::MAX / 4,
    ensures
        res is Ok <==> lua_lex(src@, 0) is Some,
        res matches Ok(v) ==> stream_ok(v@) && tokens_view(v@).drop_last() == lua_lex(src@, 0).unwrap()
            && v@.last().0 == src@.len() && v@.last().2 == src@.len(),
{
    let ghost t = src@;
    let mut lexer = Lexer::new(src);
    let mut toks: Vec<(usize, Token, usize)> = Vec::new();
    loop
        invariant
            lexer.wf(),
            lexer.text() == t,
            t == src@,
            !lexer.done(),
            0 <= lexer.index() <= t.len(),
            lua_lex(t, 0) == match lua_lex(t, lexer.index()) {
                Some(rest) => Some(tokens_view(toks@) + rest),
                None => None,
            },
            forall|i: int| 0 <= i < toks@.len() ==> !(#[trigger] toks@[i].1 is EOF),
        decreases t.len() - lexer.index(),
    {
        let ghost p = lexer.index();
        proof {
            lemma_skip_blank(t, p);
            let q = skip_blank(t, p).0;
            if q < t.len() {
                lemma_token_advances(t, q);
            }
        }
        match lexer.next() {
            Some(Ok(item)) => {
                if let Token::EOF = item.1 {
                    let ghost old_toks = toks@;
                    toks.push(item);
                    proof {
                        assert(tokens_view(toks@).drop_last() =~= tokens_view(old_toks));
                        assert(tokens_view(old_toks) + Seq::empty() =~= tokens_view(old_toks));
                    }
                    let _ = toks.len();
                    return Ok(toks);
                }
                proof {
                    let v = tokens_view(toks@);
                    assert(tokens_view(toks@.push(item)) =~= v.push((item.0 as int, item.1@, item.2 as int)));
                    let rest = lua_lex(t, lexer.index());
                    if rest is Some {
                        assert(v + (seq![(item.0 as int, item.1@, item.2 as int)] + rest.unwrap())
                            =~= v.push((item.0 as int, item.1@, item.2 as int)) + rest.unwrap());
                    }
                }
                toks.push(item);
            },
            Some(Err(e)) => {
                return Err(e);
            },
            None => {
                proof { assert(false); }
                return Err(LexicalError::UnexpectedEOF);
            },
        }
    }
}

type PErr = ParseError<Token, LexicalError>;

broadcast use super::grammar::lemma_tok_kinds, super::grammar::lemma_kinds_len;

/// The token at `pos`, refused where it stands.
fn unexpected(toks: &Vec<(usize, Token, usize)>, pos: usize) -> (res: PErr)
    requires
        pos < toks@.len(),
    ensures
        res == (ParseError::<Token, LexicalError>::UnrecognizedToken { token: toks@[pos as int] }),
        refused_in(toks@, res),
{
    ParseError::UnrecognizedToken { token: (toks[pos].0, toks[pos].1.duplicate(), toks[pos].2) }
}

/// Why a text is refused: the lexer cannot read it (a lexical error), or the grammar
/// refuses a token that the lexer read from it.
pub open spec fn refused_of(t: Seq<char>, e: ParseError<Token, LexicalError>) -> bool {
    match e {
        ParseError::User { .. } => lua_lex(t, 0) is None,
        ParseError::UnrecognizedToken { token } => lua_lex(t, 0) is Some
            && lexed(t).contains((token.0 as int, token.1@, token.2 as int)),
    }
}

/// The error is a token of the stream that the grammar refuses.
pub open spec fn refused_in(toks: Seq<(usize, Token, usize)>, e: ParseError<Token, LexicalError>) -> bool {
    e matches ParseError::UnrecognizedToken { token } && exists|i: int| 0 <= i < toks.len() && #[trigger] toks[i] == token
}

/// A token other than `EOF` is followed by another.
proof fn lemma_not_last(toks: Seq<(usize, Token, usize)>, pos: int)
    requires
        stream_ok(toks),
        0 <= pos < toks.len(),
        !(toks[pos].1 is EOF),
    ensures
        pos + 1 < toks.len(),
{
    if pos == toks.len() - 1 {
        assert(toks[pos] == toks.last());
    }
}

/// The index after a token other than `EOF`.
fn advance(toks: &Vec<(usize, Token, usize)>, pos: usize) -> (np: usize)
    requires
        stream_ok(toks@),
        pos < toks@.len(),
        !(toks@[pos as int].1 is EOF),
    ensures
        np == pos + 1,
        np < toks@.len(),
{
    proof { lemma_not_last(toks@, pos as int); }
    pos + 1
}

/// The keywords and punctuation that the parser asks for by kind.
pub open spec fn fixed_kind(t: SpecToken) -> bool {
    ||| t is Do ||| t is End ||| t is Then ||| t is Else ||| t is ElseIf ||| t is Until
    ||| t is In ||| t is Comma ||| t is Semicolon ||| t is EqualsSign
    ||| t is OpenRoundBracket ||| t is CloseRoundBracket ||| t is OpenSquareBracket
    ||| t is CloseSquareBracket ||| t is OpenCurlyBracket ||| t is CloseCurlyBracket
    ||| t is Label ||| t is Colon ||| t is Period ||| t is Function ||| t is Return
    ||| t is Local ||| t is If ||| t is For
}

/// Whether two tokens are the same keyword or punctuation.
fn same_kind(t: &Token, want: &Token) -> (res: bool)
    ensures
        res == (fixed_kind(want@) && t@ == want@),
        res ==> !(t is EOF),
{
    match (t, want) {
        (Token::Do, Token::Do) | (Token::End, Token::End) | (Token::Then, Token::Then) | (Token::Else, Token::Else)
        | (Token::ElseIf, Token::ElseIf) | (Token::Until, Token::Until) | (Token::In, Token::In)
        | (Token::Comma, Token::Comma) | (Token::Semicolon, Token::Semicolon)
        | (Token::EqualsSign, Token::EqualsSign) | (Token::OpenRoundBracket, Token::OpenRoundBracket)
        | (Token::CloseRoundBracket, Token::CloseRoundBracket)
        | (Token::OpenSquareBracket, Token::OpenSquareBracket)
        | (Token::CloseSquareBracket, Token::CloseSquareBracket)
        | (Token::OpenCurlyBracket, Token::OpenCurlyBracket)
        | (Token::CloseCurlyBracket, Token::CloseCurlyBracket) | (Token::Label, Token::Label)
        | (Token::Colon, Token::Colon) | (Token::Period, Token::Period) | (Token::Function, Token::Function)
        | (Token::Return, Token::Return) | (Token::Local, Token::Local) | (Token::If, Token::If)
        | (Token::For, Token::For) => true,
        _ => false,
    }
}

/// Whether the token at `pos` is `want`; then a token follows it.
fn is_at(toks: &Vec<(usize, Token, usize)>, pos: usize, want: &Token) -> (res: bool)
    requires
        stream_ok(toks@),
        pos < toks@.len(),
    ensures
        res == (fixed_kind(want@) && tok(kinds(toks@), pos as int) == want@),
        res == (fixed_kind(want@) && toks@[pos as int].1@ == want@),
        res ==> pos + 1 < toks@.len(),
{
    let r = same_kind(&toks[pos].1, want);
    proof {
        if r {
            lemma_not_last(toks@, pos as int);
        }
    }
    r
}

/// Consumes the token `want` at `pos`.
fn expect(toks: &Vec<(usize, Token, usize)>, pos: usize, want: &Token) -> (res: Result<usize, PErr>)
    requires
        stream_ok(toks@),
        pos < toks@.len(),
    ensures
        res matches Ok(np) ==> g_expect(kinds(toks@), pos as int, want@) == Some(np as int),
        res is Err && fixed_kind(want@) ==> g_expect(kinds(toks@), pos as int, want@) is None,
        res matches Err(e) ==> e is UnrecognizedToken && refused_in(toks@, e),
        res matches Ok(np) ==> np == pos + 1 && np < toks@.len() && toks@[pos as int].1@ == want@,
{
    if is_at(toks, pos, want) {
        Ok(pos + 1)
    } else {
        Err(unexpected(toks, pos))
    }
}

/// The blanks and comments before the token at `i`.
fn gap(toks: &Vec<(usize, Token, usize)>, i: usize) -> (res: Loc)
    requires
        0 < i < toks@.len(),
    ensures
        res == tok_gap(toks@, i - 1),
{
    Loc(toks[i - 1].2, toks[i].0)
}

/// The empty span where the token at `i` begins.
fn at_start(toks: &Vec<(usize, Token, usize)>, i: usize) -> (res: Loc)
    requires
        i < toks@.len(),
    ensures
        res == Loc(toks@[i as int].0, toks@[i as int].0),
{
    Loc(toks[i].0, toks[i].0)
}

/// The empty span where the token at `i` ends.
fn at_end(toks: &Vec<(usize, Token, usize)>, i: usize) -> (res: Loc)
    requires
        i < toks@.len(),
    ensures
        res == Loc(toks@[i as int].2, toks@[i as int].2),
{
    Loc(toks[i].2, toks[i].2)
}

/// The span of the tokens `a..b`.
fn span(toks: &Vec<(usize, Token, usize)>, a: usize, b: usize) -> (res: Loc)
    requires
        a < b <= toks@.len(),
    ensures
        res == Loc(toks@[a as int].0, toks@[b - 1].2),
{
    Loc(toks[a].0, toks[b - 1].2)
}

fn text_of(s: &str) -> (res: String)
    ensures
        res@ == s@,
{
    String::from_str(s)
}

fn name_node(toks: &Vec<(usize, Token, usize)>, pos: usize, Ghost(t): Ghost<Seq<char>>) -> (res: Result<(Node, usize), PErr>)
    requires
        stream_ok(toks@),
        pos < toks@.len(),
    ensures
        res matches Ok((_, np)) ==> g_name(kinds(toks@), pos as int) == Some(np as int),
        res matches Ok((n, _)) ==> n is Name,
        res is Err ==> g_name(kinds(toks@), pos as int) is None,
        res matches Ok((n, np)) ==> (tok_ok(toks@, t) ==> node_at(n, toks@, pos as int, np as int, t)),
        res matches Err(e) ==> e is UnrecognizedToken && refused_in(toks@, e),
        res matches Ok((_, np)) ==> np == pos + 1 && np < toks@.len(),
{
    match &toks[pos].1 {
        Token::Variable(s) => {
            let np = advance(toks, pos);
            let node = Node::Name(Loc(toks[pos].0, toks[pos].2), s.clone());
            proof {
                if tok_ok(toks@, t) {
                    lemma_tok_at(toks@, t, pos as int);
                    reveal(placed);
                }
            }
            Ok((node, np))
        },
        _ => Err(unexpected(toks, pos)),
    }
}

/// The pieces of a quoted literal stand in turn where the literal stands.
proof fn lemma_quoted(t: Seq<char>, a: int, q: Seq<char>, s: Seq<char>)
    requires
        kw_at(t, a, q + s + q),
    ensures
        kw_at(t, a, q),
        kw_at(t, a + q.len(), s),
        kw_at(t, a + q.len() + s.len(), q),
{
    lemma_kw_split(t, a, q + s, q);
    lemma_kw_split(t, a, q, s);
}

/// The pieces of a long bracket literal stand in turn where the literal stands.
proof fn lemma_long_bracket(t: Seq<char>, a: int, level: nat, s: Seq<char>)
    requires
        kw_at(t, a, "["@ + equals_signs(level) + "["@ + s + "]"@ + equals_signs(level) + "]"@),
    ensures
        kw_at(t, a, "["@),
        kw_at(t, a + "["@.len(), equals_signs(level)),
        kw_at(t, a + "["@.len() + level, "["@),
        kw_at(t, a + "["@.len() + level + "["@.len(), s),
        kw_at(t, a + "["@.len() + level + "["@.len() + s.len(), "]"@),
        kw_at(t, a + "["@.len() + level + "["@.len() + s.len() + "]"@.len(), equals_signs(level)),
        kw_at(t, a + "["@.len() + level + "["@.len() + s.len() + "]"@.len() + level, "]"@),
{
    let e = equals_signs(level);
    lemma_equals_len(level);
    lemma_kw_split(t, a, "["@ + e + "["@ + s + "]"@ + e, "]"@);
    lemma_kw_split(t, a, "["@ + e + "["@ + s + "]"@, e);
    lemma_kw_split(t, a, "["@ + e + "["@ + s, "]"@);
    lemma_kw_split(t, a, "["@ + e + "["@, s);
    lemma_kw_split(t, a, "["@ + e, "["@);
    lemma_kw_split(t, a, "["@, e);
}

/// A string literal at `pos`; `None` where the token there is none.
fn string_node(toks: &Vec<(usize, Token, usize)>, pos: usize, Ghost(t): Ghost<Seq<char>>) -> (res: Option<(Node, usize)>)
    requires
        stream_ok(toks@),
        pos < toks@.len(),
    ensures
        res is Some <==> is_string(tok(kinds(toks@), pos as int)),
        res matches Some((_, np)) ==> np == pos + 1,
        res is Some <==> (toks@[pos as int].1 is NormalStringLiteral || toks@[pos as int].1 is CharStringLiteral
            || toks@[pos as int].1 is MultiLineStringLiteral),
        res matches Some((n, np)) ==> np == pos + 1 && np < toks@.len()
            && (tok_ok(toks@, t) ==> node_at(n, toks@, pos as int, np as int, t)),
{
    let node = match &toks[pos].1 {
        Token::NormalStringLiteral(s) => Node::NormalStringLiteral(Loc(toks[pos].0, toks[pos].2), s.clone()),
        Token::CharStringLiteral(s) => Node::CharStringLiteral(Loc(toks[pos].0, toks[pos].2), s.clone()),
        Token::MultiLineStringLiteral(level, s) => Node::MultiLineStringLiteral(Loc(toks[pos].0, toks[pos].2), *level, s.clone()),
        _ => return None,
    };
    let np = advance(toks, pos);
    proof {
        if tok_ok(toks@, t) {
            lemma_tok_at(toks@, t, pos as int);
            let a = toks@[pos as int].0 as int;
            match toks@[pos as int].1 {
                Token::NormalStringLiteral(s) => {
                    lemma_quoted(t, a, "\""@, s@);
                },
                Token::CharStringLiteral(s) => {
                    lemma_quoted(t, a, "'"@, s@);
                },
                Token::MultiLineStringLiteral(level, s) => {
                    lemma_long_bracket(t, a, level as nat, s@);
                    lemma_equals_len(level as nat);
                },
                _ => {},
            }
            reveal(placed);
        }
    }
    Some((node, np))
}

/// A literal or keyword value at `pos`: `nil`, `true`, `false`, `...`, a number or a
/// string; `None` where the token there is none of them.
fn atom_node(toks: &Vec<(usize, Token, usize)>, pos: usize, Ghost(t): Ghost<Seq<char>>) -> (res: Option<(Node, usize)>)
    requires
        stream_ok(toks@),
        pos < toks@.len(),
    ensures
        res is Some <==> is_atom(tok(kinds(toks@), pos as int)),
        res matches Some((_, np)) ==> np == pos + 1,
        res is Some <==> (toks@[pos as int].1 is Nil || toks@[pos as int].1 is True || toks@[pos as int].1 is False
            || toks@[pos as int].1 is VarArg || toks@[pos as int].1 is Numeral
            || toks@[pos as int].1 is NormalStringLiteral || toks@[pos as int].1 is CharStringLiteral
            || toks@[pos as int].1 is MultiLineStringLiteral),
        res matches Some((n, np)) ==> np == pos + 1 && np < toks@.len()
            && (tok_ok(toks@, t) ==> node_at(n, toks@, pos as int, np as int, t)),
{
    let sp = Loc(toks[pos].0, toks[pos].2);
    let node = match &toks[pos].1 {
        Token::Nil => Node::Nil(sp),
        Token::True => Node::True(sp),
        Token::False => Node::False(sp),
        Token::VarArg => Node::VarArg(sp),
        Token::Numeral(s) => Node::Numeral(sp, s.clone()),
        _ => return string_node(toks, pos, Ghost(t)),
    };
    let np = advance(toks, pos);
    proof {
        if tok_ok(toks@, t) {
            lemma_tok_at(toks@, t, pos as int);
            reveal(placed);
        }
    }
    Some((node, np))
}

/// Whether a block ends before the token.
fn ends_block(t: &Token) -> (res: bool)
    ensures
        res == (t is EOF || t is End || t is Else || t is ElseIf || t is Until),
{
    match t {
        Token::EOF | Token::End | Token::Else | Token::ElseIf | Token::Until => true,
        _ => false,
    }
}

/// The left and right priorities of a binary operator; `None` for a token that is none.
pub open spec fn binop_priority(t: SpecToken) -> Option<(int, int)> {
    match t {
        SpecToken::OpLogicalOr => Some((1, 1)),
        SpecToken::OpLogicalAnd => Some((2, 2)),
        SpecToken::OpLessThan | SpecToken::OpGreaterThan | SpecToken::OpLessOrEqual
        | SpecToken::OpGreaterOrEqual | SpecToken::OpInequality | SpecToken::OpEquality => Some((3, 3)),
        SpecToken::OpBitwiseOr => Some((4, 4)),
        SpecToken::Tilde => Some((5, 5)),
        SpecToken::OpBitwiseAnd => Some((6, 6)),
        SpecToken::OpLeftShift | SpecToken::OpRightShift => Some((7, 7)),
        SpecToken::OpConcatenation => Some((9, 9)),
        SpecToken::OpAddition | SpecToken::Minus => Some((10, 10)),
        SpecToken::OpMultiplication | SpecToken::OpDivision | SpecToken::OpFloorDivision
        | SpecToken::OpModulo => Some((11, 11)),
        SpecToken::OpExponentiation => Some((14, 14)),
        _ => None,
    }
}

/// The binary operator at `t`: its text and its left and right priorities.
fn binary_op(t: &Token) -> (res: Option<(&'static str, u8, u8)>)
    ensures
        match res {
            Some((s, l, r)) => binop_priority(t@) == Some((l as int, r as int)) && s@ == token_text(t@),
            None => binop_priority(t@) is None,
        },
        res matches Some((_, l, r)) ==> 1 <= l <= 14 && 1 <= r <= 14,
        res is Some ==> !(t is EOF),
{
    match t {
        Token::OpLogicalOr => Some(("or", 1, 1)),
        Token::OpLogicalAnd => Some(("and", 2, 2)),
        Token::OpLessThan => Some(("<", 3, 3)),
        Token::OpGreaterThan => Some((">", 3, 3)),
        Token::OpLessOrEqual => Some(("<=", 3, 3)),
        Token::OpGreaterOrEqual => Some((">=", 3, 3)),
        Token::OpInequality => Some(("~=", 3, 3)),
        Token::OpEquality => Some(("==", 3, 3)),
        Token::OpBitwiseOr => Some(("|", 4, 4)),
        Token::Tilde => Some(("~", 5, 5)),
        Token::OpBitwiseAnd => Some(("&", 6, 6)),
        Token::OpLeftShift => Some(("<<", 7, 7)),
        Token::OpRightShift => Some((">>", 7, 7)),
        Token::OpConcatenation => Some(("..", 9, 9)),
        Token::OpAddition => Some(("+", 10, 10)),
        Token::Minus => Some(("-", 10, 10)),
        Token::OpMultiplication => Some(("*", 11, 11)),
        Token::OpDivision => Some(("/", 11, 11)),
        Token::OpFloorDivision => Some(("//", 11, 11)),
        Token::OpModulo => Some(("%", 11, 11)),
        Token::OpExponentiation => Some(("^", 14, 14)),
        _ => None,
    }
}

/// The priority of the unary operators: only `^` binds tighter.
const UNARY_PRIORITY: u8 = 12;

/// An expression whose binary operators bind tighter than `limit`. A unary operator may
/// not stand at its start unless `allow_unary`.
#[verifier::rlimit(100)]
#[verifier::spinoff_prover]
fn parse_subexp(toks: &Vec<(usize, Token, usize)>, pos: usize, limit: u8, allow_unary: bool, Ghost(t): Ghost<Seq<char>>) -> (res: Result<(Node, usize), PErr>)
    requires
        stream_ok(toks@),
        pos < toks@.len(),
    ensures
        res matches Ok((_, np)) ==> g_subexp(kinds(toks@), pos as int, limit as int, allow_unary) == Some(np as int),
        res is Err ==> g_subexp(kinds(toks@), pos as int, limit as int, allow_unary) is None,
        res matches Ok((n, np)) ==> (tok_ok(toks@, t) ==> node_at(n, toks@, pos as int, np as int, t)),
        res matches Err(e) ==> e is UnrecognizedToken && refused_in(toks@, e),
        res matches Ok((_, np)) ==> pos < np < toks@.len(),
    decreases toks@.len() - pos, 23nat,
{
    let start = pos;
    let (mut lhs, mut p) = match &toks[pos].1 {
        Token::OpLogicalNot | Token::Minus | Token::OpLength | Token::Tilde => {
            if !allow_unary {
                return Err(unexpected(toks, pos));
            }
            let p1 = advance(toks, pos);
            let (operand, p2) = parse_subexp(toks, p1, UNARY_PRIORITY, false, Ghost(t))?;
            let locs = [gap(toks, p1)];
            let node = match &toks[pos].1 {
                Token::OpLogicalNot => Node::UnaryNot(span(toks, start, p2), locs, Box::new(operand)),
                Token::Minus => Node::UnaryOp(span(toks, start, p2), locs, Str(text_of("-")), Box::new(operand)),
                Token::OpLength => Node::UnaryOp(span(toks, start, p2), locs, Str(text_of("#")), Box::new(operand)),
                _ => Node::UnaryOp(span(toks, start, p2), locs, Str(text_of("~")), Box::new(operand)),
            };
            proof {
                if tok_ok(toks@, t) {
                    lemma_tok_at(toks@, t, pos as int);
                    lemma_tok_mono(toks@, t, pos as int, p2 - 1);
                    reveal(placed);
                }
            }
            (node, p2)
        },
        _ => parse_simpleexp(toks, pos, Ghost(t))?,
    };
    loop
        invariant
            g_subexp(kinds(toks@), start as int, limit as int, allow_unary) == g_binary_rest(kinds(toks@), p as int, limit as int),
            stream_ok(toks@),
            start < p < toks@.len(),
            start == pos,
            tok_ok(toks@, t) ==> node_at(lhs, toks@, start as int, p as int, t),
        decreases toks@.len() - p,
    {
        match binary_op(&toks[p].1) {
            Some((op, left, right)) => {
                if left <= limit {
                    return Ok((lhs, p));
                }
                let op_pos = p;
                let p1 = advance(toks, p);
                let (rhs, p2) = parse_subexp(toks, p1, right, true, Ghost(t))?;
                let locs = [gap(toks, op_pos), gap(toks, p1)];
                let ghost prev = lhs;
                lhs = Node::BinaryOp(span(toks, start, p2), locs, Str(text_of(op)), Box::new(lhs), Box::new(rhs));
                proof {
                    if tok_ok(toks@, t) {
                        lemma_tok_at(toks@, t, op_pos - 1);
                        lemma_tok_at(toks@, t, op_pos as int);
                        lemma_tok_mono(toks@, t, start as int, p2 - 1);
                        reveal(placed);
                    }
                }
                p = p2;
            },
            None => return Ok((lhs, p)),
        }
    }
}

#[verifier::rlimit(100)]
#[verifier::spinoff_prover]
fn parse_exp(toks: &Vec<(usize, Token, usize)>, pos: usize, Ghost(t): Ghost<Seq<char>>) -> (res: Result<(Node, usize), PErr>)
    requires
        stream_ok(toks@),
        pos < toks@.len(),
    ensures
        res matches Ok((_, np)) ==> g_exp(kinds(toks@), pos as int) == Some(np as int),
        res is Err ==> g_exp(kinds(toks@), pos as int) is None,
        res matches Ok((n, np)) ==> (tok_ok(toks@, t) ==> node_at(n, toks@, pos as int, np as int, t)),
        res matches Err(e) ==> e is UnrecognizedToken && refused_in(toks@, e),
        res matches Ok((_, np)) ==> pos < np < toks@.len(),
    decreases toks@.len() - pos, 24nat,
{
    parse_subexp(toks, pos, 0, true, Ghost(t))
}

/// Expressions separated by commas.
#[verifier::rlimit(100)]
#[verifier::spinoff_prover]
fn parse_exp_list(toks: &Vec<(usize, Token, usize)>, pos: usize, Ghost(t): Ghost<Seq<char>>) -> (res: Result<(Node, usize), PErr>)
    requires
        stream_ok(toks@),
        pos < toks@.len(),
    ensures
        res matches Ok((_, np)) ==> g_exp_list(kinds(toks@), pos as int) == Some(np as int),
        res is Err ==> g_exp_list(kinds(toks@), pos as int) is None,
        res matches Ok((n, np)) ==> (tok_ok(toks@, t) ==> node_at(n, toks@, pos as int, np as int, t)),
        res matches Err(e) ==> e is UnrecognizedToken && refused_in(toks@, e),
        res matches Ok((_, np)) ==> pos < np < toks@.len(),
    decreases toks@.len() - pos, 25nat,
{
    let ghost a = toks@[pos as int].0 as int;
    let ghost sep = Some(","@);
    let mut items: Vec<(Loc, Node, Loc, String)> = Vec::new();
    let mut p = pos;
    let mut before = at_start(toks, pos);
    proof {
        if tok_ok(toks@, t) {
            lemma_start_gap(toks@, t, pos as int);
        }
    }
    loop
        invariant
            g_exp_list(kinds(toks@), pos as int) == g_exp_list(kinds(toks@), p as int),
            stream_ok(toks@),
            pos <= p < toks@.len(),
            a == toks@[pos as int].0,
            sep == Some(","@),
            tok_ok(toks@, t) ==> {
                &&& forall|i: int| 0 <= i < items@.len() ==> #[trigger] sep_item_laid(t, items@, i, a, sep, true)
                &&& forall|i: int| 0 <= i < items@.len() ==> placed(#[trigger] items@[i].1, t)
                &&& gap_at(t, before, sep_item_start(items@, items@.len() as int, a, sep))
                &&& before.1 == toks@[p as int].0
            },
        decreases toks@.len() - p,
    {
        let (e, p1) = parse_exp(toks, p, Ghost(t))?;
        if is_at(toks, p1, &Token::Comma) {
            let ghost old_items = items@;
            let item = (before, e, gap(toks, p1), text_of(","));
            proof {
                if tok_ok(toks@, t) {
                    lemma_tok_at(toks@, t, p1 - 1);
                    lemma_tok_at(toks@, t, p1 as int);
                    lemma_sep_push(t, old_items, item, a, sep);
                }
            }
            items.push(item);
            p = p1 + 1;
            before = gap(toks, p);
        } else {
            let ghost old_items = items@;
            let item = (before, e, at_end(toks, p1 - 1), text_of(""));
            proof {
                if tok_ok(toks@, t) {
                    lemma_end_gap(toks@, t, p1 - 1);
                    lemma_sep_last(t, old_items, item, a, sep);
                }
            }
            items.push(item);
            let node = Node::ExpList(span(toks, pos, p1), items);
            proof {
                if tok_ok(toks@, t) {
                    lemma_sep_nodes(old_items.push(item), 0, t);
                    lemma_tok_mono(toks@, t, pos as int, p1 - 1);
                    reveal(placed);
                }
            }
            return Ok((node, p1));
        }
    }
}

/// Names separated by commas.
#[verifier::rlimit(100)]
#[verifier::spinoff_prover]
fn parse_name_list(toks: &Vec<(usize, Token, usize)>, pos: usize, Ghost(t): Ghost<Seq<char>>) -> (res: Result<(Node, usize), PErr>)
    requires
        stream_ok(toks@),
        pos < toks@.len(),
    ensures
        res matches Ok((_, np)) ==> g_name_list(kinds(toks@), pos as int) == Some(np as int),
        res is Err ==> g_name_list(kinds(toks@), pos as int) is None,
        res matches Ok((n, np)) ==> (tok_ok(toks@, t) ==> node_at(n, toks@, pos as int, np as int, t)),
        res matches Err(e) ==> e is UnrecognizedToken && refused_in(toks@, e),
        res matches Ok((_, np)) ==> pos < np < toks@.len(),
{
    let ghost a = toks@[pos as int].0 as int;
    let ghost sep = Some(","@);
    let mut items: Vec<(Loc, Node, Loc, String)> = Vec::new();
    let mut p = pos;
    let mut before = at_start(toks, pos);
    proof {
        if tok_ok(toks@, t) {
            lemma_start_gap(toks@, t, pos as int);
        }
    }
    loop
        invariant
            g_name_list(kinds(toks@), pos as int) == g_name_list(kinds(toks@), p as int),
            stream_ok(toks@),
            pos <= p < toks@.len(),
            a == toks@[pos as int].0,
            sep == Some(","@),
            tok_ok(toks@, t) ==> {
                &&& forall|i: int| 0 <= i < items@.len() ==> #[trigger] sep_item_laid(t, items@, i, a, sep, true)
                &&& forall|i: int| 0 <= i < items@.len() ==> placed(#[trigger] items@[i].1, t)
                &&& gap_at(t, before, sep_item_start(items@, items@.len() as int, a, sep))
                &&& before.1 == toks@[p as int].0
            },
        decreases toks@.len() - p,
    {
        let (n, p1) = name_node(toks, p, Ghost(t))?;
        if is_at(toks, p1, &Token::Comma) {
            let ghost old_items = items@;
            let item = (before, n, gap(toks, p1), text_of(","));
            proof {
                if tok_ok(toks@, t) {
                    lemma_tok_at(toks@, t, p1 - 1);
                    lemma_tok_at(toks@, t, p1 as int);
                    lemma_sep_push(t, old_items, item, a, sep);
                }
            }
            items.push(item);
            p = p1 + 1;
            before = gap(toks, p);
        } else {
            let ghost old_items = items@;
            let item = (before, n, at_end(toks, p1 - 1), text_of(""));
            proof {
                if tok_ok(toks@, t) {
                    lemma_end_gap(toks@, t, p1 - 1);
                    lemma_sep_last(t, old_items, item, a, sep);
                }
            }
            items.push(item);
            let node = Node::NameList(span(toks, pos, p1), items);
            proof {
                if tok_ok(toks@, t) {
                    lemma_sep_nodes(old_items.push(item), 0, t);
                    lemma_tok_mono(toks@, t, pos as int, p1 - 1);
                    reveal(placed);
                }
            }
            return Ok((node, p1));
        }
    }
}

/// The parameters of a function: names, and `...` at the end.
#[verifier::rlimit(100)]
#[verifier::spinoff_prover]
fn parse_par_list(toks: &Vec<(usize, Token, usize)>, pos: usize, Ghost(t): Ghost<Seq<char>>) -> (res: Result<(Node, usize), PErr>)
    requires
        stream_ok(toks@),
        pos < toks@.len(),
    ensures
        res matches Ok((_, np)) ==> g_par_list(kinds(toks@), pos as int) == Some(np as int),
        res is Err ==> g_par_list(kinds(toks@), pos as int) is None,
        res matches Ok((n, np)) ==> (tok_ok(toks@, t) ==> node_at(n, toks@, pos as int, np as int, t)),
        res matches Err(e) ==> e is UnrecognizedToken && refused_in(toks@, e),
        res matches Ok((_, np)) ==> pos < np < toks@.len(),
{
    let ghost a = toks@[pos as int].0 as int;
    let ghost sep = Some(","@);
    let mut items: Vec<(Loc, Node, Loc, String)> = Vec::new();
    let mut p = pos;
    let mut before = at_start(toks, pos);
    proof {
        if tok_ok(toks@, t) {
            lemma_start_gap(toks@, t, pos as int);
        }
    }
    loop
        invariant
            g_par_list(kinds(toks@), pos as int) == g_par_list(kinds(toks@), p as int),
            stream_ok(toks@),
            pos <= p < toks@.len(),
            a == toks@[pos as int].0,
            sep == Some(","@),
            tok_ok(toks@, t) ==> {
                &&& forall|i: int| 0 <= i < items@.len() ==> #[trigger] sep_item_laid(t, items@, i, a, sep, true)
                &&& forall|i: int| 0 <= i < items@.len() ==> placed(#[trigger] items@[i].1, t)
                &&& gap_at(t, before, sep_item_start(items@, items@.len() as int, a, sep))
                &&& before.1 == toks@[p as int].0
            },
        decreases toks@.len() - p,
    {
        let (n, p1) = match &toks[p].1 {
            Token::VarArg => {
                let p1 = advance(toks, p);
                let ghost old_items = items@;
                let va = Node::VarArg(span(toks, p, p1));
                let item = (before, va, at_end(toks, p), text_of(""));
                proof {
                    if tok_ok(toks@, t) {
                        lemma_tok_at(toks@, t, p as int);
                        lemma_end_gap(toks@, t, p as int);
                        reveal(placed);
                        assert(placed(va, t));
                        lemma_sep_last(t, old_items, item, a, sep);
                    }
                }
                items.push(item);
                let node = Node::ParList(span(toks, pos, p1), items);
                proof {
                    if tok_ok(toks@, t) {
                        lemma_sep_nodes(old_items.push(item), 0, t);
                        lemma_tok_mono(toks@, t, pos as int, p1 - 1);
                        reveal(placed);
                    }
                }
                return Ok((node, p1));
            },
            _ => name_node(toks, p, Ghost(t))?,
        };
        if is_at(toks, p1, &Token::Comma) {
            let ghost old_items = items@;
            let item = (before, n, gap(toks, p1), text_of(","));
            proof {
                if tok_ok(toks@, t) {
                    lemma_tok_at(toks@, t, p1 - 1);
                    lemma_tok_at(toks@, t, p1 as int);
                    lemma_sep_push(t, old_items, item, a, sep);
                }
            }
            items.push(item);
            p = p1 + 1;
            before = gap(toks, p);
        } else {
            let ghost old_items = items@;
            let item = (before, n, at_end(toks, p1 - 1), text_of(""));
            proof {
                if tok_ok(toks@, t) {
                    lemma_end_gap(toks@, t, p1 - 1);
                    lemma_sep_last(t, old_items, item, a, sep);
                }
            }
            items.push(item);
            let node = Node::ParList(span(toks, pos, p1), items);
            proof {
                if tok_ok(toks@, t) {
                    lemma_sep_nodes(old_items.push(item), 0, t);
                    lemma_tok_mono(toks@, t, pos as int, p1 - 1);
                    reveal(placed);
                }
            }
            return Ok((node, p1));
        }
    }
}

/// A field of a table constructor.
#[verifier::rlimit(100)]
#[verifier::spinoff_prover]
fn parse_field(toks: &Vec<(usize, Token, usize)>, pos: usize, Ghost(t): Ghost<Seq<char>>) -> (res: Result<(Node, usize), PErr>)
    requires
        stream_ok(toks@),
        pos < toks@.len(),
    ensures
        res matches Ok((_, np)) ==> g_field(kinds(toks@), pos as int) == Some(np as int),
        res is Err ==> g_field(kinds(toks@), pos as int) is None,
        res matches Ok((n, np)) ==> (tok_ok(toks@, t) ==> node_at(n, toks@, pos as int, np as int, t)),
        res matches Err(e) ==> e is UnrecognizedToken && refused_in(toks@, e),
        res matches Ok((_, np)) ==> pos < np < toks@.len(),
    decreases toks@.len() - pos, 26nat,
{
    if is_at(toks, pos, &Token::OpenSquareBracket) {
        let p1 = pos + 1;
        let (k, p2) = parse_exp(toks, p1, Ghost(t))?;
        let p3 = expect(toks, p2, &Token::CloseSquareBracket)?;
        let p4 = expect(toks, p3, &Token::EqualsSign)?;
        let (v, p5) = parse_exp(toks, p4, Ghost(t))?;
        let locs = [gap(toks, p1), gap(toks, p2), gap(toks, p3), gap(toks, p4)];
        let node = Node::FieldNamedBracket(span(toks, pos, p5), locs, Box::new(k), Box::new(v));
            proof {
                if tok_ok(toks@, t) {
                    lemma_tok_at(toks@, t, (pos) as int);
                    lemma_tok_at(toks@, t, (p2) as int);
                    lemma_tok_at(toks@, t, (p3) as int);
                    lemma_tok_mono(toks@, t, (pos) as int, (p5) - 1);
                    reveal(placed);
                }
            }
        return Ok((node, p5));
    }
    if let Token::Variable(_) = &toks[pos].1 {
        if is_at(toks, advance(toks, pos), &Token::EqualsSign) {
            let (n, p1) = name_node(toks, pos, Ghost(t))?;
            let p2 = p1 + 1;
            let (v, p3) = parse_exp(toks, p2, Ghost(t))?;
            let locs = [gap(toks, p1), gap(toks, p2)];
            let node = Node::FieldNamed(span(toks, pos, p3), locs, Box::new(n), Box::new(v));
            proof {
                if tok_ok(toks@, t) {
                    lemma_tok_at(toks@, t, (p1) as int);
                    lemma_tok_mono(toks@, t, (pos) as int, (p3) - 1);
                    reveal(placed);
                }
            }
            return Ok((node, p3));
        }
    }
    let (e, p1) = parse_exp(toks, pos, Ghost(t))?;
    let node = Node::FieldSequential(span(toks, pos, p1), Box::new(e));
            proof {
                if tok_ok(toks@, t) {
                    lemma_tok_mono(toks@, t, (pos) as int, (p1) - 1);
                    reveal(placed);
                }
            }
    Ok((node, p1))
}

/// The fields of a non-empty table constructor, with their separators.
#[verifier::rlimit(100)]
#[verifier::spinoff_prover]
fn parse_fields(toks: &Vec<(usize, Token, usize)>, pos: usize, Ghost(t): Ghost<Seq<char>>) -> (res: Result<(Node, usize), PErr>)
    requires
        stream_ok(toks@),
        pos < toks@.len(),
    ensures
        res matches Ok((_, np)) ==> g_fields(kinds(toks@), pos as int) == Some(np as int),
        res is Err ==> g_fields(kinds(toks@), pos as int) is None,
        res matches Ok((n, np)) ==> (tok_ok(toks@, t) ==> node_at(n, toks@, pos as int, np as int, t)),
        res matches Err(e) ==> e is UnrecognizedToken && refused_in(toks@, e),
        res matches Ok((_, np)) ==> pos < np < toks@.len(),
    decreases toks@.len() - pos, 27nat,
{
    let ghost a = toks@[pos as int].0 as int;
    let ghost sep: Option<Seq<char>> = None;
    let mut items: Vec<(Loc, Node, Loc, String)> = Vec::new();
    let mut p = pos;
    let mut before = at_start(toks, pos);
    proof {
        if tok_ok(toks@, t) {
            lemma_start_gap(toks@, t, pos as int);
        }
    }
    loop
        invariant
            g_fields(kinds(toks@), pos as int) == g_fields(kinds(toks@), p as int),
            stream_ok(toks@),
            pos <= p < toks@.len(),
            a == toks@[pos as int].0,
            sep is None,
            tok_ok(toks@, t) ==> {
                &&& forall|i: int| 0 <= i < items@.len() ==> #[trigger] sep_item_laid(t, items@, i, a, sep, true)
                &&& forall|i: int| 0 <= i < items@.len() ==> placed(#[trigger] items@[i].1, t)
                &&& gap_at(t, before, sep_item_start(items@, items@.len() as int, a, sep))
                &&& before.1 == toks@[p as int].0
            },
        decreases toks@.len() - p,
    {
        let (f, p1) = parse_field(toks, p, Ghost(t))?;
        let sep_str = if is_at(toks, p1, &Token::Comma) {
            Some(text_of(","))
        } else if is_at(toks, p1, &Token::Semicolon) {
            Some(text_of(";"))
        } else {
            None
        };
        match sep_str {
            Some(s) => {
                let ghost old_items = items@;
                let item = (before, f, gap(toks, p1), s);
                proof {
                    if tok_ok(toks@, t) {
                        lemma_tok_at(toks@, t, p1 - 1);
                        lemma_tok_at(toks@, t, p1 as int);
                        lemma_sep_push(t, old_items, item, a, sep);
                    }
                }
                items.push(item);
                let p2 = p1 + 1;
                if is_at(toks, p2, &Token::CloseCurlyBracket) {
                    let ghost all = items@;
                    let node = Node::Fields(span(toks, pos, p2), items, FieldsOpts::default());
                    proof {
                        if tok_ok(toks@, t) {
                            lemma_sep_all(t, all, a, sep);
                            lemma_sep_nodes(all, 0, t);
                            lemma_tok_mono(toks@, t, pos as int, p2 - 1);
                            reveal(placed);
                        }
                    }
                    return Ok((node, p2));
                }
                p = p2;
                before = gap(toks, p);
            },
            None => {
                let ghost old_items = items@;
                let item = (before, f, at_end(toks, p1 - 1), text_of(""));
                proof {
                    if tok_ok(toks@, t) {
                        lemma_end_gap(toks@, t, p1 - 1);
                        lemma_tok_at(toks@, t, p1 - 1);
                        lemma_kw_empty(t, toks@[p1 - 1].2 as int);
                        lemma_sep_push(t, old_items, item, a, sep);
                        reveal_strlit("");
                    }
                }
                items.push(item);
                let ghost all = items@;
                let node = Node::Fields(span(toks, pos, p1), items, FieldsOpts::default());
                proof {
                    if tok_ok(toks@, t) {
                        lemma_sep_all(t, all, a, sep);
                        lemma_sep_nodes(all, 0, t);
                        lemma_tok_mono(toks@, t, pos as int, p1 - 1);
                        reveal(placed);
                    }
                }
                return Ok((node, p1));
            },
        }
    }
}

/// A table constructor, which starts at `{`.
#[verifier::rlimit(100)]
#[verifier::spinoff_prover]
fn parse_table(toks: &Vec<(usize, Token, usize)>, pos: usize, Ghost(t): Ghost<Seq<char>>) -> (res: Result<(Node, usize), PErr>)
    requires
        stream_ok(toks@),
        pos < toks@.len(),
    ensures
        res matches Ok((_, np)) ==> g_table(kinds(toks@), pos as int) == Some(np as int),
        res is Err ==> g_table(kinds(toks@), pos as int) is None,
        res matches Ok((n, np)) ==> (tok_ok(toks@, t) ==> node_at(n, toks@, pos as int, np as int, t)),
        res matches Err(e) ==> e is UnrecognizedToken && refused_in(toks@, e),
        res matches Ok((_, np)) ==> pos < np < toks@.len(),
    decreases toks@.len() - pos, 19nat,
{
    let p1 = expect(toks, pos, &Token::OpenCurlyBracket)?;
    if is_at(toks, p1, &Token::CloseCurlyBracket) {
        let p2 = p1 + 1;
        let node = Node::TableConstructorEmpty(span(toks, pos, p2), [gap(toks, p1)]);
        proof {
            if tok_ok(toks@, t) {
                lemma_tok_at(toks@, t, (pos) as int);
                lemma_tok_at(toks@, t, (p1) as int);
                lemma_tok_mono(toks@, t, (pos) as int, (p2) - 1);
                reveal(placed);
            }
        }
        return Ok((node, p2));
    }
    let (fields, p2) = parse_fields(toks, p1, Ghost(t))?;
    let p3 = expect(toks, p2, &Token::CloseCurlyBracket)?;
    let locs = [gap(toks, p1), gap(toks, p2)];
    let node = Node::TableConstructor(span(toks, pos, p3), locs, Box::new(fields), TableConstructorOpts::default());
    proof {
        if tok_ok(toks@, t) {
            lemma_tok_at(toks@, t, (pos) as int);
            lemma_tok_at(toks@, t, (p2) as int);
            lemma_tok_mono(toks@, t, (pos) as int, (p3) - 1);
            reveal(placed);
        }
    }
    Ok((node, p3))
}

/// The parameters and body of a function, which start at `(`.
#[verifier::rlimit(100)]
#[verifier::spinoff_prover]
fn parse_func_body(toks: &Vec<(usize, Token, usize)>, pos: usize, Ghost(t): Ghost<Seq<char>>) -> (res: Result<(Node, usize), PErr>)
    requires
        stream_ok(toks@),
        pos < toks@.len(),
    ensures
        res matches Ok((_, np)) ==> g_func_body(kinds(toks@), pos as int) == Some(np as int),
        res is Err ==> g_func_body(kinds(toks@), pos as int) is None,
        res matches Ok((n, np)) ==> (tok_ok(toks@, t) ==> node_at(n, toks@, pos as int, np as int, t)),
        res matches Err(e) ==> e is UnrecognizedToken && refused_in(toks@, e),
        res matches Ok((_, np)) ==> pos < np < toks@.len(),
    decreases toks@.len() - pos, 18nat,
{
    let p1 = expect(toks, pos, &Token::OpenRoundBracket)?;
    let (params, p2) = if is_at(toks, p1, &Token::CloseRoundBracket) {
        (None, p1)
    } else {
        let (pl, p2) = parse_par_list(toks, p1, Ghost(t))?;
        (Some(pl), p2)
    };
    let p3 = expect(toks, p2, &Token::CloseRoundBracket)?;
    let (body, p4) = parse_block(toks, p3, Ghost(t))?;
    let p5 = expect(toks, p4, &Token::End)?;
    let sp = span(toks, pos, p5);
    let node = match (params, body) {
        (None, None) => Node::FuncBody(sp, [gap(toks, p1), gap(toks, p4)]),
        (None, Some(b)) => Node::FuncBodyB(sp, [gap(toks, p1), gap(toks, p3), gap(toks, p4)], Box::new(b)),
        (Some(pl), None) => Node::FuncPBody(sp, [gap(toks, p1), gap(toks, p2), gap(toks, p4)], Box::new(pl)),
        (Some(pl), Some(b)) => Node::FuncPBodyB(sp, [gap(toks, p1), gap(toks, p2), gap(toks, p3), gap(toks, p4)], Box::new(pl), Box::new(b)),
    };
    proof {
        if tok_ok(toks@, t) {
            lemma_tok_at(toks@, t, (pos) as int);
            lemma_tok_at(toks@, t, (p2) as int);
            lemma_tok_at(toks@, t, (p4) as int);
            lemma_tok_mono(toks@, t, (pos) as int, (p5) - 1);
            reveal(placed);
        }
    }
    Ok((node, p5))
}

/// The arguments of a call.
#[verifier::rlimit(100)]
#[verifier::spinoff_prover]
fn parse_args(toks: &Vec<(usize, Token, usize)>, pos: usize, Ghost(t): Ghost<Seq<char>>) -> (res: Result<(Node, usize), PErr>)
    requires
        stream_ok(toks@),
        pos < toks@.len(),
    ensures
        res matches Ok((_, np)) ==> g_args(kinds(toks@), pos as int) == Some(np as int),
        res is Err ==> g_args(kinds(toks@), pos as int) is None,
        res matches Ok((n, np)) ==> (tok_ok(toks@, t) ==> node_at(n, toks@, pos as int, np as int, t)),
        res matches Err(e) ==> e is UnrecognizedToken && refused_in(toks@, e),
        res matches Ok((_, np)) ==> pos < np < toks@.len(),
    decreases toks@.len() - pos, 20nat,
{
    match &toks[pos].1 {
        Token::OpenRoundBracket => {
            let p1 = advance(toks, pos);
            if is_at(toks, p1, &Token::CloseRoundBracket) {
                let p2 = p1 + 1;
                let node = Node::ArgsRoundBracketsEmpty(span(toks, pos, p2), [gap(toks, p1)]);
                proof {
                    if tok_ok(toks@, t) {
                        lemma_tok_at(toks@, t, pos as int);
                        lemma_tok_at(toks@, t, p1 as int);
                        reveal(placed);
                    }
                }
                return Ok((node, p2));
            }
            let (el, p2) = parse_exp_list(toks, p1, Ghost(t))?;
            let p3 = expect(toks, p2, &Token::CloseRoundBracket)?;
            let node = Node::ArgsRoundBrackets(span(toks, pos, p3), [gap(toks, p1), gap(toks, p2)], Box::new(el));
            proof {
                if tok_ok(toks@, t) {
                    lemma_tok_at(toks@, t, pos as int);
                    lemma_tok_at(toks@, t, p2 as int);
                    lemma_tok_mono(toks@, t, pos as int, p3 - 1);
                    reveal(placed);
                }
            }
            Ok((node, p3))
        },
        Token::OpenCurlyBracket => parse_table(toks, pos, Ghost(t)),
        _ => match string_node(toks, pos, Ghost(t)) {
            Some(r) => Ok(r),
            None => Err(unexpected(toks, pos)),
        },
    }
}

/// What a suffixed expression is: whether it has suffixes, whether its last suffix is a
/// call, and whether it starts with a bracketed expression.
pub struct PrefixShape {
    pub has_suffix: bool,
    pub ends_in_call: bool,
    pub bracketed: bool,
}

/// Whether a suffix starts at the token: `.`, `[`, `:`, or call arguments.
pub open spec fn suffix_start(t: SpecToken) -> bool {
    ||| t is Period ||| t is OpenSquareBracket ||| t is Colon ||| t is OpenRoundBracket
    ||| t is OpenCurlyBracket ||| t is NormalStringLiteral ||| t is CharStringLiteral
    ||| t is MultiLineStringLiteral
}

/// A suffix: `.name`, `[exp]`, `:name args` or call arguments; `None` where none stands.
/// The flag says whether the suffix is a call.
#[verifier::rlimit(100)]
#[verifier::spinoff_prover]
fn parse_suffix(toks: &Vec<(usize, Token, usize)>, pos: usize, Ghost(t): Ghost<Seq<char>>) -> (res: Result<Option<(Node, usize, bool)>, PErr>)
    requires
        stream_ok(toks@),
        pos < toks@.len(),
    ensures
        res matches Ok(None) ==> g_suffix(kinds(toks@), pos as int) == Some(None::<(int, bool)>),
        res matches Ok(Some((_, np, c))) ==> g_suffix(kinds(toks@), pos as int) == Some(Some((np as int, c))),
        res is Err ==> g_suffix(kinds(toks@), pos as int) is None,
        !suffix_start(toks@[pos as int].1@) <==> res matches Ok(None),
        res matches Ok(Some((n, _, is_call))) ==> {
            &&& is_call == !(toks@[pos as int].1 is Period || toks@[pos as int].1 is OpenSquareBracket)
            &&& toks@[pos as int].1 is Period ==> n is TableMember
            &&& toks@[pos as int].1 is OpenSquareBracket ==> n is TableIndex
            &&& toks@[pos as int].1 is Colon ==> n is FnMethodCall
        },
        res matches Ok(Some((n, np, _))) ==> (tok_ok(toks@, t) ==> node_at(n, toks@, pos as int, np as int, t)),
        res matches Err(e) ==> e is UnrecognizedToken && refused_in(toks@, e),
        res matches Ok(Some((_, np, _))) ==> pos < np < toks@.len(),
    decreases toks@.len() - pos, 21nat,
{
    match &toks[pos].1 {
        Token::Period => {
            let p1 = advance(toks, pos);
            let (n, p2) = name_node(toks, p1, Ghost(t))?;
            let node = Node::TableMember(span(toks, pos, p2), [gap(toks, p1)], Box::new(n));
            proof {
                if tok_ok(toks@, t) {
                    lemma_tok_at(toks@, t, pos as int);
                    reveal(placed);
                }
            }
            Ok(Some((node, p2, false)))
        },
        Token::OpenSquareBracket => {
            let p1 = advance(toks, pos);
            let (e, p2) = parse_exp(toks, p1, Ghost(t))?;
            let p3 = expect(toks, p2, &Token::CloseSquareBracket)?;
            let node = Node::TableIndex(span(toks, pos, p3), [gap(toks, p1), gap(toks, p2)], Box::new(e));
            proof {
                if tok_ok(toks@, t) {
                    lemma_tok_at(toks@, t, pos as int);
                    lemma_tok_at(toks@, t, p2 as int);
                    lemma_tok_mono(toks@, t, pos as int, p3 - 1);
                    reveal(placed);
                }
            }
            Ok(Some((node, p3, false)))
        },
        Token::Colon => {
            let p1 = advance(toks, pos);
            let (n, p2) = name_node(toks, p1, Ghost(t))?;
            let (args, p3) = parse_args(toks, p2, Ghost(t))?;
            let node = Node::FnMethodCall(span(toks, pos, p3), [gap(toks, p1), gap(toks, p2)], Box::new(n), Box::new(args));
            proof {
                if tok_ok(toks@, t) {
                    lemma_tok_at(toks@, t, pos as int);
                    lemma_tok_at(toks@, t, p1 as int);
                    lemma_tok_mono(toks@, t, pos as int, p3 - 1);
                    reveal(placed);
                }
            }
            Ok(Some((node, p3, true)))
        },
        Token::OpenRoundBracket | Token::OpenCurlyBracket | Token::NormalStringLiteral(_)
        | Token::CharStringLiteral(_) | Token::MultiLineStringLiteral(_, _) => {
            let (args, p1) = parse_args(toks, pos, Ghost(t))?;
            Ok(Some((args, p1, true)))
        },
        _ => Ok(None),
    }
}

/// A name or a bracketed expression, followed by suffixes.
#[verifier::rlimit(100)]
#[verifier::spinoff_prover]
fn parse_suffixed(toks: &Vec<(usize, Token, usize)>, pos: usize, Ghost(t): Ghost<Seq<char>>) -> (res: Result<(Node, usize, PrefixShape), PErr>)
    requires
        stream_ok(toks@),
        pos < toks@.len(),
    ensures
        res matches Ok((n, np, sh)) ==> g_suffixed(kinds(toks@), pos as int) == Some((np as int, sh.has_suffix, sh.ends_in_call, sh.bracketed))
            && (n is Name <==> !sh.bracketed && !sh.has_suffix),
        res is Err ==> g_suffixed(kinds(toks@), pos as int) is None,
        res matches Ok((n, np, _)) ==> (tok_ok(toks@, t) ==> node_at(n, toks@, pos as int, np as int, t)),
        res matches Err(e) ==> e is UnrecognizedToken && refused_in(toks@, e),
        res matches Ok((_, np, _)) ==> pos < np < toks@.len(),
    decreases toks@.len() - pos, 21nat,
{
    let (primary, p1, bracketed, inner) = match &toks[pos].1 {
        Token::OpenRoundBracket => {
            let p1 = advance(toks, pos);
            let (e, p2) = parse_exp(toks, p1, Ghost(t))?;
            let p3 = expect(toks, p2, &Token::CloseRoundBracket)?;
            proof {
                if tok_ok(toks@, t) {
                    lemma_tok_at(toks@, t, pos as int);
                    lemma_tok_at(toks@, t, p2 as int);
                }
            }
            (e, p3, true, [gap(toks, p1), gap(toks, p2)])
        },
        _ => {
            let (n, p1) = name_node(toks, pos, Ghost(t))?;
            (n, p1, false, [at_start(toks, pos), at_start(toks, pos)])
        },
    };
    let ghost a = toks@[p1 as int].0 as int;
    let mut items: Vec<(Loc, Node)> = Vec::new();
    let mut p = p1;
    let mut ends_in_call = false;
    loop
        invariant
            g_suffixed(kinds(toks@), pos as int) == (match g_suffixes(kinds(toks@), p as int, items@.len() > 0, ends_in_call) {
                Some((q, a, c)) => Some((q, a, c, bracketed)),
                None => None,
            }),
            items@.len() == 0 ==> !ends_in_call,
            stream_ok(toks@),
            pos < p1 <= p < toks@.len(),
            items@.len() == 0 ==> p == p1,
            items@.len() > 0 ==> p1 < p,
            a == toks@[p1 as int].0,
            tok_ok(toks@, t) ==> {
                &&& forall|i: int| 0 <= i < items@.len() ==> #[trigger] item_laid(t, items@, i, a)
                &&& forall|i: int| 0 <= i < items@.len() ==> placed(#[trigger] items@[i].1, t)
                &&& items@.len() > 0 ==> text_span(items@.last().1).1 == toks@[p - 1].2
            },
        ensures
            g_suffix(kinds(toks@), p as int) == Some(None::<(int, bool)>),
        decreases toks@.len() - p,
    {
        match parse_suffix(toks, p, Ghost(t))? {
            Some((s, p2, is_call)) => {
                let before = if items.len() == 0 { at_start(toks, p) } else { gap(toks, p) };
                let ghost old_items = items@;
                let item = (before, s);
                proof {
                    if tok_ok(toks@, t) {
                        if old_items.len() == 0 {
                            lemma_start_gap(toks@, t, p as int);
                        } else {
                            lemma_tok_at(toks@, t, p - 1);
                        }
                        lemma_item_push(t, old_items, item, a);
                        assert(old_items.push(item).last() == item);
                        assert forall|i: int| 0 <= i < old_items.push(item).len() implies placed(#[trigger] old_items.push(item)[i].1, t) by {
                            if i < old_items.len() {
                                assert(old_items.push(item)[i] == old_items[i]);
                            }
                        }
                    }
                }
                items.push(item);
                ends_in_call = is_call;
                p = p2;
            },
            None => break,
        }
    }
    let has_suffix = items.len() > 0;
    let shape = PrefixShape { has_suffix, ends_in_call, bracketed };
    if !has_suffix {
        if bracketed {
            let node = Node::RoundBrackets(span(toks, pos, p1), inner, Box::new(primary));
            proof {
                if tok_ok(toks@, t) {
                    lemma_tok_mono(toks@, t, pos as int, p1 - 1);
                    reveal(placed);
                }
            }
            return Ok((node, p1, shape));
        }
        return Ok((primary, p1, shape));
    }
    let ghost all = items@;
    let suffixes = Node::VarSuffixList(span(toks, p1, p), items);
    proof {
        if tok_ok(toks@, t) {
            lemma_nodes(all, 0, t);
            lemma_tok_mono(toks@, t, p1 as int, p - 1);
            lemma_tok_at(toks@, t, p1 - 1);
            reveal(placed);
            assert(placed(suffixes, t));
        }
    }
    if bracketed {
        let locs = [inner[0], inner[1], gap(toks, p1)];
        let node = Node::VarRoundSuffix(span(toks, pos, p), locs, Box::new(primary), Box::new(suffixes));
        proof {
            if tok_ok(toks@, t) {
                lemma_tok_mono(toks@, t, pos as int, p - 1);
                reveal(placed);
            }
        }
        Ok((node, p, shape))
    } else {
        let node = Node::Var(span(toks, pos, p), [gap(toks, p1)], Box::new(primary), Box::new(suffixes));
        proof {
            if tok_ok(toks@, t) {
                lemma_tok_mono(toks@, t, pos as int, p - 1);
                reveal(placed);
            }
        }
        Ok((node, p, shape))
    }
}

/// An expression without a binary or unary operator at its top.
#[verifier::rlimit(100)]
#[verifier::spinoff_prover]
fn parse_simpleexp(toks: &Vec<(usize, Token, usize)>, pos: usize, Ghost(t): Ghost<Seq<char>>) -> (res: Result<(Node, usize), PErr>)
    requires
        stream_ok(toks@),
        pos < toks@.len(),
    ensures
        res matches Ok((_, np)) ==> g_simpleexp(kinds(toks@), pos as int) == Some(np as int),
        res is Err ==> g_simpleexp(kinds(toks@), pos as int) is None,
        res matches Ok((n, np)) ==> (tok_ok(toks@, t) ==> node_at(n, toks@, pos as int, np as int, t)),
        res matches Err(e) ==> e is UnrecognizedToken && refused_in(toks@, e),
        res matches Ok((_, np)) ==> pos < np < toks@.len(),
    decreases toks@.len() - pos, 22nat,
{
    if let Some(r) = atom_node(toks, pos, Ghost(t)) {
        return Ok(r);
    }
    match &toks[pos].1 {
        Token::OpenCurlyBracket => parse_table(toks, pos, Ghost(t)),
        Token::Function => {
            let p1 = advance(toks, pos);
            let (body, p2) = parse_func_body(toks, p1, Ghost(t))?;
            let node = Node::FunctionDef(span(toks, pos, p2), [gap(toks, p1)], Box::new(body));
            proof {
                if tok_ok(toks@, t) {
                    lemma_tok_at(toks@, t, pos as int);
                    lemma_tok_mono(toks@, t, pos as int, p2 - 1);
                    reveal(placed);
                }
            }
            Ok((node, p2))
        },
        _ => {
            let (e, p1, _) = parse_suffixed(toks, pos, Ghost(t))?;
            Ok((e, p1))
        },
    }
}

/// The statements of a block, then its `return` statement if it has one; `None` for an
/// empty block.
#[verifier::rlimit(100)]
#[verifier::spinoff_prover]
fn parse_block(toks: &Vec<(usize, Token, usize)>, pos: usize, Ghost(t): Ghost<Seq<char>>) -> (res: Result<(Option<Node>, usize), PErr>)
    requires
        stream_ok(toks@),
        pos < toks@.len(),
    ensures
        res matches Ok((_, np)) ==> g_block(kinds(toks@), pos as int) == Some(np as int),
        res is Err ==> g_block(kinds(toks@), pos as int) is None,
        res matches Ok((Some(n), np)) ==> (tok_ok(toks@, t) ==> node_at(n, toks@, pos as int, np as int, t)),
        res matches Err(e) ==> e is UnrecognizedToken && refused_in(toks@, e),
        res matches Ok((n, np)) ==> pos <= np < toks@.len() && (n is Some ==> pos < np) && (n is None ==> np == pos),
    decreases toks@.len() - pos, 31nat,
{
    let ghost a = toks@[pos as int].0 as int;
    let mut items: Vec<(Loc, Node)> = Vec::new();
    let mut p = pos;
    loop
        invariant
            g_block(kinds(toks@), pos as int) == g_block(kinds(toks@), p as int),
            stream_ok(toks@),
            pos <= p < toks@.len(),
            items@.len() == 0 ==> p == pos,
            items@.len() > 0 ==> pos < p,
            a == toks@[pos as int].0,
            tok_ok(toks@, t) ==> {
                &&& forall|i: int| 0 <= i < items@.len() ==> #[trigger] item_laid(t, items@, i, a)
                &&& forall|i: int| 0 <= i < items@.len() ==> placed(#[trigger] items@[i].1, t)
                &&& items@.len() > 0 ==> text_span(items@.last().1).1 == toks@[p - 1].2
            },
        ensures
            ends_block_kind(tok(kinds(toks@), p as int)) || tok(kinds(toks@), p as int) is Return,
        decreases toks@.len() - p,
    {
        if ends_block(&toks[p].1) || is_at(toks, p, &Token::Return) {
            break;
        }
        let (stat, p1) = parse_statement(toks, p, Ghost(t))?;
        let before = if items.len() == 0 { at_start(toks, p) } else { gap(toks, p) };
        let ghost old_items = items@;
        let item = (before, stat);
        proof {
            if tok_ok(toks@, t) {
                if old_items.len() == 0 {
                    lemma_start_gap(toks@, t, p as int);
                } else {
                    lemma_tok_at(toks@, t, p - 1);
                }
                lemma_item_push(t, old_items, item, a);
                assert(old_items.push(item).last() == item);
                assert forall|i: int| 0 <= i < old_items.push(item).len() implies placed(#[trigger] old_items.push(item)[i].1, t) by {
                    if i < old_items.len() {
                        assert(old_items.push(item)[i] == old_items[i]);
                    }
                }
            }
        }
        items.push(item);
        p = p1;
    }
    let ghost all = items@;
    let stats = if items.len() > 0 { Some(Node::StatementList(span(toks, pos, p), items)) } else { None };
    proof {
        if tok_ok(toks@, t) && all.len() > 0 {
            lemma_nodes(all, 0, t);
            lemma_tok_mono(toks@, t, pos as int, p - 1);
            reveal(placed);
            assert(placed(stats.unwrap(), t));
        }
    }
    if is_at(toks, p, &Token::Return) {
        let ret_pos = p;
        let (ret, p1) = parse_retstat(toks, p, Ghost(t))?;
        match stats {
            Some(st) => {
                let node = Node::StatsRetStat(span(toks, pos, p1), [gap(toks, ret_pos)], Box::new(st), Box::new(ret));
                proof {
                    if tok_ok(toks@, t) {
                        lemma_tok_at(toks@, t, ret_pos - 1);
                        lemma_tok_mono(toks@, t, pos as int, p1 - 1);
                        reveal(placed);
                    }
                }
                return Ok((Some(node), p1));
            },
            None => return Ok((Some(ret), p1)),
        }
    }
    Ok((stats, p))
}

/// A `return` statement, which starts at `return`.
#[verifier::rlimit(100)]
#[verifier::spinoff_prover]
fn parse_retstat(toks: &Vec<(usize, Token, usize)>, pos: usize, Ghost(t): Ghost<Seq<char>>) -> (res: Result<(Node, usize), PErr>)
    requires
        stream_ok(toks@),
        pos < toks@.len(),
    ensures
        res matches Ok((_, np)) ==> g_retstat(kinds(toks@), pos as int) == Some(np as int),
        res is Err ==> g_retstat(kinds(toks@), pos as int) is None,
        res matches Ok((n, np)) ==> (tok_ok(toks@, t) ==> node_at(n, toks@, pos as int, np as int, t)),
        res matches Err(e) ==> e is UnrecognizedToken && refused_in(toks@, e),
        res matches Ok((_, np)) ==> pos < np < toks@.len(),
    decreases toks@.len() - pos, 29nat,
{
    let p1 = expect(toks, pos, &Token::Return)?;
    if is_at(toks, p1, &Token::Semicolon) {
        let p2 = p1 + 1;
        let node = Node::RetStatNoneComma(span(toks, pos, p2), [gap(toks, p1)]);
        proof {
            if tok_ok(toks@, t) {
                lemma_tok_at(toks@, t, pos as int);
                lemma_tok_at(toks@, t, p1 as int);
                reveal(placed);
            }
        }
        return Ok((node, p2));
    }
    if ends_block(&toks[p1].1) {
        let node = Node::RetStatNone(span(toks, pos, p1));
        proof {
            if tok_ok(toks@, t) {
                lemma_tok_at(toks@, t, pos as int);
                reveal(placed);
            }
        }
        return Ok((node, p1));
    }
    let (el, p2) = parse_exp_list(toks, p1, Ghost(t))?;
    if is_at(toks, p2, &Token::Semicolon) {
        let p3 = p2 + 1;
        let node = Node::RetStatExprComma(span(toks, pos, p3), [gap(toks, p1), gap(toks, p2)], Box::new(el));
        proof {
            if tok_ok(toks@, t) {
                lemma_tok_at(toks@, t, pos as int);
                lemma_tok_at(toks@, t, p2 - 1);
                lemma_tok_at(toks@, t, p2 as int);
                lemma_tok_mono(toks@, t, pos as int, p3 - 1);
                reveal(placed);
            }
        }
        return Ok((node, p3));
    }
    let node = Node::RetStatExpr(span(toks, pos, p2), [gap(toks, p1)], Box::new(el));
    proof {
        if tok_ok(toks@, t) {
            lemma_tok_at(toks@, t, pos as int);
            lemma_tok_mono(toks@, t, pos as int, p2 - 1);
            reveal(placed);
        }
    }
    Ok((node, p2))
}

/// The name of a declared function: names joined by `.`, and a method name after `:`.
#[verifier::rlimit(100)]
#[verifier::spinoff_prover]
fn parse_func_name(toks: &Vec<(usize, Token, usize)>, pos: usize, Ghost(t): Ghost<Seq<char>>) -> (res: Result<(Node, usize), PErr>)
    requires
        stream_ok(toks@),
        pos < toks@.len(),
    ensures
        res matches Ok((_, np)) ==> g_func_name(kinds(toks@), pos as int) == Some(np as int),
        res is Err ==> g_func_name(kinds(toks@), pos as int) is None,
        res matches Ok((n, np)) ==> (tok_ok(toks@, t) ==> node_at(n, toks@, pos as int, np as int, t)),
        res matches Err(e) ==> e is UnrecognizedToken && refused_in(toks@, e),
        res matches Ok((_, np)) ==> pos < np < toks@.len(),
{
    let ghost a = toks@[pos as int].0 as int;
    let ghost sep = Some("."@);
    let mut items: Vec<(Loc, Node, Loc, String)> = Vec::new();
    let mut p = pos;
    let mut before = at_start(toks, pos);
    proof {
        if tok_ok(toks@, t) {
            lemma_start_gap(toks@, t, pos as int);
        }
    }
    loop
        invariant
            g_func_name(kinds(toks@), pos as int) == g_func_name(kinds(toks@), p as int),
            stream_ok(toks@),
            pos <= p < toks@.len(),
            a == toks@[pos as int].0,
            sep == Some("."@),
            tok_ok(toks@, t) ==> {
                &&& forall|i: int| 0 <= i < items@.len() ==> #[trigger] sep_item_laid(t, items@, i, a, sep, true)
                &&& forall|i: int| 0 <= i < items@.len() ==> placed(#[trigger] items@[i].1, t)
                &&& gap_at(t, before, sep_item_start(items@, items@.len() as int, a, sep))
                &&& before.1 == toks@[p as int].0
            },
        decreases toks@.len() - p,
    {
        let (n, p1) = name_node(toks, p, Ghost(t))?;
        if is_at(toks, p1, &Token::Period) {
            let ghost old_items = items@;
            let item = (before, n, gap(toks, p1), text_of("."));
            proof {
                if tok_ok(toks@, t) {
                    lemma_tok_at(toks@, t, p1 - 1);
                    lemma_tok_at(toks@, t, p1 as int);
                    lemma_sep_push(t, old_items, item, a, sep);
                }
            }
            items.push(item);
            p = p1 + 1;
            before = gap(toks, p);
        } else {
            let ghost old_items = items@;
            let item = (before, n, at_end(toks, p1 - 1), text_of(""));
            proof {
                if tok_ok(toks@, t) {
                    lemma_end_gap(toks@, t, p1 - 1);
                    lemma_sep_last(t, old_items, item, a, sep);
                    lemma_sep_nodes(old_items.push(item), 0, t);
                }
            }
            items.push(item);
            if is_at(toks, p1, &Token::Colon) {
                let p2 = p1 + 1;
                let (m, p3) = name_node(toks, p2, Ghost(t))?;
                let locs = [gap(toks, p1), gap(toks, p2)];
                let node = Node::FuncNameSelf(span(toks, pos, p3), locs, items, Box::new(m));
                proof {
                    if tok_ok(toks@, t) {
                        lemma_tok_at(toks@, t, p1 - 1);
                        lemma_tok_at(toks@, t, p1 as int);
                        lemma_tok_mono(toks@, t, pos as int, p3 - 1);
                        reveal(placed);
                    }
                }
                return Ok((node, p3));
            }
            let node = Node::FuncName(span(toks, pos, p1), items);
            proof {
                if tok_ok(toks@, t) {
                    lemma_tok_mono(toks@, t, pos as int, p1 - 1);
                    reveal(placed);
                }
            }
            return Ok((node, p1));
        }
    }
}

/// Whether a suffixed expression can be assigned to.
fn assignable(n: &Node, shape: &PrefixShape) -> (res: bool)
    ensures
        res == (n is Name || (shape.has_suffix && !shape.ends_in_call)),
{
    match n {
        Node::Name(..) => true,
        _ => shape.has_suffix && !shape.ends_in_call,
    }
}

/// An `if` statement, which starts at `if`.
#[verifier::rlimit(100)]
#[verifier::spinoff_prover]
fn parse_if(toks: &Vec<(usize, Token, usize)>, pos: usize, Ghost(t): Ghost<Seq<char>>) -> (res: Result<(Node, usize), PErr>)
    requires
        stream_ok(toks@),
        pos < toks@.len(),
    ensures
        res matches Ok((_, np)) ==> g_if(kinds(toks@), pos as int) == Some(np as int),
        res is Err ==> g_if(kinds(toks@), pos as int) is None,
        res matches Ok((n, np)) ==> (tok_ok(toks@, t) ==> node_at(n, toks@, pos as int, np as int, t)),
        res matches Err(e) ==> e is UnrecognizedToken && refused_in(toks@, e),
        res matches Ok((_, np)) ==> pos < np < toks@.len(),
    decreases toks@.len() - pos, 28nat,
{
    let p1 = expect(toks, pos, &Token::If)?;
    let (e, p2) = parse_exp(toks, p1, Ghost(t))?;
    let p3 = expect(toks, p2, &Token::Then)?;
    let (b1, p4) = parse_block(toks, p3, Ghost(t))?;
    // elseif parts
    let ghost a4 = toks@[p4 as int].0 as int;
    let mut elseifs: Vec<(Loc, Node)> = Vec::new();
    let mut p = p4;
    loop
        invariant
            g_elseifs(kinds(toks@), p4 as int) == g_elseifs(kinds(toks@), p as int),
            g_if(kinds(toks@), pos as int) == g_if_tail(kinds(toks@), p4 as int),
            p4 <= p,
            stream_ok(toks@),
            pos < p3 <= p4 <= p < toks@.len(),
            elseifs@.len() == 0 ==> p == p4,
            elseifs@.len() > 0 ==> p4 < p,
            a4 == toks@[p4 as int].0,
            tok_ok(toks@, t) ==> {
                &&& forall|i: int| 0 <= i < elseifs@.len() ==> #[trigger] item_laid(t, elseifs@, i, a4)
                &&& forall|i: int| 0 <= i < elseifs@.len() ==> placed(#[trigger] elseifs@[i].1, t)
                &&& elseifs@.len() > 0 ==> text_span(elseifs@.last().1).1 == toks@[p - 1].2
            },
        ensures
            !(tok(kinds(toks@), p as int) is ElseIf),
        decreases toks@.len() - p,
    {
        if !is_at(toks, p, &Token::ElseIf) {
            break;
        }
        let q0 = p;
        let q1 = p + 1;
        let (ce, q2) = parse_exp(toks, q1, Ghost(t))?;
        let q3 = expect(toks, q2, &Token::Then)?;
        let (cb, q4) = parse_block(toks, q3, Ghost(t))?;
        let node = match cb {
            Some(b) => Node::ElseIfThenB(span(toks, q0, q4), [gap(toks, q1), gap(toks, q2), gap(toks, q3)], Box::new(ce), Box::new(b)),
            None => Node::ElseIfThen(span(toks, q0, q3), [gap(toks, q1), gap(toks, q2)], Box::new(ce)),
        };
        let before = if elseifs.len() == 0 { at_start(toks, q0) } else { gap(toks, q0) };
        let ghost old_items = elseifs@;
        let item = (before, node);
        proof {
            if tok_ok(toks@, t) {
                lemma_tok_at(toks@, t, q0 as int);
                lemma_tok_at(toks@, t, q2 - 1);
                lemma_tok_at(toks@, t, q2 as int);
                lemma_tok_mono(toks@, t, q0 as int, q4 - 1);
                reveal(placed);
                assert(placed(node, t));
                if old_items.len() == 0 {
                    lemma_start_gap(toks@, t, q0 as int);
                } else {
                    lemma_tok_at(toks@, t, q0 - 1);
                }
                lemma_item_push(t, old_items, item, a4);
                assert(old_items.push(item).last() == item);
                assert forall|i: int| 0 <= i < old_items.push(item).len() implies placed(#[trigger] old_items.push(item)[i].1, t) by {
                    if i < old_items.len() {
                        assert(old_items.push(item)[i] == old_items[i]);
                    }
                }
            }
        }
        elseifs.push(item);
        p = q4;
    }
    let elseif_end = p;
    let has_elseifs = elseifs.len() > 0;
    let ghost all = elseifs@;
    let elseif_node = if has_elseifs { Some(Node::ElseIfThenVec(span(toks, p4, elseif_end), elseifs)) } else { None };
    proof {
        if tok_ok(toks@, t) && has_elseifs {
            lemma_nodes(all, 0, t);
            lemma_tok_mono(toks@, t, p4 as int, elseif_end - 1);
            reveal(placed);
            assert(placed(elseif_node.unwrap(), t));
        }
    }
    // else part
    let (else_part, p5) = if is_at(toks, p, &Token::Else) {
        let e0 = p;
        let e1 = p + 1;
        let (b2, e2) = parse_block(toks, e1, Ghost(t))?;
        proof {
            if tok_ok(toks@, t) {
                lemma_tok_at(toks@, t, e0 - 1);
                lemma_tok_at(toks@, t, e0 as int);
            }
        }
        (Some((e0, e1, b2)), e2)
    } else {
        (None, p)
    };
    let p6 = expect(toks, p5, &Token::End)?;
    let sp = span(toks, pos, p6);
    let l0 = gap(toks, p1);
    let l1 = gap(toks, p2);
    let l2 = gap(toks, p3);
    let eb = Box::new(e);
    proof {
        if tok_ok(toks@, t) {
            lemma_tok_at(toks@, t, pos as int);
            lemma_tok_at(toks@, t, p2 - 1);
            lemma_tok_at(toks@, t, p2 as int);
            lemma_tok_at(toks@, t, p4 - 1);
            lemma_tok_at(toks@, t, p5 - 1);
            lemma_tok_at(toks@, t, p5 as int);
            lemma_tok_mono(toks@, t, pos as int, p6 - 1);
        }
    }
    let node = match (b1, elseif_node, else_part) {
        (None, None, None) => Node::IfThen(sp, [l0, l1, l2], eb),
        (Some(b), None, None) => Node::IfThenB(sp, [l0, l1, l2, gap(toks, p4)], eb, Box::new(b)),
        (None, None, Some((e0, e1, None))) => Node::IfThenElse(sp, [l0, l1, l2, gap(toks, e1)], eb),
        (Some(b), None, Some((e0, e1, None))) => Node::IfThenBElse(sp, [l0, l1, l2, gap(toks, e0), gap(toks, e1)], eb, Box::new(b)),
        (None, None, Some((e0, e1, Some(c)))) => Node::IfThenElseB(sp, [l0, l1, l2, gap(toks, e1), gap(toks, p5)], eb, Box::new(c)),
        (Some(b), None, Some((e0, e1, Some(c)))) => Node::IfThenBElseB(sp, [l0, l1, l2, gap(toks, e0), gap(toks, e1), gap(toks, p5)], eb, Box::new(b), Box::new(c)),
        (None, Some(v), None) => Node::IfThenElseIf(sp, [l0, l1, l2, gap(toks, p5)], eb, Box::new(v)),
        (Some(b), Some(v), None) => Node::IfThenBElseIf(sp, [l0, l1, l2, gap(toks, p4), gap(toks, p5)], eb, Box::new(b), Box::new(v)),
        (None, Some(v), Some((e0, e1, None))) => Node::IfThenElseIfElse(sp, [l0, l1, l2, gap(toks, e0), gap(toks, e1)], eb, Box::new(v)),
        (Some(b), Some(v), Some((e0, e1, None))) => Node::IfThenBElseIfElse(sp, [l0, l1, l2, gap(toks, p4), gap(toks, e0), gap(toks, e1)], eb, Box::new(b), Box::new(v)),
        (None, Some(v), Some((e0, e1, Some(c)))) => Node::IfThenElseIfElseB(sp, [l0, l1, l2, gap(toks, e0), gap(toks, e1), gap(toks, p5)], eb, Box::new(v), Box::new(c)),
        (Some(b), Some(v), Some((e0, e1, Some(c)))) => Node::IfThenBElseIfElseB(sp, [l0, l1, l2, gap(toks, p4), gap(toks, e0), gap(toks, e1), gap(toks, p5)], eb, Box::new(b), Box::new(v), Box::new(c)),
    };
    proof {
        if tok_ok(toks@, t) {
            reveal(placed);
        }
    }
    Ok((node, p6))
}

/// A `for` statement, which starts at `for`.
#[verifier::rlimit(100)]
#[verifier::spinoff_prover]
fn parse_for(toks: &Vec<(usize, Token, usize)>, pos: usize, Ghost(t): Ghost<Seq<char>>) -> (res: Result<(Node, usize), PErr>)
    requires
        stream_ok(toks@),
        pos < toks@.len(),
    ensures
        res matches Ok((_, np)) ==> g_for(kinds(toks@), pos as int) == Some(np as int),
        res is Err ==> g_for(kinds(toks@), pos as int) is None,
        res matches Ok((n, np)) ==> (tok_ok(toks@, t) ==> node_at(n, toks@, pos as int, np as int, t)),
        res matches Err(e) ==> e is UnrecognizedToken && refused_in(toks@, e),
        res matches Ok((_, np)) ==> pos < np < toks@.len(),
    decreases toks@.len() - pos, 28nat,
{
    let p1 = expect(toks, pos, &Token::For)?;
    if p1 + 1 < toks.len() && is_at(toks, p1 + 1, &Token::EqualsSign) {
        let (n, p2) = name_node(toks, p1, Ghost(t))?;
        let p3 = p2 + 1;
        let (e1, p4) = parse_exp(toks, p3, Ghost(t))?;
        let p5 = expect(toks, p4, &Token::Comma)?;
        let (e2, p6) = parse_exp(toks, p5, Ghost(t))?;
        let (step, p7) = if is_at(toks, p6, &Token::Comma) {
            let (e3, q) = parse_exp(toks, p6 + 1, Ghost(t))?;
            (Some(e3), q)
        } else {
            (None, p6)
        };
        let p8 = expect(toks, p7, &Token::Do)?;
        let (b, p9) = parse_block(toks, p8, Ghost(t))?;
        let p10 = expect(toks, p9, &Token::End)?;
        let sp = span(toks, pos, p10);
        let node = match (step, b) {
            (None, None) => Node::ForInt(sp, [gap(toks, p1), gap(toks, p2), gap(toks, p3), gap(toks, p4), gap(toks, p5),
                gap(toks, p6), gap(toks, p8)], Box::new(n), Box::new(e1), Box::new(e2)),
            (None, Some(blk)) => Node::ForIntB(sp, [gap(toks, p1), gap(toks, p2), gap(toks, p3), gap(toks, p4), gap(toks, p5),
                gap(toks, p6), gap(toks, p8), gap(toks, p9)], Box::new(n), Box::new(e1), Box::new(e2), Box::new(blk)),
            (Some(e3), None) => Node::ForIntStep(sp, [gap(toks, p1), gap(toks, p2), gap(toks, p3), gap(toks, p4), gap(toks, p5),
                gap(toks, p6), gap(toks, p6 + 1), gap(toks, p7), gap(toks, p8)], Box::new(n), Box::new(e1), Box::new(e2), Box::new(e3)),
            (Some(e3), Some(blk)) => Node::ForIntStepB(sp, [gap(toks, p1), gap(toks, p2), gap(toks, p3), gap(toks, p4), gap(toks, p5),
                gap(toks, p6), gap(toks, p6 + 1), gap(toks, p7), gap(toks, p8), gap(toks, p9)], Box::new(n), Box::new(e1), Box::new(e2),
                Box::new(e3), Box::new(blk)),
        };
        proof {
            if tok_ok(toks@, t) {
                lemma_tok_at(toks@, t, pos as int);
                lemma_tok_at(toks@, t, p2 - 1);
                lemma_tok_at(toks@, t, p2 as int);
                lemma_tok_at(toks@, t, p4 - 1);
                lemma_tok_at(toks@, t, p4 as int);
                lemma_tok_at(toks@, t, p6 - 1);
                lemma_tok_at(toks@, t, p6 as int);
                lemma_tok_at(toks@, t, p7 - 1);
                lemma_tok_at(toks@, t, p7 as int);
                lemma_tok_at(toks@, t, p9 - 1);
                lemma_tok_at(toks@, t, p9 as int);
                lemma_tok_mono(toks@, t, pos as int, p10 - 1);
                reveal(placed);
            }
        }
        return Ok((node, p10));
    }
    let (nl, p2) = parse_name_list(toks, p1, Ghost(t))?;
    let p3 = expect(toks, p2, &Token::In)?;
    let (el, p4) = parse_exp_list(toks, p3, Ghost(t))?;
    let p5 = expect(toks, p4, &Token::Do)?;
    let (b, p6) = parse_block(toks, p5, Ghost(t))?;
    let p7 = expect(toks, p6, &Token::End)?;
    let sp = span(toks, pos, p7);
    let node = match b {
        None => Node::ForRange(sp, [gap(toks, p1), gap(toks, p2), gap(toks, p3), gap(toks, p4), gap(toks, p5)], Box::new(nl), Box::new(el)),
        Some(blk) => Node::ForRangeB(sp, [gap(toks, p1), gap(toks, p2), gap(toks, p3), gap(toks, p4), gap(toks, p5), gap(toks, p6)],
            Box::new(nl), Box::new(el), Box::new(blk)),
    };
    proof {
        if tok_ok(toks@, t) {
            lemma_tok_at(toks@, t, pos as int);
            lemma_tok_at(toks@, t, p2 - 1);
            lemma_tok_at(toks@, t, p2 as int);
            lemma_tok_at(toks@, t, p4 - 1);
            lemma_tok_at(toks@, t, p4 as int);
            lemma_tok_at(toks@, t, p6 - 1);
            lemma_tok_at(toks@, t, p6 as int);
            lemma_tok_mono(toks@, t, pos as int, p7 - 1);
            reveal(placed);
        }
    }
    Ok((node, p7))
}

/// An assignment whose first target, from `pos` to `p1`, has been read.
#[verifier::rlimit(100)]
#[verifier::spinoff_prover]
fn parse_assignment(toks: &Vec<(usize, Token, usize)>, pos: usize, first: Node, p1: usize, Ghost(t): Ghost<Seq<char>>) -> (res: Result<(Node, usize), PErr>)
    requires
        stream_ok(toks@),
        pos < p1 < toks@.len(),
        tok_ok(toks@, t) ==> node_at(first, toks@, pos as int, p1 as int, t),
    ensures
        res matches Ok((_, np)) ==> g_assignment_tail(kinds(toks@), p1 as int) == Some(np as int),
        res is Err ==> g_assignment_tail(kinds(toks@), p1 as int) is None,
        res matches Ok((n, np)) ==> (tok_ok(toks@, t) ==> node_at(n, toks@, pos as int, np as int, t)),
        res matches Err(e) ==> e is UnrecognizedToken && refused_in(toks@, e),
        res matches Ok((_, np)) ==> pos < np < toks@.len(),
    decreases toks@.len() - pos, 27nat,
{
    let ghost a = toks@[pos as int].0 as int;
    let ghost sep = Some(","@);
    let mut items: Vec<(Loc, Node, Loc, String)> = Vec::new();
    let mut before = at_start(toks, pos);
    let mut cur = first;
    let mut cs = pos;
    let mut p = p1;
    proof {
        if tok_ok(toks@, t) {
            lemma_start_gap(toks@, t, pos as int);
        }
    }
    loop
        invariant
            g_var_rest(kinds(toks@), p1 as int) == g_var_rest(kinds(toks@), p as int),
            p1 <= p,
            stream_ok(toks@),
            pos <= cs < p < toks@.len(),
            a == toks@[pos as int].0,
            sep == Some(","@),
            tok_ok(toks@, t) ==> {
                &&& forall|i: int| 0 <= i < items@.len() ==> #[trigger] sep_item_laid(t, items@, i, a, sep, true)
                &&& forall|i: int| 0 <= i < items@.len() ==> placed(#[trigger] items@[i].1, t)
                &&& gap_at(t, before, sep_item_start(items@, items@.len() as int, a, sep))
                &&& before.1 == toks@[cs as int].0
                &&& node_at(cur, toks@, cs as int, p as int, t)
            },
        ensures
            !(tok(kinds(toks@), p as int) is Comma),
        decreases toks@.len() - p,
    {
        if !is_at(toks, p, &Token::Comma) {
            break;
        }
        let ghost old_items = items@;
        let item = (before, cur, gap(toks, p), text_of(","));
        proof {
            if tok_ok(toks@, t) {
                lemma_tok_at(toks@, t, p - 1);
                lemma_tok_at(toks@, t, p as int);
                lemma_sep_push(t, old_items, item, a, sep);
            }
        }
        items.push(item);
        let q = p + 1;
        before = gap(toks, q);
        let (next, q1, next_shape) = parse_suffixed(toks, q, Ghost(t))?;
        if !assignable(&next, &next_shape) {
            return Err(unexpected(toks, q1));
        }
        cur = next;
        cs = q;
        p = q1;
    }
    let ghost old_items = items@;
    let item = (before, cur, at_end(toks, p - 1), text_of(""));
    proof {
        if tok_ok(toks@, t) {
            lemma_end_gap(toks@, t, p - 1);
            lemma_sep_last(t, old_items, item, a, sep);
            lemma_sep_nodes(old_items.push(item), 0, t);
        }
    }
    items.push(item);
    let vars = Node::VarList(span(toks, pos, p), items);
    proof {
        if tok_ok(toks@, t) {
            lemma_tok_mono(toks@, t, pos as int, p - 1);
            reveal(placed);
            assert(placed(vars, t));
        }
    }
    proof {
        lemma_assignment_tail(kinds(toks@), p1 as int, p as int);
        if tok_ok(toks@, t) {
            lemma_tok_mono(toks@, t, pos as int, p - 1);
            assert(node_at(vars, toks@, pos as int, p as int, t));
        }
    }
    parse_assignment_values(toks, pos, vars, p, Ghost(t))
}

/// The rest of an assignment whose targets, from `pos` to `p`, have been read: `=` and the
/// values.
#[verifier::rlimit(100)]
#[verifier::spinoff_prover]
fn parse_assignment_values(toks: &Vec<(usize, Token, usize)>, pos: usize, vars: Node, p: usize, Ghost(t): Ghost<Seq<char>>) -> (res: Result<(Node, usize), PErr>)
    requires
        stream_ok(toks@),
        pos < p < toks@.len(),
        tok_ok(toks@, t) ==> node_at(vars, toks@, pos as int, p as int, t),
    ensures
        res matches Ok((_, np)) ==> (match g_expect(kinds(toks@), p as int, SpecToken::EqualsSign) {
            Some(p2) => g_exp_list(kinds(toks@), p2),
            None => None,
        }) == Some(np as int),
        res is Err ==> (match g_expect(kinds(toks@), p as int, SpecToken::EqualsSign) {
            Some(p2) => g_exp_list(kinds(toks@), p2),
            None => None,
        }) is None,
        res matches Ok((n, np)) ==> (tok_ok(toks@, t) ==> node_at(n, toks@, pos as int, np as int, t)),
        res matches Err(e) ==> e is UnrecognizedToken && refused_in(toks@, e),
        res matches Ok((_, np)) ==> pos < np < toks@.len(),
    decreases toks@.len() - p, 26nat,
{
    let p2 = expect(toks, p, &Token::EqualsSign)?;
    let (el, p3) = parse_exp_list(toks, p2, Ghost(t))?;
    let node = Node::VarsExprs(span(toks, pos, p3), [gap(toks, p), gap(toks, p2)], Box::new(vars), Box::new(el));
    proof {
        if tok_ok(toks@, t) {
            lemma_tok_at(toks@, t, p - 1);
            lemma_tok_at(toks@, t, p as int);
            lemma_tok_mono(toks@, t, pos as int, p3 - 1);
            reveal(placed);
        }
    }
    Ok((node, p3))
}

/// A statement that starts with a name or a bracket: an assignment or a call.
#[verifier::rlimit(100)]
#[verifier::spinoff_prover]
fn parse_exp_stat(toks: &Vec<(usize, Token, usize)>, pos: usize, Ghost(t): Ghost<Seq<char>>) -> (res: Result<(Node, usize), PErr>)
    requires
        stream_ok(toks@),
        pos < toks@.len(),
    ensures
        res matches Ok((_, np)) ==> g_exp_stat(kinds(toks@), pos as int) == Some(np as int),
        res is Err ==> g_exp_stat(kinds(toks@), pos as int) is None,
        res matches Ok((n, np)) ==> (tok_ok(toks@, t) ==> node_at(n, toks@, pos as int, np as int, t)),
        res matches Err(e) ==> e is UnrecognizedToken && refused_in(toks@, e),
        res matches Ok((_, np)) ==> pos < np < toks@.len(),
    decreases toks@.len() - pos, 28nat,
{
    let (first, p1, shape) = parse_suffixed(toks, pos, Ghost(t))?;
    if !is_at(toks, p1, &Token::Comma) && !is_at(toks, p1, &Token::EqualsSign) {
        if shape.has_suffix && (shape.ends_in_call || shape.bracketed) {
            return Ok((first, p1));
        }
        return Err(unexpected(toks, p1));
    }
    if !assignable(&first, &shape) {
        return Err(unexpected(toks, p1));
    }
    parse_assignment(toks, pos, first, p1, Ghost(t))
}

/// A statement other than `return`.
#[verifier::rlimit(100)]
#[verifier::spinoff_prover]
fn parse_statement(toks: &Vec<(usize, Token, usize)>, pos: usize, Ghost(t): Ghost<Seq<char>>) -> (res: Result<(Node, usize), PErr>)
    requires
        stream_ok(toks@),
        pos < toks@.len(),
    ensures
        res matches Ok((_, np)) ==> g_statement(kinds(toks@), pos as int) == Some(np as int),
        res is Err ==> g_statement(kinds(toks@), pos as int) is None,
        res matches Ok((n, np)) ==> (tok_ok(toks@, t) ==> node_at(n, toks@, pos as int, np as int, t)),
        res matches Err(e) ==> e is UnrecognizedToken && refused_in(toks@, e),
        res matches Ok((_, np)) ==> pos < np < toks@.len(),
    decreases toks@.len() - pos, 30nat,
{
    match &toks[pos].1 {
        Token::Semicolon | Token::Break => {
            let np = advance(toks, pos);
            let sp = span(toks, pos, np);
            let node = match &toks[pos].1 {
                Token::Semicolon => Node::Semicolon(sp),
                _ => Node::Break(sp),
            };
            proof {
                if tok_ok(toks@, t) {
                    lemma_tok_at(toks@, t, pos as int);
                    reveal(placed);
                }
            }
            Ok((node, np))
        },
        Token::Label => {
            let p1 = advance(toks, pos);
            let (n, p2) = name_node(toks, p1, Ghost(t))?;
            let p3 = expect(toks, p2, &Token::Label)?;
            let node = Node::Label(span(toks, pos, p3), [gap(toks, p1), gap(toks, p2)], Box::new(n));
            proof {
                if tok_ok(toks@, t) {
                    lemma_tok_at(toks@, t, pos as int);
                    lemma_tok_at(toks@, t, p2 - 1);
                    lemma_tok_at(toks@, t, p2 as int);
                    reveal(placed);
                }
            }
            Ok((node, p3))
        },
        Token::GoTo => {
            let p1 = advance(toks, pos);
            let (n, p2) = name_node(toks, p1, Ghost(t))?;
            let node = Node::GoTo(span(toks, pos, p2), [gap(toks, p1)], Box::new(n));
            proof {
                if tok_ok(toks@, t) {
                    lemma_tok_at(toks@, t, pos as int);
                    reveal(placed);
                }
            }
            Ok((node, p2))
        },
        Token::Do => {
            let p1 = advance(toks, pos);
            let (b, p2) = parse_block(toks, p1, Ghost(t))?;
            let p3 = expect(toks, p2, &Token::End)?;
            let node = match b {
                None => Node::DoEnd(span(toks, pos, p3), [gap(toks, p1)]),
                Some(blk) => Node::DoBEnd(span(toks, pos, p3), [gap(toks, p1), gap(toks, p2)], Box::new(blk)),
            };
            proof {
                if tok_ok(toks@, t) {
                    lemma_tok_at(toks@, t, pos as int);
                    lemma_tok_at(toks@, t, p2 - 1);
                    lemma_tok_at(toks@, t, p2 as int);
                    lemma_tok_mono(toks@, t, pos as int, p3 - 1);
                    reveal(placed);
                }
            }
            Ok((node, p3))
        },
        Token::While => {
            let p1 = advance(toks, pos);
            let (e, p2) = parse_exp(toks, p1, Ghost(t))?;
            let p3 = expect(toks, p2, &Token::Do)?;
            let (b, p4) = parse_block(toks, p3, Ghost(t))?;
            let p5 = expect(toks, p4, &Token::End)?;
            let node = match b {
                None => Node::WhileDo(span(toks, pos, p5), [gap(toks, p1), gap(toks, p2), gap(toks, p3)], Box::new(e)),
                Some(blk) => Node::WhileDoB(span(toks, pos, p5), [gap(toks, p1), gap(toks, p2), gap(toks, p3), gap(toks, p4)],
                    Box::new(e), Box::new(blk)),
            };
            proof {
                if tok_ok(toks@, t) {
                    lemma_tok_at(toks@, t, pos as int);
                    lemma_tok_at(toks@, t, p2 - 1);
                    lemma_tok_at(toks@, t, p2 as int);
                    lemma_tok_at(toks@, t, p4 - 1);
                    lemma_tok_at(toks@, t, p4 as int);
                    lemma_tok_mono(toks@, t, pos as int, p5 - 1);
                    reveal(placed);
                }
            }
            Ok((node, p5))
        },
        Token::Repeat => {
            let p1 = advance(toks, pos);
            let (b, p2) = parse_block(toks, p1, Ghost(t))?;
            let p3 = expect(toks, p2, &Token::Until)?;
            let (e, p4) = parse_exp(toks, p3, Ghost(t))?;
            let node = match b {
                None => Node::RepeatUntil(span(toks, pos, p4), [gap(toks, p1), gap(toks, p3)], Box::new(e)),
                Some(blk) => Node::RepeatBUntil(span(toks, pos, p4), [gap(toks, p1), gap(toks, p2), gap(toks, p3)],
                    Box::new(blk), Box::new(e)),
            };
            proof {
                if tok_ok(toks@, t) {
                    lemma_tok_at(toks@, t, pos as int);
                    lemma_tok_at(toks@, t, p2 - 1);
                    lemma_tok_at(toks@, t, p2 as int);
                    lemma_tok_mono(toks@, t, pos as int, p4 - 1);
                    reveal(placed);
                }
            }
            Ok((node, p4))
        },
        _ => parse_other_statement(toks, pos, Ghost(t)),
    }
}

/// A statement that starts with `local`.
#[verifier::rlimit(100)]
#[verifier::spinoff_prover]
fn parse_local(toks: &Vec<(usize, Token, usize)>, pos: usize, Ghost(t): Ghost<Seq<char>>) -> (res: Result<(Node, usize), PErr>)
    requires
        stream_ok(toks@),
        pos < toks@.len(),
        toks@[pos as int].1 is Local,
    ensures
        res matches Ok((_, np)) ==> g_local(kinds(toks@), pos as int) == Some(np as int),
        res is Err ==> g_local(kinds(toks@), pos as int) is None,
        res matches Ok((n, np)) ==> (tok_ok(toks@, t) ==> node_at(n, toks@, pos as int, np as int, t)),
        res matches Err(e) ==> e is UnrecognizedToken && refused_in(toks@, e),
        res matches Ok((_, np)) ==> pos < np < toks@.len(),
    decreases toks@.len() - pos, 28nat,
{
        let p1 = advance(toks, pos);
        if is_at(toks, p1, &Token::Function) {
            let p2 = p1 + 1;
            let (name, p3) = name_node(toks, p2, Ghost(t))?;
            let (body, p4) = parse_func_body(toks, p3, Ghost(t))?;
            let node = Node::LocalFuncDecl(span(toks, pos, p4), [gap(toks, p1), gap(toks, p2), gap(toks, p3)],
                Box::new(name), Box::new(body));
            proof {
                if tok_ok(toks@, t) {
                    lemma_tok_at(toks@, t, pos as int);
                    lemma_tok_at(toks@, t, p1 as int);
                    lemma_tok_at(toks@, t, p2 as int);
                    lemma_tok_mono(toks@, t, pos as int, p4 - 1);
                    reveal(placed);
                }
            }
            return Ok((node, p4));
        }
        let (nl, p2) = parse_name_list(toks, p1, Ghost(t))?;
        if is_at(toks, p2, &Token::EqualsSign) {
            let p3 = p2 + 1;
            let (el, p4) = parse_exp_list(toks, p3, Ghost(t))?;
            let node = Node::LocalNamesExprs(span(toks, pos, p4), [gap(toks, p1), gap(toks, p2), gap(toks, p3)],
                Box::new(nl), Box::new(el));
            proof {
                if tok_ok(toks@, t) {
                    lemma_tok_at(toks@, t, pos as int);
                    lemma_tok_at(toks@, t, p2 - 1);
                    lemma_tok_at(toks@, t, p2 as int);
                    lemma_tok_mono(toks@, t, pos as int, p4 - 1);
                    reveal(placed);
                }
            }
            return Ok((node, p4));
        }
        let node = Node::LocalNames(span(toks, pos, p2), [gap(toks, p1)], Box::new(nl));
        proof {
            if tok_ok(toks@, t) {
                lemma_tok_at(toks@, t, pos as int);
                lemma_tok_mono(toks@, t, pos as int, p2 - 1);
                reveal(placed);
            }
        }
        Ok((node, p2))
}

/// A statement that starts with `if`, `for`, `function`, `local`, or an expression.
#[verifier::rlimit(100)]
#[verifier::spinoff_prover]
fn parse_other_statement(toks: &Vec<(usize, Token, usize)>, pos: usize, Ghost(t): Ghost<Seq<char>>) -> (res: Result<(Node, usize), PErr>)
    requires
        stream_ok(toks@),
        pos < toks@.len(),
        !(toks@[pos as int].1 is Semicolon || toks@[pos as int].1 is Break || toks@[pos as int].1 is Label
            || toks@[pos as int].1 is GoTo || toks@[pos as int].1 is Do || toks@[pos as int].1 is While
            || toks@[pos as int].1 is Repeat),
    ensures
        res matches Ok((_, np)) ==> g_statement(kinds(toks@), pos as int) == Some(np as int),
        res is Err ==> g_statement(kinds(toks@), pos as int) is None,
        res matches Ok((n, np)) ==> (tok_ok(toks@, t) ==> node_at(n, toks@, pos as int, np as int, t)),
        res matches Err(e) ==> e is UnrecognizedToken && refused_in(toks@, e),
        res matches Ok((_, np)) ==> pos < np < toks@.len(),
    decreases toks@.len() - pos, 29nat,
{
    match &toks[pos].1 {
        Token::If => parse_if(toks, pos, Ghost(t)),
        Token::For => parse_for(toks, pos, Ghost(t)),
        Token::Function => {
            let p1 = advance(toks, pos);
            let (name, p2) = parse_func_name(toks, p1, Ghost(t))?;
            let (body, p3) = parse_func_body(toks, p2, Ghost(t))?;
            let node = Node::FuncDecl(span(toks, pos, p3), [gap(toks, p1), gap(toks, p2)], Box::new(name), Box::new(body));
            proof {
                if tok_ok(toks@, t) {
                    lemma_tok_at(toks@, t, pos as int);
                    lemma_tok_at(toks@, t, p2 - 1);
                    lemma_tok_mono(toks@, t, pos as int, p3 - 1);
                    reveal(placed);
                }
            }
            Ok((node, p3))
        },
        Token::Local => parse_local(toks, pos, Ghost(t)),
        _ => parse_exp_stat(toks, pos, Ghost(t)),
    }
}

/// Parses the tokens of a whole text: a chunk, after a shebang line if the text starts
/// with one.
#[verifier::rlimit(100)]
#[verifier::spinoff_prover]
pub fn parse_tokens(toks: &Vec<(usize, Token, usize)>, len: usize, Ghost(t): Ghost<Seq<char>>) -> (res: Result<Node, PErr>)
    requires
        toks@.len() > 0,
        toks@.last().1 is EOF,
    ensures
        res is Ok <==> lua_accepts(kinds(toks@)),
        res matches Ok(n) ==> (tok_ok(toks@, t) && len == t.len() ==> placed(n, t) && text_span(n) == (0int, t.len() as int)),
        res matches Err(e) ==> e is UnrecognizedToken && refused_in(toks@, e),
        res matches Ok(n) ==> match n {
            Node::Chunk(l, _, r) => l.0 == 0 && r.1 == len,
            Node::SheBangChunk(l, _, _, _, r) => l.0 == 0 && r.1 == len,
            _ => false,
        },
{
    let _ = toks.len();
    let first_start = toks[0].0;
    let (shebang, p0) = match &toks[0].1 {
        Token::SheBang(s) => {
            proof { lemma_not_last(toks@, 0); }
            (Some(Node::SheBang(Loc(toks[0].0, toks[0].2), s.clone())), 1usize)
        },
        _ => (None, 0usize),
    };
    let (b, p1) = parse_block(toks, p0, Ghost(t))?;
    match &toks[p1].1 {
        Token::EOF => {},
        _ => return Err(unexpected(toks, p1)),
    }
    let block = match b {
        Some(node) => node,
        None => Node::StatementList(at_start(toks, p1), Vec::new()),
    };
    let right_start = if p1 > p0 { toks[p1 - 1].2 } else { len };
    let right = Loc(right_start, len);
    proof {
        if tok_ok(toks@, t) && len == t.len() {
            if p1 < toks@.len() - 1 {
                assert(tok_placed(t, toks@, p1 as int));
            }
            assert(toks@[p1 as int] == toks@.last());
            lemma_empty_gap(t, len);
            if p1 > p0 {
                lemma_tok_at(toks@, t, p1 - 1);
            }
            if p0 == 1 {
                lemma_tok_at(toks@, t, 0);
                match toks@[0].1 {
                    Token::SheBang(s) => {
                        lemma_kw_split(t, toks@[0].0 as int, s@, "\n"@);
                    },
                    _ => {},
                }
            }
            reveal(placed);
            if p1 == p0 {
                assert(toks@[p1 as int].0 == t.len());
                assert(block is StatementList);
                assert(nodes_placed(Seq::<(Loc, Node)>::empty(), 0, t));
                assert(items_laid(t, Seq::<(Loc, Node)>::empty(), t.len() as int, t.len() as int));
            }
            assert(placed(block, t));
        }
    }
    match shebang {
        Some(sb) => {
            let mid_end = if p1 > p0 { toks[p0].0 } else { len };
            let node = Node::SheBangChunk(Loc(0, first_start), Box::new(sb), Loc(toks[0].2, mid_end), Box::new(block), right);
            proof {
                if tok_ok(toks@, t) && len == t.len() {
                    assert(placed(sb, t));
                    assert(text_span(block).0 == mid_end);
                    assert(gap_at(t, Loc(toks@[0].2, mid_end), text_span(sb).1));
                    assert(gap_at(t, right, text_span(block).1));
                    reveal(placed);
                }
            }
            Ok(node)
        },
        None => {
            let left_end = if p1 > p0 { first_start } else { len };
            let node = Node::Chunk(Loc(0, left_end), Box::new(block), right);
            proof {
                if tok_ok(toks@, t) && len == t.len() {
                    assert(gap_at(t, Loc(0, left_end), 0));
                    assert(text_span(block).0 == left_end);
                    assert(gap_at(t, right, text_span(block).1));
                    reveal(placed);
                }
            }
            Ok(node)
        },
    }
}

} // verus!
