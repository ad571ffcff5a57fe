use vstd::prelude::*;

use super::comment_lexer::{comment_lex, comment_lex_error, lemma_comment_token_advances, lemma_skip_spaces, skip_spaces, Lexer, LexicalError, SpecToken, Token};
use super::common::{Loc, ParseError};

verus! {

/// The syntax tree of a comment block, the text between two Lua tokens.
/// A `Chunk` holds the blanks before the first token, the tokens, and the blanks after the
/// last one. Its `VariantList` holds runs of comments (`CommentList`) and runs of line
/// feeds (`NewLineList`); each item of a list is paired with the blanks before it.
#[derive(Debug)]
pub enum Node {
    OneLineComment(Loc, String),
    MultiLineComment(Loc, usize, String),
    NewLine(Loc),

    VariantList(Loc, Vec<(Loc, Node)>),
    CommentList(Loc, Vec<(Loc, Node)>),
    NewLineList(Loc, Vec<(Loc, Node)>),
    Chunk(Loc, Box<Node>, Loc),
}

/// The token that a leaf of the tree stands for, with its span.
pub open spec fn node_token(n: Node) -> (int, SpecToken, int) {
    match n {
        Node::OneLineComment(loc, s) => (loc.0 as int, SpecToken::OneLineComment(s@), loc.1 as int),
        Node::MultiLineComment(loc, level, s) => (loc.0 as int, SpecToken::MultiLineComment(level as nat, s@), loc.1 as int),
        Node::NewLine(loc) => (loc.0 as int, SpecToken::NewLine, loc.1 as int),
        _ => (0, SpecToken::EOF, 0),
    }
}

pub open spec fn items_tokens(items: Seq<(Loc, Node)>) -> Seq<(int, SpecToken, int)> {
    items.map_values(|it: (Loc, Node)| node_token(it.1))
}

/// The tokens of a run of comments or of line feeds.
pub open spec fn group_tokens(n: Node) -> Seq<(int, SpecToken, int)> {
    match n {
        Node::CommentList(_, items) => items_tokens(items@),
        Node::NewLineList(_, items) => items_tokens(items@),
        _ => Seq::empty(),
    }
}

pub open spec fn variants_tokens(vs: Seq<(Loc, Node)>) -> Seq<(int, SpecToken, int)>
    decreases vs.len(),
{
    if vs.len() == 0 {
        Seq::empty()
    } else {
        variants_tokens(vs.drop_last()) + group_tokens(vs.last().1)
    }
}

/// The tokens of a comment block, in order.
pub open spec fn chunk_tokens(n: Node) -> Seq<(int, SpecToken, int)> {
    match n {
        Node::Chunk(_, b, _) => match *b {
            Node::VariantList(_, vs) => variants_tokens(vs@),
            _ => Seq::empty(),
        },
        _ => Seq::empty(),
    }
}

pub open spec fn lexed_view(toks: Seq<(usize, Token, usize)>) -> Seq<(int, SpecToken, int)> {
    toks.map_values(|x: (usize, Token, usize)| (x.0 as int, x.1@, x.2 as int))
}

/// The text of the block before its first token and after its last one.
pub open spec fn chunk_margins(n: Node, len: int) -> bool {
    match n {
        Node::Chunk(l, _, r) => {
            let ts = chunk_tokens(n);
            &&& l.0 == 0
            &&& r.1 == len
            &&& ts.len() == 0 ==> l.1 == len && r.0 == len
            &&& ts.len() > 0 ==> l.1 == ts[0].0 && r.0 == ts.last().2
        },
        _ => false,
    }
}

fn leaf(tok: &(usize, Token, usize)) -> (res: Node)
    requires
        !(tok.1 is EOF),
    ensures
        node_token(res) == (tok.0 as int, tok.1@, tok.2 as int),
{
    let loc = Loc(tok.0, tok.2);
    match &tok.1 {
        Token::OneLineComment(s) => Node::OneLineComment(loc, s.clone()),
        Token::MultiLineComment(level, s) => Node::MultiLineComment(loc, *level, s.clone()),
        _ => Node::NewLine(loc),
    }
}

fn make_group(newlines: bool, span: Loc, items: Vec<(Loc, Node)>) -> (res: Node)
    ensures
        group_tokens(res) == items_tokens(items@),
{
    if newlines {
        Node::NewLineList(span, items)
    } else {
        Node::CommentList(span, items)
    }
}

/// Groups the tokens of a comment block into runs of comments and runs of line feeds.
fn group(toks: &Vec<(usize, Token, usize)>, len: usize) -> (res: Node)
    requires
        forall|i: int| 0 <= i < toks@.len() ==> !(#[trigger] toks@[i].1 is EOF),
        forall|i: int| 0 <= i < toks@.len() ==> #[trigger] toks@[i].0 <= toks@[i].2 <= len,
        forall|i: int, j: int| 0 <= i < j < toks@.len() ==> #[trigger] toks@[i].2 <= #[trigger] toks@[j].0,
    ensures
        chunk_tokens(res) == lexed_view(toks@),
        chunk_margins(res, len as int),
{
    let n = toks.len();
    let mut variants: Vec<(Loc, Node)> = Vec::new();
    let mut cur: Vec<(Loc, Node)> = Vec::new();
    let mut cur_newlines = false;
    let mut cur_gap = Loc(0, 0);
    let mut cur_start: usize = 0;
    let mut i: usize = 0;
    while i < n
        invariant
            0 <= i <= n,
            n == toks@.len(),
            forall|k: int| 0 <= k < toks@.len() ==> !(#[trigger] toks@[k].1 is EOF),
            i == 0 ==> cur@.len() == 0 && variants@.len() == 0,
            variants_tokens(variants@) + items_tokens(cur@) == lexed_view(toks@).take(i as int),
            i > 0 ==> cur@.len() > 0,
        decreases n - i,
    {
        let tok = &toks[i];
        let is_nl = match &tok.1 {
            Token::NewLine => true,
            _ => false,
        };
        let gap = if i == 0 { Loc(tok.0, tok.0) } else { Loc(toks[i - 1].2, tok.0) };
        let node = leaf(tok);
        if i > 0 && is_nl != cur_newlines {
            let mut done: Vec<(Loc, Node)> = Vec::new();
            std::mem::swap(&mut done, &mut cur);
            let last_end = toks[i - 1].2;
            let grp = make_group(cur_newlines, Loc(cur_start, last_end), done);
            proof {
                assert(variants_tokens(variants@.push((cur_gap, grp))) == variants_tokens(variants@) + group_tokens(grp)) by {
                    assert(variants@.push((cur_gap, grp)).drop_last() =~= variants@);
                }
            }
            variants.push((cur_gap, grp));
            cur_gap = gap;
            cur_start = tok.0;
            cur_newlines = is_nl;
        } else if i == 0 {
            cur_gap = gap;
            cur_start = tok.0;
            cur_newlines = is_nl;
        }
        let inner_gap = if cur.len() == 0 { Loc(tok.0, tok.0) } else { gap };
        proof {
            assert(items_tokens(cur@.push((inner_gap, node))) =~= items_tokens(cur@).push(node_token(node)));
            assert(lexed_view(toks@).take(i + 1) =~= lexed_view(toks@).take(i as int).push(lexed_view(toks@)[i as int]));
        }
        cur.push((inner_gap, node));
        i = i + 1;
    }
    proof {
        assert(lexed_view(toks@).take(n as int) =~= lexed_view(toks@));
    }
    if n == 0 {
        let vl = Node::VariantList(Loc(len, len), variants);
        proof {
            assert(variants_tokens(variants@) =~= Seq::<(int, SpecToken, int)>::empty());
        }
        return Node::Chunk(Loc(0, len), Box::new(vl), Loc(len, len));
    }
    let last_end = toks[n - 1].2;
    let grp = make_group(cur_newlines, Loc(cur_start, last_end), cur);
    proof {
        assert(variants_tokens(variants@.push((cur_gap, grp))) == variants_tokens(variants@) + group_tokens(grp)) by {
            assert(variants@.push((cur_gap, grp)).drop_last() =~= variants@);
        }
    }
    variants.push((cur_gap, grp));
    let first_start = toks[0].0;
    let vl = Node::VariantList(Loc(first_start, last_end), variants);
    Node::Chunk(Loc(0, first_start), Box::new(vl), Loc(last_end, len))
}

pub open spec fn prepend(a: Seq<(int, SpecToken, int)>, o: Option<Seq<(int, SpecToken, int)>>) -> Option<Seq<(int, SpecToken, int)>> {
    match o {
        Some(s) => Some(a + s),
        None => None,
    }
}

/// Parses a comment block. It succeeds exactly where the comment lexer reads the whole
/// text, and the tree holds the tokens that the lexer reads, in order.
pub fn parse_chunk(src: &str) -> (res: Result<Node, ParseError<Token, LexicalError>>)
    requires
        src@.len() < usize::MAX / 4,
    ensures
        res is Ok <==> comment_lex(src@, 0) is Some,
        res matches Ok(n) ==> chunk_tokens(n) == comment_lex(src@, 0).unwrap() && chunk_margins(n, src@.len() as int),
        res matches Err(e) ==> comment_lex_error(src@, 0) matches Some(le) && e == (ParseError::<Token, LexicalError>::User { error: le }),
{
    let ghost t = src@;
    let mut lexer = Lexer::new(src);
    let mut toks: Vec<(usize, Token, usize)> = Vec::new();
    loop
        invariant
            lexer.wf(),
            lexer.text() == t,
            t == src@,
            !lexer.done(),
            0 <= lexer.index() <= t.len(),
            comment_lex(t, 0) == prepend(lexed_view(toks@), comment_lex(t, lexer.index())),
            comment_lex_error(t, 0) == comment_lex_error(t, lexer.index()),
            forall|i: int| 0 <= i < toks@.len() ==> !(#[trigger] toks@[i].1 is EOF),
            forall|i: int| 0 <= i < toks@.len() ==> #[trigger] toks@[i].0 <= toks@[i].2 <= lexer.index(),
            forall|i: int, j: int| 0 <= i < j < toks@.len() ==> #[trigger] toks@[i].2 <= #[trigger] toks@[j].0,
        decreases t.len() - lexer.index(),
    {
        let ghost p = lexer.index();
        proof {
            lemma_skip_spaces(t, p);
            if skip_spaces(t, p) < t.len() {
                lemma_comment_token_advances(t, p);
            }
        }
        match lexer.next() {
            Some(Ok(item)) => {
                if let Token::EOF = item.1 {
                    proof {
                        assert(lexed_view(toks@) + Seq::empty() =~= lexed_view(toks@));
                    }
                    let len = lexer.len();
                    return Ok(group(&toks, len));
                }
                proof {
                    let v = lexed_view(toks@);
                    assert(lexed_view(toks@.push(item)) =~= v.push((item.0 as int, item.1@, item.2 as int)));
                    let rest = comment_lex(t, lexer.index());
                    if rest is Some {
                        assert(v + (seq![(item.0 as int, item.1@, item.2 as int)] + rest.unwrap())
                            =~= v.push((item.0 as int, item.1@, item.2 as int)) + rest.unwrap());
                    }
                }
                proof {
                    let q = skip_spaces(t, p);
                    assert(q < t.len());
                    assert(p <= item.0 && item.2 <= lexer.index());
                }
                let ghost old_toks = toks@;
                toks.push(item);
                proof {
                    assert forall|i: int, j: int| 0 <= i < j < toks@.len() implies #[trigger] toks@[i].2 <= #[trigger] toks@[j].0 by {
                        if j == toks@.len() - 1 {
                            assert(toks@[i] == old_toks[i]);
                            assert(old_toks[i].0 <= old_toks[i].2 <= p);
                        } else {
                            assert(toks@[i] == old_toks[i] && toks@[j] == old_toks[j]);
                        }
                    }
                    assert forall|i: int| 0 <= i < toks@.len() implies #[trigger] toks@[i].0 <= toks@[i].2 <= lexer.index() by {
                        if i < old_toks.len() {
                            assert(toks@[i] == old_toks[i]);
                            assert(old_toks[i].0 <= old_toks[i].2 <= p);
                        }
                    }
                }
            },
            Some(Err(e)) => {
                return Err(ParseError::User { error: e });
            },
            None => {
                proof { assert(false); }
                return Err(ParseError::User { error: LexicalError::UnexpectedEOF });
            },
        }
    }
}

} // verus!
