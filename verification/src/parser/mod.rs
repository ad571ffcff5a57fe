pub mod lexer_util;
pub mod lua_lexer;
pub mod comment_lexer;
pub mod common;
pub mod lua_ast;
pub mod comment_ast;
pub mod lua_parser;
pub mod tiling;
pub mod grammar;

use vstd::prelude::*;

verus! {

/// Parses a Lua text. The lexer's errors come back as `User` errors, exactly where the
/// lexer cannot read the text; every other error is a token that the grammar refuses.
pub fn parse_lua(src: &str) -> (res: Result<lua_ast::Node, common::ParseError<lua_lexer::Token, lua_lexer::LexicalError>>)
    requires
        src@.len() < usize::MAX / 4,
    ensures
        (res matches Err(e) && e is User) <==> lua_parser::lua_lex(src@, 0) is None,
        res matches Ok(n) ==> match n {
            lua_ast::Node::Chunk(l, _, r) => l.0 == 0 && r.1 == src@.len(),
            lua_ast::Node::SheBangChunk(l, _, _, _, r) => l.0 == 0 && r.1 == src@.len(),
            _ => false,
        },
        res matches Ok(n) ==> (!tiling::ends_unclosed(src@)
            ==> crate::formatting::default_layout::placed(n, src@)
            && crate::formatting::default_layout::text_span(n) == (0int, src@.len() as int)),
        res matches Err(e) ==> lua_parser::refused_of(src@, e),
        res is Ok <==> grammar::lua_text_accepted(src@),
{
    match lua_parser::lex_all(src) {
        Ok(toks) => {
            let len = src.unicode_len();
            proof {
                if !tiling::ends_unclosed(src@) {
                    tiling::lemma_lexed_tiles(src@);
                    let v = lua_parser::tokens_view(toks@);
                    assert(v.len() == toks@.len());
                    assert(v.last() == (toks@.last().0 as int, toks@.last().1@, toks@.last().2 as int));
                    assert(v =~= v.drop_last().push(v.last()));
                    assert(v =~= lua_parser::lexed(src@));
                    lua_parser::lemma_tiles_tok_ok(toks@, src@);
                }
            }
            let r = lua_parser::parse_tokens(&toks, len, Ghost(src@));
            proof {
                let v = lua_parser::tokens_view(toks@);
                assert(v.len() == toks@.len());
                assert(v.last() == (toks@.last().0 as int, toks@.last().1@, toks@.last().2 as int));
                assert(v =~= v.drop_last().push(v.last()));
                assert(v =~= lua_parser::lexed(src@));
                assert(grammar::kinds(toks@) =~= lua_parser::lexed(src@).map_values(|x: (int, lua_lexer::SpecToken, int)| x.1));
                if r is Err && r->Err_0 is UnrecognizedToken {
                    let token = r->Err_0->token;
                    let i = choose|i: int| 0 <= i < toks@.len() && toks@[i] == token;
                    assert(v[i] == (token.0 as int, token.1@, token.2 as int));
                }
            }
            r
        },
        Err(e) => Err(common::ParseError::User { error: e }),
    }
}

/// Parses a comment block, the text between two Lua tokens. It succeeds exactly where the
/// comment lexer reads the whole text.
pub fn parse_comment(src: &str) -> (res: Result<comment_ast::Node, common::ParseError<comment_lexer::Token, comment_lexer::LexicalError>>)
    requires
        src@.len() < usize::MAX / 4,
    ensures
        res is Ok <==> comment_lexer::comment_lex(src@, 0) is Some,
        res matches Ok(n) ==> comment_ast::chunk_tokens(n) == comment_lexer::comment_lex(src@, 0).unwrap(),
        res matches Err(e) ==> comment_lexer::comment_lex_error(src@, 0) matches Some(le)
            && e == (common::ParseError::<comment_lexer::Token, comment_lexer::LexicalError>::User { error: le }),
{
    comment_ast::parse_chunk(src)
}

} // verus!
