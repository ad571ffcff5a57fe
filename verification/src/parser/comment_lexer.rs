use vstd::prelude::*;

use crate::formatter::{decimal, push_decimal};
use crate::formatting::loc_hint::{equals_signs, push_equals_signs};
use super::lexer_util::{push_char, comment_outcome, get_comment_start_ends_and_type, lemma_comment_advances, lemma_comment_bounds, lemma_comment_end, TChars};

verus! {

#[derive(Debug, Clone, PartialEq)]
pub enum Token {
    OneLineComment(String),
    MultiLineComment(usize, String),
    NewLine,
    EOF,
}

/// A comment token as the contracts see it.
pub enum SpecToken {
    OneLineComment(Seq<char>),
    MultiLineComment(nat, Seq<char>),
    NewLine,
    EOF,
}

impl View for Token {
    type V = SpecToken;

    open spec fn view(&self) -> SpecToken {
        match self {
            Token::OneLineComment(s) => SpecToken::OneLineComment(s@),
            Token::MultiLineComment(l, s) => SpecToken::MultiLineComment(*l as nat, s@),
            Token::NewLine => SpecToken::NewLine,
            Token::EOF => SpecToken::EOF,
        }
    }
}

#[derive(Debug, PartialEq, Clone, Copy)]
pub enum LexicalError {
    UnrecognizedSymbol(usize, char),
    UnexpectedEOF,
}

/// How a comment token is shown in messages.
pub open spec fn token_display(tok: SpecToken) -> Seq<char> {
    match tok {
        SpecToken::OneLineComment(s) => "--"@ + s + "\n"@,
        SpecToken::MultiLineComment(level, s) => "--["@ + equals_signs(level) + "["@ + s + "]"@ + equals_signs(level) + "]"@,
        SpecToken::NewLine => "<NewLine>"@,
        SpecToken::EOF => "<EOF>"@,
    }
}

/// How a lexical error of a comment block is shown in messages.
pub open spec fn lexical_error_display(e: LexicalError) -> Seq<char> {
    match e {
        LexicalError::UnrecognizedSymbol(i, ch) =>
            "lexical error: unrecognized symbol '"@ + seq![ch] + "' at "@ + decimal(i as nat),
        LexicalError::UnexpectedEOF => "lexical error: unexpected end of file"@,
    }
}

impl Token {
    /// The token as messages show it.
    pub fn display_text(&self) -> (res: String)
        ensures
            res@ == token_display(self@),
    {
        match self {
            Token::OneLineComment(s) => {
                let mut out = String::from_str("--");
                out.append(s.as_str());
                out.append("\n");
                out
            },
            Token::MultiLineComment(level, s) => {
                let mut out = String::from_str("--[");
                push_equals_signs(&mut out, *level);
                out.append("[");
                out.append(s.as_str());
                out.append("]");
                push_equals_signs(&mut out, *level);
                out.append("]");
                out
            },
            Token::NewLine => String::from_str("<NewLine>"),
            Token::EOF => String::from_str("<EOF>"),
        }
    }
}

impl LexicalError {
    /// The error as messages show it.
    pub fn display_text(&self) -> (res: String)
        ensures
            res@ == lexical_error_display(*self),
    {
        match self {
            LexicalError::UnrecognizedSymbol(i, ch) => {
                let mut out = String::from_str("lexical error: unrecognized symbol '");
                push_char(&mut out, *ch);
                out.append("' at ");
                push_decimal(&mut out, *i);
                out
            },
            LexicalError::UnexpectedEOF => String::from_str("lexical error: unexpected end of file"),
        }
    }
}

/// One step of the comment lexer as the contracts see it.
pub enum SpecLex {
    Tok(int, SpecToken, int),
    Error(LexicalError),
}

/// Spaces and tabs: the blanks that the comment lexer passes over (line feeds are tokens).
pub open spec fn is_space(c: char) -> bool {
    c == ' ' || c == '\r' || c == '\t'
}

pub open spec fn skip_spaces(t: Seq<char>, p: int) -> int
    decreases t.len() - p,
{
    if 0 <= p < t.len() && is_space(t[p]) {
        skip_spaces(t, p + 1)
    } else {
        p
    }
}

/// The token that begins at `q` (not a blank), and the cursor after it.
pub open spec fn comment_token_at(t: Seq<char>, q: int) -> (SpecLex, int) {
    let n = t.len() as int;
    if t[q] == '\n' {
        (SpecLex::Tok(q, SpecToken::NewLine, q + 1), q + 1)
    } else if t[q] == '-' {
        if q + 1 < n && t[q + 1] == '-' {
            let c = comment_outcome(t, q + 2, q + 2);
            if c.4 {
                let text = t.subrange(c.0, c.1);
                let tok = match c.3 {
                    Some(level) => SpecToken::MultiLineComment(level as nat, text),
                    None => SpecToken::OneLineComment(text),
                };
                (SpecLex::Tok(q, tok, c.2), c.5)
            } else {
                (SpecLex::Error(LexicalError::UnexpectedEOF), c.5)
            }
        } else if q + 1 < n {
            (SpecLex::Error(LexicalError::UnrecognizedSymbol((q + 1) as usize, t[q + 1])), q + 1)
        } else {
            (SpecLex::Error(LexicalError::UnexpectedEOF), q + 1)
        }
    } else {
        (SpecLex::Error(LexicalError::UnrecognizedSymbol(q as usize, t[q])), q + 1)
    }
}

pub open spec fn lex_matches(res: Result<(usize, Token, usize), LexicalError>, lx: SpecLex) -> bool {
    match (res, lx) {
        (Ok((l, tok, r)), SpecLex::Tok(sl, st, sr)) => l == sl && tok@ == st && r == sr,
        (Err(e), SpecLex::Error(se)) => e == se,
        _ => false,
    }
}

/// The tokens of a comment block from `p` on, without the final `EOF`, or `None` where
/// the lexer reports an error.
pub open spec fn comment_lex(t: Seq<char>, p: int) -> Option<Seq<(int, SpecToken, int)>>
    decreases t.len() - p,
{
    if p < 0 || p > t.len() {
        None
    } else {
        let q = skip_spaces(t, p);
        if q >= t.len() {
            Some(Seq::empty())
        } else {
            let (lx, np) = comment_token_at(t, q);
            match lx {
                SpecLex::Tok(l, tok, r) => if p < np <= t.len() {
                    match comment_lex(t, np) {
                        Some(rest) => Some(seq![(l, tok, r)] + rest),
                        None => None,
                    }
                } else {
                    None
                },
                SpecLex::Error(_) => None,
            }
        }
    }
}

/// The error that the comment lexer reports from `p` on: that of the first position where
/// it cannot read a token, or `None` where it reads the text to its end.
pub open spec fn comment_lex_error(t: Seq<char>, p: int) -> Option<LexicalError>
    decreases t.len() - p,
{
    if p < 0 || p > t.len() {
        None
    } else {
        let q = skip_spaces(t, p);
        if q >= t.len() {
            None
        } else {
            let (lx, np) = comment_token_at(t, q);
            match lx {
                SpecLex::Tok(_, _, _) => if p < np <= t.len() {
                    comment_lex_error(t, np)
                } else {
                    None
                },
                SpecLex::Error(e) => Some(e),
            }
        }
    }
}

/// Each token the comment lexer hands out moves the cursor forward.
pub proof fn lemma_comment_token_advances(t: Seq<char>, p: int)
    requires
        0 <= p <= t.len(),
        skip_spaces(t, p) < t.len(),
    ensures
        p < comment_token_at(t, skip_spaces(t, p)).1 <= t.len(),
        comment_token_at(t, skip_spaces(t, p)).0 matches SpecLex::Tok(l, _, r)
            ==> p <= l <= r <= comment_token_at(t, skip_spaces(t, p)).1,
{
    lemma_skip_spaces(t, p);
    let q = skip_spaces(t, p);
    if t[q] == '-' && q + 1 < t.len() && t[q + 1] == '-' {
        lemma_comment_advances(t, q + 2, q + 2);
        if comment_outcome(t, q + 2, q + 2).4 {
            lemma_comment_bounds(t, q + 2);
            lemma_comment_end(t, q + 2);
        }
    }
}

pub proof fn lemma_skip_spaces(t: Seq<char>, p: int)
    requires
        0 <= p <= t.len(),
    ensures
        p <= skip_spaces(t, p) <= t.len(),
        skip_spaces(t, p) < t.len() ==> !is_space(t[skip_spaces(t, p)]),
    decreases t.len() - p,
{
    if p < t.len() && is_space(t[p]) {
        lemma_skip_spaces(t, p + 1);
    }
}

/// The lexer of comment blocks: the text between two Lua tokens, which holds only
/// blanks, line feeds and comments.
pub struct Lexer {
    chars: TChars,
    len: usize,
    at_end: bool,
}

/// The steps that the lexer takes from `p` on, as `next` hands them out: each token or
/// error in turn, then the final `EOF` unless it has been handed out already.
pub open spec fn lex_steps(t: Seq<char>, p: int, done: bool) -> Seq<SpecLex>
    decreases t.len() - p,
{
    if p < 0 || p > t.len() {
        Seq::empty()
    } else {
        let q = skip_spaces(t, p);
        if q >= t.len() {
            if done {
                Seq::empty()
            } else {
                seq![SpecLex::Tok(t.len() as int, SpecToken::EOF, t.len() as int)]
            }
        } else {
            proof {
                lemma_comment_token_advances(t, p);
            }
            seq![comment_token_at(t, q).0] + lex_steps(t, comment_token_at(t, q).1, done)
        }
    }
}

impl Lexer {
    pub closed spec fn wf(&self) -> bool {
        &&& self.len == self.chars.text().len()
        &&& self.len < usize::MAX / 4
        &&& 0 <= self.chars.index() <= self.chars.text().len()
    }

    pub closed spec fn text(&self) -> Seq<char> {
        self.chars.text()
    }

    pub closed spec fn index(&self) -> int {
        self.chars.index()
    }

    pub closed spec fn done(&self) -> bool {
        self.at_end
    }

    /// The length of the text, in characters.
    pub fn len(&self) -> (res: usize)
        requires
            self.wf(),
        ensures
            res == self.text().len(),
    {
        self.len
    }

    pub fn new(input: &str) -> (res: Lexer)
        requires
            input@.len() < usize::MAX / 4,
        ensures
            res.wf(),
            res.text() == input@,
            res.index() == 0,
            !res.done(),
    {
        let chars = TChars::new(input);
        let len = input.unicode_len();
        Lexer { chars, len, at_end: false }
    }

    /// The next token, an error, the final `EOF`, or nothing once `EOF` has been handed out.
    pub fn next(&mut self) -> (res: Option<Result<(usize, Token, usize), LexicalError>>)
        requires
            old(self).wf(),
        ensures
            final(self).wf(),
            final(self).text() == old(self).text(),
            ({
                let t = old(self).text();
                let q = skip_spaces(t, old(self).index());
                if q >= t.len() {
                    &&& final(self).index() == q
                    &&& final(self).done()
                    &&& if old(self).done() {
                        res is None
                    } else {
                        res matches Some(Ok((l, tok, r))) && l == t.len() && r == t.len() && tok@ == SpecToken::EOF
                    }
                } else {
                    let (lx, np) = comment_token_at(t, q);
                    &&& final(self).index() == np
                    &&& final(self).done() == old(self).done()
                    &&& res matches Some(r) && lex_matches(r, lx)
                }
            }),
    {
        let ghost t = self.text();
        let ghost p0 = self.index();
        loop
            invariant
                self.wf(),
                self.text() == t,
                t == old(self).text(),
                p0 == old(self).index(),
                self.done() == old(self).done(),
                skip_spaces(t, self.index()) == skip_spaces(t, p0),
            decreases t.len() - self.index(),
        {
            match self.chars.peek() {
                None => {
                    if !self.at_end {
                        self.at_end = true;
                        let index = self.len;
                        return Some(Ok((index, Token::EOF, index)));
                    }
                    return None;
                },
                Some((i, ch)) => {
                    if ch == ' ' || ch == '\r' || ch == '\t' {
                        self.chars.next();
                    } else if ch == '\n' {
                        self.chars.next();
                        return Some(Ok((i, Token::NewLine, i + 1)));
                    } else if ch == '-' {
                        let token_start = i;
                        self.chars.next();
                        match self.chars.peek() {
                            Some((ip, chp)) => {
                                if chp == '-' {
                                    self.chars.next();
                                    proof {
                                        lemma_comment_advances(t, i + 2, i + 2);
                                    }
                                    let (text_start, text_end, token_end, opt_level, succ) =
                                        get_comment_start_ends_and_type(&mut self.chars, token_start + 2);
                                    proof { use_type_invariant(&self.chars); self.chars.lemma_inv(); }
                                    if !succ {
                                        return Some(Err(LexicalError::UnexpectedEOF));
                                    }
                                    proof { lemma_comment_bounds(t, i + 2); }
                                    let text = self.chars.substring(text_start, text_end);
                                    let token = match opt_level {
                                        Some(level) => Token::MultiLineComment(level, text),
                                        None => Token::OneLineComment(text),
                                    };
                                    return Some(Ok((token_start, token, token_end)));
                                }
                                return Some(Err(LexicalError::UnrecognizedSymbol(ip, chp)));
                            },
                            None => return Some(Err(LexicalError::UnexpectedEOF)),
                        }
                    } else {
                        self.chars.next();
                        return Some(Err(LexicalError::UnrecognizedSymbol(i, ch)));
                    }
                },
            }
        }
    }

    /// Every item the lexer hands out, up to and including the final `EOF`.
    pub fn collect(self) -> (res: Vec<Result<(usize, Token, usize), LexicalError>>)
        requires
            self.wf(),
        ensures
            ({
                let steps = lex_steps(self.text(), self.index(), self.done());
                &&& res@.len() == steps.len()
                &&& forall|i: int| 0 <= i < res@.len() ==> lex_matches(#[trigger] res@[i], steps[i])
            }),
    {
        let mut lexer = self;
        let mut out: Vec<Result<(usize, Token, usize), LexicalError>> = Vec::new();
        let ghost t = lexer.text();
        let ghost all = lex_steps(t, self.index(), self.done());
        loop
            invariant
                lexer.wf(),
                lexer.text() == t,
                0 <= lexer.index() <= t.len(),
                out@.len() + lex_steps(t, lexer.index(), lexer.done()).len() == all.len(),
                forall|i: int| 0 <= i < out@.len() ==> lex_matches(#[trigger] out@[i], all[i]),
                forall|i: int| 0 <= i < lex_steps(t, lexer.index(), lexer.done()).len()
                    ==> #[trigger] lex_steps(t, lexer.index(), lexer.done())[i] == all[out@.len() + i],
                all == lex_steps(t, self.index(), self.done()),
                t == self.text(),
            decreases (t.len() - lexer.index()) * 2 + (if lexer.done() { 0int } else { 1int }),
        {
            let ghost p = lexer.index();
            let ghost d = lexer.done();
            proof {
                lemma_skip_spaces(t, p);
                let q = skip_spaces(t, p);
                if q + 2 <= t.len() {
                    lemma_comment_advances(t, q + 2, q + 2);
                }
                if q < t.len() {
                    lemma_comment_token_advances(t, p);
                }
            }
            match lexer.next() {
                Some(item) => {
                    proof {
                        let rest = lex_steps(t, p, d);
                        let rest2 = lex_steps(t, lexer.index(), lexer.done());
                        assert(rest.len() > 0);
                        assert(rest =~= seq![rest[0]] + rest2);
                        assert(lex_matches(item, rest[0]));
                    }
                    out.push(item);
                    proof {
                        let rest2 = lex_steps(t, lexer.index(), lexer.done());
                        assert forall|i: int| 0 <= i < out@.len() implies lex_matches(#[trigger] out@[i], all[i]) by {
                            if i == out@.len() - 1 {
                                assert(all[i] == lex_steps(t, p, d)[0]);
                            }
                        }
                        assert forall|i: int| 0 <= i < rest2.len() implies #[trigger] rest2[i] == all[out@.len() + i] by {
                            assert(rest2[i] == lex_steps(t, p, d)[i + 1]);
                        }
                    }
                },
                None => {
                    proof {
                        assert(lex_steps(t, p, d).len() == 0);
                    }
                    return out;
                },
            }
        }
    }
}

} // verus!
