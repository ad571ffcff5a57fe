use vstd::prelude::*;

use super::lua_parser::token_text;
use crate::formatter::{decimal, push_decimal};
use crate::formatting::loc_hint::push_equals_signs;

use super::lexer_util::{
    lemma_multiline_advances, lemma_scan_from, lemma_seek_advances, scan_from, seek_outcome,
    exec_is_alpha, exec_is_digit, get_comment_start_ends_and_type, get_float_end, get_hex_integer_end,
    get_multiline_string_ends, get_multiline_string_level, get_shebang_ends, get_string_ends, get_variable_end,
    push_char,
    comment_outcome, float_outcome, is_alpha, is_digit, lemma_comment_advances, level_outcome, multiline_outcome,
    quoted_outcome, shebang_outcome, word_outcome, Stop, TChars,
};

verus! {

#[derive(Debug, Clone, PartialEq)]
pub enum Token {
    OpExponentiation,
    OpLogicalNot,
    OpLength,
    OpMultiplication,
    OpDivision,
    OpFloorDivision,
    OpModulo,
    OpAddition,
    Minus,
    OpConcatenation,
    OpLeftShift,
    OpRightShift,
    OpBitwiseAnd,
    Tilde,
    OpBitwiseOr,
    OpEquality,
    OpInequality,
    OpLessThan,
    OpGreaterThan,
    OpLessOrEqual,
    OpGreaterOrEqual,
    OpLogicalAnd,
    OpLogicalOr,
    Variable(String),
    Numeral(String),
    NormalStringLiteral(String),
    CharStringLiteral(String),
    MultiLineStringLiteral(usize, String),
    Semicolon,
    Comma,
    Colon,
    Label,
    EqualsSign,
    Period,
    OpenRoundBracket,
    CloseRoundBracket,
    OpenSquareBracket,
    CloseSquareBracket,
    OpenCurlyBracket,
    CloseCurlyBracket,
    Break,
    Do,
    Else,
    ElseIf,
    End,
    False,
    For,
    Function,
    GoTo,
    If,
    In,
    Local,
    Nil,
    Repeat,
    Return,
    Then,
    True,
    Until,
    VarArg,
    While,
    SheBang(String),
    EOF,
}

impl Token {
    /// A copy of the token.
    pub fn duplicate(&self) -> (res: Token)
        ensures
            res == *self,
    {
        match self {
            Token::OpExponentiation => Token::OpExponentiation,
            Token::OpLogicalNot => Token::OpLogicalNot,
            Token::OpLength => Token::OpLength,
            Token::OpMultiplication => Token::OpMultiplication,
            Token::OpDivision => Token::OpDivision,
            Token::OpFloorDivision => Token::OpFloorDivision,
            Token::OpModulo => Token::OpModulo,
            Token::OpAddition => Token::OpAddition,
            Token::Minus => Token::Minus,
            Token::OpConcatenation => Token::OpConcatenation,
            Token::OpLeftShift => Token::OpLeftShift,
            Token::OpRightShift => Token::OpRightShift,
            Token::OpBitwiseAnd => Token::OpBitwiseAnd,
            Token::Tilde => Token::Tilde,
            Token::OpBitwiseOr => Token::OpBitwiseOr,
            Token::OpEquality => Token::OpEquality,
            Token::OpInequality => Token::OpInequality,
            Token::OpLessThan => Token::OpLessThan,
            Token::OpGreaterThan => Token::OpGreaterThan,
            Token::OpLessOrEqual => Token::OpLessOrEqual,
            Token::OpGreaterOrEqual => Token::OpGreaterOrEqual,
            Token::OpLogicalAnd => Token::OpLogicalAnd,
            Token::OpLogicalOr => Token::OpLogicalOr,
            Token::Variable(x0) => Token::Variable(x0.clone()),
            Token::Numeral(x0) => Token::Numeral(x0.clone()),
            Token::NormalStringLiteral(x0) => Token::NormalStringLiteral(x0.clone()),
            Token::CharStringLiteral(x0) => Token::CharStringLiteral(x0.clone()),
            Token::MultiLineStringLiteral(x0, x1) => Token::MultiLineStringLiteral(*x0, x1.clone()),
            Token::Semicolon => Token::Semicolon,
            Token::Comma => Token::Comma,
            Token::Colon => Token::Colon,
            Token::Label => Token::Label,
            Token::EqualsSign => Token::EqualsSign,
            Token::Period => Token::Period,
            Token::OpenRoundBracket => Token::OpenRoundBracket,
            Token::CloseRoundBracket => Token::CloseRoundBracket,
            Token::OpenSquareBracket => Token::OpenSquareBracket,
            Token::CloseSquareBracket => Token::CloseSquareBracket,
            Token::OpenCurlyBracket => Token::OpenCurlyBracket,
            Token::CloseCurlyBracket => Token::CloseCurlyBracket,
            Token::Break => Token::Break,
            Token::Do => Token::Do,
            Token::Else => Token::Else,
            Token::ElseIf => Token::ElseIf,
            Token::End => Token::End,
            Token::False => Token::False,
            Token::For => Token::For,
            Token::Function => Token::Function,
            Token::GoTo => Token::GoTo,
            Token::If => Token::If,
            Token::In => Token::In,
            Token::Local => Token::Local,
            Token::Nil => Token::Nil,
            Token::Repeat => Token::Repeat,
            Token::Return => Token::Return,
            Token::Then => Token::Then,
            Token::True => Token::True,
            Token::Until => Token::Until,
            Token::VarArg => Token::VarArg,
            Token::While => Token::While,
            Token::SheBang(x0) => Token::SheBang(x0.clone()),
            Token::EOF => Token::EOF,
        }
    }
}

/// A token as the contracts see it: its text as a sequence of characters.
pub enum SpecToken {
    OpExponentiation,
    OpLogicalNot,
    OpLength,
    OpMultiplication,
    OpDivision,
    OpFloorDivision,
    OpModulo,
    OpAddition,
    Minus,
    OpConcatenation,
    OpLeftShift,
    OpRightShift,
    OpBitwiseAnd,
    Tilde,
    OpBitwiseOr,
    OpEquality,
    OpInequality,
    OpLessThan,
    OpGreaterThan,
    OpLessOrEqual,
    OpGreaterOrEqual,
    OpLogicalAnd,
    OpLogicalOr,
    Variable(Seq<char>),
    Numeral(Seq<char>),
    NormalStringLiteral(Seq<char>),
    CharStringLiteral(Seq<char>),
    MultiLineStringLiteral(nat, Seq<char>),
    Semicolon,
    Comma,
    Colon,
    Label,
    EqualsSign,
    Period,
    OpenRoundBracket,
    CloseRoundBracket,
    OpenSquareBracket,
    CloseSquareBracket,
    OpenCurlyBracket,
    CloseCurlyBracket,
    Break,
    Do,
    Else,
    ElseIf,
    End,
    False,
    For,
    Function,
    GoTo,
    If,
    In,
    Local,
    Nil,
    Repeat,
    Return,
    Then,
    True,
    Until,
    VarArg,
    While,
    SheBang(Seq<char>),
    EOF,
}

impl View for Token {
    type V = SpecToken;

    open spec fn view(&self) -> SpecToken {
        match self {
            Token::OpExponentiation => SpecToken::OpExponentiation,
            Token::OpLogicalNot => SpecToken::OpLogicalNot,
            Token::OpLength => SpecToken::OpLength,
            Token::OpMultiplication => SpecToken::OpMultiplication,
            Token::OpDivision => SpecToken::OpDivision,
            Token::OpFloorDivision => SpecToken::OpFloorDivision,
            Token::OpModulo => SpecToken::OpModulo,
            Token::OpAddition => SpecToken::OpAddition,
            Token::Minus => SpecToken::Minus,
            Token::OpConcatenation => SpecToken::OpConcatenation,
            Token::OpLeftShift => SpecToken::OpLeftShift,
            Token::OpRightShift => SpecToken::OpRightShift,
            Token::OpBitwiseAnd => SpecToken::OpBitwiseAnd,
            Token::Tilde => SpecToken::Tilde,
            Token::OpBitwiseOr => SpecToken::OpBitwiseOr,
            Token::OpEquality => SpecToken::OpEquality,
            Token::OpInequality => SpecToken::OpInequality,
            Token::OpLessThan => SpecToken::OpLessThan,
            Token::OpGreaterThan => SpecToken::OpGreaterThan,
            Token::OpLessOrEqual => SpecToken::OpLessOrEqual,
            Token::OpGreaterOrEqual => SpecToken::OpGreaterOrEqual,
            Token::OpLogicalAnd => SpecToken::OpLogicalAnd,
            Token::OpLogicalOr => SpecToken::OpLogicalOr,
            Token::Variable(x) => SpecToken::Variable(x@),
            Token::Numeral(x) => SpecToken::Numeral(x@),
            Token::NormalStringLiteral(x) => SpecToken::NormalStringLiteral(x@),
            Token::CharStringLiteral(x) => SpecToken::CharStringLiteral(x@),
            Token::MultiLineStringLiteral(l, x) => SpecToken::MultiLineStringLiteral(*l as nat, x@),
            Token::Semicolon => SpecToken::Semicolon,
            Token::Comma => SpecToken::Comma,
            Token::Colon => SpecToken::Colon,
            Token::Label => SpecToken::Label,
            Token::EqualsSign => SpecToken::EqualsSign,
            Token::Period => SpecToken::Period,
            Token::OpenRoundBracket => SpecToken::OpenRoundBracket,
            Token::CloseRoundBracket => SpecToken::CloseRoundBracket,
            Token::OpenSquareBracket => SpecToken::OpenSquareBracket,
            Token::CloseSquareBracket => SpecToken::CloseSquareBracket,
            Token::OpenCurlyBracket => SpecToken::OpenCurlyBracket,
            Token::CloseCurlyBracket => SpecToken::CloseCurlyBracket,
            Token::Break => SpecToken::Break,
            Token::Do => SpecToken::Do,
            Token::Else => SpecToken::Else,
            Token::ElseIf => SpecToken::ElseIf,
            Token::End => SpecToken::End,
            Token::False => SpecToken::False,
            Token::For => SpecToken::For,
            Token::Function => SpecToken::Function,
            Token::GoTo => SpecToken::GoTo,
            Token::If => SpecToken::If,
            Token::In => SpecToken::In,
            Token::Local => SpecToken::Local,
            Token::Nil => SpecToken::Nil,
            Token::Repeat => SpecToken::Repeat,
            Token::Return => SpecToken::Return,
            Token::Then => SpecToken::Then,
            Token::True => SpecToken::True,
            Token::Until => SpecToken::Until,
            Token::VarArg => SpecToken::VarArg,
            Token::While => SpecToken::While,
            Token::SheBang(x) => SpecToken::SheBang(x@),
            Token::EOF => SpecToken::EOF,
        }
    }
}

#[derive(Debug, PartialEq, Clone, Copy)]
pub enum LexicalError {
    UnrecognizedSymbol(usize, char),
    UnexpectedEOF,
}

/// How a token is shown in messages: names and numbers in double quotes, `<EOF>` for the
/// end, and any other token as the text it stands for.
pub open spec fn token_display(tok: SpecToken) -> Seq<char> {
    match tok {
        SpecToken::Variable(s) => "\""@ + s + "\""@,
        SpecToken::Numeral(s) => "\""@ + s + "\""@,
        SpecToken::EOF => "<EOF>"@,
        _ => token_text(tok),
    }
}

/// How a lexical error is shown in messages.
pub open spec fn lexical_error_display(e: LexicalError) -> Seq<char> {
    match e {
        LexicalError::UnrecognizedSymbol(i, ch) =>
            "lexical error: unrecognized symbol '"@ + seq![ch] + "' at "@ + decimal(i as nat),
        LexicalError::UnexpectedEOF => "lexical error: unexpected end of file"@,
    }
}

impl Token {
    /// The token as messages show it.
    pub fn display_text(&self) -> (res: String)
        ensures
            res@ == token_display(self@),
    {
        let fixed: &str = match self {
            Token::OpExponentiation => "^",
            Token::OpLogicalNot => "not",
            Token::OpLength => "#",
            Token::OpMultiplication => "*",
            Token::OpDivision => "/",
            Token::OpFloorDivision => "//",
            Token::OpModulo => "%",
            Token::OpAddition => "+",
            Token::Minus => "-",
            Token::OpConcatenation => "..",
            Token::OpLeftShift => "<<",
            Token::OpRightShift => ">>",
            Token::OpBitwiseAnd => "&",
            Token::Tilde => "~",
            Token::OpBitwiseOr => "|",
            Token::OpEquality => "==",
            Token::OpInequality => "~=",
            Token::OpLessThan => "<",
            Token::OpGreaterThan => ">",
            Token::OpLessOrEqual => "<=",
            Token::OpGreaterOrEqual => ">=",
            Token::OpLogicalAnd => "and",
            Token::OpLogicalOr => "or",
            Token::Semicolon => ";",
            Token::Comma => ",",
            Token::Colon => ":",
            Token::Label => "::",
            Token::EqualsSign => "=",
            Token::Period => ".",
            Token::OpenRoundBracket => "(",
            Token::CloseRoundBracket => ")",
            Token::OpenSquareBracket => "[",
            Token::CloseSquareBracket => "]",
            Token::OpenCurlyBracket => "{",
            Token::CloseCurlyBracket => "}",
            Token::Break => "break",
            Token::Do => "do",
            Token::Else => "else",
            Token::ElseIf => "elseif",
            Token::End => "end",
            Token::False => "false",
            Token::For => "for",
            Token::Function => "function",
            Token::GoTo => "goto",
            Token::If => "if",
            Token::In => "in",
            Token::Local => "local",
            Token::Nil => "nil",
            Token::Repeat => "repeat",
            Token::Return => "return",
            Token::Then => "then",
            Token::True => "true",
            Token::Until => "until",
            Token::VarArg => "...",
            Token::While => "while",
            Token::EOF => "<EOF>",
            Token::Variable(s) | Token::Numeral(s) => {
                let mut out = String::from_str("\"");
                out.append(s.as_str());
                out.append("\"");
                return out;
            },
            Token::NormalStringLiteral(s) => {
                let mut out = String::from_str("\"");
                out.append(s.as_str());
                out.append("\"");
                return out;
            },
            Token::CharStringLiteral(s) => {
                let mut out = String::from_str("'");
                out.append(s.as_str());
                out.append("'");
                return out;
            },
            Token::MultiLineStringLiteral(level, s) => {
                let mut out = String::from_str("[");
                push_equals_signs(&mut out, *level);
                out.append("[");
                out.append(s.as_str());
                out.append("]");
                push_equals_signs(&mut out, *level);
                out.append("]");
                return out;
            },
            Token::SheBang(s) => {
                let mut out = String::from_str(s.as_str());
                out.append("\n");
                return out;
            },
        };
        String::from_str(fixed)
    }
}

impl LexicalError {
    /// The error as messages show it.
    pub fn display_text(&self) -> (res: String)
        ensures
            res@ == lexical_error_display(*self),
    {
        match self {
            LexicalError::UnrecognizedSymbol(i, ch) => {
                let mut out = String::from_str("lexical error: unrecognized symbol '");
                push_char(&mut out, *ch);
                out.append("' at ");
                push_decimal(&mut out, *i);
                out
            },
            LexicalError::UnexpectedEOF => String::from_str("lexical error: unexpected end of file"),
        }
    }
}

/// One step of the lexer as the contracts see it: a token with its span, or an error.
pub enum SpecLex {
    Tok(int, SpecToken, int),
    Error(LexicalError),
}

pub open spec fn is_blank(c: char) -> bool {
    c == ' ' || c == '\n' || c == '\r' || c == '\t'
}

/// Where the next token begins: blanks and closed comments are passed over.
/// The flag is false when a comment that is not closed stops the walk there.
pub open spec fn skip_blank(t: Seq<char>, p: int) -> (int, bool)
    decreases t.len() - p,
{
    if p < 0 || p >= t.len() {
        (p, true)
    } else if is_blank(t[p]) {
        skip_blank(t, p + 1)
    } else if t[p] == '-' && p + 1 < t.len() && t[p + 1] == '-' {
        let c = comment_outcome(t, p + 2, p + 2);
        if !c.4 {
            (c.5, false)
        } else {
            proof {
                lemma_comment_advances(t, p + 2, p + 2);
            }
            skip_blank(t, c.5)
        }
    } else {
        (p, true)
    }
}

pub open spec fn spec_keyword(s: Seq<char>) -> Option<SpecToken> {
    if s == "and"@ { Some(SpecToken::OpLogicalAnd) }
    else if s == "break"@ { Some(SpecToken::Break) }
    else if s == "do"@ { Some(SpecToken::Do) }
    else if s == "else"@ { Some(SpecToken::Else) }
    else if s == "elseif"@ { Some(SpecToken::ElseIf) }
    else if s == "end"@ { Some(SpecToken::End) }
    else if s == "false"@ { Some(SpecToken::False) }
    else if s == "for"@ { Some(SpecToken::For) }
    else if s == "function"@ { Some(SpecToken::Function) }
    else if s == "goto"@ { Some(SpecToken::GoTo) }
    else if s == "if"@ { Some(SpecToken::If) }
    else if s == "in"@ { Some(SpecToken::In) }
    else if s == "local"@ { Some(SpecToken::Local) }
    else if s == "nil"@ { Some(SpecToken::Nil) }
    else if s == "not"@ { Some(SpecToken::OpLogicalNot) }
    else if s == "or"@ { Some(SpecToken::OpLogicalOr) }
    else if s == "repeat"@ { Some(SpecToken::Repeat) }
    else if s == "return"@ { Some(SpecToken::Return) }
    else if s == "then"@ { Some(SpecToken::Then) }
    else if s == "true"@ { Some(SpecToken::True) }
    else if s == "until"@ { Some(SpecToken::Until) }
    else if s == "while"@ { Some(SpecToken::While) }
    else { None }
}

/// Compares two strings character by character.
pub fn str_eq(a: &str, b: &str) -> (r: bool)
    ensures
        r == (a@ == b@),
{
    let n = a.unicode_len();
    if n != b.unicode_len() {
        return false;
    }
    let mut i: usize = 0;
    while i < n
        invariant
            n == a@.len(),
            n == b@.len(),
            i <= n,
            forall|k: int| 0 <= k < i ==> a@[k] == b@[k],
        decreases n - i,
    {
        if a.get_char(i) != b.get_char(i) {
            return false;
        }
        i = i + 1;
    }
    assert(a@ =~= b@);
    true
}

/// The keyword spelled by `s`, if it is one.
pub fn keyword(s: &str) -> (r: Option<Token>)
    ensures
        match (r, spec_keyword(s@)) {
            (Some(a), Some(b)) => a@ == b,
            (None, None) => true,
            _ => false,
        },
{
    if str_eq(s, "and") { Some(Token::OpLogicalAnd) }
    else if str_eq(s, "break") { Some(Token::Break) }
    else if str_eq(s, "do") { Some(Token::Do) }
    else if str_eq(s, "else") { Some(Token::Else) }
    else if str_eq(s, "elseif") { Some(Token::ElseIf) }
    else if str_eq(s, "end") { Some(Token::End) }
    else if str_eq(s, "false") { Some(Token::False) }
    else if str_eq(s, "for") { Some(Token::For) }
    else if str_eq(s, "function") { Some(Token::Function) }
    else if str_eq(s, "goto") { Some(Token::GoTo) }
    else if str_eq(s, "if") { Some(Token::If) }
    else if str_eq(s, "in") { Some(Token::In) }
    else if str_eq(s, "local") { Some(Token::Local) }
    else if str_eq(s, "nil") { Some(Token::Nil) }
    else if str_eq(s, "not") { Some(Token::OpLogicalNot) }
    else if str_eq(s, "or") { Some(Token::OpLogicalOr) }
    else if str_eq(s, "repeat") { Some(Token::Repeat) }
    else if str_eq(s, "return") { Some(Token::Return) }
    else if str_eq(s, "then") { Some(Token::Then) }
    else if str_eq(s, "true") { Some(Token::True) }
    else if str_eq(s, "until") { Some(Token::Until) }
    else if str_eq(s, "while") { Some(Token::While) }
    else { None }
}

/// A one-character or two-character token: `alt` when `second` follows, else `one`.
pub open spec fn pair_token(t: Seq<char>, q: int, second: char, alt: SpecToken, one: SpecToken) -> (SpecLex, int) {
    if q + 1 < t.len() && t[q + 1] == second {
        (SpecLex::Tok(q, alt, q + 2), q + 2)
    } else {
        (SpecLex::Tok(q, one, q + 1), q + 1)
    }
}

/// The token that begins at `q` (which holds neither a blank nor the start of a comment),
/// and the cursor after it.
pub open spec fn token_at(t: Seq<char>, q: int) -> (SpecLex, int) {
    let n = t.len() as int;
    let c = t[q];
    let single = |tok: SpecToken| (SpecLex::Tok(q, tok, q + 1), q + 1);
    if c == '^' { single(SpecToken::OpExponentiation) }
    else if c == '#' {
        if q + 1 < n && t[q + 1] == '!' {
            let sh = shebang_outcome(t, q + 2, q + 2);
            (SpecLex::Tok(q, SpecToken::SheBang(seq!['#', '!'] + sh.2), sh.1), sh.3)
        } else {
            single(SpecToken::OpLength)
        }
    }
    else if c == '*' { single(SpecToken::OpMultiplication) }
    else if c == '%' { single(SpecToken::OpModulo) }
    else if c == '/' { pair_token(t, q, '/', SpecToken::OpFloorDivision, SpecToken::OpDivision) }
    else if c == '+' { single(SpecToken::OpAddition) }
    else if c == '-' { single(SpecToken::Minus) }
    else if c == '.' {
        if q + 1 < n && t[q + 1] == '.' {
            if q + 2 < n && t[q + 2] == '.' {
                (SpecLex::Tok(q, SpecToken::VarArg, q + 3), q + 3)
            } else {
                (SpecLex::Tok(q, SpecToken::OpConcatenation, q + 2), q + 2)
            }
        } else if q + 1 < n && is_digit(t[q + 1]) {
            let f = float_outcome(t, q + 1, q);
            if f.1 {
                (SpecLex::Tok(q, SpecToken::Numeral(seq!['.'] + f.2), f.0), f.3)
            } else {
                (SpecLex::Error(LexicalError::UnexpectedEOF), f.3)
            }
        } else {
            single(SpecToken::Period)
        }
    }
    else if c == '<' {
        if q + 1 < n && t[q + 1] == '<' { (SpecLex::Tok(q, SpecToken::OpLeftShift, q + 2), q + 2) }
        else { pair_token(t, q, '=', SpecToken::OpLessOrEqual, SpecToken::OpLessThan) }
    }
    else if c == '>' {
        if q + 1 < n && t[q + 1] == '>' { (SpecLex::Tok(q, SpecToken::OpRightShift, q + 2), q + 2) }
        else { pair_token(t, q, '=', SpecToken::OpGreaterOrEqual, SpecToken::OpGreaterThan) }
    }
    else if c == '&' { single(SpecToken::OpBitwiseAnd) }
    else if c == '~' { pair_token(t, q, '=', SpecToken::OpInequality, SpecToken::Tilde) }
    else if c == '|' { single(SpecToken::OpBitwiseOr) }
    else if c == '=' { pair_token(t, q, '=', SpecToken::OpEquality, SpecToken::EqualsSign) }
    else if c == ';' { single(SpecToken::Semicolon) }
    else if c == ',' { single(SpecToken::Comma) }
    else if c == ':' { pair_token(t, q, ':', SpecToken::Label, SpecToken::Colon) }
    else if c == '(' { single(SpecToken::OpenRoundBracket) }
    else if c == ')' { single(SpecToken::CloseRoundBracket) }
    else if c == '{' { single(SpecToken::OpenCurlyBracket) }
    else if c == '}' { single(SpecToken::CloseCurlyBracket) }
    else if c == ']' { single(SpecToken::CloseSquareBracket) }
    else if c == '[' {
        if q + 1 < n && t[q + 1] == '=' {
            let (level, p2) = level_outcome(t, q + 1, q + 1);
            if p2 < n && t[p2] == '[' {
                let m = multiline_outcome(t, p2 + 1, p2 + 1, level);
                if m.2 {
                    (SpecLex::Tok(q, SpecToken::MultiLineStringLiteral(level as nat, m.3), m.1), m.4)
                } else {
                    (SpecLex::Error(LexicalError::UnexpectedEOF), m.4)
                }
            } else if p2 < n {
                (SpecLex::Error(LexicalError::UnrecognizedSymbol(p2 as usize, t[p2])), p2)
            } else {
                (SpecLex::Error(LexicalError::UnexpectedEOF), p2)
            }
        } else if q + 1 < n && t[q + 1] == '[' {
            let m = multiline_outcome(t, q + 2, q + 2, 0);
            if m.2 {
                (SpecLex::Tok(q, SpecToken::MultiLineStringLiteral(0, m.3), m.1), m.4)
            } else {
                (SpecLex::Error(LexicalError::UnexpectedEOF), m.4)
            }
        } else {
            single(SpecToken::OpenSquareBracket)
        }
    }
    else if c == '"' || c == '\'' {
        let s = quoted_outcome(t, q + 1, q, Stop::Quote(c), false);
        if s.2 {
            let tok = if c == '\'' { SpecToken::CharStringLiteral(s.3) } else { SpecToken::NormalStringLiteral(s.3) };
            (SpecLex::Tok(q, tok, s.1), s.4)
        } else {
            (SpecLex::Error(LexicalError::UnexpectedEOF), s.4)
        }
    }
    else if c == '0' && q + 1 < n && t[q + 1] == 'x' {
        let h = word_outcome(t, q + 2, q + 2, Stop::NonHexDigit);
        if h.1 {
            (SpecLex::Tok(q, SpecToken::Numeral(seq!['0', 'x'] + h.2), h.0), h.3)
        } else {
            (SpecLex::Error(LexicalError::UnexpectedEOF), h.3)
        }
    }
    else if is_digit(c) {
        let f = float_outcome(t, q + 1, q + 1);
        if f.1 {
            (SpecLex::Tok(q, SpecToken::Numeral(seq![c] + f.2), f.0), f.3)
        } else {
            (SpecLex::Error(LexicalError::UnexpectedEOF), f.3)
        }
    }
    else if is_alpha(c) || c == '_' {
        let w = word_outcome(t, q, q, Stop::NonWordChar);
        if w.1 {
            let tok = match spec_keyword(w.2) {
                Some(k) => k,
                None => SpecToken::Variable(w.2),
            };
            (SpecLex::Tok(q, tok, w.0), w.3)
        } else {
            (SpecLex::Error(LexicalError::UnexpectedEOF), w.3)
        }
    }
    else {
        (SpecLex::Error(LexicalError::UnrecognizedSymbol(q as usize, c)), q + 1)
    }
}

/// Whether an item handed out by the lexer is the step `lx` of the contracts.
pub open spec fn lex_matches(res: Result<(usize, Token, usize), LexicalError>, lx: SpecLex) -> bool {
    match (res, lx) {
        (Ok((l, tok, r)), SpecLex::Tok(sl, st, sr)) => l == sl && tok@ == st && r == sr,
        (Err(e), SpecLex::Error(se)) => e == se,
        _ => false,
    }
}

/// The Lua lexer: hands out tokens with their character spans, then one `EOF` token.
pub struct Lexer {
    chars: TChars,
    len: usize,
    at_end: bool,
}

impl Lexer {
    /// The lexer's record of the text length agrees with its cursor.
    pub closed spec fn wf(&self) -> bool {
        &&& self.len == self.chars.text().len()
        &&& self.len < usize::MAX / 4
        &&& 0 <= self.chars.index() <= self.chars.text().len()
    }

    pub closed spec fn text(&self) -> Seq<char> {
        self.chars.text()
    }

    pub closed spec fn index(&self) -> int {
        self.chars.index()
    }

    pub closed spec fn done(&self) -> bool {
        self.at_end
    }

    pub fn new(input: &str) -> (res: Lexer)
        requires
            input@.len() < usize::MAX / 4,
        ensures
            res.wf(),
            res.text() == input@,
            res.index() == 0,
            !res.done(),
    {
        let chars = TChars::new(input);
        let len = input.unicode_len();
        Lexer { chars, len, at_end: false }
    }

    fn consume_ok(&mut self, l: usize, tok: Token, r: usize) -> (res: Option<Result<(usize, Token, usize), LexicalError>>)
        requires
            old(self).wf(),
        ensures
            final(self).wf(),
            final(self).text() == old(self).text(),
            final(self).done() == old(self).done(),
            old(self).index() < old(self).text().len() ==> final(self).index() == old(self).index() + 1,
            res == Some(Ok::<(usize, Token, usize), LexicalError>((l, tok, r))),
    {
        self.chars.next();
        return Some(Ok((l, tok, r)));
    }
}


/// Two characters, then the rest of a string.
fn prefixed2(a: char, b: char, rest: &String) -> (r: String)
    ensures
        r@ == seq![a, b] + rest@,
{
    let mut s = String::new();
    push_char(&mut s, a);
    push_char(&mut s, b);
    s.append(rest.as_str());
    assert(s@ =~= seq![a, b] + rest@);
    s
}

/// One character, then the rest of a string.
fn prefixed1(a: char, rest: &String) -> (r: String)
    ensures
        r@ == seq![a] + rest@,
{
    let mut s = String::new();
    push_char(&mut s, a);
    s.append(rest.as_str());
    assert(s@ =~= seq![a] + rest@);
    s
}

impl Lexer {
    /// The next token, an error, the final `EOF`, or nothing once `EOF` has been handed out.
    pub fn next(&mut self) -> (res: Option<Result<(usize, Token, usize), LexicalError>>)
        requires
            old(self).wf(),
        ensures
            final(self).wf(),
            final(self).text() == old(self).text(),
            ({
                let t = old(self).text();
                let (q, ok) = skip_blank(t, old(self).index());
                if !ok {
                    &&& res == Some(Err::<(usize, Token, usize), LexicalError>(LexicalError::UnexpectedEOF))
                    &&& final(self).index() == q
                    &&& final(self).done() == old(self).done()
                } else if q >= t.len() {
                    &&& final(self).index() == q
                    &&& final(self).done()
                    &&& if old(self).done() {
                        res is None
                    } else {
                        res matches Some(Ok((l, tok, r))) && l == t.len() && r == t.len() && tok@ == SpecToken::EOF
                    }
                } else {
                    let (lx, np) = token_at(t, q);
                    &&& final(self).index() == np
                    &&& final(self).done() == old(self).done()
                    &&& res matches Some(r) && lex_matches(r, lx)
                }
            }),
    {
        let ghost t = self.text();
        let ghost p0 = self.index();
        proof { use_type_invariant(&self.chars); self.chars.lemma_inv(); }
        loop
            invariant
                self.wf(),
                self.text() == t,
                t == old(self).text(),
                p0 == old(self).index(),
                self.done() == old(self).done(),
                skip_blank(t, self.index()) == skip_blank(t, p0),
                0 <= self.index() <= t.len(),
            decreases t.len() - self.index(),
        {
            match self.chars.peek() {
                None => {
                    if !self.at_end {
                        self.at_end = true;
                        let index = self.len;
                        return Some(Ok((index, Token::EOF, index)));
                    }
                    return None;
                },
                Some((i, ch)) => {
                    if ch == ' ' || ch == '\n' || ch == '\r' || ch == '\t' {
                        self.chars.next();
                    } else if ch == '-' {
                        self.chars.next();
                        match self.chars.peek() {
                            Some((_, c2)) => {
                                if c2 == '-' {
                                    self.chars.next();
                                    proof { lemma_comment_advances(t, i + 2, i + 2); }
                                    let (_, _, _, _, succ) = get_comment_start_ends_and_type(&mut self.chars, i + 2);
                                    if !succ {
                                        return Some(Err(LexicalError::UnexpectedEOF));
                                    }
                                } else {
                                    return Some(Ok((i, Token::Minus, i + 1)));
                                }
                            },
                            None => return Some(Ok((i, Token::Minus, i + 1))),
                        }
                    } else {
                        let r = self.lex_token(i, ch);
                        proof { use_type_invariant(&self.chars); self.chars.lemma_inv(); }
                        return r;
                    }
                },
            }
        }
    }

    /// Reads the token that begins at the cursor, whose first character `ch` is at `i`.
    fn lex_token(&mut self, i: usize, ch: char) -> (res: Option<Result<(usize, Token, usize), LexicalError>>)
        requires
            old(self).wf(),
            old(self).index() == i,
            i < old(self).text().len(),
            old(self).text()[i as int] == ch,
            !is_blank(ch),
            !(ch == '-' && i + 1 < old(self).text().len() && old(self).text()[i + 1] == '-'),
        ensures
            final(self).len == old(self).len,
            final(self).text() == old(self).text(),
            final(self).done() == old(self).done(),
            ({
                let (lx, np) = token_at(old(self).text(), i as int);
                &&& final(self).index() == np
                &&& res matches Some(r) && lex_matches(r, lx)
            }),
    {
        let ghost t = self.text();
        if ch == '^' {
            return self.consume_ok(i, Token::OpExponentiation, i + 1);
        }
        if ch == '*' {
            return self.consume_ok(i, Token::OpMultiplication, i + 1);
        }
        if ch == '%' {
            return self.consume_ok(i, Token::OpModulo, i + 1);
        }
        if ch == '+' {
            return self.consume_ok(i, Token::OpAddition, i + 1);
        }
        if ch == '-' {
            return self.consume_ok(i, Token::Minus, i + 1);
        }
        if ch == '&' {
            return self.consume_ok(i, Token::OpBitwiseAnd, i + 1);
        }
        if ch == '|' {
            return self.consume_ok(i, Token::OpBitwiseOr, i + 1);
        }
        if ch == ';' {
            return self.consume_ok(i, Token::Semicolon, i + 1);
        }
        if ch == ',' {
            return self.consume_ok(i, Token::Comma, i + 1);
        }
        if ch == '(' {
            return self.consume_ok(i, Token::OpenRoundBracket, i + 1);
        }
        if ch == ')' {
            return self.consume_ok(i, Token::CloseRoundBracket, i + 1);
        }
        if ch == '{' {
            return self.consume_ok(i, Token::OpenCurlyBracket, i + 1);
        }
        if ch == '}' {
            return self.consume_ok(i, Token::CloseCurlyBracket, i + 1);
        }
        if ch == ']' {
            return self.consume_ok(i, Token::CloseSquareBracket, i + 1);
        }
        if ch == '#' || ch == '/' || ch == '<' || ch == '>' || ch == '~' || ch == '=' || ch == ':' || ch == '.' {
            return self.lex_punctuation(i, ch);
        }
        if ch == '[' {
            return self.lex_square(i);
        }
        if ch == '"' || ch == '\'' {
            self.chars.next();
            let (_, token_end, succ, val) = get_string_ends(&mut self.chars, ch, i);
            if succ {
                if ch == '\'' {
                    return Some(Ok((i, Token::CharStringLiteral(val), token_end)));
                } else {
                    return Some(Ok((i, Token::NormalStringLiteral(val), token_end)));
                }
            }
            return Some(Err(LexicalError::UnexpectedEOF));
        }
        if exec_is_digit(ch) {
            return self.lex_number(i, ch);
        }
        if exec_is_alpha(ch) || ch == '_' {
            let (end, succ, val) = get_variable_end(&mut self.chars, i);
            if succ {
                match keyword(val.as_str()) {
                    Some(w) => return Some(Ok((i, w, end))),
                    None => return Some(Ok((i, Token::Variable(val), end))),
                }
            }
            return Some(Err(LexicalError::UnexpectedEOF));
        }
        self.chars.next();
        Some(Err(LexicalError::UnrecognizedSymbol(i, ch)))
    }

    fn lex_punctuation(&mut self, i: usize, ch: char) -> (res: Option<Result<(usize, Token, usize), LexicalError>>)
        requires
            old(self).wf(),
            old(self).index() == i,
            i < old(self).text().len(),
            old(self).text()[i as int] == ch,
            ch == '#' || ch == '/' || ch == '<' || ch == '>' || ch == '~' || ch == '=' || ch == ':' || ch == '.',
        ensures
            final(self).len == old(self).len,
            final(self).text() == old(self).text(),
            final(self).done() == old(self).done(),
            ({
                let (lx, np) = token_at(old(self).text(), i as int);
                &&& final(self).index() == np
                &&& res matches Some(r) && lex_matches(r, lx)
            }),
    {
        self.chars.next();
        let next = self.chars.peek();
        let c2 = match next {
            Some((_, c)) => c,
            None => ' ',
        };
        let has = next.is_some();
        if ch == '#' {
            if has && c2 == '!' {
                self.chars.next();
                let (_, end, val) = get_shebang_ends(&mut self.chars, i + 2);
                let val = prefixed2('#', '!', &val);
                return Some(Ok((i, Token::SheBang(val), end)));
            }
            return Some(Ok((i, Token::OpLength, i + 1)));
        }
        if ch == '/' {
            if has && c2 == '/' {
                return self.consume_ok(i, Token::OpFloorDivision, i + 2);
            }
            return Some(Ok((i, Token::OpDivision, i + 1)));
        }
        if ch == '<' {
            if has && c2 == '<' {
                return self.consume_ok(i, Token::OpLeftShift, i + 2);
            }
            if has && c2 == '=' {
                return self.consume_ok(i, Token::OpLessOrEqual, i + 2);
            }
            return Some(Ok((i, Token::OpLessThan, i + 1)));
        }
        if ch == '>' {
            if has && c2 == '>' {
                return self.consume_ok(i, Token::OpRightShift, i + 2);
            }
            if has && c2 == '=' {
                return self.consume_ok(i, Token::OpGreaterOrEqual, i + 2);
            }
            return Some(Ok((i, Token::OpGreaterThan, i + 1)));
        }
        if ch == '~' {
            if has && c2 == '=' {
                return self.consume_ok(i, Token::OpInequality, i + 2);
            }
            return Some(Ok((i, Token::Tilde, i + 1)));
        }
        if ch == '=' {
            if has && c2 == '=' {
                return self.consume_ok(i, Token::OpEquality, i + 2);
            }
            return Some(Ok((i, Token::EqualsSign, i + 1)));
        }
        if ch == ':' {
            if has && c2 == ':' {
                return self.consume_ok(i, Token::Label, i + 2);
            }
            return Some(Ok((i, Token::Colon, i + 1)));
        }
        // ch == '.'
        if has && c2 == '.' {
            self.chars.next();
            match self.chars.peek() {
                Some((_, c3)) => {
                    if c3 == '.' {
                        return self.consume_ok(i, Token::VarArg, i + 3);
                    }
                },
                None => {},
            }
            return Some(Ok((i, Token::OpConcatenation, i + 2)));
        }
        if has && exec_is_digit(c2) {
            let (end, succ, val) = get_float_end(&mut self.chars, i);
            let val = prefixed1('.', &val);
            if succ {
                return Some(Ok((i, Token::Numeral(val), end)));
            }
            return Some(Err(LexicalError::UnexpectedEOF));
        }
        Some(Ok((i, Token::Period, i + 1)))
    }

    fn lex_square(&mut self, token_start: usize) -> (res: Option<Result<(usize, Token, usize), LexicalError>>)
        requires
            old(self).wf(),
            old(self).index() == token_start,
            token_start < old(self).text().len(),
            old(self).text()[token_start as int] == '[',
        ensures
            final(self).len == old(self).len,
            final(self).text() == old(self).text(),
            final(self).done() == old(self).done(),
            ({
                let (lx, np) = token_at(old(self).text(), token_start as int);
                &&& final(self).index() == np
                &&& res matches Some(r) && lex_matches(r, lx)
            }),
    {
        self.chars.next();
        match self.chars.peek() {
            Some((level_start, c1)) => {
                if c1 == '=' {
                    let level = get_multiline_string_level(&mut self.chars, level_start);
                    match self.chars.peek() {
                        Some((square_2_start, c2)) => {
                            proof { use_type_invariant(&self.chars); self.chars.lemma_inv(); }
                            if c2 == '[' {
                                self.chars.next();
                                let text_start = square_2_start + 1;
                                let (_, token_end, succ, val) = get_multiline_string_ends(&mut self.chars, level, text_start);
                                if succ {
                                    return Some(Ok((token_start, Token::MultiLineStringLiteral(level, val), token_end)));
                                }
                                return Some(Err(LexicalError::UnexpectedEOF));
                            }
                            return Some(Err(LexicalError::UnrecognizedSymbol(square_2_start, c2)));
                        },
                        None => return Some(Err(LexicalError::UnexpectedEOF)),
                    }
                } else if c1 == '[' {
                    self.chars.next();
                    let text_start = level_start + 1;
                    let (_, token_end, succ, val) = get_multiline_string_ends(&mut self.chars, 0, text_start);
                    if succ {
                        return Some(Ok((token_start, Token::MultiLineStringLiteral(0, val), token_end)));
                    }
                    return Some(Err(LexicalError::UnexpectedEOF));
                }
            },
            None => {},
        }
        Some(Ok((token_start, Token::OpenSquareBracket, token_start + 1)))
    }

    fn lex_number(&mut self, i: usize, ch: char) -> (res: Option<Result<(usize, Token, usize), LexicalError>>)
        requires
            old(self).wf(),
            old(self).index() == i,
            i < old(self).text().len(),
            old(self).text()[i as int] == ch,
            is_digit(ch),
        ensures
            final(self).len == old(self).len,
            final(self).text() == old(self).text(),
            final(self).done() == old(self).done(),
            ({
                let (lx, np) = token_at(old(self).text(), i as int);
                &&& final(self).index() == np
                &&& res matches Some(r) && lex_matches(r, lx)
            }),
    {
        self.chars.next();
        if ch == '0' {
            match self.chars.peek() {
                Some((_, c2)) => {
                    if c2 == 'x' {
                        self.chars.next();
                        let (end, succ, val) = get_hex_integer_end(&mut self.chars, i + 2);
                        let val = prefixed2('0', 'x', &val);
                        if succ {
                            return Some(Ok((i, Token::Numeral(val), end)));
                        }
                        return Some(Err(LexicalError::UnexpectedEOF));
                    }
                },
                None => {},
            }
        }
        let (end, succ, val) = get_float_end(&mut self.chars, i + 1);
        let val = prefixed1(ch, &val);
        if succ {
            return Some(Ok((i, Token::Numeral(val), end)));
        }
        Some(Err(LexicalError::UnexpectedEOF))
    }
}


pub proof fn lemma_skip_blank(t: Seq<char>, p: int)
    requires
        0 <= p <= t.len(),
    ensures
        p <= skip_blank(t, p).0 <= t.len(),
        !skip_blank(t, p).1 ==> p < skip_blank(t, p).0,
    decreases t.len() - p,
{
    if p < t.len() {
        if is_blank(t[p]) {
            lemma_skip_blank(t, p + 1);
        } else if t[p] == '-' && p + 1 < t.len() && t[p + 1] == '-' {
            lemma_comment_advances(t, p + 2, p + 2);
            let c = comment_outcome(t, p + 2, p + 2);
            if c.4 {
                lemma_skip_blank(t, c.5);
            }
        }
    }
}

/// Where the lexer stops after skipping blanks and comments, a second skip reads nothing
/// more: so a call made after the lexer has handed out `EOF` finds the end again and,
/// the lexer being done, hands out nothing.
pub proof fn lemma_skip_blank_stays(t: Seq<char>, p: int)
    requires
        0 <= p <= t.len(),
        skip_blank(t, p).1,
    ensures
        skip_blank(t, skip_blank(t, p).0) == skip_blank(t, p),
    decreases t.len() - p,
{
    if p < t.len() {
        if is_blank(t[p]) {
            lemma_skip_blank_stays(t, p + 1);
        } else if t[p] == '-' && p + 1 < t.len() && t[p + 1] == '-' {
            lemma_comment_advances(t, p + 2, p + 2);
            let c = comment_outcome(t, p + 2, p + 2);
            if c.4 {
                lemma_skip_blank_stays(t, c.5);
            }
        }
    }
}

pub proof fn lemma_token_advances(t: Seq<char>, q: int)
    requires
        0 <= q < t.len(),
    ensures
        q < token_at(t, q).1 <= t.len(),
{
    let n = t.len() as int;
    if q + 1 <= n {
        lemma_seek_advances(t, q + 1, q, Stop::NonFloatChar);
        lemma_seek_advances(t, q + 1, q + 1, Stop::NonFloatChar);
        lemma_seek_advances(t, q + 1, q, Stop::Quote(t[q]));
        lemma_seek_advances(t, q, q, Stop::NonWordChar);
    }
    if q + 2 <= n {
        lemma_seek_advances(t, q + 2, q + 2, Stop::NewLine);
        lemma_seek_advances(t, q + 2, q + 2, Stop::NonHexDigit);
        lemma_multiline_advances(t, q + 2, q + 2, 0);
        lemma_seek_advances(t, q + 1, q + 1, Stop::NonEquals);
        let (level, p2) = level_outcome(t, q + 1, q + 1);
        if p2 < n {
            lemma_multiline_advances(t, p2 + 1, p2 + 1, level);
        }
    }
    let f = seek_outcome(t, q + 1, q, Stop::NonFloatChar);
    if f.3 + 2 <= n {
        lemma_seek_advances(t, f.3 + 1, f.3 + 1, Stop::NonDigit);
        lemma_seek_advances(t, f.3 + 2, f.3 + 2, Stop::NonDigit);
    }
    if is_alpha(t[q]) || t[q] == '_' {
        assert(scan_from(t, q, q, Stop::NonWordChar) == scan_from(t, q, q + 1, Stop::NonWordChar));
        lemma_scan_from(t, q, q + 1, Stop::NonWordChar);
    }
    let g = seek_outcome(t, q + 1, q + 1, Stop::NonFloatChar);
    if g.3 + 2 <= n {
        lemma_seek_advances(t, g.3 + 1, g.3 + 1, Stop::NonDigit);
        lemma_seek_advances(t, g.3 + 2, g.3 + 2, Stop::NonDigit);
    }
}

/// The steps that the lexer takes from `p` on, as `next` hands them out: each token or
/// error in turn, then the final `EOF` unless it has been handed out already.
pub open spec fn lex_steps(t: Seq<char>, p: int, done: bool) -> Seq<SpecLex>
    decreases t.len() - p,
{
    if p < 0 || p > t.len() {
        Seq::empty()
    } else {
        let (q, ok) = skip_blank(t, p);
        proof {
            lemma_skip_blank(t, p);
        }
        if !ok {
            seq![SpecLex::Error(LexicalError::UnexpectedEOF)] + lex_steps(t, q, done)
        } else if q >= t.len() {
            if done {
                Seq::empty()
            } else {
                seq![SpecLex::Tok(t.len() as int, SpecToken::EOF, t.len() as int)]
            }
        } else {
            proof {
                lemma_token_advances(t, q);
            }
            seq![token_at(t, q).0] + lex_steps(t, token_at(t, q).1, done)
        }
    }
}

/// Whether a step of the lexer hands out the `EOF` token.
pub open spec fn is_eof_step(s: SpecLex) -> bool {
    s matches SpecLex::Tok(_, SpecToken::EOF, _)
}

proof fn lemma_token_not_eof(t: Seq<char>, q: int)
    requires
        0 <= q < t.len(),
    ensures
        !is_eof_step(token_at(t, q).0),
{
}

/// However the text reads, a fresh lexer hands out `EOF` exactly once, as its last item,
/// after finitely many steps; a lexer that has handed it out hands out no `EOF` again.
pub proof fn lemma_eof_once(t: Seq<char>, p: int)
    requires
        0 <= p <= t.len(),
    ensures
        lex_steps(t, p, false).len() > 0,
        lex_steps(t, p, false).last() == SpecLex::Tok(t.len() as int, SpecToken::EOF, t.len() as int),
        forall|i: int| 0 <= i < lex_steps(t, p, false).len() - 1 ==> !is_eof_step(#[trigger] lex_steps(t, p, false)[i]),
        forall|i: int| 0 <= i < lex_steps(t, p, true).len() ==> !is_eof_step(#[trigger] lex_steps(t, p, true)[i]),
    decreases t.len() - p,
{
    lemma_skip_blank(t, p);
    let (q, ok) = skip_blank(t, p);
    if !ok {
        lemma_eof_once(t, q);
        let e = seq![SpecLex::Error(LexicalError::UnexpectedEOF)];
        assert(lex_steps(t, p, false) == e + lex_steps(t, q, false));
        assert(lex_steps(t, p, true) == e + lex_steps(t, q, true));
        assert forall|i: int| 0 <= i < lex_steps(t, p, false).len() - 1 implies !is_eof_step(#[trigger] lex_steps(t, p, false)[i]) by {
            if i > 0 {
                assert(lex_steps(t, p, false)[i] == lex_steps(t, q, false)[i - 1]);
            }
        }
        assert forall|i: int| 0 <= i < lex_steps(t, p, true).len() implies !is_eof_step(#[trigger] lex_steps(t, p, true)[i]) by {
            if i > 0 {
                assert(lex_steps(t, p, true)[i] == lex_steps(t, q, true)[i - 1]);
            }
        }
    } else if q >= t.len() {
        assert(lex_steps(t, p, true).len() == 0);
    } else {
        lemma_token_advances(t, q);
        lemma_token_not_eof(t, q);
        let r = token_at(t, q).1;
        lemma_eof_once(t, r);
        let e = seq![token_at(t, q).0];
        assert(lex_steps(t, p, false) == e + lex_steps(t, r, false));
        assert(lex_steps(t, p, true) == e + lex_steps(t, r, true));
        assert forall|i: int| 0 <= i < lex_steps(t, p, false).len() - 1 implies !is_eof_step(#[trigger] lex_steps(t, p, false)[i]) by {
            if i > 0 {
                assert(lex_steps(t, p, false)[i] == lex_steps(t, r, false)[i - 1]);
            }
        }
        assert forall|i: int| 0 <= i < lex_steps(t, p, true).len() implies !is_eof_step(#[trigger] lex_steps(t, p, true)[i]) by {
            if i > 0 {
                assert(lex_steps(t, p, true)[i] == lex_steps(t, r, true)[i - 1]);
            }
        }
    }
}

impl Lexer {
    /// Every item the lexer hands out, up to and including the final `EOF`.
    pub fn collect(self) -> (res: Vec<Result<(usize, Token, usize), LexicalError>>)
        requires
            self.wf(),
        ensures
            ({
                let steps = lex_steps(self.text(), self.index(), self.done());
                &&& res@.len() == steps.len()
                &&& forall|i: int| 0 <= i < res@.len() ==> lex_matches(#[trigger] res@[i], steps[i])
            }),
    {
        let mut lexer = self;
        let mut out: Vec<Result<(usize, Token, usize), LexicalError>> = Vec::new();
        let ghost t = lexer.text();
        let ghost all = lex_steps(t, self.index(), self.done());
        loop
            invariant
                lexer.wf(),
                lexer.text() == t,
                0 <= lexer.index() <= t.len(),
                out@.len() + lex_steps(t, lexer.index(), lexer.done()).len() == all.len(),
                forall|i: int| 0 <= i < out@.len() ==> lex_matches(#[trigger] out@[i], all[i]),
                forall|i: int| 0 <= i < lex_steps(t, lexer.index(), lexer.done()).len()
                    ==> #[trigger] lex_steps(t, lexer.index(), lexer.done())[i] == all[out@.len() + i],
                all == lex_steps(t, self.index(), self.done()),
                t == self.text(),
            decreases (t.len() - lexer.index()) * 2 + (if lexer.done() { 0int } else { 1int }),
        {
            let ghost p = lexer.index();
            let ghost d = lexer.done();
            proof {
                lemma_skip_blank(t, p);
                let q = skip_blank(t, p).0;
                if q < t.len() {
                    lemma_token_advances(t, q);
                }
            }
            match lexer.next() {
                Some(item) => {
                    proof {
                        let rest = lex_steps(t, p, d);
                        let rest2 = lex_steps(t, lexer.index(), lexer.done());
                        assert(rest.len() > 0);
                        assert(rest =~= seq![rest[0]] + rest2);
                        assert(lex_matches(item, rest[0]));
                    }
                    out.push(item);
                    proof {
                        let rest2 = lex_steps(t, lexer.index(), lexer.done());
                        assert forall|i: int| 0 <= i < out@.len() implies lex_matches(#[trigger] out@[i], all[i]) by {
                            if i == out@.len() - 1 {
                                assert(all[i] == lex_steps(t, p, d)[0]);
                            }
                        }
                        assert forall|i: int| 0 <= i < rest2.len() implies #[trigger] rest2[i] == all[out@.len() + i] by {
                            assert(rest2[i] == lex_steps(t, p, d)[i + 1]);
                        }
                    }
                },
                None => {
                    proof {
                        assert(lex_steps(t, p, d).len() == 0);
                    }
                    return out;
                },
            }
        }
    }
}

} // verus!
