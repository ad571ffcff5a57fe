use vstd::prelude::*;

use super::lua_lexer::{SpecToken, Token};
use super::lua_parser::{binop_priority, lexed, lua_lex};

verus! {

// The Lua grammar that the parser reads, as a recognizer over the kinds of the tokens.
// Each function takes the token kinds and a position and gives the position after the
// phrase that starts there, or `None` where no such phrase starts there. Positions past
// the end read as `EOF`; a phrase ends strictly after it starts and before the last token.

/// The kinds of the tokens of a stream.
pub open spec fn kinds(toks: Seq<(usize, Token, usize)>) -> Seq<SpecToken> {
    toks.map_values(|x: (usize, Token, usize)| x.1@)
}

/// The kinds of a stream are the views of its tokens.
pub broadcast proof fn lemma_tok_kinds(toks: Seq<(usize, Token, usize)>, i: int)
    requires
        0 <= i < toks.len(),
    ensures
        #[trigger] tok(kinds(toks), i) == toks[i].1@,
{
}

pub broadcast proof fn lemma_kinds_len(toks: Seq<(usize, Token, usize)>)
    ensures
        #[trigger] kinds(toks).len() == toks.len(),
{
}

/// The kind of the token at `p`; `EOF` past the end.
pub open spec fn tok(s: Seq<SpecToken>, p: int) -> SpecToken {
    if 0 <= p < s.len() {
        s[p]
    } else {
        SpecToken::EOF
    }
}

/// Whether a phrase that starts at `p` and ends at `q` stays inside the stream.
pub open spec fn inside(s: Seq<SpecToken>, p: int, q: int) -> bool {
    p < q < s.len()
}

/// The end of the token `want` at `p`.
pub open spec fn g_expect(s: Seq<SpecToken>, p: int, want: SpecToken) -> Option<int> {
    if tok(s, p) == want && p + 1 < s.len() {
        Some(p + 1)
    } else {
        None
    }
}

/// A name.
pub open spec fn g_name(s: Seq<SpecToken>, p: int) -> Option<int> {
    if tok(s, p) is Variable && p + 1 < s.len() {
        Some(p + 1)
    } else {
        None
    }
}

/// A string literal.
pub open spec fn is_string(t: SpecToken) -> bool {
    t is NormalStringLiteral || t is CharStringLiteral || t is MultiLineStringLiteral
}

/// A literal that stands alone: `nil`, `true`, `false`, `...`, a number or a string.
pub open spec fn is_atom(t: SpecToken) -> bool {
    t is Nil || t is True || t is False || t is VarArg || t is Numeral || is_string(t)
}

/// The tokens before which a block ends.
pub open spec fn ends_block_kind(t: SpecToken) -> bool {
    t is EOF || t is End || t is Else || t is ElseIf || t is Until
}

/// The unary operators.
pub open spec fn is_unary(t: SpecToken) -> bool {
    t is OpLogicalNot || t is Minus || t is OpLength || t is Tilde
}

/// `namelist ::= Name {',' Name}`
pub open spec fn g_name_list(s: Seq<SpecToken>, p: int) -> Option<int>
    decreases s.len() - p,
{
    match g_name(s, p) {
        Some(p1) => if !inside(s, p, p1) {
            None
        } else if tok(s, p1) is Comma {
            g_name_list(s, p1 + 1)
        } else {
            Some(p1)
        },
        None => None,
    }
}

/// `parlist ::= namelist [',' '...'] | '...'`
pub open spec fn g_par_list(s: Seq<SpecToken>, p: int) -> Option<int>
    decreases s.len() - p,
{
    if tok(s, p) is VarArg {
        if p + 1 < s.len() { Some(p + 1) } else { None }
    } else {
        match g_name(s, p) {
            Some(p1) => if !inside(s, p, p1) {
                None
            } else if tok(s, p1) is Comma {
                g_par_list(s, p1 + 1)
            } else {
                Some(p1)
            },
            None => None,
        }
    }
}

/// `funcname ::= Name {'.' Name} [':' Name]`
pub open spec fn g_func_name(s: Seq<SpecToken>, p: int) -> Option<int>
    decreases s.len() - p,
{
    match g_name(s, p) {
        Some(p1) => if !inside(s, p, p1) {
            None
        } else if tok(s, p1) is Period {
            g_func_name(s, p1 + 1)
        } else if tok(s, p1) is Colon {
            g_name(s, p1 + 1)
        } else {
            Some(p1)
        },
        None => None,
    }
}

/// An expression whose binary operators bind tighter than `limit`; a unary operator may
/// start it only where `allow_unary`.
pub open spec fn g_subexp(s: Seq<SpecToken>, p: int, limit: int, allow_unary: bool) -> Option<int>
    decreases s.len() - p, 23int,
{
    if p < 0 || p >= s.len() {
        None
    } else {
        let first = if is_unary(tok(s, p)) {
            if allow_unary { g_subexp(s, p + 1, 12, false) } else { None }
        } else {
            g_simpleexp(s, p)
        };
        match first {
            Some(p1) => if inside(s, p, p1) { g_binary_rest(s, p1, limit) } else { None },
            None => None,
        }
    }
}

/// The binary operators and right operands that follow an operand at `p`, as long as they
/// bind tighter than `limit`.
pub open spec fn g_binary_rest(s: Seq<SpecToken>, p: int, limit: int) -> Option<int>
    decreases s.len() - p, 23int,
{
    if p < 0 || p >= s.len() {
        None
    } else {
        match binop_priority(tok(s, p)) {
            Some((left, right)) => if left <= limit {
                Some(p)
            } else {
                match g_subexp(s, p + 1, right, true) {
                    Some(p2) => if inside(s, p + 1, p2) { g_binary_rest(s, p2, limit) } else { None },
                    None => None,
                }
            },
            None => Some(p),
        }
    }
}

/// `exp`
pub open spec fn g_exp(s: Seq<SpecToken>, p: int) -> Option<int>
    decreases s.len() - p, 24int,
{
    g_subexp(s, p, 0, true)
}

/// `explist ::= exp {',' exp}`
pub open spec fn g_exp_list(s: Seq<SpecToken>, p: int) -> Option<int>
    decreases s.len() - p, 25int,
{
    match g_exp(s, p) {
        Some(p1) => if !inside(s, p, p1) {
            None
        } else if tok(s, p1) is Comma {
            g_exp_list(s, p1 + 1)
        } else {
            Some(p1)
        },
        None => None,
    }
}

/// `field ::= '[' exp ']' '=' exp | Name '=' exp | exp`
pub open spec fn g_field(s: Seq<SpecToken>, p: int) -> Option<int>
    decreases s.len() - p, 26int,
{
    if p < 0 || p >= s.len() {
        None
    } else if tok(s, p) is OpenSquareBracket {
        match g_exp(s, p + 1) {
            Some(p2) => if !inside(s, p + 1, p2) {
                None
            } else {
                match g_expect(s, p2, SpecToken::CloseSquareBracket) {
                    Some(p3) => match g_expect(s, p3, SpecToken::EqualsSign) {
                        Some(p4) => g_exp(s, p4),
                        None => None,
                    },
                    None => None,
                }
            },
            None => None,
        }
    } else if tok(s, p) is Variable && tok(s, p + 1) is EqualsSign {
        g_exp(s, p + 2)
    } else {
        g_exp(s, p)
    }
}

/// `fieldlist ::= field {fieldsep field} [fieldsep]`, up to the closing `}`.
pub open spec fn g_fields(s: Seq<SpecToken>, p: int) -> Option<int>
    decreases s.len() - p, 27int,
{
    match g_field(s, p) {
        Some(p1) => if !inside(s, p, p1) {
            None
        } else if tok(s, p1) is Comma || tok(s, p1) is Semicolon {
            if tok(s, p1 + 1) is CloseCurlyBracket {
                Some(p1 + 1)
            } else {
                g_fields(s, p1 + 1)
            }
        } else {
            Some(p1)
        },
        None => None,
    }
}

/// `tableconstructor ::= '{' [fieldlist] '}'`
pub open spec fn g_table(s: Seq<SpecToken>, p: int) -> Option<int>
    decreases s.len() - p, 19int,
{
    match g_expect(s, p, SpecToken::OpenCurlyBracket) {
        Some(p1) => if tok(s, p1) is CloseCurlyBracket {
            if p1 + 1 < s.len() { Some(p1 + 1) } else { None }
        } else {
            match g_fields(s, p1) {
                Some(p2) => if inside(s, p1, p2) { g_expect(s, p2, SpecToken::CloseCurlyBracket) } else { None },
                None => None,
            }
        },
        None => None,
    }
}

/// `funcbody ::= '(' [parlist] ')' block end`
pub open spec fn g_func_body(s: Seq<SpecToken>, p: int) -> Option<int>
    decreases s.len() - p, 18int,
{
    match g_expect(s, p, SpecToken::OpenRoundBracket) {
        Some(p1) => {
            let params = if tok(s, p1) is CloseRoundBracket { Some(p1) } else { g_par_list(s, p1) };
            match params {
                Some(p2) => if p1 <= p2 < s.len() {
                    match g_expect(s, p2, SpecToken::CloseRoundBracket) {
                        Some(p3) => match g_block(s, p3) {
                            Some(p4) => if p3 <= p4 < s.len() { g_expect(s, p4, SpecToken::End) } else { None },
                            None => None,
                        },
                        None => None,
                    }
                } else {
                    None
                },
                None => None,
            }
        },
        None => None,
    }
}

/// `args ::= '(' [explist] ')' | tableconstructor | LiteralString`
pub open spec fn g_args(s: Seq<SpecToken>, p: int) -> Option<int>
    decreases s.len() - p, 20int,
{
    if p < 0 || p >= s.len() {
        None
    } else if tok(s, p) is OpenRoundBracket {
        if tok(s, p + 1) is CloseRoundBracket {
            if p + 2 < s.len() { Some(p + 2) } else { None }
        } else {
            match g_exp_list(s, p + 1) {
                Some(p2) => if inside(s, p + 1, p2) { g_expect(s, p2, SpecToken::CloseRoundBracket) } else { None },
                None => None,
            }
        }
    } else if tok(s, p) is OpenCurlyBracket {
        g_table(s, p)
    } else if is_string(tok(s, p)) && p + 1 < s.len() {
        Some(p + 1)
    } else {
        None
    }
}

/// A suffix of a prefix expression: `'.' Name`, `'[' exp ']'`, `':' Name args` or `args`.
/// `Some(None)` where none starts at `p`; else its end and whether it is a call.
pub open spec fn g_suffix(s: Seq<SpecToken>, p: int) -> Option<Option<(int, bool)>>
    decreases s.len() - p, 21int,
{
    if p < 0 || p >= s.len() {
        None
    } else {
        let t = tok(s, p);
        if t is Period {
            match g_name(s, p + 1) {
                Some(p2) => Some(Some((p2, false))),
                None => None,
            }
        } else if t is OpenSquareBracket {
            match g_exp(s, p + 1) {
                Some(p2) => if inside(s, p + 1, p2) {
                    match g_expect(s, p2, SpecToken::CloseSquareBracket) {
                        Some(p3) => Some(Some((p3, false))),
                        None => None,
                    }
                } else {
                    None
                },
                None => None,
            }
        } else if t is Colon {
            match g_name(s, p + 1) {
                Some(p2) => match g_args(s, p2) {
                    Some(p3) => Some(Some((p3, true))),
                    None => None,
                },
                None => None,
            }
        } else if t is OpenRoundBracket || t is OpenCurlyBracket || is_string(t) {
            match g_args(s, p) {
                Some(p1) => Some(Some((p1, true))),
                None => None,
            }
        } else {
            Some(None)
        }
    }
}

/// The suffixes from `p` on: their end, whether there is any, and whether the last is a call.
pub open spec fn g_suffixes(s: Seq<SpecToken>, p: int, any: bool, call: bool) -> Option<(int, bool, bool)>
    decreases s.len() - p, 22int,
{
    if p < 0 || p >= s.len() {
        None
    } else {
        match g_suffix(s, p) {
            Some(Some((p2, c))) => if inside(s, p, p2) { g_suffixes(s, p2, true, c) } else { None },
            Some(None) => Some((p, any, call)),
            None => None,
        }
    }
}

/// `prefixexp {suffix}`, where a prefix expression is a name or a bracketed expression:
/// its end, whether it has suffixes, whether the last is a call, and whether it is bracketed.
pub open spec fn g_suffixed(s: Seq<SpecToken>, p: int) -> Option<(int, bool, bool, bool)>
    decreases s.len() - p, 21int,
{
    if p < 0 || p >= s.len() {
        None
    } else {
        let bracketed = tok(s, p) is OpenRoundBracket;
        let primary = if bracketed {
            match g_exp(s, p + 1) {
                Some(p2) => if inside(s, p + 1, p2) { g_expect(s, p2, SpecToken::CloseRoundBracket) } else { None },
                None => None,
            }
        } else {
            g_name(s, p)
        };
        match primary {
            Some(p1) => if inside(s, p, p1) {
                match g_suffixes(s, p1, false, false) {
                    Some((q, any, call)) => Some((q, any, call, bracketed)),
                    None => None,
                }
            } else {
                None
            },
            None => None,
        }
    }
}

/// `simpleexp`: a literal, a table, a function, or a suffixed expression.
pub open spec fn g_simpleexp(s: Seq<SpecToken>, p: int) -> Option<int>
    decreases s.len() - p, 22int,
{
    if p < 0 || p >= s.len() {
        None
    } else if is_atom(tok(s, p)) {
        if p + 1 < s.len() { Some(p + 1) } else { None }
    } else if tok(s, p) is OpenCurlyBracket {
        g_table(s, p)
    } else if tok(s, p) is Function {
        g_func_body(s, p + 1)
    } else {
        match g_suffixed(s, p) {
            Some((q, _, _, _)) => Some(q),
            None => None,
        }
    }
}

/// `block ::= {stat} [retstat]`
pub open spec fn g_block(s: Seq<SpecToken>, p: int) -> Option<int>
    decreases s.len() - p, 31int,
{
    if p < 0 || p >= s.len() {
        None
    } else if tok(s, p) is Return {
        g_retstat(s, p)
    } else if ends_block_kind(tok(s, p)) {
        Some(p)
    } else {
        match g_statement(s, p) {
            Some(p1) => if inside(s, p, p1) { g_block(s, p1) } else { None },
            None => None,
        }
    }
}

/// `retstat ::= return [explist] [';']`
pub open spec fn g_retstat(s: Seq<SpecToken>, p: int) -> Option<int>
    decreases s.len() - p, 29int,
{
    match g_expect(s, p, SpecToken::Return) {
        Some(p1) => if tok(s, p1) is Semicolon {
            if p1 + 1 < s.len() { Some(p1 + 1) } else { None }
        } else if ends_block_kind(tok(s, p1)) {
            Some(p1)
        } else {
            match g_exp_list(s, p1) {
                Some(p2) => if !inside(s, p1, p2) {
                    None
                } else if tok(s, p2) is Semicolon {
                    if p2 + 1 < s.len() { Some(p2 + 1) } else { None }
                } else {
                    Some(p2)
                },
                None => None,
            }
        },
        None => None,
    }
}

/// The `elseif` parts from `p` on.
pub open spec fn g_elseifs(s: Seq<SpecToken>, p: int) -> Option<int>
    decreases s.len() - p, 27int,
{
    if p < 0 || p >= s.len() {
        None
    } else if !(tok(s, p) is ElseIf) {
        Some(p)
    } else {
        match g_exp(s, p + 1) {
            Some(q2) => if !inside(s, p + 1, q2) {
                None
            } else {
                match g_expect(s, q2, SpecToken::Then) {
                    Some(q3) => match g_block(s, q3) {
                        Some(q4) => if q3 <= q4 < s.len() { g_elseifs(s, q4) } else { None },
                        None => None,
                    },
                    None => None,
                }
            },
            None => None,
        }
    }
}

/// What follows the first block of an `if` statement at `p4`: the `elseif` parts, an
/// optional `else` block, and `end`.
pub open spec fn g_if_tail(s: Seq<SpecToken>, p4: int) -> Option<int>
    decreases s.len() - p4, 28int,
{
    match g_elseifs(s, p4) {
        Some(p) => if !(p4 <= p < s.len()) {
            None
        } else {
            let p5 = if tok(s, p) is Else { g_block(s, p + 1) } else { Some(p) };
            match p5 {
                Some(q) => if p <= q < s.len() { g_expect(s, q, SpecToken::End) } else { None },
                None => None,
            }
        },
        None => None,
    }
}

/// `if exp then block {elseif exp then block} [else block] end`
pub open spec fn g_if(s: Seq<SpecToken>, p: int) -> Option<int>
    decreases s.len() - p, 29int,
{
    match g_expect(s, p, SpecToken::If) {
        Some(p1) => match g_exp(s, p1) {
            Some(p2) => if !inside(s, p1, p2) {
                None
            } else {
                match g_expect(s, p2, SpecToken::Then) {
                    Some(p3) => match g_block(s, p3) {
                        Some(p4) => if p3 <= p4 < s.len() { g_if_tail(s, p4) } else { None },
                        None => None,
                    },
                    None => None,
                }
            },
            None => None,
        },
        None => None,
    }
}

/// `for Name '=' exp ',' exp [',' exp] do block end` and `for namelist in explist do block end`
pub open spec fn g_for(s: Seq<SpecToken>, p: int) -> Option<int>
    decreases s.len() - p, 28int,
{
    match g_expect(s, p, SpecToken::For) {
        Some(p1) => if p1 + 1 < s.len() && tok(s, p1 + 1) is EqualsSign {
            match g_name(s, p1) {
                Some(p2) => match g_exp(s, p2 + 1) {
                    Some(p4) => if !inside(s, p2 + 1, p4) {
                        None
                    } else {
                        match g_expect(s, p4, SpecToken::Comma) {
                            Some(p5) => match g_exp(s, p5) {
                                Some(p6) => if !inside(s, p5, p6) {
                                    None
                                } else {
                                    let p7 = if tok(s, p6) is Comma { g_exp(s, p6 + 1) } else { Some(p6) };
                                    match p7 {
                                        Some(q) => if !(p6 <= q < s.len()) {
                                            None
                                        } else {
                                            g_do_block_end(s, q)
                                        },
                                        None => None,
                                    }
                                },
                                None => None,
                            },
                            None => None,
                        }
                    },
                    None => None,
                },
                None => None,
            }
        } else {
            match g_name_list(s, p1) {
                Some(p2) => if !inside(s, p1, p2) {
                    None
                } else {
                    match g_expect(s, p2, SpecToken::In) {
                        Some(p3) => match g_exp_list(s, p3) {
                            Some(p4) => if inside(s, p3, p4) { g_do_block_end(s, p4) } else { None },
                            None => None,
                        },
                        None => None,
                    }
                },
                None => None,
            }
        },
        None => None,
    }
}

/// `do block end` at `p`.
pub open spec fn g_do_block_end(s: Seq<SpecToken>, p: int) -> Option<int>
    decreases s.len() - p, 27int,
{
    match g_expect(s, p, SpecToken::Do) {
        Some(p1) => match g_block(s, p1) {
            Some(p2) => if p1 <= p2 < s.len() { g_expect(s, p2, SpecToken::End) } else { None },
            None => None,
        },
        None => None,
    }
}

/// Whether a suffixed expression can be assigned to: a name, or one whose last suffix is
/// not a call.
pub open spec fn assignable_shape(any: bool, call: bool, bracketed: bool) -> bool {
    (!bracketed && !any) || (any && !call)
}

/// The further targets of an assignment, `{',' var}`, from `p` on.
pub open spec fn g_var_rest(s: Seq<SpecToken>, p: int) -> Option<int>
    decreases s.len() - p, 27int,
{
    if p < 0 || p >= s.len() {
        None
    } else if !(tok(s, p) is Comma) {
        Some(p)
    } else {
        match g_suffixed(s, p + 1) {
            Some((q1, any, call, br)) => if inside(s, p + 1, q1) && assignable_shape(any, call, br) {
                g_var_rest(s, q1)
            } else {
                None
            },
            None => None,
        }
    }
}

/// An assignment after its first target, which ends at `p1`: the further targets, `=`,
/// and the expressions.
pub open spec fn g_assignment_tail(s: Seq<SpecToken>, p1: int) -> Option<int>
    decreases s.len() - p1, 28int,
{
    match g_var_rest(s, p1) {
        Some(q) => if !(p1 <= q < s.len()) {
            None
        } else {
            match g_expect(s, q, SpecToken::EqualsSign) {
                Some(p2) => g_exp_list(s, p2),
                None => None,
            }
        },
        None => None,
    }
}

/// Where no comma follows, the targets of an assignment end.
pub proof fn lemma_var_rest_end(s: Seq<SpecToken>, p: int)
    requires
        0 <= p < s.len(),
        !(tok(s, p) is Comma),
    ensures
        g_var_rest(s, p) == Some(p),
{
}

/// Once its targets are read, an assignment is its expressions after `=`.
pub proof fn lemma_assignment_tail(s: Seq<SpecToken>, p1: int, p: int)
    requires
        g_var_rest(s, p1) == g_var_rest(s, p),
        0 <= p1 <= p < s.len(),
        !(tok(s, p) is Comma),
    ensures
        g_assignment_tail(s, p1) == (match g_expect(s, p, SpecToken::EqualsSign) {
            Some(p2) => g_exp_list(s, p2),
            None => None,
        }),
{
    lemma_var_rest_end(s, p);
}

/// `varlist '=' explist | functioncall`
pub open spec fn g_exp_stat(s: Seq<SpecToken>, p: int) -> Option<int>
    decreases s.len() - p, 29int,
{
    match g_suffixed(s, p) {
        Some((p1, any, call, br)) => if !inside(s, p, p1) {
            None
        } else if !(tok(s, p1) is Comma) && !(tok(s, p1) is EqualsSign) {
            if any && (call || br) { Some(p1) } else { None }
        } else if !assignable_shape(any, call, br) {
            None
        } else {
            g_assignment_tail(s, p1)
        },
        None => None,
    }
}

/// `local function Name funcbody` and `local namelist ['=' explist]`, after `local` at `p`.
pub open spec fn g_local(s: Seq<SpecToken>, p: int) -> Option<int>
    decreases s.len() - p, 29int,
{
    if p < 0 || p + 1 >= s.len() {
        None
    } else if tok(s, p + 1) is Function {
        match g_name(s, p + 2) {
            Some(p3) => g_func_body(s, p3),
            None => None,
        }
    } else {
        match g_name_list(s, p + 1) {
            Some(p2) => if !inside(s, p + 1, p2) {
                None
            } else if tok(s, p2) is EqualsSign {
                g_exp_list(s, p2 + 1)
            } else {
                Some(p2)
            },
            None => None,
        }
    }
}

/// `stat`
pub open spec fn g_statement(s: Seq<SpecToken>, p: int) -> Option<int>
    decreases s.len() - p, 30int,
{
    if p < 0 || p >= s.len() {
        None
    } else {
        let t = tok(s, p);
        if t is Semicolon || t is Break {
            if p + 1 < s.len() { Some(p + 1) } else { None }
        } else if t is Label {
            match g_name(s, p + 1) {
                Some(p2) => g_expect(s, p2, SpecToken::Label),
                None => None,
            }
        } else if t is GoTo {
            g_name(s, p + 1)
        } else if t is Do {
            match g_block(s, p + 1) {
                Some(p2) => if p + 1 <= p2 < s.len() { g_expect(s, p2, SpecToken::End) } else { None },
                None => None,
            }
        } else if t is While {
            match g_exp(s, p + 1) {
                Some(p2) => if inside(s, p + 1, p2) { g_do_block_end(s, p2) } else { None },
                None => None,
            }
        } else if t is Repeat {
            match g_block(s, p + 1) {
                Some(p2) => if !(p + 1 <= p2 < s.len()) {
                    None
                } else {
                    match g_expect(s, p2, SpecToken::Until) {
                        Some(p3) => g_exp(s, p3),
                        None => None,
                    }
                },
                None => None,
            }
        } else if t is If {
            g_if(s, p)
        } else if t is For {
            g_for(s, p)
        } else if t is Function {
            match g_func_name(s, p + 1) {
                Some(p2) => if inside(s, p + 1, p2) { g_func_body(s, p2) } else { None },
                None => None,
            }
        } else if t is Local {
            g_local(s, p)
        } else {
            g_exp_stat(s, p)
        }
    }
}

/// `chunk ::= [shebang] block EOF`: whether the grammar accepts the token kinds.
pub open spec fn lua_accepts(s: Seq<SpecToken>) -> bool {
    let p0: int = if tok(s, 0) is SheBang { 1 } else { 0 };
    match g_block(s, p0) {
        Some(p1) => tok(s, p1) is EOF,
        None => false,
    }
}

/// Whether a Lua text is valid as the parser reads it: the lexer reads it, and the grammar
/// accepts the kinds of its tokens.
pub open spec fn lua_text_accepted(t: Seq<char>) -> bool {
    &&& lua_lex(t, 0) is Some
    &&& lua_accepts(lexed(t).map_values(|x: (int, SpecToken, int)| x.1))
}

} // verus!
