//! Where the Lua lexer reads a text, its tokens and the blanks and comments between them
//! tile the text: each token stands as the text it stands for, and each gap is a comment
//! block that the comment lexer reads. The lemmas here relate what a scan finds in a text
//! to what it finds in a window of that text.

use vstd::prelude::*;

use super::common::Loc;
use super::comment_lexer::{comment_lex, comment_token_at, lemma_comment_token_advances, lemma_skip_spaces, skip_spaces};
use super::lexer_util::{
    close_from, closes_at, comment_outcome, escaped_at, float_outcome, is_alpha, is_digit, lemma_close_from,
    lemma_comment_advances, lemma_scan_from, level_outcome, multiline_outcome, quoted_outcome, scan_end, scan_from,
    seek_outcome, stops, Stop,
};
use super::lua_lexer::{
    is_blank, lemma_skip_blank, lemma_token_advances, skip_blank, spec_keyword, token_at, SpecLex, SpecToken,
};
use super::lua_parser::{lexed, lua_lex, stands, tiles, token_text};
use crate::formatting::default_layout::{gap_at, kw_at};
use crate::formatting::kept_comments::{ends_in_open_line_comment, lemma_equals_len, lemma_equals_run, line_feed_added};
use crate::formatting::loc_hint::equals_signs;

verus! {

/// Whether a character is escaped reads the same in a window of the text.
proof fn lemma_escaped_shift(t: Seq<char>, a: int, b: int, p: int, k: int)
    requires
        0 <= a <= p <= k <= b <= t.len(),
    ensures
        escaped_at(t.subrange(a, b), p - a, k - a) == escaped_at(t, p, k),
    decreases k - p,
{
    if k > p {
        lemma_escaped_shift(t, a, b, p, k - 1);
        assert(t.subrange(a, b)[k - 1 - a] == t[k - 1]);
    }
}

/// A scan that stops inside a window, or runs to the end of a window that ends with the
/// text, stops at the same character there.
proof fn lemma_scan_shift(t: Seq<char>, a: int, b: int, p: int, k: int, stop: Stop)
    requires
        0 <= a <= p <= k <= b <= t.len(),
        scan_from(t, p, k, stop) < b || b == t.len(),
    ensures
        scan_from(t.subrange(a, b), p - a, k - a, stop) == scan_from(t, p, k, stop) - a,
    decreases t.len() - k,
{
    let s = t.subrange(a, b);
    lemma_scan_from(t, p, k, stop);
    if k < b {
        lemma_escaped_shift(t, a, b, p, k);
        assert(s[k - a] == t[k]);
        if !stops(stop, t[k], escaped_at(t, p, k)) {
            lemma_scan_shift(t, a, b, p, k + 1, stop);
        }
    }
}

/// What a scan hands back, read in a window of the text.
proof fn lemma_seek_shift(t: Seq<char>, a: int, b: int, p: int, start: int, stop: Stop)
    requires
        0 <= a <= p <= b <= t.len(),
        a <= start,
        p < t.len() ==> (scan_end(t, p, stop) < b || b == t.len()),
    ensures
        ({
            let o = seek_outcome(t, p, start, stop);
            let o2 = seek_outcome(t.subrange(a, b), p - a, start - a, stop);
            &&& o2.0 == o.0 - a
            &&& o2.1 == o.1
            &&& o2.2 == o.2
            &&& o2.3 == o.3 - a
        }),
{
    let s = t.subrange(a, b);
    if p < t.len() {
        lemma_scan_from(t, p, p, stop);
        lemma_scan_shift(t, a, b, p, p, stop);
        let e = scan_end(t, p, stop);
        if p < b {
            assert(s.subrange(p - a, e - a) =~= t.subrange(p, e));
        }
    }
}

/// A closing long bracket that lies inside a window is the first one there too.
proof fn lemma_close_shift(t: Seq<char>, a: int, b: int, p: int, k: int, level: int)
    requires
        0 <= a <= p <= k <= b <= t.len(),
        level >= 0,
        close_from(t, p, k, level) + level + 1 < b,
    ensures
        close_from(t.subrange(a, b), p - a, k - a, level) == close_from(t, p, k, level) - a,
    decreases t.len() - k,
{
    let s = t.subrange(a, b);
    lemma_close_from(t, p, k, level);
    let c = close_from(t, p, k, level);
    if k == c {
        assert(closes_at(t, p, c, level));
        assert forall|m: int| c - a < m <= c - a + level implies s[m] == '=' by {
            assert(s[m] == t[m + a]);
        }
        if c > p {
            assert(s[c - a - 1] == t[c - 1]);
        }
        assert(closes_at(s, p - a, c - a, level));
    } else {
        assert(!closes_at(t, p, k, level));
        if closes_at(s, p - a, k - a, level) {
            assert forall|m: int| k < m <= k + level implies t[m] == '=' by {
                assert(s[m - a] == t[m]);
            }
            if k > p {
                assert(s[k - a - 1] == t[k - 1]);
            }
            assert(closes_at(t, p, k, level));
        }
        lemma_close_shift(t, a, b, p, k + 1, level);
    }
}

/// A long bracket text closed inside a window reads the same there.
proof fn lemma_multiline_shift(t: Seq<char>, a: int, b: int, p: int, start: int, level: int)
    requires
        0 <= a <= p <= b <= t.len(),
        a <= start,
        level >= 0,
        multiline_outcome(t, p, start, level).2,
        multiline_outcome(t, p, start, level).4 <= b,
    ensures
        ({
            let m = multiline_outcome(t, p, start, level);
            let m2 = multiline_outcome(t.subrange(a, b), p - a, start - a, level);
            &&& m2.0 == m.0 - a
            &&& m2.1 == m.1 - a
            &&& m2.2
            &&& m2.3 == m.3
            &&& m2.4 == m.4 - a
        }),
{
    let s = t.subrange(a, b);
    lemma_close_from(t, p, p, level);
    let c = close_from(t, p, p, level);
    lemma_close_shift(t, a, b, p, p, level);
    assert(s.subrange(p - a, c - a) =~= t.subrange(p, c));
}

/// The rest of a line, read up to its line feed inside a window, reads the same there.
proof fn lemma_line_shift(t: Seq<char>, a: int, b: int, p: int, start: int)
    requires
        0 <= a <= p <= b <= t.len(),
        a <= start,
        quoted_outcome(t, p, start, Stop::NewLine, true).4 <= b,
    ensures
        ({
            let o = quoted_outcome(t, p, start, Stop::NewLine, true);
            let o2 = quoted_outcome(t.subrange(a, b), p - a, start - a, Stop::NewLine, true);
            &&& o2.0 == o.0 - a
            &&& o2.1 == o.1 - a
            &&& o2.2 == o.2
            &&& o2.3 == o.3
            &&& o2.4 == o.4 - a
        }),
{
    if p < t.len() {
        lemma_scan_from(t, p, p, Stop::NewLine);
    }
    lemma_seek_shift(t, a, b, p, start, Stop::NewLine);
}

/// The run of `=` of a long bracket, read inside a window where it ends, reads the same there.
proof fn lemma_level_shift(t: Seq<char>, a: int, b: int, p: int)
    requires
        0 <= a <= p < b <= t.len(),
        level_outcome(t, p, p).1 < b || b == t.len(),
    ensures
        level_outcome(t.subrange(a, b), p - a, p - a).0 == level_outcome(t, p, p).0,
        level_outcome(t.subrange(a, b), p - a, p - a).1 == level_outcome(t, p, p).1 - a,
{
    lemma_scan_from(t, p, p, Stop::NonEquals);
    lemma_seek_shift(t, a, b, p, p, Stop::NonEquals);
}

/// A comment closed inside a window reads the same there.
#[verifier::rlimit(30)]
proof fn lemma_comment_shift(t: Seq<char>, a: int, b: int, p: int)
    requires
        0 <= a <= p <= b <= t.len(),
        comment_outcome(t, p, p).4,
        comment_outcome(t, p, p).5 <= b,
    ensures
        ({
            let c = comment_outcome(t, p, p);
            let c2 = comment_outcome(t.subrange(a, b), p - a, p - a);
            &&& c2.0 == c.0 - a
            &&& c2.1 == c.1 - a
            &&& c2.2 == c.2 - a
            &&& c2.3 == c.3
            &&& c2.4
            &&& c2.5 == c.5 - a
        }),
{
    let s = t.subrange(a, b);
    let n = t.len() as int;
    lemma_comment_advances(t, p, p);
    if p < n {
        lemma_scan_from(t, p, p, Stop::NewLine);
    }
    if p < n && t[p] == '[' {
        let p1 = p + 1;
        if p1 < n {
            lemma_scan_from(t, p1, p1, Stop::NewLine);
            lemma_scan_from(t, p1, p1, Stop::NonEquals);
        }
        if p1 < n && t[p1] == '=' {
            let (level, p2) = level_outcome(t, p1, p1);
            if p2 < n {
                lemma_scan_from(t, p2, p2, Stop::NewLine);
            }
            if p2 < n && t[p2] == '[' {
                lemma_close_from(t, p2 + 1, p2 + 1, level);
                lemma_level_shift(t, a, b, p1);
                assert(s[p2 - a] == t[p2]);
                lemma_multiline_shift(t, a, b, p2 + 1, p2 + 1, level);
            } else if p2 < n {
                lemma_level_shift(t, a, b, p1);
                assert(s[p2 - a] == t[p2]);
                lemma_line_shift(t, a, b, p2, p2);
            } else {
                lemma_level_shift(t, a, b, p1);
            }
            assert(s[p1 - a] == t[p1]);
        } else if p1 < n && t[p1] == '[' {
            lemma_close_from(t, p1 + 1, p1 + 1, 0);
            assert(s[p1 - a] == t[p1]);
            lemma_multiline_shift(t, a, b, p1 + 1, p1 + 1, 0);
        } else if p1 < n {
            assert(s[p1 - a] == t[p1]);
            lemma_line_shift(t, a, b, p1, p1);
        }
        assert(s[p - a] == t[p]);
    } else {
        if p < b {
            assert(s[p - a] == t[p]);
        }
        lemma_line_shift(t, a, b, p, p);
    }
}

/// A one-line comment that the text goes on after ends with its line feed, where the cursor
/// stops.
proof fn lemma_line_comment_end(t: Seq<char>, p: int)
    requires
        0 <= p <= t.len(),
        comment_outcome(t, p, p).4,
        comment_outcome(t, p, p).3 is None,
        comment_outcome(t, p, p).5 < t.len(),
    ensures
        comment_outcome(t, p, p).2 == comment_outcome(t, p, p).5,
        0 < comment_outcome(t, p, p).2,
        t[comment_outcome(t, p, p).2 - 1] == '\n',
{
    let n = t.len() as int;
    if p < n {
        lemma_scan_from(t, p, p, Stop::NewLine);
    }
    if p < n && t[p] == '[' {
        let p1 = p + 1;
        if p1 < n {
            lemma_scan_from(t, p1, p1, Stop::NewLine);
            lemma_scan_from(t, p1, p1, Stop::NonEquals);
        }
        if p1 < n && t[p1] == '=' {
            let (level, p2) = level_outcome(t, p1, p1);
            if p2 < n {
                lemma_scan_from(t, p2, p2, Stop::NewLine);
            }
        }
    }
}

/// Whether the comment lexer's tokens of `g` from `x` on end in a one-line comment that no
/// line feed closes.
pub open spec fn open_from(g: Seq<char>, x: int) -> bool {
    match comment_lex(g, x) {
        Some(toks) => toks.len() > 0 && line_feed_added(g, toks.last().1, toks.last().2).len() > 0,
        None => false,
    }
}

/// The blanks and comments that the Lua lexer passes over from `p` on form, with whatever
/// comment block stands before them from `a`, a window that the comment lexer reads from
/// `p`; unless the text ends there, they do not end in a one-line comment that no line feed
/// closes.
#[verifier::rlimit(30)]
pub proof fn lemma_gap(t: Seq<char>, a: int, p: int)
    requires
        0 <= a <= p <= t.len(),
        skip_blank(t, p).1,
    ensures
        comment_lex(t.subrange(a, skip_blank(t, p).0), p - a) is Some,
        skip_blank(t, p).0 < t.len() ==> !open_from(t.subrange(a, skip_blank(t, p).0), p - a),
    decreases t.len() - p,
{
    lemma_skip_blank(t, p);
    let q = skip_blank(t, p).0;
    let g = t.subrange(a, q);
    if p >= t.len() {
        assert(comment_lex(g, p - a) == Some(Seq::<(int, super::comment_lexer::SpecToken, int)>::empty()));
    } else if is_blank(t[p]) {
        lemma_gap(t, a, p + 1);
        lemma_skip_blank(t, p + 1);
        assert(g[p - a] == t[p]);
        lemma_skip_spaces(g, p + 1 - a);
        if skip_spaces(g, p + 1 - a) < g.len() {
            lemma_comment_token_advances(g, p + 1 - a);
        }
        if t[p] != '\n' {
            assert(skip_spaces(g, p - a) == skip_spaces(g, p + 1 - a));
            assert(comment_lex(g, p - a) == comment_lex(g, p + 1 - a));
        } else {
            assert(skip_spaces(g, p - a) == p - a);
            let rest = comment_lex(g, p + 1 - a).unwrap();
            assert(comment_lex(g, p - a) == Some(seq![(p - a, super::comment_lexer::SpecToken::NewLine, p + 1 - a)] + rest));
            let toks = seq![(p - a, super::comment_lexer::SpecToken::NewLine, p + 1 - a)] + rest;
            if rest.len() > 0 {
                assert(toks.last() == rest.last());
            }
        }
    } else if t[p] == '-' && p + 1 < t.len() && t[p + 1] == '-' {
        let c = comment_outcome(t, p + 2, p + 2);
        lemma_comment_advances(t, p + 2, p + 2);
        lemma_gap(t, a, c.5);
        lemma_skip_blank(t, c.5);
        lemma_comment_shift(t, a, q, p + 2);
        assert(g[p - a] == t[p]);
        assert(g[p + 1 - a] == t[p + 1]);
        assert(skip_spaces(g, p - a) == p - a);
        let rest = comment_lex(g, c.5 - a).unwrap();
        let tok = match c.3 {
            Some(level) => super::comment_lexer::SpecToken::MultiLineComment(level as nat, g.subrange(c.0 - a, c.1 - a)),
            None => super::comment_lexer::SpecToken::OneLineComment(g.subrange(c.0 - a, c.1 - a)),
        };
        assert(comment_token_at(g, p - a) == (super::comment_lexer::SpecLex::Tok(p - a, tok, c.2 - a), c.5 - a));
        let toks = seq![(p - a, tok, c.2 - a)] + rest;
        assert(comment_lex(g, p - a) == Some(toks));
        if q < t.len() {
            if rest.len() > 0 {
                assert(toks.last() == rest.last());
            } else if c.3 is None {
                lemma_line_comment_end(t, p + 2);
                if c.2 == q {
                    assert(g.last() == t[q - 1]);
                }
            }
        }
    } else {
        assert(comment_lex(g, p - a) == Some(Seq::<(int, super::comment_lexer::SpecToken, int)>::empty()));
    }
}

/// A token of the Lua lexer, other than a `#!` line that the text ends inside, stands at
/// its start as the text it stands for, and the cursor stops where it ends.
pub open spec fn token_stands(t: Seq<char>, q: int) -> bool {
    token_at(t, q).0 matches SpecLex::Tok(l, tok, r) ==> {
        &&& l == q
        &&& r == token_at(t, q).1
        &&& !(tok is EOF)
        &&& (tok is SheBang && r == t.len() && t.last() != '\n')
            || (kw_at(t, q, token_text(tok)) && r == q + token_text(tok).len())
    }
}

/// Characters that spell `lit` from `q` on.
proof fn lemma_lit(t: Seq<char>, q: int, lit: Seq<char>, k: int)
    requires
        lit.len() == k,
        0 <= q,
        q + k <= t.len(),
        forall|j: int| 0 <= j < k ==> t[q + j] == lit[j],
    ensures
        kw_at(t, q, lit),
{
    reveal(kw_at);
    assert(t.subrange(q, q + k) =~= lit);
}


/// The text of a keyword is the word that spells it.
proof fn lemma_keyword_text(w: Seq<char>)
    requires
        spec_keyword(w) is Some,
    ensures
        token_text(spec_keyword(w).unwrap()) == w,
{
}

/// A `#!` line stands as its text and its line feed, or runs to the end of the text.
proof fn lemma_shebang_stands(t: Seq<char>, q: int)
    requires
        0 <= q,
        q + 1 < t.len(),
        t[q] == '#',
        t[q + 1] == '!',
    ensures
        token_stands(t, q),
{
    let n = t.len() as int;
    reveal_strlit("\n");
    if q + 2 < n {
        lemma_scan_from(t, q + 2, q + 2, Stop::NewLine);
        let e = scan_end(t, q + 2, Stop::NewLine);
        if e < n {
            let txt = seq!['#', '!'] + t.subrange(q + 2, e);
            assert(token_text(SpecToken::SheBang(txt)) =~= t.subrange(q, e + 1));
            reveal(kw_at);
        } else {
            assert(t.last() == t[n - 1]);
        }
    } else {
        assert(t.last() == t[q + 1]);
    }
}

/// A number: what its first character and the scan from `p` read stand as one text.
proof fn lemma_float_stands(t: Seq<char>, p: int, start: int, prefix: Seq<char>)
    requires
        0 < p <= t.len(),
        prefix == seq![t[p - 1]],
    ensures
        float_outcome(t, p, start).1 && (p < t.len() || start == p) ==> {
            let f = float_outcome(t, p, start);
            &&& f.0 == f.3
            &&& kw_at(t, p - 1, prefix + f.2)
            &&& f.0 == p - 1 + (prefix + f.2).len()
        },
{
    let n = t.len() as int;
    let f = float_outcome(t, p, start);
    reveal(kw_at);
    if p < n {
        lemma_scan_from(t, p, p, Stop::NonFloatChar);
        let e = scan_end(t, p, Stop::NonFloatChar);
        if e < n && (t[e] == 'e' || t[e] == 'E') {
            if e + 1 < n {
                let minus = t[e + 1] == '-';
                let p2 = if minus { e + 2 } else { e + 1 };
                if p2 < n {
                    lemma_scan_from(t, p2, p2, Stop::NonDigit);
                    let e2 = scan_end(t, p2, Stop::NonDigit);
                    assert(prefix + f.2 =~= t.subrange(p - 1, e2));
                }
            }
        } else {
            assert(prefix + f.2 =~= t.subrange(p - 1, e));
        }
    } else {
        assert(prefix + f.2 =~= t.subrange(p - 1, p));
    }
}

/// A quoted string stands as its quotes and the text between them.
proof fn lemma_quoted_stands(t: Seq<char>, q: int)
    requires
        0 <= q < t.len(),
        t[q] == '"' || t[q] == '\'',
    ensures
        token_stands(t, q),
{
    let n = t.len() as int;
    let c = t[q];
    reveal_strlit("\"");
    reveal_strlit("'");
    reveal(kw_at);
    if q + 1 < n {
        lemma_scan_from(t, q + 1, q + 1, Stop::Quote(c));
        let e = scan_end(t, q + 1, Stop::Quote(c));
        if e < n {
            if c == '"' {
                assert("\""@ + t.subrange(q + 1, e) + "\""@ =~= t.subrange(q, e + 1));
            } else {
                assert("'"@ + t.subrange(q + 1, e) + "'"@ =~= t.subrange(q, e + 1));
            }
        }
    }
}

/// A hexadecimal number stands as `0x` and its digits.
proof fn lemma_hex_stands(t: Seq<char>, q: int)
    requires
        0 <= q,
        q + 1 < t.len(),
        t[q] == '0',
        t[q + 1] == 'x',
    ensures
        token_stands(t, q),
{
    let n = t.len() as int;
    reveal(kw_at);
    if q + 2 < n {
        lemma_scan_from(t, q + 2, q + 2, Stop::NonHexDigit);
        let e = scan_end(t, q + 2, Stop::NonHexDigit);
        assert(seq!['0', 'x'] + t.subrange(q + 2, e) =~= t.subrange(q, e));
    }
}

/// A name or a keyword stands as its word.
proof fn lemma_word_stands(t: Seq<char>, q: int)
    requires
        0 <= q < t.len(),
        is_alpha(t[q]) || t[q] == '_',
        !(t[q] == '0' && q + 1 < t.len() && t[q + 1] == 'x'),
        !is_digit(t[q]),
    ensures
        token_stands(t, q),
{
    reveal(kw_at);
    lemma_scan_from(t, q, q, Stop::NonWordChar);
    let e = scan_end(t, q, Stop::NonWordChar);
    let w = t.subrange(q, e);
    if spec_keyword(w) is Some {
        lemma_keyword_text(w);
    }
}

/// A long bracket string stands as its brackets, its signs and its text.
#[verifier::rlimit(40)]
proof fn lemma_long_string_stands(t: Seq<char>, q: int)
    requires
        0 <= q,
        q + 1 < t.len(),
        t[q] == '[',
        t[q + 1] == '=' || t[q + 1] == '[',
    ensures
        token_stands(t, q),
{
    let n = t.len() as int;
    reveal_strlit("[");
    reveal_strlit("]");
    reveal(kw_at);
    if t[q + 1] == '=' {
        lemma_scan_from(t, q + 1, q + 1, Stop::NonEquals);
        let (level, p2) = level_outcome(t, q + 1, q + 1);
        if p2 < n && t[p2] == '[' {
            lemma_close_from(t, p2 + 1, p2 + 1, level);
            let c = close_from(t, p2 + 1, p2 + 1, level);
            if c < n {
                let l = level as nat;
                lemma_equals_run(t, q + 1, l);
                lemma_equals_run(t, c + 1, l);
                lemma_equals_len(l);
                let e = equals_signs(l);
                assert("["@ + e + "["@ + t.subrange(p2 + 1, c) + "]"@ + e + "]"@ =~= t.subrange(q, c + level + 2));
            }
        }
    } else {
        lemma_close_from(t, q + 2, q + 2, 0);
        let c = close_from(t, q + 2, q + 2, 0);
        if c < n {
            let e = equals_signs(0);
            assert(e =~= Seq::<char>::empty());
            assert("["@ + e + "["@ + t.subrange(q + 2, c) + "]"@ + e + "]"@ =~= t.subrange(q, c + 2));
        }
    }
}

/// Each token that the Lua lexer reads stands in the text, as `token_stands` says.
#[verifier::rlimit(60)]
pub proof fn lemma_token_stands(t: Seq<char>, q: int)
    requires
        0 <= q < t.len(),
    ensures
        token_stands(t, q),
{
    let n = t.len() as int;
    let c = t[q];
    if c == '^' { reveal_strlit("^"); lemma_lit(t, q, "^"@, 1); }
    else if c == '#' {
        if q + 1 < n && t[q + 1] == '!' {
            lemma_shebang_stands(t, q);
        } else { reveal_strlit("#"); lemma_lit(t, q, "#"@, 1); }
    }
    else if c == '*' { reveal_strlit("*"); lemma_lit(t, q, "*"@, 1); }
    else if c == '%' { reveal_strlit("%"); lemma_lit(t, q, "%"@, 1); }
    else if c == '/' { if q + 1 < n && t[q + 1] == '/' { reveal_strlit("//"); lemma_lit(t, q, "//"@, 2); } else { reveal_strlit("/"); lemma_lit(t, q, "/"@, 1); } }
    else if c == '+' { reveal_strlit("+"); lemma_lit(t, q, "+"@, 1); }
    else if c == '-' { reveal_strlit("-"); lemma_lit(t, q, "-"@, 1); }
    else if c == '.' {
        if q + 1 < n && t[q + 1] == '.' {
            if q + 2 < n && t[q + 2] == '.' { reveal_strlit("..."); lemma_lit(t, q, "..."@, 3); } else { reveal_strlit(".."); lemma_lit(t, q, ".."@, 2); }
        } else if q + 1 < n && is_digit(t[q + 1]) {
            lemma_float_stands(t, q + 1, q, seq!['.']);
        } else { reveal_strlit("."); lemma_lit(t, q, "."@, 1); }
    }
    else if c == '<' {
        if q + 1 < n && t[q + 1] == '<' { reveal_strlit("<<"); lemma_lit(t, q, "<<"@, 2); }
        else { if q + 1 < n && t[q + 1] == '=' { reveal_strlit("<="); lemma_lit(t, q, "<="@, 2); } else { reveal_strlit("<"); lemma_lit(t, q, "<"@, 1); } }
    }
    else if c == '>' {
        if q + 1 < n && t[q + 1] == '>' { reveal_strlit(">>"); lemma_lit(t, q, ">>"@, 2); }
        else { if q + 1 < n && t[q + 1] == '=' { reveal_strlit(">="); lemma_lit(t, q, ">="@, 2); } else { reveal_strlit(">"); lemma_lit(t, q, ">"@, 1); } }
    }
    else if c == '&' { reveal_strlit("&"); lemma_lit(t, q, "&"@, 1); }
    else if c == '~' { if q + 1 < n && t[q + 1] == '=' { reveal_strlit("~="); lemma_lit(t, q, "~="@, 2); } else { reveal_strlit("~"); lemma_lit(t, q, "~"@, 1); } }
    else if c == '|' { reveal_strlit("|"); lemma_lit(t, q, "|"@, 1); }
    else if c == '=' { if q + 1 < n && t[q + 1] == '=' { reveal_strlit("=="); lemma_lit(t, q, "=="@, 2); } else { reveal_strlit("="); lemma_lit(t, q, "="@, 1); } }
    else if c == ';' { reveal_strlit(";"); lemma_lit(t, q, ";"@, 1); }
    else if c == ',' { reveal_strlit(","); lemma_lit(t, q, ","@, 1); }
    else if c == ':' { if q + 1 < n && t[q + 1] == ':' { reveal_strlit("::"); lemma_lit(t, q, "::"@, 2); } else { reveal_strlit(":"); lemma_lit(t, q, ":"@, 1); } }
    else if c == '(' { reveal_strlit("("); lemma_lit(t, q, "("@, 1); }
    else if c == ')' { reveal_strlit(")"); lemma_lit(t, q, ")"@, 1); }
    else if c == '{' { reveal_strlit("{"); lemma_lit(t, q, "{"@, 1); }
    else if c == '}' { reveal_strlit("}"); lemma_lit(t, q, "}"@, 1); }
    else if c == ']' { reveal_strlit("]"); lemma_lit(t, q, "]"@, 1); }
    else if c == '[' {
        if q + 1 < n && t[q + 1] == '=' {
            lemma_long_string_stands(t, q);
        } else if q + 1 < n && t[q + 1] == '[' {
            lemma_long_string_stands(t, q);
        } else { reveal_strlit("["); lemma_lit(t, q, "["@, 1); }
    }
    else if c == '"' || c == '\'' {
        lemma_quoted_stands(t, q);
    }
    else if c == '0' && q + 1 < n && t[q + 1] == 'x' {
        lemma_hex_stands(t, q);
    }
    else if is_digit(c) {
        lemma_float_stands(t, q + 1, q + 1, seq![c]);
    }
    else if is_alpha(c) || c == '_' {
        lemma_word_stands(t, q);
    }
}

/// Whether what the lexer reads from `p` on ends in a one-line comment, or a `#!` line,
/// that no line feed closes.
pub open spec fn unclosed_from(t: Seq<char>, p: int) -> bool {
    let s = lua_lex(t, p).unwrap();
    let e = if s.len() == 0 { p } else { s.last().2 };
    ||| ends_in_open_line_comment(t.subrange(e, t.len() as int))
    ||| (s.len() > 0 && s.last().1 is SheBang && e == t.len() && t.last() != '\n')
}

/// Whether the text ends in a one-line comment, or a `#!` line, that no line feed closes.
pub open spec fn ends_unclosed(t: Seq<char>) -> bool {
    unclosed_from(t, 0)
}

/// The tokens `ts`, read from `p` on, tile the text from `p`: each but the last stands as
/// its text, and the gaps before and between them are comment blocks that the default
/// options keep.
pub open spec fn tiles_from(t: Seq<char>, p: int, ts: Seq<(int, SpecToken, int)>) -> bool {
    &&& forall|i: int| 0 <= i < ts.len() - 1 ==> #[trigger] stands(t, ts, i)
    &&& gap_at(t, Loc(p as usize, ts[0].0 as usize), p)
    &&& forall|i: int| 0 <= i < ts.len() - 1 ==> gap_at(t, Loc(#[trigger] ts[i].2 as usize, ts[i + 1].0 as usize), ts[i].2)
}

/// A gap that the lexer passes over from `p` to a token, or to the end of the text where
/// it is not left open, is one that the default options keep.
proof fn lemma_gap_at(t: Seq<char>, p: int)
    requires
        0 <= p <= t.len(),
        t.len() < usize::MAX / 4,
        skip_blank(t, p).1,
        skip_blank(t, p).0 < t.len() || !ends_in_open_line_comment(t.subrange(p, skip_blank(t, p).0)),
    ensures
        gap_at(t, Loc(p as usize, skip_blank(t, p).0 as usize), p),
{
    lemma_skip_blank(t, p);
    lemma_gap(t, p, p);
    reveal(gap_at);
}

/// What the lexer reads from `p` on tiles the text from `p`, unless it ends in a comment or
/// `#!` line that no line feed closes.
#[verifier::rlimit(40)]
proof fn lemma_lex_tiles(t: Seq<char>, p: int)
    requires
        0 <= p <= t.len(),
        t.len() < usize::MAX / 4,
        lua_lex(t, p) is Some,
        !unclosed_from(t, p),
    ensures
        tiles_from(t, p, lua_lex(t, p).unwrap().push((t.len() as int, SpecToken::EOF, t.len() as int))),
    decreases t.len() - p,
{
    let n = t.len() as int;
    let eof = (n, SpecToken::EOF, n);
    let s = lua_lex(t, p).unwrap();
    let ts = s.push(eof);
    lemma_skip_blank(t, p);
    let q = skip_blank(t, p).0;
    if q >= n {
        assert(s.len() == 0);
        lemma_gap_at(t, p);
        assert(ts[0] == eof);
    } else {
        let (lx, np) = token_at(t, q);
        lemma_token_stands(t, q);
        lemma_token_advances(t, q);
        let rest = lua_lex(t, np).unwrap();
        let x = match lx {
            SpecLex::Tok(l, tok, r) => (l, tok, r),
            SpecLex::Error(_) => (0, SpecToken::EOF, 0),
        };
        assert(s == seq![x] + rest);
        assert(x.2 == np);
        if rest.len() > 0 {
            assert(s.last() == rest.last());
        } else {
            assert(s.last() == x);
        }
        assert(!unclosed_from(t, np));
        lemma_lex_tiles(t, np);
        let ts2 = rest.push(eof);
        assert(ts =~= seq![x] + ts2);
        lemma_gap_at(t, p);
        assert(stands(t, ts, 0));
        assert forall|i: int| 0 <= i < ts.len() - 1 implies #[trigger] stands(t, ts, i) by {
            if i > 0 {
                assert(ts[i] == ts2[i - 1]);
                assert(stands(t, ts2, i - 1));
            }
        }
        assert forall|i: int| 0 <= i < ts.len() - 1 implies gap_at(t, Loc(#[trigger] ts[i].2 as usize, ts[i + 1].0 as usize), ts[i].2) by {
            if i > 0 {
                assert(ts[i] == ts2[i - 1]);
                assert(ts[i + 1] == ts2[i]);
                assert(gap_at(t, Loc(ts2[i - 1].2 as usize, ts2[i].0 as usize), ts2[i - 1].2));
            } else {
                assert(ts[1] == ts2[0]);
            }
        }
    }
}

/// The tokens that the lexer reads from a text tile it, unless the text ends in a one-line
/// comment or a `#!` line that no line feed closes.
pub proof fn lemma_lexed_tiles(t: Seq<char>)
    requires
        t.len() < usize::MAX / 4,
        lua_lex(t, 0) is Some,
        !ends_unclosed(t),
    ensures
        tiles(lexed(t), t),
{
    lemma_lex_tiles(t, 0);
    let ts = lexed(t);
    assert forall|i: int| 0 <= i < ts.len() - 1 implies gap_at(t, Loc(#[trigger] ts[i].2 as usize, ts[i + 1].0 as usize), ts[i].2) by {
        assert(gap_at(t, Loc(ts[i].2 as usize, ts[i + 1].0 as usize), ts[i].2));
    }
}

} // verus!
