use vstd::prelude::*;
use vstd::utf8::encode_utf8;

use crate::config::{fmt_error, Config, ConfiguredWrite, FormatOpts, State};
use crate::parser::comment_ast::{chunk_margins, chunk_tokens, node_token, parse_chunk, Node as CNode};
use crate::parser::comment_lexer::{comment_lex, SpecToken};
use crate::parser::common::{loc_text, Loc};
use crate::parser::lexer_util::push_char;
use super::util::{repeat, write_indent};

verus! {

/// The text of an optional setting, empty when it is unset.
pub open spec fn opt_seq(o: Option<String>) -> Seq<char> {
    match o {
        Some(s) => s@,
        None => Seq::empty(),
    }
}

pub fn opt_str(o: &Option<String>) -> (res: &str)
    ensures
        res@ == opt_seq(*o),
{
    match o {
        Some(s) => s.as_str(),
        None => {
            proof { reveal_strlit(""); }
            ""
        },
    }
}

/// Of two hints, the one that is longer in bytes; the first where they are as long.
pub open spec fn spec_longest_hint(h1: Seq<char>, h2: Seq<char>) -> Seq<char> {
    if (encode_utf8(h1).len() as usize) < (encode_utf8(h2).len() as usize) {
        h2
    } else {
        h1
    }
}

pub fn longest_hint<'a>(hint1: &'a str, hint2: &'a str) -> (res: &'a str)
    ensures
        res@ == spec_longest_hint(hint1@, hint2@),
{
    if hint1.len() < hint2.len() {
        hint2
    } else {
        hint1
    }
}

/// The characters that Unicode counts as white space, which `str::trim` cuts.
pub open spec fn is_white_space(c: char) -> bool {
    ||| c == '\t' || c == '\n' || c == '\u{0B}' || c == '\u{0C}' || c == '\r' || c == ' '
    ||| c == '\u{85}' || c == '\u{A0}' || c == '\u{1680}'
    ||| ('\u{2000}' <= c && c <= '\u{200A}')
    ||| c == '\u{2028}' || c == '\u{2029}' || c == '\u{202F}' || c == '\u{205F}' || c == '\u{3000}'
}

fn exec_is_white_space(c: char) -> (res: bool)
    ensures
        res == is_white_space(c),
{
    c == '\t' || c == '\n' || c == '\u{0B}' || c == '\u{0C}' || c == '\r' || c == ' ' || c == '\u{85}'
        || c == '\u{A0}' || c == '\u{1680}' || ('\u{2000}' <= c && c <= '\u{200A}') || c == '\u{2028}'
        || c == '\u{2029}' || c == '\u{202F}' || c == '\u{205F}' || c == '\u{3000}'
}

/// The number of white-space characters that `s` starts with.
pub open spec fn lead_ws(s: Seq<char>) -> int
    decreases s.len(),
{
    if s.len() > 0 && is_white_space(s[0]) {
        1 + lead_ws(s.drop_first())
    } else {
        0
    }
}

/// The number of white-space characters that `s` ends with.
pub open spec fn trail_ws(s: Seq<char>) -> int
    decreases s.len(),
{
    if s.len() > 0 && is_white_space(s.last()) {
        1 + trail_ws(s.drop_last())
    } else {
        0
    }
}

pub open spec fn trim_start(s: Seq<char>) -> Seq<char> {
    s.skip(lead_ws(s))
}

pub open spec fn trim_end(s: Seq<char>) -> Seq<char> {
    s.take(s.len() - trail_ws(s))
}

pub open spec fn trim(s: Seq<char>) -> Seq<char> {
    trim_end(trim_start(s))
}

proof fn lemma_lead_ws(s: Seq<char>, k: int)
    requires
        0 <= k <= s.len(),
        forall|i: int| 0 <= i < k ==> is_white_space(#[trigger] s[i]),
    ensures
        0 <= lead_ws(s) <= s.len(),
        k == s.len() || !is_white_space(s[k]) ==> lead_ws(s) == k,
    decreases s.len(),
{
    if s.len() > 0 && is_white_space(s[0]) {
        let t = s.drop_first();
        if k > 0 {
            assert forall|i: int| 0 <= i < k - 1 implies is_white_space(#[trigger] t[i]) by {
                assert(t[i] == s[i + 1]);
            }
            lemma_lead_ws(t, k - 1);
            if k < s.len() {
                assert(t[k - 1] == s[k]);
            }
        } else {
            lemma_lead_ws(t, 0);
        }
    }
}

proof fn lemma_trail_ws(s: Seq<char>, k: int)
    requires
        0 <= k <= s.len(),
        forall|i: int| s.len() - k <= i < s.len() ==> is_white_space(#[trigger] s[i]),
    ensures
        0 <= trail_ws(s) <= s.len(),
        k == s.len() || !is_white_space(s[s.len() - k - 1]) ==> trail_ws(s) == k,
    decreases s.len(),
{
    if s.len() > 0 && is_white_space(s.last()) {
        let t = s.drop_last();
        if k > 0 {
            assert forall|i: int| t.len() - (k - 1) <= i < t.len() implies is_white_space(#[trigger] t[i]) by {
                assert(t[i] == s[i]);
            }
            lemma_trail_ws(t, k - 1);
            if k < s.len() {
                assert(t[t.len() - (k - 1) - 1] == s[s.len() - k - 1]);
            }
        } else {
            lemma_trail_ws(t, 0);
        }
    }
}

/// The characters of a text, in order.
pub fn text_chars(s: &str) -> (res: Vec<char>)
    ensures
        res@ == s@,
{
    let mut v: Vec<char> = Vec::new();
    proof {
        broadcast use vstd::string::group_string_axioms;
    }
    for c in it: s.chars()
        invariant
            v@ == it.seq().take(it.index() as int),
    {
        v.push(c);
    }
    v
}

/// Appends the characters `from..to` of `v` to `f`.
fn push_range(f: &mut String, v: &Vec<char>, from: usize, to: usize)
    requires
        from <= to <= v@.len(),
    ensures
        final(f)@ == old(f)@ + v@.subrange(from as int, to as int),
{
    let mut i = from;
    while i < to
        invariant
            from <= i <= to,
            to <= v@.len(),
            f@ == old(f)@ + v@.subrange(from as int, i as int),
        decreases to - i,
    {
        push_char(f, v[i]);
        i = i + 1;
        assert(f@ =~= old(f)@ + v@.subrange(from as int, i as int));
    }
}

/// Appends the text without the white space at its start.
fn push_trim_start(f: &mut String, s: &str)
    ensures
        final(f)@ == old(f)@ + trim_start(s@),
{
    let v = text_chars(s);
    let mut k: usize = 0;
    while k < v.len() && exec_is_white_space(v[k])
        invariant
            0 <= k <= v@.len(),
            v@ == s@,
            forall|i: int| 0 <= i < k ==> is_white_space(#[trigger] v@[i]),
        decreases v@.len() - k,
    {
        k = k + 1;
    }
    proof { lemma_lead_ws(s@, k as int); }
    push_range(f, &v, k, v.len());
}

/// Appends the text without the white space at its end.
fn push_trim_end(f: &mut String, s: &str)
    ensures
        final(f)@ == old(f)@ + trim_end(s@),
{
    let v = text_chars(s);
    let n = v.len();
    let mut k: usize = 0;
    while k < n && exec_is_white_space(v[n - k - 1])
        invariant
            0 <= k <= n,
            n == v@.len(),
            v@ == s@,
            forall|i: int| n - k <= i < n ==> is_white_space(#[trigger] v@[i]),
        decreases n - k,
    {
        k = k + 1;
    }
    proof { lemma_trail_ws(s@, k as int); }
    push_range(f, &v, 0, n - k);
}

/// Appends the text without white space at either end.
fn push_trim(f: &mut String, s: &str)
    ensures
        final(f)@ == old(f)@ + trim(s@),
{
    let mut t = String::new();
    push_trim_start(&mut t, s);
    assert(t@ =~= trim_start(s@));
    push_trim_end(f, t.as_str());
}

/// `k` equals signs.
pub open spec fn equals_signs(k: nat) -> Seq<char>
    decreases k,
{
    if k == 0 {
        Seq::empty()
    } else {
        equals_signs((k - 1) as nat).push('=')
    }
}

pub fn push_equals_signs(f: &mut String, k: usize)
    ensures
        final(f)@ == old(f)@ + equals_signs(k as nat),
{
    let mut i: usize = 0;
    assert(old(f)@ =~= old(f)@ + equals_signs(0));
    while i < k
        invariant
            i <= k,
            f@ == old(f)@ + equals_signs(i as nat),
        decreases k - i,
    {
        push_char(f, '=');
        i = i + 1;
        assert(f@ =~= old(f)@ + equals_signs(i as nat));
    }
}

/// The inner text of a long comment, trimmed as the hints around it ask.
pub open spec fn long_comment_body(cfg: FormatOpts, s: Seq<char>) -> Seq<char> {
    match (cfg.hint_before_multiline_comment_text, cfg.hint_after_multiline_comment_text) {
        (Some(p), Some(q)) => p@ + trim(s) + q@,
        (Some(p), None) => p@ + trim_start(s),
        (None, Some(q)) => trim_end(s) + q@,
        (None, None) => s,
    }
}

/// How a token of a comment block is written.
pub open spec fn comment_token_text(cfg: FormatOpts, tok: SpecToken) -> Seq<char> {
    match tok {
        SpecToken::OneLineComment(s) => if cfg.remove_comments == Some(true) {
            if cfg.remove_all_newlines == Some(true) {
                Seq::empty()
            } else {
                seq!['\n']
            }
        } else {
            match cfg.hint_before_oneline_comment_text {
                Some(p) => if trim_start(s).len() == 0 {
                    seq!['-', '-', '\n']
                } else {
                    seq!['-', '-'] + p@ + trim_start(s) + seq!['\n']
                },
                None => seq!['-', '-'] + s + seq!['\n'],
            }
        },
        SpecToken::MultiLineComment(level, s) => if cfg.remove_comments == Some(true) {
            Seq::empty()
        } else {
            seq!['-', '-', '['] + equals_signs(level) + seq!['['] + long_comment_body(cfg, s) + seq![']'] + equals_signs(level) + seq![']']
        },
        SpecToken::NewLine => if cfg.remove_all_newlines == Some(true) {
            Seq::empty()
        } else {
            seq!['\n']
        },
        SpecToken::EOF => Seq::empty(),
    }
}

fn write_comment_token(f: &mut String, cfg: &Config, n: &CNode)
    ensures
        final(f)@ == old(f)@ + comment_token_text(cfg.fmt, node_token(*n).1),
{
    let fo = &cfg.fmt;
    match n {
        CNode::OneLineComment(_, s) => {
            if fo.remove_comments == Some(true) {
                if fo.remove_all_newlines != Some(true) {
                    push_char(f, '\n');
                }
            } else {
                match &fo.hint_before_oneline_comment_text {
                    Some(p) => {
                        let mut st = String::new();
                        push_trim_start(&mut st, s.as_str());
                        push_char(f, '-');
                        push_char(f, '-');
                        if !st.as_str().is_empty() {
                            f.append(p.as_str());
                            f.append(st.as_str());
                        }
                        push_char(f, '\n');
                        proof {
                            if st@.len() > 0 {
                                assert(f@ =~= old(f)@ + (seq!['-', '-'] + p@ + trim_start(s@) + seq!['\n']));
                            } else {
                                assert(f@ =~= old(f)@ + seq!['-', '-', '\n']);
                            }
                        }
                    },
                    None => {
                        push_char(f, '-');
                        push_char(f, '-');
                        f.append(s.as_str());
                        push_char(f, '\n');
                        assert(f@ =~= old(f)@ + (seq!['-', '-'] + s@ + seq!['\n']));
                    },
                }
            }
        },
        CNode::MultiLineComment(_, level, s) => {
            if fo.remove_comments != Some(true) {
                push_char(f, '-');
                push_char(f, '-');
                push_char(f, '[');
                push_equals_signs(f, *level);
                push_char(f, '[');
                let ghost before_body = f@;
                match (&fo.hint_before_multiline_comment_text, &fo.hint_after_multiline_comment_text) {
                    (Some(p), Some(q)) => {
                        f.append(p.as_str());
                        push_trim(f, s.as_str());
                        f.append(q.as_str());
                    },
                    (Some(p), None) => {
                        f.append(p.as_str());
                        push_trim_start(f, s.as_str());
                    },
                    (None, Some(q)) => {
                        push_trim_end(f, s.as_str());
                        f.append(q.as_str());
                    },
                    (None, None) => {
                        f.append(s.as_str());
                    },
                }
                assert(f@ =~= before_body + long_comment_body(*fo, s@));
                push_char(f, ']');
                push_equals_signs(f, *level);
                push_char(f, ']');
                assert(f@ =~= old(f)@ + (seq!['-', '-', '['] + equals_signs(*level as nat) + seq!['['] + long_comment_body(*fo, s@) + seq![']'] + equals_signs(*level as nat) + seq![']']));
            }
        },
        CNode::NewLine(_) => {
            if fo.remove_all_newlines != Some(true) {
                push_char(f, '\n');
            }
        },
        _ => {},
    }
}

/// The text before a comment that the configuration asks for, where no blank stands.
pub open spec fn token_prefix(cfg: FormatOpts, tok: SpecToken) -> Seq<char> {
    match tok {
        SpecToken::OneLineComment(_) => opt_seq(cfg.hint_before_comment),
        SpecToken::MultiLineComment(_, _) => opt_seq(cfg.hint_before_comment),
        _ => Seq::empty(),
    }
}

/// The text after a long comment that the configuration asks for, where no blank stands.
pub open spec fn token_suffix(cfg: FormatOpts, tok: SpecToken) -> Seq<char> {
    match tok {
        SpecToken::MultiLineComment(_, _) => opt_seq(cfg.hint_after_multiline_comment),
        _ => Seq::empty(),
    }
}

fn node_prefix<'a>(cfg: &'a Config, n: &CNode) -> (res: &'a str)
    ensures
        res@ == token_prefix(cfg.fmt, node_token(*n).1),
{
    match n {
        CNode::OneLineComment(..) | CNode::MultiLineComment(..) => opt_str(&cfg.fmt.hint_before_comment),
        _ => opt_str(&None),
    }
}

fn node_suffix<'a>(cfg: &'a Config, n: &CNode) -> (res: &'a str)
    ensures
        res@ == token_suffix(cfg.fmt, node_token(*n).1),
{
    match n {
        CNode::MultiLineComment(..) => opt_str(&cfg.fmt.hint_after_multiline_comment),
        _ => opt_str(&None),
    }
}

/// How the blanks between two tokens are written: as they are, or not at all when the
/// configuration removes them; and where nothing is written, the hint instead.
pub open spec fn gap_text(cfg: FormatOpts, raw: Seq<char>, hint: Seq<char>) -> Seq<char> {
    let w = if cfg.remove_spaces_between_tokens == Some(true) { Seq::empty() } else { raw };
    if w.len() == 0 {
        hint
    } else {
        w
    }
}

/// The characters `a..b` of `t`, or nothing where that is no span of `t`.
pub open spec fn span_text(t: Seq<char>, a: int, b: int) -> Seq<char> {
    if 0 <= a <= b <= t.len() {
        t.subrange(a, b)
    } else {
        Seq::empty()
    }
}

/// Whether a comment that starts a line is moved to the indentation of the code: the
/// configuration asks for it, for one-line or for long comments.
pub open spec fn reindents(cfg: FormatOpts, prev: SpecToken, cur: SpecToken) -> bool {
    (cur is OneLineComment && cfg.newline_format_oneline_comment == Some(1usize))
        || (cur is MultiLineComment && cfg.newline_format_multiline_comment == Some(1usize))
}

/// Whether the first comment of a block is put on a line of its own, at the indentation
/// of the code: the configuration asks for it, for one-line or for long comments.
pub open spec fn reindents_first(cfg: FormatOpts, cur: SpecToken) -> bool {
    (cur is OneLineComment && cfg.newline_format_first_oneline_comment == Some(1usize))
        || (cur is MultiLineComment && cfg.newline_format_first_multiline_comment == Some(1usize))
}

/// The hint between two tokens of a comment block: none before a line feed, else the
/// longer of the hints that the two tokens ask for.
pub open spec fn between_hint(cfg: FormatOpts, prev: SpecToken, cur: SpecToken) -> Seq<char> {
    if cur is NewLine {
        Seq::empty()
    } else {
        spec_longest_hint(token_prefix(cfg, cur), token_suffix(cfg, prev))
    }
}

/// How the blanks between two tokens of a comment block are written; `ind` is the
/// indentation of the code around the block.
pub open spec fn between_text(cfg: FormatOpts, t: Seq<char>, ind: Seq<char>, prev: (int, SpecToken, int), cur: (int, SpecToken, int)) -> Seq<char> {
    if reindents(cfg, prev.1, cur.1) {
        if prev.1 is NewLine || prev.1 is OneLineComment { ind } else { seq!['\n'] + ind }
    } else {
        gap_text(cfg, span_text(t, prev.2, cur.0), between_hint(cfg, prev.1, cur.1))
    }
}

/// The indentation of the code at `level`.
pub open spec fn indentation(cfg: FormatOpts, level: int) -> Seq<char> {
    match cfg.indentation_string {
        Some(ind) => repeat(ind@, level),
        None => Seq::empty(),
    }
}

/// The first `k` tokens of a comment block with the blanks between them.
pub open spec fn tokens_text(cfg: FormatOpts, t: Seq<char>, ind: Seq<char>, toks: Seq<(int, SpecToken, int)>, k: int) -> Seq<char>
    decreases k,
{
    if k <= 0 {
        Seq::empty()
    } else if k == 1 {
        comment_token_text(cfg, toks[0].1)
    } else {
        tokens_text(cfg, t, ind, toks, k - 1)
            + between_text(cfg, t, ind, toks[k - 2], toks[k - 1])
            + comment_token_text(cfg, toks[k - 1].1)
    }
}

/// A comment block holds only one line feed, which the configuration removes.
pub open spec fn single_newline_removed(cfg: FormatOpts, toks: Seq<(int, SpecToken, int)>) -> bool {
    cfg.remove_single_newlines == Some(true) && toks.len() == 1 && toks[0].1 is NewLine
}

/// How a comment block is written: the blanks before its first token, its tokens with the
/// blanks between them, and the blanks after its last token.
pub open spec fn block_text(cfg: FormatOpts, t: Seq<char>, ind: Seq<char>, line_start: bool, toks: Seq<(int, SpecToken, int)>) -> Seq<char> {
    let n = toks.len() as int;
    if n == 0 {
        gap_text(cfg, t, Seq::empty()) + gap_text(cfg, Seq::empty(), Seq::empty())
    } else if single_newline_removed(cfg, toks) {
        gap_text(cfg, span_text(t, 0, toks[0].0), Seq::empty())
            + gap_text(cfg, span_text(t, toks[0].2, t.len() as int), Seq::empty())
    } else {
        (if reindents_first(cfg, toks[0].1) {
            if line_start { ind } else { seq!['\n'] + ind }
        } else {
            gap_text(cfg, span_text(t, 0, toks[0].0), token_prefix(cfg, toks[0].1))
        })
            + tokens_text(cfg, t, ind, toks, n)
            + gap_text(cfg, span_text(t, toks[n - 1].2, t.len() as int), token_suffix(cfg, toks[n - 1].1))
    }
}

/// How a comment block is written, where the comment lexer reads it; `ind` is the
/// indentation of the code around it, and `line_start` whether the text before the block
/// ends a line.
pub open spec fn comment_block(cfg: FormatOpts, t: Seq<char>, ind: Seq<char>, line_start: bool) -> Option<Seq<char>> {
    match comment_lex(t, 0) {
        Some(toks) => Some(block_text(cfg, t, ind, line_start, toks)),
        None => None,
    }
}

/// Appends the blanks `a..b` of `v` as `gap_text` says.
fn write_gap(f: &mut String, cfg: &Config, v: &Vec<char>, a: usize, b: usize, hint: &str)
    ensures
        final(f)@ == old(f)@ + gap_text(cfg.fmt, span_text(v@, a as int, b as int), hint@),
{
    if cfg.fmt.remove_spaces_between_tokens == Some(true) || !(a < b && b <= v.len()) {
        f.append(hint);
    } else {
        push_range(f, v, a, b);
    }
}

/// The leaves of the tree of a comment block, in order.
fn leaves<'a>(tree: &'a CNode) -> (res: Vec<&'a CNode>)
    ensures
        res@.map_values(|n: &CNode| node_token(*n)) == chunk_tokens(*tree),
{
    let mut out: Vec<&'a CNode> = Vec::new();
    if let CNode::Chunk(_, b, _) = tree {
        if let CNode::VariantList(_, vs) = &**b {
            let mut i: usize = 0;
            while i < vs.len()
                invariant
                    0 <= i <= vs@.len(),
                    out@.map_values(|n: &CNode| node_token(*n)) == crate::parser::comment_ast::variants_tokens(vs@.take(i as int)),
                decreases vs@.len() - i,
            {
                let ghost before = out@;
                match &vs[i].1 {
                    CNode::CommentList(_, items) | CNode::NewLineList(_, items) => {
                        let mut j: usize = 0;
                        while j < items.len()
                            invariant
                                0 <= j <= items@.len(),
                                out@.map_values(|n: &CNode| node_token(*n)) == before.map_values(|n: &CNode| node_token(*n))
                                    + crate::parser::comment_ast::items_tokens(items@.take(j as int)),
                            decreases items@.len() - j,
                        {
                            let ghost prev_out = out@;
                            out.push(&items[j].1);
                            j = j + 1;
                            proof {
                                assert(items@.take(j as int) =~= items@.take(j - 1).push(items@[j - 1]));
                                assert(out@.map_values(|n: &CNode| node_token(*n)) =~= prev_out.map_values(|n: &CNode| node_token(*n)).push(node_token(items@[j - 1].1)));
                                assert(crate::parser::comment_ast::items_tokens(items@.take(j as int)) =~= crate::parser::comment_ast::items_tokens(items@.take(j - 1)).push(node_token(items@[j - 1].1)));
                            }
                        }
                        assert(items@.take(items@.len() as int) =~= items@);
                    },
                    _ => {},
                }
                proof {
                    assert(vs@.take(i + 1).drop_last() =~= vs@.take(i as int));
                }
                i = i + 1;
            }
            assert(vs@.take(vs@.len() as int) =~= vs@);
            return out;
        }
    }
    out
}

fn reindent_node(cfg: &Config, cur: &CNode) -> (res: bool)
    ensures
        forall|p: SpecToken| res == reindents(cfg.fmt, p, node_token(*cur).1),
{
    match cur {
        CNode::OneLineComment(..) => cfg.fmt.newline_format_oneline_comment == Some(1),
        CNode::MultiLineComment(..) => cfg.fmt.newline_format_multiline_comment == Some(1),
        _ => false,
    }
}

fn reindent_first_node(cfg: &Config, cur: &CNode) -> (res: bool)
    ensures
        res == reindents_first(cfg.fmt, node_token(*cur).1),
{
    match cur {
        CNode::OneLineComment(..) => cfg.fmt.newline_format_first_oneline_comment == Some(1),
        CNode::MultiLineComment(..) => cfg.fmt.newline_format_first_multiline_comment == Some(1),
        _ => false,
    }
}

/// Writes the blanks between two tokens of a comment block, as `between_text` says.
fn write_between(f: &mut String, cfg: &Config, v: &Vec<char>, ind: &str, prev: &CNode, cur: &CNode)
    ensures
        final(f)@ == old(f)@ + between_text(cfg.fmt, v@, ind@, node_token(*prev), node_token(*cur)),
{
    let (a, b) = match (prev, cur) {
        (CNode::OneLineComment(lp, _), _) | (CNode::MultiLineComment(lp, _, _), _) | (CNode::NewLine(lp), _) => (lp.1, 0usize),
        _ => (0usize, 0usize),
    };
    let b = match cur {
        CNode::OneLineComment(lc, _) | CNode::MultiLineComment(lc, _, _) | CNode::NewLine(lc) => lc.0,
        _ => b,
    };
    let ghost before = old(f)@;
    if reindent_node(cfg, cur) {
        let ends_line = match prev {
            CNode::NewLine(_) | CNode::OneLineComment(..) => true,
            _ => false,
        };
        if !ends_line {
            push_char(f, '\n');
        }
        f.append(ind);
        assert(f@ =~= before + between_text(cfg.fmt, v@, ind@, node_token(*prev), node_token(*cur)));
    } else {
        let hint = match cur {
            CNode::NewLine(_) => opt_str(&None),
            _ => longest_hint(node_prefix(cfg, cur), node_suffix(cfg, prev)),
        };
        write_gap(f, cfg, v, a, b, hint);
        assert(f@ =~= before + between_text(cfg.fmt, v@, ind@, node_token(*prev), node_token(*cur)));
    }
}

/// Writes a comment block as `block_text` says.
fn format_comment_block(tree: &CNode, cfg: &Config, v: &Vec<char>, ind: &str, line_start: bool) -> (res: String)
    requires
        chunk_margins(*tree, v@.len() as int),
    ensures
        res@ == block_text(cfg.fmt, v@, ind@, line_start, chunk_tokens(*tree)),
{
    let ghost toks = chunk_tokens(*tree);
    let lv = leaves(tree);
    let ghost tv = lv@.map_values(|n: &CNode| node_token(*n));
    let mut f = String::new();
    let len = v.len();
    let n = lv.len();
    let (locl, locr) = match tree {
        CNode::Chunk(l, _, r) => (*l, *r),
        _ => (Loc(0, 0), Loc(0, 0)),
    };
    if n == 0 {
        write_gap(&mut f, cfg, v, 0, len, opt_str(&None));
        assert(span_text(v@, 0, len as int) =~= v@);
        write_gap(&mut f, cfg, v, len, len, opt_str(&None));
        assert(span_text(v@, len as int, len as int) =~= Seq::<char>::empty());
        return f;
    }
    let first = lv[0];
    let last = lv[n - 1];
    let single = cfg.fmt.remove_single_newlines == Some(true) && n == 1 && match first {
        CNode::NewLine(_) => true,
        _ => false,
    };
    assert(tv[0] == node_token(*first));
    if single {
        write_gap(&mut f, cfg, v, 0, locl.1, opt_str(&None));
        write_gap(&mut f, cfg, v, locr.0, len, opt_str(&None));
        return f;
    }
    if reindent_first_node(cfg, first) {
        if !line_start {
            push_char(&mut f, '\n');
        }
        f.append(ind);
    } else {
        write_gap(&mut f, cfg, v, 0, locl.1, node_prefix(cfg, first));
    }
    let ghost head = f@;
    write_comment_token(&mut f, cfg, first);
    let mut k: usize = 1;
    while k < n
        invariant
            1 <= k <= n,
            n == lv@.len(),
            tv == toks,
            tv == lv@.map_values(|n: &CNode| node_token(*n)),
            f@ == head + tokens_text(cfg.fmt, v@, ind@, toks, k as int),
        decreases n - k,
    {
        let prev = lv[k - 1];
        let cur = lv[k];
        assert(tv[k - 1] == node_token(*prev) && tv[k as int] == node_token(*cur));
        write_between(&mut f, cfg, v, ind, prev, cur);
        write_comment_token(&mut f, cfg, cur);
        k = k + 1;
    }
    write_gap(&mut f, cfg, v, locr.0, len, node_suffix(cfg, last));
    f
}

/// Whether a text ends a line: it is empty or ends with a line feed.
pub open spec fn ends_line(s: Seq<char>) -> bool {
    s.len() == 0 || s.last() == '\n'
}

/// The text that `write_comment_gap_at` writes.
pub open spec fn gap_output(cfg: FormatOpts, t: Seq<char>, ind: Seq<char>, line_start: bool, hint: Seq<char>) -> Seq<char> {
    let b = comment_block(cfg, t, ind, line_start).unwrap();
    if b.len() == 0 && cfg.replace_zero_spaces_with_hint == Some(true) { hint } else { b }
}

/// Writes the blanks and comments between two Lua tokens, as `comment_block` says, for a
/// text before them that ends a line where `line_start`; where that writes nothing and the
/// configuration asks for it, the hint instead.
pub fn write_comment_gap_at(f: &mut String, cfg: &Config, buf: &str, state: &State, loc: &Loc, hint: &str, line_start: bool) -> (res: Result<(), std::fmt::Error>)
    ensures
        ({
            let t = loc_text(buf@, *loc);
            let ind = indentation(cfg.fmt, state.indent_level as int);
            &&& (res is Ok <==> t.len() < usize::MAX / 4 && comment_block(cfg.fmt, t, ind, line_start) is Some)
            &&& res is Ok ==> final(f)@ == old(f)@ + gap_output(cfg.fmt, t, ind, line_start, hint@)
            &&& res is Err ==> final(f)@ == old(f)@
        }),
{
    let text = loc.substr(buf);
    let v = text_chars(text);
    if v.len() >= usize::MAX / 4 {
        return Err(fmt_error());
    }
    let mut ind = String::new();
    let _ = write_indent(&mut ind, cfg, state);
    match parse_chunk(text) {
        Ok(tree) => {
            let block = format_comment_block(&tree, cfg, &v, ind.as_str(), line_start);
            if block.as_str().is_empty() && cfg.fmt.replace_zero_spaces_with_hint == Some(true) {
                f.append(hint);
            } else {
                f.append(block.as_str());
            }
            Ok(())
        },
        Err(_) => Err(fmt_error()),
    }
}

/// Writes the blanks and comments between two Lua tokens after the text of `f`, as
/// `write_comment_gap_at` says.
pub fn write_comment_gap(f: &mut String, cfg: &Config, buf: &str, state: &State, loc: &Loc, hint: &str) -> (res: Result<(), std::fmt::Error>)
    ensures
        ({
            let t = loc_text(buf@, *loc);
            let ind = indentation(cfg.fmt, state.indent_level as int);
            let ls = ends_line(old(f)@);
            &&& (res is Ok <==> t.len() < usize::MAX / 4 && comment_block(cfg.fmt, t, ind, ls) is Some)
            &&& res is Ok ==> final(f)@ == old(f)@ + gap_output(cfg.fmt, t, ind, ls, hint@)
            &&& res is Err ==> final(f)@ == old(f)@
        }),
{
    let line_start = f.as_str().is_empty() || ends_with_char(f.as_str(), '\n');
    write_comment_gap_at(f, cfg, buf, state, loc, hint, line_start)
}

/// Whether the text ends with the character `c` (`str::ends_with` with a `char`); the
/// contract claims that it does exactly when the text is not empty and its last character is `c`.
#[verifier::external_body]
pub fn ends_with_char(s: &str, c: char) -> (res: bool)
    ensures
        res == (s@.len() > 0 && s@.last() == c),
{
    s.ends_with(c)
}

/// The blanks and comments between two Lua tokens, with the text to write where they
/// come to nothing.
pub struct CommentLocHint<'a, 'b>(pub &'a Loc, pub &'b str);

/// The blanks between two comment tokens, with the text to write where they come to nothing.
pub struct SpaceLocHint<'a, 'b>(pub &'a Loc, pub &'b str);

/// Builds a hinted span.
pub trait LocHintConstructor<'a, 'b>: Sized {
    fn new(loc: &'a Loc, s: &'b str) -> Self;
}

impl<'a, 'b> LocHintConstructor<'a, 'b> for CommentLocHint<'a, 'b> {
    fn new(loc: &'a Loc, s: &'b str) -> (res: Self)
        ensures
            *res.0 == *loc,
            res.1@ == s@,
    {
        CommentLocHint(loc, s)
    }
}

impl<'a, 'b> LocHintConstructor<'a, 'b> for SpaceLocHint<'a, 'b> {
    fn new(loc: &'a Loc, s: &'b str) -> (res: Self)
        ensures
            *res.0 == *loc,
            res.1@ == s@,
    {
        SpaceLocHint(loc, s)
    }
}

impl ConfiguredWrite for CommentLocHint<'_, '_> {
    fn configured_write(&self, f: &mut String, cfg: &Config, buf: &str, state: &mut State) -> (res: Result<(), std::fmt::Error>)
        ensures
            *final(state) == *old(state),
            ({
                let t = loc_text(buf@, *self.0);
                let ind = indentation(cfg.fmt, old(state).indent_level as int);
                let ls = ends_line(old(f)@);
                &&& (res is Ok <==> t.len() < usize::MAX / 4 && comment_block(cfg.fmt, t, ind, ls) is Some)
                &&& res is Ok ==> final(f)@ == old(f)@ + gap_output(cfg.fmt, t, ind, ls, self.1@)
            }),
    {
        write_comment_gap(f, cfg, buf, state, self.0, self.1)
    }
}

impl ConfiguredWrite for SpaceLocHint<'_, '_> {
    fn configured_write(&self, f: &mut String, cfg: &Config, buf: &str, _state: &mut State) -> (res: Result<(), std::fmt::Error>)
        ensures
            res is Ok,
            final(f)@ == old(f)@ + gap_text(cfg.fmt, loc_text(buf@, *self.0), self.1@),
    {
        let text = self.0.substr(buf);
        if cfg.fmt.remove_spaces_between_tokens == Some(true) || text.is_empty() {
            f.append(self.1);
        } else {
            f.append(text);
        }
        Ok(())
    }
}

} // verus!
