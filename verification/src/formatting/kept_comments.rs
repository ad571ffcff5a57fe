use vstd::prelude::*;

use crate::config::FormatOpts;
use crate::parser::comment_lexer::{comment_lex, comment_token_at, lemma_skip_spaces, skip_spaces, SpecLex, SpecToken};
use crate::parser::lexer_util::{
    close_from, closes_at, comment_outcome, lemma_close_from, lemma_scan_from, level_outcome,
    multiline_outcome, quoted_outcome, scan_from, stops, Stop,
};
use super::loc_hint::{
    between_hint, between_text, block_text, comment_block, comment_token_text, equals_signs, gap_text,
    span_text, tokens_text,
};

verus! {

/// The line feed that a one-line comment gets where it runs to the end of the text
/// without one; nothing for any other token.
pub open spec fn line_feed_added(t: Seq<char>, tok: SpecToken, r: int) -> Seq<char> {
    if tok is OneLineComment && r == t.len() && t.len() > 0 && t.last() != '\n' {
        seq!['\n']
    } else {
        Seq::empty()
    }
}

/// Whether a comment block ends in a one-line comment that no line feed closes.
pub open spec fn ends_in_open_line_comment(t: Seq<char>) -> bool {
    match comment_lex(t, 0) {
        Some(toks) => toks.len() > 0 && line_feed_added(t, toks.last().1, toks.last().2).len() > 0,
        None => false,
    }
}

/// `equals_signs(k)` holds `k` signs.
pub proof fn lemma_equals_len(k: nat)
    ensures
        equals_signs(k).len() == k,
    decreases k,
{
    if k > 0 {
        lemma_equals_len((k - 1) as nat);
    }
}

/// A run of `k` equals signs in the text reads as `equals_signs(k)`.
pub proof fn lemma_equals_run(t: Seq<char>, a: int, k: nat)
    requires
        0 <= a,
        a + k <= t.len(),
        forall|j: int| a <= j < a + k ==> t[j] == '=',
    ensures
        t.subrange(a, a + k) == equals_signs(k),
    decreases k,
{
    if k == 0 {
        assert(t.subrange(a, a) =~= Seq::<char>::empty());
    } else {
        lemma_equals_run(t, a, (k - 1) as nat);
        assert(t.subrange(a, a + k) =~= t.subrange(a, a + k - 1).push('='));
    }
}

/// A one-line comment whose `--` stands at `q` and whose scan for the line feed begins
/// at `s` is written as the text it spans, with a line feed added where none closes it.
proof fn lemma_oneline_kept(t: Seq<char>, q: int, s: int)
    requires
        0 <= q,
        q + 2 <= s <= t.len(),
        t[q] == '-',
        t[q + 1] == '-',
        forall|j: int| q + 2 <= j < s ==> t[j] != '\n',
    ensures
        ({
            let o = quoted_outcome(t, s, s, Stop::NewLine, true);
            &&& q + 2 <= o.0 <= o.1 <= t.len()
            &&& o.1 == o.4
            &&& seq!['-', '-'] + t.subrange(q + 2, o.0) + seq!['\n']
                == t.subrange(q, o.1) + line_feed_added(t, SpecToken::OneLineComment(t.subrange(q + 2, o.0)), o.1)
        }),
{
    let n = t.len() as int;
    let o = quoted_outcome(t, s, s, Stop::NewLine, true);
    let tok = SpecToken::OneLineComment(t.subrange(q + 2, o.0));
    if s >= n {
        assert(t[n - 1] != '\n');
        assert(line_feed_added(t, tok, o.1) == seq!['\n']);
        assert(seq!['-', '-'] + t.subrange(q + 2, o.0) + seq!['\n'] =~= t.subrange(q, o.1) + seq!['\n']);
    } else {
        lemma_scan_from(t, s, s, Stop::NewLine);
        let e = scan_from(t, s, s, Stop::NewLine);
        if e < n {
            assert(stops(Stop::NewLine, t[e], false) || stops(Stop::NewLine, t[e], true));
            assert(t[e] == '\n');
            assert(line_feed_added(t, tok, o.1) =~= Seq::<char>::empty());
            assert(seq!['-', '-'] + t.subrange(q + 2, o.0) + seq!['\n'] =~= t.subrange(q, o.1) + Seq::<char>::empty());
        } else {
            assert(!stops(Stop::NewLine, t[n - 1], crate::parser::lexer_util::escaped_at(t, s, n - 1)));
            assert(t[n - 1] != '\n');
            assert(line_feed_added(t, tok, o.1) == seq!['\n']);
            assert(seq!['-', '-'] + t.subrange(q + 2, o.0) + seq!['\n'] =~= t.subrange(q, o.1) + seq!['\n']);
        }
    }
}


/// A long comment whose `--` stands at `q`, with `level` equals signs, and whose text
/// begins at `s`, is written as the text it spans.
proof fn lemma_multi_kept(t: Seq<char>, q: int, s: int, level: int)
    requires
        0 <= q,
        level >= 0,
        s == q + 4 + level,
        s <= t.len(),
        t[q] == '-',
        t[q + 1] == '-',
        t[q + 2] == '[',
        forall|j: int| q + 3 <= j < q + 3 + level ==> t[j] == '=',
        t[q + 3 + level] == '[',
        multiline_outcome(t, s, s, level).2,
    ensures
        ({
            let m = multiline_outcome(t, s, s, level);
            &&& s <= m.0 <= m.1 <= t.len()
            &&& m.1 == m.4
            &&& seq!['-', '-', '['] + equals_signs(level as nat) + seq!['['] + t.subrange(s, m.0) + seq![']']
                + equals_signs(level as nat) + seq![']'] == t.subrange(q, m.1)
        }),
{
    let n = t.len() as int;
    lemma_close_from(t, s, s, level);
    let c = close_from(t, s, s, level);
    assert(c < n);
    assert(closes_at(t, s, c, level));
    lemma_equals_run(t, q + 3, level as nat);
    lemma_equals_run(t, c + 1, level as nat);
    let m = multiline_outcome(t, s, s, level);
    assert(m.0 == c && m.1 == c + level + 2);
    let eq = equals_signs(level as nat);
    assert(t.subrange(q, m.1) =~= seq!['-', '-', '['] + t.subrange(q + 3, q + 3 + level) + seq!['['] + t.subrange(s, c)
        + seq![']'] + t.subrange(c + 1, c + 1 + level) + seq![']']);
}

/// Under the default options each token of a comment block is written as the text it
/// spans, where a one-line comment at the very end gets a line feed; its end is where the
/// lexer goes on.
proof fn lemma_token_kept(t: Seq<char>, q: int)
    requires
        0 <= q < t.len(),
    ensures
        comment_token_at(t, q).0 matches SpecLex::Tok(l, tok, r) ==> (l == q && r == comment_token_at(t, q).1
            && q < r <= t.len()
            && comment_token_text(FormatOpts::spec_default(), tok) == t.subrange(q, r) + line_feed_added(t, tok, r)),
{
    let n = t.len() as int;
    if t[q] == '\n' {
        assert(t.subrange(q, q + 1) =~= seq!['\n']);
        assert(t.subrange(q, q + 1) + Seq::<char>::empty() =~= seq!['\n']);
    } else if t[q] == '-' && q + 1 < n && t[q + 1] == '-' {
        let p = q + 2;
        let c = comment_outcome(t, p, p);
        if c.4 {
            if p < n && t[p] == '[' {
                let p1 = p + 1;
                if p1 < n && t[p1] == '=' {
                    lemma_scan_from(t, p1, p1, Stop::NonEquals);
                    let e = scan_from(t, p1, p1, Stop::NonEquals);
                    assert(e > p1);
                    assert forall|j: int| p1 <= j < e implies t[j] == '=' by {
                        assert(!stops(Stop::NonEquals, t[j], crate::parser::lexer_util::escaped_at(t, p1, j)));
                    }
                    let (level, p2) = level_outcome(t, p1, p1);
                    assert(p2 == e && level == e - p1);
                    if p2 < n && t[p2] == '[' {
                        lemma_multi_kept(t, q, p2 + 1, level);
                    } else if p2 < n {
                        lemma_oneline_kept(t, q, p2);
                    } else {
                        assert(t[n - 1] == '=');
                        assert(seq!['-', '-'] + t.subrange(q + 2, n) + seq!['\n'] =~= t.subrange(q, n) + seq!['\n']);
                    }
                } else if p1 < n && t[p1] == '[' {
                    lemma_multi_kept(t, q, p1 + 1, 0);
                } else if p1 < n {
                    lemma_oneline_kept(t, q, p1);
                } else {
                    assert(seq!['-', '-'] + t.subrange(q + 2, n) + seq!['\n'] =~= t.subrange(q, n) + seq!['\n']);
                }
            } else {
                lemma_oneline_kept(t, q, p);
            }
        }
    }
}

/// What the default options keep of the tokens that the comment lexer reads from `p` on:
/// each lies in the text and is written as the text it spans (a line feed added as
/// `line_feed_added` says), and the tokens come one after the other.
pub open spec fn tokens_kept(t: Seq<char>, p: int, toks: Seq<(int, SpecToken, int)>) -> bool {
    &&& forall|i: int| 0 <= i < toks.len() ==> p <= #[trigger] toks[i].0 < toks[i].2 <= t.len()
    &&& forall|i: int| 0 <= i < toks.len() ==> comment_token_text(FormatOpts::spec_default(), #[trigger] toks[i].1)
        == t.subrange(toks[i].0, toks[i].2) + line_feed_added(t, toks[i].1, toks[i].2)
    &&& forall|i: int, j: int| 0 <= i < j < toks.len() ==> #[trigger] toks[i].2 <= #[trigger] toks[j].0
}

proof fn lemma_lex_kept(t: Seq<char>, p: int)
    requires
        0 <= p <= t.len(),
        comment_lex(t, p) is Some,
    ensures
        tokens_kept(t, p, comment_lex(t, p).unwrap()),
    decreases t.len() - p,
{
    let n = t.len() as int;
    lemma_skip_spaces(t, p);
    let q = skip_spaces(t, p);
    if q < n {
        lemma_token_kept(t, q);
        let (lx, np) = comment_token_at(t, q);
        if let SpecLex::Tok(l, tok, r) = lx {
            lemma_lex_kept(t, np);
            let rest = comment_lex(t, np).unwrap();
            let toks = comment_lex(t, p).unwrap();
            assert(toks == seq![(l, tok, r)] + rest);
            assert forall|i: int| 0 <= i < toks.len() implies p <= #[trigger] toks[i].0 < toks[i].2 <= t.len() by {
                if i > 0 {
                    assert(toks[i] == rest[i - 1]);
                }
            }
            assert forall|i: int| 0 <= i < toks.len() implies comment_token_text(FormatOpts::spec_default(), #[trigger] toks[i].1)
                == t.subrange(toks[i].0, toks[i].2) + line_feed_added(t, toks[i].1, toks[i].2) by {
                if i > 0 {
                    assert(toks[i] == rest[i - 1]);
                }
            }
            assert forall|i: int, j: int| 0 <= i < j < toks.len() implies #[trigger] toks[i].2 <= #[trigger] toks[j].0 by {
                assert(toks[j] == rest[j - 1]);
                if i > 0 {
                    assert(toks[i] == rest[i - 1]);
                }
            }
        }
    }
}

proof fn lemma_tokens_text_kept(t: Seq<char>, ind: Seq<char>, toks: Seq<(int, SpecToken, int)>, k: int)
    requires
        tokens_kept(t, 0, toks),
        1 <= k <= toks.len(),
    ensures
        tokens_text(FormatOpts::spec_default(), t, ind, toks, k)
            == t.subrange(toks[0].0, toks[k - 1].2) + line_feed_added(t, toks[k - 1].1, toks[k - 1].2),
    decreases k,
{
    let d = FormatOpts::spec_default();
    let a = toks[k - 1];
    if k == 1 {
        assert(comment_token_text(d, a.1) == t.subrange(a.0, a.2) + line_feed_added(t, a.1, a.2));
    } else {
        lemma_tokens_text_kept(t, ind, toks, k - 1);
        let b = toks[k - 2];
        assert(b.2 <= a.0);
        assert(line_feed_added(t, b.1, b.2) =~= Seq::<char>::empty());
        assert(comment_token_text(d, a.1) == t.subrange(a.0, a.2) + line_feed_added(t, a.1, a.2));
        assert(between_hint(d, b.1, a.1) =~= Seq::<char>::empty());
        assert(between_text(d, t, ind, b, a) =~= t.subrange(b.2, a.0));
        assert(t.subrange(toks[0].0, a.2) =~= t.subrange(toks[0].0, b.2) + t.subrange(b.2, a.0) + t.subrange(a.0, a.2));
        assert(tokens_text(d, t, ind, toks, k) =~= t.subrange(toks[0].0, a.2) + line_feed_added(t, a.1, a.2));
    }
}

/// Under the default options a comment block that the comment lexer reads is written as
/// it stands: blanks, line feeds and comments are kept character for character, and only
/// a one-line comment that runs to the end of the block without a line feed gets one.
pub proof fn lemma_default_comment_block(t: Seq<char>, ind: Seq<char>, line_start: bool)
    requires
        comment_lex(t, 0) is Some,
    ensures
        comment_block(FormatOpts::spec_default(), t, ind, line_start)
            == Some(if ends_in_open_line_comment(t) { t.push('\n') } else { t }),
{
    let d = FormatOpts::spec_default();
    let toks = comment_lex(t, 0).unwrap();
    lemma_lex_kept(t, 0);
    let n = toks.len() as int;
    if n == 0 {
        assert(block_text(d, t, ind, line_start, toks) =~= t);
    } else {
        lemma_tokens_text_kept(t, ind, toks, n);
        let first = toks[0];
        let last = toks[n - 1];
        assert(gap_text(d, span_text(t, 0, first.0), Seq::empty()) =~= t.subrange(0, first.0));
        assert(gap_text(d, span_text(t, last.2, t.len() as int), Seq::empty()) =~= t.subrange(last.2, t.len() as int));
        if ends_in_open_line_comment(t) {
            assert(block_text(d, t, ind, line_start, toks) =~= t.push('\n'));
        } else {
            assert(block_text(d, t, ind, line_start, toks) =~= t);
        }
    }
}

} // verus!
