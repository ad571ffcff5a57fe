use vstd::prelude::*;

use crate::config::{Config, State};
use crate::parser::common::Loc;
use crate::parser::lexer_util::{escaped_at, push_char};

verus! {

/// How many characters remain of `s` once trailing spaces and tabs are cut.
pub open spec fn trimmed_len(s: Seq<char>) -> int
    decreases s.len(),
{
    if s.len() > 0 && (s.last() == ' ' || s.last() == '\t') {
        trimmed_len(s.drop_last())
    } else {
        s.len() as int
    }
}

proof fn lemma_trimmed_len(s: Seq<char>)
    ensures
        0 <= trimmed_len(s) <= s.len(),
        forall|i: int| trimmed_len(s) <= i < s.len() ==> s[i] == ' ' || s[i] == '\t',
        trimmed_len(s) > 0 ==> s[trimmed_len(s) - 1] != ' ' && s[trimmed_len(s) - 1] != '\t',
    decreases s.len(),
{
    if s.len() > 0 && (s.last() == ' ' || s.last() == '\t') {
        lemma_trimmed_len(s.drop_last());
        assert forall|i: int| trimmed_len(s) <= i < s.len() implies s[i] == ' ' || s[i] == '\t' by {
            if i < s.len() - 1 {
                assert(s[i] == s.drop_last()[i]);
            }
        }
    }
}

/// The string without its trailing spaces and tabs.
pub fn trim_end_spaces_and_tabs<'a>(string: &'a String) -> (res: &'a str)
    ensures
        res@ == string@.take(trimmed_len(string@)),
{
    let s = string.as_str();
    let n = s.unicode_len();
    let mut k = n;
    proof { lemma_trimmed_len(s@); }
    assert(s@.take(n as int) =~= s@);
    while k > 0 && (s.get_char(k - 1) == ' ' || s.get_char(k - 1) == '\t')
        invariant
            n == s@.len(),
            s@ == string@,
            k <= n,
            trimmed_len(s@.take(k as int)) == trimmed_len(s@),
        decreases k,
    {
        assert(s@.take(k as int).drop_last() =~= s@.take(k - 1));
        k = k - 1;
    }
    assert(s@.take(k as int).len() == k);
    assert(trimmed_len(s@.take(k as int)) == k);
    s.substring_char(0, k)
}

/// How many characters follow the last line feed of `s` (all of them when there is none).
pub open spec fn len_after_newline(s: Seq<char>) -> int
    decreases s.len(),
{
    if s.len() == 0 || s.last() == '\n' {
        0
    } else {
        1 + len_after_newline(s.drop_last())
    }
}

/// How many characters come before the first line feed of `s` (all of them when there is none).
pub open spec fn len_till_newline(s: Seq<char>) -> int
    decreases s.len(),
{
    if s.len() == 0 || s[0] == '\n' {
        0
    } else {
        1 + len_till_newline(s.drop_first())
    }
}

pub fn get_len_after_newline(s: &str, _cfg: &Config) -> (res: usize)
    ensures
        res == len_after_newline(s@),
{
    let n = s.unicode_len();
    let mut k = n;
    let mut count: usize = 0;
    assert(s@.take(n as int) =~= s@);
    while k > 0 && s.get_char(k - 1) != '\n'
        invariant
            n == s@.len(),
            k <= n,
            count == n - k,
            len_after_newline(s@) == count + len_after_newline(s@.take(k as int)),
        decreases k,
    {
        assert(s@.take(k as int).drop_last() =~= s@.take(k - 1));
        k = k - 1;
        count = count + 1;
    }
    count
}

pub fn get_len_till_newline(s: &str, _cfg: &Config) -> (res: usize)
    ensures
        res == len_till_newline(s@),
{
    let n = s.unicode_len();
    let mut k: usize = 0;
    assert(s@.skip(0) =~= s@);
    while k < n && s.get_char(k) != '\n'
        invariant
            n == s@.len(),
            k <= n,
            len_till_newline(s@) == k + len_till_newline(s@.skip(k as int)),
        decreases n - k,
    {
        assert(s@.skip(k as int).drop_first() =~= s@.skip(k + 1));
        k = k + 1;
    }
    k
}

pub open spec fn spec_has_newlines(s: Seq<char>) -> bool {
    exists|i: int| 0 <= i < s.len() && s[i] == '\n'
}

pub fn has_newlines(s: &str) -> (res: bool)
    ensures
        res == spec_has_newlines(s@),
{
    let n = s.unicode_len();
    let mut k: usize = 0;
    while k < n
        invariant
            n == s@.len(),
            k <= n,
            forall|i: int| 0 <= i < k ==> s@[i] != '\n',
        decreases n - k,
    {
        if s.get_char(k) == '\n' {
            return true;
        }
        k = k + 1;
    }
    false
}

/// What a character of a single-quoted string becomes between double quotes:
/// a double quote that is not escaped gets a backslash.
pub open spec fn normal_piece(c: char, escaped: bool) -> Seq<char> {
    if c == '"' && !escaped {
        seq!['\\', '"']
    } else {
        seq![c]
    }
}

/// The text of a single-quoted string rewritten for double quotes.
pub open spec fn spec_charstring_to_normalstring(s: Seq<char>) -> Seq<char>
    decreases s.len(),
{
    if s.len() == 0 {
        Seq::empty()
    } else {
        spec_charstring_to_normalstring(s.drop_last()) + normal_piece(s.last(), escaped_at(s, 0, s.len() - 1))
    }
}

proof fn lemma_escaped_prefix(s: Seq<char>, k: int, m: int)
    requires
        0 <= k <= m <= s.len(),
    ensures
        escaped_at(s.take(m), 0, k) == escaped_at(s, 0, k),
    decreases k,
{
    if k > 0 {
        lemma_escaped_prefix(s, k - 1, m);
    }
}

proof fn lemma_conversion_push(x: Seq<char>, c: char)
    ensures
        spec_charstring_to_normalstring(x.push(c)) == spec_charstring_to_normalstring(x) + normal_piece(
            c,
            escaped_at(x, 0, x.len() as int),
        ),
        escaped_at(x.push(c), 0, x.len() as int) == escaped_at(x, 0, x.len() as int),
{
    let y = x.push(c);
    assert(y.drop_last() =~= x);
    assert(y.take(x.len() as int) =~= x);
    lemma_escaped_prefix(y, x.len() as int, x.len() as int);
}

/// Converting a string twice gives what converting it once gives: the converted text has
/// every double quote escaped already, and it ends escaped exactly where the source does.
pub proof fn lemma_conversion_idempotent(s: Seq<char>)
    ensures
        spec_charstring_to_normalstring(spec_charstring_to_normalstring(s)) == spec_charstring_to_normalstring(s),
        escaped_at(spec_charstring_to_normalstring(s), 0, spec_charstring_to_normalstring(s).len() as int)
            == escaped_at(s, 0, s.len() as int),
    decreases s.len(),
{
    if s.len() > 0 {
        let x = s.drop_last();
        let c = s.last();
        lemma_conversion_idempotent(x);
        assert(x.push(c) =~= s);
        lemma_conversion_push(x, c);
        let e = escaped_at(x, 0, x.len() as int);
        let o1 = spec_charstring_to_normalstring(x);
        if c == '"' && !e {
            lemma_conversion_push(o1, '\\');
            lemma_conversion_push(o1.push('\\'), '"');
            assert(o1.push('\\').push('"') =~= o1 + seq!['\\', '"']);
        } else {
            lemma_conversion_push(o1, c);
            assert(o1.push(c) =~= o1 + seq![c]);
        }
    }
}

/// Converting a string that holds no double quote leaves it as it is: every other
/// character, a single quote and a backslash among them, is kept in its place.
pub proof fn lemma_conversion_keeps_text(s: Seq<char>)
    requires
        !s.contains('"'),
    ensures
        spec_charstring_to_normalstring(s) == s,
    decreases s.len(),
{
    if s.len() > 0 {
        let x = s.drop_last();
        assert(!x.contains('"')) by {
            if x.contains('"') {
                let i = choose|i: int| 0 <= i < x.len() && x[i] == '"';
                assert(s[i] == '"');
            }
        }
        lemma_conversion_keeps_text(x);
        assert(s[s.len() - 1] != '"');
        assert(x + seq![s.last()] =~= s);
    }
}

/// Every double quote of a converted string is escaped: between double quotes it stands
/// for a quote character, not for the end of the string.
pub proof fn lemma_conversion_escapes_quotes(s: Seq<char>)
    ensures
        forall|i: int| 0 <= i < spec_charstring_to_normalstring(s).len()
            && spec_charstring_to_normalstring(s)[i] == '"'
            ==> #[trigger] escaped_at(spec_charstring_to_normalstring(s), 0, i),
    decreases s.len(),
{
    if s.len() > 0 {
        let x = s.drop_last();
        let c = s.last();
        lemma_conversion_escapes_quotes(x);
        lemma_conversion_idempotent(x);
        let o1 = spec_charstring_to_normalstring(x);
        let e = escaped_at(s, 0, s.len() - 1);
        let out = spec_charstring_to_normalstring(s);
        assert(x.push(c) =~= s);
        lemma_conversion_push(x, c);
        assert(e == escaped_at(x, 0, x.len() as int));
        assert(out == o1 + normal_piece(c, e));
        assert forall|i: int| 0 <= i < out.len() && out[i] == '"' implies #[trigger] escaped_at(out, 0, i) by {
            assert(out.take(o1.len() as int) =~= o1);
            lemma_escaped_prefix(out, o1.len() as int, o1.len() as int);
            if i < o1.len() {
                lemma_escaped_prefix(out, i, o1.len() as int);
                assert(out[i] == o1[i]);
            } else if i == o1.len() {
                assert(escaped_at(out, 0, i) == escaped_at(o1, 0, o1.len() as int));
            } else {
                assert(escaped_at(out, 0, o1.len() as int) == escaped_at(o1, 0, o1.len() as int));
                assert(out[o1.len() as int] == '\\');
            }
        }
    }
}

pub fn charstring_to_normalstring(s: &str) -> (res: String)
    ensures
        res@ == spec_charstring_to_normalstring(s@),
{
    let mut result = String::new();
    let mut escaped = false;
    let n = s.unicode_len();
    let mut i: usize = 0;
    while i < n
        invariant
            n == s@.len(),
            i <= n,
            escaped == escaped_at(s@, 0, i as int),
            result@ == spec_charstring_to_normalstring(s@.take(i as int)),
        decreases n - i,
    {
        let ch = s.get_char(i);
        proof {
            assert(s@.take(i + 1).drop_last() =~= s@.take(i as int));
            lemma_escaped_prefix(s@, i as int, i + 1);
        }
        if ch == '"' && !escaped {
            push_char(&mut result, '\\');
            push_char(&mut result, '"');
        } else {
            push_char(&mut result, ch);
        }
        assert(result@ =~= spec_charstring_to_normalstring(s@.take(i + 1)));
        escaped = !escaped && ch == '\\';
        i = i + 1;
    }
    assert(s@.take(n as int) =~= s@);
    result
}

/// `s` written `k` times.
pub open spec fn repeat(s: Seq<char>, k: int) -> Seq<char>
    decreases k,
{
    if k <= 0 {
        Seq::empty()
    } else {
        repeat(s, k - 1) + s
    }
}

/// Writes the indentation string once per indentation level.
pub fn write_indent(f: &mut String, cfg: &Config, state: &State) -> (res: Result<(), std::fmt::Error>)
    ensures
        res is Ok,
        final(f)@ == old(f)@ + match cfg.fmt.indentation_string {
            Some(ind) => repeat(ind@, state.indent_level as int),
            None => Seq::empty(),
        },
{
    match &cfg.fmt.indentation_string {
        Some(indent_str) => {
            let mut k: isize = 0;
            assert(old(f)@ =~= old(f)@ + repeat(indent_str@, 0));
            while k < state.indent_level
                invariant
                    0 <= k,
                    k <= state.indent_level || k == 0,
                    f@ == old(f)@ + repeat(indent_str@, k as int),
                decreases state.indent_level - k,
            {
                f.append(indent_str.as_str());
                k = k + 1;
                assert(f@ =~= old(f)@ + repeat(indent_str@, k as int));
            }
            assert(repeat(indent_str@, k as int) == repeat(indent_str@, state.indent_level as int));
        },
        None => {
            assert(old(f)@ =~= old(f)@ + Seq::<char>::empty());
        },
    }
    Ok(())
}

/// The indices of the line feeds of `s`, in order.
pub open spec fn newline_positions(s: Seq<char>) -> Seq<int>
    decreases s.len(),
{
    if s.len() == 0 {
        Seq::empty()
    } else if s.last() == '\n' {
        newline_positions(s.drop_last()).push(s.len() - 1)
    } else {
        newline_positions(s.drop_last())
    }
}

/// Line boundaries: zero, every line feed, and the length of the text.
pub open spec fn line_bounds(s: Seq<char>) -> Seq<int> {
    seq![0int] + newline_positions(s) + seq![s.len() as int]
}

pub open spec fn spec_line_range_to_pos_range(s: Seq<char>, lr: Option<(usize, usize)>) -> (int, int) {
    let b = line_bounds(s);
    match lr {
        Some((l0, l1)) if l0 > 0 && l1 > 0 && l0 <= l1 && l0 < b.len() && l1 < b.len() => (b[l0 - 1], b[l1 as int]),
        _ => (b[0], b[b.len() - 1]),
    }
}

/// How many line feeds the text holds.
pub open spec fn count_newlines(s: Seq<char>) -> nat
    decreases s.len(),
{
    if s.len() == 0 {
        0
    } else {
        count_newlines(s.drop_last()) + if s.last() == '\n' { 1nat } else { 0nat }
    }
}

proof fn lemma_newline_positions(s: Seq<char>)
    ensures
        newline_positions(s).len() == count_newlines(s),
        forall|k: int| 0 <= k < newline_positions(s).len() ==> {
            let p = #[trigger] newline_positions(s)[k];
            &&& 0 <= p < s.len()
            &&& s[p] == '\n'
            &&& count_newlines(s.take(p)) == k
        },
    decreases s.len(),
{
    if s.len() > 0 {
        let x = s.drop_last();
        lemma_newline_positions(x);
        assert forall|k: int| 0 <= k < newline_positions(s).len() implies {
            let p = #[trigger] newline_positions(s)[k];
            &&& 0 <= p < s.len()
            &&& s[p] == '\n'
            &&& count_newlines(s.take(p)) == k
        } by {
            if k < newline_positions(x).len() {
                let p = newline_positions(x)[k];
                assert(newline_positions(s)[k] == p);
                assert(s.take(p) =~= x.take(p));
            } else {
                assert(s.take(s.len() - 1) =~= x);
            }
        }
    }
}

/// The span of the lines `l0..=l1` (counted from one) starts at the text's start for the
/// first line, else at the line feed that ends line `l0 - 1`; it ends at the line feed
/// that ends line `l1`, or at the text's end for the last line. A range that names no lines
/// of the text, or none at all, spans the whole text.
pub proof fn lemma_line_span(s: Seq<char>, lr: Option<(usize, usize)>)
    ensures
        ({
            let (a, b) = spec_line_range_to_pos_range(s, lr);
            let n = count_newlines(s);
            match lr {
                Some((l0, l1)) if 1 <= l0 <= l1 <= n + 1 => {
                    &&& l0 == 1 ==> a == 0
                    &&& l0 > 1 ==> 0 <= a < s.len() && s[a] == '\n' && count_newlines(s.take(a)) == l0 - 2
                    &&& l1 <= n ==> 0 <= b < s.len() && s[b] == '\n' && count_newlines(s.take(b)) == l1 - 1
                    &&& l1 == n + 1 ==> b == s.len()
                },
                _ => a == 0 && b == s.len(),
            }
        }),
{
    lemma_newline_positions(s);
    let np = newline_positions(s);
    let bd = line_bounds(s);
    assert(bd.len() == np.len() + 2);
    assert(forall|i: int| 1 <= i <= np.len() ==> bd[i] == np[i - 1]);
    assert(bd[0] == 0 && bd[bd.len() - 1] == s.len());
}

/// The character span of the lines `first..=last` (counted from one): from the line feed
/// before the first line to the line feed after the last; the whole text when the range does not fit.
pub fn line_range_to_pos_range(buf: &str, lr_opt: Option<(usize, usize)>) -> (res: (usize, usize))
    requires
        buf@.len() < usize::MAX,
    ensures
        res.0 == spec_line_range_to_pos_range(buf@, lr_opt).0,
        res.1 == spec_line_range_to_pos_range(buf@, lr_opt).1,
{
    let n = buf.unicode_len();
    let mut nlpos: Vec<usize> = Vec::new();
    nlpos.push(0);
    let mut i: usize = 0;
    while i < n
        invariant
            n == buf@.len(),
            n < usize::MAX,
            i <= n,
            nlpos@.len() >= 1,
            nlpos@[0] == 0,
            nlpos@.len() == newline_positions(buf@.take(i as int)).len() + 1,
            forall|k: int| 0 <= k < newline_positions(buf@.take(i as int)).len() ==>
                nlpos@[k + 1] as int == #[trigger] newline_positions(buf@.take(i as int))[k],
        decreases n - i,
    {
        assert(buf@.take(i + 1).drop_last() =~= buf@.take(i as int));
        if buf.get_char(i) == '\n' {
            nlpos.push(i);
        }
        i = i + 1;
    }
    nlpos.push(n);
    assert(buf@.take(n as int) =~= buf@);
    let ghost b = line_bounds(buf@);
    assert(nlpos@.len() == b.len());
    assert(forall|k: int| 0 <= k < b.len() ==> nlpos@[k] as int == #[trigger] b[k]);
    if let Some(lr) = lr_opt {
        if lr.0 > 0 && lr.1 > 0 && lr.0 <= lr.1 && lr.0 < nlpos.len() && lr.1 < nlpos.len() {
            return (nlpos[lr.0 - 1], nlpos[lr.1]);
        }
    }
    (nlpos[0], nlpos[nlpos.len() - 1])
}

/// Whether a span lies wholly outside the character range that is to be formatted.
pub open spec fn spec_out_of_range(pos_range: Option<(usize, usize)>, loc: Loc) -> bool {
    match pos_range {
        Some((l, r)) => loc.1 <= l || loc.0 > r,
        None => false,
    }
}

pub fn test_out_of_range(pos_range: &Option<(usize, usize)>, loc: &Loc) -> (res: bool)
    ensures
        res == spec_out_of_range(*pos_range, *loc),
{
    match pos_range {
        Some((l, r)) => loc.1 <= *l || loc.0 > *r,
        None => false,
    }
}

} // verus!
