use vstd::prelude::*;
use vstd::std_specs::iter::IteratorSpec;

verus! {

/// Appends one character to a string (`String::push`); the contract claims that the text
/// grows by that character at its end.
#[verifier::external_body]
pub fn push_char(s: &mut String, c: char)
    ensures
        final(s)@ == old(s)@.push(c),
{
    s.push(c);
}

/// A peekable cursor over the characters of a text, numbered from zero.
pub struct TChars {
    chars: Vec<char>,
    pos: usize,
}

impl TChars {
    #[verifier::type_invariant]
    pub closed spec fn inv(self) -> bool {
        self.pos <= self.chars@.len()
    }

    pub proof fn lemma_inv(self)
        requires
            self.inv(),
        ensures
            0 <= self.index() <= self.text().len(),
    {
    }

    /// The whole text the cursor walks over.
    pub closed spec fn text(&self) -> Seq<char> {
        self.chars@
    }

    /// The index of the next character to be handed out.
    pub closed spec fn index(&self) -> int {
        self.pos as int
    }

    pub fn new(s: &str) -> (res: TChars)
        ensures
            res.text() == s@,
            res.index() == 0,
    {
        let mut v: Vec<char> = Vec::new();
        proof {
            broadcast use vstd::string::group_string_axioms;
        }
        for c in it: s.chars()
            invariant
                v@ == it.seq().take(it.index() as int),
        {
            v.push(c);
        }
        assert(v@ == s@);
        TChars { chars: v, pos: 0 }
    }

    /// The next character and its index, without moving on.
    pub fn peek(&self) -> (res: Option<(usize, char)>)
        ensures
            self.index() < self.text().len() ==> res == Some((self.index() as usize, self.text()[self.index()])),
            self.index() >= self.text().len() ==> res is None,
            0 <= self.index() <= self.text().len(),
    {
        proof { use_type_invariant(self); }
        if self.pos < self.chars.len() {
            Some((self.pos, self.chars[self.pos]))
        } else {
            None
        }
    }

    /// Hands out the next character and its index, and moves past it.
    pub fn next(&mut self) -> (res: Option<(usize, char)>)
        ensures
            final(self).text() == old(self).text(),
            old(self).index() < old(self).text().len() ==> res == Some((old(self).index() as usize, old(self).text()[old(self).index()]))
                && final(self).index() == old(self).index() + 1,
            old(self).index() >= old(self).text().len() ==> res is None && final(self).index() == old(self).index(),
            0 <= final(self).index() <= final(self).text().len(),
    {
        proof { use_type_invariant(&*self); }
        if self.pos < self.chars.len() {
            let r = (self.pos, self.chars[self.pos]);
            self.pos = self.pos + 1;
            Some(r)
        } else {
            None
        }
    }
}

} // verus!

verus! {

pub open spec fn is_digit(c: char) -> bool {
    '0' <= c && c <= '9'
}

pub open spec fn is_hex_digit(c: char) -> bool {
    is_digit(c) || ('A' <= c && c <= 'F') || ('a' <= c && c <= 'f')
}

pub open spec fn is_alpha(c: char) -> bool {
    ('a' <= c && c <= 'z') || ('A' <= c && c <= 'Z')
}

pub fn exec_is_digit(c: char) -> (r: bool)
    ensures
        r == is_digit(c),
{
    '0' <= c && c <= '9'
}

pub fn exec_is_alpha(c: char) -> (r: bool)
    ensures
        r == is_alpha(c),
{
    ('a' <= c && c <= 'z') || ('A' <= c && c <= 'Z')
}

/// What ends a scan: the first character that meets the condition.
pub enum Stop {
    NewLine,
    NonDigit,
    NonHexDigit,
    NonFloatChar,
    NonWordChar,
    NonEquals,
    Quote(char),
}

pub open spec fn stops(stop: Stop, c: char, escaped: bool) -> bool {
    match stop {
        Stop::NewLine => c == '\n',
        Stop::NonDigit => !is_digit(c),
        Stop::NonHexDigit => !is_hex_digit(c),
        Stop::NonFloatChar => !is_digit(c) && c != '.',
        Stop::NonWordChar => !is_alpha(c) && !is_digit(c) && c != '_',
        Stop::NonEquals => c != '=',
        Stop::Quote(q) => !escaped && c == q,
    }
}

fn exec_stops(stop: &Stop, c: char, escaped: bool) -> (r: bool)
    ensures
        r == stops(*stop, c, escaped),
{
    match stop {
        Stop::NewLine => c == '\n',
        Stop::NonDigit => !exec_is_digit(c),
        Stop::NonHexDigit => !(exec_is_digit(c) || ('A' <= c && c <= 'F') || ('a' <= c && c <= 'f')),
        Stop::NonFloatChar => !exec_is_digit(c) && c != '.',
        Stop::NonWordChar => !exec_is_alpha(c) && !exec_is_digit(c) && c != '_',
        Stop::NonEquals => c != '=',
        Stop::Quote(q) => !escaped && c == *q,
    }
}

/// Whether the character at `k` is escaped, for a scan that began at `p`:
/// it is when an odd run of backslashes, begun at or after `p`, stands right before it.
pub open spec fn escaped_at(text: Seq<char>, p: int, k: int) -> bool
    decreases k - p,
{
    if k <= p {
        false
    } else {
        !escaped_at(text, p, k - 1) && text[k - 1] == '\\'
    }
}

/// The first index at or after `k` where a scan begun at `p` stops, or the text's length.
pub open spec fn scan_from(text: Seq<char>, p: int, k: int, stop: Stop) -> int
    decreases text.len() - k,
{
    if k >= text.len() {
        text.len() as int
    } else if stops(stop, text[k], escaped_at(text, p, k)) {
        k
    } else {
        scan_from(text, p, k + 1, stop)
    }
}

pub open spec fn scan_end(text: Seq<char>, p: int, stop: Stop) -> int {
    scan_from(text, p, p, stop)
}

pub proof fn lemma_scan_from(text: Seq<char>, p: int, k: int, stop: Stop)
    requires
        p <= k <= text.len(),
    ensures
        k <= scan_from(text, p, k, stop) <= text.len(),
        forall|j: int| k <= j < scan_from(text, p, k, stop) ==> !stops(stop, text[j], escaped_at(text, p, j)),
        scan_from(text, p, k, stop) < text.len() ==> stops(
            stop,
            text[scan_from(text, p, k, stop)],
            escaped_at(text, p, scan_from(text, p, k, stop)),
        ),
    decreases text.len() - k,
{
    if k < text.len() && !stops(stop, text[k], escaped_at(text, p, k)) {
        lemma_scan_from(text, p, k + 1, stop);
    }
}

/// A scan that starts inside the text hands back the characters it passed over, none of
/// which stops it, and ends at the first character that stops it (found) or at the end of
/// the text (not found), where the cursor then stands.
pub proof fn lemma_scan_outcome(t: Seq<char>, p: int, start: int, stop: Stop)
    requires
        0 <= p < t.len(),
    ensures
        ({
            let o = seek_outcome(t, p, start, stop);
            &&& p <= o.0 <= t.len()
            &&& o.3 == o.0
            &&& o.2 == t.subrange(p, o.0)
            &&& o.1 == (o.0 < t.len())
            &&& forall|j: int| p <= j < o.0 ==> !stops(stop, t[j], escaped_at(t, p, j))
            &&& o.1 ==> stops(stop, t[o.0], escaped_at(t, p, o.0))
        }),
{
    lemma_scan_from(t, p, p, stop);
}

/// What a scan hands back: the reported end, whether the stop character was found,
/// the characters passed over, and the cursor's index afterwards.
pub open spec fn seek_outcome(text: Seq<char>, p: int, start: int, stop: Stop) -> (int, bool, Seq<char>, int) {
    if p >= text.len() {
        (start, false, Seq::empty(), p)
    } else {
        let e = scan_end(text, p, stop);
        (e, e < text.len(), text.subrange(p, e), e)
    }
}

fn seek_end_by_predicate(chars: &mut TChars, start: usize, stop: Stop) -> (res: (usize, bool, String))
    ensures
        final(chars).text() == old(chars).text(),
        ({
            let o = seek_outcome(old(chars).text(), old(chars).index(), start as int, stop);
            &&& res.0 == o.0
            &&& res.1 == o.1
            &&& res.2@ == o.2
            &&& final(chars).index() == o.3
        }),
{
    let ghost t = chars.text();
    let ghost p = chars.index();
    let mut result = String::new();
    if chars.peek().is_none() {
        return (start, false, result);
    }
    proof { lemma_scan_from(t, p, p, stop); }
    let mut escaped = false;
    loop
        invariant
            chars.text() == t,
            t == old(chars).text(),
            p == old(chars).index(),
            p < t.len(),
            p <= chars.index() <= scan_end(t, p, stop),
            scan_from(t, p, chars.index(), stop) == scan_end(t, p, stop),
            escaped == escaped_at(t, p, chars.index()),
            result@ == t.subrange(p, chars.index()),
        decreases t.len() - chars.index(),
    {
        let ghost k = chars.index();
        match chars.peek() {
            Some((i, ch)) => {
                if exec_stops(&stop, ch, escaped) {
                    return (i, true, result);
                }
                chars.next();
                proof { lemma_scan_from(t, p, k + 1, stop); }
                escaped = !escaped && ch == '\\';
                push_char(&mut result, ch);
                assert(result@ == t.subrange(p, k + 1));
            },
            None => {
                return (chars.chars.len(), false, result);
            },
        }
    }
}

} // verus!

verus! {

/// What `get_shebang_ends` hands back: text end, token end, the text, and the cursor afterwards.
pub open spec fn shebang_outcome(text: Seq<char>, p: int, start: int) -> (int, int, Seq<char>, int) {
    let o = seek_outcome(text, p, start, Stop::NewLine);
    if o.1 {
        (o.0, o.0 + 1, o.2, o.3 + 1)
    } else {
        (o.0, o.0, o.2, o.3)
    }
}

/// Reads the rest of a `#!` line; the line feed that ends it is passed over.
pub fn get_shebang_ends(chars: &mut TChars, start: usize) -> (res: (usize, usize, String))
    requires
        old(chars).text().len() < usize::MAX,
    ensures
        final(chars).text() == old(chars).text(),
        ({
            let o = shebang_outcome(old(chars).text(), old(chars).index(), start as int);
            &&& res.0 == o.0 &&& res.1 == o.1 &&& res.2@ == o.2 &&& final(chars).index() == o.3
        }),
{
    // we already got "#!" symbols
    let (end, succ, result) = seek_end_by_predicate(chars, start, Stop::NewLine);
    if succ {
        // skip '\n'
        chars.next();
        return (end, end + 1, result);
    }
    return (end, end, result);
}

/// What the word-like scans (integers, hex integers, names) hand back:
/// the end, whether a word ends there, the word, and the cursor afterwards.
pub open spec fn word_outcome(text: Seq<char>, p: int, start: int, stop: Stop) -> (int, bool, Seq<char>, int) {
    let o = seek_outcome(text, p, start, stop);
    (o.0, !(start >= o.0 && !o.1), o.2, o.3)
}

fn get_word_end(chars: &mut TChars, start: usize, stop: Stop) -> (res: (usize, bool, String))
    ensures
        final(chars).text() == old(chars).text(),
        ({
            let o = word_outcome(old(chars).text(), old(chars).index(), start as int, stop);
            &&& res.0 == o.0 &&& res.1 == o.1 &&& res.2@ == o.2 &&& final(chars).index() == o.3
        }),
{
    let (end, succ, result) = seek_end_by_predicate(chars, start, stop);
    if start >= end && !succ {
        (end, false, result)
    } else {
        (end, true, result)
    }
}

/// An integer scan that starts inside the text always ends correctly: it hands back the
/// run of decimal digits there (possibly empty), which ends at the first other character
/// or at the end of the text.
pub proof fn lemma_integer_scan(t: Seq<char>, p: int)
    requires
        0 <= p < t.len(),
    ensures
        ({
            let o = word_outcome(t, p, p, Stop::NonDigit);
            &&& o.1
            &&& p <= o.0 <= t.len()
            &&& o.2 == t.subrange(p, o.0)
            &&& forall|j: int| p <= j < o.0 ==> is_digit(#[trigger] t[j])
            &&& o.0 < t.len() ==> !is_digit(t[o.0])
        }),
{
    lemma_scan_from(t, p, p, Stop::NonDigit);
}

/// Reads a run of decimal digits.
pub fn get_integer_end(chars: &mut TChars, start: usize) -> (res: (usize, bool, String))
    ensures
        final(chars).text() == old(chars).text(),
        ({
            let o = word_outcome(old(chars).text(), old(chars).index(), start as int, Stop::NonDigit);
            &&& res.0 == o.0 &&& res.1 == o.1 &&& res.2@ == o.2 &&& final(chars).index() == o.3
        }),
{
    // integer numbers always end correctly
    get_word_end(chars, start, Stop::NonDigit)
}

/// Reads a run of hexadecimal digits.
pub fn get_hex_integer_end(chars: &mut TChars, start: usize) -> (res: (usize, bool, String))
    ensures
        final(chars).text() == old(chars).text(),
        ({
            let o = word_outcome(old(chars).text(), old(chars).index(), start as int, Stop::NonHexDigit);
            &&& res.0 == o.0 &&& res.1 == o.1 &&& res.2@ == o.2 &&& final(chars).index() == o.3
        }),
{
    // hex integer numbers always end correctly
    get_word_end(chars, start, Stop::NonHexDigit)
}

/// Reads a name: letters, digits and underscores.
pub fn get_variable_end(chars: &mut TChars, start: usize) -> (res: (usize, bool, String))
    ensures
        final(chars).text() == old(chars).text(),
        ({
            let o = word_outcome(old(chars).text(), old(chars).index(), start as int, Stop::NonWordChar);
            &&& res.0 == o.0 &&& res.1 == o.1 &&& res.2@ == o.2 &&& final(chars).index() == o.3
        }),
{
    // variables always end correctly
    get_word_end(chars, start, Stop::NonWordChar)
}

/// What `get_float_end` hands back: the end, whether the number is well formed,
/// its text (empty when the input ends right after an exponent mark), and the cursor afterwards.
pub open spec fn float_outcome(text: Seq<char>, p: int, start: int) -> (int, bool, Seq<char>, int) {
    let o = seek_outcome(text, p, start, Stop::NonFloatChar);
    let q = o.3;
    if q < text.len() && (text[q] == 'e' || text[q] == 'E') {
        if q + 1 >= text.len() {
            (q + 1, false, Seq::empty(), q + 1)
        } else {
            let minus = text[q + 1] == '-';
            let pre = if minus { o.2.push(text[q]).push('-') } else { o.2.push(text[q]) };
            let p2 = if minus { q + 2 } else { q + 1 };
            let io = word_outcome(text, p2, p2, Stop::NonDigit);
            if io.1 {
                (io.0, true, pre + io.2, io.3)
            } else {
                (io.0, false, pre, io.3)
            }
        }
    } else {
        (o.0, true, o.2, o.3)
    }
}

/// Reads the digits and dots of a number, then an optional exponent.
pub fn get_float_end(chars: &mut TChars, start: usize) -> (res: (usize, bool, String))
    requires
        old(chars).text().len() < usize::MAX,
    ensures
        final(chars).text() == old(chars).text(),
        ({
            let o = float_outcome(old(chars).text(), old(chars).index(), start as int);
            &&& res.0 == o.0 &&& res.1 == o.1 &&& res.2@ == o.2 &&& final(chars).index() == o.3
        }),
{
    let ghost t = chars.text();
    // we already got one float symbol
    let (end, _, mut result) = seek_end_by_predicate(chars, start, Stop::NonFloatChar);
    match chars.peek() {
        Some((i, ch)) => {
            if ch == 'e' || ch == 'E' {
                chars.next();
                push_char(&mut result, ch);
                let mut cur_ind = i;
                match chars.peek() {
                    Some((si, c2)) => {
                        if c2 == '-' {
                            chars.next();
                            push_char(&mut result, '-');
                            cur_ind = si;
                        }
                    },
                    None => return (i + 1, false, String::new()),
                }
                let (end, flag, int_end) = get_integer_end(chars, cur_ind + 1);
                if flag {
                    result.append(int_end.as_str());
                    return (end, true, result);
                }
                return (end, false, result);
            }
            (end, true, result)
        },
        None => (end, true, result),
    }
}

/// What `get_string_ends` hands back: text end, token end, whether the closing quote
/// was found, the text between the quotes, and the cursor afterwards.
pub open spec fn quoted_outcome(text: Seq<char>, p: int, start: int, stop: Stop, always: bool) -> (int, int, bool, Seq<char>, int) {
    let o = seek_outcome(text, p, start, stop);
    if o.1 {
        (o.0, o.0 + 1, true, o.2, o.3 + 1)
    } else {
        (o.0, o.0, always, o.2, o.3)
    }
}

/// Reads a quoted string up to the closing quote `prefix`, which a backslash escapes.
pub fn get_string_ends(chars: &mut TChars, prefix: char, start: usize) -> (res: (usize, usize, bool, String))
    requires
        old(chars).text().len() < usize::MAX,
    ensures
        final(chars).text() == old(chars).text(),
        ({
            let o = quoted_outcome(old(chars).text(), old(chars).index(), start as int, Stop::Quote(prefix), false);
            &&& res.0 == o.0 &&& res.1 == o.1 &&& res.2 == o.2 &&& res.3@ == o.3 &&& final(chars).index() == o.4
        }),
{
    // we already got one symbol - prefix
    let (text_end, succ, result) = seek_end_by_predicate(chars, start, Stop::Quote(prefix));
    if succ {
        // skip `prefix` char
        chars.next();
        return (text_end, text_end + 1, true, result);
    } else {
        return (text_end, text_end, false, result);
    }
}

/// Reads a one-line comment up to the end of the line; the line feed is passed over.
pub fn get_oneline_comment_ends(chars: &mut TChars, start: usize) -> (res: (usize, usize, bool, String))
    requires
        old(chars).text().len() < usize::MAX,
    ensures
        final(chars).text() == old(chars).text(),
        ({
            let o = quoted_outcome(old(chars).text(), old(chars).index(), start as int, Stop::NewLine, true);
            &&& res.0 == o.0 &&& res.1 == o.1 &&& res.2 == o.2 &&& res.3@ == o.3 &&& final(chars).index() == o.4
        }),
{
    // we already got "--" symbols
    let (text_end, succ, result) = seek_end_by_predicate(chars, start, Stop::NewLine);
    if succ {
        // skip '\n'
        chars.next();
        return (text_end, text_end + 1, true, result);
    } else {
        return (text_end, text_end, true, result);
    }
}

/// The level of a long bracket: how far the run of `=` that begins at the cursor reaches past `start`.
pub open spec fn level_outcome(text: Seq<char>, p: int, start: int) -> (int, int) {
    let o = seek_outcome(text, p, start, Stop::NonEquals);
    (if o.0 >= start { o.0 - start } else { 0 }, o.3)
}

/// Counts the `=` signs of a long bracket.
pub fn get_multiline_string_level(chars: &mut TChars, start: usize) -> (res: usize)
    ensures
        final(chars).text() == old(chars).text(),
        res == level_outcome(old(chars).text(), old(chars).index(), start as int).0,
        final(chars).index() == level_outcome(old(chars).text(), old(chars).index(), start as int).1,
{
    let (end, _, _) = seek_end_by_predicate(chars, start, Stop::NonEquals);
    if end >= start {
        end - start
    } else {
        0
    }
}

} // verus!

verus! {

/// The character at `j` is not escaped: a scan begun at `p` starts there, or no backslash comes right before it.
pub open spec fn unescaped(text: Seq<char>, p: int, j: int) -> bool {
    j == p || text[j - 1] != '\\'
}

/// A closing long bracket of `level` (`]`, `level` times `=`, `]`) begins at `j`.
pub open spec fn closes_at(text: Seq<char>, p: int, j: int, level: int) -> bool {
    &&& p <= j
    &&& j + level + 1 < text.len()
    &&& text[j] == ']'
    &&& unescaped(text, p, j)
    &&& forall|k: int| j < k <= j + level ==> text[k] == '='
    &&& text[j + level + 1] == ']'
}

/// The first index at or after `k` where a closing long bracket begins, or the text's length.
pub open spec fn close_from(text: Seq<char>, p: int, k: int, level: int) -> int
    decreases text.len() - k,
{
    if k >= text.len() {
        text.len() as int
    } else if closes_at(text, p, k, level) {
        k
    } else {
        close_from(text, p, k + 1, level)
    }
}

/// An unescaped `]` stands at `j` and only `=` signs follow it to the end of the text.
pub open spec fn trails_at(text: Seq<char>, p: int, j: int) -> bool {
    &&& p <= j < text.len()
    &&& text[j] == ']'
    &&& unescaped(text, p, j)
    &&& forall|k: int| j < k < text.len() ==> text[k] == '='
}

/// What `get_multiline_string_ends` hands back: text end, token end, whether the closing
/// bracket was found, the text before it, and the cursor afterwards.
pub open spec fn multiline_outcome(text: Seq<char>, p: int, start: int, level: int) -> (int, int, bool, Seq<char>, int) {
    let c = close_from(text, p, p, level);
    let n = text.len() as int;
    if c < n {
        (c, c + level + 2, true, text.subrange(p, c), c + level + 2)
    } else if p >= n {
        (start + 1, start + 1, false, Seq::empty(), p)
    } else if exists|j: int| trails_at(text, p, j) {
        let j = choose|j: int| trails_at(text, p, j);
        if n - j - 1 == level {
            (n, n, false, text.subrange(p, j), n)
        } else {
            (j + 1, j + 1, false, text.subrange(p, n), n)
        }
    } else {
        (n, n, false, text.subrange(p, n), n)
    }
}

pub proof fn lemma_close_from(text: Seq<char>, p: int, k: int, level: int)
    requires
        p <= k <= text.len(),
    ensures
        k <= close_from(text, p, k, level) <= text.len(),
        forall|j: int| k <= j < close_from(text, p, k, level) ==> !closes_at(text, p, j, level),
        close_from(text, p, k, level) < text.len() ==> closes_at(text, p, close_from(text, p, k, level), level),
    decreases text.len() - k,
{
    if k < text.len() && !closes_at(text, p, k, level) {
        lemma_close_from(text, p, k + 1, level);
    }
}

proof fn lemma_close_from_none(text: Seq<char>, p: int, k: int, level: int)
    requires
        p <= k <= text.len(),
        forall|j: int| k <= j < text.len() ==> !closes_at(text, p, j, level),
    ensures
        close_from(text, p, k, level) == text.len(),
    decreases text.len() - k,
{
    if k < text.len() {
        lemma_close_from_none(text, p, k + 1, level);
    }
}

proof fn lemma_close_from_skip(text: Seq<char>, p: int, k: int, m: int, level: int)
    requires
        p <= k <= m <= text.len(),
        forall|j: int| k <= j < m ==> !closes_at(text, p, j, level),
    ensures
        close_from(text, p, k, level) == close_from(text, p, m, level),
    decreases m - k,
{
    if k < m {
        lemma_close_from_skip(text, p, k + 1, m, level);
    }
}

proof fn lemma_trails_unique(text: Seq<char>, p: int, j1: int, j2: int)
    requires
        trails_at(text, p, j1),
        trails_at(text, p, j2),
    ensures
        j1 == j2,
{
    if j1 < j2 {
        assert(text[j2] == '=');
    } else if j2 < j1 {
        assert(text[j1] == '=');
    }
}

/// A long bracket that is read to its close hands back the text up to the first closing
/// bracket of its level, and its token ends right after that bracket.
pub proof fn lemma_multiline_scan(t: Seq<char>, p: int, level: int)
    requires
        0 <= p <= t.len(),
        multiline_outcome(t, p, p, level).2,
    ensures
        ({
            let o = multiline_outcome(t, p, p, level);
            &&& closes_at(t, p, o.0, level)
            &&& o.3 == t.subrange(p, o.0)
            &&& o.1 == o.0 + level + 2
            &&& forall|j: int| p <= j < o.0 ==> !closes_at(t, p, j, level)
        }),
{
    lemma_close_from(t, p, p, level);
}

/// Reads a long string or long comment up to the closing bracket of the same level.
pub fn get_multiline_string_ends(chars: &mut TChars, level: usize, start: usize) -> (res: (usize, usize, bool, String))
    requires
        old(chars).text().len() < usize::MAX,
        old(chars).index() < old(chars).text().len() || start < usize::MAX,
    ensures
        final(chars).text() == old(chars).text(),
        ({
            let o = multiline_outcome(old(chars).text(), old(chars).index(), start as int, level as int);
            &&& res.0 == o.0 &&& res.1 == o.1 &&& res.2 == o.2 &&& res.3@ == o.3 &&& final(chars).index() == o.4
        }),
{
    let ghost t = chars.text();
    let ghost p = chars.index();
    let ghost n = t.len() as int;
    let ghost lv = level as int;
    // we already got "[==[" symbols
    let mut end = start;
    let mut escaped = false;
    let mut result = String::new();
    proof {
        use_type_invariant(&*chars);
        lemma_close_from(t, p, p, lv);
    }
    loop
        invariant
            chars.text() == t,
            t == old(chars).text(),
            p == old(chars).index(),
            n == t.len(),
            n < usize::MAX,
            lv == level,
            p < n || start < usize::MAX,
            p <= chars.index() <= n,
            result@ == t.subrange(p, chars.index()),
            escaped == (chars.index() > p && t[chars.index() - 1] == '\\'),
            forall|j: int| p <= j < chars.index() ==> !closes_at(t, p, j, lv),
            chars.index() == p ==> end == start,
            chars.index() > p ==> p <= end < chars.index() && (
                (end == chars.index() - 1 && !(t[end as int] == ']' && unescaped(t, p, end as int)))
                || (t[end as int] == ']' && unescaped(t, p, end as int)
                    && (forall|k: int| end < k < chars.index() ==> t[k] == '=')
                    && (chars.index() - end - 1 != lv || chars.index() < n))),
            forall|j: int| p <= j < chars.index() && t[j] == ']' && unescaped(t, p, j)
                && (forall|k: int| j < k < chars.index() ==> t[k] == '=')
                ==> j == end && (chars.index() == n || t[chars.index()] != '='),
        decreases n - chars.index(),
    {
        let ghost pos = chars.index();
        match chars.next() {
            Some((text_end, ch)) => {
                if !escaped && ch == ']' {
                    let ghost q = pos + 1;
                    proof {
                        if q < n {
                            lemma_scan_from(t, q, q, Stop::NonEquals);
                        }
                    }
                    let cur_level = get_multiline_string_level(chars, text_end + 1);
                    let ghost e = chars.index();
                    assert(e == q + cur_level);
                    assert(forall|k: int| q <= k < e ==> t[k] == '=');
                    assert(e == n || t[e] != '=');
                    if level == cur_level {
                        match chars.peek() {
                            Some((token_end, c)) => {
                                if c == ']' {
                                    chars.next();
                                    assert(closes_at(t, p, pos, lv));
                                    proof {
                                        lemma_close_from_skip(t, p, p, pos, lv);
                                    }
                                    return (text_end, token_end + 1, true, result);
                                }
                            },
                            None => {
                                proof {
                                    assert forall|j: int| p <= j < n implies !closes_at(t, p, j, lv) by {
                                        if j > pos {
                                            assert(t[j] == '=');
                                        }
                                    }
                                    lemma_close_from_none(t, p, p, lv);
                                    assert(trails_at(t, p, pos));
                                    let jj = choose|j: int| trails_at(t, p, j);
                                    lemma_trails_unique(t, p, jj, pos);
                                }
                                return (text_end + cur_level + 1, text_end + cur_level + 1, false, result);
                            },
                        }
                    }
                    push_char(&mut result, ']');
                    let mut i: usize = 0;
                    while i < cur_level
                        invariant
                            0 <= i <= cur_level,
                            result@ == t.subrange(p, pos + 1 + i),
                            pos + 1 + cur_level == e,
                            e <= n,
                            forall|k: int| q <= k < e ==> t[k] == '=',
                            q == pos + 1,
                            0 <= p <= pos,
                            n == t.len(),
                        decreases cur_level - i,
                    {
                        assert(t[pos + 1 + i] == '=');
                        push_char(&mut result, '=');
                        i = i + 1;
                        assert(result@ =~= t.subrange(p, pos + 1 + i));
                    }
                    proof {
                        assert forall|j: int| p <= j < e implies !closes_at(t, p, j, lv) by {
                            if j > pos {
                                assert(t[j] == '=');
                            }
                        }
                        assert forall|j: int| p <= j < e && t[j] == ']' && unescaped(t, p, j)
                            && (forall|k: int| j < k < e ==> t[k] == '=')
                            implies j == pos by {
                            if j < pos {
                                assert(t[pos] == '=');
                            } else if j > pos {
                                assert(t[j] == '=');
                            }
                        }
                    }
                } else {
                    push_char(&mut result, ch);
                    assert(result@ == t.subrange(p, pos + 1));
                    proof {
                        assert forall|j: int| p <= j < pos + 1 && t[j] == ']' && unescaped(t, p, j)
                            && (forall|k: int| j < k < pos + 1 ==> t[k] == '=')
                            implies false by {
                            if j < pos {
                                assert(t[pos] == '=');
                            }
                        }
                    }
                }
                end = text_end;
                escaped = ch == '\\';
            },
            None => {
                proof {
                    lemma_close_from_none(t, p, p, lv);
                    if p < n {
                        if exists|j: int| trails_at(t, p, j) {
                            let jj = choose|j: int| trails_at(t, p, j);
                            assert(t[jj] == ']' && unescaped(t, p, jj));
                            assert(forall|k: int| jj < k < n ==> t[k] == '=');
                            assert(jj == end);
                        } else {
                            if !(end == n - 1 && !(t[end as int] == ']' && unescaped(t, p, end as int))) {
                                assert(trails_at(t, p, end as int));
                            }
                        }
                    }
                }
                return (end + 1, end + 1, false, result);
            },
        }
    }
}

} // verus!

verus! {

/// What `get_comment_start_ends_and_type` hands back: text start, text end, token end,
/// the long-bracket level (none for a one-line comment), whether the comment is closed,
/// and the cursor afterwards.
pub open spec fn comment_outcome(t: Seq<char>, p: int, start: int) -> (int, int, int, Option<int>, bool, int) {
    let n = t.len() as int;
    if p < n && t[p] == '[' {
        let p1 = p + 1;
        if p1 < n && t[p1] == '=' {
            let (level, p2) = level_outcome(t, p1, p1);
            if p2 < n && t[p2] == '[' {
                let m = multiline_outcome(t, p2 + 1, p2 + 1, level);
                (p2 + 1, m.0, m.1, Some(level), m.2, m.4)
            } else if p2 < n {
                let o = quoted_outcome(t, p2, p2, Stop::NewLine, true);
                (start, o.0, o.1, None, o.2, o.4)
            } else {
                (start, start + level + 1, start + level + 1, None, true, p2)
            }
        } else if p1 < n && t[p1] == '[' {
            let m = multiline_outcome(t, p1 + 1, p1 + 1, 0);
            (p1 + 1, m.0, m.1, Some(0), m.2, m.4)
        } else if p1 < n {
            let o = quoted_outcome(t, p1, p1, Stop::NewLine, true);
            (start, o.0, o.1, None, o.2, o.4)
        } else {
            (start, start + 1, start + 1, None, true, p1)
        }
    } else {
        let o = quoted_outcome(t, p, start, Stop::NewLine, true);
        (start, o.0, o.1, None, o.2, o.4)
    }
}

/// Reads a comment whose `--` has been read: a long comment when a long bracket
/// opens right away, else a one-line comment.
pub fn get_comment_start_ends_and_type(chars: &mut TChars, start: usize) -> (res: (usize, usize, usize, Option<usize>, bool))
    requires
        start + old(chars).text().len() < usize::MAX,
    ensures
        final(chars).text() == old(chars).text(),
        ({
            let o = comment_outcome(old(chars).text(), old(chars).index(), start as int);
            &&& res.0 == o.0 &&& res.1 == o.1 &&& res.2 == o.2 &&& final(chars).index() == o.5
            &&& res.4 == o.4
            &&& (match (res.3, o.3) {
                (Some(a), Some(b)) => a == b,
                (None, None) => true,
                _ => false,
            })
        }),
{
    proof { use_type_invariant(&*chars); }
    // we already got "--" symbols
    let mut text_start = start;
    match chars.peek() {
        Some((_, c0)) => {
            if c0 == '[' {
                chars.next();
                match chars.peek() {
                    Some((level_start, c1)) => {
                        if c1 == '=' {
                            let level = get_multiline_string_level(chars, level_start);
                            match chars.peek() {
                                Some((square_2_index, c2)) => {
                                    if c2 == '[' {
                                        chars.next();
                                        text_start = square_2_index + 1;
                                        let (text_end, token_end, succ, _) = get_multiline_string_ends(chars, level, text_start);
                                        return (text_start, text_end, token_end, Some(level), succ);
                                    } else {
                                        let (text_end, token_end, succ, _) = get_oneline_comment_ends(chars, square_2_index);
                                        return (text_start, text_end, token_end, None, succ);
                                    }
                                },
                                None => return (text_start, text_start + level + 1, text_start + level + 1, None, true),
                            }
                        } else if c1 == '[' {
                            chars.next();
                            text_start = level_start + 1;
                            let (text_end, token_end, succ, _) = get_multiline_string_ends(chars, 0, text_start);
                            return (text_start, text_end, token_end, Some(0), succ);
                        } else {
                            let (text_end, token_end, succ, _) = get_oneline_comment_ends(chars, level_start);
                            return (text_start, text_end, token_end, None, succ);
                        }
                    },
                    None => return (text_start, text_start + 1, text_start + 1, None, true),
                }
            }
        },
        None => {},
    }
    let (text_end, token_end, succ, _) = get_oneline_comment_ends(chars, text_start);
    return (text_start, text_end, token_end, None, succ);
}

} // verus!

verus! {

pub proof fn lemma_seek_advances(t: Seq<char>, p: int, start: int, stop: Stop)
    requires
        0 <= p <= t.len(),
    ensures
        p <= seek_outcome(t, p, start, stop).3 <= t.len(),
{
    if p < t.len() {
        lemma_scan_from(t, p, p, stop);
    }
}

pub proof fn lemma_multiline_advances(t: Seq<char>, p: int, start: int, level: int)
    requires
        0 <= p <= t.len(),
        level >= 0,
    ensures
        p <= multiline_outcome(t, p, start, level).4 <= t.len(),
        multiline_outcome(t, p, start, level).2 ==> p <= multiline_outcome(t, p, start, level).0
            && multiline_outcome(t, p, start, level).0 + level + 2 == multiline_outcome(t, p, start, level).1
            && multiline_outcome(t, p, start, level).1 <= t.len(),
{
    lemma_close_from(t, p, p, level);
}

pub proof fn lemma_comment_advances(t: Seq<char>, p: int, start: int)
    requires
        0 <= p <= t.len(),
    ensures
        p <= comment_outcome(t, p, start).5 <= t.len(),
{
    let n = t.len() as int;
    lemma_seek_advances(t, p, start, Stop::NewLine);
    if p < n && t[p] == '[' {
        let p1 = p + 1;
        lemma_seek_advances(t, p1, p1, Stop::NewLine);
        if p1 < n && t[p1] == '=' {
            lemma_seek_advances(t, p1, p1, Stop::NonEquals);
            let (level, p2) = level_outcome(t, p1, p1);
            lemma_seek_advances(t, p2, p2, Stop::NewLine);
            if p2 < n && t[p2] == '[' {
                lemma_multiline_advances(t, p2 + 1, p2 + 1, level);
            }
        } else if p1 < n && t[p1] == '[' {
            lemma_multiline_advances(t, p1 + 1, p1 + 1, 0);
        }
    }
}

} // verus!

verus! {

impl TChars {
    /// The characters from `from` up to `to`.
    pub fn substring(&self, from: usize, to: usize) -> (res: String)
        requires
            from <= to <= self.text().len(),
        ensures
            res@ == self.text().subrange(from as int, to as int),
    {
        let mut s = String::new();
        let mut i = from;
        while i < to
            invariant
                from <= i <= to,
                to <= self.chars@.len(),
                s@ == self.chars@.subrange(from as int, i as int),
            decreases to - i,
        {
            push_char(&mut s, self.chars[i]);
            i = i + 1;
            assert(s@ =~= self.chars@.subrange(from as int, i as int));
        }
        s
    }
}

/// A comment that is closed has its text between its start and the end of the input.
/// A comment that was read to its end ends where the cursor stops.
pub proof fn lemma_comment_end(t: Seq<char>, p: int)
    requires
        0 <= p <= t.len(),
        comment_outcome(t, p, p).4,
    ensures
        comment_outcome(t, p, p).2 <= comment_outcome(t, p, p).5,
{
    let n = t.len() as int;
    if p < n && t[p] == '[' {
        let p1 = p + 1;
        if p1 < n && t[p1] == '=' {
            lemma_scan_from(t, p1, p1, Stop::NonEquals);
        }
    }
}

pub proof fn lemma_comment_bounds(t: Seq<char>, p: int)
    requires
        0 <= p <= t.len(),
        comment_outcome(t, p, p).4,
    ensures
        comment_outcome(t, p, p).0 <= comment_outcome(t, p, p).1 <= comment_outcome(t, p, p).2 <= t.len(),
        p <= comment_outcome(t, p, p).0,
{
    let n = t.len() as int;
    lemma_seek_advances(t, p, p, Stop::NewLine);
    if p < n && t[p] == '[' {
        let p1 = p + 1;
        lemma_seek_advances(t, p1, p1, Stop::NewLine);
        if p1 < n && t[p1] == '=' {
            lemma_seek_advances(t, p1, p1, Stop::NonEquals);
            let (level, p2) = level_outcome(t, p1, p1);
            lemma_seek_advances(t, p2, p2, Stop::NewLine);
            if p2 < n && t[p2] == '[' {
                lemma_multiline_advances(t, p2 + 1, p2 + 1, level);
            } else if p2 >= n {
                assert(p2 == n);
            }
        } else if p1 < n && t[p1] == '[' {
            lemma_multiline_advances(t, p1 + 1, p1 + 1, 0);
        }
    }
}

} // verus!
