use vstd::prelude::*;

verus! {

/// A span of character indices: from the first up to, not including, the second.
#[derive(Debug, Clone, Copy, PartialEq, Eq)]
pub struct Loc(pub usize, pub usize);

/// The text of a span, or nothing where the span does not lie within the text.
pub open spec fn loc_text(t: Seq<char>, loc: Loc) -> Seq<char> {
    if loc.0 <= loc.1 && loc.1 <= t.len() {
        t.subrange(loc.0 as int, loc.1 as int)
    } else {
        Seq::empty()
    }
}

impl Loc {
    /// The text of the span in `buf`, or the empty text where it does not lie within `buf`.
    pub fn substr<'a>(&self, buf: &'a str) -> (res: &'a str)
        ensures
            res@ == loc_text(buf@, *self),
    {
        let n = buf.unicode_len();
        if self.0 <= self.1 && self.1 <= n {
            buf.substring_char(self.0, self.1)
        } else {
            proof { reveal_strlit(""); }
            ""
        }
    }
}

/// A fixed piece of text, such as an operator.
#[derive(Debug, Clone, PartialEq, Eq)]
pub struct Str(pub String);

} // verus!

verus! {

/// Why a parser refused its input: the lexer's own error, or a token that the grammar
/// does not allow where it stands.
#[derive(Debug)]
pub enum ParseError<T, E> {
    UnrecognizedToken { token: (usize, T, usize) },
    User { error: E },
}

} // verus!
