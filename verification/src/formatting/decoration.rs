use vstd::prelude::*;

use crate::config::{fmt_error, Config, ConfiguredWrite, State};

verus! {

/// An indentation marker as the contracts see it.
pub open spec fn mark_view(m: Option<String>) -> Option<Seq<char>> {
    match m {
        Some(s) => Some(s@),
        None => None,
    }
}

/// The top of the stack of indentation markers, if any.
pub open spec fn stack_top(stack: Seq<Option<String>>) -> Option<Option<Seq<char>>> {
    if stack.len() == 0 {
        None
    } else {
        Some(mark_view(stack.last()))
    }
}

/// Opens one indentation scope, marked by an operator (or by nothing).
/// Nested scopes of the same operator share one level of indentation.
pub struct IncIndent(pub Option<String>);

/// Whether opening a scope with `mark` on top of `stack` adds a level.
pub open spec fn inc_adds_level(stack: Seq<Option<String>>, mark: Option<String>) -> bool {
    mark is None || stack_top(stack) != Some(mark_view(mark))
}

fn same_mark(a: &Option<String>, b: &Option<String>) -> (res: bool)
    ensures
        res == (mark_view(*a) == mark_view(*b)),
{
    match (a, b) {
        (Some(x), Some(y)) => *x == *y,
        (None, None) => true,
        _ => false,
    }
}

impl ConfiguredWrite for IncIndent {
    fn configured_write(&self, _f: &mut String, _cfg: &Config, _buf: &str, state: &mut State) -> (res: Result<(), std::fmt::Error>)
        ensures
            final(_f)@ == old(_f)@,
            res is Ok ==> final(state).indent_level == old(state).indent_level
                + (if inc_adds_level(old(state).stack_indent@, self.0) { 1int } else { 0int })
                && final(state).stack_indent@ == old(state).stack_indent@.push(self.0)
                && final(state).function_nested_level == old(state).function_nested_level
                && final(state).block_nested_level == old(state).block_nested_level
                && final(state).pos_range == old(state).pos_range,
            res is Err <==> inc_adds_level(old(state).stack_indent@, self.0) && old(state).indent_level == isize::MAX,
    {
        let n = state.stack_indent.len();
        let adds = match &self.0 {
            None => true,
            Some(_) => n == 0 || !same_mark(&state.stack_indent[n - 1], &self.0),
        };
        if adds {
            if state.indent_level == isize::MAX {
                return Err(fmt_error());
            }
            state.indent_level = state.indent_level + 1;
        }
        state.stack_indent.push(self.0.clone());
        Ok(())
    }
}

/// Closes the innermost indentation scope.
pub struct DecIndent();

/// Whether closing the innermost scope of `stack` takes a level away.
pub open spec fn dec_removes_level(stack: Seq<Option<String>>) -> bool {
    stack.len() > 0 && (stack.last() is None || stack_top(stack.drop_last()) != Some(mark_view(stack.last())))
}

impl ConfiguredWrite for DecIndent {
    fn configured_write(&self, _f: &mut String, _cfg: &Config, _buf: &str, state: &mut State) -> (res: Result<(), std::fmt::Error>)
        ensures
            final(_f)@ == old(_f)@,
            res is Ok ==> final(state).indent_level == old(state).indent_level
                - (if dec_removes_level(old(state).stack_indent@) { 1int } else { 0int })
                && final(state).stack_indent@ == (if old(state).stack_indent@.len() > 0 { old(state).stack_indent@.drop_last() } else { old(state).stack_indent@ })
                && final(state).function_nested_level == old(state).function_nested_level
                && final(state).block_nested_level == old(state).block_nested_level
                && final(state).pos_range == old(state).pos_range,
            res is Err <==> dec_removes_level(old(state).stack_indent@) && old(state).indent_level == isize::MIN,
    {
        let last = state.stack_indent.pop();
        let removes = match &last {
            None => false,
            Some(mark) => match mark {
                None => true,
                Some(_) => {
                    let n = state.stack_indent.len();
                    n == 0 || !same_mark(&state.stack_indent[n - 1], mark)
                },
            },
        };
        if removes {
            if state.indent_level == isize::MIN {
                return Err(fmt_error());
            }
            state.indent_level = state.indent_level - 1;
        }
        Ok(())
    }
}

/// Closing a scope right after opening it restores the indentation: the level that
/// `IncIndent` adds is the level that `DecIndent` then takes away, and the stack of
/// markers is as it was.
pub proof fn lemma_inc_then_dec_restores(stack: Seq<Option<String>>, mark: Option<String>)
    ensures
        dec_removes_level(stack.push(mark)) == inc_adds_level(stack, mark),
        stack.push(mark).len() > 0,
        stack.push(mark).drop_last() == stack,
{
    assert(stack.push(mark).drop_last() =~= stack);
    assert(stack.push(mark).last() == mark);
}

/// Enters a function body or a table constructor.
pub struct IncFuncLevel();

impl ConfiguredWrite for IncFuncLevel {
    fn configured_write(&self, _f: &mut String, _cfg: &Config, _buf: &str, state: &mut State) -> (res: Result<(), std::fmt::Error>)
        ensures
            final(_f)@ == old(_f)@,
            res is Ok ==> *final(state) == (State { function_nested_level: (old(state).function_nested_level + 1) as isize, ..*old(state) })
                && old(state).function_nested_level < isize::MAX,
            res is Err <==> old(state).function_nested_level == isize::MAX,
    {
        if state.function_nested_level == isize::MAX {
            return Err(fmt_error());
        }
        state.function_nested_level = state.function_nested_level + 1;
        Ok(())
    }
}

/// Leaves a function body or a table constructor.
pub struct DecFuncLevel();

impl ConfiguredWrite for DecFuncLevel {
    fn configured_write(&self, _f: &mut String, _cfg: &Config, _buf: &str, state: &mut State) -> (res: Result<(), std::fmt::Error>)
        ensures
            final(_f)@ == old(_f)@,
            res is Ok ==> *final(state) == (State { function_nested_level: (old(state).function_nested_level - 1) as isize, ..*old(state) })
                && old(state).function_nested_level > isize::MIN,
            res is Err <==> old(state).function_nested_level == isize::MIN,
    {
        if state.function_nested_level == isize::MIN {
            return Err(fmt_error());
        }
        state.function_nested_level = state.function_nested_level - 1;
        Ok(())
    }
}

/// Shifts the indentation level by a fixed amount.
pub struct IndentHint(pub isize);

impl ConfiguredWrite for IndentHint {
    fn configured_write(&self, _f: &mut String, _cfg: &Config, _buf: &str, state: &mut State) -> (res: Result<(), std::fmt::Error>)
        ensures
            final(_f)@ == old(_f)@,
            res is Ok ==> *final(state) == (State { indent_level: (old(state).indent_level + self.0) as isize, ..*old(state) }),
            res is Err ==> !(isize::MIN <= old(state).indent_level + self.0 <= isize::MAX),
    {
        match state.indent_level.checked_add(self.0) {
            Some(v) => {
                state.indent_level = v;
                Ok(())
            },
            None => Err(fmt_error()),
        }
    }
}

/// Writes the inner value only when the flag is set.
pub struct If<'a, T>(pub bool, pub &'a T);

impl<'a, T: ConfiguredWrite> ConfiguredWrite for If<'a, T> {
    fn configured_write(&self, f: &mut String, cfg: &Config, buf: &str, state: &mut State) -> (res: Result<(), std::fmt::Error>)
        ensures
            !self.0 ==> res is Ok && final(f)@ == old(f)@ && *final(state) == *old(state),
    {
        if self.0 {
            self.1.configured_write(f, cfg, buf, state)
        } else {
            Ok(())
        }
    }
}

} // verus!
