//! The executable formatter.

use crate::events::{accepts, emitted, next_state, repeated, Event, Layout, State};
use crate::events::{CLOSE_BRACE, CLOSE_BRACKET, COLON, COMMA, NEWLINE, OPEN_BRACE, OPEN_BRACKET};
use vstd::prelude::*;

verus! {

/// Decides the layout of a JSON document while it streams by.
///
/// The three byte strings are fixed at construction. The formatter itself
/// only counts the open containers and remembers whether the innermost one
/// has a child yet.
#[derive(Clone, Debug)]
pub struct PrettyFormatter<'a> {
    current_indent: usize,
    has_value: bool,
    indent: &'a [u8],
    before_colon: &'a [u8],
    after_colon: &'a [u8],
}

/// Appends `s` to `wr`, `n` times.
pub fn indent(wr: &mut Vec<u8>, n: usize, s: &[u8])
    ensures
        final(wr)@ == old(wr)@ + repeated(s@, n as nat),
{
    for i in 0..n
        invariant
            wr@ == old(wr)@ + repeated(s@, i as nat),
    {
        wr.extend_from_slice(s);
        assert(wr@ =~= old(wr)@ + repeated(s@, (i + 1) as nat));
    }
}

impl<'a> PrettyFormatter<'a> {
    /// The configured byte strings.
    pub closed spec fn layout(&self) -> Layout {
        Layout {
            indent: self.indent@,
            before_colon: self.before_colon@,
            after_colon: self.after_colon@,
        }
    }

    /// The depth and the flag.
    pub closed spec fn state(&self) -> State {
        State { depth: self.current_indent as nat, has_value: self.has_value }
    }

    /// A formatter at depth zero that indents with `indent` and surrounds
    /// each colon with `before_colon` and `after_colon`.
    pub fn new(indent: &'a [u8], before_colon: &'a [u8], after_colon: &'a [u8]) -> (f: Self)
        ensures
            f.state() == (State { depth: 0, has_value: false }),
            f.layout() == (Layout {
                indent: indent@,
                before_colon: before_colon@,
                after_colon: after_colon@,
            }),
    {
        PrettyFormatter { current_indent: 0, has_value: false, indent, before_colon, after_colon }
    }

    /// The number of containers that are open.
    pub fn depth(&self) -> (d: usize)
        ensures
            d == self.state().depth,
    {
        self.current_indent
    }

    /// An array opens: one more container is open, it has no value yet, and
    /// `[` is written.
    pub fn begin_array(&mut self, writer: &mut Vec<u8>)
        requires
            old(self).state().depth < usize::MAX,
        ensures
            final(self).layout() == old(self).layout(),
            final(self).state() == next_state(old(self).state(), Event::BeginArray),
            final(writer)@ == old(writer)@ + emitted(
                old(self).layout(),
                old(self).state(),
                Event::BeginArray,
            ),
    {
        self.current_indent += 1;
        self.has_value = false;
        writer.push(OPEN_BRACKET);
    }

    /// The innermost array closes. If it holds a value, the bracket goes on a
    /// line of its own, indented as the array is; if not, it follows the
    /// opening bracket directly.
    pub fn end_array(&mut self, writer: &mut Vec<u8>)
        requires
            accepts(old(self).state(), Event::EndArray),
        ensures
            final(self).layout() == old(self).layout(),
            final(self).state() == next_state(old(self).state(), Event::EndArray),
            final(writer)@ == old(writer)@ + emitted(
                old(self).layout(),
                old(self).state(),
                Event::EndArray,
            ),
    {
        self.current_indent -= 1;
        if self.has_value {
            writer.push(NEWLINE);
            indent(writer, self.current_indent, self.indent);
        }
        writer.push(CLOSE_BRACKET);
    }

    /// A value of the innermost array is about to be written: it gets a line
    /// of its own, after a comma unless it is the first.
    pub fn begin_array_value(&mut self, writer: &mut Vec<u8>, first: bool)
        ensures
            final(self).layout() == old(self).layout(),
            final(self).state() == next_state(
                old(self).state(),
                Event::BeginArrayValue { first },
            ),
            final(writer)@ == old(writer)@ + emitted(
                old(self).layout(),
                old(self).state(),
                Event::BeginArrayValue { first },
            ),
    {
        if first {
            writer.push(NEWLINE);
        } else {
            writer.push(COMMA);
            writer.push(NEWLINE);
        }
        indent(writer, self.current_indent, self.indent);
    }

    /// A value of the innermost array is complete.
    pub fn end_array_value(&mut self, _writer: &mut Vec<u8>)
        ensures
            final(self).layout() == old(self).layout(),
            final(self).state() == next_state(old(self).state(), Event::EndArrayValue),
            final(_writer)@ == old(_writer)@ + emitted(
                old(self).layout(),
                old(self).state(),
                Event::EndArrayValue,
            ),
    {
        self.has_value = true;
    }

    /// An object opens: one more container is open, it has no value yet, and
    /// `{` is written.
    pub fn begin_object(&mut self, writer: &mut Vec<u8>)
        requires
            old(self).state().depth < usize::MAX,
        ensures
            final(self).layout() == old(self).layout(),
            final(self).state() == next_state(old(self).state(), Event::BeginObject),
            final(writer)@ == old(writer)@ + emitted(
                old(self).layout(),
                old(self).state(),
                Event::BeginObject,
            ),
    {
        self.current_indent += 1;
        self.has_value = false;
        writer.push(OPEN_BRACE);
    }

    /// The innermost object closes. If it holds a pair, the brace goes on a
    /// line of its own, indented as the object is; if not, it follows the
    /// opening brace directly.
    pub fn end_object(&mut self, writer: &mut Vec<u8>)
        requires
            accepts(old(self).state(), Event::EndObject),
        ensures
            final(self).layout() == old(self).layout(),
            final(self).state() == next_state(old(self).state(), Event::EndObject),
            final(writer)@ == old(writer)@ + emitted(
                old(self).layout(),
                old(self).state(),
                Event::EndObject,
            ),
    {
        self.current_indent -= 1;
        if self.has_value {
            writer.push(NEWLINE);
            indent(writer, self.current_indent, self.indent);
        }
        writer.push(CLOSE_BRACE);
    }

    /// A key of the innermost object is about to be written: it gets a line
    /// of its own, after a comma unless it is the first.
    pub fn begin_object_key(&mut self, writer: &mut Vec<u8>, first: bool)
        ensures
            final(self).layout() == old(self).layout(),
            final(self).state() == next_state(
                old(self).state(),
                Event::BeginObjectKey { first },
            ),
            final(writer)@ == old(writer)@ + emitted(
                old(self).layout(),
                old(self).state(),
                Event::BeginObjectKey { first },
            ),
    {
        if first {
            writer.push(NEWLINE);
        } else {
            writer.push(COMMA);
            writer.push(NEWLINE);
        }
        indent(writer, self.current_indent, self.indent);
    }

    /// A key has been written and its value follows: the colon is written
    /// between the two configured strings.
    pub fn begin_object_value(&mut self, writer: &mut Vec<u8>)
        ensures
            final(self).layout() == old(self).layout(),
            final(self).state() == next_state(old(self).state(), Event::BeginObjectValue),
            final(writer)@ == old(writer)@ + emitted(
                old(self).layout(),
                old(self).state(),
                Event::BeginObjectValue,
            ),
    {
        writer.extend_from_slice(self.before_colon);
        writer.push(COLON);
        writer.extend_from_slice(self.after_colon);
    }

    /// A value of the innermost object is complete.
    pub fn end_object_value(&mut self, _writer: &mut Vec<u8>)
        ensures
            final(self).layout() == old(self).layout(),
            final(self).state() == next_state(old(self).state(), Event::EndObjectValue),
            final(_writer)@ == old(_writer)@ + emitted(
                old(self).layout(),
                old(self).state(),
                Event::EndObjectValue,
            ),
    {
        self.has_value = true;
    }
}

} // verus!
