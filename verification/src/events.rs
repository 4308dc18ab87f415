//! The mathematical model of the formatter: its state, its configuration, the
//! events it reacts to, and what each event writes.

use vstd::prelude::*;

verus! {

/// The three byte strings that make up the configurable layout.
pub struct Layout {
    /// Written once per open container at the start of a line.
    pub indent: Seq<u8>,
    /// Written between a key and its colon.
    pub before_colon: Seq<u8>,
    /// Written between a colon and the value.
    pub after_colon: Seq<u8>,
}

/// What the formatter remembers between two events.
pub struct State {
    /// How many containers are open.
    pub depth: nat,
    /// Whether a value has been completed since the last container was opened.
    pub has_value: bool,
}

/// One step of a JSON document as its producer walks it.
pub enum Event {
    BeginArray,
    EndArray,
    BeginArrayValue { first: bool },
    EndArrayValue,
    BeginObject,
    EndObject,
    BeginObjectKey { first: bool },
    BeginObjectValue,
    EndObjectValue,
    /// Bytes that the producer writes by itself: a scalar or an object key.
    Verbatim(Seq<u8>),
}

pub const NEWLINE: u8 = 0x0A;

pub const COMMA: u8 = 0x2C;

pub const COLON: u8 = 0x3A;

pub const OPEN_BRACKET: u8 = 0x5B;

pub const CLOSE_BRACKET: u8 = 0x5D;

pub const OPEN_BRACE: u8 = 0x7B;

pub const CLOSE_BRACE: u8 = 0x7D;

/// `unit` written `n` times in a row.
pub open spec fn repeated(unit: Seq<u8>, n: nat) -> Seq<u8>
    decreases n,
{
    if n == 0 {
        Seq::empty()
    } else {
        repeated(unit, (n - 1) as nat) + unit
    }
}

impl Layout {
    /// The line break that opens the line of a child: a comma first unless the
    /// child is the first one, and the indentation of `depth` open containers.
    pub open spec fn child_line(self, first: bool, depth: nat) -> Seq<u8> {
        if first {
            seq![NEWLINE] + repeated(self.indent, depth)
        } else {
            seq![COMMA, NEWLINE] + repeated(self.indent, depth)
        }
    }

    /// What stands before the closing bracket of a container whose children
    /// sit at `depth`: nothing if it is empty, else a line break and the
    /// indentation of the container itself.
    pub open spec fn closing_line(self, has_value: bool, depth: nat) -> Seq<u8> {
        if has_value {
            seq![NEWLINE] + repeated(self.indent, (depth - 1) as nat)
        } else {
            Seq::empty()
        }
    }

    /// The separator between a key and its value.
    pub open spec fn colon(self) -> Seq<u8> {
        self.before_colon + seq![COLON] + self.after_colon
    }
}

/// Whether the formatter can take `e` in state `s`: a container can only be
/// closed if one is open.
pub open spec fn accepts(s: State, e: Event) -> bool {
    match e {
        Event::EndArray | Event::EndObject => s.depth > 0,
        _ => true,
    }
}

/// The state after `e`.
pub open spec fn next_state(s: State, e: Event) -> State {
    match e {
        Event::BeginArray | Event::BeginObject => State { depth: s.depth + 1, has_value: false },
        Event::EndArray | Event::EndObject => State {
            depth: (s.depth - 1) as nat,
            has_value: s.has_value,
        },
        Event::EndArrayValue | Event::EndObjectValue => State { depth: s.depth, has_value: true },
        _ => s,
    }
}

/// The bytes that reach the sink on `e` in state `s`.
pub open spec fn emitted(l: Layout, s: State, e: Event) -> Seq<u8> {
    match e {
        Event::BeginArray => seq![OPEN_BRACKET],
        Event::EndArray => l.closing_line(s.has_value, s.depth) + seq![CLOSE_BRACKET],
        Event::BeginArrayValue { first } => l.child_line(first, s.depth),
        Event::EndArrayValue => Seq::empty(),
        Event::BeginObject => seq![OPEN_BRACE],
        Event::EndObject => l.closing_line(s.has_value, s.depth) + seq![CLOSE_BRACE],
        Event::BeginObjectKey { first } => l.child_line(first, s.depth),
        Event::BeginObjectValue => l.colon(),
        Event::EndObjectValue => Seq::empty(),
        Event::Verbatim(bytes) => bytes,
    }
}

} // verus!
