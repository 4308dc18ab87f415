//! Whole documents: what a producer's walk over a document leaves in the sink.
//!
//! The formatter sees one event at a time and keeps a single flag for all
//! nesting levels. This module states the layout of a document as a whole and
//! proves that the event-by-event formatter produces exactly that layout.

use crate::events::{accepts, emitted, next_state, repeated, Event, Layout, State};
use crate::events::{CLOSE_BRACE, CLOSE_BRACKET, COLON, COMMA, NEWLINE, OPEN_BRACE, OPEN_BRACKET};
use vstd::prelude::*;

verus! {

/// A JSON document as the formatter's producer walks it. Scalars and keys
/// stand for the bytes the producer writes for them.
pub enum Json {
    Scalar(Seq<u8>),
    Array(Seq<Json>),
    Object(Seq<(Seq<u8>, Json)>),
}

/// The events of a walk over `v`, in document order.
pub open spec fn walk(v: Json) -> Seq<Event>
    decreases v, 0nat,
{
    match v {
        Json::Scalar(bytes) => seq![Event::Verbatim(bytes)],
        Json::Array(items) => seq![Event::BeginArray] + walk_items(items, items.len())
            + seq![Event::EndArray],
        Json::Object(members) => seq![Event::BeginObject] + walk_members(members, members.len())
            + seq![Event::EndObject],
    }
}

/// The events of the first `n` values of an array.
pub open spec fn walk_items(items: Seq<Json>, n: nat) -> Seq<Event>
    decreases items, n,
{
    if n == 0 || n > items.len() {
        Seq::empty()
    } else {
        walk_items(items, (n - 1) as nat) + seq![Event::BeginArrayValue { first: n == 1 }] + walk(
            items[n - 1],
        ) + seq![Event::EndArrayValue]
    }
}

/// The events of the first `n` pairs of an object.
pub open spec fn walk_members(members: Seq<(Seq<u8>, Json)>, n: nat) -> Seq<Event>
    decreases members, n,
{
    if n == 0 || n > members.len() {
        Seq::empty()
    } else {
        walk_members(members, (n - 1) as nat) + seq![
            Event::BeginObjectKey { first: n == 1 },
            Event::Verbatim(members[n - 1].0),
            Event::BeginObjectValue,
        ] + walk(members[n - 1].1) + seq![Event::EndObjectValue]
    }
}

/// The layout of `v` when `depth` containers are open around it.
///
/// A scalar is its bytes. A container without children is its two brackets.
/// Any other container puts each child on a line of its own, one indent unit
/// deeper than itself, and its closing bracket on a line at its own depth.
pub open spec fn pretty(l: Layout, v: Json, depth: nat) -> Seq<u8>
    decreases v, 0nat,
{
    match v {
        Json::Scalar(bytes) => bytes,
        Json::Array(items) => seq![OPEN_BRACKET] + pretty_items(l, items, items.len(), depth + 1)
            + l.closing_line(items.len() > 0, depth + 1) + seq![CLOSE_BRACKET],
        Json::Object(members) => seq![OPEN_BRACE] + pretty_members(
            l,
            members,
            members.len(),
            depth + 1,
        ) + l.closing_line(members.len() > 0, depth + 1) + seq![CLOSE_BRACE],
    }
}

/// The lines of the first `n` values of an array whose values sit at `depth`.
pub open spec fn pretty_items(l: Layout, items: Seq<Json>, n: nat, depth: nat) -> Seq<u8>
    decreases items, n,
{
    if n == 0 || n > items.len() {
        Seq::empty()
    } else {
        pretty_items(l, items, (n - 1) as nat, depth) + l.child_line(n == 1, depth) + pretty(
            l,
            items[n - 1],
            depth,
        )
    }
}

/// The lines of the first `n` pairs of an object whose pairs sit at `depth`.
pub open spec fn pretty_members(
    l: Layout,
    members: Seq<(Seq<u8>, Json)>,
    n: nat,
    depth: nat,
) -> Seq<u8>
    decreases members, n,
{
    if n == 0 || n > members.len() {
        Seq::empty()
    } else {
        pretty_members(l, members, (n - 1) as nat, depth) + l.child_line(n == 1, depth)
            + members[n - 1].0 + l.colon() + pretty(l, members[n - 1].1, depth)
    }
}

/// The outcome of feeding a sequence of events to the formatter.
pub struct Run {
    /// Whether the formatter could take every event.
    pub accepted: bool,
    /// The state after the last event.
    pub state: State,
    /// Everything that reached the sink.
    pub output: Seq<u8>,
}

impl Run {
    /// This run, continued by `next`.
    pub open spec fn followed_by(self, next: Run) -> Run {
        Run {
            accepted: self.accepted && next.accepted,
            state: next.state,
            output: self.output + next.output,
        }
    }
}

/// Feeds `events` to a formatter that starts in state `s`.
pub open spec fn run(l: Layout, s: State, events: Seq<Event>) -> Run
    decreases events.len(),
{
    if events.len() == 0 {
        Run { accepted: true, state: s, output: Seq::empty() }
    } else {
        let before = run(l, s, events.drop_last());
        Run {
            accepted: before.accepted && accepts(before.state, events.last()),
            state: next_state(before.state, events.last()),
            output: before.output + emitted(l, before.state, events.last()),
        }
    }
}

/// A run over a single event is that event's step.
pub proof fn run_of_one(l: Layout, s: State, e: Event)
    ensures
        run(l, s, seq![e]) == (Run {
            accepted: accepts(s, e),
            state: next_state(s, e),
            output: emitted(l, s, e),
        }),
{
    let events = seq![e];
    assert(events.drop_last() =~= Seq::<Event>::empty());
    assert(run(l, s, events.drop_last()).output + emitted(l, s, e) =~= emitted(l, s, e));
}

/// Running `a` and then `b` is running `b` from where `a` ended.
pub proof fn run_of_concat(l: Layout, s: State, a: Seq<Event>, b: Seq<Event>)
    ensures
        run(l, s, a + b) == run(l, s, a).followed_by(run(l, run(l, s, a).state, b)),
    decreases b.len(),
{
    let first = run(l, s, a);
    if b.len() == 0 {
        assert(a + b =~= a);
        assert(first.output + Seq::<u8>::empty() =~= first.output);
    } else {
        assert((a + b).drop_last() =~= a + b.drop_last());
        assert((a + b).last() == b.last());
        run_of_concat(l, s, a, b.drop_last());
        let second = run(l, first.state, b.drop_last());
        assert((first.output + second.output) + emitted(l, second.state, b.last()) =~= first.output
            + (second.output + emitted(l, second.state, b.last())));
    }
}

/// The value of the flag once `v` has been walked: a scalar leaves it as it
/// was, a container leaves whether it had a child.
pub open spec fn flag_after(before: bool, v: Json) -> bool {
    match v {
        Json::Scalar(_) => before,
        Json::Array(items) => items.len() > 0,
        Json::Object(members) => members.len() > 0,
    }
}

/// The formatter writes the layout of a document.
///
/// Whatever state the formatter is in, it takes every event of a walk over
/// `v`, the sink receives exactly `pretty` of `v` at the current depth, and
/// afterwards as many containers are open as before. The single flag is
/// enough: each container finds in it whether it had a child of its own.
pub proof fn walk_writes_pretty(l: Layout, s: State, v: Json)
    ensures
        run(l, s, walk(v)) == (Run {
            accepted: true,
            state: State { depth: s.depth, has_value: flag_after(s.has_value, v) },
            output: pretty(l, v, s.depth),
        }),
    decreases v, 0nat,
{
    match v {
        Json::Scalar(bytes) => {
            run_of_one(l, s, Event::Verbatim(bytes));
        },
        Json::Array(items) => {
            let opened = State { depth: s.depth + 1, has_value: false };
            let inner = walk_items(items, items.len());
            run_of_one(l, s, Event::BeginArray);
            walk_items_writes_pretty(l, s.depth + 1, items, items.len());
            run_of_concat(l, s, seq![Event::BeginArray], inner);
            let filled = run(l, opened, inner).state;
            run_of_one(l, filled, Event::EndArray);
            run_of_concat(l, s, seq![Event::BeginArray] + inner, seq![Event::EndArray]);
            assert(run(l, s, walk(v)).output =~= pretty(l, v, s.depth));
        },
        Json::Object(members) => {
            let opened = State { depth: s.depth + 1, has_value: false };
            let inner = walk_members(members, members.len());
            run_of_one(l, s, Event::BeginObject);
            walk_members_writes_pretty(l, s.depth + 1, members, members.len());
            run_of_concat(l, s, seq![Event::BeginObject], inner);
            let filled = run(l, opened, inner).state;
            run_of_one(l, filled, Event::EndObject);
            run_of_concat(l, s, seq![Event::BeginObject] + inner, seq![Event::EndObject]);
            assert(run(l, s, walk(v)).output =~= pretty(l, v, s.depth));
        },
    }
}

/// The first `n` values of an array, walked from the state in which the array
/// was opened, give their lines, and raise the flag if there is one.
pub proof fn walk_items_writes_pretty(l: Layout, depth: nat, items: Seq<Json>, n: nat)
    requires
        n <= items.len(),
    ensures
        run(l, State { depth, has_value: false }, walk_items(items, n)) == (Run {
            accepted: true,
            state: State { depth, has_value: n > 0 },
            output: pretty_items(l, items, n, depth),
        }),
    decreases items, n,
{
    let opened = State { depth, has_value: false };
    if n > 0 {
        let earlier = walk_items(items, (n - 1) as nat);
        let begin = seq![Event::BeginArrayValue { first: n == 1 }];
        let value = walk(items[n - 1]);
        let end = seq![Event::EndArrayValue];
        let s1 = State { depth, has_value: n > 1 };
        walk_items_writes_pretty(l, depth, items, (n - 1) as nat);
        run_of_one(l, s1, Event::BeginArrayValue { first: n == 1 });
        run_of_concat(l, opened, earlier, begin);
        walk_writes_pretty(l, s1, items[n - 1]);
        run_of_concat(l, opened, earlier + begin, value);
        let s2 = State { depth, has_value: flag_after(s1.has_value, items[n - 1]) };
        run_of_one(l, s2, Event::EndArrayValue);
        run_of_concat(l, opened, earlier + begin + value, end);
        assert(pretty_items(l, items, (n - 1) as nat, depth) + l.child_line(n == 1, depth) + pretty(
            l,
            items[n - 1],
            depth,
        ) + Seq::<u8>::empty() =~= pretty_items(l, items, n, depth));
    }
}

/// The first `n` pairs of an object, walked from the state in which the
/// object was opened, give their lines, and raise the flag if there is one.
pub proof fn walk_members_writes_pretty(
    l: Layout,
    depth: nat,
    members: Seq<(Seq<u8>, Json)>,
    n: nat,
)
    requires
        n <= members.len(),
    ensures
        run(l, State { depth, has_value: false }, walk_members(members, n)) == (Run {
            accepted: true,
            state: State { depth, has_value: n > 0 },
            output: pretty_members(l, members, n, depth),
        }),
    decreases members, n,
{
    let opened = State { depth, has_value: false };
    if n > 0 {
        let earlier = walk_members(members, (n - 1) as nat);
        let key = members[n - 1].0;
        let e1 = Event::BeginObjectKey { first: n == 1 };
        let e2 = Event::Verbatim(key);
        let e3 = Event::BeginObjectValue;
        let head = seq![e1, e2, e3];
        let value = walk(members[n - 1].1);
        let end = seq![Event::EndObjectValue];
        let s1 = State { depth, has_value: n > 1 };
        walk_members_writes_pretty(l, depth, members, (n - 1) as nat);
        run_of_one(l, s1, e1);
        run_of_one(l, s1, e2);
        run_of_one(l, s1, e3);
        run_of_concat(l, s1, seq![e1], seq![e2]);
        run_of_concat(l, s1, seq![e1] + seq![e2], seq![e3]);
        assert(seq![e1] + seq![e2] + seq![e3] =~= head);
        run_of_concat(l, opened, earlier, head);
        walk_writes_pretty(l, s1, members[n - 1].1);
        run_of_concat(l, opened, earlier + head, value);
        let s2 = State { depth, has_value: flag_after(s1.has_value, members[n - 1].1) };
        run_of_one(l, s2, Event::EndObjectValue);
        run_of_concat(l, opened, earlier + head + value, end);
        assert(pretty_members(l, members, (n - 1) as nat, depth) + (l.child_line(n == 1, depth)
            + key + l.colon()) + pretty(l, members[n - 1].1, depth) + Seq::<u8>::empty()
            =~= pretty_members(l, members, n, depth));
    }
}

/// Lines are indented by depth, and empty containers have no line.
///
/// An array without values is `[]` at any depth. In any other array that
/// sits at `depth`, every value begins a line of its own with exactly
/// `depth + 1` indent units, after a comma unless it is the first, and the
/// closing bracket begins a line with exactly `depth` units.
pub proof fn array_lines_follow_depth(l: Layout, items: Seq<Json>, depth: nat)
    ensures
        items.len() == 0 ==> pretty(l, Json::Array(items), depth) == seq![
            OPEN_BRACKET,
            CLOSE_BRACKET,
        ],
        items.len() > 0 ==> pretty(l, Json::Array(items), depth) == seq![OPEN_BRACKET]
            + pretty_items(l, items, items.len(), depth + 1) + seq![NEWLINE] + repeated(
            l.indent,
            depth,
        ) + seq![CLOSE_BRACKET],
        forall|n: nat|
            0 < n <= items.len() ==> #[trigger] pretty_items(l, items, n, depth + 1)
                == pretty_items(l, items, (n - 1) as nat, depth + 1) + (if n == 1 {
                seq![NEWLINE]
            } else {
                seq![COMMA, NEWLINE]
            }) + repeated(l.indent, depth + 1) + pretty(l, items[n - 1], depth + 1),
{
    let whole = pretty(l, Json::Array(items), depth);
    if items.len() == 0 {
        assert(whole =~= seq![OPEN_BRACKET, CLOSE_BRACKET]);
    } else {
        assert(whole =~= seq![OPEN_BRACKET] + pretty_items(l, items, items.len(), depth + 1)
            + seq![NEWLINE] + repeated(l.indent, depth) + seq![CLOSE_BRACKET]);
    }
    assert forall|n: nat| 0 < n <= items.len() implies #[trigger] pretty_items(
        l,
        items,
        n,
        depth + 1,
    ) == pretty_items(l, items, (n - 1) as nat, depth + 1) + (if n == 1 {
        seq![NEWLINE]
    } else {
        seq![COMMA, NEWLINE]
    }) + repeated(l.indent, depth + 1) + pretty(l, items[n - 1], depth + 1) by {
        assert(pretty_items(l, items, n, depth + 1) =~= pretty_items(
            l,
            items,
            (n - 1) as nat,
            depth + 1,
        ) + (if n == 1 {
            seq![NEWLINE]
        } else {
            seq![COMMA, NEWLINE]
        }) + repeated(l.indent, depth + 1) + pretty(l, items[n - 1], depth + 1));
    }
}

/// Lines are indented by depth, and empty containers have no line.
///
/// An object without pairs is `{}` at any depth. In any other object that
/// sits at `depth`, every key begins a line of its own with exactly
/// `depth + 1` indent units, after a comma unless it is the first; the colon
/// with its two configured strings and the value follow the key; and the
/// closing brace begins a line with exactly `depth` units.
pub proof fn object_lines_follow_depth(l: Layout, members: Seq<(Seq<u8>, Json)>, depth: nat)
    ensures
        members.len() == 0 ==> pretty(l, Json::Object(members), depth) == seq![
            OPEN_BRACE,
            CLOSE_BRACE,
        ],
        members.len() > 0 ==> pretty(l, Json::Object(members), depth) == seq![OPEN_BRACE]
            + pretty_members(l, members, members.len(), depth + 1) + seq![NEWLINE] + repeated(
            l.indent,
            depth,
        ) + seq![CLOSE_BRACE],
        forall|n: nat|
            0 < n <= members.len() ==> #[trigger] pretty_members(l, members, n, depth + 1)
                == pretty_members(l, members, (n - 1) as nat, depth + 1) + (if n == 1 {
                seq![NEWLINE]
            } else {
                seq![COMMA, NEWLINE]
            }) + repeated(l.indent, depth + 1) + members[n - 1].0 + l.before_colon + seq![COLON]
                + l.after_colon + pretty(l, members[n - 1].1, depth + 1),
{
    let whole = pretty(l, Json::Object(members), depth);
    if members.len() == 0 {
        assert(whole =~= seq![OPEN_BRACE, CLOSE_BRACE]);
    } else {
        assert(whole =~= seq![OPEN_BRACE] + pretty_members(l, members, members.len(), depth + 1)
            + seq![NEWLINE] + repeated(l.indent, depth) + seq![CLOSE_BRACE]);
    }
    assert forall|n: nat| 0 < n <= members.len() implies #[trigger] pretty_members(
        l,
        members,
        n,
        depth + 1,
    ) == pretty_members(l, members, (n - 1) as nat, depth + 1) + (if n == 1 {
        seq![NEWLINE]
    } else {
        seq![COMMA, NEWLINE]
    }) + repeated(l.indent, depth + 1) + members[n - 1].0 + l.before_colon + seq![COLON]
        + l.after_colon + pretty(l, members[n - 1].1, depth + 1) by {
        assert(pretty_members(l, members, n, depth + 1) =~= pretty_members(
            l,
            members,
            (n - 1) as nat,
            depth + 1,
        ) + (if n == 1 {
            seq![NEWLINE]
        } else {
            seq![COMMA, NEWLINE]
        }) + repeated(l.indent, depth + 1) + members[n - 1].0 + l.before_colon + seq![COLON]
            + l.after_colon + pretty(l, members[n - 1].1, depth + 1));
    }
}

} // verus!
