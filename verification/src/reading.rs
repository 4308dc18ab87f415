//! How a JSON text is read, and why the layout does not change it.
//!
//! JSON ignores whitespace between tokens and nowhere else. This module
//! defines the canonical form of a text, in which that whitespace is gone,
//! and proves that a document laid out with blank strings has the canonical
//! form of the same document written compactly. A parser that looks at
//! tokens only therefore reads both alike, and formatting what the formatter
//! wrote changes nothing.

use crate::document::{pretty, pretty_items, pretty_members, Json};
use crate::events::{repeated, Layout};
use crate::events::{CLOSE_BRACE, CLOSE_BRACKET, COLON, COMMA, NEWLINE, OPEN_BRACE, OPEN_BRACKET};
use vstd::prelude::*;

verus! {

pub const TAB: u8 = 0x09;

pub const CARRIAGE_RETURN: u8 = 0x0D;

pub const SPACE: u8 = 0x20;

pub const QUOTE: u8 = 0x22;

pub const BACKSLASH: u8 = 0x5C;

/// The four bytes that JSON counts as whitespace.
pub open spec fn is_whitespace(b: u8) -> bool {
    b == SPACE || b == TAB || b == NEWLINE || b == CARRIAGE_RETURN
}

/// The six bytes that are tokens by themselves.
pub open spec fn is_mark(b: u8) -> bool {
    b == OPEN_BRACKET || b == CLOSE_BRACKET || b == OPEN_BRACE || b == CLOSE_BRACE || b == COMMA
        || b == COLON
}

/// Whether every byte of `bytes` is whitespace.
pub open spec fn is_blank(bytes: Seq<u8>) -> bool {
    forall|i: int| 0 <= i < bytes.len() ==> is_whitespace(#[trigger] bytes[i])
}

impl Layout {
    /// Whether the three configured strings are whitespace only.
    pub open spec fn is_blank(self) -> bool {
        is_blank(self.indent) && is_blank(self.before_colon) && is_blank(self.after_colon)
    }
}

/// Where a scan of a JSON text stands.
pub enum Lex {
    /// Between tokens, with no word before the whitespace, if any.
    Clean,
    /// Right after a byte of a word: a number or a literal name.
    Word,
    /// In whitespace that follows a word.
    Gap,
    /// Inside a string.
    InString,
    /// Inside a string, right after a backslash.
    Escaped,
}

impl Lex {
    /// Whether the scan is outside every string.
    pub open spec fn is_open(self) -> bool {
        self != Lex::InString && self != Lex::Escaped
    }
}

/// Where the scan stands after `b`.
pub open spec fn lex_step(m: Lex, b: u8) -> Lex {
    match m {
        Lex::InString => if b == BACKSLASH {
            Lex::Escaped
        } else if b == QUOTE {
            Lex::Clean
        } else {
            Lex::InString
        },
        Lex::Escaped => Lex::InString,
        _ => if is_whitespace(b) {
            if m == Lex::Clean {
                Lex::Clean
            } else {
                Lex::Gap
            }
        } else if b == QUOTE {
            Lex::InString
        } else if is_mark(b) {
            Lex::Clean
        } else {
            Lex::Word
        },
    }
}

/// What the canonical form keeps of `b`. Inside a string, the byte. Outside,
/// no whitespace, but one space before a word that whitespace parts from
/// the word before it.
pub open spec fn kept_step(m: Lex, b: u8) -> Seq<u8> {
    if !m.is_open() {
        seq![b]
    } else if is_whitespace(b) {
        Seq::empty()
    } else if m == Lex::Gap && lex_step(m, b) == Lex::Word {
        seq![SPACE, b]
    } else {
        seq![b]
    }
}

/// The outcome of a scan.
pub struct Scan {
    /// Where the scan stands at the end.
    pub state: Lex,
    /// What the canonical form keeps.
    pub kept: Seq<u8>,
}

/// Scans `bytes`, starting in `m`.
pub open spec fn scan(m: Lex, bytes: Seq<u8>) -> Scan
    decreases bytes.len(),
{
    if bytes.len() == 0 {
        Scan { state: m, kept: Seq::empty() }
    } else {
        let before = scan(m, bytes.drop_last());
        Scan {
            state: lex_step(before.state, bytes.last()),
            kept: before.kept + kept_step(before.state, bytes.last()),
        }
    }
}

/// The canonical form of a text: the text without the whitespace between
/// its tokens, but for one space where whitespace parts two words.
pub open spec fn canonical(bytes: Seq<u8>) -> Seq<u8> {
    scan(Lex::Clean, bytes).kept
}

/// Whether every string that begins in `bytes` also ends there.
pub open spec fn is_closed(bytes: Seq<u8>) -> bool {
    scan(Lex::Clean, bytes).state.is_open()
}

/// Whether a scan from `m` cannot tell `a` from `b`.
pub open spec fn alike(m: Lex, a: Seq<u8>, b: Seq<u8>) -> bool {
    scan(m, a) == scan(m, b)
}

/// Whether every scalar and every key of `v` closes its strings.
pub open spec fn has_closed_strings(v: Json) -> bool
    decreases v,
{
    match v {
        Json::Scalar(bytes) => is_closed(bytes),
        Json::Array(items) => forall|i: int|
            0 <= i < items.len() ==> has_closed_strings(#[trigger] items[i]),
        Json::Object(members) => forall|i: int|
            0 <= i < members.len() ==> is_closed((#[trigger] members[i]).0) && has_closed_strings(
                members[i].1,
            ),
    }
}

/// What separates a child from the one before it in the compact form.
pub open spec fn separator(first: bool) -> Seq<u8> {
    if first {
        Seq::empty()
    } else {
        seq![COMMA]
    }
}

/// `v` written without any whitespace between its tokens.
pub open spec fn compact(v: Json) -> Seq<u8>
    decreases v, 0nat,
{
    match v {
        Json::Scalar(bytes) => bytes,
        Json::Array(items) => seq![OPEN_BRACKET] + compact_items(items, items.len())
            + seq![CLOSE_BRACKET],
        Json::Object(members) => seq![OPEN_BRACE] + compact_members(members, members.len())
            + seq![CLOSE_BRACE],
    }
}

/// The first `n` values of an array, separated by commas.
pub open spec fn compact_items(items: Seq<Json>, n: nat) -> Seq<u8>
    decreases items, n,
{
    if n == 0 || n > items.len() {
        Seq::empty()
    } else {
        compact_items(items, (n - 1) as nat) + separator(n == 1) + compact(items[n - 1])
    }
}

/// The first `n` pairs of an object, separated by commas.
pub open spec fn compact_members(members: Seq<(Seq<u8>, Json)>, n: nat) -> Seq<u8>
    decreases members, n,
{
    if n == 0 || n > members.len() {
        Seq::empty()
    } else {
        compact_members(members, (n - 1) as nat) + separator(n == 1) + members[n - 1].0
            + seq![COLON] + compact(members[n - 1].1)
    }
}

/// Whether `parse` looks at the tokens of a text only: it gives one verdict,
/// a value or that the text is not JSON, on all texts of one canonical form.
pub open spec fn reads_tokens_only<V>(parse: spec_fn(Seq<u8>) -> V) -> bool {
    forall|a: Seq<u8>, b: Seq<u8>|
        canonical(a) == canonical(b) ==> #[trigger] parse(a) == #[trigger] parse(b)
}

/// A scan of two texts in a row is a scan of the second from where the first
/// ended.
pub proof fn scan_of_concat(m: Lex, a: Seq<u8>, b: Seq<u8>)
    ensures
        scan(m, a + b) == (Scan {
            state: scan(scan(m, a).state, b).state,
            kept: scan(m, a).kept + scan(scan(m, a).state, b).kept,
        }),
    decreases b.len(),
{
    let first = scan(m, a);
    if b.len() == 0 {
        assert(a + b =~= a);
        assert(first.kept + Seq::<u8>::empty() =~= first.kept);
    } else {
        assert((a + b).drop_last() =~= a + b.drop_last());
        assert((a + b).last() == b.last());
        scan_of_concat(m, a, b.drop_last());
        let second = scan(first.state, b.drop_last());
        assert((first.kept + second.kept) + kept_step(second.state, b.last()) =~= first.kept + (
        second.kept + kept_step(second.state, b.last())));
    }
}

/// Texts that scan alike piece by piece scan alike as wholes.
pub proof fn alike_in_a_row(m: Lex, a1: Seq<u8>, b1: Seq<u8>, a2: Seq<u8>, b2: Seq<u8>)
    requires
        alike(m, a1, b1),
        alike(scan(m, a1).state, a2, b2),
    ensures
        alike(m, a1 + a2, b1 + b2),
        scan(m, a1 + a2).state == scan(scan(m, a1).state, a2).state,
{
    scan_of_concat(m, a1, a2);
    scan_of_concat(m, b1, b2);
}

/// A scan of one byte is that byte's step.
pub proof fn scan_of_one(m: Lex, b: u8)
    ensures
        scan(m, seq![b]) == (Scan { state: lex_step(m, b), kept: kept_step(m, b) }),
{
    let bytes = seq![b];
    assert(bytes.drop_last() =~= Seq::<u8>::empty());
    assert(scan(m, bytes.drop_last()).kept + kept_step(m, b) =~= kept_step(m, b));
}

/// Whitespace outside a string leaves no trace, and the scan stays outside.
pub proof fn blank_is_dropped(m: Lex, bytes: Seq<u8>)
    requires
        m.is_open(),
        is_blank(bytes),
    ensures
        scan(m, bytes).kept == Seq::<u8>::empty(),
        scan(m, bytes).state.is_open(),
        m == Lex::Clean ==> scan(m, bytes).state == Lex::Clean,
    decreases bytes.len(),
{
    if bytes.len() > 0 {
        blank_is_dropped(m, bytes.drop_last());
        assert(scan(m, bytes).kept =~= Seq::<u8>::empty());
    }
}

/// A mark between two blank strings scans as the mark alone, wherever
/// outside a string the scan begins, and leaves the scan between tokens.
pub proof fn padded_mark_is_the_mark(m: Lex, before: Seq<u8>, mark: u8, after: Seq<u8>)
    requires
        m.is_open(),
        is_blank(before),
        is_mark(mark),
        is_blank(after),
    ensures
        alike(m, before + seq![mark] + after, seq![mark]),
        scan(m, seq![mark]) == (Scan { state: Lex::Clean, kept: seq![mark] }),
{
    blank_is_dropped(m, before);
    let m1 = scan(m, before).state;
    scan_of_one(m1, mark);
    scan_of_one(m, mark);
    blank_is_dropped(Lex::Clean, after);
    scan_of_concat(m, before, seq![mark]);
    scan_of_concat(m, before + seq![mark], after);
    assert(Seq::<u8>::empty() + seq![mark] + Seq::<u8>::empty() =~= seq![mark]);
}

/// Repeating a blank string gives a blank string.
pub proof fn repeated_blank_is_blank(unit: Seq<u8>, n: nat)
    requires
        is_blank(unit),
    ensures
        is_blank(repeated(unit, n)),
    decreases n,
{
    if n > 0 {
        repeated_blank_is_blank(unit, (n - 1) as nat);
    }
}

/// With a blank layout, the break before a child scans as the comma alone,
/// or as nothing before the first child.
pub proof fn child_line_is_the_separator(l: Layout, m: Lex, first: bool, depth: nat)
    requires
        l.is_blank(),
        m.is_open(),
        first ==> m == Lex::Clean,
    ensures
        alike(m, l.child_line(first, depth), separator(first)),
        scan(m, separator(first)).state == Lex::Clean,
{
    repeated_blank_is_blank(l.indent, depth);
    let tail = seq![NEWLINE] + repeated(l.indent, depth);
    assert(is_blank(tail));
    if first {
        blank_is_dropped(m, tail);
    } else {
        padded_mark_is_the_mark(m, Seq::empty(), COMMA, tail);
        assert(Seq::<u8>::empty() + seq![COMMA] + tail =~= l.child_line(first, depth));
    }
}

/// With a blank layout, a closing bracket scans alike with and without the
/// line break before it.
pub proof fn closing_line_is_dropped(l: Layout, m: Lex, has_value: bool, depth: nat, mark: u8)
    requires
        l.is_blank(),
        m.is_open(),
        is_mark(mark),
    ensures
        alike(m, l.closing_line(has_value, depth) + seq![mark], seq![mark]),
        scan(m, seq![mark]) == (Scan { state: Lex::Clean, kept: seq![mark] }),
{
    repeated_blank_is_blank(l.indent, (depth - 1) as nat);
    let line = l.closing_line(has_value, depth);
    assert(is_blank(line));
    padded_mark_is_the_mark(m, line, mark, Seq::empty());
    assert(line + seq![mark] + Seq::<u8>::empty() =~= line + seq![mark]);
}

/// With a blank layout, the separator of a pair scans as the colon alone.
pub proof fn colon_is_the_colon(l: Layout, m: Lex)
    requires
        l.is_blank(),
        m.is_open(),
    ensures
        alike(m, l.colon(), seq![COLON]),
        scan(m, seq![COLON]) == (Scan { state: Lex::Clean, kept: seq![COLON] }),
{
    padded_mark_is_the_mark(m, l.before_colon, COLON, l.after_colon);
}

/// A blank layout cannot be told from no layout.
///
/// If the three configured strings are whitespace and no scalar or key of
/// `v` leaves a string open, then a scan that starts between tokens ends in
/// the same place and keeps the same bytes on the layout of `v`, at any
/// depth, as on `v` written compactly; and it ends outside every string.
pub proof fn layout_scans_like_compact(l: Layout, v: Json, depth: nat)
    requires
        l.is_blank(),
        has_closed_strings(v),
    ensures
        alike(Lex::Clean, pretty(l, v, depth), compact(v)),
        is_closed(compact(v)),
    decreases v, 0nat,
{
    match v {
        Json::Scalar(bytes) => {},
        Json::Array(items) => {
            let n = items.len();
            let open = seq![OPEN_BRACKET];
            let close = seq![CLOSE_BRACKET];
            let rows = pretty_items(l, items, n, depth + 1);
            let tight = compact_items(items, n);
            let last_line = l.closing_line(n > 0, depth + 1);
            padded_mark_is_the_mark(Lex::Clean, Seq::empty(), OPEN_BRACKET, Seq::empty());
            items_scan_like_compact(l, items, n, depth + 1);
            alike_in_a_row(Lex::Clean, open, open, rows, tight);
            let m = scan(Lex::Clean, open + rows).state;
            closing_line_is_dropped(l, m, n > 0, depth + 1, CLOSE_BRACKET);
            alike_in_a_row(Lex::Clean, open + rows, open + tight, last_line + close, close);
            assert(open + rows + (last_line + close) =~= pretty(l, v, depth));
        },
        Json::Object(members) => {
            let n = members.len();
            let open = seq![OPEN_BRACE];
            let close = seq![CLOSE_BRACE];
            let rows = pretty_members(l, members, n, depth + 1);
            let tight = compact_members(members, n);
            let last_line = l.closing_line(n > 0, depth + 1);
            padded_mark_is_the_mark(Lex::Clean, Seq::empty(), OPEN_BRACE, Seq::empty());
            members_scan_like_compact(l, members, n, depth + 1);
            alike_in_a_row(Lex::Clean, open, open, rows, tight);
            let m = scan(Lex::Clean, open + rows).state;
            closing_line_is_dropped(l, m, n > 0, depth + 1, CLOSE_BRACE);
            alike_in_a_row(Lex::Clean, open + rows, open + tight, last_line + close, close);
            assert(open + rows + (last_line + close) =~= pretty(l, v, depth));
        },
    }
}

/// The lines of the first `n` values of an array scan like those values
/// separated by bare commas.
pub proof fn items_scan_like_compact(l: Layout, items: Seq<Json>, n: nat, depth: nat)
    requires
        l.is_blank(),
        n <= items.len(),
        forall|i: int| 0 <= i < items.len() ==> has_closed_strings(#[trigger] items[i]),
    ensures
        alike(Lex::Clean, pretty_items(l, items, n, depth), compact_items(items, n)),
        scan(Lex::Clean, compact_items(items, n)).state.is_open(),
        n == 0 ==> scan(Lex::Clean, compact_items(items, n)).state == Lex::Clean,
    decreases items, n,
{
    if n > 0 {
        let earlier = pretty_items(l, items, (n - 1) as nat, depth);
        let earlier_tight = compact_items(items, (n - 1) as nat);
        let line = l.child_line(n == 1, depth);
        let value = items[n - 1];
        items_scan_like_compact(l, items, (n - 1) as nat, depth);
        let m = scan(Lex::Clean, earlier).state;
        child_line_is_the_separator(l, m, n == 1, depth);
        alike_in_a_row(Lex::Clean, earlier, earlier_tight, line, separator(n == 1));
        layout_scans_like_compact(l, value, depth);
        alike_in_a_row(
            Lex::Clean,
            earlier + line,
            earlier_tight + separator(n == 1),
            pretty(l, value, depth),
            compact(value),
        );
    }
}

/// The lines of the first `n` pairs of an object scan like those pairs
/// separated by bare commas, each key followed by a bare colon.
pub proof fn members_scan_like_compact(
    l: Layout,
    members: Seq<(Seq<u8>, Json)>,
    n: nat,
    depth: nat,
)
    requires
        l.is_blank(),
        n <= members.len(),
        forall|i: int|
            0 <= i < members.len() ==> is_closed((#[trigger] members[i]).0) && has_closed_strings(
                members[i].1,
            ),
    ensures
        alike(Lex::Clean, pretty_members(l, members, n, depth), compact_members(members, n)),
        scan(Lex::Clean, compact_members(members, n)).state.is_open(),
        n == 0 ==> scan(Lex::Clean, compact_members(members, n)).state == Lex::Clean,
    decreases members, n,
{
    if n > 0 {
        let earlier = pretty_members(l, members, (n - 1) as nat, depth);
        let earlier_tight = compact_members(members, (n - 1) as nat);
        let line = l.child_line(n == 1, depth);
        let key = members[n - 1].0;
        let value = members[n - 1].1;
        members_scan_like_compact(l, members, (n - 1) as nat, depth);
        let m = scan(Lex::Clean, earlier).state;
        child_line_is_the_separator(l, m, n == 1, depth);
        alike_in_a_row(Lex::Clean, earlier, earlier_tight, line, separator(n == 1));
        alike_in_a_row(Lex::Clean, earlier + line, earlier_tight + separator(n == 1), key, key);
        let after_key = scan(Lex::Clean, earlier + line + key).state;
        colon_is_the_colon(l, after_key);
        alike_in_a_row(
            Lex::Clean,
            earlier + line + key,
            earlier_tight + separator(n == 1) + key,
            l.colon(),
            seq![COLON],
        );
        layout_scans_like_compact(l, value, depth);
        alike_in_a_row(
            Lex::Clean,
            earlier + line + key + l.colon(),
            earlier_tight + separator(n == 1) + key + seq![COLON],
            pretty(l, value, depth),
            compact(value),
        );
    }
}

/// Formatting changes the layout and nothing else.
///
/// With a blank layout, the formatter's output for a document and the
/// compact text of that document have the same canonical form. So a parser
/// that looks at tokens only reads the same from both.
pub proof fn layout_keeps_the_value<V>(
    parse: spec_fn(Seq<u8>) -> V,
    l: Layout,
    v: Json,
    depth: nat,
)
    requires
        reads_tokens_only(parse),
        l.is_blank(),
        has_closed_strings(v),
    ensures
        canonical(pretty(l, v, depth)) == canonical(compact(v)),
        is_closed(pretty(l, v, depth)),
        parse(pretty(l, v, depth)) == parse(compact(v)),
{
    layout_scans_like_compact(l, v, depth);
}

/// Formatting twice is formatting once.
///
/// Let `parse` look at tokens only, and let `v` be a document as `parse`
/// reads it: the one it finds in the compact text of `v`. Then formatting
/// what the formatter wrote for `v`, with the same blank layout, gives the
/// same bytes again.
pub proof fn formatting_twice_is_formatting_once(
    parse: spec_fn(Seq<u8>) -> Json,
    l: Layout,
    v: Json,
)
    requires
        reads_tokens_only(parse),
        l.is_blank(),
        has_closed_strings(v),
        parse(compact(v)) == v,
    ensures
        pretty(l, parse(pretty(l, v, 0)), 0) == pretty(l, v, 0),
{
    layout_keeps_the_value(parse, l, v, 0);
}

} // verus!
