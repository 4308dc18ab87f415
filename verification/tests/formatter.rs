use pretty_json::{indent, PrettyFormatter};

fn text(bytes: &[u8]) -> &str {
    std::str::from_utf8(bytes).unwrap()
}

#[test]
fn new_formatter_has_no_open_container() {
    let f = PrettyFormatter::new(b"  ", b"", b" ");
    assert_eq!(f.depth(), 0);
}

#[test]
fn indent_writes_the_unit_n_times() {
    let mut out = Vec::new();
    indent(&mut out, 3, b"ab");
    assert_eq!(out, b"ababab".to_vec());
}

#[test]
fn indent_zero_times_writes_nothing() {
    let mut out = Vec::new();
    indent(&mut out, 0, b"    ");
    assert!(out.is_empty());
}

#[test]
fn indent_with_empty_unit_writes_nothing() {
    let mut out = Vec::new();
    indent(&mut out, 5, b"");
    assert!(out.is_empty());
}

#[test]
fn indent_appends_to_what_is_there() {
    let mut out = b"x\n".to_vec();
    indent(&mut out, 2, b"\t");
    assert_eq!(out, b"x\n\t\t".to_vec());
}

#[test]
fn containers_raise_and_lower_the_depth() {
    let mut out = Vec::new();
    let mut f = PrettyFormatter::new(b"  ", b"", b" ");
    f.begin_array(&mut out);
    assert_eq!(f.depth(), 1);
    f.begin_array_value(&mut out, true);
    assert_eq!(f.depth(), 1);
    f.begin_object(&mut out);
    assert_eq!(f.depth(), 2);
    f.end_object(&mut out);
    assert_eq!(f.depth(), 1);
    f.end_array_value(&mut out);
    assert_eq!(f.depth(), 1);
    f.end_array(&mut out);
    assert_eq!(f.depth(), 0);
    assert_eq!(text(&out), "[\n  {}\n]");
}

#[test]
fn empty_array_is_two_brackets() {
    let mut out = Vec::new();
    let mut f = PrettyFormatter::new(b"  ", b"", b" ");
    f.begin_array(&mut out);
    f.end_array(&mut out);
    assert_eq!(text(&out), "[]");
}

#[test]
fn empty_object_is_two_braces() {
    let mut out = Vec::new();
    let mut f = PrettyFormatter::new(b"  ", b"", b" ");
    f.begin_object(&mut out);
    f.end_object(&mut out);
    assert_eq!(text(&out), "{}");
}

#[test]
fn first_array_value_gets_a_line_without_comma() {
    let mut out = Vec::new();
    let mut f = PrettyFormatter::new(b"..", b"", b" ");
    f.begin_array(&mut out);
    out.clear();
    f.begin_array_value(&mut out, true);
    assert_eq!(text(&out), "\n..");
}

#[test]
fn later_array_value_gets_a_comma_and_a_line() {
    let mut out = Vec::new();
    let mut f = PrettyFormatter::new(b"..", b"", b" ");
    f.begin_array(&mut out);
    f.begin_array(&mut out);
    out.clear();
    f.begin_array_value(&mut out, false);
    assert_eq!(text(&out), ",\n....");
}

#[test]
fn first_object_key_gets_a_line_without_comma() {
    let mut out = Vec::new();
    let mut f = PrettyFormatter::new(b"\t", b"", b" ");
    f.begin_object(&mut out);
    out.clear();
    f.begin_object_key(&mut out, true);
    assert_eq!(text(&out), "\n\t");
}

#[test]
fn later_object_key_gets_a_comma_and_a_line() {
    let mut out = Vec::new();
    let mut f = PrettyFormatter::new(b"\t", b"", b" ");
    f.begin_object(&mut out);
    out.clear();
    f.begin_object_key(&mut out, false);
    assert_eq!(text(&out), ",\n\t");
}

#[test]
fn value_boundaries_at_top_level_write_no_indent() {
    let mut out = Vec::new();
    let mut f = PrettyFormatter::new(b"  ", b"", b" ");
    f.begin_array_value(&mut out, true);
    assert_eq!(text(&out), "\n");
}

#[test]
fn colon_stands_between_the_configured_strings() {
    let mut out = Vec::new();
    let mut f = PrettyFormatter::new(b"  ", b" <", b"> ");
    f.begin_object_value(&mut out);
    assert_eq!(text(&out), " <:> ");
}

#[test]
fn default_colon_is_followed_by_one_space() {
    let mut out = Vec::new();
    let mut f = PrettyFormatter::new(b"  ", b"", b" ");
    f.begin_object_value(&mut out);
    assert_eq!(text(&out), ": ");
}

#[test]
fn ending_a_value_writes_nothing() {
    let mut out = Vec::new();
    let mut f = PrettyFormatter::new(b"  ", b"", b" ");
    f.begin_array(&mut out);
    f.begin_array_value(&mut out, true);
    out.clear();
    f.end_array_value(&mut out);
    assert!(out.is_empty());
    f.end_object_value(&mut out);
    assert!(out.is_empty());
}

#[test]
fn closing_bracket_of_filled_array_is_on_its_own_line() {
    let mut out = Vec::new();
    let mut f = PrettyFormatter::new(b"  ", b"", b" ");
    f.begin_array(&mut out);
    f.begin_array(&mut out);
    f.begin_array_value(&mut out, true);
    out.extend_from_slice(b"1");
    f.end_array_value(&mut out);
    out.clear();
    f.end_array(&mut out);
    assert_eq!(text(&out), "\n  ]");
}

#[test]
fn closing_brace_of_filled_object_is_on_its_own_line() {
    let mut out = Vec::new();
    let mut f = PrettyFormatter::new(b"  ", b"", b" ");
    f.begin_object(&mut out);
    f.begin_object_key(&mut out, true);
    out.extend_from_slice(b"\"a\"");
    f.begin_object_value(&mut out);
    out.extend_from_slice(b"1");
    f.end_object_value(&mut out);
    out.clear();
    f.end_object(&mut out);
    assert_eq!(text(&out), "\n}");
}

#[test]
fn object_with_array_is_laid_out_line_by_line() {
    let mut out = Vec::new();
    let mut f = PrettyFormatter::new(b"  ", b"", b" ");
    f.begin_object(&mut out);
    f.begin_object_key(&mut out, true);
    out.extend_from_slice(b"\"a\"");
    f.begin_object_value(&mut out);
    out.extend_from_slice(b"1");
    f.end_object_value(&mut out);
    f.begin_object_key(&mut out, false);
    out.extend_from_slice(b"\"b\"");
    f.begin_object_value(&mut out);
    f.begin_array(&mut out);
    f.begin_array_value(&mut out, true);
    out.extend_from_slice(b"1");
    f.end_array_value(&mut out);
    f.begin_array_value(&mut out, false);
    out.extend_from_slice(b"2");
    f.end_array_value(&mut out);
    f.end_array(&mut out);
    f.end_object_value(&mut out);
    f.end_object(&mut out);
    assert_eq!(
        text(&out),
        "{\n  \"a\": 1,\n  \"b\": [\n    1,\n    2\n  ]\n}"
    );
    assert_eq!(f.depth(), 0);
}

#[test]
fn empty_container_after_a_filled_sibling_stays_on_one_line() {
    let mut out = Vec::new();
    let mut f = PrettyFormatter::new(b"  ", b"", b" ");
    f.begin_array(&mut out);
    f.begin_array_value(&mut out, true);
    f.begin_array(&mut out);
    f.begin_array_value(&mut out, true);
    out.extend_from_slice(b"1");
    f.end_array_value(&mut out);
    f.end_array(&mut out);
    f.end_array_value(&mut out);
    f.begin_array_value(&mut out, false);
    f.begin_object(&mut out);
    f.end_object(&mut out);
    f.end_array_value(&mut out);
    f.end_array(&mut out);
    assert_eq!(text(&out), "[\n  [\n    1\n  ],\n  {}\n]");
}

#[test]
fn container_holding_only_an_empty_container_is_filled() {
    let mut out = Vec::new();
    let mut f = PrettyFormatter::new(b"  ", b"", b" ");
    f.begin_array(&mut out);
    f.begin_array_value(&mut out, true);
    f.begin_array(&mut out);
    f.end_array(&mut out);
    f.end_array_value(&mut out);
    f.end_array(&mut out);
    assert_eq!(text(&out), "[\n  []\n]");
}

#[test]
fn a_clone_continues_where_its_source_stands() {
    let mut out = Vec::new();
    let mut f = PrettyFormatter::new(b"ab", b"", b" ");
    f.begin_array(&mut out);
    f.begin_array(&mut out);
    let mut g = f.clone();
    assert_eq!(g.depth(), 2);
    let mut copy_out = Vec::new();
    g.begin_array_value(&mut copy_out, true);
    assert_eq!(text(&copy_out), "\nabab");
}
