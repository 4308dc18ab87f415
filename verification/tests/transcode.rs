use pretty_json::PrettyFormatter;
use std::io;

struct Streaming<'a> {
    inner: PrettyFormatter<'a>,
    scratch: Vec<u8>,
}

impl<'a> Streaming<'a> {
    fn new(inner: PrettyFormatter<'a>) -> Self {
        Streaming { inner, scratch: Vec::new() }
    }
}

impl<'a> serde_json::ser::Formatter for Streaming<'a> {
    fn begin_array<W: ?Sized + io::Write>(&mut self, writer: &mut W) -> io::Result<()> {
        self.scratch.clear();
        self.inner.begin_array(&mut self.scratch);
        writer.write_all(&self.scratch)
    }

    fn end_array<W: ?Sized + io::Write>(&mut self, writer: &mut W) -> io::Result<()> {
        self.scratch.clear();
        self.inner.end_array(&mut self.scratch);
        writer.write_all(&self.scratch)
    }

    fn begin_array_value<W: ?Sized + io::Write>(
        &mut self,
        writer: &mut W,
        first: bool,
    ) -> io::Result<()> {
        self.scratch.clear();
        self.inner.begin_array_value(&mut self.scratch, first);
        writer.write_all(&self.scratch)
    }

    fn end_array_value<W: ?Sized + io::Write>(&mut self, writer: &mut W) -> io::Result<()> {
        self.scratch.clear();
        self.inner.end_array_value(&mut self.scratch);
        writer.write_all(&self.scratch)
    }

    fn begin_object<W: ?Sized + io::Write>(&mut self, writer: &mut W) -> io::Result<()> {
        self.scratch.clear();
        self.inner.begin_object(&mut self.scratch);
        writer.write_all(&self.scratch)
    }

    fn end_object<W: ?Sized + io::Write>(&mut self, writer: &mut W) -> io::Result<()> {
        self.scratch.clear();
        self.inner.end_object(&mut self.scratch);
        writer.write_all(&self.scratch)
    }

    fn begin_object_key<W: ?Sized + io::Write>(
        &mut self,
        writer: &mut W,
        first: bool,
    ) -> io::Result<()> {
        self.scratch.clear();
        self.inner.begin_object_key(&mut self.scratch, first);
        writer.write_all(&self.scratch)
    }

    fn begin_object_value<W: ?Sized + io::Write>(&mut self, writer: &mut W) -> io::Result<()> {
        self.scratch.clear();
        self.inner.begin_object_value(&mut self.scratch);
        writer.write_all(&self.scratch)
    }

    fn end_object_value<W: ?Sized + io::Write>(&mut self, writer: &mut W) -> io::Result<()> {
        self.scratch.clear();
        self.inner.end_object_value(&mut self.scratch);
        writer.write_all(&self.scratch)
    }
}

fn prettify_with(
    input: &str,
    indent: &str,
    before_colon: &str,
    after_colon: &str,
) -> Result<String, serde_json::Error> {
    let formatter = Streaming::new(PrettyFormatter::new(
        indent.as_bytes(),
        before_colon.as_bytes(),
        after_colon.as_bytes(),
    ));
    let mut out: Vec<u8> = Vec::new();
    {
        let mut deserializer = serde_json::Deserializer::from_reader(input.as_bytes());
        let mut serializer = serde_json::Serializer::with_formatter(&mut out, formatter);
        serde_transcode::transcode(&mut deserializer, &mut serializer)?;
    }
    Ok(String::from_utf8(out).unwrap())
}

fn prettify(input: &str) -> String {
    prettify_with(input, "  ", "", " ").unwrap()
}

fn value_of(text: &str) -> serde_json::Value {
    serde_json::from_str(text).unwrap()
}

const NESTED: &str = r#"{"a":[1,[2,[3,{"b":[]}]],{}],"c":{"d":{"e":[{"f":null},[[]],"g h"]}},"i":[true,false]}"#;

#[test]
fn object_with_array_gets_the_default_layout() {
    assert_eq!(
        prettify(r#"{"a":1,"b":[1,2]}"#),
        "{\n  \"a\": 1,\n  \"b\": [\n    1,\n    2\n  ]\n}"
    );
}

#[test]
fn empty_array_has_no_inner_whitespace() {
    assert_eq!(prettify("[]"), "[]");
    assert_eq!(prettify("[ \n ]"), "[]");
}

#[test]
fn empty_object_has_no_inner_whitespace() {
    assert_eq!(prettify("{}"), "{}");
    assert_eq!(prettify("{ \n }"), "{}");
}

#[test]
fn colon_strings_are_configurable() {
    assert_eq!(
        prettify_with(r#"{"a":1}"#, "  ", " ", "").unwrap(),
        "{\n  \"a\" :1\n}"
    );
}

#[test]
fn indent_unit_is_configurable() {
    assert_eq!(
        prettify_with(r#"{"a":[1]}"#, "\t", "", " ").unwrap(),
        "{\n\t\"a\": [\n\t\t1\n\t]\n}"
    );
}

#[test]
fn top_level_scalar_is_not_indented() {
    assert_eq!(prettify(" 42 "), "42");
    assert_eq!(prettify("\"x\""), "\"x\"");
    assert_eq!(prettify("null"), "null");
}

#[test]
fn key_order_is_kept() {
    assert_eq!(
        prettify(r#"{"b":1,"a":2}"#),
        "{\n  \"b\": 1,\n  \"a\": 2\n}"
    );
}

#[test]
fn empty_containers_stay_on_one_line_at_any_depth() {
    assert_eq!(
        prettify(r#"[[],{},[[]],[{}]]"#),
        "[\n  [],\n  {},\n  [\n    []\n  ],\n  [\n    {}\n  ]\n]"
    );
}

#[test]
fn empty_container_after_filled_sibling_stays_on_one_line() {
    assert_eq!(
        prettify(r#"[[1],[],{"a":{}},{}]"#),
        "[\n  [\n    1\n  ],\n  [],\n  {\n    \"a\": {}\n  },\n  {}\n]"
    );
}

#[test]
fn every_line_is_indented_by_its_depth() {
    let out = prettify(NESTED);
    let mut depth: usize = 0;
    for line in out.lines() {
        let body = line.trim_start_matches(' ');
        let leading = line.len() - body.len();
        let closes = body.starts_with(']') || body.starts_with('}');
        if closes {
            depth -= 1;
        }
        assert_eq!(leading, 2 * depth, "line {:?}", line);
        let trimmed = body.trim_end_matches(',');
        let opens = trimmed.ends_with('[') || trimmed.ends_with('{');
        if opens {
            depth += 1;
        }
    }
    assert_eq!(depth, 0);
}

#[test]
fn formatting_twice_is_formatting_once() {
    let inputs = [
        r#"{"a":1,"b":[1,2]}"#,
        "[]",
        "{}",
        NESTED,
        r#"[1.5,-2,1e3,"a\"b\\c\n","é",{"k":[[],{}]}]"#,
        "  [ 1 , 2 ,\n 3 ]  ",
    ];
    for input in inputs.iter() {
        let once = prettify(input);
        let twice = prettify(&once);
        assert_eq!(once, twice);
    }
}

#[test]
fn formatting_twice_is_formatting_once_with_other_layout() {
    let once = prettify_with(NESTED, "\t", " ", "  ").unwrap();
    let twice = prettify_with(&once, "\t", " ", "  ").unwrap();
    assert_eq!(once, twice);
}

#[test]
fn formatting_keeps_the_value() {
    let inputs = [
        r#"{"a":1,"b":[1,2]}"#,
        "[]",
        "{}",
        NESTED,
        r#"[1.5,-2,"a\"b\\c\n"," spaced  out ",{"k":[[],{}]},null,true]"#,
    ];
    for input in inputs.iter() {
        assert_eq!(value_of(&prettify(input)), value_of(input));
        assert_eq!(
            value_of(&prettify_with(input, "\t", " ", "\n").unwrap()),
            value_of(input)
        );
    }
}

#[test]
fn whitespace_inside_strings_is_kept() {
    assert_eq!(
        prettify(r#"["a  b",{"k 1":" "}]"#),
        "[\n  \"a  b\",\n  {\n    \"k 1\": \" \"\n  }\n]"
    );
}

#[test]
fn malformed_input_is_an_error() {
    assert!(prettify_with("[1,", "  ", "", " ").is_err());
    assert!(prettify_with("{\"a\" 1}", "  ", "", " ").is_err());
}
