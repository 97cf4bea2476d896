//! Tool calls in the answers of a model.

use buzzcode::json::{Json, Number};
use buzzcode::parser::{
    close_json, parse_json_lenient, repair_json, trailing_json_object, ParseOutcome, ParseSource, ToolCallParser,
};
use buzzcode::sse::ToolCallAcc;

fn p() -> ToolCallParser {
    ToolCallParser::new(vec!["read_file".into(), "edit_file".into(), "grep".into(), "shell".into()])
}

fn text<'a>(v: &'a Json, key: &str) -> &'a str {
    v.get_str(key).unwrap()
}

#[test]
fn xml_block() {
    let out = p().parse(
        &vec![],
        "Let me look.\n<tool_call>\n{\"name\": \"read_file\", \"arguments\": {\"path\": \"a.rs\"}}\n</tool_call>",
    );
    match out {
        ParseOutcome::Calls(c) => {
            assert_eq!(c.calls[0].name, "read_file");
            assert_eq!(c.leftover_text, "Let me look.");
            assert_eq!(c.source, ParseSource::XmlTag);
        }
        o => panic!("{o:?}"),
    }
}

#[test]
fn qwen_function_format() {
    let s = "I'll read it.\n<tool_call>\n<function=read_file>\n<parameter=path>\nsrc/main.rs\n</parameter>\n<parameter=limit>\n40\n</parameter>\n</function>\n</tool_call>";
    match p().parse(&vec![], s) {
        ParseOutcome::Calls(c) => {
            assert_eq!(c.calls[0].name, "read_file");
            assert_eq!(text(&c.calls[0].arguments, "path"), "src/main.rs");
            assert_eq!(c.calls[0].arguments.get("limit").unwrap().as_u64(), Some(40));
            assert_eq!(c.leftover_text, "I'll read it.");
        }
        o => panic!("{o:?}"),
    }
}

#[test]
fn fenced_and_repair() {
    let out = p().parse(
        &vec![],
        "```json\n{\"name\": \"grep\", \"arguments\": {\"pattern\": \"fn main\", \"path\": \"src\",}}\n```",
    );
    match out {
        ParseOutcome::Calls(c) => {
            assert_eq!(c.calls[0].name, "grep");
            assert!(c.repaired);
        }
        o => panic!("{o:?}"),
    }
}

#[test]
fn bare_trailing_object_with_parameters_key() {
    let out = p().parse(&vec![], "I'll read it now:\n{\"name\": \"read_file\", \"parameters\": {\"path\": \"x\"}}");
    match out {
        ParseOutcome::Calls(c) => assert_eq!(text(&c.calls[0].arguments, "path"), "x"),
        o => panic!("{o:?}"),
    }
}

#[test]
fn fuzzy_name() {
    assert_eq!(p().fix_name("ReadFile"), Some("read_file".into()));
    assert_eq!(p().fix_name("functions.edit_file"), Some("edit_file".into()));
    assert_eq!(p().fix_name("banana"), None);
}

#[test]
fn native_double_encoded_args() {
    let n = ToolCallAcc {
        index: 0,
        id: "c1".into(),
        name: "shell".into(),
        arguments: "{\"command\": \"ls\"}".into(),
    };
    match p().parse(&vec![n], "") {
        ParseOutcome::Calls(c) => assert_eq!(text(&c.calls[0].arguments, "command"), "ls"),
        o => panic!("{o:?}"),
    }
}

#[test]
fn plain_text_is_no_calls() {
    assert!(matches!(p().parse(&vec![], "Done. The function is in src/lib.rs."), ParseOutcome::NoCalls));
}

#[test]
fn unterminated_string_repair() {
    let (v, r) = parse_json_lenient("{\"name\": \"shell\", \"arguments\": {\"command\": \"cargo test").unwrap();
    assert!(r);
    assert_eq!(text(v.get("arguments").unwrap(), "command"), "cargo test");
}

#[test]
fn strips_think_tags_from_leftover() {
    let s = "<think>\nThinking deeply about the task...\n</think>\n<tool_call>\n{\"name\": \"read_file\", \"arguments\": {\"path\": \"a.rs\"}}\n</tool_call>";
    match p().parse(&vec![], s) {
        ParseOutcome::Calls(c) => {
            assert_eq!(c.calls[0].name, "read_file");
            assert_eq!(c.leftover_text, "");
        }
        o => panic!("{o:?}"),
    }
}

#[test]
fn unknown_tools_are_malformed() {
    let out = p().parse(&vec![], "<tool_call>{\"name\": \"zzzzqqq\", \"arguments\": {}}</tool_call>");
    assert!(matches!(out, ParseOutcome::Malformed { .. }), "{out:?}");
}

#[test]
fn identifiers_count_up() {
    let mut parser = p();
    assert_eq!(parser.new_id(), "call_0001");
    assert_eq!(parser.new_id(), "call_0002");
}

#[test]
fn what_is_open_is_closed() {
    assert_eq!(close_json("{\"a\": [1, 2"), "{\"a\": [1, 2]}");
    assert_eq!(close_json("{\"a\": \"x"), "{\"a\": \"x\"}");
    let closed = close_json("[{\"b\": [\"c");
    assert_eq!(close_json(&closed), closed);
    assert!(Json::parse(&repair_json("{'a': True,}")).is_ok());
}

#[test]
fn the_last_object_of_a_text() {
    assert_eq!(trailing_json_object("so: {\"a\": {\"b\": 1}}"), Some("{\"a\": {\"b\": 1}}".to_string()));
    assert_eq!(trailing_json_object("{\"a\": 1} and more"), None);
}

#[test]
fn numbers_in_documents() {
    let v = Json::parse("[1, -2, 2.5]").unwrap();
    match v {
        Json::Array(a) => {
            assert!(matches!(a[0], Json::Number(Number::PosInt(1))));
            assert!(matches!(a[1], Json::Number(Number::NegInt(-2))));
            assert!(matches!(a[2], Json::Number(Number::Float(_))));
        }
        o => panic!("{o:?}"),
    }
}

#[test]
fn documents_keep_the_order_of_their_keys() {
    let v = Json::parse("{\"b\":1,\"a\":[true,null,\"x\"]}").unwrap();
    assert_eq!(v.to_text(), "{\"b\":1,\"a\":[true,null,\"x\"]}");
    assert_eq!(v.to_pretty_text(), "{\n  \"b\": 1,\n  \"a\": [\n    true,\n    null,\n    \"x\"\n  ]\n}");
    assert!(v.same_as(&Json::parse("{\"a\":[true,null,\"x\"],\"b\":1}").unwrap()));
    assert!(Json::parse("{\"b\":").is_err());
}
