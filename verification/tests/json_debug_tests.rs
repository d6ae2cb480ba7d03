use multi_light::Config;
use multi_light::ConfigNodeID;
use multi_light::ConfigTree;
use multi_light::DebugTree;
use multi_light::Error;

fn debug_parse(text: &str) -> Config {
    Config::from_json_debug("test.json", text).expect("parse should succeed")
}

fn debug_tree(cfg: &Config) -> &DebugTree {
    match cfg {
        Config::Debug { tree, .. } => tree,
        Config::NonDebug { .. } => panic!("expected a debug document"),
    }
}

fn debug_err(text: &str) -> Error {
    Config::from_json_debug("test.json", text).expect_err("parse should fail")
}

fn err_message(e: &Error) -> String {
    match e {
        Error::JSONError { err, .. } => err.message.clone(),
        other => panic!("expected a JSON parse error, got {other:?}"),
    }
}

#[test]
fn parses_scalars() {
    let cfg = debug_parse("null");
    assert_eq!(
        *debug_tree(&cfg),
        DebugTree::Null {
            id: ConfigNodeID(0)
        }
    );
    let cfg = debug_parse(" true ");
    assert_eq!(
        *debug_tree(&cfg),
        DebugTree::Bool {
            id: ConfigNodeID(0),
            value: true
        }
    );
    let cfg = debug_parse("\"hi\"");
    assert_eq!(
        *debug_tree(&cfg),
        DebugTree::String {
            id: ConfigNodeID(0),
            value: String::from("hi")
        }
    );
}

#[test]
fn numeric_fidelity_keeps_literal_text() {
    // numbers stay their original text, never a numeric type
    for lit in ["5.4", "57", "-1e3", "+1e3", "0.5000"] {
        let cfg = debug_parse(lit);
        assert_eq!(
            *debug_tree(&cfg),
            DebugTree::String {
                id: ConfigNodeID(0),
                value: String::from(lit)
            },
            "literal {lit} must survive verbatim"
        );
    }
}

#[test]
fn identifier_preorder() {
    // [{"a":1},2]: the array opens first, then the object, then the two
    // scalars, in encounter order
    let cfg = debug_parse("[{\"a\":1},2]");
    let expected = DebugTree::Array {
        id: ConfigNodeID(0),
        value: vec![
            DebugTree::Object {
                id: ConfigNodeID(1),
                value: vec![(
                    String::from("a"),
                    DebugTree::String {
                        id: ConfigNodeID(2),
                        value: String::from("1"),
                    },
                )],
            },
            DebugTree::String {
                id: ConfigNodeID(3),
                value: String::from("2"),
            },
        ],
    };
    assert_eq!(*debug_tree(&cfg), expected);
    match &cfg {
        Config::Debug { locations, .. } => assert_eq!(locations.len(), 4),
        _ => unreachable!(),
    }
}

#[test]
fn trailing_commas_rejected() {
    assert!(Config::from_json_debug("t", "[1,]").is_err());
    assert!(Config::from_json_debug("t", "{\"a\":1,}").is_err());
}

#[test]
fn escape_resolution_order() {
    // "A\\n" decodes to A backslash n: the unicode pass first, and the
    // single-character pass must not re-match substituted text
    let cfg = debug_parse("\"\\u0041\\\\n\"");
    assert_eq!(
        *debug_tree(&cfg),
        DebugTree::String {
            id: ConfigNodeID(0),
            value: String::from("A\\n")
        }
    );
}

#[test]
fn escapes_decode() {
    let cfg = debug_parse("\"a\\tb\\\"c\\u00e9\"");
    assert_eq!(
        *debug_tree(&cfg),
        DebugTree::String {
            id: ConfigNodeID(0),
            value: String::from("a\tb\"c\u{e9}")
        }
    );
}

#[test]
fn invalid_escape_is_an_error() {
    let e = debug_err("\"a\\qb\"");
    assert_eq!(err_message(&e), "invalid escape sequence");
}

#[test]
fn dict_key_collision_last_write_wins_debug() {
    let cfg = debug_parse("{\"a\":1,\"a\":2}");
    match debug_tree(&cfg) {
        DebugTree::Object { value, .. } => {
            assert_eq!(value.len(), 1);
            assert_eq!(value[0].0, "a");
            match &value[0].1 {
                DebugTree::String { value, .. } => assert_eq!(value, "2"),
                other => panic!("unexpected value {other:?}"),
            }
        }
        other => panic!("unexpected tree {other:?}"),
    }
}

#[test]
fn unclosed_construct_detected() {
    let e = debug_err("{\"a\":");
    assert_eq!(err_message(&e), "unclosed constructs");
    let e = debug_err("[1, [2");
    assert_eq!(err_message(&e), "unclosed constructs");
    let e = debug_err("");
    assert_eq!(err_message(&e), "unclosed constructs");
}

#[test]
fn too_many_roots_detected() {
    let e = debug_err("1 2");
    assert_eq!(err_message(&e), "too many constructs in root");
}

#[test]
fn unexpected_token_detected() {
    let e = debug_err("[1 2]");
    assert_eq!(err_message(&e), "unexpected token");
    match &e {
        Error::JSONError { err, .. } => {
            // the sample starts at the offending token
            assert!(err.sample.starts_with('2'), "sample was {:?}", err.sample);
            assert_eq!(err.offset, 3);
        }
        _ => unreachable!(),
    }
}

#[test]
fn location_table_is_exact() {
    // for `{\n  "k": 1\n}` the node for 1 sits on line 2, column 8
    let cfg = debug_parse("{\n  \"k\": 1\n}");
    let obj_loc = cfg
        .source_location(ConfigNodeID(0))
        .expect("the object has a location");
    assert_eq!(obj_loc.line_number, 1);
    assert_eq!(obj_loc.column_number, 1);
    assert_eq!(obj_loc.byte_number, 0);
    let one_loc = cfg
        .source_location(ConfigNodeID(1))
        .expect("the scalar has a location");
    assert_eq!(one_loc.line_number, 2);
    assert_eq!(one_loc.column_number, 8);
    assert_eq!(one_loc.byte_number, 9);
    assert!(cfg.source_location(ConfigNodeID(2)).is_none());
}

#[test]
fn round_trip_shape_matches_fast_path() {
    // stripping the debug tree gives the same shape the non-debug path
    // builds (keys written in sorted order, so entry order agrees too)
    let text = "{\"a\": [1, true, null], \"b\": \"x\"}";
    let debug = debug_parse(text);
    let plain = Config::from_json("test.json", text).expect("fast path should accept");
    let stripped: ConfigTree = debug_tree(&debug).strip();
    match plain {
        Config::NonDebug { tree, .. } => assert_eq!(stripped, tree),
        _ => panic!("expected a non-debug document"),
    }
}

#[test]
fn strip_erases_identifiers_only() {
    let cfg = debug_parse("[{\"k\":\"v\"},2.5]");
    let stripped = debug_tree(&cfg).strip();
    let expected = ConfigTree::Array(vec![
        ConfigTree::Object(vec![(String::from("k"), ConfigTree::String(String::from("v")))]),
        ConfigTree::String(String::from("2.5")),
    ]);
    assert_eq!(stripped, expected);
}

#[test]
fn garbage_number_text_is_accepted_verbatim() {
    // the scanner takes any unrecognized character as the start of a number
    // and consumes the number character class greedily, unvalidated
    let cfg = debug_parse("[1.2.3e++]");
    match debug_tree(&cfg) {
        DebugTree::Array { value, .. } => match &value[0] {
            DebugTree::String { value, .. } => assert_eq!(value, "1.2.3e++"),
            other => panic!("unexpected {other:?}"),
        },
        other => panic!("unexpected {other:?}"),
    }
}

#[test]
fn misspelled_literal_means_no_token() {
    // `nul` produces no token, so the array never closes
    let e = debug_err("[nul]");
    assert_eq!(err_message(&e), "unclosed constructs");
}

#[test]
fn file_name_is_carried() {
    let cfg = Config::from_json_debug("grammar.json", "{}").unwrap();
    match cfg {
        Config::Debug { file_name, .. } => assert_eq!(file_name, "grammar.json"),
        _ => unreachable!(),
    }
}

#[test]
fn byte_offsets_count_encoded_bytes() {
    // the accented character occupies two bytes, so byte offsets and
    // columns diverge after it
    let cfg = debug_parse("[\"\u{e9}\",1]");
    let one_loc = cfg.source_location(ConfigNodeID(2)).unwrap();
    assert_eq!(one_loc.line_number, 1);
    assert_eq!(one_loc.column_number, 6);
    assert_eq!(one_loc.byte_number, 6);
    let s_loc = cfg.source_location(ConfigNodeID(1)).unwrap();
    assert_eq!(s_loc.byte_number, 1);
}
