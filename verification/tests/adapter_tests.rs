use multi_light::Config;
use multi_light::ConfigTree;
use multi_light::Error;
use multi_light::Registry;

fn tree_of(cfg: Config) -> ConfigTree {
    match cfg {
        Config::NonDebug { tree, .. } => tree,
        Config::Debug { .. } => panic!("adapters build non-debug documents"),
    }
}

fn s(text: &str) -> ConfigTree {
    ConfigTree::String(String::from(text))
}

#[test]
fn json_fast_path_parses() {
    let cfg = Config::from_json("a.json", "{\"a\": [1, \"x\", true, null]}").unwrap();
    let tree = tree_of(cfg);
    let expected = ConfigTree::Object(vec![(
        String::from("a"),
        ConfigTree::Array(vec![s("1"), s("x"), ConfigTree::Bool(true), ConfigTree::Null]),
    )]);
    assert_eq!(tree, expected);
}

#[test]
fn json_fast_path_rejects_bad_input() {
    match Config::from_json("a.json", "{oops") {
        Err(Error::SerdeJson { file_name, .. }) => assert_eq!(file_name, "a.json"),
        other => panic!("unexpected {other:?}"),
    }
}

#[test]
fn json_fast_path_key_collision_last_write_wins() {
    let cfg = Config::from_json("a.json", "{\"a\":1,\"a\":2}").unwrap();
    assert_eq!(
        tree_of(cfg),
        ConfigTree::Object(vec![(String::from("a"), s("2"))])
    );
}

#[test]
fn toml_parses() {
    let cfg = Config::from_toml("c.toml", "x = 1\ny = \"two\"\nz = [true, 2.5]\n").unwrap();
    let tree = tree_of(cfg);
    match tree {
        ConfigTree::Object(pairs) => {
            assert_eq!(pairs.len(), 3);
            assert!(pairs.iter().any(|(k, v)| k == "x" && *v == s("1")));
            assert!(pairs.iter().any(|(k, v)| k == "y" && *v == s("two")));
            assert!(pairs
                .iter()
                .any(|(k, v)| k == "z"
                    && *v == ConfigTree::Array(vec![ConfigTree::Bool(true), s("2.5")])));
        }
        other => panic!("unexpected {other:?}"),
    }
}

#[test]
fn toml_rejects_bad_input() {
    match Config::from_toml("c.toml", "= nope") {
        Err(Error::SerdeToml { file_name, .. }) => assert_eq!(file_name, "c.toml"),
        other => panic!("unexpected {other:?}"),
    }
}

#[test]
fn yaml_parses_single_document() {
    let cfg = Config::from_yaml("d.yaml", "a: 1\nb:\n  - x\n  - true\n").unwrap();
    let tree = tree_of(cfg);
    match tree {
        ConfigTree::Object(pairs) => {
            assert!(pairs.iter().any(|(k, v)| k == "a" && *v == s("1")));
            assert!(pairs.iter().any(|(k, v)| k == "b"
                && *v == ConfigTree::Array(vec![s("x"), ConfigTree::Bool(true)])));
        }
        other => panic!("unexpected {other:?}"),
    }
}

#[test]
fn yaml_rejects_multiple_documents() {
    match Config::from_yaml("d.yaml", "---\na: 1\n---\nb: 2\n") {
        Err(Error::YAMLError { err, file_name }) => {
            assert_eq!(file_name, "d.yaml");
            assert_eq!(err, "expected exactly one document");
        }
        other => panic!("unexpected {other:?}"),
    }
}

#[test]
fn yaml_rejects_complex_keys() {
    match Config::from_yaml("d.yaml", "? [1, 2]\n: value\n") {
        Err(Error::YAMLError { err, .. }) => {
            assert_eq!(err, "Unexpected Complex Key in map");
        }
        other => panic!("unexpected {other:?}"),
    }
}

#[test]
fn describe_renders_format_file_and_message() {
    let e = Config::from_yaml("d.yaml", "---\na: 1\n---\nb: 2\n").expect_err("must fail");
    assert_eq!(
        e.describe(),
        "Error while parsing YAML file `d.yaml`: expected exactly one document"
    );
    let e = Config::from_json("a.json", "{oops").expect_err("must fail");
    assert!(e
        .describe()
        .starts_with("Error while parsing JSON file `a.json`: "));
}

#[test]
fn registry_probes_formats_in_order() {
    let mut reg = Registry::new();
    reg.add("p", "<string>plist wins</string>").unwrap();
    reg.add("j", "{\"k\": 1}").unwrap();
    reg.add("t", "k = 1\n").unwrap();
    reg.add("y", "k: [1, 2]\n").unwrap();
    match reg.get("p") {
        Some(Config::NonDebug { tree, .. }) => assert_eq!(*tree, s("plist wins")),
        other => panic!("unexpected {other:?}"),
    }
    match reg.get("j") {
        Some(Config::NonDebug { tree, .. }) => {
            assert_eq!(*tree, ConfigTree::Object(vec![(String::from("k"), s("1"))]));
        }
        other => panic!("unexpected {other:?}"),
    }
    assert!(reg.get("t").is_some());
    assert!(reg.get("y").is_some());
    assert!(reg.get("missing").is_none());
}

#[test]
fn registry_replaces_existing_names() {
    let mut reg = Registry::new();
    reg.add("n", "<string>first</string>").unwrap();
    reg.add("n", "<string>second</string>").unwrap();
    match reg.get("n") {
        Some(Config::NonDebug { tree, .. }) => assert_eq!(*tree, s("second")),
        other => panic!("unexpected {other:?}"),
    }
}

#[test]
fn registry_reports_the_last_probes_error() {
    let mut reg = Registry::new();
    // rejected by every format: the YAML failure comes back
    match reg.add("bad", "{ unbalanced: [") {
        Err(Error::YAMLError { file_name, .. }) => assert_eq!(file_name, "bad"),
        other => panic!("unexpected {other:?}"),
    }
    assert!(reg.get("bad").is_none());
}

#[test]
fn registry_default_is_empty() {
    let reg = Registry::default();
    assert!(reg.get("anything").is_none());
}
