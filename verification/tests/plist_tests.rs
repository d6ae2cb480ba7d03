use multi_light::Config;
use multi_light::ConfigTree;
use multi_light::Error;

fn plist_parse(text: &str) -> ConfigTree {
    match Config::from_plist("test.plist", text).expect("parse should succeed") {
        Config::NonDebug { tree, .. } => tree,
        Config::Debug { .. } => panic!("plist documents are non-debug"),
    }
}

fn plist_err(text: &str) -> String {
    match Config::from_plist("test.plist", text).expect_err("parse should fail") {
        Error::PlistError { err, .. } => err.message,
        other => panic!("expected a plist parse error, got {other:?}"),
    }
}

fn s(text: &str) -> ConfigTree {
    ConfigTree::String(String::from(text))
}

#[test]
fn parses_a_full_property_list() {
    let tree = plist_parse(
        r#"<?xml version="1.0" encoding="UTF-8"?>
<!DOCTYPE plist PUBLIC "-//Apple//DTD PLIST 1.0//EN" "http://www.apple.com/DTDs/PropertyList-1.0.dtd">
<plist version="1.0">
<dict>
	<key>fileTypes</key>
	<array>
		<string>Makefile</string>
		<string>makefile</string>
		<true/>
		<false/>
		<integer>57</integer>
		<real>23.4</real>
	</array>
	<key>scopeName</key>
	<string>source.makefile</string>
</dict>
</plist>"#,
    );
    let expected = ConfigTree::Object(vec![
        (
            String::from("fileTypes"),
            ConfigTree::Array(vec![
                s("Makefile"),
                s("makefile"),
                ConfigTree::Bool(true),
                ConfigTree::Bool(false),
                s("57"),
                s("23.4"),
            ]),
        ),
        (String::from("scopeName"), s("source.makefile")),
    ]);
    assert_eq!(tree, expected);
}

#[test]
fn leaf_categories_collapse_to_text() {
    assert_eq!(plist_parse("<integer>57</integer>"), s("57"));
    assert_eq!(plist_parse("<real>23.4</real>"), s("23.4"));
    assert_eq!(plist_parse("<date>2024-01-01</date>"), s("2024-01-01"));
    assert_eq!(plist_parse("<data>aGk=</data>"), s("aGk="));
    assert_eq!(plist_parse("<string>hi</string>"), s("hi"));
    assert_eq!(plist_parse("<true/>"), ConfigTree::Bool(true));
    assert_eq!(plist_parse("<false/>"), ConfigTree::Bool(false));
}

#[test]
fn self_closing_leaf_is_empty_text() {
    assert_eq!(plist_parse("<string/>"), s(""));
}

#[test]
fn entity_decoding() {
    // decimal references, then hexadecimal, then named entities
    assert_eq!(plist_parse("<string>&#65;&#x42;&amp;</string>"), s("AB&"));
    assert_eq!(plist_parse("<string>a&lt;b&gt;c&quot;d</string>"), s("a<b>c\"d"));
}

#[test]
fn apos_entity_keeps_the_decode_tables_backslash() {
    // the decode table deliberately maps &apos; to a backslash
    assert_eq!(plist_parse("<string>&apos;</string>"), s("\\"));
}

#[test]
fn entity_decoding_is_sequential() {
    // a decimal reference may produce text that a later pass decodes again
    assert_eq!(plist_parse("<string>&#38;lt;</string>"), s("<"));
}

#[test]
fn bad_references_are_errors() {
    assert_eq!(
        plist_err("<string>&#99999999999;</string>"),
        "unable to parse decimal number"
    );
    assert_eq!(plist_err("<string>&#55296;</string>"), "invalid decimal escape");
    assert_eq!(plist_err("<string>&#xd800;</string>"), "invalid hex escape");
}

#[test]
fn bom_is_tolerated() {
    assert_eq!(plist_parse("\u{feff}<string>x</string>"), s("x"));
}

#[test]
fn dict_key_collision_last_write_wins() {
    let tree = plist_parse(
        "<dict><key>a</key><integer>1</integer><key>a</key><integer>2</integer></dict>",
    );
    assert_eq!(tree, ConfigTree::Object(vec![(String::from("a"), s("2"))]));
}

#[test]
fn nested_containers() {
    let tree = plist_parse("<array><array><string>x</string></array><dict></dict></array>");
    assert_eq!(
        tree,
        ConfigTree::Array(vec![
            ConfigTree::Array(vec![s("x")]),
            ConfigTree::Object(vec![]),
        ])
    );
}

#[test]
fn comments_and_instructions_are_skipped() {
    let tree = plist_parse("<?pi stuff?><!-- note --><!DECL junk><string>x</string>");
    assert_eq!(tree, s("x"));
}

#[test]
fn unexpected_tags_are_errors() {
    assert_eq!(plist_err("<wat>1</wat>"), "unexpected opened tag wat");
    assert_eq!(plist_err("<array></wat></array>"), "unexpected closed tag");
    assert_eq!(plist_err("junk"), "expected <");
}

#[test]
fn unterminated_constructs_are_errors() {
    assert_eq!(plist_err("<string>abc"), "unterminated construct");
    assert_eq!(plist_err("<?pi never closed"), "unterminated construct");
    assert_eq!(plist_err("<dict>"), "unclosed constructs");
    assert_eq!(plist_err(""), "unclosed constructs");
}

#[test]
fn structural_mistakes_are_errors() {
    // a value in a dict needs a pending key
    assert_eq!(plist_err("<dict><string>v</string></dict>"), "unexpected value");
    // a key outside a dict
    assert_eq!(plist_err("<array><key>k</key></array>"), "unexpected key");
    // closing the wrong container
    assert_eq!(plist_err("<array></dict>"), "unexpected closing tag");
    // a second root
    assert_eq!(plist_err("<string>a</string><string>b</string>"), "too many constructs in root");
    // a dict closed while a key waits for its value
    assert_eq!(plist_err("<dict><key>k</key></dict>"), "unexpected closing tag");
}

#[test]
fn unexpected_opened_tag_names_the_tag() {
    assert_eq!(plist_err("<bogus attr=\"1\">x</bogus>"), "unexpected opened tag bogus attr=\"1\"");
    // the described error renders the format, the file and the message
    let e = Config::from_plist("g.plist", "<wat/>").expect_err("must fail");
    assert_eq!(
        e.describe(),
        "Error while parsing plist file `g.plist`: unexpected opened tag wat"
    );
}

#[test]
fn error_carries_offset_and_sample() {
    match Config::from_plist("f.plist", "   junk here").expect_err("must fail") {
        Error::PlistError { err, file_name } => {
            assert_eq!(file_name, "f.plist");
            assert_eq!(err.offset, 3);
            assert!(err.sample.starts_with("junk"));
        }
        other => panic!("unexpected {other:?}"),
    }
}

#[test]
fn self_closing_dict_never_closes() {
    // `<dict/>` still opens a dict, which then never closes
    assert_eq!(plist_err("<dict/>"), "unclosed constructs");
}
