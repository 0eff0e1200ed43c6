use lisi::codeblock_parser::{get_dependencies, CodeblockParser, Fragment};
use lisi::snippets::{Snippet, SnippetDB, SnippetType};
use lisi::substitution::{merge_dependencies, weave_body, Warning};

fn plain(content: &str) -> Snippet {
    Snippet {
        kind: SnippetType::Plain,
        content: content.to_string(),
        raw_content: content.to_string(),
        children: Vec::new(),
        depends_on: get_dependencies(content),
        attributes: Vec::new(),
        raw: false,
    }
}

fn store(entries: &[(&str, &str)]) -> SnippetDB {
    let mut db = SnippetDB::new();
    for (name, content) in entries {
        db.store(name.to_string(), plain(content));
    }
    db
}

#[test]
fn code_without_references_is_kept() {
    let db = store(&[]);
    assert_eq!(merge_dependencies("a << b\nc >> d", &db, "x"), "a << b\nc >> d");
}

#[test]
fn plain_reference_is_replaced() {
    let db = store(&[("req", "require \"m\"")]);
    assert_eq!(
        merge_dependencies("<<req>>\n\nprint(m.v)\n", &db, "x"),
        "require \"m\"\n\nprint(m.v)\n"
    );
}

#[test]
fn contributions_are_joined_by_line_feed() {
    let db = store(&[("req", "a = 1"), ("req", "b = 2")]);
    assert_eq!(merge_dependencies("<<req>>", &db, "x"), "a = 1\nb = 2");
}

#[test]
fn contributions_are_joined_by_the_join_of_the_reference() {
    let db = store(&[("f", "x: String"), ("f", "y: u8")]);
    assert_eq!(
        merge_dependencies("struct S { <<f|join=\", \">> }", &db, "x"),
        "struct S { x: String, y: u8 }"
    );
}

#[test]
fn join_escapes_are_decoded() {
    let db = store(&[("f", "x"), ("f", "y")]);
    assert_eq!(merge_dependencies("<<f|join=\",\\n\">>", &db, "x"), "x,\ny");
    assert_eq!(merge_dependencies("<<f|join=\"\\t\">>", &db, "x"), "x\ty");
    assert_eq!(merge_dependencies("<<f|join=\"\\\\\">>", &db, "x"), "x\\y");
    assert_eq!(merge_dependencies("<<f|join=\"\\q\">>", &db, "x"), "x\\qy");
}

#[test]
fn indented_reference_indents_every_line() {
    let db = store(&[("pattern", "one\ntwo\nthree")]);
    assert_eq!(
        merge_dependencies("begin\n  <<pattern>>\nend", &db, "x"),
        "begin\n  one\n  two\n  three\nend"
    );
}

#[test]
fn unresolved_reference_is_empty_and_warns() {
    let db = store(&[]);
    let (text, warnings) = weave_body("a <<missing>> b", &db);
    assert_eq!(text, "a  b");
    assert_eq!(warnings.len(), 1);
    assert!(matches!(&warnings[0], Warning::Unresolved(id) if id == "missing"));
}

#[test]
fn literal_parameter_is_visible_in_the_expansion() {
    let db = store(&[("inner", "this is <<text>>")]);
    assert_eq!(
        merge_dependencies("<<inner|\n    text:=\"my param\">>", &db, "x"),
        "this is my param"
    );
}

#[test]
fn parameter_bound_to_a_fragment_expands_it() {
    let db = store(&[("inner", "this is <<text>>"), ("other", "the other")]);
    assert_eq!(
        merge_dependencies("<<inner| text:=<<other>> >>", &db, "x"),
        "this is the other"
    );
}

#[test]
fn self_reference_is_empty_and_warns() {
    let db = store(&[("inner", "[<<text>>]")]);
    let (text, warnings) = weave_body("<<inner|text:=<<text>>>>", &db);
    assert_eq!(text, "[]");
    assert_eq!(warnings.len(), 1);
    assert!(matches!(&warnings[0], Warning::SelfReference(id) if id == "text"));
}

#[test]
fn raw_snippet_is_not_expanded() {
    let mut db = store(&[("a", "A")]);
    db.store("r".to_string(), Snippet::plain_raw("<<a>>"));
    assert_eq!(merge_dependencies("<<r>>", &db, "x"), "<<a>>");
}

#[test]
fn endless_expansion_stops_with_a_warning() {
    let db = store(&[("a", "(<<b>>)"), ("b", "[<<a>>]")]);
    let (_, warnings) = weave_body("<<a>>", &db);
    assert_eq!(warnings.len(), 1);
    assert!(matches!(&warnings[0], Warning::TooDeep(_)));
}

#[test]
fn dependencies_are_the_identifiers_in_order() {
    assert_eq!(
        get_dependencies("<<b>> x\n  <<a|k:=<<c>>>>\n<<b>>"),
        vec!["b".to_string(), "a".to_string(), "b".to_string()]
    );
    assert!(get_dependencies("no reference << here >>").is_empty());
}

#[test]
fn parser_splits_code_and_references() {
    let items = CodeblockParser::parse("x\n\t<<a>>y<<b|join=\"-\">>");
    assert_eq!(items.len(), 4);
    assert!(matches!(&items[0], Fragment::Code(text) if text == "x"));
    assert!(matches!(&items[1], Fragment::Indented { indentation, reference }
        if indentation == "\t" && reference.identifier == "a"));
    assert!(matches!(&items[2], Fragment::Code(text) if text == "y"));
    assert!(matches!(&items[3], Fragment::Reference(reference)
        if reference.identifier == "b" && reference.attributes.len() == 1));
}

#[test]
fn malformed_reference_is_code() {
    let items = CodeblockParser::parse("<<a|>> <<>> <<b");
    assert_eq!(items.len(), 1);
    assert!(matches!(&items[0], Fragment::Code(text) if text == "<<a|>> <<>> <<b"));
}

#[test]
fn nested_binding_shadows_the_outer_one() {
    let db = store(&[("outer", "(<<inner|k:=\"in\">>)<<k>>"), ("inner", "[<<k>>]")]);
    assert_eq!(merge_dependencies("<<outer|k:=\"out\">><<k>>", &db, "x"), "([in])out");
}

#[test]
fn outer_binding_reaches_in_where_nothing_else_resolves() {
    let db = store(&[("outer", "(<<inner>>)"), ("inner", "[<<k>>]")]);
    assert_eq!(merge_dependencies("<<outer|k:=\"out\">>", &db, "x"), "([out])");
    let db = store(&[("outer", "(<<inner>>)"), ("inner", "[<<k>>]"), ("k", "stored")]);
    assert_eq!(merge_dependencies("<<outer|k:=\"out\">>", &db, "x"), "([stored])");
}

#[test]
fn parameter_of_a_parameter() {
    let db = store(&[("frame", "<<body>>"), ("greeting", "hello <<name>>")]);
    assert_eq!(
        merge_dependencies("<<frame|body:=<<greeting|name:=\"you\">>>>", &db, "x"),
        "hello you"
    );
}

#[test]
fn long_chain_of_references_is_followed_to_its_end() {
    let mut db = SnippetDB::new();
    for i in 0..200 {
        db.store(format!("a{}", i), plain(&format!("<<a{}>>", i + 1)));
    }
    db.store("a200".to_string(), plain("end"));
    let (text, warnings) = weave_body("<<a0>>", &db);
    assert_eq!(text, "end");
    assert!(warnings.is_empty());
}

#[test]
fn store_knows_how_many_names_it_holds() {
    let db = store(&[("a", "1"), ("b", "2"), ("a", "3")]);
    assert_eq!(db.len(), 2);
    assert_eq!(SnippetDB::new().len(), 0);
}

#[test]
fn bound_parameter_is_passed_on() {
    let db = store(&[("a", "<<b|k:=<<k>>>>"), ("b", "<<k>>")]);
    assert_eq!(merge_dependencies("<<a|k:=\"v\">>", &db, "x"), "v");
}
