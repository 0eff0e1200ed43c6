use lisi::ast::{Attribute, AttributeValue, BlockType, Element, ElementSpan, AST};
use lisi::dispatch::{actions, normalize, weave_snippet, Action};
use lisi::lisi::{
    eval_notice, extract_element, pipe_notice, process, synthesize_id, Error, Extension, Lisi, Notice,
};
use lisi::script::{sort_texts, text_le, LisiWrapper};
use lisi::snippets::{Snippet, SnippetDB, SnippetType};
use lisi::substitution::Warning;
use lisi::util::{needs_write, AsciidoctrineError, Cache, Environment, Evaluation, Files};

fn node(element: Element, content: &str, start: usize) -> ElementSpan {
    ElementSpan {
        source: None,
        content: content.to_string(),
        start,
        end: start + content.len(),
        start_line: 0,
        start_col: 0,
        end_line: 0,
        end_col: 0,
        element,
        children: Vec::new(),
        positional_attributes: Vec::new(),
        attributes: Vec::new(),
    }
}

fn attr(key: &str, value: &str) -> Attribute {
    Attribute { key: key.to_string(), value: AttributeValue::Ref(value.to_string()) }
}

fn listing(anchor: Option<&str>, positional: &[&str], named: &[(&str, &str)], body: &str, start: usize) -> ElementSpan {
    let mut element = node(Element::TypedBlock { kind: BlockType::Listing }, body, start);
    if let Some(anchor) = anchor {
        element.attributes.push(attr("anchor", anchor));
    }
    for word in positional {
        element.positional_attributes.push(AttributeValue::Ref(word.to_string()));
    }
    for (key, value) in named {
        element.attributes.push(attr(key, value));
    }
    element
}

fn tree(elements: Vec<ElementSpan>) -> AST {
    AST { content: String::new(), elements, attributes: Vec::new() }
}

fn run(ast: AST) -> Result<Files, Error> {
    let mut lisi = Lisi::from_env(Cache::new());
    lisi.transform(ast)?;
    Ok(lisi.into_cache().unwrap())
}

fn plain(content: &str) -> Snippet {
    Snippet {
        kind: SnippetType::Plain,
        content: content.to_string(),
        raw_content: content.to_string(),
        children: Vec::new(),
        depends_on: lisi::codeblock_parser::get_dependencies(content),
        attributes: Vec::new(),
        raw: false,
    }
}

#[test]
fn saved_fragment_with_reference() -> Result<(), Error> {
    let mut files = run(tree(vec![
        listing(Some("req"), &["source", "lua"], &[], "require \"m\"", 0),
        listing(None, &["source", "lua", "save"], &[("path", "a.lua")], "<<req>>\n\nprint(m.v)\n", 50),
    ]))?;
    assert_eq!(files.remove("a.lua").unwrap(), "require \"m\"\n\nprint(m.v)\n");
    assert!(files.is_empty());
    Ok(())
}

#[test]
fn saved_fragment_before_its_reference() -> Result<(), Error> {
    let first = run(tree(vec![
        listing(Some("req"), &["source", "lua"], &[], "require \"m\"", 0),
        listing(None, &["source", "lua", "save"], &[("path", "a.lua")], "<<req>>\n\nprint(m.v)\n", 50),
    ]))?;
    let second = run(tree(vec![
        listing(None, &["source", "lua", "save"], &[("path", "a.lua")], "<<req>>\n\nprint(m.v)\n", 0),
        listing(Some("req"), &["source", "lua"], &[], "require \"m\"", 50),
    ]))?;
    assert_eq!(first.get("a.lua").unwrap(), "require \"m\"\n\nprint(m.v)\n");
    assert_eq!(first.get("a.lua"), second.get("a.lua"));
    Ok(())
}

#[test]
fn two_contributions_joined_by_a_line_feed() -> Result<(), Error> {
    let mut files = run(tree(vec![
        listing(Some("req"), &["source", "lua"], &[], "a = 1\n", 0),
        listing(Some("req"), &["source", "lua"], &[], "b = 2\n", 30),
        listing(None, &["source", "lua", "save"], &[("path", "a.lua")], "<<req|join=\"\\n\">>", 60),
    ]))?;
    assert_eq!(files.remove("a.lua").unwrap(), "a = 1\n\nb = 2\n");
    Ok(())
}

#[test]
fn two_contributions_joined_by_a_literal() -> Result<(), Error> {
    let mut files = run(tree(vec![
        listing(Some("req"), &["source", "rust"], &[], "x: String", 0),
        listing(Some("req"), &["source", "rust"], &[], "y: u8", 30),
        listing(None, &["source", "rust", "save"], &[("path", "a.rs")], "<<req|join=\", \">>", 60),
    ]))?;
    assert_eq!(files.remove("a.rs").unwrap(), "x: String, y: u8\n");
    Ok(())
}

#[test]
fn indented_reference_keeps_its_indentation() -> Result<(), Error> {
    let mut files = run(tree(vec![
        listing(Some("pattern"), &["source", "c"], &[], "a();\nb();\nc();", 0),
        listing(None, &["source", "c", "save"], &[("title", "o.c")], "{\n  <<pattern>>\n}", 60),
    ]))?;
    assert_eq!(files.remove("o.c").unwrap(), "{\n  a();\n  b();\n  c();\n}\n");
    Ok(())
}

#[test]
fn inert_tree_leaves_the_cache_empty() -> Result<(), Error> {
    let ast = tree(vec![
        listing(Some("a"), &["source", "c"], &[], "x = 1;", 0),
        listing(Some("b"), &["source", "c"], &[], "<<a>> <<missing>>", 30),
        node(Element::Paragraph, "text", 60),
    ]);
    let copy = ast.clone();
    let mut lisi = Lisi::from_env(Cache::new());
    let back = lisi.transform(ast)?;
    assert_eq!(back, copy);
    assert!(lisi.into_cache().unwrap().is_empty());
    Ok(())
}

#[test]
fn writing_twice_is_writing_once() {
    let mut cache = Cache::new();
    cache.write("a.txt", "content\n").unwrap();
    let once: Vec<String> = vec![cache.read_to_string("a.txt").unwrap()];
    cache.write("a.txt", "content\n").unwrap();
    cache.write("a.txt", "content\n").unwrap();
    let mut files = cache.get_files();
    assert_eq!(files.remove("a.txt").unwrap(), once[0]);
    assert!(files.is_empty());
}

#[test]
fn fragments_are_handled_after_what_they_refer_to() -> Result<(), Error> {
    let mut lisi = Lisi::from_env(Cache::new());
    let ast = tree(vec![
        listing(Some("a"), &["source", "c"], &[], "<<b>> <<c>>", 0),
        listing(Some("b"), &["source", "c"], &[], "<<c>>", 30),
        listing(Some("c"), &["source", "c"], &[], "leaf", 60),
        listing(Some("d"), &["source", "c"], &[], "<<a>>", 90),
    ]);
    let (_, report) = lisi.weave_document(ast)?;
    let at = |name: &str| report.order.iter().position(|k| k == name).unwrap();
    assert_eq!(report.order.len(), 4);
    assert!(at("c") < at("b"));
    assert!(at("b") < at("a"));
    assert!(at("c") < at("a"));
    assert!(at("a") < at("d"));
    Ok(())
}

#[test]
fn save_without_path_is_an_error() {
    let result = run(tree(vec![listing(None, &["source", "c", "save"], &[], "x", 0)]));
    assert_eq!(result.err(), Some(Error::Missing));
}

#[test]
fn save_takes_the_path_before_the_title() -> Result<(), Error> {
    let mut files = run(tree(vec![listing(
        None,
        &["source", "c", "save"],
        &[("title", "t.c"), ("path", "p.c")],
        "x",
        0,
    )]))?;
    assert_eq!(files.remove("p.c").unwrap(), "x\n");
    assert!(files.is_empty());
    Ok(())
}

#[test]
fn second_positional_attribute_is_the_language() {
    let block = listing(Some("a"), &["source", "save"], &[], "x", 0);
    let db = extract_element(SnippetDB::new(), &block).unwrap();
    assert!(matches!(&db.get("a").unwrap().kind, SnippetType::Plain));
    let block = listing(Some("a"), &["source", "eval", "eval"], &[], "x", 0);
    let db = extract_element(SnippetDB::new(), &block).unwrap();
    assert!(matches!(&db.get("a").unwrap().kind, SnippetType::Eval(i) if i == "eval"));
    let block = listing(Some("a"), &["source", "c", "save", "pipe"], &[("path", "p")], "x", 0);
    let db = extract_element(SnippetDB::new(), &block).unwrap();
    assert!(matches!(&db.get("a").unwrap().kind, SnippetType::Pipe));
}

#[test]
fn eval_uses_the_interpreter_attribute_or_the_language() {
    let block = listing(None, &["source", "sh", "eval"], &[], "echo", 0);
    let db = extract_element(SnippetDB::new(), &block).unwrap();
    assert!(matches!(&db.get("_id_0_4").unwrap().kind, SnippetType::Eval(i) if i == "sh"));
    let block = listing(None, &["source", "sh", "eval"], &[("interpreter", "bash")], "echo", 0);
    let db = extract_element(SnippetDB::new(), &block).unwrap();
    assert!(matches!(&db.get("_id_0_4").unwrap().kind, SnippetType::Eval(i) if i == "bash"));
}

#[test]
fn eval_of_an_unknown_run_fails() {
    let result = run(tree(vec![listing(None, &["source", "sh", "eval"], &[], "echo", 0)]));
    assert_eq!(result.err(), Some(Error::Asciidoctrine(AsciidoctrineError::Childprocess)));
}

#[test]
fn eval_of_an_expected_run_changes_the_files() -> Result<(), Error> {
    let mut cache = Cache::new();
    cache.write("old.txt", "old").unwrap();
    cache.expect(Evaluation {
        interpreter: "sh".to_string(),
        content: "echo".to_string(),
        success: false,
        output: String::new(),
        error: "no luck".to_string(),
        add: vec![("new.txt".to_string(), "new".to_string())],
        remove: vec!["old.txt".to_string()],
    });
    let mut lisi = Lisi::from_env(cache);
    let (_, report) = lisi.weave_document(tree(vec![listing(
        Some("run"),
        &["source", "sh", "eval"],
        &[],
        "echo",
        0,
    )]))?;
    assert!(matches!(&report.notices[0], Notice::EvalFailed { key, error }
        if key == "run" && error == "no luck"));
    let mut files = lisi.into_cache().unwrap();
    assert_eq!(files.remove("new.txt").unwrap(), "new");
    assert!(files.is_empty());
    Ok(())
}

#[test]
fn reading_from_the_cache() {
    let mut cache = Cache::new();
    assert_eq!(cache.read_to_string("a"), Err(AsciidoctrineError::NotFound));
    cache.write("a", "text").unwrap();
    assert_eq!(cache.read_to_string("a"), Ok("text".to_string()));
    assert_eq!(cache.read_to_string("a"), Ok("text".to_string()));
    assert_eq!(cache.read_to_string("b"), Err(AsciidoctrineError::NotFound));
    let mut files = cache.get_files();
    assert_eq!(files.remove("a").unwrap(), "text");
    assert!(files.is_empty());
}

#[test]
fn raw_marker_keeps_references() -> Result<(), Error> {
    let mut files = run(tree(vec![
        listing(Some("a"), &["source", "c", "lisi-raw"], &[], "<<b>>", 0),
        listing(Some("b"), &["source", "c"], &[], "B", 30),
        listing(None, &["source", "c", "save"], &[("path", "o")], "<<a>>", 60),
    ]))?;
    assert_eq!(files.remove("o").unwrap(), "<<b>>\n");
    Ok(())
}

#[test]
fn ring_of_references_is_left_out() -> Result<(), Error> {
    let mut lisi = Lisi::from_env(Cache::new());
    let (_, report) = lisi.weave_document(tree(vec![
        listing(Some("a"), &["source", "c", "save"], &[("path", "a")], "<<b>>", 0),
        listing(Some("b"), &["source", "c"], &[], "<<a>>", 30),
        listing(Some("c"), &["source", "c", "save"], &[("path", "c")], "free", 60),
    ]))?;
    assert_eq!(report.order, vec!["c".to_string()]);
    assert!(report.notices.iter().any(|n| matches!(n, Notice::Cycle)));
    let mut files = lisi.into_cache().unwrap();
    assert_eq!(files.remove("c").unwrap(), "free\n");
    assert!(files.is_empty());
    Ok(())
}

#[test]
fn unknown_reference_is_reported() -> Result<(), Error> {
    let mut lisi = Lisi::from_env(Cache::new());
    let (_, report) = lisi.weave_document(tree(vec![listing(
        Some("a"),
        &["source", "c", "save"],
        &[("path", "a")],
        "x <<nothing>> y",
        0,
    )]))?;
    assert!(report.notices.iter().any(|n| matches!(n, Notice::MissingSnippet { key } if key == "nothing")));
    assert!(report.notices.iter().any(|n| matches!(n,
        Notice::Weave { key, warning: Warning::Unresolved(id) } if key == "a" && id == "nothing")));
    let mut files = lisi.into_cache().unwrap();
    assert_eq!(files.remove("a").unwrap(), "x  y\n");
    Ok(())
}

#[test]
fn pipe_script_stores_a_snippet() -> Result<(), Error> {
    let mut files = run(tree(vec![
        listing(Some("gen"), &["source", "rhai", "pipe"], &[], "lisi.store(\"made\", \"<\" + \"<kept>> by script\");", 0),
        listing(None, &["source", "c", "save"], &[("path", "o")], "<<made>>", 60),
        listing(Some("made"), &["source", "c"], &[], "<<gen>>", 100),
    ]))?;
    assert_eq!(files.remove("o").unwrap(), "<<kept>> by script\n");
    Ok(())
}

#[test]
fn pipe_script_reads_the_store() -> Result<(), Error> {
    let script = "let names = lisi.get_snippet_names();\nlet s = lisi.get_snippet(\"b\");\nlet none = lisi.get_snippet(\"zzz\");\nlisi.store(\"out\", names[0] + names[1] + names[2] + names[3] + \":\" + s.content + \":\" + s.attrs.anchor + \":\" + type_of(none));";
    let mut files = run(tree(vec![
        listing(Some("gen"), &["source", "rhai", "pipe"], &[], script, 0),
        listing(Some("b"), &["source", "c"], &[], "one", 30),
        listing(Some("b"), &["source", "c"], &[], "two", 40),
        listing(Some("out"), &["source", "c"], &[], "<<gen>> <<b>>", 50),
        listing(Some("a"), &["source", "c", "save"], &[("path", "o")], "<<out>>", 60),
    ]))?;
    assert_eq!(files.remove("o").unwrap(), "abgenout:one\ntwo:b:()\n");
    Ok(())
}

#[test]
fn failing_pipe_script_is_reported() -> Result<(), Error> {
    let mut lisi = Lisi::from_env(Cache::new());
    let (_, report) = lisi.weave_document(tree(vec![listing(
        Some("gen"),
        &["source", "rhai", "pipe"],
        &[],
        "this is not a script (",
        0,
    )]))?;
    assert!(matches!(&report.notices[0], Notice::PipeFailed { key } if key == "gen"));
    Ok(())
}

#[test]
fn endless_pipe_script_is_stopped() -> Result<(), Error> {
    let mut lisi = Lisi::from_env(Cache::new());
    let (_, report) = lisi.weave_document(tree(vec![listing(
        Some("gen"),
        &["source", "rhai", "pipe"],
        &[],
        "loop { }",
        0,
    )]))?;
    assert!(matches!(&report.notices[0], Notice::PipeFailed { key } if key == "gen"));
    Ok(())
}

#[test]
fn host_store_replaces_all_contributions() {
    let mut db = SnippetDB::new();
    db.store("a".to_string(), plain("1"));
    db.store("a".to_string(), plain("2"));
    let mut host = LisiWrapper { snippets: db };
    host.store("a", "new");
    let snippet = host.snippets.get("a").unwrap();
    assert!(snippet.raw);
    assert!(snippet.children.is_empty());
    assert_eq!(snippet.content, "new");
    assert_eq!(snippet.raw_content, "new");
    assert_eq!(host.get_snippet("a").unwrap().content, "new");
    assert!(host.get_snippet("b").is_none());
}

#[test]
fn names_are_sorted() {
    let mut db = SnippetDB::new();
    for name in ["b", "ab", "", "a", "B", "é"] {
        db.store(name.to_string(), plain("x"));
    }
    let host = LisiWrapper { snippets: db };
    assert_eq!(host.get_snippet_names(), vec!["", "B", "a", "ab", "b", "é"]);
    assert!(text_le("a", "ab") && !text_le("ab", "a") && text_le("a", "a"));
    assert_eq!(
        sort_texts(vec!["b".to_string(), "a".to_string(), "b".to_string()]),
        vec!["a", "b", "b"]
    );
}

#[test]
fn store_keeps_document_order() {
    let mut db = SnippetDB::new();
    db.store("a".to_string(), plain("<<x>>"));
    assert!(db.get("a").unwrap().children.is_empty());
    db.store("a".to_string(), plain("<<y>>"));
    db.store("a".to_string(), plain("3"));
    let a = db.get("a").unwrap();
    assert_eq!(a.children.len(), 3);
    assert_eq!(a.children[0].content, "<<x>>");
    assert_eq!(a.children[1].content, "<<y>>");
    assert_eq!(a.children[2].content, "3");
    assert_eq!(a.depends_on, vec!["x", "y"]);
    assert_eq!(a.get_raw_content(", "), "<<x>>, <<y>>, 3");
    assert_eq!(a.get_content("\n"), "<<x>>\n<<y>>\n3");
    assert!(db.get("b").is_none());
    let popped = db.pop("a").unwrap();
    assert_eq!(popped.children.len(), 3);
    assert!(db.get("a").is_none());
    assert!(db.pop("a").is_none());
    assert!(db.iter().is_empty());
}

#[test]
fn iteration_follows_arrival() {
    let mut db = SnippetDB::new();
    db.store("z".to_string(), plain("1"));
    db.store("a".to_string(), plain("2"));
    db.store("z".to_string(), plain("3"));
    let names: Vec<&str> = db.iter().iter().map(|(name, _)| name.as_str()).collect();
    assert_eq!(names, vec!["z", "a"]);
}

#[test]
fn synthesized_identifier() {
    assert_eq!(synthesize_id(0, 7), "_id_0_7");
    assert_eq!(synthesize_id(120, 40519), "_id_120_40519");
    let db = extract_element(SnippetDB::new(), &listing(None, &["source"], &[], "abc", 17)).unwrap();
    assert!(db.get("_id_17_20").is_some());
}

#[test]
fn blocks_that_are_no_source_are_skipped() {
    let db = extract_element(SnippetDB::new(), &listing(Some("a"), &["listing"], &[], "x", 0)).unwrap();
    assert!(db.iter().is_empty());
    let db = extract_element(SnippetDB::new(), &listing(Some("a"), &[], &[], "x", 0)).unwrap();
    assert!(db.iter().is_empty());
    let db = extract_element(SnippetDB::new(), &node(Element::Styled, "x", 0)).unwrap();
    assert!(db.iter().is_empty());
}

#[test]
fn included_documents_and_children_are_harvested() {
    let inner = tree(vec![listing(Some("in"), &["source"], &[], "inner", 0)]);
    let mut section = node(Element::Paragraph, "", 0);
    section.children.push(listing(Some("child"), &["source"], &[], "below", 0));
    let included = node(
        Element::IncludeElement(lisi::ast::IncludeElement { inner }),
        "",
        0,
    );
    let db = extract_element(SnippetDB::new(), &included).unwrap();
    assert_eq!(db.get("in").unwrap().content, "inner");
    let db = extract_element(db, &section).unwrap();
    assert_eq!(db.get("child").unwrap().content, "below");
}

#[test]
fn weaver_harvests_like_the_harvester() {
    let block = listing(Some("a"), &["source", "c", "save"], &[("title", "t")], "x", 0);
    let mut lisi = Lisi::from_env(Cache::new());
    let db = lisi.extract(SnippetDB::new(), &block).unwrap();
    assert!(matches!(&db.get("a").unwrap().kind, SnippetType::Save(path) if path == "t"));
    let db = lisi.extract_ast(&tree(vec![block])).unwrap();
    assert_eq!(db.get("a").unwrap().depends_on.len(), 0);
    lisi.calculate_snippet_ordering(&db);
    let report = lisi.generate_outputs(db).unwrap();
    assert_eq!(report.order, vec!["a".to_string()]);
    lisi.save("p", "a \nb").unwrap();
    let mut files = lisi.into_cache().unwrap();
    assert_eq!(files.remove("t").unwrap(), "x\n");
    assert_eq!(files.remove("p").unwrap(), "a\nb\n");
}

#[test]
fn content_attribute_overrides_the_text() {
    let block = listing(Some("a"), &["source"], &[("content", "from attribute"), ("anchor", "late")], "text", 0);
    let db = extract_element(SnippetDB::new(), &block).unwrap();
    let a = db.get("a").unwrap();
    assert_eq!(a.content, "from attribute");
    assert_eq!(a.raw_content, "from attribute");
    assert_eq!(
        a.attributes,
        vec![
            ("anchor".to_string(), "a".to_string()),
            ("content".to_string(), "from attribute".to_string())
        ]
    );
}

#[test]
fn normalized_text() {
    assert_eq!(normalize("a  \n\tb\t \r\n\nc"), "a\n\tb\n\nc\n");
    assert_eq!(normalize(""), "");
    assert_eq!(normalize("\n"), "\n");
    assert_eq!(normalize("x\u{a0}\u{3000}"), "x\n");
}

#[test]
fn later_contributions_keep_their_sinks() {
    let mut db = SnippetDB::new();
    db.store("a".to_string(), plain("one "));
    let mut second = plain("two");
    second.kind = SnippetType::Save("b.txt".to_string());
    db.store("a".to_string(), second);
    let mut third = plain("three");
    third.kind = SnippetType::Pipe;
    db.store("a".to_string(), third);
    let acts = actions(db.get("a").unwrap());
    assert_eq!(
        acts,
        vec![
            Action::Save { path: "b.txt".to_string(), content: "two\n".to_string() },
            Action::Pipe { content: "three".to_string() },
        ]
    );
    let mut first = plain("x  ");
    first.kind = SnippetType::Eval("sh".to_string());
    let mut db = SnippetDB::new();
    db.store("e".to_string(), first);
    db.store("e".to_string(), plain("y"));
    assert_eq!(
        actions(db.get("e").unwrap()),
        vec![Action::Eval { interpreter: "sh".to_string(), content: "x  \ny".to_string() }]
    );
}

#[test]
fn processing_weaves_in_the_store() {
    let mut db = SnippetDB::new();
    db.store("a".to_string(), plain("A"));
    db.store("b".to_string(), plain("<<a>>!"));
    db.store("b".to_string(), plain("<<b>>?"));
    let (acts, warnings) = process("b", &mut db).unwrap();
    assert!(acts.is_empty());
    assert_eq!(warnings.len(), 1);
    let b = db.get("b").unwrap();
    assert_eq!(b.children[0].content, "A!");
    assert_eq!(b.children[0].raw_content, "<<a>>!");
    assert_eq!(b.children[1].content, "?");
    assert!(process("zzz", &mut db).is_none());
    let (woven, _) = weave_snippet(Snippet::plain_raw("<<a>>"), &db);
    assert_eq!(woven.content, "<<a>>");
}

#[test]
fn weaver_hands_on_what_the_environment_answers() {
    let mut cache = Cache::new();
    cache.expect(Evaluation {
        interpreter: "sh".to_string(),
        content: "run".to_string(),
        success: true,
        output: "out".to_string(),
        error: "err".to_string(),
        add: vec![],
        remove: vec![],
    });
    let mut lisi = Lisi::from_env(cache);
    assert_eq!(lisi.save("a", "x \n"), Ok(()));
    assert_eq!(lisi.eval("sh".to_string(), "run".to_string()), Ok((true, "err".to_string())));
    assert_eq!(
        lisi.eval("sh".to_string(), "run".to_string()),
        Err(Error::Asciidoctrine(AsciidoctrineError::Childprocess))
    );
    let mut files = lisi.into_cache().unwrap();
    assert_eq!(files.remove("a").unwrap(), "x\n");
    assert!(files.is_empty());
}

#[test]
fn answer_of_a_run_that_succeeded_is_nothing_to_tell() {
    let key = "run".to_string();
    let answer = Ok((true, "out".to_string(), "err".to_string()));
    assert!(matches!(eval_notice(&key, answer), Ok(None)));
}

#[test]
fn answer_of_a_run_that_failed_is_a_notice() {
    let key = "run".to_string();
    let answer = Ok((false, "out".to_string(), "no luck".to_string()));
    assert!(matches!(eval_notice(&key, answer), Ok(Some(Notice::EvalFailed { key, error }))
        if key == "run" && error == "no luck"));
}

#[test]
fn failure_of_the_environment_ends_the_run() {
    let key = "run".to_string();
    assert_eq!(
        eval_notice(&key, Err(AsciidoctrineError::Childprocess)).err(),
        Some(Error::Asciidoctrine(AsciidoctrineError::Childprocess))
    );
    assert_eq!(
        eval_notice(&key, Err(AsciidoctrineError::Io("disk".to_string()))).err(),
        Some(Error::Asciidoctrine(AsciidoctrineError::Io("disk".to_string())))
    );
}

#[test]
fn end_of_a_script_is_told_where_it_failed() {
    let key = "script".to_string();
    assert!(pipe_notice(&key, true).is_none());
    assert!(matches!(pipe_notice(&key, false), Some(Notice::PipeFailed { key }) if key == "script"));
}

#[test]
fn report_records_what_was_done_in_order() -> Result<(), Error> {
    let mut lisi = Lisi::from_env(Cache::new());
    let (_, report) = lisi.weave_document(tree(vec![
        listing(Some("main"), &["source", "c", "save"], &[("path", "main.c")], "<<lib>>;", 0),
        listing(Some("lib"), &["source", "c", "save"], &[("path", "lib.c")], "lib()", 30),
    ]))?;
    assert_eq!(report.order, vec!["lib".to_string(), "main".to_string()]);
    assert_eq!(report.done.len(), 2);
    assert!(matches!(&report.done[0], Action::Save { path, content }
        if path == "lib.c" && content == "lib()\n"));
    assert!(matches!(&report.done[1], Action::Save { path, content }
        if path == "main.c" && content == "lib();\n"));
    assert!(report.notices.is_empty());
    Ok(())
}

#[test]
fn report_of_a_ring_records_no_action_for_its_members() -> Result<(), Error> {
    let mut lisi = Lisi::from_env(Cache::new());
    let (_, report) = lisi.weave_document(tree(vec![
        listing(Some("a"), &["source", "c", "save"], &[("path", "a")], "<<b>>", 0),
        listing(Some("b"), &["source", "c", "save"], &[("path", "b")], "<<a>>", 30),
        listing(Some("c"), &["source", "c", "save"], &[("path", "c")], "free", 60),
    ]))?;
    assert_eq!(report.done.len(), 1);
    assert!(matches!(&report.done[0], Action::Save { path, .. } if path == "c"));
    assert_eq!(report.notices.iter().filter(|n| matches!(n, Notice::Cycle)).count(), 1);
    Ok(())
}

#[test]
fn failure_of_the_environment_keeps_what_was_done_before() {
    let mut lisi = Lisi::from_env(Cache::new());
    let result = lisi.weave_document(tree(vec![
        listing(Some("first"), &["source", "c", "save"], &[("path", "first")], "one", 0),
        listing(Some("second"), &["source", "sh", "eval"], &[], "<<first>>", 30),
    ]));
    assert_eq!(result.err(), Some(Error::Asciidoctrine(AsciidoctrineError::Childprocess)));
    let mut files = lisi.into_cache().unwrap();
    assert_eq!(files.remove("first").unwrap(), "one\n");
    assert!(files.is_empty());
}

#[test]
fn performing_actions_records_them() -> Result<(), Error> {
    let mut lisi = Lisi::from_env(Cache::new());
    let key = "k".to_string();
    let acts = vec![
        Action::Save { path: "x".to_string(), content: "1\n".to_string() },
        Action::Pipe { content: "lisi.store(\"made\", \"text\");".to_string() },
    ];
    let mut done = Vec::new();
    let mut notices = Vec::new();
    let db = lisi.perform(&key, acts, SnippetDB::new(), &mut done, &mut notices)?;
    assert_eq!(done.len(), 2);
    assert!(notices.is_empty());
    assert_eq!(db.get("made").unwrap().content, "text");
    let mut files = lisi.into_cache().unwrap();
    assert_eq!(files.remove("x").unwrap(), "1\n");
    Ok(())
}

#[test]
fn file_with_the_same_content_needs_no_write() {
    assert!(!needs_write(Some("a\n"), "a\n"));
    assert!(needs_write(Some("a"), "a\n"));
    assert!(needs_write(Some(""), "a"));
    assert!(needs_write(None, "a\n"));
    assert!(needs_write(None, ""));
    assert!(!needs_write(Some(""), ""));
}

#[test]
fn script_after_a_file_leaves_the_file_written() -> Result<(), Error> {
    let mut lisi = Lisi::from_env(Cache::new());
    let (_, report) = lisi.weave_document(tree(vec![
        listing(Some("out"), &["source", "c", "save"], &[("path", "out.c")], "<<made>>", 0),
        listing(Some("made"), &["source", "rhai", "pipe"], &[], "lisi.store(\"made\", \"text\");", 40),
    ]))?;
    assert_eq!(report.order, vec!["made".to_string(), "out".to_string()]);
    assert_eq!(report.done.len(), 2);
    assert!(matches!(&report.done[0], Action::Pipe { .. }));
    assert!(matches!(&report.done[1], Action::Save { path, content }
        if path == "out.c" && content == "text\n"));
    let mut files = lisi.into_cache().unwrap();
    assert_eq!(files.remove("out.c").unwrap(), "text\n");
    assert!(files.is_empty());
    Ok(())
}
