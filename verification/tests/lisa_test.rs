use lisi::ast::{Attribute, AttributeValue, BlockType, Element, ElementSpan, AST};
use lisi::lisi::{Error, Extension, Lisi};
use lisi::util::{Cache, Files};

fn span(element: Element, content: &str, start: usize) -> ElementSpan {
    ElementSpan {
        source: None,
        content: content.to_string(),
        start,
        end: start + content.len(),
        start_line: 0,
        start_col: 0,
        end_line: 0,
        end_col: 0,
        element,
        children: Vec::new(),
        positional_attributes: Vec::new(),
        attributes: Vec::new(),
    }
}

fn named(key: &str, value: &str) -> Attribute {
    Attribute { key: key.to_string(), value: AttributeValue::Ref(value.to_string()) }
}

/// A listing block as a reader hands it on: `[[anchor]]`, `[positional, ...]`,
/// `.title` and the body between the fences.
fn block(anchor: Option<&str>, positional: &[&str], title: Option<&str>, body: &str, start: usize) -> ElementSpan {
    let mut element = span(Element::TypedBlock { kind: BlockType::Listing }, body, start);
    if let Some(anchor) = anchor {
        element.attributes.push(named("anchor", anchor));
    }
    for word in positional {
        element.positional_attributes.push(AttributeValue::Ref(word.to_string()));
    }
    if let Some(title) = title {
        element.attributes.push(named("title", title));
    }
    element.attributes.push(named("content", body));
    element
}

/// A paragraph that holds one anchored inline span.
fn inline(anchor: &str, text: &str, start: usize) -> ElementSpan {
    let mut styled = span(Element::Styled, text, start);
    styled.attributes.push(named("style", "monospaced"));
    styled.attributes.push(Attribute {
        key: "content".to_string(),
        value: AttributeValue::String(text.to_string()),
    });
    styled.attributes.push(named("anchor", anchor));
    let mut paragraph = span(Element::Paragraph, text, start);
    paragraph.children.push(styled);
    paragraph
}

fn document(elements: Vec<ElementSpan>) -> AST {
    AST { content: String::new(), elements, attributes: Vec::new() }
}

fn weave(ast: AST) -> Result<Files, Error> {
    let mut lisa = Lisi::from_env(Cache::new());
    let _ast = lisa.transform(ast)?;
    Ok(lisa.into_cache().unwrap())
}

#[test]
fn indented_snippets_with_params() -> Result<(), Error> {
    let ast = document(vec![
        block(Some("inner_snippet"), &["source", "yaml"], None, "this is my snippet <<text>>", 10),
        block(
            None,
            &["source", "yaml", "save"],
            Some("sample.yaml"),
            "category:\n    <<inner_snippet|\n        text:=\"my param text\">>\n\ncategory2:\n    <<inner_snippet|\n        text:=<<referenced_param>> >>",
            100,
        ),
        block(Some("referenced_param"), &["source", "yaml"], None, "referenced param text", 300),
    ]);
    let mut outputs = weave(ast)?;

    assert_eq!(
        outputs.remove("sample.yaml").unwrap(),
        r#"category:
    this is my snippet my param text

category2:
    this is my snippet referenced param text
"#
    );

    assert!(outputs.is_empty());

    Ok(())
}

#[test]
fn deep_nested_snippets_with_params() -> Result<(), Error> {
    let ast = document(vec![
        block(Some("snippet_with_param"), &["source", "python"], None, "print(\"<<echo_text>>\")", 10),
        block(
            Some("calling_snippet_one"),
            &["source", "python"],
            None,
            "def my_function():\n  <<snippet_with_param>>\n  # <<echo_text>>",
            100,
        ),
        block(
            Some("calling_snippet_two"),
            &["source", "python"],
            None,
            "def my_other_function():\n  <<snippet_with_param| echo_text := <<echo_text>> >>\n  # <<echo_text>>",
            200,
        ),
        block(
            None,
            &["source", "python", "save"],
            Some("nested.py"),
            "<<calling_snippet_one|\n    echo_text:=\"touch only outer\">>\n\n<<calling_snippet_two|\n    echo_text:=\"touch inner snippet too\">>",
            300,
        ),
        inline("echo_text", "untouched", 400),
    ]);
    let mut outputs = weave(ast)?;

    assert_eq!(
        outputs.remove("nested.py").unwrap(),
        r#"def my_function():
  print("untouched")
  # touch only outer

def my_other_function():
  print("touch inner snippet too")
  # touch inner snippet too
"#
    );

    assert!(outputs.is_empty());

    Ok(())
}

#[test]
fn use_snippets() -> Result<(), Error> {
    let ast = document(vec![
        block(Some("sample1_required_modules"), &["source", "lua"], None, "require \"testmodule\"", 10),
        block(
            None,
            &["source", "lua", "save"],
            Some("sample1.lua"),
            "<<sample1_required_modules>>\n\nprint(testmodule.version)",
            100,
        ),
    ]);
    let mut outputs = weave(ast)?;

    assert_eq!(
        outputs.remove("sample1.lua").unwrap(),
        r#"require "testmodule"

print(testmodule.version)
"#
    );

    assert!(outputs.is_empty());

    Ok(())
}

#[test]
fn handle_snippet_order() -> Result<(), Error> {
    let ast = document(vec![
        block(
            None,
            &["source", "lua", "save"],
            Some("sample2.lua"),
            "<<sample2_required_modules>>\n\nprint(testmodule.version)",
            10,
        ),
        block(Some("sample2_required_modules"), &["source", "lua"], None, "require \"testmodule\"", 100),
    ]);
    let mut outputs = weave(ast)?;

    assert_eq!(
        outputs.remove("sample2.lua").unwrap(),
        r#"require "testmodule"

print(testmodule.version)
"#
    );

    assert!(outputs.is_empty());

    Ok(())
}

#[test]
fn use_snippet_multiple_times() -> Result<(), Error> {
    let ast = document(vec![
        block(Some("sample3_multiple"), &["source", "lua"], None, "require \"testmodule\"", 10),
        block(
            None,
            &["source", "lua", "save"],
            Some("sample3-1.lua"),
            "<<sample3_multiple>>\n\nprint(testmodule.version)\n\n<<sample3_multiple>>",
            100,
        ),
        block(
            None,
            &["source", "lua", "save"],
            Some("sample3-2.lua"),
            "<<sample3_multiple>>\n\nprint(testmodule.version .. \"my other snippet\")",
            200,
        ),
    ]);
    let mut outputs = weave(ast)?;

    assert_eq!(
        outputs.remove("sample3-1.lua").unwrap(),
        r#"require "testmodule"

print(testmodule.version)

require "testmodule"
"#
    );
    assert_eq!(
        outputs.remove("sample3-2.lua").unwrap(),
        r#"require "testmodule"

print(testmodule.version .. "my other snippet")
"#
    );

    assert!(outputs.is_empty());

    Ok(())
}

#[test]
fn append_snippets() -> Result<(), Error> {
    let ast = document(vec![
        block(
            None,
            &["source", "lua", "save"],
            Some("sample4.lua"),
            "<<some_process>>\n\nprint(result_of_someprocess)",
            10,
        ),
        block(Some("some_process"), &["source", "lua"], None, "variable = 42\nvariable = variable + 42", 100),
        block(
            Some("some_process"),
            &["source", "lua"],
            None,
            "result_of_someprocess = variable * variable",
            200,
        ),
    ]);
    let mut outputs = weave(ast)?;

    assert_eq!(
        outputs.remove("sample4.lua").unwrap(),
        r#"variable = 42
variable = variable + 42
result_of_someprocess = variable * variable

print(result_of_someprocess)
"#
    );

    assert!(outputs.is_empty());

    Ok(())
}

const SAMPLE5: &str = "<<mystruct>>\n\nimpl MyStruct {\n  pub fn new {\n    MyStruct {\n      <<init_fields|join=\",\\n\">>\n    }\n  }\n}";

const SAMPLE5_OUT: &str = r#"pub struct MyStruct { x: String, y: u8 }

impl MyStruct {
  pub fn new {
    MyStruct {
      x: "this is the x text".to_string(),
      y: 42
    }
  }
}
"#;

#[test]
fn append_snippets_with_customized_join() -> Result<(), Error> {
    let ast = document(vec![
        block(
            Some("mystruct"),
            &["source", "rust"],
            None,
            "pub struct MyStruct { <<mystruct_fields|join=\", \">> }",
            10,
        ),
        block(None, &["source", "rust", "save"], Some("sample5.rs"), SAMPLE5, 100),
        block(Some("mystruct_fields"), &["source", "rust"], None, "x: String", 200),
        block(Some("init_fields"), &["source", "rust"], None, "x: \"this is the x text\".to_string()", 300),
        block(Some("mystruct_fields"), &["source", "rust"], None, "y: u8", 400),
        block(Some("init_fields"), &["source", "rust"], None, "y: 42", 500),
    ]);
    let mut outputs = weave(ast)?;

    assert_eq!(outputs.remove("sample5.rs").unwrap(), SAMPLE5_OUT);

    assert!(outputs.is_empty());

    Ok(())
}

#[test]
fn use_inline_snippets() -> Result<(), Error> {
    let ast = document(vec![
        block(
            Some("mystruct"),
            &["source", "rust"],
            None,
            "pub struct MyStruct { <<mystruct_fields|join=\", \">> }",
            10,
        ),
        block(None, &["source", "rust", "save"], Some("sample5.rs"), SAMPLE5, 100),
        inline("mystruct_fields", "x: String", 200),
        block(Some("init_fields"), &["source", "rust"], None, "x: \"this is the x text\".to_string()", 300),
        inline("mystruct_fields", "y: u8", 400),
        block(Some("init_fields"), &["source", "rust"], None, "y: 42", 500),
    ]);
    let mut outputs = weave(ast)?;

    assert_eq!(outputs.remove("sample5.rs").unwrap(), SAMPLE5_OUT);

    assert!(outputs.is_empty());

    Ok(())
}

#[test]
fn indented_snippets() -> Result<(), Error> {
    let ast = document(vec![
        block(
            Some("print_pattern_once"),
            &["source", "c"],
            None,
            "printf(\"/\");\nprintf(\"***\");\nprintf(\"/\");",
            10,
        ),
        block(
            Some("print_pattern"),
            &["source", "c"],
            None,
            "for (i=0;i<5;i++) {\n  <<print_pattern_once>>\n}\nprint(\"\\n\");",
            100,
        ),
        block(
            None,
            &["source", "c", "save"],
            Some("sample7.c"),
            "<<print_pattern>>\nprint(\"My emphasized text!!\\n\"\n<<print_pattern>>",
            200,
        ),
    ]);
    let mut outputs = weave(ast)?;

    assert_eq!(
        outputs.remove("sample7.c").unwrap(),
        r#"for (i=0;i<5;i++) {
  printf("/");
  printf("***");
  printf("/");
}
print("\n");
print("My emphasized text!!\n"
for (i=0;i<5;i++) {
  printf("/");
  printf("***");
  printf("/");
}
print("\n");
"#
    );

    assert!(outputs.is_empty());

    Ok(())
}

#[test]
fn snippets_with_params() -> Result<(), Error> {
    let ast = document(vec![
        block(
            Some("test_condition"),
            &["source", "sh"],
            None,
            "if [[ <<condition>> ]] then\n  echo \"<<err_message| condition:=<<condition>> >>\"\n  exit <<exit_code>>\nfi",
            10,
        ),
        inline("err_message", "the condition <<condition>> was not met", 100),
        inline("exit_code", "1", 150),
        block(
            Some("checks"),
            &["source", "sh"],
            None,
            "<<test_condition| condition:=\"-f file_xy.txt\">>",
            200,
        ),
        block(
            Some("checks"),
            &["source", "sh"],
            None,
            "<<test_condition|condition:=\"-f file_yz.txt\",\n                 err_message:=\"my custom err message yz\">>",
            300,
        ),
        inline(
            "custom_err_message",
            "return from nested param snippet with code <<custom_exit_code>>",
            400,
        ),
        inline("custom_exit_code", "42", 450),
        block(
            Some("checks"),
            &["source", "sh"],
            None,
            "<<test_condition|condition:=\"-f nested_params.txt\",\n                 err_message:=<<custom_err_message>>,\n                 exit_code:=<<custom_exit_code>>>>",
            500,
        ),
        block(
            None,
            &["source", "sh", "save"],
            Some("sample8.sh"),
            "<<checks>>\n\necho \"you passed all checks\"",
            600,
        ),
    ]);
    let mut outputs = weave(ast)?;

    assert_eq!(
        outputs.remove("sample8.sh").unwrap(),
        r#"if [[ -f file_xy.txt ]] then
  echo "the condition -f file_xy.txt was not met"
  exit 1
fi
if [[ -f file_yz.txt ]] then
  echo "my custom err message yz"
  exit 1
fi
if [[ -f nested_params.txt ]] then
  echo "return from nested param snippet with code 42"
  exit 42
fi

echo "you passed all checks"
"#
    );

    assert!(outputs.is_empty());

    Ok(())
}

#[test]
fn nested_parameters() -> Result<(), Error> {
    let ast = document(vec![
        block(Some("p"), &["source", "python"], None, "print(\"<<echo>>\")", 10),
        block(Some("outer"), &["source", "python"], None, "def f():\n  <<p>>\n  # <<echo>>", 100),
        block(
            None,
            &["source", "python", "save"],
            Some("nested.py"),
            "<<outer|echo:=\"A\">>\n\n<<outer|echo:=<<p|echo:=\"B\">>>>",
            200,
        ),
    ]);
    let mut outputs = weave(ast)?;
    assert_eq!(
        outputs.remove("nested.py").unwrap(),
        "def f():\n  print(\"A\")\n  # A\n\ndef f():\n  print(\"print(\"B\")\")\n  # print(\"B\")\n"
    );
    assert!(outputs.is_empty());
    Ok(())
}
