use lisi::reader::ascii_art::Token::{Arrow, ConnectionSign, HLine, Text, VLine};
use lisi::reader::ascii_art::{parse_elements, parse_tokens, Element, PartialElement, Token};

#[test]
fn empty_string_to_tokens() {
  let tokens = parse_tokens("");
  assert_eq!(tokens, vec![]);

  let tokens = parse_tokens(
    r"

        ",
  );
  assert_eq!(tokens, vec![]);
}

#[test]
fn single_box_to_tokens() {
  let tokens = parse_tokens(SINGLE_BOX);
  assert_eq!(
    tokens,
    vec![
      ConnectionSign { line: 2, column: 4 },
      HLine {
        line: 2,
        column_start: 5,
        column_end: 9
      },
      ConnectionSign {
        line: 2,
        column: 10
      },
      VLine {
        column: 4,
        line_start: 3,
        line_end: 3
      },
      Text {
        line: 3,
        column_start: 6,
        column_end: 8
      },
      VLine {
        column: 10,
        line_start: 3,
        line_end: 3
      },
      ConnectionSign { line: 4, column: 4 },
      HLine {
        line: 4,
        column_start: 5,
        column_end: 9
      },
      ConnectionSign {
        line: 4,
        column: 10
      },
    ]
  );
}

#[test]
fn single_multiline_box_to_tokens() {
  let tokens = parse_tokens(BOX_WITH_MULTILINE_TEXT);
  assert_eq!(
    tokens,
    vec![
      ConnectionSign { line: 1, column: 4 },
      HLine {
        line: 1,
        column_start: 5,
        column_end: 19
      },
      ConnectionSign {
        line: 1,
        column: 20
      },
      VLine {
        column: 4,
        line_start: 2,
        line_end: 4
      },
      Text {
        line: 2,
        column_start: 6,
        column_end: 14
      },
      VLine {
        column: 20,
        line_start: 2,
        line_end: 4
      },
      Text {
        line: 3,
        column_start: 6,
        column_end: 19
      },
      Text {
        line: 4,
        column_start: 6,
        column_end: 11
      },
      ConnectionSign { line: 5, column: 4 },
      HLine {
        line: 5,
        column_start: 5,
        column_end: 19
      },
      ConnectionSign {
        line: 5,
        column: 20
      },
    ]
  );
}

#[test]
fn multiple_boxes_in_the_same_row_to_tokens() {
  let tokens = parse_tokens(TWO_BOXES_IN_THE_SAME_ROWS);
  assert_eq!(
    tokens,
    vec![
      ConnectionSign { line: 1, column: 4 },
      HLine {
        line: 1,
        column_start: 5,
        column_end: 9
      },
      ConnectionSign {
        line: 1,
        column: 10
      },
      ConnectionSign {
        line: 1,
        column: 19
      },
      HLine {
        line: 1,
        column_start: 20,
        column_end: 24
      },
      ConnectionSign {
        line: 1,
        column: 25
      },
      VLine {
        column: 4,
        line_start: 2,
        line_end: 2
      },
      Text {
        line: 2,
        column_start: 6,
        column_end: 8
      },
      VLine {
        column: 10,
        line_start: 2,
        line_end: 2
      },
      VLine {
        column: 19,
        line_start: 2,
        line_end: 2
      },
      Text {
        line: 2,
        column_start: 21,
        column_end: 23
      },
      VLine {
        column: 25,
        line_start: 2,
        line_end: 2
      },
      ConnectionSign { line: 3, column: 4 },
      HLine {
        line: 3,
        column_start: 5,
        column_end: 9
      },
      ConnectionSign {
        line: 3,
        column: 10
      },
      ConnectionSign {
        line: 3,
        column: 19
      },
      HLine {
        line: 3,
        column_start: 20,
        column_end: 24
      },
      ConnectionSign {
        line: 3,
        column: 25
      },
    ]
  );
}

#[test]
fn multiple_boxes_in_the_same_column_to_tokens() {
  let tokens = parse_tokens(TWO_BOXES_IN_THE_SAME_COLUMNS);
  assert_eq!(
    tokens,
    vec![
      ConnectionSign { line: 1, column: 4 },
      HLine {
        line: 1,
        column_start: 5,
        column_end: 9
      },
      ConnectionSign {
        line: 1,
        column: 10
      },
      VLine {
        column: 4,
        line_start: 2,
        line_end: 2
      },
      Text {
        line: 2,
        column_start: 6,
        column_end: 8
      },
      VLine {
        column: 10,
        line_start: 2,
        line_end: 2
      },
      ConnectionSign { line: 3, column: 4 },
      HLine {
        line: 3,
        column_start: 5,
        column_end: 9
      },
      ConnectionSign {
        line: 3,
        column: 10
      },
      ConnectionSign { line: 5, column: 4 },
      HLine {
        line: 5,
        column_start: 5,
        column_end: 9
      },
      ConnectionSign {
        line: 5,
        column: 10
      },
      VLine {
        column: 4,
        line_start: 6,
        line_end: 6
      },
      Text {
        line: 6,
        column_start: 6,
        column_end: 8
      },
      VLine {
        column: 10,
        line_start: 6,
        line_end: 6
      },
      ConnectionSign { line: 7, column: 4 },
      HLine {
        line: 7,
        column_start: 5,
        column_end: 9
      },
      ConnectionSign {
        line: 7,
        column: 10
      },
    ]
  );
}

#[test]
fn two_connected_boxes_to_tokens() {
  let tokens = parse_tokens(TWO_CONNECTED_BOXES);
  assert_eq!(
    tokens,
    vec![
      ConnectionSign { line: 1, column: 4 },
      HLine {
        line: 1,
        column_start: 5,
        column_end: 9
      },
      ConnectionSign {
        line: 1,
        column: 10
      },
      VLine {
        column: 4,
        line_start: 2,
        line_end: 2
      },
      Text {
        line: 2,
        column_start: 6,
        column_end: 8
      },
      VLine {
        column: 10,
        line_start: 2,
        line_end: 2
      },
      HLine {
        line: 2,
        column_start: 11,
        column_end: 12
      },
      ConnectionSign {
        line: 2,
        column: 13
      },
      ConnectionSign { line: 3, column: 4 },
      HLine {
        line: 3,
        column_start: 5,
        column_end: 9
      },
      ConnectionSign {
        line: 3,
        column: 10
      },
      VLine {
        column: 13,
        line_start: 3,
        line_end: 5
      },
      ConnectionSign {
        line: 5,
        column: 17
      },
      HLine {
        line: 5,
        column_start: 18,
        column_end: 22
      },
      ConnectionSign {
        line: 5,
        column: 23
      },
      ConnectionSign {
        line: 6,
        column: 13
      },
      HLine {
        line: 6,
        column_start: 14,
        column_end: 15
      },
      Arrow {
        line: 6,
        column: 16,
      },
      VLine {
        column: 17,
        line_start: 6,
        line_end: 6
      },
      Text {
        line: 6,
        column_start: 19,
        column_end: 21
      },
      VLine {
        column: 23,
        line_start: 6,
        line_end: 6
      },
      ConnectionSign {
        line: 7,
        column: 17
      },
      HLine {
        line: 7,
        column_start: 18,
        column_end: 22
      },
      ConnectionSign {
        line: 7,
        column: 23
      },
    ]
  );
}

// parse elements

#[test]
fn empty_string_to_elements() {
  let elements = parse_elements("");
  assert_eq!(elements, vec![]);

  let elements = parse_elements(
    r"

        ",
  );
  assert_eq!(elements, vec![]);
}

#[test]
fn simple_text_to_elements() {
  let elements = parse_elements("Some simple Text");
  assert_eq!(
    elements,
    vec![Element::Text {
      id: 0,
      tokens: vec![Text {
        line: 0,
        column_start: 0,
        column_end: 15,
      }]
    }]
  );

  let elements = parse_elements(
    r"
        Some Text on another line

        ",
  );
  assert_eq!(
    elements,
    vec![Element::Text {
      id: 0,
      tokens: vec![Text {
        line: 1,
        column_start: 8,
        column_end: 32,
      }]
    }]
  );
}

#[test]
fn check_if_box_can_be_continued() {
  let mut tokens = parse_tokens(SINGLE_BOX);
  tokens.reverse();

  let next_token = tokens.pop().unwrap();
  let mut started_block = PartialElement::new(next_token);
  // HLine
  let next_token = tokens.pop().unwrap();
  assert_eq!(
    started_block.can_continue_block(&next_token, SINGLE_BOX),
    true
  );
  started_block.add_token(next_token);

  // ConnectionSign
  let next_token = tokens.pop().unwrap();
  assert_eq!(
    started_block.can_continue_block(&next_token, SINGLE_BOX),
    true
  );
  started_block.add_token(next_token);
  assert_eq!(started_block.clock_cycle_end.line, 2);
  assert_eq!(started_block.clock_cycle_end.column, 10);
  assert_eq!(started_block.counter_clock_cycle_end.line, 2);
  assert_eq!(started_block.counter_clock_cycle_end.column, 4);

  // VLine
  let next_token = tokens.pop().unwrap();
  assert_eq!(
    started_block.can_continue_block(&next_token, SINGLE_BOX),
    true
  );
  started_block.add_token(next_token);
  assert_eq!(started_block.clock_cycle_end.line, 2);
  assert_eq!(started_block.clock_cycle_end.column, 10);
  assert_eq!(started_block.counter_clock_cycle_end.line, 3);
  assert_eq!(started_block.counter_clock_cycle_end.column, 4);

  // Text
  let next_token = tokens.pop().unwrap();
  assert_eq!(
    started_block.can_continue_block(&next_token, SINGLE_BOX),
    false
  );

  // VLine
  let next_token = tokens.pop().unwrap();
  assert_eq!(
    started_block.can_continue_block(&next_token, SINGLE_BOX),
    true
  );
  started_block.add_token(next_token);
  assert_eq!(started_block.clock_cycle_end.line, 3);
  assert_eq!(started_block.clock_cycle_end.column, 10);
  assert_eq!(started_block.counter_clock_cycle_end.line, 3);
  assert_eq!(started_block.counter_clock_cycle_end.column, 4);

  // ConnectionSign
  let next_token = tokens.pop().unwrap();
  assert_eq!(
    started_block.can_continue_block(&next_token, SINGLE_BOX),
    true
  );
  started_block.add_token(next_token);
  assert_eq!(started_block.clock_cycle_end.line, 3);
  assert_eq!(started_block.clock_cycle_end.column, 10);
  assert_eq!(started_block.counter_clock_cycle_end.line, 4);
  assert_eq!(started_block.counter_clock_cycle_end.column, 4);

  // HLine
  let next_token = tokens.pop().unwrap();
  assert_eq!(
    started_block.can_continue_block(&next_token, SINGLE_BOX),
    true
  );
  started_block.add_token(next_token);
  assert_eq!(started_block.clock_cycle_end.line, 3);
  assert_eq!(started_block.clock_cycle_end.column, 10);
  assert_eq!(started_block.counter_clock_cycle_end.line, 4);
  assert_eq!(started_block.counter_clock_cycle_end.column, 9);

  // ConnectionSign
  let next_token = tokens.pop().unwrap();
  assert_eq!(
    started_block.can_continue_block(&next_token, SINGLE_BOX),
    true
  );
  started_block.add_token(next_token);
  assert_eq!(started_block.clock_cycle_end.line, 4);
  assert_eq!(started_block.clock_cycle_end.column, 10);
  assert_eq!(started_block.counter_clock_cycle_end.line, 4);
  assert_eq!(started_block.counter_clock_cycle_end.column, 9);
}

const SINGLE_BOX: &str = r"

    +-----+
    | Box |
    +-----+
  ";

const BOX_WITH_MULTILINE_TEXT: &str = r"
    +---------------+
    | This text     |
    | spans multiple|
    | lines.        |
    +---------------+
  ";

const TWO_BOXES_IN_THE_SAME_ROWS: &str = r"
    +-----+        +-----+
    | Box |        | Box |
    +-----+        +-----+
  ";

const TWO_BOXES_IN_THE_SAME_COLUMNS: &str = r"
    +-----+
    | Box |
    +-----+

    +-----+
    | Box |
    +-----+
  ";

const TWO_CONNECTED_BOXES: &str = r"
    +-----+
    | Box |--+
    +-----+  |
             |
             |   +-----+
             +-->| Box |
                 +-----+
  ";

#[test]
fn empty_input() {
    let elements = parse_elements("");
    assert_eq!(elements, vec![]);
}

#[test]
fn whitespace_only() {
    let elements = parse_elements("   \n  \n   ");
    assert_eq!(elements, vec![]);
}

#[test]
fn single_line_text() {
    let elements = parse_elements("Hello World");
    assert_eq!(
        elements,
        vec![Element::Text { id: 0, tokens: vec![Text { line: 0, column_start: 0, column_end: 10 }] }]
    );
}

/// Checks that the element is a block with this border, and that it holds
/// text elements made of these tokens.
fn assert_block(actual: &Element, expected_texts: Vec<Vec<Token>>, expected_border: Vec<Token>) {
    match actual {
        Element::Block { id: _, inner_elements, border } => {
            assert_eq!(border.as_slice(), expected_border.as_slice(), "border mismatch");
            assert_eq!(inner_elements.len(), expected_texts.len(), "inner_elements length mismatch");
            for (i, (actual_elem, expected_tokens)) in
                inner_elements.iter().zip(expected_texts.iter()).enumerate()
            {
                match actual_elem {
                    Element::Text { id: _, tokens } => {
                        assert_eq!(tokens, expected_tokens, "inner_elements[{}] tokens mismatch", i);
                    }
                    other => panic!("Expected Element::Text at index {}, got {:?}", i, other),
                }
            }
        }
        other => panic!("Expected Element::Block, got {:?}", other),
    }
}

#[test]
fn simple_box() {
  let input = r"
    +-----+
    | Box |
    +-----+
  ";
  let elements = parse_elements(input);

  assert_eq!(elements.len(), 1);
  match &elements[0] {
    Element::Block {
      id,
      inner_elements,
      border,
    } => {
      assert_eq!(*id, 0);
      assert_eq!(inner_elements.len(), 1);
      assert_eq!(border.len(), 8);

      // Check that the inner element is text
      match &inner_elements[0] {
        Element::Text { id, tokens } => {
          assert_eq!(*id, 1);
          assert_eq!(tokens.len(), 1);
          match tokens[0] {
            Token::Text {
              line,
              column_start,
              column_end,
            } => {
              assert_eq!(line, 2);
              assert_eq!(column_start, 6);
              assert_eq!(column_end, 8);
            }
            _ => panic!("Expected Text token"),
          }
        }
        _ => panic!("Expected Text element inside block"),
      }
    }
    _ => panic!("Expected Block element"),
  }
}

#[test]
fn box_with_multiline_text() {
  let input = r"
    +---------------+
    | This text     |
    | spans multiple|
    | lines.        |
    +---------------+
  ";
  let elements = parse_elements(input);

  assert_eq!(elements.len(), 1);
  match &elements[0] {
    Element::Block {
      id: _,
      inner_elements,
      border: _,
    } => {
      // Should have 3 text elements inside
      assert_eq!(inner_elements.len(), 3);
      assert!(matches!(inner_elements[0], Element::Text { .. }));
      assert!(matches!(inner_elements[1], Element::Text { .. }));
      assert!(matches!(inner_elements[2], Element::Text { .. }));
    }
    _ => panic!("Expected Block element"),
  }
}


#[test]
fn two_boxes_side_by_side() {
  let input = r"
    +-----+        +-----+
    | Box |        | Box |
    +-----+        +-----+
  ";
  let elements = parse_elements(input);

  assert_eq!(elements.len(), 2);

  // First box
  assert_block(
    &elements[0],
    vec![vec![Text { line: 2, column_start: 6, column_end: 8 }]],
    vec![
      ConnectionSign { line: 1, column: 4 },
      HLine { line: 1, column_start: 5, column_end: 9 },
      ConnectionSign { line: 1, column: 10 },
      VLine { column: 4, line_start: 2, line_end: 2 },
      VLine { column: 10, line_start: 2, line_end: 2 },
      ConnectionSign { line: 3, column: 4 },
      HLine { line: 3, column_start: 5, column_end: 9 },
      ConnectionSign { line: 3, column: 10 },
    ],
  );

  // Second box
  assert_block(
    &elements[1],
    vec![vec![Text { line: 2, column_start: 21, column_end: 23 }]],
    vec![
      ConnectionSign { line: 1, column: 19 },
      HLine { line: 1, column_start: 20, column_end: 24 },
      ConnectionSign { line: 1, column: 25 },
      VLine { column: 19, line_start: 2, line_end: 2 },
      VLine { column: 25, line_start: 2, line_end: 2 },
      ConnectionSign { line: 3, column: 19 },
      HLine { line: 3, column_start: 20, column_end: 24 },
      ConnectionSign { line: 3, column: 25 },
    ],
  );
}

#[test]
fn two_boxes_stacked() {
  let input = r"
    +-----+
    | Box |
    +-----+

    +-----+
    | Box |
    +-----+
  ";
  let elements = parse_elements(input);

  assert_eq!(elements.len(), 2);
  assert!(matches!(elements[0], Element::Block { .. }));
  assert!(matches!(elements[1], Element::Block { .. }));
}

#[test]
fn box_with_empty_content() {
  let input = r"
    +-----+
    |     |
    +-----+
  ";
  let elements = parse_elements(input);

  assert_eq!(elements.len(), 1);
  match &elements[0] {
    Element::Block {
      id: _,
      inner_elements,
      border: _,
    } => {
      // Empty box should have no inner elements
      assert_eq!(inner_elements.len(), 0);
    }
    _ => panic!("Expected Block element"),
  }
}

#[test]
fn text_outside_box() {
  let input = r"
Some text before
    +-----+
    | Box |
    +-----+
Some text after
  ";
  let elements = parse_elements(input);

  // Should have text and block elements
  assert!(elements.len() >= 2);

  let mut has_text = false;
  let mut has_block = false;

  for element in elements {
    match element {
      Element::Text { .. } => has_text = true,
      Element::Block { .. } => has_block = true,
      _ => {}
    }
  }

  assert!(has_text, "Should have at least one text element");
  assert!(has_block, "Should have at least one block element");
}

#[test]
fn wide_box() {
  let input = r"
    +--------------------+
    | Wide Box           |
    +--------------------+
  ";
  let elements = parse_elements(input);

  assert_eq!(elements.len(), 1);
  match &elements[0] {
    Element::Block {
      id: _,
      inner_elements,
      border,
    } => {
      assert_eq!(inner_elements.len(), 1);
      assert!(border.len() > 0);
    }
    _ => panic!("Expected Block element"),
  }
}

#[test]
fn tall_box() {
  let input = r"
    +------+
    | Line1|
    | Line2|
    | Line3|
    | Line4|
    | Line5|
    +------+
  ";
  let elements = parse_elements(input);

  assert_eq!(elements.len(), 1);
  match &elements[0] {
    Element::Block {
      id: _,
      inner_elements,
      border: _,
    } => {
      // Should have 5 text elements
      assert_eq!(inner_elements.len(), 5);
    }
    _ => panic!("Expected Block element"),
  }
}

#[test]
fn three_boxes_in_row() {
  let input = r"
    +---+  +---+  +---+
    | A |  | B |  | C |
    +---+  +---+  +---+
  ";
  let elements = parse_elements(input);

  assert_eq!(
    elements,
    vec![
      Element::Block {
        id: 0,
        inner_elements: vec![Element::Text {
          id: 3,
          tokens: vec![Token::Text {
            line: 2,
            column_start: 6,
            column_end: 6,
          },],
        },],
        border: vec![
          Token::ConnectionSign { line: 1, column: 4 },
          Token::HLine {
            line: 1,
            column_start: 5,
            column_end: 7,
          },
          Token::ConnectionSign { line: 1, column: 8 },
          Token::VLine {
            column: 4,
            line_start: 2,
            line_end: 2,
          },
          Token::VLine {
            column: 8,
            line_start: 2,
            line_end: 2,
          },
          Token::ConnectionSign { line: 3, column: 4 },
          Token::HLine {
            line: 3,
            column_start: 5,
            column_end: 7,
          },
          Token::ConnectionSign { line: 3, column: 8 },
        ],
      },
      Element::Block {
        id: 1,
        inner_elements: vec![Element::Text {
          id: 4,
          tokens: vec![Token::Text {
            line: 2,
            column_start: 13,
            column_end: 13,
          },],
        },],
        border: vec![
          Token::ConnectionSign {
            line: 1,
            column: 11
          },
          Token::HLine {
            line: 1,
            column_start: 12,
            column_end: 14,
          },
          Token::ConnectionSign {
            line: 1,
            column: 15
          },
          Token::VLine {
            column: 11,
            line_start: 2,
            line_end: 2,
          },
          Token::VLine {
            column: 15,
            line_start: 2,
            line_end: 2,
          },
          Token::ConnectionSign {
            line: 3,
            column: 11
          },
          Token::HLine {
            line: 3,
            column_start: 12,
            column_end: 14,
          },
          Token::ConnectionSign {
            line: 3,
            column: 15
          },
        ],
      },
      Element::Block {
        id: 2,
        inner_elements: vec![Element::Text {
          id: 5,
          tokens: vec![Token::Text {
            line: 2,
            column_start: 20,
            column_end: 20,
          },],
        },],
        border: vec![
          Token::ConnectionSign {
            line: 1,
            column: 18
          },
          Token::HLine {
            line: 1,
            column_start: 19,
            column_end: 21,
          },
          Token::ConnectionSign {
            line: 1,
            column: 22
          },
          Token::VLine {
            column: 18,
            line_start: 2,
            line_end: 2,
          },
          Token::VLine {
            column: 22,
            line_start: 2,
            line_end: 2,
          },
          Token::ConnectionSign {
            line: 3,
            column: 18
          },
          Token::HLine {
            line: 3,
            column_start: 19,
            column_end: 21,
          },
          Token::ConnectionSign {
            line: 3,
            column: 22
          },
        ],
      },
    ]
  );
}

#[test]
fn minimal_box() {
  let input = r"
    +-+
    | |
    +-+
  ";
  let elements = parse_elements(input);

  assert_eq!(elements.len(), 1);
  assert!(matches!(elements[0], Element::Block { .. }));
}

#[test]
fn box_with_single_character_text() {
  let input = r"
    +---+
    | X |
    +---+
  ";
  let elements = parse_elements(input);

  assert_eq!(elements.len(), 1);
  match &elements[0] {
    Element::Block {
      id: _,
      inner_elements,
      border: _,
    } => {
      assert_eq!(inner_elements.len(), 1);
      match &inner_elements[0] {
        Element::Text { id: _, tokens } => {
          assert_eq!(tokens.len(), 1);
        }
        _ => panic!("Expected Text element"),
      }
    }
    _ => panic!("Expected Block element"),
  }
}
