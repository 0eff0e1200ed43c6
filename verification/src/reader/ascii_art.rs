//! A reader of diagrams that are drawn with characters: lines of `-` and
//! `|`, corners of `+`, arrow heads, and text.
//!
//! A drawing is read in steps. Each character but the blank becomes a
//! token at its line and column. Neighbouring pieces of a horizontal line
//! or of a text become one token, then pieces of a vertical line that
//! continue each other. The tokens are put in the order of their starts.
//! Corners and lines that draw a rectangle then become a block, with the
//! texts inside it, and each other text becomes an element.

use crate::diagram::AST;
use crate::text::{lines, rows, split_lines, to_chars};
use vstd::prelude::*;

verus! {

/// The reader of drawings.
pub struct AsciiArtReader {}

impl AsciiArtReader {
    pub fn new() -> (r: Self) {
        Self {}
    }

    /// The tree of a drawing: its text, so far without elements.
    pub fn parse(&self, input: &str) -> (ast: AST)
        ensures
            ast.content@ == input@,
            ast.elements@.len() == 0,
    {
        AST { content: String::from_str(input), elements: Vec::new() }
    }
}

/// What a drawing holds.
#[derive(Debug, PartialEq)]
pub enum Element {
    Block { id: usize, inner_elements: Vec<Element>, border: Vec<Token> },
    Connection {
        id: usize,
        from: usize,
        to: usize,
        /// What is attached to the connection, such as a text.
        inner_elements: Vec<Element>,
        tokens: Vec<Token>,
    },
    Text { id: usize, tokens: Vec<Token> },
    /// Tokens that could not be made sense of.
    Unknown { id: usize, tokens: Vec<Token> },
}

/// The first and the last place of a token.
#[derive(Debug, Clone, Copy)]
pub struct BoundingBox {
    pub start: Coordinate,
    pub end: Coordinate,
}

/// A place in a drawing; lines and columns count from 0.
#[derive(Debug, Clone, Copy)]
pub struct Coordinate {
    pub line: usize,
    pub column: usize,
}

/// A piece of a drawing.
#[derive(Debug, Clone, Copy, PartialEq)]
pub enum Token {
    HLine { line: usize, column_start: usize, column_end: usize },
    VLine { column: usize, line_start: usize, line_end: usize },
    Text { line: usize, column_start: usize, column_end: usize },
    ConnectionSign { line: usize, column: usize },
    Arrow { line: usize, column: usize },
}

impl Token {
    /// The first and the last place of the token.
    pub open spec fn bounds(self) -> BoundingBox {
        match self {
            Token::ConnectionSign { line, column } => BoundingBox {
                start: Coordinate { line, column },
                end: Coordinate { line, column },
            },
            Token::Arrow { line, column } => BoundingBox {
                start: Coordinate { line, column },
                end: Coordinate { line, column },
            },
            Token::HLine { line, column_start, column_end } => BoundingBox {
                start: Coordinate { line, column: column_start },
                end: Coordinate { line, column: column_end },
            },
            Token::Text { line, column_start, column_end } => BoundingBox {
                start: Coordinate { line, column: column_start },
                end: Coordinate { line, column: column_end },
            },
            Token::VLine { column, line_start, line_end } => BoundingBox {
                start: Coordinate { line: line_start, column },
                end: Coordinate { line: line_end, column },
            },
        }
    }

    /// The first and the last place of the token.
    pub fn get_bounds(&self) -> (r: BoundingBox)
        ensures
            r == self.bounds(),
    {
        match self {
            Token::ConnectionSign { line, column } => BoundingBox {
                start: Coordinate { line: *line, column: *column },
                end: Coordinate { line: *line, column: *column },
            },
            Token::Arrow { line, column } => BoundingBox {
                start: Coordinate { line: *line, column: *column },
                end: Coordinate { line: *line, column: *column },
            },
            Token::HLine { line, column_start, column_end } => BoundingBox {
                start: Coordinate { line: *line, column: *column_start },
                end: Coordinate { line: *line, column: *column_end },
            },
            Token::Text { line, column_start, column_end } => BoundingBox {
                start: Coordinate { line: *line, column: *column_start },
                end: Coordinate { line: *line, column: *column_end },
            },
            Token::VLine { column, line_start, line_end } => BoundingBox {
                start: Coordinate { line: *line_start, column: *column },
                end: Coordinate { line: *line_end, column: *column },
            },
        }
    }
}

/// The token that a character makes at its place: none for a blank, a
/// corner for `+`, an arrow head for `>`, `<`, `v` and `^`, a piece of a
/// line for `-` and `|`, and a piece of text for anything else.
pub open spec fn token_of(sign: char, line: usize, column: usize) -> Option<Token> {
    if sign == ' ' {
        None
    } else if sign == '+' {
        Some(Token::ConnectionSign { line, column })
    } else if sign == '>' || sign == '<' || sign == 'v' || sign == '^' {
        Some(Token::Arrow { line, column })
    } else if sign == '-' {
        Some(Token::HLine { line, column_start: column, column_end: column })
    } else if sign == '|' {
        Some(Token::VLine { column, line_start: line, line_end: line })
    } else {
        Some(Token::Text { line, column_start: column, column_end: column })
    }
}

fn sign_token(sign: char, line: usize, column: usize) -> (r: Option<Token>)
    ensures
        r == token_of(sign, line, column),
{
    if sign == ' ' {
        None
    } else if sign == '+' {
        Some(Token::ConnectionSign { line, column })
    } else if sign == '>' || sign == '<' || sign == 'v' || sign == '^' {
        Some(Token::Arrow { line, column })
    } else if sign == '-' {
        Some(Token::HLine { line, column_start: column, column_end: column })
    } else if sign == '|' {
        Some(Token::VLine { column, line_start: line, line_end: line })
    } else {
        Some(Token::Text { line, column_start: column, column_end: column })
    }
}

/// The tokens of the first `n` characters of a line.
pub open spec fn line_tokens(row: Seq<char>, line: usize, n: int) -> Seq<Token>
    decreases n,
{
    if n <= 0 || n > row.len() {
        seq![]
    } else {
        let before = line_tokens(row, line, n - 1);
        match token_of(row[n - 1], line, (n - 1) as usize) {
            Some(token) => before.push(token),
            None => before,
        }
    }
}

/// The tokens of the first `n` lines, line by line.
pub open spec fn all_tokens(table: Seq<Seq<char>>, n: int) -> Seq<Token>
    decreases n,
{
    if n <= 0 || n > table.len() {
        seq![]
    } else {
        all_tokens(table, n - 1) + line_tokens(
            table[n - 1],
            (n - 1) as usize,
            table[n - 1].len() as int,
        )
    }
}

/// The tokens of a drawing, one for each character but the blank.
pub fn scan(input: &str) -> (out: Vec<Token>)
    ensures
        out@ == all_tokens(lines(input@), lines(input@).len() as int),
{
    let chars = to_chars(input);
    let table = split_lines(&chars);
    let mut out: Vec<Token> = Vec::new();
    let mut l: usize = 0;
    while l < table.len()
        invariant
            l <= table.len(),
            rows(table@) == lines(input@),
            out@ == all_tokens(rows(table@), l as int),
        decreases table.len() - l,
    {
        let ghost done = out@;
        let row = &table[l];
        assert(rows(table@)[l as int] == row@);
        let mut c: usize = 0;
        while c < row.len()
            invariant
                c <= row.len(),
                out@ == done + line_tokens(row@, l, c as int),
            decreases row.len() - c,
        {
            match sign_token(row[c], l, c) {
                Some(token) => {
                    out.push(token);
                },
                None => {},
            }
            c += 1;
            assert(out@ =~= done + line_tokens(row@, l, c as int));
        }
        l += 1;
    }
    out
}

/// The tokens `out` with one more: a piece of a horizontal line after a
/// horizontal line, or a piece of text after a text, makes the token
/// before it longer; any other token comes behind.
pub open spec fn joined(out: Seq<Token>, token: Token) -> Seq<Token> {
    if out.len() == 0 {
        seq![token]
    } else {
        match (out.last(), token) {
            (Token::HLine { column_start, .. }, Token::HLine { line, column_end, .. }) => {
                out.drop_last().push(Token::HLine { line, column_start, column_end })
            },
            (Token::Text { column_start, .. }, Token::Text { line, column_end, .. }) => {
                out.drop_last().push(Token::Text { line, column_start, column_end })
            },
            _ => out.push(token),
        }
    }
}

/// The first `n` tokens with neighbouring pieces of horizontal lines and
/// of texts made one.
pub open spec fn condensed_horizontal(input: Seq<Token>, n: int) -> Seq<Token>
    decreases n,
{
    if n <= 0 || n > input.len() {
        seq![]
    } else {
        joined(condensed_horizontal(input, n - 1), input[n - 1])
    }
}

/// The tokens with neighbouring pieces of horizontal lines and of texts
/// made one.
pub fn condense_horizontal(input: Vec<Token>) -> (out: Vec<Token>)
    ensures
        out@ == condensed_horizontal(input@, input@.len() as int),
{
    let mut out: Vec<Token> = Vec::new();
    let mut i: usize = 0;
    while i < input.len()
        invariant
            i <= input.len(),
            out@ == condensed_horizontal(input@, i as int),
        decreases input.len() - i,
    {
        let ghost before = out@;
        let token = input[i];
        match out.pop() {
            None => {
                out.push(token);
            },
            Some(last) => {
                assert(before.drop_last().push(last) =~= before);
                match (last, token) {
                    (Token::HLine { column_start, .. }, Token::HLine { line, column_end, .. }) => {
                        out.push(Token::HLine { line, column_start, column_end });
                    },
                    (Token::Text { column_start, .. }, Token::Text { line, column_end, .. }) => {
                        out.push(Token::Text { line, column_start, column_end });
                    },
                    _ => {
                        out.push(last);
                        out.push(token);
                    },
                }
            },
        }
        assert(out@ =~= joined(before, token));
        i += 1;
    }
    out
}

/// The texts among the first `n` tokens, in their order.
pub open spec fn texts_of(input: Seq<Token>, n: int) -> Seq<Token>
    decreases n,
{
    if n <= 0 || n > input.len() {
        seq![]
    } else if input[n - 1] is Text {
        texts_of(input, n - 1).push(input[n - 1])
    } else {
        texts_of(input, n - 1)
    }
}

/// Whether `element` is the text element with the number `id`, made of
/// the one token `token`.
pub open spec fn is_text_element(element: Element, id: int, token: Token) -> bool {
    element matches Element::Text { id: number, tokens } && (number == id && tokens@ == seq![token])
}

/// Whether `element` is the block with the number `id` and the border
/// `border` that holds the text elements `inner`, each with its number.
pub open spec fn is_block_element(
    element: Element,
    id: int,
    inner: Seq<(int, Token)>,
    border: Seq<Token>,
) -> bool {
    element matches Element::Block { id: number, inner_elements, border: tokens } && (number == id
        && tokens@ == border && inner_elements@.len() == inner.len() && forall|j: int|
        0 <= j < inner.len() ==> is_text_element(
            #[trigger] inner_elements@[j],
            inner[j].0,
            inner[j].1,
        ))
}

/// The end of the first horizontal line, from token `i` on, that starts on
/// the line `line` right beside the column `column`.
pub open spec fn top_from(tokens: Seq<Token>, line: usize, column: usize, i: int) -> Option<usize>
    decreases tokens.len() - i,
{
    if i < 0 || i >= tokens.len() {
        None
    } else {
        match tokens[i] {
            Token::HLine { line: l, column_start, column_end } => if l == line && column + 1
                == column_start {
                Some(column_end)
            } else {
                top_from(tokens, line, column, i + 1)
            },
            _ => top_from(tokens, line, column, i + 1),
        }
    }
}

/// The end of the first vertical line, from token `i` on, that starts in
/// the column `column` right below the line `line`.
pub open spec fn side_from(tokens: Seq<Token>, line: usize, column: usize, i: int) -> Option<usize>
    decreases tokens.len() - i,
{
    if i < 0 || i >= tokens.len() {
        None
    } else {
        match tokens[i] {
            Token::VLine { column: c, line_start, line_end } => if c == column && line + 1
                == line_start {
                Some(line_end)
            } else {
                side_from(tokens, line, column, i + 1)
            },
            _ => side_from(tokens, line, column, i + 1),
        }
    }
}

/// The border of the box with its upper left corner at `line` and
/// `column`, its upper line up to the column `right - 1` and its left line
/// down to the line `bottom - 1`: the corners and lines in the order of
/// their starts.
pub open spec fn frame(line: usize, column: usize, right: usize, bottom: usize) -> Seq<Token> {
    seq![
        Token::ConnectionSign { line, column },
        Token::HLine {
            line,
            column_start: (column + 1) as usize,
            column_end: (right - 1) as usize,
        },
        Token::ConnectionSign { line, column: right },
        Token::VLine {
            column,
            line_start: (line + 1) as usize,
            line_end: (bottom - 1) as usize,
        },
        Token::VLine {
            column: right,
            line_start: (line + 1) as usize,
            line_end: (bottom - 1) as usize,
        },
        Token::ConnectionSign { line: bottom, column },
        Token::HLine {
            line: bottom,
            column_start: (column + 1) as usize,
            column_end: (right - 1) as usize,
        },
        Token::ConnectionSign { line: bottom, column: right },
    ]
}

/// The border of the box whose upper left corner stands at `line` and
/// `column`, if the tokens draw one: a line to the right of the corner
/// and a line below it, and at their ends the other corners and lines of
/// a rectangle.
pub open spec fn border_of(tokens: Seq<Token>, line: usize, column: usize) -> Option<Seq<Token>> {
    match (top_from(tokens, line, column, 0), side_from(tokens, line, column, 0)) {
        (Some(column_end), Some(line_end)) => {
            if line < usize::MAX && column < usize::MAX && column_end < usize::MAX && line_end
                < usize::MAX {
                let border = frame(
                    line,
                    column,
                    (column_end + 1) as usize,
                    (line_end + 1) as usize,
                );
                if tokens.contains(border[2]) && tokens.contains(border[4]) && tokens.contains(
                    border[5],
                ) && tokens.contains(border[6]) && tokens.contains(border[7]) {
                    Some(border)
                } else {
                    None
                }
            } else {
                None
            }
        },
        _ => None,
    }
}

/// The borders of the boxes whose upper left corners are among the first
/// `n` tokens, in the order of these corners.
pub open spec fn borders_of(tokens: Seq<Token>, n: int) -> Seq<Seq<Token>>
    decreases n,
{
    if n <= 0 || n > tokens.len() {
        seq![]
    } else {
        let before = borders_of(tokens, n - 1);
        match tokens[n - 1] {
            Token::ConnectionSign { line, column } => match border_of(tokens, line, column) {
                Some(border) => before.push(border),
                None => before,
            },
            _ => before,
        }
    }
}

/// Whether the token is a text inside the border: below its upper and
/// above its lower line, right of its left and left of its right line.
pub open spec fn within(token: Token, border: Seq<Token>) -> bool {
    border.len() == 8 && match (token, border[0], border[7]) {
        (
            Token::Text { line, column_start, column_end },
            Token::ConnectionSign { line: top, column: left },
            Token::ConnectionSign { line: bottom, column: right },
        ) => top < line && line < bottom && left < column_start && column_end < right,
        _ => false,
    }
}

/// Whether the token is a text inside one of the first `n` borders.
pub open spec fn enclosed(token: Token, borders: Seq<Seq<Token>>, n: int) -> bool
    decreases n,
{
    0 < n <= borders.len() && (within(token, borders[n - 1]) || enclosed(token, borders, n - 1))
}

/// The texts among the first `n` tokens that stand inside the border,
/// each with its number: the texts are numbered from `first` on in the
/// order of the tokens, whether they stand inside a border or not.
pub open spec fn inner_of(tokens: Seq<Token>, border: Seq<Token>, first: int, n: int) -> Seq<
    (int, Token),
>
    decreases n,
{
    if n <= 0 || n > tokens.len() {
        seq![]
    } else {
        let before = inner_of(tokens, border, first, n - 1);
        if tokens[n - 1] is Text && within(tokens[n - 1], border) {
            before.push((first + texts_of(tokens, n - 1).len(), tokens[n - 1]))
        } else {
            before
        }
    }
}

/// The texts among the first `n` tokens that stand inside none of the
/// borders, each with its number.
pub open spec fn loose_of(
    tokens: Seq<Token>,
    borders: Seq<Seq<Token>>,
    first: int,
    n: int,
) -> Seq<(int, Token)>
    decreases n,
{
    if n <= 0 || n > tokens.len() {
        seq![]
    } else {
        let before = loose_of(tokens, borders, first, n - 1);
        if tokens[n - 1] is Text && !enclosed(tokens[n - 1], borders, borders.len() as int) {
            before.push((first + texts_of(tokens, n - 1).len(), tokens[n - 1]))
        } else {
            before
        }
    }
}

/// Whether `elements` are the elements that the tokens make. First come
/// the boxes, in the order of their upper left corners and numbered from
/// 0, each a block with its border and with the texts inside it. Then
/// come the texts that stand inside no box. The texts are numbered on
/// from the number of boxes, in the order of the tokens. Other tokens
/// make no element.
pub open spec fn elements_of(tokens: Seq<Token>, elements: Seq<Element>) -> bool {
    let n = tokens.len() as int;
    let borders = borders_of(tokens, n);
    let boxes = borders.len() as int;
    let loose = loose_of(tokens, borders, boxes, n);
    &&& elements.len() == boxes + loose.len()
    &&& forall|k: int|
        0 <= k < boxes ==> is_block_element(
            #[trigger] elements[k],
            k,
            inner_of(tokens, borders[k], boxes, n),
            borders[k],
        )
    &&& forall|j: int|
        0 <= j < loose.len() ==> is_text_element(
            #[trigger] elements[boxes + j],
            loose[j].0,
            loose[j].1,
        )
}

/// The views of a sequence of borders.
pub open spec fn frames(borders: Seq<Vec<Token>>) -> Seq<Seq<Token>> {
    Seq::new(borders.len(), |i: int| borders[i]@)
}

/// Boxes and texts are made of different tokens: there are no more of
/// them than tokens.
pub proof fn lemma_boxes_and_texts(tokens: Seq<Token>, n: int)
    requires
        0 <= n <= tokens.len(),
    ensures
        borders_of(tokens, n).len() + texts_of(tokens, n).len() <= n,
    decreases n,
{
    if n > 0 {
        lemma_boxes_and_texts(tokens, n - 1);
    }
}

fn same_token(a: &Token, b: &Token) -> (r: bool)
    ensures
        r == (*a == *b),
{
    match (*a, *b) {
        (
            Token::HLine { line: l1, column_start: s1, column_end: e1 },
            Token::HLine { line: l2, column_start: s2, column_end: e2 },
        ) => l1 == l2 && s1 == s2 && e1 == e2,
        (
            Token::VLine { column: c1, line_start: s1, line_end: e1 },
            Token::VLine { column: c2, line_start: s2, line_end: e2 },
        ) => c1 == c2 && s1 == s2 && e1 == e2,
        (
            Token::Text { line: l1, column_start: s1, column_end: e1 },
            Token::Text { line: l2, column_start: s2, column_end: e2 },
        ) => l1 == l2 && s1 == s2 && e1 == e2,
        (
            Token::ConnectionSign { line: l1, column: c1 },
            Token::ConnectionSign { line: l2, column: c2 },
        ) => l1 == l2 && c1 == c2,
        (Token::Arrow { line: l1, column: c1 }, Token::Arrow { line: l2, column: c2 }) => l1 == l2
            && c1 == c2,
        _ => false,
    }
}

fn has_token(tokens: &Vec<Token>, token: Token) -> (r: bool)
    ensures
        r == tokens@.contains(token),
{
    let mut i: usize = 0;
    while i < tokens.len()
        invariant
            i <= tokens.len(),
            forall|k: int| 0 <= k < i ==> tokens@[k] != token,
        decreases tokens.len() - i,
    {
        if same_token(&tokens[i], &token) {
            return true;
        }
        i += 1;
    }
    false
}

fn top_end(tokens: &Vec<Token>, line: usize, column: usize) -> (r: Option<usize>)
    ensures
        r == top_from(tokens@, line, column, 0),
{
    let mut i: usize = 0;
    while i < tokens.len()
        invariant
            i <= tokens.len(),
            top_from(tokens@, line, column, 0) == top_from(tokens@, line, column, i as int),
        decreases tokens.len() - i,
    {
        match tokens[i] {
            Token::HLine { line: l, column_start, column_end } => {
                if l == line && next_to(column, column_start) {
                    return Some(column_end);
                }
            },
            _ => {},
        }
        i += 1;
    }
    None
}

fn side_end(tokens: &Vec<Token>, line: usize, column: usize) -> (r: Option<usize>)
    ensures
        r == side_from(tokens@, line, column, 0),
{
    let mut i: usize = 0;
    while i < tokens.len()
        invariant
            i <= tokens.len(),
            side_from(tokens@, line, column, 0) == side_from(tokens@, line, column, i as int),
        decreases tokens.len() - i,
    {
        match tokens[i] {
            Token::VLine { column: c, line_start, line_end } => {
                if c == column && next_to(line, line_start) {
                    return Some(line_end);
                }
            },
            _ => {},
        }
        i += 1;
    }
    None
}

fn border_at(tokens: &Vec<Token>, line: usize, column: usize) -> (r: Option<Vec<Token>>)
    ensures
        match r {
            Some(border) => border_of(tokens@, line, column) == Some(border@),
            None => border_of(tokens@, line, column).is_none(),
        },
{
    let column_end = match top_end(tokens, line, column) {
        Some(end) => end,
        None => {
            return None;
        },
    };
    let line_end = match side_end(tokens, line, column) {
        Some(end) => end,
        None => {
            return None;
        },
    };
    if line == usize::MAX || column == usize::MAX || column_end == usize::MAX || line_end
        == usize::MAX {
        return None;
    }
    let right: usize = column_end + 1;
    let bottom: usize = line_end + 1;
    let upper_right = Token::ConnectionSign { line, column: right };
    let right_side = Token::VLine { column: right, line_start: line + 1, line_end };
    let lower_left = Token::ConnectionSign { line: bottom, column };
    let lower = Token::HLine { line: bottom, column_start: column + 1, column_end };
    let lower_right = Token::ConnectionSign { line: bottom, column: right };
    if has_token(tokens, upper_right) && has_token(tokens, right_side) && has_token(
        tokens,
        lower_left,
    ) && has_token(tokens, lower) && has_token(tokens, lower_right) {
        let mut border: Vec<Token> = Vec::new();
        border.push(Token::ConnectionSign { line, column });
        border.push(Token::HLine { line, column_start: column + 1, column_end });
        border.push(upper_right);
        border.push(Token::VLine { column, line_start: line + 1, line_end });
        border.push(right_side);
        border.push(lower_left);
        border.push(lower);
        border.push(lower_right);
        assert(border@ =~= frame(line, column, right, bottom));
        Some(border)
    } else {
        None
    }
}

fn is_within(token: &Token, border: &Vec<Token>) -> (r: bool)
    ensures
        r == within(*token, border@),
{
    if border.len() != 8 {
        return false;
    }
    match (*token, border[0], border[7]) {
        (
            Token::Text { line, column_start, column_end },
            Token::ConnectionSign { line: top, column: left },
            Token::ConnectionSign { line: bottom, column: right },
        ) => top < line && line < bottom && left < column_start && column_end < right,
        _ => false,
    }
}

fn is_enclosed(token: &Token, borders: &Vec<Vec<Token>>) -> (r: bool)
    ensures
        r == enclosed(*token, frames(borders@), borders@.len() as int),
{
    let mut k: usize = 0;
    while k < borders.len()
        invariant
            k <= borders.len(),
            !enclosed(*token, frames(borders@), k as int),
        decreases borders.len() - k,
    {
        assert(frames(borders@)[k as int] == borders@[k as int]@);
        if is_within(token, &borders[k]) {
            proof {
                lemma_enclosed_later(*token, frames(borders@), k as int + 1, borders@.len() as int);
            }
            return true;
        }
        k += 1;
    }
    false
}

/// A text inside one of the first borders is inside one of more borders.
pub proof fn lemma_enclosed_later(token: Token, borders: Seq<Seq<Token>>, k: int, n: int)
    requires
        0 <= k <= n <= borders.len(),
        enclosed(token, borders, k),
    ensures
        enclosed(token, borders, n),
    decreases n - k,
{
    if k < n {
        lemma_enclosed_later(token, borders, k, n - 1);
    }
}

fn copy_tokens(tokens: &Vec<Token>) -> (r: Vec<Token>)
    ensures
        r@ == tokens@,
{
    let mut r: Vec<Token> = Vec::new();
    let mut i: usize = 0;
    while i < tokens.len()
        invariant
            i <= tokens.len(),
            r@ == tokens@.take(i as int),
        decreases tokens.len() - i,
    {
        r.push(tokens[i]);
        i += 1;
        assert(r@ =~= tokens@.take(i as int));
    }
    assert(tokens@.take(tokens@.len() as int) =~= tokens@);
    r
}

fn text_element(id: usize, token: Token) -> (r: Element)
    ensures
        is_text_element(r, id as int, token),
{
    let mut tokens: Vec<Token> = Vec::new();
    tokens.push(token);
    assert(tokens@ =~= seq![token]);
    Element::Text { id, tokens }
}

fn find_borders(input: &Vec<Token>) -> (borders: Vec<Vec<Token>>)
    ensures
        frames(borders@) == borders_of(input@, input@.len() as int),
{
    let mut borders: Vec<Vec<Token>> = Vec::new();
    let mut i: usize = 0;
    assert(frames(borders@) =~= borders_of(input@, 0));
    while i < input.len()
        invariant
            i <= input.len(),
            frames(borders@) == borders_of(input@, i as int),
        decreases input.len() - i,
    {
        let ghost before = frames(borders@);
        match input[i] {
            Token::ConnectionSign { line, column } => {
                match border_at(input, line, column) {
                    Some(border) => {
                        borders.push(border);
                        assert(frames(borders@) =~= before.push(border@));
                    },
                    None => {},
                }
            },
            _ => {},
        }
        i += 1;
    }
    borders
}

fn texts_within(input: &Vec<Token>, border: &Vec<Token>, first: usize) -> (inner: Vec<Element>)
    requires
        first == borders_of(input@, input@.len() as int).len(),
    ensures
        inner@.len() == inner_of(input@, border@, first as int, input@.len() as int).len(),
        forall|j: int|
            0 <= j < inner@.len() ==> is_text_element(
                #[trigger] inner@[j],
                inner_of(input@, border@, first as int, input@.len() as int)[j].0,
                inner_of(input@, border@, first as int, input@.len() as int)[j].1,
            ),
{
    let mut inner: Vec<Element> = Vec::new();
    let mut rank: usize = 0;
    let mut i: usize = 0;
    proof {
        lemma_boxes_and_texts(input@, input@.len() as int);
    }
    while i < input.len()
        invariant
            i <= input.len(),
            rank == texts_of(input@, i as int).len(),
            first + texts_of(input@, input@.len() as int).len() <= input@.len(),
            inner@.len() == inner_of(input@, border@, first as int, i as int).len(),
            forall|j: int|
                0 <= j < inner@.len() ==> is_text_element(
                    #[trigger] inner@[j],
                    inner_of(input@, border@, first as int, i as int)[j].0,
                    inner_of(input@, border@, first as int, i as int)[j].1,
                ),
        decreases input.len() - i,
    {
        let token = input[i];
        proof {
            lemma_texts_grow(input@, i as int + 1, input@.len() as int);
        }
        match token {
            Token::Text { .. } => {
                if is_within(&token, border) {
                    inner.push(text_element(first + rank, token));
                }
                rank += 1;
            },
            _ => {},
        }
        i += 1;
    }
    inner
}

/// There are no more texts among the first tokens than among more tokens.
pub proof fn lemma_texts_grow(tokens: Seq<Token>, k: int, n: int)
    requires
        0 <= k <= n <= tokens.len(),
    ensures
        texts_of(tokens, k).len() <= texts_of(tokens, n).len(),
    decreases n - k,
{
    if k < n {
        lemma_texts_grow(tokens, k, n - 1);
    }
}

/// The elements that the tokens make: the boxes with the texts inside
/// them, then the texts that stand inside no box.
pub fn elements_from_tokens(input: Vec<Token>) -> (out: Vec<Element>)
    ensures
        elements_of(input@, out@),
{
    let ghost n = input@.len() as int;
    let borders = find_borders(&input);
    let boxes: usize = borders.len();
    let ghost all = frames(borders@);
    proof {
        lemma_boxes_and_texts(input@, n);
    }
    let mut out: Vec<Element> = Vec::new();
    let mut k: usize = 0;
    while k < boxes
        invariant
            k <= boxes,
            boxes == borders@.len(),
            n == input@.len(),
            all == frames(borders@),
            all == borders_of(input@, n),
            out@.len() == k,
            forall|m: int|
                0 <= m < k ==> is_block_element(
                    #[trigger] out@[m],
                    m,
                    inner_of(input@, all[m], boxes as int, n),
                    all[m],
                ),
        decreases boxes - k,
    {
        assert(all[k as int] == borders@[k as int]@);
        let inner_elements = texts_within(&input, &borders[k], boxes);
        let border = copy_tokens(&borders[k]);
        out.push(Element::Block { id: k, inner_elements, border });
        k += 1;
    }
    let mut rank: usize = 0;
    let mut i: usize = 0;
    while i < input.len()
        invariant
            i <= input.len(),
            boxes == borders@.len(),
            n == input@.len(),
            all == frames(borders@),
            all == borders_of(input@, n),
            rank == texts_of(input@, i as int).len(),
            boxes + texts_of(input@, n).len() <= n,
            out@.len() == boxes + loose_of(input@, all, boxes as int, i as int).len(),
            forall|m: int|
                0 <= m < boxes ==> is_block_element(
                    #[trigger] out@[m],
                    m,
                    inner_of(input@, all[m], boxes as int, n),
                    all[m],
                ),
            forall|j: int|
                0 <= j < loose_of(input@, all, boxes as int, i as int).len() ==> is_text_element(
                    #[trigger] out@[boxes + j],
                    loose_of(input@, all, boxes as int, i as int)[j].0,
                    loose_of(input@, all, boxes as int, i as int)[j].1,
                ),
        decreases input.len() - i,
    {
        let token = input[i];
        proof {
            lemma_texts_grow(input@, i as int + 1, n);
        }
        match token {
            Token::Text { .. } => {
                if !is_enclosed(&token, &borders) {
                    out.push(text_element(boxes + rank, token));
                }
                rank += 1;
            },
            _ => {},
        }
        i += 1;
    }
    out
}

/// A border that is being followed around a box: the tokens so far, and
/// where it has got to in either direction.
pub struct PartialElement {
    pub clock_cycle_end: Coordinate,
    pub counter_clock_cycle_end: Coordinate,
    pub tokens: Vec<Token>,
}

/// Whether the token `next` goes on from one of the two ends of a border:
/// a horizontal line to the right of an end, a vertical line below an end,
/// a corner to the right of the clockwise end or below either end.
pub open spec fn continues(clock: Coordinate, counter: Coordinate, next: Token) -> bool {
    match next {
        Token::HLine { line, column_start, .. } => (clock.line == line && clock.column + 1
            == column_start) || (counter.line == line && counter.column + 1 == column_start),
        Token::ConnectionSign { line, column } => (clock.line == line && clock.column + 1
            == column) || (clock.line + 1 == line && clock.column == column) || (counter.line + 1
            == line && counter.column == column),
        Token::VLine { column, line_start, .. } => (clock.column == column && clock.line + 1
            == line_start) || (counter.column == column && counter.line + 1 == line_start),
        _ => false,
    }
}

/// Whether the token ends neither above nor left of the place `clock`.
pub open spec fn reaches(clock: Coordinate, token: Token) -> bool {
    token.bounds().end.line >= clock.line && token.bounds().end.column >= clock.column
}

fn next_to(a: usize, b: usize) -> (r: bool)
    ensures
        r == (a + 1 == b),
{
    b > 0 && a == b - 1
}

impl PartialElement {
    /// The border that starts with `token`.
    pub fn new(token: Token) -> (r: Self)
        ensures
            r.tokens@ == seq![token],
            r.counter_clock_cycle_end == token.bounds().start,
            r.clock_cycle_end == token.bounds().end,
    {
        let bounds = token.get_bounds();
        let mut tokens: Vec<Token> = Vec::new();
        tokens.push(token);
        assert(tokens@ =~= seq![token]);
        PartialElement { tokens, counter_clock_cycle_end: bounds.start, clock_cycle_end: bounds.end }
    }

    /// Whether the token `next_token` goes on from one of the ends of the
    /// border.
    pub fn can_continue_block(&self, next_token: &Token, text: &str) -> (r: bool)
        ensures
            r == continues(self.clock_cycle_end, self.counter_clock_cycle_end, *next_token),
    {
        let clock = self.clock_cycle_end;
        let counter = self.counter_clock_cycle_end;
        match next_token {
            Token::HLine { line, column_start, .. } => {
                (clock.line == *line && next_to(clock.column, *column_start)) || (counter.line
                    == *line && next_to(counter.column, *column_start))
            },
            Token::ConnectionSign { line, column } => {
                (clock.line == *line && next_to(clock.column, *column)) || (next_to(
                    clock.line,
                    *line,
                ) && clock.column == *column) || (next_to(counter.line, *line) && counter.column
                    == *column)
            },
            Token::VLine { column, line_start, .. } => {
                (clock.column == *column && next_to(clock.line, *line_start)) || (counter.column
                    == *column && next_to(counter.line, *line_start))
            },
            _ => false,
        }
    }

    /// Takes the token into the border. Its end becomes the clockwise end
    /// where it lies neither above nor left of that end, and the other
    /// end else.
    pub fn add_token(&mut self, token: Token)
        ensures
            final(self).tokens@ == old(self).tokens@.push(token),
            reaches(old(self).clock_cycle_end, token) ==> final(self).clock_cycle_end
                == token.bounds().end && final(self).counter_clock_cycle_end == old(
                self).counter_clock_cycle_end,
            !reaches(old(self).clock_cycle_end, token) ==> final(self).counter_clock_cycle_end
                == token.bounds().end && final(self).clock_cycle_end == old(self).clock_cycle_end,
    {
        let end = token.get_bounds().end;
        self.tokens.push(token);
        if end.line >= self.clock_cycle_end.line && end.column >= self.clock_cycle_end.column {
            self.clock_cycle_end = end;
        } else {
            self.counter_clock_cycle_end = end;
        }
    }
}

/// Whether the token is a piece of a vertical line in the column.
pub open spec fn on_column(token: Token, column: usize) -> bool {
    token matches Token::VLine { column: c, .. } && c == column
}

/// The place of the last of the first `n` tokens that is a vertical line
/// in the column, or -1 where none is.
pub open spec fn last_on_column(flat: Seq<Token>, column: usize, n: int) -> int
    decreases n,
{
    if n <= 0 || n > flat.len() {
        -1
    } else if on_column(flat[n - 1], column) {
        n - 1
    } else {
        last_on_column(flat, column, n - 1)
    }
}

/// The vertical lines `flat` with one more piece. The line of its column
/// that has waited longest is taken out. Where the piece goes on from it,
/// the two become one line, which comes first; else the piece comes
/// first and the line second. Where the column has no line yet, the piece
/// comes first.
pub open spec fn stacked(flat: Seq<Token>, column: usize, line_start: usize, line_end: usize) -> Seq<
    Token,
> {
    let piece = Token::VLine { column, line_start, line_end };
    let i = last_on_column(flat, column, flat.len() as int);
    if 0 <= i < flat.len() {
        match flat[i] {
            Token::VLine { line_start: old_start, line_end: old_end, .. } => {
                if line_start <= old_end + 1 && line_end > old_end {
                    seq![Token::VLine { column, line_start: old_start, line_end }] + flat.remove(i)
                } else {
                    seq![piece, flat[i]] + flat.remove(i)
                }
            },
            _ => flat,
        }
    } else {
        seq![piece] + flat
    }
}

/// The vertical lines that the first `n` tokens make.
pub open spec fn vlines_of(input: Seq<Token>, n: int) -> Seq<Token>
    decreases n,
{
    if n <= 0 || n > input.len() {
        seq![]
    } else {
        match input[n - 1] {
            Token::VLine { column, line_start, line_end } => stacked(
                vlines_of(input, n - 1),
                column,
                line_start,
                line_end,
            ),
            _ => vlines_of(input, n - 1),
        }
    }
}

/// The first `n` tokens without the pieces of vertical lines.
pub open spec fn others_of(input: Seq<Token>, n: int) -> Seq<Token>
    decreases n,
{
    if n <= 0 || n > input.len() {
        seq![]
    } else if input[n - 1] is VLine {
        others_of(input, n - 1)
    } else {
        others_of(input, n - 1).push(input[n - 1])
    }
}

/// Whether the token `a` starts where the token `b` starts or before it:
/// on a line above, or on the same line and not to the right.
pub open spec fn starts_before(a: Token, b: Token) -> bool {
    let s = a.bounds().start;
    let t = b.bounds().start;
    s.line < t.line || (s.line == t.line && s.column <= t.column)
}

/// Those of the first `n` lines that start before the token or where it
/// starts, where `want` holds, and the others of them, where it does not.
pub open spec fn picked(vlines: Seq<Token>, token: Token, want: bool, n: int) -> Seq<Token>
    decreases n,
{
    if n <= 0 || n > vlines.len() {
        seq![]
    } else if starts_before(vlines[n - 1], token) == want {
        picked(vlines, token, want, n - 1).push(vlines[n - 1])
    } else {
        picked(vlines, token, want, n - 1)
    }
}

/// The first `n` of the tokens `others`, each behind the vertical lines
/// that start before it and were not placed yet; and the vertical lines
/// that are not placed then.
pub open spec fn placed(others: Seq<Token>, vlines: Seq<Token>, n: int) -> (Seq<Token>, Seq<Token>)
    decreases n,
{
    if n <= 0 || n > others.len() {
        (seq![], vlines)
    } else {
        let (out, rest) = placed(others, vlines, n - 1);
        let token = others[n - 1];
        (
            out + picked(rest, token, true, rest.len() as int) + seq![token],
            picked(rest, token, false, rest.len() as int),
        )
    }
}

/// The tokens with the pieces of each vertical line made one, each line
/// before the first other token that starts behind it.
pub open spec fn condensed_vertical(input: Seq<Token>) -> Seq<Token> {
    let others = others_of(input, input.len() as int);
    let vlines = vlines_of(input, input.len() as int);
    let (out, rest) = placed(others, vlines, others.len() as int);
    out + rest
}

fn is_on_column(token: &Token, column: usize) -> (r: bool)
    ensures
        r == on_column(*token, column),
{
    match token {
        Token::VLine { column: c, .. } => *c == column,
        _ => false,
    }
}

fn stack(flat: &mut Vec<Token>, column: usize, line_start: usize, line_end: usize)
    ensures
        final(flat)@ == stacked(old(flat)@, column, line_start, line_end),
{
    let ghost before = flat@;
    let piece = Token::VLine { column, line_start, line_end };
    let mut n: usize = flat.len();
    while n > 0 && !is_on_column(&flat[n - 1], column)
        invariant
            n <= flat.len(),
            flat@ == before,
            last_on_column(before, column, before.len() as int) == last_on_column(
                before,
                column,
                n as int,
            ),
        decreases n,
    {
        n -= 1;
    }
    if n > 0 {
        let old_line = flat.remove(n - 1);
        match old_line {
            Token::VLine { line_start: old_start, line_end: old_end, .. } => {
                if (line_start <= old_end || line_start - 1 == old_end) && line_end > old_end {
                    flat.insert(0, Token::VLine { column, line_start: old_start, line_end });
                } else {
                    flat.insert(0, old_line);
                    flat.insert(0, piece);
                }
            },
            _ => {
                flat.insert(n - 1, old_line);
            },
        }
        assert(flat@ =~= stacked(before, column, line_start, line_end));
    } else {
        flat.insert(0, piece);
        assert(flat@ =~= stacked(before, column, line_start, line_end));
    }
}

fn starts_no_later(a: &Token, b: &Token) -> (r: bool)
    ensures
        r == starts_before(*a, *b),
{
    let s = a.get_bounds().start;
    let t = b.get_bounds().start;
    s.line < t.line || (s.line == t.line && s.column <= t.column)
}

/// The tokens with the pieces of each vertical line made one, each line
/// before the first other token that starts behind it.
pub fn condense_vertical(input: Vec<Token>) -> (out: Vec<Token>)
    ensures
        out@ == condensed_vertical(input@),
{
    let mut vlines: Vec<Token> = Vec::new();
    let mut tokens: Vec<Token> = Vec::new();
    let mut i: usize = 0;
    while i < input.len()
        invariant
            i <= input.len(),
            vlines@ == vlines_of(input@, i as int),
            tokens@ == others_of(input@, i as int),
        decreases input.len() - i,
    {
        let token = input[i];
        match token {
            Token::VLine { column, line_start, line_end } => {
                stack(&mut vlines, column, line_start, line_end);
            },
            _ => {
                tokens.push(token);
            },
        }
        i += 1;
    }
    let ghost lines0 = vlines@;
    let mut out: Vec<Token> = Vec::new();
    let mut k: usize = 0;
    while k < tokens.len()
        invariant
            k <= tokens.len(),
            (out@, vlines@) == placed(tokens@, lines0, k as int),
        decreases tokens.len() - k,
    {
        let token = tokens[k];
        let ghost done = out@;
        let ghost rest = vlines@;
        let mut after: Vec<Token> = Vec::new();
        let mut j: usize = 0;
        while j < vlines.len()
            invariant
                j <= vlines.len(),
                vlines@ == rest,
                out@ == done + picked(rest, token, true, j as int),
                after@ == picked(rest, token, false, j as int),
            decreases vlines.len() - j,
        {
            let line = vlines[j];
            if starts_no_later(&line, &token) {
                out.push(line);
            } else {
                after.push(line);
            }
            j += 1;
            assert(out@ =~= done + picked(rest, token, true, j as int));
        }
        out.push(token);
        vlines = after;
        k += 1;
        assert(out@ =~= done + picked(rest, token, true, rest.len() as int) + seq![token]);
    }
    let ghost first = out@;
    let mut j: usize = 0;
    while j < vlines.len()
        invariant
            j <= vlines.len(),
            out@ == first + vlines@.take(j as int),
        decreases vlines.len() - j,
    {
        out.push(vlines[j]);
        j += 1;
        assert(out@ =~= first + vlines@.take(j as int));
    }
    assert(vlines@.take(vlines@.len() as int) =~= vlines@);
    out
}

/// Whether each token starts where the next one starts or before it.
pub open spec fn in_order(tokens: Seq<Token>) -> bool {
    forall|i: int, j: int|
        0 <= i < j < tokens.len() ==> starts_before(#[trigger] tokens[i], #[trigger] tokens[j])
}

/// The tokens in the order of their starts: line by line, and from left
/// to right on a line. Tokens that start at the same place keep their
/// order.
pub fn order_tokens(input: Vec<Token>) -> (out: Vec<Token>)
    ensures
        in_order(out@),
        out@.to_multiset() == input@.to_multiset(),
{
    let mut out: Vec<Token> = Vec::new();
    let mut i: usize = 0;
    assert(input@.take(0) =~= Seq::<Token>::empty());
    while i < input.len()
        invariant
            i <= input.len(),
            in_order(out@),
            out@.to_multiset() == input@.take(i as int).to_multiset(),
        decreases input.len() - i,
    {
        let token = input[i];
        let ghost before = out@;
        let mut p: usize = 0;
        while p < out.len() && starts_no_later(&out[p], &token)
            invariant
                p <= out.len(),
                out@ == before,
                forall|j: int| 0 <= j < p ==> starts_before(#[trigger] before[j], token),
            decreases out.len() - p,
        {
            p += 1;
        }
        proof {
            assert forall|j: int| p <= j < before.len() implies starts_before(
                token,
                #[trigger] before[j],
            ) by {
                assert(!starts_before(before[p as int], token));
                if j > p {
                    assert(starts_before(before[p as int], before[j]));
                }
            }
        }
        out.insert(p, token);
        proof {
            vstd::seq_lib::to_multiset_insert(before, p as int, token);
            vstd::seq_lib::to_multiset_build(input@.take(i as int), token);
            assert(input@.take(i as int + 1) =~= input@.take(i as int).push(token));
            assert forall|a: int, b: int| 0 <= a < b < out@.len() implies starts_before(
                #[trigger] out@[a],
                #[trigger] out@[b],
            ) by {
                if a < p && b > p {
                    assert(out@[a] == before[a] && out@[b] == before[b - 1]);
                } else if a < p && b < p {
                    assert(out@[a] == before[a] && out@[b] == before[b]);
                } else if a > p {
                    assert(out@[a] == before[a - 1] && out@[b] == before[b - 1]);
                }
            }
        }
        i += 1;
    }
    assert(input@.take(input@.len() as int) =~= input@);
    out
}

/// Whether `tokens` are the tokens of the drawing `input`: one for each
/// character but the blank, with the pieces of lines and of texts made
/// one, in the order of their starts.
pub open spec fn tokens_of(input: Seq<char>, tokens: Seq<Token>) -> bool {
    let table = lines(input);
    let signs = all_tokens(table, table.len() as int);
    let condensed = condensed_vertical(condensed_horizontal(signs, signs.len() as int));
    in_order(tokens) && tokens.to_multiset() == condensed.to_multiset()
}

/// The tokens of a drawing.
pub fn parse_tokens(input: &str) -> (out: Vec<Token>)
    ensures
        tokens_of(input@, out@),
{
    let tokens = scan(input);
    let tokens = condense_horizontal(tokens);
    let tokens = condense_vertical(tokens);
    order_tokens(tokens)
}

/// Whether `elements` are the elements of the drawing `input`: those that
/// its tokens make.
pub open spec fn drawn(input: Seq<char>, elements: Seq<Element>) -> bool {
    exists|tokens: Seq<Token>| #[trigger] tokens_of(input, tokens) && elements_of(tokens, elements)
}

/// The elements of a drawing.
pub fn parse_elements(input: &str) -> (out: Vec<Element>)
    ensures
        drawn(input@, out@),
{
    let tokens = parse_tokens(input);
    let ghost read = tokens@;
    let out = elements_from_tokens(tokens);
    assert(tokens_of(input@, read) && elements_of(read, out@));
    out
}

} // verus!
