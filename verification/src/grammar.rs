//! The fragment-reference grammar, as a function on character sequences.
//!
//! A fragment body is a sequence of code runs, references `<<id>>` or
//! `<<id | attributes>>`, and indented references: a line break, a run of
//! blanks and a reference. Every body parses: characters that do not belong
//! to a well-formed reference are code.

use vstd::prelude::*;

verus! {

/// A reference `<<identifier | attributes>>`.
pub struct ReferenceSpec {
    pub identifier: Seq<char>,
    pub attributes: Seq<AttributeSpec>,
}

/// One item of a reference's attribute list.
pub enum AttributeSpec {
    /// `key="value"`: attached to the reference; `join` names the separator.
    Plain { key: Seq<char>, value: Seq<char> },
    /// `key:="value"`: a parameter bound to a literal.
    Literal { key: Seq<char>, value: Seq<char> },
    /// `key:=<<reference>>`: a parameter bound to another fragment.
    Nested { key: Seq<char>, reference: ReferenceSpec },
}

/// One element of a parsed fragment body.
pub enum ItemSpec {
    Code(Seq<char>),
    Reference(ReferenceSpec),
    Indented { indentation: Seq<char>, reference: ReferenceSpec },
}

/// The character classes the grammar scans for.
#[derive(Clone, Copy)]
pub enum CharClass {
    /// Letters, digits, `_` and `-`: the characters of an identifier.
    Identifier,
    /// Space and tab: the characters of an indentation.
    Blank,
    /// Space, tab, carriage return and line feed.
    Space,
}

pub open spec fn is_identifier_char(c: char) -> bool {
    ('a' <= c && c <= 'z') || ('A' <= c && c <= 'Z') || ('0' <= c && c <= '9') || c == '_' || c
        == '-'
}

pub open spec fn is_blank(c: char) -> bool {
    c == ' ' || c == '\t'
}

pub open spec fn is_space(c: char) -> bool {
    c == ' ' || c == '\t' || c == '\r' || c == '\n'
}

impl CharClass {
    pub open spec fn holds(self, c: char) -> bool {
        match self {
            CharClass::Identifier => is_identifier_char(c),
            CharClass::Blank => is_blank(c),
            CharClass::Space => is_space(c),
        }
    }
}

/// The end of the longest run of characters of `class` that starts at `i`.
pub open spec fn run_end(s: Seq<char>, i: int, class: CharClass) -> int
    decreases s.len() - i,
{
    if 0 <= i < s.len() && class.holds(s[i]) {
        run_end(s, i + 1, class)
    } else {
        i
    }
}

/// Whether the two characters `c0`, `c1` stand at position `i`.
pub open spec fn pair_at(s: Seq<char>, i: int, c0: char, c1: char) -> bool {
    0 <= i && i + 1 < s.len() && s[i] == c0 && s[i + 1] == c1
}

/// The first position at or after `i` that holds `c`, or the length of `s`.
pub open spec fn find_char(s: Seq<char>, i: int, c: char) -> int
    decreases s.len() - i,
{
    if 0 <= i < s.len() && s[i] != c {
        find_char(s, i + 1, c)
    } else {
        i
    }
}

/// Whether a line feed stands in `s[from..to]`.
pub open spec fn has_line_feed(s: Seq<char>, from: int, to: int) -> bool {
    exists|k: int| from <= k < to && 0 <= k < s.len() && s[k] == '\n'
}

/// A quoted literal whose opening quote stands at `i`: its text and the
/// position after the closing quote.
pub open spec fn quoted_at(s: Seq<char>, i: int) -> Option<(Seq<char>, int)> {
    if 0 <= i < s.len() && s[i] == '"' {
        let e = find_char(s, i + 1, '"');
        if e < s.len() {
            Some((s.subrange(i + 1, e), e + 1))
        } else {
            None
        }
    } else {
        None
    }
}

/// The reference that starts at `i`, with the position after its closing `>>`.
pub open spec fn reference_at(s: Seq<char>, i: int) -> Option<(ReferenceSpec, int)>
    decreases s.len() - i, 0nat,
{
    if pair_at(s, i, '<', '<') {
        let a = i + 2;
        let b = run_end(s, a, CharClass::Identifier);
        let c = run_end(s, b, CharClass::Space);
        if b == a {
            None
        } else if pair_at(s, c, '>', '>') {
            Some((ReferenceSpec { identifier: s.subrange(a, b), attributes: seq![] }, c + 2))
        } else if 0 <= c < s.len() && s[c] == '|' {
            let d = run_end(s, c + 1, CharClass::Space);
            if i < d <= s.len() {
                match attributes_at(s, d) {
                    Some((attributes, e)) => Some(
                        (ReferenceSpec { identifier: s.subrange(a, b), attributes }, e),
                    ),
                    None => None,
                }
            } else {
                None
            }
        } else {
            None
        }
    } else {
        None
    }
}

/// The attribute list whose first item starts at `i`, up to and including
/// the `>>` that closes the reference. Items are separated by a comma or by
/// a line break; other white space around them is ignored.
pub open spec fn attributes_at(s: Seq<char>, i: int) -> Option<(Seq<AttributeSpec>, int)>
    decreases s.len() - i, 2nat,
{
    match attribute_at(s, i) {
        None => None,
        Some((attribute, j)) => {
            let k = run_end(s, j, CharClass::Space);
            if pair_at(s, k, '>', '>') {
                Some((seq![attribute], k + 2))
            } else {
                let m = if 0 <= k < s.len() && s[k] == ',' {
                    run_end(s, k + 1, CharClass::Space)
                } else {
                    k
                };
                let separated = (0 <= k < s.len() && s[k] == ',') || has_line_feed(s, j, k);
                if separated && i < m <= s.len() {
                    match attributes_at(s, m) {
                        Some((rest, e)) => Some((seq![attribute] + rest, e)),
                        None => None,
                    }
                } else {
                    None
                }
            }
        },
    }
}

/// The attribute that starts at `i`, with the position after it.
pub open spec fn attribute_at(s: Seq<char>, i: int) -> Option<(AttributeSpec, int)>
    decreases s.len() - i, 1nat,
{
    let b = run_end(s, i, CharClass::Identifier);
    let c = run_end(s, b, CharClass::Space);
    let key = s.subrange(i, b);
    if i < 0 || b <= i {
        None
    } else if pair_at(s, c, ':', '=') {
        let d = run_end(s, c + 2, CharClass::Space);
        if 0 <= d < s.len() && s[d] == '"' {
            match quoted_at(s, d) {
                Some((value, e)) => Some((AttributeSpec::Literal { key, value }, e)),
                None => None,
            }
        } else if i < d <= s.len() {
            match reference_at(s, d) {
                Some((reference, e)) => Some((AttributeSpec::Nested { key, reference }, e)),
                None => None,
            }
        } else {
            None
        }
    } else if 0 <= c < s.len() && s[c] == '=' {
        let d = run_end(s, c + 1, CharClass::Space);
        match quoted_at(s, d) {
            Some((value, e)) => Some((AttributeSpec::Plain { key, value }, e)),
            None => None,
        }
    } else {
        None
    }
}

/// The reference or indented reference that starts at `i`, with the position
/// after it. An indented reference starts at the line feed before its
/// indentation.
pub open spec fn token_at(s: Seq<char>, i: int) -> Option<(ItemSpec, int)> {
    let b = run_end(s, i + 1, CharClass::Blank);
    if 0 <= i < s.len() && s[i] == '\n' && b > i + 1 && reference_at(s, b).is_some() {
        let (reference, e) = reference_at(s, b).unwrap();
        Some((ItemSpec::Indented { indentation: s.subrange(i + 1, b), reference }, e))
    } else {
        match reference_at(s, i) {
            Some((reference, e)) => Some((ItemSpec::Reference(reference), e)),
            None => None,
        }
    }
}

/// The first position at or after `i` where a token starts, or the length
/// of `s`.
pub open spec fn code_end(s: Seq<char>, i: int) -> int
    decreases s.len() - i,
{
    if 0 <= i < s.len() && token_at(s, i).is_none() {
        code_end(s, i + 1)
    } else {
        i
    }
}

/// The items of `s` from position `i` on.
pub open spec fn items_from(s: Seq<char>, i: int) -> Seq<ItemSpec>
    decreases s.len() - i,
{
    if 0 <= i < s.len() {
        match token_at(s, i) {
            Some((item, e)) => if i < e <= s.len() {
                seq![item] + items_from(s, e)
            } else {
                seq![]
            },
            None => {
                let j = code_end(s, i + 1);
                if i < j <= s.len() {
                    seq![ItemSpec::Code(s.subrange(i, j))] + items_from(s, j)
                } else {
                    seq![]
                }
            },
        }
    } else {
        seq![]
    }
}

/// The items of a fragment body.
pub open spec fn parse_spec(s: Seq<char>) -> Seq<ItemSpec> {
    items_from(s, 0)
}

/// The identifier that an item refers to, if it is a reference.
pub open spec fn item_identifier(item: ItemSpec) -> Option<Seq<char>> {
    match item {
        ItemSpec::Code(_) => None,
        ItemSpec::Reference(reference) => Some(reference.identifier),
        ItemSpec::Indented { reference, .. } => Some(reference.identifier),
    }
}

/// The identifiers that the items refer to, in the order of the items.
pub open spec fn dependencies_of(items: Seq<ItemSpec>) -> Seq<Seq<char>>
    decreases items.len(),
{
    if items.len() == 0 {
        seq![]
    } else {
        let rest = dependencies_of(items.drop_last());
        match item_identifier(items.last()) {
            Some(identifier) => rest.push(identifier),
            None => rest,
        }
    }
}

} // verus!
