//! The parser for fragment bodies: executable code that follows the grammar
//! of [`crate::grammar`] character by character.

use crate::grammar::{
    attribute_at, attributes_at, code_end, dependencies_of, find_char, has_line_feed,
    items_from, pair_at, parse_spec, quoted_at, reference_at, run_end, token_at, AttributeSpec,
    CharClass, ItemSpec, ReferenceSpec,
};
use crate::text::{push_char, to_chars, views};
use vstd::prelude::*;

verus! {

/// A reference `<<identifier | attributes>>`.
#[derive(Debug)]
pub struct Reference {
    pub identifier: String,
    pub attributes: Vec<Attribute>,
}

/// One item of a reference's attribute list.
#[derive(Debug)]
pub enum Attribute {
    Plain { key: String, value: String },
    Literal { key: String, value: String },
    Nested { key: String, reference: Reference },
}

/// One element of a parsed fragment body.
#[derive(Debug)]
pub enum Fragment {
    Code(String),
    Reference(Reference),
    Indented { indentation: String, reference: Reference },
}

/// The mathematical value of a reference.
pub open spec fn reference_view(r: Reference) -> ReferenceSpec
    decreases r,
{
    ReferenceSpec {
        identifier: r.identifier@,
        attributes: Seq::new(
            r.attributes@.len(),
            |i: int|
                if 0 <= i < r.attributes@.len() {
                    attribute_view(r.attributes@[i])
                } else {
                    arbitrary()
                },
        ),
    }
}

/// The mathematical value of an attribute.
pub open spec fn attribute_view(a: Attribute) -> AttributeSpec
    decreases a,
{
    match a {
        Attribute::Plain { key, value } => AttributeSpec::Plain { key: key@, value: value@ },
        Attribute::Literal { key, value } => AttributeSpec::Literal { key: key@, value: value@ },
        Attribute::Nested { key, reference } => AttributeSpec::Nested {
            key: key@,
            reference: reference_view(reference),
        },
    }
}

impl View for Reference {
    type V = ReferenceSpec;

    open spec fn view(&self) -> ReferenceSpec {
        reference_view(*self)
    }
}

impl View for Attribute {
    type V = AttributeSpec;

    open spec fn view(&self) -> AttributeSpec {
        attribute_view(*self)
    }
}

impl Reference {
    /// The attributes of the reference, read off the executable value.
    pub proof fn lemma_attributes(&self)
        ensures
            self@.identifier == self.identifier@,
            self@.attributes == attributes_view(self.attributes@),
    {
        assert(self@.attributes =~= attributes_view(self.attributes@));
    }
}

impl View for Fragment {
    type V = ItemSpec;

    open spec fn view(&self) -> ItemSpec {
        match self {
            Fragment::Code(text) => ItemSpec::Code(text@),
            Fragment::Reference(reference) => ItemSpec::Reference(reference@),
            Fragment::Indented { indentation, reference } => ItemSpec::Indented {
                indentation: indentation@,
                reference: reference@,
            },
        }
    }
}

/// The views of a sequence of attributes.
pub open spec fn attributes_view(s: Seq<Attribute>) -> Seq<AttributeSpec> {
    Seq::new(s.len(), |i: int| s[i]@)
}

/// The views of a sequence of fragments.
pub open spec fn fragments_view(s: Seq<Fragment>) -> Seq<ItemSpec> {
    Seq::new(s.len(), |i: int| s[i]@)
}

/// A run of characters of one class ends between its start and the end of
/// the text, and holds only characters of that class.
pub proof fn lemma_run_end(s: Seq<char>, i: int, class: CharClass)
    requires
        0 <= i <= s.len(),
    ensures
        i <= run_end(s, i, class) <= s.len(),
        forall|k: int| i <= k < run_end(s, i, class) ==> class.holds(#[trigger] s[k]),
        run_end(s, i, class) < s.len() ==> !class.holds(s[run_end(s, i, class)]),
    decreases s.len() - i,
{
    if i < s.len() && class.holds(s[i]) {
        lemma_run_end(s, i + 1, class);
    }
}

/// The search for a character ends between its start and the end of the
/// text, and passes over no occurrence.
pub proof fn lemma_find_char(s: Seq<char>, i: int, c: char)
    requires
        0 <= i <= s.len(),
    ensures
        i <= find_char(s, i, c) <= s.len(),
        forall|k: int| i <= k < find_char(s, i, c) ==> #[trigger] s[k] != c,
        find_char(s, i, c) < s.len() ==> s[find_char(s, i, c)] == c,
    decreases s.len() - i,
{
    if i < s.len() && s[i] != c {
        lemma_find_char(s, i + 1, c);
    }
}

fn in_class(c: char, class: CharClass) -> (r: bool)
    ensures
        r == class.holds(c),
{
    match class {
        CharClass::Identifier => ('a' <= c && c <= 'z') || ('A' <= c && c <= 'Z') || ('0' <= c
            && c <= '9') || c == '_' || c == '-',
        CharClass::Blank => c == ' ' || c == '\t',
        CharClass::Space => c == ' ' || c == '\t' || c == '\r' || c == '\n',
    }
}

fn scan(v: &Vec<char>, i: usize, class: CharClass) -> (j: usize)
    requires
        i <= v.len(),
    ensures
        j == run_end(v@, i as int, class),
        i <= j <= v.len(),
{
    let mut j: usize = i;
    while j < v.len() && in_class(v[j], class)
        invariant
            i <= j <= v.len(),
            run_end(v@, i as int, class) == run_end(v@, j as int, class),
        decreases v.len() - j,
    {
        j += 1;
    }
    j
}

fn find(v: &Vec<char>, i: usize, c: char) -> (j: usize)
    requires
        i <= v.len(),
    ensures
        j == find_char(v@, i as int, c),
        i <= j <= v.len(),
{
    let mut j: usize = i;
    while j < v.len() && v[j] != c
        invariant
            i <= j <= v.len(),
            find_char(v@, i as int, c) == find_char(v@, j as int, c),
        decreases v.len() - j,
    {
        j += 1;
    }
    j
}

fn pair(v: &Vec<char>, i: usize, c0: char, c1: char) -> (r: bool)
    requires
        i <= v.len(),
    ensures
        r == pair_at(v@, i as int, c0, c1),
{
    i < v.len() && v.len() - i >= 2 && v[i] == c0 && v[i + 1] == c1
}

fn line_feed_between(v: &Vec<char>, from: usize, to: usize) -> (r: bool)
    requires
        from <= to <= v.len(),
    ensures
        r == has_line_feed(v@, from as int, to as int),
{
    let mut k: usize = from;
    while k < to
        invariant
            from <= k <= to <= v.len(),
            forall|m: int| from <= m < k ==> v@[m] != '\n',
        decreases to - k,
    {
        if v[k] == '\n' {
            return true;
        }
        k += 1;
    }
    false
}

/// The characters `v[from..to]` as a string.
pub fn slice_string(v: &Vec<char>, from: usize, to: usize) -> (s: String)
    requires
        from <= to <= v.len(),
    ensures
        s@ == v@.subrange(from as int, to as int),
{
    let mut s = String::new();
    let mut k: usize = from;
    while k < to
        invariant
            from <= k <= to <= v.len(),
            s@ == v@.subrange(from as int, k as int),
        decreases to - k,
    {
        push_char(&mut s, v[k]);
        k += 1;
    }
    s
}

fn parse_quoted(v: &Vec<char>, i: usize) -> (r: Option<(String, usize)>)
    requires
        i <= v.len(),
    ensures
        match r {
            Some((text, e)) => quoted_at(v@, i as int) == Some((text@, e as int)) && i < e
                <= v.len(),
            None => quoted_at(v@, i as int).is_none(),
        },
{
    if i < v.len() && v[i] == '"' {
        let e = find(v, i + 1, '"');
        if e < v.len() {
            Some((slice_string(v, i + 1, e), e + 1))
        } else {
            None
        }
    } else {
        None
    }
}

fn parse_reference(v: &Vec<char>, i: usize) -> (r: Option<(Reference, usize)>)
    requires
        i <= v.len(),
    ensures
        match r {
            Some((reference, e)) => reference_at(v@, i as int) == Some((reference@, e as int))
                && i < e <= v.len(),
            None => reference_at(v@, i as int).is_none(),
        },
    decreases v.len() - i, 0nat,
{
    if !pair(v, i, '<', '<') {
        return None;
    }
    let a = i + 2;
    let b = scan(v, a, CharClass::Identifier);
    let c = scan(v, b, CharClass::Space);
    if b == a {
        None
    } else if pair(v, c, '>', '>') {
        let reference = Reference { identifier: slice_string(v, a, b), attributes: Vec::new() };
        assert(reference@.attributes =~= seq![]);
        Some((reference, c + 2))
    } else if c < v.len() && v[c] == '|' {
        let d = scan(v, c + 1, CharClass::Space);
        match parse_attributes(v, d) {
            Some((attributes, e)) => {
                let reference = Reference { identifier: slice_string(v, a, b), attributes };
                assert(reference@.attributes =~= attributes_view(attributes@));
                Some((reference, e))
            },
            None => None,
        }
    } else {
        None
    }
}

fn parse_attributes(v: &Vec<char>, i: usize) -> (r: Option<(Vec<Attribute>, usize)>)
    requires
        i <= v.len(),
    ensures
        match r {
            Some((attributes, e)) => attributes_at(v@, i as int) == Some(
                (attributes_view(attributes@), e as int),
            ) && i < e <= v.len(),
            None => attributes_at(v@, i as int).is_none(),
        },
    decreases v.len() - i, 2nat,
{
    match parse_attribute(v, i) {
        None => None,
        Some((attribute, j)) => {
            let k = scan(v, j, CharClass::Space);
            if pair(v, k, '>', '>') {
                let mut attributes: Vec<Attribute> = Vec::new();
                attributes.push(attribute);
                assert(attributes_view(attributes@) =~= seq![attribute@]);
                Some((attributes, k + 2))
            } else {
                let comma = k < v.len() && v[k] == ',';
                let m = if comma {
                    scan(v, k + 1, CharClass::Space)
                } else {
                    k
                };
                if comma || line_feed_between(v, j, k) {
                    match parse_attributes(v, m) {
                        Some((rest, e)) => {
                            let mut attributes: Vec<Attribute> = Vec::new();
                            attributes.push(attribute);
                            let mut rest = rest;
                            let ghost old_rest = rest@;
                            attributes.append(&mut rest);
                            assert(attributes_view(attributes@) =~= seq![attribute@]
                                + attributes_view(old_rest));
                            Some((attributes, e))
                        },
                        None => None,
                    }
                } else {
                    None
                }
            }
        },
    }
}

fn parse_attribute(v: &Vec<char>, i: usize) -> (r: Option<(Attribute, usize)>)
    requires
        i <= v.len(),
    ensures
        match r {
            Some((attribute, e)) => attribute_at(v@, i as int) == Some((attribute@, e as int))
                && i < e <= v.len(),
            None => attribute_at(v@, i as int).is_none(),
        },
    decreases v.len() - i, 1nat,
{
    let b = scan(v, i, CharClass::Identifier);
    let c = scan(v, b, CharClass::Space);
    if b <= i {
        None
    } else if pair(v, c, ':', '=') {
        let d = scan(v, c + 2, CharClass::Space);
        if d < v.len() && v[d] == '"' {
            match parse_quoted(v, d) {
                Some((value, e)) => Some(
                    (Attribute::Literal { key: slice_string(v, i, b), value }, e),
                ),
                None => None,
            }
        } else {
            match parse_reference(v, d) {
                Some((reference, e)) => Some(
                    (Attribute::Nested { key: slice_string(v, i, b), reference }, e),
                ),
                None => None,
            }
        }
    } else if c < v.len() && v[c] == '=' {
        let d = scan(v, c + 1, CharClass::Space);
        match parse_quoted(v, d) {
            Some((value, e)) => Some((Attribute::Plain { key: slice_string(v, i, b), value }, e)),
            None => None,
        }
    } else {
        None
    }
}

fn parse_token(v: &Vec<char>, i: usize) -> (r: Option<(Fragment, usize)>)
    requires
        i <= v.len(),
    ensures
        match r {
            Some((fragment, e)) => token_at(v@, i as int) == Some((fragment@, e as int)) && i < e
                <= v.len(),
            None => token_at(v@, i as int).is_none(),
        },
{
    if i < v.len() && v[i] == '\n' {
        let b = scan(v, i + 1, CharClass::Blank);
        if b > i + 1 {
            match parse_reference(v, b) {
                Some((reference, e)) => {
                    return Some(
                        (Fragment::Indented { indentation: slice_string(v, i + 1, b), reference }, e),
                    );
                },
                None => {},
            }
        }
    }
    match parse_reference(v, i) {
        Some((reference, e)) => Some((Fragment::Reference(reference), e)),
        None => None,
    }
}

/// The parser of fragment bodies.
pub struct CodeblockParser;

impl CodeblockParser {
    /// Parses the characters of a fragment body into its items.
    pub fn parse_chars(v: &Vec<char>) -> (out: Vec<Fragment>)
        ensures
            fragments_view(out@) == parse_spec(v@),
    {
        let mut out: Vec<Fragment> = Vec::new();
        let mut i: usize = 0;
        while i < v.len()
            invariant
                i <= v.len(),
                fragments_view(out@) + items_from(v@, i as int) == parse_spec(v@),
            decreases v.len() - i,
        {
            let ghost before = fragments_view(out@);
            match parse_token(v, i) {
                Some((fragment, e)) => {
                    out.push(fragment);
                    assert(fragments_view(out@) =~= before.push(fragment@));
                    assert(before.push(fragment@) + items_from(v@, e as int) =~= before
                        + items_from(v@, i as int));
                    i = e;
                },
                None => {
                    let mut j: usize = i + 1;
                    let mut more = true;
                    while more && j < v.len()
                        invariant
                            i < j <= v.len(),
                            code_end(v@, i as int + 1) == code_end(v@, j as int),
                            !more ==> code_end(v@, j as int) == j,
                        decreases v.len() - j, if more { 1nat } else { 0nat },
                    {
                        match parse_token(v, j) {
                            Some(_) => {
                                more = false;
                            },
                            None => {
                                j += 1;
                            },
                        }
                    }
                    let fragment = Fragment::Code(slice_string(v, i, j));
                    out.push(fragment);
                    assert(fragments_view(out@) =~= before.push(fragment@));
                    assert(before.push(fragment@) + items_from(v@, j as int) =~= before
                        + items_from(v@, i as int));
                    i = j;
                },
            }
        }
        assert(items_from(v@, i as int) =~= seq![]);
        assert(fragments_view(out@) + items_from(v@, i as int) =~= fragments_view(out@));
        out
    }

    /// Parses a fragment body into its items.
    pub fn parse(input: &str) -> (out: Vec<Fragment>)
        ensures
            fragments_view(out@) == parse_spec(input@),
    {
        let v = to_chars(input);
        Self::parse_chars(&v)
    }
}

/// The identifiers of the fragments that a body refers to, in the order of
/// their references.
pub fn get_dependencies(input: &str) -> (ids: Vec<String>)
    ensures
        views(ids@) == dependencies_of(parse_spec(input@)),
{
    let fragments = CodeblockParser::parse(input);
    let mut ids: Vec<String> = Vec::new();
    let mut i: usize = 0;
    while i < fragments.len()
        invariant
            i <= fragments.len(),
            views(ids@) == dependencies_of(fragments_view(fragments@).take(i as int)),
        decreases fragments.len() - i,
    {
        let ghost before = views(ids@);
        assert(fragments_view(fragments@).take(i as int + 1).drop_last() =~= fragments_view(
            fragments@,
        ).take(i as int));
        match &fragments[i] {
            Fragment::Code(_) => {},
            Fragment::Reference(reference) => {
                ids.push(reference.identifier.clone());
                assert(views(ids@) =~= before.push(reference.identifier@));
            },
            Fragment::Indented { reference, .. } => {
                ids.push(reference.identifier.clone());
                assert(views(ids@) =~= before.push(reference.identifier@));
            },
        }
        i += 1;
    }
    assert(fragments_view(fragments@).take(i as int) =~= fragments_view(fragments@));
    ids
}

} // verus!
