//! What weaving means: the text that a fragment body expands to, given the
//! snippet store and a stack of parameter scopes.
//!
//! A reference is resolved in this order: the innermost scope, then the
//! snippet store, then the outer scopes from the inside out. A parameter
//! bound to a literal gives that literal; one bound to another fragment
//! gives that fragment, expanded with the parameters bound along with it.
//! What the store gives is parsed and expanded in turn, under a new scope
//! that holds the parameters of the referring site.

use crate::grammar::{parse_spec, AttributeSpec, ItemSpec, ReferenceSpec};
use crate::snippets::SnippetSpec;
use crate::text::{join, lines};
use vstd::prelude::*;

verus! {

/// What a parameter is bound to.
pub enum ParamSpec {
    /// A literal text.
    Value(Seq<char>),
    /// Another fragment, with the parameters given along with it.
    Alias { target: Seq<char>, params: Seq<BindingSpec> },
}

/// One parameter binding of a scope. Within a scope a later binding of a
/// key hides an earlier one.
pub struct BindingSpec {
    pub key: Seq<char>,
    pub value: ParamSpec,
}

/// What went wrong while a body was woven. None of these stops the weaver:
/// the reference in question expands to nothing.
pub enum WarningSpec {
    /// Neither a scope nor the store knows the identifier.
    Unresolved(Seq<char>),
    /// A parameter is bound to the fragment of its own name.
    SelfReference(Seq<char>),
    /// The expansion nests deeper than the weaver follows it.
    TooDeep(Seq<char>),
}

/// The outcome of weaving: the text, and the warnings in the order in which
/// they arose.
pub struct Woven {
    pub text: Seq<char>,
    pub warnings: Seq<WarningSpec>,
}

impl Woven {
    pub open spec fn empty() -> Woven {
        Woven { text: seq![], warnings: seq![] }
    }

    pub open spec fn of_text(text: Seq<char>) -> Woven {
        Woven { text, warnings: seq![] }
    }

    pub open spec fn of_warning(warning: WarningSpec) -> Woven {
        Woven { text: seq![], warnings: seq![warning] }
    }

    /// This outcome followed by `next`.
    pub open spec fn followed_by(self, next: Woven) -> Woven {
        Woven { text: self.text + next.text, warnings: self.warnings + next.warnings }
    }
}

/// How deep the weaver follows nested expansions in any store.
pub const MAX_DEPTH: usize = 64;

/// How deep the weaver follows nested expansions in a store: one level
/// for each name that the store knows, and `MAX_DEPTH` more, as far as
/// the machine can count. A chain of references that reaches no name
/// twice is shorter than that.
pub open spec fn depth_limit(store: Map<Seq<char>, SnippetSpec>) -> nat {
    if store.dom().finite() && store.dom().len() + MAX_DEPTH <= usize::MAX {
        store.dom().len() + MAX_DEPTH as nat
    } else if store.dom().finite() {
        usize::MAX as nat
    } else {
        MAX_DEPTH as nat
    }
}

/// The binding of `id` in a scope: the last one, if there are several.
pub open spec fn lookup(scope: Seq<BindingSpec>, id: Seq<char>) -> Option<ParamSpec>
    decreases scope.len(),
{
    if scope.len() == 0 {
        None
    } else if scope.last().key == id {
        Some(scope.last().value)
    } else {
        lookup(scope.drop_last(), id)
    }
}

/// The binding of `id` in the innermost scope that binds it, with the
/// index of that scope.
pub open spec fn lookup_stack(scopes: Seq<Seq<BindingSpec>>, id: Seq<char>) -> Option<
    (int, ParamSpec),
>
    decreases scopes.len(),
{
    if scopes.len() == 0 {
        None
    } else {
        match lookup(scopes.last(), id) {
            Some(param) => Some((scopes.len() - 1, param)),
            None => lookup_stack(scopes.drop_last(), id),
        }
    }
}

/// The parameters that the attributes from index `i` on bind, in their
/// order. A literal binds its text. A reference binds what its identifier
/// is bound to in the scopes at hand, if it is bound there; else it binds
/// the fragment of that name, with the parameters of that reference.
pub open spec fn capture_from(
    attributes: Seq<AttributeSpec>,
    i: int,
    scopes: Seq<Seq<BindingSpec>>,
) -> Seq<BindingSpec>
    decreases attributes, attributes.len() - i,
{
    if 0 <= i < attributes.len() {
        let rest = capture_from(attributes, i + 1, scopes);
        match attributes[i] {
            AttributeSpec::Plain { .. } => rest,
            AttributeSpec::Literal { key, value } => seq![
                BindingSpec { key, value: ParamSpec::Value(value) },
            ] + rest,
            AttributeSpec::Nested { key, reference } => {
                let value = match lookup_stack(scopes, reference.identifier) {
                    Some((_, param)) => param,
                    None => ParamSpec::Alias {
                        target: reference.identifier,
                        params: capture_from(reference.attributes, 0, scopes),
                    },
                };
                seq![BindingSpec { key, value }] + rest
            },
        }
    } else {
        seq![]
    }
}

/// The scope that a reference with these attributes opens.
pub open spec fn capture(attributes: Seq<AttributeSpec>, scopes: Seq<Seq<BindingSpec>>) -> Seq<
    BindingSpec,
> {
    capture_from(attributes, 0, scopes)
}

/// The key of the attribute that names the separator.
pub open spec fn join_key() -> Seq<char> {
    seq!['j', 'o', 'i', 'n']
}

/// `s` from position `i` on with `\n`, `\t` and `\\` decoded; any other
/// backslash stands for itself.
pub open spec fn unescape_from(s: Seq<char>, i: int) -> Seq<char>
    decreases s.len() - i,
{
    if 0 <= i < s.len() {
        if s[i] == '\\' && i + 1 < s.len() && s[i + 1] == 'n' {
            seq!['\n'] + unescape_from(s, i + 2)
        } else if s[i] == '\\' && i + 1 < s.len() && s[i + 1] == 't' {
            seq!['\t'] + unescape_from(s, i + 2)
        } else if s[i] == '\\' && i + 1 < s.len() && s[i + 1] == '\\' {
            seq!['\\'] + unescape_from(s, i + 2)
        } else {
            seq![s[i]] + unescape_from(s, i + 1)
        }
    } else {
        seq![]
    }
}

/// The separator that the attributes from index `i` on name: the decoded
/// value of the first `join`, or a line feed.
pub open spec fn join_from(attributes: Seq<AttributeSpec>, i: int) -> Seq<char>
    decreases attributes.len() - i,
{
    if 0 <= i < attributes.len() {
        match attributes[i] {
            AttributeSpec::Plain { key, value } => if key == join_key() {
                unescape_from(value, 0)
            } else {
                join_from(attributes, i + 1)
            },
            _ => join_from(attributes, i + 1),
        }
    } else {
        seq!['\n']
    }
}

/// The separator between the contributions that a reference asks for.
pub open spec fn join_of(reference: ReferenceSpec) -> Seq<char> {
    join_from(reference.attributes, 0)
}

/// Each of the lines on a line of its own, behind the indentation.
pub open spec fn indent_lines(rows: Seq<Seq<char>>, indentation: Seq<char>) -> Seq<char>
    decreases rows.len(),
{
    if rows.len() == 0 {
        seq![]
    } else {
        indent_lines(rows.drop_last(), indentation) + seq!['\n'] + indentation + rows.last()
    }
}

/// The text with each of its lines on a line of its own, behind the
/// indentation.
pub open spec fn indent_text(text: Seq<char>, indentation: Seq<char>) -> Seq<char> {
    indent_lines(lines(text), indentation)
}

/// Where `id` is bound at a site: in the innermost scope, or, if the store
/// does not know `id`, in the nearest outer scope that binds it.
pub open spec fn binding_of(
    id: Seq<char>,
    store: Map<Seq<char>, SnippetSpec>,
    scopes: Seq<Seq<BindingSpec>>,
) -> Option<(int, ParamSpec)> {
    if scopes.len() == 0 {
        None
    } else {
        match lookup(scopes.last(), id) {
            Some(param) => Some((scopes.len() - 1, param)),
            None => if store.contains_key(id) {
                None
            } else {
                lookup_stack(scopes.drop_last(), id)
            },
        }
    }
}

/// What the items expand to, one after the other.
pub open spec fn expand_items(
    items: Seq<ItemSpec>,
    store: Map<Seq<char>, SnippetSpec>,
    scopes: Seq<Seq<BindingSpec>>,
    fuel: nat,
) -> Woven
    decreases fuel, 2nat, items.len(),
{
    if items.len() == 0 {
        Woven::empty()
    } else {
        expand_items(items.drop_last(), store, scopes, fuel).followed_by(
            expand_item(items.last(), store, scopes, fuel),
        )
    }
}

/// What one item expands to: code to itself, a reference to what it
/// resolves to, an indented reference to the lines of what it resolves to,
/// each behind the indentation.
pub open spec fn expand_item(
    item: ItemSpec,
    store: Map<Seq<char>, SnippetSpec>,
    scopes: Seq<Seq<BindingSpec>>,
    fuel: nat,
) -> Woven
    decreases fuel, 1nat, 0nat,
{
    match item {
        ItemSpec::Code(text) => Woven::of_text(text),
        ItemSpec::Reference(reference) => resolve(
            reference.identifier,
            reference,
            store,
            scopes,
            fuel,
        ),
        ItemSpec::Indented { indentation, reference } => {
            let woven = resolve(reference.identifier, reference, store, scopes, fuel);
            Woven { text: indent_text(woven.text, indentation), warnings: woven.warnings }
        },
    }
}

/// What the identifier `id` resolves to at the reference `site`.
pub open spec fn resolve(
    id: Seq<char>,
    site: ReferenceSpec,
    store: Map<Seq<char>, SnippetSpec>,
    scopes: Seq<Seq<BindingSpec>>,
    fuel: nat,
) -> Woven
    decreases fuel, 0nat, 0nat,
{
    if fuel == 0 {
        Woven::of_warning(WarningSpec::TooDeep(id))
    } else {
        match binding_of(id, store, scopes) {
            Some((_, ParamSpec::Value(text))) => Woven::of_text(text),
            Some((level, ParamSpec::Alias { target, params })) => if target == id {
                Woven::of_warning(WarningSpec::SelfReference(id))
            } else if 0 <= level < scopes.len() {
                resolve(
                    target,
                    site,
                    store,
                    scopes.take(level).push(scopes[level] + params),
                    (fuel - 1) as nat,
                )
            } else {
                Woven::empty()
            },
            None => if store.contains_key(id) {
                let input = join(store[id].raw_parts(), join_of(site));
                if store[id].raw {
                    Woven::of_text(input)
                } else {
                    expand_items(
                        parse_spec(input),
                        store,
                        scopes.push(capture(site.attributes, scopes)),
                        (fuel - 1) as nat,
                    )
                }
            } else {
                Woven::of_warning(WarningSpec::Unresolved(id))
            },
        }
    }
}

/// What a fragment body is woven to: its items expanded under one empty
/// scope.
pub open spec fn weave(input: Seq<char>, store: Map<Seq<char>, SnippetSpec>) -> Woven {
    expand_items(parse_spec(input), store, seq![seq![]], depth_limit(store))
}

} // verus!
