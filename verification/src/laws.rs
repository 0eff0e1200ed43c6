//! What holds of the weaver whatever the document: laws that relate the
//! functions of this library to each other.

use crate::codeblock_parser::{lemma_find_char, lemma_run_end};
use crate::dispatch::{actions_of, later_actions, woven_snippet, ActionSpec};
use crate::grammar::{
    attribute_at, attributes_at, code_end, find_char, is_identifier_char, items_from, pair_at,
    parse_spec, quoted_at, reference_at, run_end, token_at, AttributeSpec, CharClass, ItemSpec,
    ReferenceSpec,
};
use crate::lisi::{
    about, asked, comes_after, done_along, gave_up, handled, is_prefix, no_pipe, outcome, passed,
    performed, planned, refused, respects, stopped, store_along, taken, with_children,
    with_dependencies, with_snippet, within, Error, Report,
};
use crate::planner::{blocked, empty_plan, with_dependency, with_element};
use crate::snippets::{KindSpec, SnippetSpec};
use crate::text::{join, lemma_line_end, line_end, lines, lines_from, strip_cr, views};
use crate::util::{Cache, Environment};
use crate::weave::{
    binding_of, capture, capture_from, depth_limit, expand_item, expand_items, indent_lines,
    indent_text, join_from, join_key, join_of, lookup, lookup_stack, resolve, unescape_from,
    weave, BindingSpec, ParamSpec, WarningSpec, Woven,
};
use vstd::prelude::*;

verus! {

/// Whether every item is code or a plain reference to a raw snippet of the
/// store.
pub open spec fn refers_to_raw(items: Seq<ItemSpec>, store: Map<Seq<char>, SnippetSpec>) -> bool {
    forall|i: int|
        0 <= i < items.len() ==> match #[trigger] items[i] {
            ItemSpec::Code(_) => true,
            ItemSpec::Reference(reference) => store.contains_key(reference.identifier)
                && store[reference.identifier].raw,
            ItemSpec::Indented { .. } => false,
        }
}

/// The items with each reference replaced by the contributions of its
/// target, joined by the separator that the reference names.
pub open spec fn substituted(items: Seq<ItemSpec>, store: Map<Seq<char>, SnippetSpec>) -> Seq<char>
    decreases items.len(),
{
    if items.len() == 0 {
        seq![]
    } else {
        substituted(items.drop_last(), store) + match items.last() {
            ItemSpec::Code(text) => text,
            ItemSpec::Reference(reference) => join(
                store[reference.identifier].raw_parts(),
                join_of(reference),
            ),
            ItemSpec::Indented { .. } => seq![],
        }
    }
}

/// Where a body holds only code and plain references to raw snippets, the
/// woven text is the body with each reference replaced by the
/// contributions of its target, joined by the separator of the reference;
/// and nothing is warned of.
pub proof fn lemma_raw_substitution(
    items: Seq<ItemSpec>,
    store: Map<Seq<char>, SnippetSpec>,
    scopes: Seq<Seq<BindingSpec>>,
    fuel: nat,
)
    requires
        fuel > 0,
        refers_to_raw(items, store),
        scopes.len() == 0 || scopes.last().len() == 0,
    ensures
        expand_items(items, store, scopes, fuel).text == substituted(items, store),
        expand_items(items, store, scopes, fuel).warnings == Seq::<WarningSpec>::empty(),
    decreases items.len(),
{
    if items.len() > 0 {
        let init = items.drop_last();
        assert forall|i: int| 0 <= i < init.len() implies match #[trigger] init[i] {
            ItemSpec::Code(_) => true,
            ItemSpec::Reference(reference) => store.contains_key(reference.identifier)
                && store[reference.identifier].raw,
            ItemSpec::Indented { .. } => false,
        } by {
            assert(init[i] == items[i]);
        }
        lemma_raw_substitution(init, store, scopes, fuel);
        let last = items.last();
        assert(last == items[items.len() - 1]);
        let step = expand_item(last, store, scopes, fuel);
        match last {
            ItemSpec::Code(text) => {
                assert(step == Woven::of_text(text));
            },
            ItemSpec::Reference(reference) => {
                if scopes.len() > 0 {
                    assert(lookup(scopes.last(), reference.identifier).is_none());
                }
                assert(binding_of(reference.identifier, store, scopes).is_none());
                assert(step == resolve(reference.identifier, reference, store, scopes, fuel));
                assert(step == Woven::of_text(
                    join(store[reference.identifier].raw_parts(), join_of(reference)),
                ));
            },
            ItemSpec::Indented { .. } => {},
        }
        let done = expand_items(init, store, scopes, fuel);
        assert(expand_items(items, store, scopes, fuel) == done.followed_by(step));
        assert(done.followed_by(step).warnings =~= Seq::<WarningSpec>::empty());
    }
}

/// The law above, of a whole body.
pub proof fn lemma_weave_raw(input: Seq<char>, store: Map<Seq<char>, SnippetSpec>)
    requires
        refers_to_raw(parse_spec(input), store),
    ensures
        weave(input, store).text == substituted(parse_spec(input), store),
{
    lemma_raw_substitution(parse_spec(input), store, seq![seq![]], depth_limit(store));
}

/// Whether every item is code.
pub open spec fn all_code(items: Seq<ItemSpec>) -> bool {
    forall|i: int| 0 <= i < items.len() ==> #[trigger] items[i] is Code
}

/// The first token at or after a position stands where the code before it
/// ends.
pub proof fn lemma_code_end(s: Seq<char>, i: int)
    requires
        0 <= i <= s.len(),
    ensures
        i <= code_end(s, i) <= s.len(),
        code_end(s, i) < s.len() ==> token_at(s, code_end(s, i)).is_some(),
    decreases s.len() - i,
{
    if i < s.len() && token_at(s, i).is_none() {
        lemma_code_end(s, i + 1);
    }
}

/// A text whose items are all code is one run of code, which is the text.
pub proof fn lemma_code_only(s: Seq<char>, i: int)
    requires
        0 <= i <= s.len(),
        all_code(items_from(s, i)),
    ensures
        items_from(s, i) == if i < s.len() {
            seq![ItemSpec::Code(s.subrange(i, s.len() as int))]
        } else {
            Seq::<ItemSpec>::empty()
        },
{
    let items = items_from(s, i);
    if i < s.len() {
        if token_at(s, i).is_some() {
            lemma_token_advances(s, i);
            assert(items[0] == token_at(s, i).unwrap().0);
            assert(items[0] is Code);
        } else {
            lemma_code_end(s, i + 1);
            let j = code_end(s, i + 1);
            if j < s.len() {
                lemma_token_advances(s, j);
                assert(items_from(s, j)[0] == token_at(s, j).unwrap().0);
                assert(items[1] == items_from(s, j)[0]);
                assert(items[1] is Code);
            } else {
                assert(items_from(s, j) =~= Seq::<ItemSpec>::empty());
                assert(items =~= seq![ItemSpec::Code(s.subrange(i, s.len() as int))]);
            }
        }
    } else {
        assert(items =~= Seq::<ItemSpec>::empty());
    }
}

/// A token ends behind its start and within the text, and is no code.
pub proof fn lemma_token_advances(s: Seq<char>, i: int)
    requires
        0 <= i <= s.len(),
        token_at(s, i).is_some(),
    ensures
        i < token_at(s, i).unwrap().1 <= s.len(),
        !(token_at(s, i).unwrap().0 is Code),
{
    let b = run_end(s, i + 1, CharClass::Blank);
    if i < s.len() {
        lemma_run_end(s, i + 1, CharClass::Blank);
        if reference_at(s, b).is_some() {
            lemma_reference_end(s, b);
        }
    }
    if reference_at(s, i).is_some() {
        lemma_reference_end(s, i);
    }
}

/// A reference ends behind its start and within the text.
pub proof fn lemma_reference_end(s: Seq<char>, i: int)
    requires
        0 <= i <= s.len(),
        reference_at(s, i).is_some(),
    ensures
        i < reference_at(s, i).unwrap().1 <= s.len(),
    decreases s.len() - i, 0nat,
{
    let a = i + 2;
    lemma_run_end(s, a, CharClass::Identifier);
    let b = run_end(s, a, CharClass::Identifier);
    lemma_run_end(s, b, CharClass::Space);
    let c = run_end(s, b, CharClass::Space);
    if !pair_at(s, c, '>', '>') {
        lemma_run_end(s, c + 1, CharClass::Space);
        let d = run_end(s, c + 1, CharClass::Space);
        lemma_attributes_end(s, d);
    }
}

/// An attribute list ends behind its start and within the text.
pub proof fn lemma_attributes_end(s: Seq<char>, i: int)
    requires
        0 <= i <= s.len(),
        attributes_at(s, i).is_some(),
    ensures
        i < attributes_at(s, i).unwrap().1 <= s.len(),
    decreases s.len() - i, 2nat,
{
    lemma_attribute_end(s, i);
    let (attribute, j) = attribute_at(s, i).unwrap();
    lemma_run_end(s, j, CharClass::Space);
    let k = run_end(s, j, CharClass::Space);
    if !pair_at(s, k, '>', '>') {
        if k < s.len() && s[k] == ',' {
            lemma_run_end(s, k + 1, CharClass::Space);
        }
        let m = if 0 <= k < s.len() && s[k] == ',' {
            run_end(s, k + 1, CharClass::Space)
        } else {
            k
        };
        lemma_attributes_end(s, m);
    }
}

/// An attribute ends behind its start and within the text.
pub proof fn lemma_attribute_end(s: Seq<char>, i: int)
    requires
        0 <= i <= s.len(),
        attribute_at(s, i).is_some(),
    ensures
        i < attribute_at(s, i).unwrap().1 <= s.len(),
    decreases s.len() - i, 1nat,
{
    lemma_run_end(s, i, CharClass::Identifier);
    let b = run_end(s, i, CharClass::Identifier);
    lemma_run_end(s, b, CharClass::Space);
    let c = run_end(s, b, CharClass::Space);
    if pair_at(s, c, ':', '=') {
        lemma_run_end(s, c + 2, CharClass::Space);
        let d = run_end(s, c + 2, CharClass::Space);
        if 0 <= d < s.len() && s[d] == '"' {
            lemma_find_char(s, d + 1, '"');
        } else {
            lemma_reference_end(s, d);
        }
    } else {
        lemma_run_end(s, c + 1, CharClass::Space);
        let d = run_end(s, c + 1, CharClass::Space);
        if 0 <= d < s.len() {
            lemma_find_char(s, d + 1, '"');
        }
    }
}

/// Where the store knows a name that no scope at hand binds, and its
/// snippet is raw or holds nothing but code, a reference to the name
/// expands to the contributions of the snippet in document order, each two
/// separated by the separator that the reference names.
pub proof fn lemma_contributions_joined(
    id: Seq<char>,
    site: ReferenceSpec,
    store: Map<Seq<char>, SnippetSpec>,
    scopes: Seq<Seq<BindingSpec>>,
    fuel: nat,
)
    requires
        fuel > 0,
        store.contains_key(id),
        binding_of(id, store, scopes).is_none(),
        store[id].raw || all_code(parse_spec(join(store[id].raw_parts(), join_of(site)))),
    ensures
        resolve(id, site, store, scopes, fuel).text == join(
            store[id].raw_parts(),
            join_of(site),
        ),
{
    let input = join(store[id].raw_parts(), join_of(site));
    if !store[id].raw {
        lemma_code_only(input, 0);
        let inner = scopes.push(capture(site.attributes, scopes));
        let items = parse_spec(input);
        let rest = (fuel - 1) as nat;
        if input.len() > 0 {
            assert(items.len() == 1);
            assert(items.drop_last() =~= Seq::<ItemSpec>::empty());
            assert(items.last() == ItemSpec::Code(input.subrange(0, input.len() as int)));
            assert(input.subrange(0, input.len() as int) =~= input);
            assert(expand_items(items.drop_last(), store, inner, rest) == Woven::empty());
            assert(expand_item(items.last(), store, inner, rest) == Woven::of_text(input));
            assert(expand_items(items, store, inner, rest) == Woven::empty().followed_by(
                Woven::of_text(input),
            ));
            assert(expand_items(items, store, inner, rest).text =~= input);
        } else {
            assert(items.len() == 0);
            assert(expand_items(items, store, inner, rest).text =~= input);
        }
    }
}

/// No line holds a line feed.
pub proof fn lemma_lines_without_feed(s: Seq<char>, i: int)
    requires
        0 <= i <= s.len(),
    ensures
        forall|k: int, m: int|
            0 <= k < lines_from(s, i).len() && 0 <= m < lines_from(s, i)[k].len()
                ==> #[trigger] lines_from(s, i)[k][m] != '\n',
    decreases s.len() - i,
{
    if i < s.len() {
        lemma_line_end(s, i);
        let e = line_end(s, i);
        if e < s.len() {
            lemma_lines_without_feed(s, e + 1);
            let first = strip_cr(s.subrange(i, e));
            let rest = lines_from(s, e + 1);
            assert forall|k: int, m: int|
                0 <= k < lines_from(s, i).len() && 0 <= m < lines_from(s, i)[k].len()
                    implies #[trigger] lines_from(s, i)[k][m] != '\n' by {
                if k == 0 {
                    assert(lines_from(s, i)[0] == first);
                    assert(first[m] == s[i + m]);
                } else {
                    assert(lines_from(s, i)[k] == rest[k - 1]);
                }
            }
        } else {
            assert forall|k: int, m: int|
                0 <= k < lines_from(s, i).len() && 0 <= m < lines_from(s, i)[k].len()
                    implies #[trigger] lines_from(s, i)[k][m] != '\n' by {
                assert(lines_from(s, i)[0][m] == s[i + m]);
            }
        }
    }
}

/// Whether every line feed of the text is followed by the indentation.
pub open spec fn indented_by(text: Seq<char>, indentation: Seq<char>) -> bool {
    forall|k: int|
        0 <= k < text.len() && #[trigger] text[k] == '\n' ==> k + 1 + indentation.len()
            <= text.len() && text.subrange(k + 1, k + 1 + indentation.len()) == indentation
}

/// Lines without line feeds, each put on a line of its own behind an
/// indentation without line feeds: every line of the outcome starts with
/// that indentation.
pub proof fn lemma_indent_lines(rows: Seq<Seq<char>>, indentation: Seq<char>)
    requires
        forall|k: int, m: int|
            0 <= k < rows.len() && 0 <= m < rows[k].len() ==> #[trigger] rows[k][m] != '\n',
        forall|m: int| 0 <= m < indentation.len() ==> indentation[m] != '\n',
    ensures
        indented_by(indent_lines(rows, indentation), indentation),
        rows.len() > 0 ==> indent_lines(rows, indentation).len() > 0 && indent_lines(
            rows,
            indentation,
        )[0] == '\n',
    decreases rows.len(),
{
    if rows.len() > 0 {
        let init = rows.drop_last();
        assert forall|k: int, m: int|
            0 <= k < init.len() && 0 <= m < init[k].len() implies #[trigger] init[k][m]
            != '\n' by {
            assert(init[k] == rows[k]);
        }
        lemma_indent_lines(init, indentation);
        let before = indent_lines(init, indentation);
        let out = indent_lines(rows, indentation);
        let last = rows.last();
        assert(out =~= before + seq!['\n'] + indentation + last);
        assert forall|k: int| 0 <= k < out.len() && #[trigger] out[k] == '\n' implies k + 1
            + indentation.len() <= out.len() && out.subrange(k + 1, k + 1 + indentation.len())
            == indentation by {
            if k < before.len() {
                assert(before[k] == '\n');
                assert(before.subrange(k + 1, k + 1 + indentation.len()) == indentation);
                assert(out.subrange(k + 1, k + 1 + indentation.len()) =~= before.subrange(
                    k + 1,
                    k + 1 + indentation.len(),
                ));
            } else if k == before.len() {
                assert(out.subrange(k + 1, k + 1 + indentation.len()) =~= indentation);
            } else if k < before.len() + 1 + indentation.len() {
                assert(out[k] == indentation[k - before.len() - 1]);
            } else {
                let m = k - before.len() - 1 - indentation.len();
                assert(out[k] == last[m]);
                assert(rows[rows.len() - 1][m] != '\n');
            }
        }
        if init.len() == 0 {
            assert(before =~= Seq::<char>::empty());
            assert(out[0] == '\n');
        } else {
            assert(out[0] == before[0]);
        }
    }
}

/// Every line of what an indented reference expands to starts with the
/// indentation of the reference.
pub proof fn lemma_indentation_kept(text: Seq<char>, indentation: Seq<char>)
    requires
        forall|m: int| 0 <= m < indentation.len() ==> indentation[m] != '\n',
    ensures
        indented_by(indent_text(text, indentation), indentation),
{
    lemma_lines_without_feed(text, 0);
    lemma_indent_lines(lines(text), indentation);
}

/// The indentation of an indented reference is made of blanks.
pub proof fn lemma_indentation_is_blank(s: Seq<char>, i: int)
    requires
        0 <= i < s.len(),
        token_at(s, i) matches Some((ItemSpec::Indented { .. }, _)),
    ensures
        token_at(s, i) matches Some((ItemSpec::Indented { indentation, .. }, _)) && forall|m: int|
            0 <= m < indentation.len() ==> crate::grammar::is_blank(#[trigger] indentation[m]),
{
    lemma_run_end(s, i + 1, CharClass::Blank);
    let b = run_end(s, i + 1, CharClass::Blank);
    let indentation = s.subrange(i + 1, b);
    assert forall|m: int| 0 <= m < indentation.len() implies crate::grammar::is_blank(
        #[trigger] indentation[m],
    ) by {
        assert(CharClass::Blank.holds(s[i + 1 + m]));
    }
}

/// Every line of what an indented reference of a parsed body expands to
/// starts with the indentation that stands before the reference.
pub proof fn lemma_indented_reference(
    s: Seq<char>,
    i: int,
    store: Map<Seq<char>, SnippetSpec>,
    scopes: Seq<Seq<BindingSpec>>,
    fuel: nat,
)
    requires
        0 <= i < s.len(),
        token_at(s, i) matches Some((ItemSpec::Indented { .. }, _)),
    ensures
        token_at(s, i) matches Some((ItemSpec::Indented { indentation, reference }, _))
            && indented_by(
            expand_item(ItemSpec::Indented { indentation, reference }, store, scopes, fuel).text,
            indentation,
        ),
{
    lemma_indentation_is_blank(s, i);
    let item = token_at(s, i).unwrap().0;
    match item {
        ItemSpec::Indented { indentation, reference } => {
            let woven = resolve(reference.identifier, reference, store, scopes, fuel);
            lemma_indentation_kept(woven.text, indentation);
        },
        _ => {},
    }
}

/// A parameter bound to a literal in the innermost scope gives that
/// literal, whatever the outer scopes and the store hold under its name.
pub proof fn lemma_innermost_binding(
    id: Seq<char>,
    value: Seq<char>,
    site: ReferenceSpec,
    store: Map<Seq<char>, SnippetSpec>,
    scopes: Seq<Seq<BindingSpec>>,
    fuel: nat,
)
    requires
        fuel > 0,
        scopes.len() > 0,
        lookup(scopes.last(), id) == Some(ParamSpec::Value(value)),
    ensures
        resolve(id, site, store, scopes, fuel) == Woven::of_text(value),
{
}

/// A literal that a reference binds to a key is what a reference to that
/// key gives within the expansion of the first: under the scope that the
/// first reference opens.
pub proof fn lemma_parameter_visible(
    key: Seq<char>,
    value: Seq<char>,
    inner: ReferenceSpec,
    store: Map<Seq<char>, SnippetSpec>,
    scopes: Seq<Seq<BindingSpec>>,
    fuel: nat,
)
    requires
        fuel > 0,
    ensures
        resolve(
            key,
            inner,
            store,
            scopes.push(
                crate::weave::capture(seq![crate::grammar::AttributeSpec::Literal { key, value }], scopes),
            ),
            fuel,
        ) == Woven::of_text(value),
{
    let attributes = seq![crate::grammar::AttributeSpec::Literal { key, value }];
    let scope = crate::weave::capture(attributes, scopes);
    assert(crate::weave::capture_from(attributes, 1, scopes) =~= Seq::<BindingSpec>::empty());
    assert(scope =~= seq![BindingSpec { key, value: ParamSpec::Value(value) }]);
    assert(scope.drop_last() =~= Seq::<BindingSpec>::empty());
    assert(lookup(scope, key) == Some(ParamSpec::Value(value)));
    let inside = scopes.push(scope);
    assert(inside.last() == scope);
    lemma_innermost_binding(key, value, inner, store, inside, fuel);
}

/// What two runs of items expand to, one after the other, is what the
/// items of both expand to under the same scopes: what a reference binds
/// is bound for its own expansion and for nothing that follows it.
pub proof fn lemma_expand_sequence(
    first: Seq<ItemSpec>,
    second: Seq<ItemSpec>,
    store: Map<Seq<char>, SnippetSpec>,
    scopes: Seq<Seq<BindingSpec>>,
    fuel: nat,
)
    ensures
        expand_items(first + second, store, scopes, fuel) == expand_items(
            first,
            store,
            scopes,
            fuel,
        ).followed_by(expand_items(second, store, scopes, fuel)),
    decreases second.len(),
{
    let whole = expand_items(first + second, store, scopes, fuel);
    let a = expand_items(first, store, scopes, fuel);
    let b = expand_items(second, store, scopes, fuel);
    if second.len() == 0 {
        assert(first + second =~= first);
        assert(a.followed_by(b).text =~= a.text);
        assert(a.followed_by(b).warnings =~= a.warnings);
    } else {
        assert((first + second).drop_last() =~= first + second.drop_last());
        assert((first + second).last() == second.last());
        lemma_expand_sequence(first, second.drop_last(), store, scopes, fuel);
        let c = expand_items(second.drop_last(), store, scopes, fuel);
        let d = expand_item(second.last(), store, scopes, fuel);
        assert(whole.text =~= a.followed_by(b).text);
        assert(whole.warnings =~= a.followed_by(b).warnings);
    }
}

/// Entering an element into a plan keeps what the plan has.
pub proof fn lemma_element_keeps(
    plan: Map<Seq<char>, Set<Seq<char>>>,
    element: Seq<char>,
    prec: Seq<char>,
    succ: Seq<char>,
)
    requires
        comes_after(plan, prec, succ),
    ensures
        comes_after(with_element(plan, element), prec, succ),
{
}

/// Registering a dependency keeps what the plan has, and adds the
/// dependency.
pub proof fn lemma_dependency_keeps(
    plan: Map<Seq<char>, Set<Seq<char>>>,
    a: Seq<char>,
    b: Seq<char>,
    prec: Seq<char>,
    succ: Seq<char>,
)
    ensures
        comes_after(with_dependency(plan, a, b), a, b),
        comes_after(plan, prec, succ) ==> comes_after(with_dependency(plan, a, b), prec, succ),
{
}

/// Registering dependencies keeps what the plan has, and adds each of
/// them.
pub proof fn lemma_dependencies_keep(
    plan: Map<Seq<char>, Set<Seq<char>>>,
    deps: Seq<Seq<char>>,
    key: Seq<char>,
    n: int,
    prec: Seq<char>,
    succ: Seq<char>,
)
    requires
        0 <= n <= deps.len(),
    ensures
        comes_after(plan, prec, succ) ==> comes_after(
            with_dependencies(plan, deps, key, n),
            prec,
            succ,
        ),
        forall|i: int|
            0 <= i < n ==> comes_after(with_dependencies(plan, deps, key, n), #[trigger] deps[i], key),
    decreases n,
{
    if n > 0 {
        lemma_dependencies_keep(plan, deps, key, n - 1, prec, succ);
        let before = with_dependencies(plan, deps, key, n - 1);
        lemma_dependency_keeps(before, deps[n - 1], key, prec, succ);
        assert forall|i: int| 0 <= i < n implies comes_after(
            with_dependencies(plan, deps, key, n),
            #[trigger] deps[i],
            key,
        ) by {
            if i < n - 1 {
                lemma_dependency_keeps(before, deps[n - 1], key, deps[i], key);
            }
        }
    }
}

/// Registering the dependencies of contributions keeps what the plan
/// has.
pub proof fn lemma_children_keep(
    plan: Map<Seq<char>, Set<Seq<char>>>,
    children: Seq<SnippetSpec>,
    key: Seq<char>,
    n: int,
    prec: Seq<char>,
    succ: Seq<char>,
)
    requires
        0 <= n <= children.len(),
        comes_after(plan, prec, succ),
    ensures
        comes_after(with_children(plan, children, key, n), prec, succ),
    decreases n,
{
    if n > 0 {
        lemma_children_keep(plan, children, key, n - 1, prec, succ);
        lemma_dependencies_keep(
            with_children(plan, children, key, n - 1),
            children[n - 1].depends_on,
            key,
            children[n - 1].depends_on.len() as int,
            prec,
            succ,
        );
    }
}

/// Entering a snippet keeps what the plan has, and puts the snippet
/// behind everything it depends on.
pub proof fn lemma_snippet_keeps(
    plan: Map<Seq<char>, Set<Seq<char>>>,
    key: Seq<char>,
    snippet: SnippetSpec,
    prec: Seq<char>,
    succ: Seq<char>,
)
    ensures
        comes_after(plan, prec, succ) ==> comes_after(with_snippet(plan, key, snippet), prec, succ),
        forall|i: int|
            0 <= i < snippet.depends_on.len() ==> comes_after(
                with_snippet(plan, key, snippet),
                #[trigger] snippet.depends_on[i],
                key,
            ),
{
    let entered = with_element(plan, key);
    let below = with_children(entered, snippet.children, key, snippet.children.len() as int);
    if comes_after(plan, prec, succ) {
        lemma_element_keeps(plan, key, prec, succ);
        lemma_children_keep(entered, snippet.children, key, snippet.children.len() as int, prec, succ);
    }
    lemma_dependencies_keep(
        below,
        snippet.depends_on,
        key,
        snippet.depends_on.len() as int,
        prec,
        succ,
    );
}

/// After the snippets of a store were entered into a plan, each of them
/// comes after everything it depends on: so the weaver, which hands a
/// name out only after every name that the plan has before it, acts on
/// what a fragment refers to before it acts on the fragment.
pub proof fn lemma_planned_order(
    plan: Map<Seq<char>, Set<Seq<char>>>,
    names: Seq<Seq<char>>,
    store: Map<Seq<char>, SnippetSpec>,
    n: int,
    k: int,
    i: int,
)
    requires
        0 <= k < n <= names.len(),
        0 <= i < store[names[k]].depends_on.len(),
    ensures
        comes_after(planned(plan, names, store, n), store[names[k]].depends_on[i], names[k]),
    decreases n,
{
    let before = planned(plan, names, store, n - 1);
    if k < n - 1 {
        lemma_planned_order(plan, names, store, n - 1, k, i);
        lemma_snippet_keeps(
            before,
            names[n - 1],
            store[names[n - 1]],
            store[names[k]].depends_on[i],
            names[k],
        );
    } else {
        lemma_snippet_keeps(
            before,
            names[n - 1],
            store[names[n - 1]],
            store[names[k]].depends_on[i],
            names[k],
        );
    }
}

/// Whether one of the warnings tells of an expansion that was cut off.
pub open spec fn too_deep(warnings: Seq<WarningSpec>) -> bool {
    exists|i: int| 0 <= i < warnings.len() && #[trigger] warnings[i] is TooDeep
}

/// Warnings one after the other tell of a cut where one of them does.
pub proof fn lemma_too_deep_parts(a: Seq<WarningSpec>, b: Seq<WarningSpec>)
    ensures
        too_deep(a + b) <==> too_deep(a) || too_deep(b),
{
    let all = a + b;
    if too_deep(all) {
        let i = choose|i: int| 0 <= i < all.len() && #[trigger] all[i] is TooDeep;
        if i < a.len() {
            assert(a[i] is TooDeep);
        } else {
            assert(b[i - a.len()] is TooDeep);
        }
    }
    if too_deep(a) {
        let i = choose|i: int| 0 <= i < a.len() && #[trigger] a[i] is TooDeep;
        assert(all[i] is TooDeep);
    }
    if too_deep(b) {
        let i = choose|i: int| 0 <= i < b.len() && #[trigger] b[i] is TooDeep;
        assert(all[i + a.len()] is TooDeep);
    }
}

/// Items that expand without a cut expand to the same under any larger
/// bound.
pub proof fn lemma_items_within_bound(
    items: Seq<ItemSpec>,
    store: Map<Seq<char>, SnippetSpec>,
    scopes: Seq<Seq<BindingSpec>>,
    fuel: nat,
    more: nat,
)
    requires
        fuel <= more,
        !too_deep(expand_items(items, store, scopes, fuel).warnings),
    ensures
        expand_items(items, store, scopes, more) == expand_items(items, store, scopes, fuel),
    decreases fuel, 2nat, items.len(),
{
    if items.len() > 0 {
        let done = expand_items(items.drop_last(), store, scopes, fuel);
        let step = expand_item(items.last(), store, scopes, fuel);
        lemma_too_deep_parts(done.warnings, step.warnings);
        lemma_items_within_bound(items.drop_last(), store, scopes, fuel, more);
        lemma_item_within_bound(items.last(), store, scopes, fuel, more);
    }
}

/// An item that expands without a cut expands to the same under any larger
/// bound.
pub proof fn lemma_item_within_bound(
    item: ItemSpec,
    store: Map<Seq<char>, SnippetSpec>,
    scopes: Seq<Seq<BindingSpec>>,
    fuel: nat,
    more: nat,
)
    requires
        fuel <= more,
        !too_deep(expand_item(item, store, scopes, fuel).warnings),
    ensures
        expand_item(item, store, scopes, more) == expand_item(item, store, scopes, fuel),
    decreases fuel, 1nat, 0nat,
{
    match item {
        ItemSpec::Code(_) => {},
        ItemSpec::Reference(reference) => {
            lemma_resolve_within_bound(reference.identifier, reference, store, scopes, fuel, more);
        },
        ItemSpec::Indented { indentation, reference } => {
            lemma_resolve_within_bound(reference.identifier, reference, store, scopes, fuel, more);
        },
    }
}

/// An identifier that resolves without a cut resolves to the same under
/// any larger bound.
pub proof fn lemma_resolve_within_bound(
    id: Seq<char>,
    site: ReferenceSpec,
    store: Map<Seq<char>, SnippetSpec>,
    scopes: Seq<Seq<BindingSpec>>,
    fuel: nat,
    more: nat,
)
    requires
        fuel <= more,
        !too_deep(resolve(id, site, store, scopes, fuel).warnings),
    ensures
        resolve(id, site, store, scopes, more) == resolve(id, site, store, scopes, fuel),
    decreases fuel, 0nat, 0nat,
{
    if fuel == 0 {
        assert(resolve(id, site, store, scopes, fuel).warnings[0] is TooDeep);
    } else {
        match binding_of(id, store, scopes) {
            Some((_, ParamSpec::Value(_))) => {},
            Some((level, ParamSpec::Alias { target, params })) => {
                if target != id && 0 <= level < scopes.len() {
                    lemma_resolve_within_bound(
                        target,
                        site,
                        store,
                        scopes.take(level).push(scopes[level] + params),
                        (fuel - 1) as nat,
                        (more - 1) as nat,
                    );
                }
            },
            None => {
                if store.contains_key(id) && !store[id].raw {
                    lemma_items_within_bound(
                        parse_spec(join(store[id].raw_parts(), join_of(site))),
                        store,
                        scopes.push(capture(site.attributes, scopes)),
                        (fuel - 1) as nat,
                        (more - 1) as nat,
                    );
                }
            },
        }
    }
}

/// The bound on the depth of expansions only cuts off: where weaving a
/// body warns of no expansion that went too deep, the body expands to the
/// same text, with the same warnings, however deep expansions may go.
pub proof fn lemma_bound_only_cuts(input: Seq<char>, store: Map<Seq<char>, SnippetSpec>, more: nat)
    requires
        more >= depth_limit(store),
        !too_deep(weave(input, store).warnings),
    ensures
        expand_items(parse_spec(input), store, seq![seq![]], more) == weave(input, store),
{
    lemma_items_within_bound(parse_spec(input), store, seq![seq![]], depth_limit(store), more);
}

/// Whether the reference binds no parameter.
pub open spec fn binds_nothing(reference: ReferenceSpec) -> bool {
    forall|i: int|
        0 <= i < reference.attributes.len() ==> #[trigger] reference.attributes[i] is Plain
}

/// The reference of an item that is one.
pub open spec fn item_reference(item: ItemSpec) -> Option<ReferenceSpec> {
    match item {
        ItemSpec::Code(_) => None,
        ItemSpec::Reference(reference) => Some(reference),
        ItemSpec::Indented { reference, .. } => Some(reference),
    }
}

/// Whether every reference among the items binds no parameter, and
/// refers to a name that the store does not know or to one of a rank
/// below `bound`.
pub open spec fn shallow(
    items: Seq<ItemSpec>,
    store: Map<Seq<char>, SnippetSpec>,
    rank: Map<Seq<char>, nat>,
    bound: nat,
) -> bool {
    forall|i: int|
        0 <= i < items.len() ==> match item_reference(#[trigger] items[i]) {
            Some(reference) => binds_nothing(reference) && (store.contains_key(
                reference.identifier,
            ) ==> rank.contains_key(reference.identifier) && rank[reference.identifier] < bound),
            None => true,
        }
}

/// Whether `rank` ranks the store: every snippet that is not raw has a
/// rank, binds no parameter and refers, whatever separates its
/// contributions, only to names of a lower rank. Ranks count how long the
/// chains of references are; where references make a ring, there are
/// none.
pub open spec fn ranked(store: Map<Seq<char>, SnippetSpec>, rank: Map<Seq<char>, nat>) -> bool {
    forall|name: Seq<char>, separator: Seq<char>|
        #![trigger join(store[name].raw_parts(), separator)]
        store.contains_key(name) && !store[name].raw ==> rank.contains_key(name) && shallow(
            parse_spec(join(store[name].raw_parts(), separator)),
            store,
            rank,
            rank[name],
        )
}

/// Whether no scope binds anything.
pub open spec fn unbound(scopes: Seq<Seq<BindingSpec>>) -> bool {
    forall|level: int| 0 <= level < scopes.len() ==> (#[trigger] scopes[level]).len() == 0
}

/// A reference that binds no parameter opens an empty scope.
pub proof fn lemma_capture_nothing(
    attributes: Seq<AttributeSpec>,
    i: int,
    scopes: Seq<Seq<BindingSpec>>,
)
    requires
        forall|k: int| 0 <= k < attributes.len() ==> #[trigger] attributes[k] is Plain,
    ensures
        capture_from(attributes, i, scopes) == Seq::<BindingSpec>::empty(),
    decreases attributes.len() - i,
{
    if 0 <= i < attributes.len() {
        lemma_capture_nothing(attributes, i + 1, scopes);
        assert(attributes[i] is Plain);
    }
}

/// Scopes that bind nothing bind no identifier.
pub proof fn lemma_unbound_lookup(scopes: Seq<Seq<BindingSpec>>, id: Seq<char>)
    requires
        unbound(scopes),
    ensures
        lookup_stack(scopes, id).is_none(),
    decreases scopes.len(),
{
    if scopes.len() > 0 {
        assert(scopes.last().len() == 0);
        assert(lookup(scopes.last(), id).is_none());
        assert forall|level: int| 0 <= level < scopes.drop_last().len() implies (
        #[trigger] scopes.drop_last()[level]).len() == 0 by {
            assert(scopes[level].len() == 0);
        }
        lemma_unbound_lookup(scopes.drop_last(), id);
    }
}

/// Items whose chains of references are shorter than the bound expand
/// without a cut.
pub proof fn lemma_items_shallow(
    items: Seq<ItemSpec>,
    store: Map<Seq<char>, SnippetSpec>,
    scopes: Seq<Seq<BindingSpec>>,
    rank: Map<Seq<char>, nat>,
    bound: nat,
    fuel: nat,
)
    requires
        ranked(store, rank),
        unbound(scopes),
        shallow(items, store, rank, bound),
        bound < fuel,
    ensures
        !too_deep(expand_items(items, store, scopes, fuel).warnings),
    decreases fuel, 2nat, items.len(),
{
    if items.len() > 0 {
        let done = expand_items(items.drop_last(), store, scopes, fuel);
        let step = expand_item(items.last(), store, scopes, fuel);
        assert forall|i: int| 0 <= i < items.drop_last().len() implies match item_reference(
            #[trigger] items.drop_last()[i],
        ) {
            Some(reference) => binds_nothing(reference) && (store.contains_key(
                reference.identifier,
            ) ==> rank.contains_key(reference.identifier) && rank[reference.identifier] < bound),
            None => true,
        } by {
            assert(items.drop_last()[i] == items[i]);
        }
        lemma_items_shallow(items.drop_last(), store, scopes, rank, bound, fuel);
        let last = items[items.len() - 1];
        match item_reference(last) {
            Some(reference) => {
                lemma_resolve_shallow(reference.identifier, reference, store, scopes, rank, fuel);
            },
            None => {},
        }
        lemma_too_deep_parts(done.warnings, step.warnings);
    }
}

/// A reference whose chains of references are shorter than the bound
/// resolves without a cut.
pub proof fn lemma_resolve_shallow(
    id: Seq<char>,
    site: ReferenceSpec,
    store: Map<Seq<char>, SnippetSpec>,
    scopes: Seq<Seq<BindingSpec>>,
    rank: Map<Seq<char>, nat>,
    fuel: nat,
)
    requires
        ranked(store, rank),
        unbound(scopes),
        binds_nothing(site),
        fuel >= 1,
        store.contains_key(id) ==> rank.contains_key(id) && rank[id] + 1 < fuel,
    ensures
        !too_deep(resolve(id, site, store, scopes, fuel).warnings),
    decreases fuel, 0nat, 0nat,
{
    lemma_unbound_lookup(scopes, id);
    if scopes.len() > 0 {
        assert(scopes.last().len() == 0);
        assert forall|level: int| 0 <= level < scopes.drop_last().len() implies (
        #[trigger] scopes.drop_last()[level]).len() == 0 by {
            assert(scopes[level].len() == 0);
        }
        lemma_unbound_lookup(scopes.drop_last(), id);
    }
    assert(binding_of(id, store, scopes).is_none());
    if store.contains_key(id) && !store[id].raw {
        let input = join(store[id].raw_parts(), join_of(site));
        let inner = scopes.push(capture(site.attributes, scopes));
        lemma_capture_nothing(site.attributes, 0, scopes);
        assert forall|level: int| 0 <= level < inner.len() implies (#[trigger] inner[level]).len()
            == 0 by {
            if level < scopes.len() {
                assert(inner[level] == scopes[level]);
            }
        }
        assert(shallow(parse_spec(input), store, rank, rank[id]));
        lemma_items_shallow(parse_spec(input), store, inner, rank, rank[id], (fuel - 1) as nat);
    } else if !store.contains_key(id) {
        let warnings = resolve(id, site, store, scopes, fuel).warnings;
        assert(warnings =~= seq![WarningSpec::Unresolved(id)]);
    }
}

/// The bound cuts no chain that reaches no name twice: where the
/// references of a body and of the store bind no parameter, and the names
/// of the store have ranks below the number of names, which is how long
/// such a chain can be, weaving the body warns of no expansion that went
/// too deep.
pub proof fn lemma_short_chains_not_cut(
    input: Seq<char>,
    store: Map<Seq<char>, SnippetSpec>,
    rank: Map<Seq<char>, nat>,
)
    requires
        ranked(store, rank),
        shallow(parse_spec(input), store, rank, (depth_limit(store) - 1) as nat),
    ensures
        !too_deep(weave(input, store).warnings),
{
    let scopes = seq![Seq::<BindingSpec>::empty()];
    lemma_items_shallow(
        parse_spec(input),
        store,
        scopes,
        rank,
        (depth_limit(store) - 1) as nat,
        depth_limit(store),
    );
}

/// A run of characters of a class ends where the first character stands
/// that is not of the class.
pub proof fn lemma_run_exact(s: Seq<char>, a: int, b: int, class: CharClass)
    requires
        0 <= a <= b <= s.len(),
        forall|k: int| a <= k < b ==> class.holds(#[trigger] s[k]),
        b == s.len() || !class.holds(s[b]),
    ensures
        run_end(s, a, class) == b,
{
    lemma_run_end(s, a, class);
    let r = run_end(s, a, class);
    if r < b {
        assert(class.holds(s[r]));
    }
    if r > b {
        assert(class.holds(s[b]));
    }
}

/// The search for a character ends at its first occurrence.
pub proof fn lemma_find_exact(s: Seq<char>, a: int, b: int, c: char)
    requires
        0 <= a <= b <= s.len(),
        forall|k: int| a <= k < b ==> #[trigger] s[k] != c,
        b == s.len() || s[b] == c,
    ensures
        find_char(s, a, c) == b,
{
    lemma_find_char(s, a, c);
    let r = find_char(s, a, c);
    if r < b {
        assert(s[r] != c);
    }
    if r > b {
        assert(s[b] != c);
    }
}

/// Whether `name` can stand as the identifier of a reference: it is not
/// empty, and holds letters, digits, `_` and `-` only.
pub open spec fn is_identifier(name: Seq<char>) -> bool {
    name.len() > 0 && forall|k: int| 0 <= k < name.len() ==> is_identifier_char(#[trigger] name[k])
}

/// The body `<<name>>`.
pub open spec fn plain_reference(name: Seq<char>) -> Seq<char> {
    seq!['<', '<'] + name + seq!['>', '>']
}

/// The body `<<name|join="separator">>`.
pub open spec fn joined_reference(name: Seq<char>, separator: Seq<char>) -> Seq<char> {
    seq!['<', '<'] + name + seq!['|'] + join_key() + seq!['=', '"'] + separator + seq![
        '"',
        '>',
        '>',
    ]
}

/// The body `<<name>>` is one reference to `name`, without attributes.
pub proof fn lemma_plain_reference(name: Seq<char>)
    requires
        is_identifier(name),
    ensures
        parse_spec(plain_reference(name)) == seq![
            ItemSpec::Reference(ReferenceSpec { identifier: name, attributes: seq![] }),
        ],
{
    let s = plain_reference(name);
    let b = 2 + name.len() as int;
    assert(s.len() == b + 2);
    assert(s[0] == '<' && s[1] == '<' && s[b] == '>' && s[b + 1] == '>');
    assert forall|k: int| 2 <= k < b implies CharClass::Identifier.holds(#[trigger] s[k]) by {
        assert(s[k] == name[k - 2]);
    }
    lemma_run_exact(s, 2, b, CharClass::Identifier);
    lemma_run_exact(s, b, b, CharClass::Space);
    assert(s.subrange(2, b) =~= name);
    assert(pair_at(s, 0, '<', '<'));
    assert(pair_at(s, b, '>', '>'));
    let reference = ReferenceSpec { identifier: name, attributes: seq![] };
    assert(reference_at(s, 0) == Some((reference, b + 2)));
    assert(token_at(s, 0) == Some((ItemSpec::Reference(reference), b + 2)));
    assert(items_from(s, b + 2) =~= Seq::<ItemSpec>::empty());
    assert(items_from(s, 0) =~= seq![ItemSpec::Reference(reference)]);
}

/// Whether `s` reads `<<`, the name, `|join="`, the separator and `">>`,
/// where the name ends before `b` and the separator before `e`.
pub open spec fn reads_joined(
    s: Seq<char>,
    name: Seq<char>,
    separator: Seq<char>,
    b: int,
    e: int,
) -> bool {
    &&& b == 2 + name.len()
    &&& e == b + 7 + separator.len()
    &&& s.len() == e + 3
    &&& s[0] == '<' && s[1] == '<' && s[b] == '|'
    &&& s[b + 1] == 'j' && s[b + 2] == 'o' && s[b + 3] == 'i' && s[b + 4] == 'n'
    &&& s[b + 5] == '=' && s[b + 6] == '"'
    &&& s[e] == '"' && s[e + 1] == '>' && s[e + 2] == '>'
    &&& s.subrange(2, b) == name
    &&& s.subrange(b + 1, b + 5) == join_key()
    &&& s.subrange(b + 7, e) == separator
}

/// The body `<<name|join="separator">>` reads as its parts say.
pub proof fn lemma_joined_shape(name: Seq<char>, separator: Seq<char>)
    ensures
        reads_joined(
            joined_reference(name, separator),
            name,
            separator,
            2 + name.len() as int,
            9 + name.len() as int + separator.len() as int,
        ),
{
    let s = joined_reference(name, separator);
    let b = 2 + name.len() as int;
    let e = b + 7 + separator.len() as int;
    assert(s.len() == e + 3);
    assert(s[0] == '<' && s[1] == '<' && s[b] == '|');
    assert(s[b + 1] == 'j' && s[b + 2] == 'o' && s[b + 3] == 'i' && s[b + 4] == 'n');
    assert(s[b + 5] == '=' && s[b + 6] == '"');
    assert(s[e] == '"' && s[e + 1] == '>' && s[e + 2] == '>');
    assert(s.subrange(2, b) =~= name);
    assert(s.subrange(b + 1, b + 5) =~= join_key());
    assert(s.subrange(b + 7, e) =~= separator);
}

/// The attribute `join="separator"` is read as such, where the separator
/// holds no quote.
pub proof fn lemma_joined_attribute(
    s: Seq<char>,
    name: Seq<char>,
    separator: Seq<char>,
    b: int,
    e: int,
)
    requires
        reads_joined(s, name, separator, b, e),
        forall|k: int| 0 <= k < separator.len() ==> #[trigger] separator[k] != '"',
    ensures
        attributes_at(s, b + 1) == Some(
            (seq![AttributeSpec::Plain { key: join_key(), value: separator }], e + 3),
        ),
{
    let q = b + 7;
    assert forall|k: int| q <= k < e implies #[trigger] s[k] != '"' by {
        assert(s[k] == s.subrange(q, e)[k - q]);
    }
    assert forall|k: int| b + 1 <= k < b + 5 implies CharClass::Identifier.holds(
        #[trigger] s[k],
    ) by {}
    lemma_run_exact(s, b + 1, b + 5, CharClass::Identifier);
    lemma_run_exact(s, b + 5, b + 5, CharClass::Space);
    lemma_run_exact(s, b + 6, b + 6, CharClass::Space);
    lemma_find_exact(s, q, e, '"');
    lemma_run_exact(s, e + 1, e + 1, CharClass::Space);
    assert(!pair_at(s, b + 5, ':', '='));
    assert(pair_at(s, e + 1, '>', '>'));
    let attribute = AttributeSpec::Plain { key: join_key(), value: separator };
    assert(quoted_at(s, b + 6) == Some((separator, e + 1)));
    assert(attribute_at(s, b + 1) == Some((attribute, e + 1)));
}

/// The body `<<name|join="separator">>` is one reference to `name` with
/// the attribute `join`, where the separator holds no quote.
pub proof fn lemma_joined_reference(name: Seq<char>, separator: Seq<char>)
    requires
        is_identifier(name),
        forall|k: int| 0 <= k < separator.len() ==> #[trigger] separator[k] != '"',
    ensures
        parse_spec(joined_reference(name, separator)) == seq![
            ItemSpec::Reference(
                ReferenceSpec {
                    identifier: name,
                    attributes: seq![AttributeSpec::Plain { key: join_key(), value: separator }],
                },
            ),
        ],
{
    let s = joined_reference(name, separator);
    let b = 2 + name.len() as int;
    let e = b + 7 + separator.len() as int;
    lemma_joined_shape(name, separator);
    lemma_joined_attribute(s, name, separator, b, e);
    assert forall|k: int| 2 <= k < b implies CharClass::Identifier.holds(#[trigger] s[k]) by {
        assert(s[k] == s.subrange(2, b)[k - 2]);
    }
    lemma_run_exact(s, 2, b, CharClass::Identifier);
    lemma_run_exact(s, b, b, CharClass::Space);
    lemma_run_exact(s, b + 1, b + 1, CharClass::Space);
    assert(pair_at(s, 0, '<', '<'));
    assert(!pair_at(s, b, '>', '>'));
    let attribute = AttributeSpec::Plain { key: join_key(), value: separator };
    let reference = ReferenceSpec { identifier: name, attributes: seq![attribute] };
    assert(reference_at(s, 0) == Some((reference, e + 3)));
    assert(token_at(s, 0) == Some((ItemSpec::Reference(reference), e + 3)));
    assert(items_from(s, e + 3) =~= Seq::<ItemSpec>::empty());
    assert(items_from(s, 0) =~= seq![ItemSpec::Reference(reference)]);
}

/// A body that is one reference to a name of the store, whose snippet is
/// raw or holds nothing but code, is woven to the contributions of the
/// snippet in document order, each two separated by the separator that the
/// reference names.
pub proof fn lemma_reference_woven(
    input: Seq<char>,
    site: ReferenceSpec,
    store: Map<Seq<char>, SnippetSpec>,
)
    requires
        parse_spec(input) == seq![ItemSpec::Reference(site)],
        store.contains_key(site.identifier),
        store[site.identifier].raw || all_code(
            parse_spec(join(store[site.identifier].raw_parts(), join_of(site))),
        ),
    ensures
        weave(input, store).text == join(store[site.identifier].raw_parts(), join_of(site)),
{
    let items = parse_spec(input);
    let scopes = seq![Seq::<BindingSpec>::empty()];
    let fuel = depth_limit(store);
    assert(lookup(scopes.last(), site.identifier).is_none());
    assert(binding_of(site.identifier, store, scopes).is_none());
    lemma_contributions_joined(site.identifier, site, store, scopes, fuel);
    assert(items.drop_last() =~= Seq::<ItemSpec>::empty());
    assert(expand_items(items.drop_last(), store, scopes, fuel) == Woven::empty());
    assert(expand_item(items.last(), store, scopes, fuel) == resolve(
        site.identifier,
        site,
        store,
        scopes,
        fuel,
    ));
    assert(expand_items(items, store, scopes, fuel) == Woven::empty().followed_by(
        resolve(site.identifier, site, store, scopes, fuel),
    ));
    assert(weave(input, store).text =~= resolve(site.identifier, site, store, scopes, fuel).text);
}

/// The body `<<name>>` is woven to the contributions of `name` in document
/// order, each two separated by a line feed, where these hold nothing but
/// code.
pub proof fn lemma_contributions_in_order(name: Seq<char>, store: Map<Seq<char>, SnippetSpec>)
    requires
        is_identifier(name),
        store.contains_key(name),
        store[name].raw || all_code(parse_spec(join(store[name].raw_parts(), seq!['\n']))),
    ensures
        weave(plain_reference(name), store).text == join(store[name].raw_parts(), seq!['\n']),
{
    let site = ReferenceSpec { identifier: name, attributes: seq![] };
    lemma_plain_reference(name);
    assert(join_of(site) == seq!['\n']);
    lemma_reference_woven(plain_reference(name), site, store);
}

/// The body `<<name|join="separator">>` is woven to the contributions of
/// `name` in document order, each two separated by the decoded separator
/// and by nothing else, where these hold nothing but code.
pub proof fn lemma_contributions_separated(
    name: Seq<char>,
    separator: Seq<char>,
    store: Map<Seq<char>, SnippetSpec>,
)
    requires
        is_identifier(name),
        forall|k: int| 0 <= k < separator.len() ==> #[trigger] separator[k] != '"',
        store.contains_key(name),
        store[name].raw || all_code(
            parse_spec(join(store[name].raw_parts(), unescape_from(separator, 0))),
        ),
    ensures
        weave(joined_reference(name, separator), store).text == join(
            store[name].raw_parts(),
            unescape_from(separator, 0),
        ),
{
    let attribute = AttributeSpec::Plain { key: join_key(), value: separator };
    let site = ReferenceSpec { identifier: name, attributes: seq![attribute] };
    lemma_joined_reference(name, separator);
    assert(join_from(site.attributes, 0) == unescape_from(separator, 0));
    lemma_reference_woven(joined_reference(name, separator), site, store);
}

/// What is done for the first names of an order is how what is done for
/// the whole order begins.
pub proof fn lemma_done_grows(store: Map<Seq<char>, SnippetSpec>, order: Seq<Seq<char>>, n: int)
    requires
        0 <= n <= order.len(),
    ensures
        is_prefix(done_along(store, order.take(n)), done_along(store, order)),
    decreases order.len(),
{
    let whole = done_along(store, order);
    if n == order.len() {
        assert(order.take(n) =~= order);
        assert(whole.take(whole.len() as int) =~= whole);
    } else {
        lemma_done_grows(store, order.drop_last(), n);
        assert(order.drop_last().take(n) =~= order.take(n));
        let first = done_along(store, order.take(n));
        let most = done_along(store, order.drop_last());
        assert(whole.take(first.len() as int) =~= most.take(first.len() as int));
    }
}

/// The weaver acts on what a fragment refers to before it acts on the
/// fragment. Where the plan has the name `b` before the name `a`, and the
/// names are handled in an order that the plan allows, `b` was handled
/// before `a`: its snippet was woven and put back into the store, and
/// what it asks for was done, before the snippet of `a` is woven in the
/// store as the names before it left it and what it asks for is done.
pub proof fn lemma_dependency_first(
    plan: Map<Seq<char>, Set<Seq<char>>>,
    store: Map<Seq<char>, SnippetSpec>,
    order: Seq<Seq<char>>,
    b: Seq<char>,
    a: Seq<char>,
    i: int,
)
    requires
        respects(plan, order),
        comes_after(plan, b, a),
        0 <= i < order.len(),
        order[i] == a,
    ensures
        exists|j: int|
            0 <= j < i && #[trigger] order[j] == b && store_along(store, order.take(j + 1))
                == handled(store_along(store, order.take(j)), b) && is_prefix(
                done_along(store, order.take(j + 1)),
                done_along(store, order.take(i)),
            ),
        done_along(store, order.take(i + 1)) == done_along(store, order.take(i)) + asked(
            store_along(store, order.take(i)),
            a,
        ),
        is_prefix(done_along(store, order.take(i + 1)), done_along(store, order)),
{
    assert(comes_after(plan, b, order[i]));
    let j = choose|j: int| 0 <= j < i && order[j] == b;
    assert(order.take(j + 1).drop_last() =~= order.take(j));
    assert(order.take(j + 1).last() == b);
    assert(order.take(i + 1).drop_last() =~= order.take(i));
    assert(order.take(i + 1).last() == a);
    lemma_done_grows(store, order.take(i), j + 1);
    assert(order.take(i).take(j + 1) =~= order.take(j + 1));
    lemma_done_grows(store, order, i + 1);
}

/// A ring does not end the run, and holds up only what waits behind it: a
/// name of the plan that a run which succeeded has not handed out has
/// before it, in the plan, a name that was not handed out either.
pub proof fn lemma_left_behind<E: Environment>(
    plan: Map<Seq<char>, Set<Seq<char>>>,
    store: Map<Seq<char>, SnippetSpec>,
    before: E,
    after: E,
    left: Map<Seq<char>, Set<Seq<char>>>,
    report: Report,
    key: Seq<char>,
)
    requires
        outcome(plan, store, before, after, left, Ok(report)),
        plan.contains_key(key),
        !views(report.order@).contains(key),
    ensures
        exists|other: Seq<char>|
            #[trigger] comes_after(plan, other, key) && !views(report.order@).contains(other),
{
    assert(left.contains_key(key));
    assert(blocked(left, key));
    let other = choose|other: Seq<char>| #[trigger]
        left.contains_key(other) && left[other].contains(key);
    assert(plan.contains_key(other));
    assert(comes_after(plan, other, key));
}

/// A name that waits behind nothing of a lower rank cannot be left: in a
/// plan whose names have ranks that grow along the plan, every name that
/// is left has a name of a lower rank before it that is left too, which
/// cannot go on for ever.
pub proof fn lemma_ranked_not_left(
    plan: Map<Seq<char>, Set<Seq<char>>>,
    left: Map<Seq<char>, Set<Seq<char>>>,
    rank: Map<Seq<char>, nat>,
    key: Seq<char>,
)
    requires
        forall|b: Seq<char>, a: Seq<char>| #[trigger]
            comes_after(plan, b, a) ==> rank.contains_key(a) && rank.contains_key(b) && rank[b]
                < rank[a],
        forall|k: Seq<char>| #[trigger] left.contains_key(k) ==> plan.contains_key(k) && left[k]
            == plan[k],
        forall|k: Seq<char>| #[trigger] left.contains_key(k) ==> blocked(left, k),
        rank.contains_key(key),
    ensures
        !left.contains_key(key),
    decreases rank[key],
{
    if left.contains_key(key) {
        assert(blocked(left, key));
        let other = choose|other: Seq<char>| #[trigger]
            left.contains_key(other) && left[other].contains(key);
        assert(comes_after(plan, other, key));
        lemma_ranked_not_left(plan, left, rank, other);
    }
}

/// Without a ring every fragment is handled: where the names of the plan
/// have ranks that grow along the plan, a run that succeeded has left no
/// name, has handed every name of the plan out, and tells of no ring.
pub proof fn lemma_all_handled<E: Environment>(
    plan: Map<Seq<char>, Set<Seq<char>>>,
    store: Map<Seq<char>, SnippetSpec>,
    before: E,
    after: E,
    left: Map<Seq<char>, Set<Seq<char>>>,
    report: Report,
    rank: Map<Seq<char>, nat>,
)
    requires
        outcome(plan, store, before, after, left, Ok(report)),
        forall|k: Seq<char>| #[trigger] plan.contains_key(k) ==> rank.contains_key(k),
        forall|b: Seq<char>, a: Seq<char>| #[trigger]
            comes_after(plan, b, a) ==> rank.contains_key(a) && rank.contains_key(b) && rank[b]
                < rank[a],
    ensures
        left == empty_plan(),
        forall|k: Seq<char>| #[trigger] plan.contains_key(k) ==> views(report.order@).contains(k),
        about(report.notices@, views(report.order@)),
{
    assert forall|k: Seq<char>| !left.contains_key(k) by {
        if left.contains_key(k) {
            assert(plan.contains_key(k));
            lemma_ranked_not_left(plan, left, rank, k);
        }
    }
    assert(left =~= empty_plan());
    assert forall|k: Seq<char>| #[trigger] plan.contains_key(k) implies views(
        report.order@,
    ).contains(k) by {
        assert(!left.contains_key(k));
    }
}

/// Whether every fragment of the store is inert or has a file as its
/// sink.
pub open spec fn only_files(store: Map<Seq<char>, SnippetSpec>) -> bool {
    forall|k: Seq<char>| #[trigger]
        store.contains_key(k) ==> (store[k].kind is Plain || store[k].kind is Save) && forall|
            i: int,
        |
            0 <= i < store[k].children.len() ==> ((#[trigger] store[k].children[i]).kind is Plain
                || store[k].children[i].kind is Save)
}

/// Whether each of the actions writes a file.
pub open spec fn all_saves(actions: Seq<ActionSpec>) -> bool {
    forall|i: int| 0 <= i < actions.len() ==> #[trigger] actions[i] is Save
}

/// What contributions that are inert or have a file as their sink ask for
/// is to write files.
pub proof fn lemma_later_saves(children: Seq<SnippetSpec>, i: int)
    requires
        forall|k: int|
            0 <= k < children.len() ==> ((#[trigger] children[k]).kind is Plain
                || children[k].kind is Save),
    ensures
        all_saves(later_actions(children, i)),
    decreases children.len() - i,
{
    if 0 <= i < children.len() {
        lemma_later_saves(children, i + 1);
        let rest = later_actions(children, i + 1);
        let all = later_actions(children, i);
        assert(children[i].kind is Plain || children[i].kind is Save);
        assert forall|k: int| 0 <= k < all.len() implies #[trigger] all[k] is Save by {
            if all.len() > rest.len() {
                if k > 0 {
                    assert(all[k] == rest[k - 1]);
                }
            } else {
                assert(all[k] == rest[k]);
            }
        }
    }
}

/// Handling a name in a store whose sinks are files leaves such a store,
/// and asks only for files to be written.
pub proof fn lemma_files_handled(store: Map<Seq<char>, SnippetSpec>, key: Seq<char>)
    requires
        only_files(store),
    ensures
        only_files(handled(store, key)),
        all_saves(asked(store, key)),
{
    if store.contains_key(key) {
        let snippet = store[key];
        let woven = woven_snippet(snippet, store.remove(key));
        assert(woven.kind == snippet.kind);
        assert(woven.children.len() == snippet.children.len());
        assert forall|i: int| 0 <= i < woven.children.len() implies ((
        #[trigger] woven.children[i]).kind is Plain || woven.children[i].kind is Save) by {
            assert(snippet.children[i].kind is Plain || snippet.children[i].kind is Save);
        }
        lemma_later_saves(woven.children, 1);
        let later = later_actions(woven.children, 1);
        let all = actions_of(woven);
        assert forall|i: int| 0 <= i < all.len() implies #[trigger] all[i] is Save by {
            if all.len() > later.len() {
                if i > 0 {
                    assert(all[i] == later[i - 1]);
                }
            } else {
                assert(all[i] == later[i]);
            }
        }
        let after = handled(store, key);
        assert forall|k: Seq<char>| #[trigger] after.contains_key(k) implies (after[k].kind is Plain
            || after[k].kind is Save) && forall|i: int|
            0 <= i < after[k].children.len() ==> ((#[trigger] after[k].children[i]).kind is Plain
                || after[k].children[i].kind is Save) by {
            if k != key {
                assert(store.contains_key(k));
            }
        }
    }
}

/// Whatever the order in which the names of a store whose sinks are files
/// are handled, only files are written.
pub proof fn lemma_only_saves(store: Map<Seq<char>, SnippetSpec>, order: Seq<Seq<char>>)
    requires
        only_files(store),
    ensures
        only_files(store_along(store, order)),
        all_saves(done_along(store, order)),
    decreases order.len(),
{
    if order.len() > 0 {
        lemma_only_saves(store, order.drop_last());
        lemma_files_handled(store_along(store, order.drop_last()), order.last());
    }
}

/// Weaving a document whose sinks are files into a cache succeeds,
/// whatever the plan holds: a cache takes every file, and a ring in the
/// plan ends no run.
pub proof fn lemma_files_into_cache(
    plan: Map<Seq<char>, Set<Seq<char>>>,
    store: Map<Seq<char>, SnippetSpec>,
    before: Cache,
    after: Cache,
    left: Map<Seq<char>, Set<Seq<char>>>,
    r: Result<Report, Error>,
)
    requires
        only_files(store),
        outcome(plan, store, before, after, left, r),
    ensures
        r is Ok,
{
    if r is Err {
        let e = r->Err_0->Asciidoctrine_0;
        assert(gave_up(plan, store, before, after, e));
        let (actions, mid, action) = choose|actions: Seq<ActionSpec>, mid: Cache, action: ActionSpec|
         #[trigger]
            stopped(before, actions, mid, action, after, e) && (no_pipe(store) ==> within(
                plan,
                store,
                actions.push(action),
            ));
        assert(no_pipe(store)) by {
            assert forall|k: Seq<char>| #[trigger] store.contains_key(k) implies store[k].kind
                != KindSpec::Pipe && forall|i: int|
                0 <= i < store[k].children.len() ==> (#[trigger] store[k].children[i]).kind
                    != KindSpec::Pipe by {
                assert forall|i: int| 0 <= i < store[k].children.len() implies (
                #[trigger] store[k].children[i]).kind != KindSpec::Pipe by {
                    assert(store[k].children[i].kind is Plain || store[k].children[i].kind is Save);
                }
            }
        }
        let order = choose|order: Seq<Seq<char>>|
            respects(plan, order) && is_prefix(
                actions.push(action),
                #[trigger] done_along(store, order),
            );
        lemma_only_saves(store, order);
        let whole = done_along(store, order);
        assert(whole[actions.len() as int] == actions.push(action)[actions.len() as int]);
        assert(whole[actions.len() as int] is Save);
        assert(refused(mid, action, after, e));
    }
}

/// The files after the actions, each of which writes a file, were taken
/// one after the other: a later content replaces an earlier one at the
/// same path.
pub open spec fn written(files: Map<Seq<char>, Seq<char>>, actions: Seq<ActionSpec>) -> Map<
    Seq<char>,
    Seq<char>,
>
    decreases actions.len(),
{
    if actions.len() == 0 {
        files
    } else {
        match actions.last() {
            ActionSpec::Save { path, content } => written(files, actions.drop_last()).insert(
                path,
                content,
            ),
            _ => written(files, actions.drop_last()),
        }
    }
}

/// A cache that went through these states as it took the actions, each of
/// which writes a file, holds the files written at the end, and expects
/// the evaluations that it expected.
pub proof fn lemma_states_of_cache(states: Seq<Cache>, actions: Seq<ActionSpec>)
    requires
        passed(states, actions),
        all_saves(actions),
    ensures
        states.last()@ == written(states.first()@, actions),
        states.last().expected() == states.first().expected(),
    decreases actions.len(),
{
    if actions.len() > 0 {
        let n = actions.len() as int;
        let earlier = states.drop_last();
        let fewer = actions.drop_last();
        assert forall|i: int| 0 <= i < fewer.len() implies taken(
            earlier[i],
            #[trigger] fewer[i],
            earlier[i + 1],
        ) by {
            assert(taken(states[i], actions[i], states[i + 1]));
        }
        lemma_states_of_cache(earlier, fewer);
        assert(taken(states[n - 1], actions[n - 1], states[n]));
        assert(actions[n - 1] is Save);
        assert(earlier.last() == states[n - 1]);
        assert(earlier.first() == states.first());
    }
}

/// A cache that took actions, each of which writes a file, holds the files
/// written: what a document whose sinks are files leaves in a cache are
/// the files that its fragments ask for, and no others.
pub proof fn lemma_cache_after_saves(before: Cache, actions: Seq<ActionSpec>, after: Cache)
    requires
        performed(before, actions, after),
        all_saves(actions),
    ensures
        after@ == written(before@, actions),
        after.expected() == before.expected(),
{
    let states = choose|states: Seq<Cache>| #[trigger]
        passed(states, actions) && states.first() == before && states.last() == after;
    lemma_states_of_cache(states, actions);
}

} // verus!
