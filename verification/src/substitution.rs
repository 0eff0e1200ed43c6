//! The weaver's executable side: parameter scopes, parameter capture and the
//! substitution of references, each proved to compute what
//! [`crate::weave`] states.

use crate::codeblock_parser::{
    attributes_view, fragments_view, Attribute, CodeblockParser, Fragment, Reference,
};
use crate::snippets::{same_text, SnippetDB};
use crate::text::{from_chars, lines, push_all, push_str, rows, split_lines, to_chars};
use crate::weave::{
    binding_of, capture, capture_from, expand_item, expand_items, indent_lines, indent_text,
    depth_limit, join_from, join_key, join_of, lookup, lookup_stack, resolve, unescape_from,
    weave, BindingSpec, ParamSpec, WarningSpec, MAX_DEPTH,
};
use vstd::prelude::*;

verus! {

/// What a parameter is bound to.
#[derive(Debug)]
pub enum Param {
    Value(String),
    Alias { target: String, params: Vec<Binding> },
}

/// One parameter binding of a scope.
#[derive(Debug)]
pub struct Binding {
    pub key: String,
    pub value: Param,
}

/// What went wrong while a body was woven.
#[derive(Debug)]
pub enum Warning {
    Unresolved(String),
    SelfReference(String),
    TooDeep(String),
}

/// The mathematical value of a parameter.
pub open spec fn param_view(p: Param) -> ParamSpec
    decreases p,
{
    match p {
        Param::Value(text) => ParamSpec::Value(text@),
        Param::Alias { target, params } => ParamSpec::Alias {
            target: target@,
            params: Seq::new(
                params@.len(),
                |i: int|
                    if 0 <= i < params@.len() {
                        binding_view(params@[i])
                    } else {
                        arbitrary()
                    },
            ),
        },
    }
}

/// The mathematical value of a binding.
pub open spec fn binding_view(b: Binding) -> BindingSpec
    decreases b,
{
    BindingSpec { key: b.key@, value: param_view(b.value) }
}

/// The mathematical value of a scope.
pub open spec fn scope_view(s: Seq<Binding>) -> Seq<BindingSpec> {
    Seq::new(s.len(), |i: int| binding_view(s[i]))
}

/// The mathematical value of a stack of scopes.
pub open spec fn stack_view(s: Seq<Vec<Binding>>) -> Seq<Seq<BindingSpec>> {
    Seq::new(s.len(), |i: int| scope_view(s[i]@))
}

impl View for Param {
    type V = ParamSpec;

    open spec fn view(&self) -> ParamSpec {
        param_view(*self)
    }
}

impl View for Binding {
    type V = BindingSpec;

    open spec fn view(&self) -> BindingSpec {
        binding_view(*self)
    }
}

impl View for Warning {
    type V = WarningSpec;

    open spec fn view(&self) -> WarningSpec {
        match self {
            Warning::Unresolved(id) => WarningSpec::Unresolved(id@),
            Warning::SelfReference(id) => WarningSpec::SelfReference(id@),
            Warning::TooDeep(id) => WarningSpec::TooDeep(id@),
        }
    }
}

/// The mathematical values of a sequence of warnings.
pub open spec fn warnings_view(s: Seq<Warning>) -> Seq<WarningSpec> {
    Seq::new(s.len(), |i: int| s[i]@)
}

/// A copy of a scope.
pub fn clone_scope(scope: &Vec<Binding>) -> (r: Vec<Binding>)
    ensures
        scope_view(r@) == scope_view(scope@),
    decreases scope,
{
    let mut r: Vec<Binding> = Vec::new();
    let mut i: usize = 0;
    while i < scope.len()
        invariant
            i <= scope.len(),
            r@.len() == i,
            forall|k: int| 0 <= k < i ==> binding_view(r@[k]) == binding_view(scope@[k]),
        decreases scope.len() - i,
    {
        let value = clone_param(&scope[i].value);
        r.push(Binding { key: scope[i].key.clone(), value });
        i += 1;
    }
    assert(scope_view(r@) =~= scope_view(scope@));
    r
}

/// A copy of a parameter.
pub fn clone_param(p: &Param) -> (r: Param)
    ensures
        r@ == p@,
    decreases p,
{
    match p {
        Param::Value(text) => Param::Value(text.clone()),
        Param::Alias { target, params } => {
            let copy = clone_scope(params);
            let r = Param::Alias { target: target.clone(), params: copy };
            assert(r@->params =~= scope_view(copy@));
            assert(p@->params =~= scope_view(params@));
            r
        },
    }
}

/// A copy of the first `upto` scopes of a stack.
pub fn clone_stack(scopes: &Vec<Vec<Binding>>, upto: usize) -> (r: Vec<Vec<Binding>>)
    requires
        upto <= scopes.len(),
    ensures
        stack_view(r@) == stack_view(scopes@).take(upto as int),
{
    let mut r: Vec<Vec<Binding>> = Vec::new();
    let mut i: usize = 0;
    while i < upto
        invariant
            i <= upto <= scopes.len(),
            r@.len() == i,
            forall|k: int| 0 <= k < i ==> scope_view(r@[k]@) == scope_view(scopes@[k]@),
        decreases upto - i,
    {
        r.push(clone_scope(&scopes[i]));
        i += 1;
    }
    assert(stack_view(r@) =~= stack_view(scopes@).take(upto as int));
    r
}

/// The binding of `id` in a scope: the last one, if there are several.
pub fn lookup_binding<'a>(scope: &'a Vec<Binding>, id: &str) -> (r: Option<&'a Param>)
    ensures
        match r {
            Some(param) => lookup(scope_view(scope@), id@) == Some(param@),
            None => lookup(scope_view(scope@), id@).is_none(),
        },
{
    let mut i: usize = scope.len();
    assert(scope_view(scope@).take(i as int) =~= scope_view(scope@));
    while i > 0
        invariant
            i <= scope.len(),
            lookup(scope_view(scope@), id@) == lookup(scope_view(scope@).take(i as int), id@),
        decreases i,
    {
        let ghost prefix = scope_view(scope@).take(i as int);
        assert(prefix.last() == binding_view(scope@[i as int - 1]));
        assert(prefix.drop_last() =~= scope_view(scope@).take(i as int - 1));
        if same_text(scope[i - 1].key.as_str(), id) {
            return Some(&scope[i - 1].value);
        }
        i -= 1;
    }
    None
}

/// The binding of `id` in the innermost of the first `upto` scopes that
/// binds it, with the index of that scope.
pub fn lookup_in_stack<'a>(scopes: &'a Vec<Vec<Binding>>, upto: usize, id: &str) -> (r: Option<
    (usize, &'a Param),
>)
    requires
        upto <= scopes.len(),
    ensures
        match r {
            Some((level, param)) => lookup_stack(stack_view(scopes@).take(upto as int), id@)
                == Some((level as int, param@)) && level < upto,
            None => lookup_stack(stack_view(scopes@).take(upto as int), id@).is_none(),
        },
{
    let mut i: usize = upto;
    while i > 0
        invariant
            i <= upto <= scopes.len(),
            lookup_stack(stack_view(scopes@).take(upto as int), id@) == lookup_stack(
                stack_view(scopes@).take(i as int),
                id@,
            ),
        decreases i,
    {
        let ghost prefix = stack_view(scopes@).take(i as int);
        assert(prefix.last() == scope_view(scopes@[i as int - 1]@));
        assert(prefix.drop_last() =~= stack_view(scopes@).take(i as int - 1));
        match lookup_binding(&scopes[i - 1], id) {
            Some(param) => {
                return Some((i - 1, param));
            },
            None => {},
        }
        i -= 1;
    }
    None
}

/// The parameters that a reference's attributes bind: the scope under
/// which the referenced fragment is expanded.
pub fn extract_snippet_params(attributes: &Vec<Attribute>, scopes: &Vec<Vec<Binding>>) -> (r: Vec<
    Binding,
>)
    ensures
        scope_view(r@) == capture(attributes_view(attributes@), stack_view(scopes@)),
    decreases attributes,
{
    let ghost spec_attributes = attributes_view(attributes@);
    let ghost spec_scopes = stack_view(scopes@);
    let mut r: Vec<Binding> = Vec::new();
    let mut i: usize = attributes.len();
    assert(scope_view(r@) =~= capture_from(spec_attributes, i as int, spec_scopes));
    while i > 0
        invariant
            i <= attributes.len(),
            spec_attributes == attributes_view(attributes@),
            spec_scopes == stack_view(scopes@),
            scope_view(r@) == capture_from(spec_attributes, i as int, spec_scopes),
        decreases i,
    {
        i -= 1;
        let ghost rest = scope_view(r@);
        assert(spec_attributes[i as int] == attributes@[i as int]@);
        match &attributes[i] {
            Attribute::Plain { .. } => {},
            Attribute::Literal { key, value } => {
                let binding = Binding { key: key.clone(), value: Param::Value(value.clone()) };
                r.insert(0, binding);
                assert(scope_view(r@) =~= seq![binding@] + rest);
            },
            Attribute::Nested { key, reference } => {
                assert(stack_view(scopes@).take(scopes.len() as int) =~= stack_view(scopes@));
                proof {
                    reference.lemma_attributes();
                }
                let value = match lookup_in_stack(scopes, scopes.len(), reference.identifier.as_str()) {
                    Some((_, param)) => clone_param(param),
                    None => {
                        let params = extract_snippet_params(&reference.attributes, scopes);
                        let value = Param::Alias {
                            target: reference.identifier.clone(),
                            params,
                        };
                        assert(value@->params =~= scope_view(params@));
                        value
                    },
                };
                let binding = Binding { key: key.clone(), value };
                r.insert(0, binding);
                assert(scope_view(r@) =~= seq![binding@] + rest);
            },
        }
    }
    r
}

/// The text with `\n`, `\t` and `\\` decoded.
pub fn unescape(s: &str) -> (r: Vec<char>)
    ensures
        r@ == unescape_from(s@, 0),
{
    let v = to_chars(s);
    let mut r: Vec<char> = Vec::new();
    let mut i: usize = 0;
    while i < v.len()
        invariant
            i <= v.len(),
            r@ + unescape_from(v@, i as int) == unescape_from(v@, 0),
        decreases v.len() - i,
    {
        let ghost before = r@;
        if v[i] == '\\' && i + 1 < v.len() && (v[i + 1] == 'n' || v[i + 1] == 't' || v[i + 1]
            == '\\') {
            let c = if v[i + 1] == 'n' {
                '\n'
            } else if v[i + 1] == 't' {
                '\t'
            } else {
                '\\'
            };
            r.push(c);
            assert(before.push(c) + unescape_from(v@, i as int + 2) =~= before + unescape_from(
                v@,
                i as int,
            ));
            i += 2;
        } else {
            r.push(v[i]);
            assert(before.push(v@[i as int]) + unescape_from(v@, i as int + 1) =~= before
                + unescape_from(v@, i as int));
            i += 1;
        }
    }
    assert(r@ + unescape_from(v@, i as int) =~= r@);
    r
}

/// The separator between the contributions that a reference asks for: the
/// decoded value of its first `join` attribute, or a line feed.
pub fn extract_join_str(reference: &Reference) -> (r: String)
    ensures
        r@ == join_of(reference@),
{
    proof {
        reference.lemma_attributes();
        reveal_strlit("join");
        assert("join"@ =~= join_key());
    }
    let ghost spec_attributes = attributes_view(reference.attributes@);
    let mut i: usize = 0;
    while i < reference.attributes.len()
        invariant
            i <= reference.attributes.len(),
            spec_attributes == attributes_view(reference.attributes@),
            "join"@ == join_key(),
            join_of(reference@) == join_from(spec_attributes, 0),
            join_from(spec_attributes, 0) == join_from(spec_attributes, i as int),
        decreases reference.attributes.len() - i,
    {
        assert(spec_attributes[i as int] == reference.attributes@[i as int]@);
        match &reference.attributes[i] {
            Attribute::Plain { key, value } => {
                if same_text(key.as_str(), "join") {
                    let decoded = unescape(value.as_str());
                    return from_chars(&decoded);
                }
            },
            _ => {},
        }
        i += 1;
    }
    let mut r = String::new();
    crate::text::push_char(&mut r, '\n');
    assert(r@ =~= seq!['\n']);
    r
}

/// Appends each line of `content` to `output`, on a line of its own and
/// behind the indentation.
pub fn indent(content: &Vec<char>, indentation: &str, output: &mut Vec<char>)
    ensures
        final(output)@ == old(output)@ + indent_text(content@, indentation@),
{
    let ghost before = output@;
    let all = split_lines(content);
    let mut i: usize = 0;
    assert(rows(all@).take(0) =~= seq![]);
    while i < all.len()
        invariant
            i <= all.len(),
            rows(all@) == lines(content@),
            output@ == before + indent_lines(rows(all@).take(i as int), indentation@),
        decreases all.len() - i,
    {
        assert(rows(all@).take(i as int + 1).drop_last() =~= rows(all@).take(i as int));
        assert(rows(all@).take(i as int + 1).last() == all@[i as int]@);
        output.push('\n');
        push_str(output, indentation);
        push_all(output, &all[i]);
        assert(output@ =~= before + indent_lines(rows(all@).take(i as int + 1), indentation@));
        i += 1;
    }
    assert(rows(all@).take(i as int) =~= rows(all@));
}

/// Appends to `output` what the identifier resolves to at the reference
/// `site`, and to `warnings` what went wrong on the way.
pub fn substitude_params(
    identifier: &str,
    site: &Reference,
    snippets: &SnippetDB,
    scopes: &Vec<Vec<Binding>>,
    depth: usize,
    output: &mut Vec<char>,
    warnings: &mut Vec<Warning>,
)
    requires
        snippets.wf(),
    ensures
        final(output)@ == old(output)@ + resolve(
            identifier@,
            site@,
            snippets@,
            stack_view(scopes@),
            depth as nat,
        ).text,
        warnings_view(final(warnings)@) == warnings_view(old(warnings)@) + resolve(
            identifier@,
            site@,
            snippets@,
            stack_view(scopes@),
            depth as nat,
        ).warnings,
    decreases depth, 0nat,
{
    let ghost out0 = output@;
    let ghost warn0 = warnings_view(warnings@);
    let ghost spec_scopes = stack_view(scopes@);
    if depth == 0 {
        warnings.push(Warning::TooDeep(String::from_str(identifier)));
        assert(warnings_view(warnings@) =~= warn0 + seq![WarningSpec::TooDeep(identifier@)]);
        assert(output@ =~= out0 + Seq::<char>::empty());
        return ;
    }
    let found = snippets.get(identifier);
    let hit: Option<(usize, &Param)> = if scopes.len() == 0 {
        None
    } else {
        let top = scopes.len() - 1;
        assert(spec_scopes.last() == scope_view(scopes@[top as int]@));
        assert(spec_scopes.drop_last() =~= spec_scopes.take(top as int));
        match lookup_binding(&scopes[top], identifier) {
            Some(param) => Some((top, param)),
            None => if found.is_some() {
                None
            } else {
                lookup_in_stack(scopes, top, identifier)
            },
        }
    };
    assert(match hit {
        Some((level, param)) => binding_of(identifier@, snippets@, spec_scopes) == Some(
            (level as int, param@),
        ) && level < scopes.len(),
        None => binding_of(identifier@, snippets@, spec_scopes).is_none(),
    });
    match hit {
        Some((_, Param::Value(text))) => {
            push_str(output, text.as_str());
            assert(warnings_view(warnings@) =~= warn0 + Seq::<WarningSpec>::empty());
        },
        Some((level, Param::Alias { target, params })) => {
            if same_text(target.as_str(), identifier) {
                warnings.push(Warning::SelfReference(String::from_str(identifier)));
                assert(warnings_view(warnings@) =~= warn0 + seq![
                    WarningSpec::SelfReference(identifier@),
                ]);
                assert(output@ =~= out0 + Seq::<char>::empty());
            } else {
                let mut stack = clone_stack(scopes, level);
                let mut merged = clone_scope(&scopes[level]);
                let mut extra = clone_scope(params);
                let ghost merged0 = scope_view(merged@);
                let ghost extra0 = scope_view(extra@);
                merged.append(&mut extra);
                assert(scope_view(merged@) =~= merged0 + extra0);
                let ghost stack0 = stack_view(stack@);
                stack.push(merged);
                assert(stack_view(stack@) =~= stack0.push(scope_view(merged@)));
                assert(hit.unwrap().1@->params =~= scope_view(params@));
                assert(spec_scopes[level as int] == scope_view(scopes@[level as int]@));
                assert(stack_view(stack@) =~= spec_scopes.take(level as int).push(
                    spec_scopes[level as int] + hit.unwrap().1@->params,
                ));
                substitude_params(
                    target.as_str(),
                    site,
                    snippets,
                    &stack,
                    depth - 1,
                    output,
                    warnings,
                );
            }
        },
        None => match found {
            Some(snippet) => {
                let separator = extract_join_str(site);
                let input = snippet.raw_chars(separator.as_str());
                if snippet.raw {
                    push_all(output, &input);
                    assert(warnings_view(warnings@) =~= warn0 + Seq::<WarningSpec>::empty());
                } else {
                    let fragments = CodeblockParser::parse_chars(&input);
                    let scope = extract_snippet_params(&site.attributes, scopes);
                    proof {
                        site.lemma_attributes();
                    }
                    let mut stack = clone_stack(scopes, scopes.len());
                    assert(spec_scopes.take(scopes.len() as int) =~= spec_scopes);
                    let ghost stack0 = stack_view(stack@);
                    stack.push(scope);
                    assert(stack_view(stack@) =~= stack0.push(scope_view(scope@)));
                    merge_dependencies_inner(
                        &fragments,
                        snippets,
                        &stack,
                        depth - 1,
                        output,
                        warnings,
                    );
                }
            },
            None => {
                warnings.push(Warning::Unresolved(String::from_str(identifier)));
                assert(warnings_view(warnings@) =~= warn0 + seq![
                    WarningSpec::Unresolved(identifier@),
                ]);
                assert(output@ =~= out0 + Seq::<char>::empty());
            },
        },
    }
}

/// Appends to `output` what the items expand to, one after the other, and
/// to `warnings` what went wrong on the way.
pub fn merge_dependencies_inner(
    items: &Vec<Fragment>,
    snippets: &SnippetDB,
    scopes: &Vec<Vec<Binding>>,
    depth: usize,
    output: &mut Vec<char>,
    warnings: &mut Vec<Warning>,
)
    requires
        snippets.wf(),
    ensures
        final(output)@ == old(output)@ + expand_items(
            fragments_view(items@),
            snippets@,
            stack_view(scopes@),
            depth as nat,
        ).text,
        warnings_view(final(warnings)@) == warnings_view(old(warnings)@) + expand_items(
            fragments_view(items@),
            snippets@,
            stack_view(scopes@),
            depth as nat,
        ).warnings,
    decreases depth, 1nat,
{
    let ghost out0 = output@;
    let ghost warn0 = warnings_view(warnings@);
    let ghost spec_items = fragments_view(items@);
    let ghost spec_scopes = stack_view(scopes@);
    let mut i: usize = 0;
    assert(spec_items.take(0) =~= seq![]);
    assert(output@ =~= out0 + Seq::<char>::empty());
    assert(warnings_view(warnings@) =~= warn0 + Seq::<WarningSpec>::empty());
    while i < items.len()
        invariant
            i <= items.len(),
            snippets.wf(),
            spec_items == fragments_view(items@),
            spec_scopes == stack_view(scopes@),
            output@ == out0 + expand_items(
                spec_items.take(i as int),
                snippets@,
                spec_scopes,
                depth as nat,
            ).text,
            warnings_view(warnings@) == warn0 + expand_items(
                spec_items.take(i as int),
                snippets@,
                spec_scopes,
                depth as nat,
            ).warnings,
        decreases items.len() - i,
    {
        let ghost out1 = output@;
        let ghost warn1 = warnings_view(warnings@);
        let ghost done = expand_items(spec_items.take(i as int), snippets@, spec_scopes, depth as nat);
        let ghost step = expand_item(spec_items[i as int], snippets@, spec_scopes, depth as nat);
        assert(spec_items.take(i as int + 1).drop_last() =~= spec_items.take(i as int));
        assert(spec_items.take(i as int + 1).last() == spec_items[i as int]);
        assert(spec_items[i as int] == items@[i as int]@);
        match &items[i] {
            Fragment::Code(text) => {
                push_str(output, text.as_str());
                assert(warnings_view(warnings@) =~= warn1 + Seq::<WarningSpec>::empty());
            },
            Fragment::Reference(reference) => {
                proof {
                    reference.lemma_attributes();
                }
                substitude_params(
                    reference.identifier.as_str(),
                    reference,
                    snippets,
                    scopes,
                    depth,
                    output,
                    warnings,
                );
            },
            Fragment::Indented { indentation, reference } => {
                proof {
                    reference.lemma_attributes();
                }
                let mut buffer: Vec<char> = Vec::new();
                substitude_params(
                    reference.identifier.as_str(),
                    reference,
                    snippets,
                    scopes,
                    depth,
                    &mut buffer,
                    warnings,
                );
                assert(buffer@ =~= resolve(
                    reference.identifier@,
                    reference@,
                    snippets@,
                    spec_scopes,
                    depth as nat,
                ).text);
                indent(&buffer, indentation.as_str(), output);
            },
        }
        assert(output@ =~= out1 + step.text);
        assert(warnings_view(warnings@) =~= warn1 + step.warnings);
        assert(output@ =~= out0 + done.followed_by(step).text);
        assert(warnings_view(warnings@) =~= warn0 + done.followed_by(step).warnings);
        i += 1;
    }
    assert(spec_items.take(i as int) =~= spec_items);
}

/// The outcome of weaving a body: the text and the warnings.
pub fn weave_body(input: &str, snippets: &SnippetDB) -> (r: (String, Vec<Warning>))
    requires
        snippets.wf(),
    ensures
        r.0@ == weave(input@, snippets@).text,
        warnings_view(r.1@) == weave(input@, snippets@).warnings,
{
    let fragments = CodeblockParser::parse(input);
    let mut scopes: Vec<Vec<Binding>> = Vec::new();
    scopes.push(Vec::new());
    assert(scope_view(scopes@[0]@) =~= Seq::<BindingSpec>::empty());
    assert(stack_view(scopes@) =~= seq![Seq::<BindingSpec>::empty()]);
    let mut output: Vec<char> = Vec::new();
    let mut warnings: Vec<Warning> = Vec::new();
    assert(warnings_view(warnings@) =~= Seq::<WarningSpec>::empty());
    let names = snippets.len();
    let limit = if names <= usize::MAX - MAX_DEPTH {
        names + MAX_DEPTH
    } else {
        usize::MAX
    };
    assert(limit == depth_limit(snippets@));
    merge_dependencies_inner(&fragments, snippets, &scopes, limit, &mut output, &mut warnings);
    assert(output@ =~= weave(input@, snippets@).text);
    assert(warnings_view(warnings@) =~= weave(input@, snippets@).warnings);
    (from_chars(&output), warnings)
}

/// The body with every reference replaced by what it resolves to in the
/// store. `key` names the fragment that the body belongs to.
pub fn merge_dependencies(input: &str, snippets: &SnippetDB, key: &str) -> (r: String)
    requires
        snippets.wf(),
    ensures
        r@ == weave(input@, snippets@).text,
{
    let (text, _) = weave_body(input, snippets);
    text
}

} // verus!
