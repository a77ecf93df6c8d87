//! Readers of whole texts: each takes a text, reads one part of the Formula
//! grammar at its start, and gives back what is left of the text together
//! with what it read, or `None` where the text does not start with that part.
use crate::expr_parser::{
    spec_base_expr, spec_binary, spec_constraint, spec_expr, spec_predicate, spec_setcompre,
    spec_type_constraint,
};
use crate::expression::{Binary, Constraint, Expr, Predicate, SetComprehension, TypeConstraint};
use crate::parser::{
    spec_atom, spec_comment, spec_composite, spec_id, spec_param_id, spec_skip,
    spec_tagged_typename, spec_term, spec_typename, spec_variable, spec_varname, strings_view,
    Input,
};
use crate::rule_parser::{
    dotted, spec_composite_typedef, spec_conformance, spec_rule, spec_typedef, spec_union_typedef,
    RuleAst,
};
use crate::domain::DomainAst;
use crate::module_parser::{
    program_modules, program_of, program_untagged, spec_domain, spec_model, spec_module_sentence,
    spec_subdomain, spec_tagged_domain, spec_transform, spec_transform_param, spec_transformation,
    transform_untagged, untagged_param, ModelAst, ModuleSentenceAst, ProgramAst, TaggedDomainAst,
    TransformAst, TransformParamAst, TransformationAst,
};
use crate::term::{AtomicTerm, TermView};
use crate::type_def::{AliasTypeDefAst, RawTypeDefAst};
use crate::type_system::option_text_view;
use vstd::prelude::*;

verus! {

/// The text from position `e` on.
pub open spec fn rest(s: Seq<char>, e: int) -> Seq<char> {
    s.subrange(e, s.len() as int)
}

/// A comment: `//`, anything but a line feed, and the line feed; gives the
/// comment.
pub fn comment(text: &str) -> (r: Option<(String, String)>)
    ensures
        match r {
            Some((left, c)) => spec_comment(text@, 0) matches Some(e) && left@ == rest(text@, e) && c@ == text@.subrange(0, e),
            None => spec_comment(text@, 0) is None,
        },
{
    let input = Input::new(text);
    match input.read_comment(0) {
        Some(e) => Some((input.slice(e, input.len()), input.slice(0, e))),
        None => None,
    }
}

/// Comments and white space, as many as follow one another; gives what was
/// skipped. This always succeeds.
pub fn skip(text: &str) -> (r: Option<(String, String)>)
    ensures
        r matches Some((left, c)) && left@ == rest(text@, spec_skip(text@, 0)) && c@ == text@.subrange(0, spec_skip(text@, 0)),
{
    let input = Input::new(text);
    let e = input.read_skip(0);
    Some((input.slice(e, input.len()), input.slice(0, e)))
}

/// A name: a letter followed by letters and digits.
pub fn id(text: &str) -> (r: Option<(String, String)>)
    ensures
        match r {
            Some((left, x)) => spec_id(text@, 0) matches Some(e) && left@ == rest(text@, e) && x@ == text@.subrange(0, e),
            None => spec_id(text@, 0) is None,
        },
{
    let input = Input::new(text);
    match input.read_id(0) {
        Some(e) => Some((input.slice(e, input.len()), input.slice(0, e))),
        None => None,
    }
}

/// The name of a variable: `_`, or a letter followed by letters, digits and
/// underscores, and then quote marks.
pub fn varname(text: &str) -> (r: Option<(String, String)>)
    ensures
        match r {
            Some((left, x)) => spec_varname(text@, 0) matches Some(e) && left@ == rest(text@, e) && x@ == text@.subrange(0, e),
            None => spec_varname(text@, 0) is None,
        },
{
    let input = Input::new(text);
    match input.read_varname(0) {
        Some(e) => Some((input.slice(e, input.len()), input.slice(0, e))),
        None => None,
    }
}

fn alias_of(names: Vec<String>) -> (r: AliasTypeDefAst)
    requires
        names@.len() > 0,
    ensures
        r@ == dotted(strings_view(names@)),
{
    let ghost all = names@;
    let mut scopes = names;
    let name = scopes.pop().unwrap();
    proof {
        assert(scopes@.map_values(|p: String| p@).push(name@) =~= strings_view(all));
    }
    AliasTypeDefAst { chained_scopes: scopes, name }
}

/// A type name: names separated by dots.
pub fn typename(text: &str) -> (r: Option<(String, AliasTypeDefAst)>)
    ensures
        match r {
            Some((left, t)) => spec_typename(text@, 0) matches Some((names, e)) && left@ == rest(text@, e) && t@ == dotted(names),
            None => spec_typename(text@, 0) is None,
        },
{
    let input = Input::new(text);
    match input.read_typename(0) {
        Some((names, e)) => {
            assert(strings_view(names@).len() > 0);
            Some((input.slice(e, input.len()), alias_of(names)))
        },
        None => None,
    }
}

/// A type name with an optional label, as in `src: Node`.
pub fn tagged_typename(text: &str) -> (r: Option<(String, (Option<String>, AliasTypeDefAst))>)
    ensures
        match r {
            Some((left, (tag, t))) => spec_tagged_typename(text@, 0) matches Some((g, names, e)) && left@ == rest(text@, e) && option_text_view(tag) == g && t@ == dotted(names),
            None => spec_tagged_typename(text@, 0) is None,
        },
{
    let input = Input::new(text);
    match input.read_tagged_typename(0) {
        Some((tag, names, e)) => {
            assert(strings_view(names@).len() > 0);
            Some((input.slice(e, input.len()), (tag, alias_of(names))))
        },
        None => None,
    }
}

/// An atom: a number, `true`, `false`, or a string between double quotes.
pub fn atom(text: &str) -> (r: Option<(String, AtomicTerm)>)
    ensures
        match r {
            Some((left, t)) => spec_atom(text@, 0) matches Some((a, e)) && left@ == rest(text@, e) && t@ == TermView::Atom(a),
            None => spec_atom(text@, 0) is None,
        },
{
    let input = Input::new(text);
    match input.read_atom(0) {
        Some((a, e)) => Some((input.slice(e, input.len()), AtomicTerm::gen_atom_term(a))),
        None => None,
    }
}

/// `%name`, read as a variable.
pub fn param_id(text: &str) -> (r: Option<(String, AtomicTerm)>)
    ensures
        match r {
            Some((left, x)) => spec_param_id(text@, 0) matches Some((v, e)) && left@ == rest(text@, e) && x@ == v,
            None => spec_param_id(text@, 0) is None,
        },
{
    let input = Input::new(text);
    match input.read_param_id(0) {
        Some((x, e)) => Some((input.slice(e, input.len()), x)),
        None => None,
    }
}

/// A variable, with fragments after dots, as in `x.src.id`.
pub fn variable(text: &str) -> (r: Option<(String, AtomicTerm)>)
    ensures
        match r {
            Some((left, x)) => spec_variable(text@, 0) matches Some((v, e)) && left@ == rest(text@, e) && x@ == v,
            None => spec_variable(text@, 0) is None,
        },
{
    let input = Input::new(text);
    match input.read_variable(0) {
        Some((x, e)) => Some((input.slice(e, input.len()), x)),
        None => None,
    }
}

/// A variable, as `variable` reads it.
pub fn variable_ast(text: &str) -> (r: Option<(String, AtomicTerm)>)
    ensures
        match r {
            Some((left, x)) => spec_variable(text@, 0) matches Some((v, e)) && left@ == rest(text@, e) && x@ == v,
            None => spec_variable(text@, 0) is None,
        },
{
    let input = Input::new(text);
    match input.read_variable(0) {
        Some((x, e)) => Some((input.slice(e, input.len()), x)),
        None => None,
    }
}

/// A composite term such as `Edge(a, Node(1))`.
pub fn composite(text: &str) -> (r: Option<(String, AtomicTerm)>)
    ensures
        match r {
            Some((left, x)) => spec_composite(text@, 0) matches Some((v, e)) && left@ == rest(text@, e) && x@ == v,
            None => spec_composite(text@, 0) is None,
        },
{
    let input = Input::new(text);
    match input.read_composite(0) {
        Some((x, e)) => Some((input.slice(e, input.len()), x)),
        None => None,
    }
}

/// A term: a composite term, an atom or a variable.
pub fn term(text: &str) -> (r: Option<(String, AtomicTerm)>)
    ensures
        match r {
            Some((left, x)) => spec_term(text@, 0) matches Some((v, e)) && left@ == rest(text@, e) && x@ == v,
            None => spec_term(text@, 0) is None,
        },
{
    let input = Input::new(text);
    match input.read_term(0) {
        Some((x, e)) => Some((input.slice(e, input.len()), x)),
        None => None,
    }
}

/// A composite type definition such as `Edge ::= new(src: Node, dst: Node).`
pub fn composite_typedef(text: &str) -> (r: Option<(String, RawTypeDefAst)>)
    ensures
        match r {
            Some((left, x)) => spec_composite_typedef(text@, 0) matches Some((v, e)) && left@ == rest(text@, e) && x@ == v,
            None => spec_composite_typedef(text@, 0) is None,
        },
{
    let input = Input::new(text);
    match input.read_composite_typedef(0) {
        Some((x, e)) => Some((input.slice(e, input.len()), x)),
        None => None,
    }
}

/// A union type definition such as `X ::= A + B.`
pub fn union_typedef(text: &str) -> (r: Option<(String, RawTypeDefAst)>)
    ensures
        match r {
            Some((left, x)) => spec_union_typedef(text@, 0) matches Some((v, e)) && left@ == rest(text@, e) && x@ == v,
            None => spec_union_typedef(text@, 0) is None,
        },
{
    let input = Input::new(text);
    match input.read_union_typedef(0) {
        Some((x, e)) => Some((input.slice(e, input.len()), x)),
        None => None,
    }
}

/// A type definition: a composite one, or else a union.
pub fn typedef(text: &str) -> (r: Option<(String, RawTypeDefAst)>)
    ensures
        match r {
            Some((left, x)) => spec_typedef(text@, 0) matches Some((v, e)) && left@ == rest(text@, e) && x@ == v,
            None => spec_typedef(text@, 0) is None,
        },
{
    let input = Input::new(text);
    match input.read_typedef(0) {
        Some((x, e)) => Some((input.slice(e, input.len()), x)),
        None => None,
    }
}

/// An aggregation such as `count({ x | x is Edge(a, b) })`.
pub fn setcompre(text: &str) -> (r: Option<(String, SetComprehension)>)
    ensures
        match r {
            Some((left, x)) => spec_setcompre(text@, 0) matches Some((v, e)) && left@ == rest(text@, e) && x@ == v,
            None => spec_setcompre(text@, 0) is None,
        },
{
    let input = Input::new(text);
    match input.read_setcompre(0) {
        Some((x, e)) => Some((input.slice(e, input.len()), x)),
        None => None,
    }
}

/// A simple expression: an aggregation, `%name`, a variable, an atom, or an
/// arithmetic expression between brackets.
pub fn base_expr(text: &str) -> (r: Option<(String, Expr)>)
    ensures
        match r {
            Some((left, x)) => spec_base_expr(text@, 0) matches Some((v, e)) && left@ == rest(text@, e) && x@ == v,
            None => spec_base_expr(text@, 0) is None,
        },
{
    let input = Input::new(text);
    match input.read_base_expr(0) {
        Some((x, e)) => Some((input.slice(e, input.len()), x)),
        None => None,
    }
}

/// An expression.
pub fn expr(text: &str) -> (r: Option<(String, Expr)>)
    ensures
        match r {
            Some((left, x)) => spec_expr(text@, 0) matches Some((v, e)) && left@ == rest(text@, e) && x@ == v,
            None => spec_expr(text@, 0) is None,
        },
{
    let input = Input::new(text);
    match input.read_expr(0) {
        Some((x, e)) => Some((input.slice(e, input.len()), x)),
        None => None,
    }
}

/// A comparison of two expressions.
pub fn binary(text: &str) -> (r: Option<(String, Binary)>)
    ensures
        match r {
            Some((left, x)) => spec_binary(text@, 0) matches Some((v, e)) && left@ == rest(text@, e) && x@ == v,
            None => spec_binary(text@, 0) is None,
        },
{
    let input = Input::new(text);
    match input.read_binary(0) {
        Some((x, e)) => Some((input.slice(e, input.len()), x)),
        None => None,
    }
}

/// A predicate: an optional `no`, an optional `name is `, and a composite term.
pub fn predicate(text: &str) -> (r: Option<(String, Predicate)>)
    ensures
        match r {
            Some((left, x)) => spec_predicate(text@, 0) matches Some((v, e)) && left@ == rest(text@, e) && x@ == v,
            None => spec_predicate(text@, 0) is None,
        },
{
    let input = Input::new(text);
    match input.read_predicate(0) {
        Some((x, e)) => Some((input.slice(e, input.len()), x)),
        None => None,
    }
}

/// A type constraint such as `x is Node` or `x : Node`.
pub fn type_constraint(text: &str) -> (r: Option<(String, TypeConstraint)>)
    ensures
        match r {
            Some((left, x)) => spec_type_constraint(text@, 0) matches Some((v, e)) && left@ == rest(text@, e) && x@ == v,
            None => spec_type_constraint(text@, 0) is None,
        },
{
    let input = Input::new(text);
    match input.read_type_constraint(0) {
        Some((x, e)) => Some((input.slice(e, input.len()), x)),
        None => None,
    }
}

/// A constraint: a predicate, a comparison or a type constraint.
pub fn constraint(text: &str) -> (r: Option<(String, Constraint)>)
    ensures
        match r {
            Some((left, x)) => spec_constraint(text@, 0) matches Some((v, e)) && left@ == rest(text@, e) && x@ == v,
            None => spec_constraint(text@, 0) is None,
        },
{
    let input = Input::new(text);
    match input.read_constraint(0) {
        Some((x, e)) => Some((input.slice(e, input.len()), x)),
        None => None,
    }
}

/// A rule: head terms, `:-`, body constraints and a dot.
pub fn rule(text: &str) -> (r: Option<(String, RuleAst)>)
    ensures
        match r {
            Some((left, x)) => spec_rule(text@, 0) matches Some((v, e)) && left@ == rest(text@, e) && x@ == v,
            None => spec_rule(text@, 0) is None,
        },
{
    let input = Input::new(text);
    match input.read_rule(0) {
        Some((x, e)) => Some((input.slice(e, input.len()), x)),
        None => None,
    }
}

/// A conformance rule: `conforms`, body constraints and a dot.
pub fn conformance(text: &str) -> (r: Option<(String, RuleAst)>)
    ensures
        match r {
            Some((left, x)) => spec_conformance(text@, 0) matches Some((v, e)) && left@ == rest(text@, e) && x@ == v,
            None => spec_conformance(text@, 0) is None,
        },
{
    let input = Input::new(text);
    match input.read_conformance(0) {
        Some((x, e)) => Some((input.slice(e, input.len()), x)),
        None => None,
    }
}

/// A sentence of a module: a rule, a conformance rule, a type definition, or a
/// term followed by a dot.
pub fn module_sentence(text: &str) -> (r: Option<(String, ModuleSentenceAst)>)
    ensures
        match r {
            Some((left, x)) => spec_module_sentence(text@, 0) matches Some((v, e)) && left@ == rest(text@, e) && x@ == v,
            None => spec_module_sentence(text@, 0) is None,
        },
{
    let input = Input::new(text);
    match input.read_module_sentence(0) {
        Some((x, e)) => Some((input.slice(e, input.len()), x)),
        None => None,
    }
}

/// An included domain: `scope :: Domain`, or the name of a domain; gives the
/// scope, if any, and the domain's name.
pub fn subdomain(text: &str) -> (r: Option<(String, (Option<String>, String))>)
    ensures
        match r {
            Some((left, x)) => spec_subdomain(text@, 0) matches Some((v, e)) && left@ == rest(text@, e)
                && v == (option_text_view(x.0), x.1@),
            None => spec_subdomain(text@, 0) is None,
        },
{
    let input = Input::new(text);
    match input.read_subdomain(0) {
        Some((x, e)) => Some((input.slice(e, input.len()), x)),
        None => None,
    }
}

/// A domain: `domain`, its name, what it includes, and its sentences between
/// braces.
pub fn domain(text: &str) -> (r: Option<(String, DomainAst)>)
    ensures
        match r {
            Some((left, x)) => spec_domain(text@, 0) matches Some((v, e)) && left@ == rest(text@, e) && x@ == v,
            None => spec_domain(text@, 0) is None,
        },
{
    let input = Input::new(text);
    match input.read_domain(0) {
        Some((x, e)) => Some((input.slice(e, input.len()), x)),
        None => None,
    }
}

/// A model: `model`, its name, `of` and its domain, what it includes, and its
/// terms between braces.
pub fn model(text: &str) -> (r: Option<(String, ModelAst)>)
    ensures
        match r {
            Some((left, x)) => spec_model(text@, 0) matches Some((v, e)) && left@ == rest(text@, e) && x@ == v,
            None => spec_model(text@, 0) is None,
        },
{
    let input = Input::new(text);
    match input.read_model(0) {
        Some((x, e)) => Some((input.slice(e, input.len()), x)),
        None => None,
    }
}

/// A domain under a name: `tag :: Domain`.
pub fn tagged_domain(text: &str) -> (r: Option<(String, TaggedDomainAst)>)
    ensures
        match r {
            Some((left, x)) => spec_tagged_domain(text@, 0) matches Some((v, e)) && left@ == rest(text@, e) && x@ == v,
            None => spec_tagged_domain(text@, 0) is None,
        },
{
    let input = Input::new(text);
    match input.read_tagged_domain(0) {
        Some((x, e)) => Some((input.slice(e, input.len()), x)),
        None => None,
    }
}

/// A parameter of a transformation: a domain or a type under a name. A type
/// without a name is not accepted here.
pub fn transform_param(text: &str) -> (r: Option<(String, TransformParamAst)>)
    requires
        !untagged_param(text@, 0),
    ensures
        match r {
            Some((left, x)) => spec_transform_param(text@, 0) matches Some((v, e)) && left@ == rest(text@, e) && x@ == v,
            None => spec_transform_param(text@, 0) is None,
        },
{
    let input = Input::new(text);
    match input.read_transform_param(0) {
        Some((x, e)) => Some((input.slice(e, input.len()), x)),
        None => None,
    }
}

/// A transformation: `transform`, its name, its parameters, `returns` and the
/// domains it returns, and its sentences between braces. A parameter that is
/// a type without a name is not accepted.
pub fn transform(text: &str) -> (r: Option<(String, TransformAst)>)
    requires
        !transform_untagged(text@, 0),
    ensures
        match r {
            Some((left, x)) => spec_transform(text@, 0) matches Some((v, e)) && left@ == rest(text@, e) && x@ == v,
            None => spec_transform(text@, 0) is None,
        },
{
    let input = Input::new(text);
    match input.read_transform(0) {
        Some((x, e)) => Some((input.slice(e, input.len()), x)),
        None => None,
    }
}

/// The use of a transformation: `result = Name(term, ...)`.
pub fn transformation(text: &str) -> (r: Option<(String, TransformationAst)>)
    ensures
        match r {
            Some((left, x)) => spec_transformation(text@, 0) matches Some((v, e)) && left@ == rest(text@, e) && x@ == v,
            None => spec_transformation(text@, 0) is None,
        },
{
    let input = Input::new(text);
    match input.read_transformation(0) {
        Some((x, e)) => Some((input.slice(e, input.len()), x)),
        None => None,
    }
}

/// A program: its modules, each with comments and white space around it, as
/// many as follow one another. This always succeeds.
pub fn program(text: &str) -> (r: Option<(String, ProgramAst)>)
    requires
        !program_untagged(text@, 0),
    ensures
        r matches Some((left, x)) && left@ == rest(text@, program_modules(text@, 0).1)
            && x@ == program_of(program_modules(text@, 0).0),
{
    let input = Input::new(text);
    let (x, e) = input.read_program(0);
    Some((input.slice(e, input.len()), x))
}

} // verus!
