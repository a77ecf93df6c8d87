//! The Formula grammar of type definitions and rules.
use crate::expr_parser::{has_char, spec_constraint};
use crate::expression::{constraints_view, terms_view, Constraint, ConstraintView};
use crate::parser::{
    has_tag, space0, spec_composite, spec_id, spec_skip, spec_tagged_typename, spec_typename,
    spec_variable, strings_view, terms_of, Input,
};
use crate::module::MetaInfo;
use crate::rule::{fresh_variables_needed, normalized_body, Rule};
use crate::sort_resolution::{resolve_constraint_list, resolve_constraints, resolve_term_list, resolve_terms};
use crate::term::{AtomicTerm, TermView};
use crate::text::join_text;
use crate::type_def::{
    aliases_view, args_def_view, AliasTypeDefAst, CompositeTypeDefAst, RawTypeDefAst, TypeDefView,
    UnionTypeDefAst,
};
use crate::type_system::option_text_view;
use vstd::prelude::*;

verus! {

/// The type name written as dotted names.
pub open spec fn dotted(names: Seq<Seq<char>>) -> Seq<char> {
    join_text(names, "."@)
}

/// `::=` with spaces around it; gives where what follows starts.
pub open spec fn def_sign(s: Seq<char>, i: int) -> Option<int> {
    let a = space0(s, i);
    if has_tag(s, a, "::="@) {
        Some(space0(s, a + 3))
    } else {
        None
    }
}

/// Where what follows an optional `new` with spaces around it starts.
pub open spec fn new_keyword(s: Seq<char>, i: int) -> int {
    let a = space0(s, i);
    if has_tag(s, a, "new"@) {
        space0(s, a + 3)
    } else {
        i
    }
}

/// An argument of a composite type definition: an optional label and a type
/// name.
pub open spec fn typedef_arg(s: Seq<char>, i: int) -> Option<((Option<Seq<char>>, Seq<char>), int)> {
    match spec_tagged_typename(s, i) {
        Some((tag, names, e)) => Some(((tag, dotted(names)), e)),
        None => None,
    }
}

/// Further arguments, each after a comma with spaces around it.
pub open spec fn more_typedef_args(s: Seq<char>, i: int) -> (Seq<(Option<Seq<char>>, Seq<char>)>, int)
    decreases s.len() - i,
{
    let a = space0(s, i);
    if has_char(s, a, ',') {
        match typedef_arg(s, space0(s, a + 1)) {
            Some((x, e)) => if i < e <= s.len() {
                let more = more_typedef_args(s, e);
                (seq![x] + more.0, more.1)
            } else {
                (Seq::empty(), i)
            },
            None => (Seq::empty(), i),
        }
    } else {
        (Seq::empty(), i)
    }
}

/// The arguments of a composite type definition, possibly none.
pub open spec fn typedef_args(s: Seq<char>, i: int) -> (Seq<(Option<Seq<char>>, Seq<char>)>, int) {
    match typedef_arg(s, i) {
        Some((x, e)) => if i < e <= s.len() {
            let more = more_typedef_args(s, e);
            (seq![x] + more.0, more.1)
        } else {
            (Seq::empty(), i)
        },
        None => (Seq::empty(), i),
    }
}

/// A composite type definition: `Name ::= new(label: Type, ...).`, where `new`
/// may be left out and labels are optional.
pub open spec fn spec_composite_typedef(s: Seq<char>, i: int) -> Option<(TypeDefView, int)> {
    match spec_id(s, i) {
        Some(e) => match def_sign(s, e) {
            Some(a) => {
                let c = space0(s, new_keyword(s, a));
                if has_char(s, c, '(') {
                    let (args, f) = typedef_args(s, space0(s, c + 1));
                    let g = space0(s, f);
                    if has_char(s, g, ')') {
                        let h = space0(s, g + 1);
                        if has_char(s, h, '.') {
                            Some((TypeDefView::Composite(s.subrange(i, e), args), h + 1))
                        } else {
                            None
                        }
                    } else {
                        None
                    }
                } else {
                    None
                }
            },
            None => None,
        },
        None => None,
    }
}

/// A member of a union type definition, with spaces around it.
pub open spec fn union_member(s: Seq<char>, i: int) -> Option<(Seq<char>, int)> {
    match spec_typename(s, space0(s, i)) {
        Some((names, e)) => Some((dotted(names), space0(s, e))),
        None => None,
    }
}

/// Further members, each after `+`.
pub open spec fn more_union_members(s: Seq<char>, i: int) -> (Seq<Seq<char>>, int)
    decreases s.len() - i,
{
    if has_char(s, i, '+') {
        match union_member(s, i + 1) {
            Some((x, e)) => if i < e <= s.len() {
                let more = more_union_members(s, e);
                (seq![x] + more.0, more.1)
            } else {
                (Seq::empty(), i)
            },
            None => (Seq::empty(), i),
        }
    } else {
        (Seq::empty(), i)
    }
}

/// The members of a union type definition separated by `+`, possibly none.
pub open spec fn union_members(s: Seq<char>, i: int) -> (Seq<Seq<char>>, int) {
    match union_member(s, i) {
        Some((x, e)) => if i < e <= s.len() {
            let more = more_union_members(s, e);
            (seq![x] + more.0, more.1)
        } else {
            (Seq::empty(), i)
        },
        None => (Seq::empty(), i),
    }
}

/// A union type definition: `Name ::= A + B + C.`
pub open spec fn spec_union_typedef(s: Seq<char>, i: int) -> Option<(TypeDefView, int)> {
    match spec_id(s, i) {
        Some(e) => match def_sign(s, e) {
            Some(a) => {
                let (subs, b) = union_members(s, a);
                if has_char(s, b, '.') {
                    Some((TypeDefView::Union(s.subrange(i, e), subs), b + 1))
                } else {
                    None
                }
            },
            None => None,
        },
        None => None,
    }
}

/// A type definition: a composite one, or else a union.
pub open spec fn spec_typedef(s: Seq<char>, i: int) -> Option<(TypeDefView, int)> {
    match spec_composite_typedef(s, i) {
        Some(r) => Some(r),
        None => spec_union_typedef(s, i),
    }
}

/// Where what follows the character `c`, with comments and white space around
/// it, starts.
pub open spec fn skip_sep(s: Seq<char>, i: int, c: char) -> Option<int> {
    let a = spec_skip(s, i);
    if has_char(s, a, c) {
        Some(spec_skip(s, a + 1))
    } else {
        None
    }
}

/// A term of a rule's head: a composite term or a variable.
pub open spec fn head_term(s: Seq<char>, i: int) -> Option<(TermView, int)> {
    match spec_composite(s, i) {
        Some(r) => Some(r),
        None => spec_variable(s, i),
    }
}

/// Further head terms, each after a comma.
pub open spec fn more_head_terms(s: Seq<char>, i: int) -> (Seq<TermView>, int)
    decreases s.len() - i,
{
    match skip_sep(s, i, ',') {
        Some(a) => match head_term(s, a) {
            Some((t, e)) => if i < e <= s.len() {
                let more = more_head_terms(s, e);
                (seq![t] + more.0, more.1)
            } else {
                (Seq::empty(), i)
            },
            None => (Seq::empty(), i),
        },
        None => (Seq::empty(), i),
    }
}

/// The head terms of a rule separated by commas, possibly none.
pub open spec fn head_terms(s: Seq<char>, i: int) -> (Seq<TermView>, int) {
    match head_term(s, i) {
        Some((t, e)) => if i < e <= s.len() {
            let more = more_head_terms(s, e);
            (seq![t] + more.0, more.1)
        } else {
            (Seq::empty(), i)
        },
        None => (Seq::empty(), i),
    }
}

/// Further body constraints, each after a comma.
pub open spec fn more_body_constraints(s: Seq<char>, i: int) -> (Seq<ConstraintView>, int)
    decreases s.len() - i,
{
    match skip_sep(s, i, ',') {
        Some(a) => if 0 <= a <= s.len() {
            match spec_constraint(s, a) {
                Some((c, e)) => if i < e <= s.len() {
                    let more = more_body_constraints(s, e);
                    (seq![c] + more.0, more.1)
                } else {
                    (Seq::empty(), i)
                },
                None => (Seq::empty(), i),
            }
        } else {
            (Seq::empty(), i)
        },
        None => (Seq::empty(), i),
    }
}

/// The constraints of a rule's body separated by commas, possibly none.
pub open spec fn body_constraints(s: Seq<char>, i: int) -> (Seq<ConstraintView>, int) {
    match spec_constraint(s, i) {
        Some((c, e)) => if i < e <= s.len() {
            let more = more_body_constraints(s, e);
            (seq![c] + more.0, more.1)
        } else {
            (Seq::empty(), i)
        },
        None => (Seq::empty(), i),
    }
}

/// The head and body of a rule as written, before the rule is formed.
pub struct RuleAst {
    pub head: Vec<AtomicTerm>,
    pub body: Vec<Constraint>,
}

impl View for RuleAst {
    type V = (Seq<TermView>, Seq<ConstraintView>);

    open spec fn view(&self) -> (Seq<TermView>, Seq<ConstraintView>) {
        (terms_view(self.head@), constraints_view(self.body@))
    }
}

/// A rule: head terms, `:-`, body constraints and a dot; comments may stand
/// around the separators.
pub open spec fn spec_rule(s: Seq<char>, i: int) -> Option<((Seq<TermView>, Seq<ConstraintView>), int)> {
    let (head, a) = head_terms(s, i);
    let b = spec_skip(s, a);
    if has_tag(s, b, ":-"@) {
        let c = spec_skip(s, b + 2);
        let (body, d) = body_constraints(s, c);
        let f = spec_skip(s, d);
        if has_char(s, f, '.') {
            Some(((head, body), f + 1))
        } else {
            None
        }
    } else {
        None
    }
}

/// A conformance rule: `conforms`, body constraints and a dot; it has no head.
pub open spec fn spec_conformance(s: Seq<char>, i: int) -> Option<((Seq<TermView>, Seq<ConstraintView>), int)> {
    if has_tag(s, i, "conforms"@) {
        let a = spec_skip(s, i + 8);
        let (body, d) = body_constraints(s, a);
        let f = spec_skip(s, d);
        if has_char(s, f, '.') {
            Some(((Seq::empty(), body), f + 1))
        } else {
            None
        }
    } else {
        None
    }
}


/// The type named by dotted names: the last one is the name, the ones before
/// it the scopes.
pub(crate) fn alias_from_names(names: Vec<String>) -> (r: AliasTypeDefAst)
    requires
        names@.len() > 0,
    ensures
        r@ == dotted(strings_view(names@)),
{
    let ghost all = names@;
    let mut scopes = names;
    let name = scopes.pop().unwrap();
    proof {
        assert(scopes@ == all.drop_last());
        assert(scopes@.map_values(|p: String| p@).push(name@) =~= strings_view(all));
    }
    AliasTypeDefAst { chained_scopes: scopes, name }
}

impl<'a> Input<'a> {
    fn read_def_sign(&self, i: usize) -> (r: Option<usize>)
        requires
            i <= self.view_chars().len(),
        ensures
            match r {
                Some(e) => def_sign(self.view_chars(), i as int) == Some(e as int) && i < e <= self.view_chars().len(),
                None => def_sign(self.view_chars(), i as int) is None,
            },
    {
        proof {
            reveal_strlit("::=");
        }
        let n = self.len();
        let a = self.scan_class(i, 0);
        if self.has_tag(a, "::=") {
            Some(self.scan_class(a + 3, 0))
        } else {
            None
        }
    }

    fn read_new_keyword(&self, i: usize) -> (r: usize)
        requires
            i <= self.view_chars().len(),
        ensures
            r == new_keyword(self.view_chars(), i as int),
            i <= r <= self.view_chars().len(),
    {
        proof {
            reveal_strlit("new");
        }
        let n = self.len();
        let a = self.scan_class(i, 0);
        if self.has_tag(a, "new") {
            self.scan_class(a + 3, 0)
        } else {
            i
        }
    }

    fn read_typedef_arg(&self, i: usize) -> (r: Option<((Option<String>, AliasTypeDefAst), usize)>)
        requires
            self.wf(),
            i <= self.view_chars().len(),
        ensures
            match r {
                Some((x, e)) => typedef_arg(self.view_chars(), i as int) == Some(((option_text_view(x.0), x.1@), e as int)) && e <= self.view_chars().len(),
                None => typedef_arg(self.view_chars(), i as int) is None,
            },
    {
        match self.read_tagged_typename(i) {
            Some((tag, names, e)) => Some(((tag, alias_from_names(names)), e)),
            None => None,
        }
    }

    fn read_typedef_args(&self, i: usize) -> (r: (Vec<(Option<String>, AliasTypeDefAst)>, usize))
        requires
            self.wf(),
            i <= self.view_chars().len(),
        ensures
            (args_def_view(r.0@), r.1 as int) == typedef_args(self.view_chars(), i as int),
            i <= r.1 <= self.view_chars().len(),
    {
        let n = self.len();
        let mut out: Vec<(Option<String>, AliasTypeDefAst)> = Vec::new();
        match self.read_typedef_arg(i) {
            Some((x, e)) => {
                if !(i < e) {
                    assert(args_def_view(out@) =~= Seq::empty());
                    return (out, i);
                }
                let ghost total = typedef_args(self.view_chars(), i as int);
                out.push(x);
                let mut pos = e;
                assert(args_def_view(out@) =~= seq![(option_text_view(x.0), x.1@)]);
                loop
                    invariant
                        self.wf(),
                        n == self.view_chars().len(),
                        i < pos <= n,
                        total == typedef_args(self.view_chars(), i as int),
                        total == (args_def_view(out@) + more_typedef_args(self.view_chars(), pos as int).0, more_typedef_args(self.view_chars(), pos as int).1),
                    decreases n - pos,
                {
                    let a = self.scan_class(pos, 0);
                    if !self.read_char(a, ',') {
                        assert(args_def_view(out@) + Seq::empty() =~= args_def_view(out@));
                        return (out, pos);
                    }
                    let b = self.scan_class(a + 1, 0);
                    match self.read_typedef_arg(b) {
                        Some((x2, e2)) => {
                            if !(pos < e2) {
                                assert(args_def_view(out@) + Seq::empty() =~= args_def_view(out@));
                                return (out, pos);
                            }
                            let ghost before = args_def_view(out@);
                            let ghost xv = (option_text_view(x2.0), x2.1@);
                            out.push(x2);
                            proof {
                                assert(args_def_view(out@) =~= before.push(xv));
                                assert(args_def_view(out@) + more_typedef_args(self.view_chars(), e2 as int).0 =~= before + (seq![xv] + more_typedef_args(self.view_chars(), e2 as int).0));
                            }
                            pos = e2;
                        },
                        None => {
                            assert(args_def_view(out@) + Seq::empty() =~= args_def_view(out@));
                            return (out, pos);
                        },
                    }
                }
            },
            None => {
                assert(args_def_view(out@) =~= Seq::empty());
                (out, i)
            },
        }
    }

    /// Read a composite type definition at `i`.
    pub fn read_composite_typedef(&self, i: usize) -> (r: Option<(RawTypeDefAst, usize)>)
        requires
            self.wf(),
            i <= self.view_chars().len(),
        ensures
            match r {
                Some((d, e)) => spec_composite_typedef(self.view_chars(), i as int) == Some((d@, e as int)) && e <= self.view_chars().len(),
                None => spec_composite_typedef(self.view_chars(), i as int) is None,
            },
    {
        let n = self.len();
        match self.read_id(i) {
            Some(e) => match self.read_def_sign(e) {
                Some(a) => {
                    let b = self.read_new_keyword(a);
                    let c = self.scan_class(b, 0);
                    if !self.read_char(c, '(') {
                        return None;
                    }
                    let d = self.scan_class(c + 1, 0);
                    let (args, f) = self.read_typedef_args(d);
                    let g = self.scan_class(f, 0);
                    if !self.read_char(g, ')') {
                        return None;
                    }
                    let h = self.scan_class(g + 1, 0);
                    if !self.read_char(h, '.') {
                        return None;
                    }
                    let def = CompositeTypeDefAst { name: self.slice(i, e), args };
                    Some((RawTypeDefAst::CompositeTypeDefAst(def), h + 1))
                },
                None => None,
            },
            None => None,
        }
    }

    fn read_union_member(&self, i: usize) -> (r: Option<(AliasTypeDefAst, usize)>)
        requires
            self.wf(),
            i <= self.view_chars().len(),
        ensures
            match r {
                Some((x, e)) => union_member(self.view_chars(), i as int) == Some((x@, e as int)) && e <= self.view_chars().len(),
                None => union_member(self.view_chars(), i as int) is None,
            },
    {
        let a = self.scan_class(i, 0);
        match self.read_typename(a) {
            Some((names, e)) => Some((alias_from_names(names), self.scan_class(e, 0))),
            None => None,
        }
    }

    fn read_union_members(&self, i: usize) -> (r: (Vec<AliasTypeDefAst>, usize))
        requires
            self.wf(),
            i <= self.view_chars().len(),
        ensures
            (aliases_view(r.0@), r.1 as int) == union_members(self.view_chars(), i as int),
            i <= r.1 <= self.view_chars().len(),
    {
        let n = self.len();
        let mut out: Vec<AliasTypeDefAst> = Vec::new();
        match self.read_union_member(i) {
            Some((x, e)) => {
                if !(i < e) {
                    assert(aliases_view(out@) =~= Seq::empty());
                    return (out, i);
                }
                let ghost total = union_members(self.view_chars(), i as int);
                out.push(x);
                let mut pos = e;
                assert(aliases_view(out@) =~= seq![x@]);
                while self.read_char(pos, '+')
                    invariant
                        self.wf(),
                        n == self.view_chars().len(),
                        i < pos <= n,
                        total == union_members(self.view_chars(), i as int),
                        total == (aliases_view(out@) + more_union_members(self.view_chars(), pos as int).0, more_union_members(self.view_chars(), pos as int).1),
                    decreases n - pos,
                {
                    match self.read_union_member(pos + 1) {
                        Some((x2, e2)) => {
                            if !(pos < e2) {
                                assert(aliases_view(out@) + Seq::empty() =~= aliases_view(out@));
                                return (out, pos);
                            }
                            let ghost before = aliases_view(out@);
                            let ghost xv = x2@;
                            out.push(x2);
                            proof {
                                assert(aliases_view(out@) =~= before.push(xv));
                                assert(aliases_view(out@) + more_union_members(self.view_chars(), e2 as int).0 =~= before + (seq![xv] + more_union_members(self.view_chars(), e2 as int).0));
                            }
                            pos = e2;
                        },
                        None => {
                            assert(aliases_view(out@) + Seq::empty() =~= aliases_view(out@));
                            return (out, pos);
                        },
                    }
                }
                assert(aliases_view(out@) + Seq::empty() =~= aliases_view(out@));
                (out, pos)
            },
            None => {
                assert(aliases_view(out@) =~= Seq::empty());
                (out, i)
            },
        }
    }

    /// Read a union type definition at `i`.
    pub fn read_union_typedef(&self, i: usize) -> (r: Option<(RawTypeDefAst, usize)>)
        requires
            self.wf(),
            i <= self.view_chars().len(),
        ensures
            match r {
                Some((d, e)) => spec_union_typedef(self.view_chars(), i as int) == Some((d@, e as int)) && e <= self.view_chars().len(),
                None => spec_union_typedef(self.view_chars(), i as int) is None,
            },
    {
        let n = self.len();
        match self.read_id(i) {
            Some(e) => match self.read_def_sign(e) {
                Some(a) => {
                    let (subs, b) = self.read_union_members(a);
                    if self.read_char(b, '.') {
                        let def = UnionTypeDefAst { name: self.slice(i, e), subtypes: subs };
                        Some((RawTypeDefAst::UnionTypeDefAst(def), b + 1))
                    } else {
                        None
                    }
                },
                None => None,
            },
            None => None,
        }
    }

    /// Read a type definition at `i`.
    pub fn read_typedef(&self, i: usize) -> (r: Option<(RawTypeDefAst, usize)>)
        requires
            self.wf(),
            i <= self.view_chars().len(),
        ensures
            match r {
                Some((d, e)) => spec_typedef(self.view_chars(), i as int) == Some((d@, e as int)) && e <= self.view_chars().len(),
                None => spec_typedef(self.view_chars(), i as int) is None,
            },
    {
        match self.read_composite_typedef(i) {
            Some(r) => Some(r),
            None => self.read_union_typedef(i),
        }
    }
}


impl<'a> Input<'a> {
    fn read_skip_sep(&self, i: usize, c: char) -> (r: Option<usize>)
        requires
            i <= self.view_chars().len(),
        ensures
            match r {
                Some(e) => skip_sep(self.view_chars(), i as int, c) == Some(e as int) && i < e <= self.view_chars().len(),
                None => skip_sep(self.view_chars(), i as int, c) is None,
            },
    {
        let n = self.len();
        let a = self.read_skip(i);
        if self.read_char(a, c) {
            Some(self.read_skip(a + 1))
        } else {
            None
        }
    }

    fn read_head_term(&self, i: usize) -> (r: Option<(AtomicTerm, usize)>)
        requires
            self.wf(),
            i <= self.view_chars().len(),
        ensures
            match r {
                Some((t, e)) => head_term(self.view_chars(), i as int) == Some((t@, e as int)) && e <= self.view_chars().len(),
                None => head_term(self.view_chars(), i as int) is None,
            },
    {
        match self.read_composite(i) {
            Some(r) => Some(r),
            None => self.read_variable(i),
        }
    }

    fn read_head_terms(&self, i: usize) -> (r: (Vec<AtomicTerm>, usize))
        requires
            self.wf(),
            i <= self.view_chars().len(),
        ensures
            (terms_of(r.0@), r.1 as int) == head_terms(self.view_chars(), i as int),
            i <= r.1 <= self.view_chars().len(),
    {
        let n = self.len();
        let mut out: Vec<AtomicTerm> = Vec::new();
        match self.read_head_term(i) {
            Some((t, e)) => {
                if !(i < e) {
                    assert(terms_of(out@) =~= Seq::empty());
                    return (out, i);
                }
                let ghost total = head_terms(self.view_chars(), i as int);
                out.push(t);
                let mut pos = e;
                assert(terms_of(out@) =~= seq![t@]);
                loop
                    invariant
                        self.wf(),
                        n == self.view_chars().len(),
                        i < pos <= n,
                        total == head_terms(self.view_chars(), i as int),
                        total == (terms_of(out@) + more_head_terms(self.view_chars(), pos as int).0, more_head_terms(self.view_chars(), pos as int).1),
                    decreases n - pos,
                {
                    match self.read_skip_sep(pos, ',') {
                        Some(a) => match self.read_head_term(a) {
                            Some((t2, e2)) => {
                                if !(pos < e2) {
                                    assert(terms_of(out@) + Seq::empty() =~= terms_of(out@));
                                    return (out, pos);
                                }
                                let ghost before = terms_of(out@);
                                out.push(t2);
                                proof {
                                    assert(terms_of(out@) =~= before.push(t2@));
                                    assert(terms_of(out@) + more_head_terms(self.view_chars(), e2 as int).0 =~= before + (seq![t2@] + more_head_terms(self.view_chars(), e2 as int).0));
                                }
                                pos = e2;
                            },
                            None => {
                                assert(terms_of(out@) + Seq::empty() =~= terms_of(out@));
                                return (out, pos);
                            },
                        },
                        None => {
                            assert(terms_of(out@) + Seq::empty() =~= terms_of(out@));
                            return (out, pos);
                        },
                    }
                }
            },
            None => {
                assert(terms_of(out@) =~= Seq::empty());
                (out, i)
            },
        }
    }

    fn read_body_constraints(&self, i: usize) -> (r: (Vec<Constraint>, usize))
        requires
            self.wf(),
            i <= self.view_chars().len(),
        ensures
            (constraints_view(r.0@), r.1 as int) == body_constraints(self.view_chars(), i as int),
            i <= r.1 <= self.view_chars().len(),
    {
        let n = self.len();
        let mut out: Vec<Constraint> = Vec::new();
        match self.read_constraint(i) {
            Some((c, e)) => {
                if !(i < e) {
                    assert(constraints_view(out@) =~= Seq::empty());
                    return (out, i);
                }
                let ghost total = body_constraints(self.view_chars(), i as int);
                out.push(c);
                let mut pos = e;
                assert(constraints_view(out@) =~= seq![c@]);
                loop
                    invariant
                        self.wf(),
                        n == self.view_chars().len(),
                        i < pos <= n,
                        total == body_constraints(self.view_chars(), i as int),
                        total == (constraints_view(out@) + more_body_constraints(self.view_chars(), pos as int).0, more_body_constraints(self.view_chars(), pos as int).1),
                    decreases n - pos,
                {
                    match self.read_skip_sep(pos, ',') {
                        Some(a) => match self.read_constraint(a) {
                            Some((c2, e2)) => {
                                if !(pos < e2) {
                                    assert(constraints_view(out@) + Seq::empty() =~= constraints_view(out@));
                                    return (out, pos);
                                }
                                let ghost before = constraints_view(out@);
                                out.push(c2);
                                proof {
                                    assert(constraints_view(out@) =~= before.push(c2@));
                                    assert(constraints_view(out@) + more_body_constraints(self.view_chars(), e2 as int).0 =~= before + (seq![c2@] + more_body_constraints(self.view_chars(), e2 as int).0));
                                }
                                pos = e2;
                            },
                            None => {
                                assert(constraints_view(out@) + Seq::empty() =~= constraints_view(out@));
                                return (out, pos);
                            },
                        },
                        None => {
                            assert(constraints_view(out@) + Seq::empty() =~= constraints_view(out@));
                            return (out, pos);
                        },
                    }
                }
            },
            None => {
                assert(constraints_view(out@) =~= Seq::empty());
                (out, i)
            },
        }
    }

    /// Read a rule at `i`.
    pub fn read_rule(&self, i: usize) -> (r: Option<(RuleAst, usize)>)
        requires
            self.wf(),
            i <= self.view_chars().len(),
        ensures
            match r {
                Some((x, e)) => spec_rule(self.view_chars(), i as int) == Some((x@, e as int)) && e <= self.view_chars().len(),
                None => spec_rule(self.view_chars(), i as int) is None,
            },
    {
        proof {
            reveal_strlit(":-");
        }
        let n = self.len();
        let (head, a) = self.read_head_terms(i);
        let b = self.read_skip(a);
        if !self.has_tag(b, ":-") {
            return None;
        }
        let c = self.read_skip(b + 2);
        let (body, d) = self.read_body_constraints(c);
        let f = self.read_skip(d);
        if self.read_char(f, '.') {
            let x = RuleAst { head, body };
            proof {
                assert(terms_view(x.head@) =~= terms_of(x.head@));
            }
            Some((x, f + 1))
        } else {
            None
        }
    }

    /// Read a conformance rule at `i`.
    pub fn read_conformance(&self, i: usize) -> (r: Option<(RuleAst, usize)>)
        requires
            self.wf(),
            i <= self.view_chars().len(),
        ensures
            match r {
                Some((x, e)) => spec_conformance(self.view_chars(), i as int) == Some((x@, e as int)) && e <= self.view_chars().len(),
                None => spec_conformance(self.view_chars(), i as int) is None,
            },
    {
        proof {
            reveal_strlit("conforms");
        }
        let n = self.len();
        if !self.has_tag(i, "conforms") {
            return None;
        }
        let a = self.read_skip(i + 8);
        let (body, d) = self.read_body_constraints(a);
        let f = self.read_skip(d);
        if self.read_char(f, '.') {
            let x = RuleAst { head: Vec::new(), body };
            proof {
                assert(terms_view(x.head@) =~= Seq::empty());
            }
            Some((x, f + 1))
        } else {
            None
        }
    }
}

impl RuleAst {
    /// The rule formed, as `Rule::new` forms it, from this head and body with
    /// their types resolved in `metainfo`; `None` where a type name has no type
    /// there.
    pub fn to_rule(&self, metainfo: &MetaInfo) -> (r: Option<Rule>)
        requires
            resolve_constraints(self@.1, metainfo.names(), metainfo.types()) matches Some(b) ==> fresh_variables_needed(b) <= i64::MAX,
        ensures
            match r {
                Some(rule) => {
                    &&& resolve_terms(self@.0, metainfo.names(), metainfo.types()) == Some(rule.head_view())
                    &&& resolve_constraints(self@.1, metainfo.names(), metainfo.types()) matches Some(b)
                    &&& rule.body_view() == normalized_body(b)
                },
                None => resolve_terms(self@.0, metainfo.names(), metainfo.types()) is None
                    || resolve_constraints(self@.1, metainfo.names(), metainfo.types()) is None,
            },
    {
        let head = match resolve_term_list(&self.head, metainfo) {
            Some(h) => h,
            None => {
                return None;
            },
        };
        let body = match resolve_constraint_list(&self.body, metainfo) {
            Some(b) => b,
            None => {
                return None;
            },
        };
        Some(Rule::new(head, body))
    }
}

} // verus!
