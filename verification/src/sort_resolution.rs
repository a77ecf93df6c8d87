//! Giving the terms, expressions and constraints read from text the types of
//! a module: each composite term gets, in place of the type it names, the type
//! of that name among the module's types.
use crate::expression::{
    constraints_view, terms_view, ArithExpr, BaseExpr, Binary, Constraint, ConstraintView, Expr,
    ExprView, Predicate, SetComprehension, TypeConstraint,
};
use crate::module::{type_named, MetaInfo};
use crate::term::{AtomicComposite, AtomicTerm, TermView};
use crate::type_system::{type_unique_form, TypeView};
use vstd::prelude::*;

verus! {

/// The term with each composite term's type replaced by the type of its name
/// among the named types; `None` where a name has no type.
pub open spec fn resolve_term(t: TermView, names: Seq<Seq<char>>, types: Seq<TypeView>) -> Option<TermView>
    decreases t,
{
    match t {
        TermView::Composite(sort, args) => match type_named(names, types, type_unique_form(sort)) {
            Some(st) => match resolve_terms(args, names, types) {
                Some(rs) => Some(TermView::Composite(st, rs)),
                None => None,
            },
            None => None,
        },
        _ => Some(t),
    }
}

/// Each of the terms resolved, or `None` where one of them cannot be.
pub open spec fn resolve_terms(ts: Seq<TermView>, names: Seq<Seq<char>>, types: Seq<TypeView>) -> Option<Seq<TermView>>
    decreases ts,
{
    if ts.len() == 0 {
        Some(Seq::empty())
    } else {
        match resolve_terms(ts.drop_last(), names, types) {
            Some(a) => match resolve_term(ts.last(), names, types) {
                Some(b) => Some(a.push(b)),
                None => None,
            },
            None => None,
        }
    }
}

/// The expression with its terms resolved.
pub open spec fn resolve_expr(e: ExprView, names: Seq<Seq<char>>, types: Seq<TypeView>) -> Option<ExprView>
    decreases e,
{
    match e {
        ExprView::Term(t) => match resolve_term(t, names, types) {
            Some(r) => Some(ExprView::Term(r)),
            None => None,
        },
        ExprView::SetCompre(vars, conds, op, d) => match resolve_terms(vars, names, types) {
            Some(vs) => match resolve_constraints(conds, names, types) {
                Some(cs) => Some(ExprView::SetCompre(vs, cs, op, d)),
                None => None,
            },
            None => None,
        },
        ExprView::Arith(op, l, r) => match resolve_expr(*l, names, types) {
            Some(a) => match resolve_expr(*r, names, types) {
                Some(b) => Some(ExprView::Arith(op, Box::new(a), Box::new(b))),
                None => None,
            },
            None => None,
        },
    }
}

/// The term of a predicate: a variable stands for the constant of that name,
/// a nullary composite term of its own type; other terms are resolved.
pub open spec fn predicate_term(t: TermView, names: Seq<Seq<char>>, types: Seq<TypeView>) -> Option<TermView> {
    match t {
        TermView::Variable(root, _) => Some(
            TermView::Composite(TypeView::Composite(root, Seq::empty()), Seq::empty()),
        ),
        _ => resolve_term(t, names, types),
    }
}

/// The constraint with its terms resolved, and the type of a type constraint
/// replaced by the type of its name.
pub open spec fn resolve_constraint(c: ConstraintView, names: Seq<Seq<char>>, types: Seq<TypeView>) -> Option<ConstraintView>
    decreases c,
{
    match c {
        ConstraintView::Predicate(neg, t, alias) => match predicate_term(t, names, types) {
            Some(r) => Some(ConstraintView::Predicate(neg, r, alias)),
            None => None,
        },
        ConstraintView::Binary(op, l, r) => match resolve_expr(l, names, types) {
            Some(a) => match resolve_expr(r, names, types) {
                Some(b) => Some(ConstraintView::Binary(op, a, b)),
                None => None,
            },
            None => None,
        },
        ConstraintView::TypeConstraint(v, sort) => match resolve_term(v, names, types) {
            Some(rv) => match type_named(names, types, type_unique_form(sort)) {
                Some(st) => Some(ConstraintView::TypeConstraint(rv, st)),
                None => None,
            },
            None => None,
        },
    }
}

/// Each of the constraints resolved, or `None` where one of them cannot be.
pub open spec fn resolve_constraints(cs: Seq<ConstraintView>, names: Seq<Seq<char>>, types: Seq<TypeView>) -> Option<Seq<ConstraintView>>
    decreases cs,
{
    if cs.len() == 0 {
        Some(Seq::empty())
    } else {
        match resolve_constraints(cs.drop_last(), names, types) {
            Some(a) => match resolve_constraint(cs.last(), names, types) {
                Some(b) => Some(a.push(b)),
                None => None,
            },
            None => None,
        }
    }
}

proof fn lemma_resolve_terms_prefix(ts: Seq<TermView>, k: int, names: Seq<Seq<char>>, types: Seq<TypeView>)
    requires
        0 <= k <= ts.len(),
        resolve_terms(ts.subrange(0, k), names, types) is None,
    ensures
        resolve_terms(ts, names, types) is None,
    decreases ts.len() - k,
{
    if k < ts.len() {
        let s = ts.subrange(0, k + 1);
        assert(s.drop_last() =~= ts.subrange(0, k));
        lemma_resolve_terms_prefix(ts, k + 1, names, types);
    } else {
        assert(ts.subrange(0, k) =~= ts);
    }
}

proof fn lemma_resolve_constraints_prefix(cs: Seq<ConstraintView>, k: int, names: Seq<Seq<char>>, types: Seq<TypeView>)
    requires
        0 <= k <= cs.len(),
        resolve_constraints(cs.subrange(0, k), names, types) is None,
    ensures
        resolve_constraints(cs, names, types) is None,
    decreases cs.len() - k,
{
    if k < cs.len() {
        let s = cs.subrange(0, k + 1);
        assert(s.drop_last() =~= cs.subrange(0, k));
        lemma_resolve_constraints_prefix(cs, k + 1, names, types);
    } else {
        assert(cs.subrange(0, k) =~= cs);
    }
}


impl AtomicTerm {
    /// The term with each composite term's type replaced by the type of that
    /// name in `meta`; `None` where `meta` has no type of that name.
    pub fn resolve_sorts(&self, meta: &MetaInfo) -> (r: Option<AtomicTerm>)
        ensures
            match r {
                Some(x) => resolve_term(self@, meta.names(), meta.types()) == Some(x@),
                None => resolve_term(self@, meta.names(), meta.types()) is None,
            },
        decreases self,
    {
        match self {
            AtomicTerm::Composite(c) => {
                let name = c.sort.type_id();
                let st = match meta.get_type_by_name(name.as_str()) {
                    Some(t) => t.duplicate(),
                    None => {
                        return None;
                    },
                };
                let ghost av = self@->Composite_1;
                let ghost nv = meta.names();
                let ghost tv = meta.types();
                let mut args: Vec<AtomicTerm> = Vec::new();
                let mut i: usize = 0;
                assert(av.subrange(0, 0) =~= Seq::<TermView>::empty());
                assert(terms_view(args@) =~= Seq::<TermView>::empty());
                while i < c.arguments.len()
                    invariant
                        i <= c.arguments@.len(),
                        *self == AtomicTerm::Composite(*c),
                        av == self@->Composite_1,
                        av.len() == c.arguments@.len(),
                        nv == meta.names(),
                        tv == meta.types(),
                        forall|j: int| 0 <= j < av.len() ==> av[j] == (#[trigger] c.arguments@[j])@,
                        resolve_terms(av.subrange(0, i as int), nv, tv) == Some(terms_view(args@)),
                    decreases c.arguments@.len() - i,
                {
                    proof {
                        assert(decreases_to!(*self => (*self)->Composite_0));
                        assert(decreases_to!((*self)->Composite_0 => (*self)->Composite_0.arguments));
                        vstd::std_specs::vec::axiom_vec_index_decreases(c.arguments, i as int);
                        let sub = av.subrange(0, i + 1);
                        assert(sub.drop_last() =~= av.subrange(0, i as int));
                        assert(sub.last() == c.arguments@[i as int]@);
                    }
                    match c.arguments[i].resolve_sorts(meta) {
                        Some(x) => {
                            let ghost before = terms_view(args@);
                            args.push(x);
                            assert(terms_view(args@) =~= before.push(x@));
                        },
                        None => {
                            proof {
                                lemma_resolve_terms_prefix(av, i + 1, nv, tv);
                            }
                            return None;
                        },
                    }
                    i += 1;
                }
                assert(av.subrange(0, av.len() as int) =~= av);
                let r = AtomicTerm::Composite(AtomicComposite { sort: st, arguments: args });
                assert(r@->Composite_1 =~= terms_view(args@));
                Some(r)
            },
            _ => Some(self.duplicate()),
        }
    }
}

/// Each of the terms with its types resolved.
pub fn resolve_term_list(ts: &Vec<AtomicTerm>, meta: &MetaInfo) -> (r: Option<Vec<AtomicTerm>>)
    ensures
        match r {
            Some(v) => resolve_terms(terms_view(ts@), meta.names(), meta.types()) == Some(terms_view(v@)),
            None => resolve_terms(terms_view(ts@), meta.names(), meta.types()) is None,
        },
{
    let ghost av = terms_view(ts@);
    let ghost nv = meta.names();
    let ghost tv = meta.types();
    let mut out: Vec<AtomicTerm> = Vec::new();
    let mut i: usize = 0;
    assert(av.subrange(0, 0) =~= Seq::<TermView>::empty());
    assert(terms_view(out@) =~= Seq::<TermView>::empty());
    while i < ts.len()
        invariant
            i <= ts@.len(),
            av == terms_view(ts@),
            nv == meta.names(),
            tv == meta.types(),
            resolve_terms(av.subrange(0, i as int), nv, tv) == Some(terms_view(out@)),
        decreases ts@.len() - i,
    {
        proof {
            let sub = av.subrange(0, i + 1);
            assert(sub.drop_last() =~= av.subrange(0, i as int));
        }
        match ts[i].resolve_sorts(meta) {
            Some(x) => {
                let ghost before = terms_view(out@);
                out.push(x);
                assert(terms_view(out@) =~= before.push(x@));
            },
            None => {
                proof {
                    lemma_resolve_terms_prefix(av, i + 1, nv, tv);
                }
                return None;
            },
        }
        i += 1;
    }
    assert(av.subrange(0, av.len() as int) =~= av);
    Some(out)
}

impl Expr {
    /// The expression with the types of its terms resolved in `meta`.
    pub fn resolve_sorts(&self, meta: &MetaInfo) -> (r: Option<Expr>)
        ensures
            match r {
                Some(x) => resolve_expr(self@, meta.names(), meta.types()) == Some(x@),
                None => resolve_expr(self@, meta.names(), meta.types()) is None,
            },
        decreases self,
    {
        match self {
            Expr::BaseExpr(b) => {
                assert(self@ == b@);
                match b {
                    BaseExpr::Term(t) => {
                        assert(b@ == ExprView::Term(t@));
                        match t.resolve_sorts(meta) {
                            Some(x) => {
                                let nb = BaseExpr::Term(x);
                                assert(nb@ == ExprView::Term(x@));
                                let r = Expr::BaseExpr(nb);
                                assert(r@ == nb@);
                                Some(r)
                            },
                            None => None,
                        }
                    },
                    BaseExpr::SetComprehension(s) => {
                        assert(b@ == s@);
                        let vars = match resolve_term_list(&s.vars, meta) {
                            Some(v) => v,
                            None => {
                                return None;
                            },
                        };
                        let ghost cv = constraints_view(s.condition@);
                        let ghost nv = meta.names();
                        let ghost tv = meta.types();
                        assert(s@->SetCompre_1 =~= cv);
                        let mut conds: Vec<Constraint> = Vec::new();
                        let mut i: usize = 0;
                        assert(cv.subrange(0, 0) =~= Seq::<ConstraintView>::empty());
                        assert(constraints_view(conds@) =~= Seq::<ConstraintView>::empty());
                        while i < s.condition.len()
                            invariant
                                i <= s.condition@.len(),
                                *self == Expr::BaseExpr(*b),
                                *b == BaseExpr::SetComprehension(*s),
                                cv == constraints_view(s.condition@),
                                s@->SetCompre_1 == cv,
                                self@ == s@,
                                nv == meta.names(),
                                tv == meta.types(),
                                resolve_constraints(cv.subrange(0, i as int), nv, tv) == Some(constraints_view(conds@)),
                            decreases s.condition@.len() - i,
                        {
                            proof {
                                assert(decreases_to!(*self => (*self)->BaseExpr_0));
                                assert(decreases_to!((*self)->BaseExpr_0 => (*self)->BaseExpr_0->SetComprehension_0));
                                assert(decreases_to!((*self)->BaseExpr_0->SetComprehension_0 => (*self)->BaseExpr_0->SetComprehension_0.condition));
                                vstd::std_specs::vec::axiom_vec_index_decreases(s.condition, i as int);
                                let sub = cv.subrange(0, i + 1);
                                assert(sub.drop_last() =~= cv.subrange(0, i as int));
                            }
                            match s.condition[i].resolve_sorts(meta) {
                                Some(x) => {
                                    let ghost before = constraints_view(conds@);
                                    conds.push(x);
                                    assert(constraints_view(conds@) =~= before.push(x@));
                                },
                                None => {
                                    proof {
                                        lemma_resolve_constraints_prefix(cv, i + 1, nv, tv);
                                    }
                                    return None;
                                },
                            }
                            i += 1;
                        }
                        assert(cv.subrange(0, cv.len() as int) =~= cv);
                        let ns = SetComprehension { vars, condition: conds, op: s.op, default: s.default.duplicate() };
                        assert(ns@->SetCompre_1 =~= constraints_view(ns.condition@));
                        assert(ns@->SetCompre_0 =~= terms_view(ns.vars@));
                        let nb = BaseExpr::SetComprehension(ns);
                        assert(nb@ == ns@);
                        let r = Expr::BaseExpr(nb);
                        assert(r@ == nb@);
                        Some(r)
                    },
                }
            },
            Expr::ArithExpr(a) => {
                let l = match a.left.resolve_sorts(meta) {
                    Some(x) => x,
                    None => {
                        return None;
                    },
                };
                let r = match a.right.resolve_sorts(meta) {
                    Some(x) => x,
                    None => {
                        return None;
                    },
                };
                Some(Expr::ArithExpr(ArithExpr { op: a.op, left: Box::new(l), right: Box::new(r) }))
            },
        }
    }
}

impl Constraint {
    /// The constraint with its terms and types resolved in `meta`; the
    /// variable of a predicate stands for the constant of that name.
    pub fn resolve_sorts(&self, meta: &MetaInfo) -> (r: Option<Constraint>)
        ensures
            match r {
                Some(x) => resolve_constraint(self@, meta.names(), meta.types()) == Some(x@),
                None => resolve_constraint(self@, meta.names(), meta.types()) is None,
            },
        decreases self,
    {
        match self {
            Constraint::Predicate(p) => {
                let term = match &p.term {
                    AtomicTerm::Variable(v) => {
                        let (_, t) = AtomicTerm::gen_constant(v.root.clone());
                        t
                    },
                    _ => match p.term.resolve_sorts(meta) {
                        Some(t) => t,
                        None => {
                            return None;
                        },
                    },
                };
                let alias = match &p.alias {
                    Some(a) => Some(a.duplicate()),
                    None => None,
                };
                Some(Constraint::Predicate(Predicate { negated: p.negated, term, alias }))
            },
            Constraint::Binary(b) => {
                let l = match b.left.resolve_sorts(meta) {
                    Some(x) => x,
                    None => {
                        return None;
                    },
                };
                let r = match b.right.resolve_sorts(meta) {
                    Some(x) => x,
                    None => {
                        return None;
                    },
                };
                Some(Constraint::Binary(Binary { op: b.op, left: l, right: r }))
            },
            Constraint::TypeConstraint(t) => {
                let var = match t.var.resolve_sorts(meta) {
                    Some(x) => x,
                    None => {
                        return None;
                    },
                };
                let name = t.sort.type_id();
                match meta.get_type_by_name(name.as_str()) {
                    Some(st) => Some(Constraint::TypeConstraint(TypeConstraint { var, sort: st.duplicate() })),
                    None => None,
                }
            },
        }
    }
}

/// Each of the constraints with its terms and types resolved.
pub fn resolve_constraint_list(cs: &Vec<Constraint>, meta: &MetaInfo) -> (r: Option<Vec<Constraint>>)
    ensures
        match r {
            Some(v) => resolve_constraints(constraints_view(cs@), meta.names(), meta.types()) == Some(constraints_view(v@)),
            None => resolve_constraints(constraints_view(cs@), meta.names(), meta.types()) is None,
        },
{
    let ghost cv = constraints_view(cs@);
    let ghost nv = meta.names();
    let ghost tv = meta.types();
    let mut out: Vec<Constraint> = Vec::new();
    let mut i: usize = 0;
    assert(cv.subrange(0, 0) =~= Seq::<ConstraintView>::empty());
    assert(constraints_view(out@) =~= Seq::<ConstraintView>::empty());
    while i < cs.len()
        invariant
            i <= cs@.len(),
            cv == constraints_view(cs@),
            nv == meta.names(),
            tv == meta.types(),
            resolve_constraints(cv.subrange(0, i as int), nv, tv) == Some(constraints_view(out@)),
        decreases cs@.len() - i,
    {
        proof {
            let sub = cv.subrange(0, i + 1);
            assert(sub.drop_last() =~= cv.subrange(0, i as int));
        }
        match cs[i].resolve_sorts(meta) {
            Some(x) => {
                let ghost before = constraints_view(out@);
                out.push(x);
                assert(constraints_view(out@) =~= before.push(x@));
            },
            None => {
                proof {
                    lemma_resolve_constraints_prefix(cv, i + 1, nv, tv);
                }
                return None;
            },
        }
        i += 1;
    }
    assert(cv.subrange(0, cv.len() as int) =~= cv);
    Some(out)
}

} // verus!
