//! Replacing a term by another wherever it occurs in a term, an expression or
//! a constraint, renaming expressions and constraints with a scope, and
//! collecting the set comprehensions of an expression.
use crate::expression::{
    constraints_view, terms_view, ArithExpr, BaseExpr, Binary, Constraint, ConstraintView, Expr,
    ExprView, Predicate, SetComprehension, TypeConstraint,
};
use crate::term::{renamed_term, AtomicComposite, AtomicTerm, TermView};
use crate::type_system::renamed_type;
use vstd::prelude::*;

verus! {

/// Whether `p` occurs in `t`: `t` is `p`, or `p` occurs in an argument of `t`.
pub open spec fn occurs_in(p: TermView, t: TermView) -> bool
    decreases t,
{
    t == p || match t {
        TermView::Composite(_, args) => occurs_in_terms(p, args),
        _ => false,
    }
}

/// Whether `p` occurs in one of the terms `ts`.
pub open spec fn occurs_in_terms(p: TermView, ts: Seq<TermView>) -> bool
    decreases ts,
{
    ts.len() > 0 && (occurs_in_terms(p, ts.subrange(0, ts.len() - 1)) || occurs_in(p, ts[ts.len() - 1]))
}

/// `p` occurs in one of the terms `ts` just when it occurs in one of them.
pub proof fn lemma_occurs_in_terms(p: TermView, ts: Seq<TermView>)
    ensures
        occurs_in_terms(p, ts) == exists|i: int| 0 <= i < ts.len() && #[trigger] occurs_in(p, ts[i]),
    decreases ts.len(),
{
    if ts.len() > 0 {
        let front = ts.subrange(0, ts.len() - 1);
        lemma_occurs_in_terms(p, front);
        if exists|i: int| 0 <= i < ts.len() && #[trigger] occurs_in(p, ts[i]) {
            let i = choose|i: int| 0 <= i < ts.len() && #[trigger] occurs_in(p, ts[i]);
            if i < ts.len() - 1 {
                assert(front[i] == ts[i]);
                assert(occurs_in(p, front[i]));
                assert(occurs_in_terms(p, front));
            }
            assert(occurs_in_terms(p, ts));
        }
        if occurs_in_terms(p, ts) {
            if occurs_in_terms(p, front) {
                let i = choose|i: int| 0 <= i < front.len() && #[trigger] occurs_in(p, front[i]);
                assert(ts[i] == front[i]);
                assert(occurs_in(p, ts[i]));
            } else {
                assert(occurs_in(p, ts[ts.len() - 1]));
            }
        }
    }
}

/// Whether `p` occurs in an argument of `r`, at any depth.
pub open spec fn proper_subterm(p: TermView, r: TermView) -> bool {
    match r {
        TermView::Composite(_, args) => occurs_in_terms(p, args),
        _ => false,
    }
}

/// Whether `p` occurs in a term of an expression: a term, the head terms and
/// conditions of a set comprehension, or either side of an arithmetic
/// expression.
pub open spec fn occurs_in_expr(p: TermView, e: ExprView) -> bool
    decreases e,
{
    match e {
        ExprView::Term(t) => occurs_in(p, t),
        ExprView::SetCompre(vars, conds, _, _) => occurs_in_terms(p, vars) || occurs_in_constraints(p, conds),
        ExprView::Arith(_, l, r) => occurs_in_expr(p, *l) || occurs_in_expr(p, *r),
    }
}

/// Whether `p` occurs in a term of a constraint: the term or alias of a
/// predicate, either side of a comparison, or the variable of a type
/// constraint.
pub open spec fn occurs_in_constraint(p: TermView, c: ConstraintView) -> bool
    decreases c,
{
    match c {
        ConstraintView::Predicate(_, t, alias) => occurs_in(p, t) || match alias {
            Some(a) => occurs_in(p, a),
            None => false,
        },
        ConstraintView::Binary(_, l, r) => occurs_in_expr(p, l) || occurs_in_expr(p, r),
        ConstraintView::TypeConstraint(v, _) => occurs_in(p, v),
    }
}

/// Whether `p` occurs in a term of one of the constraints `cs`.
pub open spec fn occurs_in_constraints(p: TermView, cs: Seq<ConstraintView>) -> bool
    decreases cs,
{
    cs.len() > 0 && (occurs_in_constraints(p, cs.subrange(0, cs.len() - 1)) || occurs_in_constraint(p, cs[cs.len() - 1]))
}

/// `t` with every occurrence of `p` replaced by `r`, from the outside in: where
/// `t` is `p` it becomes `r`, else its arguments are replaced in.
pub open spec fn term_replaced(t: TermView, p: TermView, r: TermView) -> TermView
    decreases t,
{
    if t == p {
        r
    } else {
        match t {
            TermView::Composite(sort, args) => TermView::Composite(
                sort,
                Seq::new(args.len(), |i: int| if 0 <= i < args.len() { term_replaced(args[i], p, r) } else { t }),
            ),
            _ => t,
        }
    }
}

/// Terms with `p` replaced by `r` in each.
pub open spec fn terms_replaced(ts: Seq<TermView>, p: TermView, r: TermView) -> Seq<TermView> {
    Seq::new(ts.len(), |i: int| term_replaced(ts[i], p, r))
}

/// An expression with `p` replaced by `r` in each of its terms; the operator
/// and default of a set comprehension stay.
pub open spec fn expr_replaced(e: ExprView, p: TermView, r: TermView) -> ExprView
    decreases e,
{
    match e {
        ExprView::Term(t) => ExprView::Term(term_replaced(t, p, r)),
        ExprView::SetCompre(vars, conds, op, d) => ExprView::SetCompre(
            terms_replaced(vars, p, r),
            Seq::new(conds.len(), |i: int| if 0 <= i < conds.len() { constraint_replaced(conds[i], p, r) } else { conds[0] }),
            op,
            d,
        ),
        ExprView::Arith(op, le, re) => ExprView::Arith(
            op,
            Box::new(expr_replaced(*le, p, r)),
            Box::new(expr_replaced(*re, p, r)),
        ),
    }
}

/// A constraint with `p` replaced by `r` in each of its terms.
pub open spec fn constraint_replaced(c: ConstraintView, p: TermView, r: TermView) -> ConstraintView
    decreases c,
{
    match c {
        ConstraintView::Predicate(neg, t, alias) => ConstraintView::Predicate(
            neg,
            term_replaced(t, p, r),
            match alias {
                Some(a) => Some(term_replaced(a, p, r)),
                None => None,
            },
        ),
        ConstraintView::Binary(op, l, rt) => ConstraintView::Binary(
            op,
            expr_replaced(l, p, r),
            expr_replaced(rt, p, r),
        ),
        ConstraintView::TypeConstraint(v, sort) => ConstraintView::TypeConstraint(term_replaced(v, p, r), sort),
    }
}

/// The set comprehensions of an expression, from left to right; those inside
/// the conditions of a set comprehension are not among them.
pub open spec fn expr_setcompres(e: ExprView) -> Seq<ExprView>
    decreases e,
{
    match e {
        ExprView::Term(_) => Seq::empty(),
        ExprView::SetCompre(_, _, _, _) => seq![e],
        ExprView::Arith(_, l, r) => expr_setcompres(*l) + expr_setcompres(*r),
    }
}

pub open spec fn setcompres_view(v: Seq<SetComprehension>) -> Seq<ExprView> {
    v.map_values(|s: SetComprehension| s@)
}

/// Replacing a term that does not occur leaves the term as it is.
pub proof fn lemma_replace_absent(t: TermView, p: TermView, r: TermView)
    requires
        !occurs_in(p, t),
    ensures
        term_replaced(t, p, r) == t,
    decreases t,
{
    match t {
        TermView::Composite(sort, args) => {
            assert forall|i: int| 0 <= i < args.len() implies term_replaced(args[i], p, r) == args[i] by {
                lemma_occurs_in_terms(p, args);
                lemma_replace_absent(args[i], p, r);
            }
            assert(term_replaced(t, p, r)->Composite_1 =~= args);
        },
        _ => {},
    }
}

/// Replacing a term by itself leaves every term as it is.
pub proof fn lemma_replace_by_itself(t: TermView, p: TermView)
    ensures
        term_replaced(t, p, p) == t,
    decreases t,
{
    if t != p {
        match t {
            TermView::Composite(sort, args) => {
                assert forall|i: int| 0 <= i < args.len() implies term_replaced(args[i], p, p) == args[i] by {
                    lemma_replace_by_itself(args[i], p);
                }
                assert(term_replaced(t, p, p)->Composite_1 =~= args);
            },
            _ => {},
        }
    }
}

impl AtomicTerm {
    fn replaced(&self, p: &AtomicTerm, r: &AtomicTerm) -> (res: AtomicTerm)
        ensures
            res@ == term_replaced(self@, p@, r@),
        decreases self,
    {
        if self.equals(p) {
            return r.duplicate();
        }
        match self {
            AtomicTerm::Composite(c) => {
                let mut args: Vec<AtomicTerm> = Vec::new();
                let mut i: usize = 0;
                while i < c.arguments.len()
                    invariant
                        i <= c.arguments@.len(),
                        args@.len() == i,
                        *self == AtomicTerm::Composite(*c),
                        forall|j: int| 0 <= j < i ==> (#[trigger] args@[j])@ == term_replaced(c.arguments@[j]@, p@, r@),
                    decreases c.arguments@.len() - i,
                {
                    proof {
                        assert(decreases_to!(*self => (*self)->Composite_0));
                        assert(decreases_to!((*self)->Composite_0 => (*self)->Composite_0.arguments));
                        vstd::std_specs::vec::axiom_vec_index_decreases(c.arguments, i as int);
                    }
                    args.push(c.arguments[i].replaced(p, r));
                    i += 1;
                }
                let res = AtomicTerm::Composite(AtomicComposite { sort: c.sort.duplicate(), arguments: args });
                assert(res@->Composite_1 =~= term_replaced(self@, p@, r@)->Composite_1);
                res
            },
            _ => self.duplicate(),
        }
    }

    /// Replace each occurrence of `pattern` by `replacement`, from the outside
    /// in: a subterm equal to the pattern becomes the replacement, and the
    /// replacement's own arguments are searched in turn. Where the pattern
    /// occurs and also occurs inside the replacement, that search would not
    /// end, so this is left out.
    pub fn replace_pattern(&mut self, pattern: &AtomicTerm, replacement: &AtomicTerm)
        requires
            occurs_in(pattern@, old(self)@) ==> !proper_subterm(pattern@, replacement@),
        ensures
            final(self)@ == term_replaced(old(self)@, pattern@, replacement@),
    {
        let t = self.replaced(pattern, replacement);
        *self = t;
    }
}

pub(crate) fn terms_replaced_exec(ts: &Vec<AtomicTerm>, p: &AtomicTerm, r: &AtomicTerm) -> (res: Vec<AtomicTerm>)
    ensures
        terms_view(res@) == terms_replaced(terms_view(ts@), p@, r@),
{
    let mut res: Vec<AtomicTerm> = Vec::new();
    let mut i: usize = 0;
    while i < ts.len()
        invariant
            i <= ts@.len(),
            res@.len() == i,
            forall|j: int| 0 <= j < i ==> (#[trigger] res@[j])@ == term_replaced(ts@[j]@, p@, r@),
        decreases ts@.len() - i,
    {
        res.push(ts[i].replaced(p, r));
        i += 1;
    }
    assert(terms_view(res@) =~= terms_replaced(terms_view(ts@), p@, r@));
    res
}

impl SetComprehension {
    fn replaced(&self, p: &AtomicTerm, r: &AtomicTerm) -> (res: SetComprehension)
        ensures
            res@ == expr_replaced(self@, p@, r@),
        decreases self,
    {
        let mut condition: Vec<Constraint> = Vec::new();
        let mut i: usize = 0;
        while i < self.condition.len()
            invariant
                i <= self.condition@.len(),
                condition@.len() == i,
                forall|j: int| 0 <= j < i ==> (#[trigger] condition@[j])@ == constraint_replaced(self.condition@[j]@, p@, r@),
            decreases self.condition@.len() - i,
        {
            proof {
                assert(decreases_to!(*self => self.condition));
                vstd::std_specs::vec::axiom_vec_index_decreases(self.condition, i as int);
            }
            condition.push(self.condition[i].replaced(p, r));
            i += 1;
        }
        let res = SetComprehension {
            vars: terms_replaced_exec(&self.vars, p, r),
            condition,
            op: self.op,
            default: self.default.duplicate(),
        };
        assert(res@->SetCompre_1 =~= expr_replaced(self@, p@, r@)->SetCompre_1);
        res
    }
}

impl Expr {
    fn replaced(&self, p: &AtomicTerm, r: &AtomicTerm) -> (res: Expr)
        ensures
            res@ == expr_replaced(self@, p@, r@),
        decreases self,
    {
        match self {
            Expr::BaseExpr(b) => {
                assert(self@ == b@);
                match b {
                    BaseExpr::Term(t) => {
                        assert(b@ == ExprView::Term(t@));
                        let bb = BaseExpr::Term(t.replaced(p, r));
                        let res = Expr::BaseExpr(bb);
                        assert(res@ == bb@);
                        res
                    },
                    BaseExpr::SetComprehension(s) => {
                        assert(b@ == s@);
                        let c = s.replaced(p, r);
                        let bb = BaseExpr::SetComprehension(c);
                        assert(bb@ == c@);
                        let res = Expr::BaseExpr(bb);
                        assert(res@ == bb@);
                        res
                    },
                }
            },
            Expr::ArithExpr(a) => {
                let l = a.left.replaced(p, r);
                let rt = a.right.replaced(p, r);
                Expr::ArithExpr(ArithExpr { op: a.op, left: Box::new(l), right: Box::new(rt) })
            },
        }
    }

    /// Replace each occurrence of `pattern` in the terms of the expression by
    /// `replacement`, as `AtomicTerm::replace_pattern` does in each term.
    pub fn replace_pattern(&mut self, pattern: &AtomicTerm, replacement: &AtomicTerm)
        requires
            occurs_in_expr(pattern@, old(self)@) ==> !proper_subterm(pattern@, replacement@),
        ensures
            final(self)@ == expr_replaced(old(self)@, pattern@, replacement@),
    {
        let e = self.replaced(pattern, replacement);
        *self = e;
    }

    /// The set comprehensions of the expression, from left to right.
    pub fn set_comprehensions(&self) -> (res: Vec<SetComprehension>)
        ensures
            setcompres_view(res@) == expr_setcompres(self@),
        decreases self,
    {
        match self {
            Expr::BaseExpr(b) => {
                assert(self@ == b@);
                match b {
                    BaseExpr::Term(t) => {
                        assert(b@ == ExprView::Term(t@));
                        let res: Vec<SetComprehension> = Vec::new();
                        assert(setcompres_view(res@) =~= Seq::<ExprView>::empty());
                        res
                    },
                    BaseExpr::SetComprehension(s) => {
                        assert(b@ == s@);
                        let mut res: Vec<SetComprehension> = Vec::new();
                        res.push(s.duplicate());
                        assert(setcompres_view(res@) =~= seq![s@]);
                        res
                    },
                }
            },
            Expr::ArithExpr(a) => {
                let mut res = a.left.set_comprehensions();
                let mut more = a.right.set_comprehensions();
                let ghost lv = setcompres_view(res@);
                let ghost rv = setcompres_view(more@);
                res.append(&mut more);
                assert(setcompres_view(res@) =~= lv + rv);
                res
            },
        }
    }
}

impl Constraint {
    fn replaced(&self, p: &AtomicTerm, r: &AtomicTerm) -> (res: Constraint)
        ensures
            res@ == constraint_replaced(self@, p@, r@),
        decreases self,
    {
        match self {
            Constraint::Predicate(pr) => {
                let alias = match &pr.alias {
                    Some(a) => Some(a.replaced(p, r)),
                    None => None,
                };
                Constraint::Predicate(Predicate { negated: pr.negated, term: pr.term.replaced(p, r), alias })
            },
            Constraint::Binary(b) => Constraint::Binary(
                Binary { op: b.op, left: b.left.replaced(p, r), right: b.right.replaced(p, r) },
            ),
            Constraint::TypeConstraint(t) => Constraint::TypeConstraint(
                TypeConstraint { var: t.var.replaced(p, r), sort: t.sort.duplicate() },
            ),
        }
    }

    /// Replace each occurrence of `pattern` in the terms of the constraint by
    /// `replacement`, as `AtomicTerm::replace_pattern` does in each term.
    pub fn replace_pattern(&mut self, pattern: &AtomicTerm, replacement: &AtomicTerm)
        requires
            occurs_in_constraint(pattern@, old(self)@) ==> !proper_subterm(pattern@, replacement@),
        ensures
            final(self)@ == constraint_replaced(old(self)@, pattern@, replacement@),
    {
        let c = self.replaced(pattern, replacement);
        *self = c;
    }
}

/// Constraints with `p` replaced by `r` in each.
pub open spec fn constraints_replaced(cs: Seq<ConstraintView>, p: TermView, r: TermView) -> Seq<ConstraintView> {
    Seq::new(cs.len(), |i: int| constraint_replaced(cs[i], p, r))
}

pub(crate) fn constraints_replaced_exec(cs: &Vec<Constraint>, p: &AtomicTerm, r: &AtomicTerm) -> (res: Vec<Constraint>)
    ensures
        constraints_view(res@) == constraints_replaced(constraints_view(cs@), p@, r@),
{
    let mut res: Vec<Constraint> = Vec::new();
    let mut i: usize = 0;
    while i < cs.len()
        invariant
            i <= cs@.len(),
            res@.len() == i,
            forall|j: int| 0 <= j < i ==> (#[trigger] res@[j])@ == constraint_replaced(cs@[j]@, p@, r@),
        decreases cs@.len() - i,
    {
        res.push(cs[i].replaced(p, r));
        i += 1;
    }
    assert(constraints_view(res@) =~= constraints_replaced(constraints_view(cs@), p@, r@));
    res
}

/// Terms each renamed with `scope`.
pub open spec fn terms_renamed(ts: Seq<TermView>, scope: Seq<char>) -> Seq<TermView> {
    Seq::new(ts.len(), |i: int| renamed_term(ts[i], scope))
}

/// An expression with each of its terms renamed with `scope`.
pub open spec fn expr_renamed(e: ExprView, scope: Seq<char>) -> ExprView
    decreases e,
{
    match e {
        ExprView::Term(t) => ExprView::Term(renamed_term(t, scope)),
        ExprView::SetCompre(vars, conds, op, d) => ExprView::SetCompre(
            terms_renamed(vars, scope),
            Seq::new(conds.len(), |i: int| if 0 <= i < conds.len() { constraint_renamed(conds[i], scope) } else { conds[0] }),
            op,
            d,
        ),
        ExprView::Arith(op, le, re) => ExprView::Arith(
            op,
            Box::new(expr_renamed(*le, scope)),
            Box::new(expr_renamed(*re, scope)),
        ),
    }
}

/// A constraint with each of its terms, and the sort of a type constraint,
/// renamed with `scope`.
pub open spec fn constraint_renamed(c: ConstraintView, scope: Seq<char>) -> ConstraintView
    decreases c,
{
    match c {
        ConstraintView::Predicate(neg, t, alias) => ConstraintView::Predicate(
            neg,
            renamed_term(t, scope),
            match alias {
                Some(a) => Some(renamed_term(a, scope)),
                None => None,
            },
        ),
        ConstraintView::Binary(op, l, rt) => ConstraintView::Binary(
            op,
            expr_renamed(l, scope),
            expr_renamed(rt, scope),
        ),
        ConstraintView::TypeConstraint(v, sort) => ConstraintView::TypeConstraint(
            renamed_term(v, scope),
            renamed_type(sort, scope),
        ),
    }
}

/// Constraints each renamed with `scope`.
pub open spec fn constraints_renamed(cs: Seq<ConstraintView>, scope: Seq<char>) -> Seq<ConstraintView> {
    Seq::new(cs.len(), |i: int| constraint_renamed(cs[i], scope))
}

pub(crate) fn terms_renamed_exec(ts: &Vec<AtomicTerm>, scope: &String) -> (res: Vec<AtomicTerm>)
    ensures
        terms_view(res@) == terms_renamed(terms_view(ts@), scope@),
{
    let mut res: Vec<AtomicTerm> = Vec::new();
    let mut i: usize = 0;
    while i < ts.len()
        invariant
            i <= ts@.len(),
            res@.len() == i,
            forall|j: int| 0 <= j < i ==> (#[trigger] res@[j])@ == renamed_term(ts@[j]@, scope@),
        decreases ts@.len() - i,
    {
        res.push(ts[i].rename(scope.clone()));
        i += 1;
    }
    assert(terms_view(res@) =~= terms_renamed(terms_view(ts@), scope@));
    res
}

impl SetComprehension {
    fn renamed(&self, scope: &String) -> (res: SetComprehension)
        ensures
            res@ == expr_renamed(self@, scope@),
        decreases self,
    {
        let mut condition: Vec<Constraint> = Vec::new();
        let mut i: usize = 0;
        while i < self.condition.len()
            invariant
                i <= self.condition@.len(),
                condition@.len() == i,
                forall|j: int| 0 <= j < i ==> (#[trigger] condition@[j])@ == constraint_renamed(self.condition@[j]@, scope@),
            decreases self.condition@.len() - i,
        {
            proof {
                assert(decreases_to!(*self => self.condition));
                vstd::std_specs::vec::axiom_vec_index_decreases(self.condition, i as int);
            }
            condition.push(self.condition[i].renamed(scope));
            i += 1;
        }
        let res = SetComprehension {
            vars: terms_renamed_exec(&self.vars, scope),
            condition,
            op: self.op,
            default: self.default.duplicate(),
        };
        assert(res@->SetCompre_1 =~= expr_renamed(self@, scope@)->SetCompre_1);
        res
    }
}

impl Expr {
    /// The expression with each of its terms renamed with `scope`.
    pub fn renamed(&self, scope: &String) -> (res: Expr)
        ensures
            res@ == expr_renamed(self@, scope@),
        decreases self,
    {
        match self {
            Expr::BaseExpr(b) => {
                assert(self@ == b@);
                match b {
                    BaseExpr::Term(t) => {
                        assert(b@ == ExprView::Term(t@));
                        let bb = BaseExpr::Term(t.rename(scope.clone()));
                        let res = Expr::BaseExpr(bb);
                        assert(res@ == bb@);
                        res
                    },
                    BaseExpr::SetComprehension(s) => {
                        assert(b@ == s@);
                        let c = s.renamed(scope);
                        let bb = BaseExpr::SetComprehension(c);
                        assert(bb@ == c@);
                        let res = Expr::BaseExpr(bb);
                        assert(res@ == bb@);
                        res
                    },
                }
            },
            Expr::ArithExpr(a) => {
                let l = a.left.renamed(scope);
                let rt = a.right.renamed(scope);
                Expr::ArithExpr(ArithExpr { op: a.op, left: Box::new(l), right: Box::new(rt) })
            },
        }
    }
}

impl Constraint {
    /// The constraint with each of its terms, and the sort of a type
    /// constraint, renamed with `scope`.
    pub fn renamed(&self, scope: &String) -> (res: Constraint)
        ensures
            res@ == constraint_renamed(self@, scope@),
        decreases self,
    {
        match self {
            Constraint::Predicate(pr) => {
                let alias = match &pr.alias {
                    Some(a) => Some(a.rename(scope.clone())),
                    None => None,
                };
                Constraint::Predicate(Predicate { negated: pr.negated, term: pr.term.rename(scope.clone()), alias })
            },
            Constraint::Binary(b) => Constraint::Binary(
                Binary { op: b.op, left: b.left.renamed(scope), right: b.right.renamed(scope) },
            ),
            Constraint::TypeConstraint(t) => Constraint::TypeConstraint(
                TypeConstraint { var: t.var.rename(scope.clone()), sort: t.sort.rename_type(scope.clone()) },
            ),
        }
    }
}

pub(crate) fn constraints_renamed_exec(cs: &Vec<Constraint>, scope: &String) -> (res: Vec<Constraint>)
    ensures
        constraints_view(res@) == constraints_renamed(constraints_view(cs@), scope@),
{
    let mut res: Vec<Constraint> = Vec::new();
    let mut i: usize = 0;
    while i < cs.len()
        invariant
            i <= cs@.len(),
            res@.len() == i,
            forall|j: int| 0 <= j < i ==> (#[trigger] res@[j])@ == constraint_renamed(cs@[j]@, scope@),
        decreases cs@.len() - i,
    {
        res.push(cs[i].renamed(scope));
        i += 1;
    }
    assert(constraints_view(res@) =~= constraints_renamed(constraints_view(cs@), scope@));
    res
}

} // verus!
