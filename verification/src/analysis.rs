//! The variables of expressions, constraints and rules.
use crate::expression::{
    constraints_view, terms_view, BaseExpr, Constraint, ConstraintView, Expr, ExprView,
};
use crate::matching::{
    add_new, args_var_occurrences, contains_term, lemma_add_new_concat, var_occurrences,
};
use crate::term::{AtomicTerm, TermView};
use vstd::prelude::*;

verus! {

/// The variables of an expression, each time they occur, from left to right:
/// those of its terms other than `_`, and in a set comprehension those of its
/// head terms and then those of its conditions.
pub open spec fn expr_occurrences(e: ExprView) -> Seq<TermView>
    decreases e,
{
    match e {
        ExprView::Term(t) => var_occurrences(t),
        ExprView::SetCompre(vars, conds, _, _) => args_var_occurrences(vars) + constraints_occurrences(conds),
        ExprView::Arith(_, l, r) => expr_occurrences(*l) + expr_occurrences(*r),
    }
}

/// The variables of a constraint, each time they occur: those of a predicate's
/// term followed by its alias, those of both sides of a comparison, and the
/// variable of a type constraint.
pub open spec fn constraint_occurrences(c: ConstraintView) -> Seq<TermView>
    decreases c,
{
    match c {
        ConstraintView::Predicate(_, t, alias) => var_occurrences(t) + match alias {
            Some(a) => seq![a],
            None => Seq::empty(),
        },
        ConstraintView::Binary(_, l, r) => expr_occurrences(l) + expr_occurrences(r),
        ConstraintView::TypeConstraint(v, _) => seq![v],
    }
}

/// The variable occurrences of a list of constraints, one after the other.
pub open spec fn constraints_occurrences(cs: Seq<ConstraintView>) -> Seq<TermView>
    decreases cs,
{
    if cs.len() == 0 {
        Seq::empty()
    } else {
        constraints_occurrences(cs.drop_last()) + constraint_occurrences(cs.last())
    }
}

/// `acc` with `v` added unless it is there already.
pub(crate) fn push_new(acc: &mut Vec<AtomicTerm>, v: &AtomicTerm)
    ensures
        terms_view(final(acc)@) == add_new(terms_view(old(acc)@), seq![v@]),
{
    let ghost d0 = terms_view(acc@);
    proof {
        assert(seq![v@].drop_last() =~= Seq::<TermView>::empty());
        assert(add_new(d0, Seq::<TermView>::empty()) == d0);
        assert(seq![v@].last() == v@);
    }
    if !contains_term(acc, v) {
        acc.push(v.duplicate());
        assert(terms_view(acc@) =~= d0.push(v@));
    }
}

fn collect_term_list(ts: &Vec<AtomicTerm>, acc: &mut Vec<AtomicTerm>)
    ensures
        terms_view(final(acc)@) == add_new(terms_view(old(acc)@), args_var_occurrences(terms_view(ts@))),
{
    let ghost d0 = terms_view(acc@);
    let ghost tv = terms_view(ts@);
    let mut i: usize = 0;
    assert(tv.subrange(0, 0) =~= Seq::<TermView>::empty());
    while i < ts.len()
        invariant
            i <= ts@.len(),
            tv == terms_view(ts@),
            terms_view(acc@) == add_new(d0, args_var_occurrences(tv.subrange(0, i as int))),
        decreases ts@.len() - i,
    {
        ts[i].collect_variables(acc);
        proof {
            let s1 = tv.subrange(0, i as int + 1);
            assert(s1.subrange(0, s1.len() - 1) =~= tv.subrange(0, i as int));
            assert(s1[s1.len() - 1] == ts@[i as int]@);
            lemma_add_new_concat(d0, args_var_occurrences(tv.subrange(0, i as int)), var_occurrences(ts@[i as int]@));
        }
        i += 1;
    }
    assert(tv.subrange(0, tv.len() as int) =~= tv);
}

impl Expr {
    pub(crate) fn collect_variables(&self, acc: &mut Vec<AtomicTerm>)
        ensures
            terms_view(final(acc)@) == add_new(terms_view(old(acc)@), expr_occurrences(self@)),
        decreases self,
    {
        let ghost d0 = terms_view(acc@);
        match self {
            Expr::BaseExpr(b) => {
                assert(self@ == b@);
                match b {
                    BaseExpr::Term(t) => {
                        assert(b@ == ExprView::Term(t@));
                        t.collect_variables(acc);
                    },
                    BaseExpr::SetComprehension(s) => {
                        assert(b@ == s@);
                        collect_term_list(&s.vars, acc);
                        let ghost d1 = terms_view(acc@);
                        let ghost cv = constraints_view(s.condition@);
                        assert(s@->SetCompre_1 =~= cv);
                        let mut i: usize = 0;
                        assert(cv.subrange(0, 0) =~= Seq::<ConstraintView>::empty());
                        while i < s.condition.len()
                            invariant
                                i <= s.condition@.len(),
                                *self == Expr::BaseExpr(*b),
                                *b == BaseExpr::SetComprehension(*s),
                                cv == constraints_view(s.condition@),
                                terms_view(acc@) == add_new(d1, constraints_occurrences(cv.subrange(0, i as int))),
                            decreases s.condition@.len() - i,
                        {
                            proof {
                                assert(decreases_to!(*self => (*self)->BaseExpr_0));
                                assert(decreases_to!((*self)->BaseExpr_0 => (*self)->BaseExpr_0->SetComprehension_0));
                                assert(decreases_to!((*self)->BaseExpr_0->SetComprehension_0 => (*self)->BaseExpr_0->SetComprehension_0.condition));
                                vstd::std_specs::vec::axiom_vec_index_decreases(s.condition, i as int);
                            }
                            s.condition[i].collect_variables(acc);
                            proof {
                                let s1 = cv.subrange(0, i as int + 1);
                                assert(s1.drop_last() =~= cv.subrange(0, i as int));
                                assert(s1.last() == s.condition@[i as int]@);
                                lemma_add_new_concat(d1, constraints_occurrences(cv.subrange(0, i as int)), constraint_occurrences(s.condition@[i as int]@));
                            }
                            i += 1;
                        }
                        proof {
                            assert(cv.subrange(0, cv.len() as int) =~= cv);
                            assert(terms_view(s.vars@) == s@->SetCompre_0);
                            lemma_add_new_concat(d0, args_var_occurrences(terms_view(s.vars@)), constraints_occurrences(cv));
                        }
                    },
                }
            },
            Expr::ArithExpr(a) => {
                a.left.collect_variables(acc);
                a.right.collect_variables(acc);
                proof {
                    lemma_add_new_concat(d0, expr_occurrences(a.left@), expr_occurrences(a.right@));
                }
            },
        }
    }

    /// The distinct variables of the expression, in the order of their first
    /// occurrence.
    pub fn variables(&self) -> (r: Vec<AtomicTerm>)
        ensures
            terms_view(r@) == add_new(Seq::empty(), expr_occurrences(self@)),
    {
        let mut acc: Vec<AtomicTerm> = Vec::new();
        assert(terms_view(acc@) =~= Seq::<TermView>::empty());
        self.collect_variables(&mut acc);
        acc
    }
}

impl Constraint {
    pub(crate) fn collect_variables(&self, acc: &mut Vec<AtomicTerm>)
        ensures
            terms_view(final(acc)@) == add_new(terms_view(old(acc)@), constraint_occurrences(self@)),
        decreases self,
    {
        let ghost d0 = terms_view(acc@);
        match self {
            Constraint::Predicate(p) => {
                p.term.collect_variables(acc);
                let ghost d1 = terms_view(acc@);
                match &p.alias {
                    Some(a) => {
                        push_new(acc, a);
                        proof {
                            lemma_add_new_concat(d0, var_occurrences(p.term@), seq![a@]);
                        }
                    },
                    None => {
                        assert(var_occurrences(p.term@) + Seq::<TermView>::empty() =~= var_occurrences(p.term@));
                    },
                }
            },
            Constraint::Binary(b) => {
                b.left.collect_variables(acc);
                b.right.collect_variables(acc);
                proof {
                    lemma_add_new_concat(d0, expr_occurrences(b.left@), expr_occurrences(b.right@));
                }
            },
            Constraint::TypeConstraint(t) => {
                push_new(acc, &t.var);
            },
        }
    }

    /// The distinct variables of the constraint, in the order of their first
    /// occurrence.
    pub fn variables(&self) -> (r: Vec<AtomicTerm>)
        ensures
            terms_view(r@) == add_new(Seq::empty(), constraint_occurrences(self@)),
    {
        let mut acc: Vec<AtomicTerm> = Vec::new();
        assert(terms_view(acc@) =~= Seq::<TermView>::empty());
        self.collect_variables(&mut acc);
        acc
    }
}

} // verus!
