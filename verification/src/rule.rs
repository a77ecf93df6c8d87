//! Rules: a head of terms derived from a body of constraints.
use crate::expression::{
    constraint_text, constraints_text, constraints_view, negation_constraints, terms_text,
    terms_view, ArithExpr, BaseExpr, BinOp, Binary, Constraint, ConstraintView, Expr, ExprView,
    SetComprehension,
};
use crate::analysis::{constraint_occurrences, constraints_occurrences, expr_occurrences};
use crate::integer::nat_decimal;
use crate::matching::{add_new, args_var_occurrences, contains_term, lemma_add_new_concat, lemma_add_new_props, var_occurrences};
use crate::module::{is_topological_order, ordered_pair, petgraph_toposort, topological_order};
use crate::names::NameGenerator;
use crate::replacement::{
    constraints_renamed, constraints_renamed_exec, constraints_replaced, constraints_replaced_exec, occurs_in_constraints, occurs_in_terms, proper_subterm,
    terms_renamed, terms_renamed_exec, terms_replaced, terms_replaced_exec,
};
use crate::term::{AtomicTerm, TermView};
use crate::text::{concat2, concat3, copy_str, join, join_text};
use vstd::prelude::*;

verus! {

/// The `n`-th variable that rule normalization introduces: `~dc0`, `~dc1`, ...
pub open spec fn dc_var(n: nat) -> TermView {
    TermView::Variable("~dc"@ + nat_decimal(n), Seq::empty())
}

/// A declaration `var = setcompre` that rule normalization adds to a body.
pub open spec fn declaration(d: (TermView, ExprView)) -> ConstraintView {
    ConstraintView::Binary(BinOp::Eq, ExprView::Term(d.0), d.1)
}

/// Every negated predicate `no t` replaced by the two constraints of
/// `negation_constraints` with a fresh variable, numbered from `n` on; also gives
/// the next free number.
pub open spec fn replace_negations(cs: Seq<ConstraintView>, n: nat) -> (Seq<ConstraintView>, nat)
    decreases cs.len(),
{
    if cs.len() == 0 {
        (Seq::empty(), n)
    } else {
        let a = replace_negations(cs.drop_last(), n);
        match cs.last() {
            ConstraintView::Predicate(true, term, _) => {
                let pair = negation_constraints(term, dc_var(a.1));
                (a.0.push(pair.0).push(pair.1), a.1 + 1)
            },
            c => (a.0.push(c), a.1),
        }
    }
}

/// An expression with each set comprehension replaced by a fresh variable,
/// numbered from `n` on, the declarations of those variables, and the next free
/// number. Set comprehensions inside the condition of a set comprehension are
/// replaced too, and their declarations are not kept.
pub open spec fn lift_expr(e: ExprView, n: nat) -> (ExprView, Seq<(TermView, ExprView)>, nat)
    decreases e,
{
    match e {
        ExprView::Term(_) => (e, Seq::empty(), n),
        ExprView::SetCompre(vars, cond, op, d) => {
            let inner = lift_constraints(cond, n);
            let v = dc_var(inner.2);
            (ExprView::Term(v), seq![(v, ExprView::SetCompre(vars, inner.0, op, d))], inner.2 + 1)
        },
        ExprView::Arith(op, l, r) => {
            let a = lift_expr(*l, n);
            let b = lift_expr(*r, a.2);
            (ExprView::Arith(op, Box::new(a.0), Box::new(b.0)), a.1 + b.1, b.2)
        },
    }
}

/// A constraint with its set comprehensions lifted out, except in a declaration
/// `x = setcompre` that already names its set comprehension.
pub open spec fn lift_constraint(c: ConstraintView, n: nat) -> (ConstraintView, Seq<(TermView, ExprView)>, nat)
    decreases c,
{
    match c {
        ConstraintView::Binary(op, l, r) => if l is Term && r is SetCompre {
            (c, Seq::empty(), n)
        } else {
            let a = lift_expr(l, n);
            let b = lift_expr(r, a.2);
            (ConstraintView::Binary(op, a.0, b.0), a.1 + b.1, b.2)
        },
        _ => (c, Seq::empty(), n),
    }
}

/// The constraints with their set comprehensions lifted out, one after the other.
pub open spec fn lift_constraints(cs: Seq<ConstraintView>, n: nat) -> (Seq<ConstraintView>, Seq<(TermView, ExprView)>, nat)
    decreases cs,
{
    if cs.len() == 0 {
        (Seq::empty(), Seq::empty(), n)
    } else {
        let a = lift_constraints(cs.subrange(0, cs.len() - 1), n);
        let b = lift_constraint(cs[cs.len() - 1], a.2);
        (a.0.push(b.0), a.1 + b.1, b.2)
    }
}

/// The body that a rule keeps for the given body: negations replaced, set
/// comprehensions lifted out, and their declarations appended.
pub open spec fn normalized_body(body: Seq<ConstraintView>) -> Seq<ConstraintView> {
    let neg = replace_negations(body, 0);
    let lifted = lift_constraints(neg.0, neg.1);
    lifted.0 + lifted.1.map_values(|d: (TermView, ExprView)| declaration(d))
}

/// How many fresh variables normalizing the body takes.
pub open spec fn fresh_variables_needed(body: Seq<ConstraintView>) -> nat {
    let neg = replace_negations(body, 0);
    lift_constraints(neg.0, neg.1).2
}

/// A rule: when the body holds, the head terms are derived. A rule without a
/// head is a conformance rule.
pub struct Rule {
    head: Vec<AtomicTerm>,
    body: Vec<Constraint>,
}

impl Rule {
    pub closed spec fn head_view(&self) -> Seq<TermView> {
        terms_view(self.head@)
    }

    pub closed spec fn body_view(&self) -> Seq<ConstraintView> {
        constraints_view(self.body@)
    }
}

/// How a rule is printed: `head :- body`, with `conforms` as the head of a
/// conformance rule.
pub open spec fn rule_text(head: Seq<TermView>, body: Seq<ConstraintView>) -> Seq<char> {
    (if head.len() == 0 {
        "conforms"@
    } else {
        join_text(terms_text(head), ", "@)
    }) + " :- "@ + join_text(constraints_text(body), ", "@)
}


proof fn lemma_replace_negations_grows(cs: Seq<ConstraintView>, n: nat, k: int)
    requires
        0 <= k <= cs.len(),
    ensures
        n <= replace_negations(cs.subrange(0, k), n).1 <= replace_negations(cs, n).1,
    decreases cs.len() - k,
{
    if k < cs.len() {
        lemma_replace_negations_grows(cs, n, k + 1);
        assert(cs.subrange(0, k + 1).drop_last() =~= cs.subrange(0, k));
    } else {
        assert(cs.subrange(0, k) =~= cs);
    }
    lemma_replace_negations_start(cs.subrange(0, k), n);
}

proof fn lemma_replace_negations_start(cs: Seq<ConstraintView>, n: nat)
    ensures
        n <= replace_negations(cs, n).1,
    decreases cs.len(),
{
    if cs.len() > 0 {
        lemma_replace_negations_start(cs.drop_last(), n);
    }
}

proof fn lemma_lift_expr_grows(e: ExprView, n: nat)
    ensures
        n <= lift_expr(e, n).2,
    decreases e,
{
    match e {
        ExprView::Term(_) => {},
        ExprView::SetCompre(vars, cond, op, d) => {
            lemma_lift_constraints_start(cond, n);
        },
        ExprView::Arith(op, l, r) => {
            lemma_lift_expr_grows(*l, n);
            lemma_lift_expr_grows(*r, lift_expr(*l, n).2);
        },
    }
}

proof fn lemma_lift_constraint_grows(c: ConstraintView, n: nat)
    ensures
        n <= lift_constraint(c, n).2,
    decreases c,
{
    match c {
        ConstraintView::Binary(op, l, r) => {
            lemma_lift_expr_grows(l, n);
            lemma_lift_expr_grows(r, lift_expr(l, n).2);
        },
        _ => {},
    }
}

proof fn lemma_lift_constraints_start(cs: Seq<ConstraintView>, n: nat)
    ensures
        n <= lift_constraints(cs, n).2,
    decreases cs,
{
    if cs.len() > 0 {
        let s0 = cs.subrange(0, cs.len() - 1);
        lemma_lift_constraints_start(s0, n);
        lemma_lift_constraint_grows(cs[cs.len() - 1], lift_constraints(s0, n).2);
    }
}

proof fn lemma_lift_constraints_grows(cs: Seq<ConstraintView>, n: nat, k: int)
    requires
        0 <= k <= cs.len(),
    ensures
        n <= lift_constraints(cs.subrange(0, k), n).2 <= lift_constraints(cs, n).2,
    decreases cs.len() - k,
{
    lemma_lift_constraints_start(cs.subrange(0, k), n);
    if k < cs.len() {
        lemma_lift_constraints_grows(cs, n, k + 1);
        let s1 = cs.subrange(0, k + 1);
        assert(s1.subrange(0, s1.len() - 1) =~= cs.subrange(0, k));
        lemma_lift_constraint_grows(cs[k], lift_constraints(cs.subrange(0, k), n).2);
    } else {
        assert(cs.subrange(0, k) =~= cs);
    }
}

/// Names for the variables that rule normalization introduces.
fn fresh_variable(gen: &mut NameGenerator) -> (r: AtomicTerm)
    requires
        old(gen).prefix_view() == "~dc"@,
        old(gen).counter_view() < i64::MAX,
        old(gen).counter_view() >= 0,
    ensures
        r@ == dc_var(old(gen).counter_view() as nat),
        final(gen).prefix_view() == "~dc"@,
        final(gen).counter_view() == old(gen).counter_view() + 1,
{
    let name = gen.generate_name();
    let r = AtomicTerm::gen_raw_variable_term(name, Vec::new());
    assert(crate::term::texts_view(Seq::<String>::empty()) =~= Seq::empty());
    r
}

fn replace_negative_predicates(body: Vec<Constraint>, gen: &mut NameGenerator) -> (r: Vec<Constraint>)
    requires
        old(gen).prefix_view() == "~dc"@,
        old(gen).counter_view() >= 0,
        replace_negations(constraints_view(body@), old(gen).counter_view() as nat).1 <= i64::MAX,
    ensures
        (constraints_view(r@), final(gen).counter_view() as nat) == replace_negations(
            constraints_view(body@),
            old(gen).counter_view() as nat,
        ),
        final(gen).prefix_view() == "~dc"@,
        final(gen).counter_view() >= 0,
{
    let ghost all = constraints_view(body@);
    let ghost n0 = gen.counter_view() as nat;
    let total = body.len();
    assert(all.len() == total);
    let mut rest = body;
    let mut out: Vec<Constraint> = Vec::new();
    let mut i: usize = 0;
    proof {
        assert(all.subrange(0, 0) =~= Seq::<ConstraintView>::empty());
        assert(constraints_view(out@) =~= Seq::<ConstraintView>::empty());
    }
    while rest.len() > 0
        invariant
            i <= all.len(),
            all.len() <= usize::MAX,
            constraints_view(rest@) == all.subrange(i as int, all.len() as int),
            gen.prefix_view() == "~dc"@,
            gen.counter_view() >= n0,
            replace_negations(all, n0).1 <= i64::MAX,
            (constraints_view(out@), gen.counter_view() as nat) == replace_negations(all.subrange(0, i as int), n0),
        decreases rest@.len(),
    {
        let ghost prev = out@;
        proof {
            assert(constraints_view(rest@).len() == rest@.len());
            lemma_replace_negations_grows(all, n0, i as int + 1);
            let s1 = all.subrange(0, i as int + 1);
            assert(s1.drop_last() =~= all.subrange(0, i as int));
            assert(s1.last() == all[i as int]);
            assert(all[i as int] == constraints_view(rest@)[0]);
        }
        let ghost old_rest = rest@;
        let c = rest.remove(0);
        proof {
            assert(rest@ =~= old_rest.subrange(1, old_rest.len() as int));
            assert forall|j: int| 0 <= j < rest@.len() implies constraints_view(rest@)[j] == all.subrange(i as int + 1, all.len() as int)[j] by {
                assert(rest@[j] == old_rest[j + 1]);
                assert(constraints_view(old_rest)[j + 1] == all.subrange(i as int, all.len() as int)[j + 1]);
            }
            assert(constraints_view(rest@) =~= all.subrange(i as int + 1, all.len() as int));
        }
        match c {
            Constraint::Predicate(p) => {
                if p.negated {
                    let v = fresh_variable(gen);
                    let (b1, b2) = p.convert_negation(v).unwrap();
                    out.push(b1);
                    out.push(b2);
                    proof {
                        assert(constraints_view(out@) =~= constraints_view(prev).push(b1@).push(b2@));
                    }
                } else {
                    out.push(Constraint::Predicate(p));
                    proof {
                        assert(constraints_view(out@) =~= constraints_view(prev).push(out@[out@.len() - 1]@));
                    }
                }
            },
            other => {
                out.push(other);
                proof {
                    assert(constraints_view(out@) =~= constraints_view(prev).push(out@[out@.len() - 1]@));
                }
            },
        }
        i += 1;
    }
    proof {
        assert(all.subrange(0, i as int) =~= all);
    }
    out
}


pub open spec fn decls_view(v: Seq<(AtomicTerm, SetComprehension)>) -> Seq<(TermView, ExprView)> {
    v.map_values(|d: (AtomicTerm, SetComprehension)| (d.0@, d.1@))
}

fn lift_expr_exec(e: &Expr, gen: &mut NameGenerator, decls: &mut Vec<(AtomicTerm, SetComprehension)>) -> (r: Expr)
    requires
        old(gen).prefix_view() == "~dc"@,
        old(gen).counter_view() >= 0,
        lift_expr(e@, old(gen).counter_view() as nat).2 <= i64::MAX,
    ensures
        r@ == lift_expr(e@, old(gen).counter_view() as nat).0,
        decls_view(final(decls)@) == decls_view(old(decls)@) + lift_expr(e@, old(gen).counter_view() as nat).1,
        final(gen).counter_view() == lift_expr(e@, old(gen).counter_view() as nat).2,
        final(gen).prefix_view() == "~dc"@,
    decreases e,
{
    let ghost n = gen.counter_view() as nat;
    match e {
        Expr::BaseExpr(b) => {
            assert(e@ == b@);
            match b {
                BaseExpr::Term(t) => {
                    assert(b@ == ExprView::Term(t@));
                    let bb = BaseExpr::Term(t.duplicate());
                    assert(bb@ == ExprView::Term(t@));
                    let r = Expr::BaseExpr(bb);
                    assert(r@ == bb@);
                    assert(decls_view(decls@) =~= decls_view(decls@) + Seq::<(TermView, ExprView)>::empty());
                    r
                },
                BaseExpr::SetComprehension(s) => {
                    assert(b@ == s@);
                    let ghost cv = s@->SetCompre_1;
                    proof {
                        lemma_lift_constraints_start(cv, n);
                        assert(constraints_view(s.condition@) =~= cv);
                        assert(decreases_to!(*e => (*e)->BaseExpr_0));
                        assert(decreases_to!((*e)->BaseExpr_0 => (*e)->BaseExpr_0->SetComprehension_0));
                        assert(decreases_to!((*e)->BaseExpr_0->SetComprehension_0 => s.condition));
                    }
                    let mut inner: Vec<(AtomicTerm, SetComprehension)> = Vec::new();
                    let condition = lift_constraints_exec(&s.condition, gen, &mut inner);
                    let v = fresh_variable(gen);
                    let v2 = v.duplicate();
                    let lifted = SetComprehension {
                        vars: crate::expression::terms_copy(&s.vars),
                        condition,
                        op: s.op,
                        default: s.default.duplicate(),
                    };
                    let ghost old_decls = decls@;
                    decls.push((v, lifted));
                    let bb = BaseExpr::Term(v2);
                    assert(bb@ == ExprView::Term(v2@));
                    let r = Expr::BaseExpr(bb);
                    assert(r@ == bb@);
                    proof {
                        let expected = lift_expr(e@, n);
                        assert(lifted@->SetCompre_1 =~= constraints_view(lifted.condition@));
                        assert(lifted@ == expected.1[0].1);
                        assert(decls_view(decls@) =~= decls_view(old_decls) + expected.1);
                    }
                    r
                },
            }
        },
        Expr::ArithExpr(a) => {
            proof {
                lemma_lift_expr_grows(a.right@, lift_expr(a.left@, n).2);
            }
            let l = lift_expr_exec(&a.left, gen, decls);
            let r = lift_expr_exec(&a.right, gen, decls);
            let out = Expr::ArithExpr(ArithExpr { op: a.op, left: Box::new(l), right: Box::new(r) });
            proof {
                let x = lift_expr(a.left@, n);
                let y = lift_expr(a.right@, x.2);
                assert(decls_view(decls@) =~= decls_view(old(decls)@) + (x.1 + y.1));
            }
            out
        },
    }
}

fn lift_constraint_exec(c: &Constraint, gen: &mut NameGenerator, decls: &mut Vec<(AtomicTerm, SetComprehension)>) -> (r: Constraint)
    requires
        old(gen).prefix_view() == "~dc"@,
        old(gen).counter_view() >= 0,
        lift_constraint(c@, old(gen).counter_view() as nat).2 <= i64::MAX,
    ensures
        r@ == lift_constraint(c@, old(gen).counter_view() as nat).0,
        decls_view(final(decls)@) == decls_view(old(decls)@) + lift_constraint(c@, old(gen).counter_view() as nat).1,
        final(gen).counter_view() == lift_constraint(c@, old(gen).counter_view() as nat).2,
        final(gen).prefix_view() == "~dc"@,
    decreases c,
{
    let ghost n = gen.counter_view() as nat;
    match c {
        Constraint::Binary(b) => {
            let declared = match (&b.left, &b.right) {
                (Expr::BaseExpr(BaseExpr::Term(_)), Expr::BaseExpr(BaseExpr::SetComprehension(_))) => true,
                _ => false,
            };
            proof {
                assert(declared == (b.left@ is Term && b.right@ is SetCompre)) by {
                    match b.left {
                        Expr::BaseExpr(x) => { assert(b.left@ == x@); },
                        _ => {},
                    }
                    match b.right {
                        Expr::BaseExpr(x) => { assert(b.right@ == x@); },
                        _ => {},
                    }
                }
            }
            if declared {
                assert(decls_view(decls@) =~= decls_view(decls@) + Seq::<(TermView, ExprView)>::empty());
                return c.duplicate();
            }
            proof {
                lemma_lift_expr_grows(b.right@, lift_expr(b.left@, n).2);
            }
            let l = lift_expr_exec(&b.left, gen, decls);
            let r = lift_expr_exec(&b.right, gen, decls);
            proof {
                let x = lift_expr(b.left@, n);
                let y = lift_expr(b.right@, x.2);
                assert(decls_view(decls@) =~= decls_view(old(decls)@) + (x.1 + y.1));
            }
            Constraint::Binary(Binary { op: b.op, left: l, right: r })
        },
        _ => {
            assert(decls_view(decls@) =~= decls_view(decls@) + Seq::<(TermView, ExprView)>::empty());
            c.duplicate()
        },
    }
}

fn lift_constraints_exec(cs: &Vec<Constraint>, gen: &mut NameGenerator, decls: &mut Vec<(AtomicTerm, SetComprehension)>) -> (r: Vec<Constraint>)
    requires
        old(gen).prefix_view() == "~dc"@,
        old(gen).counter_view() >= 0,
        lift_constraints(constraints_view(cs@), old(gen).counter_view() as nat).2 <= i64::MAX,
    ensures
        constraints_view(r@) == lift_constraints(constraints_view(cs@), old(gen).counter_view() as nat).0,
        decls_view(final(decls)@) == decls_view(old(decls)@) + lift_constraints(constraints_view(cs@), old(gen).counter_view() as nat).1,
        final(gen).counter_view() == lift_constraints(constraints_view(cs@), old(gen).counter_view() as nat).2,
        final(gen).prefix_view() == "~dc"@,
    decreases cs,
{
    let ghost all = constraints_view(cs@);
    let ghost n = gen.counter_view() as nat;
    let ghost d0 = decls_view(decls@);
    let mut out: Vec<Constraint> = Vec::new();
    let mut i: usize = 0;
    proof {
        assert(all.subrange(0, 0) =~= Seq::<ConstraintView>::empty());
        assert(constraints_view(out@) =~= Seq::<ConstraintView>::empty());
        assert(d0 =~= d0 + Seq::<(TermView, ExprView)>::empty());
    }
    while i < cs.len()
        invariant
            i <= cs@.len(),
            all == constraints_view(cs@),
            gen.prefix_view() == "~dc"@,
            gen.counter_view() >= 0,
            lift_constraints(all, n).2 <= i64::MAX,
            constraints_view(out@) == lift_constraints(all.subrange(0, i as int), n).0,
            decls_view(decls@) == d0 + lift_constraints(all.subrange(0, i as int), n).1,
            gen.counter_view() == lift_constraints(all.subrange(0, i as int), n).2,
        decreases cs@.len() - i,
    {
        proof {
            lemma_lift_constraints_grows(all, n, i as int + 1);
            let s1 = all.subrange(0, i as int + 1);
            assert(s1.subrange(0, s1.len() - 1) =~= all.subrange(0, i as int));
            assert(s1[s1.len() - 1] == cs@[i as int]@);
            vstd::std_specs::vec::axiom_vec_index_decreases(*cs, i as int);
        }
        let ghost prev = out@;
        let ghost prev_decls = decls_view(decls@);
        let c = lift_constraint_exec(&cs[i], gen, decls);
        out.push(c);
        proof {
            assert(constraints_view(out@) =~= constraints_view(prev).push(c@));
            let a = lift_constraints(all.subrange(0, i as int), n);
            let b = lift_constraint(all[i as int], a.2);
            assert(decls_view(decls@) =~= d0 + (a.1 + b.1));
        }
        i += 1;
    }
    proof {
        assert(all.subrange(0, i as int) =~= all);
    }
    out
}

impl Rule {
    /// A rule with the given head and body. Each negated predicate `no t` is
    /// replaced by `~dcN = count({ ~dc | ~dc is t }), ~dcN = 0`; each set
    /// comprehension that a constraint does not already declare is replaced by a
    /// fresh `~dcN`, and the declarations `~dcN = setcompre` are appended.
    pub fn new(head: Vec<AtomicTerm>, body: Vec<Constraint>) -> (r: Rule)
        requires
            fresh_variables_needed(constraints_view(body@)) <= i64::MAX,
        ensures
            r.head_view() == terms_view(head@),
            r.body_view() == normalized_body(constraints_view(body@)),
    {
        let ghost bv = constraints_view(body@);
        let mut gen = NameGenerator::new("~dc");
        proof {
            reveal_strlit("~dc");
            let neg = replace_negations(bv, 0);
            lemma_lift_constraints_start(neg.0, neg.1);
        }
        let body1 = replace_negative_predicates(body, &mut gen);
        let mut decls: Vec<(AtomicTerm, SetComprehension)> = Vec::new();
        assert(decls_view(decls@) =~= Seq::<(TermView, ExprView)>::empty());
        let mut lifted = lift_constraints_exec(&body1, &mut gen, &mut decls);
        let ghost lifted0 = constraints_view(lifted@);
        let ghost dv = decls_view(decls@);
        let mut k: usize = 0;
        while k < decls.len()
            invariant
                k <= decls@.len(),
                dv == decls_view(decls@),
                constraints_view(lifted@) == lifted0 + dv.subrange(0, k as int).map_values(|d: (TermView, ExprView)| declaration(d)),
            decreases decls@.len() - k,
        {
            let v = decls[k].0.duplicate();
            let s = decls[k].1.duplicate();
            let lb = BaseExpr::Term(v);
            assert(lb@ == ExprView::Term(decls@[k as int].0@));
            let left = Expr::BaseExpr(lb);
            assert(left@ == lb@);
            let sb = BaseExpr::SetComprehension(s);
            assert(sb@ == s@);
            let right = Expr::BaseExpr(sb);
            assert(right@ == sb@);
            let ghost prev = lifted@;
            lifted.push(Constraint::Binary(Binary { op: BinOp::Eq, left, right }));
            proof {
                assert(dv.subrange(0, k as int + 1) =~= dv.subrange(0, k as int).push(dv[k as int]));
                assert(constraints_view(lifted@) =~= constraints_view(prev).push(declaration(dv[k as int])));
                assert(dv.subrange(0, k as int + 1).map_values(|d: (TermView, ExprView)| declaration(d)) =~= dv.subrange(0, k as int).map_values(|d: (TermView, ExprView)| declaration(d)).push(declaration(dv[k as int])));
            }
            k += 1;
        }
        assert(dv.subrange(0, dv.len() as int) =~= dv);
        Rule { head, body: lifted }
    }
}


/// The constraints of a body of one kind, in order.
pub open spec fn constraints_of_kind(cs: Seq<ConstraintView>, kind: int) -> Seq<ConstraintView> {
    cs.filter(|c: ConstraintView| constraint_kind(c) == kind)
}

/// 0 for a predicate, 1 for a comparison, 2 for a type constraint.
pub open spec fn constraint_kind(c: ConstraintView) -> int {
    match c {
        ConstraintView::Predicate(_, _, _) => 0,
        ConstraintView::Binary(_, _, _) => 1,
        ConstraintView::TypeConstraint(_, _) => 2,
    }
}

proof fn lemma_kind_step(s: Seq<ConstraintView>, kind: int)
    requires
        s.len() > 0,
    ensures
        constraints_of_kind(s, kind) == if constraint_kind(s.last()) == kind {
            constraints_of_kind(s.drop_last(), kind).push(s.last())
        } else {
            constraints_of_kind(s.drop_last(), kind)
        },
{
    reveal(Seq::filter);
}

fn kind_of(c: &Constraint) -> (r: u8)
    ensures
        r as int == constraint_kind(c@),
{
    match c {
        Constraint::Predicate(_) => 0,
        Constraint::Binary(_) => 1,
        Constraint::TypeConstraint(_) => 2,
    }
}

impl Rule {
    /// Whether the rule has no head.
    pub fn is_conformance_rule(&self) -> (r: bool)
        ensures
            r == (self.head_view().len() == 0),
    {
        self.head.len() == 0
    }

    /// A copy of the head.
    pub fn get_head(&self) -> (r: Vec<AtomicTerm>)
        ensures
            terms_view(r@) == self.head_view(),
    {
        crate::expression::terms_copy(&self.head)
    }

    /// A copy of the body.
    pub fn get_body(&self) -> (r: Vec<Constraint>)
        ensures
            constraints_view(r@) == self.body_view(),
    {
        let mut r: Vec<Constraint> = Vec::new();
        let mut i: usize = 0;
        while i < self.body.len()
            invariant
                i <= self.body@.len(),
                r@.len() == i,
                forall|j: int| 0 <= j < i ==> (#[trigger] r@[j])@ == self.body@[j]@,
            decreases self.body@.len() - i,
        {
            r.push(self.body[i].duplicate());
            i += 1;
        }
        assert(constraints_view(r@) =~= self.body_view());
        r
    }

    fn constraints_of(&self, kind: u8) -> (r: Vec<Constraint>)
        ensures
            constraints_view(r@) == constraints_of_kind(self.body_view(), kind as int),
    {
        let ghost bv = self.body_view();
        let mut r: Vec<Constraint> = Vec::new();
        let mut i: usize = 0;
        assert(bv.subrange(0, 0) =~= Seq::<ConstraintView>::empty());
        proof {
            reveal(Seq::filter);
        }
        while i < self.body.len()
            invariant
                i <= self.body@.len(),
                bv == self.body_view(),
                constraints_view(r@) == constraints_of_kind(bv.subrange(0, i as int), kind as int),
            decreases self.body@.len() - i,
        {
            let ghost prev = r@;
            proof {
                let s1 = bv.subrange(0, i as int + 1);
                assert(s1.drop_last() =~= bv.subrange(0, i as int));
                assert(s1.last() == self.body@[i as int]@);
                lemma_kind_step(s1, kind as int);
            }
            if kind_of(&self.body[i]) == kind {
                r.push(self.body[i].duplicate());
                assert(constraints_view(r@) =~= constraints_view(prev).push(self.body@[i as int]@));
            }
            i += 1;
        }
        assert(bv.subrange(0, i as int) =~= bv);
        r
    }

    /// The predicates of the body, in order.
    pub fn predicate_constraints(&self) -> (r: Vec<Constraint>)
        ensures
            constraints_view(r@) == constraints_of_kind(self.body_view(), 0),
    {
        self.constraints_of(0)
    }

    /// The comparisons of the body, in order.
    pub fn binary_constraints(&self) -> (r: Vec<Constraint>)
        ensures
            constraints_view(r@) == constraints_of_kind(self.body_view(), 1),
    {
        self.constraints_of(1)
    }

    /// The type constraints of the body, in order.
    pub fn type_constraints(&self) -> (r: Vec<Constraint>)
        ensures
            constraints_view(r@) == constraints_of_kind(self.body_view(), 2),
    {
        self.constraints_of(2)
    }

    /// How the rule is printed: `head :- body`, or `conforms :- body` without a head.
    pub fn to_string(&self) -> (r: String)
        ensures
            r@ == rule_text(self.head_view(), self.body_view()),
    {
        let head = if self.head.len() == 0 {
            copy_str("conforms")
        } else {
            let mut parts: Vec<String> = Vec::new();
            let mut i: usize = 0;
            while i < self.head.len()
                invariant
                    i <= self.head@.len(),
                    parts@.len() == i,
                    forall|j: int| 0 <= j < i ==> (#[trigger] parts@[j])@ == crate::term::term_text(self.head@[j]@),
                decreases self.head@.len() - i,
            {
                parts.push(self.head[i].to_string());
                i += 1;
            }
            assert(parts@.map_values(|p: String| p@) =~= terms_text(self.head_view()));
            join(&parts, ", ")
        };
        let mut parts: Vec<String> = Vec::new();
        let mut i: usize = 0;
        while i < self.body.len()
            invariant
                i <= self.body@.len(),
                parts@.len() == i,
                forall|j: int| 0 <= j < i ==> (#[trigger] parts@[j])@ == constraint_text(self.body@[j]@),
            decreases self.body@.len() - i,
        {
            parts.push(self.body[i].to_string());
            i += 1;
        }
        assert(parts@.map_values(|p: String| p@) =~= constraints_text(self.body_view()));
        let body = join(&parts, ", ");
        concat3(head.as_str(), " :- ", body.as_str())
    }
}


impl Rule {
    /// A copy of the rule.
    pub fn duplicate(&self) -> (r: Rule)
        ensures
            r.head_view() == self.head_view(),
            r.body_view() == self.body_view(),
    {
        Rule { head: crate::expression::terms_copy(&self.head), body: self.get_body() }
    }
}


/// The variables that a constraint has at the rule's own level: those of the
/// constraint, except that a comparison whose right side is a set
/// comprehension has only those of its left side.
pub open spec fn level_occurrences(c: ConstraintView) -> Seq<TermView> {
    match c {
        ConstraintView::Binary(_, l, r) => if r is SetCompre {
            expr_occurrences(l)
        } else {
            constraint_occurrences(c)
        },
        _ => constraint_occurrences(c),
    }
}

/// The variables at the rule's own level of each constraint, one after the
/// other.
pub open spec fn body_level_occurrences(cs: Seq<ConstraintView>) -> Seq<TermView>
    decreases cs.len(),
{
    if cs.len() == 0 {
        Seq::empty()
    } else {
        body_level_occurrences(cs.drop_last()) + level_occurrences(cs.last())
    }
}

/// The variables of the predicates among the constraints, one after the other.
pub open spec fn predicate_occurrences(cs: Seq<ConstraintView>) -> Seq<TermView>
    decreases cs.len(),
{
    if cs.len() == 0 {
        Seq::empty()
    } else {
        predicate_occurrences(cs.drop_last()) + if cs.last() is Predicate {
            constraint_occurrences(cs.last())
        } else {
            Seq::empty()
        }
    }
}

/// Whether a term has no fragments: it is its own root.
pub open spec fn is_root_term(v: TermView) -> bool {
    match v {
        TermView::Variable(_, frags) => frags.len() == 0,
        _ => true,
    }
}

/// The variables among `vs` that are not in `matched` and have no fragments,
/// in order.
pub open spec fn declared_among(vs: Seq<TermView>, matched: Seq<TermView>) -> Seq<TermView>
    decreases vs.len(),
{
    if vs.len() == 0 {
        Seq::empty()
    } else {
        let p = declared_among(vs.drop_last(), matched);
        if !matched.contains(vs.last()) && is_root_term(vs.last()) {
            p.push(vs.last())
        } else {
            p
        }
    }
}

/// The distinct variables at the rule's own level, in order of first
/// occurrence.
pub open spec fn level_variables(body: Seq<ConstraintView>) -> Seq<TermView> {
    add_new(Seq::empty(), body_level_occurrences(body))
}

/// The distinct variables that predicates match, in order of first occurrence.
pub open spec fn matched_variables(body: Seq<ConstraintView>) -> Seq<TermView> {
    add_new(Seq::empty(), predicate_occurrences(body))
}

/// The variables that comparisons declare: those at the rule's own level that
/// no predicate matches and that have no fragments.
pub open spec fn declared_variables(body: Seq<ConstraintView>) -> Seq<TermView> {
    declared_among(level_variables(body), matched_variables(body))
}

/// Whether every variable at the rule's own level is matched or declared, and
/// every variable of the head occurs in the body at that level.
pub open spec fn rule_valid(head: Seq<TermView>, body: Seq<ConstraintView>) -> bool {
    &&& forall|i: int| 0 <= i < level_variables(body).len() ==>
        matched_variables(body).contains(#[trigger] level_variables(body)[i])
            || declared_variables(body).contains(level_variables(body)[i])
    &&& forall|v: TermView| #[trigger] args_var_occurrences(head).contains(v) ==> level_variables(body).contains(v)
}

fn level_collect(c: &Constraint, acc: &mut Vec<AtomicTerm>)
    ensures
        terms_view(final(acc)@) == add_new(terms_view(old(acc)@), level_occurrences(c@)),
{
    match c {
        Constraint::Binary(b) => {
            let right_is_setcompre = match &b.right {
                Expr::BaseExpr(BaseExpr::SetComprehension(s)) => {
                    assert(b.right@ == s@);
                    true
                },
                Expr::BaseExpr(BaseExpr::Term(t)) => {
                    assert(b.right@ == ExprView::Term(t@));
                    false
                },
                _ => false,
            };
            if right_is_setcompre {
                b.left.collect_variables(acc);
            } else {
                c.collect_variables(acc);
            }
        },
        _ => c.collect_variables(acc),
    }
}

impl Rule {
    /// The distinct variables of the body, set comprehensions included, in
    /// order of first occurrence.
    pub fn variables(&self) -> (r: Vec<AtomicTerm>)
        ensures
            terms_view(r@) == add_new(Seq::empty(), constraints_occurrences(self.body_view())),
    {
        let mut acc: Vec<AtomicTerm> = Vec::new();
        let ghost bv = self.body_view();
        assert(terms_view(acc@) =~= Seq::<TermView>::empty());
        assert(bv.subrange(0, 0) =~= Seq::<ConstraintView>::empty());
        let mut i: usize = 0;
        while i < self.body.len()
            invariant
                i <= self.body@.len(),
                bv == constraints_view(self.body@),
                terms_view(acc@) == add_new(Seq::empty(), constraints_occurrences(bv.subrange(0, i as int))),
            decreases self.body@.len() - i,
        {
            self.body[i].collect_variables(&mut acc);
            proof {
                let s1 = bv.subrange(0, i + 1);
                assert(s1.drop_last() =~= bv.subrange(0, i as int));
                lemma_add_new_concat(Seq::empty(), constraints_occurrences(bv.subrange(0, i as int)), constraint_occurrences(bv[i as int]));
            }
            i += 1;
        }
        assert(bv.subrange(0, bv.len() as int) =~= bv);
        acc
    }

    /// The distinct variables at the rule's own level, in order of first
    /// occurrence: those of set comprehensions are left out, but for the
    /// variable that a comparison declares one to be.
    pub fn variables_current_level(&self) -> (r: Vec<AtomicTerm>)
        ensures
            terms_view(r@) == level_variables(self.body_view()),
    {
        let mut acc: Vec<AtomicTerm> = Vec::new();
        let ghost bv = self.body_view();
        assert(terms_view(acc@) =~= Seq::<TermView>::empty());
        assert(bv.subrange(0, 0) =~= Seq::<ConstraintView>::empty());
        let mut i: usize = 0;
        while i < self.body.len()
            invariant
                i <= self.body@.len(),
                bv == constraints_view(self.body@),
                terms_view(acc@) == add_new(Seq::empty(), body_level_occurrences(bv.subrange(0, i as int))),
            decreases self.body@.len() - i,
        {
            level_collect(&self.body[i], &mut acc);
            proof {
                let s1 = bv.subrange(0, i + 1);
                assert(s1.drop_last() =~= bv.subrange(0, i as int));
                lemma_add_new_concat(Seq::empty(), body_level_occurrences(bv.subrange(0, i as int)), level_occurrences(bv[i as int]));
            }
            i += 1;
        }
        assert(bv.subrange(0, bv.len() as int) =~= bv);
        acc
    }

    /// The distinct variables that the predicates of the body match, in order
    /// of first occurrence.
    pub fn predicate_matched_variables(&self) -> (r: Vec<AtomicTerm>)
        ensures
            terms_view(r@) == matched_variables(self.body_view()),
    {
        let mut acc: Vec<AtomicTerm> = Vec::new();
        let ghost bv = self.body_view();
        assert(terms_view(acc@) =~= Seq::<TermView>::empty());
        assert(bv.subrange(0, 0) =~= Seq::<ConstraintView>::empty());
        let mut i: usize = 0;
        while i < self.body.len()
            invariant
                i <= self.body@.len(),
                bv == constraints_view(self.body@),
                terms_view(acc@) == add_new(Seq::empty(), predicate_occurrences(bv.subrange(0, i as int))),
            decreases self.body@.len() - i,
        {
            let ghost before = terms_view(acc@);
            let is_pred = match &self.body[i] {
                Constraint::Predicate(_) => true,
                _ => false,
            };
            if is_pred {
                self.body[i].collect_variables(&mut acc);
            } else {
                assert(add_new(before, Seq::<TermView>::empty()) == before);
            }
            proof {
                let s1 = bv.subrange(0, i + 1);
                assert(s1.drop_last() =~= bv.subrange(0, i as int));
                let part = if bv[i as int] is Predicate { constraint_occurrences(bv[i as int]) } else { Seq::<TermView>::empty() };
                lemma_add_new_concat(Seq::empty(), predicate_occurrences(bv.subrange(0, i as int)), part);
            }
            i += 1;
        }
        assert(bv.subrange(0, bv.len() as int) =~= bv);
        acc
    }

    /// The variables that comparisons declare: those at the rule's own level
    /// that no predicate matches and that have no fragments, in order.
    pub fn declaration_variables(&self) -> (r: Vec<AtomicTerm>)
        ensures
            terms_view(r@) == declared_variables(self.body_view()),
    {
        let all = self.variables_current_level();
        let matched = self.predicate_matched_variables();
        let ghost av = terms_view(all@);
        let ghost mv = terms_view(matched@);
        let mut out: Vec<AtomicTerm> = Vec::new();
        assert(terms_view(out@) =~= Seq::<TermView>::empty());
        assert(av.subrange(0, 0) =~= Seq::<TermView>::empty());
        let mut i: usize = 0;
        while i < all.len()
            invariant
                i <= all@.len(),
                av == terms_view(all@),
                mv == terms_view(matched@),
                terms_view(out@) == declared_among(av.subrange(0, i as int), mv),
            decreases all@.len() - i,
        {
            let ghost before = terms_view(out@);
            proof {
                let s1 = av.subrange(0, i + 1);
                assert(s1.drop_last() =~= av.subrange(0, i as int));
                assert(s1.last() == all@[i as int]@);
            }
            let is_root = match &all[i] {
                AtomicTerm::Variable(v) => v.fragments.len() == 0,
                _ => true,
            };
            if !contains_term(&matched, &all[i]) && is_root {
                out.push(all[i].duplicate());
                assert(terms_view(out@) =~= before.push(all@[i as int]@));
            }
            i += 1;
        }
        assert(av.subrange(0, av.len() as int) =~= av);
        out
    }

    /// Whether every variable at the rule's own level is matched by a
    /// predicate or declared by a comparison, and every variable of the head
    /// occurs in the body at that level.
    pub fn validate(&self) -> (r: bool)
        ensures
            r == rule_valid(self.head_view(), self.body_view()),
    {
        let all = self.variables_current_level();
        let matched = self.predicate_matched_variables();
        let declared = self.declaration_variables();
        let ghost av = terms_view(all@);
        let mut i: usize = 0;
        while i < all.len()
            invariant
                i <= all@.len(),
                av == terms_view(all@),
                av == level_variables(self.body_view()),
                terms_view(matched@) == matched_variables(self.body_view()),
                terms_view(declared@) == declared_variables(self.body_view()),
                forall|j: int| 0 <= j < i ==> matched_variables(self.body_view()).contains(av[j]) || declared_variables(self.body_view()).contains(av[j]),
            decreases all@.len() - i,
        {
            if !contains_term(&matched, &all[i]) && !contains_term(&declared, &all[i]) {
                proof {
                    let lv = level_variables(self.body_view());
                    assert(lv[i as int] == all@[i as int]@);
                    assert(!(matched_variables(self.body_view()).contains(lv[i as int]) || declared_variables(self.body_view()).contains(lv[i as int])));
                }
                return false;
            }
            i += 1;
        }
        let head_vars = {
            let mut acc: Vec<AtomicTerm> = Vec::new();
            assert(terms_view(acc@) =~= Seq::<TermView>::empty());
            let ghost hv = self.head_view();
            assert(hv.subrange(0, 0) =~= Seq::<TermView>::empty());
            let mut k: usize = 0;
            while k < self.head.len()
                invariant
                    k <= self.head@.len(),
                    hv == terms_view(self.head@),
                    terms_view(acc@) == add_new(Seq::empty(), args_var_occurrences(hv.subrange(0, k as int))),
                decreases self.head@.len() - k,
            {
                self.head[k].collect_variables(&mut acc);
                proof {
                    let s1 = hv.subrange(0, k as int + 1);
                    assert(s1.subrange(0, s1.len() - 1) =~= hv.subrange(0, k as int));
                    assert(s1[s1.len() - 1] == self.head@[k as int]@);
                    lemma_add_new_concat(Seq::empty(), args_var_occurrences(hv.subrange(0, k as int)), var_occurrences(self.head@[k as int]@));
                }
                k += 1;
            }
            assert(hv.subrange(0, hv.len() as int) =~= hv);
            acc
        };
        let ghost hvars = terms_view(head_vars@);
        proof {
            lemma_add_new_props(Seq::empty(), args_var_occurrences(self.head_view()));
        }
        let mut k: usize = 0;
        while k < head_vars.len()
            invariant
                k <= head_vars@.len(),
                hvars == terms_view(head_vars@),
                hvars == add_new(Seq::empty(), args_var_occurrences(self.head_view())),
                forall|x: TermView| #[trigger] hvars.contains(x) <==> args_var_occurrences(self.head_view()).contains(x),
                av == level_variables(self.body_view()),
                av == terms_view(all@),
                forall|j: int| 0 <= j < k ==> av.contains(hvars[j]),
            decreases head_vars@.len() - k,
        {
            if !contains_term(&all, &head_vars[k]) {
                proof {
                    assert(hvars.contains(hvars[k as int]));
                    assert(args_var_occurrences(self.head_view()).contains(hvars[k as int]));
                }
                return false;
            }
            k += 1;
        }
        proof {
            assert forall|v: TermView| #[trigger] args_var_occurrences(self.head_view()).contains(v) implies level_variables(self.body_view()).contains(v) by {
                assert(hvars.contains(v));
                let j = choose|j: int| 0 <= j < hvars.len() && hvars[j] == v;
            }
        }
        true
    }
}


/// Whether `c` declares `v`: a comparison whose left side is the term `v` alone.
pub open spec fn declares(c: ConstraintView, v: TermView) -> bool {
    c matches ConstraintView::Binary(_, ExprView::Term(t), _) && t == v
}

/// The positions before `upto` of the constraints that declare `v`, in order.
pub open spec fn declaring(body: Seq<ConstraintView>, v: TermView, upto: int) -> Seq<int>
    decreases upto,
{
    if upto <= 0 {
        Seq::empty()
    } else {
        let p = declaring(body, v, upto - 1);
        if declares(body[upto - 1], v) {
            p.push(upto - 1)
        } else {
            p
        }
    }
}

proof fn lemma_declaring(body: Seq<ConstraintView>, v: TermView, upto: int)
    ensures
        forall|j: int| 0 <= j < declaring(body, v, upto).len() ==> 0 <= #[trigger] declaring(body, v, upto)[j] < upto
            && declares(body[declaring(body, v, upto)[j]], v),
    decreases upto,
{
    if upto > 0 {
        lemma_declaring(body, v, upto - 1);
        let p = declaring(body, v, upto - 1);
        let d = declaring(body, v, upto);
        assert forall|j: int| 0 <= j < d.len() implies 0 <= #[trigger] d[j] < upto && declares(body[d[j]], v) by {
            if j < p.len() {
                assert(d[j] == p[j]);
            } else {
                assert(d[j] == upto - 1);
            }
        }
    }
}

/// Whether `c` is a comparison whose right side is a set comprehension.
pub open spec fn right_is_setcompre(c: ConstraintView) -> bool {
    c matches ConstraintView::Binary(_, _, r) && r is SetCompre
}

/// The first of the positions `ps` whose constraint has a set comprehension on
/// its right side.
pub open spec fn first_setcompre(body: Seq<ConstraintView>, ps: Seq<int>) -> Option<int>
    decreases ps.len(),
{
    if ps.len() == 0 {
        None
    } else {
        match first_setcompre(body, ps.drop_last()) {
            Some(k) => Some(k),
            None => if right_is_setcompre(body[ps.last()]) {
                Some(ps.last())
            } else {
                None
            },
        }
    }
}

/// The declaration chosen among the positions `ps`: the first with a set
/// comprehension on its right side, or else the first.
pub open spec fn elected_position(body: Seq<ConstraintView>, ps: Seq<int>) -> int {
    match first_setcompre(body, ps) {
        Some(k) => k,
        None => ps[0],
    }
}

/// The variables among `vs` that some constraint of the body declares, in
/// order.
pub open spec fn declaring_vars(body: Seq<ConstraintView>, vs: Seq<TermView>) -> Seq<TermView>
    decreases vs.len(),
{
    if vs.len() == 0 {
        Seq::empty()
    } else {
        let p = declaring_vars(body, vs.drop_last());
        if declaring(body, vs.last(), body.len() as int).len() > 0 {
            p.push(vs.last())
        } else {
            p
        }
    }
}

/// The declared variables that a comparison of the body declares.
pub open spec fn decl_vars(body: Seq<ConstraintView>) -> Seq<TermView> {
    declaring_vars(body, declared_variables(body))
}

/// For each of `decl_vars`, the position of its chosen declaration.
pub open spec fn decl_nodes(body: Seq<ConstraintView>) -> Seq<int> {
    decl_vars(body).map_values(|v: TermView| elected_position(body, declaring(body, v, body.len() as int)))
}

/// Whether the declaration of the `b`-th variable uses the `a`-th variable.
pub open spec fn decl_uses(body: Seq<ConstraintView>, a: int, b: int) -> bool {
    expr_occurrences(body[decl_nodes(body)[b]]->Binary_2).contains(decl_vars(body)[a])
}

/// The pairs `(x, y)` where the declaration of the `y`-th variable uses the
/// `x`-th variable, for every `x` before `a` and, for `x == a`, every `y`
/// before `b`, row by row.
pub open spec fn decl_pairs(body: Seq<ConstraintView>, a: int, b: int) -> Seq<(usize, usize)>
    decreases a, b,
{
    if b > 0 {
        let prev = decl_pairs(body, a, b - 1);
        if decl_uses(body, a, b - 1) {
            prev.push((a as usize, (b - 1) as usize))
        } else {
            prev
        }
    } else if a > 0 {
        decl_pairs(body, a - 1, decl_vars(body).len() as int)
    } else {
        Seq::empty()
    }
}

/// The positions `ps` without `e`.
pub open spec fn without(ps: Seq<int>, e: int) -> Seq<int>
    decreases ps.len(),
{
    if ps.len() == 0 {
        Seq::empty()
    } else {
        let p = without(ps.drop_last(), e);
        if ps.last() == e {
            p
        } else {
            p.push(ps.last())
        }
    }
}

/// For each of the variables `vs`, the positions of the declarations not
/// chosen, in order.
pub open spec fn downgraded(body: Seq<ConstraintView>, vs: Seq<TermView>) -> Seq<int>
    decreases vs.len(),
{
    if vs.len() == 0 {
        Seq::empty()
    } else {
        let ps = declaring(body, vs.last(), body.len() as int);
        downgraded(body, vs.drop_last()) + without(ps, elected_position(body, ps))
    }
}

/// Whether the chosen declarations can be ordered so that each comes after
/// the declarations of the variables it uses.
pub open spec fn declarations_sortable(body: Seq<ConstraintView>) -> bool {
    exists|order: Seq<usize>|
        is_topological_order(order, decl_vars(body).len(), decl_pairs(body, decl_vars(body).len() as int, 0))
}

/// Whether `decls` are the chosen declarations in the order petgraph's
/// topological sort finds: an order of all of them, each once, in which the
/// declaration of a variable comes before every declaration that uses it.
pub open spec fn declarations_in_order(body: Seq<ConstraintView>, decls: Seq<ConstraintView>) -> bool {
    let n = decl_vars(body).len();
    let pairs = decl_pairs(body, n as int, 0);
    petgraph_toposort(n, pairs) matches Some(order)
        && is_topological_order(order, n, pairs)
        && decls == order.map_values(|i: usize| body[decl_nodes(body)[i as int]])
}

proof fn lemma_decl_pairs_contains(body: Seq<ConstraintView>, a: int, b: int, x: int, y: int)
    requires
        0 <= a,
        0 <= b <= decl_vars(body).len(),
        0 <= x,
        0 <= y < decl_vars(body).len(),
        (x < a) || (x == a && y < b),
        decl_uses(body, x, y),
    ensures
        decl_pairs(body, a, b).contains((x as usize, y as usize)),
    decreases a, b,
{
    if b > 0 {
        let prev = decl_pairs(body, a, b - 1);
        if x == a && y == b - 1 {
            assert(decl_pairs(body, a, b) == prev.push((a as usize, (b - 1) as usize)));
            assert(decl_pairs(body, a, b)[prev.len() as int] == (x as usize, y as usize));
        } else {
            lemma_decl_pairs_contains(body, a, b - 1, x, y);
            let k = choose|k: int| 0 <= k < prev.len() && prev[k] == (x as usize, y as usize);
            if decl_uses(body, a, b - 1) {
                assert(decl_pairs(body, a, b)[k] == prev[k]);
            }
        }
    } else {
        lemma_decl_pairs_contains(body, a - 1, decl_vars(body).len() as int, x, y);
    }
}

/// In the order of the chosen declarations, the declaration of a variable
/// comes before every declaration that uses that variable.
pub proof fn lemma_declaration_before_use(body: Seq<ConstraintView>, decls: Seq<ConstraintView>, a: int, b: int)
    requires
        declarations_in_order(body, decls),
        decl_vars(body).len() <= usize::MAX,
        0 <= a < decl_vars(body).len(),
        0 <= b < decl_vars(body).len(),
        decl_uses(body, a, b),
    ensures
        exists|i: int, j: int|
            0 <= i < j < decls.len() && decls[i] == body[decl_nodes(body)[a]] && decls[j] == body[decl_nodes(body)[b]],
{
    let n = decl_vars(body).len();
    let pairs = decl_pairs(body, n as int, 0);
    let order = petgraph_toposort(n, pairs)->0;
    lemma_decl_pairs_contains(body, n as int, 0, a, b);
    let e = choose|e: int| 0 <= e < pairs.len() && pairs[e] == (a as usize, b as usize);
    assert(ordered_pair(order, pairs[e].0, pairs[e].1));
    let (i, j) = choose|i: int, j: int| 0 <= i < j < order.len() && order[i] == a as usize && order[j] == b as usize;
    assert(decls[i] == body[decl_nodes(body)[order[i] as int]]);
    assert(decls[j] == body[decl_nodes(body)[order[j] as int]]);
    assert(order[i] as int == a && order[j] as int == b);
    assert(0 <= i < j < decls.len() && decls[i] == body[decl_nodes(body)[a]] && decls[j] == body[decl_nodes(body)[b]]);
}

/// Whether `c` declares the variable `v`.
fn declares_exec(c: &Constraint, v: &AtomicTerm) -> (r: bool)
    ensures
        r == declares(c@, v@),
{
    match c {
        Constraint::Binary(b) => match &b.left {
            Expr::BaseExpr(BaseExpr::Term(t)) => {
                assert(b.left@ == ExprView::Term(t@));
                t.equals(v)
            },
            Expr::BaseExpr(BaseExpr::SetComprehension(s)) => {
                assert(b.left@ == s@);
                false
            },
            _ => false,
        },
        _ => false,
    }
}

fn right_is_setcompre_exec(c: &Constraint) -> (r: bool)
    ensures
        r == right_is_setcompre(c@),
{
    match c {
        Constraint::Binary(b) => match &b.right {
            Expr::BaseExpr(BaseExpr::SetComprehension(s)) => {
                assert(b.right@ == s@);
                true
            },
            Expr::BaseExpr(BaseExpr::Term(t)) => {
                assert(b.right@ == ExprView::Term(t@));
                false
            },
            _ => false,
        },
        _ => false,
    }
}

impl Rule {
    fn declaring_positions(&self, v: &AtomicTerm) -> (r: Vec<usize>)
        ensures
            r@.map_values(|k: usize| k as int) == declaring(self.body_view(), v@, self.body_view().len() as int),
            forall|j: int| 0 <= j < r@.len() ==> (#[trigger] r@[j]) < self.body@.len(),
            forall|j: int| 0 <= j < r@.len() ==> declares(self.body_view()[#[trigger] r@[j] as int], v@),
    {
        proof {
            lemma_declaring(self.body_view(), v@, self.body_view().len() as int);
        }
        let ghost bv = self.body_view();
        let mut out: Vec<usize> = Vec::new();
        let mut k: usize = 0;
        assert(out@.map_values(|k: usize| k as int) =~= Seq::<int>::empty());
        while k < self.body.len()
            invariant
                k <= self.body@.len(),
                bv == constraints_view(self.body@),
                forall|j: int| 0 <= j < out@.len() ==> declares(bv[#[trigger] out@[j] as int], v@),
                out@.map_values(|k: usize| k as int) == declaring(bv, v@, k as int),
                forall|j: int| 0 <= j < out@.len() ==> (#[trigger] out@[j]) < k,
            decreases self.body@.len() - k,
        {
            let ghost before = out@.map_values(|k: usize| k as int);
            if declares_exec(&self.body[k], v) {
                out.push(k);
                assert(out@.map_values(|k: usize| k as int) =~= before.push(k as int));
            }
            k += 1;
        }
        out
    }

    /// The chosen declarations, ordered so that each comes after the
    /// declarations of the variables it uses, and the declarations not chosen.
    /// A variable that no predicate matches is declared by each comparison
    /// that has it alone on its left side; among those the first with a set
    /// comprehension on its right side is chosen, or else the first. The order
    /// is the one petgraph's topological sort finds. The chosen declarations
    /// must not use one another in a cycle.
    pub fn sort_declaration_constraints(&self) -> (r: (Vec<Constraint>, Vec<Constraint>))
        requires
            declarations_sortable(self.body_view()),
        ensures
            declarations_in_order(self.body_view(), constraints_view(r.0@)),
            constraints_view(r.1@) == downgraded(self.body_view(), declared_variables(self.body_view())).map_values(
                |k: int| self.body_view()[k],
            ),
    {
        match self.checked_sort_declaration_constraints() {
            Some(r) => r,
            None => {
                assert(false);
                (Vec::new(), Vec::new())
            },
        }
    }

    /// As `sort_declaration_constraints`, or `None` where the chosen
    /// declarations use one another in a cycle, so that no order exists.
    pub fn checked_sort_declaration_constraints(&self) -> (r: Option<(Vec<Constraint>, Vec<Constraint>)>)
        ensures
            match r {
                Some(p) => declarations_in_order(self.body_view(), constraints_view(p.0@))
                    && constraints_view(p.1@) == downgraded(self.body_view(), declared_variables(self.body_view())).map_values(
                    |k: int| self.body_view()[k],
                ),
                None => !declarations_sortable(self.body_view()),
            },
    {
        let ghost bv = self.body_view();
        let vars = self.declaration_variables();
        let ghost vv = terms_view(vars@);
        let mut dvars: Vec<AtomicTerm> = Vec::new();
        let mut nodes: Vec<usize> = Vec::new();
        let mut down: Vec<Constraint> = Vec::new();
        let mut i: usize = 0;
        assert(vv.subrange(0, 0) =~= Seq::<TermView>::empty());
        assert(terms_view(dvars@) =~= Seq::<TermView>::empty());
        assert(constraints_view(down@) =~= Seq::<ConstraintView>::empty());
        while i < vars.len()
            invariant
                i <= vars@.len(),
                bv == constraints_view(self.body@),
                vv == terms_view(vars@),
                vv == declared_variables(bv),
                terms_view(dvars@) == declaring_vars(bv, vv.subrange(0, i as int)),
                nodes@.len() == dvars@.len(),
                forall|j: int| 0 <= j < nodes@.len() ==> (#[trigger] nodes@[j]) < self.body@.len()
                    && nodes@[j] as int == elected_position(bv, declaring(bv, dvars@[j]@, bv.len() as int))
                    && declares(bv[nodes@[j] as int], dvars@[j]@),
                constraints_view(down@) == downgraded(bv, vv.subrange(0, i as int)).map_values(|k: int| bv[k]),
            decreases vars@.len() - i,
        {
            let ps = self.declaring_positions(&vars[i]);
            let ghost pv = ps@.map_values(|k: usize| k as int);
            proof {
                let s1 = vv.subrange(0, i + 1);
                assert(s1.drop_last() =~= vv.subrange(0, i as int));
                assert(s1.last() == vars@[i as int]@);
            }
            let ghost down_before = constraints_view(down@);
            if ps.len() > 0 {
                // The chosen declaration: the first with a set comprehension on its right side.
                let mut e: usize = ps[0];
                let mut found = false;
                let mut j: usize = 0;
                while j < ps.len()
                    invariant
                        j <= ps@.len(),
                        ps@.len() > 0,
                        pv == ps@.map_values(|k: usize| k as int),
                        bv == constraints_view(self.body@),
                        forall|q: int| 0 <= q < ps@.len() ==> (#[trigger] ps@[q]) < self.body@.len(),
                        forall|q: int| 0 <= q < ps@.len() ==> declares(bv[#[trigger] ps@[q] as int], vars@[i as int]@),
                        e < self.body@.len(),
                        declares(bv[e as int], vars@[i as int]@),
                        found ==> first_setcompre(bv, pv.subrange(0, j as int)) == Some(e as int),
                        !found ==> first_setcompre(bv, pv.subrange(0, j as int)) is None && e == ps@[0],
                    decreases ps@.len() - j,
                {
                    proof {
                        let s1 = pv.subrange(0, j + 1);
                        assert(s1.drop_last() =~= pv.subrange(0, j as int));
                        assert(s1.last() == ps@[j as int] as int);
                    }
                    if !found && right_is_setcompre_exec(&self.body[ps[j]]) {
                        e = ps[j];
                        found = true;
                    }
                    j += 1;
                }
                assert(pv.subrange(0, pv.len() as int) =~= pv);
                assert(e as int == elected_position(bv, pv));
                // The others are downgraded.
                let ghost wv = Seq::<int>::empty();
                let mut q: usize = 0;
                assert(pv.subrange(0, 0) =~= Seq::<int>::empty());
                assert(constraints_view(down@) =~= down_before + without(pv.subrange(0, 0), e as int).map_values(|k: int| bv[k]));
                while q < ps.len()
                    invariant
                        q <= ps@.len(),
                        pv == ps@.map_values(|k: usize| k as int),
                        bv == constraints_view(self.body@),
                        forall|t: int| 0 <= t < ps@.len() ==> (#[trigger] ps@[t]) < self.body@.len(),
                        constraints_view(down@) == down_before + without(pv.subrange(0, q as int), e as int).map_values(|k: int| bv[k]),
                    decreases ps@.len() - q,
                {
                    let ghost before = constraints_view(down@);
                    proof {
                        let s1 = pv.subrange(0, q + 1);
                        assert(s1.drop_last() =~= pv.subrange(0, q as int));
                        assert(s1.last() == ps@[q as int] as int);
                    }
                    if ps[q] != e {
                        down.push(self.body[ps[q]].duplicate());
                        proof {
                            let w0 = without(pv.subrange(0, q as int), e as int);
                            assert(without(pv.subrange(0, q + 1), e as int) == w0.push(ps@[q as int] as int));
                            assert(w0.push(ps@[q as int] as int).map_values(|k: int| bv[k]) =~= w0.map_values(|k: int| bv[k]).push(bv[ps@[q as int] as int]));
                            assert(constraints_view(down@) =~= before.push(bv[ps@[q as int] as int]));
                        }
                    }
                    q += 1;
                }
                assert(pv.subrange(0, pv.len() as int) =~= pv);
                let ghost before_d = terms_view(dvars@);
                let ghost nodes_before = nodes@;
                let ghost dvars_before = dvars@;
                dvars.push(vars[i].duplicate());
                nodes.push(e);
                assert(terms_view(dvars@) =~= before_d.push(vars@[i as int]@));
                proof {
                    assert forall|j: int| 0 <= j < nodes@.len() implies (#[trigger] nodes@[j]) < self.body@.len()
                        && nodes@[j] as int == elected_position(bv, declaring(bv, dvars@[j]@, bv.len() as int))
                        && declares(bv[nodes@[j] as int], dvars@[j]@) by {
                        if j < nodes_before.len() {
                            assert(nodes@[j] == nodes_before[j]);
                            assert(dvars@[j] == dvars_before[j]);
                        } else {
                            assert(nodes@[j] == e);
                            assert(dvars@[j]@ == vars@[i as int]@);
                            assert(declaring(bv, vars@[i as int]@, bv.len() as int) == pv);
                        }
                    }
                }
            }
            proof {
                let ps0 = declaring(bv, vv[i as int], bv.len() as int);
                assert(ps0 == pv);
                let prev = downgraded(bv, vv.subrange(0, i as int));
                assert(downgraded(bv, vv.subrange(0, i + 1)) == prev + without(pv, elected_position(bv, pv)));
                if pv.len() == 0 {
                    assert(without(pv, elected_position(bv, pv)) =~= Seq::<int>::empty());
                    assert(constraints_view(down@) == down_before);
                }
                assert((prev + without(pv, elected_position(bv, pv))).map_values(|k: int| bv[k]) =~= prev.map_values(|k: int| bv[k]) + without(pv, elected_position(bv, pv)).map_values(|k: int| bv[k]));
            }
            i += 1;
        }
        assert(vv.subrange(0, vv.len() as int) =~= vv);
        let ghost dv = terms_view(dvars@);
        assert(dv == decl_vars(bv));
        assert(nodes@.map_values(|k: usize| k as int) =~= decl_nodes(bv));
        // The edges between the chosen declarations.
        let n = dvars.len();
        let mut edges: Vec<(usize, usize)> = Vec::new();
        let mut a: usize = 0;
        while a < n
            invariant
                a <= n,
                n == dvars@.len(),
                n == nodes@.len(),
                n == decl_vars(bv).len(),
                nodes@.map_values(|k: usize| k as int) == decl_nodes(bv),
                terms_view(dvars@) == decl_vars(bv),
                forall|j: int| 0 <= j < nodes@.len() ==> (#[trigger] nodes@[j]) < self.body@.len(),
                forall|j: int| 0 <= j < nodes@.len() ==> declares(bv[#[trigger] nodes@[j] as int], dvars@[j]@),
                bv == constraints_view(self.body@),
                edges@ == decl_pairs(bv, a as int, 0),
                forall|e: int| 0 <= e < edges@.len() ==> (#[trigger] edges@[e]).0 < n && edges@[e].1 < n,
            decreases n - a,
        {
            let mut b: usize = 0;
            while b < n
                invariant
                    a < n,
                    b <= n,
                    n == dvars@.len(),
                    n == nodes@.len(),
                    n == decl_vars(bv).len(),
                    nodes@.map_values(|k: usize| k as int) == decl_nodes(bv),
                    terms_view(dvars@) == decl_vars(bv),
                    forall|j: int| 0 <= j < nodes@.len() ==> (#[trigger] nodes@[j]) < self.body@.len(),
                    forall|j: int| 0 <= j < nodes@.len() ==> declares(bv[#[trigger] nodes@[j] as int], dvars@[j]@),
                    bv == constraints_view(self.body@),
                    edges@ == decl_pairs(bv, a as int, b as int),
                    forall|e: int| 0 <= e < edges@.len() ==> (#[trigger] edges@[e]).0 < n && edges@[e].1 < n,
                decreases n - b,
            {
                let uses = match &self.body[nodes[b]] {
                    Constraint::Binary(bin) => {
                        let vs = bin.right.variables();
                        proof {
                            lemma_add_new_props(Seq::empty(), expr_occurrences(bin.right@));
                            assert(decl_nodes(bv)[b as int] == nodes@[b as int] as int);
                        }
                        contains_term(&vs, &dvars[a])
                    },
                    _ => {
                        proof {
                            assert(declares(bv[nodes@[b as int] as int], dvars@[b as int]@));
                            assert(bv[nodes@[b as int] as int] == self.body@[nodes@[b as int] as int]@);
                        }
                        false
                    },
                };
                assert(uses == decl_uses(bv, a as int, b as int)) by {
                    assert(decl_vars(bv)[a as int] == dvars@[a as int]@);
                    assert(decl_nodes(bv)[b as int] == nodes@[b as int] as int);
                }
                if uses {
                    edges.push((a, b));
                }
                b += 1;
            }
            a += 1;
        }
        let order = match topological_order(n, &edges) {
            Some(o) => o,
            None => {
                return None;
            },
        };
        let mut sorted: Vec<Constraint> = Vec::new();
        let mut k: usize = 0;
        while k < order.len()
            invariant
                k <= order@.len(),
                is_topological_order(order@, n as nat, edges@),
                n == nodes@.len(),
                forall|j: int| 0 <= j < nodes@.len() ==> (#[trigger] nodes@[j]) < self.body@.len(),
                nodes@.map_values(|k: usize| k as int) == decl_nodes(bv),
                bv == constraints_view(self.body@),
                sorted@.len() == k,
                forall|j: int| 0 <= j < k ==> (#[trigger] sorted@[j])@ == bv[decl_nodes(bv)[order@[j] as int]],
            decreases order@.len() - k,
        {
            proof {
                assert(order@[k as int] < n);
                assert(decl_nodes(bv)[order@[k as int] as int] == nodes@[order@[k as int] as int] as int);
            }
            sorted.push(self.body[nodes[order[k]]].duplicate());
            k += 1;
        }
        assert(constraints_view(sorted@) =~= order@.map_values(|i: usize| bv[decl_nodes(bv)[i as int]]));
        Some((sorted, down))
    }
}


/// The position of the first of `cs` with a set comprehension on its right
/// side, if any.
pub open spec fn first_with_setcompre(cs: Seq<ConstraintView>) -> Option<int>
    decreases cs.len(),
{
    if cs.len() == 0 {
        None
    } else {
        match first_with_setcompre(cs.drop_last()) {
            Some(k) => Some(k),
            None => if right_is_setcompre(cs.last()) {
                Some(cs.len() - 1)
            } else {
                None
            },
        }
    }
}

/// The position of the first of `cs` with a set comprehension on its right
/// side, or else 0.
pub open spec fn elect_among(cs: Seq<ConstraintView>) -> int {
    match first_with_setcompre(cs) {
        Some(k) => k,
        None => 0,
    }
}

/// The comparisons among `cs` that are not among `decls`, in order.
pub open spec fn pure_among(cs: Seq<ConstraintView>, decls: Seq<ConstraintView>) -> Seq<ConstraintView>
    decreases cs.len(),
{
    if cs.len() == 0 {
        Seq::empty()
    } else {
        let p = pure_among(cs.drop_last(), decls);
        if cs.last() is Binary && !decls.contains(cs.last()) {
            p.push(cs.last())
        } else {
            p
        }
    }
}

impl Rule {
    /// Among declarations of one variable, the one to use: the first with a
    /// set comprehension on its right side, or else the first.
    #[verifier::spinoff_prover]
    #[verifier::rlimit(30)]
    pub fn elect_declaration_constraint<'a>(&self, candidates: &'a Vec<Constraint>) -> (r: &'a Constraint)
        requires
            candidates@.len() > 0,
        ensures
            r@ == candidates@[elect_among(constraints_view(candidates@))]@,
    {
        let ghost cv = constraints_view(candidates@);
        let mut k: usize = 0;
        let mut found = false;
        let mut i: usize = 0;
        assert(cv.subrange(0, 0) =~= Seq::<ConstraintView>::empty());
        while i < candidates.len()
            invariant
                i <= candidates@.len(),
                cv == constraints_view(candidates@),
                k < candidates@.len(),
                found ==> first_with_setcompre(cv.subrange(0, i as int)) == Some(k as int),
                !found ==> first_with_setcompre(cv.subrange(0, i as int)) is None && k == 0,
            decreases candidates@.len() - i,
        {
            proof {
                let s1 = cv.subrange(0, i + 1);
                assert(s1.drop_last() =~= cv.subrange(0, i as int));
                assert(s1.last() == cv[i as int]);
            }
            if !found && right_is_setcompre_exec(&candidates[i]) {
                k = i;
                found = true;
            }
            i += 1;
        }
        assert(cv.subrange(0, cv.len() as int) =~= cv);
        &candidates[k]
    }

    /// The chosen declarations, ordered as `sort_declaration_constraints`
    /// orders them.
    pub fn ordered_declaration_constraints(&self) -> (r: Vec<Constraint>)
        requires
            declarations_sortable(self.body_view()),
        ensures
            declarations_in_order(self.body_view(), constraints_view(r@)),
    {
        self.sort_declaration_constraints().0
    }

    /// The comparisons of the body that are not among the chosen declarations,
    /// in order.
    pub fn pure_constraints(&self) -> (r: Vec<Constraint>)
        requires
            declarations_sortable(self.body_view()),
        ensures
            petgraph_toposort(
                decl_vars(self.body_view()).len(),
                decl_pairs(self.body_view(), decl_vars(self.body_view()).len() as int, 0),
            ) matches Some(order) && constraints_view(r@) == pure_among(
                self.body_view(),
                order.map_values(|i: usize| self.body_view()[decl_nodes(self.body_view())[i as int]]),
            ),
    {
        let decls = self.ordered_declaration_constraints();
        let ghost dv = constraints_view(decls@);
        let ghost bv = self.body_view();
        let mut out: Vec<Constraint> = Vec::new();
        let mut i: usize = 0;
        assert(bv.subrange(0, 0) =~= Seq::<ConstraintView>::empty());
        assert(constraints_view(out@) =~= Seq::<ConstraintView>::empty());
        while i < self.body.len()
            invariant
                i <= self.body@.len(),
                bv == constraints_view(self.body@),
                dv == constraints_view(decls@),
                constraints_view(out@) == pure_among(bv.subrange(0, i as int), dv),
            decreases self.body@.len() - i,
        {
            proof {
                let s1 = bv.subrange(0, i + 1);
                assert(s1.drop_last() =~= bv.subrange(0, i as int));
                assert(s1.last() == bv[i as int]);
            }
            let is_binary = match &self.body[i] {
                Constraint::Binary(_) => true,
                _ => false,
            };
            if is_binary {
                let mut listed = false;
                let mut j: usize = 0;
                while j < decls.len()
                    invariant
                        j <= decls@.len(),
                        dv == constraints_view(decls@),
                        i < self.body@.len(),
                        listed <==> dv.subrange(0, j as int).contains(self.body@[i as int]@),
                    decreases decls@.len() - j,
                {
                    let ghost x = self.body@[i as int]@;
                    proof {
                        let s1 = dv.subrange(0, j + 1);
                        assert(s1 =~= dv.subrange(0, j as int).push(dv[j as int]));
                        assert(s1.contains(x) <==> (dv.subrange(0, j as int).contains(x) || dv[j as int] == x)) by {
                            if s1.contains(x) {
                                let q = choose|q: int| 0 <= q < s1.len() && s1[q] == x;
                                if q < j {
                                    assert(dv.subrange(0, j as int)[q] == x);
                                }
                            }
                            if dv.subrange(0, j as int).contains(x) {
                                let q = choose|q: int| 0 <= q < j && dv.subrange(0, j as int)[q] == x;
                                assert(s1[q] == x);
                            }
                            if dv[j as int] == x {
                                assert(s1[j as int] == x);
                            }
                        }
                    }
                    if decls[j].equals(&self.body[i]) {
                        listed = true;
                    }
                    j += 1;
                }
                assert(dv.subrange(0, dv.len() as int) =~= dv);
                if !listed {
                    let ghost before = constraints_view(out@);
                    out.push(self.body[i].duplicate());
                    assert(constraints_view(out@) =~= before.push(bv[i as int]));
                }
            }
            i += 1;
        }
        assert(bv.subrange(0, bv.len() as int) =~= bv);
        out
    }
}


impl Rule {
    /// Whether two rules have equal heads and equal bodies.
    pub fn equals(&self, other: &Rule) -> (r: bool)
        ensures
            r == (self.head_view() == other.head_view() && self.body_view() == other.body_view()),
    {
        if !crate::expression::terms_equal(&self.head, &other.head) {
            return false;
        }
        if self.body.len() != other.body.len() {
            assert(self.body_view().len() != other.body_view().len());
            return false;
        }
        let mut i: usize = 0;
        while i < self.body.len()
            invariant
                i <= self.body@.len(),
                self.body@.len() == other.body@.len(),
                forall|j: int| 0 <= j < i ==> self.body@[j]@ == other.body@[j]@,
            decreases self.body@.len() - i,
        {
            if !self.body[i].equals(&other.body[i]) {
                assert(self.body_view()[i as int] != other.body_view()[i as int]);
                return false;
            }
            i += 1;
        }
        assert(self.body_view() =~= other.body_view());
        true
    }
}

impl Rule {
    /// Replace each occurrence of `pattern` in the head terms and the body
    /// constraints by `replacement`, as `AtomicTerm::replace_pattern` does in
    /// each term.
    pub fn replace_pattern(&mut self, pattern: &AtomicTerm, replacement: &AtomicTerm)
        requires
            occurs_in_terms(pattern@, old(self).head_view()) || occurs_in_constraints(pattern@, old(self).body_view())
                ==> !proper_subterm(pattern@, replacement@),
        ensures
            final(self).head_view() == terms_replaced(old(self).head_view(), pattern@, replacement@),
            final(self).body_view() == constraints_replaced(old(self).body_view(), pattern@, replacement@),
    {
        let head = terms_replaced_exec(&self.head, pattern, replacement);
        let body = constraints_replaced_exec(&self.body, pattern, replacement);
        self.head = head;
        self.body = body;
    }
}

impl Rule {
    /// The rule with each term of its head and body, and each sort in its body,
    /// renamed with `scope`.
    pub fn rename(&self, scope: &String) -> (r: Rule)
        ensures
            r.head_view() == terms_renamed(self.head_view(), scope@),
            r.body_view() == constraints_renamed(self.body_view(), scope@),
    {
        Rule { head: terms_renamed_exec(&self.head, scope), body: constraints_renamed_exec(&self.body, scope) }
    }
}

} // verus!
