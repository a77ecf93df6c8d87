//! Arithmetic expressions, set comprehensions and the constraints of rule bodies.
use crate::binding::Binding;
use crate::integer::{trunc_div, Integer};
use crate::matching::TermTraversal;
use crate::term::{subterm_by_labels, term_text, AtomEnum, AtomView, AtomicTerm, TermView};
use crate::text::{concat2, concat3, copy_str, join, join_text};
use crate::type_system::{type_unique_form, RawType, TypeView};
use vstd::prelude::*;

verus! {

/// An arithmetic operator.
#[derive(Clone, Copy, Debug, PartialEq, Eq, Structural, Hash)]
pub enum ArithmeticOp {
    Add,
    Min,
    Mul,
    Div,
}

/// An aggregation over the terms a set comprehension collects.
#[derive(Clone, Copy, Debug, PartialEq, Eq, Structural, Hash)]
pub enum SetCompreOp {
    Sum,
    Count,
    MinAll,
    MaxAll,
    TopK,
    BottomK,
}

/// A comparison operator.
#[derive(Clone, Copy, Debug, PartialEq, Eq, Structural, Hash)]
pub enum BinOp {
    Eq,
    Ne,
    Lt,
    Le,
    Gt,
    Ge,
}

/// `op({ vars | condition })`, with a default value.
pub struct SetComprehension {
    pub vars: Vec<AtomicTerm>,
    pub condition: Vec<Constraint>,
    pub op: SetCompreOp,
    pub default: Integer,
}

/// A term or a set comprehension.
pub enum BaseExpr {
    SetComprehension(SetComprehension),
    Term(AtomicTerm),
}

/// `left op right`.
pub struct ArithExpr {
    pub op: ArithmeticOp,
    pub left: Box<Expr>,
    pub right: Box<Expr>,
}

/// An expression.
pub enum Expr {
    BaseExpr(BaseExpr),
    ArithExpr(ArithExpr),
}

/// `[no] [alias is] term`.
pub struct Predicate {
    pub negated: bool,
    pub term: AtomicTerm,
    pub alias: Option<AtomicTerm>,
}

/// `left op right`.
pub struct Binary {
    pub op: BinOp,
    pub left: Expr,
    pub right: Expr,
}

/// `var : sort`.
pub struct TypeConstraint {
    pub var: AtomicTerm,
    pub sort: RawType,
}

/// A constraint in the body of a rule.
pub enum Constraint {
    Predicate(Predicate),
    Binary(Binary),
    TypeConstraint(TypeConstraint),
}

/// A marker for the kinds of constraints.
pub trait ConstraintBehavior {}

impl ConstraintBehavior for Predicate {}

impl ConstraintBehavior for Binary {}

impl ConstraintBehavior for TypeConstraint {}

impl ConstraintBehavior for Constraint {}

/// The mathematical value of an expression.
pub enum ExprView {
    Term(TermView),
    SetCompre(Seq<TermView>, Seq<ConstraintView>, SetCompreOp, int),
    Arith(ArithmeticOp, Box<ExprView>, Box<ExprView>),
}

/// The mathematical value of a constraint.
pub enum ConstraintView {
    Predicate(bool, TermView, Option<TermView>),
    Binary(BinOp, ExprView, ExprView),
    TypeConstraint(TermView, TypeView),
}

pub open spec fn terms_view(v: Seq<AtomicTerm>) -> Seq<TermView> {
    v.map_values(|t: AtomicTerm| t@)
}

pub open spec fn option_term_view(o: Option<AtomicTerm>) -> Option<TermView> {
    match o {
        Some(t) => Some(t@),
        None => None,
    }
}

impl SetComprehension {
    pub open spec fn setcompre_view(&self) -> ExprView
        decreases self,
    {
        ExprView::SetCompre(
            terms_view(self.vars@),
            Seq::new(
                self.condition.len() as nat,
                |i: int|
                    if 0 <= i < self.condition.len() {
                        self.condition[i].constraint_view()
                    } else {
                        ConstraintView::Predicate(false, TermView::Atom(AtomView::Bool(false)), None)
                    },
            ),
            self.op,
            self.default@,
        )
    }
}

impl BaseExpr {
    pub open spec fn base_view(&self) -> ExprView
        decreases self,
    {
        match self {
            BaseExpr::SetComprehension(s) => s.setcompre_view(),
            BaseExpr::Term(t) => ExprView::Term(t@),
        }
    }
}

impl Expr {
    pub open spec fn expr_view(&self) -> ExprView
        decreases self,
    {
        match self {
            Expr::BaseExpr(b) => b.base_view(),
            Expr::ArithExpr(a) => ExprView::Arith(
                a.op,
                Box::new(a.left.expr_view()),
                Box::new(a.right.expr_view()),
            ),
        }
    }
}

impl Constraint {
    pub open spec fn constraint_view(&self) -> ConstraintView
        decreases self,
    {
        match self {
            Constraint::Predicate(p) => ConstraintView::Predicate(
                p.negated,
                p.term@,
                option_term_view(p.alias),
            ),
            Constraint::Binary(b) => ConstraintView::Binary(
                b.op,
                b.left.expr_view(),
                b.right.expr_view(),
            ),
            Constraint::TypeConstraint(t) => ConstraintView::TypeConstraint(t.var@, t.sort@),
        }
    }
}

impl View for Expr {
    type V = ExprView;

    open spec fn view(&self) -> ExprView {
        self.expr_view()
    }
}

impl View for BaseExpr {
    type V = ExprView;

    open spec fn view(&self) -> ExprView {
        self.base_view()
    }
}

impl View for SetComprehension {
    type V = ExprView;

    open spec fn view(&self) -> ExprView {
        self.setcompre_view()
    }
}

impl View for Constraint {
    type V = ConstraintView;

    open spec fn view(&self) -> ConstraintView {
        self.constraint_view()
    }
}

impl View for Predicate {
    type V = ConstraintView;

    open spec fn view(&self) -> ConstraintView {
        ConstraintView::Predicate(self.negated, self.term@, option_term_view(self.alias))
    }
}

impl View for Binary {
    type V = ConstraintView;

    open spec fn view(&self) -> ConstraintView {
        ConstraintView::Binary(self.op, self.left@, self.right@)
    }
}

impl View for TypeConstraint {
    type V = ConstraintView;

    open spec fn view(&self) -> ConstraintView {
        ConstraintView::TypeConstraint(self.var@, self.sort@)
    }
}

/// The symbol of an arithmetic operator.
pub open spec fn arith_op_text(op: ArithmeticOp) -> Seq<char> {
    match op {
        ArithmeticOp::Add => "+"@,
        ArithmeticOp::Min => "-"@,
        ArithmeticOp::Mul => "*"@,
        ArithmeticOp::Div => "/"@,
    }
}

/// The name of an aggregation.
pub open spec fn setcompre_op_text(op: SetCompreOp) -> Seq<char> {
    match op {
        SetCompreOp::Sum => "sum"@,
        SetCompreOp::Count => "count"@,
        SetCompreOp::MinAll => "minAll"@,
        SetCompreOp::MaxAll => "maxAll"@,
        SetCompreOp::TopK => "topK"@,
        SetCompreOp::BottomK => "bottomK"@,
    }
}

/// The symbol of a comparison.
pub open spec fn bin_op_text(op: BinOp) -> Seq<char> {
    match op {
        BinOp::Eq => "="@,
        BinOp::Ne => "!="@,
        BinOp::Lt => "<"@,
        BinOp::Le => "<="@,
        BinOp::Gt => ">"@,
        BinOp::Ge => ">="@,
    }
}

pub open spec fn terms_text(ts: Seq<TermView>) -> Seq<Seq<char>> {
    Seq::new(ts.len(), |i: int| term_text(ts[i]))
}

/// How an expression is printed: a term as a term, `op({ vars | conditions })`
/// for a set comprehension and `(left op right)` for arithmetic.
pub open spec fn expr_text(e: ExprView) -> Seq<char>
    decreases e,
{
    match e {
        ExprView::Term(t) => term_text(t),
        ExprView::SetCompre(vars, cond, op, _) => setcompre_op_text(op) + "({ "@ + join_text(
            terms_text(vars),
            ", "@,
        ) + " | "@ + join_text(constraints_text(cond), ", "@) + " })"@,
        ExprView::Arith(op, l, r) => "("@ + expr_text(*l) + " "@ + arith_op_text(op) + " "@
            + expr_text(*r) + ")"@,
    }
}

/// The printed forms of a list of constraints.
pub open spec fn constraints_text(cs: Seq<ConstraintView>) -> Seq<Seq<char>>
    decreases cs,
{
    Seq::new(cs.len(), |i: int| if 0 <= i < cs.len() { constraint_text(cs[i]) } else { Seq::empty() })
}

/// How a constraint is printed: `[no ][alias is ]term`, `left op right` or
/// `var : sort`.
pub open spec fn constraint_text(c: ConstraintView) -> Seq<char>
    decreases c,
{
    match c {
        ConstraintView::Predicate(negated, term, alias) => (if negated {
            "no "@
        } else {
            Seq::empty()
        }) + (match alias {
            Some(a) => term_text(a) + " is "@,
            None => Seq::empty(),
        }) + term_text(term),
        ConstraintView::Binary(op, l, r) => expr_text(l) + " "@ + bin_op_text(op) + " "@ + expr_text(r),
        ConstraintView::TypeConstraint(v, s) => term_text(v) + " : "@ + type_unique_form(s),
    }
}


impl ArithmeticOp {
    /// The symbol of the operator.
    pub fn to_string(&self) -> (r: String)
        ensures
            r@ == arith_op_text(*self),
    {
        match self {
            ArithmeticOp::Add => copy_str("+"),
            ArithmeticOp::Min => copy_str("-"),
            ArithmeticOp::Mul => copy_str("*"),
            ArithmeticOp::Div => copy_str("/"),
        }
    }
}

impl SetCompreOp {
    /// The name of the aggregation.
    pub fn to_string(&self) -> (r: String)
        ensures
            r@ == setcompre_op_text(*self),
    {
        match self {
            SetCompreOp::Sum => copy_str("sum"),
            SetCompreOp::Count => copy_str("count"),
            SetCompreOp::MinAll => copy_str("minAll"),
            SetCompreOp::MaxAll => copy_str("maxAll"),
            SetCompreOp::TopK => copy_str("topK"),
            SetCompreOp::BottomK => copy_str("bottomK"),
        }
    }
}

impl BinOp {
    /// The symbol of the comparison.
    pub fn to_string(&self) -> (r: String)
        ensures
            r@ == bin_op_text(*self),
    {
        match self {
            BinOp::Eq => copy_str("="),
            BinOp::Ne => copy_str("!="),
            BinOp::Lt => copy_str("<"),
            BinOp::Le => copy_str("<="),
            BinOp::Gt => copy_str(">"),
            BinOp::Ge => copy_str(">="),
        }
    }
}

fn terms_to_text(ts: &Vec<AtomicTerm>) -> (r: String)
    ensures
        r@ == join_text(terms_text(terms_view(ts@)), ", "@),
{
    let mut parts: Vec<String> = Vec::new();
    let mut i: usize = 0;
    while i < ts.len()
        invariant
            i <= ts@.len(),
            parts@.len() == i,
            forall|j: int| 0 <= j < i ==> (#[trigger] parts@[j])@ == term_text(ts@[j]@),
        decreases ts@.len() - i,
    {
        parts.push(ts[i].to_string());
        i += 1;
    }
    assert(parts@.map_values(|p: String| p@) =~= terms_text(terms_view(ts@)));
    join(&parts, ", ")
}

impl SetComprehension {
    /// How the set comprehension is printed: `op({ vars | conditions })`.
    pub fn to_string(&self) -> (r: String)
        ensures
            r@ == expr_text(self@),
        decreases self,
    {
        let vars = terms_to_text(&self.vars);
        let ghost cv = self@->SetCompre_1;
        let mut parts: Vec<String> = Vec::new();
        let mut i: usize = 0;
        while i < self.condition.len()
            invariant
                i <= self.condition@.len(),
                parts@.len() == i,
                cv == self@->SetCompre_1,
                forall|j: int| 0 <= j < i ==> (#[trigger] parts@[j])@ == constraint_text(cv[j]),
            decreases self.condition@.len() - i,
        {
            proof {
                assert(decreases_to!(*self => self.condition));
                vstd::std_specs::vec::axiom_vec_index_decreases(self.condition, i as int);
            }
            parts.push(self.condition[i].to_string());
            i += 1;
        }
        assert(parts@.map_values(|p: String| p@) =~= constraints_text(cv));
        let conds = join(&parts, ", ");
        let op = self.op.to_string();
        let a = concat3(op.as_str(), "({ ", vars.as_str());
        let b = concat3(a.as_str(), " | ", conds.as_str());
        concat2(b.as_str(), " })")
    }
}

impl Expr {
    /// How the expression is printed.
    pub fn to_string(&self) -> (r: String)
        ensures
            r@ == expr_text(self@),
        decreases self,
    {
        match self {
            Expr::BaseExpr(b) => {
                assert(self@ == b@);
                match b {
                    BaseExpr::Term(t) => {
                        assert(b@ == ExprView::Term(t@));
                        t.to_string()
                    },
                    BaseExpr::SetComprehension(s) => {
                        assert(b@ == s@);
                        s.to_string()
                    },
                }
            },
            Expr::ArithExpr(a) => {
                let l = a.left.to_string();
                let op = a.op.to_string();
                let r = a.right.to_string();
                let x = concat3("(", l.as_str(), " ");
                let y = concat3(x.as_str(), op.as_str(), " ");
                concat3(y.as_str(), r.as_str(), ")")
            },
        }
    }
}

impl Constraint {
    /// How the constraint is printed.
    pub fn to_string(&self) -> (r: String)
        ensures
            r@ == constraint_text(self@),
        decreases self,
    {
        match self {
            Constraint::Predicate(p) => {
                let term = p.term.to_string();
                let with_alias = match &p.alias {
                    Some(a) => {
                        let alias = a.to_string();
                        concat3(alias.as_str(), " is ", term.as_str())
                    },
                    None => term,
                };
                if p.negated {
                    concat2("no ", with_alias.as_str())
                } else {
                    with_alias
                }
            },
            Constraint::Binary(b) => {
                let l = b.left.to_string();
                let op = b.op.to_string();
                let r = b.right.to_string();
                let x = concat3(l.as_str(), " ", op.as_str());
                concat3(x.as_str(), " ", r.as_str())
            },
            Constraint::TypeConstraint(t) => {
                let v = t.var.to_string();
                let s = t.sort.derive_unique_form();
                concat3(v.as_str(), " : ", s.as_str())
            },
        }
    }
}


/// The term whose value a term expression reads under the binding `b`: a bound
/// term is replaced by its binding, and a variable with fragments reads the
/// subterm of its root's binding along the fragments. `None` where nothing can
/// be read.
pub open spec fn read_term(t: TermView, b: Map<TermView, TermView>) -> Option<TermView> {
    match t {
        TermView::Variable(root, frags) => if frags.len() > 0 {
            let r = TermView::Variable(root, Seq::empty());
            if b.dom().contains(r) {
                subterm_by_labels(b[r], frags)
            } else {
                None
            }
        } else {
            Some(if b.dom().contains(t) { b[t] } else { t })
        },
        _ => Some(if b.dom().contains(t) { b[t] } else { t }),
    }
}

/// The result of an arithmetic operator; division rounds toward zero.
pub open spec fn apply_arith(op: ArithmeticOp, x: int, y: int) -> int {
    match op {
        ArithmeticOp::Add => x + y,
        ArithmeticOp::Min => x - y,
        ArithmeticOp::Mul => x * y,
        ArithmeticOp::Div => trunc_div(x, y),
    }
}

/// The integer value of an expression under a binding: `None` when a term reads
/// an atom that is not an integer.
pub open spec fn expr_value(e: ExprView, b: Map<TermView, TermView>) -> Option<int>
    decreases e,
{
    match e {
        ExprView::Term(t) => match read_term(t, b) {
            Some(TermView::Atom(AtomView::Int(i))) => Some(i),
            _ => None,
        },
        ExprView::SetCompre(_, _, _, _) => None,
        ExprView::Arith(op, l, r) => match (expr_value(*l, b), expr_value(*r, b)) {
            (Some(x), Some(y)) => Some(apply_arith(op, x, y)),
            _ => None,
        },
    }
}

/// Whether the arithmetic of an expression is defined under a binding: both
/// sides of every arithmetic operator have integer values, and no division is
/// by zero. A term or a set comprehension on its own is always defined.
pub open spec fn expr_evaluable(e: ExprView, b: Map<TermView, TermView>) -> bool
    decreases e,
{
    match e {
        ExprView::Term(_) => true,
        ExprView::SetCompre(_, _, _, _) => true,
        ExprView::Arith(op, l, r) => expr_evaluable(*l, b) && expr_evaluable(*r, b) && expr_value(
            *l,
            b,
        ) is Some && expr_value(*r, b) is Some && (op == ArithmeticOp::Div ==> expr_value(
            *r,
            b,
        ).unwrap() != 0),
    }
}

/// Whether an expression holds a set comprehension.
pub open spec fn expr_has_setcompre(e: ExprView) -> bool
    decreases e,
{
    match e {
        ExprView::Term(_) => false,
        ExprView::SetCompre(_, _, _, _) => true,
        ExprView::Arith(_, l, r) => expr_has_setcompre(*l) || expr_has_setcompre(*r),
    }
}

/// The outcome of a comparison.
pub open spec fn compare(op: BinOp, x: int, y: int) -> bool {
    match op {
        BinOp::Eq => x == y,
        BinOp::Ne => x != y,
        BinOp::Lt => x < y,
        BinOp::Le => x <= y,
        BinOp::Gt => x > y,
        BinOp::Ge => x >= y,
    }
}

/// The value that an aggregation gives for a list of terms with their counts:
/// `count` adds up the counts, `sum` adds each integer times its count, `maxAll`
/// takes the largest integer starting from the smallest `isize`, and the others
/// take the smallest integer starting from the largest `isize`.
pub open spec fn aggregate_value(op: SetCompreOp, items: Seq<(TermView, int)>) -> int
    decreases items.len(),
{
    if items.len() == 0 {
        match op {
            SetCompreOp::Count => 0,
            SetCompreOp::Sum => 0,
            SetCompreOp::MaxAll => isize::MIN as int,
            _ => isize::MAX as int,
        }
    } else {
        let prev = aggregate_value(op, items.drop_last());
        let t = items.last().0;
        let c = items.last().1;
        match op {
            SetCompreOp::Count => prev + c,
            SetCompreOp::Sum => match t {
                TermView::Atom(AtomView::Int(i)) => prev + i * c,
                _ => prev,
            },
            SetCompreOp::MaxAll => match t {
                TermView::Atom(AtomView::Int(i)) => if i > prev {
                    i
                } else {
                    prev
                },
                _ => prev,
            },
            _ => match t {
                TermView::Atom(AtomView::Int(i)) => if i < prev {
                    i
                } else {
                    prev
                },
                _ => prev,
            },
        }
    }
}

pub open spec fn counted_view(items: Seq<(AtomicTerm, isize)>) -> Seq<(TermView, int)> {
    items.map_values(|e: (AtomicTerm, isize)| (e.0@, e.1 as int))
}

fn read_expr_term(t: &AtomicTerm, binding: &Binding) -> (r: Option<AtomicTerm>)
    ensures
        match r {
            Some(s) => read_term(t@, binding@) == Some(s@),
            None => read_term(t@, binding@) is None,
        },
{
    match t {
        AtomicTerm::Variable(v) => {
            if v.fragments.len() > 0 {
                let root = t.root();
                match binding.get(&root) {
                    Some(bound) => bound.find_subterm_by_labels(&v.fragments),
                    None => None,
                }
            } else {
                match binding.get(t) {
                    Some(b) => Some(b.duplicate()),
                    None => Some(t.duplicate()),
                }
            }
        },
        _ => match binding.get(t) {
            Some(b) => Some(b.duplicate()),
            None => Some(t.duplicate()),
        },
    }
}

impl Expr {
    /// Whether the expression holds a set comprehension.
    pub fn has_set_comprehension(&self) -> (r: bool)
        ensures
            r == expr_has_setcompre(self@),
        decreases self,
    {
        match self {
            Expr::BaseExpr(b) => {
                assert(self@ == b@);
                match b {
                    BaseExpr::Term(t) => {
                        assert(b@ == ExprView::Term(t@));
                        false
                    },
                    BaseExpr::SetComprehension(s) => {
                        assert(b@ == s@);
                        true
                    },
                }
            },
            Expr::ArithExpr(a) => a.left.has_set_comprehension() || a.right.has_set_comprehension(),
        }
    }

    /// The integer value of the expression under the binding: `None` where a
    /// term reads no integer atom (an atom of another kind, a composite term,
    /// an unbound variable) or the expression is a set comprehension.
    pub fn evaluate(&self, binding: &Binding) -> (r: Option<Integer>)
        requires
            expr_evaluable(self@, binding@),
        ensures
            match r {
                Some(v) => expr_value(self@, binding@) == Some(v@),
                None => expr_value(self@, binding@) is None,
            },
        decreases self,
    {
        match self {
            Expr::BaseExpr(b) => {
                assert(self@ == b@);
                match b {
                    BaseExpr::Term(t) => {
                        assert(b@ == ExprView::Term(t@));
                        let value = read_expr_term(t, binding);
                        match value {
                            Some(AtomicTerm::Atom(a)) => match &a.val {
                                AtomEnum::Int(i) => Some(i.duplicate()),
                                _ => None,
                            },
                            _ => None,
                        }
                    },
                    BaseExpr::SetComprehension(s) => {
                        assert(b@ == s@);
                        None
                    },
                }
            },
            Expr::ArithExpr(a) => {
                let l = a.left.evaluate(binding).unwrap();
                let r = a.right.evaluate(binding).unwrap();
                let v = match a.op {
                    ArithmeticOp::Add => l.add(&r),
                    ArithmeticOp::Div => l.div(&r),
                    ArithmeticOp::Min => l.sub(&r),
                    ArithmeticOp::Mul => l.mul(&r),
                };
                Some(v)
            },
        }
    }
}

impl Binary {
    /// Whether either side holds a set comprehension.
    pub fn has_set_comprehension(&self) -> (r: bool)
        ensures
            r == (expr_has_setcompre(self.left@) || expr_has_setcompre(self.right@)),
    {
        self.left.has_set_comprehension() || self.right.has_set_comprehension()
    }

    /// Whether the comparison holds under the binding; `None` when a side holds
    /// a set comprehension.
    pub fn evaluate(&self, binding: &Binding) -> (r: Option<bool>)
        requires
            !(expr_has_setcompre(self.left@) || expr_has_setcompre(self.right@)) ==> {
                &&& expr_evaluable(self.left@, binding@)
                &&& expr_evaluable(self.right@, binding@)
                &&& expr_value(self.left@, binding@) is Some
                &&& expr_value(self.right@, binding@) is Some
            },
        ensures
            r == if expr_has_setcompre(self.left@) || expr_has_setcompre(self.right@) {
                None
            } else {
                Some(
                    compare(
                        self.op,
                        expr_value(self.left@, binding@).unwrap(),
                        expr_value(self.right@, binding@).unwrap(),
                    ),
                )
            },
    {
        if self.has_set_comprehension() {
            return None;
        }
        let l = self.left.evaluate(binding).unwrap();
        let r = self.right.evaluate(binding).unwrap();
        let satisfied = match self.op {
            BinOp::Eq => l.equals(&r),
            BinOp::Ge => !l.less_than(&r),
            BinOp::Gt => r.less_than(&l),
            BinOp::Le => !r.less_than(&l),
            BinOp::Lt => l.less_than(&r),
            BinOp::Ne => !l.equals(&r),
        };
        Some(satisfied)
    }
}

impl SetCompreOp {
    /// Aggregate a list of terms, each with the number of times it occurs;
    /// terms that are not integers are passed over by all but `count`.
    pub fn aggregate(&self, terms: &Vec<(AtomicTerm, isize)>) -> (r: Integer)
        ensures
            r@ == aggregate_value(*self, counted_view(terms@)),
    {
        let mut acc = match self {
            SetCompreOp::Count => Integer::zero(),
            SetCompreOp::Sum => Integer::zero(),
            SetCompreOp::MaxAll => Integer::from_i64(isize::MIN as i64),
            _ => Integer::from_i64(isize::MAX as i64),
        };
        assert(counted_view(terms@).subrange(0, 0) =~= Seq::<(TermView, int)>::empty());
        let mut i: usize = 0;
        while i < terms.len()
            invariant
                i <= terms@.len(),
                acc@ == aggregate_value(*self, counted_view(terms@).subrange(0, i as int)),
            decreases terms@.len() - i,
        {
            let ghost items = counted_view(terms@).subrange(0, i as int + 1);
            assert(items.drop_last() =~= counted_view(terms@).subrange(0, i as int));
            assert(items.last() == (terms@[i as int].0@, terms@[i as int].1 as int));
            let count = Integer::from_i64(terms[i].1 as i64);
            match self {
                SetCompreOp::Count => {
                    acc = acc.add(&count);
                },
                SetCompreOp::Sum => {
                    match &terms[i].0 {
                        AtomicTerm::Atom(a) => match &a.val {
                            AtomEnum::Int(v) => {
                                let p = v.mul(&count);
                                acc = acc.add(&p);
                            },
                            _ => {},
                        },
                        _ => {},
                    }
                },
                SetCompreOp::MaxAll => {
                    match &terms[i].0 {
                        AtomicTerm::Atom(a) => match &a.val {
                            AtomEnum::Int(v) => {
                                if acc.less_than(v) {
                                    acc = v.duplicate();
                                }
                            },
                            _ => {},
                        },
                        _ => {},
                    }
                },
                _ => {
                    match &terms[i].0 {
                        AtomicTerm::Atom(a) => match &a.val {
                            AtomEnum::Int(v) => {
                                if v.less_than(&acc) {
                                    acc = v.duplicate();
                                }
                            },
                            _ => {},
                        },
                        _ => {},
                    }
                },
            }
            i += 1;
        }
        assert(counted_view(terms@).subrange(0, terms@.len() as int) =~= counted_view(terms@));
        acc
    }
}


/// The variable that stands for each term a negated predicate forbids.
pub open spec fn negation_alias() -> TermView {
    TermView::Variable("~dc"@, Seq::empty())
}

/// The two constraints that replace `no term` with the fresh variable `var`:
/// `var = count({ ~dc | ~dc is term })` and `var = 0`.
pub open spec fn negation_constraints(term: TermView, var: TermView) -> (ConstraintView, ConstraintView) {
    let alias = negation_alias();
    let setcompre = ExprView::SetCompre(
        seq![alias],
        seq![ConstraintView::Predicate(false, term, Some(alias))],
        SetCompreOp::Count,
        0,
    );
    (
        ConstraintView::Binary(BinOp::Eq, ExprView::Term(var), setcompre),
        ConstraintView::Binary(BinOp::Eq, ExprView::Term(var), ExprView::Term(TermView::Atom(AtomView::Int(0)))),
    )
}

impl Predicate {
    /// A negated predicate `no term` as the two constraints
    /// `var = count({ ~dc | ~dc is term })` and `var = 0`; `None` for a
    /// predicate that is not negated.
    pub fn convert_negation(&self, var: AtomicTerm) -> (r: Option<(Constraint, Constraint)>)
        ensures
            !self.negated ==> r is None,
            self.negated ==> (r matches Some((a, b)) && (a@, b@) == negation_constraints(self.term@, var@)),
    {
        if !self.negated {
            return None;
        }
        let alias = AtomicTerm::gen_raw_variable_term(copy_str("~dc"), Vec::new());
        let alias2 = AtomicTerm::gen_raw_variable_term(copy_str("~dc"), Vec::new());
        assert(crate::term::texts_view(Seq::<String>::empty()) =~= Seq::empty());
        let pos_predicate = Predicate { negated: false, term: self.term.duplicate(), alias: Some(alias) };
        let mut vars: Vec<AtomicTerm> = Vec::new();
        vars.push(alias2);
        let mut condition: Vec<Constraint> = Vec::new();
        condition.push(Constraint::Predicate(pos_predicate));
        assert(condition@[0].constraint_view() == ConstraintView::Predicate(false, self.term@, Some(negation_alias())));
        let setcompre = SetComprehension { vars, condition, op: SetCompreOp::Count, default: Integer::zero() };
        let var2 = var.duplicate();
        let binary = Binary {
            op: BinOp::Eq,
            left: Expr::BaseExpr(BaseExpr::Term(var)),
            right: Expr::BaseExpr(BaseExpr::SetComprehension(setcompre)),
        };
        let zero = AtomicTerm::gen_atom_term(AtomEnum::Int(Integer::zero()));
        let binary2 = Binary {
            op: BinOp::Eq,
            left: Expr::BaseExpr(BaseExpr::Term(var2)),
            right: Expr::BaseExpr(BaseExpr::Term(zero)),
        };
        let c1 = Constraint::Binary(binary);
        let c2 = Constraint::Binary(binary2);
        proof {
            let expected = negation_constraints(self.term@, var@);
            assert(c1@->Binary_2->SetCompre_0 =~= expected.0->Binary_2->SetCompre_0);
            assert(c1@->Binary_2->SetCompre_1 =~= expected.0->Binary_2->SetCompre_1);
            assert(c1@ == expected.0);
            assert(c2@ == expected.1);
        }
        Some((c1, c2))
    }
}


pub open spec fn constraints_view(cs: Seq<Constraint>) -> Seq<ConstraintView> {
    cs.map_values(|c: Constraint| c@)
}

/// A copy of a list of terms.
pub fn terms_copy(ts: &Vec<AtomicTerm>) -> (r: Vec<AtomicTerm>)
    ensures
        terms_view(r@) == terms_view(ts@),
{
    let mut r: Vec<AtomicTerm> = Vec::new();
    let mut i: usize = 0;
    while i < ts.len()
        invariant
            i <= ts@.len(),
            r@.len() == i,
            forall|j: int| 0 <= j < i ==> (#[trigger] r@[j])@ == ts@[j]@,
        decreases ts@.len() - i,
    {
        r.push(ts[i].duplicate());
        i += 1;
    }
    assert(terms_view(r@) =~= terms_view(ts@));
    r
}

impl SetComprehension {
    /// A deep copy.
    pub fn duplicate(&self) -> (r: SetComprehension)
        ensures
            r@ == self@,
        decreases self,
    {
        let mut condition: Vec<Constraint> = Vec::new();
        let mut i: usize = 0;
        while i < self.condition.len()
            invariant
                i <= self.condition@.len(),
                condition@.len() == i,
                forall|j: int| 0 <= j < i ==> (#[trigger] condition@[j])@ == self.condition@[j]@,
            decreases self.condition@.len() - i,
        {
            proof {
                assert(decreases_to!(*self => self.condition));
                vstd::std_specs::vec::axiom_vec_index_decreases(self.condition, i as int);
            }
            condition.push(self.condition[i].duplicate());
            i += 1;
        }
        let r = SetComprehension {
            vars: terms_copy(&self.vars),
            condition,
            op: self.op,
            default: self.default.duplicate(),
        };
        assert(r@->SetCompre_1 =~= self@->SetCompre_1);
        r
    }
}

impl Expr {
    /// A deep copy.
    pub fn duplicate(&self) -> (r: Expr)
        ensures
            r@ == self@,
        decreases self,
    {
        match self {
            Expr::BaseExpr(b) => {
                assert(self@ == b@);
                match b {
                    BaseExpr::Term(t) => {
                        assert(b@ == ExprView::Term(t@));
                        let bb = BaseExpr::Term(t.duplicate());
                        assert(bb@ == ExprView::Term(t@));
                        let r = Expr::BaseExpr(bb);
                        assert(r@ == bb@);
                        r
                    },
                    BaseExpr::SetComprehension(s) => {
                        assert(b@ == s@);
                        let c = s.duplicate();
                        let bb = BaseExpr::SetComprehension(c);
                        assert(bb@ == c@);
                        let r = Expr::BaseExpr(bb);
                        assert(r@ == bb@);
                        r
                    },
                }
            },
            Expr::ArithExpr(a) => {
                let l = a.left.duplicate();
                let r = a.right.duplicate();
                Expr::ArithExpr(ArithExpr { op: a.op, left: Box::new(l), right: Box::new(r) })
            },
        }
    }
}

impl Constraint {
    /// A deep copy.
    pub fn duplicate(&self) -> (r: Constraint)
        ensures
            r@ == self@,
        decreases self,
    {
        match self {
            Constraint::Predicate(p) => {
                let alias = match &p.alias {
                    Some(a) => Some(a.duplicate()),
                    None => None,
                };
                Constraint::Predicate(Predicate { negated: p.negated, term: p.term.duplicate(), alias })
            },
            Constraint::Binary(b) => Constraint::Binary(
                Binary { op: b.op, left: b.left.duplicate(), right: b.right.duplicate() },
            ),
            Constraint::TypeConstraint(t) => Constraint::TypeConstraint(
                TypeConstraint { var: t.var.duplicate(), sort: t.sort.duplicate() },
            ),
        }
    }
}


/// Whether two lists of terms are equal.
pub fn terms_equal(a: &Vec<AtomicTerm>, b: &Vec<AtomicTerm>) -> (r: bool)
    ensures
        r == (terms_view(a@) == terms_view(b@)),
{
    if a.len() != b.len() {
        assert(terms_view(a@).len() != terms_view(b@).len());
        return false;
    }
    let mut i: usize = 0;
    while i < a.len()
        invariant
            i <= a@.len(),
            a@.len() == b@.len(),
            forall|j: int| 0 <= j < i ==> a@[j]@ == b@[j]@,
        decreases a@.len() - i,
    {
        if !a[i].equals(&b[i]) {
            assert(terms_view(a@)[i as int] != terms_view(b@)[i as int]);
            return false;
        }
        i += 1;
    }
    assert(terms_view(a@) =~= terms_view(b@));
    true
}

impl Expr {
    /// Whether two expressions are equal.
    pub fn equals(&self, other: &Expr) -> (r: bool)
        ensures
            r == (self@ == other@),
        decreases self,
    {
        match (self, other) {
            (Expr::BaseExpr(b1), Expr::BaseExpr(b2)) => {
                assert(self@ == b1@);
                assert(other@ == b2@);
                match (b1, b2) {
                    (BaseExpr::Term(t1), BaseExpr::Term(t2)) => {
                        assert(b1@ == ExprView::Term(t1@));
                        assert(b2@ == ExprView::Term(t2@));
                        t1.equals(t2)
                    },
                    (BaseExpr::SetComprehension(s1), BaseExpr::SetComprehension(s2)) => {
                        assert(b1@ == s1@);
                        assert(b2@ == s2@);
                        let ghost c1 = constraints_view(s1.condition@);
                        let ghost c2 = constraints_view(s2.condition@);
                        assert(s1@->SetCompre_1 =~= c1);
                        assert(s2@->SetCompre_1 =~= c2);
                        if s1.op != s2.op || !s1.default.equals(&s2.default) || !terms_equal(&s1.vars, &s2.vars) {
                            return false;
                        }
                        if s1.condition.len() != s2.condition.len() {
                            assert(c1.len() != c2.len());
                            return false;
                        }
                        let mut i: usize = 0;
                        while i < s1.condition.len()
                            invariant
                                i <= s1.condition@.len(),
                                s1.condition@.len() == s2.condition@.len(),
                                *self == Expr::BaseExpr(*b1),
                                *b1 == BaseExpr::SetComprehension(*s1),
                                c1 == constraints_view(s1.condition@),
                                c2 == constraints_view(s2.condition@),
                                self@ == s1@,
                                other@ == s2@,
                                s1@->SetCompre_1 == c1,
                                s2@->SetCompre_1 == c2,
                                forall|j: int| 0 <= j < i ==> c1[j] == c2[j],
                            decreases s1.condition@.len() - i,
                        {
                            proof {
                                assert(decreases_to!(*self => (*self)->BaseExpr_0));
                                assert(decreases_to!((*self)->BaseExpr_0 => (*self)->BaseExpr_0->SetComprehension_0));
                                assert(decreases_to!((*self)->BaseExpr_0->SetComprehension_0 => (*self)->BaseExpr_0->SetComprehension_0.condition));
                                vstd::std_specs::vec::axiom_vec_index_decreases(s1.condition, i as int);
                            }
                            if !s1.condition[i].equals(&s2.condition[i]) {
                                assert(c1[i as int] != c2[i as int]);
                                return false;
                            }
                            i += 1;
                        }
                        assert(c1 =~= c2);
                        true
                    },
                    (BaseExpr::Term(t1), BaseExpr::SetComprehension(s2)) => {
                        assert(b1@ == ExprView::Term(t1@));
                        assert(b2@ == s2@);
                        false
                    },
                    (BaseExpr::SetComprehension(s1), BaseExpr::Term(t2)) => {
                        assert(b1@ == s1@);
                        assert(b2@ == ExprView::Term(t2@));
                        false
                    },
                }
            },
            (Expr::ArithExpr(a1), Expr::ArithExpr(a2)) => {
                a1.op == a2.op && a1.left.equals(&a2.left) && a1.right.equals(&a2.right)
            },
            (Expr::BaseExpr(b1), Expr::ArithExpr(_)) => {
                assert(self@ == b1@);
                match b1 {
                    BaseExpr::Term(t1) => {
                        assert(b1@ == ExprView::Term(t1@));
                    },
                    BaseExpr::SetComprehension(s1) => {
                        assert(b1@ == s1@);
                    },
                }
                false
            },
            (Expr::ArithExpr(_), Expr::BaseExpr(b2)) => {
                assert(other@ == b2@);
                match b2 {
                    BaseExpr::Term(t2) => {
                        assert(b2@ == ExprView::Term(t2@));
                    },
                    BaseExpr::SetComprehension(s2) => {
                        assert(b2@ == s2@);
                    },
                }
                false
            },
        }
    }
}

impl Constraint {
    /// Whether two constraints are equal.
    pub fn equals(&self, other: &Constraint) -> (r: bool)
        ensures
            r == (self@ == other@),
        decreases self,
    {
        match (self, other) {
            (Constraint::Predicate(p1), Constraint::Predicate(p2)) => {
                let alias_eq = match (&p1.alias, &p2.alias) {
                    (Some(a1), Some(a2)) => a1.equals(a2),
                    (None, None) => true,
                    _ => false,
                };
                p1.negated == p2.negated && p1.term.equals(&p2.term) && alias_eq
            },
            (Constraint::Binary(b1), Constraint::Binary(b2)) => {
                b1.op == b2.op && b1.left.equals(&b2.left) && b1.right.equals(&b2.right)
            },
            (Constraint::TypeConstraint(t1), Constraint::TypeConstraint(t2)) => {
                t1.var.equals(&t2.var) && t1.sort.equals(&t2.sort)
            },
            _ => false,
        }
    }
}

/// How the comparisons relate: `>` is `<` with the sides swapped and the
/// negation of `<=`; `>=` is `<=` swapped and the negation of `<`; `!=` is the
/// negation of `==`; `==` holds where both `<=` and `>=` do; no value is less
/// or greater than itself, and each is equal to itself; and `<` is the order
/// of the integers.
pub proof fn lemma_comparisons_relate(x: int, y: int)
    ensures
        compare(BinOp::Gt, x, y) == compare(BinOp::Lt, y, x),
        compare(BinOp::Gt, x, y) == !compare(BinOp::Le, x, y),
        compare(BinOp::Ge, x, y) == compare(BinOp::Le, y, x),
        compare(BinOp::Ge, x, y) == !compare(BinOp::Lt, x, y),
        compare(BinOp::Ne, x, y) == !compare(BinOp::Eq, x, y),
        compare(BinOp::Eq, x, y) == (compare(BinOp::Le, x, y) && compare(BinOp::Ge, x, y)),
        !compare(BinOp::Lt, x, x),
        !compare(BinOp::Gt, x, x),
        compare(BinOp::Eq, x, x),
        compare(BinOp::Lt, x, y) <==> x < y,
{
}

/// Aggregating a list made of two parts: `count` and `sum` add up over the
/// parts.
pub proof fn lemma_aggregate_concat(xs: Seq<(TermView, int)>, ys: Seq<(TermView, int)>)
    ensures
        aggregate_value(SetCompreOp::Count, xs + ys) == aggregate_value(SetCompreOp::Count, xs) + aggregate_value(SetCompreOp::Count, ys),
        aggregate_value(SetCompreOp::Sum, xs + ys) == aggregate_value(SetCompreOp::Sum, xs) + aggregate_value(SetCompreOp::Sum, ys),
    decreases ys.len(),
{
    if ys.len() > 0 {
        lemma_aggregate_concat(xs, ys.drop_last());
        assert((xs + ys).drop_last() =~= xs + ys.drop_last());
        assert((xs + ys).last() == ys.last());
    } else {
        assert(xs + ys =~= xs);
    }
}

/// Aggregating one item: `count` gives its count; `sum` gives the integer
/// times the count, whatever the sign of either, and nothing for an item
/// that is no integer.
pub proof fn lemma_aggregate_single(t: TermView, c: int)
    ensures
        aggregate_value(SetCompreOp::Count, seq![(t, c)]) == c,
        aggregate_value(SetCompreOp::Sum, seq![(t, c)]) == match t {
            TermView::Atom(AtomView::Int(i)) => i * c,
            _ => 0,
        },
{
    let one = seq![(t, c)];
    assert(one.len() == 1);
    assert(one.last() == (t, c));
    assert(one.drop_last() =~= Seq::<(TermView, int)>::empty());
    assert(aggregate_value(SetCompreOp::Count, one.drop_last()) == 0);
    assert(aggregate_value(SetCompreOp::Sum, one.drop_last()) == 0);
}

/// The integer items of a list, in order.
pub open spec fn integer_items(items: Seq<(TermView, int)>) -> Seq<int>
    decreases items.len(),
{
    if items.len() == 0 {
        Seq::empty()
    } else {
        match items.last().0 {
            TermView::Atom(AtomView::Int(i)) => integer_items(items.drop_last()).push(i),
            _ => integer_items(items.drop_last()),
        }
    }
}

/// `maxAll` is the largest of the integer items and the smallest `isize`;
/// `minAll` is the smallest of the integer items and the largest `isize`.
pub proof fn lemma_aggregate_extremes(items: Seq<(TermView, int)>)
    ensures
        aggregate_value(SetCompreOp::MaxAll, items) >= isize::MIN,
        forall|k: int| 0 <= k < integer_items(items).len() ==> #[trigger] integer_items(items)[k] <= aggregate_value(SetCompreOp::MaxAll, items),
        aggregate_value(SetCompreOp::MaxAll, items) == isize::MIN || integer_items(items).contains(aggregate_value(SetCompreOp::MaxAll, items)),
        aggregate_value(SetCompreOp::MinAll, items) <= isize::MAX,
        forall|k: int| 0 <= k < integer_items(items).len() ==> #[trigger] integer_items(items)[k] >= aggregate_value(SetCompreOp::MinAll, items),
        aggregate_value(SetCompreOp::MinAll, items) == isize::MAX || integer_items(items).contains(aggregate_value(SetCompreOp::MinAll, items)),
    decreases items.len(),
{
    if items.len() > 0 {
        let d = items.drop_last();
        lemma_aggregate_extremes(d);
        let p = integer_items(d);
        match items.last().0 {
            TermView::Atom(AtomView::Int(i)) => {
                let q = p.push(i);
                assert(integer_items(items) == q);
                assert forall|k: int| 0 <= k < q.len() implies #[trigger] q[k] <= aggregate_value(SetCompreOp::MaxAll, items) by {
                    if k < p.len() {
                        assert(q[k] == p[k]);
                    }
                }
                assert forall|k: int| 0 <= k < q.len() implies #[trigger] q[k] >= aggregate_value(SetCompreOp::MinAll, items) by {
                    if k < p.len() {
                        assert(q[k] == p[k]);
                    }
                }
                assert(q[q.len() - 1] == i);
                if p.contains(aggregate_value(SetCompreOp::MaxAll, d)) {
                    let k = choose|k: int| 0 <= k < p.len() && p[k] == aggregate_value(SetCompreOp::MaxAll, d);
                    assert(q[k] == p[k]);
                }
                if p.contains(aggregate_value(SetCompreOp::MinAll, d)) {
                    let k = choose|k: int| 0 <= k < p.len() && p[k] == aggregate_value(SetCompreOp::MinAll, d);
                    assert(q[k] == p[k]);
                }
            },
            _ => {},
        }
    }
}

/// The arithmetic operators: subtracting undoes adding, multiplying by one
/// keeps a value, and dividing by a non-zero `y` gives the quotient `q`
/// rounded toward zero: the remainder `x - q * y` is smaller than `y` in size
/// and is zero or has the sign of `x`.
pub proof fn lemma_arithmetic_laws(x: int, y: int)
    ensures
        apply_arith(ArithmeticOp::Min, apply_arith(ArithmeticOp::Add, x, y), y) == x,
        apply_arith(ArithmeticOp::Add, x, y) == apply_arith(ArithmeticOp::Add, y, x),
        apply_arith(ArithmeticOp::Mul, x, 1) == x,
        apply_arith(ArithmeticOp::Mul, x, y) == apply_arith(ArithmeticOp::Mul, y, x),
        y != 0 ==> {
            let r = x - apply_arith(ArithmeticOp::Div, x, y) * y;
            &&& (if r < 0 { -r } else { r }) < (if y < 0 { -y } else { y })
            &&& (r == 0 || (r < 0) == (x < 0))
        },
{
    assert(x * y == y * x) by (nonlinear_arith);
    if y != 0 {
        let ax: int = if x < 0 { -x } else { x };
        let ay: int = if y < 0 { -y } else { y };
        let q0 = ax / ay;
        vstd::arithmetic::div_mod::lemma_fundamental_div_mod(ax, ay);
        assert(ay * q0 == q0 * ay) by (nonlinear_arith);
        assert(ax == q0 * ay + ax % ay);
        assert(0 <= ax % ay < ay) by (nonlinear_arith)
            requires ay > 0;
        assert(q0 >= 0) by (nonlinear_arith)
            requires ay > 0, ax >= 0, q0 == ax / ay;
        let q = apply_arith(ArithmeticOp::Div, x, y);
        let r = x - q * y;
        if x >= 0 && y > 0 {
            assert(r == ax % ay);
        } else if x >= 0 && y < 0 {
            assert(q * y == (-q0) * (-ay));
            assert((-q0) * (-ay) == q0 * ay) by (nonlinear_arith);
            assert(r == ax % ay);
        } else if x < 0 && y > 0 {
            assert(q * y == (-q0) * ay);
            assert((-q0) * ay == -(q0 * ay)) by (nonlinear_arith);
            assert(r == -(ax % ay));
        } else {
            assert(q * y == q0 * (-ay));
            assert(q0 * (-ay) == -(q0 * ay)) by (nonlinear_arith);
            assert(r == -(ax % ay));
        }
    }
}

} // verus!
