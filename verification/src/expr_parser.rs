//! The Formula grammar of expressions, constraints, type definitions and rules.
//!
//! Like the term readers, each reader takes a position in the text and gives
//! back, on success, what it read and where what it read ends.
use crate::expression::{
    ArithExpr, ArithmeticOp, BaseExpr, BinOp, Binary, Constraint, ConstraintView, Expr, ExprView,
    Predicate, SetComprehension, SetCompreOp, TypeConstraint,
};
use crate::integer::Integer;
use crate::parser::{
    has_tag, space0, spec_atom, spec_composite, spec_id, spec_param_id, spec_typename,
    spec_variable, strings_view, type_of_names, Input,
};
use crate::term::{AtomEnum, AtomView, AtomicTerm, TermView};
use vstd::prelude::*;

verus! {

/// Whether the character `c` stands at `i`.
pub open spec fn has_char(s: Seq<char>, i: int, c: char) -> bool {
    0 <= i < s.len() && s[i] == c
}

/// A comparison operator. The operators are tried in the order `=`, `!=`, `>`,
/// `>=`, `<`, `<=`, so `>=` and `<=` are read as `>` and `<` followed by `=`.
pub open spec fn spec_bin_op(s: Seq<char>, i: int) -> Option<(BinOp, int)> {
    if has_char(s, i, '=') {
        Some((BinOp::Eq, i + 1))
    } else if has_char(s, i, '!') && has_char(s, i + 1, '=') {
        Some((BinOp::Ne, i + 2))
    } else if has_char(s, i, '>') {
        Some((BinOp::Gt, i + 1))
    } else if has_char(s, i, '<') {
        Some((BinOp::Lt, i + 1))
    } else {
        None
    }
}

/// `*` or `/`.
pub open spec fn spec_mul_div(s: Seq<char>, i: int) -> Option<(ArithmeticOp, int)> {
    if has_char(s, i, '*') {
        Some((ArithmeticOp::Mul, i + 1))
    } else if has_char(s, i, '/') {
        Some((ArithmeticOp::Div, i + 1))
    } else {
        None
    }
}

/// `+` or `-`.
pub open spec fn spec_plus_minus(s: Seq<char>, i: int) -> Option<(ArithmeticOp, int)> {
    if has_char(s, i, '+') {
        Some((ArithmeticOp::Add, i + 1))
    } else if has_char(s, i, '-') {
        Some((ArithmeticOp::Min, i + 1))
    } else {
        None
    }
}

/// The name of an aggregation: `count`, `sum`, `minAll`, `maxAll`, `topK` or
/// `bottomK`.
pub open spec fn spec_setcompre_op(s: Seq<char>, i: int) -> Option<(SetCompreOp, int)> {
    if has_tag(s, i, "count"@) {
        Some((SetCompreOp::Count, i + 5))
    } else if has_tag(s, i, "sum"@) {
        Some((SetCompreOp::Sum, i + 3))
    } else if has_tag(s, i, "minAll"@) {
        Some((SetCompreOp::MinAll, i + 6))
    } else if has_tag(s, i, "maxAll"@) {
        Some((SetCompreOp::MaxAll, i + 6))
    } else if has_tag(s, i, "topK"@) {
        Some((SetCompreOp::TopK, i + 4))
    } else if has_tag(s, i, "bottomK"@) {
        Some((SetCompreOp::BottomK, i + 7))
    } else {
        None
    }
}

/// The optional default value of an aggregation, an atom followed by a comma,
/// with spaces around both; gives the atom, if there is one, and where what
/// follows starts.
pub open spec fn setcompre_default(s: Seq<char>, i: int) -> (Option<AtomView>, int) {
    match spec_atom(s, space0(s, i)) {
        Some((a, e)) => {
            let c = space0(s, e);
            if has_char(s, c, ',') {
                (Some(a), space0(s, c + 1))
            } else {
                (None, i)
            }
        },
        None => (None, i),
    }
}

/// The default value of an aggregation: the integer given, or zero when none
/// or another kind of atom is given.
pub open spec fn default_value(a: Option<AtomView>) -> int {
    match a {
        Some(AtomView::Int(v)) => v,
        _ => 0,
    }
}

/// A term of an aggregation's head, with spaces around it: a composite term or
/// a variable.
pub open spec fn setcompre_var(s: Seq<char>, i: int) -> Option<(TermView, int)> {
    let a = space0(s, i);
    match spec_composite(s, a) {
        Some((t, e)) => Some((t, space0(s, e))),
        None => match spec_variable(s, a) {
            Some((t, e)) => Some((t, space0(s, e))),
            None => None,
        },
    }
}

/// Further terms of an aggregation's head, each after a comma.
pub open spec fn more_setcompre_vars(s: Seq<char>, i: int) -> (Seq<TermView>, int)
    decreases s.len() - i,
{
    if has_char(s, i, ',') {
        match setcompre_var(s, i + 1) {
            Some((t, e)) => if i < e <= s.len() {
                let more = more_setcompre_vars(s, e);
                (seq![t] + more.0, more.1)
            } else {
                (Seq::empty(), i)
            },
            None => (Seq::empty(), i),
        }
    } else {
        (Seq::empty(), i)
    }
}

/// The terms of an aggregation's head separated by commas, possibly none.
pub open spec fn setcompre_vars(s: Seq<char>, i: int) -> (Seq<TermView>, int) {
    match setcompre_var(s, i) {
        Some((t, e)) => if i < e <= s.len() {
            let more = more_setcompre_vars(s, e);
            (seq![t] + more.0, more.1)
        } else {
            (Seq::empty(), i)
        },
        None => (Seq::empty(), i),
    }
}

/// An aggregation such as `count({ x | x is Edge(a, b) })` or
/// `maxAll(10, { x | ... })`.
pub open spec fn spec_setcompre(s: Seq<char>, i: int) -> Option<(ExprView, int)>
    decreases s.len() - i, 0int,
{
    match spec_setcompre_op(s, i) {
        Some((op, a)) => if has_char(s, a, '(') {
            let (default, b) = setcompre_default(s, a + 1);
            if has_char(s, b, '{') {
                let (vars, c) = setcompre_vars(s, b + 1);
                let d = space0(s, c);
                if has_char(s, d, '|') {
                    let f = space0(s, d + 1);
                    if i < f <= s.len() {
                        let (conds, g) = condition_list(s, f);
                        if has_char(s, g, '}') && has_char(s, g + 1, ')') {
                            Some((ExprView::SetCompre(vars, conds, op, default_value(default)), g + 2))
                        } else {
                            None
                        }
                    } else {
                        None
                    }
                } else {
                    None
                }
            } else {
                None
            }
        } else {
            None
        },
        None => None,
    }
}

/// The conditions of an aggregation separated by commas, with spaces around
/// each, possibly none.
pub open spec fn condition_list(s: Seq<char>, i: int) -> (Seq<ConstraintView>, int)
    decreases s.len() - i, 7int,
{
    let a = space0(s, i);
    if 0 <= i <= a <= s.len() {
        match spec_constraint(s, a) {
            Some((c, e)) => {
                let f = space0(s, e);
                if i < f <= s.len() {
                    let more = more_conditions(s, f);
                    (seq![c] + more.0, more.1)
                } else {
                    (Seq::empty(), i)
                }
            },
            None => (Seq::empty(), i),
        }
    } else {
        (Seq::empty(), i)
    }
}

/// Further conditions, each after a comma.
pub open spec fn more_conditions(s: Seq<char>, i: int) -> (Seq<ConstraintView>, int)
    decreases s.len() - i, 7int,
{
    if has_char(s, i, ',') {
        let a = space0(s, i + 1);
        if i < a <= s.len() {
            match spec_constraint(s, a) {
                Some((c, e)) => {
                    let f = space0(s, e);
                    if i < f <= s.len() {
                        let more = more_conditions(s, f);
                        (seq![c] + more.0, more.1)
                    } else {
                        (Seq::empty(), i)
                    }
                },
                None => (Seq::empty(), i),
            }
        } else {
            (Seq::empty(), i)
        }
    } else {
        (Seq::empty(), i)
    }
}

/// An arithmetic expression between brackets.
pub open spec fn spec_parens(s: Seq<char>, i: int) -> Option<(ExprView, int)>
    decreases s.len() - i, 0int,
{
    let a = space0(s, i);
    if 0 <= i <= a && has_char(s, a, '(') {
        let b = space0(s, a + 1);
        if a < b <= s.len() {
            match spec_arith_low(s, b) {
                Some((e, c)) => {
                    let d = space0(s, c);
                    if has_char(s, d, ')') {
                        Some((e, d + 1))
                    } else {
                        None
                    }
                },
                None => None,
            }
        } else {
            None
        }
    } else {
        None
    }
}

/// A simple expression: an aggregation, `%name`, a variable, an atom, or an
/// arithmetic expression between brackets, tried in this order.
pub open spec fn spec_base_expr(s: Seq<char>, i: int) -> Option<(ExprView, int)>
    decreases s.len() - i, 1int,
{
    if 0 <= i <= s.len() {
        match spec_setcompre(s, i) {
            Some(r) => Some(r),
            None => match spec_param_id(s, i) {
                Some((t, e)) => Some((ExprView::Term(t), e)),
                None => match spec_variable(s, i) {
                    Some((t, e)) => Some((ExprView::Term(t), e)),
                    None => match spec_atom(s, i) {
                        Some((a, e)) => Some((ExprView::Term(TermView::Atom(a)), e)),
                        None => spec_parens(s, i),
                    },
                },
            },
        }
    } else {
        None
    }
}

/// Further factors, each after `*` or `/`, folded from the left onto `left`.
pub open spec fn more_high(s: Seq<char>, i: int, left: ExprView) -> (ExprView, int)
    decreases s.len() - i, 1int,
{
    let a = space0(s, i);
    if 0 <= i <= a {
        match spec_mul_div(s, a) {
            Some((op, b)) => {
                let c = space0(s, b);
                if i < c <= s.len() {
                    match spec_base_expr(s, c) {
                        Some((r, e)) => if c < e <= s.len() {
                            more_high(s, e, ExprView::Arith(op, Box::new(left), Box::new(r)))
                        } else {
                            (left, i)
                        },
                        None => (left, i),
                    }
                } else {
                    (left, i)
                }
            },
            None => (left, i),
        }
    } else {
        (left, i)
    }
}

/// Products and quotients of simple expressions.
pub open spec fn spec_arith_high(s: Seq<char>, i: int) -> Option<(ExprView, int)>
    decreases s.len() - i, 2int,
{
    let a = space0(s, i);
    if 0 <= i <= a <= s.len() {
        match spec_base_expr(s, a) {
            Some((l, e)) => if a < e <= s.len() {
                Some(more_high(s, e, l))
            } else {
                None
            },
            None => None,
        }
    } else {
        None
    }
}

/// Further terms, each after `+` or `-`, folded from the left onto `left`.
pub open spec fn more_low(s: Seq<char>, i: int, left: ExprView) -> (ExprView, int)
    decreases s.len() - i, 2int,
{
    let a = space0(s, i);
    if 0 <= i <= a {
        match spec_plus_minus(s, a) {
            Some((op, b)) => {
                let c = space0(s, b);
                if i < c <= s.len() {
                    match spec_arith_high(s, c) {
                        Some((r, e)) => if c < e <= s.len() {
                            more_low(s, e, ExprView::Arith(op, Box::new(left), Box::new(r)))
                        } else {
                            (left, i)
                        },
                        None => (left, i),
                    }
                } else {
                    (left, i)
                }
            },
            None => (left, i),
        }
    } else {
        (left, i)
    }
}

/// Sums and differences of products; `*` and `/` bind tighter than `+` and
/// `-`, and operators of the same strength group from the left.
pub open spec fn spec_arith_low(s: Seq<char>, i: int) -> Option<(ExprView, int)>
    decreases s.len() - i, 3int,
{
    let a = space0(s, i);
    if 0 <= i <= a <= s.len() {
        match spec_arith_high(s, a) {
            Some((l, e)) => if a < e <= s.len() {
                Some(more_low(s, e, l))
            } else {
                None
            },
            None => None,
        }
    } else {
        None
    }
}

/// An expression: an arithmetic expression, or else a simple expression.
pub open spec fn spec_expr(s: Seq<char>, i: int) -> Option<(ExprView, int)>
    decreases s.len() - i, 4int,
{
    if 0 <= i <= s.len() {
        match spec_arith_low(s, i) {
            Some(r) => Some(r),
            None => spec_base_expr(s, i),
        }
    } else {
        None
    }
}

/// A comparison of two expressions.
pub open spec fn spec_binary(s: Seq<char>, i: int) -> Option<(ConstraintView, int)>
    decreases s.len() - i, 5int,
{
    if 0 <= i <= s.len() {
        match spec_expr(s, i) {
            Some((l, e)) => {
                let a = space0(s, e);
                match spec_bin_op(s, a) {
                    Some((op, b)) => {
                        let c = space0(s, b);
                        if i < c <= s.len() {
                            match spec_expr(s, c) {
                                Some((r, f)) => Some((ConstraintView::Binary(op, l, r), f)),
                                None => None,
                            }
                        } else {
                            None
                        }
                    },
                    None => None,
                }
            },
            None => None,
        }
    } else {
        None
    }
}

/// Where what follows an optional `no` starts, and whether it was there.
pub open spec fn negation_prefix(s: Seq<char>, i: int) -> (bool, int) {
    let a = space0(s, i);
    if has_tag(s, a, "no"@) {
        (true, space0(s, a + 2))
    } else {
        (false, i)
    }
}

/// An optional `name is ` before a predicate's term: gives the name, if there
/// is one, and where the term starts.
pub open spec fn predicate_alias(s: Seq<char>, i: int) -> (Option<Seq<char>>, int) {
    match spec_id(s, i) {
        Some(e) => {
            let a = space0(s, e);
            if has_tag(s, a, "is"@) {
                (Some(s.subrange(i, e)), space0(s, a + 2))
            } else {
                (None, i)
            }
        },
        None => (None, i),
    }
}

/// The variable that a predicate's alias names.
pub open spec fn alias_term(a: Option<Seq<char>>) -> Option<TermView> {
    match a {
        Some(name) => Some(TermView::Variable(name, Seq::empty())),
        None => None,
    }
}

/// A predicate: an optional `no`, an optional `name is `, and a composite term.
/// The `no` is recognised as the first two letters, even of a longer word.
pub open spec fn spec_predicate(s: Seq<char>, i: int) -> Option<(ConstraintView, int)> {
    let (negated, a) = negation_prefix(s, i);
    let (alias, b) = predicate_alias(s, a);
    match spec_composite(s, b) {
        Some((t, e)) => Some((ConstraintView::Predicate(negated, t, alias_term(alias)), e)),
        None => None,
    }
}

/// A type constraint: a variable, `is` or `:`, and a type name.
pub open spec fn spec_type_constraint(s: Seq<char>, i: int) -> Option<(ConstraintView, int)> {
    match spec_variable(s, i) {
        Some((v, e)) => {
            let a = space0(s, e);
            let b = if has_tag(s, a, "is"@) {
                a + 2
            } else if has_char(s, a, ':') {
                a + 1
            } else {
                -1
            };
            if b >= 0 {
                match spec_typename(s, space0(s, b)) {
                    Some((names, f)) => Some((ConstraintView::TypeConstraint(v, type_of_names(names)), f)),
                    None => None,
                }
            } else {
                None
            }
        },
        None => None,
    }
}

/// A constraint: a predicate, a comparison or a type constraint, tried in this
/// order.
pub open spec fn spec_constraint(s: Seq<char>, i: int) -> Option<(ConstraintView, int)>
    decreases s.len() - i, 6int,
{
    if 0 <= i <= s.len() {
        match spec_predicate(s, i) {
            Some(r) => Some(r),
            None => match spec_binary(s, i) {
                Some(r) => Some(r),
                None => spec_type_constraint(s, i),
            },
        }
    } else {
        None
    }
}


/// The integer default of an aggregation.
fn default_integer(a: &Option<AtomEnum>) -> (r: Integer)
    ensures
        r@ == default_value(match a {
            Some(x) => Some(x@),
            None => None,
        }),
{
    match a {
        Some(AtomEnum::Int(v)) => v.duplicate(),
        _ => Integer::zero(),
    }
}

impl<'a> Input<'a> {
    /// Whether the character `c` stands at `i`.
    pub fn read_char(&self, i: usize, c: char) -> (r: bool)
        ensures
            r == has_char(self.view_chars(), i as int, c),
    {
        let n = self.len();
        i < self.len() && self.at(i) == c
    }

    /// Read a comparison operator at `i`.
    pub fn read_bin_op(&self, i: usize) -> (r: Option<(BinOp, usize)>)
        requires
            i <= self.view_chars().len(),
        ensures
            match r {
                Some((op, e)) => spec_bin_op(self.view_chars(), i as int) == Some((op, e as int)) && e <= self.view_chars().len(),
                None => spec_bin_op(self.view_chars(), i as int) is None,
            },
    {
        let n = self.len();
        if self.read_char(i, '=') {
            Some((BinOp::Eq, i + 1))
        } else if self.read_char(i, '!') && self.read_char(i + 1, '=') {
            Some((BinOp::Ne, i + 2))
        } else if self.read_char(i, '>') {
            Some((BinOp::Gt, i + 1))
        } else if self.read_char(i, '<') {
            Some((BinOp::Lt, i + 1))
        } else {
            None
        }
    }

    fn read_mul_div(&self, i: usize) -> (r: Option<(ArithmeticOp, usize)>)
        requires
            i <= self.view_chars().len(),
        ensures
            match r {
                Some((op, e)) => spec_mul_div(self.view_chars(), i as int) == Some((op, e as int)) && i < e <= self.view_chars().len(),
                None => spec_mul_div(self.view_chars(), i as int) is None,
            },
    {
        let n = self.len();
        if self.read_char(i, '*') {
            Some((ArithmeticOp::Mul, i + 1))
        } else if self.read_char(i, '/') {
            Some((ArithmeticOp::Div, i + 1))
        } else {
            None
        }
    }

    fn read_plus_minus(&self, i: usize) -> (r: Option<(ArithmeticOp, usize)>)
        requires
            i <= self.view_chars().len(),
        ensures
            match r {
                Some((op, e)) => spec_plus_minus(self.view_chars(), i as int) == Some((op, e as int)) && i < e <= self.view_chars().len(),
                None => spec_plus_minus(self.view_chars(), i as int) is None,
            },
    {
        let n = self.len();
        if self.read_char(i, '+') {
            Some((ArithmeticOp::Add, i + 1))
        } else if self.read_char(i, '-') {
            Some((ArithmeticOp::Min, i + 1))
        } else {
            None
        }
    }

    fn read_setcompre_op(&self, i: usize) -> (r: Option<(SetCompreOp, usize)>)
        requires
            i <= self.view_chars().len(),
        ensures
            match r {
                Some((op, e)) => spec_setcompre_op(self.view_chars(), i as int) == Some((op, e as int)) && i < e <= self.view_chars().len(),
                None => spec_setcompre_op(self.view_chars(), i as int) is None,
            },
    {
        let n = self.len();
        proof {
            reveal_strlit("count");
            reveal_strlit("sum");
            reveal_strlit("minAll");
            reveal_strlit("maxAll");
            reveal_strlit("topK");
            reveal_strlit("bottomK");
        }
        if self.has_tag(i, "count") {
            Some((SetCompreOp::Count, i + 5))
        } else if self.has_tag(i, "sum") {
            Some((SetCompreOp::Sum, i + 3))
        } else if self.has_tag(i, "minAll") {
            Some((SetCompreOp::MinAll, i + 6))
        } else if self.has_tag(i, "maxAll") {
            Some((SetCompreOp::MaxAll, i + 6))
        } else if self.has_tag(i, "topK") {
            Some((SetCompreOp::TopK, i + 4))
        } else if self.has_tag(i, "bottomK") {
            Some((SetCompreOp::BottomK, i + 7))
        } else {
            None
        }
    }

    fn read_setcompre_default(&self, i: usize) -> (r: (Option<AtomEnum>, usize))
        requires
            self.wf(),
            i <= self.view_chars().len(),
        ensures
            (match r.0 {
                Some(a) => Some(a@),
                None => None,
            }, r.1 as int) == setcompre_default(self.view_chars(), i as int),
            i <= r.1 <= self.view_chars().len(),
    {
        let n = self.len();
        let a = self.scan_class(i, 0);
        match self.read_atom(a) {
            Some((v, e)) => {
                let c = self.scan_class(e, 0);
                if self.read_char(c, ',') {
                    (Some(v), self.scan_class(c + 1, 0))
                } else {
                    (None, i)
                }
            },
            None => (None, i),
        }
    }

    fn read_setcompre_var(&self, i: usize) -> (r: Option<(AtomicTerm, usize)>)
        requires
            self.wf(),
            i <= self.view_chars().len(),
        ensures
            match r {
                Some((t, e)) => setcompre_var(self.view_chars(), i as int) == Some((t@, e as int)) && e <= self.view_chars().len(),
                None => setcompre_var(self.view_chars(), i as int) is None,
            },
    {
        let n = self.len();
        let a = self.scan_class(i, 0);
        match self.read_composite(a) {
            Some((t, e)) => Some((t, self.scan_class(e, 0))),
            None => match self.read_variable(a) {
                Some((t, e)) => Some((t, self.scan_class(e, 0))),
                None => None,
            },
        }
    }

    fn read_setcompre_vars(&self, i: usize) -> (r: (Vec<AtomicTerm>, usize))
        requires
            self.wf(),
            i <= self.view_chars().len(),
        ensures
            (crate::parser::terms_of(r.0@), r.1 as int) == setcompre_vars(self.view_chars(), i as int),
            r.1 <= self.view_chars().len(),
    {
        let n = self.len();
        let mut out: Vec<AtomicTerm> = Vec::new();
        match self.read_setcompre_var(i) {
            Some((t, e)) => {
                if !(i < e) {
                    assert(crate::parser::terms_of(out@) =~= Seq::<TermView>::empty());
                    return (out, i);
                }
                let ghost total = setcompre_vars(self.view_chars(), i as int);
                out.push(t);
                let mut pos = e;
                assert(crate::parser::terms_of(out@) =~= seq![t@]);
                while self.read_char(pos, ',')
                    invariant
                        self.wf(),
                        n == self.view_chars().len(),
                        i < pos <= self.view_chars().len(),
                        total == setcompre_vars(self.view_chars(), i as int),
                        total == (crate::parser::terms_of(out@) + more_setcompre_vars(self.view_chars(), pos as int).0, more_setcompre_vars(self.view_chars(), pos as int).1),
                    decreases self.view_chars().len() - pos,
                {
                    match self.read_setcompre_var(pos + 1) {
                        Some((t2, e2)) => {
                            if !(pos < e2) {
                                assert(crate::parser::terms_of(out@) + Seq::<TermView>::empty() =~= crate::parser::terms_of(out@));
                                return (out, pos);
                            }
                            let ghost before = crate::parser::terms_of(out@);
                            out.push(t2);
                            proof {
                                assert(crate::parser::terms_of(out@) =~= before.push(t2@));
                                assert(crate::parser::terms_of(out@) + more_setcompre_vars(self.view_chars(), e2 as int).0 =~= before + (seq![t2@] + more_setcompre_vars(self.view_chars(), e2 as int).0));
                            }
                            pos = e2;
                        },
                        None => {
                            assert(crate::parser::terms_of(out@) + Seq::<TermView>::empty() =~= crate::parser::terms_of(out@));
                            return (out, pos);
                        },
                    }
                }
                assert(crate::parser::terms_of(out@) + Seq::<TermView>::empty() =~= crate::parser::terms_of(out@));
                (out, pos)
            },
            None => {
                assert(crate::parser::terms_of(out@) =~= Seq::<TermView>::empty());
                (out, i)
            },
        }
    }
}


impl<'a> Input<'a> {
    /// Read a predicate at `i`.
    pub fn read_predicate(&self, i: usize) -> (r: Option<(Predicate, usize)>)
        requires
            self.wf(),
            i <= self.view_chars().len(),
        ensures
            match r {
                Some((p, e)) => spec_predicate(self.view_chars(), i as int) == Some((p@, e as int)) && e <= self.view_chars().len(),
                None => spec_predicate(self.view_chars(), i as int) is None,
            },
    {
        proof {
            reveal_strlit("no");
            reveal_strlit("is");
        }
        let n = self.len();
        let a = self.scan_class(i, 0);
        let (negated, b) = if self.has_tag(a, "no") {
            (true, self.scan_class(a + 2, 0))
        } else {
            (false, i)
        };
        assert((negated, b as int) == negation_prefix(self.view_chars(), i as int));
        let (alias, c) = match self.read_id(b) {
            Some(e) => {
                let d = self.scan_class(e, 0);
                if self.has_tag(d, "is") {
                    (Some(self.slice(b, e)), self.scan_class(d + 2, 0))
                } else {
                    (None, b)
                }
            },
            None => (None, b),
        };
        assert((match alias {
            Some(x) => Some(x@),
            None => None,
        }, c as int) == predicate_alias(self.view_chars(), b as int));
        match self.read_composite(c) {
            Some((t, e)) => {
                let alias_t = match alias {
                    Some(name) => {
                        let v = AtomicTerm::gen_raw_variable_term(name, Vec::new());
                        assert(crate::term::texts_view(Seq::<String>::empty()) =~= Seq::empty());
                        Some(v)
                    },
                    None => None,
                };
                Some((Predicate { negated, term: t, alias: alias_t }, e))
            },
            None => None,
        }
    }

    /// Read a type constraint at `i`.
    pub fn read_type_constraint(&self, i: usize) -> (r: Option<(TypeConstraint, usize)>)
        requires
            self.wf(),
            i <= self.view_chars().len(),
        ensures
            match r {
                Some((t, e)) => spec_type_constraint(self.view_chars(), i as int) == Some((t@, e as int)) && e <= self.view_chars().len(),
                None => spec_type_constraint(self.view_chars(), i as int) is None,
            },
    {
        proof {
            reveal_strlit("is");
        }
        let n = self.len();
        match self.read_variable(i) {
            Some((v, e)) => {
                let a = self.scan_class(e, 0);
                let b = if self.has_tag(a, "is") {
                    a + 2
                } else if self.read_char(a, ':') {
                    a + 1
                } else {
                    return None;
                };
                let d = self.scan_class(b, 0);
                match self.read_typename(d) {
                    Some((names, f)) => Some((TypeConstraint { var: v, sort: crate::parser::type_of_name_list(&names) }, f)),
                    None => None,
                }
            },
            None => None,
        }
    }

    /// Read a constraint at `i`.
    pub fn read_constraint(&self, i: usize) -> (r: Option<(Constraint, usize)>)
        requires
            self.wf(),
            i <= self.view_chars().len(),
        ensures
            match r {
                Some((c, e)) => spec_constraint(self.view_chars(), i as int) == Some((c@, e as int)) && e <= self.view_chars().len(),
                None => spec_constraint(self.view_chars(), i as int) is None,
            },
        decreases self.view_chars().len() - i, 6int,
    {
        match self.read_predicate(i) {
            Some((p, e)) => Some((Constraint::Predicate(p), e)),
            None => match self.read_binary(i) {
                Some((b, e)) => Some((Constraint::Binary(b), e)),
                None => match self.read_type_constraint(i) {
                    Some((t, e)) => Some((Constraint::TypeConstraint(t), e)),
                    None => None,
                },
            },
        }
    }

    /// Read a comparison at `i`.
    pub fn read_binary(&self, i: usize) -> (r: Option<(Binary, usize)>)
        requires
            self.wf(),
            i <= self.view_chars().len(),
        ensures
            match r {
                Some((b, e)) => spec_binary(self.view_chars(), i as int) == Some((b@, e as int)) && e <= self.view_chars().len(),
                None => spec_binary(self.view_chars(), i as int) is None,
            },
        decreases self.view_chars().len() - i, 5int,
    {
        let n = self.len();
        match self.read_expr(i) {
            Some((l, e)) => {
                let a = self.scan_class(e, 0);
                match self.read_bin_op(a) {
                    Some((op, b)) => {
                        let c = self.scan_class(b, 0);
                        if !(i < c) {
                            return None;
                        }
                        match self.read_expr(c) {
                            Some((r, f)) => Some((Binary { op, left: l, right: r }, f)),
                            None => None,
                        }
                    },
                    None => None,
                }
            },
            None => None,
        }
    }

    /// Read an expression at `i`.
    pub fn read_expr(&self, i: usize) -> (r: Option<(Expr, usize)>)
        requires
            self.wf(),
            i <= self.view_chars().len(),
        ensures
            match r {
                Some((x, e)) => spec_expr(self.view_chars(), i as int) == Some((x@, e as int)) && e <= self.view_chars().len(),
                None => spec_expr(self.view_chars(), i as int) is None,
            },
        decreases self.view_chars().len() - i, 4int,
    {
        match self.read_arith_low(i) {
            Some(r) => Some(r),
            None => self.read_base_expr(i),
        }
    }

    /// Read a sum or difference of products at `i`.
    pub fn read_arith_low(&self, i: usize) -> (r: Option<(Expr, usize)>)
        requires
            self.wf(),
            i <= self.view_chars().len(),
        ensures
            match r {
                Some((x, e)) => spec_arith_low(self.view_chars(), i as int) == Some((x@, e as int)) && e <= self.view_chars().len(),
                None => spec_arith_low(self.view_chars(), i as int) is None,
            },
        decreases self.view_chars().len() - i, 3int,
    {
        let n = self.len();
        let a = self.scan_class(i, 0);
        match self.read_arith_high(a) {
            Some((l, e)) => {
                if !(a < e) {
                    return None;
                }
                let ghost total = more_low(self.view_chars(), e as int, l@);
                let mut left = l;
                let mut pos = e;
                loop
                    invariant
                        self.wf(),
                        n == self.view_chars().len(),
                        i <= a < pos <= n,
                        spec_arith_low(self.view_chars(), i as int) == Some(total),
                        total == more_low(self.view_chars(), pos as int, left@),
                    decreases n - pos,
                {
                    let a2 = self.scan_class(pos, 0);
                    match self.read_plus_minus(a2) {
                        Some((op, b)) => {
                            let c = self.scan_class(b, 0);
                            match self.read_arith_high(c) {
                                Some((r, e2)) => {
                                    if !(c < e2) {
                                        return Some((left, pos));
                                    }
                                    left = Expr::ArithExpr(ArithExpr { op, left: Box::new(left), right: Box::new(r) });
                                    pos = e2;
                                },
                                None => {
                                    return Some((left, pos));
                                },
                            }
                        },
                        None => {
                            return Some((left, pos));
                        },
                    }
                }
            },
            None => None,
        }
    }

    /// Read a product or quotient of simple expressions at `i`.
    pub fn read_arith_high(&self, i: usize) -> (r: Option<(Expr, usize)>)
        requires
            self.wf(),
            i <= self.view_chars().len(),
        ensures
            match r {
                Some((x, e)) => spec_arith_high(self.view_chars(), i as int) == Some((x@, e as int)) && i < e <= self.view_chars().len(),
                None => spec_arith_high(self.view_chars(), i as int) is None,
            },
        decreases self.view_chars().len() - i, 2int,
    {
        let n = self.len();
        let a = self.scan_class(i, 0);
        match self.read_base_expr(a) {
            Some((l, e)) => {
                if !(a < e) {
                    return None;
                }
                let ghost total = more_high(self.view_chars(), e as int, l@);
                let mut left = l;
                let mut pos = e;
                loop
                    invariant
                        self.wf(),
                        n == self.view_chars().len(),
                        i <= a < pos <= n,
                        spec_arith_high(self.view_chars(), i as int) == Some(total),
                        total == more_high(self.view_chars(), pos as int, left@),
                    decreases n - pos,
                {
                    let a2 = self.scan_class(pos, 0);
                    match self.read_mul_div(a2) {
                        Some((op, b)) => {
                            let c = self.scan_class(b, 0);
                            match self.read_base_expr(c) {
                                Some((r, e2)) => {
                                    if !(c < e2) {
                                        return Some((left, pos));
                                    }
                                    left = Expr::ArithExpr(ArithExpr { op, left: Box::new(left), right: Box::new(r) });
                                    pos = e2;
                                },
                                None => {
                                    return Some((left, pos));
                                },
                            }
                        },
                        None => {
                            return Some((left, pos));
                        },
                    }
                }
            },
            None => None,
        }
    }

    /// Read a simple expression at `i`.
    pub fn read_base_expr(&self, i: usize) -> (r: Option<(Expr, usize)>)
        requires
            self.wf(),
            i <= self.view_chars().len(),
        ensures
            match r {
                Some((x, e)) => spec_base_expr(self.view_chars(), i as int) == Some((x@, e as int)) && e <= self.view_chars().len(),
                None => spec_base_expr(self.view_chars(), i as int) is None,
            },
        decreases self.view_chars().len() - i, 1int,
    {
        match self.read_setcompre(i) {
            Some((sc, e)) => {
                let b = BaseExpr::SetComprehension(sc);
                assert(b@ == sc@);
                let x = Expr::BaseExpr(b);
                assert(x@ == b@);
                Some((x, e))
            },
            None => {
                let t = match self.read_param_id(i) {
                    Some(r) => Some(r),
                    None => match self.read_variable(i) {
                        Some(r) => Some(r),
                        None => match self.read_atom(i) {
                            Some((a, e)) => Some((AtomicTerm::gen_atom_term(a), e)),
                            None => None,
                        },
                    },
                };
                match t {
                    Some((t, e)) => {
                        let b = BaseExpr::Term(t);
                        assert(b@ == ExprView::Term(t@));
                        let x = Expr::BaseExpr(b);
                        assert(x@ == b@);
                        Some((x, e))
                    },
                    None => self.read_parens(i),
                }
            },
        }
    }

    /// Read an arithmetic expression between brackets at `i`.
    pub fn read_parens(&self, i: usize) -> (r: Option<(Expr, usize)>)
        requires
            self.wf(),
            i <= self.view_chars().len(),
        ensures
            match r {
                Some((x, e)) => spec_parens(self.view_chars(), i as int) == Some((x@, e as int)) && e <= self.view_chars().len(),
                None => spec_parens(self.view_chars(), i as int) is None,
            },
        decreases self.view_chars().len() - i, 0int,
    {
        let n = self.len();
        let a = self.scan_class(i, 0);
        if !self.read_char(a, '(') {
            return None;
        }
        let b = self.scan_class(a + 1, 0);
        match self.read_arith_low(b) {
            Some((x, c)) => {
                let d = self.scan_class(c, 0);
                if self.read_char(d, ')') {
                    Some((x, d + 1))
                } else {
                    None
                }
            },
            None => None,
        }
    }

    /// Read an aggregation at `i`.
    pub fn read_setcompre(&self, i: usize) -> (r: Option<(SetComprehension, usize)>)
        requires
            self.wf(),
            i <= self.view_chars().len(),
        ensures
            match r {
                Some((sc, e)) => spec_setcompre(self.view_chars(), i as int) == Some((sc@, e as int)) && e <= self.view_chars().len(),
                None => spec_setcompre(self.view_chars(), i as int) is None,
            },
        decreases self.view_chars().len() - i, 0int,
    {
        let n = self.len();
        match self.read_setcompre_op(i) {
            Some((op, a)) => {
                if !self.read_char(a, '(') {
                    return None;
                }
                let (default, b) = self.read_setcompre_default(a + 1);
                if !self.read_char(b, '{') {
                    return None;
                }
                let (vars, c) = self.read_setcompre_vars(b + 1);
                let d = self.scan_class(c, 0);
                if !self.read_char(d, '|') {
                    return None;
                }
                let f = self.scan_class(d + 1, 0);
                if !(i < f) {
                    return None;
                }
                let (conds, g) = self.read_condition_list(f);
                if self.read_char(g, '}') && self.read_char(g + 1, ')') {
                    let dv = default_integer(&default);
                    let sc = SetComprehension { vars, condition: conds, op, default: dv };
                    proof {
                        assert(crate::expression::terms_view(sc.vars@) =~= crate::parser::terms_of(sc.vars@));
                        assert(sc@->SetCompre_1 =~= crate::expression::constraints_view(sc.condition@));
                    }
                    Some((sc, g + 2))
                } else {
                    None
                }
            },
            None => None,
        }
    }

    /// Read the conditions of an aggregation at `i`.
    pub fn read_condition_list(&self, i: usize) -> (r: (Vec<Constraint>, usize))
        requires
            self.wf(),
            i <= self.view_chars().len(),
        ensures
            (crate::expression::constraints_view(r.0@), r.1 as int) == condition_list(self.view_chars(), i as int),
            r.1 <= self.view_chars().len(),
        decreases self.view_chars().len() - i, 7int,
    {
        let n = self.len();
        let mut out: Vec<Constraint> = Vec::new();
        let a = self.scan_class(i, 0);
        match self.read_constraint(a) {
            Some((c, e)) => {
                let f = self.scan_class(e, 0);
                if !(i < f) {
                    assert(crate::expression::constraints_view(out@) =~= Seq::<ConstraintView>::empty());
                    return (out, i);
                }
                let ghost total = condition_list(self.view_chars(), i as int);
                out.push(c);
                let mut pos = f;
                assert(crate::expression::constraints_view(out@) =~= seq![c@]);
                while self.read_char(pos, ',')
                    invariant
                        self.wf(),
                        n == self.view_chars().len(),
                        i < pos <= n,
                        total == condition_list(self.view_chars(), i as int),
                        total == (crate::expression::constraints_view(out@) + more_conditions(self.view_chars(), pos as int).0, more_conditions(self.view_chars(), pos as int).1),
                    decreases n - pos,
                {
                    let a2 = self.scan_class(pos + 1, 0);
                    match self.read_constraint(a2) {
                        Some((c2, e2)) => {
                            let f2 = self.scan_class(e2, 0);
                            if !(pos < f2) {
                                assert(crate::expression::constraints_view(out@) + Seq::<ConstraintView>::empty() =~= crate::expression::constraints_view(out@));
                                return (out, pos);
                            }
                            let ghost before = crate::expression::constraints_view(out@);
                            out.push(c2);
                            proof {
                                assert(crate::expression::constraints_view(out@) =~= before.push(c2@));
                                assert(crate::expression::constraints_view(out@) + more_conditions(self.view_chars(), f2 as int).0 =~= before + (seq![c2@] + more_conditions(self.view_chars(), f2 as int).0));
                            }
                            pos = f2;
                        },
                        None => {
                            assert(crate::expression::constraints_view(out@) + Seq::<ConstraintView>::empty() =~= crate::expression::constraints_view(out@));
                            return (out, pos);
                        },
                    }
                }
                assert(crate::expression::constraints_view(out@) + Seq::<ConstraintView>::empty() =~= crate::expression::constraints_view(out@));
                (out, pos)
            },
            None => {
                assert(crate::expression::constraints_view(out@) =~= Seq::<ConstraintView>::empty());
                (out, i)
            },
        }
    }
}

} // verus!
