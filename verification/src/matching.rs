//! Matching a term against another, substituting bindings into terms, and
//! normalizing the variables of a term.
use crate::binding::Binding;
use crate::integer::nat_decimal;
use crate::names::NameGenerator;
use crate::term_order::{sorted_distinct, terms_distinct, terms_sorted};
use crate::term::{dont_care_name, is_dont_care, term_args, texts_view, AtomicComposite, AtomicTerm, TermView};
use vstd::prelude::*;

verus! {

/// The outcome of matching the pattern `p` against the term `t`, starting from the
/// binding `b`: whether the match succeeds, and the binding as it stands when
/// matching stops. A variable matches any term unless it is already bound to
/// another one (the don't-care variable `_` is never bound); a composite pattern
/// matches a composite term of the same type with as many arguments, argument
/// by argument from the left, and no other term; an atom matches an equal atom.
pub open spec fn match_term(p: TermView, t: TermView, b: Map<TermView, TermView>) -> (bool, Map<TermView, TermView>)
    decreases p,
{
    match p {
        TermView::Variable(_, _) => if b.dom().contains(p) && b[p] != t {
            (false, b)
        } else if is_dont_care(p) {
            (true, b)
        } else {
            (true, b.insert(p, t))
        },
        TermView::Composite(sort, pargs) => if !(t matches TermView::Composite(tsort, _) && tsort == sort)
            || pargs.len() != term_args(t).len() {
            (false, b)
        } else {
            match_args(pargs, term_args(t), b)
        },
        TermView::Atom(_) => (p == t, b),
    }
}

/// Matching the patterns `ps` against the terms `ts` one after the other, from
/// the left, until one fails.
pub open spec fn match_args(ps: Seq<TermView>, ts: Seq<TermView>, b: Map<TermView, TermView>) -> (bool, Map<TermView, TermView>)
    decreases ps,
{
    if ps.len() == 0 {
        (true, b)
    } else {
        let r = match_args(ps.subrange(0, ps.len() - 1), ts.subrange(0, ts.len() - 1), b);
        if !r.0 {
            r
        } else {
            match_term(ps[ps.len() - 1], ts[ts.len() - 1], r.1)
        }
    }
}

/// The term `t` with every subterm that `m` binds replaced by its binding.
pub open spec fn subst(t: TermView, m: Map<TermView, TermView>) -> TermView
    decreases t,
{
    if m.dom().contains(t) {
        m[t]
    } else {
        match t {
            TermView::Composite(sort, args) => TermView::Composite(
                sort,
                Seq::new(args.len(), |i: int| if 0 <= i < args.len() { subst(args[i], m) } else { t }),
            ),
            _ => t,
        }
    }
}

/// Whether `s` is a proper subterm of `v`.
pub open spec fn occurs_below(s: TermView, v: TermView) -> bool
    decreases v,
{
    match v {
        TermView::Composite(_, args) => exists|i: int|
            0 <= i < args.len() && (args[i] == s || occurs_below(s, #[trigger] args[i])),
        _ => false,
    }
}

/// No term that a binding maps to has a bound term below its root, so that
/// substituting the binding needs no second round.
pub open spec fn settled_binding(m: Map<TermView, TermView>) -> bool {
    forall|k: TermView, s: TermView|
        m.dom().contains(k) && #[trigger] occurs_below(s, m[k]) ==> !#[trigger] m.dom().contains(s)
}

/// Whether the term holds no don't-care variable.
pub open spec fn no_dont_care(t: TermView) -> bool
    decreases t,
{
    match t {
        TermView::Variable(_, _) => !is_dont_care(t),
        TermView::Composite(_, args) => forall|i: int| 0 <= i < args.len() ==> no_dont_care(#[trigger] args[i]),
        TermView::Atom(_) => true,
    }
}

/// Every key of the map is a variable.
pub open spec fn variable_keys(m: Map<TermView, TermView>) -> bool {
    forall|k: TermView| #[trigger] m.dom().contains(k) ==> k is Variable
}

proof fn lemma_match_args_prefix_fails(ps: Seq<TermView>, ts: Seq<TermView>, b: Map<TermView, TermView>, k: int)
    requires
        0 <= k <= ps.len(),
        ps.len() == ts.len(),
        !match_args(ps.subrange(0, k), ts.subrange(0, k), b).0,
    ensures
        match_args(ps, ts, b) == match_args(ps.subrange(0, k), ts.subrange(0, k), b),
    decreases ps.len() - k,
{
    if k < ps.len() {
        let ps1 = ps.subrange(0, k + 1);
        let ts1 = ts.subrange(0, k + 1);
        assert(ps1.subrange(0, k) =~= ps.subrange(0, k));
        assert(ts1.subrange(0, k) =~= ts.subrange(0, k));
        lemma_match_args_prefix_fails(ps, ts, b, k + 1);
    } else {
        assert(ps.subrange(0, k) =~= ps);
        assert(ts.subrange(0, k) =~= ts);
    }
}

proof fn lemma_match_grows(p: TermView, t: TermView, b: Map<TermView, TermView>)
    requires
        variable_keys(b),
    ensures
        variable_keys(match_term(p, t, b).1),
        match_term(p, t, b).0 ==> b.submap_of(match_term(p, t, b).1),
        match_term(p, t, b).0 && no_dont_care(p) ==> forall|m: Map<TermView, TermView>|
            variable_keys(m) && match_term(p, t, b).1.submap_of(m) ==> #[trigger] subst(p, m) == t,
    decreases p,
{
    match p {
        TermView::Variable(_, _) => {
            assert forall|m: Map<TermView, TermView>|
                match_term(p, t, b).0 && no_dont_care(p) && variable_keys(m) && match_term(p, t, b).1.submap_of(m)
                implies #[trigger] subst(p, m) == t by {
                assert(match_term(p, t, b).1.dom().contains(p));
            }
        },
        TermView::Composite(_, pargs) => {
            if pargs.len() == term_args(t).len() {
                lemma_match_args_grows(pargs, term_args(t), b);
                if match_term(p, t, b).0 && no_dont_care(p) {
                    assert forall|m: Map<TermView, TermView>|
                        variable_keys(m) && match_term(p, t, b).1.submap_of(m) implies #[trigger] subst(p, m) == t by {
                        assert(!m.dom().contains(p));
                        assert forall|i: int| 0 <= i < pargs.len() implies #[trigger] subst(pargs[i], m) == term_args(t)[i] by {
                            assert(no_dont_care(pargs[i]));
                        }
                        let sp = subst(p, m);
                        assert(sp is Composite);
                        assert(sp->Composite_1.len() == pargs.len());
                        assert forall|i: int| 0 <= i < pargs.len() implies sp->Composite_1[i] == term_args(t)[i] by {
                            assert(sp->Composite_1[i] == subst(pargs[i], m));
                        }
                        assert(sp->Composite_1 =~= term_args(t));
                    }
                }
            }
        },
        TermView::Atom(_) => {
            assert forall|m: Map<TermView, TermView>|
                match_term(p, t, b).0 && variable_keys(m) && match_term(p, t, b).1.submap_of(m)
                implies #[trigger] subst(p, m) == t by {
                assert(!m.dom().contains(p));
            }
        },
    }
}

proof fn lemma_match_args_grows(ps: Seq<TermView>, ts: Seq<TermView>, b: Map<TermView, TermView>)
    requires
        variable_keys(b),
        ps.len() == ts.len(),
    ensures
        variable_keys(match_args(ps, ts, b).1),
        match_args(ps, ts, b).0 ==> b.submap_of(match_args(ps, ts, b).1),
        match_args(ps, ts, b).0 ==> forall|i: int, m: Map<TermView, TermView>|
            0 <= i < ps.len() && no_dont_care(ps[i]) && variable_keys(m)
                && match_args(ps, ts, b).1.submap_of(m) ==> #[trigger] subst(ps[i], m) == ts[i],
    decreases ps,
{
    if ps.len() > 0 {
        let n = ps.len() - 1;
        let ps0 = ps.subrange(0, n);
        let ts0 = ts.subrange(0, n);
        lemma_match_args_grows(ps0, ts0, b);
        let r = match_args(ps0, ts0, b);
        if r.0 {
            lemma_match_grows(ps[n], ts[n], r.1);
            if match_args(ps, ts, b).0 {
                vstd::map_lib::lemma_submap_of_trans(b, r.1, match_args(ps, ts, b).1);
            }
            if match_args(ps, ts, b).0 {
                assert forall|i: int, m: Map<TermView, TermView>|
                    0 <= i < ps.len() && no_dont_care(ps[i]) && variable_keys(m)
                        && match_args(ps, ts, b).1.submap_of(m) implies #[trigger] subst(ps[i], m) == ts[i] by {
                    if i < n {
                        assert(ps0[i] == ps[i]);
                        assert(ts0[i] == ts[i]);
                        vstd::map_lib::lemma_submap_of_trans(r.1, match_args(ps, ts, b).1, m);
                    }
                }
            }
        }
    }
}

/// Matching a pattern without don't-care variables against a term, and then
/// substituting the resulting binding into the pattern,
/// gives back the term.
pub proof fn lemma_match_then_substitute(p: TermView, t: TermView)
    requires
        no_dont_care(p),
        match_term(p, t, Map::empty()).0,
    ensures
        subst(p, match_term(p, t, Map::empty()).1) == t,
{
    lemma_match_grows(p, t, Map::empty());
}


/// Every entry of the binding `b` maps a term to what substituting `m` into
/// that term gives.
pub open spec fn agrees_with(b: Map<TermView, TermView>, m: Map<TermView, TermView>) -> bool {
    forall|k: TermView| #[trigger] b.dom().contains(k) ==> b[k] == subst(k, m)
}

proof fn lemma_match_complete(p: TermView, m: Map<TermView, TermView>, b: Map<TermView, TermView>)
    requires
        variable_keys(m),
        agrees_with(b, m),
    ensures
        match_term(p, subst(p, m), b).0,
        agrees_with(match_term(p, subst(p, m), b).1, m),
    decreases p,
{
    match p {
        TermView::Variable(_, _) => {
            let t = subst(p, m);
            if !is_dont_care(p) && !(b.dom().contains(p) && b[p] != t) {
                assert forall|k: TermView| #[trigger] b.insert(p, t).dom().contains(k) implies b.insert(p, t)[k] == subst(k, m) by {
                    if k != p {
                        assert(b.dom().contains(k));
                    }
                }
            }
        },
        TermView::Composite(sort, pargs) => {
            assert(!m.dom().contains(p));
            let t = subst(p, m);
            let targs = term_args(t);
            assert(targs.len() == pargs.len());
            assert forall|i: int| 0 <= i < pargs.len() implies #[trigger] targs[i] == subst(pargs[i], m) by {}
            lemma_match_args_complete(pargs, targs, m, b);
        },
        TermView::Atom(_) => {
            assert(!m.dom().contains(p));
        },
    }
}

proof fn lemma_match_args_complete(ps: Seq<TermView>, ts: Seq<TermView>, m: Map<TermView, TermView>, b: Map<TermView, TermView>)
    requires
        ps.len() == ts.len(),
        forall|i: int| 0 <= i < ps.len() ==> #[trigger] ts[i] == subst(ps[i], m),
        variable_keys(m),
        agrees_with(b, m),
    ensures
        match_args(ps, ts, b).0,
        agrees_with(match_args(ps, ts, b).1, m),
    decreases ps,
{
    if ps.len() > 0 {
        let n = ps.len() - 1;
        let ps0 = ps.subrange(0, n);
        let ts0 = ts.subrange(0, n);
        assert forall|i: int| 0 <= i < ps0.len() implies #[trigger] ts0[i] == subst(ps0[i], m) by {
            assert(ts0[i] == ts[i] && ps0[i] == ps[i]);
        }
        lemma_match_args_complete(ps0, ts0, m, b);
        let r = match_args(ps0, ts0, b);
        assert(ts[n] == subst(ps[n], m));
        lemma_match_complete(ps[n], m, r.1);
    }
}

/// Matching finds every match: where substituting some binding of variables
/// into the pattern gives the term, matching the pattern against the term
/// succeeds.
pub proof fn lemma_match_finds_every_match(p: TermView, t: TermView, m: Map<TermView, TermView>)
    requires
        variable_keys(m),
        subst(p, m) == t,
    ensures
        match_term(p, t, Map::empty()).0,
{
    lemma_match_complete(p, m, Map::empty());
}

/// Substituting an empty binding leaves a term as it is.
pub proof fn lemma_subst_nothing(p: TermView)
    ensures
        subst(p, Map::empty()) == p,
    decreases p,
{
    match p {
        TermView::Composite(sort, args) => {
            assert forall|i: int| 0 <= i < args.len() implies subst(args[i], Map::empty()) == args[i] by {
                lemma_subst_nothing(args[i]);
            }
            assert(subst(p, Map::empty())->Composite_1 =~= args);
        },
        _ => {},
    }
}

/// Every term matches itself: atoms, variables and composite terms alike.
pub proof fn lemma_term_matches_itself(p: TermView)
    ensures
        match_term(p, p, Map::empty()).0,
{
    lemma_subst_nothing(p);
    lemma_match_finds_every_match(p, p, Map::empty());
}

/// Structural operations on terms: matching, substitution and normalization.
pub trait TermTraversal: Sized {
    /// Match this pattern against `term`, extending `binding` as variables get bound;
    /// returns whether the match succeeds.
    fn match_in_place(&self, binding: &mut Binding, term: &Self) -> bool;

    /// Match this pattern against `term` from an empty binding.
    fn match_to(&self, term: &Self) -> Option<Binding>;

    /// A copy of the term with bound subterms replaced by what they are bound to.
    fn propagate(&self, map: &Binding) -> Self
        requires
            settled_binding(map@),
    ;
}

impl TermTraversal for AtomicTerm {
    fn match_in_place(&self, binding: &mut Binding, term: &AtomicTerm) -> (r: bool)
        ensures
            (r, final(binding)@) == match_term(self@, term@, old(binding)@),
        decreases self,
    {
        match self {
            AtomicTerm::Variable(_) => {
                let conflict = match binding.get(self) {
                    Some(v) => !v.equals(term),
                    None => false,
                };
                if conflict {
                    return false;
                }
                if !self.is_donot_care_variable() {
                    binding.insert(self.duplicate(), term.duplicate());
                }
                true
            },
            AtomicTerm::Composite(c) => {
                let targs: &Vec<AtomicTerm> = match term {
                    AtomicTerm::Composite(tc) => {
                        if !c.sort.equals(&tc.sort) {
                            return false;
                        }
                        &tc.arguments
                    },
                    _ => {
                        return false;
                    },
                };
                let ghost pv = self@->Composite_1;
                let ghost tv = term_args(term@);
                assert(targs@.len() == tv.len());
                if c.arguments.len() != targs.len() {
                    return false;
                }
                let ghost b0 = binding@;
                let mut i: usize = 0;
                while i < c.arguments.len()
                    invariant
                        i <= c.arguments@.len(),
                        c.arguments@.len() == targs@.len(),
                        pv.len() == c.arguments@.len(),
                        tv.len() == targs@.len(),
                        *self == AtomicTerm::Composite(*c),
                        pv == self@->Composite_1,
                        tv == term_args(term@),
                        term@ is Composite,
                        term@->Composite_0 == self@->Composite_0,
                        b0 == old(binding)@,
                        forall|j: int| 0 <= j < targs@.len() ==> (#[trigger] targs@[j])@ == tv[j],
                        match_args(pv.subrange(0, i as int), tv.subrange(0, i as int), b0) == (
                            true,
                            binding@,
                        ),
                    decreases c.arguments@.len() - i,
                {
                    proof {
                        assert(decreases_to!(*self => (*self)->Composite_0));
                        assert(decreases_to!((*self)->Composite_0 => (*self)->Composite_0.arguments));
                        vstd::std_specs::vec::axiom_vec_index_decreases(c.arguments, i as int);
                    }
                    let ok = c.arguments[i].match_in_place(binding, &targs[i]);
                    proof {
                        let ps1 = pv.subrange(0, i as int + 1);
                        let ts1 = tv.subrange(0, i as int + 1);
                        assert(ps1.subrange(0, i as int) =~= pv.subrange(0, i as int));
                        assert(ts1.subrange(0, i as int) =~= tv.subrange(0, i as int));
                        assert(ps1[i as int] == c.arguments@[i as int]@);
                        assert(ts1[i as int] == targs@[i as int]@);
                        assert(ps1.len() - 1 == i);
                        assert(match_args(ps1, ts1, b0) == (ok, binding@));
                    }
                    if !ok {
                        proof {
                            lemma_match_args_prefix_fails(pv, tv, b0, i as int + 1);
                            assert(pv.subrange(0, pv.len() as int) =~= pv);
                            assert(tv.subrange(0, tv.len() as int) =~= tv);
                            assert(match_args(pv, tv, b0) == (false, binding@));
                            assert(self@ is Composite);
                            assert(match_term(self@, term@, b0) == match_args(pv, tv, b0));
                        }
                        return false;
                    }
                    i += 1;
                }
                assert(pv.subrange(0, pv.len() as int) =~= pv);
                assert(tv.subrange(0, tv.len() as int) =~= tv);
                true
            },
            AtomicTerm::Atom(_) => self.equals(term),
        }
    }

    fn match_to(&self, term: &AtomicTerm) -> (r: Option<Binding>)
        ensures
            match r {
                Some(b) => match_term(self@, term@, Map::empty()) == (true, b@),
                None => !match_term(self@, term@, Map::empty()).0,
            },
    {
        let mut binding = Binding::new();
        if self.match_in_place(&mut binding, term) {
            Some(binding)
        } else {
            None
        }
    }

    fn propagate(&self, map: &Binding) -> (r: AtomicTerm)
        ensures
            r@ == subst(self@, map@),
        decreases self,
    {
        match map.get(self) {
            Some(v) => v.duplicate(),
            None => match self {
                AtomicTerm::Composite(c) => {
                    let mut args: Vec<AtomicTerm> = Vec::new();
                    let mut i: usize = 0;
                    while i < c.arguments.len()
                        invariant
                            i <= c.arguments@.len(),
                            args@.len() == i,
                            *self == AtomicTerm::Composite(*c),
                            settled_binding(map@),
                            forall|j: int|
                                0 <= j < i ==> (#[trigger] args@[j])@ == subst(c.arguments@[j]@, map@),
                        decreases c.arguments@.len() - i,
                    {
                        proof {
                            assert(decreases_to!(*self => (*self)->Composite_0));
                            assert(decreases_to!((*self)->Composite_0 => (*self)->Composite_0.arguments));
                            vstd::std_specs::vec::axiom_vec_index_decreases(c.arguments, i as int);
                        }
                        args.push(c.arguments[i].propagate(map));
                        i += 1;
                    }
                    let r = AtomicTerm::Composite(AtomicComposite { sort: c.sort.duplicate(), arguments: args });
                    assert(r@->Composite_1 =~= subst(self@, map@)->Composite_1);
                    r
                },
                _ => self.duplicate(),
            },
        }
    }
}


/// The variables of a term other than `_`, each time they occur, from left to right.
pub open spec fn var_occurrences(t: TermView) -> Seq<TermView>
    decreases t,
{
    match t {
        TermView::Variable(_, _) => if is_dont_care(t) {
            Seq::empty()
        } else {
            seq![t]
        },
        TermView::Composite(_, args) => args_var_occurrences(args),
        TermView::Atom(_) => Seq::empty(),
    }
}

/// The variable occurrences of a list of terms, one term after the other.
pub open spec fn args_var_occurrences(args: Seq<TermView>) -> Seq<TermView>
    decreases args,
{
    if args.len() == 0 {
        Seq::empty()
    } else {
        args_var_occurrences(args.subrange(0, args.len() - 1)) + var_occurrences(args[args.len() - 1])
    }
}

/// `d` followed by the items of `s` that are not in it yet, each once, in order.
pub open spec fn add_new(d: Seq<TermView>, s: Seq<TermView>) -> Seq<TermView>
    decreases s.len(),
{
    if s.len() == 0 {
        d
    } else {
        let d1 = add_new(d, s.drop_last());
        if d1.contains(s.last()) {
            d1
        } else {
            d1.push(s.last())
        }
    }
}

/// The distinct variables of a term other than `_`, in the order of their first
/// occurrence.
pub open spec fn term_variables(t: TermView) -> Seq<TermView> {
    add_new(Seq::empty(), var_occurrences(t))
}

pub proof fn lemma_add_new_concat(d: Seq<TermView>, a: Seq<TermView>, b: Seq<TermView>)
    ensures
        add_new(d, a + b) == add_new(add_new(d, a), b),
    decreases b.len(),
{
    if b.len() == 0 {
        assert(a + b =~= a);
    } else {
        assert((a + b).drop_last() =~= a + b.drop_last());
        assert((a + b).last() == b.last());
        lemma_add_new_concat(d, a, b.drop_last());
    }
}

pub(crate) fn contains_term(v: &Vec<AtomicTerm>, t: &AtomicTerm) -> (r: bool)
    ensures
        r == crate::expression::terms_view(v@).contains(t@),
{
    let mut i: usize = 0;
    while i < v.len()
        invariant
            i <= v@.len(),
            forall|j: int| 0 <= j < i ==> v@[j]@ != t@,
        decreases v@.len() - i,
    {
        if v[i].equals(t) {
            assert(crate::expression::terms_view(v@)[i as int] == t@);
            return true;
        }
        i += 1;
    }
    proof {
        if crate::expression::terms_view(v@).contains(t@) {
            let j = choose|j: int| 0 <= j < v@.len() && crate::expression::terms_view(v@)[j] == t@;
            assert(v@[j]@ == t@);
        }
    }
    false
}

impl AtomicTerm {
    pub(crate) fn collect_variables(&self, acc: &mut Vec<AtomicTerm>)
        ensures
            crate::expression::terms_view(final(acc)@) == add_new(crate::expression::terms_view(old(acc)@), var_occurrences(self@)),
        decreases self,
    {
        let ghost d0 = crate::expression::terms_view(acc@);
        match self {
            AtomicTerm::Variable(_) => {
                if !self.is_donot_care_variable() && !contains_term(acc, self) {
                    acc.push(self.duplicate());
                    assert(crate::expression::terms_view(acc@) =~= d0.push(self@));
                }
                proof {
                    let s = var_occurrences(self@);
                    if !is_dont_care(self@) {
                        assert(s == seq![self@]);
                        assert(s.drop_last() =~= Seq::<TermView>::empty());
                        assert(add_new(d0, s.drop_last()) == d0);
                        assert(s.last() == self@);
                    } else {
                        assert(s == Seq::<TermView>::empty());
                    }
                }
            },
            AtomicTerm::Composite(c) => {
                let ghost args = self@->Composite_1;
                let mut i: usize = 0;
                proof {
                    assert(args.subrange(0, 0) =~= Seq::<TermView>::empty());
                }
                while i < c.arguments.len()
                    invariant
                        i <= c.arguments@.len(),
                        *self == AtomicTerm::Composite(*c),
                        args == self@->Composite_1,
                        crate::expression::terms_view(acc@) == add_new(d0, args_var_occurrences(args.subrange(0, i as int))),
                    decreases c.arguments@.len() - i,
                {
                    proof {
                        assert(decreases_to!(*self => (*self)->Composite_0));
                        assert(decreases_to!((*self)->Composite_0 => (*self)->Composite_0.arguments));
                        vstd::std_specs::vec::axiom_vec_index_decreases(c.arguments, i as int);
                    }
                    c.arguments[i].collect_variables(acc);
                    proof {
                        let s1 = args.subrange(0, i as int + 1);
                        assert(s1.subrange(0, s1.len() - 1) =~= args.subrange(0, i as int));
                        assert(s1[s1.len() - 1] == c.arguments@[i as int]@);
                        lemma_add_new_concat(d0, args_var_occurrences(args.subrange(0, i as int)), var_occurrences(c.arguments@[i as int]@));
                    }
                    i += 1;
                }
                assert(args.subrange(0, args.len() as int) =~= args);
            },
            AtomicTerm::Atom(_) => {},
        }
    }

    /// The distinct variables of the term other than `_`, in the order of their
    /// first occurrence.
    pub fn variables(&self) -> (r: Vec<AtomicTerm>)
        ensures
            crate::expression::terms_view(r@) == term_variables(self@),
    {
        let mut acc: Vec<AtomicTerm> = Vec::new();
        assert(crate::expression::terms_view(acc@) =~= Seq::<TermView>::empty());
        self.collect_variables(&mut acc);
        acc
    }
}


/// The variable that normalization gives to the `i`-th distinct variable: `~p` and `i`.
pub open spec fn normal_var(i: nat) -> TermView {
    TermView::Variable("~p"@ + nat_decimal(i), Seq::empty())
}

/// The renaming that sends the `i`-th key to `normal_var(i)`.
pub open spec fn normal_map(keys: Seq<TermView>) -> Map<TermView, TermView> {
    Map::new(|k: TermView| keys.contains(k), |k: TermView| normal_var(keys.index_of(k) as nat))
}

/// Every key is a variable other than `_`.
pub open spec fn proper_variable_keys(keys: Seq<TermView>) -> bool {
    forall|i: int| 0 <= i < keys.len() ==> (#[trigger] keys[i]) is Variable && !is_dont_care(keys[i])
}

proof fn lemma_index_of_unique(keys: Seq<TermView>, i: int)
    requires
        keys.no_duplicates(),
        0 <= i < keys.len(),
    ensures
        keys.index_of(keys[i]) == i,
{
    let j = keys.index_of(keys[i]);
    assert(keys.contains(keys[i]));
}

proof fn lemma_var_occurrences_proper(t: TermView)
    ensures
        proper_variable_keys(var_occurrences(t)),
    decreases t,
{
    match t {
        TermView::Composite(_, args) => {
            lemma_args_var_occurrences_proper(args);
        },
        _ => {},
    }
}

proof fn lemma_args_var_occurrences_proper(args: Seq<TermView>)
    ensures
        proper_variable_keys(args_var_occurrences(args)),
        forall|i: int, v: TermView| 0 <= i < args.len() && #[trigger] var_occurrences(args[i]).contains(v) ==> args_var_occurrences(args).contains(v),
        forall|k: int| 0 <= k <= args.len() ==> #[trigger] args_var_occurrences(args.subrange(0, k)).len() <= args_var_occurrences(args).len(),
    decreases args,
{
    if args.len() > 0 {
        let n = args.len() - 1;
        let front = args.subrange(0, n);
        lemma_args_var_occurrences_proper(front);
        lemma_var_occurrences_proper(args[n]);
        let whole = args_var_occurrences(args);
        assert(whole == args_var_occurrences(front) + var_occurrences(args[n]));
        assert forall|i: int, v: TermView| 0 <= i < args.len() && #[trigger] var_occurrences(args[i]).contains(v) implies whole.contains(v) by {
            if i < n {
                assert(front[i] == args[i]);
                assert(args_var_occurrences(front).contains(v));
                let j = choose|j: int| 0 <= j < args_var_occurrences(front).len() && args_var_occurrences(front)[j] == v;
                assert(whole[j] == v);
            } else {
                let j = choose|j: int| 0 <= j < var_occurrences(args[n]).len() && var_occurrences(args[n])[j] == v;
                assert(whole[args_var_occurrences(front).len() + j] == v);
            }
        }
        assert forall|k: int| 0 <= k <= args.len() implies #[trigger] args_var_occurrences(args.subrange(0, k)).len() <= whole.len() by {
            if k < args.len() {
                assert(args.subrange(0, k) =~= front.subrange(0, k));
            } else {
                assert(args.subrange(0, k) =~= args);
            }
        }
        assert(proper_variable_keys(whole)) by {
            assert forall|i: int| 0 <= i < whole.len() implies (#[trigger] whole[i]) is Variable && !is_dont_care(whole[i]) by {
                if i < args_var_occurrences(front).len() {
                    assert(whole[i] == args_var_occurrences(front)[i]);
                } else {
                    assert(whole[i] == var_occurrences(args[n])[i - args_var_occurrences(front).len()]);
                }
            }
        }
    }
}

pub proof fn lemma_add_new_props(d: Seq<TermView>, s: Seq<TermView>)
    ensures
        add_new(d, s).len() <= d.len() + s.len(),
        add_new(d, s).len() >= d.len(),
        add_new(d, s).subrange(0, d.len() as int) == d,
        forall|x: TermView| #[trigger] add_new(d, s).contains(x) <==> d.contains(x) || s.contains(x),
        d.no_duplicates() ==> add_new(d, s).no_duplicates(),
        proper_variable_keys(d) && proper_variable_keys(s) ==> proper_variable_keys(add_new(d, s)),
    decreases s.len(),
{
    if s.len() == 0 {
        assert(d.subrange(0, d.len() as int) =~= d);
    } else {
        let d1 = add_new(d, s.drop_last());
        lemma_add_new_props(d, s.drop_last());
        if !d1.contains(s.last()) {
            assert(d1.push(s.last()).subrange(0, d.len() as int) =~= d1.subrange(0, d.len() as int));
            assert forall|x: TermView| #[trigger] d1.push(s.last()).contains(x) <==> d1.contains(x) || x == s.last() by {
                if d1.push(s.last()).contains(x) {
                    let j = choose|j: int| 0 <= j < d1.len() + 1 && d1.push(s.last())[j] == x;
                    if j < d1.len() {
                        assert(d1[j] == x);
                    }
                }
                if d1.contains(x) {
                    let j = choose|j: int| 0 <= j < d1.len() && d1[j] == x;
                    assert(d1.push(s.last())[j] == x);
                }
                if x == s.last() {
                    assert(d1.push(s.last())[d1.len() as int] == x);
                }
            }
        }
        assert forall|x: TermView| s.contains(x) <==> s.drop_last().contains(x) || x == s.last() by {
            if s.contains(x) {
                let j = choose|j: int| 0 <= j < s.len() && s[j] == x;
                if j < s.len() - 1 {
                    assert(s.drop_last()[j] == x);
                }
            }
            if s.drop_last().contains(x) {
                let j = choose|j: int| 0 <= j < s.len() - 1 && s.drop_last()[j] == x;
                assert(s[j] == x);
            }
            if x == s.last() {
                assert(s[s.len() - 1] == x);
            }
        }
        if proper_variable_keys(d) && proper_variable_keys(s) {
            assert(proper_variable_keys(s.drop_last())) by {
                assert forall|i: int| 0 <= i < s.drop_last().len() implies (#[trigger] s.drop_last()[i]) is Variable && !is_dont_care(s.drop_last()[i]) by {
                    assert(s.drop_last()[i] == s[i]);
                }
            }
            assert(s[s.len() - 1] is Variable);
        }
    }
}

proof fn lemma_normal_map_push(keys: Seq<TermView>, v: TermView)
    requires
        keys.no_duplicates(),
        !keys.contains(v),
    ensures
        normal_map(keys.push(v)) == normal_map(keys).insert(v, normal_var(keys.len())),
{
    let k2 = keys.push(v);
    assert(k2.no_duplicates());
    assert forall|k: TermView| #[trigger] normal_map(k2).dom().contains(k) <==> normal_map(keys).insert(v, normal_var(keys.len())).dom().contains(k) by {
        if k2.contains(k) && k != v {
            let j = choose|j: int| 0 <= j < k2.len() && k2[j] == k;
            assert(keys[j] == k);
        }
        if keys.contains(k) {
            let j = choose|j: int| 0 <= j < keys.len() && keys[j] == k;
            assert(k2[j] == k);
        }
        if k == v {
            assert(k2[keys.len() as int] == v);
        }
    }
    assert forall|k: TermView| #[trigger] normal_map(k2).dom().contains(k) implies normal_map(k2)[k] == normal_map(keys).insert(v, normal_var(keys.len()))[k] by {
        if k == v {
            lemma_index_of_unique(k2, keys.len() as int);
        } else {
            let j = choose|j: int| 0 <= j < k2.len() && k2[j] == k;
            assert(keys[j] == k);
            lemma_index_of_unique(k2, j);
            lemma_index_of_unique(keys, j);
        }
    }
    assert(normal_map(k2) =~= normal_map(keys).insert(v, normal_var(keys.len())));
}

proof fn lemma_normal_map_prefix(keys1: Seq<TermView>, keys2: Seq<TermView>)
    requires
        keys2.no_duplicates(),
        keys1.len() <= keys2.len(),
        keys2.subrange(0, keys1.len() as int) == keys1,
    ensures
        normal_map(keys1).submap_of(normal_map(keys2)),
{
    assert forall|k: TermView| #[trigger] normal_map(keys1).dom().contains(k) implies normal_map(keys2).dom().contains(k) && normal_map(keys1)[k] == normal_map(keys2)[k] by {
        let j = choose|j: int| 0 <= j < keys1.len() && keys1[j] == k;
        assert(keys2[j] == keys1[j]);
        assert(keys1.no_duplicates()) by {
            assert forall|a: int, b: int| 0 <= a < keys1.len() && 0 <= b < keys1.len() && a != b implies keys1[a] != keys1[b] by {
                assert(keys1[a] == keys2[a]);
                assert(keys1[b] == keys2[b]);
            }
        }
        lemma_index_of_unique(keys1, j);
        lemma_index_of_unique(keys2, j);
    }
}

/// Keys that are variables other than `_`.
pub open spec fn proper_map(m: Map<TermView, TermView>) -> bool {
    forall|k: TermView| #[trigger] m.dom().contains(k) ==> k is Variable && !is_dont_care(k)
}

proof fn lemma_subst_stable(t: TermView, m1: Map<TermView, TermView>, m2: Map<TermView, TermView>)
    requires
        m1.submap_of(m2),
        proper_map(m2),
        forall|v: TermView| #[trigger] var_occurrences(t).contains(v) ==> m1.dom().contains(v),
    ensures
        subst(t, m1) == subst(t, m2),
    decreases t,
{
    match t {
        TermView::Variable(_, _) => {
            if !is_dont_care(t) {
                assert(var_occurrences(t)[0] == t);
                assert(var_occurrences(t).contains(t));
            }
        },
        TermView::Composite(_, args) => {
            assert(!m2.dom().contains(t));
            assert(!m1.dom().contains(t));
            lemma_args_var_occurrences_proper(args);
            assert forall|i: int| 0 <= i < args.len() implies subst(args[i], m1) == subst(args[i], m2) by {
                assert forall|v: TermView| #[trigger] var_occurrences(args[i]).contains(v) implies m1.dom().contains(v) by {
                    assert(args_var_occurrences(args).contains(v));
                }
                lemma_subst_stable(args[i], m1, m2);
            }
            assert(subst(t, m1)->Composite_1 =~= subst(t, m2)->Composite_1);
        },
        TermView::Atom(_) => {
            assert(!m2.dom().contains(t));
        },
    }
}

impl AtomicTerm {
    fn normalize_into(&self, vmap: &mut Binding, gen: &mut NameGenerator) -> (r: AtomicTerm)
        requires
            old(vmap)@ == normal_map(old(vmap).keys_view()),
            old(vmap).keys_view().no_duplicates(),
            proper_variable_keys(old(vmap).keys_view()),
            old(gen).prefix_view() == "~p"@,
            old(gen).counter_view() == old(vmap).keys_view().len(),
            old(vmap).keys_view().len() + var_occurrences(self@).len() < i64::MAX,
        ensures
            final(vmap).keys_view() == add_new(old(vmap).keys_view(), var_occurrences(self@)),
            final(vmap)@ == normal_map(final(vmap).keys_view()),
            final(vmap).keys_view().no_duplicates(),
            proper_variable_keys(final(vmap).keys_view()),
            final(gen).prefix_view() == "~p"@,
            final(gen).counter_view() == final(vmap).keys_view().len(),
            r@ == subst(self@, final(vmap)@),
        decreases self,
    {
        let ghost keys0 = vmap.keys_view();
        proof {
            lemma_var_occurrences_proper(self@);
            lemma_add_new_props(keys0, var_occurrences(self@));
        }
        match self {
            AtomicTerm::Variable(_) => {
                if self.is_donot_care_variable() {
                    assert(!vmap@.dom().contains(self@)) by {
                        if keys0.contains(self@) {
                            let j = choose|j: int| 0 <= j < keys0.len() && keys0[j] == self@;
                        }
                    }
                    return self.duplicate();
                }
                assert(var_occurrences(self@) == seq![self@]);
                assert(var_occurrences(self@).drop_last() =~= Seq::<TermView>::empty());
                assert(add_new(keys0, var_occurrences(self@).drop_last()) == keys0);
                assert(var_occurrences(self@).last() == self@);
                let found = match vmap.get(self) {
                    Some(p) => Some(p.duplicate()),
                    None => None,
                };
                match found {
                    Some(p) => p,
                    None => {
                        let name = gen.generate_name();
                        let p = AtomicTerm::gen_raw_variable_term(name, Vec::new());
                        assert(crate::term::texts_view(Seq::<String>::empty()) =~= Seq::empty());
                        proof {
                            lemma_normal_map_push(keys0, self@);
                        }
                        vmap.insert(self.duplicate(), p.duplicate());
                        p
                    },
                }
            },
            AtomicTerm::Composite(c) => {
                let ghost args = self@->Composite_1;
                let mut out: Vec<AtomicTerm> = Vec::new();
                let mut i: usize = 0;
                proof {
                    assert(args.subrange(0, 0) =~= Seq::<TermView>::empty());
                    lemma_args_var_occurrences_proper(args);
                }
                while i < c.arguments.len()
                    invariant
                        i <= c.arguments@.len(),
                        out@.len() == i,
                        *self == AtomicTerm::Composite(*c),
                        args == self@->Composite_1,
                        var_occurrences(self@) == args_var_occurrences(args),
                        keys0.len() + args_var_occurrences(args).len() < i64::MAX,
                        forall|k: int| 0 <= k <= args.len() ==> #[trigger] args_var_occurrences(args.subrange(0, k)).len() <= args_var_occurrences(args).len(),
                        vmap.keys_view() == add_new(keys0, args_var_occurrences(args.subrange(0, i as int))),
                        vmap@ == normal_map(vmap.keys_view()),
                        vmap.keys_view().no_duplicates(),
                        proper_variable_keys(vmap.keys_view()),
                        keys0.no_duplicates(),
                        proper_variable_keys(keys0),
                        gen.prefix_view() == "~p"@,
                        gen.counter_view() == vmap.keys_view().len(),
                        forall|j: int| 0 <= j < i ==> (#[trigger] out@[j])@ == subst(args[j], vmap@),
                    decreases c.arguments@.len() - i,
                {
                    proof {
                        assert(decreases_to!(*self => (*self)->Composite_0));
                        assert(decreases_to!((*self)->Composite_0 => (*self)->Composite_0.arguments));
                        vstd::std_specs::vec::axiom_vec_index_decreases(c.arguments, i as int);
                        let s1 = args.subrange(0, i as int + 1);
                        assert(s1.subrange(0, s1.len() - 1) =~= args.subrange(0, i as int));
                        assert(s1[s1.len() - 1] == c.arguments@[i as int]@);
                        lemma_add_new_props(keys0, args_var_occurrences(args.subrange(0, i as int)));
                        assert(args_var_occurrences(s1) == args_var_occurrences(args.subrange(0, i as int)) + var_occurrences(c.arguments@[i as int]@));
                        assert(args_var_occurrences(args.subrange(0, i as int + 1)).len() <= args_var_occurrences(args).len());
                    }
                    let ghost before = vmap@;
                    let ghost keys_before = vmap.keys_view();
                    let t = c.arguments[i].normalize_into(vmap, gen);
                    proof {
                        lemma_add_new_concat(keys0, args_var_occurrences(args.subrange(0, i as int)), var_occurrences(c.arguments@[i as int]@));
                        lemma_add_new_props(keys_before, var_occurrences(c.arguments@[i as int]@));
                        lemma_normal_map_prefix(keys_before, vmap.keys_view());
                        assert forall|j: int| 0 <= j < i implies (#[trigger] out@[j])@ == subst(args[j], vmap@) by {
                            assert forall|v: TermView| #[trigger] var_occurrences(args[j]).contains(v) implies before.dom().contains(v) by {
                                let sj = args.subrange(0, j + 1);
                                lemma_args_var_occurrences_proper(args.subrange(0, i as int));
                                assert(args.subrange(0, i as int)[j] == args[j]);
                                lemma_add_new_props(keys0, args_var_occurrences(args.subrange(0, i as int)));
                            }
                            lemma_subst_stable(args[j], before, vmap@);
                        }
                    }
                    out.push(t);
                    i += 1;
                }
                let r = AtomicTerm::Composite(AtomicComposite { sort: c.sort.duplicate(), arguments: out });
                proof {
                    assert(args.subrange(0, args.len() as int) =~= args);
                    assert(!vmap@.dom().contains(self@)) by {
                        if vmap.keys_view().contains(self@) {
                            let j = choose|j: int| 0 <= j < vmap.keys_view().len() && vmap.keys_view()[j] == self@;
                        }
                    }
                    assert(r@->Composite_1 =~= subst(self@, vmap@)->Composite_1);
                }
                r
            },
            AtomicTerm::Atom(_) => {
                assert(!vmap@.dom().contains(self@)) by {
                    if keys0.contains(self@) {
                        let j = choose|j: int| 0 <= j < keys0.len() && keys0[j] == self@;
                    }
                }
                assert(var_occurrences(self@) =~= Seq::<TermView>::empty());
                self.duplicate()
            },
        }
    }

    /// The term with its variables other than `_` renamed `~p0`, `~p1`, ... in the
    /// order of their first occurrence, and the renaming used.
    pub fn normalize(&self) -> (r: (AtomicTerm, Binding))
        requires
            var_occurrences(self@).len() < i64::MAX,
        ensures
            r.1.keys_view() == term_variables(self@),
            r.1@ == normal_map(term_variables(self@)),
            r.0@ == subst(self@, normal_map(term_variables(self@))),
    {
        let mut vmap = Binding::new();
        let mut gen = NameGenerator::new("~p");
        proof {
            reveal_strlit("~p");
            assert(vmap@ =~= normal_map(vmap.keys_view()));
        }
        let t = self.normalize_into(&mut vmap, &mut gen);
        (t, vmap)
    }
}


proof fn lemma_normal_var_injective(a: nat, b: nat)
    requires
        normal_var(a) == normal_var(b),
    ensures
        a == b,
{
    reveal_strlit("~p");
    let pa = "~p"@ + nat_decimal(a);
    let pb = "~p"@ + nat_decimal(b);
    assert(pa == pb);
    assert(pa.subrange(2, pa.len() as int) =~= nat_decimal(a));
    assert(pb.subrange(2, pb.len() as int) =~= nat_decimal(b));
    crate::integer::lemma_nat_decimal_injective(a, b);
}

proof fn lemma_normal_var_proper(i: nat)
    ensures
        normal_var(i) is Variable,
        !is_dont_care(normal_var(i)),
        var_occurrences(normal_var(i)) == seq![normal_var(i)],
{
    reveal_strlit("~p");
    reveal_strlit("_");
    let root = "~p"@ + nat_decimal(i);
    assert(root[0] == '~');
    assert(dont_care_name()[0] == '_');
}

proof fn lemma_occurrences_after_subst(t: TermView, m: Map<TermView, TermView>)
    requires
        proper_map(m),
        forall|v: TermView| #[trigger] var_occurrences(t).contains(v) ==> m.dom().contains(v),
        forall|k: TermView| #[trigger] m.dom().contains(k) ==> var_occurrences(m[k]) == seq![m[k]],
    ensures
        var_occurrences(subst(t, m)) == var_occurrences(t).map_values(|v: TermView| m[v]),
    decreases t,
{
    match t {
        TermView::Variable(_, _) => {
            if is_dont_care(t) {
                assert(!m.dom().contains(t));
                assert(var_occurrences(t).map_values(|v: TermView| m[v]) =~= Seq::<TermView>::empty());
            } else {
                assert(var_occurrences(t)[0] == t);
                assert(var_occurrences(t).contains(t));
                assert(var_occurrences(t).map_values(|v: TermView| m[v]) =~= seq![m[t]]);
            }
        },
        TermView::Composite(_, args) => {
            assert(!m.dom().contains(t));
            lemma_args_var_occurrences_proper(args);
            lemma_args_occurrences_after_subst(args, m);
            let st = subst(t, m);
            assert(st->Composite_1 =~= Seq::new(args.len(), |i: int| subst(args[i], m)));
        },
        TermView::Atom(_) => {
            assert(!m.dom().contains(t));
            assert(var_occurrences(t).map_values(|v: TermView| m[v]) =~= Seq::<TermView>::empty());
        },
    }
}

proof fn lemma_args_occurrences_after_subst(args: Seq<TermView>, m: Map<TermView, TermView>)
    requires
        proper_map(m),
        forall|v: TermView| #[trigger] args_var_occurrences(args).contains(v) ==> m.dom().contains(v),
        forall|k: TermView| #[trigger] m.dom().contains(k) ==> var_occurrences(m[k]) == seq![m[k]],
    ensures
        args_var_occurrences(Seq::new(args.len(), |i: int| subst(args[i], m)))
            == args_var_occurrences(args).map_values(|v: TermView| m[v]),
    decreases args,
{
    let sa = Seq::new(args.len(), |i: int| subst(args[i], m));
    if args.len() > 0 {
        let n = args.len() - 1;
        let front = args.subrange(0, n);
        lemma_args_var_occurrences_proper(args);
        assert forall|v: TermView| #[trigger] args_var_occurrences(front).contains(v) implies m.dom().contains(v) by {
            let j = choose|j: int| 0 <= j < args_var_occurrences(front).len() && args_var_occurrences(front)[j] == v;
            assert(args_var_occurrences(args) == args_var_occurrences(front) + var_occurrences(args[n]));
            assert(args_var_occurrences(args)[j] == v);
            assert(args_var_occurrences(args).contains(v));
        }
        assert forall|v: TermView| #[trigger] var_occurrences(args[n]).contains(v) implies m.dom().contains(v) by {
            assert(args_var_occurrences(args).contains(v));
        }
        lemma_args_occurrences_after_subst(front, m);
        lemma_occurrences_after_subst(args[n], m);
        assert(sa.subrange(0, n) =~= Seq::new(front.len(), |i: int| subst(front[i], m)));
        assert(sa[n] == subst(args[n], m));
        assert(args_var_occurrences(sa) == args_var_occurrences(sa.subrange(0, n)) + var_occurrences(sa[n]));
        assert(args_var_occurrences(sa) =~= args_var_occurrences(args).map_values(|v: TermView| m[v]));
    } else {
        assert(args_var_occurrences(sa) =~= args_var_occurrences(args).map_values(|v: TermView| m[v]));
    }
}

proof fn lemma_add_new_map(d: Seq<TermView>, s: Seq<TermView>, m: Map<TermView, TermView>)
    requires
        forall|x: TermView| #[trigger] d.contains(x) ==> m.dom().contains(x),
        forall|x: TermView| #[trigger] s.contains(x) ==> m.dom().contains(x),
        forall|x: TermView, y: TermView| m.dom().contains(x) && m.dom().contains(y) && #[trigger] m[x] == #[trigger] m[y] ==> x == y,
    ensures
        add_new(d.map_values(|v: TermView| m[v]), s.map_values(|v: TermView| m[v])) == add_new(d, s).map_values(|v: TermView| m[v]),
    decreases s.len(),
{
    let f = |v: TermView| m[v];
    if s.len() == 0 {
        assert(s.map_values(f) =~= Seq::<TermView>::empty());
    } else {
        let s0 = s.drop_last();
        assert forall|x: TermView| #[trigger] s0.contains(x) implies m.dom().contains(x) by {
            let j = choose|j: int| 0 <= j < s0.len() && s0[j] == x;
            assert(s[j] == x);
            assert(s.contains(x));
        }
        lemma_add_new_map(d, s0, m);
        assert(s.map_values(f).drop_last() =~= s0.map_values(f));
        assert(s.map_values(f).last() == m[s.last()]);
        let d1 = add_new(d, s0);
        lemma_add_new_props(d, s0);
        assert(s.contains(s.last())) by {
            assert(s[s.len() - 1] == s.last());
        }
        assert(d1.map_values(f).contains(m[s.last()]) <==> d1.contains(s.last())) by {
            if d1.map_values(f).contains(m[s.last()]) {
                let j = choose|j: int| 0 <= j < d1.len() && d1.map_values(f)[j] == m[s.last()];
                assert(d1.contains(d1[j]) ==> m.dom().contains(d1[j])) by {
                    if d1.contains(d1[j]) {
                        assert(d.contains(d1[j]) || s0.contains(d1[j]));
                    }
                }
                assert(d1.contains(d1[j])) by {
                    assert(d1[j] == d1[j]);
                }
                assert(d1[j] == s.last());
            }
            if d1.contains(s.last()) {
                let j = choose|j: int| 0 <= j < d1.len() && d1[j] == s.last();
                assert(d1.map_values(f)[j] == m[s.last()]);
            }
        }
        if !d1.contains(s.last()) {
            assert(d1.push(s.last()).map_values(f) =~= d1.map_values(f).push(m[s.last()]));
        }
    }
}

proof fn lemma_subst_fixed(t: TermView, m: Map<TermView, TermView>)
    requires
        proper_map(m),
        forall|v: TermView| #[trigger] var_occurrences(t).contains(v) ==> m.dom().contains(v) && m[v] == v,
    ensures
        subst(t, m) == t,
    decreases t,
{
    match t {
        TermView::Variable(_, _) => {
            if !is_dont_care(t) {
                assert(var_occurrences(t)[0] == t);
                assert(var_occurrences(t).contains(t));
            }
        },
        TermView::Composite(_, args) => {
            assert(!m.dom().contains(t));
            lemma_args_var_occurrences_proper(args);
            assert forall|i: int| 0 <= i < args.len() implies subst(args[i], m) == args[i] by {
                assert forall|v: TermView| #[trigger] var_occurrences(args[i]).contains(v) implies m.dom().contains(v) && m[v] == v by {
                    assert(args_var_occurrences(args).contains(v));
                }
                lemma_subst_fixed(args[i], m);
            }
            assert(subst(t, m)->Composite_1 =~= args);
        },
        TermView::Atom(_) => {
            assert(!m.dom().contains(t));
        },
    }
}

/// The normal variables `~p0`, ..., `~p(k-1)`.
pub open spec fn normal_vars(k: nat) -> Seq<TermView> {
    Seq::new(k, |i: int| normal_var(i as nat))
}

/// After normalization, the distinct variables of a term are `~p0`, `~p1`, ...,
/// one for each distinct variable of the original term, in this order.
pub proof fn lemma_normalized_variables(t: TermView)
    ensures
        term_variables(subst(t, normal_map(term_variables(t)))) == normal_vars(term_variables(t).len()),
{
    let keys = term_variables(t);
    let m = normal_map(keys);
    let occ = var_occurrences(t);
    lemma_var_occurrences_proper(t);
    lemma_add_new_props(Seq::empty(), occ);
    assert(Seq::<TermView>::empty().no_duplicates());
    assert(proper_variable_keys(Seq::<TermView>::empty()));
    assert(proper_map(m)) by {
        assert forall|k: TermView| #[trigger] m.dom().contains(k) implies k is Variable && !is_dont_care(k) by {
            let j = choose|j: int| 0 <= j < keys.len() && keys[j] == k;
        }
    }
    assert forall|k: TermView| #[trigger] m.dom().contains(k) implies var_occurrences(m[k]) == seq![m[k]] by {
        lemma_normal_var_proper(keys.index_of(k) as nat);
    }
    assert forall|v: TermView| #[trigger] occ.contains(v) implies m.dom().contains(v) by {
        assert(keys.contains(v));
    }
    lemma_occurrences_after_subst(t, m);
    assert forall|x: TermView, y: TermView| m.dom().contains(x) && m.dom().contains(y) && #[trigger] m[x] == #[trigger] m[y] implies x == y by {
        lemma_normal_var_injective(keys.index_of(x) as nat, keys.index_of(y) as nat);
    }
    assert(Seq::<TermView>::empty().map_values(|v: TermView| m[v]) =~= Seq::<TermView>::empty());
    lemma_add_new_map(Seq::empty(), occ, m);
    assert(keys.map_values(|v: TermView| m[v]) =~= normal_vars(keys.len())) by {
        assert forall|i: int| 0 <= i < keys.len() implies keys.map_values(|v: TermView| m[v])[i] == normal_vars(keys.len())[i] by {
            assert(keys.contains(keys[i]));
            lemma_index_of_unique(keys, i);
        }
    }
}

/// Normalizing a normalized term changes nothing.
pub proof fn lemma_normalize_idempotent(t: TermView)
    ensures
        ({
            let n = subst(t, normal_map(term_variables(t)));
            subst(n, normal_map(term_variables(n))) == n
        }),
{
    let keys = term_variables(t);
    let n = subst(t, normal_map(keys));
    let k = keys.len();
    lemma_normalized_variables(t);
    let nv = normal_vars(k);
    let m2 = normal_map(nv);
    assert(nv.no_duplicates()) by {
        assert forall|a: int, b: int| 0 <= a < nv.len() && 0 <= b < nv.len() && a != b implies nv[a] != nv[b] by {
            if nv[a] == nv[b] {
                lemma_normal_var_injective(a as nat, b as nat);
            }
        }
    }
    assert(proper_map(m2)) by {
        assert forall|x: TermView| #[trigger] m2.dom().contains(x) implies x is Variable && !is_dont_care(x) by {
            let j = choose|j: int| 0 <= j < nv.len() && nv[j] == x;
            lemma_normal_var_proper(j as nat);
        }
    }
    lemma_add_new_props(Seq::empty(), var_occurrences(n));
    assert forall|v: TermView| #[trigger] var_occurrences(n).contains(v) implies m2.dom().contains(v) && m2[v] == v by {
        assert(term_variables(n).contains(v));
        let j = choose|j: int| 0 <= j < nv.len() && nv[j] == v;
        lemma_index_of_unique(nv, j);
    }
    lemma_subst_fixed(n, m2);
}


/// Whether `r` renames the variables of `t`: it sends each variable occurring
/// in `t`, and only variables other than `_`, to a variable other than `_`,
/// and no two variables to the same one.
pub open spec fn renames_variables(t: TermView, r: Map<TermView, TermView>) -> bool {
    &&& proper_map(r)
    &&& forall|v: TermView| #[trigger] var_occurrences(t).contains(v) ==> r.dom().contains(v)
    &&& forall|k: TermView| #[trigger] r.dom().contains(k) ==> var_occurrences(r[k]) == seq![r[k]]
    &&& forall|x: TermView, y: TermView| r.dom().contains(x) && r.dom().contains(y) && #[trigger] r[x] == #[trigger] r[y] ==> x == y
}

proof fn lemma_subst_compose(t: TermView, r: Map<TermView, TermView>, m2: Map<TermView, TermView>, m: Map<TermView, TermView>)
    requires
        proper_map(r),
        proper_map(m2),
        proper_map(m),
        forall|v: TermView| #[trigger] var_occurrences(t).contains(v) ==> r.dom().contains(v) && m.dom().contains(v) && m2.dom().contains(r[v]) && m2[r[v]] == m[v],
    ensures
        subst(subst(t, r), m2) == subst(t, m),
    decreases t,
{
    match t {
        TermView::Variable(_, _) => {
            if !is_dont_care(t) {
                assert(var_occurrences(t)[0] == t);
                assert(var_occurrences(t).contains(t));
            }
        },
        TermView::Composite(_, args) => {
            assert(!r.dom().contains(t));
            assert(!m.dom().contains(t));
            let st = subst(t, r);
            assert(!m2.dom().contains(st));
            lemma_args_var_occurrences_proper(args);
            assert forall|i: int| 0 <= i < args.len() implies subst(subst(args[i], r), m2) == subst(args[i], m) by {
                assert forall|v: TermView| #[trigger] var_occurrences(args[i]).contains(v) implies r.dom().contains(v) && m.dom().contains(v) && m2.dom().contains(r[v]) && m2[r[v]] == m[v] by {
                    assert(args_var_occurrences(args).contains(v));
                }
                lemma_subst_compose(args[i], r, m2, m);
            }
            assert(subst(st, m2)->Composite_1 =~= subst(t, m)->Composite_1);
        },
        TermView::Atom(_) => {
            assert(!r.dom().contains(t));
            assert(!m.dom().contains(t));
            assert(!m2.dom().contains(t));
        },
    }
}

/// Normalizing a term whose variables were renamed gives what normalizing the
/// term gives: normalization forgets the names of the variables and keeps only
/// where the same variable occurs again.
pub proof fn lemma_normalize_forgets_names(t: TermView, r: Map<TermView, TermView>)
    requires
        renames_variables(t, r),
    ensures
        ({
            let u = subst(t, r);
            subst(u, normal_map(term_variables(u))) == subst(t, normal_map(term_variables(t)))
        }),
{
    let occ = var_occurrences(t);
    let keys = term_variables(t);
    let u = subst(t, r);
    let f = |v: TermView| r[v];
    lemma_var_occurrences_proper(t);
    lemma_occurrences_after_subst(t, r);
    assert(Seq::<TermView>::empty().map_values(f) =~= Seq::<TermView>::empty());
    lemma_add_new_map(Seq::empty(), occ, r);
    let keys2 = term_variables(u);
    assert(keys2 == keys.map_values(f));
    lemma_add_new_props(Seq::empty(), occ);
    assert(Seq::<TermView>::empty().no_duplicates());
    let m = normal_map(keys);
    let m2 = normal_map(keys2);
    assert(keys2.no_duplicates()) by {
        assert forall|a: int, b: int| 0 <= a < keys2.len() && 0 <= b < keys2.len() && a != b implies keys2[a] != keys2[b] by {
            assert(keys.contains(keys[a]));
            assert(keys.contains(keys[b]));
            assert(occ.contains(keys[a]));
            assert(occ.contains(keys[b]));
        }
    }
    assert(proper_map(m)) by {
        assert forall|k: TermView| #[trigger] m.dom().contains(k) implies k is Variable && !is_dont_care(k) by {
            let j = choose|j: int| 0 <= j < keys.len() && keys[j] == k;
            assert(occ.contains(k));
        }
    }
    assert(proper_map(m2)) by {
        assert forall|k: TermView| #[trigger] m2.dom().contains(k) implies k is Variable && !is_dont_care(k) by {
            let j = choose|j: int| 0 <= j < keys2.len() && keys2[j] == k;
            assert(keys.contains(keys[j]));
            assert(occ.contains(keys[j]));
            assert(r.dom().contains(keys[j]));
            assert(var_occurrences(r[keys[j]]) == seq![r[keys[j]]]);
            assert(k == r[keys[j]]);
            lemma_var_occurrences_proper(k);
            assert(var_occurrences(k)[0] == k);
        }
    }
    assert forall|v: TermView| #[trigger] occ.contains(v) implies r.dom().contains(v) && m.dom().contains(v) && m2.dom().contains(r[v]) && m2[r[v]] == m[v] by {
        assert(keys.contains(v));
        let j = keys.index_of(v);
        assert(0 <= j < keys.len() && keys[j] == v);
        lemma_index_of_unique(keys, j);
        assert(keys2[j] == r[v]);
        assert(keys2.contains(r[v]));
        lemma_index_of_unique(keys2, j);
    }
    lemma_subst_compose(t, r, m2, m);
}

/// The terms of `s` that are among `others` (where `inside`) or not among
/// them (where not), in order.
pub open spec fn kept_terms(s: Seq<TermView>, others: Seq<TermView>, inside: bool) -> Seq<TermView>
    decreases s.len(),
{
    if s.len() == 0 {
        Seq::empty()
    } else {
        let p = kept_terms(s.drop_last(), others, inside);
        if others.contains(s.last()) == inside {
            p.push(s.last())
        } else {
            p
        }
    }
}

fn kept_terms_exec(s: &Vec<AtomicTerm>, others: &Vec<AtomicTerm>, inside: bool) -> (r: Vec<AtomicTerm>)
    ensures
        crate::expression::terms_view(r@) == kept_terms(
            crate::expression::terms_view(s@),
            crate::expression::terms_view(others@),
            inside,
        ),
{
    let ghost sv = crate::expression::terms_view(s@);
    let ghost ov = crate::expression::terms_view(others@);
    let mut r: Vec<AtomicTerm> = Vec::new();
    let mut i: usize = 0;
    assert(sv.subrange(0, 0) =~= Seq::<TermView>::empty());
    assert(crate::expression::terms_view(r@) =~= Seq::<TermView>::empty());
    while i < s.len()
        invariant
            i <= s@.len(),
            sv == crate::expression::terms_view(s@),
            ov == crate::expression::terms_view(others@),
            crate::expression::terms_view(r@) == kept_terms(sv.subrange(0, i as int), ov, inside),
        decreases s@.len() - i,
    {
        proof {
            assert(sv.subrange(0, i + 1).drop_last() =~= sv.subrange(0, i as int));
            assert(sv.subrange(0, i + 1).last() == s@[i as int]@);
        }
        if contains_term(others, &s[i]) == inside {
            let ghost before = crate::expression::terms_view(r@);
            r.push(s[i].duplicate());
            assert(crate::expression::terms_view(r@) =~= before.push(s@[i as int]@));
        }
        i += 1;
    }
    assert(sv.subrange(0, sv.len() as int) =~= sv);
    r
}

/// Whether `r` holds, sorted in the order of terms and each once, the terms of
/// `s` that are among `others` (where `inside`) or not among them (where not).
pub open spec fn sorted_part(r: Seq<TermView>, s: Seq<TermView>, others: Seq<TermView>, inside: bool) -> bool {
    &&& terms_sorted(r)
    &&& terms_distinct(r)
    &&& forall|x: TermView| #[trigger] r.contains(x) <==> s.contains(x) && others.contains(x) == inside
}

proof fn lemma_kept_terms_contains(s: Seq<TermView>, others: Seq<TermView>, inside: bool)
    ensures
        forall|x: TermView| #[trigger] kept_terms(s, others, inside).contains(x) <==> s.contains(x) && others.contains(x) == inside,
    decreases s.len(),
{
    if s.len() > 0 {
        lemma_kept_terms_contains(s.drop_last(), others, inside);
        assert(s =~= s.drop_last().push(s.last()));
        assert forall|x: TermView| #[trigger] kept_terms(s, others, inside).contains(x) <==> s.contains(x) && others.contains(x) == inside by {
            vstd::seq_lib::lemma_seq_contains_after_push(s.drop_last(), s.last(), x);
            vstd::seq_lib::lemma_seq_contains_after_push(kept_terms(s.drop_last(), others, inside), s.last(), x);
        }
    }
}

fn sorted_kept(s: &Vec<AtomicTerm>, others: &Vec<AtomicTerm>, inside: bool) -> (r: Vec<AtomicTerm>)
    ensures
        sorted_part(crate::expression::terms_view(r@), crate::expression::terms_view(s@), crate::expression::terms_view(others@), inside),
{
    let kept = kept_terms_exec(s, others, inside);
    proof {
        lemma_kept_terms_contains(crate::expression::terms_view(s@), crate::expression::terms_view(others@), inside);
    }
    sorted_distinct(&kept)
}

impl AtomicTerm {
    /// The variables of this term and of `other`, as three lists: those they
    /// share, those of this term only, and those of `other` only, each sorted
    /// in the order of terms, every variable once.
    pub fn variable_diff(&self, other: &AtomicTerm) -> (r: (Vec<AtomicTerm>, Vec<AtomicTerm>, Vec<AtomicTerm>))
        ensures
            sorted_part(crate::expression::terms_view(r.0@), term_variables(self@), term_variables(other@), true),
            sorted_part(crate::expression::terms_view(r.1@), term_variables(self@), term_variables(other@), false),
            sorted_part(crate::expression::terms_view(r.2@), term_variables(other@), term_variables(self@), false),
    {
        let vars1 = self.variables();
        let vars2 = other.variables();
        (sorted_kept(&vars1, &vars2, true), sorted_kept(&vars1, &vars2, false), sorted_kept(&vars2, &vars1, false))
    }
}

/// Whether a term has no variables: an atom is ground, a variable is not, and
/// a composite term is ground when all its arguments are.
pub open spec fn is_ground(t: TermView) -> bool
    decreases t,
{
    match t {
        TermView::Atom(_) => true,
        TermView::Variable(_, _) => false,
        TermView::Composite(_, args) => all_ground(args),
    }
}

/// Whether all of the terms are ground.
pub open spec fn all_ground(ts: Seq<TermView>) -> bool
    decreases ts,
{
    ts.len() == 0 || (all_ground(ts.subrange(0, ts.len() - 1)) && is_ground(ts[ts.len() - 1]))
}

impl AtomicTerm {
    /// Whether the term has no variables.
    pub fn is_groundterm(&self) -> (r: bool)
        ensures
            r == is_ground(self@),
        decreases self,
    {
        match self {
            AtomicTerm::Atom(_) => true,
            AtomicTerm::Variable(_) => false,
            AtomicTerm::Composite(c) => {
                let ghost args = self@->Composite_1;
                let mut i: usize = 0;
                assert(args.subrange(0, 0) =~= Seq::<TermView>::empty());
                while i < c.arguments.len()
                    invariant
                        i <= c.arguments@.len(),
                        *self == AtomicTerm::Composite(*c),
                        args == self@->Composite_1,
                        args.len() == c.arguments@.len(),
                        forall|j: int| 0 <= j < args.len() ==> args[j] == c.arguments@[j]@,
                        all_ground(args.subrange(0, i as int)),
                    decreases c.arguments@.len() - i,
                {
                    proof {
                        assert(decreases_to!(*self => (*self)->Composite_0));
                        assert(decreases_to!((*self)->Composite_0 => (*self)->Composite_0.arguments));
                        vstd::std_specs::vec::axiom_vec_index_decreases(c.arguments, i as int);
                        assert(args.subrange(0, i + 1).subrange(0, i as int) =~= args.subrange(0, i as int));
                    }
                    if !c.arguments[i].is_groundterm() {
                        proof {
                            if all_ground(args) {
                                lemma_all_ground_index(args, i as int);
                            }
                        }
                        return false;
                    }
                    i += 1;
                }
                assert(args.subrange(0, args.len() as int) =~= args);
                true
            },
        }
    }
}

proof fn lemma_all_ground_index(ts: Seq<TermView>, i: int)
    requires
        all_ground(ts),
        0 <= i < ts.len(),
    ensures
        is_ground(ts[i]),
    decreases ts.len(),
{
    if i < ts.len() - 1 {
        let front = ts.subrange(0, ts.len() - 1);
        lemma_all_ground_index(front, i);
        assert(front[i] == ts[i]);
    }
}

/// The fragments that variable `b` has beyond those of variable `a`: `None`
/// where the roots differ or the fragments of `a` do not begin those of `b`.
pub open spec fn fragments_beyond(a: TermView, b: TermView) -> Option<Seq<Seq<char>>> {
    match (a, b) {
        (TermView::Variable(ra, fa), TermView::Variable(rb, fb)) => if ra == rb && fa.len() <= fb.len()
            && fb.subrange(0, fa.len() as int) == fa {
            Some(fb.subrange(fa.len() as int, fb.len() as int))
        } else {
            None
        },
        _ => None,
    }
}

impl AtomicTerm {
    /// The fragments that the variable `b` has beyond those of the variable
    /// `a`, as for `x.src` and `x.src.id`: `None` where their roots differ or
    /// `b` does not continue the fragments of `a`.
    pub fn fragments_diff(a: &AtomicTerm, b: &AtomicTerm) -> (r: Option<Vec<String>>)
        requires
            a@ is Variable,
            b@ is Variable,
        ensures
            match r {
                Some(v) => fragments_beyond(a@, b@) == Some(texts_view(v@)),
                None => fragments_beyond(a@, b@) is None,
            },
    {
        match (a, b) {
            (AtomicTerm::Variable(av), AtomicTerm::Variable(bv)) => {
                let ghost fa = texts_view(av.fragments@);
                let ghost fb = texts_view(bv.fragments@);
                if !(av.root == bv.root) || av.fragments.len() > bv.fragments.len() {
                    return None;
                }
                let mut i: usize = 0;
                while i < av.fragments.len()
                    invariant
                        i <= av.fragments@.len(),
                        av.fragments@.len() <= bv.fragments@.len(),
                        fa == texts_view(av.fragments@),
                        fb == texts_view(bv.fragments@),
                        forall|j: int| 0 <= j < i ==> fa[j] == fb[j],
                        a@ == TermView::Variable(av.root@, fa),
                        b@ == TermView::Variable(bv.root@, fb),
                        av.root@ == bv.root@,
                    decreases av.fragments@.len() - i,
                {
                    if !(av.fragments[i] == bv.fragments[i]) {
                        proof {
                            assert(fa[i as int] == av.fragments@[i as int]@);
                            assert(fb[i as int] == bv.fragments@[i as int]@);
                            assert(fb.subrange(0, fa.len() as int)[i as int] != fa[i as int]);
                        }
                        return None;
                    }
                    i += 1;
                }
                assert(fb.subrange(0, fa.len() as int) =~= fa);
                let mut rest: Vec<String> = Vec::new();
                let mut k: usize = av.fragments.len();
                while k < bv.fragments.len()
                    invariant
                        av.fragments@.len() <= k <= bv.fragments@.len(),
                        fa == texts_view(av.fragments@),
                        fb == texts_view(bv.fragments@),
                        texts_view(rest@) == fb.subrange(fa.len() as int, k as int),
                    decreases bv.fragments@.len() - k,
                {
                    let ghost before = texts_view(rest@);
                    rest.push(bv.fragments[k].clone());
                    assert(fb[k as int] == bv.fragments@[k as int]@);
                    assert(texts_view(rest@) =~= before.push(fb[k as int]));
                    assert(texts_view(rest@) =~= fb.subrange(fa.len() as int, k + 1));
                    k += 1;
                }
                Some(rest)
            },
            _ => None,
        }
    }

    /// Two lists of terms split into those only in the first, those in both
    /// and those only in the second, each part sorted in the order of terms
    /// with every term once.
    pub fn terms_intersection(a: &Vec<AtomicTerm>, b: &Vec<AtomicTerm>) -> (r: (Vec<AtomicTerm>, Vec<AtomicTerm>, Vec<AtomicTerm>))
        ensures
            sorted_part(crate::expression::terms_view(r.0@), crate::expression::terms_view(a@), crate::expression::terms_view(b@), false),
            sorted_part(crate::expression::terms_view(r.1@), crate::expression::terms_view(a@), crate::expression::terms_view(b@), true),
            sorted_part(crate::expression::terms_view(r.2@), crate::expression::terms_view(b@), crate::expression::terms_view(a@), false),
    {
        (sorted_kept(a, b, false), sorted_kept(a, b, true), sorted_kept(b, a, false))
    }
}

} // verus!
