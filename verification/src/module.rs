//! The meta information of a Formula module: its types and its rules.
use crate::expression::ConstraintView;
use crate::rule::Rule;
use crate::term::TermView;
use crate::type_system::{is_subtype, renamed_type, type_unique_form, RawType, TypeView, FormulaTypeEnum};
use petgraph::algo::toposort;
use petgraph::graph::{DiGraph, NodeIndex};
use crate::replacement::{constraints_renamed, terms_renamed};
use vstd::prelude::*;
use vstd::string::StringExecFns;

verus! {

/// Whether `order` lists the nodes `0 .. n` once each, every edge's source
/// before its target.
pub open spec fn is_topological_order(order: Seq<usize>, n: nat, edges: Seq<(usize, usize)>) -> bool {
    &&& order.len() == n
    &&& order.no_duplicates()
    &&& forall|i: int| 0 <= i < order.len() ==> (#[trigger] order[i]) < n
    &&& forall|e: int| 0 <= e < edges.len() ==> #[trigger] ordered_pair(order, edges[e].0, edges[e].1)
}

/// Whether `a` occurs in `order` before `b`.
pub open spec fn ordered_pair(order: Seq<usize>, a: usize, b: usize) -> bool {
    exists|i: int, j: int| 0 <= i < j < order.len() && order[i] == a && order[j] == b
}

/// What petgraph's `toposort` gives for the graph whose nodes `0 .. n` and
/// whose edges, in the order listed, were added one by one: the order of the
/// nodes it finds, or `None` where the graph has a cycle.
pub uninterp spec fn petgraph_toposort(n: nat, edges: Seq<(usize, usize)>) -> Option<Seq<usize>>;

/// `toposort` from petgraph on the graph with nodes `0 .. n` and the given edges:
/// the nodes in an order where each node comes before its successors, or `None`
/// when the graph has a cycle, in which case no such order exists.
#[verifier::external_body]
pub(crate) fn topological_order(n: usize, edges: &Vec<(usize, usize)>) -> (r: Option<Vec<usize>>)
    requires
        forall|e: int| 0 <= e < edges@.len() ==> (#[trigger] edges@[e]).0 < n && edges@[e].1 < n,
    ensures
        match r {
            Some(order) => petgraph_toposort(n as nat, edges@) == Some(order@) && is_topological_order(order@, n as nat, edges@),
            None => petgraph_toposort(n as nat, edges@) is None && !exists|order: Seq<usize>| is_topological_order(order, n as nat, edges@),
        },
{
    let mut graph: DiGraph<(), ()> = DiGraph::new();
    let nodes: Vec<NodeIndex> = (0..n).map(|_| graph.add_node(())).collect();
    for (a, b) in edges.iter() {
        graph.add_edge(nodes[*a], nodes[*b], ());
    }
    match toposort(&graph, None) {
        Ok(order) => Some(order.iter().map(|x| x.index()).collect()),
        Err(_) => None,
    }
}

/// The names and types of a module, and its rules.
pub struct MetaInfo {
    type_map: Vec<(String, RawType)>,
    rules: Vec<Rule>,
}

pub open spec fn names_view(tm: Seq<(String, RawType)>) -> Seq<Seq<char>> {
    tm.map_values(|e: (String, RawType)| e.0@)
}

pub open spec fn types_view(tm: Seq<(String, RawType)>) -> Seq<TypeView> {
    tm.map_values(|e: (String, RawType)| e.1@)
}

/// The composite types among `types`, in order.
pub open spec fn composite_types_of(types: Seq<TypeView>) -> Seq<TypeView> {
    types.filter(|t: TypeView| t is Composite)
}

/// The pairs `(x, y)` of positions in `cts` where `cts[x]` is a subtype of
/// `cts[y]`, for every `x` before `a` and, for `x == a`, every `y` before `b`,
/// row by row.
pub open spec fn subtype_pairs(cts: Seq<TypeView>, a: int, b: int) -> Seq<(usize, usize)>
    decreases a, b,
{
    if b > 0 {
        let prev = subtype_pairs(cts, a, b - 1);
        if is_subtype(cts[a], cts[b - 1]) {
            prev.push((a as usize, (b - 1) as usize))
        } else {
            prev
        }
    } else if a > 0 {
        subtype_pairs(cts, a - 1, cts.len() as int)
    } else {
        Seq::empty()
    }
}

/// The edges `(i, j)` between composite types where type `i` is an argument type
/// of type `j`, directly or further down.
pub open spec fn subtype_edge(cts: Seq<TypeView>, e: (usize, usize)) -> bool {
    e.0 < cts.len() && e.1 < cts.len() && is_subtype(cts[e.0 as int], cts[e.1 as int])
}

impl MetaInfo {
    #[verifier::type_invariant]
    closed spec fn distinct_names(self) -> bool {
        names_view(self.type_map@).no_duplicates()
    }

    /// The names of the types, in order.
    pub closed spec fn names(&self) -> Seq<Seq<char>> {
        names_view(self.type_map@)
    }

    /// The types, in the order of their names.
    pub closed spec fn types(&self) -> Seq<TypeView> {
        types_view(self.type_map@)
    }

    /// The number of rules.
    pub closed spec fn rule_count(&self) -> nat {
        self.rules@.len()
    }

    /// Meta information with the given named types, whose names are distinct, and rules.
    pub fn new(type_map: Vec<(String, RawType)>, rules: Vec<Rule>) -> (r: MetaInfo)
        requires
            names_view(type_map@).no_duplicates(),
        ensures
            r.names() == names_view(type_map@),
            r.types() == types_view(type_map@),
            r.rule_count() == rules@.len(),
            r.rule_list() == rules_view(rules@),
    {
        MetaInfo { type_map, rules }
    }

    /// Add a rule.
    pub fn add_rule(&mut self, rule: Rule)
        ensures
            final(self).names() == old(self).names(),
            final(self).types() == old(self).types(),
            final(self).rule_count() == old(self).rule_count() + 1,
            final(self).rule_list() == old(self).rule_list().push(rule_view(rule)),
    {
        proof {
            use_type_invariant(&*self);
        }
        let mut rules = Vec::new();
        std::mem::swap(&mut rules, &mut self.rules);
        rules.push(rule);
        self.rules = rules;
    }

    /// The type of the given name, if there is one.
    pub fn get_type_by_name(&self, name: &str) -> (r: Option<&RawType>)
        ensures
            match r {
                Some(t) => exists|i: int| 0 <= i < self.names().len() && self.names()[i] == name@ && self.types()[i] == t@,
                None => !self.names().contains(name@),
            },
            match r {
                Some(t) => type_named(self.names(), self.types(), name@) == Some(t@),
                None => type_named(self.names(), self.types(), name@) is None,
            },
    {
        proof {
            use_type_invariant(self);
        }
        let wanted = String::from_str(name);
        let mut i: usize = 0;
        while i < self.type_map.len()
            invariant
                i <= self.type_map@.len(),
                wanted@ == name@,
                names_view(self.type_map@).no_duplicates(),
                forall|j: int| 0 <= j < i ==> self.type_map@[j].0@ != name@,
            decreases self.type_map@.len() - i,
        {
            if self.type_map[i].0 == wanted {
                proof {
                    let nv = self.names();
                    assert(nv[i as int] == name@);
                    assert(self.types()[i as int] == self.type_map@[i as int].1@);
                    assert(nv.contains(name@));
                    let k = nv.index_of(name@);
                    assert(0 <= k < nv.len() && nv[k] == name@);
                    assert(k == i);
                }
                return Some(&self.type_map[i].1);
            }
            i += 1;
        }
        proof {
            if self.names().contains(name@) {
                let j = choose|j: int| 0 <= j < self.names().len() && self.names()[j] == name@;
                assert(self.type_map@[j].0@ == name@);
            }
        }
        None
    }

    /// Copies of the composite types, in order.
    pub fn composite_types(&self) -> (r: Vec<RawType>)
        ensures
            r@.map_values(|t: RawType| t@) == composite_types_of(self.types()),
    {
        let ghost tv = self.types();
        let mut r: Vec<RawType> = Vec::new();
        let mut i: usize = 0;
        proof {
            reveal(Seq::filter);
            assert(tv.subrange(0, 0) =~= Seq::<TypeView>::empty());
            assert(r@.map_values(|t: RawType| t@) =~= Seq::<TypeView>::empty());
        }
        while i < self.type_map.len()
            invariant
                i <= self.type_map@.len(),
                tv == self.types(),
                r@.map_values(|t: RawType| t@) == composite_types_of(tv.subrange(0, i as int)),
            decreases self.type_map@.len() - i,
        {
            let ghost prev = r@;
            proof {
                reveal(Seq::filter);
                let s1 = tv.subrange(0, i as int + 1);
                assert(s1.drop_last() =~= tv.subrange(0, i as int));
                assert(s1.last() == self.type_map@[i as int].1@);
            }
            match &self.type_map[i].1 {
                RawType::Type(FormulaTypeEnum::CompositeType(_)) => {
                    r.push(self.type_map[i].1.duplicate());
                    assert(r@.map_values(|t: RawType| t@) =~= prev.map_values(|t: RawType| t@).push(self.type_map@[i as int].1@));
                },
                _ => {},
            }
            i += 1;
        }
        assert(tv.subrange(0, tv.len() as int) =~= tv);
        r
    }

    /// The composite types ordered so that a type comes after the types of its
    /// arguments, found by petgraph's topological sort on the graph whose nodes
    /// are the composite types in the order of the type map. Such an order
    /// always exists, since a type nests less deeply than the types it is an
    /// argument type of.
    pub fn sorted_composite_types(&self) -> (r: Vec<RawType>)
        ensures
            exists|order: Seq<usize>|
                is_topological_order(order, composite_types_of(self.types()).len(), Seq::empty())
                && r@.map_values(|t: RawType| t@) == order.map_values(|i: usize| composite_types_of(self.types())[i as int])
                && forall|a: int, b: int| 0 <= a < r@.len() && 0 <= b < r@.len() && is_subtype(r@[a]@, r@[b]@) ==> a < b,
            petgraph_toposort(
                composite_types_of(self.types()).len(),
                subtype_pairs(composite_types_of(self.types()), composite_types_of(self.types()).len() as int, 0),
            ) matches Some(order) && r@.map_values(|t: RawType| t@) == order.map_values(|i: usize| composite_types_of(self.types())[i as int]),
    {
        let cts = self.composite_types();
        let ghost cv = cts@.map_values(|t: RawType| t@);
        let mut edges: Vec<(usize, usize)> = Vec::new();
        let mut a: usize = 0;
        while a < cts.len()
            invariant
                a <= cts@.len(),
                forall|e: int| 0 <= e < edges@.len() ==> (#[trigger] edges@[e]).0 < cts@.len() && edges@[e].1 < cts@.len(),
                forall|e: int| 0 <= e < edges@.len() ==> subtype_edge(cv, #[trigger] edges@[e]),
                forall|x: usize, y: usize| x < a && y < cts@.len() && #[trigger] is_subtype(cv[x as int], cv[y as int]) ==> edges@.contains((x, y)),
                cv == cts@.map_values(|t: RawType| t@),
                edges@ == subtype_pairs(cv, a as int, 0),
            decreases cts@.len() - a,
        {
            let mut b: usize = 0;
            while b < cts.len()
                invariant
                    a < cts@.len(),
                    b <= cts@.len(),
                    forall|e: int| 0 <= e < edges@.len() ==> (#[trigger] edges@[e]).0 < cts@.len() && edges@[e].1 < cts@.len(),
                    forall|e: int| 0 <= e < edges@.len() ==> subtype_edge(cv, #[trigger] edges@[e]),
                    forall|x: usize, y: usize| x < a && y < cts@.len() && #[trigger] is_subtype(cv[x as int], cv[y as int]) ==> edges@.contains((x, y)),
                    forall|y: usize| y < b && #[trigger] is_subtype(cv[a as int], cv[y as int]) ==> edges@.contains((a, y)),
                    cv == cts@.map_values(|t: RawType| t@),
                    edges@ == subtype_pairs(cv, a as int, b as int),
                decreases cts@.len() - b,
            {
                if cts[a].is_subtype_of(&cts[b]) {
                    let ghost prev = edges@;
                    edges.push((a, b));
                    proof {
                        assert(edges@[edges@.len() - 1] == (a, b));
                        assert forall|x: usize, y: usize| x < a && y < cts@.len() && #[trigger] is_subtype(cv[x as int], cv[y as int]) implies edges@.contains((x, y)) by {
                            assert(prev.contains((x, y)));
                            let k = choose|k: int| 0 <= k < prev.len() && prev[k] == (x, y);
                            assert(edges@[k] == (x, y));
                        }
                        assert forall|y: usize| y <= b && #[trigger] is_subtype(cv[a as int], cv[y as int]) implies edges@.contains((a, y)) by {
                            if y < b {
                                assert(prev.contains((a, y)));
                                let k = choose|k: int| 0 <= k < prev.len() && prev[k] == (a, y);
                                assert(edges@[k] == (a, y));
                            } else {
                                assert(edges@[edges@.len() - 1] == (a, y));
                            }
                        }
                    }
                }
                b += 1;
            }
            a += 1;
        }
        proof {
            lemma_subtype_order_exists(cv, edges@);
        }
        let order = topological_order(cts.len(), &edges).unwrap();
        let mut r: Vec<RawType> = Vec::new();
        let mut k: usize = 0;
        while k < order.len()
            invariant
                k <= order@.len(),
                is_topological_order(order@, cts@.len() as nat, edges@),
                r@.len() == k,
                forall|j: int| 0 <= j < k ==> (#[trigger] r@[j])@ == cv[order@[j] as int],
                cv == cts@.map_values(|t: RawType| t@),
            decreases order@.len() - k,
        {
            r.push(cts[order[k]].duplicate());
            k += 1;
        }
        proof {
            assert(is_topological_order(order@, cv.len(), Seq::empty()));
            assert(r@.map_values(|t: RawType| t@) =~= order@.map_values(|i: usize| cv[i as int]));
            assert forall|x: int, y: int| 0 <= x < r@.len() && 0 <= y < r@.len() && is_subtype(r@[x]@, r@[y]@) implies x < y by {
                let e = (order@[x], order@[y]);
                assert(subtype_edge(cv, e));
                assert(edges@.contains(e));
                let ei = choose|ei: int| 0 <= ei < edges@.len() && edges@[ei] == e;
                assert(ordered_pair(order@, edges@[ei].0, edges@[ei].1));
                let (i, j) = choose|i: int, j: int| 0 <= i < j < order@.len() && order@[i] == edges@[ei].0 && order@[j] == edges@[ei].1;
                assert(order@[i] == order@[x]);
                assert(order@[j] == order@[y]);
            }
        }
        r
    }
}


/// The named types with `(name, t)` put in: replacing the type of that name, or
/// added at the end.
pub open spec fn put_type(names: Seq<Seq<char>>, types: Seq<TypeView>, name: Seq<char>, t: TypeView) -> (Seq<Seq<char>>, Seq<TypeView>) {
    if names.contains(name) {
        (names, types.update(names.index_of(name), t))
    } else {
        (names.push(name), types.push(t))
    }
}

pub fn put_type_exec(tm: &mut Vec<(String, RawType)>, name: String, t: RawType)
    requires
        names_view(old(tm)@).no_duplicates(),
    ensures
        names_view(final(tm)@).no_duplicates(),
        (names_view(final(tm)@), types_view(final(tm)@)) == put_type(names_view(old(tm)@), types_view(old(tm)@), name@, t@),
{
    let ghost nv = names_view(tm@);
    let mut i: usize = 0;
    while i < tm.len()
        invariant
            i <= tm@.len(),
            tm@ == old(tm)@,
            nv == names_view(tm@),
            nv.no_duplicates(),
            forall|j: int| 0 <= j < i ==> tm@[j].0@ != name@,
        decreases tm@.len() - i,
    {
        if tm[i].0 == name {
            proof {
                assert(nv[i as int] == name@);
                assert(nv.contains(name@));
                let k = nv.index_of(name@);
                assert(0 <= k < nv.len() && nv[k] == name@);
                assert(k == i);
            }
            let ghost old_tm = tm@;
            tm.set(i, (name, t));
            proof {
                assert(names_view(tm@) =~= nv);
                assert(types_view(tm@) =~= types_view(old_tm).update(i as int, t@));
            }
            return;
        }
        i += 1;
    }
    proof {
        if nv.contains(name@) {
            let j = choose|j: int| 0 <= j < nv.len() && nv[j] == name@;
            assert(tm@[j].0@ == name@);
        }
    }
    let ghost old_tm = tm@;
    tm.push((name, t));
    proof {
        assert(names_view(tm@) =~= nv.push(name@));
        assert(types_view(tm@) =~= types_view(old_tm).push(t@));
    }
}

/// A rule as its head terms and body constraints.
pub open spec fn rule_view(r: Rule) -> (Seq<TermView>, Seq<ConstraintView>) {
    (r.head_view(), r.body_view())
}

pub open spec fn rules_view(rs: Seq<Rule>) -> Seq<(Seq<TermView>, Seq<ConstraintView>)> {
    rs.map_values(|r: Rule| rule_view(r))
}

/// The rules among `rs` that have no head, when `headless`, or that have one,
/// in order.
pub open spec fn rules_with_head(rs: Seq<(Seq<TermView>, Seq<ConstraintView>)>, headless: bool) -> Seq<(Seq<TermView>, Seq<ConstraintView>)>
    decreases rs.len(),
{
    if rs.len() == 0 {
        Seq::empty()
    } else {
        let rest = rules_with_head(rs.drop_last(), headless);
        if (rs.last().0.len() == 0) == headless {
            rest.push(rs.last())
        } else {
            rest
        }
    }
}

/// The type of the name `n` among the named types, if there is one.
pub open spec fn type_named(names: Seq<Seq<char>>, types: Seq<TypeView>, n: Seq<char>) -> Option<TypeView> {
    if names.contains(n) {
        Some(types[names.index_of(n)])
    } else {
        None
    }
}

/// The named types with each of `(ns[k], ts[k])` added, in order, whose name
/// is not taken yet.
pub open spec fn put_absent(names: Seq<Seq<char>>, types: Seq<TypeView>, ns: Seq<Seq<char>>, ts: Seq<TypeView>) -> (Seq<Seq<char>>, Seq<TypeView>)
    decreases ns.len(),
{
    if ns.len() == 0 {
        (names, types)
    } else {
        let p = put_absent(names, types, ns.drop_last(), ts.drop_last());
        if p.0.contains(ns.last()) {
            p
        } else {
            (p.0.push(ns.last()), p.1.push(ts.last()))
        }
    }
}

/// The rules among `rs` that are not among `existing`, in order.
pub open spec fn rules_not_in(
    rs: Seq<(Seq<TermView>, Seq<ConstraintView>)>,
    existing: Seq<(Seq<TermView>, Seq<ConstraintView>)>,
) -> Seq<(Seq<TermView>, Seq<ConstraintView>)>
    decreases rs.len(),
{
    if rs.len() == 0 {
        Seq::empty()
    } else {
        let p = rules_not_in(rs.drop_last(), existing);
        if existing.contains(rs.last()) {
            p
        } else {
            p.push(rs.last())
        }
    }
}

/// Whether some name of `tm` is `name`.
fn find_name(tm: &Vec<(String, RawType)>, name: &str) -> (r: Option<usize>)
    ensures
        match r {
            Some(i) => i < tm@.len() && tm@[i as int].0@ == name@,
            None => !names_view(tm@).contains(name@),
        },
{
    let wanted = String::from_str(name);
    let mut i: usize = 0;
    while i < tm.len()
        invariant
            i <= tm@.len(),
            wanted@ == name@,
            forall|j: int| 0 <= j < i ==> tm@[j].0@ != name@,
        decreases tm@.len() - i,
    {
        if tm[i].0 == wanted {
            return Some(i);
        }
        i += 1;
    }
    proof {
        if names_view(tm@).contains(name@) {
            let j = choose|j: int| 0 <= j < tm@.len() && names_view(tm@)[j] == name@;
            assert(tm@[j].0@ == name@);
        }
    }
    None
}

/// The types with `scope` added.
pub open spec fn renamed_types(ts: Seq<TypeView>, scope: Seq<char>) -> Seq<TypeView> {
    ts.map_values(|t: TypeView| renamed_type(t, scope))
}

/// The named types with each of `(ns[k], ts[k])` put in, in order.
pub open spec fn put_all(names: Seq<Seq<char>>, types: Seq<TypeView>, ns: Seq<Seq<char>>, ts: Seq<TypeView>) -> (Seq<Seq<char>>, Seq<TypeView>)
    decreases ns.len(),
{
    if ns.len() == 0 {
        (names, types)
    } else {
        let p = put_all(names, types, ns.drop_last(), ts.drop_last());
        put_type(p.0, p.1, ns.last(), ts.last())
    }
}

impl MetaInfo {
    /// The rules, in order.
    pub closed spec fn rule_list(&self) -> Seq<(Seq<TermView>, Seq<ConstraintView>)> {
        rules_view(self.rules@)
    }

    fn copy_rules(&self) -> (r: Vec<Rule>)
        ensures
            rules_view(r@) == self.rule_list(),
    {
        let mut r: Vec<Rule> = Vec::new();
        let mut i: usize = 0;
        while i < self.rules.len()
            invariant
                i <= self.rules@.len(),
                r@.len() == i,
                forall|j: int| 0 <= j < i ==> rule_view(#[trigger] r@[j]) == rule_view(self.rules@[j]),
            decreases self.rules@.len() - i,
        {
            r.push(self.rules[i].duplicate());
            i += 1;
        }
        assert(rules_view(r@) =~= rules_view(self.rules@));
        r
    }

    fn copy_types(&self) -> (r: Vec<(String, RawType)>)
        ensures
            names_view(r@) == self.names(),
            types_view(r@) == self.types(),
            names_view(r@).no_duplicates(),
    {
        proof {
            use_type_invariant(self);
        }
        let mut r: Vec<(String, RawType)> = Vec::new();
        let mut i: usize = 0;
        while i < self.type_map.len()
            invariant
                i <= self.type_map@.len(),
                r@.len() == i,
                forall|j: int| 0 <= j < i ==> (#[trigger] r@[j]).0@ == self.type_map@[j].0@ && r@[j].1@ == self.type_map@[j].1@,
            decreases self.type_map@.len() - i,
        {
            r.push((self.type_map[i].0.clone(), self.type_map[i].1.duplicate()));
            i += 1;
        }
        assert(names_view(r@) =~= self.names());
        assert(types_view(r@) =~= self.types());
        r
    }

    /// Copies of the rules.
    pub fn rules(&self) -> (r: Vec<Rule>)
        ensures
            rules_view(r@) == self.rule_list(),
    {
        self.copy_rules()
    }

    /// Copies of the rules without a head, in order.
    pub fn conformance_rules(&self) -> (r: Vec<Rule>)
        ensures
            rules_view(r@) == rules_with_head(self.rule_list(), true),
    {
        self.rules_by_head(true)
    }

    fn rules_by_head(&self, headless: bool) -> (r: Vec<Rule>)
        ensures
            rules_view(r@) == rules_with_head(self.rule_list(), headless),
    {
        let mut r: Vec<Rule> = Vec::new();
        let mut i: usize = 0;
        assert(rules_view(r@) =~= rules_with_head(rules_view(self.rules@).subrange(0, 0), headless));
        while i < self.rules.len()
            invariant
                i <= self.rules@.len(),
                rules_view(r@) == rules_with_head(rules_view(self.rules@).subrange(0, i as int), headless),
            decreases self.rules@.len() - i,
        {
            let ghost before = rules_view(r@);
            proof {
                let sub = rules_view(self.rules@).subrange(0, i + 1);
                assert(sub.drop_last() =~= rules_view(self.rules@).subrange(0, i as int));
                assert(sub.last() == rule_view(self.rules@[i as int]));
            }
            if self.rules[i].is_conformance_rule() == headless {
                r.push(self.rules[i].duplicate());
                assert(rules_view(r@) =~= before.push(rule_view(self.rules@[i as int])));
            }
            i += 1;
        }
        assert(rules_view(self.rules@).subrange(0, self.rules@.len() as int) =~= rules_view(self.rules@));
        r
    }

    /// The rules with a head, in order, as one stratum.
    pub fn stratified_rules(&self) -> (r: Vec<Vec<Rule>>)
        ensures
            r@.len() == 1,
            rules_view(r@[0]@) == rules_with_head(self.rule_list(), false),
    {
        let s = self.rules_by_head(false);
        let mut r: Vec<Vec<Rule>> = Vec::new();
        r.push(s);
        r
    }

    /// The types and rules of both, where the types of `other` whose names
    /// are taken already, and the rules of `other` that this has already, are
    /// left out.
    pub fn merge(&self, other: &MetaInfo) -> (r: MetaInfo)
        ensures
            (r.names(), r.types()) == put_absent(self.names(), self.types(), other.names(), other.types()),
            r.rule_list() == self.rule_list() + rules_not_in(other.rule_list(), self.rule_list()),
    {
        let mut tm = self.copy_types();
        let ghost on = other.names();
        let ghost ot = other.types();
        assert(on.subrange(0, 0) =~= Seq::<Seq<char>>::empty());
        let mut j: usize = 0;
        while j < other.type_map.len()
            invariant
                j <= other.type_map@.len(),
                on == names_view(other.type_map@),
                ot == types_view(other.type_map@),
                names_view(tm@).no_duplicates(),
                (names_view(tm@), types_view(tm@)) == put_absent(self.names(), self.types(), on.subrange(0, j as int), ot.subrange(0, j as int)),
            decreases other.type_map@.len() - j,
        {
            proof {
                assert(on.subrange(0, j + 1).drop_last() =~= on.subrange(0, j as int));
                assert(ot.subrange(0, j + 1).drop_last() =~= ot.subrange(0, j as int));
                assert(on.subrange(0, j + 1).last() == on[j as int]);
                assert(ot.subrange(0, j + 1).last() == ot[j as int]);
            }
            let name = other.type_map[j].0.clone();
            let found = find_name(&tm, name.as_str());
            proof {
                match found {
                    Some(i) => {
                        assert(names_view(tm@)[i as int] == on[j as int]);
                        assert(names_view(tm@).contains(on[j as int]));
                    },
                    None => {},
                }
            }
            if found.is_none() {
                let ghost before = tm@;
                tm.push((name, other.type_map[j].1.duplicate()));
                proof {
                    assert(names_view(tm@) =~= names_view(before).push(on[j as int]));
                    assert(types_view(tm@) =~= types_view(before).push(ot[j as int]));
                    assert forall|a: int, b: int| 0 <= a < b < names_view(tm@).len() implies names_view(tm@)[a] != names_view(tm@)[b] by {
                        if b == names_view(tm@).len() - 1 {
                            assert(names_view(before).contains(names_view(before)[a]));
                        }
                    }
                }
            }
            j += 1;
        }
        assert(on.subrange(0, on.len() as int) =~= on);
        assert(ot.subrange(0, ot.len() as int) =~= ot);
        let mut rules = self.copy_rules();
        let ghost a = rules_view(self.rules@);
        let ghost b = rules_view(other.rules@);
        assert(b.subrange(0, 0) =~= Seq::<(Seq<TermView>, Seq<ConstraintView>)>::empty());
        assert(a + Seq::<(Seq<TermView>, Seq<ConstraintView>)>::empty() =~= a);
        let mut k: usize = 0;
        while k < other.rules.len()
            invariant
                k <= other.rules@.len(),
                a == rules_view(self.rules@),
                b == rules_view(other.rules@),
                rules_view(rules@) == a + rules_not_in(b.subrange(0, k as int), a),
            decreases other.rules@.len() - k,
        {
            proof {
                let s1 = b.subrange(0, k + 1);
                assert(s1.drop_last() =~= b.subrange(0, k as int));
                assert(s1.last() == rule_view(other.rules@[k as int]));
            }
            let mut present = false;
            let mut q: usize = 0;
            while q < self.rules.len()
                invariant
                    q <= self.rules@.len(),
                    a == rules_view(self.rules@),
                    k < other.rules@.len(),
                    present <==> a.subrange(0, q as int).contains(rule_view(other.rules@[k as int])),
                decreases self.rules@.len() - q,
            {
                let ghost x = rule_view(other.rules@[k as int]);
                proof {
                    let s1 = a.subrange(0, q + 1);
                    assert(s1 =~= a.subrange(0, q as int).push(a[q as int]));
                    assert(s1.contains(x) <==> (a.subrange(0, q as int).contains(x) || a[q as int] == x)) by {
                        if s1.contains(x) {
                            let t = choose|t: int| 0 <= t < s1.len() && s1[t] == x;
                            if t < q {
                                assert(a.subrange(0, q as int)[t] == x);
                            }
                        }
                        if a.subrange(0, q as int).contains(x) {
                            let t = choose|t: int| 0 <= t < q && a.subrange(0, q as int)[t] == x;
                            assert(s1[t] == x);
                        }
                        if a[q as int] == x {
                            assert(s1[q as int] == x);
                        }
                    }
                }
                if self.rules[q].equals(&other.rules[k]) {
                    present = true;
                }
                q += 1;
            }
            assert(a.subrange(0, a.len() as int) =~= a);
            if !present {
                let ghost before = rules_view(rules@);
                rules.push(other.rules[k].duplicate());
                proof {
                    assert(rules_view(rules@) =~= before.push(rule_view(other.rules@[k as int])));
                    let prev = rules_not_in(b.subrange(0, k as int), a);
                    assert(a + prev.push(b[k as int]) =~= (a + prev).push(b[k as int]));
                }
            }
            k += 1;
        }
        assert(b.subrange(0, b.len() as int) =~= b);
        MetaInfo { type_map: tm, rules }
    }

    /// The named types.
    pub fn type_map(&self) -> (r: &Vec<(String, RawType)>)
        ensures
            names_view(r@) == self.names(),
            types_view(r@) == self.types(),
            names_view(r@).no_duplicates(),
    {
        proof {
            use_type_invariant(self);
        }
        &self.type_map
    }

    /// Put the types of `other` in, each replacing a type of the same name; the
    /// rules stay as they are.
    pub fn extend_types(&mut self, other: &MetaInfo)
        ensures
            (final(self).names(), final(self).types()) == put_all(old(self).names(), old(self).types(), other.names(), other.types()),
            final(self).rule_list() == old(self).rule_list(),
    {
        proof {
            use_type_invariant(&*self);
        }
        let mut tm: Vec<(String, RawType)> = Vec::new();
        std::mem::swap(&mut tm, &mut self.type_map);
        let ghost sn = names_view(tm@);
        let ghost st = types_view(tm@);
        let ghost on = other.names();
        let ghost ot = other.types();
        assert(on.subrange(0, 0) =~= Seq::<Seq<char>>::empty());
        let mut j: usize = 0;
        while j < other.type_map.len()
            invariant
                j <= other.type_map@.len(),
                on == names_view(other.type_map@),
                ot == types_view(other.type_map@),
                names_view(tm@).no_duplicates(),
                (names_view(tm@), types_view(tm@)) == put_all(sn, st, on.subrange(0, j as int), ot.subrange(0, j as int)),
            decreases other.type_map@.len() - j,
        {
            proof {
                assert(on.subrange(0, j + 1).drop_last() =~= on.subrange(0, j as int));
                assert(ot.subrange(0, j + 1).drop_last() =~= ot.subrange(0, j as int));
            }
            put_type_exec(&mut tm, other.type_map[j].0.clone(), other.type_map[j].1.duplicate());
            j += 1;
        }
        assert(on.subrange(0, on.len() as int) =~= on);
        assert(ot.subrange(0, ot.len() as int) =~= ot);
        self.type_map = tm;
    }

    /// The types renamed with `scope`, each under the name of its renamed form,
    /// without rules.
    pub(crate) fn rename_types(&self, scope: String) -> (r: MetaInfo)
        ensures
            r.rule_count() == 0,
            (r.names(), r.types()) == put_all(
                Seq::empty(),
                Seq::empty(),
                renamed_types(self.types(), scope@).map_values(|t: TypeView| type_unique_form(t)),
                renamed_types(self.types(), scope@),
            ),
            forall|i: int| 0 <= i < r.types().len() ==> r.names()[i] == type_unique_form(#[trigger] r.types()[i]),
    {
        let mut tm: Vec<(String, RawType)> = Vec::new();
        let mut i: usize = 0;
        let ghost rts = renamed_types(self.types(), scope@);
        let ghost rns = rts.map_values(|t: TypeView| type_unique_form(t));
        assert(names_view(tm@) =~= Seq::<Seq<char>>::empty());
        assert(types_view(tm@) =~= Seq::<TypeView>::empty());
        assert(rns.subrange(0, 0) =~= Seq::<Seq<char>>::empty());
        while i < self.type_map.len()
            invariant
                i <= self.type_map@.len(),
                rts == renamed_types(self.types(), scope@),
                rns == rts.map_values(|t: TypeView| type_unique_form(t)),
                self.types() == types_view(self.type_map@),
                names_view(tm@).no_duplicates(),
                (names_view(tm@), types_view(tm@)) == put_all(Seq::empty(), Seq::empty(), rns.subrange(0, i as int), rts.subrange(0, i as int)),
                forall|k: int| 0 <= k < tm@.len() ==> names_view(tm@)[k] == type_unique_form(#[trigger] types_view(tm@)[k]),
            decreases self.type_map@.len() - i,
        {
            proof {
                assert(rns.subrange(0, i + 1).drop_last() =~= rns.subrange(0, i as int));
                assert(rts.subrange(0, i + 1).drop_last() =~= rts.subrange(0, i as int));
            }
            let renamed = self.type_map[i].1.rename_type(scope.clone());
            let name = renamed.to_string();
            let ghost before = tm@;
            let ghost rv = renamed@;
            let ghost nm = name@;
            put_type_exec(&mut tm, name, renamed);
            proof {
                let pt = put_type(names_view(before), types_view(before), nm, rv);
                assert(names_view(tm@) == pt.0);
                assert(types_view(tm@) == pt.1);
            }
            proof {
                assert forall|k: int| 0 <= k < tm@.len() implies names_view(tm@)[k] == type_unique_form(#[trigger] types_view(tm@)[k]) by {
                    let nb = names_view(before);
                    if nb.contains(nm) {
                        let p = nb.index_of(nm);
                        assert(0 <= p < nb.len() && nb[p] == nm);
                        if k == p {
                            assert(types_view(tm@)[k] == rv);
                        } else {
                            assert(types_view(tm@)[k] == types_view(before)[k]);
                        }
                    } else {
                        if k < before.len() {
                            assert(types_view(tm@)[k] == types_view(before)[k]);
                            assert(names_view(tm@)[k] == names_view(before)[k]);
                        } else {
                            assert(types_view(tm@) == types_view(before).push(rv));
                            assert(names_view(tm@) == nb.push(nm));
                            assert(k == before.len());
                            assert(types_view(tm@)[k] == rv);
                            assert(names_view(tm@)[k] == nm);
                        }
                    }
                }
            }
            i += 1;
        }
        assert(rns.subrange(0, rns.len() as int) =~= rns);
        assert(rts.subrange(0, rts.len() as int) =~= rts);
        MetaInfo { type_map: tm, rules: Vec::new() }
    }

    /// A copy with `scope` added: the types renamed, each under the name of its
    /// renamed form, and each rule with its terms and sorts renamed, in order.
    pub fn rename(&self, scope: String) -> (r: MetaInfo)
        ensures
            (r.names(), r.types()) == put_all(
                Seq::empty(),
                Seq::empty(),
                renamed_types(self.types(), scope@).map_values(|t: TypeView| type_unique_form(t)),
                renamed_types(self.types(), scope@),
            ),
            forall|i: int| 0 <= i < r.types().len() ==> r.names()[i] == type_unique_form(#[trigger] r.types()[i]),
            r.rule_list() == renamed_rules(self.rule_list(), scope@),
    {
        let mut rules: Vec<Rule> = Vec::new();
        let mut i: usize = 0;
        while i < self.rules.len()
            invariant
                i <= self.rules@.len(),
                rules@.len() == i,
                forall|j: int| 0 <= j < i ==> rule_view(#[trigger] rules@[j]) == renamed_rule(rule_view(self.rules@[j]), scope@),
            decreases self.rules@.len() - i,
        {
            rules.push(self.rules[i].rename(&scope));
            i += 1;
        }
        let r = self.rename_types(scope);
        proof {
            use_type_invariant(&r);
        }
        assert(rules_view(rules@) =~= renamed_rules(self.rule_list(), scope@));
        MetaInfo { type_map: r.type_map, rules }
    }
}

/// A rule with its terms and sorts renamed with `scope`.
pub open spec fn renamed_rule(r: (Seq<TermView>, Seq<ConstraintView>), scope: Seq<char>) -> (Seq<TermView>, Seq<ConstraintView>) {
    (terms_renamed(r.0, scope), constraints_renamed(r.1, scope))
}

/// Rules each renamed with `scope`.
pub open spec fn renamed_rules(rs: Seq<(Seq<TermView>, Seq<ConstraintView>)>, scope: Seq<char>) -> Seq<(Seq<TermView>, Seq<ConstraintView>)> {
    rs.map_values(|r: (Seq<TermView>, Seq<ConstraintView>)| renamed_rule(r, scope))
}

/// The conformance rules and the stratified rules split the rules: every rule
/// is in the one or the other according to whether its head is empty, and
/// together they have as many rules as there are.
pub proof fn lemma_rules_split_by_head(rs: Seq<(Seq<TermView>, Seq<ConstraintView>)>)
    ensures
        rules_with_head(rs, true).len() + rules_with_head(rs, false).len() == rs.len(),
        forall|x: (Seq<TermView>, Seq<ConstraintView>)| #[trigger] rules_with_head(rs, true).contains(x) <==> rs.contains(x) && x.0.len() == 0,
        forall|x: (Seq<TermView>, Seq<ConstraintView>)| #[trigger] rules_with_head(rs, false).contains(x) <==> rs.contains(x) && x.0.len() > 0,
    decreases rs.len(),
{
    if rs.len() > 0 {
        let d = rs.drop_last();
        lemma_rules_split_by_head(d);
        assert(rs =~= d.push(rs.last()));
        assert forall|x: (Seq<TermView>, Seq<ConstraintView>)| #[trigger] rules_with_head(rs, true).contains(x) <==> rs.contains(x) && x.0.len() == 0 by {
            vstd::seq_lib::lemma_seq_contains_after_push(d, rs.last(), x);
            vstd::seq_lib::lemma_seq_contains_after_push(rules_with_head(d, true), rs.last(), x);
        }
        assert forall|x: (Seq<TermView>, Seq<ConstraintView>)| #[trigger] rules_with_head(rs, false).contains(x) <==> rs.contains(x) && x.0.len() > 0 by {
            vstd::seq_lib::lemma_seq_contains_after_push(d, rs.last(), x);
            vstd::seq_lib::lemma_seq_contains_after_push(rules_with_head(d, false), rs.last(), x);
        }
    }
}

/// The largest of the numbers, or 0.
pub open spec fn seq_max(s: Seq<nat>) -> nat
    decreases s.len(),
{
    if s.len() == 0 {
        0
    } else {
        let m = seq_max(s.drop_last());
        if s.last() > m {
            s.last()
        } else {
            m
        }
    }
}

/// How deep composite types nest inside a type.
pub open spec fn type_height(t: TypeView) -> nat
    decreases t,
{
    match t {
        TypeView::Composite(_, args) => 1 + seq_max(arg_heights(args)),
        _ => 0,
    }
}

/// The heights of the argument types.
pub open spec fn arg_heights(args: Seq<(Option<Seq<char>>, TypeView)>) -> Seq<nat>
    decreases args,
{
    Seq::new(args.len(), |i: int| if 0 <= i < args.len() { type_height(args[i].1) } else { 0 })
}

proof fn lemma_seq_max(s: Seq<nat>, i: int)
    requires
        0 <= i < s.len(),
    ensures
        s[i] <= seq_max(s),
    decreases s.len(),
{
    if i < s.len() - 1 {
        lemma_seq_max(s.drop_last(), i);
    }
}

/// A type nests less deeply than every type it is an argument type of.
proof fn lemma_subtype_height(s: TypeView, o: TypeView)
    requires
        is_subtype(s, o),
    ensures
        type_height(s) < type_height(o),
    decreases o,
{
    match o {
        TypeView::Composite(_, args) => {
            let i = choose|i: int| 0 <= i < args.len() && (args[i].1 == s || is_subtype(s, #[trigger] args[i].1));
            let hs = arg_heights(args);
            lemma_seq_max(hs, i);
            assert(type_height(o) == 1 + seq_max(hs));
            assert(hs[i] == type_height(args[i].1));
            if args[i].1 != s {
                lemma_subtype_height(s, args[i].1);
            }
        },
        _ => {},
    }
}

/// The position of the first of `s` whose height is above `h`, or the length.
pub open spec fn first_higher(s: Seq<usize>, h: nat, hs: Seq<nat>) -> int
    decreases s.len(),
{
    if s.len() == 0 {
        0
    } else if hs[s[0] as int] > h {
        0
    } else {
        1 + first_higher(s.drop_first(), h, hs)
    }
}

/// The nodes `0 .. k` ordered by their heights `hs`, lower first.
pub open spec fn height_order(hs: Seq<nat>, k: nat) -> Seq<usize>
    decreases k,
{
    if k == 0 {
        Seq::empty()
    } else {
        let s = height_order(hs, (k - 1) as nat);
        s.insert(first_higher(s, hs[k - 1], hs), (k - 1) as usize)
    }
}

proof fn lemma_first_higher(s: Seq<usize>, h: nat, hs: Seq<nat>)
    requires
        forall|j: int| 0 <= j < s.len() ==> (#[trigger] s[j]) < hs.len(),
    ensures
        0 <= first_higher(s, h, hs) <= s.len(),
        forall|j: int| 0 <= j < first_higher(s, h, hs) ==> hs[#[trigger] s[j] as int] <= h,
        first_higher(s, h, hs) < s.len() ==> hs[s[first_higher(s, h, hs)] as int] > h,
    decreases s.len(),
{
    if s.len() > 0 && hs[s[0] as int] <= h {
        lemma_first_higher(s.drop_first(), h, hs);
        assert forall|j: int| 0 <= j < first_higher(s, h, hs) implies hs[#[trigger] s[j] as int] <= h by {
            if j > 0 {
                assert(s[j] == s.drop_first()[j - 1]);
            }
        }
    }
}

proof fn lemma_height_order(hs: Seq<nat>, k: nat)
    requires
        k <= hs.len(),
        hs.len() <= usize::MAX,
    ensures
        height_order(hs, k).len() == k,
        height_order(hs, k).no_duplicates(),
        forall|j: int| 0 <= j < height_order(hs, k).len() ==> (#[trigger] height_order(hs, k)[j]) < k,
        forall|i: usize| i < k ==> #[trigger] height_order(hs, k).contains(i),
        forall|a: int, b: int| 0 <= a < b < k ==> hs[#[trigger] height_order(hs, k)[a] as int] <= hs[#[trigger] height_order(hs, k)[b] as int],
    decreases k,
{
    if k > 0 {
        let s = height_order(hs, (k - 1) as nat);
        lemma_height_order(hs, (k - 1) as nat);
        let x = (k - 1) as usize;
        let h = hs[k - 1];
        lemma_first_higher(s, h, hs);
        let p = first_higher(s, h, hs);
        let r = s.insert(p, x);
        assert(r == height_order(hs, k));
        assert forall|j: int| 0 <= j < r.len() implies (#[trigger] r[j]) < k by {
            if j < p {
                assert(r[j] == s[j]);
            } else if j > p {
                assert(r[j] == s[j - 1]);
            }
        }
        assert(r.no_duplicates()) by {
            assert forall|a: int, b: int| 0 <= a < r.len() && 0 <= b < r.len() && a != b implies r[a] != r[b] by {
                if a != p && b != p {
                    let a0 = if a < p { a } else { a - 1 };
                    let b0 = if b < p { b } else { b - 1 };
                    assert(r[a] == s[a0] && r[b] == s[b0]);
                } else if a == p {
                    let b0 = if b < p { b } else { b - 1 };
                    assert(r[b] == s[b0]);
                } else {
                    let a0 = if a < p { a } else { a - 1 };
                    assert(r[a] == s[a0]);
                }
            }
        }
        assert forall|i: usize| i < k implies #[trigger] r.contains(i) by {
            if i == k - 1 {
                assert(r[p] == x);
            } else {
                assert(s.contains(i));
                let j = choose|j: int| 0 <= j < s.len() && s[j] == i;
                if j < p {
                    assert(r[j] == s[j]);
                } else {
                    assert(r[j + 1] == s[j]);
                }
            }
        }
        assert forall|a: int, b: int| 0 <= a < b < k implies hs[#[trigger] r[a] as int] <= hs[#[trigger] r[b] as int] by {
            if a != p && b != p {
                let a0 = if a < p { a } else { a - 1 };
                let b0 = if b < p { b } else { b - 1 };
                assert(r[a] == s[a0] && r[b] == s[b0]);
            } else if a == p {
                let b0 = b - 1;
                assert(r[b] == s[b0]);
                assert(hs[s[p] as int] > h);
                if b0 > p {
                    assert(hs[s[p] as int] <= hs[s[b0] as int]);
                }
            } else {
                assert(r[a] == s[a]);
                assert(hs[s[a] as int] <= h);
            }
        }
    }
}

/// The composite types can always be ordered so that every type comes after
/// the types of its arguments: a type nests less deeply than every type it is
/// an argument type of.
proof fn lemma_subtype_order_exists(cts: Seq<TypeView>, edges: Seq<(usize, usize)>)
    requires
        cts.len() <= usize::MAX,
        forall|e: int| 0 <= e < edges.len() ==> subtype_edge(cts, #[trigger] edges[e]),
    ensures
        exists|order: Seq<usize>| is_topological_order(order, cts.len(), edges),
{
    let hs = Seq::new(cts.len(), |i: int| type_height(cts[i]));
    let n = cts.len();
    lemma_height_order(hs, n);
    let order = height_order(hs, n);
    assert forall|e: int| 0 <= e < edges.len() implies #[trigger] ordered_pair(order, edges[e].0, edges[e].1) by {
        let (x, y) = edges[e];
        assert(subtype_edge(cts, edges[e]));
        lemma_subtype_height(cts[x as int], cts[y as int]);
        assert(order.contains(x));
        assert(order.contains(y));
        let a = choose|a: int| 0 <= a < order.len() && order[a] == x;
        let b = choose|b: int| 0 <= b < order.len() && order[b] == y;
        if b < a {
            assert(hs[order[b] as int] <= hs[order[a] as int]);
        }
        assert(a != b);
        assert(0 <= a < b < order.len() && order[a] == x && order[b] == y);
    }
    assert(is_topological_order(order, n, edges));
}

} // verus!
