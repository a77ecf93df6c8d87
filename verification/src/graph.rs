//! Random graphs and the Formula models that describe them.
use rand::rngs::StdRng;
use rand::Rng;
use rand::SeedableRng;
use std::collections::BTreeSet;
use crate::integer::nat_decimal;
use crate::names::decimal_text;
use crate::text::concat3;
use vstd::prelude::*;
use vstd::string::StringExecFns;
use vstd::std_specs::btree::spec_btree_keys_iter;
use vstd::std_specs::iter::IteratorSpec;
use vstd::std_specs::cmp::OrdSpec;

verus! {

broadcast use {vstd::laws_cmp::group_laws_cmp, vstd::std_specs::btree::group_btree_axioms};

/// Whether `a` comes before `b` in the order of `K`.
pub open spec fn ordered_before<K: OrdSpec>(a: K, b: K) -> bool {
    a.cmp_spec(&b) is Less
}

/// A directed graph over numbered nodes.
pub struct Graph {
    node_set: BTreeSet<usize>,
    edge_set: BTreeSet<(usize, usize)>,
    seed: u64,
}

impl Graph {
    pub closed spec fn nodes_view(&self) -> Set<usize> {
        self.node_set@
    }

    pub closed spec fn edges_view(&self) -> Set<(usize, usize)> {
        self.edge_set@
    }

    pub closed spec fn seed_view(&self) -> u64 {
        self.seed
    }

    /// A graph with no nodes and no edges.
    pub fn new_empty() -> (r: Self)
        ensures
            r.nodes_view() == Set::<usize>::empty(),
            r.edges_view() == Set::<(usize, usize)>::empty(),
            r.seed_view() == 0,
    {
        Graph { node_set: BTreeSet::new(), edge_set: BTreeSet::new(), seed: 0 }
    }

    /// The nodes in increasing order.
    pub fn nodes(&self) -> (r: Vec<usize>)
        ensures
            r@.to_set() == self.nodes_view(),
            forall|i: int, j: int| 0 <= i < j < r@.len() ==> r@[i] < r@[j],
    {
        let mut r: Vec<usize> = Vec::new();
        let iter0 = self.node_set.iter();
        let ghost keys = iter0.remaining();
        for x in it: iter0
            invariant
                keys == it.seq(),
                r@ == it.seq().take(it.index()).map_values(|p: &usize| *p),
        {
            r.push(*x);
        }
        proof {
            assert(keys == spec_btree_keys_iter(&self.node_set).remaining());
            assert(r@ =~= keys.unref());
            assert(vstd::laws_cmp::obeys_cmp::<&usize>());
            vstd::std_specs::btree::axiom_spec_btree_keys_iter(&self.node_set);
            assert(vstd::std_specs::btree::increasing_seq(keys));
            vstd::std_specs::btree::axiom_increasing_seq_meaning(keys);
            assert forall|i: int, j: int| 0 <= i < j < r@.len() implies r@[i] < r@[j] by {
                assert(ordered_before::<&usize>(keys[i], keys[j]));
            }
        }
        r
    }
}


/// Whether edge `a` comes before edge `b`: by source, then by target.
pub open spec fn edge_before(a: (usize, usize), b: (usize, usize)) -> bool {
    a.0 < b.0 || (a.0 == b.0 && a.1 < b.1)
}

/// A random number generator from rand.
#[verifier::external_type_specification]
#[verifier::external_body]
pub struct ExStdRng(StdRng);

/// `StdRng::seed_from_u64` from rand: a generator seeded with `seed`.
#[verifier::external_body]
fn seeded_rng(seed: u64) -> StdRng {
    StdRng::seed_from_u64(seed)
}

/// `Rng::gen_range(0..n)` from rand: a number below `n` drawn from the generator,
/// which moves on.
#[verifier::external_body]
fn draw_below(rng: &mut StdRng, n: usize) -> (r: usize)
    requires
        n > 0,
    ensures
        r < n,
{
    rng.gen_range(0..n)
}

impl Graph {
    /// The edges in increasing order, by source and then by target.
    pub fn edges(&self) -> (r: Vec<(usize, usize)>)
        ensures
            r@.to_set() == self.edges_view(),
            forall|i: int, j: int| 0 <= i < j < r@.len() ==> edge_before(r@[i], r@[j]),
    {
        let mut r: Vec<(usize, usize)> = Vec::new();
        let iter0 = self.edge_set.iter();
        let ghost keys = iter0.remaining();
        for x in it: iter0
            invariant
                keys == it.seq(),
                r@ == it.seq().take(it.index()).map_values(|p: &(usize, usize)| *p),
        {
            r.push(*x);
        }
        proof {
            assert(keys == spec_btree_keys_iter(&self.edge_set).remaining());
            assert(r@ =~= keys.unref());
            assert(vstd::laws_cmp::obeys_cmp::<&(usize, usize)>());
            vstd::std_specs::btree::axiom_spec_btree_keys_iter(&self.edge_set);
            assert(vstd::std_specs::btree::increasing_seq(keys));
            vstd::std_specs::btree::axiom_increasing_seq_meaning(keys);
            assert forall|i: int, j: int| 0 <= i < j < r@.len() implies edge_before(r@[i], r@[j]) by {
                assert(ordered_before::<&(usize, usize)>(keys[i], keys[j]));
            }
        }
        r
    }

    /// Whether the node is in the graph.
    pub fn contains_node(&self, node: usize) -> (r: bool)
        ensures
            r == self.nodes_view().contains(node),
    {
        self.node_set.contains(&node)
    }

    /// Whether the edge is in the graph.
    pub fn contains_edge(&self, edge: (usize, usize)) -> (r: bool)
        ensures
            r == self.edges_view().contains(edge),
    {
        self.edge_set.contains(&edge)
    }

    /// Add a node; `false` when it was already there.
    pub fn add_node(&mut self, node: usize) -> (r: bool)
        ensures
            r == !old(self).nodes_view().contains(node),
            final(self).nodes_view() == old(self).nodes_view().insert(node),
            final(self).edges_view() == old(self).edges_view(),
            final(self).seed_view() == old(self).seed_view(),
    {
        if self.node_set.contains(&node) {
            proof {
                assert(self.node_set@.insert(node) =~= self.node_set@);
            }
            return false;
        } else {
            self.node_set.insert(node);
            return true;
        }
    }

    /// Add an edge together with its end nodes; `false`, with the graph unchanged,
    /// when the edge was already there.
    pub fn add_edge(&mut self, edge: (usize, usize)) -> (r: bool)
        ensures
            r == !old(self).edges_view().contains(edge),
            r ==> final(self).nodes_view() == old(self).nodes_view().insert(edge.0).insert(edge.1),
            r ==> final(self).edges_view() == old(self).edges_view().insert(edge),
            !r ==> final(self).nodes_view() == old(self).nodes_view() && final(self).edges_view() == old(self).edges_view(),
            final(self).seed_view() == old(self).seed_view(),
    {
        if self.edge_set.contains(&edge) {
            return false;
        } else {
            let (src, dst) = edge;
            if !self.node_set.contains(&src) {
                self.add_node(src);
            } else {
                assert(self.node_set@.insert(src) =~= self.node_set@);
            }
            if !self.node_set.contains(&dst) {
                self.add_node(dst);
            } else {
                assert(self.node_set@.insert(dst) =~= self.node_set@);
            }
            self.edge_set.insert(edge);
            return true;
        }
    }

    /// A random edge between nodes of the graph that is not in the graph yet, drawn
    /// with a generator seeded by the graph's seed, which then goes up by one.
    /// Draws are repeated while they hit an edge of the graph, up to 2^64 - 1
    /// times; after that the first free edge in the order of sources and then
    /// targets is taken. The graph itself is not changed.
    pub fn add_random_edge(&mut self) -> (r: (usize, usize))
        requires
            old(self).nodes_view().len() > 0,
            old(self).seed_view() < u64::MAX,
            exists|e: (usize, usize)|
                e.0 < old(self).nodes_view().len() && e.1 < old(self).nodes_view().len()
                    && !old(self).edges_view().contains(e),
        ensures
            r.0 < old(self).nodes_view().len(),
            r.1 < old(self).nodes_view().len(),
            !old(self).edges_view().contains(r),
            final(self).nodes_view() == old(self).nodes_view(),
            final(self).edges_view() == old(self).edges_view(),
            final(self).seed_view() == old(self).seed_view() + 1,
    {
        let mut rng = seeded_rng(self.seed);
        self.seed = self.seed + 1;
        let n = self.node_set.len();
        let num1 = draw_below(&mut rng, n);
        let num2 = draw_below(&mut rng, n);
        let mut edge = (num1, num2);
        let mut budget: u64 = u64::MAX;
        while self.contains_edge(edge) && budget > 0
            invariant
                edge.0 < n,
                edge.1 < n,
                n > 0,
                n == old(self).nodes_view().len(),
                self.nodes_view() == old(self).nodes_view(),
                self.edges_view() == old(self).edges_view(),
                self.seed_view() == old(self).seed_view() + 1,
            decreases budget,
        {
            budget = budget - 1;
            let num1 = draw_below(&mut rng, n);
            let num2 = draw_below(&mut rng, n);
            edge = (num1, num2);
        }
        if !self.contains_edge(edge) {
            return edge;
        }
        let mut a: usize = 0;
        while a < n
            invariant
                n == self.nodes_view().len(),
                n == old(self).nodes_view().len(),
                self.nodes_view() == old(self).nodes_view(),
                self.edges_view() == old(self).edges_view(),
                self.seed_view() == old(self).seed_view() + 1,
                exists|e: (usize, usize)| e.0 < n && e.1 < n && !self.edges_view().contains(e),
                forall|e: (usize, usize)| e.0 < a && e.1 < n ==> #[trigger] self.edges_view().contains(e),
            decreases n - a,
        {
            let mut b: usize = 0;
            while b < n
                invariant
                    a < n,
                    b <= n,
                    n == self.nodes_view().len(),
                    n == old(self).nodes_view().len(),
                    self.nodes_view() == old(self).nodes_view(),
                    self.edges_view() == old(self).edges_view(),
                    self.seed_view() == old(self).seed_view() + 1,
                    forall|e: (usize, usize)| (e.0 < a && e.1 < n) || (e.0 == a && e.1 < b) ==> #[trigger] self.edges_view().contains(e),
                decreases n - b,
            {
                if !self.contains_edge((a, b)) {
                    return (a, b);
                }
                b += 1;
            }
            a += 1;
        }
        proof {
            let e = choose|e: (usize, usize)| e.0 < n && e.1 < n && !self.edges_view().contains(e);
            assert(self.edges_view().contains(e));
        }
        edge
    }

    /// A graph with the nodes `0 .. nodes_num` and `edges_num` distinct random
    /// edges between them, drawn with a generator seeded by 0; the graph's seed
    /// is then 1. Draws that hit an edge already there are repeated, up to
    /// 2^64 - 1 draws in all; after that the edges still missing are the first
    /// free ones in the order of sources and then targets.
    pub fn gen_random_graph(nodes_num: usize, edges_num: usize) -> (r: Graph)
        requires
            nodes_num > 0 || edges_num == 0,
            edges_num <= nodes_num * nodes_num,
        ensures
            r.nodes_view() == Set::new(|i: usize| i < nodes_num),
            forall|e: (usize, usize)| #[trigger] r.edges_view().contains(e) ==> e.0 < nodes_num && e.1 < nodes_num,
            r.edges_view().finite(),
            r.edges_view().len() == edges_num,
            r.seed_view() == 1,
    {
        let mut graph = Graph::new_empty();
        let mut i: usize = 0;
        while i < nodes_num
            invariant
                i <= nodes_num,
                graph.nodes_view() == Set::new(|k: usize| k < i),
                graph.edges_view() == Set::<(usize, usize)>::empty(),
                graph.seed_view() == 0,
            decreases nodes_num - i,
        {
            graph.add_node(i);
            assert(graph.nodes_view() =~= Set::new(|k: usize| k < i + 1));
            i += 1;
        }
        let mut rng = seeded_rng(graph.seed);
        graph.seed = graph.seed + 1;
        let mut count: usize = 0;
        let mut budget: u64 = u64::MAX;
        while count < edges_num && budget > 0
            invariant
                nodes_num > 0 || edges_num == 0,
                graph.nodes_view() == Set::new(|k: usize| k < nodes_num),
                forall|e: (usize, usize)| #[trigger] graph.edges_view().contains(e) ==> e.0 < nodes_num && e.1 < nodes_num,
                graph.seed_view() == 1,
                graph.edges_view().finite(),
                graph.edges_view().len() == count,
                count <= edges_num,
            decreases budget,
        {
            budget = budget - 1;
            let num1 = draw_below(&mut rng, nodes_num);
            let num2 = draw_below(&mut rng, nodes_num);
            let edge = (num1, num2);
            if !graph.edge_set.contains(&edge) {
                graph.add_edge(edge);
                assert(graph.nodes_view() =~= Set::new(|k: usize| k < nodes_num));
                count += 1;
            }
        }
        let mut a: usize = 0;
        while a < nodes_num && count < edges_num
            invariant
                a <= nodes_num,
                graph.nodes_view() == Set::new(|k: usize| k < nodes_num),
                forall|e: (usize, usize)| #[trigger] graph.edges_view().contains(e) ==> e.0 < nodes_num && e.1 < nodes_num,
                graph.seed_view() == 1,
                graph.edges_view().finite(),
                graph.edges_view().len() == count,
                count <= edges_num,
                count < edges_num ==> forall|e: (usize, usize)| e.0 < a && e.1 < nodes_num ==> #[trigger] graph.edges_view().contains(e),
            decreases nodes_num - a,
        {
            let mut b: usize = 0;
            while b < nodes_num && count < edges_num
                invariant
                    a < nodes_num,
                    b <= nodes_num,
                    graph.nodes_view() == Set::new(|k: usize| k < nodes_num),
                    forall|e: (usize, usize)| #[trigger] graph.edges_view().contains(e) ==> e.0 < nodes_num && e.1 < nodes_num,
                    graph.seed_view() == 1,
                    graph.edges_view().finite(),
                    graph.edges_view().len() == count,
                    count <= edges_num,
                    count < edges_num ==> forall|e: (usize, usize)|
                        (e.0 < a && e.1 < nodes_num) || (e.0 == a && e.1 < b) ==> #[trigger] graph.edges_view().contains(e),
                decreases nodes_num - b,
            {
                if !graph.edge_set.contains(&(a, b)) {
                    graph.add_edge((a, b));
                    assert(graph.nodes_view() =~= Set::new(|k: usize| k < nodes_num));
                    count += 1;
                }
                b += 1;
            }
            a += 1;
        }
        proof {
            if count < edges_num {
                let rect = Set::new(|e: (usize, usize)| e.0 < nodes_num && e.1 < nodes_num);
                lemma_rect_len(nodes_num, nodes_num);
                assert(graph.edges_view() =~= rect);
                assert(false);
            }
        }
        graph
    }
}

/// The pairs whose first part is `k` and whose second part is below `m`.
proof fn lemma_row_len(k: usize, m: usize)
    ensures
        Set::new(|e: (usize, usize)| e.0 == k && e.1 < m).finite(),
        Set::new(|e: (usize, usize)| e.0 == k && e.1 < m).len() == m,
    decreases m,
{
    let row = Set::new(|e: (usize, usize)| e.0 == k && e.1 < m);
    if m == 0 {
        assert(row =~= Set::empty());
    } else {
        let m1 = (m - 1) as usize;
        let prev = Set::new(|e: (usize, usize)| e.0 == k && e.1 < m1);
        lemma_row_len(k, m1);
        assert(row =~= prev.insert((k, m1)));
        assert(!prev.contains((k, m1)));
    }
}

/// The pairs of numbers below `n` and below `m` are `n * m` many.
proof fn lemma_rect_len(n: usize, m: usize)
    ensures
        Set::new(|e: (usize, usize)| e.0 < n && e.1 < m).finite(),
        Set::new(|e: (usize, usize)| e.0 < n && e.1 < m).len() == n * m,
    decreases n,
{
    let rect = Set::new(|e: (usize, usize)| e.0 < n && e.1 < m);
    if n == 0 {
        assert(rect =~= Set::empty());
    } else {
        let n1 = (n - 1) as usize;
        let prev = Set::new(|e: (usize, usize)| e.0 < n1 && e.1 < m);
        let row = Set::new(|e: (usize, usize)| e.0 == n1 && e.1 < m);
        lemma_rect_len(n1, m);
        lemma_row_len(n1, m);
        assert(rect =~= prev + row);
        assert(prev.disjoint(row));
        vstd::set_lib::lemma_set_disjoint_lens(prev, row);
        assert(n * m == n1 * m + m) by (nonlinear_arith)
            requires
                n1 + 1 == n,
        ;
    }
}

/// The fact `Edge(Node(src), Node(dst)).` on a line of its own.
pub open spec fn edge_fact_text(e: (usize, usize)) -> Seq<char> {
    "Edge(Node("@ + nat_decimal(e.0 as nat) + "), Node("@ + nat_decimal(e.1 as nat) + ")).\n"@
}

/// The facts of a list of edges, one after the other.
pub open spec fn edge_facts_text(es: Seq<(usize, usize)>) -> Seq<char>
    decreases es.len(),
{
    if es.len() == 0 {
        Seq::empty()
    } else {
        edge_facts_text(es.drop_last()) + edge_fact_text(es.last())
    }
}

/// A program made of a domain followed by the model `m` of `Graph` with the
/// facts of the edges.
pub open spec fn formula_program_text(domain: Seq<char>, es: Seq<(usize, usize)>) -> Seq<char> {
    domain + "\n model m of Graph {\n "@ + edge_facts_text(es) + " \n}"@
}

/// The program text for a domain and a list of edges.
pub fn formula_program(domain_str: &str, edges: &Vec<(usize, usize)>) -> (r: String)
    ensures
        r@ == formula_program_text(domain_str@, edges@),
{
    let mut facts = String::new();
    let mut i: usize = 0;
    assert(edges@.subrange(0, 0) =~= Seq::<(usize, usize)>::empty());
    while i < edges.len()
        invariant
            i <= edges@.len(),
            facts@ == edge_facts_text(edges@.subrange(0, i as int)),
        decreases edges@.len() - i,
    {
        let (src, dst) = edges[i];
        let s = decimal_text(src as u64);
        let d = decimal_text(dst as u64);
        let a = concat3("Edge(Node(", s.as_str(), "), Node(");
        let fact = concat3(a.as_str(), d.as_str(), ")).\n");
        facts.append(fact.as_str());
        proof {
            let s1 = edges@.subrange(0, i as int + 1);
            assert(s1.drop_last() =~= edges@.subrange(0, i as int));
            assert(s1.last() == edges@[i as int]);
        }
        i += 1;
    }
    assert(edges@.subrange(0, edges@.len() as int) =~= edges@);
    let head = concat3(domain_str, "\n model m of Graph {\n ", facts.as_str());
    let mut out = head;
    out.append(" \n}");
    out
}

/// A program made of `domain_str` and the model `m` of `Graph` whose facts are the
/// edges of a random graph on `nodes_num` nodes with `edges_num` edges, in
/// increasing order.
pub fn gen_formula_program(domain_str: String, nodes_num: usize, edges_num: usize) -> (r: String)
    requires
        nodes_num > 0 || edges_num == 0,
        edges_num <= nodes_num * nodes_num,
    ensures
        exists|es: Seq<(usize, usize)>|
            r@ == formula_program_text(domain_str@, es) && es.len() == edges_num && (forall|i: int|
                0 <= i < es.len() ==> (#[trigger] es[i]).0 < nodes_num && es[i].1 < nodes_num) && (
            forall|i: int, j: int| 0 <= i < j < es.len() ==> edge_before(es[i], es[j])),
{
    let graph = Graph::gen_random_graph(nodes_num, edges_num);
    let edges = graph.edges();
    let r = formula_program(domain_str.as_str(), &edges);
    proof {
        assert forall|i: int| 0 <= i < edges@.len() implies (#[trigger] edges@[i]).0 < nodes_num && edges@[i].1 < nodes_num by {
            assert(edges@.to_set().contains(edges@[i]));
        }
        assert(edges@.no_duplicates()) by {
            assert forall|i: int, j: int| 0 <= i < edges@.len() && 0 <= j < edges@.len() && i != j implies edges@[i] != edges@[j] by {
                if i < j {
                    assert(edge_before(edges@[i], edges@[j]));
                } else {
                    assert(edge_before(edges@[j], edges@[i]));
                }
            }
        }
        edges@.unique_seq_to_set();
    }
    r
}

} // verus!
