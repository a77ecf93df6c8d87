use differential_formula::binding::Binding;
use differential_formula::combinator::{binary, conformance, expr, predicate, rule, term};
use differential_formula::expression::SetCompreOp;
use differential_formula::graph::{formula_program, gen_formula_program, Graph};
use differential_formula::integer::Integer;
use differential_formula::matching::TermTraversal;
use differential_formula::names::NameGenerator;
use differential_formula::module::MetaInfo;
use differential_formula::rule::Rule;
use differential_formula::type_system::RawType;
use differential_formula::term::{AtomEnum, AtomicTerm};

fn t(text: &str) -> AtomicTerm {
    term(text).unwrap().1
}

fn value(text: &str) -> String {
    expr(text).unwrap().1.evaluate(&Binding::new()).unwrap().to_string()
}

#[test]
fn integer_arithmetic_is_exact() {
    assert_eq!(value("-7 + 2"), "-5");
    assert_eq!(value("-7 - 2"), "-9");
    assert_eq!(value("-7 * 2"), "-14");
    // Division rounds toward zero.
    assert_eq!(value("-7 / 2"), "-3");
    assert_eq!(binary("-7 < 2").unwrap().1.evaluate(&Binding::new()), Some(true));
    assert_eq!(binary("2 < -7").unwrap().1.evaluate(&Binding::new()), Some(false));
    assert!(Integer::parse("+15").unwrap().equals(&Integer::new(15)));
    assert_eq!(
        value("123456789012345678901234567890 * 123456789012345678901234567890"),
        "15241578753238836750495351562536198787501905199875019052100"
    );
    assert_eq!(Integer::zero().to_string(), "0");
    assert!(Integer::parse("1x").is_none());
    assert!(Integer::parse("-").is_none());
    assert_eq!(Integer::parse("-0042").unwrap().to_string(), "-42");
}

#[test]
fn terms_print_as_written() {
    assert_eq!(t("Edge(x, Node(1))").to_string(), "Edge(x, Node(1))");
    assert_eq!(t("x.src.id").to_string(), "x.src.id");
    assert_eq!(t("-122").to_string(), "-122");
    assert_eq!(t("1.23").to_string(), "1.23");
    assert_eq!(t("true").to_string(), "true");
    // A string atom prints its debug form between quotes.
    assert_eq!(t("\"hi\"").to_string(), "\"\"hi\"\"");
}

#[test]
fn term_equality_and_roots() {
    let x = t("x");
    let xyz = t("x.y.z");
    assert!(xyz.root().equals(&x));
    assert!(!x.equals(&xyz));
    assert!(t("Node(1)").equals(&t("Node(1)")));
    assert!(!t("Node(1)").equals(&t("Node(2)")));
    assert!(t("_").is_donot_care_variable());
    assert!(xyz.is_fragmented_var());
}

#[test]
fn matching_then_propagating_gives_back_the_term() {
    let pattern = t("Edge(x, Node(b))");
    let target = t("Edge(Node(1), Node(2))");
    let binding = pattern.match_to(&target).unwrap();
    assert_eq!(binding.len(), 2);
    assert!(binding.get(&t("x")).unwrap().equals(&t("Node(1)")));
    assert!(binding.get(&t("b")).unwrap().equals(&t("2")));
    assert!(pattern.propagate(&binding).equals(&target));
}

#[test]
fn matching_refuses_conflicting_bindings() {
    assert!(t("Edge(u, u)").match_to(&t("Edge(Node(1), Node(2))")).is_none());
    assert!(t("Edge(u, u)").match_to(&t("Edge(Node(1), Node(1))")).is_some());
    assert!(t("Node(1)").match_to(&t("Node(2)")).is_none());
    // The don't-care variable matches anything and binds nothing.
    let b = t("Edge(_, Node(b))").match_to(&t("Edge(Node(1), Node(2))")).unwrap();
    assert_eq!(b.len(), 1);
}

#[test]
fn normalization_renames_variables_in_order() {
    let (n1, m1) = t("Edge(x, y)").normalize();
    let (n4, _) = t("Edge(y, z)").normalize();
    let (n5, _) = t("Edge(a, a)").normalize();
    assert_eq!(n1.to_string(), "Edge(~p0, ~p1)");
    assert!(n1.equals(&n4));
    assert!(!n4.equals(&n5));
    assert_eq!(n5.to_string(), "Edge(~p0, ~p0)");
    assert_eq!(m1.len(), 2);
    // Normalizing again changes nothing.
    assert!(n1.normalize().0.equals(&n1));
}

#[test]
fn variables_in_order_of_first_occurrence() {
    let vars = t("Edge(y, Node(x), y, _)").variables();
    let names: Vec<String> = vars.iter().map(|v| v.to_string()).collect();
    assert_eq!(names, vec!["y".to_string(), "x".to_string()]);
}

#[test]
fn renaming_adds_the_scope() {
    let renamed = t("Edge(x, Node(1))").rename("left".to_string());
    assert_eq!(renamed.to_string(), "left.Edge(leftx, left.Node(1))");
}

#[test]
fn subterms_by_labels_need_labelled_types() {
    // Terms read from text carry only type names, so no label leads anywhere.
    let labels = vec!["src".to_string()];
    assert!(t("Edge(Node(1), Node(2))").find_subterm_by_labels(&labels).is_none());
    // No labels give the term itself.
    let term = t("Node(1)");
    assert!(term.find_subterm_by_labels(&vec![]).unwrap().equals(&term));
}

#[test]
fn binding_keeps_one_value_per_key() {
    let mut b = Binding::new();
    b.insert(t("x"), t("1"));
    b.insert(t("y"), t("2"));
    b.insert(t("x"), t("3"));
    assert_eq!(b.len(), 2);
    assert!(b.get(&t("x")).unwrap().equals(&t("3")));
    assert!(b.contains_key(&t("y")));
    assert!(!b.contains_key(&t("z")));
}

#[test]
fn expressions_evaluate_under_a_binding() {
    let mut b = Binding::new();
    b.insert(t("a"), t("1"));
    b.insert(t("b"), t("2"));
    b.insert(t("c"), t("3"));
    let e = expr("a+b*c").unwrap().1;
    assert_eq!(e.evaluate(&b).unwrap().to_string(), "7");
    let e2 = expr("(a+b)*c").unwrap().1;
    assert_eq!(e2.evaluate(&b).unwrap().to_string(), "9");
    assert_eq!(e2.to_string(), "((a + b) * c)");
    let e3 = expr("c - b - a").unwrap().1;
    assert_eq!(e3.evaluate(&b).unwrap().to_string(), "0");
    let e4 = expr("7 / b").unwrap().1;
    assert_eq!(e4.evaluate(&b).unwrap().to_string(), "3");
}

#[test]
fn comparisons_evaluate_under_a_binding() {
    let mut b = Binding::new();
    b.insert(t("aggr"), t("10"));
    let c = binary("aggr * 2 = 20 .").unwrap().1;
    assert_eq!(c.evaluate(&b), Some(true));
    let d = binary("aggr < 3").unwrap().1;
    assert_eq!(d.evaluate(&b), Some(false));
    // A side with a set comprehension is not evaluated here.
    let s = binary("count({x | x is Node(a)}) = 0").unwrap().1;
    assert!(s.has_set_comprehension());
    assert_eq!(s.evaluate(&b), None);
}

#[test]
fn comparison_operators_are_tried_in_order() {
    // `>=` is read as `>` followed by `=`, which then cannot start an expression.
    assert!(binary("a >= b").is_none());
    assert!(binary("a != b").is_some());
}

#[test]
fn aggregations_give_exact_values() {
    let items = vec![(t("3"), 2isize), (t("4"), 1isize), (t("x"), 5isize)];
    assert_eq!(SetCompreOp::Count.aggregate(&items).to_string(), "8");
    assert_eq!(SetCompreOp::Sum.aggregate(&items).to_string(), "10");
    assert_eq!(SetCompreOp::MaxAll.aggregate(&items).to_string(), "4");
    assert_eq!(SetCompreOp::MinAll.aggregate(&items).to_string(), "3");
    let none: Vec<(AtomicTerm, isize)> = vec![];
    assert_eq!(SetCompreOp::Count.aggregate(&none).to_string(), "0");
    assert_eq!(SetCompreOp::MaxAll.aggregate(&none).to_string(), isize::MIN.to_string());
    assert_eq!(SetCompreOp::MinAll.aggregate(&none).to_string(), isize::MAX.to_string());
}

#[test]
fn negation_becomes_a_count() {
    let p = predicate("no Edge(u, u)").unwrap().1;
    let var = AtomicTerm::gen_raw_variable_term("~dc0".to_string(), vec![]);
    let (c1, c2) = p.convert_negation(var).unwrap();
    assert_eq!(c1.to_string(), "~dc0 = count({ ~dc | ~dc is Edge(u, u) })");
    assert_eq!(c2.to_string(), "~dc0 = 0");
    let q = predicate("Edge(u, u)").unwrap().1;
    assert!(q.convert_negation(AtomicTerm::gen_raw_variable_term("~dc0".to_string(), vec![])).is_none());
}

#[test]
fn rules_replace_negations_and_set_comprehensions() {
    let r = rule("Nocycle(u) :- u is Node(_), no Edge(u, u).").unwrap().1;
    let formed = Rule::new(r.head, r.body);
    assert_eq!(
        formed.to_string(),
        "Nocycle(u) :- u is Node(_), ~dc0 = count({ ~dc | ~dc is Edge(u, u) }), ~dc0 = 0"
    );
    // A number right before the final dot takes the dot with it.
    assert!(rule("same :- count({ b | Edge(a, b) }) * 2 = 4.").is_none());
    let r2 = rule("same :- count({ b | Edge(a, b) }) * 2 = 4 .").unwrap().1;
    let formed2 = Rule::new(r2.head, r2.body);
    assert_eq!(
        formed2.to_string(),
        "same :- (~dc0 * 2) = 4, ~dc0 = count({ b | Edge(a, b) })"
    );
    let c = conformance("conforms no Edge(a, a).").unwrap().1;
    let formed3 = Rule::new(c.head, c.body);
    assert!(formed3.is_conformance_rule());
    assert_eq!(formed3.to_string(), "conforms :- ~dc0 = count({ ~dc | ~dc is Edge(a, a) }), ~dc0 = 0");
}

#[test]
fn names_count_up() {
    let mut g = NameGenerator::new("~dc");
    assert_eq!(g.generate_name(), "~dc0");
    assert_eq!(g.generate_name(), "~dc1");
}

#[test]
fn random_graphs_have_the_nodes_and_edges_asked_for() {
    let g = Graph::gen_random_graph(5, 6);
    assert_eq!(g.nodes(), vec![0, 1, 2, 3, 4]);
    let edges = g.edges();
    assert_eq!(edges.len(), 6);
    for w in edges.windows(2) {
        assert!(w[0] < w[1]);
    }
    for (a, b) in edges.iter() {
        assert!(*a < 5 && *b < 5);
    }
    let empty = Graph::gen_random_graph(0, 0);
    assert!(empty.nodes().is_empty());
}

#[test]
fn graph_add_node_and_edge() {
    let mut g = Graph::new_empty();
    assert!(g.add_node(3));
    assert!(!g.add_node(3));
    assert!(g.add_edge((1, 2)));
    assert!(!g.add_edge((1, 2)));
    assert_eq!(g.nodes(), vec![1, 2, 3]);
    assert!(g.contains_edge((1, 2)));
    assert!(!g.contains_edge((2, 1)));
}

#[test]
fn formula_programs_list_the_edges() {
    let text = formula_program("domain Graph { }", &vec![(0, 1), (2, 3)]);
    assert_eq!(
        text,
        "domain Graph { }\n model m of Graph {\n Edge(Node(0), Node(1)).\nEdge(Node(2), Node(3)).\n \n}"
    );
    let generated = gen_formula_program("D".to_string(), 4, 3);
    assert_eq!(generated.matches("Edge(Node(").count(), 3);
    assert!(generated.starts_with("D\n model m of Graph {\n "));
}

#[test]
fn string_atoms_keep_their_text() {
    match t("\"a b\"") {
        AtomicTerm::Atom(a) => match a.val {
            AtomEnum::Str(s) => assert_eq!(s, "a b"),
            _ => panic!("not a string"),
        },
        _ => panic!("not an atom"),
    }
}

fn formed(text: &str) -> Rule {
    let r = rule(text).unwrap().1;
    Rule::new(r.head, r.body)
}

#[test]
fn declarations_are_ordered_by_use() {
    let r = formed("Node(num) :- num = aggr * 1000, aggr = count({Edge(a, a), b | Edge(a, b)}).");
    let vars: Vec<String> = r.declaration_variables().iter().map(|v| v.to_string()).collect();
    assert_eq!(vars, vec!["num".to_string(), "aggr".to_string()]);
    let ordered = r.ordered_declaration_constraints();
    assert_eq!(ordered.len(), 2);
    assert_eq!(ordered[0].to_string(), "aggr = count({ Edge(a, a), b | Edge(a, b) })");
    assert_eq!(ordered[1].to_string(), "num = (aggr * 1000)");
    assert!(r.pure_constraints().is_empty());
    let (_, downgraded) = r.sort_declaration_constraints();
    assert!(downgraded.is_empty());
    assert!(r.validate());
}

#[test]
fn comparisons_that_declare_nothing_are_pure() {
    let r = formed("Big(a) :- Node(a), a > 3 .");
    assert!(r.declaration_variables().is_empty());
    let pure = r.pure_constraints();
    assert_eq!(pure.len(), 1);
    assert_eq!(pure[0].to_string(), "a > 3");
    assert!(r.validate());
    let matched: Vec<String> = r.predicate_matched_variables().iter().map(|v| v.to_string()).collect();
    assert_eq!(matched, vec!["a".to_string()]);
}

#[test]
fn a_second_declaration_is_downgraded() {
    let r = formed("X(n) :- n = 1, n = count({ b | Edge(b, b) }).");
    let (decls, downgraded) = r.sort_declaration_constraints();
    assert_eq!(decls.len(), 1);
    assert_eq!(decls[0].to_string(), "n = count({ b | Edge(b, b) })");
    assert_eq!(downgraded.len(), 1);
    assert_eq!(downgraded[0].to_string(), "n = 1");
    let candidates = r.get_body();
    assert_eq!(r.elect_declaration_constraint(&candidates).to_string(), "n = count({ b | Edge(b, b) })");
}

#[test]
fn rules_with_unbound_variables_are_not_valid() {
    assert!(!formed("Path(a, c) :- Edge(a, b).").validate());
    // A variable right before the final dot takes the dot with it.
    assert!(rule("X(x) :- Node(x), y.z = x.").is_none());
    assert!(!formed("X(x) :- Node(x), y.z = x .").validate());
    assert!(formed("Path(a, c) :- Edge(a, b), Edge(b, c).").validate());
}

#[test]
fn variables_of_expressions_and_rules() {
    let e = expr("count({ x | Edge(x, y) }) + z").unwrap().1;
    let names: Vec<String> = e.variables().iter().map(|v| v.to_string()).collect();
    assert_eq!(names, vec!["x".to_string(), "y".to_string(), "z".to_string()]);
    let r = formed("Path(a, c) :- Edge(a, b), Edge(b, c).");
    let all: Vec<String> = r.variables().iter().map(|v| v.to_string()).collect();
    assert_eq!(all, vec!["a".to_string(), "b".to_string(), "c".to_string()]);
    let level: Vec<String> = formed("N(k) :- k = count({ x | Node(x) }).")
        .variables_current_level()
        .iter()
        .map(|v| v.to_string())
        .collect();
    assert_eq!(level, vec!["k".to_string()]);
}

#[test]
fn merging_keeps_the_first_definitions_and_rules() {
    let r1 = formed("Path(a, b) :- Edge(a, b).");
    let r2 = formed("Path(a, c) :- Edge(a, b), Edge(b, c).");
    let m1 = MetaInfo::new(vec![("A".to_string(), RawType::TypeId("A1".to_string()))], vec![r1.duplicate()]);
    let m2 = MetaInfo::new(
        vec![
            ("A".to_string(), RawType::TypeId("A2".to_string())),
            ("B".to_string(), RawType::TypeId("B".to_string())),
        ],
        vec![r1.duplicate(), r2.duplicate()],
    );
    let m = m1.merge(&m2);
    assert_eq!(m.get_type_by_name("A").unwrap().to_string(), "A1");
    assert_eq!(m.get_type_by_name("B").unwrap().to_string(), "B");
    let rules = m.rules();
    assert_eq!(rules.len(), 2);
    assert!(rules[0].equals(&r1));
    assert!(rules[1].equals(&r2));
}

#[test]
fn types_resolve_in_a_module() {
    let mut known = Vec::new();
    differential_formula::type_def::import_builtin_types(&mut known);
    let defs = vec![
        differential_formula::combinator::typedef("Node ::= new(id: Integer).").unwrap().1,
        differential_formula::combinator::typedef("Edge ::= new(src: Node, dst: Node).").unwrap().1,
    ];
    let tm = differential_formula::type_def::create_types(&defs, &known).unwrap();
    let meta = MetaInfo::new(tm, vec![]);
    let resolved = t("Edge(Node(1), x)").resolve_sorts(&meta).unwrap();
    assert_eq!(resolved.to_string(), "Edge(Node(1), x)");
    assert!(t("Path(x)").resolve_sorts(&meta).is_none());
    let c = differential_formula::combinator::constraint("x : Node").unwrap().1;
    assert!(c.resolve_sorts(&meta).is_some());
    let bad = differential_formula::combinator::constraint("x : Path").unwrap().1;
    assert!(bad.resolve_sorts(&meta).is_none());
}

#[test]
fn evaluating_what_is_no_integer_gives_nothing() {
    let mut b = Binding::new();
    b.insert(t("a"), t("Node(1)"));
    b.insert(t("s"), t("\"text\""));
    assert!(expr("a").unwrap().1.evaluate(&b).is_none());
    assert!(expr("s").unwrap().1.evaluate(&b).is_none());
    assert!(expr("u").unwrap().1.evaluate(&b).is_none());
    assert!(expr("count({ x | Node(x) })").unwrap().1.evaluate(&b).is_none());
    assert!(expr("Node(2)").unwrap().1.evaluate(&b).is_none());
}

#[test]
fn declarations_that_use_each_other_in_a_cycle_cannot_be_ordered() {
    let r = formed("X(m, n) :- m = n + 1, n = m + 1 .");
    assert!(r.checked_sort_declaration_constraints().is_none());
    let ok = formed("Node(num) :- num = aggr * 1000, aggr = count({Edge(a, a), b | Edge(a, b)}).");
    let (decls, _) = ok.checked_sort_declaration_constraints().unwrap();
    assert_eq!(decls[0].to_string(), "aggr = count({ Edge(a, a), b | Edge(a, b) })");
}
