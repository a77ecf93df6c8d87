use differential_formula::binding::Binding;
use differential_formula::combinator::{base_expr, binary, expr, program, rule, term};
use differential_formula::integer::Integer;
use differential_formula::matching::TermTraversal;
use differential_formula::module::MetaInfo;
use differential_formula::term::{AtomEnum, AtomicTerm};
use std::collections::hash_map::DefaultHasher;
use std::hash::{Hash, Hasher};

fn calculate_hash<T: Hash>(t: &T) -> u64 {
    let mut s = DefaultHasher::new();
    t.hash(&mut s);
    s.finish()
}

/// The domain `Graph` of the program and the terms of its model, each under
/// its name, with the names used inside later terms replaced by the terms
/// they name and the types of composite terms resolved in the domain.
fn parse_program(text: &str) -> (MetaInfo, Vec<(String, AtomicTerm)>) {
    let (_, p) = program(text).unwrap();
    let domain = p.create_domain(&"Graph".to_string()).unwrap();
    let mut named: Vec<(String, AtomicTerm)> = vec![];
    for (alias, raw) in p.model_ast_map[0].models.iter() {
        let mut t = raw.duplicate();
        for (name, value) in named.iter() {
            t.replace_pattern(&term(&format!("{} ", name)).unwrap().1, value);
        }
        let t = t.resolve_sorts(&domain.metainfo).unwrap();
        if let Some(a) = alias {
            named.push((a.clone(), t));
        }
    }
    (domain.metainfo, named)
}

fn get<'a>(named: &'a Vec<(String, AtomicTerm)>, alias: &str) -> &'a AtomicTerm {
    &named.iter().find(|(a, _)| a == alias).unwrap().1
}

fn create_term(meta: &MetaInfo, text: &str) -> AtomicTerm {
    term(&format!("{} ", text)).unwrap().1.resolve_sorts(meta).unwrap()
}

/// The binding extended with the subterm that a variable with fragments stands
/// for, found from the binding of its root.
fn update_binding(var: &AtomicTerm, root: &AtomicTerm, labels: Vec<String>, binding: &mut Binding) {
    let value = binding.get(root).unwrap().find_subterm_by_labels(&labels).unwrap();
    binding.insert(var.duplicate(), value);
}

#[test]
fn test_term_bindings() {
    let program_text = "
        domain Graph {
            Node ::= new (name: Integer).
            Edge ::= new (src: Node, dst: Node).
            TwoEdge ::= new (one: Edge, two: Edge).
        }

        model g of Graph {
            n1 is Node(1). // n1x is Node(1).
            n2 is Node(2). // n2x is Node(2).
            n3 is Node(3).

            e1 is Edge(n1, n2).
            // e1x is Edge(n1, n2).
            e2 is Edge(n2, n3).
            //e2x is Edge(n2, Node(3)).
            te1 is TwoEdge(Edge(n1, n2), Edge(n2, n3)).

            // Terms that contain variables inside.
            nv1 is Node(x).
            ev1 is Edge(x, y).
            ev2 is Edge(Node(a), Node(b)).
            ev3 is Edge(_, Node(b)).
            ev4 is Edge(y, z).
            ev5 is Edge(a, a).
            tev1 is TwoEdge(x, y).

            // Terms for testing normalization
        }
    ";
    let (meta, named) = parse_program(program_text);
    let node1 = get(&named, "n1");
    let node2 = get(&named, "n2");
    let edge_n1_n2 = get(&named, "e1");
    let two_edge_e1_e2 = get(&named, "te1");
    let node_x = get(&named, "nv1");
    let edge_x_y = get(&named, "ev1");
    let edge_na_nb = get(&named, "ev2");
    let edge_x_nb = get(&named, "ev3");
    let edge_y_z = get(&named, "ev4");
    let edge_a_a = get(&named, "ev5");
    let two_edge_x_y = get(&named, "tev1");

    // -------- Term equality --------
    let node1_no_alias = create_term(&meta, "Node(1)");
    assert!(node1.equals(&node1_no_alias));
    let x = create_term(&meta, "x");
    let xyz = create_term(&meta, "x.y.z");
    // The root is a term without fragments.
    assert!(xyz.root().equals(&x));
    // Variable terms with same root but different fragments.
    assert!(!x.equals(&xyz));

    // -------- Term replacement --------
    let x = create_term(&meta, "x");
    let e_x_y = edge_n1_n2.duplicate();
    let mut e_n1_y = e_x_y.duplicate();
    e_n1_y.replace_pattern(&x, node1);
    let e_n1_n2 = e_n1_y.duplicate();
    assert!(e_n1_n2.equals(edge_n1_n2));

    // -------- Term bindings --------
    let binding1 = node_x.match_to(node1).unwrap();
    let mut binding2 = edge_x_y.match_to(edge_n1_n2).unwrap();
    let binding3 = edge_na_nb.match_to(edge_n1_n2);
    assert!(binding3.is_some());
    let binding4 = edge_x_nb.match_to(edge_n1_n2);
    assert!(binding4.is_some());
    let mut binding5 = two_edge_x_y.match_to(two_edge_e1_e2).unwrap();
    let edge_uu = create_term(&meta, "Edge(u, u)");
    let binding6 = edge_uu.match_to(edge_n1_n2);
    assert!(binding6.is_none());

    let new_n1 = node_x.propagate(&binding1);
    let new_e1 = edge_x_y.propagate(&binding2);
    assert!(node1.equals(&new_n1));
    assert!(edge_n1_n2.equals(&new_e1));

    // -------- Extension of term bindings --------
    let var = create_term(&meta, "x.name");
    update_binding(&var, &x, vec!["name".to_string()], &mut binding2);
    let atom1 = create_term(&meta, "1");
    assert!(binding2.get(&var).unwrap().equals(&atom1));

    let var1 = create_term(&meta, "x.src");
    let var2 = create_term(&meta, "x.src.name");
    update_binding(&var1, &x, vec!["src".to_string()], &mut binding5);
    assert!(binding5.get(&var1).unwrap().equals(node1));
    update_binding(&var2, &var1, vec!["name".to_string()], &mut binding5);
    assert!(binding5.get(&var2).unwrap().equals(&atom1));
    assert!(!node2.equals(node1));

    // -------- Term normalization --------
    let normalized_ev1 = edge_x_y.normalize().0;
    let normalized_ev4 = edge_y_z.normalize().0;
    let normalized_ev5 = edge_a_a.normalize().0;
    assert!(normalized_ev1.equals(&normalized_ev4));
    assert!(!normalized_ev4.equals(&normalized_ev5));
}

#[test]
fn test_subterm() {
    let program_text = "
        domain Graph {
            Node ::= new (name: Integer).
            Edge ::= new (src: Node, dst: Node).
            TwoEdge ::= new (one: Edge, two: Edge).
        }

        model g of Graph {
            n1 is Node(1).
            n2 is Node(2).
            n3 is Node(3).
            x1 is Edge(n1, n2).
            x2 is Edge(n2, n3).
            te1 is TwoEdge(x1, x2).
            te2 is TwoEdge(x2, x1).
        }
    ";
    let (_meta, named) = parse_program(program_text);
    let n1 = get(&named, "n1");
    let n2 = get(&named, "n2");
    let x1 = get(&named, "x1");
    let te1 = get(&named, "te1");
    let te2 = get(&named, "te2");

    let labels = |v: &[&str]| v.iter().map(|s| s.to_string()).collect::<Vec<String>>();

    // `x.one` in te1.
    let subterm1 = te1.find_subterm_by_labels(&labels(&["one"])).unwrap();
    assert!(subterm1.equals(x1));
    let subterm1x = te1.find_subterm_by_labels(&labels(&["one"])).unwrap();
    assert!(subterm1x.equals(x1));
    // `x.one.src` in te1.
    let subterm2 = te1.find_subterm_by_labels(&labels(&["one", "src"])).unwrap();
    assert!(subterm2.equals(n1));
    // `y.two.dst` in te2.
    let subterm3 = te2.find_subterm_by_labels(&labels(&["two", "dst"])).unwrap();
    assert!(subterm3.equals(n2));
    // Given unmatched label at the beginning: `x.wrong`.
    assert!(te1.find_subterm_by_labels(&labels(&["wrong"])).is_none());
    // Given unmatched label at the end: `y.two.dst.wrong`.
    assert!(te1.find_subterm_by_labels(&labels(&["two", "dst", "wrong"])).is_none());
}

#[test]
fn test_implicit_variable_constraints() {
    let e1 = term("Edge(Node(\"hello\"), Node(\"world\"))").unwrap().1;
    let edge_ab = term("Edge(a, b)").unwrap().1;
    let edge_uu = term("Edge(u, u)").unwrap().1;
    let binding1 = edge_ab.match_to(&e1);
    let binding2 = edge_uu.match_to(&e1);
    assert!(binding1.is_some());
    assert!(binding2.is_none());
}

#[test]
fn test_term_equality() {
    let atom1 = AtomicTerm::gen_atom_term(AtomEnum::Int(Integer::new(1)));
    let atom1_copy = AtomicTerm::gen_atom_term(AtomEnum::Int(Integer::new(1)));
    let atom2 = AtomicTerm::gen_atom_term(AtomEnum::Int(Integer::new(2)));
    let var1 = term("x.y.z ").unwrap().1;
    let c1 = term("E(1, x.y.z )").unwrap().1;
    let c1_copy = term("E(1, x.y.z )").unwrap().1;
    assert!(!atom1.equals(&atom2));
    assert_eq!(atom1.equals(&atom1_copy), true);
    assert_eq!(c1.equals(&c1_copy), true);
    let list = vec![c1.duplicate(), atom1.duplicate()];
    let list_copy = vec![c1_copy.duplicate(), atom1.duplicate()];
    assert_eq!(differential_formula::expression::terms_equal(&list, &list_copy), true);
    assert_eq!(atom1.equals(&c1), false);
    assert_eq!(calculate_hash(&atom1), calculate_hash(&atom1_copy));
    assert_eq!(calculate_hash(&c1), calculate_hash(&c1_copy));
    assert_eq!(var1.to_string(), "x.y.z");
}

#[test]
fn test_term_methods() {
    let e1 = term("Edge(Node(\"hello\"), Node(\"world\"))").unwrap().1;
    let e2 = term("Edge(x, Node(\"world\"))").unwrap().1;
    let e3 = term("Edge(x, y)").unwrap().1;
    let map1 = e2.match_to(&e1).unwrap();
    let map2 = e3.match_to(&e1).unwrap();
    // variables()
    assert_eq!(e2.variables().len(), 1);
    assert_eq!(e3.variables().len(), 2);
    // is_groundterm()
    assert_eq!(e1.is_groundterm(), true);
    assert_eq!(e2.is_groundterm(), false);
    // bindings
    assert_eq!(map1.len(), 1);
    assert_eq!(map2.len(), 2);
    // propagation
    let e2x = e2.propagate(&map1);
    let e3x = e3.propagate(&map2);
    assert_eq!(e2x.is_groundterm(), true);
    assert_eq!(e3x.is_groundterm(), true);
}

#[test]
fn parser_test_expr() {
    assert_eq!(base_expr("x ").unwrap().0, " ");
    assert_eq!(
        base_expr("count({a , udge(a, b) | X(m, 11.11),odge(a, a), Edge(b, Node(\"hello\")) })").unwrap().0,
        ""
    );
    assert_eq!(base_expr("minAll( 1 , {c, d | c is Node(a), d is Node(b)})").unwrap().0, "");
    assert_eq!(expr("a+b*c ,").unwrap().0, " ,");
    assert_eq!(expr("(a+b)*c ,").unwrap().0, " ,");

    let setcompre_str = "maxAll(10, {x | x is X(a, b, c)})";
    let expr1_str = format!(" ( a + {}  ) /  b .", setcompre_str);
    assert_eq!(expr(&expr1_str).unwrap().0, " .");

    let binary1_str = format!("(b + {}) / x = d + e .", setcompre_str);
    assert_eq!(binary(&binary1_str).unwrap().0, " .");

    // A rule here takes its closing dot with it.
    let rule_str = "Edge(a, b) :- Edge(b, c), Edge(c, a).";
    assert_eq!(rule(rule_str).unwrap().0, "");
}

#[test]
fn variables_shared_and_apart() {
    let a = term("Edge(x, Node(y))").unwrap().1;
    let b = term("Pair(y, z, _)").unwrap().1;
    let (shared, left, right) = a.variable_diff(&b);
    let texts = |v: &Vec<AtomicTerm>| v.iter().map(|t| t.to_string()).collect::<Vec<String>>();
    assert_eq!(texts(&shared), vec!["y"]);
    assert_eq!(texts(&left), vec!["x"]);
    assert_eq!(texts(&right), vec!["z"]);
}

#[test]
fn renaming_meta_information_keeps_the_rules() {
    let mut known = Vec::new();
    differential_formula::type_def::import_builtin_types(&mut known);
    let defs = vec![
        differential_formula::combinator::typedef("Node ::= new(id: Integer).").unwrap().1,
        differential_formula::combinator::typedef("Edge ::= new(src: Node, dst: Node).").unwrap().1,
    ];
    let tm = differential_formula::type_def::create_types(&defs, &known).unwrap();
    let r = rule("Edge(a, c) :- Edge(a, b), Edge(b, c).").unwrap().1;
    let mut meta = MetaInfo::new(tm, vec![]);
    meta.add_rule(r.to_rule(&meta).unwrap());
    let renamed = meta.rename("left".to_string());
    assert_eq!(renamed.rules().len(), 1);
    assert_eq!(renamed.rules()[0].to_string(), "\"left\".\"Edge\"(lefta, leftc) :- \"left\".\"Edge\"(lefta, leftb), \"left\".\"Edge\"(leftb, leftc)");
}

#[test]
fn creating_a_type_puts_it_and_what_it_uses_into_the_map() {
    let mut type_map = Vec::new();
    differential_formula::type_def::import_builtin_types(&mut type_map);
    let defs = vec![
        differential_formula::combinator::typedef("Node ::= new(id: Integer).").unwrap().1,
        differential_formula::combinator::typedef("Edge ::= new(src: Node, dst: Node).").unwrap().1,
    ];
    let edge = differential_formula::type_def::create_raw_type("Edge", &defs, &mut type_map).unwrap();
    assert_eq!(type_map.len(), 6);
    assert!(type_map.iter().any(|(n, _)| n == "Node"));
    assert_eq!(type_map.iter().find(|(n, _)| n == "Edge").unwrap().1.to_string(), edge.to_string());
    let mut unchanged = Vec::new();
    differential_formula::type_def::import_builtin_types(&mut unchanged);
    assert!(differential_formula::type_def::create_raw_type("Path", &defs, &mut unchanged).is_none());
    assert_eq!(unchanged.len(), 4);
}

#[test]
fn fragments_beyond_a_shorter_variable() {
    let a = term("x.src").unwrap().1;
    let b = term("x.src.id").unwrap().1;
    assert_eq!(AtomicTerm::fragments_diff(&a, &b), Some(vec!["id".to_string()]));
    assert_eq!(AtomicTerm::fragments_diff(&b, &a), None);
    let c = term("y.src.id").unwrap().1;
    assert_eq!(AtomicTerm::fragments_diff(&a, &c), None);
    let d = term("x.dst").unwrap().1;
    assert_eq!(AtomicTerm::fragments_diff(&d, &b), None);
}

#[test]
fn terms_split_by_intersection() {
    let a = vec![term("x").unwrap().1, term("y").unwrap().1, term("1").unwrap().1];
    let b = vec![term("y").unwrap().1, term("z").unwrap().1];
    let (only_a, both, only_b) = AtomicTerm::terms_intersection(&a, &b);
    let texts = |v: &Vec<AtomicTerm>| v.iter().map(|t| t.to_string()).collect::<Vec<String>>();
    assert_eq!(texts(&only_a), vec!["1", "x"]);
    assert_eq!(texts(&both), vec!["y"]);
    assert_eq!(texts(&only_b), vec!["z"]);
}

#[test]
fn parts_come_out_sorted() {
    let a = term("Edge(b, a, Node(d))").unwrap().1;
    let b = term("Pair(d, c, e)").unwrap().1;
    let texts = |v: &Vec<AtomicTerm>| v.iter().map(|t| t.to_string()).collect::<Vec<String>>();
    let (shared, left, right) = a.variable_diff(&b);
    assert_eq!(texts(&shared), vec!["d"]);
    assert_eq!(texts(&left), vec!["a", "b"]);
    assert_eq!(texts(&right), vec!["c", "e"]);
    let xs = vec![term("z").unwrap().1, term("10").unwrap().1, term("9").unwrap().1, term("z").unwrap().1];
    let (only, both, other) = AtomicTerm::terms_intersection(&xs, &vec![]);
    assert_eq!(texts(&only), vec!["9", "10", "z"]);
    assert!(both.is_empty() && other.is_empty());
}

#[test]
fn composite_patterns_need_the_same_type() {
    let p = term("Node(x)").unwrap().1;
    assert!(p.match_to(&term("Node(1)").unwrap().1).is_some());
    assert!(p.match_to(&term("Edge(1)").unwrap().1).is_none());
    assert!(p.match_to(&term("1").unwrap().1).is_none());
}
