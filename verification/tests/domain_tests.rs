use differential_formula::combinator::{rule, typedef};
use differential_formula::converter::{convert_rule_head, DDLogFormat};
use differential_formula::domain::{create_domain, Domain, DomainAst};
use differential_formula::type_def::{create_types, import_builtin_types};

fn graph_domain() -> Domain {
    let defs = [
        "Node ::= new(id: Integer).",
        "Edge ::= new(src: Node, dst: Node).",
        "Item ::= Node + Edge.",
        "TwoEdge ::= new(one: Edge, two: Edge).",
    ];
    let types = defs.iter().map(|d| typedef(d).unwrap().1).collect();
    let rules = vec![
        rule("TwoEdge(Edge(Node(1), b), Edge(c, Node(2))) :- Edge(b, c).").unwrap().1,
        rule("Edge(a, c) :- Edge(a, b), Edge(b, c).").unwrap().1,
    ];
    let ast = DomainAst {
        name: "Graph".to_string(),
        types,
        rules,
        inherit_type: "None".to_string(),
        subdomains: vec![],
        renamed_subdomains: vec![],
    };
    create_domain(&ast, &vec![], &vec![]).unwrap()
}

#[test]
fn test_convert_type() {
    let graph = graph_domain();
    let edge_type = graph.metainfo.get_type_by_name("Edge").unwrap();
    let item_type = graph.metainfo.get_type_by_name("Item").unwrap();
    assert_eq!(edge_type.into_ddlog_format().unwrap(), "typedef Edge = { src: Node, dst: Node }");
    assert_eq!(
        item_type.into_ddlog_format().unwrap(),
        "typedef Item = Item_Node { t: Node } | Item_Edge { t: Edge }"
    );
    let r1 = graph.metainfo.rules()[0].duplicate();
    let t1 = r1.get_head()[0].duplicate();
    assert_eq!(t1.into_ddlog_format().unwrap(), "TwoEdge{ Edge{ Node{ 1 }, b }, Edge{ c, Node{ 2 } } }");
}

#[test]
fn domain_has_builtin_and_defined_types() {
    let graph = graph_domain();
    for name in ["String", "Integer", "Boolean", "~Undefined", "Node", "Edge", "Item", "TwoEdge"] {
        assert!(graph.metainfo.get_type_by_name(name).is_some(), "missing {}", name);
    }
    assert!(graph.metainfo.get_type_by_name("Path").is_none());
    assert_eq!(graph.metainfo.rules().len(), 2);
}

#[test]
fn domain_composite_types_come_after_their_arguments() {
    let graph = graph_domain();
    let sorted: Vec<String> = graph
        .metainfo
        .sorted_composite_types()
        .iter()
        .map(|t| t.type_id())
        .collect();
    let pos = |n: &str| sorted.iter().position(|x| x == n).unwrap();
    assert_eq!(sorted.len(), 3);
    assert!(pos("Node") < pos("Edge"));
    assert!(pos("Edge") < pos("TwoEdge"));
}

#[test]
fn undefined_type_name_is_refused() {
    let types = vec![typedef("Edge ::= new(src: Node, dst: Node).").unwrap().1];
    let mut known = Vec::new();
    import_builtin_types(&mut known);
    assert!(create_types(&types, &known).is_none());
}

#[test]
fn circular_type_definitions_are_refused() {
    let types = vec![
        typedef("A ::= new(b: B).").unwrap().1,
        typedef("B ::= new(a: A).").unwrap().1,
    ];
    let mut known = Vec::new();
    import_builtin_types(&mut known);
    assert!(create_types(&types, &known).is_none());
}

#[test]
fn rule_with_unknown_type_is_refused() {
    let ast = DomainAst {
        name: "G".to_string(),
        types: vec![typedef("Node ::= new(id: Integer).").unwrap().1],
        rules: vec![rule("Path(a) :- Node(a).").unwrap().1],
        inherit_type: "None".to_string(),
        subdomains: vec![],
        renamed_subdomains: vec![],
    };
    assert!(create_domain(&ast, &vec![], &vec![]).is_none());
}

#[test]
fn included_domain_types_are_taken_over() {
    let graph = graph_domain();
    let ast = DomainAst {
        name: "Walks".to_string(),
        types: vec![typedef("Walk ::= new(first: Edge, second: Edge).").unwrap().1],
        rules: vec![],
        inherit_type: "includes".to_string(),
        subdomains: vec!["Graph".to_string()],
        renamed_subdomains: vec![],
    };
    let walks = create_domain(&ast, &vec![graph], &vec![]).unwrap();
    assert!(walks.metainfo.get_type_by_name("Edge").is_some());
    assert!(walks.metainfo.get_type_by_name("Walk").is_some());
    assert_eq!(walks.metainfo.rules().len(), 0);
}

#[test]
fn renamed_domain_types_get_the_scope() {
    let graph = graph_domain();
    let ast = DomainAst {
        name: "Pair".to_string(),
        types: vec![],
        rules: vec![],
        inherit_type: "includes".to_string(),
        subdomains: vec![],
        renamed_subdomains: vec![("left".to_string(), "Graph".to_string())],
    };
    let pair = create_domain(&ast, &vec![], &vec![("left".to_string(), graph)]).unwrap();
    // A renamed type is named by its quoted scope and quoted base name.
    assert!(pair.metainfo.get_type_by_name("\"left\".\"Edge\"").is_some());
    assert!(pair.metainfo.get_type_by_name("Edge").is_none());
    // Base types keep their names.
    assert!(pair.metainfo.get_type_by_name("Integer").is_some());
}

#[test]
fn rule_head_in_ddlog() {
    let graph = graph_domain();
    let r2 = graph.metainfo.rules()[1].duplicate();
    let (head, bools) = convert_rule_head(&r2);
    assert_eq!(head, "Edge[Edge{ a, c }]");
    assert!(bools.is_empty());
}
