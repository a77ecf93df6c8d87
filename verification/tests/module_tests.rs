use differential_formula::combinator::{
    domain, model, module_sentence, program, subdomain, tagged_domain, transform, transform_param,
    transformation,
};
use differential_formula::module_parser::{ModuleSentenceAst, TransformParamAst};
use differential_formula::domain::Domain;
use differential_formula::program::{load_program, Env};

const GRAPH_DOMAIN: &str = "domain Graph { 
                Node ::= new(id: String). 
                Edge ::= new(src:Node, dst: Node). 
                Item ::= Node + Edge.

                Edge(a, c) :- Edge(a, b), Edge(b, c).
            }";

const GRAPH_MODEL1: &str = "model m of Graph {
                Node(\"helloworld\") .
                Edge(Node(\"hello\"), Node(\"world\")).
            }";

const GRAPH_MODEL2: &str = "model m of Graph {
                n1 is Node(\"helloworld\") .
                e1 is Edge(n1, n1).
            }";

#[test]
fn test_program() {
    assert_eq!(domain(GRAPH_DOMAIN).unwrap().0, "");
    assert_eq!(model(GRAPH_MODEL1).unwrap().0, "");
    assert_eq!(model(GRAPH_MODEL2).unwrap().0, "");

    let program1_str = format!("{}EOF", GRAPH_DOMAIN);
    assert_eq!(program(&program1_str).unwrap().0, "EOF");

    let program2_str = format!("{} {}EOF", GRAPH_DOMAIN, GRAPH_MODEL1);
    assert_eq!(program(&program2_str).unwrap().0, "EOF");

    let program3_str = format!("{} {}EOF", GRAPH_DOMAIN, GRAPH_MODEL2);
    assert_eq!(program(&program3_str).unwrap().0, "EOF");
}

#[test]
fn domain_sentences_are_split_into_types_and_rules() {
    let (_, d) = domain(GRAPH_DOMAIN).unwrap();
    assert_eq!(d.name, "Graph");
    assert_eq!(d.types.len(), 3);
    assert_eq!(d.rules.len(), 1);
    assert_eq!(d.inherit_type, "None");
    assert!(d.subdomains.is_empty());
    assert!(d.renamed_subdomains.is_empty());
}

#[test]
fn subdomains_with_and_without_scope() {
    let (left, x) = subdomain("left:: Graph, right").unwrap();
    assert_eq!(left, ", right");
    assert_eq!(x, (Some("left".to_string()), "Graph".to_string()));
    let (left, x) = subdomain("Graph {").unwrap();
    assert_eq!(left, " {");
    assert_eq!(x, (None, "Graph".to_string()));
    assert!(subdomain("::Graph").is_none());
}

#[test]
fn inherited_domains_keep_the_last_one_under_a_scope() {
    let text = "domain Pair extends Graph, left:: Graph, right:: Graph, left:: Other { }";
    let (rest, d) = domain(text).unwrap();
    assert_eq!(rest, "");
    assert_eq!(d.inherit_type, "extends");
    assert_eq!(d.subdomains, vec!["Graph".to_string()]);
    assert_eq!(
        d.renamed_subdomains,
        vec![
            ("left".to_string(), "Other".to_string()),
            ("right".to_string(), "Graph".to_string())
        ]
    );
    let (_, d2) = domain("domain Big includes Graph {\n}").unwrap();
    assert_eq!(d2.inherit_type, "includes");
    assert_eq!(d2.subdomains, vec!["Graph".to_string()]);
}

#[test]
fn sentences_need_something_between_them() {
    assert!(domain("domain D { A ::= new(x: Integer).}").is_none());
    assert!(domain("domain D { A ::= new(x: Integer).B ::= new(y: A). }").is_none());
    let (rest, d) = domain("domain D { A ::= new(x: Integer). B ::= new(y: A). }").unwrap();
    assert_eq!(rest, "");
    assert_eq!(d.types.len(), 2);
}

#[test]
fn terms_in_a_domain_are_left_out() {
    let (rest, d) = domain("domain D { A ::= new(x: Integer). A(1) . }").unwrap();
    assert_eq!(rest, "");
    assert_eq!(d.types.len(), 1);
    assert!(d.rules.is_empty());
}

#[test]
fn module_sentences_of_each_kind() {
    let (rest, x) = module_sentence("Edge(a, c) :- Edge(a, b), Edge(b, c). next").unwrap();
    assert_eq!(rest, " next");
    assert!(matches!(x, ModuleSentenceAst::Rule(_)));
    let (_, x) = module_sentence("conforms no Edge(a, a).").unwrap();
    assert!(matches!(x, ModuleSentenceAst::Rule(_)));
    let (_, x) = module_sentence("Item ::= Node + Edge.").unwrap();
    assert!(matches!(x, ModuleSentenceAst::Type(_)));
    let (rest, x) = module_sentence("Node(1) // one\n .").unwrap();
    assert_eq!(rest, "");
    assert!(matches!(x, ModuleSentenceAst::Term(_)));
    assert!(module_sentence("Node(1)").is_none());
}

#[test]
fn model_terms_keep_their_names() {
    let (_, m) = model(GRAPH_MODEL2).unwrap();
    assert_eq!(m.model_name, "m");
    assert_eq!(m.domain_name, "Graph");
    assert_eq!(m.models.len(), 2);
    assert_eq!(m.models[0].0, Some("n1".to_string()));
    assert_eq!(m.models[1].0, Some("e1".to_string()));
    assert_eq!(m.models[1].1.to_string(), "Edge(n1, n1)");
    let (_, m1) = model(GRAPH_MODEL1).unwrap();
    assert_eq!(m1.models[0].0, None);
    assert_eq!(m1.inherit_type, "None");
}

#[test]
fn model_with_comments_between_terms() {
    let text = "model g of Graph {\n n1 is Node(1). // n1x is Node(1).\n // nothing\n Node(2).\n}";
    let (rest, m) = model(text).unwrap();
    assert_eq!(rest, "");
    assert_eq!(m.models.len(), 2);
}

#[test]
fn transformation_uses() {
    let (rest, t) = transformation("r = Del(1, LittleCycle)").unwrap();
    assert_eq!(rest, "");
    assert_eq!(t.result_name, "r");
    assert_eq!(t.transform_name, "Del");
    assert_eq!(t.params.len(), 2);
    assert_eq!(t.params[0].to_string(), "1");
    assert_eq!(t.params[1].to_string(), "LittleCycle");
    assert!(transformation("r = Del (1)").is_none());
}

#[test]
fn transformation_parameters() {
    let (rest, d) = tagged_domain("in :: Graph)").unwrap();
    assert_eq!(rest, ")");
    assert_eq!((d.tag.as_str(), d.domain.as_str()), ("in", "Graph"));
    let (_, p) = transform_param("in:: Graph").unwrap();
    assert!(matches!(p, TransformParamAst::TaggedDomain(_)));
    let (_, p) = transform_param("n: Integer").unwrap();
    match p {
        TransformParamAst::TaggedType(t) => {
            assert_eq!(t.tag, "n");
            assert_eq!(t.formula_type.name, "Integer");
        }
        _ => panic!("expected a type"),
    }
}

#[test]
fn transforms_with_parameters_and_sentences() {
    let text = "transform Del (n: Integer, GraphIn:: Graph) returns (GraphOut:: Graph) {
        GraphOut.Node(x) :- GraphIn.Node(x), x != n, GraphIn.Edge(x, x).
        Extra ::= new(k: Integer).
        Extra(1) .
    }";
    let (rest, t) = transform(text).unwrap();
    assert_eq!(rest, "");
    assert_eq!(t.transform_name, "Del");
    assert_eq!(t.inputs.len(), 2);
    assert_eq!(t.output.len(), 1);
    assert_eq!(t.output[0].tag, "GraphOut");
    assert_eq!(t.rules.len(), 1);
    assert_eq!(t.typedefs.len(), 1);
    assert_eq!(t.terms.len(), 1);
}

#[test]
fn programs_keep_one_module_per_name() {
    let text = format!(
        "{}\n{}\n{}\ndomain Graph {{ Other ::= new(x: Integer). }}\nEOF",
        GRAPH_DOMAIN, GRAPH_MODEL1, GRAPH_MODEL2
    );
    let (rest, p) = program(&text).unwrap();
    assert_eq!(rest, "EOF");
    assert_eq!(p.domain_ast_map.len(), 1);
    assert_eq!(p.domain_ast_map[0].types.len(), 1);
    assert_eq!(p.model_ast_map.len(), 1);
    assert_eq!(p.model_ast_map[0].models[0].0, Some("n1".to_string()));
}

#[test]
fn programs_build_domains_with_what_they_include() {
    let text = format!(
        "{}\ndomain Pair includes Graph, left:: Graph {{\n Link ::= new(a: Node, b: Edge).\n}}\nEOF",
        GRAPH_DOMAIN
    );
    let (_, p) = program(&text).unwrap();
    let pair = p.create_domain(&"Pair".to_string()).unwrap();
    assert_eq!(pair.name, "Pair");
    assert!(pair.metainfo.get_type_by_name("Node").is_some());
    assert!(pair.metainfo.get_type_by_name("\"left\".\"Node\"").is_some());
    assert!(pair.metainfo.get_type_by_name("Link").is_some());
    assert!(p.create_domain(&"Missing".to_string()).is_none());
    let env = load_program(text).unwrap();
    assert_eq!(env.domain_map.len(), 2);
    assert_eq!(env.domain_map[0].name, "Graph");
    assert_eq!(env.domain_map[0].metainfo.rules().len(), 1);
    assert_eq!(env.domain_map[1].name, "Pair");
    assert_eq!(env.get_domain_by_name("Pair").unwrap().name, "Pair");
    assert!(env.get_domain_by_name("Other").is_none());
    for builtin in ["String", "Integer", "Boolean", "~Undefined"] {
        assert!(pair.metainfo.get_type_by_name(builtin).is_some());
    }
}

#[test]
fn renamed_domains_get_the_scope_in_their_name() {
    let text = format!("{}\nEOF", GRAPH_DOMAIN);
    let env = load_program(text).unwrap();
    let graph = env.get_domain_by_name("Graph").unwrap();
    let renamed = graph.rename("left".to_string());
    assert_eq!(renamed.name, "left.Graph");
    assert!(renamed.metainfo.get_type_by_name("\"left\".\"Edge\"").is_some());
    assert!(renamed.metainfo.rules().is_empty());
    let plain = Domain::new("Empty".to_string(), vec![], vec![]);
    assert_eq!(plain.name, "Empty");
    assert!(plain.metainfo.type_map().is_empty());
    assert!(Env::new().get_domain_by_name("Graph").is_none());
}

#[test]
fn domains_that_include_one_another_are_not_built() {
    let text = "domain A includes B { }\ndomain B includes A { }\nEOF";
    let (_, p) = program(text).unwrap();
    assert!(p.create_domain(&"A".to_string()).is_none());
    assert!(p.build_env().is_none());
    let missing = "domain A includes C { }\nEOF";
    let (_, p2) = program(missing).unwrap();
    assert!(p2.create_domain(&"A".to_string()).is_none());
}
