use differential_formula::combinator::term;
use differential_formula::integer::Integer;
use differential_formula::term::AtomicTerm;
use differential_formula::term_store::UUIdTermStore;

fn t(s: &str) -> AtomicTerm {
    term(s).unwrap().1
}

fn texts(v: &Vec<AtomicTerm>) -> Vec<String> {
    v.iter().map(|x| x.to_string()).collect()
}

#[test]
fn each_term_gets_one_id_counted_from_zero() {
    let store = UUIdTermStore::new(vec![t("Node(1)"), t("Node(2)"), t("Node(1)")], vec![]);
    assert_eq!(texts(&store.terms()), vec!["Node(1)", "Node(2)"]);
    assert_eq!(store.get_id_by_term(&t("Node(2)")).unwrap().to_string(), "1");
    assert_eq!(store.get_term_by_id(&Integer::new(0)).unwrap().to_string(), "Node(1)");
    assert!(store.get_term_by_id(&Integer::new(2)).is_none());
    assert!(store.get_id_by_term(&t("Node(3)")).is_none());
}

#[test]
fn aliases_are_expanded_in_terms_and_aliases() {
    let store = UUIdTermStore::new(
        vec![t("Edge(a, b)")],
        vec![
            ("a".to_string(), t("Node(1)")),
            ("b".to_string(), t("Node(c)")),
            ("c".to_string(), t("Node(2)")),
        ],
    );
    assert_eq!(texts(&store.terms()), vec!["Edge(Node(1), Node(Node(2)))"]);
    assert_eq!(store.get_term_by_alias(&"b".to_string()).to_string(), "Node(Node(2))");
    assert_eq!(store.get_term_by_alias(&"a".to_string()).to_string(), "Node(1)");
}

#[test]
fn a_later_alias_for_a_name_wins() {
    let store = UUIdTermStore::new(
        vec![],
        vec![("a".to_string(), t("Node(1)")), ("a".to_string(), t("Node(2)"))],
    );
    assert_eq!(store.alias_map().len(), 1);
    assert_eq!(store.get_term_by_alias(&"a".to_string()).to_string(), "Node(2)");
}

#[test]
fn adding_and_removing_terms() {
    let mut store = UUIdTermStore::new(vec![t("Node(1)")], vec![("n".to_string(), t("Node(1)"))]);
    let added = store.add_term(t("Node(2)"));
    assert_eq!(added.to_string(), "Node(2)");
    assert!(store.contains_term(&t("Node(2)")));
    assert_eq!(store.get_id_by_term(&t("Node(2)")).unwrap().to_string(), "1");
    store.add_term(t("Node(1)"));
    assert_eq!(store.terms().len(), 2);
    assert_eq!(store.remove_term(&t("Node(1)")).unwrap().to_string(), "Node(1)");
    assert!(!store.contains_term(&t("Node(1)")));
    assert_eq!(store.alias_map().len(), 0);
    assert!(store.remove_term(&t("Node(1)")).is_none());
    let removed = store.remove_term_by_id(&Integer::new(1)).unwrap();
    assert_eq!(removed.0.to_string(), "1");
    assert_eq!(removed.1.to_string(), "Node(2)");
    assert_eq!(store.terms().len(), 0);
    assert!(store.remove_term_by_id(&Integer::new(1)).is_none());
    let again = store.add_term(t("Node(3)"));
    assert_eq!(again.to_string(), "Node(3)");
    assert_eq!(store.get_id_by_term(&t("Node(3)")).unwrap().to_string(), "2");
}

#[test]
fn renaming_moves_the_aliases_into_the_scope() {
    let store = UUIdTermStore::new(vec![t("Edge(a, y)")], vec![("a".to_string(), t("Node(x)"))]);
    let renamed = store.rename("s".to_string(), &vec![]);
    assert_eq!(texts(&renamed.terms()), texts(&store.terms()));
    let aliases = renamed.alias_map();
    assert_eq!(aliases.len(), 1);
    assert_eq!(aliases[0].0, "s.a");
    assert_eq!(aliases[0].1.to_string(), t("Node(x)").rename("s".to_string()).to_string());
}
