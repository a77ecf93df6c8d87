use differential_formula::combinator::{constraint, expr, rule, term};
use differential_formula::rule::Rule;
use differential_formula::term::AtomicTerm;

fn t(text: &str) -> AtomicTerm {
    term(text).unwrap().1
}

#[test]
fn replacing_a_variable_in_a_term() {
    let mut e = t("Edge(x, Node(x))");
    e.replace_pattern(&t("x "), &t("Node(1)"));
    assert_eq!(e.to_string(), "Edge(Node(1), Node(Node(1)))");
}

#[test]
fn replacing_a_subterm_from_the_outside_in() {
    let mut e = t("Pair(Node(Node(1)), Node(1))");
    e.replace_pattern(&t("Node(1)"), &t("y "));
    assert_eq!(e.to_string(), "Pair(Node(y), y)");
    let mut whole = t("Node(1)");
    whole.replace_pattern(&t("Node(1)"), &t("Edge(a, b)"));
    assert_eq!(whole.to_string(), "Edge(a, b)");
}

#[test]
fn replacing_what_is_not_there_changes_nothing() {
    let mut e = t("Edge(a, b)");
    e.replace_pattern(&t("c "), &t("Node(1)"));
    assert_eq!(e.to_string(), "Edge(a, b)");
    let mut same = t("Edge(a, Node(2))");
    same.replace_pattern(&t("Node(2)"), &t("Node(2)"));
    assert_eq!(same.to_string(), "Edge(a, Node(2))");
}

#[test]
fn replacing_in_expressions_and_constraints() {
    let mut e = expr("a + b * a ,").unwrap().1;
    e.replace_pattern(&t("a "), &t("2"));
    assert_eq!(e.to_string(), "(2 + (b * 2))");
    let mut c = constraint("x = count({ y | Edge(x, y) }) .").unwrap().1;
    c.replace_pattern(&t("x "), &t("Node(1)"));
    assert_eq!(c.to_string(), "Node(1) = count({ y | Edge(Node(1), y) })");
}

#[test]
fn set_comprehensions_from_left_to_right() {
    let e = expr("count({ a | X(a) }) + maxAll(0, { b | Y(b) }) * c ,").unwrap().1;
    let found = e.set_comprehensions();
    assert_eq!(found.len(), 2);
    assert_eq!(found[0].to_string(), "count({ a | X(a) })");
    assert_eq!(found[1].to_string(), "maxAll({ b | Y(b) })");
    assert!(expr("a + b ,").unwrap().1.set_comprehensions().is_empty());
}

#[test]
fn replacing_in_a_rule() {
    let r = rule("Edge(a, c) :- Edge(a, b), Edge(b, c).").unwrap().1;
    let mut formed = Rule::new(r.head, r.body);
    formed.replace_pattern(&t("b "), &t("Node(1)"));
    assert_eq!(formed.to_string(), "Edge(a, c) :- Edge(a, Node(1)), Edge(Node(1), c)");
}
