use differential_formula::combinator::{
    atom, base_expr, binary, comment, composite, composite_typedef, expr, id, skip,
    tagged_typename, typename, union_typedef, variable, variable_ast, varname,
};

#[test]
fn test_blank() {
    assert_eq!(comment("// comment \n\n").unwrap().0, "\n");
    assert_eq!(skip("// comment \t\n  \n .").unwrap().0, ".");
}

#[test]
fn combinator_test_components() {
    assert_eq!(id("xxx").unwrap().0, "");
    assert_eq!(varname("xx ").unwrap().0, " ");
    assert_eq!(varname("xx22' ").unwrap().0, " ");
    assert_eq!(varname("yy22'' ").unwrap().0, " ");
    assert_eq!(varname("_").unwrap().0, "");
    // A type name reaches up to the first character that is neither a letter,
    // a digit nor a dot.
    assert_eq!(typename("yyy ").unwrap().0, " ");
    assert_eq!(typename("b3aab2c ").unwrap().0, " ");
    assert_eq!(typename("left.Node ").unwrap().0, " ");
    assert_eq!(tagged_typename("id : Hello ").unwrap().0, " ");
    assert_eq!(tagged_typename("id : right.Hello ").unwrap().0, " ");
}

#[test]
fn combinator_test_term() {
    // A number at the end of a rule takes the rule's final dot with it.
    assert_eq!(atom("20.").unwrap().0, "");
    assert_eq!(atom("1.23").unwrap().0, "");
    assert_eq!(atom("true").unwrap().0, "");
    assert_eq!(atom("-122").unwrap().0, "");
    assert_eq!(atom("\"helloworld\"").unwrap().0, "");
    assert_eq!(atom("123E-02").unwrap().0, "");
    assert_eq!(atom("-11223344").unwrap().0, "");
    assert_eq!(variable("hello_world ").unwrap().0, " ");
    assert_eq!(variable_ast("hi ").unwrap().0, " ");
    assert_eq!(variable("a.b.c ").unwrap().0, " ");
    assert_eq!(composite("Edge(node1 , Node(\"hello\"))").unwrap().0, "");
    assert_eq!(composite("Node(\"hi\")").unwrap().0, "");
}

#[test]
fn combinator_test_typedef() {
    assert_eq!(composite_typedef("Edge ::= new(src: Node, dst : Node ).").unwrap().0, "");
    assert_eq!(composite_typedef("Edge ::= new(src: Left.Node, dst: Node).").unwrap().0, "");
    assert_eq!(union_typedef("X  ::= A + B + C+  D  .").unwrap().0, "");
}

#[test]
fn combinator_test_expr() {
    assert_eq!(base_expr("x ").unwrap().0, " ");
    assert_eq!(
        base_expr("count({a , udge(a, b) | X(m, 11.11),odge(a, a), Edge(b, Node(\"hello\")) })").unwrap().0,
        ""
    );
    assert_eq!(base_expr("minAll( 1 , {c, d | c is Node(a), d is Node(b)})").unwrap().0, "");
    assert_eq!(expr("a+b*c ,").unwrap().0, " ,");
    assert_eq!(expr("(a+b)*c ,").unwrap().0, " ,");

    let setcompre_str = "maxAll(10, {x | x is X(a, b, c)})";
    let expr1_str = &format!(" ( a + {}  ) /  b .", setcompre_str)[..];
    assert_eq!(expr(expr1_str).unwrap().0, " .");

    // `E` and `e` are read as variables, not as numbers.
    let binary1_str = &format!("(b + {}) / x = d + e .", setcompre_str)[..];
    assert_eq!(binary(binary1_str).unwrap().0, " .");
    assert_eq!(binary("aggr * 2 = 20 .").unwrap().0, " .");
}

#[test]
fn parser_test_components() {
    assert_eq!(id("xxx").unwrap().0, "");
    assert_eq!(varname("xx ").unwrap().0, " ");
    assert_eq!(varname("xx22' ").unwrap().0, " ");
    assert_eq!(varname("yy22'' ").unwrap().0, " ");
    assert_eq!(varname("_").unwrap().0, "");
    assert_eq!(typename("yyy").unwrap().0, "");
    assert_eq!(typename("b3aab2c").unwrap().0, "");
    assert_eq!(tagged_typename("id : Hello").unwrap().0, "");
}

#[test]
fn parser_test_term() {
    assert_eq!(atom("1.23").unwrap().0, "");
    assert_eq!(atom("true").unwrap().0, "");
    assert_eq!(atom("-122").unwrap().0, "");
    assert_eq!(atom("\"helloworld\"").unwrap().0, "");
    assert_eq!(atom("123E-02").unwrap().0, "");
    assert_eq!(atom("-11223344").unwrap().0, "");
    assert_eq!(variable("hello_world ").unwrap().0, " ");
    assert_eq!(variable_ast("hi ").unwrap().0, " ");
    assert_eq!(composite("Edge(node1 , Node(\"hello\"))").unwrap().0, "");
    assert_eq!(composite("Node(\"hi\")").unwrap().0, "");
}

#[test]
fn parser_test_typedef() {
    assert_eq!(composite_typedef("Edge ::= new(src: Node, dst : Node ).").unwrap().0, "");
    union_typedef("X  ::= A + B + C+  D  .");
}
